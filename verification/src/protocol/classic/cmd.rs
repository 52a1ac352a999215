//! Command identifiers of the classic family (byte 2 of a frame).

use vstd::prelude::*;

verus! {

/// A1: set paper (payload `30 00`).
pub const SET_PAPER: u8 = 0xA1;

/// A2: raw bitmap row (48 bytes, lowest bit leftmost).
pub const DRAW_BITMAP: u8 = 0xA2;

/// A3: get device state.
pub const GET_DEV_STATE: u8 = 0xA3;

/// A4: set quality (`0x32` = 200 dpi).
pub const SET_QUALITY: u8 = 0xA4;

/// A6: control lattice (start / end).
pub const LATTICE: u8 = 0xA6;

/// A8: get device info.
pub const GET_DEV_INFO: u8 = 0xA8;

/// AE: notification that the printer is ready.
pub const READY: u8 = 0xAE;

/// AF: set energy (u16 big-endian).
pub const SET_ENERGY: u8 = 0xAF;

/// BD: feed paper (u8 lines).
pub const FEED_PAPER: u8 = 0xBD;

/// BE: draw mode (0 image / 1 text), also used as "apply energy".
pub const DRAW_MODE: u8 = 0xBE;

/// BF: run-length-encoded bitmap row.
pub const DRAW_BITMAP_RLE: u8 = 0xBF;

} // verus!
