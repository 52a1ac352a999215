//! catprinterd: the verified logic of an IPP Everywhere driver for Bluetooth "cat" thermal
//! printers.

use vstd::prelude::*;

pub mod adopt;
pub mod adopt_laws;
pub mod ble;
pub mod commands;
pub mod config;
pub mod config_laws;
pub mod doctor;
pub mod doctor_laws;
pub mod engine;
pub mod http;
pub mod http_laws;
pub mod ipp;
pub mod models;
pub mod printer;
pub mod protocol;
pub mod raster;
pub mod render;
pub mod text;
pub mod text_laws;

verus! {

/// Version of this crate.
pub const VERSION: &'static str = "0.2.6";

} // verus!
