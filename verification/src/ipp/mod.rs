//! IPP Everywhere printer: request validation, operations, printer and job attribute sets.

use vstd::prelude::*;

use crate::text::{chars_of, dec, owned, push_dec};

pub mod answer_laws;
pub mod attrs;
pub mod civil;
pub mod civil_laws;
pub mod codec;
pub mod documents;
pub mod job_attrs;
pub mod laws;
pub mod length;
pub mod media;
pub mod media_laws;
pub mod option_laws;
pub mod options;
pub mod printer_attrs;
pub mod printer_laws;
pub mod queries;
pub mod readback;
pub mod response;
pub mod service;
pub mod service_laws;
pub mod value;
pub mod wire;

pub use self::service::{IppOutcome, IppService};

verus! {

pub const OP_PRINT_JOB: u16 = 0x0002;

pub const OP_VALIDATE_JOB: u16 = 0x0004;

pub const OP_CREATE_JOB: u16 = 0x0005;

pub const OP_SEND_DOCUMENT: u16 = 0x0006;

pub const OP_CANCEL_JOB: u16 = 0x0008;

pub const OP_GET_JOB_ATTRIBUTES: u16 = 0x0009;

pub const OP_GET_JOBS: u16 = 0x000A;

pub const OP_GET_PRINTER_ATTRIBUTES: u16 = 0x000B;

pub const OP_CANCEL_MY_JOBS: u16 = 0x0039;

pub const OP_CLOSE_JOB: u16 = 0x003B;

pub const OP_IDENTIFY_PRINTER: u16 = 0x003C;

/// The operations that are supported.
pub const OPERATIONS: [i32; 11] = [2, 4, 5, 6, 8, 9, 0xA, 0xB, 0x39, 0x3B, 0x3C];

/// The document formats that are accepted.
pub const DOCUMENT_FORMATS: [&'static str; 4] = [
    "image/pwg-raster",
    "image/jpeg",
    "image/png",
    "application/octet-stream",
];

/// The compressions that are accepted.
pub const COMPRESSIONS: [&'static str; 3] = ["none", "gzip", "deflate"];

/// The printer's identity.
#[derive(Debug)]
pub struct PrinterConfig {
    pub name: String,
    pub info: String,
    pub location: String,
    pub make_model: String,
    pub model_label: String,
    pub host: String,
    pub port: u16,
    /// `urn:uuid:…` (may be replaced when the CUPS queue's uuid is adopted).
    pub uuid: String,
    pub resolutions: Vec<u32>,
    pub max_document_kb: i32,
    pub max_copies: i32,
    /// Seconds since 1970.
    pub started: i64,
}

/// A host as it stands in a URI: a bare IPv6 address goes in brackets.
pub open spec fn bracketed(h: Seq<char>) -> Seq<char> {
    if h.contains(':') && !(h.len() > 0 && h[0] == '[') {
        "["@ + h + "]"@
    } else {
        h
    }
}

fn bracket_host(h: &str) -> (r: String)
    ensures
        r@ == bracketed(h@),
{
    let cs = chars_of(h);
    let mut colon = false;
    let mut i: usize = 0;
    while i < cs.len()
        invariant
            i <= cs.len(),
            colon == (exists|k: int| 0 <= k < i && #[trigger] cs@[k] == ':'),
        decreases cs.len() - i,
    {
        if cs[i] == ':' {
            colon = true;
        }
        i += 1;
    }
    assert(colon == h@.contains(':'));
    if colon && cs[0] != '[' {
        let mut r = owned("[");
        r.push_str(h);
        r.push_str("]");
        r
    } else {
        owned(h)
    }
}

impl PrinterConfig {
    /// The printer's URI.
    pub open spec fn uri(self) -> Seq<char> {
        "ipp://"@ + bracketed(self.host@) + ":"@ + dec(self.port as nat) + "/ipp/print"@
    }

    /// The URI of the printer's web pages.
    pub open spec fn base(self) -> Seq<char> {
        "http://"@ + bracketed(self.host@) + ":"@ + dec(self.port as nat)
    }

    /// The printer's URI.
    pub fn printer_uri(&self) -> (r: String)
        ensures
            r@ == self.uri(),
    {
        let mut r = owned("ipp://");
        let h = bracket_host(self.host.as_str());
        r.push_str(h.as_str());
        r.push_str(":");
        push_dec(&mut r, self.port as u64);
        r.push_str("/ipp/print");
        r
    }

    /// The URI of the printer's web pages.
    pub fn http_base(&self) -> (r: String)
        ensures
            r@ == self.base(),
    {
        let mut r = owned("http://");
        let h = bracket_host(self.host.as_str());
        r.push_str(h.as_str());
        r.push_str(":");
        push_dec(&mut r, self.port as u64);
        r
    }

    /// The printer's uuid.
    pub fn uuid(&self) -> (r: String)
        ensures
            r@ == self.uuid@,
    {
        owned(self.uuid.as_str())
    }
}

} // verus!
