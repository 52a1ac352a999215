//! `serve`: the configuration of the engine and of the printer's identity.

use vstd::prelude::*;

use crate::config::ServeArgs;
use crate::engine::EngineConfig;
use crate::ipp::job_attrs::{uuid_v5, uuid_v5_text};
use crate::ipp::printer_attrs::{as_signed, signed};
use crate::ipp::PrinterConfig;
use crate::raster::Limits;
use crate::render::{Layout, Preset, RenderOptions, Tone};
use crate::text::{
    chars_of, dec, has_prefix, owned, push_chars, push_dec, starts_with, string_of, trim, trim_chars,
};

verus! {

/// The namespace of the printer's uuid.
pub const UUID_NS: u128 = 0x3a6f1c2e_9b40_4d0e_a177_ca7b112c5e9d;

/// What a machine without an id is called.
pub const NO_MACHINE: &'static str = "catprinter";

/// The machine's id: the first of its id files that holds something, else its host name.
pub open spec fn spec_machine_id(ids: Seq<Option<String>>, hostname: Option<String>) -> Seq<char>
    decreases ids.len(),
{
    if ids.len() == 0 {
        match hostname {
            Some(h) => trim(h@),
            None => NO_MACHINE@,
        }
    } else if ids[0] is Some && trim((ids[0]->0)@).len() > 0 {
        trim((ids[0]->0)@)
    } else {
        spec_machine_id(ids.skip(1), hostname)
    }
}

/// The machine's id, from its id files and its host name; `None` for a file that cannot be read.
pub fn machine_id(ids: &Vec<Option<String>>, hostname: Option<String>) -> (r: String)
    ensures
        r@ == spec_machine_id(ids@, hostname),
{
    let mut i: usize = 0;
    assert(ids@.skip(0) =~= ids@);
    while i < ids.len()
        invariant
            i <= ids.len(),
            spec_machine_id(ids@, hostname) == spec_machine_id(ids@.skip(i as int), hostname),
        decreases ids.len() - i,
    {
        assert(ids@.skip(i as int).skip(1) =~= ids@.skip(i as int + 1));
        if let Some(s) = &ids[i] {
            let cs = chars_of(s.as_str());
            let t = trim_chars(cs.as_slice());
            if t.len() > 0 {
                return string_of(t);
            }
        }
        i += 1;
    }
    match hostname {
        Some(h) => {
            let cs = chars_of(h.as_str());
            string_of(trim_chars(cs.as_slice()))
        },
        None => owned(NO_MACHINE),
    }
}

/// The printer's uuid of a machine and a port.
pub open spec fn uuid_of(machine: Seq<char>, port: u16) -> Seq<char> {
    "urn:uuid:"@ + uuid_v5_text(UUID_NS, machine + ":"@ + dec(port as nat))
}

/// The printer's uuid where none is given: the same for a machine and a port at every start.
pub fn default_uuid(machine: &str, port: u16) -> (r: String)
    ensures
        r@ == uuid_of(machine@, port),
{
    let mut name = owned(machine);
    name.push_str(":");
    push_dec(&mut name, port as u64);
    let u = uuid_v5(UUID_NS, name.as_str());
    let mut r = owned("urn:uuid:");
    r.push_str(u.as_str());
    r
}

/// A given uuid as a URN.
pub open spec fn as_urn(s: Seq<char>) -> Seq<char> {
    if starts_with(trim(s), "urn:uuid:"@) {
        trim(s)
    } else {
        "urn:uuid:"@ + trim(s)
    }
}

/// A given uuid as a URN.
pub fn normalize_uuid(s: &str) -> (r: String)
    ensures
        r@ == as_urn(s@),
{
    let cs = chars_of(s);
    let t = trim_chars(cs.as_slice());
    if has_prefix(t, "urn:uuid:") {
        string_of(t)
    } else {
        let mut r = owned("urn:uuid:");
        push_chars(&mut r, t);
        r
    }
}

/// At least one.
pub open spec fn one_or(n: int) -> int {
    if n < 1 {
        1
    } else {
        n
    }
}

/// The longest request: at least 90 lines, at most 65535.
pub open spec fn request_lines(n: u32) -> u32 {
    if n < 90 {
        90
    } else if n > 65535 {
        65535
    } else {
        n
    }
}

/// Sizes that do not fit are refused.
pub open spec fn fits(a: ServeArgs) -> bool {
    &&& one_or(a.max_document_mb as int) * 1048576 + 65536 <= usize::MAX
    &&& a.printer_wait * 1000 <= u64::MAX
}

/// The configuration of the engine; `None` where a size does not fit.
pub fn engine_config(a: &ServeArgs, state_dir: Option<String>) -> (r: Option<EngineConfig>)
    ensures
        match r {
            Some(c) => {
                &&& fits(*a)
                &&& c.printer_wait_ms == a.printer_wait * 1000
                &&& c.queue_max == one_or(a.queue_max as int)
                &&& c.max_document_bytes == one_or(a.max_document_mb as int) * 1048576
                &&& c.max_copies == one_or(a.max_copies as int)
                &&& c.render == (RenderOptions {
                    preset: Preset::Default,
                    tone: Tone::BlackWhite,
                    layout: Layout::Auto,
                    dither_override: None,
                    trim_override: None,
                    intensity_override: None,
                    rotate_180: true,
                    width_px: 384,
                    max_lines_total: a.max_lines,
                    max_lines_per_request: request_lines(a.max_lines_per_request),
                    page_gap_lines: 24,
                })
                &&& c.limits == (Limits {
                    max_pages: 32,
                    max_width: 8192,
                    max_height: 65535,
                    max_pixels_total: 400_000_000,
                })
                &&& c.shutdown_grace_ms == 15_000
                &&& c.stale_document_ms == 120_000
                &&& c.error_ttl_ms == 600_000
                &&& c.coop_grace_ms == 5_000
                &&& c.attempt_cap_ms == 900_000
                &&& c.state_dir == state_dir
            },
            None => !fits(*a),
        },
{
    let mb: usize = if a.max_document_mb < 1 {
        1
    } else {
        a.max_document_mb
    };
    if mb as u128 * 1048576 + 65536 > usize::MAX as u128 || a.printer_wait as u128 * 1000
        > u64::MAX as u128 {
        return None;
    }
    let mut render = RenderOptions::default();
    render.max_lines_total = a.max_lines;
    render.max_lines_per_request = if a.max_lines_per_request < 90 {
        90
    } else if a.max_lines_per_request > 65535 {
        65535
    } else {
        a.max_lines_per_request
    };
    let mut c = EngineConfig::default();
    c.printer_wait_ms = a.printer_wait * 1000;
    c.queue_max = if a.queue_max < 1 {
        1
    } else {
        a.queue_max
    };
    c.max_document_bytes = mb * 1048576;
    c.max_copies = if a.max_copies < 1 {
        1
    } else {
        a.max_copies
    };
    c.render = render;
    c.limits = Limits::default();
    c.state_dir = state_dir;
    Some(c)
}

/// The most bytes that a request body may have: a document, and room for what stands before it.
pub fn max_body(max_document_bytes: usize) -> (r: usize)
    requires
        max_document_bytes <= usize::MAX - 65536,
    ensures
        r == max_document_bytes + 65536,
{
    max_document_bytes + 65536
}

/// The resolutions to advertise; 203 where none is given.
pub open spec fn resolutions_of(v: Seq<u32>) -> Seq<u32> {
    if v.len() == 0 {
        seq![203u32]
    } else {
        v
    }
}

/// `c` is the printer's identity.
pub open spec fn is_identity(
    c: PrinterConfig,
    a: ServeArgs,
    fake: bool,
    machine: Seq<char>,
    started: i64,
) -> bool {
    &&& c.name@ == a.printer_name@
    &&& c.info@ == if fake {
        "Cat Printer (fake)"@
    } else {
        "Cat Printer"@
    }
    &&& c.location@ == a.location@
    &&& c.make_model@ == "Cat Printer MXW01"@
    &&& c.model_label@ == "MXW01"@
    &&& c.host@ == a.bind@
    &&& c.port == a.port
    &&& c.uuid@ == match a.uuid {
        Some(u) => as_urn(u@),
        None => uuid_of(machine, a.port),
    }
    &&& c.resolutions@ == resolutions_of(a.resolutions@)
    &&& c.max_document_kb == signed((one_or(a.max_document_mb as int) * 1024 % 0x1_0000_0000) as u32)
    &&& c.max_copies == signed(one_or(a.max_copies as int) as u32)
    &&& c.started == started
}

/// The printer's identity.
pub fn printer_config(a: &ServeArgs, fake: bool, machine: &str, started: i64) -> (r: PrinterConfig)
    ensures
        is_identity(r, *a, fake, machine@, started),
{
    let mb: u128 = if a.max_document_mb < 1 {
        1
    } else {
        a.max_document_mb as u128
    };
    let kb: u128 = mb * 1024;
    let mut resolutions: Vec<u32> = Vec::new();
    if a.resolutions.len() == 0 {
        resolutions.push(203);
    } else {
        resolutions.extend_from_slice(a.resolutions.as_slice());
    }
    assert(resolutions@ =~= resolutions_of(a.resolutions@));
    PrinterConfig {
        name: owned(a.printer_name.as_str()),
        info: if fake {
            owned("Cat Printer (fake)")
        } else {
            owned("Cat Printer")
        },
        location: owned(a.location.as_str()),
        make_model: owned("Cat Printer MXW01"),
        model_label: owned("MXW01"),
        host: owned(a.bind.as_str()),
        port: a.port,
        uuid: match &a.uuid {
            Some(u) => normalize_uuid(u.as_str()),
            None => default_uuid(machine, a.port),
        },
        resolutions,
        max_document_kb: as_signed((kb % 0x1_0000_0000) as u32),
        max_copies: as_signed(
            if a.max_copies < 1 {
                1
            } else {
                a.max_copies
            },
        ),
        started,
    }
}

} // verus!
