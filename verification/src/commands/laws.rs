//! What the commands make of what they are told.

use vstd::prelude::*;

use crate::ble::discovery::adapter_views;
use crate::commands::check::{all_ok, spec_lines, CheckFacts};
use crate::commands::print::{quality_style, spec_options};
use crate::commands::serve::{as_urn, is_identity, request_lines, spec_machine_id};
use crate::config::{PrintArgs, ServeArgs};
use crate::ipp::PrinterConfig;
use crate::render::{Layout, Preset, Tone};
use crate::text::{lower, starts_with, trim};

verus! {

// ------------------------------------------------------------------ print

/// Drafts and text are printed as text, high quality and photos as pictures in gray, anything else as usual.
pub proof fn lemma_qualities(q: Seq<char>)
    ensures
        lower(trim(q)) == "draft"@ || lower(trim(q)) == "text"@ ==> quality_style(q) == (
            Preset::Text,
            Tone::BlackWhite,
        ),
        lower(trim(q)) == "high"@ || lower(trim(q)) == "photo"@ || lower(trim(q)) == "picture"@ ==> quality_style(q)
            == (Preset::Picture, Tone::Grayscale),
        lower(trim(q)) == "normal"@ ==> quality_style(q) == (Preset::Default, Tone::BlackWhite),
{
    reveal_strlit("draft");
    reveal_strlit("text");
    reveal_strlit("high");
    reveal_strlit("photo");
    reveal_strlit("picture");
    reveal_strlit("normal");
    assert("draft"@[0] == 'd' && "text"@[0] == 't' && "high"@[0] == 'h' && "photo"@.len() == 5 && "picture"@.len()
        == 7 && "normal"@.len() == 6 && "text"@.len() == 4 && "high"@.len() == 4 && "draft"@.len() == 5 && "photo"@[0]
        == 'p');
}

/// A file is printed upside down unless its top is to come first; a picture is tape and a sheet a sheet; a
/// bi-level print has no gray, whatever its quality.
pub proof fn lemma_print_options(a: PrintArgs, is_image: bool)
    ensures
        ({
            let o = spec_options(a, is_image);
            &&& o.rotate_180 <==> !a.top_first
            &&& a.bi_level ==> o.tone == Tone::BlackWhite
            &&& !a.bi_level ==> o.tone == quality_style(a.quality@).1
            &&& a.sheet ==> o.layout == Layout::Sheet
            &&& !a.sheet && is_image ==> o.layout == Layout::Tape
            &&& !a.sheet && !is_image ==> o.layout == Layout::Auto
            &&& o.intensity_override == a.intensity
            &&& o.max_lines_total == a.max_lines
            &&& o.width_px == 384
            &&& a.dither is None ==> o.dither_override is None
        }),
{
}

// ------------------------------------------------------------------ serve

/// A uuid is given as a URN, and giving it again changes nothing.
pub proof fn lemma_urns(s: Seq<char>)
    ensures
        starts_with(as_urn(s), "urn:uuid:"@),
        starts_with(trim(s), "urn:uuid:"@) ==> as_urn(s) == trim(s),
        !starts_with(trim(s), "urn:uuid:"@) ==> as_urn(s) == "urn:uuid:"@ + trim(s),
{
    let u = "urn:uuid:"@;
    assert((u + trim(s)).subrange(0, u.len() as int) =~= u);
}

/// The machine is told by the first of its id files that holds something.
pub proof fn lemma_machine_ids(ids: Seq<Option<String>>, hostname: Option<String>, i: int)
    requires
        0 <= i < ids.len(),
        ids[i] is Some,
        trim((ids[i]->0)@).len() > 0,
        forall|k: int| 0 <= k < i ==> (#[trigger] ids[k]) is None || trim((ids[k]->0)@).len() == 0,
    ensures
        spec_machine_id(ids, hostname) == trim((ids[i]->0)@),
    decreases i,
{
    if i > 0 {
        assert(ids[0] is None || trim((ids[0]->0)@).len() == 0);
        let rest = ids.skip(1);
        assert forall|k: int| 0 <= k < i - 1 implies (#[trigger] rest[k]) is None || trim((rest[k]->0)@).len() == 0 by {
            assert(rest[k] == ids[k + 1]);
        }
        lemma_machine_ids(rest, hostname, i - 1);
    }
}

/// A printer is known under the name, place, address and port that it is given, tells that it is fake where it is,
/// and offers 203 dots per inch where nothing else is asked for.
pub proof fn lemma_identity(c: PrinterConfig, a: ServeArgs, fake: bool, machine: Seq<char>, started: i64)
    requires
        is_identity(c, a, fake, machine, started),
    ensures
        c.name@ == a.printer_name@,
        c.location@ == a.location@,
        c.host@ == a.bind@,
        c.port == a.port,
        c.info@ == "Cat Printer (fake)"@ <==> fake,
        starts_with(c.uuid@, "urn:uuid:"@),
        a.resolutions@.len() == 0 ==> c.resolutions@ == seq![203u32],
        a.resolutions@.len() > 0 ==> c.resolutions@ == a.resolutions@,
        1 <= a.max_copies <= i32::MAX ==> c.max_copies == a.max_copies,
        a.max_copies == 0 ==> c.max_copies == 1,
        1 <= a.max_document_mb <= 2_000_000 ==> c.max_document_kb == 1024 * a.max_document_mb,
{
    reveal_strlit("Cat Printer (fake)");
    reveal_strlit("Cat Printer");
    assert("Cat Printer (fake)"@.len() != "Cat Printer"@.len());
    if a.uuid is Some {
        lemma_urns((a.uuid->0)@);
    } else {
        let u = "urn:uuid:"@;
        assert(c.uuid@.subrange(0, u.len() as int) =~= u);
    }
}

/// A request has 90 to 65535 lines, and as many as are asked for within that.
pub proof fn lemma_request_lengths(n: u32)
    ensures
        90 <= request_lines(n) <= 65535,
        90 <= n <= 65535 ==> request_lines(n) == n,
{
}

// ------------------------------------------------------------------ check

/// Everything is in order exactly where the bus and BlueZ are there and an adapter is switched on.
pub proof fn lemma_in_order(f: CheckFacts, i: int)
    ensures
        all_ok(spec_lines(f)) ==> f.bus && f.bluetoothd && f.adapters is Ok,
        !f.bus ==> !all_ok(spec_lines(f)) && spec_lines(f).len() == 1,
        f.bus ==> spec_lines(f).len() == 3,
        f.bus && f.bluetoothd && (f.adapters matches Ok(v) && 0 <= i < v@.len() && v@[i].powered && forall|k: int|
            0 <= k < i ==> !(#[trigger] v@[k]).powered) ==> all_ok(spec_lines(f)),
        f.adapters matches Ok(v) ==> v@.len() == 0 ==> !all_ok(spec_lines(f)),
{
    let l = spec_lines(f);
    if f.bus {
        assert(l[0].ok && l[1].ok == f.bluetoothd);
        assert(all_ok(l) ==> l[1].ok && l[2].ok);
        if f.adapters is Ok {
            let v = (f.adapters->Ok_0)@;
            let w = adapter_views(v);
            if 0 <= i < v.len() && v[i].powered && forall|k: int| 0 <= k < i ==> !(#[trigger] v[k]).powered {
                assert forall|k: int| 0 <= k < i implies !(#[trigger] w[k]).powered by {
                    assert(w[k] == v[k].model());
                    assert(!v[k].powered);
                }
                assert(w[i] == v[i].model());
                crate::ble::discovery_laws::lemma_first_powered(w, i);
            }
        }
    } else {
        assert(!l[0].ok);
    }
}

} // verus!
