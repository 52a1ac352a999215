//! What the printer says of itself, and that it keeps to it.

use vstd::prelude::*;

use crate::engine::{Now, PrinterState, Store};
use crate::ipp::attrs::{admitted, Filter, Grp, Offer};
use crate::ipp::codec::Status;
use crate::ipp::laws::lemma_everything;
use crate::ipp::printer_attrs::{
    battery_level, copies_and_media_offers, default_dpi, desc, documents_offers, identity_offers, is_group_name,
    is_printer_filter, job_handling_offers, media_offers, named_of, pages_offers, printer_offers,
    printing_offers, protocol_offers, scheduling_offers, signed, state_offers, supplies_offers,
};
use crate::ipp::response::lemma_short;
use crate::ipp::service::{precheck, Exchange};
use crate::ipp::value::{StrKind, ValueView};
use crate::ipp::{PrinterConfig, OPERATIONS};
use crate::text::{dec, lemma_within_all, lower, within_bytes};

verus! {

proof fn lemma_name(s: Seq<char>)
    requires
        s.len() <= 60,
    ensures
        within_bytes(s, 255) == s,
{
    lemma_short(s);
    lemma_within_all(s, 255);
}

proof fn lemma_given(offers: Seq<Offer>, f: Filter, i: int)
    requires
        f is Everything || (f matches Filter::Printer { desc, tmpl, .. } && desc && tmpl),
        0 <= i < offers.len(),
        offers[i].name.len() <= 60,
    ensures
        admitted(offers, f).contains((offers[i].name, offers[i].value)),
{
    lemma_everything(offers, f);
    lemma_name(offers[i].name);
    assert(admitted(offers, f)[i] == (offers[i].name, offers[i].value));
}

/// Who asks for everything is told how the printer stands: 3 where it is idle, 4 where it is at work; whether it
/// takes jobs, how many wait, and since when it is up.
pub proof fn lemma_state_is_told(cfg: PrinterConfig, s: Store, now: Now, f: Filter)
    requires
        f is Everything || (f matches Filter::Printer { desc, tmpl, .. } && desc && tmpl),
        s.wf(),
        s.queued() <= i32::MAX,
    ensures
        ({
            let a = admitted(printer_offers(cfg, s, now), f);
            &&& s.view.state == PrinterState::Idle ==> a.contains(("printer-state"@, ValueView::Enum(3)))
            &&& s.view.state == PrinterState::Processing ==> a.contains(("printer-state"@, ValueView::Enum(4)))
            &&& a.contains(("printer-is-accepting-jobs"@, ValueView::Boolean(s.view.accepting)))
            &&& a.contains(("queued-job-count"@, ValueView::Integer(s.queued() as i32)))
            &&& a.contains(
                (
                    "printer-state-message"@,
                    ValueView::Str(StrKind::Text, within_bytes(s.view.message@, 1023)),
                ),
            )
        }),
{
    let o = printer_offers(cfg, s, now);
    let head = identity_offers(cfg) + pages_offers(cfg);
    let st = state_offers(cfg, s, now);
    reveal_strlit("printer-state");
    reveal_strlit("printer-is-accepting-jobs");
    reveal_strlit("queued-job-count");
    reveal_strlit("printer-state-message");
    assert(head.len() == 17 && st.len() == 11);
    assert(o[17] == st[0] && o[19] == st[2] && o[24] == st[7] && o[25] == st[8]);
    lemma_given(o, f, 17);
    lemma_given(o, f, 19);
    lemma_given(o, f, 24);
    lemma_given(o, f, 25);
}

/// Who asks for everything is told that one copy is the default, up to how many may be asked for, and that quality
/// is draft, normal or high.
pub proof fn lemma_limits_are_told(cfg: PrinterConfig, s: Store, now: Now, f: Filter)
    requires
        f is Everything || (f matches Filter::Printer { desc, tmpl, .. } && desc && tmpl),
    ensures
        ({
            let a = admitted(printer_offers(cfg, s, now), f);
            &&& a.contains(("copies-default"@, ValueView::Integer(1)))
            &&& cfg.max_copies >= 1 ==> a.contains(("copies-supported"@, ValueView::Range(1, cfg.max_copies)))
            &&& a.contains(("print-quality-default"@, ValueView::Enum(4)))
            &&& a.contains(("job-k-octets-supported"@, ValueView::Range(0, cfg.max_document_kb)))
            &&& a.contains(("color-supported"@, ValueView::Boolean(false)))
            &&& a.contains(("multiple-document-jobs-supported"@, ValueView::Boolean(false)))
        }),
{
    let o = printer_offers(cfg, s, now);
    let h = identity_offers(cfg) + pages_offers(cfg) + state_offers(cfg, s, now) + protocol_offers();
    let j = job_handling_offers(cfg);
    let front = h + j + documents_offers(cfg) + media_offers() + supplies_offers(s.view.battery);
    let c = copies_and_media_offers(cfg);
    let p = printing_offers();
    reveal_strlit("copies-default");
    reveal_strlit("copies-supported");
    reveal_strlit("print-quality-default");
    reveal_strlit("job-k-octets-supported");
    reveal_strlit("color-supported");
    reveal_strlit("multiple-document-jobs-supported");
    let n = front.len() as int;
    let m = h.len() as int;
    assert(o =~= front + c + p + scheduling_offers());
    assert(o[m + 6] == j[6] && o[m + 8] == j[8] && o[m + 2] == j[2]);
    assert(o[n] == c[0] && o[n + 1] == c[1] && o[n + 14 + 4] == p[4]);
    lemma_given(o, f, m + 2);
    lemma_given(o, f, m + 6);
    lemma_given(o, f, m + 8);
    lemma_given(o, f, n);
    lemma_given(o, f, n + 1);
    lemma_given(o, f, n + 18);
}

/// Every operation that the printer names is one that it has.
pub proof fn lemma_operations_are_there(e: Exchange, i: int)
    requires
        e.valid(),
        precheck(e.req) is None,
        0 <= i < OPERATIONS@.len(),
        e.req.op == OPERATIONS@[i],
    ensures
        e.answer.status != Status::ServerErrorOperationNotSupported,
{
    crate::ipp::laws::lemma_document_refusal(e.req, e.before.cfg.max_document_bytes);
    assert(i == 0 || i == 1 || i == 2 || i == 3 || i == 4 || i == 5 || i == 6 || i == 7 || i == 8 || i == 9 || i
        == 10);
}

/// Who asks for nothing in particular, or for all, gets both groups; who names a group gets that one; who names an
/// attribute gets that, whatever its case.
pub proof fn lemma_what_is_asked_for(f: Filter, requested: Seq<Seq<char>>, n: Seq<char>)
    requires
        is_printer_filter(f, requested),
    ensures
        requested.len() == 0 || requested.contains("all"@) ==> f.admits(n, Grp::Desc) && f.admits(n, Grp::Tmpl),
        requested.contains("printer-description"@) ==> f.admits(n, Grp::Desc),
        requested.contains("job-template"@) ==> f.admits(n, Grp::Tmpl),
        requested.contains(n) && !is_group_name(n) ==> f.admits(n, Grp::Desc) && f.admits(n, Grp::Tmpl),
        requested.len() == 1 && !is_group_name(requested[0]) && lower(requested[0]) != lower(n) ==> !f.admits(
            n,
            Grp::Desc,
        ) && !f.admits(n, Grp::Tmpl),
{
    reveal_strlit("all");
    reveal_strlit("printer-description");
    reveal_strlit("job-template");
    lemma_named(requested, n);
    if requested.contains(n) && !is_group_name(n) {
        let k = choose|k: int| 0 <= k < named_of(requested).len() && named_of(requested)[k] == n;
        assert(named_of(requested)[k] == n);
    }
    if requested.len() == 1 && !is_group_name(requested[0]) {
        reveal_with_fuel(named_of, 2);
        assert(requested.last() == requested[0]);
        assert(named_of(requested) =~= requested);
        if requested.contains("all"@) {
            assert(requested[0] == "all"@);
        }
        if requested.contains("printer-description"@) {
            assert(requested[0] == "printer-description"@);
        }
        if requested.contains("job-template"@) {
            assert(requested[0] == "job-template"@);
        }
    }
}

proof fn lemma_named(requested: Seq<Seq<char>>, n: Seq<char>)
    ensures
        named_of(requested).contains(n) <==> requested.contains(n) && !is_group_name(n),
    decreases requested.len(),
{
    if requested.len() > 0 {
        let rest = requested.drop_last();
        lemma_named(rest, n);
        let some = named_of(rest);
        let all = named_of(requested);
        assert(requested.contains(n) <==> rest.contains(n) || n == requested.last()) by {
            if requested.contains(n) {
                let i = choose|i: int| 0 <= i < requested.len() && requested[i] == n;
                if i < rest.len() {
                    assert(rest[i] == n);
                }
            }
            if rest.contains(n) {
                let i = choose|i: int| 0 <= i < rest.len() && rest[i] == n;
                assert(requested[i] == n);
            }
            assert(requested[requested.len() - 1] == requested.last());
        }
        if !is_group_name(requested.last()) {
            if some.contains(n) {
                let i = choose|i: int| 0 <= i < some.len() && some[i] == n;
                assert(all[i] == n);
            }
            assert(all[some.len() as int] == requested.last());
            if all.contains(n) {
                let i = choose|i: int| 0 <= i < all.len() && all[i] == n;
                if i < some.len() {
                    assert(some[i] == n);
                }
            }
        }
    }
}

/// The default resolution is the least of those that there are.
pub proof fn lemma_default_resolution(dpi: Seq<u32>, i: int)
    requires
        0 <= i < dpi.len(),
    ensures
        default_dpi(dpi) <= signed(dpi[i]),
        exists|k: int| 0 <= k < dpi.len() && default_dpi(dpi) == signed(#[trigger] dpi[k]),
        default_dpi(Seq::empty()) == 203,
    decreases dpi.len(),
{
    if dpi.len() == 1 {
        assert(default_dpi(dpi) == signed(dpi[0]));
    } else {
        let rest = dpi.drop_last();
        lemma_default_resolution(
            rest,
            if i < rest.len() {
                i
            } else {
                0
            },
        );
        let k = choose|k: int| 0 <= k < rest.len() && default_dpi(rest) == signed(#[trigger] rest[k]);
        assert(dpi[k] == rest[k]);
        assert(dpi[dpi.len() - 1] == dpi.last());
    }
}

/// The printer's address is its host and its port; an address of the sixth version stands in brackets, once.
pub proof fn lemma_addresses(cfg: PrinterConfig)
    ensures
        !cfg.host@.contains(':') ==> cfg.uri() == "ipp://"@ + cfg.host@ + ":"@ + dec(cfg.port as nat) + "/ipp/print"@,
        !cfg.host@.contains(':') ==> cfg.base() == "http://"@ + cfg.host@ + ":"@ + dec(cfg.port as nat),
        cfg.host@.contains(':') && cfg.host@[0] != '[' ==> cfg.uri() == "ipp://"@ + ("["@ + cfg.host@ + "]"@) + ":"@
            + dec(cfg.port as nat) + "/ipp/print"@,
        cfg.host@.contains(':') && cfg.host@[0] == '[' ==> cfg.uri() == "ipp://"@ + cfg.host@ + ":"@ + dec(
            cfg.port as nat,
        ) + "/ipp/print"@,
{
    if cfg.host@.contains(':') {
        let i = choose|i: int| 0 <= i < cfg.host@.len() && cfg.host@[i] == ':';
        assert(cfg.host@.len() > 0);
    }
}

/// A battery is told by its percentage, and by minus two where it is not known.
pub proof fn lemma_batteries(b: Option<u8>)
    ensures
        b matches Some(n) ==> battery_level(b) == n,
        b is None ==> battery_level(b) == -2,
{
}

} // verus!
