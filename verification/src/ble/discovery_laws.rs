//! Which devices are taken for cat printers, and which of them is used.

use vstd::prelude::*;

use crate::ble::bluez::Props;
use crate::ble::discovery::{
    adapter_at, better, candidate_of, candidates_in, device_name, first_powered, is_candidate,
    is_cat_printer, is_chosen, is_dashed_mac, live_of, wanted_path, AdapterInfo, AdapterView, CandidateView,
    HintView, Scan,
};
use crate::ble::discovery::adapters_in;
use crate::ble::bluez::Objects;
use crate::models::laws::{is_classic_name, lemma_known_names};
use crate::models::spec_lookup;
use crate::printer::PrintError;
use crate::text::{byte_len, lower, starts_with, trim};

verus! {

// ------------------------------------------------------------------ telling

/// A device that is named is taken whatever else it shows, and no other is; the case of its letters aside.
pub proof fn lemma_hints_decide(
    name: Option<Seq<char>>,
    address: Seq<char>,
    uuids: Seq<Seq<char>>,
    wanted: Seq<char>,
)
    ensures
        is_cat_printer(name, address, uuids, Some(HintView::Address(wanted))) <==> lower(address) == lower(
            wanted,
        ),
        is_cat_printer(name, address, uuids, Some(HintView::Name(wanted))) <==> name is Some && lower(name->0)
            == lower(trim(wanted)),
{
}

/// Without a hint a device is taken by the services of cat printers, or by a registered name of four letters or
/// more: any of them but the two short ones.
pub proof fn lemma_known_names_are_taken(name: Seq<char>, address: Seq<char>, uuids: Seq<Seq<char>>)
    requires
        spec_lookup(name) is Some,
    ensures
        lower(trim(name)) != seq!['x', '5'] && lower(trim(name)) != seq!['x', '6'] ==> is_cat_printer(
            Some(name),
            address,
            uuids,
            None,
        ),
        uuids.len() == 0 && (lower(trim(name)) == seq!['x', '5'] || lower(trim(name)) == seq!['x', '6'])
            ==> !is_cat_printer(Some(name), address, uuids, None),
{
    lemma_known_names(name);
    let t = trim(name);
    assert(lower(t).len() == t.len());
    assert(t.len() == 2 || t.len() >= 4);
    lemma_bytes(t);
    if t.len() == 2 && uuids.len() == 0 {
        lemma_two_bytes(t);
    }
}

proof fn lemma_bytes(t: Seq<char>)
    ensures
        byte_len(t) >= t.len(),
    decreases t.len(),
{
    if t.len() > 0 {
        lemma_bytes(t.drop_last());
        lemma_bytes(t.skip(1));
    }
}

proof fn lemma_two_bytes(t: Seq<char>)
    requires
        t.len() == 2,
        lower(t) == seq!['x', '5'] || lower(t) == seq!['x', '6'],
    ensures
        byte_len(t) == 2,
{
    assert(lower(t)[0] == 'x' && (lower(t)[1] == '5' || lower(t)[1] == '6'));
    assert(t[0] == 'x' || t[0] == 'X');
    assert(t[1] == '5' || t[1] == '6');
    reveal_with_fuel(byte_len, 3);
}

/// A device without a hint, a registered name or a service of cat printers is left alone.
pub proof fn lemma_strangers_are_left_alone(name: Option<Seq<char>>, address: Seq<char>)
    requires
        name matches Some(n) ==> lower(trim(n)) != seq!['m', 'x', 'w', '0', '1'] && !is_classic_name(
            lower(trim(n)),
        ),
    ensures
        !is_cat_printer(name, address, Seq::empty(), None),
{
    if name is Some {
        lemma_known_names(name->0);
    }
}

// ------------------------------------------------------------------ candidates

/// The candidates are exactly the devices under the adapter that look like cat printers and are not to be
/// avoided.
pub proof fn lemma_candidates(
    entries: Seq<(Seq<char>, Props)>,
    adapter: Seq<char>,
    hint: Option<HintView>,
    avoid: Seq<Seq<char>>,
    i: int,
)
    requires
        0 <= i < entries.len(),
    ensures
        is_candidate(entries[i], adapter, hint, avoid) ==> candidates_in(entries, adapter, hint, avoid).contains(
            candidate_of(entries[i]),
        ),
        candidates_in(entries, adapter, hint, avoid).len() <= entries.len(),
    decreases entries.len(),
{
    let rest = entries.drop_last();
    let all = candidates_in(entries, adapter, hint, avoid);
    let some = candidates_in(rest, adapter, hint, avoid);
    if i < rest.len() {
        lemma_candidates(rest, adapter, hint, avoid, i);
        if some.contains(candidate_of(rest[i])) {
            let k = choose|k: int| 0 <= k < some.len() && some[k] == candidate_of(rest[i]);
            assert(all[k] == some[k]);
        }
    } else {
        if rest.len() > 0 {
            lemma_candidates(rest, adapter, hint, avoid, 0);
        } else {
            assert(some.len() == 0);
        }
        if is_candidate(entries[i], adapter, hint, avoid) {
            assert(all[some.len() as int] == candidate_of(entries[i]));
        }
    }
}

/// Whatever is among the candidates is one of the devices, under the adapter, and looks like a cat printer.
pub proof fn lemma_only_candidates(
    entries: Seq<(Seq<char>, Props)>,
    adapter: Seq<char>,
    hint: Option<HintView>,
    avoid: Seq<Seq<char>>,
    k: int,
) -> (i: int)
    requires
        0 <= k < candidates_in(entries, adapter, hint, avoid).len(),
    ensures
        0 <= i < entries.len(),
        candidates_in(entries, adapter, hint, avoid)[k] == candidate_of(entries[i]),
        starts_with(entries[i].0, adapter + "/"@),
        ({
            let c = candidate_of(entries[i]);
            is_cat_printer(c.name, c.address, c.uuids, hint) && forall|a: int|
                0 <= a < avoid.len() ==> lower(#[trigger] avoid[a]) != lower(c.address)
        }),
    decreases entries.len(),
{
    let rest = entries.drop_last();
    let some = candidates_in(rest, adapter, hint, avoid);
    if k < some.len() {
        let i = lemma_only_candidates(rest, adapter, hint, avoid, k);
        i
    } else {
        entries.len() - 1
    }
}

/// A device's own name counts before its alias; a name that is only its address with dashes is none.
pub proof fn lemma_device_names(p: Props)
    ensures
        p.text("Name"@) matches Some(n) && n.len() > 0 && !is_dashed_mac(
            n,
            crate::ble::discovery::or_empty(p.text("Address"@)),
        ) ==> device_name(p) == p.text("Name"@),
        p.text("Name"@) is None && p.text("Alias"@) is None ==> device_name(p) is None,
        p.text("Name"@) is None ==> device_name(p) is None || device_name(p) == p.text("Alias"@),
        device_name(p) matches Some(n) ==> n.len() > 0 && !is_dashed_mac(
            n,
            crate::ble::discovery::or_empty(p.text("Address"@)),
        ),
{
}

// ------------------------------------------------------------------ picking

/// A candidate that is connected is better than one that is not; of two that are alike in that, the one with a
/// signal, and then the one with the stronger signal.
pub proof fn lemma_better(a: CandidateView, b: CandidateView)
    ensures
        a.connected && !b.connected ==> better(Some(a), Some(b)) == Some(a) && better(Some(b), Some(a)) == Some(a),
        a.connected == b.connected && a.rssi is Some && b.rssi is None ==> better(Some(a), Some(b)) == Some(a)
            && better(Some(b), Some(a)) == Some(a),
        a.connected == b.connected && a.rssi is Some && b.rssi is Some && a.rssi->0 > b.rssi->0 ==> better(
            Some(a),
            Some(b),
        ) == Some(a) && better(Some(b), Some(a)) == Some(a),
        a.connected == b.connected && a.rssi == b.rssi ==> better(Some(a), Some(b)) == Some(b),
        better(None, Some(a)) == Some(a),
        better(Some(a), None) == Some(a),
{
}

/// Only devices that advertise or are connected are there.
pub proof fn lemma_live(c: Seq<CandidateView>, x: CandidateView)
    ensures
        live_of(c).contains(x) <==> c.contains(x) && (x.rssi is Some || x.connected),
        live_of(c).len() <= c.len(),
    decreases c.len(),
{
    if c.len() > 0 {
        let rest = c.drop_last();
        lemma_live(rest, x);
        let l = live_of(rest);
        assert(c.contains(x) <==> rest.contains(x) || x == c.last()) by {
            if c.contains(x) {
                let i = choose|i: int| 0 <= i < c.len() && c[i] == x;
                if i < rest.len() {
                    assert(rest[i] == x);
                }
            }
            if rest.contains(x) {
                let i = choose|i: int| 0 <= i < rest.len() && rest[i] == x;
                assert(c[i] == x);
            }
            assert(c[c.len() - 1] == c.last());
        }
        if c.last().live() {
            let n = l.push(c.last());
            if l.contains(x) {
                let i = choose|i: int| 0 <= i < l.len() && l[i] == x;
                assert(n[i] == x);
            }
            assert(n[l.len() as int] == c.last());
            if n.contains(x) {
                let i = choose|i: int| 0 <= i < n.len() && n[i] == x;
                if i < l.len() {
                    assert(l[i] == x);
                }
            }
        }
    }
}

// ------------------------------------------------------------------ adapters

pub proof fn lemma_first_powered(v: Seq<AdapterView>, i: int)
    requires
        0 <= i < v.len(),
        v[i].powered,
        forall|k: int| 0 <= k < i ==> !(#[trigger] v[k]).powered,
    ensures
        first_powered(v) == Some(v[i]),
    decreases i,
{
    if i > 0 {
        assert(!v[0].powered);
        lemma_first_powered(v.skip(1), i - 1);
    }
}

proof fn lemma_none_powered(v: Seq<AdapterView>)
    requires
        forall|k: int| 0 <= k < v.len() ==> !(#[trigger] v[k]).powered,
    ensures
        first_powered(v) is None,
    decreases v.len(),
{
    if v.len() > 0 {
        assert(!v[0].powered);
        let rest = v.skip(1);
        assert forall|k: int| 0 <= k < rest.len() implies !(#[trigger] rest[k]).powered by {
            assert(rest[k] == v[k + 1]);
        }
        lemma_none_powered(rest);
    }
}

proof fn lemma_adapter_at(v: Seq<AdapterView>, path: Seq<char>, i: int)
    requires
        0 <= i < v.len(),
        v[i].path == path,
        forall|k: int| 0 <= k < i ==> (#[trigger] v[k]).path != path,
    ensures
        adapter_at(v, path) == Some(v[i]),
    decreases i,
{
    if i > 0 {
        assert(v[0].path != path);
        lemma_adapter_at(v.skip(1), path, i - 1);
    }
}

/// Without a wish the first adapter that is switched on is used; where none is, Bluetooth counts as off.
pub proof fn lemma_any_adapter(r: Result<AdapterInfo, PrintError>, objs: Objects, i: int)
    requires
        is_chosen(r, objs, None),
    ensures
        0 <= i < adapters_in(objs).len() && adapters_in(objs)[i].powered && (forall|k: int|
            0 <= k < i ==> !(#[trigger] adapters_in(objs)[k]).powered) ==> (r matches Ok(a) && a.model()
            == adapters_in(objs)[i]),
        (forall|k: int| 0 <= k < adapters_in(objs).len() ==> !(#[trigger] adapters_in(objs)[k]).powered) ==> r
            matches Err(PrintError::AdapterOff),
{
    let v = adapters_in(objs);
    if 0 <= i < v.len() && v[i].powered && forall|k: int| 0 <= k < i ==> !(#[trigger] v[k]).powered {
        lemma_first_powered(v, i);
    }
    if forall|k: int| 0 <= k < v.len() ==> !(#[trigger] v[k]).powered {
        lemma_none_powered(v);
    }
}

/// The adapter that is wished for is used where it is switched on, and none in its place where it is off.
pub proof fn lemma_wished_adapter(r: Result<AdapterInfo, PrintError>, objs: Objects, w: Seq<char>, i: int)
    requires
        is_chosen(r, objs, Some(w)),
        0 <= i < adapters_in(objs).len(),
        adapters_in(objs)[i].path == w || adapters_in(objs)[i].path == "/org/bluez/"@ + w,
        adapters_in(objs)[i].path == w <==> w.len() > 0 && w[0] == '/',
        forall|k: int| 0 <= k < i ==> (#[trigger] adapters_in(objs)[k]).path != adapters_in(objs)[i].path,
    ensures
        adapters_in(objs)[i].powered ==> (r matches Ok(a) && a.model() == adapters_in(objs)[i]),
        !adapters_in(objs)[i].powered ==> r matches Err(PrintError::AdapterOff),
{
    lemma_adapter_at(adapters_in(objs), wanted_path(w), i);
}

// ------------------------------------------------------------------ scanning

/// A scan for a certain device is over as soon as that is seen; any other goes on for a second after the first
/// candidate, and ends with the best of what was seen. What is merely remembered does not count.
pub proof fn lemma_scans(old: Scan, new: Scan, cands: Seq<CandidateView>, now_ms: u64, r: bool)
    requires
        old.is_polled(new, cands, now_ms, r),
        now_ms <= u64::MAX - 1000,
    ensures
        r ==> new.best is Some,
        old.hinted ==> (r <==> new.best is Some),
        !old.hinted && old.settle_until_ms is None ==> !r,
        !old.hinted && old.settle_until_ms is None && new.best is Some ==> new.settle_until_ms == Some(
            (now_ms + 1000) as u64,
        ),
        !old.hinted ==> (old.settle_until_ms matches Some(t) ==> new.best is Some ==> (r <==> now_ms >= t)),
        old.best is None && (forall|i: int|
            0 <= i < cands.len() ==> (#[trigger] cands[i]).rssi is None && !cands[i].connected) ==> new.best is None,
        old.best is Some ==> new.best is Some && (new.best->0).model().key() >= (old.best->0).model().key(),
{
    let l = live_of(cands);
    crate::ble::discovery::lemma_best(l);
    if forall|i: int| 0 <= i < cands.len() ==> (#[trigger] cands[i]).rssi is None && !cands[i].connected {
        if l.len() > 0 {
            lemma_live(cands, l[0]);
            assert(l.contains(l[0]));
            let i = choose|i: int| 0 <= i < cands.len() && cands[i] == l[0];
            assert(cands[i].rssi is None && !cands[i].connected);
        }
    }
}

} // verus!
