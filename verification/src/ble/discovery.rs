//! Finding the printer: choosing an adapter, telling cat printers from other devices, picking one of
//! them (connected, then strongest signal), and the scan.

use vstd::prelude::*;

use crate::ble::bluez::{
    objects_with, prop_i16, prop_str, prop_strs, Objects, Props, IFACE_ADAPTER, IFACE_DEVICE,
};
use crate::ble::objects::{entry_views, prop_flag, views, with_iface};
use crate::models::{lookup, opt_text, spec_lookup};
use crate::printer::PrintError;
use crate::protocol::mxw01::SCAN_TIMEOUT_S;
use crate::protocol::{SERVICE_AE30, SERVICE_AF30};
use crate::text::{
    byte_len, char_is_hex, chars_of, count_within, eq_fold, eq_fold_str, has_prefix, is_hex, owned,
    replace, replace_text, same_fold, same_str, split, split_on, starts_with, string_of, texts,
    trim, trim_chars, upper, upper_chars,
};

verus! {

// ------------------------------------------------------------------ hints

/// Which device to use: a MAC address or BlueZ device id, or an advertised name.
#[derive(Debug, Clone, PartialEq, Eq)]
pub enum DeviceHint {
    Address(String),
    Name(String),
}

/// What a hint says.
pub enum HintView {
    Address(Seq<char>),
    Name(Seq<char>),
}

/// Two hexadecimal digits.
pub open spec fn is_pair(p: Seq<char>) -> bool {
    p.len() == 2 && is_hex(p[0]) && is_hex(p[1])
}

/// Six pairs of hexadecimal digits with `c` between them.
pub open spec fn is_six_pairs(s: Seq<char>, c: char) -> bool {
    split(s, c).len() == 6 && forall|i: int| 0 <= i < 6 ==> is_pair(#[trigger] split(s, c)[i])
}

fn six_pairs(s: &[char], c: char) -> (r: bool)
    ensures
        r == is_six_pairs(s@, c),
{
    let parts = split_on(s, c);
    let ghost v = split(s@, c);
    assert(texts(parts@).len() == parts@.len());
    if parts.len() != 6 {
        return false;
    }
    let mut i: usize = 0;
    while i < 6
        invariant
            i <= 6,
            parts@.len() == 6,
            v == texts(parts@),
            v == split(s@, c),
            forall|k: int| 0 <= k < i ==> is_pair(#[trigger] v[k]),
        decreases 6 - i,
    {
        let p = &parts[i];
        assert(v[i as int] == p@);
        if !(p.len() == 2 && char_is_hex(p[0]) && char_is_hex(p[1])) {
            return false;
        }
        i += 1;
    }
    true
}

impl DeviceHint {
    /// What the hint says.
    pub open spec fn model(self) -> HintView {
        match self {
            DeviceHint::Address(a) => HintView::Address(a@),
            DeviceHint::Name(n) => HintView::Name(n@),
        }
    }

    /// A text as a hint: six pairs of digits are an address, anything else a name.
    pub open spec fn spec_parse(s: Seq<char>) -> HintView {
        let t = trim(s);
        if is_six_pairs(t, ':') || is_six_pairs(t, '_') {
            HintView::Address(upper(replace(t, "_"@, ":"@)))
        } else {
            HintView::Name(t)
        }
    }

    /// A text as a hint.
    pub fn parse(s: &str) -> (r: DeviceHint)
        ensures
            r.model() == DeviceHint::spec_parse(s@),
    {
        let cs = chars_of(s);
        let t = trim_chars(cs.as_slice());
        if six_pairs(t, ':') || six_pairs(t, '_') {
            proof {
                reveal_strlit("_");
            }
            let a = replace_text(t, "_", ":");
            let u = upper_chars(a.as_slice());
            DeviceHint::Address(string_of(u.as_slice()))
        } else {
            DeviceHint::Name(string_of(t))
        }
    }
}

// ------------------------------------------------------------------ candidates

/// A device that might be a cat printer.
#[derive(Debug, Clone, PartialEq, Eq)]
pub struct Candidate {
    pub path: String,
    pub address: String,
    pub name: Option<String>,
    pub rssi: Option<i16>,
    pub connected: bool,
    pub uuids: Vec<String>,
}

/// What is known of a candidate.
#[verifier::ext_equal]
pub struct CandidateView {
    pub path: Seq<char>,
    pub address: Seq<char>,
    pub name: Option<Seq<char>>,
    pub rssi: Option<i16>,
    pub connected: bool,
    pub uuids: Seq<Seq<char>>,
}

/// The view of an optional string.
pub open spec fn opt_string(s: Option<String>) -> Option<Seq<char>> {
    match s {
        Some(s) => Some(s@),
        None => None,
    }
}

/// What is known of the candidates of a list.
pub open spec fn candidate_views(v: Seq<Candidate>) -> Seq<CandidateView> {
    Seq::new(v.len(), |i: int| v[i].model())
}

impl CandidateView {
    /// How good the candidate is: a connected one is better than any other, then goes the signal; without a
    /// signal it comes last.
    pub open spec fn key(self) -> int {
        (if self.connected {
            100_000
        } else {
            0int
        }) + match self.rssi {
            Some(r) => r as int,
            None => -40_000,
        }
    }

    /// The candidate is there: advertising, or connected.
    pub open spec fn live(self) -> bool {
        self.rssi is Some || self.connected
    }
}

impl Candidate {
    /// What is known of the candidate.
    pub open spec fn model(self) -> CandidateView {
        CandidateView {
            path: self.path@,
            address: self.address@,
            name: opt_string(self.name),
            rssi: self.rssi,
            connected: self.connected,
            uuids: views(self.uuids@),
        }
    }

    /// The candidate's name and address.
    pub open spec fn label_text(self) -> Seq<char> {
        match self.name {
            Some(n) => n@ + " ("@ + self.address@ + ")"@,
            None => self.address@,
        }
    }

    /// The candidate's name and address.
    pub fn label(&self) -> (r: String)
        ensures
            r@ == self.label_text(),
    {
        match &self.name {
            Some(n) => {
                let mut r = owned(n.as_str());
                r.push_str(" (");
                r.push_str(self.address.as_str());
                r.push_str(")");
                r
            },
            None => owned(self.address.as_str()),
        }
    }

    /// A copy.
    pub fn copy(&self) -> (r: Candidate)
        ensures
            r.model() == self.model(),
    {
        let mut uuids: Vec<String> = Vec::new();
        let mut i: usize = 0;
        while i < self.uuids.len()
            invariant
                i <= self.uuids.len(),
                uuids@.len() == i,
                forall|k: int| 0 <= k < i ==> (#[trigger] uuids@[k])@ == self.uuids@[k]@,
            decreases self.uuids.len() - i,
        {
            uuids.push(owned(self.uuids[i].as_str()));
            i += 1;
        }
        assert(views(uuids@) =~= views(self.uuids@));
        Candidate {
            path: owned(self.path.as_str()),
            address: owned(self.address.as_str()),
            name: match &self.name {
                Some(n) => Some(owned(n.as_str())),
                None => None,
            },
            rssi: self.rssi,
            connected: self.connected,
            uuids,
        }
    }

    fn rank(&self) -> (r: i32)
        ensures
            r == self.model().key(),
    {
        (if self.connected {
            100_000
        } else {
            0
        }) + match self.rssi {
            Some(r) => r as i32,
            None => -40_000,
        }
    }
}

// ------------------------------------------------------------------ matching

/// One of the services of cat printers is advertised.
pub open spec fn has_service(uuids: Seq<Seq<char>>) -> bool {
    exists|i: int|
        0 <= i < uuids.len() && (same_fold(SERVICE_AE30@, #[trigger] uuids[i]) || same_fold(
            SERVICE_AF30@,
            uuids[i],
        ))
}

/// Whether one of the services of cat printers is advertised.
pub fn advertises_service(uuids: &[String]) -> (r: bool)
    ensures
        r == has_service(views(uuids@)),
{
    let mut i: usize = 0;
    while i < uuids.len()
        invariant
            i <= uuids.len(),
            forall|k: int|
                0 <= k < i ==> !same_fold(SERVICE_AE30@, #[trigger] views(uuids@)[k]) && !same_fold(
                    SERVICE_AF30@,
                    views(uuids@)[k],
                ),
        decreases uuids.len() - i,
    {
        if eq_fold_str(SERVICE_AE30, uuids[i].as_str()) || eq_fold_str(
            SERVICE_AF30,
            uuids[i].as_str(),
        ) {
            assert(views(uuids@)[i as int] == uuids@[i as int]@);
            return true;
        }
        i += 1;
    }
    false
}

/// The view of an optional hint.
pub open spec fn hint_view(h: Option<&DeviceHint>) -> Option<HintView> {
    match h {
        Some(h) => Some(h.model()),
        None => None,
    }
}

/// The device looks like a cat printer. A hint decides alone, by address or exact name. Else a name of
/// the registry does, where it has at least four bytes; shorter ones are too common to be trusted
/// alone. Else an advertised service does.
pub open spec fn is_cat_printer(
    name: Option<Seq<char>>,
    address: Seq<char>,
    uuids: Seq<Seq<char>>,
    hint: Option<HintView>,
) -> bool {
    match hint {
        Some(HintView::Address(a)) => same_fold(address, a),
        Some(HintView::Name(n)) => name is Some && same_fold(name->0, trim(n)),
        None => has_service(uuids) || (name is Some && spec_lookup(name->0) is Some && byte_len(
            trim(name->0),
        ) >= 4),
    }
}

/// Whether a text has at least `n` bytes in UTF-8.
fn at_least_bytes(s: &[char], n: usize) -> (r: bool)
    requires
        n > 0,
    ensures
        r == (byte_len(s@) >= n),
{
    let k: usize = count_within(s, n - 1);
    proof {
        assert(s@.take(s@.len() as int) =~= s@);
        if k < s.len() {
            crate::text::lemma_byte_len_take(s@, k as int + 1, s@.len() as int);
        }
    }
    k < s.len()
}

/// Whether a device looks like a cat printer.
pub fn looks_like_cat_printer(
    name: Option<&str>,
    address: &str,
    uuids: &[String],
    hint: Option<&DeviceHint>,
) -> (r: bool)
    ensures
        r == is_cat_printer(opt_text(name), address@, views(uuids@), hint_view(hint)),
{
    match hint {
        Some(DeviceHint::Address(a)) => eq_fold_str(address, a.as_str()),
        Some(DeviceHint::Name(n)) => match name {
            Some(x) => {
                let want = chars_of(n.as_str());
                eq_fold(chars_of(x).as_slice(), trim_chars(want.as_slice()))
            },
            None => false,
        },
        None => {
            if let Some(n) = name {
                let cs = chars_of(n);
                if lookup(n).is_some() && at_least_bytes(trim_chars(cs.as_slice()), 4) {
                    return true;
                }
            }
            advertises_service(uuids)
        },
    }
}

// ------------------------------------------------------------------ picking

/// The best of the candidates; of equal ones the last.
pub open spec fn best_of(c: Seq<CandidateView>) -> Option<CandidateView>
    decreases c.len(),
{
    if c.len() == 0 {
        None
    } else {
        better(best_of(c.drop_last()), Some(c.last()))
    }
}

/// The better of two candidates; of equal ones the second.
pub open spec fn better(a: Option<CandidateView>, b: Option<CandidateView>) -> Option<CandidateView> {
    match (a, b) {
        (None, b) => b,
        (a, None) => a,
        (Some(x), Some(y)) => if y.key() >= x.key() {
            Some(y)
        } else {
            Some(x)
        },
    }
}

/// The view of an optional candidate.
pub open spec fn picked_view(c: Option<Candidate>) -> Option<CandidateView> {
    match c {
        Some(c) => Some(c.model()),
        None => None,
    }
}

/// The best of the candidates: one that is connected already (it then stops advertising), then the
/// strongest signal; those without a signal come last.
pub fn pick(cands: &[Candidate]) -> (r: Option<&Candidate>)
    ensures
        match r {
            Some(c) => best_of(candidate_views(cands@)) == Some(c.model()),
            None => best_of(candidate_views(cands@)) is None,
        },
{
    if cands.len() == 0 {
        return None;
    }
    let ghost v = candidate_views(cands@);
    let mut k: usize = 0;
    let mut i: usize = 1;
    assert(v.take(1).drop_last() =~= Seq::<CandidateView>::empty());
    assert(best_of(v.take(1).drop_last()) is None);
    assert(v.take(1).last() == v[0]);
    while i < cands.len()
        invariant
            1 <= i <= cands.len(),
            k < i,
            v == candidate_views(cands@),
            best_of(v.take(i as int)) == Some(v[k as int]),
        decreases cands.len() - i,
    {
        assert(v.take(i as int + 1).drop_last() =~= v.take(i as int));
        if cands[i].rank() >= cands[k].rank() {
            k = i;
        }
        i += 1;
    }
    assert(v.take(v.len() as int) =~= v);
    Some(&cands[k])
}

/// Folds one poll of a scan into the best candidate so far. A newer observation of an equal or
/// stronger candidate wins.
pub fn pick_after_settle(best: Option<Candidate>, live: &[Candidate]) -> (r: Option<Candidate>)
    ensures
        picked_view(r) == better(picked_view(best), best_of(candidate_views(live@))),
{
    match pick(live) {
        None => best,
        Some(c) => match best {
            None => Some(c.copy()),
            Some(b) => if c.rank() >= b.rank() {
                Some(c.copy())
            } else {
                Some(b)
            },
        },
    }
}

/// The best candidate is one of the list, and none is better; the better of the best of two lists is
/// the best of both.
pub proof fn lemma_best(c: Seq<CandidateView>)
    ensures
        best_of(c) is None <==> c.len() == 0,
        c.len() > 0 ==> c.contains(best_of(c)->0),
        forall|i: int| 0 <= i < c.len() ==> (#[trigger] c[i]).key() <= best_of(c)->0.key(),
    decreases c.len(),
{
    if c.len() > 0 {
        let rest = c.drop_last();
        lemma_best(rest);
        if rest.len() > 0 {
            let k = choose|k: int| 0 <= k < rest.len() && rest[k] == best_of(rest)->0;
            assert(c[k] == rest[k]);
        }
        assert(c[c.len() - 1] == c.last());
        assert forall|i: int| 0 <= i < c.len() implies (#[trigger] c[i]).key() <= best_of(
            c,
        )->0.key() by {
            if i < rest.len() {
                assert(rest[i].key() <= best_of(rest)->0.key());
            }
        }
    }
}

// ------------------------------------------------------------------ devices

/// The name is the device's address with dashes, which BlueZ gives to a device that never advertised
/// a name.
pub open spec fn is_dashed_mac(name: Seq<char>, address: Seq<char>) -> bool {
    address.len() > 0 && same_fold(name, replace(address, ":"@, "-"@))
}

/// Whether the name is the device's address with dashes.
pub fn name_is_dashed_mac(name: &str, address: &str) -> (r: bool)
    ensures
        r == is_dashed_mac(name@, address@),
{
    let a = chars_of(address);
    if a.len() == 0 {
        return false;
    }
    proof {
        reveal_strlit(":");
    }
    let d = replace_text(a.as_slice(), ":", "-");
    eq_fold(chars_of(name).as_slice(), d.as_slice())
}

/// The text, or the empty one.
pub open spec fn or_empty(t: Option<Seq<char>>) -> Seq<char> {
    match t {
        Some(t) => t,
        None => Seq::empty(),
    }
}

/// The advertised name of a device: its name or its alias, unless that is empty or the address.
pub open spec fn device_name(p: Props) -> Option<Seq<char>> {
    let n = if p.text("Name"@) is Some {
        p.text("Name"@)
    } else {
        p.text("Alias"@)
    };
    match n {
        Some(s) => if s.len() > 0 && !is_dashed_mac(s, or_empty(p.text("Address"@))) {
            Some(s)
        } else {
            None
        },
        None => None,
    }
}

/// What is known of a device.
pub open spec fn candidate_of(entry: (Seq<char>, Props)) -> CandidateView {
    let p = entry.1;
    CandidateView {
        path: entry.0,
        address: or_empty(p.text("Address"@)),
        name: device_name(p),
        rssi: p.signed("RSSI"@),
        connected: p.flag("Connected"@),
        uuids: p.strings("UUIDs"@),
    }
}

fn string_or_empty(t: Option<String>) -> (r: String)
    ensures
        r@ == or_empty(opt_string(t)),
{
    match t {
        Some(s) => s,
        None => {
            let s = String::new();
            assert(s@ =~= Seq::<char>::empty());
            s
        },
    }
}

fn candidate_from_props(path: &str, p: &Props) -> (r: Candidate)
    ensures
        r.model() == candidate_of((path@, *p)),
{
    let address = string_or_empty(prop_str(p, "Address"));
    let n = match prop_str(p, "Name") {
        Some(n) => Some(n),
        None => prop_str(p, "Alias"),
    };
    let name = match n {
        Some(s) => if !s.as_str().is_empty() && !name_is_dashed_mac(s.as_str(), address.as_str()) {
            Some(s)
        } else {
            None
        },
        None => None,
    };
    Candidate {
        path: owned(path),
        address,
        name,
        rssi: prop_i16(p, "RSSI"),
        connected: prop_flag(p, "Connected"),
        uuids: prop_strs(p, "UUIDs"),
    }
}

/// The list holds an address, up to case.
pub open spec fn avoids(avoid: Seq<Seq<char>>, address: Seq<char>) -> bool {
    exists|i: int| 0 <= i < avoid.len() && same_fold(#[trigger] avoid[i], address)
}

fn is_avoided(avoid: &[String], address: &str) -> (r: bool)
    ensures
        r == avoids(views(avoid@), address@),
{
    let mut i: usize = 0;
    while i < avoid.len()
        invariant
            i <= avoid.len(),
            forall|k: int| 0 <= k < i ==> !same_fold(#[trigger] views(avoid@)[k], address@),
        decreases avoid.len() - i,
    {
        if eq_fold_str(avoid[i].as_str(), address) {
            assert(views(avoid@)[i as int] == avoid@[i as int]@);
            return true;
        }
        i += 1;
    }
    false
}

/// A device of a listing is a candidate: under the adapter, by its looks, and not avoided.
pub open spec fn is_candidate(
    entry: (Seq<char>, Props),
    adapter_path: Seq<char>,
    hint: Option<HintView>,
    avoid: Seq<Seq<char>>,
) -> bool {
    let c = candidate_of(entry);
    &&& starts_with(entry.0, adapter_path + "/"@)
    &&& is_cat_printer(c.name, c.address, c.uuids, hint)
    &&& !avoids(avoid, c.address)
}

/// The candidates of a listing, in order.
pub open spec fn candidates_in(
    entries: Seq<(Seq<char>, Props)>,
    adapter_path: Seq<char>,
    hint: Option<HintView>,
    avoid: Seq<Seq<char>>,
) -> Seq<CandidateView>
    decreases entries.len(),
{
    if entries.len() == 0 {
        Seq::empty()
    } else if is_candidate(entries.last(), adapter_path, hint, avoid) {
        candidates_in(entries.drop_last(), adapter_path, hint, avoid).push(
            candidate_of(entries.last()),
        )
    } else {
        candidates_in(entries.drop_last(), adapter_path, hint, avoid)
    }
}

/// The devices under an adapter that look like cat printers, without those to avoid (which connected
/// fine but turned out not to be cat printers).
pub fn candidates_from(
    objs: &Objects,
    adapter_path: &str,
    hint: Option<&DeviceHint>,
    avoid: &[String],
) -> (r: Vec<Candidate>)
    ensures
        candidate_views(r@) == candidates_in(
            with_iface(objs.list@, IFACE_DEVICE@),
            adapter_path@,
            hint_view(hint),
            views(avoid@),
        ),
{
    let mut prefix = owned(adapter_path);
    prefix.push_str("/");
    let list = objects_with(objs, IFACE_DEVICE);
    let ghost entries = entry_views(list@);
    let mut out: Vec<Candidate> = Vec::new();
    let mut i: usize = 0;
    assert(candidate_views(out@) =~= candidates_in(
        entries.take(0),
        adapter_path@,
        hint_view(hint),
        views(avoid@),
    ));
    while i < list.len()
        invariant
            i <= list.len(),
            entries == entry_views(list@),
            prefix@ == adapter_path@ + "/"@,
            candidate_views(out@) == candidates_in(
                entries.take(i as int),
                adapter_path@,
                hint_view(hint),
                views(avoid@),
            ),
        decreases list.len() - i,
    {
        let ghost was = out@;
        assert(entries.take(i as int + 1).drop_last() =~= entries.take(i as int));
        assert(entries.take(i as int + 1).last() == entries[i as int]);
        let path = list[i].0.as_str();
        let c = candidate_from_props(path, list[i].1);
        let name: Option<&str> = match &c.name {
            Some(n) => Some(n.as_str()),
            None => None,
        };
        assert(opt_text(name) == opt_string(c.name));
        if has_prefix(chars_of(path).as_slice(), prefix.as_str()) && looks_like_cat_printer(
            name,
            c.address.as_str(),
            c.uuids.as_slice(),
            hint,
        ) && !is_avoided(avoid, c.address.as_str()) {
            out.push(c);
            assert(candidate_views(out@) =~= candidate_views(was).push(c.model()));
        }
        i += 1;
    }
    assert(entries.take(entries.len() as int) =~= entries);
    out
}

// ------------------------------------------------------------------ adapters

/// A Bluetooth adapter.
#[derive(Debug, Clone, PartialEq, Eq)]
pub struct AdapterInfo {
    pub path: String,
    pub address: String,
    pub name: String,
    pub powered: bool,
}

/// What is known of an adapter.
pub struct AdapterView {
    pub path: Seq<char>,
    pub address: Seq<char>,
    pub name: Seq<char>,
    pub powered: bool,
}

impl AdapterInfo {
    /// What is known of the adapter.
    pub open spec fn model(self) -> AdapterView {
        AdapterView {
            path: self.path@,
            address: self.address@,
            name: self.name@,
            powered: self.powered,
        }
    }

    fn copy(&self) -> (r: AdapterInfo)
        ensures
            r.model() == self.model(),
    {
        AdapterInfo {
            path: owned(self.path.as_str()),
            address: owned(self.address.as_str()),
            name: owned(self.name.as_str()),
            powered: self.powered,
        }
    }
}

/// What is known of an adapter.
pub open spec fn adapter_of(entry: (Seq<char>, Props)) -> AdapterView {
    let p = entry.1;
    AdapterView {
        path: entry.0,
        address: or_empty(p.text("Address"@)),
        name: or_empty(
            if p.text("Alias"@) is Some {
                p.text("Alias"@)
            } else {
                p.text("Name"@)
            },
        ),
        powered: p.flag("Powered"@),
    }
}

/// The adapters of a snapshot, in the order of their paths.
pub open spec fn adapters_in(objs: Objects) -> Seq<AdapterView> {
    let e = with_iface(objs.list@, IFACE_ADAPTER@);
    Seq::new(e.len(), |i: int| adapter_of(e[i]))
}

/// What is known of the adapters of a list.
pub open spec fn adapter_views(v: Seq<AdapterInfo>) -> Seq<AdapterView> {
    Seq::new(v.len(), |i: int| v[i].model())
}

/// All adapters that BlueZ knows about.
pub fn adapters_from(objs: &Objects) -> (r: Vec<AdapterInfo>)
    ensures
        adapter_views(r@) == adapters_in(*objs),
{
    let list = objects_with(objs, IFACE_ADAPTER);
    let ghost entries = entry_views(list@);
    let mut out: Vec<AdapterInfo> = Vec::new();
    let mut i: usize = 0;
    while i < list.len()
        invariant
            i <= list.len(),
            entries == entry_views(list@),
            out@.len() == i,
            forall|k: int| 0 <= k < i ==> (#[trigger] out@[k]).model() == adapter_of(entries[k]),
        decreases list.len() - i,
    {
        let p: &Props = list[i].1;
        let name = match prop_str(p, "Alias") {
            Some(a) => Some(a),
            None => prop_str(p, "Name"),
        };
        out.push(
            AdapterInfo {
                path: owned(list[i].0.as_str()),
                address: string_or_empty(prop_str(p, "Address")),
                name: string_or_empty(name),
                powered: prop_flag(p, "Powered"),
            },
        );
        i += 1;
    }
    assert(adapter_views(out@) =~= adapters_in(*objs));
    out
}

/// The first adapter with a path.
pub open spec fn adapter_at(v: Seq<AdapterView>, path: Seq<char>) -> Option<AdapterView>
    decreases v.len(),
{
    if v.len() == 0 {
        None
    } else if v[0].path == path {
        Some(v[0])
    } else {
        adapter_at(v.skip(1), path)
    }
}

/// The first adapter that is powered.
pub open spec fn first_powered(v: Seq<AdapterView>) -> Option<AdapterView>
    decreases v.len(),
{
    if v.len() == 0 {
        None
    } else if v[0].powered {
        Some(v[0])
    } else {
        first_powered(v.skip(1))
    }
}

/// The path of an adapter that was asked for by path or by name.
pub open spec fn wanted_path(w: Seq<char>) -> Seq<char> {
    if w.len() > 0 && w[0] == '/' {
        w
    } else {
        "/org/bluez/"@ + w
    }
}

/// `r` is the adapter to use: the one that was asked for, which must be powered, or else the first one
/// that is powered.
pub open spec fn is_chosen(
    r: Result<AdapterInfo, PrintError>,
    objs: Objects,
    want: Option<Seq<char>>,
) -> bool {
    match want {
        Some(w) => match adapter_at(adapters_in(objs), wanted_path(w)) {
            Some(a) => if a.powered {
                r matches Ok(x) && x.model() == a
            } else {
                r matches Err(PrintError::AdapterOff)
            },
            None => r matches Err(PrintError::Bus(t)) && t@ == "Bluetooth adapter "@ + w
                + " not found"@,
        },
        None => match first_powered(adapters_in(objs)) {
            Some(a) => r matches Ok(x) && x.model() == a,
            None => r matches Err(PrintError::AdapterOff),
        },
    }
}

/// The adapter to use.
pub fn choose_adapter(objs: &Objects, want: Option<&str>) -> (r: Result<AdapterInfo, PrintError>)
    ensures
        is_chosen(r, *objs, opt_text(want)),
{
    let all = adapters_from(objs);
    let ghost v = adapter_views(all@);
    match want {
        Some(w) => {
            let cs = chars_of(w);
            let path = if cs.len() > 0 && cs[0] == '/' {
                owned(w)
            } else {
                let mut p = owned("/org/bluez/");
                p.push_str(w);
                p
            };
            let mut i: usize = 0;
            assert(v.skip(0) =~= v);
            while i < all.len()
                invariant
                    i <= all.len(),
                    v == adapter_views(all@),
                    v == adapters_in(*objs),
                    want == Some(w),
                    path@ == wanted_path(w@),
                    adapter_at(v, path@) == adapter_at(v.skip(i as int), path@),
                decreases all.len() - i,
            {
                assert(v.skip(i as int)[0] == all@[i as int].model());
                assert(v.skip(i as int).skip(1) =~= v.skip(i as int + 1));
                if same_str(all[i].path.as_str(), path.as_str()) {
                    if !all[i].powered {
                        return Err(PrintError::AdapterOff);
                    }
                    return Ok(all[i].copy());
                }
                i += 1;
            }
            let mut t = owned("Bluetooth adapter ");
            t.push_str(w);
            t.push_str(" not found");
            Err(PrintError::Bus(t))
        },
        None => {
            let mut i: usize = 0;
            assert(v.skip(0) =~= v);
            while i < all.len()
                invariant
                    i <= all.len(),
                    v == adapter_views(all@),
                    v == adapters_in(*objs),
                    want is None,
                    first_powered(v) == first_powered(v.skip(i as int)),
                decreases all.len() - i,
            {
                assert(v.skip(i as int)[0] == all@[i as int].model());
                assert(v.skip(i as int).skip(1) =~= v.skip(i as int + 1));
                if all[i].powered {
                    return Ok(all[i].copy());
                }
                i += 1;
            }
            Err(PrintError::AdapterOff)
        },
    }
}

// ------------------------------------------------------------------ scanning

/// How long a scan goes on, in seconds.
pub fn default_scan_timeout() -> (r: u64)
    ensures
        r == SCAN_TIMEOUT_S,
{
    SCAN_TIMEOUT_S
}

/// How long a scan goes on after the first candidate, so that a stronger one seen a beat later wins.
pub const SETTLE_MS: u64 = 1000;

/// The pause between two polls of a scan.
pub const SCAN_POLL_MS: u64 = 250;

/// A scan that is under way.
#[derive(Debug)]
pub struct Scan {
    pub deadline_ms: u64,
    /// A certain device is looked for: it is taken right away.
    pub hinted: bool,
    pub best: Option<Candidate>,
    pub settle_until_ms: Option<u64>,
}

/// The candidates that are there.
pub open spec fn live_of(c: Seq<CandidateView>) -> Seq<CandidateView>
    decreases c.len(),
{
    if c.len() == 0 {
        Seq::empty()
    } else if c.last().live() {
        live_of(c.drop_last()).push(c.last())
    } else {
        live_of(c.drop_last())
    }
}

fn live_only(cands: &Vec<Candidate>) -> (r: Vec<Candidate>)
    ensures
        candidate_views(r@) == live_of(candidate_views(cands@)),
{
    let ghost v = candidate_views(cands@);
    let mut out: Vec<Candidate> = Vec::new();
    let mut i: usize = 0;
    assert(candidate_views(out@) =~= live_of(v.take(0)));
    while i < cands.len()
        invariant
            i <= cands.len(),
            v == candidate_views(cands@),
            candidate_views(out@) == live_of(v.take(i as int)),
        decreases cands.len() - i,
    {
        let ghost was = out@;
        assert(v.take(i as int + 1).drop_last() =~= v.take(i as int));
        assert(v.take(i as int + 1).last() == cands@[i as int].model());
        if cands[i].rssi.is_some() || cands[i].connected {
            let c = cands[i].copy();
            out.push(c);
            assert(candidate_views(out@) =~= candidate_views(was).push(c.model()));
        }
        i += 1;
    }
    assert(v.take(v.len() as int) =~= v);
    out
}

impl Scan {
    /// A scan that begins.
    pub fn new(hinted: bool, timeout_ms: u64, now_ms: u64) -> (r: Scan)
        requires
            now_ms + timeout_ms <= u64::MAX,
        ensures
            r.deadline_ms == now_ms + timeout_ms,
            r.hinted == hinted,
            r.best is None,
            r.settle_until_ms is None,
    {
        Scan {
            deadline_ms: now_ms + timeout_ms,
            hinted,
            best: None,
            settle_until_ms: None,
        }
    }

    /// Whether the scan goes on.
    pub fn goes_on(&self, now_ms: u64) -> (r: bool)
        ensures
            r == (now_ms < self.deadline_ms),
    {
        now_ms < self.deadline_ms
    }

    /// `new` is the scan after a poll, and `r` whether it is over.
    pub open spec fn is_polled(self, new: Scan, cands: Seq<CandidateView>, now_ms: u64, r: bool) -> bool {
        &&& new.deadline_ms == self.deadline_ms
        &&& new.hinted == self.hinted
        &&& picked_view(new.best) == better(picked_view(self.best), best_of(live_of(cands)))
        &&& match self.settle_until_ms {
            None => if new.best is Some && !self.hinted {
                !r && new.settle_until_ms == Some((now_ms + SETTLE_MS) as u64)
            } else {
                r == new.best is Some && new.settle_until_ms is None
            },
            Some(t) => new.settle_until_ms == Some(t) && r == (new.best is Some && (self.hinted || now_ms >= t)),
        }
    }

    /// Takes the candidates of one poll; says whether the scan is over. Only candidates that are
    /// there now are trusted. With a hint the first one is taken right away; without, the scan goes on
    /// until it has settled.
    pub fn poll(&mut self, cands: &Vec<Candidate>, now_ms: u64) -> (r: bool)
        requires
            now_ms <= u64::MAX - SETTLE_MS,
        ensures
            old(self).is_polled(*final(self), candidate_views(cands@), now_ms, r),
    {
        let live = live_only(cands);
        let mut best: Option<Candidate> = None;
        std::mem::swap(&mut best, &mut self.best);
        self.best = pick_after_settle(best, live.as_slice());
        if self.best.is_none() {
            return false;
        }
        if self.hinted {
            return true;
        }
        match self.settle_until_ms {
            None => {
                self.settle_until_ms = Some(now_ms + SETTLE_MS);
                false
            },
            Some(t) => now_ms >= t,
        }
    }

    /// What the scan found.
    pub fn finish(self) -> (r: Result<Candidate, PrintError>)
        ensures
            match self.best {
                Some(c) => r == Ok::<Candidate, PrintError>(c),
                None => r == Err::<Candidate, PrintError>(PrintError::NotFound),
            },
    {
        match self.best {
            Some(c) => Ok(c),
            None => Err(PrintError::NotFound),
        }
    }
}

/// The best of the candidates is connected where any is; among those, or where none is, it has a signal
/// where any has, and no other has a stronger one.
pub proof fn lemma_best_is(c: Seq<CandidateView>, i: int)
    requires
        0 <= i < c.len(),
    ensures
        best_of(c) matches Some(b) && {
            &&& c[i].connected ==> b.connected
            &&& c[i].connected == b.connected && c[i].rssi is Some ==> b.rssi is Some
            &&& c[i].connected == b.connected ==> (c[i].rssi matches Some(r) ==> r <= b.rssi->0)
        },
{
    lemma_best(c);
}

} // verus!
