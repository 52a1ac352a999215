//! Bluetooth transport over BlueZ.
//!
//! Per print job: find the printer (cache first, then a scan), connect, detect the model, pack the
//! strip for that model, drive the family's sequence for each copy, then always disconnect.

use vstd::prelude::*;

use crate::ble::bluez::Objects;
use crate::ble::discovery::{
    adapters_from, adapters_in, best_of, candidates_from, candidates_in, choose_adapter, hint_view,
    is_chosen, pick, picked_view, AdapterInfo, Candidate, CandidateView, DeviceHint,
};
use crate::ble::objects::{views, with_iface};
use crate::config::NotifyMode;
use crate::models::{opt_text, Caps, Family};
use crate::printer::{Condition, Phase, PreparedJob, PrintError, PrintReport, Progress};
use crate::render::packing::{
    can_pack, is_pack_of, is_packable, kernels_ok, mode_for, pack_error, pack_padded, spec_mode_for, Packed,
};
use crate::render::Preset;
use crate::text::{chars_of, dec, owned, push_dec, same_str, string_of, upper, upper_chars};

pub mod bluez;
pub mod bluez_laws;
pub mod discovery;
pub mod discovery_laws;
pub mod host;
pub mod host_laws;
pub mod object_laws;
pub mod objects;
pub mod session;
pub mod session_laws;

verus! {

/// How long a device that connected fine but is no cat printer is left out when looking for one: long
/// enough that a neighbour's gadget cannot eat every retry of a job, short enough that a device that
/// really becomes a printer comes back.
pub const AVOID_TTL_MS: u64 = 600_000;

/// Further scans that one search may spend on skipping wrong devices.
pub const MISPICK_EXTRA_TRIES: u8 = 2;

/// A real printer.
#[derive(Debug)]
pub struct BlePrinter {
    pub device_hint: Option<String>,
    pub adapter: Option<String>,
    pub forced_family: Option<Family>,
    pub slow: bool,
    pub pacing_ms: u64,
    pub notify_mode: NotifyMode,
    /// Where the address of the first successful connect is kept.
    pub state_dir: Option<String>,
}

impl BlePrinter {
    /// The device to look for, if one is given.
    pub fn hint(&self) -> (r: Option<DeviceHint>)
        ensures
            match self.device_hint {
                Some(h) => r is Some && (r->0).model() == DeviceHint::spec_parse(h@),
                None => r is None,
            },
    {
        match &self.device_hint {
            Some(h) => Some(DeviceHint::parse(h.as_str())),
            None => None,
        }
    }
}

// ------------------------------------------------------------------ devices to avoid

/// Addresses that recently turned out to be no cat printers, with the time of that.
#[derive(Debug)]
pub struct AvoidList {
    pub entries: Vec<(String, u64)>,
}

/// What a list of addresses and times holds.
pub open spec fn avoid_views(v: Seq<(String, u64)>) -> Seq<(Seq<char>, u64)> {
    Seq::new(v.len(), |i: int| (v[i].0@, v[i].1))
}

/// Those entries that are not too old, and not of an address that is left out.
pub open spec fn fresh(
    v: Seq<(Seq<char>, u64)>,
    now_ms: u64,
    without: Option<Seq<char>>,
) -> Seq<(Seq<char>, u64)>
    decreases v.len(),
{
    if v.len() == 0 {
        Seq::empty()
    } else if now_ms - v.last().1 < AVOID_TTL_MS && without != Some(v.last().0) {
        fresh(v.drop_last(), now_ms, without).push(v.last())
    } else {
        fresh(v.drop_last(), now_ms, without)
    }
}

/// The addresses of a list.
pub open spec fn addresses(v: Seq<(Seq<char>, u64)>) -> Seq<Seq<char>> {
    Seq::new(v.len(), |i: int| v[i].0)
}

impl AvoidList {
    /// What the list holds.
    pub open spec fn model(self) -> Seq<(Seq<char>, u64)> {
        avoid_views(self.entries@)
    }

    /// An empty list.
    pub fn new() -> (r: AvoidList)
        ensures
            r.model() == Seq::<(Seq<char>, u64)>::empty(),
    {
        let r = AvoidList { entries: Vec::new() };
        assert(r.model() =~= Seq::<(Seq<char>, u64)>::empty());
        r
    }

    fn prune(&mut self, now_ms: u64, without: Option<&str>)
        ensures
            final(self).model() == fresh(old(self).model(), now_ms, opt_text(without)),
    {
        let ghost v = self.model();
        let mut out: Vec<(String, u64)> = Vec::new();
        let mut i: usize = 0;
        assert(avoid_views(out@) =~= fresh(v.take(0), now_ms, opt_text(without)));
        while i < self.entries.len()
            invariant
                i <= self.entries.len(),
                v == avoid_views(self.entries@),
                avoid_views(out@) == fresh(v.take(i as int), now_ms, opt_text(without)),
            decreases self.entries.len() - i,
        {
            let ghost was = out@;
            let a = self.entries[i].0.as_str();
            let t: u64 = self.entries[i].1;
            assert(v.take(i as int + 1).drop_last() =~= v.take(i as int));
            assert(v.take(i as int + 1).last() == (a@, t));
            let left_out = match without {
                Some(w) => same_str(w, a),
                None => false,
            };
            if (now_ms < t || now_ms - t < AVOID_TTL_MS) && !left_out {
                out.push((owned(a), t));
                assert(avoid_views(out@) =~= avoid_views(was).push((a@, t)));
            }
            i += 1;
        }
        assert(v.take(v.len() as int) =~= v);
        self.entries = out;
    }

    /// The addresses to avoid now. What is too old is forgotten.
    pub fn avoided(&mut self, now_ms: u64) -> (r: Vec<String>)
        ensures
            final(self).model() == fresh(old(self).model(), now_ms, None),
            views(r@) == addresses(final(self).model()),
    {
        self.prune(now_ms, None);
        let mut r: Vec<String> = Vec::new();
        let mut i: usize = 0;
        while i < self.entries.len()
            invariant
                i <= self.entries.len(),
                r@.len() == i,
                forall|k: int| 0 <= k < i ==> (#[trigger] r@[k])@ == self.entries@[k].0@,
            decreases self.entries.len() - i,
        {
            r.push(owned(self.entries[i].0.as_str()));
            i += 1;
        }
        assert(views(r@) =~= addresses(self.model()));
        r
    }

    /// Notes a device that is no cat printer.
    pub fn note(&mut self, address: &str, now_ms: u64)
        ensures
            final(self).model() == fresh(old(self).model(), now_ms, Some(upper(address@))).push(
                (upper(address@), now_ms),
            ),
    {
        let cs = chars_of(address);
        let up = string_of(upper_chars(cs.as_slice()).as_slice());
        self.prune(now_ms, Some(up.as_str()));
        let ghost was = self.entries@;
        let ghost u = up@;
        self.entries.push((up, now_ms));
        assert(self.model() =~= avoid_views(was).push((u, now_ms)));
    }
}

/// A device that was noted is avoided until its time is over, and then no longer.
pub proof fn lemma_noted_is_avoided(v: Seq<(Seq<char>, u64)>, address: Seq<char>, t: u64, now_ms: u64)
    requires
        v.len() > 0,
        v.last() == (address, t),
        forall|i: int| 0 <= i < v.len() - 1 ==> (#[trigger] v[i]).0 != address,
    ensures
        addresses(fresh(v, now_ms, None)).contains(address) == (now_ms - t < AVOID_TTL_MS),
{
    let rest = v.drop_last();
    lemma_fresh_from(rest, now_ms);
    let f = fresh(v, now_ms, None);
    let g = fresh(rest, now_ms, None);
    assert forall|i: int| 0 <= i < g.len() implies (#[trigger] g[i]).0 != address by {
        assert(rest.contains(g[i]));
        let k = choose|k: int| 0 <= k < rest.len() && rest[k] == g[i];
        assert(v[k] == rest[k]);
    }
    if now_ms - t < AVOID_TTL_MS {
        assert(f == g.push((address, t)));
        assert(addresses(f)[g.len() as int] == address);
    } else {
        assert(f == g);
        if addresses(f).contains(address) {
            let i = choose|i: int| 0 <= i < addresses(f).len() && addresses(f)[i] == address;
            assert(g[i].0 == address);
        }
    }
}

proof fn lemma_fresh_from(v: Seq<(Seq<char>, u64)>, now_ms: u64)
    ensures
        forall|i: int|
            0 <= i < fresh(v, now_ms, None).len() ==> v.contains(
                #[trigger] fresh(v, now_ms, None)[i],
            ),
    decreases v.len(),
{
    if v.len() > 0 {
        let rest = v.drop_last();
        lemma_fresh_from(rest, now_ms);
        let f = fresh(v, now_ms, None);
        let g = fresh(rest, now_ms, None);
        assert forall|i: int| 0 <= i < f.len() implies v.contains(#[trigger] f[i]) by {
            if i < g.len() {
                assert(rest.contains(g[i]));
                let k = choose|k: int| 0 <= k < rest.len() && rest[k] == g[i];
                assert(v[k] == g[i]);
            } else {
                assert(v[v.len() - 1] == f[i]);
            }
        }
    }
}

// ------------------------------------------------------------------ the search

/// Which adapter a search uses.
#[derive(Debug)]
pub enum AdapterStep {
    Use(AdapterInfo),
    /// The adapter is off or in a reset: try to bring it back, then choose again.
    Recover { path: String },
    Fail(PrintError),
}

/// `s` is which adapter a search uses.
pub open spec fn is_adapter_step(s: AdapterStep, objs: Objects, want: Option<Seq<char>>) -> bool {
    exists|r: Result<AdapterInfo, PrintError>| #[trigger]
        is_chosen(r, objs, want) && match r {
            Ok(a) => s == AdapterStep::Use(a),
            Err(PrintError::AdapterOff) => s matches AdapterStep::Recover { path } && path@
                == recover_path(objs),
            Err(e) => s == AdapterStep::Fail(e),
        }
}

/// The adapter to bring back: the first, or the usual one where there is none.
pub open spec fn recover_path(objs: Objects) -> Seq<char> {
    let a = adapters_in(objs);
    if a.len() > 0 {
        a[0].path
    } else {
        "/org/bluez/hci0"@
    }
}

/// Which adapter a search uses.
pub fn open_adapter(objs: &Objects, want: Option<&str>) -> (r: AdapterStep)
    ensures
        is_adapter_step(r, *objs, opt_text(want)),
{
    let c = choose_adapter(objs, want);
    assert(is_chosen(c, *objs, opt_text(want)));
    match c {
        Ok(a) => AdapterStep::Use(a),
        Err(PrintError::AdapterOff) => {
            let all = adapters_from(objs);
            assert(crate::ble::discovery::adapter_views(all@).len() == all@.len());
            let path = if all.len() > 0 {
                assert(crate::ble::discovery::adapter_views(all@)[0] == all@[0].model());
                owned(all[0].path.as_str())
            } else {
                owned("/org/bluez/hci0")
            };
            AdapterStep::Recover { path }
        },
        Err(e) => AdapterStep::Fail(e),
    }
}

/// The candidate of the cache, where it is there: connected, or advertising. One that is merely known
/// would cost a connect that is bound to time out whenever the printer is off.
pub open spec fn cached_of(c: Seq<CandidateView>) -> Option<CandidateView> {
    match best_of(c) {
        Some(b) => if b.live() {
            Some(b)
        } else {
            None
        },
        None => None,
    }
}

/// The candidate of the cache to try first.
pub fn cached_candidate(
    objs: &Objects,
    adapter_path: &str,
    hint: Option<&DeviceHint>,
    avoid: &[String],
) -> (r: Option<Candidate>)
    ensures
        picked_view(r) == cached_of(
            candidates_in(
                with_iface(objs.list@, bluez::IFACE_DEVICE@),
                adapter_path@,
                hint_view(hint),
                views(avoid@),
            ),
        ),
{
    let cands = candidates_from(objs, adapter_path, hint, avoid);
    match pick(cands.as_slice()) {
        Some(c) => if c.connected || c.rssi.is_some() {
            Some(c.copy())
        } else {
            None
        },
        None => None,
    }
}

/// A search for the printer, over its connects. A device that connects but is no cat printer is noted
/// and skipped, unless it was asked for.
#[derive(Debug)]
pub struct Search {
    /// A certain device is looked for.
    pub hinted: bool,
    /// Scans begun.
    pub scans: u8,
}

/// What a search does next.
#[derive(Debug)]
pub enum SearchStep {
    /// The printer is connected.
    Open,
    /// Scan for another device.
    Scan,
    Fail(PrintError),
}

impl Search {
    /// No more scans than there may be.
    pub open spec fn wf(self) -> bool {
        self.scans <= MISPICK_EXTRA_TRIES + 1
    }

    /// A search that begins.
    pub fn new(hinted: bool) -> (r: Search)
        ensures
            r.wf(),
            r.hinted == hinted,
            r.scans == 0,
    {
        Search { hinted, scans: 0 }
    }

    /// The addresses that are left out: none where a certain device is looked for.
    pub fn avoid(&self, list: &mut AvoidList, now_ms: u64) -> (r: Vec<String>)
        ensures
            if self.hinted {
                r@.len() == 0 && *final(list) == *old(list)
            } else {
                final(list).model() == fresh(old(list).model(), now_ms, None) && views(r@)
                    == addresses(final(list).model())
            },
    {
        if self.hinted {
            Vec::new()
        } else {
            list.avoided(now_ms)
        }
    }

    /// Begins a scan.
    pub fn begin_scan(&mut self)
        requires
            old(self).wf(),
            old(self).scans <= MISPICK_EXTRA_TRIES,
        ensures
            final(self).wf(),
            final(self).scans == old(self).scans + 1,
            final(self).hinted == old(self).hinted,
    {
        self.scans = self.scans + 1;
    }

    /// `r` is what comes after a connect, and `new` the list of devices to avoid then.
    pub open spec fn is_ended(
        self,
        result: Result<(), PrintError>,
        address: Seq<char>,
        old: AvoidList,
        new: AvoidList,
        now_ms: u64,
        r: SearchStep,
    ) -> bool {
        match result {
            Ok(_) => r == SearchStep::Open && new == old,
            Err(PrintError::NotCatPrinter(why)) => if self.hinted {
                r == SearchStep::Fail(PrintError::NotCatPrinter(why)) && new == old
            } else {
                &&& new.model() == fresh(old.model(), now_ms, Some(upper(address))).push(
                    (upper(address), now_ms),
                )
                &&& r == if self.scans <= MISPICK_EXTRA_TRIES {
                    SearchStep::Scan
                } else {
                    SearchStep::Fail(PrintError::NotFound)
                }
            },
            Err(e) => r == SearchStep::Fail(e) && new == old,
        }
    }

    /// A connect ended.
    pub fn connect_ended(
        &self,
        result: Result<(), PrintError>,
        address: &str,
        list: &mut AvoidList,
        now_ms: u64,
    ) -> (r: SearchStep)
        requires
            self.wf(),
        ensures
            self.is_ended(result, address@, *old(list), *final(list), now_ms, r),
    {
        match result {
            Ok(_) => SearchStep::Open,
            Err(PrintError::NotCatPrinter(why)) => {
                if self.hinted {
                    return SearchStep::Fail(PrintError::NotCatPrinter(why));
                }
                list.note(address, now_ms);
                if self.scans <= MISPICK_EXTRA_TRIES {
                    SearchStep::Scan
                } else {
                    SearchStep::Fail(PrintError::NotFound)
                }
            },
            Err(e) => SearchStep::Fail(e),
        }
    }
}

/// What a search reports.
pub fn search_progress(phase: Phase, message: &'static str) -> (r: Progress)
    ensures
        r.phase == phase,
        r.percent == 0,
        r.message@ == message@,
{
    Progress { phase, percent: 0, message: owned(message) }
}

// ------------------------------------------------------------------ printing

/// Packs a job for a connected printer; `None` where its strip cannot be packed (see `can_pack`). Only the
/// MXW01 protocol has a minimum of lines per request; padding a classic print would only burn paper.
pub fn pack_for<
    F: Fn(&[u8], usize, usize) -> Vec<bool>,
    C: Fn(&[u8], Preset) -> Vec<u8>,
    S: Fn(&[u8], usize, usize) -> Vec<u8>,
>(
    job: &PreparedJob,
    caps: Caps,
    family: Family,
    floyd_steinberg: F,
    curve: C,
    serpentine: S,
) -> (r: Option<Result<Packed, PrintError>>)
    requires
        kernels_ok(floyd_steinberg, curve, serpentine),
    ensures
        ({
            let pad = family == Family::Mxw01;
            match r {
                Some(Ok(p)) => {
                    &&& can_pack(job.strip, job.opts, caps.width_px, pad)
                    &&& pack_error(job.strip, caps.width_px) is None
                    &&& is_pack_of(
                        job.strip,
                        job.opts,
                        spec_mode_for(job.opts.tone, caps.grayscale_4bpp),
                        caps.width_px,
                        pad,
                        floyd_steinberg,
                        curve,
                        serpentine,
                        p,
                    )
                },
                Some(Err(e)) => e matches PrintError::Render(x) && pack_error(
                    job.strip,
                    caps.width_px,
                ) == Some(x@),
                None => !can_pack(job.strip, job.opts, caps.width_px, pad),
            }
        }),
{
    let pad = family == Family::Mxw01;
    let mode = mode_for(job.opts.tone, caps.grayscale_4bpp);
    if !is_packable(&job.strip, &job.opts, caps.width_px, pad) {
        return None;
    }
    match pack_padded(
        &job.strip,
        &job.opts,
        mode,
        caps.width_px,
        pad,
        floyd_steinberg,
        curve,
        serpentine,
    ) {
        Ok(p) => Some(Ok(p)),
        Err(e) => Some(Err(PrintError::Render(e))),
    }
}

/// How often the head is asked whether it is at rest.
pub const REST_POLLS: u32 = 40;

/// The pause between two questions.
pub const REST_PAUSE_MS: u64 = 500;

/// The wait for the head to come to rest between two copies.
#[derive(Debug, Clone, Copy)]
pub struct Rest {
    pub polls: u32,
}

/// What comes next in the wait.
#[derive(Debug)]
pub enum RestStep {
    /// Ask for the status.
    Ask,
    /// Pause before the next question.
    Pause { ms: u64 },
    /// The head is at rest.
    AtRest,
    Failed(PrintError),
}

impl Rest {
    pub fn new() -> (r: Rest)
        ensures
            r.polls == 0,
    {
        Rest { polls: 0 }
    }

    /// `r` is what comes next, before a question.
    pub open spec fn is_next(self, cancelled: bool, r: RestStep) -> bool {
        if self.polls >= REST_POLLS {
            r matches RestStep::Failed(PrintError::Timeout(t)) && t@ == "waiting for the previous copy"@
        } else if cancelled {
            r matches RestStep::Failed(PrintError::Cancelled)
        } else {
            r is Ask
        }
    }

    /// `r` is what comes of the answer to a question.
    pub open spec fn is_answer(c: Condition, r: RestStep) -> bool {
        if !c.ok {
            r == RestStep::Failed(PrintError::Condition(c))
        } else if c.state@ == "standby"@ {
            r is AtRest
        } else {
            r == (RestStep::Pause { ms: REST_PAUSE_MS })
        }
    }

    /// What comes next, before a question.
    pub fn next(&self, cancelled: bool) -> (r: RestStep)
        ensures
            self.is_next(cancelled, r),
    {
        if self.polls >= REST_POLLS {
            RestStep::Failed(PrintError::Timeout("waiting for the previous copy"))
        } else if cancelled {
            RestStep::Failed(PrintError::Cancelled)
        } else {
            RestStep::Ask
        }
    }

    /// Takes the answer to a question.
    pub fn answered(&mut self, c: Condition) -> (r: RestStep)
        requires
            old(self).polls < REST_POLLS,
        ensures
            final(self).polls == old(self).polls + 1,
            Rest::is_answer(c, r),
    {
        self.polls = self.polls + 1;
        if !c.ok {
            RestStep::Failed(PrintError::Condition(c))
        } else if same_str(c.state.as_str(), "standby") {
            RestStep::AtRest
        } else {
            RestStep::Pause { ms: REST_PAUSE_MS }
        }
    }
}

/// The copies of a job on their way.
#[derive(Debug)]
pub struct Copies {
    pub copy: u32,
    pub copies: u32,
    pub confirmed: bool,
    pub battery: Option<u8>,
}

/// What comes next.
#[derive(Debug)]
pub enum CopyStep {
    /// All copies are printed.
    Finished,
    Cancelled,
    /// Print a copy: let the head come to rest first, where it is said, and report progress.
    Print { rest_first: bool, progress: Option<Progress> },
}

/// `p` is what is reported before a copy; nothing where there is one only.
pub open spec fn is_copy_progress(p: Option<Progress>, copy: u32, copies: u32) -> bool {
    if copies > 1 {
        p matches Some(x) && x.phase == Phase::Printing && x.percent == copy * 100 / copies as int
            && x.message@ == "Copy "@ + dec((copy + 1) as nat) + "/"@ + dec(copies as nat)
    } else {
        p is None
    }
}

impl Copies {
    /// Not more copies than there are.
    pub open spec fn wf(self) -> bool {
        self.copy <= self.copies && self.copies >= 1
    }

    /// The first copy; there is at least one.
    pub fn new(copies: u32) -> (r: Copies)
        ensures
            r.wf(),
            r.copy == 0,
            r.copies == if copies < 1 {
                1
            } else {
                copies
            },
            r.confirmed,
            r.battery is None,
    {
        Copies {
            copy: 0,
            copies: if copies < 1 {
                1
            } else {
                copies
            },
            confirmed: true,
            battery: None,
        }
    }

    /// `r` is what comes next. The head of an MXW01 must have finished a copy before the next begins.
    pub open spec fn is_next(self, cancelled: bool, family: Family, r: CopyStep) -> bool {
        if self.copy == self.copies {
            r is Finished
        } else if cancelled {
            r is Cancelled
        } else {
            r matches CopyStep::Print { rest_first, progress } && rest_first == (self.copy > 0 && family
                == Family::Mxw01) && is_copy_progress(progress, self.copy, self.copies)
        }
    }

    /// The copies after one was printed.
    pub open spec fn after(self, confirmed: bool, battery: Option<u8>) -> Copies {
        Copies {
            copy: (self.copy + 1) as u32,
            confirmed: self.confirmed && confirmed,
            battery: if battery is Some {
                battery
            } else {
                self.battery
            },
            ..self
        }
    }

    /// What comes next. The head of an MXW01 must have finished a copy before the next begins.
    pub fn next(&self, cancelled: bool, family: Family) -> (r: CopyStep)
        requires
            self.wf(),
        ensures
            self.is_next(cancelled, family, r),
    {
        if self.copy == self.copies {
            return CopyStep::Finished;
        }
        if cancelled {
            return CopyStep::Cancelled;
        }
        let progress = if self.copies > 1 {
            let mut m = owned("Copy ");
            push_dec(&mut m, self.copy as u64 + 1);
            m.push_str("/");
            push_dec(&mut m, self.copies as u64);
            let pct: u64 = self.copy as u64 * 100 / self.copies as u64;
            assert(pct < 100) by (nonlinear_arith)
                requires
                    pct == self.copy * 100 / self.copies as int,
                    self.copy < self.copies,
            ;
            Some(Progress { phase: Phase::Printing, percent: pct as u8, message: m })
        } else {
            None
        };
        CopyStep::Print { rest_first: self.copy > 0 && family == Family::Mxw01, progress }
    }

    /// A copy was printed: confirmed or not, with what it said of the battery.
    pub fn printed(&mut self, confirmed: bool, battery: Option<u8>)
        requires
            old(self).wf(),
            old(self).copy < old(self).copies,
        ensures
            final(self).wf(),
            *final(self) == old(self).after(confirmed, battery),
    {
        self.copy = self.copy + 1;
        self.confirmed = self.confirmed && confirmed;
        if battery.is_some() {
            self.battery = battery;
        }
    }

    /// The report of a job.
    pub fn report(
        &self,
        model: String,
        family: Family,
        mtu: u16,
        packed: &Packed,
        elapsed_ms: u64,
    ) -> (r: PrintReport)
        requires
            packed.segments@.len() <= u32::MAX,
        ensures
            r == (PrintReport {
                model,
                family: Some(family),
                lines: packed.lines,
                segments: packed.segments@.len() as u32,
                copies: self.copies,
                complete_confirmed: self.confirmed,
                mtu: Some(mtu),
                battery: self.battery,
                elapsed_ms,
            }),
    {
        assert(packed.segments@.len() == packed.segments.len());
        PrintReport {
            model,
            family: Some(family),
            lines: packed.lines,
            segments: packed.segments.len() as u32,
            copies: self.copies,
            complete_confirmed: self.confirmed,
            mtu: Some(mtu),
            battery: self.battery,
            elapsed_ms,
        }
    }
}

// ------------------------------------------------------------------ health

/// What is known of Bluetooth on the health page.
#[derive(Debug)]
pub enum Probe {
    /// The bus cannot be reached.
    NoBus,
    /// An adapter that can be used.
    Adapter(AdapterInfo),
    /// No adapter is powered; the first one, where there is one.
    Off { path: Option<String> },
    /// There is no answer, or no such adapter.
    NoAdapter,
}

/// `p` is what a snapshot of the object tree says of Bluetooth.
pub open spec fn is_probe(p: Probe, o: Objects, want: Option<Seq<char>>) -> bool {
    exists|r: Result<AdapterInfo, PrintError>| #[trigger]
        is_chosen(r, o, want) && match r {
            Ok(a) => p == Probe::Adapter(a),
            Err(PrintError::AdapterOff) => p matches Probe::Off { path } && match path {
                Some(x) => adapters_in(o).len() > 0 && x@ == adapters_in(o)[0].path,
                None => adapters_in(o).len() == 0,
            },
            Err(_) => p is NoAdapter,
        }
}

/// What is known of Bluetooth, from a snapshot of the object tree where there is one.
pub fn probe(objs: Option<&Objects>, want: Option<&str>) -> (r: Probe)
    ensures
        match objs {
            Some(o) => is_probe(r, *o, opt_text(want)),
            None => r is NoAdapter,
        },
{
    match objs {
        None => Probe::NoAdapter,
        Some(o) => {
            let c = choose_adapter(o, want);
            assert(is_chosen(c, *o, opt_text(want)));
            match c {
                Ok(a) => Probe::Adapter(a),
                Err(PrintError::AdapterOff) => {
                    let all = adapters_from(o);
                    assert(crate::ble::discovery::adapter_views(all@).len() == all@.len());
                    if all.len() > 0 {
                        assert(crate::ble::discovery::adapter_views(all@)[0] == all@[0].model());
                        Probe::Off { path: Some(owned(all[0].path.as_str())) }
                    } else {
                        Probe::Off { path: None }
                    }
                },
                Err(_) => Probe::NoAdapter,
            }
        },
    }
}

} // verus!
