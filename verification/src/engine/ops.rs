//! What clients and the clock do to the store.

use std::collections::BTreeMap;

use vstd::prelude::*;

use crate::engine::ids::ascending;
use crate::engine::store::{
    forgotten, is_ended, is_finished, is_mine, is_open, is_stale, jobs_ok, jobs_where, kept,
    lemma_select, order_ok, reasons_ok, select, thinned, Store,
};
use crate::engine::{
    no_words, spec_state_name, spec_uptime, state_name, str_views, two_words, uptime, word,
    CancelOutcome, DocFormat, EngineConfig, Health, Job, JobState, LastJob, Now, PrinterState,
    PrinterView, SubmitError, KEEP_TERMINAL,
};
use crate::ipp::options::JobOptions;
use crate::text::{owned, same_str};

verus! {

broadcast use vstd::std_specs::btree::group_btree_axioms;

// ------------------------------------------------------------------ several ends

/// What ending the jobs at `ids` does: the open ones among them get their end, the others keep what
/// they have but for a preview; only jobs that are over are forgotten.
pub open spec fn is_end_of_all(
    old: Map<u32, Job>,
    new: Map<u32, Job>,
    ids: Seq<u32>,
    state: JobState,
    reasons: Seq<Seq<char>>,
    message: Seq<char>,
    up: u32,
) -> bool {
    &&& forall|id: u32| #[trigger]
        new.contains_key(id) ==> old.contains_key(id) && if ids.contains(id)
            && !old[id].state.terminal() {
            is_ended(
                Job { preview: new[id].preview, ..old[id] },
                new[id],
                state,
                reasons,
                message,
                up,
            )
        } else {
            new[id] == (Job { preview: new[id].preview, ..old[id] })
        }
    &&& forall|id: u32| #[trigger]
        old.contains_key(id) && !new.contains_key(id) ==> old[id].state.terminal() || ids.contains(
            id,
        )
}

/// The jobs at `ids` were ended one after the other.
pub open spec fn ends_in_turn(
    old: Store,
    new: Store,
    ids: Seq<u32>,
    state: JobState,
    reasons: Seq<Seq<char>>,
    message: Seq<char>,
    up: u32,
) -> bool
    decreases ids.len(),
{
    if ids.len() == 0 {
        new == old
    } else {
        exists|mid: Store| #[trigger]
            is_finished(mid, new, ids.last(), state, reasons, message, up) && ends_in_turn(
                old,
                mid,
                ids.drop_last(),
                state,
                reasons,
                message,
                up,
            )
    }
}

/// The number of jobs that are forgotten where the jobs at `order` are over.
pub open spec fn surplus(order: Seq<u32>) -> int {
    if order.len() > KEEP_TERMINAL {
        order.len() - KEEP_TERMINAL
    } else {
        0
    }
}

/// With the jobs at `over` the latest of those that are over are kept, in the order in which they came to
/// their end; the ones before them are forgotten, and no other job is.
pub open spec fn keeps_latest(old: Store, new: Store, over: Seq<u32>) -> bool {
    let order = old.terminal_order@ + over;
    &&& new.terminal_order@ == order.skip(surplus(order))
    &&& forall|id: u32| #[trigger]
        new.jobs@.contains_key(id) <==> old.jobs@.contains_key(id) && !order.take(
            surplus(order),
        ).contains(id)
}

proof fn lemma_keeps_latest(
    old: Store,
    mid: Store,
    new: Store,
    over: Seq<u32>,
    id: u32,
    state: JobState,
    reasons: Seq<Seq<char>>,
    message: Seq<char>,
    up: u32,
)
    requires
        keeps_latest(old, mid, over),
        is_open_at(mid, id),
        is_finished(mid, new, id, state, reasons, message, up),
    ensures
        keeps_latest(old, new, over.push(id)),
{
    let m = mid.jobs@;
    let a = old.terminal_order@ + over;
    let b = old.terminal_order@ + over.push(id);
    let order = mid.terminal_order@.push(id);
    let j = choose|j: Job|
        {
            &&& is_ended(m[id], j, state, reasons, message, up)
            &&& new.jobs@ == thinned(forgotten(#[trigger] m.insert(id, j), order))
            &&& new.terminal_order@ == kept(order)
        };
    assert(new.jobs@ == thinned(forgotten(m.insert(id, j), order)));
    assert(b =~= a.push(id));
    assert(order =~= b.skip(surplus(a)));
    assert(new.terminal_order@ =~= b.skip(surplus(b)));
    if order.len() > KEEP_TERMINAL {
        assert(surplus(b) == surplus(a) + 1);
        assert(order[0] == b[surplus(a)]);
        assert(b.take(surplus(b)) =~= a.take(surplus(a)).push(order[0]));
    } else {
        assert(surplus(b) == 0 && surplus(a) == 0);
    }
    assert forall|x: u32| #[trigger] new.jobs@.contains_key(x) <==> old.jobs@.contains_key(x)
        && !b.take(surplus(b)).contains(x) by {
        let (f, g) = (a.take(surplus(a)), b.take(surplus(b)));
        assert(m.contains_key(x) <==> old.jobs@.contains_key(x) && !f.contains(x));
        if order.len() > KEEP_TERMINAL {
            assert(g.contains(x) <==> f.contains(x) || x == order[0]) by {
                if f.contains(x) {
                    let l = choose|l: int| 0 <= l < f.len() && f[l] == x;
                    assert(g[l] == x);
                }
                if x == order[0] {
                    assert(g[f.len() as int] == x);
                }
                if g.contains(x) {
                    let l = choose|l: int| 0 <= l < g.len() && g[l] == x;
                    if l < f.len() {
                        assert(f[l] == x);
                    }
                }
            }
        } else {
            assert(f =~= g);
        }
    }
}

proof fn lemma_finish_effect(
    old: Store,
    new: Store,
    id: u32,
    state: JobState,
    reasons: Seq<Seq<char>>,
    message: Seq<char>,
    up: u32,
)
    requires
        old.wf(),
        is_finished(old, new, id, state, reasons, message, up),
    ensures
        is_end_of_all(old.jobs@, new.jobs@, seq![id], state, reasons, message, up),
{
    let m = old.jobs@;
    let n = new.jobs@;
    assert(seq![id].contains(id)) by {
        assert(seq![id][0] == id);
    }
    if m.contains_key(id) && !m[id].state.terminal() {
        let order = old.terminal_order@.push(id);
        let j = choose|j: Job|
            {
                &&& is_ended(m[id], j, state, reasons, message, up)
                &&& n == thinned(forgotten(#[trigger] m.insert(id, j), order))
                &&& new.terminal_order@ == kept(order)
            };
        assert(n == thinned(forgotten(m.insert(id, j), order)));
        assert forall|x: u32| m.contains_key(x) && !#[trigger] n.contains_key(x) implies (
        m[x].state.terminal() || seq![id].contains(x)) by {
            assert(x == order[0]);
            if x != id {
                assert(old.terminal_order@[0] == x);
                assert(old.terminal_order@.contains(x));
            }
        }
        assert forall|x: u32| #[trigger] m.contains_key(x) && !n.contains_key(x) implies (
        m[x].state.terminal() || seq![id].contains(x)) by {}
    }
}

proof fn lemma_effect_compose(
    a: Map<u32, Job>,
    b: Map<u32, Job>,
    c: Map<u32, Job>,
    ids: Seq<u32>,
    id: u32,
    state: JobState,
    reasons: Seq<Seq<char>>,
    message: Seq<char>,
    up: u32,
)
    requires
        state.terminal(),
        is_end_of_all(a, b, ids, state, reasons, message, up),
        is_end_of_all(b, c, seq![id], state, reasons, message, up),
    ensures
        is_end_of_all(a, c, ids.push(id), state, reasons, message, up),
{
    let p = ids.push(id);
    assert forall|x: u32| #[trigger] p.contains(x) <==> ids.contains(x) || x == id by {
        if ids.contains(x) {
            let l = choose|l: int| 0 <= l < ids.len() && ids[l] == x;
            assert(p[l] == x);
        }
        if x == id {
            assert(p[ids.len() as int] == x);
        }
        if p.contains(x) {
            let l = choose|l: int| 0 <= l < p.len() && p[l] == x;
            if l < ids.len() {
                assert(ids[l] == x);
            }
        }
    }
    assert forall|x: u32| #[trigger] seq![id].contains(x) <==> x == id by {
        if x == id {
            assert(seq![id][0] == x);
        }
    }
    assert forall|x: u32| #[trigger] c.contains_key(x) implies a.contains_key(x) && if p.contains(x)
        && !a[x].state.terminal() {
        is_ended(Job { preview: c[x].preview, ..a[x] }, c[x], state, reasons, message, up)
    } else {
        c[x] == (Job { preview: c[x].preview, ..a[x] })
    } by {
        assert(b.contains_key(x));
        assert(a.contains_key(x));
    }
    assert forall|x: u32| #[trigger] a.contains_key(x) && !c.contains_key(x) implies (
    a[x].state.terminal() || p.contains(x)) by {
        if b.contains_key(x) {
            assert(b[x].state.terminal() || x == id);
        }
    }
}

proof fn lemma_nothing_over(s: Store)
    requires
        s.wf(),
    ensures
        keeps_latest(s, s, Seq::empty()),
{
    let order = s.terminal_order@ + Seq::<u32>::empty();
    assert(order =~= s.terminal_order@);
    assert(order.skip(0) =~= order);
    assert(order.take(0) =~= Seq::<u32>::empty());
}

impl Store {
    /// Ends the jobs at `ids` with one reason.
    fn finish_all(
        &mut self,
        ids: &Vec<u32>,
        state: JobState,
        reason: &'static str,
        message: &str,
        now: Now,
    )
        requires
            old(self).wf(),
            state.terminal(),
            reasons_ok(state, seq![reason@]),
            ascending(ids@),
            forall|k: int| 0 <= k < ids@.len() ==> is_open_at(*old(self), #[trigger] ids@[k]),
        ensures
            final(self).wf(),
            ends_in_turn(
                *old(self),
                *final(self),
                ids@,
                state,
                seq![reason@],
                message@,
                spec_uptime(now),
            ),
            keeps_latest(*old(self), *final(self), ids@),
            is_end_of_all(
                old(self).jobs@,
                final(self).jobs@,
                ids@,
                state,
                seq![reason@],
                message@,
                spec_uptime(now),
            ),
            *final(self) == (Store {
                jobs: final(self).jobs,
                terminal_order: final(self).terminal_order,
                ..*old(self)
            }),
    {
        let ghost m = self.jobs@;
        let ghost up = spec_uptime(now);
        let ghost rs = seq![reason@];
        let mut i: usize = 0;
        assert(ids@.take(0) =~= Seq::<u32>::empty());
        proof {
            lemma_nothing_over(*self);
        }
        while i < ids.len()
            invariant
                i <= ids.len(),
                self.wf(),
                state.terminal(),
                m == old(self).jobs@,
                ascending(ids@),
                forall|k: int| 0 <= k < ids@.len() ==> is_open_at(*old(self), #[trigger] ids@[k]),
                ends_in_turn(*old(self), *self, ids@.take(i as int), state, rs, message@, up),
                keeps_latest(*old(self), *self, ids@.take(i as int)),
                rs == seq![reason@],
                up == spec_uptime(now),
                reasons_ok(state, rs),
                is_end_of_all(m, self.jobs@, ids@.take(i as int), state, rs, message@, up),
                *self == (Store {
                    jobs: self.jobs,
                    terminal_order: self.terminal_order,
                    ..*old(self)
                }),
            decreases ids.len() - i,
        {
            let ghost before = *self;
            let id: u32 = ids[i];
            let ghost done = ids@.take(i as int);
            assert(is_open_at(before, id)) by {
                assert(is_open_at(*old(self), ids@[i as int]));
                if done.contains(id) {
                    let l = choose|l: int| 0 <= l < done.len() && done[l] == id;
                    assert(ids@[l] < ids@[i as int]);
                }
                assert(m.contains_key(id));
                assert(before.jobs@.contains_key(id));
            }
            self.finish(id, state, word(reason), owned(message), now);
            proof {
                let next = ids@.take(i as int + 1);
                assert(next.drop_last() =~= done);
                assert(next.last() == id);
                assert(is_finished(before, *self, next.last(), state, rs, message@, up));
                assert(done.push(id) =~= next);
                lemma_keeps_latest(*old(self), before, *self, done, id, state, rs, message@, up);
                lemma_finish_effect(before, *self, id, state, rs, message@, up);
                lemma_effect_compose(
                    m,
                    before.jobs@,
                    self.jobs@,
                    ids@.take(i as int),
                    id,
                    state,
                    rs,
                    message@,
                    up,
                );
                assert(ids@.take(i as int).push(id) =~= ids@.take(i as int + 1));
            }
            i += 1;
        }
        assert(ids@.take(ids@.len() as int) =~= ids@);
    }

    // -------------------------------------------------------------- creating

    /// An empty store.
    pub fn new(cfg: EngineConfig, next_id: u32, unix: i64) -> (r: Store)
        ensures
            r.wf(),
            r.jobs@ == Map::<u32, Job>::empty(),
            r.next_id == next_id,
            r.cfg == cfg,
            r.jobs_total == 0,
            r.view.shows(PrinterState::Idle, Seq::empty(), Seq::empty()),
            r.view.accepting,
            r.view.current is None,
            r.view.battery is None,
            r.view.last_model is None,
            r.view.sticky_since is None,
            str_views(r.view.sticky_reasons@) == Seq::<Seq<char>>::empty(),
            r.view.state_changed_uptime == 1,
            r.view.state_changed_at == unix,
            r.config_changed_uptime == 1,
            r.identify_requests == 0,
            !r.identify_pending,
    {
        let s = Store {
            jobs: BTreeMap::new(),
            next_id,
            terminal_order: Vec::new(),
            view: PrinterView {
                state: PrinterState::Idle,
                reasons: no_words(),
                message: String::new(),
                state_changed_uptime: 1,
                state_changed_at: unix,
                accepting: true,
                current: None,
                battery: None,
                last_model: None,
                sticky_reasons: no_words(),
                sticky_since: None,
            },
            cfg,
            jobs_total: 0,
            config_changed_uptime: 1,
            identify_requests: 0,
            identify_pending: false,
        };
        assert(s.terminal_order@.no_duplicates());
        s
    }
}

/// Why a document is not accepted.
pub open spec fn doc_error(doc: Seq<u8>, max: usize) -> Option<SubmitError> {
    if doc.len() > max {
        Some(SubmitError::TooLarge(doc.len() as usize))
    } else if doc.len() == 0 {
        Some(SubmitError::Empty)
    } else if DocFormat::of(doc) == DocFormat::Unknown {
        Some(SubmitError::BadFormat)
    } else {
        None
    }
}

/// The kind of a document, or why it is not accepted.
pub fn validate_doc(doc: &Vec<u8>, max: usize) -> (r: Result<DocFormat, SubmitError>)
    ensures
        match r {
            Ok(f) => doc_error(doc@, max) is None && f == DocFormat::of(doc@),
            Err(e) => doc_error(doc@, max) == Some(e),
        },
{
    if doc.len() > max {
        return Err(SubmitError::TooLarge(doc.len()));
    }
    if doc.len() == 0 {
        return Err(SubmitError::Empty);
    }
    match DocFormat::sniff(doc.as_slice()) {
        DocFormat::Unknown => Err(SubmitError::BadFormat),
        f => Ok(f),
    }
}

/// A size in units of 1024 bytes, rounded up, in 32 bits.
pub open spec fn k_octets_of(len: nat) -> int {
    ((len + 1023) / 1024) as int % 0x1_0000_0000
}

fn k_octets(len: usize) -> (r: u32)
    ensures
        r == k_octets_of(len as nat),
{
    let k: u64 = len as u64 / 1024 + if len % 1024 == 0 {
        0
    } else {
        1
    };
    assert(k == (len + 1023) / 1024);
    (k % 0x1_0000_0000) as u32
}

/// The view of an optional document.
pub open spec fn doc_view(doc: Option<Vec<u8>>) -> Option<Seq<u8>> {
    match doc {
        Some(d) => Some(d@),
        None => None,
    }
}

/// Why a job cannot be created, in the order in which it is found out.
pub open spec fn create_error(s: Store, doc: Option<Seq<u8>>) -> Option<SubmitError> {
    if doc is Some && doc_error(doc->0, s.cfg.max_document_bytes) is Some {
        doc_error(doc->0, s.cfg.max_document_bytes)
    } else if !s.view.accepting {
        Some(SubmitError::NotAccepting)
    } else if s.queued() >= s.cfg.queue_max {
        Some(SubmitError::Busy(s.queued() as usize))
    } else {
        None
    }
}

/// `j` is a new job.
pub open spec fn is_new_job(
    j: Job,
    id: u32,
    opts: JobOptions,
    doc: Option<Vec<u8>>,
    now: Now,
) -> bool {
    &&& j.id == id
    &&& j.opts == opts
    &&& j.doc == doc
    &&& j.format == match doc {
        Some(d) => DocFormat::of(d@),
        None => DocFormat::Unknown,
    }
    &&& j.k_octets == match doc {
        Some(d) => k_octets_of(d@.len()),
        None => 0,
    }
    &&& j.state == JobState::Pending
    &&& str_views(j.reasons@) == seq!["job-incoming"@]
    &&& j.message@ == Seq::<char>::empty()
    &&& j.created == now.unix
    &&& j.created_uptime == spec_uptime(now)
    &&& j.processing_uptime is None
    &&& j.completed_uptime is None
    &&& j.impressions == 0
    &&& j.impressions_completed == 0
    &&& !j.cancel
    &&& j.preview is None
    &&& j.awaiting_document == (doc is None)
    &&& j.last_activity_ms == now.ms
    &&& j.model is None
}

/// The reasons that the store gives are in order.
pub proof fn lemma_reasons()
    ensures
        reasons_ok(JobState::Pending, seq!["job-incoming"@]),
        reasons_ok(JobState::Pending, seq!["job-queued"@]),
        reasons_ok(JobState::Processing, seq!["job-queued"@]),
        reasons_ok(JobState::Processing, seq!["job-printing"@]),
        reasons_ok(
            JobState::Processing,
            seq!["processing-to-stop-point"@, "job-canceled-by-user"@],
        ),
        reasons_ok(JobState::Aborted, seq!["job-completed-with-errors"@]),
        reasons_ok(JobState::Aborted, seq!["document-format-error"@]),
        reasons_ok(JobState::Aborted, seq!["service-off-line"@]),
        reasons_ok(JobState::Canceled, seq!["job-canceled-by-user"@]),
        reasons_ok(JobState::Completed, seq!["job-completed-successfully"@]),
{
    reveal_strlit("aborted-by-system");
    reveal_strlit("job-incoming");
    reveal_strlit("job-queued");
    reveal_strlit("job-printing");
    reveal_strlit("processing-to-stop-point");
    reveal_strlit("job-canceled-by-user");
    reveal_strlit("job-completed-with-errors");
    reveal_strlit("document-format-error");
    reveal_strlit("service-off-line");
    reveal_strlit("job-completed-successfully");
    assert("job-completed-with-errors"@.len() == 25);
    assert("document-format-error"@.len() == 21);
    assert("service-off-line"@.len() == 16);
    assert("job-canceled-by-user"@.len() == 20);
    assert("aborted-by-system"@.len() == 17);
}

/// Changing an open job into an open job keeps the store in order.
pub proof fn lemma_update_wf(m: Map<u32, Job>, order: Seq<u32>, next_id: u32, id: u32, j: Job)
    requires
        jobs_ok(m, next_id),
        order_ok(order, m),
        id < next_id,
        m.contains_key(id) ==> !m[id].state.terminal(),
        j.id == id,
        !j.state.terminal(),
        reasons_ok(j.state, str_views(j.reasons@)),
    ensures
        jobs_ok(m.insert(id, j), next_id),
        order_ok(order, m.insert(id, j)),
{
    assert forall|x: u32| #[trigger] order.contains(x) <==> m.insert(id, j).contains_key(x)
        && m.insert(id, j)[x].state.terminal() by {
        assert(order.contains(x) <==> m.contains_key(x) && m[x].state.terminal());
    }
}

/// Changing what a job says of itself, but for its state and reasons, keeps the store in order.
pub proof fn lemma_note_wf(m: Map<u32, Job>, order: Seq<u32>, next_id: u32, id: u32, j: Job)
    requires
        jobs_ok(m, next_id),
        order_ok(order, m),
        m.contains_key(id),
        j.id == id,
        j.state == m[id].state,
        j.reasons == m[id].reasons,
    ensures
        jobs_ok(m.insert(id, j), next_id),
        order_ok(order, m.insert(id, j)),
{
    assert forall|x: u32| #[trigger] order.contains(x) <==> m.insert(id, j).contains_key(x)
        && m.insert(id, j)[x].state.terminal() by {
        assert(order.contains(x) <==> m.contains_key(x) && m[x].state.terminal());
    }
}

impl Store {
    /// Print-Job (with a document) or Create-Job (without). Gives the job's id.
    pub fn create_job(&mut self, opts: JobOptions, doc: Option<Vec<u8>>, now: Now) -> (r: Result<
        u32,
        SubmitError,
    >)
        requires
            old(self).wf(),
            old(self).next_id < u32::MAX,
            old(self).jobs_total < u64::MAX,
        ensures
            final(self).wf(),
            match r {
                Err(e) => create_error(*old(self), doc_view(doc)) == Some(e) && *final(self)
                    == *old(self),
                Ok(id) => {
                    &&& create_error(*old(self), doc_view(doc)) is None
                    &&& id == old(self).next_id
                    &&& !old(self).jobs@.contains_key(id)
                    &&& exists|j: Job| #[trigger]
                        is_new_job(j, id, opts, doc, now) && final(self).jobs@
                            == old(self).jobs@.insert(id, j)
                    &&& *final(self) == (Store {
                        jobs: final(self).jobs,
                        next_id: (id + 1) as u32,
                        jobs_total: (old(self).jobs_total + 1) as u64,
                        ..*old(self)
                    })
                },
            },
    {
        let format = match &doc {
            Some(d) => match validate_doc(d, self.cfg.max_document_bytes) {
                Ok(f) => f,
                Err(e) => return Err(e),
            },
            None => DocFormat::Unknown,
        };
        let awaiting = doc.is_none();
        if !self.view.accepting {
            return Err(SubmitError::NotAccepting);
        }
        let queued: usize = self.queued_count() as usize;
        if queued >= self.cfg.queue_max {
            return Err(SubmitError::Busy(queued));
        }
        let id: u32 = self.next_id;
        let octets: u32 = match &doc {
            Some(d) => k_octets(d.len()),
            None => 0,
        };
        let j = Job {
            id,
            opts,
            doc,
            format,
            k_octets: octets,
            state: JobState::Pending,
            reasons: word("job-incoming"),
            message: String::new(),
            created: now.unix,
            created_uptime: uptime(now),
            processing_uptime: None,
            completed_uptime: None,
            impressions: 0,
            impressions_completed: 0,
            cancel: false,
            preview: None,
            awaiting_document: awaiting,
            last_activity_ms: now.ms,
            model: None,
        };
        assert(is_new_job(j, id, opts, doc, now));
        proof {
            lemma_reasons();
            assert(!self.jobs@.contains_key(id));
            lemma_widen(self.jobs@, self.next_id);
            lemma_update_wf(
                self.jobs@,
                self.terminal_order@,
                (self.next_id + 1) as u32,
                id,
                j,
            );
        }
        self.next_id = id + 1;
        self.jobs_total = self.jobs_total + 1;
        self.jobs.insert(id, j);
        Ok(id)
    }
}

proof fn lemma_widen(m: Map<u32, Job>, next_id: u32)
    requires
        jobs_ok(m, next_id),
        next_id < u32::MAX,
    ensures
        jobs_ok(m, (next_id + 1) as u32),
{
}

// ------------------------------------------------------------------ documents

/// `new` is `old` with one job changed.
pub open spec fn is_update(old: Store, new: Store, id: u32, j: Job) -> bool {
    &&& new == (Store { jobs: new.jobs, ..old })
    &&& new.jobs@ == old.jobs@.insert(id, j)
}

/// There is an open job under this id.
pub open spec fn is_open_at(s: Store, id: u32) -> bool {
    s.jobs@.contains_key(id) && !s.jobs@[id].state.terminal()
}

impl Store {
    /// A client does something for this job: keeps the timer for silent clients from firing.
    pub fn touch(&mut self, id: u32, now: Now)
        requires
            old(self).wf(),
        ensures
            final(self).wf(),
            if is_open_at(*old(self), id) {
                is_update(
                    *old(self),
                    *final(self),
                    id,
                    Job { last_activity_ms: now.ms, ..old(self).jobs@[id] },
                )
            } else {
                *final(self) == *old(self)
            },
    {
        match self.jobs.get(&id) {
            Some(j) => {
                if j.state.is_terminal() {
                    return;
                }
            },
            None => return,
        }
        let ghost m = self.jobs@;
        if let Some(j) = self.jobs.remove(&id) {
            let mut j = j;
            j.last_activity_ms = now.ms;
            proof {
                lemma_update_wf(m, self.terminal_order@, self.next_id, id, j);
            }
            self.jobs.insert(id, j);
            assert(self.jobs@ =~= m.insert(id, j));
        }
    }

    /// Why a document cannot be added to a job.
    pub open spec fn add_error(self, id: u32, doc: Seq<u8>) -> Option<SubmitError> {
        if doc_error(doc, self.cfg.max_document_bytes) is Some {
            doc_error(doc, self.cfg.max_document_bytes)
        } else if !is_open_at(self, id) {
            Some(SubmitError::NotFound(id))
        } else if !self.jobs@[id].awaiting_document {
            Some(SubmitError::HasDocument(id))
        } else {
            None
        }
    }

    /// Send-Document for a created job.
    pub fn add_document(&mut self, id: u32, doc: Vec<u8>) -> (r: Result<(), SubmitError>)
        requires
            old(self).wf(),
        ensures
            final(self).wf(),
            match r {
                Err(e) => old(self).add_error(id, doc@) == Some(e) && *final(self) == *old(self),
                Ok(_) => old(self).add_error(id, doc@) is None && is_update(
                    *old(self),
                    *final(self),
                    id,
                    Job {
                        k_octets: k_octets_of(doc@.len()) as u32,
                        doc: Some(doc),
                        format: DocFormat::of(doc@),
                        awaiting_document: false,
                        ..old(self).jobs@[id]
                    },
                ),
            },
    {
        let format = match validate_doc(&doc, self.cfg.max_document_bytes) {
            Ok(f) => f,
            Err(e) => return Err(e),
        };
        match self.jobs.get(&id) {
            Some(j) => {
                if j.state.is_terminal() {
                    return Err(SubmitError::NotFound(id));
                }
                if !j.awaiting_document {
                    return Err(SubmitError::HasDocument(id));
                }
            },
            None => return Err(SubmitError::NotFound(id)),
        }
        let ghost m = self.jobs@;
        if let Some(j) = self.jobs.remove(&id) {
            let mut j = j;
            j.k_octets = k_octets(doc.len());
            j.doc = Some(doc);
            j.format = format;
            j.awaiting_document = false;
            proof {
                lemma_update_wf(m, self.terminal_order@, self.next_id, id, j);
            }
            self.jobs.insert(id, j);
            assert(self.jobs@ =~= m.insert(id, j));
        }
        Ok(())
    }

    /// Marks a job as queued, and says whether it is to be handed to the worker: not where it is over
    /// or cancelled.
    pub fn enqueue(&mut self, id: u32) -> (r: bool)
        requires
            old(self).wf(),
        ensures
            final(self).wf(),
            if old(self).jobs@.contains_key(id) {
                let j = old(self).jobs@[id];
                if j.state.terminal() || j.cancel {
                    !r && *final(self) == *old(self)
                } else {
                    r && exists|q: Job| #[trigger]
                        is_update(*old(self), *final(self), id, q) && str_views(q.reasons@) == seq![
                            "job-queued"@,
                        ] && q == (Job { reasons: q.reasons, ..j })
                }
            } else {
                r && *final(self) == *old(self)
            },
    {
        match self.jobs.get(&id) {
            Some(j) => {
                if j.state.is_terminal() || j.cancel {
                    return false;
                }
            },
            None => return true,
        }
        let ghost m = self.jobs@;
        if let Some(j) = self.jobs.remove(&id) {
            let mut j = j;
            j.reasons = word("job-queued");
            proof {
                lemma_reasons();
                lemma_update_wf(m, self.terminal_order@, self.next_id, id, j);
            }
            let ghost q = j;
            self.jobs.insert(id, j);
            assert(self.jobs@ =~= m.insert(id, q));
            assert(is_update(*old(self), *self, id, q));
        }
        true
    }

    /// The worker did not take the job: it only refuses work while the service stops.
    pub fn enqueue_failed(&mut self, id: u32, now: Now)
        requires
            old(self).wf(),
        ensures
            final(self).wf(),
            is_finished(
                *old(self),
                *final(self),
                id,
                JobState::Aborted,
                seq!["job-completed-with-errors"@],
                "printer service is restarting — print again"@,
                spec_uptime(now),
            ),
    {
        proof {
            lemma_reasons();
        }
        self.finish(
            id,
            JobState::Aborted,
            word("job-completed-with-errors"),
            owned("printer service is restarting — print again"),
            now,
        );
    }
}

// ------------------------------------------------------------------ cancelling

/// `new` is the store after a job was cancelled: a pending job ends at once; a job in work is told to
/// stop, and ends when the worker gets there.
pub open spec fn is_cancelled(old: Store, new: Store, id: u32, up: u32) -> bool {
    let j = old.jobs@[id];
    if j.state == JobState::Pending {
        let marked = Job { cancel: true, ..j };
        exists|mid: Store| #[trigger]
            is_update(old, mid, id, marked) && is_finished(
                mid,
                new,
                id,
                JobState::Canceled,
                seq!["job-canceled-by-user"@],
                "Canceled"@,
                up,
            )
    } else {
        exists|q: Job| #[trigger]
            is_update(old, new, id, q) && str_views(q.reasons@) == seq![
                "processing-to-stop-point"@,
                "job-canceled-by-user"@,
            ] && q == (Job { cancel: true, reasons: q.reasons, ..j })
    }
}

/// What a cancel request for a job comes to.
pub open spec fn cancel_outcome(s: Store, id: u32) -> CancelOutcome {
    if !s.jobs@.contains_key(id) {
        CancelOutcome::NotFound
    } else if s.jobs@[id].state.terminal() {
        CancelOutcome::AlreadyTerminal
    } else {
        CancelOutcome::Canceled
    }
}

impl Store {
    /// Cancel-Job.
    pub fn cancel(&mut self, id: u32, now: Now) -> (r: CancelOutcome)
        requires
            old(self).wf(),
        ensures
            final(self).wf(),
            r == cancel_outcome(*old(self), id),
            if r == CancelOutcome::Canceled {
                is_cancelled(*old(self), *final(self), id, spec_uptime(now))
            } else {
                *final(self) == *old(self)
            },
    {
        let pending = match self.jobs.get(&id) {
            Some(j) => {
                if j.state.is_terminal() {
                    return CancelOutcome::AlreadyTerminal;
                }
                j.state == JobState::Pending
            },
            None => return CancelOutcome::NotFound,
        };
        let ghost m = self.jobs@;
        proof {
            lemma_reasons();
        }
        if let Some(j) = self.jobs.remove(&id) {
            let mut j = j;
            j.cancel = true;
            if !pending {
                j.reasons = two_words("processing-to-stop-point", "job-canceled-by-user");
            }
            proof {
                lemma_update_wf(m, self.terminal_order@, self.next_id, id, j);
            }
            let ghost q = j;
            self.jobs.insert(id, j);
            assert(self.jobs@ =~= m.insert(id, q));
            assert(is_update(*old(self), *self, id, q));
        }
        if pending {
            self.finish(
                id,
                JobState::Canceled,
                word("job-canceled-by-user"),
                owned("Canceled"),
                now,
            );
        }
        CancelOutcome::Canceled
    }
}

/// What cancelling the jobs at `ids` does: pending ones among them end, ones in work are told to
/// stop, the others keep what they have but for a preview; only jobs that are over are forgotten.
pub open spec fn is_cancel_of_all(
    old: Map<u32, Job>,
    new: Map<u32, Job>,
    ids: Seq<u32>,
    up: u32,
) -> bool {
    &&& forall|id: u32| #[trigger]
        new.contains_key(id) ==> old.contains_key(id) && if ids.contains(id)
            && old[id].state == JobState::Pending {
            is_ended(
                Job { cancel: true, preview: new[id].preview, ..old[id] },
                new[id],
                JobState::Canceled,
                seq!["job-canceled-by-user"@],
                "Canceled"@,
                up,
            )
        } else if ids.contains(id) && old[id].state == JobState::Processing {
            new[id] == (Job {
                cancel: true,
                reasons: new[id].reasons,
                preview: new[id].preview,
                ..old[id]
            }) && str_views(new[id].reasons@) == seq![
                "processing-to-stop-point"@,
                "job-canceled-by-user"@,
            ]
        } else {
            new[id] == (Job { preview: new[id].preview, ..old[id] })
        }
    &&& forall|id: u32| #[trigger]
        old.contains_key(id) && !new.contains_key(id) ==> old[id].state.terminal() || ids.contains(
            id,
        )
}

/// The jobs at `ids` were cancelled one after the other.
pub open spec fn cancels_in_turn(old: Store, new: Store, ids: Seq<u32>, up: u32) -> bool
    decreases ids.len(),
{
    if ids.len() == 0 {
        new == old
    } else {
        exists|mid: Store| #[trigger]
            is_cancelled(mid, new, ids.last(), up) && cancels_in_turn(
                old,
                mid,
                ids.drop_last(),
                up,
            )
    }
}

/// Jobs that wait.
pub open spec fn is_waiting() -> spec_fn(Job) -> bool {
    |j: Job| j.state == JobState::Pending
}

/// What cancelling the jobs at `ids` does to the store: see `cancels_in_turn`; what becomes of each job, and
/// which are kept.
pub open spec fn are_cancelled(old: Store, new: Store, ids: Seq<u32>, up: u32) -> bool {
    &&& cancels_in_turn(old, new, ids, up)
    &&& is_cancel_of_all(old.jobs@, new.jobs@, ids, up)
    &&& keeps_latest(old, new, select(old.jobs@, ids, is_waiting()))
    &&& new == (Store { jobs: new.jobs, terminal_order: new.terminal_order, ..old })
}

proof fn lemma_cancel_keeps_latest(old: Store, mid: Store, new: Store, over: Seq<u32>, id: u32, up: u32)
    requires
        keeps_latest(old, mid, over),
        is_open_at(mid, id),
        is_cancelled(mid, new, id, up),
    ensures
        keeps_latest(
            old,
            new,
            if mid.jobs@[id].state == JobState::Pending {
                over.push(id)
            } else {
                over
            },
        ),
{
    let j = mid.jobs@[id];
    let order = old.terminal_order@ + over;
    if j.state == JobState::Pending {
        let marked = Job { cancel: true, ..j };
        let told = choose|told: Store| #[trigger]
            is_update(mid, told, id, marked) && is_finished(
                told,
                new,
                id,
                JobState::Canceled,
                seq!["job-canceled-by-user"@],
                "Canceled"@,
                up,
            );
        assert(is_update(mid, told, id, marked));
        assert forall|x: u32| #[trigger] told.jobs@.contains_key(x) <==> old.jobs@.contains_key(x)
            && !order.take(surplus(order)).contains(x) by {
            assert(mid.jobs@.contains_key(x) <==> told.jobs@.contains_key(x));
        }
        lemma_keeps_latest(
            old,
            told,
            new,
            over,
            id,
            JobState::Canceled,
            seq!["job-canceled-by-user"@],
            "Canceled"@,
            up,
        );
    } else {
        assert forall|x: u32| #[trigger] new.jobs@.contains_key(x) <==> old.jobs@.contains_key(x)
            && !order.take(surplus(order)).contains(x) by {
            assert(mid.jobs@.contains_key(x) <==> new.jobs@.contains_key(x));
        }
    }
}

proof fn lemma_cancel_effect(old: Store, new: Store, id: u32, up: u32)
    requires
        old.wf(),
        is_open_at(old, id),
        is_cancelled(old, new, id, up),
    ensures
        is_cancel_of_all(old.jobs@, new.jobs@, seq![id], up),
{
    let j = old.jobs@[id];
    assert forall|x: u32| #[trigger] seq![id].contains(x) <==> x == id by {
        if x == id {
            assert(seq![id][0] == x);
        }
    }
    if j.state == JobState::Pending {
        let marked = Job { cancel: true, ..j };
        let mid = choose|mid: Store| #[trigger]
            is_update(old, mid, id, marked) && is_finished(
                mid,
                new,
                id,
                JobState::Canceled,
                seq!["job-canceled-by-user"@],
                "Canceled"@,
                up,
            );
        lemma_update_wf(old.jobs@, old.terminal_order@, old.next_id, id, marked);
        assert(mid.wf());
        lemma_finish_effect(
            mid,
            new,
            id,
            JobState::Canceled,
            seq!["job-canceled-by-user"@],
            "Canceled"@,
            up,
        );
        assert forall|x: u32| #[trigger] old.jobs@.contains_key(x) && !new.jobs@.contains_key(
            x,
        ) implies old.jobs@[x].state.terminal() || seq![id].contains(x) by {
            assert(mid.jobs@.contains_key(x));
        }
    } else {
        assert(j.state == JobState::Processing);
    }
}

proof fn lemma_cancel_compose(
    a: Map<u32, Job>,
    b: Map<u32, Job>,
    c: Map<u32, Job>,
    ids: Seq<u32>,
    id: u32,
    up: u32,
)
    requires
        !ids.contains(id),
        is_cancel_of_all(a, b, ids, up),
        is_cancel_of_all(b, c, seq![id], up),
    ensures
        is_cancel_of_all(a, c, ids.push(id), up),
{
    let p = ids.push(id);
    assert forall|x: u32| #[trigger] p.contains(x) <==> ids.contains(x) || x == id by {
        if ids.contains(x) {
            let l = choose|l: int| 0 <= l < ids.len() && ids[l] == x;
            assert(p[l] == x);
        }
        if x == id {
            assert(p[ids.len() as int] == x);
        }
        if p.contains(x) {
            let l = choose|l: int| 0 <= l < p.len() && p[l] == x;
            if l < ids.len() {
                assert(ids[l] == x);
            }
        }
    }
    assert forall|x: u32| #[trigger] seq![id].contains(x) <==> x == id by {
        if x == id {
            assert(seq![id][0] == x);
        }
    }
    assert forall|x: u32| #[trigger] c.contains_key(x) implies b.contains_key(x) && a.contains_key(
        x,
    ) by {
        assert(b.contains_key(x));
    }
    assert forall|x: u32| #[trigger] a.contains_key(x) && !c.contains_key(x) implies (
    a[x].state.terminal() || p.contains(x)) by {
        if b.contains_key(x) {
            assert(b[x].state.terminal() || x == id);
        }
    }
}

fn has_id(ids: &[u32], id: u32) -> (r: bool)
    ensures
        r == ids@.contains(id),
{
    let mut i: usize = 0;
    while i < ids.len()
        invariant
            i <= ids.len(),
            forall|k: int| 0 <= k < i ==> #[trigger] ids@[k] != id,
        decreases ids.len() - i,
    {
        if ids[i] == id {
            return true;
        }
        i += 1;
    }
    false
}

/// The view with its sticky failure cleared, where that is due.
pub open spec fn is_unstuck(old: Store, new: PrinterView, now: Now) -> bool {
    if old.sticky_over(now) {
        &&& (PrinterView {
            sticky_reasons: new.sticky_reasons,
            sticky_since: None,
            ..old.view
        }).is_set(new, now, PrinterState::Idle, Seq::empty(), Seq::empty())
        &&& str_views(new.sticky_reasons@) == Seq::<Seq<char>>::empty()
    } else {
        new == old.view
    }
}

/// What the passing of time does: a sticky failure is cleared when its time is over; created jobs whose
/// client went quiet are aborted; nothing else changes.
pub open spec fn is_ticked(old: Store, new: Store, now: Now) -> bool {
    let stale = jobs_where(old.jobs@, is_stale(now.ms as int, old.cfg.stale_document_ms as int));
    &&& is_unstuck(old, new.view, now)
    &&& are_aborted(
        Store { view: new.view, ..old },
        new,
        stale,
        "No document was sent for this job"@,
        spec_uptime(now),
    )
}

/// What aborting the jobs at `ids` does to the store: see `ends_in_turn`; what becomes of each job, and which
/// are kept.
pub open spec fn are_aborted(
    old: Store,
    new: Store,
    ids: Seq<u32>,
    message: Seq<char>,
    up: u32,
) -> bool {
    let reasons = seq!["job-completed-with-errors"@];
    &&& ends_in_turn(old, new, ids, JobState::Aborted, reasons, message, up)
    &&& is_end_of_all(old.jobs@, new.jobs@, ids, JobState::Aborted, reasons, message, up)
    &&& keeps_latest(old, new, ids)
    &&& new == (Store { jobs: new.jobs, terminal_order: new.terminal_order, ..old })
}

impl Store {
    /// Cancel-My-Jobs: all open jobs of `user` (among `only`, unless that is empty). Gives the ids of
    /// those that were cancelled.
    pub fn cancel_my_jobs(&mut self, user: &str, only: &[u32], now: Now) -> (r: Vec<u32>)
        requires
            old(self).wf(),
        ensures
            final(self).wf(),
            r@ == jobs_where(old(self).jobs@, is_mine(user@, only@)),
            are_cancelled(*old(self), *final(self), r@, spec_uptime(now)),
    {
        let ids = self.ids();
        let ghost m = self.jobs@;
        let ghost p = is_mine(user@, only@);
        let mut targets: Vec<u32> = Vec::new();
        let mut i: usize = 0;
        assert(ids@.take(0) =~= Seq::<u32>::empty());
        assert(targets@ =~= select(m, ids@.take(0), p));
        while i < ids.len()
            invariant
                i <= ids.len(),
                *self == *old(self),
                self.wf(),
                m == self.jobs@,
                p == is_mine(user@, only@),
                forall|id: u32| ids@.contains(id) <==> m.contains_key(id),
                targets@ == select(m, ids@.take(i as int), p),
            decreases ids.len() - i,
        {
            let id: u32 = ids[i];
            assert(ids@.contains(id));
            assert(ids@.take(i as int + 1).drop_last() =~= ids@.take(i as int));
            match self.jobs.get(&id) {
                Some(j) => {
                    assert(j.id == id);
                    if !j.state.is_terminal() && same_str(j.opts.user.as_str(), user) && (only.len()
                        == 0 || has_id(only, id)) {
                        targets.push(id);
                    }
                },
                None => {},
            }
            i += 1;
        }
        assert(ids@.take(ids@.len() as int) =~= ids@);
        proof {
            lemma_select(m, ids@, p);
        }
        let ghost up = spec_uptime(now);
        let mut k: usize = 0;
        assert(targets@.take(0) =~= Seq::<u32>::empty());
        proof {
            lemma_nothing_over(*self);
            assert(select(m, targets@.take(0), is_waiting()) =~= Seq::<u32>::empty());
        }
        while k < targets.len()
            invariant
                k <= targets.len(),
                self.wf(),
                m == old(self).jobs@,
                cancels_in_turn(*old(self), *self, targets@.take(k as int), up),
                keeps_latest(*old(self), *self, select(m, targets@.take(k as int), is_waiting())),
                up == spec_uptime(now),
                ascending(targets@),
                forall|id: u32| targets@.contains(id) ==> m.contains_key(id)
                    && !m[id].state.terminal(),
                is_cancel_of_all(m, self.jobs@, targets@.take(k as int), up),
                *self == (Store {
                    jobs: self.jobs,
                    terminal_order: self.terminal_order,
                    ..*old(self)
                }),
            decreases targets.len() - k,
        {
            let ghost before = *self;
            let id: u32 = targets[k];
            let ghost done = targets@.take(k as int);
            assert(targets@.contains(id));
            assert(!done.contains(id)) by {
                if done.contains(id) {
                    let l = choose|l: int| 0 <= l < done.len() && done[l] == id;
                    assert(targets@[l] < targets@[k as int]);
                }
            }
            assert(is_open_at(before, id)) by {
                assert(m.contains_key(id));
                assert(before.jobs@.contains_key(id));
                assert(before.jobs@[id].state == m[id].state);
            }
            let _ = self.cancel(id, now);
            proof {
                let next = targets@.take(k as int + 1);
                assert(next.drop_last() =~= done);
                assert(next.last() == id);
                assert(is_cancelled(before, *self, next.last(), up));
                lemma_cancel_keeps_latest(
                    *old(self),
                    before,
                    *self,
                    select(m, done, is_waiting()),
                    id,
                    up,
                );
                lemma_cancel_effect(before, *self, id, up);
                lemma_cancel_compose(m, before.jobs@, self.jobs@, done, id, up);
                assert(done.push(id) =~= targets@.take(k as int + 1));
            }
            k += 1;
        }
        assert(targets@.take(targets@.len() as int) =~= targets@);
        targets
    }

    // -------------------------------------------------------------- identifying, stopping, time

    /// Identify-Printer: counts the request, and says whether the worker is to be asked (not while
    /// an earlier request waits).
    pub fn identify(&mut self) -> (r: bool)
        requires
            old(self).wf(),
            old(self).identify_requests < u32::MAX,
        ensures
            final(self).wf(),
            r == !old(self).identify_pending,
            *final(self) == (Store {
                identify_requests: (old(self).identify_requests + 1) as u32,
                ..*old(self)
            }),
    {
        self.identify_requests = self.identify_requests + 1;
        !self.identify_pending
    }

    /// Notes whether the worker took (or is done with) an identification.
    pub fn set_identify_pending(&mut self, pending: bool)
        requires
            old(self).wf(),
        ensures
            final(self).wf(),
            *final(self) == (Store { identify_pending: pending, ..*old(self) }),
    {
        self.identify_pending = pending;
    }

    /// Begins a graceful stop: no new jobs. No printer-state reason is given, since the queue would
    /// keep it as an alert after the restart.
    pub fn begin_shutdown(&mut self, now: Now)
        requires
            old(self).wf(),
        ensures
            final(self).wf(),
            *final(self) == (Store { view: final(self).view, ..*old(self) }),
            (PrinterView { accepting: false, ..old(self).view }).is_set(
                final(self).view,
                now,
                old(self).view.state,
                Seq::empty(),
                "printer service is stopping"@,
            ),
    {
        self.view.accepting = false;
        let state = self.view.state;
        self.view.set(now, state, no_words(), owned("printer service is stopping"));
    }

    /// The sticky failure is to be cleared: its time is over, and no job is in work.
    pub open spec fn sticky_over(self, now: Now) -> bool {
        self.view.sticky_since matches Some(t) && now.ms - t > self.cfg.error_ttl_ms
            && self.view.current is None
    }

    /// Clears the sticky failure after its time; aborts created jobs whose client went quiet.
    pub fn tick(&mut self, now: Now)
        requires
            old(self).wf(),
        ensures
            final(self).wf(),
            is_ticked(*old(self), *final(self), now),
    {
        let over = match self.view.sticky_since {
            Some(t) => now.ms > t && now.ms - t > self.cfg.error_ttl_ms
                && self.view.current.is_none(),
            None => false,
        };
        if over {
            self.view.set(now, PrinterState::Idle, no_words(), String::new());
            assert(self.view.message@ =~= Seq::<char>::empty());
            self.view.sticky_reasons = no_words();
            self.view.sticky_since = None;
        }
        let ids = self.ids();
        let ghost m = self.jobs@;
        let limit: u64 = self.cfg.stale_document_ms;
        let ghost p = is_stale(now.ms as int, limit as int);
        let mut stale: Vec<u32> = Vec::new();
        let mut i: usize = 0;
        assert(ids@.take(0) =~= Seq::<u32>::empty());
        assert(stale@ =~= select(m, ids@.take(0), p));
        let ghost mid = *self;
        while i < ids.len()
            invariant
                i <= ids.len(),
                *self == mid,
                m == self.jobs@,
                p == is_stale(now.ms as int, limit as int),
                forall|id: u32| ids@.contains(id) <==> m.contains_key(id),
                stale@ == select(m, ids@.take(i as int), p),
            decreases ids.len() - i,
        {
            let id: u32 = ids[i];
            assert(ids@.contains(id));
            assert(ids@.take(i as int + 1).drop_last() =~= ids@.take(i as int));
            match self.jobs.get(&id) {
                Some(j) => {
                    if j.awaiting_document && !j.state.is_terminal() && now.ms > j.last_activity_ms
                        && now.ms - j.last_activity_ms > limit {
                        stale.push(id);
                    }
                },
                None => {},
            }
            i += 1;
        }
        assert(ids@.take(ids@.len() as int) =~= ids@);
        proof {
            lemma_reasons();
            lemma_select(m, ids@, p);
            assert forall|k: int| 0 <= k < stale@.len() implies is_open_at(
                *self,
                #[trigger] stale@[k],
            ) by {
                assert(stale@.contains(stale@[k]));
            }
        }
        self.finish_all(
            &stale,
            JobState::Aborted,
            "job-completed-with-errors",
            "No document was sent for this job",
            now,
        );
    }

    /// The service stops: whatever is not over is aborted.
    pub fn abort_open(&mut self, now: Now)
        requires
            old(self).wf(),
        ensures
            final(self).wf(),
            are_aborted(
                *old(self),
                *final(self),
                jobs_where(old(self).jobs@, is_open()),
                "printer service restarted — print again"@,
                spec_uptime(now),
            ),
            forall|id: u32| #[trigger]
                final(self).jobs@.contains_key(id) ==> final(self).jobs@[id].state.terminal(),
    {
        let ids = self.ids();
        let ghost m = self.jobs@;
        let mut open: Vec<u32> = Vec::new();
        let mut i: usize = 0;
        assert(ids@.take(0) =~= Seq::<u32>::empty());
        assert(open@ =~= select(m, ids@.take(0), is_open()));
        while i < ids.len()
            invariant
                i <= ids.len(),
                *self == *old(self),
                m == self.jobs@,
                forall|id: u32| ids@.contains(id) <==> m.contains_key(id),
                open@ == select(m, ids@.take(i as int), is_open()),
            decreases ids.len() - i,
        {
            let id: u32 = ids[i];
            assert(ids@.contains(id));
            assert(ids@.take(i as int + 1).drop_last() =~= ids@.take(i as int));
            match self.jobs.get(&id) {
                Some(j) => {
                    if !j.state.is_terminal() {
                        open.push(id);
                    }
                },
                None => {},
            }
            i += 1;
        }
        assert(ids@.take(ids@.len() as int) =~= ids@);
        proof {
            lemma_reasons();
            lemma_select(m, ids@, is_open());
            assert forall|k: int| 0 <= k < open@.len() implies is_open_at(
                *self,
                #[trigger] open@[k],
            ) by {
                assert(open@.contains(open@[k]));
            }
        }
        self.finish_all(
            &open,
            JobState::Aborted,
            "job-completed-with-errors",
            "printer service restarted — print again",
            now,
        );
        proof {
            assert forall|id: u32| #[trigger] self.jobs@.contains_key(
                id,
            ) implies self.jobs@[id].state.terminal() by {
                assert(m.contains_key(id));
                if !m[id].state.terminal() {
                    assert(open@.contains(id));
                }
            }
        }
    }
}

// ------------------------------------------------------------------ health

/// Jobs that are over.
pub open spec fn is_over() -> spec_fn(Job) -> bool {
    |j: Job| j.state.terminal()
}

/// The words of `a`, and then those of `b` that are not among what stands before.
pub open spec fn merged(a: Seq<Seq<char>>, b: Seq<Seq<char>>) -> Seq<Seq<char>>
    decreases b.len(),
{
    if b.len() == 0 {
        a
    } else {
        let m = merged(a, b.drop_last());
        if m.contains(b.last()) {
            m
        } else {
            m.push(b.last())
        }
    }
}

fn has_word(v: &Vec<&'static str>, w: &str) -> (r: bool)
    ensures
        r == str_views(v@).contains(w@),
{
    let mut i: usize = 0;
    while i < v.len()
        invariant
            i <= v.len(),
            forall|k: int| 0 <= k < i ==> (#[trigger] v@[k])@ != w@,
        decreases v.len() - i,
    {
        if same_str(v[i], w) {
            assert(str_views(v@)[i as int] == w@);
            return true;
        }
        i += 1;
    }
    assert forall|k: int| 0 <= k < str_views(v@).len() implies str_views(v@)[k] != w@ by {
        assert(v@[k]@ != w@);
    }
    false
}

impl Store {
    /// `h` is the snapshot of the store.
    pub open spec fn is_health(self, h: Health, now: Now) -> bool {
        &&& h.version@ == crate::VERSION@
        &&& h.uptime_s == now.ms / 1000
        &&& h.printer_state == match self.view.state {
            PrinterState::Idle => "idle",
            PrinterState::Processing => "processing",
            PrinterState::Stopped => "stopped",
        }
        &&& str_views(h.reasons@) == merged(
            str_views(self.view.reasons@),
            str_views(self.view.sticky_reasons@),
        )
        &&& h.message@ == self.view.message@
        &&& h.accepting == self.view.accepting
        &&& h.queue_depth == self.queued()
        &&& h.current_job == self.view.current
        &&& h.jobs_total == self.jobs_total
        &&& h.battery == self.view.battery
        &&& match self.view.last_model {
            Some(m) => h.last_model is Some && (h.last_model->0)@ == m@,
            None => h.last_model is None,
        }
        &&& {
            let over = jobs_where(self.jobs@, is_over());
            if over.len() == 0 {
                h.last_job is None
            } else {
                let j = self.jobs@[over.last()];
                h.last_job matches Some(l) && l.id == j.id && l.state == spec_state_name(j.state)
                    && l.message@ == j.message@ && l.name@ == j.opts.job_name@
            }
        }
    }

    /// Snapshot for the health page.
    pub fn health(&self, now: Now) -> (r: Health)
        requires
            self.wf(),
        ensures
            self.is_health(r, now),
    {
        let ids = self.ids();
        let ghost m = self.jobs@;
        let mut last: Option<LastJob> = None;
        let mut i: usize = 0;
        assert(ids@.take(0) =~= Seq::<u32>::empty());
        while i < ids.len()
            invariant
                i <= ids.len(),
                self.wf(),
                m == self.jobs@,
                forall|id: u32| ids@.contains(id) <==> m.contains_key(id),
                ({
                    let over = select(m, ids@.take(i as int), is_over());
                    if over.len() == 0 {
                        last is None
                    } else {
                        let j = m[over.last()];
                        last matches Some(l) && l.id == j.id && l.state == spec_state_name(j.state)
                            && l.message@ == j.message@ && l.name@ == j.opts.job_name@
                    }
                }),
            decreases ids.len() - i,
        {
            let id: u32 = ids[i];
            assert(ids@.contains(id));
            assert(ids@.take(i as int + 1).drop_last() =~= ids@.take(i as int));
            match self.jobs.get(&id) {
                Some(j) => {
                    if j.state.is_terminal() {
                        last = Some(
                            LastJob {
                                id: j.id,
                                state: state_name(j.state),
                                message: owned(j.message.as_str()),
                                name: owned(j.opts.job_name.as_str()),
                            },
                        );
                    }
                },
                None => {},
            }
            i += 1;
        }
        assert(ids@.take(ids@.len() as int) =~= ids@);
        let mut reasons: Vec<&'static str> = Vec::new();
        let ghost a = str_views(self.view.reasons@);
        let mut k: usize = 0;
        while k < self.view.reasons.len()
            invariant
                k <= self.view.reasons.len(),
                reasons@ == self.view.reasons@.take(k as int),
            decreases self.view.reasons.len() - k,
        {
            reasons.push(self.view.reasons[k]);
            k += 1;
        }
        assert(reasons@ =~= self.view.reasons@);
        let ghost b = str_views(self.view.sticky_reasons@);
        let mut k: usize = 0;
        assert(b.take(0) =~= Seq::<Seq<char>>::empty());
        while k < self.view.sticky_reasons.len()
            invariant
                k <= self.view.sticky_reasons.len(),
                b == str_views(self.view.sticky_reasons@),
                a == str_views(self.view.reasons@),
                str_views(reasons@) == merged(a, b.take(k as int)),
            decreases self.view.sticky_reasons.len() - k,
        {
            let w: &'static str = self.view.sticky_reasons[k];
            assert(b.take(k as int + 1).drop_last() =~= b.take(k as int));
            assert(b.take(k as int + 1).last() == w@);
            let ghost was = reasons@;
            if !has_word(&reasons, w) {
                reasons.push(w);
                assert(str_views(reasons@) =~= str_views(was).push(w@));
            }
            k += 1;
        }
        assert(b.take(b.len() as int) =~= b);
        Health {
            version: crate::VERSION,
            uptime_s: now.ms / 1000,
            printer_state: match self.view.state {
                PrinterState::Idle => "idle",
                PrinterState::Processing => "processing",
                PrinterState::Stopped => "stopped",
            },
            reasons,
            message: owned(self.view.message.as_str()),
            accepting: self.view.accepting,
            queue_depth: self.queued_count(),
            current_job: self.view.current,
            jobs_total: self.jobs_total,
            battery: self.view.battery,
            last_model: match &self.view.last_model {
                Some(m) => Some(owned(m.as_str())),
                None => None,
            },
            last_job: last,
        }
    }
}

} // verus!
