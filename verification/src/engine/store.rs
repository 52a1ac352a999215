//! The jobs, and what clients do to them.

use std::collections::BTreeMap;

use vstd::prelude::*;

use crate::engine::ids::{
    ascending, id_list, keys_of, lemma_ascending_at_least, lemma_id_list,
};
use crate::engine::{
    spec_uptime, str_views, uptime, EngineConfig, Job, JobState, Now, PrinterState, PrinterView,
    KEEP_PREVIEWS, KEEP_TERMINAL,
};

verus! {

broadcast use vstd::std_specs::btree::group_btree_axioms;

/// The job store.
#[derive(Debug)]
pub struct Store {
    pub jobs: BTreeMap<u32, Job>,
    pub next_id: u32,
    /// Terminal jobs, in the order in which they ended.
    pub terminal_order: Vec<u32>,
    pub view: PrinterView,
    pub cfg: EngineConfig,
    pub jobs_total: u64,
    pub config_changed_uptime: u32,
    pub identify_requests: u32,
    /// An identification is already queued for the worker (requests are coalesced, so that a burst
    /// cannot starve print jobs).
    pub identify_pending: bool,
}

// ------------------------------------------------------------------ invariant

/// The reasons are ones that a client does not take for success: never `aborted-by-system`, and for
/// an aborted job not `job-canceled-by-user`.
pub open spec fn reasons_ok(state: JobState, reasons: Seq<Seq<char>>) -> bool {
    forall|i: int|
        0 <= i < reasons.len() ==> #[trigger] reasons[i] != "aborted-by-system"@ && (state
            == JobState::Aborted ==> reasons[i] != "job-canceled-by-user"@)
}

/// `order` lists the terminal jobs, each once.
pub open spec fn order_ok(order: Seq<u32>, jobs: Map<u32, Job>) -> bool {
    &&& order.no_duplicates()
    &&& forall|id: u32| #[trigger]
        order.contains(id) <==> jobs.contains_key(id) && jobs[id].state.terminal()
}

/// Every job is under its id, below the next id, with reasons that are in order.
pub open spec fn jobs_ok(jobs: Map<u32, Job>, next_id: u32) -> bool {
    forall|id: u32| #[trigger]
        jobs.contains_key(id) ==> jobs[id].id == id && id < next_id && reasons_ok(
            jobs[id].state,
            str_views(jobs[id].reasons@),
        )
}

impl Store {
    /// The store is well-formed.
    pub open spec fn wf(self) -> bool {
        &&& jobs_ok(self.jobs@, self.next_id)
        &&& order_ok(self.terminal_order@, self.jobs@)
        &&& self.terminal_order@.len() <= KEEP_TERMINAL
        &&& self.view.state != PrinterState::Stopped
    }
}

// ------------------------------------------------------------------ lists of jobs

/// Those of the ids whose job satisfies `p`, in order.
pub open spec fn select(m: Map<u32, Job>, ids: Seq<u32>, p: spec_fn(Job) -> bool) -> Seq<u32>
    decreases ids.len(),
{
    if ids.len() == 0 {
        Seq::empty()
    } else if p(m[ids.last()]) {
        select(m, ids.drop_last(), p).push(ids.last())
    } else {
        select(m, ids.drop_last(), p)
    }
}

/// The ids of the jobs that satisfy `p`, in ascending order.
pub open spec fn jobs_where(m: Map<u32, Job>, p: spec_fn(Job) -> bool) -> Seq<u32> {
    select(m, id_list(m), p)
}

/// Jobs that are not over.
pub open spec fn is_open() -> spec_fn(Job) -> bool {
    |j: Job| !j.state.terminal()
}

/// Jobs with a preview.
pub open spec fn has_preview() -> spec_fn(Job) -> bool {
    |j: Job| j.preview is Some
}

/// Jobs that wait for a document of which nothing was heard for too long.
pub open spec fn is_stale(now_ms: int, limit_ms: int) -> spec_fn(Job) -> bool {
    |j: Job| j.awaiting_document && !j.state.terminal() && now_ms - j.last_activity_ms > limit_ms
}

/// Open jobs of a user, among the given ids (or any).
pub open spec fn is_mine(user: Seq<char>, only: Seq<u32>) -> spec_fn(Job) -> bool {
    |j: Job|
        !j.state.terminal() && j.opts.user@ == user && (only.len() == 0 || only.contains(j.id))
}

/// A selection holds only ids of the list whose job satisfies `p`, in ascending order, and no more
/// than the list.
pub proof fn lemma_select(m: Map<u32, Job>, ids: Seq<u32>, p: spec_fn(Job) -> bool)
    requires
        ascending(ids),
    ensures
        ascending(select(m, ids, p)),
        select(m, ids, p).len() <= ids.len(),
        forall|id: u32| #[trigger]
            select(m, ids, p).contains(id) <==> ids.contains(id) && p(m[id]),
    decreases ids.len(),
{
    if ids.len() > 0 {
        let rest = ids.drop_last();
        let last = ids.last();
        lemma_select(m, rest, p);
        let s = select(m, ids, p);
        let t = select(m, rest, p);
        assert(ids =~= rest.push(last));
        assert forall|id: u32| #[trigger] s.contains(id) <==> ids.contains(id) && p(m[id]) by {
            if s.contains(id) {
                let k = choose|k: int| 0 <= k < s.len() && s[k] == id;
                if p(m[last]) && k == t.len() {
                    assert(ids[ids.len() - 1] == id);
                } else {
                    assert(t[k] == id);
                    assert(t.contains(id));
                    let l = choose|l: int| 0 <= l < rest.len() && rest[l] == id;
                    assert(ids[l] == id);
                }
            }
            if ids.contains(id) && p(m[id]) {
                let k = choose|k: int| 0 <= k < ids.len() && ids[k] == id;
                if k == ids.len() - 1 {
                    assert(s[t.len() as int] == id);
                } else {
                    assert(rest[k] == id);
                    assert(t.contains(id));
                    let l = choose|l: int| 0 <= l < t.len() && t[l] == id;
                    assert(s[l] == id);
                }
            }
        }
        assert forall|i: int, j: int| 0 <= i < j < s.len() implies s[i] < s[j] by {
            if p(m[last]) && j == t.len() {
                assert(t.contains(s[i]));
                let l = choose|l: int| 0 <= l < rest.len() && rest[l] == s[i];
                assert(ids[l] < ids[ids.len() - 1]);
            }
        }
    } else {
        assert forall|id: u32| #[trigger]
            select(m, ids, p).contains(id) <==> ids.contains(id) && p(m[id]) by {}
    }
}

/// The ids of a map are its keys.
pub proof fn lemma_ids(m: Map<u32, Job>, s: Seq<u32>)
    requires
        ascending(s),
        s.to_set() == m.dom(),
    ensures
        id_list(m) == s,
        forall|id: u32| s.contains(id) <==> m.contains_key(id),
{
    lemma_id_list(m, s);
}

// ------------------------------------------------------------------ ending a job

/// The jobs with previews that are no longer kept: all but the last few.
pub open spec fn old_previews(m: Map<u32, Job>) -> Seq<u32> {
    let l = jobs_where(m, has_preview());
    if l.len() > KEEP_PREVIEWS {
        l.take(l.len() - KEEP_PREVIEWS)
    } else {
        Seq::empty()
    }
}

/// The jobs without the previews of the given ones.
pub open spec fn without_previews(m: Map<u32, Job>, ids: Seq<u32>) -> Map<u32, Job> {
    Map::new(
        |id: u32| m.contains_key(id),
        |id: u32|
            if ids.contains(id) {
                Job { preview: None, ..m[id] }
            } else {
                m[id]
            },
    )
}

/// The jobs with the last few previews only.
pub open spec fn thinned(m: Map<u32, Job>) -> Map<u32, Job> {
    without_previews(m, old_previews(m))
}

/// The jobs after the oldest terminal ones beyond the limit were forgotten.
pub open spec fn forgotten(m: Map<u32, Job>, order: Seq<u32>) -> Map<u32, Job> {
    if order.len() > KEEP_TERMINAL {
        m.remove(order[0])
    } else {
        m
    }
}

/// The terminal jobs that are kept.
pub open spec fn kept(order: Seq<u32>) -> Seq<u32> {
    if order.len() > KEEP_TERMINAL {
        order.skip(1)
    } else {
        order
    }
}

/// `new` is the job ended.
pub open spec fn is_ended(
    old: Job,
    new: Job,
    state: JobState,
    reasons: Seq<Seq<char>>,
    message: Seq<char>,
    up: u32,
) -> bool {
    &&& new == (Job {
        state,
        reasons: new.reasons,
        message: new.message,
        completed_uptime: Some(up),
        doc: None,
        ..old
    })
    &&& str_views(new.reasons@) == reasons
    &&& new.message@ == message
}

/// `new` is the store after a job was ended: an open job gets its end and joins the terminal ones, of
/// which only the latest are kept, as of the previews; a job that is over is left alone.
pub open spec fn is_finished(
    old: Store,
    new: Store,
    id: u32,
    state: JobState,
    reasons: Seq<Seq<char>>,
    message: Seq<char>,
    up: u32,
) -> bool {
    let m = old.jobs@;
    &&& new == (Store { jobs: new.jobs, terminal_order: new.terminal_order, ..old })
    &&& if !m.contains_key(id) {
        new.jobs@ == thinned(m) && new.terminal_order@ == old.terminal_order@
    } else if m[id].state.terminal() {
        new.jobs@ == m && new.terminal_order@ == old.terminal_order@
    } else {
        exists|j: Job|
            {
                let order = old.terminal_order@.push(id);
                &&& is_ended(m[id], j, state, reasons, message, up)
                &&& new.jobs@ == thinned(forgotten(#[trigger] m.insert(id, j), order))
                &&& new.terminal_order@ == kept(order)
            }
    }
}

/// Jobs that were over are as they were, but for a preview, or forgotten.
pub open spec fn ended_stay(old: Map<u32, Job>, new: Map<u32, Job>) -> bool {
    forall|id: u32| #[trigger]
        old.contains_key(id) && old[id].state.terminal() && new.contains_key(id) ==> new[id] == (Job {
            preview: new[id].preview,
            ..old[id]
        })
}

impl Store {
    /// The ids of all jobs, ascending.
    pub fn ids(&self) -> (r: Vec<u32>)
        ensures
            ascending(r@),
            r@ == id_list(self.jobs@),
            forall|id: u32| r@.contains(id) <==> self.jobs@.contains_key(id),
    {
        let r = keys_of(&self.jobs);
        proof {
            lemma_ids(self.jobs@, r@);
        }
        r
    }

    /// The job of an id.
    pub fn job(&self, id: u32) -> (r: Option<&Job>)
        ensures
            match r {
                Some(j) => self.jobs@.contains_key(id) && *j == self.jobs@[id],
                None => !self.jobs@.contains_key(id),
            },
    {
        self.jobs.get(&id)
    }

    /// The number of jobs that are not over.
    pub open spec fn queued(self) -> int {
        jobs_where(self.jobs@, is_open()).len() as int
    }

    /// The number of jobs that are not over.
    pub fn queued_count(&self) -> (r: u32)
        requires
            self.wf(),
        ensures
            r == self.queued(),
    {
        let ids = self.ids();
        let ghost m = self.jobs@;
        let mut n: u32 = 0;
        let mut i: usize = 0;
        assert(ids@.take(0) =~= Seq::<u32>::empty());
        while i < ids.len()
            invariant
                i <= ids.len(),
                self.wf(),
                m == self.jobs@,
                ascending(ids@),
                ids@ == id_list(m),
                forall|id: u32| ids@.contains(id) <==> m.contains_key(id),
                n == select(m, ids@.take(i as int), is_open()).len(),
                n <= i,
            decreases ids.len() - i,
        {
            let id: u32 = ids[i];
            proof {
                assert(ids@.contains(id));
                assert(m.contains_key(id));
                lemma_ascending_at_least(ids@, i as int);
                assert(ids@.take(i as int + 1).drop_last() =~= ids@.take(i as int));
            }
            match self.jobs.get(&id) {
                Some(j) => {
                    if !j.state.is_terminal() {
                        n = n + 1;
                    }
                },
                None => {},
            }
            i += 1;
        }
        assert(ids@.take(ids@.len() as int) =~= ids@);
        n
    }

    /// Keeps the last few previews only.
    fn thin(&mut self)
        requires
            jobs_ok(old(self).jobs@, old(self).next_id),
        ensures
            final(self).jobs@ == thinned(old(self).jobs@),
            *final(self) == (Store { jobs: final(self).jobs, ..*old(self) }),
    {
        let ids = self.ids();
        let ghost m = self.jobs@;
        let mut with: Vec<u32> = Vec::new();
        let mut i: usize = 0;
        assert(ids@.take(0) =~= Seq::<u32>::empty());
        assert(with@ =~= select(m, ids@.take(0), has_preview()));
        while i < ids.len()
            invariant
                i <= ids.len(),
                *self == *old(self),
                m == self.jobs@,
                forall|id: u32| ids@.contains(id) <==> m.contains_key(id),
                with@ == select(m, ids@.take(i as int), has_preview()),
            decreases ids.len() - i,
        {
            let id: u32 = ids[i];
            assert(ids@.contains(id));
            assert(ids@.take(i as int + 1).drop_last() =~= ids@.take(i as int));
            match self.jobs.get(&id) {
                Some(j) => {
                    if j.preview.is_some() {
                        with.push(id);
                    }
                },
                None => {},
            }
            i += 1;
        }
        assert(ids@.take(ids@.len() as int) =~= ids@);
        proof {
            lemma_select(m, ids@, has_preview());
        }
        let drop: usize = if with.len() > KEEP_PREVIEWS {
            with.len() - KEEP_PREVIEWS
        } else {
            0
        };
        let mut k: usize = 0;
        assert(with@.take(0) =~= Seq::<u32>::empty());
        assert(self.jobs@ =~= without_previews(m, with@.take(0)));
        while k < drop
            invariant
                k <= drop <= with@.len(),
                *self == (Store { jobs: self.jobs, ..*old(self) }),
                forall|id: u32| with@.contains(id) ==> m.contains_key(id),
                ascending(with@),
                self.jobs@ == without_previews(m, with@.take(k as int)),
            decreases drop - k,
        {
            let id: u32 = with[k];
            assert(with@.contains(id));
            let ghost before = self.jobs@;
            assert(before.contains_key(id));
            assert(!with@.take(k as int).contains(id)) by {
                if with@.take(k as int).contains(id) {
                    let l = choose|l: int|
                        0 <= l < with@.take(k as int).len() && with@.take(k as int)[l] == id;
                    assert(with@[l] < with@[k as int]);
                }
            }
            match self.jobs.remove(&id) {
                Some(j) => {
                    let mut j = j;
                    j.preview = None;
                    self.jobs.insert(id, j);
                },
                None => {},
            }
            proof {
                let a = with@.take(k as int);
                let b = with@.take(k as int + 1);
                assert(b =~= a.push(id));
                assert forall|x: u32| #[trigger] b.contains(x) <==> a.contains(x) || x == id by {
                    if a.contains(x) {
                        let l = choose|l: int| 0 <= l < a.len() && a[l] == x;
                        assert(b[l] == x);
                    }
                    if x == id {
                        assert(b[k as int] == x);
                    }
                    if b.contains(x) {
                        let l = choose|l: int| 0 <= l < b.len() && b[l] == x;
                        if l < k {
                            assert(a[l] == x);
                        }
                    }
                }
                assert(self.jobs@ =~= without_previews(m, b));
            }
            k += 1;
        }
        assert(jobs_where(m, has_preview()) == with@);
        if drop == 0 {
            assert(with@.take(0) =~= Seq::<u32>::empty());
        }
    }

    /// Ends a job. A job that is over stays as it is.
    pub fn finish(
        &mut self,
        id: u32,
        state: JobState,
        reasons: Vec<&'static str>,
        message: String,
        now: Now,
    )
        requires
            old(self).wf(),
            state.terminal(),
            reasons_ok(state, str_views(reasons@)),
        ensures
            final(self).wf(),
            is_finished(
                *old(self),
                *final(self),
                id,
                state,
                str_views(reasons@),
                message@,
                spec_uptime(now),
            ),
            ended_stay(old(self).jobs@, final(self).jobs@),
    {
        let ghost m = self.jobs@;
        let ghost rv = str_views(reasons@);
        match self.jobs.get(&id) {
            Some(j) => {
                if j.state.is_terminal() {
                    return;
                }
            },
            None => {
                self.thin();
                proof {
                    lemma_thinned_wf(m, self.terminal_order@, self.next_id);
                }
                return;
            },
        }
        match self.jobs.remove(&id) {
            Some(j) => {
                let mut j = j;
                j.state = state;
                j.reasons = reasons;
                j.message = message;
                j.completed_uptime = Some(uptime(now));
                j.doc = None;
                let ghost ended = j;
                assert(is_ended(m[id], ended, state, rv, message@, spec_uptime(now)));
                self.jobs.insert(id, j);
                assert(self.jobs@ =~= m.insert(id, ended));
                self.terminal_order.push(id);
                let ghost order = self.terminal_order@;
                proof {
                    assert(order == old(self).terminal_order@.push(id));
                    lemma_end_wf(m, old(self).terminal_order@, self.next_id, id, ended);
                }
                if self.terminal_order.len() > KEEP_TERMINAL {
                    let first: u32 = self.terminal_order.remove(0);
                    assert(first == order[0]);
                    assert(self.terminal_order@ =~= order.skip(1));
                    let _ = self.jobs.remove(&first);
                    proof {
                        lemma_forget_wf(m.insert(id, ended), order, self.next_id);
                    }
                }
                let ghost before_thin = self.jobs@;
                assert(before_thin == forgotten(m.insert(id, ended), order));
                assert(self.terminal_order@ == kept(order));
                self.thin();
                proof {
                    lemma_thinned_wf(before_thin, self.terminal_order@, self.next_id);
                }
            },
            None => {},
        }
    }
}

/// Dropping previews keeps the store in order.
proof fn lemma_thinned_wf(m: Map<u32, Job>, order: Seq<u32>, next_id: u32)
    requires
        jobs_ok(m, next_id),
        order_ok(order, m),
    ensures
        jobs_ok(thinned(m), next_id),
        order_ok(order, thinned(m)),
        ended_stay(m, thinned(m)),
{
}

/// An open job that ends joins the terminal ones.
proof fn lemma_end_wf(m: Map<u32, Job>, order: Seq<u32>, next_id: u32, id: u32, j: Job)
    requires
        jobs_ok(m, next_id),
        order_ok(order, m),
        m.contains_key(id),
        !m[id].state.terminal(),
        j.id == id,
        j.state.terminal(),
        reasons_ok(j.state, str_views(j.reasons@)),
    ensures
        jobs_ok(m.insert(id, j), next_id),
        order_ok(order.push(id), m.insert(id, j)),
{
    let o = order.push(id);
    assert(!order.contains(id));
    assert forall|x: u32| #[trigger] o.contains(x) <==> order.contains(x) || x == id by {
        if order.contains(x) {
            let l = choose|l: int| 0 <= l < order.len() && order[l] == x;
            assert(o[l] == x);
        }
        if x == id {
            assert(o[order.len() as int] == x);
        }
        if o.contains(x) {
            let l = choose|l: int| 0 <= l < o.len() && o[l] == x;
            if l < order.len() {
                assert(order[l] == x);
            }
        }
    }
    assert(o.no_duplicates()) by {
        assert forall|a: int, b: int| 0 <= a < o.len() && 0 <= b < o.len() && a != b implies o[a]
            != o[b] by {
            if a == order.len() {
                assert(order[b] == o[b]);
                assert(order.contains(o[b]));
            } else if b == order.len() {
                assert(order[a] == o[a]);
                assert(order.contains(o[a]));
            }
        }
    }
    assert forall|x: u32| #[trigger] o.contains(x) <==> m.insert(id, j).contains_key(x)
        && m.insert(id, j)[x].state.terminal() by {
        assert(order.contains(x) <==> m.contains_key(x) && m[x].state.terminal());
    }
}

/// Forgetting the oldest terminal job keeps the store in order.
proof fn lemma_forget_wf(m: Map<u32, Job>, order: Seq<u32>, next_id: u32)
    requires
        jobs_ok(m, next_id),
        order_ok(order, m),
        order.len() > 0,
    ensures
        jobs_ok(m.remove(order[0]), next_id),
        order_ok(order.skip(1), m.remove(order[0])),
{
    let o = order.skip(1);
    let first = order[0];
    assert forall|x: u32| #[trigger] o.contains(x) <==> order.contains(x) && x != first by {
        if o.contains(x) {
            let l = choose|l: int| 0 <= l < o.len() && o[l] == x;
            assert(order[l + 1] == x);
        }
        if order.contains(x) && x != first {
            let l = choose|l: int| 0 <= l < order.len() && order[l] == x;
            assert(o[l - 1] == x);
        }
    }
    assert(o.no_duplicates()) by {
        assert forall|a: int, b: int| 0 <= a < o.len() && 0 <= b < o.len() && a != b implies o[a]
            != o[b] by {
            assert(order[a + 1] != order[b + 1]);
        }
    }
    assert forall|x: u32| #[trigger] o.contains(x) <==> m.remove(first).contains_key(x) && m.remove(
        first,
    )[x].state.terminal() by {
        assert(order.contains(x) <==> m.contains_key(x) && m[x].state.terminal());
    }
}

} // verus!
