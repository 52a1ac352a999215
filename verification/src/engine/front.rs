//! The engine as its clients see it: the store, and the work that goes to the worker.
//!
//! The worker's queue is bounded. Whether it has room for one more entry is an argument; what is to
//! be sent to it is a result.

use vstd::prelude::*;

use crate::engine::ops::{
    are_cancelled, cancel_outcome, create_error, doc_view, is_cancelled, is_new_job, is_open_at,
    is_update, k_octets_of, lemma_note_wf,
};
use crate::engine::store::{is_finished, is_mine, jobs_where, Store};
use crate::engine::{
    spec_uptime, str_views, CancelOutcome, DocFormat, EngineConfig, Health, Job, JobState, Now,
    SubmitError, Work,
};
use crate::ipp::options::JobOptions;

verus! {

broadcast use vstd::std_specs::btree::group_btree_axioms;

/// What is said of a job that could not be handed to the worker.
pub const RESTARTING: &'static str = "printer service is restarting — print again";

/// How many entries the worker's queue holds.
pub fn queue_capacity(queue_max: usize) -> (r: usize)
    requires
        queue_max <= usize::MAX - 4,
    ensures
        r == 4 + if queue_max < 1 {
            1
        } else {
            queue_max as int
        },
{
    if queue_max < 1 {
        5
    } else {
        queue_max + 4
    }
}

/// The job engine.
#[derive(Debug)]
pub struct Engine {
    pub store: Store,
}

/// `new` is the store with a new job.
pub open spec fn is_created(
    old: Store,
    new: Store,
    id: u32,
    opts: JobOptions,
    doc: Option<Vec<u8>>,
    now: Now,
) -> bool {
    &&& id == old.next_id
    &&& !old.jobs@.contains_key(id)
    &&& exists|j: Job| #[trigger]
        is_new_job(j, id, opts, doc, now) && new.jobs@ == old.jobs@.insert(id, j)
    &&& new == (Store {
        jobs: new.jobs,
        next_id: (id + 1) as u32,
        jobs_total: (old.jobs_total + 1) as u64,
        ..old
    })
}

/// `new` is the store with the job marked as queued.
pub open spec fn is_marked_queued(old: Store, new: Store, id: u32) -> bool {
    exists|q: Job| #[trigger]
        is_update(old, new, id, q) && str_views(q.reasons@) == seq!["job-queued"@] && q == (Job {
            reasons: q.reasons,
            ..old.jobs@[id]
        })
}

/// `new` is the store after an open job was handed to the worker, or could not be for want of room;
/// `work` is what goes to the worker.
pub open spec fn is_enqueued(
    old: Store,
    new: Store,
    id: u32,
    room: bool,
    work: Option<Work>,
    now: Now,
) -> bool {
    if old.jobs@[id].state.terminal() || old.jobs@[id].cancel {
        new == old && work is None
    } else if room {
        is_marked_queued(old, new, id) && work == Some(Work::Print(id))
    } else {
        work is None && exists|mid: Store| #[trigger]
            is_marked_queued(old, mid, id) && is_finished(
                mid,
                new,
                id,
                JobState::Aborted,
                seq!["job-completed-with-errors"@],
                RESTARTING@,
                spec_uptime(now),
            )
    }
}

/// `new` is the store with a document for a created job.
pub open spec fn is_document_added(old: Store, new: Store, id: u32, doc: Vec<u8>) -> bool {
    is_update(
        old,
        new,
        id,
        Job {
            k_octets: k_octets_of(doc@.len()) as u32,
            doc: Some(doc),
            format: DocFormat::of(doc@),
            awaiting_document: false,
            ..old.jobs@[id]
        },
    )
}

/// `new` is the store after Create-Job or Print-Job was accepted.
pub open spec fn is_submitted(
    old: Store,
    new: Store,
    id: u32,
    opts: JobOptions,
    doc: Option<Vec<u8>>,
    room: bool,
    work: Option<Work>,
    now: Now,
) -> bool {
    exists|mid: Store|
        {
            &&& #[trigger] is_created(old, mid, id, opts, doc, now)
            &&& if doc is Some {
                is_enqueued(mid, new, id, room, work, now)
            } else {
                new == mid && work is None
            }
        }
}

impl Engine {
    /// The engine is well-formed.
    pub open spec fn wf(self) -> bool {
        self.store.wf()
    }

    /// The counters have room for one more of each.
    pub open spec fn counts(self) -> bool {
        self.store.next_id < u32::MAX && self.store.jobs_total < u64::MAX
            && self.store.identify_requests < u32::MAX
    }

    /// Whether the counters have room for one more of each.
    pub fn can_count(&self) -> (r: bool)
        ensures
            r == self.counts(),
    {
        self.store.next_id < u32::MAX && self.store.jobs_total < u64::MAX
            && self.store.identify_requests < u32::MAX
    }

    /// An engine with no jobs.
    pub fn start(cfg: EngineConfig, next_id: u32, unix: i64) -> (r: Engine)
        ensures
            r.wf(),
            r.store.jobs@ == Map::<u32, Job>::empty(),
            r.store.next_id == next_id,
            r.store.cfg == cfg,
            r.store.jobs_total == 0,
            r.store.identify_requests == 0,
            !r.store.identify_pending,
            r.store.view.accepting,
            r.store.view.state == crate::engine::PrinterState::Idle,
    {
        Engine { store: Store::new(cfg, next_id, unix) }
    }

    /// The store.
    pub fn store(&mut self) -> (r: &mut Store)
        ensures
            *r == old(self).store,
            final(self).store == *final(r),
    {
        &mut self.store
    }

    fn enqueue(&mut self, id: u32, room: bool, now: Now) -> (work: Option<Work>)
        requires
            old(self).wf(),
            old(self).store.jobs@.contains_key(id),
        ensures
            final(self).wf(),
            is_enqueued(old(self).store, final(self).store, id, room, work, now),
    {
        if !self.store.enqueue(id) {
            return None;
        }
        let ghost mid = self.store;
        assert(is_marked_queued(old(self).store, mid, id));
        if room {
            Some(Work::Print(id))
        } else {
            self.store.enqueue_failed(id, now);
            None
        }
    }

    /// Print-Job (with a document) or Create-Job (without). Gives the job's id.
    pub fn create_job(&mut self, opts: JobOptions, doc: Option<Vec<u8>>, room: bool, now: Now) -> (r: (
        Result<u32, SubmitError>,
        Option<Work>,
    ))
        requires
            old(self).wf(),
            old(self).counts(),
        ensures
            final(self).wf(),
            match r {
                (Err(e), work) => {
                    &&& create_error(old(self).store, doc_view(doc)) == Some(e)
                    &&& final(self).store == old(self).store
                    &&& work is None
                },
                (Ok(id), work) => {
                    &&& create_error(old(self).store, doc_view(doc)) is None
                    &&& is_submitted(
                        old(self).store,
                        final(self).store,
                        id,
                        opts,
                        doc,
                        room,
                        work,
                        now,
                    )
                },
            },
    {
        let has_doc = doc.is_some();
        match self.store.create_job(opts, doc, now) {
            Err(e) => (Err(e), None),
            Ok(id) => {
                assert(is_created(old(self).store, self.store, id, opts, doc, now));
                let work = if has_doc {
                    self.enqueue(id, room, now)
                } else {
                    None
                };
                (Ok(id), work)
            },
        }
    }

    /// A client does something for this job: keeps the timer for silent clients from firing.
    pub fn touch(&mut self, id: u32, now: Now)
        requires
            old(self).wf(),
        ensures
            final(self).wf(),
            if is_open_at(old(self).store, id) {
                is_update(
                    old(self).store,
                    final(self).store,
                    id,
                    Job { last_activity_ms: now.ms, ..old(self).store.jobs@[id] },
                )
            } else {
                final(self).store == old(self).store
            },
    {
        self.store.touch(id, now)
    }

    /// Send-Document for a created job.
    pub fn add_document(&mut self, id: u32, doc: Vec<u8>, room: bool, now: Now) -> (r: (
        Result<(), SubmitError>,
        Option<Work>,
    ))
        requires
            old(self).wf(),
        ensures
            final(self).wf(),
            match r {
                (Err(e), work) => {
                    &&& old(self).store.add_error(id, doc@) == Some(e)
                    &&& final(self).store == old(self).store
                    &&& work is None
                },
                (Ok(_), work) => {
                    &&& old(self).store.add_error(id, doc@) is None
                    &&& exists|mid: Store| #[trigger]
                        is_document_added(old(self).store, mid, id, doc) && is_enqueued(
                            mid,
                            final(self).store,
                            id,
                            room,
                            work,
                            now,
                        )
                },
            },
    {
        match self.store.add_document(id, doc) {
            Err(e) => (Err(e), None),
            Ok(_) => {
                assert(is_document_added(old(self).store, self.store, id, doc));
                let work = self.enqueue(id, room, now);
                (Ok(()), work)
            },
        }
    }

    /// Cancel-Job.
    pub fn cancel(&mut self, id: u32, now: Now) -> (r: CancelOutcome)
        requires
            old(self).wf(),
        ensures
            final(self).wf(),
            r == cancel_outcome(old(self).store, id),
            if r == CancelOutcome::Canceled {
                is_cancelled(old(self).store, final(self).store, id, spec_uptime(now))
            } else {
                final(self).store == old(self).store
            },
    {
        self.store.cancel(id, now)
    }

    /// Ends a created job that gets no document: it no longer awaits one, and is cancelled.
    pub fn close_without_document(&mut self, id: u32, now: Now)
        requires
            old(self).wf(),
        ensures
            final(self).wf(),
            is_closed_empty(old(self).store, final(self).store, id, now),
    {
        let waits = match self.store.jobs.get(&id) {
            Some(j) => !j.state.is_terminal() && j.awaiting_document,
            None => false,
        };
        if waits {
            let ghost m = self.store.jobs@;
            if let Some(j) = self.store.jobs.remove(&id) {
                let mut j = j;
                j.awaiting_document = false;
                let ghost q = j;
                proof {
                    lemma_note_wf(m, self.store.terminal_order@, self.store.next_id, id, q);
                }
                self.store.jobs.insert(id, j);
                assert(self.store.jobs@ =~= m.insert(id, q));
                assert(is_update(old(self).store, self.store, id, q));
            }
            self.store.cancel(id, now);
        }
    }

    /// Cancel-My-Jobs: all open jobs of `user` (of those in `ids`, where it holds any).
    pub fn cancel_my_jobs(&mut self, user: &str, ids: &[u32], now: Now) -> (r: Vec<u32>)
        requires
            old(self).wf(),
        ensures
            final(self).wf(),
            r@ == jobs_where(old(self).store.jobs@, is_mine(user@, ids@)),
            are_cancelled(old(self).store, final(self).store, r@, spec_uptime(now)),
    {
        self.store.cancel_my_jobs(user, ids, now)
    }

    /// Identify-Printer: counts the request, and hands it to the worker unless one is under way.
    pub fn identify(&mut self, room: bool) -> (r: Option<Work>)
        requires
            old(self).wf(),
            old(self).counts(),
        ensures
            final(self).wf(),
            r == if !old(self).store.identify_pending && room {
                Some(Work::Identify)
            } else {
                None
            },
            final(self).store == (Store {
                identify_requests: (old(self).store.identify_requests + 1) as u32,
                identify_pending: old(self).store.identify_pending || room,
                ..old(self).store
            }),
    {
        if self.store.identify() {
            self.store.set_identify_pending(room);
            if room {
                return Some(Work::Identify);
            }
        }
        None
    }

    /// No new jobs; the current job gets a grace period, pending ones are aborted.
    pub fn begin_shutdown(&mut self, now: Now)
        requires
            old(self).wf(),
        ensures
            final(self).wf(),
            final(self).store == (Store { view: final(self).store.view, ..old(self).store }),
            (crate::engine::PrinterView { accepting: false, ..old(self).store.view }).is_set(
                final(self).store.view,
                now,
                old(self).store.view.state,
                Seq::empty(),
                "printer service is stopping"@,
            ),
    {
        self.store.begin_shutdown(now)
    }

    /// Snapshot for the health page.
    pub fn health(&self, now: Now) -> (r: Health)
        requires
            self.wf(),
        ensures
            self.store.is_health(r, now),
    {
        self.store.health(now)
    }
}

/// `new` is the store after a created job was closed without a document; any other job stays.
pub open spec fn is_closed_empty(old: Store, new: Store, id: u32, now: Now) -> bool {
    if is_open_at(old, id) && old.jobs@[id].awaiting_document {
        let done = Job { awaiting_document: false, ..old.jobs@[id] };
        exists|mid: Store| #[trigger]
            is_update(old, mid, id, done) && is_cancelled(mid, new, id, spec_uptime(now))
    } else {
        new == old
    }
}

} // verus!
