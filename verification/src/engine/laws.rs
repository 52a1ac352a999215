//! What holds of the jobs, whatever is done with them.

use vstd::prelude::*;

use crate::engine::front::{
    is_closed_empty, is_created, is_document_added, is_enqueued, is_marked_queued, is_submitted,
    RESTARTING,
};
use crate::engine::ids::{id_list, lemma_lists_ids};
use crate::engine::ops::{
    cancel_outcome, is_cancel_of_all, is_cancelled, is_end_of_all, is_new_job, is_open_at, is_ticked,
    is_update, surplus,
};
use crate::engine::store::{
    ended_stay, forgotten, has_preview, is_ended, is_finished, is_stale, jobs_where, kept,
    lemma_select, old_previews, thinned, Store,
};
use crate::engine::{
    spec_initial_job_id, spec_next_id_text, spec_uptime, str_views, CancelOutcome, Job, JobState, Now,
    PrinterState, Work, KEEP_PREVIEWS, KEEP_TERMINAL,
};
use crate::ipp::options::JobOptions;
use crate::printer::PrintError;
use crate::text::{
    dec, is_digit, is_space, lemma_dec_reads_back, parse_dec, starts_with, trim, trim_left, trim_right,
};

verus! {

/// Between the two, jobs that were over stay as they were (but for a preview) or are forgotten, new
/// jobs have ids that no job had before, and ids only grow.
pub open spec fn keeps_history(old: Store, new: Store) -> bool {
    &&& ended_stay(old.jobs@, new.jobs@)
    &&& old.next_id <= new.next_id
    &&& forall|id: u32| #[trigger]
        new.jobs@.contains_key(id) ==> old.jobs@.contains_key(id) || old.next_id <= id < new.next_id
}

/// Every job's id is below the next one.
spec fn below(s: Store) -> bool {
    forall|id: u32| #[trigger] s.jobs@.contains_key(id) ==> id < s.next_id
}

/// The history is kept over two steps where it is kept over each.
proof fn lemma_two_steps(a: Store, b: Store, c: Store)
    requires
        below(a),
        keeps_history(a, b),
        keeps_history(b, c),
    ensures
        keeps_history(a, c),
{
    assert forall|id: u32| #[trigger]
        a.jobs@.contains_key(id) && a.jobs@[id].state.terminal() && c.jobs@.contains_key(
            id,
        ) implies c.jobs@[id] == (Job { preview: c.jobs@[id].preview, ..a.jobs@[id] }) by {
        assert(id < a.next_id);
        assert(b.jobs@.contains_key(id) || b.next_id <= id);
    }
    assert forall|id: u32| #[trigger] c.jobs@.contains_key(id) implies a.jobs@.contains_key(id)
        || a.next_id <= id < c.next_id by {
        if b.jobs@.contains_key(id) {
            assert(a.jobs@.contains_key(id) || a.next_id <= id < b.next_id);
        }
    }
}

/// Changing an open job keeps the history.
proof fn lemma_update_keeps(old: Store, new: Store, id: u32, j: Job)
    requires
        is_open_at(old, id),
        is_update(old, new, id, j),
    ensures
        keeps_history(old, new),
{
}

/// Ending a job keeps the history.
pub proof fn lemma_finish_keeps(
    old: Store,
    new: Store,
    id: u32,
    state: JobState,
    reasons: Seq<Seq<char>>,
    message: Seq<char>,
    up: u32,
)
    requires
        is_finished(old, new, id, state, reasons, message, up),
    ensures
        keeps_history(old, new),
{
    let m = old.jobs@;
    if m.contains_key(id) && !m[id].state.terminal() {
        let order = old.terminal_order@.push(id);
        let j = choose|j: Job|
            {
                &&& is_ended(m[id], j, state, reasons, message, up)
                &&& new.jobs@ == thinned(forgotten(#[trigger] m.insert(id, j), order))
                &&& new.terminal_order@ == kept(order)
            };
        let n = forgotten(m.insert(id, j), order);
        assert forall|k: u32| #[trigger] new.jobs@.contains_key(k) implies m.contains_key(k) by {
            assert(n.contains_key(k));
            assert(m.insert(id, j).contains_key(k));
        }
        assert forall|k: u32| #[trigger]
            m.contains_key(k) && m[k].state.terminal() && new.jobs@.contains_key(
                k,
            ) implies new.jobs@[k] == (Job { preview: new.jobs@[k].preview, ..m[k] }) by {
            assert(n.contains_key(k));
            assert(n[k] == m[k]);
        }
    } else if !m.contains_key(id) {
        assert forall|k: u32| #[trigger] new.jobs@.contains_key(k) implies m.contains_key(k) by {}
    }
}

/// Handing a job to the worker keeps the history.
proof fn lemma_enqueue_keeps(
    old: Store,
    new: Store,
    id: u32,
    room: bool,
    work: Option<Work>,
    now: Now,
)
    requires
        below(old),
        old.jobs@.contains_key(id),
        is_enqueued(old, new, id, room, work, now),
    ensures
        keeps_history(old, new),
{
    if old.jobs@[id].state.terminal() || old.jobs@[id].cancel {
    } else if room {
        let q = choose|q: Job| #[trigger]
            is_update(old, new, id, q) && q == (Job { reasons: q.reasons, ..old.jobs@[id] });
        lemma_update_keeps(old, new, id, q);
    } else {
        let mid = choose|mid: Store| #[trigger]
            is_marked_queued(old, mid, id) && is_finished(
                mid,
                new,
                id,
                JobState::Aborted,
                seq!["job-completed-with-errors"@],
                RESTARTING@,
                spec_uptime(now),
            );
        let q = choose|q: Job| #[trigger]
            is_update(old, mid, id, q) && q == (Job { reasons: q.reasons, ..old.jobs@[id] });
        lemma_update_keeps(old, mid, id, q);
        lemma_finish_keeps(
            mid,
            new,
            id,
            JobState::Aborted,
            seq!["job-completed-with-errors"@],
            RESTARTING@,
            spec_uptime(now),
        );
        lemma_two_steps(old, mid, new);
    }
}

/// A new job has an id that no job had before; submitting it keeps the history.
pub proof fn lemma_submit_keeps(
    old: Store,
    new: Store,
    id: u32,
    opts: JobOptions,
    doc: Option<Vec<u8>>,
    room: bool,
    work: Option<Work>,
    now: Now,
)
    requires
        old.wf(),
        old.next_id < u32::MAX,
        is_submitted(old, new, id, opts, doc, room, work, now),
    ensures
        !old.jobs@.contains_key(id),
        keeps_history(old, new),
{
    let mid = choose|mid: Store|
        {
            &&& #[trigger] is_created(old, mid, id, opts, doc, now)
            &&& if doc is Some {
                is_enqueued(mid, new, id, room, work, now)
            } else {
                new == mid && work is None
            }
        };
    let j = choose|j: Job| #[trigger]
        is_new_job(j, id, opts, doc, now) && mid.jobs@ == old.jobs@.insert(id, j);
    assert(keeps_history(old, mid));
    assert(below(mid));
    if doc is Some {
        lemma_enqueue_keeps(mid, new, id, room, work, now);
        lemma_two_steps(old, mid, new);
    }
}

/// Giving a created job its document keeps the history.
pub proof fn lemma_document_keeps(
    old: Store,
    mid: Store,
    new: Store,
    id: u32,
    doc: Vec<u8>,
    room: bool,
    work: Option<Work>,
    now: Now,
)
    requires
        old.wf(),
        is_open_at(old, id),
        is_document_added(old, mid, id, doc),
        is_enqueued(mid, new, id, room, work, now),
    ensures
        keeps_history(old, new),
{
    assert(below(mid));
    lemma_enqueue_keeps(mid, new, id, room, work, now);
    lemma_two_steps(old, mid, new);
}

/// Cancelling an open job keeps the history.
pub proof fn lemma_cancel_keeps(old: Store, new: Store, id: u32, up: u32)
    requires
        old.wf(),
        is_open_at(old, id),
        is_cancelled(old, new, id, up),
    ensures
        keeps_history(old, new),
{
    lemma_cancel_keeps_below(old, new, id, up);
}

proof fn lemma_cancel_keeps_below(old: Store, new: Store, id: u32, up: u32)
    requires
        below(old),
        is_open_at(old, id),
        is_cancelled(old, new, id, up),
    ensures
        keeps_history(old, new),
{
    let j = old.jobs@[id];
    if j.state == JobState::Pending {
        let marked = Job { cancel: true, ..j };
        let mid = choose|mid: Store| #[trigger]
            is_update(old, mid, id, marked) && is_finished(
                mid,
                new,
                id,
                JobState::Canceled,
                seq!["job-canceled-by-user"@],
                "Canceled"@,
                up,
            );
        lemma_finish_keeps(
            mid,
            new,
            id,
            JobState::Canceled,
            seq!["job-canceled-by-user"@],
            "Canceled"@,
            up,
        );
        lemma_two_steps(old, mid, new);
    } else {
        let q = choose|q: Job| #[trigger]
            is_update(old, new, id, q) && q == (Job { cancel: true, reasons: q.reasons, ..j });
        lemma_update_keeps(old, new, id, q);
    }
}

/// Closing a job without a document keeps the history.
pub proof fn lemma_close_keeps(old: Store, new: Store, id: u32, now: Now)
    requires
        old.wf(),
        is_closed_empty(old, new, id, now),
    ensures
        keeps_history(old, new),
{
    if is_open_at(old, id) && old.jobs@[id].awaiting_document {
        let done = Job { awaiting_document: false, ..old.jobs@[id] };
        let mid = choose|mid: Store| #[trigger]
            is_update(old, mid, id, done) && is_cancelled(mid, new, id, spec_uptime(now));
        lemma_update_keeps(old, mid, id, done);
        lemma_cancel_keeps_below(mid, new, id, spec_uptime(now));
        lemma_two_steps(old, mid, new);
    }
}

/// Cancelling jobs together keeps the history.
pub proof fn lemma_cancel_all_keeps(old: Store, new: Store, ids: Seq<u32>, up: u32)
    requires
        is_cancel_of_all(old.jobs@, new.jobs@, ids, up),
        new.next_id == old.next_id,
    ensures
        keeps_history(old, new),
{
}

/// Ending jobs together keeps the history: of silent clients, or when the service stops.
pub proof fn lemma_end_all_keeps(
    old: Store,
    new: Store,
    ids: Seq<u32>,
    state: JobState,
    reasons: Seq<Seq<char>>,
    message: Seq<char>,
    up: u32,
)
    requires
        is_end_of_all(old.jobs@, new.jobs@, ids, state, reasons, message, up),
        new.next_id == old.next_id,
    ensures
        keeps_history(old, new),
{
}

/// A job that waits is over at once when it is cancelled, and still known: cancelling it again does nothing.
/// A job in work goes on until the worker stops. A job that is over, or unknown, is left alone.
pub proof fn lemma_cancelled_once(old: Store, new: Store, id: u32, up: u32)
    requires
        old.wf(),
        is_open_at(old, id),
        is_cancelled(old, new, id, up),
    ensures
        new.jobs@.contains_key(id),
        new.jobs@[id].cancel,
        old.jobs@[id].state == JobState::Pending ==> {
            &&& new.jobs@[id].state == JobState::Canceled
            &&& str_views(new.jobs@[id].reasons@) == seq!["job-canceled-by-user"@]
            &&& cancel_outcome(new, id) == CancelOutcome::AlreadyTerminal
        },
        old.jobs@[id].state == JobState::Processing ==> {
            &&& new.jobs@[id].state == JobState::Processing
            &&& str_views(new.jobs@[id].reasons@) == seq![
                "processing-to-stop-point"@,
                "job-canceled-by-user"@,
            ]
            &&& cancel_outcome(new, id) == CancelOutcome::Canceled
        },
{
    let j = old.jobs@[id];
    if j.state == JobState::Pending {
        let marked = Job { cancel: true, ..j };
        let mid = choose|mid: Store| #[trigger]
            is_update(old, mid, id, marked) && is_finished(
                mid,
                new,
                id,
                JobState::Canceled,
                seq!["job-canceled-by-user"@],
                "Canceled"@,
                up,
            );
        assert(is_update(old, mid, id, marked));
        let order = mid.terminal_order@.push(id);
        assert(mid.terminal_order@ == old.terminal_order@);
        if order.len() > KEEP_TERMINAL {
            assert(order[0] == old.terminal_order@[0]);
            assert(old.terminal_order@.contains(order[0]));
        }
    }
}

/// Time aborts exactly the created jobs whose client went quiet; no other job changes its state or its
/// reasons, and no job that is not over is forgotten unless it is one of those. At most the latest
/// hundred that are over are kept.
pub proof fn lemma_time_aborts_the_quiet(old: Store, new: Store, now: Now)
    requires
        old.wf(),
        is_ticked(old, new, now),
    ensures
        ({
            let quiet = is_stale(now.ms as int, old.cfg.stale_document_ms as int);
            &&& forall|id: u32| #[trigger]
                new.jobs@.contains_key(id) ==> old.jobs@.contains_key(id) && if quiet(
                    old.jobs@[id],
                ) {
                    new.jobs@[id].state == JobState::Aborted && str_views(new.jobs@[id].reasons@)
                        == seq!["job-completed-with-errors"@]
                } else {
                    new.jobs@[id].state == old.jobs@[id].state && new.jobs@[id].reasons
                        == old.jobs@[id].reasons
                }
            &&& forall|id: u32| #[trigger]
                old.jobs@.contains_key(id) && !old.jobs@[id].state.terminal() && !quiet(
                    old.jobs@[id],
                ) ==> new.jobs@.contains_key(id)
            &&& old.terminal_order@.len() + jobs_where(old.jobs@, quiet).len() <= KEEP_TERMINAL
                ==> forall|id: u32| #[trigger]
                old.jobs@.contains_key(id) ==> new.jobs@.contains_key(id)
            &&& new.terminal_order@.len() <= KEEP_TERMINAL
        }),
{
    let quiet = is_stale(now.ms as int, old.cfg.stale_document_ms as int);
    let m = old.jobs@;
    let stale = jobs_where(m, quiet);
    lemma_lists_ids(m);
    lemma_select(m, id_list(m), quiet);
    let order = old.terminal_order@ + stale;
    assert forall|id: u32| #[trigger]
        m.contains_key(id) && !m[id].state.terminal() && !quiet(m[id]) implies new.jobs@.contains_key(
        id,
    ) by {
        let gone = order.take(surplus(order));
        if gone.contains(id) {
            let l = choose|l: int| 0 <= l < gone.len() && gone[l] == id;
            if l < old.terminal_order@.len() {
                assert(old.terminal_order@[l] == id);
                assert(old.terminal_order@.contains(id));
            } else {
                assert(stale[l - old.terminal_order@.len()] == id);
                assert(stale.contains(id));
            }
        }
    }
}

/// A job whose printer cannot be reached waits: as long as the wait is not over and the service does not
/// stop, it is neither ended nor given up, and the printer says why, and that it is at work.
pub proof fn lemma_waits_for_the_printer(
    old: Store,
    new: Store,
    id: u32,
    e: PrintError,
    started_ms: u64,
    now: Now,
)
    requires
        is_open_at(old, id),
        e.spec_retryable(),
        started_ms <= now.ms,
        now.ms - started_ms < old.cfg.printer_wait_ms,
        old.is_attempt_failed(new, id, e, started_ms, false, now),
    ensures
        old.retries(e, started_ms, false, now),
        is_open_at(new, id),
        new.jobs@[id] == (Job { message: new.jobs@[id].message, ..old.jobs@[id] }),
        new.view.state == PrinterState::Processing,
        starts_with(new.view.message@, e.text()),
{
    let text = old.failure_text(e, started_ms, false, now);
    assert(text.subrange(0, e.text().len() as int) =~= e.text());
}

/// When the wait is over, a job whose printer cannot be reached is given up.
pub proof fn lemma_wait_ends(s: Store, e: PrintError, started_ms: u64, shutdown: bool, now: Now)
    requires
        started_ms <= now.ms,
        now.ms - started_ms >= s.cfg.printer_wait_ms,
    ensures
        !s.retries(e, started_ms, shutdown, now),
{
}

/// The jobs whose previews are kept.
pub open spec fn shown(m: Map<u32, Job>) -> Seq<u32> {
    let l = jobs_where(m, has_preview());
    l.skip(old_previews(m).len() as int)
}

/// After a job ended only the last few previews are kept: those of the latest jobs that have one.
pub proof fn lemma_few_previews(m: Map<u32, Job>)
    ensures
        shown(m).len() <= KEEP_PREVIEWS,
        forall|id: u32| #[trigger]
            thinned(m).contains_key(id) && thinned(m)[id].preview is Some ==> shown(m).contains(id),
{
    let l = jobs_where(m, has_preview());
    lemma_lists_ids(m);
    lemma_select(m, id_list(m), has_preview());
    assert forall|id: u32| #[trigger]
        thinned(m).contains_key(id) && thinned(m)[id].preview is Some implies shown(m).contains(
        id,
    ) by {
        assert(m[id].preview is Some && !old_previews(m).contains(id));
        assert(l.contains(id));
        let k = choose|k: int| 0 <= k < l.len() && l[k] == id;
        if k < old_previews(m).len() {
            assert(old_previews(m)[k] == id);
        } else {
            assert(shown(m)[k - old_previews(m).len()] == id);
        }
    }
}

/// Ids do not come back after a restart: a run that finds what the last one kept begins at or after the
/// id at which that one stopped, whatever the clock says.
pub proof fn lemma_ids_survive_a_restart(next_id: u32, unix: i64)
    ensures
        spec_initial_job_id(
            unix as int,
            parse_dec(trim(spec_next_id_text(next_id)), u32::MAX as nat),
        ) >= next_id,
{
    let d = dec(next_id as nat);
    lemma_dec_reads_back(next_id as nat);
    let t = spec_next_id_text(next_id);
    let p = |c: char| is_space(c);
    assert(is_digit(d[0]) && is_digit(d.last()));
    assert(t[0] == d[0]);
    assert(trim_left(t, p) == t);
    assert(t.drop_last() =~= d);
    assert(trim_right(t, p) == trim_right(d, p));
    assert(trim_right(d, p) == d);
}

} // verus!
