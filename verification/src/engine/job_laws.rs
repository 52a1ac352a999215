//! What becomes of the jobs of a store: which are accepted, which are counted, cancelled, kept and shown.

use vstd::prelude::*;

use crate::engine::front::{is_created, is_enqueued, is_marked_queued, is_submitted, RESTARTING};
use crate::engine::ids::{id_list, lemma_lists_ids};
use crate::engine::ops::{
    create_error, doc_error, is_new_job, is_open_at, is_over, is_ticked, is_update, k_octets_of, merged,
};
use crate::engine::run_laws::lemma_ended_job;
use crate::engine::store::{
    has_preview, is_finished, is_mine, is_open, jobs_where, kept, lemma_select, thinned, Store,
};
use crate::engine::{
    is_usual, spec_initial_job_id, spec_state_name, spec_uptime, str_views, DocFormat, EngineConfig, Health, Job, JobState, Now,
    PrinterState, SubmitError, Work,
};
use crate::ipp::options::JobOptions;
use crate::raster::spec_sync;
use crate::render::imagein::spec_is_image;

verus! {

// ------------------------------------------------------------------ documents

/// A document is accepted where it is not empty, not beyond the limit, and a raster or an image; a raster is told
/// before an image.
pub proof fn lemma_accepted_documents(doc: Seq<u8>, max: usize)
    requires
        doc.len() <= usize::MAX,
    ensures
        doc_error(doc, max) is None <==> 0 < doc.len() <= max && (spec_sync(doc) is Some || spec_is_image(doc)),
        doc.len() > max ==> doc_error(doc, max) == Some(SubmitError::TooLarge(doc.len() as usize)),
        doc.len() == 0 ==> doc_error(doc, max) == Some(SubmitError::Empty),
        spec_sync(doc) is Some ==> DocFormat::of(doc) == DocFormat::PwgRaster,
        spec_sync(doc) is None && spec_is_image(doc) ==> DocFormat::of(doc) == DocFormat::Image,
{
}

/// A document takes so many units of 1024 bytes that it fits, and not one less.
pub proof fn lemma_document_sizes(len: nat)
    requires
        len <= 1024 * 0xffff_ffff,
    ensures
        1024 * k_octets_of(len) >= len,
        len > 0 ==> 1024 * (k_octets_of(len) - 1) < len,
        len == 0 ==> k_octets_of(len) == 0,
{
}

// ------------------------------------------------------------------ submitting

/// A job is accepted where its document is, the printer accepts jobs, and fewer are open than may be.
pub proof fn lemma_accepted_jobs(s: Store, doc: Option<Seq<u8>>)
    ensures
        create_error(s, doc) is None <==> (doc matches Some(d) ==> doc_error(d, s.cfg.max_document_bytes)
            is None) && s.view.accepting && s.queued() < s.cfg.queue_max,
        doc is None && !s.view.accepting ==> create_error(s, doc) == Some(SubmitError::NotAccepting),
        doc is None && s.view.accepting && s.queued() >= s.cfg.queue_max ==> create_error(s, doc) matches Some(
            SubmitError::Busy(_),
        ),
{
}

/// A job that was accepted waits under a new id, with what it asked for and its whole document; with a document it
/// goes to the worker, without one it waits for it. No other job changes.
pub proof fn lemma_submitted_job(
    old: Store,
    new: Store,
    id: u32,
    opts: JobOptions,
    doc: Option<Vec<u8>>,
    work: Option<Work>,
    now: Now,
)
    requires
        old.wf(),
        old.next_id < u32::MAX,
        is_submitted(old, new, id, opts, doc, true, work, now),
    ensures
        id == old.next_id,
        new.next_id == id + 1,
        !old.jobs@.contains_key(id),
        new.jobs@.contains_key(id),
        new.jobs@[id].id == id,
        new.jobs@[id].opts == opts,
        new.jobs@[id].doc == doc,
        new.jobs@[id].state == JobState::Pending,
        !new.jobs@[id].cancel,
        new.jobs@[id].created == now.unix,
        new.jobs@[id].impressions == 0 && new.jobs@[id].impressions_completed == 0,
        new.jobs@[id].last_activity_ms == now.ms,
        new.jobs@[id].awaiting_document <==> doc is None,
        doc is Some ==> work == Some(Work::Print(id)) && str_views(new.jobs@[id].reasons@) == seq!["job-queued"@],
        doc is None ==> work is None && str_views(new.jobs@[id].reasons@) == seq!["job-incoming"@],
        forall|k: u32| #[trigger] old.jobs@.contains_key(k) ==> new.jobs@.contains_key(k) && new.jobs@[k]
            == old.jobs@[k],
        forall|k: u32| #[trigger] new.jobs@.contains_key(k) ==> k == id || old.jobs@.contains_key(k),
        new.view == old.view,
{
    let mid = choose|mid: Store|
        {
            &&& #[trigger] is_created(old, mid, id, opts, doc, now)
            &&& if doc is Some {
                is_enqueued(mid, new, id, true, work, now)
            } else {
                new == mid && work is None
            }
        };
    let j = choose|j: Job| #[trigger]
        is_new_job(j, id, opts, doc, now) && mid.jobs@ == old.jobs@.insert(id, j);
    assert(mid.jobs@[id] == j);
    if doc is Some {
        assert(!j.state.terminal());
        let q = choose|q: Job| #[trigger]
            is_update(mid, new, id, q) && str_views(q.reasons@) == seq!["job-queued"@] && q == (Job {
                reasons: q.reasons,
                ..mid.jobs@[id]
            });
        assert(new.jobs@[id] == q);
    }
}

/// Where the worker takes no more, a job is aborted at once, and nothing goes to the worker.
pub proof fn lemma_no_room(old: Store, new: Store, id: u32, work: Option<Work>, now: Now)
    requires
        old.wf(),
        is_open_at(old, id),
        !old.jobs@[id].cancel,
        is_enqueued(old, new, id, false, work, now),
    ensures
        work is None,
        new.jobs@.contains_key(id),
        new.jobs@[id].state == JobState::Aborted,
        new.jobs@[id].message@ == RESTARTING@,
        new.jobs@[id].doc is None,
{
    let mid = choose|mid: Store| #[trigger]
        is_marked_queued(old, mid, id) && is_finished(
            mid,
            new,
            id,
            JobState::Aborted,
            seq!["job-completed-with-errors"@],
            RESTARTING@,
            spec_uptime(now),
        );
    let q = choose|q: Job| #[trigger]
        is_update(old, mid, id, q) && str_views(q.reasons@) == seq!["job-queued"@] && q == (Job {
            reasons: q.reasons,
            ..old.jobs@[id]
        });
    crate::engine::ops::lemma_reasons();
    crate::engine::ops::lemma_update_wf(old.jobs@, old.terminal_order@, old.next_id, id, q);
    lemma_ended_job(
        mid,
        new,
        id,
        JobState::Aborted,
        seq!["job-completed-with-errors"@],
        RESTARTING@,
        spec_uptime(now),
    );
}

// ------------------------------------------------------------------ lists

/// A list of jobs holds each job that it is of once, in the order of their ids, and no other.
pub proof fn lemma_lists_of_jobs(m: Map<u32, Job>, p: spec_fn(Job) -> bool)
    ensures
        forall|i: int, j: int| 0 <= i < j < jobs_where(m, p).len() ==> jobs_where(m, p)[i] < jobs_where(m, p)[j],
        forall|id: u32| #[trigger] jobs_where(m, p).contains(id) <==> m.contains_key(id) && p(m[id]),
{
    lemma_lists_ids(m);
    lemma_select(m, id_list(m), p);
}

/// The jobs that count against the limit are those that wait or are in work.
pub proof fn lemma_open_jobs(s: Store, id: u32)
    ensures
        jobs_where(s.jobs@, is_open()).contains(id) <==> s.jobs@.contains_key(id) && (s.jobs@[id].state
            == JobState::Pending || s.jobs@[id].state == JobState::Processing),
        s.queued() == jobs_where(s.jobs@, is_open()).len(),
{
    lemma_lists_of_jobs(s.jobs@, is_open());
}

/// The jobs that a user cancels together are that user's, not over, and among those named, where any are.
pub proof fn lemma_own_jobs(s: Store, user: Seq<char>, only: Seq<u32>, id: u32)
    requires
        s.wf(),
    ensures
        jobs_where(s.jobs@, is_mine(user, only)).contains(id) <==> s.jobs@.contains_key(id)
            && s.jobs@[id].opts.user@ == user && !s.jobs@[id].state.terminal() && (only.len() == 0
            || only.contains(id)),
{
    lemma_lists_of_jobs(s.jobs@, is_mine(user, only));
}

/// A job is over once it is cancelled, aborted or completed, and only then.
pub proof fn lemma_over(j: Job)
    ensures
        j.state.terminal() <==> j.state != JobState::Pending && j.state != JobState::Processing,
        j.state.terminal() <==> j.state.code() >= 7,
        j.state.code() == 3 <==> j.state == JobState::Pending,
        j.state.code() == 5 <==> j.state == JobState::Processing,
        j.state.code() == 7 <==> j.state == JobState::Canceled,
        j.state.code() == 8 <==> j.state == JobState::Aborted,
        j.state.code() == 9 <==> j.state == JobState::Completed,
{
}

// ------------------------------------------------------------------ keeping

/// With a hundred jobs that are over, the end of another one forgets the one that ended first, and no other.
pub proof fn lemma_hundred_are_kept(
    old: Store,
    new: Store,
    id: u32,
    state: JobState,
    reasons: Seq<Seq<char>>,
    message: Seq<char>,
    up: u32,
    k: u32,
)
    requires
        old.wf(),
        is_open_at(old, id),
        is_finished(old, new, id, state, reasons, message, up),
    ensures
        new.jobs@.contains_key(k) <==> old.jobs@.contains_key(k) && !(old.terminal_order@.len() == 100 && k
            == old.terminal_order@[0]),
        old.terminal_order@.len() < 100 ==> new.terminal_order@ == old.terminal_order@.push(id),
        old.terminal_order@.len() == 100 ==> new.terminal_order@ == old.terminal_order@.skip(1).push(id),
        old.terminal_order@.len() <= 100,
{
    let order = old.terminal_order@.push(id);
    if old.terminal_order@.len() == 100 {
        assert(order[0] == old.terminal_order@[0]);
        assert(old.terminal_order@.contains(order[0]));
        assert(order.skip(1) =~= old.terminal_order@.skip(1).push(id));
    }
}

/// A preview is kept exactly where fewer than five later jobs have one.
pub proof fn lemma_five_previews(m: Map<u32, Job>, k: int)
    requires
        0 <= k < jobs_where(m, has_preview()).len(),
    ensures
        ({
            let l = jobs_where(m, has_preview());
            thinned(m)[l[k]].preview is Some <==> l.len() - 1 - k < 5
        }),
{
    let l = jobs_where(m, has_preview());
    lemma_lists_of_jobs(m, has_preview());
    assert(l.contains(l[k]));
    let gone = crate::engine::store::old_previews(m);
    if l.len() > 5 && k < l.len() - 5 {
        assert(gone[k] == l[k]);
        assert(gone.contains(l[k]));
    } else if gone.contains(l[k]) {
        let i = choose|i: int| 0 <= i < gone.len() && gone[i] == l[k];
        assert(l[i] == l[k]);
    }
}

// ------------------------------------------------------------------ time

/// A failure leaves the health page when it has stood there longer than it may and no job is in work; before, time
/// changes nothing of what the printer shows.
pub proof fn lemma_failures_fade(old: Store, new: Store, now: Now)
    requires
        is_ticked(old, new, now),
    ensures
        old.view.sticky_since matches Some(t) && now.ms > t + old.cfg.error_ttl_ms && old.view.current is None
            ==> new.view.sticky_since is None && new.view.sticky_reasons@.len() == 0 && new.view.message@.len()
            == 0 && new.view.state == PrinterState::Idle,
        old.view.sticky_since matches Some(t) && now.ms <= t + old.cfg.error_ttl_ms ==> new.view == old.view,
        old.view.sticky_since is None || old.view.current is Some ==> new.view == old.view,
{
    if old.sticky_over(now) {
        assert(str_views(new.view.sticky_reasons@).len() == 0);
    }
}

/// Uptime is the whole seconds that passed, but never less than one.
pub proof fn lemma_uptime(now: Now)
    requires
        now.ms <= 1000 * 0xffff_ffff,
    ensures
        spec_uptime(now) >= 1,
        now.ms >= 1000 ==> 1000 * spec_uptime(now) <= now.ms < 1000 * (spec_uptime(now) + 1),
{
}

/// Ids begin at the seconds since 2025, at one before that, and never below the number that was kept.
pub proof fn lemma_first_ids(unix: int, kept: Option<nat>)
    ensures
        kept matches Some(k) ==> spec_initial_job_id(unix, kept) >= k,
        spec_initial_job_id(unix, kept) >= 1,
        kept is None && 1_735_689_601 <= unix <= 1_735_689_600 + 0x3fff_ffff ==> spec_initial_job_id(unix, kept)
            == unix - 1_735_689_600,
        kept is None && unix <= 1_735_689_601 ==> spec_initial_job_id(unix, kept) == 1,
        kept is None ==> spec_initial_job_id(unix, kept) <= 0x3fff_ffff,
{
}

// ------------------------------------------------------------------ health

/// The reasons on the health page are the printer's and those of the last failure, each once.
pub proof fn lemma_reasons_are_merged(a: Seq<Seq<char>>, b: Seq<Seq<char>>, w: Seq<char>)
    ensures
        merged(a, b).contains(w) <==> a.contains(w) || b.contains(w),
        merged(a, b).len() >= a.len(),
        merged(a, b).take(a.len() as int) == a,
        a.no_duplicates() ==> merged(a, b).no_duplicates(),
    decreases b.len(),
{
    if b.len() == 0 {
        assert(a.take(a.len() as int) =~= a);
    } else {
        let rest = b.drop_last();
        lemma_reasons_are_merged(a, rest, w);
        lemma_reasons_are_merged(a, rest, b.last());
        let m = merged(a, rest);
        assert(b.contains(w) <==> rest.contains(w) || w == b.last()) by {
            if b.contains(w) {
                let i = choose|i: int| 0 <= i < b.len() && b[i] == w;
                if i < rest.len() {
                    assert(rest[i] == w);
                }
            }
            if rest.contains(w) {
                let i = choose|i: int| 0 <= i < rest.len() && rest[i] == w;
                assert(b[i] == w);
            }
            assert(b[b.len() - 1] == b.last());
        }
        if !m.contains(b.last()) {
            let n = m.push(b.last());
            assert(n.take(a.len() as int) =~= m.take(a.len() as int));
            assert(n.contains(w) <==> m.contains(w) || w == b.last()) by {
                if m.contains(w) {
                    let i = choose|i: int| 0 <= i < m.len() && m[i] == w;
                    assert(n[i] == w);
                }
                assert(n[m.len() as int] == b.last());
                if n.contains(w) {
                    let i = choose|i: int| 0 <= i < n.len() && n[i] == w;
                    if i < m.len() {
                        assert(m[i] == w);
                    }
                }
            }
        }
    }
}

/// The last job of the health page is the one with the greatest id of those that are over.
pub proof fn lemma_last_job(s: Store, h: Health, now: Now, id: u32)
    requires
        s.wf(),
        s.is_health(h, now),
        s.jobs@.contains_key(id),
        s.jobs@[id].state.terminal(),
    ensures
        h.last_job matches Some(l) && {
            &&& l.id >= id
            &&& s.jobs@.contains_key(l.id)
            &&& s.jobs@[l.id].state.terminal()
            &&& l.message@ == s.jobs@[l.id].message@
            &&& l.name@ == s.jobs@[l.id].opts.job_name@
            &&& l.state == spec_state_name(s.jobs@[l.id].state)
        },
{
    let l = jobs_where(s.jobs@, is_over());
    lemma_lists_of_jobs(s.jobs@, is_over());
    assert(l.contains(id));
    let k = choose|k: int| 0 <= k < l.len() && l[k] == id;
    assert(l.contains(l.last()));
    assert(k < l.len() - 1 ==> l[k] < l[l.len() - 1]);
}

/// Time aborts a job exactly where it still waits for its document and its client did nothing for it for longer than
/// it may.
pub proof fn lemma_silent_clients(old: Store, new: Store, now: Now, id: u32)
    requires
        old.wf(),
        is_ticked(old, new, now),
        new.jobs@.contains_key(id),
    ensures
        old.jobs@.contains_key(id),
        ({
            let j = old.jobs@[id];
            let silent = j.awaiting_document && (j.state == JobState::Pending || j.state == JobState::Processing)
                && now.ms > j.last_activity_ms + old.cfg.stale_document_ms;
            &&& silent ==> new.jobs@[id].state == JobState::Aborted && new.jobs@[id].message@
                == "No document was sent for this job"@
            &&& !silent ==> new.jobs@[id] == (Job { preview: new.jobs@[id].preview, ..j })
        }),
{
    let quiet = crate::engine::store::is_stale(now.ms as int, old.cfg.stale_document_ms as int);
    lemma_lists_of_jobs(old.jobs@, quiet);
    assert(jobs_where(old.jobs@, quiet).contains(id) <==> old.jobs@.contains_key(id) && quiet(old.jobs@[id]));
}

/// How the engine works where nothing else is asked for: it waits two minutes for the printer and for documents, as
/// long as it tells its clients; it takes ten copies, sixteen jobs and documents of 64 MiB.
pub proof fn lemma_usual_settings(c: EngineConfig)
    requires
        is_usual(c),
    ensures
        c.printer_wait_ms == 2 * 60 * 1000,
        c.stale_document_ms == 1000 * 120,
        c.max_copies == 10,
        c.queue_max == 16,
        c.max_document_bytes == 64 * 1024 * 1024,
        c.shutdown_grace_ms == 15 * 1000,
        c.error_ttl_ms == 10 * 60 * 1000,
        c.attempt_cap_ms == 15 * 60 * 1000,
        c.coop_grace_ms == 5 * 1000,
        c.render.width_px == 384,
        c.render.rotate_180,
        c.render.max_lines_total == 8000,
        c.limits.max_pages == 32,
        c.state_dir is None,
{
}

} // verus!
