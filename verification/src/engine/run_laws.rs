//! What becomes of a job, attempt by attempt, as a client sees it.

use vstd::prelude::*;

use crate::engine::ops::{is_open_at, is_update};
use crate::engine::run::{
    attempt_result, can_start, is_aborted, is_failed, is_prepared, is_marked_printed, is_printed, is_start, is_started, is_stopped, end_text,
    job_reason, progress_text, spec_shutdown_delay, stopped_by_service, with_view, AttemptEnd, CutShort, JobRun, JobStart,
    RunStep, RESTARTED, TOO_LONG,
};
use crate::engine::store::{forgotten, is_ended, is_finished, kept, thinned, Store};
use crate::engine::{
    spec_uptime, str_views, DocFormat, Job, JobState, Now, PrinterState, PrinterView, KEEP_TERMINAL,
};
use crate::engine::prep::is_decoded;
use crate::printer::{Condition, Phase, PrintError, PrintReport, Progress};
use crate::raster::pages::{page_views, spec_decode};
use crate::raster::{GrayPage, Limits};
use crate::render::{Layout, Preset};
use crate::text::dec;

verus! {

// ------------------------------------------------------------------ trying again

/// The run goes on after a pause; its job stays open and unchanged, but for what it says.
pub open spec fn goes_on(run: JobRun, old: Store, new: Store, r: RunStep) -> bool {
    &&& r is Pause
    &&& is_open_at(old, run.id) ==> is_open_at(new, run.id) && new.jobs@[run.id] == (Job {
        message: new.jobs@[run.id].message,
        ..old.jobs@[run.id]
    })
    &&& new.view.state == PrinterState::Processing
}

/// A condition that someone can mend (paper, heat, battery: any key but "other", and none at all) is waited
/// for: before the printer wait is over, and unless the service stops, the job is tried again.
pub proof fn lemma_mendable_conditions_are_waited_for(
    run: JobRun,
    old: Store,
    new: Store,
    c: Condition,
    now: Now,
    r: RunStep,
)
    requires
        match c.error {
            Some(key) => key@ != "other"@,
            None => true,
        },
        run.started_ms <= now.ms,
        now.ms < run.started_ms + old.cfg.printer_wait_ms,
        run.steps(old, new, AttemptEnd::Finished(Err(PrintError::Condition(c))), false, now, r),
    ensures
        goes_on(run, old, new, r),
{
}

/// A condition of the kind "other" ends the run at once.
pub proof fn lemma_other_conditions_end(
    run: JobRun,
    old: Store,
    new: Store,
    c: Condition,
    shutdown: bool,
    now: Now,
    r: RunStep,
)
    requires
        c.error is Some,
        (c.error->0)@ == "other"@,
        run.steps(old, new, AttemptEnd::Finished(Err(PrintError::Condition(c))), shutdown, now, r),
    ensures
        r == RunStep::Over(Err(PrintError::Condition(c))),
{
}

/// A printer that is off or out of reach, and a link that breaks down, are waited for.
pub proof fn lemma_unreachable_printers_are_waited_for(
    run: JobRun,
    old: Store,
    new: Store,
    e: PrintError,
    now: Now,
    r: RunStep,
)
    requires
        e is NoBluetoothd || e is AdapterOff || e is NotFound || e is ConnectFailed || e is MtuTooSmall || e
            is NoAnswer || e is LinkLost || e is Timeout || e is Bus,
        run.started_ms <= now.ms,
        now.ms < run.started_ms + old.cfg.printer_wait_ms,
        run.steps(old, new, AttemptEnd::Finished(Err(e)), false, now, r),
    ensures
        goes_on(run, old, new, r),
{
}

/// What waiting cannot mend ends the run at once: a document that cannot be rendered, a refusal, a device that
/// is no cat printer, a setting of the computer, an I/O error, a cancellation.
pub proof fn lemma_hopeless_errors_end(
    run: JobRun,
    old: Store,
    new: Store,
    e: PrintError,
    shutdown: bool,
    now: Now,
    r: RunStep,
)
    requires
        e is Render || e is Rejected || e is NotCatPrinter || e is NeedExperimental || e is Io || e
            is Cancelled,
        run.steps(old, new, AttemptEnd::Finished(Err(e)), shutdown, now, r),
    ensures
        r == RunStep::Over(Err(e)),
{
}

/// Nothing is tried again once the wait is over or the service stops.
pub proof fn lemma_runs_end(
    run: JobRun,
    old: Store,
    new: Store,
    end: AttemptEnd,
    shutdown: bool,
    now: Now,
    r: RunStep,
)
    requires
        run.steps(old, new, end, shutdown, now, r),
        shutdown || now.ms >= run.started_ms + old.cfg.printer_wait_ms,
    ensures
        r is Over,
        r == RunStep::Over(attempt_result(end)),
{
}

/// Pauses last three seconds after the first attempt, then five, ten, and fifteen from the fourth on.
pub proof fn lemma_pauses(
    run: JobRun,
    old: Store,
    new: Store,
    end: AttemptEnd,
    shutdown: bool,
    now: Now,
    r: RunStep,
)
    requires
        run.steps(old, new, end, shutdown, now, r),
        r is Pause,
    ensures
        run.attempt <= 1 ==> r->secs == 3,
        run.attempt == 2 ==> r->secs == 5,
        run.attempt == 3 ==> r->secs == 10,
        run.attempt >= 4 ==> r->secs == 15,
{
}

/// A print that succeeds ends the run with its report, however late; an attempt that was cut short without an
/// answer is a timeout where it took too long, and a cancellation elsewhere; what the driver reports on its way
/// out stands.
pub proof fn lemma_cut_attempts(why: CutShort, rep: PrintReport, e: PrintError)
    ensures
        attempt_result(AttemptEnd::Finished(Ok(rep))) == Ok::<PrintReport, PrintError>(rep),
        attempt_result(AttemptEnd::Finished(Err(e))) == Err::<PrintReport, PrintError>(e),
        attempt_result(AttemptEnd::Cut { why, stopped: Some(Ok(rep)) }) == Ok::<PrintReport, PrintError>(rep),
        !(e is Cancelled) ==> attempt_result(AttemptEnd::Cut { why, stopped: Some(Err(e)) }) == Err::<
            PrintReport,
            PrintError,
        >(e),
        attempt_result(AttemptEnd::Cut { why, stopped: None }) == attempt_result(
            AttemptEnd::Cut { why, stopped: Some(Err(PrintError::Cancelled)) },
        ),
        why == CutShort::Capped ==> attempt_result(AttemptEnd::Cut { why, stopped: None }) == Err::<
            PrintReport,
            PrintError,
        >(PrintError::Timeout(TOO_LONG)),
        why != CutShort::Capped ==> attempt_result(AttemptEnd::Cut { why, stopped: None }) == Err::<
            PrintReport,
            PrintError,
        >(PrintError::Cancelled),
{
}

/// An attempt that failed and one that is tried again say the same first; the one that is tried again adds how
/// long it has waited, in whole seconds.
pub proof fn lemma_waiting_is_told(
    run: JobRun,
    old: Store,
    new: Store,
    e: PrintError,
    shutdown: bool,
    now: Now,
    r: RunStep,
)
    requires
        !(e is Cancelled),
        run.started_ms <= now.ms,
        run.steps(old, new, AttemptEnd::Finished(Err(e)), shutdown, now, r),
    ensures
        r is Over ==> new.view.message@ == e.text(),
        r is Pause ==> new.view.message@ == e.text() + (" (waited "@ + dec(
            ((now.ms - run.started_ms) / 1000) as nat,
        ) + " s of "@ + dec((old.cfg.printer_wait_ms / 1000) as nat) + " s)"@),
        is_open_at(old, run.id) ==> new.jobs@[run.id].message@ == new.view.message@,
{
    let text = old.failure_text(e, run.started_ms, shutdown, now);
    assert(new.view.message@ == text);
    if r is Pause {
        assert(text =~= e.text() + (" (waited "@ + dec(((now.ms - run.started_ms) / 1000) as nat) + " s of "@
            + dec((old.cfg.printer_wait_ms / 1000) as nat) + " s)"@));
    }
}

/// What the printer's state says of an error: paper that is out, heat, a weak battery and a printer that is not
/// reached each under a word of their own; nothing of a cancellation or of a bad document.
pub proof fn lemma_what_errors_say(e: PrintError)
    ensures
        ({
            let words = str_views(e.reasons());
            &&& words.contains("connecting-to-device"@) <==> e is NotFound || e is ConnectFailed || e
                is NoBluetoothd || e is AdapterOff
            &&& words.contains("media-empty-error"@) <==> (e matches PrintError::Condition(c) && c.error is Some
                && (c.error->0)@ == "no-paper"@)
            &&& words.contains("media-needed"@) <==> words.contains("media-empty-error"@)
            &&& words.contains("fuser-over-temp-warning"@) <==> (e matches PrintError::Condition(c) && c.error
                is Some && (c.error->0)@ == "overheated"@)
            &&& words.contains("other-warning"@) <==> (e matches PrintError::Condition(c) && c.error is Some && (
            c.error->0)@ == "low-battery"@)
            &&& words.len() == 0 <==> e is Cancelled || e is Render
        }),
{
    reveal_strlit("connecting-to-device");
    reveal_strlit("media-empty-error");
    reveal_strlit("media-needed");
    reveal_strlit("fuser-over-temp-warning");
    reveal_strlit("other-warning");
    reveal_strlit("other-error");
    reveal_strlit("no-paper");
    reveal_strlit("overheated");
    reveal_strlit("low-battery");
    assert("connecting-to-device"@.len() == 20);
    assert("media-empty-error"@.len() == 17);
    assert("media-needed"@.len() == 12);
    assert("fuser-over-temp-warning"@.len() == 23);
    assert("other-warning"@.len() == 13);
    assert("other-error"@.len() == 11);
    assert("no-paper"@.len() == 8);
    assert("overheated"@.len() == 10);
    assert("low-battery"@.len() == 11);
    let words = str_views(e.reasons());
    assert(words.len() == e.reasons().len());
    assert forall|i: int| 0 <= i < words.len() implies #[trigger] words[i] == e.reasons()[i]@ by {}
    if words.len() > 0 {
        let w = words[0];
        assert(words.contains(words[0]));
    }
    if words.len() > 1 {
        assert(words.contains(words[1]));
    }
    assert(words.len() <= 2);
}

// ------------------------------------------------------------------ the end

/// A job that ends is still known right after its end, in the state that it ended in, without its document.
pub proof fn lemma_ended_job(
    old: Store,
    new: Store,
    id: u32,
    state: JobState,
    reasons: Seq<Seq<char>>,
    message: Seq<char>,
    up: u32,
)
    requires
        old.wf(),
        is_open_at(old, id),
        is_finished(old, new, id, state, reasons, message, up),
    ensures
        new.jobs@.contains_key(id),
        new.jobs@[id].state == state,
        str_views(new.jobs@[id].reasons@) == reasons,
        new.jobs@[id].message@ == message,
        new.jobs@[id].completed_uptime == Some(up),
        new.jobs@[id].doc is None,
        new.jobs@[id].id == old.jobs@[id].id,
        new.jobs@[id].opts == old.jobs@[id].opts,
        new.jobs@[id].impressions == old.jobs@[id].impressions,
        new.jobs@[id].impressions_completed == old.jobs@[id].impressions_completed,
        new.jobs@[id].model == old.jobs@[id].model,
        new.terminal_order@.last() == id,
        new.view == old.view,
{
    let order = old.terminal_order@.push(id);
    let m = old.jobs@;
    let j = choose|j: Job|
        {
            &&& is_ended(m[id], j, state, reasons, message, up)
            &&& new.jobs@ == thinned(forgotten(#[trigger] m.insert(id, j), order))
            &&& new.terminal_order@ == kept(order)
        };
    if order.len() > KEEP_TERMINAL {
        assert(order[0] == old.terminal_order@[0]);
        assert(old.terminal_order@.contains(order[0]));
    }
    assert(forgotten(m.insert(id, j), order).contains_key(id));
}

/// A printed job is completed with all its impressions done and the printer's model noted; the printer is idle,
/// without a word of an earlier failure.
pub proof fn lemma_printed_job(old: Store, new: Store, id: u32, rep: PrintReport, now: Now)
    requires
        old.wf(),
        is_open_at(old, id),
        is_printed(old, new, id, rep, now),
    ensures
        new.jobs@.contains_key(id),
        new.jobs@[id].state == JobState::Completed,
        str_views(new.jobs@[id].reasons@) == seq!["job-completed-successfully"@],
        new.jobs@[id].impressions_completed == old.jobs@[id].impressions,
        new.jobs@[id].model is Some && (new.jobs@[id].model->0)@ == rep.model@,
        new.view.last_model is Some && (new.view.last_model->0)@ == rep.model@,
        rep.battery is Some ==> new.view.battery == rep.battery,
        rep.battery is None ==> new.view.battery == old.view.battery,
        new.view.state == PrinterState::Idle,
        new.view.reasons@.len() == 0,
        new.view.sticky_reasons@.len() == 0,
        new.view.sticky_since is None,
        new.view.message@.len() == 0,
        new.view.current is None,
{
    let (mid, fin) = choose|mid: Store, fin: Store|
        {
            &&& #[trigger] is_marked_printed(old, mid, id, rep)
            &&& #[trigger] is_finished(
                mid,
                fin,
                id,
                JobState::Completed,
                seq!["job-completed-successfully"@],
                Seq::empty(),
                spec_uptime(now),
            )
            &&& new == (Store { view: new.view, ..fin })
        };
    let q = choose|q: Job| #[trigger]
        is_update(old, mid, id, q) && q.model is Some && (q.model->0)@ == rep.model@ && q == (Job {
            impressions_completed: old.jobs@[id].impressions,
            model: q.model,
            ..old.jobs@[id]
        });
    crate::engine::ops::lemma_note_wf(old.jobs@, old.terminal_order@, old.next_id, id, q);
    lemma_ended_job(
        mid,
        fin,
        id,
        JobState::Completed,
        seq!["job-completed-successfully"@],
        Seq::empty(),
        spec_uptime(now),
    );
    assert(str_views(new.view.reasons@).len() == 0);
    assert(str_views(new.view.sticky_reasons@).len() == 0);
}

/// A job that failed is aborted, never completed or cancelled. Where no printer was reached it says that the
/// service is off line, where the document was at fault that, and else that there were errors. The printer is
/// idle again, and keeps what happened on its health page, unless the document was at fault.
pub proof fn lemma_failed_job(old: Store, new: Store, id: u32, e: PrintError, now: Now)
    requires
        old.wf(),
        is_open_at(old, id),
        is_failed(old, new, id, e, now),
    ensures
        new.jobs@.contains_key(id),
        new.jobs@[id].state == JobState::Aborted,
        str_views(new.jobs@[id].reasons@) == if e is NotFound || e is ConnectFailed || e is NoBluetoothd || e
            is AdapterOff {
            seq!["service-off-line"@]
        } else if e is Render {
            seq!["document-format-error"@]
        } else {
            seq!["job-completed-with-errors"@]
        },
        !(e is NotFound) && !(e is ConnectFailed) ==> new.jobs@[id].message@ == e.text(),
        new.jobs@[id].impressions_completed == old.jobs@[id].impressions_completed,
        new.view.state == PrinterState::Idle,
        new.view.reasons@.len() == 0,
        new.view.current is None,
        e is Render ==> new.view.sticky_since is None && new.view.sticky_reasons@.len() == 0
            && new.view.message@.len() == 0,
        !(e is Render) ==> new.view.sticky_since == Some(now.ms) && new.view.message@
            == new.jobs@[id].message@,
        str_views(new.view.sticky_reasons@) == if e is NotFound || e is ConnectFailed || e is NoBluetoothd || e
            is AdapterOff {
            seq!["offline-report"@]
        } else if e is Render {
            Seq::empty()
        } else if e matches PrintError::Condition(c) && c.error is Some && (c.error->0)@ == "no-paper"@ {
            seq!["media-empty-error"@]
        } else {
            seq!["other-error"@]
        },
{
    let text = end_text(e, id, old.cfg.printer_wait_ms);
    let fin = choose|fin: Store|
        {
            &&& #[trigger] is_finished(
                old,
                fin,
                id,
                JobState::Aborted,
                seq![job_reason(e)],
                text,
                spec_uptime(now),
            )
            &&& new == (Store { view: new.view, ..fin })
        };
    lemma_ended_job(old, fin, id, JobState::Aborted, seq![job_reason(e)], text, spec_uptime(now));
    assert(str_views(new.view.reasons@).len() == 0);
    assert(str_views(new.view.sticky_reasons@).len() == new.view.sticky_reasons@.len());
}

/// How long the printer was looked for is told in minutes: the fewest that are not less than the wait's whole
/// seconds.
pub proof fn lemma_wait_in_minutes(ms: u64)
    ensures
        60 * crate::engine::run::minutes_of(ms) >= ms / 1000,
        60 * (crate::engine::run::minutes_of(ms) - 1) < ms / 1000,
{
}

/// A run that a client cancelled leaves its job cancelled. One that the service cut short leaves it aborted,
/// asking for the job to be printed again; a client's cancellation counts for more than a stop that did not cut
/// the run short.
pub proof fn lemma_stopped_job(
    old: Store,
    new: Store,
    id: u32,
    by_shutdown: bool,
    shutdown: bool,
    now: Now,
)
    requires
        old.wf(),
        is_open_at(old, id),
        is_stopped(old, new, id, by_shutdown, shutdown, now),
    ensures
        new.jobs@.contains_key(id),
        !by_shutdown && (!shutdown || old.jobs@[id].cancel) ==> new.jobs@[id].state == JobState::Canceled
            && str_views(new.jobs@[id].reasons@) == seq!["job-canceled-by-user"@] && new.jobs@[id].message@
            == "Canceled"@,
        by_shutdown || (shutdown && !old.jobs@[id].cancel) ==> new.jobs@[id].state == JobState::Aborted
            && str_views(new.jobs@[id].reasons@) == seq!["job-completed-with-errors"@]
            && new.jobs@[id].message@ == RESTARTED@,
        new.view.state == PrinterState::Idle,
        new.view.current is None,
{
    let service = stopped_by_service(old, id, by_shutdown, shutdown);
    let fin = choose|fin: Store|
        {
            &&& if service {
                is_finished(
                    old,
                    fin,
                    id,
                    JobState::Aborted,
                    seq!["job-completed-with-errors"@],
                    RESTARTED@,
                    spec_uptime(now),
                )
            } else {
                is_finished(
                    old,
                    fin,
                    id,
                    JobState::Canceled,
                    seq!["job-canceled-by-user"@],
                    "Canceled"@,
                    spec_uptime(now),
                )
            }
            &&& new == (#[trigger] with_view(fin, new.view))
        };
    if service {
        lemma_ended_job(
            old,
            fin,
            id,
            JobState::Aborted,
            seq!["job-completed-with-errors"@],
            RESTARTED@,
            spec_uptime(now),
        );
    } else {
        lemma_ended_job(
            old,
            fin,
            id,
            JobState::Canceled,
            seq!["job-canceled-by-user"@],
            "Canceled"@,
            spec_uptime(now),
        );
    }
}

/// A job that is taken up hands over its whole document, under its own name and with the copies that were asked
/// for; the store shows it in work and keeps no second copy of the document.
pub proof fn lemma_taken_job(st: JobStart, old: Store, new: Store, id: u32, now: Now)
    requires
        old.wf(),
        is_open_at(old, id),
        is_start(st, old, id),
        is_started(old, new, id, now),
    ensures
        old.jobs@[id].doc matches Some(d) ==> st.doc@ == d@,
        st.format == old.jobs@[id].format,
        st.name@ == old.jobs@[id].opts.job_name@,
        old.jobs@[id].opts.copies >= 1 ==> st.copies == old.jobs@[id].opts.copies,
        st.copies >= 1,
        new.jobs@[id].state == JobState::Processing,
        new.jobs@[id].doc is None,
        new.jobs@[id].processing_uptime == Some(spec_uptime(now)),
        str_views(new.jobs@[id].reasons@) == seq!["job-printing"@],
        new.view.current == Some(id),
        new.view.state == PrinterState::Processing,
        new.view.sticky_since is None,
        forall|k: u32| #[trigger]
            new.jobs@.contains_key(k) <==> old.jobs@.contains_key(k),
        forall|k: u32| #[trigger] old.jobs@.contains_key(k) && k != id ==> new.jobs@[k] == old.jobs@[k],
{
    let q = choose|q: Job| #[trigger]
        old.jobs@.insert(id, q) == new.jobs@ && str_views(q.reasons@) == seq!["job-printing"@] && q == (Job {
            state: JobState::Processing,
            reasons: q.reasons,
            processing_uptime: Some(spec_uptime(now)),
            doc: None,
            ..old.jobs@[id]
        });
    assert(new.jobs@[id] == q);
}

/// The impressions done grow with the percentage, from none to all.
pub proof fn lemma_impressions_done(impressions: u32, p: u8, q: u8)
    requires
        p <= q <= 100,
    ensures
        crate::engine::run::impressions_at(impressions, 0) == 0,
        crate::engine::run::impressions_at(impressions, 100) == impressions,
        crate::engine::run::impressions_at(impressions, p) <= crate::engine::run::impressions_at(impressions, q)
            <= impressions,
        crate::engine::run::impressions_at(impressions, p) * 100 <= impressions * p,
        (crate::engine::run::impressions_at(impressions, p) + 1) * 100 > impressions * p,
{
    assert(impressions * p <= impressions * q <= impressions * 100) by (nonlinear_arith)
        requires
            p <= q <= 100,
            impressions >= 0,
    ;
    assert(impressions * p >= 0) by (nonlinear_arith);
    assert(impressions * 0 == 0);
}

/// A job that could not be rendered is aborted for that reason, with what was wrong; the printer is idle.
pub proof fn lemma_aborted_job(old: Store, new: Store, id: u32, reason: Seq<char>, message: Seq<char>, now: Now)
    requires
        old.wf(),
        is_open_at(old, id),
        is_aborted(old, new, id, reason, message, now),
    ensures
        new.jobs@.contains_key(id),
        new.jobs@[id].state == JobState::Aborted,
        str_views(new.jobs@[id].reasons@) == seq![reason],
        new.jobs@[id].message@ == message,
        new.view.current is None,
        new.view.state == PrinterState::Idle,
        new.view.message@.len() == 0,
{
    let mid = choose|mid: Store|
        {
            &&& #[trigger] is_finished(
                old,
                mid,
                id,
                JobState::Aborted,
                seq![reason],
                message,
                spec_uptime(now),
            )
            &&& new == (Store { view: new.view, ..mid })
            &&& new.is_idle_after(old.view, now, Seq::empty())
        };
    lemma_ended_job(old, mid, id, JobState::Aborted, seq![reason], message, spec_uptime(now));
}

/// While a job prints, its number and how much of it is done are shown; before and after, what the driver says.
pub proof fn lemma_progress_is_shown(id: u32, p: Progress)
    ensures
        p.phase == Phase::Printing ==> progress_text(id, p) == "Printing job "@ + dec(id as nat) + " — "@ + dec(
            p.percent as nat,
        ) + "%"@,
        p.phase != Phase::Printing ==> progress_text(id, p) == p.message@,
{
}

/// A job is begun where it waits or is in work, nobody cancelled it and the service goes on.
pub proof fn lemma_begun_jobs(s: Store, id: u32, shutdown: bool)
    ensures
        can_start(s, id, shutdown) <==> s.jobs@.contains_key(id) && (s.jobs@[id].state == JobState::Pending
            || s.jobs@[id].state == JobState::Processing) && !s.jobs@[id].cancel && !shutdown,
{
}

/// A raster is decoded page by page and an image to one page; anything else is refused.
pub proof fn lemma_decoded_documents(
    r: Result<Vec<GrayPage>, String>,
    doc: Seq<u8>,
    format: DocFormat,
    limits: Limits,
)
    requires
        is_decoded(r, doc, format, limits),
    ensures
        format == DocFormat::PwgRaster ==> (r is Ok <==> spec_decode(doc, limits) is Ok),
        format == DocFormat::PwgRaster && r is Ok ==> (r->Ok_0)@.len() == (spec_decode(doc, limits)->Ok_0).len(),
        format == DocFormat::Image && r is Ok ==> (r->Ok_0)@.len() == 1,
        format == DocFormat::Unknown ==> r is Err,
{
    if format == DocFormat::PwgRaster && r is Ok {
        assert(page_views((r->Ok_0)@).len() == (r->Ok_0)@.len());
    }
}

/// When the service stops, a job whose paper is not touched yet is cut short at once; one that prints gets its time.
pub proof fn lemma_stopping(phase: Phase, grace_ms: u64)
    ensures
        phase == Phase::Searching || phase == Phase::Connecting || phase == Phase::Preparing ==> spec_shutdown_delay(
            phase,
            grace_ms,
        ) == 0,
        phase == Phase::Printing || phase == Phase::Finishing ==> spec_shutdown_delay(phase, grace_ms) == grace_ms,
{
}

/// A job makes as many impressions as it has pages, for each copy; what it looks like is kept with it.
pub proof fn lemma_prepared_job(old: Store, new: Store, id: u32, pages: u32, preview: GrayPage)
    requires
        is_prepared(old, new, id, pages, preview),
        old.jobs@.contains_key(id),
        1 <= pages,
        1 <= old.jobs@[id].opts.copies,
        pages * old.jobs@[id].opts.copies <= u32::MAX,
    ensures
        new.jobs@[id].impressions == pages * old.jobs@[id].opts.copies,
        new.jobs@[id].preview == Some(preview),
        new.jobs@[id].state == old.jobs@[id].state,
        new.jobs@[id].impressions_completed == old.jobs@[id].impressions_completed,
        forall|k: u32| #[trigger] old.jobs@.contains_key(k) && k != id ==> new.jobs@[k] == old.jobs@[k],
{
    assert(pages * old.jobs@[id].opts.copies >= 0) by (nonlinear_arith);
}

/// A job is rendered as it asks for: an image as tape, a raster by its media; in the style of its quality.
pub proof fn lemma_rendered_as_asked(st: JobStart, s: Store, id: u32)
    requires
        is_start(st, s, id),
    ensures
        s.jobs@[id].format == DocFormat::Image ==> st.render.layout == Layout::Tape,
        s.jobs@[id].format == DocFormat::PwgRaster && s.jobs@[id].opts.media is None ==> st.render.layout
            == Layout::Auto,
        s.jobs@[id].opts.print_quality == 3 ==> st.render.preset == Preset::Text,
        s.jobs@[id].opts.print_quality == 5 ==> st.render.preset == Preset::Picture,
        st.render.rotate_180 == s.cfg.render.rotate_180,
        st.render.max_lines_total == s.cfg.render.max_lines_total,
        st.render.page_gap_lines == s.cfg.render.page_gap_lines,
{
}

/// The time of the last change moves exactly where what the printer shows changes.
pub proof fn lemma_changes_are_dated(
    old: PrinterView,
    new: PrinterView,
    now: Now,
    state: PrinterState,
    reasons: Seq<Seq<char>>,
    message: Seq<char>,
)
    requires
        old.is_set(new, now, state, reasons, message),
    ensures
        new.state == state,
        str_views(new.reasons@) == reasons,
        new.message@ == message,
        old.state == state && str_views(old.reasons@) == reasons && old.message@ == message ==> new == old,
        old.state != state || str_views(old.reasons@) != reasons || old.message@ != message ==> new.state_changed_at
            == now.unix && new.state_changed_uptime == spec_uptime(now),
        new.accepting == old.accepting && new.battery == old.battery && new.current == old.current
            && new.sticky_since == old.sticky_since,
{
}

/// A job that was given up for want of a printer says for how many minutes it was looked for, and which job it was.
pub proof fn lemma_given_up(id: u32, wait_ms: u64, e: PrintError)
    requires
        e is NotFound || e is ConnectFailed,
    ensures
        end_text(e, id, wait_ms) == "Cat printer not found for "@ + dec(
            ((wait_ms / 1000 + 59) / 60) as nat,
        ) + " min — job "@ + dec(id as nat) + " stopped. Turn it on and print again."@,
{
}

} // verus!
