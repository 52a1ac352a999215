use catprinterd::engine::front::queue_capacity;
use catprinterd::engine::prep::prepare_document;
use catprinterd::engine::run::{
    resolve_attempt, shutdown_delay_ms, AttemptEnd, CutShort, JobRun, PauseEnd, RunStep,
};
use catprinterd::engine::{
    initial_job_id, next_id_text, uptime, CancelOutcome, DocFormat, Engine, EngineConfig, JobState, Now,
    PrinterState, SubmitError, Work, KEEP_PREVIEWS, KEEP_TERMINAL,
};
use catprinterd::ipp::options::JobOptions;
use catprinterd::printer::{Condition, Phase, PrintError, PrintReport, Progress};
use catprinterd::raster::{GrayPage, Limits};
use catprinterd::render::RenderOptions;

fn at(ms: u64) -> Now {
    Now { ms, unix: 1_800_000_000 + (ms / 1000) as i64 }
}

fn cfg() -> EngineConfig {
    EngineConfig {
        printer_wait_ms: 1000,
        shutdown_grace_ms: 300,
        stale_document_ms: 200,
        error_ttl_ms: 300,
        coop_grace_ms: 2000,
        ..EngineConfig::default()
    }
}

fn engine(cfg: EngineConfig) -> Engine {
    Engine::start(cfg, 1, 1_800_000_000)
}

fn opts(name: &str) -> JobOptions {
    JobOptions { job_name: name.into(), user: "kid".into(), ..JobOptions::default() }
}

fn raster() -> Vec<u8> {
    b"RaS2 some raster".to_vec()
}

fn report() -> PrintReport {
    PrintReport {
        model: "MXW01 (fake)".into(),
        family: None,
        lines: 100,
        segments: 1,
        copies: 1,
        complete_confirmed: true,
        mtu: Some(200),
        battery: Some(77),
        elapsed_ms: 5,
    }
}

fn submit(e: &mut Engine, name: &str, ms: u64) -> u32 {
    let (r, work) = e.create_job(opts(name), Some(raster()), true, at(ms));
    let id = r.unwrap();
    assert_eq!(work, Some(Work::Print(id)));
    id
}

fn preview() -> GrayPage {
    GrayPage::new_white(2, 2, 203)
}

#[test]
fn print_job_completes() {
    let mut e = engine(cfg());
    let id = submit(&mut e, "hello", 0);
    assert_eq!(e.store.jobs[&id].state, JobState::Pending);
    assert_eq!(e.store.jobs[&id].reasons, vec!["job-queued"]);
    let start = e.store.take(id, false, at(10)).unwrap();
    assert_eq!(start.doc, raster());
    assert_eq!(start.format, DocFormat::PwgRaster);
    assert_eq!(start.copies, 1);
    assert_eq!(start.name, "hello");
    assert_eq!(e.store.view.message, format!("Preparing job {id}"));
    e.store.prepared(id, 1, preview());
    let mut run = JobRun::new(id, at(20));
    run.begin_attempt();
    e.store.progress(
        id,
        &Progress { phase: Phase::Printing, percent: 40, message: "Printing".into() },
        at(30),
    );
    assert_eq!(e.store.view.message, format!("Printing job {id} — 40%"));
    let step = run.attempt_ended(&mut e.store, AttemptEnd::Finished(Ok(report())), false, at(40));
    let outcome = match step {
        RunStep::Over(o) => o,
        RunStep::Pause { .. } => panic!("success must end the run"),
    };
    e.store.conclude(&run, &outcome, false, at(50));
    let j = &e.store.jobs[&id];
    assert_eq!(j.state, JobState::Completed);
    assert_eq!(j.reasons, vec!["job-completed-successfully"]);
    assert_eq!(j.impressions, 1);
    assert_eq!(j.impressions_completed, 1);
    assert!(j.doc.is_none());
    let v = &e.store.view;
    assert_eq!(v.state, PrinterState::Idle);
    assert!(v.reasons.is_empty());
    assert!(v.sticky_reasons.is_empty());
    assert_eq!(v.battery, Some(77));
    assert!(v.last_model.as_deref().unwrap_or("").starts_with("MXW01"));
    assert_eq!(v.current, None);
}

#[test]
fn printer_off_gives_up_then_ttl_clears() {
    let mut e = engine(cfg());
    let id = submit(&mut e, "x", 0);
    e.store.take(id, false, at(0)).unwrap();
    let mut run = JobRun::new(id, at(0));
    run.begin_attempt();
    let step =
        run.attempt_ended(&mut e.store, AttemptEnd::Finished(Err(PrintError::NotFound)), false, at(200));
    assert!(matches!(step, RunStep::Pause { secs: 3 }));
    assert_eq!(e.store.view.state, PrinterState::Processing);
    assert!(e.store.view.reasons.contains(&"connecting-to-device"));
    assert!(e.store.view.message.contains("Cat printer not found"));
    assert!(e.store.view.message.ends_with("(waited 0 s of 1 s)"));
    assert!(run.pause_ended(PauseEnd::Slept));
    run.begin_attempt();
    let step = run.attempt_ended(
        &mut e.store,
        AttemptEnd::Finished(Err(PrintError::NotFound)),
        false,
        at(3200),
    );
    let outcome = match step {
        RunStep::Over(o) => o,
        RunStep::Pause { .. } => panic!("the wait is over"),
    };
    e.store.conclude(&run, &outcome, false, at(3200));
    let j = &e.store.jobs[&id];
    assert_eq!(j.state, JobState::Aborted);
    assert_eq!(j.reasons, vec!["service-off-line"]);
    assert_eq!(
        j.message,
        format!("Cat printer not found for 1 min — job {id} stopped. Turn it on and print again.")
    );
    assert_eq!(e.store.view.state, PrinterState::Idle);
    assert!(e.store.view.reasons.is_empty());
    assert_eq!(e.store.view.sticky_reasons, vec!["offline-report"]);
    assert!(e.store.health(at(3300)).reasons.contains(&"offline-report"));
    assert!(!e.store.view.message.is_empty());
    e.store.tick(at(3600));
    assert!(e.store.view.sticky_reasons.is_empty());
    assert!(e.store.view.message.is_empty());
}

#[test]
fn backoff_grows_and_stays() {
    let mut e = engine(EngineConfig { printer_wait_ms: 600_000, ..cfg() });
    let id = submit(&mut e, "x", 0);
    e.store.take(id, false, at(0)).unwrap();
    let mut run = JobRun::new(id, at(0));
    let mut secs_seen = Vec::new();
    for _ in 0..5 {
        run.begin_attempt();
        match run.attempt_ended(
            &mut e.store,
            AttemptEnd::Finished(Err(PrintError::LinkLost)),
            false,
            at(100),
        ) {
            RunStep::Pause { secs } => secs_seen.push(secs),
            RunStep::Over(_) => panic!("still within the wait"),
        }
    }
    assert_eq!(secs_seen, vec![3, 5, 10, 15, 15]);
}

#[test]
fn errors_that_are_not_retried() {
    for err in [
        PrintError::Rejected("no".into()),
        PrintError::NotCatPrinter("missing AE01".into()),
        PrintError::Io("disk full".into()),
    ] {
        let mut e = engine(EngineConfig { printer_wait_ms: 600_000, ..cfg() });
        let id = submit(&mut e, "x", 0);
        e.store.take(id, false, at(0)).unwrap();
        let mut run = JobRun::new(id, at(0));
        run.begin_attempt();
        let step =
            run.attempt_ended(&mut e.store, AttemptEnd::Finished(Err(err)), false, at(100));
        assert!(matches!(step, RunStep::Over(Err(_))));
    }
}

#[test]
fn no_paper_stays_visible() {
    let mut e = engine(cfg());
    let id = submit(&mut e, "x", 0);
    e.store.take(id, false, at(0)).unwrap();
    let run = JobRun::new(id, at(0));
    let c = Condition {
        ok: false,
        state: "standby".into(),
        battery: None,
        temperature: None,
        error: Some("no-paper".into()),
        message: "The cat printer is out of paper.".into(),
    };
    e.store.conclude(&run, &Err(PrintError::Condition(c)), false, at(10));
    assert_eq!(e.store.jobs[&id].state, JobState::Aborted);
    assert_eq!(e.store.jobs[&id].reasons, vec!["job-completed-with-errors"]);
    assert_eq!(e.store.view.sticky_reasons, vec!["media-empty-error"]);
}

#[test]
fn cut_short_attempts() {
    let cut = |why, stopped| AttemptEnd::Cut { why, stopped };
    assert!(resolve_attempt(cut(CutShort::Cancelled, Some(Ok(report())))).is_ok());
    assert!(matches!(
        resolve_attempt(cut(CutShort::Capped, None)),
        Err(PrintError::Timeout("printing (attempt took too long)"))
    ));
    assert!(matches!(
        resolve_attempt(cut(CutShort::Capped, Some(Err(PrintError::Cancelled)))),
        Err(PrintError::Timeout(_))
    ));
    assert!(matches!(
        resolve_attempt(cut(CutShort::Cancelled, None)),
        Err(PrintError::Cancelled)
    ));
    assert!(matches!(
        resolve_attempt(cut(CutShort::Shutdown, Some(Err(PrintError::LinkLost)))),
        Err(PrintError::LinkLost)
    ));
    assert_eq!(shutdown_delay_ms(Phase::Searching, 300), 0);
    assert_eq!(shutdown_delay_ms(Phase::Preparing, 300), 0);
    assert_eq!(shutdown_delay_ms(Phase::Printing, 300), 300);
    assert_eq!(shutdown_delay_ms(Phase::Finishing, 300), 300);
}

#[test]
fn cancel_pending_job_is_immediate_and_processing_job_stops_cooperatively() {
    let mut e = engine(cfg());
    let a = submit(&mut e, "a", 0);
    let b = submit(&mut e, "b", 0);
    e.store.take(a, false, at(0)).unwrap();
    assert_eq!(e.cancel(b, at(1)), CancelOutcome::Canceled);
    assert_eq!(e.store.jobs[&b].state, JobState::Canceled);
    assert_eq!(e.store.jobs[&b].reasons, vec!["job-canceled-by-user"]);
    assert_eq!(e.cancel(b, at(2)), CancelOutcome::AlreadyTerminal);
    assert_eq!(e.cancel(999, at(2)), CancelOutcome::NotFound);
    assert_eq!(e.cancel(a, at(3)), CancelOutcome::Canceled);
    assert_eq!(e.store.jobs[&a].state, JobState::Processing);
    assert!(e.store.jobs[&a].cancel);
    let mut run = JobRun::new(a, at(0));
    run.begin_attempt();
    let end = AttemptEnd::Cut { why: CutShort::Cancelled, stopped: None };
    let outcome = match run.attempt_ended(&mut e.store, end, false, at(4)) {
        RunStep::Over(o) => o,
        RunStep::Pause { .. } => panic!("a cancelled run is over"),
    };
    e.store.conclude(&run, &outcome, false, at(5));
    assert_eq!(e.store.jobs[&a].state, JobState::Canceled);
    assert_eq!(e.store.view.state, PrinterState::Idle);
    assert!(e.store.take(b, false, at(6)).is_none());
}

#[test]
fn shutdown_aborts_current_and_pending_and_starts_nothing_new() {
    let mut e = engine(cfg());
    let ids: Vec<u32> = (0..6).map(|i| submit(&mut e, &format!("j{i}"), 0)).collect();
    e.store.take(ids[0], false, at(0)).unwrap();
    e.begin_shutdown(at(1));
    let mut run = JobRun::new(ids[0], at(0));
    run.begin_attempt();
    let end = AttemptEnd::Cut { why: CutShort::Shutdown, stopped: None };
    let outcome = match run.attempt_ended(&mut e.store, end, true, at(2)) {
        RunStep::Over(o) => o,
        RunStep::Pause { .. } => panic!("the service stops"),
    };
    e.store.conclude(&run, &outcome, true, at(3));
    assert!(e.store.take(ids[1], true, at(4)).is_none());
    e.store.abort_open(at(5));
    for id in &ids {
        let j = &e.store.jobs[id];
        assert_eq!(j.state, JobState::Aborted, "job {id}");
        assert!(j.message.contains("print again"), "{}", j.message);
        assert!(
            j.processing_uptime.is_none() || *id == ids[0],
            "job {id} was started"
        );
    }
    assert!(!e.store.view.accepting);
    let (r, work) = e.create_job(opts("late"), Some(raster()), true, at(6));
    assert!(matches!(r, Err(SubmitError::NotAccepting)));
    assert_eq!(work, None);
}

#[test]
fn stale_create_job_aborted_by_tick_but_touch_keeps_it() {
    let mut e = engine(cfg());
    let (a, _) = e.create_job(opts("a"), None, true, at(0));
    let (b, work) = e.create_job(opts("b"), None, true, at(0));
    let (a, b) = (a.unwrap(), b.unwrap());
    assert_eq!(work, None);
    for i in 1..4 {
        e.touch(b, at(120 * i));
        e.store.tick(at(120 * i));
    }
    assert_eq!(e.store.jobs[&a].state, JobState::Aborted);
    assert_eq!(e.store.jobs[&a].message, "No document was sent for this job");
    assert_eq!(e.store.jobs[&b].state, JobState::Pending);
    let (r, work) = e.add_document(b, raster(), true, at(400));
    r.unwrap();
    assert_eq!(work, Some(Work::Print(b)));
    let (r, _) = e.add_document(b, raster(), true, at(400));
    assert!(matches!(r, Err(SubmitError::HasDocument(_))));
    let (r, _) = e.add_document(a, raster(), true, at(400));
    assert!(matches!(r, Err(SubmitError::NotFound(_))));
}

#[test]
fn prune_keeps_100_terminal_and_5_previews_and_queue_full_is_busy() {
    let mut e = engine(EngineConfig { queue_max: 2, ..cfg() });
    let a = submit(&mut e, "a", 0);
    let _b = submit(&mut e, "b", 0);
    assert!(matches!(
        e.create_job(opts("c"), Some(raster()), true, at(0)).0,
        Err(SubmitError::Busy(2))
    ));
    assert_eq!(e.cancel(a, at(1)), CancelOutcome::Canceled);
    let mut e = engine(EngineConfig { queue_max: 500, ..cfg() });
    let mut last = 0;
    for i in 0..130 {
        let id = submit(&mut e, &format!("p{i}"), 0);
        e.store.prepared(id, 1, preview());
        e.cancel(id, at(1));
        last = id;
    }
    let terminal = e.store.jobs.values().filter(|j| j.state.is_terminal()).count();
    assert_eq!(terminal, KEEP_TERMINAL);
    assert!(e.store.jobs.contains_key(&last));
    assert_eq!(
        e.store.jobs.values().filter(|j| j.preview.is_some()).count(),
        KEEP_PREVIEWS
    );
}

#[test]
fn identify_is_coalesced() {
    let mut e = engine(cfg());
    let a = submit(&mut e, "a", 0);
    e.store.take(a, false, at(0)).unwrap();
    let mut sent = 0;
    for _ in 0..12 {
        if e.identify(true).is_some() {
            sent += 1;
        }
    }
    assert_eq!(sent, 1);
    let b = submit(&mut e, "b", 1);
    assert_eq!(e.store.jobs[&b].state, JobState::Pending);
    assert_eq!(e.store.identify_requests, 12);
    assert!(e.store.identify_pending);
    assert_eq!(queue_capacity(16), 20);
    assert_eq!(queue_capacity(0), 5);
}

#[test]
fn full_queue_aborts_the_job() {
    let mut e = engine(cfg());
    let (r, work) = e.create_job(opts("a"), Some(raster()), false, at(0));
    let id = r.unwrap();
    assert_eq!(work, None);
    assert_eq!(e.store.jobs[&id].state, JobState::Aborted);
    assert_eq!(e.store.jobs[&id].message, "printer service is restarting — print again");
}

#[test]
fn panicking_job_does_not_kill_worker() {
    let mut e = engine(cfg());
    let a = submit(&mut e, "boom", 0);
    e.store.take(a, false, at(0)).unwrap();
    e.store.worker_panicked(a, at(1));
    assert_eq!(e.store.jobs[&a].state, JobState::Aborted);
    assert!(e.store.jobs[&a].message.contains("hiccup"));
    assert_eq!(e.store.view.current, None);
    assert_eq!(e.store.view.state, PrinterState::Idle);
    let b = submit(&mut e, "after", 2);
    assert!(e.store.take(b, false, at(3)).is_some());
    e.store.prepared(b, 1, preview());
    let mut run = JobRun::new(b, at(4));
    run.begin_attempt();
    let end = AttemptEnd::Finished(Ok(report()));
    let outcome = match run.attempt_ended(&mut e.store, end, false, at(5)) {
        RunStep::Over(o) => o,
        RunStep::Pause { .. } => panic!("success must end the run"),
    };
    e.store.conclude(&run, &outcome, false, at(2006));
    assert_eq!(e.store.jobs[&b].state, JobState::Completed);
    assert_eq!(e.store.view.state, PrinterState::Idle);
    assert_eq!(e.store.view.state_changed_uptime, uptime(at(2006)));
    assert_eq!(e.store.view.state_changed_at, at(2006).unix);
}

#[test]
fn job_ids_are_monotonic_across_restart() {
    let first = initial_job_id(1_786_752_000, None);
    assert!(first > 1_000_000, "time-based ids: {first}");
    let mut e = Engine::start(cfg(), first, 1_786_752_000);
    let a = submit(&mut e, "a", 0);
    let b = submit(&mut e, "b", 0);
    assert_eq!(a, first);
    assert_eq!(b, a + 1);
    let kept = next_id_text(e.store.next_id);
    assert_eq!(kept, format!("{}\n", b + 1));
    let c = initial_job_id(1_786_752_000, Some(&kept));
    assert!(c > b, "{c} > {b}");
    assert_eq!(initial_job_id(0, None), 1);
    assert_eq!(initial_job_id(i64::MAX, None), (i32::MAX / 2) as u32);
    assert_eq!(initial_job_id(0, Some("garbage")), 1);
}

#[test]
fn over_max_pages_is_aborted_not_completed() {
    let mut e = engine(EngineConfig {
        limits: Limits { max_pages: 0, ..Limits::default() },
        ..cfg()
    });
    let id = submit(&mut e, "long", 0);
    let start = e.store.take(id, false, at(0)).unwrap();
    let keep = |g: &[u8], _w: usize, _h: usize| g.to_vec();
    let err = prepare_document(&start.doc, start.format, &e.store.cfg.limits, &start.render, keep)
        .unwrap()
        .unwrap_err();
    e.store.prep_refused(id, &err, at(1));
    let j = &e.store.jobs[&id];
    assert_eq!(j.state, JobState::Aborted);
    assert!(!j.reasons.contains(&"job-completed-successfully"));
    assert_eq!(j.reasons, vec!["document-format-error"]);
    assert!(
        j.message.contains("page") || j.message.contains("pages"),
        "{}",
        j.message
    );
    assert_eq!(e.store.view.state, PrinterState::Idle);
}

#[test]
fn prep_failures_and_unknown_documents() {
    let mut e = engine(cfg());
    let a = submit(&mut e, "a", 0);
    e.store.take(a, false, at(0)).unwrap();
    e.store.prep_crashed(a, "task 1 panicked", at(1));
    assert_eq!(e.store.jobs[&a].message, "render crashed: task 1 panicked");
    let b = submit(&mut e, "b", 0);
    e.store.take(b, false, at(0)).unwrap();
    e.store.prep_too_slow(b, at(1));
    assert_eq!(e.store.jobs[&b].message, "rendering took too long");
    let keep = |g: &[u8], _w: usize, _h: usize| g.to_vec();
    let err = prepare_document(
        b"hello",
        DocFormat::Unknown,
        &Limits::default(),
        &RenderOptions::default(),
        keep,
    )
    .unwrap()
    .unwrap_err();
    assert_eq!(err, "unsupported document format");
}

#[test]
fn refused_documents() {
    let mut e = engine(EngineConfig { max_document_bytes: 4, ..cfg() });
    let (r, _) = e.create_job(opts("x"), Some(raster()), true, at(0));
    assert_eq!(r, Err(SubmitError::TooLarge(raster().len())));
    let (r, _) = e.create_job(opts("x"), Some(vec![]), true, at(0));
    assert_eq!(r, Err(SubmitError::Empty));
    let (r, _) = e.create_job(opts("x"), Some(b"abc".to_vec()), true, at(0));
    assert_eq!(r, Err(SubmitError::BadFormat));
    assert_eq!(SubmitError::Busy(3).message(), "printer is busy: 3 jobs already queued");
    assert_eq!(SubmitError::TooLarge(9).message(), "document too large (9 bytes)");
    assert_eq!(SubmitError::NotFound(7).message(), "job 7 not found");
    assert!(e.store.jobs.is_empty());
}

#[test]
fn uptime_is_at_least_one() {
    assert_eq!(uptime(at(0)), 1);
    assert_eq!(uptime(at(1999)), 1);
    assert_eq!(uptime(at(61_000)), 61);
}

#[test]
fn cancel_my_jobs_cancels_only_mine() {
    let mut e = engine(cfg());
    let a = submit(&mut e, "a", 0);
    let b = submit(&mut e, "b", 0);
    let mut other = opts("c");
    other.user = "adult".into();
    let c = e.create_job(other, Some(raster()), true, at(0)).0.unwrap();
    assert_eq!(e.cancel_my_jobs("kid", &[b], at(1)), vec![b]);
    assert_eq!(e.store.jobs[&a].state, JobState::Pending);
    assert_eq!(e.cancel_my_jobs("kid", &[], at(2)), vec![a]);
    assert_eq!(e.store.jobs[&c].state, JobState::Pending);
}

#[test]
fn closing_a_created_job() {
    let mut e = engine(cfg());
    let a = e.create_job(opts("a"), None, true, at(0)).0.unwrap();
    e.close_without_document(a, at(1));
    assert_eq!(e.store.jobs[&a].state, JobState::Canceled);
    assert!(!e.store.jobs[&a].awaiting_document);
    let h = e.health(at(2500));
    assert_eq!(h.uptime_s, 2);
    assert_eq!(h.queue_depth, 0);
    assert_eq!(h.last_job.unwrap().state, "canceled");
}

#[test]
fn unwritable_fake_dest_fails_job() {
    let mut e = engine(cfg());
    let id = submit(&mut e, "nope", 0);
    e.store.take(id, false, at(0)).unwrap();
    let mut run = JobRun::new(id, at(0));
    run.begin_attempt();
    let err = PrintError::Io("not a directory".into());
    let outcome = match run.attempt_ended(&mut e.store, AttemptEnd::Finished(Err(err)), false, at(1)) {
        RunStep::Over(o) => o,
        RunStep::Pause { .. } => panic!("a failed write is not tried again"),
    };
    e.store.conclude(&run, &outcome, false, at(2));
    let j = &e.store.jobs[&id];
    assert_eq!(j.state, JobState::Aborted);
    assert!(!j.reasons.contains(&"job-completed-successfully"), "{:?}", j.reasons);
}

#[test]
fn messages_for_people() {
    assert_eq!(
        PrintError::NotFound.kid_message(),
        "Cat printer not found — turn it on and keep it near the computer"
    );
    assert!(PrintError::AdapterOff.kid_message().starts_with("Bluetooth is turned off on this computer"));
    let failed = PrintError::ConnectFailed { attempts: 3, last: "timeout".into(), hint: " Closer.".into() };
    assert!(failed.kid_message().starts_with("Could not connect to the cat printer"));
    assert_eq!(PrintError::NotFound.printer_reasons(), vec!["connecting-to-device"]);
    assert!(PrintError::LinkLost.retryable());
    assert!(!PrintError::Cancelled.retryable());
}

#[test]
fn more_than_are_kept_end_together() {
    let mut e = engine(EngineConfig { queue_max: 500, ..cfg() });
    let done = submit(&mut e, "done", 0);
    e.cancel(done, at(0));
    let waits = submit(&mut e, "waits", 0);
    let mut ids: Vec<u32> = Vec::new();
    for i in 0..120 {
        let (r, _) = e.create_job(opts(&format!("q{i}")), None, true, at(0));
        ids.push(r.unwrap());
    }
    e.store.tick(at(10_000));
    assert!(!e.store.jobs.contains_key(&done));
    for id in &ids[..20] {
        assert!(!e.store.jobs.contains_key(id));
    }
    for id in &ids[20..] {
        assert_eq!(e.store.jobs[id].state, JobState::Aborted);
        assert_eq!(e.store.jobs[id].reasons, vec!["job-completed-with-errors"]);
    }
    assert_eq!(e.store.terminal_order, ids[20..].to_vec());
    assert_eq!(e.store.jobs[&waits].state, JobState::Pending);
}

#[test]
fn ticks_leave_fresh_jobs_alone() {
    let mut e = engine(cfg());
    let a = submit(&mut e, "a", 0);
    let (b, _) = e.create_job(opts("b"), None, true, at(0));
    let b = b.unwrap();
    e.store.tick(at(200));
    assert_eq!(e.store.jobs[&a].state, JobState::Pending);
    assert_eq!(e.store.jobs[&b].state, JobState::Pending);
    e.store.tick(at(201));
    assert_eq!(e.store.jobs[&a].state, JobState::Pending);
    assert_eq!(e.store.jobs[&b].state, JobState::Aborted);
    assert_eq!(e.store.terminal_order, vec![b]);
}
