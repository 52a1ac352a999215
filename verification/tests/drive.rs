use catprinterd::models::mxw01::{Action, Drive, Event};
use catprinterd::models::Family;
use catprinterd::printer::fake::{
    job_file_name, scripted_failure, slugify, state_text, FakeAction, FakeEvent, FakePrinter, FakeRun,
    Scripted,
};
use catprinterd::printer::{Phase, PreparedJob, PrintError};
use catprinterd::protocol::mxw01::{cmd_get_status, cmd_print_request, cmd_set_intensity};
use catprinterd::protocol::PrintMode;
use catprinterd::raster::GrayPage;
use catprinterd::render::packing::{Packed, Segment};
use catprinterd::render::strip::GrayStrip;
use catprinterd::render::{Layout, RenderOptions};

fn packed() -> Packed {
    Packed {
        mode: PrintMode::Mono,
        width: 384,
        lines: 200,
        row_bytes: 48,
        data: vec![0; 200 * 48],
        segments: vec![
            Segment { lines: 110, bytes: 0..110 * 48 },
            Segment { lines: 90, bytes: 110 * 48..200 * 48 },
        ],
        preview: GrayPage::new_white(1, 1, 203),
    }
}

fn ready() -> Vec<u8> {
    vec![0, 0, 0, 77, 30, 0, 0, 0]
}

#[test]
fn two_segments_from_start_to_end() {
    let p = packed();
    let mut d = Drive::new(&p, 0x5D);
    match d.action(&p) {
        Action::Write { frame, pause_ms } => {
            assert_eq!(frame, cmd_set_intensity(0x5D));
            assert_eq!(pause_ms, 50);
        }
        other => panic!("{other:?}"),
    }
    assert!(d.on(&p, Event::Done).is_none());
    assert!(matches!(d.action(&p), Action::Request { frame, expect: 0xA1, .. } if frame == cmd_get_status()));
    assert!(d.on(&p, Event::Reply(ready())).is_none());
    let mut percents = Vec::new();
    for lines in [110u16, 90] {
        assert!(matches!(
            d.action(&p),
            Action::Request { frame, expect: 0xA9, .. } if frame == cmd_print_request(lines, PrintMode::Mono)
        ));
        assert!(d.on(&p, Event::Reply(vec![0])).is_none());
        match d.action(&p) {
            Action::Stream { start, end, row_bytes, .. } => {
                assert_eq!(end - start, lines as usize * 48);
                assert_eq!(row_bytes, 48);
            }
            other => panic!("{other:?}"),
        }
        let ev = if lines == 110 { Event::Done } else { Event::NoComplete };
        assert!(d.on(&p, ev).is_none());
        match d.action(&p) {
            Action::Report(g) => percents.push(g.percent),
            other => panic!("{other:?}"),
        }
        assert!(d.on(&p, Event::Done).is_none());
    }
    assert_eq!(percents, vec![52, 95]);
    assert!(matches!(d.action(&p), Action::Report(g) if g.percent == 100 && g.phase == Phase::Finishing));
    assert!(d.on(&p, Event::Done).is_none());
    assert!(matches!(d.action(&p), Action::Done { confirmed: false, battery: Some(77) }));
}

#[test]
fn refusals_and_conditions_end_a_print() {
    let p = packed();
    let mut d = Drive::new(&p, 1);
    d.on(&p, Event::Done);
    let no_paper = vec![0, 0, 0, 77, 30, 0, 1, 1];
    assert!(matches!(d.on(&p, Event::Reply(no_paper)), Some(PrintError::Condition(c)) if c.has_error("no-paper")));
    d.on(&p, Event::Reply(ready()));
    assert!(matches!(d.on(&p, Event::Reply(vec![1, 2])), Some(PrintError::Rejected(_))));
    assert!(matches!(d.on(&p, Event::Cancelled), Some(PrintError::Cancelled)));
    assert!(matches!(d.on(&p, Event::LinkClosed), Some(PrintError::LinkLost)));
}

fn job() -> PreparedJob {
    PreparedJob {
        id: 7,
        name: "My Cat!".into(),
        strip: GrayStrip { width: 384, height: 1, data: vec![255; 384], pages: 1, layout: Layout::Tape },
        opts: RenderOptions::default(),
        copies: 2,
    }
}

#[test]
fn fake_printer_prints_all_copies() {
    let j = job();
    let mut run = FakeRun::new(Family::Mxw01, j.copies);
    let mut steps = 0;
    let mut saved = false;
    for _ in 0..100 {
        let ev = match run.action(&j, 9) {
            FakeAction::Report { progress, .. } => {
                if progress.phase == Phase::Printing {
                    steps += 1;
                }
                FakeEvent::Done
            }
            FakeAction::ReadState => FakeEvent::State("ok".into()),
            FakeAction::Pack { mode, width_px } => {
                assert_eq!((mode, width_px), (PrintMode::Mono, 384));
                FakeEvent::Packed { lines: 90, segments: 1 }
            }
            FakeAction::Save { png, copy_of, meta } => {
                saved = true;
                assert_eq!(png, format!("job-7-{}.png", slugify("My Cat!")));
                assert_eq!((copy_of.as_str(), meta.as_str()), ("last.png", "job-7.json"));
                FakeEvent::Done
            }
            FakeAction::Done(rep) => {
                assert_eq!((rep.lines, rep.copies, rep.elapsed_ms), (90, 2, 9));
                assert_eq!(rep.model, "MXW01 (fake)");
                assert!(saved);
                assert_eq!(steps, 10);
                return;
            }
        };
        assert!(matches!(run.on(ev), (Scripted::Proceed, None)));
    }
    panic!("the print does not end");
}

#[test]
fn scripts() {
    assert_eq!(state_text(None), "ok");
    assert_eq!(state_text(Some(" off\n")), "off");
    assert!(matches!(scripted_failure("ok"), (Scripted::Proceed, None)));
    assert!(matches!(scripted_failure("off"), (Scripted::Fail(PrintError::NotFound), None)));
    assert!(matches!(scripted_failure("adapter-off"), (Scripted::Fail(PrintError::AdapterOff), None)));
    assert!(matches!(scripted_failure("panic"), (Scripted::Panic, None)));
    for key in ["no-paper", "overheated", "low-battery"] {
        match scripted_failure(key) {
            (Scripted::Fail(PrintError::Condition(c)), None) => assert!(c.has_error(key)),
            other => panic!("{other:?}"),
        }
    }
    assert!(
        matches!(scripted_failure("flaky:1"), (Scripted::Fail(PrintError::ConnectFailed { .. }), Some(s)) if s == "flaky:0")
    );
    assert!(matches!(scripted_failure("flaky:0"), (Scripted::Proceed, Some(s)) if s == "ok"));
    assert_eq!(job_file_name(3, ".json"), "job-3.json");
    let mut f = FakePrinter::new("/tmp/x".into());
    assert_ne!(f.next_identify(), f.next_identify());
}

#[test]
fn flaky_printer_retries_then_prints() {
    let j = job();
    let mut state = "flaky:1".to_string();
    let mut outcomes = Vec::new();
    for _ in 0..2 {
        let mut run = FakeRun::new(Family::Mxw01, 1);
        loop {
            let ev = match run.action(&j, 0) {
                FakeAction::Report { .. } | FakeAction::Save { .. } => FakeEvent::Done,
                FakeAction::ReadState => FakeEvent::State(state.clone()),
                FakeAction::Pack { .. } => FakeEvent::Packed { lines: 90, segments: 1 },
                FakeAction::Done(_) => {
                    outcomes.push(true);
                    break;
                }
            };
            let (s, after) = run.on(ev);
            if let Some(a) = after {
                state = a;
            }
            if let Scripted::Fail(e) = s {
                assert!(e.retryable());
                outcomes.push(false);
                break;
            }
        }
    }
    assert_eq!(outcomes, vec![false, true]);
    assert_eq!(state, "ok");
}
