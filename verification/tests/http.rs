use catprinterd::engine::{Engine, EngineConfig, Now};
use catprinterd::http::{
    declared_too_large, esc, oversize, peek_job_id, preview, route, status_page, BodyReader, BodyStep,
    Route, Verb, TOUCH_EVERY_MS,
};
use catprinterd::ipp::codec::{v_int, Group, ReqBuilder};
use catprinterd::ipp::options::JobOptions;
use catprinterd::ipp::{OP_CREATE_JOB, OP_SEND_DOCUMENT};
use catprinterd::raster::GrayPage;

fn at(ms: u64) -> Now {
    Now { ms, unix: 1_800_000_000 }
}

fn ipp_status(body: &[u8]) -> u16 {
    u16::from_be_bytes([body[2], body[3]])
}

#[test]
fn get_health_root_icons_strings_and_404() {
    assert_eq!(route(Verb::Get, "/health"), Route::Health);
    assert_eq!(route(Verb::Get, "/"), Route::Status);
    assert_eq!(route(Verb::Get, "/strings/en.strings"), Route::Strings);
    assert_eq!(route(Verb::Get, "/icons/48.png"), Route::Icon(48));
    assert_eq!(route(Verb::Get, "/nope"), Route::NotFound);
}

#[test]
fn other_routes() {
    assert_eq!(route(Verb::Post, "/ipp/print"), Route::Ipp);
    assert_eq!(route(Verb::Options, "/"), Route::NoContent);
    assert_eq!(route(Verb::Other, "/"), Route::NotFound);
    assert_eq!(route(Verb::Head, "/"), Route::Status);
    assert_eq!(route(Verb::Head, "/icons/48.png"), Route::NotFound);
    assert_eq!(route(Verb::Get, "/icons/64.png"), Route::NotFound);
    assert_eq!(route(Verb::Get, "/jobs/12/preview.png"), Route::Preview(Some(12)));
    assert_eq!(route(Verb::Get, "/jobs/x/preview.png"), Route::Preview(None));
    assert_eq!(route(Verb::Get, "/jobs/12"), Route::NotFound);
}

#[test]
fn previews_are_served_while_kept() {
    let mut e = Engine::start(EngineConfig::default(), 1, 0);
    let (id, _) = e.create_job(JobOptions::default(), Some(b"RaS2".to_vec()), true, at(0));
    let id = id.unwrap();
    assert!(preview(&e.store, Some(id)).is_none());
    e.store.prepared(id, 1, GrayPage::new_white(3, 2, 203));
    assert_eq!(preview(&e.store, Some(id)).unwrap().width, 3);
    assert!(preview(&e.store, None).is_none());
    assert!(preview(&e.store, Some(id + 1)).is_none());
}

#[test]
fn content_length_over_cap_gets_too_long_and_connection_close() {
    assert!(declared_too_large(Some(100_000), 4096));
    assert!(!declared_too_large(Some(4096), 4096));
    assert!(!declared_too_large(None, 4096));
    let msg = ReqBuilder::new(OP_CREATE_JOB, "ipp://127.0.0.1/ipp/print").unwrap().into_bytes();
    let body = oversize(Some(&msg));
    assert_eq!(ipp_status(&body), 0x0409);
    assert_eq!(body[..2], msg[..2]);
    assert_eq!(body[4..8], msg[4..8]);
    assert_eq!(ipp_status(&oversize(None)), 0x0409);
}

fn send_document(id: i32) -> Vec<u8> {
    ReqBuilder::new(OP_SEND_DOCUMENT, "ipp://127.0.0.1/ipp/print")
        .unwrap()
        .add(Group::OperationAttributes, "job-id", v_int(id))
        .into_bytes()
}

#[test]
fn streamed_documents_touch_their_job() {
    let head = send_document(77);
    assert_eq!(peek_job_id(&head), Some(77));
    assert_eq!(peek_job_id(&head[..20]), None);
    let mut r = BodyReader::new(1 << 20, 60_000, 0);
    assert!(matches!(r.frame(&head[..20], 0), BodyStep::More));
    assert!(matches!(r.frame(&head[20..], 10), BodyStep::Touch(77)));
    assert!(matches!(r.frame(&[1; 100], 20), BodyStep::More));
    assert!(matches!(r.frame(&[2; 100], 20 + TOUCH_EVERY_MS), BodyStep::Touch(77)));
    assert_eq!(r.buf.len(), head.len() + 200);
    assert_eq!(&r.buf[..head.len()], head.as_slice());
}

#[test]
fn bodies_are_bounded_in_size_and_time() {
    let mut r = BodyReader::new(8, 1000, 0);
    assert!(matches!(r.frame(&[0; 8], 1), BodyStep::More));
    assert!(matches!(r.frame(&[0; 1], 2), BodyStep::Oversize));
    let mut r = BodyReader::new(8, 1000, 0);
    assert!(matches!(r.frame(&[0; 1], 1001), BodyStep::TooSlow));
}

#[test]
fn escaping() {
    assert_eq!(esc("a<b>&\"c\""), "a&lt;b&gt;&amp;\"c\"");
    assert_eq!(esc("cat"), "cat");
}

#[test]
fn status_page_escapes_what_users_send() {
    let mut e = Engine::start(EngineConfig::default(), 1, 0);
    let opts = JobOptions { job_name: "<script>".into(), ..JobOptions::default() };
    let (id, _) = e.create_job(opts, Some(b"RaS2".to_vec()), true, at(0));
    id.unwrap();
    let page = status_page(&e.store, &e.health(at(1)), "ipp://127.0.0.1:8095/ipp/print");
    assert!(page.starts_with("<!doctype html>"));
    assert!(page.contains("&lt;script&gt;"));
    assert!(!page.contains("<script>"));
    assert!(page.contains("ipp://127.0.0.1:8095/ipp/print"));
}
