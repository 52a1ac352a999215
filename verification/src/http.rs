//! HTTP front end: which resource a request is for, how a request body is taken in, and the pages.
//! Body size is capped; an oversize IPP request is answered with an IPP
//! `client-error-request-value-too-long`, which makes the CUPS backend cancel the job cleanly.

use vstd::prelude::*;
use vstd::slice::slice_subrange;

use crate::engine::{spec_state_name, state_name, Health, Job, Store};
use crate::ipp::codec::{be32, is_request_of, parse, peek_header, readable, Request, Status};
use crate::ipp::queries::{job_id_from, spec_job_id};
use crate::ipp::readback::{lemma_refusal_says, says};
use crate::ipp::response::{refusal, refuse, Answer};
use crate::ipp::service::answer_bytes;
use crate::ipp::wire::be16;
use crate::ipp::{OP_CLOSE_JOB, OP_SEND_DOCUMENT};
use crate::raster::GrayPage;
use crate::text::{
    chars_of, dec, has_prefix, is_text, owned, parse_dec, parse_dec_chars, push_chars, push_dec,
    replace, replace_text, starts_with, ends_with, has_suffix, strip_prefixes, strip_suffixes,
    without_prefixes, without_suffixes,
};

verus! {

broadcast use vstd::std_specs::btree::group_btree_axioms;

// ------------------------------------------------------------------ routing

/// Request methods.
#[derive(Debug, Clone, Copy, PartialEq, Eq, Structural)]
pub enum Verb {
    Get,
    Head,
    Post,
    Options,
    Other,
}

/// What a request is for.
#[derive(Debug, Clone, Copy, PartialEq, Eq, Structural)]
pub enum Route {
    /// An IPP request.
    Ipp,
    Health,
    Status,
    Strings,
    /// The icon of this size.
    Icon(u32),
    /// The preview of a job; the path may name none.
    Preview(Option<u32>),
    /// Nothing to say, with success.
    NoContent,
    NotFound,
}

/// The job whose preview a path names.
pub open spec fn preview_id(path: Seq<char>) -> Option<u32> {
    let mid = without_suffixes(without_prefixes(path, "/jobs/"@), "/preview.png"@);
    match parse_dec(mid, u32::MAX as nat) {
        Some(n) => Some(n as u32),
        None => None,
    }
}

fn preview_job(path: &[char]) -> (r: Option<u32>)
    ensures
        r == preview_id(path@),
{
    proof {
        reveal_strlit("/jobs/");
        reveal_strlit("/preview.png");
    }
    let s = strip_suffixes(strip_prefixes(path, "/jobs/"), "/preview.png");
    match parse_dec_chars(s, u32::MAX as u64) {
        Some(n) => Some(n as u32),
        None => None,
    }
}

/// What a request is for.
pub open spec fn spec_route(verb: Verb, path: Seq<char>) -> Route {
    match verb {
        Verb::Post => Route::Ipp,
        Verb::Options => Route::NoContent,
        Verb::Other => Route::NotFound,
        _ => if path == "/health"@ {
            Route::Health
        } else if path == "/"@ {
            Route::Status
        } else if verb == Verb::Head {
            Route::NotFound
        } else if path == "/strings/en.strings"@ {
            Route::Strings
        } else if starts_with(path, "/icons/"@) {
            if path == "/icons/48.png"@ {
                Route::Icon(48)
            } else if path == "/icons/128.png"@ {
                Route::Icon(128)
            } else if path == "/icons/512.png"@ {
                Route::Icon(512)
            } else {
                Route::NotFound
            }
        } else if starts_with(path, "/jobs/"@) && ends_with(path, "/preview.png"@) {
            Route::Preview(preview_id(path))
        } else {
            Route::NotFound
        },
    }
}

/// What a request is for.
pub fn route(verb: Verb, path: &str) -> (r: Route)
    ensures
        r == spec_route(verb, path@),
{
    match verb {
        Verb::Post => Route::Ipp,
        Verb::Options => Route::NoContent,
        Verb::Other => Route::NotFound,
        _ => {
            let cs = chars_of(path);
            let p = cs.as_slice();
            if is_text(p, "/health") {
                Route::Health
            } else if is_text(p, "/") {
                Route::Status
            } else if verb == Verb::Head {
                Route::NotFound
            } else if is_text(p, "/strings/en.strings") {
                Route::Strings
            } else if has_prefix(p, "/icons/") {
                if is_text(p, "/icons/48.png") {
                    Route::Icon(48)
                } else if is_text(p, "/icons/128.png") {
                    Route::Icon(128)
                } else if is_text(p, "/icons/512.png") {
                    Route::Icon(512)
                } else {
                    Route::NotFound
                }
            } else if has_prefix(p, "/jobs/") && has_suffix(p, "/preview.png") {
                Route::Preview(preview_job(p))
            } else {
                Route::NotFound
            }
        },
    }
}

/// The page whose preview is asked for.
pub fn preview<'a>(s: &'a Store, id: Option<u32>) -> (r: Option<&'a GrayPage>)
    ensures
        match r {
            Some(p) => id matches Some(i) && s.jobs@.contains_key(i) && s.jobs@[i].preview == Some(*p),
            None => match id {
                Some(i) => s.jobs@.contains_key(i) ==> s.jobs@[i].preview is None,
                None => true,
            },
        },
{
    match id {
        Some(i) => match s.jobs.get(&i) {
            Some(j) => match &j.preview {
                Some(p) => Some(p),
                None => None,
            },
            None => None,
        },
        None => None,
    }
}

// ------------------------------------------------------------------ bodies

/// Only the first bytes of a streaming body are worth parsing to learn the job id.
pub const PEEK_LIMIT: usize = 64 * 1024;

/// How often a still-streaming Send-Document refreshes the job's activity stamp.
pub const TOUCH_EVERY_MS: u64 = 5000;

/// `id` is the job of a body that is already a complete Send-Document or Close-Job request.
pub open spec fn is_peeked(body: Seq<u8>, id: Option<u32>) -> bool {
    if readable(body) {
        exists|req: Request| #[trigger]
            is_request_of(req, body) && id == if req.op == OP_SEND_DOCUMENT || req.op
                == OP_CLOSE_JOB {
                spec_job_id(req)
            } else {
                None
            }
    } else {
        id is None
    }
}

/// The job of a body that is already a complete Send-Document or Close-Job request. (The operation
/// attributes come first, so this succeeds on the first frame or two of a document of megabytes; a
/// partial attribute section simply cannot be read.)
pub fn peek_job_id(buf: &[u8]) -> (r: Option<u32>)
    ensures
        is_peeked(buf@, r),
{
    match parse(buf) {
        Ok(req) => {
            assert(is_request_of(req, buf@));
            if req.op != OP_SEND_DOCUMENT && req.op != OP_CLOSE_JOB {
                None
            } else {
                job_id_from(&req)
            }
        },
        Err(_) => None,
    }
}

/// The answer to a body that is too large, with version and id of its header where there is one.
pub open spec fn spec_oversize(head: Option<Seq<u8>>) -> Answer {
    let has = head is Some && head->0.len() >= 8;
    let v = be16(head->0, 0);
    refusal(
        if has && (v / 256 == 1 || v / 256 == 2) {
            v as u16
        } else {
            0x0101
        },
        Status::ClientErrorRequestValueTooLong,
        if has {
            be32(head->0, 4) as i32
        } else {
            1
        },
        "document too large for this printer"@,
    )
}

/// The view of the beginning of a body.
pub open spec fn head_view(head: Option<&[u8]>) -> Option<Seq<u8>> {
    match head {
        Some(h) => Some(h@),
        None => None,
    }
}

/// The answer to a body that is too large. The connection is closed after it.
pub fn oversize(head: Option<&[u8]>) -> (r: Vec<u8>)
    ensures
        r@ == answer_bytes(spec_oversize(head_view(head))),
        says(r@, spec_oversize(head_view(head))),
{
    let (version, id) = match head {
        Some(h) => match peek_header(h) {
            Some((v, _, id)) => (
                if v / 256 == 1 || v / 256 == 2 {
                    v
                } else {
                    0x0101
                },
                id,
            ),
            None => (0x0101, 1),
        },
        None => (0x0101, 1),
    };
    let r = refuse(
        version,
        Status::ClientErrorRequestValueTooLong,
        id,
        "document too large for this printer",
    ).into_bytes();
    proof {
        lemma_refusal_says(
            r@,
            version,
            Status::ClientErrorRequestValueTooLong,
            id,
            "document too large for this printer"@,
        );
    }
    r
}

/// Whether a declared length is too large: then the request is answered without reading it.
pub fn declared_too_large(declared: Option<usize>, max: usize) -> (r: bool)
    ensures
        r == (declared is Some && declared->0 > max),
{
    match declared {
        Some(l) => l > max,
        None => false,
    }
}

/// A request body while it comes in. The CUPS backend streams a Send-Document while the filters
/// still render, minutes for a big document: what is limited is the time between two frames, and the
/// job's activity stamp is refreshed, so that it is not taken for abandoned.
#[derive(Debug)]
pub struct BodyReader {
    pub buf: Vec<u8>,
    pub max: usize,
    pub started_ms: u64,
    /// The time that the whole body may take.
    pub total_ms: u64,
    /// The job that the body is for.
    pub touched: Option<u32>,
    pub peek_failed: bool,
    pub last_touch_ms: u64,
}

/// What to do after a frame.
#[derive(Debug, Clone, Copy, PartialEq, Eq, Structural)]
pub enum BodyStep {
    /// Read on.
    More,
    /// Note activity for this job, then read on.
    Touch(u32),
    /// The body is too large: answer so.
    Oversize,
    /// The body took too long: answer so.
    TooSlow,
}

impl BodyReader {
    /// No more than the limit was taken.
    pub open spec fn wf(self) -> bool {
        self.buf@.len() <= self.max
    }

    /// A body of which nothing came yet.
    pub fn new(max: usize, total_ms: u64, now_ms: u64) -> (r: BodyReader)
        ensures
            r.wf(),
            r.buf@ == Seq::<u8>::empty(),
            r.max == max,
            r.started_ms == now_ms,
            r.total_ms == total_ms,
            r.touched is None,
            !r.peek_failed,
            r.last_touch_ms == now_ms,
    {
        let buf: Vec<u8> = Vec::new();
        assert(buf@ =~= Seq::<u8>::empty());
        BodyReader {
            buf,
            max,
            started_ms: now_ms,
            total_ms,
            touched: None,
            peek_failed: false,
            last_touch_ms: now_ms,
        }
    }

    /// What comes of a frame that fits, given the job that the body is seen to be for.
    pub open spec fn is_taken(self, new: BodyReader, step: BodyStep, now_ms: u64) -> bool {
        match self.touched {
            None => if !self.peek_failed && new.buf@.len() <= PEEK_LIMIT {
                exists|id: Option<u32>| #[trigger]
                    is_peeked(new.buf@, id) && match id {
                        Some(i) => step == BodyStep::Touch(i) && new == (BodyReader {
                            buf: new.buf,
                            touched: Some(i),
                            last_touch_ms: now_ms,
                            ..self
                        }),
                        None => step == BodyStep::More && new == (BodyReader {
                            buf: new.buf,
                            ..self
                        }),
                    }
            } else {
                step == BodyStep::More && new == (BodyReader {
                    buf: new.buf,
                    peek_failed: true,
                    ..self
                })
            },
            Some(i) => if now_ms - self.last_touch_ms >= TOUCH_EVERY_MS {
                step == BodyStep::Touch(i) && new == (BodyReader {
                    buf: new.buf,
                    last_touch_ms: now_ms,
                    ..self
                })
            } else {
                step == BodyStep::More && new == (BodyReader { buf: new.buf, ..self })
            },
        }
    }

    /// Takes a frame. Of a frame that goes beyond the limit as much is kept as fits.
    pub fn frame(&mut self, data: &[u8], now_ms: u64) -> (r: BodyStep)
        requires
            old(self).wf(),
            old(self).started_ms <= now_ms,
            old(self).last_touch_ms <= now_ms,
        ensures
            final(self).wf(),
            if now_ms - old(self).started_ms > old(self).total_ms {
                r == BodyStep::TooSlow && *final(self) == *old(self)
            } else if old(self).buf@.len() + data@.len() > old(self).max {
                &&& r == BodyStep::Oversize
                &&& final(self).buf@ == (old(self).buf@ + data@).take(old(self).max as int)
            } else {
                &&& final(self).buf@ == old(self).buf@ + data@
                &&& old(self).is_taken(*final(self), r, now_ms)
            },
    {
        if now_ms - self.started_ms > self.total_ms {
            return BodyStep::TooSlow;
        }
        let room: usize = self.max - self.buf.len();
        if data.len() > room {
            let part = slice_subrange(data, 0, room);
            self.buf.extend_from_slice(part);
            assert(self.buf@ =~= (old(self).buf@ + data@).take(old(self).max as int));
            return BodyStep::Oversize;
        }
        self.buf.extend_from_slice(data);
        assert(self.buf@ =~= old(self).buf@ + data@);
        match self.touched {
            None => {
                if !self.peek_failed && self.buf.len() <= PEEK_LIMIT {
                    if let Some(id) = peek_job_id(self.buf.as_slice()) {
                        self.touched = Some(id);
                        self.last_touch_ms = now_ms;
                        return BodyStep::Touch(id);
                    }
                } else {
                    self.peek_failed = true;
                }
                BodyStep::More
            },
            Some(id) => {
                if now_ms - self.last_touch_ms >= TOUCH_EVERY_MS {
                    self.last_touch_ms = now_ms;
                    BodyStep::Touch(id)
                } else {
                    BodyStep::More
                }
            },
        }
    }
}

// ------------------------------------------------------------------ the status page

/// A text as it stands in HTML.
pub open spec fn escaped(s: Seq<char>) -> Seq<char> {
    replace(replace(replace(s, "&"@, "&amp;"@), "<"@, "&lt;"@), ">"@, "&gt;"@)
}

/// Appends a text as it stands in HTML.
pub fn push_escaped(out: &mut String, s: &str)
    ensures
        final(out)@ == old(out)@ + escaped(s@),
{
    proof {
        reveal_strlit("&");
        reveal_strlit("<");
        reveal_strlit(">");
    }
    let cs = chars_of(s);
    let a = replace_text(cs.as_slice(), "&", "&amp;");
    let b = replace_text(a.as_slice(), "<", "&lt;");
    let c = replace_text(b.as_slice(), ">", "&gt;");
    push_chars(out, c.as_slice());
}

/// A text as it stands in HTML.
pub fn esc(s: &str) -> (r: String)
    ensures
        r@ == escaped(s@),
{
    let mut r = String::new();
    push_escaped(&mut r, s);
    assert(r@ =~= escaped(s@));
    r
}

/// The table row of a job.
pub open spec fn row_of(j: Job) -> Seq<char> {
    "<tr><td>"@ + dec(j.id as nat) + "</td><td>"@ + escaped(j.opts.job_name@) + "</td><td>"@
        + escaped(j.opts.user@) + "</td><td>"@ + spec_state_name(j.state)@ + "</td><td>"@ + escaped(
        j.message@,
    ) + "</td></tr>"@
}

fn push_row(out: &mut String, j: &Job)
    ensures
        final(out)@ == old(out)@ + row_of(*j),
{
    out.push_str("<tr><td>");
    push_dec(out, j.id as u64);
    out.push_str("</td><td>");
    push_escaped(out, j.opts.job_name.as_str());
    out.push_str("</td><td>");
    push_escaped(out, j.opts.user.as_str());
    out.push_str("</td><td>");
    out.push_str(state_name(j.state));
    out.push_str("</td><td>");
    push_escaped(out, j.message.as_str());
    out.push_str("</td></tr>");
    assert(out@ =~= old(out)@ + row_of(*j));
}

/// The rows of the last `n` jobs of a list, the last first.
pub open spec fn rows(m: Map<u32, Job>, ids: Seq<u32>, n: nat) -> Seq<char>
    decreases n,
{
    if n == 0 || ids.len() == 0 {
        Seq::empty()
    } else {
        row_of(m[ids.last()]) + rows(m, ids.drop_last(), (n - 1) as nat)
    }
}

/// How many jobs the status page shows.
pub const PAGE_JOBS: usize = 20;

fn push_rows(out: &mut String, s: &Store)
    ensures
        final(out)@ == old(out)@ + rows(
            s.jobs@,
            crate::engine::ids::id_list(s.jobs@),
            PAGE_JOBS as nat,
        ),
{
    let ids = s.ids();
    let ghost m = s.jobs@;
    let mut n: usize = PAGE_JOBS;
    let mut i: usize = ids.len();
    assert(ids@.take(i as int) =~= ids@);
    while n > 0 && i > 0
        invariant
            i <= ids.len(),
            m == s.jobs@,
            forall|id: u32| ids@.contains(id) <==> m.contains_key(id),
            old(out)@ + rows(m, ids@, PAGE_JOBS as nat) == out@ + rows(
                m,
                ids@.take(i as int),
                n as nat,
            ),
        decreases i,
    {
        let id: u32 = ids[i - 1];
        let ghost was = out@;
        assert(ids@.contains(id));
        assert(ids@.take(i as int).drop_last() =~= ids@.take(i as int - 1));
        assert(ids@.take(i as int).last() == id);
        if let Some(j) = s.jobs.get(&id) {
            push_row(out, j);
        }
        assert(was + (row_of(m[id]) + rows(m, ids@.take(i as int - 1), (n - 1) as nat)) =~= out@
            + rows(m, ids@.take(i as int - 1), (n - 1) as nat));
        i = i - 1;
        n = n - 1;
    }
    assert(out@ + Seq::<char>::empty() =~= out@);
}

/// Reasons in brackets; nothing where there are none.
pub open spec fn reasons_text(reasons: Seq<&'static str>) -> Seq<char> {
    if reasons.len() == 0 {
        Seq::empty()
    } else {
        "("@ + joined(reasons) + ")"@
    }
}

/// Words with commas between them.
pub open spec fn joined(words: Seq<&'static str>) -> Seq<char>
    decreases words.len(),
{
    if words.len() == 0 {
        Seq::empty()
    } else if words.len() == 1 {
        words[0]@
    } else {
        joined(words.drop_last()) + ", "@ + words.last()@
    }
}

fn push_reasons(out: &mut String, reasons: &Vec<&'static str>)
    ensures
        final(out)@ == old(out)@ + reasons_text(reasons@),
{
    if reasons.len() == 0 {
        assert(out@ + Seq::<char>::empty() =~= out@);
        return;
    }
    out.push_str("(");
    let ghost start = out@;
    out.push_str(reasons[0]);
    let mut i: usize = 1;
    assert(reasons@.take(1)[0] == reasons@[0]);
    while i < reasons.len()
        invariant
            1 <= i <= reasons.len(),
            out@ == start + joined(reasons@.take(i as int)),
        decreases reasons.len() - i,
    {
        assert(reasons@.take(i as int + 1).drop_last() =~= reasons@.take(i as int));
        out.push_str(", ");
        out.push_str(reasons[i]);
        assert(out@ =~= start + joined(reasons@.take(i as int + 1)));
        i += 1;
    }
    assert(reasons@.take(reasons@.len() as int) =~= reasons@);
    out.push_str(")");
    assert(out@ =~= old(out)@ + reasons_text(reasons@));
}

/// What stands before the state.
pub const PAGE_HEAD: &'static str = "<!doctype html><meta charset=utf-8><title>Cat Printer</title><style>body{font:15px system-ui;margin:2em;max-width:60em}table{border-collapse:collapse}td,th{border:1px solid #ccc;padding:.3em .6em;text-align:left}.s{font-size:1.4em}</style><h1>🐈 Cat Printer <small>catprinterd ";

/// The head of the table.
pub const TABLE_HEAD: &'static str = "</code> · <a href=/health>health JSON</a></p><table><tr><th>#</th><th>Job</th><th>User</th><th>State</th><th>Message</th></tr>";

/// The battery's level, or a dash.
pub open spec fn battery_text(b: Option<u8>) -> Seq<char> {
    match b {
        Some(b) => dec(b as nat) + "%"@,
        None => "—"@,
    }
}

/// The last model, or a dash.
pub open spec fn model_text(m: Option<String>) -> Seq<char> {
    match m {
        Some(m) => escaped(m@),
        None => escaped("—"@),
    }
}

/// The part of the status page before the rows of jobs.
pub open spec fn page_top(h: Health, uri: Seq<char>) -> Seq<char> {
    PAGE_HEAD@ + crate::VERSION@ + "</small></h1><p class=s>State: <b>"@ + h.printer_state@
        + "</b> "@ + reasons_text(h.reasons@) + "<br>"@ + escaped(h.message@)
        + "</p><p>Queue depth "@ + dec(h.queue_depth as nat) + " · jobs so far "@ + dec(
        h.jobs_total as nat,
    ) + " · last model "@ + model_text(h.last_model) + " · battery "@ + battery_text(h.battery)
        + "</p><p>IPP: <code>"@ + uri + TABLE_HEAD@
}

/// The status page: how the printer stands, and the last jobs. What comes from clients is escaped.
pub fn status_page(s: &Store, h: &Health, uri: &str) -> (r: String)
    ensures
        r@ == page_top(*h, uri@) + rows(
            s.jobs@,
            crate::engine::ids::id_list(s.jobs@),
            PAGE_JOBS as nat,
        ) + "</table>"@,
{
    let mut t = owned(PAGE_HEAD);
    t.push_str(crate::VERSION);
    t.push_str("</small></h1><p class=s>State: <b>");
    t.push_str(h.printer_state);
    t.push_str("</b> ");
    push_reasons(&mut t, &h.reasons);
    t.push_str("<br>");
    push_escaped(&mut t, h.message.as_str());
    t.push_str("</p><p>Queue depth ");
    push_dec(&mut t, h.queue_depth as u64);
    t.push_str(" · jobs so far ");
    push_dec(&mut t, h.jobs_total);
    t.push_str(" · last model ");
    match &h.last_model {
        Some(m) => push_escaped(&mut t, m.as_str()),
        None => push_escaped(&mut t, "—"),
    }
    t.push_str(" · battery ");
    let ghost before = t@;
    match h.battery {
        Some(b) => {
            push_dec(&mut t, b as u64);
            t.push_str("%");
        },
        None => t.push_str("—"),
    }
    assert(t@ =~= before + battery_text(h.battery));
    t.push_str("</p><p>IPP: <code>");
    t.push_str(uri);
    t.push_str(TABLE_HEAD);
    assert(t@ =~= page_top(*h, uri@));
    push_rows(&mut t, s);
    t.push_str("</table>");
    t
}

// ------------------------------------------------------------------ laws

/// A text in HTML opens no tag, whatever a client sent.
pub proof fn lemma_escaped_opens_nothing(s: Seq<char>)
    ensures
        !escaped(s).contains('<'),
        !escaped(s).contains('>'),
{
    reveal_strlit("&");
    reveal_strlit("<");
    reveal_strlit(">");
    reveal_strlit("&amp;");
    reveal_strlit("&lt;");
    reveal_strlit("&gt;");
    assert("<"@ =~= seq!['<']);
    assert(">"@ =~= seq!['>']);
    let a = replace(s, "&"@, "&amp;"@);
    lemma_replaced(a, '<', "<"@, "&lt;"@);
    let b = replace(a, "<"@, "&lt;"@);
    lemma_replaced(b, '>', ">"@, "&gt;"@);
    lemma_replaced_keeps_out(b, '<', ">"@, "&gt;"@);
}

/// After a character is replaced by a text without it, none is left.
proof fn lemma_replaced(s: Seq<char>, c: char, from: Seq<char>, to: Seq<char>)
    requires
        from == seq![c],
        !to.contains(c),
    ensures
        !replace(s, from, to).contains(c),
    decreases s.len(),
{
    if s.len() > 0 {
        lemma_replaced(s.skip(1), c, from, to);
        let rest = replace(s.skip(1), from, to);
        assert(s.subrange(0, 1) =~= seq![s[0]]);
        if starts_with(s, from) {
            lemma_not_in_concat(to, rest, c);
        } else {
            assert(s[0] != c);
            assert(!seq![s[0]].contains(c));
            lemma_not_in_concat(seq![s[0]], rest, c);
        }
    }
}

/// A replacement brings in no character that neither the text nor the replacement has.
proof fn lemma_replaced_keeps_out(s: Seq<char>, c: char, from: Seq<char>, to: Seq<char>)
    requires
        from.len() == 1,
        !s.contains(c),
        !to.contains(c),
    ensures
        !replace(s, from, to).contains(c),
    decreases s.len(),
{
    if s.len() > 0 {
        assert forall|i: int| 0 <= i < s.skip(1).len() implies s.skip(1)[i] != c by {
            assert(s[i + 1] == s.skip(1)[i]);
        }
        lemma_replaced_keeps_out(s.skip(1), c, from, to);
        let rest = replace(s.skip(1), from, to);
        if starts_with(s, from) {
            lemma_not_in_concat(to, rest, c);
        } else {
            assert(s[0] != c);
            assert(!seq![s[0]].contains(c));
            lemma_not_in_concat(seq![s[0]], rest, c);
        }
    }
}

proof fn lemma_not_in_concat(a: Seq<char>, b: Seq<char>, c: char)
    requires
        !a.contains(c),
        !b.contains(c),
    ensures
        !(a + b).contains(c),
{
    assert forall|i: int| 0 <= i < (a + b).len() implies (a + b)[i] != c by {
        if i < a.len() {
            assert((a + b)[i] == a[i]);
        } else {
            assert((a + b)[i] == b[i - a.len()]);
        }
    }
}

} // verus!
