//! What requests come to, end to end: which document is printed, which job is cancelled, which jobs are listed,
//! and which status each answer has.

use vstd::prelude::*;

use crate::engine::front::{is_document_added, is_enqueued};
use crate::engine::job_laws::{lemma_lists_of_jobs, lemma_submitted_job};
use crate::engine::laws::lemma_cancelled_once;
use crate::engine::ops::{create_error, doc_view, is_open_at, is_update};
use crate::engine::store::jobs_where;
use crate::engine::{spec_uptime, str_views, Job, JobState, PrinterView, Store, SubmitError, Work};
use crate::ipp::attrs::Filter;
use crate::ipp::codec::{datetime_view, ints_of, is_datetime_of, text_of, texts_of, Group, Request};
use crate::ipp::documents::{
    compression_of, format_refusal, gunzipped, inflated, spec_document, submit_refusal, unzlibbed,
};
use crate::ipp::job_attrs::{job_attributes, job_offers, job_uri, media_name};
use crate::ipp::laws::lemma_everything;
use crate::ipp::media::{find_in, lemma_custom_name_reads_back, spec_all, spec_parse_media_name, MediaHint};
use crate::ipp::option_laws::{lemma_first_value, says_number, stands_first};
use crate::ipp::options::{is_options_of, JobOptions};
use crate::ipp::queries::{
    asked_of, is_asked, is_which, listed, newest_first, op, spec_job_id,
};
use crate::ipp::readback::lemma_datetime_exists;
use crate::ipp::response::{lemma_short, Answer};
use crate::ipp::service::{precheck, Exchange};
use crate::ipp::value::{StrKind, Value, ValueView};
use crate::ipp::PrinterConfig;
use crate::text::{
    dec, dec_int, find_char, is_digit, lemma_dec_reads_back, lemma_find_char, lemma_within_all, split, within_bytes,
};

verus! {

/// There is an answer, and it has this status code.
pub open spec fn refused_with(a: Option<Answer>, code: int) -> bool {
    a is Some && (a->0).status.code() == code
}

/// There is no document, and the answer in its place has this status code.
pub open spec fn no_document(r: Result<Seq<u8>, Answer>, code: int) -> bool {
    r is Err && (r->Err_0).status.code() == code
}

// ------------------------------------------------------------------ checks

/// Requests of another protocol family, without an id, without operation attributes or without a target are
/// refused before anything else.
pub proof fn lemma_refused_requests(req: Request)
    ensures
        req.version / 256 != 1 && req.version / 256 != 2 ==> refused_with(precheck(req), 0x503) && (precheck(req)->0).version == 0x101,
        (req.version / 256 == 1 || req.version / 256 == 2) && req.request_id == 0 ==> refused_with(precheck(req), 0x400),
        (req.version / 256 == 1 || req.version / 256 == 2) && req.groups@.len() == 0 ==> refused_with(precheck(req), 0x400),
        (req.version / 256 == 1 || req.version / 256 == 2) && req.value(op(), "printer-uri"@) is None && req.value(
            op(),
            "job-uri"@,
        ) is None ==> refused_with(precheck(req), 0x400),
        precheck(req) is None ==> req.request_id != 0 && req.groups@.len() > 0 && req.groups@[0].tag
            == Group::OperationAttributes,
{
}

/// Operations that there are not are refused as such.
pub proof fn lemma_unknown_operations(e: Exchange)
    requires
        e.valid(),
        precheck(e.req) is None,
        e.req.op != 2,
        e.req.op != 4,
        e.req.op != 5,
        e.req.op != 6,
        !(8 <= e.req.op <= 11),
        e.req.op != 0x39,
        e.req.op != 0x3B,
        e.req.op != 0x3C,
    ensures
        e.answer.status.code() == 0x501,
        e.after == e.before,
        e.work is None,
{
}

/// Why a job is refused shows in the status: busy where the queue is full or the service stops (so that it is
/// tried again), too long, a format that is not known, an empty document.
pub proof fn lemma_refused_submissions(req: Request, e: SubmitError)
    ensures
        e is Busy || e is NotAccepting ==> submit_refusal(req, e).status.code() == 0x507,
        e is TooLarge ==> submit_refusal(req, e).status.code() == 0x409,
        e is BadFormat ==> submit_refusal(req, e).status.code() == 0x40A,
        e is Empty ==> submit_refusal(req, e).status.code() == 0x400,
        e is NotFound ==> submit_refusal(req, e).status.code() == 0x406,
        e is HasDocument ==> submit_refusal(req, e).status.code() == 0x509,
{
}

// ------------------------------------------------------------------ documents

/// A document without compression is the payload; one with gzip or deflate what that unpacks to, where it is not
/// larger than may be; a deflate stream without the zlib header is unpacked as it is.
pub proof fn lemma_unpacked_documents(req: Request, max: usize, d: Seq<u8>)
    requires
        max < 0xffff_ffff_ffff_ffff,
    ensures
        compression_of(req) == "none"@ ==> spec_document(req, max) == Ok::<Seq<u8>, Answer>(req.payload@),
        compression_of(req) == "gzip"@ && gunzipped(req.payload@, (max + 1) as nat) == Ok::<Seq<u8>, Seq<char>>(d)
            ==> if d.len() <= max {
            spec_document(req, max) == Ok::<Seq<u8>, Answer>(d)
        } else {
            no_document(spec_document(req, max), 0x409)
        },
        compression_of(req) == "gzip"@ && gunzipped(req.payload@, (max + 1) as nat) is Err ==> no_document(spec_document(req, max), 0x410),
        compression_of(req) == "deflate"@ && unzlibbed(req.payload@, (max + 1) as nat) == Ok::<
            Seq<u8>,
            Seq<char>,
        >(d) && d.len() <= max ==> spec_document(req, max) == Ok::<Seq<u8>, Answer>(d),
        compression_of(req) == "deflate"@ && unzlibbed(req.payload@, (max + 1) as nat) is Err && inflated(
            req.payload@,
            (max + 1) as nat,
        ) == Ok::<Seq<u8>, Seq<char>>(d) && d.len() <= max ==> spec_document(req, max) == Ok::<
            Seq<u8>,
            Answer,
        >(d),
        compression_of(req) != "none"@ && compression_of(req) != "gzip"@ && compression_of(req) != "deflate"@
            ==> no_document(spec_document(req, max), 0x40F),
{
    reveal_strlit("none");
    reveal_strlit("gzip");
    reveal_strlit("deflate");
    assert("none"@[0] == 'n' && "gzip"@[0] == 'g' && "deflate"@[0] == 'd');
}

// ------------------------------------------------------------------ printing

/// A print request with a document that can be had, while jobs are accepted and there is room, is answered with
/// success: the job has the next id, what the request asks for and that document, and goes to the worker.
pub proof fn lemma_print_job(e: Exchange, d: Seq<u8>) -> (opts: JobOptions)
    requires
        e.valid(),
        e.before.wf(),
        precheck(e.req) is None,
        e.req.op == 2,
        format_refusal(e.req) is None,
        spec_document(e.req, e.before.cfg.max_document_bytes) == Ok::<Seq<u8>, Answer>(d),
        create_error(e.before, Some(d)) is None,
        e.can_submit(),
        e.room,
    ensures
        e.answer.status.code() == 0,
        e.work == Some(Work::Print(e.before.next_id)),
        e.after.jobs@.contains_key(e.before.next_id),
        !e.before.jobs@.contains_key(e.before.next_id),
        e.after.jobs@[e.before.next_id].doc is Some,
        (e.after.jobs@[e.before.next_id].doc->0)@ == d,
        e.after.jobs@[e.before.next_id].state == JobState::Pending,
        e.after.jobs@[e.before.next_id].opts == opts,
        is_options_of(opts, e.req, e.cfg.max_copies as int),
        forall|k: u32| #[trigger] e.before.jobs@.contains_key(k) ==> e.after.jobs@.contains_key(k)
            && e.after.jobs@[k] == e.before.jobs@[k],
{
    let (opts, doc) = choose|opts: JobOptions, doc: Option<Vec<u8>>|
        doc_view(doc) == Some(d) && #[trigger] e.submits_as(opts, doc);
    lemma_submitted_job(e.before, e.after, e.before.next_id, opts, doc, e.work, e.now);
    opts
}

/// A created job waits for its document, and nothing goes to the worker; sending the document hands exactly that
/// job over, with that document.
pub proof fn lemma_create_job(e: Exchange)
    requires
        e.valid(),
        e.before.wf(),
        precheck(e.req) is None,
        e.req.op == 5,
        create_error(e.before, None) is None,
        e.can_submit(),
        e.room,
    ensures
        e.answer.status.code() == 0,
        e.work is None,
        e.after.jobs@.contains_key(e.before.next_id),
        e.after.jobs@[e.before.next_id].awaiting_document,
        e.after.jobs@[e.before.next_id].state == JobState::Pending,
{
    let (opts, doc) = choose|opts: JobOptions, doc: Option<Vec<u8>>|
        doc_view(doc) == None::<Seq<u8>> && #[trigger] e.submits_as(opts, doc);
    lemma_submitted_job(e.before, e.after, e.before.next_id, opts, doc, e.work, e.now);
}

/// A document that is sent to a job that waits for it is that job's, and the job goes to the worker.
pub proof fn lemma_send_document(e: Exchange, id: u32, last: bool, d: Seq<u8>)
    requires
        e.valid(),
        e.before.wf(),
        precheck(e.req) is None,
        e.req.op == 6,
        spec_job_id(e.req) == Some(id),
        e.req.value(op(), "last-document"@) == Some(Value::Boolean(last)),
        format_refusal(e.req) is None,
        is_open_at(e.before, id),
        e.before.jobs@[id].awaiting_document,
        !e.before.jobs@[id].cancel,
        e.req.payload@.len() > 0,
        spec_document(e.req, e.before.cfg.max_document_bytes) == Ok::<Seq<u8>, Answer>(d),
        e.before.add_error(id, d) is None,
        e.room,
    ensures
        e.answer.status.code() == 0,
        e.work == Some(Work::Print(id)),
        e.after.jobs@.contains_key(id),
        e.after.jobs@[id].doc is Some,
        (e.after.jobs@[id].doc->0)@ == d,
        !e.after.jobs@[id].awaiting_document,
        e.after.jobs@[id].opts == e.before.jobs@[id].opts,
        e.after.jobs@[id].state == e.before.jobs@[id].state,
{
    assert(e.sends_to(id, last));
    let (doc, mid) = choose|doc: Vec<u8>, mid: Store|
        {
            &&& doc@ == d
            &&& #[trigger] is_document_added(e.before, mid, id, doc)
            &&& is_enqueued(mid, e.after, id, e.room, e.work, e.now)
        };
    assert(mid.jobs@[id].doc == Some(doc));
    let q = choose|q: Job| #[trigger]
        is_update(mid, e.after, id, q) && str_views(q.reasons@) == seq!["job-queued"@] && q == (Job {
            reasons: q.reasons,
            ..mid.jobs@[id]
        });
    assert(e.after.jobs@[id] == q);
}

/// A second document, one for a job that is over, and one for a job that is not known are refused each as what
/// it is.
pub proof fn lemma_refused_documents(e: Exchange, id: u32, last: bool)
    requires
        e.valid(),
        precheck(e.req) is None,
        e.req.op == 6,
        spec_job_id(e.req) == Some(id),
        e.req.value(op(), "last-document"@) == Some(Value::Boolean(last)),
        format_refusal(e.req) is None,
        e.req.payload@.len() > 0,
    ensures
        !e.before.jobs@.contains_key(id) ==> e.answer.status.code() == 0x406 && e.after == e.before,
        e.before.jobs@.contains_key(id) && e.before.jobs@[id].state.terminal() ==> e.answer.status.code() == 0x404
            && e.after == e.before,
        is_open_at(e.before, id) && !e.before.jobs@[id].awaiting_document ==> e.answer.status.code() == 0x509
            && e.after == e.before,
{
}

// ------------------------------------------------------------------ cancelling

/// Cancelling a job that waits ends it, and one in work stops it; either is answered with success. One that is
/// over or not known is left alone.
pub proof fn lemma_cancel_job(e: Exchange, id: u32)
    requires
        e.valid(),
        e.before.wf(),
        precheck(e.req) is None,
        e.req.op == 8,
        spec_job_id(e.req) == Some(id),
    ensures
        e.work is None,
        is_open_at(e.before, id) ==> e.answer.status.code() == 0 && e.after.jobs@.contains_key(id)
            && e.after.jobs@[id].cancel,
        is_open_at(e.before, id) && e.before.jobs@[id].state == JobState::Pending ==> e.after.jobs@[id].state
            == JobState::Canceled,
        is_open_at(e.before, id) && e.before.jobs@[id].state == JobState::Processing ==> e.after.jobs@[id].state
            == JobState::Processing,
        !e.before.jobs@.contains_key(id) ==> e.answer.status.code() == 0x406 && e.after == e.before,
        e.before.jobs@.contains_key(id) && e.before.jobs@[id].state.terminal() ==> e.answer.status.code() == 0x404
            && e.after == e.before,
{
    if is_open_at(e.before, id) {
        lemma_cancelled_once(e.before, e.after, id, spec_uptime(e.now));
    }
}

/// The jobs that a user cancels together are over or stopping; no other job changes, but for previews.
pub proof fn lemma_cancel_own_jobs(e: Exchange, id: u32)
    requires
        e.valid(),
        e.before.wf(),
        precheck(e.req) is None,
        e.req.op == 0x39,
        e.after.jobs@.contains_key(id),
    ensures
        e.answer.status.code() == 0,
        e.before.jobs@.contains_key(id),
        ({
            let j = e.before.jobs@[id];
            let own = !j.state.terminal() && j.opts.user@ == crate::ipp::queries::user_of(e.req) && (
            crate::ipp::queries::job_ids_of(e.req).len() == 0 || crate::ipp::queries::job_ids_of(
                e.req,
            ).contains(id));
            &&& own ==> e.after.jobs@[id].cancel
            &&& own && j.state == JobState::Pending ==> e.after.jobs@[id].state == JobState::Canceled
            &&& !own ==> e.after.jobs@[id] == (Job { preview: e.after.jobs@[id].preview, ..j })
        }),
{
    let user = crate::ipp::queries::user_of(e.req);
    let ids = crate::ipp::queries::job_ids_of(e.req);
    crate::engine::job_laws::lemma_own_jobs(e.before, user, ids, id);
}

// ------------------------------------------------------------------ naming jobs

/// A job is named by its id.
pub proof fn lemma_job_by_id(req: Request, g: int, a: int, n: i32)
    requires
        stands_first(req, op(), "job-id"@, g, a),
        says_number(req.groups@[g].attrs@[a].value, n),
    ensures
        n >= 0 ==> spec_job_id(req) == Some(n as u32),
        n < 0 ==> spec_job_id(req) is None,
{
    lemma_first_value(req, op(), "job-id"@, g, a);
    assert(req.number(op(), "job-id"@) == Some(n));
}

proof fn lemma_split_last(s: Seq<char>, d: Seq<char>, c: char)
    requires
        forall|i: int| 0 <= i < d.len() ==> d[i] != c,
    ensures
        split(s.push(c) + d, c).last() == d,
        split(s.push(c) + d, c).len() > 1,
    decreases s.len(),
{
    let t = s.push(c) + d;
    lemma_find_char(t, c);
    assert(t[s.len() as int] == c);
    let k = find_char(t, c)->0;
    assert(find_char(t, c) is Some && 0 <= k <= s.len());
    let rest = t.skip(k + 1);
    if k == s.len() {
        assert(rest =~= d);
        lemma_find_char(d, c);
        assert(find_char(d, c) is None);
        assert(split(d, c) =~= seq![d]);
    } else {
        assert(rest =~= s.skip(k + 1).push(c) + d);
        lemma_split_last(s.skip(k + 1), d, c);
    }
}

/// A job is named by the URI that its answers give, too.
pub proof fn lemma_job_by_uri(cfg: PrinterConfig, req: Request, id: u32)
    requires
        req.number(op(), "job-id"@) is None,
        req.text(op(), "job-uri"@) == Some(job_uri(cfg, id)),
    ensures
        spec_job_id(req) == Some(id),
{
    reveal_strlit("/");
    let d = dec(id as nat);
    lemma_dec_reads_back(id as nat);
    assert(job_uri(cfg, id) =~= cfg.uri().push('/') + d);
    assert forall|i: int| 0 <= i < d.len() implies d[i] != '/' by {
        assert(is_digit(d[i]));
    }
    lemma_split_last(cfg.uri(), d, '/');
}

// ------------------------------------------------------------------ listing jobs

/// Which jobs a word names: those that are over, those of one end, all, or those that are not over.
pub proof fn lemma_which_jobs(which: Seq<char>, state: JobState)
    ensures
        which == "completed"@ ==> (is_which(which, state) <==> state.code() >= 7),
        which == "aborted"@ ==> (is_which(which, state) <==> state.code() == 8),
        which == "canceled"@ ==> (is_which(which, state) <==> state.code() == 7),
        which == "all"@ ==> is_which(which, state),
        which == "not-completed"@ ==> (is_which(which, state) <==> state.code() < 7),
        newest_first("completed"@),
        !newest_first("not-completed"@),
        !newest_first("all"@),
{
    reveal_strlit("completed");
    reveal_strlit("aborted");
    reveal_strlit("canceled");
    reveal_strlit("all");
    reveal_strlit("not-completed");
    assert("completed"@.len() == 9 && "aborted"@.len() == 7 && "canceled"@.len() == 8 && "all"@.len() == 3
        && "not-completed"@.len() == 13);
}

/// A list without a limit has exactly the jobs that are asked for; with one, no more than that, and the first of
/// them. Jobs that are over come newest first, others oldest first.
pub proof fn lemma_listed_jobs(s: Store, req: Request, id: u32)
    ensures
        req.number(op(), "limit"@) is None ==> (listed(s, req).contains(id) <==> s.jobs@.contains_key(id) && is_asked(
            asked_of(req),
        )(s.jobs@[id])),
        listed(s, req).contains(id) ==> s.jobs@.contains_key(id) && is_asked(asked_of(req))(s.jobs@[id]),
        req.number(op(), "limit"@) matches Some(n) ==> n > 0 ==> listed(s, req).len() <= n,
        newest_first(asked_of(req).which) ==> forall|i: int, j: int|
            0 <= i < j < listed(s, req).len() ==> listed(s, req)[i] > listed(s, req)[j],
        !newest_first(asked_of(req).which) ==> forall|i: int, j: int|
            0 <= i < j < listed(s, req).len() ==> listed(s, req)[i] < listed(s, req)[j],
{
    let l = jobs_where(s.jobs@, is_asked(asked_of(req)));
    lemma_lists_of_jobs(s.jobs@, is_asked(asked_of(req)));
    let r = l.reverse();
    assert(r.contains(id) <==> l.contains(id)) by {
        if l.contains(id) {
            let i = choose|i: int| 0 <= i < l.len() && l[i] == id;
            assert(r[l.len() - 1 - i] == id);
        }
        if r.contains(id) {
            let i = choose|i: int| 0 <= i < r.len() && r[i] == id;
            assert(l[l.len() - 1 - i] == id);
        }
    }
    let o = if newest_first(asked_of(req).which) {
        r
    } else {
        l
    };
    if listed(s, req).contains(id) {
        let i = choose|i: int| 0 <= i < listed(s, req).len() && listed(s, req)[i] == id;
        assert(o[i] == id);
        assert(o.contains(id));
    }
}

/// Get-Jobs answers with a group for each job of its list, in its order.
pub proof fn lemma_jobs_answer(e: Exchange)
    requires
        e.valid(),
        precheck(e.req) is None,
        e.req.op == 10,
    ensures
        e.after == e.before,
        e.answer.status.code() == 0,
        e.answer.groups.len() == 1 + listed(e.before, e.req).len(),
        forall|i: int| 1 <= i < e.answer.groups.len() ==> (#[trigger] e.answer.groups[i]).tag == Group::JobAttributes,
{
}

// ------------------------------------------------------------------ what a job says

proof fn lemma_name(s: Seq<char>)
    requires
        s.len() <= 60,
    ensures
        within_bytes(s, 255) == s,
{
    lemma_short(s);
    lemma_within_all(s, 255);
}

/// Where everything is asked of a job, it says its id, its state, how many impressions it has and has done, and
/// how many copies were asked for.
pub proof fn lemma_job_says(cfg: PrinterConfig, j: Job, view: PrinterView, up: u32)
    requires
        j.id <= i32::MAX,
        j.opts.copies <= i32::MAX,
        j.impressions <= i32::MAX,
        j.impressions_completed <= i32::MAX,
    ensures
        ({
            let a = job_attributes(cfg, j, view, up, Filter::Everything);
            &&& a.contains(("job-id"@, ValueView::Integer(j.id as i32)))
            &&& a.contains(
                (
                    "job-state"@,
                    ValueView::Enum(
                        match j.state {
                            JobState::Pending => 3,
                            JobState::Processing => 5,
                            JobState::Canceled => 7,
                            JobState::Aborted => 8,
                            JobState::Completed => 9,
                        },
                    ),
                ),
            )
            &&& j.completed_uptime is None ==> a.contains(("time-at-completed"@, ValueView::NoValue))
            &&& j.completed_uptime matches Some(t) ==> t <= i32::MAX ==> a.contains(
                ("time-at-completed"@, ValueView::Integer(t as i32)),
            )
            &&& a.contains(
                (
                    "number-of-documents"@,
                    ValueView::Integer(
                        if j.awaiting_document {
                            0
                        } else {
                            1
                        },
                    ),
                ),
            )
            &&& a.contains(("job-impressions"@, ValueView::Integer(j.impressions as i32)))
            &&& a.contains(("job-impressions-completed"@, ValueView::Integer(j.impressions_completed as i32)))
            &&& a.contains(("copies"@, ValueView::Integer(j.opts.copies as i32)))
            &&& a.contains(("print-quality"@, ValueView::Enum(j.opts.print_quality)))
            &&& a.contains(("job-name"@, ValueView::Str(StrKind::Name, within_bytes(j.opts.job_name@, 255))))
            &&& a.contains(
                (
                    "job-originating-user-name"@,
                    ValueView::Str(StrKind::Name, within_bytes(j.opts.user@, 255)),
                ),
            )
            &&& a.contains(("job-state-message"@, ValueView::Str(StrKind::Text, within_bytes(j.message@, 1023))))
        }),
{
    let o = job_offers(cfg, j, view, up);
    let a = job_attributes(cfg, j, view, up, Filter::Everything);
    lemma_everything(o, Filter::Everything);
    reveal_strlit("time-at-completed");
    reveal_strlit("number-of-documents");
    lemma_name("time-at-completed"@);
    lemma_name("number-of-documents"@);
    assert(o[11].name == "number-of-documents"@ && o[14].name == "time-at-completed"@);
    assert(a[11] == ("number-of-documents"@, o[11].value) && a[14] == ("time-at-completed"@, o[14].value));
    reveal_strlit("job-id");
    reveal_strlit("job-state");
    reveal_strlit("job-impressions");
    reveal_strlit("job-impressions-completed");
    reveal_strlit("copies");
    reveal_strlit("print-quality");
    reveal_strlit("job-name");
    reveal_strlit("job-originating-user-name");
    reveal_strlit("job-state-message");
    lemma_name("job-id"@);
    lemma_name("job-state"@);
    lemma_name("job-impressions"@);
    lemma_name("job-impressions-completed"@);
    lemma_name("copies"@);
    lemma_name("print-quality"@);
    lemma_name("job-name"@);
    lemma_name("job-originating-user-name"@);
    lemma_name("job-state-message"@);
    assert(o[0].name == "job-id"@ && o[4].name == "job-name"@ && o[5].name == "job-originating-user-name"@);
    assert(o[6].name == "job-state"@ && o[8].name == "job-state-message"@);
    assert(o[18].name == "job-impressions"@ && o[19].name == "job-impressions-completed"@);
    assert(o[23].name == "copies"@ && o[24].name == "print-quality"@);
    assert(a[0] == ("job-id"@, o[0].value) && a[4] == ("job-name"@, o[4].value) && a[5] == (
        "job-originating-user-name"@,
        o[5].value,
    ) && a[6] == ("job-state"@, o[6].value) && a[8] == ("job-state-message"@, o[8].value) && a[18] == (
        "job-impressions"@,
        o[18].value,
    ) && a[19] == ("job-impressions-completed"@, o[19].value) && a[23] == ("copies"@, o[23].value) && a[24] == (
        "print-quality"@,
        o[24].value,
    ));
}

/// The media of a job are told by the name that it gave, else by the name of the size on offer that they are, else by
/// a name made of their size, which is read back as that size.
pub proof fn lemma_told_media(m: MediaHint)
    ensures
        m.name matches Some(n) ==> media_name(m) == n@,
        m.name is None && find_in(spec_all(), m.x_hmm as int, m.y_hmm as int) is Some ==> media_name(m) == (find_in(
            spec_all(),
            m.x_hmm as int,
            m.y_hmm as int,
        )->0).name@,
        m.name is None && find_in(spec_all(), m.x_hmm as int, m.y_hmm as int) is None && m.x_hmm >= 100 && m.y_hmm
            >= 100 && m.x_hmm % 100 == 0 && m.y_hmm % 100 == 0 ==> spec_parse_media_name(media_name(m)) == Some(
            (m.x_hmm, m.y_hmm),
        ),
{
    if m.x_hmm >= 100 && m.y_hmm >= 100 {
        lemma_custom_name_reads_back((m.x_hmm / 100) as nat, (m.y_hmm / 100) as nat);
    }
}

/// A moment from 1970 on is told as the date and time that it is.
pub proof fn lemma_told_moments(secs: int)
    requires
        0 <= secs <= 2_005_949_145_599,
    ensures
        datetime_view(secs) matches ValueView::DateTime(d) && is_datetime_of(d, secs),
{
    lemma_datetime_exists(secs);
}

/// Values are read as what they say: numbers in decimal, yes and no as true and false, and of a list the first.
pub proof fn lemma_texts_of_values(n: i32, b: bool, a: Vec<Value>)
    ensures
        text_of(Value::Integer(n)) == Some(dec_int(n as int)),
        text_of(Value::Enum(n)) == Some(dec_int(n as int)),
        text_of(Value::Boolean(true)) == Some("true"@),
        text_of(Value::Boolean(false)) == Some("false"@),
        a@.len() > 0 ==> text_of(Value::Array(a)) == text_of(a@[0]),
        a@.len() == 0 ==> text_of(Value::Array(a)) is None,
        text_of(Value::NoValue) is None,
{
    reveal_with_fuel(text_of, 2);
}

/// A list of values is read value by value, in order; those without a text, or without a number, are passed over.
pub proof fn lemma_lists_of_values(v: Seq<Value>, x: Value)
    ensures
        text_of(x) matches Some(t) ==> texts_of(v.push(x)) == texts_of(v).push(t),
        text_of(x) is None ==> texts_of(v.push(x)) == texts_of(v),
        x matches Value::Integer(n) ==> ints_of(v.push(x)) == ints_of(v).push(n),
        x is Keyword ==> ints_of(v.push(x)) == ints_of(v),
{
    assert(v.push(x).drop_last() =~= v);
}

} // verus!
