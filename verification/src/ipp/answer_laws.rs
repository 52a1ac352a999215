//! What answers hold for who asked.

use vstd::prelude::*;

use crate::engine::{JobState, PrinterState, Work};
use crate::engine::ops::is_open_at;
use crate::ipp::attrs::{Filter, Grp};
use crate::ipp::codec::{is_request_of, readable, Group, Request, Status};
use crate::ipp::documents::{format_refusal, has_word};
use crate::ipp::job_attrs::is_job_filter;
use crate::ipp::printer_laws::lemma_state_is_told;
use crate::ipp::queries::{ids_of, op, requested_of, spec_job_id};
use crate::ipp::service::{malformed, not_flash, precheck, Exchange};
use crate::ipp::service_laws::lemma_job_says;
use crate::ipp::value::ValueView;
use crate::ipp::{COMPRESSIONS, DOCUMENT_FORMATS};
use crate::text::lower;

verus! {

// ------------------------------------------------------------------ messages

/// A message begins with its version, operation and number, high bytes first; its document is what follows its
/// attributes.
pub proof fn lemma_message_heads(req: Request, body: Seq<u8>)
    requires
        readable(body),
        is_request_of(req, body),
    ensures
        req.version == 256 * body[0] + body[1],
        req.op == 256 * body[2] + body[3],
        body[4] == 0 ==> req.request_id == 65536 * body[5] + 256 * body[6] + body[7],
        body.len() >= 8,
        req.payload@.len() <= body.len(),
        forall|i: int|
            0 <= i < req.payload@.len() ==> req.payload@[i] == body[body.len() - req.payload@.len() + i],
{
}

/// A message that is shorter than its head cannot be read.
pub proof fn lemma_short_messages(body: Seq<u8>)
    requires
        body.len() < 8,
    ensures
        !readable(body),
        malformed(body).status.code() == 0x400,
{
}

// ------------------------------------------------------------------ the printer

/// Who asks the printer for nothing in particular is told everything: the answer is a success with one group more,
/// which tells how the printer stands; nothing changes.
pub proof fn lemma_printer_answers(e: Exchange)
    requires
        e.valid(),
        e.before.wf(),
        e.before.queued() <= i32::MAX,
        precheck(e.req) is None,
        e.req.op == 11,
        requested_of(e.req).len() == 0,
    ensures
        e.after == e.before,
        e.work is None,
        e.answer.status.code() == 0,
        e.answer.groups.len() == 2,
        e.answer.groups[1].tag == Group::PrinterAttributes,
        e.before.view.state == PrinterState::Idle ==> e.answer.groups[1].attrs.contains(
            ("printer-state"@, ValueView::Enum(3)),
        ),
        e.before.view.state == PrinterState::Processing ==> e.answer.groups[1].attrs.contains(
            ("printer-state"@, ValueView::Enum(4)),
        ),
        e.answer.groups[1].attrs.contains(
            ("printer-is-accepting-jobs"@, ValueView::Boolean(e.before.view.accepting)),
        ),
        e.answer.groups[1].attrs.contains(("queued-job-count"@, ValueView::Integer(e.before.queued() as i32))),
{
    let attrs = choose|attrs: Seq<(Seq<char>, ValueView)>| #[trigger]
        crate::ipp::printer_attrs::is_printer_answer(attrs, e.cfg, e.before, e.now, requested_of(e.req))
            && e.answer == if attrs.len() == 0 {
            crate::ipp::response::plain(e.req.version, Status::SuccessfulOk, e.req.request_id)
        } else {
            crate::ipp::response::with_group(
                crate::ipp::response::plain(e.req.version, Status::SuccessfulOk, e.req.request_id),
                Group::PrinterAttributes,
                attrs,
            )
        };
    let f = choose|f: Filter|
        {
            &&& #[trigger] crate::ipp::printer_attrs::is_printer_filter(f, requested_of(e.req))
            &&& attrs == if crate::ipp::attrs::has_fold(requested_of(e.req), "media-col-database"@) {
                crate::ipp::attrs::admitted(
                    crate::ipp::printer_attrs::printer_offers(e.cfg, e.before, e.now),
                    f,
                ).push(
                    (
                        crate::text::within_bytes("media-col-database"@, 255),
                        crate::ipp::media::database_view(),
                    ),
                )
            } else {
                crate::ipp::attrs::admitted(
                    crate::ipp::printer_attrs::printer_offers(e.cfg, e.before, e.now),
                    f,
                )
            }
        };
    assert(!crate::ipp::attrs::has_fold(requested_of(e.req), "media-col-database"@));
    lemma_state_is_told(e.cfg, e.before, e.now, f);
    assert(attrs.len() > 0) by {
        let x = ("printer-is-accepting-jobs"@, ValueView::Boolean(e.before.view.accepting));
        assert(attrs.contains(x));
    }
}

// ------------------------------------------------------------------ jobs

/// Who asks for a job that is known, and for nothing in particular, is told all of it: its id, its state and how far
/// it is. One that is not known is not found.
pub proof fn lemma_job_answers(e: Exchange, id: u32)
    requires
        e.valid(),
        e.before.wf(),
        precheck(e.req) is None,
        e.req.op == 9,
        spec_job_id(e.req) == Some(id),
        requested_of(e.req).len() == 0,
        id <= i32::MAX,
    ensures
        e.after == e.before,
        !e.before.jobs@.contains_key(id) ==> e.answer.status.code() == 0x406,
        e.before.jobs@.contains_key(id) ==> e.answer.status.code() == 0 && e.answer.groups.len() == 2
            && e.answer.groups[1].tag == Group::JobAttributes,
        e.before.jobs@.contains_key(id) && e.before.jobs@[id].opts.copies <= i32::MAX
            && e.before.jobs@[id].impressions <= i32::MAX && e.before.jobs@[id].impressions_completed <= i32::MAX ==> {
            let a = e.answer.groups[1].attrs;
            let j = e.before.jobs@[id];
            &&& a.contains(("job-id"@, ValueView::Integer(id as i32)))
            &&& j.state == JobState::Completed ==> a.contains(("job-state"@, ValueView::Enum(9)))
            &&& j.state == JobState::Processing ==> a.contains(("job-state"@, ValueView::Enum(5)))
            &&& a.contains(("copies"@, ValueView::Integer(j.opts.copies as i32)))
        },
{
    if e.before.jobs@.contains_key(id) {
        let f = choose|f: Filter| #[trigger]
            is_job_filter(f, requested_of(e.req), true) && e.answer == crate::ipp::response::with_group(
                crate::ipp::response::plain(e.req.version, Status::SuccessfulOk, e.req.request_id),
                Group::JobAttributes,
                crate::ipp::job_attrs::job_attributes(
                    e.cfg,
                    e.before.jobs@[id],
                    e.before.view,
                    crate::engine::spec_uptime(e.now),
                    f,
                ),
            );
        let j = e.before.jobs@[id];
        assert(j.id == id);
        if j.opts.copies <= i32::MAX && j.impressions <= i32::MAX && j.impressions_completed <= i32::MAX {
            lemma_job_says(e.cfg, j, e.before.view, crate::engine::spec_uptime(e.now));
        }
    }
}

/// Who names a group of a job's attributes gets all of them, who names attributes gets those, and who names nothing
/// gets all of one job, but only id and URI of each in a list.
pub proof fn lemma_job_filters(f: Filter, requested: Seq<Seq<char>>, default_all: bool, n: Seq<char>)
    requires
        is_job_filter(f, requested, default_all),
    ensures
        requested.len() == 0 && default_all ==> f.admits(n, Grp::Desc),
        requested.len() == 0 && !default_all ==> (f.admits(n, Grp::Desc) <==> n == "job-id"@ || n == "job-uri"@),
        requested.contains("all"@) ==> f.admits(n, Grp::Desc),
        requested.contains(n) ==> f.admits(n, Grp::Desc),
        requested.len() > 0 && !requested.contains("all"@) && !requested.contains("job-description"@)
            && !requested.contains("job-template"@) ==> (f.admits(n, Grp::Desc) <==> requested.contains(n)),
{
    if requested.len() == 0 && !default_all {
        let l = seq!["job-id"@, "job-uri"@];
        assert(l[0] == "job-id"@ && l[1] == "job-uri"@);
        assert(l.contains(n) <==> n == "job-id"@ || n == "job-uri"@) by {
            if l.contains(n) {
                let i = choose|i: int| 0 <= i < l.len() && l[i] == n;
                assert(i == 0 || i == 1);
            }
        }
    }
}

/// Numbers that name jobs are taken as they are; those below zero name none.
pub proof fn lemma_named_jobs(v: Seq<i32>, n: u32)
    requires
        n <= i32::MAX,
    ensures
        ids_of(v).contains(n) <==> v.contains(n as i32),
        ids_of(v).len() <= v.len(),
    decreases v.len(),
{
    if v.len() > 0 {
        let rest = v.drop_last();
        lemma_named_jobs(rest, n);
        let (some, all) = (ids_of(rest), ids_of(v));
        assert(v.contains(n as i32) <==> rest.contains(n as i32) || v.last() == n as i32) by {
            if v.contains(n as i32) {
                let i = choose|i: int| 0 <= i < v.len() && v[i] == n as i32;
                if i < rest.len() {
                    assert(rest[i] == n as i32);
                }
            }
            if rest.contains(n as i32) {
                let i = choose|i: int| 0 <= i < rest.len() && rest[i] == n as i32;
                assert(v[i] == n as i32);
            }
            assert(v[v.len() - 1] == v.last());
        }
        if v.last() >= 0 {
            if some.contains(n) {
                let i = choose|i: int| 0 <= i < some.len() && some[i] == n;
                assert(all[i] == n);
            }
            assert(all[some.len() as int] == v.last() as u32);
            if all.contains(n) {
                let i = choose|i: int| 0 <= i < all.len() && all[i] == n;
                if i < some.len() {
                    assert(some[i] == n);
                }
            }
        }
    }
}

// ------------------------------------------------------------------ the rest

/// Checking a job changes nothing: it is answered with success where its format and compression can be had, and else
/// with why not.
pub proof fn lemma_validate_job(e: Exchange)
    requires
        e.valid(),
        precheck(e.req) is None,
        e.req.op == 4,
    ensures
        e.after == e.before,
        e.work is None,
        format_refusal(e.req) is None <==> e.answer.status.code() == 0,
        format_refusal(e.req) matches Some(a) ==> e.answer == a,
{
    crate::ipp::laws::lemma_document_refusal(e.req, e.before.cfg.max_document_bytes);
}

/// A format is refused where the printer does not name it, and a compression likewise; whatever the case of their
/// letters.
pub proof fn lemma_refused_formats(req: Request)
    ensures
        ({
            let f = req.text(op(), "document-format"@);
            let c = req.text(op(), "compression"@);
            &&& f is None && c is None ==> format_refusal(req) is None
            &&& f is Some && !has_word(DOCUMENT_FORMATS@, f->0) ==> format_refusal(req) is Some && (format_refusal(
                req,
            )->0).status.code() == 0x40A
            &&& (f is None || has_word(DOCUMENT_FORMATS@, f->0)) && c is Some && !has_word(COMPRESSIONS@, c->0)
                ==> format_refusal(req) is Some && (format_refusal(req)->0).status.code() == 0x40F
            &&& (f is Some && lower(f->0) == lower("image/pwg-raster"@)) && c is None ==> format_refusal(req) is None
            &&& (f is Some && lower(f->0) == lower("image/jpeg"@)) && c is None ==> format_refusal(req) is None
            &&& f is None && c is Some && lower(c->0) == lower("gzip"@) ==> format_refusal(req) is None
        }),
{
    assert(DOCUMENT_FORMATS@[0]@ == "image/pwg-raster"@);
    assert(DOCUMENT_FORMATS@[1]@ == "image/jpeg"@);
    assert(COMPRESSIONS@[1]@ == "gzip"@);
}

/// Asking the printer to show itself is noted each time, and goes to the worker unless it waits there already; what
/// it cannot do instead of flashing is told.
pub proof fn lemma_identify(e: Exchange)
    requires
        e.valid(),
        precheck(e.req) is None,
        e.req.op == 0x3C,
        (crate::engine::Engine { store: e.before }).counts(),
    ensures
        e.after.identify_requests == e.before.identify_requests + 1,
        e.after.jobs@ == e.before.jobs@,
        e.work == Some(Work::Identify) <==> !e.before.identify_pending && e.room,
        e.req.value(None, "identify-actions"@) is None ==> e.answer.status.code() == 0,
        e.answer.status.code() == 0 || e.answer.status.code() == 1,
{
    let none = Seq::<crate::ipp::value::Value>::empty();
    assert(crate::ipp::codec::texts_of(none) =~= Seq::<Seq<char>>::empty());
    assert(not_flash(Seq::<Seq<char>>::empty()) =~= Seq::<Seq<char>>::empty());
}

/// Closing a job that has its document changes nothing; one that waits for it is cancelled.
pub proof fn lemma_close_job(e: Exchange, id: u32)
    requires
        e.valid(),
        e.before.wf(),
        precheck(e.req) is None,
        e.req.op == 0x3B,
        spec_job_id(e.req) == Some(id),
    ensures
        !e.before.jobs@.contains_key(id) ==> e.answer.status.code() == 0x406 && e.after == e.before,
        e.before.jobs@.contains_key(id) ==> e.answer.status.code() == 0,
        e.before.jobs@.contains_key(id) && !e.before.jobs@[id].awaiting_document ==> e.after == e.before,
        is_open_at(e.before, id) && e.before.jobs@[id].awaiting_document && e.before.jobs@[id].state
            == JobState::Pending ==> e.after.jobs@[id].state == JobState::Canceled,
{
    if is_open_at(e.before, id) && e.before.jobs@[id].awaiting_document {
        crate::engine::laws::lemma_cancelled_once(e.before, e.after, id, crate::engine::spec_uptime(e.now));
    }
}

/// Who submits a job that is accepted is told its id and that it waits.
pub proof fn lemma_print_answer(e: Exchange, d: Seq<u8>)
    requires
        e.valid(),
        e.before.wf(),
        precheck(e.req) is None,
        e.req.op == 2,
        format_refusal(e.req) is None,
        crate::ipp::documents::spec_document(e.req, e.before.cfg.max_document_bytes) == Ok::<
            Seq<u8>,
            crate::ipp::response::Answer,
        >(d),
        crate::engine::ops::create_error(e.before, Some(d)) is None,
        e.can_submit(),
        e.room,
        e.before.next_id <= i32::MAX,
        e.cfg.max_copies <= i32::MAX,
    ensures
        e.answer.groups.len() == 2,
        e.answer.groups[1].tag == Group::JobAttributes,
        e.answer.groups[1].attrs.contains(("job-id"@, ValueView::Integer(e.before.next_id as i32))),
        e.answer.groups[1].attrs.contains(("job-state"@, ValueView::Enum(3))),
{
    let opts = crate::ipp::service_laws::lemma_print_job(e, d);
    let id = e.before.next_id;
    let (o, doc) = choose|o: crate::ipp::options::JobOptions, doc: Option<Vec<u8>>|
        crate::engine::ops::doc_view(doc) == Some(d) && #[trigger] e.submits_as(o, doc);
    crate::engine::job_laws::lemma_submitted_job(e.before, e.after, id, o, doc, e.work, e.now);
    let j = e.after.jobs@[id];
    assert(j.impressions == 0 && j.impressions_completed == 0);
    lemma_job_says(e.cfg, j, e.after.view, crate::engine::spec_uptime(e.now));
}

} // verus!
