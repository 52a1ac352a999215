//! What holds of every exchange with the printer.

use vstd::prelude::*;

use crate::engine::front::{is_document_added, is_enqueued};
use crate::engine::laws::{
    keeps_history, lemma_cancel_all_keeps, lemma_cancel_keeps, lemma_close_keeps, lemma_document_keeps,
    lemma_submit_keeps,
};
use crate::engine::store::{is_mine, jobs_where};
use crate::engine::{spec_uptime, Store};
use crate::ipp::attrs::{admitted, Filter, Offer};
use crate::ipp::codec::{Group, Request};
use crate::ipp::documents::{format_refusal, spec_document};
use crate::ipp::options::JobOptions;
use crate::ipp::queries::{job_ids_of, spec_job_id, user_of};
use crate::ipp::response::{head_attrs, reply_version, Answer};
use crate::ipp::service::{precheck, Exchange};
use crate::ipp::{
    OP_CANCEL_JOB, OP_CANCEL_MY_JOBS, OP_CLOSE_JOB, OP_CREATE_JOB, OP_PRINT_JOB, OP_SEND_DOCUMENT,
};
use crate::text::within_bytes;

verus! {

/// The answer begins with an operation group that begins with charset and language.
pub open spec fn begins_well(a: Answer) -> bool {
    &&& a.groups.len() > 0
    &&& a.groups[0].tag == Group::OperationAttributes
    &&& head_attrs().is_prefix_of(a.groups[0].attrs)
}

pub proof fn lemma_document_refusal(req: Request, max: usize)
    ensures
        format_refusal(req) matches Some(a) ==> begins_well(a) && a.request_id == req.request_id
            && a.version == reply_version(req.version) && a.status.code() >= 0x400,
        spec_document(req, max) matches Err(a) ==> begins_well(a) && a.request_id == req.request_id
            && a.version == reply_version(req.version) && a.status.code() >= 0x400,
{
}

/// Every answer carries the id of its request, and its version, unless that is not supported.
pub proof fn lemma_answer_echoes(e: Exchange)
    requires
        e.valid(),
    ensures
        e.answer.request_id == e.req.request_id,
        e.answer.version == reply_version(e.req.version),
{
    lemma_document_refusal(e.req, e.before.cfg.max_document_bytes);
}

/// Every answer begins with charset and language.
pub proof fn lemma_answer_begins_well(e: Exchange)
    requires
        e.valid(),
    ensures
        begins_well(e.answer),
{
    lemma_document_refusal(e.req, e.before.cfg.max_document_bytes);
}

/// A request that is answered with an error changed nothing, and nothing goes to the worker.
pub proof fn lemma_error_changes_nothing(e: Exchange)
    requires
        e.valid(),
        e.answer.status.code() >= 0x400,
    ensures
        e.after == e.before,
        e.work is None,
{
    lemma_document_refusal(e.req, e.before.cfg.max_document_bytes);
}

/// A request that fails the checks before its operation is answered with an error, whatever the
/// operation, and changes nothing.
pub proof fn lemma_precheck_refuses(e: Exchange)
    requires
        e.valid(),
        precheck(e.req) is Some,
    ensures
        e.answer.status.code() >= 0x400,
        e.after == e.before,
        e.work is None,
{
}

/// Whatever is asked of the printer, jobs that were over stay as they were or are forgotten, and no id is
/// ever given to a second job.
pub proof fn lemma_history_is_kept(e: Exchange)
    requires
        e.valid(),
        e.before.wf(),
    ensures
        keeps_history(e.before, e.after),
{
    lemma_document_refusal(e.req, e.before.cfg.max_document_bytes);
    let req = e.req;
    if precheck(req) is None {
        if req.op == OP_PRINT_JOB || req.op == OP_CREATE_JOB {
            if e.after != e.before {
                let doc = if req.op == OP_CREATE_JOB {
                    None
                } else {
                    Some(spec_document(req, e.before.cfg.max_document_bytes)->Ok_0)
                };
                assert(e.submits(doc));
                let (opts, d) = choose|opts: JobOptions, d: Option<Vec<u8>>|
                    crate::engine::ops::doc_view(d) == doc && #[trigger] e.submits_as(opts, d);
                lemma_submit_keeps(
                    e.before,
                    e.after,
                    e.before.next_id,
                    opts,
                    d,
                    e.room,
                    e.work,
                    e.now,
                );
            }
        } else if req.op == OP_SEND_DOCUMENT {
            if e.after != e.before {
                let id = spec_job_id(req)->0;
                if req.payload@.len() == 0 {
                    lemma_close_keeps(e.before, e.after, id, e.now);
                } else {
                    let d = spec_document(req, e.before.cfg.max_document_bytes)->Ok_0;
                    let (doc, mid) = choose|doc: Vec<u8>, mid: Store|
                        {
                            &&& doc@ == d
                            &&& #[trigger] is_document_added(e.before, mid, id, doc)
                            &&& is_enqueued(mid, e.after, id, e.room, e.work, e.now)
                        };
                    lemma_document_keeps(e.before, mid, e.after, id, doc, e.room, e.work, e.now);
                }
            }
        } else if req.op == OP_CANCEL_JOB || req.op == OP_CLOSE_JOB {
            if e.after != e.before {
                lemma_cancel_keeps(e.before, e.after, spec_job_id(req)->0, spec_uptime(e.now));
            }
        } else if req.op == OP_CANCEL_MY_JOBS {
            lemma_cancel_all_keeps(
                e.before,
                e.after,
                jobs_where(e.before.jobs@, is_mine(user_of(req), job_ids_of(req))),
                spec_uptime(e.now),
            );
        }
    }
}

/// Where everything is wanted, everything on offer is given, in order.
pub proof fn lemma_everything(offers: Seq<Offer>, f: Filter)
    requires
        f is Everything || (f matches Filter::Printer { desc, tmpl, .. } && desc && tmpl),
    ensures
        admitted(offers, f).len() == offers.len(),
        forall|i: int|
            0 <= i < offers.len() ==> #[trigger] admitted(offers, f)[i] == (
                within_bytes(offers[i].name, 255),
                offers[i].value,
            ),
    decreases offers.len(),
{
    if offers.len() > 0 {
        lemma_everything(offers.drop_last(), f);
        assert forall|i: int| 0 <= i < offers.len() implies #[trigger] admitted(offers, f)[i] == (
            within_bytes(offers[i].name, 255),
            offers[i].value,
        ) by {
            if i < offers.len() - 1 {
                assert(admitted(offers, f)[i] == admitted(offers.drop_last(), f)[i]);
            }
        }
    }
}

/// Nothing is given that is not on offer and wanted.
pub proof fn lemma_only_what_is_wanted(offers: Seq<Offer>, f: Filter, i: int)
    requires
        0 <= i < admitted(offers, f).len(),
    ensures
        exists|k: int|
            0 <= k < offers.len() && f.admits((#[trigger] offers[k]).name, offers[k].grp)
                && admitted(offers, f)[i] == (
                within_bytes(offers[k].name, 255),
                offers[k].value,
            ),
    decreases offers.len(),
{
    let rest = offers.drop_last();
    let o = offers.last();
    if f.admits(o.name, o.grp) && i == admitted(rest, f).len() {
        assert(offers[offers.len() - 1] == o);
    } else {
        lemma_only_what_is_wanted(rest, f, i);
        let k = choose|k: int|
            0 <= k < rest.len() && f.admits((#[trigger] rest[k]).name, rest[k].grp) && admitted(
                rest,
                f,
            )[i] == (within_bytes(rest[k].name, 255), rest[k].value);
        assert(offers[k] == rest[k]);
    }
}

} // verus!
