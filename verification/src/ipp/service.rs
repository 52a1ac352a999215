//! The printer's operations.

use vstd::prelude::*;

use crate::engine::front::{
    is_closed_empty, is_document_added, is_enqueued, is_submitted, Engine,
};
use crate::engine::ops::{
    are_cancelled, cancel_outcome, create_error, is_cancelled, is_open_at,
};
use crate::engine::store::{is_mine, jobs_where, Store};
use crate::engine::{spec_uptime, CancelOutcome, Now, Work};
use crate::ipp::codec::{
    array_view, flat, is_request_of, parse, peek_header, readable, string_views, texts_of, v_array,
    v_kw, Group, Request, Resp, Status, be32,
};
use crate::ipp::documents::{
    check_document_format, document_bytes, format_refusal, one_attr, spec_document, submit_error,
    submit_refusal,
};
use crate::ipp::options::{is_options_of, JobOptions};
use crate::ipp::queries::{
    get_job_attributes, get_jobs, get_printer_attributes, is_job_attributes_reply, is_jobs_reply,
    is_printer_reply, job_id_from, job_ids, job_ids_of, job_reply, job_response, op,
    requesting_user, spec_job_id, user_of,
};
use crate::ipp::readback::{lemma_answer_settled, lemma_refusal_says, says};
use crate::ipp::response::{plain, refusal, refuse, with_group, Answer};
use crate::ipp::value::{value_models, writable, StrKind, Value, ValueView};
use crate::ipp::wire::{be16, wire_bytes};
use crate::ipp::{
    PrinterConfig, OP_CANCEL_JOB, OP_CANCEL_MY_JOBS, OP_CLOSE_JOB, OP_CREATE_JOB,
    OP_GET_JOBS, OP_GET_JOB_ATTRIBUTES, OP_GET_PRINTER_ATTRIBUTES, OP_IDENTIFY_PRINTER,
    OP_PRINT_JOB, OP_SEND_DOCUMENT, OP_VALIDATE_JOB,
};
use crate::text::{same_str, within_bytes};

verus! {

broadcast use vstd::std_specs::btree::group_btree_axioms;

/// The IPP service.
#[derive(Debug)]
pub struct IppService {
    pub engine: Engine,
    pub cfg: PrinterConfig,
}

/// What comes of a request body.
#[derive(Debug)]
pub struct IppOutcome {
    pub body: Vec<u8>,
    /// HTTP status: 400 for a body that is no IPP message at all, else 200.
    pub http_status: u16,
    /// What goes to the worker.
    pub work: Option<Work>,
}

/// What is said of a request that could not be worked on.
pub const HICCUP: &'static str = "printer service hiccup — please retry";

/// The answer to a request that could not be worked on: busy, which the CUPS backend merely retries
/// after a pause.
pub open spec fn hiccup(req: Request) -> Answer {
    refusal(req.version, Status::ServerErrorBusy, req.request_id, HICCUP@)
}

/// A refusal with the request's version and id.
pub open spec fn refused(req: Request, status: Status, msg: Seq<char>) -> Answer {
    refusal(req.version, status, req.request_id, msg)
}

/// Success, with nothing to say.
pub open spec fn done(req: Request) -> Answer {
    plain(req.version, Status::SuccessfulOk, req.request_id)
}

fn refuse_req(req: &Request, status: Status, msg: &str) -> (r: Resp)
    ensures
        r.ok(),
        r.answer() == refused(*req, status, msg@),
{
    refuse(req.version, status, req.request_id, msg)
}

fn done_resp(req: &Request) -> (r: Resp)
    ensures
        r.ok(),
        r.answer() == done(*req),
{
    Resp::new(req.version, Status::SuccessfulOk, req.request_id)
}

// ------------------------------------------------------------------ validation

/// The answer to a request that is refused before its operation is looked at.
pub open spec fn precheck(req: Request) -> Option<Answer> {
    let names = req.operation_names();
    if req.version / 256 != 1 && req.version / 256 != 2 {
        Some(
            refusal(
                0x0101,
                Status::ServerErrorVersionNotSupported,
                req.request_id,
                "IPP version not supported"@,
            ),
        )
    } else if req.request_id == 0 {
        Some(refused(req, Status::ClientErrorBadRequest, "request-id must be positive"@))
    } else if req.groups@.len() == 0 || req.groups@[0].tag != Group::OperationAttributes {
        Some(refused(req, Status::ClientErrorBadRequest, "missing operation attributes"@))
    } else if names.len() < 2 || names[0] != "attributes-charset"@ || names[1]
        != "attributes-natural-language"@ {
        Some(
            refused(
                req,
                Status::ClientErrorBadRequest,
                "attributes-charset and attributes-natural-language must come first"@,
            ),
        )
    } else if req.value(op(), "printer-uri"@) is None && req.value(op(), "job-uri"@) is None {
        Some(refused(req, Status::ClientErrorBadRequest, "missing printer-uri"@))
    } else {
        None
    }
}

/// The checks before the operation: version, request id, operation attributes and target.
pub fn check_request(req: &Request) -> (r: Option<Resp>)
    ensures
        match r {
            Some(a) => precheck(*req) == Some(a.answer()) && a.ok(),
            None => precheck(*req) is None,
        },
{
    let major: u8 = req.version_major();
    if major != 1 && major != 2 {
        return Some(
            refuse(
                0x0101,
                Status::ServerErrorVersionNotSupported,
                req.request_id,
                "IPP version not supported",
            ),
        );
    }
    if req.request_id == 0 {
        return Some(
            refuse_req(req, Status::ClientErrorBadRequest, "request-id must be positive"),
        );
    }
    if req.first_group_tag() != Some(Group::OperationAttributes) {
        return Some(
            refuse_req(req, Status::ClientErrorBadRequest, "missing operation attributes"),
        );
    }
    let names = req.operation_attr_names();
    assert(string_views(names@).len() == names@.len());
    if names.len() < 2 || !same_str(names[0].as_str(), "attributes-charset") || !same_str(
        names[1].as_str(),
        "attributes-natural-language",
    ) {
        return Some(
            refuse_req(
                req,
                Status::ClientErrorBadRequest,
                "attributes-charset and attributes-natural-language must come first",
            ),
        );
    }
    let o = Some(Group::OperationAttributes);
    if req.get(o, "printer-uri").is_none() && req.get(o, "job-uri").is_none() {
        return Some(refuse_req(req, Status::ClientErrorBadRequest, "missing printer-uri"));
    }
    None
}

// ------------------------------------------------------------------ operations

/// The state of the world before and after a request, and what the request came to.
pub struct Exchange {
    pub cfg: PrinterConfig,
    pub before: Store,
    pub after: Store,
    pub req: Request,
    /// The worker's queue has room.
    pub room: bool,
    pub now: Now,
    pub answer: Answer,
    pub work: Option<Work>,
}

impl Exchange {
    /// Nothing but the answer came of the request.
    pub open spec fn only_says(self, a: Answer) -> bool {
        self.after == self.before && self.work is None && self.answer == a
    }

    /// New jobs can be counted, and copies limited.
    pub open spec fn can_submit(self) -> bool {
        (Engine { store: self.before }).counts() && self.cfg.max_copies >= 1
    }

    /// A job with these options, which are the request's, and this document was submitted.
    pub open spec fn submits_as(self, opts: JobOptions, d: Option<Vec<u8>>) -> bool {
        &&& is_options_of(opts, self.req, self.cfg.max_copies as int)
        &&& is_submitted(
            self.before,
            self.after,
            self.before.next_id,
            opts,
            d,
            self.room,
            self.work,
            self.now,
        )
    }

    /// A job with the request's options, and this document, was submitted.
    pub open spec fn submits(self, doc: Option<Seq<u8>>) -> bool {
        if !self.can_submit() {
            self.only_says(hiccup(self.req))
        } else {
            match create_error(self.before, doc) {
                Some(e) => self.only_says(submit_refusal(self.req, e)),
                None => {
                    let id = self.before.next_id;
                    &&& exists|opts: JobOptions, d: Option<Vec<u8>>|
                        crate::engine::ops::doc_view(d) == doc && #[trigger] self.submits_as(
                            opts,
                            d,
                        )
                    &&& self.answer == job_reply(self.cfg, self.after, self.req, id, self.now)
                },
            }
        }
    }

    /// Print-Job.
    pub open spec fn prints(self) -> bool {
        match format_refusal(self.req) {
            Some(a) => self.only_says(a),
            None => match spec_document(self.req, self.before.cfg.max_document_bytes) {
                Err(a) => self.only_says(a),
                Ok(d) => self.submits(Some(d)),
            },
        }
    }

    /// Send-Document to an open job that the request names.
    pub open spec fn sends_to(self, id: u32, last: bool) -> bool {
        if self.req.payload@.len() == 0 {
            // An empty last document closes the job.
            &&& if last {
                is_closed_empty(self.before, self.after, id, self.now)
            } else {
                self.after == self.before
            }
            &&& self.work is None
            &&& self.answer == job_reply(self.cfg, self.after, self.req, id, self.now)
        } else {
            match spec_document(self.req, self.before.cfg.max_document_bytes) {
                Err(a) => self.only_says(a),
                Ok(d) => match self.before.add_error(id, d) {
                    Some(e) => self.only_says(submit_refusal(self.req, e)),
                    None => {
                        &&& exists|doc: Vec<u8>, mid: Store|
                            {
                                &&& doc@ == d
                                &&& #[trigger] is_document_added(self.before, mid, id, doc)
                                &&& is_enqueued(
                                    mid,
                                    self.after,
                                    id,
                                    self.room,
                                    self.work,
                                    self.now,
                                )
                            }
                        &&& self.answer == job_reply(self.cfg, self.after, self.req, id, self.now)
                    },
                },
            }
        }
    }

    /// Send-Document.
    pub open spec fn sends(self) -> bool {
        let last = self.req.value(op(), "last-document"@);
        match (spec_job_id(self.req), last) {
            (None, _) => self.only_says(
                refused(self.req, Status::ClientErrorBadRequest, "missing job-id"@),
            ),
            (Some(id), Some(Value::Boolean(last))) => match format_refusal(self.req) {
                Some(a) => self.only_says(a),
                None => if !self.before.jobs@.contains_key(id) {
                    self.only_says(refused(self.req, Status::ClientErrorNotFound, "job not found"@))
                } else if self.before.jobs@[id].state.terminal() {
                    self.only_says(
                        refused(
                            self.req,
                            Status::ClientErrorNotPossible,
                            "job is already complete"@,
                        ),
                    )
                } else if !self.before.jobs@[id].awaiting_document && self.req.payload@.len() > 0 {
                    self.only_says(
                        refused(
                            self.req,
                            Status::ServerErrorMultipleDocumentJobsNotSupported,
                            "only one document per job"@,
                        ),
                    )
                } else {
                    self.sends_to(id, last)
                },
            },
            _ => self.only_says(
                refused(self.req, Status::ClientErrorBadRequest, "missing last-document"@),
            ),
        }
    }

    /// Cancel-Job.
    pub open spec fn cancels(self) -> bool {
        match spec_job_id(self.req) {
            None => self.only_says(
                refused(self.req, Status::ClientErrorBadRequest, "missing job-id"@),
            ),
            Some(id) => match cancel_outcome(self.before, id) {
                CancelOutcome::NotFound => self.only_says(
                    refused(self.req, Status::ClientErrorNotFound, "job not found"@),
                ),
                CancelOutcome::AlreadyTerminal => self.only_says(
                    refused(self.req, Status::ClientErrorNotPossible, "job is already complete"@),
                ),
                CancelOutcome::Canceled => {
                    &&& is_cancelled(self.before, self.after, id, spec_uptime(self.now))
                    &&& self.work is None
                    &&& self.answer == done(self.req)
                },
            },
        }
    }

    /// Cancel-My-Jobs.
    pub open spec fn cancels_mine(self) -> bool {
        &&& are_cancelled(
            self.before,
            self.after,
            jobs_where(self.before.jobs@, is_mine(user_of(self.req), job_ids_of(self.req))),
            spec_uptime(self.now),
        )
        &&& self.work is None
        &&& self.answer == done(self.req)
    }

    /// Close-Job: a job that still awaits its document is cancelled.
    pub open spec fn closes(self) -> bool {
        match spec_job_id(self.req) {
            None => self.only_says(
                refused(self.req, Status::ClientErrorBadRequest, "missing job-id"@),
            ),
            Some(id) => if !self.before.jobs@.contains_key(id) {
                self.only_says(refused(self.req, Status::ClientErrorNotFound, "job not found"@))
            } else if is_open_at(self.before, id) && self.before.jobs@[id].awaiting_document {
                &&& is_cancelled(self.before, self.after, id, spec_uptime(self.now))
                &&& self.work is None
                &&& self.answer == done(self.req)
            } else {
                self.only_says(done(self.req))
            },
        }
    }

    /// Identify-Printer: only `flash` is known (feed a bit of paper); anything else is substituted, and
    /// said to be.
    pub open spec fn identifies(self) -> bool {
        if !(Engine { store: self.before }).counts() {
            self.only_says(hiccup(self.req))
        } else {
            let bad = not_flash(texts_of(flat(self.req.value(None, "identify-actions"@))));
            let pending = self.before.identify_pending;
            &&& self.after == (Store {
                identify_requests: (self.before.identify_requests + 1) as u32,
                identify_pending: pending || self.room,
                ..self.before
            })
            &&& self.work == if !pending && self.room {
                Some(Work::Identify)
            } else {
                None
            }
            &&& self.answer == if bad.len() == 0 {
                done(self.req)
            } else {
                with_group(
                    plain(
                        self.req.version,
                        Status::SuccessfulOkIgnoredOrSubstitutedAttributes,
                        self.req.request_id,
                    ),
                    Group::UnsupportedAttributes,
                    seq![
                        (
                            within_bytes("identify-actions"@, 255),
                            array_view(keywords(bad)),
                        ),
                    ],
                )
            }
        }
    }

    /// An operation that only asks.
    pub open spec fn asks(self) -> bool {
        self.after == self.before && self.work is None
    }

    /// The exchange is as the operations have it.
    pub open spec fn valid(self) -> bool {
        let o = self.req.op;
        if precheck(self.req) is Some {
            self.only_says(precheck(self.req)->0)
        } else if o == OP_GET_PRINTER_ATTRIBUTES {
            self.asks() && is_printer_reply(
                self.answer,
                self.cfg,
                self.before,
                self.req,
                self.now,
            )
        } else if o == OP_VALIDATE_JOB {
            self.only_says(
                match format_refusal(self.req) {
                    Some(a) => a,
                    None => done(self.req),
                },
            )
        } else if o == OP_PRINT_JOB {
            self.prints()
        } else if o == OP_CREATE_JOB {
            self.submits(None)
        } else if o == OP_SEND_DOCUMENT {
            self.sends()
        } else if o == OP_CANCEL_JOB {
            self.cancels()
        } else if o == OP_CANCEL_MY_JOBS {
            self.cancels_mine()
        } else if o == OP_CLOSE_JOB {
            self.closes()
        } else if o == OP_GET_JOB_ATTRIBUTES {
            self.asks() && is_job_attributes_reply(
                self.answer,
                self.cfg,
                self.before,
                self.req,
                self.now,
            )
        } else if o == OP_GET_JOBS {
            self.asks() && is_jobs_reply(self.answer, self.cfg, self.before, self.req, self.now)
        } else if o == OP_IDENTIFY_PRINTER {
            self.identifies()
        } else {
            self.only_says(
                refused(
                    self.req,
                    Status::ServerErrorOperationNotSupported,
                    "operation not supported"@,
                ),
            )
        }
    }
}

/// The actions that are not `flash`, in order.
pub open spec fn not_flash(v: Seq<Seq<char>>) -> Seq<Seq<char>>
    decreases v.len(),
{
    if v.len() == 0 {
        Seq::empty()
    } else if v.last() == "flash"@ {
        not_flash(v.drop_last())
    } else {
        not_flash(v.drop_last()).push(v.last())
    }
}

/// Keywords, cut to their limit.
pub open spec fn keywords(v: Seq<Seq<char>>) -> Seq<ValueView> {
    Seq::new(v.len(), |i: int| ValueView::Str(StrKind::Keyword, within_bytes(v[i], 255)))
}

fn bad_actions(actions: &Vec<String>) -> (r: Vec<Value>)
    ensures
        value_models(r@) == keywords(not_flash(string_views(actions@))),
        forall|i: int| 0 <= i < r@.len() ==> writable((#[trigger] r@[i]).model()),
{
    let ghost views = string_views(actions@);
    let mut out: Vec<Value> = Vec::new();
    let mut i: usize = 0;
    assert(value_models(out@) =~= keywords(not_flash(views.take(0))));
    while i < actions.len()
        invariant
            i <= actions.len(),
            views == string_views(actions@),
            value_models(out@) == keywords(not_flash(views.take(i as int))),
            forall|k: int| 0 <= k < out@.len() ==> writable((#[trigger] out@[k]).model()),
        decreases actions.len() - i,
    {
        let ghost was = out@;
        assert(views.take(i as int + 1).drop_last() =~= views.take(i as int));
        assert(views.take(i as int + 1).last() == actions@[i as int]@);
        if !same_str(actions[i].as_str(), "flash") {
            out.push(v_kw(actions[i].as_str()));
            assert(value_models(out@) =~= value_models(was).push(
                ValueView::Str(StrKind::Keyword, within_bytes(actions@[i as int]@, 255)),
            ));
            assert(value_models(out@) =~= keywords(not_flash(views.take(i as int + 1))));
        }
        i += 1;
    }
    assert(views.take(views.len() as int) =~= views);
    out
}

/// What a request came to, before it is written.
pub open spec fn exchange(
    before: IppService,
    after: IppService,
    req: Request,
    room: bool,
    now: Now,
    r: (Resp, Option<Work>),
) -> Exchange {
    Exchange {
        cfg: before.cfg,
        before: before.engine.store,
        after: after.engine.store,
        req,
        room,
        now,
        answer: r.0.answer(),
        work: r.1,
    }
}

impl IppService {
    /// The service is well-formed.
    pub open spec fn wf(self) -> bool {
        self.engine.wf()
    }

    /// A service.
    pub fn new(engine: Engine, cfg: PrinterConfig) -> (r: IppService)
        requires
            engine.wf(),
        ensures
            r.wf(),
            r.engine == engine,
            r.cfg == cfg,
    {
        IppService { engine, cfg }
    }

    fn submit(&mut self, req: &Request, doc: Option<Vec<u8>>, room: bool, now: Now) -> (r: (
        Resp,
        Option<Work>,
    ))
        requires
            old(self).wf(),
        ensures
            final(self).wf(),
            final(self).cfg == old(self).cfg,
            r.0.ok(),
            exchange(*old(self), *final(self), *req, room, now, r).submits(
                crate::engine::ops::doc_view(doc),
            ),
    {
        if !self.engine.can_count() || self.cfg.max_copies < 1 {
            return (refuse_req(req, Status::ServerErrorBusy, HICCUP), None);
        }
        let opts = JobOptions::from_request(req, self.cfg.max_copies as u32);
        match self.engine.create_job(opts, doc, room, now) {
            (Ok(id), work) => {
                let r = (job_response(&self.cfg, &self.engine.store, req, id, now), work);
                assert(exchange(*old(self), *self, *req, room, now, r).submits_as(opts, doc));
                r
            },
            (Err(e), _) => (submit_error(req, e), None),
        }
    }

    fn print_job(&mut self, req: &Request, room: bool, now: Now) -> (r: (Resp, Option<Work>))
        requires
            old(self).wf(),
        ensures
            final(self).wf(),
            final(self).cfg == old(self).cfg,
            r.0.ok(),
            exchange(*old(self), *final(self), *req, room, now, r).prints(),
    {
        if let Some(a) = check_document_format(req) {
            return (a, None);
        }
        match document_bytes(req, self.engine.store.cfg.max_document_bytes) {
            Ok(d) => self.submit(req, Some(d), room, now),
            Err(a) => (a, None),
        }
    }

    fn send_document(&mut self, req: &Request, room: bool, now: Now) -> (r: (Resp, Option<Work>))
        requires
            old(self).wf(),
        ensures
            final(self).wf(),
            final(self).cfg == old(self).cfg,
            r.0.ok(),
            exchange(*old(self), *final(self), *req, room, now, r).sends(),
    {
        let id: u32 = match job_id_from(req) {
            Some(id) => id,
            None => return (
                refuse_req(req, Status::ClientErrorBadRequest, "missing job-id"),
                None,
            ),
        };
        let last = match req.get_bool(Some(Group::OperationAttributes), "last-document") {
            Some(b) => b,
            None => return (
                refuse_req(req, Status::ClientErrorBadRequest, "missing last-document"),
                None,
            ),
        };
        if let Some(a) = check_document_format(req) {
            return (a, None);
        }
        match self.engine.store.jobs.get(&id) {
            None => return (
                refuse_req(req, Status::ClientErrorNotFound, "job not found"),
                None,
            ),
            Some(j) => {
                if j.state.is_terminal() {
                    return (
                        refuse_req(req, Status::ClientErrorNotPossible, "job is already complete"),
                        None,
                    );
                }
                if !j.awaiting_document && req.payload.len() > 0 {
                    return (
                        refuse_req(
                            req,
                            Status::ServerErrorMultipleDocumentJobsNotSupported,
                            "only one document per job",
                        ),
                        None,
                    );
                }
            },
        }
        if req.payload.len() == 0 {
            if last {
                self.engine.close_without_document(id, now);
            }
            return (job_response(&self.cfg, &self.engine.store, req, id, now), None);
        }
        match document_bytes(req, self.engine.store.cfg.max_document_bytes) {
            Ok(d) => match self.engine.add_document(id, d, room, now) {
                (Ok(_), work) => {
                    (job_response(&self.cfg, &self.engine.store, req, id, now), work)
                },
                (Err(e), _) => (submit_error(req, e), None),
            },
            Err(a) => (a, None),
        }
    }

    fn cancel_job(&mut self, req: &Request, now: Now) -> (r: Resp)
        requires
            old(self).wf(),
        ensures
            final(self).wf(),
            final(self).cfg == old(self).cfg,
            r.ok(),
            forall|room: bool| #[trigger]
                exchange(*old(self), *final(self), *req, room, now, (r, None)).cancels(),
    {
        let id: u32 = match job_id_from(req) {
            Some(id) => id,
            None => return refuse_req(req, Status::ClientErrorBadRequest, "missing job-id"),
        };
        match self.engine.cancel(id, now) {
            CancelOutcome::NotFound => refuse_req(
                req,
                Status::ClientErrorNotFound,
                "job not found",
            ),
            CancelOutcome::AlreadyTerminal => refuse_req(
                req,
                Status::ClientErrorNotPossible,
                "job is already complete",
            ),
            CancelOutcome::Canceled => done_resp(req),
        }
    }

    fn cancel_my_jobs(&mut self, req: &Request, now: Now) -> (r: Resp)
        requires
            old(self).wf(),
        ensures
            final(self).wf(),
            final(self).cfg == old(self).cfg,
            r.ok(),
            forall|room: bool| #[trigger]
                exchange(*old(self), *final(self), *req, room, now, (r, None)).cancels_mine(),
    {
        let user = requesting_user(req);
        let ids = job_ids(req);
        self.engine.cancel_my_jobs(user.as_str(), ids.as_slice(), now);
        done_resp(req)
    }

    fn close_job(&mut self, req: &Request, now: Now) -> (r: Resp)
        requires
            old(self).wf(),
        ensures
            final(self).wf(),
            final(self).cfg == old(self).cfg,
            r.ok(),
            forall|room: bool| #[trigger]
                exchange(*old(self), *final(self), *req, room, now, (r, None)).closes(),
    {
        let id: u32 = match job_id_from(req) {
            Some(id) => id,
            None => return refuse_req(req, Status::ClientErrorBadRequest, "missing job-id"),
        };
        let awaiting = match self.engine.store.jobs.get(&id) {
            None => return refuse_req(req, Status::ClientErrorNotFound, "job not found"),
            Some(j) => j.awaiting_document && !j.state.is_terminal(),
        };
        if awaiting {
            self.engine.cancel(id, now);
        }
        done_resp(req)
    }

    fn identify_printer(&mut self, req: &Request, room: bool, now: Now) -> (r: (
        Resp,
        Option<Work>,
    ))
        requires
            old(self).wf(),
        ensures
            final(self).wf(),
            final(self).cfg == old(self).cfg,
            r.0.ok(),
            exchange(*old(self), *final(self), *req, room, now, r).identifies(),
    {
        if !self.engine.can_count() {
            return (refuse_req(req, Status::ServerErrorBusy, HICCUP), None);
        }
        let actions = req.get_strs(None, "identify-actions");
        let bad = bad_actions(&actions);
        let work = self.engine.identify(room);
        assert(value_models(bad@).len() == bad@.len());
        if bad.len() > 0 {
            let mut r = Resp::new(
                req.version,
                Status::SuccessfulOkIgnoredOrSubstitutedAttributes,
                req.request_id,
            );
            r.push_attrs(
                Group::UnsupportedAttributes,
                one_attr("identify-actions", v_array(bad)),
            );
            return (r, work);
        }
        (done_resp(req), work)
    }

    /// Answers a request.
    pub fn dispatch(&mut self, req: &Request, room: bool, now: Now) -> (r: (Resp, Option<Work>))
        requires
            old(self).wf(),
        ensures
            final(self).wf(),
            final(self).cfg == old(self).cfg,
            r.0.ok(),
            exchange(*old(self), *final(self), *req, room, now, r).valid(),
    {
        if let Some(a) = check_request(req) {
            return (a, None);
        }
        let o: u16 = req.op;
        if o == OP_GET_PRINTER_ATTRIBUTES {
            (get_printer_attributes(&self.cfg, &self.engine.store, req, now), None)
        } else if o == OP_VALIDATE_JOB {
            match check_document_format(req) {
                Some(a) => (a, None),
                None => (done_resp(req), None),
            }
        } else if o == OP_PRINT_JOB {
            self.print_job(req, room, now)
        } else if o == OP_CREATE_JOB {
            self.submit(req, None, room, now)
        } else if o == OP_SEND_DOCUMENT {
            self.send_document(req, room, now)
        } else if o == OP_CANCEL_JOB {
            let r = self.cancel_job(req, now);
            assert(exchange(*old(self), *self, *req, room, now, (r, None)).cancels());
            (r, None)
        } else if o == OP_CANCEL_MY_JOBS {
            let r = self.cancel_my_jobs(req, now);
            assert(exchange(*old(self), *self, *req, room, now, (r, None)).cancels_mine());
            (r, None)
        } else if o == OP_CLOSE_JOB {
            let r = self.close_job(req, now);
            assert(exchange(*old(self), *self, *req, room, now, (r, None)).closes());
            (r, None)
        } else if o == OP_GET_JOB_ATTRIBUTES {
            (get_job_attributes(&self.cfg, &self.engine.store, req, now), None)
        } else if o == OP_GET_JOBS {
            (get_jobs(&self.cfg, &self.engine.store, req, now), None)
        } else if o == OP_IDENTIFY_PRINTER {
            self.identify_printer(req, room, now)
        } else {
            (
                refuse_req(
                    req,
                    Status::ServerErrorOperationNotSupported,
                    "operation not supported",
                ),
                None,
            )
        }
    }

    /// Handles one request body; there is always an answer, and whoever reads it finds what was said. A
    /// body that cannot be read changes nothing, and is answered as a bad request.
    pub fn handle(&mut self, body: &[u8], room: bool, now: Now) -> (r: IppOutcome)
        requires
            old(self).wf(),
        ensures
            final(self).wf(),
            final(self).cfg == old(self).cfg,
            if readable(body@) {
                &&& r.http_status == 200
                &&& exists|e: Exchange|
                    {
                        &&& #[trigger] e.valid()
                        &&& is_request_of(e.req, body@)
                        &&& e.cfg == old(self).cfg
                        &&& e.before == old(self).engine.store
                        &&& e.after == final(self).engine.store
                        &&& e.room == room
                        &&& e.now == now
                        &&& e.work == r.work
                        &&& r.body@ == answer_bytes(e.answer)
                        &&& e.cfg.resolutions@.len() > 0 ==> says(r.body@, e.answer)
                    }
            } else {
                &&& r.http_status == if body@.len() >= 8 {
                    200
                } else {
                    400int
                }
                &&& *final(self) == *old(self)
                &&& r.work is None
                &&& r.body@ == answer_bytes(malformed(body@))
                &&& says(r.body@, malformed(body@))
            },
    {
        match parse(body) {
            Ok(req) => {
                let (resp, work) = self.dispatch(&req, room, now);
                let ghost e = exchange(*old(self), *self, req, room, now, (resp, work));
                assert(e.valid());
                proof {
                    if e.cfg.resolutions@.len() > 0 {
                        lemma_answer_settled(e);
                    }
                }
                let body = resp.into_bytes();
                assert(e.cfg.resolutions@.len() > 0 ==> says(body@, e.answer));
                IppOutcome { body, http_status: 200, work }
            },
            Err(_) => {
                let (version, id, status) = match peek_header(body) {
                    Some((v, _, id)) => (
                        if v / 256 == 1 || v / 256 == 2 {
                            v
                        } else {
                            0x0101
                        },
                        id,
                        200,
                    ),
                    None => (0x0101, 1, 400),
                };
                let r = refuse(
                    version,
                    Status::ClientErrorBadRequest,
                    id,
                    "malformed IPP request",
                );
                let out = r.into_bytes();
                proof {
                    lemma_refusal_says(
                        out@,
                        version,
                        Status::ClientErrorBadRequest,
                        id,
                        "malformed IPP request"@,
                    );
                }
                IppOutcome { body: out, http_status: status, work: None }
            },
        }
    }
}

/// The bytes of an answer.
pub open spec fn answer_bytes(a: Answer) -> Seq<u8> {
    wire_bytes(a.version, a.status.code(), a.request_id, a.groups)
}

/// The answer to a body that cannot be read: with its version and id, where it has a header.
pub open spec fn malformed(body: Seq<u8>) -> Answer {
    let v = be16(body, 0);
    refusal(
        if body.len() >= 8 && (v / 256 == 1 || v / 256 == 2) {
            v as u16
        } else {
            0x0101
        },
        Status::ClientErrorBadRequest,
        if body.len() >= 8 {
            be32(body, 4) as i32
        } else {
            1
        },
        "malformed IPP request"@,
    )
}

} // verus!
