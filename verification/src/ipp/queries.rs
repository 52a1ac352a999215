//! Requests that only ask: about the printer, a job, or jobs. And what requests name.

use vstd::prelude::*;

use crate::engine::ids::id_list;
use crate::engine::store::{jobs_where, select, Store};
use crate::engine::{spec_uptime, uptime, Job, JobState, Now};
use crate::ipp::attrs::Filter;
use crate::ipp::codec::{flat, ints_of, string_views, texts_of, Group, Request, Resp, Status};
use crate::ipp::job_attrs::{is_job_filter, job_attributes, job_filter, write_job_attrs};
use crate::ipp::options::text_or;
use crate::ipp::printer_attrs::{is_printer_answer, printer_attributes};
use crate::ipp::response::{plain, refusal, refuse, with_group, Answer};
use crate::ipp::value::{attr_models, GroupView, Value, ValueView};
use crate::ipp::PrinterConfig;
use crate::text::{chars_of, owned, parse_dec, parse_dec_chars, same_str, split, split_on, texts};

verus! {

broadcast use vstd::std_specs::btree::group_btree_axioms;

/// The operation attributes.
pub open spec fn op() -> Option<Group> {
    Some(Group::OperationAttributes)
}

/// The attributes that a request asks for.
pub open spec fn requested_of(req: Request) -> Seq<Seq<char>> {
    texts_of(flat(req.value(op(), "requested-attributes"@)))
}

fn requested(req: &Request) -> (r: Vec<String>)
    ensures
        string_views(r@) == requested_of(*req),
{
    req.get_strs(Some(Group::OperationAttributes), "requested-attributes")
}

/// The job that a request is about: its `job-id`, or the last part of its `job-uri`.
pub open spec fn spec_job_id(req: Request) -> Option<u32> {
    match req.number(op(), "job-id"@) {
        Some(i) => if i >= 0 {
            Some(i as u32)
        } else {
            None
        },
        None => match req.text(op(), "job-uri"@) {
            Some(u) => match parse_dec(split(u, '/').last(), u32::MAX as nat) {
                Some(n) => Some(n as u32),
                None => None,
            },
            None => None,
        },
    }
}

/// The job that a request is about.
pub fn job_id_from(req: &Request) -> (r: Option<u32>)
    ensures
        r == spec_job_id(*req),
{
    let o = Some(Group::OperationAttributes);
    if let Some(i) = req.get_int(o, "job-id") {
        return if i >= 0 {
            Some(i as u32)
        } else {
            None
        };
    }
    match req.get_str(o, "job-uri") {
        Some(u) => {
            let cs = chars_of(u.as_str());
            let parts = split_on(cs.as_slice(), '/');
            proof {
                lemma_split_some(u@, '/');
                assert(texts(parts@).len() == parts@.len());
            }
            let n: usize = parts.len();
            match parse_dec_chars(parts[n - 1].as_slice(), u32::MAX as u64) {
                Some(k) => Some(k as u32),
                None => None,
            }
        },
        None => None,
    }
}

proof fn lemma_split_some(s: Seq<char>, c: char)
    ensures
        split(s, c).len() > 0,
{
}

/// Those of the numbers that can be ids, in order.
pub open spec fn ids_of(v: Seq<i32>) -> Seq<u32>
    decreases v.len(),
{
    if v.len() == 0 {
        Seq::empty()
    } else if v.last() >= 0 {
        ids_of(v.drop_last()).push(v.last() as u32)
    } else {
        ids_of(v.drop_last())
    }
}

/// The jobs that a request names.
pub open spec fn job_ids_of(req: Request) -> Seq<u32> {
    ids_of(ints_of(flat(req.value(op(), "job-ids"@))))
}

/// The jobs that a request names.
pub fn job_ids(req: &Request) -> (r: Vec<u32>)
    ensures
        r@ == job_ids_of(*req),
{
    let v = req.get_ints(Some(Group::OperationAttributes), "job-ids");
    let mut out: Vec<u32> = Vec::new();
    let mut i: usize = 0;
    assert(out@ =~= ids_of(v@.take(0)));
    while i < v.len()
        invariant
            i <= v.len(),
            out@ == ids_of(v@.take(i as int)),
        decreases v.len() - i,
    {
        assert(v@.take(i as int + 1).drop_last() =~= v@.take(i as int));
        if v[i] >= 0 {
            out.push(v[i] as u32);
        }
        i += 1;
    }
    assert(v@.take(v@.len() as int) =~= v@);
    out
}

/// The user who makes a request.
pub open spec fn user_of(req: Request) -> Seq<char> {
    text_or(req.text(op(), "requesting-user-name"@), "anonymous"@)
}

/// The user who makes a request.
pub fn requesting_user(req: &Request) -> (r: String)
    ensures
        r@ == user_of(*req),
{
    match req.get_str(Some(Group::OperationAttributes), "requesting-user-name") {
        Some(u) => u,
        None => owned("anonymous"),
    }
}

// ------------------------------------------------------------------ the printer

/// `a` answers Get-Printer-Attributes. There is no printer group where nothing is asked for that the
/// printer has.
pub open spec fn is_printer_reply(
    a: Answer,
    cfg: PrinterConfig,
    s: Store,
    req: Request,
    now: Now,
) -> bool {
    let ok = plain(req.version, Status::SuccessfulOk, req.request_id);
    exists|attrs: Seq<(Seq<char>, ValueView)>| #[trigger]
        is_printer_answer(attrs, cfg, s, now, requested_of(req)) && a == if attrs.len() == 0 {
            ok
        } else {
            with_group(ok, Group::PrinterAttributes, attrs)
        }
}

/// Get-Printer-Attributes.
pub fn get_printer_attributes(cfg: &PrinterConfig, s: &Store, req: &Request, now: Now) -> (r: Resp)
    requires
        s.wf(),
    ensures
        r.ok(),
        is_printer_reply(r.answer(), *cfg, *s, *req, now),
{
    let names = requested(req);
    let attrs = printer_attributes(cfg, s, now, &names);
    let mut r = Resp::new(req.version, Status::SuccessfulOk, req.request_id);
    assert(attr_models(attrs@).len() == attrs@.len());
    if attrs.len() > 0 {
        r.push_attrs(Group::PrinterAttributes, attrs);
    }
    r
}

// ------------------------------------------------------------------ a job

/// The answer to a request that made or changed a job: all attributes of the job.
pub open spec fn job_reply(cfg: PrinterConfig, s: Store, req: Request, id: u32, now: Now) -> Answer {
    let ok = plain(req.version, Status::SuccessfulOk, req.request_id);
    if s.jobs@.contains_key(id) {
        with_group(
            ok,
            Group::JobAttributes,
            job_attributes(cfg, s.jobs@[id], s.view, spec_uptime(now), Filter::Everything),
        )
    } else {
        ok
    }
}

/// The answer to a request that made or changed a job.
pub fn job_response(cfg: &PrinterConfig, s: &Store, req: &Request, id: u32, now: Now) -> (r: Resp)
    ensures
        r.ok(),
        r.answer() == job_reply(*cfg, *s, *req, id, now),
{
    let mut r = Resp::new(req.version, Status::SuccessfulOk, req.request_id);
    if let Some(j) = s.jobs.get(&id) {
        let (attrs, _) = write_job_attrs(cfg, j, uptime(now), &s.view, Filter::Everything);
        r.push_attrs(Group::JobAttributes, attrs);
    }
    r
}

/// `a` answers Get-Job-Attributes.
pub open spec fn is_job_attributes_reply(
    a: Answer,
    cfg: PrinterConfig,
    s: Store,
    req: Request,
    now: Now,
) -> bool {
    match spec_job_id(req) {
        None => a == refusal(
            req.version,
            Status::ClientErrorBadRequest,
            req.request_id,
            "missing job-id"@,
        ),
        Some(id) => if !s.jobs@.contains_key(id) {
            a == refusal(
                req.version,
                Status::ClientErrorNotFound,
                req.request_id,
                "job not found"@,
            )
        } else {
            exists|f: Filter| #[trigger]
                is_job_filter(f, requested_of(req), true) && a == with_group(
                    plain(req.version, Status::SuccessfulOk, req.request_id),
                    Group::JobAttributes,
                    job_attributes(cfg, s.jobs@[id], s.view, spec_uptime(now), f),
                )
        },
    }
}

/// Get-Job-Attributes.
pub fn get_job_attributes(cfg: &PrinterConfig, s: &Store, req: &Request, now: Now) -> (r: Resp)
    ensures
        r.ok(),
        is_job_attributes_reply(r.answer(), *cfg, *s, *req, now),
{
    let id = match job_id_from(req) {
        Some(id) => id,
        None => return refuse(
            req.version,
            Status::ClientErrorBadRequest,
            req.request_id,
            "missing job-id",
        ),
    };
    match s.jobs.get(&id) {
        None => refuse(
            req.version,
            Status::ClientErrorNotFound,
            req.request_id,
            "job not found",
        ),
        Some(j) => {
            let filter = job_filter(requested(req), true);
            let mut r = Resp::new(req.version, Status::SuccessfulOk, req.request_id);
            let (attrs, _) = write_job_attrs(cfg, j, uptime(now), &s.view, filter);
            r.push_attrs(Group::JobAttributes, attrs);
            r
        },
    }
}

// ------------------------------------------------------------------ jobs

/// The jobs that `which-jobs` names.
pub open spec fn is_which(which: Seq<char>, state: JobState) -> bool {
    if which == "completed"@ {
        state.terminal()
    } else if which == "aborted"@ {
        state == JobState::Aborted
    } else if which == "canceled"@ {
        state == JobState::Canceled
    } else if which == "all"@ {
        true
    } else {
        !state.terminal()
    }
}

fn matches_which(which: &str, state: JobState) -> (r: bool)
    ensures
        r == is_which(which@, state),
{
    if same_str(which, "completed") {
        state.is_terminal()
    } else if same_str(which, "aborted") {
        state == JobState::Aborted
    } else if same_str(which, "canceled") {
        state == JobState::Canceled
    } else if same_str(which, "all") {
        true
    } else {
        !state.is_terminal()
    }
}

/// What Get-Jobs asks for.
pub struct JobsAsked {
    pub which: Seq<char>,
    pub mine: Option<Seq<char>>,
    pub ids: Seq<u32>,
}

/// The jobs that are asked for.
pub open spec fn is_asked(q: JobsAsked) -> spec_fn(Job) -> bool {
    |j: Job|
        is_which(q.which, j.state) && (q.mine is Some ==> j.opts.user@ == q.mine->0) && (q.ids.len()
            == 0 || q.ids.contains(j.id))
}

/// What a request asks for.
pub open spec fn asked_of(req: Request) -> JobsAsked {
    JobsAsked {
        which: text_or(req.text(op(), "which-jobs"@), "not-completed"@),
        mine: if req.value(op(), "my-jobs"@) == Some(Value::Boolean(true)) {
            Some(user_of(req))
        } else {
            None
        },
        ids: job_ids_of(req),
    }
}

/// Jobs that are over are listed with the newest first.
pub open spec fn newest_first(which: Seq<char>) -> bool {
    which == "completed"@ || which == "aborted"@ || which == "canceled"@
}

/// The jobs that a request asks for, in the order of the answer.
pub open spec fn listed(s: Store, req: Request) -> Seq<u32> {
    let q = asked_of(req);
    let l = jobs_where(s.jobs@, is_asked(q));
    let o = if newest_first(q.which) {
        l.reverse()
    } else {
        l
    };
    match req.number(op(), "limit"@) {
        Some(n) => if 0 < n < o.len() {
            o.take(n as int)
        } else {
            o
        },
        None => o,
    }
}

/// The groups of the answer to Get-Jobs.
pub open spec fn job_groups(
    cfg: PrinterConfig,
    s: Store,
    ids: Seq<u32>,
    f: Filter,
    now: Now,
) -> Seq<GroupView> {
    Seq::new(
        ids.len(),
        |i: int|
            GroupView {
                tag: Group::JobAttributes,
                attrs: job_attributes(cfg, s.jobs@[ids[i]], s.view, spec_uptime(now), f),
            },
    )
}

/// `a` answers Get-Jobs: one group per job.
pub open spec fn is_jobs_reply(
    a: Answer,
    cfg: PrinterConfig,
    s: Store,
    req: Request,
    now: Now,
) -> bool {
    let ok = plain(req.version, Status::SuccessfulOk, req.request_id);
    exists|f: Filter| #[trigger]
        is_job_filter(f, requested_of(req), false) && a == (Answer {
            groups: ok.groups + job_groups(cfg, s, listed(s, req), f, now),
            ..ok
        })
}

fn contains_id(v: &Vec<u32>, id: u32) -> (r: bool)
    ensures
        r == v@.contains(id),
{
    let mut i: usize = 0;
    while i < v.len()
        invariant
            i <= v.len(),
            forall|k: int| 0 <= k < i ==> v@[k] != id,
        decreases v.len() - i,
    {
        if v[i] == id {
            return true;
        }
        i += 1;
    }
    false
}

/// The jobs that a request asks for, oldest first.
fn find_jobs(s: &Store, which: &str, mine: Option<&str>, only: &Vec<u32>) -> (r: Vec<u32>)
    ensures
        r@ == jobs_where(
            s.jobs@,
            is_asked(
                JobsAsked {
                    which: which@,
                    mine: match mine {
                        Some(u) => Some(u@),
                        None => None,
                    },
                    ids: only@,
                },
            ),
        ),
        forall|i: int| 0 <= i < r@.len() ==> s.jobs@.contains_key(#[trigger] r@[i]),
{
    let ghost q = JobsAsked {
        which: which@,
        mine: match mine {
            Some(u) => Some(u@),
            None => None,
        },
        ids: only@,
    };
    let ids = s.ids();
    let ghost m = s.jobs@;
    let mut out: Vec<u32> = Vec::new();
    let mut i: usize = 0;
    assert(out@ =~= select(m, ids@.take(0), is_asked(q)));
    while i < ids.len()
        invariant
            i <= ids.len(),
            m == s.jobs@,
            ids@ == id_list(m),
            forall|id: u32| ids@.contains(id) <==> m.contains_key(id),
            out@ == select(m, ids@.take(i as int), is_asked(q)),
            forall|k: int| 0 <= k < out@.len() ==> m.contains_key(#[trigger] out@[k]),
            q == (JobsAsked {
                which: which@,
                mine: match mine {
                    Some(u) => Some(u@),
                    None => None,
                },
                ids: only@,
            }),
        decreases ids.len() - i,
    {
        let id: u32 = ids[i];
        assert(ids@.contains(id));
        assert(ids@.take(i as int + 1).drop_last() =~= ids@.take(i as int));
        if let Some(j) = s.jobs.get(&id) {
            let owner = match mine {
                Some(u) => same_str(j.opts.user.as_str(), u),
                None => true,
            };
            if matches_which(which, j.state) && owner && (only.len() == 0 || contains_id(only, j.id)) {
                out.push(id);
            }
        }
        i += 1;
    }
    assert(ids@.take(ids@.len() as int) =~= ids@);
    out
}

/// The jobs that a request asks for, in the order of the answer.
fn list_jobs(s: &Store, req: &Request) -> (r: Vec<u32>)
    ensures
        r@ == listed(*s, *req),
        forall|i: int| 0 <= i < r@.len() ==> s.jobs@.contains_key(#[trigger] r@[i]),
{
    let o = Some(Group::OperationAttributes);
    let which = match req.get_str(o, "which-jobs") {
        Some(w) => w,
        None => owned("not-completed"),
    };
    let my_jobs = match req.get_bool(o, "my-jobs") {
        Some(b) => b,
        None => false,
    };
    let user = requesting_user(req);
    let only = job_ids(req);
    let found = find_jobs(
        s,
        which.as_str(),
        if my_jobs {
            Some(user.as_str())
        } else {
            None
        },
        &only,
    );
    let w = which.as_str();
    let back = same_str(w, "completed") || same_str(w, "aborted") || same_str(w, "canceled");
    let n: usize = found.len();
    let count: usize = match req.get_int(o, "limit") {
        Some(l) => if 0 < l && (l as usize) < n {
            l as usize
        } else {
            n
        },
        None => n,
    };
    let mut out: Vec<u32> = Vec::new();
    let mut i: usize = 0;
    while i < count
        invariant
            i <= count <= n,
            n == found@.len(),
            forall|k: int| 0 <= k < n ==> s.jobs@.contains_key(#[trigger] found@[k]),
            out@.len() == i,
            forall|k: int|
                0 <= k < i ==> #[trigger] out@[k] == found@[if back {
                    n - 1 - k
                } else {
                    k
                }],
        decreases count - i,
    {
        out.push(
            if back {
                found[n - 1 - i]
            } else {
                found[i]
            },
        );
        i += 1;
    }
    assert(out@ =~= listed(*s, *req));
    out
}

/// Get-Jobs.
pub fn get_jobs(cfg: &PrinterConfig, s: &Store, req: &Request, now: Now) -> (r: Resp)
    ensures
        r.ok(),
        is_jobs_reply(r.answer(), *cfg, *s, *req, now),
{
    let ids = list_jobs(s, req);
    let mut filter = job_filter(requested(req), false);
    let ghost f = filter;
    let mut r = Resp::new(req.version, Status::SuccessfulOk, req.request_id);
    let ghost ok = plain(req.version, Status::SuccessfulOk, req.request_id);
    let up: u32 = uptime(now);
    let mut i: usize = 0;
    assert(job_groups(*cfg, *s, ids@.take(0), f, now) =~= Seq::<GroupView>::empty());
    assert(ok.groups + Seq::<GroupView>::empty() =~= ok.groups);
    while i < ids.len()
        invariant
            i <= ids.len(),
            r.ok(),
            filter == f,
            up == spec_uptime(now),
            ok == plain(req.version, Status::SuccessfulOk, req.request_id),
            forall|k: int| 0 <= k < ids@.len() ==> s.jobs@.contains_key(#[trigger] ids@[k]),
            r.answer() == (Answer {
                groups: ok.groups + job_groups(*cfg, *s, ids@.take(i as int), f, now),
                ..ok
            }),
        decreases ids.len() - i,
    {
        let id: u32 = ids[i];
        assert(s.jobs@.contains_key(ids@[i as int]));
        let ghost was = r.answer().groups;
        if let Some(j) = s.jobs.get(&id) {
            let (attrs, back) = write_job_attrs(cfg, j, up, &s.view, filter);
            filter = back;
            r.push_attrs(Group::JobAttributes, attrs);
        }
        assert(r.answer().groups =~= ok.groups + job_groups(
            *cfg,
            *s,
            ids@.take(i as int + 1),
            f,
            now,
        ));
        i += 1;
    }
    assert(ids@.take(ids@.len() as int) =~= ids@);
    r
}

} // verus!
