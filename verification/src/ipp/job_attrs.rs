//! The attributes of a job.

use vstd::prelude::*;

use crate::engine::{Job, PrinterView};
use crate::ipp::attrs::{admitted, holds, AttrList, Filter, Grp, Offer};
use crate::ipp::codec::{
    datetime_view, string_views, v_datetime, v_enum, v_int, v_kw, v_mime, v_name, v_no_value, v_text,
    v_uri,
};
use crate::ipp::media::{find_in, find_size, spec_all, MediaHint};
use crate::ipp::printer_attrs::{
    desc, name, number, reasons_view, text, uri, v_number, v_reasons,
};
use crate::ipp::value::{attr_models, attrs_writable, writable, Attr, StrKind, Value, ValueView};
use crate::ipp::PrinterConfig;
use crate::text::{dec, dec_int, owned, push_dec, push_int, within_bytes};

verus! {

// ------------------------------------------------------------------ uuids

/// The uuid (version 5) of a name in a namespace, in lower case with hyphens.
pub uninterp spec fn uuid_v5_text(ns: u128, name: Seq<char>) -> Seq<char>;

/// `uuid::Uuid::new_v5` on the UTF-8 bytes of a name, written with hyphens: a function of the
/// namespace and the name.
#[verifier::external_body]
pub(crate) fn uuid_v5(ns: u128, name: &str) -> (r: String)
    ensures
        r@ == uuid_v5_text(ns, name@),
{
    uuid::Uuid::new_v5(&uuid::Uuid::from_u128(ns), name.as_bytes()).to_string()
}

/// The namespace of URLs.
pub const NAMESPACE_URL: u128 = 0x6ba7b811_9dad_11d1_80b4_00c04fd430c8;

// ------------------------------------------------------------------ values

/// The job's URI.
pub open spec fn job_uri(cfg: PrinterConfig, id: u32) -> Seq<char> {
    cfg.uri() + "/"@ + dec(id as nat)
}

fn job_uri_of(cfg: &PrinterConfig, id: u32) -> (r: String)
    ensures
        r@ == job_uri(*cfg, id),
{
    let mut r = cfg.printer_uri();
    r.push_str("/");
    push_dec(&mut r, id as u64);
    r
}

fn job_page(cfg: &PrinterConfig, id: u32) -> (r: String)
    ensures
        r@ == cfg.base() + "/jobs/"@ + dec(id as nat),
{
    let mut r = cfg.http_base();
    r.push_str("/jobs/");
    push_dec(&mut r, id as u64);
    r
}

fn job_uuid(cfg: &PrinterConfig, id: u32) -> (r: String)
    ensures
        r@ == "urn:uuid:"@ + uuid_v5_text(NAMESPACE_URL, job_uri(*cfg, id)),
{
    let u = job_uri_of(cfg, id);
    let mut r = owned("urn:uuid:");
    let t = uuid_v5(NAMESPACE_URL, u.as_str());
    r.push_str(t.as_str());
    r
}

/// A time, or no value.
pub open spec fn time_view(t: Option<u32>) -> ValueView {
    match t {
        Some(t) => number(t),
        None => ValueView::NoValue,
    }
}

fn v_time(t: Option<u32>) -> (r: Value)
    ensures
        r.model() == time_view(t),
        writable(r.model()),
{
    match t {
        Some(t) => v_number(t),
        None => v_no_value(),
    }
}

/// Whole millimetres of a number of hundredths, toward zero.
pub open spec fn whole_mm(hmm: int) -> int {
    if hmm < 0 {
        -(-hmm / 100)
    } else {
        hmm / 100
    }
}

/// The name of a job's media: that which was asked for, the name of its size, or one made of it.
pub open spec fn media_name(m: MediaHint) -> Seq<char> {
    match m.name {
        Some(n) => n@,
        None => match find_in(spec_all(), m.x_hmm as int, m.y_hmm as int) {
            Some(s) => s.name@,
            None => "custom_"@ + dec_int(whole_mm(m.x_hmm as int)) + "x"@ + dec_int(
                whole_mm(m.y_hmm as int),
            ) + "mm"@,
        },
    }
}

fn push_mm(s: &mut String, hmm: i32)
    ensures
        final(s)@ == old(s)@ + dec_int(whole_mm(hmm as int)),
{
    let n: i64 = hmm as i64;
    let w: i64 = if n < 0 {
        -(-n / 100)
    } else {
        n / 100
    };
    push_int(s, w);
}

fn media_name_of(m: &MediaHint) -> (r: String)
    ensures
        r@ == media_name(*m),
{
    match &m.name {
        Some(n) => owned(n.as_str()),
        None => match find_size(m.x_hmm, m.y_hmm) {
            Some(s) => owned(s.name),
            None => {
                let mut r = owned("custom_");
                push_mm(&mut r, m.x_hmm);
                r.push_str("x");
                push_mm(&mut r, m.y_hmm);
                r.push_str("mm");
                r
            },
        },
    }
}

// ------------------------------------------------------------------ attributes

/// What a job is.
pub open spec fn job_identity_offers(cfg: PrinterConfig, j: Job) -> Seq<Offer> {
    seq![
        desc("job-id", number(j.id)),
        desc("job-uri", uri(job_uri(cfg, j.id))),
        desc("job-printer-uri", uri(cfg.uri())),
        desc("job-more-info", uri(cfg.base() + "/jobs/"@ + dec(j.id as nat))),
        desc("job-name", name(j.opts.job_name@)),
        desc("job-originating-user-name", name(j.opts.user@)),
    ]
}

fn put_identity(l: &mut AttrList, cfg: &PrinterConfig, j: &Job)
    requires
        old(l).wf(),
    ensures
        final(l).wf(),
        final(l).filter == old(l).filter,
        final(l).offers@ == old(l).offers@ + job_identity_offers(*cfg, *j),
{
    l.put("job-id", Grp::Desc, v_number(j.id));
    l.put("job-uri", Grp::Desc, v_uri(job_uri_of(cfg, j.id).as_str()));
    l.put("job-printer-uri", Grp::Desc, v_uri(cfg.printer_uri().as_str()));
    l.put("job-more-info", Grp::Desc, v_uri(job_page(cfg, j.id).as_str()));
    l.put("job-name", Grp::Desc, v_name(j.opts.job_name.as_str()));
    l.put("job-originating-user-name", Grp::Desc, v_name(j.opts.user.as_str()));
    assert(l.offers@ =~= old(l).offers@ + job_identity_offers(*cfg, *j));
}

/// How a job stands.
pub open spec fn job_state_offers(j: Job, view: PrinterView) -> Seq<Offer> {
    seq![
        desc("job-state", ValueView::Enum(j.state.code())),
        desc("job-state-reasons", reasons_view(j.reasons@)),
        desc("job-state-message", text(j.message@)),
        desc("job-printer-state-message", text(view.message@)),
        desc("job-printer-state-reasons", reasons_view(view.reasons@)),
        desc(
            "number-of-documents",
            ValueView::Integer(
                if j.awaiting_document {
                    0
                } else {
                    1
                },
            ),
        ),
    ]
}

fn put_state(l: &mut AttrList, j: &Job, view: &PrinterView)
    requires
        old(l).wf(),
    ensures
        final(l).wf(),
        final(l).filter == old(l).filter,
        final(l).offers@ == old(l).offers@ + job_state_offers(*j, *view),
{
    l.put("job-state", Grp::Desc, v_enum(j.state.as_i32()));
    l.put("job-state-reasons", Grp::Desc, v_reasons(&j.reasons));
    l.put("job-state-message", Grp::Desc, v_text(j.message.as_str()));
    l.put("job-printer-state-message", Grp::Desc, v_text(view.message.as_str()));
    l.put("job-printer-state-reasons", Grp::Desc, v_reasons(&view.reasons));
    l.put(
        "number-of-documents",
        Grp::Desc,
        v_int(
            if j.awaiting_document {
                0
            } else {
                1
            },
        ),
    );
    assert(l.offers@ =~= old(l).offers@ + job_state_offers(*j, *view));
}

/// A job's times, size and progress.
pub open spec fn job_progress_offers(j: Job, up: u32) -> Seq<Offer> {
    seq![
        desc("time-at-creation", number(j.created_uptime)),
        desc("time-at-processing", time_view(j.processing_uptime)),
        desc("time-at-completed", time_view(j.completed_uptime)),
        desc("date-time-at-creation", datetime_view(j.created as int)),
        desc("job-printer-up-time", number(up)),
        desc("job-k-octets", number(j.k_octets)),
        desc("job-impressions", number(j.impressions)),
        desc("job-impressions-completed", number(j.impressions_completed)),
        desc("job-media-sheets", number(j.impressions)),
        desc("job-media-sheets-completed", number(j.impressions_completed)),
    ]
}

fn put_progress(l: &mut AttrList, j: &Job, up: u32)
    requires
        old(l).wf(),
    ensures
        final(l).wf(),
        final(l).filter == old(l).filter,
        final(l).offers@ == old(l).offers@ + job_progress_offers(*j, up),
{
    l.put("time-at-creation", Grp::Desc, v_number(j.created_uptime));
    l.put("time-at-processing", Grp::Desc, v_time(j.processing_uptime));
    l.put("time-at-completed", Grp::Desc, v_time(j.completed_uptime));
    l.put("date-time-at-creation", Grp::Desc, v_datetime(j.created));
    l.put("job-printer-up-time", Grp::Desc, v_number(up));
    l.put("job-k-octets", Grp::Desc, v_number(j.k_octets));
    l.put("job-impressions", Grp::Desc, v_number(j.impressions));
    l.put("job-impressions-completed", Grp::Desc, v_number(j.impressions_completed));
    l.put("job-media-sheets", Grp::Desc, v_number(j.impressions));
    l.put("job-media-sheets-completed", Grp::Desc, v_number(j.impressions_completed));
    assert(l.offers@ =~= old(l).offers@ + job_progress_offers(*j, up));
}

/// What was asked for of a job.
pub open spec fn job_options_offers(cfg: PrinterConfig, j: Job) -> Seq<Offer> {
    seq![
        desc(
            "job-uuid",
            uri("urn:uuid:"@ + uuid_v5_text(NAMESPACE_URL, job_uri(cfg, j.id))),
        ),
        desc("copies", number(j.opts.copies)),
        desc("print-quality", ValueView::Enum(j.opts.print_quality)),
        desc(
            "print-color-mode",
            ValueView::Str(StrKind::Keyword, within_bytes(j.opts.color_mode@, 255)),
        ),
    ] + match j.opts.media {
        Some(m) => seq![
            desc("media", ValueView::Str(StrKind::Keyword, within_bytes(media_name(m), 255))),
        ],
        None => Seq::empty(),
    } + match j.opts.document_format {
        Some(f) => seq![
            desc("document-format", ValueView::Str(StrKind::Mime, within_bytes(f@, 255))),
        ],
        None => Seq::empty(),
    }
}

fn put_options(l: &mut AttrList, cfg: &PrinterConfig, j: &Job)
    requires
        old(l).wf(),
    ensures
        final(l).wf(),
        final(l).filter == old(l).filter,
        final(l).offers@ == old(l).offers@ + job_options_offers(*cfg, *j),
{
    l.put("job-uuid", Grp::Desc, v_uri(job_uuid(cfg, j.id).as_str()));
    l.put("copies", Grp::Desc, v_number(j.opts.copies));
    l.put("print-quality", Grp::Desc, v_enum(j.opts.print_quality));
    l.put("print-color-mode", Grp::Desc, v_kw(j.opts.color_mode.as_str()));
    if let Some(m) = &j.opts.media {
        l.put("media", Grp::Desc, v_kw(media_name_of(m).as_str()));
    }
    if let Some(f) = &j.opts.document_format {
        l.put("document-format", Grp::Desc, v_mime(f.as_str()));
    }
    assert(l.offers@ =~= old(l).offers@ + job_options_offers(*cfg, *j));
}

/// All attributes of a job.
pub open spec fn job_offers(cfg: PrinterConfig, j: Job, view: PrinterView, up: u32) -> Seq<Offer> {
    job_identity_offers(cfg, j) + job_state_offers(j, view) + job_progress_offers(j, up)
        + job_options_offers(cfg, j)
}

/// Those attributes of a job that a filter lets through.
pub open spec fn job_attributes(
    cfg: PrinterConfig,
    j: Job,
    view: PrinterView,
    up: u32,
    f: Filter,
) -> Seq<(Seq<char>, ValueView)> {
    admitted(job_offers(cfg, j, view, up), f)
}

/// The attributes of a job that a filter lets through. The filter is handed back.
pub fn write_job_attrs(
    cfg: &PrinterConfig,
    j: &Job,
    up: u32,
    view: &PrinterView,
    filter: Filter,
) -> (r: (Vec<Attr>, Filter))
    ensures
        attr_models(r.0@) == job_attributes(*cfg, *j, *view, up, filter),
        attrs_writable(attr_models(r.0@)),
        r.1 == filter,
{
    let mut l = AttrList::new(filter);
    put_identity(&mut l, cfg, j);
    put_state(&mut l, j, view);
    put_progress(&mut l, j, up);
    put_options(&mut l, cfg, j);
    assert(l.offers@ =~= job_offers(*cfg, *j, *view, up));
    (l.attrs, l.filter)
}

// ------------------------------------------------------------------ what is asked for

/// `f` lets through what is asked for: everything where a group is named; where nothing is named,
/// everything or only id and URI; else what is named.
pub open spec fn is_job_filter(f: Filter, requested: Seq<Seq<char>>, default_all: bool) -> bool {
    if requested.len() == 0 {
        if default_all {
            f == Filter::Everything
        } else {
            f matches Filter::Names(n) && string_views(n@) == seq!["job-id"@, "job-uri"@]
        }
    } else if requested.contains("all"@) || requested.contains("job-description"@)
        || requested.contains("job-template"@) {
        f == Filter::Everything
    } else {
        f matches Filter::Names(n) && string_views(n@) == requested
    }
}

/// Which job attributes to return: by default Get-Jobs gives id and URI only, and
/// Get-Job-Attributes everything.
pub fn job_filter(requested: Vec<String>, default_all: bool) -> (r: Filter)
    ensures
        is_job_filter(r, string_views(requested@), default_all),
{
    if requested.len() == 0 {
        if default_all {
            return Filter::Everything;
        }
        let mut n: Vec<String> = Vec::new();
        n.push(owned("job-id"));
        n.push(owned("job-uri"));
        assert(string_views(n@) =~= seq!["job-id"@, "job-uri"@]);
        return Filter::Names(n);
    }
    if holds(&requested, "all") || holds(&requested, "job-description") || holds(
        &requested,
        "job-template",
    ) {
        return Filter::Everything;
    }
    Filter::Names(requested)
}

} // verus!
