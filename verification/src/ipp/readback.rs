//! Whoever reads an answer of the printer finds in it what the printer said.

use vstd::prelude::*;
use vstd::utf8::encode_utf8;

use crate::engine::{spec_uptime, Job, Now, PrinterView, Store};
use crate::ipp::attrs::{admitted, has_fold, Filter, Offer};
use crate::ipp::civil::{
    day_number, days_before_month, is_date, lemma_year_follows, lemma_year_range,
};
use crate::ipp::codec::{
    array_view, be32, date_secs, datetime_view, enum_views, flat, is_datetime_of, kw_views,
    mime_views, readable, texts_of, with_member, Group, Request, Status,
};
use crate::ipp::documents::{format_refusal, spec_document};
use crate::ipp::job_attrs::{
    is_job_filter, job_attributes, job_identity_offers, job_offers, job_options_offers,
    job_progress_offers, job_state_offers,
};
use crate::ipp::media::{
    col_view, database_view, kw, none, put, size_view, sizes_view, MediaSize, CUSTOM_MAX_Y_HMM,
    CUSTOM_MIN_Y_HMM, MARGIN_LEFT_RIGHT_HMM, MARGIN_TOP_BOTTOM_HMM, MEDIA_SOURCE, MEDIA_TYPE,
    TAPE_X_HMM,
};
use crate::ipp::printer_attrs::{
    battery_level, copies_and_media_offers, documents_offers, icons, identity_offers,
    is_printer_answer, is_printer_filter, job_handling_offers, kws, media_offers, pages_offers,
    printer_offers, printing_offers, protocol_offers, reasons_view, resolution, resolutions,
    scheduling_offers, signed, state_offers, supplies_offers, supply, text, uri,
};
use crate::ipp::queries::{
    is_job_attributes_reply, is_jobs_reply, is_printer_reply, job_groups, job_reply, listed,
    requested_of, spec_job_id,
};
use crate::ipp::response::{
    head_attrs, lemma_short, plain, refusal, reply_version, with_group, Answer,
};
use crate::ipp::service::{keywords, not_flash, precheck, Exchange};
use crate::ipp::value::{
    ascending, attrs_settled, groups_settled, head_rank, in_order, settled, single, uniform,
    DateTime, StrKind, ValueView,
};
use crate::ipp::wire::{be16, reads_back, wire_parse};
use crate::ipp::{
    PrinterConfig, COMPRESSIONS, DOCUMENT_FORMATS, OPERATIONS, OP_GET_JOBS, OP_GET_JOB_ATTRIBUTES,
    OP_GET_PRINTER_ATTRIBUTES, OP_IDENTIFY_PRINTER,
};
use crate::text::{
    before, byte_len, dec, dec_int, lemma_byte_len_is_utf8, is_longest_within, lemma_before_total,
    lemma_before_transitive, lemma_within_all, lemma_within_bytes, within_bytes,
};

verus! {

// ------------------------------------------------------------------ values

proof fn lemma_longest_from(s: Seq<char>, max: int, k: int) -> (r: int)
    requires
        0 <= k <= s.len(),
        byte_len(s.take(k)) <= max,
    ensures
        is_longest_within(s, max, r),
    decreases s.len() - k,
{
    if k < s.len() && byte_len(s.take(k + 1)) <= max {
        lemma_longest_from(s, max, k + 1)
    } else {
        k
    }
}

/// A text that was cut is within its limit.
pub proof fn lemma_cut(s: Seq<char>, max: int)
    requires
        max >= 0,
    ensures
        byte_len(within_bytes(s, max)) <= max,
{
    assert(s.take(0) =~= Seq::<char>::empty());
    let k = lemma_longest_from(s, max, 0);
    lemma_within_bytes(s, max, k);
}

/// Strings that are cut to a limit of their kind, and lists of one kind, are read as they were written.
proof fn lemma_values()
    ensures
        forall|k: StrKind, s: Seq<char>, n: int|
            k != StrKind::MemberName && 0 <= n <= k.limit() ==> #[trigger] single(
                ValueView::Str(k, within_bytes(s, n)),
            ),
        forall|a: Seq<ValueView>| a.len() > 0 && uniform(a) ==> settled(#[trigger] array_view(a)),
{
    assert forall|k: StrKind, s: Seq<char>, n: int|
        k != StrKind::MemberName && 0 <= n <= k.limit() implies #[trigger] single(
        ValueView::Str(k, within_bytes(s, n)),
    ) by {
        lemma_cut(s, n);
    }
    assert forall|a: Seq<ValueView>| a.len() > 0 && uniform(a) implies settled(
        #[trigger] array_view(a),
    ) by {
        assert(single(a[0]));
    }
}

/// A date that comes after another.
proof fn lemma_next_day(y: int, m: int, d: int) -> (r: (int, int, int))
    requires
        is_date(y, m, d),
    ensures
        is_date(r.0, r.1, r.2),
        day_number(r.0, r.1, r.2) == day_number(y, m, d) + 1,
{
    if d < crate::ipp::civil::month_len(y, m) {
        (y, m, d + 1)
    } else if m < 12 {
        (y, m + 1, 1)
    } else {
        lemma_year_follows(y);
        assert(days_before_month(y, 13) == days_before_month(y, 12) + 31);
        (y + 1, 1, 1)
    }
}

/// Every day has a date.
proof fn lemma_day_has_date(n: int) -> (r: (int, int, int))
    requires
        n >= 0,
    ensures
        is_date(r.0, r.1, r.2),
        day_number(r.0, r.1, r.2) == n,
    decreases n,
{
    if n == 0 {
        (1970, 1, 1)
    } else {
        let (y, m, d) = lemma_day_has_date(n - 1);
        lemma_next_day(y, m, d)
    }
}

/// Every moment has a date and time.
pub proof fn lemma_datetime_exists(secs: int)
    ensures
        datetime_view(secs) matches ValueView::DateTime(d) && is_datetime_of(d, date_secs(secs)),
        single(datetime_view(secs)),
{
    let t = date_secs(secs);
    let (y, m, d) = lemma_day_has_date(t / 86400);
    let rest = t % 86400;
    lemma_year_range(y, m, d, t, rest);
    let date = DateTime {
        year: y as u16,
        month: m as u8,
        day: d as u8,
        hour: (rest / 3600) as u8,
        minutes: (rest % 3600 / 60) as u8,
        seconds: (rest % 60) as u8,
        deci_seconds: 0,
        utc_dir: '+',
        utc_hours: 0,
        utc_mins: 0,
    };
    assert(is_datetime_of(date, t));
}

// ------------------------------------------------------------------ collections

/// A collection stays one that is read as it was written when such a member is set. What stands in it
/// then is that member, or stood in it before.
proof fn lemma_member_single(m: Seq<(Seq<char>, ValueView)>, name: Seq<char>, v: ValueView)
    requires
        single(ValueView::Collection(m)),
        single(v),
        byte_len(name) <= 255,
    ensures
        single(ValueView::Collection(with_member(m, name, v))),
        forall|k: int|
            0 <= k < with_member(m, name, v).len() ==> (#[trigger] with_member(m, name, v)[k]).0 == name
                || exists|j: int| 0 <= j < m.len() && (#[trigger] m[j]).0 == with_member(m, name, v)[k].0,
    decreases m.len(),
{
    reveal_with_fuel(single, 2);
    let r = with_member(m, name, v);
    if m.len() == 0 {
        assert(r =~= seq![(name, v)]);
    } else if m[0].0 == name {
        assert forall|i: int, j: int| 0 <= i < j < r.len() implies before(
            (#[trigger] r[i]).0,
            (#[trigger] r[j]).0,
        ) by {
            assert(before(m[i].0, m[j].0));
        }
        assert forall|k: int| 0 <= k < r.len() implies (#[trigger] r[k]).0 == m[k].0 by {}
        assert forall|i: int| 0 <= i < r.len() implies byte_len((#[trigger] r[i]).0) <= 255 && single(
            r[i].1,
        ) by {
            assert(byte_len(m[i].0) <= 255 && single(m[i].1));
        }
    } else if before(name, m[0].0) {
        assert(r == seq![(name, v)] + m);
        assert forall|k: int| 0 < k < r.len() implies #[trigger] r[k] == m[k - 1] by {}
        assert forall|i: int, j: int| 0 <= i < j < r.len() implies before(
            (#[trigger] r[i]).0,
            (#[trigger] r[j]).0,
        ) by {
            assert(r[j] == m[j - 1]);
            if i == 0 {
                if j > 1 {
                    assert(before(m[0].0, m[j - 1].0));
                    lemma_before_transitive(name, m[0].0, m[j - 1].0);
                }
            } else {
                assert(r[i] == m[i - 1]);
                assert(before(m[i - 1].0, m[j - 1].0));
            }
        }
        assert forall|i: int| 0 <= i < r.len() implies byte_len((#[trigger] r[i]).0) <= 255 && single(
            r[i].1,
        ) by {
            if i > 0 {
                assert(byte_len(m[i - 1].0) <= 255 && single(m[i - 1].1));
            }
        }
        assert forall|k: int| 0 <= k < r.len() implies (#[trigger] r[k]).0 == name || exists|j: int|
            0 <= j < m.len() && (#[trigger] m[j]).0 == r[k].0 by {
            if k > 0 {
                assert(m[k - 1].0 == r[k].0);
            }
        }
    } else {
        let t = m.skip(1);
        let rt = with_member(t, name, v);
        assert forall|i: int, j: int| 0 <= i < j < t.len() implies before(
            (#[trigger] t[i]).0,
            (#[trigger] t[j]).0,
        ) by {
            assert(before(m[i + 1].0, m[j + 1].0));
        }
        assert forall|i: int| 0 <= i < t.len() implies byte_len((#[trigger] t[i]).0) <= 255 && single(
            t[i].1,
        ) by {
            assert(byte_len(m[i + 1].0) <= 255 && single(m[i + 1].1));
        }
        assert(ascending(t));
        assert(single(ValueView::Collection(t)));
        lemma_member_single(t, name, v);
        lemma_before_total(name, m[0].0);
        assert(r == seq![m[0]] + rt);
        assert(byte_len(m[0].0) <= 255 && single(m[0].1));
        assert forall|k: int| 0 < k < r.len() implies #[trigger] r[k] == rt[k - 1] by {}
        assert forall|k: int| 0 <= k < rt.len() implies before(m[0].0, (#[trigger] rt[k]).0) by {
            if rt[k].0 != name {
                let j = choose|j: int| 0 <= j < t.len() && (#[trigger] t[j]).0 == rt[k].0;
                assert(before(m[0].0, m[j + 1].0));
                assert(t[j] == m[j + 1]);
            }
        }
        assert forall|i: int, j: int| 0 <= i < j < r.len() implies before(
            (#[trigger] r[i]).0,
            (#[trigger] r[j]).0,
        ) by {
            assert(r[j] == rt[j - 1]);
            if i > 0 {
                assert(r[i] == rt[i - 1]);
            }
        }
        assert forall|i: int| 0 <= i < r.len() implies byte_len((#[trigger] r[i]).0) <= 255 && single(
            r[i].1,
        ) by {
            if i > 0 {
                assert(r[i] == rt[i - 1]);
            }
        }
        assert forall|k: int| 0 <= k < r.len() implies (#[trigger] r[k]).0 == name || exists|j: int|
            0 <= j < m.len() && (#[trigger] m[j]).0 == r[k].0 by {
            if k == 0 {
                assert(m[0].0 == r[0].0);
            } else {
                assert(r[k] == rt[k - 1]);
                if rt[k - 1].0 != name {
                    let j = choose|j: int| 0 <= j < t.len() && (#[trigger] t[j]).0 == rt[k - 1].0;
                    assert(m[j + 1].0 == r[k].0);
                }
            }
        }
    }
}

proof fn lemma_put(m: Seq<(Seq<char>, ValueView)>, name: &str, v: ValueView)
    requires
        single(ValueView::Collection(m)),
        single(v),
    ensures
        single(ValueView::Collection(put(m, name, v))),
{
    lemma_cut(name@, 255);
    lemma_member_single(m, within_bytes(name@, 255), v);
}

proof fn lemma_size(size: Option<MediaSize>)
    ensures
        single(size_view(size)),
{
    assert(single(ValueView::Collection(none())));
    let (x, y) = match size {
        Some(s) => (ValueView::Integer(s.x_hmm), ValueView::Integer(s.y_hmm)),
        None => (
            ValueView::Integer(TAPE_X_HMM),
            ValueView::Range(CUSTOM_MIN_Y_HMM, CUSTOM_MAX_Y_HMM),
        ),
    };
    lemma_put(none(), "x-dimension", x);
    lemma_put(put(none(), "x-dimension", x), "y-dimension", y);
}

proof fn lemma_col(size: Option<MediaSize>)
    ensures
        single(col_view(size)),
{
    lemma_values();
    lemma_size(size);
    assert(single(ValueView::Collection(none())));
    lemma_put(none(), "media-size", size_view(size));
    let m = put(none(), "media-size", size_view(size));
    lemma_put(m, "media-source", kw(MEDIA_SOURCE));
    let m = put(m, "media-source", kw(MEDIA_SOURCE));
    lemma_put(m, "media-type", kw(MEDIA_TYPE));
    let m = put(m, "media-type", kw(MEDIA_TYPE));
    lemma_put(m, "media-left-margin", ValueView::Integer(MARGIN_LEFT_RIGHT_HMM));
    let m = put(m, "media-left-margin", ValueView::Integer(MARGIN_LEFT_RIGHT_HMM));
    lemma_put(m, "media-right-margin", ValueView::Integer(MARGIN_LEFT_RIGHT_HMM));
    let m = put(m, "media-right-margin", ValueView::Integer(MARGIN_LEFT_RIGHT_HMM));
    lemma_put(m, "media-top-margin", ValueView::Integer(MARGIN_TOP_BOTTOM_HMM));
    let m = put(m, "media-top-margin", ValueView::Integer(MARGIN_TOP_BOTTOM_HMM));
    lemma_put(m, "media-bottom-margin", ValueView::Integer(MARGIN_TOP_BOTTOM_HMM));
    let m = put(m, "media-bottom-margin", ValueView::Integer(MARGIN_TOP_BOTTOM_HMM));
    if let Some(s) = size {
        lemma_put(m, "media-size-name", kw(s.name));
    }
}

proof fn lemma_media()
    ensures
        forall|size: Option<MediaSize>| single(#[trigger] col_view(size)),
        settled(sizes_view()),
        settled(database_view()),
{
    assert forall|size: Option<MediaSize>| single(#[trigger] col_view(size)) by {
        lemma_col(size);
    }
    assert forall|size: Option<MediaSize>| single(#[trigger] size_view(size)) by {
        lemma_size(size);
    }
    assert forall|size: Option<MediaSize>| (#[trigger] col_view(size)) is Collection by {}
    assert forall|size: Option<MediaSize>| (#[trigger] size_view(size)) is Collection by {}
}

// ------------------------------------------------------------------ lists

proof fn lemma_lists()
    ensures
        forall|v: Seq<&str>| v.len() > 0 ==> settled(#[trigger] kws(v)),
        forall|v: Seq<&'static str>| settled(#[trigger] reasons_view(v)),
        forall|v: Seq<&str>| v.len() > 0 ==> settled(array_view(#[trigger] mime_views(v))),
        forall|v: Seq<i32>| v.len() > 0 ==> settled(array_view(#[trigger] enum_views(v))),
        forall|v: Seq<u32>| v.len() > 0 ==> settled(#[trigger] resolutions(v)),
{
    lemma_values();
    assert forall|v: Seq<&str>| v.len() > 0 implies settled(#[trigger] kws(v)) by {
        assert(uniform(kw_views(v)));
    }
    assert forall|v: Seq<&'static str>| settled(#[trigger] reasons_view(v)) by {
        assert(settled(kws(seq!["none"])));
        if v.len() > 0 {
            assert(settled(kws(v)));
        }
    }
    assert forall|v: Seq<&str>| v.len() > 0 implies settled(array_view(#[trigger] mime_views(v))) by {
        assert(uniform(mime_views(v)));
    }
    assert forall|v: Seq<i32>| v.len() > 0 implies settled(array_view(#[trigger] enum_views(v))) by {
        assert(uniform(enum_views(v)));
    }
    assert forall|v: Seq<u32>| v.len() > 0 implies settled(#[trigger] resolutions(v)) by {
        let a = Seq::new(v.len(), |i: int| resolution(signed(v[i])));
        assert(uniform(a));
    }
}

proof fn lemma_icons(cfg: PrinterConfig)
    ensures
        settled(icons(cfg)),
{
    lemma_values();
    let a = seq![
        uri(cfg.base() + "/icons/48.png"@),
        uri(cfg.base() + "/icons/128.png"@),
        uri(cfg.base() + "/icons/512.png"@),
    ];
    assert(uniform(a));
    assert(settled(array_view(a)));
}

proof fn lemma_texts(s: Seq<char>, t: Seq<char>)
    ensures
        settled(array_view(seq![text(s), text(t)])),
{
    lemma_values();
    assert(uniform(seq![text(s), text(t)]));
}

/// A text takes at most four bytes per character.
proof fn lemma_utf8_len(s: Seq<char>)
    ensures
        encode_utf8(s).len() <= 4 * s.len(),
{
    lemma_byte_len_is_utf8(s);
    lemma_short(s);
}

proof fn lemma_dec_len(n: nat)
    ensures
        n < 1000 ==> dec(n).len() <= 3,
        n < 100 ==> dec(n).len() <= 2,
        n < 10 ==> dec(n).len() <= 1,
{
    reveal_with_fuel(dec, 4);
}

proof fn lemma_supply(battery: Option<u8>)
    ensures
        settled(supply(battery)),
{
    lemma_values();
    let n = battery_level(battery);
    lemma_dec_len(if n < 0 {
        (-n) as nat
    } else {
        n as nat
    });
    let paper =
        "index=1;class=supplyThatIsConsumed;type=other;unit=percent;maxcapacity=100;level=-2;colorantname=none;"@;
    let head = "index=2;class=supplyThatIsConsumed;type=other;unit=percent;maxcapacity=100;level="@;
    let tail = ";colorantname=none;"@;
    reveal_strlit(
        "index=1;class=supplyThatIsConsumed;type=other;unit=percent;maxcapacity=100;level=-2;colorantname=none;",
    );
    reveal_strlit("index=2;class=supplyThatIsConsumed;type=other;unit=percent;maxcapacity=100;level=");
    reveal_strlit(";colorantname=none;");
    lemma_utf8_len(paper);
    lemma_utf8_len(head + dec_int(n) + tail);
    let a = seq![
        ValueView::Octets(encode_utf8(paper)),
        ValueView::Octets(encode_utf8(head + dec_int(n) + tail)),
    ];
    assert(uniform(a));
    assert(settled(array_view(a)));
}

// ------------------------------------------------------------------ offers

/// The attributes on offer have names, and are read as they were written.
pub open spec fn offers_settled(o: Seq<Offer>) -> bool {
    forall|i: int| 0 <= i < o.len() ==> 0 < (#[trigger] o[i]).name.len() <= 63 && settled(o[i].value)
}

/// A short name is not cut.
proof fn lemma_short_name(name: Seq<char>)
    requires
        name.len() <= 63,
    ensures
        within_bytes(name, 255) == name,
        byte_len(name) <= 255,
{
    lemma_short(name);
    lemma_within_all(name, 255);
}

proof fn lemma_admitted(o: Seq<Offer>, f: Filter)
    requires
        offers_settled(o),
    ensures
        attrs_settled(admitted(o, f)),
    decreases o.len(),
{
    if o.len() > 0 {
        let l = o.last();
        assert(l == o[o.len() - 1]);
        let rest = o.drop_last();
        assert forall|i: int| 0 <= i < rest.len() implies 0 < (#[trigger] rest[i]).name.len() <= 63
            && settled(rest[i].value) by {
            assert(rest[i] == o[i]);
        }
        lemma_admitted(rest, f);
        lemma_short_name(l.name);
    }
}

proof fn lemma_joined(a: Seq<Offer>, b: Seq<Offer>)
    requires
        offers_settled(a),
        offers_settled(b),
    ensures
        offers_settled(a + b),
{
}

proof fn lemma_identity_offers(cfg: PrinterConfig)
    ensures
        offers_settled(identity_offers(cfg)),
{
    lemma_values();
    lemma_lists();
    reveal_strlit("printer-uri-supported");
    reveal_strlit("uri-security-supported");
    reveal_strlit("uri-authentication-supported");
    reveal_strlit("printer-name");
    reveal_strlit("printer-info");
    reveal_strlit("printer-location");
    reveal_strlit("printer-make-and-model");
    reveal_strlit("printer-more-info");
    reveal_strlit("printer-supply-info-uri");
    reveal_strlit("printer-uuid");
    reveal_strlit("printer-device-id");
}

proof fn lemma_pages_offers(cfg: PrinterConfig)
    ensures
        offers_settled(pages_offers(cfg)),
{
    lemma_values();
    lemma_lists();
    lemma_icons(cfg);
    reveal_strlit("printer-geo-location");
    reveal_strlit("printer-organization");
    reveal_strlit("printer-organizational-unit");
    reveal_strlit("printer-icons");
    reveal_strlit("printer-strings-uri");
    reveal_strlit("printer-strings-languages-supported");
}

proof fn lemma_state_offers(cfg: PrinterConfig, s: Store, now: Now)
    ensures
        offers_settled(state_offers(cfg, s, now)),
{
    lemma_values();
    lemma_lists();
    lemma_datetime_exists(s.view.state_changed_at as int);
    lemma_datetime_exists(cfg.started as int);
    lemma_datetime_exists(now.unix as int);
    reveal_strlit("printer-state");
    reveal_strlit("printer-state-reasons");
    reveal_strlit("printer-state-message");
    reveal_strlit("printer-state-change-time");
    reveal_strlit("printer-state-change-date-time");
    reveal_strlit("printer-config-change-time");
    reveal_strlit("printer-config-change-date-time");
    reveal_strlit("printer-is-accepting-jobs");
    reveal_strlit("queued-job-count");
    reveal_strlit("printer-up-time");
    reveal_strlit("printer-current-time");
}

proof fn lemma_protocol_offers()
    ensures
        offers_settled(protocol_offers()),
{
    lemma_values();
    lemma_lists();
    assert(OPERATIONS@.len() > 0 && COMPRESSIONS@.len() > 0);
    reveal_strlit("ipp-versions-supported");
    reveal_strlit("ipp-features-supported");
    reveal_strlit("operations-supported");
    reveal_strlit("charset-configured");
    reveal_strlit("charset-supported");
    reveal_strlit("natural-language-configured");
    reveal_strlit("generated-natural-language-supported");
    reveal_strlit("printer-get-attributes-supported");
    reveal_strlit("pdl-override-supported");
    reveal_strlit("compression-supported");
    reveal_strlit("preferred-attributes-supported");
}

proof fn lemma_job_handling_offers(cfg: PrinterConfig)
    ensures
        offers_settled(job_handling_offers(cfg)),
{
    lemma_values();
    lemma_lists();
    reveal_strlit("job-ids-supported");
    reveal_strlit("which-jobs-supported");
    reveal_strlit("multiple-document-jobs-supported");
    reveal_strlit("multiple-operation-time-out");
    reveal_strlit("multiple-operation-time-out-action");
    reveal_strlit("overrides-supported");
    reveal_strlit("job-k-octets-supported");
    reveal_strlit("pages-per-minute");
    reveal_strlit("color-supported");
}

proof fn lemma_documents_offers(cfg: PrinterConfig)
    requires
        cfg.resolutions@.len() > 0,
    ensures
        offers_settled(documents_offers(cfg)),
{
    lemma_values();
    lemma_lists();
    assert(DOCUMENT_FORMATS@.len() > 0);
    reveal_strlit("document-format-default");
    reveal_strlit("document-format-supported");
    reveal_strlit("pwg-raster-document-type-supported");
    reveal_strlit("pwg-raster-document-resolution-supported");
    reveal_strlit("pwg-raster-document-sheet-back");
    reveal_strlit("printer-resolution-default");
    reveal_strlit("printer-resolution-supported");
    reveal_strlit("identify-actions-default");
    reveal_strlit("identify-actions-supported");
    reveal_strlit("job-creation-attributes-supported");
}

proof fn lemma_media_offers()
    ensures
        offers_settled(media_offers()),
{
    lemma_values();
    lemma_lists();
    lemma_media();
    reveal_strlit("media-col-supported");
    reveal_strlit("media-left-margin-supported");
    reveal_strlit("media-right-margin-supported");
    reveal_strlit("media-top-margin-supported");
    reveal_strlit("media-bottom-margin-supported");
    reveal_strlit("media-source-supported");
    reveal_strlit("media-type-supported");
    reveal_strlit("media-size-supported");
    reveal_strlit("media-ready");
    reveal_strlit("media-col-ready");
}

proof fn lemma_supplies_offers(battery: Option<u8>)
    ensures
        offers_settled(supplies_offers(battery)),
{
    lemma_values();
    lemma_lists();
    lemma_supply(battery);
    lemma_texts("Thermal paper roll"@, "Printer battery"@);
    reveal_strlit("printer-supply");
    reveal_strlit("printer-supply-description");
}

proof fn lemma_copies_and_media_offers(cfg: PrinterConfig)
    ensures
        offers_settled(copies_and_media_offers(cfg)),
{
    lemma_values();
    lemma_lists();
    lemma_media();
    reveal_strlit("copies-default");
    reveal_strlit("copies-supported");
    reveal_strlit("finishings-default");
    reveal_strlit("finishings-supported");
    reveal_strlit("media-default");
    reveal_strlit("media-supported");
    reveal_strlit("media-col-default");
    reveal_strlit("multiple-document-handling-default");
    reveal_strlit("multiple-document-handling-supported");
    reveal_strlit("orientation-requested-default");
    reveal_strlit("orientation-requested-supported");
    reveal_strlit("output-bin-default");
    reveal_strlit("output-bin-supported");
    reveal_strlit("page-ranges-supported");
}

proof fn lemma_printing_offers()
    ensures
        offers_settled(printing_offers()),
{
    lemma_values();
    lemma_lists();
    reveal_strlit("print-color-mode-default");
    reveal_strlit("print-color-mode-supported");
    reveal_strlit("print-content-optimize-default");
    reveal_strlit("print-content-optimize-supported");
    reveal_strlit("print-quality-default");
    reveal_strlit("print-quality-supported");
    reveal_strlit("print-rendering-intent-default");
    reveal_strlit("print-rendering-intent-supported");
    reveal_strlit("print-scaling-default");
    reveal_strlit("print-scaling-supported");
    reveal_strlit("sides-default");
    reveal_strlit("sides-supported");
}

proof fn lemma_scheduling_offers()
    ensures
        offers_settled(scheduling_offers()),
{
    lemma_values();
    lemma_lists();
    reveal_strlit("number-up-default");
    reveal_strlit("number-up-supported");
    reveal_strlit("job-priority-default");
    reveal_strlit("job-priority-supported");
    reveal_strlit("job-hold-until-default");
    reveal_strlit("job-hold-until-supported");
    reveal_strlit("job-sheets-default");
    reveal_strlit("job-sheets-supported");
}

proof fn lemma_job_identity_offers(cfg: PrinterConfig, j: Job)
    ensures
        offers_settled(job_identity_offers(cfg, j)),
{
    lemma_values();
    lemma_lists();
    reveal_strlit("job-id");
    reveal_strlit("job-uri");
    reveal_strlit("job-printer-uri");
    reveal_strlit("job-more-info");
    reveal_strlit("job-name");
    reveal_strlit("job-originating-user-name");
}

proof fn lemma_job_state_offers(j: Job, view: PrinterView)
    ensures
        offers_settled(job_state_offers(j, view)),
{
    lemma_values();
    lemma_lists();
    reveal_strlit("job-state");
    reveal_strlit("job-state-reasons");
    reveal_strlit("job-state-message");
    reveal_strlit("job-printer-state-message");
    reveal_strlit("job-printer-state-reasons");
    reveal_strlit("number-of-documents");
}

proof fn lemma_job_progress_offers(j: Job, up: u32)
    ensures
        offers_settled(job_progress_offers(j, up)),
{
    lemma_values();
    lemma_lists();
    lemma_datetime_exists(j.created as int);
    reveal_strlit("time-at-creation");
    reveal_strlit("time-at-processing");
    reveal_strlit("time-at-completed");
    reveal_strlit("date-time-at-creation");
    reveal_strlit("job-printer-up-time");
    reveal_strlit("job-k-octets");
    reveal_strlit("job-impressions");
    reveal_strlit("job-impressions-completed");
    reveal_strlit("job-media-sheets");
    reveal_strlit("job-media-sheets-completed");
}

proof fn lemma_job_options_offers(cfg: PrinterConfig, j: Job)
    ensures
        offers_settled(job_options_offers(cfg, j)),
{
    lemma_values();
    lemma_lists();
    reveal_strlit("job-uuid");
    reveal_strlit("copies");
    reveal_strlit("print-quality");
    reveal_strlit("print-color-mode");
    reveal_strlit("media");
    reveal_strlit("document-format");
}

proof fn lemma_printer_offers(cfg: PrinterConfig, s: Store, now: Now)
    requires
        cfg.resolutions@.len() > 0,
    ensures
        offers_settled(printer_offers(cfg, s, now)),
{
    lemma_identity_offers(cfg);
    lemma_pages_offers(cfg);
    lemma_state_offers(cfg, s, now);
    lemma_protocol_offers();
    lemma_job_handling_offers(cfg);
    lemma_documents_offers(cfg);
    lemma_media_offers();
    lemma_supplies_offers(s.view.battery);
    lemma_copies_and_media_offers(cfg);
    lemma_printing_offers();
    lemma_scheduling_offers();
    let o = identity_offers(cfg);
    lemma_joined(o, pages_offers(cfg));
    let o = o + pages_offers(cfg);
    lemma_joined(o, state_offers(cfg, s, now));
    let o = o + state_offers(cfg, s, now);
    lemma_joined(o, protocol_offers());
    let o = o + protocol_offers();
    lemma_joined(o, job_handling_offers(cfg));
    let o = o + job_handling_offers(cfg);
    lemma_joined(o, documents_offers(cfg));
    let o = o + documents_offers(cfg);
    lemma_joined(o, media_offers());
    let o = o + media_offers();
    lemma_joined(o, supplies_offers(s.view.battery));
    let o = o + supplies_offers(s.view.battery);
    lemma_joined(o, copies_and_media_offers(cfg));
    let o = o + copies_and_media_offers(cfg);
    lemma_joined(o, printing_offers());
    let o = o + printing_offers();
    lemma_joined(o, scheduling_offers());
}

proof fn lemma_job_attributes(cfg: PrinterConfig, j: Job, view: PrinterView, up: u32, f: Filter)
    ensures
        attrs_settled(job_attributes(cfg, j, view, up, f)),
{
    lemma_job_identity_offers(cfg, j);
    lemma_job_state_offers(j, view);
    lemma_job_progress_offers(j, up);
    lemma_job_options_offers(cfg, j);
    let o = job_identity_offers(cfg, j);
    lemma_joined(o, job_state_offers(j, view));
    let o = o + job_state_offers(j, view);
    lemma_joined(o, job_progress_offers(j, up));
    let o = o + job_progress_offers(j, up);
    lemma_joined(o, job_options_offers(cfg, j));
    lemma_admitted(job_offers(cfg, j, view, up), f);
}

// ------------------------------------------------------------------ answers

proof fn lemma_plain(version: u16, status: Status, id: i32)
    ensures
        groups_settled(plain(version, status, id).groups),
{
    reveal_strlit("attributes-charset");
    reveal_strlit("attributes-natural-language");
    reveal_strlit("printer-uri");
    reveal_strlit("job-id");
    reveal_strlit("utf-8");
    reveal_strlit("en");
    lemma_short_name("attributes-charset"@);
    lemma_short_name("attributes-natural-language"@);
    lemma_short("utf-8"@);
    lemma_short("en"@);
    let a = head_attrs();
    assert(head_rank(a[0].0) == 0 && head_rank(a[1].0) == 1);
    assert(settled(a[0].1) && settled(a[1].1));
}

proof fn lemma_refusal(version: u16, status: Status, id: i32, msg: Seq<char>)
    ensures
        groups_settled(refusal(version, status, id, msg).groups),
{
    lemma_plain(version, status, id);
    lemma_values();
    reveal_strlit("status-message");
    reveal_strlit("attributes-charset");
    reveal_strlit("attributes-natural-language");
    reveal_strlit("printer-uri");
    reveal_strlit("job-id");
    lemma_short_name("status-message"@);
    let g = plain(version, status, id).groups[0];
    let a = head_attrs();
    let b = refusal(version, status, id, msg).groups[0].attrs;
    assert(attrs_settled(g.attrs) && in_order(g.attrs) && g.attrs == a);
    assert(b[0] == a[0] && b[1] == a[1]);
    assert(head_rank(a[0].0) == 0 && head_rank(a[1].0) == 1 && head_rank(b[2].0) == 4);
    assert(settled(b[2].1));
    assert(attrs_settled(b));
    assert(in_order(b));
}

proof fn lemma_with_group(a: Answer, tag: Group, attrs: Seq<(Seq<char>, ValueView)>)
    requires
        groups_settled(a.groups),
        attrs_settled(attrs),
        tag != Group::OperationAttributes,
        tag != Group::EndOfAttributes,
    ensures
        groups_settled(with_group(a, tag, attrs).groups),
{
    let g = with_group(a, tag, attrs).groups;
    assert(g[0] == a.groups[0]);
    assert forall|i: int| 0 <= i < g.len() implies attrs_settled((#[trigger] g[i]).attrs) by {
        if i < a.groups.len() {
            assert(g[i] == a.groups[i]);
        }
    }
    assert forall|i: int| 0 < i < g.len() implies (#[trigger] g[i]).tag != Group::OperationAttributes
        && g[i].tag != Group::EndOfAttributes by {
        if i < a.groups.len() {
            assert(g[i] == a.groups[i]);
        }
    }
}

proof fn lemma_unsupported(a: Answer, name: Seq<char>, v: ValueView)
    requires
        groups_settled(a.groups),
        0 < name.len() <= 63,
        settled(v),
    ensures
        groups_settled(
            with_group(a, Group::UnsupportedAttributes, seq![(within_bytes(name, 255), v)]).groups,
        ),
{
    lemma_short_name(name);
    lemma_with_group(a, Group::UnsupportedAttributes, seq![(within_bytes(name, 255), v)]);
}

proof fn lemma_document_refusals(req: Request, max: usize)
    ensures
        format_refusal(req) matches Some(a) ==> groups_settled(a.groups),
        spec_document(req, max) matches Err(a) ==> groups_settled(a.groups),
{
    assert forall|v: u16, s: Status, id: i32, m: Seq<char>| groups_settled(
        (#[trigger] refusal(v, s, id, m)).groups,
    ) by {
        lemma_refusal(v, s, id, m);
    }
    if let Some(a) = format_refusal(req) {
        lemma_values();
        reveal_strlit("document-format");
        reveal_strlit("compression");
        let op = Some(Group::OperationAttributes);
        let f = req.text(op, "document-format"@);
        let c = req.text(op, "compression"@);
        lemma_unsupported(
            refusal(
                req.version,
                Status::ClientErrorDocumentFormatNotSupported,
                req.request_id,
                "document format not supported"@,
            ),
            "document-format"@,
            ValueView::Str(StrKind::Mime, within_bytes(f->0, 255)),
        );
        lemma_unsupported(
            refusal(
                req.version,
                Status::ClientErrorCompressionNotSupported,
                req.request_id,
                "compression not supported"@,
            ),
            "compression"@,
            ValueView::Str(StrKind::Keyword, within_bytes(c->0, 255)),
        );
    }
}

proof fn lemma_job_reply(cfg: PrinterConfig, s: Store, req: Request, id: u32, now: Now)
    ensures
        groups_settled(job_reply(cfg, s, req, id, now).groups),
{
    let ok = plain(req.version, Status::SuccessfulOk, req.request_id);
    lemma_plain(req.version, Status::SuccessfulOk, req.request_id);
    if s.jobs@.contains_key(id) {
        let f = Filter::Everything;
        lemma_job_attributes(cfg, s.jobs@[id], s.view, spec_uptime(now), f);
        lemma_with_group(
            ok,
            Group::JobAttributes,
            job_attributes(cfg, s.jobs@[id], s.view, spec_uptime(now), f),
        );
    }
}

proof fn lemma_printer_reply(a: Answer, cfg: PrinterConfig, s: Store, req: Request, now: Now)
    requires
        is_printer_reply(a, cfg, s, req, now),
        cfg.resolutions@.len() > 0,
    ensures
        groups_settled(a.groups),
{
    let ok = plain(req.version, Status::SuccessfulOk, req.request_id);
    let names = requested_of(req);
    lemma_plain(req.version, Status::SuccessfulOk, req.request_id);
    let attrs = choose|attrs: Seq<(Seq<char>, ValueView)>| #[trigger]
        is_printer_answer(attrs, cfg, s, now, names) && a == if attrs.len() == 0 {
            ok
        } else {
            with_group(ok, Group::PrinterAttributes, attrs)
        };
    let f = choose|f: Filter|
        {
            &&& #[trigger] is_printer_filter(f, names)
            &&& attrs == if has_fold(names, "media-col-database"@) {
                admitted(printer_offers(cfg, s, now), f).push(
                    (within_bytes("media-col-database"@, 255), database_view()),
                )
            } else {
                admitted(printer_offers(cfg, s, now), f)
            }
        };
    lemma_printer_offers(cfg, s, now);
    lemma_admitted(printer_offers(cfg, s, now), f);
    lemma_media();
    reveal_strlit("media-col-database");
    lemma_short_name("media-col-database"@);
    assert(attrs_settled(attrs));
    lemma_with_group(ok, Group::PrinterAttributes, attrs);
}

proof fn lemma_job_attributes_reply(a: Answer, cfg: PrinterConfig, s: Store, req: Request, now: Now)
    requires
        is_job_attributes_reply(a, cfg, s, req, now),
    ensures
        groups_settled(a.groups),
{
    assert forall|v: u16, st: Status, id: i32, m: Seq<char>| groups_settled(
        (#[trigger] refusal(v, st, id, m)).groups,
    ) by {
        lemma_refusal(v, st, id, m);
    }
    if let Some(id) = spec_job_id(req) {
        if s.jobs@.contains_key(id) {
            let ok = plain(req.version, Status::SuccessfulOk, req.request_id);
            lemma_plain(req.version, Status::SuccessfulOk, req.request_id);
            let f = choose|f: Filter| #[trigger]
                is_job_filter(f, requested_of(req), true) && a == with_group(
                    ok,
                    Group::JobAttributes,
                    job_attributes(cfg, s.jobs@[id], s.view, spec_uptime(now), f),
                );
            lemma_job_attributes(cfg, s.jobs@[id], s.view, spec_uptime(now), f);
            lemma_with_group(
                ok,
                Group::JobAttributes,
                job_attributes(cfg, s.jobs@[id], s.view, spec_uptime(now), f),
            );
        }
    }
}

proof fn lemma_jobs_reply(a: Answer, cfg: PrinterConfig, s: Store, req: Request, now: Now)
    requires
        is_jobs_reply(a, cfg, s, req, now),
    ensures
        groups_settled(a.groups),
{
    let ok = plain(req.version, Status::SuccessfulOk, req.request_id);
    lemma_plain(req.version, Status::SuccessfulOk, req.request_id);
    let ids = listed(s, req);
    let f = choose|f: Filter| #[trigger]
        is_job_filter(f, requested_of(req), false) && a == (Answer {
            groups: ok.groups + job_groups(cfg, s, ids, f, now),
            ..ok
        });
    let more = job_groups(cfg, s, ids, f, now);
    assert(a.groups == ok.groups + more);
    assert(a.groups[0] == ok.groups[0]);
    assert forall|i: int| 0 < i < a.groups.len() implies (#[trigger] a.groups[i]).tag
        == Group::JobAttributes && attrs_settled(a.groups[i].attrs) by {
        assert(a.groups[i] == more[i - 1]);
        lemma_job_attributes(cfg, s.jobs@[ids[i - 1]], s.view, spec_uptime(now), f);
    }
}

/// What the printer answers can be written so that it is read as it was meant. (A printer that
/// advertises no resolution would have an empty list to write, which cannot be read.)
pub proof fn lemma_answer_settled(e: Exchange)
    requires
        e.valid(),
        e.cfg.resolutions@.len() > 0,
    ensures
        groups_settled(e.answer.groups),
{
    let req = e.req;
    assert forall|v: u16, s: Status, id: i32, m: Seq<char>| groups_settled(
        (#[trigger] refusal(v, s, id, m)).groups,
    ) by {
        lemma_refusal(v, s, id, m);
    }
    assert forall|v: u16, s: Status, id: i32| groups_settled((#[trigger] plain(v, s, id)).groups) by {
        lemma_plain(v, s, id);
    }
    lemma_document_refusals(req, e.before.cfg.max_document_bytes);
    assert forall|s: Store, id: u32| groups_settled(
        (#[trigger] job_reply(e.cfg, s, req, id, e.now)).groups,
    ) by {
        lemma_job_reply(e.cfg, s, req, id, e.now);
    }
    if precheck(req) is None {
        if req.op == OP_GET_PRINTER_ATTRIBUTES {
            lemma_printer_reply(e.answer, e.cfg, e.before, req, e.now);
        } else if req.op == OP_GET_JOB_ATTRIBUTES {
            lemma_job_attributes_reply(e.answer, e.cfg, e.before, req, e.now);
        } else if req.op == OP_GET_JOBS {
            lemma_jobs_reply(e.answer, e.cfg, e.before, req, e.now);
        } else if req.op == OP_IDENTIFY_PRINTER {
            let bad = not_flash(texts_of(flat(req.value(None, "identify-actions"@))));
            if bad.len() > 0 {
                lemma_values();
                assert(uniform(keywords(bad)));
                reveal_strlit("identify-actions");
                lemma_unsupported(
                    plain(
                        req.version,
                        Status::SuccessfulOkIgnoredOrSubstitutedAttributes,
                        req.request_id,
                    ),
                    "identify-actions"@,
                    array_view(keywords(bad)),
                );
            }
        }
    }
}

/// The bytes are a message that says `a`.
pub open spec fn says(b: Seq<u8>, a: Answer) -> bool {
    &&& readable(b)
    &&& be16(b, 0) == a.version
    &&& be16(b, 2) == a.status.code()
    &&& be32(b, 4) == a.request_id
    &&& wire_parse(b) == Ok::<_, Seq<char>>((a.groups, b.len()))
}

/// A refusal that was written says so.
pub proof fn lemma_refusal_says(b: Seq<u8>, version: u16, status: Status, id: i32, msg: Seq<char>)
    requires
        reads_back(
            b,
            reply_version(version),
            status.code(),
            id,
            refusal(version, status, id, msg).groups,
        ),
    ensures
        says(b, refusal(version, status, id, msg)),
{
    lemma_refusal(version, status, id, msg);
}

} // verus!
