//! Get-Printer-Attributes: what the printer says of itself.

use vstd::prelude::*;
use vstd::utf8::encode_utf8;

use crate::engine::{spec_uptime, uptime, Now, Store};
use crate::ipp::attrs::{admitted, holds, holds_fold, AttrList, Filter, Grp, Offer, has_fold};
use crate::ipp::codec::{
    array_view, datetime_view, enum_views, kw_views, mime_views, string_views, uri_views, v_array,
    v_bool, v_charset, v_datetime, v_enum, v_enums, v_int, v_kw, v_kws, v_lang, v_mime, v_mimes,
    v_name, v_octets, v_range, v_res, v_text, v_unknown, v_uri, v_uris,
};
use crate::ipp::media::{
    col_view, database_view, kw, media_col, media_col_database, media_names, media_size_supported,
    sizes_view, spec_all, tape, MARGIN_LEFT_RIGHT_HMM, MARGIN_TOP_BOTTOM_HMM, MEDIA_SOURCE,
};
use crate::ipp::value::{attr_models, attrs_writable, value_models, writable, Attr, StrKind, Value, ValueView};
use crate::ipp::{PrinterConfig, COMPRESSIONS, DOCUMENT_FORMATS, OPERATIONS};
use crate::text::{dec_int, owned, push_int, same_str, within_bytes};

verus! {

/// A printer description attribute on offer.
pub open spec fn desc(name: &str, value: ValueView) -> Offer {
    Offer { name: name@, grp: Grp::Desc, value }
}

/// A job template attribute on offer.
pub open spec fn tmpl(name: &str, value: ValueView) -> Offer {
    Offer { name: name@, grp: Grp::Tmpl, value }
}

/// A URI.
pub open spec fn uri(s: Seq<char>) -> ValueView {
    ValueView::Str(StrKind::Uri, within_bytes(s, 1023))
}

/// A text.
pub open spec fn text(s: Seq<char>) -> ValueView {
    ValueView::Str(StrKind::Text, within_bytes(s, 1023))
}

/// A name.
pub open spec fn name(s: Seq<char>) -> ValueView {
    ValueView::Str(StrKind::Name, within_bytes(s, 255))
}

/// A natural language.
pub open spec fn lang(s: &str) -> ValueView {
    ValueView::Str(StrKind::Language, within_bytes(s@, 63))
}

/// A charset.
pub open spec fn charset(s: &str) -> ValueView {
    ValueView::Str(StrKind::Charset, within_bytes(s@, 63))
}

/// A MIME media type.
pub open spec fn mime(s: &str) -> ValueView {
    ValueView::Str(StrKind::Mime, within_bytes(s@, 255))
}

/// Keywords.
pub open spec fn kws(v: Seq<&str>) -> ValueView {
    array_view(kw_views(v))
}

/// A number of 32 bits as a signed one.
pub open spec fn signed(n: u32) -> i32 {
    if n <= i32::MAX {
        n as i32
    } else {
        (n - 0x1_0000_0000) as i32
    }
}

/// A number of 32 bits as a signed one.
pub fn as_signed(n: u32) -> (r: i32)
    ensures
        r == signed(n),
{
    if n <= i32::MAX as u32 {
        n as i32
    } else {
        (n as i64 - 0x1_0000_0000) as i32
    }
}

/// A count.
pub open spec fn number(n: u32) -> ValueView {
    ValueView::Integer(signed(n))
}

/// A count.
pub fn v_number(n: u32) -> (r: Value)
    ensures
        r.model() == number(n),
        writable(r.model()),
{
    v_int(as_signed(n))
}

/// State reasons; `none` where there are none.
pub open spec fn reasons_view(reasons: Seq<&'static str>) -> ValueView {
    if reasons.len() == 0 {
        kws(seq!["none"])
    } else {
        kws(reasons)
    }
}

/// State reasons; `none` where there are none.
pub fn v_reasons(reasons: &Vec<&'static str>) -> (r: Value)
    ensures
        r.model() == reasons_view(reasons@),
        writable(r.model()),
{
    if reasons.len() == 0 {
        v_kws(&["none"])
    } else {
        v_kws(reasons.as_slice())
    }
}

fn page(cfg: &PrinterConfig, path: &str) -> (r: String)
    ensures
        r@ == cfg.base() + path@,
{
    let mut r = cfg.http_base();
    r.push_str(path);
    r
}

fn device_id(cfg: &PrinterConfig) -> (r: String)
    ensures
        r@ == "MFG:Cat Printer;MDL:"@ + cfg.model_label@ + ";CMD:PWGRaster;CLS:PRINTER;"@,
{
    let mut r = owned("MFG:Cat Printer;MDL:");
    r.push_str(cfg.model_label.as_str());
    r.push_str(";CMD:PWGRaster;CLS:PRINTER;");
    r
}

/// The icons.
pub open spec fn icons(cfg: PrinterConfig) -> ValueView {
    array_view(
        seq![
            uri(cfg.base() + "/icons/48.png"@),
            uri(cfg.base() + "/icons/128.png"@),
            uri(cfg.base() + "/icons/512.png"@),
        ],
    )
}

fn icon_uris(cfg: &PrinterConfig) -> (r: Value)
    ensures
        r.model() == icons(*cfg),
        writable(r.model()),
{
    let a = page(cfg, "/icons/48.png");
    let b = page(cfg, "/icons/128.png");
    let c = page(cfg, "/icons/512.png");
    let v = [a.as_str(), b.as_str(), c.as_str()];
    assert(uri_views(v@) =~= seq![uri(a@), uri(b@), uri(c@)]);
    v_uris(&v)
}

/// A resolution in dots per inch.
pub open spec fn resolution(dpi: i32) -> ValueView {
    ValueView::Resolution(dpi, dpi, 3)
}

/// Resolutions in dots per inch.
pub open spec fn resolutions(dpi: Seq<u32>) -> ValueView {
    array_view(Seq::new(dpi.len(), |i: int| resolution(signed(dpi[i]))))
}

fn v_resolutions(dpi: &Vec<u32>) -> (r: Value)
    ensures
        r.model() == resolutions(dpi@),
        writable(r.model()),
{
    let mut out: Vec<Value> = Vec::new();
    let mut i: usize = 0;
    while i < dpi.len()
        invariant
            i <= dpi.len(),
            out@.len() == i,
            forall|k: int|
                0 <= k < i ==> (#[trigger] out@[k]).model() == resolution(signed(dpi@[k]))
                    && writable(out@[k].model()),
        decreases dpi.len() - i,
    {
        out.push(v_res(as_signed(dpi[i])));
        i += 1;
    }
    assert(value_models(out@) =~= Seq::new(
        dpi@.len(),
        |i: int| resolution(signed(dpi@[i])),
    ));
    v_array(out)
}

/// The least of the resolutions; 203 where there are none.
pub open spec fn default_dpi(dpi: Seq<u32>) -> i32
    decreases dpi.len(),
{
    if dpi.len() == 0 {
        203
    } else if dpi.len() == 1 {
        signed(dpi[0])
    } else {
        let least = default_dpi(dpi.drop_last());
        if signed(dpi.last()) < least {
            signed(dpi.last())
        } else {
            least
        }
    }
}

fn default_resolution(dpi: &Vec<u32>) -> (r: i32)
    ensures
        r == default_dpi(dpi@),
{
    if dpi.len() == 0 {
        return 203;
    }
    let mut least: i32 = as_signed(dpi[0]);
    let mut i: usize = 1;
    assert(dpi@.take(1)[0] == dpi@[0]);
    while i < dpi.len()
        invariant
            1 <= i <= dpi.len(),
            least == default_dpi(dpi@.take(i as int)),
        decreases dpi.len() - i,
    {
        let d: i32 = as_signed(dpi[i]);
        assert(dpi@.take(i as int + 1).drop_last() =~= dpi@.take(i as int));
        if d < least {
            least = d;
        }
        i += 1;
    }
    assert(dpi@.take(dpi@.len() as int) =~= dpi@);
    least
}

/// The battery's level; -2 where it is not known.
pub open spec fn battery_level(battery: Option<u8>) -> int {
    match battery {
        Some(b) => b as int,
        None => -2,
    }
}

/// The levels of paper and battery.
pub open spec fn supply(battery: Option<u8>) -> ValueView {
    array_view(
        seq![
            ValueView::Octets(
                encode_utf8(
                    "index=1;class=supplyThatIsConsumed;type=other;unit=percent;maxcapacity=100;level=-2;colorantname=none;"@,
                ),
            ),
            ValueView::Octets(
                encode_utf8(
                    "index=2;class=supplyThatIsConsumed;type=other;unit=percent;maxcapacity=100;level="@
                        + dec_int(battery_level(battery)) + ";colorantname=none;"@,
                ),
            ),
        ],
    )
}

fn v_supply(battery: Option<u8>) -> (r: Value)
    ensures
        r.model() == supply(battery),
        writable(r.model()),
{
    let paper =
        "index=1;class=supplyThatIsConsumed;type=other;unit=percent;maxcapacity=100;level=-2;colorantname=none;";
    let mut t = owned(
        "index=2;class=supplyThatIsConsumed;type=other;unit=percent;maxcapacity=100;level=",
    );
    push_int(
        &mut t,
        match battery {
            Some(b) => b as i64,
            None => -2,
        },
    );
    t.push_str(";colorantname=none;");
    let mut v: Vec<Value> = Vec::new();
    v.push(v_octets(paper.as_bytes()));
    v.push(v_octets(t.as_str().as_bytes()));
    assert(value_models(v@) =~= seq![v@[0].model(), v@[1].model()]);
    v_array(v)
}

fn v_supply_names() -> (r: Value)
    ensures
        r.model() == array_view(seq![text("Thermal paper roll"@), text("Printer battery"@)]),
        writable(r.model()),
{
    let mut v: Vec<Value> = Vec::new();
    v.push(v_text("Thermal paper roll"));
    v.push(v_text("Printer battery"));
    assert(value_models(v@) =~= seq![v@[0].model(), v@[1].model()]);
    v_array(v)
}

/// At least one.
pub open spec fn max_1(n: i32) -> i32 {
    if n < 1 {
        1
    } else {
        n
    }
}

fn at_least_one(n: i32) -> (r: i32)
    ensures
        r == max_1(n),
{
    if n < 1 {
        1
    } else {
        n
    }
}

/// What the printer is called and where it is found.
pub open spec fn identity_offers(cfg: PrinterConfig) -> Seq<Offer> {
    seq![
        desc("printer-uri-supported", uri(cfg.uri())),
        desc("uri-security-supported", kw("none")),
        desc("uri-authentication-supported", kw("none")),
        desc("printer-name", name(cfg.name@)),
        desc("printer-info", text(cfg.info@)),
        desc("printer-location", text(cfg.location@)),
        desc("printer-make-and-model", text(cfg.make_model@)),
        desc("printer-more-info", uri(cfg.base() + "/"@)),
        desc("printer-supply-info-uri", uri(cfg.base() + "/"@)),
        desc("printer-uuid", uri(cfg.uuid@)),
        desc("printer-device-id", text("MFG:Cat Printer;MDL:"@ + cfg.model_label@ + ";CMD:PWGRaster;CLS:PRINTER;"@)),
    ]
}

fn put_identity(l: &mut AttrList, cfg: &PrinterConfig)
    requires
        old(l).wf(),
    ensures
        final(l).wf(),
        final(l).filter == old(l).filter,
        final(l).offers@ == old(l).offers@ + identity_offers(*cfg),
{
    l.put("printer-uri-supported", Grp::Desc, v_uri(cfg.printer_uri().as_str()));
    l.put("uri-security-supported", Grp::Desc, v_kw("none"));
    l.put("uri-authentication-supported", Grp::Desc, v_kw("none"));
    l.put("printer-name", Grp::Desc, v_name(cfg.name.as_str()));
    l.put("printer-info", Grp::Desc, v_text(cfg.info.as_str()));
    l.put("printer-location", Grp::Desc, v_text(cfg.location.as_str()));
    l.put("printer-make-and-model", Grp::Desc, v_text(cfg.make_model.as_str()));
    l.put("printer-more-info", Grp::Desc, v_uri(page(cfg, "/").as_str()));
    l.put("printer-supply-info-uri", Grp::Desc, v_uri(page(cfg, "/").as_str()));
    l.put("printer-uuid", Grp::Desc, v_uri(cfg.uuid.as_str()));
    l.put("printer-device-id", Grp::Desc, v_text(device_id(cfg).as_str()));
    assert(l.offers@ =~= old(l).offers@ + identity_offers(*cfg));
}

/// Where the printer is, and its icons and strings.
pub open spec fn pages_offers(cfg: PrinterConfig) -> Seq<Offer> {
    seq![
        desc("printer-geo-location", ValueView::Other(0x12, Seq::empty())),
        desc("printer-organization", text(""@)),
        desc("printer-organizational-unit", text(""@)),
        desc("printer-icons", icons(cfg)),
        desc("printer-strings-uri", uri(cfg.base() + "/strings/en.strings"@)),
        desc("printer-strings-languages-supported", lang("en")),
    ]
}

fn put_pages(l: &mut AttrList, cfg: &PrinterConfig)
    requires
        old(l).wf(),
    ensures
        final(l).wf(),
        final(l).filter == old(l).filter,
        final(l).offers@ == old(l).offers@ + pages_offers(*cfg),
{
    l.put("printer-geo-location", Grp::Desc, v_unknown());
    l.put("printer-organization", Grp::Desc, v_text(""));
    l.put("printer-organizational-unit", Grp::Desc, v_text(""));
    l.put("printer-icons", Grp::Desc, icon_uris(cfg));
    l.put("printer-strings-uri", Grp::Desc, v_uri(page(cfg, "/strings/en.strings").as_str()));
    l.put("printer-strings-languages-supported", Grp::Desc, v_lang("en"));
    assert(l.offers@ =~= old(l).offers@ + pages_offers(*cfg));
}

/// The state of the printer.
pub open spec fn state_offers(cfg: PrinterConfig, s: Store, now: Now) -> Seq<Offer> {
    seq![
        desc("printer-state", ValueView::Enum(s.view.state.code())),
        desc("printer-state-reasons", reasons_view(s.view.reasons@)),
        desc("printer-state-message", text(s.view.message@)),
        desc("printer-state-change-time", number(s.view.state_changed_uptime)),
        desc("printer-state-change-date-time", datetime_view(s.view.state_changed_at as int)),
        desc("printer-config-change-time", number(s.config_changed_uptime)),
        desc("printer-config-change-date-time", datetime_view(cfg.started as int)),
        desc("printer-is-accepting-jobs", ValueView::Boolean(s.view.accepting)),
        desc("queued-job-count", number(s.queued() as u32)),
        desc("printer-up-time", number(spec_uptime(now))),
        desc("printer-current-time", datetime_view(now.unix as int)),
    ]
}

fn put_state(l: &mut AttrList, cfg: &PrinterConfig, s: &Store, now: Now)
    requires
        old(l).wf(),
        s.wf(),
    ensures
        final(l).wf(),
        final(l).filter == old(l).filter,
        final(l).offers@ == old(l).offers@ + state_offers(*cfg, *s, now),
{
    l.put("printer-state", Grp::Desc, v_enum(s.view.state.as_i32()));
    l.put("printer-state-reasons", Grp::Desc, v_reasons(&s.view.reasons));
    l.put("printer-state-message", Grp::Desc, v_text(s.view.message.as_str()));
    l.put("printer-state-change-time", Grp::Desc, v_number(s.view.state_changed_uptime));
    l.put("printer-state-change-date-time", Grp::Desc, v_datetime(s.view.state_changed_at));
    l.put("printer-config-change-time", Grp::Desc, v_number(s.config_changed_uptime));
    l.put("printer-config-change-date-time", Grp::Desc, v_datetime(cfg.started));
    l.put("printer-is-accepting-jobs", Grp::Desc, v_bool(s.view.accepting));
    l.put("queued-job-count", Grp::Desc, v_number(s.queued_count()));
    l.put("printer-up-time", Grp::Desc, v_number(uptime(now)));
    l.put("printer-current-time", Grp::Desc, v_datetime(now.unix));
    assert(l.offers@ =~= old(l).offers@ + state_offers(*cfg, *s, now));
}

/// What the printer understands.
pub open spec fn protocol_offers() -> Seq<Offer> {
    seq![
        desc("ipp-versions-supported", kws(seq!["1.1", "2.0"])),
        desc("ipp-features-supported", kw("ipp-everywhere")),
        desc("operations-supported", array_view(enum_views(OPERATIONS@))),
        desc("charset-configured", charset("utf-8")),
        desc("charset-supported", charset("utf-8")),
        desc("natural-language-configured", lang("en")),
        desc("generated-natural-language-supported", lang("en")),
        desc("printer-get-attributes-supported", kw("document-format")),
        desc("pdl-override-supported", kw("attempted")),
        desc("compression-supported", kws(COMPRESSIONS@)),
        desc("preferred-attributes-supported", ValueView::Boolean(false)),
    ]
}

fn put_protocol(l: &mut AttrList)
    requires
        old(l).wf(),
    ensures
        final(l).wf(),
        final(l).filter == old(l).filter,
        final(l).offers@ == old(l).offers@ + protocol_offers(),
{
    l.put("ipp-versions-supported", Grp::Desc, v_kws(&["1.1", "2.0"]));
    l.put("ipp-features-supported", Grp::Desc, v_kw("ipp-everywhere"));
    l.put("operations-supported", Grp::Desc, v_enums(&OPERATIONS));
    l.put("charset-configured", Grp::Desc, v_charset("utf-8"));
    l.put("charset-supported", Grp::Desc, v_charset("utf-8"));
    l.put("natural-language-configured", Grp::Desc, v_lang("en"));
    l.put("generated-natural-language-supported", Grp::Desc, v_lang("en"));
    l.put("printer-get-attributes-supported", Grp::Desc, v_kw("document-format"));
    l.put("pdl-override-supported", Grp::Desc, v_kw("attempted"));
    l.put("compression-supported", Grp::Desc, v_kws(&COMPRESSIONS));
    l.put("preferred-attributes-supported", Grp::Desc, v_bool(false));
    assert(l.offers@ =~= old(l).offers@ + protocol_offers());
}

/// How the printer handles jobs.
pub open spec fn job_handling_offers(cfg: PrinterConfig) -> Seq<Offer> {
    seq![
        desc("job-ids-supported", ValueView::Boolean(true)),
        desc("which-jobs-supported", kws(seq!["completed", "not-completed", "aborted", "canceled", "all"])),
        desc("multiple-document-jobs-supported", ValueView::Boolean(false)),
        desc("multiple-operation-time-out", ValueView::Integer(120)),
        desc("multiple-operation-time-out-action", kw("abort-job")),
        desc("overrides-supported", kws(seq!["document-number", "pages"])),
        desc("job-k-octets-supported", ValueView::Range(0, cfg.max_document_kb)),
        desc("pages-per-minute", ValueView::Integer(1)),
        desc("color-supported", ValueView::Boolean(false)),
    ]
}

fn put_job_handling(l: &mut AttrList, cfg: &PrinterConfig)
    requires
        old(l).wf(),
    ensures
        final(l).wf(),
        final(l).filter == old(l).filter,
        final(l).offers@ == old(l).offers@ + job_handling_offers(*cfg),
{
    l.put("job-ids-supported", Grp::Desc, v_bool(true));
    l.put(
        "which-jobs-supported",
        Grp::Desc,
        v_kws(
            &[
                "completed", "not-completed", "aborted", "canceled", "all",
            ],
        ),
    );
    l.put("multiple-document-jobs-supported", Grp::Desc, v_bool(false));
    l.put("multiple-operation-time-out", Grp::Desc, v_int(120));
    l.put("multiple-operation-time-out-action", Grp::Desc, v_kw("abort-job"));
    l.put("overrides-supported", Grp::Desc, v_kws(&["document-number", "pages"]));
    l.put("job-k-octets-supported", Grp::Desc, v_range(0, cfg.max_document_kb));
    l.put("pages-per-minute", Grp::Desc, v_int(1));
    l.put("color-supported", Grp::Desc, v_bool(false));
    assert(l.offers@ =~= old(l).offers@ + job_handling_offers(*cfg));
}

/// The documents that the printer takes.
pub open spec fn documents_offers(cfg: PrinterConfig) -> Seq<Offer> {
    seq![
        desc("document-format-default", mime("image/pwg-raster")),
        desc("document-format-supported", array_view(mime_views(DOCUMENT_FORMATS@))),
        desc("pwg-raster-document-type-supported", kw("sgray_8")),
        desc("pwg-raster-document-resolution-supported", resolutions(cfg.resolutions@)),
        desc("pwg-raster-document-sheet-back", kw("normal")),
        desc("printer-resolution-default", resolution(default_dpi(cfg.resolutions@))),
        desc("printer-resolution-supported", resolutions(cfg.resolutions@)),
        desc("identify-actions-default", kw("flash")),
        desc("identify-actions-supported", kw("flash")),
        desc(
            "job-creation-attributes-supported",
            kws(
                seq![
                    "copies", "document-format", "ipp-attribute-fidelity", "job-name", "media",
                    "media-col", "multiple-document-handling", "orientation-requested",
                    "output-bin", "print-color-mode", "print-content-optimize", "print-quality",
                    "print-scaling", "printer-resolution", "sides", "finishings", "overrides",
                ],
            ),
        ),
    ]
}

fn put_documents(l: &mut AttrList, cfg: &PrinterConfig)
    requires
        old(l).wf(),
    ensures
        final(l).wf(),
        final(l).filter == old(l).filter,
        final(l).offers@ == old(l).offers@ + documents_offers(*cfg),
{
    l.put("document-format-default", Grp::Desc, v_mime("image/pwg-raster"));
    l.put("document-format-supported", Grp::Desc, v_mimes(&DOCUMENT_FORMATS));
    l.put("pwg-raster-document-type-supported", Grp::Desc, v_kw("sgray_8"));
    l.put("pwg-raster-document-resolution-supported", Grp::Desc, v_resolutions(&cfg.resolutions));
    l.put("pwg-raster-document-sheet-back", Grp::Desc, v_kw("normal"));
    l.put("printer-resolution-default", Grp::Desc, v_res(default_resolution(&cfg.resolutions)));
    l.put("printer-resolution-supported", Grp::Desc, v_resolutions(&cfg.resolutions));
    l.put("identify-actions-default", Grp::Desc, v_kw("flash"));
    l.put("identify-actions-supported", Grp::Desc, v_kw("flash"));
    l.put(
        "job-creation-attributes-supported",
        Grp::Desc,
        v_kws(
            &[
                "copies", "document-format", "ipp-attribute-fidelity", "job-name", "media",
                "media-col", "multiple-document-handling", "orientation-requested", "output-bin",
                "print-color-mode", "print-content-optimize", "print-quality", "print-scaling",
                "printer-resolution", "sides", "finishings", "overrides",
            ],
        ),
    );
    assert(l.offers@ =~= old(l).offers@ + documents_offers(*cfg));
}

/// The media.
pub open spec fn media_offers() -> Seq<Offer> {
    seq![
        desc(
            "media-col-supported",
            kws(
                seq![
                    "media-size", "media-size-name", "media-source", "media-type",
                    "media-left-margin", "media-right-margin", "media-top-margin",
                    "media-bottom-margin",
                ],
            ),
        ),
        desc("media-left-margin-supported", ValueView::Integer(MARGIN_LEFT_RIGHT_HMM)),
        desc("media-right-margin-supported", ValueView::Integer(MARGIN_LEFT_RIGHT_HMM)),
        desc("media-top-margin-supported", ValueView::Integer(MARGIN_TOP_BOTTOM_HMM)),
        desc("media-bottom-margin-supported", ValueView::Integer(MARGIN_TOP_BOTTOM_HMM)),
        desc("media-source-supported", kw(MEDIA_SOURCE)),
        desc("media-type-supported", kws(seq!["stationery", "labels"])),
        desc("media-size-supported", sizes_view()),
        desc("media-ready", kw(spec_all()[0].name)),
        desc("media-col-ready", col_view(Some(spec_all()[0]))),
    ]
}

fn put_media(l: &mut AttrList)
    requires
        old(l).wf(),
    ensures
        final(l).wf(),
        final(l).filter == old(l).filter,
        final(l).offers@ == old(l).offers@ + media_offers(),
{
    l.put(
        "media-col-supported",
        Grp::Desc,
        v_kws(
            &[
                "media-size", "media-size-name", "media-source", "media-type", "media-left-margin",
                "media-right-margin", "media-top-margin", "media-bottom-margin",
            ],
        ),
    );
    l.put("media-left-margin-supported", Grp::Desc, v_int(MARGIN_LEFT_RIGHT_HMM));
    l.put("media-right-margin-supported", Grp::Desc, v_int(MARGIN_LEFT_RIGHT_HMM));
    l.put("media-top-margin-supported", Grp::Desc, v_int(MARGIN_TOP_BOTTOM_HMM));
    l.put("media-bottom-margin-supported", Grp::Desc, v_int(MARGIN_TOP_BOTTOM_HMM));
    l.put("media-source-supported", Grp::Desc, v_kw(MEDIA_SOURCE));
    l.put("media-type-supported", Grp::Desc, v_kws(&["stationery", "labels"]));
    l.put("media-size-supported", Grp::Desc, media_size_supported());
    l.put("media-ready", Grp::Desc, v_kw(tape().name));
    l.put("media-col-ready", Grp::Desc, media_col(Some(tape())));
    assert(l.offers@ =~= old(l).offers@ + media_offers());
}

/// The paper roll, whose level is not known, and the battery.
pub open spec fn supplies_offers(battery: Option<u8>) -> Seq<Offer> {
    seq![
        desc("printer-supply", supply(battery)),
        desc("printer-supply-description", array_view(seq![text("Thermal paper roll"@), text("Printer battery"@)])),
    ]
}

fn put_supplies(l: &mut AttrList, battery: Option<u8>)
    requires
        old(l).wf(),
    ensures
        final(l).wf(),
        final(l).filter == old(l).filter,
        final(l).offers@ == old(l).offers@ + supplies_offers(battery),
{
    l.put("printer-supply", Grp::Desc, v_supply(battery));
    l.put("printer-supply-description", Grp::Desc, v_supply_names());
    assert(l.offers@ =~= old(l).offers@ + supplies_offers(battery));
}

/// Job template attributes for copies and media.
pub open spec fn copies_and_media_offers(cfg: PrinterConfig) -> Seq<Offer> {
    seq![
        tmpl("copies-default", ValueView::Integer(1)),
        tmpl("copies-supported", ValueView::Range(1, max_1(cfg.max_copies))),
        tmpl("finishings-default", ValueView::Enum(3)),
        tmpl("finishings-supported", ValueView::Enum(3)),
        tmpl("media-default", kw(spec_all()[0].name)),
        tmpl("media-supported", kws(Seq::new(4, |i: int| spec_all()[i].name))),
        tmpl("media-col-default", col_view(Some(spec_all()[0]))),
        tmpl("multiple-document-handling-default", kw("single-document")),
        tmpl("multiple-document-handling-supported", kw("single-document")),
        tmpl("orientation-requested-default", ValueView::Enum(3)),
        tmpl("orientation-requested-supported", array_view(enum_views(seq![3i32, 4, 5, 6]))),
        tmpl("output-bin-default", kw("face-up")),
        tmpl("output-bin-supported", kw("face-up")),
        tmpl("page-ranges-supported", ValueView::Boolean(false)),
    ]
}

fn put_copies_and_media(l: &mut AttrList, cfg: &PrinterConfig)
    requires
        old(l).wf(),
    ensures
        final(l).wf(),
        final(l).filter == old(l).filter,
        final(l).offers@ == old(l).offers@ + copies_and_media_offers(*cfg),
{
    l.put("copies-default", Grp::Tmpl, v_int(1));
    l.put("copies-supported", Grp::Tmpl, v_range(1, at_least_one(cfg.max_copies)));
    l.put("finishings-default", Grp::Tmpl, v_enum(3));
    l.put("finishings-supported", Grp::Tmpl, v_enum(3));
    l.put("media-default", Grp::Tmpl, v_kw(tape().name));
    l.put("media-supported", Grp::Tmpl, v_kws(media_names().as_slice()));
    l.put("media-col-default", Grp::Tmpl, media_col(Some(tape())));
    l.put("multiple-document-handling-default", Grp::Tmpl, v_kw("single-document"));
    l.put("multiple-document-handling-supported", Grp::Tmpl, v_kw("single-document"));
    l.put("orientation-requested-default", Grp::Tmpl, v_enum(3));
    l.put("orientation-requested-supported", Grp::Tmpl, v_enums(&[3, 4, 5, 6]));
    l.put("output-bin-default", Grp::Tmpl, v_kw("face-up"));
    l.put("output-bin-supported", Grp::Tmpl, v_kw("face-up"));
    l.put("page-ranges-supported", Grp::Tmpl, v_bool(false));
    assert(l.offers@ =~= old(l).offers@ + copies_and_media_offers(*cfg));
}

/// Job template attributes for how a job is printed. For content only `auto` is on offer, so that
/// CUPS does not grow a second menu.
pub open spec fn printing_offers() -> Seq<Offer> {
    seq![
        tmpl("print-color-mode-default", kw("bi-level")),
        tmpl("print-color-mode-supported", kws(seq!["bi-level", "monochrome"])),
        tmpl("print-content-optimize-default", kw("auto")),
        tmpl("print-content-optimize-supported", kw("auto")),
        tmpl("print-quality-default", ValueView::Enum(4)),
        tmpl("print-quality-supported", array_view(enum_views(seq![3i32, 4, 5]))),
        tmpl("print-rendering-intent-default", kw("auto")),
        tmpl("print-rendering-intent-supported", kw("auto")),
        tmpl("print-scaling-default", kw("auto")),
        tmpl("print-scaling-supported", kws(seq!["auto", "fit", "fill", "none"])),
        tmpl("sides-default", kw("one-sided")),
        tmpl("sides-supported", kw("one-sided")),
    ]
}

fn put_printing(l: &mut AttrList)
    requires
        old(l).wf(),
    ensures
        final(l).wf(),
        final(l).filter == old(l).filter,
        final(l).offers@ == old(l).offers@ + printing_offers(),
{
    l.put("print-color-mode-default", Grp::Tmpl, v_kw("bi-level"));
    l.put("print-color-mode-supported", Grp::Tmpl, v_kws(&["bi-level", "monochrome"]));
    l.put("print-content-optimize-default", Grp::Tmpl, v_kw("auto"));
    l.put("print-content-optimize-supported", Grp::Tmpl, v_kw("auto"));
    l.put("print-quality-default", Grp::Tmpl, v_enum(4));
    l.put("print-quality-supported", Grp::Tmpl, v_enums(&[3, 4, 5]));
    l.put("print-rendering-intent-default", Grp::Tmpl, v_kw("auto"));
    l.put("print-rendering-intent-supported", Grp::Tmpl, v_kw("auto"));
    l.put("print-scaling-default", Grp::Tmpl, v_kw("auto"));
    l.put("print-scaling-supported", Grp::Tmpl, v_kws(&["auto", "fit", "fill", "none"]));
    l.put("sides-default", Grp::Tmpl, v_kw("one-sided"));
    l.put("sides-supported", Grp::Tmpl, v_kw("one-sided"));
    assert(l.offers@ =~= old(l).offers@ + printing_offers());
}

/// Job template attributes for when and how a job is queued.
pub open spec fn scheduling_offers() -> Seq<Offer> {
    seq![
        tmpl("number-up-default", ValueView::Integer(1)),
        tmpl("number-up-supported", ValueView::Integer(1)),
        tmpl("job-priority-default", ValueView::Integer(50)),
        tmpl("job-priority-supported", ValueView::Integer(1)),
        tmpl("job-hold-until-default", kw("no-hold")),
        tmpl("job-hold-until-supported", kw("no-hold")),
        tmpl("job-sheets-default", kw("none")),
        tmpl("job-sheets-supported", kw("none")),
    ]
}

fn put_scheduling(l: &mut AttrList)
    requires
        old(l).wf(),
    ensures
        final(l).wf(),
        final(l).filter == old(l).filter,
        final(l).offers@ == old(l).offers@ + scheduling_offers(),
{
    l.put("number-up-default", Grp::Tmpl, v_int(1));
    l.put("number-up-supported", Grp::Tmpl, v_int(1));
    l.put("job-priority-default", Grp::Tmpl, v_int(50));
    l.put("job-priority-supported", Grp::Tmpl, v_int(1));
    l.put("job-hold-until-default", Grp::Tmpl, v_kw("no-hold"));
    l.put("job-hold-until-supported", Grp::Tmpl, v_kw("no-hold"));
    l.put("job-sheets-default", Grp::Tmpl, v_kw("none"));
    l.put("job-sheets-supported", Grp::Tmpl, v_kw("none"));
    assert(l.offers@ =~= old(l).offers@ + scheduling_offers());
}
/// All attributes on offer but `media-col-database`.
pub open spec fn printer_offers(cfg: PrinterConfig, s: Store, now: Now) -> Seq<Offer> {
    identity_offers(cfg) + pages_offers(cfg) + state_offers(cfg, s, now) + protocol_offers()
        + job_handling_offers(cfg) + documents_offers(cfg) + media_offers() + supplies_offers(
        s.view.battery,
    ) + copies_and_media_offers(cfg) + printing_offers() + scheduling_offers()
}

// ------------------------------------------------------------------ what is asked for

/// The name stands for a whole group, or for the attribute that is given only when it is named.
pub open spec fn is_group_name(n: Seq<char>) -> bool {
    n == "all"@ || n == "printer-description"@ || n == "job-template"@ || n == "media-col-database"@
}

/// Those of the requested names that are no group's.
pub open spec fn named_of(requested: Seq<Seq<char>>) -> Seq<Seq<char>>
    decreases requested.len(),
{
    if requested.len() == 0 {
        Seq::empty()
    } else if is_group_name(requested.last()) {
        named_of(requested.drop_last())
    } else {
        named_of(requested.drop_last()).push(requested.last())
    }
}

/// `f` lets through what is asked for: everything where nothing is named or `all` is, the groups that
/// are named, and the attributes that are named.
pub open spec fn is_printer_filter(f: Filter, requested: Seq<Seq<char>>) -> bool {
    let all = requested.len() == 0 || requested.contains("all"@);
    f matches Filter::Printer { desc, tmpl, named } && desc == (all || requested.contains(
        "printer-description"@,
    )) && tmpl == (all || requested.contains("job-template"@)) && string_views(named@) == named_of(
        requested,
    )
}

fn printer_filter(requested: &Vec<String>) -> (r: Filter)
    ensures
        is_printer_filter(r, string_views(requested@)),
{
    let all = requested.len() == 0 || holds(requested, "all");
    let desc = all || holds(requested, "printer-description");
    let tmpl = all || holds(requested, "job-template");
    let mut named: Vec<String> = Vec::new();
    let mut i: usize = 0;
    let ghost views = string_views(requested@);
    assert(views.take(0) =~= Seq::<Seq<char>>::empty());
    assert(string_views(named@) =~= named_of(views.take(0)));
    while i < requested.len()
        invariant
            i <= requested.len(),
            views == string_views(requested@),
            string_views(named@) == named_of(views.take(i as int)),
        decreases requested.len() - i,
    {
        let n = requested[i].as_str();
        let ghost was = named@;
        assert(views.take(i as int + 1).drop_last() =~= views.take(i as int));
        assert(views.take(i as int + 1).last() == n@);
        if !(same_str(n, "all") || same_str(n, "printer-description") || same_str(n, "job-template")
            || same_str(n, "media-col-database")) {
            named.push(owned(n));
            assert(string_views(named@) =~= string_views(was).push(n@));
        }
        i += 1;
    }
    assert(views.take(views.len() as int) =~= views);
    Filter::Printer { desc, tmpl, named }
}

/// The attributes that answer a request: those on offer that it asks for, in order, and at the end
/// `media-col-database` where that is asked for by name.
pub open spec fn is_printer_answer(
    attrs: Seq<(Seq<char>, ValueView)>,
    cfg: PrinterConfig,
    s: Store,
    now: Now,
    requested: Seq<Seq<char>>,
) -> bool {
    exists|f: Filter|
        {
            &&& #[trigger] is_printer_filter(f, requested)
            &&& attrs == if has_fold(requested, "media-col-database"@) {
                admitted(printer_offers(cfg, s, now), f).push(
                    (within_bytes("media-col-database"@, 255), database_view()),
                )
            } else {
                admitted(printer_offers(cfg, s, now), f)
            }
        }
}

/// The attributes that answer Get-Printer-Attributes.
pub fn printer_attributes(cfg: &PrinterConfig, s: &Store, now: Now, requested: &Vec<String>) -> (r:
    Vec<Attr>)
    requires
        s.wf(),
    ensures
        is_printer_answer(attr_models(r@), *cfg, *s, now, string_views(requested@)),
        attrs_writable(attr_models(r@)),
{
    let f = printer_filter(requested);
    let mut l = AttrList::new(f);
    put_identity(&mut l, cfg);
    put_pages(&mut l, cfg);
    put_state(&mut l, cfg, s, now);
    put_protocol(&mut l);
    put_job_handling(&mut l, cfg);
    put_documents(&mut l, cfg);
    put_media(&mut l);
    put_supplies(&mut l, s.view.battery);
    put_copies_and_media(&mut l, cfg);
    put_printing(&mut l);
    put_scheduling(&mut l);
    assert(l.offers@ =~= printer_offers(*cfg, *s, now));
    let ghost before = l;
    if holds_fold(requested, "media-col-database") {
        let mut g = crate::ipp::value::AttrGroup {
            tag: crate::ipp::value::Group::PrinterAttributes,
            attrs: l.attrs,
        };
        g.push_attr("media-col-database", media_col_database());
        g.attrs
    } else {
        l.attrs
    }
}

} // verus!
