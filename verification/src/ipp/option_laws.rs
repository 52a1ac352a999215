//! How what a request says, attribute by attribute, comes out in a job's options and in how it is rendered.

use vstd::prelude::*;

use crate::ipp::codec::{find_attr, find_member, find_value, Group, Request};
use crate::ipp::media::spec_parse_media_name;
use crate::ipp::options::{exact_int, ignorable, is_options_of, opt_view, present, JobOptions};
use crate::ipp::value::{Attr, AttrGroup, Value};
use crate::render::{Layout, Preset, RenderOptions, Tone};
use crate::text::lower;

verus! {

// ------------------------------------------------------------------ attributes

/// A name is another up to case.
pub open spec fn is_name(a: Seq<char>, b: Seq<char>) -> bool {
    a == b || lower(a) == lower(b)
}

/// Attribute `a` of group `g` is the first of that name among the groups of a tag, or among all.
pub open spec fn stands_first(req: Request, group: Option<Group>, name: Seq<char>, g: int, a: int) -> bool {
    let gs = req.groups@;
    &&& 0 <= g < gs.len()
    &&& group is None || group == Some(gs[g].tag)
    &&& 0 <= a < gs[g].attrs@.len()
    &&& is_name(gs[g].attrs@[a].name@, name)
    &&& forall|k: int| 0 <= k < a ==> !is_name((#[trigger] gs[g].attrs@[k]).name@, name)
    &&& forall|h: int|
        0 <= h < g && (group is None || group == Some((#[trigger] gs[h]).tag)) ==> lacks(gs[h], name)
}

/// A group has no attribute of that name.
pub open spec fn lacks(group: AttrGroup, name: Seq<char>) -> bool {
    forall|k: int| 0 <= k < group.attrs@.len() ==> !is_name((#[trigger] group.attrs@[k]).name@, name)
}

proof fn lemma_attr(attrs: Seq<Attr>, name: Seq<char>, a: int)
    requires
        0 <= a <= attrs.len(),
        forall|k: int| 0 <= k < a ==> !is_name((#[trigger] attrs[k]).name@, name),
        a < attrs.len() ==> is_name(attrs[a].name@, name),
    ensures
        a < attrs.len() ==> find_attr(attrs, name) == Some(attrs[a].value),
        a == attrs.len() ==> find_attr(attrs, name) is None,
    decreases attrs.len(),
{
    if a > 0 {
        assert(!is_name(attrs[0].name@, name));
        let rest = attrs.skip(1);
        assert forall|k: int| 0 <= k < a - 1 implies !is_name((#[trigger] rest[k]).name@, name) by {
            assert(rest[k] == attrs[k + 1]);
        }
        lemma_attr(rest, name, a - 1);
    }
}

proof fn lemma_value(gs: Seq<AttrGroup>, group: Option<Group>, name: Seq<char>, g: int, a: int)
    requires
        0 <= g < gs.len(),
        group is None || group == Some(gs[g].tag),
        0 <= a < gs[g].attrs@.len(),
        is_name(gs[g].attrs@[a].name@, name),
        forall|k: int| 0 <= k < a ==> !is_name((#[trigger] gs[g].attrs@[k]).name@, name),
        forall|h: int|
            0 <= h < g && (group is None || group == Some((#[trigger] gs[h]).tag)) ==> lacks(gs[h], name),
    ensures
        find_value(gs, group, name) == Some(gs[g].attrs@[a].value),
    decreases gs.len(),
{
    if g == 0 {
        lemma_attr(gs[0].attrs@, name, a);
    } else {
        if group is None || group == Some(gs[0].tag) {
            assert(lacks(gs[0], name));
            lemma_attr(gs[0].attrs@, name, gs[0].attrs@.len() as int);
        }
        let rest = gs.skip(1);
        assert forall|h: int|
            0 <= h < g - 1 && (group is None || group == Some((#[trigger] rest[h]).tag)) implies lacks(
            rest[h],
            name,
        ) by {
            assert(rest[h] == gs[h + 1]);
        }
        lemma_value(rest, group, name, g - 1, a);
    }
}

/// The value of an attribute is that of the first one of its name, up to case, among the groups that are asked.
pub proof fn lemma_first_value(req: Request, group: Option<Group>, name: Seq<char>, g: int, a: int)
    requires
        stands_first(req, group, name, g, a),
    ensures
        req.value(group, name) == Some(req.groups@[g].attrs@[a].value),
{
    lemma_value(req.groups@, group, name, g, a);
}

/// An attribute that none of the groups that are asked has, has no value.
pub proof fn lemma_no_value(req: Request, group: Option<Group>, name: Seq<char>)
    requires
        forall|h: int|
            0 <= h < req.groups@.len() && (group is None || group == Some((#[trigger] req.groups@[h]).tag))
                ==> lacks(req.groups@[h], name),
    ensures
        req.value(group, name) is None,
        req.text(group, name) is None,
        req.number(group, name) is None,
{
    lemma_none(req.groups@, group, name);
}

proof fn lemma_none(gs: Seq<AttrGroup>, group: Option<Group>, name: Seq<char>)
    requires
        forall|h: int|
            0 <= h < gs.len() && (group is None || group == Some((#[trigger] gs[h]).tag)) ==> lacks(
                gs[h],
                name,
            ),
    ensures
        find_value(gs, group, name) is None,
    decreases gs.len(),
{
    if gs.len() > 0 {
        if group is None || group == Some(gs[0].tag) {
            assert(lacks(gs[0], name));
            lemma_attr(gs[0].attrs@, name, gs[0].attrs@.len() as int);
        }
        let rest = gs.skip(1);
        assert forall|h: int|
            0 <= h < rest.len() && (group is None || group == Some((#[trigger] rest[h]).tag)) implies lacks(
            rest[h],
            name,
        ) by {
            assert(rest[h] == gs[h + 1]);
        }
        lemma_none(rest, group, name);
    }
}

// ------------------------------------------------------------------ copies and quality

/// A value is this number, or a list that begins with it.
pub open spec fn says_number(v: Value, n: i32) -> bool {
    ||| v == Value::Integer(n)
    ||| v == Value::Enum(n)
    ||| v matches Value::Array(l) && l@.len() > 0 && (l@[0] == Value::Integer(n) || l@[0] == Value::Enum(n))
}

/// As many copies are made as are asked for, from one to the limit; fewer than one are one, and more than the
/// limit are the limit.
pub proof fn lemma_copies(o: JobOptions, req: Request, max_copies: int, g: int, a: int, c: i32)
    requires
        1 <= max_copies <= i32::MAX,
        is_options_of(o, req, max_copies),
        stands_first(req, None, "copies"@, g, a),
        says_number(req.groups@[g].attrs@[a].value, c),
    ensures
        1 <= c <= max_copies ==> o.copies == c,
        c < 1 ==> o.copies == 1,
        c > max_copies ==> o.copies == max_copies,
        1 <= o.copies <= max_copies,
{
    lemma_first_value(req, None, "copies"@, g, a);
    assert(req.number(None, "copies"@) == Some(c));
}

/// The quality is the one asked for, where it is draft, normal or high, and normal elsewhere.
pub proof fn lemma_quality(o: JobOptions, req: Request, max_copies: int, g: int, a: int, q: i32)
    requires
        is_options_of(o, req, max_copies),
        stands_first(req, None, "print-quality"@, g, a),
        says_number(req.groups@[g].attrs@[a].value, q),
    ensures
        q == 3 || q == 4 || q == 5 ==> o.print_quality == q,
        q < 3 || q > 5 ==> o.print_quality == 4,
{
    lemma_first_value(req, None, "print-quality"@, g, a);
    assert(req.number(None, "print-quality"@) == Some(q));
}

/// No group of a request has an attribute of that name.
pub open spec fn unsaid(req: Request, name: Seq<char>) -> bool {
    forall|h: int| 0 <= h < req.groups@.len() ==> lacks(#[trigger] req.groups@[h], name)
}

/// A job that asks for nothing special is one copy of normal quality, in monochrome, whatever is on it.
pub proof fn lemma_plain_request(o: JobOptions, req: Request, max_copies: int)
    requires
        1 <= max_copies <= i32::MAX,
        is_options_of(o, req, max_copies),
    ensures
        unsaid(req, "copies"@) ==> o.copies == 1,
        unsaid(req, "print-quality"@) ==> o.print_quality == 4,
        unsaid(req, "print-color-mode"@) ==> o.color_mode@ == "monochrome"@,
        unsaid(req, "print-content-optimize"@) ==> o.content_optimize@ == "auto"@,
        unsaid(req, "compression"@) ==> o.compression@ == "none"@,
        unsaid(req, "job-name"@) ==> o.job_name@ == "untitled"@,
        unsaid(req, "requesting-user-name"@) ==> o.user@ == "anonymous"@,
        unsaid(req, "document-format"@) ==> o.document_format is None,
        unsaid(req, "document-name"@) ==> o.document_name is None,
        unsaid(req, "job-originating-host-name"@) ==> o.host is None,
        unsaid(req, "media"@) && unsaid(req, "media-col"@) ==> o.media is None,
{
    let op = Some(Group::OperationAttributes);
    if unsaid(req, "copies"@) {
        lemma_no_value(req, None, "copies"@);
    }
    if unsaid(req, "print-quality"@) {
        lemma_no_value(req, None, "print-quality"@);
    }
    if unsaid(req, "print-color-mode"@) {
        lemma_no_value(req, None, "print-color-mode"@);
    }
    if unsaid(req, "print-content-optimize"@) {
        lemma_no_value(req, None, "print-content-optimize"@);
    }
    if unsaid(req, "compression"@) {
        lemma_no_value(req, op, "compression"@);
    }
    if unsaid(req, "job-name"@) {
        lemma_no_value(req, op, "job-name"@);
    }
    if unsaid(req, "requesting-user-name"@) {
        lemma_no_value(req, op, "requesting-user-name"@);
    }
    if unsaid(req, "document-format"@) {
        lemma_no_value(req, op, "document-format"@);
    }
    if unsaid(req, "document-name"@) {
        lemma_no_value(req, op, "document-name"@);
    }
    if unsaid(req, "job-originating-host-name"@) {
        lemma_no_value(req, op, "job-originating-host-name"@);
    }
    if unsaid(req, "media"@) && unsaid(req, "media-col"@) {
        lemma_no_value(req, None, "media"@);
        lemma_no_value(req, None, "media-col"@);
    }
}

// ------------------------------------------------------------------ words

/// A value is a string of one of the kinds that attributes have, with this text.
pub open spec fn says_text(v: Value, t: Seq<char>) -> bool {
    ||| v matches Value::Keyword(s) && s@ == t
    ||| v matches Value::NameWithoutLanguage(s) && s@ == t
    ||| v matches Value::TextWithoutLanguage(s) && s@ == t
    ||| v matches Value::NameWithLanguage { name, .. } && name@ == t
    ||| v matches Value::TextWithLanguage { text, .. } && text@ == t
    ||| v matches Value::MimeMediaType(s) && s@ == t
    ||| v matches Value::Uri(s) && s@ == t
    ||| v matches Value::Charset(s) && s@ == t
    ||| v matches Value::NaturalLanguage(s) && s@ == t
}

/// What a job says of itself in words is kept to the letter: how to color and what for, in any group; its name,
/// its user and host, its document's name and format and how it is compressed, in the operation group. An empty
/// name or user counts as none.
pub proof fn lemma_words(
    o: JobOptions,
    req: Request,
    max_copies: int,
    group: Option<Group>,
    name: Seq<char>,
    g: int,
    a: int,
    t: Seq<char>,
)
    requires
        is_options_of(o, req, max_copies),
        stands_first(req, group, name, g, a),
        says_text(req.groups@[g].attrs@[a].value, t),
    ensures
        group is None && name == "print-color-mode"@ ==> o.color_mode@ == t,
        group is None && name == "print-content-optimize"@ ==> o.content_optimize@ == t,
        group == Some(Group::OperationAttributes) ==> {
            &&& name == "compression"@ ==> o.compression@ == t
            &&& name == "job-name"@ && t.len() > 0 ==> o.job_name@ == t
            &&& name == "job-name"@ && t.len() == 0 ==> o.job_name@ == "untitled"@
            &&& name == "requesting-user-name"@ && t.len() > 0 ==> o.user@ == t
            &&& name == "requesting-user-name"@ && t.len() == 0 ==> o.user@ == "anonymous"@
            &&& name == "job-originating-host-name"@ ==> opt_view(o.host) == Some(t)
            &&& name == "document-name"@ ==> opt_view(o.document_name) == Some(t)
            &&& name == "document-format"@ ==> opt_view(o.document_format) == Some(t)
        },
{
    lemma_first_value(req, group, name, g, a);
    assert(req.text(group, name) == Some(t));
}

// ------------------------------------------------------------------ media

proof fn lemma_exact(members: Seq<(String, Value)>, name: Seq<char>, k: int, n: i32)
    requires
        0 <= k < members.len(),
        members[k].0@ == name,
        members[k].1 == Value::Integer(n),
        forall|i: int| 0 <= i < k ==> (#[trigger] members[i]).0@ != name,
    ensures
        exact_int(members, name) == Some(n),
    decreases k,
{
    if k > 0 {
        assert(members[0].0@ != name);
        lemma_exact(members.skip(1), name, k - 1, n);
    }
}

proof fn lemma_member(members: Seq<(String, Value)>, name: Seq<char>, k: int)
    requires
        0 <= k < members.len(),
        is_name(members[k].0@, name),
        forall|i: int| 0 <= i < k ==> !is_name((#[trigger] members[i]).0@, name),
    ensures
        find_member(members, name) == Some(members[k].1),
    decreases k,
{
    if k > 0 {
        assert(!is_name(members[0].0@, name));
        lemma_member(members.skip(1), name, k - 1);
    }
}

/// A media collection whose member `k` is a size of `x` by `y`.
pub open spec fn says_size(col: Seq<(String, Value)>, k: int, i: int, j: int, x: i32, y: i32) -> bool {
    &&& 0 <= k < col.len()
    &&& col[k].0@ == "media-size"@
    &&& forall|l: int| 0 <= l < k ==> !is_name((#[trigger] col[l]).0@, "media-size"@)
    &&& col[k].1 matches Value::Collection(size)
    &&& 0 <= i < size@.len() && size@[i].0@ == "x-dimension"@ && size@[i].1 == Value::Integer(x)
    &&& 0 <= j < size@.len() && size@[j].0@ == "y-dimension"@ && size@[j].1 == Value::Integer(y)
    &&& forall|l: int| 0 <= l < i ==> (#[trigger] size@[l]).0@ != "x-dimension"@
    &&& forall|l: int| 0 <= l < j ==> (#[trigger] size@[l]).0@ != "y-dimension"@
}

/// A size in `media-col` is the job's media, to the hundredth of a millimetre, across and along, whatever
/// `media` says.
pub proof fn lemma_size_wins(
    o: JobOptions,
    req: Request,
    max_copies: int,
    g: int,
    a: int,
    k: int,
    i: int,
    j: int,
    x: i32,
    y: i32,
)
    requires
        is_options_of(o, req, max_copies),
        stands_first(req, None, "media-col"@, g, a),
        req.groups@[g].attrs@[a].value matches Value::Collection(col) && says_size(col@, k, i, j, x, y),
    ensures
        o.media is Some,
        (o.media->0).x_hmm == x,
        (o.media->0).y_hmm == y,
{
    lemma_first_value(req, None, "media-col"@, g, a);
    let col = req.groups@[g].attrs@[a].value->Collection_0;
    lemma_member(col@, "media-size"@, k);
    let size = col@[k].1->Collection_0;
    lemma_exact(size@, "x-dimension"@, i, x);
    lemma_exact(size@, "y-dimension"@, j, y);
}

/// Without `media-col`, a `media` name that can be read is the job's media, under that name; another is none.
pub proof fn lemma_media_by_name(o: JobOptions, req: Request, max_copies: int, g: int, a: int, t: Seq<char>)
    requires
        is_options_of(o, req, max_copies),
        unsaid(req, "media-col"@),
        stands_first(req, None, "media"@, g, a),
        says_text(req.groups@[g].attrs@[a].value, t),
    ensures
        o.media is Some <==> spec_parse_media_name(t) is Some,
        spec_parse_media_name(t) matches Some((x, y)) ==> (o.media->0).x_hmm == x && (o.media->0).y_hmm == y
            && opt_view((o.media->0).name) == Some(t),
{
    lemma_no_value(req, None, "media-col"@);
    lemma_first_value(req, None, "media"@, g, a);
    assert(req.text(None, "media"@) == Some(t));
}

// ------------------------------------------------------------------ rendering

/// Draft is text and high is a picture, whatever the content; at normal quality photos are pictures, text is
/// text, and all else is the default. Pictures are gray unless the color mode is bi-level; nothing else is.
pub proof fn lemma_styles_of_jobs(o: JobOptions, base: RenderOptions, is_image: bool)
    ensures
        ({
            let r = o.spec_render_options(base, is_image);
            let bi = o.color_mode@ == "bi-level"@ || o.color_mode@ == "process-bi-level"@;
            &&& o.print_quality == 3 ==> r.preset == Preset::Text
            &&& o.print_quality == 5 ==> r.preset == Preset::Picture
            &&& o.print_quality == 4 && o.content_optimize@ == "photo"@ ==> r.preset == Preset::Picture
            &&& o.print_quality == 4 && o.content_optimize@ == "text"@ ==> r.preset == Preset::Text
            &&& o.print_quality == 4 && o.content_optimize@ != "photo"@ && o.content_optimize@ != "text"@
                ==> r.preset == Preset::Default
            &&& r.tone == Tone::Grayscale <==> r.preset == Preset::Picture && !bi
        }),
{
    reveal_strlit("photo");
    reveal_strlit("text");
    assert("photo"@.len() == 5);
    assert("text"@.len() == 4);
}

/// An image is laid out as tape whatever its media; a raster by its media, as a sheet where that is none of the
/// tape's; and the rest of the settings are the printer's own.
pub proof fn lemma_layout_of_jobs(o: JobOptions, base: RenderOptions)
    ensures
        o.spec_render_options(base, true).layout == Layout::Tape,
        o.media is None ==> o.spec_render_options(base, false).layout == Layout::Auto,
        o.media matches Some(m) && m.spec_is_tape() ==> o.spec_render_options(base, false).layout
            == Layout::Auto,
        o.media matches Some(m) && !m.spec_is_tape() ==> o.spec_render_options(base, false).layout
            == Layout::Sheet,
        ({
            let r = o.spec_render_options(base, false);
            &&& r.dither_override == base.dither_override
            &&& r.trim_override == base.trim_override
            &&& r.intensity_override == base.intensity_override
            &&& r.rotate_180 == base.rotate_180
            &&& r.width_px == base.width_px
            &&& r.max_lines_total == base.max_lines_total
            &&& r.max_lines_per_request == base.max_lines_per_request
            &&& r.page_gap_lines == base.page_gap_lines
        }),
{
}

/// What is ignored is told, each name once and in order: exactly the names among the ignorable ones that the
/// request has.
pub proof fn lemma_ignored(req: Request, names: Seq<&'static str>, w: Seq<char>)
    ensures
        present(req, names).contains(w) <==> exists|k: int|
            0 <= k < names.len() && (#[trigger] names[k])@ == w && req.value(None, w) is Some,
        present(req, names).len() <= names.len(),
    decreases names.len(),
{
    let p = present(req, names);
    if names.len() == 0 {
        assert(!p.contains(w));
    } else {
        let rest = names.drop_last();
        lemma_ignored(req, rest, w);
        let q = present(req, rest);
        if p.contains(w) {
            if q.contains(w) {
                let k = choose|k: int|
                    0 <= k < rest.len() && (#[trigger] rest[k])@ == w && req.value(None, w) is Some;
                assert(names[k]@ == w);
            } else {
                let i = choose|i: int| 0 <= i < p.len() && p[i] == w;
                assert(i == q.len());
                assert(names[names.len() - 1]@ == w);
            }
        }
        if exists|k: int| 0 <= k < names.len() && (#[trigger] names[k])@ == w && req.value(None, w) is Some {
            let k = choose|k: int|
                0 <= k < names.len() && (#[trigger] names[k])@ == w && req.value(None, w) is Some;
            if k < rest.len() {
                assert(rest[k]@ == w);
                let i = choose|i: int| 0 <= i < q.len() && q[i] == w;
                assert(p[i] == w);
            } else {
                assert(p[q.len() as int] == w);
            }
        }
    }
}

/// What sides, scaling and the like a job asks for is understood but ignored.
pub proof fn lemma_ignorable_names(k: int)
    requires
        0 <= k < ignorable().len(),
    ensures
        ignorable().len() == 13,
        ignorable()[k]@ != "copies"@,
        ignorable()[k]@ != "media"@,
        ignorable()[k]@ != "media-col"@,
        ignorable()[k]@ != "print-quality"@,
        ignorable()[k]@ != "print-color-mode"@,
        ignorable()[k]@ != "print-content-optimize"@,
{
    reveal_strlit("copies");
    reveal_strlit("media");
    reveal_strlit("media-col");
    reveal_strlit("print-quality");
    reveal_strlit("print-color-mode");
    reveal_strlit("print-content-optimize");
    reveal_strlit("orientation-requested");
    reveal_strlit("print-scaling");
    reveal_strlit("overrides");
    reveal_strlit("multiple-document-handling");
    reveal_strlit("sides");
    reveal_strlit("finishings");
    reveal_strlit("output-bin");
    reveal_strlit("printer-resolution");
    reveal_strlit("ipp-attribute-fidelity");
    reveal_strlit("job-hold-until");
    reveal_strlit("job-priority");
    reveal_strlit("page-ranges");
    reveal_strlit("number-up");
    let w = ignorable()[k]@;
    assert(w == "orientation-requested"@ || w == "print-scaling"@ || w == "overrides"@ || w
        == "multiple-document-handling"@ || w == "sides"@ || w == "finishings"@ || w == "output-bin"@ || w
        == "printer-resolution"@ || w == "ipp-attribute-fidelity"@ || w == "job-hold-until"@ || w
        == "job-priority"@ || w == "page-ranges"@ || w == "number-up"@);
    assert(w[0] == 'o' || w[0] == 'p' || w[0] == 'm' || w[0] == 's' || w[0] == 'f' || w[0] == 'i' || w[0]
        == 'j' || w[0] == 'n');
    assert("print-scaling"@[6] == 's' && "print-quality"@[6] == 'q');
    assert("printer-resolution"@[5] == 'e' && "print-quality"@[5] == '-' && "print-color-mode"@[5] == '-'
        && "print-content-optimize"@[5] == '-');
    assert("print-color-mode"@.len() == 16 && "print-content-optimize"@.len() == 22 && "print-scaling"@.len()
        == 13);
    assert("multiple-document-handling"@.len() == 26 && "media"@.len() == 5 && "media-col"@.len() == 9);
    assert("page-ranges"@.len() == 11 && "print-quality"@.len() == 13);
}

} // verus!
