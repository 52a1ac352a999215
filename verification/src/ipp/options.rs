//! Standard IPP job attributes: what is rendered, and how many copies.

use vstd::prelude::*;

use crate::ipp::codec::{string_views, text_of_opt, value_to_string, Group, Request};
use crate::ipp::media::{parse_media_name, spec_parse_media_name, MediaHint};
use crate::ipp::value::Value;
use crate::render::{Layout, Preset, RenderOptions, Tone};
use crate::text::{owned, same_str};

verus! {

/// What a job asks for.
#[derive(Debug, Clone, PartialEq, Eq)]
pub struct JobOptions {
    /// 3 draft, 4 normal, 5 high
    pub print_quality: i32,
    pub color_mode: String,
    pub content_optimize: String,
    pub copies: u32,
    pub media: Option<MediaHint>,
    pub job_name: String,
    pub user: String,
    pub host: Option<String>,
    pub document_name: Option<String>,
    pub document_format: Option<String>,
    pub compression: String,
    /// Attributes that are understood but ignored.
    pub ignored: Vec<String>,
}

impl Default for JobOptions {
    fn default() -> (r: Self)
        ensures
            r.print_quality == 4,
            r.color_mode@ == "monochrome"@,
            r.content_optimize@ == "auto"@,
            r.copies == 1,
            r.media is None,
            r.job_name@ == "Untitled"@,
            r.user@ == "anonymous"@,
            r.host is None,
            r.document_name is None,
            r.document_format is None,
            r.compression@ == "none"@,
            r.ignored@.len() == 0,
    {
        JobOptions {
            print_quality: 4,
            color_mode: owned("monochrome"),
            content_optimize: owned("auto"),
            copies: 1,
            media: None,
            job_name: owned("Untitled"),
            user: owned("anonymous"),
            host: None,
            document_name: None,
            document_format: None,
            compression: owned("none"),
            ignored: Vec::new(),
        }
    }
}

/// The names that are understood but ignored, in order.
pub open spec fn ignorable() -> Seq<&'static str> {
    seq![
        "orientation-requested",
        "print-scaling",
        "overrides",
        "multiple-document-handling",
        "sides",
        "finishings",
        "output-bin",
        "printer-resolution",
        "ipp-attribute-fidelity",
        "job-hold-until",
        "job-priority",
        "page-ranges",
        "number-up",
    ]
}

fn ignorable_list() -> (r: Vec<&'static str>)
    ensures
        r@ == ignorable(),
{
    let mut r: Vec<&'static str> = Vec::new();
    r.push("orientation-requested");
    r.push("print-scaling");
    r.push("overrides");
    r.push("multiple-document-handling");
    r.push("sides");
    r.push("finishings");
    r.push("output-bin");
    r.push("printer-resolution");
    r.push("ipp-attribute-fidelity");
    r.push("job-hold-until");
    r.push("job-priority");
    r.push("page-ranges");
    r.push("number-up");
    assert(r@ =~= ignorable());
    r
}

/// Those of the names that the request has, in order.
pub open spec fn present(req: Request, names: Seq<&'static str>) -> Seq<Seq<char>>
    decreases names.len(),
{
    if names.len() == 0 {
        Seq::empty()
    } else if req.value(None, names.last()@) is Some {
        present(req, names.drop_last()).push(names.last()@)
    } else {
        present(req, names.drop_last())
    }
}

fn find_present(req: &Request) -> (r: Vec<String>)
    ensures
        string_views(r@) == present(*req, ignorable()),
{
    let names = ignorable_list();
    let mut out: Vec<String> = Vec::new();
    let mut i: usize = 0;
    assert(names@.take(0) =~= Seq::<&'static str>::empty());
    assert(string_views(out@) =~= present(*req, names@.take(0)));
    while i < names.len()
        invariant
            i <= names.len(),
            names@ == ignorable(),
            string_views(out@) == present(*req, names@.take(i as int)),
        decreases names.len() - i,
    {
        let ghost was = out@;
        assert(names@.take(i as int + 1).drop_last() =~= names@.take(i as int));
        if req.get(None, names[i]).is_some() {
            out.push(owned(names[i]));
            assert(string_views(out@) =~= string_views(was).push(names@[i as int]@));
        }
        i += 1;
    }
    assert(names@.take(names@.len() as int) =~= names@);
    out
}

/// The text, or another where there is none.
pub open spec fn text_or(t: Option<Seq<char>>, other: Seq<char>) -> Seq<char> {
    match t {
        Some(s) => s,
        None => other,
    }
}

/// The text, or another where there is none or it is empty.
pub open spec fn nonempty_or(t: Option<Seq<char>>, other: Seq<char>) -> Seq<char> {
    match t {
        Some(s) => if s.len() > 0 {
            s
        } else {
            other
        },
        None => other,
    }
}

/// The view of an optional string.
pub open spec fn opt_view(s: Option<String>) -> Option<Seq<char>> {
    match s {
        Some(s) => Some(s@),
        None => None,
    }
}

fn or_text(t: Option<String>, other: &str) -> (r: String)
    ensures
        r@ == text_or(opt_view(t), other@),
{
    match t {
        Some(s) => s,
        None => owned(other),
    }
}

fn or_nonempty(t: Option<String>, other: &str) -> (r: String)
    ensures
        r@ == nonempty_or(opt_view(t), other@),
{
    match t {
        Some(s) => if s.as_str().is_empty() {
            owned(other)
        } else {
            s
        },
        None => owned(other),
    }
}

/// The number of copies: that asked for, within 1 and the limit; 1 where none is asked for.
pub open spec fn copies_of(asked: Option<i32>, max_copies: int) -> int {
    match asked {
        Some(c) => if c < 1 {
            1
        } else if c > max_copies {
            max_copies
        } else {
            c as int
        },
        None => 1,
    }
}

/// `o` is what the request asks for.
pub open spec fn is_options_of(o: JobOptions, req: Request, max_copies: int) -> bool {
    let op = Some(Group::OperationAttributes);
    &&& o.print_quality == match req.number(None, "print-quality"@) {
        Some(q) => if 3 <= q <= 5 {
            q
        } else {
            4
        },
        None => 4,
    }
    &&& o.color_mode@ == text_or(req.text(None, "print-color-mode"@), "monochrome"@)
    &&& o.content_optimize@ == text_or(req.text(None, "print-content-optimize"@), "auto"@)
    &&& o.copies == copies_of(req.number(None, "copies"@), max_copies)
    &&& is_media_of(o.media, req)
    &&& o.job_name@ == nonempty_or(req.text(op, "job-name"@), "untitled"@)
    &&& o.user@ == nonempty_or(req.text(op, "requesting-user-name"@), "anonymous"@)
    &&& opt_view(o.host) == req.text(op, "job-originating-host-name"@)
    &&& opt_view(o.document_name) == req.text(op, "document-name"@)
    &&& opt_view(o.document_format) == req.text(op, "document-format"@)
    &&& o.compression@ == text_or(req.text(op, "compression"@), "none"@)
    &&& string_views(o.ignored@) == present(req, ignorable())
}

/// The preset and tone of a quality and content, before the color mode is looked at.
pub open spec fn style_of(quality: i32, content: Seq<char>) -> (Preset, Tone) {
    if quality == 3 {
        (Preset::Text, Tone::BlackWhite)
    } else if quality == 5 {
        (Preset::Picture, Tone::Grayscale)
    } else if quality == 4 && content == "photo"@ {
        (Preset::Picture, Tone::Grayscale)
    } else if quality == 4 && content == "text"@ {
        (Preset::Text, Tone::BlackWhite)
    } else {
        (Preset::Default, Tone::BlackWhite)
    }
}

impl JobOptions {
    /// What a Print-Job, Create-Job, Send-Document or Validate-Job request asks for. Job template
    /// attributes are looked for in all groups.
    pub fn from_request(req: &Request, max_copies: u32) -> (r: JobOptions)
        requires
            1 <= max_copies <= i32::MAX,
        ensures
            is_options_of(r, *req, max_copies as int),
    {
        let op = Some(Group::OperationAttributes);
        let print_quality: i32 = match req.get_int(None, "print-quality") {
            Some(q) => if 3 <= q && q <= 5 {
                q
            } else {
                4
            },
            None => 4,
        };
        let copies: u32 = match req.get_int(None, "copies") {
            Some(c) => if c < 1 {
                1
            } else if c as u32 > max_copies {
                max_copies
            } else {
                c as u32
            },
            None => 1,
        };
        JobOptions {
            print_quality,
            color_mode: or_text(req.get_str(None, "print-color-mode"), "monochrome"),
            content_optimize: or_text(req.get_str(None, "print-content-optimize"), "auto"),
            copies,
            media: media_from_request(req),
            job_name: or_nonempty(req.get_str(op, "job-name"), "untitled"),
            user: or_nonempty(req.get_str(op, "requesting-user-name"), "anonymous"),
            host: req.get_str(op, "job-originating-host-name"),
            document_name: req.get_str(op, "document-name"),
            document_format: req.get_str(op, "document-format"),
            compression: or_text(req.get_str(op, "compression"), "none"),
            ignored: find_present(req),
        }
    }

    /// The render options of this job over `base`.
    pub open spec fn spec_render_options(self, base: RenderOptions, is_image: bool) -> RenderOptions {
        let (preset, tone) = style_of(self.print_quality, self.content_optimize@);
        RenderOptions {
            preset,
            tone: if self.color_mode@ == "bi-level"@ || self.color_mode@ == "process-bi-level"@ {
                Tone::BlackWhite
            } else {
                tone
            },
            layout: if is_image {
                Layout::Tape
            } else if self.spec_is_sheet() {
                Layout::Sheet
            } else {
                Layout::Auto
            },
            ..base
        }
    }

    /// Render options for this job: print-quality gives preset and tone, print-content-optimize only
    /// nudges the normal quality, a bi-level color mode forces black and white. `is_image`: a JPEG or
    /// PNG document, which is always laid out as tape. Sheet media are never trimmed, though they are as
    /// wide as the tape; else the raster's geometry decides.
    pub fn render_options(&self, base: &RenderOptions, is_image: bool) -> (r: RenderOptions)
        ensures
            r == self.spec_render_options(*base, is_image),
    {
        let mut o = *base;
        let mut preset = Preset::Default;
        let mut tone = Tone::BlackWhite;
        if self.print_quality == 3 {
            preset = Preset::Text;
        } else if self.print_quality == 5 {
            preset = Preset::Picture;
            tone = Tone::Grayscale;
        } else if self.print_quality == 4 {
            if same_str(self.content_optimize.as_str(), "photo") {
                preset = Preset::Picture;
                tone = Tone::Grayscale;
            } else if same_str(self.content_optimize.as_str(), "text") {
                preset = Preset::Text;
            }
        }
        if same_str(self.color_mode.as_str(), "bi-level") || same_str(
            self.color_mode.as_str(),
            "process-bi-level",
        ) {
            tone = Tone::BlackWhite;
        }
        o.preset = preset;
        o.tone = tone;
        o.layout = if is_image {
            Layout::Tape
        } else if self.is_sheet_media() {
            Layout::Sheet
        } else {
            Layout::Auto
        };
        o
    }

    /// The job asks for sheet media.
    pub open spec fn spec_is_sheet(self) -> bool {
        self.media matches Some(m) && !m.spec_is_tape()
    }

    /// Whether the job asks for sheet media.
    pub fn is_sheet_media(&self) -> (r: bool)
        ensures
            r == self.spec_is_sheet(),
    {
        match &self.media {
            Some(m) => !m.is_tape(),
            None => false,
        }
    }
}

/// The integer member of a collection with exactly this name: that of the first such member.
pub open spec fn exact_int(members: Seq<(String, Value)>, name: Seq<char>) -> Option<i32>
    decreases members.len(),
{
    if members.len() == 0 {
        None
    } else if members[0].0@ == name {
        match members[0].1 {
            Value::Integer(i) => Some(i),
            _ => None,
        }
    } else {
        exact_int(members.skip(1), name)
    }
}

fn int_member(members: &Vec<(String, Value)>, name: &str) -> (r: Option<i32>)
    ensures
        r == exact_int(members@, name@),
{
    let mut i: usize = 0;
    assert(members@.skip(0) =~= members@);
    while i < members.len()
        invariant
            i <= members.len(),
            exact_int(members@, name@) == exact_int(members@.skip(i as int), name@),
        decreases members.len() - i,
    {
        if same_str(members[i].0.as_str(), name) {
            return match &members[i].1 {
                Value::Integer(n) => Some(*n),
                _ => None,
            };
        }
        assert(members@.skip(i as int).skip(1) =~= members@.skip(i as int + 1));
        i += 1;
    }
    None
}

/// The size in `media-col`.
pub open spec fn col_size(req: Request) -> Option<(i32, i32)> {
    match req.member(None, "media-col"@, "media-size"@) {
        Some(Value::Collection(c)) => match (
            exact_int(c@, "x-dimension"@),
            exact_int(c@, "y-dimension"@),
        ) {
            (Some(x), Some(y)) => Some((x, y)),
            _ => None,
        },
        _ => None,
    }
}

/// `m` is the media that the request asks for: the size in `media-col` wins, then the `media`
/// keyword.
pub open spec fn is_media_of(m: Option<MediaHint>, req: Request) -> bool {
    match col_size(req) {
        Some((x, y)) => m matches Some(h) && h.x_hmm == x && h.y_hmm == y && opt_view(h.name)
            == text_of_opt(req.member(None, "media-col"@, "media-size-name"@)),
        None => match req.text(None, "media"@) {
            Some(name) => match spec_parse_media_name(name) {
                Some((x, y)) => m matches Some(h) && h.x_hmm == x && h.y_hmm == y && opt_view(h.name)
                    == Some(name),
                None => m is None,
            },
            None => m is None,
        },
    }
}

/// The media that a request asks for: the size in `media-col` wins, then the `media` keyword.
pub fn media_from_request(req: &Request) -> (r: Option<MediaHint>)
    ensures
        is_media_of(r, *req),
{
    if let Some(v) = req.get_member(None, "media-col", "media-size") {
        if let Value::Collection(c) = v {
            if let Some(x_hmm) = int_member(c, "x-dimension") {
                if let Some(y_hmm) = int_member(c, "y-dimension") {
                    let name = match req.get_member(None, "media-col", "media-size-name") {
                        Some(n) => value_to_string(n),
                        None => None,
                    };
                    return Some(MediaHint { x_hmm, y_hmm, name });
                }
            }
        }
    }
    match req.get_str(None, "media") {
        Some(name) => match parse_media_name(name.as_str()) {
            Some((x_hmm, y_hmm)) => Some(MediaHint { x_hmm, y_hmm, name: Some(name) }),
            None => None,
        },
        None => None,
    }
}

// ------------------------------------------------------------------ laws

/// A page of document media is never trimmed as tape, though it is as wide as the tape.
pub proof fn lemma_documents_are_sheets(o: JobOptions, base: RenderOptions)
    requires
        o.media matches Some(m) && m.spec_is_document(),
    ensures
        o.spec_render_options(base, false).layout == Layout::Sheet,
{
}

/// Sixteen levels are for pictures only: whatever a job asks for, gray comes with the picture preset
/// alone, and never with a bi-level color mode.
pub proof fn lemma_gray_is_for_pictures(o: JobOptions, base: RenderOptions, is_image: bool)
    requires
        o.spec_render_options(base, is_image).tone == Tone::Grayscale,
    ensures
        o.spec_render_options(base, is_image).preset == Preset::Picture,
        o.color_mode@ != "bi-level"@,
{
}

} // verus!
