//! Media (paper size) tables and self-describing media names.
//!
//! Sizes are in hundredths of a millimetre, as IPP `media-size` wants them. Margins: left and right 0
//! (the full 384-dot head), top and bottom 1 mm.

use vstd::prelude::*;
use vstd::slice::slice_subrange;

use crate::ipp::codec::{
    v_array, v_int, v_kw, v_range, with_member, Coll,
};
use crate::ipp::length::{length, read_length, ten, to_hmm};
use crate::ipp::value::{value_models, writable, StrKind, Value, ValueView};
use crate::text::{
    chars_of, cut, dec, eq_fold, find_char, has_prefix, is_digit, is_space, is_text,
    lemma_dec_reads_back, lemma_find_char, lemma_find_char_is, lower, lower_char, lower_chars,
    owned, same_fold, split_once, starts_with, trim, trim_chars, trim_left, trim_right, upper,
    upper_char, within_bytes,
};

verus! {

/// A paper size.
#[derive(Debug, Clone, Copy, PartialEq, Eq)]
pub struct MediaSize {
    /// Self-describing name (`class_name_WxHunits`).
    pub name: &'static str,
    pub x_hmm: i32,
    pub y_hmm: i32,
    /// Human label.
    pub label: &'static str,
}

/// Width of the tape.
pub const TAPE_X_HMM: i32 = 4800;

/// Physical width of ISO A4. Document media is advertised at tape width with this aspect, so that a
/// whole page is rasterised to 384 dots.
pub const A4_PHYS_X_HMM: i32 = 21000;

/// Physical height of ISO A4.
pub const A4_PHYS_Y_HMM: i32 = 29700;

/// Physical width of NA Letter.
pub const LETTER_PHYS_X_HMM: i32 = 21590;

/// Physical height of NA Letter.
pub const LETTER_PHYS_Y_HMM: i32 = 27940;

/// Shortest custom length.
pub const CUSTOM_MIN_Y_HMM: i32 = 2540;

/// Longest custom length.
pub const CUSTOM_MAX_Y_HMM: i32 = 508_000;

pub const MARGIN_LEFT_RIGHT_HMM: i32 = 0;

pub const MARGIN_TOP_BOTTOM_HMM: i32 = 100;

pub const MEDIA_SOURCE: &'static str = "main";

pub const MEDIA_TYPE: &'static str = "stationery";

/// Anything at most this wide is tape (roll) layout; wider pages are sheets.
pub const TAPE_MAX_WIDTH_HMM: i32 = 6000;

/// The height of a page shrunk to the tape's width, to the nearest hundredth of a millimetre.
pub open spec fn spec_tape_miniature_y_hmm(phys_x_hmm: int, phys_y_hmm: int) -> int {
    (TAPE_X_HMM * phys_y_hmm + phys_x_hmm / 2) / phys_x_hmm
}

/// The height of a page shrunk to the tape's width, to the nearest hundredth of a millimetre.
pub fn tape_miniature_y_hmm(phys_x_hmm: i32, phys_y_hmm: i32) -> (r: i32)
    requires
        phys_x_hmm > 0,
        phys_y_hmm >= 0,
        spec_tape_miniature_y_hmm(phys_x_hmm as int, phys_y_hmm as int) <= i32::MAX,
    ensures
        r == spec_tape_miniature_y_hmm(phys_x_hmm as int, phys_y_hmm as int),
{
    let n: i64 = TAPE_X_HMM as i64 * phys_y_hmm as i64;
    let d: i64 = phys_x_hmm as i64;
    let q: i64 = (n + d / 2) / d;
    assert(q >= 0) by (nonlinear_arith)
        requires
            q == (n + d as int / 2) / d as int,
            n >= 0,
            d > 0,
    ;
    q as i32
}

/// The sizes on offer: tape, long tape, and the A4 and Letter miniatures.
pub open spec fn spec_all() -> Seq<MediaSize> {
    seq![
        MediaSize {
            name: "custom_cat-tape_48x297mm",
            x_hmm: TAPE_X_HMM,
            y_hmm: 29700,
            label: "Cat tape 48 mm",
        },
        MediaSize {
            name: "custom_cat-tape-long_48x500mm",
            x_hmm: TAPE_X_HMM,
            y_hmm: 50000,
            label: "Cat tape long",
        },
        MediaSize {
            name: "iso_a4_210x297mm",
            x_hmm: TAPE_X_HMM,
            y_hmm: 6789,
            label: "Document A4",
        },
        MediaSize {
            name: "na_letter_8.5x11in",
            x_hmm: TAPE_X_HMM,
            y_hmm: 6212,
            label: "Document Letter",
        },
    ]
}

/// The advertised document heights are those of the miniatures.
pub proof fn lemma_document_heights()
    ensures
        spec_all()[2].y_hmm == spec_tape_miniature_y_hmm(
            A4_PHYS_X_HMM as int,
            A4_PHYS_Y_HMM as int,
        ),
        spec_all()[3].y_hmm == spec_tape_miniature_y_hmm(
            LETTER_PHYS_X_HMM as int,
            LETTER_PHYS_Y_HMM as int,
        ),
{
}

/// The tape.
pub fn tape() -> (r: MediaSize)
    ensures
        r == spec_all()[0],
{
    MediaSize {
        name: "custom_cat-tape_48x297mm",
        x_hmm: TAPE_X_HMM,
        y_hmm: 29700,
        label: "Cat tape 48 mm",
    }
}

/// The long tape.
pub fn tape_long() -> (r: MediaSize)
    ensures
        r == spec_all()[1],
{
    MediaSize {
        name: "custom_cat-tape-long_48x500mm",
        x_hmm: TAPE_X_HMM,
        y_hmm: 50000,
        label: "Cat tape long",
    }
}

/// The A4 miniature.
pub fn a4() -> (r: MediaSize)
    ensures
        r == spec_all()[2],
{
    MediaSize { name: "iso_a4_210x297mm", x_hmm: TAPE_X_HMM, y_hmm: 6789, label: "Document A4" }
}

/// The Letter miniature.
pub fn letter() -> (r: MediaSize)
    ensures
        r == spec_all()[3],
{
    MediaSize {
        name: "na_letter_8.5x11in",
        x_hmm: TAPE_X_HMM,
        y_hmm: 6212,
        label: "Document Letter",
    }
}

/// All sizes on offer.
pub fn all() -> (r: Vec<MediaSize>)
    ensures
        r@ == spec_all(),
{
    let mut r: Vec<MediaSize> = Vec::new();
    r.push(tape());
    r.push(tape_long());
    r.push(a4());
    r.push(letter());
    assert(r@ =~= spec_all());
    r
}

/// The names of all sizes.
pub fn media_names() -> (r: Vec<&'static str>)
    ensures
        r@ == Seq::new(4, |i: int| spec_all()[i].name),
{
    let sizes = all();
    let mut r: Vec<&'static str> = Vec::new();
    let mut i: usize = 0;
    while i < sizes.len()
        invariant
            i <= sizes.len(),
            sizes@ == spec_all(),
            r@.len() == i,
            forall|k: int| 0 <= k < i ==> #[trigger] r@[k] == spec_all()[k].name,
        decreases sizes.len() - i,
    {
        r.push(sizes[i].name);
        i += 1;
    }
    assert(r@ =~= Seq::new(4, |i: int| spec_all()[i].name));
    r
}

// ------------------------------------------------------------------ collections

/// The members with one set under a literal name.
pub open spec fn put(
    m: Seq<(Seq<char>, ValueView)>,
    name: &str,
    v: ValueView,
) -> Seq<(Seq<char>, ValueView)> {
    with_member(m, within_bytes(name@, 255), v)
}

/// No members.
pub open spec fn none() -> Seq<(Seq<char>, ValueView)> {
    Seq::empty()
}

/// A keyword.
pub open spec fn kw(s: &str) -> ValueView {
    ValueView::Str(StrKind::Keyword, within_bytes(s@, 255))
}

/// `media-size` of a size, or of the custom-length tape.
pub open spec fn size_view(size: Option<MediaSize>) -> ValueView {
    match size {
        Some(s) => ValueView::Collection(
            put(
                put(none(), "x-dimension", ValueView::Integer(s.x_hmm)),
                "y-dimension",
                ValueView::Integer(s.y_hmm),
            ),
        ),
        None => ValueView::Collection(
            put(
                put(none(), "x-dimension", ValueView::Integer(TAPE_X_HMM)),
                "y-dimension",
                ValueView::Range(CUSTOM_MIN_Y_HMM, CUSTOM_MAX_Y_HMM),
            ),
        ),
    }
}

/// `media-col` without its size name.
pub open spec fn col_members(size: Option<MediaSize>) -> Seq<(Seq<char>, ValueView)> {
    let m = put(none(), "media-size", size_view(size));
    let m = put(m, "media-source", kw(MEDIA_SOURCE));
    let m = put(m, "media-type", kw(MEDIA_TYPE));
    let m = put(m, "media-left-margin", ValueView::Integer(MARGIN_LEFT_RIGHT_HMM));
    let m = put(m, "media-right-margin", ValueView::Integer(MARGIN_LEFT_RIGHT_HMM));
    let m = put(m, "media-top-margin", ValueView::Integer(MARGIN_TOP_BOTTOM_HMM));
    put(m, "media-bottom-margin", ValueView::Integer(MARGIN_TOP_BOTTOM_HMM))
}

/// `media-col` of a size, or of the custom-length tape.
pub open spec fn col_view(size: Option<MediaSize>) -> ValueView {
    match size {
        Some(s) => ValueView::Collection(put(col_members(size), "media-size-name", kw(s.name))),
        None => ValueView::Collection(col_members(size)),
    }
}

fn media_size_value(size: Option<MediaSize>) -> (r: Value)
    ensures
        r.model() == size_view(size),
        writable(r.model()),
{
    match size {
        Some(s) => Coll::new().add("x-dimension", v_int(s.x_hmm)).add(
            "y-dimension",
            v_int(s.y_hmm),
        ).build(),
        None => Coll::new().add("x-dimension", v_int(TAPE_X_HMM)).add(
            "y-dimension",
            v_range(CUSTOM_MIN_Y_HMM, CUSTOM_MAX_Y_HMM),
        ).build(),
    }
}

/// `media-col` for a concrete size (or the range entry when `size` is `None`).
pub fn media_col(size: Option<MediaSize>) -> (r: Value)
    ensures
        r.model() == col_view(size),
        writable(r.model()),
{
    let c = Coll::new().add("media-size", media_size_value(size)).add(
        "media-source",
        v_kw(MEDIA_SOURCE),
    ).add("media-type", v_kw(MEDIA_TYPE)).add("media-left-margin", v_int(MARGIN_LEFT_RIGHT_HMM)).add(
        "media-right-margin",
        v_int(MARGIN_LEFT_RIGHT_HMM),
    ).add("media-top-margin", v_int(MARGIN_TOP_BOTTOM_HMM)).add(
        "media-bottom-margin",
        v_int(MARGIN_TOP_BOTTOM_HMM),
    );
    match size {
        Some(s) => c.add("media-size-name", v_kw(s.name)).build(),
        None => c.build(),
    }
}

/// The sizes on offer, and then the custom-length tape.
pub open spec fn entries() -> Seq<Option<MediaSize>> {
    seq![
        Some(spec_all()[0]),
        Some(spec_all()[1]),
        Some(spec_all()[2]),
        Some(spec_all()[3]),
        None,
    ]
}

fn entry_list() -> (r: Vec<Option<MediaSize>>)
    ensures
        r@ == entries(),
{
    let mut r: Vec<Option<MediaSize>> = Vec::new();
    r.push(Some(tape()));
    r.push(Some(tape_long()));
    r.push(Some(a4()));
    r.push(Some(letter()));
    r.push(None);
    assert(r@ =~= entries());
    r
}

/// `media-col-database`: every fixed size and the custom-length tape.
pub open spec fn database_view() -> ValueView {
    ValueView::Array(Seq::new(5, |i: int| col_view(entries()[i])))
}

/// `media-size-supported`: the sizes of the database.
pub open spec fn sizes_view() -> ValueView {
    ValueView::Array(Seq::new(5, |i: int| size_view(entries()[i])))
}

/// `media-col-database`: every fixed size and the custom-length tape.
pub fn media_col_database() -> (r: Value)
    ensures
        r.model() == database_view(),
        writable(r.model()),
{
    let list = entry_list();
    let mut v: Vec<Value> = Vec::new();
    let mut i: usize = 0;
    while i < list.len()
        invariant
            i <= list.len(),
            list@ == entries(),
            v@.len() == i,
            forall|k: int|
                0 <= k < i ==> (#[trigger] v@[k]).model() == col_view(entries()[k]) && writable(
                    v@[k].model(),
                ),
        decreases list.len() - i,
    {
        v.push(media_col(list[i]));
        i += 1;
    }
    assert(value_models(v@) =~= Seq::new(5, |i: int| col_view(entries()[i])));
    v_array(v)
}

/// `media-size-supported`: the sizes of the database.
pub fn media_size_supported() -> (r: Value)
    ensures
        r.model() == sizes_view(),
        writable(r.model()),
{
    let list = entry_list();
    let mut v: Vec<Value> = Vec::new();
    let mut i: usize = 0;
    while i < list.len()
        invariant
            i <= list.len(),
            list@ == entries(),
            v@.len() == i,
            forall|k: int|
                0 <= k < i ==> (#[trigger] v@[k]).model() == size_view(entries()[k]) && writable(
                    v@[k].model(),
                ),
        decreases list.len() - i,
    {
        v.push(media_size_value(list[i]));
        i += 1;
    }
    assert(value_models(v@) =~= Seq::new(5, |i: int| size_view(entries()[i])));
    v_array(v)
}

// ------------------------------------------------------------------ names

/// The name of document media: one that is on offer, or a keyword that CUPS may send.
pub open spec fn spec_is_document_name(name: Seq<char>) -> bool {
    let n = trim(name);
    let l = lower(n);
    ||| same_fold(n, "iso_a4_210x297mm"@)
    ||| same_fold(n, "na_letter_8.5x11in"@)
    ||| l == "a4"@
    ||| l == "letter"@
    ||| l == "iso-a4"@
    ||| l == "na-letter"@
    ||| l == "iso_a4"@
    ||| l == "na_letter"@
    ||| starts_with(l, "iso_a4_"@)
    ||| starts_with(l, "na_letter_"@)
}

/// Whether this is the name of document media.
pub fn is_document_media_name(name: &str) -> (r: bool)
    ensures
        r == spec_is_document_name(name@),
{
    let cs = chars_of(name);
    let n = trim_chars(cs.as_slice());
    let a = chars_of("iso_a4_210x297mm");
    let b = chars_of("na_letter_8.5x11in");
    if eq_fold(n, a.as_slice()) || eq_fold(n, b.as_slice()) {
        return true;
    }
    let low = lower_chars(n);
    let l = low.as_slice();
    is_text(l, "a4") || is_text(l, "letter") || is_text(l, "iso-a4") || is_text(l, "na-letter")
        || is_text(l, "iso_a4") || is_text(l, "na_letter") || has_prefix(l, "iso_a4_") || has_prefix(
        l,
        "na_letter_",
    )
}

/// The distance of two numbers.
pub open spec fn distance(a: int, b: int) -> int {
    if a < b {
        b - a
    } else {
        a - b
    }
}

/// The first of the sizes within 1 mm in both directions.
pub open spec fn find_in(sizes: Seq<MediaSize>, x: int, y: int) -> Option<MediaSize>
    decreases sizes.len(),
{
    if sizes.len() == 0 {
        None
    } else if distance(sizes[0].x_hmm as int, x) <= 100 && distance(sizes[0].y_hmm as int, y) <= 100 {
        Some(sizes[0])
    } else {
        find_in(sizes.skip(1), x, y)
    }
}

/// The size on offer that a requested size is, within 1 mm.
pub fn find_size(x_hmm: i32, y_hmm: i32) -> (r: Option<MediaSize>)
    ensures
        r == find_in(spec_all(), x_hmm as int, y_hmm as int),
{
    let sizes = all();
    let x: i64 = x_hmm as i64;
    let y: i64 = y_hmm as i64;
    let mut i: usize = 0;
    assert(sizes@.skip(0) =~= sizes@);
    while i < sizes.len()
        invariant
            i <= sizes.len(),
            sizes@ == spec_all(),
            x == x_hmm,
            y == y_hmm,
            find_in(spec_all(), x_hmm as int, y_hmm as int) == find_in(
                sizes@.skip(i as int),
                x_hmm as int,
                y_hmm as int,
            ),
        decreases sizes.len() - i,
    {
        let m = sizes[i];
        let dx: i64 = m.x_hmm as i64 - x;
        let dy: i64 = m.y_hmm as i64 - y;
        if -100 <= dx && dx <= 100 && -100 <= dy && dy <= 100 {
            return Some(m);
        }
        assert(sizes@.skip(i as int).skip(1) =~= sizes@.skip(i as int + 1));
        i += 1;
    }
    None
}

/// A media request as it was understood.
#[derive(Debug, Clone, PartialEq, Eq)]
pub struct MediaHint {
    pub x_hmm: i32,
    pub y_hmm: i32,
    pub name: Option<String>,
}

impl MediaHint {
    /// A homework miniature: by its name, or by its size.
    pub open spec fn spec_is_document(self) -> bool {
        ||| self.name is Some && spec_is_document_name((self.name->0)@)
        ||| find_in(spec_all(), self.x_hmm as int, self.y_hmm as int) matches Some(m)
            && spec_is_document_name(m.name@)
    }

    /// Roll media.
    pub open spec fn spec_is_tape(self) -> bool {
        !self.spec_is_document() && self.x_hmm <= TAPE_MAX_WIDTH_HMM
    }

    /// Whether this is a homework miniature: selected by name or size, not by width.
    pub fn is_document(&self) -> (r: bool)
        ensures
            r == self.spec_is_document(),
    {
        if let Some(n) = &self.name {
            if is_document_media_name(n.as_str()) {
                return true;
            }
        }
        match find_size(self.x_hmm, self.y_hmm) {
            Some(m) => is_document_media_name(m.name),
            None => false,
        }
    }

    /// Whether this is roll media.
    pub fn is_tape(&self) -> (r: bool)
        ensures
            r == self.spec_is_tape(),
    {
        !self.is_document() && self.x_hmm <= TAPE_MAX_WIDTH_HMM
    }
}

/// The first size on offer with a name, up to case.
pub open spec fn named_in(sizes: Seq<MediaSize>, name: Seq<char>) -> Option<MediaSize>
    decreases sizes.len(),
{
    if sizes.len() == 0 {
        None
    } else if same_fold(sizes[0].name@, name) {
        Some(sizes[0])
    } else {
        named_in(sizes.skip(1), name)
    }
}

fn find_name(name: &[char]) -> (r: Option<MediaSize>)
    ensures
        r == named_in(spec_all(), name@),
{
    let sizes = all();
    let mut i: usize = 0;
    assert(sizes@.skip(0) =~= sizes@);
    while i < sizes.len()
        invariant
            i <= sizes.len(),
            sizes@ == spec_all(),
            named_in(spec_all(), name@) == named_in(sizes@.skip(i as int), name@),
        decreases sizes.len() - i,
    {
        let m = chars_of(sizes[i].name);
        if eq_fold(m.as_slice(), name) {
            return Some(sizes[i]);
        }
        assert(sizes@.skip(i as int).skip(1) =~= sizes@.skip(i as int + 1));
        i += 1;
    }
    None
}

/// What follows the last `_` of a name; all of it where there is none.
pub open spec fn last_part(s: Seq<char>) -> Seq<char>
    decreases s.len(),
{
    if s.len() == 0 {
        s
    } else if s.last() == '_' {
        Seq::empty()
    } else {
        last_part(s.drop_last()).push(s.last())
    }
}

fn last_part_of<'a>(s: &'a [char]) -> (r: &'a [char])
    ensures
        r@ == last_part(s@),
{
    let mut i: usize = s.len();
    assert(s@.take(s@.len() as int) =~= s@);
    assert(last_part(s@) =~= last_part(s@.take(i as int)) + s@.skip(i as int));
    while i > 0
        invariant
            i <= s.len(),
            last_part(s@) == last_part(s@.take(i as int)) + s@.skip(i as int),
        decreases i,
    {
        let ghost t = s@.take(i as int);
        assert(t.drop_last() =~= s@.take(i as int - 1));
        assert(t.last() == s@[i as int - 1]);
        if s[i - 1] == '_' {
            let r = slice_subrange(s, i, s.len());
            assert(r@ =~= s@.skip(i as int));
            assert(Seq::<char>::empty() + s@.skip(i as int) =~= s@.skip(i as int));
            return r;
        }
        assert(last_part(t.drop_last()).push(t.last()) + s@.skip(i as int) =~= last_part(
            t.drop_last(),
        ) + s@.skip(i as int - 1));
        i -= 1;
    }
    assert(s@.take(0) =~= Seq::<char>::empty());
    assert(Seq::<char>::empty() + s@.skip(0) =~= s@);
    s
}

/// `s` without the suffix `u`, where it has it.
pub open spec fn before_suffix(s: Seq<char>, u: Seq<char>) -> Option<Seq<char>> {
    if s.len() >= u.len() && s.skip(s.len() - u.len()) == u {
        Some(s.take(s.len() - u.len()))
    } else {
        None
    }
}

fn strip_suffix<'a>(s: &'a [char], u: &str) -> (r: Option<&'a [char]>)
    ensures
        match r {
            Some(t) => before_suffix(s@, u@) == Some(t@),
            None => before_suffix(s@, u@) is None,
        },
{
    let cs = chars_of(u);
    if s.len() < cs.len() {
        return None;
    }
    let at: usize = s.len() - cs.len();
    let tail = slice_subrange(s, at, s.len());
    assert(tail@ =~= s@.skip(at as int));
    if crate::text::same(tail, cs.as_slice()) {
        let head = slice_subrange(s, 0, at);
        assert(head@ =~= s@.take(at as int));
        Some(head)
    } else {
        None
    }
}

/// The dimensions `WxH` in a unit of `num / den` hundredths of a millimetre; both more than nothing.
pub open spec fn parse_dims(body: Seq<char>, num: int, den: int) -> Option<(i32, i32)> {
    match split_once(body, 'x') {
        Some((w, h)) => match (length(w, num, den), length(h, num, den)) {
            (Some(w), Some(h)) => Some((w as i32, h as i32)),
            _ => None,
        },
        None => None,
    }
}

/// The dimensions in a name, in small letters: its last part, without a leading `custom.`.
pub open spec fn dimensions(n: Seq<char>) -> Seq<char> {
    let d = lower(last_part(n));
    if starts_with(d, "custom."@) {
        d.skip(7)
    } else {
        d
    }
}

/// The size of a media name: that of a size on offer; else the dimensions in it, in millimetres,
/// inches or (without a unit) points.
pub open spec fn spec_parse_media_name(name: Seq<char>) -> Option<(i32, i32)> {
    let n = trim(name);
    match named_in(spec_all(), n) {
        Some(m) => Some((m.x_hmm, m.y_hmm)),
        None => {
            let d = dimensions(n);
            match before_suffix(d, "mm"@) {
                Some(b) => parse_dims(b, 100, 1),
                None => match before_suffix(d, "in"@) {
                    Some(b) => parse_dims(b, 2540, 1),
                    None => parse_dims(d, 2540, 72),
                },
            }
        },
    }
}

fn read_dims(body: &[char], num: u128, den: u128) -> (r: Option<(i32, i32)>)
    requires
        0 < num <= 2540,
        0 < den <= 72,
    ensures
        r == parse_dims(body@, num as int, den as int),
{
    match cut(body, 'x') {
        Some((w, h)) => match (read_length(w, num, den), read_length(h, num, den)) {
            (Some(w), Some(h)) => Some((w, h)),
            _ => None,
        },
        None => None,
    }
}

/// Reads a self-describing media name (`custom_cat-tape_48x297mm`, `na_letter_8.5x11in`,
/// `iso_a4_210x297mm`, also `Custom.48x1000mm` and `custom_48x1000mm`): width and height in
/// hundredths of a millimetre.
pub fn parse_media_name(name: &str) -> (r: Option<(i32, i32)>)
    ensures
        r == spec_parse_media_name(name@),
{
    let cs = chars_of(name);
    let n = trim_chars(cs.as_slice());
    if let Some(m) = find_name(n) {
        return Some((m.x_hmm, m.y_hmm));
    }
    let low = lower_chars(last_part_of(n));
    let d = if has_prefix(low.as_slice(), "custom.") {
        proof {
            reveal_strlit("custom.");
        }
        slice_subrange(low.as_slice(), 7, low.len())
    } else {
        low.as_slice()
    };
    assert(d@ =~= dimensions(n@));
    if let Some(b) = strip_suffix(d, "mm") {
        return read_dims(b, 100, 1);
    }
    if let Some(b) = strip_suffix(d, "in") {
        return read_dims(b, 2540, 1);
    }
    read_dims(d, 2540, 72)
}

proof fn lemma_last_part(a: Seq<char>, b: Seq<char>)
    requires
        forall|i: int| 0 <= i < b.len() ==> #[trigger] b[i] != '_',
    ensures
        last_part(a.push('_') + b) == b,
    decreases b.len(),
{
    let s = a.push('_') + b;
    if b.len() == 0 {
        assert(s.last() == '_');
        assert(last_part(s) =~= b);
    } else {
        assert(b[b.len() - 1] != '_');
        assert(s.last() == b.last());
        assert(s.drop_last() =~= a.push('_') + b.drop_last());
        assert forall|i: int| 0 <= i < b.len() - 1 implies #[trigger] b.drop_last()[i] != '_' by {
            assert(b[i] != '_');
        }
        lemma_last_part(a, b.drop_last());
        assert(last_part(s) =~= b);
    }
}

/// A whole number of units.
pub proof fn lemma_whole_length(n: nat, num: int, den: int)
    requires
        n > 0,
    ensures
        length(dec(n), num, den) == Some(to_hmm(n, 0, num, den)),
{
    let s = dec(n);
    lemma_dec_reads_back(n);
    reveal_strlit("inf");
    reveal_strlit("infinity");
    assert(is_digit(s[0]));
    assert("inf"@[0] == 'i' && "infinity"@[0] == 'i');
    lemma_find_char(s, 'e');
    lemma_find_char(s, '.');
    assert(find_char(s, 'e') is None) by {
        if let Some(k) = find_char(s, 'e') {
            assert(is_digit(s[k]));
        }
    }
    assert(find_char(s, '.') is None) by {
        if let Some(k) = find_char(s, '.') {
            assert(is_digit(s[k]));
        }
    }
    assert(s + Seq::<char>::empty() =~= s);
}

/// A name made of a size in whole millimetres is read back as that size.
pub proof fn lemma_custom_name_reads_back(w: nat, h: nat)
    requires
        0 < w <= 21_474_836,
        0 < h <= 21_474_836,
    ensures
        spec_parse_media_name("custom_"@ + dec(w) + "x"@ + dec(h) + "mm"@) == Some(
            ((100 * w) as i32, (100 * h) as i32),
        ),
{
    let name = "custom_"@ + dec(w) + "x"@ + dec(h) + "mm"@;
    let (dw, dh) = (dec(w), dec(h));
    reveal_strlit("custom_");
    reveal_strlit("custom");
    reveal_strlit("custom.");
    reveal_strlit("x");
    reveal_strlit("mm");
    reveal_strlit("custom_cat-tape_48x297mm");
    reveal_strlit("custom_cat-tape-long_48x500mm");
    reveal_strlit("iso_a4_210x297mm");
    reveal_strlit("na_letter_8.5x11in");
    lemma_dec_reads_back(w);
    lemma_dec_reads_back(h);
    assert(is_digit(dw[0]));
    assert(name[0] == 'c' && name.last() == 'm' && name[7] == dw[0]);
    assert(trim_left(name, |c: char| is_space(c)) == name);
    assert(trim_right(name, |c: char| is_space(c)) == name);
    let all = spec_all();
    assert(named_in(all, name) is None) by {
        reveal_with_fuel(named_in, 5);
        assert(lower(all[0].name@)[7] == 'c' && lower(all[1].name@)[7] == 'c');
        assert(lower(all[2].name@)[0] == 'i' && lower(all[3].name@)[0] == 'n');
        assert(lower(name)[7] == dw[0] && lower(name)[0] == 'c');
    }
    let body = dw + "x"@ + dh;
    let part = body + "mm"@;
    assert forall|i: int| 0 <= i < part.len() implies #[trigger] part[i] != '_' && lower_char(part[i])
        == part[i] by {
        if i < dw.len() {
            assert(is_digit(dw[i]));
            assert(part[i] == dw[i]);
        } else if i > dw.len() && i < body.len() {
            assert(part[i] == dh[i - dw.len() - 1]);
            assert(is_digit(dh[i - dw.len() - 1]));
        }
    }
    assert("custom_"@ =~= "custom"@.push('_'));
    assert(name =~= "custom"@.push('_') + part);
    lemma_last_part("custom"@, part);
    assert(lower(part) =~= part);
    assert(part[0] == dw[0]);
    if starts_with(part, "custom."@) {
        assert(part.subrange(0, 7)[0] == 'c');
    }
    assert(dimensions(name) == part);
    assert(part.skip(part.len() - 2) =~= "mm"@);
    assert(part.take(part.len() - 2) =~= body);
    assert(body[dw.len() as int] == 'x');
    assert forall|i: int| 0 <= i < dw.len() implies body[i] != 'x' by {
        assert(is_digit(dw[i]));
        assert(body[i] == dw[i]);
    }
    lemma_find_char_is(body, 'x', dw.len() as int);
    assert(body.take(dw.len() as int) =~= dw);
    assert(body.skip(dw.len() as int + 1) =~= dh);
    lemma_whole_length(w, 100, 1);
    lemma_whole_length(h, 100, 1);
    lemma_whole_hmm(w);
    lemma_whole_hmm(h);
}

proof fn lemma_whole_hmm(n: nat)
    requires
        n <= 21_474_836,
    ensures
        to_hmm(n, 0, 100, 1) == 100 * n,
{
    assert(ten(0) == 1);
    assert(n * 1 == n) by (nonlinear_arith);
    assert((2 * (n * ten(0)) * 100 + 1) / 2 == 100 * n);
}

/// The name of a size on offer, in any case, is read as that size.
pub proof fn lemma_offered_names(i: int)
    requires
        0 <= i < 4,
    ensures
        spec_parse_media_name(spec_all()[i].name@) == Some(
            (spec_all()[i].x_hmm, spec_all()[i].y_hmm),
        ),
        spec_parse_media_name(upper(spec_all()[i].name@)) == Some(
            (spec_all()[i].x_hmm, spec_all()[i].y_hmm),
        ),
{
    reveal_strlit("custom_cat-tape_48x297mm");
    reveal_strlit("custom_cat-tape-long_48x500mm");
    reveal_strlit("iso_a4_210x297mm");
    reveal_strlit("na_letter_8.5x11in");
    let all = spec_all();
    let n = all[i].name@;
    let u = upper(n);
    assert(!is_space(n[0]) && !is_space(n.last()));
    assert(u[0] == upper_char(n[0]) && u.last() == upper_char(n.last()));
    assert(trim_left(n, |c: char| is_space(c)) == n);
    assert(trim_right(n, |c: char| is_space(c)) == n);
    assert(trim_left(u, |c: char| is_space(c)) == u);
    assert(trim_right(u, |c: char| is_space(c)) == u);
    assert(lower(u) =~= lower(n));
    reveal_with_fuel(named_in, 5);
    assert(lower(all[0].name@).len() == 24);
    assert(lower(all[1].name@).len() == 29);
    assert(lower(all[2].name@).len() == 16);
    assert(lower(all[3].name@).len() == 18);
}

// ------------------------------------------------------------------ strings

/// A line of the strings file: a key and its text.
pub open spec fn line_of(key: Seq<char>, label: Seq<char>) -> Seq<char> {
    "\""@ + key + "\" = \""@ + label + "\";\n"@
}

fn push_line(s: &mut String, key: &str, label: &str)
    ensures
        final(s)@ == old(s)@ + line_of(key@, label@),
{
    s.push_str("\"");
    s.push_str(key);
    s.push_str("\" = \"");
    s.push_str(label);
    s.push_str("\";\n");
    assert(s@ =~= old(s)@ + line_of(key@, label@));
}

/// The lines for the sizes on offer.
pub open spec fn size_lines(sizes: Seq<MediaSize>) -> Seq<char>
    decreases sizes.len(),
{
    if sizes.len() == 0 {
        Seq::empty()
    } else {
        size_lines(sizes.drop_last()) + line_of("media."@ + sizes.last().name@, sizes.last().label@)
    }
}

/// Contents of the strings file that gives media, quality and color modes their human names.
pub open spec fn spec_strings_en() -> Seq<char> {
    size_lines(spec_all()) + line_of("media-source.main"@, "Roll"@) + line_of(
        "media-type.stationery"@,
        "Paper"@,
    ) + line_of("media-type.labels"@, "Sticker"@) + line_of("print-quality.3"@, "Text"@) + line_of(
        "print-quality.4"@,
        "Default"@,
    ) + line_of("print-quality.5"@, "Picture"@) + line_of(
        "print-color-mode.monochrome"@,
        "Grayscale"@,
    ) + line_of("print-color-mode.bi-level"@, "Black and white"@) + line_of(
        "cupsPrintQuality.Draft"@,
        "Text"@,
    ) + line_of("cupsPrintQuality.Normal"@, "Default"@) + line_of(
        "cupsPrintQuality.High"@,
        "Picture"@,
    ) + line_of("ColorModel.Gray"@, "Grayscale"@) + line_of(
        "ColorModel.FastGray"@,
        "Black and white"@,
    ) + line_of("PageSize.A4"@, "Document A4"@) + line_of("PageSize.Letter"@, "Document Letter"@)
}

/// Contents of the strings file that gives media, quality and color modes their human names.
pub fn strings_en() -> (r: String)
    ensures
        r@ == spec_strings_en(),
{
    let sizes = all();
    let mut s = String::new();
    let mut i: usize = 0;
    assert(sizes@.take(0) =~= Seq::<MediaSize>::empty());
    while i < sizes.len()
        invariant
            i <= sizes.len(),
            sizes@ == spec_all(),
            s@ == size_lines(sizes@.take(i as int)),
        decreases sizes.len() - i,
    {
        let mut key = owned("media.");
        key.push_str(sizes[i].name);
        push_line(&mut s, key.as_str(), sizes[i].label);
        assert(sizes@.take(i as int + 1).drop_last() =~= sizes@.take(i as int));
        i += 1;
    }
    assert(sizes@.take(sizes@.len() as int) =~= sizes@);
    push_line(&mut s, "media-source.main", "Roll");
    push_line(&mut s, "media-type.stationery", "Paper");
    push_line(&mut s, "media-type.labels", "Sticker");
    push_line(&mut s, "print-quality.3", "Text");
    push_line(&mut s, "print-quality.4", "Default");
    push_line(&mut s, "print-quality.5", "Picture");
    push_line(&mut s, "print-color-mode.monochrome", "Grayscale");
    push_line(&mut s, "print-color-mode.bi-level", "Black and white");
    push_line(&mut s, "cupsPrintQuality.Draft", "Text");
    push_line(&mut s, "cupsPrintQuality.Normal", "Default");
    push_line(&mut s, "cupsPrintQuality.High", "Picture");
    push_line(&mut s, "ColorModel.Gray", "Grayscale");
    push_line(&mut s, "ColorModel.FastGray", "Black and white");
    push_line(&mut s, "PageSize.A4", "Document A4");
    push_line(&mut s, "PageSize.Letter", "Document Letter");
    s
}

} // verus!
