//! PPD files: GTK and LibreOffice show the labels that stand in them, and not those of the printer.

use vstd::prelude::*;
use vstd::slice::slice_subrange;

use crate::text::{
    after_prefix, char_is_space, chars_of, contains, copy_chars, cut, has_prefix, has_text,
    is_space, is_text, lines, lines_of, replace, replace_text, same, split_once, starts_with,
    strip_prefix, string_of, texts, trim, trim_char, trim_chars, trim_of, words, words_of,
};

verus! {

/// The PPD has the labels for kids, and no menu that repeats them.
pub open spec fn has_labels(ppd: Seq<char>) -> bool {
    &&& contains(ppd, "Cat Tape short"@)
    &&& contains(ppd, "Draft/Text"@) || contains(ppd, "cupsPrintQuality Draft/Text"@)
    &&& contains(ppd, "/Paper:"@) || contains(ppd, "Stationery/Paper"@)
    &&& !contains(ppd, "*OpenUI *print-content-optimize"@)
}

/// Whether the PPD has the labels for kids, and no menu that repeats them.
pub fn ppd_has_kid_labels(ppd: &str) -> (r: bool)
    ensures
        r == has_labels(ppd@),
{
    let cs = chars_of(ppd);
    let p = cs.as_slice();
    has_text(p, "Cat Tape short") && (has_text(p, "Draft/Text") || has_text(
        p,
        "cupsPrintQuality Draft/Text",
    )) && (has_text(p, "/Paper:") || has_text(p, "Stationery/Paper")) && !has_text(
        p,
        "*OpenUI *print-content-optimize",
    )
}

/// The lines with a line feed behind each.
pub open spec fn unlines(l: Seq<Seq<char>>) -> Seq<char>
    decreases l.len(),
{
    if l.len() == 0 {
        Seq::empty()
    } else {
        unlines(l.drop_last()) + l.last().push('\n')
    }
}

fn push_line(out: &mut Vec<char>, line: &[char])
    ensures
        final(out)@ == old(out)@ + line@.push('\n'),
{
    let mut i: usize = 0;
    while i < line.len()
        invariant
            i <= line.len(),
            out@ == old(out)@ + line@.take(i as int),
        decreases line.len() - i,
    {
        out.push(line[i]);
        assert(line@.take(i as int + 1) =~= line@.take(i as int).push(line@[i as int]));
        i += 1;
    }
    assert(line@.take(line@.len() as int) =~= line@);
    out.push('\n');
    assert(out@ =~= old(out)@ + line@.push('\n'));
}

fn push_all(out: &mut Vec<char>, part: &[char])
    ensures
        final(out)@ == old(out)@ + part@,
{
    let mut i: usize = 0;
    while i < part.len()
        invariant
            i <= part.len(),
            out@ == old(out)@ + part@.take(i as int),
        decreases part.len() - i,
    {
        out.push(part[i]);
        assert(part@.take(i as int + 1) =~= part@.take(i as int).push(part@[i as int]));
        i += 1;
    }
    assert(part@.take(part@.len() as int) =~= part@);
}

fn push_text(out: &mut Vec<char>, part: &str)
    ensures
        final(out)@ == old(out)@ + part@,
{
    push_all(out, chars_of(part).as_slice());
}

fn concat2(a: &str, b: &[char]) -> (r: Vec<char>)
    ensures
        r@ == a@ + b@,
{
    let mut r = chars_of(a);
    push_all(&mut r, b);
    r
}

// ------------------------------------------------------------------ a menu left out

/// The lines without the menu `name`: from the line that opens it to the one that closes it, and an
/// empty line behind that one. `skipping`: the menu is open.
pub open spec fn without_menu(l: Seq<Seq<char>>, name: Seq<char>, skipping: bool) -> Seq<Seq<char>>
    decreases l.len(),
{
    if l.len() == 0 {
        Seq::empty()
    } else if skipping {
        if !starts_with(l[0], "*CloseUI: *"@ + name) {
            without_menu(l.skip(1), name, true)
        } else if l.len() > 1 && l[1].len() == 0 {
            without_menu(l.skip(2), name, false)
        } else {
            without_menu(l.skip(1), name, false)
        }
    } else if starts_with(l[0], "*OpenUI *"@ + name) {
        without_menu(l.skip(1), name, true)
    } else {
        seq![l[0]] + without_menu(l.skip(1), name, false)
    }
}

/// The text without the menu `name`.
pub open spec fn menu_stripped(ppd: Seq<char>, name: Seq<char>) -> Seq<char> {
    unlines(without_menu(lines(ppd), name, false))
}

fn starts(line: &[char], prefix: &[char]) -> (r: bool)
    ensures
        r == starts_with(line@, prefix@),
{
    crate::text::matches_at(line, prefix, 0)
}

/// Text in front of more lines.
pub proof fn lemma_unlines_front(a: Seq<char>, b: Seq<Seq<char>>)
    ensures
        unlines(seq![a] + b) == a.push('\n') + unlines(b),
    decreases b.len(),
{
    if b.len() == 0 {
        assert((seq![a] + b).drop_last() =~= Seq::<Seq<char>>::empty());
        assert((seq![a] + b).last() == a);
        assert(unlines(Seq::<Seq<char>>::empty()) =~= Seq::<char>::empty());
        assert(unlines(seq![a] + b) =~= a.push('\n') + unlines(b));
    } else {
        assert((seq![a] + b).drop_last() =~= seq![a] + b.drop_last());
        assert((seq![a] + b).last() == b.last());
        lemma_unlines_front(a, b.drop_last());
        assert(unlines(seq![a] + b) =~= a.push('\n') + unlines(b));
    }
}

fn strip_menu(ppd: &[char], name: &str) -> (r: Vec<char>)
    ensures
        r@ == menu_stripped(ppd@, name@),
{
    let open = concat2("*OpenUI *", chars_of(name).as_slice());
    let close = concat2("*CloseUI: *", chars_of(name).as_slice());
    let ls = lines_of(ppd);
    let ghost v = lines(ppd@);
    assert(texts(ls@).len() == ls@.len());
    let mut out: Vec<char> = Vec::new();
    let mut skipping = false;
    let mut i: usize = 0;
    assert(v.skip(0) =~= v);
    assert(out@ + unlines(without_menu(v, name@, false)) =~= unlines(without_menu(v, name@, false)));
    while i < ls.len()
        invariant
            i <= ls.len(),
            v == texts(ls@),
            v == lines(ppd@),
            open@ == "*OpenUI *"@ + name@,
            close@ == "*CloseUI: *"@ + name@,
            out@ + unlines(without_menu(v.skip(i as int), name@, skipping)) == menu_stripped(
                ppd@,
                name@,
            ),
        decreases ls.len() - i,
    {
        let line = ls[i].as_slice();
        let ghost rest = v.skip(i as int);
        let ghost was = out@;
        assert(rest[0] == line@);
        assert(rest.skip(1) =~= v.skip(i as int + 1));
        if skipping {
            if starts(line, close.as_slice()) {
                skipping = false;
                if i + 1 < ls.len() && ls[i + 1].len() == 0 {
                    assert(rest[1] == ls@[i as int + 1]@);
                    assert(rest.skip(2) =~= v.skip(i as int + 2));
                    i += 1;
                }
            }
        } else if starts(line, open.as_slice()) {
            skipping = true;
        } else {
            push_line(&mut out, line);
            proof {
                let tail = without_menu(rest.skip(1), name@, false);
                lemma_unlines_front(line@, tail);
                assert(was + (line@.push('\n') + unlines(tail)) =~= out@ + unlines(tail));
            }
        }
        i += 1;
    }
    assert(out@ + unlines(Seq::empty()) =~= out@);
    out
}

/// The text without the menu `name` (`*OpenUI *NAME` to `*CloseUI: *NAME`) and an empty line behind it.
pub fn strip_openui(ppd: &str, name: &str) -> (r: String)
    ensures
        r@ == menu_stripped(ppd@, name@),
{
    let out = strip_menu(chars_of(ppd).as_slice(), name);
    string_of(out.as_slice())
}

// ------------------------------------------------------------------ margins

/// What stands before the first white space, where there is any.
pub open spec fn before_space(s: Seq<char>, i: int) -> Option<Seq<char>>
    decreases s.len() - i,
{
    if i >= s.len() || i < 0 {
        None
    } else if is_space(s[i]) {
        Some(s.take(i))
    } else {
        before_space(s, i + 1)
    }
}

/// The name and width of a paper that a line tells.
pub open spec fn paper_in(line: Seq<char>) -> Option<(Seq<char>, Seq<char>)> {
    match after_prefix(line, "*PaperDimension "@) {
        Some(rest) => match split_once(rest, ':') {
            Some((name, vals)) => match before_space(trim(trim_char(trim(vals), '"')), 0) {
                Some(w) => Some((trim(name), trim(w))),
                None => None,
            },
            None => None,
        },
        None => None,
    }
}

/// The width of a paper: that of the last line that tells one.
pub open spec fn paper_width(l: Seq<Seq<char>>, name: Seq<char>) -> Option<Seq<char>>
    decreases l.len(),
{
    if l.len() == 0 {
        None
    } else {
        match paper_in(l.last()) {
            Some((n, w)) => if n == name {
                Some(w)
            } else {
                paper_width(l.drop_last(), name)
            },
            None => paper_width(l.drop_last(), name),
        }
    }
}

/// A word, or another text where there are not so many.
pub open spec fn word_or(w: Seq<Seq<char>>, i: int, other: Seq<char>) -> Seq<char> {
    if i < w.len() {
        w[i]
    } else {
        other
    }
}

/// A line with side margins of zero: of an imageable area whose paper is known, and of the margins.
pub open spec fn margin_line(line: Seq<char>, l: Seq<Seq<char>>) -> Seq<char> {
    let area = match after_prefix(line, "*ImageableArea "@) {
        Some(rest) => match split_once(rest, ':') {
            Some((name, vals)) => match paper_width(l, trim(name)) {
                Some(w) => Some((trim(name), vals, w)),
                None => None,
            },
            None => None,
        },
        None => None,
    };
    match area {
        Some((name, vals, w)) => {
            let p = words(trim_char(trim(vals), '"'));
            let lly = word_or(p, 1, "0"@);
            "*ImageableArea "@ + name + ": \"0 "@ + lly + " "@ + w + " "@ + word_or(p, 3, lly)
                + "\""@
        },
        None => match after_prefix(line, "*HWMargins:"@) {
            Some(rest) => {
                let p = words(trim_char(trim(rest), '"'));
                let bottom = word_or(p, 1, "0"@);
                "*HWMargins: \"0 "@ + bottom + " 0 "@ + word_or(p, 3, bottom) + "\""@
            },
            None => line,
        },
    }
}

/// The lines with side margins of zero.
pub open spec fn margin_lines(l: Seq<Seq<char>>) -> Seq<Seq<char>> {
    Seq::new(l.len(), |i: int| margin_line(l[i], l))
}

/// The text with side margins of zero.
pub open spec fn zero_margins(ppd: Seq<char>) -> Seq<char> {
    unlines(margin_lines(lines(ppd)))
}

fn cut_space<'a>(s: &'a [char]) -> (r: Option<&'a [char]>)
    ensures
        match r {
            Some(w) => before_space(s@, 0) == Some(w@),
            None => before_space(s@, 0) is None,
        },
{
    let mut i: usize = 0;
    while i < s.len()
        invariant
            i <= s.len(),
            before_space(s@, 0) == before_space(s@, i as int),
        decreases s.len() - i,
    {
        if char_is_space(s[i]) {
            let w = slice_subrange(s, 0, i);
            assert(w@ =~= s@.take(i as int));
            return Some(w);
        }
        i += 1;
    }
    None
}

fn read_paper(line: &[char]) -> (r: Option<(Vec<char>, Vec<char>)>)
    ensures
        match r {
            Some((n, w)) => paper_in(line@) == Some((n@, w@)),
            None => paper_in(line@) is None,
        },
{
    match strip_prefix(line, "*PaperDimension ") {
        Some(rest) => match cut(rest, ':') {
            Some((name, vals)) => match cut_space(trim_chars(trim_of(trim_chars(vals), '"'))) {
                Some(w) => Some((copy_chars(trim_chars(name)), copy_chars(trim_chars(w)))),
                None => None,
            },
            None => None,
        },
        None => None,
    }
}

fn find_width(ls: &Vec<Vec<char>>, name: &[char]) -> (r: Option<Vec<char>>)
    ensures
        match r {
            Some(w) => paper_width(texts(ls@), name@) == Some(w@),
            None => paper_width(texts(ls@), name@) is None,
        },
{
    let ghost v = texts(ls@);
    let mut i: usize = ls.len();
    assert(v.take(v.len() as int) =~= v);
    while i > 0
        invariant
            i <= ls.len(),
            v == texts(ls@),
            paper_width(v, name@) == paper_width(v.take(i as int), name@),
        decreases i,
    {
        assert(v.take(i as int).drop_last() =~= v.take(i as int - 1));
        assert(v.take(i as int).last() == ls@[i as int - 1]@);
        if let Some((n, w)) = read_paper(ls[i - 1].as_slice()) {
            if same(n.as_slice(), name) {
                return Some(w);
            }
        }
        i = i - 1;
    }
    None
}

fn push_word(out: &mut Vec<char>, w: &Vec<Vec<char>>, i: usize, j: usize)
    ensures
        final(out)@ == old(out)@ + word_or(texts(w@), i as int, word_or(texts(w@), j as int, "0"@)),
{
    assert(texts(w@).len() == w@.len());
    if i < w.len() {
        push_all(out, w[i].as_slice());
    } else if j < w.len() {
        push_all(out, w[j].as_slice());
    } else {
        push_text(out, "0");
    }
}

fn zero_line(line: &[char], ls: &Vec<Vec<char>>) -> (r: Vec<char>)
    ensures
        r@ == margin_line(line@, texts(ls@)),
{
    if let Some(rest) = strip_prefix(line, "*ImageableArea ") {
        if let Some((name, vals)) = cut(rest, ':') {
            let n = trim_chars(name);
            if let Some(w) = find_width(ls, n) {
                let p = words_of(trim_of(trim_chars(vals), '"'));
                let mut out = chars_of("*ImageableArea ");
                push_all(&mut out, n);
                push_text(&mut out, ": \"0 ");
                push_word(&mut out, &p, 1, 1);
                push_text(&mut out, " ");
                push_all(&mut out, w.as_slice());
                push_text(&mut out, " ");
                push_word(&mut out, &p, 3, 1);
                push_text(&mut out, "\"");
                return out;
            }
        }
    }
    if let Some(rest) = strip_prefix(line, "*HWMargins:") {
        let p = words_of(trim_of(trim_chars(rest), '"'));
        let mut out = chars_of("*HWMargins: \"0 ");
        push_word(&mut out, &p, 1, 1);
        push_text(&mut out, " 0 ");
        push_word(&mut out, &p, 3, 1);
        push_text(&mut out, "\"");
        return out;
    }
    copy_chars(line)
}

fn zero_all(ppd: &[char]) -> (r: Vec<char>)
    ensures
        r@ == zero_margins(ppd@),
{
    let ls = lines_of(ppd);
    let ghost v = lines(ppd@);
    assert(texts(ls@).len() == ls@.len());
    let ghost m = margin_lines(v);
    let mut out: Vec<char> = Vec::new();
    let mut i: usize = 0;
    assert(out@ =~= unlines(m.take(0)));
    while i < ls.len()
        invariant
            i <= ls.len(),
            v == texts(ls@),
            m == margin_lines(v),
            out@ == unlines(m.take(i as int)),
        decreases ls.len() - i,
    {
        assert(m.take(i as int + 1).drop_last() =~= m.take(i as int));
        assert(m.take(i as int + 1).last() == margin_line(ls@[i as int]@, v));
        let line = zero_line(ls[i].as_slice(), &ls);
        push_line(&mut out, line.as_slice());
        i += 1;
    }
    assert(m.take(m.len() as int) =~= m);
    out
}

/// The text with the printable area as wide as the paper.
pub fn force_zero_side_margins(ppd: &str) -> (r: String)
    ensures
        r@ == zero_margins(ppd@),
{
    let out = zero_all(chars_of(ppd).as_slice());
    string_of(out.as_slice())
}

// ------------------------------------------------------------------ labels

/// A label for a choice of a keyword.
#[derive(Debug, Clone, Copy)]
pub struct Label {
    pub keyword: &'static str,
    pub choice: &'static str,
    pub label: &'static str,
}

/// The labels for kids.
pub open spec fn labels() -> Seq<Label> {
    seq![
        Label { keyword: "PageSize", choice: "48x297mm", label: "Cat Tape short" },
        Label { keyword: "PageSize", choice: "48x500mm", label: "Cat Tape long" },
        Label { keyword: "PageSize", choice: "A4", label: "Cat Minidoc A4" },
        Label { keyword: "PageSize", choice: "Letter", label: "Cat Minidoc Letter" },
        Label { keyword: "PageRegion", choice: "48x297mm", label: "Cat Tape short" },
        Label { keyword: "PageRegion", choice: "48x500mm", label: "Cat Tape long" },
        Label { keyword: "PageRegion", choice: "A4", label: "Cat Minidoc A4" },
        Label { keyword: "PageRegion", choice: "Letter", label: "Cat Minidoc Letter" },
        Label { keyword: "MediaType", choice: "Stationery", label: "Paper" },
        Label { keyword: "MediaType", choice: "Labels", label: "Sticker" },
        Label { keyword: "cupsPrintQuality", choice: "Draft", label: "Text" },
        Label { keyword: "cupsPrintQuality", choice: "Normal", label: "Default" },
        Label { keyword: "cupsPrintQuality", choice: "High", label: "Picture" },
        Label { keyword: "ColorModel", choice: "Gray", label: "Grayscale" },
        Label { keyword: "ColorModel", choice: "FastGray", label: "Black and white" },
    ]
}

fn entry(keyword: &'static str, choice: &'static str, label: &'static str) -> (r: Label)
    ensures
        r == (Label { keyword, choice, label }),
{
    Label { keyword, choice, label }
}

fn label_list() -> (r: Vec<Label>)
    ensures
        r@ == labels(),
{
    let mut r: Vec<Label> = Vec::new();
    r.push(entry("PageSize", "48x297mm", "Cat Tape short"));
    r.push(entry("PageSize", "48x500mm", "Cat Tape long"));
    r.push(entry("PageSize", "A4", "Cat Minidoc A4"));
    r.push(entry("PageSize", "Letter", "Cat Minidoc Letter"));
    r.push(entry("PageRegion", "48x297mm", "Cat Tape short"));
    r.push(entry("PageRegion", "48x500mm", "Cat Tape long"));
    r.push(entry("PageRegion", "A4", "Cat Minidoc A4"));
    r.push(entry("PageRegion", "Letter", "Cat Minidoc Letter"));
    r.push(entry("MediaType", "Stationery", "Paper"));
    r.push(entry("MediaType", "Labels", "Sticker"));
    r.push(entry("cupsPrintQuality", "Draft", "Text"));
    r.push(entry("cupsPrintQuality", "Normal", "Default"));
    r.push(entry("cupsPrintQuality", "High", "Picture"));
    r.push(entry("ColorModel", "Gray", "Grayscale"));
    r.push(entry("ColorModel", "FastGray", "Black and white"));
    assert(r@ =~= labels());
    r
}

/// A choice with its label: the line with the label in place of the one it has, or none.
pub open spec fn choice_line(line: Seq<char>, b: Label) -> Option<Seq<char>> {
    let star = "*"@ + b.keyword@ + " "@ + b.choice@;
    match after_prefix(line, star) {
        Some(rest) => {
            let payload = if rest.len() > 0 && rest[0] == ':' {
                Some(rest.skip(1))
            } else if rest.len() > 0 && rest[0] == '/' {
                match split_once(rest.skip(1), ':') {
                    Some((_, p)) => Some(p),
                    None => None,
                }
            } else {
                None
            };
            match payload {
                Some(p) => Some(star + "/"@ + b.label@ + ":"@ + p),
                None => None,
            }
        },
        None => None,
    }
}

/// A choice of the English texts with its label.
pub open spec fn english_line(line: Seq<char>, b: Label) -> Option<Seq<char>> {
    let prefix = "*en_US."@ + b.keyword@ + " "@ + b.choice@ + "/"@;
    match after_prefix(line, prefix) {
        Some(rest) => match split_once(rest, ':') {
            Some((_, p)) => Some(prefix + b.label@ + ":"@ + p),
            None => None,
        },
        None => None,
    }
}

/// The line with the first label of a list that is for it.
pub open spec fn labelled_line(line: Seq<char>, l: Seq<Label>) -> Option<Seq<char>>
    decreases l.len(),
{
    if l.len() == 0 {
        None
    } else if choice_line(line, l[0]) is Some {
        choice_line(line, l[0])
    } else if english_line(line, l[0]) is Some {
        english_line(line, l[0])
    } else {
        labelled_line(line, l.skip(1))
    }
}

/// A line with its label, or with the title of its menu, or as it is.
pub open spec fn kid_line(line: Seq<char>) -> Seq<char> {
    if labelled_line(line, labels()) is Some {
        labelled_line(line, labels())->0
    } else if line == "*OpenUI *cupsPrintQuality: PickOne"@ || starts_with(
        line,
        "*OpenUI *cupsPrintQuality/"@,
    ) {
        "*OpenUI *cupsPrintQuality/Print style: PickOne"@
    } else if line == "*OpenUI *MediaType: PickOne"@ || starts_with(
        line,
        "*OpenUI *MediaType/"@,
    ) {
        "*OpenUI *MediaType/Paper type: PickOne"@
    } else if starts_with(line, "*en_US.Translation cupsPrintQuality/"@) {
        "*en_US.Translation cupsPrintQuality/Print style: \"\""@
    } else {
        line
    }
}

/// The lines with their labels.
pub open spec fn kid_lines(l: Seq<Seq<char>>) -> Seq<Seq<char>> {
    Seq::new(l.len(), |i: int| kid_line(l[i]))
}

/// The tone menu, with the black and white choice that CUPS leaves out.
pub const TONE_MENU: &'static str = "*OpenUI *ColorModel/Tone: PickOne\n*ColorModel FastGray/Black and white: \"\"\n*en_US.ColorModel FastGray/Black and white: \"\"\n";

/// The text with a black and white choice, where there is a tone menu without one.
pub open spec fn with_black_and_white(t: Seq<char>) -> Seq<char> {
    if !contains(t, "*ColorModel FastGray"@) && contains(t, "*OpenUI *ColorModel"@) {
        let a = replace(t, "*OpenUI *ColorModel: PickOne\n"@, TONE_MENU@);
        if !contains(a, "*OpenUI *ColorModel/Tone"@) {
            replace(a, "*OpenUI *ColorModel/Color Mode: PickOne\n"@, TONE_MENU@)
        } else {
            a
        }
    } else {
        t
    }
}

/// The PPD with the labels for kids: without the menu that repeats them, with side margins of zero, and
/// with a black and white choice.
pub open spec fn kid_labelled(ppd: Seq<char>) -> Seq<char> {
    let a = zero_margins(menu_stripped(ppd, "print-content-optimize"@));
    with_black_and_white(unlines(kid_lines(lines(a))))
}

fn relabel_choice(line: &[char], b: Label) -> (r: Option<Vec<char>>)
    ensures
        match r {
            Some(v) => choice_line(line@, b) == Some(v@),
            None => choice_line(line@, b) is None,
        },
{
    let mut star = chars_of("*");
    push_text(&mut star, b.keyword);
    push_text(&mut star, " ");
    push_text(&mut star, b.choice);
    if !starts(line, star.as_slice()) {
        return None;
    }
    let rest = slice_subrange(line, star.len(), line.len());
    assert(rest@ =~= line@.skip(star@.len() as int));
    if rest.len() == 0 {
        return None;
    }
    let tail = slice_subrange(rest, 1, rest.len());
    assert(tail@ =~= rest@.skip(1));
    let payload = if rest[0] == ':' {
        tail
    } else if rest[0] == '/' {
        match cut(tail, ':') {
            Some((_, p)) => p,
            None => return None,
        }
    } else {
        return None;
    };
    push_text(&mut star, "/");
    push_text(&mut star, b.label);
    push_text(&mut star, ":");
    push_all(&mut star, payload);
    Some(star)
}

fn relabel_en_us(line: &[char], b: Label) -> (r: Option<Vec<char>>)
    ensures
        match r {
            Some(v) => english_line(line@, b) == Some(v@),
            None => english_line(line@, b) is None,
        },
{
    let mut prefix = chars_of("*en_US.");
    push_text(&mut prefix, b.keyword);
    push_text(&mut prefix, " ");
    push_text(&mut prefix, b.choice);
    push_text(&mut prefix, "/");
    if !starts(line, prefix.as_slice()) {
        return None;
    }
    let rest = slice_subrange(line, prefix.len(), line.len());
    assert(rest@ =~= line@.skip(prefix@.len() as int));
    match cut(rest, ':') {
        Some((_, p)) => {
            push_text(&mut prefix, b.label);
            push_text(&mut prefix, ":");
            push_all(&mut prefix, p);
            Some(prefix)
        },
        None => None,
    }
}

fn relabel(line: &[char], list: &Vec<Label>) -> (r: Option<Vec<char>>)
    requires
        list@ == labels(),
    ensures
        match r {
            Some(v) => labelled_line(line@, labels()) == Some(v@),
            None => labelled_line(line@, labels()) is None,
        },
{
    let ghost l = labels();
    let mut i: usize = 0;
    assert(l.skip(0) =~= l);
    while i < list.len()
        invariant
            i <= list.len(),
            l == list@,
            l == labels(),
            labelled_line(line@, l) == labelled_line(line@, l.skip(i as int)),
        decreases list.len() - i,
    {
        assert(l.skip(i as int)[0] == l[i as int]);
        assert(l.skip(i as int).skip(1) =~= l.skip(i as int + 1));
        if let Some(v) = relabel_choice(line, list[i]) {
            return Some(v);
        }
        if let Some(v) = relabel_en_us(line, list[i]) {
            return Some(v);
        }
        i += 1;
    }
    None
}

fn kid_label(line: &[char], list: &Vec<Label>) -> (r: Vec<char>)
    requires
        list@ == labels(),
    ensures
        r@ == kid_line(line@),
{
    if let Some(v) = relabel(line, list) {
        return v;
    }
    if is_text(line, "*OpenUI *cupsPrintQuality: PickOne") || has_prefix(
        line,
        "*OpenUI *cupsPrintQuality/",
    ) {
        chars_of("*OpenUI *cupsPrintQuality/Print style: PickOne")
    } else if is_text(line, "*OpenUI *MediaType: PickOne") || has_prefix(
        line,
        "*OpenUI *MediaType/",
    ) {
        chars_of("*OpenUI *MediaType/Paper type: PickOne")
    } else if has_prefix(line, "*en_US.Translation cupsPrintQuality/") {
        chars_of("*en_US.Translation cupsPrintQuality/Print style: \"\"")
    } else {
        copy_chars(line)
    }
}

fn label_all(ppd: &[char]) -> (r: Vec<char>)
    ensures
        r@ == unlines(kid_lines(lines(ppd@))),
{
    let list = label_list();
    let ls = lines_of(ppd);
    let ghost v = lines(ppd@);
    assert(texts(ls@).len() == ls@.len());
    let ghost m = kid_lines(v);
    let mut out: Vec<char> = Vec::new();
    let mut i: usize = 0;
    assert(out@ =~= unlines(m.take(0)));
    while i < ls.len()
        invariant
            i <= ls.len(),
            list@ == labels(),
            v == texts(ls@),
            m == kid_lines(v),
            out@ == unlines(m.take(i as int)),
        decreases ls.len() - i,
    {
        assert(m.take(i as int + 1).drop_last() =~= m.take(i as int));
        assert(m.take(i as int + 1).last() == kid_line(ls@[i as int]@));
        let line = kid_label(ls[i].as_slice(), &list);
        push_line(&mut out, line.as_slice());
        i += 1;
    }
    assert(m.take(m.len() as int) =~= m);
    out
}

/// The PPD with the labels for kids, as those have it that show the printer's own labels.
pub fn apply_kid_labels(ppd: &str) -> (r: String)
    ensures
        r@ == kid_labelled(ppd@),
{
    let a = strip_menu(chars_of(ppd).as_slice(), "print-content-optimize");
    let b = zero_all(a.as_slice());
    let mut out = label_all(b.as_slice());
    if !has_text(out.as_slice(), "*ColorModel FastGray") && has_text(
        out.as_slice(),
        "*OpenUI *ColorModel",
    ) {
        proof {
            reveal_strlit("*OpenUI *ColorModel: PickOne\n");
            reveal_strlit("*OpenUI *ColorModel/Color Mode: PickOne\n");
        }
        out = replace_text(out.as_slice(), "*OpenUI *ColorModel: PickOne\n", TONE_MENU);
        if !has_text(out.as_slice(), "*OpenUI *ColorModel/Tone") {
            out = replace_text(
                out.as_slice(),
                "*OpenUI *ColorModel/Color Mode: PickOne\n",
                TONE_MENU,
            );
        }
    }
    string_of(out.as_slice())
}

} // verus!
