//! The lines of a PPD file: text without line ends, and what is made of it.

use vstd::prelude::*;

use crate::commands::ppd::{
    before_space, lemma_unlines_front, margin_line, paper_in, paper_width, unlines, word_or,
};
use crate::text::{
    after_prefix, find_char, is_space, lemma_find_char, lemma_find_char_is, lemma_trim_len,
    lemma_word_len, lines, only, split_once, starts_with, strip_cr, trim, trim_char, trim_left,
    trim_right, word_len, words,
};

verus! {

// ------------------------------------------------------------------ plain lines

/// A text without line ends.
pub open spec fn plain(s: Seq<char>) -> bool {
    forall|i: int| 0 <= i < s.len() ==> #[trigger] s[i] != '\n' && s[i] != '\r'
}

/// Lines without line ends.
pub open spec fn all_plain(l: Seq<Seq<char>>) -> bool {
    forall|i: int| 0 <= i < l.len() ==> plain(#[trigger] l[i])
}

/// A text without carriage returns.
pub open spec fn no_returns(s: Seq<char>) -> bool {
    forall|i: int| 0 <= i < s.len() ==> #[trigger] s[i] != '\r'
}

pub proof fn lemma_lines_plain(s: Seq<char>)
    requires
        no_returns(s),
    ensures
        all_plain(lines(s)),
    decreases s.len(),
{
    if s.len() > 0 {
        lemma_find_char(s, '\n');
        match find_char(s, '\n') {
            Some(k) => {
                let rest = s.skip(k + 1);
                assert forall|i: int| 0 <= i < rest.len() implies #[trigger] rest[i] != '\r' by {
                    assert(s[i + k + 1] != '\r');
                }
                lemma_lines_plain(rest);
                let head = strip_cr(s.take(k));
                assert(plain(head)) by {
                    assert forall|i: int| 0 <= i < head.len() implies #[trigger] head[i] != '\n'
                        && head[i] != '\r' by {
                        assert(head[i] == s[i]);
                    }
                }
                assert(lines(s) == seq![head] + lines(rest));
                assert forall|i: int| 0 <= i < lines(s).len() implies plain(
                    #[trigger] lines(s)[i],
                ) by {
                    if i > 0 {
                        assert(plain(lines(rest)[i - 1]));
                    }
                }
            },
            None => {
                assert(lines(s) == seq![s]);
            },
        }
    }
}

/// Plain lines written one below the other are read as those lines.
pub proof fn lemma_lines_unlines(l: Seq<Seq<char>>)
    requires
        all_plain(l),
    ensures
        lines(unlines(l)) == l,
    decreases l.len(),
{
    if l.len() > 0 {
        let a = l[0];
        let rest = l.skip(1);
        assert(plain(a));
        assert forall|i: int| 0 <= i < rest.len() implies plain(#[trigger] rest[i]) by {
            assert(plain(l[i + 1]));
        }
        assert(l =~= seq![a] + rest);
        lemma_unlines_front(a, rest);
        lemma_lines_unlines(rest);
        let s = unlines(l);
        assert(s == a.push('\n') + unlines(rest));
        assert forall|i: int| 0 <= i < a.len() implies s[i] != '\n' by {
            assert(a[i] != '\n');
        }
        lemma_find_char_is(s, '\n', a.len() as int);
        assert(s.take(a.len() as int) =~= a);
        assert(s.skip(a.len() as int + 1) =~= unlines(rest));
        if a.len() > 0 {
            assert(a[a.len() - 1] != '\r');
        }
        assert(strip_cr(a) == a);
        assert(lines(s) =~= l);
    } else {
        assert(lines(unlines(l)) =~= l);
    }
}

// ------------------------------------------------------------------ parts of plain text

pub proof fn lemma_part_plain(s: Seq<char>, a: int, b: int)
    requires
        plain(s),
        0 <= a <= b <= s.len(),
    ensures
        plain(s.subrange(a, b)),
{
    let t = s.subrange(a, b);
    assert forall|i: int| 0 <= i < t.len() implies #[trigger] t[i] != '\n' && t[i] != '\r' by {
        assert(s[i + a] != '\n');
    }
}

pub proof fn lemma_skip_plain(s: Seq<char>, a: int)
    requires
        plain(s),
        0 <= a <= s.len(),
    ensures
        plain(s.skip(a)),
        plain(s.take(a)),
{
    lemma_part_plain(s, a, s.len() as int);
    lemma_part_plain(s, 0, a);
    assert(s.skip(a) =~= s.subrange(a, s.len() as int));
    assert(s.take(a) =~= s.subrange(0, a));
}

pub proof fn lemma_concat_plain(a: Seq<char>, b: Seq<char>)
    requires
        plain(a),
        plain(b),
    ensures
        plain(a + b),
{
    assert forall|i: int| 0 <= i < (a + b).len() implies #[trigger] (a + b)[i] != '\n' && (a + b)[i]
        != '\r' by {
        if i < a.len() {
            assert(a[i] != '\n');
        } else {
            assert(b[i - a.len()] != '\n');
        }
    }
}

pub proof fn lemma_trimmed_plain(s: Seq<char>, p: spec_fn(char) -> bool)
    requires
        plain(s),
    ensures
        plain(trim_left(s, p)),
        plain(trim_right(s, p)),
    decreases s.len(),
{
    if s.len() > 0 {
        lemma_skip_plain(s, 1);
        lemma_skip_plain(s, s.len() - 1);
        assert(s.take(s.len() - 1) =~= s.drop_last());
        lemma_trimmed_plain(s.skip(1), p);
        lemma_trimmed_plain(s.drop_last(), p);
    }
}

pub proof fn lemma_trim_plain(s: Seq<char>)
    requires
        plain(s),
    ensures
        plain(trim(s)),
        plain(trim_char(s, '"')),
{
    lemma_trimmed_plain(s, |c: char| is_space(c));
    lemma_trimmed_plain(trim_left(s, |c: char| is_space(c)), |c: char| is_space(c));
    lemma_trimmed_plain(s, only('"'));
    lemma_trimmed_plain(trim_left(s, only('"')), only('"'));
}

pub proof fn lemma_words_plain(s: Seq<char>)
    requires
        plain(s),
    ensures
        all_plain(words(s)),
    decreases s.len(),
{
    let p = |c: char| is_space(c);
    let t = trim_left(s, p);
    lemma_trimmed_plain(s, p);
    if t.len() > 0 {
        let n = word_len(t) as int;
        lemma_trim_len(s, p);
        lemma_word_len(t);
        crate::text::lemma_trim_left_head(s, p);
        assert(n > 0);
        lemma_skip_plain(t, n);
        lemma_words_plain(t.skip(n));
        let w = words(s);
        assert(w == seq![t.take(n)] + words(t.skip(n)));
        assert forall|i: int| 0 <= i < w.len() implies plain(#[trigger] w[i]) by {
            if i > 0 {
                assert(plain(words(t.skip(n))[i - 1]));
            }
        }
    }
}

pub proof fn lemma_split_plain(s: Seq<char>, c: char)
    requires
        plain(s),
    ensures
        split_once(s, c) matches Some((a, b)) ==> plain(a) && plain(b),
{
    lemma_find_char(s, c);
    if let Some(k) = find_char(s, c) {
        lemma_skip_plain(s, k);
        lemma_skip_plain(s, k + 1);
    }
}

pub proof fn lemma_before_space(s: Seq<char>, i: int)
    requires
        0 <= i,
    ensures
        before_space(s, i) matches Some(w) ==> i <= w.len() < s.len() && w == s.take(w.len() as int)
            && is_space(s[w.len() as int]) && (forall|j: int| i <= j < w.len() ==> !is_space(
            #[trigger] s[j],
        )),
        before_space(s, i) is None ==> forall|j: int| i <= j < s.len() ==> !is_space(#[trigger] s[j]),
    decreases s.len() - i,
{
    if i < s.len() && !is_space(s[i]) {
        lemma_before_space(s, i + 1);
    }
}

pub proof fn lemma_paper_plain(line: Seq<char>)
    requires
        plain(line),
    ensures
        paper_in(line) matches Some((n, w)) ==> plain(n) && plain(w),
{
    reveal_strlit("*PaperDimension ");
    if let Some(rest) = after_prefix(line, "*PaperDimension "@) {
        lemma_skip_plain(line, "*PaperDimension "@.len() as int);
        lemma_split_plain(rest, ':');
        if let Some((name, vals)) = split_once(rest, ':') {
            lemma_trim_plain(name);
            lemma_trim_plain(vals);
            lemma_trim_plain(trim(vals));
            let v = trim_char(trim(vals), '"');
            lemma_trim_plain(v);
            lemma_before_space(trim(v), 0);
            if let Some(w) = before_space(trim(v), 0) {
                lemma_skip_plain(trim(v), w.len() as int);
                lemma_trim_plain(w);
            }
        }
    }
}

pub proof fn lemma_width_plain(l: Seq<Seq<char>>, name: Seq<char>)
    requires
        all_plain(l),
    ensures
        paper_width(l, name) matches Some(w) ==> plain(w),
    decreases l.len(),
{
    if l.len() > 0 {
        assert(plain(l[l.len() - 1]));
        lemma_paper_plain(l.last());
        assert forall|i: int| 0 <= i < l.len() - 1 implies plain(#[trigger] l.drop_last()[i]) by {
            assert(plain(l[i]));
        }
        lemma_width_plain(l.drop_last(), name);
    }
}

pub proof fn lemma_margin_plain(line: Seq<char>, l: Seq<Seq<char>>)
    requires
        plain(line),
        all_plain(l),
    ensures
        plain(margin_line(line, l)),
{
    reveal_strlit("*ImageableArea ");
    reveal_strlit("*HWMargins:");
    reveal_strlit("*HWMargins: \"0 ");
    reveal_strlit(": \"0 ");
    reveal_strlit(" 0 ");
    reveal_strlit(" ");
    reveal_strlit("0");
    reveal_strlit("\"");
    if starts_with(line, "*HWMargins:"@) {
        let rest = line.skip("*HWMargins:"@.len() as int);
        lemma_skip_plain(line, "*HWMargins:"@.len() as int);
        lemma_trim_plain(rest);
        lemma_trim_plain(trim(rest));
        let p = words(trim_char(trim(rest), '"'));
        lemma_words_plain(trim_char(trim(rest), '"'));
        let b = word_or(p, 1, "0"@);
        let t = word_or(p, 3, b);
        lemma_concat_plain("*HWMargins: \"0 "@, b);
        lemma_concat_plain("*HWMargins: \"0 "@ + b, " 0 "@);
        lemma_concat_plain("*HWMargins: \"0 "@ + b + " 0 "@, t);
        lemma_concat_plain("*HWMargins: \"0 "@ + b + " 0 "@ + t, "\""@);
    }
    if let Some(rest) = after_prefix(line, "*ImageableArea "@) {
        lemma_skip_plain(line, "*ImageableArea "@.len() as int);
        lemma_split_plain(rest, ':');
        if let Some((name, vals)) = split_once(rest, ':') {
            lemma_trim_plain(name);
            lemma_trim_plain(vals);
            lemma_trim_plain(trim(vals));
            lemma_width_plain(l, trim(name));
            let n = trim(name);
            let p = words(trim_char(trim(vals), '"'));
            lemma_words_plain(trim_char(trim(vals), '"'));
            let lly = word_or(p, 1, "0"@);
            let ury = word_or(p, 3, lly);
            if let Some(w) = paper_width(l, n) {
                let a = "*ImageableArea "@ + n;
                lemma_concat_plain("*ImageableArea "@, n);
                lemma_concat_plain(a, ": \"0 "@);
                let b = a + ": \"0 "@;
                lemma_concat_plain(b, lly);
                lemma_concat_plain(b + lly, " "@);
                lemma_concat_plain(b + lly + " "@, w);
                lemma_concat_plain(b + lly + " "@ + w, " "@);
                lemma_concat_plain(b + lly + " "@ + w + " "@, ury);
                lemma_concat_plain(b + lly + " "@ + w + " "@ + ury, "\""@);
            }
        }
    }
}

} // verus!
