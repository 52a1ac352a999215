//! Side margins of zero stay as they are.

use vstd::prelude::*;

use crate::commands::ppd::{before_space, margin_line, paper_width, word_or};
use crate::commands::ppd_lines::lemma_before_space;
use crate::text::{
    after_prefix, is_space, lemma_find_char, lemma_find_char_is, lemma_trim_idempotent,
    lemma_trim_left_head, lemma_trim_len, only, split_once, starts_with, trim, trim_char,
    trim_left, trim_right, word_len, words,
};

verus! {

/// A text without white space, of at least one character.
spec fn is_word(w: Seq<char>) -> bool {
    w.len() > 0 && forall|i: int| 0 <= i < w.len() ==> !is_space(#[trigger] w[i])
}

proof fn lemma_word_len_is(w: Seq<char>, rest: Seq<char>)
    requires
        forall|i: int| 0 <= i < w.len() ==> !is_space(#[trigger] w[i]),
        rest.len() == 0 || is_space(rest[0]),
    ensures
        word_len(w + rest) == w.len(),
    decreases w.len(),
{
    if w.len() > 0 {
        assert(!is_space(w[0]));
        assert forall|i: int| 0 <= i < w.skip(1).len() implies !is_space(#[trigger] w.skip(1)[i]) by {
            assert(!is_space(w[i + 1]));
        }
        assert((w + rest).skip(1) =~= w.skip(1) + rest);
        lemma_word_len_is(w.skip(1), rest);
    } else {
        assert(w + rest =~= rest);
    }
}

proof fn lemma_word_has_no_space(s: Seq<char>)
    ensures
        forall|i: int| 0 <= i < word_len(s) ==> !is_space(#[trigger] s[i]),
        word_len(s) <= s.len(),
    decreases s.len(),
{
    if s.len() > 0 && !is_space(s[0]) {
        lemma_word_has_no_space(s.skip(1));
        assert forall|i: int| 0 <= i < word_len(s) implies !is_space(#[trigger] s[i]) by {
            if i > 0 {
                assert(!is_space(s.skip(1)[i - 1]));
            }
        }
    }
}

proof fn lemma_words_are_words(s: Seq<char>)
    ensures
        forall|i: int| 0 <= i < words(s).len() ==> is_word(#[trigger] words(s)[i]),
    decreases s.len(),
{
    let p = |c: char| is_space(c);
    let t = trim_left(s, p);
    lemma_trim_len(s, p);
    lemma_trim_left_head(s, p);
    if t.len() > 0 {
        let n = word_len(t) as int;
        lemma_word_has_no_space(t);
        let w = t.take(n);
        assert(n > 0);
        assert forall|i: int| 0 <= i < w.len() implies !is_space(#[trigger] w[i]) by {
            assert(!is_space(t[i]));
        }
        lemma_words_are_words(t.skip(n));
        assert(words(s) == seq![w] + words(t.skip(n)));
        assert forall|i: int| 0 <= i < words(s).len() implies is_word(#[trigger] words(s)[i]) by {
            if i > 0 {
                assert(is_word(words(t.skip(n))[i - 1]));
            }
        }
    }
}

proof fn lemma_words_next(w: Seq<char>, rest: Seq<char>)
    requires
        is_word(w),
    ensures
        words(w + " "@ + rest) == seq![w] + words(rest),
        words(w) == seq![w],
{
    reveal_strlit(" ");
    let p = |c: char| is_space(c);
    let tail = " "@ + rest;
    let s = w + " "@ + rest;
    assert(s =~= w + tail);
    assert(!is_space(w[0]));
    assert(trim_left(s, p) == s);
    lemma_word_len_is(w, tail);
    assert(s.take(w.len() as int) =~= w);
    assert(s.skip(w.len() as int) =~= tail);
    assert(tail.skip(1) =~= rest);
    assert(trim_left(tail, p) == trim_left(rest, p));
    lemma_trim_idempotent(tail, p);
    lemma_trim_idempotent(rest, p);
    assert(words(tail) == words(rest));
    let none = Seq::<char>::empty();
    lemma_word_len_is(w, none);
    assert(w + none =~= w);
    assert(trim_left(w, p) == w);
    assert(w.take(w.len() as int) =~= w);
    assert(w.skip(w.len() as int) =~= none);
    assert(words(none) =~= Seq::<Seq<char>>::empty());
    assert(words(w) =~= seq![w]);
}

/// Four numbers, one behind the other.
spec fn row(a: Seq<char>, b: Seq<char>, c: Seq<char>, d: Seq<char>) -> Seq<char> {
    a + " "@ + b + " "@ + c + " "@ + d
}

proof fn lemma_row(a: Seq<char>, b: Seq<char>, c: Seq<char>, d: Seq<char>)
    requires
        is_word(a),
        is_word(b),
        is_word(c),
        is_word(d),
    ensures
        words(row(a, b, c, d)) == seq![a, b, c, d],
{
    let cd = c + " "@ + d;
    let bcd = b + " "@ + cd;
    assert(row(a, b, c, d) =~= a + " "@ + bcd);
    lemma_words_next(a, bcd);
    lemma_words_next(b, cd);
    lemma_words_next(c, d);
    lemma_words_next(d, Seq::empty());
    assert(words(row(a, b, c, d)) =~= seq![a, b, c, d]);
}

proof fn lemma_unquoted(s: Seq<char>)
    requires
        s.len() > 0,
        s[0] != '"',
        s.last() != '"',
    ensures
        trim_char(trim(" \""@ + s + "\""@), '"') == s,
{
    reveal_strlit(" \"");
    reveal_strlit("\"");
    let p = |c: char| is_space(c);
    let q = only('"');
    let all = " \""@ + s + "\""@;
    let quoted = "\""@ + s + "\""@;
    assert(all.skip(1) =~= quoted);
    assert(all[0] == ' ');
    assert(quoted[0] == '"' && quoted.last() == '"');
    assert(trim_left(quoted, p) == quoted);
    assert(trim_left(all, p) == trim_left(quoted, p));
    assert(trim_right(quoted, p) == quoted);
    let open = s + "\""@;
    assert(quoted.skip(1) =~= open);
    assert(open[0] == s[0]);
    assert(trim_left(open, q) == open);
    assert(trim_left(quoted, q) == trim_left(open, q));
    assert(open.last() == '"');
    assert(open.drop_last() =~= s);
    assert(trim_right(s, q) == s);
    assert(trim_right(open, q) == trim_right(s, q));
}

/// The upper edge that a line with side margins of zero gets: of an imageable area whose paper is known,
/// and of the margins.
pub open spec fn upper_edge(line: Seq<char>, l: Seq<Seq<char>>) -> Option<Seq<char>> {
    let area = match after_prefix(line, "*ImageableArea "@) {
        Some(rest) => match split_once(rest, ':') {
            Some((name, vals)) => if paper_width(l, trim(name)) is Some {
                Some(vals)
            } else {
                None
            },
            None => None,
        },
        None => None,
    };
    let vals = match area {
        Some(vals) => Some(vals),
        None => after_prefix(line, "*HWMargins:"@),
    };
    match vals {
        Some(vals) => {
            let p = words(trim_char(trim(vals), '"'));
            Some(word_or(p, 3, word_or(p, 1, "0"@)))
        },
        None => None,
    }
}

proof fn lemma_trim_ends(s: Seq<char>, c: char)
    ensures
        trim(s).len() <= s.len(),
        trim(s).len() > 0 ==> !is_space(trim(s)[0]) && !is_space(trim(s).last()),
        trim(trim(s)) == trim(s),
        (forall|i: int| 0 <= i < s.len() ==> #[trigger] s[i] != c) ==> (forall|i: int|
            0 <= i < trim(s).len() ==> #[trigger] trim(s)[i] != c),
{
    let p = |c: char| is_space(c);
    let t = trim_left(s, p);
    lemma_trim_left_part(s, p);
    lemma_trim_left_head(s, p);
    lemma_trim_right_part(t, p);
    let u = trim(s);
    if u.len() > 0 {
        assert(u[0] == t[0]);
    }
    assert(trim_left(u, p) == u);
    assert(trim_right(u, p) == u);
    if forall|i: int| 0 <= i < s.len() ==> #[trigger] s[i] != c {
        assert forall|i: int| 0 <= i < u.len() implies #[trigger] u[i] != c by {
            assert(u[i] == t[i]);
            assert(t[i] == s[i + s.len() - t.len()]);
        }
    }
}

proof fn lemma_trim_left_part(s: Seq<char>, p: spec_fn(char) -> bool)
    ensures
        trim_left(s, p).len() <= s.len(),
        trim_left(s, p) == s.skip(s.len() - trim_left(s, p).len()),
    decreases s.len(),
{
    if s.len() > 0 && p(s[0]) {
        let r = s.skip(1);
        lemma_trim_left_part(r, p);
        let n = trim_left(r, p).len();
        assert(r.skip(r.len() - n) =~= s.skip(s.len() - n));
    } else {
        assert(s.skip(0) =~= s);
    }
}

proof fn lemma_trim_right_part(s: Seq<char>, p: spec_fn(char) -> bool)
    ensures
        trim_right(s, p).len() <= s.len(),
        trim_right(s, p) == s.take(trim_right(s, p).len() as int),
        trim_right(s, p).len() > 0 ==> !p(trim_right(s, p).last()),
    decreases s.len(),
{
    if s.len() > 0 && p(s.last()) {
        let r = s.drop_last();
        lemma_trim_right_part(r, p);
        let n = trim_right(r, p).len() as int;
        assert(r.take(n) =~= s.take(n));
    } else {
        assert(s.take(s.len() as int) =~= s);
    }
}

/// The width of a paper is a word.
proof fn lemma_width_is_word(l: Seq<Seq<char>>, name: Seq<char>)
    ensures
        paper_width(l, name) matches Some(w) ==> is_word(w),
    decreases l.len(),
{
    if l.len() > 0 {
        lemma_width_is_word(l.drop_last(), name);
        if let Some(rest) = after_prefix(l.last(), "*PaperDimension "@) {
            if let Some((_, vals)) = split_once(rest, ':') {
                let v = trim(trim_char(trim(vals), '"'));
                lemma_trim_ends(trim_char(trim(vals), '"'), ':');
                lemma_before_space(v, 0);
                if let Some(w) = before_space(v, 0) {
                    assert(w.len() > 0);
                    assert forall|i: int| 0 <= i < w.len() implies !is_space(#[trigger] w[i]) by {
                        assert(!is_space(v[i]));
                    }
                    assert(trim_left(w, |c: char| is_space(c)) == w);
                    assert(!is_space(w[w.len() - 1]));
                    assert(trim(w) == w);
                }
            }
        }
    }
}

/// The words of four numbers in quotes.
proof fn lemma_quoted_row(b: Seq<char>, c: Seq<char>, d: Seq<char>)
    requires
        is_word(b),
        is_word(c),
        is_word(d),
        d.last() != '"',
    ensures
        words(trim_char(trim(" \""@ + row("0"@, b, c, d) + "\""@), '"')) == seq!["0"@, b, c, d],
{
    reveal_strlit("0");
    reveal_strlit(" ");
    let s = row("0"@, b, c, d);
    assert(s[0] == '0');
    assert(s.last() == d.last());
    lemma_unquoted(s);
    lemma_row("0"@, b, c, d);
}

proof fn lemma_edge_words(p: Seq<Seq<char>>)
    requires
        forall|i: int| 0 <= i < p.len() ==> is_word(#[trigger] p[i]),
    ensures
        is_word(word_or(p, 1, "0"@)),
        is_word(word_or(p, 3, word_or(p, 1, "0"@))),
{
    reveal_strlit("0");
    assert(is_word("0"@));
}

/// A line with side margins of zero stays as it is, where the widths of the papers stay as they are and its
/// upper edge ends in no quotation mark.
pub proof fn lemma_margin_line_twice(line: Seq<char>, l: Seq<Seq<char>>, m: Seq<Seq<char>>)
    requires
        forall|n: Seq<char>| #[trigger] paper_width(m, n) == paper_width(l, n),
        upper_edge(line, l) matches Some(t) ==> t.last() != '"',
    ensures
        margin_line(margin_line(line, l), m) == margin_line(line, l),
{
    let z = margin_line(line, l);
    if upper_edge(line, l) is Some {
        let area = match after_prefix(line, "*ImageableArea "@) {
            Some(rest) => match split_once(rest, ':') {
                Some((name, vals)) => paper_width(l, trim(name)) is Some,
                None => false,
            },
            None => false,
        };
        if area {
            lemma_area_twice(line, l, m);
        } else {
            lemma_hw_twice(line, l, m);
        }
    } else {
        assert(z == line);
        if let Some(rest) = after_prefix(line, "*ImageableArea "@) {
            if let Some((name, vals)) = split_once(rest, ':') {
                assert(paper_width(m, trim(name)) == paper_width(l, trim(name)));
            }
        }
    }
}

proof fn lemma_after(a: Seq<char>, b: Seq<char>)
    ensures
        after_prefix(a + b, a) == Some(b),
{
    assert((a + b).subrange(0, a.len() as int) =~= a);
    assert((a + b).skip(a.len() as int) =~= b);
}

proof fn lemma_area_twice(line: Seq<char>, l: Seq<Seq<char>>, m: Seq<Seq<char>>)
    requires
        forall|n: Seq<char>| #[trigger] paper_width(m, n) == paper_width(l, n),
        after_prefix(line, "*ImageableArea "@) is Some,
        split_once(after_prefix(line, "*ImageableArea "@)->0, ':') matches Some((name, _))
            && paper_width(l, trim(name)) is Some,
        upper_edge(line, l) matches Some(t) && t.last() != '"',
    ensures
        margin_line(margin_line(line, l), m) == margin_line(line, l),
{
    let z = margin_line(line, l);
    let rest = after_prefix(line, "*ImageableArea "@)->0;
    let (name, vals) = split_once(rest, ':')->0;
    let n = trim(name);
    let w = paper_width(l, n)->0;
    let p = words(trim_char(trim(vals), '"'));
    let lly = word_or(p, 1, "0"@);
    let ury = word_or(p, 3, lly);
    lemma_words_are_words(trim_char(trim(vals), '"'));
    lemma_edge_words(p);
    lemma_width_is_word(l, n);
    lemma_find_char(rest, ':');
    assert forall|i: int| 0 <= i < name.len() implies #[trigger] name[i] != ':' by {
        assert(name[i] == rest[i]);
    }
    lemma_trim_ends(name, ':');
    reveal_strlit("*ImageableArea ");
    reveal_strlit(": \"0 ");
    reveal_strlit(" \"");
    reveal_strlit("\"");
    reveal_strlit("0");
    reveal_strlit(" ");
    let tail = " \""@ + row("0"@, lly, w, ury) + "\""@;
    let after = n + seq![':'] + tail;
    assert(z =~= "*ImageableArea "@ + after);
    lemma_after("*ImageableArea "@, after);
    assert(after[n.len() as int] == ':');
    assert forall|i: int| 0 <= i < n.len() implies after[i] != ':' by {
        assert(after[i] == n[i]);
    }
    lemma_find_char_is(after, ':', n.len() as int);
    assert(after.take(n.len() as int) =~= n);
    assert(after.skip(n.len() as int + 1) =~= tail);
    assert(split_once(after, ':') == Some((n, tail)));
    assert(paper_width(m, n) == Some(w));
    lemma_quoted_row(lly, w, ury);
    let q = words(trim_char(trim(tail), '"'));
    assert(word_or(q, 1, "0"@) == lly);
    assert(word_or(q, 3, lly) == ury);
}

proof fn lemma_hw_twice(line: Seq<char>, l: Seq<Seq<char>>, m: Seq<Seq<char>>)
    requires
        after_prefix(line, "*HWMargins:"@) is Some,
        upper_edge(line, l) matches Some(t) && t.last() != '"',
    ensures
        margin_line(margin_line(line, l), m) == margin_line(line, l),
{
    let z = margin_line(line, l);
    let rest = after_prefix(line, "*HWMargins:"@)->0;
    let p = words(trim_char(trim(rest), '"'));
    let b = word_or(p, 1, "0"@);
    let t = word_or(p, 3, b);
    lemma_words_are_words(trim_char(trim(rest), '"'));
    lemma_edge_words(p);
    reveal_strlit("*ImageableArea ");
    reveal_strlit("*HWMargins:");
    reveal_strlit("*HWMargins: \"0 ");
    reveal_strlit(" 0 ");
    reveal_strlit(" \"");
    reveal_strlit("\"");
    reveal_strlit("0");
    reveal_strlit(" ");
    assert(is_word("0"@));
    if starts_with(line, "*ImageableArea "@) {
        assert(line.subrange(0, 15)[1] == 'I');
        assert(line.subrange(0, 11)[1] == 'H');
    }
    let tail = " \""@ + row("0"@, b, "0"@, t) + "\""@;
    assert(z =~= "*HWMargins:"@ + tail);
    lemma_after("*HWMargins:"@, tail);
    assert(z[1] == 'H');
    if starts_with(z, "*ImageableArea "@) {
        assert(z.subrange(0, 15)[1] == 'I');
    }
    lemma_quoted_row(b, "0"@, t);
    let q = words(trim_char(trim(tail), '"'));
    assert(word_or(q, 1, "0"@) == b);
    assert(word_or(q, 3, b) == t);
}

} // verus!
