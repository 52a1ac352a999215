//! What trimming, splitting, replacing and numbers in texts come to.

use vstd::prelude::*;

use crate::text::{
    contains, dec, dec_int, digit, find_char, hex2, hex_value, is_digit, is_hex, is_space,
    lemma_dec_reads_back, lemma_find_char, lemma_find_char_is, lines, lower, lower_char, occurs_at, parse_dec,
    parse_hex, replace, split, starts_with, trim, trim_left, trim_right, upper, upper_char, word_len, words,
};

verus! {

// ------------------------------------------------------------------ white space

proof fn lemma_left(s: Seq<char>, p: spec_fn(char) -> bool) -> (k: int)
    ensures
        0 <= k <= s.len(),
        trim_left(s, p) == s.skip(k),
        forall|i: int| 0 <= i < k ==> p(#[trigger] s[i]),
        k < s.len() ==> !p(s[k]),
    decreases s.len(),
{
    if s.len() > 0 && p(s[0]) {
        let t = s.skip(1);
        let k = lemma_left(t, p);
        assert(t.skip(k) =~= s.skip(k + 1));
        assert forall|i: int| 0 <= i < k + 1 implies p(#[trigger] s[i]) by {
            if i > 0 {
                assert(s[i] == t[i - 1]);
            }
        }
        k + 1
    } else {
        assert(s.skip(0) =~= s);
        0
    }
}

proof fn lemma_right(s: Seq<char>, p: spec_fn(char) -> bool) -> (k: int)
    ensures
        0 <= k <= s.len(),
        trim_right(s, p) == s.take(k),
        forall|i: int| k <= i < s.len() ==> p(#[trigger] s[i]),
        k > 0 ==> !p(s[k - 1]),
    decreases s.len(),
{
    if s.len() > 0 && p(s.last()) {
        let t = s.drop_last();
        let k = lemma_right(t, p);
        assert(t.take(k) =~= s.take(k));
        assert forall|i: int| k <= i < s.len() implies p(#[trigger] s[i]) by {
            if i < t.len() {
                assert(s[i] == t[i]);
            }
        }
        if k > 0 {
            assert(t[k - 1] == s[k - 1]);
        }
        k
    } else {
        assert(s.take(s.len() as int) =~= s);
        s.len() as int
    }
}

/// Trimming keeps the part from the first to the last character that is no white space, and takes nothing but
/// white space off.
pub proof fn lemma_trimmed(s: Seq<char>) -> (r: (int, int))
    ensures
        0 <= r.0 <= r.1 <= s.len(),
        trim(s) == s.subrange(r.0, r.1),
        forall|i: int| 0 <= i < r.0 || r.1 <= i < s.len() ==> is_space(#[trigger] s[i]),
        trim(s).len() > 0 ==> !is_space(trim(s)[0]) && !is_space(trim(s).last()),
{
    let p = |c: char| is_space(c);
    let a = lemma_left(s, p);
    let t = s.skip(a);
    let k = lemma_right(t, p);
    assert(t.take(k) =~= s.subrange(a, a + k));
    assert forall|i: int| 0 <= i < a || a + k <= i < s.len() implies is_space(#[trigger] s[i]) by {
        if i < a {
            assert(p(s[i]));
        } else {
            assert(t[i - a] == s[i]);
            assert(p(t[i - a]));
        }
    }
    if k > 0 {
        assert(!p(t[k - 1]));
        assert(trim(s).last() == t[k - 1]);
        assert(trim(s)[0] == s[a]);
        assert(!p(s[a]));
    }
    (a, a + k)
}

// ------------------------------------------------------------------ case

/// Case changes nothing but letters, and each way undoes the other's.
pub proof fn lemma_case(s: Seq<char>)
    ensures
        lower(s).len() == s.len(),
        lower(upper(s)) == lower(s),
        upper(lower(s)) == upper(s),
        forall|i: int|
            0 <= i < s.len() && !('A' <= #[trigger] s[i] <= 'Z') ==> lower(s)[i] == s[i],
        forall|i: int| 0 <= i < s.len() ==> !('A' <= #[trigger] lower(s)[i] <= 'Z'),
        lower_char('A') == 'a' && lower_char('Z') == 'z' && upper_char('a') == 'A' && upper_char('z') == 'Z',
{
    assert(lower(upper(s)) =~= lower(s));
    assert(upper(lower(s)) =~= upper(s));
}

// ------------------------------------------------------------------ numbers

/// A number in decimal is read back as that number, and has no zero before it.
pub proof fn lemma_numbers(n: nat, max: nat)
    ensures
        n <= max ==> parse_dec(dec(n), max) == Some(n),
        n > max ==> parse_dec(dec(n), max) is None,
        n >= 10 ==> dec(n)[0] != '0' && dec(n).len() > 1,
        n < 10 ==> dec(n).len() == 1,
    decreases n,
{
    lemma_dec_reads_back(n);
    assert(is_digit(dec(n)[0]));
    if n >= 10 {
        lemma_numbers(n / 10, max);
        assert(dec(n)[0] == dec(n / 10)[0]);
        if n < 100 {
            assert(dec(n / 10) =~= seq![digit((n / 10) as int)]);
        }
    }
}

/// A byte in hexadecimal is two digits, which tell it apart from every other.
pub proof fn lemma_hex_bytes(a: u8, b: u8)
    ensures
        hex2(a).len() == 2,
        is_hex(hex2(a)[0]) && is_hex(hex2(a)[1]),
        hex2(a) == hex2(b) ==> a == b,
        hex2(0x5D) == seq!['5', 'D'],
{
    assert(hex2(a)[0] == hex2(b)[0] && hex2(a)[1] == hex2(b)[1] ==> a / 16 == b / 16 && a % 16 == b % 16);
    assert(hex2(0x5D) =~= seq!['5', 'D']);
}

// ------------------------------------------------------------------ parts

/// The parts with `c` between them.
pub open spec fn joined_by(parts: Seq<Seq<char>>, c: char) -> Seq<char>
    decreases parts.len(),
{
    if parts.len() == 0 {
        Seq::empty()
    } else if parts.len() == 1 {
        parts[0]
    } else {
        parts[0].push(c) + joined_by(parts.skip(1), c)
    }
}

/// The parts of a text are what stands between the characters that it is split at: put together again they are
/// the text, and none of them has such a character.
pub proof fn lemma_parts(s: Seq<char>, c: char)
    ensures
        split(s, c).len() >= 1,
        joined_by(split(s, c), c) == s,
        forall|i: int| 0 <= i < split(s, c).len() ==> !(#[trigger] split(s, c)[i]).contains(c),
    decreases s.len(),
{
    lemma_find_char(s, c);
    match find_char(s, c) {
        Some(k) => {
            let rest = s.skip(k + 1);
            lemma_parts(rest, c);
            let p = split(s, c);
            assert(p.skip(1) =~= split(rest, c));
            assert(joined_by(p, c) =~= s);
            assert forall|i: int| 0 <= i < p.len() implies !(#[trigger] p[i]).contains(c) by {
                if i == 0 {
                    assert(p[0] == s.take(k));
                } else {
                    assert(p[i] == split(rest, c)[i - 1]);
                }
            }
        },
        None => {
            assert(split(s, c)[0] == s);
        },
    }
}

/// Where a text stands nowhere, nothing is replaced; where it stands in front, it is replaced there.
pub proof fn lemma_replaced(s: Seq<char>, from: Seq<char>, to: Seq<char>)
    requires
        from.len() > 0,
    ensures
        !contains(s, from) ==> replace(s, from, to) == s,
        replace(from + s, from, to) == to + replace(s, from, to),
    decreases s.len(),
{
    let t = from + s;
    assert(t.subrange(0, from.len() as int) =~= from);
    assert(starts_with(t, from));
    assert(t.skip(from.len() as int) =~= s);
    if !contains(s, from) && s.len() >= from.len() {
        assert(!occurs_at(s, from, 0));
        let rest = s.skip(1);
        assert(!contains(rest, from)) by {
            if contains(rest, from) {
                let i = choose|i: int| occurs_at(rest, from, i);
                assert(rest.subrange(i, i + from.len()) =~= s.subrange(i + 1, i + 1 + from.len()));
                assert(occurs_at(s, from, i + 1));
            }
        }
        lemma_replaced(rest, from, to);
        assert(seq![s[0]] + rest =~= s);
    }
}

// ------------------------------------------------------------------ lines and words

/// A line and a line feed in front of a text are its first line, without the carriage return that may end it.
pub proof fn lemma_first_line(l: Seq<char>, s: Seq<char>)
    requires
        forall|i: int| 0 <= i < l.len() ==> #[trigger] l[i] != '\n' && l[i] != '\r',
    ensures
        lines(l.push('\n') + s) == seq![l] + lines(s),
        lines(l.push('\r').push('\n') + s) == seq![l] + lines(s),
        lines(l) == if l.len() == 0 {
            Seq::<Seq<char>>::empty()
        } else {
            seq![l]
        },
{
    let a = l.push('\n') + s;
    lemma_find_char_is(a, '\n', l.len() as int);
    assert(a.take(l.len() as int) =~= l);
    assert(a.skip(l.len() as int + 1) =~= s);
    if l.len() > 0 {
        assert(l[l.len() - 1] != '\r');
    }
    let b = l.push('\r').push('\n') + s;
    let k = l.len() as int + 1;
    assert forall|j: int| 0 <= j < k implies b[j] != '\n' by {
        if j < l.len() {
            assert(b[j] == l[j]);
        }
    }
    lemma_find_char_is(b, '\n', k);
    assert(b.take(k) =~= l.push('\r'));
    assert(l.push('\r').drop_last() =~= l);
    assert(b.skip(k + 1) =~= s);
    lemma_find_char(l, '\n');
}

proof fn lemma_word_len_is(s: Seq<char>, k: int)
    requires
        0 <= k <= s.len(),
        forall|i: int| 0 <= i < k ==> !is_space(#[trigger] s[i]),
        k < s.len() ==> is_space(s[k]),
    ensures
        word_len(s) == k,
    decreases s.len(),
{
    if k > 0 {
        assert(!is_space(s[0]));
        let t = s.skip(1);
        assert forall|i: int| 0 <= i < k - 1 implies !is_space(#[trigger] t[i]) by {
            assert(t[i] == s[i + 1]);
        }
        lemma_word_len_is(t, k - 1);
    }
}

/// A word and white space in front of a text are its first word; white space alone is none.
pub proof fn lemma_first_word(w: Seq<char>, c: char, s: Seq<char>)
    requires
        w.len() > 0,
        forall|i: int| 0 <= i < w.len() ==> !is_space(#[trigger] w[i]),
        is_space(c),
    ensures
        words(w.push(c) + s) == seq![w] + words(s.insert(0, c)),
        words(Seq::empty()) == Seq::<Seq<char>>::empty(),
{
    let t = w.push(c) + s;
    let p = |x: char| is_space(x);
    assert(t[0] == w[0]);
    assert(!is_space(t[0]));
    assert(trim_left(t, p) == t);
    assert forall|i: int| 0 <= i < w.len() implies !is_space(#[trigger] t[i]) by {
        assert(t[i] == w[i]);
    }
    lemma_word_len_is(t, w.len() as int);
    assert(t.take(w.len() as int) =~= w);
    assert(t.skip(w.len() as int) =~= s.insert(0, c));
    assert(trim_left(Seq::<char>::empty(), p) == Seq::<char>::empty());
}

/// A byte that is written in hexadecimal is read as that byte.
pub proof fn lemma_hex_reads_back(b: u8)
    ensures
        parse_hex(hex2(b), 255) == Some(b as nat),
{
    let s = hex2(b);
    assert(s.len() == 2);
    assert(s.drop_last() =~= seq![s[0]]);
    assert(seq![s[0]].drop_last() =~= Seq::<char>::empty());
    assert(s.last() == s[1] && seq![s[0]].last() == s[0]);
    reveal_with_fuel(hex_value, 3);
    assert(is_hex(s[0]) && is_hex(s[1]));
}

/// A number below zero is that number with a dash.
pub proof fn lemma_signed_numbers(n: int)
    ensures
        n >= 0 ==> dec_int(n) == dec(n as nat),
        n < 0 ==> dec_int(n) == seq!['-'] + dec((-n) as nat),
{
    reveal_strlit("-");
    assert("-"@ =~= seq!['-']);
}

} // verus!
