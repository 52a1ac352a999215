//! Text over sequences of characters: the string operations that the rest of the crate is stated
//! in, each with its executable counterpart.

use vstd::prelude::*;
use vstd::utf8::{char_is_scalar, encode_utf8};
use vstd::slice::slice_subrange;

verus! {

/// `String::push`: appends one character.
pub assume_specification[ String::push ](s: &mut String, c: char)
    ensures
        final(s)@ == old(s)@.push(c),
;

/// `String::push_str`: appends a string slice.
pub assume_specification[ String::push_str ](s: &mut String, t: &str)
    ensures
        final(s)@ == old(s)@ + t@,
;

// ------------------------------------------------------------------ conversion

/// The characters of `s`, in order.
pub fn chars_of(s: &str) -> (r: Vec<char>)
    ensures
        r@ == s@,
{
    let mut r: Vec<char> = Vec::new();
    for c in it: s.chars()
        invariant
            it.seq() == s@,
            r@ == s@.take(it.index() as int),
    {
        r.push(c);
    }
    r
}

/// The string made of the characters `cs`.
pub fn string_of(cs: &[char]) -> (r: String)
    ensures
        r@ == cs@,
{
    let mut r = String::new();
    let mut i: usize = 0;
    while i < cs.len()
        invariant
            i <= cs.len(),
            r@ == cs@.take(i as int),
        decreases cs.len() - i,
    {
        r.push(cs[i]);
        i += 1;
    }
    r
}


/// Appends the characters `cs` to `out`.
pub fn push_chars(out: &mut String, cs: &[char])
    ensures
        final(out)@ == old(out)@ + cs@,
{
    let mut i: usize = 0;
    while i < cs.len()
        invariant
            i <= cs.len(),
            out@ == old(out)@ + cs@.take(i as int),
        decreases cs.len() - i,
    {
        out.push(cs[i]);
        assert(cs@.take(i as int).push(cs@[i as int]) == cs@.take(i as int + 1));
        i += 1;
    }
    assert(cs@.take(cs@.len() as int) == cs@);
}

/// A copy of the characters `cs`.
pub fn copy_chars(cs: &[char]) -> (r: Vec<char>)
    ensures
        r@ == cs@,
{
    let mut r: Vec<char> = Vec::new();
    let mut i: usize = 0;
    while i < cs.len()
        invariant
            i <= cs.len(),
            r@ == cs@.take(i as int),
        decreases cs.len() - i,
    {
        r.push(cs[i]);
        i += 1;
    }
    r
}

/// An owned copy of a string slice.
pub fn owned(s: &str) -> (r: String)
    ensures
        r@ == s@,
{
    let mut r = String::new();
    r.push_str(s);
    r
}

// ------------------------------------------------------------------ character classes

/// The characters with the Unicode property `White_Space`.
pub open spec fn is_space(c: char) -> bool {
    let u = c as u32;
    ||| 0x09 <= u <= 0x0d
    ||| u == 0x20
    ||| u == 0x85
    ||| u == 0xa0
    ||| u == 0x1680
    ||| 0x2000 <= u <= 0x200a
    ||| u == 0x2028
    ||| u == 0x2029
    ||| u == 0x202f
    ||| u == 0x205f
    ||| u == 0x3000
}

/// Whether `c` is white space.
pub fn char_is_space(c: char) -> (r: bool)
    ensures
        r == is_space(c),
{
    let u: u32 = c as u32;
    (0x09 <= u && u <= 0x0d) || u == 0x20 || u == 0x85 || u == 0xa0 || u == 0x1680 || (0x2000 <= u
        && u <= 0x200a) || u == 0x2028 || u == 0x2029 || u == 0x202f || u == 0x205f || u == 0x3000
}

/// `'0'..='9'`.
pub open spec fn is_digit(c: char) -> bool {
    '0' <= c <= '9'
}

/// ASCII hexadecimal digits of either case.
pub open spec fn is_hex(c: char) -> bool {
    is_digit(c) || 'a' <= c <= 'f' || 'A' <= c <= 'F'
}

/// ASCII letters and digits.
pub open spec fn is_alnum(c: char) -> bool {
    is_digit(c) || 'a' <= c <= 'z' || 'A' <= c <= 'Z'
}

/// Whether `c` is an ASCII digit.
pub fn char_is_digit(c: char) -> (r: bool)
    ensures
        r == is_digit(c),
{
    '0' <= c && c <= '9'
}

/// Whether `c` is an ASCII hexadecimal digit.
pub fn char_is_hex(c: char) -> (r: bool)
    ensures
        r == is_hex(c),
{
    ('0' <= c && c <= '9') || ('a' <= c && c <= 'f') || ('A' <= c && c <= 'F')
}

/// Whether `c` is an ASCII letter or digit.
pub fn char_is_alnum(c: char) -> (r: bool)
    ensures
        r == is_alnum(c),
{
    ('0' <= c && c <= '9') || ('a' <= c && c <= 'z') || ('A' <= c && c <= 'Z')
}

/// `c` with an ASCII capital made small.
pub open spec fn lower_char(c: char) -> char {
    if 'A' <= c <= 'Z' {
        ((c as u8 + 32) as u8) as char
    } else {
        c
    }
}

/// `c` with an ASCII small letter made capital.
pub open spec fn upper_char(c: char) -> char {
    if 'a' <= c <= 'z' {
        ((c as u8 - 32) as u8) as char
    } else {
        c
    }
}

/// `c` with an ASCII capital made small.
pub fn to_lower(c: char) -> (r: char)
    ensures
        r == lower_char(c),
{
    if 'A' <= c && c <= 'Z' {
        (c as u8 + 32) as char
    } else {
        c
    }
}

/// `c` with an ASCII small letter made capital.
pub fn to_upper(c: char) -> (r: char)
    ensures
        r == upper_char(c),
{
    if 'a' <= c && c <= 'z' {
        (c as u8 - 32) as char
    } else {
        c
    }
}

/// `s` with ASCII capitals made small.
pub open spec fn lower(s: Seq<char>) -> Seq<char> {
    Seq::new(s.len(), |i: int| lower_char(s[i]))
}

/// `s` with ASCII small letters made capital.
pub open spec fn upper(s: Seq<char>) -> Seq<char> {
    Seq::new(s.len(), |i: int| upper_char(s[i]))
}

/// `cs` with ASCII capitals made small.
pub fn lower_chars(cs: &[char]) -> (r: Vec<char>)
    ensures
        r@ == lower(cs@),
{
    let mut r: Vec<char> = Vec::new();
    let mut i: usize = 0;
    while i < cs.len()
        invariant
            i <= cs.len(),
            r@ == lower(cs@.take(i as int)),
        decreases cs.len() - i,
    {
        r.push(to_lower(cs[i]));
        i += 1;
        assert(r@ =~= lower(cs@.take(i as int)));
    }
    assert(cs@.take(cs@.len() as int) =~= cs@);
    r
}

/// `cs` with ASCII small letters made capital.
pub fn upper_chars(cs: &[char]) -> (r: Vec<char>)
    ensures
        r@ == upper(cs@),
{
    let mut r: Vec<char> = Vec::new();
    let mut i: usize = 0;
    while i < cs.len()
        invariant
            i <= cs.len(),
            r@ == upper(cs@.take(i as int)),
        decreases cs.len() - i,
    {
        r.push(to_upper(cs[i]));
        i += 1;
        assert(r@ =~= upper(cs@.take(i as int)));
    }
    assert(cs@.take(cs@.len() as int) =~= cs@);
    r
}

// ------------------------------------------------------------------ comparison

/// Whether the two texts hold the same characters.
pub fn same(a: &[char], b: &[char]) -> (r: bool)
    ensures
        r == (a@ == b@),
{
    if a.len() != b.len() {
        return false;
    }
    let mut i: usize = 0;
    while i < a.len()
        invariant
            i <= a.len(),
            a.len() == b.len(),
            forall|j: int| 0 <= j < i ==> a@[j] == b@[j],
        decreases a.len() - i,
    {
        if a[i] != b[i] {
            assert(a@[i as int] != b@[i as int]);
            return false;
        }
        i += 1;
    }
    assert(a@ =~= b@);
    true
}

/// Whether the text is the string `t`.
pub fn is_text(a: &[char], t: &str) -> (r: bool)
    ensures
        r == (a@ == t@),
{
    let b = chars_of(t);
    same(a, b.as_slice())
}

/// Whether two strings hold the same characters.
pub fn same_str(a: &str, b: &str) -> (r: bool)
    ensures
        r == (a@ == b@),
{
    let a = chars_of(a);
    let b = chars_of(b);
    same(a.as_slice(), b.as_slice())
}

/// Equal up to the case of ASCII letters.
pub open spec fn same_fold(a: Seq<char>, b: Seq<char>) -> bool {
    lower(a) == lower(b)
}

/// Whether the two texts are equal up to the case of ASCII letters.
pub fn eq_fold(a: &[char], b: &[char]) -> (r: bool)
    ensures
        r == same_fold(a@, b@),
{
    let a = lower_chars(a);
    let b = lower_chars(b);
    same(a.as_slice(), b.as_slice())
}

/// Whether two strings are equal up to the case of ASCII letters.
pub fn eq_fold_str(a: &str, b: &str) -> (r: bool)
    ensures
        r == same_fold(a@, b@),
{
    let a = chars_of(a);
    let b = chars_of(b);
    eq_fold(a.as_slice(), b.as_slice())
}

/// `p` stands in `s` at position `i`.
pub open spec fn occurs_at(s: Seq<char>, p: Seq<char>, i: int) -> bool {
    0 <= i <= s.len() - p.len() && s.subrange(i, i + p.len()) == p
}

/// `s` begins with `p`.
pub open spec fn starts_with(s: Seq<char>, p: Seq<char>) -> bool {
    occurs_at(s, p, 0)
}

/// `p` stands somewhere in `s`.
pub open spec fn contains(s: Seq<char>, p: Seq<char>) -> bool {
    exists|i: int| occurs_at(s, p, i)
}

/// Whether `p` stands in `s` at position `i`.
pub fn matches_at(s: &[char], p: &[char], i: usize) -> (r: bool)
    ensures
        r == occurs_at(s@, p@, i as int),
{
    if p.len() > s.len() || i > s.len() - p.len() {
        return false;
    }
    let w = slice_subrange(s, i, i + p.len());
    same(w, p)
}

/// Whether `s` begins with `p`.
pub fn has_prefix(s: &[char], p: &str) -> (r: bool)
    ensures
        r == starts_with(s@, p@),
{
    let p = chars_of(p);
    matches_at(s, p.as_slice(), 0)
}

/// What follows the prefix `p` of `s`.
pub open spec fn after_prefix(s: Seq<char>, p: Seq<char>) -> Option<Seq<char>> {
    if starts_with(s, p) {
        Some(s.skip(p.len() as int))
    } else {
        None
    }
}

/// `s` without its prefix `p`, or `None` where it has none.
pub fn strip_prefix<'a>(s: &'a [char], p: &str) -> (r: Option<&'a [char]>)
    ensures
        r is Some == (after_prefix(s@, p@) is Some),
        r is Some ==> r->0@ == after_prefix(s@, p@)->0,
{
    let p = chars_of(p);
    if matches_at(s, p.as_slice(), 0) {
        Some(slice_subrange(s, p.len(), s.len()))
    } else {
        None
    }
}

/// `s` ends with `p`.
pub open spec fn ends_with(s: Seq<char>, p: Seq<char>) -> bool {
    occurs_at(s, p, s.len() - p.len())
}

/// Whether `s` ends with `p`.
pub fn has_suffix(s: &[char], p: &str) -> (r: bool)
    ensures
        r == ends_with(s@, p@),
{
    let p = chars_of(p);
    if p.len() > s.len() {
        return false;
    }
    matches_at(s, p.as_slice(), s.len() - p.len())
}

/// `s` without all prefixes `p` that follow each other at its beginning.
pub open spec fn without_prefixes(s: Seq<char>, p: Seq<char>) -> Seq<char>
    decreases s.len(),
{
    if p.len() > 0 && starts_with(s, p) {
        without_prefixes(s.skip(p.len() as int), p)
    } else {
        s
    }
}

/// `s` without all suffixes `p` that follow each other at its end.
pub open spec fn without_suffixes(s: Seq<char>, p: Seq<char>) -> Seq<char>
    decreases s.len(),
{
    if p.len() > 0 && ends_with(s, p) {
        without_suffixes(s.take(s.len() - p.len()), p)
    } else {
        s
    }
}

/// `s` without all prefixes `p` that follow each other at its beginning.
pub fn strip_prefixes<'a>(s: &'a [char], p: &str) -> (r: &'a [char])
    ensures
        r@ == without_prefixes(s@, p@),
{
    let pre = chars_of(p);
    let mut t: &'a [char] = s;
    if pre.len() == 0 {
        return t;
    }
    while matches_at(t, pre.as_slice(), 0)
        invariant
            pre@ == p@,
            pre@.len() > 0,
            without_prefixes(t@, p@) == without_prefixes(s@, p@),
        decreases t.len(),
    {
        t = slice_subrange(t, pre.len(), t.len());
    }
    t
}

/// `s` without all suffixes `p` that follow each other at its end.
pub fn strip_suffixes<'a>(s: &'a [char], p: &str) -> (r: &'a [char])
    ensures
        r@ == without_suffixes(s@, p@),
{
    let post = chars_of(p);
    let mut t: &'a [char] = s;
    if post.len() == 0 {
        return t;
    }
    while has_suffix(t, p)
        invariant
            post@ == p@,
            post@.len() > 0,
            without_suffixes(t@, p@) == without_suffixes(s@, p@),
        decreases t.len(),
    {
        t = slice_subrange(t, 0, t.len() - post.len());
    }
    t
}

/// Whether `p` stands somewhere in `s`.
pub fn has_sub(s: &[char], p: &[char]) -> (r: bool)
    ensures
        r == contains(s@, p@),
{
    if p.len() > s.len() {
        return false;
    }
    let last: usize = s.len() - p.len();
    let mut i: usize = 0;
    while i < last
        invariant
            i <= last,
            last == s.len() - p.len(),
            forall|j: int| 0 <= j < i ==> !occurs_at(s@, p@, j),
        decreases last - i,
    {
        if matches_at(s, p, i) {
            return true;
        }
        i += 1;
    }
    matches_at(s, p, i)
}

/// Whether the string `p` stands somewhere in `s`.
pub fn has_text(s: &[char], p: &str) -> (r: bool)
    ensures
        r == contains(s@, p@),
{
    let p = chars_of(p);
    has_sub(s, p.as_slice())
}

// ------------------------------------------------------------------ trimming

/// `s` without the leading characters that satisfy `p`.
pub open spec fn trim_left(s: Seq<char>, p: spec_fn(char) -> bool) -> Seq<char>
    decreases s.len(),
{
    if s.len() > 0 && p(s[0]) {
        trim_left(s.skip(1), p)
    } else {
        s
    }
}

/// `s` without the trailing characters that satisfy `p`.
pub open spec fn trim_right(s: Seq<char>, p: spec_fn(char) -> bool) -> Seq<char>
    decreases s.len(),
{
    if s.len() > 0 && p(s.last()) {
        trim_right(s.drop_last(), p)
    } else {
        s
    }
}

/// `s` without leading and trailing white space.
pub open spec fn trim(s: Seq<char>) -> Seq<char> {
    trim_right(trim_left(s, |c: char| is_space(c)), |c: char| is_space(c))
}

/// The predicate that holds of `x` alone.
pub open spec fn only(x: char) -> spec_fn(char) -> bool {
    |c: char| c == x
}

/// `s` without leading and trailing `x`.
pub open spec fn trim_char(s: Seq<char>, x: char) -> Seq<char> {
    trim_right(trim_left(s, only(x)), only(x))
}

/// `s` without leading white space.
pub fn trim_start_chars<'a>(s: &'a [char]) -> (r: &'a [char])
    ensures
        r@ == trim_left(s@, |c: char| is_space(c)),
{
    let ghost p = |c: char| is_space(c);
    let mut i: usize = 0;
    assert(s@.skip(0) == s@);
    while i < s.len() && char_is_space(s[i])
        invariant
            i <= s.len(),
            p == (|c: char| is_space(c)),
            trim_left(s@, p) == trim_left(s@.skip(i as int), p),
        decreases s.len() - i,
    {
        assert(s@.skip(i as int).skip(1) == s@.skip(i as int + 1));
        i += 1;
    }
    let r = slice_subrange(s, i, s.len());
    assert(r@ == s@.skip(i as int));
    r
}

/// `s` without trailing white space.
pub fn trim_end_chars<'a>(s: &'a [char]) -> (r: &'a [char])
    ensures
        r@ == trim_right(s@, |c: char| is_space(c)),
{
    let ghost p = |c: char| is_space(c);
    let mut n: usize = s.len();
    assert(s@.take(n as int) == s@);
    while n > 0 && char_is_space(s[n - 1])
        invariant
            n <= s.len(),
            p == (|c: char| is_space(c)),
            trim_right(s@, p) == trim_right(s@.take(n as int), p),
        decreases n,
    {
        assert(s@.take(n as int).drop_last() == s@.take(n as int - 1));
        n -= 1;
    }
    let r = slice_subrange(s, 0, n);
    assert(r@ == s@.take(n as int));
    r
}

/// `s` without leading and trailing white space.
pub fn trim_chars<'a>(s: &'a [char]) -> (r: &'a [char])
    ensures
        r@ == trim(s@),
{
    trim_end_chars(trim_start_chars(s))
}

/// `s` without leading `x`.
pub fn trim_start_of<'a>(s: &'a [char], x: char) -> (r: &'a [char])
    ensures
        r@ == trim_left(s@, only(x)),
{
    let mut i: usize = 0;
    assert(s@.skip(0) =~= s@);
    while i < s.len() && s[i] == x
        invariant
            i <= s.len(),
            trim_left(s@, only(x)) == trim_left(s@.skip(i as int), only(x)),
        decreases s.len() - i,
    {
        assert(s@.skip(i as int).skip(1) =~= s@.skip(i as int + 1));
        i += 1;
    }
    slice_subrange(s, i, s.len())
}

/// `s` without trailing `x`.
pub fn trim_end_of<'a>(s: &'a [char], x: char) -> (r: &'a [char])
    ensures
        r@ == trim_right(s@, only(x)),
{
    let ghost p = only(x);
    let mut n: usize = s.len();
    assert(s@.take(n as int) == s@);
    while n > 0 && s[n - 1] == x
        invariant
            n <= s.len(),
            p == only(x),
            trim_right(s@, p) == trim_right(s@.take(n as int), p),
        decreases n,
    {
        assert(s@.take(n as int).drop_last() == s@.take(n as int - 1));
        n -= 1;
    }
    let r = slice_subrange(s, 0, n);
    assert(r@ == s@.take(n as int));
    r
}

/// `s` without leading and trailing `x`.
pub fn trim_of<'a>(s: &'a [char], x: char) -> (r: &'a [char])
    ensures
        r@ == trim_char(s@, x),
{
    let ghost p = only(x);
    let mut i: usize = 0;
    assert(s@.skip(0) == s@);
    while i < s.len() && s[i] == x
        invariant
            i <= s.len(),
            p == only(x),
            trim_left(s@, p) == trim_left(s@.skip(i as int), p),
        decreases s.len() - i,
    {
        assert(s@.skip(i as int).skip(1) == s@.skip(i as int + 1));
        i += 1;
    }
    let r = slice_subrange(s, i, s.len());
    assert(r@ == s@.skip(i as int));
    trim_end_of(r, x)
}

/// Trimming keeps a contiguous part, so nothing gets longer.
pub proof fn lemma_trim_len(s: Seq<char>, p: spec_fn(char) -> bool)
    ensures
        trim_left(s, p).len() <= s.len(),
        trim_right(s, p).len() <= s.len(),
    decreases s.len(),
{
    if s.len() > 0 {
        lemma_trim_len(s.skip(1), p);
        lemma_trim_len(s.drop_last(), p);
    }
}

/// Case does not matter to trimming white space.
pub proof fn lemma_trim_case(s: Seq<char>)
    ensures
        trim(upper(s)) == upper(trim(s)),
        trim(lower(s)) == lower(trim(s)),
{
    let p = |c: char| is_space(c);
    lemma_trim_left_case(s);
    lemma_trim_right_case(trim_left(s, p));
}

proof fn lemma_trim_left_case(s: Seq<char>)
    ensures
        trim_left(upper(s), |c: char| is_space(c)) == upper(trim_left(s, |c: char| is_space(c))),
        trim_left(lower(s), |c: char| is_space(c)) == lower(trim_left(s, |c: char| is_space(c))),
    decreases s.len(),
{
    if s.len() > 0 {
        assert(upper(s)[0] == upper_char(s[0]));
        assert(lower(s)[0] == lower_char(s[0]));
        assert(upper(s).skip(1) =~= upper(s.skip(1)));
        assert(lower(s).skip(1) =~= lower(s.skip(1)));
        if is_space(s[0]) {
            lemma_trim_left_case(s.skip(1));
        }
    }
}

proof fn lemma_trim_right_case(s: Seq<char>)
    ensures
        trim_right(upper(s), |c: char| is_space(c)) == upper(trim_right(s, |c: char| is_space(c))),
        trim_right(lower(s), |c: char| is_space(c)) == lower(trim_right(s, |c: char| is_space(c))),
    decreases s.len(),
{
    if s.len() > 0 {
        assert(upper(s).last() == upper_char(s.last()));
        assert(lower(s).last() == lower_char(s.last()));
        assert(upper(s).drop_last() =~= upper(s.drop_last()));
        assert(lower(s).drop_last() =~= lower(s.drop_last()));
        if is_space(s.last()) {
            lemma_trim_right_case(s.drop_last());
        }
    }
}

/// White space around a text does not matter to trimming it.
pub proof fn lemma_trim_around(a: char, s: Seq<char>, b: char)
    requires
        is_space(a),
        is_space(b),
    ensures
        trim(seq![a] + s + seq![b]) == trim(s),
{
    let p = |c: char| is_space(c);
    let t = seq![a] + s + seq![b];
    assert(t.skip(1) =~= s.push(b));
    assert(trim_left(t, p) == trim_left(s.push(b), p));
    lemma_trim_left_push(s, b);
    let u = trim_left(s, p);
    if u.len() > 0 {
        assert(u.push(b).drop_last() =~= u);
    } else {
        assert(trim_right(u, p) =~= u);
        assert(trim_left(s.push(b), p).len() == 0);
        assert(u =~= trim_left(s.push(b), p));
    }
}

proof fn lemma_trim_left_push(s: Seq<char>, b: char)
    requires
        is_space(b),
    ensures
        ({
            let u = trim_left(s, |c: char| is_space(c));
            trim_left(s.push(b), |c: char| is_space(c)) == if u.len() > 0 {
                u.push(b)
            } else {
                Seq::empty()
            }
        }),
    decreases s.len(),
{
    let p = |c: char| is_space(c);
    if s.len() == 0 {
        assert(s.push(b).skip(1) =~= Seq::<char>::empty());
        assert(trim_left(s.push(b), p) == trim_left(s.push(b).skip(1), p));
    } else if is_space(s[0]) {
        assert(s.push(b).skip(1) =~= s.skip(1).push(b));
        lemma_trim_left_push(s.skip(1), b);
    }
}

// ------------------------------------------------------------------ searching and splitting

/// The position of the first `c` in `s`.
pub open spec fn find_char(s: Seq<char>, c: char) -> Option<int>
    decreases s.len(),
{
    if s.len() == 0 {
        None
    } else if s[0] == c {
        Some(0)
    } else {
        match find_char(s.skip(1), c) {
            Some(k) => Some(k + 1),
            None => None,
        }
    }
}

/// `find_char` finds the first occurrence, and misses only where there is none.
pub proof fn lemma_find_char(s: Seq<char>, c: char)
    ensures
        match find_char(s, c) {
            Some(k) => 0 <= k < s.len() && s[k] == c && forall|j: int| 0 <= j < k ==> s[j] != c,
            None => forall|j: int| 0 <= j < s.len() ==> s[j] != c,
        },
    decreases s.len(),
{
    if s.len() > 0 && s[0] != c {
        let t = s.skip(1);
        lemma_find_char(t, c);
        assert forall|j: int| 0 < j < s.len() implies s[j] == t[j - 1] by {}
    }
}

/// A position with nothing before it is what `find_char` finds.
pub proof fn lemma_find_char_is(s: Seq<char>, c: char, k: int)
    requires
        0 <= k < s.len(),
        s[k] == c,
        forall|j: int| 0 <= j < k ==> s[j] != c,
    ensures
        find_char(s, c) == Some(k),
{
    lemma_find_char(s, c);
}

/// The position of the first `c` in `s`.
pub fn index_of(s: &[char], c: char) -> (r: Option<usize>)
    ensures
        match r {
            Some(k) => find_char(s@, c) == Some(k as int) && k < s.len(),
            None => find_char(s@, c) is None,
        },
{
    let mut i: usize = 0;
    while i < s.len()
        invariant
            i <= s.len(),
            forall|j: int| 0 <= j < i ==> s@[j] != c,
        decreases s.len() - i,
    {
        if s[i] == c {
            proof {
                lemma_find_char_is(s@, c, i as int);
            }
            return Some(i);
        }
        i += 1;
    }
    proof {
        lemma_find_char(s@, c);
    }
    None
}

/// `s` cut at the first `c`: what stands before it and what stands after.
pub open spec fn split_once(s: Seq<char>, c: char) -> Option<(Seq<char>, Seq<char>)> {
    match find_char(s, c) {
        Some(k) => Some((s.take(k), s.skip(k + 1))),
        None => None,
    }
}

/// `s` cut at the first `c`.
pub fn cut<'a>(s: &'a [char], c: char) -> (r: Option<(&'a [char], &'a [char])>)
    ensures
        match r {
            Some((a, b)) => split_once(s@, c) == Some((a@, b@)),
            None => split_once(s@, c) is None,
        },
{
    match index_of(s, c) {
        Some(k) => {
            let a = slice_subrange(s, 0, k);
            let b = slice_subrange(s, k + 1, s.len());
            assert(a@ == s@.take(k as int));
            assert(b@ == s@.skip(k as int + 1));
            Some((a, b))
        },
        None => None,
    }
}

/// The views of a list of texts.
pub open spec fn texts(v: Seq<Vec<char>>) -> Seq<Seq<char>> {
    Seq::new(v.len(), |i: int| v[i]@)
}

/// The parts of `s` between the characters `c`; at least one.
pub open spec fn split(s: Seq<char>, c: char) -> Seq<Seq<char>>
    decreases s.len(),
    via split_decreases
{
    match find_char(s, c) {
        Some(k) => seq![s.take(k)] + split(s.skip(k + 1), c),
        None => seq![s],
    }
}

#[via_fn]
proof fn split_decreases(s: Seq<char>, c: char) {
    lemma_find_char(s, c);
}

/// The parts of `s` between the characters `c`.
pub fn split_on(s: &[char], c: char) -> (r: Vec<Vec<char>>)
    ensures
        texts(r@) == split(s@, c),
{
    let mut out: Vec<Vec<char>> = Vec::new();
    let mut rest: &[char] = s;
    loop
        invariant
            split(s@, c) == texts(out@) + split(rest@, c),
        decreases rest.len(),
    {
        let ghost before = out@;
        match cut(rest, c) {
            Some((a, b)) => {
                proof {
                    lemma_find_char(rest@, c);
                }
                out.push(copy_chars(a));
                assert(texts(out@) == texts(before).push(a@));
                assert(texts(before) + (seq![a@] + split(b@, c)) == texts(out@) + split(b@, c));
                rest = b;
            },
            None => {
                out.push(copy_chars(rest));
                assert(texts(out@) == texts(before).push(rest@));
                return out;
            },
        }
    }
}

/// `s` without one trailing carriage return.
pub open spec fn strip_cr(s: Seq<char>) -> Seq<char> {
    if s.len() > 0 && s.last() == '\r' {
        s.drop_last()
    } else {
        s
    }
}

/// The lines of `s`: each ends at a line feed or at the end of the text; a carriage return
/// before the line feed belongs to the line end.
pub open spec fn lines(s: Seq<char>) -> Seq<Seq<char>>
    decreases s.len(),
    via lines_decreases
{
    if s.len() == 0 {
        Seq::empty()
    } else {
        match find_char(s, '\n') {
            Some(k) => seq![strip_cr(s.take(k))] + lines(s.skip(k + 1)),
            None => seq![s],
        }
    }
}

#[via_fn]
proof fn lines_decreases(s: Seq<char>) {
    lemma_find_char(s, '\n');
}

/// The lines of `s`.
pub fn lines_of(s: &[char]) -> (r: Vec<Vec<char>>)
    ensures
        texts(r@) == lines(s@),
{
    let mut out: Vec<Vec<char>> = Vec::new();
    let mut rest: &[char] = s;
    while rest.len() > 0
        invariant
            lines(s@) == texts(out@) + lines(rest@),
        decreases rest.len(),
    {
        let ghost before = out@;
        match cut(rest, '\n') {
            Some((a, b)) => {
                proof {
                    lemma_find_char(rest@, '\n');
                }
                let mut line = copy_chars(a);
                if line.len() > 0 && line[line.len() - 1] == '\r' {
                    let _ = line.pop();
                }
                assert(line@ == strip_cr(a@));
                out.push(line);
                assert(texts(out@) == texts(before).push(strip_cr(a@)));
                assert(texts(before) + (seq![strip_cr(a@)] + lines(b@)) == texts(out@) + lines(b@));
                rest = b;
            },
            None => {
                out.push(copy_chars(rest));
                assert(texts(out@) == texts(before).push(rest@));
                assert(texts(before) + seq![rest@] == texts(out@));
                return out;
            },
        }
    }
    assert(texts(out@) + Seq::<Seq<char>>::empty() == texts(out@));
    out
}

/// The number of characters before the first white space.
pub open spec fn word_len(s: Seq<char>) -> nat
    decreases s.len(),
{
    if s.len() == 0 || is_space(s[0]) {
        0
    } else {
        1 + word_len(s.skip(1))
    }
}

/// A word ends within its text.
pub proof fn lemma_word_len(s: Seq<char>)
    ensures
        word_len(s) <= s.len(),
    decreases s.len(),
{
    if s.len() > 0 && !is_space(s[0]) {
        lemma_word_len(s.skip(1));
    }
}

/// The words of `s`: its longest parts without white space.
pub open spec fn words(s: Seq<char>) -> Seq<Seq<char>>
    decreases s.len(),
    via words_decreases
{
    let t = trim_left(s, |c: char| is_space(c));
    if t.len() == 0 {
        Seq::empty()
    } else {
        seq![t.take(word_len(t) as int)] + words(t.skip(word_len(t) as int))
    }
}

#[via_fn]
proof fn words_decreases(s: Seq<char>) {
    let t = trim_left(s, |c: char| is_space(c));
    lemma_trim_len(s, |c: char| is_space(c));
    lemma_word_len(t);
    lemma_trim_left_head(s, |c: char| is_space(c));
}

/// What is left of a left trim does not begin with a trimmed character.
pub proof fn lemma_trim_left_head(s: Seq<char>, p: spec_fn(char) -> bool)
    ensures
        trim_left(s, p).len() > 0 ==> !p(trim_left(s, p)[0]),
    decreases s.len(),
{
    if s.len() > 0 && p(s[0]) {
        lemma_trim_left_head(s.skip(1), p);
    }
}

/// The words of `s`.
pub fn words_of(s: &[char]) -> (r: Vec<Vec<char>>)
    ensures
        texts(r@) == words(s@),
{
    let mut out: Vec<Vec<char>> = Vec::new();
    let mut rest: &[char] = trim_start_chars(s);
    proof {
        lemma_trim_idempotent(s@, |c: char| is_space(c));
    }
    while rest.len() > 0
        invariant
            words(s@) == texts(out@) + words(rest@),
            trim_left(rest@, |c: char| is_space(c)) == rest@,
        decreases rest.len(),
    {
        let ghost before = out@;
        let mut n: usize = 0;
        assert(rest@.skip(0) == rest@);
        while n < rest.len() && !char_is_space(rest[n])
            invariant
                n <= rest.len(),
                word_len(rest@) == n + word_len(rest@.skip(n as int)),
            decreases rest.len() - n,
        {
            assert(rest@.skip(n as int).skip(1) == rest@.skip(n as int + 1));
            n += 1;
        }
        assert(word_len(rest@) == n);
        let w = slice_subrange(rest, 0, n);
        let tail = slice_subrange(rest, n, rest.len());
        assert(w@ == rest@.take(n as int));
        assert(tail@ == rest@.skip(n as int));
        out.push(copy_chars(w));
        assert(texts(out@) == texts(before).push(w@));
        assert(texts(before) + (seq![w@] + words(tail@)) == texts(out@) + words(tail@));
        proof {
            lemma_trim_left_head(rest@, |c: char| is_space(c));
            lemma_trim_idempotent(tail@, |c: char| is_space(c));
            lemma_trim_len(tail@, |c: char| is_space(c));
            assert(n > 0) by {
                lemma_trim_left_head(rest@, |c: char| is_space(c));
            }
        }
        rest = trim_start_chars(tail);
    }
    assert(texts(out@) + Seq::<Seq<char>>::empty() == texts(out@));
    out
}

/// Trimming on the left twice is trimming once, and does not change the words.
pub proof fn lemma_trim_idempotent(s: Seq<char>, p: spec_fn(char) -> bool)
    ensures
        trim_left(trim_left(s, p), p) == trim_left(s, p),
        p == (|c: char| is_space(c)) ==> words(trim_left(s, p)) == words(s),
    decreases s.len(),
{
    if s.len() > 0 && p(s[0]) {
        lemma_trim_idempotent(s.skip(1), p);
    }
}

// ------------------------------------------------------------------ replacing

/// `s` with every occurrence of `from`, taken from the left without overlap, turned into `to`.
pub open spec fn replace(s: Seq<char>, from: Seq<char>, to: Seq<char>) -> Seq<char>
    decreases s.len(),
{
    if from.len() == 0 || s.len() < from.len() {
        s
    } else if starts_with(s, from) {
        to + replace(s.skip(from.len() as int), from, to)
    } else {
        seq![s[0]] + replace(s.skip(1), from, to)
    }
}

/// `s` with every occurrence of `from` turned into `to`.
pub fn replace_text(s: &[char], from: &str, to: &str) -> (r: Vec<char>)
    requires
        from@.len() > 0,
    ensures
        r@ == replace(s@, from@, to@),
{
    let f = chars_of(from);
    let t = chars_of(to);
    let mut out: Vec<char> = Vec::new();
    let mut i: usize = 0;
    assert(s@.skip(0) == s@);
    while i < s.len() && f.len() <= s.len() - i
        invariant
            i <= s.len(),
            f@ == from@,
            t@ == to@,
            f@.len() > 0,
            replace(s@, from@, to@) == out@ + replace(s@.skip(i as int), from@, to@),
        decreases s.len() - i,
    {
        let ghost rest = s@.skip(i as int);
        let ghost before = out@;
        if matches_at(s, f.as_slice(), i) {
            assert(s@.subrange(i as int, i as int + f@.len()) == rest.subrange(0, f@.len() as int));
            assert(starts_with(rest, from@));
            let mut k: usize = 0;
            while k < t.len()
                invariant
                    k <= t.len(),
                    out@ == before + t@.take(k as int),
                decreases t.len() - k,
            {
                out.push(t[k]);
                assert(t@.take(k as int).push(t@[k as int]) == t@.take(k as int + 1));
                k += 1;
            }
            assert(t@.take(k as int) == t@);
            assert(rest.skip(from@.len() as int) == s@.skip(i + from@.len()));
            assert(before + (to@ + replace(s@.skip(i + from@.len()), from@, to@)) == out@ + replace(
                s@.skip(i + from@.len()),
                from@,
                to@,
            ));
            i += f.len();
        } else {
            assert(s@.subrange(i as int, i as int + f@.len()) == rest.subrange(0, f@.len() as int));
            assert(!starts_with(rest, from@));
            out.push(s[i]);
            assert(rest.skip(1) == s@.skip(i as int + 1));
            assert(before + (seq![rest[0]] + replace(s@.skip(i as int + 1), from@, to@)) == out@
                + replace(s@.skip(i as int + 1), from@, to@));
            i += 1;
        }
    }
    let ghost base = out@;
    let ghost start = i as int;
    while i < s.len()
        invariant
            0 <= start <= i <= s.len(),
            out@ == base + s@.subrange(start, i as int),
        decreases s.len() - i,
    {
        out.push(s[i]);
        assert(s@.subrange(start, i as int).push(s@[i as int]) == s@.subrange(start, i as int + 1));
        i += 1;
    }
    assert(s@.subrange(start, s@.len() as int) == s@.skip(start));
    out
}

// ------------------------------------------------------------------ numbers

/// The decimal digit of value `d`.
pub open spec fn digit(d: int) -> char {
    ((48 + d) as u8) as char
}

/// `n` in decimal, without leading zeros.
pub open spec fn dec(n: nat) -> Seq<char>
    decreases n,
{
    if n < 10 {
        seq![digit(n as int)]
    } else {
        dec(n / 10).push(digit((n % 10) as int))
    }
}

/// `n` in decimal, with a minus sign where it is negative.
pub open spec fn dec_int(n: int) -> Seq<char> {
    if n < 0 {
        seq!['-'] + dec((-n) as nat)
    } else {
        dec(n as nat)
    }
}

/// Appends `n` in decimal.
pub fn push_dec(out: &mut String, n: u64)
    ensures
        final(out)@ == old(out)@ + dec(n as nat),
    decreases n,
{
    if n >= 10 {
        push_dec(out, n / 10);
    }
    let d: u8 = (n % 10) as u8;
    out.push((48 + d) as char);
    assert(out@ == old(out)@ + dec(n as nat));
}

/// Appends `n` in decimal, with a minus sign where it is negative.
pub fn push_int(out: &mut String, n: i64)
    ensures
        final(out)@ == old(out)@ + dec_int(n as int),
{
    if n < 0 {
        out.push('-');
        let m: u64 = (-(n as i128)) as u64;
        push_dec(out, m);
        assert(out@ == old(out)@ + dec_int(n as int));
    } else {
        push_dec(out, n as u64);
    }
}

/// The capital hexadecimal digit of value `d`.
pub open spec fn hex_digit(d: int) -> char {
    if d < 10 {
        ((48 + d) as u8) as char
    } else {
        ((55 + d) as u8) as char
    }
}

/// `b` as two capital hexadecimal digits.
pub open spec fn hex2(b: u8) -> Seq<char> {
    seq![hex_digit((b / 16) as int), hex_digit((b % 16) as int)]
}

/// Appends `b` as two capital hexadecimal digits.
pub fn push_hex2(out: &mut String, b: u8)
    ensures
        final(out)@ == old(out)@ + hex2(b),
{
    let hi: u8 = b / 16;
    let lo: u8 = b % 16;
    out.push(if hi < 10 { (48 + hi) as char } else { (55 + hi) as char });
    out.push(if lo < 10 { (48 + lo) as char } else { (55 + lo) as char });
    assert(out@ == old(out)@ + hex2(b));
}

/// Every character of `s` is a decimal digit.
pub open spec fn all_digits(s: Seq<char>) -> bool {
    forall|i: int| 0 <= i < s.len() ==> is_digit(s[i])
}

/// The number that a row of decimal digits stands for.
pub open spec fn dec_value(s: Seq<char>) -> nat
    decreases s.len(),
{
    if s.len() == 0 {
        0
    } else {
        (10 * dec_value(s.drop_last()) + (s.last() as u32 - 48)) as nat
    }
}

/// An unsigned decimal number of at most `max`: digits, after a plus sign or not.
pub open spec fn parse_dec(s: Seq<char>, max: nat) -> Option<nat> {
    let d = if s.len() > 1 && s[0] == '+' {
        s.skip(1)
    } else {
        s
    };
    if d.len() > 0 && all_digits(d) && dec_value(d) <= max {
        Some(dec_value(d))
    } else {
        None
    }
}

/// A number in decimal is a row of digits, which stands for it.
pub proof fn lemma_dec_reads_back(n: nat)
    ensures
        dec(n).len() > 0,
        all_digits(dec(n)),
        dec_value(dec(n)) == n,
    decreases n,
{
    if n < 10 {
        let d = dec(n);
        assert(d =~= seq![digit(n as int)]);
        assert(d.drop_last() =~= Seq::<char>::empty());
        assert(d.last() == digit(n as int));
        assert(dec_value(d.drop_last()) == 0);
    } else {
        lemma_dec_reads_back(n / 10);
        let d = dec(n);
        assert(d.drop_last() =~= dec(n / 10));
        assert(d.last() == digit((n % 10) as int));
    }
}

/// More digits make no smaller number.
pub proof fn lemma_dec_value_prefix(s: Seq<char>, k: int)
    requires
        all_digits(s),
        0 <= k <= s.len(),
    ensures
        dec_value(s.take(k)) <= dec_value(s),
    decreases s.len(),
{
    if k == s.len() {
        assert(s.take(k) == s);
    } else {
        lemma_dec_value_prefix(s.drop_last(), k);
        assert(s.drop_last().take(k) == s.take(k));
    }
}

/// The value of a row of digits, if it is at most `max`.
pub fn digits_to(s: &[char], max: u64) -> (r: Option<u64>)
    ensures
        match r {
            Some(n) => s@.len() > 0 && all_digits(s@) && dec_value(s@) == n && n <= max,
            None => s@.len() == 0 || !all_digits(s@) || dec_value(s@) > max,
        },
{
    if s.len() == 0 {
        return None;
    }
    let mut i: usize = 0;
    let mut v: u64 = 0;
    let mut over = false;
    while i < s.len()
        invariant
            i <= s.len(),
            all_digits(s@.take(i as int)),
            !over ==> v == dec_value(s@.take(i as int)) && v <= max,
            over ==> dec_value(s@.take(i as int)) > max,
        decreases s.len() - i,
    {
        let ghost pre = s@.take(i as int);
        assert(s@.take(i as int + 1).drop_last() == pre);
        if !char_is_digit(s[i]) {
            assert(!is_digit(s@[i as int]));
            return None;
        }
        let d: u64 = (s[i] as u32 - 48) as u64;
        if !over {
            let w: u128 = 10 * (v as u128) + d as u128;
            if w > max as u128 {
                over = true;
            } else {
                v = w as u64;
            }
        }
        i += 1;
        assert(all_digits(s@.take(i as int))) by {
            assert forall|j: int| 0 <= j < i implies is_digit(s@.take(i as int)[j]) by {
                if j < i - 1 {
                    assert(is_digit(pre[j]));
                }
            }
        }
    }
    assert(s@.take(s@.len() as int) == s@);
    if over {
        None
    } else {
        Some(v)
    }
}

/// An unsigned decimal number of at most `max`.
pub fn parse_dec_chars(s: &[char], max: u64) -> (r: Option<u64>)
    ensures
        match r {
            Some(n) => parse_dec(s@, max as nat) == Some(n as nat),
            None => parse_dec(s@, max as nat) is None,
        },
{
    if s.len() > 1 && s[0] == '+' {
        let d = slice_subrange(s, 1, s.len());
        assert(d@ == s@.skip(1));
        digits_to(d, max)
    } else {
        digits_to(s, max)
    }
}

// ------------------------------------------------------------------ lengths in UTF-8

/// The bytes that a character takes in UTF-8.
pub open spec fn char_width(c: char) -> nat {
    let u = c as u32;
    if u < 0x80 {
        1
    } else if u < 0x800 {
        2
    } else if u < 0x10000 {
        3
    } else {
        4
    }
}

/// The bytes that a text takes in UTF-8.
pub open spec fn byte_len(s: Seq<char>) -> nat
    decreases s.len(),
{
    if s.len() == 0 {
        0
    } else {
        byte_len(s.drop_last()) + char_width(s.last())
    }
}

/// The bytes that a character takes in UTF-8.
pub fn width_of(c: char) -> (r: usize)
    ensures
        r == char_width(c),
        1 <= r <= 4,
{
    let u: u32 = c as u32;
    if u < 0x80 {
        1
    } else if u < 0x800 {
        2
    } else if u < 0x10000 {
        3
    } else {
        4
    }
}

/// A longer text takes more bytes.
pub proof fn lemma_byte_len_take(s: Seq<char>, i: int, j: int)
    requires
        0 <= i <= j <= s.len(),
    ensures
        byte_len(s.take(i)) <= byte_len(s.take(j)),
        i < j ==> byte_len(s.take(i)) < byte_len(s.take(j)),
    decreases j,
{
    if i < j {
        assert(s.take(j).drop_last() =~= s.take(j - 1));
        lemma_byte_len_take(s, i, j - 1);
    }
}

/// The bytes of a text, by its first character.
proof fn lemma_byte_len_first(s: Seq<char>)
    requires
        s.len() > 0,
    ensures
        byte_len(s) == char_width(s[0]) + byte_len(s.drop_first()),
    decreases s.len(),
{
    if s.len() > 1 {
        lemma_byte_len_first(s.drop_last());
        assert(s.drop_last().drop_first() =~= s.drop_first().drop_last());
    } else {
        assert(byte_len(s.drop_last()) == 0);
        assert(byte_len(s.drop_first()) == 0);
    }
}

/// A text takes as many bytes as its encoding has.
pub proof fn lemma_byte_len_is_utf8(s: Seq<char>)
    ensures
        encode_utf8(s).len() == byte_len(s),
    decreases s.len(),
{
    if s.len() > 0 {
        char_is_scalar(s[0]);
        lemma_byte_len_first(s);
        lemma_byte_len_is_utf8(s.drop_first());
    }
}

/// The bytes that a text takes in UTF-8.
pub fn bytes_in(s: &str) -> (r: usize)
    ensures
        r == byte_len(s@),
{
    proof {
        lemma_byte_len_is_utf8(s@);
    }
    s.as_bytes().len()
}

/// `k` characters are the longest beginning of `s` that takes at most `max` bytes.
pub open spec fn is_longest_within(s: Seq<char>, max: int, k: int) -> bool {
    &&& 0 <= k <= s.len()
    &&& byte_len(s.take(k)) <= max
    &&& k < s.len() ==> byte_len(s.take(k + 1)) > max
}

/// The longest beginning of `s` that takes at most `max` bytes.
pub open spec fn within_bytes(s: Seq<char>, max: int) -> Seq<char> {
    s.take(choose|k: int| is_longest_within(s, max, k))
}

/// There is one longest beginning.
pub proof fn lemma_within_bytes(s: Seq<char>, max: int, k: int)
    requires
        is_longest_within(s, max, k),
    ensures
        within_bytes(s, max) == s.take(k),
        byte_len(within_bytes(s, max)) <= max,
{
    let j = choose|j: int| is_longest_within(s, max, j);
    assert(is_longest_within(s, max, j));
    if j < k {
        lemma_byte_len_take(s, j + 1, k);
    }
    if k < j {
        lemma_byte_len_take(s, k + 1, j);
    }
}

/// A text that fits is its own longest beginning.
pub proof fn lemma_within_all(s: Seq<char>, max: int)
    requires
        byte_len(s) <= max,
    ensures
        within_bytes(s, max) == s,
{
    assert(s.take(s.len() as int) =~= s);
    assert(is_longest_within(s, max, s.len() as int));
    lemma_within_bytes(s, max, s.len() as int);
}

/// The number of characters of the longest beginning of `s` that takes at most `max` bytes.
pub fn count_within(s: &[char], max: usize) -> (k: usize)
    ensures
        is_longest_within(s@, max as int, k as int),
{
    let mut k: usize = 0;
    let mut used: usize = 0;
    assert(s@.take(0) =~= Seq::<char>::empty());
    while k < s.len()
        invariant
            k <= s.len(),
            used == byte_len(s@.take(k as int)),
            used <= max,
        decreases s.len() - k,
    {
        let w: usize = width_of(s[k]);
        assert(s@.take(k as int + 1).drop_last() =~= s@.take(k as int));
        if w > max - used {
            return k;
        }
        used += w;
        k += 1;
    }
    k
}

// ------------------------------------------------------------------ hexadecimal numbers

/// The value of a hexadecimal digit.
pub open spec fn hex_digit_value(c: char) -> nat {
    if '0' <= c <= '9' {
        (c as u8 - '0' as u8) as nat
    } else if 'a' <= c <= 'f' {
        (c as u8 - 'a' as u8 + 10) as nat
    } else {
        (c as u8 - 'A' as u8 + 10) as nat
    }
}

/// Hexadecimal digits only.
pub open spec fn all_hex(s: Seq<char>) -> bool {
    forall|i: int| 0 <= i < s.len() ==> is_hex(#[trigger] s[i])
}

/// The number that hexadecimal digits stand for.
pub open spec fn hex_value(s: Seq<char>) -> nat
    decreases s.len(),
{
    if s.len() == 0 {
        0
    } else {
        16 * hex_value(s.drop_last()) + hex_digit_value(s.last())
    }
}

/// The number that a text stands for in hexadecimal, where it is at most `max`. A plus sign may come
/// first.
pub open spec fn parse_hex(s: Seq<char>, max: nat) -> Option<nat> {
    let d = if s.len() > 1 && s[0] == '+' {
        s.skip(1)
    } else {
        s
    };
    if d.len() > 0 && all_hex(d) && hex_value(d) <= max {
        Some(hex_value(d))
    } else {
        None
    }
}

proof fn lemma_hex_value_prefix(s: Seq<char>, k: int)
    requires
        0 <= k <= s.len(),
    ensures
        hex_value(s.take(k)) <= hex_value(s),
    decreases s.len(),
{
    if k == s.len() {
        assert(s.take(k) =~= s);
    } else {
        lemma_hex_value_prefix(s.drop_last(), k);
        assert(s.drop_last().take(k) =~= s.take(k));
    }
}

fn hex_to(s: &[char], max: u32) -> (r: Option<u32>)
    ensures
        match r {
            Some(n) => s@.len() > 0 && all_hex(s@) && hex_value(s@) <= max && n == hex_value(s@),
            None => !(s@.len() > 0 && all_hex(s@) && hex_value(s@) <= max),
        },
{
    if s.len() == 0 {
        return None;
    }
    let mut n: u64 = 0;
    let mut i: usize = 0;
    assert(s@.take(0) =~= Seq::<char>::empty());
    while i < s.len()
        invariant
            i <= s.len(),
            n == hex_value(s@.take(i as int)),
            n <= max,
            all_hex(s@.take(i as int)),
        decreases s.len() - i,
    {
        let c = s[i];
        if !char_is_hex(c) {
            assert(!is_hex(s@[i as int]));
            return None;
        }
        let d: u64 = if '0' <= c && c <= '9' {
            (c as u8 - '0' as u8) as u64
        } else if 'a' <= c && c <= 'f' {
            (c as u8 - 'a' as u8 + 10) as u64
        } else {
            (c as u8 - 'A' as u8 + 10) as u64
        };
        assert(s@.take(i as int + 1).drop_last() =~= s@.take(i as int));
        n = 16 * n + d;
        if n > max as u64 {
            proof {
                lemma_hex_value_prefix(s@, i as int + 1);
            }
            return None;
        }
        i += 1;
    }
    assert(s@.take(s@.len() as int) =~= s@);
    Some(n as u32)
}

/// The number that a text stands for in hexadecimal, where it is at most `max`.
pub fn parse_hex_chars(s: &[char], max: u32) -> (r: Option<u32>)
    ensures
        match r {
            Some(n) => parse_hex(s@, max as nat) == Some(n as nat),
            None => parse_hex(s@, max as nat) is None,
        },
{
    if s.len() > 1 && s[0] == '+' {
        let d = slice_subrange(s, 1, s.len());
        assert(d@ =~= s@.skip(1));
        hex_to(d, max)
    } else {
        hex_to(s, max)
    }
}

// ------------------------------------------------------------------ order

/// `a` comes before `b` in the order of code points, which is that of the UTF-8 bytes.
pub open spec fn before(a: Seq<char>, b: Seq<char>) -> bool
    decreases a.len(),
{
    if b.len() == 0 {
        false
    } else if a.len() == 0 {
        true
    } else if a[0] != b[0] {
        a[0] < b[0]
    } else {
        before(a.skip(1), b.skip(1))
    }
}

/// The order is total and strict.
pub proof fn lemma_before_total(a: Seq<char>, b: Seq<char>)
    ensures
        before(a, b) || before(b, a) || a == b,
        !(before(a, b) && before(b, a)),
        a == b ==> !before(a, b),
    decreases a.len(),
{
    if a.len() == 0 || b.len() == 0 {
        if a.len() == 0 && b.len() == 0 {
            assert(a =~= b);
        }
    } else {
        lemma_before_total(a.skip(1), b.skip(1));
        if a[0] == b[0] {
            if a.skip(1) == b.skip(1) {
                assert(a =~= seq![a[0]] + a.skip(1));
                assert(b =~= seq![b[0]] + b.skip(1));
            }
        }
        if a == b {
            assert(a.skip(1) == b.skip(1));
        }
    }
}

/// The order is transitive.
pub proof fn lemma_before_transitive(a: Seq<char>, b: Seq<char>, c: Seq<char>)
    requires
        before(a, b),
        before(b, c),
    ensures
        before(a, c),
    decreases a.len(),
{
    if a.len() > 0 && b.len() > 0 && c.len() > 0 && a[0] == b[0] && b[0] == c[0] {
        lemma_before_transitive(a.skip(1), b.skip(1), c.skip(1));
    }
}

/// Whether `a` comes before `b`.
pub fn comes_before(a: &[char], b: &[char]) -> (r: bool)
    ensures
        r == before(a@, b@),
{
    let mut i: usize = 0;
    assert(a@.skip(0) =~= a@ && b@.skip(0) =~= b@);
    while i < a.len() && i < b.len()
        invariant
            i <= a.len(),
            i <= b.len(),
            before(a@, b@) == before(a@.skip(i as int), b@.skip(i as int)),
        decreases a.len() - i,
    {
        if a[i] != b[i] {
            return a[i] < b[i];
        }
        assert(a@.skip(i as int).skip(1) =~= a@.skip(i as int + 1));
        assert(b@.skip(i as int).skip(1) =~= b@.skip(i as int + 1));
        i += 1;
    }
    i < b.len()
}

} // verus!
