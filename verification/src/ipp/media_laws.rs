//! What paper there is, and how sizes and names of paper are understood.

use vstd::prelude::*;

use crate::ipp::length::{length, ten, to_hmm};
use crate::ipp::media::{
    dimensions, find_in, lemma_whole_length, named_in, parse_dims, spec_all, spec_is_document_name,
    spec_parse_media_name, spec_tape_miniature_y_hmm, MediaHint,
};
use crate::text::{
    all_digits, dec, dec_value, is_digit, is_space, lemma_dec_reads_back, lemma_find_char, lemma_find_char_is, lower, starts_with, trim,
    trim_left, trim_right,
};

verus! {

// ------------------------------------------------------------------ sizes

/// All paper is as wide as the tape, 48 mm; the tape is 297 mm or 500 mm long, and documents as long as their
/// page is when it is shrunk to that width.
pub proof fn lemma_paper(i: int)
    requires
        0 <= i < spec_all().len(),
    ensures
        spec_all().len() == 4,
        spec_all()[i].x_hmm == 4800,
        spec_all()[0].y_hmm == 29700,
        spec_all()[1].y_hmm == 50000,
        -10500 <= 21000 * spec_all()[2].y_hmm - 4800 * 29700 <= 10500,
        -10795 <= 21590 * spec_all()[3].y_hmm - 4800 * 27940 <= 10795,
{
}

/// A page that is shrunk to the tape keeps its proportions, to the nearest hundredth of a millimetre.
pub proof fn lemma_miniatures(x: int, y: int)
    requires
        x > 0,
        y >= 0,
    ensures
        2 * (x * spec_tape_miniature_y_hmm(x, y) - 4800 * y) <= x,
        -x <= 2 * (x * spec_tape_miniature_y_hmm(x, y) - 4800 * y),
{
    let n = 4800 * y + x / 2;
    let q = n / x;
    assert(x * q <= n < x * q + x) by (nonlinear_arith)
        requires
            q == n / x,
            x > 0,
    ;
}

proof fn lemma_find_in(x: int, y: int)
    ensures
        find_in(spec_all(), x, y) matches Some(m) ==> -100 <= m.x_hmm - x <= 100 && -100 <= m.y_hmm - y <= 100
            && exists|i: int| 0 <= i < 4 && spec_all()[i] == m,
        forall|i: int|
            0 <= i < 4 && -100 <= (#[trigger] spec_all()[i]).x_hmm - x <= 100 && -100 <= spec_all()[i].y_hmm - y
                <= 100 ==> find_in(spec_all(), x, y) == Some(spec_all()[i]),
{
    reveal_with_fuel(find_in, 5);
    let a = spec_all();
    let b = a.skip(1);
    let c = b.skip(1);
    let d = c.skip(1);
    assert(b[0] == a[1] && c[0] == a[2] && d[0] == a[3]);
    assert(d.skip(1).len() == 0);
    let f = find_in(a, x, y);
    if f is Some {
        assert(f->0 == a[0] || f->0 == a[1] || f->0 == a[2] || f->0 == a[3]);
    }
    assert forall|i: int|
        0 <= i < 4 && -100 <= (#[trigger] a[i]).x_hmm - x <= 100 && -100 <= a[i].y_hmm - y <= 100 implies f
        == Some(a[i]) by {
        assert(i == 0 || i == 1 || i == 2 || i == 3);
    }
}

/// A size is one on offer where it is within a millimetre of it each way, and no other.
pub proof fn lemma_sizes_on_offer(x: int, y: int, i: int)
    requires
        0 <= i < 4,
    ensures
        find_in(spec_all(), x, y) == Some(spec_all()[i]) <==> -100 <= x - 4800 <= 100 && -100 <= y
            - spec_all()[i].y_hmm <= 100,
{
    lemma_find_in(x, y);
    assert(spec_all()[i].x_hmm == 4800);
    if find_in(spec_all(), x, y) == Some(spec_all()[i]) {
        let m = find_in(spec_all(), x, y)->0;
        assert(m == spec_all()[i]);
    }
}

// ------------------------------------------------------------------ tape or document

/// The names of the two documents, and the short ones for them, are documents' whatever their case; the names of
/// tapes are not.
pub proof fn lemma_document_names(n: Seq<char>)
    requires
        trim(n) == n,
    ensures
        lower(n) == "iso_a4_210x297mm"@ ==> spec_is_document_name(n),
        lower(n) == "na_letter_8.5x11in"@ ==> spec_is_document_name(n),
        lower(n) == "a4"@ || lower(n) == "letter"@ || lower(n) == "iso_a4"@ || lower(n) == "na_letter"@
            ==> spec_is_document_name(n),
        n.len() > 0 && lower(n)[0] != 'i' && lower(n)[0] != 'n' && lower(n)[0] != 'a' && lower(n)[0] != 'l'
            ==> !spec_is_document_name(n),
        lower(n) == "custom_cat-tape_48x297mm"@ ==> !spec_is_document_name(n),
{
    reveal_strlit("iso_a4_210x297mm");
    reveal_strlit("na_letter_8.5x11in");
    reveal_strlit("custom_cat-tape_48x297mm");
    reveal_strlit("a4");
    reveal_strlit("letter");
    reveal_strlit("iso-a4");
    reveal_strlit("na-letter");
    reveal_strlit("iso_a4");
    reveal_strlit("na_letter");
    reveal_strlit("iso_a4_");
    reveal_strlit("na_letter_");
    let l = lower(n);
    let (a, b) = ("iso_a4_210x297mm"@, "na_letter_8.5x11in"@);
    assert(lower(a) =~= a);
    assert(lower(b) =~= b);
    if n.len() > 0 && l[0] != 'i' && l[0] != 'n' && l[0] != 'a' && l[0] != 'l' {
        if starts_with(l, "iso_a4_"@) {
            assert(l.subrange(0, 7)[0] == 'i');
        }
        if starts_with(l, "na_letter_"@) {
            assert(l.subrange(0, 10)[0] == 'n');
        }
    }
}

/// Paper that is named or sized as a document is one, and not tape; other paper is tape up to 60 mm across, and
/// beyond that a sheet.
pub proof fn lemma_tape_or_document(m: MediaHint)
    ensures
        m.name matches Some(n) && spec_is_document_name(n@) ==> m.spec_is_document(),
        m.spec_is_document() ==> !m.spec_is_tape(),
        -100 <= m.x_hmm - 4800 <= 100 && (-100 <= m.y_hmm - 6789 <= 100 || -100 <= m.y_hmm - 6212 <= 100)
            ==> m.spec_is_document(),
        m.name is None && m.x_hmm <= 6000 && (m.y_hmm > 6889 || m.y_hmm < 6112) ==> m.spec_is_tape(),
        m.x_hmm > 6000 ==> !m.spec_is_tape(),
{
    lemma_find_in(m.x_hmm as int, m.y_hmm as int);
    reveal_strlit("custom_cat-tape_48x297mm");
    reveal_strlit("custom_cat-tape-long_48x500mm");
    reveal_strlit("iso_a4_210x297mm");
    reveal_strlit("na_letter_8.5x11in");
    let all = spec_all();
    let (t, u, a, b) = (all[0].name@, all[1].name@, all[2].name@, all[3].name@);
    lemma_untrimmed(t);
    lemma_untrimmed(u);
    lemma_untrimmed(a);
    lemma_untrimmed(b);
    assert(lower(a) =~= a);
    assert(lower(b) =~= b);
    assert(lower(t)[0] == 'c' && lower(u)[0] == 'c');
    lemma_document_names(t);
    lemma_document_names(u);
    lemma_document_names(a);
    lemma_document_names(b);
    let f = find_in(all, m.x_hmm as int, m.y_hmm as int);
    if f is Some {
        let i = choose|i: int| 0 <= i < 4 && all[i] == f->0;
        assert(i == 0 || i == 1 || i == 2 || i == 3);
    }
    assert(all[2].y_hmm == 6789 && all[3].y_hmm == 6212 && all[2].x_hmm == 4800 && all[3].x_hmm == 4800);
}

proof fn lemma_untrimmed(s: Seq<char>)
    requires
        s.len() > 0,
        !is_space(s[0]),
        !is_space(s.last()),
    ensures
        trim(s) == s,
{
    assert(trim_left(s, |c: char| is_space(c)) == s);
    assert(trim_right(s, |c: char| is_space(c)) == s);
}

// ------------------------------------------------------------------ names

proof fn lemma_dims(w: nat, h: nat, num: int, den: int)
    requires
        0 < w,
        0 < h,
    ensures
        parse_dims(dec(w) + "x"@ + dec(h), num, den) == Some(
            (to_hmm(w, 0, num, den) as i32, to_hmm(h, 0, num, den) as i32),
        ),
{
    let (dw, dh) = (dec(w), dec(h));
    let body = dw + "x"@ + dh;
    reveal_strlit("x");
    lemma_dec_reads_back(w);
    lemma_dec_reads_back(h);
    assert(body[dw.len() as int] == 'x');
    assert forall|i: int| 0 <= i < dw.len() implies body[i] != 'x' by {
        assert(is_digit(dw[i]));
        assert(body[i] == dw[i]);
    }
    lemma_find_char_is(body, 'x', dw.len() as int);
    assert(body.take(dw.len() as int) =~= dw);
    assert(body.skip(dw.len() as int + 1) =~= dh);
    lemma_whole_length(w, num, den);
    lemma_whole_length(h, num, den);
}

proof fn lemma_units(n: nat)
    requires
        n <= 800_000,
    ensures
        to_hmm(n, 0, 2540, 1) == 2540 * n,
        to_hmm(n, 0, 100, 1) == 100 * n,
        -36 <= 72 * to_hmm(n, 0, 2540, 72) - 2540 * n <= 36,
{
    assert(ten(0) == 1);
    assert(n * ten(0) == n) by (nonlinear_arith)
        requires
            ten(0) == 1,
    ;
    let m = n as int;
    assert((2 * m * 2540 + 1) / 2 == 2540 * m);
    assert((2 * m * 100 + 1) / 2 == 100 * m);
    let v = (2 * m * 2540 + 72) / 144;
    assert(to_hmm(n, 0, 2540, 1) == (2 * m * 2540 + 1) / 2);
    assert(to_hmm(n, 0, 100, 1) == (2 * m * 100 + 1) / 2);
    assert(to_hmm(n, 0, 2540, 72) == v);
    assert(144 * v <= 5080 * n + 72 < 144 * v + 144);
}

/// A name that ends in whole numbers of inches is 25.4 mm to each, in millimetres 1 mm, and without a unit a
/// seventy-second of an inch, to the nearest hundredth of a millimetre; width first.
pub proof fn lemma_sizes_in_names(name: Seq<char>, w: nat, h: nat)
    requires
        0 < w <= 800_000,
        0 < h <= 800_000,
        named_in(spec_all(), trim(name)) is None,
    ensures
        dimensions(trim(name)) == dec(w) + "x"@ + dec(h) + "in"@ ==> spec_parse_media_name(name) == Some(
            ((2540 * w) as i32, (2540 * h) as i32),
        ),
        dimensions(trim(name)) == dec(w) + "x"@ + dec(h) + "mm"@ ==> spec_parse_media_name(name) == Some(
            ((100 * w) as i32, (100 * h) as i32),
        ),
        dimensions(trim(name)) == dec(w) + "x"@ + dec(h) ==> {
            let r = spec_parse_media_name(name);
            r is Some && -36 <= 72 * (r->0).0 - 2540 * w <= 36 && -36 <= 72 * (r->0).1 - 2540 * h <= 36
        },
{
    let d = dimensions(trim(name));
    let body = dec(w) + "x"@ + dec(h);
    reveal_strlit("in");
    reveal_strlit("mm");
    assert("in"@.len() == 2 && "mm"@.len() == 2 && "in"@[0] == 'i' && "mm"@[0] == 'm');
    lemma_units(w);
    lemma_units(h);
    lemma_dec_reads_back(h);
    if d == body + "in"@ {
        lemma_dims(w, h, 2540, 1);
        assert(d.skip(d.len() - 2) =~= "in"@);
        assert(d.take(d.len() - 2) =~= body);
    } else if d == body + "mm"@ {
        lemma_dims(w, h, 100, 1);
        assert(d.skip(d.len() - 2) =~= "mm"@);
        assert(d.take(d.len() - 2) =~= body);
    } else if d == body {
        lemma_dims(w, h, 2540, 72);
        let t = d.skip(d.len() - 2);
        assert(is_digit(dec(h).last()));
        assert(d.last() == dec(h).last());
        assert(t[1] == d.last());
        assert("in"@[1] == 'n' && "mm"@[1] == 'm');
    }
}

/// A length with one digit behind the point is ten times finer: it is to the nearest what its tenths are.
pub proof fn lemma_tenths(w: nat, d: nat, num: int, den: int)
    requires
        d < 10,
        10 * w + d > 0,
    ensures
        length(dec(w) + "."@ + dec(d), num, den) == Some(to_hmm((10 * w + d) as nat, -1, num, den)),
{
    let (a, b) = (dec(w), dec(d));
    let s = a + "."@ + b;
    reveal_strlit(".");
    reveal_strlit("inf");
    reveal_strlit("infinity");
    lemma_dec_reads_back(w);
    lemma_dec_reads_back(d);
    assert(is_digit(a[0]));
    assert(s[0] == a[0]);
    assert("inf"@[0] == 'i' && "infinity"@[0] == 'i');
    assert(b =~= seq![crate::text::digit(d as int)]);
    assert forall|j: int| 0 <= j < s.len() implies s[j] != 'e' && (j != a.len() ==> is_digit(s[j])) by {
        if j < a.len() {
            assert(s[j] == a[j] && is_digit(a[j]));
        } else if j > a.len() {
            assert(s[j] == b[j - a.len() - 1] && is_digit(b[j - a.len() - 1]));
        }
    }
    lemma_find_char(s, 'e');
    assert(s[a.len() as int] == '.');
    lemma_find_char_is(s, '.', a.len() as int);
    assert(s.take(a.len() as int) =~= a);
    assert(s.skip(a.len() as int + 1) =~= b);
    let all = a + b;
    assert(all.drop_last() =~= a);
    assert(all.last() == b[0]);
    assert(dec_value(all) == 10 * w + d);
    assert(all_digits(all));
}

} // verus!
