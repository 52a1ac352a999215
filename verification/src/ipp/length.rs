//! Lengths written in decimals, in hundredths of a millimetre.

use vstd::arithmetic::div_mod::{lemma_div_denominator, lemma_hoist_over_denominator};
use vstd::prelude::*;
use vstd::slice::slice_subrange;

use crate::text::{all_digits, char_is_digit, chars_of, cut, dec_value, is_digit, same, split_once};

verus! {

/// A number without a sign: `m` times ten to the power of `e`, or without end.
pub enum Amount {
    Finite { m: nat, e: int },
    Endless,
}

/// Ten to the power of `n`.
pub open spec fn ten(n: nat) -> nat
    decreases n,
{
    if n == 0 {
        1
    } else {
        10 * ten((n - 1) as nat)
    }
}

/// A whole number after a sign or not.
pub open spec fn exponent(s: Seq<char>) -> Option<int> {
    let d = if s.len() > 0 && (s[0] == '+' || s[0] == '-') {
        s.skip(1)
    } else {
        s
    };
    if d.len() == 0 || !all_digits(d) {
        None
    } else if s[0] == '-' {
        Some(-(dec_value(d) as int))
    } else {
        Some(dec_value(d) as int)
    }
}

/// A number: digits with a point among them or not, then `e` and an exponent or not; or `inf` or
/// `infinity`. A plus sign may stand before it.
pub open spec fn amount(s: Seq<char>) -> Option<Amount> {
    let t = if s.len() > 0 && s[0] == '+' {
        s.skip(1)
    } else {
        s
    };
    if t == "inf"@ || t == "infinity"@ {
        Some(Amount::Endless)
    } else {
        let (mantissa, exp) = match split_once(t, 'e') {
            Some((a, b)) => (a, exponent(b)),
            None => (t, Some(0)),
        };
        let (whole, part) = match split_once(mantissa, '.') {
            Some((a, b)) => (a, b),
            None => (mantissa, Seq::empty()),
        };
        let d = whole + part;
        if exp is Some && d.len() > 0 && all_digits(d) {
            Some(Amount::Finite { m: dec_value(d), e: exp->0 - part.len() })
        } else {
            None
        }
    }
}

/// `m` times ten to the power of `e` units in hundredths of a millimetre, to the nearest: `num / den`
/// to a unit. What is too large counts as the largest.
pub open spec fn to_hmm(m: nat, e: int, num: int, den: int) -> int {
    let v = if e >= 0 {
        (2 * (m * ten(e as nat)) * num + den) / (2 * den)
    } else {
        (2 * m * num + den * ten((-e) as nat)) / (2 * den * ten((-e) as nat))
    };
    if v > i32::MAX {
        i32::MAX as int
    } else {
        v
    }
}

/// A length that is more than nothing, in hundredths of a millimetre.
pub open spec fn length(s: Seq<char>, num: int, den: int) -> Option<int> {
    match amount(s) {
        Some(Amount::Finite { m, e }) => if m > 0 {
            Some(to_hmm(m, e, num, den))
        } else {
            None
        },
        Some(Amount::Endless) => Some(i32::MAX as int),
        None => None,
    }
}

proof fn lemma_ten_grows(a: nat, b: nat)
    requires
        a <= b,
    ensures
        1 <= ten(a) <= ten(b),
    decreases b,
{
    if b > 0 {
        if a < b {
            lemma_ten_grows(a, (b - 1) as nat);
        } else {
            lemma_ten_grows((a - 1) as nat, (b - 1) as nat);
        }
    }
}

/// A number of at least a million millions is too large in every unit.
proof fn lemma_large(x: int, num: int, den: int)
    requires
        x >= 1_000_000_000_000,
        num > 0,
        0 < den <= 72,
    ensures
        (2 * x * num + den) / (2 * den) > i32::MAX,
{
    assert((2 * x * num + den) / (2 * den) > 0x7fff_ffff) by (nonlinear_arith)
        requires
            x >= 1_000_000_000_000,
            num > 0,
            0 < den <= 72,
    ;
}

/// Where the power is negative: what counts is the whole part of twice the value.
proof fn lemma_small_power(m: nat, k: nat, num: int, den: int)
    requires
        num > 0,
        den > 0,
    ensures
        (2 * m * num + den * ten(k)) / (2 * den * ten(k)) == ((2 * num * m) / (ten(k) as int) + den)
            / (2 * den),
        (2 * num * m) / (ten(k) as int) >= 0,
{
    lemma_ten_grows(0, k);
    let t = ten(k) as int;
    let y = 2 * num * m;
    assert(2 * m * num == y) by (nonlinear_arith)
        requires
            y == 2 * num * m,
    ;
    assert(y >= 0) by (nonlinear_arith)
        requires
            y == 2 * num * m,
            num > 0,
            m >= 0,
    ;
    lemma_hoist_over_denominator(y, den, t as nat);
    assert(y / t + den == (y + den * t) / t);
    assert(y + den * t >= 0) by (nonlinear_arith)
        requires
            y >= 0,
            den > 0,
            t > 0,
    ;
    lemma_div_denominator(y + den * t, t, 2 * den);
    assert(t * (2 * den) == 2 * den * t) by (nonlinear_arith);
    assert(y / t >= 0) by (nonlinear_arith)
        requires
            y >= 0,
            t > 0,
    ;
}

/// One digit less: what it adds to the next is a whole number of tenths.
proof fn lemma_shift(c: int, m: nat, d: nat, r: nat, k: nat)
    requires
        c > 0,
        k > 0,
    ensures
        (c * (10 * m + d) + r) / (ten(k) as int) == (c * m + (c * d + r) / 10) / (ten(
            (k - 1) as nat,
        ) as int),
{
    lemma_ten_grows(0, (k - 1) as nat);
    let t = ten((k - 1) as nat) as int;
    let x = c * (10 * m + d) + r;
    let q = c * d + r;
    assert(x == 10 * (c * m) + q && q >= 0 && x >= 0) by (nonlinear_arith)
        requires
            x == c * (10 * m + d) + r,
            q == c * d + r,
            c > 0,
            m >= 0,
            d >= 0,
            r >= 0,
    ;
    assert(x / 10 == c * m + q / 10);
    lemma_div_denominator(x, 10, t);
}

fn some_digit(d: &[char]) -> (r: bool)
    requires
        all_digits(d@),
    ensures
        r == (dec_value(d@) > 0),
{
    let mut i: usize = 0;
    assert(d@.take(0) =~= Seq::<char>::empty());
    while i < d.len()
        invariant
            i <= d.len(),
            all_digits(d@),
            dec_value(d@.take(i as int)) == 0,
        decreases d.len() - i,
    {
        assert(d@.take(i as int + 1).drop_last() =~= d@.take(i as int));
        assert(is_digit(d@[i as int]));
        if d[i] != '0' {
            proof {
                lemma_value_grows(d@, i as int + 1);
            }
            return true;
        }
        i += 1;
    }
    assert(d@.take(d@.len() as int) =~= d@);
    false
}

proof fn lemma_value_grows(d: Seq<char>, i: int)
    requires
        0 <= i <= d.len(),
        all_digits(d),
    ensures
        dec_value(d.take(i)) <= dec_value(d),
    decreases d.len(),
{
    if i < d.len() {
        assert(is_digit(d.last()));
        assert(all_digits(d.drop_last())) by {
            assert forall|j: int| 0 <= j < d.len() - 1 implies is_digit(d.drop_last()[j]) by {
                assert(is_digit(d[j]));
            }
        }
        assert(d.drop_last().take(i) =~= d.take(i));
        lemma_value_grows(d.drop_last(), i);
    } else {
        assert(d.take(i) =~= d);
    }
}

fn digits_only(d: &[char]) -> (r: bool)
    ensures
        r == all_digits(d@),
{
    let mut i: usize = 0;
    while i < d.len()
        invariant
            i <= d.len(),
            forall|j: int| 0 <= j < i ==> is_digit(#[trigger] d@[j]),
        decreases d.len() - i,
    {
        if !char_is_digit(d[i]) {
            assert(!is_digit(d@[i as int]));
            return false;
        }
        i += 1;
    }
    true
}

/// The value of a row of digits; what is over `max` counts as `max`.
fn value_up_to(d: &[char], max: u128) -> (r: u128)
    requires
        all_digits(d@),
        max <= 0xffff_ffff_ffff_ffff_ffff_ffff,
    ensures
        r == if dec_value(d@) < max {
            dec_value(d@)
        } else {
            max as nat
        },
{
    let mut i: usize = 0;
    let mut v: u128 = 0;
    assert(d@.take(0) =~= Seq::<char>::empty());
    while i < d.len()
        invariant
            i <= d.len(),
            all_digits(d@),
            max <= 0xffff_ffff_ffff_ffff_ffff_ffff,
            v == if dec_value(d@.take(i as int)) < max {
                dec_value(d@.take(i as int))
            } else {
                max as nat
            },
        decreases d.len() - i,
    {
        assert(d@.take(i as int + 1).drop_last() =~= d@.take(i as int));
        assert(is_digit(d@[i as int]));
        let w: u128 = 10 * v + (d[i] as u32 - 48) as u128;
        v = if w < max {
            w
        } else {
            max
        };
        i += 1;
    }
    assert(d@.take(d@.len() as int) =~= d@);
    v
}

/// The hundredths of a millimetre in `y` halves of a part: `den` parts to a hundredth.
fn nearest(y: u128, den: u128) -> (r: i32)
    requires
        0 < den <= 72,
        y <= 0xffff_ffff_ffff_ffff_ffff_ffff,
    ensures
        r as int == if (y + den) / (2 * den) > i32::MAX {
            i32::MAX as int
        } else {
            (y + den) / (2 * den as int)
        },
{
    let v: u128 = (y + den) / (2 * den);
    if v > 0x7fff_ffff {
        0x7fff_ffff
    } else {
        v as i32
    }
}

/// A length with `k` digits too many.
fn with_part(d: &[char], k: u128, num: u128, den: u128) -> (r: i32)
    requires
        all_digits(d@),
        0 < num <= 2540,
        0 < den <= 72,
    ensures
        r == to_hmm(dec_value(d@), -(k as int), num as int, den as int),
{
    let c: u128 = 2 * num;
    let mut n: usize = d.len();
    let mut left: u128 = k;
    let mut over: u128 = 0;
    let ghost m = dec_value(d@);
    proof {
        assert(d@.take(d@.len() as int) =~= d@);
        if k > 0 {
            lemma_small_power(m, k as nat, num as int, den as int);
        }
        assert(2 * num * m == c * m + 0) by (nonlinear_arith)
            requires
                c == 2 * num,
        ;
    }
    let ghost whole = (c * m) / (ten(k as nat) as int);
    while n > 0 && left > 0
        invariant
            n <= d.len(),
            all_digits(d@),
            0 < c <= 5080,
            over < c,
            left <= k,
            whole == (c * dec_value(d@.take(n as int)) + over) / (ten(left as nat) as int),
        decreases n,
    {
        assert(d@.take(n as int).drop_last() =~= d@.take(n as int - 1));
        assert(is_digit(d@[n as int - 1]));
        let v: u128 = (d[n - 1] as u32 - 48) as u128;
        proof {
            lemma_shift(
                c as int,
                dec_value(d@.take(n as int - 1)),
                v as nat,
                over as nat,
                left as nat,
            );
            assert(c * v <= 9 * c && c * v >= 0) by (nonlinear_arith)
                requires
                    0 <= v <= 9,
                    c > 0,
            ;
        }
        over = (c * v + over) / 10;
        n -= 1;
        left -= 1;
    }
    if n == 0 {
        assert(d@.take(0) =~= Seq::<char>::empty());
        assert(c * dec_value(d@.take(0)) == 0) by (nonlinear_arith)
            requires
                dec_value(d@.take(0)) == 0,
        ;
        while left > 0 && over > 0
            invariant
                over < 5080,
                whole == (over as int) / (ten(left as nat) as int),
            decreases left,
        {
            proof {
                lemma_shift(1, 0, 0, over as nat, left as nat);
                assert(1 * (10 * 0 + 0) + over == over);
            }
            over = over / 10;
            left -= 1;
        }
        proof {
            lemma_ten_grows(0, left as nat);
            if over == 0 {
                let t = ten(left as nat) as int;
                assert(0int / t == 0) by (nonlinear_arith)
                    requires
                        t > 0,
                ;
            } else {
                assert(ten(0) == 1);
                assert((over as int) / 1 == over);
            }
        }
        assert(whole == over);
        proof {
            lemma_whole(m, k as nat, c as int, num as int, den as int);
        }
        nearest(over, den)
    } else {
        let head = slice_subrange(d, 0, n);
        assert(head@ =~= d@.take(n as int));
        assert forall|j: int| 0 <= j < head@.len() implies is_digit(head@[j]) by {
            assert(is_digit(d@[j]));
        }
        let v: u128 = value_up_to(head, 1_000_000_000_000);
        proof {
            assert(c * v <= 5080 * 1_000_000_000_000 && c * v >= 0) by (nonlinear_arith)
                requires
                    0 <= v <= 1_000_000_000_000,
                    0 < c <= 5080,
            ;
            lemma_whole(m, k as nat, c as int, num as int, den as int);
            assert(left == 0 && ten(0) == 1);
            let all = c * dec_value(head@) + over;
            assert(all / 1 == all) by (nonlinear_arith);
            assert(whole == all);
            let x = dec_value(head@) as int;
            if x >= 1_000_000_000_000 {
                lemma_large(1_000_000_000_000, num as int, den as int);
                let low = 2 * 1_000_000_000_000 * num;
                assert(c * v == low) by (nonlinear_arith)
                    requires
                        c == 2 * num,
                        v == 1_000_000_000_000,
                        low == 2 * 1_000_000_000_000 * num,
                ;
                assert(c * x >= low) by (nonlinear_arith)
                    requires
                        c == 2 * num,
                        num > 0,
                        x >= 1_000_000_000_000,
                        low == 2 * 1_000_000_000_000 * num,
                ;
                lemma_div_grows(low + den, c * x + over + den, 2 * den as int);
                lemma_div_grows(low + den, c * v + over + den, 2 * den as int);
            }
        }
        nearest(c * v + over, den)
    }
}

proof fn lemma_div_grows(a: int, b: int, t: int)
    requires
        a <= b,
        t > 0,
    ensures
        a / t <= b / t,
{
    assert(a / t <= b / t) by (nonlinear_arith)
        requires
            a <= b,
            t > 0,
    ;
}

/// The whole part of twice the value says the length.
proof fn lemma_whole(m: nat, k: nat, c: int, num: int, den: int)
    requires
        num > 0,
        den > 0,
        c == 2 * num,
    ensures
        ({
            let v = ((c * m) / (ten(k) as int) + den) / (2 * den);
            to_hmm(m, -(k as int), num, den) == if v > i32::MAX {
                i32::MAX as int
            } else {
                v
            }
        }),
{
    assert(2 * num * m == c * m) by (nonlinear_arith)
        requires
            c == 2 * num,
    ;
    if k > 0 {
        lemma_small_power(m, k, num, den);
    } else {
        assert(2 * (m * ten(0)) * num == c * m) by (nonlinear_arith)
            requires
                c == 2 * num,
                ten(0) == 1,
        ;
        assert((c * m) / 1 == c * m);
    }
}

/// A length with `k` zeros behind its digits.
fn with_zeros(d: &[char], k: u128, num: u128, den: u128) -> (r: i32)
    requires
        all_digits(d@),
        dec_value(d@) > 0,
        0 < num <= 2540,
        0 < den <= 72,
    ensures
        r == to_hmm(dec_value(d@), k as int, num as int, den as int),
{
    let mut v: u128 = value_up_to(d, 1_000_000_000_000);
    let ghost m = dec_value(d@);
    let ghost x = m * ten(k as nat);
    let mut left: u128 = k;
    proof {
        lemma_ten_grows(0, k as nat);
        assert(x >= m) by (nonlinear_arith)
            requires
                x == m * ten(k as nat),
                ten(k as nat) >= 1,
        ;
    }
    while left > 0 && v < 1_000_000_000_000
        invariant
            0 < v,
            v < 1_000_000_000_000 ==> x == v * ten(left as nat),
            v >= 1_000_000_000_000 ==> x >= 1_000_000_000_000,
            v <= 10_000_000_000_000,
        decreases left,
    {
        proof {
            lemma_ten_grows(0, (left - 1) as nat);
            let t = ten((left - 1) as nat) as int;
            assert(v * (10 * t) == (10 * v) * t && (10 * v) * t >= 10 * v) by (nonlinear_arith)
                requires
                    v > 0,
                    t >= 1,
            ;
        }
        v = v * 10;
        left -= 1;
    }
    if v >= 1_000_000_000_000 {
        proof {
            lemma_large(x as int, num as int, den as int);
        }
        0x7fff_ffff
    } else {
        assert(x == v) by (nonlinear_arith)
            requires
                x == v * ten(0),
                ten(0) == 1,
        ;
        assert(2 * num * v == 2 * v * num && 2 * num * v <= 5080 * 1_000_000_000_000 && num * v >= 0
            && 2 * num <= 5080) by (nonlinear_arith)
            requires
                0 < v <= 1_000_000_000_000,
                0 < num <= 2540,
        ;
        nearest(2 * num * v, den)
    }
}

/// The number of an exponent, and whether it is below nothing. What is over 10^28 counts as that.
fn read_exponent(s: &[char]) -> (r: Option<(bool, u128)>)
    ensures
        match r {
            Some((minus, v)) => {
                &&& exponent(s@) is Some
                &&& v <= 10_000_000_000_000_000_000_000_000_000
                &&& minus ==> exponent(s@)->0 <= 0 && if v < 10_000_000_000_000_000_000_000_000_000 {
                    exponent(s@)->0 == -(v as int)
                } else {
                    exponent(s@)->0 <= -(v as int)
                }
                &&& !minus ==> if v < 10_000_000_000_000_000_000_000_000_000 {
                    exponent(s@)->0 == v as int
                } else {
                    exponent(s@)->0 >= v as int
                }
            },
            None => exponent(s@) is None,
        },
{
    let d = if s.len() > 0 && (s[0] == '+' || s[0] == '-') {
        let d = slice_subrange(s, 1, s.len());
        assert(d@ =~= s@.skip(1));
        d
    } else {
        s
    };
    if d.len() == 0 || !digits_only(d) {
        return None;
    }
    let v: u128 = value_up_to(d, 10_000_000_000_000_000_000_000_000_000);
    Some((s[0] == '-', v))
}

/// Far below a hundredth nothing counts.
proof fn lemma_vanishes(d: Seq<char>, k: nat, num: int, den: int)
    requires
        all_digits(d),
        k >= d.len() + 4,
        0 < num <= 2540,
        0 < den <= 72,
    ensures
        to_hmm(dec_value(d), -(k as int), num, den) == 0,
{
    let m = dec_value(d);
    lemma_below(d);
    lemma_ten_adds(d.len(), 4);
    reveal_with_fuel(ten, 5);
    lemma_ten_grows((d.len() + 4) as nat, k);
    lemma_whole(m, k, 2 * num, num, den);
    let t = ten(k) as int;
    let u = ten(d.len()) as int;
    let y = (2 * num) * m;
    assert(0 <= y < t) by (nonlinear_arith)
        requires
            y == (2 * num) * m,
            0 < num <= 2540,
            0 <= m < u,
            t >= u * 10000,
    ;
    assert(y / t == 0) by (nonlinear_arith)
        requires
            0 <= y < t,
    ;
    assert(den / (2 * den) == 0) by (nonlinear_arith)
        requires
            den > 0,
    ;
}

proof fn lemma_ten_adds(a: nat, b: nat)
    ensures
        ten((a + b) as nat) == ten(a) * ten(b),
    decreases b,
{
    if b > 0 {
        lemma_ten_adds(a, (b - 1) as nat);
        let (x, y) = (ten(a), ten((b - 1) as nat));
        assert(10 * (x * y) == x * (10 * y)) by (nonlinear_arith);
    } else {
        assert(ten(a) * 1 == ten(a)) by (nonlinear_arith);
    }
}

proof fn lemma_below(d: Seq<char>)
    requires
        all_digits(d),
    ensures
        dec_value(d) < ten(d.len()),
    decreases d.len(),
{
    if d.len() > 0 {
        assert(is_digit(d.last()));
        assert(all_digits(d.drop_last())) by {
            assert forall|j: int| 0 <= j < d.len() - 1 implies is_digit(d.drop_last()[j]) by {
                assert(is_digit(d[j]));
            }
        }
        lemma_below(d.drop_last());
    }
}

/// With more than a dozen zeros everything is too large.
proof fn lemma_bursts(m: nat, e: nat, num: int, den: int)
    requires
        m > 0,
        e >= 12,
        0 < num,
        0 < den <= 72,
    ensures
        to_hmm(m, e as int, num, den) == i32::MAX,
{
    reveal_with_fuel(ten, 13);
    lemma_ten_grows(12, e);
    let x = m * ten(e);
    assert(x >= 1_000_000_000_000) by (nonlinear_arith)
        requires
            x == m * ten(e),
            m > 0,
            ten(e) >= 1_000_000_000_000,
    ;
    lemma_large(x as int, num, den);
}

/// A length of `d` with `part` digits behind the point and an exponent.
fn measure(d: &[char], part: usize, minus: bool, v: u128, exp: Ghost<int>, num: u128, den: u128) -> (r: i32)
    requires
        all_digits(d@),
        dec_value(d@) > 0,
        part <= d@.len(),
        v <= 10_000_000_000_000_000_000_000_000_000,
        minus ==> exp@ <= 0 && if v < 10_000_000_000_000_000_000_000_000_000 {
            exp@ == -(v as int)
        } else {
            exp@ <= -(v as int)
        },
        !minus ==> if v < 10_000_000_000_000_000_000_000_000_000 {
            exp@ == v as int
        } else {
            exp@ >= v as int
        },
        0 < num <= 2540,
        0 < den <= 72,
    ensures
        r == to_hmm(dec_value(d@), exp@ - part, num as int, den as int),
{
    if v == 10_000_000_000_000_000_000_000_000_000 {
        if minus {
            let n: usize = d.len();
            proof {
                assert(d@.len() == n);
                lemma_vanishes(d@, (part - exp@) as nat, num as int, den as int);
            }
            0
        } else {
            proof {
                lemma_bursts(dec_value(d@), (exp@ - part) as nat, num as int, den as int);
            }
            0x7fff_ffff
        }
    } else if minus {
        with_part(d, part as u128 + v, num, den)
    } else if v >= part as u128 {
        with_zeros(d, v - part as u128, num, den)
    } else {
        with_part(d, part as u128 - v, num, den)
    }
}

/// A length that is more than nothing, in hundredths of a millimetre.
pub fn read_length(s: &[char], num: u128, den: u128) -> (r: Option<i32>)
    requires
        0 < num <= 2540,
        0 < den <= 72,
    ensures
        match r {
            Some(v) => length(s@, num as int, den as int) == Some(v as int),
            None => length(s@, num as int, den as int) is None,
        },
{
    let t = if s.len() > 0 && s[0] == '+' {
        let t = slice_subrange(s, 1, s.len());
        assert(t@ =~= s@.skip(1));
        t
    } else {
        s
    };
    let (short, long) = (chars_of("inf"), chars_of("infinity"));
    if same(t, short.as_slice()) || same(t, long.as_slice()) {
        return Some(0x7fff_ffff);
    }
    let (mantissa, minus, v): (&[char], bool, u128) = match cut(t, 'e') {
        Some((a, b)) => match read_exponent(b) {
            Some((minus, v)) => (a, minus, v),
            None => {
                return None;
            },
        },
        None => (t, false, 0u128),
    };
    let ghost exp = match split_once(t@, 'e') {
        Some((_, b)) => exponent(b)->0,
        None => 0,
    };
    let mut d: Vec<char> = Vec::new();
    let mut part: usize = 0;
    match cut(mantissa, '.') {
        Some((a, b)) => {
            d.extend_from_slice(a);
            d.extend_from_slice(b);
            part = b.len();
            assert(d@ =~= a@ + b@);
        },
        None => {
            d.extend_from_slice(mantissa);
            assert(d@ =~= mantissa@ + Seq::<char>::empty());
        },
    }
    if d.len() == 0 || !digits_only(d.as_slice()) || !some_digit(d.as_slice()) {
        return None;
    }
    Some(measure(d.as_slice(), part, minus, v, Ghost(exp), num, den))
}

} // verus!
