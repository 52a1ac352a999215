//! How numbers on the command line are read.

use vstd::prelude::*;

use crate::config::{auto_digits, digits_error, digits_part, number_error, number_of};
use crate::text::{
    dec, digit, hex_digit, is_digit, is_space, lemma_dec_reads_back, trim_left, trim_right,
};

verus! {

proof fn lemma_decimal(n: nat)
    requires
        n <= u32::MAX,
    ensures
        number_of(dec(n), false) == n,
        digits_error(dec(n), false) is None,
        dec(n).len() > 0,
    decreases n,
{
    let d = dec(n);
    lemma_dec_reads_back(n);
    assert(is_digit(d.last()));
    if n < 10 {
        assert(d =~= seq![digit(n as int)]);
        assert(d.drop_last() =~= Seq::<char>::empty());
        assert(d.last() == digit(n as int));
        reveal_with_fuel(number_of, 2);
        reveal_with_fuel(digits_error, 2);
    } else {
        lemma_decimal(n / 10);
        assert(d.drop_last() =~= dec(n / 10));
        assert(d.last() == digit((n % 10) as int));
    }
}

/// A number that is written in decimal is read as that number.
pub proof fn lemma_decimal_numbers(n: u32)
    ensures
        auto_digits(dec(n as nat)) == (dec(n as nat), false),
        number_error(dec(n as nat), false) is None,
        number_of(digits_part(dec(n as nat)), false) == n,
{
    let d = dec(n as nat);
    lemma_decimal(n as nat);
    lemma_dec_reads_back(n as nat);
    assert(is_digit(d[0]) && is_digit(d.last()));
    assert(trim_left(d, |c: char| is_space(c)) == d);
    assert(trim_right(d, |c: char| is_space(c)) == d);
    reveal_strlit("0x");
    reveal_strlit("0X");
    if crate::text::starts_with(d, "0x"@) {
        assert(d.subrange(0, 2)[1] == 'x');
        assert(is_digit(d[1]));
    }
    if crate::text::starts_with(d, "0X"@) {
        assert(d.subrange(0, 2)[1] == 'X');
        assert(is_digit(d[1]));
    }
}

/// After `0x` two digits count sixteen and one.
pub proof fn lemma_hexadecimal_numbers(b: u8)
    ensures
        ({
            let s = seq!['0', 'x', hex_digit((b / 16) as int), hex_digit((b % 16) as int)];
            let d = seq![hex_digit((b / 16) as int), hex_digit((b % 16) as int)];
            &&& auto_digits(s) == (d, true)
            &&& number_error(d, true) is None
            &&& number_of(digits_part(d), true) == b
        }),
{
    let (x, y) = (hex_digit((b / 16) as int), hex_digit((b % 16) as int));
    let s = seq!['0', 'x', x, y];
    let d = seq![x, y];
    reveal_strlit("0x");
    assert(trim_left(s, |c: char| is_space(c)) == s);
    assert(s.last() == y);
    assert(trim_right(s, |c: char| is_space(c)) == s);
    assert(s.subrange(0, 2) =~= "0x"@);
    assert(s.skip(2) =~= d);
    assert(d.drop_last() =~= seq![x]);
    assert(seq![x].drop_last() =~= Seq::<char>::empty());
    assert(d.last() == y && seq![x].last() == x);
    reveal_with_fuel(number_of, 3);
    reveal_with_fuel(digits_error, 3);
}

/// A text without digits, or with anything else among them, is no number.
pub proof fn lemma_no_numbers(d: Seq<char>, i: int)
    ensures
        number_error(Seq::empty(), false) is Some,
        0 <= i < d.len() && !is_digit(d[i]) ==> digits_error(d, false) is Some,
    decreases d.len(),
{
    if 0 <= i < d.len() && !is_digit(d[i]) && i < d.len() - 1 {
        lemma_no_numbers(d.drop_last(), i);
    }
}

} // verus!
