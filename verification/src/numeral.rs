//! Writing numbers as ASCII numerals in base 2, 10 or 16.

use vstd::arithmetic::div_mod::{lemma_div_decreases, lemma_fundamental_div_mod, lemma_mod_bound};
use vstd::prelude::*;

verus! {

/// The ASCII character `0`.
pub const ASCII_ZERO: u8 = 48;

/// The ASCII character `9`.
pub const ASCII_NINE: u8 = 57;

/// The ASCII character `a`.
pub const ASCII_LOWER_A: u8 = 97;

/// The bases in which a number can be written.
#[derive(Clone, Copy, Debug, PartialEq, Eq, Structural)]
pub enum Radix {
    /// Base 2.
    Binary,
    /// Base 10.
    Decimal,
    /// Base 16, with lowercase letters.
    Hexadecimal,
}

impl Radix {
    /// The base as a number.
    pub open spec fn base(self) -> nat {
        match self {
            Radix::Binary => 2,
            Radix::Decimal => 10,
            Radix::Hexadecimal => 16,
        }
    }

    /// The base as a machine integer.
    pub fn base_value(self) -> (base: usize)
        ensures
            base == self.base(),
    {
        match self {
            Radix::Binary => 2,
            Radix::Decimal => 10,
            Radix::Hexadecimal => 16,
        }
    }
}

/// The ASCII character of the digit `d`: `0` to `9`, then `a` to `f`.
pub open spec fn digit_char(d: nat) -> u8 {
    if d < 10 {
        (ASCII_ZERO + d) as u8
    } else {
        (ASCII_LOWER_A + d - 10) as u8
    }
}

/// The digit that the ASCII character `c` stands for.
pub open spec fn digit_value(c: u8) -> nat {
    if ASCII_ZERO <= c <= ASCII_NINE {
        (c - ASCII_ZERO) as nat
    } else {
        (c - ASCII_LOWER_A + 10) as nat
    }
}

/// The numeral of `n` in base `base`, most significant digit first, without
/// leading zeros; the numeral of zero is `0`.
pub open spec fn digits(n: nat, base: nat) -> Seq<u8>
    decreases n,
    via digits_decreases
{
    if base < 2 || n < base {
        seq![digit_char(n)]
    } else {
        digits(n / base, base).push(digit_char(n % base))
    }
}

#[via_fn]
proof fn digits_decreases(n: nat, base: nat) {
    if !(base < 2 || n < base) {
        lemma_div_decreases(n as int, base as int);
    }
}

/// `s` with zeros put in front until it is `width` characters long.
pub open spec fn zero_padded(s: Seq<u8>, width: nat) -> Seq<u8> {
    if s.len() >= width {
        s
    } else {
        Seq::new((width - s.len()) as nat, |i: int| ASCII_ZERO) + s
    }
}

/// The number that the numeral `s` denotes in base `base`.
pub open spec fn numeral_value(s: Seq<u8>, base: nat) -> nat
    decreases s.len(),
{
    if s.len() == 0 {
        0
    } else {
        numeral_value(s.drop_last(), base) * base + digit_value(s.last())
    }
}

/// Reading a numeral back gives the number it was written from.
pub proof fn lemma_digits_denote(n: nat, base: nat)
    requires
        2 <= base <= 16,
    ensures
        numeral_value(digits(n, base), base) == n,
    decreases n,
{
    if n < base {
        assert(digits(n, base).drop_last() =~= Seq::<u8>::empty());
        assert(numeral_value(Seq::<u8>::empty(), base) == 0);
        assert(0 * base == 0) by (nonlinear_arith);
    } else {
        let high = n / base;
        lemma_div_decreases(n as int, base as int);
        lemma_mod_bound(n as int, base as int);
        lemma_fundamental_div_mod(n as int, base as int);
        lemma_digits_denote(high, base);
        assert(digits(n, base).drop_last() =~= digits(high, base));
        assert(high * base == base * high) by (nonlinear_arith);
    }
}

/// Zeros in front of a numeral do not change the number it denotes.
pub proof fn lemma_padding_keeps_value(s: Seq<u8>, width: nat, base: nat)
    ensures
        numeral_value(zero_padded(s, width), base) == numeral_value(s, base),
    decreases s.len(),
{
    if s.len() < width {
        let zeros = Seq::new((width - s.len()) as nat, |i: int| ASCII_ZERO);
        lemma_zeros_denote_zero(zeros.len(), base);
        lemma_value_of_concat(zeros, s, base);
    }
}

/// A numeral made of zeros alone denotes zero.
proof fn lemma_zeros_denote_zero(count: nat, base: nat)
    ensures
        numeral_value(Seq::new(count, |i: int| ASCII_ZERO), base) == 0,
    decreases count,
{
    let zeros = Seq::new(count, |i: int| ASCII_ZERO);
    if count > 0 {
        assert(zeros.drop_last() =~= Seq::new((count - 1) as nat, |i: int| ASCII_ZERO));
        lemma_zeros_denote_zero((count - 1) as nat, base);
        assert(0 * base == 0) by (nonlinear_arith);
    }
}

/// A numeral that begins with a part denoting zero denotes what the rest denotes.
proof fn lemma_value_of_concat(front: Seq<u8>, back: Seq<u8>, base: nat)
    requires
        numeral_value(front, base) == 0,
    ensures
        numeral_value(front + back, base) == numeral_value(back, base),
    decreases back.len(),
{
    if back.len() > 0 {
        assert((front + back).drop_last() =~= front + back.drop_last());
        lemma_value_of_concat(front, back.drop_last(), base);
    }
}

/// The number of characters in the numeral of `n` in base `base`.
pub open spec fn digit_count(n: nat, base: nat) -> nat {
    digits(n, base).len()
}

/// The numeral of `n` in the base of `radix`, with zeros in front where it is
/// shorter than `min_width`.
pub open spec fn numeral(n: nat, radix: Radix, min_width: nat) -> Seq<u8> {
    zero_padded(digits(n, radix.base()), min_width)
}

/// The ASCII character of a single digit.
fn digit_byte(d: usize) -> (c: u8)
    requires
        d < 16,
    ensures
        c == digit_char(d as nat),
{
    if d < 10 {
        ASCII_ZERO + d as u8
    } else {
        ASCII_LOWER_A + (d - 10) as u8
    }
}

/// Counts the digits of `value` in the base of `radix`.
fn count_digits(value: usize, radix: Radix) -> (count: usize)
    ensures
        count == digit_count(value as nat, radix.base()),
{
    let base = radix.base_value();
    let mut rest = value;
    let mut count: usize = 1;
    while rest >= base
        invariant
            base == radix.base(),
            count >= 1,
            count + rest <= value + 1,
            digit_count(value as nat, base as nat) == digit_count(rest as nat, base as nat) + count
                - 1,
        decreases rest,
    {
        proof {
            lemma_div_decreases(rest as int, base as int);
        }
        rest = rest / base;
        count = count + 1;
    }
    count
}

/// Appends the digits of `value` in the base of `radix` to `out`.
fn push_digits(out: &mut Vec<u8>, value: usize, radix: Radix)
    ensures
        final(out)@ == old(out)@ + digits(value as nat, radix.base()),
    decreases value,
{
    let base = radix.base_value();
    if value >= base {
        proof {
            lemma_div_decreases(value as int, base as int);
        }
        push_digits(out, value / base, radix);
    }
    proof {
        lemma_mod_bound(value as int, base as int);
    }
    out.push(digit_byte(value % base));
}

/// Appends to `out` the numeral of `value` in the base of `radix`, with zeros
/// in front where it is shorter than `min_width`.
pub fn push_numeral(out: &mut Vec<u8>, value: usize, radix: Radix, min_width: usize)
    ensures
        final(out)@ == old(out)@ + numeral(value as nat, radix, min_width as nat),
{
    let count = count_digits(value, radix);
    let mut width = count;
    while width < min_width
        invariant
            count <= width,
            width <= min_width || width == count,
            out@ == old(out)@ + Seq::new((width - count) as nat, |i: int| ASCII_ZERO),
        decreases min_width - width,
    {
        out.push(ASCII_ZERO);
        width = width + 1;
    }
    push_digits(out, value, radix);
}

} // verus!
