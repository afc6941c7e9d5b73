//! Single-precision numbers held as their bit patterns.

use vstd::prelude::*;
use crate::ratio::round_count;
#[allow(unused_imports)]
use crate::ratio::{lemma_unit24_bounds, round24, unit24};
#[allow(unused_imports)]
use vstd::arithmetic::power2::{lemma2_to64, lemma_pow2_unfold, pow2};

verus! {

/// The pattern of zero.
pub const ZERO: u32 = 0;

/// The pattern of one.
pub const ONE: u32 = 0x3F80_0000;

/// The bits without the sign.
pub open spec fn magnitude(bits: u32) -> int {
    if bits < 0x8000_0000 {
        bits as int
    } else {
        bits - 0x8000_0000
    }
}

/// The pattern stands for no number.
pub open spec fn is_nan(bits: u32) -> bool {
    magnitude(bits) > 0x7F80_0000
}

/// The two numbers are equal: patterns of no number equal nothing, and the two zeros are equal.
pub open spec fn same_number(a: u32, b: u32) -> bool {
    !is_nan(a) && !is_nan(b) && (a == b || (magnitude(a) == 0 && magnitude(b) == 0))
}

/// The number is zero or at most the machine epsilon away from it.
pub open spec fn negligible(bits: u32) -> bool {
    magnitude(bits) <= 0x3400_0000
}

/// The number is at most the machine epsilon.
pub open spec fn at_most_epsilon(bits: u32) -> bool {
    if bits < 0x8000_0000 {
        bits <= 0x3400_0000
    } else {
        !is_nan(bits)
    }
}

/// The rank of a pattern in the total order of single-precision numbers.
pub open spec fn total_rank(bits: u32) -> int {
    if bits < 0x8000_0000 {
        bits as int
    } else {
        0x7FFF_FFFF - bits
    }
}

fn magnitude_of(bits: u32) -> (m: u32)
    ensures
        m == magnitude(bits),
{
    if bits < 0x8000_0000 {
        bits
    } else {
        bits - 0x8000_0000
    }
}

pub fn numbers_equal(a: u32, b: u32) -> (r: bool)
    ensures
        r == same_number(a, b),
{
    let ma: u32 = magnitude_of(a);
    let mb: u32 = magnitude_of(b);
    ma <= 0x7F80_0000 && mb <= 0x7F80_0000 && (a == b || (ma == 0 && mb == 0))
}

pub fn is_negligible(bits: u32) -> (r: bool)
    ensures
        r == negligible(bits),
{
    magnitude_of(bits) <= 0x3400_0000
}

pub fn is_at_most_epsilon(bits: u32) -> (r: bool)
    ensures
        r == at_most_epsilon(bits),
{
    if bits < 0x8000_0000 {
        bits <= 0x3400_0000
    } else {
        bits - 0x8000_0000 <= 0x7F80_0000
    }
}

pub fn rank_of(bits: u32) -> (r: i64)
    ensures
        r == total_rank(bits),
{
    if bits < 0x8000_0000 {
        bits as i64
    } else {
        0x7FFF_FFFF - bits as i64
    }
}

/// The number is zero or negative.
pub open spec fn not_positive(bits: u32) -> bool {
    bits == 0 || (bits >= 0x8000_0000 && !is_nan(bits))
}

pub fn is_not_positive(bits: u32) -> (r: bool)
    ensures
        r == not_positive(bits),
{
    bits == 0 || (bits >= 0x8000_0000 && bits - 0x8000_0000 <= 0x7F80_0000)
}

/// The rank of a number among the numbers; the two zeros have one rank.
pub open spec fn number_rank(bits: u32) -> int {
    if bits < 0x8000_0000 {
        bits as int
    } else {
        0x8000_0000 - bits
    }
}

pub fn number_rank_of(bits: u32) -> (r: i64)
    ensures
        r == number_rank(bits),
{
    if bits < 0x8000_0000 {
        bits as i64
    } else {
        0x8000_0000 - bits as i64
    }
}

/// Numbers have equal ranks exactly where they are equal.
pub proof fn equal_numbers_have_equal_ranks(a: u32, b: u32)
    requires
        !is_nan(a),
        !is_nan(b),
    ensures
        same_number(a, b) == (number_rank(a) == number_rank(b)),
{
}

/// Different patterns have different ranks, so the total order has no ties.
pub proof fn total_rank_is_injective(a: u32, b: u32)
    requires
        total_rank(a) == total_rank(b),
    ensures
        a == b,
{
}

/// Equality of numbers is symmetric, and every number equals itself.
pub proof fn same_number_is_an_equivalence(a: u32, b: u32, c: u32)
    ensures
        same_number(a, b) == same_number(b, a),
        same_number(a, a) == !is_nan(a),
        same_number(a, b) && same_number(b, c) ==> same_number(a, c),
{
}

/// The greatest power of two that is not above `m`; one for zero.
pub open spec fn leading_power(m: nat) -> nat
    decreases m,
{
    if m < 2 {
        1
    } else {
        2 * leading_power(m / 2)
    }
}

/// The exponent of the greatest power of two that is not above `m`; zero for zero.
pub open spec fn leading_exponent(m: nat) -> nat
    decreases m,
{
    if m < 2 {
        0
    } else {
        1 + leading_exponent(m / 2)
    }
}

/// The pattern of half of `n`, with `n` first rounded to single precision.
pub open spec fn half_pattern(n: nat) -> int {
    if n == 0 {
        0
    } else {
        let m = round24(n);
        let p = leading_power(m);
        (leading_exponent(m) + 126) * 0x80_0000 + ((m - p) * 0x80_0000) / p as int
    }
}

proof fn lemma_leading(m: nat)
    ensures
        leading_power(m) >= 1,
        m >= 1 ==> leading_power(m) <= m < 2 * leading_power(m),
    decreases m,
{
    if m >= 2 {
        lemma_leading(m / 2);
    }
}

proof fn lemma_exponent_bound(m: nat, k: nat)
    requires
        k >= 1,
        m < pow2(k),
    ensures
        leading_exponent(m) < k,
    decreases k,
{
    lemma_pow2_unfold(k);
    if m >= 2 {
        if k == 1 {
            lemma_pow2_unfold(1);
            lemma2_to64();
        } else {
            lemma_exponent_bound(m / 2, (k - 1) as nat);
        }
    }
}

proof fn lemma_round24_positive(n: nat)
    requires
        n >= 1,
    ensures
        round24(n) >= 1,
{
    lemma_unit24_bounds(n);
    let u = unit24(n) as int;
    let x = n as int;
    assert((x / u) * u >= 1 && (x / u + 1) * u >= 1) by (nonlinear_arith)
        requires
            1 <= u <= x,
    ;
}

/// The pattern of half of a count.
pub fn half_bits(n: usize) -> (bits: u32)
    ensures
        bits == half_pattern(n as nat),
{
    if n == 0 {
        return 0;
    }
    let m: u128 = round_count(n as u128);
    proof {
        lemma_round24_positive(n as nat);
        lemma_leading(m as nat);
        lemma2_to64();
        lemma_pow2_unfold(65);
        lemma_exponent_bound(m as nat, 65);
    }
    let mut q: u128 = m;
    let mut p: u128 = 1;
    let mut e: u32 = 0;
    while q >= 2
        invariant
            p >= 1,
            q >= 1,
            p * q <= m,
            m <= 2 * 0xFFFF_FFFF_FFFF_FFFF,
            e + leading_exponent(q as nat) == leading_exponent(m as nat),
            p * leading_power(q as nat) == leading_power(m as nat),
            leading_exponent(m as nat) < 65,
        decreases q,
    {
        let ghost p0 = p as int;
        let ghost q0 = q as int;
        proof {
            let t = leading_power((q / 2) as nat) as int;
            assert(p0 * (2 * t) == (2 * p0) * t) by (nonlinear_arith);
            assert(2 * p0 <= m && (2 * p0) * (q0 / 2) <= m) by (nonlinear_arith)
                requires
                    p0 * q0 <= m,
                    q0 >= 2,
                    p0 >= 1,
            ;
        }
        q = q / 2;
        p = p * 2;
        e = e + 1;
    }
    assert(leading_power(q as nat) == 1);
    assert(p == leading_power(m as nat));
    let d: u128 = m - p;
    assert((d * 0x80_0000) / p as int <= 0x80_0000) by (nonlinear_arith)
        requires
            d < p,
            p >= 1,
    ;
    let f: u128 = (d * 0x80_0000) / p;
    (e + 126) * 0x80_0000 + f as u32
}

} // verus!
