//! Exact integer forms of the single-precision comparisons between pixel counts.
//!
//! A count converted to single precision keeps its 24 leading bits, and so does a product of such
//! a count with a single-precision share.  Comparisons of the converted values can therefore be
//! decided on integers, without loss.

use vstd::prelude::*;

verus! {

/// `0.30` in single precision is this many times two to the power of minus 25.
pub const SHARE_30: u64 = 0x99999A;

/// `0.45` in single precision is this many times two to the power of minus 25.
pub const SHARE_45: u64 = 0xE66666;

/// The weight of the last of the 24 leading bits of `x`.
pub open spec fn unit24(x: nat) -> nat
    decreases x,
{
    if x < 0x1000000 {
        1
    } else {
        2 * unit24(x / 2)
    }
}

/// The number with at most 24 significant bits that is closest to `x`; of two equally close
/// ones, the one whose last bit is zero.
pub open spec fn round24(x: nat) -> nat {
    let unit = unit24(x);
    let q = x / unit;
    let r = x % unit;
    if 2 * r > unit || (2 * r == unit && q % 2 == 1) {
        (q + 1) * unit
    } else {
        q * unit
    }
}

/// `part` exceeds the share `share / 2^25` of `whole`, both counts and the product taken in
/// single precision.
pub open spec fn exceeds_share(part: nat, whole: nat, share: nat) -> bool {
    round24(part) * 0x2000000 > round24(share * round24(whole))
}

/// The single-precision quotient `part / whole` lies between `0.02` and `0.65`, both included.
pub open spec fn sparse_share(part: nat, whole: nat) -> bool {
    &&& round24(part) * 0x40000000 >= 0x147AE13 * round24(whole)
    &&& round24(part) * 0x2000000 <= 0x14CCCCD * round24(whole)
}

/// The single-precision quotient `part / whole` is at least `0.16`.
pub open spec fn edge_share(part: nat, whole: nat) -> bool {
    round24(part) * 0x8000000 >= 0x147AE13 * round24(whole)
}

pub proof fn lemma_unit24_bounds(x: nat)
    ensures
        unit24(x) >= 1,
        x >= 1 ==> unit24(x) <= x,
    decreases x,
{
    if x >= 0x1000000 {
        lemma_unit24_bounds(x / 2);
    }
}

proof fn lemma_round24_bound(x: nat)
    ensures
        round24(x) <= 2 * x,
{
    lemma_unit24_bounds(x);
    let unit = unit24(x) as int;
    let n = x as int;
    if x == 0 {
        assert(n / unit == 0 && n % unit == 0 && 0 * unit == 0) by (nonlinear_arith)
            requires
                n == 0,
                unit == 1,
        ;
    } else {
        assert((n / unit + 1) * unit <= 2 * n && (n / unit) * unit <= 2 * n) by (nonlinear_arith)
            requires
                1 <= unit <= n,
        ;
    }
}

pub(crate) fn round_count(x: u128) -> (r: u128)
    requires
        x < 0x1_0000_0000_0000_0000_0000_0000_0000,
    ensures
        r == round24(x as nat),
        r <= 2 * x,
{
    let mut q: u128 = x;
    let mut unit: u128 = 1;
    assert(x as int / 1 == x as int) by (nonlinear_arith);
    assert(1 * unit24(x as nat) == unit24(x as nat));
    while q >= 0x1000000
        invariant
            unit >= 1,
            q == x as int / unit as int,
            unit24(x as nat) == unit * unit24(q as nat),
            unit * q <= x,
            x < 0x1_0000_0000_0000_0000_0000_0000_0000,
        decreases q,
    {
        let ghost q0 = q as int;
        let ghost u0 = unit as int;
        let ghost n = x as int;
        proof {
            vstd::arithmetic::div_mod::lemma_div_denominator(n, u0, 2);
            assert(unit24(q as nat) == 2 * unit24((q / 2) as nat));
            let t = unit24((q / 2) as nat) as int;
            assert(u0 * (2 * t) == (u0 * 2) * t) by (nonlinear_arith);
            assert(u0 * 2 <= n && (u0 * 2) * (q0 / 2) <= n) by (nonlinear_arith)
                requires
                    u0 * q0 <= n,
                    q0 >= 2,
                    u0 >= 1,
            ;
        }
        q = q / 2;
        unit = unit * 2;
    }
    assert(unit24(q as nat) == 1);
    assert(unit24(x as nat) == unit) by (nonlinear_arith)
        requires
            unit24(x as nat) == unit * unit24(q as nat),
            unit24(q as nat) == 1,
    ;
    proof {
        lemma_round24_bound(x as nat);
        lemma_unit24_bounds(x as nat);
        let n = x as int;
        let u = unit as int;
        assert(u * (n / u) <= n && (n / u + 1) * u <= 2 * n + 1) by (nonlinear_arith)
            requires
                u >= 1,
                n >= 0,
                u * (n / u) <= n,
                n >= 1 ==> u <= n,
                n == 0 ==> u == 1,
        ;
        assert(q * unit == unit * q) by (nonlinear_arith);
    }
    let r: u128 = x % unit;
    if r > unit - r || (r == unit - r && q % 2 == 1) {
        (q + 1) * unit
    } else {
        q * unit
    }
}

/// Whether `part` is more than `share / 2^25` of `whole` in single precision.
pub fn more_than_share(part: u64, whole: u64, share: u64) -> (b: bool)
    requires
        share < 0x1000000,
    ensures
        b == exceeds_share(part as nat, whole as nat, share as nat),
{
    let p: u128 = round_count(part as u128);
    let w: u128 = round_count(whole as u128);
    let s: u128 = share as u128;
    assert(s * w <= 0xFFFFFF * 0x1_FFFF_FFFF_FFFF_FFFEu128) by (nonlinear_arith)
        requires
            s <= 0xFFFFFF,
            w <= 0x1_FFFF_FFFF_FFFF_FFFE,
    ;
    p * 0x2000000 > round_count(s * w)
}

/// Whether the single-precision quotient of two counts lies in the band of sparse ink.
pub fn is_sparse_share(part: u64, whole: u64) -> (b: bool)
    ensures
        b == sparse_share(part as nat, whole as nat),
{
    let p: u128 = round_count(part as u128);
    let w: u128 = round_count(whole as u128);
    p * 0x40000000 >= 0x147AE13 * w && p * 0x2000000 <= 0x14CCCCD * w
}

/// Whether the single-precision quotient of two counts reaches the share of thin strokes.
pub fn is_edge_share(part: u64, whole: u64) -> (b: bool)
    ensures
        b == edge_share(part as nat, whole as nat),
{
    let p: u128 = round_count(part as u128);
    let w: u128 = round_count(whole as u128);
    p * 0x8000000 >= 0x147AE13 * w
}

} // verus!
