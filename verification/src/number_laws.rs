//! What the stored numbers and their texts mean.

use vstd::prelude::*;
#[allow(unused_imports)]
use crate::color::{
    premultiplied, premultiplied_channels, unmultiplied, unmultiplied_channels, Color, Rgba,
};
#[allow(unused_imports)]
use crate::float_bits::{
    at_most_epsilon, is_nan, negligible, not_positive, number_rank, same_number, total_rank,
};
#[allow(unused_imports)]
use crate::ident::{uid_or, uid_read};
#[allow(unused_imports)]
use crate::mask::{capped, mask_file_path};
#[allow(unused_imports)]
use crate::ratio::{round24, unit24};
#[allow(unused_imports)]
use crate::text::{decimal, digit_char, padded_decimal};

verus! {

/// What a stored number is, by its bits: the first is its sign, and the rest grows with its size, up
/// to infinity; beyond that it is no number.  Two are the same where their bits are, or where both
/// are zero.
pub proof fn stored_numbers_have_a_sign_and_a_size(a: u32, b: u32)
    ensures
        ({
            let ma = a % 0x8000_0000;
            let mb = b % 0x8000_0000;
            &&& is_nan(a) <==> ma > 0x7F80_0000
            &&& same_number(a, b) <==> ma <= 0x7F80_0000 && mb <= 0x7F80_0000 && (a == b || (ma == 0
                && mb == 0))
            &&& negligible(a) <==> ma <= 0x3400_0000
            &&& at_most_epsilon(a) <==> a <= 0x3400_0000 || 0x8000_0000 <= a <= 0xFF80_0000
            &&& not_positive(a) <==> a == 0 || 0x8000_0000 <= a <= 0xFF80_0000
        }),
{
}

/// The ranks put numbers in their order: a negative one before a positive one, of two positive ones
/// the smaller first, of two negative ones the larger in size first.  The one tells a negative zero
/// from a positive one, the other does not.
pub proof fn ranks_put_numbers_in_order(a: u32, b: u32)
    ensures
        a < 0x8000_0000 && b < 0x8000_0000 ==> (total_rank(a) < total_rank(b) <==> a < b),
        a >= 0x8000_0000 && b >= 0x8000_0000 ==> (total_rank(a) < total_rank(b) <==> a > b),
        a >= 0x8000_0000 && b < 0x8000_0000 ==> total_rank(a) < total_rank(b),
        a < 0x8000_0000 && b < 0x8000_0000 ==> (number_rank(a) < number_rank(b) <==> a < b),
        a >= 0x8000_0000 && b >= 0x8000_0000 ==> (number_rank(a) < number_rank(b) <==> a > b),
        a > 0x8000_0000 && b < 0x8000_0000 ==> number_rank(a) < number_rank(b),
        a == 0x8000_0000 && b > 0 && b < 0x8000_0000 ==> number_rank(a) < number_rank(b),
        number_rank(0x8000_0000) == number_rank(0),
{
}

/// A count is rounded to twenty-four binary digits: to the nearest such number, and to the even one
/// of two that are equally near.
pub proof fn counts_are_rounded_to_the_nearest(x: nat)
    ensures
        x < 0x1000000 ==> round24(x) == x,
        x >= 0x1000000 ==> {
            let u = unit24(x);
            &&& u >= 2
            &&& 0x80_0000 <= x / u < 0x1000000
            &&& round24(x) % u == 0
            &&& -(u as int) <= 2 * (round24(x) - x) <= u
            &&& (2 * (round24(x) - x) == u || 2 * (x - round24(x)) == u) ==> (round24(x) / u) % 2
                == 0
        },
{
    let u = unit24(x);
    lemma_unit(x);
    if x < 0x1000000 {
        assert(x / 1 == x && x % 1 == 0);
        assert((x / 1) * 1 == x);
    } else {
        let q = x / u;
        let r = x % u;
        vstd::arithmetic::div_mod::lemma_fundamental_div_mod(x as int, u as int);
        assert(u * q == q * u) by (nonlinear_arith);
        assert((q + 1) * u == q * u + u) by (nonlinear_arith);
        vstd::arithmetic::div_mod::lemma_mod_multiples_basic(q as int, u as int);
        vstd::arithmetic::div_mod::lemma_mod_multiples_basic((q + 1) as int, u as int);
        vstd::arithmetic::div_mod::lemma_div_multiples_vanish(q as int, u as int);
        vstd::arithmetic::div_mod::lemma_div_multiples_vanish((q + 1) as int, u as int);
        assert((q * u) / u == q && ((q + 1) * u) / u == q + 1) by (nonlinear_arith)
            requires
                u > 0,
        ;
    }
}

proof fn lemma_unit(x: nat)
    ensures
        unit24(x) >= 1,
        x < 0x1000000 ==> unit24(x) == 1,
        x >= 0x1000000 ==> unit24(x) >= 2 && 0x80_0000 <= x / unit24(x) < 0x1000000,
    decreases x,
{
    if x >= 0x1000000 {
        lemma_unit(x / 2);
        let v = unit24(x / 2);
        assert(unit24(x) == 2 * v);
        vstd::arithmetic::div_mod::lemma_div_denominator(x as int, 2, v as int);
        assert(x / (2 * v) == (x / 2) / v);
        if x / 2 < 0x1000000 {
            assert((x / 2) / 1 == x / 2);
        }
    }
}

/// The number that a text of digits stands for.
pub open spec fn value_of(s: Seq<char>) -> int
    decreases s.len(),
{
    if s.len() == 0 {
        0
    } else {
        value_of(s.drop_last()) * 10 + (s.last() as int - '0' as int)
    }
}

/// A number is written with the digits that stand for it, and without a zero in front.
pub proof fn numbers_are_written_in_digits(n: nat)
    ensures
        value_of(decimal(n)) == n,
        decimal(n).len() >= 1,
        forall|i: int|
            0 <= i < decimal(n).len() ==> '0' <= #[trigger] decimal(n)[i] && decimal(n)[i] <= '9',
        n > 0 ==> decimal(n)[0] != '0',
    decreases n,
{
    let s = decimal(n);
    if n < 10 {
        assert(s.drop_last() =~= Seq::empty());
        assert(value_of(s.drop_last()) == 0);
    } else {
        numbers_are_written_in_digits(n / 10);
        let head = decimal(n / 10);
        assert(s == head.push(digit_char((n % 10) as int)));
        assert(s.drop_last() =~= head);
        assert(s[0] == head[0]);
        assert forall|i: int| 0 <= i < s.len() implies '0' <= #[trigger] s[i] && s[i] <= '9' by {
            if i < head.len() {
                assert(s[i] == head[i]);
            }
        }
    }
}

/// A number that is padded keeps its digits and has zeros in front, up to the width.
pub proof fn padding_puts_zeros_in_front(n: nat, width: nat, i: int)
    ensures
        ({
            let s = padded_decimal(n, width);
            let d = decimal(n);
            &&& s.len() == if d.len() < width {
                width
            } else {
                d.len()
            }
            &&& 0 <= i < s.len() - d.len() ==> s[i] == '0'
            &&& s.subrange(s.len() - d.len(), s.len() as int) == d
        }),
{
    let s = padded_decimal(n, width);
    let d = decimal(n);
    assert(s.subrange(s.len() - d.len(), s.len() as int) =~= d);
}

/// The mask of a page lies in the directory under the number of the page with five digits.
pub proof fn masks_lie_under_their_page(dir: Seq<char>, page_idx: nat)
    ensures
        ({
            let name = padded_decimal(page_idx, 5) + "_mask.png"@;
            let path = mask_file_path(dir, page_idx);
            &&& dir.len() == 0 || dir.last() == '/' ==> path == dir + name
            &&& dir.len() > 0 && dir.last() != '/' ==> path == dir + "/"@ + name
        }),
{
}

/// An identifier that cannot be read is replaced by the fresh one.
pub proof fn unreadable_identifiers_are_replaced(text: Seq<char>, fresh: u128)
    ensures
        uid_read(text) is Some ==> Some(uid_or(text, fresh)) == uid_read(text),
        uid_read(text) is None ==> uid_or(text, fresh) == fresh,
{
}

/// A count that does not fit becomes the largest that does.
pub proof fn counts_stop_at_the_largest(v: int)
    ensures
        v <= usize::MAX ==> capped(v) == v,
        v > usize::MAX ==> capped(v) == usize::MAX,
{
}

/// A colour keeps its channels apart, whichever way it is stored: each goes in and comes out in its
/// own place.
pub proof fn stored_colours_keep_their_channels(c: Color, p: Rgba)
    ensures
        ({
            let m = premultiplied_channels(p.r, p.g, p.b, p.a);
            let q = premultiplied(p);
            q.r == m.0 && q.g == m.1 && q.b == m.2 && q.a == m.3
        }),
        ({
            let m = unmultiplied_channels(c.r, c.g, c.b, c.a);
            let q = unmultiplied(c);
            q.r == m.0 && q.g == m.1 && q.b == m.2 && q.a == m.3
        }),
{
}

} // verus!
