//! Pixel operations of the text cleaner: which background surrounds a text mask, how far the mask
//! has to spread until that background is even, and what may be painted over.

use vstd::prelude::*;
use vstd::relations::{sorted_by, total_ordering};
use crate::color::{Color, ColorImage, GrayImage, Rgb, Rgba, RgbImage, RgbaImage};
use crate::flood::{flood, frame};
#[allow(unused_imports)]
use crate::flood::{frame_seeds, reached};
#[allow(unused_imports)]
use crate::lists::lemma_push_contains;
use crate::raster::{Grid, Raster};
#[allow(unused_imports)]
use crate::raster::{grid_of, lemma_grid_eq, lemma_grid_of, lemma_offset, lemma_position, lemma_with_at};
#[allow(unused_imports)]
use crate::ratio::{edge_share, exceeds_share, sparse_share};
use crate::ratio::{is_edge_share, is_sparse_share, more_than_share, SHARE_30, SHARE_45};

verus! {

/// How far a fresh text mask is thickened, in pixels.
pub const AUTOCLEAN_INITIAL_DILATE: i32 = 2;

/// How far a fill reaches past its area into the background, in pixels.
pub const AUTOCLEAN_FILL_PADDING: i32 = 2;

/// How much two colours may differ in any channel and still count as the same.
pub const AUTOCLEAN_SAME_TOL: i32 = 16;

pub open spec fn difference(a: int, b: int) -> int {
    if a < b {
        b - a
    } else {
        a - b
    }
}

pub open spec fn larger(a: int, b: int) -> int {
    if a < b {
        b
    } else {
        a
    }
}

pub open spec fn smaller(a: int, b: int) -> int {
    if a < b {
        a
    } else {
        b
    }
}

/// The largest difference of two colours in one channel.
pub open spec fn channel_distance(a: Rgb, b: Rgb) -> int {
    larger(
        larger(difference(a.r as int, b.r as int), difference(a.g as int, b.g as int)),
        difference(a.b as int, b.b as int),
    )
}

fn byte_difference(a: u8, b: u8) -> (d: i32)
    ensures
        d == difference(a as int, b as int),
{
    if a < b {
        (b - a) as i32
    } else {
        (a - b) as i32
    }
}

pub fn chan_dist(a: Rgb, b: Rgb) -> (d: i32)
    ensures
        d == channel_distance(a, b),
{
    let r: i32 = byte_difference(a.r, b.r);
    let g: i32 = byte_difference(a.g, b.g);
    let b: i32 = byte_difference(a.b, b.b);
    let rg: i32 = if r < g { g } else { r };
    if rg < b {
        b
    } else {
        rg
    }
}

/// The pixel has the colour `bg`, within the tolerance.
pub open spec fn like(rgb: Grid<Rgb>, x: int, y: int, bg: Rgb) -> bool {
    channel_distance(rgb.at(x, y), bg) <= AUTOCLEAN_SAME_TOL
}

fn is_like(rgb: &RgbImage, x: usize, y: usize, bg: Rgb) -> (b: bool)
    requires
        rgb.wf(),
        rgb@.inside(x as int, y as int),
    ensures
        b == like(rgb@, x as int, y as int, bg),
{
    chan_dist(rgb.get(x, y), bg) <= AUTOCLEAN_SAME_TOL
}

/// The mask is set at `(x, y)`; it is clear outside the picture.
pub open spec fn on(mask: Grid<u8>, x: int, y: int) -> bool {
    mask.inside(x, y) && mask.at(x, y) != 0
}

/// The mask is set at a side neighbour of `(x, y)`.
pub open spec fn beside(mask: Grid<u8>, x: int, y: int) -> bool {
    on(mask, x - 1, y) || on(mask, x + 1, y) || on(mask, x, y - 1) || on(mask, x, y + 1)
}

fn is_beside(mask: &GrayImage, x: usize, y: usize) -> (b: bool)
    requires
        mask.wf(),
        mask@.inside(x as int, y as int),
    ensures
        b == beside(mask@, x as int, y as int),
{
    (x > 0 && mask.get(x - 1, y) != 0) || (x + 1 < mask.w && mask.get(x + 1, y) != 0) || (y > 0
        && mask.get(x, y - 1) != 0) || (y + 1 < mask.h && mask.get(x, y + 1) != 0)
}

/// Any pixel of the mask is set.
pub open spec fn any_on(mask: Grid<u8>) -> bool {
    exists|x: int, y: int| on(mask, x, y)
}

pub fn has_foreground(mask: &GrayImage) -> (b: bool)
    requires
        mask.wf(),
    ensures
        b == any_on(mask@),
{
    let n: usize = mask.px.len();
    let mut i: usize = 0;
    while i < n
        invariant
            i <= n,
            n == mask@.px.len(),
            mask.wf(),
            forall|k: int| 0 <= k < i ==> #[trigger] mask@.px[k] == 0,
        decreases n - i,
    {
        if mask.px[i] != 0 {
            proof {
                lemma_position(mask@.w, mask@.h, i as int);
                assert(on(mask@, i as int % mask@.w, i as int / mask@.w));
            }
            return true;
        }
        i += 1;
    }
    proof {
        assert forall|x: int, y: int| !on(mask@, x, y) by {
            if mask@.inside(x, y) {
                lemma_offset(mask@.w, mask@.h, x, y);
            }
        }
    }
    false
}

/// The fill of `fill_holes`: what is clear and cut off from the frame becomes set.
pub open spec fn holes_filled(mask: Grid<u8>) -> Grid<u8> {
    grid_of(
        mask.w,
        mask.h,
        |x: int, y: int|
            if mask.at(x, y) == 0 && !reached(
                clear_pixels(mask),
                frame_seeds(mask.w, mask.h),
                x,
                y,
            ) {
                255u8
            } else {
                mask.at(x, y)
            },
    )
}

/// The picture that marks the clear pixels of a mask.
pub open spec fn clear_pixels(mask: Grid<u8>) -> Grid<bool> {
    grid_of(mask.w, mask.h, |x: int, y: int| mask.at(x, y) == 0)
}

fn mark_clear(mask: &GrayImage) -> (r: Raster<bool>)
    requires
        mask.wf(),
    ensures
        r.wf(),
        r@ == clear_pixels(mask@),
{
    let n: usize = mask.px.len();
    let mut px: Vec<bool> = Vec::new();
    let mut i: usize = 0;
    while i < n
        invariant
            i <= n,
            n == mask@.px.len(),
            mask.wf(),
            px@ == Seq::new(i as nat, |k: int| mask@.px[k] == 0),
        decreases n - i,
    {
        px.push(mask.px[i] == 0);
        i += 1;
        assert(px@ =~= Seq::new(i as nat, |k: int| mask@.px[k] == 0));
    }
    let r = Raster { w: mask.w, h: mask.h, px };
    proof {
        assert forall|k: int| 0 <= k < n implies #[trigger] r@.px[k] == clear_pixels(mask@).px[k] by {
            lemma_position(mask@.w, mask@.h, k);
        }
        assert(r@ =~= clear_pixels(mask@));
    }
    r
}

/// Sets the clear pixels that the mask encloses.
pub fn fill_holes(mask: &mut GrayImage)
    requires
        old(mask).wf(),
    ensures
        final(mask).wf(),
        final(mask)@ == holes_filled(old(mask)@),
{
    let ghost before = mask@;
    let open = mark_clear(mask);
    assert(mask.px.len() <= usize::MAX);
    let seeds = frame(mask.w, mask.h);
    let outside = flood(&open, &seeds);
    let n: usize = mask.px.len();
    let mut i: usize = 0;
    while i < n
        invariant
            i <= n,
            n == before.px.len(),
            before.valid(),
            mask.wf(),
            mask@.same_size(before),
            outside.wf(),
            outside@.same_size(before),
            forall|x: int, y: int|
                before.inside(x, y) ==> #[trigger] outside@.at(x, y) == reached(
                    clear_pixels(before),
                    frame_seeds(before.w, before.h),
                    x,
                    y,
                ),
            forall|k: int|
                0 <= k < n ==> #[trigger] mask@.px[k] == if k < i {
                    holes_filled(before).px[k]
                } else {
                    before.px[k]
                },
        decreases n - i,
    {
        proof {
            lemma_position(before.w, before.h, i as int);
            assert(outside@.at(i as int % before.w, i as int / before.w) == outside@.px[i as int]);
        }
        if !outside.px[i] && mask.px[i] == 0 {
            mask.px.set(i, 255);
        }
        i += 1;
    }
    assert(mask@ =~= holes_filled(before));
}

/// Some set pixel lies within `r` columns and `r` rows of `(x, y)`.
pub open spec fn on_within(mask: Grid<u8>, r: int, x: int, y: int) -> bool {
    exists|a: int, b: int| #[trigger] on(mask, a, b) && -r <= a - x <= r && -r <= b - y <= r
}

/// The mask grown by `r` pixels in every direction.
pub open spec fn dilated(mask: Grid<u8>, r: int) -> Grid<u8> {
    grid_of(
        mask.w,
        mask.h,
        |x: int, y: int|
            if mask.at(x, y) == 0 && on_within(mask, r, x, y) {
                255u8
            } else {
                mask.at(x, y)
            },
    )
}

fn any_on_around(mask: &GrayImage, x: usize, y: usize) -> (b: bool)
    requires
        mask.wf(),
        mask@.inside(x as int, y as int),
    ensures
        b == on_within(mask@, 1, x as int, y as int),
{
    let x0: usize = if x > 0 { x - 1 } else { 0 };
    let y0: usize = if y > 0 { y - 1 } else { 0 };
    let x1: usize = if x < mask.w - 1 { x + 1 } else { mask.w - 1 };
    let y1: usize = if y < mask.h - 1 { y + 1 } else { mask.h - 1 };
    let mut b: usize = y0;
    while b <= y1
        invariant
            mask.wf(),
            mask@.inside(x as int, y as int),
            x0 <= x <= x0 + 1,
            y0 <= y <= y0 + 1,
            x <= x1 <= x + 1,
            y <= y1 <= y + 1,
            x1 < mask.w,
            y1 < mask.h,
            x1 == x + 1 || x1 == mask.w - 1,
            y1 == y + 1 || y1 == mask.h - 1,
            x0 == x - 1 || x0 == 0,
            y0 == y - 1 || y0 == 0,
            y0 <= b <= y1 + 1,
            forall|c: int, d: int| x0 <= c <= x1 && y0 <= d < b ==> !#[trigger] on(mask@, c, d),
        decreases y1 + 1 - b,
    {
        let mut a: usize = x0;
        while a <= x1
            invariant
                mask.wf(),
                mask@.inside(x as int, y as int),
                x0 <= x <= x0 + 1,
                y0 <= y <= y0 + 1,
                x <= x1 <= x + 1,
                y <= y1 <= y + 1,
                x1 < mask.w,
                y1 < mask.h,
                y0 <= b <= y1,
                x0 <= a <= x1 + 1,
                forall|c: int, d: int| x0 <= c <= x1 && y0 <= d < b ==> !#[trigger] on(mask@, c, d),
                forall|c: int| x0 <= c < a ==> !#[trigger] on(mask@, c, b as int),
            decreases x1 + 1 - a,
        {
            if mask.get(a, b) != 0 {
                assert(on(mask@, a as int, b as int));
                return true;
            }
            a += 1;
        }
        b += 1;
    }
    false
}

fn dilate_once(mask: &mut GrayImage)
    requires
        old(mask).wf(),
    ensures
        final(mask).wf(),
        final(mask)@ == dilated(old(mask)@, 1),
{
    let src = mask.copied();
    let ghost before = mask@;
    let n: usize = mask.px.len();
    let mut i: usize = 0;
    while i < n
        invariant
            i <= n,
            n == before.px.len(),
            src@ == before,
            before.valid(),
            mask.wf(),
            mask@.same_size(before),
            forall|k: int|
                0 <= k < n ==> #[trigger] mask@.px[k] == if k < i {
                    dilated(before, 1).px[k]
                } else {
                    before.px[k]
                },
        decreases n - i,
    {
        proof {
            lemma_position(before.w, before.h, i as int);
        }
        let x: usize = i % src.w;
        let y: usize = i / src.w;
        if src.px[i] == 0 && any_on_around(&src, x, y) {
            mask.px.set(i, 255);
        }
        i += 1;
    }
    assert(mask@ =~= dilated(before, 1));
}

proof fn lemma_dilated_step(mask: Grid<u8>, r: int)
    requires
        mask.valid(),
        r >= 0,
    ensures
        dilated(dilated(mask, r), 1) == dilated(mask, r + 1),
        dilated(mask, 0) == mask,
{
    let d = dilated(mask, r);
    let f = |x: int, y: int|
        if mask.at(x, y) == 0 && on_within(mask, r, x, y) {
            255u8
        } else {
            mask.at(x, y)
        };
    lemma_grid_of(mask.w, mask.h, f);
    let f0 = |x: int, y: int|
        if mask.at(x, y) == 0 && on_within(mask, 0, x, y) {
            255u8
        } else {
            mask.at(x, y)
        };
    lemma_grid_of(mask.w, mask.h, f0);
    let f1 = |x: int, y: int|
        if mask.at(x, y) == 0 && on_within(mask, r + 1, x, y) {
            255u8
        } else {
            mask.at(x, y)
        };
    lemma_grid_of(mask.w, mask.h, f1);
    let g1 = |x: int, y: int|
        if d.at(x, y) == 0 && on_within(d, 1, x, y) {
            255u8
        } else {
            d.at(x, y)
        };
    lemma_grid_of(mask.w, mask.h, g1);
    assert forall|x: int, y: int| mask.inside(x, y) implies #[trigger] dilated(mask, 0).at(x, y)
        == mask.at(x, y) by {
        assert(f0(x, y) == dilated(mask, 0).at(x, y));
        if on_within(mask, 0, x, y) {
            let (a, b) = choose|a: int, b: int| #[trigger]
                on(mask, a, b) && -0 <= a - x <= 0 && -0 <= b - y <= 0;
            assert(on(mask, x, y));
        }
    }
    lemma_grid_eq(dilated(mask, 0), mask);
    assert forall|x: int, y: int| mask.inside(x, y) implies #[trigger] dilated(d, 1).at(x, y)
        == dilated(mask, r + 1).at(x, y) by {
        assert(g1(x, y) == dilated(d, 1).at(x, y));
        assert(f1(x, y) == dilated(mask, r + 1).at(x, y));
        assert(f(x, y) == d.at(x, y));
        if on_within(d, 1, x, y) {
            let (a, b) = choose|a: int, b: int| #[trigger]
                on(d, a, b) && -1 <= a - x <= 1 && -1 <= b - y <= 1;
            assert(f(a, b) == d.at(a, b));
            if mask.at(a, b) == 0 {
                assert(on_within(mask, r, a, b));
                let (c, e) = choose|c: int, e: int| #[trigger]
                    on(mask, c, e) && -r <= c - a <= r && -r <= e - b <= r;
                assert(on(mask, c, e));
            } else {
                assert(on(mask, a, b));
            }
            assert(on_within(mask, r + 1, x, y));
        }
        if on_within(mask, r + 1, x, y) {
            let (c, e) = choose|c: int, e: int| #[trigger]
                on(mask, c, e) && -(r + 1) <= c - x <= r + 1 && -(r + 1) <= e - y <= r + 1;
            let a = if c < x { x - 1 } else if c > x { x + 1 } else { x };
            let b = if e < y { y - 1 } else if e > y { y + 1 } else { y };
            assert(mask.inside(a, b));
            assert(on_within(mask, r, a, b));
            assert(f(a, b) == d.at(a, b));
            assert(on(d, a, b));
            assert(on_within(d, 1, x, y));
        }
        if on_within(mask, r, x, y) {
            let (c, e) = choose|c: int, e: int| #[trigger]
                on(mask, c, e) && -r <= c - x <= r && -r <= e - y <= r;
            assert(on(mask, c, e));
            assert(on_within(mask, r + 1, x, y));
        }
    }
    lemma_grid_eq(dilated(d, 1), dilated(mask, r + 1));
}

/// Grows a mask by `r` pixels.
pub fn dilate_gray_inplace(mask: &mut GrayImage, r: i32)
    requires
        old(mask).wf(),
    ensures
        final(mask).wf(),
        final(mask)@ == if r > 0 {
            dilated(old(mask)@, r as int)
        } else {
            old(mask)@
        },
{
    let ghost before = mask@;
    let mut k: i32 = 0;
    proof {
        lemma_dilated_step(before, 0);
    }
    while k < r
        invariant
            0 <= k,
            k <= r || k == 0,
            mask.wf(),
            before.valid(),
            mask@ == dilated(before, k as int),
        decreases r - k,
    {
        proof {
            lemma_dilated_step(before, k as int);
        }
        dilate_once(mask);
        k += 1;
    }
    proof {
        lemma_dilated_step(before, 0);
    }
}

/// A clear pixel with a set side neighbour.
pub open spec fn is_ring(mask: Grid<u8>, x: int, y: int) -> bool {
    mask.inside(x, y) && mask.at(x, y) == 0 && beside(mask, x, y)
}

/// The ring pixels among the first `n` pixels, in storage order.
pub open spec fn ring_before(mask: Grid<u8>, n: nat) -> Seq<(usize, usize)>
    decreases n,
{
    if n == 0 {
        Seq::empty()
    } else {
        let x = (n - 1) % mask.w;
        let y = (n - 1) / mask.w;
        let before = ring_before(mask, (n - 1) as nat);
        if is_ring(mask, x, y) {
            before.push((x as usize, y as usize))
        } else {
            before
        }
    }
}

/// The one-pixel ring around a mask.
pub open spec fn ring_of(mask: Grid<u8>) -> Seq<(usize, usize)> {
    ring_before(mask, mask.px.len())
}

/// The sides of the picture fit the machine.
spec fn fits(w: int, h: int) -> bool {
    0 <= w <= usize::MAX && 0 <= h <= usize::MAX
}

proof fn lemma_ring_members(mask: Grid<u8>, n: nat)
    requires
        mask.valid(),
        fits(mask.w, mask.h),
        n <= mask.px.len(),
    ensures
        ring_before(mask, n).len() <= n,
        forall|i: int|
            0 <= i < ring_before(mask, n).len() ==> is_ring(
                mask,
                #[trigger] ring_before(mask, n)[i].0 as int,
                ring_before(mask, n)[i].1 as int,
            ),
        forall|x: int, y: int|
            #[trigger] is_ring(mask, x, y) && y * mask.w + x < n ==> ring_before(mask, n).contains(
                (x as usize, y as usize),
            ),
    decreases n,
{
    if n > 0 {
        let m = (n - 1) as nat;
        lemma_ring_members(mask, m);
        lemma_position(mask.w, mask.h, n - 1);
        let now = ring_before(mask, n);
        let before = ring_before(mask, m);
        assert forall|x: int, y: int| #[trigger] is_ring(mask, x, y) && y * mask.w + x < n implies now.contains(
            (x as usize, y as usize),
        ) by {
            lemma_offset(mask.w, mask.h, x, y);
            if y * mask.w + x < m {
                let k = choose|k: int|
                    0 <= k < before.len() && before[k] == (x as usize, y as usize);
                assert(now[k] == (x as usize, y as usize));
            } else {
                assert(now[now.len() - 1] == (x as usize, y as usize));
            }
        }
    }
}

/// The ring around a mask, in storage order.
pub fn outer_ring(mask: &GrayImage) -> (ring: Vec<(usize, usize)>)
    requires
        mask.wf(),
    ensures
        ring@ == ring_of(mask@),
{
    let n: usize = mask.px.len();
    let mut ring: Vec<(usize, usize)> = Vec::new();
    let mut i: usize = 0;
    while i < n
        invariant
            i <= n,
            n == mask@.px.len(),
            mask.wf(),
            ring@ == ring_before(mask@, i as nat),
        decreases n - i,
    {
        proof {
            lemma_position(mask@.w, mask@.h, i as int);
        }
        let x: usize = i % mask.w;
        let y: usize = i / mask.w;
        if mask.px[i] == 0 && is_beside(mask, x, y) {
            ring.push((x, y));
        }
        i += 1;
    }
    ring
}

pub open spec fn byte_le() -> spec_fn(u8, u8) -> bool {
    |a: u8, b: u8| a <= b
}

/// The element in the middle of the sorted sequence; the upper one of two.
pub open spec fn median_of(s: Seq<u8>) -> u8 {
    s.sort_by(byte_le())[(s.len() / 2) as int]
}

/// Calls `<[u8]>::sort_unstable`, which puts the elements in ascending order.
#[verifier::external_body]
fn sort_bytes(values: &mut [u8])
    ensures
        final(values)@.to_multiset() == old(values)@.to_multiset(),
        forall|i: int, j: int|
            0 <= i <= j < final(values)@.len() ==> final(values)@[i] <= final(values)@[j],
{
    values.sort_unstable();
}

/// Sorts the bytes and returns the middle one.
pub fn median_u8(values: &mut [u8]) -> (m: u8)
    requires
        old(values)@.len() > 0,
    ensures
        final(values)@ == old(values)@.sort_by(byte_le()),
        m == median_of(old(values)@),
{
    let ghost before = values@;
    sort_bytes(values);
    proof {
        let leq = byte_le();
        assert(total_ordering(leq));
        before.lemma_sort_by_ensures(leq);
        assert(sorted_by(values@, leq)) by {
            assert forall|i: int, j: int| 0 <= i < j < values@.len() implies #[trigger] leq(
                values@[i],
                values@[j],
            ) by {
            }
        }
        vstd::seq_lib::lemma_sorted_unique(values@, before.sort_by(leq), leq);
        vstd::seq_lib::to_multiset_len(before);
        vstd::seq_lib::to_multiset_len(values@);
    }
    values[values.len() / 2]
}

/// The values of one channel along a list of pixels.
pub open spec fn along(
    rgb: Grid<Rgb>,
    ring: Seq<(usize, usize)>,
    channel: spec_fn(Rgb) -> u8,
) -> Seq<u8> {
    Seq::new(ring.len(), |i: int| channel(rgb.at(ring[i].0 as int, ring[i].1 as int)))
}

/// The colour whose channels are the medians along a ring.
pub open spec fn ring_colour(rgb: Grid<Rgb>, ring: Seq<(usize, usize)>) -> Rgb {
    Rgb {
        r: median_of(along(rgb, ring, |p: Rgb| p.r)),
        g: median_of(along(rgb, ring, |p: Rgb| p.g)),
        b: median_of(along(rgb, ring, |p: Rgb| p.b)),
    }
}

/// Every listed pixel lies in the picture.
pub open spec fn all_inside<T>(g: Grid<T>, ring: Seq<(usize, usize)>) -> bool {
    forall|i: int|
        0 <= i < ring.len() ==> g.inside(#[trigger] ring[i].0 as int, ring[i].1 as int)
}

/// The background colour around a mask: the median of its ring in each channel.
pub fn ring_background(rgb: &RgbImage, ring: &Vec<(usize, usize)>) -> (bg: Rgb)
    requires
        rgb.wf(),
        ring@.len() > 0,
        all_inside(rgb@, ring@),
    ensures
        bg == ring_colour(rgb@, ring@),
{
    let mut rs: Vec<u8> = Vec::new();
    let mut gs: Vec<u8> = Vec::new();
    let mut bs: Vec<u8> = Vec::new();
    let mut i: usize = 0;
    while i < ring.len()
        invariant
            i <= ring@.len(),
            rgb.wf(),
            all_inside(rgb@, ring@),
            rs@ == along(rgb@, ring@, |p: Rgb| p.r).take(i as int),
            gs@ == along(rgb@, ring@, |p: Rgb| p.g).take(i as int),
            bs@ == along(rgb@, ring@, |p: Rgb| p.b).take(i as int),
        decreases ring@.len() - i,
    {
        let (x, y) = ring[i];
        assert(rgb@.inside(ring@[i as int].0 as int, ring@[i as int].1 as int));
        let p = rgb.get(x, y);
        rs.push(p.r);
        gs.push(p.g);
        bs.push(p.b);
        i += 1;
        assert(rs@ =~= along(rgb@, ring@, |p: Rgb| p.r).take(i as int));
        assert(gs@ =~= along(rgb@, ring@, |p: Rgb| p.g).take(i as int));
        assert(bs@ =~= along(rgb@, ring@, |p: Rgb| p.b).take(i as int));
    }
    assert(rs@ =~= along(rgb@, ring@, |p: Rgb| p.r));
    assert(gs@ =~= along(rgb@, ring@, |p: Rgb| p.g));
    assert(bs@ =~= along(rgb@, ring@, |p: Rgb| p.b));
    let r: u8 = median_u8(rs.as_mut_slice());
    let g: u8 = median_u8(gs.as_mut_slice());
    let b: u8 = median_u8(bs.as_mut_slice());
    Rgb { r, g, b }
}

/// `v` moved by `k` in the direction of the sign of `d`.
pub open spec fn moved_by(v: int, d: int, k: int) -> int {
    if d > 0 {
        v + k
    } else if d < 0 {
        v - k
    } else {
        v
    }
}

/// One of the first `reach` pixels from `(x, y)` in a direction has the colour `bg`.
pub open spec fn ray_meets(
    rgb: Grid<Rgb>,
    x: int,
    y: int,
    dx: int,
    dy: int,
    bg: Rgb,
    reach: int,
) -> bool {
    exists|k: int|
        1 <= k <= reach && rgb.inside(moved_by(x, dx, k), moved_by(y, dy, k)) && #[trigger] like(
            rgb,
            moved_by(x, dx, k),
            moved_by(y, dy, k),
            bg,
        )
}

/// Away from the mask the background returns within `reach` pixels of `(x, y)`.
pub open spec fn background_returns(
    rgb: Grid<Rgb>,
    mask: Grid<u8>,
    x: int,
    y: int,
    bg: Rgb,
    reach: int,
) -> bool {
    if on(mask, x - 1, y) {
        ray_meets(rgb, x, y, 1, 0, bg, reach)
    } else if on(mask, x + 1, y) {
        ray_meets(rgb, x, y, -1, 0, bg, reach)
    } else if on(mask, x, y - 1) {
        ray_meets(rgb, x, y, 0, 1, bg, reach)
    } else if on(mask, x, y + 1) {
        ray_meets(rgb, x, y, 0, -1, bg, reach)
    } else {
        true
    }
}

fn probe_ray(rgb: &RgbImage, x: usize, y: usize, dx: i32, dy: i32, bg: Rgb, reach: i32) -> (b: bool)
    requires
        rgb.wf(),
        rgb@.inside(x as int, y as int),
        -1 <= dx <= 1,
        -1 <= dy <= 1,
        dx != 0 || dy != 0,
    ensures
        b == ray_meets(rgb@, x as int, y as int, dx as int, dy as int, bg, reach as int),
{
    let mut k: i32 = 1;
    let mut px: usize = x;
    let mut py: usize = y;
    while k <= reach
        invariant
            1 <= k,
            k <= reach + 1 || k == 1,
            rgb.wf(),
            -1 <= dx <= 1,
            -1 <= dy <= 1,
            dx != 0 || dy != 0,
            px == moved_by(x as int, dx as int, k - 1),
            py == moved_by(y as int, dy as int, k - 1),
            rgb@.inside(px as int, py as int),
            forall|j: int|
                1 <= j < k ==> !#[trigger] like(
                    rgb@,
                    moved_by(x as int, dx as int, j),
                    moved_by(y as int, dy as int, j),
                    bg,
                ),
        decreases reach + 1 - k,
    {
        if (dx < 0 && px == 0) || (dy < 0 && py == 0) || (dx > 0 && px + 1 >= rgb.w) || (dy > 0
            && py + 1 >= rgb.h) {
            return false;
        }
        if dx < 0 {
            px = px - 1;
        } else if dx > 0 {
            px = px + 1;
        }
        if dy < 0 {
            py = py - 1;
        } else if dy > 0 {
            py = py + 1;
        }
        if is_like(rgb, px, py, bg) {
            assert(like(
                rgb@,
                moved_by(x as int, dx as int, k as int),
                moved_by(y as int, dy as int, k as int),
                bg,
            ));
            return true;
        }
        if k == i32::MAX {
            return false;
        }
        k += 1;
    }
    false
}

/// Whether a differing ring pixel belongs to a stroke, beyond which the background returns.
pub fn probe_outward_bg(
    rgb: &RgbImage,
    mask: &GrayImage,
    x: usize,
    y: usize,
    bg: Rgb,
    stroke_probe: i32,
) -> (b: bool)
    requires
        rgb.wf(),
        mask.wf(),
        mask@.same_size(rgb@),
        mask@.inside(x as int, y as int),
    ensures
        b == background_returns(rgb@, mask@, x as int, y as int, bg, stroke_probe as int),
{
    if x > 0 && mask.get(x - 1, y) != 0 {
        probe_ray(rgb, x, y, 1, 0, bg, stroke_probe)
    } else if x + 1 < mask.w && mask.get(x + 1, y) != 0 {
        probe_ray(rgb, x, y, -1, 0, bg, stroke_probe)
    } else if y > 0 && mask.get(x, y - 1) != 0 {
        probe_ray(rgb, x, y, 0, 1, bg, stroke_probe)
    } else if y + 1 < mask.h && mask.get(x, y + 1) != 0 {
        probe_ray(rgb, x, y, 0, -1, bg, stroke_probe)
    } else {
        true
    }
}

/// Clears the side neighbours of `(x, y)`.
pub open spec fn eroded_around(mask: Grid<u8>, x: int, y: int) -> Grid<u8> {
    grid_of(
        mask.w,
        mask.h,
        |a: int, b: int|
            if side_by_side(a, b, x, y) {
                0u8
            } else {
                mask.at(a, b)
            },
    )
}

/// The two positions share a side.
pub open spec fn side_by_side(a: int, b: int, x: int, y: int) -> bool {
    (a == x && difference(b, y) == 1) || (b == y && difference(a, x) == 1)
}

pub fn erode_around(mask: &mut GrayImage, x: usize, y: usize)
    requires
        old(mask).wf(),
        old(mask)@.inside(x as int, y as int),
    ensures
        final(mask).wf(),
        final(mask)@ == eroded_around(old(mask)@, x as int, y as int),
{
    broadcast use lemma_with_at;

    let ghost before = mask@;
    if x > 0 {
        mask.set(x - 1, y, 0);
    }
    if x + 1 < mask.w {
        mask.set(x + 1, y, 0);
    }
    if y > 0 {
        mask.set(x, y - 1, 0);
    }
    if y + 1 < mask.h {
        mask.set(x, y + 1, 0);
    }
    proof {
        let f = |a: int, b: int|
            if side_by_side(a, b, x as int, y as int) {
                0u8
            } else {
                before.at(a, b)
            };
        lemma_grid_of(before.w, before.h, f);
        lemma_grid_eq(mask@, eroded_around(before, x as int, y as int));
    }
}

/// A ring pixel of another colour than the background.
pub open spec fn differs(rgb: Grid<Rgb>, mask: Grid<u8>, bg: Rgb, x: int, y: int) -> bool {
    is_ring(mask, x, y) && !like(rgb, x, y, bg)
}

/// A differing ring pixel that belongs to a stroke: the mask spreads over it.
pub open spec fn grows(rgb: Grid<Rgb>, mask: Grid<u8>, bg: Rgb, reach: int, x: int, y: int) -> bool {
    differs(rgb, mask, bg, x, y) && background_returns(rgb, mask, x, y, bg, reach)
}

/// A differing ring pixel that belongs to another object: the mask draws back from it.
pub open spec fn retreats(
    rgb: Grid<Rgb>,
    mask: Grid<u8>,
    bg: Rgb,
    reach: int,
    x: int,
    y: int,
) -> bool {
    differs(rgb, mask, bg, x, y) && !background_returns(rgb, mask, x, y, bg, reach)
}

/// The mask after one round: the growing pixels are set, then the neighbours of the retreating
/// ones cleared.
pub open spec fn moved_mask(
    rgb: Grid<Rgb>,
    mask: Grid<u8>,
    bg: Rgb,
    reach: int,
    grow: bool,
    retreat: bool,
) -> Grid<u8> {
    grid_of(
        mask.w,
        mask.h,
        |x: int, y: int|
            if retreat && (retreats(rgb, mask, bg, reach, x - 1, y) || retreats(
                rgb,
                mask,
                bg,
                reach,
                x + 1,
                y,
            ) || retreats(rgb, mask, bg, reach, x, y - 1) || retreats(
                rgb,
                mask,
                bg,
                reach,
                x,
                y + 1,
            )) {
                0u8
            } else if grow && grows(rgb, mask, bg, reach, x, y) {
                255u8
            } else {
                mask.at(x, y)
            },
    )
}

/// How many of the first `n` pixels of a list differ from the background.
pub open spec fn far_count(rgb: Grid<Rgb>, ring: Seq<(usize, usize)>, bg: Rgb, n: nat) -> nat
    decreases n,
{
    if n == 0 {
        0
    } else {
        far_count(rgb, ring, bg, (n - 1) as nat) + if like(
            rgb,
            ring[n - 1].0 as int,
            ring[n - 1].1 as int,
            bg,
        ) {
            0nat
        } else {
            1nat
        }
    }
}

/// The outcome of `grow_until_homogeneous` with the given numbers of rounds left: the background
/// and whether the mask ever drew back, or nothing; and the mask.
pub open spec fn grown(
    rgb: Grid<Rgb>,
    mask: Grid<u8>,
    expand_left: nat,
    retreat_left: nat,
    reach: int,
    retreated: bool,
) -> (Option<(Rgb, bool)>, Grid<u8>)
    decreases expand_left + retreat_left,
{
    let ring = ring_of(mask);
    let bg = ring_colour(rgb, ring);
    let far = far_count(rgb, ring, bg, ring.len());
    let grow = expand_left > 0 && exists|x: int, y: int| grows(rgb, mask, bg, reach, x, y);
    let retreat = retreat_left > 0 && exists|x: int, y: int| retreats(rgb, mask, bg, reach, x, y);
    if ring.len() == 0 {
        (None, mask)
    } else if far == 0 {
        (Some((bg, retreated)), mask)
    } else if exceeds_share(far, ring.len(), SHARE_30 as nat) {
        (None, mask)
    } else if !grow && !retreat {
        (None, mask)
    } else {
        grown(
            rgb,
            moved_mask(rgb, mask, bg, reach, grow, retreat),
            if grow {
                (expand_left - 1) as nat
            } else {
                expand_left
            },
            if retreat {
                (retreat_left - 1) as nat
            } else {
                retreat_left
            },
            reach,
            retreated || retreat,
        )
    }
}

pub open spec fn budget(n: int) -> nat {
    if n > 0 {
        n as nat
    } else {
        0
    }
}

fn set_points(mask: &mut GrayImage, points: &Vec<(usize, usize)>)
    requires
        old(mask).wf(),
        all_inside(old(mask)@, points@),
    ensures
        final(mask).wf(),
        final(mask)@.same_size(old(mask)@),
        forall|x: int, y: int|
            old(mask)@.inside(x, y) ==> #[trigger] final(mask)@.at(x, y) == if points@.contains(
                (x as usize, y as usize),
            ) {
                255u8
            } else {
                old(mask)@.at(x, y)
            },
{
    let ghost before = mask@;
    let mut i: usize = 0;
    while i < points.len()
        invariant
            i <= points@.len(),
            mask.wf(),
            mask@.same_size(before),
            all_inside(before, points@),
            forall|x: int, y: int|
                before.inside(x, y) ==> #[trigger] mask@.at(x, y) == if points@.take(
                    i as int,
                ).contains((x as usize, y as usize)) {
                    255u8
                } else {
                    before.at(x, y)
                },
        decreases points@.len() - i,
    {
        let (px, py) = points[i];
        let ghost done = points@.take(i as int);
        let ghost more = points@.take(i + 1);
        let ghost mid = mask@;
        assert(before.inside(points@[i as int].0 as int, points@[i as int].1 as int));
        mask.set(px, py, 255);
        proof {
            assert(more =~= done.push((px, py)));
            assert forall|x: int, y: int| before.inside(x, y) implies #[trigger] mask@.at(x, y)
                == if more.contains((x as usize, y as usize)) {
                255u8
            } else {
                before.at(x, y)
            } by {
                lemma_push_contains(done, (px, py), (x as usize, y as usize));
                assert(mid.inside(x, y) && x <= usize::MAX && y <= usize::MAX);
                assert(mid.at(x, y) == if done.contains((x as usize, y as usize)) {
                    255u8
                } else {
                    before.at(x, y)
                });
                lemma_with_at(mid, px as int, py as int, 255u8, x, y);
            }
        }
        i += 1;
    }
    assert(points@.take(points@.len() as int) =~= points@);
}

spec fn listed_beside(points: Seq<(usize, usize)>, x: int, y: int) -> bool {
    exists|k: int|
        0 <= k < points.len() && side_by_side(x, y, #[trigger] points[k].0 as int, points[k].1 as int)
}

fn erode_points(mask: &mut GrayImage, points: &Vec<(usize, usize)>)
    requires
        old(mask).wf(),
        all_inside(old(mask)@, points@),
    ensures
        final(mask).wf(),
        final(mask)@.same_size(old(mask)@),
        forall|x: int, y: int|
            old(mask)@.inside(x, y) ==> #[trigger] final(mask)@.at(x, y) == if listed_beside(
                points@,
                x,
                y,
            ) {
                0u8
            } else {
                old(mask)@.at(x, y)
            },
{
    let ghost before = mask@;
    let mut i: usize = 0;
    while i < points.len()
        invariant
            i <= points@.len(),
            mask.wf(),
            mask@.same_size(before),
            all_inside(before, points@),
            forall|x: int, y: int|
                before.inside(x, y) ==> #[trigger] mask@.at(x, y) == if listed_beside(
                    points@.take(i as int),
                    x,
                    y,
                ) {
                    0u8
                } else {
                    before.at(x, y)
                },
        decreases points@.len() - i,
    {
        let (px, py) = points[i];
        let ghost done = points@.take(i as int);
        let ghost more = points@.take(i + 1);
        let ghost mid = mask@;
        assert(before.inside(points@[i as int].0 as int, points@[i as int].1 as int));
        erode_around(mask, px, py);
        proof {
            let f = |a: int, b: int|
                if side_by_side(a, b, px as int, py as int) {
                    0u8
                } else {
                    mid.at(a, b)
                };
            lemma_grid_of(mid.w, mid.h, f);
            assert(more =~= done.push((px, py)));
            assert forall|x: int, y: int| before.inside(x, y) implies #[trigger] mask@.at(x, y)
                == if listed_beside(more, x, y) {
                0u8
            } else {
                before.at(x, y)
            } by {
                assert(f(x, y) == mask@.at(x, y));
                if listed_beside(done, x, y) {
                    let k = choose|k: int|
                        0 <= k < done.len() && side_by_side(
                            x,
                            y,
                            #[trigger] done[k].0 as int,
                            done[k].1 as int,
                        );
                    assert(more[k] == done[k]);
                    assert(listed_beside(more, x, y));
                }
                if side_by_side(x, y, px as int, py as int) {
                    assert(more[i as int] == (px, py));
                    assert(side_by_side(x, y, more[i as int].0 as int, more[i as int].1 as int));
                    assert(listed_beside(more, x, y));
                }
                if listed_beside(more, x, y) {
                    let k = choose|k: int|
                        0 <= k < more.len() && side_by_side(
                            x,
                            y,
                            #[trigger] more[k].0 as int,
                            more[k].1 as int,
                        );
                    if k < i {
                        assert(done[k] == more[k]);
                        assert(listed_beside(done, x, y));
                    }
                }
            }
        }
        i += 1;
    }
    assert(points@.take(points@.len() as int) =~= points@);
}

/// Where the differing ring pixels go: those to grow over, and those to draw back from.
struct Front {
    grow: Vec<(usize, usize)>,
    retreat: Vec<(usize, usize)>,
}

spec fn lists_grow(rgb: Grid<Rgb>, mask: Grid<u8>, bg: Rgb, reach: int, s: Seq<(usize, usize)>) -> bool {
    forall|x: int, y: int|
        mask.inside(x, y) ==> (#[trigger] grows(rgb, mask, bg, reach, x, y) <==> s.contains(
            (x as usize, y as usize),
        ))
}

spec fn lists_retreat(rgb: Grid<Rgb>, mask: Grid<u8>, bg: Rgb, reach: int, s: Seq<(usize, usize)>) -> bool {
    forall|x: int, y: int|
        mask.inside(x, y) ==> (#[trigger] retreats(rgb, mask, bg, reach, x, y) <==> s.contains(
            (x as usize, y as usize),
        ))
}

fn classify(
    rgb: &RgbImage,
    mask: &GrayImage,
    ring: &Vec<(usize, usize)>,
    bg: Rgb,
    stroke_probe: i32,
) -> (front: Front)
    requires
        rgb.wf(),
        mask.wf(),
        mask@.same_size(rgb@),
        ring@ == ring_of(mask@),
    ensures
        all_inside(mask@, front.grow@),
        all_inside(mask@, front.retreat@),
        lists_grow(rgb@, mask@, bg, stroke_probe as int, front.grow@),
        lists_retreat(rgb@, mask@, bg, stroke_probe as int, front.retreat@),
        front.grow@.len() + front.retreat@.len() == far_count(rgb@, ring@, bg, ring@.len()),
        front.grow@.len() + front.retreat@.len() <= ring@.len(),
{
    let mut grow: Vec<(usize, usize)> = Vec::new();
    let mut retreat: Vec<(usize, usize)> = Vec::new();
    let mut i: usize = 0;
    proof {
        lemma_ring_members(mask@, mask@.px.len());
    }
    let ghost reach = stroke_probe as int;
    while i < ring.len()
        invariant
            i <= ring@.len(),
            reach == stroke_probe,
            rgb.wf(),
            mask.wf(),
            mask@.same_size(rgb@),
            ring@ == ring_of(mask@),
            forall|k: int|
                0 <= k < ring@.len() ==> is_ring(
                    mask@,
                    #[trigger] ring@[k].0 as int,
                    ring@[k].1 as int,
                ),
            all_inside(mask@, grow@),
            all_inside(mask@, retreat@),
            forall|q: (usize, usize)|
                #[trigger] grow@.contains(q) <==> ring@.take(i as int).contains(q) && grows(
                    rgb@,
                    mask@,
                    bg,
                    reach,
                    q.0 as int,
                    q.1 as int,
                ),
            forall|q: (usize, usize)|
                #[trigger] retreat@.contains(q) <==> ring@.take(i as int).contains(q) && retreats(
                    rgb@,
                    mask@,
                    bg,
                    reach,
                    q.0 as int,
                    q.1 as int,
                ),
            grow@.len() + retreat@.len() == far_count(rgb@, ring@, bg, i as nat),
            grow@.len() + retreat@.len() <= i,
        decreases ring@.len() - i,
    {
        let (x, y) = ring[i];
        assert(is_ring(mask@, ring@[i as int].0 as int, ring@[i as int].1 as int));
        let ghost g0 = grow@;
        let ghost r0 = retreat@;
        let ghost done = ring@.take(i as int);
        let ghost more = ring@.take(i + 1);
        let alike: bool = is_like(rgb, x, y, bg);
        if !alike {
            if probe_outward_bg(rgb, mask, x, y, bg, stroke_probe) {
                grow.push((x, y));
            } else {
                retreat.push((x, y));
            }
        }
        proof {
            assert(more =~= done.push((x, y)));
            assert forall|q: (usize, usize)| #[trigger] grow@.contains(q) <==> more.contains(q) && grows(
                rgb@,
                mask@,
                bg,
                reach,
                q.0 as int,
                q.1 as int,
            ) by {
                lemma_push_contains(done, (x, y), q);
                lemma_push_contains(g0, (x, y), q);
                assert(g0.contains(q) <==> done.contains(q) && grows(rgb@, mask@, bg, reach, q.0 as int, q.1 as int));
            }
            assert forall|q: (usize, usize)| #[trigger] retreat@.contains(q) <==> more.contains(q) && retreats(
                rgb@,
                mask@,
                bg,
                reach,
                q.0 as int,
                q.1 as int,
            ) by {
                lemma_push_contains(done, (x, y), q);
                lemma_push_contains(r0, (x, y), q);
                assert(r0.contains(q) <==> done.contains(q) && retreats(rgb@, mask@, bg, reach, q.0 as int, q.1 as int));
            }
        }
        i += 1;
    }
    proof {
        assert(ring@.take(ring@.len() as int) =~= ring@);
        assert forall|x: int, y: int| mask@.inside(x, y) implies (#[trigger] grows(rgb@, mask@, bg, reach, x, y)
            <==> grow@.contains((x as usize, y as usize))) by {
            lemma_offset(mask@.w, mask@.h, x, y);
            assert(is_ring(mask@, x, y) ==> ring@.contains((x as usize, y as usize)));
            assert(grow@.contains((x as usize, y as usize)) <==> ring@.contains((x as usize, y as usize)) && grows(rgb@, mask@, bg, reach, x, y));
        }
        assert forall|x: int, y: int| mask@.inside(x, y) implies (#[trigger] retreats(rgb@, mask@, bg, reach, x, y)
            <==> retreat@.contains((x as usize, y as usize))) by {
            lemma_offset(mask@.w, mask@.h, x, y);
            assert(is_ring(mask@, x, y) ==> ring@.contains((x as usize, y as usize)));
            assert(retreat@.contains((x as usize, y as usize)) <==> ring@.contains((x as usize, y as usize)) && retreats(rgb@, mask@, bg, reach, x, y));
        }
    }
    Front { grow, retreat }
}

proof fn lemma_listed_retreat(
    rgb: Grid<Rgb>,
    mask: Grid<u8>,
    bg: Rgb,
    reach: int,
    s: Seq<(usize, usize)>,
    x: int,
    y: int,
)
    requires
        mask.valid(),
        fits(mask.w, mask.h),
        all_inside(mask, s),
        lists_retreat(rgb, mask, bg, reach, s),
        mask.inside(x, y),
    ensures
        listed_beside(s, x, y) == (retreats(rgb, mask, bg, reach, x - 1, y) || retreats(
            rgb,
            mask,
            bg,
            reach,
            x + 1,
            y,
        ) || retreats(rgb, mask, bg, reach, x, y - 1) || retreats(rgb, mask, bg, reach, x, y + 1)),
{
    if listed_beside(s, x, y) {
        let k = choose|k: int|
            0 <= k < s.len() && side_by_side(x, y, #[trigger] s[k].0 as int, s[k].1 as int);
        let a = s[k].0 as int;
        let b = s[k].1 as int;
        assert(mask.inside(a, b));
        assert(s.contains((a as usize, b as usize)));
        assert(retreats(rgb, mask, bg, reach, a, b));
    }
    lemma_one_retreat(rgb, mask, bg, reach, s, x, y, x - 1, y);
    lemma_one_retreat(rgb, mask, bg, reach, s, x, y, x + 1, y);
    lemma_one_retreat(rgb, mask, bg, reach, s, x, y, x, y - 1);
    lemma_one_retreat(rgb, mask, bg, reach, s, x, y, x, y + 1);
}

proof fn lemma_one_retreat(
    rgb: Grid<Rgb>,
    mask: Grid<u8>,
    bg: Rgb,
    reach: int,
    s: Seq<(usize, usize)>,
    x: int,
    y: int,
    a: int,
    b: int,
)
    requires
        fits(mask.w, mask.h),
        lists_retreat(rgb, mask, bg, reach, s),
        side_by_side(x, y, a, b),
    ensures
        retreats(rgb, mask, bg, reach, a, b) ==> listed_beside(s, x, y),
{
    if retreats(rgb, mask, bg, reach, a, b) {
        assert(mask.inside(a, b));
        assert(s.contains((a as usize, b as usize)));
        let k = choose|k: int| 0 <= k < s.len() && s[k] == (a as usize, b as usize);
        assert(side_by_side(x, y, s[k].0 as int, s[k].1 as int));
    }
}

/// Spreads the mask along strokes and draws it back from objects until its ring has one colour.
pub fn grow_until_homogeneous(
    rgb: &RgbImage,
    mask: &mut GrayImage,
    max_expand: i32,
    retreat_max: i32,
    stroke_probe: i32,
) -> (r: Option<(Rgb, bool)>)
    requires
        rgb.wf(),
        old(mask).wf(),
        old(mask)@.same_size(rgb@),
    ensures
        final(mask).wf(),
        final(mask)@.same_size(old(mask)@),
        (r, final(mask)@) == grown(
            rgb@,
            old(mask)@,
            budget(max_expand as int),
            budget(retreat_max as int),
            stroke_probe as int,
            false,
        ),
{
    let ghost before = mask@;
    let ghost reach = stroke_probe as int;
    let ghost goal = grown(
        rgb@,
        before,
        budget(max_expand as int),
        budget(retreat_max as int),
        reach,
        false,
    );
    let mut expand_left: i32 = if max_expand > 0 { max_expand } else { 0 };
    let mut retreat_left: i32 = if retreat_max > 0 { retreat_max } else { 0 };
    let mut retreated: bool = false;
    loop
        invariant
            rgb.wf(),
            mask.wf(),
            mask@.same_size(rgb@),
            mask@.same_size(before),
            before == old(mask)@,
            goal == grown(
                rgb@,
                before,
                budget(max_expand as int),
                budget(retreat_max as int),
                reach,
                false,
            ),
            reach == stroke_probe,
            expand_left >= 0,
            retreat_left >= 0,
            goal == grown(
                rgb@,
                mask@,
                expand_left as nat,
                retreat_left as nat,
                reach,
                retreated,
            ),
        decreases expand_left + retreat_left,
    {
        let ghost m0 = mask@;
        let ring = outer_ring(mask);
        if ring.len() == 0 {
            return None;
        }
        proof {
            lemma_ring_members(mask@, mask@.px.len());
            assert forall|i: int| 0 <= i < ring@.len() implies rgb@.inside(
                #[trigger] ring@[i].0 as int,
                ring@[i].1 as int,
            ) by {
                assert(is_ring(mask@, ring@[i].0 as int, ring@[i].1 as int));
            }
        }
        let bg = ring_background(rgb, &ring);
        let front = classify(rgb, mask, &ring, bg, stroke_probe);
        let far: usize = front.grow.len() + front.retreat.len();
        if far == 0 {
            return Some((bg, retreated));
        }
        if more_than_share(far as u64, ring.len() as u64, SHARE_30) {
            return None;
        }
        let grow: bool = expand_left > 0 && front.grow.len() > 0;
        let retreat: bool = retreat_left > 0 && front.retreat.len() > 0;
        proof {
            assert(front.grow@.len() > 0 <==> exists|x: int, y: int| grows(rgb@, m0, bg, reach, x, y)) by {
                if front.grow@.len() > 0 {
                    let q = front.grow@[0];
                    assert(front.grow@.contains(q));
                    assert(m0.inside(front.grow@[0].0 as int, front.grow@[0].1 as int));
                    assert(grows(rgb@, m0, bg, reach, q.0 as int, q.1 as int));
                }
                if exists|x: int, y: int| grows(rgb@, m0, bg, reach, x, y) {
                    let (x, y) = choose|x: int, y: int| grows(rgb@, m0, bg, reach, x, y);
                    assert(m0.inside(x, y));
                    assert(front.grow@.contains((x as usize, y as usize)));
                }
            }
            assert(front.retreat@.len() > 0 <==> exists|x: int, y: int| retreats(rgb@, m0, bg, reach, x, y)) by {
                if front.retreat@.len() > 0 {
                    let q = front.retreat@[0];
                    assert(front.retreat@.contains(q));
                    assert(m0.inside(front.retreat@[0].0 as int, front.retreat@[0].1 as int));
                    assert(retreats(rgb@, m0, bg, reach, q.0 as int, q.1 as int));
                }
                if exists|x: int, y: int| retreats(rgb@, m0, bg, reach, x, y) {
                    let (x, y) = choose|x: int, y: int| retreats(rgb@, m0, bg, reach, x, y);
                    assert(m0.inside(x, y));
                    assert(front.retreat@.contains((x as usize, y as usize)));
                }
            }
        }
        if !grow && !retreat {
            return None;
        }
        if grow {
            set_points(mask, &front.grow);
            expand_left = expand_left - 1;
        }
        let ghost m1 = mask@;
        if retreat {
            erode_points(mask, &front.retreat);
            retreat_left = retreat_left - 1;
            retreated = true;
        }
        proof {
            let f = |x: int, y: int|
                if retreat && (retreats(rgb@, m0, bg, reach, x - 1, y) || retreats(
                    rgb@,
                    m0,
                    bg,
                    reach,
                    x + 1,
                    y,
                ) || retreats(rgb@, m0, bg, reach, x, y - 1) || retreats(
                    rgb@,
                    m0,
                    bg,
                    reach,
                    x,
                    y + 1,
                )) {
                    0u8
                } else if grow && grows(rgb@, m0, bg, reach, x, y) {
                    255u8
                } else {
                    m0.at(x, y)
                };
            lemma_grid_of(m0.w, m0.h, f);
            let target = moved_mask(rgb@, m0, bg, reach, grow, retreat);
            assert forall|x: int, y: int| mask@.inside(x, y) implies #[trigger] mask@.at(x, y) == target.at(x, y) by {
                assert(f(x, y) == target.at(x, y));
                lemma_listed_retreat(rgb@, m0, bg, reach, front.retreat@, x, y);
                assert(grows(rgb@, m0, bg, reach, x, y) <==> front.grow@.contains((x as usize, y as usize)));
                assert(m1.at(x, y) == if grow && front.grow@.contains((x as usize, y as usize)) { 255u8 } else { m0.at(x, y) });
            }
            lemma_grid_eq(mask@, target);
        }
    }
}

/// How many of the first `n` pixels of a picture of width `w` satisfy `f`.
pub open spec fn counted(w: int, n: nat, f: spec_fn(int, int) -> bool) -> nat
    decreases n,
{
    if n == 0 {
        0
    } else {
        counted(w, (n - 1) as nat, f) + if f((n - 1) % w, (n - 1) / w) {
            1nat
        } else {
            0nat
        }
    }
}

/// A masked pixel of another colour than the background.
pub open spec fn is_ink(rgb: Grid<Rgb>, mask: Grid<u8>, bg: Rgb, x: int, y: int) -> bool {
    on(mask, x, y) && !like(rgb, x, y, bg)
}

/// An ink pixel with a side neighbour that is no ink.
pub open spec fn is_ink_edge(rgb: Grid<Rgb>, mask: Grid<u8>, bg: Rgb, x: int, y: int) -> bool {
    &&& is_ink(rgb, mask, bg, x, y)
    &&& !is_ink(rgb, mask, bg, x - 1, y) || !is_ink(rgb, mask, bg, x + 1, y) || !is_ink(
        rgb,
        mask,
        bg,
        x,
        y - 1,
    ) || !is_ink(rgb, mask, bg, x, y + 1)
}

/// The masked area holds sparse ink made of thin strokes.
pub open spec fn looks_like_text(rgb: Grid<Rgb>, mask: Grid<u8>, bg: Rgb) -> bool {
    let n = mask.px.len();
    let area = counted(mask.w, n, |x: int, y: int| on(mask, x, y));
    let ink = counted(mask.w, n, |x: int, y: int| is_ink(rgb, mask, bg, x, y));
    let edge = counted(mask.w, n, |x: int, y: int| is_ink_edge(rgb, mask, bg, x, y));
    &&& area > 0
    &&& ink > 0
    &&& sparse_share(ink, area)
    &&& edge_share(edge, ink)
}

fn ink_at(rgb: &RgbImage, mask: &GrayImage, bg: Rgb, x: usize, y: usize) -> (b: bool)
    requires
        rgb.wf(),
        mask.wf(),
        mask@.same_size(rgb@),
        mask@.inside(x as int, y as int),
    ensures
        b == is_ink(rgb@, mask@, bg, x as int, y as int),
{
    mask.get(x, y) != 0 && !is_like(rgb, x, y, bg)
}

fn ink_edge_at(rgb: &RgbImage, mask: &GrayImage, bg: Rgb, x: usize, y: usize) -> (b: bool)
    requires
        rgb.wf(),
        mask.wf(),
        mask@.same_size(rgb@),
        mask@.inside(x as int, y as int),
    ensures
        b == is_ink_edge(rgb@, mask@, bg, x as int, y as int),
{
    if !ink_at(rgb, mask, bg, x, y) {
        return false;
    }
    x == 0 || !ink_at(rgb, mask, bg, x - 1, y) || x + 1 >= mask.w || !ink_at(
        rgb,
        mask,
        bg,
        x + 1,
        y,
    ) || y == 0 || !ink_at(rgb, mask, bg, x, y - 1) || y + 1 >= mask.h || !ink_at(
        rgb,
        mask,
        bg,
        x,
        y + 1,
    )
}

/// Whether the pixels under the mask look like text on the background `bg`.
pub fn has_text_structure(rgb: &RgbImage, mask: &GrayImage, bg: Rgb) -> (b: bool)
    requires
        rgb.wf(),
        mask.wf(),
        mask@.same_size(rgb@),
    ensures
        b == looks_like_text(rgb@, mask@, bg),
{
    let n: usize = mask.px.len();
    let mut area: u64 = 0;
    let mut ink: u64 = 0;
    let mut edge: u64 = 0;
    let mut i: usize = 0;
    while i < n
        invariant
            i <= n,
            n == mask@.px.len(),
            rgb.wf(),
            mask.wf(),
            mask@.same_size(rgb@),
            area == counted(mask@.w, i as nat, |x: int, y: int| on(mask@, x, y)),
            ink == counted(mask@.w, i as nat, |x: int, y: int| is_ink(rgb@, mask@, bg, x, y)),
            edge == counted(mask@.w, i as nat, |x: int, y: int| is_ink_edge(rgb@, mask@, bg, x, y)),
            area <= i,
            ink <= i,
            edge <= i,
        decreases n - i,
    {
        proof {
            lemma_position(mask@.w, mask@.h, i as int);
        }
        let x: usize = i % mask.w;
        let y: usize = i / mask.w;
        if mask.px[i] != 0 {
            area += 1;
        }
        if ink_at(rgb, mask, bg, x, y) {
            ink += 1;
        }
        if ink_edge_at(rgb, mask, bg, x, y) {
            edge += 1;
        }
        i += 1;
    }
    area > 0 && ink > 0 && is_sparse_share(ink, area) && is_edge_share(edge, ink)
}

/// `(x, y)` lies in the rectangle from `(x1, y1)` to `(x2, y2)`, the far sides excluded.
pub open spec fn in_box(x1: int, y1: int, x2: int, y2: int, x: int, y: int) -> bool {
    x1 <= x < x2 && y1 <= y < y2
}

/// The rectangle has pixels in the picture, and most of them have the background colour.
pub open spec fn mostly_background(
    rgb: Grid<Rgb>,
    x1: int,
    y1: int,
    x2: int,
    y2: int,
    bg: Rgb,
) -> bool {
    let n = rgb.px.len();
    let total = counted(rgb.w, n, |x: int, y: int| in_box(x1, y1, x2, y2, x, y));
    let ink = counted(
        rgb.w,
        n,
        |x: int, y: int| in_box(x1, y1, x2, y2, x, y) && !like(rgb, x, y, bg),
    );
    total > 0 && !exceeds_share(ink, total, SHARE_45 as nat)
}

/// Whether a rectangle holds little besides the background colour.
pub fn box_interior_fillable(rgb: &RgbImage, x1: usize, y1: usize, x2: usize, y2: usize, bg: Rgb) -> (b:
    bool)
    requires
        rgb.wf(),
    ensures
        b == mostly_background(rgb@, x1 as int, y1 as int, x2 as int, y2 as int, bg),
{
    let n: usize = rgb.px.len();
    let mut total: u64 = 0;
    let mut ink: u64 = 0;
    let mut i: usize = 0;
    while i < n
        invariant
            i <= n,
            n == rgb@.px.len(),
            rgb.wf(),
            total == counted(
                rgb@.w,
                i as nat,
                |x: int, y: int| in_box(x1 as int, y1 as int, x2 as int, y2 as int, x, y),
            ),
            ink == counted(
                rgb@.w,
                i as nat,
                |x: int, y: int|
                    in_box(x1 as int, y1 as int, x2 as int, y2 as int, x, y) && !like(
                        rgb@,
                        x,
                        y,
                        bg,
                    ),
            ),
            total <= i,
            ink <= i,
        decreases n - i,
    {
        proof {
            lemma_position(rgb@.w, rgb@.h, i as int);
        }
        let x: usize = i % rgb.w;
        let y: usize = i / rgb.w;
        if x1 <= x && x < x2 && y1 <= y && y < y2 {
            total += 1;
            if !is_like(rgb, x, y, bg) {
                ink += 1;
            }
        }
        i += 1;
    }
    total > 0 && !more_than_share(ink, total, SHARE_45)
}

/// The pixels of the background colour.
pub open spec fn background_pixels(rgb: Grid<Rgb>, bg: Rgb) -> Grid<bool> {
    grid_of(rgb.w, rgb.h, |x: int, y: int| like(rgb, x, y, bg))
}

/// The pixels beside the text.
pub open spec fn text_sides(text: Grid<u8>) -> Grid<bool> {
    grid_of(text.w, text.h, |x: int, y: int| beside(text, x, y))
}

/// The background pixel belongs to the inside of the bubble: background joins it to the text.
pub open spec fn in_bubble(rgb: Grid<Rgb>, text: Grid<u8>, bg: Rgb, x: int, y: int) -> bool {
    reached(background_pixels(rgb, bg), text_sides(text), x, y)
}

/// What is not background inside the bubble.
pub open spec fn not_in_bubble(rgb: Grid<Rgb>, text: Grid<u8>, bg: Rgb) -> Grid<bool> {
    grid_of(rgb.w, rgb.h, |x: int, y: int| !in_bubble(rgb, text, bg, x, y))
}

/// The pixel is joined to the frame without crossing the bubble's background.
pub open spec fn out_of_bubble(rgb: Grid<Rgb>, text: Grid<u8>, bg: Rgb, x: int, y: int) -> bool {
    reached(not_in_bubble(rgb, text, bg), frame_seeds(rgb.w, rgb.h), x, y)
}

/// The fill without what lies outside the bubble; the whole fill where the text touches no
/// background.
pub open spec fn clipped_to_bubble(
    fill: Grid<u8>,
    rgb: Grid<Rgb>,
    text: Grid<u8>,
    bg: Rgb,
) -> Grid<u8> {
    if exists|x: int, y: int| rgb.inside(x, y) && in_bubble(rgb, text, bg, x, y) {
        grid_of(
            fill.w,
            fill.h,
            |x: int, y: int|
                if out_of_bubble(rgb, text, bg, x, y) {
                    0u8
                } else {
                    fill.at(x, y)
                },
        )
    } else {
        fill
    }
}

fn mark_background(rgb: &RgbImage, bg: Rgb) -> (r: Raster<bool>)
    requires
        rgb.wf(),
    ensures
        r.wf(),
        r@ == background_pixels(rgb@, bg),
{
    let n: usize = rgb.px.len();
    let mut px: Vec<bool> = Vec::new();
    let mut i: usize = 0;
    while i < n
        invariant
            i <= n,
            n == rgb@.px.len(),
            rgb.wf(),
            px@.len() == i,
            forall|k: int| 0 <= k < i ==> #[trigger] px@[k] == background_pixels(rgb@, bg).px[k],
        decreases n - i,
    {
        proof {
            lemma_position(rgb@.w, rgb@.h, i as int);
        }
        px.push(is_like(rgb, i % rgb.w, i / rgb.w, bg));
        i += 1;
    }
    let r = Raster { w: rgb.w, h: rgb.h, px };
    assert(r@ =~= background_pixels(rgb@, bg));
    r
}

fn mark_text_sides(text: &GrayImage) -> (r: Raster<bool>)
    requires
        text.wf(),
    ensures
        r.wf(),
        r@ == text_sides(text@),
{
    let n: usize = text.px.len();
    let mut px: Vec<bool> = Vec::new();
    let mut i: usize = 0;
    while i < n
        invariant
            i <= n,
            n == text@.px.len(),
            text.wf(),
            px@.len() == i,
            forall|k: int| 0 <= k < i ==> #[trigger] px@[k] == text_sides(text@).px[k],
        decreases n - i,
    {
        proof {
            lemma_position(text@.w, text@.h, i as int);
        }
        px.push(is_beside(text, i % text.w, i / text.w));
        i += 1;
    }
    let r = Raster { w: text.w, h: text.h, px };
    assert(r@ =~= text_sides(text@));
    r
}

/// Takes out of a fill what lies outside the bubble around the text.
pub fn clip_fill_to_bubble_interior(
    fill: &mut GrayImage,
    rgb: &RgbImage,
    text: &GrayImage,
    bg: Rgb,
)
    requires
        old(fill).wf(),
        rgb.wf(),
        text.wf(),
        old(fill)@.same_size(rgb@),
        text@.same_size(rgb@),
    ensures
        final(fill).wf(),
        final(fill)@ == clipped_to_bubble(old(fill)@, rgb@, text@, bg),
{
    let ghost before = fill@;
    let open = mark_background(rgb, bg);
    let sides = mark_text_sides(text);
    let bubble = flood(&open, &sides);
    let n: usize = rgb.px.len();
    let mut rest: Vec<bool> = Vec::new();
    let mut any: bool = false;
    let mut i: usize = 0;
    while i < n
        invariant
            i <= n,
            n == rgb@.px.len(),
            rgb.wf(),
            bubble.wf(),
            bubble@.same_size(rgb@),
            forall|x: int, y: int|
                rgb@.inside(x, y) ==> #[trigger] bubble@.at(x, y) == in_bubble(
                    rgb@,
                    text@,
                    bg,
                    x,
                    y,
                ),
            rest@.len() == i,
            forall|k: int|
                0 <= k < i ==> #[trigger] rest@[k] == not_in_bubble(rgb@, text@, bg).px[k],
            any == exists|k: int| 0 <= k < i && #[trigger] bubble@.px[k],
        decreases n - i,
    {
        proof {
            lemma_position(rgb@.w, rgb@.h, i as int);
            assert(bubble@.at(i as int % rgb@.w, i as int / rgb@.w) == bubble@.px[i as int]);
        }
        let b: bool = bubble.px[i];
        rest.push(!b);
        proof {
            assert(b == bubble@.px[i as int]);
        }
        any = any || b;
        i += 1;
    }
    proof {
        assert(any == exists|x: int, y: int| rgb@.inside(x, y) && in_bubble(rgb@, text@, bg, x, y)) by {
            if any {
                let k = choose|k: int| 0 <= k < n && #[trigger] bubble@.px[k];
                lemma_position(rgb@.w, rgb@.h, k);
                assert(bubble@.at(k % rgb@.w, k / rgb@.w));
                assert(rgb@.inside(k % rgb@.w, k / rgb@.w) && in_bubble(
                    rgb@,
                    text@,
                    bg,
                    k % rgb@.w,
                    k / rgb@.w,
                ));
            }
            if exists|x: int, y: int| rgb@.inside(x, y) && in_bubble(rgb@, text@, bg, x, y) {
                let (x, y) = choose|x: int, y: int|
                    rgb@.inside(x, y) && in_bubble(rgb@, text@, bg, x, y);
                lemma_offset(rgb@.w, rgb@.h, x, y);
                assert(bubble@.at(x, y));
                assert(bubble@.px[y * rgb@.w + x]);
            }
        }
    }
    if !any {
        return;
    }
    let rest_img = Raster { w: rgb.w, h: rgb.h, px: rest };
    assert(rest_img@ =~= not_in_bubble(rgb@, text@, bg));
    assert(rgb.px.len() <= usize::MAX);
    let seeds = frame(rgb.w, rgb.h);
    let outside = flood(&rest_img, &seeds);
    let mut j: usize = 0;
    let ghost target = clipped_to_bubble(before, rgb@, text@, bg);
    while j < n
        invariant
            j <= n,
            n == before.px.len(),
            before.valid(),
            before.same_size(rgb@),
            fill.wf(),
            fill@.same_size(before),
            outside.wf(),
            outside@.same_size(before),
            target == grid_of(
                before.w,
                before.h,
                |x: int, y: int|
                    if out_of_bubble(rgb@, text@, bg, x, y) {
                        0u8
                    } else {
                        before.at(x, y)
                    },
            ),
            forall|x: int, y: int|
                before.inside(x, y) ==> #[trigger] outside@.at(x, y) == out_of_bubble(
                    rgb@,
                    text@,
                    bg,
                    x,
                    y,
                ),
            forall|k: int|
                0 <= k < n ==> #[trigger] fill@.px[k] == if k < j {
                    target.px[k]
                } else {
                    before.px[k]
                },
        decreases n - j,
    {
        proof {
            lemma_position(before.w, before.h, j as int);
            assert(outside@.at(j as int % before.w, j as int / before.w) == outside@.px[j as int]);
        }
        if outside.px[j] {
            fill.px.set(j, 0);
        }
        j += 1;
    }
    assert(fill@ =~= target);
}

/// A rectangle given by its first column and row and those just past it.
#[derive(Clone, Copy, Debug, PartialEq, Eq, Structural)]
pub struct Bounds {
    pub x1: usize,
    pub y1: usize,
    pub x2: usize,
    pub y2: usize,
}

/// `b` is the least rectangle that holds the positions with the property `f`.
pub open spec fn is_bounds(f: spec_fn(int, int) -> bool, b: Bounds) -> bool {
    &&& forall|x: int, y: int| #[trigger] f(x, y) ==> b.x1 <= x < b.x2 && b.y1 <= y < b.y2
    &&& exists|x: int, y: int| #[trigger] f(x, y) && x == b.x1
    &&& exists|x: int, y: int| #[trigger] f(x, y) && x == b.x2 - 1
    &&& exists|x: int, y: int| #[trigger] f(x, y) && y == b.y1
    &&& exists|x: int, y: int| #[trigger] f(x, y) && y == b.y2 - 1
}

/// The least rectangle that holds the positions with the property `f`.
pub open spec fn bounds_in(f: spec_fn(int, int) -> bool) -> Bounds {
    choose|b: Bounds| is_bounds(f, b)
}

/// The positions of the set pixels.
pub open spec fn set_pixels(mask: Grid<u8>) -> spec_fn(int, int) -> bool {
    |x: int, y: int| on(mask, x, y)
}

/// There is one least rectangle at most.
pub proof fn bounds_are_unique(f: spec_fn(int, int) -> bool, a: Bounds, b: Bounds)
    requires
        is_bounds(f, a),
        is_bounds(f, b),
    ensures
        a == b,
{
}

/// The least rectangle that holds the set pixels.
pub fn gray_mask_bbox(mask: &GrayImage) -> (r: Option<Bounds>)
    requires
        mask.wf(),
    ensures
        r is Some <==> any_on(mask@),
        r is Some ==> is_bounds(set_pixels(mask@), r->0),
        r is Some ==> (r->0).x2 <= mask.w && (r->0).y2 <= mask.h,
{
    let n: usize = mask.px.len();
    let mut r: Option<Bounds> = None;
    let mut i: usize = 0;
    let ghost w = mask@.w;
    while i < n
        invariant
            i <= n,
            n == mask@.px.len(),
            mask.wf(),
            w == mask@.w,
            r is None ==> forall|k: int| 0 <= k < i ==> #[trigger] mask@.px[k] == 0,
            r is Some ==> {
                let b = r->0;
                &&& is_bounds(|x: int, y: int| on(mask@, x, y) && y * w + x < i, b)
                &&& b.x2 <= mask.w
                &&& b.y2 <= mask.h
            },
        decreases n - i,
    {
        proof {
            lemma_position(mask@.w, mask@.h, i as int);
        }
        let x: usize = i % mask.w;
        let y: usize = i / mask.w;
        let ghost r0 = r;
        if mask.px[i] != 0 {
            r = match r {
                None => Some(Bounds { x1: x, y1: y, x2: x + 1, y2: y + 1 }),
                Some(b) => Some(
                    Bounds {
                        x1: if x < b.x1 { x } else { b.x1 },
                        y1: if y < b.y1 { y } else { b.y1 },
                        x2: if x + 1 > b.x2 { x + 1 } else { b.x2 },
                        y2: if y + 1 > b.y2 { y + 1 } else { b.y2 },
                    },
                ),
            };
        }
        proof {
            let f0 = |x: int, y: int| on(mask@, x, y) && y * w + x < i;
            let f1 = |x: int, y: int| on(mask@, x, y) && y * w + x < i + 1;
            assert forall|a: int, b: int| #[trigger] f1(a, b) implies f0(a, b) || (a == x && b == y
                && mask@.px[i as int] != 0) by {
                lemma_offset(mask@.w, mask@.h, a, b);
            }
            assert forall|a: int, b: int| #[trigger] f0(a, b) implies f1(a, b) by {
            }
            if mask@.px[i as int] != 0 {
                assert(f1(x as int, y as int));
                if r0 is None {
                    assert forall|a: int, b: int| #[trigger] f1(a, b) implies a == x && b == y by {
                        lemma_offset(mask@.w, mask@.h, a, b);
                        if f0(a, b) {
                            assert(mask@.px[b * w + a] == 0);
                        }
                    }
                } else {
                    let b0 = r0->0;
                    let b1 = r->0;
                    assert(is_bounds(f0, b0));
                    let (a, b) = choose|a: int, b: int| #[trigger] f0(a, b) && a == b0.x1;
                    assert(f1(a, b));
                    let (a, b) = choose|a: int, b: int| #[trigger] f0(a, b) && a == b0.x2 - 1;
                    assert(f1(a, b));
                    let (a, b) = choose|a: int, b: int| #[trigger] f0(a, b) && b == b0.y1;
                    assert(f1(a, b));
                    let (a, b) = choose|a: int, b: int| #[trigger] f0(a, b) && b == b0.y2 - 1;
                    assert(f1(a, b));
                }
                assert(is_bounds(f1, r->0));
            } else if r0 is Some {
                let b0 = r0->0;
                assert(is_bounds(f0, b0));
                let (a, b) = choose|a: int, b: int| #[trigger] f0(a, b) && a == b0.x1;
                assert(f1(a, b));
                let (a, b) = choose|a: int, b: int| #[trigger] f0(a, b) && a == b0.x2 - 1;
                assert(f1(a, b));
                let (a, b) = choose|a: int, b: int| #[trigger] f0(a, b) && b == b0.y1;
                assert(f1(a, b));
                let (a, b) = choose|a: int, b: int| #[trigger] f0(a, b) && b == b0.y2 - 1;
                assert(f1(a, b));
                assert(is_bounds(f1, r->0));
            }
        }
        i += 1;
    }
    proof {
        let f = set_pixels(mask@);
        let g = |x: int, y: int| on(mask@, x, y) && y * w + x < n;
        assert forall|x: int, y: int| on(mask@, x, y) implies y * w + x < n by {
            lemma_offset(mask@.w, mask@.h, x, y);
        }
        assert forall|x: int, y: int| #[trigger] f(x, y) implies g(x, y) by {
            assert(on(mask@, x, y));
        }
        if r is Some {
            let b0 = r->0;
            assert(is_bounds(g, b0));
            let (a, b) = choose|a: int, b: int| #[trigger] g(a, b) && a == b0.x1;
            assert(f(a, b));
            assert(on(mask@, a, b));
            let (a, b) = choose|a: int, b: int| #[trigger] g(a, b) && a == b0.x2 - 1;
            assert(f(a, b));
            let (a, b) = choose|a: int, b: int| #[trigger] g(a, b) && b == b0.y1;
            assert(f(a, b));
            let (a, b) = choose|a: int, b: int| #[trigger] g(a, b) && b == b0.y2 - 1;
            assert(f(a, b));
            assert(is_bounds(f, b0));
        } else {
            assert forall|x: int, y: int| !on(mask@, x, y) by {
                if on(mask@, x, y) {
                    lemma_offset(mask@.w, mask@.h, x, y);
                    assert(mask@.px[y * w + x] == 0);
                }
            }
        }
    }
    r
}

/// The colours of a rectangle of a page; black where the rectangle leaves the page.
pub open spec fn cropped(base: Grid<Rgba>, ox: int, oy: int, cw: int, ch: int) -> Grid<Rgb> {
    grid_of(
        cw,
        ch,
        |x: int, y: int|
            if base.inside(ox + x, oy + y) {
                let p = base.at(ox + x, oy + y);
                Rgb { r: p.r, g: p.g, b: p.b }
            } else {
                Rgb { r: 0, g: 0, b: 0 }
            },
    )
}

/// Cuts a rectangle out of a page, without its alpha.
pub fn crop_rgb_from_rgba(base: &RgbaImage, ox: usize, oy: usize, cw: usize, ch: usize) -> (out:
    RgbImage)
    requires
        base.wf(),
        cw * ch <= usize::MAX,
    ensures
        out.wf(),
        out@ == cropped(base@, ox as int, oy as int, cw as int, ch as int),
{
    let n: usize = cw * ch;
    let mut px: Vec<Rgb> = Vec::new();
    let mut i: usize = 0;
    let ghost target = cropped(base@, ox as int, oy as int, cw as int, ch as int);
    while i < n
        invariant
            i <= n,
            n == cw * ch,
            base.wf(),
            target == cropped(base@, ox as int, oy as int, cw as int, ch as int),
            px@.len() == i,
            forall|k: int| 0 <= k < i ==> #[trigger] px@[k] == target.px[k],
        decreases n - i,
    {
        proof {
            lemma_position(cw as int, ch as int, i as int);
        }
        let x: usize = i % cw;
        let y: usize = i / cw;
        if ox < base.w && x < base.w - ox && oy < base.h && y < base.h - oy {
            let p = base.get(ox + x, oy + y);
            px.push(Rgb { r: p.r, g: p.g, b: p.b });
        } else {
            px.push(Rgb { r: 0, g: 0, b: 0 });
        }
        i += 1;
    }
    let out = Raster { w: cw, h: ch, px };
    assert(out@ =~= target);
    out
}

/// The opaque colour as a pixel.
pub open spec fn opaque(bg: Rgb) -> Color {
    Color { r: bg.r, g: bg.g, b: bg.b, a: 255 }
}

/// The patch with the pixels under the mask, placed at `(ox, oy)`, painted in one colour.
pub open spec fn painted_mask(
    patch: Grid<Color>,
    ox: int,
    oy: int,
    mask: Grid<u8>,
    bg: Rgb,
) -> Grid<Color> {
    grid_of(
        patch.w,
        patch.h,
        |x: int, y: int|
            if on(mask, x - ox, y - oy) {
                opaque(bg)
            } else {
                patch.at(x, y)
            },
    )
}

/// Paints the pixels under a mask in one colour.
pub fn paint_patch_from_mask(
    patch: &mut ColorImage,
    ox: usize,
    oy: usize,
    mask: &GrayImage,
    bg: Rgb,
)
    requires
        old(patch).wf(),
        mask.wf(),
    ensures
        final(patch).wf(),
        final(patch)@ == painted_mask(old(patch)@, ox as int, oy as int, mask@, bg),
{
    let color = Color::from_rgb(bg.r, bg.g, bg.b);
    let ghost before = patch@;
    let n: usize = mask.px.len();
    let ghost w = mask@.w;
    let mut i: usize = 0;
    while i < n
        invariant
            i <= n,
            n == mask@.px.len(),
            w == mask@.w,
            mask.wf(),
            patch.wf(),
            patch@.same_size(before),
            color == opaque(bg),
            forall|x: int, y: int|
                before.inside(x, y) ==> #[trigger] patch@.at(x, y) == if on(mask@, x - ox, y - oy)
                    && (y - oy) * w + (x - ox) < i {
                    color
                } else {
                    before.at(x, y)
                },
        decreases n - i,
    {
        proof {
            lemma_position(mask@.w, mask@.h, i as int);
        }
        let x: usize = i % mask.w;
        let y: usize = i / mask.w;
        let ghost mid = patch@;
        let hit: bool = mask.px[i] != 0 && ox < patch.w && x < patch.w - ox && oy < patch.h && y
            < patch.h - oy;
        if hit {
            patch.set(ox + x, oy + y, color);
        }
        proof {
            assert forall|a: int, b: int| before.inside(a, b) implies #[trigger] patch@.at(a, b) == if on(
                mask@,
                a - ox,
                b - oy,
            ) && (b - oy) * w + (a - ox) < i + 1 {
                color
            } else {
                before.at(a, b)
            } by {
                assert(mid.inside(a, b));
                assert(mid.at(a, b) == if on(mask@, a - ox, b - oy) && (b - oy) * w + (a - ox) < i {
                    color
                } else {
                    before.at(a, b)
                });
                if mask@.inside(a - ox, b - oy) {
                    lemma_offset(mask@.w, mask@.h, a - ox, b - oy);
                }
                if hit {
                    lemma_with_at(mid, ox + x, oy + y, color, a, b);
                }
            }
        }
        i += 1;
    }
    proof {
        let f = |x: int, y: int|
            if on(mask@, x - ox, y - oy) {
                opaque(bg)
            } else {
                before.at(x, y)
            };
        lemma_grid_of(before.w, before.h, f);
        let target = painted_mask(before, ox as int, oy as int, mask@, bg);
        assert forall|x: int, y: int| patch@.inside(x, y) implies #[trigger] patch@.at(x, y) == target.at(x, y) by {
            assert(before.inside(x, y));
            assert(f(x, y) == target.at(x, y));
            if mask@.inside(x - ox, y - oy) {
                lemma_offset(mask@.w, mask@.h, x - ox, y - oy);
            }
        }
        lemma_grid_eq(patch@, target);
    }
}

/// The least rectangle around the set pixels.
pub open spec fn bounds_of(mask: Grid<u8>) -> Bounds {
    bounds_in(set_pixels(mask))
}

/// The patch with a rectangle of the placed mask painted in one colour.
pub open spec fn painted_box(
    patch: Grid<Color>,
    ox: int,
    oy: int,
    x1: int,
    y1: int,
    x2: int,
    y2: int,
    bg: Rgb,
) -> Grid<Color> {
    grid_of(
        patch.w,
        patch.h,
        |x: int, y: int|
            if in_box(x1, y1, x2, y2, x - ox, y - oy) {
                opaque(bg)
            } else {
                patch.at(x, y)
            },
    )
}

/// The patch with the padded rectangle around the set pixels of the placed mask painted.
pub open spec fn painted_fill(
    patch: Grid<Color>,
    ox: int,
    oy: int,
    mask: Grid<u8>,
    bg: Rgb,
) -> Grid<Color> {
    if any_on(mask) {
        let b = bounds_of(mask);
        let p = AUTOCLEAN_FILL_PADDING as int;
        painted_box(
            patch,
            ox,
            oy,
            larger(b.x1 - p, 0),
            larger(b.y1 - p, 0),
            smaller(b.x2 + p, mask.w),
            smaller(b.y2 + p, mask.h),
            bg,
        )
    } else {
        patch
    }
}

fn paint_box(patch: &mut ColorImage, ox: usize, oy: usize, b: Bounds, bg: Rgb)
    requires
        old(patch).wf(),
    ensures
        final(patch).wf(),
        final(patch)@ == painted_box(
            old(patch)@,
            ox as int,
            oy as int,
            b.x1 as int,
            b.y1 as int,
            b.x2 as int,
            b.y2 as int,
            bg,
        ),
{
    let color = Color::from_rgb(bg.r, bg.g, bg.b);
    let ghost before = patch@;
    let mut y: usize = b.y1;
    while y < b.y2 && oy < patch.h && y < patch.h - oy
        invariant
            b.y1 <= y,
            y <= b.y2 || y == b.y1,
            patch.wf(),
            patch@.same_size(before),
            color == opaque(bg),
            forall|p: int, q: int|
                before.inside(p, q) ==> #[trigger] patch@.at(p, q) == if in_box(
                    b.x1 as int,
                    b.y1 as int,
                    b.x2 as int,
                    y as int,
                    p - ox,
                    q - oy,
                ) {
                    color
                } else {
                    before.at(p, q)
                },
        decreases b.y2 - y,
    {
        let mut x: usize = b.x1;
        while x < b.x2 && ox < patch.w && x < patch.w - ox
            invariant
                b.x1 <= x,
                x <= b.x2 || x == b.x1,
                b.y1 <= y < b.y2,
                oy < patch.h,
                y < patch.h - oy,
                patch.wf(),
                patch@.same_size(before),
                color == opaque(bg),
                forall|p: int, q: int|
                    before.inside(p, q) ==> #[trigger] patch@.at(p, q) == if in_box(
                        b.x1 as int,
                        b.y1 as int,
                        b.x2 as int,
                        y as int,
                        p - ox,
                        q - oy,
                    ) || (q - oy == y && b.x1 <= p - ox < x) {
                        color
                    } else {
                        before.at(p, q)
                    },
            decreases b.x2 - x,
        {
            let ghost mid = patch@;
            patch.set(ox + x, oy + y, color);
            proof {
                assert forall|p: int, q: int| before.inside(p, q) implies #[trigger] patch@.at(p, q) == if in_box(
                    b.x1 as int,
                    b.y1 as int,
                    b.x2 as int,
                    y as int,
                    p - ox,
                    q - oy,
                ) || (q - oy == y && b.x1 <= p - ox < x + 1) {
                    color
                } else {
                    before.at(p, q)
                } by {
                    assert(mid.inside(p, q));
                    assert(mid.at(p, q) == mid.at(p, q));
                    lemma_with_at(mid, ox + x, oy + y, color, p, q);
                }
            }
            x += 1;
        }
        y += 1;
    }
    proof {
        let f = |x: int, y: int|
            if in_box(b.x1 as int, b.y1 as int, b.x2 as int, b.y2 as int, x - ox, y - oy) {
                opaque(bg)
            } else {
                before.at(x, y)
            };
        lemma_grid_of(before.w, before.h, f);
        let target = painted_box(
            before,
            ox as int,
            oy as int,
            b.x1 as int,
            b.y1 as int,
            b.x2 as int,
            b.y2 as int,
            bg,
        );
        assert forall|p: int, q: int| patch@.inside(p, q) implies #[trigger] patch@.at(p, q) == target.at(p, q) by {
            assert(before.inside(p, q));
            assert(f(p, q) == target.at(p, q));
        }
        lemma_grid_eq(patch@, target);
    }
}

/// Paints the rectangle of a verified text area, with padding, in the background colour.
pub fn paint_autoclean_fill(patch: &mut ColorImage, ox: usize, oy: usize, mask: &GrayImage, bg: Rgb)
    requires
        old(patch).wf(),
        mask.wf(),
    ensures
        final(patch).wf(),
        final(patch)@ == painted_fill(old(patch)@, ox as int, oy as int, mask@, bg),
{
    match gray_mask_bbox(mask) {
        None => {},
        Some(b) => {
            proof {
                bounds_are_unique(set_pixels(mask@), b, bounds_of(mask@));
            }
            let p: usize = 2;
            let padded = Bounds {
                x1: if b.x1 > p { b.x1 - p } else { 0 },
                y1: if b.y1 > p { b.y1 - p } else { 0 },
                x2: if mask.w - b.x2 > p { b.x2 + p } else { mask.w },
                y2: if mask.h - b.y2 > p { b.y2 + p } else { mask.h },
            };
            paint_box(patch, ox, oy, padded, bg);
        },
    }
}

/// The outcome of a fill along the mask: the grown mask, the background and whether the mask
/// drew back.
pub open spec fn mask_fill(
    rgb: Grid<Rgb>,
    mask: Grid<u8>,
    max_expand: int,
    retreat_max: int,
    reach: int,
) -> Option<(Grid<u8>, Rgb, bool)> {
    let thick = dilated(holes_filled(mask), AUTOCLEAN_INITIAL_DILATE as int);
    let ring = ring_of(thick);
    if !any_on(mask) || ring.len() == 0 || !looks_like_text(rgb, thick, ring_colour(rgb, ring)) {
        None
    } else {
        let g = grown(rgb, thick, budget(max_expand), budget(retreat_max), reach, false);
        match g.0 {
            Some(r) => Some((g.1, r.0, r.1)),
            None => None,
        }
    }
}

/// Tries to fill along the mask: closes the letters, thickens the strokes, turns down what does
/// not look like text, and grows the rest to an even ring.
pub fn autoclean_try_mask_fill(
    rgb: &RgbImage,
    mask: GrayImage,
    max_expand: i32,
    retreat_max: i32,
    stroke_probe: i32,
) -> (r: Option<(GrayImage, Rgb, bool)>)
    requires
        rgb.wf(),
        mask.wf(),
        mask@.same_size(rgb@),
    ensures
        r is Some <==> mask_fill(
            rgb@,
            mask@,
            max_expand as int,
            retreat_max as int,
            stroke_probe as int,
        ) is Some,
        r is Some ==> (r->0).0.wf() && (r->0).0@.same_size(mask@) && mask_fill(
            rgb@,
            mask@,
            max_expand as int,
            retreat_max as int,
            stroke_probe as int,
        ) == Some(((r->0).0@, (r->0).1, (r->0).2)),
{
    let mut mask = mask;
    if !has_foreground(&mask) {
        return None;
    }
    fill_holes(&mut mask);
    dilate_gray_inplace(&mut mask, AUTOCLEAN_INITIAL_DILATE);
    let ring = outer_ring(&mask);
    if ring.len() == 0 {
        return None;
    }
    proof {
        lemma_ring_members(mask@, mask@.px.len());
        assert forall|i: int| 0 <= i < ring@.len() implies rgb@.inside(
            #[trigger] ring@[i].0 as int,
            ring@[i].1 as int,
        ) by {
            assert(is_ring(mask@, ring@[i].0 as int, ring@[i].1 as int));
        }
    }
    let bg = ring_background(rgb, &ring);
    if !has_text_structure(rgb, &mask, bg) {
        return None;
    }
    match grow_until_homogeneous(rgb, &mut mask, max_expand, retreat_max, stroke_probe) {
        Some((bg, retreated)) => Some((mask, bg, retreated)),
        None => None,
    }
}

proof fn lemma_none_far(rgb: Grid<Rgb>, ring: Seq<(usize, usize)>, bg: Rgb, n: nat)
    requires
        n <= ring.len(),
        far_count(rgb, ring, bg, n) == 0,
    ensures
        forall|i: int|
            0 <= i < n ==> like(rgb, #[trigger] ring[i].0 as int, ring[i].1 as int, bg),
    decreases n,
{
    if n > 0 {
        lemma_none_far(rgb, ring, bg, (n - 1) as nat);
    }
}

/// Growing keeps the size of the mask.
pub proof fn growth_keeps_the_size(
    rgb: Grid<Rgb>,
    mask: Grid<u8>,
    expand_left: nat,
    retreat_left: nat,
    reach: int,
    retreated: bool,
)
    requires
        mask.valid(),
    ensures
        grown(rgb, mask, expand_left, retreat_left, reach, retreated).1.valid(),
        grown(rgb, mask, expand_left, retreat_left, reach, retreated).1.same_size(mask),
    decreases expand_left + retreat_left,
{
    let ring = ring_of(mask);
    let bg = ring_colour(rgb, ring);
    let far = far_count(rgb, ring, bg, ring.len());
    let grow = expand_left > 0 && exists|x: int, y: int| grows(rgb, mask, bg, reach, x, y);
    let retreat = retreat_left > 0 && exists|x: int, y: int| retreats(rgb, mask, bg, reach, x, y);
    if ring.len() == 0 || far == 0 || exceeds_share(far, ring.len(), SHARE_30 as nat) || (!grow
        && !retreat) {
    } else {
        let next = moved_mask(rgb, mask, bg, reach, grow, retreat);
        assert(0 <= mask.w * mask.h) by (nonlinear_arith)
            requires
                0 <= mask.w,
                0 <= mask.h,
        ;
        assert(next.valid());
        growth_keeps_the_size(
            rgb,
            next,
            if grow {
                (expand_left - 1) as nat
            } else {
                expand_left
            },
            if retreat {
                (retreat_left - 1) as nat
            } else {
                retreat_left
            },
            reach,
            retreated || retreat,
        );
    }
}

/// Where growing succeeds, the whole ring of the grown mask has the background colour.
pub proof fn success_means_an_even_ring(
    rgb: Grid<Rgb>,
    mask: Grid<u8>,
    expand_left: nat,
    retreat_left: nat,
    reach: int,
    retreated: bool,
    x: int,
    y: int,
)
    requires
        mask.valid(),
        mask.w <= usize::MAX,
        mask.h <= usize::MAX,
        grown(rgb, mask, expand_left, retreat_left, reach, retreated).0 is Some,
        is_ring(grown(rgb, mask, expand_left, retreat_left, reach, retreated).1, x, y),
    ensures
        like(
            rgb,
            x,
            y,
            (grown(rgb, mask, expand_left, retreat_left, reach, retreated).0->0).0,
        ),
    decreases expand_left + retreat_left,
{
    let ring = ring_of(mask);
    let bg = ring_colour(rgb, ring);
    let far = far_count(rgb, ring, bg, ring.len());
    let grow = expand_left > 0 && exists|x: int, y: int| grows(rgb, mask, bg, reach, x, y);
    let retreat = retreat_left > 0 && exists|x: int, y: int| retreats(rgb, mask, bg, reach, x, y);
    if far == 0 {
        lemma_none_far(rgb, ring, bg, ring.len());
        lemma_ring_members(mask, mask.px.len());
        lemma_offset(mask.w, mask.h, x, y);
        assert(ring.contains((x as usize, y as usize)));
        let i = choose|i: int| 0 <= i < ring.len() && ring[i] == (x as usize, y as usize);
        assert(like(rgb, ring[i].0 as int, ring[i].1 as int, bg));
    } else {
        let next = moved_mask(rgb, mask, bg, reach, grow, retreat);
        assert(0 <= mask.w * mask.h) by (nonlinear_arith)
            requires
                0 <= mask.w,
                0 <= mask.h,
        ;
        assert(next.valid());
        success_means_an_even_ring(
            rgb,
            next,
            if grow {
                (expand_left - 1) as nat
            } else {
                expand_left
            },
            if retreat {
                (retreat_left - 1) as nat
            } else {
                retreat_left
            },
            reach,
            retreated || retreat,
            x,
            y,
        );
    }
}

/// With no rounds left a mask is never changed.
pub proof fn no_budget_no_change(rgb: Grid<Rgb>, mask: Grid<u8>, reach: int, retreated: bool)
    ensures
        grown(rgb, mask, 0, 0, reach, retreated).1 == mask,
{
}

/// Filling holes and thickening never clear a pixel.
pub proof fn filling_and_thickening_keep_set_pixels(mask: Grid<u8>, r: int, x: int, y: int)
    requires
        mask.valid(),
        on(mask, x, y),
    ensures
        on(holes_filled(mask), x, y),
        on(dilated(mask, r), x, y),
{
    lemma_grid_of(
        mask.w,
        mask.h,
        |x: int, y: int|
            if mask.at(x, y) == 0 && !reached(
                clear_pixels(mask),
                frame_seeds(mask.w, mask.h),
                x,
                y,
            ) {
                255u8
            } else {
                mask.at(x, y)
            },
    );
    lemma_grid_of(
        mask.w,
        mask.h,
        |x: int, y: int|
            if mask.at(x, y) == 0 && on_within(mask, r, x, y) {
                255u8
            } else {
                mask.at(x, y)
            },
    );
    assert(holes_filled(mask).at(x, y) == mask.at(x, y));
    assert(dilated(mask, r).at(x, y) == mask.at(x, y));
}

proof fn lemma_nothing_reached(open: Grid<bool>, seeds: Grid<bool>, n: nat, x: int, y: int)
    requires
        forall|a: int, b: int|
            open.inside(a, b) && #[trigger] seeds.at(a, b) ==> !open.at(a, b),
    ensures
        !crate::flood::reached_in(open, seeds, n, x, y),
    decreases n,
{
    if n > 0 {
        let m = (n - 1) as nat;
        lemma_nothing_reached(open, seeds, m, x, y);
        lemma_nothing_reached(open, seeds, m, x - 1, y);
        lemma_nothing_reached(open, seeds, m, x + 1, y);
        lemma_nothing_reached(open, seeds, m, x, y - 1);
        lemma_nothing_reached(open, seeds, m, x, y + 1);
    }
}

/// Text on an open background: where the background that touches the text runs all along the
/// frame, clipping to the bubble changes nothing.
pub proof fn open_background_is_not_clipped(
    fill: Grid<u8>,
    rgb: Grid<Rgb>,
    text: Grid<u8>,
    bg: Rgb,
)
    requires
        fill.valid(),
        rgb.valid(),
        fill.same_size(rgb),
        text.same_size(rgb),
        forall|x: int, y: int|
            rgb.inside(x, y) && crate::flood::on_frame(rgb.w, rgb.h, x, y) ==> #[trigger] in_bubble(
                rgb,
                text,
                bg,
                x,
                y,
            ),
    ensures
        clipped_to_bubble(fill, rgb, text, bg) == fill,
{
    let open = not_in_bubble(rgb, text, bg);
    let seeds = frame_seeds(rgb.w, rgb.h);
    lemma_grid_of(rgb.w, rgb.h, |x: int, y: int| !in_bubble(rgb, text, bg, x, y));
    lemma_grid_of(
        rgb.w,
        rgb.h,
        |x: int, y: int| crate::flood::on_frame(rgb.w, rgb.h, x, y),
    );
    assert forall|a: int, b: int| open.inside(a, b) && #[trigger] seeds.at(a, b) implies !open.at(a, b) by {
        assert(in_bubble(rgb, text, bg, a, b));
    }
    assert forall|x: int, y: int| !out_of_bubble(rgb, text, bg, x, y) by {
        if out_of_bubble(rgb, text, bg, x, y) {
            let n = choose|n: nat| crate::flood::reached_in(open, seeds, n, x, y);
            lemma_nothing_reached(open, seeds, n, x, y);
        }
    }
    let f = |x: int, y: int|
        if out_of_bubble(rgb, text, bg, x, y) {
            0u8
        } else {
            fill.at(x, y)
        };
    lemma_grid_of(fill.w, fill.h, f);
    let g = grid_of(fill.w, fill.h, f);
    assert forall|x: int, y: int| g.inside(x, y) implies #[trigger] g.at(x, y) == fill.at(x, y) by {
        assert(f(x, y) == g.at(x, y));
    }
    lemma_grid_eq(g, fill);
}

/// Clipping to the bubble never sets a pixel.
pub proof fn clipping_only_clears(
    fill: Grid<u8>,
    rgb: Grid<Rgb>,
    text: Grid<u8>,
    bg: Rgb,
    x: int,
    y: int,
)
    requires
        fill.valid(),
        fill.inside(x, y),
    ensures
        clipped_to_bubble(fill, rgb, text, bg).at(x, y) == fill.at(x, y) || clipped_to_bubble(
            fill,
            rgb,
            text,
            bg,
        ).at(x, y) == 0,
{
    let f = |x: int, y: int|
        if out_of_bubble(rgb, text, bg, x, y) {
            0u8
        } else {
            fill.at(x, y)
        };
    lemma_grid_of(fill.w, fill.h, f);
    assert(grid_of(fill.w, fill.h, f).at(x, y) == f(x, y));
}

} // verus!
