//! What the single steps of a fill do: to a pixel, to the pixels round it, and to a whole mask.

use vstd::prelude::*;
#[allow(unused_imports)]
use crate::autoclean::{
    any_on, background_returns, beside, bounds_are_unique, bounds_of, byte_le, channel_distance,
    clear_pixels, clipped_to_bubble, counted, cropped, dilated, eroded_around, far_count, grown,
    grows, holes_filled, in_bubble, is_bounds, is_ink, is_ink_edge, is_ring, like, looks_like_text,
    mask_fill, median_of, mostly_background, moved_mask, on, on_within, out_of_bubble, painted_fill,
    painted_mask, ray_meets, retreats, ring_before, ring_colour, ring_of, set_pixels, Bounds,
};
#[allow(unused_imports)]
use crate::color::{Color, Rgb, Rgba};
#[allow(unused_imports)]
use crate::flood::{frame_seeds, reached, reached_in};
#[allow(unused_imports)]
use crate::raster::{grid_of, lemma_grid_of, lemma_offset, Grid};
#[allow(unused_imports)]
use crate::ratio::{edge_share, exceeds_share, round24, sparse_share, unit24};

verus! {

/// The distance of two colours is the largest difference in a channel: no channel differs by more,
/// one differs by just that, and it does not matter which colour comes first.
pub proof fn colours_are_as_far_as_their_farthest_channel(a: Rgb, b: Rgb)
    ensures
        ({
            let d = channel_distance(a, b);
            &&& -d <= a.r - b.r <= d
            &&& -d <= a.g - b.g <= d
            &&& -d <= a.b - b.b <= d
            &&& d == a.r - b.r || d == b.r - a.r || d == a.g - b.g || d == b.g - a.g || d == a.b
                - b.b || d == b.b - a.b
            &&& channel_distance(b, a) == d
            &&& d == 0 <==> a == b
        }),
{
}

/// A pixel is taken for background where no channel is more than 16 away from it.
pub proof fn background_is_close_in_every_channel(rgb: Grid<Rgb>, x: int, y: int, bg: Rgb)
    ensures
        ({
            let p = rgb.px[y * rgb.w + x];
            like(rgb, x, y, bg) <==> -16 <= p.r - bg.r <= 16 && -16 <= p.g - bg.g <= 16 && -16 <= p.b
                - bg.b <= 16
        }),
{
}

/// The two places are next to each other in a row or in a column.
pub open spec fn next_to(a: (int, int), b: (int, int)) -> bool {
    ||| a.0 == b.0 && (a.1 == b.1 + 1 || b.1 == a.1 + 1)
    ||| a.1 == b.1 && (a.0 == b.0 + 1 || b.0 == a.0 + 1)
}

/// A way over open pixels that starts at a seed.
pub open spec fn is_way(open: Grid<bool>, seeds: Grid<bool>, p: Seq<(int, int)>) -> bool {
    &&& p.len() > 0
    &&& seeds.px[p[0].1 * seeds.w + p[0].0]
    &&& forall|i: int|
        0 <= i < p.len() ==> {
            &&& 0 <= (#[trigger] p[i]).0 < open.w
            &&& 0 <= p[i].1 < open.h
            &&& open.px[p[i].1 * open.w + p[i].0]
        }
    &&& forall|i: int, j: int|
        0 <= i && j == i + 1 && j < p.len() ==> next_to(#[trigger] p[i], #[trigger] p[j])
}

/// A flood reaches the pixels to which a way leads over open pixels from a seed, step by step
/// beside each other, and no others.
pub proof fn a_flood_follows_open_ways(open: Grid<bool>, seeds: Grid<bool>, x: int, y: int)
    ensures
        reached(open, seeds, x, y) <==> exists|p: Seq<(int, int)>|
            #[trigger] is_way(open, seeds, p) && p.last() == (x, y),
{
    if reached(open, seeds, x, y) {
        let n = choose|n: nat| reached_in(open, seeds, n, x, y);
        let p = lemma_way(open, seeds, n, x, y);
        assert(is_way(open, seeds, p) && p.last() == (x, y));
    }
    if exists|p: Seq<(int, int)>| #[trigger] is_way(open, seeds, p) && p.last() == (x, y) {
        let p = choose|p: Seq<(int, int)>| #[trigger]
            is_way(open, seeds, p) && p.last() == (x, y);
        lemma_way_reaches(open, seeds, p, (p.len() - 1) as nat);
    }
}

proof fn lemma_way(open: Grid<bool>, seeds: Grid<bool>, n: nat, x: int, y: int) -> (p: Seq<
    (int, int),
>)
    requires
        reached_in(open, seeds, n, x, y),
    ensures
        is_way(open, seeds, p),
        p.last() == (x, y),
    decreases n,
{
    if n == 0 {
        seq![(x, y)]
    } else {
        let m = (n - 1) as nat;
        if reached_in(open, seeds, m, x, y) {
            lemma_way(open, seeds, m, x, y)
        } else {
            let from = if reached_in(open, seeds, m, x - 1, y) {
                (x - 1, y)
            } else if reached_in(open, seeds, m, x + 1, y) {
                (x + 1, y)
            } else if reached_in(open, seeds, m, x, y - 1) {
                (x, y - 1)
            } else {
                (x, y + 1)
            };
            let q = lemma_way(open, seeds, m, from.0, from.1);
            let p = q.push((x, y));
            assert forall|i: int, j: int| 0 <= i && j == i + 1 && j < p.len() implies next_to(
                #[trigger] p[i],
                #[trigger] p[j],
            ) by {
                if j < q.len() {
                    assert(next_to(q[i], q[j]));
                } else {
                    assert(p[i] == q.last());
                }
            }
            p
        }
    }
}

proof fn lemma_way_reaches(open: Grid<bool>, seeds: Grid<bool>, p: Seq<(int, int)>, k: nat)
    requires
        is_way(open, seeds, p),
        k < p.len(),
    ensures
        reached_in(open, seeds, k, p[k as int].0, p[k as int].1),
    decreases k,
{
    assert(open.inside(p[k as int].0, p[k as int].1));
    assert(open.at(p[k as int].0, p[k as int].1));
    if k > 0 {
        lemma_way_reaches(open, seeds, p, (k - 1) as nat);
        assert(next_to(p[k - 1], p[k as int]));
    } else {
        assert(seeds.at(p[0].0, p[0].1));
    }
}

/// Filling holes sets a clear pixel exactly where no way over clear pixels leads from it to the
/// frame, and keeps what is set.
pub proof fn holes_are_cut_off_from_the_frame(mask: Grid<u8>, x: int, y: int)
    requires
        mask.valid(),
        0 <= x < mask.w,
        0 <= y < mask.h,
    ensures
        holes_filled(mask).w == mask.w,
        holes_filled(mask).h == mask.h,
        mask.px[y * mask.w + x] != 0 ==> holes_filled(mask).px[y * mask.w + x] == mask.px[y
            * mask.w + x],
        mask.px[y * mask.w + x] == 0 ==> (holes_filled(mask).px[y * mask.w + x] == 0
            <==> reached(clear_pixels(mask), frame_seeds(mask.w, mask.h), x, y)),
        mask.px[y * mask.w + x] == 0 && (x == 0 || y == 0 || x == mask.w - 1 || y == mask.h - 1)
            ==> holes_filled(mask).px[y * mask.w + x] == 0,
        forall|a: int, b: int|
            0 <= a < mask.w && 0 <= b < mask.h && next_to((a, b), (x, y)) && mask.px[y * mask.w + x]
                == 0 && #[trigger] holes_filled(mask).px[b * mask.w + a] == 0 ==> holes_filled(
                mask,
            ).px[y * mask.w + x] == 0,
{
    let f = |a: int, b: int|
        if mask.at(a, b) == 0 && !reached(clear_pixels(mask), frame_seeds(mask.w, mask.h), a, b) {
            255u8
        } else {
            mask.at(a, b)
        };
    lemma_grid_of(mask.w, mask.h, f);
    let out = holes_filled(mask);
    assert(out == grid_of(mask.w, mask.h, f));
    assert(out.at(x, y) == f(x, y));
    let c = |a: int, b: int| mask.at(a, b) == 0;
    lemma_grid_of(mask.w, mask.h, c);
    let open = clear_pixels(mask);
    assert(open == grid_of(mask.w, mask.h, c));
    assert(open.at(x, y) == c(x, y));
    let s = |a: int, b: int| crate::flood::on_frame(mask.w, mask.h, a, b);
    lemma_grid_of(mask.w, mask.h, s);
    let seeds = frame_seeds(mask.w, mask.h);
    assert(seeds == grid_of(mask.w, mask.h, s));
    assert(seeds.at(x, y) == s(x, y));
    if mask.at(x, y) == 0 && s(x, y) {
        assert(reached_in(open, seeds, 0, x, y));
    }
    assert forall|a: int, b: int|
        0 <= a < mask.w && 0 <= b < mask.h && next_to((a, b), (x, y)) && mask.px[y * mask.w + x]
            == 0 && #[trigger] out.px[b * mask.w + a] == 0 implies out.px[y * mask.w + x] == 0 by {
        assert(out.at(a, b) == f(a, b));
        let n = choose|n: nat| reached_in(open, seeds, n, a, b);
        assert(reached_in(open, seeds, n, a, b));
        assert(reached_in(open, seeds, n + 1, x, y));
    }
}

/// The frame of a picture is its outermost pixels.
pub proof fn the_frame_is_outermost(w: int, h: int, x: int, y: int)
    requires
        0 <= x < w,
        0 <= y < h,
    ensures
        frame_seeds(w, h).w == w,
        frame_seeds(w, h).h == h,
        frame_seeds(w, h).px[y * w + x] <==> x == 0 || y == 0 || x == w - 1 || y == h - 1,
{
    let s = |a: int, b: int| crate::flood::on_frame(w, h, a, b);
    lemma_grid_of(w, h, s);
    assert(frame_seeds(w, h).at(x, y) == s(x, y));
}

/// Thickening sets the pixels that are at most so far from a set one, also diagonally, and no
/// others.
pub proof fn thickening_reaches_so_far(mask: Grid<u8>, r: int, x: int, y: int)
    requires
        mask.valid(),
        0 <= r,
        0 <= x < mask.w,
        0 <= y < mask.h,
    ensures
        dilated(mask, r).w == mask.w,
        dilated(mask, r).h == mask.h,
        dilated(mask, r).px[y * mask.w + x] != 0 <==> exists|a: int, b: int|
            0 <= a < mask.w && 0 <= b < mask.h && x - r <= a <= x + r && y - r <= b <= y + r
                && #[trigger] mask.px[b * mask.w + a] != 0,
        mask.px[y * mask.w + x] != 0 ==> dilated(mask, r).px[y * mask.w + x] == mask.px[y * mask.w
            + x],
        mask.px[y * mask.w + x] == 0 && dilated(mask, r).px[y * mask.w + x] != 0 ==> dilated(
            mask,
            r,
        ).px[y * mask.w + x] == 255,
{
    let f = |a: int, b: int|
        if mask.at(a, b) == 0 && on_within(mask, r, a, b) {
            255u8
        } else {
            mask.at(a, b)
        };
    lemma_grid_of(mask.w, mask.h, f);
    assert(dilated(mask, r) == grid_of(mask.w, mask.h, f));
    assert(dilated(mask, r).at(x, y) == f(x, y));
    if on_within(mask, r, x, y) {
        let (a, b) = choose|a: int, b: int| #[trigger]
            on(mask, a, b) && -r <= a - x <= r && -r <= b - y <= r;
        assert(mask.px[b * mask.w + a] != 0);
    }
    assert forall|a: int, b: int|
        0 <= a < mask.w && 0 <= b < mask.h && x - r <= a <= x + r && y - r <= b <= y + r
            && #[trigger] mask.px[b * mask.w + a] != 0 implies f(x, y) != 0 by {
        assert(on(mask, a, b));
        assert(on_within(mask, r, x, y));
    }
}

/// The ring round a mask is its clear pixels with a set one beside them, each once, row by row.
pub proof fn the_ring_is_just_outside(mask: Grid<u8>, x: int, y: int)
    requires
        mask.valid(),
        mask.w <= usize::MAX,
        mask.h <= usize::MAX,
        0 <= x < mask.w,
        0 <= y < mask.h,
    ensures
        (exists|i: int|
            0 <= i < ring_of(mask).len() && #[trigger] ring_of(mask)[i] == (x as usize, y as usize))
            <==> mask.px[y * mask.w + x] == 0 && (exists|a: int, b: int|
            0 <= a < mask.w && 0 <= b < mask.h && next_to((a, b), (x, y)) && #[trigger] mask.px[b
                * mask.w + a] != 0),
        forall|i: int, j: int|
            0 <= i < j < ring_of(mask).len() ==> {
                let p = #[trigger] ring_of(mask)[i];
                let q = #[trigger] ring_of(mask)[j];
                p.1 < q.1 || (p.1 == q.1 && p.0 < q.0)
            },
{
    lemma_ring_list(mask, mask.px.len());
    lemma_offset(mask.w, mask.h, x, y);
    let ring = ring_of(mask);
    let n = y * mask.w + x;
    assert(mask.at(x, y) == mask.px[n]);
    if beside(mask, x, y) {
        let (a, b) = if on(mask, x - 1, y) {
            (x - 1, y)
        } else if on(mask, x + 1, y) {
            (x + 1, y)
        } else if on(mask, x, y - 1) {
            (x, y - 1)
        } else {
            (x, y + 1)
        };
        assert(next_to((a, b), (x, y)));
        assert(mask.px[b * mask.w + a] != 0);
    }
    assert forall|a: int, b: int|
        0 <= a < mask.w && 0 <= b < mask.h && next_to((a, b), (x, y)) && #[trigger] mask.px[b
            * mask.w + a] != 0 implies beside(mask, x, y) by {
        assert(on(mask, a, b));
    }
    if is_ring(mask, x, y) {
        assert(ring_at(mask, n));
    }
    if exists|i: int| 0 <= i < ring.len() && #[trigger] ring[i] == (x as usize, y as usize) {
        let i = choose|i: int|
            0 <= i < ring.len() && #[trigger] ring[i] == (x as usize, y as usize);
        assert(is_ring(mask, ring[i].0 as int, ring[i].1 as int));
    }
}

/// The ring pixel at an offset is listed.
spec fn ring_at(mask: Grid<u8>, n: int) -> bool {
    is_ring(mask, n % mask.w, n / mask.w)
}

proof fn lemma_ring_list(mask: Grid<u8>, n: nat)
    requires
        mask.valid(),
        mask.w <= usize::MAX,
        mask.h <= usize::MAX,
        n <= mask.px.len(),
    ensures
        forall|i: int|
            0 <= i < ring_before(mask, n).len() ==> {
                let p = #[trigger] ring_before(mask, n)[i];
                &&& is_ring(mask, p.0 as int, p.1 as int)
                &&& p.1 * mask.w + p.0 < n
            },
        forall|i: int, j: int|
            0 <= i < j < ring_before(mask, n).len() ==> {
                let p = #[trigger] ring_before(mask, n)[i];
                let q = #[trigger] ring_before(mask, n)[j];
                p.1 < q.1 || (p.1 == q.1 && p.0 < q.0)
            },
        forall|k: int|
            0 <= k < n && #[trigger] ring_at(mask, k) ==> exists|i: int|
                0 <= i < ring_before(mask, n).len() && #[trigger] ring_before(mask, n)[i] == (
                    (k % mask.w) as usize,
                    (k / mask.w) as usize,
                ),
    decreases n,
{
    if n > 0 {
        let m = (n - 1) as nat;
        lemma_ring_list(mask, m);
        assert(mask.w > 0) by (nonlinear_arith)
            requires
                0 < n <= mask.w * mask.h,
                0 <= mask.w,
                0 <= mask.h,
        ;
        lemma_place(mask.w, mask.h, m as int);
        let x = m as int % mask.w;
        let y = m as int / mask.w;
        let before = ring_before(mask, m);
        let now = ring_before(mask, n);
        assert(x as usize == x && y as usize == y);
        if is_ring(mask, x, y) {
            assert(now == before.push((x as usize, y as usize)));
            assert forall|i: int, j: int| 0 <= i < j < now.len() implies {
                let p = #[trigger] now[i];
                let q = #[trigger] now[j];
                p.1 < q.1 || (p.1 == q.1 && p.0 < q.0)
            } by {
                if j == now.len() - 1 {
                    let p = before[i];
                    assert(now[i] == p);
                    assert(p.1 * mask.w + p.0 < y * mask.w + x);
                    assert(p.0 < mask.w);
                    assert(p.1 <= y && (p.1 == y ==> p.0 < x)) by (nonlinear_arith)
                        requires
                            p.1 * mask.w + p.0 < y * mask.w + x,
                            0 <= p.0 < mask.w,
                            0 <= x < mask.w,
                    ;
                } else {
                    assert(now[i] == before[i] && now[j] == before[j]);
                }
            }
            assert forall|k: int| 0 <= k < n && #[trigger] ring_at(mask, k) implies exists|i: int|
                0 <= i < now.len() && #[trigger] now[i] == (
                    (k % mask.w) as usize,
                    (k / mask.w) as usize,
                ) by {
                if k == m {
                    assert(now[now.len() - 1] == (x as usize, y as usize));
                } else {
                    let i = choose|i: int|
                        0 <= i < before.len() && #[trigger] before[i] == (
                            (k % mask.w) as usize,
                            (k / mask.w) as usize,
                        );
                    assert(now[i] == before[i]);
                }
            }
        } else {
            assert(now == before);
            assert forall|k: int| 0 <= k < n && #[trigger] ring_at(mask, k) implies exists|i: int|
                0 <= i < now.len() && #[trigger] now[i] == (
                    (k % mask.w) as usize,
                    (k / mask.w) as usize,
                ) by {
                assert(k != m);
            }
        }
    }
}

proof fn lemma_place(w: int, h: int, i: int)
    requires
        0 < w,
        0 <= i < w * h,
    ensures
        0 <= i % w < w,
        0 <= i / w < h,
        i / w * w + i % w == i,
{
    vstd::arithmetic::div_mod::lemma_fundamental_div_mod(i, w);
    assert(0 <= i / w < h && i / w * w == w * (i / w)) by (nonlinear_arith)
        requires
            0 < w,
            0 <= i < w * h,
    ;
}

/// The median is what stands in the middle once the values are in order, the upper of the two
/// middle ones where there are two.
pub proof fn the_median_stands_in_the_middle(values: Seq<u8>, ordered: Seq<u8>)
    requires
        values.to_multiset() == ordered.to_multiset(),
        forall|i: int, j: int| 0 <= i < j < ordered.len() ==> ordered[i] <= ordered[j],
    ensures
        median_of(values) == ordered[(values.len() / 2) as int],
{
    let leq = byte_le();
    assert(vstd::relations::total_ordering(leq));
    values.lemma_sort_by_ensures(leq);
    let s = values.sort_by(leq);
    assert(vstd::relations::sorted_by(ordered, leq));
    vstd::seq_lib::lemma_sorted_unique(s, ordered, leq);
}

/// The background colour is, channel by channel, the median of that channel along the ring.
pub proof fn the_background_is_the_middle_of_the_ring(
    rgb: Grid<Rgb>,
    ring: Seq<(usize, usize)>,
    reds: Seq<u8>,
    greens: Seq<u8>,
    blues: Seq<u8>,
)
    requires
        reds.len() == ring.len(),
        greens.len() == ring.len(),
        blues.len() == ring.len(),
        forall|i: int|
            0 <= i < ring.len() ==> {
                let p = rgb.px[(#[trigger] ring[i]).1 * rgb.w + ring[i].0];
                reds[i] == p.r && greens[i] == p.g && blues[i] == p.b
            },
    ensures
        ring_colour(rgb, ring).r == median_of(reds),
        ring_colour(rgb, ring).g == median_of(greens),
        ring_colour(rgb, ring).b == median_of(blues),
{
    assert(crate::autoclean::along(rgb, ring, |p: Rgb| p.r) =~= reds);
    assert(crate::autoclean::along(rgb, ring, |p: Rgb| p.g) =~= greens);
    assert(crate::autoclean::along(rgb, ring, |p: Rgb| p.b) =~= blues);
}

/// From a pixel beside the mask one looks away from the mask, so far and no farther, for a pixel
/// that is background: from the left neighbour to the right, and so on in the order left, right,
/// above, below.
pub proof fn probing_looks_away_from_the_mask(
    rgb: Grid<Rgb>,
    mask: Grid<u8>,
    x: int,
    y: int,
    bg: Rgb,
    reach: int,
)
    ensures
        ({
            let left = on(mask, x - 1, y);
            let right = on(mask, x + 1, y);
            let above = on(mask, x, y - 1);
            let below = on(mask, x, y + 1);
            let found = background_returns(rgb, mask, x, y, bg, reach);
            &&& left ==> (found <==> exists|k: int|
                1 <= k <= reach && 0 <= x + k < rgb.w && 0 <= y < rgb.h && #[trigger] like(
                    rgb,
                    x + k,
                    y,
                    bg,
                ))
            &&& !left && right ==> (found <==> exists|k: int|
                1 <= k <= reach && 0 <= x - k < rgb.w && 0 <= y < rgb.h && #[trigger] like(
                    rgb,
                    x - k,
                    y,
                    bg,
                ))
            &&& !left && !right && above ==> (found <==> exists|k: int|
                1 <= k <= reach && 0 <= x < rgb.w && 0 <= y + k < rgb.h && #[trigger] like(
                    rgb,
                    x,
                    y + k,
                    bg,
                ))
            &&& !left && !right && !above && below ==> (found <==> exists|k: int|
                1 <= k <= reach && 0 <= x < rgb.w && 0 <= y - k < rgb.h && #[trigger] like(
                    rgb,
                    x,
                    y - k,
                    bg,
                ))
            &&& !left && !right && !above && !below ==> found
        }),
{
    let back = -1int;
    lemma_ray(rgb, x, y, 1, 0, bg, reach);
    lemma_ray(rgb, x, y, back, 0, bg, reach);
    lemma_ray(rgb, x, y, 0, 1, bg, reach);
    lemma_ray(rgb, x, y, 0, back, bg, reach);
    if ray_meets(rgb, x, y, 1, 0, bg, reach) {
        let k = choose|k: int| ray_step(rgb, x, y, 1, 0, bg, reach, k);
        assert(like(rgb, x + k, y, bg));
    }
    if ray_meets(rgb, x, y, back, 0, bg, reach) {
        let k = choose|k: int| ray_step(rgb, x, y, back, 0, bg, reach, k);
        assert(like(rgb, x - k, y, bg));
    }
    if ray_meets(rgb, x, y, 0, 1, bg, reach) {
        let k = choose|k: int| ray_step(rgb, x, y, 0, 1, bg, reach, k);
        assert(like(rgb, x, y + k, bg));
    }
    if ray_meets(rgb, x, y, 0, back, bg, reach) {
        let k = choose|k: int| ray_step(rgb, x, y, 0, back, bg, reach, k);
        assert(like(rgb, x, y - k, bg));
    }
    assert(forall|k: int|
        1 <= k <= reach && 0 <= x + k < rgb.w && 0 <= y < rgb.h && #[trigger] like(
            rgb,
            x + k,
            y,
            bg,
        ) ==> ray_step(rgb, x, y, 1, 0, bg, reach, k));
    assert(forall|k: int|
        1 <= k <= reach && 0 <= x - k < rgb.w && 0 <= y < rgb.h && #[trigger] like(
            rgb,
            x - k,
            y,
            bg,
        ) ==> ray_step(rgb, x, y, back, 0, bg, reach, k));
    assert(forall|k: int|
        1 <= k <= reach && 0 <= x < rgb.w && 0 <= y + k < rgb.h && #[trigger] like(
            rgb,
            x,
            y + k,
            bg,
        ) ==> ray_step(rgb, x, y, 0, 1, bg, reach, k));
    assert(forall|k: int|
        1 <= k <= reach && 0 <= x < rgb.w && 0 <= y - k < rgb.h && #[trigger] like(
            rgb,
            x,
            y - k,
            bg,
        ) ==> ray_step(rgb, x, y, 0, back, bg, reach, k));
}

/// The `k`-th step of a ray falls on background.
spec fn ray_step(
    rgb: Grid<Rgb>,
    x: int,
    y: int,
    dx: int,
    dy: int,
    bg: Rgb,
    reach: int,
    k: int,
) -> bool {
    &&& 1 <= k <= reach
    &&& 0 <= x + dx * k < rgb.w
    &&& 0 <= y + dy * k < rgb.h
    &&& like(rgb, x + dx * k, y + dy * k, bg)
}

proof fn lemma_ray(rgb: Grid<Rgb>, x: int, y: int, dx: int, dy: int, bg: Rgb, reach: int)
    requires
        -1 <= dx <= 1,
        -1 <= dy <= 1,
    ensures
        ray_meets(rgb, x, y, dx, dy, bg, reach) <==> exists|k: int|
            ray_step(rgb, x, y, dx, dy, bg, reach, k),
{
    assert forall|v: int, d: int, k: int| -1 <= d <= 1 implies #[trigger] crate::autoclean::moved_by(
        v,
        d,
        k,
    ) == v + d * k by {
        assert(d == 1 || d == 0 || d == -1);
        assert(1 * k == k && 0 * k == 0 && -1 * k == -k);
    }
    if ray_meets(rgb, x, y, dx, dy, bg, reach) {
        let k = choose|k: int|
            1 <= k <= reach && rgb.inside(
                crate::autoclean::moved_by(x, dx, k),
                crate::autoclean::moved_by(y, dy, k),
            ) && #[trigger] like(
                rgb,
                crate::autoclean::moved_by(x, dx, k),
                crate::autoclean::moved_by(y, dy, k),
                bg,
            );
        assert(ray_step(rgb, x, y, dx, dy, bg, reach, k));
    }
    if exists|k: int| ray_step(rgb, x, y, dx, dy, bg, reach, k) {
        let k = choose|k: int| ray_step(rgb, x, y, dx, dy, bg, reach, k);
        assert(like(
            rgb,
            crate::autoclean::moved_by(x, dx, k),
            crate::autoclean::moved_by(y, dy, k),
            bg,
        ));
    }
}

/// Eroding round a pixel clears its four neighbours and nothing else.
pub proof fn eroding_clears_the_neighbours(mask: Grid<u8>, x: int, y: int, a: int, b: int)
    requires
        mask.valid(),
        0 <= a < mask.w,
        0 <= b < mask.h,
    ensures
        eroded_around(mask, x, y).w == mask.w,
        eroded_around(mask, x, y).h == mask.h,
        eroded_around(mask, x, y).px[b * mask.w + a] == if next_to((a, b), (x, y)) {
            0
        } else {
            mask.px[b * mask.w + a]
        },
{
    let f = |u: int, v: int|
        if crate::autoclean::side_by_side(u, v, x, y) {
            0u8
        } else {
            mask.at(u, v)
        };
    lemma_grid_of(mask.w, mask.h, f);
    assert(eroded_around(mask, x, y) == grid_of(mask.w, mask.h, f));
    assert(eroded_around(mask, x, y).at(a, b) == f(a, b));
}

/// A ring pixel that is not background is an obstacle: the mask grows over it where background
/// comes again behind it, and draws back from it where none does.
pub proof fn obstacles_are_crossed_or_left(
    rgb: Grid<Rgb>,
    mask: Grid<u8>,
    bg: Rgb,
    reach: int,
    x: int,
    y: int,
)
    requires
        mask.valid(),
        0 <= x < mask.w,
        0 <= y < mask.h,
    ensures
        ({
            let obstacle = mask.px[y * mask.w + x] == 0 && (on(mask, x - 1, y) || on(mask, x + 1, y)
                || on(mask, x, y - 1) || on(mask, x, y + 1)) && !like(rgb, x, y, bg);
            let behind = background_returns(rgb, mask, x, y, bg, reach);
            &&& grows(rgb, mask, bg, reach, x, y) <==> obstacle && behind
            &&& retreats(rgb, mask, bg, reach, x, y) <==> obstacle && !behind
        }),
        ({
            let left = retreats(rgb, mask, bg, reach, x - 1, y) || retreats(
                rgb,
                mask,
                bg,
                reach,
                x + 1,
                y,
            ) || retreats(rgb, mask, bg, reach, x, y - 1) || retreats(
                rgb,
                mask,
                bg,
                reach,
                x,
                y + 1,
            );
            let crossed = grows(rgb, mask, bg, reach, x, y);
            let i = y * mask.w + x;
            &&& moved_mask(rgb, mask, bg, reach, false, false).px[i] == mask.px[i]
            &&& moved_mask(rgb, mask, bg, reach, true, false).px[i] == if crossed {
                255
            } else {
                mask.px[i]
            }
            &&& moved_mask(rgb, mask, bg, reach, false, true).px[i] == if left {
                0
            } else {
                mask.px[i]
            }
            &&& moved_mask(rgb, mask, bg, reach, true, true).px[i] == if left {
                0
            } else if crossed {
                255
            } else {
                mask.px[i]
            }
        }),
{
    lemma_moved(rgb, mask, bg, reach, false, false, x, y);
    lemma_moved(rgb, mask, bg, reach, true, false, x, y);
    lemma_moved(rgb, mask, bg, reach, false, true, x, y);
    lemma_moved(rgb, mask, bg, reach, true, true, x, y);
}

proof fn lemma_moved(
    rgb: Grid<Rgb>,
    mask: Grid<u8>,
    bg: Rgb,
    reach: int,
    grow: bool,
    retreat: bool,
    x: int,
    y: int,
)
    requires
        mask.valid(),
        0 <= x < mask.w,
        0 <= y < mask.h,
    ensures
        ({
            let left = retreats(rgb, mask, bg, reach, x - 1, y) || retreats(
                rgb,
                mask,
                bg,
                reach,
                x + 1,
                y,
            ) || retreats(rgb, mask, bg, reach, x, y - 1) || retreats(
                rgb,
                mask,
                bg,
                reach,
                x,
                y + 1,
            );
            moved_mask(rgb, mask, bg, reach, grow, retreat).px[y * mask.w + x] == if retreat
                && left {
                0
            } else if grow && grows(rgb, mask, bg, reach, x, y) {
                255
            } else {
                mask.px[y * mask.w + x]
            }
        }),
{
    let f = |a: int, b: int|
        if retreat && (retreats(rgb, mask, bg, reach, a - 1, b) || retreats(
            rgb,
            mask,
            bg,
            reach,
            a + 1,
            b,
        ) || retreats(rgb, mask, bg, reach, a, b - 1) || retreats(
            rgb,
            mask,
            bg,
            reach,
            a,
            b + 1,
        )) {
            0u8
        } else if grow && grows(rgb, mask, bg, reach, a, b) {
            255u8
        } else {
            mask.at(a, b)
        };
    lemma_grid_of(mask.w, mask.h, f);
    assert(moved_mask(rgb, mask, bg, reach, grow, retreat) == grid_of(mask.w, mask.h, f));
    assert(moved_mask(rgb, mask, bg, reach, grow, retreat).at(x, y) == f(x, y));
}

/// One round of growing.  Without a ring there is nothing to go by; an even ring ends the search
/// with its colour; one of which more than three tenths differ ends it without; else the mask moves
/// on, as long as there is a move and what was granted for it lasts.
pub proof fn growing_goes_round_by_round(
    rgb: Grid<Rgb>,
    mask: Grid<u8>,
    expand_left: nat,
    retreat_left: nat,
    reach: int,
    retreated: bool,
)
    ensures
        ({
            let ring = ring_of(mask);
            let bg = ring_colour(rgb, ring);
            let far = far_count(rgb, ring, bg, ring.len());
            let can_grow = exists|x: int, y: int| grows(rgb, mask, bg, reach, x, y);
            let can_retreat = exists|x: int, y: int| retreats(rgb, mask, bg, reach, x, y);
            let out = grown(rgb, mask, expand_left, retreat_left, reach, retreated);
            let mixed = ring.len() > 0 && 0 < far;
            let stuck = exceeds_share(far, ring.len(), 0x99999A);
            &&& ring.len() == 0 ==> out == (None::<(Rgb, bool)>, mask)
            &&& ring.len() > 0 && far == 0 ==> out == (Some((bg, retreated)), mask)
            &&& mixed && stuck ==> out == (None::<(Rgb, bool)>, mask)
            &&& mixed && !stuck && (expand_left == 0 || !can_grow) && (retreat_left == 0
                || !can_retreat) ==> out == (None::<(Rgb, bool)>, mask)
            &&& mixed && !stuck && expand_left > 0 && can_grow && (retreat_left == 0
                || !can_retreat) ==> out == grown(
                rgb,
                moved_mask(rgb, mask, bg, reach, true, false),
                (expand_left - 1) as nat,
                retreat_left,
                reach,
                retreated,
            )
            &&& mixed && !stuck && (expand_left == 0 || !can_grow) && retreat_left > 0
                && can_retreat ==> out == grown(
                rgb,
                moved_mask(rgb, mask, bg, reach, false, true),
                expand_left,
                (retreat_left - 1) as nat,
                reach,
                true,
            )
            &&& mixed && !stuck && expand_left > 0 && can_grow && retreat_left > 0 && can_retreat
                ==> out == grown(
                rgb,
                moved_mask(rgb, mask, bg, reach, true, true),
                (expand_left - 1) as nat,
                (retreat_left - 1) as nat,
                reach,
                true,
            )
        }),
{
}

/// How many pixels of the ring differ from the background.
pub proof fn differing_pixels_are_counted(
    rgb: Grid<Rgb>,
    ring: Seq<(usize, usize)>,
    bg: Rgb,
    n: nat,
)
    requires
        n <= ring.len(),
    ensures
        far_count(rgb, ring, bg, n) == ring.take(n as int).filter(
            |p: (usize, usize)| !like(rgb, p.0 as int, p.1 as int, bg),
        ).len(),
    decreases n,
{
    reveal(Seq::filter);
    if n > 0 {
        differing_pixels_are_counted(rgb, ring, bg, (n - 1) as nat);
        assert(ring.take(n as int).drop_last() =~= ring.take(n - 1));
        assert(ring.take(n as int).last() == ring[n - 1]);
    } else {
        assert(ring.take(0) =~= Seq::empty());
    }
}

/// The offsets of the pixels of a picture, row by row, of which a count tells how many are meant.
pub proof fn counting_counts_pixels(w: int, n: nat, f: spec_fn(int, int) -> bool)
    ensures
        counted(w, n, f) == Seq::new(n, |i: int| i).filter(|i: int| f(i % w, i / w)).len(),
    decreases n,
{
    reveal(Seq::filter);
    let s = Seq::new(n, |i: int| i);
    if n > 0 {
        counting_counts_pixels(w, (n - 1) as nat, f);
        assert(s.drop_last() =~= Seq::new((n - 1) as nat, |i: int| i));
        assert(s.last() == n - 1);
    } else {
        assert(s =~= Seq::empty());
    }
}

/// Ink is what the mask covers and is not background; it is at an edge where a neighbour is not
/// ink.  A mask looks like text where its ink is neither too sparse nor too dense, and enough of
/// the ink is at an edge.
pub proof fn text_is_ink_with_edges(rgb: Grid<Rgb>, mask: Grid<u8>, bg: Rgb)
    ensures
        forall|x: int, y: int|
            #[trigger] is_ink(rgb, mask, bg, x, y) <==> 0 <= x < mask.w && 0 <= y < mask.h
                && mask.px[y * mask.w + x] != 0 && !like(rgb, x, y, bg),
        forall|x: int, y: int|
            #[trigger] is_ink_edge(rgb, mask, bg, x, y) <==> is_ink(rgb, mask, bg, x, y) && !(
            is_ink(rgb, mask, bg, x - 1, y) && is_ink(rgb, mask, bg, x + 1, y) && is_ink(
                rgb,
                mask,
                bg,
                x,
                y - 1,
            ) && is_ink(rgb, mask, bg, x, y + 1)),
        ({
            let n = mask.px.len();
            let area = counted(mask.w, n, |x: int, y: int| on(mask, x, y));
            let ink = counted(mask.w, n, |x: int, y: int| is_ink(rgb, mask, bg, x, y));
            let edge = counted(mask.w, n, |x: int, y: int| is_ink_edge(rgb, mask, bg, x, y));
            looks_like_text(rgb, mask, bg) <==> area > 0 && ink > 0 && sparse_share(ink, area)
                && edge_share(edge, ink)
        }),
{
}

/// What the shares mean, for counts below sixteen million: text covers from two hundredths to
/// sixty-five hundredths of the mask, and sixteen hundredths of it or more is at an edge, each
/// number taken as it is stored.
pub proof fn shares_are_exact(part: nat, whole: nat)
    requires
        part < 0x1000000,
        whole < 0x1000000,
    ensures
        round24(part) == part,
        sparse_share(part, whole) <==> part * 0x40000000 >= 0x147AE13 * whole && part * 0x2000000
            <= 0x14CCCCD * whole,
        edge_share(part, whole) <==> part * 0x8000000 >= 0x147AE13 * whole,
        exceeds_share(part, whole, 0x99999A) <==> part * 0x2000000 > round24(0x99999A * whole),
        exceeds_share(part, whole, 0xE66666) <==> part * 0x2000000 > round24(0xE66666 * whole),
{
    lemma_small_is_exact(part);
    lemma_small_is_exact(whole);
}

proof fn lemma_small_is_exact(n: nat)
    requires
        n < 0x1000000,
    ensures
        round24(n) == n,
{
    assert(unit24(n) == 1);
    assert(n / 1 == n && n % 1 == 0);
    assert((n / 1) * 1 == n);
}

/// A box is open background where it is not empty and no more than forty-five hundredths of it are
/// something else.
pub proof fn a_box_is_open_where_little_differs(
    rgb: Grid<Rgb>,
    x1: int,
    y1: int,
    x2: int,
    y2: int,
    bg: Rgb,
    total: nat,
    ink: nat,
)
    requires
        total == counted(
            rgb.w,
            rgb.px.len(),
            |x: int, y: int| x1 <= x < x2 && y1 <= y < y2,
        ),
        ink == counted(
            rgb.w,
            rgb.px.len(),
            |x: int, y: int| x1 <= x < x2 && y1 <= y < y2 && !like(rgb, x, y, bg),
        ),
    ensures
        mostly_background(rgb, x1, y1, x2, y2, bg) <==> total > 0 && !exceeds_share(
            ink,
            total,
            0xE66666,
        ),
{
    let n = rgb.px.len();
    lemma_same_count(
        rgb.w,
        n,
        |x: int, y: int| x1 <= x < x2 && y1 <= y < y2,
        |x: int, y: int| crate::autoclean::in_box(x1, y1, x2, y2, x, y),
    );
    lemma_same_count(
        rgb.w,
        n,
        |x: int, y: int| x1 <= x < x2 && y1 <= y < y2 && !like(rgb, x, y, bg),
        |x: int, y: int|
            crate::autoclean::in_box(x1, y1, x2, y2, x, y) && !like(rgb, x, y, bg),
    );
}

proof fn lemma_same_count(
    w: int,
    n: nat,
    f: spec_fn(int, int) -> bool,
    g: spec_fn(int, int) -> bool,
)
    requires
        forall|x: int, y: int| #[trigger] f(x, y) == g(x, y),
    ensures
        counted(w, n, f) == counted(w, n, g),
    decreases n,
{
    if n > 0 {
        lemma_same_count(w, (n - 1) as nat, f, g);
        assert(f((n - 1) % w, (n - 1) / w) == g((n - 1) % w, (n - 1) / w));
    }
}

/// A bubble is the background that a way over background joins to the side of the text.  Where there
/// is one, a fill keeps what a way over pixels outside the bubble cannot reach from the frame.
pub proof fn a_fill_stays_in_its_bubble(
    fill: Grid<u8>,
    rgb: Grid<Rgb>,
    text: Grid<u8>,
    bg: Rgb,
    x: int,
    y: int,
)
    requires
        fill.valid(),
        rgb.valid(),
        text.valid(),
        fill.same_size(rgb),
        text.same_size(rgb),
        0 <= x < rgb.w,
        0 <= y < rgb.h,
    ensures
        crate::autoclean::background_pixels(rgb, bg).px[y * rgb.w + x] <==> like(rgb, x, y, bg),
        crate::autoclean::text_sides(text).px[y * rgb.w + x] <==> on(text, x - 1, y) || on(
            text,
            x + 1,
            y,
        ) || on(text, x, y - 1) || on(text, x, y + 1),
        in_bubble(rgb, text, bg, x, y) <==> reached(
            crate::autoclean::background_pixels(rgb, bg),
            crate::autoclean::text_sides(text),
            x,
            y,
        ),
        crate::autoclean::not_in_bubble(rgb, text, bg).px[y * rgb.w + x] <==> !in_bubble(
            rgb,
            text,
            bg,
            x,
            y,
        ),
        out_of_bubble(rgb, text, bg, x, y) <==> reached(
            crate::autoclean::not_in_bubble(rgb, text, bg),
            frame_seeds(rgb.w, rgb.h),
            x,
            y,
        ),
        clipped_to_bubble(fill, rgb, text, bg).px[y * rgb.w + x] == if (exists|a: int, b: int|
            0 <= a < rgb.w && 0 <= b < rgb.h && in_bubble(rgb, text, bg, a, b)) && out_of_bubble(
            rgb,
            text,
            bg,
            x,
            y,
        ) {
            0
        } else {
            fill.px[y * rgb.w + x]
        },
{
    let p = |a: int, b: int| like(rgb, a, b, bg);
    lemma_grid_of(rgb.w, rgb.h, p);
    assert(crate::autoclean::background_pixels(rgb, bg).at(x, y) == p(x, y));
    let q = |a: int, b: int| beside(text, a, b);
    lemma_grid_of(text.w, text.h, q);
    assert(crate::autoclean::text_sides(text).at(x, y) == q(x, y));
    let r = |a: int, b: int| !in_bubble(rgb, text, bg, a, b);
    lemma_grid_of(rgb.w, rgb.h, r);
    assert(crate::autoclean::not_in_bubble(rgb, text, bg).at(x, y) == r(x, y));
    let f = |a: int, b: int|
        if out_of_bubble(rgb, text, bg, a, b) {
            0u8
        } else {
            fill.at(a, b)
        };
    lemma_grid_of(fill.w, fill.h, f);
    assert(grid_of(fill.w, fill.h, f).at(x, y) == f(x, y));
    assert(fill.at(x, y) == fill.px[y * rgb.w + x]);
    if exists|a: int, b: int| rgb.inside(a, b) && in_bubble(rgb, text, bg, a, b) {
        let (a, b) = choose|a: int, b: int| rgb.inside(a, b) && in_bubble(rgb, text, bg, a, b);
        assert(0 <= a < rgb.w && 0 <= b < rgb.h && in_bubble(rgb, text, bg, a, b));
        assert(clipped_to_bubble(fill, rgb, text, bg) == grid_of(fill.w, fill.h, f));
    } else if exists|a: int, b: int|
        0 <= a < rgb.w && 0 <= b < rgb.h && in_bubble(rgb, text, bg, a, b) {
        let (a, b) = choose|a: int, b: int|
            0 <= a < rgb.w && 0 <= b < rgb.h && in_bubble(rgb, text, bg, a, b);
        assert(rgb.inside(a, b) && in_bubble(rgb, text, bg, a, b));
    }
}

/// A crop shows the colours of the page from its corner on, without their alpha, and black beyond
/// the page.
pub proof fn a_crop_shows_the_page(
    base: Grid<Rgba>,
    ox: int,
    oy: int,
    cw: int,
    ch: int,
    x: int,
    y: int,
)
    requires
        0 <= x < cw,
        0 <= y < ch,
    ensures
        ({
            let out = cropped(base, ox, oy, cw, ch);
            let on_page = 0 <= ox + x < base.w && 0 <= oy + y < base.h;
            let from = base.px[(oy + y) * base.w + (ox + x)];
            let to = out.px[y * cw + x];
            &&& out.w == cw
            &&& out.h == ch
            &&& on_page ==> to.r == from.r && to.g == from.g && to.b == from.b
            &&& !on_page ==> to.r == 0 && to.g == 0 && to.b == 0
        }),
{
    let f = |a: int, b: int|
        if base.inside(ox + a, oy + b) {
            let p = base.at(ox + a, oy + b);
            Rgb { r: p.r, g: p.g, b: p.b }
        } else {
            Rgb { r: 0, g: 0, b: 0 }
        };
    lemma_grid_of(cw, ch, f);
    assert(cropped(base, ox, oy, cw, ch) == grid_of(cw, ch, f));
    assert(cropped(base, ox, oy, cw, ch).at(x, y) == f(x, y));
}

/// Painting covers the pixels under the mask, or in the box, with the colour, opaque, and leaves
/// the others.  A box fill covers the bounds of the mask and two pixels more on each side, but
/// stays inside the mask's picture.
pub proof fn painting_covers_what_it_should(
    patch: Grid<Color>,
    ox: int,
    oy: int,
    mask: Grid<u8>,
    bg: Rgb,
    b: Bounds,
    x: int,
    y: int,
)
    requires
        patch.valid(),
        mask.valid(),
        0 <= x < patch.w,
        0 <= y < patch.h,
    ensures
        ({
            let i = y * patch.w + x;
            let colour = Color { r: bg.r, g: bg.g, b: bg.b, a: 255 };
            let under = 0 <= x - ox < mask.w && 0 <= y - oy < mask.h && mask.px[(y - oy) * mask.w
                + (x - ox)] != 0;
            let around = b.x1 - 2 <= x - ox < b.x2 + 2 && b.y1 - 2 <= y - oy < b.y2 + 2 && 0 <= x
                - ox < mask.w && 0 <= y - oy < mask.h;
            &&& painted_mask(patch, ox, oy, mask, bg).w == patch.w
            &&& painted_mask(patch, ox, oy, mask, bg).h == patch.h
            &&& painted_mask(patch, ox, oy, mask, bg).px[i] == if under {
                colour
            } else {
                patch.px[i]
            }
            &&& is_bounds(set_pixels(mask), b) ==> painted_fill(patch, ox, oy, mask, bg).px[i] == if around {
                colour
            } else {
                patch.px[i]
            }
            &&& (forall|j: int| 0 <= j < mask.px.len() ==> #[trigger] mask.px[j] == 0)
                ==> painted_fill(patch, ox, oy, mask, bg) == patch
        }),
{
    let f = |u: int, v: int|
        if on(mask, u - ox, v - oy) {
            crate::autoclean::opaque(bg)
        } else {
            patch.at(u, v)
        };
    lemma_grid_of(patch.w, patch.h, f);
    assert(painted_mask(patch, ox, oy, mask, bg) == grid_of(patch.w, patch.h, f));
    assert(painted_mask(patch, ox, oy, mask, bg).at(x, y) == f(x, y));
    if is_bounds(set_pixels(mask), b) {
        let (u, v) = choose|u: int, v: int| #[trigger] set_pixels(mask)(u, v) && u == b.x1;
        assert(on(mask, u, v));
        assert(any_on(mask));
        assert(is_bounds(set_pixels(mask), bounds_of(mask)));
        bounds_are_unique(set_pixels(mask), b, bounds_of(mask));
        let x1 = crate::autoclean::larger(b.x1 - 2, 0);
        let y1 = crate::autoclean::larger(b.y1 - 2, 0);
        let x2 = crate::autoclean::smaller(b.x2 + 2, mask.w);
        let y2 = crate::autoclean::smaller(b.y2 + 2, mask.h);
        let g = |u: int, v: int|
            if crate::autoclean::in_box(x1, y1, x2, y2, u - ox, v - oy) {
                crate::autoclean::opaque(bg)
            } else {
                patch.at(u, v)
            };
        lemma_grid_of(patch.w, patch.h, g);
        assert(painted_fill(patch, ox, oy, mask, bg) == grid_of(patch.w, patch.h, g));
        assert(painted_fill(patch, ox, oy, mask, bg).at(x, y) == g(x, y));
    }
    if forall|j: int| 0 <= j < mask.px.len() ==> #[trigger] mask.px[j] == 0 {
        if any_on(mask) {
            let (u, v) = choose|u: int, v: int| on(mask, u, v);
            lemma_offset(mask.w, mask.h, u, v);
            assert(mask.px[v * mask.w + u] == 0);
        }
    }
}

/// A mask is filled where it is not empty, has a ring once its holes are filled and it is two
/// pixels thicker, looks like text on the colour of that ring, and then can be grown to an even
/// ring.  The fill is what was grown.
pub proof fn a_mask_is_filled_where_it_is_text(
    rgb: Grid<Rgb>,
    mask: Grid<u8>,
    max_expand: int,
    retreat_max: int,
    reach: int,
)
    requires
        mask.valid(),
        0 <= max_expand,
        0 <= retreat_max,
    ensures
        ({
            let thick = dilated(holes_filled(mask), 2);
            let ring = ring_of(thick);
            let even = grown(
                rgb,
                thick,
                max_expand as nat,
                retreat_max as nat,
                reach,
                false,
            );
            let out = mask_fill(rgb, mask, max_expand, retreat_max, reach);
            &&& out is Some <==> (exists|i: int|
                0 <= i < mask.px.len() && #[trigger] mask.px[i] != 0) && ring.len() > 0
                && looks_like_text(rgb, thick, ring_colour(rgb, ring)) && even.0 is Some
            &&& out is Some ==> (out->0).0 == even.1 && (out->0).1 == (even.0->0).0 && (out->0).2
                == (even.0->0).1
        }),
{
    if any_on(mask) {
        let (u, v) = choose|u: int, v: int| on(mask, u, v);
        lemma_offset(mask.w, mask.h, u, v);
        assert(mask.px[v * mask.w + u] != 0);
    }
    if exists|i: int| 0 <= i < mask.px.len() && #[trigger] mask.px[i] != 0 {
        let i = choose|i: int| 0 <= i < mask.px.len() && #[trigger] mask.px[i] != 0;
        assert(mask.w > 0) by (nonlinear_arith)
            requires
                0 <= i < mask.w * mask.h,
                0 <= mask.w,
                0 <= mask.h,
        ;
        lemma_place(mask.w, mask.h, i);
        assert(on(mask, i % mask.w, i / mask.w));
    }
}

} // verus!
