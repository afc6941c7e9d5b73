//! Rectangles of pixels on an overlay, and the pieces of pictures under them.

use vstd::prelude::*;
use crate::color::{Color, ColorImage};
#[allow(unused_imports)]
use crate::color::clear;
use crate::mask::{add_capped, mul_capped};
#[allow(unused_imports)]
use crate::mask::capped;
use crate::raster::{Grid, Raster};
#[allow(unused_imports)]
use crate::raster::{grid_of, lemma_grid_of, lemma_offset, lemma_position};
use crate::tiles::TILE_SIDE;
#[allow(unused_imports)]
use crate::tiles::tile_count;

verus! {

/// A rectangle of overlay pixels: its corner and its size.
#[derive(Clone, Copy, Debug, PartialEq, Eq, Structural)]
pub struct OverlayRectPx {
    pub x: usize,
    pub y: usize,
    pub w: usize,
    pub h: usize,
}

impl OverlayRectPx {
    /// The pixel lies in the rectangle.
    pub open spec fn holds(self, px: int, py: int) -> bool {
        self.x <= px < self.x + self.w && self.y <= py < self.y + self.h
    }

    /// The column and the row past the rectangle are machine numbers.
    pub open spec fn bounded(self) -> bool {
        self.x + self.w <= usize::MAX && self.y + self.h <= usize::MAX
    }
}

pub open spec fn least(a: int, b: int) -> int {
    if a < b {
        a
    } else {
        b
    }
}

pub open spec fn greatest(a: int, b: int) -> int {
    if a < b {
        b
    } else {
        a
    }
}

/// A difference that stops at zero.
pub open spec fn floored(v: int) -> int {
    if v < 0 {
        0
    } else {
        v
    }
}

fn min_of(a: usize, b: usize) -> (r: usize)
    ensures
        r == least(a as int, b as int),
{
    if a < b {
        a
    } else {
        b
    }
}

fn max_of(a: usize, b: usize) -> (r: usize)
    ensures
        r == greatest(a as int, b as int),
{
    if a < b {
        b
    } else {
        a
    }
}

/// `v` brought into the range from `0` to `max`.
pub open spec fn limited(v: int, max: int) -> int {
    if v < 0 {
        0
    } else if v > max {
        max
    } else {
        v
    }
}

/// The least multiple of `m` that is not less than `n`.
pub open spec fn rounded_up(n: int, m: int) -> int {
    ((n + m - 1) / m) * m
}

pub open spec fn distance(a: int, b: int) -> int {
    if a < b {
        b - a
    } else {
        a - b
    }
}

/// `start` moved by `by` towards `end`.
pub open spec fn towards(start: int, end: int, by: int) -> int {
    if end < start {
        start - by
    } else {
        start + by
    }
}

/// The end of a selection whose length is a multiple of `m`: rounded up, kept in the picture, and
/// never on the start unless the picture ends there.
pub open spec fn snapped_end(start: int, end: int, max: int, m: int) -> int {
    if start == end {
        limited(end, max)
    } else {
        let out = limited(towards(start, end, rounded_up(distance(start, end), m)), max);
        if out == start {
            limited(towards(start, end, 1), max)
        } else {
            out
        }
    }
}

fn limit(v: i64, max: i64) -> (r: i64)
    requires
        max >= 0,
    ensures
        r == limited(v as int, max as int),
{
    if v < 0 {
        0
    } else if v > max {
        max
    } else {
        v
    }
}

proof fn lemma_rounded_up(n: int, m: int)
    requires
        n >= 0,
        m > 0,
    ensures
        n <= rounded_up(n, m) < n + m,
        rounded_up(n, m) % m == 0,
{
    let q = (n + m - 1) / m;
    vstd::arithmetic::div_mod::lemma_fundamental_div_mod(n + m - 1, m);
    vstd::arithmetic::div_mod::lemma_mod_bound(n + m - 1, m);
    assert(q * m == m * q) by (nonlinear_arith);
    vstd::arithmetic::div_mod::lemma_mod_multiples_basic(q, m);
}

/// The end of a selection can be moved to a multiple of `m` without leaving the numbers of pixels.
pub open spec fn snap_fits(start: int, end: int, m: int) -> bool {
    let up = rounded_up(distance(start, end), m);
    &&& i32::MIN <= end - start <= i32::MAX
    &&& up <= i32::MAX
    &&& i32::MIN <= towards(start, end, up) <= i32::MAX
}

/// Moves the end of a selection so that its length becomes a multiple of `multiple`.
pub fn snap_selection_end(start: i32, end: i32, max: i32, multiple: usize) -> (out: i32)
    requires
        multiple > 0,
        max >= 0,
        snap_fits(start as int, end as int, multiple as int),
    ensures
        out == snapped_end(start as int, end as int, max as int, multiple as int),
        0 <= out <= max,
{
    if start == end {
        return limit(end as i64, max as i64) as i32;
    }
    let d: i64 = if end > start { end as i64 - start as i64 } else { start as i64 - end as i64 };
    let m: u64 = multiple as u64;
    proof {
        lemma_rounded_up(d as int, m as int);
    }
    let over: u64 = d as u64 % m;
    proof {
        let n = d as int;
        let mm = m as int;
        let q = n / mm;
        vstd::arithmetic::div_mod::lemma_fundamental_div_mod(n, mm);
        assert(mm * q == q * mm) by (nonlinear_arith);
        if over == 0 {
            vstd::arithmetic::div_mod::lemma_fundamental_div_mod_converse(n + mm - 1, mm, q, mm - 1);
            assert(rounded_up(n, mm) == n);
        } else {
            assert((q + 1) * mm == q * mm + mm) by (nonlinear_arith);
            vstd::arithmetic::div_mod::lemma_fundamental_div_mod_converse(
                n + mm - 1,
                mm,
                q + 1,
                over - 1,
            );
            assert(rounded_up(n, mm) == n + (m - over));
        }
    }
    let up: i64 = if over == 0 { d } else { (d as u64 + (m - over)) as i64 };
    let raw: i64 = if end > start { start as i64 + up } else { start as i64 - up };
    let out: i64 = limit(raw, max as i64);
    if out == start as i64 {
        let one: i64 = if end > start { start as i64 + 1 } else { start as i64 - 1 };
        limit(one, max as i64) as i32
    } else {
        out as i32
    }
}

/// A snapped selection that stays inside the picture has a length that is a multiple of `m`, and
/// it is never shorter than what was drawn.
pub proof fn snapping_gives_multiples(start: int, end: int, max: int, m: int)
    requires
        m > 0,
        0 <= start <= max,
        0 <= end <= max,
        0 < snapped_end(start, end, max, m) < max,
    ensures
        distance(start, snapped_end(start, end, max, m)) % m == 0,
        distance(start, snapped_end(start, end, max, m)) >= distance(start, end),
{
    let d = distance(start, end);
    lemma_rounded_up(d, m);
    if d == 0 {
        vstd::arithmetic::div_mod::lemma_small_mod(0nat, m as nat);
    } else {
        let up = rounded_up(d, m);
        assert(up >= 1);
    }
}

/// The rectangle grown by `margin` and kept on an overlay of the given size.
pub open spec fn expanded(rect: OverlayRectPx, w: int, h: int, margin: int) -> OverlayRectPx {
    if w == 0 || h == 0 {
        rect
    } else {
        let x0 = floored(rect.x - margin);
        let y0 = floored(rect.y - margin);
        let x1 = least(capped(capped(rect.x + rect.w) + margin), w);
        let y1 = least(capped(capped(rect.y + rect.h) + margin), h);
        OverlayRectPx {
            x: x0 as usize,
            y: y0 as usize,
            w: greatest(floored(x1 - x0), 1) as usize,
            h: greatest(floored(y1 - y0), 1) as usize,
        }
    }
}

pub fn expand_overlay_rect(rect: OverlayRectPx, w: usize, h: usize, margin: usize) -> (r:
    OverlayRectPx)
    ensures
        r == expanded(rect, w as int, h as int, margin as int),
{
    if w == 0 || h == 0 {
        return rect;
    }
    let x0: usize = rect.x.saturating_sub(margin);
    let y0: usize = rect.y.saturating_sub(margin);
    let x1: usize = min_of(rect.x.saturating_add(rect.w).saturating_add(margin), w);
    let y1: usize = min_of(rect.y.saturating_add(rect.h).saturating_add(margin), h);
    OverlayRectPx {
        x: x0,
        y: y0,
        w: max_of(x1.saturating_sub(x0), 1),
        h: max_of(y1.saturating_sub(y0), 1),
    }
}

/// Growing a rectangle that lies on the overlay keeps all its pixels and adds none off the
/// overlay.
pub proof fn expanding_covers_and_stays_on_the_overlay(
    rect: OverlayRectPx,
    w: usize,
    h: usize,
    margin: usize,
    px: int,
    py: int,
)
    requires
        rect.w > 0,
        rect.h > 0,
        rect.x + rect.w <= w,
        rect.y + rect.h <= h,
    ensures
        rect.holds(px, py) ==> expanded(rect, w as int, h as int, margin as int).holds(px, py),
        expanded(rect, w as int, h as int, margin as int).holds(px, py) ==> 0 <= px < w && 0 <= py
            < h,
{
}

/// The last column or row of an extent; zero for none at zero.
pub open spec fn last_of(start: int, len: int) -> int {
    floored(capped(start + len) - 1)
}

/// The common part of a rectangle and the columns `left` to `right` and rows `top` to `bottom`,
/// all included.
pub open spec fn common_part(
    clip: OverlayRectPx,
    left: int,
    top: int,
    right: int,
    bottom: int,
) -> Option<OverlayRectPx> {
    let x0 = greatest(left, clip.x as int);
    let y0 = greatest(top, clip.y as int);
    let x1 = least(right, last_of(clip.x as int, clip.w as int));
    let y1 = least(bottom, last_of(clip.y as int, clip.h as int));
    if x1 < x0 || y1 < y0 {
        None
    } else {
        Some(
            OverlayRectPx {
                x: x0 as usize,
                y: y0 as usize,
                w: (x1 - x0 + 1) as usize,
                h: (y1 - y0 + 1) as usize,
            },
        )
    }
}

pub fn intersect_overlay_bounds(
    clip: OverlayRectPx,
    left: i32,
    top: i32,
    right: i32,
    bottom: i32,
) -> (r: Option<OverlayRectPx>)
    requires
        clip.x + clip.w <= i32::MAX,
        clip.y + clip.h <= i32::MAX,
    ensures
        r == common_part(clip, left as int, top as int, right as int, bottom as int),
{
    let clip_left: i32 = clip.x as i32;
    let clip_top: i32 = clip.y as i32;
    let clip_right: i32 = clip.x.saturating_add(clip.w).saturating_sub(1) as i32;
    let clip_bottom: i32 = clip.y.saturating_add(clip.h).saturating_sub(1) as i32;
    let x0: i32 = if left > clip_left { left } else { clip_left };
    let y0: i32 = if top > clip_top { top } else { clip_top };
    let x1: i32 = if right < clip_right { right } else { clip_right };
    let y1: i32 = if bottom < clip_bottom { bottom } else { clip_bottom };
    if x1 < x0 || y1 < y0 {
        return None;
    }
    Some(
        OverlayRectPx {
            x: x0 as usize,
            y: y0 as usize,
            w: (x1 - x0 + 1) as usize,
            h: (y1 - y0 + 1) as usize,
        },
    )
}

/// The common part holds exactly the pixels that both hold.
pub proof fn common_part_is_the_intersection(
    clip: OverlayRectPx,
    left: int,
    top: int,
    right: int,
    bottom: int,
    px: int,
    py: int,
)
    requires
        clip.w > 0,
        clip.h > 0,
        clip.bounded(),
    ensures
        (clip.holds(px, py) && left <= px <= right && top <= py <= bottom) <==> (common_part(
            clip,
            left,
            top,
            right,
            bottom,
        ) is Some && (common_part(clip, left, top, right, bottom)->0).holds(px, py)),
{
}

/// The pixels that a brush of the given radius can reach between two points, on the overlay.
pub open spec fn segment_dirty(
    x0: int,
    y0: int,
    x1: int,
    y1: int,
    radius: int,
    clip: OverlayRectPx,
) -> Option<OverlayRectPx> {
    let min_x = floored(least(x0, x1) - radius);
    let min_y = floored(least(y0, y1) - radius);
    let max_x = least(
        capped(greatest(x0, x1) + radius),
        last_of(clip.x as int, clip.w as int),
    );
    let max_y = least(
        capped(greatest(y0, y1) + radius),
        last_of(clip.y as int, clip.h as int),
    );
    if max_x < min_x || max_y < min_y {
        None
    } else {
        common_part(clip, min_x, min_y, max_x, max_y)
    }
}

pub fn segment_dirty_overlay_rect(
    x0: usize,
    y0: usize,
    x1: usize,
    y1: usize,
    radius: usize,
    clip: OverlayRectPx,
) -> (r: Option<OverlayRectPx>)
    requires
        clip.x + clip.w <= i32::MAX,
        clip.y + clip.h <= i32::MAX,
    ensures
        r == segment_dirty(x0 as int, y0 as int, x1 as int, y1 as int, radius as int, clip),
{
    let min_x: usize = min_of(x0, x1).saturating_sub(radius);
    let min_y: usize = min_of(y0, y1).saturating_sub(radius);
    let max_x: usize = min_of(
        max_of(x0, x1).saturating_add(radius),
        clip.x.saturating_add(clip.w).saturating_sub(1),
    );
    let max_y: usize = min_of(
        max_of(y0, y1).saturating_add(radius),
        clip.y.saturating_add(clip.h).saturating_sub(1),
    );
    if max_x < min_x || max_y < min_y {
        return None;
    }
    intersect_overlay_bounds(clip, min_x as i32, min_y as i32, max_x as i32, max_y as i32)
}

/// The dirty rectangle of a segment lies in the clip and holds every clip pixel within the radius
/// of either end.
pub proof fn dirty_rect_covers_the_brush(
    x0: usize,
    y0: usize,
    x1: usize,
    y1: usize,
    radius: usize,
    clip: OverlayRectPx,
    px: int,
    py: int,
)
    requires
        clip.w > 0,
        clip.h > 0,
        clip.x + clip.w <= i32::MAX,
        clip.y + clip.h <= i32::MAX,
    ensures
        ({
            let d = segment_dirty(x0 as int, y0 as int, x1 as int, y1 as int, radius as int, clip);
            &&& d is Some && (d->0).holds(px, py) ==> clip.holds(px, py)
            &&& clip.holds(px, py) && ((distance(px, x0 as int) <= radius && distance(py, y0 as int)
                <= radius) || (distance(px, x1 as int) <= radius && distance(py, y1 as int)
                <= radius)) ==> d is Some && (d->0).holds(px, py)
        }),
{
}

/// The least rectangle around two rectangles.
pub open spec fn united(a: OverlayRectPx, b: OverlayRectPx) -> OverlayRectPx {
    let x0 = least(a.x as int, b.x as int);
    let y0 = least(a.y as int, b.y as int);
    let x1 = greatest(capped(a.x + a.w), capped(b.x + b.w));
    let y1 = greatest(capped(a.y + a.h), capped(b.y + b.h));
    OverlayRectPx {
        x: x0 as usize,
        y: y0 as usize,
        w: floored(x1 - x0) as usize,
        h: floored(y1 - y0) as usize,
    }
}

pub fn union_overlay_rect(a: OverlayRectPx, b: OverlayRectPx) -> (r: OverlayRectPx)
    ensures
        r == united(a, b),
{
    let x0: usize = min_of(a.x, b.x);
    let y0: usize = min_of(a.y, b.y);
    let x1: usize = max_of(a.x.saturating_add(a.w), b.x.saturating_add(b.w));
    let y1: usize = max_of(a.y.saturating_add(a.h), b.y.saturating_add(b.h));
    OverlayRectPx { x: x0, y: y0, w: x1.saturating_sub(x0), h: y1.saturating_sub(y0) }
}

/// The union holds the pixels of both rectangles; the order does not matter, and a rectangle
/// united with itself stays as it is.
pub proof fn union_covers_both(a: OverlayRectPx, b: OverlayRectPx, px: int, py: int)
    requires
        a.bounded(),
        b.bounded(),
    ensures
        a.holds(px, py) || b.holds(px, py) ==> united(a, b).holds(px, py),
        united(a, b) == united(b, a),
        united(a, a) == a,
{
}

/// No smaller rectangle holds both rectangles.
pub proof fn union_is_the_least(a: OverlayRectPx, b: OverlayRectPx, c: OverlayRectPx, px: int, py: int)
    requires
        a.bounded(),
        b.bounded(),
        c.bounded(),
        c.x <= a.x && a.x + a.w <= c.x + c.w && c.y <= a.y && a.y + a.h <= c.y + c.h,
        c.x <= b.x && b.x + b.w <= c.x + c.w && c.y <= b.y && b.y + b.h <= c.y + c.h,
        united(a, b).holds(px, py),
    ensures
        c.holds(px, py),
{
}

/// A rectangle in the coordinates of another one that starts before it, cut to that one.
pub open spec fn local_rect(source: OverlayRectPx, desired: OverlayRectPx) -> Option<OverlayRectPx> {
    if desired.x < source.x || desired.y < source.y {
        None
    } else {
        let x = desired.x - source.x;
        let y = desired.y - source.y;
        Some(
            OverlayRectPx {
                x: x as usize,
                y: y as usize,
                w: least(desired.w as int, floored(source.w - x)) as usize,
                h: least(desired.h as int, floored(source.h - y)) as usize,
            },
        )
    }
}

pub fn overlay_rect_to_local_rect(
    source_overlay_rect: OverlayRectPx,
    desired_overlay_rect: OverlayRectPx,
) -> (r: Option<OverlayRectPx>)
    ensures
        r == local_rect(source_overlay_rect, desired_overlay_rect),
{
    if desired_overlay_rect.x < source_overlay_rect.x || desired_overlay_rect.y
        < source_overlay_rect.y {
        return None;
    }
    let x: usize = desired_overlay_rect.x - source_overlay_rect.x;
    let y: usize = desired_overlay_rect.y - source_overlay_rect.y;
    Some(
        OverlayRectPx {
            x,
            y,
            w: min_of(desired_overlay_rect.w, source_overlay_rect.w.saturating_sub(x)),
            h: min_of(desired_overlay_rect.h, source_overlay_rect.h.saturating_sub(y)),
        },
    )
}

/// A local rectangle holds exactly the common pixels of the two rectangles, moved to the corner
/// of the first.
pub proof fn local_rect_is_the_moved_intersection(
    source: OverlayRectPx,
    desired: OverlayRectPx,
    px: int,
    py: int,
)
    requires
        desired.x >= source.x,
        desired.y >= source.y,
    ensures
        (source.holds(px, py) && desired.holds(px, py)) <==> (local_rect(source, desired)->0).holds(
            px - source.x,
            py - source.y,
        ),
{
}

/// A piece of a picture; clear where the rectangle leaves the picture.
pub open spec fn chunk_of(image: Grid<Color>, rect: OverlayRectPx) -> Grid<Color> {
    grid_of(
        rect.w as int,
        rect.h as int,
        |x: int, y: int|
            if image.inside(rect.x + x, rect.y + y) {
                image.at(rect.x + x, rect.y + y)
            } else {
                clear()
            },
    )
}

pub fn extract_overlay_chunk(image: &ColorImage, rect: OverlayRectPx) -> (out: ColorImage)
    requires
        image.wf(),
        rect.w * rect.h <= usize::MAX,
    ensures
        out.wf(),
        out@ == chunk_of(image@, rect),
{
    let n: usize = rect.w * rect.h;
    let mut px: Vec<Color> = Vec::new();
    let mut i: usize = 0;
    let ghost target = chunk_of(image@, rect);
    while i < n
        invariant
            i <= n,
            n == rect.w * rect.h,
            image.wf(),
            target == chunk_of(image@, rect),
            px@.len() == i,
            forall|k: int| 0 <= k < i ==> #[trigger] px@[k] == target.px[k],
        decreases n - i,
    {
        proof {
            lemma_position(rect.w as int, rect.h as int, i as int);
        }
        let x: usize = i % rect.w;
        let y: usize = i / rect.w;
        if rect.x < image.w && x < image.w - rect.x && rect.y < image.h && y < image.h - rect.y {
            px.push(image.get(rect.x + x, rect.y + y));
        } else {
            px.push(Color::transparent());
        }
        i += 1;
    }
    let out = Raster { w: rect.w, h: rect.h, px };
    assert(out@ =~= target);
    out
}

/// The pixel stored at an offset; clear past the end.
pub open spec fn stored(image: Grid<Color>, i: int) -> Color {
    if 0 <= i < image.px.len() {
        image.px[i]
    } else {
        clear()
    }
}

/// The picture of a tile whose corner lies at `(ox, oy)`.
pub open spec fn tile_image(source: Grid<Color>, ox: int, oy: int, w: int, h: int) -> Grid<Color> {
    grid_of(
        w,
        h,
        |x: int, y: int|
            stored(source, capped(capped(capped(oy + y) * source.w) + capped(ox + x))),
    )
}

pub fn build_local_tile_image(
    source: &ColorImage,
    origin_x: usize,
    origin_y: usize,
    width: usize,
    height: usize,
) -> (out: ColorImage)
    requires
        width * height <= usize::MAX,
    ensures
        out.wf(),
        out@ == tile_image(
            source@,
            origin_x as int,
            origin_y as int,
            width as int,
            height as int,
        ),
{
    let n: usize = width * height;
    let mut px: Vec<Color> = Vec::new();
    let mut i: usize = 0;
    let ghost target = tile_image(
        source@,
        origin_x as int,
        origin_y as int,
        width as int,
        height as int,
    );
    while i < n
        invariant
            i <= n,
            n == width * height,
            target == tile_image(
                source@,
                origin_x as int,
                origin_y as int,
                width as int,
                height as int,
            ),
            px@.len() == i,
            forall|k: int| 0 <= k < i ==> #[trigger] px@[k] == target.px[k],
        decreases n - i,
    {
        proof {
            lemma_position(width as int, height as int, i as int);
        }
        let x: usize = i % width;
        let y: usize = i / width;
        let row: usize = mul_capped(add_capped(origin_y, y), source.w);
        let j: usize = add_capped(row, add_capped(origin_x, x));
        if j < source.px.len() {
            px.push(source.px[j]);
        } else {
            px.push(Color::transparent());
        }
        i += 1;
    }
    let out = Raster { w: width, h: height, px };
    assert(out@ =~= target);
    out
}

/// The piece under `desired` of a picture that covers `source` of the overlay; clear where it
/// does not.
pub open spec fn local_chunk(
    picture: Grid<Color>,
    source: OverlayRectPx,
    desired: OverlayRectPx,
) -> Grid<Color> {
    grid_of(
        desired.w as int,
        desired.h as int,
        |x: int, y: int|
            {
                let lx = desired.x + x - source.x;
                let ly = desired.y + y - source.y;
                if 0 <= lx < source.w && 0 <= ly < source.h {
                    stored(picture, capped(capped(ly * picture.w) + lx))
                } else {
                    clear()
                }
            },
    )
}

pub fn extract_local_chunk(
    source: &ColorImage,
    source_overlay_rect: OverlayRectPx,
    desired_overlay_rect: OverlayRectPx,
) -> (out: ColorImage)
    requires
        desired_overlay_rect.w * desired_overlay_rect.h <= usize::MAX,
        desired_overlay_rect.bounded(),
    ensures
        out.wf(),
        out@ == local_chunk(source@, source_overlay_rect, desired_overlay_rect),
{
    let d = desired_overlay_rect;
    let s = source_overlay_rect;
    let n: usize = d.w * d.h;
    let mut px: Vec<Color> = Vec::new();
    let mut i: usize = 0;
    let ghost target = local_chunk(source@, s, d);
    while i < n
        invariant
            i <= n,
            n == d.w * d.h,
            d.bounded(),
            target == local_chunk(source@, s, d),
            px@.len() == i,
            forall|k: int| 0 <= k < i ==> #[trigger] px@[k] == target.px[k],
        decreases n - i,
    {
        proof {
            lemma_position(d.w as int, d.h as int, i as int);
        }
        let ax: usize = d.x + i % d.w;
        let ay: usize = d.y + i / d.w;
        let mut c = Color::transparent();
        if ax >= s.x && ay >= s.y && ax - s.x < s.w && ay - s.y < s.h {
            let j: usize = add_capped(mul_capped(ay - s.y, source.w), ax - s.x);
            if j < source.px.len() {
                c = source.px[j];
            }
        }
        px.push(c);
        i += 1;
    }
    let out = Raster { w: d.w, h: d.h, px };
    assert(out@ =~= target);
    out
}

/// What was cut out of an overlay and put into a scratch picture is what a cut-out of the scratch
/// picture gives back.
pub proof fn local_chunks_give_back_the_overlay(
    image: Grid<Color>,
    source: OverlayRectPx,
    desired: OverlayRectPx,
)
    requires
        image.valid(),
        source.w * source.h <= usize::MAX,
        desired.x >= source.x,
        desired.y >= source.y,
        desired.x + desired.w <= source.x + source.w,
        desired.y + desired.h <= source.y + source.h,
    ensures
        local_chunk(chunk_of(image, source), source, desired) == chunk_of(image, desired),
{
    let piece = chunk_of(image, source);
    let f = |x: int, y: int|
        if image.inside(source.x + x, source.y + y) {
            image.at(source.x + x, source.y + y)
        } else {
            clear()
        };
    lemma_grid_of(source.w as int, source.h as int, f);
    let a = local_chunk(piece, source, desired);
    let b = chunk_of(image, desired);
    assert forall|i: int| 0 <= i < a.px.len() implies a.px[i] == b.px[i] by {
        lemma_position(desired.w as int, desired.h as int, i);
        let x = i % (desired.w as int);
        let y = i / (desired.w as int);
        let lx = desired.x + x - source.x;
        let ly = desired.y + y - source.y;
        lemma_offset(source.w as int, source.h as int, lx, ly);
        assert(piece.at(lx, ly) == f(lx, ly));
    }
    assert(a =~= b);
}

/// The tiles, by number, that a rectangle of the overlay touches in a scratch picture covering
/// `stroke` and `tiles_x` tiles wide.
pub open spec fn touched_tiles(stroke: OverlayRectPx, image_w: int, dirty: OverlayRectPx) -> Seq<usize> {
    if dirty.x < stroke.x || dirty.y < stroke.y {
        Seq::empty()
    } else {
        let x0 = dirty.x - stroke.x;
        let y0 = dirty.y - stroke.y;
        let x1 = floored(least(capped(x0 + dirty.w), stroke.w as int) - 1);
        let y1 = floored(least(capped(y0 + dirty.h), stroke.h as int) - 1);
        if x0 > x1 || y0 > y1 {
            Seq::empty()
        } else {
            let side = TILE_SIDE as int;
            let cols = x1 / side - x0 / side + 1;
            let rows = y1 / side - y0 / side + 1;
            Seq::new(
                (cols * rows) as nat,
                |k: int|
                    ((y0 / side + k / cols) * tile_count(image_w) + x0 / side + k % cols) as usize,
            )
        }
    }
}

pub fn scratch_tile_indices_for_overlay_rect(
    stroke: OverlayRectPx,
    image_w: usize,
    dirty_overlay: OverlayRectPx,
) -> (out: Vec<usize>)
    requires
        image_w >= stroke.w,
        image_w * stroke.h <= usize::MAX,
    ensures
        out@ == touched_tiles(stroke, image_w as int, dirty_overlay),
{
    let mut out: Vec<usize> = Vec::new();
    let ghost target = touched_tiles(stroke, image_w as int, dirty_overlay);
    if dirty_overlay.x < stroke.x || dirty_overlay.y < stroke.y {
        return out;
    }
    let x0: usize = dirty_overlay.x - stroke.x;
    let y0: usize = dirty_overlay.y - stroke.y;
    let x1: usize = min_of(x0.saturating_add(dirty_overlay.w), stroke.w).saturating_sub(1);
    let y1: usize = min_of(y0.saturating_add(dirty_overlay.h), stroke.h).saturating_sub(1);
    if x0 > x1 || y0 > y1 {
        return out;
    }
    let tiles_x: usize = if image_w % TILE_SIDE == 0 {
        image_w / TILE_SIDE
    } else {
        image_w / TILE_SIDE + 1
    };
    let tx0: usize = x0 / TILE_SIDE;
    let ty0: usize = y0 / TILE_SIDE;
    let tx1: usize = x1 / TILE_SIDE;
    let ty1: usize = y1 / TILE_SIDE;
    let cols: usize = tx1 - tx0 + 1;
    let rows: usize = ty1 - ty0 + 1;
    proof {
        assert(0 * cols == 0 && 0 <= cols * rows) by (nonlinear_arith)
            requires
                0 <= cols,
                0 <= rows,
        ;
    }
    let mut ty: usize = ty0;
    while ty <= ty1
        invariant
            ty0 <= ty <= ty1 + 1,
            x0 <= x1,
            y0 <= y1,
            tx0 == x0 as int / TILE_SIDE as int,
            ty0 == y0 as int / TILE_SIDE as int,
            tx1 == x1 as int / TILE_SIDE as int,
            ty1 == y1 as int / TILE_SIDE as int,
            tx0 <= tx1,
            ty0 <= ty1,
            ty1 < stroke.h || ty1 == 0,
            tx1 < tiles_x || tx1 == 0,
            tiles_x <= image_w,
            tiles_x == tile_count(image_w as int),
            image_w * stroke.h <= usize::MAX,
            cols == tx1 - tx0 + 1,
            rows == ty1 - ty0 + 1,
            target == Seq::new(
                (cols * rows) as nat,
                |k: int| ((ty0 + k / (cols as int)) * tiles_x + tx0 + k % (cols as int)) as usize,
            ),
            out@.len() == (ty - ty0) * cols,
            forall|k: int| 0 <= k < out@.len() ==> #[trigger] out@[k] == target[k],
            (ty - ty0) * cols <= cols * rows,
        decreases ty1 + 1 - ty,
    {
        let mut tx: usize = tx0;
        proof {
            assert((ty + 1 - ty0) * cols == (ty - ty0) * cols + cols) by (nonlinear_arith);
            assert((ty + 1 - ty0) * cols <= cols * rows) by (nonlinear_arith)
                requires
                    ty + 1 - ty0 <= rows,
                    cols >= 1,
            ;
        }
        while tx <= tx1
            invariant
                ty0 <= ty <= ty1,
                tx0 <= tx <= tx1 + 1,
                ty1 < stroke.h || ty1 == 0,
                tx1 < tiles_x || tx1 == 0,
                tiles_x <= image_w,
                tiles_x == tile_count(image_w as int),
                image_w * stroke.h <= usize::MAX,
                cols == tx1 - tx0 + 1,
                rows == ty1 - ty0 + 1,
                target == Seq::new(
                    (cols * rows) as nat,
                    |k: int| ((ty0 + k / (cols as int)) * tiles_x + tx0 + k % (cols as int)) as usize,
                ),
                out@.len() == (ty - ty0) * cols + (tx - tx0),
                forall|k: int| 0 <= k < out@.len() ==> #[trigger] out@[k] == target[k],
                (ty - ty0) * cols + cols <= cols * rows,
            decreases tx1 + 1 - tx,
        {
            proof {
                if ty1 == 0 {
                    assert(ty * tiles_x == 0) by (nonlinear_arith)
                        requires
                            ty == 0,
                    ;
                } else {
                    assert(ty * tiles_x + tiles_x <= image_w * stroke.h) by (nonlinear_arith)
                        requires
                            ty + 1 <= stroke.h,
                            tiles_x <= image_w,
                            0 <= ty,
                            0 <= tiles_x,
                    ;
                }
                lemma_offset(cols as int, rows as int, tx - tx0, ty - ty0);
            }
            let ghost k = out@.len() as int;
            out.push(ty * tiles_x + tx);
            assert(target[k] == out@[k]);
            tx += 1;
        }
        ty += 1;
    }
    assert((ty1 + 1 - ty0) * cols == cols * rows) by (nonlinear_arith)
        requires
            rows == ty1 - ty0 + 1,
    ;
    assert(out@ =~= target);
    out
}

/// Every pixel that the dirty rectangle and the stroke share lies in a touched tile.
pub proof fn touched_tiles_cover_the_dirty_pixels(
    stroke: OverlayRectPx,
    image_w: usize,
    dirty: OverlayRectPx,
    px: int,
    py: int,
)
    requires
        image_w >= stroke.w,
        image_w * stroke.h <= usize::MAX,
        dirty.x >= stroke.x,
        dirty.y >= stroke.y,
        dirty.bounded(),
        stroke.holds(px, py),
        dirty.holds(px, py),
    ensures
        touched_tiles(stroke, image_w as int, dirty).contains(
            (((py - stroke.y) / TILE_SIDE as int) * tile_count(image_w as int) + (px - stroke.x)
                / TILE_SIDE as int) as usize,
        ),
{
    let side = TILE_SIDE as int;
    let x0 = dirty.x - stroke.x;
    let y0 = dirty.y - stroke.y;
    let x1 = floored(least(capped(x0 + dirty.w), stroke.w as int) - 1);
    let y1 = floored(least(capped(y0 + dirty.h), stroke.h as int) - 1);
    let cols = x1 / side - x0 / side + 1;
    let rows = y1 / side - y0 / side + 1;
    let c = (px - stroke.x) / side - x0 / side;
    let r = (py - stroke.y) / side - y0 / side;
    assert(x0 <= px - stroke.x <= x1);
    assert(y0 <= py - stroke.y <= y1);
    lemma_offset(cols, rows, c, r);
    let s = touched_tiles(stroke, image_w as int, dirty);
    assert(s[r * cols + c] == (((py - stroke.y) / side) * tile_count(image_w as int) + (px - stroke.x)
        / side) as usize);
}

} // verus!
