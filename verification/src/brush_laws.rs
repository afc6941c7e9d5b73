//! What brush strokes and the rectangles round them are for, pixel by pixel.

use vstd::prelude::*;
#[allow(unused_imports)]
use crate::brush_base::{
    brushed, radius_in_bounds, segment_painted, shrunk_radius, tile_picture, uploads_of,
    widened_radius, ScratchStroke, WHEEL_STEP_PX,
};
#[allow(unused_imports)]
use crate::color::Color;
#[allow(unused_imports)]
use crate::overlay_rect::{
    chunk_of, common_part, expanded, local_chunk, local_rect, segment_dirty, snapped_end,
    touched_tiles, united, OverlayRectPx,
};
#[allow(unused_imports)]
use crate::raster::{grid_of, lemma_grid_of, lemma_offset, Grid};
#[allow(unused_imports)]
use crate::tiles::{tile_count, tiles_of, TileRect};
#[allow(unused_imports)]
use crate::strokes::StrokePoint;
#[allow(unused_imports)]
use crate::zamazka::{
    colour_at, replaces_base, with_number, without_number, BaseImage, ZamazkaMode, ZamazkaTool,
};

verus! {

/// A radius is kept from 1 to 200: one in that range stays, a smaller or a larger one is moved to
/// its end.
pub proof fn radii_are_from_one_to_two_hundred(r: int)
    ensures
        1 <= radius_in_bounds(r) <= 200,
        1 <= r <= 200 ==> radius_in_bounds(r) == r,
        r < 1 ==> radius_in_bounds(r) == 1,
        r > 200 ==> radius_in_bounds(r) == 200,
{
}

/// The keys change the radius by a tenth of it, rounded so that it always moves, and never leave
/// the range from 1 to 200.
pub proof fn size_keys_move_by_a_tenth(r: int)
    requires
        1 <= r <= 200,
    ensures
        ({
            let less = shrunk_radius(r);
            let more = widened_radius(r);
            &&& 1 <= less <= 200
            &&& 1 <= more <= 200
            &&& less == 1 || 10 * less <= 9 * r < 10 * less + 10
            &&& more == 200 || 10 * more - 10 < 11 * r <= 10 * more
            &&& r == 1 ==> less == 1
            &&& r == 200 ==> more == 200
            &&& r > 1 ==> less < r
            &&& r < 200 ==> more > r
        }),
{
}

/// A stroke gives each pixel of its rectangle the painted colour where it is strong enough to be
/// seen, and the colour it had before the stroke where it is not; the pixels outside stay.  A
/// stroke that does not fit the picture changes nothing.
pub proof fn strokes_paint_where_they_are_seen(
    dst: Grid<Color>,
    base: Grid<Color>,
    strengths: Seq<u32>,
    painted: Grid<Color>,
    local: OverlayRectPx,
    x: int,
    y: int,
)
    requires
        dst.valid(),
        0 <= x < dst.w,
        0 <= y < dst.h,
    ensures
        ({
            let i = y * dst.w + x;
            let fits = base.w == dst.w && base.h == dst.h && base.px.len() == dst.px.len()
                && strengths.len() == dst.px.len();
            let seen = 0x3400_0000 < strengths[i] < 0x8000_0000 || strengths[i] > 0xFF80_0000;
            let within = local.x <= x < local.x + local.w && local.y <= y < local.y + local.h;
            let part = brushed(dst, base, strengths, painted, Some(local));
            let whole = brushed(dst, base, strengths, painted, None);
            &&& !fits ==> part == dst && whole == dst
            &&& part.w == dst.w && part.h == dst.h && whole.w == dst.w && whole.h == dst.h
            &&& fits && !within ==> part.px[i] == dst.px[i]
            &&& fits && within && seen ==> part.px[i] == painted.px[i]
            &&& fits && within && !seen ==> part.px[i] == base.px[i]
            &&& fits && seen ==> whole.px[i] == painted.px[i]
            &&& fits && !seen ==> whole.px[i] == base.px[i]
        }),
{
    lemma_offset(dst.w, dst.h, x, y);
}

/// The rectangle that a segment dirties is the part of the clip within the margin of the segment's
/// box, on every side.
pub proof fn a_segment_dirties_its_surroundings(
    x0: usize,
    y0: usize,
    x1: usize,
    y1: usize,
    margin: usize,
    clip: OverlayRectPx,
    px: int,
    py: int,
)
    requires
        clip.w > 0,
        clip.h > 0,
        clip.x + clip.w <= i32::MAX,
        clip.y + clip.h <= i32::MAX,
    ensures
        ({
            let d = segment_dirty(x0 as int, y0 as int, x1 as int, y1 as int, margin as int, clip);
            let r = d->0;
            let hit = d is Some && r.x <= px < r.x + r.w && r.y <= py < r.y + r.h;
            hit <==> {
                &&& clip.x <= px < clip.x + clip.w
                &&& clip.y <= py < clip.y + clip.h
                &&& x0 - margin <= px || x1 - margin <= px
                &&& px <= x0 + margin || px <= x1 + margin
                &&& y0 - margin <= py || y1 - margin <= py
                &&& py <= y0 + margin || py <= y1 + margin
            }
        }),
{
}

/// Painting a segment changes the pixels round it, each to the painted colour where the stroke can
/// be seen there and to what it was before the stroke where it cannot, and no others.  What was
/// dirty stays so.
pub proof fn a_segment_paints_its_surroundings(
    s: ScratchStroke,
    x0: usize,
    y0: usize,
    x1: usize,
    y1: usize,
    margin: usize,
    strengths: Seq<u32>,
    painted: Grid<Color>,
    out: ScratchStroke,
    x: int,
    y: int,
)
    requires
        s.wf(),
        strengths.len() == s.image@.px.len(),
        segment_painted(
            s,
            x0 as int,
            y0 as int,
            x1 as int,
            y1 as int,
            margin as int,
            strengths,
            painted,
            out,
        ),
        0 <= x < s.image@.w,
        0 <= y < s.image@.h,
    ensures
        ({
            let i = y * s.image@.w + x;
            let px = s.overlay_rect.x + x;
            let py = s.overlay_rect.y + y;
            let near = (x0 - margin <= px || x1 - margin <= px) && (px <= x0 + margin || px <= x1
                + margin) && (y0 - margin <= py || y1 - margin <= py) && (py <= y0 + margin || py
                <= y1 + margin);
            let seen = 0x3400_0000 < strengths[i] < 0x8000_0000 || strengths[i] > 0xFF80_0000;
            &&& out.image@.px[i] == if !near {
                s.image@.px[i]
            } else if seen {
                painted.px[i]
            } else {
                s.base_image@.px[i]
            }
            &&& out.strengths@ == strengths
            &&& out.base_image == s.base_image
            &&& out.page_idx == s.page_idx
            &&& out.overlay_rect == s.overlay_rect
            &&& near ==> out.dirty_rect is Some && {
                let d = out.dirty_rect->0;
                d.x <= px < d.x + d.w && d.y <= py < d.y + d.h
            }
            &&& s.dirty_rect is Some ==> out.dirty_rect is Some && {
                let was = s.dirty_rect->0;
                let d = out.dirty_rect->0;
                was.x <= px < was.x + was.w && was.y <= py < was.y + was.h ==> d.x <= px < d.x + d.w
                    && d.y <= py < d.y + d.h
            }
        }),
{
    let clip = s.overlay_rect;
    let px = s.overlay_rect.x + x;
    let py = s.overlay_rect.y + y;
    a_segment_dirties_its_surroundings(x0, y0, x1, y1, margin, clip, px, py);
    let dirty = segment_dirty(x0 as int, y0 as int, x1 as int, y1 as int, margin as int, clip);
    if dirty is Some {
        let d = dirty->0;
        a_segment_dirties_its_surroundings(
            x0,
            y0,
            x1,
            y1,
            margin,
            clip,
            d.x as int,
            d.y as int,
        );
        assert(d.w > 0 && d.h > 0);
        let l = local_rect(clip, d)->0;
        strokes_paint_where_they_are_seen(
            s.image@,
            s.base_image@,
            strengths,
            painted,
            l,
            x,
            y,
        );
        crate::overlay_rect::local_rect_is_the_moved_intersection(clip, d, px, py);
        assert(clip.holds(px, py));
        match s.dirty_rect {
            Some(e) => {
                assert(e.bounded());
                assert(d.bounded());
                crate::overlay_rect::union_covers_both(e, d, px, py);
            },
            None => {},
        }
    }
}

/// The tiles that are uploaded are the dirty ones that there are, in their order.
pub proof fn dirty_tiles_are_uploaded(dirty: Seq<usize>, tiles: int)
    ensures
        uploads_of(dirty, tiles) == dirty.filter(|t: usize| t < tiles),
    decreases dirty.len(),
{
    reveal(Seq::filter);
    if dirty.len() > 0 {
        dirty_tiles_are_uploaded(dirty.drop_last(), tiles);
    }
}

/// A picture is cut into tiles of 1024 by 1024 pixels, row by row; those at the right and at the
/// bottom may be smaller.
pub proof fn tiles_are_a_thousand_and_twenty_four_wide(w: int, h: int, c: int, r: int)
    requires
        0 <= c,
        0 <= r,
        0 <= w <= usize::MAX,
        0 <= h <= usize::MAX,
        c * 1024 < w,
        r * 1024 < h,
    ensures
        ({
            let cols = (w + 1023) / 1024;
            let t = tiles_of(w, h)[r * cols + c];
            &&& tile_count(w) == cols
            &&& 0 <= r * cols + c < tiles_of(w, h).len()
            &&& t.x == c * 1024
            &&& t.y == r * 1024
            &&& t.w == if w - c * 1024 < 1024 {
                w - c * 1024
            } else {
                1024
            }
            &&& t.h == if h - r * 1024 < 1024 {
                h - r * 1024
            } else {
                1024
            }
        }),
{
    let cols = (w + 1023) / 1024;
    let rows = (h + 1023) / 1024;
    assert(c < cols && r < rows);
    lemma_offset(cols, rows, c, r);
}

/// The picture of a tile shows the pixels of the picture that lie in it.
pub proof fn tiles_show_their_pixels(image: Grid<Color>, t: TileRect, x: int, y: int)
    requires
        image.valid(),
        image.px.len() <= usize::MAX,
        t.x + t.w <= image.w,
        t.y + t.h <= image.h,
        image.w <= usize::MAX,
        image.h <= usize::MAX,
        0 <= x < t.w,
        0 <= y < t.h,
    ensures
        tile_picture(image, t).w == t.w,
        tile_picture(image, t).h == t.h,
        tile_picture(image, t).px[y * t.w + x] == image.px[(t.y + y) * image.w + (t.x + x)],
{
    lemma_offset(image.w, image.h, t.x + x, t.y + y);
    let f = |a: int, b: int|
        crate::overlay_rect::stored(
            image,
            crate::mask::capped(
                crate::mask::capped(crate::mask::capped(t.y + b) * image.w) + crate::mask::capped(
                    t.x + a,
                ),
            ),
        );
    lemma_grid_of(t.w as int, t.h as int, f);
    assert(tile_picture(image, t) == grid_of(t.w as int, t.h as int, f));
    assert(tile_picture(image, t).at(x, y) == f(x, y));
    assert(t.w * y == y * t.w) by (nonlinear_arith);
}

/// A number that is noted is there once, and one that is struck out is there no more; the others
/// keep their order.
pub proof fn numbers_are_noted_once(v: Seq<usize>, x: usize)
    ensures
        with_number(v, x).contains(x),
        v.contains(x) ==> with_number(v, x) == v,
        !v.contains(x) ==> with_number(v, x) == v + seq![x],
        without_number(v, x) == v.filter(|n: usize| n != x),
    decreases v.len(),
{
    reveal(Seq::filter);
    if !v.contains(x) {
        assert(v.push(x)[v.len() as int] == x);
        assert(v.push(x) =~= v + seq![x]);
    }
    if v.len() > 0 {
        numbers_are_noted_once(v.drop_last(), x);
    }
}

/// The colour that is picked is that of the pixel; below the picture there is none.
pub proof fn picking_reads_the_pixel(image: Grid<Color>, x: int, y: int)
    requires
        image.valid(),
        image.px.len() <= usize::MAX,
        0 <= x < image.w,
        0 <= y,
    ensures
        y < image.h ==> colour_at(image, x, y) == Some(image.px[y * image.w + x]),
        y >= image.h ==> colour_at(image, x, y) is None || image.px.len() == usize::MAX,
{
    if y < image.h {
        lemma_offset(image.w, image.h, x, y);
        assert(y * image.w <= image.px.len());
    } else {
        assert(y * image.w >= image.w * image.h) by (nonlinear_arith)
            requires
                y >= image.h,
                image.w >= 0,
        ;
    }
}

/// A rectangle that is widened holds the pixels of the overlay within the margin of it, on every
/// side.
pub proof fn widening_reaches_the_margin(
    rect: OverlayRectPx,
    w: usize,
    h: usize,
    margin: usize,
    px: int,
    py: int,
)
    requires
        rect.w > 0,
        rect.h > 0,
        rect.x + rect.w <= w,
        rect.y + rect.h <= h,
    ensures
        ({
            let r = expanded(rect, w as int, h as int, margin as int);
            (r.x <= px < r.x + r.w && r.y <= py < r.y + r.h) <==> {
                &&& 0 <= px < w
                &&& 0 <= py < h
                &&& rect.x - margin <= px < rect.x + rect.w + margin
                &&& rect.y - margin <= py < rect.y + rect.h + margin
            }
        }),
{
}

/// The part that a rectangle has in common with bounds, both ends of which count, holds what both
/// hold.
pub proof fn common_parts_hold_what_both_hold(
    clip: OverlayRectPx,
    left: int,
    top: int,
    right: int,
    bottom: int,
    px: int,
    py: int,
)
    requires
        clip.w > 0,
        clip.h > 0,
        clip.x + clip.w <= usize::MAX,
        clip.y + clip.h <= usize::MAX,
    ensures
        ({
            let c = common_part(clip, left, top, right, bottom);
            let r = c->0;
            (c is Some && r.x <= px < r.x + r.w && r.y <= py < r.y + r.h) <==> {
                &&& clip.x <= px < clip.x + clip.w
                &&& clip.y <= py < clip.y + clip.h
                &&& left <= px <= right
                &&& top <= py <= bottom
            }
        }),
{
}

/// The union of two rectangles reaches from the first edge of either to the last edge of either.
pub proof fn unions_reach_all_edges(a: OverlayRectPx, b: OverlayRectPx)
    requires
        a.x + a.w <= usize::MAX,
        a.y + a.h <= usize::MAX,
        b.x + b.w <= usize::MAX,
        b.y + b.h <= usize::MAX,
    ensures
        ({
            let u = united(a, b);
            &&& u.x <= a.x && u.x <= b.x && (u.x == a.x || u.x == b.x)
            &&& u.y <= a.y && u.y <= b.y && (u.y == a.y || u.y == b.y)
            &&& u.x + u.w >= a.x + a.w && u.x + u.w >= b.x + b.w && (u.x + u.w == a.x + a.w || u.x
                + u.w == b.x + b.w)
            &&& u.y + u.h >= a.y + a.h && u.y + u.h >= b.y + b.h && (u.y + u.h == a.y + a.h || u.y
                + u.h == b.y + b.h)
        }),
{
}

/// A rectangle as seen from another: moved by the other's corner, and cut where the other ends.
/// There is none where it begins before the other.
pub proof fn local_rects_are_moved(source: OverlayRectPx, desired: OverlayRectPx, x: int, y: int)
    ensures
        ({
            let l = local_rect(source, desired);
            let r = l->0;
            &&& l is Some <==> desired.x >= source.x && desired.y >= source.y
            &&& l is Some ==> ((r.x <= x < r.x + r.w && r.y <= y < r.y + r.h) <==> {
                &&& desired.x <= source.x + x < desired.x + desired.w
                &&& desired.y <= source.y + y < desired.y + desired.h
                &&& x < source.w
                &&& y < source.h
            })
        }),
{
}

/// A chunk of a picture shows its pixels from the corner of the rectangle on, and nothing beyond
/// the picture.
pub proof fn chunks_show_their_pixels(image: Grid<Color>, rect: OverlayRectPx, x: int, y: int)
    requires
        0 <= x < rect.w,
        0 <= y < rect.h,
    ensures
        chunk_of(image, rect).w == rect.w,
        chunk_of(image, rect).h == rect.h,
        chunk_of(image, rect).px[y * rect.w + x] == if rect.x + x < image.w && rect.y + y < image.h {
            image.px[(rect.y + y) * image.w + (rect.x + x)]
        } else {
            Color { r: 0, g: 0, b: 0, a: 0 }
        },
{
    let f = |a: int, b: int|
        if image.inside(rect.x + a, rect.y + b) {
            image.at(rect.x + a, rect.y + b)
        } else {
            crate::color::clear()
        };
    lemma_grid_of(rect.w as int, rect.h as int, f);
    assert(chunk_of(image, rect) == grid_of(rect.w as int, rect.h as int, f));
    assert(chunk_of(image, rect).at(x, y) == f(x, y));
}

/// What is cut out of a picture that itself shows a part of the overlay is what lies there on the
/// overlay, and nothing beyond the part.
pub proof fn local_chunks_show_their_pixels(
    picture: Grid<Color>,
    source: OverlayRectPx,
    desired: OverlayRectPx,
    x: int,
    y: int,
)
    requires
        picture.valid(),
        picture.w == source.w,
        picture.h == source.h,
        picture.px.len() <= usize::MAX,
        0 <= x < desired.w,
        0 <= y < desired.h,
    ensures
        ({
            let lx = desired.x + x - source.x;
            let ly = desired.y + y - source.y;
            &&& local_chunk(picture, source, desired).w == desired.w
            &&& local_chunk(picture, source, desired).h == desired.h
            &&& local_chunk(picture, source, desired).px[y * desired.w + x] == if 0 <= lx < source.w
                && 0 <= ly < source.h {
                picture.px[ly * picture.w + lx]
            } else {
                Color { r: 0, g: 0, b: 0, a: 0 }
            }
        }),
{
    let f = |a: int, b: int|
        {
            let lx = desired.x + a - source.x;
            let ly = desired.y + b - source.y;
            if 0 <= lx < source.w && 0 <= ly < source.h {
                crate::overlay_rect::stored(
                    picture,
                    crate::mask::capped(crate::mask::capped(ly * picture.w) + lx),
                )
            } else {
                crate::color::clear()
            }
        };
    lemma_grid_of(desired.w as int, desired.h as int, f);
    assert(local_chunk(picture, source, desired) == grid_of(
        desired.w as int,
        desired.h as int,
        f,
    ));
    assert(local_chunk(picture, source, desired).at(x, y) == f(x, y));
    let lx = desired.x + x - source.x;
    let ly = desired.y + y - source.y;
    if 0 <= lx < source.w && 0 <= ly < source.h {
        lemma_offset(picture.w, picture.h, lx, ly);
    }
}

/// The tiles that a dirty rectangle touches are those, of 1024 by 1024 pixels, in which one of its
/// pixels lies.
pub proof fn touched_tiles_hold_a_dirty_pixel(
    stroke: OverlayRectPx,
    image_w: usize,
    dirty: OverlayRectPx,
    c: int,
    r: int,
)
    requires
        image_w >= stroke.w,
        image_w * stroke.h <= usize::MAX,
        dirty.x + dirty.w <= usize::MAX,
        dirty.y + dirty.h <= usize::MAX,
        dirty.x >= stroke.x,
        dirty.y >= stroke.y,
        0 <= c < (image_w + 1023) / 1024,
        0 <= r,
        r * ((image_w + 1023) / 1024) + c <= usize::MAX,
    ensures
        (exists|px: int, py: int|
            {
                &&& #[trigger] spot(px, py)
                &&& 0 <= px - stroke.x < stroke.w
                &&& 0 <= py - stroke.y < stroke.h
                &&& dirty.x <= px < dirty.x + dirty.w
                &&& dirty.y <= py < dirty.y + dirty.h
                &&& (px - stroke.x) / 1024 == c
                &&& (py - stroke.y) / 1024 == r
            }) ==> touched_tiles(stroke, image_w as int, dirty).contains(
            (r * ((image_w + 1023) / 1024) + c) as usize,
        ),
{
    if exists|px: int, py: int|
        {
            &&& #[trigger] spot(px, py)
            &&& 0 <= px - stroke.x < stroke.w
            &&& 0 <= py - stroke.y < stroke.h
            &&& dirty.x <= px < dirty.x + dirty.w
            &&& dirty.y <= py < dirty.y + dirty.h
            &&& (px - stroke.x) / 1024 == c
            &&& (py - stroke.y) / 1024 == r
        } {
        let (px, py) = choose|px: int, py: int|
            {
                &&& #[trigger] spot(px, py)
                &&& 0 <= px - stroke.x < stroke.w
                &&& 0 <= py - stroke.y < stroke.h
                &&& dirty.x <= px < dirty.x + dirty.w
                &&& dirty.y <= py < dirty.y + dirty.h
                &&& (px - stroke.x) / 1024 == c
                &&& (py - stroke.y) / 1024 == r
            };
        crate::overlay_rect::touched_tiles_cover_the_dirty_pixels(stroke, image_w, dirty, px, py);
    }
}

/// A place on the overlay.
pub open spec fn spot(px: int, py: int) -> bool {
    true
}

/// No other tile is touched: each that is named holds a pixel of the dirty rectangle.
pub proof fn named_tiles_are_dirty(
    stroke: OverlayRectPx,
    image_w: usize,
    dirty: OverlayRectPx,
    k: int,
)
    requires
        image_w >= stroke.w,
        image_w * stroke.h <= usize::MAX,
        dirty.x + dirty.w <= usize::MAX,
        dirty.y + dirty.h <= usize::MAX,
        dirty.w > 0,
        dirty.h > 0,
        stroke.w > 0,
        stroke.h > 0,
        0 <= k < touched_tiles(stroke, image_w as int, dirty).len(),
    ensures
        exists|px: int, py: int|
            {
                &&& #[trigger] spot(px, py)
                &&& 0 <= px - stroke.x < stroke.w
                &&& 0 <= py - stroke.y < stroke.h
                &&& dirty.x <= px < dirty.x + dirty.w
                &&& dirty.y <= py < dirty.y + dirty.h
                &&& touched_tiles(stroke, image_w as int, dirty)[k] == ((py - stroke.y) / 1024 * ((
                image_w + 1023) / 1024) + (px - stroke.x) / 1024) as usize
            },
{
    let x0 = dirty.x - stroke.x;
    let y0 = dirty.y - stroke.y;
    let ex = if x0 + dirty.w < stroke.w {
        x0 + dirty.w
    } else {
        stroke.w as int
    };
    let ey = if y0 + dirty.h < stroke.h {
        y0 + dirty.h
    } else {
        stroke.h as int
    };
    let x1 = ex - 1;
    let y1 = ey - 1;
    let cols = x1 / 1024 - x0 / 1024 + 1;
    let rows = y1 / 1024 - y0 / 1024 + 1;
    assert(x0 <= x1 && y0 <= y1);
    assert(touched_tiles(stroke, image_w as int, dirty).len() == cols * rows);
    vstd::arithmetic::div_mod::lemma_fundamental_div_mod(k, cols);
    assert(0 <= k % cols < cols && 0 <= k / cols < rows) by (nonlinear_arith)
        requires
            0 <= k < cols * rows,
            cols > 0,
    ;
    let c = x0 / 1024 + k % cols;
    let r = y0 / 1024 + k / cols;
    let lx = if c * 1024 < x0 {
        x0
    } else {
        c * 1024
    };
    let ly = if r * 1024 < y0 {
        y0
    } else {
        r * 1024
    };
    assert(lx / 1024 == c && ly / 1024 == r);
    assert(x0 <= lx <= x1 && y0 <= ly <= y1);
    assert(spot(lx + stroke.x, ly + stroke.y));
}

/// A selection that is dragged grows in steps: its end lies as many pixels away as the next
/// multiple of the step, on the side to which it was dragged, as long as that stays on the page.
pub proof fn dragging_snaps_to_steps(start: int, end: int, max: int, m: int)
    requires
        m > 0,
        0 <= start <= max,
        0 <= end <= max,
    ensures
        ({
            let out = snapped_end(start, end, max, m);
            &&& 0 <= out <= max
            &&& start == end ==> out == end
            &&& end > start ==> out > start && (out == max || ((out - start) % m == 0 && end - start
                <= out - start < end - start + m))
            &&& end < start ==> out < start && (out == 0 || ((start - out) % m == 0 && start - end
                <= start - out < start - end + m))
        }),
{
    if start != end {
        let n = if end > start {
            end - start
        } else {
            start - end
        };
        let q = (n + m - 1) / m;
        vstd::arithmetic::div_mod::lemma_fundamental_div_mod(n + m - 1, m);
        assert(n <= q * m < n + m && (q * m) % m == 0) by (nonlinear_arith)
            requires
                n + m - 1 == m * q + (n + m - 1) % m,
                0 <= (n + m - 1) % m < m,
                m > 0,
        {
            vstd::arithmetic::div_mod::lemma_mod_multiples_basic(q, m);
        }
        assert((n + m - 1) / m * m == q * m);
    }
}

/// A stroke erases with the shift key, with the eraser, or while erasing is held.
pub proof fn strokes_erase_in_three_ways(t: ZamazkaTool, p: StrokePoint)
    ensures
        t.erases(p) <==> p.modifiers.shift || t.temporary_erase || t.mode == ZamazkaMode::Eraser,
{
}

/// A picture of a page takes the place of the one that was there for that page, and of no other.
pub proof fn pictures_are_replaced_by_page(
    before: Seq<BaseImage>,
    after: Seq<BaseImage>,
    b: BaseImage,
    i: int,
)
    requires
        replaces_base(before, after, b),
        0 <= i < before.len(),
    ensures
        after.len() == before.len(),
        before[i].page_idx == b.page_idx ==> after[i] == b,
        before[i].page_idx != b.page_idx ==> after[i] == before[i],
{
}

/// A picture of a page is there where one of those that are kept is for that page.
pub proof fn pictures_are_kept_by_page(t: ZamazkaTool, page_idx: usize)
    ensures
        t.has_base(page_idx) <==> exists|i: int|
            0 <= i < t.base_images@.len() && (#[trigger] t.base_images@[i]).page_idx == page_idx,
{
}

/// A notch of the wheel changes the radius by two, as far as the range from 1 to 200 lets it; as many
/// notches back undo it where the range did not stop it.
pub proof fn notches_change_the_radius_by_two(r: int, notches: int)
    requires
        1 <= r <= 200,
        1 <= r + 2 * notches <= 200,
    ensures
        radius_in_bounds(r + notches * WHEEL_STEP_PX) == r + 2 * notches,
        radius_in_bounds(radius_in_bounds(r + notches * WHEEL_STEP_PX) - notches * WHEEL_STEP_PX)
            == r,
{
}

} // verus!
