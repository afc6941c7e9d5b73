//! Cleaning a page along its text mask.

use vstd::prelude::*;
use crate::autoclean::{
    autoclean_try_mask_fill, box_interior_fillable, clip_fill_to_bubble_interior,
    crop_rgb_from_rgba, dilate_gray_inplace, grow_until_homogeneous, paint_autoclean_fill,
    paint_patch_from_mask, Bounds, AUTOCLEAN_FILL_PADDING,
};
#[allow(unused_imports)]
use crate::autoclean::{
    bounds_are_unique, bounds_in, budget, clipped_to_bubble, cropped, dilated, grown, in_box,
    is_bounds, larger, mask_fill, mostly_background, opaque, painted_box, painted_fill,
    painted_mask, smaller,
};
use crate::color::{Color, ColorImage, GrayImage, Rgba, RgbaImage};
#[allow(unused_imports)]
use crate::color::clear;
use crate::components::extract_connected_components;
#[allow(unused_imports)]
use crate::components::{breadth_first, linked, roots};
use crate::mask::{dilate_binary_mask, resize_binary_mask_nearest};
#[allow(unused_imports)]
use crate::mask::{nearest_offset, set_within};
use crate::raster::{Grid, Raster};
#[allow(unused_imports)]
use crate::raster::{grid_of, lemma_grid_eq, lemma_grid_of, lemma_offset, lemma_position, lemma_with_at};

verus! {

/// Text pixels at most this far apart belong to one region.
pub const AUTOCLEAN_CLUSTER_SLACK: usize = 4;

/// What to do with a region whose background is uneven.
#[derive(Clone, Copy, Debug, PartialEq, Eq, Structural)]
pub enum UnevenBackgroundTool {
    NoProcessing,
}

impl UnevenBackgroundTool {
    pub fn title(self) -> (s: &'static str)
        ensures
            s@ == "Не обрабатывать"@,
    {
        match self {
            UnevenBackgroundTool::NoProcessing => "Не обрабатывать",
        }
    }
}

/// The patch for a page, and how many regions it was made of.
pub struct AutocleanPageOutcome {
    pub patch: ColorImage,
    pub regions_total: usize,
    pub regions_filled: usize,
    pub regions_skipped: usize,
}

/// The pixels of the component of `cm` that starts at `start`.
pub open spec fn cluster_of(cm: Seq<u8>, w: int, h: int, start: int) -> spec_fn(int, int) -> bool {
    |x: int, y: int| 0 <= x < w && 0 <= y < h && linked(cm, w, start, y * w + x)
}

/// The part of a page around a region: its corner and its size.
pub struct Window {
    pub ox: int,
    pub oy: int,
    pub cw: int,
    pub ch: int,
}

/// The rectangle with room to grow and for the ring around it.
pub open spec fn window_of(b: Bounds, w: int, h: int, radius: int) -> Window {
    let pad = radius + 6;
    let ox = larger(b.x1 - pad, 0);
    let oy = larger(b.y1 - pad, 0);
    Window { ox, oy, cw: smaller(b.x2 + pad, w) - ox, ch: smaller(b.y2 + pad, h) - oy }
}

/// The text pixels of a region, in its window.
pub open spec fn region_text(
    binary: Seq<u8>,
    w: int,
    cluster: spec_fn(int, int) -> bool,
    win: Window,
) -> Grid<u8> {
    grid_of(
        win.cw,
        win.ch,
        |x: int, y: int|
            if cluster(win.ox + x, win.oy + y) && binary[(win.oy + y) * w + (win.ox + x)] != 0 {
                255u8
            } else {
                0u8
            },
    )
}

/// The rectangle of a region, in its window.
pub open spec fn region_box(b: Bounds, win: Window) -> Grid<u8> {
    grid_of(
        win.cw,
        win.ch,
        |x: int, y: int|
            if in_box(b.x1 - win.ox, b.y1 - win.oy, b.x2 - win.ox, b.y2 - win.oy, x, y) {
                255u8
            } else {
                0u8
            },
    )
}

/// The patch after one region, and whether the region was filled: along its strokes if those grow
/// to an even ring, else as a rectangle if that does and is mostly background.
pub open spec fn region_cleaned(
    base: Grid<Rgba>,
    binary: Seq<u8>,
    w: int,
    h: int,
    radius: int,
    cluster: spec_fn(int, int) -> bool,
    patch: Grid<Color>,
) -> (Grid<Color>, bool) {
    let b = bounds_in(cluster);
    let win = window_of(b, w, h, radius);
    let rgb = cropped(base, win.ox, win.oy, win.cw, win.ch);
    let text = region_text(binary, w, cluster, win);
    match mask_fill(rgb, text, radius, radius, radius) {
        Some(fill) => if fill.2 {
            (painted_mask(patch, win.ox, win.oy, fill.0, fill.1), true)
        } else {
            (painted_fill(patch, win.ox, win.oy, fill.0, fill.1), true)
        },
        None => {
            let g = grown(rgb, region_box(b, win), budget(radius), budget(radius), radius, false);
            match g.0 {
                None => (patch, false),
                Some(found) => if mostly_background(
                    rgb,
                    b.x1 - win.ox,
                    b.y1 - win.oy,
                    b.x2 - win.ox,
                    b.y2 - win.oy,
                    found.0,
                ) {
                    let fill = clipped_to_bubble(
                        dilated(g.1, AUTOCLEAN_FILL_PADDING as int),
                        rgb,
                        text,
                        found.0,
                    );
                    (painted_mask(patch, win.ox, win.oy, fill, found.0), true)
                } else {
                    (patch, false)
                },
            }
        },
    }
}

/// The patch after the first `n` regions, and how many of them were filled.
pub open spec fn regions_cleaned(
    base: Grid<Rgba>,
    binary: Seq<u8>,
    w: int,
    h: int,
    radius: int,
    cm: Seq<u8>,
    n: nat,
) -> (Grid<Color>, nat)
    decreases n,
{
    if n == 0 {
        (grid_of(w, h, |x: int, y: int| clear()), 0)
    } else {
        let before = regions_cleaned(base, binary, w, h, radius, cm, (n - 1) as nat);
        let start = roots(cm, w, cm.len())[n - 1];
        let now = region_cleaned(
            base,
            binary,
            w,
            h,
            radius,
            cluster_of(cm, w, h, start),
            before.0,
        );
        (
            now.0,
            if now.1 {
                before.1 + 1
            } else {
                before.1
            },
        )
    }
}

/// The mask whose components are the regions of a page.
pub open spec fn cluster_mask(binary: Seq<u8>, w: int, h: int) -> Seq<u8> {
    Seq::new(
        binary.len(),
        |i: int|
            if set_within(binary, w, h, AUTOCLEAN_CLUSTER_SLACK as int, i % w, i / w) {
                255u8
            } else {
                0u8
            },
    )
}

/// The reach of the spread in effect.
pub open spec fn spread_radius(px: int) -> int {
    smaller(px, 128)
}

proof fn lemma_cluster_list(cm: Seq<u8>, w: int, h: int, start: int, s: Seq<usize>, x: int, y: int)
    requires
        cm.len() == w * h,
        cm.len() <= usize::MAX,
        breadth_first(cm, w, start, s),
        0 <= x < w,
        0 <= y < h,
    ensures
        cluster_of(cm, w, h, start)(x, y) == s.contains((y * w + x) as usize),
{
    lemma_offset(w, h, x, y);
    assert(linked(cm, w, start, y * w + x) <==> s.contains((y * w + x) as usize));
}

fn cluster_bounds(pixels: &Vec<usize>, width: usize, height: usize, Ghost(cm): Ghost<Seq<u8>>, Ghost(
    start,
): Ghost<int>) -> (b: Bounds)
    requires
        width > 0,
        height > 0,
        cm.len() == width * height,
        cm.len() <= usize::MAX,
        breadth_first(cm, width as int, start, pixels@),
    ensures
        is_bounds(cluster_of(cm, width as int, height as int, start), b),
        b == bounds_in(cluster_of(cm, width as int, height as int, start)),
        b.x1 < b.x2 <= width,
        b.y1 < b.y2 <= height,
{
    let ghost w = width as int;
    let ghost h = height as int;
    let mut b = Bounds { x1: width, y1: height, x2: 0, y2: 0 };
    let mut i: usize = 0;
    while i < pixels.len()
        invariant
            i <= pixels@.len(),
            w == width,
            h == height,
            width > 0,
            cm.len() == width * height,
            forall|a: int| 0 <= a < pixels@.len() ==> (#[trigger] pixels@[a]) < cm.len(),
            b.x2 <= width,
            b.y2 <= height,
            i > 0 ==> b.x1 < b.x2 && b.y1 < b.y2,
            i == 0 ==> b == (Bounds { x1: width, y1: height, x2: 0, y2: 0 }),
            forall|k: int|
                0 <= k < i ==> b.x1 <= (#[trigger] pixels@[k]) as int % w < b.x2 && b.y1
                    <= pixels@[k] as int / w < b.y2,
            i > 0 ==> exists|k: int| 0 <= k < i && (#[trigger] pixels@[k]) as int % w == b.x1,
            i > 0 ==> exists|k: int| 0 <= k < i && (#[trigger] pixels@[k]) as int % w == b.x2 - 1,
            i > 0 ==> exists|k: int| 0 <= k < i && (#[trigger] pixels@[k]) as int / w == b.y1,
            i > 0 ==> exists|k: int| 0 <= k < i && (#[trigger] pixels@[k]) as int / w == b.y2 - 1,
        decreases pixels@.len() - i,
    {
        let idx: usize = pixels[i];
        proof {
            assert(pixels@[i as int] < cm.len());
            lemma_position(w, h, idx as int);
        }
        let x: usize = idx % width;
        let y: usize = idx / width;
        let ghost b0 = b;
        b = Bounds {
            x1: if x < b.x1 { x } else { b.x1 },
            y1: if y < b.y1 { y } else { b.y1 },
            x2: if x + 1 > b.x2 { x + 1 } else { b.x2 },
            y2: if y + 1 > b.y2 { y + 1 } else { b.y2 },
        };
        proof {
            assert(pixels@[i as int] == idx);
            if i > 0 {
                let k1 = choose|k: int| 0 <= k < i && (#[trigger] pixels@[k]) as int % w == b0.x1;
                let k2 = choose|k: int| 0 <= k < i && (#[trigger] pixels@[k]) as int % w == b0.x2 - 1;
                let k3 = choose|k: int| 0 <= k < i && (#[trigger] pixels@[k]) as int / w == b0.y1;
                let k4 = choose|k: int| 0 <= k < i && (#[trigger] pixels@[k]) as int / w == b0.y2 - 1;
                assert(pixels@[k1] == pixels@[k1] && pixels@[k2] == pixels@[k2]);
                assert(pixels@[k3] == pixels@[k3] && pixels@[k4] == pixels@[k4]);
            }
        }
        i += 1;
    }
    proof {
        let f = cluster_of(cm, w, h, start);
        let n = pixels@.len() as int;
        assert(n > 0);
        assert forall|x: int, y: int| #[trigger] f(x, y) implies b.x1 <= x < b.x2 && b.y1 <= y < b.y2 by {
            lemma_cluster_list(cm, w, h, start, pixels@, x, y);
            lemma_offset(w, h, x, y);
            let k = choose|k: int| 0 <= k < n && pixels@[k] == (y * w + x) as usize;
            assert(pixels@[k] as int % w == x);
        }
        let k = choose|k: int| 0 <= k < n && (#[trigger] pixels@[k]) as int % w == b.x1;
        lemma_listed_position(cm, w, h, start, pixels@, k);
        assert(f(pixels@[k] as int % w, pixels@[k] as int / w));
        let k = choose|k: int| 0 <= k < n && (#[trigger] pixels@[k]) as int % w == b.x2 - 1;
        lemma_listed_position(cm, w, h, start, pixels@, k);
        assert(f(pixels@[k] as int % w, pixels@[k] as int / w));
        let k = choose|k: int| 0 <= k < n && (#[trigger] pixels@[k]) as int / w == b.y1;
        lemma_listed_position(cm, w, h, start, pixels@, k);
        assert(f(pixels@[k] as int % w, pixels@[k] as int / w));
        let k = choose|k: int| 0 <= k < n && (#[trigger] pixels@[k]) as int / w == b.y2 - 1;
        lemma_listed_position(cm, w, h, start, pixels@, k);
        assert(f(pixels@[k] as int % w, pixels@[k] as int / w));
        assert(is_bounds(f, b));
        bounds_are_unique(f, b, bounds_in(f));
    }
    b
}

proof fn lemma_listed_position(cm: Seq<u8>, w: int, h: int, start: int, s: Seq<usize>, k: int)
    requires
        w > 0,
        h > 0,
        cm.len() == w * h,
        cm.len() <= usize::MAX,
        breadth_first(cm, w, start, s),
        0 <= k < s.len(),
    ensures
        cluster_of(cm, w, h, start)(s[k] as int % w, s[k] as int / w),
{
    assert(s[k] < cm.len());
    lemma_position(w, h, s[k] as int);
    lemma_cluster_list(cm, w, h, start, s, s[k] as int % w, s[k] as int / w);
    assert(s.contains(s[k]));
}

fn cluster_text(
    binary_mask: &[u8],
    pixels: &Vec<usize>,
    width: usize,
    height: usize,
    ox: usize,
    oy: usize,
    cw: usize,
    ch: usize,
    Ghost(cm): Ghost<Seq<u8>>,
    Ghost(start): Ghost<int>,
    Ghost(b): Ghost<Bounds>,
) -> (text: GrayImage)
    requires
        width > 0,
        height > 0,
        cm.len() == width * height,
        cm.len() == binary_mask@.len(),
        breadth_first(cm, width as int, start, pixels@),
        is_bounds(cluster_of(cm, width as int, height as int, start), b),
        ox <= b.x1,
        b.x2 <= ox + cw <= width,
        oy <= b.y1,
        b.y2 <= oy + ch <= height,
        cw * ch <= usize::MAX,
    ensures
        text.wf(),
        text@ == region_text(
            binary_mask@,
            width as int,
            cluster_of(cm, width as int, height as int, start),
            (Window { ox: ox as int, oy: oy as int, cw: cw as int, ch: ch as int }),
        ),
{
    let ghost w = width as int;
    let ghost h = height as int;
    let mut text: GrayImage = Raster::filled(cw, ch, 0u8);
    let mut i: usize = 0;
    let ghost f = cluster_of(cm, w, h, start);
    proof {
        lemma_grid_of(cw as int, ch as int, |x: int, y: int| 0u8);
        assert(binary_mask.len() <= usize::MAX);
    }
    while i < pixels.len()
        invariant
            i <= pixels@.len(),
            w == width,
            h == height,
            width > 0,
            height > 0,
            cm.len() == width * height,
            cm.len() == binary_mask@.len(),
            binary_mask@.len() <= usize::MAX,
            breadth_first(cm, w, start, pixels@),
            f == cluster_of(cm, w, h, start),
            is_bounds(f, b),
            ox <= b.x1,
            b.x2 <= ox + cw <= width,
            oy <= b.y1,
            b.y2 <= oy + ch <= height,
            text.wf(),
            text.w == cw,
            text.h == ch,
            forall|x: int, y: int|
                text@.inside(x, y) ==> #[trigger] text@.at(x, y) == if pixels@.take(
                    i as int,
                ).contains(((oy + y) * w + (ox + x)) as usize) && binary_mask@[(oy + y) * w + (ox
                    + x)] != 0 {
                    255u8
                } else {
                    0u8
                },
        decreases pixels@.len() - i,
    {
        let idx: usize = pixels[i];
        proof {
            lemma_listed_position(cm, w, h, start, pixels@, i as int);
            assert(f(pixels@[i as int] as int % w, pixels@[i as int] as int / w));
            assert(pixels@[i as int] < cm.len());
            lemma_position(w, h, idx as int);
        }
        let x: usize = idx % width;
        let y: usize = idx / width;
        let ghost mid = text@;
        let marked: bool = binary_mask[idx] != 0;
        if marked {
            text.set(x - ox, y - oy, 255);
        }
        proof {
            let done = pixels@.take(i as int);
            let more = pixels@.take(i + 1);
            assert(more =~= done.push(idx));
            assert forall|p: int, q: int| text@.inside(p, q) implies #[trigger] text@.at(p, q) == if more.contains(
                ((oy + q) * w + (ox + p)) as usize,
            ) && binary_mask@[(oy + q) * w + (ox + p)] != 0 {
                255u8
            } else {
                0u8
            } by {
                assert(mid.inside(p, q));
                lemma_offset(w, h, ox + p, oy + q);
                let o = ((oy + q) * w + (ox + p)) as usize;
                assert(mid.at(p, q) == if done.contains(o) && binary_mask@[o as int] != 0 {
                    255u8
                } else {
                    0u8
                });
                if done.contains(o) {
                    let k = choose|k: int| 0 <= k < done.len() && done[k] == o;
                    assert(more[k] == o);
                }
                if more.contains(o) {
                    let k = choose|k: int| 0 <= k < more.len() && more[k] == o;
                    if k < i {
                        assert(done[k] == o);
                    }
                }
                if o == idx {
                    assert(more[i as int] == o);
                    assert(p == x - ox && q == y - oy);
                }
                if p == x - ox && q == y - oy {
                    assert(o == idx);
                }
                if marked {
                    lemma_with_at(mid, x - ox, y - oy, 255u8, p, q);
                }
            }
        }
        i += 1;
    }
    proof {
        let win = Window { ox: ox as int, oy: oy as int, cw: cw as int, ch: ch as int };
        let g = |x: int, y: int|
            if f(win.ox + x, win.oy + y) && binary_mask@[(win.oy + y) * w + (win.ox + x)] != 0 {
                255u8
            } else {
                0u8
            };
        lemma_grid_of(win.cw, win.ch, g);
        let target = region_text(binary_mask@, w, f, win);
        assert(pixels@.take(pixels@.len() as int) =~= pixels@);
        assert forall|x: int, y: int| text@.inside(x, y) implies #[trigger] text@.at(x, y) == target.at(x, y) by {
            lemma_cluster_list(cm, w, h, start, pixels@, ox + x, oy + y);
            assert(g(x, y) == target.at(x, y));
        }
        lemma_grid_eq(text@, target);
    }
    text
}

fn box_mask(cw: usize, ch: usize, x1: usize, y1: usize, x2: usize, y2: usize) -> (m: GrayImage)
    requires
        cw * ch <= usize::MAX,
    ensures
        m.wf(),
        m@ == grid_of(
            cw as int,
            ch as int,
            |x: int, y: int|
                if in_box(x1 as int, y1 as int, x2 as int, y2 as int, x, y) {
                    255u8
                } else {
                    0u8
                },
        ),
{
    let n: usize = cw * ch;
    let mut px: Vec<u8> = Vec::new();
    let mut i: usize = 0;
    let ghost target = grid_of(
        cw as int,
        ch as int,
        |x: int, y: int|
            if in_box(x1 as int, y1 as int, x2 as int, y2 as int, x, y) {
                255u8
            } else {
                0u8
            },
    );
    while i < n
        invariant
            i <= n,
            n == cw * ch,
            target == grid_of(
                cw as int,
                ch as int,
                |x: int, y: int|
                    if in_box(x1 as int, y1 as int, x2 as int, y2 as int, x, y) {
                        255u8
                    } else {
                        0u8
                    },
            ),
            px@.len() == i,
            forall|k: int| 0 <= k < i ==> #[trigger] px@[k] == target.px[k],
        decreases n - i,
    {
        proof {
            lemma_position(cw as int, ch as int, i as int);
        }
        let x: usize = i % cw;
        let y: usize = i / cw;
        if x1 <= x && x < x2 && y1 <= y && y < y2 {
            px.push(255);
        } else {
            px.push(0);
        }
        i += 1;
    }
    let m = Raster { w: cw, h: ch, px };
    assert(m@ =~= target);
    m
}

/// Cleans one region into the patch; tells whether it could be filled.
fn clean_region(
    base: &RgbaImage,
    binary_mask: &[u8],
    width: usize,
    height: usize,
    radius: usize,
    pixels: &Vec<usize>,
    patch: &mut ColorImage,
    Ghost(cm): Ghost<Seq<u8>>,
    Ghost(start): Ghost<int>,
) -> (filled: bool)
    requires
        base.wf(),
        width > 0,
        height > 0,
        radius <= 128,
        cm.len() == width * height,
        cm.len() == binary_mask@.len(),
        breadth_first(cm, width as int, start, pixels@),
        old(patch).wf(),
    ensures
        final(patch).wf(),
        final(patch)@.same_size(old(patch)@),
        (final(patch)@, filled) == region_cleaned(
            base@,
            binary_mask@,
            width as int,
            height as int,
            radius as int,
            cluster_of(cm, width as int, height as int, start),
            old(patch)@,
        ),
{
    proof {
        assert(binary_mask.len() <= usize::MAX);
    }
    let b = cluster_bounds(pixels, width, height, Ghost(cm), Ghost(start));
    let pad: usize = radius + 6;
    let ox: usize = if b.x1 > pad { b.x1 - pad } else { 0 };
    let oy: usize = if b.y1 > pad { b.y1 - pad } else { 0 };
    let ex: usize = if width - b.x2 > pad { b.x2 + pad } else { width };
    let ey: usize = if height - b.y2 > pad { b.y2 + pad } else { height };
    let cw: usize = ex - ox;
    let ch: usize = ey - oy;
    proof {
        assert(cw * ch <= width * height) by (nonlinear_arith)
            requires
                0 <= cw <= width,
                0 <= ch <= height,
        ;
    }
    let rgb = crop_rgb_from_rgba(base, ox, oy, cw, ch);
    let text = cluster_text(
        binary_mask,
        pixels,
        width,
        height,
        ox,
        oy,
        cw,
        ch,
        Ghost(cm),
        Ghost(start),
        Ghost(b),
    );
    let r: i32 = radius as i32;
    match autoclean_try_mask_fill(&rgb, text.copied(), r, r, r) {
        Some((mask, bg, retreated)) => {
            if retreated {
                paint_patch_from_mask(patch, ox, oy, &mask, bg);
            } else {
                paint_autoclean_fill(patch, ox, oy, &mask, bg);
            }
            return true;
        },
        None => {},
    }
    let bx1: usize = b.x1 - ox;
    let by1: usize = b.y1 - oy;
    let bx2: usize = b.x2 - ox;
    let by2: usize = b.y2 - oy;
    let mut fill = box_mask(cw, ch, bx1, by1, bx2, by2);
    assert(fill@ == region_box(
        b,
        Window { ox: ox as int, oy: oy as int, cw: cw as int, ch: ch as int },
    ));
    match grow_until_homogeneous(&rgb, &mut fill, r, r, r) {
        Some((bg, _retreated)) => {
            if box_interior_fillable(&rgb, bx1, by1, bx2, by2, bg) {
                dilate_gray_inplace(&mut fill, AUTOCLEAN_FILL_PADDING);
                clip_fill_to_bubble_interior(&mut fill, &rgb, &text, bg);
                paint_patch_from_mask(patch, ox, oy, &fill, bg);
                return true;
            }
        },
        None => {},
    }
    false
}

/// The patch for a page, the number of its regions and of the filled ones.
pub open spec fn page_cleaned(
    base: Grid<Rgba>,
    binary: Seq<u8>,
    w: int,
    h: int,
    spread_radius_px: int,
) -> (Grid<Color>, nat, nat) {
    if binary.len() == 0 || w == 0 || h == 0 {
        (grid_of(larger(w, 1), larger(h, 1), |x: int, y: int| clear()), 0, 0)
    } else {
        let cm = cluster_mask(binary, w, h);
        let total = roots(cm, w, cm.len()).len();
        let done = regions_cleaned(base, binary, w, h, spread_radius(spread_radius_px), cm, total);
        (done.0, total, done.1)
    }
}

/// Cleans every region of the text mask of a page.
pub fn autoclean_page(
    base_rgba: &RgbaImage,
    binary_mask: &[u8],
    width: usize,
    height: usize,
    spread_radius_px: usize,
    uneven_tool: UnevenBackgroundTool,
) -> (out: AutocleanPageOutcome)
    requires
        base_rgba.wf(),
        binary_mask@.len() == 0 || width == 0 || height == 0 || binary_mask@.len() == width
            * height,
        width * height <= usize::MAX,
    ensures
        out.patch.wf(),
        (out.patch@, out.regions_total as nat, out.regions_filled as nat) == page_cleaned(
            base_rgba@,
            binary_mask@,
            width as int,
            height as int,
            spread_radius_px as int,
        ),
        out.regions_filled + out.regions_skipped == out.regions_total,
{
    let pw: usize = if width == 0 { 1 } else { width };
    let ph: usize = if height == 0 { 1 } else { height };
    assert(pw * ph <= usize::MAX) by (nonlinear_arith)
        requires
            width * height <= usize::MAX,
            pw == if width == 0 { 1 } else { width },
            ph == if height == 0 { 1 } else { height },
    ;
    let mut patch: ColorImage = Raster::filled(pw, ph, Color::transparent());
    if binary_mask.len() == 0 || width == 0 || height == 0 {
        return AutocleanPageOutcome {
            patch,
            regions_total: 0,
            regions_filled: 0,
            regions_skipped: 0,
        };
    }
    let radius: usize = if spread_radius_px < 128 { spread_radius_px } else { 128 };
    let ghost w = width as int;
    let ghost h = height as int;
    let cluster = dilate_binary_mask(binary_mask, width, height, AUTOCLEAN_CLUSTER_SLACK);
    let ghost cm = cluster_mask(binary_mask@, w, h);
    proof {
        assert forall|i: int| 0 <= i < cluster@.len() implies #[trigger] cluster@[i] == cm[i] by {
            lemma_position(w, h, i);
            assert(cluster@[(i / w) * w + i % w] == cm[i]);
        }
        assert(cluster@ =~= cm);
    }
    let clusters = extract_connected_components(cluster.as_slice(), width, height);
    let total: usize = clusters.pixels.len();
    let mut filled: usize = 0;
    let mut skipped: usize = 0;
    let mut l: usize = 0;
    while l < total
        invariant
            l <= total,
            total == clusters.pixels@.len(),
            total == roots(cm, w, cm.len()).len(),
            w == width,
            h == height,
            width > 0,
            height > 0,
            radius <= 128,
            base_rgba.wf(),
            cm.len() == width * height,
            cm.len() == binary_mask@.len(),
            forall|k: int|
                0 <= k < total ==> breadth_first(
                    cm,
                    w,
                    #[trigger] roots(cm, w, cm.len())[k],
                    clusters.pixels@[k]@,
                ),
            patch.wf(),
            (patch@, filled as nat) == regions_cleaned(
                base_rgba@,
                binary_mask@,
                w,
                h,
                radius as int,
                cm,
                l as nat,
            ),
            filled + skipped == l,
        decreases total - l,
    {
        let ghost start = roots(cm, w, cm.len())[l as int];
        let done: bool = clean_region(
            base_rgba,
            binary_mask,
            width,
            height,
            radius,
            &clusters.pixels[l],
            &mut patch,
            Ghost(cm),
            Ghost(start),
        );
        if done {
            filled += 1;
        } else {
            match uneven_tool {
                UnevenBackgroundTool::NoProcessing => {
                    skipped += 1;
                },
            }
        }
        l += 1;
    }
    AutocleanPageOutcome {
        patch,
        regions_total: total,
        regions_filled: filled,
        regions_skipped: skipped,
    }
}

/// The stored mask of a page: its size and the alpha of its pixels.
pub struct TextMaskLoadPage {
    pub page_idx: usize,
    pub mask_size: (u32, u32),
    pub mask_alpha: Vec<u8>,
}

/// What came of cleaning one page.
pub struct QuickTextCleanPageResult {
    pub page_idx: usize,
    pub patch: Option<ColorImage>,
    pub regions_total: usize,
    pub regions_filled: usize,
    pub regions_skipped: usize,
    pub error: Option<String>,
    pub missing_mask: bool,
}

/// The mask of a page brought to the size of the page, as clear and set pixels.
pub open spec fn page_mask(mask: TextMaskLoadPage, w: int, h: int) -> Seq<u8> {
    let mw = mask.mask_size.0 as int;
    let mh = mask.mask_size.1 as int;
    let alpha = mask.mask_alpha@;
    if mw == w && mh == h {
        Seq::new(alpha.len(), |i: int| binary_value(alpha[i]))
    } else {
        Seq::new(
            (w * h) as nat,
            |i: int|
                {
                    let j = nearest_offset(mw, mh, w, h, i % w, i / w);
                    if mw == 0 || mh == 0 || j >= alpha.len() {
                        0u8
                    } else {
                        binary_value(alpha[j])
                    }
                },
        )
    }
}

pub open spec fn binary_value(v: u8) -> u8 {
    if v > 0 {
        255
    } else {
        0
    }
}

fn prepare_mask(mask: &TextMaskLoadPage, width: usize, height: usize) -> (m: Vec<u8>)
    requires
        width * height <= usize::MAX,
    ensures
        m@ == page_mask(*mask, width as int, height as int),
{
    let mw: usize = mask.mask_size.0 as usize;
    let mh: usize = mask.mask_size.1 as usize;
    let same: bool = mw == width && mh == height;
    let resized = if same {
        Vec::new()
    } else {
        resize_binary_mask_nearest(mask.mask_alpha.as_slice(), mw, mh, width, height)
    };
    let source: &Vec<u8> = if same { &mask.mask_alpha } else { &resized };
    let ghost target = page_mask(*mask, width as int, height as int);
    let mut out: Vec<u8> = Vec::new();
    let mut i: usize = 0;
    while i < source.len()
        invariant
            i <= source@.len(),
            out@.len() == i,
            forall|k: int| 0 <= k < i ==> #[trigger] out@[k] == binary_value(source@[k]),
        decreases source@.len() - i,
    {
        let v: u8 = if source[i] > 0 { 255 } else { 0 };
        out.push(v);
        i += 1;
    }
    proof {
        if !same {
            assert forall|i: int| 0 <= i < out@.len() implies #[trigger] out@[i] == target[i] by {
                lemma_position(width as int, height as int, i);
                assert(source@[(i / (width as int)) * width + i % (width as int)] == source@[i]);
            }
        }
        assert(out@ =~= target);
    }
    out
}

fn any_visible(img: &ColorImage) -> (b: bool)
    ensures
        b == exists|i: int| 0 <= i < img@.px.len() && (#[trigger] img@.px[i]).a > 0,
{
    let mut i: usize = 0;
    while i < img.px.len()
        invariant
            i <= img@.px.len(),
            forall|k: int| 0 <= k < i ==> (#[trigger] img@.px[k]).a == 0,
        decreases img@.px.len() - i,
    {
        if img.px[i].a > 0 {
            assert(img@.px[i as int].a > 0);
            return true;
        }
        i += 1;
    }
    false
}

/// Cleans one page whose picture and mask were read.  Without a mask, or with an empty one, the
/// page is reported as having none.  The patch is left out where it shows nothing.
pub fn quick_clean_page(
    page_idx: usize,
    base_rgba: &RgbaImage,
    mask: Option<TextMaskLoadPage>,
    spread_radius_px: usize,
    uneven_tool: UnevenBackgroundTool,
) -> (r: QuickTextCleanPageResult)
    requires
        base_rgba.wf(),
        mask is Some ==> {
            let m = mask->0;
            m.mask_size.0 == base_rgba.w && m.mask_size.1 == base_rgba.h && m.mask_alpha@.len() > 0
                ==> m.mask_alpha@.len() == base_rgba.w * base_rgba.h
        },
    ensures
        r.page_idx == page_idx,
        r.error is None,
        r.missing_mask == (mask is None || (mask->0).mask_alpha@.len() == 0),
        r.missing_mask ==> r.patch is None && r.regions_total == 0 && r.regions_filled == 0
            && r.regions_skipped == 0,
        !r.missing_mask ==> {
            let done = page_cleaned(
                base_rgba@,
                page_mask(mask->0, base_rgba@.w, base_rgba@.h),
                base_rgba@.w,
                base_rgba@.h,
                spread_radius_px as int,
            );
            &&& r.regions_total == done.1
            &&& r.regions_filled == done.2
            &&& r.regions_filled + r.regions_skipped == r.regions_total
            &&& (r.patch is Some <==> exists|i: int|
                0 <= i < done.0.px.len() && (#[trigger] done.0.px[i]).a > 0)
            &&& r.patch is Some ==> (r.patch->0).wf() && (r.patch->0)@ == done.0
        },
{
    let empty = QuickTextCleanPageResult {
        page_idx,
        patch: None,
        regions_total: 0,
        regions_filled: 0,
        regions_skipped: 0,
        error: None,
        missing_mask: true,
    };
    let page = match mask {
        Some(m) => m,
        None => {
            return empty;
        },
    };
    if page.mask_alpha.len() == 0 {
        return empty;
    }
    assert(base_rgba.px.len() <= usize::MAX);
    let binary = prepare_mask(&page, base_rgba.w, base_rgba.h);
    let out = autoclean_page(
        base_rgba,
        binary.as_slice(),
        base_rgba.w,
        base_rgba.h,
        spread_radius_px,
        uneven_tool,
    );
    let shown: bool = any_visible(&out.patch);
    proof {
        let done = page_cleaned(
            base_rgba@,
            page_mask(mask->0, base_rgba@.w, base_rgba@.h),
            base_rgba@.w,
            base_rgba@.h,
            spread_radius_px as int,
        );
        assert(out.patch@ == done.0);
        assert(shown <==> exists|i: int|
            0 <= i < done.0.px.len() && (#[trigger] done.0.px[i]).a > 0);
    }
    QuickTextCleanPageResult {
        page_idx,
        patch: if shown {
            Some(out.patch)
        } else {
            None
        },
        regions_total: out.regions_total,
        regions_filled: out.regions_filled,
        regions_skipped: out.regions_skipped,
        error: None,
        missing_mask: false,
    }
}

/// Every pixel of the picture is clear or fully opaque.
pub open spec fn all_or_nothing(g: Grid<Color>) -> bool {
    forall|x: int, y: int|
        g.inside(x, y) ==> (#[trigger] g.at(x, y) == clear() || g.at(x, y).a == 255)
}

proof fn lemma_painted_mask_binary(patch: Grid<Color>, ox: int, oy: int, mask: Grid<u8>, bg: crate::color::Rgb)
    requires
        patch.valid(),
        all_or_nothing(patch),
    ensures
        all_or_nothing(painted_mask(patch, ox, oy, mask, bg)),
        painted_mask(patch, ox, oy, mask, bg).valid(),
{
    let f = |x: int, y: int|
        if crate::autoclean::on(mask, x - ox, y - oy) {
            opaque(bg)
        } else {
            patch.at(x, y)
        };
    lemma_grid_of(patch.w, patch.h, f);
    let g = painted_mask(patch, ox, oy, mask, bg);
    assert forall|x: int, y: int| g.inside(x, y) implies (#[trigger] g.at(x, y) == clear() || g.at(x, y).a
        == 255) by {
        assert(f(x, y) == g.at(x, y));
        assert(patch.inside(x, y));
        assert(patch.at(x, y) == clear() || patch.at(x, y).a == 255);
    }
}

proof fn lemma_painted_box_binary(
    patch: Grid<Color>,
    ox: int,
    oy: int,
    x1: int,
    y1: int,
    x2: int,
    y2: int,
    bg: crate::color::Rgb,
)
    requires
        patch.valid(),
        all_or_nothing(patch),
    ensures
        all_or_nothing(painted_box(patch, ox, oy, x1, y1, x2, y2, bg)),
        painted_box(patch, ox, oy, x1, y1, x2, y2, bg).valid(),
{
    let f = |x: int, y: int|
        if in_box(x1, y1, x2, y2, x - ox, y - oy) {
            opaque(bg)
        } else {
            patch.at(x, y)
        };
    lemma_grid_of(patch.w, patch.h, f);
    let g = painted_box(patch, ox, oy, x1, y1, x2, y2, bg);
    assert forall|x: int, y: int| g.inside(x, y) implies (#[trigger] g.at(x, y) == clear() || g.at(x, y).a
        == 255) by {
        assert(f(x, y) == g.at(x, y));
        assert(patch.inside(x, y));
        assert(patch.at(x, y) == clear() || patch.at(x, y).a == 255);
    }
}

proof fn lemma_regions_binary(
    base: Grid<Rgba>,
    binary: Seq<u8>,
    w: int,
    h: int,
    radius: int,
    cm: Seq<u8>,
    n: nat,
)
    requires
        0 <= w,
        0 <= h,
    ensures
        all_or_nothing(regions_cleaned(base, binary, w, h, radius, cm, n).0),
        regions_cleaned(base, binary, w, h, radius, cm, n).0.valid(),
        regions_cleaned(base, binary, w, h, radius, cm, n).0.w == w,
        regions_cleaned(base, binary, w, h, radius, cm, n).0.h == h,
        regions_cleaned(base, binary, w, h, radius, cm, n).1 <= n,
    decreases n,
{
    if n == 0 {
        lemma_grid_of(w, h, |x: int, y: int| clear());
    } else {
        lemma_regions_binary(base, binary, w, h, radius, cm, (n - 1) as nat);
        let patch = regions_cleaned(base, binary, w, h, radius, cm, (n - 1) as nat).0;
        let start = roots(cm, w, cm.len())[n - 1];
        let cluster = cluster_of(cm, w, h, start);
        let b = bounds_in(cluster);
        let win = window_of(b, w, h, radius);
        let rgb = cropped(base, win.ox, win.oy, win.cw, win.ch);
        let text = region_text(binary, w, cluster, win);
        match mask_fill(rgb, text, radius, radius, radius) {
            Some(fill) => {
                lemma_painted_mask_binary(patch, win.ox, win.oy, fill.0, fill.1);
                let mb = crate::autoclean::bounds_of(fill.0);
                let p = AUTOCLEAN_FILL_PADDING as int;
                lemma_painted_box_binary(
                    patch,
                    win.ox,
                    win.oy,
                    larger(mb.x1 - p, 0),
                    larger(mb.y1 - p, 0),
                    smaller(mb.x2 + p, fill.0.w),
                    smaller(mb.y2 + p, fill.0.h),
                    fill.1,
                );
            },
            None => {
                let g = grown(
                    rgb,
                    region_box(b, win),
                    budget(radius),
                    budget(radius),
                    radius,
                    false,
                );
                if g.0 is Some {
                    let bg = (g.0->0).0;
                    let fill = clipped_to_bubble(
                        dilated(g.1, AUTOCLEAN_FILL_PADDING as int),
                        rgb,
                        text,
                        bg,
                    );
                    lemma_painted_mask_binary(patch, win.ox, win.oy, fill, bg);
                }
            },
        }
    }
}

/// The patch of a page holds only clear and fully opaque pixels, so it looks the same on screen
/// and in an export; and no more regions are filled than there are.
pub proof fn patches_are_all_or_nothing(
    base: Grid<Rgba>,
    binary: Seq<u8>,
    w: int,
    h: int,
    spread_radius_px: int,
)
    requires
        0 <= w,
        0 <= h,
    ensures
        all_or_nothing(page_cleaned(base, binary, w, h, spread_radius_px).0),
        page_cleaned(base, binary, w, h, spread_radius_px).2 <= page_cleaned(
            base,
            binary,
            w,
            h,
            spread_radius_px,
        ).1,
{
    lemma_grid_of(larger(w, 1), larger(h, 1), |x: int, y: int| clear());
    let cm = cluster_mask(binary, w, h);
    lemma_regions_binary(
        base,
        binary,
        w,
        h,
        spread_radius(spread_radius_px),
        cm,
        roots(cm, w, cm.len()).len(),
    );
}

} // verus!
