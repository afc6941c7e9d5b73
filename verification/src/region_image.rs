//! The picture that a region of a page is edited on.

use vstd::prelude::*;
use vstd::string::StringExecFns;
use crate::color::{Color, ColorImage, Rgba, RgbaImage};
#[allow(unused_imports)]
use crate::color::{clear, premultiplied};
use crate::mask::add_capped;
#[allow(unused_imports)]
use crate::mask::capped;
use crate::overlay_rect::OverlayRectPx;
use crate::raster::{Grid, Raster};
#[allow(unused_imports)]
use crate::raster::{grid_of, lemma_position};

verus! {

/// How an overlay pixel meets the pixel below it.
#[derive(Clone, Copy, Debug, PartialEq, Eq, Structural)]
pub enum Cover {
    /// The pixel below stays.
    Keep,
    /// The overlay pixel takes its place.
    Replace,
    /// The two are mixed.
    Mix,
}

pub open spec fn cover_of(below: Color, over: Color) -> Cover {
    if over.a == 0 {
        Cover::Keep
    } else if over.a == 255 || below.a == 0 {
        Cover::Replace
    } else {
        Cover::Mix
    }
}

/// Decides how an overlay pixel meets the pixel below it.
pub fn cover(below: Color, over: Color) -> (c: Cover)
    ensures
        c == cover_of(below, over),
{
    if over.a == 0 {
        Cover::Keep
    } else if over.a == 255 || below.a == 0 {
        Cover::Replace
    } else {
        Cover::Mix
    }
}

/// The overlay laid over a picture of the same size; `mixed` holds the mixtures.
pub open spec fn laid_over(base: Grid<Color>, overlay: Grid<Color>, mixed: Grid<Color>) -> Grid<Color> {
    if !base.same_size(overlay) {
        base
    } else {
        Grid {
            w: base.w,
            h: base.h,
            px: Seq::new(
                base.px.len(),
                |i: int|
                    match cover_of(base.px[i], overlay.px[i]) {
                        Cover::Keep => base.px[i],
                        Cover::Replace => overlay.px[i],
                        Cover::Mix => mixed.px[i],
                    },
            ),
        }
    }
}

/// Lays an overlay over a picture.
pub fn composite_source_over(base: &mut ColorImage, overlay: &ColorImage, mixed: &ColorImage)
    requires
        old(base).wf(),
        overlay.wf(),
        mixed.px@.len() == old(base).px@.len(),
    ensures
        final(base).wf(),
        final(base)@ == laid_over(old(base)@, overlay@, mixed@),
{
    if base.w != overlay.w || base.h != overlay.h {
        return;
    }
    let ghost before = base@;
    let ghost target = laid_over(before, overlay@, mixed@);
    let n: usize = base.px.len();
    let mut i: usize = 0;
    while i < n
        invariant
            i <= n,
            n == before.px.len(),
            base.wf(),
            base@.same_size(before),
            base@.px.len() == n,
            overlay@.same_size(before),
            overlay@.px.len() == n,
            mixed.px@.len() == n,
            target == laid_over(before, overlay@, mixed@),
            forall|k: int|
                0 <= k < n ==> #[trigger] base@.px[k] == if k < i {
                    target.px[k]
                } else {
                    before.px[k]
                },
        decreases n - i,
    {
        match cover(base.px[i], overlay.px[i]) {
            Cover::Keep => {},
            Cover::Replace => {
                base.px.set(i, overlay.px[i]);
            },
            Cover::Mix => {
                base.px.set(i, mixed.px[i]);
            },
        }
        i += 1;
    }
    assert(base@ =~= target);
}

/// A fully clear overlay changes nothing, and an opaque one hides the picture.
pub proof fn clear_and_opaque_overlays(base: Grid<Color>, overlay: Grid<Color>, mixed: Grid<Color>, i: int)
    requires
        base.same_size(overlay),
        0 <= i < base.px.len(),
    ensures
        overlay.px[i].a == 0 ==> laid_over(base, overlay, mixed).px[i] == base.px[i],
        overlay.px[i].a == 255 ==> laid_over(base, overlay, mixed).px[i] == overlay.px[i],
{
}

/// A cut out of a page, in whole pixels.
#[derive(Clone, Copy, Debug, PartialEq, Eq, Structural)]
pub struct PageCut {
    pub x0: i64,
    pub y0: i64,
    pub x1: i64,
    pub y1: i64,
}

pub open spec fn kept_within(v: int, max: int) -> int {
    if v < 0 {
        0
    } else if v > max {
        max
    } else {
        v
    }
}

/// One direction of a cut: kept on the page, and one pixel long at least where the page has room.
pub open spec fn cut_range(a: int, b: int, max: int) -> (int, int) {
    let lo = kept_within(a, max);
    let hi = kept_within(b, max);
    if hi <= lo {
        (lo, if lo + 1 < max {
            lo + 1
        } else {
            max
        })
    } else {
        (lo, hi)
    }
}

/// The length of a cut, one at least.
pub open spec fn cut_len(r: (int, int)) -> int {
    if r.1 - r.0 < 1 {
        1
    } else {
        r.1 - r.0
    }
}

/// The pixels under a cut, row by row as the page stores them; clear where a row does not fit.
pub open spec fn cut_picture(base: Grid<Rgba>, cut: PageCut) -> Grid<Color> {
    let rx = cut_range(cut.x0 as int, cut.x1 as int, base.w);
    let ry = cut_range(cut.y0 as int, cut.y1 as int, base.h);
    grid_of(
        cut_len(rx),
        cut_len(ry),
        |x: int, y: int|
            {
                let start = capped((ry.0 + y) * base.w + rx.0);
                if start + cut_len(rx) <= base.px.len() {
                    premultiplied(base.px[start + x])
                } else {
                    premultiplied(Rgba { r: 0, g: 0, b: 0, a: 0 })
                }
            },
    )
}

fn range_of(a: i64, b: i64, max: usize) -> (r: (usize, usize))
    requires
        max <= i64::MAX,
    ensures
        (r.0 as int, r.1 as int) == cut_range(a as int, b as int, max as int),
        r.0 <= max,
        r.1 <= max,
{
    let m: i64 = max as i64;
    let lo: i64 = if a < 0 { 0 } else if a > m { m } else { a };
    let hi: i64 = if b < 0 { 0 } else if b > m { m } else { b };
    if hi <= lo {
        let next: i64 = if lo < m - 1 { lo + 1 } else { m };
        (lo as usize, next as usize)
    } else {
        (lo as usize, hi as usize)
    }
}

fn len_of(r: (usize, usize)) -> (n: usize)
    ensures
        n == cut_len((r.0 as int, r.1 as int)),
{
    if r.1 > r.0 {
        r.1 - r.0
    } else {
        1
    }
}

/// Why a region cannot be shown.
pub open spec fn region_refusal(base: Grid<Rgba>, path: Seq<char>, source_rect: OverlayRectPx, source_w: int, source_h: int) -> Option<
    Seq<char>,
> {
    if source_w == 0 || source_h == 0 || source_rect.w == 0 || source_rect.h == 0 {
        Some("Невалидный размер выделения региона."@)
    } else if base.w == 0 || base.h == 0 {
        Some("Страница "@ + path + " имеет пустой размер."@)
    } else {
        None
    }
}

/// The part of a page under a selection.  An empty selection or page is refused.
pub fn region_base_image(
    base: &RgbaImage,
    page_path: &str,
    source_rect: OverlayRectPx,
    source_size: (usize, usize),
    cut: PageCut,
) -> (r: Result<ColorImage, String>)
    requires
        base.wf(),
        base.w < i64::MAX,
        base.h < i64::MAX,
    ensures
        ({
            let refusal = region_refusal(
                base@,
                page_path@,
                source_rect,
                source_size.0 as int,
                source_size.1 as int,
            );
            &&& r is Err <==> refusal is Some
            &&& r is Err ==> (r->Err_0)@ == refusal->0
            &&& r is Ok ==> (r->Ok_0).wf() && (r->Ok_0)@ == cut_picture(base@, cut)
        }),
{
    if source_size.0 == 0 || source_size.1 == 0 || source_rect.w == 0 || source_rect.h == 0 {
        return Err(String::from_str("Невалидный размер выделения региона."));
    }
    if base.w == 0 || base.h == 0 {
        let mut s = String::from_str("Страница ");
        s.append(page_path);
        s.append(" имеет пустой размер.");
        return Err(s);
    }
    let rx = range_of(cut.x0, cut.x1, base.w);
    let ry = range_of(cut.y0, cut.y1, base.h);
    let w: usize = len_of(rx);
    let h: usize = len_of(ry);
    proof {
        assert(w * h <= base.w * base.h) by (nonlinear_arith)
            requires
                0 <= w <= base.w,
                0 <= h <= base.h,
        ;
        assert(base.px.len() <= usize::MAX);
    }
    let n: usize = w * h;
    let mut px: Vec<Color> = Vec::new();
    let mut i: usize = 0;
    let ghost target = cut_picture(base@, cut);
    while i < n
        invariant
            i <= n,
            n == w * h,
            base.wf(),
            (rx.0 as int, rx.1 as int) == cut_range(cut.x0 as int, cut.x1 as int, base@.w),
            (ry.0 as int, ry.1 as int) == cut_range(cut.y0 as int, cut.y1 as int, base@.h),
            w == cut_len((rx.0 as int, rx.1 as int)),
            h == cut_len((ry.0 as int, ry.1 as int)),
            rx.0 <= base.w,
            ry.0 + h <= base.h || (ry.0 == base.h && h == 1),
            target == cut_picture(base@, cut),
            px@.len() == i,
            forall|k: int| 0 <= k < i ==> #[trigger] px@[k] == target.px[k],
        decreases n - i,
    {
        proof {
            lemma_position(w as int, h as int, i as int);
        }
        let x: usize = i % w;
        let y: usize = i / w;
        proof {
            assert((ry.0 + y) * base.w <= base.w * base.h) by (nonlinear_arith)
                requires
                    0 <= ry.0 + y <= base.h,
                    0 <= base.w,
            ;
            assert(base.px.len() <= usize::MAX);
        }
        let start: usize = add_capped((ry.0 + y) * base.w, rx.0);
        let c: Rgba = if start <= base.px.len() && w <= base.px.len() - start {
            base.px[start + x]
        } else {
            Rgba { r: 0, g: 0, b: 0, a: 0 }
        };
        px.push(Color::from_rgba_unmultiplied(c.r, c.g, c.b, c.a));
        i += 1;
    }
    let out = Raster { w, h, px };
    assert(out@ =~= target);
    Ok(out)
}

/// The alpha at which a mask pixel is previewed: 45 percent, but never nothing.
pub open spec fn preview_alpha(a: int) -> int {
    let v = (9 * a + 10) / 20;
    if v < 1 {
        1
    } else {
        v
    }
}

/// The preview of a mask in one colour.
pub open spec fn tinted(mask: Grid<Color>, r: u8, g: u8, b: u8) -> Grid<Color> {
    Grid {
        w: mask.w,
        h: mask.h,
        px: Seq::new(
            mask.px.len(),
            |i: int|
                if mask.px[i].a == 0 {
                    clear()
                } else {
                    premultiplied(Rgba { r, g, b, a: preview_alpha(mask.px[i].a as int) as u8 })
                },
        ),
    }
}

pub fn build_tinted_mask_preview(mask: &ColorImage, r: u8, g: u8, b: u8) -> (out: ColorImage)
    requires
        mask.wf(),
    ensures
        out.wf(),
        out@ == tinted(mask@, r, g, b),
{
    let n: usize = mask.px.len();
    let mut px: Vec<Color> = Vec::new();
    let mut i: usize = 0;
    let ghost target = tinted(mask@, r, g, b);
    while i < n
        invariant
            i <= n,
            n == mask@.px.len(),
            target == tinted(mask@, r, g, b),
            px@.len() == i,
            forall|k: int| 0 <= k < i ==> #[trigger] px@[k] == target.px[k],
        decreases n - i,
    {
        let a: u8 = mask.px[i].a;
        if a == 0 {
            px.push(Color::transparent());
        } else {
            let v: u32 = (9 * a as u32 + 10) / 20;
            let v: u8 = if v < 1 { 1 } else { v as u8 };
            px.push(Color::from_rgba_unmultiplied(r, g, b, v));
        }
        i += 1;
    }
    let out = Raster { w: mask.w, h: mask.h, px };
    assert(out@ =~= target);
    out
}

} // verus!
