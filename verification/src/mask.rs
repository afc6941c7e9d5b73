//! Binary masks: growing, scaling, and where they are stored.

use vstd::prelude::*;
use vstd::string::{StrSliceExecFns, StringExecFns};
use crate::color::{Color, ColorImage};
#[allow(unused_imports)]
use crate::color::clear;
use crate::raster::{Grid, Raster};
#[allow(unused_imports)]
use crate::raster::{grid_of, lemma_offset, lemma_position};
use crate::text::append_padded_decimal;
#[allow(unused_imports)]
use crate::text::padded_decimal;

verus! {

/// The mask is set at `(x, y)`.
pub open spec fn set_at(mask: Seq<u8>, w: int, h: int, x: int, y: int) -> bool {
    0 <= x < w && 0 <= y < h && mask[y * w + x] != 0
}

/// Some set pixel lies within `r` columns and `r` rows of `(x, y)`.
pub open spec fn set_within(mask: Seq<u8>, w: int, h: int, r: int, x: int, y: int) -> bool {
    exists|a: int, b: int|
        #[trigger] set_at(mask, w, h, a, b) && -r <= a - x <= r && -r <= b - y <= r
}

fn any_set_within(mask: &[u8], width: usize, height: usize, radius: usize, x: usize, y: usize) -> (b:
    bool)
    requires
        width * height <= mask@.len(),
        x < width,
        y < height,
    ensures
        b == set_within(mask@, width as int, height as int, radius as int, x as int, y as int),
{
    let x0: usize = if x > radius { x - radius } else { 0 };
    let y0: usize = if y > radius { y - radius } else { 0 };
    let x1: usize = if radius < width - 1 - x { x + radius } else { width - 1 };
    let y1: usize = if radius < height - 1 - y { y + radius } else { height - 1 };
    let mut b: usize = y0;
    let ghost w = width as int;
    let ghost h = height as int;
    while b <= y1
        invariant
            width * height <= mask@.len(),
            w == width,
            h == height,
            x < width,
            y < height,
            y0 <= b <= y1 + 1,
            x0 <= x <= x1 < width,
            y0 <= y <= y1 < height,
            x - x0 <= radius,
            x1 - x <= radius,
            y - y0 <= radius,
            y1 - y <= radius,
            forall|c: int, d: int|
                x0 <= c <= x1 && y0 <= d < b ==> !#[trigger] set_at(mask@, w, h, c, d),
        decreases y1 + 1 - b,
    {
        proof {
            lemma_offset(w, h, x0 as int, b as int);
            assert(mask.len() <= usize::MAX);
        }
        let row: usize = b * width;
        let mut a: usize = x0;
        while a <= x1
            invariant
                width * height <= mask@.len(),
                w == width,
                h == height,
                row == b * width,
                x0 <= a <= x1 + 1,
                y0 <= b <= y1,
                x0 <= x <= x1 < width,
                y0 <= y <= y1 < height,
                x - x0 <= radius,
                x1 - x <= radius,
                y - y0 <= radius,
                y1 - y <= radius,
                forall|c: int| x0 <= c < a ==> !#[trigger] set_at(mask@, w, h, c, b as int),
            decreases x1 + 1 - a,
        {
            proof {
                lemma_offset(w, h, a as int, b as int);
                assert(mask.len() <= usize::MAX);
            }
            if mask[row + a] != 0 {
                assert(set_at(mask@, w, h, a as int, b as int));
                return true;
            }
            a += 1;
        }
        b += 1;
    }
    assert forall|c: int, d: int| #[trigger] set_at(mask@, w, h, c, d) implies !(-radius <= c - x
        <= radius && -radius <= d - y <= radius) by {
    }
    false
}

/// Grows a mask by `radius` pixels in every direction.  Pixels past the rectangle stay clear.
pub fn dilate_binary_mask(mask: &[u8], width: usize, height: usize, radius: usize) -> (out: Vec<u8>)
    requires
        mask@.len() == 0 || width * height <= mask@.len(),
    ensures
        mask@.len() == 0 || width == 0 || height == 0 ==> out@.len() == 0,
        mask@.len() != 0 && width != 0 && height != 0 ==> out@.len() == mask@.len(),
        mask@.len() != 0 && width != 0 && height != 0 && radius == 0 ==> out@ == mask@,
        mask@.len() != 0 && width != 0 && height != 0 && radius > 0 ==> {
            let w = width as int;
            let h = height as int;
            &&& forall|x: int, y: int|
                0 <= x < w && 0 <= y < h ==> #[trigger] out@[y * w + x] == if set_within(
                    mask@,
                    w,
                    h,
                    radius as int,
                    x,
                    y,
                ) {
                    255u8
                } else {
                    0u8
                }
            &&& forall|i: int| w * h <= i < mask@.len() ==> #[trigger] out@[i] == 0
        },
{
    let mut out: Vec<u8> = Vec::new();
    if mask.len() == 0 || width == 0 || height == 0 {
        return out;
    }
    let ghost w = width as int;
    let ghost h = height as int;
    let n: usize = mask.len();
    proof {
        assert(n <= usize::MAX);
    }
    let total: usize = width * height;
    let mut i: usize = 0;
    while i < n
        invariant
            n == mask@.len(),
            i <= n,
            w == width,
            h == height,
            total == width * height,
            total <= n,
            out@.len() == i,
            radius == 0 ==> out@ == mask@.take(i as int),
            radius > 0 ==> forall|k: int|
                0 <= k < i ==> #[trigger] out@[k] == if k < total && set_within(
                    mask@,
                    w,
                    h,
                    radius as int,
                    k % w,
                    k / w,
                ) {
                    255u8
                } else {
                    0u8
                },
        decreases n - i,
    {
        if radius == 0 {
            out.push(mask[i]);
            assert(out@ =~= mask@.take(i + 1));
        } else if i < total {
            proof {
                lemma_position(w, h, i as int);
            }
            if any_set_within(mask, width, height, radius, i % width, i / width) {
                out.push(255);
            } else {
                out.push(0);
            }
        } else {
            out.push(0);
        }
        i += 1;
    }
    proof {
        assert(mask@.take(n as int) =~= mask@);
        if radius > 0 {
            assert forall|x: int, y: int| 0 <= x < w && 0 <= y < h implies #[trigger] out@[y * w + x]
                == if set_within(mask@, w, h, radius as int, x, y) {
                255u8
            } else {
                0u8
            } by {
                lemma_offset(w, h, x, y);
            }
        }
    }
    out
}

/// A product that stops at the largest machine number.
pub open spec fn capped(v: int) -> int {
    if v > usize::MAX {
        usize::MAX as int
    } else {
        v
    }
}

pub(crate) fn mul_capped(a: usize, b: usize) -> (r: usize)
    ensures
        r == capped(a * b),
{
    match a.checked_mul(b) {
        Some(v) => v,
        None => usize::MAX,
    }
}

pub(crate) fn add_capped(a: usize, b: usize) -> (r: usize)
    ensures
        r == capped(a + b),
{
    a.saturating_add(b)
}

/// The source column or row whose pixel is shown at `i` when `src` of them are scaled to `dst`.
pub open spec fn nearest(i: int, src: int, dst: int) -> int {
    capped(i * src) / dst
}

/// The offset of the source pixel that is shown at `(x, y)` of the scaled picture.
pub open spec fn nearest_offset(sw: int, sh: int, dw: int, dh: int, x: int, y: int) -> int {
    capped(capped(nearest(y, sh, dh) * sw) + nearest(x, sw, dw))
}

fn source_offset(sw: usize, sh: usize, dw: usize, dh: usize, x: usize, y: usize) -> (i: usize)
    requires
        dw > 0,
        dh > 0,
    ensures
        i == nearest_offset(sw as int, sh as int, dw as int, dh as int, x as int, y as int),
{
    let sy: usize = mul_capped(y, sh) / dh;
    let sx: usize = mul_capped(x, sw) / dw;
    add_capped(mul_capped(sy, sw), sx)
}

/// Scales a mask: every pixel shows the nearest source pixel, or nothing where there is none.
pub fn resize_binary_mask_nearest(
    src: &[u8],
    src_w: usize,
    src_h: usize,
    dst_w: usize,
    dst_h: usize,
) -> (out: Vec<u8>)
    requires
        dst_w * dst_h <= usize::MAX,
    ensures
        out@.len() == dst_w * dst_h,
        forall|x: int, y: int|
            0 <= x < dst_w && 0 <= y < dst_h ==> #[trigger] out@[y * dst_w + x] == {
                let i = nearest_offset(
                    src_w as int,
                    src_h as int,
                    dst_w as int,
                    dst_h as int,
                    x,
                    y,
                );
                if src_w == 0 || src_h == 0 || i >= src@.len() {
                    0u8
                } else {
                    src@[i]
                }
            },
{
    let n: usize = dst_w * dst_h;
    let mut out: Vec<u8> = Vec::new();
    let mut i: usize = 0;
    let ghost dw = dst_w as int;
    let ghost dh = dst_h as int;
    while i < n
        invariant
            i <= n,
            n == dst_w * dst_h,
            dw == dst_w,
            dh == dst_h,
            out@.len() == i,
            forall|k: int|
                0 <= k < i ==> #[trigger] out@[k] == {
                    let j = nearest_offset(src_w as int, src_h as int, dw, dh, k % dw, k / dw);
                    if src_w == 0 || src_h == 0 || j >= src@.len() {
                        0u8
                    } else {
                        src@[j]
                    }
                },
        decreases n - i,
    {
        proof {
            lemma_position(dw, dh, i as int);
        }
        let x: usize = i % dst_w;
        let y: usize = i / dst_w;
        let j: usize = source_offset(src_w, src_h, dst_w, dst_h, x, y);
        let v: u8 = if src_w == 0 || src_h == 0 || j >= src.len() { 0 } else { src[j] };
        out.push(v);
        i += 1;
    }
    proof {
        assert forall|x: int, y: int| 0 <= x < dst_w && 0 <= y < dst_h implies #[trigger] out@[y * dst_w
            + x] == {
            let i = nearest_offset(src_w as int, src_h as int, dw, dh, x, y);
            if src_w == 0 || src_h == 0 || i >= src@.len() {
                0u8
            } else {
                src@[i]
            }
        } by {
            lemma_offset(dw, dh, x, y);
        }
    }
    out
}

/// The picture scaled to `(w, h)`: every pixel shows the nearest source pixel, or nothing where
/// there is none.
pub open spec fn scaled(src: Grid<Color>, w: int, h: int) -> Grid<Color> {
    grid_of(
        w,
        h,
        |x: int, y: int|
            {
                let i = nearest_offset(src.w, src.h, w, h, x, y);
                if 0 <= i < src.px.len() {
                    src.px[i]
                } else {
                    clear()
                }
            },
    )
}

/// Scales a picture; one without pixels, or scaled to none, becomes a clear picture of at least
/// one pixel.
pub fn resize_color_image_nearest(src: &ColorImage, dst_w: usize, dst_h: usize) -> (out: ColorImage)
    requires
        dst_w * dst_h <= usize::MAX,
    ensures
        out.wf(),
        src.w == 0 || src.h == 0 || dst_w == 0 || dst_h == 0 ==> out@ == grid_of(
            if dst_w == 0 {
                1
            } else {
                dst_w as int
            },
            if dst_h == 0 {
                1
            } else {
                dst_h as int
            },
            |x: int, y: int| clear(),
        ),
        src.w != 0 && src.h != 0 && dst_w != 0 && dst_h != 0 ==> out@ == scaled(
            src@,
            dst_w as int,
            dst_h as int,
        ),
{
    if src.w == 0 || src.h == 0 || dst_w == 0 || dst_h == 0 {
        let w: usize = if dst_w == 0 { 1 } else { dst_w };
        let h: usize = if dst_h == 0 { 1 } else { dst_h };
        assert(w * h <= usize::MAX) by (nonlinear_arith)
            requires
                dst_w * dst_h <= usize::MAX,
                w == if dst_w == 0 { 1 } else { dst_w },
                h == if dst_h == 0 { 1 } else { dst_h },
        ;
        return Raster::filled(w, h, Color::transparent());
    }
    let n: usize = dst_w * dst_h;
    let mut px: Vec<Color> = Vec::new();
    let mut i: usize = 0;
    let ghost target = scaled(src@, dst_w as int, dst_h as int);
    while i < n
        invariant
            i <= n,
            n == dst_w * dst_h,
            dst_w > 0,
            dst_h > 0,
            target == scaled(src@, dst_w as int, dst_h as int),
            px@.len() == i,
            forall|k: int| 0 <= k < i ==> #[trigger] px@[k] == target.px[k],
        decreases n - i,
    {
        proof {
            lemma_position(dst_w as int, dst_h as int, i as int);
        }
        let j: usize = source_offset(src.w, src.h, dst_w, dst_h, i % dst_w, i / dst_w);
        let v: Color = if j < src.px.len() { src.px[j] } else { Color::transparent() };
        px.push(v);
        i += 1;
    }
    let out = Raster { w: dst_w, h: dst_h, px };
    assert(out@ =~= target);
    out
}

/// Where the mask of a page is stored in the folder `dir`.
pub open spec fn mask_file_path(dir: Seq<char>, page_idx: nat) -> Seq<char> {
    let name = padded_decimal(page_idx, 5) + "_mask.png"@;
    if dir.len() == 0 || dir.last() == '/' {
        dir + name
    } else {
        dir + "/"@ + name
    }
}

/// The path of the stored mask of a page: its number with five digits at least, in `dir`.
pub fn text_detection_mask_file_path(dir: &str, page_idx: usize) -> (path: String)
    ensures
        path@ == mask_file_path(dir@, page_idx as nat),
{
    let mut path = String::from_str(dir);
    let n: usize = dir.unicode_len();
    if n > 0 && dir.get_char(n - 1) != '/' {
        path.append("/");
    }
    append_padded_decimal(&mut path, page_idx, 5);
    path.append("_mask.png");
    assert(path@ =~= mask_file_path(dir@, page_idx as nat));
    path
}

} // verus!
