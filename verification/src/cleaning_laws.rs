//! What cleaning a page from a mask is for: how the regions and the patch relate to the mask, and
//! what the steps of a fill do to single pixels.

use vstd::prelude::*;
#[allow(unused_imports)]
use crate::autoclean::{
    bounds_in, dilated, clipped_to_bubble, grown, mask_fill, mostly_background, on, painted_fill,
    painted_mask, Bounds,
};
#[allow(unused_imports)]
use crate::color::{Color, Rgba};
#[allow(unused_imports)]
use crate::components::{
    breadth_first, has_parent, is_parent, is_root, label_value, lemma_has_root, lemma_roots, linked,
    marked, near8, roots, walk,
};
#[allow(unused_imports)]
use crate::mask::{nearest_offset, scaled, set_at, set_within};
#[allow(unused_imports)]
use crate::quick_clean::{
    cluster_mask, cluster_of, page_cleaned, page_mask, region_box, region_cleaned, region_text,
    regions_cleaned, window_of, Window,
};
#[allow(unused_imports)]
use crate::raster::{grid_of, lemma_grid_of, lemma_offset, Grid};
#[allow(unused_imports)]
use crate::quick_clean::TextMaskLoadPage;

verus! {

/// A mask of the size of the page is taken as it is: a pixel counts as text where the mask is not
/// quite clear, however faint.
pub proof fn a_fitting_mask_is_taken_as_it_is(mask: TextMaskLoadPage, w: int, h: int, i: int)
    requires
        mask.mask_size.0 == w,
        mask.mask_size.1 == h,
        0 <= i < mask.mask_alpha@.len(),
    ensures
        page_mask(mask, w, h).len() == mask.mask_alpha@.len(),
        page_mask(mask, w, h)[i] != 0 <==> mask.mask_alpha@[i] > 0,
        page_mask(mask, w, h)[i] == 0 || page_mask(mask, w, h)[i] == 255,
{
}

/// A mask of another size is stretched over the page: a page pixel counts as text where the mask
/// pixel at the same share of width and height is not quite clear.
pub proof fn another_mask_is_stretched(mask: TextMaskLoadPage, w: int, h: int, x: int, y: int)
    requires
        mask.mask_size.0 != w || mask.mask_size.1 != h,
        mask.mask_size.0 > 0,
        mask.mask_size.1 > 0,
        mask.mask_alpha@.len() == mask.mask_size.0 * mask.mask_size.1,
        mask.mask_alpha@.len() <= usize::MAX,
        w * mask.mask_size.0 <= usize::MAX,
        h * mask.mask_size.1 <= usize::MAX,
        0 <= x < w,
        0 <= y < h,
    ensures
        page_mask(mask, w, h).len() == w * h,
        ({
            let mw = mask.mask_size.0 as int;
            let mh = mask.mask_size.1 as int;
            let i = y * mh / h * mw + x * mw / w;
            &&& 0 <= i < mask.mask_alpha@.len()
            &&& page_mask(mask, w, h)[y * w + x] != 0 <==> mask.mask_alpha@[i] > 0
        }),
{
    let mw = mask.mask_size.0 as int;
    let mh = mask.mask_size.1 as int;
    lemma_offset(w, h, x, y);
    lemma_stretch(x, w, mw);
    lemma_stretch(y, h, mh);
    lemma_offset(mw, mh, x * mw / w, y * mh / h);
    assert(nearest_offset(mw, mh, w, h, x, y) == y * mh / h * mw + x * mw / w);
}

proof fn lemma_stretch(x: int, w: int, mw: int)
    requires
        0 <= x < w,
        0 < mw,
    ensures
        0 <= x * mw / w < mw,
        0 <= x * mw <= w * mw,
{
    assert(0 <= x * mw < w * mw) by (nonlinear_arith)
        requires
            0 <= x < w,
            0 < mw,
    ;
    assert(0 <= x * mw / w < mw) by (nonlinear_arith)
        requires
            0 <= x * mw < w * mw,
            0 < w,
    ;
}

/// Scaling takes each pixel from the same share of width and height of the source.
pub proof fn scaling_takes_the_nearest(src: Grid<Color>, w: int, h: int, x: int, y: int)
    requires
        src.valid(),
        src.w > 0,
        src.h > 0,
        src.px.len() <= usize::MAX,
        w * src.w <= usize::MAX,
        h * src.h <= usize::MAX,
        0 <= x < w,
        0 <= y < h,
    ensures
        scaled(src, w, h).w == w,
        scaled(src, w, h).h == h,
        scaled(src, w, h).px[y * w + x] == src.px[y * src.h / h * src.w + x * src.w / w],
        w == src.w && h == src.h ==> scaled(src, w, h).px[y * w + x] == src.px[y * w + x],
{
    lemma_stretch(x, w, src.w);
    lemma_stretch(y, h, src.h);
    lemma_offset(src.w, src.h, x * src.w / w, y * src.h / h);
    let f = |a: int, b: int|
        {
            let i = nearest_offset(src.w, src.h, w, h, a, b);
            if 0 <= i < src.px.len() {
                src.px[i]
            } else {
                crate::color::clear()
            }
        };
    lemma_grid_of(w, h, f);
    assert(scaled(src, w, h) == grid_of(w, h, f));
    assert(scaled(src, w, h).at(x, y) == f(x, y));
    if w == src.w && h == src.h {
        assert(x * w / w == x && y * h / h == y) by (nonlinear_arith)
            requires
                0 < w,
                0 < h,
        ;
    }
}

/// A pixel belongs to a cluster where the mask is set at most four pixels away, also diagonally.
pub proof fn clusters_close_gaps(binary: Seq<u8>, w: int, h: int, x: int, y: int)
    requires
        binary.len() == w * h,
        0 <= x < w,
        0 <= y < h,
    ensures
        cluster_mask(binary, w, h).len() == binary.len(),
        cluster_mask(binary, w, h)[y * w + x] != 0 <==> exists|a: int, b: int|
            0 <= a < w && 0 <= b < h && x - 4 <= a <= x + 4 && y - 4 <= b <= y + 4 && #[trigger] binary[b
                * w + a] != 0,
{
    lemma_offset(w, h, x, y);
    let i = y * w + x;
    assert(0 <= i < binary.len());
    assert(i % w == x && i / w == y);
    if cluster_mask(binary, w, h)[i] != 0 {
        let (a, b) = choose|a: int, b: int| #[trigger]
            set_at(binary, w, h, a, b) && -4 <= a - x <= 4 && -4 <= b - y <= 4;
        assert(set_at(binary, w, h, a, b));
        assert(binary[b * w + a] != 0);
    }
    assert forall|a: int, b: int|
        0 <= a < w && 0 <= b < h && x - 4 <= a <= x + 4 && y - 4 <= b <= y + 4 && #[trigger] binary[b
            * w + a] != 0 implies cluster_mask(binary, w, h)[i] != 0 by {
        assert(set_at(binary, w, h, a, b));
        assert(set_within(binary, w, h, 4, x, y));
    }
}

/// There is a region to clean where and only where a pixel of the mask is set.
pub proof fn regions_follow_the_mask(
    base: Grid<Rgba>,
    binary: Seq<u8>,
    w: int,
    h: int,
    spread_radius_px: int,
)
    requires
        binary.len() == w * h,
        0 < w,
        0 < h,
    ensures
        page_cleaned(base, binary, w, h, spread_radius_px).1 > 0 <==> exists|i: int|
            0 <= i < binary.len() && binary[i] != 0,
{
    let cm = cluster_mask(binary, w, h);
    let n = cm.len();
    lemma_roots(cm, w, n);
    assert(w * h > 0) by (nonlinear_arith)
        requires
            0 < w,
            0 < h,
    ;
    assert forall|i: int| 0 <= i < binary.len() && binary[i] != 0 implies roots(cm, w, n).len()
        > 0 by {
        lemma_position(w, h, i);
        assert(set_at(binary, w, h, i % w, i / w));
        assert(set_within(binary, w, h, 4, i % w, i / w));
        assert(marked(cm, i));
        let l = lemma_has_root(cm, w, n, i);
    }
    if roots(cm, w, n).len() > 0 {
        let r = roots(cm, w, n)[0];
        assert(is_root(cm, w, r));
        assert(set_within(binary, w, h, 4, r % w, r / w));
        let (a, b) = choose|a: int, b: int| #[trigger]
            set_at(binary, w, h, a, b) && -4 <= a - r % w <= 4 && -4 <= b - r / w <= 4;
        lemma_offset(w, h, a, b);
        assert(binary[b * w + a] != 0);
    }
}

proof fn lemma_position(w: int, h: int, i: int)
    requires
        0 < w,
        0 <= i < w * h,
    ensures
        0 <= i % w < w,
        0 <= i / w < h,
        i / w * w + i % w == i,
{
    vstd::arithmetic::div_mod::lemma_fundamental_div_mod(i, w);
    assert(0 <= i / w < h && i / w * w == w * (i / w)) by (nonlinear_arith)
        requires
            0 < w,
            0 <= i < w * h,
    ;
}

/// Cleaning looks at a mask only to see which pixels are set, not at how strongly.
pub proof fn cleaning_sees_set_pixels_only(
    base: Grid<Rgba>,
    one: Seq<u8>,
    two: Seq<u8>,
    w: int,
    h: int,
    spread_radius_px: int,
)
    requires
        one.len() == two.len(),
        one.len() == 0 || one.len() == w * h,
        0 <= w,
        0 <= h,
        forall|i: int| 0 <= i < one.len() ==> (#[trigger] one[i] == 0 <==> two[i] == 0),
    ensures
        page_cleaned(base, one, w, h, spread_radius_px) == page_cleaned(
            base,
            two,
            w,
            h,
            spread_radius_px,
        ),
{
    if one.len() > 0 && w > 0 && h > 0 {
        let cm = cluster_mask(one, w, h);
        lemma_same_clusters(one, two, w, h);
        assert(cm == cluster_mask(two, w, h));
        let total = roots(cm, w, cm.len()).len();
        lemma_same_regions(
            base,
            one,
            two,
            w,
            h,
            crate::quick_clean::spread_radius(spread_radius_px),
            cm,
            total,
        );
    }
}

proof fn lemma_same_clusters(one: Seq<u8>, two: Seq<u8>, w: int, h: int)
    requires
        one.len() == two.len(),
        one.len() == w * h,
        0 < w,
        0 < h,
        forall|i: int| 0 <= i < one.len() ==> (#[trigger] one[i] == 0 <==> two[i] == 0),
    ensures
        cluster_mask(one, w, h) == cluster_mask(two, w, h),
{
    assert forall|a: int, b: int| #[trigger]
        set_at(one, w, h, a, b) == set_at(two, w, h, a, b) by {
        if 0 <= a < w && 0 <= b < h {
            lemma_offset(w, h, a, b);
            assert(one[b * w + a] == 0 <==> two[b * w + a] == 0);
        }
    }
    assert forall|x: int, y: int| #[trigger]
        set_within(one, w, h, 4, x, y) == set_within(two, w, h, 4, x, y) by {
        if set_within(one, w, h, 4, x, y) {
            let (a, b) = choose|a: int, b: int| #[trigger]
                set_at(one, w, h, a, b) && -4 <= a - x <= 4 && -4 <= b - y <= 4;
            assert(set_at(two, w, h, a, b));
        }
        if set_within(two, w, h, 4, x, y) {
            let (a, b) = choose|a: int, b: int| #[trigger]
                set_at(two, w, h, a, b) && -4 <= a - x <= 4 && -4 <= b - y <= 4;
            assert(set_at(one, w, h, a, b));
        }
    }
    assert(cluster_mask(one, w, h) =~= cluster_mask(two, w, h));
}

proof fn lemma_same_regions(
    base: Grid<Rgba>,
    one: Seq<u8>,
    two: Seq<u8>,
    w: int,
    h: int,
    radius: int,
    cm: Seq<u8>,
    n: nat,
)
    requires
        one.len() == two.len(),
        one.len() == w * h,
        0 < w,
        0 < h,
        forall|i: int| 0 <= i < one.len() ==> (#[trigger] one[i] == 0 <==> two[i] == 0),
    ensures
        regions_cleaned(base, one, w, h, radius, cm, n) == regions_cleaned(
            base,
            two,
            w,
            h,
            radius,
            cm,
            n,
        ),
    decreases n,
{
    if n > 0 {
        lemma_same_regions(base, one, two, w, h, radius, cm, (n - 1) as nat);
        let before = regions_cleaned(base, one, w, h, radius, cm, (n - 1) as nat);
        let start = roots(cm, w, cm.len())[n - 1];
        let cluster = cluster_of(cm, w, h, start);
        let win = window_of(bounds_in(cluster), w, h, radius);
        let f = |x: int, y: int|
            if cluster(win.ox + x, win.oy + y) && one[(win.oy + y) * w + (win.ox + x)] != 0 {
                255u8
            } else {
                0u8
            };
        let g = |x: int, y: int|
            if cluster(win.ox + x, win.oy + y) && two[(win.oy + y) * w + (win.ox + x)] != 0 {
                255u8
            } else {
                0u8
            };
        assert forall|x: int, y: int| #[trigger] f(x, y) == g(x, y) by {
            let a = win.ox + x;
            let b = win.oy + y;
            if 0 <= a < w && 0 <= b < h {
                lemma_offset(w, h, a, b);
                assert(one[b * w + a] == 0 <==> two[b * w + a] == 0);
            }
        }
        assert(grid_of(win.cw, win.ch, f).px =~= grid_of(win.cw, win.ch, g).px);
        assert(region_text(one, w, cluster, win) == grid_of(win.cw, win.ch, f));
        assert(region_text(two, w, cluster, win) == grid_of(win.cw, win.ch, g));
        assert(region_text(one, w, cluster, win) == region_text(two, w, cluster, win));
        assert(region_cleaned(base, one, w, h, radius, cluster, before.0) == region_cleaned(
            base,
            two,
            w,
            h,
            radius,
            cluster,
            before.0,
        ));
    }
}

/// Cleaning a page with a mask of its size is cleaning it with what the mask holds, and finds a
/// region where and only where the mask is not clear.
pub proof fn a_page_is_cleaned_by_its_mask(
    base: Grid<Rgba>,
    mask: TextMaskLoadPage,
    w: int,
    h: int,
    spread_radius_px: int,
)
    requires
        mask.mask_size.0 == w,
        mask.mask_size.1 == h,
        mask.mask_alpha@.len() == w * h,
        0 < w,
        0 < h,
    ensures
        page_cleaned(base, page_mask(mask, w, h), w, h, spread_radius_px) == page_cleaned(
            base,
            mask.mask_alpha@,
            w,
            h,
            spread_radius_px,
        ),
        page_cleaned(base, page_mask(mask, w, h), w, h, spread_radius_px).1 > 0 <==> exists|i: int|
            0 <= i < mask.mask_alpha@.len() && mask.mask_alpha@[i] > 0,
{
    let m = page_mask(mask, w, h);
    assert forall|i: int| 0 <= i < m.len() implies (#[trigger] m[i] == 0 <==> mask.mask_alpha@[i]
        == 0) by {
        a_fitting_mask_is_taken_as_it_is(mask, w, h, i);
    }
    cleaning_sees_set_pixels_only(base, m, mask.mask_alpha@, w, h, spread_radius_px);
    regions_follow_the_mask(base, mask.mask_alpha@, w, h, spread_radius_px);
}

/// Pixels of a mask that touch, also diagonally, belong together, and a component starts at its
/// first pixel: each set pixel belongs to a start that is listed, and two starts never belong
/// together.
pub proof fn touching_pixels_belong_together(mask: Seq<u8>, w: int, h: int, x: int, y: int)
    requires
        mask.len() == w * h,
        0 <= x < w,
        0 <= y < h,
        mask[y * w + x] != 0,
    ensures
        forall|a: int, b: int|
            0 <= a < w && 0 <= b < h && x - 1 <= a <= x + 1 && y - 1 <= b <= y + 1 && #[trigger] mask[b
                * w + a] != 0 ==> linked(mask, w, y * w + x, b * w + a),
        exists|l: int|
            0 <= l < roots(mask, w, mask.len()).len() && linked(
                mask,
                w,
                #[trigger] roots(mask, w, mask.len())[l],
                y * w + x,
            ),
        forall|l: int, k: int|
            0 <= l < k < roots(mask, w, mask.len()).len() ==> {
                &&& #[trigger] roots(mask, w, mask.len())[l] < #[trigger] roots(
                    mask,
                    w,
                    mask.len(),
                )[k]
                &&& !linked(
                    mask,
                    w,
                    roots(mask, w, mask.len())[l],
                    roots(mask, w, mask.len())[k],
                )
            },
{
    lemma_offset(w, h, x, y);
    let i = y * w + x;
    assert forall|a: int, b: int|
        0 <= a < w && 0 <= b < h && x - 1 <= a <= x + 1 && y - 1 <= b <= y + 1 && #[trigger] mask[b
            * w + a] != 0 implies linked(mask, w, i, b * w + a) by {
        lemma_offset(w, h, a, b);
        let p = seq![i, b * w + a];
        assert(p.last() == b * w + a);
        assert forall|u: int, v: int| 0 <= u && v == u + 1 && v < p.len() implies near8(
            w,
            #[trigger] p[u],
            #[trigger] p[v],
        ) by {
            assert(u == 0 && v == 1);
        }
        assert(walk(mask, w, p, i, b * w + a));
    }
    let l = lemma_has_root(mask, w, mask.len(), i);
    assert(linked(mask, w, roots(mask, w, mask.len())[l], i));
    lemma_roots_ordered(mask, w, mask.len());
    lemma_roots(mask, w, mask.len());
    let r = roots(mask, w, mask.len());
    assert forall|l: int, k: int| 0 <= l < k < r.len() implies {
        &&& #[trigger] r[l] < #[trigger] r[k]
        &&& !linked(mask, w, r[l], r[k])
    } by {
        assert(is_root(mask, w, r[k]));
        assert(is_root(mask, w, r[l]));
    }
}

proof fn lemma_roots_ordered(mask: Seq<u8>, w: int, n: nat)
    ensures
        forall|l: int, k: int|
            0 <= l < k < roots(mask, w, n).len() ==> #[trigger] roots(mask, w, n)[l]
                < #[trigger] roots(mask, w, n)[k],
    decreases n,
{
    if n > 0 {
        lemma_roots_ordered(mask, w, (n - 1) as nat);
        lemma_roots(mask, w, (n - 1) as nat);
    }
}

/// Two pixels belong to one component only where a chain of set pixels leads from one to the other,
/// each beside the next or diagonal to it.
pub proof fn belonging_together_means_a_chain(mask: Seq<u8>, w: int, i: int, j: int)
    requires
        linked(mask, w, i, j),
    ensures
        exists|p: Seq<int>|
            {
                &&& p.len() > 0
                &&& #[trigger] p[0] == i
                &&& p[p.len() - 1] == j
                &&& forall|a: int|
                    0 <= a < p.len() ==> 0 <= #[trigger] p[a] < mask.len() && mask[p[a]] != 0
                &&& forall|a: int, b: int|
                    0 <= a && b == a + 1 && b < p.len() ==> {
                        &&& -1 <= #[trigger] p[a] % w - #[trigger] p[b] % w <= 1
                        &&& -1 <= p[a] / w - p[b] / w <= 1
                    }
            },
{
    let p = choose|p: Seq<int>| walk(mask, w, p, i, j);
    assert(p[0] == i);
    assert forall|a: int| 0 <= a < p.len() implies 0 <= #[trigger] p[a] < mask.len() && mask[p[a]]
        != 0 by {
        assert(marked(mask, p[a]));
    }
    assert forall|a: int, b: int| 0 <= a && b == a + 1 && b < p.len() implies {
        &&& -1 <= #[trigger] p[a] % w - #[trigger] p[b] % w <= 1
        &&& -1 <= p[a] / w - p[b] / w <= 1
    } by {
        assert(near8(w, p[a], p[b]));
    }
}

/// The window round a region reaches six pixels farther than the radius, which is never more than
/// 128, on every side, as far as the page goes.
pub proof fn windows_leave_room(b: Bounds, w: int, h: int, radius: int, px: int, x: int, y: int)
    requires
        0 <= radius,
        b.x1 < b.x2 <= w,
        b.y1 < b.y2 <= h,
    ensures
        ({
            let win = window_of(b, w, h, radius);
            (win.ox <= x < win.ox + win.cw && win.oy <= y < win.oy + win.ch) <==> (0 <= x < w && 0
                <= y < h && b.x1 - radius - 6 <= x < b.x2 + radius + 6 && b.y1 - radius - 6 <= y
                < b.y2 + radius + 6)
        }),
        crate::quick_clean::spread_radius(px) == if px < 128 {
            px
        } else {
            128
        },
{
}

/// In the window of a region the text is what the mask sets in that region, and the box is the
/// bounds of the region.
pub proof fn regions_are_seen_alone(
    binary: Seq<u8>,
    w: int,
    cluster: spec_fn(int, int) -> bool,
    b: Bounds,
    win: Window,
    x: int,
    y: int,
)
    requires
        0 <= x < win.cw,
        0 <= y < win.ch,
    ensures
        region_text(binary, w, cluster, win).w == win.cw,
        region_text(binary, w, cluster, win).h == win.ch,
        region_text(binary, w, cluster, win).px[y * win.cw + x] != 0 <==> cluster(
            win.ox + x,
            win.oy + y,
        ) && binary[(win.oy + y) * w + (win.ox + x)] != 0,
        region_box(b, win).w == win.cw,
        region_box(b, win).h == win.ch,
        region_box(b, win).px[y * win.cw + x] != 0 <==> b.x1 <= win.ox + x < b.x2 && b.y1 <= win.oy
            + y < b.y2,
{
    let f = |a: int, c: int|
        if cluster(win.ox + a, win.oy + c) && binary[(win.oy + c) * w + (win.ox + a)] != 0 {
            255u8
        } else {
            0u8
        };
    lemma_grid_of(win.cw, win.ch, f);
    assert(region_text(binary, w, cluster, win) == grid_of(win.cw, win.ch, f));
    assert(region_text(binary, w, cluster, win).at(x, y) == f(x, y));
    let g = |a: int, c: int|
        if crate::autoclean::in_box(
            b.x1 - win.ox,
            b.y1 - win.oy,
            b.x2 - win.ox,
            b.y2 - win.oy,
            a,
            c,
        ) {
            255u8
        } else {
            0u8
        };
    lemma_grid_of(win.cw, win.ch, g);
    assert(region_box(b, win) == grid_of(win.cw, win.ch, g));
    assert(region_box(b, win).at(x, y) == g(x, y));
}

/// The pixels of a region are those that a chain of set pixels joins to where it starts.
pub proof fn a_region_is_one_component(cm: Seq<u8>, w: int, h: int, start: int, x: int, y: int)
    ensures
        cluster_of(cm, w, h, start)(x, y) <==> 0 <= x < w && 0 <= y < h && linked(
            cm,
            w,
            start,
            y * w + x,
        ),
{
}

/// How a region is filled.  Where its text can be filled, it is: along the text once the fill had
/// to give way, else as a box.  Where it cannot, its box is grown until the pixels round it are
/// even, and filled only where most of it is background.  Where neither goes, the patch stays.
pub proof fn regions_are_filled_in_turn(
    base: Grid<Rgba>,
    binary: Seq<u8>,
    w: int,
    h: int,
    radius: int,
    cluster: spec_fn(int, int) -> bool,
    patch: Grid<Color>,
)
    requires
        0 < radius,
    ensures
        ({
            let b = bounds_in(cluster);
            let win = window_of(b, w, h, radius);
            let rgb = crate::autoclean::cropped(base, win.ox, win.oy, win.cw, win.ch);
            let text = region_text(binary, w, cluster, win);
            let fill = mask_fill(rgb, text, radius, radius, radius);
            let even = grown(
                rgb,
                region_box(b, win),
                radius as nat,
                radius as nat,
                radius,
                false,
            );
            let out = region_cleaned(base, binary, w, h, radius, cluster, patch);
            &&& fill is Some && (fill->0).2 ==> out == (
                painted_mask(patch, win.ox, win.oy, (fill->0).0, (fill->0).1),
                true,
            )
            &&& fill is Some && !(fill->0).2 ==> out == (
                painted_fill(patch, win.ox, win.oy, (fill->0).0, (fill->0).1),
                true,
            )
            &&& fill is None && even.0 is None ==> out == (patch, false)
            &&& fill is None && even.0 is Some ==> {
                let bg = (even.0->0).0;
                let open = mostly_background(
                    rgb,
                    b.x1 - win.ox,
                    b.y1 - win.oy,
                    b.x2 - win.ox,
                    b.y2 - win.oy,
                    bg,
                );
                &&& !open ==> out == (patch, false)
                &&& open ==> out == (
                    painted_mask(
                        patch,
                        win.ox,
                        win.oy,
                        clipped_to_bubble(dilated(even.1, 2), rgb, text, bg),
                        bg,
                    ),
                    true,
                )
            }
        }),
{
}

/// The regions of a page are cleaned one after the other, from the first to the last, starting
/// with a clear patch of the size of the page; the count goes up by one for each that was filled.
pub proof fn regions_add_up(
    base: Grid<Rgba>,
    binary: Seq<u8>,
    w: int,
    h: int,
    radius: int,
    cm: Seq<u8>,
    n: nat,
    x: int,
    y: int,
)
    requires
        0 <= x < w,
        0 <= y < h,
    ensures
        ({
            let none = regions_cleaned(base, binary, w, h, radius, cm, 0);
            let before = regions_cleaned(base, binary, w, h, radius, cm, n);
            let after = regions_cleaned(base, binary, w, h, radius, cm, n + 1);
            let start = roots(cm, w, cm.len())[n as int];
            let now = region_cleaned(
                base,
                binary,
                w,
                h,
                radius,
                cluster_of(cm, w, h, start),
                before.0,
            );
            &&& none.1 == 0
            &&& none.0.w == w && none.0.h == h
            &&& none.0.px[y * w + x] == (Color { r: 0, g: 0, b: 0, a: 0 })
            &&& after.0 == now.0
            &&& now.1 ==> after.1 == before.1 + 1
            &&& !now.1 ==> after.1 == before.1
        }),
{
    let f = |a: int, b: int| crate::color::clear();
    lemma_grid_of(w, h, f);
    assert(regions_cleaned(base, binary, w, h, radius, cm, 0).0 == grid_of(w, h, f));
    assert(grid_of(w, h, f).at(x, y) == f(x, y));
}

/// A page is cleaned region by region: all of them, and without a mask none.
pub proof fn a_page_is_all_its_regions(
    base: Grid<Rgba>,
    binary: Seq<u8>,
    w: int,
    h: int,
    spread_radius_px: int,
)
    requires
        0 <= w,
        0 <= h,
    ensures
        ({
            let out = page_cleaned(base, binary, w, h, spread_radius_px);
            let radius = if spread_radius_px < 128 {
                spread_radius_px
            } else {
                128
            };
            let cm = cluster_mask(binary, w, h);
            let starts = roots(cm, w, cm.len());
            &&& binary.len() == 0 || w == 0 || h == 0 ==> out.1 == 0 && out.2 == 0
            &&& binary.len() > 0 && w > 0 && h > 0 ==> {
                &&& out.1 == starts.len()
                &&& out.0 == regions_cleaned(base, binary, w, h, radius, cm, starts.len()).0
                &&& out.2 == regions_cleaned(base, binary, w, h, radius, cm, starts.len()).1
            }
        }),
{
}

/// Where a mask of another size has no pixel for a page pixel, that pixel does not count as text, and
/// so where the mask has no extent.
pub proof fn short_masks_are_clear_beyond(mask: TextMaskLoadPage, w: int, h: int, x: int, y: int)
    requires
        mask.mask_size.0 != w || mask.mask_size.1 != h,
        w * mask.mask_size.0 <= usize::MAX,
        h * mask.mask_size.1 <= usize::MAX,
        mask.mask_size.0 * mask.mask_size.1 <= usize::MAX,
        0 <= x < w,
        0 <= y < h,
    ensures
        ({
            let mw = mask.mask_size.0 as int;
            let mh = mask.mask_size.1 as int;
            let i = y * mh / h * mw + x * mw / w;
            mw == 0 || mh == 0 || i >= mask.mask_alpha@.len() ==> page_mask(mask, w, h)[y * w + x]
                == 0
        }),
{
    let mw = mask.mask_size.0 as int;
    let mh = mask.mask_size.1 as int;
    lemma_offset(w, h, x, y);
    if mw > 0 && mh > 0 {
        lemma_stretch(x, w, mw);
        lemma_stretch(y, h, mh);
        lemma_offset(mw, mh, x * mw / w, y * mh / h);
        assert(nearest_offset(mw, mh, w, h, x, y) == y * mh / h * mw + x * mw / w);
    }
}

/// A component is listed from its start on, each of its pixels once and no other; each but the first
/// touches one that comes before it, and those that touch an earlier one come before those that
/// touch only a later one, in the order of the page among themselves.
pub proof fn components_are_listed_from_their_start(
    mask: Seq<u8>,
    w: int,
    seed: int,
    s: Seq<usize>,
    i: int,
    a: int,
    b: int,
    p: int,
    q: int,
)
    requires
        breadth_first(mask, w, seed, s),
        0 <= i < mask.len() <= usize::MAX,
        1 <= a < b < s.len(),
        0 <= p < a,
        touch(w, s[p] as int, s[a] as int),
        forall|k: int| 0 <= k < p ==> !touch(w, #[trigger] s[k] as int, s[a] as int),
        0 <= q < b,
        touch(w, s[q] as int, s[b] as int),
        forall|k: int| 0 <= k < q ==> !touch(w, #[trigger] s[k] as int, s[b] as int),
    ensures
        s[0] == seed,
        s[a] != s[b],
        s.contains(i as usize) <==> linked(mask, w, seed, i),
        s[a] < mask.len(),
        p < q || (p == q && s[a] < s[b]),
{
    assert forall|k: int| 0 <= k < p implies !near8(w, #[trigger] s[k] as int, s[a] as int) by {
        assert(!touch(w, s[k] as int, s[a] as int));
    }
    assert forall|k: int| 0 <= k < q implies !near8(w, #[trigger] s[k] as int, s[b] as int) by {
        assert(!touch(w, s[k] as int, s[b] as int));
    }
    assert(is_parent(w, s, a, p));
    assert(is_parent(w, s, b, q));
    assert(linked(mask, w, seed, i) <==> s.contains(i as usize));
}

/// Each listed pixel but the first touches one that comes before it.
pub proof fn listed_pixels_touch_earlier_ones(
    mask: Seq<u8>,
    w: int,
    seed: int,
    s: Seq<usize>,
    a: int,
)
    requires
        breadth_first(mask, w, seed, s),
        1 <= a < s.len(),
    ensures
        exists|p: int| 0 <= p < a && touch(w, #[trigger] s[p] as int, s[a] as int),
{
    assert(has_parent(w, s, a));
    let p = choose|p: int| is_parent(w, s, a, p);
    assert(touch(w, s[p] as int, s[a] as int));
}

/// Two pixels touch, also diagonally.
pub open spec fn touch(w: int, i: int, j: int) -> bool {
    &&& -1 <= i % w - j % w <= 1
    &&& -1 <= i / w - j / w <= 1
}

/// Components are numbered in their order, as far as the numbers reach.
pub proof fn components_are_numbered(l: int)
    ensures
        l <= 0x7FFF_FFFF ==> label_value(l) == l,
        l > 0x7FFF_FFFF ==> label_value(l) == 0x7FFF_FFFF,
{
}

} // verus!
