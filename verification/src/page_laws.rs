//! What putting layers together, cutting, merging and storing are for: how the results relate to
//! the pixels and fields that went in.

use vstd::prelude::*;
#[allow(unused_imports)]
use vstd::arithmetic::power2::{lemma2_to64, lemma_pow2_unfold, pow2};
#[allow(unused_imports)]
use crate::color::Color;
#[allow(unused_imports)]
use crate::composite::{
    any_selected, chosen_stacked, clearing_keeps_the_rest, clip_picture, clip_placement, cut_layers,
    images_of, opt_places, painted_over, places_of, sampled, selected, stacked, tight, LayerMaps,
    LocalPixel, Places, SelectionBounds,
};
#[allow(unused_imports)]
use crate::float_bits::{half_pattern, leading_exponent, leading_power};
#[allow(unused_imports)]
use crate::ident::{texts, uid_text};
#[allow(unused_imports)]
use crate::layer_doc::meta_views;
#[allow(unused_imports)]
use crate::layer_ops::{
    merge_edits, merged_pixels, stored_forms, stored_groups, stored_views, stores, PageSave,
};
#[allow(unused_imports)]
use crate::layers::{
    group_id_from, layer_from, lemma_group_id_from, lemma_layer_from, GroupView, Layer, LayerId,
    LayerKind, LayerView, StackView,
};
#[allow(unused_imports)]
use crate::raster::{grid_of, lemma_grid_of, Grid};
#[allow(unused_imports)]
use crate::raster_edits::DocEditView;
#[allow(unused_imports)]
use crate::ratio::{round24, unit24};

verus! {

/// Each channel of a pixel painted over another comes from that channel alone: what is painted,
/// and as much of what lies below as shows through, but never more than the most.
pub proof fn channels_blend_apart(src: Color, dst: Color)
    ensures
        ({
            let out = painted_over(src, dst);
            let through = 255 - src.a;
            let red = src.r + dst.r * through / 255;
            let green = src.g + dst.g * through / 255;
            let blue = src.b + dst.b * through / 255;
            let alpha = src.a + dst.a * through / 255;
            &&& src.a == 255 ==> out == src
            &&& src.a == 0 ==> out == dst
            &&& 0 < src.a < 255 ==> {
                &&& out.r == if red < 255 { red } else { 255 }
                &&& out.g == if green < 255 { green } else { 255 }
                &&& out.b == if blue < 255 { blue } else { 255 }
                &&& out.a == if alpha < 255 { alpha } else { 255 }
            }
        }),
{
    let t = 255 - src.a;
    assert(0 <= dst.r * t / 255 && 0 <= dst.g * t / 255 && 0 <= dst.b * t / 255 && 0 <= dst.a * t
        / 255) by (nonlinear_arith)
        requires
            0 <= dst.r,
            0 <= dst.g,
            0 <= dst.b,
            0 <= dst.a,
            0 <= t,
    ;
}

/// Painting darkens what lies below only as far as the painted pixel covers it: black lets no
/// channel grow, and exchanging two channels of both pixels exchanges them in the result.
pub proof fn blending_treats_channels_alike(src: Color, dst: Color)
    ensures
        ({
            let out = painted_over(src, dst);
            let turned = painted_over(
                Color { r: src.g, g: src.b, b: src.r, a: src.a },
                Color { r: dst.g, g: dst.b, b: dst.r, a: dst.a },
            );
            &&& turned == (Color { r: out.g, g: out.b, b: out.r, a: out.a })
            &&& src.r == 0 ==> out.r <= dst.r
            &&& src.g == 0 ==> out.g <= dst.g
            &&& src.b == 0 ==> out.b <= dst.b
            &&& out.a >= src.a
            &&& out.a >= dst.a - src.a
        }),
{
    let t = 255 - src.a;
    assert(dst.r * t / 255 <= dst.r && dst.g * t / 255 <= dst.g && dst.b * t / 255 <= dst.b
        && dst.a * t / 255 >= dst.a - src.a && dst.a * t / 255 >= 0) by (nonlinear_arith)
        requires
            0 <= dst.r,
            0 <= dst.g,
            0 <= dst.b,
            0 <= dst.a <= 255,
            t == 255 - src.a,
            0 <= t <= 255,
    ;
    channels_blend_apart(src, dst);
}

/// A page pixel shows the pixel of the picture that it falls on, and nothing where it falls on
/// none.
pub proof fn pixels_come_from_their_places(
    image: Grid<Color>,
    places: Grid<Option<LocalPixel>>,
    x: int,
    y: int,
)
    ensures
        ({
            let on_map = 0 <= x < places.w && 0 <= y < places.h;
            let p = places.px[y * places.w + x];
            sampled(image, places, x, y) == if on_map && p is Some && (p->0).x < image.w && (p->0).y
                < image.h {
                image.px[(p->0).y * image.w + (p->0).x]
            } else {
                Color { r: 0, g: 0, b: 0, a: 0 }
            }
        }),
{
}

/// Layers are put together from the bottom to the top: the topmost is painted over what the others
/// show.  One that is opaque at a pixel hides the others there, one that is clear there changes
/// nothing, and a single layer shows itself.
pub proof fn upper_layers_hide_lower_ones(
    images: Seq<Grid<Color>>,
    places: Seq<Grid<Option<LocalPixel>>>,
    n: int,
    x: int,
    y: int,
)
    requires
        1 <= n <= images.len(),
        images.len() == places.len(),
    ensures
        ({
            let top = sampled(images[n - 1], places[n - 1], x, y);
            let rest = stacked(images, places, n - 1, x, y);
            let out = stacked(images, places, n, x, y);
            &&& out == painted_over(top, rest)
            &&& top.a == 255 ==> out == top
            &&& top.a == 0 ==> out == rest
            &&& n == 1 && top.a > 0 ==> out == top
            &&& stacked(images, places, 0, x, y) == (Color { r: 0, g: 0, b: 0, a: 0 })
        }),
{
    channels_blend_apart(
        sampled(images[n - 1], places[n - 1], x, y),
        stacked(images, places, n - 1, x, y),
    );
    assert(forall|t: int| #![trigger 0u8 * t] 0u8 * t == 0) by (nonlinear_arith);
    let top = sampled(images[n - 1], places[n - 1], x, y);
    let rest = stacked(images, places, n - 1, x, y);
    if n == 1 {
        assert(rest == (Color { r: 0, g: 0, b: 0, a: 0 }));
        let t = 255 - top.a;
        assert(0 * t / 255 == 0) by (nonlinear_arith);
        assert(rest.r * t == 0 * t);
        assert(rest.g * t == 0 * t);
        assert(rest.b * t == 0 * t);
        assert(rest.a * t == 0 * t);
    }
}

/// The pixel of a layer falls on a selected pixel of the page.
pub open spec fn falls_on_selection(m: LayerMaps, mask: Grid<bool>, x: int, y: int) -> bool {
    match m.to_page {
        None => 0 <= x < mask.w && 0 <= y < mask.h && mask.px[y * mask.w + x],
        Some(g) => 0 <= x < g.w && 0 <= y < g.h && match g.px@[y * g.w + x] {
            Some(p) => p.x < mask.w && p.y < mask.h && mask.px[p.y * mask.w + p.x],
            None => false,
        },
    }
}

/// A cut clears, in every chosen layer that is the clean layer or a layer of the user without
/// effects, the pixels that fall on the selection, and marks the layer as changed.
pub proof fn a_cut_clears_the_selection(
    s: StackView,
    ids: Seq<LayerId>,
    maps: Seq<LayerMaps>,
    mask: Grid<bool>,
    n: int,
    k: int,
    i: int,
    x: int,
    y: int,
)
    requires
        s.valid(),
        0 <= k < n,
        0 <= i < s.layers.len(),
        s.layers[i].id == ids[k],
        s.layers[i].kind == LayerKind::Clean || (s.layers[i].kind == LayerKind::Raster
            && s.layers[i].effects.len() == 0),
        0 <= x < s.layers[i].image.w,
        0 <= y < s.layers[i].image.h,
        falls_on_selection(maps[k], mask, x, y),
    ensures
        ({
            let after = cut_layers(s.layers, ids, maps, mask, n)[i];
            &&& after.image.px[y * after.image.w + x] == (Color { r: 0, g: 0, b: 0, a: 0 })
            &&& after.pixels_dirty
        }),
    decreases n,
{
    let l = s.layers[i];
    assert(l.valid());
    lemma_cut_shape(s, ids, maps, mask, n - 1);
    let prev = cut_layers(s.layers, ids, maps, mask, n - 1);
    lemma_layer_from(prev, ids[n - 1], 0);
    let tp = opt_places(maps[n - 1].to_page);
    assert(prev[i].image.valid());
    clearing_keeps_the_rest(prev[i].image, mask, tp);
    let out = crate::composite::cleared(prev[i].image, mask, tp);
    assert(prev[i].image.inside(x, y));
    assert(out.at(x, y) == out.px[y * out.w + x]);
    if k < n - 1 {
        a_cut_clears_the_selection(s, ids, maps, mask, n - 1, k, i, x, y);
        assert(prev[i].image.at(x, y) == prev[i].image.px[y * prev[i].image.w + x]);
    } else {
        assert(layer_from(prev, ids[n - 1], 0) == Some(i)) by {
            let j = layer_from(prev, ids[n - 1], 0);
            assert(prev[i].id == ids[n - 1]);
            if j is Some && j->0 != i {
                assert(prev[j->0].id == s.layers[j->0].id);
            }
        }
        match maps[k].to_page {
            None => {
                assert(selected(mask, x, y));
            },
            Some(g) => {
                let gg = g@;
                assert(gg.at(x, y) == g.px@[y * g.w + x]);
                assert(selected(mask, (gg.at(x, y)->0).x as int, (gg.at(x, y)->0).y as int));
            },
        }
        assert(crate::composite::on_selection(mask, tp, x, y));
    }
}

proof fn lemma_cut_shape(
    s: StackView,
    ids: Seq<LayerId>,
    maps: Seq<LayerMaps>,
    mask: Grid<bool>,
    n: int,
)
    requires
        s.valid(),
        0 <= n,
    ensures
        cut_layers(s.layers, ids, maps, mask, n).len() == s.layers.len(),
        forall|j: int|
            0 <= j < s.layers.len() ==> {
                let a = #[trigger] cut_layers(s.layers, ids, maps, mask, n)[j];
                &&& a.image.valid()
                &&& a.image.same_size(s.layers[j].image)
                &&& a == (LayerView {
                    image: a.image,
                    pixels_dirty: a.pixels_dirty,
                    ..s.layers[j]
                })
            },
    decreases n,
{
    if n > 0 {
        lemma_cut_shape(s, ids, maps, mask, n - 1);
        let prev = cut_layers(s.layers, ids, maps, mask, n - 1);
        lemma_layer_from(prev, ids[n - 1], 0);
        assert forall|j: int| 0 <= j < s.layers.len() implies {
            let a = #[trigger] cut_layers(s.layers, ids, maps, mask, n)[j];
            &&& a.image.valid()
            &&& a.image.same_size(s.layers[j].image)
            &&& a == (LayerView { image: a.image, pixels_dirty: a.pixels_dirty, ..s.layers[j] })
        } by {
            assert(prev[j].image.valid());
            clearing_keeps_the_rest(prev[j].image, mask, opt_places(maps[n - 1].to_page));
        }
    } else {
        assert forall|j: int| 0 <= j < s.layers.len() implies (#[trigger] s.layers[j]).image.valid() by {
            assert(s.layers[j].valid());
        }
    }
}

/// A cut keeps every pixel that does not fall on the selection under any of the chosen layers'
/// maps, and leaves the scanned page, layers with effects and layers that were not chosen as they
/// are.  Of a layer it changes nothing but pixels and the mark that they changed.
pub proof fn a_cut_keeps_the_rest(
    s: StackView,
    ids: Seq<LayerId>,
    maps: Seq<LayerMaps>,
    mask: Grid<bool>,
    n: int,
    i: int,
)
    requires
        s.valid(),
        0 <= n,
        0 <= i < s.layers.len(),
    ensures
        ({
            let before = s.layers[i];
            let after = cut_layers(s.layers, ids, maps, mask, n)[i];
            &&& cut_layers(s.layers, ids, maps, mask, n).len() == s.layers.len()
            &&& before.kind == LayerKind::Source ==> after == before
            &&& before.kind == LayerKind::Raster && before.effects.len() > 0 ==> after == before
            &&& (forall|k: int| 0 <= k < n ==> #[trigger] ids[k] != before.id) ==> after == before
            &&& after == (LayerView {
                image: after.image,
                pixels_dirty: after.pixels_dirty,
                ..before
            })
            &&& after.image.w == before.image.w && after.image.h == before.image.h
            &&& forall|x: int, y: int|
                #![trigger after.image.px[y * after.image.w + x]]
                0 <= x < before.image.w && 0 <= y < before.image.h && (forall|k: int|
                    0 <= k < n && #[trigger] ids[k] == before.id ==> !falls_on_selection(
                        maps[k],
                        mask,
                        x,
                        y,
                    )) ==> after.image.px[y * after.image.w + x] == before.image.px[y
                    * before.image.w + x]
        }),
    decreases n,
{
    assert(s.layers[i].valid());
    lemma_cut_shape(s, ids, maps, mask, n);
    if n > 0 {
        a_cut_keeps_the_rest(s, ids, maps, mask, n - 1, i);
        lemma_cut_shape(s, ids, maps, mask, n - 1);
        let prev = cut_layers(s.layers, ids, maps, mask, n - 1);
        let before = s.layers[i];
        let after = cut_layers(s.layers, ids, maps, mask, n)[i];
        lemma_layer_from(prev, ids[n - 1], 0);
        let tp = opt_places(maps[n - 1].to_page);
        clearing_keeps_the_rest(prev[i].image, mask, tp);
        assert(prev[i].id == before.id);
        assert forall|x: int, y: int|
            #![trigger after.image.px[y * after.image.w + x]]
            0 <= x < before.image.w && 0 <= y < before.image.h && (forall|k: int|
                0 <= k < n && #[trigger] ids[k] == before.id ==> !falls_on_selection(
                    maps[k],
                    mask,
                    x,
                    y,
                )) implies after.image.px[y * after.image.w + x] == before.image.px[y
            * before.image.w + x] by {
            assert(prev[i].image.px[y * prev[i].image.w + x] == before.image.px[y * before.image.w
                + x]);
            assert(prev[i].image.inside(x, y));
            let out = crate::composite::cleared(prev[i].image, mask, tp);
            assert(out.at(x, y) == out.px[y * out.w + x]);
            assert(prev[i].image.at(x, y) == prev[i].image.px[y * prev[i].image.w + x]);
            if ids[n - 1] == before.id {
                assert(!falls_on_selection(maps[n - 1], mask, x, y));
                match maps[n - 1].to_page {
                    None => {},
                    Some(g) => {
                        assert(g@.at(x, y) == g.px@[y * g.w + x]);
                    },
                }
                assert(!crate::composite::on_selection(mask, tp, x, y));
            }
        }
    }
}

/// The picture that is clipped has the size of the bounds.  Where a pixel is selected it shows what
/// the chosen layers show there when they are put together in their order, and nothing elsewhere.
pub proof fn a_clip_shows_the_chosen_layers(
    layers: Seq<LayerView>,
    ids: Seq<LayerId>,
    maps: Seq<LayerMaps>,
    mask: Grid<bool>,
    b: SelectionBounds,
    at: Seq<int>,
    images: Seq<Grid<Color>>,
    places: Seq<Grid<Option<LocalPixel>>>,
    x: int,
    y: int,
)
    requires
        images.len() == ids.len(),
        places.len() == ids.len(),
        at.len() == ids.len(),
        forall|k: int|
            0 <= k < ids.len() ==> 0 <= #[trigger] at[k] < layers.len() && layers[at[k]].id == ids[k]
                && layers[at[k]].image == images[k],
        forall|k: int| 0 <= k < ids.len() ==> #[trigger] places[k] == maps[k].to_layer@,
        forall|i: int, j: int|
            0 <= i < j < layers.len() ==> (#[trigger] layers[i]).id != (#[trigger] layers[j]).id,
        b.min_x <= x <= b.max_x < mask.w,
        b.min_y <= y <= b.max_y < mask.h,
    ensures
        ({
            let clip = clip_picture(layers, ids, maps, mask, b);
            &&& clip.w == b.max_x - b.min_x + 1
            &&& clip.h == b.max_y - b.min_y + 1
            &&& clip.px[(y - b.min_y) * clip.w + (x - b.min_x)] == if mask.px[y * mask.w + x] {
                stacked(images, places, ids.len() as int, x, y)
            } else {
                Color { r: 0, g: 0, b: 0, a: 0 }
            }
        }),
{
    let w = b.max_x - b.min_x + 1;
    let h = b.max_y - b.min_y + 1;
    let f = |u: int, v: int|
        if selected(mask, b.min_x + u, b.min_y + v) {
            chosen_stacked(layers, ids, maps, ids.len() as int, b.min_x + u, b.min_y + v)
        } else {
            crate::color::clear()
        };
    lemma_grid_of(w, h, f);
    let clip = clip_picture(layers, ids, maps, mask, b);
    assert(clip == grid_of(w, h, f));
    assert(clip.at(x - b.min_x, y - b.min_y) == f(x - b.min_x, y - b.min_y));
    lemma_chosen_is_stacked(layers, ids, maps, at, images, places, ids.len() as int, x, y);
}

proof fn lemma_chosen_is_stacked(
    layers: Seq<LayerView>,
    ids: Seq<LayerId>,
    maps: Seq<LayerMaps>,
    at: Seq<int>,
    images: Seq<Grid<Color>>,
    places: Seq<Grid<Option<LocalPixel>>>,
    n: int,
    x: int,
    y: int,
)
    requires
        0 <= n <= ids.len(),
        images.len() == ids.len(),
        places.len() == ids.len(),
        at.len() == ids.len(),
        forall|k: int|
            0 <= k < ids.len() ==> 0 <= #[trigger] at[k] < layers.len() && layers[at[k]].id == ids[k]
                && layers[at[k]].image == images[k],
        forall|k: int| 0 <= k < ids.len() ==> #[trigger] places[k] == maps[k].to_layer@,
        forall|i: int, j: int|
            0 <= i < j < layers.len() ==> (#[trigger] layers[i]).id != (#[trigger] layers[j]).id,
    ensures
        chosen_stacked(layers, ids, maps, n, x, y) == stacked(images, places, n, x, y),
    decreases n,
{
    if n > 0 {
        lemma_chosen_is_stacked(layers, ids, maps, at, images, places, n - 1, x, y);
        lemma_layer_from(layers, ids[n - 1], 0);
        let i = at[n - 1];
        assert(layers[i].id == ids[n - 1]);
        assert(places[n - 1] == maps[n - 1].to_layer@);
    }
}

/// The pattern is that of half the number, where the number is small enough to be exact.
pub open spec fn is_half_of(bits: int, n: int) -> bool {
    if n == 0 {
        bits == 0
    } else {
        &&& bits / 0x80_0000 >= 126
        &&& (bits % 0x80_0000 + 0x80_0000) * pow2((bits / 0x80_0000 - 126) as nat) == n * 0x80_0000
    }
}

proof fn lemma_leading_is_power(n: nat, k: nat)
    requires
        n >= 1,
        n < pow2(k),
    ensures
        leading_power(n) == pow2(leading_exponent(n)),
        leading_power(n) <= n < 2 * leading_power(n),
        leading_exponent(n) < k,
    decreases n,
{
    lemma2_to64();
    if n >= 2 {
        if k >= 1 {
            lemma_pow2_unfold(k);
        }
        lemma_leading_is_power(n / 2, (k - 1) as nat);
        lemma_pow2_unfold(leading_exponent(n));
    }
}

/// The stored half of a count is that half exactly, for every count below sixteen million.
pub proof fn halves_are_exact(n: nat)
    requires
        n < 0x1000000,
    ensures
        is_half_of(half_pattern(n), n as int),
{
    if n > 0 {
        lemma2_to64();
        assert(pow2(24) == 0x1000000);
        lemma_leading_is_power(n, 24);
        assert(unit24(n) == 1);
        assert(n / 1 == n && n % 1 == 0);
        assert(round24(n) == n) by {
            assert((n / 1) * 1 == n);
        }
        let k = leading_exponent(n);
        let p = leading_power(n);
        assert(pow2(23) == 0x80_0000);
        vstd::arithmetic::power2::lemma_pow2_adds(k, (23 - k) as nat);
        let c = pow2((23 - k) as nat);
        vstd::arithmetic::power2::lemma_pow2_pos((23 - k) as nat);
        assert(p * c == 0x80_0000);
        let d = n - p;
        assert((d * 0x80_0000) / p as int == d * c) by (nonlinear_arith)
            requires
                p * c == 0x80_0000,
                p >= 1,
        ;
        assert(0 <= d * c < 0x80_0000) by (nonlinear_arith)
            requires
                p * c == 0x80_0000,
                0 <= d < p,
                c >= 1,
        ;
        let bits = half_pattern(n);
        assert(bits == (k + 126) * 0x80_0000 + d * c);
        assert(bits / 0x80_0000 == k + 126 && bits % 0x80_0000 == d * c);
        assert((d * c + 0x80_0000) * p == n * 0x80_0000) by (nonlinear_arith)
            requires
                p * c == 0x80_0000,
                d == n - p,
        ;
    }
}

/// A clip lies unturned and unscaled where it was lifted from: its middle is the middle of the
/// bounds.
pub proof fn a_clip_lies_where_it_was(b: SelectionBounds)
    requires
        b.min_x <= b.max_x < 0x80_0000,
        b.min_y <= b.max_y < 0x80_0000,
    ensures
        ({
            let t = clip_placement(b);
            &&& is_half_of(t.cx as int, 2 * b.min_x + (b.max_x - b.min_x + 1))
            &&& is_half_of(t.cy as int, 2 * b.min_y + (b.max_y - b.min_y + 1))
            &&& t.rotation == 0
            &&& t.scale == 0x3F80_0000
        }),
{
    halves_are_exact((b.min_x + b.max_x + 1) as nat);
    halves_are_exact((b.min_y + b.max_y + 1) as nat);
    lemma_half_fits((b.min_x + b.max_x + 1) as nat);
    lemma_half_fits((b.min_y + b.max_y + 1) as nat);
}

pub(crate) proof fn lemma_half_fits(n: nat)
    requires
        n < 0x1000000,
    ensures
        0 <= half_pattern(n) <= u32::MAX,
{
    if n > 0 {
        lemma2_to64();
        lemma_leading_is_power(n, 24);
        assert(unit24(n) == 1);
        assert((n / 1) * 1 == n);
        let p = leading_power(n);
        assert(0 <= ((n - p) * 0x80_0000) / p as int <= 0x80_0000) by (nonlinear_arith)
            requires
                p >= 1,
                0 <= n - p < p,
        ;
    }
}

/// Merging keeps what the page shows.  The lower layer gets pixels of the size of the page, each of
/// them the upper layer's painted over the lower one's, both as base and as what is shown; it is
/// placed so that it covers the page, wherever the two layers lay before; and the upper layer goes.
pub proof fn merging_keeps_what_the_page_shows(
    below: LayerView,
    upper: LayerView,
    below_places: Grid<Option<LocalPixel>>,
    upper_places: Grid<Option<LocalPixel>>,
    w: int,
    h: int,
    x: int,
    y: int,
)
    requires
        0 <= x < w < 0x1000000,
        0 <= y < h < 0x1000000,
        sampled(below.image, below_places, x, y).a > 0,
    ensures
        ({
            let merged = merged_pixels(below.image, upper.image, below_places, upper_places, w, h);
            let edits = merge_edits(below, upper, merged, w, h);
            &&& edits.len() == 3
            &&& edits[0] == (DocEditView::SetPixels {
                uid: uid_text(below.uid),
                base: merged,
                display: merged,
            })
            &&& merged.w == w && merged.h == h
            &&& merged.px[y * w + x] == painted_over(
                sampled(upper.image, upper_places, x, y),
                sampled(below.image, below_places, x, y),
            )
            &&& edits[1] is SetTransform
            &&& edits[1]->SetTransform_uid == uid_text(below.uid)
            &&& is_half_of(edits[1]->SetTransform_transform.cx as int, w)
            &&& is_half_of(edits[1]->SetTransform_transform.cy as int, h)
            &&& edits[1]->SetTransform_transform.rotation == 0
            &&& edits[1]->SetTransform_transform.scale == 0x3F80_0000
            &&& edits[2] == (DocEditView::RemoveNode { uid: uid_text(upper.uid) })
        }),
{
    let images = seq![below.image, upper.image];
    let places = seq![below_places, upper_places];
    let f = |a: int, b: int| stacked(images, places, 2, a, b);
    lemma_grid_of(w, h, f);
    let merged = merged_pixels(below.image, upper.image, below_places, upper_places, w, h);
    assert(merged == grid_of(w, h, f));
    assert(merged.at(x, y) == f(x, y));
    upper_layers_hide_lower_ones(images, places, 2, x, y);
    upper_layers_hide_lower_ones(images, places, 1, x, y);
    halves_are_exact(w as nat);
    halves_are_exact(h as nat);
    lemma_half_fits(w as nat);
    lemma_half_fits(h as nat);
}

/// Where the lower layer is clear, the merged picture shows the upper layer alone.
pub proof fn merging_over_nothing(
    below: LayerView,
    upper: LayerView,
    below_places: Grid<Option<LocalPixel>>,
    upper_places: Grid<Option<LocalPixel>>,
    w: int,
    h: int,
    x: int,
    y: int,
)
    requires
        0 <= x < w,
        0 <= y < h,
        sampled(below.image, below_places, x, y).a == 0,
    ensures
        ({
            let top = sampled(upper.image, upper_places, x, y);
            let merged = merged_pixels(below.image, upper.image, below_places, upper_places, w, h);
            merged.px[y * w + x] == if top.a > 0 {
                top
            } else {
                Color { r: 0, g: 0, b: 0, a: 0 }
            }
        }),
{
    let images = seq![below.image, upper.image];
    let places = seq![below_places, upper_places];
    let f = |a: int, b: int| stacked(images, places, 2, a, b);
    lemma_grid_of(w, h, f);
    let merged = merged_pixels(below.image, upper.image, below_places, upper_places, w, h);
    assert(merged == grid_of(w, h, f));
    assert(merged.at(x, y) == f(x, y));
    upper_layers_hide_lower_ones(images, places, 2, x, y);
    upper_layers_hide_lower_ones(images, places, 1, x, y);
    let top = sampled(upper.image, upper_places, x, y);
    let rest = stacked(images, places, 1, x, y);
    assert(rest == (Color { r: 0, g: 0, b: 0, a: 0 }));
    crate::composite::painting_over(top, rest);
}

/// The placement that a merge asks for does not depend on where the two layers lay.
pub proof fn merging_forgets_the_placements(
    below: LayerView,
    upper: LayerView,
    other_below: LayerView,
    other_upper: LayerView,
    merged: Grid<Color>,
    w: int,
    h: int,
)
    ensures
        merge_edits(below, upper, merged, w, h)[1] is SetTransform,
        merge_edits(below, upper, merged, w, h)[1]->SetTransform_transform == merge_edits(
            other_below,
            other_upper,
            merged,
            w,
            h,
        )[1]->SetTransform_transform,
{
}

/// A layer of the user.
pub open spec fn of_the_user() -> spec_fn(LayerView) -> bool {
    |l: LayerView| l.kind == LayerKind::Raster
}

proof fn lemma_stored_in_order(s: StackView, n: int, i: int)
    requires
        0 <= i < n <= s.layers.len(),
        s.layers[i].kind == LayerKind::Raster,
    ensures
        ({
            let k = s.layers.take(i).filter(of_the_user()).len() as int;
            &&& 0 <= k < stored_forms(s, n).len()
            &&& stored_forms(s, n)[k] == crate::layer_ops::stored_form(s, s.layers[i])
        }),
        stored_forms(s, n).len() == s.layers.take(n).filter(of_the_user()).len(),
    decreases n,
{
    lemma_stored_count(s, n);
    lemma_stored_count(s, n - 1);
    lemma_stored_count(s, i);
    if i < n - 1 {
        lemma_stored_in_order(s, n - 1, i);
    }
}

proof fn lemma_stored_count(s: StackView, n: int)
    requires
        0 <= n <= s.layers.len(),
    ensures
        stored_forms(s, n).len() == s.layers.take(n).filter(of_the_user()).len(),
    decreases n,
{
    reveal(Seq::filter);
    if n > 0 {
        lemma_stored_count(s, n - 1);
        assert(s.layers.take(n).drop_last() =~= s.layers.take(n - 1));
        assert(s.layers.take(n).last() == s.layers[n - 1]);
    } else {
        assert(s.layers.take(0) =~= Seq::empty());
    }
}

/// Storing a page keeps each layer of the user, in their order, as it is: its identifier, name,
/// visibility, opacity, placement, mesh, pixels and group, and whether its pixels changed.
pub proof fn storing_keeps_each_layer(
    job: PageSave,
    s: StackView,
    deleted: Set<(usize, Seq<char>)>,
    i: int,
)
    requires
        stores(job, s, deleted),
        0 <= i < s.layers.len(),
        s.layers[i].kind == LayerKind::Raster,
    ensures
        job.layers@.len() == s.layers.filter(of_the_user()).len(),
        ({
            let l = s.layers[i];
            let k = s.layers.take(i).filter(of_the_user()).len() as int;
            let o = job.layers@[k]@;
            &&& 0 <= k < job.layers@.len()
            &&& o.uid == uid_text(l.uid)
            &&& o.name == l.name
            &&& o.visible == l.visible
            &&& o.opacity == l.opacity
            &&& o.transform.cx == l.transform.cx
            &&& o.transform.cy == l.transform.cy
            &&& o.transform.rotation == l.transform.rotation
            &&& o.transform.scale == l.transform.scale
            &&& o.deform == l.deform
            &&& o.base_image == l.image
            &&& o.pixels_dirty == l.pixels_dirty
            &&& l.group is None ==> o.group_uid is None
            &&& l.group is Some && (forall|g: int|
                0 <= g < s.groups.len() ==> (#[trigger] s.groups[g]).id != l.group->0)
                ==> o.group_uid is None
            &&& forall|g: int|
                0 <= g < s.groups.len() && l.group == Some((#[trigger] s.groups[g]).id) && (forall|
                    j: int,
                |
                    0 <= j < g ==> (#[trigger] s.groups[j]).id != s.groups[g].id) ==> o.group_uid
                    == Some(uid_text(s.groups[g].uid))
        }),
{
    let n = s.layers.len() as int;
    lemma_stored_in_order(s, n, i);
    assert(s.layers.take(n) =~= s.layers);
    let k = s.layers.take(i).filter(of_the_user()).len() as int;
    assert(stored_views(job.layers@)[k] == job.layers@[k]@);
    let l = s.layers[i];
    if l.group is Some {
        lemma_group_id_from(s.groups, l.group->0, 0);
        assert forall|g: int|
            0 <= g < s.groups.len() && l.group == Some((#[trigger] s.groups[g]).id) && (forall|
                j: int,
            |
                0 <= j < g ==> (#[trigger] s.groups[j]).id != s.groups[g].id) implies group_id_from(
            s.groups,
            l.group->0,
            0,
        ) == Some(g) by {
            lemma_first_group(s.groups, l.group->0, 0, g);
        }
    }
}

proof fn lemma_first_group(groups: Seq<GroupView>, id: u64, i: int, g: int)
    requires
        0 <= i <= g < groups.len(),
        groups[g].id == id,
        forall|j: int| i <= j < g ==> (#[trigger] groups[j]).id != id,
    ensures
        group_id_from(groups, id, i) == Some(g),
    decreases g - i,
{
    if i < g {
        lemma_first_group(groups, id, i + 1, g);
    }
}

/// Storing a page keeps each of its groups as it is, and tells of exactly the layers that were
/// deleted from that page.
pub proof fn storing_keeps_the_groups(
    job: PageSave,
    s: StackView,
    deleted: Set<(usize, Seq<char>)>,
    g: int,
    uid: Seq<char>,
)
    requires
        stores(job, s, deleted),
        0 <= g < s.groups.len(),
    ensures
        job.page_idx == s.page_idx,
        job.groups@.len() == s.groups.len(),
        job.groups@[g].uid@ == uid_text(s.groups[g].uid),
        job.groups@[g].name@ == s.groups[g].name,
        job.groups@[g].visible == s.groups[g].visible,
        job.groups@[g].opacity == s.groups[g].opacity,
        job.groups@[g].collapsed == s.groups[g].collapsed,
        (exists|i: int| 0 <= i < job.removed_uids@.len() && (#[trigger] job.removed_uids@[i])@ == uid)
            <==> deleted.contains((s.page_idx, uid)),
{
    assert(meta_views(job.groups@).len() == job.groups@.len());
    assert(stored_groups(s.groups).len() == s.groups.len());
    assert(meta_views(job.groups@)[g] == job.groups@[g]@);
    let t = texts(job.removed_uids@);
    assert(t.contains(uid) <==> deleted.contains((s.page_idx, uid)));
    if t.contains(uid) {
        let i = choose|i: int| 0 <= i < t.len() && t[i] == uid;
        assert(job.removed_uids@[i]@ == uid);
    }
    assert forall|i: int| 0 <= i < job.removed_uids@.len() && (#[trigger] job.removed_uids@[i])@
        == uid implies t.contains(uid) by {
        assert(t[i] == uid);
    }
}

/// The bounds of a selection hold all that is selected, and on each of their four sides something is.
pub proof fn bounds_fit_the_selection(mask: Grid<bool>, b: SelectionBounds, x: int, y: int)
    requires
        tight(mask, b),
    ensures
        0 <= x < mask.w && 0 <= y < mask.h && mask.px[y * mask.w + x] ==> b.min_x <= x <= b.max_x
            && b.min_y <= y <= b.max_y,
        exists|v: int| 0 <= v < mask.h && #[trigger] mask.px[v * mask.w + b.min_x],
        exists|v: int| 0 <= v < mask.h && #[trigger] mask.px[v * mask.w + b.max_x],
        exists|u: int| 0 <= u < mask.w && #[trigger] mask.px[b.min_y * mask.w + u],
        exists|u: int| 0 <= u < mask.w && #[trigger] mask.px[b.max_y * mask.w + u],
{
    if 0 <= x < mask.w && 0 <= y < mask.h && mask.px[y * mask.w + x] {
        assert(selected(mask, x, y));
        assert(b.holds(x, y));
    }
    let v0 = choose|v: int| #[trigger] selected(mask, b.min_x as int, v);
    assert(mask.px[v0 * mask.w + b.min_x]);
    let v1 = choose|v: int| #[trigger] selected(mask, b.max_x as int, v);
    assert(mask.px[v1 * mask.w + b.max_x]);
    let u0 = choose|u: int| #[trigger] selected(mask, u, b.min_y as int);
    assert(mask.px[b.min_y * mask.w + u0]);
    let u1 = choose|u: int| #[trigger] selected(mask, u, b.max_y as int);
    assert(mask.px[b.max_y * mask.w + u1]);
}

/// Something is selected where a pixel of the page is.
pub proof fn selections_are_of_pixels(mask: Grid<bool>)
    ensures
        any_selected(mask) <==> exists|x: int, y: int|
            0 <= x < mask.w && 0 <= y < mask.h && #[trigger] mask.px[y * mask.w + x],
{
    if any_selected(mask) {
        let (x, y) = choose|x: int, y: int| #[trigger] selected(mask, x, y);
        assert(mask.px[y * mask.w + x]);
    }
    assert forall|x: int, y: int|
        0 <= x < mask.w && 0 <= y < mask.h && #[trigger] mask.px[y * mask.w
            + x] implies any_selected(mask) by {
        assert(selected(mask, x, y));
    }
}

/// What is put together are the pictures that the layers show, each with its map.
pub proof fn layers_show_their_pictures(layers: Seq<&Layer>, places: Seq<Places>, i: int)
    requires
        0 <= i < layers.len(),
        0 <= i < places.len(),
    ensures
        images_of(layers).len() == layers.len(),
        images_of(layers)[i] == layers[i].image@,
        places_of(places).len() == places.len(),
        places_of(places)[i] == places[i]@,
{
}

} // verus!
