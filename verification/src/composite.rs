//! Selections on a page, and pictures put together from layers: copies, cuts and merges.

use vstd::prelude::*;
use vstd::string::StringExecFns;
use crate::color::{Color, ColorImage};
#[allow(unused_imports)]
use crate::color::clear;
use crate::float_bits::{half_bits, ONE, ZERO};
#[allow(unused_imports)]
use crate::float_bits::half_pattern;
use crate::layers::{Layer, LayerId, LayerKind, LayerStack, LayerTransform};
#[allow(unused_imports)]
use crate::layers::{
    layer_called, layer_from, lemma_layer_from, lemma_same_shape, new_raster, LayerView, StackView,
};
use crate::raster::Raster;
#[allow(unused_imports)]
use crate::raster::{grid_of, lemma_grid_of, lemma_offset, lemma_position, Grid};

verus! {

/// Whether the chosen pixels are copied or also taken away.
#[derive(Clone, Copy, Debug, PartialEq, Eq, Structural)]
pub enum ClipMode {
    Copy,
    Cut,
}

impl ClipMode {
    pub fn verb(self) -> (s: &'static str)
        ensures
            s@ == match self {
                ClipMode::Copy => "Скопировать"@,
                ClipMode::Cut => "Вырезать"@,
            },
    {
        match self {
            ClipMode::Copy => "Скопировать",
            ClipMode::Cut => "Вырезать",
        }
    }
}

/// The least rectangle around a selection, its sides included.
#[derive(Clone, Copy, Debug, PartialEq, Eq, Structural)]
pub struct SelectionBounds {
    pub min_x: usize,
    pub min_y: usize,
    pub max_x: usize,
    pub max_y: usize,
}

impl SelectionBounds {
    pub open spec fn holds(self, x: int, y: int) -> bool {
        self.min_x <= x <= self.max_x && self.min_y <= y <= self.max_y
    }
}

/// The selected pixels of a page.
pub struct Selection {
    pub mask: Raster<bool>,
}

/// The pixel is selected.
pub open spec fn selected(mask: Grid<bool>, x: int, y: int) -> bool {
    mask.inside(x, y) && mask.at(x, y)
}

/// The bounds hold every selected pixel, and each of their sides touches one.
pub open spec fn tight(mask: Grid<bool>, b: SelectionBounds) -> bool {
    &&& b.min_x <= b.max_x < mask.w
    &&& b.min_y <= b.max_y < mask.h
    &&& forall|x: int, y: int| #[trigger] selected(mask, x, y) ==> b.holds(x, y)
    &&& exists|y: int| #[trigger] selected(mask, b.min_x as int, y)
    &&& exists|y: int| #[trigger] selected(mask, b.max_x as int, y)
    &&& exists|x: int| #[trigger] selected(mask, x, b.min_y as int)
    &&& exists|x: int| #[trigger] selected(mask, x, b.max_y as int)
}

/// Something is selected.
pub open spec fn any_selected(mask: Grid<bool>) -> bool {
    exists|x: int, y: int| #[trigger] selected(mask, x, y)
}

/// There is only one pair of bounds around a selection.
pub proof fn tight_bounds_are_unique(mask: Grid<bool>, a: SelectionBounds, b: SelectionBounds)
    requires
        tight(mask, a),
        tight(mask, b),
    ensures
        a == b,
{
    let y0 = choose|y: int| #[trigger] selected(mask, a.min_x as int, y);
    assert(b.holds(a.min_x as int, y0));
    let y1 = choose|y: int| #[trigger] selected(mask, a.max_x as int, y);
    assert(b.holds(a.max_x as int, y1));
    let x0 = choose|x: int| #[trigger] selected(mask, x, a.min_y as int);
    assert(b.holds(x0, a.min_y as int));
    let x1 = choose|x: int| #[trigger] selected(mask, x, a.max_y as int);
    assert(b.holds(x1, a.max_y as int));
    let v0 = choose|y: int| #[trigger] selected(mask, b.min_x as int, y);
    assert(a.holds(b.min_x as int, v0));
    let v1 = choose|y: int| #[trigger] selected(mask, b.max_x as int, y);
    assert(a.holds(b.max_x as int, v1));
    let u0 = choose|x: int| #[trigger] selected(mask, x, b.min_y as int);
    assert(a.holds(u0, b.min_y as int));
    let u1 = choose|x: int| #[trigger] selected(mask, x, b.max_y as int);
    assert(a.holds(u1, b.max_y as int));
}

/// The bounds of the pixels before `i` in storage order.
spec fn tight_before(mask: Grid<bool>, i: int, b: SelectionBounds) -> bool {
    &&& b.min_x <= b.max_x < mask.w
    &&& b.min_y <= b.max_y < mask.h
    &&& forall|k: int| 0 <= k < i && #[trigger] mask.px[k] ==> b.holds(k % mask.w, k / mask.w)
    &&& exists|y: int| #[trigger] selected(mask, b.min_x as int, y)
    &&& exists|y: int| #[trigger] selected(mask, b.max_x as int, y)
    &&& exists|x: int| #[trigger] selected(mask, x, b.min_y as int)
    &&& exists|x: int| #[trigger] selected(mask, x, b.max_y as int)
}

impl Selection {
    pub open spec fn wf(&self) -> bool {
        self.mask.wf()
    }

    /// Nothing selected on a page of the given size.
    pub fn empty(w: usize, h: usize) -> (s: Selection)
        requires
            w * h <= usize::MAX,
        ensures
            s.wf(),
            s.mask@ == grid_of(w as int, h as int, |x: int, y: int| false),
            !any_selected(s.mask@),
    {
        let s = Selection { mask: Raster::filled(w, h, false) };
        proof {
            let f = |x: int, y: int| false;
            lemma_grid_of(w as int, h as int, f);
            assert(s.mask@ =~= grid_of(w as int, h as int, f));
            assert forall|x: int, y: int| !(#[trigger] selected(s.mask@, x, y)) by {
                if s.mask@.inside(x, y) {
                    assert(grid_of(w as int, h as int, f).at(x, y) == f(x, y));
                }
            }
        }
        s
    }

    /// Selects the pixels from the first corner up to, but without, the second.
    pub fn set_rect(&mut self, x0: i32, y0: i32, x1: i32, y1: i32)
        requires
            old(self).wf(),
        ensures
            final(self).wf(),
            final(self).mask@ == grid_of(
                old(self).mask@.w,
                old(self).mask@.h,
                |x: int, y: int| x0 <= x < x1 && y0 <= y < y1,
            ),
    {
        let ghost g0 = self.mask@;
        let ghost f = |x: int, y: int| x0 <= x < x1 && y0 <= y < y1;
        let w: usize = self.mask.w;
        let n: usize = self.mask.px.len();
        let mut px: Vec<bool> = Vec::new();
        let ghost target = grid_of(g0.w, g0.h, f);
        proof {
            lemma_grid_of(g0.w, g0.h, f);
        }
        let mut i: usize = 0;
        while i < n
            invariant
                i <= n,
                n == g0.px.len(),
                w == g0.w,
                g0.valid(),
                f == (|x: int, y: int| x0 <= x < x1 && y0 <= y < y1),
                target == grid_of(g0.w, g0.h, f),
                target.px.len() == n,
                px@ == target.px.take(i as int),
            decreases n - i,
        {
            proof {
                lemma_position(g0.w, g0.h, i as int);
            }
            let x: i128 = (i % w) as i128;
            let y: i128 = (i / w) as i128;
            px.push(x0 as i128 <= x && x < x1 as i128 && y0 as i128 <= y && y < y1 as i128);
            i += 1;
            assert(px@ =~= target.px.take(i as int));
        }
        self.mask.px = px;
        assert(self.mask@ =~= target);
    }

    pub fn contains(&self, x: usize, y: usize) -> (b: bool)
        requires
            self.wf(),
        ensures
            b == selected(self.mask@, x as int, y as int),
    {
        x < self.mask.w && y < self.mask.h && self.mask.get(x, y)
    }

    /// The bounds of the selected pixels, if there are any.
    pub fn bounds(&self) -> (r: Option<SelectionBounds>)
        requires
            self.wf(),
        ensures
            r is Some <==> any_selected(self.mask@),
            r is Some ==> tight(self.mask@, r->0),
    {
        let ghost m = self.mask@;
        let w: usize = self.mask.w;
        let n: usize = self.mask.px.len();
        let mut r: Option<SelectionBounds> = None;
        let mut i: usize = 0;
        while i < n
            invariant
                i <= n,
                n == m.px.len(),
                w == m.w,
                m == self.mask@,
                m.valid(),
                match r {
                    Some(b) => tight_before(m, i as int, b),
                    None => forall|k: int| 0 <= k < i ==> !(#[trigger] m.px[k]),
                },
            decreases n - i,
        {
            if self.mask.px[i] {
                proof {
                    lemma_position(m.w, m.h, i as int);
                }
                let x: usize = i % w;
                let y: usize = i / w;
                assert(selected(m, x as int, y as int));
                let b = match r {
                    Some(b) => SelectionBounds {
                        min_x: if x < b.min_x {
                            x
                        } else {
                            b.min_x
                        },
                        min_y: if y < b.min_y {
                            y
                        } else {
                            b.min_y
                        },
                        max_x: if x > b.max_x {
                            x
                        } else {
                            b.max_x
                        },
                        max_y: if y > b.max_y {
                            y
                        } else {
                            b.max_y
                        },
                    },
                    None => SelectionBounds { min_x: x, min_y: y, max_x: x, max_y: y },
                };
                proof {
                    assert(m.px[i as int]);
                    assert(selected(m, x as int, y as int));
                    assert forall|k: int| 0 <= k < i + 1 && #[trigger] m.px[k] implies b.holds(
                        k % m.w,
                        k / m.w,
                    ) by {
                        if k < i {
                            assert(r is Some);
                            assert((r->0).holds(k % m.w, k / m.w));
                        }
                    }
                    if r is Some {
                        let o = r->0;
                        let y0 = choose|v: int| #[trigger] selected(m, o.min_x as int, v);
                        let y1 = choose|v: int| #[trigger] selected(m, o.max_x as int, v);
                        let x0 = choose|v: int| #[trigger] selected(m, v, o.min_y as int);
                        let x1 = choose|v: int| #[trigger] selected(m, v, o.max_y as int);
                        assert(selected(m, o.min_x as int, y0) && selected(m, o.max_x as int, y1));
                        assert(selected(m, x0, o.min_y as int) && selected(m, x1, o.max_y as int));
                    }
                    assert(exists|v: int| #[trigger] selected(m, b.min_x as int, v));
                    assert(exists|v: int| #[trigger] selected(m, b.max_x as int, v));
                    assert(exists|v: int| #[trigger] selected(m, v, b.min_y as int));
                    assert(exists|v: int| #[trigger] selected(m, v, b.max_y as int));
                }
                r = Some(b);
            }
            i += 1;
        }
        proof {
            assert forall|x: int, y: int| #[trigger] selected(m, x, y) implies m.px[y * m.w + x]
                && 0 <= y * m.w + x < m.px.len() && (y * m.w + x) % m.w == x && (y * m.w + x) / m.w
                == y by {
                lemma_offset(m.w, m.h, x, y);
            }
            if r is Some {
                let b = r->0;
                let y0 = choose|y: int| #[trigger] selected(m, b.min_x as int, y);
                assert(selected(m, b.min_x as int, y0));
                assert(tight(m, b));
            }
        }
        r
    }

    pub fn any(&self) -> (b: bool)
        requires
            self.wf(),
        ensures
            b == any_selected(self.mask@),
    {
        self.bounds().is_some()
    }
}

/// One channel of a pixel painted over another whose share shows through.
pub open spec fn over_channel(s: u8, d: u8, through: int) -> int {
    let v = s + (d * through) / 255;
    if v > 255 {
        255
    } else {
        v
    }
}

/// A pixel painted over another.
pub open spec fn painted_over(src: Color, dst: Color) -> Color {
    if src.a == 255 {
        src
    } else if src.a == 0 {
        dst
    } else {
        let through = 255 - src.a;
        Color {
            r: over_channel(src.r, dst.r, through) as u8,
            g: over_channel(src.g, dst.g, through) as u8,
            b: over_channel(src.b, dst.b, through) as u8,
            a: over_channel(src.a, dst.a, through) as u8,
        }
    }
}

fn blend_channel(s: u8, d: u8, through: u32) -> (r: u8)
    requires
        through <= 255,
    ensures
        r == over_channel(s, d, through as int),
{
    assert(0 <= d * through <= 255 * 255) by (nonlinear_arith)
        requires
            0 <= d <= 255,
            0 <= through <= 255,
    ;
    let v: u32 = s as u32 + (d as u32 * through) / 255;
    if v > 255 {
        255
    } else {
        v as u8
    }
}

/// Paints one pixel over another.
pub fn over(src: Color, dst: Color) -> (r: Color)
    ensures
        r == painted_over(src, dst),
{
    if src.a == 255 {
        return src;
    }
    if src.a == 0 {
        return dst;
    }
    let through: u32 = 255 - src.a as u32;
    Color {
        r: blend_channel(src.r, dst.r, through),
        g: blend_channel(src.g, dst.g, through),
        b: blend_channel(src.b, dst.b, through),
        a: blend_channel(src.a, dst.a, through),
    }
}

/// An opaque pixel hides what is below, a clear one shows it, and nothing below leaves the pixel
/// as it is.  What is painted over an opaque pixel is opaque.
pub proof fn painting_over(src: Color, dst: Color)
    ensures
        src.a == 255 ==> painted_over(src, dst) == src,
        src.a == 0 ==> painted_over(src, dst) == dst,
        src.a > 0 ==> painted_over(src, clear()) == src,
        dst.a == 255 ==> painted_over(src, dst).a == 255,
        painted_over(src, dst).a >= src.a,
{
    let t = 255 - src.a;
    assert(0u8 * t == 0) by (nonlinear_arith);
    if dst.a == 255 {
        assert((255 * t) / 255 == t) by (nonlinear_arith);
    }
    assert(0 <= (dst.a * t) / 255) by (nonlinear_arith)
        requires
            0 <= dst.a,
            0 <= t,
    ;
}

/// A pixel of a layer's own picture.
#[derive(Clone, Copy, Debug, PartialEq, Eq, Structural)]
pub struct LocalPixel {
    pub x: usize,
    pub y: usize,
}

/// Where the pixels of a rectangle fall in another picture; those that fall left of it or above
/// it fall nowhere.
pub type Places = Raster<Option<LocalPixel>>;

/// The pixel of a picture at the place that a page pixel falls on.
pub open spec fn sampled(image: Grid<Color>, places: Grid<Option<LocalPixel>>, x: int, y: int) -> Color {
    if places.inside(x, y) {
        match places.at(x, y) {
            Some(p) => if image.inside(p.x as int, p.y as int) {
                image.at(p.x as int, p.y as int)
            } else {
                clear()
            },
            None => clear(),
        }
    } else {
        clear()
    }
}

/// The colour of a layer at a page pixel.
pub fn sample_layer_world(layer: &Layer, places: &Places, wx: usize, wy: usize) -> (c: Color)
    requires
        layer.wf(),
        places.wf(),
    ensures
        c == sampled(layer@.image, places@, wx as int, wy as int),
{
    if wx >= places.w || wy >= places.h {
        return Color::transparent();
    }
    match places.get(wx, wy) {
        Some(p) => {
            if p.x >= layer.image.w || p.y >= layer.image.h {
                Color::transparent()
            } else {
                layer.image.get(p.x, p.y)
            }
        },
        None => Color::transparent(),
    }
}

/// The first `n` pictures painted over each other at a page pixel.
pub open spec fn stacked(
    images: Seq<Grid<Color>>,
    places: Seq<Grid<Option<LocalPixel>>>,
    n: int,
    x: int,
    y: int,
) -> Color
    decreases n,
{
    if n <= 0 {
        clear()
    } else {
        painted_over(
            sampled(images[n - 1], places[n - 1], x, y),
            stacked(images, places, n - 1, x, y),
        )
    }
}

pub open spec fn images_of(layers: Seq<&Layer>) -> Seq<Grid<Color>> {
    Seq::new(layers.len(), |i: int| layers[i]@.image)
}

pub open spec fn places_of(places: Seq<Places>) -> Seq<Grid<Option<LocalPixel>>> {
    Seq::new(places.len(), |i: int| places[i]@)
}

/// Puts layers together, from the bottom to the top, into a picture of the size of the page.
pub fn composite_to_page(layers: &Vec<&Layer>, places: &Vec<Places>, w: usize, h: usize) -> (out:
    ColorImage)
    requires
        layers@.len() == places@.len(),
        forall|i: int| 0 <= i < layers@.len() ==> (#[trigger] layers@[i]).wf(),
        forall|i: int| 0 <= i < places@.len() ==> (#[trigger] places@[i]).wf(),
        w * h <= usize::MAX,
    ensures
        out.wf(),
        out@ == grid_of(
            w as int,
            h as int,
            |x: int, y: int|
                stacked(images_of(layers@), places_of(places@), layers@.len() as int, x, y),
        ),
{
    let n: usize = w * h;
    let ghost imgs = images_of(layers@);
    let ghost pls = places_of(places@);
    let ghost f = |x: int, y: int| stacked(imgs, pls, layers@.len() as int, x, y);
    let ghost target = grid_of(w as int, h as int, f);
    let mut px: Vec<Color> = Vec::new();
    let mut i: usize = 0;
    while i < n
        invariant
            i <= n,
            n == w * h,
            layers@.len() == places@.len(),
            forall|k: int| 0 <= k < layers@.len() ==> (#[trigger] layers@[k]).wf(),
            forall|k: int| 0 <= k < places@.len() ==> (#[trigger] places@[k]).wf(),
            imgs == images_of(layers@),
            pls == places_of(places@),
            f == (|x: int, y: int| stacked(imgs, pls, layers@.len() as int, x, y)),
            target == grid_of(w as int, h as int, f),
            target.px.len() == n,
            px@ == target.px.take(i as int),
        decreases n - i,
    {
        proof {
            lemma_position(w as int, h as int, i as int);
        }
        let x: usize = i % w;
        let y: usize = i / w;
        let mut c = Color::transparent();
        let mut k: usize = 0;
        while k < layers.len()
            invariant
                k <= layers@.len(),
                layers@.len() == places@.len(),
                forall|j: int| 0 <= j < layers@.len() ==> (#[trigger] layers@[j]).wf(),
                forall|j: int| 0 <= j < places@.len() ==> (#[trigger] places@[j]).wf(),
                imgs == images_of(layers@),
                pls == places_of(places@),
                c == stacked(imgs, pls, k as int, x as int, y as int),
            decreases layers@.len() - k,
        {
            c = over(sample_layer_world(layers[k], &places[k], x, y), c);
            k += 1;
        }
        px.push(c);
        i += 1;
        assert(px@ =~= target.px.take(i as int));
    }
    let out = Raster { w, h, px };
    assert(out@ =~= target);
    out
}

/// Some pixel of the layer that is not clear lies on a selected pixel within the bounds.
pub open spec fn touches(
    image: Grid<Color>,
    places: Grid<Option<LocalPixel>>,
    mask: Grid<bool>,
    b: SelectionBounds,
) -> bool {
    exists|x: int, y: int|
        b.holds(x, y) && #[trigger] selected(mask, x, y) && sampled(image, places, x, y).a > 0
}

/// Whether a selection holds anything of a layer.
pub fn layer_touches_selection(
    layer: &Layer,
    places: &Places,
    selection: &Selection,
    bounds: SelectionBounds,
) -> (r: bool)
    requires
        layer.wf(),
        places.wf(),
        selection.wf(),
    ensures
        r == touches(layer@.image, places@, selection.mask@, bounds),
{
    let w: usize = selection.mask.w;
    let h: usize = selection.mask.h;
    let ghost m = selection.mask@;
    let mut y: usize = bounds.min_y;
    while y < h && y <= bounds.max_y
        invariant
            bounds.min_y <= y,
            layer.wf(),
            places.wf(),
            selection.wf(),
            m == selection.mask@,
            w == m.w,
            h == m.h,
            forall|a: int, b: int|
                bounds.holds(a, b) && #[trigger] selected(m, a, b) && b < y ==> sampled(
                    layer@.image,
                    places@,
                    a,
                    b,
                ).a == 0,
        decreases h - y,
    {
        let mut x: usize = bounds.min_x;
        while x < w && x <= bounds.max_x
            invariant
                bounds.min_x <= x,
                bounds.min_y <= y <= bounds.max_y,
                y < h,
                layer.wf(),
                places.wf(),
                selection.wf(),
                m == selection.mask@,
                w == m.w,
                h == m.h,
                forall|a: int, b: int|
                    bounds.holds(a, b) && #[trigger] selected(m, a, b) && (b < y || (b == y && a
                        < x)) ==> sampled(layer@.image, places@, a, b).a == 0,
            decreases w - x,
        {
            if selection.contains(x, y) && sample_layer_world(layer, places, x, y).a > 0 {
                assert(bounds.holds(x as int, y as int));
                return true;
            }
            x += 1;
        }
        y += 1;
    }
    false
}

/// The picture with the selected pixels cleared.  Its pixels lie on the page where `to_page` puts
/// them, or where they are in the picture if there is no map.
pub open spec fn cleared(
    image: Grid<Color>,
    mask: Grid<bool>,
    to_page: Option<Grid<Option<LocalPixel>>>,
) -> Grid<Color> {
    grid_of(
        image.w,
        image.h,
        |x: int, y: int|
            if on_selection(mask, to_page, x, y) {
                clear()
            } else {
                image.at(x, y)
            },
    )
}

/// A pixel of a picture lies on a selected pixel of the page.
pub open spec fn on_selection(
    mask: Grid<bool>,
    to_page: Option<Grid<Option<LocalPixel>>>,
    x: int,
    y: int,
) -> bool {
    match to_page {
        None => selected(mask, x, y),
        Some(g) => g.inside(x, y) && match g.at(x, y) {
            Some(p) => selected(mask, p.x as int, p.y as int),
            None => false,
        },
    }
}

pub open spec fn opt_places(p: Option<Places>) -> Option<Grid<Option<LocalPixel>>> {
    match p {
        Some(g) => Some(g@),
        None => None,
    }
}

/// Clears the pixels of a layer that lie inside the selection.
pub fn clear_selected_pixels(layer: &mut Layer, selection: &Selection, to_page: &Option<Places>)
    requires
        old(layer).wf(),
        selection.wf(),
        *to_page is Some ==> (to_page->0).wf(),
    ensures
        final(layer).wf(),
        final(layer)@ == (LayerView {
            image: cleared(old(layer)@.image, selection.mask@, opt_places(*to_page)),
            ..old(layer)@
        }),
{
    let ghost img = layer.image@;
    let ghost m = selection.mask@;
    let ghost tp = opt_places(*to_page);
    let ghost f = |x: int, y: int|
        if on_selection(m, tp, x, y) {
            clear()
        } else {
            img.at(x, y)
        };
    let ghost target = grid_of(img.w, img.h, f);
    let w: usize = layer.image.w;
    let n: usize = layer.image.px.len();
    let mut i: usize = 0;
    proof {
        lemma_grid_of(img.w, img.h, f);
    }
    while i < n
        invariant
            i <= n,
            n == img.px.len(),
            w == img.w,
            img.valid(),
            selection.wf(),
            m == selection.mask@,
            tp == opt_places(*to_page),
            *to_page is Some ==> (to_page->0).wf(),
            f == (|x: int, y: int|
                if on_selection(m, tp, x, y) {
                    clear()
                } else {
                    img.at(x, y)
                }),
            target == grid_of(img.w, img.h, f),
            target.px.len() == n,
            layer.image.w == img.w,
            layer.image.h == img.h,
            layer.image.px@.len() == n,
            *layer == (Layer { image: layer.image, ..*old(layer) }),
            forall|k: int| 0 <= k < i ==> #[trigger] layer.image.px@[k] == target.px[k],
            forall|k: int| i <= k < n ==> #[trigger] layer.image.px@[k] == img.px[k],
        decreases n - i,
    {
        proof {
            lemma_position(img.w, img.h, i as int);
        }
        let x: usize = i % w;
        let y: usize = i / w;
        let hit = match to_page {
            None => selection.contains(x, y),
            Some(g) => {
                if x < g.w && y < g.h {
                    match g.get(x, y) {
                        Some(p) => selection.contains(p.x, p.y),
                        None => false,
                    }
                } else {
                    false
                }
            },
        };
        assert(hit == on_selection(m, tp, x as int, y as int));
        if hit {
            layer.image.px.set(i, Color::transparent());
        }
        i += 1;
    }
    assert(layer.image@ =~= target);
}

/// Cutting clears pixels and changes none otherwise: a pixel is as before unless it lies on the
/// selection, and then it is clear.
pub proof fn clearing_keeps_the_rest(
    image: Grid<Color>,
    mask: Grid<bool>,
    to_page: Option<Grid<Option<LocalPixel>>>,
)
    requires
        image.valid(),
    ensures
        cleared(image, mask, to_page).valid(),
        cleared(image, mask, to_page).same_size(image),
        forall|x: int, y: int|
            image.inside(x, y) ==> #[trigger] cleared(image, mask, to_page).at(x, y)
                == if on_selection(mask, to_page, x, y) {
                clear()
            } else {
                image.at(x, y)
            },
{
    let f = |x: int, y: int|
        if on_selection(mask, to_page, x, y) {
            clear()
        } else {
            image.at(x, y)
        };
    lemma_grid_of(image.w, image.h, f);
    assert(cleared(image, mask, to_page) == grid_of(image.w, image.h, f));
}

/// How a layer lies on its page: where page pixels fall in it, and where its own pixels fall on
/// the page; the latter is left out where they fall on the pixels of the same place.
pub struct LayerMaps {
    pub to_layer: Places,
    pub to_page: Option<Places>,
}

impl LayerMaps {
    pub open spec fn wf(&self) -> bool {
        self.to_layer.wf() && (self.to_page is Some ==> (self.to_page->0).wf())
    }
}

/// The first `n` chosen layers painted over each other at a page pixel; those that are gone are
/// passed over.
pub open spec fn chosen_stacked(
    layers: Seq<LayerView>,
    ids: Seq<LayerId>,
    maps: Seq<LayerMaps>,
    n: int,
    x: int,
    y: int,
) -> Color
    decreases n,
{
    if n <= 0 {
        clear()
    } else {
        let below = chosen_stacked(layers, ids, maps, n - 1, x, y);
        match layer_called(layers, ids[n - 1]) {
            Some(l) => painted_over(sampled(l.image, maps[n - 1].to_layer@, x, y), below),
            None => below,
        }
    }
}

/// The selected part of the chosen layers, cropped to the bounds.
pub open spec fn clip_picture(
    layers: Seq<LayerView>,
    ids: Seq<LayerId>,
    maps: Seq<LayerMaps>,
    mask: Grid<bool>,
    b: SelectionBounds,
) -> Grid<Color> {
    grid_of(
        b.max_x - b.min_x + 1,
        b.max_y - b.min_y + 1,
        |x: int, y: int|
            if selected(mask, b.min_x + x, b.min_y + y) {
                chosen_stacked(layers, ids, maps, ids.len() as int, b.min_x + x, b.min_y + y)
            } else {
                clear()
            },
    )
}

/// The pixels of the layer may be cut: it is not the scanned page, and not a layer with effects.
pub open spec fn cuttable(l: LayerView) -> bool {
    l.kind != LayerKind::Source && (l.kind == LayerKind::Raster ==> l.editable())
}

/// The layers after the first `n` chosen ones were cut.
pub open spec fn cut_layers(
    layers: Seq<LayerView>,
    ids: Seq<LayerId>,
    maps: Seq<LayerMaps>,
    mask: Grid<bool>,
    n: int,
) -> Seq<LayerView>
    decreases n,
{
    if n <= 0 {
        layers
    } else {
        let prev = cut_layers(layers, ids, maps, mask, n - 1);
        match layer_from(prev, ids[n - 1], 0) {
            Some(i) => if cuttable(prev[i]) {
                prev.update(
                    i,
                    LayerView {
                        image: cleared(prev[i].image, mask, opt_places(maps[n - 1].to_page)),
                        pixels_dirty: true,
                        ..prev[i]
                    },
                )
            } else {
                prev
            },
            None => prev,
        }
    }
}

/// The place of the cropped picture: where it was lifted from.
pub open spec fn clip_placement(b: SelectionBounds) -> LayerTransform {
    LayerTransform {
        cx: half_pattern((b.min_x + b.max_x + 1) as nat) as u32,
        cy: half_pattern((b.min_y + b.max_y + 1) as nat) as u32,
        rotation: ZERO,
        scale: ONE,
    }
}

pub open spec fn clip_name(mode: ClipMode) -> Seq<char> {
    match mode {
        ClipMode::Copy => "Копия"@,
        ClipMode::Cut => "Вырезка"@,
    }
}

proof fn lemma_cut_layers(
    s: StackView,
    ids: Seq<LayerId>,
    maps: Seq<LayerMaps>,
    mask: Grid<bool>,
    n: int,
)
    requires
        s.valid(),
        0 <= n,
    ensures
        (StackView { layers: cut_layers(s.layers, ids, maps, mask, n), ..s }).valid(),
        cut_layers(s.layers, ids, maps, mask, n).len() == s.layers.len(),
    decreases n,
{
    if n > 0 {
        lemma_cut_layers(s, ids, maps, mask, n - 1);
        let prev = cut_layers(s.layers, ids, maps, mask, n - 1);
        let p = StackView { layers: prev, ..s };
        let t = StackView { layers: cut_layers(s.layers, ids, maps, mask, n), ..s };
        lemma_layer_from(prev, ids[n - 1], 0);
        assert forall|i: int| 0 <= i < p.layers.len() implies (#[trigger] t.layers[i]).valid()
            && t.layers[i].id == p.layers[i].id && t.layers[i].kind == p.layers[i].kind by {
            assert(p.layers[i].valid());
            clearing_keeps_the_rest(prev[i].image, mask, opt_places(maps[n - 1].to_page));
        }
        lemma_same_shape(p, t);
    }
}

/// A cut leaves the scanned page, and every layer with effects, as it is; every other pixel of any
/// layer is either as before or clear.
pub proof fn cutting_spares_the_source(
    s: StackView,
    ids: Seq<LayerId>,
    maps: Seq<LayerMaps>,
    mask: Grid<bool>,
    n: int,
    i: int,
)
    requires
        s.valid(),
        0 <= n,
        0 <= i < s.layers.len(),
    ensures
        !cuttable(s.layers[i]) ==> cut_layers(s.layers, ids, maps, mask, n)[i] == s.layers[i],
        ({
            let after = cut_layers(s.layers, ids, maps, mask, n)[i];
            &&& after.kind == s.layers[i].kind
            &&& after.effects == s.layers[i].effects
            &&& after.image.same_size(s.layers[i].image)
            &&& after.image.valid()
            &&& forall|x: int, y: int|
                after.image.inside(x, y) ==> #[trigger] after.image.at(x, y)
                    == s.layers[i].image.at(x, y) || after.image.at(x, y) == clear()
        }),
    decreases n,
{
    assert(s.layers[i].valid());
    if n > 0 {
        cutting_spares_the_source(s, ids, maps, mask, n - 1, i);
        let prev = cut_layers(s.layers, ids, maps, mask, n - 1);
        lemma_cut_layers(s, ids, maps, mask, n - 1);
        lemma_layer_from(prev, ids[n - 1], 0);
        let tp = opt_places(maps[n - 1].to_page);
        clearing_keeps_the_rest(prev[i].image, mask, tp);
        let after = cut_layers(s.layers, ids, maps, mask, n)[i];
        assert forall|x: int, y: int| after.image.inside(x, y) implies #[trigger] after.image.at(
            x,
            y,
        ) == s.layers[i].image.at(x, y) || after.image.at(x, y) == clear() by {
            assert(prev[i].image.inside(x, y));
            assert(prev[i].image.at(x, y) == prev[i].image.at(x, y));
        }
    }
}

/// Builds the picture of the chosen layers within the selection.
fn build_clip(
    stack: &LayerStack,
    selection: &Selection,
    layer_ids: &Vec<LayerId>,
    maps: &Vec<LayerMaps>,
    b: SelectionBounds,
) -> (out: ColorImage)
    requires
        stack.wf(),
        selection.wf(),
        tight(selection.mask@, b),
        maps@.len() == layer_ids@.len(),
        forall|i: int| 0 <= i < maps@.len() ==> (#[trigger] maps@[i]).wf(),
    ensures
        out.wf(),
        out@ == clip_picture(stack@.layers, layer_ids@, maps@, selection.mask@, b),
{
    let ghost m = selection.mask@;
    let ghost ls = stack@.layers;
    let w: usize = b.max_x - b.min_x + 1;
    let h: usize = b.max_y - b.min_y + 1;
    assert(w * h <= usize::MAX) by {
        assert(w * h <= m.w * m.h) by (nonlinear_arith)
            requires
                0 <= w <= m.w,
                0 <= h <= m.h,
        ;
        assert(selection.mask.px.len() <= usize::MAX);
    }
    let ghost f = |x: int, y: int|
        if selected(m, b.min_x + x, b.min_y + y) {
            chosen_stacked(ls, layer_ids@, maps@, layer_ids@.len() as int, b.min_x + x, b.min_y + y)
        } else {
            clear()
        };
    let ghost target = grid_of(w as int, h as int, f);
    let n: usize = w * h;
    let mut px: Vec<Color> = Vec::new();
    let mut i: usize = 0;
    while i < n
        invariant
            i <= n,
            n == w * h,
            w == b.max_x - b.min_x + 1,
            h == b.max_y - b.min_y + 1,
            b.min_x <= b.max_x < m.w,
            b.min_y <= b.max_y < m.h,
            stack.wf(),
            selection.wf(),
            m == selection.mask@,
            ls == stack@.layers,
            maps@.len() == layer_ids@.len(),
            forall|k: int| 0 <= k < maps@.len() ==> (#[trigger] maps@[k]).wf(),
            f == (|x: int, y: int|
                if selected(m, b.min_x + x, b.min_y + y) {
                    chosen_stacked(
                        ls,
                        layer_ids@,
                        maps@,
                        layer_ids@.len() as int,
                        b.min_x + x,
                        b.min_y + y,
                    )
                } else {
                    clear()
                }),
            target == grid_of(w as int, h as int, f),
            target.px.len() == n,
            px@ == target.px.take(i as int),
        decreases n - i,
    {
        proof {
            lemma_position(w as int, h as int, i as int);
        }
        let x: usize = b.min_x + i % w;
        let y: usize = b.min_y + i / w;
        let mut c = Color::transparent();
        if selection.contains(x, y) {
            let mut k: usize = 0;
            while k < layer_ids.len()
                invariant
                    k <= layer_ids@.len(),
                    stack.wf(),
                    ls == stack@.layers,
                    maps@.len() == layer_ids@.len(),
                    forall|j: int| 0 <= j < maps@.len() ==> (#[trigger] maps@[j]).wf(),
                    c == chosen_stacked(ls, layer_ids@, maps@, k as int, x as int, y as int),
                decreases layer_ids@.len() - k,
            {
                if let Some(p) = stack.position(layer_ids[k]) {
                    assert(ls[p as int].valid());
                    assert(maps@[k as int].wf());
                    c = over(sample_layer_world(&stack.layers[p], &maps[k].to_layer, x, y), c);
                }
                k += 1;
            }
        }
        px.push(c);
        i += 1;
        assert(px@ =~= target.px.take(i as int));
    }
    let out = Raster { w, h, px };
    assert(out@ =~= target);
    out
}

/// Copies the selected part of the chosen layers into a new layer on top, cropped to the bounds of
/// the selection and placed where it was lifted from.  A cut also clears it in the chosen layers,
/// except in the scanned page and in layers with effects.  Nothing happens where nothing is
/// selected or chosen.
pub fn clip_into_new_layer(
    stack: &mut LayerStack,
    selection: &Selection,
    mode: ClipMode,
    layer_ids: &Vec<LayerId>,
    maps: &Vec<LayerMaps>,
    uid: u128,
) -> (r: Option<SelectionBounds>)
    requires
        old(stack).wf(),
        selection.wf(),
        maps@.len() == layer_ids@.len(),
        forall|i: int| 0 <= i < maps@.len() ==> (#[trigger] maps@[i]).wf(),
        old(stack)@.next_layer_id < u64::MAX,
        2 * selection.mask@.w <= usize::MAX,
        2 * selection.mask@.h <= usize::MAX,
    ensures
        final(stack).wf(),
        r is Some <==> any_selected(selection.mask@) && layer_ids@.len() > 0,
        match r {
            None => *final(stack) == *old(stack),
            Some(b) => tight(selection.mask@, b) && final(stack)@ == (StackView {
                layers: match mode {
                    ClipMode::Copy => old(stack)@.layers,
                    ClipMode::Cut => cut_layers(
                        old(stack)@.layers,
                        layer_ids@,
                        maps@,
                        selection.mask@,
                        layer_ids@.len() as int,
                    ),
                },
                ..old(stack)@
            }).with_raster(
                new_raster(
                    old(stack)@.next_layer_id,
                    uid,
                    clip_name(mode),
                    clip_picture(old(stack)@.layers, layer_ids@, maps@, selection.mask@, b),
                    clip_placement(b),
                ),
            ),
        },
{
    let b = match selection.bounds() {
        Some(b) => b,
        None => {
            return None;
        },
    };
    if layer_ids.len() == 0 {
        return None;
    }
    let image = build_clip(stack, selection, layer_ids, maps, b);
    let ghost s0 = stack@;
    let ghost m = selection.mask@;
    if mode == ClipMode::Cut {
        let mut n: usize = 0;
        while n < layer_ids.len()
            invariant
                n <= layer_ids@.len(),
                s0.valid(),
                selection.wf(),
                m == selection.mask@,
                maps@.len() == layer_ids@.len(),
                forall|i: int| 0 <= i < maps@.len() ==> (#[trigger] maps@[i]).wf(),
                stack@ == (StackView {
                    layers: cut_layers(s0.layers, layer_ids@, maps@, m, n as int),
                    ..s0
                }),
            decreases layer_ids@.len() - n,
        {
            let ghost prev = stack@.layers;
            proof {
                lemma_cut_layers(s0, layer_ids@, maps@, m, n as int);
            }
            if let Some(p) = stack.position(layer_ids[n]) {
                assert(prev[p as int].valid());
                let skip = stack.layers[p].kind == LayerKind::Source || (stack.layers[p].kind
                    == LayerKind::Raster && !stack.layers[p].can_edit_pixels());
                if !skip {
                    assert(maps@[n as int].wf());
                    let layer = &mut stack.layers[p];
                    clear_selected_pixels(layer, selection, &maps[n].to_page);
                    layer.pixels_dirty = true;
                    assert(stack@.layers =~= cut_layers(s0.layers, layer_ids@, maps@, m, n + 1));
                }
            }
            n += 1;
        }
        proof {
            lemma_cut_layers(s0, layer_ids@, maps@, m, layer_ids@.len() as int);
        }
    }
    let name = match mode {
        ClipMode::Copy => String::from_str("Копия"),
        ClipMode::Cut => String::from_str("Вырезка"),
    };
    let transform = LayerTransform {
        cx: half_bits(b.min_x + b.max_x + 1),
        cy: half_bits(b.min_y + b.max_y + 1),
        rotation: ZERO,
        scale: ONE,
    };
    stack.add_raster_layer_image(uid, name, image, transform);
    Some(b)
}

} // verus!
