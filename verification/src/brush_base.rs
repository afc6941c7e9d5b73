//! The brush of the cleaning tools: its settings, and the scratch picture that a stroke is drawn
//! on before it is committed.

use vstd::prelude::*;
use crate::color::{Color, ColorImage};
#[allow(unused_imports)]
use crate::float_bits::at_most_epsilon;
use crate::float_bits::is_at_most_epsilon;
#[allow(unused_imports)]
use crate::lists::lemma_push_contains;
use crate::overlay_rect::{
    build_local_tile_image, expand_overlay_rect, extract_local_chunk, extract_overlay_chunk, overlay_rect_to_local_rect,
    scratch_tile_indices_for_overlay_rect, segment_dirty_overlay_rect, union_overlay_rect,
    OverlayRectPx,
};
#[allow(unused_imports)]
use crate::overlay_rect::{
    chunk_of, expanded, local_chunk, local_rect, segment_dirty, tile_image, touched_tiles, united,
};
use crate::raster::Grid;
#[allow(unused_imports)]
use crate::raster::lemma_position;
use crate::tiles::{tile_grid, TileRect};
#[allow(unused_imports)]
use crate::tiles::{tile_at, tile_count, tiles_of, TILE_SIDE};

verus! {

/// The bounds of the brush radius, in pixels.
pub const MIN_RADIUS_PX: usize = 1;

pub const MAX_RADIUS_PX: usize = 200;

/// How far one notch of the wheel changes the radius.
pub const WHEEL_STEP_PX: usize = 2;

/// A tile of the scratch picture, and whether it was uploaded without smoothing.
#[derive(Clone, Copy, Debug, PartialEq, Eq, Structural)]
pub struct ScratchTile {
    pub rect: TileRect,
    pub nearest: bool,
}

/// A stroke that is being drawn: the part of the overlay it may touch, as it was and as it is,
/// how strongly each pixel was brushed, and what has to be uploaded and committed.
pub struct ScratchStroke {
    pub page_idx: usize,
    pub overlay_rect: OverlayRectPx,
    pub base_image: ColorImage,
    pub image: ColorImage,
    /// Bit patterns of the brush strength, one for each pixel.
    pub strengths: Vec<u32>,
    pub tiles: Vec<ScratchTile>,
    pub dirty_tiles: Vec<usize>,
    pub dirty_rect: Option<OverlayRectPx>,
}

impl ScratchStroke {
    pub open spec fn wf(&self) -> bool {
        &&& self.overlay_rect.w > 0
        &&& self.overlay_rect.h > 0
        &&& self.base_image.wf()
        &&& self.image.wf()
        &&& self.image.w == self.overlay_rect.w
        &&& self.image.h == self.overlay_rect.h
        &&& self.base_image.w == self.overlay_rect.w
        &&& self.base_image.h == self.overlay_rect.h
        &&& self.strengths@.len() == self.image.px@.len()
        &&& self.overlay_rect.x + self.overlay_rect.w <= i32::MAX
        &&& self.overlay_rect.y + self.overlay_rect.h <= i32::MAX
        &&& self.dirty_tiles@.no_duplicates()
        &&& self.tiles@.len() > 0 ==> self.tiles@.map_values(|t: ScratchTile| t.rect) == tiles_of(
            self.image@.w,
            self.image@.h,
        )
        &&& self.dirty_rect is Some ==> {
            let d = self.dirty_rect->0;
            &&& d.x >= self.overlay_rect.x
            &&& d.y >= self.overlay_rect.y
            &&& d.x + d.w <= self.overlay_rect.x + self.overlay_rect.w
            &&& d.y + d.h <= self.overlay_rect.y + self.overlay_rect.h
        }
    }
}

/// A radius within the bounds.
pub open spec fn radius_in_bounds(r: int) -> int {
    if r < MIN_RADIUS_PX {
        MIN_RADIUS_PX as int
    } else if r > MAX_RADIUS_PX {
        MAX_RADIUS_PX as int
    } else {
        r
    }
}

/// The next smaller radius: nine tenths, but one pixel less at least.
pub open spec fn shrunk_radius(r: int) -> int {
    let tenth = 9 * r / 10;
    let next = if tenth >= r && r > MIN_RADIUS_PX {
        r - 1
    } else {
        tenth
    };
    radius_in_bounds(next)
}

/// The next larger radius: eleven tenths, but one pixel more at least.
pub open spec fn widened_radius(r: int) -> int {
    let tenth = (11 * r + 9) / 10;
    let next = if tenth <= r && r < MAX_RADIUS_PX {
        r + 1
    } else {
        tenth
    };
    radius_in_bounds(next)
}

/// The pixel at an offset is in the rectangle.
pub open spec fn in_target(dst: Grid<Color>, target: OverlayRectPx, i: int) -> bool {
    target.holds(i % dst.w, i / dst.w)
}

/// The picture after a stroke: inside the rectangle every brushed pixel is painted anew from the
/// base, and every other pixel shows the base.
pub open spec fn brushed(
    dst: Grid<Color>,
    base: Grid<Color>,
    strengths: Seq<u32>,
    painted: Grid<Color>,
    local: Option<OverlayRectPx>,
) -> Grid<Color> {
    if !dst.same_size(base) || dst.px.len() != strengths.len() || base.px.len() != strengths.len() {
        dst
    } else {
        Grid {
            w: dst.w,
            h: dst.h,
            px: Seq::new(
                dst.px.len(),
                |i: int|
                    if local is None || in_target(dst, local->0, i) {
                        if at_most_epsilon(strengths[i]) {
                            base.px[i]
                        } else {
                            painted.px[i]
                        }
                    } else {
                        dst.px[i]
                    },
            ),
        }
    }
}

/// Paints a stroke into a picture.  `painted` holds the colour of every brushed pixel.
pub fn apply_cleaning_brush_stroke(
    dst: &mut ColorImage,
    base: &ColorImage,
    strengths: &Vec<u32>,
    painted: &ColorImage,
    local_rect: Option<OverlayRectPx>,
)
    requires
        old(dst).wf(),
        base.wf(),
        painted.px@.len() == old(dst).px@.len(),
    ensures
        final(dst).wf(),
        final(dst)@ == brushed(old(dst)@, base@, strengths@, painted@, local_rect),
{
    if dst.w != base.w || dst.h != base.h || dst.px.len() != strengths.len() || base.px.len()
        != strengths.len() {
        return;
    }
    let ghost before = dst@;
    let ghost target = brushed(before, base@, strengths@, painted@, local_rect);
    let n: usize = dst.px.len();
    let mut i: usize = 0;
    while i < n
        invariant
            i <= n,
            n == before.px.len(),
            before.valid(),
            dst.wf(),
            dst@.same_size(before),
            dst@.px.len() == n,
            base@.same_size(before),
            base@.px.len() == n,
            strengths@.len() == n,
            painted.px@.len() == n,
            target == brushed(before, base@, strengths@, painted@, local_rect),
            forall|k: int|
                0 <= k < n ==> #[trigger] dst@.px[k] == if k < i {
                    target.px[k]
                } else {
                    before.px[k]
                },
        decreases n - i,
    {
        proof {
            lemma_position(before.w, before.h, i as int);
        }
        let x: usize = i % dst.w;
        let y: usize = i / dst.w;
        let inside: bool = match local_rect {
            None => true,
            Some(r) => r.x <= x && x - r.x < r.w && r.y <= y && y - r.y < r.h,
        };
        if inside {
            if is_at_most_epsilon(strengths[i]) {
                dst.px.set(i, base.px[i]);
            } else {
                dst.px.set(i, painted.px[i]);
            }
        }
        i += 1;
    }
    assert(dst@ =~= target);
}

/// Outside its rectangle a stroke changes nothing, and where nothing was brushed the base shows
/// again.
pub proof fn strokes_stay_in_their_rect(
    dst: Grid<Color>,
    base: Grid<Color>,
    strengths: Seq<u32>,
    painted: Grid<Color>,
    local: OverlayRectPx,
    i: int,
)
    requires
        0 <= i < dst.px.len(),
        dst.same_size(base),
        dst.px.len() == strengths.len(),
        base.px.len() == strengths.len(),
    ensures
        !in_target(dst, local, i) ==> brushed(dst, base, strengths, painted, Some(local)).px[i]
            == dst.px[i],
        in_target(dst, local, i) && at_most_epsilon(strengths[i]) ==> brushed(
            dst,
            base,
            strengths,
            painted,
            Some(local),
        ).px[i] == base.px[i],
{
}

/// What a committed stroke writes: the page, the changed rectangle and its pixels.
pub struct StrokePatch {
    pub page_idx: usize,
    pub rect: OverlayRectPx,
    pub image: ColorImage,
}

/// The brush of the cleaning tools.
pub struct BrushToolBase {
    pub radius_px: usize,
    /// The bit pattern of the hardness.
    pub hardness: u32,
    pub blend_colors: bool,
    pub strict_pixel_painting: bool,
    pub space_pan_active: bool,
    pub scratch: Option<ScratchStroke>,
}

impl Default for BrushToolBase {
    fn default() -> (b: BrushToolBase)
        ensures
            b.wf(),
            b.radius_px == 24,
            b.hardness == 0x3F7D_70A4,
            b.blend_colors,
            !b.strict_pixel_painting,
            !b.space_pan_active,
            b.scratch is None,
    {
        BrushToolBase {
            radius_px: 24,
            hardness: 0x3F7D_70A4,
            blend_colors: true,
            strict_pixel_painting: false,
            space_pan_active: false,
            scratch: None,
        }
    }
}

impl BrushToolBase {
    pub open spec fn wf(&self) -> bool {
        &&& MIN_RADIUS_PX <= self.radius_px <= MAX_RADIUS_PX
        &&& self.scratch is Some ==> (self.scratch->0).wf()
    }

    pub fn radius_px(&self) -> (r: usize)
        ensures
            r == self.radius_px,
    {
        self.radius_px
    }

    /// Sets the radius within its bounds; tells whether it changed.
    pub fn set_radius_px(&mut self, radius_px: usize) -> (changed: bool)
        requires
            old(self).wf(),
        ensures
            final(self).wf(),
            *final(self) == (BrushToolBase {
                radius_px: radius_in_bounds(radius_px as int) as usize,
                ..*old(self)
            }),
            changed == (final(self).radius_px != old(self).radius_px),
    {
        let next: usize = if radius_px < MIN_RADIUS_PX {
            MIN_RADIUS_PX
        } else if radius_px > MAX_RADIUS_PX {
            MAX_RADIUS_PX
        } else {
            radius_px
        };
        if next == self.radius_px {
            return false;
        }
        self.radius_px = next;
        true
    }

    pub fn hardness(&self) -> (h: u32)
        ensures
            h == self.hardness,
    {
        self.hardness
    }

    pub fn blend_colors(&self) -> (b: bool)
        ensures
            b == self.blend_colors,
    {
        self.blend_colors
    }

    pub fn set_blend_colors(&mut self, blend_colors: bool) -> (changed: bool)
        ensures
            *final(self) == (BrushToolBase { blend_colors, ..*old(self) }),
            changed == (old(self).blend_colors != blend_colors),
    {
        if self.blend_colors == blend_colors {
            return false;
        }
        self.blend_colors = blend_colors;
        true
    }

    pub fn strict_pixel_painting(&self) -> (b: bool)
        ensures
            b == self.strict_pixel_painting,
    {
        self.strict_pixel_painting
    }

    pub fn set_strict_pixel_painting(&mut self, strict_pixel_painting: bool) -> (changed: bool)
        ensures
            *final(self) == (BrushToolBase { strict_pixel_painting, ..*old(self) }),
            changed == (old(self).strict_pixel_painting != strict_pixel_painting),
    {
        if self.strict_pixel_painting == strict_pixel_painting {
            return false;
        }
        self.strict_pixel_painting = strict_pixel_painting;
        true
    }

    /// Changes the radius by whole wheel notches while Shift is held; tells whether the wheel is
    /// the brush's.
    pub fn handle_wheel(&mut self, shift: bool, notches: i32) -> (handled: bool)
        requires
            old(self).wf(),
        ensures
            final(self).wf(),
            handled == shift,
            *final(self) == (BrushToolBase {
                radius_px: if shift {
                    radius_in_bounds(old(self).radius_px + notches * WHEEL_STEP_PX) as usize
                } else {
                    old(self).radius_px
                },
                ..*old(self)
            }),
    {
        if !shift {
            return false;
        }
        let next: i64 = self.radius_px as i64 + notches as i64 * 2;
        let next: usize = if next < 1 {
            1
        } else if next > 200 {
            200
        } else {
            next as usize
        };
        let _ = self.set_radius_px(next);
        true
    }

    /// Shrinks or widens the brush by about a tenth; tells whether the radius changed.
    pub fn handle_size_shortcuts(&mut self, minus: bool, plus: bool) -> (changed: bool)
        requires
            old(self).wf(),
        ensures
            final(self).wf(),
            ({
                let r0 = old(self).radius_px as int;
                let r1 = if minus {
                    shrunk_radius(r0)
                } else {
                    r0
                };
                let r2 = if plus {
                    widened_radius(r1)
                } else {
                    r1
                };
                &&& *final(self) == (BrushToolBase { radius_px: r2 as usize, ..*old(self) })
                &&& changed == (r1 != r0 || r2 != r1)
            }),
    {
        let mut changed: bool = false;
        if minus {
            let mut next: usize = 9 * self.radius_px / 10;
            if next >= self.radius_px && self.radius_px > MIN_RADIUS_PX {
                next = self.radius_px - 1;
            }
            changed = self.set_radius_px(next);
        }
        if plus {
            let mut next: usize = (11 * self.radius_px + 9) / 10;
            if next <= self.radius_px && self.radius_px < MAX_RADIUS_PX {
                next = self.radius_px + 1;
            }
            let more: bool = self.set_radius_px(next);
            changed = changed || more;
        }
        changed
    }

    pub fn set_space_pan_active(&mut self, active: bool)
        ensures
            *final(self) == (BrushToolBase { space_pan_active: active, ..*old(self) }),
    {
        self.space_pan_active = active;
    }

    pub fn space_pan_active(&self) -> (b: bool)
        ensures
            b == self.space_pan_active,
    {
        self.space_pan_active
    }

    pub fn should_ignore_drawing(&self) -> (b: bool)
        ensures
            b == self.space_pan_active,
    {
        self.space_pan_active
    }

    pub fn scratch_active(&self) -> (b: bool)
        ensures
            b == (self.scratch is Some),
    {
        self.scratch.is_some()
    }

    /// How far from its points a segment can change pixels.
    pub fn paint_dirty_margin(&self) -> (m: usize)
        requires
            self.wf(),
        ensures
            m == if self.strict_pixel_painting {
                self.radius_px as int
            } else {
                self.radius_px + 1
            },
    {
        if self.strict_pixel_painting {
            self.radius_px
        } else {
            self.radius_px + 1
        }
    }

    /// Starts a stroke on the part of the overlay around `visible`; a running stroke goes on.
    pub fn begin_scratch_stroke(&mut self, page_idx: usize, overlay: &ColorImage, visible: OverlayRectPx) -> (ok:
        bool)
        requires
            old(self).wf(),
            overlay.wf(),
            overlay.w <= i32::MAX,
            overlay.h <= i32::MAX,
            overlay.w > 0,
            overlay.h > 0,
            visible.w > 0,
            visible.h > 0,
            visible.x + visible.w <= overlay.w,
            visible.y + visible.h <= overlay.h,
        ensures
            final(self).wf(),
            ok,
            old(self).scratch is Some ==> *final(self) == *old(self),
            old(self).scratch is None ==> {
                let rect = expanded(
                    visible,
                    overlay@.w,
                    overlay@.h,
                    (old(self).radius_px + 2) as int,
                );
                let s = final(self).scratch->0;
                &&& final(self).scratch is Some
                &&& s.page_idx == page_idx
                &&& s.overlay_rect == rect
                &&& s.base_image@ == chunk_of(overlay@, rect)
                &&& s.image@ == chunk_of(overlay@, rect)
                &&& s.strengths@ == Seq::new((rect.w * rect.h) as nat, |i: int| 0u32)
                &&& s.tiles@.len() == 0
                &&& s.dirty_tiles@.len() == 0
                &&& s.dirty_rect is None
                &&& *final(self) == (BrushToolBase { scratch: final(self).scratch, ..*old(self) })
            },
    {
        if self.scratch.is_some() {
            return true;
        }
        let rect = expand_overlay_rect(visible, overlay.w, overlay.h, self.radius_px + 2);
        proof {
            assert(rect.w * rect.h <= overlay.w * overlay.h) by (nonlinear_arith)
                requires
                    0 <= rect.w <= overlay.w,
                    0 <= rect.h <= overlay.h,
            ;
            assert(overlay.px.len() <= usize::MAX);
        }
        let base_image = extract_overlay_chunk(overlay, rect);
        let image = base_image.copied();
        let n: usize = rect.w * rect.h;
        let mut strengths: Vec<u32> = Vec::new();
        let mut i: usize = 0;
        while i < n
            invariant
                i <= n,
                strengths@ == Seq::new(i as nat, |k: int| 0u32),
            decreases n - i,
        {
            strengths.push(0);
            i += 1;
            assert(strengths@ =~= Seq::new(i as nat, |k: int| 0u32));
        }
        self.scratch = Some(
            ScratchStroke {
                page_idx,
                overlay_rect: rect,
                base_image,
                image,
                strengths,
                tiles: Vec::new(),
                dirty_tiles: Vec::new(),
                dirty_rect: None,
            },
        );
        true
    }

    /// Ends the stroke without a trace.
    pub fn cancel_scratch_stroke(&mut self)
        ensures
            *final(self) == (BrushToolBase { scratch: None, ..*old(self) }),
    {
        self.scratch = None;
    }

    /// Ends the stroke and returns what it changed, if anything.
    pub fn commit_scratch_stroke(&mut self) -> (patch: Option<StrokePatch>)
        requires
            old(self).wf(),
        ensures
            final(self).wf(),
            *final(self) == (BrushToolBase { scratch: None, ..*old(self) }),
            patch is Some <==> old(self).scratch is Some && (old(self).scratch->0).dirty_rect
                is Some,
            patch is Some ==> {
                let s = old(self).scratch->0;
                let p = patch->0;
                &&& p.page_idx == s.page_idx
                &&& Some(p.rect) == s.dirty_rect
                &&& p.image.wf()
                &&& p.image@ == local_chunk(s.image@, s.overlay_rect, p.rect)
            },
    {
        let stroke = match self.scratch.take() {
            Some(s) => s,
            None => {
                return None;
            },
        };
        let rect = match stroke.dirty_rect {
            Some(r) => r,
            None => {
                return None;
            },
        };
        proof {
            assert(rect.w * rect.h <= stroke.image.w * stroke.image.h) by (nonlinear_arith)
                requires
                    0 <= rect.w <= stroke.image.w,
                    0 <= rect.h <= stroke.image.h,
            ;
            assert(stroke.image.px.len() <= usize::MAX);
        }
        let image = extract_local_chunk(&stroke.image, stroke.overlay_rect, rect);
        Some(StrokePatch { page_idx: stroke.page_idx, rect, image })
    }
}

/// The stroke after a segment between two overlay pixels was brushed onto it.
pub open spec fn segment_painted(
    s: ScratchStroke,
    x0: int,
    y0: int,
    x1: int,
    y1: int,
    margin: int,
    strengths: Seq<u32>,
    painted: Grid<Color>,
    out: ScratchStroke,
) -> bool {
    let dirty = segment_dirty(x0, y0, x1, y1, margin, s.overlay_rect);
    &&& out.page_idx == s.page_idx
    &&& out.overlay_rect == s.overlay_rect
    &&& out.base_image == s.base_image
    &&& out.tiles == s.tiles
    &&& out.strengths@ == strengths
    &&& dirty is None ==> out.image == s.image && out.dirty_rect == s.dirty_rect && out.dirty_tiles
        == s.dirty_tiles
    &&& dirty is Some ==> {
        let d = dirty->0;
        &&& out.image@ == brushed(
            s.image@,
            s.base_image@,
            strengths,
            painted,
            local_rect(s.overlay_rect, d),
        )
        &&& out.dirty_rect == Some(
            match s.dirty_rect {
                Some(e) => united(e, d),
                None => d,
            },
        )
        &&& out.dirty_tiles@.to_set() == s.dirty_tiles@.to_set().union(
            touched_tiles(s.overlay_rect, s.image@.w, d).to_set(),
        )
    }
}

/// Adds numbers to a list that holds every number once.
fn insert_all(list: &mut Vec<usize>, more: &Vec<usize>)
    requires
        old(list)@.no_duplicates(),
    ensures
        final(list)@.no_duplicates(),
        final(list)@.to_set() == old(list)@.to_set().union(more@.to_set()),
{
    let ghost before = list@;
    let mut i: usize = 0;
    proof {
        assert(more@.take(0).to_set() =~= Set::<usize>::empty());
        assert(before.to_set().union(Set::<usize>::empty()) =~= before.to_set());
    }
    while i < more.len()
        invariant
            i <= more@.len(),
            list@.no_duplicates(),
            list@.to_set() == before.to_set().union(more@.take(i as int).to_set()),
        decreases more@.len() - i,
    {
        let v: usize = more[i];
        let mut found: bool = false;
        let mut j: usize = 0;
        while j < list.len() && !found
            invariant
                j <= list@.len(),
                found ==> list@.contains(v),
                !found ==> forall|k: int| 0 <= k < j ==> list@[k] != v,
            decreases list@.len() - j + if found { 0int } else { 1int },
        {
            if list[j] == v {
                assert(list@[j as int] == v);
                found = true;
            } else {
                j += 1;
            }
        }
        let ghost mid = list@;
        if !found {
            list.push(v);
        }
        proof {
            let done = more@.take(i as int);
            let next = more@.take(i + 1);
            assert(next =~= done.push(v));
            assert(next.to_set() =~= done.to_set().insert(v)) by {
                assert forall|q: usize| next.to_set().contains(q) == done.to_set().insert(v).contains(q) by {
                    lemma_push_contains(done, v, q);
                }
            }
            assert forall|q: usize| list@.to_set().contains(q) == mid.to_set().insert(v).contains(q) by {
                if !found {
                    lemma_push_contains(mid, v, q);
                }
            }
            assert(list@.to_set() =~= mid.to_set().insert(v));
            assert(list@.to_set() =~= before.to_set().union(next.to_set()));
        }
        i += 1;
    }
    assert(more@.take(more@.len() as int) =~= more@);
}

impl ScratchStroke {
    /// Brushes a segment onto the scratch picture and records what it may have changed.
    pub fn paint_segment(
        &mut self,
        from: (usize, usize),
        to: (usize, usize),
        margin: usize,
        strengths: Vec<u32>,
        painted: &ColorImage,
    )
        requires
            old(self).wf(),
            strengths@.len() == old(self).image.px@.len(),
            painted.px@.len() == old(self).image.px@.len(),
        ensures
            final(self).wf(),
            segment_painted(
                *old(self),
                from.0 as int,
                from.1 as int,
                to.0 as int,
                to.1 as int,
                margin as int,
                strengths@,
                painted@,
                *final(self),
            ),
    {
        self.strengths = strengths;
        match segment_dirty_overlay_rect(from.0, from.1, to.0, to.1, margin, self.overlay_rect) {
            None => {},
            Some(d) => {
                let local = overlay_rect_to_local_rect(self.overlay_rect, d);
                apply_cleaning_brush_stroke(
                    &mut self.image,
                    &self.base_image,
                    &self.strengths,
                    painted,
                    local,
                );
                self.dirty_rect = Some(
                    match self.dirty_rect {
                        Some(e) => union_overlay_rect(e, d),
                        None => d,
                    },
                );
                proof {
                    assert(self.image.px.len() <= usize::MAX);
                }
                let touched = scratch_tile_indices_for_overlay_rect(
                    self.overlay_rect,
                    self.image.w,
                    d,
                );
                insert_all(&mut self.dirty_tiles, &touched);
            },
        }
    }

    /// Cuts the scratch picture into tiles, or marks the tiles that were uploaded with another
    /// smoothing.
    pub fn ensure_scratch_tiles(&mut self, nearest: bool)
        requires
            old(self).wf(),
        ensures
            final(self).wf(),
            final(self).image == old(self).image,
            final(self).base_image == old(self).base_image,
            final(self).strengths == old(self).strengths,
            final(self).page_idx == old(self).page_idx,
            final(self).overlay_rect == old(self).overlay_rect,
            final(self).dirty_rect == old(self).dirty_rect,
            old(self).tiles@.len() == 0 ==> final(self).dirty_tiles == old(self).dirty_tiles
                && final(self).tiles@ == tiles_of(old(self).image@.w, old(self).image@.h).map_values(
                |t: TileRect| ScratchTile { rect: t, nearest },
            ),
            old(self).tiles@.len() > 0 ==> final(self).tiles == old(self).tiles && forall|i: usize|
                #[trigger] final(self).dirty_tiles@.contains(i) <==> old(self).dirty_tiles@.contains(i)
                    || (i < old(self).tiles@.len() && old(self).tiles@[i as int].nearest != nearest),
    {
        if self.tiles.len() > 0 {
            let mut other: Vec<usize> = Vec::new();
            let mut i: usize = 0;
            while i < self.tiles.len()
                invariant
                    i <= self.tiles@.len(),
                    forall|q: usize|
                        #[trigger] other@.contains(q) <==> q < i && self.tiles@[q as int].nearest
                            != nearest,
                decreases self.tiles@.len() - i,
            {
                let ghost mid = other@;
                if self.tiles[i].nearest != nearest {
                    other.push(i);
                    proof {
                        assert forall|q: usize| #[trigger] other@.contains(q) <==> q < i + 1
                            && self.tiles@[q as int].nearest != nearest by {
                            lemma_push_contains(mid, i, q);
                            assert(mid.contains(q) <==> q < i && self.tiles@[q as int].nearest
                                != nearest);
                        }
                    }
                }
                i += 1;
            }
            let ghost before = self.dirty_tiles@;
            insert_all(&mut self.dirty_tiles, &other);
            proof {
                assert forall|i: usize| #[trigger] self.dirty_tiles@.contains(i) <==> before.contains(i)
                    || (i < self.tiles@.len() && self.tiles@[i as int].nearest != nearest) by {
                    assert(self.dirty_tiles@.to_set().contains(i) == before.to_set().union(
                        other@.to_set(),
                    ).contains(i));
                    assert(other@.contains(i) <==> i < self.tiles@.len()
                        && self.tiles@[i as int].nearest != nearest);
                }
            }
            return;
        }
        assert(self.image.px.len() <= usize::MAX);
        let rects = tile_grid(self.image.w, self.image.h);
        let mut tiles: Vec<ScratchTile> = Vec::new();
        let mut i: usize = 0;
        while i < rects.len()
            invariant
                i <= rects@.len(),
                tiles@.len() == i,
                forall|k: int|
                    0 <= k < i ==> #[trigger] tiles@[k] == (ScratchTile { rect: rects@[k], nearest }),
            decreases rects@.len() - i,
        {
            tiles.push(ScratchTile { rect: rects[i], nearest });
            i += 1;
        }
        assert(tiles@ =~= rects@.map_values(|t: TileRect| ScratchTile { rect: t, nearest }));
        assert(tiles@.map_values(|t: ScratchTile| t.rect) =~= rects@);
        self.tiles = tiles;
    }

    /// Hands out the pictures of the tiles that changed, to be shown with the given sampling.
    pub fn upload_dirty_scratch_tiles(&mut self, nearest: bool) -> (uploads: Vec<TileUpload>)
        requires
            old(self).wf(),
        ensures
            final(self).wf(),
            *final(self) == (ScratchStroke {
                tiles: final(self).tiles,
                dirty_tiles: final(self).dirty_tiles,
                ..*old(self)
            }),
            final(self).dirty_tiles@ == Seq::<usize>::empty(),
            final(self).tiles@ == Seq::new(
                old(self).tiles@.len(),
                |i: int|
                    ScratchTile {
                        rect: old(self).tiles@[i].rect,
                        nearest: if old(self).dirty_tiles@.contains(i as usize) {
                            nearest
                        } else {
                            old(self).tiles@[i].nearest
                        },
                    },
            ),
            uploads_of(old(self).dirty_tiles@, old(self).tiles@.len() as int) == uploads@.map_values(
                |u: TileUpload| u.tile,
            ),
            forall|k: int|
                0 <= k < uploads@.len() ==> (#[trigger] uploads@[k]).tile < old(self).tiles@.len()
                    && uploads@[k].image.wf() && uploads@[k].image@ == tile_picture(
                    old(self).image@,
                    old(self).tiles@[uploads@[k].tile as int].rect,
                ),
    {
        let mut dirty: Vec<usize> = Vec::new();
        std::mem::swap(&mut dirty, &mut self.dirty_tiles);
        let ghost before = self.tiles@;
        let n: usize = self.tiles.len();
        let mut uploads: Vec<TileUpload> = Vec::new();
        let mut i: usize = 0;
        assert(dirty@.take(0) =~= Seq::<usize>::empty());
        while i < dirty.len()
            invariant
                i <= dirty@.len(),
                self.image == old(self).image,
                self.image.wf(),
                *self == (ScratchStroke {
                    tiles: self.tiles,
                    dirty_tiles: self.dirty_tiles,
                    ..*old(self)
                }),
                self.dirty_tiles@ == Seq::<usize>::empty(),
                before == old(self).tiles@,
                old(self).wf(),
                self.tiles@.len() == before.len(),
                n == before.len(),
                forall|j: int|
                    0 <= j < before.len() ==> #[trigger] self.tiles@[j] == (ScratchTile {
                        rect: before[j].rect,
                        nearest: if dirty@.take(i as int).contains(j as usize) {
                            nearest
                        } else {
                            before[j].nearest
                        },
                    }),
                uploads_of(dirty@.take(i as int), before.len() as int) =~= uploads@.map_values(
                    |u: TileUpload| u.tile,
                ),
                forall|k: int|
                    0 <= k < uploads@.len() ==> (#[trigger] uploads@[k]).tile < before.len()
                        && uploads@[k].image.wf() && uploads@[k].image@ == tile_picture(
                        self.image@,
                        before[uploads@[k].tile as int].rect,
                    ),
            decreases dirty@.len() - i,
        {
            let t: usize = dirty[i];
            let ghost held = self.tiles@;
            let ghost told = uploads@;
            proof {
                assert(dirty@.take(i + 1).drop_last() =~= dirty@.take(i as int));
                assert(dirty@.take(i + 1).last() == t);
                assert forall|j: usize| dirty@.take(i + 1).contains(j) == (dirty@.take(
                    i as int,
                ).contains(j) || j == t) by {
                    assert(dirty@.take(i + 1) =~= dirty@.take(i as int).push(t));
                    lemma_push_contains(dirty@.take(i as int), t, j);
                }
            }
            if t < n {
                let rect = self.tiles[t].rect;
                proof {
                    lemma_tile_bounded(*old(self), t as int);
                }
                let image = build_local_tile_image(&self.image, rect.x, rect.y, rect.w, rect.h);
                uploads.push(TileUpload { tile: t, image });
                self.tiles.set(t, ScratchTile { rect, nearest });
                assert(uploads@.map_values(|u: TileUpload| u.tile) =~= told.map_values(
                    |u: TileUpload| u.tile,
                ).push(t));
            }
            i += 1;
        }
        proof {
            assert(dirty@.take(dirty@.len() as int) =~= dirty@);
            assert(self.tiles@.map_values(|t: ScratchTile| t.rect) =~= before.map_values(
                |t: ScratchTile| t.rect,
            ));
        }
        uploads
    }
}

/// The picture of a changed tile.
pub struct TileUpload {
    pub tile: usize,
    pub image: ColorImage,
}

/// The part of the stroke's picture that a tile shows.
pub open spec fn tile_picture(image: Grid<Color>, t: TileRect) -> Grid<Color> {
    tile_image(image, t.x as int, t.y as int, t.w as int, t.h as int)
}

/// Of the changed tiles, those that exist.
pub open spec fn uploads_of(dirty: Seq<usize>, tiles: int) -> Seq<usize>
    decreases dirty.len(),
{
    if dirty.len() == 0 {
        Seq::empty()
    } else if dirty.last() < tiles {
        uploads_of(dirty.drop_last(), tiles).push(dirty.last())
    } else {
        uploads_of(dirty.drop_last(), tiles)
    }
}

proof fn lemma_tile_bounded(s: ScratchStroke, k: int)
    requires
        s.wf(),
        0 <= k < s.tiles@.len(),
    ensures
        s.tiles@[k].rect.w * s.tiles@[k].rect.h <= usize::MAX,
{
    let w = s.image@.w;
    let h = s.image@.h;
    let ts = tiles_of(w, h);
    let rects = s.tiles@.map_values(|t: ScratchTile| t.rect);
    assert(rects == ts && rects.len() == s.tiles@.len());
    assert(rects[k] == s.tiles@[k].rect);
    let cols = tile_count(w);
    let rows = tile_count(h);
    assert(0 <= cols * rows) by (nonlinear_arith)
        requires
            0 <= cols,
            0 <= rows,
    ;
    assert(ts[k] == tile_at(w, h, k % cols, k / cols));
    lemma_position(cols, rows, k);
    let r = ts[k];
    assert(r.w * r.h <= TILE_SIDE * TILE_SIDE) by (nonlinear_arith)
        requires
            0 <= r.w <= TILE_SIDE,
            0 <= r.h <= TILE_SIDE,
    ;
}

impl BrushToolBase {
    /// Brushes a segment onto the running stroke.  Nothing happens without a stroke, across pages,
    /// or for points off the scratch picture.
    pub fn paint_scratch_segment(
        &mut self,
        from_page: usize,
        to_page: usize,
        from: Option<(usize, usize)>,
        to: Option<(usize, usize)>,
        strengths: Vec<u32>,
        painted: &ColorImage,
    ) -> (ok: bool)
        requires
            old(self).wf(),
            old(self).scratch is Some ==> strengths@.len() == (
            old(self).scratch->0).image.px@.len() && painted.px@.len() == (
            old(self).scratch->0).image.px@.len(),
        ensures
            final(self).wf(),
            ok == (old(self).scratch is Some && from_page == to_page && (
            old(self).scratch->0).page_idx == to_page && from is Some && to is Some),
            !ok ==> *final(self) == *old(self),
            ok ==> final(self).scratch is Some && *final(self) == (BrushToolBase {
                scratch: final(self).scratch,
                ..*old(self)
            }) && segment_painted(
                old(self).scratch->0,
                (from->0).0 as int,
                (from->0).1 as int,
                (to->0).0 as int,
                (to->0).1 as int,
                if old(self).strict_pixel_painting {
                    old(self).radius_px as int
                } else {
                    old(self).radius_px + 1
                },
                strengths@,
                painted@,
                final(self).scratch->0,
            ),
    {
        let margin: usize = self.paint_dirty_margin();
        let (a, b) = match (from, to) {
            (Some(a), Some(b)) => (a, b),
            _ => {
                return false;
            },
        };
        let page_ok: bool = match &self.scratch {
            None => false,
            Some(s) => from_page == to_page && s.page_idx == to_page,
        };
        if !page_ok {
            return false;
        }
        let mut stroke = match self.scratch.take() {
            Some(s) => s,
            None => {
                return false;
            },
        };
        stroke.paint_segment(a, b, margin, strengths, painted);
        self.scratch = Some(stroke);
        true
    }
}

impl BrushToolBase {
    /// The part of an overlay that a segment drawn straight onto it can change, as it is now.
    /// Nothing is drawn across pages, for points off the page, or off the overlay.
    pub fn paint_overlay_segment(
        &self,
        from_page: usize,
        to_page: usize,
        from: Option<(usize, usize)>,
        to: Option<(usize, usize)>,
        overlay: &ColorImage,
    ) -> (patch: Option<StrokePatch>)
        requires
            self.wf(),
            overlay.wf(),
            overlay.w > 0,
            overlay.h > 0,
            overlay.w <= i32::MAX,
            overlay.h <= i32::MAX,
        ensures
            ({
                let all = OverlayRectPx { x: 0, y: 0, w: overlay.w, h: overlay.h };
                let dirty = segment_dirty(
                    (from->0).0 as int,
                    (from->0).1 as int,
                    (to->0).0 as int,
                    (to->0).1 as int,
                    if self.strict_pixel_painting {
                        self.radius_px as int
                    } else {
                        self.radius_px + 1
                    },
                    all,
                );
                &&& patch is Some <==> from_page == to_page && from is Some && to is Some && dirty
                    is Some
                &&& patch is Some ==> (patch->0).page_idx == from_page && Some((patch->0).rect)
                    == dirty && (patch->0).image.wf() && (patch->0).image@ == chunk_of(
                    overlay@,
                    dirty->0,
                )
            }),
    {
        if from_page != to_page {
            return None;
        }
        let (a, b) = match (from, to) {
            (Some(a), Some(b)) => (a, b),
            _ => {
                return None;
            },
        };
        let all = OverlayRectPx { x: 0, y: 0, w: overlay.w, h: overlay.h };
        match segment_dirty_overlay_rect(a.0, a.1, b.0, b.1, self.paint_dirty_margin(), all) {
            None => None,
            Some(rect) => {
                proof {
                    assert(rect.w * rect.h <= overlay.w * overlay.h) by (nonlinear_arith)
                        requires
                            0 <= rect.w <= overlay.w,
                            0 <= rect.h <= overlay.h,
                    ;
                    assert(overlay.px.len() <= usize::MAX);
                }
                let image = extract_overlay_chunk(overlay, rect);
                Some(StrokePatch { page_idx: from_page, rect, image })
            },
        }
    }
}

/// Cancelling a stroke undoes its beginning: only the stroke itself was ever changed.
pub proof fn cancelling_restores_the_brush(before: BrushToolBase, during: BrushToolBase)
    requires
        before.scratch is None,
        during == (BrushToolBase { scratch: during.scratch, ..before }),
    ensures
        (BrushToolBase { scratch: None, ..during }) == before,
{
}

/// A size key moves the radius by at least one pixel until it reaches its bound.
pub proof fn size_keys_always_move(r: int)
    requires
        MIN_RADIUS_PX <= r <= MAX_RADIUS_PX,
    ensures
        r > MIN_RADIUS_PX ==> MIN_RADIUS_PX <= shrunk_radius(r) < r,
        r < MAX_RADIUS_PX ==> r < widened_radius(r) <= MAX_RADIUS_PX,
        shrunk_radius(MIN_RADIUS_PX as int) == MIN_RADIUS_PX,
        widened_radius(MAX_RADIUS_PX as int) == MAX_RADIUS_PX,
{
}

} // verus!
