//! The tools of the page editor: which one is active, and what the brush and the mesh do.

use vstd::prelude::*;
use crate::color::{Color, ColorImage};
#[allow(unused_imports)]
use crate::color::clear;
use crate::composite::{Places, Selection};
#[allow(unused_imports)]
use crate::composite::{selected, LocalPixel};
use crate::layers::{DeformPoint, DeformRec, LayerKind, LayerStack};
#[allow(unused_imports)]
use crate::layers::{layer_from, lemma_layer_from, DeformView, LayerView, StackView};
use crate::page_session::PagePoint;
#[allow(unused_imports)]
use crate::raster::{grid_of, lemma_grid_of, lemma_position, Grid};
use crate::raster_edits::DirtyRect;
#[allow(unused_imports)]
use crate::raster_edits::lemma_layer_put;

verus! {

#[derive(Clone, Copy, Debug, PartialEq, Eq, Structural)]
pub enum PsToolId {
    SelectRect,
    SelectLasso,
    Brush,
    Transform,
    Deform,
}

/// The keys that were pressed.
#[derive(Clone, Copy, Debug, PartialEq, Eq, Structural)]
pub struct PsKeys {
    pub b: bool,
    pub m: bool,
    pub l: bool,
    pub v: bool,
    pub d: bool,
    pub z: bool,
    pub y: bool,
    pub command: bool,
    pub shift: bool,
}

/// What the keys ask for.
#[derive(Clone, Copy, Debug, PartialEq, Eq, Structural)]
pub struct PsKeyActions {
    /// The place of the active tool from now on.
    pub tool: usize,
    pub deselect: bool,
    pub undo: bool,
    pub redo: bool,
}

/// The active tool after a key: the tool that the key stands for, if it is there.
pub open spec fn after_key(tools: Seq<PsToolId>, pressed: bool, id: PsToolId, active: int) -> int {
    if pressed && tool_from(tools, id, 0) is Some {
        tool_from(tools, id, 0)->0
    } else {
        active
    }
}

/// The active tool after all the keys, the last of which counts.
pub open spec fn after_keys(tools: Seq<PsToolId>, k: PsKeys, active: int) -> int {
    after_key(
        tools,
        k.v,
        PsToolId::Transform,
        after_key(
            tools,
            k.l,
            PsToolId::SelectLasso,
            after_key(
                tools,
                k.m,
                PsToolId::SelectRect,
                after_key(tools, k.b, PsToolId::Brush, active),
            ),
        ),
    )
}

fn pick_tool(tools: &Vec<PsToolId>, pressed: bool, id: PsToolId, active: usize) -> (r: usize)
    ensures
        r == after_key(tools@, pressed, id, active as int),
{
    if pressed {
        match tool_index(tools, id) {
            Some(i) => i,
            None => active,
        }
    } else {
        active
    }
}

/// What pressed keys ask for; nothing while something else has the focus.  Undoing goes before
/// making again.
pub fn handle_hotkeys(tools: &Vec<PsToolId>, active: usize, focused: bool, k: PsKeys) -> (a:
    PsKeyActions)
    ensures
        focused ==> a == (PsKeyActions { tool: active, deselect: false, undo: false, redo: false }),
        !focused ==> {
            let undo = k.command && !k.shift && k.z;
            &&& a.tool == after_keys(tools@, k, active as int)
            &&& a.deselect == (k.command && k.d)
            &&& a.undo == undo
            &&& a.redo == (!undo && k.command && ((k.shift && k.z) || k.y))
        },
{
    if focused {
        return PsKeyActions { tool: active, deselect: false, undo: false, redo: false };
    }
    let t: usize = pick_tool(tools, k.b, PsToolId::Brush, active);
    let t: usize = pick_tool(tools, k.m, PsToolId::SelectRect, t);
    let t: usize = pick_tool(tools, k.l, PsToolId::SelectLasso, t);
    let t: usize = pick_tool(tools, k.v, PsToolId::Transform, t);
    let undo = k.command && !k.shift && k.z;
    let redo = k.command && ((k.shift && k.z) || k.y);
    PsKeyActions { tool: t, deselect: k.command && k.d, undo, redo: !undo && redo }
}

/// The place of a tool, searched from `i` on.
pub open spec fn tool_from(tools: Seq<PsToolId>, id: PsToolId, i: int) -> Option<int>
    decreases tools.len() - i,
{
    if i < 0 || i >= tools.len() {
        None
    } else if tools[i] == id {
        Some(i)
    } else {
        tool_from(tools, id, i + 1)
    }
}

pub fn tool_index(tools: &Vec<PsToolId>, id: PsToolId) -> (r: Option<usize>)
    ensures
        match r {
            Some(i) => i < tools@.len() && tool_from(tools@, id, 0) == Some(i as int),
            None => tool_from(tools@, id, 0) is None,
        },
{
    let mut i: usize = 0;
    while i < tools.len()
        invariant
            i <= tools@.len(),
            tool_from(tools@, id, 0) == tool_from(tools@, id, i as int),
        decreases tools@.len() - i,
    {
        if tools[i] == id {
            return Some(i);
        }
        i += 1;
    }
    None
}

pub open spec fn int_min(a: int, b: int) -> int {
    if a < b {
        a
    } else {
        b
    }
}

pub open spec fn int_max(a: int, b: int) -> int {
    if a > b {
        a
    } else {
        b
    }
}

/// The last pixel of a side; the first one where the side is empty.
pub open spec fn last_pixel(n: int) -> int {
    if n > 0 {
        n - 1
    } else {
        0
    }
}

/// The first pixel of a stamped segment on a side, on the picture.
pub open spec fn segment_start(a: int, b: int, r: int, n: int) -> int {
    int_min(int_max(int_min(a, b) - r, 0), last_pixel(n))
}

/// The last pixel of a stamped segment on a side, on the picture.
pub open spec fn segment_last(a: int, b: int, r: int, n: int) -> int {
    int_min(int_max(int_max(a, b) + r, 0), last_pixel(n))
}

/// The pixel of a side at a place, moved onto the side.
fn onto_side(at: i32, n: usize) -> (v: usize)
    ensures
        v == int_min(int_max(at as int, 0), last_pixel(n as int)),
{
    let m: usize = if at > 0 {
        at as usize
    } else {
        0
    };
    let end: usize = if n > 0 {
        n - 1
    } else {
        0
    };
    if m < end {
        m
    } else {
        end
    }
}

fn start_of(a: i32, b: i32, r: i32, n: usize) -> (v: usize)
    requires
        1 <= r,
        a - r >= i32::MIN,
        b - r >= i32::MIN,
    ensures
        v == segment_start(a as int, b as int, r as int, n as int),
{
    let lo: i32 = if a < b {
        a
    } else {
        b
    };
    onto_side(lo - r, n)
}

fn last_of(a: i32, b: i32, r: i32, n: usize) -> (v: usize)
    requires
        1 <= r,
        a + r <= i32::MAX,
        b + r <= i32::MAX,
    ensures
        v == segment_last(a as int, b as int, r as int, n as int),
{
    let hi: i32 = if a > b {
        a
    } else {
        b
    };
    onto_side(hi + r, n)
}

/// The rectangle around a stamped segment, clamped to the page.
pub fn segment_dirty_rect(
    from: (i32, i32),
    to: (i32, i32),
    radius: i32,
    page_size: (usize, usize),
) -> (d: DirtyRect)
    requires
        ({
            let r = int_max(radius as int, 1);
            &&& i32::MIN <= from.0 - r && from.0 + r <= i32::MAX
            &&& i32::MIN <= from.1 - r && from.1 + r <= i32::MAX
            &&& i32::MIN <= to.0 - r && to.0 + r <= i32::MAX
            &&& i32::MIN <= to.1 - r && to.1 + r <= i32::MAX
        }),
    ensures
        ({
            let r = int_max(radius as int, 1);
            &&& d.min_x == segment_start(from.0 as int, to.0 as int, r, page_size.0 as int)
            &&& d.min_y == segment_start(from.1 as int, to.1 as int, r, page_size.1 as int)
            &&& d.max_x == segment_last(from.0 as int, to.0 as int, r, page_size.0 as int)
            &&& d.max_y == segment_last(from.1 as int, to.1 as int, r, page_size.1 as int)
        }),
        d.min_x <= d.max_x && d.min_y <= d.max_y,
        page_size.0 > 0 ==> d.max_x < page_size.0,
        page_size.1 > 0 ==> d.max_y < page_size.1,
{
    let r: i32 = if radius > 1 {
        radius
    } else {
        1
    };
    DirtyRect {
        min_x: start_of(from.0, to.0, r, page_size.0),
        min_y: start_of(from.1, to.1, r, page_size.1),
        max_x: last_of(from.0, to.0, r, page_size.0),
        max_y: last_of(from.1, to.1, r, page_size.1),
    }
}

/// Every pixel of the picture within the radius of either end lies in the rectangle around a
/// segment.
pub proof fn dirty_rect_covers_the_ends(
    from: int,
    to: int,
    r: int,
    n: int,
    p: int,
)
    requires
        r >= 1,
        0 <= p < n,
        (from - r <= p <= from + r) || (to - r <= p <= to + r),
    ensures
        segment_start(from, to, r, n) <= p <= segment_last(from, to, r, n),
{
}

/// The least rectangle around two.
pub open spec fn joint_rect(a: DirtyRect, b: DirtyRect) -> DirtyRect {
    DirtyRect {
        min_x: int_min(a.min_x as int, b.min_x as int) as usize,
        min_y: int_min(a.min_y as int, b.min_y as int) as usize,
        max_x: int_max(a.max_x as int, b.max_x as int) as usize,
        max_y: int_max(a.max_y as int, b.max_y as int) as usize,
    }
}

pub fn join_rects(a: DirtyRect, b: DirtyRect) -> (r: DirtyRect)
    ensures
        r == joint_rect(a, b),
{
    DirtyRect {
        min_x: if a.min_x < b.min_x {
            a.min_x
        } else {
            b.min_x
        },
        min_y: if a.min_y < b.min_y {
            a.min_y
        } else {
            b.min_y
        },
        max_x: if a.max_x > b.max_x {
            a.max_x
        } else {
            b.max_x
        },
        max_y: if a.max_y > b.max_y {
            a.max_y
        } else {
            b.max_y
        },
    }
}

/// The brush: its colour, whether it erases, and where the stroke is.
pub struct BrushTool {
    pub radius_px: usize,
    pub color: Color,
    pub erase: bool,
    pub last_world: Option<PagePoint>,
}

/// What the pointer does in a frame.
#[derive(Clone, Copy, Debug, PartialEq, Eq, Structural)]
pub struct ToolInput {
    pub pointer: Option<PagePoint>,
    pub in_viewport: bool,
    pub pressed: bool,
    pub down: bool,
}

/// A segment to be painted.
#[derive(Clone, Copy, Debug, PartialEq, Eq, Structural)]
pub struct BrushSegment {
    pub from: PagePoint,
    pub to: PagePoint,
    pub radius: usize,
    pub fill: Color,
}

impl BrushTool {
    pub fn title(&self) -> (s: &'static str)
        ensures
            s@ == "Кисть"@,
    {
        "Кисть"
    }

    /// A frame of the brush.  A stroke ends where the button is up; it starts anew where the
    /// button is pressed, which has to be on the canvas; and it needs a layer that can be painted
    /// on.
    pub fn interact(&mut self, input: ToolInput, can_paint: bool) -> (seg: Option<BrushSegment>)
        ensures
            ({
                let paints = input.down && input.pointer is Some && (input.in_viewport
                    || !input.pressed) && can_paint;
                &&& final(self).last_world == if !input.down {
                    None
                } else if paints {
                    input.pointer
                } else {
                    old(self).last_world
                }
                &&& *final(self) == (BrushTool {
                    last_world: final(self).last_world,
                    ..*old(self)
                })
                &&& seg == if paints {
                    Some(
                        BrushSegment {
                            from: if input.pressed || old(self).last_world is None {
                                input.pointer->0
                            } else {
                                old(self).last_world->0
                            },
                            to: input.pointer->0,
                            radius: if old(self).radius_px > 1 {
                                old(self).radius_px
                            } else {
                                1
                            },
                            fill: if old(self).erase {
                                clear()
                            } else {
                                old(self).color
                            },
                        },
                    )
                } else {
                    None
                }
            }),
    {
        if !input.down {
            self.last_world = None;
            return None;
        }
        let to = match input.pointer {
            Some(p) => p,
            None => {
                return None;
            },
        };
        if !input.in_viewport && input.pressed {
            return None;
        }
        if !can_paint {
            return None;
        }
        let from = match self.last_world {
            Some(p) => if input.pressed {
                to
            } else {
                p
            },
            None => to,
        };
        self.last_world = Some(to);
        Some(
            BrushSegment {
                from,
                to,
                radius: if self.radius_px > 1 {
                    self.radius_px
                } else {
                    1
                },
                fill: if self.erase {
                    Color::transparent()
                } else {
                    self.color
                },
            },
        )
    }
}

/// The radius of a disc; the least one is one pixel.
pub open spec fn disc_radius(radius: i32) -> int {
    int_max(radius as int, 1)
}

/// The pixel lies on a disc: its distance from the middle is the radius at most.
pub open spec fn disc_holds(r: int, cx: int, cy: int, x: int, y: int) -> bool {
    (x - cx) * (x - cx) + (y - cy) * (y - cy) <= r * r
}

/// What lies on a disc lies in the square around it.
proof fn lemma_disc_in_square(r: int, cx: int, cy: int, x: int, y: int)
    requires
        r >= 0,
        disc_holds(r, cx, cy, x, y),
    ensures
        cx - r <= x <= cx + r,
        cy - r <= y <= cy + r,
{
    let dx = x - cx;
    let dy = y - cy;
    assert(-r <= dx <= r) by (nonlinear_arith)
        requires
            r >= 0,
            dx * dx + dy * dy <= r * r,
    ;
    assert(-r <= dy <= r) by (nonlinear_arith)
        requires
            r >= 0,
            dx * dx + dy * dy <= r * r,
    ;
}

fn on_disc(radius: i32, cx: i32, cy: i32, x: usize, y: usize) -> (b: bool)
    ensures
        b == disc_holds(disc_radius(radius), cx as int, cy as int, x as int, y as int),
{
    let r: i128 = if radius > 1 {
        radius as i128
    } else {
        1
    };
    let dx: i128 = x as i128 - cx as i128;
    let dy: i128 = y as i128 - cy as i128;
    if dx < -r || dx > r || dy < -r || dy > r {
        proof {
            if disc_holds(r as int, cx as int, cy as int, x as int, y as int) {
                lemma_disc_in_square(r as int, cx as int, cy as int, x as int, y as int);
            }
        }
        return false;
    }
    assert(0 <= dx * dx <= 0x4000_0000_0000_0000 && 0 <= dy * dy <= 0x4000_0000_0000_0000 && 0 <= r
        * r <= 0x4000_0000_0000_0000) by (nonlinear_arith)
        requires
            1 <= r <= 0x8000_0000,
            -r <= dx <= r,
            -r <= dy <= r,
    ;
    dx * dx + dy * dy <= r * r
}

/// The pixel may be painted: nothing is selected, or it lies on a selected pixel of the page.
pub open spec fn may_paint(
    clip: Option<(Grid<bool>, Grid<Option<LocalPixel>>)>,
    x: int,
    y: int,
) -> bool {
    match clip {
        None => true,
        Some(c) => c.1.inside(x, y) && match c.1.at(x, y) {
            Some(p) => selected(c.0, p.x as int, p.y as int),
            None => false,
        },
    }
}

/// A selection and where the pixels of a layer lie on the page.
pub struct PaintClip {
    pub selection: Selection,
    pub to_page: Places,
}

pub open spec fn clip_view(c: Option<PaintClip>) -> Option<(Grid<bool>, Grid<Option<LocalPixel>>)> {
    match c {
        Some(p) => Some((p.selection.mask@, p.to_page@)),
        None => None,
    }
}

/// The picture with a disc stamped onto it.
pub open spec fn stamped(
    dst: Grid<Color>,
    r: int,
    cx: int,
    cy: int,
    clip: Option<(Grid<bool>, Grid<Option<LocalPixel>>)>,
    fill: Color,
) -> Grid<Color> {
    grid_of(
        dst.w,
        dst.h,
        |x: int, y: int|
            if disc_holds(r, cx, cy, x, y) && may_paint(clip, x, y) {
                fill
            } else {
                dst.at(x, y)
            },
    )
}

fn paintable(clip: &Option<PaintClip>, x: usize, y: usize) -> (b: bool)
    requires
        *clip is Some ==> (clip->0).selection.wf() && (clip->0).to_page.wf(),
    ensures
        b == may_paint(clip_view(*clip), x as int, y as int),
{
    match clip {
        None => true,
        Some(c) => {
            if x < c.to_page.w && y < c.to_page.h {
                match c.to_page.get(x, y) {
                    Some(p) => c.selection.contains(p.x, p.y),
                    None => false,
                }
            } else {
                false
            }
        },
    }
}

/// Stamps a disc onto a picture.  With a selection only pixels that lie on it are painted.
pub fn stamp_circle(
    dst: &mut ColorImage,
    radius: i32,
    cx: i32,
    cy: i32,
    clip: &Option<PaintClip>,
    fill: Color,
)
    requires
        old(dst).wf(),
        *clip is Some ==> (clip->0).selection.wf() && (clip->0).to_page.wf(),
    ensures
        final(dst).wf(),
        final(dst)@ == stamped(
            old(dst)@,
            disc_radius(radius),
            cx as int,
            cy as int,
            clip_view(*clip),
            fill,
        ),
{
    let ghost d0 = dst@;
    let ghost cv = clip_view(*clip);
    let ghost f = |x: int, y: int|
        if disc_holds(disc_radius(radius), cx as int, cy as int, x, y) && may_paint(cv, x, y) {
            fill
        } else {
            d0.at(x, y)
        };
    let ghost target = grid_of(d0.w, d0.h, f);
    proof {
        lemma_grid_of(d0.w, d0.h, f);
    }
    let w: usize = dst.w;
    let n: usize = dst.px.len();
    let mut i: usize = 0;
    while i < n
        invariant
            i <= n,
            n == d0.px.len(),
            w == d0.w,
            d0.valid(),
            *clip is Some ==> (clip->0).selection.wf() && (clip->0).to_page.wf(),
            cv == clip_view(*clip),
            f == (|x: int, y: int|
                if disc_holds(disc_radius(radius), cx as int, cy as int, x, y) && may_paint(cv, x, y) {
                    fill
                } else {
                    d0.at(x, y)
                }),
            target == grid_of(d0.w, d0.h, f),
            target.px.len() == n,
            dst.w == d0.w,
            dst.h == d0.h,
            dst.px@.len() == n,
            forall|k: int| 0 <= k < i ==> #[trigger] dst.px@[k] == target.px[k],
            forall|k: int| i <= k < n ==> #[trigger] dst.px@[k] == d0.px[k],
        decreases n - i,
    {
        proof {
            lemma_position(d0.w, d0.h, i as int);
        }
        let x: usize = i % w;
        let y: usize = i / w;
        let hit: bool = on_disc(radius, cx, cy, x, y) && paintable(clip, x, y);
        if hit {
            dst.px.set(i, fill);
        }
        assert(target.px[i as int] == f(x as int, y as int));
        i += 1;
    }
    assert(dst@ =~= target);
}

/// The picture after the first `n` stamps of a line.
pub open spec fn stamped_line(
    dst: Grid<Color>,
    r: int,
    centers: Seq<(i32, i32)>,
    clip: Option<(Grid<bool>, Grid<Option<LocalPixel>>)>,
    fill: Color,
    n: int,
) -> Grid<Color>
    decreases n,
{
    if n <= 0 {
        dst
    } else {
        stamped(
            stamped_line(dst, r, centers, clip, fill, n - 1),
            r,
            centers[n - 1].0 as int,
            centers[n - 1].1 as int,
            clip,
            fill,
        )
    }
}

/// Stamps discs along a line.
pub fn paint_line_color(
    dst: &mut ColorImage,
    radius: i32,
    centers: &Vec<(i32, i32)>,
    clip: &Option<PaintClip>,
    fill: Color,
)
    requires
        old(dst).wf(),
        *clip is Some ==> (clip->0).selection.wf() && (clip->0).to_page.wf(),
    ensures
        final(dst).wf(),
        final(dst)@ == stamped_line(
            old(dst)@,
            disc_radius(radius),
            centers@,
            clip_view(*clip),
            fill,
            centers@.len() as int,
        ),
{
    let ghost d0 = dst@;
    let mut n: usize = 0;
    while n < centers.len()
        invariant
            n <= centers@.len(),
            dst.wf(),
            *clip is Some ==> (clip->0).selection.wf() && (clip->0).to_page.wf(),
            dst@ == stamped_line(
                d0,
                disc_radius(radius),
                centers@,
                clip_view(*clip),
                fill,
                n as int,
            ),
        decreases centers@.len() - n,
    {
        let c: (i32, i32) = centers[n];
        stamp_circle(dst, radius, c.0, c.1, clip, fill);
        n += 1;
    }
}

/// Painting changes only pixels that may be painted, and gives them the colour of the brush.
pub proof fn painting_stays_on_the_selection(
    dst: Grid<Color>,
    r: int,
    centers: Seq<(i32, i32)>,
    clip: Option<(Grid<bool>, Grid<Option<LocalPixel>>)>,
    fill: Color,
    n: int,
)
    requires
        dst.valid(),
        0 <= n,
    ensures
        ({
            let out = stamped_line(dst, r, centers, clip, fill, n);
            &&& out.valid()
            &&& out.same_size(dst)
            &&& forall|x: int, y: int|
                dst.inside(x, y) ==> (#[trigger] out.at(x, y) == dst.at(x, y) || (out.at(x, y)
                    == fill && may_paint(clip, x, y)))
        }),
    decreases n,
{
    if n > 0 {
        painting_stays_on_the_selection(dst, r, centers, clip, fill, n - 1);
        let p = stamped_line(dst, r, centers, clip, fill, n - 1);
        let cx = centers[n - 1].0 as int;
        let cy = centers[n - 1].1 as int;
        let f = |x: int, y: int|
            if disc_holds(r, cx, cy, x, y) && may_paint(clip, x, y) {
                fill
            } else {
                p.at(x, y)
            };
        lemma_grid_of(p.w, p.h, f);
        let out = stamped_line(dst, r, centers, clip, fill, n);
        assert(out == grid_of(p.w, p.h, f));
        assert forall|x: int, y: int| dst.inside(x, y) implies (#[trigger] out.at(x, y) == dst.at(
            x,
            y,
        ) || (out.at(x, y) == fill && may_paint(clip, x, y))) by {
            assert(out.at(x, y) == f(x, y));
            assert(p.at(x, y) == p.at(x, y));
        }
    }
}

/// The stamps of a line lie between its ends.
pub open spec fn on_the_way(centers: Seq<(i32, i32)>, from: (i32, i32), to: (i32, i32)) -> bool {
    forall|k: int|
        0 <= k < centers.len() ==> {
            let c = #[trigger] centers[k];
            &&& int_min(from.0 as int, to.0 as int) <= c.0 <= int_max(from.0 as int, to.0 as int)
            &&& int_min(from.1 as int, to.1 as int) <= c.1 <= int_max(from.1 as int, to.1 as int)
        }
}

/// A line changes no pixel outside the rectangle around it.
pub proof fn painting_stays_in_the_dirty_rect(
    dst: Grid<Color>,
    r: int,
    centers: Seq<(i32, i32)>,
    clip: Option<(Grid<bool>, Grid<Option<LocalPixel>>)>,
    fill: Color,
    n: int,
    from: (i32, i32),
    to: (i32, i32),
)
    requires
        dst.valid(),
        r >= 1,
        0 <= n <= centers.len(),
        on_the_way(centers, from, to),
    ensures
        forall|x: int, y: int|
            dst.inside(x, y) && #[trigger] stamped_line(dst, r, centers, clip, fill, n).at(x, y)
                != dst.at(x, y) ==> {
                &&& segment_start(from.0 as int, to.0 as int, r, dst.w) <= x <= segment_last(
                    from.0 as int,
                    to.0 as int,
                    r,
                    dst.w,
                )
                &&& segment_start(from.1 as int, to.1 as int, r, dst.h) <= y <= segment_last(
                    from.1 as int,
                    to.1 as int,
                    r,
                    dst.h,
                )
            },
    decreases n,
{
    if n > 0 {
        painting_stays_in_the_dirty_rect(dst, r, centers, clip, fill, n - 1, from, to);
        painting_stays_on_the_selection(dst, r, centers, clip, fill, n - 1);
        let p = stamped_line(dst, r, centers, clip, fill, n - 1);
        let c = centers[n - 1];
        let cx = c.0 as int;
        let cy = c.1 as int;
        let f = |x: int, y: int|
            if disc_holds(r, cx, cy, x, y) && may_paint(clip, x, y) {
                fill
            } else {
                p.at(x, y)
            };
        lemma_grid_of(p.w, p.h, f);
        let out = stamped_line(dst, r, centers, clip, fill, n);
        assert(out == grid_of(p.w, p.h, f));
        assert forall|x: int, y: int|
            dst.inside(x, y) && #[trigger] out.at(x, y) != dst.at(x, y) implies {
            &&& segment_start(from.0 as int, to.0 as int, r, dst.w) <= x <= segment_last(
                from.0 as int,
                to.0 as int,
                r,
                dst.w,
            )
            &&& segment_start(from.1 as int, to.1 as int, r, dst.h) <= y <= segment_last(
                from.1 as int,
                to.1 as int,
                r,
                dst.h,
            )
        } by {
            assert(out.at(x, y) == f(x, y));
            if disc_holds(r, cx, cy, x, y) {
                lemma_disc_in_square(r, cx, cy, x, y);
            } else {
                assert(p.at(x, y) != dst.at(x, y));
            }
        }
    }
}

/// A control point that is being dragged.
#[derive(Clone, Copy, Debug, PartialEq, Eq, Structural)]
pub struct PointDrag {
    pub point_idx: usize,
    pub start_point: DeformPoint,
    pub start_pointer: PagePoint,
}

/// The tool that drags the control points of a mesh.
pub struct DeformTool {
    pub drag: Option<PointDrag>,
    /// The control points to be drawn.
    pub handles: Vec<DeformPoint>,
    /// The sides of their mesh.
    pub grid_dims: Option<(usize, usize)>,
}

/// The layer that the mesh tool works on: the active one, if it is a layer of the user.
pub open spec fn deformable(s: StackView) -> Option<int> {
    match layer_from(s.layers, s.active, 0) {
        Some(i) => if s.layers[i].kind == LayerKind::Raster {
            Some(i)
        } else {
            None
        },
        None => None,
    }
}

/// The mesh of a layer; the given one where it has none yet.
pub open spec fn mesh_of(l: LayerView, identity: DeformView) -> DeformView {
    match l.deform {
        Some(m) => m,
        None => identity,
    }
}

/// The drag in a frame: one that goes on while the button is down, or else one that starts where
/// a control point is pressed on the canvas.
pub open spec fn drag_in_frame(
    drag: Option<PointDrag>,
    points: Seq<DeformPoint>,
    input: ToolInput,
    hit: Option<usize>,
) -> Option<PointDrag> {
    if drag is Some && input.down {
        drag
    } else if input.pointer is Some && input.pressed && input.in_viewport && hit is Some {
        Some(
            PointDrag {
                point_idx: hit->0,
                start_point: points[hit->0 as int],
                start_pointer: input.pointer->0,
            },
        )
    } else {
        None
    }
}

/// The control points after a frame: the dragged one goes where it is taken.
pub open spec fn points_in_frame(
    drag: Option<PointDrag>,
    points: Seq<DeformPoint>,
    input: ToolInput,
    moved: DeformPoint,
) -> Seq<DeformPoint> {
    if input.pointer is Some && input.down && drag is Some && (drag->0).point_idx < points.len() {
        points.update((drag->0).point_idx as int, moved)
    } else {
        points
    }
}

fn copy_points(v: &Vec<DeformPoint>) -> (r: Vec<DeformPoint>)
    ensures
        r@ == v@,
{
    let mut r: Vec<DeformPoint> = Vec::new();
    let mut i: usize = 0;
    while i < v.len()
        invariant
            i <= v@.len(),
            r@ == v@.take(i as int),
        decreases v@.len() - i,
    {
        r.push(v[i]);
        i += 1;
        assert(r@ =~= v@.take(i as int));
    }
    assert(r@ =~= v@);
    r
}

impl DeformTool {
    pub fn new() -> (t: DeformTool)
        ensures
            t.drag is None,
            t.handles@.len() == 0,
            t.grid_dims is None,
    {
        DeformTool { drag: None, handles: Vec::new(), grid_dims: None }
    }

    pub fn title(&self) -> (s: &'static str)
        ensures
            s@ == "Деформация (сетка)"@,
    {
        "Деформация (сетка)"
    }

    /// The drag of a frame, from which the place of the dragged point is computed.
    pub fn drag_of_frame(&self, mesh: &DeformRec, input: ToolInput, hit: Option<usize>) -> (r: Option<
        PointDrag,
    >)
        requires
            hit is Some ==> hit->0 < mesh.points_px@.len(),
        ensures
            r == drag_in_frame(self.drag, mesh@.points, input, hit),
    {
        if self.drag.is_some() && input.down {
            return self.drag;
        }
        match (input.pointer, hit) {
            (Some(p), Some(i)) => {
                if input.pressed && input.in_viewport {
                    Some(
                        PointDrag {
                            point_idx: i,
                            start_point: mesh.points_px[i],
                            start_pointer: p,
                        },
                    )
                } else {
                    None
                }
            },
            _ => None,
        }
    }

    /// A frame of the mesh tool.  A layer without a mesh gets the given one first; `hit` is the
    /// control point under the pointer, and `moved` the place that the dragged one is taken to.
    pub fn interact(
        &mut self,
        stack: &mut LayerStack,
        input: ToolInput,
        hit: Option<usize>,
        moved: DeformPoint,
        identity: DeformRec,
    )
        requires
            old(stack).wf(),
            match deformable(old(stack)@) {
                Some(i) => hit is Some ==> hit->0 < mesh_of(
                    old(stack)@.layers[i],
                    identity@,
                ).points.len(),
                None => true,
            },
        ensures
            final(stack).wf(),
            match deformable(old(stack)@) {
                None => final(stack)@ == old(stack)@ && final(self).drag is None && final(self).handles@.len() == 0 && final(self).grid_dims is None,
                Some(i) => {
                    let l = old(stack)@.layers[i];
                    let mesh = mesh_of(l, identity@);
                    let drag = drag_in_frame(old(self).drag, mesh.points, input, hit);
                    let points = points_in_frame(drag, mesh.points, input, moved);
                    &&& final(self).drag == drag
                    &&& final(self).handles@ == points
                    &&& final(self).grid_dims == Some((mesh.cols, mesh.rows))
                    &&& final(stack)@ == (StackView {
                        layers: old(stack)@.layers.update(
                            i,
                            LayerView { deform: Some(DeformView { points, ..mesh }), ..l },
                        ),
                        ..old(stack)@
                    })
                },
            },
    {
        let ghost s0 = stack@;
        proof {
            lemma_layer_from(s0.layers, s0.active, 0);
        }
        let place: Option<usize> = match stack.position(stack.active) {
            Some(i) => if stack.layers[i].kind == LayerKind::Raster {
                Some(i)
            } else {
                None
            },
            None => None,
        };
        let i: usize = match place {
            Some(i) => i,
            None => {
                self.drag = None;
                self.handles = Vec::new();
                self.grid_dims = None;
                return;
            },
        };
        let mut mesh: DeformRec = match &stack.layers[i].deform {
            Some(m) => m.copied(),
            None => identity,
        };
        let ghost l0 = s0.layers[i as int];
        let ghost m0 = mesh@;
        assert(m0 == mesh_of(l0, identity@));
        self.drag = self.drag_of_frame(&mesh, input, hit);
        match (self.drag, input.pointer) {
            (Some(d), Some(_)) => {
                if input.down && d.point_idx < mesh.points_px.len() {
                    mesh.points_px.set(d.point_idx, moved);
                }
            },
            _ => {},
        }
        self.handles = copy_points(&mesh.points_px);
        self.grid_dims = Some((mesh.cols, mesh.rows));
        let ghost m1 = mesh@;
        let layer = &mut stack.layers[i];
        layer.deform = Some(mesh);
        proof {
            let l1 = LayerView { deform: Some(m1), ..l0 };
            lemma_layer_put(s0, i as int, l1);
            assert(stack@.layers =~= s0.layers.update(i as int, l1));
        }
    }
}

/// The lines of a mesh that start at its first `n` points: to the right and down.
pub open spec fn lines_from(cols: int, rows: int, n: int) -> Seq<(usize, usize)>
    decreases n,
{
    if n <= 0 {
        Seq::empty()
    } else {
        let i = n - 1;
        let before = lines_from(cols, rows, i);
        let right = if i % cols + 1 < cols {
            before.push((i as usize, (i + 1) as usize))
        } else {
            before
        };
        if i / cols + 1 < rows {
            right.push((i as usize, (i + cols) as usize))
        } else {
            right
        }
    }
}

/// The lines of a mesh as pairs of points; none unless the mesh is whole and has two rows and two
/// columns.
pub open spec fn lines_of(dims: Option<(usize, usize)>, points: int) -> Seq<(usize, usize)> {
    match dims {
        Some(d) => if d.0 >= 2 && d.1 >= 2 && d.0 * d.1 == points {
            lines_from(d.0 as int, d.1 as int, points)
        } else {
            Seq::empty()
        },
        None => Seq::empty(),
    }
}

pub fn mesh_lines(dims: Option<(usize, usize)>, points: usize) -> (lines: Vec<(usize, usize)>)
    ensures
        lines@ == lines_of(dims, points as int),
{
    let mut lines: Vec<(usize, usize)> = Vec::new();
    let (cols, rows): (usize, usize) = match dims {
        Some(d) => d,
        None => {
            return lines;
        },
    };
    if cols < 2 || rows < 2 {
        return lines;
    }
    let whole = match cols.checked_mul(rows) {
        Some(n) => n == points,
        None => false,
    };
    if !whole {
        return lines;
    }
    let mut i: usize = 0;
    while i < points
        invariant
            i <= points,
            2 <= cols,
            2 <= rows,
            cols * rows == points,
            lines@ == lines_from(cols as int, rows as int, i as int),
        decreases points - i,
    {
        if i % cols + 1 < cols {
            lines.push((i, i + 1));
        }
        if i / cols + 1 < rows {
            assert(i + cols < points) by (nonlinear_arith)
                requires
                    0 <= i,
                    2 <= cols,
                    i / cols + 1 < rows,
                    cols * rows == points,
            ;
            lines.push((i, i + cols));
        }
        i += 1;
    }
    lines
}

/// Every line of a mesh joins two of its points, and the second one is the right or the lower
/// neighbour of the first.
pub proof fn lines_join_neighbours(cols: int, rows: int, n: int)
    requires
        2 <= cols,
        2 <= rows,
        0 <= n <= cols * rows,
        cols * rows <= usize::MAX,
    ensures
        forall|k: int|
            0 <= k < lines_from(cols, rows, n).len() ==> {
                let line = #[trigger] lines_from(cols, rows, n)[k];
                &&& line.1 < cols * rows
                &&& (line.1 == line.0 + 1 && line.0 as int / cols == line.1 as int / cols)
                    || line.1 == line.0 + cols
            },
    decreases n,
{
    if n > 0 {
        lines_join_neighbours(cols, rows, n - 1);
        let i = n - 1;
        let before = lines_from(cols, rows, i);
        let all = lines_from(cols, rows, n);
        assert(i % cols + 1 < cols ==> (i + 1) / cols == i / cols && i + 1 < cols * rows)
            by (nonlinear_arith)
            requires
                0 <= i < cols * rows,
                2 <= cols,
                2 <= rows,
        ;
        assert(i / cols + 1 < rows ==> i + cols < cols * rows) by (nonlinear_arith)
            requires
                0 <= i,
                2 <= cols,
        ;
        assert forall|k: int| 0 <= k < all.len() implies {
            let line = #[trigger] all[k];
            &&& line.1 < cols * rows
            &&& (line.1 == line.0 + 1 && line.0 as int / cols == line.1 as int / cols) || line.1
                == line.0 + cols
        } by {
            if k < before.len() {
                assert(all[k] == before[k]);
            }
        }
    }
}

} // verus!
