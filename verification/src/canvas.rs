//! A frame of the canvas: where the input goes, and what a gesture leaves behind.

use vstd::prelude::*;
use crate::edit_op::{LayerFieldPatch, PsEditOp};
#[allow(unused_imports)]
use crate::edit_op::{OpView, PatchView};
#[allow(unused_imports)]
use crate::edit_op::region_bytes;
use crate::float_bits::is_negligible;
#[allow(unused_imports)]
use crate::float_bits::{is_nan, negligible};
use crate::ident::uid_to_string;
#[allow(unused_imports)]
use crate::ident::uid_text;
use crate::layers::{
    copy_deform, deform_eq, placements_equal, transform_to_rec, DeformRec, Layer, LayerId,
    LayerKind, LayerStack, LayerTransform,
};
#[allow(unused_imports)]
use crate::layers::{
    deform_view, layer_called, layer_from, lemma_layer_from, same_deform, same_placement,
    stored_placement, DeformView, LayerView, StackView,
};
use crate::ps_tools::{join_rects, PsToolId};
#[allow(unused_imports)]
use crate::ps_tools::joint_rect;
use crate::raster_edits::{record_brush_stroke, DirtyRect, DocEdit, StrokeRegion};
#[allow(unused_imports)]
use crate::raster_edits::{
    lemma_layer_put, opt_stack, opt_stack_wf, painted_layer, recordable, side_end, stroke_rect,
    DocEditView,
};
use crate::text_layers::PsTextLayer;
#[allow(unused_imports)]
use crate::text_layers::{text_views, TextView};

verus! {

/// What the pointer and the keys do in a frame.
#[derive(Clone, Copy, Debug, PartialEq, Eq, Structural)]
pub struct CanvasInput {
    /// The pointer is over the canvas and nothing lies between.
    pub hovered: bool,
    /// There is a pointer.
    pub has_pointer: bool,
    /// The pointer is within the rectangle of the canvas.
    pub pointer_inside: bool,
    pub primary_down: bool,
    pub primary_pressed: bool,
    pub primary_released: bool,
    pub middle_down: bool,
    pub space_down: bool,
    /// How far the wheel turned, as a bit pattern.
    pub scroll: u32,
    pub shift: bool,
    pub command: bool,
}

/// What the wheel does.
#[derive(Clone, Copy, Debug, PartialEq, Eq, Structural)]
pub enum WheelTarget {
    Nothing,
    /// It changes the size of the brush.
    Brush,
    /// It zooms towards the pointer.
    Zoom,
}

/// Where the input of a frame goes.
#[derive(Clone, Copy, Debug, PartialEq, Eq, Structural)]
pub struct FramePlan {
    pub pointer_in_viewport: bool,
    pub pan: bool,
    pub wheel: WheelTarget,
    /// The keys for the size of the brush count.
    pub size_keys: bool,
    /// A text may be dragged.
    pub text_drag: bool,
}

pub open spec fn panning(i: CanvasInput) -> bool {
    i.middle_down || (i.space_down && i.primary_down)
}

pub open spec fn in_viewport(i: CanvasInput) -> bool {
    i.hovered && i.has_pointer && i.pointer_inside
}

pub open spec fn wheel_turned(bits: u32) -> bool {
    !is_nan(bits) && !negligible(bits)
}

pub open spec fn frame_plan(i: CanvasInput, tool: PsToolId) -> FramePlan {
    FramePlan {
        pointer_in_viewport: in_viewport(i),
        pan: panning(i),
        wheel: if i.hovered && wheel_turned(i.scroll) {
            if i.shift && tool == PsToolId::Brush {
                WheelTarget::Brush
            } else {
                WheelTarget::Zoom
            }
        } else {
            WheelTarget::Nothing
        },
        size_keys: tool == PsToolId::Brush,
        text_drag: !panning(i) && tool == PsToolId::Transform,
    }
}

/// Where the input of a frame goes: the middle button, or the space bar with the main one, pans;
/// the wheel zooms, or with shift changes the size of the brush; with the placing tool a text can
/// be dragged.
pub fn plan_frame(i: CanvasInput, tool: PsToolId) -> (p: FramePlan)
    ensures
        p == frame_plan(i, tool),
{
    let pan = i.middle_down || (i.space_down && i.primary_down);
    let magnitude: u32 = if i.scroll < 0x8000_0000 {
        i.scroll
    } else {
        i.scroll - 0x8000_0000
    };
    let turned = magnitude <= 0x7F80_0000 && !is_negligible(i.scroll);
    let wheel = if i.hovered && turned {
        if i.shift && tool == PsToolId::Brush {
            WheelTarget::Brush
        } else {
            WheelTarget::Zoom
        }
    } else {
        WheelTarget::Nothing
    };
    FramePlan {
        pointer_in_viewport: i.hovered && i.has_pointer && i.pointer_inside,
        pan,
        wheel,
        size_keys: tool == PsToolId::Brush,
        text_drag: !pan && tool == PsToolId::Transform,
    }
}

/// The active layer, if it is a layer of the user.
pub open spec fn active_raster(s: Option<StackView>) -> Option<LayerView> {
    match s {
        Some(v) => match layer_called(v.layers, v.active) {
            Some(l) => if l.kind == LayerKind::Raster {
                Some(l)
            } else {
                None
            },
            None => None,
        },
        None => None,
    }
}

fn find_active_raster(stack: &Option<LayerStack>) -> (r: Option<&Layer>)
    requires
        opt_stack_wf(*stack),
    ensures
        match r {
            Some(l) => active_raster(opt_stack(*stack)) == Some(l@) && l.wf(),
            None => active_raster(opt_stack(*stack)) is None,
        },
{
    match stack {
        None => None,
        Some(s) => {
            proof {
                lemma_layer_from(s@.layers, s@.active, 0);
            }
            match s.layer(s.active) {
                Some(l) => {
                    if l.kind == LayerKind::Raster {
                        Some(l)
                    } else {
                        None
                    }
                },
                None => None,
            }
        },
    }
}

/// Whether to tell that the layer has to be baked first: the brush is set down on a layer that
/// shows effects.
pub fn bake_hint(stack: &Option<LayerStack>, i: CanvasInput, tool: PsToolId) -> (b: bool)
    requires
        opt_stack_wf(*stack),
    ensures
        b == (!panning(i) && i.primary_pressed && in_viewport(i) && tool == PsToolId::Brush
            && active_raster(opt_stack(*stack)) is Some && !(active_raster(
            opt_stack(*stack),
        )->0).editable()),
{
    let p = plan_frame(i, tool);
    if p.pan || !i.primary_pressed || !p.pointer_in_viewport || tool != PsToolId::Brush {
        return false;
    }
    match find_active_raster(stack) {
        Some(l) => !l.can_edit_pixels(),
        None => false,
    }
}

/// The opacity of a layer before its slider was moved.
#[derive(Clone, Copy, Debug, PartialEq, Eq, Structural)]
pub struct OpacityStart {
    pub id: LayerId,
    pub opacity: u32,
}

/// The place of a layer before it was moved.
pub struct TransformStart {
    pub uid: String,
    pub transform: LayerTransform,
}

/// The mesh of a layer before it was pulled.
pub struct DeformStart {
    pub uid: String,
    pub deform: Option<DeformRec>,
}

/// What gestures under way started from.
pub struct Gestures {
    pub opacity: Option<OpacityStart>,
    pub transform: Option<TransformStart>,
    pub deform: Option<DeformStart>,
    /// The rectangle that a stroke has touched so far.
    pub stroke: Option<DirtyRect>,
}

/// The starts of gestures as a mathematical value.
#[verifier::ext_equal]
pub struct GestureView {
    pub opacity: Option<OpacityStart>,
    pub transform: Option<(Seq<char>, LayerTransform)>,
    pub deform: Option<(Seq<char>, Option<DeformView>)>,
    pub stroke: Option<DirtyRect>,
}

impl View for Gestures {
    type V = GestureView;

    open spec fn view(&self) -> GestureView {
        GestureView {
            opacity: self.opacity,
            transform: match self.transform {
                Some(t) => Some((t.uid@, t.transform)),
                None => None,
            },
            deform: match self.deform {
                Some(d) => Some((d.uid@, deform_view(d.deform))),
                None => None,
            },
            stroke: self.stroke,
        }
    }
}

/// No gesture under way.
pub open spec fn no_gesture() -> GestureView {
    GestureView { opacity: None, transform: None, deform: None, stroke: None }
}

/// The starts after the button was pressed: a tool that changes the active layer notes what the
/// layer was like, and the brush starts a new rectangle.
pub open spec fn pressed_with(
    g: GestureView,
    active: Option<LayerView>,
    tool: PsToolId,
) -> GestureView {
    GestureView {
        transform: if tool == PsToolId::Transform {
            match active {
                Some(l) => Some((uid_text(l.uid), l.transform)),
                None => None,
            }
        } else {
            g.transform
        },
        deform: if tool == PsToolId::Deform {
            match active {
                Some(l) => Some((uid_text(l.uid), l.deform)),
                None => None,
            }
        } else {
            g.deform
        },
        ..g
    }
}

/// The rectangle of a stroke after a frame of the brush.
pub open spec fn grown(stroke: Option<DirtyRect>, pressed: bool, dirty: Option<DirtyRect>) -> Option<
    DirtyRect,
> {
    let kept = if pressed {
        None
    } else {
        stroke
    };
    match dirty {
        Some(d) => match kept {
            Some(u) => Some(joint_rect(u, d)),
            None => Some(d),
        },
        None => kept,
    }
}

/// The change of the document at the end of a gesture.
pub open spec fn release_edit(active: Option<LayerView>, tool: PsToolId) -> Option<DocEditView> {
    match active {
        None => None,
        Some(l) => match tool {
            PsToolId::Transform => Some(
                DocEditView::SetTransform {
                    uid: uid_text(l.uid),
                    transform: stored_placement(l.transform),
                },
            ),
            PsToolId::Deform => Some(
                DocEditView::SetDeform { uid: uid_text(l.uid), deform: l.deform },
            ),
            PsToolId::Brush => if l.pixels_dirty && l.effects.len() == 0 {
                Some(
                    DocEditView::SetPixels {
                        uid: uid_text(l.uid),
                        base: l.image,
                        display: l.image,
                    },
                )
            } else {
                None
            },
            _ => None,
        },
    }
}

/// The step that can be undone at the end of a gesture: the layer is the one that was pressed, and
/// it did change.
pub open spec fn release_op(
    g: GestureView,
    active: Option<LayerView>,
    page_idx: usize,
    tool: PsToolId,
) -> Option<OpView> {
    match active {
        None => None,
        Some(l) => {
            let uid = uid_text(l.uid);
            match tool {
                PsToolId::Transform => match g.transform {
                    Some(t) => if t.0 == uid && !same_placement(t.1, l.transform) {
                        Some(
                            OpView::FieldPatch {
                                page_idx,
                                layer_uid: uid,
                                field: PatchView::Transform { before: t.1, after: l.transform },
                            },
                        )
                    } else {
                        None
                    },
                    None => None,
                },
                PsToolId::Deform => match g.deform {
                    Some(d) => if d.0 == uid && !same_deform(d.1, l.deform) {
                        Some(
                            OpView::FieldPatch {
                                page_idx,
                                layer_uid: uid,
                                field: PatchView::Deform { before: d.1, after: l.deform },
                            },
                        )
                    } else {
                        None
                    },
                    None => None,
                },
                _ => None,
            }
        },
    }
}

/// The starts after the button was released.
pub open spec fn released_with(
    g: GestureView,
    active: Option<LayerView>,
    tool: PsToolId,
) -> GestureView {
    GestureView {
        transform: if tool == PsToolId::Transform && active is Some {
            None
        } else {
            g.transform
        },
        deform: if tool == PsToolId::Deform && active is Some {
            None
        } else {
            g.deform
        },
        stroke: if tool == PsToolId::Brush {
            None
        } else {
            g.stroke
        },
        ..g
    }
}

/// What the end of a gesture asks for.
pub struct Release {
    /// The change of the document.
    pub doc: Option<DocEdit>,
    /// The step to be recorded.
    pub op: Option<PsEditOp>,
    /// The pixels of a stroke, from which its step is made.
    pub stroke: Option<StrokeRegion>,
}

pub open spec fn opt_edit(e: Option<DocEdit>) -> Option<DocEditView> {
    match e {
        Some(x) => Some(x@),
        None => None,
    }
}

pub open spec fn opt_op(o: Option<PsEditOp>) -> Option<OpView> {
    match o {
        Some(x) => Some(x@),
        None => None,
    }
}

/// A region holds the pixels that a stroke changed on a layer.
pub open spec fn is_stroke_of(o: StrokeRegion, l: LayerView, d: DirtyRect) -> bool {
    let q = stroke_rect(d, l.image.w, l.image.h);
    let w = q.max_x - q.min_x + 1;
    let h = q.max_y - q.min_y + 1;
    &&& o.layer_uid@ == uid_text(l.uid)
    &&& o.image_size.0 == l.image.w && o.image_size.1 == l.image.h
    &&& o.origin.0 == q.min_x && o.origin.1 == q.min_y
    &&& o.region.0 == w && o.region.1 == h
    &&& o.before@ == region_bytes(l.base_image, q.min_x as int, q.min_y as int, w, h)
    &&& o.after@ == region_bytes(l.image, q.min_x as int, q.min_y as int, w, h)
}

fn nothing_released() -> (r: Release)
    ensures
        r.doc is None,
        r.op is None,
        r.stroke is None,
{
    Release { doc: None, op: None, stroke: None }
}

impl Gestures {
    pub fn new() -> (g: Gestures)
        ensures
            g@ == no_gesture(),
    {
        Gestures { opacity: None, transform: None, deform: None, stroke: None }
    }

    /// Forgets every gesture; so no step can be recorded against another page.
    pub fn clear(&mut self)
        ensures
            final(self)@ == no_gesture(),
    {
        self.opacity = None;
        self.transform = None;
        self.deform = None;
        self.stroke = None;
    }

    /// The button was pressed, before the tool changes anything.
    pub fn press(&mut self, stack: &Option<LayerStack>, tool: PsToolId)
        requires
            opt_stack_wf(*stack),
        ensures
            final(self)@ == pressed_with(old(self)@, active_raster(opt_stack(*stack)), tool),
    {
        let active = find_active_raster(stack);
        if tool == PsToolId::Transform {
            self.transform = match active {
                Some(l) => Some(
                    TransformStart { uid: uid_to_string(l.uid), transform: l.transform },
                ),
                None => None,
            };
        }
        if tool == PsToolId::Deform {
            self.deform = match active {
                Some(l) => Some(
                    DeformStart { uid: uid_to_string(l.uid), deform: copy_deform(&l.deform) },
                ),
                None => None,
            };
        }
    }

    /// The tool has painted; only the brush makes strokes.
    pub fn painted(&mut self, tool: PsToolId, pressed: bool, dirty: Option<DirtyRect>)
        ensures
            final(self)@ == (GestureView {
                stroke: if tool == PsToolId::Brush {
                    grown(old(self)@.stroke, pressed, dirty)
                } else {
                    old(self)@.stroke
                },
                ..old(self)@
            }),
    {
        if tool == PsToolId::Brush {
            if pressed {
                self.stroke = None;
            }
            if let Some(d) = dirty {
                self.stroke = match self.stroke {
                    Some(u) => Some(join_rects(u, d)),
                    None => Some(d),
                };
            }
        }
    }

    /// The button was released, after the tool changed the layer for the last time.  Without a
    /// page nothing happens.
    pub fn release(&mut self, stack: &Option<LayerStack>, page: Option<usize>, tool: PsToolId) -> (r:
        Release)
        requires
            opt_stack_wf(*stack),
            page is Some && tool == PsToolId::Brush ==> match painted_layer(
                opt_stack(*stack),
                page->0,
            ) {
                Some(l) => (side_end(l.image.w) + 1) * (side_end(l.image.h) + 1) * 4 <= usize::MAX,
                None => true,
            },
        ensures
            match page {
                None => final(self)@ == old(self)@ && r.doc is None && r.op is None && r.stroke
                    is None,
                Some(p) => {
                    let active = active_raster(opt_stack(*stack));
                    &&& final(self)@ == released_with(old(self)@, active, tool)
                    &&& opt_edit(r.doc) == release_edit(active, tool)
                    &&& opt_op(r.op) == release_op(old(self)@, active, p, tool)
                    &&& match (painted_layer(opt_stack(*stack), p), old(self)@.stroke) {
                        (Some(l), Some(d)) => {
                            &&& r.stroke is Some <==> tool == PsToolId::Brush && recordable(
                                l,
                                stroke_rect(d, l.image.w, l.image.h),
                            )
                            &&& r.stroke is Some ==> is_stroke_of(r.stroke->0, l, d)
                        },
                        _ => r.stroke is None,
                    }
                },
            },
    {
        let p: usize = match page {
            Some(p) => p,
            None => {
                return nothing_released();
            },
        };
        match tool {
            PsToolId::Transform => self.release_transform(stack, p),
            PsToolId::Deform => self.release_deform(stack, p),
            PsToolId::Brush => self.release_brush(stack, p),
            _ => nothing_released(),
        }
    }

    fn release_transform(&mut self, stack: &Option<LayerStack>, page_idx: usize) -> (r: Release)
        requires
            opt_stack_wf(*stack),
        ensures
            ({
                let active = active_raster(opt_stack(*stack));
                &&& final(self)@ == released_with(old(self)@, active, PsToolId::Transform)
                &&& opt_edit(r.doc) == release_edit(active, PsToolId::Transform)
                &&& opt_op(r.op) == release_op(
                    old(self)@,
                    active,
                    page_idx,
                    PsToolId::Transform,
                )
                &&& r.stroke is None
            }),
    {
        let l = match find_active_raster(stack) {
            Some(l) => l,
            None => {
                return nothing_released();
            },
        };
        let uid = uid_to_string(l.uid);
        let doc = DocEdit::SetTransform {
            uid: uid.clone(),
            transform: transform_to_rec(l.transform),
        };
        let start = self.transform.take();
        let op = match start {
            Some(t) => {
                if t.uid == uid && !placements_equal(t.transform, l.transform) {
                    Some(
                        PsEditOp::FieldPatch {
                            page_idx,
                            layer_uid: uid,
                            field: LayerFieldPatch::Transform {
                                before: t.transform,
                                after: l.transform,
                            },
                        },
                    )
                } else {
                    None
                }
            },
            None => None,
        };
        Release { doc: Some(doc), op, stroke: None }
    }

    fn release_deform(&mut self, stack: &Option<LayerStack>, page_idx: usize) -> (r: Release)
        requires
            opt_stack_wf(*stack),
        ensures
            ({
                let active = active_raster(opt_stack(*stack));
                &&& final(self)@ == released_with(old(self)@, active, PsToolId::Deform)
                &&& opt_edit(r.doc) == release_edit(active, PsToolId::Deform)
                &&& opt_op(r.op) == release_op(old(self)@, active, page_idx, PsToolId::Deform)
                &&& r.stroke is None
            }),
    {
        let l = match find_active_raster(stack) {
            Some(l) => l,
            None => {
                return nothing_released();
            },
        };
        let uid = uid_to_string(l.uid);
        let doc = DocEdit::SetDeform { uid: uid.clone(), deform: copy_deform(&l.deform) };
        let start = self.deform.take();
        let op = match start {
            Some(d) => {
                if d.uid == uid && !deform_eq(&d.deform, &l.deform) {
                    Some(
                        PsEditOp::FieldPatch {
                            page_idx,
                            layer_uid: uid,
                            field: LayerFieldPatch::Deform {
                                before: d.deform,
                                after: copy_deform(&l.deform),
                            },
                        },
                    )
                } else {
                    None
                }
            },
            None => None,
        };
        Release { doc: Some(doc), op, stroke: None }
    }

    fn release_brush(&mut self, stack: &Option<LayerStack>, page_idx: usize) -> (r: Release)
        requires
            opt_stack_wf(*stack),
            match painted_layer(opt_stack(*stack), page_idx) {
                Some(l) => (side_end(l.image.w) + 1) * (side_end(l.image.h) + 1) * 4 <= usize::MAX,
                None => true,
            },
        ensures
            ({
                let active = active_raster(opt_stack(*stack));
                &&& final(self)@ == released_with(old(self)@, active, PsToolId::Brush)
                &&& opt_edit(r.doc) == release_edit(active, PsToolId::Brush)
                &&& r.op is None
                &&& match (painted_layer(opt_stack(*stack), page_idx), old(self)@.stroke) {
                    (Some(l), Some(d)) => {
                        &&& r.stroke is Some <==> recordable(
                            l,
                            stroke_rect(d, l.image.w, l.image.h),
                        )
                        &&& r.stroke is Some ==> is_stroke_of(r.stroke->0, l, d)
                    },
                    _ => r.stroke is None,
                }
            }),
    {
        let stroke = record_brush_stroke(stack, page_idx, self.stroke);
        self.stroke = None;
        let doc = match find_active_raster(stack) {
            Some(l) => {
                assert(l@.effects.len() == l.effects@.len());
                if l.pixels_dirty && l.effects.len() == 0 {
                    Some(
                        DocEdit::SetPixels {
                            uid: uid_to_string(l.uid),
                            base: l.image.copied(),
                            display: l.image.copied(),
                        },
                    )
                } else {
                    None
                }
            },
            None => None,
        };
        Release { doc, op: None, stroke }
    }
}

/// A finished gesture is recorded once: after a release nothing is left to record, until a layer
/// is pressed again.
pub proof fn a_gesture_is_recorded_once(
    g: GestureView,
    active: Option<LayerView>,
    page_idx: usize,
    tool: PsToolId,
)
    ensures
        release_op(released_with(g, active, tool), active, page_idx, tool) is None,
        tool == PsToolId::Brush ==> released_with(g, active, tool).stroke is None,
{
}

/// Undoing a recorded gesture gives the layer back what it had when it was pressed.
pub proof fn undoing_a_gesture_restores_the_press(
    g: GestureView,
    pressed: LayerView,
    released: LayerView,
    page_idx: usize,
    tool: PsToolId,
)
    requires
        pressed.uid == released.uid,
        tool == PsToolId::Transform || tool == PsToolId::Deform,
    ensures
        ({
            let op = release_op(
                pressed_with(g, Some(pressed), tool),
                Some(released),
                page_idx,
                tool,
            );
            op is Some ==> (op->0 matches OpView::FieldPatch { layer_uid, field, .. } && layer_uid
                == uid_text(pressed.uid) && field.applied(released) == released
                && field.inverse().applied(released) == (if tool == PsToolId::Transform {
                LayerView { transform: pressed.transform, ..released }
            } else {
                LayerView { deform: pressed.deform, ..released }
            }))
        }),
{
}

/// A stroke's rectangle holds every rectangle that was painted since the press.
pub proof fn a_stroke_holds_what_was_painted(stroke: Option<DirtyRect>, pressed: bool, d: DirtyRect)
    ensures
        ({
            let s = grown(stroke, pressed, Some(d));
            &&& s is Some
            &&& (s->0).min_x <= d.min_x && (s->0).min_y <= d.min_y
            &&& d.max_x <= (s->0).max_x && d.max_y <= (s->0).max_y
            &&& !pressed && stroke is Some ==> {
                &&& (s->0).min_x <= (stroke->0).min_x && (s->0).min_y <= (stroke->0).min_y
                &&& (stroke->0).max_x <= (s->0).max_x && (stroke->0).max_y <= (s->0).max_y
            }
        }),
{
}

/// The stack after a tool painted: the active layer has to be stored.
pub open spec fn marked(s: Option<StackView>, dirty: Option<DirtyRect>) -> Option<StackView> {
    match (s, dirty) {
        (Some(v), Some(_)) => Some(
            StackView {
                layers: match layer_from(v.layers, v.active, 0) {
                    Some(i) => v.layers.update(i, LayerView { pixels_dirty: true, ..v.layers[i] }),
                    None => v.layers,
                },
                ..v
            },
        ),
        _ => s,
    }
}

/// Notes what a tool painted: the active layer has to be stored.  Tells which part of which layer
/// goes to the graphics card again.
pub fn apply_tool_outcome(stack: &mut Option<LayerStack>, dirty: Option<DirtyRect>) -> (r: Option<
    (LayerId, DirtyRect),
>)
    requires
        opt_stack_wf(*old(stack)),
    ensures
        opt_stack_wf(*final(stack)),
        opt_stack(*final(stack)) == marked(opt_stack(*old(stack)), dirty),
        r == match (opt_stack(*old(stack)), dirty) {
            (Some(s), Some(d)) => Some((s.active, d)),
            _ => None,
        },
{
    let d = match dirty {
        Some(d) => d,
        None => {
            return None;
        },
    };
    match stack {
        None => None,
        Some(s) => {
            let active: LayerId = s.active;
            let ghost s0 = s@;
            proof {
                lemma_layer_from(s0.layers, active, 0);
            }
            if let Some(i) = s.position(active) {
                let layer = &mut s.layers[i];
                layer.pixels_dirty = true;
                proof {
                    let l1 = LayerView { pixels_dirty: true, ..s0.layers[i as int] };
                    lemma_layer_put(s0, i as int, l1);
                    assert(s@.layers =~= s0.layers.update(i as int, l1));
                }
            }
            Some((active, d))
        },
    }
}

/// What follows from the turn of a tool.
pub struct ToolTurn {
    /// The part of a layer that goes to the graphics card again.
    pub redraw: Option<(LayerId, DirtyRect)>,
    pub release: Release,
}

/// The release of a stroke: the pixels of the rectangle, if the brush was released and there is
/// something to record.
pub open spec fn stroke_released(
    r: Option<StrokeRegion>,
    layer: Option<LayerView>,
    stroke: Option<DirtyRect>,
    brush: bool,
) -> bool {
    match (layer, stroke) {
        (Some(l), Some(d)) => {
            &&& r is Some <==> brush && recordable(l, stroke_rect(d, l.image.w, l.image.h))
            &&& r is Some ==> is_stroke_of(r->0, l, d)
        },
        _ => r is None,
    }
}

impl Gestures {
    /// Whether the active tool gets the input of a frame: not while the canvas is panned or a text
    /// is dragged.  If it does and the button was pressed, the gesture starts.
    pub fn before_tool(
        &mut self,
        stack: &Option<LayerStack>,
        i: CanvasInput,
        tool: PsToolId,
        text_dragged: bool,
    ) -> (turn: bool)
        requires
            opt_stack_wf(*stack),
        ensures
            turn == (!panning(i) && !text_dragged),
            final(self)@ == if turn && i.primary_pressed {
                pressed_with(old(self)@, active_raster(opt_stack(*stack)), tool)
            } else {
                old(self)@
            },
    {
        let turn = !plan_frame(i, tool).pan && !text_dragged;
        if turn && i.primary_pressed {
            self.press(stack, tool);
        }
        turn
    }

    /// What follows from the turn of a tool: what it painted is noted and added to the stroke, and
    /// if the button was released the gesture ends.
    pub fn after_tool(
        &mut self,
        stack: &mut Option<LayerStack>,
        i: CanvasInput,
        tool: PsToolId,
        page: Option<usize>,
        dirty: Option<DirtyRect>,
    ) -> (t: ToolTurn)
        requires
            opt_stack_wf(*old(stack)),
            page is Some && tool == PsToolId::Brush ==> match painted_layer(
                marked(opt_stack(*old(stack)), dirty),
                page->0,
            ) {
                Some(l) => (side_end(l.image.w) + 1) * (side_end(l.image.h) + 1) * 4 <= usize::MAX,
                None => true,
            },
        ensures
            opt_stack_wf(*final(stack)),
            opt_stack(*final(stack)) == marked(opt_stack(*old(stack)), dirty),
            t.redraw == match (opt_stack(*old(stack)), dirty) {
                (Some(s), Some(d)) => Some((s.active, d)),
                _ => None,
            },
            ({
                let g = GestureView {
                    stroke: if tool == PsToolId::Brush {
                        grown(old(self)@.stroke, i.primary_pressed, dirty)
                    } else {
                        old(self)@.stroke
                    },
                    ..old(self)@
                };
                let s = opt_stack(*final(stack));
                let active = active_raster(s);
                let ends = i.primary_released && page is Some;
                &&& final(self)@ == if ends {
                    released_with(g, active, tool)
                } else {
                    g
                }
                &&& opt_edit(t.release.doc) == if ends {
                    release_edit(active, tool)
                } else {
                    None
                }
                &&& opt_op(t.release.op) == if ends {
                    release_op(g, active, page->0, tool)
                } else {
                    None
                }
                &&& !ends ==> t.release.stroke is None
                &&& ends ==> stroke_released(
                    t.release.stroke,
                    painted_layer(s, page->0),
                    g.stroke,
                    tool == PsToolId::Brush,
                )
            }),
    {
        let redraw = apply_tool_outcome(stack, dirty);
        self.painted(tool, i.primary_pressed, dirty);
        let release = if i.primary_released {
            self.release(stack, page, tool)
        } else {
            nothing_released()
        };
        ToolTurn { redraw, release }
    }
}

/// The canvas is drawn again at once: the pointer is over it, or something is under way.
pub fn needs_repaint(i: CanvasInput, loading: bool, effects_running: bool) -> (b: bool)
    ensures
        b == (i.hovered || panning(i) || loading || effects_running),
{
    i.hovered || i.middle_down || (i.space_down && i.primary_down) || loading || effects_running
}

/// A picture on the graphics card.
#[derive(Clone, Copy, Debug, PartialEq, Eq, Structural)]
pub struct CacheEntry {
    pub id: LayerId,
    pub w: usize,
    pub h: usize,
}

/// What becomes of the pictures on the graphics card.
pub struct CachePlan {
    /// For each of them, whether its layer is still there.
    pub keep: Vec<bool>,
    /// Those that are made anew.
    pub create: Vec<CacheEntry>,
}

/// The pictures to be made for the first `n` layers: those that are missing or of another size.
pub open spec fn missing_entries(layers: Seq<LayerView>, cache: Seq<CacheEntry>, n: int) -> Seq<
    CacheEntry,
>
    decreases n,
{
    if n <= 0 {
        Seq::empty()
    } else {
        let prev = missing_entries(layers, cache, n - 1);
        let l = layers[n - 1];
        let e = CacheEntry { id: l.id, w: l.image.w as usize, h: l.image.h as usize };
        if cache.contains(e) {
            prev
        } else {
            prev.push(e)
        }
    }
}

fn has_entry(cache: &Vec<CacheEntry>, e: CacheEntry) -> (b: bool)
    ensures
        b == cache@.contains(e),
{
    let mut i: usize = 0;
    while i < cache.len()
        invariant
            i <= cache@.len(),
            forall|k: int| 0 <= k < i ==> cache@[k] != e,
        decreases cache@.len() - i,
    {
        if cache[i] == e {
            assert(cache@[i as int] == e);
            return true;
        }
        i += 1;
    }
    false
}

/// What becomes of the pictures on the graphics card: one for every layer, of the layer's size,
/// and no others.
pub fn sync_render_cache(stack: &LayerStack, cache: &Vec<CacheEntry>) -> (plan: CachePlan)
    ensures
        plan.keep@ == cache@.map_values(
            |e: CacheEntry| layer_from(stack@.layers, e.id, 0) is Some,
        ),
        plan.create@ == missing_entries(stack@.layers, cache@, stack@.layers.len() as int),
{
    let ghost kept = cache@.map_values(
        |e: CacheEntry| layer_from(stack@.layers, e.id, 0) is Some,
    );
    let mut keep: Vec<bool> = Vec::new();
    let mut i: usize = 0;
    while i < cache.len()
        invariant
            i <= cache@.len(),
            kept == cache@.map_values(
                |e: CacheEntry| layer_from(stack@.layers, e.id, 0) is Some,
            ),
            keep@ == kept.take(i as int),
        decreases cache@.len() - i,
    {
        let here = stack.position(cache[i].id).is_some();
        keep.push(here);
        i += 1;
        assert(keep@ =~= kept.take(i as int));
    }
    assert(keep@ =~= kept);
    let mut create: Vec<CacheEntry> = Vec::new();
    let mut n: usize = 0;
    while n < stack.layers.len()
        invariant
            n <= stack.layers@.len(),
            create@ == missing_entries(stack@.layers, cache@, n as int),
        decreases stack.layers@.len() - n,
    {
        let l = &stack.layers[n];
        let e = CacheEntry { id: l.id, w: l.image.w, h: l.image.h };
        assert(stack@.layers[n as int] == l@);
        if !has_entry(cache, e) {
            create.push(e);
        }
        n += 1;
    }
    CachePlan { keep, create }
}

/// How many tiles go to the graphics card in one frame.
pub const TILE_UPLOAD_BUDGET_PER_FRAME: usize = 8;

/// The tiles that may still go to the graphics card in this frame.
pub struct UploadBudget {
    pub left: usize,
}

impl UploadBudget {
    pub fn new() -> (b: UploadBudget)
        ensures
            b.left == TILE_UPLOAD_BUDGET_PER_FRAME,
    {
        UploadBudget { left: TILE_UPLOAD_BUDGET_PER_FRAME }
    }

    /// How many tiles the next layer may send; none is left once the answer is `None`.
    pub fn next(&self) -> (r: Option<usize>)
        ensures
            r == if self.left == 0 {
                None
            } else {
                Some(self.left)
            },
    {
        if self.left == 0 {
            None
        } else {
            Some(self.left)
        }
    }

    /// A layer has sent some tiles.
    pub fn spend(&mut self, uploaded: usize)
        ensures
            final(self).left == if uploaded < old(self).left {
                old(self).left - uploaded
            } else {
                0
            },
    {
        self.left = self.left.saturating_sub(uploaded);
    }
}

/// What dragging a text does to it.
#[derive(Clone, Copy, Debug, PartialEq, Eq, Structural)]
pub enum TextDragMode {
    Translate,
    Rotate,
    Scale,
}

/// A text that is being dragged.
#[derive(Clone, Copy, Debug, PartialEq, Eq, Structural)]
pub struct TextDrag {
    pub index: usize,
    pub mode: TextDragMode,
}

/// What a frame does with a dragged text.
pub enum TextDragStep {
    /// No text is dragged.
    Idle,
    /// A text was taken hold of.
    Began,
    /// The text follows the pointer.
    Moves,
    /// There is nothing to follow in this frame.
    Waits,
    /// The text was let go; its new place goes into the document.
    Released(Option<DocEdit>),
}

/// The highest of the first `n` texts that can be dragged: it is visible, has no mesh, and the
/// pointer is over it.
pub open spec fn topmost(ts: Seq<TextView>, under: Seq<bool>, n: int) -> Option<int>
    decreases n,
{
    if n <= 0 {
        None
    } else if ts[n - 1].visible && ts[n - 1].deform is None && under[n - 1] {
        Some(n - 1)
    } else {
        topmost(ts, under, n - 1)
    }
}

fn find_topmost(text_layers: &Vec<PsTextLayer>, under: &Vec<bool>) -> (r: Option<usize>)
    requires
        under@.len() == text_layers@.len(),
    ensures
        match r {
            Some(i) => i < text_layers@.len() && topmost(
                text_views(text_layers@),
                under@,
                text_layers@.len() as int,
            ) == Some(i as int),
            None => topmost(text_views(text_layers@), under@, text_layers@.len() as int) is None,
        },
{
    let mut n: usize = text_layers.len();
    while n > 0
        invariant
            n <= text_layers@.len(),
            under@.len() == text_layers@.len(),
            topmost(text_views(text_layers@), under@, text_layers@.len() as int) == topmost(
                text_views(text_layers@),
                under@,
                n as int,
            ),
        decreases n,
    {
        let t = &text_layers[n - 1];
        assert(text_views(text_layers@)[n - 1] == t@);
        if t.visible && t.deform.is_none() && under[n - 1] {
            return Some(n - 1);
        }
        n -= 1;
    }
    None
}

pub open spec fn drag_mode(i: CanvasInput) -> TextDragMode {
    if i.shift {
        TextDragMode::Rotate
    } else if i.command {
        TextDragMode::Scale
    } else {
        TextDragMode::Translate
    }
}

/// A frame of dragging a text: the highest one under the pointer is taken hold of, follows the
/// pointer while the button is down, and keeps its new place when it is let go.  While a text is
/// dragged, and in the frame in which it is let go, no tool gets the input.
pub fn handle_text_layer_drag(
    drag: &mut Option<TextDrag>,
    text_layers: &Vec<PsTextLayer>,
    under: &Vec<bool>,
    i: CanvasInput,
    page: Option<usize>,
) -> (step: TextDragStep)
    requires
        under@.len() == text_layers@.len(),
    ensures
        match *old(drag) {
            None => {
                let hit = topmost(text_views(text_layers@), under@, text_layers@.len() as int);
                if i.primary_pressed && in_viewport(i) && hit is Some {
                    step is Began && *final(drag) is Some && ((*final(drag))->0).index == hit->0
                        && ((*final(drag))->0).mode == drag_mode(i)
                } else {
                    step is Idle && *final(drag) is None
                }
            },
            Some(d) => if i.primary_down {
                &&& *final(drag) == *old(drag)
                &&& if i.has_pointer && d.index < text_layers@.len() {
                    step is Moves
                } else {
                    step is Waits
                }
            } else {
                &&& *final(drag) is None
                &&& step is Released
                &&& opt_edit(step->Released_0) == if page is Some && d.index
                    < text_layers@.len() {
                    let t = text_views(text_layers@)[d.index as int];
                    Some(
                        DocEditView::SetTransform {
                            uid: t.uid,
                            transform: stored_placement(t.transform),
                        },
                    )
                } else {
                    None
                }
            },
        },
{
    match *drag {
        None => {
            if i.primary_pressed && i.hovered && i.has_pointer && i.pointer_inside {
                if let Some(index) = find_topmost(text_layers, under) {
                    let mode = if i.shift {
                        TextDragMode::Rotate
                    } else if i.command {
                        TextDragMode::Scale
                    } else {
                        TextDragMode::Translate
                    };
                    *drag = Some(TextDrag { index, mode });
                    return TextDragStep::Began;
                }
            }
            TextDragStep::Idle
        },
        Some(d) => {
            if i.primary_down {
                if i.has_pointer && d.index < text_layers.len() {
                    TextDragStep::Moves
                } else {
                    TextDragStep::Waits
                }
            } else {
                *drag = None;
                if page.is_some() && d.index < text_layers.len() {
                    let t = &text_layers[d.index];
                    assert(text_views(text_layers@)[d.index as int] == t@);
                    TextDragStep::Released(
                        Some(
                            DocEdit::SetTransform {
                                uid: t.uid.clone(),
                                transform: transform_to_rec(t.transform),
                            },
                        ),
                    )
                } else {
                    TextDragStep::Released(None)
                }
            }
        },
    }
}

} // verus!
