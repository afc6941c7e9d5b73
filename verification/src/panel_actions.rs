//! What was asked for in the layers panel, step by step.

use vstd::prelude::*;
use vstd::string::StringExecFns;
use crate::band_moves::{expand_order_to_node_uids, move_band, move_group, toggle_pin};
#[allow(unused_imports)]
use crate::band_moves::{heights_known, moved_band, moved_group, node_uids, pin_toggled};
use crate::bands::{raster_band_z, Band, BandRef};
#[allow(unused_imports)]
use crate::bands::{band_views, first_raster_z, ref_views, BandView, RefView};
use crate::canvas::{Gestures, OpacityStart};
#[allow(unused_imports)]
use crate::canvas::{opt_edit, opt_op, GestureView};
use crate::edit_op::{LayerFieldPatch, LifecycleDir, PsEditOp};
#[allow(unused_imports)]
use crate::edit_op::{OpView, PatchView};
use crate::ident::{copy_opt_text, uid_to_string};
#[allow(unused_imports)]
use crate::ident::{opt_text, texts, uid_text};
use crate::layer_doc::{layer_to_raster_node, GroupMeta};
#[allow(unused_imports)]
use crate::layer_doc::{meta_views, raster_node, MetaView};
use crate::layers::{GroupId, Layer, LayerId, LayerKind, LayerStack};
#[allow(unused_imports)]
use crate::layers::{
    identity_placement, layer_called, layer_from, lemma_layer_from, new_raster, rasters_in,
    LayerView, StackView,
};
use crate::panel::{GroupOp, GroupingEdit, RowSel};
#[allow(unused_imports)]
use crate::panel::{members_now, next_group_name, opt_row, refs_only, EditView, RowView};
use crate::panel_rows::{PanelActions, TextLayerOp};
#[allow(unused_imports)]
use crate::color::clear;
#[allow(unused_imports)]
use crate::raster::grid_of;
use crate::raster_edits::{record_raster_deletion, DeletedRasters, DocEdit};
#[allow(unused_imports)]
use crate::raster_edits::{
    edit_views, lemma_layer_put, opt_stack, opt_stack_wf, DocEditView,
};
use crate::text::append_decimal;
#[allow(unused_imports)]
use crate::text::decimal;
use crate::text_layers::PsTextLayer;
#[allow(unused_imports)]
use crate::text_layers::{text_views, TextView};
use crate::unified_order::{build_unified_order, current_membership};
#[allow(unused_imports)]
use crate::unified_order::{
    all_items, member_views, order_views, ordered, pinned_texts, MemberView,
};

verus! {

/// A step of what was asked for.
pub enum PanelStep {
    AddLayer,
    NewGroup,
    SetActive(LayerId),
    /// The active layer is selected on the canvas.
    SelectActive,
    ToggleRaster(LayerId),
    ToggleText(usize),
    Opacity(LayerId, u32),
    /// The slider for the opacity rests.
    EndOpacity,
    Remove(LayerId),
    Merge(LayerId),
    Bake(LayerId),
    OpenEffects(LayerId),
    TextOp(usize, TextLayerOp),
    MoveBand(RowSel, bool),
    Group(GroupOp),
}

/// One step or none.
pub open spec fn when(b: bool, step: PanelStep) -> Seq<PanelStep> {
    if b {
        seq![step]
    } else {
        Seq::empty()
    }
}

/// The steps in the order in which they are taken.  The gesture of the opacity ends in the first
/// frame in which its slider does not move.
pub open spec fn steps_of(a: PanelActions, opacity_open: bool) -> Seq<PanelStep> {
    when(a.add_layer, PanelStep::AddLayer)
        + when(a.new_empty_group, PanelStep::NewGroup)
        + when(a.set_active_raster is Some, PanelStep::SetActive(a.set_active_raster->0))
        + when(a.request_select_active, PanelStep::SelectActive)
        + when(
        a.toggle_visible_raster is Some,
        PanelStep::ToggleRaster(a.toggle_visible_raster->0),
    ) + when(a.toggle_visible_text is Some, PanelStep::ToggleText(a.toggle_visible_text->0))
        + when(
        a.opacity_raster is Some,
        PanelStep::Opacity((a.opacity_raster->0).0, (a.opacity_raster->0).1),
    ) + when(a.opacity_raster is None && opacity_open, PanelStep::EndOpacity)
        + when(a.remove_raster is Some, PanelStep::Remove(a.remove_raster->0))
        + when(a.merge_req is Some, PanelStep::Merge(a.merge_req->0))
        + when(a.bake_req is Some, PanelStep::Bake(a.bake_req->0))
        + when(a.open_effects is Some, PanelStep::OpenEffects(a.open_effects->0))
        + when(a.text_op is Some, PanelStep::TextOp((a.text_op->0).0, (a.text_op->0).1))
        + when(a.move_band is Some, PanelStep::MoveBand((a.move_band->0).0, (a.move_band->0).1))
        + when(a.group_op is Some, PanelStep::Group(a.group_op->0))
}

fn push_when(steps: &mut Vec<PanelStep>, step: Option<PanelStep>)
    ensures
        final(steps)@ == old(steps)@ + when(step is Some, step->0),
{
    let ghost before = steps@;
    match step {
        Some(s) => {
            steps.push(s);
            assert(steps@ =~= before + seq![s]);
        },
        None => {
            assert(steps@ =~= before + Seq::<PanelStep>::empty());
        },
    }
}

/// The steps of what was asked for, in the order in which they are taken.
pub fn panel_steps(a: PanelActions, opacity_open: bool) -> (steps: Vec<PanelStep>)
    ensures
        steps@ == steps_of(a, opacity_open),
{
    let mut steps: Vec<PanelStep> = Vec::new();
    if a.add_layer {
        push_when(&mut steps, Some(PanelStep::AddLayer));
    }
    if a.new_empty_group {
        push_when(&mut steps, Some(PanelStep::NewGroup));
    }
    push_when(
        &mut steps,
        match a.set_active_raster {
            Some(id) => Some(PanelStep::SetActive(id)),
            None => None,
        },
    );
    if a.request_select_active {
        push_when(&mut steps, Some(PanelStep::SelectActive));
    }
    push_when(
        &mut steps,
        match a.toggle_visible_raster {
            Some(id) => Some(PanelStep::ToggleRaster(id)),
            None => None,
        },
    );
    push_when(
        &mut steps,
        match a.toggle_visible_text {
            Some(i) => Some(PanelStep::ToggleText(i)),
            None => None,
        },
    );
    push_when(
        &mut steps,
        match a.opacity_raster {
            Some(p) => Some(PanelStep::Opacity(p.0, p.1)),
            None => None,
        },
    );
    if a.opacity_raster.is_none() && opacity_open {
        push_when(&mut steps, Some(PanelStep::EndOpacity));
    }
    push_when(
        &mut steps,
        match a.remove_raster {
            Some(id) => Some(PanelStep::Remove(id)),
            None => None,
        },
    );
    push_when(
        &mut steps,
        match a.merge_req {
            Some(id) => Some(PanelStep::Merge(id)),
            None => None,
        },
    );
    push_when(
        &mut steps,
        match a.bake_req {
            Some(id) => Some(PanelStep::Bake(id)),
            None => None,
        },
    );
    push_when(
        &mut steps,
        match a.open_effects {
            Some(id) => Some(PanelStep::OpenEffects(id)),
            None => None,
        },
    );
    push_when(
        &mut steps,
        match a.text_op {
            Some(p) => Some(PanelStep::TextOp(p.0, p.1)),
            None => None,
        },
    );
    push_when(
        &mut steps,
        match a.move_band {
            Some(p) => Some(PanelStep::MoveBand(p.0, p.1)),
            None => None,
        },
    );
    push_when(
        &mut steps,
        match a.group_op {
            Some(op) => Some(PanelStep::Group(op)),
            None => None,
        },
    );
    assert(steps@ =~= steps_of(a, opacity_open));
    steps
}

/// A layer that was just added.
pub struct AddedLayer {
    pub id: LayerId,
    /// What the document is asked for, where there is a page.
    pub doc: Option<DocEdit>,
}

/// The empty layer that is added on top.
pub open spec fn blank_raster(s: StackView, uid: u128) -> LayerView {
    new_raster(
        s.next_layer_id,
        uid,
        "Слой "@ + decimal((rasters_in(s.layers) + 1) as nat),
        grid_of(s.w as int, s.h as int, |x: int, y: int| clear()),
        identity_placement(s.w as int, s.h as int),
    )
}

/// Adds an empty layer on top; its row becomes the main one.
pub fn add_layer(
    stack: &mut Option<LayerStack>,
    primary: &mut Option<RowSel>,
    page: Option<usize>,
    uid: u128,
) -> (r: Option<AddedLayer>)
    requires
        opt_stack_wf(*old(stack)),
        *old(stack) is Some ==> (opt_stack(*old(stack))->0).next_layer_id < u64::MAX,
    ensures
        opt_stack_wf(*final(stack)),
        r is Some <==> *old(stack) is Some,
        match opt_stack(*old(stack)) {
            None => *final(primary) == *old(primary) && opt_stack(*final(stack)) is None,
            Some(s) => {
                let l = blank_raster(s, uid);
                &&& opt_stack(*final(stack)) == Some(s.with_raster(l))
                &&& opt_row(*final(primary)) == Some(RowView::Raster(l.id))
                &&& (r->0).id == l.id
                &&& opt_edit((r->0).doc) == if page is Some {
                    Some(DocEditView::AddNode(raster_node(s.with_raster(l), l)))
                } else {
                    None
                }
            },
        },
{
    match stack {
        None => None,
        Some(s) => {
            let id: LayerId = s.add_raster_layer(uid);
            *primary = Some(RowSel::Raster(id));
            let n: usize = s.layers.len();
            assert(s@.layers[n - 1] == s.layers@[n - 1]@);
            let doc = if page.is_some() {
                Some(DocEdit::AddNode(layer_to_raster_node(s, &s.layers[n - 1])))
            } else {
                None
            };
            Some(AddedLayer { id, doc })
        },
    }
}

/// The step that can be undone after a layer was added and the document has given it its place.
pub fn added_op(
    stack: &Option<LayerStack>,
    bands: &Vec<Band>,
    page_idx: usize,
    id: LayerId,
) -> (op: Option<PsEditOp>)
    ensures
        opt_op(op) == match opt_stack(*stack) {
            Some(s) => match layer_called(s.layers, id) {
                Some(l) => Some(
                    OpView::LayerLifecycle {
                        page_idx,
                        layer: l,
                        z: first_raster_z(band_views(bands@), uid_text(l.uid), 0),
                        dir: LifecycleDir::Added,
                    },
                ),
                None => None,
            },
            None => None,
        },
{
    match stack {
        None => None,
        Some(s) => match s.layer(id) {
            Some(l) => {
                let z: u32 = raster_band_z(bands, &uid_to_string(l.uid));
                Some(
                    PsEditOp::LayerLifecycle {
                        page_idx,
                        layer: Box::new(l.copied()),
                        z,
                        dir: LifecycleDir::Added,
                    },
                )
            },
            None => None,
        },
    }
}

/// Adds an empty group.
pub fn new_empty_group(stack: &mut LayerStack, uid: u128) -> (id: GroupId)
    requires
        old(stack).wf(),
        old(stack)@.next_group_id < u64::MAX,
        old(stack)@.groups.len() < usize::MAX,
    ensures
        final(stack).wf(),
        id == old(stack)@.next_group_id,
        final(stack)@ == old(stack)@.with_group(next_group_name(old(stack)@), uid),
{
    let n: usize = stack.groups.len() + 1;
    let mut name = String::from_str("Группа ");
    append_decimal(&mut name, n);
    stack.add_group_with_uid(name, uid)
}

/// The layer of the user with an id.
pub open spec fn raster_called(s: Option<StackView>, id: LayerId) -> Option<LayerView> {
    match s {
        Some(v) => match layer_called(v.layers, id) {
            Some(l) => if l.kind == LayerKind::Raster {
                Some(l)
            } else {
                None
            },
            None => None,
        },
        None => None,
    }
}

fn find_raster(stack: &Option<LayerStack>, id: LayerId) -> (r: Option<&Layer>)
    ensures
        match r {
            Some(l) => raster_called(opt_stack(*stack), id) == Some(l@),
            None => raster_called(opt_stack(*stack), id) is None,
        },
{
    match stack {
        None => None,
        Some(s) => match s.layer(id) {
            Some(l) => if l.kind == LayerKind::Raster {
                Some(l)
            } else {
                None
            },
            None => None,
        },
    }
}

/// The identifier of the layer of the user with an id.
pub fn raster_uid(stack: &Option<LayerStack>, id: LayerId) -> (r: Option<String>)
    ensures
        opt_text(r) == match raster_called(opt_stack(*stack), id) {
            Some(l) => Some(uid_text(l.uid)),
            None => None,
        },
{
    match find_raster(stack, id) {
        Some(l) => Some(uid_to_string(l.uid)),
        None => None,
    }
}

/// A change of a field: what the document is asked for, and the step to be recorded.
pub struct FieldChange {
    pub doc: DocEdit,
    pub op: PsEditOp,
}

/// Shows a layer of the user or hides it.  Nothing happens without a page, or for a base layer.
pub fn toggle_visible_raster(stack: &Option<LayerStack>, page: Option<usize>, id: LayerId) -> (r:
    Option<FieldChange>)
    ensures
        match (page, raster_called(opt_stack(*stack), id)) {
            (Some(p), Some(l)) => {
                &&& r is Some
                &&& (r->0).doc@ == (DocEditView::SetVisibility {
                    uid: uid_text(l.uid),
                    visible: !l.visible,
                })
                &&& (r->0).op@ == (OpView::FieldPatch {
                    page_idx: p,
                    layer_uid: uid_text(l.uid),
                    field: PatchView::Visibility { before: l.visible, after: !l.visible },
                })
            },
            _ => r is None,
        },
{
    match (page, find_raster(stack, id)) {
        (Some(page_idx), Some(l)) => {
            let uid = uid_to_string(l.uid);
            let visible = !l.visible;
            Some(
                FieldChange {
                    doc: DocEdit::SetVisibility { uid: uid.clone(), visible },
                    op: PsEditOp::FieldPatch {
                        page_idx,
                        layer_uid: uid,
                        field: LayerFieldPatch::Visibility { before: !visible, after: visible },
                    },
                },
            )
        },
        _ => None,
    }
}

/// Shows a layer or hides it where there is no document.
pub fn set_visible(stack: &mut Option<LayerStack>, id: LayerId, visible: bool)
    requires
        opt_stack_wf(*old(stack)),
    ensures
        opt_stack_wf(*final(stack)),
        opt_stack(*final(stack)) == with_layer_changed(
            opt_stack(*old(stack)),
            id,
            |l: LayerView| LayerView { visible, ..l },
        ),
{
    if let Some(s) = stack {
        let ghost s0 = s@;
        proof {
            lemma_layer_from(s0.layers, id, 0);
        }
        if let Some(i) = s.position(id) {
            let layer = &mut s.layers[i];
            layer.visible = visible;
            proof {
                let l1 = LayerView { visible, ..s0.layers[i as int] };
                lemma_layer_put(s0, i as int, l1);
                assert(s@.layers =~= s0.layers.update(i as int, l1));
            }
        }
    }
}

/// The stack with the layer that has an id changed.
pub open spec fn with_layer_changed(
    s: Option<StackView>,
    id: LayerId,
    f: spec_fn(LayerView) -> LayerView,
) -> Option<StackView> {
    match s {
        Some(v) => Some(
            StackView {
                layers: match layer_from(v.layers, id, 0) {
                    Some(i) => v.layers.update(i, f(v.layers[i])),
                    None => v.layers,
                },
                ..v
            },
        ),
        None => None,
    }
}

/// Shows a text or hides it.
pub fn toggle_visible_text(text_layers: &mut Vec<PsTextLayer>, index: usize)
    ensures
        text_views(final(text_layers)@) == if index < old(text_layers)@.len() {
            text_views(old(text_layers)@).update(
                index as int,
                TextView {
                    visible: !old(text_layers)@[index as int].visible,
                    ..text_views(old(text_layers)@)[index as int]
                },
            )
        } else {
            text_views(old(text_layers)@)
        },
{
    let ghost before = text_layers@;
    if index < text_layers.len() {
        let t = &mut text_layers[index];
        t.visible = !t.visible;
        proof {
            let tv = TextView {
                visible: !before[index as int].visible,
                ..text_views(before)[index as int]
            };
            assert(text_views(text_layers@) =~= text_views(before).update(index as int, tv));
        }
    }
}

/// Sets the opacity of a layer where there is no document.
pub fn set_opacity(stack: &mut Option<LayerStack>, id: LayerId, opacity: u32)
    requires
        opt_stack_wf(*old(stack)),
    ensures
        opt_stack_wf(*final(stack)),
        opt_stack(*final(stack)) == with_layer_changed(
            opt_stack(*old(stack)),
            id,
            |l: LayerView| LayerView { opacity, ..l },
        ),
{
    if let Some(s) = stack {
        let ghost s0 = s@;
        proof {
            lemma_layer_from(s0.layers, id, 0);
        }
        if let Some(i) = s.position(id) {
            let layer = &mut s.layers[i];
            layer.opacity = opacity;
            proof {
                let l1 = LayerView { opacity, ..s0.layers[i as int] };
                lemma_layer_put(s0, i as int, l1);
                assert(s@.layers =~= s0.layers.update(i as int, l1));
            }
        }
    }
}

/// The starts of gestures after the slider for the opacity moved: the first move of a gesture
/// notes the opacity from before.
pub open spec fn opacity_noted(g: GestureView, s: Option<StackView>, id: LayerId) -> GestureView {
    GestureView {
        opacity: if g.opacity is None && s is Some && layer_called((s->0).layers, id) is Some {
            Some(OpacityStart { id, opacity: (layer_called((s->0).layers, id)->0).opacity })
        } else {
            g.opacity
        },
        ..g
    }
}

/// The slider for the opacity of a layer moved.  Where there are a page and a layer of the user,
/// the document is asked for the change; otherwise the layer itself changes.
pub fn opacity_moved(
    stack: &mut Option<LayerStack>,
    gestures: &mut Gestures,
    page: Option<usize>,
    id: LayerId,
    value: u32,
) -> (doc: Option<DocEdit>)
    requires
        opt_stack_wf(*old(stack)),
    ensures
        opt_stack_wf(*final(stack)),
        final(gestures)@ == opacity_noted(old(gestures)@, opt_stack(*old(stack)), id),
        match (page, raster_called(opt_stack(*old(stack)), id)) {
            (Some(_), Some(l)) => opt_stack(*final(stack)) == opt_stack(*old(stack)) && opt_edit(
                doc,
            ) == Some(DocEditView::SetOpacity { uid: uid_text(l.uid), opacity: value }),
            _ => doc is None && opt_stack(*final(stack)) == with_layer_changed(
                opt_stack(*old(stack)),
                id,
                |l: LayerView| LayerView { opacity: value, ..l },
            ),
        },
{
    if gestures.opacity.is_none() {
        if let Some(s) = &*stack {
            if let Some(l) = s.layer(id) {
                gestures.opacity = Some(OpacityStart { id, opacity: l.opacity });
            }
        }
    }
    let uid = raster_uid(stack, id);
    match (page, uid) {
        (Some(_), Some(uid)) => Some(DocEdit::SetOpacity { uid, opacity: value }),
        _ => {
            set_opacity(stack, id, value);
            None
        },
    }
}

/// The slider for the opacity rests: the whole gesture is one step, if the opacity differs from
/// the one before, as `differs` tells of the two.
pub fn opacity_rests(
    stack: &Option<LayerStack>,
    gestures: &mut Gestures,
    page: Option<usize>,
    differs: bool,
) -> (op: Option<PsEditOp>)
    ensures
        final(gestures)@ == (GestureView { opacity: None, ..old(gestures)@ }),
        opt_op(op) == match (old(gestures)@.opacity, page) {
            (Some(start), Some(p)) => match raster_called(opt_stack(*stack), start.id) {
                Some(l) => if differs {
                    Some(
                        OpView::FieldPatch {
                            page_idx: p,
                            layer_uid: uid_text(l.uid),
                            field: PatchView::Opacity { before: start.opacity, after: l.opacity },
                        },
                    )
                } else {
                    None
                },
                None => None,
            },
            _ => None,
        },
{
    let start = gestures.opacity;
    gestures.opacity = None;
    match (start, page) {
        (Some(start), Some(page_idx)) => match find_raster(stack, start.id) {
            Some(l) => {
                if differs {
                    Some(
                        PsEditOp::FieldPatch {
                            page_idx,
                            layer_uid: uid_to_string(l.uid),
                            field: LayerFieldPatch::Opacity {
                                before: start.opacity,
                                after: l.opacity,
                            },
                        },
                    )
                } else {
                    None
                }
            },
            None => None,
        },
        _ => None,
    }
}

/// What the removal of a layer asks for.
pub struct Removal {
    pub doc: Option<DocEdit>,
    pub op: Option<PsEditOp>,
}

/// Removes a layer of the user: its deletion is noted, the document is asked for it where there is
/// a page, and the step keeps the layer as it was.
pub fn remove_raster(
    stack: &mut Option<LayerStack>,
    bands: &Vec<Band>,
    deleted: &mut DeletedRasters,
    page: Option<usize>,
    id: LayerId,
) -> (r: Removal)
    requires
        opt_stack_wf(*old(stack)),
    ensures
        opt_stack_wf(*final(stack)),
        match raster_called(opt_stack(*old(stack)), id) {
            Some(l) => {
                let s = opt_stack(*old(stack))->0;
                &&& final(deleted)@ == old(deleted)@.insert((s.page_idx, uid_text(l.uid)))
                &&& opt_stack(*final(stack)) == Some(
                    if page is Some {
                        s
                    } else {
                        s.without_layer(id)
                    },
                )
                &&& opt_edit(r.doc) == if page is Some {
                    Some(DocEditView::RemoveNode { uid: uid_text(l.uid) })
                } else {
                    None
                }
                &&& opt_op(r.op) == if page is Some {
                    Some(
                        OpView::LayerLifecycle {
                            page_idx: page->0,
                            layer: l,
                            z: first_raster_z(band_views(bands@), uid_text(l.uid), 0),
                            dir: LifecycleDir::Removed,
                        },
                    )
                } else {
                    None
                }
            },
            None => final(deleted)@ == old(deleted)@ && opt_stack(*final(stack)) == opt_stack(
                *old(stack),
            ) && r.doc is None && r.op is None,
        },
{
    let s = match stack {
        None => {
            return Removal { doc: None, op: None };
        },
        Some(s) => s,
    };
    record_raster_deletion(deleted, s, id);
    let ghost s0 = s@;
    proof {
        lemma_layer_from(s0.layers, id, 0);
    }
    let (uid, captured) = match s.layer(id) {
        Some(l) => {
            if l.kind == LayerKind::Raster {
                (uid_to_string(l.uid), l.copied())
            } else {
                return Removal { doc: None, op: None };
            }
        },
        None => {
            return Removal { doc: None, op: None };
        },
    };
    match page {
        Some(page_idx) => {
            let z: u32 = raster_band_z(bands, &uid);
            Removal {
                doc: Some(DocEdit::RemoveNode { uid }),
                op: Some(
                    PsEditOp::LayerLifecycle {
                        page_idx,
                        layer: Box::new(captured),
                        z,
                        dir: LifecycleDir::Removed,
                    },
                ),
            }
        },
        None => {
            s.remove_layer(id);
            Removal { doc: None, op: None }
        },
    }
}

/// A band that was moved: the new order to be stored, and what the document is asked for then.
pub struct BandMove {
    pub order: Vec<BandRef>,
    pub uid: String,
    /// The band moved within its group.
    pub grouped: bool,
}

/// The band of a row: a layer, or a text with a place of its own.
pub open spec fn band_of_row(s: StackView, row: RowView) -> Option<RefView> {
    match row {
        RowView::Raster(id) => match layer_called(s.layers, id) {
            Some(l) => Some(RefView::Raster(uid_text(l.uid))),
            None => None,
        },
        RowView::Text(uid) => Some(RefView::PinnedText(uid)),
        RowView::Group(_) => None,
    }
}

/// The place of a band in an order, searched from `i` on.
pub open spec fn band_place(order: Seq<(RefView, Option<Seq<char>>)>, b: RefView, i: int) -> Option<
    int,
>
    decreases order.len() - i,
{
    if i < 0 || i >= order.len() {
        None
    } else if order[i].0 == b {
        Some(i)
    } else {
        band_place(order, b, i + 1)
    }
}

fn find_band(order: &Vec<(BandRef, Option<String>)>, b: &BandRef) -> (r: Option<usize>)
    ensures
        match r {
            Some(i) => i < order@.len() && band_place(order_views(order@), b@, 0) == Some(
                i as int,
            ),
            None => band_place(order_views(order@), b@, 0) is None,
        },
{
    let mut i: usize = 0;
    while i < order.len()
        invariant
            i <= order@.len(),
            band_place(order_views(order@), b@, 0) == band_place(
                order_views(order@),
                b@,
                i as int,
            ),
        decreases order@.len() - i,
    {
        assert(order_views(order@)[i as int].0 == order@[i as int].0@);
        if order[i].0.same(b) {
            return Some(i);
        }
        i += 1;
    }
    None
}

/// The order of a page from the bottom to the top.
pub open spec fn page_order(s: StackView, ts: Seq<TextView>, bands: Seq<BandView>) -> Seq<
    (RefView, Option<Seq<char>>),
> {
    ordered(
        all_items(s, ts, bands, members_now(s, ts), pinned_texts(ts, ts.len() as int)),
    )
}

fn current_order(stack: &LayerStack, text_layers: &Vec<PsTextLayer>, bands: &Vec<Band>) -> (order:
    Vec<(BandRef, Option<String>)>)
    requires
        bands@.len() <= u32::MAX,
    ensures
        order_views(order@) == page_order(
            stack@,
            text_views(text_layers@),
            band_views(bands@),
        ),
{
    let (group_of, pinned) = current_membership(stack, text_layers);
    build_unified_order(stack, text_layers, bands, &group_of, &pinned)
}

fn bare_refs(order: &Vec<(BandRef, Option<String>)>) -> (refs: Vec<BandRef>)
    ensures
        ref_views(refs@) == refs_only(order_views(order@)),
{
    let ghost target = refs_only(order_views(order@));
    let mut refs: Vec<BandRef> = Vec::new();
    assert(ref_views(refs@) =~= target.take(0));
    let mut i: usize = 0;
    while i < order.len()
        invariant
            i <= order@.len(),
            target == refs_only(order_views(order@)),
            ref_views(refs@) == target.take(i as int),
        decreases order@.len() - i,
    {
        let ghost before = refs@;
        let r = order[i].0.copied();
        let ghost rv = r@;
        refs.push(r);
        assert(order_views(order@)[i as int].0 == rv);
        assert(ref_views(refs@) =~= ref_views(before).push(rv));
        i += 1;
        assert(ref_views(refs@) =~= target.take(i as int));
    }
    assert(target.take(target.len() as int) =~= target);
    refs
}

/// The order after a row moved by one step; there is none where the row has no band or stands at
/// the end.
pub open spec fn row_moved(
    s: StackView,
    ts: Seq<TextView>,
    bands: Seq<BandView>,
    row: RowView,
    up: bool,
) -> Option<Seq<(RefView, Option<Seq<char>>)>> {
    let order = page_order(s, ts, bands);
    match band_of_row(s, row) {
        Some(b) => match band_place(order, b, 0) {
            Some(pos) => moved_band(order, pos, up),
            None => None,
        },
        None => None,
    }
}

/// The node that a band of a layer or of a single text stands for.
pub open spec fn node_of(b: RefView) -> Seq<char> {
    match b {
        RefView::Raster(u) => u,
        RefView::PinnedText(u) => u,
        RefView::TextGroup(_) => Seq::empty(),
    }
}

/// The move of a row by one step, if it can move.
pub open spec fn is_band_move(
    r: Option<BandMove>,
    s: StackView,
    ts: Seq<TextView>,
    bands: Seq<BandView>,
    row: RowView,
    up: bool,
) -> bool {
    let order = page_order(s, ts, bands);
    match row_moved(s, ts, bands, row, up) {
        None => r is None,
        Some(moved) => {
            let b = band_of_row(s, row)->0;
            &&& r is Some
            &&& ref_views((r->0).order@) == refs_only(moved)
            &&& (r->0).uid@ == node_of(b)
            &&& (r->0).grouped == (order[band_place(order, b, 0)->0].1 is Some)
        },
    }
}

/// Moves the band of a row by one step: within its group, or over its neighbour.
pub fn move_band_one(
    stack: &LayerStack,
    text_layers: &Vec<PsTextLayer>,
    bands: &Vec<Band>,
    row: &RowSel,
    up: bool,
) -> (r: Option<BandMove>)
    requires
        bands@.len() <= u32::MAX,
    ensures
        is_band_move(r, stack@, text_views(text_layers@), band_views(bands@), row@, up),
{
    let (target, uid) = match row {
        RowSel::Raster(id) => match stack.layer(*id) {
            Some(l) => (BandRef::Raster(uid_to_string(l.uid)), uid_to_string(l.uid)),
            None => {
                return None;
            },
        },
        RowSel::Text(uid) => (BandRef::PinnedText(uid.clone()), uid.clone()),
        RowSel::Group(_) => {
            return None;
        },
    };
    let order = current_order(stack, text_layers, bands);
    let pos: usize = match find_band(&order, &target) {
        Some(p) => p,
        None => {
            return None;
        },
    };
    let grouped = order[pos].1.is_some();
    assert(order_views(order@)[pos as int].1 == opt_text(order@[pos as int].1));
    match move_band(order, pos, up) {
        Some(moved) => Some(BandMove { order: bare_refs(&moved), uid, grouped }),
        None => None,
    }
}

/// What the document is asked for after a band was moved and the new order stored: within a group
/// one exchange of neighbours, otherwise the whole order.
pub fn band_move_edit(m: &BandMove, up: bool, text_layers: &Vec<PsTextLayer>) -> (e: DocEdit)
    requires
        heights_known(ref_views(m.order@), text_views(text_layers@)),
    ensures
        e@ == if m.grouped {
            DocEditView::ReorderNodeOne { uid: m.uid@, up }
        } else {
            DocEditView::SetZOrder(
                node_uids(ref_views(m.order@), text_views(text_layers@), m.order@.len() as int),
            )
        },
{
    if m.grouped {
        DocEdit::ReorderNodeOne { uid: m.uid.clone(), up }
    } else {
        DocEdit::SetZOrder(expand_order_to_node_uids(&m.order, text_layers))
    }
}

/// The move of the block of a group by one step, if it can move.
pub open spec fn is_block_move(
    r: Option<(Vec<BandRef>, DocEdit)>,
    s: StackView,
    ts: Seq<TextView>,
    bands: Seq<BandView>,
    uid: Seq<char>,
    up: bool,
) -> bool {
    match moved_group(page_order(s, ts, bands), uid, up) {
        None => r is None,
        Some(moved) => {
            &&& r is Some
            &&& ref_views((r->0).0@) == refs_only(moved)
            &&& (r->0).1@ == (DocEditView::ReorderGroupBlock { uid, up })
        },
    }
}

/// Moves the block of a group by one step, and gives the new order to be stored; the document is
/// asked for the same then.
pub fn move_group_block(
    stack: &LayerStack,
    text_layers: &Vec<PsTextLayer>,
    bands: &Vec<Band>,
    uid: &String,
    up: bool,
) -> (r: Option<(Vec<BandRef>, DocEdit)>)
    requires
        bands@.len() <= u32::MAX,
    ensures
        is_block_move(r, stack@, text_views(text_layers@), band_views(bands@), uid@, up),
{
    let order = current_order(stack, text_layers, bands);
    match move_group(&order, uid, up) {
        Some(moved) => Some(
            (bare_refs(&moved), DocEdit::ReorderGroupBlock { uid: uid.clone(), up }),
        ),
        None => None,
    }
}

/// A step towards a new order of a page on the disk.
pub enum OrderStep {
    /// The page is written out, and this is waited for: an order passes over the layers that the
    /// disk does not hold yet.
    FlushPage,
    /// The page is stored, with what was deleted from it.
    StorePage,
    /// The order after the move of a row is stored; the document follows by [`band_move_edit`].
    StoreBandMove(BandMove),
    /// The order after the move of a group is stored; the document follows by the edit.
    StoreBlockMove(Vec<BandRef>, DocEdit),
    /// A change of groups is stored with its order; the document follows by [`persist_grouping`].
    StoreGrouping(GroupingEdit),
}

/// The steps of moving a row: the page is written out before the order is stored.  A row that has
/// no band asks for nothing.
pub fn band_move_steps(
    stack: &LayerStack,
    text_layers: &Vec<PsTextLayer>,
    bands: &Vec<Band>,
    row: &RowSel,
    up: bool,
) -> (steps: Vec<OrderStep>)
    requires
        bands@.len() <= u32::MAX,
    ensures
        band_of_row(stack@, row@) is None ==> steps@.len() == 0,
        band_of_row(stack@, row@) is Some ==> {
            &&& 2 <= steps@.len() <= 3
            &&& steps@[0] is FlushPage
            &&& steps@[1] is StorePage
            &&& is_band_move(
                if steps@.len() == 3 {
                    Some(steps@[2]->StoreBandMove_0)
                } else {
                    None
                },
                stack@,
                text_views(text_layers@),
                band_views(bands@),
                row@,
                up,
            )
            &&& steps@.len() == 3 ==> steps@[2] is StoreBandMove
        },
{
    let mut steps: Vec<OrderStep> = Vec::new();
    let has_band = match row {
        RowSel::Raster(id) => stack.layer(*id).is_some(),
        RowSel::Text(_) => true,
        RowSel::Group(_) => false,
    };
    if !has_band {
        return steps;
    }
    steps.push(OrderStep::FlushPage);
    steps.push(OrderStep::StorePage);
    if let Some(m) = move_band_one(stack, text_layers, bands, row, up) {
        steps.push(OrderStep::StoreBandMove(m));
    }
    steps
}

/// The steps of moving a group: the page is written out before the order is stored.
pub fn group_move_steps(
    stack: &LayerStack,
    text_layers: &Vec<PsTextLayer>,
    bands: &Vec<Band>,
    uid: &String,
    up: bool,
) -> (steps: Vec<OrderStep>)
    requires
        bands@.len() <= u32::MAX,
    ensures
        2 <= steps@.len() <= 3,
        steps@[0] is FlushPage,
        steps@[1] is StorePage,
        steps@.len() == 3 ==> steps@[2] is StoreBlockMove,
        is_block_move(
            if steps@.len() == 3 {
                Some((steps@[2]->StoreBlockMove_0, steps@[2]->StoreBlockMove_1))
            } else {
                None
            },
            stack@,
            text_views(text_layers@),
            band_views(bands@),
            uid@,
            up,
        ),
{
    let mut steps: Vec<OrderStep> = Vec::new();
    steps.push(OrderStep::FlushPage);
    steps.push(OrderStep::StorePage);
    if let Some((order, edit)) = move_group_block(stack, text_layers, bands, uid, up) {
        steps.push(OrderStep::StoreBlockMove(order, edit));
    }
    steps
}

/// The steps of a change of groups: the page is stored before the change is.
pub fn grouping_steps(edit: GroupingEdit) -> (steps: Vec<OrderStep>)
    ensures
        steps@ == seq![OrderStep::StorePage, OrderStep::StoreGrouping(edit)],
{
    let mut steps: Vec<OrderStep> = Vec::new();
    steps.push(OrderStep::StorePage);
    steps.push(OrderStep::StoreGrouping(edit));
    assert(steps@ =~= seq![OrderStep::StorePage, OrderStep::StoreGrouping(edit)]);
    steps
}

/// The order to be stored after a text got a place of its own or lost it; none where there is no
/// such text.
pub fn pin_order(text_layers: &Vec<PsTextLayer>, bands: &Vec<Band>, index: usize) -> (r: Option<
    Vec<BandRef>,
>)
    ensures
        r is Some <==> index < text_layers@.len(),
        r is Some ==> ref_views((r->0)@) == pin_toggled(
            band_views(bands@),
            text_views(text_layers@)[index as int],
        ),
{
    if index < text_layers.len() {
        assert(text_views(text_layers@)[index as int] == text_layers@[index as int]@);
        Some(toggle_pin(bands, &text_layers[index]))
    } else {
        None
    }
}

/// What the document is asked for after an order was stored.
pub fn order_edit(order: &Vec<BandRef>, text_layers: &Vec<PsTextLayer>) -> (e: DocEdit)
    requires
        heights_known(ref_views(order@), text_views(text_layers@)),
    ensures
        e@ == DocEditView::SetZOrder(
            node_uids(ref_views(order@), text_views(text_layers@), order@.len() as int),
        ),
{
    DocEdit::SetZOrder(expand_order_to_node_uids(order, text_layers))
}

/// What the document is asked for after a change of groups was stored: groups go, groups come,
/// members change, and the order follows, if there is one.
pub open spec fn grouping_edits(e: EditView, ts: Seq<TextView>) -> Seq<DocEditView> {
    let order = node_uids(e.order, ts, e.order.len() as int);
    e.remove_groups.map_values(|u: Seq<char>| DocEditView::RemoveGroup { uid: u })
        + e.new_groups.map_values(|g: MetaView| DocEditView::AddGroup(g))
        + e.set_membership.map_values(
        |m: MemberView| DocEditView::SetGroup { uid: m.uid, group: m.group },
    ) + if order.len() > 0 {
        seq![DocEditView::SetZOrder(order)]
    } else {
        Seq::empty()
    }
}

fn removed_groups(uids: &Vec<String>) -> (out: Vec<DocEdit>)
    ensures
        edit_views(out@) == texts(uids@).map_values(
            |u: Seq<char>| DocEditView::RemoveGroup { uid: u },
        ),
{
    let ghost target = texts(uids@).map_values(
        |u: Seq<char>| DocEditView::RemoveGroup { uid: u },
    );
    let mut out: Vec<DocEdit> = Vec::new();
    assert(edit_views(out@) =~= target.take(0));
    let mut i: usize = 0;
    while i < uids.len()
        invariant
            i <= uids@.len(),
            target == texts(uids@).map_values(
                |u: Seq<char>| DocEditView::RemoveGroup { uid: u },
            ),
            edit_views(out@) == target.take(i as int),
        decreases uids@.len() - i,
    {
        let ghost before = out@;
        let e = DocEdit::RemoveGroup { uid: uids[i].clone() };
        let ghost ev = e@;
        out.push(e);
        assert(texts(uids@)[i as int] == uids@[i as int]@);
        assert(edit_views(out@) =~= edit_views(before).push(ev));
        i += 1;
        assert(edit_views(out@) =~= target.take(i as int));
    }
    assert(target.take(target.len() as int) =~= target);
    out
}

fn append_new_groups(out: &mut Vec<DocEdit>, groups: &Vec<GroupMeta>)
    ensures
        edit_views(final(out)@) == edit_views(old(out)@) + meta_views(groups@).map_values(
            |g: MetaView| DocEditView::AddGroup(g),
        ),
{
    let ghost start = edit_views(out@);
    let ghost target = meta_views(groups@).map_values(|g: MetaView| DocEditView::AddGroup(g));
    assert(edit_views(out@) =~= start + target.take(0));
    let mut i: usize = 0;
    while i < groups.len()
        invariant
            i <= groups@.len(),
            target == meta_views(groups@).map_values(|g: MetaView| DocEditView::AddGroup(g)),
            edit_views(out@) == start + target.take(i as int),
        decreases groups@.len() - i,
    {
        let ghost before = out@;
        let g = &groups[i];
        let e = DocEdit::AddGroup(
            GroupMeta {
                uid: g.uid.clone(),
                name: g.name.clone(),
                visible: g.visible,
                opacity: g.opacity,
                collapsed: g.collapsed,
            },
        );
        let ghost ev = e@;
        out.push(e);
        assert(meta_views(groups@)[i as int] == groups@[i as int]@);
        assert(edit_views(out@) =~= edit_views(before).push(ev));
        i += 1;
        assert(edit_views(out@) =~= start + target.take(i as int));
    }
    assert(target.take(target.len() as int) =~= target);
}

fn append_membership(out: &mut Vec<DocEdit>, edit: &GroupingEdit)
    ensures
        edit_views(final(out)@) == edit_views(old(out)@) + edit@.set_membership.map_values(
            |m: MemberView| DocEditView::SetGroup { uid: m.uid, group: m.group },
        ),
{
    let ghost start = edit_views(out@);
    let ghost target = edit@.set_membership.map_values(
        |m: MemberView| DocEditView::SetGroup { uid: m.uid, group: m.group },
    );
    assert(edit_views(out@) =~= start + target.take(0));
    let mut i: usize = 0;
    while i < edit.set_membership.len()
        invariant
            i <= edit.set_membership@.len(),
            target == edit@.set_membership.map_values(
                |m: MemberView| DocEditView::SetGroup { uid: m.uid, group: m.group },
            ),
            edit_views(out@) == start + target.take(i as int),
        decreases edit.set_membership@.len() - i,
    {
        let ghost before = out@;
        let m = &edit.set_membership[i];
        let e = DocEdit::SetGroup { uid: m.uid.clone(), group: copy_opt_text(&m.group) };
        let ghost ev = e@;
        out.push(e);
        assert(member_views(edit.set_membership@)[i as int] == m@);
        assert(edit_views(out@) =~= edit_views(before).push(ev));
        i += 1;
        assert(edit_views(out@) =~= start + target.take(i as int));
    }
    assert(target.take(target.len() as int) =~= target);
}

/// What the document is asked for after a change of groups was stored.
pub fn persist_grouping(edit: &GroupingEdit, text_layers: &Vec<PsTextLayer>) -> (edits: Vec<DocEdit>)
    requires
        heights_known(ref_views(edit.order@), text_views(text_layers@)),
    ensures
        edit_views(edits@) == grouping_edits(edit@, text_views(text_layers@)),
{
    let mut edits = removed_groups(&edit.remove_groups);
    append_new_groups(&mut edits, &edit.new_groups);
    append_membership(&mut edits, edit);
    let uids = expand_order_to_node_uids(&edit.order, text_layers);
    let ghost before = edits@;
    assert(texts(uids@).len() == uids@.len());
    if uids.len() > 0 {
        let e = DocEdit::SetZOrder(uids);
        let ghost ev = e@;
        edits.push(e);
        assert(edit_views(edits@) =~= edit_views(before) + seq![ev]);
    } else {
        assert(edit_views(edits@) =~= edit_views(before) + Seq::<DocEditView>::empty());
    }
    assert(edit_views(edits@) =~= grouping_edits(edit@, text_views(text_layers@)));
    edits
}

/// Where nothing was asked for and no gesture is open, nothing is done.
pub proof fn nothing_asked_nothing_done(a: PanelActions)
    requires
        !a.add_layer && !a.new_empty_group && !a.request_select_active,
        a.set_active_raster is None && a.toggle_visible_raster is None,
        a.toggle_visible_text is None && a.opacity_raster is None && a.remove_raster is None,
        a.merge_req is None && a.bake_req is None && a.open_effects is None,
        a.text_op is None && a.move_band is None && a.group_op is None,
    ensures
        steps_of(a, false) == Seq::<PanelStep>::empty(),
{
    assert(steps_of(a, false) =~= Seq::<PanelStep>::empty());
}

/// However often the slider for the opacity moves, the gesture starts from the opacity before the
/// first move.
pub proof fn a_gesture_keeps_its_start(
    g: GestureView,
    s: Option<StackView>,
    t: Option<StackView>,
    id: LayerId,
    other: LayerId,
)
    requires
        opacity_noted(g, s, id).opacity is Some,
    ensures
        opacity_noted(opacity_noted(g, s, id), t, other) == opacity_noted(g, s, id),
{
}

/// Undoing the removal of a layer asks for the same layer at the place that it had.
pub proof fn removals_are_undone_in_place(page_idx: usize, layer: LayerView, z: u32)
    ensures
        ({
            let op = OpView::LayerLifecycle { page_idx, layer, z, dir: LifecycleDir::Removed };
            op.inverse() == (OpView::LayerLifecycle {
                page_idx,
                layer,
                z,
                dir: LifecycleDir::Added,
            }) && op.inverse().inverse() == op
        }),
{
}

} // verus!
