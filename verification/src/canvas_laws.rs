//! What the canvas makes of the pointer, and in what order a page is drawn.

use vstd::prelude::*;
#[allow(unused_imports)]
use crate::bands::{pinned_z, raster_z, text_group_z, BandView};
#[allow(unused_imports)]
use crate::canvas::{
    active_raster, drag_mode, frame_plan, grown, is_stroke_of, marked, missing_entries, no_gesture,
    pressed_with, release_edit, release_op, released_with, stroke_released, topmost, CacheEntry,
    CanvasInput, GestureView, TextDragMode, WheelTarget,
};
#[allow(unused_imports)]
use crate::draw_plan::{
    all_steps, base_steps, folded_opacity, last_group, raster_steps, sorted_steps, step_keys,
    text_steps, text_z, DrawStep,
};
#[allow(unused_imports)]
use crate::edit_op::{region_bytes, OpView, PatchView};
#[allow(unused_imports)]
use crate::ident::uid_text;
#[allow(unused_imports)]
use crate::layers::{same_deform, same_placement, shown, GroupView, LayerKind, LayerView, StackView};
#[allow(unused_imports)]
use crate::order::{sorted_places, sorting_is_stable, SortKey};
#[allow(unused_imports)]
use crate::ps_tools::PsToolId;
#[allow(unused_imports)]
use crate::raster_edits::{DirtyRect, DocEditView, StrokeRegion};
#[allow(unused_imports)]
use crate::text_layers::TextView;

verus! {

/// The canvas pans with the middle button, or with the other under the space bar.  The wheel zooms
/// over the canvas, or changes the brush with the shift key, where it turned at all.  The size keys
/// count for the brush, and a text may be dragged with the tool that moves, unless the canvas pans.
pub proof fn the_canvas_knows_what_is_meant(i: CanvasInput, tool: PsToolId)
    ensures
        ({
            let f = frame_plan(i, tool);
            let m = i.scroll % 0x8000_0000;
            let turned = i.hovered && 0x3400_0000 < m <= 0x7F80_0000;
            let brush = tool == PsToolId::Brush;
            &&& f.pan <==> i.middle_down || (i.space_down && i.primary_down)
            &&& f.pointer_in_viewport <==> i.hovered && i.has_pointer && i.pointer_inside
            &&& f.wheel == WheelTarget::Nothing <==> !turned
            &&& f.wheel == WheelTarget::Brush <==> turned && i.shift && brush
            &&& f.wheel == WheelTarget::Zoom <==> turned && !(i.shift && brush)
            &&& f.size_keys <==> brush
            &&& f.text_drag <==> tool == PsToolId::Transform && !f.pan
        }),
{
}

/// The layer that a tool works on is the active one, where it is a layer of the user.
pub proof fn tools_work_on_the_active_layer(s: StackView, i: int)
    requires
        s.valid(),
        0 <= i < s.layers.len(),
        s.layers[i].id == s.active,
    ensures
        active_raster(None) is None,
        s.layers[i].kind == LayerKind::Raster ==> active_raster(Some(s)) == Some(s.layers[i]),
        s.layers[i].kind != LayerKind::Raster ==> active_raster(Some(s)) is None,
{
    assert forall|j: int| 0 <= j < i implies (#[trigger] s.layers[j]).id != s.active by {}
    crate::stack_laws::layers_are_found_by_number(s.layers, s.active, i);
}

/// Pressing notes what the tool is about to change: the placement, or the mesh, of the active layer.
/// Letting go forgets it again.
pub proof fn presses_note_what_may_change(g: GestureView, l: LayerView, tool: PsToolId)
    ensures
        ({
            let p = pressed_with(g, Some(l), tool);
            let none = pressed_with(g, None, tool);
            &&& tool == PsToolId::Transform ==> p.transform == Some((uid_text(l.uid), l.transform))
            &&& tool == PsToolId::Transform ==> none.transform is None
            &&& tool != PsToolId::Transform ==> p.transform == g.transform && none.transform
                == g.transform
            &&& tool == PsToolId::Deform ==> p.deform == Some((uid_text(l.uid), l.deform))
            &&& tool == PsToolId::Deform ==> none.deform is None
            &&& tool != PsToolId::Deform ==> p.deform == g.deform && none.deform == g.deform
            &&& p.stroke == g.stroke && p.opacity == g.opacity
            &&& none.stroke == g.stroke && none.opacity == g.opacity
        }),
        ({
            let r = released_with(g, Some(l), tool);
            let none = released_with(g, None, tool);
            &&& tool == PsToolId::Transform ==> r.transform is None
            &&& tool != PsToolId::Transform ==> r.transform == g.transform
            &&& tool == PsToolId::Deform ==> r.deform is None
            &&& tool != PsToolId::Deform ==> r.deform == g.deform
            &&& tool == PsToolId::Brush ==> r.stroke is None && none.stroke is None
            &&& tool != PsToolId::Brush ==> r.stroke == g.stroke && none.stroke == g.stroke
            &&& none.transform == g.transform && none.deform == g.deform
            &&& r.opacity == g.opacity && none.opacity == g.opacity
        }),
        no_gesture().opacity is None,
        no_gesture().transform is None,
        no_gesture().deform is None,
        no_gesture().stroke is None,
{
}

/// A stroke covers what it painted since the press: each part adds its rectangle.
pub proof fn strokes_cover_what_they_painted(
    stroke: Option<DirtyRect>,
    dirty: Option<DirtyRect>,
    u: DirtyRect,
    d: DirtyRect,
)
    ensures
        grown(stroke, true, dirty) == dirty,
        grown(None, false, dirty) == dirty,
        grown(stroke, false, None) == stroke,
        ({
            let j = grown(Some(u), false, Some(d))->0;
            &&& grown(Some(u), false, Some(d)) is Some
            &&& j.min_x <= u.min_x && j.min_x <= d.min_x && (j.min_x == u.min_x || j.min_x
                == d.min_x)
            &&& j.min_y <= u.min_y && j.min_y <= d.min_y && (j.min_y == u.min_y || j.min_y
                == d.min_y)
            &&& j.max_x >= u.max_x && j.max_x >= d.max_x && (j.max_x == u.max_x || j.max_x
                == d.max_x)
            &&& j.max_y >= u.max_y && j.max_y >= d.max_y && (j.max_y == u.max_y || j.max_y
                == d.max_y)
        }),
{
}

/// Letting go sends what the tool changed of the active layer: its placement, its mesh, or its
/// pixels where they were painted and nothing is worked out of them.
pub proof fn letting_go_sends_the_change(l: LayerView, tool: PsToolId)
    ensures
        release_edit(None, tool) is None,
        tool == PsToolId::Transform ==> {
            let e = release_edit(Some(l), tool);
            &&& e is Some && e->0 is SetTransform
            &&& e->0->SetTransform_uid == uid_text(l.uid)
            &&& e->0->SetTransform_transform.cx == l.transform.cx
            &&& e->0->SetTransform_transform.cy == l.transform.cy
            &&& e->0->SetTransform_transform.rotation == l.transform.rotation
            &&& e->0->SetTransform_transform.scale == l.transform.scale
        },
        tool == PsToolId::Deform ==> release_edit(Some(l), tool) == Some(
            DocEditView::SetDeform { uid: uid_text(l.uid), deform: l.deform },
        ),
        tool == PsToolId::Brush && l.pixels_dirty && l.effects.len() == 0 ==> release_edit(
            Some(l),
            tool,
        ) == Some(
            DocEditView::SetPixels { uid: uid_text(l.uid), base: l.image, display: l.image },
        ),
        tool == PsToolId::Brush && (!l.pixels_dirty || l.effects.len() > 0) ==> release_edit(
            Some(l),
            tool,
        ) is None,
        tool == PsToolId::SelectRect || tool == PsToolId::SelectLasso ==> release_edit(
            Some(l),
            tool,
        ) is None,
{
}

/// Letting go records a step back from what is now to what was noted at the press, where it was the
/// same layer and something changed.
pub proof fn letting_go_records_the_change(
    g: GestureView,
    l: LayerView,
    page_idx: usize,
    tool: PsToolId,
)
    ensures
        release_op(g, None, page_idx, tool) is None,
        ({
            let uid = uid_text(l.uid);
            let op = release_op(g, Some(l), page_idx, tool);
            let moved = tool == PsToolId::Transform && g.transform is Some && (g.transform->0).0
                == uid && !same_placement((g.transform->0).1, l.transform);
            let bent = tool == PsToolId::Deform && g.deform is Some && (g.deform->0).0 == uid
                && !same_deform((g.deform->0).1, l.deform);
            &&& op is Some <==> moved || bent
            &&& moved ==> op == Some(
                OpView::FieldPatch {
                    page_idx,
                    layer_uid: uid,
                    field: PatchView::Transform { before: (g.transform->0).1, after: l.transform },
                },
            )
            &&& bent ==> op == Some(
                OpView::FieldPatch {
                    page_idx,
                    layer_uid: uid,
                    field: PatchView::Deform { before: (g.deform->0).1, after: l.deform },
                },
            )
        }),
{
}

/// A stroke is recorded with the layer, its size, the rectangle it painted as far as it lies on the
/// layer, and the pixels there before and after.
pub proof fn strokes_record_before_and_after(o: StrokeRegion, l: LayerView, d: DirtyRect)
    requires
        is_stroke_of(o, l, d),
        0 < l.image.w <= usize::MAX,
        0 < l.image.h <= usize::MAX,
    ensures
        o.layer_uid@ == uid_text(l.uid),
        o.image_size.0 == l.image.w,
        o.image_size.1 == l.image.h,
        o.origin.0 == if d.min_x < l.image.w {
            d.min_x as int
        } else {
            l.image.w - 1
        },
        o.origin.1 == if d.min_y < l.image.h {
            d.min_y as int
        } else {
            l.image.h - 1
        },
        o.origin.0 + o.region.0 == if d.max_x < l.image.w {
            d.max_x + 1
        } else {
            l.image.w
        },
        o.origin.1 + o.region.1 == if d.max_y < l.image.h {
            d.max_y + 1
        } else {
            l.image.h
        },
        o.before@ == region_bytes(
            l.base_image,
            o.origin.0 as int,
            o.origin.1 as int,
            o.region.0 as int,
            o.region.1 as int,
        ),
        o.after@ == region_bytes(
            l.image,
            o.origin.0 as int,
            o.origin.1 as int,
            o.region.0 as int,
            o.region.1 as int,
        ),
{
}

/// Painting marks the active layer as changed, and nothing else.
pub proof fn painting_marks_the_active_layer(s: StackView, d: DirtyRect, i: int)
    requires
        s.valid(),
        0 <= i < s.layers.len(),
    ensures
        marked(None, Some(d)) is None,
        marked(Some(s), None) == Some(s),
        ({
            let m = marked(Some(s), Some(d))->0;
            &&& marked(Some(s), Some(d)) is Some
            &&& m.layers.len() == s.layers.len()
            &&& s.layers[i].id == s.active ==> m.layers[i] == (LayerView {
                pixels_dirty: true,
                ..s.layers[i]
            })
            &&& s.layers[i].id != s.active ==> m.layers[i] == s.layers[i]
            &&& m.groups == s.groups && m.active == s.active
        }),
{
    crate::layers::lemma_layer_from(s.layers, s.active, 0);
}

/// A stroke is recorded when the brush is let go on a layer on which it painted something that can
/// be recorded.
pub proof fn strokes_are_recorded_for_the_brush(
    r: Option<StrokeRegion>,
    layer: Option<LayerView>,
    stroke: Option<DirtyRect>,
    brush: bool,
)
    requires
        stroke_released(r, layer, stroke, brush),
    ensures
        layer is None ==> r is None,
        stroke is None ==> r is None,
        !brush ==> r is None,
        r is Some ==> is_stroke_of(r->0, layer->0, stroke->0),
        brush && layer is Some && stroke is Some && (stroke->0).min_x <= (stroke->0).max_x && (
        stroke->0).min_y <= (stroke->0).max_y && 0 < (layer->0).image.w <= u32::MAX && 0 < (
        layer->0).image.h <= u32::MAX ==> r is Some,
{
}

/// A layer of which no picture of its size is there needs one.
pub proof fn missing_pictures_are_made(layers: Seq<LayerView>, cache: Seq<CacheEntry>, n: int)
    requires
        0 <= n < layers.len(),
    ensures
        ({
            let e = CacheEntry {
                id: layers[n].id,
                w: layers[n].image.w as usize,
                h: layers[n].image.h as usize,
            };
            &&& missing_entries(layers, cache, 0).len() == 0
            &&& cache.contains(e) ==> missing_entries(layers, cache, n + 1) == missing_entries(
                layers,
                cache,
                n,
            )
            &&& !cache.contains(e) ==> missing_entries(layers, cache, n + 1) == missing_entries(
                layers,
                cache,
                n,
            ).push(e)
        }),
{
}

/// The text that is meant is the last that is shown, has no mesh and lies under the pointer.
pub proof fn the_topmost_text_is_meant(ts: Seq<TextView>, under: Seq<bool>, n: int)
    requires
        0 <= n <= ts.len(),
        n <= under.len(),
    ensures
        match topmost(ts, under, n) {
            Some(k) => {
                &&& 0 <= k < n
                &&& ts[k].visible && ts[k].deform is None && under[k]
                &&& forall|j: int|
                    k < j < n ==> !((#[trigger] ts[j]).visible && ts[j].deform is None && under[j])
            },
            None => forall|j: int|
                0 <= j < n ==> !((#[trigger] ts[j]).visible && ts[j].deform is None && under[j]),
        },
    decreases n,
{
    if n > 0 {
        the_topmost_text_is_meant(ts, under, n - 1);
    }
}

/// A text is turned with the shift key, scaled with the command key, and else moved.
pub proof fn keys_choose_the_drag(i: CanvasInput)
    ensures
        i.shift ==> drag_mode(i) == TextDragMode::Rotate,
        !i.shift && i.command ==> drag_mode(i) == TextDragMode::Scale,
        !i.shift && !i.command ==> drag_mode(i) == TextDragMode::Translate,
{
}

/// The scanned page and the clean layer are drawn first, the layers of the user by the height of
/// their bands; each where it is shown and not quite clear, with its opacity.
pub proof fn layers_are_drawn_where_they_show(
    s: StackView,
    bands: Seq<BandView>,
    opacities: Seq<u32>,
    n: int,
)
    requires
        0 <= n < s.layers.len(),
        n < opacities.len(),
        bands.len() <= u32::MAX,
    ensures
        ({
            let l = s.layers[n];
            let o = opacities[n];
            let drawn = shown(s, l) && (0 < o < 0x8000_0000 || o > 0xFF80_0000);
            let own = l.kind == LayerKind::Raster;
            let step = DrawStep::Raster { id: l.id, opacity: o };
            let z = match raster_z(bands, uid_text(l.uid), bands.len() as int) {
                Some(z) => z as int,
                None => bands.len() as int,
            };
            &&& base_steps(s, opacities, 0).len() == 0
            &&& base_steps(s, opacities, n + 1) == if drawn && !own {
                base_steps(s, opacities, n).push(step)
            } else {
                base_steps(s, opacities, n)
            }
            &&& raster_steps(s, bands, opacities, 0).len() == 0
            &&& !(drawn && own) ==> raster_steps(s, bands, opacities, n + 1) == raster_steps(
                s,
                bands,
                opacities,
                n,
            )
            &&& drawn && own ==> raster_steps(s, bands, opacities, n + 1) == raster_steps(
                s,
                bands,
                opacities,
                n,
            ).push((SortKey { a: z as i64, b: 0, place: 0, c: 0, d: 0 }, step))
        }),
{
}

/// A text is drawn where it is shown and so is its group, with the opacity of the group, at the
/// height of its own band if it is pinned and else of its text layer's; of two at one height the
/// upper on the page comes first.
pub proof fn texts_are_drawn_where_they_show(
    ts: Seq<TextView>,
    groups: Seq<GroupView>,
    bands: Seq<BandView>,
    n: int,
)
    requires
        0 <= n < ts.len(),
        bands.len() <= u32::MAX,
    ensures
        ({
            let t = ts[n];
            let o = folded_opacity(groups, t);
            let found = if t.pinned {
                pinned_z(bands, t.uid, bands.len() as int)
            } else {
                text_group_z(bands, t.layer_idx, bands.len() as int)
            };
            let z = match found {
                Some(z) => z as int,
                None => bands.len() as int,
            };
            &&& text_z(bands, t) == z
            &&& text_steps(ts, groups, bands, 0).len() == 0
            &&& !t.visible || o is None ==> text_steps(ts, groups, bands, n + 1) == text_steps(
                ts,
                groups,
                bands,
                n,
            )
            &&& t.visible && o is Some ==> text_steps(ts, groups, bands, n + 1) == text_steps(
                ts,
                groups,
                bands,
                n,
            ).push(
                (
                    SortKey {
                        a: z as i64,
                        b: crate::float_bits::total_rank(t.transform.cy) as i64,
                        place: 0,
                        c: 0,
                        d: 0,
                    },
                    DrawStep::Text { index: n as usize, opacity: o->0 },
                ),
            )
        }),
{
}

/// A text without a group, or whose group is not there, is drawn in full; one in a group with the
/// opacity of the group, and not at all where the group is switched off or quite clear.
pub proof fn groups_fade_their_texts(groups: Seq<GroupView>, t: TextView, k: int)
    requires
        0 <= k < groups.len(),
        forall|j: int|
            k < j < groups.len() ==> uid_text((#[trigger] groups[j]).uid) != uid_text(groups[k].uid),
    ensures
        t.group_uid is None ==> folded_opacity(groups, t) == Some(0x3F80_0000u32),
        t.group_uid is Some && (forall|j: int|
            0 <= j < groups.len() ==> uid_text((#[trigger] groups[j]).uid) != t.group_uid->0)
            ==> folded_opacity(groups, t) == Some(0x3F80_0000u32),
        t.group_uid == Some(uid_text(groups[k].uid)) ==> {
            let g = groups[k];
            let faint = g.opacity == 0 || 0x8000_0000 <= g.opacity <= 0xFF80_0000;
            &&& !g.visible || faint ==> folded_opacity(groups, t) is None
            &&& g.visible && !faint ==> folded_opacity(groups, t) == Some(g.opacity)
        },
{
    lemma_last_group(groups, uid_text(groups[k].uid), groups.len() as int);
    if t.group_uid is Some {
        lemma_last_group(groups, t.group_uid->0, groups.len() as int);
    }
}

proof fn lemma_last_group(groups: Seq<GroupView>, uid: Seq<char>, n: int)
    requires
        0 <= n <= groups.len(),
    ensures
        match last_group(groups, uid, n) {
            Some(g) => exists|k: int|
                0 <= k < n && #[trigger] groups[k] == g && uid_text(g.uid) == uid && forall|j: int|
                    k < j < n ==> uid_text((#[trigger] groups[j]).uid) != uid,
            None => forall|j: int| 0 <= j < n ==> uid_text((#[trigger] groups[j]).uid) != uid,
        },
    decreases n,
{
    if n > 0 {
        lemma_last_group(groups, uid, n - 1);
        if uid_text(groups[n - 1].uid) == uid {
            assert(groups[n - 1] == last_group(groups, uid, n)->0);
        } else if last_group(groups, uid, n) is Some {
            let g = last_group(groups, uid, n)->0;
            let k = choose|k: int|
                0 <= k < n - 1 && #[trigger] groups[k] == g && uid_text(g.uid) == uid && forall|
                    j: int,
                |
                    k < j < n - 1 ==> uid_text((#[trigger] groups[j]).uid) != uid;
            assert(groups[k] == g);
        }
    }
}

/// What is drawn above the base is every layer of the user and every text that shows, from the
/// lowest to the highest; of two at one height and place the one that comes first is drawn first.
pub proof fn everything_is_drawn_from_the_bottom(
    s: StackView,
    ts: Seq<TextView>,
    bands: Seq<BandView>,
    opacities: Seq<u32>,
    i: int,
    j: int,
)
    requires
        all_steps(s, ts, bands, opacities).len() <= usize::MAX,
        0 <= i < j < all_steps(s, ts, bands, opacities).len(),
    ensures
        ({
            let steps = all_steps(s, ts, bands, opacities);
            let p = sorted_places(step_keys(steps), steps.len() as int);
            let a = steps[p[i] as int];
            let b = steps[p[j] as int];
            &&& steps == raster_steps(s, bands, opacities, s.layers.len() as int) + text_steps(
                ts,
                s.groups,
                bands,
                ts.len() as int,
            )
            &&& sorted_steps(steps).len() == steps.len()
            &&& sorted_steps(steps)[i] == a.1
            &&& sorted_steps(steps)[j] == b.1
            &&& p[i] != p[j]
            &&& a.0.a < b.0.a || (a.0.a == b.0.a && (a.0.b < b.0.b || (a.0.b == b.0.b && (
            a.0.place != b.0.place || a.0.c != b.0.c || a.0.d != b.0.d || p[i] < p[j]))))
        }),
{
    let steps = all_steps(s, ts, bands, opacities);
    let keys = step_keys(steps);
    sorting_is_stable(keys, steps.len() as int);
    let p = sorted_places(keys, steps.len() as int);
    assert(crate::order::comes_first(keys, p[i] as int, p[j] as int));
    assert(0 <= p[i] < steps.len() && 0 <= p[j] < steps.len());
    assert(keys[p[i] as int] == steps[p[i] as int].0);
    assert(keys[p[j] as int] == steps[p[j] as int].0);
}

/// In one frame eight tiles are sent to the graphics card, and a picture is first shown in its own
/// size.
pub proof fn frames_send_eight_tiles()
    ensures
        crate::canvas::TILE_UPLOAD_BUDGET_PER_FRAME == 8,
        crate::region_edit::ZOOM_ONE == 0x3F80_0000,
{
}

} // verus!
