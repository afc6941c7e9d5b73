//! What edits and their way back are for, and what effects and clips make of a layer.

use vstd::prelude::*;
#[allow(unused_imports)]
use crate::blank::blank;
#[allow(unused_imports)]
use crate::color::Color;
#[allow(unused_imports)]
use crate::composite::{
    any_selected, clip_picture, clip_placement, cut_layers, touches, ClipMode, LayerMaps,
    LocalPixel, Selection, SelectionBounds,
};
#[allow(unused_imports)]
use crate::edit_op::{
    mirrored, region_bytes, ApplyDirection, ChangedRect, LifecycleDir, OpView, PatchView,
};
#[allow(unused_imports)]
use crate::effects::{effects_of, effects_source, node_with_effects, takes_effects};
#[allow(unused_imports)]
use crate::json::{parsed_json, Json};
#[allow(unused_imports)]
use crate::layer_doc::NodeView;
#[allow(unused_imports)]
use crate::layers::{
    raster_from, LayerId, LayerKind, LayerTransform, LayerView, StackView, TransformRec,
};
#[allow(unused_imports)]
use crate::raster::{grid_of, lemma_grid_of, lemma_offset, Grid};
#[allow(unused_imports)]
use crate::raster_edits::{
    deleted_set, field_edit, painted_layer, recordable, repainted, resident, stroke_rect, tile_rect,
    DeletedRaster, DirtyRect, DocEditView,
};
#[allow(unused_imports)]
use crate::selection_ops::{all_ids, can_clip, clipped_stack, picked_of, text_from, touched_layers};
#[allow(unused_imports)]
use crate::text_layers::TextView;

verus! {

/// A change of one field and its way back: applying sets the field to what it became and touches
/// nothing else, and the way back has the two exchanged.
pub proof fn patches_change_one_field(
    l: LayerView,
    v: (bool, bool),
    o: (u32, u32),
    t: (LayerTransform, LayerTransform),
    d: (Option<crate::layers::DeformView>, Option<crate::layers::DeformView>),
)
    ensures
        ({
            let p = PatchView::Visibility { before: v.0, after: v.1 };
            &&& p.applied(l) == (LayerView { visible: v.1, ..l })
            &&& p.inverse() == (PatchView::Visibility { before: v.1, after: v.0 })
            &&& p.starts_from(l) <==> l.visible == v.0
        }),
        ({
            let p = PatchView::Opacity { before: o.0, after: o.1 };
            &&& p.applied(l) == (LayerView { opacity: o.1, ..l })
            &&& p.inverse() == (PatchView::Opacity { before: o.1, after: o.0 })
            &&& p.starts_from(l) <==> l.opacity == o.0
        }),
        ({
            let p = PatchView::Transform { before: t.0, after: t.1 };
            &&& p.applied(l) == (LayerView { transform: t.1, ..l })
            &&& p.inverse() == (PatchView::Transform { before: t.1, after: t.0 })
            &&& p.starts_from(l) <==> l.transform == t.0
        }),
        ({
            let p = PatchView::Deform { before: d.0, after: d.1 };
            &&& p.applied(l) == (LayerView { deform: d.1, ..l })
            &&& p.inverse() == (PatchView::Deform { before: d.1, after: d.0 })
            &&& p.starts_from(l) <==> l.deform == d.0
        }),
{
}

/// The way back of an edit is on the same page and layer, the other way round.
pub proof fn the_way_back_goes_the_other_way(op: OpView)
    ensures
        match op {
            OpView::RasterPixels { page_idx, layer_uid, delta, dir, label } => {
                &&& op.inverse() is RasterPixels
                &&& op.inverse()->RasterPixels_page_idx == page_idx
                &&& op.inverse()->RasterPixels_layer_uid == layer_uid
                &&& op.inverse()->delta == delta
                &&& op.inverse()->label == label
                &&& op.inverse()->RasterPixels_dir != dir
                &&& op.bytes() == delta.compressed_len
                &&& op.title() == label
            },
            OpView::LayerLifecycle { page_idx, layer, z, dir } => {
                &&& op.inverse() is LayerLifecycle
                &&& op.inverse()->LayerLifecycle_page_idx == page_idx
                &&& op.inverse()->layer == layer
                &&& op.inverse()->z == z
                &&& op.inverse()->LayerLifecycle_dir != dir
                &&& layer.image.px.len() * 4 <= usize::MAX ==> op.bytes() == layer.image.px.len()
                    * 4
                &&& dir is Added ==> op.title() == "Добавление слоя"@
                &&& dir is Removed ==> op.title() == "Удаление слоя"@
            },
            OpView::FieldPatch { page_idx, layer_uid, field } => {
                &&& op.inverse() is FieldPatch
                &&& op.inverse()->FieldPatch_page_idx == page_idx
                &&& op.inverse()->FieldPatch_layer_uid == layer_uid
                &&& op.inverse()->field == field.inverse()
                &&& op.bytes() == 0
                &&& field is Visibility ==> op.title() == "Видимость слоя"@
                &&& field is Opacity ==> op.title() == "Непрозрачность слоя"@
                &&& field is Transform ==> op.title() == "Трансформация слоя"@
                &&& field is Deform ==> op.title() == "Деформация слоя"@
            },
        },
        ApplyDirection::Forward.opposite() == ApplyDirection::Reverse,
        ApplyDirection::Reverse.opposite() == ApplyDirection::Forward,
        LifecycleDir::Added.opposite() == LifecycleDir::Removed,
        LifecycleDir::Removed.opposite() == LifecycleDir::Added,
{
}

/// The base of a layer follows its picture where that changed, and stays elsewhere; one of another
/// size stays.
pub proof fn the_base_follows_the_changes(
    image: Grid<Color>,
    base: Grid<Color>,
    rects: Seq<ChangedRect>,
    x: int,
    y: int,
    k: int,
)
    requires
        base.valid(),
        0 <= x < base.w,
        0 <= y < base.h,
        0 <= k < rects.len(),
    ensures
        ({
            let out = mirrored(image, base, rects);
            let i = y * base.w + x;
            let fits = image.w == base.w && image.h == base.h;
            let r = rects[k];
            &&& !fits ==> out == base
            &&& out.w == base.w && out.h == base.h
            &&& fits && r.x <= x < r.x + r.w && r.y <= y < r.y + r.h ==> out.px[i] == image.px[i]
            &&& fits && (forall|j: int|
                0 <= j < rects.len() ==> {
                    let q = #[trigger] rects[j];
                    !(q.x <= x < q.x + q.w && q.y <= y < q.y + q.h)
                }) ==> out.px[i] == base.px[i]
        }),
{
    if image.w == base.w && image.h == base.h {
        let f = |a: int, b: int|
            if crate::edit_op::changed(rects, a, b) {
                image.at(a, b)
            } else {
                base.at(a, b)
            };
        lemma_grid_of(base.w, base.h, f);
        assert(mirrored(image, base, rects) == grid_of(base.w, base.h, f));
        assert(mirrored(image, base, rects).at(x, y) == f(x, y));
        let r = rects[k];
        if r.x <= x < r.x + r.w && r.y <= y < r.y + r.h {
            assert(rects[k].holds(x, y));
            assert(crate::edit_op::changed(rects, x, y));
        }
        if forall|j: int|
            0 <= j < rects.len() ==> {
                let q = #[trigger] rects[j];
                !(q.x <= x < q.x + q.w && q.y <= y < q.y + q.h)
            } {
            if crate::edit_op::changed(rects, x, y) {
                let j = choose|j: int|
                    0 <= j < rects.len() && (#[trigger] rects[j]).holds(x, y);
                let q = rects[j];
            }
        }
    }
}

/// The bytes of a region are its pixels, row by row, four for each: red, green, blue and alpha; all
/// clear beyond the picture.
pub proof fn regions_are_stored_as_bytes(
    image: Grid<Color>,
    x: int,
    y: int,
    w: int,
    h: int,
    a: int,
    b: int,
)
    requires
        0 <= a < w,
        0 <= b < h,
    ensures
        ({
            let s = region_bytes(image, x, y, w, h);
            let i = (b * w + a) * 4;
            let on = 0 <= x + a < image.w && 0 <= y + b < image.h;
            let p = image.px[(y + b) * image.w + (x + a)];
            &&& s.len() == w * h * 4
            &&& 0 <= i && i + 3 < s.len()
            &&& on ==> s[i] == p.r && s[i + 1] == p.g && s[i + 2] == p.b && s[i + 3] == p.a
            &&& !on ==> s[i] == 0 && s[i + 1] == 0 && s[i + 2] == 0 && s[i + 3] == 0
        }),
{
    lemma_offset(w, h, a, b);
    let q = b * w + a;
    assert(w * h * 4 == 4 * (w * h));
    assert((q * 4) / 4 == q && (q * 4 + 1) / 4 == q && (q * 4 + 2) / 4 == q && (q * 4 + 3) / 4
        == q);
    assert((q * 4) % 4 == 0 && (q * 4 + 1) % 4 == 1 && (q * 4 + 2) % 4 == 2 && (q * 4 + 3) % 4
        == 3);
}

/// A layer is in memory where its page is the one that is shown; it is then the first of the user's
/// with its identifier.
pub proof fn layers_are_in_memory_on_their_page(s: StackView, page_idx: usize, uid: Seq<char>)
    ensures
        resident(None, page_idx, uid) is None,
        s.page_idx != page_idx ==> resident(Some(s), page_idx, uid) is None,
        s.page_idx == page_idx ==> resident(Some(s), page_idx, uid) == raster_from(
            s.layers,
            uid,
            0,
        ),
{
}

/// A rectangle that changed reaches from its first pixel to its last.
pub proof fn changed_rects_reach_their_last_pixel(r: ChangedRect)
    requires
        r.x + r.w <= u32::MAX,
        r.y + r.h <= u32::MAX,
    ensures
        tile_rect(r).min_x == r.x,
        tile_rect(r).min_y == r.y,
        r.w > 0 ==> tile_rect(r).max_x == r.x + r.w - 1,
        r.h > 0 ==> tile_rect(r).max_y == r.y + r.h - 1,
        r.w == 0 ==> tile_rect(r).max_x == r.x,
        r.h == 0 ==> tile_rect(r).max_y == r.y,
{
}

/// A layer that is repainted has the new picture, its base follows where that changed, and it waits
/// to be stored; all else stays.
pub proof fn repainting_changes_the_picture(
    l: LayerView,
    image: Grid<Color>,
    dirty: Seq<ChangedRect>,
)
    ensures
        ({
            let r = repainted(l, image, dirty);
            &&& r.image == image
            &&& r.base_image == mirrored(image, l.base_image, dirty)
            &&& r.pixels_dirty
            &&& r == (LayerView {
                image: r.image,
                base_image: r.base_image,
                pixels_dirty: true,
                ..l
            })
        }),
{
}

/// What was deleted is known by page and identifier.
pub proof fn deletions_are_known(v: Seq<DeletedRaster>, page_idx: usize, uid: Seq<char>)
    ensures
        deleted_set(v).contains((page_idx, uid)) <==> exists|i: int|
            0 <= i < v.len() && (#[trigger] v[i]).page_idx == page_idx && v[i].uid@ == uid,
{
}

/// A change of a field is sent as the edit of that field, with what it became.
pub proof fn patches_are_sent_as_edits(uid: Seq<char>, p: PatchView)
    ensures
        p is Visibility ==> field_edit(uid, p) == (DocEditView::SetVisibility {
            uid,
            visible: p->Visibility_after,
        }),
        p is Opacity ==> field_edit(uid, p) == (DocEditView::SetOpacity {
            uid,
            opacity: p->Opacity_after,
        }),
        p is Deform ==> field_edit(uid, p) == (DocEditView::SetDeform {
            uid,
            deform: p->Deform_after,
        }),
        p is Transform ==> {
            let e = field_edit(uid, p);
            &&& e is SetTransform
            &&& e->SetTransform_uid == uid
            &&& e->SetTransform_transform.cx == p->Transform_after.cx
            &&& e->SetTransform_transform.cy == p->Transform_after.cy
            &&& e->SetTransform_transform.rotation == p->Transform_after.rotation
            &&& e->SetTransform_transform.scale == p->Transform_after.scale
        },
{
}

/// The layer that is painted on is the active one of the page, where it is the user's and has no
/// effects.
pub proof fn the_active_layer_is_painted_on(s: StackView, page_idx: usize, k: int)
    requires
        s.valid(),
        0 <= k < s.layers.len(),
        s.layers[k].id == s.active,
    ensures
        painted_layer(None, page_idx) is None,
        ({
            let l = s.layers[k];
            let ok = s.page_idx == page_idx && l.kind == LayerKind::Raster && l.effects.len() == 0;
            &&& ok ==> painted_layer(Some(s), page_idx) == Some(l)
            &&& !ok ==> painted_layer(Some(s), page_idx) is None
        }),
{
    assert forall|j: int| 0 <= j < k implies (#[trigger] s.layers[j]).id != s.active by {}
    crate::stack_laws::layers_are_found_by_number(s.layers, s.active, k);
}

/// A stroke on a layer that can be counted is recorded where it has an extent, and is moved onto
/// the layer first.
pub proof fn strokes_are_moved_onto_the_layer(d: DirtyRect, l: LayerView)
    requires
        0 < l.image.w <= u32::MAX,
        0 < l.image.h <= u32::MAX,
    ensures
        ({
            let q = stroke_rect(d, l.image.w, l.image.h);
            &&& q.min_x <= l.image.w - 1 && q.max_x <= l.image.w - 1
            &&& q.min_y <= l.image.h - 1 && q.max_y <= l.image.h - 1
            &&& d.min_x < l.image.w ==> q.min_x == d.min_x
            &&& d.max_x < l.image.w ==> q.max_x == d.max_x
            &&& d.min_y < l.image.h ==> q.min_y == d.min_y
            &&& d.max_y < l.image.h ==> q.max_y == d.max_y
            &&& d.min_x >= l.image.w ==> q.min_x == l.image.w - 1
            &&& d.max_x >= l.image.w ==> q.max_x == l.image.w - 1
            &&& d.min_y >= l.image.h ==> q.min_y == l.image.h - 1
            &&& d.max_y >= l.image.h ==> q.max_y == l.image.h - 1
            &&& d.min_x <= d.max_x && d.min_y <= d.max_y ==> recordable(l, q)
            &&& recordable(l, q) ==> q.min_x <= q.max_x && q.min_y <= q.max_y
        }),
{
}

/// Effects are read from a list; a blank text has none, and what is no list cannot be read.
pub proof fn effects_are_read_from_a_list(text: Seq<char>, items: Seq<Json>)
    ensures
        (forall|i: int| 0 <= i < text.len() ==> crate::blank::is_white(#[trigger] text[i]))
            ==> effects_of(text) == Some(Seq::<Json>::empty()),
        !blank(text) && parsed_json(text) == Some(Json::List(items)) ==> effects_of(text) == Some(
            items,
        ),
        !blank(text) && parsed_json(text) is None ==> effects_of(text) is None,
        !blank(text) && parsed_json(text) is Some && !(parsed_json(text)->0 is List) ==> effects_of(
            text,
        ) is None,
{
    crate::blank::blank_means_all_white(text);
}

/// A layer of the user takes effects; they are worked out of what it shows where it has none yet,
/// and of its base where it has.
pub proof fn layers_of_the_user_take_effects(s: StackView, id: LayerId, k: int)
    requires
        s.valid(),
        0 <= k < s.layers.len(),
        s.layers[k].id == id,
    ensures
        takes_effects(None, id) is None,
        s.layers[k].kind == LayerKind::Raster ==> takes_effects(Some(s), id) == Some(s.layers[k]),
        s.layers[k].kind != LayerKind::Raster ==> takes_effects(Some(s), id) is None,
        s.layers[k].effects.len() == 0 ==> effects_source(s.layers[k]) == s.layers[k].image,
        s.layers[k].effects.len() > 0 ==> effects_source(s.layers[k]) == s.layers[k].base_image,
{
    assert forall|j: int| 0 <= j < k implies (#[trigger] s.layers[j]).id != id by {}
    crate::stack_laws::layers_are_found_by_number(s.layers, id, k);
}

/// A node with effects shows what they make of its base: what it showed before the first.  Without
/// effects it shows its base again.  Each time it becomes a new generation, at the place it is given.
pub proof fn effects_show_what_they_make(
    n: NodeView,
    effects: Seq<Json>,
    display: Grid<Color>,
    t: TransformRec,
)
    ensures
        n.body is Text ==> node_with_effects(n, effects, display, t) == n,
        n.body is Raster ==> {
            let out = node_with_effects(n, effects, display, t);
            let had = n.body->Raster_effects.len() > 0;
            &&& out.body is Raster
            &&& out.body->Raster_effects == effects
            &&& out.body->base_file == n.body->base_file
            &&& out.body->mask_clip == n.body->mask_clip
            &&& effects.len() == 0 ==> out.body->display_image == n.body->Raster_base_image
                && out.body->Raster_base_image == n.body->Raster_base_image
            &&& effects.len() > 0 ==> out.body->display_image == display
            &&& effects.len() > 0 && had ==> out.body->Raster_base_image
                == n.body->Raster_base_image
            &&& effects.len() > 0 && !had ==> out.body->Raster_base_image
                == n.body->display_image
            &&& out.transform == t
            &&& n.generation < u64::MAX ==> out.generation == n.generation + 1
            &&& n.generation == u64::MAX ==> out.generation == 0
            &&& out == (NodeView {
                body: out.body,
                transform: t,
                generation: out.generation,
                ..n
            })
        },
{
    if n.body is Raster && effects.len() == 0 {
        assert(effects =~= Seq::<Json>::empty());
    }
}

/// A text is found by its identifier: the first that has it.
pub proof fn the_first_text_is_found(ts: Seq<TextView>, uid: Seq<char>)
    ensures
        match text_from(ts, uid, 0) {
            Some(k) => 0 <= k < ts.len() && ts[k].uid == uid && forall|j: int|
                0 <= j < k ==> (#[trigger] ts[j]).uid != uid,
            None => forall|j: int| 0 <= j < ts.len() ==> (#[trigger] ts[j]).uid != uid,
        },
{
    lemma_text_first(ts, uid, 0);
}

proof fn lemma_text_first(ts: Seq<TextView>, uid: Seq<char>, i: int)
    requires
        0 <= i,
    ensures
        match text_from(ts, uid, i) {
            Some(k) => i <= k < ts.len() && ts[k].uid == uid && forall|j: int|
                i <= j < k ==> (#[trigger] ts[j]).uid != uid,
            None => forall|j: int| i <= j < ts.len() ==> (#[trigger] ts[j]).uid != uid,
        },
    decreases ts.len() - i,
{
    if i < ts.len() {
        lemma_text_first(ts, uid, i + 1);
    }
}

/// The layers that a clip takes are those that show something in the selection, from the bottom up,
/// and of those the ones that were picked.
pub proof fn clips_take_what_shows_in_the_selection(
    layers: Seq<LayerView>,
    places: Seq<Grid<Option<LocalPixel>>>,
    mask: Grid<bool>,
    b: SelectionBounds,
    touched: Seq<LayerId>,
    picked: Seq<LayerId>,
    n: int,
    m: int,
    i: int,
)
    requires
        0 <= n < layers.len(),
        0 <= m <= touched.len(),
        0 <= i < layers.len(),
    ensures
        touched_layers(layers, places, mask, b, 0).len() == 0,
        touches(layers[n].image, places[n], mask, b) ==> touched_layers(
            layers,
            places,
            mask,
            b,
            n + 1,
        ) == touched_layers(layers, places, mask, b, n).push(layers[n].id),
        !touches(layers[n].image, places[n], mask, b) ==> touched_layers(
            layers,
            places,
            mask,
            b,
            n + 1,
        ) == touched_layers(layers, places, mask, b, n),
        picked_of(touched, picked, m) == touched.take(m).filter(
            |id: LayerId| picked.contains(id),
        ),
        all_ids(layers).len() == layers.len(),
        all_ids(layers)[i] == layers[i].id,
    decreases m,
{
    reveal(Seq::filter);
    if m > 0 {
        clips_take_what_shows_in_the_selection(
            layers,
            places,
            mask,
            b,
            touched,
            picked,
            n,
            m - 1,
            i,
        );
        assert(touched.take(m).drop_last() =~= touched.take(m - 1));
        assert(touched.take(m).last() == touched[m - 1]);
    } else {
        assert(touched.take(0) =~= Seq::empty());
    }
}

/// A clip becomes a new layer above the others, with what it shows and where that was; a cut takes
/// it out of the layers it came from, a copy leaves them.
pub proof fn clips_become_new_layers(
    s: StackView,
    mask: Grid<bool>,
    ids: Seq<LayerId>,
    maps: Seq<LayerMaps>,
    uid: u128,
    b: SelectionBounds,
    i: int,
)
    requires
        s.valid(),
        s.next_layer_id < u64::MAX,
        0 <= i < s.layers.len(),
    ensures
        ({
            let copy = clipped_stack(s, mask, ClipMode::Copy, ids, maps, uid, b);
            let cut = clipped_stack(s, mask, ClipMode::Cut, ids, maps, uid, b);
            let top = s.layers.len() as int;
            &&& copy.layers.len() == s.layers.len() + 1
            &&& cut.layers.len() == s.layers.len() + 1
            &&& copy.layers[i] == s.layers[i]
            &&& cut.layers[i] == cut_layers(s.layers, ids, maps, mask, ids.len() as int)[i]
            &&& copy.layers[top].image == clip_picture(s.layers, ids, maps, mask, b)
            &&& cut.layers[top].image == clip_picture(s.layers, ids, maps, mask, b)
            &&& copy.layers[top].transform == clip_placement(b)
            &&& cut.layers[top].transform == clip_placement(b)
            &&& copy.layers[top].name == "Копия"@
            &&& cut.layers[top].name == "Вырезка"@
            &&& copy.layers[top].uid == uid && cut.layers[top].uid == uid
            &&& copy.layers[top].id == s.next_layer_id && cut.layers[top].id == s.next_layer_id
            &&& copy.active == s.next_layer_id && cut.active == s.next_layer_id
            &&& copy.groups == s.groups && cut.groups == s.groups
        }),
{
    crate::page_laws::a_cut_keeps_the_rest(s, ids, maps, mask, ids.len() as int, i);
}

/// A clip can be taken where a page is shown, something of it is selected and a layer is picked.
pub proof fn clips_need_a_selection(
    page: Option<usize>,
    s: Option<StackView>,
    selection: Option<Selection>,
    ids: Seq<LayerId>,
)
    ensures
        page is None ==> !can_clip(page, s, selection, ids),
        s is None ==> !can_clip(page, s, selection, ids),
        selection is None ==> !can_clip(page, s, selection, ids),
        ids.len() == 0 ==> !can_clip(page, s, selection, ids),
        page is Some && s is Some && selection is Some && ids.len() > 0 ==> (can_clip(
            page,
            s,
            selection,
            ids,
        ) <==> exists|x: int, y: int|
            crate::composite::selected((selection->0).mask@, x, y)),
{
    let mask = (selection->0).mask@;
    if any_selected(mask) {
        let (x, y) = choose|x: int, y: int| #[trigger] crate::composite::selected(mask, x, y);
        assert(crate::composite::selected(mask, x, y));
    }
}

} // verus!
