//! Layers on a page: blending, copying, cutting and merging.

use manga_editor::bands::{
    is_mergeable, non_base_rasters_by_band_z, raster_band_z, raster_below_by_band_z,
    raster_below_uid, Band,
};
use manga_editor::color::{Color, ColorImage};
use manga_editor::composite::{
    clip_into_new_layer, composite_to_page, layer_touches_selection, over, sample_layer_world,
    ClipMode, LayerMaps, LocalPixel, Places, Selection, SelectionBounds,
};
use manga_editor::ident::uid_to_string;
use manga_editor::layer_ops::{
    bake_raster, clip_edits, merge_down, merge_layers, page_save, page_saved, plan_merge,
    rasterize_text, MergeRefusal,
};
use manga_editor::layers::{Layer, LayerKind, LayerStack, LayerTransform};
use manga_editor::panel::RowSel;
use manga_editor::raster::Raster;
use manga_editor::raster_edits::{DeletedRasters, DocEdit};
use manga_editor::selection_ops::{
    clip_layers, perform_clip, pick_layer, refresh_clip_touched_layers, select_active_layer_fully,
    ClipChoice, SelectTarget,
};
use manga_editor::text_layers::PsTextLayer;

const CLEAR: Color = Color { r: 0, g: 0, b: 0, a: 0 };
const RED: Color = Color { r: 255, g: 0, b: 0, a: 255 };
const GREEN: Color = Color { r: 0, g: 255, b: 0, a: 255 };
const BLUE: Color = Color { r: 0, g: 0, b: 255, a: 255 };

fn filled(w: usize, h: usize, c: Color) -> ColorImage {
    Raster { w, h, px: vec![c; w * h] }
}

fn stack_of(w: usize, h: usize, source: Color, clean: Color) -> LayerStack {
    LayerStack::new(0, w, h, filled(w, h, source), filled(w, h, clean))
}

fn num(bits: u32) -> f32 {
    f32::from_bits(bits)
}

fn rotate(x: f32, y: f32, angle: f32) -> (f32, f32) {
    let (s, c) = angle.sin_cos();
    (x * c - y * s, x * s + y * c)
}

/// Where the pixels of a page fall in a layer.
fn to_layer(layer: &Layer, w: usize, h: usize) -> Places {
    let t = layer.transform;
    let (hw, hh) = (layer.image.w as f32 * 0.5, layer.image.h as f32 * 0.5);
    let mut px = Vec::new();
    for y in 0..h {
        for x in 0..w {
            let (dx, dy) = (x as f32 + 0.5 - num(t.cx), y as f32 + 0.5 - num(t.cy));
            let (rx, ry) = rotate(dx, dy, -num(t.rotation));
            let lx = (hw + rx / num(t.scale)).floor();
            let ly = (hh + ry / num(t.scale)).floor();
            px.push(if lx < 0.0 || ly < 0.0 {
                None
            } else {
                Some(LocalPixel { x: lx as usize, y: ly as usize })
            });
        }
    }
    Raster { w, h, px }
}

/// Where the pixels of a layer fall on its page.
fn to_page(layer: &Layer) -> Places {
    let t = layer.transform;
    let (w, h) = (layer.image.w, layer.image.h);
    let mut px = Vec::new();
    for y in 0..h {
        for x in 0..w {
            let (dx, dy) = (x as f32 + 0.5 - w as f32 * 0.5, y as f32 + 0.5 - h as f32 * 0.5);
            let (rx, ry) = rotate(dx, dy, num(t.rotation));
            let wx = num(t.cx) + rx * num(t.scale);
            let wy = num(t.cy) + ry * num(t.scale);
            px.push(if wx < 0.0 || wy < 0.0 {
                None
            } else {
                Some(LocalPixel { x: wx as usize, y: wy as usize })
            });
        }
    }
    Raster { w, h, px }
}

fn maps_of(stack: &LayerStack, ids: &[u64]) -> Vec<LayerMaps> {
    ids.iter()
        .map(|id| {
            let l = stack.layer(*id).expect("layer");
            LayerMaps { to_layer: to_layer(l, stack.w, stack.h), to_page: Some(to_page(l)) }
        })
        .collect()
}

/// The inner pixels (1,1)..=(2,2) of a 4x4 page.
fn inner_selection() -> Selection {
    let mut sel = Selection::empty(4, 4);
    sel.set_rect(1, 1, 3, 3);
    sel
}

#[test]
fn over_composites_premultiplied() {
    assert_eq!(over(RED, CLEAR), RED);
    assert_eq!(over(CLEAR, GREEN), GREEN);
    assert_eq!(over(BLUE, RED), BLUE);
}

#[test]
fn over_blends_half_transparent_colours() {
    let half = Color { r: 100, g: 0, b: 0, a: 128 };
    assert_eq!(over(half, BLUE), Color { r: 100, g: 0, b: 127, a: 255 });
}

#[test]
fn composite_to_page_blends_bottom_then_top() {
    let mut stack = stack_of(2, 2, CLEAR, CLEAR);
    let bottom = stack.add_raster_layer(1);
    stack.layer_mut(bottom).unwrap().image = filled(2, 2, BLUE);
    let top = stack.add_raster_layer(2);
    {
        let img = &mut stack.layer_mut(top).unwrap().image;
        *img = filled(2, 2, CLEAR);
        img.px[0] = RED;
    }
    let (b, t) = (stack.layer(bottom).unwrap(), stack.layer(top).unwrap());
    let places = vec![to_layer(b, 2, 2), to_layer(t, 2, 2)];
    let out = composite_to_page(&vec![b, t], &places, 2, 2);
    assert_eq!(out.px[0], RED, "top opaque pixel wins over bottom");
    assert_eq!(out.px[1], BLUE, "bottom shows where top is transparent");
}

#[test]
fn copy_builds_layer_from_selection_without_touching_sources() {
    let mut stack = stack_of(4, 4, RED, CLEAR);
    let sel = inner_selection();
    let source_id = stack.layers[0].id;
    let maps = maps_of(&stack, &[source_id]);

    clip_into_new_layer(&mut stack, &sel, ClipMode::Copy, &vec![source_id], &maps, 9);

    assert_eq!(stack.layers.len(), 3);
    let top = stack.layers.last().unwrap();
    assert_eq!((top.image.w, top.image.h), (2, 2));
    assert!(top.image.px.iter().all(|&p| p == RED));
    assert_eq!((num(top.transform.cx), num(top.transform.cy)), (2.0, 2.0));
    assert_eq!((stack.layers[0].image.w, stack.layers[0].image.h), (4, 4));
    assert_eq!(stack.layers[0].image.px[4 + 1], RED);
}

#[test]
fn cut_clears_mutable_layers_but_never_the_source() {
    let mut stack = stack_of(4, 4, RED, GREEN);
    let source_id = stack.layers[0].id;
    let clean_id = stack.layers[1].id;
    let sel = inner_selection();
    let maps = maps_of(&stack, &[source_id, clean_id]);

    clip_into_new_layer(&mut stack, &sel, ClipMode::Cut, &vec![source_id, clean_id], &maps, 9);

    assert_eq!(stack.layer(clean_id).unwrap().image.px[4 + 1], CLEAR);
    assert_eq!(stack.layer(source_id).unwrap().image.px[4 + 1], RED);
    let top = stack.layers.last().unwrap();
    assert_eq!((top.image.w, top.image.h), (2, 2));
    assert!(top.image.px.iter().all(|&p| p == GREEN));
    assert_eq!(stack.layer(clean_id).unwrap().image.px[0], GREEN);
}

#[test]
fn touched_detection_skips_transparent_layers() {
    let stack = stack_of(4, 4, RED, CLEAR);
    let sel = inner_selection();
    let bounds = sel.bounds().unwrap();
    assert_eq!(bounds, SelectionBounds { min_x: 1, min_y: 1, max_x: 2, max_y: 2 });
    let (a, b) = (&stack.layers[0], &stack.layers[1]);
    assert!(layer_touches_selection(a, &to_layer(a, 4, 4), &sel, bounds));
    assert!(!layer_touches_selection(b, &to_layer(b, 4, 4), &sel, bounds));
}

#[test]
fn moved_layer_samples_from_its_transformed_position() {
    let mut stack = stack_of(4, 4, CLEAR, CLEAR);
    let transform = LayerTransform {
        cx: 1.0f32.to_bits(),
        cy: 1.0f32.to_bits(),
        rotation: 0.0f32.to_bits(),
        scale: 1.0f32.to_bits(),
    };
    let id = stack.add_raster_layer_image(5, "blue".into(), filled(2, 2, BLUE), transform);
    let layer = stack.layer(id).unwrap();
    let places = to_layer(layer, 4, 4);
    assert_eq!(sample_layer_world(layer, &places, 0, 0), BLUE);
    assert_eq!(sample_layer_world(layer, &places, 3, 3), CLEAR);
}

#[test]
fn raster_below_by_band_z_picks_visually_below_not_stack_neighbor() {
    let rasters = vec![
        ("r_a".to_string(), 2u32),
        ("r_b".to_string(), 0u32),
        ("r_c".to_string(), 1u32),
    ];
    assert_eq!(raster_below_by_band_z(&rasters, "r_a").as_deref(), Some("r_c"));
    assert_eq!(raster_below_by_band_z(&rasters, "r_c").as_deref(), Some("r_b"));
    assert_eq!(raster_below_by_band_z(&rasters, "r_b"), None);
    assert_eq!(raster_below_by_band_z(&rasters, "nope"), None);
}

#[test]
fn merge_selection_uses_band_z_after_reorder_and_protects_base_layers() {
    let mut stack = stack_of(2, 2, CLEAR, CLEAR);
    let first = stack.add_raster_layer(11);
    let second = stack.add_raster_layer(12);
    let first_uid = uid_to_string(stack.layer(first).unwrap().uid);
    let second_uid = uid_to_string(stack.layer(second).unwrap().uid);
    let bands = vec![
        Band::Raster { uid: second_uid.clone(), z: 0 },
        Band::Raster { uid: first_uid.clone(), z: 1 },
    ];

    assert_eq!(raster_below_uid(&stack, &bands, first).as_deref(), Some(second_uid.as_str()));
    assert!(is_mergeable(&stack, &bands, first), "top-by-band raster is mergeable");

    assert_eq!(raster_below_uid(&stack, &bands, second), None);
    assert!(!is_mergeable(&stack, &bands, second), "bottom-by-band raster is not mergeable");

    let base_ids: Vec<u64> =
        stack.layers.iter().filter(|l| l.kind.is_base()).map(|l| l.id).collect();
    assert_eq!(base_ids.len(), 2, "source + clean base layers present");
    for id in base_ids {
        assert!(!is_mergeable(&stack, &bands, id), "base layer is never mergeable");
        assert_eq!(
            raster_below_uid(&stack, &bands, id),
            None,
            "base layer has no band-Z below-raster"
        );
    }
}

#[test]
fn raster_below_by_band_z_breaks_z_ties_toward_lower_stack_index() {
    let rasters = vec![
        ("low".to_string(), 5u32),
        ("high".to_string(), 5u32),
        ("top".to_string(), 9u32),
    ];
    assert_eq!(raster_below_by_band_z(&rasters, "top").as_deref(), Some("low"));
    assert_eq!(raster_below_by_band_z(&rasters, "low"), None);
    assert_eq!(raster_below_by_band_z(&rasters, "high"), None);
}

#[test]
fn rasters_without_a_band_stand_on_top() {
    let mut stack = stack_of(1, 1, CLEAR, CLEAR);
    stack.add_raster_layer(11);
    stack.add_raster_layer(12);
    let bands = vec![Band::Raster { uid: uid_to_string(11), z: 0 }];
    assert_eq!(
        non_base_rasters_by_band_z(&stack, &bands),
        vec![(uid_to_string(11), 0), (uid_to_string(12), 1)]
    );
    assert_eq!(raster_band_z(&bands, &uid_to_string(12)), 0);
}

#[test]
fn merging_paints_the_upper_layer_over_the_lower() {
    let mut stack = stack_of(2, 1, CLEAR, CLEAR);
    let lower = stack.add_raster_layer(11);
    let upper = stack.add_raster_layer(12);
    stack.layer_mut(lower).unwrap().image = filled(2, 1, BLUE);
    stack.layer_mut(upper).unwrap().image.px[1] = RED;
    let bands = vec![
        Band::Raster { uid: uid_to_string(11), z: 0 },
        Band::Raster { uid: uid_to_string(12), z: 1 },
    ];
    let pair = match plan_merge(&stack, &bands, upper) {
        Ok(p) => p,
        Err(_) => panic!("the layers can be merged"),
    };
    assert_eq!((pair.below, pair.upper), (2, 3));
    assert!(matches!(plan_merge(&stack, &bands, lower), Err(MergeRefusal::NothingBeneath)));

    let below_places = to_layer(&stack.layers[2], 2, 1);
    let upper_places = to_layer(&stack.layers[3], 2, 1);
    let mut deleted = DeletedRasters::new();
    let edits = {
        let (b, u) = (below_places.copied(), upper_places.copied());
        let done = match merge_down(&stack, &bands, &mut deleted, upper, below_places, upper_places)
        {
            Ok(d) => d,
            Err(_) => panic!("the layers can be merged"),
        };
        assert_eq!(done.below_id, lower);
        assert_eq!(merge_layers(&stack, pair, b, u).len(), done.edits.len());
        done.edits
    };
    assert_eq!(deleted.of_page(0), vec![uid_to_string(12)]);
    assert_eq!(edits.len(), 3);
    match &edits[0] {
        DocEdit::SetPixels { uid, base, .. } => {
            assert_eq!(*uid, uid_to_string(11));
            assert_eq!(base.px, vec![BLUE, RED]);
        }
        _ => panic!("the lower layer takes the pixels"),
    }
    match &edits[2] {
        DocEdit::RemoveNode { uid } => assert_eq!(*uid, uid_to_string(12)),
        _ => panic!("the upper layer goes"),
    }
}

#[test]
fn base_layers_have_nothing_to_bake() {
    let mut stack = stack_of(1, 1, CLEAR, CLEAR);
    let id = stack.add_raster_layer(3);
    assert!(bake_raster(&stack, id).is_none());
    stack.layer_mut(id).unwrap().effects.push(serde_json::Value::from("shadow"));
    match bake_raster(&stack, id) {
        Some(DocEdit::SetPixels { uid, .. }) => assert_eq!(uid, uid_to_string(3)),
        _ => panic!("effects are baked"),
    }
    assert!(bake_raster(&stack, stack.layers[0].id).is_none());
}

fn text(uid: &str, visible: bool) -> PsTextLayer {
    PsTextLayer {
        uid: uid.to_string(),
        name: format!("name of {uid}"),
        visible,
        layer_idx: 0,
        group_uid: None,
        pinned: false,
        pinned_by_group: false,
        text_content: String::new(),
        image: filled(1, 1, BLUE),
        transform: LayerTransform::identity_for(1, 1),
        deform: None,
        uploaded: false,
    }
}

#[test]
fn texts_become_layers() {
    let mut stack = stack_of(2, 2, CLEAR, CLEAR);
    let t = text("t1", true);
    let edits = rasterize_text(&mut stack, &t, 41);
    let top = stack.layers.last().unwrap();
    assert_eq!(top.name, "Запечён: name of t1");
    assert_eq!(top.kind, LayerKind::Raster);
    assert_eq!(top.image.px, vec![BLUE]);
    assert_eq!(top.transform, t.transform);
    match (&edits[0], &edits[1]) {
        (DocEdit::RemoveNode { uid }, DocEdit::AddNode(node)) => {
            assert_eq!(uid, "t1");
            assert_eq!(node.uid, uid_to_string(41));
        }
        _ => panic!("the text is exchanged for the layer"),
    }
}

#[test]
fn clips_are_asked_of_the_document() {
    let stack = stack_of(4, 4, RED, GREEN);
    let mut stack = Some(stack);
    let sel = Some(inner_selection());
    let touched = {
        let s = stack.as_ref().unwrap();
        let places: Vec<Places> = s.layers.iter().map(|l| to_layer(l, 4, 4)).collect();
        refresh_clip_touched_layers(&stack, &sel, &places)
    };
    assert_eq!(touched, vec![1, 2]);
    let ids = clip_layers(&stack, &touched, &vec![], ClipChoice::Top);
    assert_eq!(ids, vec![2]);
    let maps = maps_of(stack.as_ref().unwrap(), &ids);
    assert!(perform_clip(&mut stack, &sel, None, ClipMode::Cut, &ids, &maps, 8).is_none());
    assert!(perform_clip(&mut stack, &None, Some(0), ClipMode::Cut, &ids, &maps, 8).is_none());
    let done = perform_clip(&mut stack, &sel, Some(0), ClipMode::Cut, &ids, &maps, 8)
        .expect("cut");
    assert_eq!(done.redraw, vec![2]);
    assert_eq!(done.edits.len(), 1, "the clean layer is no node of the document");
    assert!(matches!(&done.edits[0], DocEdit::AddNode(_)));
    let s = stack.as_ref().unwrap();
    assert_eq!(s.layers.len(), 3);
    assert_eq!(s.layers[2].name, "Вырезка");
    let again = clip_edits(s, ClipMode::Copy, &ids);
    assert_eq!(again.len(), 1);
}

#[test]
fn picked_layers_keep_the_order_of_the_stack() {
    let mut picked = Vec::new();
    pick_layer(&mut picked, 7, true);
    pick_layer(&mut picked, 3, true);
    pick_layer(&mut picked, 7, true);
    let ids = clip_layers(&None, &vec![3, 5, 7], &picked, ClipChoice::Picked);
    assert_eq!(ids, vec![3, 7]);
    pick_layer(&mut picked, 3, false);
    let ids = clip_layers(&None, &vec![3, 5, 7], &picked, ClipChoice::Picked);
    assert_eq!(ids, vec![7]);
    assert!(clip_layers(&None, &vec![], &picked, ClipChoice::All).is_empty());
}

#[test]
fn the_active_layer_is_selected_by_its_outline() {
    let mut stack = stack_of(3, 2, RED, CLEAR);
    let moved = stack.add_raster_layer(2);
    let stack = Some(stack);
    let texts = vec![text("t", true)];
    let row = Some(RowSel::Text("t".to_string()));
    assert!(matches!(
        select_active_layer_fully(&stack, &row, &texts, true),
        SelectTarget::TextOutline(0)
    ));
    let gone = Some(RowSel::Text("gone".to_string()));
    assert!(matches!(
        select_active_layer_fully(&stack, &gone, &texts, true),
        SelectTarget::Unchanged
    ));
    match select_active_layer_fully(&stack, &None, &texts, true) {
        SelectTarget::Page(sel) => {
            assert!(sel.contains(0, 0) && sel.contains(2, 1));
            assert!(!sel.contains(3, 0));
        }
        _ => panic!("an unmoved layer covers the page"),
    }
    match select_active_layer_fully(&stack, &None, &texts, false) {
        SelectTarget::LayerOutline(id) => assert_eq!(id, moved),
        _ => panic!("a moved layer has an outline"),
    }
    assert!(matches!(
        select_active_layer_fully(&None, &None, &texts, true),
        SelectTarget::Unchanged
    ));
}

#[test]
fn selections_know_their_bounds() {
    let mut sel = Selection::empty(5, 3);
    assert!(sel.bounds().is_none());
    assert!(!sel.any());
    sel.set_rect(-2, 1, 2, 99);
    assert!(sel.any());
    assert_eq!(sel.bounds(), Some(SelectionBounds { min_x: 0, min_y: 1, max_x: 1, max_y: 2 }));
    assert!(!sel.contains(2, 1));
    assert!(!sel.contains(100, 100));
}

#[test]
fn saving_a_page_lists_its_rasters_and_deletions() {
    let mut stack = stack_of(1, 1, CLEAR, CLEAR);
    let id = stack.add_raster_layer(4);
    let mut deleted = DeletedRasters::new();
    deleted.insert(0, "old".to_string());
    let job = page_save(&stack, &deleted);
    assert_eq!(job.layers.len(), 1);
    assert_eq!(job.layers[0].uid, uid_to_string(4));
    assert!(job.layers[0].pixels_dirty);
    assert_eq!(job.removed_uids, vec!["old".to_string()]);
    let mut dirty = true;
    page_saved(&mut stack, &mut deleted, &mut dirty);
    assert!(!dirty);
    assert!(deleted.of_page(0).is_empty());
    assert!(!stack.layer(id).unwrap().pixels_dirty);
}

#[test]
fn clip_modes_are_named() {
    assert_eq!(ClipMode::Copy.verb(), "Скопировать");
    assert_eq!(ClipMode::Cut.verb(), "Вырезать");
}
