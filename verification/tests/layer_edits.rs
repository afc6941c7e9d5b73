//! Edits of layers and their way back.

use manga_editor::color::{Color, ColorImage};
use manga_editor::edit_op::{
    apply_field_patch_to_layer, apply_raster_diff_to_layer, copy_region_premul, diff_target_size,
    mirror_rects_image_to_base, AppliedDiff, ApplyDirection, ChangedRect, DeltaRef,
    LayerFieldPatch, LifecycleDir, PsEditOp, PsEditOpError, RasterDiffError,
};
use manga_editor::layers::{DeformPoint, DeformRec, Layer, LayerStack, LayerTransform};
use manga_editor::raster::Raster;
use manga_editor::raster_edits::{
    apply_ps_field_patch, apply_ps_layer_lifecycle, apply_ps_raster_edit, finish_history_step,
    layer_lifecycle_edit, op_work, record_brush_stroke, record_raster_deletion, stroke_op,
    DeletedRasters, DirtyRect, DocEdit, HistoryOutcome, OpWork,
};

const CLEAR: Color = Color { r: 0, g: 0, b: 0, a: 0 };
const RED: Color = Color { r: 255, g: 0, b: 0, a: 255 };
const BLUE: Color = Color { r: 0, g: 0, b: 255, a: 255 };

fn filled(w: usize, h: usize, c: Color) -> ColorImage {
    Raster { w, h, px: vec![c; w * h] }
}

/// A stack with one editable raster layer of the given size, and its id.
fn raster_stack(w: usize, h: usize) -> (LayerStack, u64) {
    let mut stack = LayerStack::new(0, w, h, filled(w, h, CLEAR), filled(w, h, CLEAR));
    let id = stack.add_raster_layer(77);
    (stack, id)
}

/// A reversible difference of a region of two pictures.
struct Diff {
    before: Vec<u8>,
    after: Vec<u8>,
    rect: ChangedRect,
}

impl Diff {
    fn of_layer(layer: &Layer) -> Diff {
        let (w, h) = (layer.image.w, layer.image.h);
        Diff::of_region(
            copy_region_premul(&layer.base_image, 0, 0, w, h),
            copy_region_premul(&layer.image, 0, 0, w, h),
            ChangedRect { x: 0, y: 0, w: w as u32, h: h as u32 },
        )
    }

    fn of_region(before: Vec<u8>, after: Vec<u8>, rect: ChangedRect) -> Diff {
        assert_eq!(before.len(), after.len());
        Diff { before, after, rect }
    }

    fn is_empty(&self) -> bool {
        self.before == self.after
    }

    fn apply(&self, layer: &Layer, dir: ApplyDirection) -> Result<AppliedDiff, RasterDiffError> {
        let (w, h) = diff_target_size(layer)?;
        assert!(self.rect.x + self.rect.w <= w && self.rect.y + self.rect.h <= h);
        let mut image = layer.image.copied();
        if self.is_empty() {
            return Ok(AppliedDiff { image, dirty: Vec::new() });
        }
        let bytes = match dir {
            ApplyDirection::Forward => &self.after,
            ApplyDirection::Reverse => &self.before,
        };
        for i in 0..bytes.len() / 4 {
            let x = self.rect.x as usize + i % self.rect.w as usize;
            let y = self.rect.y as usize + i / self.rect.w as usize;
            let c = &bytes[4 * i..4 * i + 4];
            image.set(x, y, Color { r: c[0], g: c[1], b: c[2], a: c[3] });
        }
        Ok(AppliedDiff { image, dirty: vec![self.rect] })
    }
}

fn apply(layer: &mut Layer, diff: &Diff, dir: ApplyDirection) -> Result<Vec<ChangedRect>, RasterDiffError> {
    let applied = diff.apply(layer, dir);
    apply_raster_diff_to_layer(layer, applied)
}

#[test]
fn undo_and_redo_restore_both_image_and_base() {
    let (mut stack, id) = raster_stack(8, 8);
    let layer = stack.layer_mut(id).expect("raster resident");
    assert!(layer.image.px.iter().all(|p| *p == CLEAR));

    layer.image.px[0] = RED;
    layer.image.px[9] = RED;
    let diff = Diff::of_layer(layer);
    assert!(!diff.is_empty(), "a real change must produce a non-empty diff");

    let dirty = apply(layer, &diff, ApplyDirection::Reverse).expect("reverse applies");
    assert!(!dirty.is_empty());
    assert!(layer.image.px.iter().all(|p| *p == CLEAR), "image restored to pre-stroke");
    assert!(layer.base_image.px.iter().all(|p| *p == CLEAR), "base_image restored to pre-stroke");

    apply(layer, &diff, ApplyDirection::Forward).expect("forward applies");
    assert_eq!(layer.image.px[0], RED);
    assert_eq!(layer.image.px[9], RED);
    assert_eq!(layer.base_image.px[0], layer.image.px[0], "base tracks image after redo");
    assert_eq!(layer.base_image.px[9], layer.image.px[9]);
}

#[test]
fn region_diff_round_trips_through_the_stroke_union() {
    let (mut stack, id) = raster_stack(16, 16);
    let layer = stack.layer_mut(id).expect("raster resident");
    for row in 6..10 {
        for col in 5..9 {
            layer.image.px[row * 16 + col] = BLUE;
        }
    }
    let before = copy_region_premul(&layer.base_image, 5, 6, 4, 4);
    let after = copy_region_premul(&layer.image, 5, 6, 4, 4);
    let diff = Diff::of_region(before, after, ChangedRect { x: 5, y: 6, w: 4, h: 4 });
    assert!(!diff.is_empty());

    apply(layer, &diff, ApplyDirection::Reverse).expect("reverse");
    assert!(layer.image.px.iter().all(|p| *p == CLEAR));
    assert!(layer.base_image.px.iter().all(|p| *p == CLEAR));

    apply(layer, &diff, ApplyDirection::Forward).expect("forward");
    assert_eq!(layer.image.px[6 * 16 + 5], BLUE);
    assert_eq!(layer.base_image.px[6 * 16 + 5], BLUE);
}

#[test]
fn empty_diff_is_a_no_op() {
    let (mut stack, id) = raster_stack(4, 4);
    let layer = stack.layer_mut(id).expect("raster resident");
    let diff = Diff::of_layer(layer);
    assert!(diff.is_empty(), "identical before/after produces an empty diff");
    let dirty = apply(layer, &diff, ApplyDirection::Reverse).expect("no-op applies");
    assert!(dirty.is_empty());
    assert!(layer.image.px.iter().all(|p| *p == CLEAR));
}

/// Brings a layer back with its identifier and pixels, or takes it away.
fn apply_lifecycle_to_stack(stack: &mut LayerStack, layer: &Layer, dir: LifecycleDir) {
    match dir {
        LifecycleDir::Removed => {
            if let Some(id) = stack.layers.iter().find(|l| l.uid == layer.uid).map(|l| l.id) {
                stack.remove_layer(id);
            }
        }
        LifecycleDir::Added => {
            let id = stack.add_raster_layer_image(
                layer.uid,
                layer.name.clone(),
                layer.image.copied(),
                layer.transform,
            );
            if let Some(l) = stack.layer_mut(id) {
                l.base_image = layer.base_image.copied();
                l.visible = layer.visible;
                l.opacity = layer.opacity;
            }
        }
    }
}

#[test]
fn field_patch_round_trips_visibility_opacity_transform() {
    let (mut stack, id) = raster_stack(4, 4);
    let layer = stack.layer_mut(id).expect("raster resident");
    layer.visible = true;
    layer.opacity = 1.0f32.to_bits();
    let t0 = layer.transform;
    let t1 = LayerTransform {
        cx: 10.0f32.to_bits(),
        cy: 20.0f32.to_bits(),
        rotation: 0.5f32.to_bits(),
        scale: 2.0f32.to_bits(),
    };

    let vis = LayerFieldPatch::Visibility { before: true, after: false };
    apply_field_patch_to_layer(layer, &vis);
    assert!(!layer.visible, "forward applies `after`");
    apply_field_patch_to_layer(layer, &vis.inverted());
    assert!(layer.visible, "inverse restores `before`");

    let op = LayerFieldPatch::Opacity { before: 1.0f32.to_bits(), after: 0.25f32.to_bits() };
    apply_field_patch_to_layer(layer, &op);
    assert!((f32::from_bits(layer.opacity) - 0.25).abs() < 1e-6);
    apply_field_patch_to_layer(layer, &op.inverted());
    assert!((f32::from_bits(layer.opacity) - 1.0).abs() < 1e-6);

    let tp = LayerFieldPatch::Transform { before: t0, after: t1 };
    apply_field_patch_to_layer(layer, &tp);
    assert_eq!(layer.transform, t1, "forward applies `after`");
    apply_field_patch_to_layer(layer, &tp.inverted());
    assert_eq!(layer.transform, t0, "inverse restores `before`");
}

fn point(x: f32, y: f32) -> DeformPoint {
    DeformPoint { x: x.to_bits(), y: y.to_bits() }
}

#[test]
fn field_patch_round_trips_deform() {
    let (mut stack, id) = raster_stack(4, 4);
    let layer = stack.layer_mut(id).expect("raster resident");
    assert!(layer.deform.is_none());
    let grid = DeformRec {
        cols: 2,
        rows: 2,
        points_px: vec![point(0.0, 0.0), point(4.0, 0.0), point(0.0, 4.0), point(4.0, 4.0)],
    };
    let patch = LayerFieldPatch::Deform { before: None, after: Some(grid.copied()) };
    apply_field_patch_to_layer(layer, &patch);
    let applied = layer.deform.as_ref().expect("deform set by forward");
    assert_eq!(applied.points_px, grid.points_px);
    apply_field_patch_to_layer(layer, &patch.inverted());
    assert!(layer.deform.is_none(), "inverse clears the deform");
}

#[test]
fn layer_lifecycle_round_trips_add_and_delete() {
    let (mut stack, id) = raster_stack(4, 4);
    {
        let layer = stack.layer_mut(id).expect("raster resident");
        layer.image.px[5] = RED;
        layer.base_image.px[5] = RED;
    }
    let captured = stack.layer(id).expect("resident").copied();
    let uid = captured.uid;
    assert_eq!(stack.raster_count(), 1);

    apply_lifecycle_to_stack(&mut stack, &captured, LifecycleDir::Removed);
    assert_eq!(stack.raster_count(), 0, "delete removes the raster");

    apply_lifecycle_to_stack(&mut stack, &captured, LifecycleDir::Added);
    assert_eq!(stack.raster_count(), 1);
    let re = stack.layers.iter().find(|l| l.uid == uid).expect("re-added with same uid");
    assert_eq!(re.image.px[5], RED, "pixels survive the round-trip");

    apply_lifecycle_to_stack(&mut stack, &captured, LifecycleDir::Removed);
    assert_eq!(stack.raster_count(), 0);
}

#[test]
fn lifecycle_inverse_flips_dir_and_weight_counts_retained_pixels() {
    let (stack, id) = raster_stack(8, 8);
    let layer = stack.layer(id).expect("resident").copied();
    let op = PsEditOp::LayerLifecycle {
        page_idx: 0,
        layer: Box::new(layer),
        z: 3,
        dir: LifecycleDir::Removed,
    };
    match op.inverse() {
        PsEditOp::LayerLifecycle { dir, z, page_idx, .. } => {
            assert_eq!(dir, LifecycleDir::Added);
            assert_eq!(z, 3);
            assert_eq!(page_idx, 0);
        }
        PsEditOp::RasterPixels { .. } | PsEditOp::FieldPatch { .. } => {
            panic!("inverse of a lifecycle op must stay a lifecycle op")
        }
    }
    assert_eq!(op.weight(), 8 * 8 * 4);
    let fp = PsEditOp::FieldPatch {
        page_idx: 0,
        layer_uid: "x".to_string(),
        field: LayerFieldPatch::Visibility { before: true, after: false },
    };
    assert_eq!(fp.weight(), 0);
}

#[test]
fn edits_have_titles_and_flip() {
    let op = PsEditOp::RasterPixels {
        page_idx: 4,
        layer_uid: "u".to_string(),
        delta: DeltaRef { key: 9, compressed_len: 123 },
        dir: ApplyDirection::Forward,
        label: "Кисть".to_string(),
    };
    assert_eq!(op.label(), "Кисть");
    assert_eq!(op.weight(), 123);
    match op.inverse() {
        PsEditOp::RasterPixels { dir, delta, page_idx, .. } => {
            assert_eq!(dir, ApplyDirection::Reverse);
            assert_eq!(delta, DeltaRef { key: 9, compressed_len: 123 });
            assert_eq!(page_idx, 4);
        }
        _ => panic!("stays an edit of pixels"),
    }
    assert_eq!(LifecycleDir::Added.flipped(), LifecycleDir::Removed);
    assert_eq!(LifecycleDir::Removed.flipped(), LifecycleDir::Added);
    let fields = [
        (LayerFieldPatch::Visibility { before: true, after: false }, "Видимость слоя"),
        (LayerFieldPatch::Opacity { before: 0, after: 1 }, "Непрозрачность слоя"),
        (LayerFieldPatch::Deform { before: None, after: None }, "Деформация слоя"),
    ];
    for (field, title) in fields {
        let op = PsEditOp::FieldPatch { page_idx: 0, layer_uid: "u".to_string(), field };
        assert_eq!(op.label(), title);
    }
}

#[test]
fn failed_diffs_leave_the_layer_alone() {
    let (mut stack, id) = raster_stack(2, 2);
    let layer = stack.layer_mut(id).unwrap();
    layer.image.px[3] = RED;
    let r = apply_raster_diff_to_layer(layer, Err(RasterDiffError::Failed));
    assert_eq!(r, Err(RasterDiffError::Failed));
    assert_eq!(layer.image.px[3], RED);
    assert_eq!(layer.base_image.px[3], CLEAR);
}

#[test]
fn mirroring_copies_only_the_changed_rectangles() {
    let (mut stack, id) = raster_stack(4, 4);
    let layer = stack.layer_mut(id).unwrap();
    for p in layer.image.px.iter_mut() {
        *p = RED;
    }
    mirror_rects_image_to_base(layer, &vec![ChangedRect { x: 1, y: 2, w: 2, h: 9 }]);
    for y in 0..4 {
        for x in 0..4 {
            let inside = (1..3).contains(&x) && y >= 2;
            assert_eq!(layer.base_image.get(x, y), if inside { RED } else { CLEAR });
        }
    }
}

#[test]
fn pixel_edits_need_their_page_and_layer() {
    let (stack, id) = raster_stack(4, 4);
    let uid = manga_editor::ident::uid_to_string(77);
    let mut stack = Some(stack);
    let image = filled(4, 4, RED);
    let dirty = vec![ChangedRect { x: 0, y: 0, w: 4, h: 1 }];
    let gone = apply_ps_raster_edit(
        &mut stack,
        5,
        &uid,
        Ok(AppliedDiff { image: image.copied(), dirty: dirty.clone() }),
    );
    assert!(matches!(gone, Err(PsEditOpError::NotResident { page_idx: 5 })));
    let failed = apply_ps_raster_edit(&mut stack, 0, &uid, Err(RasterDiffError::Failed));
    assert!(matches!(failed, Err(PsEditOpError::Raster(RasterDiffError::Failed))));

    let done = apply_ps_raster_edit(&mut stack, 0, &uid, Ok(AppliedDiff { image, dirty }));
    let done = match done {
        Ok(d) => d,
        Err(_) => panic!("the layer is there"),
    };
    assert_eq!(done.id, id);
    assert_eq!(done.tiles, vec![DirtyRect { min_x: 0, min_y: 0, max_x: 3, max_y: 0 }]);
    match done.doc {
        DocEdit::SetPixels { uid: u, base, display } => {
            assert_eq!(u, uid);
            assert!(base.px.iter().all(|p| *p == RED));
            assert_eq!(base.px, display.px);
        }
        _ => panic!("pixels are stored"),
    }
    let l = stack.as_ref().unwrap().layer(id).unwrap();
    assert!(l.pixels_dirty);
    assert_eq!(l.base_image.get(0, 0), RED);
    assert_eq!(l.base_image.get(0, 1), CLEAR);
}

#[test]
fn errors_are_described() {
    assert_eq!(
        PsEditOpError::NotResident { page_idx: 3 }.describe("ignored"),
        "ps_editor page 3 is not resident for undo/redo".to_string()
    );
    assert_eq!(
        PsEditOpError::Raster(RasterDiffError::Failed).describe("sizes differ"),
        "raster diff failed: sizes differ".to_string()
    );
}

#[test]
fn deletions_are_noted_and_taken_back() {
    let (stack, id) = raster_stack(2, 2);
    let uid = manga_editor::ident::uid_to_string(77);
    let mut deleted = DeletedRasters::new();
    record_raster_deletion(&mut deleted, &stack, stack.layers[0].id);
    assert!(deleted.of_page(0).is_empty(), "base layers are never noted");
    record_raster_deletion(&mut deleted, &stack, id);
    assert_eq!(deleted.of_page(0), vec![uid.clone()]);
    assert!(deleted.of_page(1).is_empty());

    let layer = stack.layer(id).unwrap();
    let done = apply_ps_layer_lifecycle(&mut deleted, 0, layer, LifecycleDir::Added, true);
    assert!(done.is_ok());
    assert!(deleted.of_page(0).is_empty());
    let failed = apply_ps_layer_lifecycle(&mut deleted, 0, layer, LifecycleDir::Removed, false);
    assert!(matches!(failed, Err(PsEditOpError::NotResident { page_idx: 0 })));
    assert!(deleted.of_page(0).is_empty());
    assert!(apply_ps_layer_lifecycle(&mut deleted, 0, layer, LifecycleDir::Removed, true).is_ok());
    assert_eq!(deleted.of_page(0), vec![uid]);
    deleted.clear_page(0);
    assert!(deleted.of_page(0).is_empty());
}

#[test]
fn lifecycle_edits_restore_nodes_in_place() {
    let (stack, id) = raster_stack(2, 2);
    let layer = stack.layer(id).unwrap().copied();
    let stack = Some(stack);
    match layer_lifecycle_edit(&stack, true, 0, &layer, 7, LifecycleDir::Added) {
        Ok(DocEdit::AddNodeAtZ { node, z }) => {
            assert_eq!(z, 7);
            assert_eq!(node.uid, manga_editor::ident::uid_to_string(77));
        }
        _ => panic!("the layer comes back"),
    }
    match layer_lifecycle_edit(&stack, true, 0, &layer, 7, LifecycleDir::Removed) {
        Ok(DocEdit::RemoveNode { uid }) => {
            assert_eq!(uid, manga_editor::ident::uid_to_string(77))
        }
        _ => panic!("the layer goes"),
    }
    assert!(layer_lifecycle_edit(&stack, false, 0, &layer, 7, LifecycleDir::Added).is_err());
    assert!(layer_lifecycle_edit(&stack, true, 1, &layer, 7, LifecycleDir::Added).is_err());
    assert!(layer_lifecycle_edit(&None, true, 0, &layer, 7, LifecycleDir::Added).is_err());
}

#[test]
fn field_patches_reach_the_layer_without_a_document() {
    let (stack, id) = raster_stack(2, 2);
    let uid = manga_editor::ident::uid_to_string(77);
    let mut stack = Some(stack);
    let patch = LayerFieldPatch::Visibility { before: true, after: false };
    assert!(apply_ps_field_patch(&mut stack, 0, &"nobody".to_string(), &patch).is_err());
    assert!(apply_ps_field_patch(&mut stack, 0, &uid, &patch).is_ok());
    assert!(!stack.as_ref().unwrap().layer(id).unwrap().visible);
    assert!(apply_ps_field_patch(&mut stack, 0, &uid, &patch.inverted()).is_ok());
    assert!(stack.as_ref().unwrap().layer(id).unwrap().visible);
}

#[test]
fn brush_strokes_are_captured_from_the_base() {
    let (mut stack, id) = raster_stack(8, 8);
    let layer = stack.layer_mut(id).unwrap();
    layer.image.set(3, 4, RED);
    let stack = Some(stack);
    let dirty = Some(DirtyRect { min_x: 3, min_y: 4, max_x: 100, max_y: 4 });
    let stroke = record_brush_stroke(&stack, 0, dirty).expect("recorded");
    assert_eq!(stroke.image_size, (8, 8));
    assert_eq!(stroke.origin, (3, 4));
    assert_eq!(stroke.region, (5, 1));
    assert!(stroke.before.iter().all(|b| *b == 0));
    assert_eq!(&stroke.after[..4], &[255, 0, 0, 255]);
    assert!(stroke.after[4..].iter().all(|b| *b == 0));
    assert!(record_brush_stroke(&stack, 1, dirty).is_none());
    assert!(record_brush_stroke(&stack, 0, None).is_none());
    let op = stroke_op(0, &stroke, DeltaRef { key: 1, compressed_len: 10 });
    assert_eq!(op.label(), "Кисть");
    match op_work(&op, &stack, true) {
        Ok(OpWork::Pixels { page_idx: 0, dir: ApplyDirection::Forward, .. }) => {}
        _ => panic!("pixels are to be changed"),
    }
}

#[test]
fn history_steps_have_outcomes() {
    assert!(matches!(finish_history_step(Ok(true)), HistoryOutcome::Changed));
    assert!(matches!(finish_history_step(Ok(false)), HistoryOutcome::Nothing));
    assert!(matches!(
        finish_history_step(Err(PsEditOpError::NotResident { page_idx: 2 })),
        HistoryOutcome::Failed(PsEditOpError::NotResident { page_idx: 2 })
    ));
}
