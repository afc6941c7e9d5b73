//! Selecting a region, loading its picture and filling it in.

use manga_editor::color::{Color, ColorImage, Rgba};
use manga_editor::jobs::ProjectPage;
use manga_editor::overlay_rect::OverlayRectPx;
use manga_editor::raster::Raster;
use manga_editor::region_edit::{
    image_stroke_segment, picture_stroke_segment, select_rect, EditorFrame, ImageStrokeInput, RegionEditToolBase,
    RegionEditorSession, RegionLoadResult, SelectionPoints, ZoomDrag, ZoomKeys,
};
use manga_editor::region_image::{
    build_tinted_mask_preview, composite_source_over, cover, region_base_image, Cover, PageCut,
};
use manga_editor::region_inpaint::{
    generate_mask_hint, greet_editor, mask_from_detection, MaskGenerationEvent, ProcessingEvent,
    RegionInpaintEditorState, RegionInpaintMaskTarget, RegionInpaintRunSource,
    RegionMaskGenerationMethod, RegionMaskInpaintToolBase,
};
use manga_editor::strokes::{RegionEditorStrokeSegment, ScenePos, StrokeModifiers, StrokePoint};

fn rect(x: usize, y: usize, w: usize, h: usize) -> OverlayRectPx {
    OverlayRectPx { x, y, w, h }
}

fn grey(v: u8) -> Color {
    Color { r: v, g: v, b: v, a: 255 }
}

fn filled(w: usize, h: usize, c: Color) -> ColorImage {
    Raster::filled(w, h, c)
}

fn corners(sx: i32, sy: i32, ex: i32, ey: i32) -> SelectionPoints {
    SelectionPoints { start_x: sx, start_y: sy, end_x: ex, end_y: ey, source_w: 100, source_h: 80 }
}

fn point(page_idx: usize, x: f32, y: f32) -> StrokePoint {
    StrokePoint {
        page_idx,
        scene_pos: ScenePos { x: x.to_bits(), y: y.to_bits() },
        modifiers: StrokeModifiers { shift: false, ctrl: false },
    }
}

fn session(w: usize, h: usize) -> RegionEditorSession {
    RegionEditorSession {
        page_idx: 3,
        target_rect_px: rect(0, 0, w, h),
        image: filled(w, h, grey(10)),
        texture_dirty: false,
        status: None,
        zoom: 1.0f32.to_bits(),
        scroll_id: 5,
        zoom_drag_active: false,
        zoom_drag_last_x: 0,
    }
}

fn status(e: &RegionEditorSession) -> &str {
    e.status.as_deref().unwrap_or("")
}

#[test]
fn selections_lie_between_their_corners() {
    assert_eq!(select_rect(corners(10, 20, 30, 50), None), Some(rect(10, 20, 20, 30)));
    assert_eq!(select_rect(corners(30, 50, 10, 20), None), Some(rect(10, 20, 20, 30)));
    assert_eq!(select_rect(corners(30, 50, 30, 20), None), None);
    assert_eq!(select_rect(corners(10, 20, 30, 50), Some(8)), Some(rect(10, 20, 24, 32)));
    assert_eq!(select_rect(corners(10, 20, 30, 50), Some(1)), Some(rect(10, 20, 20, 30)));
    // The page ends before the multiple does.
    assert_eq!(select_rect(corners(90, 70, 99, 79), Some(64)), Some(rect(90, 70, 10, 10)));
    for ex in [0, 1, 13, 50, 99, 100] {
        for ey in [0, 1, 13, 50, 79, 80] {
            if let Some(r) = select_rect(corners(40, 33, ex, ey), Some(16)) {
                assert!(r.w > 0 && r.h > 0 && r.x + r.w <= 100 && r.y + r.h <= 80);
            }
        }
    }
}

#[test]
fn a_selection_waits_for_its_picture() {
    let mut t = RegionEditToolBase::new(Some(8));
    t.begin_selection(point(3, 1.0, 2.0), Some(corners(10, 20, 10, 20)));
    assert_eq!(t.selecting_page_idx, Some(3));
    assert_eq!(t.selection_rect, None);
    t.update_selection(point(4, 9.0, 9.0), Some(corners(10, 20, 90, 70)));
    assert_eq!(t.selection_rect, None);
    t.update_selection(point(3, 9.0, 9.0), Some(corners(10, 20, 30, 50)));
    assert_eq!(t.selection_rect, Some(rect(10, 20, 24, 32)));
    let chunk = filled(24, 32, grey(1));
    t.end_selection(Some(corners(10, 20, 30, 50)), Some(chunk));
    let p = t.pending_selection.as_ref().unwrap();
    assert_eq!((p.page_idx, p.source_rect, p.source_size), (3, rect(10, 20, 24, 32), (100, 80)));
    assert!(p.overlay_chunk.is_some());
    assert_eq!(t.selection_rect, None);
    assert_eq!(t.selecting_page_idx, None);
    t.cancel_selection();
    assert!(t.pending_selection.is_none());
    // A selection without pixels waits for nothing.
    t.begin_selection(point(3, 1.0, 2.0), Some(corners(10, 20, 10, 20)));
    t.end_selection(Some(corners(10, 20, 10, 20)), None);
    assert!(t.pending_selection.is_none());
}

fn waiting_tool() -> RegionEditToolBase {
    let mut t = RegionEditToolBase::new(None);
    t.begin_selection(point(3, 1.0, 2.0), Some(corners(10, 20, 10, 20)));
    t.end_selection(Some(corners(10, 20, 30, 50)), None);
    t
}

fn pages() -> Vec<ProjectPage> {
    vec![
        ProjectPage { idx: 1, path: String::from("a.png") },
        ProjectPage { idx: 3, path: String::from("b.png") },
        ProjectPage { idx: 3, path: String::from("c.png") },
    ]
}

#[test]
fn one_picture_is_loaded_at_a_time() {
    let mut t = waiting_tool();
    let r = t.start_pending_job(&pages()).unwrap();
    assert_eq!((r.job_id, r.page_idx, r.page_path.as_str()), (1, 3, "b.png"));
    assert_eq!(r.source_rect, rect(10, 20, 20, 30));
    t.job_sent(r.job_id, true);
    assert_eq!(t.pending_job_id, Some(1));
    assert!(t.force_center_after_load);
    t.begin_selection(point(3, 1.0, 2.0), Some(corners(0, 0, 0, 0)));
    t.end_selection(Some(corners(0, 0, 5, 5)), None);
    assert!(t.start_pending_job(&pages()).is_none());
    assert!(t.pending_selection.is_some());
    // The answer to another request is not taken.
    let stale = RegionLoadResult {
        job_id: 9,
        page_idx: 3,
        target_rect_px: rect(0, 0, 1, 1),
        image: Ok(filled(1, 1, grey(0))),
    };
    assert!(!t.poll_loaded_region(stale));
    assert!(!t.has_open_editor());
    let ours = RegionLoadResult {
        job_id: 1,
        page_idx: 3,
        target_rect_px: rect(10, 20, 20, 30),
        image: Ok(filled(20, 30, grey(7))),
    };
    assert!(t.poll_loaded_region(ours));
    assert!(t.has_open_editor());
    let e = t.editor.as_ref().unwrap();
    assert_eq!((e.page_idx, e.target_rect_px, e.scroll_id), (3, rect(10, 20, 20, 30), 0));
    assert_eq!(f32::from_bits(e.zoom()), 1.0);
    assert!(e.texture_dirty);
    assert_eq!(t.editor_session_id, 1);
    assert_eq!(t.start_pending_job(&pages()).unwrap().job_id, 2);
}

#[test]
fn load_errors_are_told() {
    let mut t = waiting_tool();
    assert!(t.start_pending_job(&Vec::new()).is_none());
    assert_eq!(
        t.load_error.as_deref(),
        Some("Не найдена страница с idx=3 для выделенного региона.")
    );
    assert!(t.pending_selection.is_none());
    t.job_sent(1, false);
    assert_eq!(t.load_error.as_deref(), Some("Не удалось отправить задачу загрузки региона."));
    t.job_sent(1, true);
    assert_eq!(t.load_error, None);
    let failed = RegionLoadResult {
        job_id: 1,
        page_idx: 3,
        target_rect_px: rect(0, 0, 1, 1),
        image: Err(String::from("broken")),
    };
    assert!(!t.poll_loaded_region(failed));
    assert_eq!(t.load_error.as_deref(), Some("broken"));
    assert_eq!(t.pending_job_id, None);
    t.loader_disconnected();
    assert_eq!(
        t.load_error.as_deref(),
        Some("Поток загрузки region editor завершился неожиданно.")
    );
}

fn open_tool() -> RegionEditToolBase {
    let mut t = RegionEditToolBase::new(None);
    t.editor = Some(session(4, 4));
    t.editor_window_shown = true;
    t
}

#[test]
fn editor_windows_close_as_asked() {
    let quiet =
        EditorFrame { keep_open: true, request_close: false, applied: None, cancel_pending: false };
    let mut t = open_tool();
    t.finish_frame(quiet);
    assert!(t.has_open_editor() && t.editor_window_shown);
    // A window is centred only in the first frame that draws it.
    let mut t = open_tool();
    t.force_center_after_load = true;
    t.finish_frame(quiet);
    assert!(!t.force_center_after_load);
    let mut t = waiting_tool();
    t.force_center_after_load = true;
    t.finish_frame(quiet);
    assert!(t.force_center_after_load);
    let mut t = open_tool();
    t.finish_frame(EditorFrame { applied: Some(false), ..quiet });
    assert_eq!(
        status(t.editor.as_ref().unwrap()),
        "Не удалось вставить результат в слой clean overlay."
    );
    for f in [
        EditorFrame { applied: Some(true), ..quiet },
        EditorFrame { request_close: true, ..quiet },
        EditorFrame { keep_open: false, ..quiet },
        EditorFrame { cancel_pending: true, ..quiet },
    ] {
        let mut t = open_tool();
        t.finish_frame(f);
        assert!(!t.has_open_editor() && !t.editor_window_shown);
    }
    let mut t = waiting_tool();
    t.pending_job_id = Some(4);
    t.finish_frame(EditorFrame { cancel_pending: true, ..quiet });
    assert!(t.pending_selection.is_none() && t.pending_job_id.is_none());
}

#[test]
fn zoom_input_is_sorted_out() {
    let mut e = session(2, 2);
    assert_eq!(e.wheel_zoom(true, true, 3.0f32.to_bits()), Some(true));
    assert_eq!(e.wheel_zoom(true, true, (-3.0f32).to_bits()), Some(false));
    assert_eq!(e.wheel_zoom(true, true, f32::EPSILON.to_bits()), None);
    assert_eq!(e.wheel_zoom(true, true, (-0.0f32).to_bits()), None);
    assert_eq!(e.wheel_zoom(false, true, 3.0f32.to_bits()), None);
    assert_eq!(e.wheel_zoom(true, false, 3.0f32.to_bits()), None);
    // A drag begins inside the window and goes on outside of it.
    assert_eq!(e.drag_zoom(false, true, true, Some(1)), None);
    assert!(!e.zoom_drag_active);
    assert_eq!(e.drag_zoom(true, true, true, Some(1)), None);
    assert!(e.zoom_drag_active);
    assert_eq!(e.drag_zoom(false, true, true, Some(9)), Some(ZoomDrag { from_x: 1, to_x: 9 }));
    assert_eq!(e.drag_zoom(false, true, true, None), None);
    assert_eq!(e.drag_zoom(false, true, true, Some(4)), Some(ZoomDrag { from_x: 9, to_x: 4 }));
    assert_eq!(e.drag_zoom(true, false, true, Some(5)), None);
    assert!(!e.zoom_drag_active);
    let none = ZoomKeys { reset: false, zoom_in: false, zoom_out: false };
    assert_eq!(e.key_zoom(true, true, false, true, false, true, true), ZoomKeys { reset: true, ..none });
    assert_eq!(
        e.key_zoom(true, true, false, false, true, true, false),
        ZoomKeys { zoom_in: true, zoom_out: true, ..none }
    );
    assert_eq!(e.key_zoom(true, true, true, true, true, true, true), none);
}

fn stroke_input(at: Option<(i32, i32)>) -> ImageStrokeInput {
    ImageStrokeInput {
        at,
        primary_down: true,
        secondary_down: false,
        shift: false,
        zoom_modifier_down: false,
        zoom_drag_active: false,
    }
}

fn segment(from: (i32, i32), to: (i32, i32), erase: bool, shift: bool) -> RegionEditorStrokeSegment {
    RegionEditorStrokeSegment {
        from_x: from.0,
        from_y: from.1,
        to_x: to.0,
        to_y: to.1,
        erase,
        shift,
    }
}

#[test]
fn mask_segments_join() {
    let mut last = None;
    let a = image_stroke_segment(&mut last, stroke_input(Some((3, 4)))).unwrap();
    assert_eq!(a, segment((3, 4), (3, 4), false, false));
    let b = image_stroke_segment(&mut last, stroke_input(Some((5, 6)))).unwrap();
    assert_eq!(b, segment((3, 4), (5, 6), false, false));
    // Off the picture the stroke is only interrupted.
    assert!(image_stroke_segment(&mut last, stroke_input(None)).is_none());
    let erase = ImageStrokeInput { primary_down: false, secondary_down: true, ..stroke_input(Some((7, 7))) };
    assert_eq!(image_stroke_segment(&mut last, erase), Some(segment((5, 6), (7, 7), true, false)));
    let both = ImageStrokeInput { secondary_down: true, ..stroke_input(Some((8, 8))) };
    assert_eq!(image_stroke_segment(&mut last, both), Some(segment((7, 7), (8, 8), false, false)));
    let shift = ImageStrokeInput { shift: true, ..stroke_input(Some((9, 9))) };
    assert_eq!(image_stroke_segment(&mut last, shift), Some(segment((8, 8), (9, 9), true, true)));
    let zooming = ImageStrokeInput { zoom_modifier_down: true, ..stroke_input(Some((1, 1))) };
    assert!(image_stroke_segment(&mut last, zooming).is_none());
    assert_eq!(last, None);
    image_stroke_segment(&mut last, stroke_input(Some((2, 2))));
    let up = ImageStrokeInput { primary_down: false, ..stroke_input(Some((2, 2))) };
    assert!(image_stroke_segment(&mut last, up).is_none());
    assert_eq!(last, None);
}

#[test]
fn overlays_cover_pictures() {
    let clear = Color::transparent();
    let half = Color { r: 100, g: 0, b: 0, a: 128 };
    assert_eq!(cover(grey(1), clear), Cover::Keep);
    assert_eq!(cover(grey(1), grey(2)), Cover::Replace);
    assert_eq!(cover(clear, half), Cover::Replace);
    assert_eq!(cover(grey(1), half), Cover::Mix);
    let mut base = Raster { w: 4, h: 1, px: vec![grey(1), grey(1), clear, grey(1)] };
    let over = Raster { w: 4, h: 1, px: vec![clear, grey(2), half, half] };
    let mixed = filled(4, 1, grey(77));
    composite_source_over(&mut base, &over, &mixed);
    assert_eq!(base.px, vec![grey(1), grey(2), half, grey(77)]);
    composite_source_over(&mut base, &filled(2, 2, grey(9)), &mixed);
    assert_eq!(base.px, vec![grey(1), grey(2), half, grey(77)]);
}

#[test]
fn regions_are_cut_out_of_pages() {
    let mut px = Vec::new();
    for y in 0..4u8 {
        for x in 0..5u8 {
            px.push(Rgba { r: x * 10, g: y * 10, b: 0, a: 255 });
        }
    }
    let page = Raster { w: 5, h: 4, px };
    let cut = PageCut { x0: 1, y0: 2, x1: 4, y1: 4 };
    let img = region_base_image(&page, "p.png", rect(0, 0, 3, 2), (5, 4), cut).unwrap();
    assert_eq!((img.w, img.h), (3, 2));
    for y in 0..2usize {
        for x in 0..3usize {
            let want = Color { r: (x as u8 + 1) * 10, g: (y as u8 + 2) * 10, b: 0, a: 255 };
            assert_eq!(img.get(x, y), want);
        }
    }
    // A cut that is empty or leaves the page still has a pixel.
    let tiny = PageCut { x0: 2, y0: 1, x1: 2, y1: 1 };
    let one = region_base_image(&page, "p.png", rect(0, 0, 1, 1), (5, 4), tiny).unwrap();
    assert_eq!((one.w, one.h), (1, 1));
    assert_eq!(one.get(0, 0), Color { r: 20, g: 10, b: 0, a: 255 });
    let refused = region_base_image(&page, "p.png", rect(0, 0, 0, 1), (5, 4), cut);
    assert_eq!(refused.err().as_deref(), Some("Невалидный размер выделения региона."));
    let empty = Raster { w: 0, h: 0, px: Vec::new() };
    let refused = region_base_image(&empty, "p.png", rect(0, 0, 1, 1), (5, 4), cut);
    assert_eq!(refused.err().as_deref(), Some("Страница p.png имеет пустой размер."));
}

#[test]
fn translucent_page_pixels_are_premultiplied() {
    let page = Raster { w: 1, h: 1, px: vec![Rgba { r: 200, g: 100, b: 50, a: 128 }] };
    let cut = PageCut { x0: 0, y0: 0, x1: 1, y1: 1 };
    let img = region_base_image(&page, "p.png", rect(0, 0, 1, 1), (1, 1), cut).unwrap();
    let want = egui::Color32::from_rgba_unmultiplied(200, 100, 50, 128);
    let got = img.get(0, 0);
    assert_eq!([got.r, got.g, got.b, got.a], want.to_array());
    assert_ne!([got.r, got.g, got.b, got.a], [200, 100, 50, 128]);
}

#[test]
fn previews_have_the_alpha_of_the_formula() {
    for a in 0..=255u8 {
        let mask = filled(1, 1, Color { r: 0, g: 0, b: 0, a });
        let got = build_tinted_mask_preview(&mask, 255, 220, 0).get(0, 0);
        let want = if a == 0 {
            egui::Color32::TRANSPARENT
        } else {
            let alpha = ((a as f32) * 0.45).round().clamp(1.0, 255.0) as u8;
            egui::Color32::from_rgba_unmultiplied(255, 220, 0, alpha)
        };
        assert_eq!([got.r, got.g, got.b, got.a], want.to_array(), "{a}");
    }
}

#[test]
fn masks_follow_their_editor() {
    let e = session(6, 5);
    let s = RegionInpaintEditorState::ensure_editor_state(None, &e, true);
    assert_eq!((s.mask.w, s.mask.h), (6, 5));
    assert!(s.sample_mask.is_some());
    let mut kept = s;
    kept.mask.set(1, 1, grey(255));
    kept.processing = true;
    let kept = RegionInpaintEditorState::ensure_editor_state(Some(kept), &e, true);
    assert_eq!(kept.mask.get(1, 1), grey(255));
    assert!(kept.processing);
    // Another size clears the masks but keeps the work that is running.
    let grown = session(7, 5);
    let kept = RegionInpaintEditorState::ensure_editor_state(Some(kept), &grown, true);
    assert_eq!((kept.mask.w, kept.mask.h), (7, 5));
    assert!(kept.mask.px.iter().all(|c| *c == Color::transparent()));
    assert!(kept.processing);
    let fresh = RegionInpaintEditorState::ensure_editor_state(Some(kept), &grown, false);
    assert!(!fresh.processing && fresh.sample_mask.is_none());
}

#[test]
fn strokes_go_into_the_chosen_mask() {
    let mut s = RegionInpaintEditorState::new(0, 4, 4, true);
    s.mask_texture_dirty = false;
    s.sample_mask_texture_dirty = false;
    let a = s.mask_stroke(stroke_input(Some((1, 1)))).unwrap();
    assert_eq!(a.target, Some(RegionInpaintMaskTarget::Inpaint));
    assert!(s.mask_texture_dirty && !s.sample_mask_texture_dirty);
    s.active_mask_target = RegionInpaintMaskTarget::Sample;
    let b = s.mask_stroke(stroke_input(Some((2, 1)))).unwrap();
    assert_eq!(b.target, Some(RegionInpaintMaskTarget::Sample));
    assert_eq!(b.segment, segment((1, 1), (2, 1), false, false));
    assert!(s.sample_mask_texture_dirty);
    s.sample_mask = None;
    let c = s.mask_stroke(stroke_input(Some((3, 1)))).unwrap();
    assert_eq!(c.target, None);
    assert_eq!(s.last_drag_px, Some((3, 1)));
    s.sample_mask_enabled = false;
    let d = s.mask_stroke(stroke_input(Some((3, 2)))).unwrap();
    assert_eq!(d.target, Some(RegionInpaintMaskTarget::Inpaint));
}

#[test]
fn filling_in_can_be_taken_back_and_redone() {
    let mut e = session(3, 2);
    let mut s = RegionInpaintEditorState::new(5, 3, 2, false);
    s.mask.set(1, 0, grey(255));
    let source = s.run_processing(&mut e, false).unwrap();
    assert_eq!(source.mask.get(1, 0), grey(255));
    assert_eq!(status(&e), "Обработка в фоне...");
    assert!(s.run_processing(&mut e, false).is_none());
    assert_eq!(status(&e), "Обработка уже выполняется...");
    let done = ProcessingEvent::Done { source, result: Ok(filled(3, 2, grey(99))) };
    s.poll_processing_result(&mut e, done);
    assert_eq!(status(&e), "Обработка завершена.");
    assert_eq!(e.image.get(0, 0), grey(99));
    assert_eq!(s.mask.get(1, 0), Color::transparent());
    let b = s.buttons(true, true, RegionMaskGenerationMethod::Surya);
    assert!(b.rerun && b.undo && b.run && b.apply && b.generate_mask);
    // Going back restores the picture and the mask.
    assert!(s.undo_processing(&mut e));
    assert_eq!(status(&e), "Возврат к состоянию до обработки.");
    assert_eq!(e.image.get(0, 0), grey(10));
    assert_eq!(s.mask.get(1, 0), grey(255));
    assert!(!s.undo_processing(&mut e));
    assert_eq!(status(&e), "Нет состояния для отката.");
    let again = s.run_processing(&mut e, true).unwrap();
    assert_eq!(again.mask.get(1, 0), grey(255));
}

#[test]
fn failed_fills_are_told() {
    let mut e = session(3, 2);
    let mut s = RegionInpaintEditorState::new(5, 3, 2, false);
    assert!(s.run_processing(&mut e, true).is_none());
    assert_eq!(status(&e), "Нет сохранённого состояния для «Переделать».");
    let source = s.run_processing(&mut e, false).unwrap();
    let grown = ProcessingEvent::Done { source, result: Ok(filled(4, 2, grey(1))) };
    s.poll_processing_result(&mut e, grown);
    assert_eq!(status(&e), "Внимание: размер после обработки изменился (3x2 -> 4x2).");
    assert_eq!((s.mask.w, s.mask.h), (4, 2));
    let source = RegionInpaintRunSource {
        image: filled(3, 2, grey(1)),
        mask: filled(3, 2, grey(1)),
        sample_mask: None,
    };
    s.processing = true;
    s.poll_processing_result(
        &mut e,
        ProcessingEvent::Done { source, result: Err(String::from("no memory")) },
    );
    assert_eq!(status(&e), "Ошибка обработки: no memory");
    assert!(!s.processing);
    s.poll_processing_result(&mut e, ProcessingEvent::Disconnected);
    assert_eq!(status(&e), "Обработка прервана: фоновой поток завершился неожиданно.");
}

#[test]
fn generated_masks_have_to_fit() {
    let mut e = session(3, 2);
    let mut s = RegionInpaintEditorState::new(5, 3, 2, false);
    assert!(s.run_mask_generation(&mut e));
    assert_eq!(status(&e), "Генерация маски в фоне...");
    assert!(!s.run_mask_generation(&mut e));
    assert_eq!(status(&e), "Фоновая операция уже выполняется...");
    let b = s.buttons(true, true, RegionMaskGenerationMethod::PaddleOcr);
    assert!(!b.run && !b.generate_mask && !b.apply && !b.undo && !b.rerun);
    s.poll_mask_generation_result(&mut e, MaskGenerationEvent::Done(Ok(filled(2, 2, grey(3)))));
    assert_eq!(status(&e), "Ошибка генерации маски: backend вернул размер 2x2, ожидалось 3x2.");
    assert!(!s.generating);
    s.poll_mask_generation_result(&mut e, MaskGenerationEvent::Done(Ok(filled(3, 2, grey(3)))));
    assert_eq!(status(&e), "Маска сгенерирована.");
    assert_eq!(s.mask.get(2, 1), grey(3));
    s.poll_mask_generation_result(&mut e, MaskGenerationEvent::Done(Err(String::from("x"))));
    assert_eq!(status(&e), "Ошибка генерации маски: x");
    s.poll_mask_generation_result(&mut e, MaskGenerationEvent::Disconnected);
    assert_eq!(status(&e), "Генерация маски прервана: фоновой поток завершился неожиданно.");
    s.processing = true;
    s.cancel_background(&mut e);
    assert_eq!(status(&e), "Обработка отменена.");
    assert!(!s.processing);
    s.generating = true;
    s.cancel_background(&mut e);
    assert_eq!(status(&e), "Обработка отменена.");
    assert!(s.generating && !s.processing);
    assert!(!s.buttons(true, true, RegionMaskGenerationMethod::Surya).run);
    s.poll_mask_generation_result(&mut e, MaskGenerationEvent::Done(Ok(filled(3, 2, grey(5)))));
    assert_eq!(status(&e), "Маска сгенерирована.");
    assert_eq!(s.mask.get(0, 0), grey(5));
    s.cancel_background(&mut e);
    assert_eq!(status(&e), "Маска сгенерирована.");
}

#[test]
fn detected_masks_are_white_where_set() {
    let m = RegionMaskGenerationMethod::PaddleOcr;
    let img = mask_from_detection(m, 2, 2, (2, 2), &vec![0, 1, 255, 0]).unwrap();
    assert_eq!(
        img.px,
        vec![Color::transparent(), grey(255), grey(255), Color::transparent()]
    );
    assert_eq!(
        mask_from_detection(m, 2, 2, (3, 2), &vec![0; 6]).err().as_deref(),
        Some("PaddleOCR backend вернул размер маски 3x2, ожидалось 2x2.")
    );
    assert_eq!(
        mask_from_detection(RegionMaskGenerationMethod::Surya, 2, 2, (2, 2), &vec![0; 3])
            .err()
            .as_deref(),
        Some("Surya backend вернул некорректную длину маски: 3 вместо 4.")
    );
}

#[test]
fn detectors_need_their_backend() {
    let s = RegionInpaintEditorState::new(5, 3, 2, false);
    let ctd = RegionMaskGenerationMethod::ComicTextDetector;
    let ocr = RegionMaskGenerationMethod::PaddleOcr;
    assert_eq!((ctd.label(), ocr.label()), ("ComicTextDetector", "PaddleOCR"));
    assert!(!s.buttons(true, false, ctd).generate_mask);
    assert!(s.buttons(true, false, ocr).generate_mask);
    assert!(!s.buttons(false, true, ocr).generate_mask);
    assert_eq!(generate_mask_hint(false, true, ocr), "Недоступно: ИИ бэкенд не отвечает.");
    assert_eq!(generate_mask_hint(true, false, ctd), "PyTorch не установлен");
    assert!(generate_mask_hint(true, false, ocr).starts_with("Отправить текущий регион"));
}

#[test]
fn editors_greet_once() {
    let mut e = session(1, 1);
    greet_editor(&mut e);
    assert_eq!(status(&e), "Нарисуйте маску и нажмите «Обработать».");
    e.status = Some(String::from("busy"));
    greet_editor(&mut e);
    assert_eq!(status(&e), "busy");
}

#[test]
fn the_mask_tool_forwards_to_its_region() {
    let mut t = RegionMaskInpaintToolBase::new(Some(64));
    assert_eq!(t.mask_generation_params.dilate_size, 7);
    t.begin_selection(point(2, 0.0, 0.0), Some(corners(0, 0, 0, 0)));
    t.update_selection(point(2, 0.0, 0.0), Some(corners(0, 0, 10, 10)));
    assert_eq!(t.region_base.selection_rect, Some(rect(0, 0, 64, 64)));
    t.end_selection(Some(corners(0, 0, 10, 10)), None);
    assert!(t.region_base.pending_selection.is_some());
    t.set_ai_backend_available(true);
    t.set_ai_backend_torch_available(true);
    assert!(t.ai_backend_available && t.ai_backend_torch_available);
    t.editor_state = Some(RegionInpaintEditorState::new(0, 1, 1, false));
    t.cancel_selection();
    assert!(t.editor_state.is_none() && t.region_base.pending_selection.is_none());
    assert!(!t.has_open_editor());
}

#[test]
fn strokes_on_the_picture_leave_shift_to_the_tool() {
    let mut last = None;
    let shift = ImageStrokeInput { shift: true, ..stroke_input(Some((3, 4))) };
    let a = picture_stroke_segment(&mut last, shift);
    assert_eq!(a, Some(segment((3, 4), (3, 4), false, true)));
    let erase = ImageStrokeInput {
        primary_down: false,
        secondary_down: true,
        ..stroke_input(Some((5, 6)))
    };
    let b = picture_stroke_segment(&mut last, erase);
    assert_eq!(b, Some(segment((3, 4), (5, 6), true, false)));
    let mut e = session(2, 2);
    e.texture_dirty = false;
    e.segment_drawn(false);
    assert!(!e.texture_dirty);
    e.segment_drawn(true);
    assert!(e.texture_dirty);
}
