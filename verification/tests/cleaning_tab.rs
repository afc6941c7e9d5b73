//! The cleaning tab: its tools, its strokes and its background work.

use manga_editor::cleaning_tab::{
    canvas_pointer_occluded, should_hide_bubble, AiBackendHealth, CleaningTabState, HistoryKeys,
    Obstacles, PointerInput, PointerPlace, PointerRoute, StrokeAction, StrokeTracker, ToolButton,
    ToolGates, ToolInfo, ToolSwitch,
};
use manga_editor::color::{Color, ColorImage};
use manga_editor::jobs::{
    apply_quick_text_patch_to_overlay, binarize, load_text_masks_from_storage, page_not_opened,
    plan_tasks, resolve_quick_clean_mask_page, worker_count, MaskLoadEvent, MaskLoadJob,
    OverlaysAccess, ProjectPage, QuickCleanJob, QuickTextCleanJobEvent, SaveEvent, SaveJob,
    StoredMask,
};
use manga_editor::mask::{resize_color_image_nearest, text_detection_mask_file_path};
use manga_editor::overlay_rect::OverlayRectPx;
use manga_editor::quick_clean::{QuickTextCleanPageResult, TextMaskLoadPage};
use manga_editor::raster::Raster;
use manga_editor::strokes::{ScenePos, StrokeModifiers, StrokePoint};
use manga_editor::text_mask::{build_text_mask_tile_image, MaskDraw, TextMaskTextures};
use manga_editor::tiles::TileRect;
use manga_editor::zamazka::{
    sample_overlay_color, RectFill, ZamazkaAction, ZamazkaMode, ZamazkaTool,
};

fn grey(v: u8) -> Color {
    Color { r: v, g: v, b: v, a: 255 }
}

fn at(x: f32, y: f32) -> ScenePos {
    ScenePos { x: x.to_bits(), y: y.to_bits() }
}

fn point(page_idx: usize, x: f32, y: f32) -> StrokePoint {
    StrokePoint {
        page_idx,
        scene_pos: at(x, y),
        modifiers: StrokeModifiers { shift: false, ctrl: false },
    }
}

fn pressed(x: f32, y: f32) -> PointerInput {
    PointerInput {
        pointer: Some(at(x, y)),
        primary_pressed: false,
        primary_down: true,
        primary_released: false,
        secondary_pressed: false,
        shift: false,
        ctrl: false,
        command: false,
        z_down: false,
    }
}

fn on_page(page: usize) -> PointerPlace {
    PointerPlace { on_canvas: true, occluded: false, on_stroke_page: false, page_at: Some(page) }
}

fn open_gates() -> ToolGates {
    ToolGates {
        blocks_zoom: false,
        blocks_zoom_on_ctrl_primary: false,
        blocks_drag_on_primary: false,
        blocks_drag_on_secondary: false,
        space_pan_active: false,
    }
}

fn tab() -> CleaningTabState {
    let tool = |t: &str, torch: bool| ToolInfo { title: String::from(t), pytorch_required: torch };
    CleaningTabState::new(vec![
        tool("a", true),
        tool("b", false),
        tool("c", true),
        tool("d", false),
    ])
}

#[test]
fn strokes_begin_follow_and_restart() {
    let mut s = StrokeTracker::new();
    let o = s.handle_active_tool_input(pressed(1.0, 2.0), on_page(3), open_gates(), false, true);
    assert_eq!(o.action, StrokeAction::Begin(point(3, 1.0, 2.0)));
    assert!(o.repaint && s.active);
    assert_eq!(o.temporary_erase, Some(false));
    // The pointer rests.
    let o = s.handle_active_tool_input(pressed(1.0, 2.0), on_page(3), open_gates(), false, true);
    assert_eq!(o.action, StrokeAction::Nothing);
    assert!(!o.repaint);
    let o = s.handle_active_tool_input(pressed(4.0, 2.0), on_page(3), open_gates(), false, true);
    assert_eq!(
        o.action,
        StrokeAction::Update { from: point(3, 1.0, 2.0), to: point(3, 4.0, 2.0) }
    );
    let o = s.handle_active_tool_input(pressed(4.0, 9.0), on_page(5), open_gates(), false, true);
    assert_eq!(o.action, StrokeAction::Restart(point(5, 4.0, 9.0)));
    assert_eq!(s.page_idx, Some(5));
    // The page of the stroke is kept while the pointer is on it.
    let both = PointerPlace { on_stroke_page: true, ..on_page(3) };
    let o = s.handle_active_tool_input(pressed(5.0, 9.0), both, open_gates(), false, true);
    assert_eq!(
        o.action,
        StrokeAction::Update { from: point(5, 4.0, 9.0), to: point(5, 5.0, 9.0) }
    );
    let up = PointerInput { primary_down: false, primary_released: true, ..pressed(5.0, 9.0) };
    let o = s.handle_active_tool_input(up, both, open_gates(), false, true);
    assert!(o.stroke_ended && !s.active);
    assert_eq!(s, StrokeTracker::new());
}

#[test]
fn zero_has_one_position() {
    let mut s = StrokeTracker::new();
    s.advance(point(0, 0.0, 1.0), true, true, true);
    assert_eq!(s.advance(point(0, -0.0, 1.0), true, false, true), StrokeAction::Nothing);
    assert_ne!(s.advance(point(0, f32::NAN, 1.0), true, false, true), StrokeAction::Nothing);
}

#[test]
fn input_that_is_not_for_the_tool_ends_the_stroke() {
    let active = {
        let mut s = StrokeTracker::new();
        s.handle_active_tool_input(pressed(1.0, 2.0), on_page(3), open_gates(), false, true);
        s
    };
    let off = PointerPlace { on_canvas: false, ..on_page(3) };
    let under = PointerPlace { occluded: true, ..on_page(3) };
    let panning = ToolGates { space_pan_active: true, ..open_gates() };
    let zooming = PointerInput { z_down: true, ..pressed(2.0, 2.0) };
    for (i, place, gates) in [
        (pressed(2.0, 2.0), off, open_gates()),
        (pressed(2.0, 2.0), under, open_gates()),
        (pressed(2.0, 2.0), on_page(3), panning),
        (zooming, on_page(3), open_gates()),
    ] {
        assert_eq!(active.route_pointer(i, place, gates), PointerRoute::Finish);
        let mut s = active;
        let o = s.handle_active_tool_input(i, place, gates, false, true);
        assert!(o.stroke_ended && !s.active);
        assert_eq!(o.action, StrokeAction::Nothing);
    }
    let keeps = ToolGates { blocks_zoom_on_ctrl_primary: true, ..open_gates() };
    assert!(matches!(active.route_pointer(zooming, on_page(3), keeps), PointerRoute::Tool(_)));
    let nowhere = PointerPlace { page_at: None, ..on_page(3) };
    assert_eq!(active.route_pointer(pressed(2.0, 2.0), nowhere, open_gates()), PointerRoute::Ignore);
    let gone = PointerInput { pointer: None, ..pressed(0.0, 0.0) };
    assert_eq!(active.route_pointer(gone, on_page(3), open_gates()), PointerRoute::Ignore);
}

#[test]
fn a_taken_secondary_click_goes_no_further() {
    let click = PointerInput { secondary_pressed: true, ..pressed(1.0, 2.0) };
    let mut s = StrokeTracker::new();
    let o = s.handle_active_tool_input(click, on_page(3), open_gates(), true, true);
    assert_eq!(o.secondary_click, Some(point(3, 1.0, 2.0)));
    assert_eq!(o.action, StrokeAction::Nothing);
    assert!(o.repaint && !s.active);
    let o = s.handle_active_tool_input(click, on_page(3), open_gates(), false, true);
    assert!(s.active);
    assert_eq!(o.action, StrokeAction::Begin(point(3, 1.0, 2.0)));
    // A tool that does not want the stroke gets none.
    let mut s = StrokeTracker::new();
    let o = s.handle_active_tool_input(pressed(1.0, 2.0), on_page(3), open_gates(), false, false);
    assert_eq!(o.action, StrokeAction::Nothing);
    assert!(!s.active);
    assert!(s.asks_tool(true, false) && !s.asks_tool(false, true));
}

#[test]
fn tools_need_their_backend() {
    let mut t = tab();
    assert_eq!(t.active_tool_idx, 0);
    assert!(!t.tool_available(0) && t.tool_available(1) && !t.tool_available(9));
    assert_eq!(t.first_available_tool_idx(), Some(1));
    let s = t.ensure_active_tool_available();
    assert_eq!(s, Some(ToolSwitch { stroke_ended: false, from: 0, to: 1 }));
    assert_eq!(t.ensure_active_tool_available(), None);
    t.set_ai_backend_health(AiBackendHealth { connected: false, is_torch_available: None });
    assert!(!t.ai_backend_available() && t.ai_backend_torch_available());
    assert!(t.tool_available(0));
    t.set_ai_backend_health(AiBackendHealth { connected: true, is_torch_available: Some(false) });
    assert!(t.ai_backend_available() && !t.ai_backend_torch_available());
}

#[test]
fn tool_buttons_stand_in_rows() {
    let t = tab();
    let rows = t.tool_button_rows(&vec![0, 1, 2, 3, 9]);
    let b = |idx: usize, available: bool| ToolButton { idx, available };
    assert_eq!(
        rows,
        vec![vec![b(0, false), b(1, true), b(2, false)], vec![b(3, true)]]
    );
    assert!(t.tool_button_rows(&Vec::new()).is_empty());
}

#[test]
fn switching_tools_ends_the_stroke() {
    let mut t = tab();
    t.stroke.advance(point(0, 1.0, 1.0), true, true, true);
    assert_eq!(t.activate_tool(77), None);
    assert!(t.stroke.active);
    assert_eq!(t.activate_tool(3), Some(ToolSwitch { stroke_ended: true, from: 0, to: 3 }));
    assert_eq!(t.stroke, StrokeTracker::new());
}

#[test]
fn the_canvas_waits_for_the_tool() {
    let mut t = tab();
    let quiet = PointerInput { primary_down: false, ..pressed(0.0, 0.0) };
    let g = t.canvas_gates(quiet, false, false, open_gates());
    assert!(!g.wheel_scroll_blocked && !g.zoom_blocked && !g.drag_scroll_blocked);
    let own = ToolGates {
        blocks_zoom_on_ctrl_primary: true,
        blocks_drag_on_primary: true,
        ..open_gates()
    };
    let ctrl = PointerInput { ctrl: true, ..pressed(0.0, 0.0) };
    let g = t.canvas_gates(ctrl, false, true, own);
    assert!(g.wheel_scroll_blocked && g.zoom_blocked && g.drag_scroll_blocked);
    assert!(!g.throttle_uploads);
    t.stroke.advance(point(0, 1.0, 1.0), true, true, true);
    let g = t.canvas_gates(quiet, false, false, open_gates());
    assert!(g.wheel_scroll_blocked && g.zoom_blocked && g.throttle_uploads);
    let keeps = ToolGates { blocks_zoom: true, ..open_gates() };
    assert!(!t.zoom_allowed(keeps) && t.zoom_allowed(open_gates()));
}

#[test]
fn keys_and_wheels_find_the_tool() {
    let mut t = tab();
    let none = HistoryKeys { redo: false, undo: false };
    assert_eq!(t.history_keys(false, open_gates(), true, true), none);
    t.set_overlays_model();
    assert_eq!(
        t.history_keys(false, open_gates(), true, false),
        HistoryKeys { redo: true, undo: false }
    );
    assert_eq!(t.history_keys(true, open_gates(), true, true), none);
    let hover = PointerInput { primary_down: false, ..pressed(0.0, 0.0) };
    assert!(t.hotkeys_reach_tool(false, hover, on_page(0)));
    assert!(!t.hotkeys_reach_tool(true, hover, on_page(0)));
    let z = PointerInput { z_down: true, ..hover };
    assert!(!t.hotkeys_reach_tool(false, z, on_page(0)));
    let shift = PointerInput { shift: true, ..hover };
    let (x, y) = (3.0f32.to_bits(), (-2.0f32).to_bits());
    let none = 0.0f32.to_bits();
    assert_eq!(t.wheel_for_tool(shift, on_page(0), false, x, y), Some(y));
    assert_eq!(t.wheel_for_tool(shift, on_page(0), false, x, none), Some(x));
    assert_eq!(t.wheel_for_tool(shift, on_page(0), false, none, none), None);
    assert_eq!(t.wheel_for_tool(hover, on_page(0), false, x, y), None);
    assert_eq!(t.wheel_for_tool(hover, on_page(0), true, x, y), Some(y));
    assert!(t.toggle_quick_clean_panel());
    assert!(!t.toggle_quick_clean_panel());
    t.quick_clean_spread_radius_px = -3;
    assert_eq!(t.spread_radius(), 0);
    t.quick_clean_spread_radius_px = 500;
    assert_eq!(t.spread_radius(), 128);
    assert!(!t.needs_repaint(false, false) && t.needs_repaint(true, false));
}

#[test]
fn pointers_can_be_covered() {
    let free = Obstacles {
        popup_open: false,
        scrollbar: false,
        tool_captures: false,
        covering_layer: false,
    };
    assert!(!canvas_pointer_occluded(free, &vec![false, false]));
    assert!(canvas_pointer_occluded(free, &vec![false, true]));
    assert!(canvas_pointer_occluded(Obstacles { covering_layer: true, ..free }, &Vec::new()));
    assert!(canvas_pointer_occluded(Obstacles { popup_open: true, ..free }, &Vec::new()));
    assert!(should_hide_bubble(Some(2), 2, true));
    assert!(!should_hide_bubble(Some(2), 3, true));
    assert!(!should_hide_bubble(None, 2, true));
    assert!(!should_hide_bubble(Some(2), 2, false));
}

fn project() -> Vec<ProjectPage> {
    vec![
        ProjectPage { idx: 0, path: String::from("p/0.png") },
        ProjectPage { idx: 7, path: String::from("p/7.png") },
    ]
}

#[test]
fn quick_cleans_are_planned_for_known_pages() {
    let tasks = plan_tasks(&vec![7, 3, 0], &project(), "masks");
    assert_eq!(tasks.len(), 2);
    assert_eq!((tasks[0].page_idx, tasks[0].page_path.as_str()), (7, "p/7.png"));
    assert_eq!(tasks[0].mask_path, "masks/00007_mask.png");
    assert_eq!(tasks[1].mask_path, "masks/00000_mask.png");
    assert_eq!(text_detection_mask_file_path("m/", 123456), "m/123456_mask.png");
    assert_eq!(text_detection_mask_file_path("", 1), "00001_mask.png");
    assert_eq!(worker_count(Some(8), 3), 3);
    assert_eq!(worker_count(Some(8), 30), 7);
    assert_eq!(worker_count(Some(1), 30), 1);
    assert_eq!(worker_count(None, 30), 1);
    assert_eq!(worker_count(Some(4), 0), 1);
}

#[test]
fn quick_cleans_refuse_what_they_cannot_do() {
    let mut j = QuickCleanJob::new();
    assert!(j.start_quick_text_clean_job(&Vec::new(), true, &project(), "m").is_none());
    assert_eq!(j.status_text.as_deref(), Some("Нет страниц для обработки."));
    assert!(j.start_quick_text_clean_job(&vec![0], false, &project(), "m").is_none());
    assert_eq!(
        j.status_text.as_deref(),
        Some("Быстрый клин недоступен: модель оверлеев не подключена.")
    );
    assert!(j.start_quick_text_clean_job(&vec![5], true, &project(), "m").is_none());
    assert_eq!(j.status_text.as_deref(), Some("Нет доступных страниц для обработки."));
    assert!(!j.in_progress);
    let tasks = j.start_quick_text_clean_job(&vec![0, 7], true, &project(), "m").unwrap();
    assert_eq!(tasks.len(), 2);
    assert!(j.in_progress);
    assert_eq!(j.status_text.as_deref(), Some("Запущен быстрый клин..."));
    assert!(j.start_quick_text_clean_job(&vec![0], true, &project(), "m").is_none());
}

fn page_result(page_idx: usize) -> QuickTextCleanPageResult {
    QuickTextCleanPageResult {
        page_idx,
        patch: None,
        regions_total: 5,
        regions_filled: 3,
        regions_skipped: 2,
        error: None,
        missing_mask: false,
    }
}

#[test]
fn quick_cleans_count_their_pages() {
    let mut j = QuickCleanJob::new();
    assert!(j.progress.lines().is_none());
    j.start_quick_text_clean_job(&vec![0, 7], true, &project(), "m");
    j.poll_quick_text_clean_job(QuickTextCleanJobEvent::Started { total_pages: 3 });
    assert_eq!(
        j.status_text.as_deref(),
        Some("Быстрый клин: чтение страниц и анализ маски...")
    );
    let mut with_patch = page_result(7);
    with_patch.patch = Some(Raster::filled(1, 1, grey(4)));
    let patch = j.poll_quick_text_clean_job(QuickTextCleanJobEvent::PageProcessed(with_patch));
    assert_eq!(patch.map(|p| p.0), Some(7));
    assert_eq!(
        j.status_text.as_deref(),
        Some("Быстрый клин: страница 7 обработана (областей: 5, заполнено: 3, пропущено: 2).")
    );
    let failed = page_not_opened(0, "p/0.png", "gone");
    assert_eq!(failed.error.as_deref(), Some("Не удалось открыть страницу p/0.png: gone"));
    j.poll_quick_text_clean_job(QuickTextCleanJobEvent::PageProcessed(failed));
    let mut unmasked = page_result(1);
    unmasked.missing_mask = true;
    unmasked.regions_total = 0;
    unmasked.regions_filled = 0;
    unmasked.regions_skipped = 0;
    j.poll_quick_text_clean_job(QuickTextCleanJobEvent::PageProcessed(unmasked));
    let lines = j.progress.lines().unwrap();
    assert_eq!(lines.pages, "Страницы: 3/3");
    assert_eq!(
        lines.regions,
        "Области: заполнено 3, пропущено 2, ошибок страниц 1, без маски 1"
    );
    j.poll_quick_text_clean_job(QuickTextCleanJobEvent::Finished);
    assert!(!j.in_progress);
    assert_eq!(
        j.status_text.as_deref(),
        Some(
            "Быстрый клин завершён: страниц 3/3, заполнено областей 3, пропущено 2, ошибок 1, \
             без маски 1."
        )
    );
    j.poll_quick_text_clean_job(QuickTextCleanJobEvent::Disconnected);
    assert_eq!(j.status_text.as_deref(), Some("Быстрый клин прерван: канал job закрыт."));
}

#[test]
fn patches_are_laid_over_overlays() {
    let clear = Color::transparent();
    let patch = Raster { w: 2, h: 1, px: vec![clear, grey(9)] };
    let out = apply_quick_text_patch_to_overlay(None, &patch).unwrap();
    assert_eq!(out.px, vec![clear, grey(9)]);
    let base: ColorImage = Raster { w: 2, h: 1, px: vec![grey(1), grey(2)] };
    let out = apply_quick_text_patch_to_overlay(Some(base), &patch).unwrap();
    assert_eq!(out.px, vec![grey(1), grey(9)]);
    // A second time changes nothing more.
    let again = apply_quick_text_patch_to_overlay(Some(out), &patch).unwrap();
    assert_eq!(again.px, vec![grey(1), grey(9)]);
    // An overlay of another size is brought to that of the patch.
    let wide: ColorImage = Raster { w: 4, h: 1, px: vec![grey(1), grey(2), grey(3), grey(4)] };
    let want = resize_color_image_nearest(&wide, 2, 1).px[0];
    let out = apply_quick_text_patch_to_overlay(Some(wide), &patch).unwrap();
    assert_eq!(out.px, vec![want, grey(9)]);
    let empty = Raster { w: 0, h: 0, px: Vec::new() };
    assert!(apply_quick_text_patch_to_overlay(None, &empty).is_none());
    let unseen = Raster { w: 1, h: 1, px: vec![clear] };
    assert!(apply_quick_text_patch_to_overlay(None, &unseen).is_none());
}

#[test]
fn stored_masks_are_sorted_out() {
    assert_eq!(binarize(&vec![0, 1, 200]), vec![0, 255, 255]);
    let found = vec![
        StoredMask::Picture { w: 1, h: 2, luma: vec![0, 4] },
        StoredMask::Missing,
        StoredMask::Unreadable,
        StoredMask::Picture { w: 0, h: 2, luma: Vec::new() },
    ];
    let r = load_text_masks_from_storage(&vec![5, 6, 7, 8], &found);
    assert_eq!((r.loaded, r.missing, r.failed), (1, 1, 2));
    assert_eq!(r.pages.len(), 1);
    assert_eq!((r.pages[0].page_idx, r.pages[0].mask_size), (5, (1, 2)));
    assert_eq!(r.pages[0].mask_alpha, vec![0, 255]);
    let held = TextMaskLoadPage { page_idx: 5, mask_size: (1, 1), mask_alpha: vec![7] };
    let m = resolve_quick_clean_mask_page(5, Some(held), &found[0]).unwrap();
    assert_eq!(m.mask_alpha, vec![7]);
    let m = resolve_quick_clean_mask_page(5, None, &found[0]).unwrap();
    assert_eq!(m.mask_alpha, vec![0, 255]);
    assert!(resolve_quick_clean_mask_page(5, None, &found[1]).is_none());
    assert!(resolve_quick_clean_mask_page(5, None, &found[2]).is_none());
    assert!(resolve_quick_clean_mask_page(5, None, &found[3]).is_none());
}

#[test]
fn masks_are_loaded_for_the_pages_without_one() {
    let mut j = MaskLoadJob::new();
    assert!(j.start_text_mask_load_job_if_needed(false, &project(), &Vec::new()).is_none());
    assert_eq!(j.status, None);
    assert!(j.start_text_mask_load_job_if_needed(true, &project(), &vec![7, 0]).is_none());
    assert_eq!(j.status.as_deref(), Some("Маска уже загружена."));
    let missing = j.start_text_mask_load_job_if_needed(true, &project(), &vec![0]).unwrap();
    assert_eq!(missing, vec![7]);
    assert_eq!(j.status.as_deref(), Some("Пробую загрузить маску из text_detection..."));
    assert!(j.start_text_mask_load_job_if_needed(true, &project(), &vec![0]).is_none());
    j.poll_text_mask_load_job(MaskLoadEvent::Loaded { applied: 1, loaded: 2, missing: 3, failed: 4 });
    assert!(!j.in_progress);
    assert_eq!(
        j.status.as_deref(),
        Some("Загрузка маски: загружено 1/9 (в хранилище: 2, пропущено: 3, ошибок: 4).")
    );
    j.poll_text_mask_load_job(MaskLoadEvent::Failed(String::from("x")));
    assert_eq!(j.status.as_deref(), Some("Ошибка загрузки маски: x"));
    j.poll_text_mask_load_job(MaskLoadEvent::Disconnected);
    assert_eq!(j.status.as_deref(), Some("Загрузка маски прервана: канал закрыт."));
}

#[test]
fn saving_tells_how_it_went() {
    let mut j = SaveJob::new();
    assert!(!j.start_save_job(OverlaysAccess::NotConnected));
    assert_eq!(
        j.status_text.as_deref(),
        Some("Сохранение недоступно: модель оверлеев не подключена.")
    );
    assert!(!j.start_save_job(OverlaysAccess::Locked));
    assert_eq!(j.status_text.as_deref(), Some("Не удалось получить lock модели оверлеев."));
    assert!(j.start_save_job(OverlaysAccess::Ready));
    assert_eq!(j.status_text.as_deref(), Some("Сохранение клина..."));
    assert!(!j.start_save_job(OverlaysAccess::Ready));
    j.poll_save_job(SaveEvent::Saved);
    assert!(!j.in_progress);
    assert_eq!(j.status_text.as_deref(), Some("Клин сохранён в папку clean_layers."));
    j.poll_save_job(SaveEvent::Failed(String::from("disk")));
    assert_eq!(j.status_text.as_deref(), Some("Ошибка сохранения клина: disk"));
    j.poll_save_job(SaveEvent::Disconnected);
    assert_eq!(j.status_text.as_deref(), Some("Сохранение прервано: канал закрыт."));
}

#[test]
fn mask_tiles_are_red_and_translucent() {
    let alpha: Vec<u8> = vec![0, 255, 128, 1, 2, 3];
    let img = build_text_mask_tile_image(3, &alpha, TileRect { x: 1, y: 0, w: 2, h: 2 });
    let red = |a: u8| Color { r: a, g: 0, b: 0, a };
    let shown = |v: u8| (v as u16 * 96 / 255) as u8;
    assert_eq!(img.px, vec![red(96), red(shown(128)), red(shown(2)), red(shown(3))]);
    // Pixels that are not stored are clear.
    let img = build_text_mask_tile_image(3, &alpha, TileRect { x: 0, y: 2, w: 1, h: 1 });
    assert_eq!(img.px, vec![red(0)]);
}

#[test]
fn uploaded_masks_are_kept_and_evicted() {
    let mut t = TextMaskTextures::new();
    assert_eq!(t.plan_draw(4, 10, 20, 199, false), MaskDraw::Nothing);
    assert_eq!(t.plan_draw(4, 0, 20, 0, false), MaskDraw::Nothing);
    assert_eq!(t.plan_draw(4, 10, 20, 200, false), MaskDraw::Rebuild);
    t.put_page(4, (10, 20), false, 1);
    t.put_page(9, (1030, 2), false, 1);
    assert_eq!(t.plan_draw(4, 10, 20, 200, false), MaskDraw::Draw);
    assert_eq!(t.plan_draw(4, 10, 20, 200, true), MaskDraw::Rebuild);
    assert_eq!(t.plan_draw(4, 20, 10, 200, false), MaskDraw::Rebuild);
    t.touch(4, 33);
    let snap = t.cleaning_mask_gpu_memory_snapshot(&vec![9]);
    assert_eq!(snap.len(), 2);
    assert_eq!(snap[0].id, "cleaning-mask-gpu:4");
    assert_eq!((snap[0].estimated_bytes, snap[0].last_used_frame), (800, 33));
    assert!(!snap[0].visible && snap[1].visible && snap[0].reconstructable && !snap[0].dirty);
    assert_eq!(snap[1].estimated_bytes, 1030 * 2 * 4);
    let mut candidates = t.cleaning_mask_gpu_memory_snapshot(&Vec::new());
    candidates.extend(t.cleaning_mask_gpu_memory_snapshot(&Vec::new()));
    candidates.retain(|r| r.page_idx == 4);
    let report = t.evict_cleaning_mask_gpu_cache(candidates);
    assert_eq!((report.resources.len(), report.estimated_freed_bytes), (1, 800));
    assert_eq!(t.pages.len(), 1);
    assert_eq!(t.sync_revision(3, 3), 3);
    assert_eq!(t.pages.len(), 1);
    assert_eq!(t.sync_revision(3, 4), 4);
    assert!(t.pages.is_empty());
}

#[test]
fn a_new_mask_model_drops_old_uploads() {
    let mut t = tab();
    t.text_mask_textures.put_page(1, (2, 2), false, 0);
    t.text_mask_synced_revision = 9;
    t.mask_load.status = Some(String::from("old"));
    t.set_text_mask_model();
    assert!(t.text_mask_textures.pages.is_empty());
    assert_eq!((t.text_mask_synced_revision, t.mask_load.status.as_deref()), (0, None));
}

fn with_keys(shift: bool, ctrl: bool) -> StrokePoint {
    StrokePoint { modifiers: StrokeModifiers { shift, ctrl }, ..point(2, 1.0, 1.0) }
}

#[test]
fn the_paint_over_tool_sorts_its_strokes() {
    let mut t = ZamazkaTool::new();
    assert_eq!(t.mode.title(), "Кисть");
    assert_eq!(t.color, Color { r: 255, g: 0, b: 0, a: 255 });
    assert_eq!(t.stroke_begin(with_keys(false, false)), ZamazkaAction::Scratch { erase: false });
    assert_eq!(t.stroke_begin(with_keys(true, false)), ZamazkaAction::Scratch { erase: true });
    t.temporary_erase = true;
    assert!(t.effective_erase(with_keys(false, false)));
    t.temporary_erase = false;
    t.mode = ZamazkaMode::Eyedropper;
    assert_eq!(t.stroke_begin(with_keys(false, false)), ZamazkaAction::Sample);
    assert_eq!(t.stroke_begin(with_keys(false, true)), ZamazkaAction::Rect);
    assert_eq!(t.stroke_update(point(2, 1.0, 1.0), point(2, 5.0, 5.0)), ZamazkaAction::Rect);
    let c = t.stroke_end();
    assert_eq!(
        c.rect,
        Some(RectFill { start: with_keys(false, true), end: point(2, 5.0, 5.0), fill: t.color })
    );
    assert!(t.rect_start.is_none() && t.rect_current.is_none());
    // Control and Shift erase, and so does the rectangle mode where it is set to.
    t.stroke_begin(with_keys(true, true));
    assert_eq!(t.commit_rect().map(|r| r.fill), Some(Color::transparent()));
    t.deactivate();
    t.mode = ZamazkaMode::Rect;
    t.rect_erase = true;
    t.stroke_begin(with_keys(false, false));
    assert_eq!(t.commit_rect().map(|r| r.fill), Some(Color::transparent()));
    t.stroke_update(point(2, 1.0, 1.0), point(3, 5.0, 5.0));
    assert!(t.stroke_end().rect.is_none());
    t.brush_base.set_space_pan_active(true);
    assert_eq!(t.stroke_begin(with_keys(false, false)), ZamazkaAction::Nothing);
    assert!(!t.secondary_click() && !t.brush_shown());
    assert!(t.gates().space_pan_active && !t.gates().blocks_drag_on_primary);
}

#[test]
fn strokes_without_a_scratch_picture_touch_their_page() {
    let mut t = ZamazkaTool::new();
    let a = t.stroke_update(point(2, 1.0, 1.0), point(2, 2.0, 1.0));
    assert_eq!(a, ZamazkaAction::Direct { erase: false });
    t.stroke_update(point(2, 2.0, 1.0), point(2, 3.0, 1.0));
    assert_eq!(t.touched_pages, vec![2]);
    let overlay = Raster::filled(10, 10, grey(1));
    t.brush_base.begin_scratch_stroke(4, &overlay, OverlayRectPx { x: 0, y: 0, w: 10, h: 10 });
    let a = t.stroke_update(point(4, 1.0, 1.0), point(4, 2.0, 1.0));
    assert_eq!(a, ZamazkaAction::Scratch { erase: false });
    // The scratch picture refuses: the rest is painted directly.
    assert!(t.leave_scratch(4).is_none());
    assert!(!t.brush_base.scratch_active());
    let c = t.stroke_end();
    assert_eq!(c.pages, vec![2, 4]);
    assert!(t.touched_pages.is_empty() && c.scratch.is_none() && c.rect.is_none());
}

#[test]
fn colours_are_taken_from_overlay_or_page() {
    let clear = Color::transparent();
    let overlay = Raster { w: 2, h: 1, px: vec![clear, grey(5)] };
    assert_eq!(sample_overlay_color(&overlay, 0, 0), None);
    assert_eq!(sample_overlay_color(&overlay, 1, 0), Some(grey(5)));
    assert_eq!(sample_overlay_color(&overlay, 9, 9), None);
    let mut t = ZamazkaTool::new();
    let red = t.color;
    assert!(!t.sample_color(None, None));
    assert_eq!(t.color, red);
    assert!(t.sample_color(None, Some(grey(8))));
    assert_eq!(t.color, grey(8));
    assert!(t.sample_color(Some(grey(5)), Some(grey(8))));
    assert_eq!(t.color, grey(5));
}

#[test]
fn page_pictures_are_asked_for_once() {
    let mut t = ZamazkaTool::new();
    assert_eq!(t.base_request(3, &project()), None);
    assert_eq!(t.base_request(7, &project()).as_deref(), Some("p/7.png"));
    t.queue_base_image_load_if_needed(7, false);
    assert!(t.needs_base_image(7));
    t.queue_base_image_load_if_needed(7, true);
    assert!(!t.needs_base_image(7));
    assert_eq!(t.base_request(7, &project()), None);
    assert_eq!(t.sample_base_color_from_cache(7, 0, 0), None);
    t.poll_base_image(7, None);
    assert!(t.needs_base_image(7));
    t.poll_base_image(7, Some(Raster { w: 2, h: 1, px: vec![grey(1), grey(2)] }));
    assert!(!t.needs_base_image(7));
    assert_eq!(t.sample_base_color_from_cache(7, 1, 0), Some(grey(2)));
    t.poll_base_image(7, Some(Raster { w: 0, h: 0, px: Vec::new() }));
    assert_eq!(t.sample_base_color_from_cache(7, 0, 0), None);
    assert_eq!(t.base_images.len(), 1);
}

#[test]
fn opacity_keeps_the_hue() {
    let mut t = ZamazkaTool::new();
    t.color = Color::from_rgba_unmultiplied(10, 200, 30, 255);
    t.set_alpha(128);
    let want = egui::Color32::from_rgba_unmultiplied(10, 200, 30, 128);
    assert_eq!([t.color.r, t.color.g, t.color.b, t.color.a], want.to_array());
    let back = t.color.to_srgba_unmultiplied();
    assert_eq!([back.r, back.g, back.b, back.a], want.to_srgba_unmultiplied());
    assert_ne!([back.r, back.g, back.b], [t.color.r, t.color.g, t.color.b]);
}
