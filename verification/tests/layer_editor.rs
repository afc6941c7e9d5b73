//! The state of the layer editor: turning pages, storing them and taking views over.

use manga_editor::bands::Band;
use manga_editor::canvas::OpacityStart;
use manga_editor::color::{Color, ColorImage};
use manga_editor::doc_sync::Generation;
use manga_editor::edit_op::PsEditOpError;
use manga_editor::ident::uid_to_string;
use manga_editor::layer_doc::{layer_to_raster_node, DocPage};
use manga_editor::layers::LayerKind;
use manga_editor::page_session::{LoadDecision, PagePoint, PageRequest};
use manga_editor::panel::{GroupOp, GroupOutcome, RowSel};
use manga_editor::ps_tab::{LoadedPage, PsEditorTabState};
use manga_editor::raster::Raster;
use manga_editor::raster_edits::HistoryOutcome;

const WHITE: Color = Color { r: 255, g: 255, b: 255, a: 255 };
const CLEAR: Color = Color { r: 0, g: 0, b: 0, a: 0 };
const ONE: u32 = 0x3F80_0000;

fn filled(w: usize, h: usize, c: Color) -> ColorImage {
    Raster { w, h, px: vec![c; w * h] }
}

fn loaded() -> LoadedPage {
    LoadedPage { w: 2, h: 3, source: filled(2, 3, WHITE), clean: filled(2, 3, CLEAR) }
}

/// An editor that shows page 4 of the pages 4 and 7.
fn editor() -> PsEditorTabState {
    let mut t = PsEditorTabState::new();
    t.session.has_loader = true;
    assert_eq!(t.request_page(&vec![4, 7], 4, true), PageRequest::Load { job_id: 1 });
    let d = t.poll_loader(1, 4, Ok(loaded()), 9, Vec::new(), Vec::new());
    assert_eq!(d, LoadDecision::Show);
    t
}

#[test]
fn a_new_editor_has_no_page() {
    let t = PsEditorTabState::new();
    assert_eq!(t.current_page(), None);
    assert!(t.stack.is_none());
    assert!(t.persist_current_page().is_none());
    assert!(t.flush_layers_if_dirty().is_none());
    assert!(!t.session.has_loader);
    assert_eq!((t.session.next_job_id, t.session.pending_job_id), (1, None));
    assert_eq!((t.session.last_overlay_revision, t.session.last_doc_version), (0, 0));
    assert!(t.session.load_error.is_none() && t.session.pending_camera.is_none());
}

#[test]
fn a_loaded_page_has_its_two_base_layers() {
    let t = editor();
    assert_eq!(t.current_page(), Some(4));
    assert_eq!(t.session.last_overlay_revision, 9);
    let s = t.stack.as_ref().expect("a page");
    assert_eq!((s.page_idx, s.w, s.h), (4, 2, 3));
    let kinds: Vec<LayerKind> = s.layers.iter().map(|l| l.kind).collect();
    assert_eq!(kinds, vec![LayerKind::Source, LayerKind::Clean]);
    assert_eq!(s.layers[0].name, "Исходник");
    assert_eq!(s.layers[1].name, "Клин");
    assert_eq!(s.active, s.layers[1].id);
    let size = t.page_sizes.get(4).expect("a size");
    assert_eq!((size.w, size.h), (2, 3));
}

#[test]
fn loading_forgets_what_was_selected() {
    let mut t = editor();
    t.panel.selected = vec![RowSel::Raster(3)];
    t.panel.anchor = Some(RowSel::Raster(3));
    t.panel.primary = Some(RowSel::Raster(3));
    t.node_generations = vec![
        Generation { page_idx: 4, uid: "a".to_string(), generation: 1 },
        Generation { page_idx: 7, uid: "b".to_string(), generation: 2 },
    ];
    assert_eq!(t.request_page(&vec![4, 7], 7, true), PageRequest::Load { job_id: 2 });
    let bands = vec![Band::Raster { uid: "b".to_string(), z: 0 }];
    assert_eq!(t.poll_loader(2, 7, Ok(loaded()), 0, Vec::new(), bands), LoadDecision::Show);
    assert!(t.panel.selected.is_empty());
    assert!(t.panel.anchor.is_none() && t.panel.primary.is_none());
    assert!(t.selection.is_none());
    assert_eq!(t.bands.len(), 1);
    assert_eq!(t.node_generations.len(), 1);
    assert_eq!(t.node_generations[0].uid, "b");
}

#[test]
fn only_the_page_asked_for_last_is_shown() {
    let mut t = editor();
    assert_eq!(t.request_page(&vec![4, 7], 7, true), PageRequest::Load { job_id: 2 });
    assert_eq!(t.request_page(&vec![4, 7], 4, true), PageRequest::Load { job_id: 3 });
    let d = t.poll_loader(2, 7, Ok(loaded()), 0, Vec::new(), Vec::new());
    assert_eq!(d, LoadDecision::Stale);
    assert_eq!(t.session.active_page_idx, Some(4));
    assert_eq!(t.session.pending_job_id, Some(3));
}

#[test]
fn a_failed_load_keeps_the_page() {
    let mut t = editor();
    t.request_page(&vec![4, 7], 7, true);
    let d = t.poll_loader(2, 7, Err("нет файла".to_string()), 0, Vec::new(), Vec::new());
    assert_eq!(d, LoadDecision::Failed);
    assert_eq!(t.session.load_error.as_deref(), Some("нет файла"));
    assert_eq!(t.stack.as_ref().map(|s| s.page_idx), Some(4));
}

#[test]
fn leaving_a_page_ends_its_gestures() {
    let mut t = editor();
    t.gestures.opacity = Some(OpacityStart { id: 3, opacity: ONE });
    assert_eq!(t.request_page(&vec![4, 7], 5, true), PageRequest::Unknown);
    assert!(t.gestures.opacity.is_some());
    t.request_page(&vec![4, 7], 7, true);
    assert!(t.gestures.opacity.is_none());
}

#[test]
fn leaving_a_page_without_a_loader_still_leaves_it() {
    let mut t = editor();
    t.session.has_loader = false;
    t.gestures.opacity = Some(OpacityStart { id: 3, opacity: ONE });
    t.layers_dirty = true;
    assert_eq!(t.request_page(&vec![4, 7], 7, true), PageRequest::NoLoader);
    assert!(t.gestures.opacity.is_none());
    assert!(!t.layers_dirty);
    assert_eq!(t.session.pending_job_id, None);
}

#[test]
fn a_stored_page_is_clean() {
    let mut t = editor();
    let id = t.stack.as_mut().expect("a page").add_raster_layer(77);
    t.stack.as_mut().expect("a page").layer_mut(id).expect("a layer").pixels_dirty = true;
    t.deleted.insert(4, "gone".to_string());
    t.deleted.insert(7, "other".to_string());
    t.layers_dirty = true;
    let job = t.flush_layers_if_dirty().expect("a job");
    assert_eq!(job.page_idx, 4);
    assert_eq!(job.layers.len(), 1);
    assert!(job.layers[0].pixels_dirty);
    assert_eq!(job.removed_uids, vec!["gone".to_string()]);
    t.page_persisted(false);
    assert!(t.flush_layers_if_dirty().is_some());
    t.page_persisted(true);
    assert!(t.flush_layers_if_dirty().is_none());
    let again = t.flush_layers().expect("a job");
    assert!(!again.layers[0].pixels_dirty);
    assert!(again.removed_uids.is_empty());
    assert_eq!(t.deleted.of_page(7), vec!["other".to_string()]);
}

#[test]
fn a_page_that_could_not_be_stored_stays_dirty() {
    let mut t = editor();
    t.deleted.insert(4, "gone".to_string());
    t.layers_dirty = true;
    t.request_page(&vec![4, 7], 7, false);
    assert!(t.layers_dirty);
    assert_eq!(t.deleted.of_page(4), vec!["gone".to_string()]);
}

#[test]
fn the_view_waits_for_its_page() {
    let mut t = editor();
    let at = PagePoint { x: ONE, y: ONE };
    let v = t.sync_view_from_canvas(&vec![4, 7], 7, ONE, Some(at), 9, true);
    assert_eq!(v.request, Some(PageRequest::Load { job_id: 2 }));
    assert_eq!(v.camera, None);
    t.poll_loader(2, 7, Ok(loaded()), 9, Vec::new(), Vec::new());
    let c = t.session.apply_pending_camera(true).expect("a view");
    assert_eq!((c.page_idx, c.center), (7, Some(at)));
}

#[test]
fn the_view_of_a_shown_page_is_taken_over_at_once() {
    let mut t = editor();
    let v = t.sync_view_from_canvas(&vec![4, 7], 4, ONE, None, 9, true);
    assert_eq!(v.request, None);
    assert_eq!(v.camera.map(|c| c.page_idx), Some(4));
    assert!(t.session.pending_camera.is_none());
    let again = t.sync_view_from_canvas(&vec![4, 7], 4, ONE, None, 10, true);
    assert_eq!(again.request, Some(PageRequest::Load { job_id: 2 }));
    assert_eq!(again.camera, None);
}

#[test]
fn the_document_is_projected_and_its_version_noted() {
    let mut t = editor();
    let mut other = editor();
    let id = other.stack.as_mut().expect("a page").add_raster_layer(77);
    let from = other.stack.as_ref().expect("a page");
    let node = layer_to_raster_node(from, from.layer(id).expect("a layer"));
    let page = DocPage { nodes: vec![node], groups: Vec::new() };
    let drops = t.sync_view_from_doc(4, Some(&page), 12, &Vec::new(), &vec![5]);
    assert!(drops.is_empty());
    let s = t.stack.as_ref().expect("a page");
    assert_eq!(s.layers.len(), 3);
    assert_eq!(s.layers[2].uid, 77);
    assert_eq!(t.bands.len(), 1);
    assert_eq!(t.session.last_doc_version, 12);
    assert_eq!(t.session.refresh_view_if_doc_version_changed(Some(12), false), None);
    assert_eq!(t.session.refresh_view_if_doc_version_changed(Some(13), false), Some(4));
}

#[test]
fn without_a_document_nothing_is_projected() {
    let mut t = editor();
    let id = t.stack.as_mut().expect("a page").add_raster_layer(77);
    t.bands = vec![Band::Raster { uid: uid_to_string(77), z: 3 }];
    assert!(t.sync_view_from_doc(4, None, 12, &Vec::new(), &Vec::new()).is_empty());
    let s = t.stack.as_ref().expect("a page");
    assert_eq!(s.raster_count(), 1);
    assert!(s.layer(id).is_some());
    assert!(matches!(&t.bands[..], [Band::Raster { z: 3, .. }]));
    assert_eq!(t.session.last_doc_version, 0);
}

#[test]
fn the_looks_of_a_group_mark_the_page_as_changed() {
    let mut t = editor();
    let uid = uid_to_string(900);
    t.stack.as_mut().expect("a page").add_group_with_uid("G".to_string(), 900);
    let seen = |t: &PsEditorTabState| {
        let g = &t.stack.as_ref().expect("a page").groups[0];
        (g.visible, g.collapsed, t.layers_dirty)
    };
    assert_eq!(seen(&t), (true, false, false));
    t.apply_group_op(GroupOp::ToggleGroupVisible(uid.clone()), 1);
    assert_eq!(seen(&t), (false, false, true));
    assert!(t.flush_layers_if_dirty().is_some());
    t.apply_group_op(GroupOp::ToggleGroupVisible(uid.clone()), 1);
    assert_eq!(seen(&t), (true, false, true));
    t.page_persisted(true);
    let out = t.apply_group_op(GroupOp::MoveGroup(uid.clone(), true), 1);
    assert!(matches!(out, Some(GroupOutcome::Move { .. })));
    assert_eq!(seen(&t), (true, false, false));
    t.apply_group_op(GroupOp::ToggleCollapse(uid.clone()), 1);
    assert_eq!(seen(&t), (true, true, true));
    let out = t.apply_group_op(GroupOp::ToggleCollapse(uid.clone()), 1);
    assert!(matches!(out, Some(GroupOutcome::Noted)));
    assert_eq!(seen(&t), (true, false, true));
    let mut none = PsEditorTabState::new();
    assert!(none.apply_group_op(GroupOp::ToggleCollapse(uid), 1).is_none());
    assert!(!none.layers_dirty);
}

#[test]
fn leaving_a_page_drops_its_history() {
    let mut t = editor();
    assert!(!t.request_page(&vec![4, 7], 5, true).drops_history());
    assert!(t.request_page(&vec![4, 7], 7, true).drops_history());
    t.session.has_loader = false;
    assert!(t.request_page(&vec![4, 7], 4, true).drops_history());
}

#[test]
fn without_a_page_nothing_is_projected() {
    let mut t = PsEditorTabState::new();
    let page = DocPage { nodes: Vec::new(), groups: Vec::new() };
    assert!(t.sync_view_from_doc(4, Some(&page), 12, &Vec::new(), &Vec::new()).is_empty());
    assert_eq!(t.session.last_doc_version, 0);
}

#[test]
fn a_step_through_the_history_stores_the_page() {
    let t = editor();
    let (o, save) = t.finish_history_step(Ok(true));
    assert!(matches!(o, HistoryOutcome::Changed));
    assert!(save.is_some());
    let (o, save) = t.finish_history_step(Ok(false));
    assert!(matches!(o, HistoryOutcome::Nothing) && save.is_none());
    let (o, save) = t.finish_history_step(Err(PsEditOpError::NotResident { page_idx: 4 }));
    assert!(matches!(o, HistoryOutcome::Failed(PsEditOpError::NotResident { page_idx: 4 })));
    assert!(save.is_none());
}
