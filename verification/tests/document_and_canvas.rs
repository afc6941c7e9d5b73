//! The view of the shared document, effects, and the canvas with its tools.

use manga_editor::bands::Band;
use manga_editor::canvas::{
    apply_tool_outcome, bake_hint, handle_text_layer_drag, needs_repaint, plan_frame,
    sync_render_cache, CacheEntry, CanvasInput, Gestures, TextDrag, TextDragMode, TextDragStep,
    UploadBudget, WheelTarget,
};
use manga_editor::color::{Color, ColorImage};
use manga_editor::composite::{LocalPixel, Selection};
use manga_editor::doc_sync::{retain_page_generations, sync_view_from_doc, Generation};
use manga_editor::edit_op::{LayerFieldPatch, PsEditOp};
use manga_editor::effects::{
    apply_ps_raster_effects_result, close_effects_editor, effects_seed, parse_effects,
    placement_after_effects, EffectsEditor, EffectsQueue,
};
use manga_editor::ident::uid_to_string;
use manga_editor::layer_doc::{
    layer_to_raster_node, layer_to_restored_node, text_content_of, DocPage, GroupMeta, LayerNode,
    NodeBody,
};
use manga_editor::layers::{DeformPoint, DeformRec, LayerStack, LayerTransform, TransformRec};
use manga_editor::page_session::{
    LoadDecision, PagePoint, PageRequest, PageSession, PageSizes,
};
use manga_editor::ps_tools::{
    handle_hotkeys, join_rects, mesh_lines, paint_line_color, segment_dirty_rect,
    stamp_circle, tool_index, BrushTool, DeformTool, PaintClip, PsKeyActions, PsKeys, PsToolId,
    ToolInput,
};
use manga_editor::raster::Raster;
use manga_editor::raster_edits::{DirtyRect, DocEdit};
use manga_editor::text_layers::PsTextLayer;

const CLEAR: Color = Color { r: 0, g: 0, b: 0, a: 0 };

fn grey(v: u8) -> Color {
    Color { r: v, g: v, b: v, a: 255 }
}

fn filled(w: usize, h: usize, c: Color) -> ColorImage {
    Raster { w, h, px: vec![c; w * h] }
}

fn rec(x: f32, y: f32) -> TransformRec {
    TransformRec {
        cx: x.to_bits(),
        cy: y.to_bits(),
        rotation: 0.0f32.to_bits(),
        scale: 1.0f32.to_bits(),
    }
}

fn raster_node(uid: u128, z: u32, generation: u64, v: u8) -> LayerNode {
    LayerNode {
        uid: uid_to_string(uid),
        name: format!("layer {uid}"),
        z,
        visible: true,
        opacity: 1.0f32.to_bits(),
        group_uid: None,
        text_layer_idx: None,
        transform: rec(1.0, 1.0),
        deform: None,
        generation,
        pixels_dirty: false,
        body: NodeBody::Raster {
            base_image: filled(2, 2, grey(v)),
            display_image: filled(2, 2, grey(v)),
            effects: Vec::new(),
            base_file: String::new(),
            mask_clip: None,
        },
    }
}

fn text_node(uid: &str, z: u32, words: &str) -> LayerNode {
    let raw = format!("{{\"text_params\": {{\"text\": \"{words}\"}}}}");
    LayerNode {
        uid: uid.to_string(),
        name: format!("text {uid}"),
        z,
        visible: true,
        opacity: 1.0f32.to_bits(),
        group_uid: None,
        text_layer_idx: Some(3),
        transform: rec(5.0, 6.0),
        deform: None,
        generation: 1,
        pixels_dirty: false,
        body: NodeBody::Text {
            image: filled(1, 1, grey(4)),
            render_data: serde_json::from_str(&raw).expect("json"),
        },
    }
}

struct View {
    stack: LayerStack,
    texts: Vec<PsTextLayer>,
    bands: Vec<Band>,
    generations: Vec<Generation>,
}

fn view() -> View {
    View {
        stack: LayerStack::new(4, 2, 2, filled(2, 2, grey(0)), filled(2, 2, CLEAR)),
        texts: Vec::new(),
        bands: Vec::new(),
        generations: Vec::new(),
    }
}

fn sync(v: &mut View, page: &DocPage) -> Vec<u64> {
    let groups: Vec<u128> = (0..page.groups.len() as u128).map(|n| 7000 + n).collect();
    let nodes: Vec<u128> = (0..page.nodes.len() as u128).map(|n| 8000 + n).collect();
    sync_view_from_doc(
        &mut v.stack,
        &mut v.texts,
        &mut v.bands,
        &mut v.generations,
        4,
        page,
        &groups,
        &nodes,
    )
}

#[test]
fn the_view_follows_the_document() {
    let mut v = view();
    let group = GroupMeta {
        uid: uid_to_string(900),
        name: String::from("G"),
        visible: false,
        opacity: 0.5f32.to_bits(),
        collapsed: true,
    };
    let mut page = DocPage {
        nodes: vec![raster_node(101, 0, 1, 10), text_node("t", 1, "hello"), raster_node(102, 2, 1, 20)],
        groups: vec![group],
    };
    page.nodes[0].group_uid = Some(uid_to_string(900));
    assert!(sync(&mut v, &page).is_empty());
    assert_eq!(v.stack.layers.len(), 4);
    assert_eq!((v.stack.layers[2].uid, v.stack.layers[3].uid), (101, 102));
    assert_eq!(v.stack.layers[2].image.get(0, 0), grey(10));
    assert_eq!(v.stack.groups.len(), 1);
    assert!(!v.stack.groups[0].visible && v.stack.groups[0].collapsed);
    assert_eq!(v.stack.layer_group_uid(2), Some(uid_to_string(900)));
    assert_eq!(v.texts.len(), 1);
    assert!(v.texts[0].pinned && !v.texts[0].pinned_by_group);
    assert_eq!((v.texts[0].layer_idx, v.texts[0].text_content.as_str()), (3, "hello"));
    assert_eq!(v.bands.len(), 3);
    assert!(matches!(&v.bands[1], Band::PinnedText { uid, z: 1 } if uid == "t"));
    assert_eq!(v.generations.len(), 3);
    // The base layers stay as they are.
    assert!(v.stack.layers[0].kind.is_base() && v.stack.layers[1].kind.is_base());
}

#[test]
fn changed_nodes_keep_their_layer() {
    let mut v = view();
    let page = DocPage {
        nodes: vec![raster_node(101, 0, 1, 10), raster_node(102, 1, 1, 20)],
        groups: Vec::new(),
    };
    sync(&mut v, &page);
    let (a, b) = (v.stack.layers[2].id, v.stack.layers[3].id);
    v.stack.set_active(b);
    // New pixels, another order: the layers keep their numbers, and the active one stays.
    let page = DocPage {
        nodes: vec![raster_node(102, 0, 1, 20), raster_node(101, 1, 2, 99)],
        groups: Vec::new(),
    };
    assert_eq!(sync(&mut v, &page), vec![a]);
    assert_eq!((v.stack.layers[2].id, v.stack.layers[3].id), (b, a));
    assert_eq!(v.stack.layers[3].image.get(1, 1), grey(99));
    assert_eq!(v.stack.active, b);
    assert!(sync(&mut v, &page).is_empty());
    // What left the document leaves the stack.
    let page = DocPage { nodes: vec![raster_node(101, 0, 2, 99)], groups: Vec::new() };
    assert_eq!(sync(&mut v, &page), vec![b]);
    assert_eq!(v.stack.layers.len(), 3);
}

#[test]
fn painting_under_way_is_not_overwritten() {
    let mut v = view();
    let mut page = DocPage { nodes: vec![raster_node(101, 0, 1, 10)], groups: Vec::new() };
    sync(&mut v, &page);
    v.stack.layers[2].image.set(0, 0, grey(200));
    v.stack.layers[2].pixels_dirty = true;
    page.nodes[0].generation = 2;
    page.nodes[0].pixels_dirty = true;
    page.nodes[0].name = String::from("renamed");
    assert!(sync(&mut v, &page).is_empty());
    assert_eq!(v.stack.layers[2].image.get(0, 0), grey(200));
    assert_eq!(v.stack.layers[2].name, "renamed");
    page.nodes[0].pixels_dirty = false;
    sync(&mut v, &page);
    assert_eq!(v.stack.layers[2].image.get(0, 0), grey(10));
    assert!(!v.stack.layers[2].pixels_dirty);
}

#[test]
fn texts_keep_their_pins_and_pictures() {
    let mut v = view();
    let mut page = DocPage { nodes: vec![text_node("t", 0, "a")], groups: Vec::new() };
    sync(&mut v, &page);
    v.texts[0].pinned = false;
    v.texts[0].layer_idx = 9;
    v.texts[0].uploaded = true;
    page.nodes[0].visible = false;
    sync(&mut v, &page);
    assert!(!v.texts[0].pinned && v.texts[0].layer_idx == 9 && v.texts[0].uploaded);
    assert!(!v.texts[0].visible);
    page.nodes[0].generation = 2;
    sync(&mut v, &page);
    assert!(!v.texts[0].uploaded);
    retain_page_generations(&mut v.generations, 4);
    let left = v.generations.len();
    retain_page_generations(&mut v.generations, 5);
    assert!(left == 1 && v.generations.is_empty() || left == 0);
}

#[test]
fn nodes_are_made_of_layers() {
    let mut s = LayerStack::new(0, 2, 2, filled(2, 2, grey(0)), filled(2, 2, CLEAR));
    let id = s.add_raster_layer(55);
    let l = s.layer_mut(id).unwrap();
    l.image.set(0, 0, grey(7));
    l.deform = Some(DeformRec { cols: 0, rows: 0, points_px: Vec::new() });
    let n = layer_to_raster_node(&s, s.layer(id).unwrap());
    assert_eq!(n.uid, uid_to_string(55));
    assert_eq!(n.group_uid, None);
    let g = s.add_group_with_uid(String::from("G"), 900);
    s.set_layer_group(id, Some(g));
    let grouped = layer_to_raster_node(&s, s.layer(id).unwrap());
    assert_eq!(grouped.group_uid, Some(uid_to_string(900)));
    let gone = s.layer(id).unwrap().copied();
    s.remove_layer(id);
    assert_eq!(layer_to_restored_node(&s, &gone).group_uid, Some(uid_to_string(900)));
    s.remove_group(g);
    assert_eq!(layer_to_restored_node(&s, &gone).group_uid, None);
    let mut s = LayerStack::new(0, 2, 2, filled(2, 2, grey(0)), filled(2, 2, CLEAR));
    let id = s.add_raster_layer(55);
    let l = s.layer_mut(id).unwrap();
    l.image.set(0, 0, grey(7));
    l.deform = Some(DeformRec { cols: 0, rows: 0, points_px: Vec::new() });
    let r = layer_to_restored_node(&s, s.layer(id).unwrap());
    assert!(r.pixels_dirty && r.deform.is_some());
    match r.body {
        NodeBody::Raster { base_image, display_image, .. } => {
            assert_eq!(display_image.get(0, 0), grey(7));
            assert_eq!(base_image.get(0, 0), s.layer(id).unwrap().base_image.get(0, 0));
        }
        _ => panic!("no raster"),
    }
    assert_eq!(text_content_of(&serde_json::Value::Null), "");
    let v: serde_json::Value = serde_json::from_str("{\"text_params\": {\"text\": 5}}").unwrap();
    assert_eq!(text_content_of(&v), "");
}

#[test]
fn effects_are_read_and_shown() {
    assert_eq!(parse_effects(&String::from(" \n")).map(|v| v.len()), Some(0));
    assert_eq!(parse_effects(&String::from("[{\"a\": 1}, 2]")).map(|v| v.len()), Some(2));
    assert!(parse_effects(&String::from("{\"a\": 1}")).is_none());
    assert!(parse_effects(&String::from("[1,")).is_none());
    let mut s = LayerStack::new(0, 1, 1, filled(1, 1, grey(0)), filled(1, 1, CLEAR));
    let id = s.add_raster_layer(55);
    assert_eq!(effects_seed(&s, id), "");
    assert_eq!(effects_seed(&s, 999), "");
    s.layer_mut(id).unwrap().effects = vec![serde_json::Value::from("blur")];
    assert_eq!(effects_seed(&s, id), "[\n  \"blur\"\n]");
}

#[test]
fn one_rendering_of_effects_at_a_time() {
    let mut s = LayerStack::new(0, 1, 1, filled(1, 1, grey(0)), filled(1, 1, CLEAR));
    let id = s.add_raster_layer(55);
    let base = s.layers[0].id;
    let stack = Some(s);
    let mut q = EffectsQueue { in_flight: false, pending: None };
    let list = String::from("[1]");
    assert!(q.apply_effects_to_raster(false, &stack, id, &list).is_none());
    assert!(q.apply_effects_to_raster(true, &stack, base, &list).is_none());
    assert!(q.apply_effects_to_raster(true, &stack, id, &String::from("{}")).is_none());
    assert!(!q.in_flight);
    let j = q.apply_effects_to_raster(true, &stack, id, &list).unwrap();
    assert_eq!((j.uid, j.effects.len()), (uid_to_string(55), 1));
    assert!(q.apply_effects_to_raster(true, &stack, id, &String::from("[2]")).is_none());
    assert!(q.apply_effects_to_raster(true, &stack, id, &String::from("[3]")).is_none());
    // The last request that waited is made up for.
    let next = q.finished().unwrap();
    assert_eq!((next.id, next.text.as_str()), (id, "[3]"));
    assert!(!q.in_flight && q.finished().is_none());
}

#[test]
fn removed_effects_restore_the_pixels() {
    let mut n = raster_node(101, 0, 5, 10);
    let one = vec![serde_json::Value::from("blur")];
    apply_ps_raster_effects_result(&mut n, &one, &filled(4, 4, grey(77)), rec(9.0, 9.0));
    assert_eq!((n.generation, n.transform), (6, rec(9.0, 9.0)));
    match &n.body {
        NodeBody::Raster { base_image, display_image, effects, .. } => {
            assert_eq!(base_image.get(0, 0), grey(10));
            assert_eq!((display_image.w, display_image.get(0, 0)), (4, grey(77)));
            assert_eq!(effects.len(), 1);
        }
        _ => panic!("no raster"),
    }
    apply_ps_raster_effects_result(&mut n, &Vec::new(), &filled(4, 4, grey(1)), rec(1.0, 1.0));
    match &n.body {
        NodeBody::Raster { display_image, effects, .. } => {
            assert_eq!((display_image.w, display_image.get(1, 1)), (2, grey(10)));
            assert!(effects.is_empty());
        }
        _ => panic!("no raster"),
    }
    assert_eq!(placement_after_effects(true, rec(1.0, 1.0), rec(2.0, 2.0)), rec(2.0, 2.0));
    assert_eq!(placement_after_effects(false, rec(1.0, 1.0), rec(2.0, 2.0)), rec(1.0, 1.0));
    let mut e = Some(EffectsEditor { id: 3, text: String::from("[]") });
    assert!(close_effects_editor(&mut e, false, false, true).is_none() && e.is_some());
    assert_eq!(close_effects_editor(&mut e, true, false, true).map(|x| x.id), Some(3));
    assert!(e.is_none());
    let mut e = Some(EffectsEditor { id: 3, text: String::from("[]") });
    assert!(close_effects_editor(&mut e, false, false, false).is_none() && e.is_none());
}

fn quiet() -> CanvasInput {
    CanvasInput {
        hovered: true,
        has_pointer: true,
        pointer_inside: true,
        primary_down: false,
        primary_pressed: false,
        primary_released: false,
        middle_down: false,
        space_down: false,
        scroll: 0.0f32.to_bits(),
        shift: false,
        command: false,
    }
}

#[test]
fn canvas_input_is_shared_out() {
    let p = plan_frame(quiet(), PsToolId::Brush);
    assert!(p.pointer_in_viewport && !p.pan && p.size_keys && !p.text_drag);
    assert_eq!(p.wheel, WheelTarget::Nothing);
    let wheel = CanvasInput { scroll: (-4.0f32).to_bits(), ..quiet() };
    assert_eq!(plan_frame(wheel, PsToolId::Brush).wheel, WheelTarget::Zoom);
    let shift = CanvasInput { shift: true, ..wheel };
    assert_eq!(plan_frame(shift, PsToolId::Brush).wheel, WheelTarget::Brush);
    assert_eq!(plan_frame(shift, PsToolId::Transform).wheel, WheelTarget::Zoom);
    let away = CanvasInput { hovered: false, ..wheel };
    assert_eq!(plan_frame(away, PsToolId::Brush).wheel, WheelTarget::Nothing);
    let nan = CanvasInput { scroll: f32::NAN.to_bits(), ..quiet() };
    assert_eq!(plan_frame(nan, PsToolId::Brush).wheel, WheelTarget::Nothing);
    let space = CanvasInput { space_down: true, primary_down: true, ..quiet() };
    let p = plan_frame(space, PsToolId::Transform);
    assert!(p.pan && !p.text_drag);
    assert!(plan_frame(quiet(), PsToolId::Transform).text_drag);
    assert!(needs_repaint(quiet(), false, false));
    let gone = CanvasInput { hovered: false, ..quiet() };
    assert!(!needs_repaint(gone, false, false));
    assert!(needs_repaint(gone, true, false) && needs_repaint(gone, false, true));
}

fn page_with_raster() -> (Option<LayerStack>, u64) {
    let mut s = LayerStack::new(4, 3, 3, filled(3, 3, grey(0)), filled(3, 3, CLEAR));
    let id = s.add_raster_layer(55);
    s.set_active(id);
    (Some(s), id)
}

#[test]
fn a_move_is_one_edit() {
    let (mut stack, id) = page_with_raster();
    let mut g = Gestures::new();
    let press = CanvasInput { primary_pressed: true, primary_down: true, ..quiet() };
    assert!(g.before_tool(&stack, press, PsToolId::Transform, false));
    let before = stack.as_ref().unwrap().layer(id).unwrap().transform;
    stack.as_mut().unwrap().layer_mut(id).unwrap().transform.cx = 42.0f32.to_bits();
    let up = CanvasInput { primary_released: true, ..quiet() };
    let t = g.after_tool(&mut stack, up, PsToolId::Transform, Some(4), None);
    assert!(matches!(t.release.doc, Some(DocEdit::SetTransform { .. })));
    match t.release.op.unwrap() {
        PsEditOp::FieldPatch { field: LayerFieldPatch::Transform { before: b, after }, .. } => {
            assert_eq!(b, before);
            assert_eq!(f32::from_bits(after.cx), 42.0);
        }
        _ => panic!("no move"),
    }
    let again = g.after_tool(&mut stack, up, PsToolId::Transform, Some(4), None);
    assert!(again.release.op.is_none());
    // A press without a move is no edit.
    g.before_tool(&stack, press, PsToolId::Transform, false);
    let t = g.after_tool(&mut stack, up, PsToolId::Transform, Some(4), None);
    assert!(t.release.op.is_none() && t.release.doc.is_some());
    // The tool gets no turn while the canvas is panned or a text is dragged.
    let pan = CanvasInput { middle_down: true, ..press };
    assert!(!g.before_tool(&stack, pan, PsToolId::Transform, false));
    assert!(!g.before_tool(&stack, press, PsToolId::Transform, true));
}

#[test]
fn a_pulled_mesh_is_one_edit() {
    let (mut stack, id) = page_with_raster();
    let mut g = Gestures::new();
    let press = CanvasInput { primary_pressed: true, primary_down: true, ..quiet() };
    g.before_tool(&stack, press, PsToolId::Deform, false);
    let mesh = DeformRec { cols: 1, rows: 1, points_px: vec![DeformPoint { x: 0, y: 0 }] };
    stack.as_mut().unwrap().layer_mut(id).unwrap().deform = Some(mesh);
    let up = CanvasInput { primary_released: true, ..quiet() };
    let t = g.after_tool(&mut stack, up, PsToolId::Deform, Some(4), None);
    assert!(matches!(t.release.doc, Some(DocEdit::SetDeform { deform: Some(_), .. })));
    assert!(matches!(
        t.release.op,
        Some(PsEditOp::FieldPatch { field: LayerFieldPatch::Deform { before: None, .. }, .. })
    ));
    g.before_tool(&stack, press, PsToolId::Deform, false);
    g.clear();
    let t = g.after_tool(&mut stack, up, PsToolId::Deform, Some(4), None);
    assert!(t.release.op.is_none());
}

#[test]
fn a_stroke_is_captured_at_its_release() {
    let (mut stack, id) = page_with_raster();
    let mut g = Gestures::new();
    let press = CanvasInput { primary_pressed: true, primary_down: true, ..quiet() };
    let down = CanvasInput { primary_down: true, ..quiet() };
    let up = CanvasInput { primary_released: true, ..quiet() };
    let at = |x0: usize, y0: usize, x1: usize, y1: usize| {
        Some(DirtyRect { min_x: x0, min_y: y0, max_x: x1, max_y: y1 })
    };
    stack.as_mut().unwrap().layer_mut(id).unwrap().image.set(0, 0, grey(200));
    let t = g.after_tool(&mut stack, press, PsToolId::Brush, Some(4), at(0, 0, 0, 0));
    assert_eq!(t.redraw.map(|r| r.0), Some(id));
    assert!(stack.as_ref().unwrap().layer(id).unwrap().pixels_dirty);
    stack.as_mut().unwrap().layer_mut(id).unwrap().image.set(1, 1, grey(100));
    g.after_tool(&mut stack, down, PsToolId::Brush, Some(4), at(1, 1, 1, 1));
    let t = g.after_tool(&mut stack, up, PsToolId::Brush, Some(4), None);
    let s = t.release.stroke.unwrap();
    assert_eq!((s.origin, s.region, s.image_size), ((0, 0), (2, 2), (3, 3)));
    assert_eq!(s.before, vec![0u8; 16]);
    assert_eq!(s.after[0..4], [200, 200, 200, 255]);
    assert_eq!(s.after[12..16], [100, 100, 100, 255]);
    assert!(matches!(t.release.doc, Some(DocEdit::SetPixels { .. })));
    assert!(g.stroke.is_none());
    assert!(apply_tool_outcome(&mut stack, None).is_none());
}

#[test]
fn layers_with_effects_have_to_be_baked() {
    let (mut stack, id) = page_with_raster();
    let press = CanvasInput { primary_pressed: true, primary_down: true, ..quiet() };
    assert!(!bake_hint(&stack, press, PsToolId::Brush));
    stack.as_mut().unwrap().layer_mut(id).unwrap().effects = vec![serde_json::Value::Null];
    assert!(bake_hint(&stack, press, PsToolId::Brush));
    assert!(!bake_hint(&stack, press, PsToolId::Transform));
    assert!(!bake_hint(&stack, quiet(), PsToolId::Brush));
}

#[test]
fn pictures_on_the_card_follow_the_layers() {
    let (stack, id) = page_with_raster();
    let s = stack.unwrap();
    let cache = vec![
        CacheEntry { id, w: 3, h: 3 },
        CacheEntry { id: 999, w: 3, h: 3 },
        CacheEntry { id: s.layers[0].id, w: 1, h: 1 },
    ];
    let plan = sync_render_cache(&s, &cache);
    assert_eq!(plan.keep, vec![true, false, true]);
    let made: Vec<u64> = plan.create.iter().map(|e| e.id).collect();
    assert_eq!(made, vec![s.layers[0].id, s.layers[1].id]);
    let mut b = UploadBudget::new();
    assert_eq!(b.next(), Some(8));
    b.spend(5);
    assert_eq!(b.next(), Some(3));
    b.spend(9);
    assert_eq!(b.next(), None);
}

fn text(uid: &str, visible: bool) -> PsTextLayer {
    PsTextLayer {
        uid: uid.to_string(),
        name: String::new(),
        visible,
        layer_idx: 0,
        group_uid: None,
        pinned: false,
        pinned_by_group: false,
        text_content: String::new(),
        image: filled(1, 1, CLEAR),
        transform: LayerTransform::identity_for(1, 1),
        deform: None,
        uploaded: false,
    }
}

#[test]
fn the_highest_text_is_dragged() {
    let mut texts = vec![text("a", true), text("b", true), text("c", false), text("d", true)];
    texts[3].deform = Some(DeformRec { cols: 0, rows: 0, points_px: Vec::new() });
    let under = vec![true, true, true, true];
    let press = CanvasInput { primary_pressed: true, primary_down: true, ..quiet() };
    let mut drag = None;
    assert!(matches!(
        handle_text_layer_drag(&mut drag, &texts, &vec![false; 4], press, Some(1)),
        TextDragStep::Idle
    ));
    let rotate = CanvasInput { shift: true, ..press };
    let step = handle_text_layer_drag(&mut drag, &texts, &under, rotate, Some(1));
    assert!(matches!(step, TextDragStep::Began));
    assert!(matches!(drag, Some(TextDrag { index: 1, mode: TextDragMode::Rotate })));
    let down = CanvasInput { primary_down: true, ..quiet() };
    let step = handle_text_layer_drag(&mut drag, &texts, &under, down, Some(1));
    assert!(matches!(step, TextDragStep::Moves));
    let off = CanvasInput { has_pointer: false, ..down };
    let step = handle_text_layer_drag(&mut drag, &texts, &under, off, Some(1));
    assert!(matches!(step, TextDragStep::Waits));
    texts[1].transform.cx = 8.0f32.to_bits();
    let step = handle_text_layer_drag(&mut drag, &texts, &under, quiet(), Some(1));
    match step {
        TextDragStep::Released(Some(DocEdit::SetTransform { uid, transform })) => {
            assert_eq!((uid.as_str(), f32::from_bits(transform.cx)), ("b", 8.0));
        }
        _ => panic!("not released"),
    }
    assert!(drag.is_none());
    let scale = CanvasInput { command: true, ..press };
    handle_text_layer_drag(&mut drag, &texts, &under, scale, None);
    assert!(matches!(drag, Some(TextDrag { mode: TextDragMode::Scale, .. })));
    let step = handle_text_layer_drag(&mut drag, &texts, &under, quiet(), None);
    assert!(matches!(step, TextDragStep::Released(None)));
}

#[test]
fn the_last_page_asked_for_is_shown() {
    let mut s = PageSession::new();
    let pages = vec![3, 5, 9];
    assert_eq!(s.request_page(&pages, 4), PageRequest::Unknown);
    assert_eq!(s.request_page(&pages, 5), PageRequest::NoLoader);
    assert_eq!(s.page_label(3), "— / 3");
    assert_eq!(s.first_page(&pages), None);
    s.has_loader = true;
    assert_eq!(s.first_page(&pages), Some(3));
    assert_eq!(s.first_page(&Vec::new()), None);
    let a = s.request_page(&pages, 5);
    let b = s.request_page(&pages, 9);
    let (PageRequest::Load { job_id: a }, PageRequest::Load { job_id: b }) = (a, b) else {
        panic!("no load");
    };
    assert_eq!(s.accept_load(a, 5, Ok(()), 1), LoadDecision::Stale);
    assert_eq!(s.accept_load(b, 9, Ok(()), 7), LoadDecision::Show);
    assert_eq!((s.current_page(), s.last_overlay_revision), (Some(9), 7));
    assert_eq!(s.accept_load(b, 9, Ok(()), 7), LoadDecision::Stale);
    assert_eq!(s.page_label(3), "10 / 3");
    assert_eq!(s.page_label(0), "10 / 1");
    assert_eq!(s.neighbours(&pages), (Some(5), None));
    let PageRequest::Load { job_id } = s.request_page(&pages, 3) else {
        panic!("no load");
    };
    assert_eq!(s.accept_load(job_id, 3, Err(String::from("x")), 0), LoadDecision::Failed);
    assert_eq!((s.load_error.as_deref(), s.active_page_idx), (Some("x"), Some(9)));
}

#[test]
fn views_are_taken_over_when_shown() {
    let mut s = PageSession::new();
    s.active_page_idx = Some(2);
    s.last_overlay_revision = 5;
    assert!(!s.sync_view_from_canvas(2, 1.0f32.to_bits(), None, 5));
    assert!(s.sync_view_from_canvas(2, 1.0f32.to_bits(), None, 6));
    assert!(s.sync_view_from_canvas(3, 1.0f32.to_bits(), Some(PagePoint { x: 0, y: 0 }), 5));
    assert!(s.apply_pending_camera(true).is_none());
    s.active_page_idx = Some(3);
    assert!(s.apply_pending_camera(false).is_none());
    s.pending_job_id = Some(1);
    assert!(s.apply_pending_camera(true).is_none());
    s.pending_job_id = None;
    assert_eq!(s.apply_pending_camera(true).map(|c| c.page_idx), Some(3));
    assert!(s.apply_pending_camera(true).is_none());
    assert_eq!(s.refresh_view_if_doc_version_changed(None, false), None);
    assert_eq!(s.refresh_view_if_doc_version_changed(Some(4), true), None);
    assert_eq!(s.refresh_view_if_doc_version_changed(Some(4), false), Some(3));
    s.active_page_idx = None;
    assert_eq!(s.refresh_view_if_doc_version_changed(Some(4), false), None);
    assert_eq!(s.last_doc_version, 4);
}

#[test]
fn page_sizes_are_read_once() {
    let mut s = PageSizes::new();
    assert_eq!(s.missing(&vec![1, 2]), vec![1, 2]);
    s.insert(1, Some((10, 20)));
    s.insert(2, None);
    assert!(s.missing(&vec![1, 2]).is_empty());
    let one = s.get(1).unwrap();
    let two = s.get(2).unwrap();
    assert_eq!((one.w, one.h, two.w, two.h), (10, 20, 1, 1));
    assert!(s.get(3).is_none());
}

fn no_keys() -> PsKeys {
    PsKeys {
        b: false,
        m: false,
        l: false,
        v: false,
        d: false,
        z: false,
        y: false,
        command: false,
        shift: false,
    }
}

#[test]
fn keys_choose_tools_and_undo() {
    let tools = vec![PsToolId::SelectRect, PsToolId::SelectLasso, PsToolId::Brush, PsToolId::Transform];
    assert_eq!(tool_index(&tools, PsToolId::Brush), Some(2));
    assert_eq!(tool_index(&tools, PsToolId::Deform), None);
    let none = PsKeyActions { tool: 1, deselect: false, undo: false, redo: false };
    assert_eq!(handle_hotkeys(&tools, 1, false, no_keys()), none);
    let b = PsKeys { b: true, ..no_keys() };
    assert_eq!(handle_hotkeys(&tools, 1, false, b).tool, 2);
    assert_eq!(handle_hotkeys(&tools, 1, true, b), none);
    let z = PsKeys { z: true, command: true, ..no_keys() };
    assert!(handle_hotkeys(&tools, 1, false, z).undo);
    let sz = PsKeys { shift: true, ..z };
    let a = handle_hotkeys(&tools, 1, false, sz);
    assert!(a.redo && !a.undo);
    let d = PsKeys { d: true, command: true, ..no_keys() };
    assert!(handle_hotkeys(&tools, 1, false, d).deselect);
}

#[test]
fn discs_are_those_of_the_formula() {
    for radius in [-3, 0, 1, 2, 3, 5, 8, 13, 21, 34, 55, 89, 144, 200] {
        let r: i32 = i32::max(radius, 1);
        let side = (2 * r + 3) as usize;
        let mut img = filled(side, side, CLEAR);
        stamp_circle(&mut img, radius, r + 1, r + 1, &None, grey(9));
        for y in 0..side {
            let dy = y as i32 - (r + 1);
            let rem = r * r - dy * dy;
            let painted = (0..side).filter(|x| img.get(*x, y) == grey(9)).count() as i32;
            let span = (rem as f32).sqrt() as i32;
            let wanted = if rem < 0 { 0 } else { 2 * span + 1 };
            assert_eq!(painted, wanted, "radius {radius} row {y}");
            let middle = img.get((r + 1) as usize, y) == grey(9);
            assert_eq!(middle, wanted > 0, "radius {radius} row {y}");
        }
    }
}

#[test]
fn stamps_stay_on_picture_and_selection() {
    let mut img = filled(5, 5, CLEAR);
    stamp_circle(&mut img, 1, 2, 2, &None, grey(9));
    let painted = img.px.iter().filter(|c| **c == grey(9)).count();
    assert_eq!(painted, 5);
    for (x, y) in [(2, 2), (1, 2), (3, 2), (2, 1), (2, 3)] {
        assert_eq!(img.get(x, y), grey(9));
    }
    stamp_circle(&mut img, 1, -1, 0, &None, grey(8));
    assert_eq!(img.get(0, 0), grey(8));
    assert_eq!(img.px.iter().filter(|c| **c == grey(8)).count(), 1);
    let mut sel = Selection::empty(5, 5);
    sel.set_rect(0, 0, 2, 5);
    let mut px = Vec::new();
    for y in 0..5 {
        for x in 0..5 {
            px.push(Some(LocalPixel { x, y }));
        }
    }
    let clip = Some(PaintClip { selection: sel, to_page: Raster { w: 5, h: 5, px } });
    let mut img = filled(5, 5, CLEAR);
    paint_line_color(&mut img, 1, &vec![(1, 2), (3, 2)], &clip, grey(9));
    for y in 0..5 {
        for x in 0..5 {
            let near = (x as i32 - 1).abs() + (y as i32 - 2).abs() <= 1
                || (x as i32 - 3).abs() + (y as i32 - 2).abs() <= 1;
            let want = if near && x < 2 { grey(9) } else { CLEAR };
            assert_eq!(img.get(x, y), want, "{x} {y}");
        }
    }
}

#[test]
fn dirty_rects_go_round_the_segment() {
    let d = segment_dirty_rect((10, 20), (14, 18), 3, (100, 100));
    assert_eq!((d.min_x, d.min_y, d.max_x, d.max_y), (7, 15, 17, 23));
    let d = segment_dirty_rect((-5, 2), (1, 2), 0, (100, 3));
    assert_eq!((d.min_x, d.min_y, d.max_x, d.max_y), (0, 1, 2, 2));
    // A dab beside the page is clamped to its edge.
    let d = segment_dirty_rect((100, 0), (100, 0), 1, (10, 10));
    assert_eq!((d.min_x, d.min_y, d.max_x, d.max_y), (9, 0, 9, 1));
    let j = join_rects(
        DirtyRect { min_x: 1, min_y: 5, max_x: 3, max_y: 6 },
        DirtyRect { min_x: 2, min_y: 0, max_x: 9, max_y: 5 },
    );
    assert_eq!((j.min_x, j.min_y, j.max_x, j.max_y), (1, 0, 9, 6));
}

fn input(x: f32, pressed: bool, down: bool) -> ToolInput {
    ToolInput {
        pointer: Some(PagePoint { x: x.to_bits(), y: 0 }),
        in_viewport: true,
        pressed,
        down,
    }
}

#[test]
fn brush_segments_join() {
    let mut b = BrushTool { radius_px: 0, color: grey(5), erase: false, last_world: None };
    assert_eq!(b.title(), "Кисть");
    let s = b.interact(input(1.0, true, true), true).unwrap();
    assert_eq!((s.from, s.to, s.radius, s.fill), (s.to, s.to, 1, grey(5)));
    let t = b.interact(input(2.0, false, true), true).unwrap();
    assert_eq!(t.from, s.to);
    b.erase = true;
    assert_eq!(b.interact(input(3.0, false, true), true).map(|s| s.fill), Some(CLEAR));
    assert!(b.interact(input(4.0, false, true), false).is_none());
    assert!(b.interact(input(4.0, false, false), true).is_none());
    assert!(b.last_world.is_none());
    let outside = ToolInput { in_viewport: false, ..input(1.0, true, true) };
    assert!(b.interact(outside, true).is_none());
}

#[test]
fn mesh_points_follow_the_pointer() {
    let (stack, id) = page_with_raster();
    let mut s = stack.unwrap();
    let point = |x: f32| DeformPoint { x: x.to_bits(), y: 0 };
    let identity = DeformRec {
        cols: 2,
        rows: 2,
        points_px: vec![point(0.0), point(1.0), point(2.0), point(3.0)],
    };
    let copy = |d: &DeformRec| d.copied();
    let mut t = DeformTool::new();
    t.interact(&mut s, input(1.0, false, false), None, point(9.0), copy(&identity));
    assert_eq!(s.layer(id).unwrap().deform.as_ref().map(|d| d.points_px.len()), Some(4));
    assert!(t.drag.is_none());
    t.interact(&mut s, input(1.0, true, true), Some(1), point(7.0), copy(&identity));
    assert_eq!(t.drag.as_ref().map(|d| d.point_idx), Some(1));
    t.interact(&mut s, input(1.0, false, true), None, point(8.0), copy(&identity));
    let d = s.layer(id).unwrap().deform.as_ref().unwrap();
    assert_eq!(f32::from_bits(d.points_px[1].x), 8.0);
    assert_eq!(f32::from_bits(d.points_px[2].x), 2.0);
    t.interact(&mut s, input(1.0, false, false), None, point(0.0), copy(&identity));
    assert!(t.drag.is_none());
    assert_eq!(t.grid_dims, Some((2, 2)));
    assert_eq!(mesh_lines(Some((2, 2)), 4), vec![(0, 1), (0, 2), (1, 3), (2, 3)]);
    assert!(mesh_lines(Some((2, 2)), 5).is_empty());
    assert!(mesh_lines(Some((1, 4)), 4).is_empty());
    assert!(mesh_lines(None, 4).is_empty());
}
