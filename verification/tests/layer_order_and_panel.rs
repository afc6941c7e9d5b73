//! The order of layers and texts, and the panel that changes it.

use manga_editor::band_moves::{
    expand_order_to_node_uids, move_band, move_group, segment_blocks, toggle_pin,
};
use manga_editor::bands::{Band, BandRef};
use manga_editor::canvas::Gestures;
use manga_editor::color::{Color, ColorImage};
use manga_editor::draw_plan::{plan_composite, DrawStep};
use manga_editor::edit_op::{LayerFieldPatch, LifecycleDir, PsEditOp};
use manga_editor::ident::uid_to_string;
use manga_editor::layer_ops::{edit_doc_node, route_to_doc, DocAccess};
use manga_editor::layers::{group_mut_by_uid, LayerStack, LayerTransform};
use manga_editor::order::{key_before, stable_order, SortKey};
use manga_editor::panel::{
    apply_group_op, GroupOp, GroupOutcome, GroupingEdit, PanelSelection, RowSel,
};
use manga_editor::panel_actions::{
    add_layer, added_op, band_move_edit, band_move_steps, group_move_steps, grouping_steps,
    move_band_one, move_group_block, new_empty_group, opacity_moved, opacity_rests, order_edit,
    panel_steps, persist_grouping, pin_order, raster_uid, remove_raster, set_opacity, set_visible,
    toggle_visible_raster, toggle_visible_text, OrderStep, PanelStep,
};
use manga_editor::panel_rows::{
    active_controls, build_panel_rows, control_used, group_list, group_row_used, leaf_clicked,
    leaf_eye_clicked, leaf_secondary_clicked, row_selections, Control, Controls, GroupControl,
    GroupHeader, LeafKind, PanelActions, PanelLeaf, PanelRow, TextLayerOp, TreeItem,
};
use manga_editor::raster::Raster;
use manga_editor::raster_edits::{DeletedRasters, DocEdit};
use manga_editor::text_layers::PsTextLayer;
use manga_editor::unified_order::{
    build_unified_order, current_membership, group_of_member, key_lt, Member,
};

const GREY: Color = Color { r: 9, g: 9, b: 9, a: 255 };

fn filled(w: usize, h: usize) -> ColorImage {
    Raster { w, h, px: vec![GREY; w * h] }
}

/// A page with three rasters, called 101, 102 and 103.
fn page() -> LayerStack {
    let mut s = LayerStack::new(4, 2, 2, filled(2, 2), filled(2, 2));
    for uid in [101, 102, 103] {
        s.add_raster_layer(uid);
    }
    s
}

fn id_of(s: &LayerStack, uid: u128) -> u64 {
    s.layers.iter().find(|l| l.uid == uid).expect("layer").id
}

fn text(uid: &str, layer_idx: u32, y: f32) -> PsTextLayer {
    PsTextLayer {
        uid: uid.to_string(),
        name: format!("name of {uid}"),
        visible: true,
        layer_idx,
        group_uid: None,
        pinned: false,
        pinned_by_group: false,
        text_content: String::new(),
        image: filled(1, 1),
        transform: LayerTransform {
            cx: 0.0f32.to_bits(),
            cy: y.to_bits(),
            rotation: 0.0f32.to_bits(),
            scale: 1.0f32.to_bits(),
        },
        deform: None,
        uploaded: false,
    }
}

fn raster_band(uid: u128, z: u32) -> Band {
    Band::Raster { uid: uid_to_string(uid), z }
}

/// A short name of a band: r101, g0 or p:uid.
fn short(b: &BandRef) -> String {
    match b {
        BandRef::Raster(u) => {
            let n = [101u128, 102, 103].iter().find(|n| uid_to_string(**n) == *u).copied();
            format!("r{}", n.unwrap_or(0))
        }
        BandRef::TextGroup(i) => format!("g{i}"),
        BandRef::PinnedText(u) => format!("p:{u}"),
    }
}

fn names(order: &[(BandRef, Option<String>)]) -> Vec<String> {
    order.iter().map(|(b, _)| short(b)).collect()
}

fn refs(order: &[BandRef]) -> Vec<String> {
    order.iter().map(short).collect()
}

fn unified(s: &LayerStack, t: &Vec<PsTextLayer>, b: &Vec<Band>) -> Vec<(BandRef, Option<String>)> {
    let (group_of, pinned) = current_membership(s, t);
    build_unified_order(s, t, b, &group_of, &pinned)
}

/// An operation on groups that leaves the mark of a changed page alone.
fn group_op(
    s: &mut LayerStack,
    texts: &Vec<PsTextLayer>,
    bands: &Vec<Band>,
    rows: &Vec<RowSel>,
    op: GroupOp,
    uid: u128,
) -> GroupOutcome {
    let mut dirty = false;
    let out = apply_group_op(s, &mut dirty, texts, bands, rows, op, uid);
    assert!(!dirty);
    out
}

#[test]
fn groups_without_a_place_stand_together() {
    let mut s = page();
    let g = s.add_group_with_uid(String::from("G"), 900);
    let h = s.add_group_with_uid(String::from("H"), 901);
    for (uid, group) in [(101, g), (102, h), (103, g)] {
        let id = id_of(&s, uid);
        s.set_layer_group(id, Some(group));
    }
    let order = unified(&s, &Vec::new(), &Vec::new());
    assert_eq!(names(&order), vec!["r101", "r103", "r102"]);
    // The group of the lowest member comes first, whatever the groups are called.
    let bands = vec![raster_band(102, 0), raster_band(101, 1), raster_band(103, 1)];
    assert_eq!(names(&unified(&s, &Vec::new(), &bands)), vec!["r102", "r101", "r103"]);
}

#[test]
fn the_page_is_written_out_before_an_order_is_stored() {
    let s = page();
    let bands = vec![raster_band(101, 0), raster_band(102, 1), raster_band(103, 2)];
    let row = RowSel::Raster(id_of(&s, 101));
    let steps = band_move_steps(&s, &Vec::new(), &bands, &row, true);
    assert_eq!(steps.len(), 3);
    assert!(matches!(steps[0], OrderStep::FlushPage) && matches!(steps[1], OrderStep::StorePage));
    match &steps[2] {
        OrderStep::StoreBandMove(m) => assert_eq!(refs(&m.order), vec!["r102", "r101", "r103"]),
        _ => panic!("no move"),
    }
    // At the end of the order the page is written out, and there is nothing to store.
    assert_eq!(band_move_steps(&s, &Vec::new(), &bands, &row, false).len(), 2);
    let group = RowSel::Group(String::from("x"));
    assert!(band_move_steps(&s, &Vec::new(), &bands, &group, true).is_empty());
    let none = group_move_steps(&s, &Vec::new(), &bands, &String::from("x"), true);
    assert_eq!(none.len(), 2);
    let mut s = page();
    let g = s.add_group_with_uid(String::from("G"), 900);
    let id = id_of(&s, 101);
    s.set_layer_group(id, Some(g));
    let steps = group_move_steps(&s, &Vec::new(), &bands, &uid_to_string(900), true);
    match &steps[2] {
        OrderStep::StoreBlockMove(order, _) => {
            assert_eq!(refs(order), vec!["r102", "r101", "r103"])
        }
        _ => panic!("no move"),
    }
    let op = GroupOp::DeleteGroup(uid_to_string(900));
    let edit = stored(group_op(&mut s, &Vec::new(), &bands, &Vec::new(), op, 1));
    let steps = grouping_steps(edit);
    assert_eq!(steps.len(), 2);
    assert!(matches!(steps[0], OrderStep::StorePage));
    assert!(matches!(steps[1], OrderStep::StoreGrouping(_)));
}

#[test]
fn sorting_keeps_equal_entries_in_place() {
    let key = |a: i64, b: i64| SortKey { a, b, place: 0, c: 0, d: 0 };
    let keys = vec![key(2, 0), key(1, 5), key(2, 0), key(1, 4), key(1, 5)];
    assert_eq!(stable_order(&keys), vec![3, 1, 4, 0, 2]);
    assert!(key_before(key(1, 9), key(2, 0)) && !key_before(key(2, 0), key(2, 0)));
    let f = |x: f32| x.to_bits();
    assert!(key_lt((1, f(5.0)), (2, f(0.0))));
    assert!(key_lt((1, f(-1.0)), (1, f(0.0))));
    assert!(key_lt((1, f(-0.0)), (1, f(0.0))));
    assert!(!key_lt((1, f(0.0)), (1, f(0.0))));
}

#[test]
fn the_order_lists_every_band_once() {
    let s = page();
    let mut pinned = text("b", 1, 7.0);
    pinned.pinned = true;
    let texts = vec![text("a", 0, 3.0), pinned, text("c", 1, 1.0), text("d", 0, 9.0)];
    let bands = vec![
        Band::TextGroup { layer_idx: 0, z: 0 },
        raster_band(102, 1),
        Band::PinnedText { uid: String::from("b"), z: 2 },
        raster_band(101, 3),
        Band::TextGroup { layer_idx: 1, z: 4 },
    ];
    let order = unified(&s, &texts, &bands);
    // Raster 103 has no band yet and stands on top.
    assert_eq!(names(&order), vec!["g0", "r102", "p:b", "r101", "g1", "r103"]);
    // A pinned text without a band of its own stands with its group.
    let few = vec![raster_band(101, 0), Band::TextGroup { layer_idx: 1, z: 1 }];
    let order = unified(&s, &texts, &few);
    assert_eq!(names(&order), vec!["r101", "g1", "p:b", "r102", "r103", "g0"]);
}

#[test]
fn groups_stand_at_their_lowest_member() {
    let mut s = page();
    let g = s.add_group_with_uid(String::from("G"), 900);
    let (a, c) = (id_of(&s, 101), id_of(&s, 103));
    s.set_layer_group(a, Some(g));
    s.set_layer_group(c, Some(g));
    let bands = vec![raster_band(101, 0), raster_band(102, 1), raster_band(103, 2)];
    let order = unified(&s, &Vec::new(), &bands);
    assert_eq!(names(&order), vec!["r101", "r103", "r102"]);
    assert_eq!(segment_blocks(&order), vec![(0, 1), (2, 2)]);
    let (group_of, _) = current_membership(&s, &Vec::new());
    assert_eq!(
        group_of_member(&group_of, &uid_to_string(101)),
        Some(uid_to_string(900))
    );
    assert_eq!(group_of_member(&group_of, &uid_to_string(102)), None);
}

fn plain(names: &[(&str, Option<&str>)]) -> Vec<(BandRef, Option<String>)> {
    names
        .iter()
        .map(|(n, g)| (BandRef::PinnedText(n.to_string()), g.map(String::from)))
        .collect()
}

fn moved(order: Option<Vec<(BandRef, Option<String>)>>) -> Option<Vec<String>> {
    order.map(|o| names(&o))
}

#[test]
fn bands_move_past_whole_blocks() {
    let order = [("a", None), ("b", Some("G")), ("c", Some("G")), ("d", None)];
    assert_eq!(
        moved(move_band(plain(&order), 0, true)),
        Some(vec!["p:b".into(), "p:c".into(), "p:a".into(), "p:d".into()])
    );
    assert_eq!(
        moved(move_band(plain(&order), 3, false)),
        Some(vec!["p:a".into(), "p:d".into(), "p:b".into(), "p:c".into()])
    );
    assert_eq!(moved(move_band(plain(&order), 0, false)), None);
    assert_eq!(moved(move_band(plain(&order), 3, true)), None);
    // A member stays within its group; up and down give back the order.
    let up = move_band(plain(&order), 1, true).unwrap();
    assert_eq!(names(&up), vec!["p:a", "p:c", "p:b", "p:d"]);
    assert_eq!(
        moved(move_band(up, 2, false)),
        Some(vec!["p:a".into(), "p:b".into(), "p:c".into(), "p:d".into()])
    );
    assert_eq!(moved(move_band(plain(&order), 2, true)), None);
    assert_eq!(moved(move_band(plain(&order), 1, false)), None);
}

#[test]
fn groups_move_as_blocks() {
    let order =
        plain(&[("a", None), ("b", Some("G")), ("c", Some("G")), ("d", Some("H")), ("e", Some("H"))]);
    assert_eq!(
        moved(move_group(&order, &String::from("G"), true)),
        Some(vec!["p:a".into(), "p:d".into(), "p:e".into(), "p:b".into(), "p:c".into()])
    );
    assert_eq!(
        moved(move_group(&order, &String::from("G"), false)),
        Some(vec!["p:b".into(), "p:c".into(), "p:a".into(), "p:d".into(), "p:e".into()])
    );
    assert_eq!(moved(move_group(&order, &String::from("H"), true)), None);
    assert_eq!(moved(move_group(&order, &String::from("X"), true)), None);
}

#[test]
fn texts_get_and_lose_their_own_place() {
    let bands = vec![
        raster_band(101, 0),
        Band::TextGroup { layer_idx: 2, z: 1 },
        raster_band(102, 2),
    ];
    let mut t = text("a", 2, 0.0);
    let pinned = toggle_pin(&bands, &t);
    assert_eq!(refs(&pinned), vec!["r101", "g2", "p:a", "r102"]);
    let now = vec![
        raster_band(101, 0),
        Band::TextGroup { layer_idx: 2, z: 1 },
        Band::PinnedText { uid: String::from("a"), z: 2 },
        raster_band(102, 3),
    ];
    t.pinned = true;
    assert_eq!(refs(&toggle_pin(&now, &t)), vec!["r101", "g2", "r102"]);
    // Without a band of its group it goes to the top.
    let other = text("b", 9, 0.0);
    assert_eq!(refs(&toggle_pin(&bands, &other)), vec!["r101", "g2", "r102", "p:b"]);
    let texts = vec![text("x", 2, 5.0), text("y", 2, -1.0), t, text("z", 3, 0.0)];
    let uids = expand_order_to_node_uids(&pinned, &texts);
    assert_eq!(uids, vec![uid_to_string(101), "y".into(), "x".into(), "a".into(), uid_to_string(102)]);
    assert_eq!(pin_order(&texts, &bands, 9).map(|o| refs(&o)), None);
    assert_eq!(
        pin_order(&texts, &bands, 0).map(|o| refs(&o)),
        Some(vec!["r101".into(), "g2".into(), "p:x".into(), "r102".into()])
    );
}

#[test]
fn pages_are_drawn_from_the_bottom_up() {
    let mut s = page();
    let (a, b, c) = (id_of(&s, 101), id_of(&s, 102), id_of(&s, 103));
    let one = 1.0f32.to_bits();
    let half = 0.5f32.to_bits();
    let mut hidden = text("h", 0, 0.0);
    hidden.visible = false;
    let mut grouped = text("i", 0, 8.0);
    grouped.group_uid = Some(uid_to_string(900));
    let texts = vec![text("t", 0, 9.0), text("u", 0, 2.0), hidden, grouped];
    let bands = vec![
        raster_band(102, 0),
        Band::TextGroup { layer_idx: 0, z: 1 },
        raster_band(101, 2),
    ];
    let n = s.layers.len();
    let mut op = vec![one; n];
    s.add_group_with_uid(String::from("G"), 900);
    group_mut_by_uid(&mut s, &uid_to_string(900)).unwrap().opacity = half;
    let plan = plan_composite(&s, &texts, &bands, &op);
    assert_eq!(plan.base.len(), 2);
    assert_eq!(
        plan.steps,
        vec![
            DrawStep::Raster { id: b, opacity: one },
            DrawStep::Text { index: 1, opacity: one },
            DrawStep::Text { index: 3, opacity: half },
            DrawStep::Text { index: 0, opacity: one },
            DrawStep::Raster { id: a, opacity: one },
            DrawStep::Raster { id: c, opacity: one },
        ]
    );
    // Hidden groups, hidden layers and layers without opacity are not drawn.
    group_mut_by_uid(&mut s, &uid_to_string(900)).unwrap().visible = false;
    s.layer_mut(b).unwrap().visible = false;
    let at = s.layers.iter().position(|l| l.id == a).unwrap();
    op[at] = 0.0f32.to_bits();
    let plan = plan_composite(&s, &texts, &bands, &op);
    assert_eq!(
        plan.steps,
        vec![
            DrawStep::Text { index: 1, opacity: one },
            DrawStep::Text { index: 0, opacity: one },
            DrawStep::Raster { id: c, opacity: one },
        ]
    );
}

fn rows() -> Vec<RowSel> {
    vec![
        RowSel::Group(String::from("G")),
        RowSel::Raster(1),
        RowSel::Text(String::from("t")),
        RowSel::Raster(2),
    ]
}

fn shown(v: &[RowSel]) -> Vec<String> {
    v.iter()
        .map(|r| match r {
            RowSel::Raster(id) => format!("r{id}"),
            RowSel::Text(u) => format!("t:{u}"),
            RowSel::Group(u) => format!("g:{u}"),
        })
        .collect()
}

#[test]
fn rows_are_selected_as_in_lists() {
    let mut p = PanelSelection { selected: Vec::new(), anchor: None, primary: None };
    p.select_row(RowSel::Raster(1), false, false, &rows());
    assert_eq!(shown(&p.selected), vec!["r1"]);
    p.select_row(RowSel::Raster(2), true, false, &rows());
    assert_eq!(shown(&p.selected), vec!["r1", "t:t", "r2"]);
    // The range goes from the anchor, in either direction.
    p.select_row(RowSel::Group(String::from("G")), true, false, &rows());
    assert_eq!(shown(&p.selected), vec!["g:G", "r1"]);
    p.select_row(RowSel::Raster(2), false, true, &rows());
    assert_eq!(shown(&p.selected), vec!["g:G", "r1", "r2"]);
    p.select_row(RowSel::Raster(2), false, true, &rows());
    assert_eq!(shown(&p.selected), vec!["g:G", "r1"]);
    assert!(p.primary.as_ref().is_some_and(|r| r.same(&RowSel::Raster(2))));
    p.select_row(RowSel::Raster(1), false, false, &rows());
    assert_eq!(shown(&p.selected), vec!["r1"]);
}

fn stored(out: GroupOutcome) -> GroupingEdit {
    match out {
        GroupOutcome::Store(e) => e,
        _ => panic!("nothing to store"),
    }
}

#[test]
fn a_group_is_made_of_the_selection() {
    let mut s = page();
    let a = id_of(&s, 101);
    let mut user_pinned = text("p", 0, 0.0);
    user_pinned.pinned = true;
    let texts = vec![text("t", 0, 1.0), user_pinned];
    let bands = vec![
        raster_band(101, 0),
        raster_band(102, 1),
        Band::TextGroup { layer_idx: 0, z: 2 },
        Band::PinnedText { uid: String::from("p"), z: 3 },
    ];
    let chosen =
        vec![RowSel::Raster(a), RowSel::Text(String::from("t")), RowSel::Text(String::from("p"))];
    let e = stored(group_op(&mut s, &texts, &bands, &chosen, GroupOp::NewFromSelection, 900));
    assert_eq!(e.new_groups.len(), 1);
    assert_eq!((e.new_groups[0].name.as_str(), e.new_groups[0].visible), ("Группа 1", true));
    assert_eq!(e.new_groups[0].uid, uid_to_string(900));
    assert_eq!(f32::from_bits(e.new_groups[0].opacity), 1.0);
    let joined: Vec<&str> = e.set_membership.iter().map(|m| m.uid.as_str()).collect();
    assert_eq!(joined, vec![uid_to_string(101).as_str(), "t", "p"]);
    assert!(e.set_membership.iter().all(|m| m.group == Some(uid_to_string(900))));
    // A text that the user had pinned is not pinned for the group.
    assert_eq!(e.pin_for_group, vec!["t"]);
    assert_eq!(refs(&e.order), vec!["r101", "p:t", "p:p", "r102", "r103"]);
    assert_eq!(s.groups.len(), 1);
    let at = s.layers.iter().position(|l| l.id == a).unwrap();
    assert_eq!(s.layer_group_uid(at), Some(uid_to_string(900)));
}

#[test]
fn a_deleted_group_lets_its_members_go() {
    let mut s = page();
    let g = s.add_group_with_uid(String::from("G"), 900);
    let a = id_of(&s, 101);
    s.set_layer_group(a, Some(g));
    let mut t = text("t", 0, 1.0);
    t.group_uid = Some(uid_to_string(900));
    t.pinned = true;
    t.pinned_by_group = true;
    let op = GroupOp::DeleteGroup(uid_to_string(900));
    let e = stored(group_op(&mut s, &vec![t], &Vec::new(), &Vec::new(), op, 1));
    assert_eq!(e.remove_groups, vec![uid_to_string(900)]);
    assert_eq!(e.unpin_for_group, vec!["t"]);
    assert!(e.set_membership.iter().all(|m| m.group.is_none()));
    assert_eq!(e.set_membership.len(), 2);
    assert!(s.groups.is_empty());
    let at = s.layers.iter().position(|l| l.id == a).unwrap();
    assert_eq!(s.layer_group_uid(at), None);
}

#[test]
fn groups_are_folded_hidden_and_moved() {
    let mut s = page();
    s.add_group_with_uid(String::from("G"), 900);
    let uid = uid_to_string(900);
    let run = |s: &mut LayerStack, op: GroupOp| {
        let mut dirty = false;
        let noted = matches!(
            op,
            GroupOp::ToggleCollapse(_) | GroupOp::ToggleGroupVisible(_) | GroupOp::GroupOpacity(..)
        );
        let none = Vec::new();
        let out = apply_group_op(s, &mut dirty, &Vec::new(), &Vec::new(), &none, op, 1);
        assert_eq!(dirty, noted);
        out
    };
    assert!(matches!(run(&mut s, GroupOp::ToggleCollapse(uid.clone())), GroupOutcome::Noted));
    assert!(s.groups[0].collapsed);
    run(&mut s, GroupOp::ToggleCollapse(uid.clone()));
    assert!(!s.groups[0].collapsed);
    run(&mut s, GroupOp::ToggleGroupVisible(uid.clone()));
    assert!(!s.groups[0].visible);
    run(&mut s, GroupOp::GroupOpacity(uid.clone(), 0.25f32.to_bits()));
    assert_eq!(f32::from_bits(s.groups[0].opacity), 0.25);
    match run(&mut s, GroupOp::MoveGroup(uid.clone(), true)) {
        GroupOutcome::Move { uid: u, up } => assert!(u == uid && up),
        _ => panic!("no move"),
    }
}

#[test]
fn leaving_a_group_releases_its_pins() {
    let mut s = page();
    let g = s.add_group_with_uid(String::from("G"), 900);
    let a = id_of(&s, 101);
    s.set_layer_group(a, Some(g));
    let mut own = text("own", 0, 1.0);
    own.pinned = true;
    own.group_uid = Some(uid_to_string(900));
    let mut kept = text("kept", 0, 2.0);
    kept.pinned = true;
    kept.pinned_by_group = true;
    kept.group_uid = Some(uid_to_string(900));
    let chosen = vec![
        RowSel::Raster(a),
        RowSel::Text(String::from("own")),
        RowSel::Text(String::from("kept")),
    ];
    let e = stored(group_op(&mut s, &vec![own, kept], &Vec::new(), &chosen, GroupOp::Ungroup, 1));
    assert_eq!(e.unpin_for_group, vec!["kept"]);
    assert!(e.pin_for_group.is_empty() && e.new_groups.is_empty());
    assert!(e.set_membership.iter().all(|m| m.group.is_none()));
    assert_eq!(s.groups.len(), 1);
    let to = GroupOp::MoveTo(uid_to_string(900));
    let e = stored(group_op(&mut s, &Vec::new(), &Vec::new(), &vec![RowSel::Raster(a)], to, 1));
    assert_eq!(e.set_membership.len(), 1);
    let at = s.layers.iter().position(|l| l.id == a).unwrap();
    assert_eq!(s.layer_group_uid(at), Some(uid_to_string(900)));
}

fn edits_of(edits: &[DocEdit]) -> Vec<String> {
    edits
        .iter()
        .map(|e| match e {
            DocEdit::SetVisibility { visible, .. } => format!("visible {visible}"),
            DocEdit::SetOpacity { opacity, .. } => format!("opacity {}", f32::from_bits(*opacity)),
            DocEdit::AddNode(n) => format!("add {}", n.name),
            DocEdit::RemoveNode { .. } => String::from("remove"),
            DocEdit::SetZOrder(v) => format!("order {}", v.len()),
            DocEdit::ReorderNodeOne { up, .. } => format!("one {up}"),
            DocEdit::ReorderGroupBlock { up, .. } => format!("block {up}"),
            DocEdit::AddGroup(g) => format!("group {}", g.name),
            DocEdit::RemoveGroup { uid } => format!("ungroup {uid}"),
            DocEdit::SetGroup { uid, group } => format!("member {uid} {}", group.is_some()),
            _ => String::from("other"),
        })
        .collect()
}

#[test]
fn grouping_reaches_the_document_in_order() {
    let mut edit = GroupingEdit {
        new_groups: Vec::new(),
        remove_groups: vec![String::from("old")],
        set_membership: vec![
            Member { uid: String::from("a"), group: Some(String::from("G")) },
            Member { uid: String::from("b"), group: None },
        ],
        pin_for_group: Vec::new(),
        unpin_for_group: Vec::new(),
        order: vec![BandRef::PinnedText(String::from("a")), BandRef::TextGroup(0)],
    };
    let texts = vec![text("x", 0, 1.0)];
    assert_eq!(
        edits_of(&persist_grouping(&edit, &texts)),
        vec!["ungroup old", "member a true", "member b false", "order 2"]
    );
    edit.order = Vec::new();
    assert_eq!(
        edits_of(&persist_grouping(&edit, &texts)),
        vec!["ungroup old", "member a true", "member b false"]
    );
    assert_eq!(edits_of(&[order_edit(&vec![BandRef::TextGroup(0)], &texts)]), vec!["order 1"]);
}

#[test]
fn bands_are_moved_by_their_rows() {
    let mut s = page();
    let bands = vec![raster_band(101, 0), raster_band(102, 1), raster_band(103, 2)];
    let a = id_of(&s, 101);
    let none = Vec::new();
    let m = move_band_one(&s, &none, &bands, &RowSel::Raster(a), true).unwrap();
    assert_eq!(refs(&m.order), vec!["r102", "r101", "r103"]);
    assert!(!m.grouped);
    assert_eq!(edits_of(&[band_move_edit(&m, true, &none)]), vec!["order 3"]);
    assert!(move_band_one(&s, &none, &bands, &RowSel::Raster(a), false).is_none());
    assert!(move_band_one(&s, &none, &bands, &RowSel::Raster(999), true).is_none());
    assert!(move_band_one(&s, &none, &bands, &RowSel::Text(String::from("t")), true).is_none());
    assert!(move_band_one(&s, &none, &bands, &RowSel::Group(String::from("G")), true).is_none());
    let g = s.add_group_with_uid(String::from("G"), 900);
    let b = id_of(&s, 102);
    s.set_layer_group(a, Some(g));
    s.set_layer_group(b, Some(g));
    let m = move_band_one(&s, &none, &bands, &RowSel::Raster(a), true).unwrap();
    assert!(m.grouped && m.uid == uid_to_string(101));
    assert_eq!(edits_of(&[band_move_edit(&m, true, &none)]), vec!["one true"]);
    let (order, e) = move_group_block(&s, &none, &bands, &uid_to_string(900), true).unwrap();
    assert_eq!(refs(&order), vec!["r103", "r101", "r102"]);
    assert_eq!(edits_of(&[e]), vec!["block true"]);
    assert!(move_group_block(&s, &none, &bands, &uid_to_string(900), false).is_none());
}

#[test]
fn panel_steps_come_in_their_order() {
    assert!(panel_steps(PanelActions::none(), false).is_empty());
    assert!(matches!(panel_steps(PanelActions::none(), true)[..], [PanelStep::EndOpacity]));
    let mut a = PanelActions::none();
    a.group_op = Some(GroupOp::Ungroup);
    a.remove_raster = Some(3);
    a.opacity_raster = Some((2, 0));
    a.add_layer = true;
    a.text_op = Some((1, TextLayerOp::TogglePin));
    a.toggle_visible_text = Some(1);
    let steps = panel_steps(a, true);
    assert!(matches!(
        steps[..],
        [
            PanelStep::AddLayer,
            PanelStep::ToggleText(1),
            PanelStep::Opacity(2, 0),
            PanelStep::Remove(3),
            PanelStep::TextOp(1, TextLayerOp::TogglePin),
            PanelStep::Group(GroupOp::Ungroup),
        ]
    ));
}

#[test]
fn layers_are_added_and_removed_with_undo() {
    let mut stack = Some(page());
    let mut primary = None;
    let r = add_layer(&mut stack, &mut primary, Some(4), 555).unwrap();
    assert!(primary.is_some_and(|p| p.same(&RowSel::Raster(r.id))));
    assert!(matches!(r.doc, Some(DocEdit::AddNode(_))));
    let bands = vec![raster_band(101, 0), Band::Raster { uid: uid_to_string(555), z: 1 }];
    match added_op(&stack, &bands, 4, r.id).unwrap() {
        PsEditOp::LayerLifecycle { page_idx, z, dir, layer } => {
            assert_eq!((page_idx, z, dir, layer.uid), (4, 1, LifecycleDir::Added, 555));
        }
        _ => panic!("no layer"),
    }
    let mut deleted = DeletedRasters::new();
    let gone = remove_raster(&mut stack, &bands, &mut deleted, Some(4), r.id);
    assert!(matches!(gone.doc, Some(DocEdit::RemoveNode { .. })));
    match gone.op.unwrap() {
        PsEditOp::LayerLifecycle { z, dir, layer, .. } => {
            assert_eq!((z, dir, layer.uid), (1, LifecycleDir::Removed, 555));
        }
        _ => panic!("no layer"),
    }
    assert_eq!(deleted.of_page(4), vec![uid_to_string(555)]);
    // A base layer is not recorded.
    let base = stack.as_ref().unwrap().layers[0].id;
    let mut none = DeletedRasters::new();
    let kept = remove_raster(&mut stack, &bands, &mut none, Some(4), base);
    assert!(kept.op.is_none() && none.of_page(4).is_empty());
    let mut empty = None;
    assert!(add_layer(&mut empty, &mut None, Some(4), 1).is_none());
    let mut s = page();
    new_empty_group(&mut s, 77);
    assert_eq!((s.groups[0].name.as_str(), s.groups[0].uid), ("Группа 1", 77));
}

#[test]
fn eyes_toggle_layers_and_texts() {
    let mut stack = Some(page());
    let a = id_of(stack.as_ref().unwrap(), 101);
    assert_eq!(raster_uid(&stack, a), Some(uid_to_string(101)));
    assert_eq!(raster_uid(&stack, 999), None);
    let c = toggle_visible_raster(&stack, Some(4), a).unwrap();
    assert_eq!(edits_of(&[c.doc]), vec!["visible false"]);
    assert!(matches!(
        c.op,
        PsEditOp::FieldPatch { field: LayerFieldPatch::Visibility { before: true, after: false }, .. }
    ));
    set_visible(&mut stack, a, false);
    assert!(!stack.as_ref().unwrap().layer(a).unwrap().visible);
    assert!(toggle_visible_raster(&stack, None, a).is_none());
    let mut texts = vec![text("t", 0, 0.0)];
    toggle_visible_text(&mut texts, 0);
    assert!(!texts[0].visible);
    toggle_visible_text(&mut texts, 7);
    toggle_visible_text(&mut texts, 0);
    assert!(texts[0].visible);
}

#[test]
fn one_drag_of_the_slider_is_one_edit() {
    let mut stack = Some(page());
    let a = id_of(stack.as_ref().unwrap(), 101);
    let mut g = Gestures::new();
    let (half, third) = (0.5f32.to_bits(), 0.3f32.to_bits());
    let doc = opacity_moved(&mut stack, &mut g, Some(4), a, half).unwrap();
    assert_eq!(edits_of(&[doc]), vec!["opacity 0.5"]);
    set_opacity(&mut stack, a, half);
    opacity_moved(&mut stack, &mut g, Some(4), a, third);
    set_opacity(&mut stack, a, third);
    match opacity_rests(&stack, &mut g, Some(4), true).unwrap() {
        PsEditOp::FieldPatch { field: LayerFieldPatch::Opacity { before, after }, .. } => {
            assert_eq!((f32::from_bits(before), after), (1.0, third));
        }
        _ => panic!("no opacity"),
    }
    assert!(opacity_rests(&stack, &mut g, Some(4), true).is_none());
    opacity_moved(&mut stack, &mut g, Some(4), a, half);
    assert!(opacity_rests(&stack, &mut g, Some(4), false).is_none());
}

#[test]
fn document_edits_note_what_is_unsaved() {
    let mut dirty = false;
    assert!(!edit_doc_node(DocAccess::NotResident, &mut dirty) && !dirty);
    assert!(edit_doc_node(DocAccess::Ready, &mut dirty) && dirty);
    assert!(!route_to_doc(DocAccess::Locked, &mut dirty) && dirty);
    assert!(!route_to_doc(DocAccess::NoDocument, &mut dirty) && dirty);
    assert!(route_to_doc(DocAccess::Ready, &mut dirty) && !dirty);
}

#[test]
fn the_panel_lists_the_tree() {
    let mut s = page();
    s.add_group_with_uid(String::from("G"), 900);
    let base = s.layers[0].id;
    let a = id_of(&s, 101);
    let header = GroupHeader {
        uid: uid_to_string(900),
        name: String::from("G"),
        visible: true,
        collapsed: false,
        depth: 0,
    };
    let tree = vec![
        TreeItem::Group(header),
        TreeItem::Leaf { kind: LeafKind::Text(0), depth: 1 },
        TreeItem::Leaf { kind: LeafKind::Raster(a), depth: 0 },
        TreeItem::Leaf { kind: LeafKind::Base(base), depth: 0 },
    ];
    let texts = vec![text("t", 0, 0.0)];
    assert_eq!(group_list(&s), vec![(uid_to_string(900), String::from("G"))]);
    let stack = Some(s);
    let rows = build_panel_rows(&stack, &texts, &vec![String::from("words")], &tree);
    assert_eq!(rows.len(), 4);
    assert_eq!(
        shown(&row_selections(&rows)),
        vec![format!("g:{}", uid_to_string(900)), String::from("t:t"), format!("r{a}")]
    );
    assert!(build_panel_rows(&None, &texts, &vec![String::new()], &tree).is_empty());
    let leaf = |i: usize| -> &PanelLeaf {
        match &rows[i] {
            PanelRow::Leaf(l) => l,
            _ => panic!("no leaf"),
        }
    };
    assert!(leaf(3).is_base && leaf(3).sel.is_none() && leaf(2).visible);
    let sels = row_selections(&rows);
    let mut sel = PanelSelection { selected: Vec::new(), anchor: None, primary: None };
    let mut actions = PanelActions::none();
    leaf_clicked(leaf(2), false, false, &sels, &mut sel, &mut actions);
    assert_eq!((actions.set_active_raster, actions.request_select_active), (Some(a), true));
    assert_eq!(shown(&sel.selected), vec![format!("r{a}")]);
    leaf_secondary_clicked(leaf(1), &sels, &mut sel);
    assert_eq!(shown(&sel.selected), vec!["t:t"]);
    leaf_clicked(leaf(3), false, false, &sels, &mut sel, &mut actions);
    assert_eq!(actions.set_active_raster, Some(base));
    assert!(sel.primary.is_none());
    leaf_eye_clicked(LeafKind::Text(0), &mut actions);
    assert_eq!(actions.toggle_visible_text, Some(0));
    leaf_eye_clicked(LeafKind::Raster(a), &mut actions);
    assert_eq!(actions.toggle_visible_raster, Some(a));
}

#[test]
fn controls_fit_the_active_row() {
    let s = page();
    let (a, b) = (id_of(&s, 101), id_of(&s, 102));
    let bands = vec![raster_band(101, 0), raster_band(102, 1)];
    let texts = vec![text("t", 0, 0.0)];
    let stack = Some(s);
    assert!(matches!(active_controls(&stack, &texts, &bands, &None), Controls::Hint));
    let row = Some(RowSel::Raster(a));
    assert!(matches!(active_controls(&None, &texts, &bands, &row), Controls::Nothing));
    assert!(matches!(
        active_controls(&stack, &texts, &bands, &row),
        Controls::Raster { mergeable: false, can_bake: false, .. }
    ));
    let row = Some(RowSel::Raster(b));
    let c = active_controls(&stack, &texts, &bands, &row);
    assert!(matches!(c, Controls::Raster { mergeable: true, .. }));
    let mut actions = PanelActions::none();
    control_used(&c, Control::Delete, &mut actions);
    control_used(&c, Control::Merge, &mut actions);
    control_used(&c, Control::Up, &mut actions);
    assert_eq!((actions.remove_raster, actions.merge_req), (Some(b), Some(b)));
    assert!(actions.move_band.is_some_and(|(r, up)| r.same(&RowSel::Raster(b)) && up));
    let row = Some(RowSel::Text(String::from("t")));
    let c = active_controls(&stack, &texts, &bands, &row);
    assert!(matches!(c, Controls::Text { index: 0, pinned: false, .. }));
    let mut actions = PanelActions::none();
    control_used(&c, Control::Rasterize, &mut actions);
    assert_eq!(actions.text_op, Some((0, TextLayerOp::Rasterize)));
    let gone = Some(RowSel::Group(String::from("x")));
    assert!(matches!(active_controls(&stack, &texts, &bands, &gone), Controls::Nothing));
    assert!(matches!(
        group_row_used(&String::from("g"), GroupControl::Up),
        GroupOp::MoveGroup(_, true)
    ));
    assert!(matches!(
        group_row_used(&String::from("g"), GroupControl::Eye),
        GroupOp::ToggleGroupVisible(_)
    ));
}
