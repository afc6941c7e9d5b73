//! The rows of the layers panel, the controls of the active row, and what clicking them asks for.

use vstd::prelude::*;
use vstd::string::StringExecFns;
use crate::bands::{is_mergeable, Band};
#[allow(unused_imports)]
use crate::bands::{band_views, beneath, BandView};
use crate::ident::uid_to_string;
#[allow(unused_imports)]
use crate::ident::{texts, uid_text};
use crate::layers::{LayerId, LayerStack};
#[allow(unused_imports)]
use crate::layers::{group_from, layer_called, StackView};
use crate::panel::{find_row, GroupOp, PanelSelection, RowSel};
#[allow(unused_imports)]
use crate::panel::{clicked, opt_row, row_from, row_views, RowView};
#[allow(unused_imports)]
use crate::raster_edits::{opt_stack, opt_stack_wf};
use crate::selection_ops::find_text;
#[allow(unused_imports)]
use crate::selection_ops::text_from;
use crate::text_layers::PsTextLayer;
#[allow(unused_imports)]
use crate::text_layers::{text_views, TextView};

verus! {

/// What a row without rows below it stands for.
#[derive(Clone, Copy, Debug, PartialEq, Eq, Structural)]
pub enum LeafKind {
    Base(LayerId),
    Raster(LayerId),
    /// The place of a text among the texts of the page.
    Text(usize),
}

/// The row of a group.
pub struct GroupHeader {
    pub uid: String,
    pub name: String,
    pub visible: bool,
    pub collapsed: bool,
    pub depth: u8,
}

/// The row of a group as a mathematical value.
#[verifier::ext_equal]
pub struct HeaderView {
    pub uid: Seq<char>,
    pub name: Seq<char>,
    pub visible: bool,
    pub collapsed: bool,
    pub depth: u8,
}

impl View for GroupHeader {
    type V = HeaderView;

    open spec fn view(&self) -> HeaderView {
        HeaderView {
            uid: self.uid@,
            name: self.name@,
            visible: self.visible,
            collapsed: self.collapsed,
            depth: self.depth,
        }
    }
}

/// An item of the tree of layers, from the top down.
pub enum TreeItem {
    Group(GroupHeader),
    Leaf { kind: LeafKind, depth: u8 },
}

/// An item of the tree as a mathematical value.
pub enum ItemView {
    Group(HeaderView),
    Leaf { kind: LeafKind, depth: u8 },
}

impl View for TreeItem {
    type V = ItemView;

    open spec fn view(&self) -> ItemView {
        match self {
            TreeItem::Group(h) => ItemView::Group(h@),
            TreeItem::Leaf { kind, depth } => ItemView::Leaf { kind: *kind, depth: *depth },
        }
    }
}

/// The row of a layer or a text.
pub struct PanelLeaf {
    /// What selecting the row selects; nothing for a base layer.
    pub sel: Option<RowSel>,
    pub kind: LeafKind,
    pub depth: u8,
    pub name: String,
    pub visible: bool,
    pub is_base: bool,
}

/// The row of a layer or a text as a mathematical value.
#[verifier::ext_equal]
pub struct PanelLeafView {
    pub sel: Option<RowView>,
    pub kind: LeafKind,
    pub depth: u8,
    pub name: Seq<char>,
    pub visible: bool,
    pub is_base: bool,
}

impl View for PanelLeaf {
    type V = PanelLeafView;

    open spec fn view(&self) -> PanelLeafView {
        PanelLeafView {
            sel: opt_row(self.sel),
            kind: self.kind,
            depth: self.depth,
            name: self.name@,
            visible: self.visible,
            is_base: self.is_base,
        }
    }
}

pub enum PanelRow {
    Group(GroupHeader),
    Leaf(PanelLeaf),
}

pub enum PanelRowView {
    Group(HeaderView),
    Leaf(PanelLeafView),
}

impl View for PanelRow {
    type V = PanelRowView;

    open spec fn view(&self) -> PanelRowView {
        match self {
            PanelRow::Group(h) => PanelRowView::Group(h@),
            PanelRow::Leaf(l) => PanelRowView::Leaf(l@),
        }
    }
}

pub open spec fn panel_row_views(v: Seq<PanelRow>) -> Seq<PanelRowView> {
    v.map_values(|r: PanelRow| r@)
}

pub open spec fn item_views(v: Seq<TreeItem>) -> Seq<ItemView> {
    v.map_values(|i: TreeItem| i@)
}

/// The name in the row of a text: the start of its words, or else its name.
pub open spec fn text_row_name(t: TextView, preview: Seq<char>) -> Seq<char> {
    if preview.len() == 0 {
        t.name
    } else {
        "Текст ("@ + preview + ")"@
    }
}

/// The row of a layer or a text.
pub open spec fn leaf_row(
    s: StackView,
    ts: Seq<TextView>,
    previews: Seq<Seq<char>>,
    kind: LeafKind,
    depth: u8,
) -> PanelLeafView {
    match kind {
        LeafKind::Base(id) => PanelLeafView {
            sel: None,
            kind,
            depth,
            name: match layer_called(s.layers, id) {
                Some(l) => l.name,
                None => "слой"@,
            },
            visible: layer_called(s.layers, id) is Some && (layer_called(s.layers, id)->0).visible,
            is_base: true,
        },
        LeafKind::Raster(id) => PanelLeafView {
            sel: Some(RowView::Raster(id)),
            kind,
            depth,
            name: match layer_called(s.layers, id) {
                Some(l) => l.name,
                None => "растр"@,
            },
            visible: layer_called(s.layers, id) is Some && (layer_called(s.layers, id)->0).visible,
            is_base: false,
        },
        LeafKind::Text(i) => PanelLeafView {
            sel: if i < ts.len() {
                Some(RowView::Text(ts[i as int].uid))
            } else {
                None
            },
            kind,
            depth,
            name: if i < ts.len() {
                text_row_name(ts[i as int], previews[i as int])
            } else {
                "текст"@
            },
            visible: i < ts.len() && ts[i as int].visible,
            is_base: false,
        },
    }
}

pub open spec fn panel_row(
    s: StackView,
    ts: Seq<TextView>,
    previews: Seq<Seq<char>>,
    item: ItemView,
) -> PanelRowView {
    match item {
        ItemView::Group(h) => PanelRowView::Group(h),
        ItemView::Leaf { kind, depth } => PanelRowView::Leaf(
            leaf_row(s, ts, previews, kind, depth),
        ),
    }
}

pub open spec fn panel_rows(
    s: StackView,
    ts: Seq<TextView>,
    previews: Seq<Seq<char>>,
    tree: Seq<ItemView>,
) -> Seq<PanelRowView> {
    tree.map_values(|i: ItemView| panel_row(s, ts, previews, i))
}

fn layer_row(stack: &LayerStack, id: LayerId, unnamed: &str) -> (r: (String, bool))
    ensures
        r.0@ == match layer_called(stack@.layers, id) {
            Some(l) => l.name,
            None => unnamed@,
        },
        r.1 == (layer_called(stack@.layers, id) is Some && (layer_called(
            stack@.layers,
            id,
        )->0).visible),
{
    match stack.layer(id) {
        Some(l) => (l.name.clone(), l.visible),
        None => (String::from_str(unnamed), false),
    }
}

fn build_leaf(
    stack: &LayerStack,
    text_layers: &Vec<PsTextLayer>,
    previews: &Vec<String>,
    kind: LeafKind,
    depth: u8,
) -> (leaf: PanelLeaf)
    requires
        previews@.len() == text_layers@.len(),
    ensures
        leaf@ == leaf_row(
            stack@,
            text_views(text_layers@),
            texts(previews@),
            kind,
            depth,
        ),
{
    match kind {
        LeafKind::Base(id) => {
            let (name, visible) = layer_row(stack, id, "слой");
            PanelLeaf { sel: None, kind, depth, name, visible, is_base: true }
        },
        LeafKind::Raster(id) => {
            let (name, visible) = layer_row(stack, id, "растр");
            PanelLeaf {
                sel: Some(RowSel::Raster(id)),
                kind,
                depth,
                name,
                visible,
                is_base: false,
            }
        },
        LeafKind::Text(i) => {
            if i < text_layers.len() {
                let t = &text_layers[i];
                assert(text_views(text_layers@)[i as int] == t@);
                assert(texts(previews@)[i as int] == previews@[i as int]@);
                let empty = previews[i].as_str().unicode_len() == 0;
                let name = if empty {
                    t.name.clone()
                } else {
                    let mut n = String::from_str("Текст (");
                    n.append(previews[i].as_str());
                    n.append(")");
                    n
                };
                PanelLeaf {
                    sel: Some(RowSel::Text(t.uid.clone())),
                    kind,
                    depth,
                    name,
                    visible: t.visible,
                    is_base: false,
                }
            } else {
                PanelLeaf {
                    sel: None,
                    kind,
                    depth,
                    name: String::from_str("текст"),
                    visible: false,
                    is_base: false,
                }
            }
        },
    }
}

impl GroupHeader {
    pub fn copied(&self) -> (h: GroupHeader)
        ensures
            h@ == self@,
    {
        GroupHeader {
            uid: self.uid.clone(),
            name: self.name.clone(),
            visible: self.visible,
            collapsed: self.collapsed,
            depth: self.depth,
        }
    }
}

/// The rows of the panel, one for each item of the tree; none without a page.  `previews` holds
/// for each text the start of its words.
pub fn build_panel_rows(
    stack: &Option<LayerStack>,
    text_layers: &Vec<PsTextLayer>,
    previews: &Vec<String>,
    tree: &Vec<TreeItem>,
) -> (rows: Vec<PanelRow>)
    requires
        previews@.len() == text_layers@.len(),
    ensures
        panel_row_views(rows@) == match opt_stack(*stack) {
            Some(s) => panel_rows(
                s,
                text_views(text_layers@),
                texts(previews@),
                item_views(tree@),
            ),
            None => Seq::empty(),
        },
{
    let mut rows: Vec<PanelRow> = Vec::new();
    assert(panel_row_views(rows@) =~= Seq::empty());
    match stack {
        None => rows,
        Some(s) => {
            let ghost target = panel_rows(
                s@,
                text_views(text_layers@),
                texts(previews@),
                item_views(tree@),
            );
            let mut n: usize = 0;
            while n < tree.len()
                invariant
                    n <= tree@.len(),
                    previews@.len() == text_layers@.len(),
                    target == panel_rows(
                        s@,
                        text_views(text_layers@),
                        texts(previews@),
                        item_views(tree@),
                    ),
                    panel_row_views(rows@) == target.take(n as int),
                decreases tree@.len() - n,
            {
                let ghost before = rows@;
                assert(item_views(tree@)[n as int] == tree@[n as int]@);
                let row = match &tree[n] {
                    TreeItem::Group(h) => PanelRow::Group(h.copied()),
                    TreeItem::Leaf { kind, depth } => PanelRow::Leaf(
                        build_leaf(s, text_layers, previews, *kind, *depth),
                    ),
                };
                let ghost rv = row@;
                rows.push(row);
                assert(rv == target[n as int]);
                assert(panel_row_views(rows@) =~= panel_row_views(before).push(rv));
                n += 1;
                assert(panel_row_views(rows@) =~= target.take(n as int));
            }
            assert(target.take(target.len() as int) =~= target);
            rows
        },
    }
}

/// The rows among the first `n` that can be selected.
pub open spec fn selectable(rows: Seq<PanelRowView>, n: int) -> Seq<RowView>
    decreases n,
{
    if n <= 0 {
        Seq::empty()
    } else {
        let prev = selectable(rows, n - 1);
        match rows[n - 1] {
            PanelRowView::Group(h) => prev.push(RowView::Group(h.uid)),
            PanelRowView::Leaf(l) => match l.sel {
                Some(r) => prev.push(r),
                None => prev,
            },
        }
    }
}

/// The rows that can be selected, from the top down.
pub fn row_selections(rows: &Vec<PanelRow>) -> (sels: Vec<RowSel>)
    ensures
        row_views(sels@) == selectable(panel_row_views(rows@), rows@.len() as int),
{
    let mut sels: Vec<RowSel> = Vec::new();
    assert(row_views(sels@) =~= Seq::empty());
    let mut n: usize = 0;
    while n < rows.len()
        invariant
            n <= rows@.len(),
            row_views(sels@) == selectable(panel_row_views(rows@), n as int),
        decreases rows@.len() - n,
    {
        let ghost before = sels@;
        assert(panel_row_views(rows@)[n as int] == rows@[n as int]@);
        match &rows[n] {
            PanelRow::Group(h) => {
                let r = RowSel::Group(h.uid.clone());
                let ghost rv = r@;
                sels.push(r);
                assert(row_views(sels@) =~= row_views(before).push(rv));
            },
            PanelRow::Leaf(l) => {
                if let Some(sel) = &l.sel {
                    let r = sel.copied();
                    let ghost rv = r@;
                    sels.push(r);
                    assert(row_views(sels@) =~= row_views(before).push(rv));
                }
            },
        }
        n += 1;
    }
    sels
}

/// The groups of a page, by identifier and name.
pub fn group_list(stack: &LayerStack) -> (list: Vec<(String, String)>)
    ensures
        list@.len() == stack@.groups.len(),
        forall|i: int|
            0 <= i < list@.len() ==> (#[trigger] list@[i]).0@ == uid_text(stack@.groups[i].uid)
                && list@[i].1@ == stack@.groups[i].name,
{
    let mut list: Vec<(String, String)> = Vec::new();
    let mut i: usize = 0;
    while i < stack.groups.len()
        invariant
            i <= stack.groups@.len(),
            list@.len() == i,
            forall|k: int|
                0 <= k < i ==> (#[trigger] list@[k]).0@ == uid_text(stack@.groups[k].uid)
                    && list@[k].1@ == stack@.groups[k].name,
        decreases stack.groups@.len() - i,
    {
        let g = &stack.groups[i];
        assert(stack@.groups[i as int] == g@);
        list.push((uid_to_string(g.uid), g.name.clone()));
        i += 1;
    }
    list
}

/// What is done with a text.
#[derive(Clone, Copy, Debug, PartialEq, Eq, Structural)]
pub enum TextLayerOp {
    /// It gets a place of its own in the order of the layers, or loses it.
    TogglePin,
    /// It becomes a layer.
    Rasterize,
}

/// What was asked for in the panel in a frame.
pub struct PanelActions {
    pub add_layer: bool,
    pub new_empty_group: bool,
    pub set_active_raster: Option<LayerId>,
    pub toggle_visible_raster: Option<LayerId>,
    pub toggle_visible_text: Option<usize>,
    pub opacity_raster: Option<(LayerId, u32)>,
    pub move_band: Option<(RowSel, bool)>,
    pub remove_raster: Option<LayerId>,
    pub merge_req: Option<LayerId>,
    pub bake_req: Option<LayerId>,
    pub open_effects: Option<LayerId>,
    pub text_op: Option<(usize, TextLayerOp)>,
    pub group_op: Option<GroupOp>,
    /// The active layer is to be selected on the canvas.
    pub request_select_active: bool,
}

impl PanelActions {
    pub fn none() -> (a: PanelActions)
        ensures
            a == (PanelActions {
                add_layer: false,
                new_empty_group: false,
                set_active_raster: None,
                toggle_visible_raster: None,
                toggle_visible_text: None,
                opacity_raster: None,
                move_band: None,
                remove_raster: None,
                merge_req: None,
                bake_req: None,
                open_effects: None,
                text_op: None,
                group_op: None,
                request_select_active: false,
            }),
    {
        PanelActions {
            add_layer: false,
            new_empty_group: false,
            set_active_raster: None,
            toggle_visible_raster: None,
            toggle_visible_text: None,
            opacity_raster: None,
            move_band: None,
            remove_raster: None,
            merge_req: None,
            bake_req: None,
            open_effects: None,
            text_op: None,
            group_op: None,
            request_select_active: false,
        }
    }
}

/// The eye of a row was clicked.
pub fn leaf_eye_clicked(kind: LeafKind, actions: &mut PanelActions)
    ensures
        *final(actions) == match kind {
            LeafKind::Text(i) => PanelActions { toggle_visible_text: Some(i), ..*old(actions) },
            LeafKind::Raster(id) => PanelActions {
                toggle_visible_raster: Some(id),
                ..*old(actions)
            },
            LeafKind::Base(id) => PanelActions {
                toggle_visible_raster: Some(id),
                ..*old(actions)
            },
        },
{
    match kind {
        LeafKind::Text(i) => {
            actions.toggle_visible_text = Some(i);
        },
        LeafKind::Raster(id) => {
            actions.toggle_visible_raster = Some(id);
        },
        LeafKind::Base(id) => {
            actions.toggle_visible_raster = Some(id);
        },
    }
}

/// The row of a layer or a text was clicked.  A base layer only becomes active, and no row stays
/// the main one; any other row is selected, and a layer becomes active.
pub fn leaf_clicked(
    leaf: &PanelLeaf,
    shift: bool,
    command: bool,
    rows: &Vec<RowSel>,
    selection: &mut PanelSelection,
    actions: &mut PanelActions,
)
    ensures
        match leaf@.sel {
            None => match leaf.kind {
                LeafKind::Base(id) => {
                    &&& *final(actions) == (PanelActions {
                        set_active_raster: Some(id),
                        request_select_active: true,
                        ..*old(actions)
                    })
                    &&& *final(selection) == (PanelSelection { primary: None, ..*old(selection) })
                },
                _ => *final(actions) == *old(actions) && *final(selection) == *old(selection),
            },
            Some(row) => {
                &&& *final(actions) == (PanelActions {
                    set_active_raster: match leaf.kind {
                        LeafKind::Raster(id) => Some(id),
                        _ => old(actions).set_active_raster,
                    },
                    request_select_active: true,
                    ..*old(actions)
                })
                &&& clicked(*old(selection), *final(selection), row, shift, command, row_views(rows@))
            },
        },
{
    match &leaf.sel {
        None => {
            if let LeafKind::Base(id) = leaf.kind {
                actions.set_active_raster = Some(id);
                selection.primary = None;
                actions.request_select_active = true;
            }
        },
        Some(row) => {
            selection.select_row(row.copied(), shift, command, rows);
            if let LeafKind::Raster(id) = leaf.kind {
                actions.set_active_raster = Some(id);
            }
            actions.request_select_active = true;
        },
    }
}

/// The row of a layer or a text was clicked with the other button: it is selected alone, unless it
/// is selected already.
pub fn leaf_secondary_clicked(
    leaf: &PanelLeaf,
    rows: &Vec<RowSel>,
    selection: &mut PanelSelection,
)
    ensures
        match leaf@.sel {
            Some(row) => if row_from(row_views(old(selection).selected@), row, 0) is Some {
                *final(selection) == *old(selection)
            } else {
                clicked(*old(selection), *final(selection), row, false, false, row_views(rows@))
            },
            None => *final(selection) == *old(selection),
        },
{
    if let Some(row) = &leaf.sel {
        if find_row(&selection.selected, row).is_none() {
            selection.select_row(row.copied(), false, false, rows);
        }
    }
}

/// What the strip below the rows shows.
pub enum Controls {
    /// That a layer is to be chosen.
    Hint,
    Nothing,
    Raster { id: LayerId, name: String, opacity: u32, mergeable: bool, can_bake: bool },
    Text { index: usize, uid: String, name: String, pinned: bool },
    Group { uid: String, name: String, opacity: u32 },
}

pub enum ControlsView {
    Hint,
    Nothing,
    Raster { id: LayerId, name: Seq<char>, opacity: u32, mergeable: bool, can_bake: bool },
    Text { index: usize, uid: Seq<char>, name: Seq<char>, pinned: bool },
    Group { uid: Seq<char>, name: Seq<char>, opacity: u32 },
}

impl View for Controls {
    type V = ControlsView;

    open spec fn view(&self) -> ControlsView {
        match self {
            Controls::Hint => ControlsView::Hint,
            Controls::Nothing => ControlsView::Nothing,
            Controls::Raster { id, name, opacity, mergeable, can_bake } => ControlsView::Raster {
                id: *id,
                name: name@,
                opacity: *opacity,
                mergeable: *mergeable,
                can_bake: *can_bake,
            },
            Controls::Text { index, uid, name, pinned } => ControlsView::Text {
                index: *index,
                uid: uid@,
                name: name@,
                pinned: *pinned,
            },
            Controls::Group { uid, name, opacity } => ControlsView::Group {
                uid: uid@,
                name: name@,
                opacity: *opacity,
            },
        }
    }
}

/// What the strip below the rows shows for the main row.
pub open spec fn controls_for(
    s: Option<StackView>,
    ts: Seq<TextView>,
    bands: Seq<BandView>,
    primary: Option<RowView>,
) -> ControlsView {
    match (primary, s) {
        (None, _) => ControlsView::Hint,
        (Some(_), None) => ControlsView::Nothing,
        (Some(row), Some(v)) => match row {
            RowView::Raster(id) => match layer_called(v.layers, id) {
                Some(l) => ControlsView::Raster {
                    id,
                    name: l.name,
                    opacity: l.opacity,
                    mergeable: beneath(v, bands, id) is Some,
                    can_bake: l.effects.len() > 0,
                },
                None => ControlsView::Nothing,
            },
            RowView::Text(uid) => match text_from(ts, uid, 0) {
                Some(i) => ControlsView::Text {
                    index: i as usize,
                    uid,
                    name: ts[i].name,
                    pinned: ts[i].pinned,
                },
                None => ControlsView::Nothing,
            },
            RowView::Group(uid) => match group_from(v.groups, uid, 0) {
                Some(i) => ControlsView::Group {
                    uid,
                    name: v.groups[i].name,
                    opacity: v.groups[i].opacity,
                },
                None => ControlsView::Nothing,
            },
        },
    }
}

pub fn active_controls(
    stack: &Option<LayerStack>,
    text_layers: &Vec<PsTextLayer>,
    bands: &Vec<Band>,
    primary: &Option<RowSel>,
) -> (c: Controls)
    requires
        opt_stack_wf(*stack),
        bands@.len() <= u32::MAX,
    ensures
        c@ == controls_for(
            opt_stack(*stack),
            text_views(text_layers@),
            band_views(bands@),
            opt_row(*primary),
        ),
{
    let row = match primary {
        Some(r) => r,
        None => {
            return Controls::Hint;
        },
    };
    let s = match stack {
        Some(s) => s,
        None => {
            return Controls::Nothing;
        },
    };
    match row {
        RowSel::Raster(id) => match s.layer(*id) {
            Some(l) => {
                assert(l@.effects.len() == l.effects@.len());
                Controls::Raster {
                    id: *id,
                    name: l.name.clone(),
                    opacity: l.opacity,
                    mergeable: is_mergeable(s, bands, *id),
                    can_bake: l.effects.len() > 0,
                }
            },
            None => Controls::Nothing,
        },
        RowSel::Text(uid) => match find_text(text_layers, uid) {
            Some(i) => {
                let t = &text_layers[i];
                assert(text_views(text_layers@)[i as int] == t@);
                Controls::Text {
                    index: i,
                    uid: uid.clone(),
                    name: t.name.clone(),
                    pinned: t.pinned,
                }
            },
            None => Controls::Nothing,
        },
        RowSel::Group(uid) => match s.group_position(uid) {
            Some(i) => {
                let g = &s.groups[i];
                assert(s@.groups[i as int] == g@);
                Controls::Group { uid: uid.clone(), name: g.name.clone(), opacity: g.opacity }
            },
            None => Controls::Nothing,
        },
    }
}

/// A control of the strip below the rows.
#[derive(Clone, Copy, Debug, PartialEq, Eq, Structural)]
pub enum Control {
    Opacity(u32),
    Up,
    Down,
    Delete,
    Merge,
    Effects,
    Bake,
    Pin,
    Rasterize,
}

/// What using a control asks for, told apart by what the strip shows.
pub enum ControlAction {
    Nothing,
    OpacityRaster(LayerId, u32),
    MoveBand(RowView, bool),
    RemoveRaster(LayerId),
    Merge(LayerId),
    Effects(LayerId),
    Bake(LayerId),
    TextOp(usize, TextLayerOp),
    GroupOpacity(Seq<char>, u32),
    DeleteGroup(Seq<char>),
}

pub open spec fn control_action(c: ControlsView, k: Control) -> ControlAction {
    match c {
        ControlsView::Raster { id, mergeable, can_bake, .. } => match k {
            Control::Opacity(v) => ControlAction::OpacityRaster(id, v),
            Control::Up => ControlAction::MoveBand(RowView::Raster(id), true),
            Control::Down => ControlAction::MoveBand(RowView::Raster(id), false),
            Control::Delete => ControlAction::RemoveRaster(id),
            Control::Merge => if mergeable {
                ControlAction::Merge(id)
            } else {
                ControlAction::Nothing
            },
            Control::Effects => ControlAction::Effects(id),
            Control::Bake => if can_bake {
                ControlAction::Bake(id)
            } else {
                ControlAction::Nothing
            },
            _ => ControlAction::Nothing,
        },
        ControlsView::Text { index, uid, .. } => match k {
            Control::Pin => ControlAction::TextOp(index, TextLayerOp::TogglePin),
            Control::Rasterize => ControlAction::TextOp(index, TextLayerOp::Rasterize),
            Control::Up => ControlAction::MoveBand(RowView::Text(uid), true),
            Control::Down => ControlAction::MoveBand(RowView::Text(uid), false),
            _ => ControlAction::Nothing,
        },
        ControlsView::Group { uid, .. } => match k {
            Control::Opacity(v) => ControlAction::GroupOpacity(uid, v),
            Control::Delete => ControlAction::DeleteGroup(uid),
            _ => ControlAction::Nothing,
        },
        _ => ControlAction::Nothing,
    }
}

/// The actions are those from before with one more asked for.
pub open spec fn asked(a: PanelActions, b: PanelActions, what: ControlAction) -> bool {
    match what {
        ControlAction::Nothing => b == a,
        ControlAction::OpacityRaster(id, v) => b == (PanelActions {
            opacity_raster: Some((id, v)),
            ..a
        }),
        ControlAction::MoveBand(row, up) => b.move_band is Some && (b.move_band->0).0@ == row && (
        b.move_band->0).1 == up && b == (PanelActions { move_band: b.move_band, ..a }),
        ControlAction::RemoveRaster(id) => b == (PanelActions { remove_raster: Some(id), ..a }),
        ControlAction::Merge(id) => b == (PanelActions { merge_req: Some(id), ..a }),
        ControlAction::Effects(id) => b == (PanelActions { open_effects: Some(id), ..a }),
        ControlAction::Bake(id) => b == (PanelActions { bake_req: Some(id), ..a }),
        ControlAction::TextOp(i, op) => b == (PanelActions { text_op: Some((i, op)), ..a }),
        ControlAction::GroupOpacity(uid, v) => (b.group_op matches Some(
            GroupOp::GroupOpacity(u, w),
        ) && u@ == uid && w == v) && b == (PanelActions { group_op: b.group_op, ..a }),
        ControlAction::DeleteGroup(uid) => (b.group_op matches Some(GroupOp::DeleteGroup(u)) && u@
            == uid) && b == (PanelActions { group_op: b.group_op, ..a }),
    }
}

/// A control of the strip was used.
pub fn control_used(c: &Controls, k: Control, actions: &mut PanelActions)
    ensures
        asked(*old(actions), *final(actions), control_action(c@, k)),
{
    match c {
        Controls::Raster { id, mergeable, can_bake, .. } => match k {
            Control::Opacity(v) => {
                actions.opacity_raster = Some((*id, v));
            },
            Control::Up => {
                actions.move_band = Some((RowSel::Raster(*id), true));
            },
            Control::Down => {
                actions.move_band = Some((RowSel::Raster(*id), false));
            },
            Control::Delete => {
                actions.remove_raster = Some(*id);
            },
            Control::Merge => {
                if *mergeable {
                    actions.merge_req = Some(*id);
                }
            },
            Control::Effects => {
                actions.open_effects = Some(*id);
            },
            Control::Bake => {
                if *can_bake {
                    actions.bake_req = Some(*id);
                }
            },
            _ => {},
        },
        Controls::Text { index, uid, .. } => match k {
            Control::Pin => {
                actions.text_op = Some((*index, TextLayerOp::TogglePin));
            },
            Control::Rasterize => {
                actions.text_op = Some((*index, TextLayerOp::Rasterize));
            },
            Control::Up => {
                actions.move_band = Some((RowSel::Text(uid.clone()), true));
            },
            Control::Down => {
                actions.move_band = Some((RowSel::Text(uid.clone()), false));
            },
            _ => {},
        },
        Controls::Group { uid, .. } => match k {
            Control::Opacity(v) => {
                actions.group_op = Some(GroupOp::GroupOpacity(uid.clone(), v));
            },
            Control::Delete => {
                actions.group_op = Some(GroupOp::DeleteGroup(uid.clone()));
            },
            _ => {},
        },
        _ => {},
    }
}

/// What the row of a group asks for.
#[derive(Clone, Copy, Debug, PartialEq, Eq, Structural)]
pub enum GroupControl {
    Collapse,
    Eye,
    Up,
    Down,
    Delete,
}

/// Something in the row of a group was used.
pub fn group_row_used(uid: &String, k: GroupControl) -> (op: GroupOp)
    ensures
        match k {
            GroupControl::Collapse => op matches GroupOp::ToggleCollapse(u) && u@ == uid@,
            GroupControl::Eye => op matches GroupOp::ToggleGroupVisible(u) && u@ == uid@,
            GroupControl::Up => op matches GroupOp::MoveGroup(u, up) && u@ == uid@ && up,
            GroupControl::Down => op matches GroupOp::MoveGroup(u, up) && u@ == uid@ && !up,
            GroupControl::Delete => op matches GroupOp::DeleteGroup(u) && u@ == uid@,
        },
{
    let u = uid.clone();
    match k {
        GroupControl::Collapse => GroupOp::ToggleCollapse(u),
        GroupControl::Eye => GroupOp::ToggleGroupVisible(u),
        GroupControl::Up => GroupOp::MoveGroup(u, true),
        GroupControl::Down => GroupOp::MoveGroup(u, false),
        GroupControl::Delete => GroupOp::DeleteGroup(u),
    }
}

} // verus!
