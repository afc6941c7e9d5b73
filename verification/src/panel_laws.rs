//! What the layer panel is for: what a click selects, what grouping moves, and what its buttons ask.

use vstd::prelude::*;
#[allow(unused_imports)]
use crate::band_moves::{moved_band, moved_group, node_uids};
#[allow(unused_imports)]
use crate::bands::{ref_views, BandRef, BandView, RefView};
#[allow(unused_imports)]
use crate::canvas::{GestureView, OpacityStart};
#[allow(unused_imports)]
use crate::color::Color;
#[allow(unused_imports)]
use crate::doc_sync::last_text;
#[allow(unused_imports)]
use crate::ident::uid_text;
#[allow(unused_imports)]
use crate::layer_doc::MetaView;
#[allow(unused_imports)]
use crate::layers::{
    group_from, identity_placement, layer_called, layer_from, rasters_in, GroupId, GroupView,
    LayerId, LayerKind, LayerView, StackView,
};
#[allow(unused_imports)]
use crate::panel::{
    chosen_ids, chosen_uids, clicked, delete_edit, entering_pins, group_outcome, group_pinned,
    join_edit, joined, joined_stack, leaving_pins, members_now, members_of, new_meta, opt_row,
    order_for, pinned_after_entering, pinned_after_leaving, row_from, row_views, stack_after,
    text_named, user_pinned, without_group_called, without_row, without_text, GroupOp, GroupOutcome,
    PanelSelection, RowView,
};
#[allow(unused_imports)]
use crate::panel_actions::{
    band_of_row, band_place, blank_raster, grouping_edits, is_band_move, is_block_move,
    opacity_noted, page_order, raster_called, row_moved, steps_of, with_layer_changed, BandMove,
    PanelStep,
};
#[allow(unused_imports)]
use crate::panel_rows::{
    asked, control_action, controls_for, leaf_row, panel_rows, selectable, Control, ControlAction,
    ControlsView, LeafKind, PanelActions, PanelRowView, TextLayerOp,
};
#[allow(unused_imports)]
use crate::raster::{grid_of, lemma_grid_of};
#[allow(unused_imports)]
use crate::raster_edits::{DocEdit, DocEditView};
#[allow(unused_imports)]
use crate::text::decimal;
#[allow(unused_imports)]
use crate::text_layers::TextView;
#[allow(unused_imports)]
use crate::unified_order::{all_items, ordered, pinned_texts, raster_members, MemberView};

verus! {

/// A click selects the row alone.  With the command key it adds the row, or takes it out where it
/// was in; with the shift key it selects from where the last click was up to the row, both of which
/// count, in the order of the panel.  The row becomes the one that is shown.
pub proof fn clicks_select_rows(
    before: PanelSelection,
    after: PanelSelection,
    rows: Seq<RowView>,
    a: int,
    b: int,
    shift: bool,
    command: bool,
)
    requires
        0 <= b < rows.len(),
        forall|j: int| 0 <= j < b ==> #[trigger] rows[j] != rows[b],
        clicked(before, after, rows[b], shift, command, rows),
    ensures
        ({
            let was = row_views(before.selected@);
            let now = row_views(after.selected@);
            let row = rows[b];
            let lo = if a <= b {
                a
            } else {
                b
            };
            let hi = if a <= b {
                b
            } else {
                a
            };
            let anchored = 0 <= a < rows.len() && opt_row(before.anchor) == Some(rows[a]) && forall|
                j: int,
            |
                0 <= j < a ==> #[trigger] rows[j] != rows[a];
            &&& opt_row(after.primary) == Some(row)
            &&& !shift && !command ==> now == seq![row] && opt_row(after.anchor) == Some(row)
            &&& !shift && command && !was.contains(row) ==> now == was + seq![row]
            &&& !shift && command && was.contains(row) ==> now == was.filter(
                |r: RowView| r != row,
            )
            &&& !shift && command ==> opt_row(after.anchor) == Some(row)
            &&& shift && anchored ==> now == rows.subrange(lo, hi + 1) && opt_row(after.anchor)
                == opt_row(before.anchor)
            &&& shift && opt_row(before.anchor) is None && !command ==> now == seq![row]
        }),
{
    lemma_row_first(rows, rows[b], 0, b);
    if 0 <= a < rows.len() && (forall|j: int| 0 <= j < a ==> #[trigger] rows[j] != rows[a]) {
        lemma_row_first(rows, rows[a], 0, a);
    }
    let was = row_views(before.selected@);
    lemma_without_row(was, rows[b]);
    assert(was.push(rows[b]) =~= was + seq![rows[b]]);
}

proof fn lemma_row_first(rows: Seq<RowView>, row: RowView, i: int, k: int)
    requires
        0 <= i <= k < rows.len(),
        rows[k] == row,
        forall|j: int| i <= j < k ==> #[trigger] rows[j] != row,
    ensures
        row_from(rows, row, i) == Some(k),
    decreases k - i,
{
    if i < k {
        lemma_row_first(rows, row, i + 1, k);
    }
}

proof fn lemma_without_row(rows: Seq<RowView>, row: RowView)
    ensures
        without_row(rows, row) == rows.filter(|r: RowView| r != row),
    decreases rows.len(),
{
    reveal(Seq::filter);
    if rows.len() > 0 {
        lemma_without_row(rows.drop_last(), row);
    }
}

/// Of the selected rows the layers of the user and the texts are meant, by their identifiers; the
/// base layers and the groups are not.
pub proof fn selected_rows_mean_layers_and_texts(s: StackView, rows: Seq<RowView>, n: int)
    requires
        0 <= n < rows.len(),
    ensures
        ({
            let prev = chosen_uids(s, rows, n);
            let next = chosen_uids(s, rows, n + 1);
            let ids = chosen_ids(s, rows, n);
            let more = chosen_ids(s, rows, n + 1);
            &&& chosen_uids(s, rows, 0).len() == 0
            &&& chosen_ids(s, rows, 0).len() == 0
            &&& rows[n] is Text ==> next == prev.push(rows[n]->Text_0) && more == ids
            &&& rows[n] is Group ==> next == prev && more == ids
            &&& rows[n] is Raster ==> match layer_called(s.layers, rows[n]->Raster_0) {
                Some(l) => if l.kind == LayerKind::Raster {
                    next == prev.push(uid_text(l.uid)) && more == ids.push(rows[n]->Raster_0)
                } else {
                    next == prev && more == ids
                },
                None => next == prev && more == ids,
            }
        }),
{
}

/// A text is found by its identifier, the last that has it.  It is the user who pinned it where it
/// is pinned and no group did.
pub proof fn texts_are_found_by_identifier(ts: Seq<TextView>, uid: Seq<char>, k: int)
    requires
        0 <= k < ts.len(),
        ts[k].uid == uid,
        forall|j: int| k < j < ts.len() ==> (#[trigger] ts[j]).uid != uid,
    ensures
        text_named(ts, uid) == Some(ts[k]),
        user_pinned(text_named(ts, uid)) <==> ts[k].pinned && !ts[k].pinned_by_group,
        group_pinned(text_named(ts, uid)) <==> ts[k].pinned_by_group,
        !user_pinned(None),
        !group_pinned(None),
{
    lemma_last_text(ts, uid, ts.len() as int, k);
}

proof fn lemma_last_text(ts: Seq<TextView>, uid: Seq<char>, n: int, k: int)
    requires
        0 <= k < n <= ts.len(),
        ts[k].uid == uid,
        forall|j: int| k < j < n ==> (#[trigger] ts[j]).uid != uid,
    ensures
        last_text(ts, uid, n) == Some(k),
    decreases n,
{
    if k < n - 1 {
        lemma_last_text(ts, uid, n - 1, k);
    }
}

/// A text that enters a group is pinned, and noted as pinned by the group unless the user pinned it;
/// one that leaves is unpinned again where the group had pinned it.
pub proof fn groups_pin_their_texts(
    pinned: Seq<Seq<char>>,
    ts: Seq<TextView>,
    uids: Seq<Seq<char>>,
    n: int,
)
    requires
        0 <= n < uids.len(),
    ensures
        ({
            let uid = uids[n];
            let t = text_named(ts, uid);
            let own = t is Some && (t->0).pinned && !(t->0).pinned_by_group;
            let by_group = t is Some && (t->0).pinned_by_group;
            let now = pinned_after_entering(pinned, ts, uids, n);
            let left = pinned_after_leaving(pinned, ts, uids, n);
            &&& entering_pins(ts, uids, 0).len() == 0
            &&& entering_pins(ts, uids, n + 1) == if t is Some && !own {
                entering_pins(ts, uids, n).push(uid)
            } else {
                entering_pins(ts, uids, n)
            }
            &&& pinned_after_entering(pinned, ts, uids, 0) == pinned
            &&& t is Some ==> pinned_after_entering(pinned, ts, uids, n + 1).contains(uid)
            &&& t is None || now.contains(uid) ==> pinned_after_entering(pinned, ts, uids, n + 1)
                == now
            &&& t is Some && !now.contains(uid) ==> pinned_after_entering(pinned, ts, uids, n + 1)
                == now.push(uid)
            &&& leaving_pins(ts, uids, 0).len() == 0
            &&& leaving_pins(ts, uids, n + 1) == if by_group {
                leaving_pins(ts, uids, n).push(uid)
            } else {
                leaving_pins(ts, uids, n)
            }
            &&& pinned_after_leaving(pinned, ts, uids, 0) == pinned
            &&& !by_group ==> pinned_after_leaving(pinned, ts, uids, n + 1) == left
            &&& by_group ==> pinned_after_leaving(pinned, ts, uids, n + 1) == left.filter(
                |u: Seq<char>| u != uid,
            )
        }),
{
    let uid = uids[n];
    let now = pinned_after_entering(pinned, ts, uids, n);
    if text_named(ts, uid) is Some && !now.contains(uid) {
        assert(now.push(uid)[now.len() as int] == uid);
    }
    lemma_without_text(pinned_after_leaving(pinned, ts, uids, n), uid);
}

proof fn lemma_without_text(v: Seq<Seq<char>>, x: Seq<char>)
    ensures
        without_text(v, x) == v.filter(|u: Seq<char>| u != x),
    decreases v.len(),
{
    reveal(Seq::filter);
    if v.len() > 0 {
        lemma_without_text(v.drop_last(), x);
    }
}

/// The members of a group are those whose last entry names it.
pub proof fn members_are_those_who_say_so(ms: Seq<MemberView>, group: Seq<char>, n: int)
    requires
        0 <= n < ms.len(),
    ensures
        ({
            let m = ms[n];
            let last = forall|k: int| n < k < ms.len() ==> (#[trigger] ms[k]).uid != m.uid;
            &&& members_of(ms, group, 0).len() == 0
            &&& members_of(ms, group, n + 1) == if m.group == Some(group) && last {
                members_of(ms, group, n).push(m.uid)
            } else {
                members_of(ms, group, n)
            }
        }),
{
}

/// Joining gives each its entry, in their order, with the group it joins.
pub proof fn joining_gives_entries(uids: Seq<Seq<char>>, group: Option<Seq<char>>, i: int)
    requires
        0 <= i < uids.len(),
    ensures
        joined(uids, group).len() == uids.len(),
        joined(uids, group)[i].uid == uids[i],
        joined(uids, group)[i].group == group,
{
}

/// The layers that join a group are in it afterwards, the others are where they were; nothing else
/// of a layer or of the page changes.
pub proof fn joining_moves_the_layers(
    s: StackView,
    ids: Seq<LayerId>,
    group: Option<GroupId>,
    n: int,
    i: int,
)
    requires
        s.valid(),
        0 <= n <= ids.len(),
        0 <= i < s.layers.len(),
    ensures
        ({
            let after = joined_stack(s, ids, group, n);
            let named = exists|k: int| 0 <= k < n && #[trigger] ids[k] == s.layers[i].id;
            &&& after.layers.len() == s.layers.len()
            &&& named ==> after.layers[i] == (LayerView { group, ..s.layers[i] })
            &&& !named ==> after.layers[i] == s.layers[i]
            &&& after == (StackView { layers: after.layers, ..s })
        }),
    decreases n,
{
    if n > 0 {
        joining_moves_the_layers(s, ids, group, n - 1, i);
        let prev = joined_stack(s, ids, group, n - 1);
        assert forall|j: int| 0 <= j < s.layers.len() implies (#[trigger] prev.layers[j]).id
            == s.layers[j].id by {
            joining_moves_the_layers(s, ids, group, n - 1, j);
        }
        crate::layers::lemma_layer_from(prev.layers, ids[n - 1], 0);
        let after = joined_stack(s, ids, group, n);
        if ids[n - 1] == s.layers[i].id {
            let k = layer_from(prev.layers, ids[n - 1], 0);
            assert(prev.layers[i].id == ids[n - 1]);
            assert(k is Some);
            assert(s.layers[k->0].id == s.layers[i].id);
            assert(k->0 == i);
        } else if exists|k: int| 0 <= k < n && #[trigger] ids[k] == s.layers[i].id {
            let k = choose|k: int| 0 <= k < n && #[trigger] ids[k] == s.layers[i].id;
            assert(k < n - 1);
            assert(ids[k] == s.layers[i].id);
        }
    }
}

/// Who is where now: the layers of the user first, and then the texts.
pub proof fn members_now_are_layers_and_texts(s: StackView, ts: Seq<TextView>)
    ensures
        ({
            let r = raster_members(s, s.layers.len() as int);
            let m = members_now(s, ts);
            &&& m.len() == r.len() + ts.len()
            &&& forall|i: int| 0 <= i < r.len() ==> #[trigger] m[i] == r[i]
            &&& forall|i: int|
                0 <= i < ts.len() ==> (#[trigger] ts[i]).uid == m[r.len() + i].uid && ts[i].group_uid
                    == m[r.len() + i].group
        }),
{
}

/// Deleting a group takes out every member and then the group; what the group had pinned is unpinned
/// again, and the page is ordered as it then is.
pub proof fn deleting_a_group_frees_its_members(
    s: StackView,
    ts: Seq<TextView>,
    bands: Seq<BandView>,
    uid: Seq<char>,
    i: int,
)
    requires
        0 <= i < members_of(members_now(s, ts), uid, members_now(s, ts).len() as int).len(),
    ensures
        ({
            let e = delete_edit(s, ts, bands, uid);
            let now = members_now(s, ts);
            let members = members_of(now, uid, now.len() as int);
            let free = Seq::new(members.len(), |k: int| MemberView { uid: members[k], group: None });
            &&& e.new_groups.len() == 0
            &&& e.remove_groups == seq![uid]
            &&& e.set_membership == free
            &&& e.pin_for_group.len() == 0
            &&& e.unpin_for_group == leaving_pins(ts, members, members.len() as int)
            &&& e.order == order_for(
                without_group_called(s, uid),
                ts,
                bands,
                now + free,
                pinned_after_leaving(
                    pinned_texts(ts, ts.len() as int),
                    ts,
                    members,
                    members.len() as int,
                ),
            )
        }),
{
    let now = members_now(s, ts);
    let members = members_of(now, uid, now.len() as int);
    assert(joined(members, None) =~= Seq::new(
        members.len(),
        |k: int| MemberView { uid: members[k], group: None },
    ));
}

/// The selected rows enter a group, or leave theirs: each gets its entry.  Texts that enter are
/// pinned, texts that leave are unpinned, and the page is ordered as it then is.
pub proof fn selected_rows_join_a_group(
    s: StackView,
    ts: Seq<TextView>,
    bands: Seq<BandView>,
    rows: Seq<RowView>,
    target: Option<Seq<char>>,
    new_groups: Seq<MetaView>,
)
    ensures
        ({
            let e = join_edit(s, ts, bands, rows, target, new_groups);
            let uids = chosen_uids(s, rows, rows.len() as int);
            let n = uids.len() as int;
            let pinned = pinned_texts(ts, ts.len() as int);
            let entries = Seq::new(
                uids.len(),
                |k: int| MemberView { uid: uids[k], group: target },
            );
            &&& e.new_groups == new_groups
            &&& e.remove_groups.len() == 0
            &&& e.set_membership == entries
            &&& target is Some ==> e.pin_for_group == entering_pins(ts, uids, n)
                && e.unpin_for_group.len() == 0
            &&& target is None ==> e.pin_for_group.len() == 0 && e.unpin_for_group == leaving_pins(
                ts,
                uids,
                n,
            )
            &&& target is Some ==> e.order == order_for(
                s,
                ts,
                bands,
                members_now(s, ts) + entries,
                pinned_after_entering(pinned, ts, uids, n),
            )
            &&& target is None ==> e.order == order_for(
                s,
                ts,
                bands,
                members_now(s, ts) + entries,
                pinned_after_leaving(pinned, ts, uids, n),
            )
        }),
{
    let uids = chosen_uids(s, rows, rows.len() as int);
    assert(joined(uids, target) =~= Seq::new(
        uids.len(),
        |k: int| MemberView { uid: uids[k], group: target },
    ));
}

/// The order that is stored is the order of the page without the groups.
pub proof fn stored_orders_are_page_orders(
    s: StackView,
    ts: Seq<TextView>,
    bands: Seq<BandView>,
    ms: Seq<MemberView>,
    pinned: Seq<Seq<char>>,
    i: int,
)
    requires
        0 <= i < ordered(all_items(s, ts, bands, ms, pinned)).len(),
    ensures
        order_for(s, ts, bands, ms, pinned).len() == ordered(
            all_items(s, ts, bands, ms, pinned),
        ).len(),
        order_for(s, ts, bands, ms, pinned)[i] == ordered(all_items(s, ts, bands, ms, pinned))[i].0,
        page_order(s, ts, bands) == ordered(
            all_items(s, ts, bands, members_now(s, ts), pinned_texts(ts, ts.len() as int)),
        ),
{
}

/// A group is switched on or off, folded, or made fainter by its identifier: the first that has it,
/// and only that.
pub proof fn looks_change_one_group(
    s: StackView,
    rows: Seq<RowView>,
    op: GroupOp,
    uid: Seq<char>,
    new_uid: u128,
    k: int,
    i: int,
)
    requires
        0 <= k < s.groups.len(),
        uid_text(s.groups[k].uid) == uid,
        forall|j: int| 0 <= j < k ==> uid_text((#[trigger] s.groups[j]).uid) != uid,
        0 <= i < s.groups.len(),
    ensures
        ({
            let g = s.groups[i];
            let after = stack_after(s, rows, op, new_uid);
            let now = after.groups[i];
            &&& op is ToggleCollapse && op->ToggleCollapse_0@ == uid ==> after.groups.len()
                == s.groups.len() && after.layers == s.layers && now == if i == k {
                GroupView { collapsed: !g.collapsed, ..g }
            } else {
                g
            }
            &&& op is ToggleGroupVisible && op->ToggleGroupVisible_0@ == uid ==> after.groups.len()
                == s.groups.len() && after.layers == s.layers && now == if i == k {
                GroupView { visible: !g.visible, ..g }
            } else {
                g
            }
            &&& op is GroupOpacity && op->GroupOpacity_0@ == uid ==> after.groups.len()
                == s.groups.len() && after.layers == s.layers && now == if i == k {
                GroupView { opacity: op->GroupOpacity_1, ..g }
            } else {
                g
            }
            &&& op is MoveGroup ==> after == s
            &&& op is DeleteGroup && op->DeleteGroup_0@ == uid ==> after == s.without_group(
                s.groups[k].id,
            )
        }),
{
    lemma_group_found(s.groups, uid, 0, k);
}

proof fn lemma_group_found(groups: Seq<GroupView>, uid: Seq<char>, i: int, k: int)
    requires
        0 <= i <= k < groups.len(),
        uid_text(groups[k].uid) == uid,
        forall|j: int| i <= j < k ==> uid_text((#[trigger] groups[j]).uid) != uid,
    ensures
        group_from(groups, uid, i) == Some(k),
    decreases k - i,
{
    if i < k {
        lemma_group_found(groups, uid, i + 1, k);
    }
}

/// The selected layers go into a new group, into one that is there, or out of theirs.
pub proof fn selected_layers_join_a_group(
    s: StackView,
    rows: Seq<RowView>,
    op: GroupOp,
    uid: Seq<char>,
    new_uid: u128,
    k: int,
)
    requires
        0 <= k < s.groups.len(),
        uid_text(s.groups[k].uid) == uid,
        forall|j: int| 0 <= j < k ==> uid_text((#[trigger] s.groups[j]).uid) != uid,
    ensures
        ({
            let ids = chosen_ids(s, rows, rows.len() as int);
            let n = ids.len() as int;
            let after = stack_after(s, rows, op, new_uid);
            &&& op is Ungroup ==> after == joined_stack(s, ids, None, n)
            &&& op is MoveTo && op->MoveTo_0@ == uid ==> after == joined_stack(
                s,
                ids,
                Some(s.groups[k].id),
                n,
            )
            &&& op is NewFromSelection ==> after == joined_stack(
                s.with_group("Группа "@ + decimal(s.groups.len() + 1), new_uid),
                ids,
                Some(s.next_group_id),
                n,
            )
        }),
        new_meta(s, new_uid).uid == uid_text(new_uid),
        new_meta(s, new_uid).name == "Группа "@ + decimal(s.groups.len() + 1),
        new_meta(s, new_uid).visible,
        new_meta(s, new_uid).opacity == 0x3F80_0000,
        !new_meta(s, new_uid).collapsed,
{
    lemma_group_found(s.groups, uid, 0, k);
}

/// What comes of an operation on groups: looks are only noted, a move is handed on, and all else is
/// stored.
pub proof fn group_operations_come_to_something(
    out: GroupOutcome,
    s: StackView,
    ts: Seq<TextView>,
    bands: Seq<BandView>,
    rows: Seq<RowView>,
    op: GroupOp,
    new_uid: u128,
)
    requires
        group_outcome(out, s, ts, bands, rows, op, new_uid),
    ensures
        out is Noted <==> op is ToggleCollapse || op is ToggleGroupVisible || op is GroupOpacity,
        out is Move <==> op is MoveGroup,
        op is MoveGroup ==> out->uid@ == op->MoveGroup_0@ && out->up == op->MoveGroup_1,
        op is DeleteGroup ==> out->0@ == delete_edit(s, ts, bands, op->DeleteGroup_0@),
        op is NewFromSelection ==> out->0@ == join_edit(
            s,
            ts,
            bands,
            rows,
            Some(uid_text(new_uid)),
            seq![new_meta(s, new_uid)],
        ),
        op is MoveTo ==> out->0@ == join_edit(
            s,
            ts,
            bands,
            rows,
            Some(op->MoveTo_0@),
            Seq::empty(),
        ),
        op is Ungroup ==> out->0@ == join_edit(s, ts, bands, rows, None, Seq::empty()),
{
}

/// A row of the panel shows the name of its layer or text and whether it is switched on; a text that
/// has words shows those.  The base layers cannot be selected.
pub proof fn rows_show_their_layers(
    s: StackView,
    ts: Seq<TextView>,
    previews: Seq<Seq<char>>,
    id: LayerId,
    i: usize,
    depth: u8,
    k: int,
)
    requires
        s.valid(),
        0 <= k < s.layers.len(),
        s.layers[k].id == id,
        i < ts.len(),
    ensures
        ({
            let l = s.layers[k];
            let b = leaf_row(s, ts, previews, LeafKind::Base(id), depth);
            let r = leaf_row(s, ts, previews, LeafKind::Raster(id), depth);
            let t = leaf_row(s, ts, previews, LeafKind::Text(i), depth);
            let words = previews[i as int];
            &&& b.sel is None && b.is_base && b.name == l.name && b.visible == l.visible
            &&& r.sel == Some(RowView::Raster(id)) && !r.is_base && r.name == l.name && r.visible
                == l.visible
            &&& t.sel == Some(RowView::Text(ts[i as int].uid)) && !t.is_base && t.visible
                == ts[i as int].visible
            &&& words.len() == 0 ==> t.name == ts[i as int].name
            &&& words.len() > 0 ==> t.name == "Текст ("@ + words + ")"@
            &&& b.depth == depth && r.depth == depth && t.depth == depth
            &&& b.kind == LeafKind::Base(id) && r.kind == LeafKind::Raster(id) && t.kind
                == LeafKind::Text(i)
        }),
{
    assert forall|j: int| 0 <= j < k implies (#[trigger] s.layers[j]).id != id by {}
    crate::stack_laws::layers_are_found_by_number(s.layers, id, k);
}

/// Each item of the tree has its row, in their order, and each row that can be selected is named by
/// what it stands for.
pub proof fn the_tree_has_its_rows(
    s: StackView,
    ts: Seq<TextView>,
    previews: Seq<Seq<char>>,
    tree: Seq<crate::panel_rows::ItemView>,
    rows: Seq<PanelRowView>,
    i: int,
    n: int,
)
    requires
        0 <= i < tree.len(),
        0 <= n < rows.len(),
    ensures
        panel_rows(s, ts, previews, tree).len() == tree.len(),
        tree[i] is Group ==> panel_rows(s, ts, previews, tree)[i] == PanelRowView::Group(
            tree[i]->Group_0,
        ),
        tree[i] is Leaf ==> panel_rows(s, ts, previews, tree)[i] == PanelRowView::Leaf(
            leaf_row(s, ts, previews, tree[i]->kind, tree[i]->depth),
        ),
        selectable(rows, 0).len() == 0,
        rows[n] is Group ==> selectable(rows, n + 1) == selectable(rows, n).push(
            RowView::Group(rows[n]->Group_0.uid),
        ),
        rows[n] is Leaf && rows[n]->Leaf_0.sel is Some ==> selectable(rows, n + 1) == selectable(
            rows,
            n,
        ).push(rows[n]->Leaf_0.sel->0),
        rows[n] is Leaf && rows[n]->Leaf_0.sel is None ==> selectable(rows, n + 1) == selectable(
            rows,
            n,
        ),
{
}

/// The controls are those of the row that is shown: of a layer with what can be done with it, of a
/// text, or of a group; a hint where no row is shown, and nothing where what it stands for is gone.
pub proof fn controls_are_those_of_the_row(
    s: StackView,
    ts: Seq<TextView>,
    bands: Seq<BandView>,
    id: LayerId,
    uid: Seq<char>,
)
    ensures
        controls_for(None, ts, bands, None) is Hint,
        controls_for(Some(s), ts, bands, None) is Hint,
        controls_for(None, ts, bands, Some(RowView::Raster(id))) is Nothing,
        controls_for(Some(s), ts, bands, Some(RowView::Raster(id))) == match layer_called(
            s.layers,
            id,
        ) {
            Some(l) => ControlsView::Raster {
                id,
                name: l.name,
                opacity: l.opacity,
                mergeable: crate::bands::beneath(s, bands, id) is Some,
                can_bake: l.effects.len() > 0,
            },
            None => ControlsView::Nothing,
        },
        controls_for(Some(s), ts, bands, Some(RowView::Text(uid)))
            == match crate::selection_ops::text_from(ts, uid, 0) {
            Some(i) => ControlsView::Text {
                index: i as usize,
                uid,
                name: ts[i].name,
                pinned: ts[i].pinned,
            },
            None => ControlsView::Nothing,
        },
        controls_for(Some(s), ts, bands, Some(RowView::Group(uid))) == match group_from(
            s.groups,
            uid,
            0,
        ) {
            Some(i) => ControlsView::Group {
                uid,
                name: s.groups[i].name,
                opacity: s.groups[i].opacity,
            },
            None => ControlsView::Nothing,
        },
{
}

/// What a control asks for.  A layer can be moved, faded, deleted, given effects, merged where
/// something lies beneath and baked where it has effects; a text can be moved, pinned and made a
/// layer; a group can be faded and deleted.
pub proof fn controls_ask_for_their_action(
    id: LayerId,
    name: Seq<char>,
    opacity: u32,
    mergeable: bool,
    can_bake: bool,
    index: usize,
    uid: Seq<char>,
    pinned: bool,
    v: u32,
)
    ensures
        ({
            let r = ControlsView::Raster { id, name, opacity, mergeable, can_bake };
            &&& control_action(r, Control::Opacity(v)) == ControlAction::OpacityRaster(id, v)
            &&& control_action(r, Control::Up) == ControlAction::MoveBand(RowView::Raster(id), true)
            &&& control_action(r, Control::Down) == ControlAction::MoveBand(
                RowView::Raster(id),
                false,
            )
            &&& control_action(r, Control::Delete) == ControlAction::RemoveRaster(id)
            &&& control_action(r, Control::Effects) == ControlAction::Effects(id)
            &&& mergeable ==> control_action(r, Control::Merge) == ControlAction::Merge(id)
            &&& !mergeable ==> control_action(r, Control::Merge) == ControlAction::Nothing
            &&& can_bake ==> control_action(r, Control::Bake) == ControlAction::Bake(id)
            &&& !can_bake ==> control_action(r, Control::Bake) == ControlAction::Nothing
            &&& control_action(r, Control::Pin) == ControlAction::Nothing
            &&& control_action(r, Control::Rasterize) == ControlAction::Nothing
        }),
        ({
            let t = ControlsView::Text { index, uid, name, pinned };
            &&& control_action(t, Control::Pin) == ControlAction::TextOp(
                index,
                TextLayerOp::TogglePin,
            )
            &&& control_action(t, Control::Rasterize) == ControlAction::TextOp(
                index,
                TextLayerOp::Rasterize,
            )
            &&& control_action(t, Control::Up) == ControlAction::MoveBand(RowView::Text(uid), true)
            &&& control_action(t, Control::Down) == ControlAction::MoveBand(
                RowView::Text(uid),
                false,
            )
            &&& control_action(t, Control::Opacity(v)) == ControlAction::Nothing
            &&& control_action(t, Control::Delete) == ControlAction::Nothing
            &&& control_action(t, Control::Merge) == ControlAction::Nothing
            &&& control_action(t, Control::Effects) == ControlAction::Nothing
            &&& control_action(t, Control::Bake) == ControlAction::Nothing
        }),
        ({
            let g = ControlsView::Group { uid, name, opacity };
            &&& control_action(g, Control::Opacity(v)) == ControlAction::GroupOpacity(uid, v)
            &&& control_action(g, Control::Delete) == ControlAction::DeleteGroup(uid)
            &&& control_action(g, Control::Up) == ControlAction::Nothing
            &&& control_action(g, Control::Down) == ControlAction::Nothing
            &&& control_action(g, Control::Merge) == ControlAction::Nothing
            &&& control_action(g, Control::Effects) == ControlAction::Nothing
            &&& control_action(g, Control::Bake) == ControlAction::Nothing
            &&& control_action(g, Control::Pin) == ControlAction::Nothing
            &&& control_action(g, Control::Rasterize) == ControlAction::Nothing
        }),
        control_action(ControlsView::Hint, Control::Up) == ControlAction::Nothing,
        control_action(ControlsView::Nothing, Control::Delete) == ControlAction::Nothing,
{
}

/// An action that is asked for is noted in its place, and the others stay as they are.
pub proof fn actions_are_noted_in_their_place(
    a: PanelActions,
    b: PanelActions,
    id: LayerId,
    v: u32,
    i: usize,
    op: TextLayerOp,
    row: RowView,
    up: bool,
    uid: Seq<char>,
)
    ensures
        asked(a, b, ControlAction::Nothing) ==> b == a,
        asked(a, b, ControlAction::OpacityRaster(id, v)) ==> b == (PanelActions {
            opacity_raster: Some((id, v)),
            ..a
        }),
        asked(a, b, ControlAction::RemoveRaster(id)) ==> b == (PanelActions {
            remove_raster: Some(id),
            ..a
        }),
        asked(a, b, ControlAction::Merge(id)) ==> b == (PanelActions { merge_req: Some(id), ..a }),
        asked(a, b, ControlAction::Effects(id)) ==> b == (PanelActions {
            open_effects: Some(id),
            ..a
        }),
        asked(a, b, ControlAction::Bake(id)) ==> b == (PanelActions { bake_req: Some(id), ..a }),
        asked(a, b, ControlAction::TextOp(i, op)) ==> b == (PanelActions {
            text_op: Some((i, op)),
            ..a
        }),
        asked(a, b, ControlAction::MoveBand(row, up)) ==> b.move_band is Some && (
        b.move_band->0).0@ == row && (b.move_band->0).1 == up && b == (PanelActions {
            move_band: b.move_band,
            ..a
        }),
        asked(a, b, ControlAction::GroupOpacity(uid, v)) ==> b.group_op is Some && (b.group_op->0)
            is GroupOpacity && (b.group_op->0)->GroupOpacity_0@ == uid && (
        b.group_op->0)->GroupOpacity_1 == v && b == (PanelActions { group_op: b.group_op, ..a }),
        asked(a, b, ControlAction::DeleteGroup(uid)) ==> b.group_op is Some && (b.group_op->0)
            is DeleteGroup && (b.group_op->0)->DeleteGroup_0@ == uid && b == (PanelActions {
            group_op: b.group_op,
            ..a
        }),
{
}

/// When its turn comes among the steps of a frame.
pub open spec fn turn(p: PanelStep) -> int {
    match p {
        PanelStep::AddLayer => 0,
        PanelStep::NewGroup => 1,
        PanelStep::SetActive(_) => 2,
        PanelStep::SelectActive => 3,
        PanelStep::ToggleRaster(_) => 4,
        PanelStep::ToggleText(_) => 5,
        PanelStep::Opacity(..) => 6,
        PanelStep::EndOpacity => 7,
        PanelStep::Remove(_) => 8,
        PanelStep::Merge(_) => 9,
        PanelStep::Bake(_) => 10,
        PanelStep::OpenEffects(_) => 11,
        PanelStep::TextOp(..) => 12,
        PanelStep::MoveBand(..) => 13,
        PanelStep::Group(_) => 14,
    }
}

#[verifier::opaque]
spec fn holds_step(s: Seq<PanelStep>, x: PanelStep) -> bool {
    s.contains(x)
}

#[verifier::opaque]
spec fn in_turn(s: Seq<PanelStep>, k: int) -> bool {
    &&& forall|i: int| 0 <= i < s.len() ==> turn(#[trigger] s[i]) < k
    &&& forall|i: int, j: int| 0 <= i < j < s.len() ==> turn(#[trigger] s[i]) < turn(#[trigger] s[j])
}

proof fn lemma_in_turn(s: Seq<PanelStep>, b: bool, step: PanelStep, x: PanelStep)
    requires
        in_turn(s, turn(step)),
    ensures
        in_turn(s + crate::panel_actions::when(b, step), turn(step) + 1),
        holds_step(s + crate::panel_actions::when(b, step), x) <==> holds_step(s, x) || (b && x
            == step),
{
    reveal(in_turn);
    reveal(holds_step);
    let t = s + crate::panel_actions::when(b, step);
    assert forall|i: int| 0 <= i < t.len() implies turn(#[trigger] t[i]) < turn(step) + 1 by {
        if i < s.len() {
            assert(t[i] == s[i]);
        }
    }
    assert forall|i: int, j: int| 0 <= i < j < t.len() implies turn(#[trigger] t[i]) < turn(
        #[trigger] t[j],
    ) by {
        assert(t[i] == s[i]);
        if j < s.len() {
            assert(t[j] == s[j]);
        }
    }
    if s.contains(x) {
        let i = choose|i: int| 0 <= i < s.len() && s[i] == x;
        assert(t[i] == x);
    }
    if b {
        assert(t[s.len() as int] == step);
    }
    if t.contains(x) {
        let i = choose|i: int| 0 <= i < t.len() && t[i] == x;
        if i < s.len() {
            assert(s[i] == x);
        }
    }
}

/// What was asked in a frame is done, each once and in turn, and nothing else; where the slider for
/// the opacity was in use and rests, that is done as well.
pub proof fn what_was_asked_is_done_in_turn(a: PanelActions, opacity_open: bool, x: PanelStep)
    ensures
        ({
            let s = steps_of(a, opacity_open);
            &&& forall|i: int, j: int|
                0 <= i < j < s.len() ==> turn(#[trigger] s[i]) < turn(#[trigger] s[j])
            &&& s.contains(x) <==> match x {
                PanelStep::AddLayer => a.add_layer,
                PanelStep::NewGroup => a.new_empty_group,
                PanelStep::SetActive(id) => a.set_active_raster == Some(id),
                PanelStep::SelectActive => a.request_select_active,
                PanelStep::ToggleRaster(id) => a.toggle_visible_raster == Some(id),
                PanelStep::ToggleText(i) => a.toggle_visible_text == Some(i),
                PanelStep::Opacity(id, v) => a.opacity_raster == Some((id, v)),
                PanelStep::EndOpacity => a.opacity_raster is None && opacity_open,
                PanelStep::Remove(id) => a.remove_raster == Some(id),
                PanelStep::Merge(id) => a.merge_req == Some(id),
                PanelStep::Bake(id) => a.bake_req == Some(id),
                PanelStep::OpenEffects(id) => a.open_effects == Some(id),
                PanelStep::TextOp(i, op) => a.text_op == Some((i, op)),
                PanelStep::MoveBand(row, up) => a.move_band == Some((row, up)),
                PanelStep::Group(op) => a.group_op == Some(op),
            }
        }),
{
    lemma_steps(a, opacity_open, x);
    let s = steps_of(a, opacity_open);
    assert(forall|i: int, j: int|
        0 <= i < j < s.len() ==> turn(#[trigger] s[i]) < turn(#[trigger] s[j])) by {
        reveal(in_turn);
    }
    assert(s.contains(x) == holds_step(s, x)) by {
        reveal(holds_step);
    }
}

/// The first steps of a frame.
#[verifier::opaque]
spec fn first_steps(a: PanelActions) -> Seq<PanelStep> {
    crate::panel_actions::when(a.add_layer, PanelStep::AddLayer) + crate::panel_actions::when(
        a.new_empty_group,
        PanelStep::NewGroup,
    ) + crate::panel_actions::when(
        a.set_active_raster is Some,
        PanelStep::SetActive(a.set_active_raster->0),
    ) + crate::panel_actions::when(a.request_select_active, PanelStep::SelectActive)
        + crate::panel_actions::when(
        a.toggle_visible_raster is Some,
        PanelStep::ToggleRaster(a.toggle_visible_raster->0),
    )
}

/// The first steps of a frame and those that come next.
#[verifier::opaque]
spec fn middle_steps(a: PanelActions, opacity_open: bool) -> Seq<PanelStep> {
    first_steps(a) + crate::panel_actions::when(
        a.toggle_visible_text is Some,
        PanelStep::ToggleText(a.toggle_visible_text->0),
    ) + crate::panel_actions::when(
        a.opacity_raster is Some,
        PanelStep::Opacity((a.opacity_raster->0).0, (a.opacity_raster->0).1),
    ) + crate::panel_actions::when(
        a.opacity_raster is None && opacity_open,
        PanelStep::EndOpacity,
    ) + crate::panel_actions::when(a.remove_raster is Some, PanelStep::Remove(a.remove_raster->0))
        + crate::panel_actions::when(a.merge_req is Some, PanelStep::Merge(a.merge_req->0))
}

proof fn lemma_first_steps(a: PanelActions, x: PanelStep)
    ensures
        in_turn(first_steps(a), 5),
        holds_step(first_steps(a), x) <==> {
            ||| a.add_layer && x == PanelStep::AddLayer
            ||| a.new_empty_group && x == PanelStep::NewGroup
            ||| a.set_active_raster is Some && x == PanelStep::SetActive(a.set_active_raster->0)
            ||| a.request_select_active && x == PanelStep::SelectActive
            ||| a.toggle_visible_raster is Some && x == PanelStep::ToggleRaster(
                a.toggle_visible_raster->0,
            )
        },
{
    reveal(first_steps);
    let e = Seq::<PanelStep>::empty();
    assert(in_turn(e, 0) && !holds_step(e, x)) by {
        reveal(in_turn);
        reveal(holds_step);
    }
    let s0 = e + crate::panel_actions::when(a.add_layer, PanelStep::AddLayer);
    lemma_in_turn(e, a.add_layer, PanelStep::AddLayer, x);
    assert(s0 =~= crate::panel_actions::when(a.add_layer, PanelStep::AddLayer));
    let s1 = s0 + crate::panel_actions::when(a.new_empty_group, PanelStep::NewGroup);
    lemma_in_turn(s0, a.new_empty_group, PanelStep::NewGroup, x);
    let p2 = PanelStep::SetActive(a.set_active_raster->0);
    let s2 = s1 + crate::panel_actions::when(a.set_active_raster is Some, p2);
    lemma_in_turn(s1, a.set_active_raster is Some, p2, x);
    let s3 = s2 + crate::panel_actions::when(a.request_select_active, PanelStep::SelectActive);
    lemma_in_turn(s2, a.request_select_active, PanelStep::SelectActive, x);
    let p4 = PanelStep::ToggleRaster(a.toggle_visible_raster->0);
    lemma_in_turn(s3, a.toggle_visible_raster is Some, p4, x);
}

proof fn lemma_middle_steps(a: PanelActions, opacity_open: bool, x: PanelStep)
    ensures
        in_turn(middle_steps(a, opacity_open), 10),
        holds_step(middle_steps(a, opacity_open), x) <==> {
            ||| holds_step(first_steps(a), x)
            ||| a.toggle_visible_text is Some && x == PanelStep::ToggleText(
                a.toggle_visible_text->0,
            )
            ||| a.opacity_raster is Some && x == PanelStep::Opacity(
                (a.opacity_raster->0).0,
                (a.opacity_raster->0).1,
            )
            ||| a.opacity_raster is None && opacity_open && x == PanelStep::EndOpacity
            ||| a.remove_raster is Some && x == PanelStep::Remove(a.remove_raster->0)
            ||| a.merge_req is Some && x == PanelStep::Merge(a.merge_req->0)
        },
{
    reveal(middle_steps);
    lemma_first_steps(a, x);
    let s4 = first_steps(a);
    let p5 = PanelStep::ToggleText(a.toggle_visible_text->0);
    let s5 = s4 + crate::panel_actions::when(a.toggle_visible_text is Some, p5);
    lemma_in_turn(s4, a.toggle_visible_text is Some, p5, x);
    let p6 = PanelStep::Opacity((a.opacity_raster->0).0, (a.opacity_raster->0).1);
    let s6 = s5 + crate::panel_actions::when(a.opacity_raster is Some, p6);
    lemma_in_turn(s5, a.opacity_raster is Some, p6, x);
    let rests = a.opacity_raster is None && opacity_open;
    let s7 = s6 + crate::panel_actions::when(rests, PanelStep::EndOpacity);
    lemma_in_turn(s6, rests, PanelStep::EndOpacity, x);
    let p8 = PanelStep::Remove(a.remove_raster->0);
    let s8 = s7 + crate::panel_actions::when(a.remove_raster is Some, p8);
    lemma_in_turn(s7, a.remove_raster is Some, p8, x);
    let p9 = PanelStep::Merge(a.merge_req->0);
    lemma_in_turn(s8, a.merge_req is Some, p9, x);
}

proof fn lemma_last_steps(a: PanelActions, s9: Seq<PanelStep>, x: PanelStep) -> (s: Seq<PanelStep>)
    requires
        in_turn(s9, 10),
    ensures
        s == s9 + crate::panel_actions::when(a.bake_req is Some, PanelStep::Bake(a.bake_req->0))
            + crate::panel_actions::when(
            a.open_effects is Some,
            PanelStep::OpenEffects(a.open_effects->0),
        ) + crate::panel_actions::when(
            a.text_op is Some,
            PanelStep::TextOp((a.text_op->0).0, (a.text_op->0).1),
        ) + crate::panel_actions::when(
            a.move_band is Some,
            PanelStep::MoveBand((a.move_band->0).0, (a.move_band->0).1),
        ) + crate::panel_actions::when(a.group_op is Some, PanelStep::Group(a.group_op->0)),
        in_turn(s, 15),
        holds_step(s, x) <==> {
            ||| holds_step(s9, x)
            ||| a.bake_req is Some && x == PanelStep::Bake(a.bake_req->0)
            ||| a.open_effects is Some && x == PanelStep::OpenEffects(a.open_effects->0)
            ||| a.text_op is Some && x == PanelStep::TextOp((a.text_op->0).0, (a.text_op->0).1)
            ||| a.move_band is Some && x == PanelStep::MoveBand(
                (a.move_band->0).0,
                (a.move_band->0).1,
            )
            ||| a.group_op is Some && x == PanelStep::Group(a.group_op->0)
        },
{
    let p10 = PanelStep::Bake(a.bake_req->0);
    let s10 = s9 + crate::panel_actions::when(a.bake_req is Some, p10);
    lemma_in_turn(s9, a.bake_req is Some, p10, x);
    let p11 = PanelStep::OpenEffects(a.open_effects->0);
    let s11 = s10 + crate::panel_actions::when(a.open_effects is Some, p11);
    lemma_in_turn(s10, a.open_effects is Some, p11, x);
    let p12 = PanelStep::TextOp((a.text_op->0).0, (a.text_op->0).1);
    let s12 = s11 + crate::panel_actions::when(a.text_op is Some, p12);
    lemma_in_turn(s11, a.text_op is Some, p12, x);
    let p13 = PanelStep::MoveBand((a.move_band->0).0, (a.move_band->0).1);
    let s13 = s12 + crate::panel_actions::when(a.move_band is Some, p13);
    lemma_in_turn(s12, a.move_band is Some, p13, x);
    let p14 = PanelStep::Group(a.group_op->0);
    let s14 = s13 + crate::panel_actions::when(a.group_op is Some, p14);
    lemma_in_turn(s13, a.group_op is Some, p14, x);
    s14
}

proof fn lemma_steps(a: PanelActions, opacity_open: bool, x: PanelStep)
    ensures
        in_turn(steps_of(a, opacity_open), 15),
        holds_step(steps_of(a, opacity_open), x) <==> {
            ||| a.add_layer && x == PanelStep::AddLayer
            ||| a.new_empty_group && x == PanelStep::NewGroup
            ||| a.set_active_raster is Some && x == PanelStep::SetActive(a.set_active_raster->0)
            ||| a.request_select_active && x == PanelStep::SelectActive
            ||| a.toggle_visible_raster is Some && x == PanelStep::ToggleRaster(
                a.toggle_visible_raster->0,
            )
            ||| a.toggle_visible_text is Some && x == PanelStep::ToggleText(
                a.toggle_visible_text->0,
            )
            ||| a.opacity_raster is Some && x == PanelStep::Opacity(
                (a.opacity_raster->0).0,
                (a.opacity_raster->0).1,
            )
            ||| a.opacity_raster is None && opacity_open && x == PanelStep::EndOpacity
            ||| a.remove_raster is Some && x == PanelStep::Remove(a.remove_raster->0)
            ||| a.merge_req is Some && x == PanelStep::Merge(a.merge_req->0)
            ||| a.bake_req is Some && x == PanelStep::Bake(a.bake_req->0)
            ||| a.open_effects is Some && x == PanelStep::OpenEffects(a.open_effects->0)
            ||| a.text_op is Some && x == PanelStep::TextOp((a.text_op->0).0, (a.text_op->0).1)
            ||| a.move_band is Some && x == PanelStep::MoveBand(
                (a.move_band->0).0,
                (a.move_band->0).1,
            )
            ||| a.group_op is Some && x == PanelStep::Group(a.group_op->0)
        },
{
    lemma_first_steps(a, x);
    lemma_middle_steps(a, opacity_open, x);
    let s = lemma_last_steps(a, middle_steps(a, opacity_open), x);
    reveal(first_steps);
    reveal(middle_steps);
}

/// A new layer of the panel is clear, covers the page and is named by how many there are then.
pub proof fn new_layers_are_clear(s: StackView, uid: u128, x: int, y: int)
    requires
        0 <= x < s.w,
        0 <= y < s.h,
    ensures
        ({
            let l = blank_raster(s, uid);
            &&& l.id == s.next_layer_id
            &&& l.uid == uid
            &&& l.name == "Слой "@ + decimal(rasters_in(s.layers) + 1)
            &&& l.kind == LayerKind::Raster
            &&& l.image.w == s.w && l.image.h == s.h
            &&& l.image.px[y * s.w + x] == (Color { r: 0, g: 0, b: 0, a: 0 })
            &&& l.base_image == l.image
            &&& l.transform == identity_placement(s.w as int, s.h as int)
            &&& l.visible && l.opacity == 0x3F80_0000
            &&& l.group is None && l.deform is None && l.effects.len() == 0
        }),
{
    let f = |a: int, b: int| crate::color::clear();
    lemma_grid_of(s.w as int, s.h as int, f);
    assert(blank_raster(s, uid).image == grid_of(s.w as int, s.h as int, f));
    assert(grid_of(s.w as int, s.h as int, f).at(x, y) == f(x, y));
}

/// A layer of the user is found by its number where a page is there; changing it changes no other.
pub proof fn changing_changes_one_layer(
    s: StackView,
    id: LayerId,
    f: spec_fn(LayerView) -> LayerView,
    k: int,
    i: int,
)
    requires
        s.valid(),
        0 <= k < s.layers.len(),
        s.layers[k].id == id,
        0 <= i < s.layers.len(),
    ensures
        raster_called(None, id) is None,
        s.layers[k].kind == LayerKind::Raster ==> raster_called(Some(s), id) == Some(s.layers[k]),
        s.layers[k].kind != LayerKind::Raster ==> raster_called(Some(s), id) is None,
        with_layer_changed(None, id, f) is None,
        ({
            let after = with_layer_changed(Some(s), id, f)->0;
            &&& with_layer_changed(Some(s), id, f) is Some
            &&& after.layers.len() == s.layers.len()
            &&& after.layers[i] == if i == k {
                f(s.layers[k])
            } else {
                s.layers[i]
            }
            &&& after == (StackView { layers: after.layers, ..s })
        }),
{
    assert forall|j: int| 0 <= j < k implies (#[trigger] s.layers[j]).id != id by {}
    crate::stack_laws::layers_are_found_by_number(s.layers, id, k);
}

/// The first touch of the slider notes the opacity that the layer had; later ones keep that note.
pub proof fn sliders_note_the_first_opacity(g: GestureView, s: StackView, id: LayerId, k: int)
    requires
        s.valid(),
        0 <= k < s.layers.len(),
        s.layers[k].id == id,
    ensures
        g.opacity is Some ==> opacity_noted(g, Some(s), id) == g,
        g.opacity is None ==> opacity_noted(g, Some(s), id) == (GestureView {
            opacity: Some(OpacityStart { id, opacity: s.layers[k].opacity }),
            ..g
        }),
        opacity_noted(g, None, id) == g,
{
    assert forall|j: int| 0 <= j < k implies (#[trigger] s.layers[j]).id != id by {}
    crate::stack_laws::layers_are_found_by_number(s.layers, id, k);
}

/// A row moves by its place in the order of the page: a layer by its identifier, a text as a pinned
/// one; a group does not move as a row.
pub proof fn rows_move_in_the_page_order(
    s: StackView,
    ts: Seq<TextView>,
    bands: Seq<BandView>,
    row: RowView,
    up: bool,
    pos: int,
)
    requires
        0 <= pos < page_order(s, ts, bands).len(),
        forall|j: int|
            0 <= j < pos ==> (#[trigger] page_order(s, ts, bands)[j]).0 != page_order(
                s,
                ts,
                bands,
            )[pos].0,
    ensures
        ({
            let order = page_order(s, ts, bands);
            &&& band_of_row(s, row) == Some(order[pos].0) ==> row_moved(s, ts, bands, row, up)
                == moved_band(order, pos, up)
            &&& row is Group ==> band_of_row(s, row) is None && row_moved(s, ts, bands, row, up)
                is None
            &&& row is Text ==> band_of_row(s, row) == Some(RefView::PinnedText(row->Text_0))
            &&& row is Raster ==> band_of_row(s, row) == match layer_called(
                s.layers,
                row->Raster_0,
            ) {
                Some(l) => Some(RefView::Raster(uid_text(l.uid))),
                None => None,
            }
        }),
{
    lemma_band_place(page_order(s, ts, bands), page_order(s, ts, bands)[pos].0, 0, pos);
}

proof fn lemma_band_place(
    order: Seq<(RefView, Option<Seq<char>>)>,
    b: RefView,
    i: int,
    k: int,
)
    requires
        0 <= i <= k < order.len(),
        order[k].0 == b,
        forall|j: int| i <= j < k ==> (#[trigger] order[j]).0 != b,
    ensures
        band_place(order, b, i) == Some(k),
    decreases k - i,
{
    if i < k {
        lemma_band_place(order, b, i + 1, k);
    }
}

/// What is stored of a move is the new order and the node that moved; moving a group tells which
/// and where to.
pub proof fn moves_are_stored(
    r: Option<BandMove>,
    g: Option<(Vec<BandRef>, DocEdit)>,
    s: StackView,
    ts: Seq<TextView>,
    bands: Seq<BandView>,
    row: RowView,
    uid: Seq<char>,
    up: bool,
    i: int,
)
    ensures
        is_band_move(r, s, ts, bands, row, up) ==> (r is Some <==> row_moved(s, ts, bands, row, up)
            is Some),
        is_band_move(r, s, ts, bands, row, up) && r is Some ==> {
            let moved = row_moved(s, ts, bands, row, up)->0;
            &&& (r->0).order@.len() == moved.len()
            &&& 0 <= i < moved.len() ==> (r->0).order@[i]@ == moved[i].0
            &&& band_of_row(s, row) == Some(RefView::Raster(uid)) ==> (r->0).uid@ == uid
            &&& band_of_row(s, row) == Some(RefView::PinnedText(uid)) ==> (r->0).uid@ == uid
        },
        is_block_move(g, s, ts, bands, uid, up) ==> (g is Some <==> moved_group(
            page_order(s, ts, bands),
            uid,
            up,
        ) is Some),
        is_block_move(g, s, ts, bands, uid, up) && g is Some ==> {
            let moved = moved_group(page_order(s, ts, bands), uid, up)->0;
            &&& (g->0).0@.len() == moved.len()
            &&& 0 <= i < moved.len() ==> (g->0).0@[i]@ == moved[i].0
            &&& (g->0).1@ == (DocEditView::ReorderGroupBlock { uid, up })
        },
{
    if is_band_move(r, s, ts, bands, row, up) && r is Some {
        let moved = row_moved(s, ts, bands, row, up)->0;
        let refs = crate::panel::refs_only(moved);
        assert(ref_views((r->0).order@).len() == (r->0).order@.len());
        assert(refs.len() == moved.len());
        if 0 <= i < moved.len() {
            assert(ref_views((r->0).order@)[i] == (r->0).order@[i]@);
            assert(refs[i] == moved[i].0);
        }
    }
    if is_block_move(g, s, ts, bands, uid, up) && g is Some {
        let moved = moved_group(page_order(s, ts, bands), uid, up)->0;
        let refs = crate::panel::refs_only(moved);
        assert(ref_views((g->0).0@).len() == (g->0).0@.len());
        assert(refs.len() == moved.len());
        if 0 <= i < moved.len() {
            assert(ref_views((g->0).0@)[i] == (g->0).0@[i]@);
            assert(refs[i] == moved[i].0);
        }
    }
}

/// What is sent of a grouping: first the groups that go, then those that come, then each entry, and
/// last the order of the nodes where there are any.
pub proof fn groupings_are_sent_in_this_order(
    e: crate::panel::EditView,
    ts: Seq<TextView>,
    i: int,
    j: int,
    k: int,
)
    requires
        0 <= i < e.remove_groups.len(),
        0 <= j < e.new_groups.len(),
        0 <= k < e.set_membership.len(),
    ensures
        ({
            let out = grouping_edits(e, ts);
            let a = e.remove_groups.len() as int;
            let b = e.new_groups.len() as int;
            let c = e.set_membership.len() as int;
            let order = node_uids(e.order, ts, e.order.len() as int);
            &&& out.len() == a + b + c + if order.len() > 0 {
                1int
            } else {
                0int
            }
            &&& out[i] == (DocEditView::RemoveGroup { uid: e.remove_groups[i] })
            &&& out[a + j] == DocEditView::AddGroup(e.new_groups[j])
            &&& out[a + b + k] == (DocEditView::SetGroup {
                uid: e.set_membership[k].uid,
                group: e.set_membership[k].group,
            })
            &&& order.len() > 0 ==> out[a + b + c] == DocEditView::SetZOrder(order)
        }),
{
}

/// A row whose layer or text is gone shows so, and cannot be taken for shown.
pub proof fn rows_without_their_layer_say_so(
    s: StackView,
    ts: Seq<TextView>,
    previews: Seq<Seq<char>>,
    id: LayerId,
    i: usize,
    depth: u8,
)
    requires
        forall|j: int| 0 <= j < s.layers.len() ==> (#[trigger] s.layers[j]).id != id,
        i >= ts.len(),
    ensures
        ({
            let b = leaf_row(s, ts, previews, LeafKind::Base(id), depth);
            let r = leaf_row(s, ts, previews, LeafKind::Raster(id), depth);
            let t = leaf_row(s, ts, previews, LeafKind::Text(i), depth);
            &&& b.name == "слой"@ && !b.visible && b.is_base && b.sel is None
            &&& r.name == "растр"@ && !r.visible && !r.is_base && r.sel == Some(RowView::Raster(id))
            &&& t.name == "текст"@ && !t.visible && !t.is_base && t.sel is None
        }),
{
    crate::stack_laws::unknown_numbers_find_nothing(s.layers, id);
}

} // verus!
