//! The panel of layers: which rows are selected, and what is done with the selection.

use vstd::prelude::*;
use vstd::string::StringExecFns;
use crate::bands::{Band, BandRef};
#[allow(unused_imports)]
use crate::bands::{band_views, ref_views, BandView, RefView};
#[allow(unused_imports)]
use crate::doc_sync::last_text;
use crate::doc_sync::find_last_text;
use crate::float_bits::ONE;
use crate::ident::{copy_opt_text, copy_texts, holds_text, uid_to_string};
#[allow(unused_imports)]
use crate::ident::{opt_text, texts, uid_text};
use crate::layer_doc::GroupMeta;
#[allow(unused_imports)]
use crate::layer_doc::{meta_views, MetaView};
use crate::layers::{group_mut_by_uid, GroupId, LayerId, LayerStack};
#[allow(unused_imports)]
use crate::layers::{group_from, layer_called, lemma_same_shape, GroupView, StackView};
use crate::text::append_decimal;
#[allow(unused_imports)]
use crate::text::decimal;
use crate::text_layers::PsTextLayer;
#[allow(unused_imports)]
use crate::text_layers::{text_views, TextView};
use crate::unified_order::{build_unified_order, current_membership, Member};
#[allow(unused_imports)]
use crate::unified_order::{
    all_items, group_in, member_views, order_views, ordered, pinned_texts, raster_members,
    text_members, MemberView,
};

verus! {

/// A row that can be selected.
pub enum RowSel {
    Raster(LayerId),
    Text(String),
    Group(String),
}

/// A row as a mathematical value.
pub enum RowView {
    Raster(LayerId),
    Text(Seq<char>),
    Group(Seq<char>),
}

impl View for RowSel {
    type V = RowView;

    open spec fn view(&self) -> RowView {
        match self {
            RowSel::Raster(id) => RowView::Raster(*id),
            RowSel::Text(u) => RowView::Text(u@),
            RowSel::Group(u) => RowView::Group(u@),
        }
    }
}

impl RowSel {
    pub fn copied(&self) -> (r: RowSel)
        ensures
            r@ == self@,
    {
        match self {
            RowSel::Raster(id) => RowSel::Raster(*id),
            RowSel::Text(u) => RowSel::Text(u.clone()),
            RowSel::Group(u) => RowSel::Group(u.clone()),
        }
    }

    pub fn same(&self, other: &RowSel) -> (r: bool)
        ensures
            r == (self@ == other@),
    {
        match (self, other) {
            (RowSel::Raster(a), RowSel::Raster(b)) => *a == *b,
            (RowSel::Text(a), RowSel::Text(b)) => *a == *b,
            (RowSel::Group(a), RowSel::Group(b)) => *a == *b,
            _ => false,
        }
    }
}

pub open spec fn row_views(v: Seq<RowSel>) -> Seq<RowView> {
    v.map_values(|r: RowSel| r@)
}

pub open spec fn opt_row(r: Option<RowSel>) -> Option<RowView> {
    match r {
        Some(x) => Some(x@),
        None => None,
    }
}

/// The place of a row, searched from `i` on.
pub open spec fn row_from(rows: Seq<RowView>, row: RowView, i: int) -> Option<int>
    decreases rows.len() - i,
{
    if i < 0 || i >= rows.len() {
        None
    } else if rows[i] == row {
        Some(i)
    } else {
        row_from(rows, row, i + 1)
    }
}

pub fn find_row(rows: &Vec<RowSel>, row: &RowSel) -> (r: Option<usize>)
    ensures
        match r {
            Some(i) => i < rows@.len() && row_from(row_views(rows@), row@, 0) == Some(i as int)
                && rows@[i as int]@ == row@,
            None => row_from(row_views(rows@), row@, 0) is None && !row_views(rows@).contains(row@),
        },
{
    let ghost rv = row_views(rows@);
    let mut i: usize = 0;
    while i < rows.len()
        invariant
            i <= rows@.len(),
            rv == row_views(rows@),
            row_from(rv, row@, 0) == row_from(rv, row@, i as int),
            forall|k: int| 0 <= k < i ==> rv[k] != row@,
        decreases rows@.len() - i,
    {
        assert(rv[i as int] == rows@[i as int]@);
        if rows[i].same(row) {
            return Some(i);
        }
        i += 1;
    }
    None
}

/// The selected rows, the row from which a range extends, and the row whose controls are shown.
pub struct PanelSelection {
    pub selected: Vec<RowSel>,
    pub anchor: Option<RowSel>,
    pub primary: Option<RowSel>,
}

/// What a click makes of the selected rows.
pub enum ClickEffect {
    /// The rows of a range, and only they, are selected.
    Range(int, int),
    /// The row is selected if it was not, and the other way round.
    Toggle,
    /// The row, and nothing else, is selected.
    Only,
}

/// The effect of a click on a row: with shift the range from the anchor, if both are shown; with
/// the command key a toggle; otherwise the row alone.
pub open spec fn click_effect(
    anchor: Option<RowView>,
    row: RowView,
    shift: bool,
    command: bool,
    rows: Seq<RowView>,
) -> ClickEffect {
    let a = if anchor is Some {
        row_from(rows, anchor->0, 0)
    } else {
        None
    };
    let b = row_from(rows, row, 0);
    if shift && a is Some && b is Some {
        if a->0 <= b->0 {
            ClickEffect::Range(a->0, b->0)
        } else {
            ClickEffect::Range(b->0, a->0)
        }
    } else if command {
        ClickEffect::Toggle
    } else {
        ClickEffect::Only
    }
}

/// The selection after a click on a row, which becomes the main one.
pub open spec fn clicked(
    before: PanelSelection,
    after: PanelSelection,
    row: RowView,
    shift: bool,
    command: bool,
    rows: Seq<RowView>,
) -> bool {
    let was = row_views(before.selected@);
    let now = row_views(after.selected@);
    &&& opt_row(after.primary) == Some(row)
    &&& match click_effect(opt_row(before.anchor), row, shift, command, rows) {
        ClickEffect::Range(lo, hi) => now == rows.subrange(lo, hi + 1) && opt_row(after.anchor)
            == opt_row(before.anchor),
        ClickEffect::Toggle => now == (if was.contains(row) {
            without_row(was, row)
        } else {
            was.push(row)
        }) && opt_row(after.anchor) == Some(row),
        ClickEffect::Only => now == seq![row] && opt_row(after.anchor) == Some(row),
    }
}

/// The rows without one of them.
pub open spec fn without_row(rows: Seq<RowView>, row: RowView) -> Seq<RowView>
    decreases rows.len(),
{
    if rows.len() == 0 {
        Seq::empty()
    } else {
        let head = without_row(rows.drop_last(), row);
        if rows.last() == row {
            head
        } else {
            head.push(rows.last())
        }
    }
}

fn remove_row(rows: &Vec<RowSel>, row: &RowSel) -> (out: Vec<RowSel>)
    ensures
        row_views(out@) == without_row(row_views(rows@), row@),
{
    let ghost rv = row_views(rows@);
    let mut out: Vec<RowSel> = Vec::new();
    let mut i: usize = 0;
    assert(rv.take(0) =~= Seq::empty());
    while i < rows.len()
        invariant
            i <= rows@.len(),
            rv == row_views(rows@),
            row_views(out@) == without_row(rv.take(i as int), row@),
        decreases rows@.len() - i,
    {
        let ghost before = out@;
        assert(rv[i as int] == rows@[i as int]@);
        assert(rv.take(i + 1).drop_last() =~= rv.take(i as int));
        if !rows[i].same(row) {
            let r = rows[i].copied();
            let ghost v = r@;
            out.push(r);
            assert(row_views(out@) =~= row_views(before).push(v));
        }
        i += 1;
    }
    assert(rv.take(rv.len() as int) =~= rv);
    out
}

impl PanelSelection {
    /// A click on a row; `rows` are the rows that are shown.
    pub fn select_row(&mut self, row: RowSel, shift: bool, command: bool, rows: &Vec<RowSel>)
        ensures
            clicked(*old(self), *final(self), row@, shift, command, row_views(rows@)),
    {
        let ghost rv = row_views(rows@);
        if shift {
            let a: Option<usize> = match &self.anchor {
                Some(x) => find_row(rows, x),
                None => None,
            };
            let b: Option<usize> = find_row(rows, &row);
            if let (Some(a), Some(b)) = (a, b) {
                let lo: usize = if a <= b {
                    a
                } else {
                    b
                };
                let hi: usize = if a <= b {
                    b
                } else {
                    a
                };
                assert(rows.len() <= usize::MAX);
                let mut out: Vec<RowSel> = Vec::new();
                let mut i: usize = lo;
                assert(row_views(out@) =~= rv.subrange(lo as int, lo as int));
                while i <= hi
                    invariant
                        lo <= i <= hi + 1,
                        hi < rows@.len() <= usize::MAX,
                        rv == row_views(rows@),
                        row_views(out@) == rv.subrange(lo as int, i as int),
                    decreases hi + 1 - i,
                {
                    let ghost before = out@;
                    let r = rows[i].copied();
                    let ghost v = r@;
                    out.push(r);
                    assert(row_views(out@) =~= row_views(before).push(v));
                    i += 1;
                    assert(row_views(out@) =~= rv.subrange(lo as int, i as int));
                }
                self.selected = out;
                self.primary = Some(row);
                return;
            }
        }
        if command {
            if find_row(&self.selected, &row).is_some() {
                assert(row_views(self.selected@).contains(row@)) by {
                    let k = row_from(row_views(self.selected@), row@, 0)->0;
                    assert(row_views(self.selected@)[k] == row@);
                }
                self.selected = remove_row(&self.selected, &row);
            } else {
                let ghost before = self.selected@;
                let r = row.copied();
                let ghost v = r@;
                self.selected.push(r);
                assert(row_views(self.selected@) =~= row_views(before).push(v));
            }
            self.anchor = Some(row.copied());
            self.primary = Some(row);
            return;
        }
        let mut one: Vec<RowSel> = Vec::new();
        one.push(row.copied());
        assert(row_views(one@) =~= seq![row@]);
        self.selected = one;
        self.anchor = Some(row.copied());
        self.primary = Some(row);
    }
}

/// Clicking a row twice with the command key leaves the selected rows as they were, where the row
/// was not selected.
pub proof fn toggling_twice_restores(rows: Seq<RowView>, row: RowView)
    requires
        !rows.contains(row),
    ensures
        without_row(rows.push(row), row) == rows,
    decreases rows.len(),
{
    assert(rows.push(row).drop_last() =~= rows);
    lemma_without_absent(rows, row);
}

proof fn lemma_without_absent(rows: Seq<RowView>, row: RowView)
    requires
        !rows.contains(row),
    ensures
        without_row(rows, row) == rows,
    decreases rows.len(),
{
    if rows.len() > 0 {
        let r = rows.drop_last();
        assert(!r.contains(row)) by {
            if r.contains(row) {
                let k = choose|k: int| 0 <= k < r.len() && r[k] == row;
                assert(rows[k] == row);
            }
        }
        lemma_without_absent(r, row);
        assert(rows[rows.len() - 1] == rows.last());
        assert(without_row(rows, row) =~= rows);
    } else {
        assert(without_row(rows, row) =~= rows);
    }
}

/// What is done with groups.
pub enum GroupOp {
    /// A new group of the selected rows.
    NewFromSelection,
    /// The selected rows go into a group.
    MoveTo(String),
    /// The selected rows leave their groups.
    Ungroup,
    DeleteGroup(String),
    ToggleCollapse(String),
    ToggleGroupVisible(String),
    GroupOpacity(String, u32),
    /// The block of a group moves up or down.
    MoveGroup(String, bool),
}

/// A change of groups to be stored.
pub struct GroupingEdit {
    pub new_groups: Vec<GroupMeta>,
    pub remove_groups: Vec<String>,
    pub set_membership: Vec<Member>,
    pub pin_for_group: Vec<String>,
    pub unpin_for_group: Vec<String>,
    pub order: Vec<BandRef>,
}

/// What an operation on groups asks for.
pub enum GroupOutcome {
    /// Only the stack changed; it is stored later.
    Noted,
    /// The block of a group is to be moved.
    Move { uid: String, up: bool },
    /// The change is to be stored.
    Store(GroupingEdit),
}

/// The rasters and texts among the first `n` selected rows.
pub open spec fn chosen_uids(s: StackView, rows: Seq<RowView>, n: int) -> Seq<Seq<char>>
    decreases n,
{
    if n <= 0 {
        Seq::empty()
    } else {
        let prev = chosen_uids(s, rows, n - 1);
        match rows[n - 1] {
            RowView::Raster(id) => match layer_called(s.layers, id) {
                Some(l) => if l.kind.base() {
                    prev
                } else {
                    prev.push(uid_text(l.uid))
                },
                None => prev,
            },
            RowView::Text(u) => prev.push(u),
            RowView::Group(_) => prev,
        }
    }
}

/// The layers of the user among the first `n` selected rows.
pub open spec fn chosen_ids(s: StackView, rows: Seq<RowView>, n: int) -> Seq<LayerId>
    decreases n,
{
    if n <= 0 {
        Seq::empty()
    } else {
        let prev = chosen_ids(s, rows, n - 1);
        match rows[n - 1] {
            RowView::Raster(id) => match layer_called(s.layers, id) {
                Some(l) => if l.kind.base() {
                    prev
                } else {
                    prev.push(id)
                },
                None => prev,
            },
            _ => prev,
        }
    }
}

/// The text with an identifier.
pub open spec fn text_named(ts: Seq<TextView>, uid: Seq<char>) -> Option<TextView> {
    match last_text(ts, uid, ts.len() as int) {
        Some(i) => Some(ts[i]),
        None => None,
    }
}

/// The text has a place of its own by the user's wish.
pub open spec fn user_pinned(t: Option<TextView>) -> bool {
    t is Some && (t->0).pinned && !(t->0).pinned_by_group
}

/// The text has a place of its own only for the sake of a group.
pub open spec fn group_pinned(t: Option<TextView>) -> bool {
    t is Some && (t->0).pinned_by_group
}

/// The texts among the first `n` that get a place of their own when they enter a group.
pub open spec fn entering_pins(ts: Seq<TextView>, uids: Seq<Seq<char>>, n: int) -> Seq<Seq<char>>
    decreases n,
{
    if n <= 0 {
        Seq::empty()
    } else {
        let t = text_named(ts, uids[n - 1]);
        let prev = entering_pins(ts, uids, n - 1);
        if t is Some && !user_pinned(t) {
            prev.push(uids[n - 1])
        } else {
            prev
        }
    }
}

/// The texts with a place of their own after the first `n` entered a group.
pub open spec fn pinned_after_entering(
    pinned: Seq<Seq<char>>,
    ts: Seq<TextView>,
    uids: Seq<Seq<char>>,
    n: int,
) -> Seq<Seq<char>>
    decreases n,
{
    if n <= 0 {
        pinned
    } else {
        let prev = pinned_after_entering(pinned, ts, uids, n - 1);
        if text_named(ts, uids[n - 1]) is Some && !prev.contains(uids[n - 1]) {
            prev.push(uids[n - 1])
        } else {
            prev
        }
    }
}

/// The texts among the first `n` that lose their place when they leave a group.
pub open spec fn leaving_pins(ts: Seq<TextView>, uids: Seq<Seq<char>>, n: int) -> Seq<Seq<char>>
    decreases n,
{
    if n <= 0 {
        Seq::empty()
    } else {
        let prev = leaving_pins(ts, uids, n - 1);
        if group_pinned(text_named(ts, uids[n - 1])) {
            prev.push(uids[n - 1])
        } else {
            prev
        }
    }
}

/// The list without a text.
pub open spec fn without_text(v: Seq<Seq<char>>, x: Seq<char>) -> Seq<Seq<char>>
    decreases v.len(),
{
    if v.len() == 0 {
        Seq::empty()
    } else {
        let head = without_text(v.drop_last(), x);
        if v.last() == x {
            head
        } else {
            head.push(v.last())
        }
    }
}

/// The texts with a place of their own after the first `n` left their groups.
pub open spec fn pinned_after_leaving(
    pinned: Seq<Seq<char>>,
    ts: Seq<TextView>,
    uids: Seq<Seq<char>>,
    n: int,
) -> Seq<Seq<char>>
    decreases n,
{
    if n <= 0 {
        pinned
    } else {
        let prev = pinned_after_leaving(pinned, ts, uids, n - 1);
        if group_pinned(text_named(ts, uids[n - 1])) {
            without_text(prev, uids[n - 1])
        } else {
            prev
        }
    }
}

/// The same group for each of some rasters and texts.
pub open spec fn joined(uids: Seq<Seq<char>>, group: Option<Seq<char>>) -> Seq<MemberView> {
    uids.map_values(|u: Seq<char>| MemberView { uid: u, group })
}

/// The members of a group among the first `n` entries, each once: an entry counts where no later
/// one has the same identifier.
pub open spec fn members_of(ms: Seq<MemberView>, group: Seq<char>, n: int) -> Seq<Seq<char>>
    decreases n,
{
    if n <= 0 {
        Seq::empty()
    } else {
        let m = ms[n - 1];
        let prev = members_of(ms, group, n - 1);
        if m.group == Some(group) && !later_entry(ms, m.uid, n) {
            prev.push(m.uid)
        } else {
            prev
        }
    }
}

/// An entry from `i` on has this identifier.
pub open spec fn later_entry(ms: Seq<MemberView>, uid: Seq<char>, i: int) -> bool {
    exists|k: int| i <= k < ms.len() && (#[trigger] ms[k]).uid == uid
}

pub open spec fn refs_only(order: Seq<(RefView, Option<Seq<char>>)>) -> Seq<RefView> {
    order.map_values(|p: (RefView, Option<Seq<char>>)| p.0)
}

/// The stack with the first `n` of some layers put into a group.
pub open spec fn joined_stack(s: StackView, ids: Seq<LayerId>, group: Option<GroupId>, n: int) -> StackView
    decreases n,
{
    if n <= 0 {
        s
    } else {
        joined_stack(s, ids, group, n - 1).with_membership(ids[n - 1], group)
    }
}

fn resolve_selection(stack: &LayerStack, rows: &Vec<RowSel>) -> (r: (Vec<LayerId>, Vec<String>))
    ensures
        r.0@ == chosen_ids(stack@, row_views(rows@), rows@.len() as int),
        texts(r.1@) == chosen_uids(stack@, row_views(rows@), rows@.len() as int),
{
    let ghost s = stack@;
    let ghost rv = row_views(rows@);
    let mut ids: Vec<LayerId> = Vec::new();
    let mut uids: Vec<String> = Vec::new();
    let mut n: usize = 0;
    assert(texts(uids@) =~= Seq::empty());
    while n < rows.len()
        invariant
            n <= rows@.len(),
            s == stack@,
            rv == row_views(rows@),
            ids@ == chosen_ids(s, rv, n as int),
            texts(uids@) == chosen_uids(s, rv, n as int),
        decreases rows@.len() - n,
    {
        let ghost before = uids@;
        assert(rv[n as int] == rows@[n as int]@);
        match &rows[n] {
            RowSel::Raster(id) => {
                if let Some(l) = stack.layer(*id) {
                    if !l.kind.is_base() {
                        ids.push(*id);
                        let u = uid_to_string(l.uid);
                        let ghost uv = u@;
                        uids.push(u);
                        assert(texts(uids@) =~= texts(before).push(uv));
                    }
                }
            },
            RowSel::Text(u) => {
                uids.push(u.clone());
                assert(texts(uids@) =~= texts(before).push(u@));
            },
            RowSel::Group(_) => {},
        }
        n += 1;
    }
    (ids, uids)
}

fn remove_text(v: &Vec<String>, x: &String) -> (out: Vec<String>)
    ensures
        texts(out@) == without_text(texts(v@), x@),
{
    let ghost tv = texts(v@);
    let mut out: Vec<String> = Vec::new();
    let mut i: usize = 0;
    assert(tv.take(0) =~= Seq::empty());
    assert(texts(out@) =~= Seq::empty());
    while i < v.len()
        invariant
            i <= v@.len(),
            tv == texts(v@),
            texts(out@) == without_text(tv.take(i as int), x@),
        decreases v@.len() - i,
    {
        let ghost before = out@;
        assert(tv[i as int] == v@[i as int]@);
        assert(tv.take(i + 1).drop_last() =~= tv.take(i as int));
        if !(v[i] == *x) {
            out.push(v[i].clone());
            assert(texts(out@) =~= texts(before).push(v@[i as int]@));
        }
        i += 1;
    }
    assert(tv.take(tv.len() as int) =~= tv);
    out
}

/// The pins that change when rasters and texts enter a group or leave their groups.
struct PinChange {
    pinned: Vec<String>,
    changed: Vec<String>,
}

fn enter_group(text_layers: &Vec<PsTextLayer>, pinned: &Vec<String>, uids: &Vec<String>) -> (c:
    PinChange)
    ensures
        texts(c.pinned@) == pinned_after_entering(
            texts(pinned@),
            text_views(text_layers@),
            texts(uids@),
            uids@.len() as int,
        ),
        texts(c.changed@) == entering_pins(
            text_views(text_layers@),
            texts(uids@),
            uids@.len() as int,
        ),
{
    let ghost ts = text_views(text_layers@);
    let ghost us = texts(uids@);
    let ghost p0 = texts(pinned@);
    let mut out = copy_texts(pinned);
    let mut changed: Vec<String> = Vec::new();
    let mut n: usize = 0;
    assert(texts(changed@) =~= Seq::empty());
    while n < uids.len()
        invariant
            n <= uids@.len(),
            ts == text_views(text_layers@),
            us == texts(uids@),
            texts(out@) == pinned_after_entering(p0, ts, us, n as int),
            texts(changed@) == entering_pins(ts, us, n as int),
        decreases uids@.len() - n,
    {
        let ghost o0 = out@;
        let ghost c0 = changed@;
        assert(us[n as int] == uids@[n as int]@);
        if let Some(i) = find_last_text(text_layers, &uids[n]) {
            assert(ts[i as int] == text_layers@[i as int]@);
            if !holds_text(&out, &uids[n]) {
                out.push(uids[n].clone());
                assert(texts(out@) =~= texts(o0).push(us[n as int]));
            }
            if !(text_layers[i].pinned && !text_layers[i].pinned_by_group) {
                changed.push(uids[n].clone());
                assert(texts(changed@) =~= texts(c0).push(us[n as int]));
            }
        }
        n += 1;
    }
    PinChange { pinned: out, changed }
}

fn leave_group(text_layers: &Vec<PsTextLayer>, pinned: &Vec<String>, uids: &Vec<String>) -> (c:
    PinChange)
    ensures
        texts(c.pinned@) == pinned_after_leaving(
            texts(pinned@),
            text_views(text_layers@),
            texts(uids@),
            uids@.len() as int,
        ),
        texts(c.changed@) == leaving_pins(
            text_views(text_layers@),
            texts(uids@),
            uids@.len() as int,
        ),
{
    let ghost ts = text_views(text_layers@);
    let ghost us = texts(uids@);
    let ghost p0 = texts(pinned@);
    let mut out = copy_texts(pinned);
    let mut changed: Vec<String> = Vec::new();
    let mut n: usize = 0;
    assert(texts(changed@) =~= Seq::empty());
    while n < uids.len()
        invariant
            n <= uids@.len(),
            ts == text_views(text_layers@),
            us == texts(uids@),
            texts(out@) == pinned_after_leaving(p0, ts, us, n as int),
            texts(changed@) == leaving_pins(ts, us, n as int),
        decreases uids@.len() - n,
    {
        let ghost c0 = changed@;
        assert(us[n as int] == uids@[n as int]@);
        if let Some(i) = find_last_text(text_layers, &uids[n]) {
            assert(ts[i as int] == text_layers@[i as int]@);
            if text_layers[i].pinned_by_group {
                out = remove_text(&out, &uids[n]);
                changed.push(uids[n].clone());
                assert(texts(changed@) =~= texts(c0).push(us[n as int]));
            }
        }
        n += 1;
    }
    PinChange { pinned: out, changed }
}

/// Appends the same group for each of some rasters and texts.
fn append_members(out: &mut Vec<Member>, uids: &Vec<String>, group: &Option<String>)
    ensures
        member_views(final(out)@) == member_views(old(out)@) + joined(
            texts(uids@),
            opt_text(*group),
        ),
{
    let ghost o0 = member_views(out@);
    let ghost us = texts(uids@);
    let ghost g = opt_text(*group);
    let ghost js = joined(us, g);
    let mut n: usize = 0;
    assert(o0 + js.take(0) =~= o0);
    while n < uids.len()
        invariant
            n <= uids@.len(),
            us == texts(uids@),
            g == opt_text(*group),
            js == joined(us, g),
            member_views(out@) == o0 + js.take(n as int),
        decreases uids@.len() - n,
    {
        let ghost before = out@;
        let m = Member { uid: uids[n].clone(), group: copy_opt_text(group) };
        let ghost mv = m@;
        out.push(m);
        assert(member_views(out@) =~= member_views(before).push(mv));
        assert(js[n as int] == mv);
        n += 1;
        assert(js.take(n as int) =~= js.take(n - 1).push(mv));
        assert(member_views(out@) =~= o0 + js.take(n as int));
    }
    assert(js.take(js.len() as int) =~= js);
}

fn order_refs(order: &Vec<(BandRef, Option<String>)>) -> (out: Vec<BandRef>)
    ensures
        ref_views(out@) == refs_only(order_views(order@)),
{
    let ghost target = refs_only(order_views(order@));
    let mut out: Vec<BandRef> = Vec::new();
    let mut n: usize = 0;
    while n < order.len()
        invariant
            n <= order@.len(),
            target == refs_only(order_views(order@)),
            ref_views(out@) == target.take(n as int),
        decreases order@.len() - n,
    {
        let ghost before = out@;
        let b = order[n].0.copied();
        let ghost v = b@;
        out.push(b);
        assert(ref_views(out@) =~= ref_views(before).push(v));
        assert(target[n as int] == v);
        n += 1;
        assert(ref_views(out@) =~= target.take(n as int));
    }
    assert(target.take(target.len() as int) =~= target);
    out
}

fn find_members(ms: &Vec<Member>, group: &String) -> (out: Vec<String>)
    ensures
        texts(out@) == members_of(member_views(ms@), group@, ms@.len() as int),
{
    let ghost mv = member_views(ms@);
    let mut out: Vec<String> = Vec::new();
    let mut n: usize = 0;
    assert(texts(out@) =~= Seq::empty());
    while n < ms.len()
        invariant
            n <= ms@.len(),
            mv == member_views(ms@),
            texts(out@) == members_of(mv, group@, n as int),
        decreases ms@.len() - n,
    {
        let ghost before = out@;
        assert(mv[n as int] == ms@[n as int]@);
        let mine = match &ms[n].group {
            Some(g) => *g == *group,
            None => false,
        };
        if mine {
            let mut later: bool = false;
            let mut k: usize = n + 1;
            while k < ms.len()
                invariant
                    n < ms@.len(),
                    n + 1 <= k <= ms@.len(),
                    mv == member_views(ms@),
                    later == (exists|q: int|
                        n + 1 <= q < k && (#[trigger] mv[q]).uid == mv[n as int].uid),
                decreases ms@.len() - k,
            {
                assert(mv[k as int] == ms@[k as int]@);
                assert(mv[n as int] == ms@[n as int]@);
                if ms[k].uid == ms[n].uid {
                    later = true;
                    assert(mv[k as int].uid == mv[n as int].uid);
                }
                k += 1;
            }
            assert(later == later_entry(mv, mv[n as int].uid, n + 1));
            if !later {
                out.push(ms[n].uid.clone());
                assert(texts(out@) =~= texts(before).push(mv[n as int].uid));
            }
        }
        n += 1;
    }
    out
}

/// A change of groups as a mathematical value.
#[verifier::ext_equal]
pub struct EditView {
    pub new_groups: Seq<MetaView>,
    pub remove_groups: Seq<Seq<char>>,
    pub set_membership: Seq<MemberView>,
    pub pin_for_group: Seq<Seq<char>>,
    pub unpin_for_group: Seq<Seq<char>>,
    pub order: Seq<RefView>,
}

impl View for GroupingEdit {
    type V = EditView;

    open spec fn view(&self) -> EditView {
        EditView {
            new_groups: meta_views(self.new_groups@),
            remove_groups: texts(self.remove_groups@),
            set_membership: member_views(self.set_membership@),
            pin_for_group: texts(self.pin_for_group@),
            unpin_for_group: texts(self.unpin_for_group@),
            order: ref_views(self.order@),
        }
    }
}

/// The groups of everything on the page.
pub open spec fn members_now(s: StackView, ts: Seq<TextView>) -> Seq<MemberView> {
    raster_members(s, s.layers.len() as int) + text_members(ts)
}

pub open spec fn order_for(
    s: StackView,
    ts: Seq<TextView>,
    bands: Seq<BandView>,
    ms: Seq<MemberView>,
    pinned: Seq<Seq<char>>,
) -> Seq<RefView> {
    refs_only(ordered(all_items(s, ts, bands, ms, pinned)))
}

/// The stack without the group that has an identifier.
pub open spec fn without_group_called(s: StackView, uid: Seq<char>) -> StackView {
    match group_from(s.groups, uid, 0) {
        Some(i) => s.without_group(s.groups[i].id),
        None => s,
    }
}

/// Deleting a group: its members leave it, and those that had a place only for its sake lose it.
pub open spec fn delete_edit(
    s: StackView,
    ts: Seq<TextView>,
    bands: Seq<BandView>,
    uid: Seq<char>,
) -> EditView {
    let now = members_now(s, ts);
    let members = members_of(now, uid, now.len() as int);
    let n = members.len() as int;
    EditView {
        new_groups: Seq::empty(),
        remove_groups: seq![uid],
        set_membership: joined(members, None),
        pin_for_group: Seq::empty(),
        unpin_for_group: leaving_pins(ts, members, n),
        order: order_for(
            without_group_called(s, uid),
            ts,
            bands,
            now + joined(members, None),
            pinned_after_leaving(pinned_texts(ts, ts.len() as int), ts, members, n),
        ),
    }
}

/// Putting the selected rasters and texts into a group, or into none.
pub open spec fn join_edit(
    s: StackView,
    ts: Seq<TextView>,
    bands: Seq<BandView>,
    rows: Seq<RowView>,
    target: Option<Seq<char>>,
    new_groups: Seq<MetaView>,
) -> EditView {
    let uids = chosen_uids(s, rows, rows.len() as int);
    let n = uids.len() as int;
    let pinned = pinned_texts(ts, ts.len() as int);
    EditView {
        new_groups,
        remove_groups: Seq::empty(),
        set_membership: joined(uids, target),
        pin_for_group: if target is Some {
            entering_pins(ts, uids, n)
        } else {
            Seq::empty()
        },
        unpin_for_group: if target is Some {
            Seq::empty()
        } else {
            leaving_pins(ts, uids, n)
        },
        order: order_for(
            s,
            ts,
            bands,
            members_now(s, ts) + joined(uids, target),
            if target is Some {
                pinned_after_entering(pinned, ts, uids, n)
            } else {
                pinned_after_leaving(pinned, ts, uids, n)
            },
        ),
    }
}

/// The name of the next new group.
pub open spec fn next_group_name(s: StackView) -> Seq<char> {
    "Группа "@ + decimal((s.groups.len() + 1) as nat)
}

pub open spec fn new_meta(s: StackView, uid: u128) -> MetaView {
    MetaView {
        uid: uid_text(uid),
        name: next_group_name(s),
        visible: true,
        opacity: ONE,
        collapsed: false,
    }
}

/// The stack with the group that has an identifier changed.
pub open spec fn with_group_changed(s: StackView, uid: Seq<char>, f: spec_fn(GroupView) -> GroupView) -> StackView {
    StackView {
        groups: match group_from(s.groups, uid, 0) {
            Some(i) => s.groups.update(i, f(s.groups[i])),
            None => s.groups,
        },
        ..s
    }
}

proof fn lemma_group_changed(s: StackView, t: StackView)
    requires
        s.valid(),
        t == (StackView { groups: t.groups, ..s }),
        t.groups.len() == s.groups.len(),
        forall|i: int| 0 <= i < s.groups.len() ==> (#[trigger] t.groups[i]).id == s.groups[i].id,
    ensures
        t.valid(),
{
    assert forall|i: int| 0 <= i < s.layers.len() implies (#[trigger] t.layers[i]).valid()
        && t.layers[i].id == s.layers[i].id && t.layers[i].kind == s.layers[i].kind by {
        assert(s.layers[i].valid());
    }
    lemma_same_shape(s, t);
}

fn toggle_collapse(stack: &mut LayerStack, uid: &String)
    requires
        old(stack).wf(),
    ensures
        final(stack).wf(),
        final(stack)@ == with_group_changed(
            old(stack)@,
            uid@,
            |g: GroupView| GroupView { collapsed: !g.collapsed, ..g },
        ),
{
    let ghost s0 = stack@;
    if let Some(g) = group_mut_by_uid(stack, uid) {
        g.collapsed = !g.collapsed;
    }
    proof {
        let f = |g: GroupView| GroupView { collapsed: !g.collapsed, ..g };
        assert(stack@.groups =~= with_group_changed(s0, uid@, f).groups);
        lemma_group_changed(s0, stack@);
    }
}

fn toggle_group_visible(stack: &mut LayerStack, uid: &String)
    requires
        old(stack).wf(),
    ensures
        final(stack).wf(),
        final(stack)@ == with_group_changed(
            old(stack)@,
            uid@,
            |g: GroupView| GroupView { visible: !g.visible, ..g },
        ),
{
    let ghost s0 = stack@;
    if let Some(g) = group_mut_by_uid(stack, uid) {
        g.visible = !g.visible;
    }
    proof {
        let f = |g: GroupView| GroupView { visible: !g.visible, ..g };
        assert(stack@.groups =~= with_group_changed(s0, uid@, f).groups);
        lemma_group_changed(s0, stack@);
    }
}

fn set_group_opacity(stack: &mut LayerStack, uid: &String, opacity: u32)
    requires
        old(stack).wf(),
    ensures
        final(stack).wf(),
        final(stack)@ == with_group_changed(
            old(stack)@,
            uid@,
            |g: GroupView| GroupView { opacity, ..g },
        ),
{
    let ghost s0 = stack@;
    if let Some(g) = group_mut_by_uid(stack, uid) {
        g.opacity = opacity;
    }
    proof {
        let f = |g: GroupView| GroupView { opacity, ..g };
        assert(stack@.groups =~= with_group_changed(s0, uid@, f).groups);
        lemma_group_changed(s0, stack@);
    }
}

fn delete_group(
    stack: &mut LayerStack,
    text_layers: &Vec<PsTextLayer>,
    bands: &Vec<Band>,
    uid: &String,
) -> (edit: GroupingEdit)
    requires
        old(stack).wf(),
        bands@.len() <= u32::MAX,
    ensures
        final(stack).wf(),
        final(stack)@ == without_group_called(old(stack)@, uid@),
        edit@ == delete_edit(old(stack)@, text_views(text_layers@), band_views(bands@), uid@),
{
    let (mut group_of, pinned) = current_membership(stack, text_layers);
    let members = find_members(&group_of, uid);
    let none: Option<String> = None;
    let mut set_membership: Vec<Member> = Vec::new();
    append_members(&mut set_membership, &members, &none);
    assert(member_views(set_membership@) =~= joined(texts(members@), None));
    append_members(&mut group_of, &members, &none);
    let change = leave_group(text_layers, &pinned, &members);
    if let Some(i) = stack.group_position(uid) {
        let id: GroupId = stack.groups[i].id;
        stack.remove_group(id);
    }
    let order = build_unified_order(stack, text_layers, bands, &group_of, &change.pinned);
    let mut remove_groups: Vec<String> = Vec::new();
    remove_groups.push(uid.clone());
    let edit = GroupingEdit {
        new_groups: Vec::new(),
        remove_groups,
        set_membership,
        pin_for_group: Vec::new(),
        unpin_for_group: change.changed,
        order: order_refs(&order),
    };
    proof {
        let target = delete_edit(
            old(stack)@,
            text_views(text_layers@),
            band_views(bands@),
            uid@,
        );
        assert(edit@.new_groups =~= target.new_groups);
        assert(edit@.remove_groups =~= target.remove_groups);
        assert(edit@.pin_for_group =~= target.pin_for_group);
        assert(texts(members@).len() == members@.len());
        assert(edit@ =~= target);
    }
    edit
}

fn join_group(
    stack: &LayerStack,
    text_layers: &Vec<PsTextLayer>,
    bands: &Vec<Band>,
    rows: &Vec<RowSel>,
    uids: &Vec<String>,
    target: &Option<String>,
    new_groups: Vec<GroupMeta>,
) -> (edit: GroupingEdit)
    requires
        bands@.len() <= u32::MAX,
        texts(uids@) == chosen_uids(stack@, row_views(rows@), rows@.len() as int),
    ensures
        edit@ == join_edit(
            stack@,
            text_views(text_layers@),
            band_views(bands@),
            row_views(rows@),
            opt_text(*target),
            meta_views(new_groups@),
        ),
{
    let (mut group_of, pinned) = current_membership(stack, text_layers);
    let mut set_membership: Vec<Member> = Vec::new();
    append_members(&mut set_membership, uids, target);
    assert(member_views(set_membership@) =~= joined(texts(uids@), opt_text(*target)));
    append_members(&mut group_of, uids, target);
    let mut pin_for_group: Vec<String> = Vec::new();
    let mut unpin_for_group: Vec<String> = Vec::new();
    let change = if target.is_some() {
        enter_group(text_layers, &pinned, uids)
    } else {
        leave_group(text_layers, &pinned, uids)
    };
    let order = build_unified_order(stack, text_layers, bands, &group_of, &change.pinned);
    if target.is_some() {
        pin_for_group = change.changed;
    } else {
        unpin_for_group = change.changed;
    }
    let edit = GroupingEdit {
        new_groups,
        remove_groups: Vec::new(),
        set_membership,
        pin_for_group,
        unpin_for_group,
        order: order_refs(&order),
    };
    proof {
        let t = join_edit(
            stack@,
            text_views(text_layers@),
            band_views(bands@),
            row_views(rows@),
            opt_text(*target),
            meta_views(new_groups@),
        );
        assert(texts(uids@).len() == uids@.len());
        assert(edit@.remove_groups =~= t.remove_groups);
        assert(edit@.pin_for_group =~= t.pin_for_group);
        assert(edit@.unpin_for_group =~= t.unpin_for_group);
        assert(edit@ =~= t);
    }
    edit
}

fn mirror_membership(stack: &mut LayerStack, ids: &Vec<LayerId>, group: Option<GroupId>)
    requires
        old(stack).wf(),
    ensures
        final(stack).wf(),
        final(stack)@ == joined_stack(old(stack)@, ids@, group, ids@.len() as int),
{
    let ghost s0 = stack@;
    let mut n: usize = 0;
    while n < ids.len()
        invariant
            n <= ids@.len(),
            stack.wf(),
            stack@ == joined_stack(s0, ids@, group, n as int),
        decreases ids@.len() - n,
    {
        stack.set_layer_group(ids[n], group);
        n += 1;
    }
}

/// The stack after an operation on groups.
pub open spec fn stack_after(s: StackView, rows: Seq<RowView>, op: GroupOp, new_uid: u128) -> StackView {
    let ids = chosen_ids(s, rows, rows.len() as int);
    let n = ids.len() as int;
    match op {
        GroupOp::ToggleCollapse(u) => with_group_changed(
            s,
            u@,
            |g: GroupView| GroupView { collapsed: !g.collapsed, ..g },
        ),
        GroupOp::ToggleGroupVisible(u) => with_group_changed(
            s,
            u@,
            |g: GroupView| GroupView { visible: !g.visible, ..g },
        ),
        GroupOp::GroupOpacity(u, v) => with_group_changed(
            s,
            u@,
            |g: GroupView| GroupView { opacity: v, ..g },
        ),
        GroupOp::MoveGroup(..) => s,
        GroupOp::DeleteGroup(u) => without_group_called(s, u@),
        GroupOp::NewFromSelection => joined_stack(
            s.with_group(next_group_name(s), new_uid),
            ids,
            Some(s.next_group_id),
            n,
        ),
        GroupOp::MoveTo(u) => joined_stack(
            s,
            ids,
            match group_from(s.groups, u@, 0) {
                Some(i) => Some(s.groups[i].id),
                None => None,
            },
            n,
        ),
        GroupOp::Ungroup => joined_stack(s, ids, None, n),
    }
}

/// The operation changes how a group looks and nothing else.  The document does not hold that, so
/// the page has to be stored for it when it is left.
pub open spec fn only_noted(op: GroupOp) -> bool {
    op is ToggleCollapse || op is ToggleGroupVisible || op is GroupOpacity
}

/// What an operation on groups hands over: nothing, the move of a block, or the change of groups
/// that is to be stored.
pub open spec fn group_outcome(
    out: GroupOutcome,
    s: StackView,
    ts: Seq<TextView>,
    bands: Seq<BandView>,
    rows: Seq<RowView>,
    op: GroupOp,
    new_uid: u128,
) -> bool {
    match op {
        GroupOp::ToggleCollapse(_) => out is Noted,
        GroupOp::ToggleGroupVisible(_) => out is Noted,
        GroupOp::GroupOpacity(..) => out is Noted,
        GroupOp::MoveGroup(u, up) => out is Move && out->uid@ == u@ && out->up == up,
        GroupOp::DeleteGroup(u) => out is Store && out->0@ == delete_edit(
            s,
            ts,
            bands,
            u@,
        ),
        GroupOp::NewFromSelection => out is Store && out->0@ == join_edit(
            s,
            ts,
            bands,
            rows,
            Some(uid_text(new_uid)),
            seq![new_meta(s, new_uid)],
        ),
        GroupOp::MoveTo(u) => out is Store && out->0@ == join_edit(
            s,
            ts,
            bands,
            rows,
            Some(u@),
            Seq::empty(),
        ),
        GroupOp::Ungroup => out is Store && out->0@ == join_edit(
            s,
            ts,
            bands,
            rows,
            None,
            Seq::empty(),
        ),
    }
}

/// Does something with groups.  What concerns the looks of a group alone is only noted, and marks
/// the page as changed; a change of members is handed over with the new order of the page.
pub fn apply_group_op(
    stack: &mut LayerStack,
    layers_dirty: &mut bool,
    text_layers: &Vec<PsTextLayer>,
    bands: &Vec<Band>,
    rows: &Vec<RowSel>,
    op: GroupOp,
    new_uid: u128,
) -> (out: GroupOutcome)
    requires
        old(stack).wf(),
        bands@.len() <= u32::MAX,
        old(stack)@.next_group_id < u64::MAX,
        old(stack).groups@.len() < usize::MAX,
    ensures
        final(stack).wf(),
        final(stack)@ == stack_after(old(stack)@, row_views(rows@), op, new_uid),
        *final(layers_dirty) == (*old(layers_dirty) || only_noted(op)),
        group_outcome(
            out,
            old(stack)@,
            text_views(text_layers@),
            band_views(bands@),
            row_views(rows@),
            op,
            new_uid,
        ),
{
    let (ids, uids) = resolve_selection(stack, rows);
    match op {
        GroupOp::ToggleCollapse(u) => {
            toggle_collapse(stack, &u);
            *layers_dirty = true;
            GroupOutcome::Noted
        },
        GroupOp::ToggleGroupVisible(u) => {
            toggle_group_visible(stack, &u);
            *layers_dirty = true;
            GroupOutcome::Noted
        },
        GroupOp::GroupOpacity(u, v) => {
            set_group_opacity(stack, &u, v);
            *layers_dirty = true;
            GroupOutcome::Noted
        },
        GroupOp::MoveGroup(uid, up) => GroupOutcome::Move { uid, up },
        GroupOp::DeleteGroup(u) => GroupOutcome::Store(
            delete_group(stack, text_layers, bands, &u),
        ),
        GroupOp::NewFromSelection => {
            let n: usize = stack.groups.len() + 1;
            let mut name = String::from_str("Группа ");
            append_decimal(&mut name, n);
            let uid = uid_to_string(new_uid);
            let mut new_groups: Vec<GroupMeta> = Vec::new();
            new_groups.push(
                GroupMeta {
                    uid: uid.clone(),
                    name: name.clone(),
                    visible: true,
                    opacity: ONE,
                    collapsed: false,
                },
            );
            assert(meta_views(new_groups@) =~= seq![new_meta(stack@, new_uid)]);
            let target: Option<String> = Some(uid);
            let edit = join_group(stack, text_layers, bands, rows, &uids, &target, new_groups);
            let gid: GroupId = stack.add_group_with_uid(name, new_uid);
            mirror_membership(stack, &ids, Some(gid));
            GroupOutcome::Store(edit)
        },
        GroupOp::MoveTo(u) => {
            let group: Option<GroupId> = match stack.group_position(&u) {
                Some(i) => Some(stack.groups[i].id),
                None => None,
            };
            let target: Option<String> = Some(u);
            let new_groups: Vec<GroupMeta> = Vec::new();
            assert(meta_views(new_groups@) =~= Seq::empty());
            let edit = join_group(stack, text_layers, bands, rows, &uids, &target, new_groups);
            mirror_membership(stack, &ids, group);
            GroupOutcome::Store(edit)
        },
        GroupOp::Ungroup => {
            let target: Option<String> = None;
            let new_groups: Vec<GroupMeta> = Vec::new();
            assert(meta_views(new_groups@) =~= Seq::empty());
            let edit = join_group(stack, text_layers, bands, rows, &uids, &target, new_groups);
            mirror_membership(stack, &ids, None);
            GroupOutcome::Store(edit)
        },
    }
}

proof fn lemma_group_still_there(groups: Seq<GroupView>, uid: Seq<char>, k: int, g: GroupView, i: int)
    requires
        0 <= i,
        0 <= k < groups.len(),
        g.uid == groups[k].uid,
    ensures
        group_from(groups.update(k, g), uid, i) == group_from(groups, uid, i),
    decreases groups.len() - i,
{
    if i < groups.len() {
        lemma_group_still_there(groups, uid, k, g, i + 1);
    }
}

proof fn lemma_group_place(groups: Seq<GroupView>, uid: Seq<char>, i: int)
    requires
        0 <= i,
    ensures
        group_from(groups, uid, i) is Some ==> i <= group_from(groups, uid, i)->0 < groups.len(),
    decreases groups.len() - i,
{
    if i < groups.len() {
        lemma_group_place(groups, uid, i + 1);
    }
}

/// Hiding or folding a group twice leaves the page as it was.
pub proof fn looks_toggled_twice_are_restored(
    s: StackView,
    rows: Seq<RowView>,
    op: GroupOp,
    new_uid: u128,
)
    requires
        op is ToggleCollapse || op is ToggleGroupVisible,
    ensures
        stack_after(stack_after(s, rows, op, new_uid), rows, op, new_uid) == s,
        only_noted(op),
{
    let once = stack_after(s, rows, op, new_uid);
    let uid = match op {
        GroupOp::ToggleCollapse(u) => u@,
        GroupOp::ToggleGroupVisible(u) => u@,
        _ => Seq::empty(),
    };
    lemma_group_place(s.groups, uid, 0);
    match group_from(s.groups, uid, 0) {
        Some(k) => {
            lemma_group_still_there(s.groups, uid, k, once.groups[k], 0);
            assert(once.groups =~= s.groups.update(k, once.groups[k]));
            assert(stack_after(once, rows, op, new_uid).groups =~= s.groups);
        },
        None => {},
    }
}

proof fn lemma_member_listed(ms: Seq<MemberView>, g: Seq<char>, uid: Seq<char>, n: int)
    requires
        0 <= n <= ms.len(),
        group_in(ms, uid, n) == Some(g),
        !later_entry(ms, uid, n),
    ensures
        members_of(ms, g, ms.len() as int).contains(uid),
    decreases n,
{
    if ms[n - 1].uid == uid {
        assert(members_of(ms, g, n).last() == uid);
        assert(members_of(ms, g, n).contains(uid)) by {
            let m = members_of(ms, g, n);
            assert(m[m.len() - 1] == uid);
        }
        lemma_members_grow(ms, g, uid, n, ms.len() as int);
    } else {
        assert(!later_entry(ms, uid, n - 1)) by {
            if later_entry(ms, uid, n - 1) {
                let k = choose|k: int| n - 1 <= k < ms.len() && (#[trigger] ms[k]).uid == uid;
                assert(k >= n);
                assert(later_entry(ms, uid, n));
            }
        }
        lemma_member_listed(ms, g, uid, n - 1);
    }
}

proof fn lemma_members_grow(ms: Seq<MemberView>, g: Seq<char>, uid: Seq<char>, n: int, m: int)
    requires
        0 <= n <= m <= ms.len(),
        members_of(ms, g, n).contains(uid),
    ensures
        members_of(ms, g, m).contains(uid),
    decreases m - n,
{
    if n < m {
        lemma_members_grow(ms, g, uid, n, m - 1);
        let p = members_of(ms, g, m - 1);
        let k = choose|k: int| 0 <= k < p.len() && p[k] == uid;
        assert(members_of(ms, g, m)[k] == uid);
    }
}

proof fn lemma_joined_group(
    ms: Seq<MemberView>,
    uids: Seq<Seq<char>>,
    group: Option<Seq<char>>,
    uid: Seq<char>,
    n: int,
)
    requires
        0 <= n <= uids.len(),
    ensures
        group_in(ms + joined(uids, group), uid, ms.len() + n) == if uids.take(n).contains(uid) {
            group
        } else {
            group_in(ms, uid, ms.len() as int)
        },
    decreases n,
{
    let all = ms + joined(uids, group);
    if n > 0 {
        lemma_joined_group(ms, uids, group, uid, n - 1);
        assert(all[ms.len() + n - 1] == joined(uids, group)[n - 1]);
        assert(uids.take(n) =~= uids.take(n - 1).push(uids[n - 1]));
        if uids[n - 1] == uid {
            assert(uids.take(n)[n - 1] == uid);
        } else {
            let a = uids.take(n);
            let b = uids.take(n - 1);
            if a.contains(uid) {
                let k = choose|k: int| 0 <= k < a.len() && a[k] == uid;
                assert(b[k] == uid);
            }
            if b.contains(uid) {
                let k = choose|k: int| 0 <= k < b.len() && b[k] == uid;
                assert(a[k] == uid);
            }
        }
    } else {
        lemma_prefix_group(ms, joined(uids, group), uid, ms.len() as int);
        assert(!uids.take(0).contains(uid));
    }
}

proof fn lemma_prefix_group(a: Seq<MemberView>, b: Seq<MemberView>, uid: Seq<char>, n: int)
    requires
        0 <= n <= a.len(),
    ensures
        group_in(a + b, uid, n) == group_in(a, uid, n),
    decreases n,
{
    if n > 0 {
        lemma_prefix_group(a, b, uid, n - 1);
        assert((a + b)[n - 1] == a[n - 1]);
    }
}

/// After a group is deleted nothing is in it any more, and what was in another group stays there.
pub proof fn deleting_empties_the_group(ms: Seq<MemberView>, g: Seq<char>, uid: Seq<char>)
    ensures
        ({
            let members = members_of(ms, g, ms.len() as int);
            let after = ms + joined(members, None);
            group_in(after, uid, after.len() as int) == if group_in(ms, uid, ms.len() as int)
                == Some(g) {
                None
            } else {
                group_in(ms, uid, ms.len() as int)
            }
        }),
{
    let members = members_of(ms, g, ms.len() as int);
    lemma_joined_group(ms, members, None, uid, members.len() as int);
    assert(members.take(members.len() as int) =~= members);
    if group_in(ms, uid, ms.len() as int) == Some(g) {
        lemma_member_listed(ms, g, uid, ms.len() as int);
    } else if members.contains(uid) {
        lemma_listed_member(ms, g, uid, ms.len() as int);
    }
}

proof fn lemma_listed_member(ms: Seq<MemberView>, g: Seq<char>, uid: Seq<char>, n: int)
    requires
        0 <= n <= ms.len(),
        members_of(ms, g, n).contains(uid),
    ensures
        group_in(ms, uid, ms.len() as int) == Some(g),
    decreases n,
{
    if n > 0 {
        let m = members_of(ms, g, n);
        let p = members_of(ms, g, n - 1);
        let k = choose|k: int| 0 <= k < m.len() && m[k] == uid;
        if k < p.len() {
            assert(p[k] == uid);
            lemma_listed_member(ms, g, uid, n - 1);
        } else {
            assert(ms[n - 1].uid == uid && !later_entry(ms, uid, n));
            lemma_group_in_stays(ms, uid, n, ms.len() as int);
        }
    }
}

proof fn lemma_group_in_stays(ms: Seq<MemberView>, uid: Seq<char>, n: int, m: int)
    requires
        0 <= n <= m <= ms.len(),
        !later_entry(ms, uid, n),
    ensures
        group_in(ms, uid, m) == group_in(ms, uid, n),
    decreases m - n,
{
    if n < m {
        assert(ms[m - 1].uid != uid) by {
            if ms[m - 1].uid == uid {
                assert(later_entry(ms, uid, n));
            }
        }
        lemma_group_in_stays(ms, uid, n, m - 1);
    }
}

/// What is put into a group is in it afterwards, and the rest stays where it was.
pub proof fn joining_moves_only_the_chosen(
    ms: Seq<MemberView>,
    uids: Seq<Seq<char>>,
    group: Option<Seq<char>>,
    uid: Seq<char>,
)
    ensures
        ({
            let after = ms + joined(uids, group);
            group_in(after, uid, after.len() as int) == if uids.contains(uid) {
                group
            } else {
                group_in(ms, uid, ms.len() as int)
            }
        }),
{
    lemma_joined_group(ms, uids, group, uid, uids.len() as int);
    assert(uids.take(uids.len() as int) =~= uids);
}

} // verus!
