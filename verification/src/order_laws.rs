//! In what order layers and texts lie on a page, and what moving one of them does to the others.

use vstd::prelude::*;
#[allow(unused_imports)]
use crate::band_moves::{
    above_text_group, block_of_group, block_with, blocks_cover_the_order, blocks_of, exchanged,
    groups_of, loose_texts, moved_band, moved_group, node_uids, page_key, pin_toggled, refs_of,
    texts_of_group, without_pin,
};
#[allow(unused_imports)]
use crate::bands::{pinned_z, raster_z, text_group_z, BandView, RefView};
#[allow(unused_imports)]
use crate::ident::uid_text;
#[allow(unused_imports)]
use crate::layers::{group_uid_of, LayerKind, LayerView, StackView};
#[allow(unused_imports)]
use crate::order::sorted_places;
#[allow(unused_imports)]
use crate::text_layers::TextView;
#[allow(unused_imports)]
use crate::unified_order::{
    all_items, group_in, group_items, item_key, item_keys, leader, leader_of, loose_groups, ordered,
    pinned_items, pinned_texts, raster_items, raster_members, text_members, with_index, ItemView,
    MemberView,
};

verus! {

/// The group of an identifier is what its last entry says, and none where it has no entry.
pub proof fn the_last_entry_tells_the_group(ms: Seq<MemberView>, uid: Seq<char>, k: int)
    requires
        0 <= k < ms.len(),
        ms[k].uid == uid,
        forall|j: int| k < j < ms.len() ==> (#[trigger] ms[j]).uid != uid,
    ensures
        group_in(ms, uid, ms.len() as int) == ms[k].group,
        group_in(ms.skip(k + 1), uid, ms.skip(k + 1).len() as int) is None,
{
    lemma_group_in(ms, uid, ms.len() as int, k);
    lemma_no_group_in(ms.skip(k + 1), uid, ms.skip(k + 1).len() as int);
}

proof fn lemma_group_in(ms: Seq<MemberView>, uid: Seq<char>, n: int, k: int)
    requires
        0 <= k < n <= ms.len(),
        ms[k].uid == uid,
        forall|j: int| k < j < n ==> (#[trigger] ms[j]).uid != uid,
    ensures
        group_in(ms, uid, n) == ms[k].group,
    decreases n,
{
    if k < n - 1 {
        lemma_group_in(ms, uid, n - 1, k);
    }
}

proof fn lemma_no_group_in(ms: Seq<MemberView>, uid: Seq<char>, n: int)
    requires
        0 <= n <= ms.len(),
        forall|j: int| 0 <= j < n ==> (#[trigger] ms[j]).uid != uid,
    ensures
        group_in(ms, uid, n) is None,
    decreases n,
{
    if n > 0 {
        lemma_no_group_in(ms, uid, n - 1);
    }
}

/// Every layer of the user is a member of the group it is in, and every text of the one it names.
pub proof fn members_are_where_they_say(s: StackView, ts: Seq<TextView>, n: int, i: int)
    requires
        0 <= n < s.layers.len(),
        0 <= i < ts.len(),
    ensures
        raster_members(s, 0).len() == 0,
        s.layers[n].kind == LayerKind::Raster ==> raster_members(s, n + 1) == raster_members(
            s,
            n,
        ).push(
            MemberView { uid: uid_text(s.layers[n].uid), group: group_uid_of(s, s.layers[n]) },
        ),
        s.layers[n].kind != LayerKind::Raster ==> raster_members(s, n + 1) == raster_members(s, n),
        text_members(ts).len() == ts.len(),
        text_members(ts)[i].uid == ts[i].uid,
        text_members(ts)[i].group == ts[i].group_uid,
{
}

/// The texts that are pinned, in their order.
pub proof fn pinned_texts_are_listed(ts: Seq<TextView>, n: int)
    requires
        0 <= n <= ts.len(),
    ensures
        pinned_texts(ts, n) == ts.take(n).filter(|t: TextView| t.pinned).map_values(
            |t: TextView| t.uid,
        ),
    decreases n,
{
    reveal(Seq::filter);
    if n > 0 {
        pinned_texts_are_listed(ts, n - 1);
        assert(ts.take(n).drop_last() =~= ts.take(n - 1));
        assert(ts.take(n).last() == ts[n - 1]);
        assert(pinned_texts(ts, n) =~= ts.take(n).filter(|t: TextView| t.pinned).map_values(
            |t: TextView| t.uid,
        ));
    } else {
        assert(ts.take(0) =~= Seq::empty());
        assert(pinned_texts(ts, 0) =~= ts.take(0).filter(|t: TextView| t.pinned).map_values(
            |t: TextView| t.uid,
        ));
    }
}

/// What lies in the order of a page: each layer of the user at the height of its band, and each
/// pinned text at the height of its own band, or else of its text layer's, and at its place on the
/// page; both in the group their entry names.
pub proof fn layers_and_pinned_texts_have_items(
    layers: Seq<LayerView>,
    ts: Seq<TextView>,
    bands: Seq<BandView>,
    ms: Seq<MemberView>,
    pinned: Seq<Seq<char>>,
    n: int,
    m: int,
)
    requires
        0 <= n < layers.len(),
        0 <= m < ts.len(),
        bands.len() <= u32::MAX,
    ensures
        ({
            let uid = uid_text(layers[n].uid);
            let z = match raster_z(bands, uid, bands.len() as int) {
                Some(z) => z,
                None => bands.len() as u32,
            };
            let it = ItemView {
                band: RefView::Raster(uid),
                primary: z,
                secondary: 0,
                group: group_in(ms, uid, ms.len() as int),
            };
            &&& raster_items(layers, bands, ms, 0).len() == 0
            &&& raster_items(layers, bands, ms, n + 1) == if layers[n].kind == LayerKind::Raster {
                raster_items(layers, bands, ms, n).push(it)
            } else {
                raster_items(layers, bands, ms, n)
            }
        }),
        ({
            let t = ts[m];
            let z = match pinned_z(bands, t.uid, bands.len() as int) {
                Some(z) => z,
                None => match text_group_z(bands, t.layer_idx, bands.len() as int) {
                    Some(z) => z,
                    None => bands.len() as u32,
                },
            };
            let it = ItemView {
                band: RefView::PinnedText(t.uid),
                primary: z,
                secondary: t.transform.cy,
                group: group_in(ms, t.uid, ms.len() as int),
            };
            &&& pinned_items(ts, bands, ms, pinned, 0).len() == 0
            &&& pinned_items(ts, bands, ms, pinned, m + 1) == if pinned.contains(t.uid) {
                pinned_items(ts, bands, ms, pinned, m).push(it)
            } else {
                pinned_items(ts, bands, ms, pinned, m)
            }
        }),
{
}

/// A number is put into a sorted list once, at its place.
pub proof fn numbers_stay_sorted(v: Seq<u32>, x: u32)
    requires
        forall|i: int, j: int| 0 <= i < j < v.len() ==> v[i] < v[j],
    ensures
        forall|i: int, j: int|
            0 <= i < j < with_index(v, x).len() ==> with_index(v, x)[i] < with_index(v, x)[j],
        forall|y: u32| #[trigger] with_index(v, x).contains(y) <==> v.contains(y) || y == x,
    decreases v.len(),
{
    let out = with_index(v, x);
    if v.len() == 0 {
        assert(out == seq![x]);
        assert(out[0] == x);
        assert forall|y: u32| #[trigger] out.contains(y) implies v.contains(y) || y == x by {}
        assert forall|y: u32| v.contains(y) || y == x implies #[trigger] out.contains(y) by {}
    } else if v.last() < x {
        assert forall|y: u32| #[trigger] out.contains(y) implies v.contains(y) || y == x by {
            let i = choose|i: int| 0 <= i < out.len() && out[i] == y;
            if i < v.len() {
                assert(v[i] == y);
            }
        }
        assert forall|y: u32| v.contains(y) || y == x implies #[trigger] out.contains(y) by {
            if v.contains(y) {
                let i = choose|i: int| 0 <= i < v.len() && v[i] == y;
                assert(out[i] == y);
            } else {
                assert(out[v.len() as int] == y);
            }
        }
    } else if v.last() == x {
        assert(v[v.len() - 1] == x);
    } else {
        let head = v.drop_last();
        assert forall|i: int, j: int| 0 <= i < j < head.len() implies head[i] < head[j] by {
            assert(head[i] == v[i] && head[j] == v[j]);
        }
        numbers_stay_sorted(head, x);
        let mid = with_index(head, x);
        assert(out == mid.push(v.last()));
        assert forall|i: int| 0 <= i < mid.len() implies #[trigger] mid[i] < v.last() by {
            assert(mid.contains(mid[i]));
            if head.contains(mid[i]) {
                let k = choose|k: int| 0 <= k < head.len() && head[k] == mid[i];
                assert(v[k] == mid[i]);
            }
        }
        assert forall|y: u32| #[trigger] out.contains(y) implies v.contains(y) || y == x by {
            let i = choose|i: int| 0 <= i < out.len() && out[i] == y;
            if i < mid.len() {
                assert(mid.contains(y));
                if head.contains(y) {
                    let k = choose|k: int| 0 <= k < head.len() && head[k] == y;
                    assert(v[k] == y);
                }
            } else {
                assert(v[v.len() - 1] == y);
            }
        }
        assert forall|y: u32| v.contains(y) || y == x implies #[trigger] out.contains(y) by {
            if v.contains(y) && y == v.last() {
                assert(out[mid.len() as int] == y);
            } else {
                if v.contains(y) {
                    let k = choose|k: int| 0 <= k < v.len() && v[k] == y;
                    assert(head[k] == y);
                }
                assert(mid.contains(y));
                let k = choose|k: int| 0 <= k < mid.len() && mid[k] == y;
                assert(out[k] == y);
            }
        }
    }
}

/// The text layers that lie in the order are those with a text that is not pinned, each once.
pub proof fn text_layers_lie_where_texts_are(
    ts: Seq<TextView>,
    pinned: Seq<Seq<char>>,
    n: int,
    g: u32,
)
    requires
        0 <= n <= ts.len(),
    ensures
        loose_groups(ts, pinned, n).contains(g) <==> exists|i: int|
            0 <= i < n && (#[trigger] ts[i]).layer_idx == g && !pinned.contains(ts[i].uid),
        forall|i: int, j: int|
            0 <= i < j < loose_groups(ts, pinned, n).len() ==> loose_groups(ts, pinned, n)[i]
                < loose_groups(ts, pinned, n)[j],
    decreases n,
{
    if n > 0 {
        text_layers_lie_where_texts_are(ts, pinned, n - 1, g);
        let t = ts[n - 1];
        let prev = loose_groups(ts, pinned, n - 1);
        if !pinned.contains(t.uid) {
            numbers_stay_sorted(prev, t.layer_idx);
        }
        if loose_groups(ts, pinned, n).contains(g) {
            if prev.contains(g) {
                let i = choose|i: int|
                    0 <= i < n - 1 && (#[trigger] ts[i]).layer_idx == g && !pinned.contains(
                        ts[i].uid,
                    );
                assert(ts[i].layer_idx == g);
            } else {
                assert(ts[n - 1].layer_idx == g);
            }
        }
        if exists|i: int|
            0 <= i < n && (#[trigger] ts[i]).layer_idx == g && !pinned.contains(ts[i].uid) {
            let i = choose|i: int|
                0 <= i < n && (#[trigger] ts[i]).layer_idx == g && !pinned.contains(ts[i].uid);
            if i < n - 1 {
                assert(prev.contains(g));
            }
        }
    }
}

/// A text layer lies at the height of its band, in no group.
pub proof fn text_layers_have_items(groups: Seq<u32>, bands: Seq<BandView>, i: int)
    requires
        0 <= i < groups.len(),
        bands.len() <= u32::MAX,
    ensures
        ({
            let it = group_items(groups, bands)[i];
            &&& group_items(groups, bands).len() == groups.len()
            &&& it.band == RefView::TextGroup(groups[i])
            &&& it.primary == match text_group_z(bands, groups[i], bands.len() as int) {
                Some(z) => z as int,
                None => bands.len() as int,
            }
            &&& it.secondary == 0
            &&& it.group is None
        }),
{
}

/// The order holds the layers of the user, the pinned texts and the text layers.
pub proof fn the_order_holds_all_three(
    s: StackView,
    ts: Seq<TextView>,
    bands: Seq<BandView>,
    ms: Seq<MemberView>,
    pinned: Seq<Seq<char>>,
)
    ensures
        ({
            let r = raster_items(s.layers, bands, ms, s.layers.len() as int);
            let p = pinned_items(ts, bands, ms, pinned, ts.len() as int);
            let g = group_items(loose_groups(ts, pinned, ts.len() as int), bands);
            &&& all_items(s, ts, bands, ms, pinned).len() == r.len() + p.len() + g.len()
            &&& all_items(s, ts, bands, ms, pinned).take(r.len() as int) == r
            &&& all_items(s, ts, bands, ms, pinned).subrange(
                r.len() as int,
                (r.len() + p.len()) as int,
            ) == p
            &&& all_items(s, ts, bands, ms, pinned).skip((r.len() + p.len()) as int) == g
        }),
{
    let r = raster_items(s.layers, bands, ms, s.layers.len() as int);
    let p = pinned_items(ts, bands, ms, pinned, ts.len() as int);
    let g = group_items(loose_groups(ts, pinned, ts.len() as int), bands);
    let a = all_items(s, ts, bands, ms, pinned);
    assert(a.take(r.len() as int) =~= r);
    assert(a.subrange(r.len() as int, (r.len() + p.len()) as int) =~= p);
    assert(a.skip((r.len() + p.len()) as int) =~= g);
}

/// A group lies where its lowest member lies: the first of those that no other member is below.  An
/// item without a group stands for itself.
pub proof fn groups_lie_at_their_lowest_member(items: Seq<ItemView>, i: int)
    requires
        0 <= i < items.len(),
    ensures
        items[i].group is None ==> leader_of(items, i) == i,
        items[i].group is Some ==> {
            let k = leader_of(items, i);
            &&& 0 <= k < items.len()
            &&& items[k].group == items[i].group
            &&& forall|j: int|
                0 <= j < items.len() && (#[trigger] items[j]).group == items[i].group ==> {
                    let rj = crate::float_bits::total_rank(items[j].secondary);
                    let rk = crate::float_bits::total_rank(items[k].secondary);
                    ||| items[k].primary < items[j].primary
                    ||| items[k].primary == items[j].primary && (rk < rj || (rk == rj && k <= j))
                }
        },
        ({
            let k = leader_of(items, i);
            let key = item_key(items, i);
            &&& 0 <= k <= usize::MAX ==> key.place == k
            &&& key.a == items[k].primary
            &&& key.b == crate::float_bits::total_rank(items[k].secondary)
            &&& key.c == items[i].primary
            &&& key.d == crate::float_bits::total_rank(items[i].secondary)
        }),
{
    if items[i].group is Some {
        lemma_leader(items, items[i].group->0, items.len() as int);
    }
}

proof fn lemma_leader(items: Seq<ItemView>, g: Seq<char>, n: int)
    requires
        0 <= n <= items.len(),
    ensures
        match leader(items, g, n) {
            Some(k) => {
                &&& 0 <= k < n
                &&& items[k].group == Some(g)
                &&& forall|j: int|
                    0 <= j < n && (#[trigger] items[j]).group == Some(g) ==> {
                        let rj = crate::float_bits::total_rank(items[j].secondary);
                        let rk = crate::float_bits::total_rank(items[k].secondary);
                        ||| items[k].primary < items[j].primary
                        ||| items[k].primary == items[j].primary && (rk < rj || (rk == rj && k <= j))
                    }
            },
            None => forall|j: int| 0 <= j < n ==> (#[trigger] items[j]).group != Some(g),
        },
    decreases n,
{
    if n > 0 {
        lemma_leader(items, g, n - 1);
    }
}

/// The order names the items as they are sorted by these keys.
pub proof fn the_order_names_the_items(items: Seq<ItemView>, i: int)
    requires
        items.len() <= usize::MAX,
        0 <= i < items.len(),
    ensures
        ({
            let p = sorted_places(item_keys(items), items.len() as int);
            &&& ordered(items).len() == items.len()
            &&& 0 <= p[i] < items.len()
            &&& ordered(items)[i].0 == items[p[i] as int].band
            &&& ordered(items)[i].1 == items[p[i] as int].group
            &&& item_keys(items).len() == items.len()
            &&& item_keys(items)[i] == item_key(items, i)
        }),
{
    crate::order::sorting_is_stable(item_keys(items), items.len() as int);
}

/// In a group, moving exchanges an item with the one above or below it, and goes no farther than
/// the group.
pub proof fn moving_in_a_group_exchanges_neighbours(
    order: Seq<(RefView, Option<Seq<char>>)>,
    pos: int,
    i: int,
)
    requires
        0 <= pos < order.len(),
        order[pos].1 is Some,
        0 <= i < order.len(),
    ensures
        ({
            let up = moved_band(order, pos, true);
            let ok = pos + 1 < order.len() && order[pos + 1].1 == order[pos].1;
            &&& up is Some <==> ok
            &&& ok ==> (up->0).len() == order.len() && (up->0)[i] == if i == pos {
                order[pos + 1]
            } else if i == pos + 1 {
                order[pos]
            } else {
                order[i]
            }
        }),
        ({
            let down = moved_band(order, pos, false);
            let ok = pos > 0 && order[pos - 1].1 == order[pos].1;
            &&& down is Some <==> ok
            &&& ok ==> (down->0).len() == order.len() && (down->0)[i] == if i == pos {
                order[pos - 1]
            } else if i == pos - 1 {
                order[pos]
            } else {
                order[i]
            }
        }),
{
}

/// Whether all from one place to another, both of which count, lie in the same group.
pub open spec fn one_group(
    order: Seq<(RefView, Option<Seq<char>>)>,
    from: int,
    to: int,
) -> bool {
    forall|i: int| from <= i <= to ==> (#[trigger] order[i]).1 == order[from].1
}

/// An item without a group moves past the next item above it, or past the whole of the group that
/// comes next; the others keep their order.
pub proof fn moving_passes_a_whole_group(
    order: Seq<(RefView, Option<Seq<char>>)>,
    pos: int,
    end: int,
)
    requires
        order.len() <= usize::MAX,
        0 <= pos < end < order.len(),
        order[pos].1 is None,
        order[pos + 1].1 is None ==> end == pos + 1,
        order[pos + 1].1 is Some ==> one_group(order, pos + 1, end) && (end + 1 < order.len()
            ==> order[end + 1].1 != order[end].1),
    ensures
        moved_band(order, pos, true) == Some(
            order.subrange(0, pos) + order.subrange(pos + 1, end + 1) + seq![order[pos]]
                + order.subrange(end + 1, order.len() as int),
        ),
{
    let groups = groups_of(order);
    let n = order.len() as int;
    let bs = blocks_of(groups, n);
    let k = lemma_block_at(groups, bs, n, pos);
    lemma_block_with(bs, pos, 0, k);
    lemma_block(groups, bs, n, k);
    assert(groups[pos] == order[pos].1);
    assert(bs[k].0 == pos && bs[k].1 == pos);
    assert(k + 1 < bs.len());
    lemma_block(groups, bs, n, k + 1);
    let b = bs[k + 1];
    assert(b.0 == pos + 1);
    assert(groups[pos + 1] == order[pos + 1].1);
    if order[pos + 1].1 is Some {
        if b.1 < end {
            let j = b.1 + 1;
            assert(order[j].1 == order[pos + 1].1);
            assert(groups[j] == order[j].1);
        }
        if b.1 > end {
            assert(groups[end + 1] == order[end + 1].1);
            assert(groups[end] == order[end].1);
        }
    }
    assert(b.1 == end);
    let out = order.remove(pos).insert(end, order[pos]);
    assert(moved_band(order, pos, true) == Some(out));
    assert(out =~= order.subrange(0, pos) + order.subrange(pos + 1, end + 1) + seq![order[pos]]
        + order.subrange(end + 1, order.len() as int));
}

/// An item without a group moves below the next item under it, or below the whole of the group that
/// comes before it; the others keep their order.
pub proof fn moving_down_passes_a_whole_group(
    order: Seq<(RefView, Option<Seq<char>>)>,
    pos: int,
    start: int,
)
    requires
        order.len() <= usize::MAX,
        0 <= start < pos < order.len(),
        order[pos].1 is None,
        order[pos - 1].1 is None ==> start == pos - 1,
        order[pos - 1].1 is Some ==> one_group(order, start, pos - 1) && (start > 0 ==> order[start
            - 1].1 != order[start].1),
    ensures
        moved_band(order, pos, false) == Some(
            order.subrange(0, start) + seq![order[pos]] + order.subrange(start, pos)
                + order.subrange(pos + 1, order.len() as int),
        ),
{
    let groups = groups_of(order);
    let n = order.len() as int;
    let bs = blocks_of(groups, n);
    let k = lemma_block_at(groups, bs, n, pos);
    lemma_block_with(bs, pos, 0, k);
    lemma_block(groups, bs, n, k);
    assert(groups[pos] == order[pos].1);
    assert(bs[k].0 == pos && bs[k].1 == pos);
    assert(k > 0);
    lemma_block(groups, bs, n, k - 1);
    let b = bs[k - 1];
    assert(b.1 + 1 == pos);
    assert(groups[pos - 1] == order[pos - 1].1);
    assert(groups[start] == order[start].1);
    if order[pos - 1].1 is Some {
        assert(order[pos - 1].1 == order[start].1);
        if b.0 > start {
            let j = b.0 - 1;
            assert(order[j].1 == order[start].1);
            assert(groups[j] == order[j].1);
            assert(k - 1 > 0);
            lemma_block(groups, bs, n, k - 2);
        }
        if b.0 < start {
            assert(groups[start - 1] == order[start - 1].1);
        }
    }
    assert(b.0 == start);
    let out = order.remove(pos).insert(start, order[pos]);
    assert(moved_band(order, pos, false) == Some(out));
    assert(out =~= order.subrange(0, start) + seq![order[pos]] + order.subrange(start, pos)
        + order.subrange(pos + 1, order.len() as int));
}

/// What lies highest cannot be moved up, and what lies lowest not down.
pub proof fn the_ends_do_not_move(order: Seq<(RefView, Option<Seq<char>>)>)
    requires
        0 < order.len() <= usize::MAX,
    ensures
        moved_band(order, order.len() - 1, true) is None,
        moved_band(order, 0, false) is None,
{
    let groups = groups_of(order);
    let n = order.len() as int;
    let bs = blocks_of(groups, n);
    let k = lemma_block_at(groups, bs, n, n - 1);
    lemma_block_with(bs, n - 1, 0, k);
    lemma_block(groups, bs, n, k);
    if k + 1 < bs.len() {
        lemma_block(groups, bs, n, k + 1);
    }
    assert(k == bs.len() - 1);
    let m = lemma_block_at(groups, bs, n, 0);
    lemma_block_with(bs, 0, 0, m);
    assert(m == 0);
}

/// What is known of one block of an order.
proof fn lemma_block(groups: Seq<Option<Seq<char>>>, bs: Seq<(usize, usize)>, n: int, k: int)
    requires
        0 < n <= groups.len(),
        groups.len() <= usize::MAX,
        bs == blocks_of(groups, n),
        0 <= k < bs.len(),
    ensures
        bs[k].0 <= bs[k].1 < n,
        forall|i: int| bs[k].0 <= i <= bs[k].1 ==> #[trigger] groups[i] == groups[bs[k].0 as int],
        bs[k].0 < bs[k].1 ==> groups[bs[k].0 as int] is Some,
        k == 0 ==> bs[k].0 == 0,
        k == bs.len() - 1 ==> bs[k].1 == n - 1,
        k + 1 < bs.len() ==> bs[k].1 + 1 == bs[k + 1].0,
        k + 1 < bs.len() && groups[bs[k].0 as int] is Some ==> groups[bs[k + 1].0 as int]
            != groups[bs[k].0 as int],
{
    blocks_cover_the_order(groups, n);
}

/// The block in which a place lies.
proof fn lemma_block_at(
    groups: Seq<Option<Seq<char>>>,
    bs: Seq<(usize, usize)>,
    n: int,
    pos: int,
) -> (k: int)
    requires
        0 <= pos < n <= groups.len(),
        groups.len() <= usize::MAX,
        bs == blocks_of(groups, n),
    ensures
        0 <= k < bs.len(),
        bs[k].0 <= pos <= bs[k].1,
        forall|j: int| 0 <= j < k ==> (#[trigger] bs[j]).1 < pos,
{
    assert(bs.len() > 0 && bs[0].0 == 0) by {
        blocks_cover_the_order(groups, n);
    }
    lemma_block_search(groups, bs, n, pos, 0)
}

proof fn lemma_block_search(
    groups: Seq<Option<Seq<char>>>,
    bs: Seq<(usize, usize)>,
    n: int,
    pos: int,
    from: int,
) -> (k: int)
    requires
        0 <= pos < n <= groups.len(),
        groups.len() <= usize::MAX,
        bs == blocks_of(groups, n),
        0 <= from < bs.len(),
        bs[from].0 <= pos,
        forall|j: int| 0 <= j < from ==> (#[trigger] bs[j]).1 < pos,
    ensures
        0 <= k < bs.len(),
        bs[k].0 <= pos <= bs[k].1,
        forall|j: int| 0 <= j < k ==> (#[trigger] bs[j]).1 < pos,
    decreases bs.len() - from,
{
    lemma_block(groups, bs, n, from);
    if pos <= bs[from].1 {
        from
    } else {
        assert(from + 1 < bs.len());
        lemma_block_search(groups, bs, n, pos, from + 1)
    }
}

proof fn lemma_block_with(bs: Seq<(usize, usize)>, pos: int, i: int, k: int)
    requires
        0 <= i <= k < bs.len(),
        bs[k].0 <= pos <= bs[k].1,
        forall|j: int| i <= j < k ==> (#[trigger] bs[j]).1 < pos,
    ensures
        block_with(bs, pos, i) == k,
    decreases k - i,
{
    if i < k {
        assert(bs[i].1 < pos);
        lemma_block_with(bs, pos, i + 1, k);
    }
}

/// A group moves past what comes next above or below it, a single item or a whole group, by
/// exchanging places with it; the others stay.
pub proof fn exchanging_moves_two_blocks(
    order: Seq<(RefView, Option<Seq<char>>)>,
    lo: int,
    mid: int,
    hi: int,
    i: int,
)
    requires
        0 <= lo <= mid <= hi <= order.len(),
        0 <= i < order.len(),
    ensures
        exchanged(order, lo, mid, hi).len() == order.len(),
        exchanged(order, lo, mid, hi)[i] == if i < lo || i >= hi {
            order[i]
        } else if i < lo + (hi - mid) {
            order[i + (mid - lo)]
        } else {
            order[i - (hi - mid)]
        },
{
}

/// A group of which nothing is in the order does not move; one that lies in it exchanges places with
/// what comes next.
pub proof fn groups_move_as_a_whole(
    order: Seq<(RefView, Option<Seq<char>>)>,
    uid: Seq<char>,
    start: int,
    mid: int,
    end: int,
)
    requires
        order.len() <= usize::MAX,
        0 <= start < mid <= end < order.len(),
        one_group(order, start, mid - 1),
        order[start].1 == Some(uid),
        forall|i: int| 0 <= i < start ==> (#[trigger] order[i]).1 != Some(uid),
        order[mid].1 != Some(uid),
        order[mid].1 is None ==> end == mid,
        order[mid].1 is Some ==> one_group(order, mid, end) && (end + 1 < order.len() ==> order[end
            + 1].1 != order[end].1),
    ensures
        moved_group(order, uid, true) == Some(exchanged(order, start, mid, end + 1)),
{
    let groups = groups_of(order);
    let n = order.len() as int;
    let bs = blocks_of(groups, n);
    let k = lemma_block_at(groups, bs, n, start);
    lemma_block(groups, bs, n, k);
    assert(groups[start] == order[start].1);
    assert(bs[k].0 == start) by {
        if bs[k].0 < start {
            assert(groups[bs[k].0 as int] == order[bs[k].0 as int].1);
        }
    }
    if bs[k].1 < mid - 1 {
        let j = bs[k].1 + 1;
        assert(order[j].1 == order[start].1);
        assert(groups[j] == order[j].1);
    }
    if bs[k].1 >= mid {
        assert(groups[mid] == order[mid].1);
    }
    assert(bs[k].1 == mid - 1);
    assert forall|j: int| 0 <= j < k implies groups[(#[trigger] bs[j]).0 as int] != Some(uid) by {
        lemma_block(groups, bs, n, j);
        assert(groups[bs[j].0 as int] == order[bs[j].0 as int].1);
    }
    lemma_block_of_group(bs, groups, uid, 0, k);
    assert(k + 1 < bs.len());
    lemma_block(groups, bs, n, k + 1);
    let b = bs[k + 1];
    assert(b.0 == mid);
    assert(groups[mid] == order[mid].1);
    if order[mid].1 is Some {
        if b.1 < end {
            let j = b.1 + 1;
            assert(order[j].1 == order[mid].1);
            assert(groups[j] == order[j].1);
        }
        if b.1 > end {
            assert(groups[end + 1] == order[end + 1].1);
            assert(groups[end] == order[end].1);
        }
    }
    assert(b.1 == end);
}

proof fn lemma_block_of_group(
    bs: Seq<(usize, usize)>,
    groups: Seq<Option<Seq<char>>>,
    uid: Seq<char>,
    i: int,
    k: int,
)
    requires
        0 <= i <= k < bs.len(),
        groups[bs[k].0 as int] == Some(uid),
        forall|j: int| i <= j < k ==> groups[(#[trigger] bs[j]).0 as int] != Some(uid),
    ensures
        block_of_group(bs, groups, uid, i) == k,
    decreases k - i,
{
    if i < k {
        assert(groups[bs[i].0 as int] != Some(uid));
        lemma_block_of_group(bs, groups, uid, i + 1, k);
    }
}

/// Moving a group down past the block below it is exchanging the two as well.
pub proof fn groups_move_down_as_a_whole(
    order: Seq<(RefView, Option<Seq<char>>)>,
    uid: Seq<char>,
    start: int,
    mid: int,
    end: int,
)
    requires
        order.len() <= usize::MAX,
        0 <= start < mid <= end < order.len(),
        one_group(order, mid, end),
        order[mid].1 == Some(uid),
        forall|i: int| 0 <= i < mid ==> (#[trigger] order[i]).1 != Some(uid),
        end + 1 < order.len() ==> order[end + 1].1 != Some(uid),
        order[mid - 1].1 is None ==> start == mid - 1,
        order[mid - 1].1 is Some ==> one_group(order, start, mid - 1) && (start > 0 ==> order[start
            - 1].1 != order[start].1),
    ensures
        moved_group(order, uid, false) == Some(exchanged(order, start, mid, end + 1)),
{
    let groups = groups_of(order);
    let n = order.len() as int;
    let bs = blocks_of(groups, n);
    let k = lemma_block_at(groups, bs, n, mid);
    lemma_block(groups, bs, n, k);
    assert(groups[mid] == order[mid].1);
    assert(bs[k].0 == mid) by {
        if bs[k].0 < mid {
            assert(groups[bs[k].0 as int] == order[bs[k].0 as int].1);
        }
    }
    if bs[k].1 < end {
        let j = bs[k].1 + 1;
        assert(order[j].1 == order[mid].1);
        assert(groups[j] == order[j].1);
    }
    if bs[k].1 > end {
        assert(groups[end + 1] == order[end + 1].1);
    }
    assert(bs[k].1 == end);
    assert forall|j: int| 0 <= j < k implies groups[(#[trigger] bs[j]).0 as int] != Some(uid) by {
        lemma_block(groups, bs, n, j);
        assert(groups[bs[j].0 as int] == order[bs[j].0 as int].1);
    }
    lemma_block_of_group(bs, groups, uid, 0, k);
    assert(k > 0);
    lemma_block(groups, bs, n, k - 1);
    let b = bs[k - 1];
    assert(b.1 + 1 == mid);
    assert(groups[mid - 1] == order[mid - 1].1);
    assert(groups[start] == order[start].1);
    if order[mid - 1].1 is Some {
        assert(order[mid - 1].1 == order[start].1);
        if b.0 > start {
            let j = b.0 - 1;
            assert(order[j].1 == order[start].1);
            assert(groups[j] == order[j].1);
            assert(k - 1 > 0);
            lemma_block(groups, bs, n, k - 2);
        }
        if b.0 < start {
            assert(groups[start - 1] == order[start - 1].1);
        }
    }
    assert(b.0 == start);
}

/// Pinning a text puts it right above the text layer it came from, or on top where that is not
/// there; unpinning takes out its entry.  The others keep their order.
pub proof fn pinning_puts_a_text_above_its_layer(bands: Seq<BandView>, t: TextView, k: int)
    requires
        0 <= k < bands.len(),
        bands[k] is TextGroup,
        bands[k]->TextGroup_layer_idx == t.layer_idx,
        forall|j: int|
            0 <= j < k ==> !((#[trigger] bands[j]) is TextGroup && bands[j]->TextGroup_layer_idx
                == t.layer_idx),
    ensures
        t.pinned ==> pin_toggled(bands, t) == refs_of(bands).filter(
            |r: RefView| r != RefView::PinnedText(t.uid),
        ),
        !t.pinned ==> pin_toggled(bands, t) == refs_of(bands).subrange(0, k + 1) + seq![
            RefView::PinnedText(t.uid),
        ] + refs_of(bands).subrange(k + 1, bands.len() as int),
        !t.pinned ==> pin_toggled(bands.take(k), t) == refs_of(bands.take(k)) + seq![
            RefView::PinnedText(t.uid),
        ],
{
    lemma_without_pin(refs_of(bands), t.uid);
    lemma_above(bands, t.layer_idx, 0, k);
    lemma_no_text_group(bands.take(k), t.layer_idx, 0);
    if !t.pinned {
        assert(pin_toggled(bands, t) =~= refs_of(bands).subrange(0, k + 1) + seq![
            RefView::PinnedText(t.uid),
        ] + refs_of(bands).subrange(k + 1, bands.len() as int));
        assert(pin_toggled(bands.take(k), t) =~= refs_of(bands.take(k)) + seq![
            RefView::PinnedText(t.uid),
        ]);
    }
}

proof fn lemma_without_pin(refs: Seq<RefView>, uid: Seq<char>)
    ensures
        without_pin(refs, uid) == refs.filter(|r: RefView| r != RefView::PinnedText(uid)),
    decreases refs.len(),
{
    reveal(Seq::filter);
    if refs.len() > 0 {
        lemma_without_pin(refs.drop_last(), uid);
    }
}

proof fn lemma_above(bands: Seq<BandView>, layer_idx: u32, i: int, k: int)
    requires
        0 <= i <= k < bands.len(),
        bands[k] is TextGroup,
        bands[k]->TextGroup_layer_idx == layer_idx,
        forall|j: int|
            i <= j < k ==> !((#[trigger] bands[j]) is TextGroup && bands[j]->TextGroup_layer_idx
                == layer_idx),
    ensures
        above_text_group(bands, layer_idx, i) == k + 1,
    decreases k - i,
{
    if i < k {
        let b = bands[i];
        lemma_above(bands, layer_idx, i + 1, k);
    }
}

proof fn lemma_no_text_group(bands: Seq<BandView>, layer_idx: u32, i: int)
    requires
        0 <= i <= bands.len(),
        forall|j: int|
            i <= j < bands.len() ==> !((#[trigger] bands[j]) is TextGroup
                && bands[j]->TextGroup_layer_idx == layer_idx),
    ensures
        above_text_group(bands, layer_idx, i) == bands.len(),
    decreases bands.len() - i,
{
    if i < bands.len() {
        let b = bands[i];
        lemma_no_text_group(bands, layer_idx, i + 1);
    }
}

/// The texts of a text layer that are not pinned, by their place on the page, from the top; those at
/// one place in their order.
pub proof fn texts_of_a_layer_go_down_the_page(ts: Seq<TextView>, layer_idx: u32, i: int, j: int)
    requires
        ts.len() <= usize::MAX,
        0 <= i < j < texts_of_group(ts, layer_idx).len(),
    ensures
        ({
            let places = loose_texts(ts, layer_idx, ts.len() as int);
            let keys = places.map_values(|p: usize| page_key(ts[p as int]));
            let order = sorted_places(keys, places.len() as int);
            let a = places[order[i] as int] as int;
            let b = places[order[j] as int] as int;
            let ra = crate::float_bits::number_rank(ts[a].transform.cy);
            let rb = crate::float_bits::number_rank(ts[b].transform.cy);
            &&& texts_of_group(ts, layer_idx)[i] == ts[a].uid
            &&& texts_of_group(ts, layer_idx)[j] == ts[b].uid
            &&& ts[a].layer_idx == layer_idx && !ts[a].pinned
            &&& ts[b].layer_idx == layer_idx && !ts[b].pinned
            &&& ra < rb || (ra == rb && a < b)
        }),
{
    let n = ts.len() as int;
    let places = loose_texts(ts, layer_idx, n);
    let keys = places.map_values(|p: usize| page_key(ts[p as int]));
    lemma_loose(ts, layer_idx, n);
    crate::order::sorting_is_stable(keys, places.len() as int);
    let order = sorted_places(keys, places.len() as int);
    assert(crate::order::comes_first(keys, order[i] as int, order[j] as int));
    let oi = order[i] as int;
    let oj = order[j] as int;
    assert(0 <= oi < places.len() && 0 <= oj < places.len());
    assert(keys[oi] == page_key(ts[places[oi] as int]));
    assert(keys[oj] == page_key(ts[places[oj] as int]));
    if oi < oj {
        assert(places[oi] < places[oj]);
    }
}

proof fn lemma_loose(ts: Seq<TextView>, layer_idx: u32, n: int)
    requires
        0 <= n <= ts.len(),
        ts.len() <= usize::MAX,
    ensures
        loose_texts(ts, layer_idx, n).len() <= n,
        forall|k: int|
            0 <= k < loose_texts(ts, layer_idx, n).len() ==> {
                let p = #[trigger] loose_texts(ts, layer_idx, n)[k];
                p < n && ts[p as int].layer_idx == layer_idx && !ts[p as int].pinned
            },
        forall|k: int, l: int|
            0 <= k < l < loose_texts(ts, layer_idx, n).len() ==> #[trigger] loose_texts(
                ts,
                layer_idx,
                n,
            )[k] < #[trigger] loose_texts(ts, layer_idx, n)[l],
        forall|i: int|
            0 <= i < n && (#[trigger] ts[i]).layer_idx == layer_idx && !ts[i].pinned
                ==> loose_texts(ts, layer_idx, n).contains(i as usize),
    decreases n,
{
    if n > 0 {
        lemma_loose(ts, layer_idx, n - 1);
        let prev = loose_texts(ts, layer_idx, n - 1);
        let now = loose_texts(ts, layer_idx, n);
        assert forall|i: int|
            0 <= i < n && (#[trigger] ts[i]).layer_idx == layer_idx
                && !ts[i].pinned implies now.contains(i as usize) by {
            if i == n - 1 {
                assert(now[now.len() - 1] == i as usize);
            } else {
                assert(prev.contains(i as usize));
                let k = choose|k: int| 0 <= k < prev.len() && prev[k] == i as usize;
                assert(now[k] == i as usize);
            }
        }
    }
}

/// Every text of a text layer that is not pinned is named.
pub proof fn texts_of_a_layer_are_all_named(ts: Seq<TextView>, layer_idx: u32, i: int)
    requires
        ts.len() <= usize::MAX,
        0 <= i < ts.len(),
        ts[i].layer_idx == layer_idx,
        !ts[i].pinned,
    ensures
        loose_texts(ts, layer_idx, ts.len() as int).contains(i as usize),
        texts_of_group(ts, layer_idx).len() == loose_texts(ts, layer_idx, ts.len() as int).len(),
{
    lemma_loose(ts, layer_idx, ts.len() as int);
    let places = loose_texts(ts, layer_idx, ts.len() as int);
    let keys = places.map_values(|p: usize| page_key(ts[p as int]));
    crate::order::sorting_is_stable(keys, places.len() as int);
}

/// The nodes of an order are its layers and pinned texts, and in the place of a text layer its
/// texts.
pub proof fn orders_name_their_nodes(order: Seq<RefView>, ts: Seq<TextView>, n: int, uid: Seq<char>, g: u32)
    requires
        0 <= n < order.len(),
    ensures
        node_uids(order, ts, 0).len() == 0,
        order[n] == RefView::Raster(uid) ==> node_uids(order, ts, n + 1) == node_uids(
            order,
            ts,
            n,
        ).push(uid),
        order[n] == RefView::PinnedText(uid) ==> node_uids(order, ts, n + 1) == node_uids(
            order,
            ts,
            n,
        ).push(uid),
        order[n] == RefView::TextGroup(g) ==> node_uids(order, ts, n + 1) == node_uids(order, ts, n)
            + texts_of_group(ts, g),
{
}

} // verus!
