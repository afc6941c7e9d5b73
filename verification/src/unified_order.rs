//! The common order of rasters and texts: groups stay together, and bands and groups move in it.

use vstd::prelude::*;
use crate::bands::{find_pinned_z, find_raster_z, find_text_group_z, Band, BandRef};
#[allow(unused_imports)]
use crate::bands::{band_views, or_top, pinned_z, raster_z, text_group_z, BandView, RefView};
use crate::float_bits::{rank_of, ZERO};
#[allow(unused_imports)]
use crate::float_bits::total_rank;
use crate::ident::{copy_opt_text, holds_text, uid_to_string};
#[allow(unused_imports)]
use crate::ident::{opt_text, texts, uid_text};
use crate::layers::LayerStack;
#[allow(unused_imports)]
use crate::layers::{group_uid_of, LayerView, StackView};
use crate::order::{stable_order, SortKey};
#[allow(unused_imports)]
use crate::order::{comes_first, sorted_places, sorting_is_stable};
use crate::text_layers::PsTextLayer;
#[allow(unused_imports)]
use crate::text_layers::{text_views, TextView};

verus! {

/// The group that a raster or a text is in.
pub struct Member {
    pub uid: String,
    pub group: Option<String>,
}

#[verifier::ext_equal]
pub struct MemberView {
    pub uid: Seq<char>,
    pub group: Option<Seq<char>>,
}

impl View for Member {
    type V = MemberView;

    open spec fn view(&self) -> MemberView {
        MemberView { uid: self.uid@, group: opt_text(self.group) }
    }
}

pub open spec fn member_views(v: Seq<Member>) -> Seq<MemberView> {
    v.map_values(|m: Member| m@)
}

/// The group that the last of the first `n` entries gives.
pub open spec fn group_in(ms: Seq<MemberView>, uid: Seq<char>, n: int) -> Option<Seq<char>>
    decreases n,
{
    if n <= 0 {
        None
    } else if ms[n - 1].uid == uid {
        ms[n - 1].group
    } else {
        group_in(ms, uid, n - 1)
    }
}

pub fn group_of_member(ms: &Vec<Member>, uid: &String) -> (r: Option<String>)
    ensures
        opt_text(r) == group_in(member_views(ms@), uid@, ms@.len() as int),
{
    let ghost mv = member_views(ms@);
    let mut n: usize = ms.len();
    while n > 0
        invariant
            n <= ms@.len(),
            mv == member_views(ms@),
            group_in(mv, uid@, ms@.len() as int) == group_in(mv, uid@, n as int),
        decreases n,
    {
        assert(mv[n - 1] == ms@[n - 1]@);
        if ms[n - 1].uid == *uid {
            return copy_opt_text(&ms[n - 1].group);
        }
        n -= 1;
    }
    None
}

/// The groups of the first `n` layers of a stack that are layers of the user.
pub open spec fn raster_members(s: StackView, n: int) -> Seq<MemberView>
    decreases n,
{
    if n <= 0 {
        Seq::empty()
    } else {
        let l = s.layers[n - 1];
        let prev = raster_members(s, n - 1);
        if l.kind.base() {
            prev
        } else {
            prev.push(MemberView { uid: uid_text(l.uid), group: group_uid_of(s, l) })
        }
    }
}

/// The groups of texts.
pub open spec fn text_members(ts: Seq<TextView>) -> Seq<MemberView> {
    ts.map_values(|t: TextView| MemberView { uid: t.uid, group: t.group_uid })
}

/// The texts among the first `n` that have a place of their own.
pub open spec fn pinned_texts(ts: Seq<TextView>, n: int) -> Seq<Seq<char>>
    decreases n,
{
    if n <= 0 {
        Seq::empty()
    } else if ts[n - 1].pinned {
        pinned_texts(ts, n - 1).push(ts[n - 1].uid)
    } else {
        pinned_texts(ts, n - 1)
    }
}

/// The groups of all rasters and texts, and the texts with a place of their own.
pub fn current_membership(stack: &LayerStack, text_layers: &Vec<PsTextLayer>) -> (r: (
    Vec<Member>,
    Vec<String>,
))
    ensures
        member_views(r.0@) == raster_members(stack@, stack@.layers.len() as int) + text_members(
            text_views(text_layers@),
        ),
        texts(r.1@) == pinned_texts(text_views(text_layers@), text_layers@.len() as int),
{
    let ghost s = stack@;
    let ghost ts = text_views(text_layers@);
    let mut members: Vec<Member> = Vec::new();
    let mut i: usize = 0;
    while i < stack.layers.len()
        invariant
            i <= stack.layers@.len(),
            s == stack@,
            member_views(members@) == raster_members(s, i as int),
        decreases stack.layers@.len() - i,
    {
        let ghost before = members@;
        assert(s.layers[i as int] == stack.layers@[i as int]@);
        if !stack.layers[i].kind.is_base() {
            let m = Member {
                uid: uid_to_string(stack.layers[i].uid),
                group: stack.layer_group_uid(i),
            };
            let ghost mv = m@;
            members.push(m);
            assert(member_views(members@) =~= member_views(before).push(mv));
        }
        i += 1;
    }
    let ghost rasters = member_views(members@);
    let mut pinned: Vec<String> = Vec::new();
    let mut k: usize = 0;
    assert(text_members(ts).take(0) =~= Seq::empty());
    assert(member_views(members@) =~= rasters + text_members(ts).take(0));
    while k < text_layers.len()
        invariant
            k <= text_layers@.len(),
            ts == text_views(text_layers@),
            member_views(members@) == rasters + text_members(ts).take(k as int),
            texts(pinned@) == pinned_texts(ts, k as int),
        decreases text_layers@.len() - k,
    {
        let t = &text_layers[k];
        let ghost before = members@;
        let ghost p0 = pinned@;
        assert(ts[k as int] == t@);
        let m = Member { uid: t.uid.clone(), group: copy_opt_text(&t.group_uid) };
        let ghost mv = m@;
        members.push(m);
        assert(member_views(members@) =~= member_views(before).push(mv));
        assert(text_members(ts).take(k + 1) =~= text_members(ts).take(k as int).push(mv));
        assert(member_views(members@) =~= rasters + text_members(ts).take(k + 1));
        if t.pinned {
            pinned.push(t.uid.clone());
            assert(texts(pinned@) =~= texts(p0).push(t@.uid));
        }
        k += 1;
    }
    assert(text_members(ts).take(ts.len() as int) =~= text_members(ts));
    (members, pinned)
}

/// Something with a place, and the keys that give it the place.
pub struct BandItem {
    pub band: BandRef,
    /// The height.
    pub primary: u32,
    /// What decides at equal height, as a bit pattern.
    pub secondary: u32,
    pub group: Option<String>,
}

#[verifier::ext_equal]
pub struct ItemView {
    pub band: RefView,
    pub primary: u32,
    pub secondary: u32,
    pub group: Option<Seq<char>>,
}

impl View for BandItem {
    type V = ItemView;

    open spec fn view(&self) -> ItemView {
        ItemView {
            band: self.band@,
            primary: self.primary,
            secondary: self.secondary,
            group: opt_text(self.group),
        }
    }
}

pub open spec fn item_views(v: Seq<BandItem>) -> Seq<ItemView> {
    v.map_values(|i: BandItem| i@)
}

/// The items of the rasters among the first `n` layers.
pub open spec fn raster_items(
    layers: Seq<LayerView>,
    bands: Seq<BandView>,
    ms: Seq<MemberView>,
    n: int,
) -> Seq<ItemView>
    decreases n,
{
    if n <= 0 {
        Seq::empty()
    } else {
        let prev = raster_items(layers, bands, ms, n - 1);
        if layers[n - 1].kind.base() {
            prev
        } else {
            let uid = uid_text(layers[n - 1].uid);
            prev.push(
                ItemView {
                    band: RefView::Raster(uid),
                    primary: or_top(raster_z(bands, uid, bands.len() as int), bands),
                    secondary: ZERO,
                    group: group_in(ms, uid, ms.len() as int),
                },
            )
        }
    }
}

/// The height of a text with a place of its own; until it has one, that of its group of texts.
pub open spec fn own_or_group_z(bands: Seq<BandView>, t: TextView) -> u32 {
    match pinned_z(bands, t.uid, bands.len() as int) {
        Some(z) => z,
        None => or_top(text_group_z(bands, t.layer_idx, bands.len() as int), bands),
    }
}

/// The items of the texts among the first `n` that have a place of their own.
pub open spec fn pinned_items(
    ts: Seq<TextView>,
    bands: Seq<BandView>,
    ms: Seq<MemberView>,
    pinned: Seq<Seq<char>>,
    n: int,
) -> Seq<ItemView>
    decreases n,
{
    if n <= 0 {
        Seq::empty()
    } else {
        let t = ts[n - 1];
        let prev = pinned_items(ts, bands, ms, pinned, n - 1);
        if pinned.contains(t.uid) {
            prev.push(
                ItemView {
                    band: RefView::PinnedText(t.uid),
                    primary: own_or_group_z(bands, t),
                    secondary: t.transform.cy,
                    group: group_in(ms, t.uid, ms.len() as int),
                },
            )
        } else {
            prev
        }
    }
}

/// A number put into an ascending list unless it is there.
pub open spec fn with_index(v: Seq<u32>, x: u32) -> Seq<u32>
    decreases v.len(),
{
    if v.len() == 0 {
        seq![x]
    } else if v.last() < x {
        v.push(x)
    } else if v.last() == x {
        v
    } else {
        with_index(v.drop_last(), x).push(v.last())
    }
}

/// The groups of the texts among the first `n` without a place of their own, ascending.
pub open spec fn loose_groups(ts: Seq<TextView>, pinned: Seq<Seq<char>>, n: int) -> Seq<u32>
    decreases n,
{
    if n <= 0 {
        Seq::empty()
    } else if pinned.contains(ts[n - 1].uid) {
        loose_groups(ts, pinned, n - 1)
    } else {
        with_index(loose_groups(ts, pinned, n - 1), ts[n - 1].layer_idx)
    }
}

/// The items of groups of texts.
pub open spec fn group_items(groups: Seq<u32>, bands: Seq<BandView>) -> Seq<ItemView> {
    groups.map_values(
        |g: u32|
            ItemView {
                band: RefView::TextGroup(g),
                primary: or_top(text_group_z(bands, g, bands.len() as int), bands),
                secondary: ZERO,
                group: None,
            },
    )
}

/// Everything that has a place.
pub open spec fn all_items(
    s: StackView,
    ts: Seq<TextView>,
    bands: Seq<BandView>,
    ms: Seq<MemberView>,
    pinned: Seq<Seq<char>>,
) -> Seq<ItemView> {
    raster_items(s.layers, bands, ms, s.layers.len() as int) + pinned_items(
        ts,
        bands,
        ms,
        pinned,
        ts.len() as int,
    ) + group_items(loose_groups(ts, pinned, ts.len() as int), bands)
}

/// The key of an item by itself.
pub open spec fn own_key(it: ItemView) -> (int, int) {
    (it.primary as int, total_rank(it.secondary))
}

/// The first key comes before the second.
pub open spec fn key_less(a: (int, int), b: (int, int)) -> bool {
    a.0 < b.0 || (a.0 == b.0 && a.1 < b.1)
}

/// The lowest member of a group among the first `n` items; the first of several.
pub open spec fn leader(items: Seq<ItemView>, g: Seq<char>, n: int) -> Option<int>
    decreases n,
{
    if n <= 0 {
        None
    } else {
        let prev = leader(items, g, n - 1);
        let it = items[n - 1];
        if it.group == Some(g) && (prev is None || key_less(own_key(it), own_key(items[prev->0]))) {
            Some(n - 1)
        } else {
            prev
        }
    }
}

/// The item that gives an item its place: the lowest member of its group, or the item itself.
pub open spec fn leader_of(items: Seq<ItemView>, i: int) -> int {
    match items[i].group {
        Some(g) => match leader(items, g, items.len() as int) {
            Some(k) => k,
            None => i,
        },
        None => i,
    }
}

/// The key by which an item is sorted: first that of the item that gives it its place, which at
/// equal keys is told by where it was found, then its own.
pub open spec fn item_key(items: Seq<ItemView>, i: int) -> SortKey {
    let own = own_key(items[i]);
    let k = leader_of(items, i);
    let lead = own_key(items[k]);
    SortKey {
        a: lead.0 as i64,
        b: lead.1 as i64,
        place: k as usize,
        c: own.0 as i64,
        d: own.1 as i64,
    }
}

pub open spec fn item_keys(items: Seq<ItemView>) -> Seq<SortKey> {
    Seq::new(items.len(), |i: int| item_key(items, i))
}

/// The items in their common order, each with its group.
pub open spec fn ordered(items: Seq<ItemView>) -> Seq<(RefView, Option<Seq<char>>)> {
    sorted_places(item_keys(items), items.len() as int).map_values(
        |i: usize| (items[i as int].band, items[i as int].group),
    )
}

pub open spec fn order_views(v: Seq<(BandRef, Option<String>)>) -> Seq<
    (RefView, Option<Seq<char>>),
> {
    v.map_values(|p: (BandRef, Option<String>)| (p.0@, opt_text(p.1)))
}

fn put_index(v: &mut Vec<u32>, x: u32)
    ensures
        final(v)@ == with_index(old(v)@, x),
    decreases old(v)@.len(),
{
    let n: usize = v.len();
    if n == 0 {
        v.push(x);
        assert(v@ =~= seq![x]);
    } else {
        let last: u32 = v[n - 1];
        if last < x {
            v.push(x);
        } else if last > x {
            let ghost before = v@;
            v.pop();
            assert(v@ =~= before.drop_last());
            put_index(v, x);
            v.push(last);
        }
    }
}

fn collect_items(
    stack: &LayerStack,
    text_layers: &Vec<PsTextLayer>,
    bands: &Vec<Band>,
    members: &Vec<Member>,
    pinned: &Vec<String>,
) -> (items: Vec<BandItem>)
    requires
        bands@.len() <= u32::MAX,
    ensures
        item_views(items@) == all_items(
            stack@,
            text_views(text_layers@),
            band_views(bands@),
            member_views(members@),
            texts(pinned@),
        ),
{
    let ghost ls = stack@.layers;
    let ghost ts = text_views(text_layers@);
    let ghost bv = band_views(bands@);
    let ghost ms = member_views(members@);
    let ghost ps = texts(pinned@);
    let top: u32 = bands.len() as u32;
    let mut items: Vec<BandItem> = Vec::new();
    let mut i: usize = 0;
    while i < stack.layers.len()
        invariant
            i <= stack.layers@.len(),
            ls == stack@.layers,
            bv == band_views(bands@),
            ms == member_views(members@),
            top == bv.len(),
            item_views(items@) == raster_items(ls, bv, ms, i as int),
        decreases stack.layers@.len() - i,
    {
        let ghost before = items@;
        assert(ls[i as int] == stack.layers@[i as int]@);
        if !stack.layers[i].kind.is_base() {
            let uid = uid_to_string(stack.layers[i].uid);
            let primary: u32 = match find_raster_z(bands, &uid) {
                Some(z) => z,
                None => top,
            };
            let group = group_of_member(members, &uid);
            let it = BandItem { band: BandRef::Raster(uid), primary, secondary: ZERO, group };
            let ghost iv = it@;
            items.push(it);
            assert(item_views(items@) =~= item_views(before).push(iv));
        }
        i += 1;
    }
    let ghost first = item_views(items@);
    let mut loose: Vec<u32> = Vec::new();
    let mut k: usize = 0;
    assert(first + pinned_items(ts, bv, ms, ps, 0) =~= first);
    while k < text_layers.len()
        invariant
            k <= text_layers@.len(),
            ts == text_views(text_layers@),
            bv == band_views(bands@),
            ms == member_views(members@),
            ps == texts(pinned@),
            top == bv.len(),
            item_views(items@) == first + pinned_items(ts, bv, ms, ps, k as int),
            loose@ == loose_groups(ts, ps, k as int),
        decreases text_layers@.len() - k,
    {
        let t = &text_layers[k];
        let ghost before = items@;
        assert(ts[k as int] == t@);
        if holds_text(pinned, &t.uid) {
            let primary: u32 = match find_pinned_z(bands, &t.uid) {
                Some(z) => z,
                None => match find_text_group_z(bands, t.layer_idx) {
                    Some(z) => z,
                    None => top,
                },
            };
            let it = BandItem {
                band: BandRef::PinnedText(t.uid.clone()),
                primary,
                secondary: t.transform.cy,
                group: group_of_member(members, &t.uid),
            };
            let ghost iv = it@;
            items.push(it);
            assert(item_views(items@) =~= item_views(before).push(iv));
            assert(item_views(items@) =~= first + pinned_items(ts, bv, ms, ps, k + 1));
        } else {
            put_index(&mut loose, t.layer_idx);
        }
        k += 1;
    }
    let ghost second = item_views(items@);
    let ghost gs = group_items(loose@, bv);
    let mut n: usize = 0;
    assert(gs.take(0) =~= Seq::empty());
    assert(second + gs.take(0) =~= second);
    while n < loose.len()
        invariant
            n <= loose@.len(),
            bv == band_views(bands@),
            top == bv.len(),
            gs == group_items(loose@, bv),
            item_views(items@) == second + gs.take(n as int),
        decreases loose@.len() - n,
    {
        let ghost before = items@;
        let primary: u32 = match find_text_group_z(bands, loose[n]) {
            Some(z) => z,
            None => top,
        };
        let it = BandItem {
            band: BandRef::TextGroup(loose[n]),
            primary,
            secondary: ZERO,
            group: None,
        };
        let ghost iv = it@;
        items.push(it);
        assert(item_views(items@) =~= item_views(before).push(iv));
        assert(gs[n as int] == iv);
        assert(gs.take(n + 1) =~= gs.take(n as int).push(iv));
        assert(item_views(items@) =~= second + gs.take(n + 1));
        n += 1;
    }
    assert(gs.take(gs.len() as int) =~= gs);
    items
}

/// Whether one key comes before another.
pub fn key_lt(a: (u32, u32), b: (u32, u32)) -> (r: bool)
    ensures
        r == key_less((a.0 as int, total_rank(a.1)), (b.0 as int, total_rank(b.1))),
{
    a.0 < b.0 || (a.0 == b.0 && rank_of(a.1) < rank_of(b.1))
}

fn find_leader(items: &Vec<BandItem>, g: &String) -> (r: Option<usize>)
    ensures
        match r {
            Some(k) => k < items@.len() && leader(item_views(items@), g@, items@.len() as int)
                == Some(k as int),
            None => leader(item_views(items@), g@, items@.len() as int) is None,
        },
{
    let ghost iv = item_views(items@);
    let mut best: Option<usize> = None;
    let mut n: usize = 0;
    while n < items.len()
        invariant
            n <= items@.len(),
            iv == item_views(items@),
            match best {
                Some(k) => k < n && leader(iv, g@, n as int) == Some(k as int),
                None => leader(iv, g@, n as int) is None,
            },
        decreases items@.len() - n,
    {
        assert(iv[n as int] == items@[n as int]@);
        let mine = match &items[n].group {
            Some(x) => *x == *g,
            None => false,
        };
        if mine {
            let better = match best {
                Some(k) => {
                    assert(iv[k as int] == items@[k as int]@);
                    key_lt(
                        (items[n].primary, items[n].secondary),
                        (items[k].primary, items[k].secondary),
                    )
                },
                None => true,
            };
            if better {
                best = Some(n);
            }
        }
        n += 1;
    }
    best
}

/// Puts everything that has a place into the common order, from the bottom to the top: the members
/// of a group stand together where its lowest member does, and otherwise the heights decide.
pub fn build_unified_order(
    stack: &LayerStack,
    text_layers: &Vec<PsTextLayer>,
    bands: &Vec<Band>,
    group_of: &Vec<Member>,
    pinned: &Vec<String>,
) -> (out: Vec<(BandRef, Option<String>)>)
    requires
        bands@.len() <= u32::MAX,
    ensures
        order_views(out@) == ordered(
            all_items(
                stack@,
                text_views(text_layers@),
                band_views(bands@),
                member_views(group_of@),
                texts(pinned@),
            ),
        ),
{
    let items = collect_items(stack, text_layers, bands, group_of, pinned);
    let ghost iv = item_views(items@);
    let mut keys: Vec<SortKey> = Vec::new();
    let mut i: usize = 0;
    while i < items.len()
        invariant
            i <= items@.len(),
            iv == item_views(items@),
            keys@ == item_keys(iv).take(i as int),
        decreases items@.len() - i,
    {
        let it = &items[i];
        assert(iv[i as int] == it@);
        let place: usize = match &it.group {
            Some(g) => match find_leader(&items, g) {
                Some(k) => k,
                None => i,
            },
            None => i,
        };
        let lead = &items[place];
        assert(iv[place as int] == lead@);
        let key = SortKey {
            a: lead.primary as i64,
            b: rank_of(lead.secondary),
            place,
            c: it.primary as i64,
            d: rank_of(it.secondary),
        };
        assert(key == item_key(iv, i as int));
        keys.push(key);
        i += 1;
        assert(keys@ =~= item_keys(iv).take(i as int));
    }
    assert(keys@ =~= item_keys(iv));
    let places = stable_order(&keys);
    let mut out: Vec<(BandRef, Option<String>)> = Vec::new();
    let mut k: usize = 0;
    let ghost target = ordered(iv);
    while k < places.len()
        invariant
            k <= places@.len(),
            iv == item_views(items@),
            places@.len() == items@.len(),
            forall|j: int| 0 <= j < places@.len() ==> #[trigger] places@[j] < items@.len(),
            places@ == sorted_places(item_keys(iv), iv.len() as int),
            target == ordered(iv),
            order_views(out@) == target.take(k as int),
        decreases places@.len() - k,
    {
        let ghost before = out@;
        let it = &items[places[k]];
        assert(iv[places@[k as int] as int] == it@);
        let pair = (it.band.copied(), copy_opt_text(&it.group));
        let ghost pv = (pair.0@, opt_text(pair.1));
        out.push(pair);
        assert(order_views(out@) =~= order_views(before).push(pv));
        assert(target[k as int] == pv);
        k += 1;
        assert(order_views(out@) =~= target.take(k as int));
    }
    assert(target.take(target.len() as int) =~= target);
    out
}

/// The item with its group.
pub open spec fn entry_of(it: ItemView) -> (RefView, Option<Seq<char>>) {
    (it.band, it.group)
}

proof fn lemma_sorted_entries(items: Seq<ItemView>, keys: Seq<SortKey>, n: int)
    requires
        0 <= n <= items.len(),
        keys.len() == items.len(),
        keys.len() <= usize::MAX,
    ensures
        sorted_places(keys, n).map_values(
            |i: usize| (items[i as int].band, items[i as int].group),
        ).to_multiset() == items.take(n).map_values(|it: ItemView| entry_of(it)).to_multiset(),
    decreases n,
{
    let f = |i: usize| (items[i as int].band, items[i as int].group);
    let g = |it: ItemView| entry_of(it);
    if n > 0 {
        lemma_sorted_entries(items, keys, n - 1);
        sorting_is_stable(keys, n - 1);
        let prev = sorted_places(keys, n - 1);
        let out = sorted_places(keys, n);
        let p = crate::order::place_from(keys, prev, keys[n - 1], 0);
        crate::order::lemma_place_from(keys, prev, keys[n - 1], 0);
        let e = entry_of(items[n - 1]);
        assert(out.map_values(f) =~= prev.map_values(f).insert(p, e));
        vstd::seq_lib::to_multiset_insert(prev.map_values(f), p, e);
        assert(items.take(n).map_values(g) =~= items.take(n - 1).map_values(g).push(e));
        vstd::seq_lib::to_multiset_build(items.take(n - 1).map_values(g), e);
    } else {
        assert(sorted_places(keys, n).map_values(f) =~= Seq::empty());
        assert(items.take(n).map_values(g) =~= Seq::empty());
    }
}

/// The common order holds everything that has a place, each with its group, and nothing else.
pub proof fn order_lists_everything_once(items: Seq<ItemView>)
    requires
        items.len() <= usize::MAX,
    ensures
        ordered(items).to_multiset() == items.map_values(|it: ItemView| entry_of(it)).to_multiset(),
        ordered(items).len() == items.len(),
{
    lemma_sorted_entries(items, item_keys(items), items.len() as int);
    assert(items.take(items.len() as int) =~= items);
    sorting_is_stable(item_keys(items), items.len() as int);
}

proof fn lemma_leader(items: Seq<ItemView>, g: Seq<char>, n: int)
    requires
        0 <= n <= items.len(),
    ensures
        match leader(items, g, n) {
            Some(k) => {
                &&& 0 <= k < n
                &&& items[k].group == Some(g)
                &&& forall|i: int|
                    0 <= i < n && (#[trigger] items[i]).group == Some(g) ==> !key_less(
                        own_key(items[i]),
                        own_key(items[k]),
                    )
            },
            None => forall|i: int| 0 <= i < n ==> (#[trigger] items[i]).group != Some(g),
        },
    decreases n,
{
    if n > 0 {
        lemma_leader(items, g, n - 1);
    }
}

/// An item is placed by itself or by a member of its group that is no higher.
proof fn lemma_leader_of(items: Seq<ItemView>, i: int)
    requires
        0 <= i < items.len(),
    ensures
        0 <= leader_of(items, i) < items.len(),
        items[leader_of(items, i)].group == items[i].group,
        !key_less(own_key(items[i]), own_key(items[leader_of(items, i)])),
        items[i].group is None ==> leader_of(items, i) == i,
        items[i].group is Some ==> Some(leader_of(items, i)) == leader(
            items,
            items[i].group->0,
            items.len() as int,
        ),
{
    match items[i].group {
        Some(g) => {
            lemma_leader(items, g, items.len() as int);
        },
        None => {},
    }
}

/// The members of a group stand together in the common order: between two members there is no
/// other item.
pub proof fn groups_stand_together(items: Seq<ItemView>, g: Seq<char>, i: int, m: int, j: int)
    requires
        items.len() <= usize::MAX,
        0 <= i <= m <= j < items.len(),
        ordered(items)[i].1 == Some(g),
        ordered(items)[j].1 == Some(g),
    ensures
        ordered(items)[m].1 == Some(g),
{
    let keys = item_keys(items);
    let p = sorted_places(keys, items.len() as int);
    sorting_is_stable(keys, items.len() as int);
    let a = p[i] as int;
    let b = p[m] as int;
    let c = p[j] as int;
    assert(items[a].group == Some(g) && items[c].group == Some(g));
    lemma_leader_of(items, a);
    lemma_leader_of(items, b);
    lemma_leader_of(items, c);
    if i < m && m < j {
        assert(comes_first(keys, p[i] as int, p[m] as int));
        assert(comes_first(keys, p[m] as int, p[j] as int));
        assert(keys[a].place == keys[c].place);
        assert(keys[b].place == keys[a].place);
        assert(leader_of(items, b) == leader_of(items, a));
    }
}

/// A group stands where its lowest member does: of two items the one that stands first is placed by
/// an item that is no higher, and a group is placed by its lowest member.
pub proof fn groups_stand_at_their_lowest(items: Seq<ItemView>, i: int, j: int)
    requires
        items.len() <= usize::MAX,
        0 <= i < j < items.len(),
    ensures
        ({
            let p = sorted_places(item_keys(items), items.len() as int);
            !key_less(
                own_key(items[leader_of(items, p[j] as int)]),
                own_key(items[leader_of(items, p[i] as int)]),
            )
        }),
{
    let keys = item_keys(items);
    let p = sorted_places(keys, items.len() as int);
    sorting_is_stable(keys, items.len() as int);
    assert(comes_first(keys, p[i] as int, p[j] as int));
}

/// The members of a group keep their order: of two the lower one stands first, and at equal height
/// the one with the lower second key.
pub proof fn heights_decide_in_a_group(items: Seq<ItemView>, g: Seq<char>, i: int, j: int)
    requires
        items.len() <= usize::MAX,
        0 <= i < j < items.len(),
        ordered(items)[i].1 == Some(g),
        ordered(items)[j].1 == Some(g),
    ensures
        ({
            let p = sorted_places(item_keys(items), items.len() as int);
            !key_less(own_key(items[p[j] as int]), own_key(items[p[i] as int]))
        }),
{
    let keys = item_keys(items);
    let p = sorted_places(keys, items.len() as int);
    sorting_is_stable(keys, items.len() as int);
    assert(comes_first(keys, p[i] as int, p[j] as int));
    lemma_leader_of(items, p[i] as int);
    lemma_leader_of(items, p[j] as int);
}

/// Of two items in no group the lower one stands first, and at equal height the one with the lower
/// second key.
pub proof fn heights_decide_between_single_items(items: Seq<ItemView>, i: int, j: int)
    requires
        items.len() <= usize::MAX,
        0 <= i < j < items.len(),
        ({
            let p = sorted_places(item_keys(items), items.len() as int);
            items[p[i] as int].group is None && items[p[j] as int].group is None
        }),
    ensures
        ({
            let p = sorted_places(item_keys(items), items.len() as int);
            !key_less(own_key(items[p[j] as int]), own_key(items[p[i] as int]))
        }),
{
    let keys = item_keys(items);
    let p = sorted_places(keys, items.len() as int);
    sorting_is_stable(keys, items.len() as int);
    assert(comes_first(keys, p[i] as int, p[j] as int));
    lemma_leader_of(items, p[i] as int);
    lemma_leader_of(items, p[j] as int);
}

} // verus!
