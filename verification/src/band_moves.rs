//! Moves in the common order of rasters and texts.

use vstd::prelude::*;
use crate::bands::{Band, BandRef};
#[allow(unused_imports)]
use crate::bands::{band_ref, band_views, ref_views, BandView, RefView};
use crate::float_bits::number_rank_of;
#[allow(unused_imports)]
use crate::float_bits::{is_nan, number_rank};
use crate::ident::{copy_opt_text, same_opt_text};
#[allow(unused_imports)]
use crate::ident::{opt_text, texts};
use crate::order::{stable_order, SortKey};
#[allow(unused_imports)]
use crate::order::sorted_places;
use crate::text_layers::PsTextLayer;
#[allow(unused_imports)]
use crate::text_layers::{text_views, TextView};
#[allow(unused_imports)]
use crate::unified_order::order_views;

verus! {

/// The groups of an order.
pub open spec fn groups_of(order: Seq<(RefView, Option<Seq<char>>)>) -> Seq<Option<Seq<char>>> {
    order.map_values(|p: (RefView, Option<Seq<char>>)| p.1)
}

/// The first `n` entries cut into blocks, each given by its first and last place: a run of one
/// group is a block, and so is every entry in no group.
pub open spec fn blocks_of(groups: Seq<Option<Seq<char>>>, n: int) -> Seq<(usize, usize)>
    decreases n,
{
    if n <= 0 {
        Seq::empty()
    } else {
        let prev = blocks_of(groups, n - 1);
        let i = n - 1;
        if prev.len() > 0 && groups[i] is Some && groups[prev.last().1 as int] == groups[i] {
            prev.update(prev.len() - 1, (prev.last().0, i as usize))
        } else {
            prev.push((i as usize, i as usize))
        }
    }
}

/// The blocks follow each other without gaps from the first entry to the last; all entries of a
/// block are in one group; a block of several entries is a group; and two neighbouring blocks are
/// never of one group.
pub proof fn blocks_cover_the_order(groups: Seq<Option<Seq<char>>>, n: int)
    requires
        0 <= n <= groups.len(),
        groups.len() <= usize::MAX,
    ensures
        ({
            let b = blocks_of(groups, n);
            &&& (b.len() == 0 <==> n == 0)
            &&& b.len() <= n
            &&& n > 0 ==> b[0].0 == 0 && b.last().1 == n - 1
            &&& forall|k: int| 0 <= k < b.len() ==> (#[trigger] b[k]).0 <= b[k].1 && b[k].1 < n
            &&& forall|k: int| 0 <= k < b.len() - 1 ==> (#[trigger] b[k]).1 + 1 == b[k + 1].0
            &&& forall|k: int, i: int|
                0 <= k < b.len() && (#[trigger] b[k]).0 <= i <= b[k].1 ==> #[trigger] groups[i]
                    == groups[b[k].0 as int]
            &&& forall|k: int|
                0 <= k < b.len() && (#[trigger] b[k]).0 < b[k].1 ==> groups[b[k].0 as int] is Some
            &&& forall|k: int|
                0 <= k < b.len() - 1 && groups[(#[trigger] b[k]).0 as int] is Some ==> groups[b[k
                    + 1].0 as int] != groups[b[k].0 as int]
        }),
    decreases n,
{
    if n > 0 {
        blocks_cover_the_order(groups, n - 1);
        let p = blocks_of(groups, n - 1);
        let b = blocks_of(groups, n);
        let i = n - 1;
        if p.len() > 0 && groups[i] is Some && groups[p.last().1 as int] == groups[i] {
            let m = p.len() - 1;
            assert(groups[p[m].1 as int] == groups[p[m].0 as int]);
            assert forall|k: int| 0 <= k < b.len() - 1 implies (#[trigger] b[k]).1 + 1 == b[k
                + 1].0 by {
                assert(b[k] == p[k]);
                assert(p[k].1 + 1 == p[k + 1].0);
            }
            assert forall|k: int, q: int|
                0 <= k < b.len() && (#[trigger] b[k]).0 <= q <= b[k].1 implies #[trigger] groups[q]
                == groups[b[k].0 as int] by {
                if k < m {
                    assert(b[k] == p[k]);
                } else if q < i {
                    assert(p[m].0 <= q <= p[m].1);
                }
            }
            assert forall|k: int|
                0 <= k < b.len() && (#[trigger] b[k]).0 < b[k].1 implies groups[b[k].0 as int] is Some by {
                if k < m {
                    assert(b[k] == p[k]);
                }
            }
            assert forall|k: int|
                0 <= k < b.len() - 1 && groups[(#[trigger] b[k]).0 as int] is Some implies groups[b[k
                + 1].0 as int] != groups[b[k].0 as int] by {
                assert(b[k] == p[k]);
                assert(b[k + 1].0 == p[k + 1].0);
            }
        } else {
            assert forall|k: int| 0 <= k < b.len() - 1 implies (#[trigger] b[k]).1 + 1 == b[k
                + 1].0 by {
                assert(b[k] == p[k]);
                if k < p.len() - 1 {
                    assert(p[k].1 + 1 == p[k + 1].0);
                    assert(b[k + 1] == p[k + 1]);
                }
            }
            assert forall|k: int, q: int|
                0 <= k < b.len() && (#[trigger] b[k]).0 <= q <= b[k].1 implies #[trigger] groups[q]
                == groups[b[k].0 as int] by {
                if k < p.len() {
                    assert(b[k] == p[k]);
                }
            }
            assert forall|k: int|
                0 <= k < b.len() && (#[trigger] b[k]).0 < b[k].1 implies groups[b[k].0 as int] is Some by {
                if k < p.len() {
                    assert(b[k] == p[k]);
                }
            }
            assert forall|k: int|
                0 <= k < b.len() - 1 && groups[(#[trigger] b[k]).0 as int] is Some implies groups[b[k
                + 1].0 as int] != groups[b[k].0 as int] by {
                assert(b[k] == p[k]);
                if k < p.len() - 1 {
                    assert(b[k + 1] == p[k + 1]);
                } else {
                    assert(groups[p[k].1 as int] == groups[p[k].0 as int]);
                }
            }
        }
    }
}

/// Cuts an order into blocks.
pub fn segment_blocks(order: &Vec<(BandRef, Option<String>)>) -> (blocks: Vec<(usize, usize)>)
    ensures
        blocks@ == blocks_of(groups_of(order_views(order@)), order@.len() as int),
{
    let ghost gs = groups_of(order_views(order@));
    assert(order.len() <= usize::MAX);
    let mut blocks: Vec<(usize, usize)> = Vec::new();
    let mut i: usize = 0;
    while i < order.len()
        invariant
            i <= order@.len(),
            order@.len() <= usize::MAX,
            gs == groups_of(order_views(order@)),
            blocks@ == blocks_of(gs, i as int),
        decreases order@.len() - i,
    {
        proof {
            blocks_cover_the_order(gs, i as int);
        }
        let m: usize = blocks.len();
        let mut joins: bool = false;
        if m > 0 && order[i].1.is_some() {
            let hi: usize = blocks[m - 1].1;
            joins = same_opt_text(&order[hi].1, &order[i].1);
        }
        if joins {
            let lo: usize = blocks[m - 1].0;
            blocks.set(m - 1, (lo, i));
        } else {
            blocks.push((i, i));
        }
        i += 1;
    }
    blocks
}

/// The block that holds a place, searched from the block `k` on.
pub open spec fn block_with(blocks: Seq<(usize, usize)>, pos: int, k: int) -> int
    decreases blocks.len() - k,
{
    if k < 0 || k >= blocks.len() || (blocks[k].0 <= pos <= blocks[k].1) {
        k
    } else {
        block_with(blocks, pos, k + 1)
    }
}

/// The order with one entry moved by one step: within its group, or over the neighbouring block.
/// There is none where it stands at the end.
pub open spec fn moved_band(order: Seq<(RefView, Option<Seq<char>>)>, pos: int, up: bool) -> Option<
    Seq<(RefView, Option<Seq<char>>)>,
> {
    let g = order[pos].1;
    if g is Some {
        let nb = if up {
            pos + 1
        } else {
            pos - 1
        };
        if 0 <= nb < order.len() && order[nb].1 == g {
            Some(order.update(pos, order[nb]).update(nb, order[pos]))
        } else {
            None
        }
    } else {
        let bs = blocks_of(groups_of(order), order.len() as int);
        let bi = block_with(bs, pos, 0);
        let t = if up {
            bi + 1
        } else {
            bi - 1
        };
        if bi >= bs.len() || t < 0 || t >= bs.len() {
            None
        } else {
            let at = if up {
                bs[t].1
            } else {
                bs[t].0
            };
            Some(order.remove(pos).insert(at as int, order[pos]))
        }
    }
}

/// Takes an entry out of an order and puts it back elsewhere.
fn relocate(order: Vec<(BandRef, Option<String>)>, from: usize, to: usize) -> (v: Vec<
    (BandRef, Option<String>),
>)
    requires
        from < order@.len(),
        to < order@.len(),
    ensures
        order_views(v@) == order_views(order@).remove(from as int).insert(
            to as int,
            order_views(order@)[from as int],
        ),
{
    let ghost ov = order_views(order@);
    let mut v = order;
    let item = v.remove(from);
    v.insert(to, item);
    assert(order_views(v@) =~= ov.remove(from as int).insert(to as int, ov[from as int]));
    v
}

fn move_in_group(order: Vec<(BandRef, Option<String>)>, pos: usize, up: bool) -> (r: Option<
    Vec<(BandRef, Option<String>)>,
>)
    requires
        pos < order@.len(),
        order_views(order@)[pos as int].1 is Some,
    ensures
        match r {
            Some(v) => moved_band(order_views(order@), pos as int, up) == Some(order_views(v@)),
            None => moved_band(order_views(order@), pos as int, up) is None,
        },
{
    let ghost ov = order_views(order@);
    assert(order.len() <= usize::MAX);
    if up {
        if pos + 1 < order.len() && same_opt_text(&order[pos + 1].1, &order[pos].1) {
            let v = relocate(order, pos, pos + 1);
            assert(order_views(v@) =~= ov.update(pos as int, ov[pos + 1]).update(
                pos + 1,
                ov[pos as int],
            ));
            Some(v)
        } else {
            None
        }
    } else {
        if pos > 0 && same_opt_text(&order[pos - 1].1, &order[pos].1) {
            let v = relocate(order, pos, pos - 1);
            assert(order_views(v@) =~= ov.update(pos as int, ov[pos - 1]).update(
                pos - 1,
                ov[pos as int],
            ));
            Some(v)
        } else {
            None
        }
    }
}

fn find_block(blocks: &Vec<(usize, usize)>, pos: usize) -> (bi: usize)
    ensures
        bi <= blocks@.len(),
        bi == block_with(blocks@, pos as int, 0),
        bi < blocks@.len() ==> blocks@[bi as int].0 <= pos <= blocks@[bi as int].1,
{
    let mut bi: usize = 0;
    while bi < blocks.len() && !(blocks[bi].0 <= pos && pos <= blocks[bi].1)
        invariant
            bi <= blocks@.len(),
            block_with(blocks@, pos as int, 0) == block_with(blocks@, pos as int, bi as int),
        decreases blocks@.len() - bi,
    {
        bi += 1;
    }
    bi
}

fn hop_over_block(order: Vec<(BandRef, Option<String>)>, pos: usize, up: bool) -> (r: Option<
    Vec<(BandRef, Option<String>)>,
>)
    requires
        pos < order@.len(),
        order_views(order@)[pos as int].1 is None,
    ensures
        match r {
            Some(v) => moved_band(order_views(order@), pos as int, up) == Some(order_views(v@)),
            None => moved_band(order_views(order@), pos as int, up) is None,
        },
{
    let ghost ov = order_views(order@);
    assert(order.len() <= usize::MAX);
    let blocks = segment_blocks(&order);
    proof {
        blocks_cover_the_order(groups_of(ov), ov.len() as int);
    }
    let bi: usize = find_block(&blocks, pos);
    if bi >= blocks.len() {
        return None;
    }
    if up {
        if bi + 1 >= blocks.len() {
            return None;
        }
        let at: usize = blocks[bi + 1].1;
        Some(relocate(order, pos, at))
    } else {
        if bi == 0 {
            return None;
        }
        let at: usize = blocks[bi - 1].0;
        assert(blocks@[bi - 1].1 + 1 == blocks@[bi as int].0);
        Some(relocate(order, pos, at))
    }
}

/// Moves one entry of an order by one step.
pub fn move_band(order: Vec<(BandRef, Option<String>)>, pos: usize, up: bool) -> (r: Option<
    Vec<(BandRef, Option<String>)>,
>)
    requires
        pos < order@.len(),
    ensures
        match r {
            Some(v) => moved_band(order_views(order@), pos as int, up) == Some(order_views(v@)),
            None => moved_band(order_views(order@), pos as int, up) is None,
        },
{
    if order[pos].1.is_some() {
        move_in_group(order, pos, up)
    } else {
        hop_over_block(order, pos, up)
    }
}

/// Moving an entry neither adds nor drops one.
pub proof fn moving_keeps_the_entries(order: Seq<(RefView, Option<Seq<char>>)>, pos: int, up: bool)
    requires
        0 <= pos < order.len(),
        order.len() <= usize::MAX,
        moved_band(order, pos, up) is Some,
    ensures
        (moved_band(order, pos, up)->0).to_multiset() == order.to_multiset(),
{
    broadcast use vstd::seq_lib::group_to_multiset_ensures;

    let out = moved_band(order, pos, up)->0;
    blocks_cover_the_order(groups_of(order), order.len() as int);
    if order[pos].1 is Some {
        let nb = if up {
            pos + 1
        } else {
            pos - 1
        };
        assert(out =~= order.remove(pos).insert(nb, order[pos]));
        vstd::seq_lib::to_multiset_insert(order.remove(pos), nb, order[pos]);
        vstd::seq_lib::to_multiset_remove(order, pos);
        assert(order.to_multiset().count(order[pos]) > 0);
        assert(out.to_multiset() =~= order.to_multiset());
    } else {
        let bs = blocks_of(groups_of(order), order.len() as int);
        let bi = block_with(bs, pos, 0);
        lemma_block_with(bs, pos, 0);
        let at = if up {
            bs[bi + 1].1
        } else {
            bs[bi - 1].0
        };
        if !up {
            assert(bs[bi - 1].1 + 1 == bs[bi].0);
        }
        vstd::seq_lib::to_multiset_insert(order.remove(pos), at as int, order[pos]);
        vstd::seq_lib::to_multiset_remove(order, pos);
        assert(order.to_multiset().count(order[pos]) > 0);
        assert(out.to_multiset() =~= order.to_multiset());
    }
}

proof fn lemma_block_with(blocks: Seq<(usize, usize)>, pos: int, k: int)
    requires
        0 <= k <= blocks.len(),
    ensures
        k <= block_with(blocks, pos, k) <= blocks.len(),
        block_with(blocks, pos, k) < blocks.len() ==> blocks[block_with(blocks, pos, k)].0 <= pos
            <= blocks[block_with(blocks, pos, k)].1,
    decreases blocks.len() - k,
{
    if k < blocks.len() && !(blocks[k].0 <= pos <= blocks[k].1) {
        lemma_block_with(blocks, pos, k + 1);
    }
}

/// Within its group an entry that is moved up and then down is where it was.
pub proof fn up_and_down_in_a_group(order: Seq<(RefView, Option<Seq<char>>)>, pos: int)
    requires
        0 <= pos < order.len(),
        order[pos].1 is Some,
        moved_band(order, pos, true) is Some,
    ensures
        moved_band(moved_band(order, pos, true)->0, pos + 1, false) == Some(order),
{
    let out = moved_band(order, pos, true)->0;
    assert(out.update(pos + 1, out[pos]).update(pos, out[pos + 1]) =~= order);
}

/// The first block of a group, searched from the block `k` on.
pub open spec fn block_of_group(
    blocks: Seq<(usize, usize)>,
    groups: Seq<Option<Seq<char>>>,
    uid: Seq<char>,
    k: int,
) -> int
    decreases blocks.len() - k,
{
    if k < 0 || k >= blocks.len() || groups[blocks[k].0 as int] == Some(uid) {
        k
    } else {
        block_of_group(blocks, groups, uid, k + 1)
    }
}

/// The order with two neighbouring runs exchanged: the one from `lo` up to `mid`, and that from
/// `mid` up to `hi`.
pub open spec fn exchanged(
    order: Seq<(RefView, Option<Seq<char>>)>,
    lo: int,
    mid: int,
    hi: int,
) -> Seq<(RefView, Option<Seq<char>>)> {
    order.subrange(0, lo) + order.subrange(mid, hi) + order.subrange(lo, mid) + order.subrange(
        hi,
        order.len() as int,
    )
}

/// The order with the block of a group exchanged with its neighbour.  There is none where the
/// group has no block or no neighbour.
pub open spec fn moved_group(
    order: Seq<(RefView, Option<Seq<char>>)>,
    uid: Seq<char>,
    up: bool,
) -> Option<Seq<(RefView, Option<Seq<char>>)>> {
    let bs = blocks_of(groups_of(order), order.len() as int);
    let bi = block_of_group(bs, groups_of(order), uid, 0);
    let t = if up {
        bi + 1
    } else {
        bi - 1
    };
    if bi >= bs.len() || t < 0 || t >= bs.len() {
        None
    } else if up {
        Some(exchanged(order, bs[bi].0 as int, bs[t].0 as int, bs[t].1 + 1))
    } else {
        Some(exchanged(order, bs[t].0 as int, bs[bi].0 as int, bs[bi].1 + 1))
    }
}

fn copy_run(
    order: &Vec<(BandRef, Option<String>)>,
    lo: usize,
    hi: usize,
    out: &mut Vec<(BandRef, Option<String>)>,
)
    requires
        lo <= hi <= order@.len(),
    ensures
        order_views(final(out)@) == order_views(old(out)@) + order_views(order@).subrange(
            lo as int,
            hi as int,
        ),
{
    let ghost ov = order_views(order@);
    let ghost o0 = order_views(out@);
    let mut i: usize = lo;
    assert(o0 + ov.subrange(lo as int, lo as int) =~= o0);
    while i < hi
        invariant
            lo <= i <= hi <= order@.len(),
            ov == order_views(order@),
            order_views(out@) == o0 + ov.subrange(lo as int, i as int),
        decreases hi - i,
    {
        let ghost before = out@;
        let e = (order[i].0.copied(), copy_opt_text(&order[i].1));
        let ghost ev = (e.0@, opt_text(e.1));
        out.push(e);
        assert(order_views(out@) =~= order_views(before).push(ev));
        assert(ov[i as int] == ev);
        i += 1;
        assert(ov.subrange(lo as int, i as int) =~= ov.subrange(lo as int, i - 1).push(ev));
        assert(order_views(out@) =~= o0 + ov.subrange(lo as int, i as int));
    }
}

fn find_group_block(
    order: &Vec<(BandRef, Option<String>)>,
    blocks: &Vec<(usize, usize)>,
    uid: &String,
) -> (bi: usize)
    requires
        forall|k: int| 0 <= k < blocks@.len() ==> (#[trigger] blocks@[k]).0 < order@.len(),
    ensures
        bi <= blocks@.len(),
        bi == block_of_group(blocks@, groups_of(order_views(order@)), uid@, 0),
{
    let ghost gs = groups_of(order_views(order@));
    let mut bi: usize = 0;
    while bi < blocks.len()
        invariant
            bi <= blocks@.len(),
            gs == groups_of(order_views(order@)),
            forall|k: int| 0 <= k < blocks@.len() ==> (#[trigger] blocks@[k]).0 < order@.len(),
            block_of_group(blocks@, gs, uid@, 0) == block_of_group(blocks@, gs, uid@, bi as int),
        decreases blocks@.len() - bi,
    {
        let lo: usize = blocks[bi].0;
        assert(blocks@[bi as int].0 < order@.len());
        assert(gs[lo as int] == opt_text(order@[lo as int].1));
        match &order[lo].1 {
            Some(g) => {
                if *g == *uid {
                    return bi;
                }
            },
            None => {},
        }
        bi += 1;
    }
    bi
}

fn exchange_runs(order: &Vec<(BandRef, Option<String>)>, lo: usize, mid: usize, hi: usize) -> (out:
    Vec<(BandRef, Option<String>)>)
    requires
        lo <= mid <= hi <= order@.len(),
    ensures
        order_views(out@) == exchanged(
            order_views(order@),
            lo as int,
            mid as int,
            hi as int,
        ),
{
    let ghost ov = order_views(order@);
    let mut out: Vec<(BandRef, Option<String>)> = Vec::new();
    copy_run(order, 0, lo, &mut out);
    copy_run(order, mid, hi, &mut out);
    copy_run(order, lo, mid, &mut out);
    copy_run(order, hi, order.len(), &mut out);
    assert(order_views(out@) =~= exchanged(ov, lo as int, mid as int, hi as int));
    out
}

/// Moves the block of a group by one step.
pub fn move_group(order: &Vec<(BandRef, Option<String>)>, uid: &String, up: bool) -> (r: Option<
    Vec<(BandRef, Option<String>)>,
>)
    ensures
        match r {
            Some(v) => moved_group(order_views(order@), uid@, up) == Some(order_views(v@)),
            None => moved_group(order_views(order@), uid@, up) is None,
        },
{
    let ghost ov = order_views(order@);
    let blocks = segment_blocks(order);
    assert(order.len() <= usize::MAX);
    proof {
        blocks_cover_the_order(groups_of(ov), ov.len() as int);
    }
    let bi: usize = find_group_block(order, &blocks, uid);
    if bi >= blocks.len() {
        return None;
    }
    let a: usize;
    let b: usize;
    if up {
        if bi + 1 >= blocks.len() {
            return None;
        }
        a = bi;
        b = bi + 1;
    } else {
        if bi == 0 {
            return None;
        }
        a = bi - 1;
        b = bi;
    }
    assert(blocks@[a as int].1 + 1 == blocks@[a + 1].0);
    assert(blocks@[b as int].1 < order@.len());
    Some(exchange_runs(order, blocks[a].0, blocks[b].0, blocks[b].1 + 1))
}

/// Exchanging two runs neither adds nor drops an entry.
pub proof fn exchanging_keeps_the_entries(
    order: Seq<(RefView, Option<Seq<char>>)>,
    lo: int,
    mid: int,
    hi: int,
)
    requires
        0 <= lo <= mid <= hi <= order.len(),
    ensures
        exchanged(order, lo, mid, hi).to_multiset() == order.to_multiset(),
        exchanged(exchanged(order, lo, mid, hi), lo, lo + (hi - mid), hi) == order,
{
    let a = order.subrange(0, lo);
    let b = order.subrange(lo, mid);
    let c = order.subrange(mid, hi);
    let d = order.subrange(hi, order.len() as int);
    let x = exchanged(order, lo, mid, hi);
    assert(order =~= a + b + c + d);
    vstd::seq_lib::lemma_multiset_commutative(a + c + b, d);
    vstd::seq_lib::lemma_multiset_commutative(a + c, b);
    vstd::seq_lib::lemma_multiset_commutative(a, c);
    vstd::seq_lib::lemma_multiset_commutative(a + b + c, d);
    vstd::seq_lib::lemma_multiset_commutative(a + b, c);
    vstd::seq_lib::lemma_multiset_commutative(a, b);
    assert(x.to_multiset() =~= order.to_multiset());
    assert(exchanged(x, lo, lo + (hi - mid), hi) =~= order);
}

/// What stands at the places, from the bottom to the top.
pub open spec fn refs_of(bands: Seq<BandView>) -> Seq<RefView> {
    bands.map_values(|b: BandView| band_ref(b))
}

/// The list without a text's own place.
pub open spec fn without_pin(refs: Seq<RefView>, uid: Seq<char>) -> Seq<RefView>
    decreases refs.len(),
{
    if refs.len() == 0 {
        Seq::empty()
    } else {
        let head = without_pin(refs.drop_last(), uid);
        if refs.last() == RefView::PinnedText(uid) {
            head
        } else {
            head.push(refs.last())
        }
    }
}

/// The place above the first group of texts with a number, searched from `i` on; the top if there
/// is none.
pub open spec fn above_text_group(bands: Seq<BandView>, layer_idx: u32, i: int) -> int
    decreases bands.len() - i,
{
    if i < 0 || i >= bands.len() {
        bands.len() as int
    } else {
        match bands[i] {
            BandView::TextGroup { layer_idx: g, .. } => if g == layer_idx {
                i + 1
            } else {
                above_text_group(bands, layer_idx, i + 1)
            },
            _ => above_text_group(bands, layer_idx, i + 1),
        }
    }
}

/// The order after a text's own place is taken away, or given just above its group of texts.
pub open spec fn pin_toggled(bands: Seq<BandView>, t: TextView) -> Seq<RefView> {
    if t.pinned {
        without_pin(refs_of(bands), t.uid)
    } else {
        refs_of(bands).insert(
            above_text_group(bands, t.layer_idx, 0),
            RefView::PinnedText(t.uid),
        )
    }
}

/// Gives a text a place of its own, or takes it away.
pub fn toggle_pin(bands: &Vec<Band>, text: &PsTextLayer) -> (order: Vec<BandRef>)
    ensures
        ref_views(order@) == pin_toggled(band_views(bands@), text@),
{
    let ghost bv = band_views(bands@);
    let ghost rv = refs_of(bv);
    let mut order: Vec<BandRef> = Vec::new();
    if text.pinned {
        let target = BandRef::PinnedText(text.uid.clone());
        let mut i: usize = 0;
        assert(rv.take(0) =~= Seq::empty());
        while i < bands.len()
            invariant
                i <= bands@.len(),
                bv == band_views(bands@),
                rv == refs_of(bv),
                target@ == RefView::PinnedText(text@.uid),
                ref_views(order@) == without_pin(rv.take(i as int), text@.uid),
            decreases bands@.len() - i,
        {
            let ghost before = order@;
            let r = bands[i].to_ref();
            let ghost v = r@;
            assert(rv[i as int] == v);
            assert(rv.take(i + 1).drop_last() =~= rv.take(i as int));
            if !r.same(&target) {
                order.push(r);
                assert(ref_views(order@) =~= ref_views(before).push(v));
            }
            i += 1;
        }
        assert(rv.take(rv.len() as int) =~= rv);
    } else {
        let mut i: usize = 0;
        let mut after: usize = bands.len();
        let mut found: bool = false;
        while i < bands.len()
            invariant
                i <= bands@.len(),
                bv == band_views(bands@),
                rv == refs_of(bv),
                after <= bands@.len(),
                if found {
                    above_text_group(bv, text.layer_idx, 0) == after
                } else {
                    after == bands@.len() && above_text_group(bv, text.layer_idx, 0)
                        == above_text_group(bv, text.layer_idx, i as int)
                },
                ref_views(order@) == rv.take(i as int),
            decreases bands@.len() - i,
        {
            let ghost before = order@;
            assert(bv[i as int] == bands@[i as int]@);
            if !found {
                if let Band::TextGroup { layer_idx, .. } = &bands[i] {
                    if *layer_idx == text.layer_idx {
                        after = i + 1;
                        found = true;
                    }
                }
            }
            let r = bands[i].to_ref();
            let ghost v = r@;
            order.push(r);
            assert(ref_views(order@) =~= ref_views(before).push(v));
            assert(rv[i as int] == v);
            i += 1;
            assert(ref_views(order@) =~= rv.take(i as int));
        }
        assert(rv.take(rv.len() as int) =~= rv);
        let ghost o0 = order@;
        let pin = BandRef::PinnedText(text.uid.clone());
        let ghost pv = pin@;
        order.insert(after, pin);
        assert(ref_views(order@) =~= ref_views(o0).insert(after as int, pv));
    }
    order
}

/// The places of the texts of a group among the first `n` texts that have no place of their own.
pub open spec fn loose_texts(ts: Seq<TextView>, layer_idx: u32, n: int) -> Seq<usize>
    decreases n,
{
    if n <= 0 {
        Seq::empty()
    } else if ts[n - 1].layer_idx == layer_idx && !ts[n - 1].pinned {
        loose_texts(ts, layer_idx, n - 1).push((n - 1) as usize)
    } else {
        loose_texts(ts, layer_idx, n - 1)
    }
}

/// The key that sorts texts by their height on the page.
pub open spec fn page_key(t: TextView) -> SortKey {
    SortKey { a: number_rank(t.transform.cy) as i64, b: 0, place: 0, c: 0, d: 0 }
}

/// The texts of a group without a place of their own, from the top of the page down.
pub open spec fn texts_of_group(ts: Seq<TextView>, layer_idx: u32) -> Seq<Seq<char>> {
    let places = loose_texts(ts, layer_idx, ts.len() as int);
    let keys = places.map_values(|p: usize| page_key(ts[p as int]));
    sorted_places(keys, places.len() as int).map_values(|i: usize| ts[places[i as int] as int].uid)
}

/// The rasters and texts of the first `n` entries of an order, one after the other.
pub open spec fn node_uids(order: Seq<RefView>, ts: Seq<TextView>, n: int) -> Seq<Seq<char>>
    decreases n,
{
    if n <= 0 {
        Seq::empty()
    } else {
        let head = node_uids(order, ts, n - 1);
        match order[n - 1] {
            RefView::Raster(u) => head.push(u),
            RefView::PinnedText(u) => head.push(u),
            RefView::TextGroup(i) => head + texts_of_group(ts, i),
        }
    }
}

fn list_texts_of_group(text_layers: &Vec<PsTextLayer>, layer_idx: u32, out: &mut Vec<String>)
    ensures
        texts(final(out)@) == texts(old(out)@) + texts_of_group(
            text_views(text_layers@),
            layer_idx,
        ),
{
    let ghost ts = text_views(text_layers@);
    let mut places: Vec<usize> = Vec::new();
    let mut keys: Vec<SortKey> = Vec::new();
    let mut n: usize = 0;
    assert(text_layers.len() <= usize::MAX);
    while n < text_layers.len()
        invariant
            n <= text_layers@.len(),
            text_layers@.len() <= usize::MAX,
            ts == text_views(text_layers@),
            places@ == loose_texts(ts, layer_idx, n as int),
            keys@ == places@.map_values(|p: usize| page_key(ts[p as int])),
            forall|k: int| 0 <= k < places@.len() ==> #[trigger] places@[k] < text_layers@.len(),
        decreases text_layers@.len() - n,
    {
        let t = &text_layers[n];
        assert(ts[n as int] == t@);
        let ghost p0 = places@;
        let ghost k0 = keys@;
        if t.layer_idx == layer_idx && !t.pinned {
            places.push(n);
            keys.push(SortKey { a: number_rank_of(t.transform.cy), b: 0, place: 0, c: 0, d: 0 });
            assert(keys@ =~= places@.map_values(|p: usize| page_key(ts[p as int])));
        }
        n += 1;
    }
    let sorted = stable_order(&keys);
    let ghost o0 = texts(out@);
    let ghost target = texts_of_group(ts, layer_idx);
    assert(o0 + target.take(0) =~= o0);
    let mut k: usize = 0;
    while k < sorted.len()
        invariant
            k <= sorted@.len(),
            ts == text_views(text_layers@),
            sorted@.len() == places@.len(),
            forall|j: int| 0 <= j < sorted@.len() ==> #[trigger] sorted@[j] < places@.len(),
            forall|j: int| 0 <= j < places@.len() ==> #[trigger] places@[j] < text_layers@.len(),
            target == sorted@.map_values(|i: usize| ts[places@[i as int] as int].uid),
            texts(out@) == o0 + target.take(k as int),
        decreases sorted@.len() - k,
    {
        let ghost before = out@;
        let p: usize = places[sorted[k]];
        assert(ts[p as int] == text_layers@[p as int]@);
        let u = text_layers[p].uid.clone();
        let ghost uv = u@;
        out.push(u);
        assert(texts(out@) =~= texts(before).push(uv));
        assert(target[k as int] == uv);
        k += 1;
        assert(target.take(k as int) =~= target.take(k - 1).push(uv));
        assert(texts(out@) =~= o0 + target.take(k as int));
    }
    assert(target.take(target.len() as int) =~= target);
}

/// The heights of the texts that stand in the groups of an order are numbers.
pub open spec fn heights_known(order: Seq<RefView>, ts: Seq<TextView>) -> bool {
    forall|k: int, i: int|
        0 <= k < order.len() && 0 <= i < ts.len() && #[trigger] order[k] == RefView::TextGroup(
            (#[trigger] ts[i]).layer_idx,
        ) && !ts[i].pinned ==> !is_nan(ts[i].transform.cy)
}

/// Lists the rasters and texts of an order one by one; the texts of a group come by their height
/// on the page, which has to be a number.
pub fn expand_order_to_node_uids(order: &Vec<BandRef>, text_layers: &Vec<PsTextLayer>) -> (uids:
    Vec<String>)
    requires
        heights_known(ref_views(order@), text_views(text_layers@)),
    ensures
        texts(uids@) == node_uids(
            ref_views(order@),
            text_views(text_layers@),
            order@.len() as int,
        ),
{
    let ghost rv = ref_views(order@);
    let ghost ts = text_views(text_layers@);
    let mut uids: Vec<String> = Vec::new();
    let mut n: usize = 0;
    while n < order.len()
        invariant
            n <= order@.len(),
            rv == ref_views(order@),
            ts == text_views(text_layers@),
            texts(uids@) == node_uids(rv, ts, n as int),
        decreases order@.len() - n,
    {
        let ghost before = uids@;
        assert(rv[n as int] == order@[n as int]@);
        match &order[n] {
            BandRef::Raster(u) => {
                uids.push(u.clone());
                assert(texts(uids@) =~= texts(before).push(u@));
            },
            BandRef::PinnedText(u) => {
                uids.push(u.clone());
                assert(texts(uids@) =~= texts(before).push(u@));
            },
            BandRef::TextGroup(i) => {
                list_texts_of_group(text_layers, *i, &mut uids);
            },
        }
        n += 1;
    }
    uids
}

/// A text that gets a place of its own and loses it again leaves the other places as they were.
pub proof fn pinning_twice_restores(bands: Seq<BandView>, t: TextView)
    requires
        !t.pinned,
        !refs_of(bands).contains(RefView::PinnedText(t.uid)),
    ensures
        without_pin(pin_toggled(bands, t), t.uid) == refs_of(bands),
{
    let at = above_text_group(bands, t.layer_idx, 0);
    lemma_above(bands, t.layer_idx, 0);
    lemma_unpin(refs_of(bands), at, t.uid);
}

proof fn lemma_above(bands: Seq<BandView>, layer_idx: u32, i: int)
    requires
        0 <= i <= bands.len(),
    ensures
        0 <= above_text_group(bands, layer_idx, i) <= bands.len(),
    decreases bands.len() - i,
{
    if i < bands.len() {
        lemma_above(bands, layer_idx, i + 1);
    }
}

proof fn lemma_unpin(refs: Seq<RefView>, at: int, uid: Seq<char>)
    requires
        0 <= at <= refs.len(),
        !refs.contains(RefView::PinnedText(uid)),
    ensures
        without_pin(refs.insert(at, RefView::PinnedText(uid)), uid) == refs,
    decreases refs.len(),
{
    let x = refs.insert(at, RefView::PinnedText(uid));
    if at == refs.len() {
        assert(x.drop_last() =~= refs);
        lemma_nothing_pinned(refs, uid);
    } else {
        let r = refs.drop_last();
        assert(!r.contains(RefView::PinnedText(uid))) by {
            if r.contains(RefView::PinnedText(uid)) {
                let k = choose|k: int| 0 <= k < r.len() && r[k] == RefView::PinnedText(uid);
                assert(refs[k] == RefView::PinnedText(uid));
            }
        }
        lemma_unpin(r, at, uid);
        assert(x.drop_last() =~= r.insert(at, RefView::PinnedText(uid)));
        assert(x.last() == refs.last());
        assert(refs[refs.len() - 1] == refs.last());
        assert(without_pin(x, uid) =~= refs);
    }
}

proof fn lemma_nothing_pinned(refs: Seq<RefView>, uid: Seq<char>)
    requires
        !refs.contains(RefView::PinnedText(uid)),
    ensures
        without_pin(refs, uid) == refs,
    decreases refs.len(),
{
    if refs.len() > 0 {
        let r = refs.drop_last();
        assert(!r.contains(RefView::PinnedText(uid))) by {
            if r.contains(RefView::PinnedText(uid)) {
                let k = choose|k: int| 0 <= k < r.len() && r[k] == RefView::PinnedText(uid);
                assert(refs[k] == RefView::PinnedText(uid));
            }
        }
        lemma_nothing_pinned(r, uid);
        assert(refs[refs.len() - 1] == refs.last());
        assert(without_pin(refs, uid) =~= refs);
    } else {
        assert(without_pin(refs, uid) =~= refs);
    }
}

} // verus!
