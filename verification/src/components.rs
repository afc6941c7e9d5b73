//! Connected components of a binary mask.

use vstd::prelude::*;
#[allow(unused_imports)]
use crate::raster::{lemma_offset, lemma_position};

verus! {

/// The pixels at offsets `i` and `j` of a mask of width `w` touch by a side or a corner, or
/// coincide.
pub open spec fn near8(w: int, i: int, j: int) -> bool {
    &&& -1 <= i % w - j % w <= 1
    &&& -1 <= i / w - j / w <= 1
}

pub open spec fn marked(mask: Seq<u8>, i: int) -> bool {
    0 <= i < mask.len() && mask[i] != 0
}

/// `p` walks from `i` to `j` over marked pixels, each touching the one before it.
pub open spec fn walk(mask: Seq<u8>, w: int, p: Seq<int>, i: int, j: int) -> bool {
    &&& p.len() > 0
    &&& p[0] == i
    &&& p.last() == j
    &&& forall|a: int| 0 <= a < p.len() ==> marked(mask, #[trigger] p[a])
    &&& forall|a: int, b: int|
        0 <= a && b == a + 1 && b < p.len() ==> near8(w, #[trigger] p[a], #[trigger] p[b])
}

/// The marked pixels `i` and `j` belong to one component.
pub open spec fn linked(mask: Seq<u8>, w: int, i: int, j: int) -> bool {
    exists|p: Seq<int>| walk(mask, w, p, i, j)
}

/// `j` is the first pixel of its component.
pub open spec fn is_root(mask: Seq<u8>, w: int, j: int) -> bool {
    marked(mask, j) && forall|k: int| 0 <= k < j ==> !linked(mask, w, k, j)
}

/// The first pixels of the components that start before offset `n`, in order.
pub open spec fn roots(mask: Seq<u8>, w: int, n: nat) -> Seq<int>
    decreases n,
{
    if n == 0 {
        Seq::empty()
    } else {
        let before = roots(mask, w, (n - 1) as nat);
        if is_root(mask, w, n - 1) {
            before.push(n - 1)
        } else {
            before
        }
    }
}

/// `p` is the first position of `s` whose pixel touches the pixel at position `a`.
pub open spec fn is_parent(w: int, s: Seq<usize>, a: int, p: int) -> bool {
    &&& 0 <= p < a
    &&& near8(w, s[p] as int, s[a] as int)
    &&& forall|q: int| 0 <= q < p ==> !near8(w, #[trigger] s[q] as int, s[a] as int)
}

/// `s` lists the component of `seed` once, breadth first: a pixel follows the first pixel that it
/// touches, and those that follow the same pixel stand in the order of their offsets.
pub open spec fn breadth_first(mask: Seq<u8>, w: int, seed: int, s: Seq<usize>) -> bool {
    &&& s.len() > 0
    &&& s[0] == seed
    &&& s.no_duplicates()
    &&& forall|i: int|
        #![trigger linked(mask, w, seed, i)]
        0 <= i < mask.len() ==> (linked(mask, w, seed, i) <==> s.contains(i as usize))
    &&& forall|a: int| 0 <= a < s.len() ==> (#[trigger] s[a]) < mask.len()
    &&& forall|a: int| 1 <= a < s.len() ==> #[trigger] has_parent(w, s, a)
    &&& forall|a: int, b: int, p: int, q: int|
        1 <= a < b < s.len() && #[trigger] is_parent(w, s, a, p) && #[trigger] is_parent(
            w,
            s,
            b,
            q,
        ) ==> p < q || (p == q && s[a] < s[b])
}

/// Some pixel before the one at position `a` touches it.
pub open spec fn has_parent(w: int, s: Seq<usize>, a: int) -> bool {
    exists|p: int| is_parent(w, s, a, p)
}

/// The number under which the component at position `l` is recorded.
pub open spec fn label_value(l: int) -> int {
    if l > i32::MAX {
        i32::MAX as int
    } else {
        l
    }
}

/// The components of a mask: the number of each pixel's component (`-1` where the mask is
/// clear), and the pixels of each component.
#[derive(Debug)]
pub struct ConnectedComponents {
    pub labels: Vec<i32>,
    pub pixels: Vec<Vec<usize>>,
}

proof fn lemma_near_sym(w: int, i: int, j: int)
    requires
        near8(w, i, j),
    ensures
        near8(w, j, i),
{
}

proof fn lemma_extend(mask: Seq<u8>, w: int, i: int, j: int, k: int)
    requires
        linked(mask, w, i, j),
        near8(w, j, k),
        marked(mask, k),
    ensures
        linked(mask, w, i, k),
{
    let p = choose|p: Seq<int>| walk(mask, w, p, i, j);
    let q = p.push(k);
    assert forall|a: int| 0 <= a < q.len() implies marked(mask, #[trigger] q[a]) by {
        if a < p.len() {
            assert(marked(mask, p[a]));
        }
    }
    assert forall|a: int, b: int| 0 <= a && b == a + 1 && b < q.len() implies near8(
        w,
        #[trigger] q[a],
        #[trigger] q[b],
    ) by {
        if b < p.len() {
            assert(near8(w, p[a], p[b]));
        }
    }
    assert(walk(mask, w, q, i, k));
}

pub(crate) proof fn lemma_linked_self(mask: Seq<u8>, w: int, i: int)
    requires
        marked(mask, i),
    ensures
        linked(mask, w, i, i),
{
    assert(walk(mask, w, seq![i], i, i));
}

/// Belonging to one component is symmetric.
pub proof fn linked_is_symmetric(mask: Seq<u8>, w: int, i: int, j: int)
    requires
        linked(mask, w, i, j),
    ensures
        linked(mask, w, j, i),
{
    let p = choose|p: Seq<int>| walk(mask, w, p, i, j);
    let q = Seq::new(p.len(), |a: int| p[p.len() - 1 - a]);
    assert forall|a: int, b: int| 0 <= a && b == a + 1 && b < q.len() implies near8(
        w,
        #[trigger] q[a],
        #[trigger] q[b],
    ) by {
        assert(near8(w, p[p.len() - 1 - b], p[p.len() - 1 - a]));
    }
    assert(walk(mask, w, q, j, i));
}

/// Belonging to one component is transitive.
pub proof fn linked_is_transitive(mask: Seq<u8>, w: int, i: int, j: int, k: int)
    requires
        linked(mask, w, i, j),
        linked(mask, w, j, k),
    ensures
        linked(mask, w, i, k),
{
    let p = choose|p: Seq<int>| walk(mask, w, p, j, k);
    lemma_transitive(mask, w, p, i, j, k);
}

proof fn lemma_walk_prefix(mask: Seq<u8>, w: int, p: Seq<int>, i: int, j: int)
    requires
        walk(mask, w, p, i, j),
        p.len() > 1,
    ensures
        walk(mask, w, p.drop_last(), i, p[p.len() - 2]),
        near8(w, p[p.len() - 2], j),
        marked(mask, p[p.len() - 2]),
        marked(mask, j),
{
    let q = p.drop_last();
    assert forall|a: int| 0 <= a < q.len() implies marked(mask, #[trigger] q[a]) by {
        assert(marked(mask, p[a]));
    }
    assert forall|a: int, b: int| 0 <= a && b == a + 1 && b < q.len() implies near8(
        w,
        #[trigger] q[a],
        #[trigger] q[b],
    ) by {
        assert(near8(w, p[a], p[b]));
    }
    assert(near8(w, p[p.len() - 2], p[p.len() - 1]));
    assert(marked(mask, p[p.len() - 1]));
}

proof fn lemma_transitive(mask: Seq<u8>, w: int, p: Seq<int>, i: int, j: int, k: int)
    requires
        linked(mask, w, i, j),
        walk(mask, w, p, j, k),
    ensures
        linked(mask, w, i, k),
    decreases p.len(),
{
    if p.len() > 1 {
        lemma_walk_prefix(mask, w, p, j, k);
        lemma_transitive(mask, w, p.drop_last(), i, j, p[p.len() - 2]);
        lemma_extend(mask, w, i, p[p.len() - 2], k);
    }
}

/// A set of pixels that holds every marked pixel touching one of its own.
spec fn holds_neighbours(mask: Seq<u8>, w: int, labels: Seq<i32>) -> bool {
    forall|i: int, j: int|
        0 <= i < labels.len() && #[trigger] labels[i] >= 0 && marked(mask, j) && #[trigger] near8(
            w,
            i,
            j,
        ) ==> labels[j] >= 0
}

proof fn lemma_labelled_spreads(mask: Seq<u8>, w: int, labels: Seq<i32>, p: Seq<int>, i: int, j: int)
    requires
        labels.len() == mask.len(),
        holds_neighbours(mask, w, labels),
        walk(mask, w, p, i, j),
        labels[i] >= 0,
    ensures
        labels[j] >= 0,
    decreases p.len(),
{
    if p.len() > 1 {
        let k = p[p.len() - 2];
        lemma_walk_prefix(mask, w, p, i, j);
        lemma_labelled_spreads(mask, w, labels, p.drop_last(), i, k);
        assert(labels[k] >= 0 && near8(w, k, j));
    }
}

proof fn lemma_list_spreads(mask: Seq<u8>, w: int, s: Seq<usize>, p: Seq<int>, i: int, j: int)
    requires
        s.contains(i as usize),
        0 <= i < mask.len() <= usize::MAX,
        looked_at(mask, w, s, s.len() as int),
        walk(mask, w, p, i, j),
    ensures
        s.contains(j as usize),
    decreases p.len(),
{
    if p.len() > 1 {
        let k = p[p.len() - 2];
        lemma_walk_prefix(mask, w, p, i, j);
        lemma_list_spreads(mask, w, s, p.drop_last(), i, k);
        let t = choose|t: int| 0 <= t < s.len() && s[t] == k as usize;
        assert(near8(w, s[t] as int, j));
    }
}

spec fn unlabelled(labels: Seq<i32>) -> nat
    decreases labels.len(),
{
    if labels.len() == 0 {
        0
    } else {
        unlabelled(labels.drop_last()) + if labels.last() < 0 { 1nat } else { 0nat }
    }
}

proof fn lemma_label_one(labels: Seq<i32>, i: int, v: i32)
    requires
        0 <= i < labels.len(),
        labels[i] < 0,
        v >= 0,
    ensures
        unlabelled(labels.update(i, v)) + 1 == unlabelled(labels),
    decreases labels.len(),
{
    if i == labels.len() - 1 {
        assert(labels.update(i, v).drop_last() =~= labels.drop_last());
    } else {
        assert(labels.update(i, v).drop_last() =~= labels.drop_last().update(i, v));
        lemma_label_one(labels.drop_last(), i, v);
    }
}

/// The state of a breadth-first walk from `seed` while the pixel at `head` is looked at: `s` are
/// the pixels found, `up` the positions they follow, `first` the count found before `head` was
/// reached.
spec fn walking(
    mask: Seq<u8>,
    w: int,
    seed: int,
    label: i32,
    before: Seq<i32>,
    labels: Seq<i32>,
    s: Seq<usize>,
    up: Seq<int>,
    head: int,
) -> bool {
    &&& labels.len() == mask.len()
    &&& before.len() == mask.len()
    &&& label >= 0
    &&& s.len() > 0
    &&& s[0] == seed
    &&& up.len() == s.len()
    &&& s.no_duplicates()
    &&& forall|a: int|
        0 <= a < s.len() ==> marked(mask, #[trigger] s[a] as int) && linked(
            mask,
            w,
            seed,
            s[a] as int,
        ) && before[s[a] as int] < 0
    &&& forall|i: int|
        0 <= i < mask.len() ==> #[trigger] labels[i] == if s.contains(i as usize) {
            label
        } else {
            before[i]
        }
    &&& forall|a: int| 1 <= a < s.len() ==> is_parent(w, s, a, #[trigger] up[a])
    &&& forall|a: int, b: int|
        1 <= a < b < s.len() ==> #[trigger] up[a] < #[trigger] up[b] || (up[a] == up[b] && s[a]
            < s[b])
    &&& forall|a: int| 1 <= a < s.len() ==> #[trigger] up[a] <= head
}

spec fn looked_at(mask: Seq<u8>, w: int, s: Seq<usize>, head: int) -> bool {
    forall|p: int, k: int|
        0 <= p < head && marked(mask, k) && #[trigger] near8(w, s[p] as int, k) ==> s.contains(
            k as usize,
        )
}

/// One neighbour of the pixel at `head`: labelled and listed unless it is clear or was found.
fn look(
    mask: &[u8],
    labels: &mut Vec<i32>,
    s: &mut Vec<usize>,
    nidx: usize,
    label: i32,
    Ghost(w): Ghost<int>,
    Ghost(seed): Ghost<int>,
    Ghost(before): Ghost<Seq<i32>>,
    Ghost(up): Ghost<Seq<int>>,
    Ghost(head): Ghost<int>,
) -> (up2: Ghost<Seq<int>>)
    requires
        walking(mask@, w, seed, label, before, old(labels)@, old(s)@, up, head),
        looked_at(mask@, w, old(s)@, head),
        holds_neighbours(mask@, w, before),
        0 <= head < old(s)@.len(),
        nidx < mask@.len(),
        near8(w, old(s)@[head] as int, nidx as int),
        forall|a: int|
            1 <= a < up.len() && #[trigger] up[a] == head ==> old(s)@[a] < nidx,
    ensures
        walking(mask@, w, seed, label, before, final(labels)@, final(s)@, up2@, head),
        looked_at(mask@, w, final(s)@, head),
        final(s)@.len() >= old(s)@.len(),
        forall|a: int| 0 <= a < old(s)@.len() ==> final(s)@[a] == #[trigger] old(s)@[a],
        marked(mask@, nidx as int) ==> final(s)@.contains(nidx),
        forall|a: int|
            1 <= a < up2@.len() && #[trigger] up2@[a] == head ==> final(s)@[a] <= nidx,
        unlabelled(final(labels)@) + final(s)@.len() == unlabelled(old(labels)@) + old(s)@.len(),
{
    let ghost s0 = s@;
    let ghost labels0 = labels@;
    proof {
        assert(s0.contains(nidx) ==> labels0[nidx as int] == label);
    }
    if mask[nidx] == 0 || labels[nidx] >= 0 {
        proof {
            if mask@[nidx as int] != 0 && !s0.contains(nidx) {
                // A pixel labelled before the walk would have drawn its neighbour in with it.
                lemma_near_sym(w, s0[head] as int, nidx as int);
                assert(before[nidx as int] >= 0);
                assert(marked(mask@, s0[head] as int));
                assert(before[s0[head] as int] >= 0);
                assert(false);
            }
        }
        return Ghost(up);
    }
    proof {
        lemma_label_one(labels0, nidx as int, label);
    }
    labels.set(nidx, label);
    s.push(nidx);
    let ghost up2 = up.push(head);
    proof {
        assert(linked(mask@, w, seed, s0[head] as int));
        lemma_extend(mask@, w, seed, s0[head] as int, nidx as int);
        assert(!s0.contains(nidx));
        assert forall|i: int| 0 <= i < mask@.len() implies #[trigger] labels@[i] == if s@.contains(i as usize) {
            label
        } else {
            before[i]
        } by {
            assert(s@[s0.len() as int] == nidx);
            if i != nidx {
                if s@.contains(i as usize) {
                    let k = choose|k: int| 0 <= k < s@.len() && s@[k] == i as usize;
                    assert(s0[k] == i as usize);
                    assert(s0.contains(i as usize));
                } else if s0.contains(i as usize) {
                    let k = choose|k: int| 0 <= k < s0.len() && s0[k] == i as usize;
                    assert(s@[k] == i as usize);
                }
                assert(labels0[i] == labels@[i]);
            }
        }
        assert forall|a: int| 1 <= a < s@.len() implies is_parent(w, s@, a, #[trigger] up2[a]) by {
            if a < s0.len() {
                assert(is_parent(w, s0, a, up[a]));
                assert forall|q: int| 0 <= q < up2[a] implies !near8(w, #[trigger] s@[q] as int, s@[a] as int) by {
                    assert(s0[q] == s@[q]);
                }
            } else {
                assert forall|q: int| 0 <= q < head implies !near8(w, #[trigger] s@[q] as int, s@[a] as int) by {
                    assert(s0[q] == s@[q]);
                    if near8(w, s0[q] as int, nidx as int) {
                        assert(s0.contains(nidx));
                    }
                }
            }
        }
        assert forall|a: int, b: int| 1 <= a < b < s@.len() implies #[trigger] up2[a] < #[trigger] up2[b] || (up2[a] == up2[b] && s@[a] < s@[b]) by {
            if b < s0.len() {
                assert(up[a] < up[b] || (up[a] == up[b] && s0[a] < s0[b]));
            } else {
                assert(up[a] <= head);
            }
        }
        assert forall|p: int, k: int| 0 <= p < head && marked(mask@, k) && #[trigger] near8(w, s@[p] as int, k) implies s@.contains(k as usize) by {
            assert(near8(w, s0[p] as int, k));
            let t = choose|t: int| 0 <= t < s0.len() && s0[t] == k as usize;
            assert(s@[t] == k as usize);
        }
        assert(s@[s0.len() as int] == nidx);
        assert(linked(mask@, w, seed, nidx as int));
        assert forall|a: int| 0 <= a < s@.len() implies marked(mask@, #[trigger] s@[a] as int) && linked(mask@, w, seed, s@[a] as int) && before[s@[a] as int] < 0 by {
            if a < s0.len() {
                assert(s0[a] == s@[a]);
            }
        }
        assert forall|a: int| 1 <= a < up2.len() && #[trigger] up2[a] == head implies s@[a] <= nidx by {
            if a < s0.len() {
                assert(up[a] == head);
            }
        }
    }
    Ghost(up2)
}

spec fn found_before(mask: Seq<u8>, w: int, s: Seq<usize>, idx: int, nx: int, ny: int) -> bool {
    forall|k: int|
        marked(mask, k) && #[trigger] near8(w, idx, k) && (k / w < ny || (k / w == ny && k % w < nx))
            ==> s.contains(k as usize)
}

/// All neighbours of the pixel at `head`, row by row.
fn look_around(
    mask: &[u8],
    width: usize,
    height: usize,
    labels: &mut Vec<i32>,
    s: &mut Vec<usize>,
    head: usize,
    label: i32,
    Ghost(seed): Ghost<int>,
    Ghost(before): Ghost<Seq<i32>>,
    Ghost(up): Ghost<Seq<int>>,
) -> (up2: Ghost<Seq<int>>)
    requires
        walking(mask@, width as int, seed, label, before, old(labels)@, old(s)@, up, head - 1),
        looked_at(mask@, width as int, old(s)@, head as int),
        holds_neighbours(mask@, width as int, before),
        0 <= head < old(s)@.len(),
        mask@.len() == width * height,
        width > 0,
        height > 0,
    ensures
        walking(mask@, width as int, seed, label, before, final(labels)@, final(s)@, up2@, head as int),
        looked_at(mask@, width as int, final(s)@, head + 1),
        final(s)@.len() >= old(s)@.len(),
        unlabelled(final(labels)@) + final(s)@.len() == unlabelled(old(labels)@) + old(s)@.len(),
{
    let idx: usize = s[head];
    let ghost w = width as int;
    let ghost h = height as int;
    proof {
        assert(marked(mask@, s@[head as int] as int));
        lemma_position(w, h, idx as int);
        assert(mask.len() <= usize::MAX);
    }
    let x: usize = idx % width;
    let y: usize = idx / width;
    let x0: usize = if x > 0 { x - 1 } else { 0 };
    let y0: usize = if y > 0 { y - 1 } else { 0 };
    let x1: usize = if x < width - 1 { x + 1 } else { width - 1 };
    let y1: usize = if y < height - 1 { y + 1 } else { height - 1 };
    let mut ny: usize = y0;
    let ghost mut up2 = up;
    let ghost s0 = s@;
    let ghost labels0 = labels@;
    proof {
        assert forall|k: int| marked(mask@, k) && #[trigger] near8(w, idx as int, k) implies x0 <= k % w <= x1 && y0 <= k / w <= y1 by {
            lemma_position(w, h, k);
        }
    }
    while ny <= y1
        invariant
            mask@.len() == width * height,
            w == width,
            h == height,
            0 < width,
            0 < height,
            y0 <= ny <= y1 + 1,
            y1 < height,
            x1 < width,
            x0 <= x1,
            y <= y1 <= y + 1,
            x <= x1 <= x + 1,
            x0 <= x <= x0 + 1,
            y0 <= y <= y0 + 1,
            idx as int % w == x,
            idx as int / w == y,
            0 <= head < s@.len(),
            s@[head as int] == idx,
            walking(mask@, w, seed, label, before, labels@, s@, up2, head as int),
            looked_at(mask@, w, s@, head as int),
            holds_neighbours(mask@, w, before),
            found_before(mask@, w, s@, idx as int, x0 as int, ny as int),
            forall|k: int| marked(mask@, k) && #[trigger] near8(w, idx as int, k) ==> x0 <= k % w <= x1 && y0 <= k / w <= y1,
            forall|a: int| 1 <= a < up2.len() && #[trigger] up2[a] == head ==> s@[a] < ny * width + x0,
            s@.len() >= s0.len(),
            unlabelled(labels@) + s@.len() == unlabelled(labels0) + s0.len(),
        decreases y1 + 1 - ny,
    {
        let mut nx: usize = x0;
        proof {
            lemma_offset(w, h, x0 as int, ny as int);
            assert(mask.len() <= usize::MAX);
        }
        let row: usize = ny * width;
        while nx <= x1
            invariant
                mask@.len() == width * height,
                w == width,
                h == height,
                0 < width,
                0 < height,
                y0 <= ny <= y1,
                y1 < height,
                x1 < width,
                x0 <= nx <= x1 + 1,
                y <= y1 <= y + 1,
                x <= x1 <= x + 1,
                x0 <= x <= x0 + 1,
                y0 <= y <= y0 + 1,
                row == ny * width,
                idx as int % w == x,
                idx as int / w == y,
                0 <= head < s@.len(),
                s@[head as int] == idx,
                walking(mask@, w, seed, label, before, labels@, s@, up2, head as int),
                looked_at(mask@, w, s@, head as int),
                holds_neighbours(mask@, w, before),
                found_before(mask@, w, s@, idx as int, nx as int, ny as int),
                forall|k: int| marked(mask@, k) && #[trigger] near8(w, idx as int, k) ==> x0 <= k % w <= x1 && y0 <= k / w <= y1,
                forall|a: int| 1 <= a < up2.len() && #[trigger] up2[a] == head ==> s@[a] < row + nx,
                s@.len() >= s0.len(),
                unlabelled(labels@) + s@.len() == unlabelled(labels0) + s0.len(),
            decreases x1 + 1 - nx,
        {
            proof {
                lemma_offset(w, h, nx as int, ny as int);
                assert(mask.len() <= usize::MAX);
            }
            let nidx: usize = row + nx;
            let ghost s1 = s@;
            let u = look(mask, labels, s, nidx, label, Ghost(w), Ghost(seed), Ghost(before), Ghost(up2), Ghost(head as int));
            proof {
                up2 = u@;
                assert forall|k: int| marked(mask@, k) && #[trigger] near8(w, idx as int, k) && (k / w < ny || (k / w == ny && k % w < nx + 1)) implies s@.contains(k as usize) by {
                    lemma_position(w, h, k);
                    if k / w == ny && k % w == nx {
                        assert(k == nidx);
                    } else {
                        assert(s1.contains(k as usize));
                        let t = choose|t: int| 0 <= t < s1.len() && s1[t] == k as usize;
                        assert(s@[t] == s1[t]);
                    }
                }
                assert(s@[head as int] == s1[head as int]);
            }
            nx += 1;
        }
        proof {
            assert((ny + 1) * width == ny * width + width) by (nonlinear_arith);
            assert forall|k: int| marked(mask@, k) && #[trigger] near8(w, idx as int, k) && (k / w < ny + 1 || (k / w == ny + 1 && k % w < x0)) implies s@.contains(k as usize) by {
                assert(x0 <= k % w <= x1);
            }
        }
        ny += 1;
    }
    proof {
        assert forall|p: int, k: int| 0 <= p < head + 1 && marked(mask@, k) && #[trigger] near8(w, s@[p] as int, k) implies s@.contains(k as usize) by {
            if p == head {
                assert(near8(w, idx as int, k));
            }
        }
    }
    Ghost(up2)
}

/// Labels the component of `seed` and lists it breadth first.
fn spread(
    mask: &[u8],
    width: usize,
    height: usize,
    labels: &mut Vec<i32>,
    seed: usize,
    label: i32,
) -> (s: Vec<usize>)
    requires
        mask@.len() == width * height,
        width > 0,
        height > 0,
        old(labels)@.len() == mask@.len(),
        holds_neighbours(mask@, width as int, old(labels)@),
        marked(mask@, seed as int),
        old(labels)@[seed as int] < 0,
        label >= 0,
    ensures
        breadth_first(mask@, width as int, seed as int, s@),
        final(labels)@.len() == mask@.len(),
        forall|i: int|
            0 <= i < mask@.len() ==> #[trigger] final(labels)@[i] == if linked(
                mask@,
                width as int,
                seed as int,
                i,
            ) {
                label
            } else {
                old(labels)@[i]
            },
        forall|i: int|
            0 <= i < mask@.len() && #[trigger] linked(mask@, width as int, seed as int, i) ==> old(
                labels,
            )@[i] < 0,
        holds_neighbours(mask@, width as int, final(labels)@),
{
    let ghost before = labels@;
    let ghost w = width as int;
    let mut s: Vec<usize> = Vec::new();
    s.push(seed);
    proof {
        assert(mask.len() <= usize::MAX);
        lemma_label_one(labels@, seed as int, label);
        lemma_linked_self(mask@, w, seed as int);
    }
    labels.set(seed, label);
    let mut head: usize = 0;
    let ghost mut up: Seq<int> = seq![0];
    proof {
        assert(s@[0] == seed);
        assert forall|i: int| 0 <= i < mask@.len() implies #[trigger] labels@[i] == if s@.contains(i as usize) { label } else { before[i] } by {
            if s@.contains(i as usize) {
                assert(i == seed);
            }
        }
    }
    while head < s.len()
        invariant
            mask@.len() == width * height,
            mask@.len() <= usize::MAX,
            w == width,
            width > 0,
            height > 0,
            head <= s@.len(),
            walking(mask@, w, seed as int, label, before, labels@, s@, up, head - 1),
            looked_at(mask@, w, s@, head as int),
            holds_neighbours(mask@, w, before),
        decreases unlabelled(labels@) + s@.len() - head,
    {
        let u = look_around(mask, width, height, labels, &mut s, head, label, Ghost(seed as int), Ghost(before), Ghost(up));
        proof {
            up = u@;
        }
        head += 1;
    }
    proof {
        assert forall|i: int| #![trigger linked(mask@, w, seed as int, i)] 0 <= i < mask@.len() implies (linked(mask@, w, seed as int, i) <==> s@.contains(i as usize)) by {
            if linked(mask@, w, seed as int, i) {
                let p = choose|p: Seq<int>| walk(mask@, w, p, seed as int, i);
                assert(s@[0] == seed);
                assert(s@.contains(seed));
                lemma_list_spreads(mask@, w, s@, p, seed as int, i);
            }
            if s@.contains(i as usize) {
                let t = choose|t: int| 0 <= t < s@.len() && s@[t] == i as usize;
                assert(linked(mask@, w, seed as int, s@[t] as int));
            }
        }
        assert forall|a: int| 1 <= a < s@.len() implies #[trigger] has_parent(w, s@, a) by {
            assert(is_parent(w, s@, a, up[a]));
        }
        assert forall|a: int, b: int, p: int, q: int| 1 <= a < b < s@.len() && #[trigger] is_parent(w, s@, a, p) && #[trigger] is_parent(w, s@, b, q) implies p < q || (p == q && s@[a] < s@[b]) by {
            assert(is_parent(w, s@, a, up[a]));
            assert(is_parent(w, s@, b, up[b]));
            lemma_parent_unique(w, s@, a, p, up[a]);
            lemma_parent_unique(w, s@, b, q, up[b]);
        }
        assert forall|i: int| 0 <= i < mask@.len() && #[trigger] linked(mask@, w, seed as int, i) implies before[i] < 0 by {
            let t = choose|t: int| 0 <= t < s@.len() && s@[t] == i as usize;
            assert(before[s@[t] as int] < 0);
        }
        assert forall|i: int, j: int| 0 <= i < labels@.len() && #[trigger] labels@[i] >= 0 && marked(mask@, j) && #[trigger] near8(w, i, j) implies labels@[j] >= 0 by {
            if linked(mask@, w, seed as int, i) {
                lemma_extend(mask@, w, seed as int, i, j);
            } else {
                assert(before[i] >= 0);
                assert(before[j] >= 0);
            }
            assert(labels@[j] == if s@.contains(j as usize) { label } else { before[j] });
        }
        assert forall|a: int| 0 <= a < s@.len() implies (#[trigger] s@[a]) < mask@.len() by {
            assert(marked(mask@, s@[a] as int));
        }
    }
    s
}

proof fn lemma_parent_unique(w: int, s: Seq<usize>, a: int, p: int, q: int)
    requires
        is_parent(w, s, a, p),
        is_parent(w, s, a, q),
    ensures
        p == q,
{
    if p < q {
        assert(near8(w, s[p] as int, s[a] as int));
    } else if q < p {
        assert(near8(w, s[q] as int, s[a] as int));
    }
}

pub(crate) proof fn lemma_roots(mask: Seq<u8>, w: int, n: nat)
    ensures
        forall|l: int|
            0 <= l < roots(mask, w, n).len() ==> is_root(mask, w, #[trigger] roots(mask, w, n)[l])
                && roots(mask, w, n)[l] < n,
        roots(mask, w, n).len() <= n,
    decreases n,
{
    if n > 0 {
        lemma_roots(mask, w, (n - 1) as nat);
    }
}

/// A marked pixel below `n` belongs to a component that starts below `n`.
pub(crate) proof fn lemma_has_root(mask: Seq<u8>, w: int, n: nat, i: int) -> (l: int)
    requires
        marked(mask, i),
        i < n,
    ensures
        0 <= l < roots(mask, w, n).len(),
        linked(mask, w, roots(mask, w, n)[l], i),
    decreases n, i,
{
    let last = n - 1;
    if i < last {
        let l = lemma_has_root(mask, w, (n - 1) as nat, i);
        l
    } else if is_root(mask, w, i) {
        lemma_linked_self(mask, w, i);
        roots(mask, w, n).len() - 1
    } else {
        let k = choose|k: int| 0 <= k < i && linked(mask, w, k, i);
        let p = choose|p: Seq<int>| walk(mask, w, p, k, i);
        assert(marked(mask, p[0]));
        let l = lemma_has_root(mask, w, (n - 1) as nat, k);
        linked_is_transitive(mask, w, roots(mask, w, (n - 1) as nat)[l], k, i);
        l
    }
}

/// Splits a mask into its components.
pub fn extract_connected_components(mask: &[u8], width: usize, height: usize) -> (cc:
    ConnectedComponents)
    requires
        mask@.len() == 0 || width == 0 || height == 0 || mask@.len() == width * height,
        width * height <= usize::MAX,
    ensures
        cc.labels@.len() == width * height,
        mask@.len() == 0 || width == 0 || height == 0 ==> cc.pixels@.len() == 0 && (forall|i: int|
            0 <= i < cc.labels@.len() ==> #[trigger] cc.labels@[i] == -1),
        mask@.len() != 0 && width != 0 && height != 0 ==> {
            let starts = roots(mask@, width as int, mask@.len());
            &&& cc.pixels@.len() == starts.len()
            &&& forall|l: int|
                0 <= l < starts.len() ==> breadth_first(
                    mask@,
                    width as int,
                    #[trigger] starts[l],
                    cc.pixels@[l]@,
                )
            &&& forall|i: int|
                0 <= i < mask@.len() ==> (#[trigger] cc.labels@[i] == -1 <==> mask@[i] == 0)
            &&& forall|i: int, l: int|
                0 <= i < mask@.len() && 0 <= l < starts.len() && #[trigger] linked(
                    mask@,
                    width as int,
                    starts[l],
                    i,
                ) ==> cc.labels@[i] == label_value(l)
        },
{
    let mut labels: Vec<i32> = Vec::new();
    let total: usize = width * height;
    let mut k: usize = 0;
    while k < total
        invariant
            k <= total,
            labels@.len() == k,
            forall|i: int| 0 <= i < k ==> #[trigger] labels@[i] == -1,
        decreases total - k,
    {
        labels.push(-1);
        k += 1;
    }
    let mut pixels: Vec<Vec<usize>> = Vec::new();
    if mask.len() == 0 || width == 0 || height == 0 {
        assert(width == 0 || height == 0 ==> width * height == 0) by (nonlinear_arith);
        return ConnectedComponents { labels, pixels };
    }
    let ghost w = width as int;
    let mut label: i32 = 0;
    let mut seed: usize = 0;
    while seed < mask.len()
        invariant
            mask@.len() == width * height,
            width > 0,
            height > 0,
            w == width,
            seed <= mask@.len(),
            labels@.len() == mask@.len(),
            holds_neighbours(mask@, w, labels@),
            pixels@.len() == roots(mask@, w, seed as nat).len(),
            label == label_value(pixels@.len() as int),
            forall|l: int|
                0 <= l < pixels@.len() ==> breadth_first(
                    mask@,
                    w,
                    roots(mask@, w, seed as nat)[l],
                    #[trigger] pixels@[l]@,
                ),
            forall|i: int| 0 <= i < mask@.len() && mask@[i] == 0 ==> #[trigger] labels@[i] == -1,
            forall|i: int| 0 <= i < mask@.len() ==> #[trigger] labels@[i] >= -1,
            forall|i: int, l: int|
                0 <= i < mask@.len() && 0 <= l < pixels@.len() && #[trigger] linked(
                    mask@,
                    w,
                    roots(mask@, w, seed as nat)[l],
                    i,
                ) ==> labels@[i] == label_value(l),
            forall|i: int|
                0 <= i < mask@.len() && #[trigger] labels@[i] >= 0 ==> exists|l: int|
                    0 <= l < pixels@.len() && #[trigger] linked(mask@, w, roots(mask@, w, seed as nat)[l], i),
        decreases mask@.len() - seed,
    {
        let ghost before = roots(mask@, w, seed as nat);
        let ghost after = roots(mask@, w, (seed + 1) as nat);
        proof {
            lemma_roots(mask@, w, seed as nat);
        }
        if mask[seed] == 0 || labels[seed] >= 0 {
            proof {
                assert(!is_root(mask@, w, seed as int)) by {
                    if marked(mask@, seed as int) {
                        let l = choose|l: int| 0 <= l < pixels@.len() && #[trigger] linked(mask@, w, before[l], seed as int);
                        assert(is_root(mask@, w, before[l]));
                    }
                }
                assert(after == before);
            }
            seed += 1;
            continue;
        }
        let ghost labels0 = labels@;
        let ghost pixels0 = pixels@;
        proof {
            assert(is_root(mask@, w, seed as int)) by {
                assert forall|j: int| 0 <= j < seed implies !linked(mask@, w, j, seed as int) by {
                    if linked(mask@, w, j, seed as int) {
                        let p = choose|p: Seq<int>| walk(mask@, w, p, j, seed as int);
                        assert(marked(mask@, p[0]));
                        let l = lemma_has_root(mask@, w, seed as nat, j);
                        linked_is_transitive(mask@, w, before[l], j, seed as int);
                        assert(labels@[seed as int] == label_value(l));
                    }
                }
            }
            assert(after == before.push(seed as int));
        }
        let s = spread(mask, width, height, &mut labels, seed, label);
        pixels.push(s);
        proof {
            assert forall|i: int, l: int| 0 <= i < mask@.len() && 0 <= l < pixels@.len() && #[trigger] linked(mask@, w, after[l], i) implies labels@[i] == label_value(l) by {
                if l < pixels0.len() {
                    assert(linked(mask@, w, before[l], i));
                    assert(labels0[i] == label_value(l));
                }
            }
            assert forall|i: int| 0 <= i < mask@.len() && #[trigger] labels@[i] >= 0 implies exists|l: int| 0 <= l < pixels@.len() && #[trigger] linked(mask@, w, after[l], i) by {
                if linked(mask@, w, seed as int, i) {
                    assert(linked(mask@, w, after[pixels0.len() as int], i));
                } else {
                    assert(labels0[i] >= 0);
                    let l = choose|l: int| 0 <= l < pixels0.len() && #[trigger] linked(mask@, w, before[l], i);
                    assert(linked(mask@, w, after[l], i));
                }
            }
            assert forall|l: int| 0 <= l < pixels@.len() implies breadth_first(mask@, w, after[l], #[trigger] pixels@[l]@) by {
                if l < pixels0.len() {
                    assert(pixels@[l] == pixels0[l]);
                }
            }
            assert forall|i: int| 0 <= i < mask@.len() && mask@[i] == 0 implies #[trigger] labels@[i] == -1 by {
                if linked(mask@, w, seed as int, i) {
                    let p = choose|p: Seq<int>| walk(mask@, w, p, seed as int, i);
                    assert(marked(mask@, p[p.len() - 1]));
                }
                assert(labels0[i] == -1);
            }
            assert forall|i: int| 0 <= i < mask@.len() implies #[trigger] labels@[i] >= -1 by {
                assert(labels0[i] >= -1);
            }
        }
        label = if label == i32::MAX { label } else { label + 1 };
        seed += 1;
    }
    proof {
        let starts = roots(mask@, w, mask@.len());
        assert forall|l: int| 0 <= l < starts.len() implies breadth_first(mask@, w, #[trigger] starts[l], pixels@[l]@) by {
            assert(pixels@[l]@ == pixels@[l]@);
        }
        assert forall|i: int| 0 <= i < mask@.len() implies (#[trigger] labels@[i] == -1 <==> mask@[i] == 0) by {
            if mask@[i] != 0 {
                let l = lemma_has_root(mask@, w, mask@.len(), i);
                assert(linked(mask@, w, starts[l], i));
            }
        }
    }
    ConnectedComponents { labels, pixels }
}

} // verus!
