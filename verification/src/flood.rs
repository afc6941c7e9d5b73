//! Flood fill over the four-neighbourhood of a picture.

use vstd::prelude::*;
use crate::raster::{Grid, Raster};
#[allow(unused_imports)]
use crate::raster::{grid_of, lemma_grid_of, lemma_position, lemma_with_at};

verus! {

/// `(x, y)` is an open pixel that at most `n` side steps over open pixels part from an open seed.
pub open spec fn reached_in(open: Grid<bool>, seeds: Grid<bool>, n: nat, x: int, y: int) -> bool
    decreases n,
{
    &&& open.inside(x, y)
    &&& open.at(x, y)
    &&& if n == 0 {
        seeds.at(x, y)
    } else {
        let m = (n - 1) as nat;
        ||| reached_in(open, seeds, m, x, y)
        ||| reached_in(open, seeds, m, x - 1, y)
        ||| reached_in(open, seeds, m, x + 1, y)
        ||| reached_in(open, seeds, m, x, y - 1)
        ||| reached_in(open, seeds, m, x, y + 1)
    }
}

/// `(x, y)` is connected to a seed by open pixels.
pub open spec fn reached(open: Grid<bool>, seeds: Grid<bool>, x: int, y: int) -> bool {
    exists|n: nat| reached_in(open, seeds, n, x, y)
}

/// `(x, y)` lies on the frame of the picture.
pub open spec fn on_frame(w: int, h: int, x: int, y: int) -> bool {
    x == 0 || y == 0 || x == w - 1 || y == h - 1
}

/// The picture that marks every frame pixel.
pub open spec fn frame_seeds(w: int, h: int) -> Grid<bool> {
    grid_of(w, h, |x: int, y: int| on_frame(w, h, x, y))
}

spec fn unvisited(px: Seq<bool>) -> nat
    decreases px.len(),
{
    if px.len() == 0 {
        0
    } else {
        unvisited(px.drop_last()) + if px.last() { 0nat } else { 1nat }
    }
}

proof fn lemma_visit_one(px: Seq<bool>, i: int)
    requires
        0 <= i < px.len(),
        !px[i],
    ensures
        unvisited(px.update(i, true)) + 1 == unvisited(px),
    decreases px.len(),
{
    if i == px.len() - 1 {
        assert(px.update(i, true).drop_last() =~= px.drop_last());
    } else {
        assert(px.update(i, true).drop_last() =~= px.drop_last().update(i, true));
        lemma_visit_one(px.drop_last(), i);
    }
}

spec fn settled(open: Grid<bool>, seen: Grid<bool>, x: int, y: int) -> bool {
    open.inside(x, y) && open.at(x, y) ==> seen.at(x, y)
}

spec fn closed_around(open: Grid<bool>, seen: Grid<bool>, x: int, y: int) -> bool {
    &&& settled(open, seen, x - 1, y)
    &&& settled(open, seen, x + 1, y)
    &&& settled(open, seen, x, y - 1)
    &&& settled(open, seen, x, y + 1)
}

/// What holds of the visited pixels at any moment of the fill.
spec fn sound(
    open: Grid<bool>,
    seeds: Grid<bool>,
    seen: Grid<bool>,
    stack: Seq<(usize, usize)>,
) -> bool {
    &&& seen.valid()
    &&& seen.same_size(open)
    &&& forall|x: int, y: int|
        open.inside(x, y) && #[trigger] seen.at(x, y) ==> open.at(x, y) && reached(
            open,
            seeds,
            x,
            y,
        )
    &&& forall|i: int|
        0 <= i < stack.len() ==> open.inside(#[trigger] stack[i].0 as int, stack[i].1 as int)
            && seen.at(stack[i].0 as int, stack[i].1 as int)
}

/// Every visited pixel waits on the stack, is the one at hand, or has only visited neighbours.
spec fn closed(
    open: Grid<bool>,
    seen: Grid<bool>,
    stack: Seq<(usize, usize)>,
    hand: Option<(int, int)>,
) -> bool {
    forall|x: int, y: int|
        open.inside(x, y) && #[trigger] seen.at(x, y) ==> hand == Some((x, y))
            || stack.contains((x as usize, y as usize)) || closed_around(open, seen, x, y)
}

spec fn seeded(open: Grid<bool>, seeds: Grid<bool>, seen: Grid<bool>) -> bool {
    forall|x: int, y: int|
        open.inside(x, y) && #[trigger] open.at(x, y) && seeds.at(x, y) ==> seen.at(x, y)
}

proof fn lemma_complete(open: Grid<bool>, seeds: Grid<bool>, seen: Grid<bool>, n: nat, x: int, y: int)
    requires
        seeded(open, seeds, seen),
        closed(open, seen, Seq::<(usize, usize)>::empty(), None),
        reached_in(open, seeds, n, x, y),
    ensures
        seen.at(x, y),
    decreases n,
{
    if n > 0 {
        let m = (n - 1) as nat;
        if reached_in(open, seeds, m, x, y) {
            lemma_complete(open, seeds, seen, m, x, y);
        } else if reached_in(open, seeds, m, x - 1, y) {
            lemma_complete(open, seeds, seen, m, x - 1, y);
            assert(closed_around(open, seen, x - 1, y));
        } else if reached_in(open, seeds, m, x + 1, y) {
            lemma_complete(open, seeds, seen, m, x + 1, y);
            assert(closed_around(open, seen, x + 1, y));
        } else if reached_in(open, seeds, m, x, y - 1) {
            lemma_complete(open, seeds, seen, m, x, y - 1);
            assert(closed_around(open, seen, x, y - 1));
        } else {
            assert(reached_in(open, seeds, m, x, y + 1));
            lemma_complete(open, seeds, seen, m, x, y + 1);
            assert(closed_around(open, seen, x, y + 1));
        }
    }
}

fn try_visit(
    open: &Raster<bool>,
    seen: &mut Raster<bool>,
    stack: &mut Vec<(usize, usize)>,
    x: usize,
    y: usize,
    Ghost(seeds): Ghost<Grid<bool>>,
    Ghost(hand): Ghost<Option<(int, int)>>,
)
    requires
        open.wf(),
        open@.inside(x as int, y as int),
        old(seen)@.valid(),
        sound(open@, seeds, old(seen)@, old(stack)@),
        closed(open@, old(seen)@, old(stack)@, hand),
        open@.at(x as int, y as int) ==> reached(open@, seeds, x as int, y as int),
    ensures
        final(seen)@.valid(),
        sound(open@, seeds, final(seen)@, final(stack)@),
        closed(open@, final(seen)@, final(stack)@, hand),
        settled(open@, final(seen)@, x as int, y as int),
        forall|a: int, b: int|
            open@.inside(a, b) && #[trigger] old(seen)@.at(a, b) ==> final(seen)@.at(a, b),
        unvisited(final(seen)@.px) + final(stack)@.len() == unvisited(old(seen)@.px) + old(
            stack,
        )@.len(),
        unvisited(final(seen)@.px) <= unvisited(old(seen)@.px),
{
    broadcast use lemma_with_at;

    if open.get(x, y) && !seen.get(x, y) {
        let ghost before = seen@;
        let ghost stack0 = stack@;
        proof {
            crate::raster::lemma_offset(before.w, before.h, x as int, y as int);
            lemma_visit_one(before.px, y * before.w + x);
        }
        seen.set(x, y, true);
        stack.push((x, y));
        assert forall|a: int, b: int| open@.inside(a, b) && #[trigger] seen@.at(a, b) implies hand
            == Some((a, b)) || stack@.contains((a as usize, b as usize)) || closed_around(
            open@,
            seen@,
            a,
            b,
        ) by {
            if a == x && b == y {
                assert(stack@[stack0.len() as int] == (x, y));
                assert(stack@.contains((x, y)));
            } else {
                assert(before.at(a, b));
                if stack0.contains((a as usize, b as usize)) {
                    let k = choose|k: int|
                        0 <= k < stack0.len() && stack0[k] == (a as usize, b as usize);
                    assert(stack@[k] == (a as usize, b as usize));
                }
            }
        }
    }
}

/// The open pixels that a walk over open pixels reaches from an open seed.
pub fn flood(open: &Raster<bool>, seeds: &Raster<bool>) -> (seen: Raster<bool>)
    requires
        open.wf(),
        seeds.wf(),
        seeds@.same_size(open@),
    ensures
        seen.wf(),
        seen@.same_size(open@),
        forall|x: int, y: int|
            open@.inside(x, y) ==> #[trigger] seen@.at(x, y) == reached(open@, seeds@, x, y),
{
    let w: usize = open.w;
    let n: usize = open.px.len();
    let mut seen = Raster::<bool>::filled(open.w, open.h, false);
    let mut stack: Vec<(usize, usize)> = Vec::new();
    let mut i: usize = 0;
    proof {
        lemma_grid_of(open@.w, open@.h, |x: int, y: int| false);
    }
    while i < n
        invariant
            i <= n,
            n == open@.px.len(),
            w == open.w,
            open.wf(),
            seeds.wf(),
            seeds@.same_size(open@),
            seen@.valid(),
            sound(open@, seeds@, seen@, stack@),
            closed(open@, seen@, stack@, None),
            forall|k: int|
                0 <= k < i && #[trigger] open@.px[k] && seeds@.px[k] ==> seen@.px[k],
        decreases n - i,
    {
        proof {
            lemma_position(open@.w, open@.h, i as int);
        }
        let x: usize = i % w;
        let y: usize = i / w;
        let ghost before = seen@;
        if seeds.get(x, y) {
            assert(open@.at(x as int, y as int) ==> reached_in(open@, seeds@, 0, x as int, y as int));
            try_visit(open, &mut seen, &mut stack, x, y, Ghost(seeds@), Ghost(None));
        }
        proof {
            assert forall|k: int| 0 <= k < i + 1 && #[trigger] open@.px[k] && seeds@.px[k] implies seen@.px[k] by {
                lemma_position(open@.w, open@.h, k);
                if k < i {
                    assert(before.at(k % open@.w, k / open@.w));
                    assert(seen@.at(k % open@.w, k / open@.w));
                } else {
                    assert(settled(open@, seen@, x as int, y as int));
                }
            }
        }
        i += 1;
    }
    assert(seeded(open@, seeds@, seen@)) by {
        assert forall|x: int, y: int| open@.inside(x, y) && #[trigger] open@.at(x, y) && seeds@.at(x, y) implies seen@.at(x, y) by {
            crate::raster::lemma_offset(open@.w, open@.h, x, y);
        }
    }
    while stack.len() > 0
        invariant
            open.wf(),
            seen@.valid(),
            sound(open@, seeds@, seen@, stack@),
            closed(open@, seen@, stack@, None),
            seeded(open@, seeds@, seen@),
        decreases unvisited(seen@.px) + stack@.len(),
    {
        let ghost stack0 = stack@;
        let (x, y) = match stack.pop() {
            Some(p) => p,
            None => {
                return seen;
            },
        };
        let ghost hand: Option<(int, int)> = Some((x as int, y as int));
        proof {
            assert(stack0.last() == (x, y));
            assert(open@.inside(stack0[stack0.len() - 1].0 as int, stack0[stack0.len() - 1].1 as int));
            let m = choose|m: nat| reached_in(open@, seeds@, m, x as int, y as int);
            assert(reached_in(open@, seeds@, m, x as int, y as int));
            let a = x as int;
            let b = y as int;
            if open@.inside(a - 1, b) && open@.at(a - 1, b) {
                assert(reached_in(open@, seeds@, m + 1, a - 1, b));
            }
            if open@.inside(a + 1, b) && open@.at(a + 1, b) {
                assert(reached_in(open@, seeds@, m + 1, a + 1, b));
            }
            if open@.inside(a, b - 1) && open@.at(a, b - 1) {
                assert(reached_in(open@, seeds@, m + 1, a, b - 1));
            }
            if open@.inside(a, b + 1) && open@.at(a, b + 1) {
                assert(reached_in(open@, seeds@, m + 1, a, b + 1));
            }
            assert forall|c: int, d: int| open@.inside(c, d) && #[trigger] seen@.at(c, d) implies hand
                == Some((c, d)) || stack@.contains((c as usize, d as usize)) || closed_around(
                open@,
                seen@,
                c,
                d,
            ) by {
                if stack0.contains((c as usize, d as usize)) {
                    let k = choose|k: int|
                        0 <= k < stack0.len() && stack0[k] == (c as usize, d as usize);
                    if k < stack0.len() - 1 {
                        assert(stack@[k] == (c as usize, d as usize));
                    }
                }
            }
        }
        let ghost s0 = seen@;
        if x > 0 {
            try_visit(open, &mut seen, &mut stack, x - 1, y, Ghost(seeds@), Ghost(hand));
        }
        let ghost s1 = seen@;
        if x + 1 < open.w {
            try_visit(open, &mut seen, &mut stack, x + 1, y, Ghost(seeds@), Ghost(hand));
        }
        let ghost s2 = seen@;
        if y > 0 {
            try_visit(open, &mut seen, &mut stack, x, y - 1, Ghost(seeds@), Ghost(hand));
        }
        let ghost s3 = seen@;
        if y + 1 < open.h {
            try_visit(open, &mut seen, &mut stack, x, y + 1, Ghost(seeds@), Ghost(hand));
        }
        proof {
            let a = x as int;
            let b = y as int;
            assert(settled(open@, s1, a - 1, b));
            assert(settled(open@, s2, a - 1, b));
            assert(settled(open@, s3, a - 1, b));
            assert(settled(open@, s2, a + 1, b));
            assert(settled(open@, s3, a + 1, b));
            assert(settled(open@, s3, a, b - 1));
            assert(closed_around(open@, seen@, a, b));
        }
    }
    proof {
        assert(stack@ =~= Seq::<(usize, usize)>::empty());
        assert forall|x: int, y: int| open@.inside(x, y) implies #[trigger] seen@.at(x, y) == reached(
            open@,
            seeds@,
            x,
            y,
        ) by {
            if reached(open@, seeds@, x, y) {
                let m = choose|m: nat| reached_in(open@, seeds@, m, x, y);
                lemma_complete(open@, seeds@, seen@, m, x, y);
            }
        }
    }
    seen
}

/// Marks the frame pixels of a picture.
pub fn frame(w: usize, h: usize) -> (r: Raster<bool>)
    requires
        w * h <= usize::MAX,
    ensures
        r.wf(),
        r@ == frame_seeds(w as int, h as int),
{
    let n: usize = w * h;
    let mut px: Vec<bool> = Vec::new();
    let mut i: usize = 0;
    while i < n
        invariant
            i <= n,
            n == w * h,
            px@ == Seq::new(i as nat, |k: int| on_frame(w as int, h as int, k % (w as int), k / (w as int))),
        decreases n - i,
    {
        proof {
            lemma_position(w as int, h as int, i as int);
        }
        let x: usize = i % w;
        let y: usize = i / w;
        px.push(x == 0 || y == 0 || x == w - 1 || y == h - 1);
        i += 1;
        assert(px@ =~= Seq::new(i as nat, |k: int| on_frame(w as int, h as int, k % (w as int), k / (w as int))));
    }
    let r = Raster { w, h, px };
    assert(r@ =~= frame_seeds(w as int, h as int));
    r
}

} // verus!
