//! Stable sorting by keys.

use vstd::prelude::*;

verus! {

/// A key that is compared field by field.
#[derive(Clone, Copy, Debug, PartialEq, Eq, Structural)]
pub struct SortKey {
    pub a: i64,
    pub b: i64,
    pub place: usize,
    pub c: i64,
    pub d: i64,
}

impl SortKey {
    /// The key comes before another.
    pub open spec fn before(self, o: SortKey) -> bool {
        self.a < o.a || (self.a == o.a && (self.b < o.b || (self.b == o.b && (self.place < o.place
            || (self.place == o.place && (self.c < o.c || (self.c == o.c && self.d < o.d)))))))
    }
}

pub fn key_before(x: SortKey, y: SortKey) -> (r: bool)
    ensures
        r == x.before(y),
{
    x.a < y.a || (x.a == y.a && (x.b < y.b || (x.b == y.b && (x.place < y.place || (x.place
        == y.place && (x.c < y.c || (x.c == y.c && x.d < y.d)))))))
}

/// The place behind all items of a sorted list that do not come after the key, counted from `i`.
pub open spec fn place_from(keys: Seq<SortKey>, sorted: Seq<usize>, key: SortKey, i: int) -> int
    decreases sorted.len() - i,
{
    if i < 0 || i >= sorted.len() || key.before(keys[sorted[i] as int]) {
        i
    } else {
        place_from(keys, sorted, key, i + 1)
    }
}

/// The places of the first `n` keys in sorted order; of equal keys the earlier comes first.
pub open spec fn sorted_places(keys: Seq<SortKey>, n: int) -> Seq<usize>
    decreases n,
{
    if n <= 0 {
        Seq::empty()
    } else {
        let prev = sorted_places(keys, n - 1);
        prev.insert(place_from(keys, prev, keys[n - 1], 0), (n - 1) as usize)
    }
}

/// The item at place `i` comes before that at place `j`: by its key, or by its place where the
/// keys are equal.
pub open spec fn comes_first(keys: Seq<SortKey>, i: int, j: int) -> bool {
    keys[i].before(keys[j]) || (keys[i] == keys[j] && i < j)
}

pub proof fn lemma_place_from(keys: Seq<SortKey>, sorted: Seq<usize>, key: SortKey, i: int)
    requires
        0 <= i <= sorted.len(),
    ensures
        i <= place_from(keys, sorted, key, i) <= sorted.len(),
        forall|k: int|
            i <= k < place_from(keys, sorted, key, i) ==> !key.before(
                keys[#[trigger] sorted[k] as int],
            ),
        place_from(keys, sorted, key, i) < sorted.len() ==> key.before(
            keys[sorted[place_from(keys, sorted, key, i)] as int],
        ),
    decreases sorted.len() - i,
{
    if i < sorted.len() && !key.before(keys[sorted[i] as int]) {
        lemma_place_from(keys, sorted, key, i + 1);
    }
}

/// Sorting lists every place once, and each item stands before all that come after it.
pub proof fn sorting_is_stable(keys: Seq<SortKey>, n: int)
    requires
        0 <= n <= keys.len(),
        keys.len() <= usize::MAX,
    ensures
        sorted_places(keys, n).len() == n,
        forall|k: int| 0 <= k < n ==> 0 <= #[trigger] sorted_places(keys, n)[k] < n,
        forall|i: int, j: int|
            0 <= i < j < n ==> comes_first(
                keys,
                #[trigger] sorted_places(keys, n)[i] as int,
                #[trigger] sorted_places(keys, n)[j] as int,
            ),
        sorted_places(keys, n).no_duplicates(),
    decreases n,
{
    if n > 0 {
        sorting_is_stable(keys, n - 1);
        let prev = sorted_places(keys, n - 1);
        let key = keys[n - 1];
        let p = place_from(keys, prev, key, 0);
        lemma_place_from(keys, prev, key, 0);
        let out = sorted_places(keys, n);
        assert(out == prev.insert(p, (n - 1) as usize));
        assert forall|k: int| 0 <= k < n implies 0 <= #[trigger] out[k] < n by {
            if k < p {
                assert(out[k] == prev[k]);
            } else if k > p {
                assert(out[k] == prev[k - 1]);
            }
        }
        assert forall|i: int, j: int| 0 <= i < j < n implies comes_first(
            keys,
            #[trigger] out[i] as int,
            #[trigger] out[j] as int,
        ) by {
            if j < p {
                assert(out[i] == prev[i] && out[j] == prev[j]);
            } else if j == p {
                assert(out[i] == prev[i]);
                assert(!key.before(keys[prev[i] as int]));
            } else if i < p {
                assert(out[i] == prev[i] && out[j] == prev[j - 1]);
            } else if i == p {
                assert(out[j] == prev[j - 1]);
                assert(key.before(keys[prev[p] as int]));
                if j - 1 > p {
                    assert(comes_first(keys, prev[p] as int, prev[j - 1] as int));
                }
            } else {
                assert(out[i] == prev[i - 1] && out[j] == prev[j - 1]);
            }
        }
        assert forall|i: int, j: int| 0 <= i < out.len() && 0 <= j < out.len() && i != j implies out[i]
            != out[j] by {
            if i < j {
                assert(comes_first(keys, out[i] as int, out[j] as int));
            } else {
                assert(comes_first(keys, out[j] as int, out[i] as int));
            }
        }
    }
}

/// The places of the keys in sorted order.
pub fn stable_order(keys: &Vec<SortKey>) -> (out: Vec<usize>)
    ensures
        out@ == sorted_places(keys@, keys@.len() as int),
        out@.len() == keys@.len(),
        forall|k: int| 0 <= k < out@.len() ==> #[trigger] out@[k] < keys@.len(),
{
    let mut out: Vec<usize> = Vec::new();
    let mut n: usize = 0;
    assert(keys.len() <= usize::MAX);
    while n < keys.len()
        invariant
            n <= keys@.len(),
            keys@.len() <= usize::MAX,
            out@ == sorted_places(keys@, n as int),
        decreases keys@.len() - n,
    {
        let key = keys[n];
        proof {
            sorting_is_stable(keys@, n as int);
        }
        let mut p: usize = 0;
        while p < out.len() && !key_before(key, keys[out[p]])
            invariant
                p <= out@.len(),
                out@.len() == n,
                n < keys@.len(),
                forall|k: int| 0 <= k < n ==> 0 <= #[trigger] out@[k] < n,
                place_from(keys@, out@, key, 0) == place_from(keys@, out@, key, p as int),
            decreases out@.len() - p,
        {
            p += 1;
        }
        out.insert(p, n);
        n += 1;
    }
    proof {
        sorting_is_stable(keys@, keys@.len() as int);
    }
    out
}

} // verus!
