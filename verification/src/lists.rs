//! Lists that stand for sets.

use vstd::prelude::*;

verus! {

/// Whether a list holds a number.
pub(crate) fn holds_number(v: &Vec<usize>, x: usize) -> (b: bool)
    ensures
        b == v@.contains(x),
{
    let mut i: usize = 0;
    while i < v.len()
        invariant
            i <= v@.len(),
            forall|k: int| 0 <= k < i ==> v@[k] != x,
        decreases v@.len() - i,
    {
        if v[i] == x {
            assert(v@[i as int] == x);
            return true;
        }
        i += 1;
    }
    false
}

/// A list with one more element holds that and what it held.
pub(crate) proof fn lemma_push_contains<T>(s: Seq<T>, v: T, q: T)
    ensures
        s.push(v).contains(q) == (s.contains(q) || q == v),
{
    if s.contains(q) {
        let k = choose|k: int| 0 <= k < s.len() && s[k] == q;
        assert(s.push(v)[k] == q);
    }
    if q == v {
        assert(s.push(v)[s.len() as int] == q);
    }
    if s.push(v).contains(q) {
        let k = choose|k: int| 0 <= k < s.push(v).len() && s.push(v)[k] == q;
        if k < s.len() {
            assert(s[k] == q);
        }
    }
}

} // verus!
