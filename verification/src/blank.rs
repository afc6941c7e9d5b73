//! Blank texts and texts without blanks at their ends.

use vstd::prelude::*;

verus! {

/// The character is white space.
pub open spec fn is_white(c: char) -> bool {
    let n = c as u32;
    ||| 0x9 <= n <= 0xD
    ||| n == 0x20
    ||| n == 0x85
    ||| n == 0xA0
    ||| n == 0x1680
    ||| 0x2000 <= n <= 0x200A
    ||| n == 0x2028
    ||| n == 0x2029
    ||| n == 0x202F
    ||| n == 0x205F
    ||| n == 0x3000
}

/// The text without white space at its start.
pub open spec fn trimmed_start(s: Seq<char>) -> Seq<char>
    decreases s.len(),
{
    if s.len() > 0 && is_white(s[0]) {
        trimmed_start(s.drop_first())
    } else {
        s
    }
}

/// The text without white space at its end.
pub open spec fn trimmed_end(s: Seq<char>) -> Seq<char>
    decreases s.len(),
{
    if s.len() > 0 && is_white(s.last()) {
        trimmed_end(s.drop_last())
    } else {
        s
    }
}

/// The text without white space at its ends.
pub open spec fn trimmed(s: Seq<char>) -> Seq<char> {
    trimmed_end(trimmed_start(s))
}

/// Calls `str::trim`: the white space at both ends is left out, where white space is what has the
/// property `White_Space` of Unicode.
#[verifier::external_body]
pub(crate) fn trim<'a>(s: &'a str) -> (r: &'a str)
    ensures
        r@ == trimmed(s@),
{
    s.trim()
}

/// The text holds nothing but white space.
pub open spec fn blank(s: Seq<char>) -> bool {
    trimmed(s).len() == 0
}

pub fn is_blank(s: &str) -> (b: bool)
    ensures
        b == blank(s@),
{
    trim(s).is_empty()
}

proof fn lemma_trimmed_start(s: Seq<char>)
    ensures
        (forall|i: int| 0 <= i < s.len() ==> is_white(#[trigger] s[i])) ==> trimmed_start(s).len()
            == 0,
        !(forall|i: int| 0 <= i < s.len() ==> is_white(#[trigger] s[i])) ==> trimmed_start(s).len()
            > 0 && !is_white(trimmed_start(s)[0]),
    decreases s.len(),
{
    if s.len() > 0 && is_white(s[0]) {
        let t = s.drop_first();
        lemma_trimmed_start(t);
        if forall|i: int| 0 <= i < s.len() ==> is_white(#[trigger] s[i]) {
            assert forall|i: int| 0 <= i < t.len() implies is_white(#[trigger] t[i]) by {
                assert(t[i] == s[i + 1]);
            }
        } else {
            let k = choose|k: int| 0 <= k < s.len() && !is_white(#[trigger] s[k]);
            assert(k > 0);
            assert(t[k - 1] == s[k]);
        }
    }
}

proof fn lemma_trimmed_end(s: Seq<char>)
    requires
        s.len() > 0,
        !is_white(s[0]),
    ensures
        trimmed_end(s).len() > 0,
    decreases s.len(),
{
    if is_white(s.last()) {
        assert(s.len() > 1);
        assert(s.drop_last()[0] == s[0]);
        lemma_trimmed_end(s.drop_last());
    }
}

/// A text is blank exactly where all its characters are white space.
pub proof fn blank_means_all_white(s: Seq<char>)
    ensures
        blank(s) == (forall|i: int| 0 <= i < s.len() ==> is_white(#[trigger] s[i])),
{
    lemma_trimmed_start(s);
    if !(forall|i: int| 0 <= i < s.len() ==> is_white(#[trigger] s[i])) {
        lemma_trimmed_end(trimmed_start(s));
    }
}

} // verus!
