//! Identifiers of layers and groups, and texts that are compared with them.

use vstd::prelude::*;
#[allow(unused_imports)]
use vstd::arithmetic::power::pow;

verus! {

/// The sign of a hexadecimal digit, in lower case.
pub open spec fn hex_sign(d: int) -> char {
    if d < 10 {
        ('0' as int + d) as char
    } else {
        ('a' as int + d - 10) as char
    }
}

/// The hexadecimal digit of an identifier at a place, counted from the highest of the 32.
pub open spec fn uid_digit(uid: u128, place: int) -> int {
    uid as int / pow(16, (31 - place) as nat) % 16
}

/// The text of an identifier: its 32 hexadecimal digits in groups of 8, 4, 4, 4 and 12, with
/// hyphens between them.
#[verifier::opaque]
pub open spec fn uid_text(uid: u128) -> Seq<char> {
    let group = |from: int, n: nat| Seq::new(n, |i: int| hex_sign(uid_digit(uid, from + i)));
    group(0, 8) + seq!['-'] + group(8, 4) + seq!['-'] + group(12, 4) + seq!['-'] + group(16, 4)
        + seq!['-'] + group(20, 12)
}

/// The identifier that the `uuid` crate reads from a text, if it reads one.
pub uninterp spec fn uid_read(text: Seq<char>) -> Option<u128>;

/// Calls `uuid::Uuid::to_string`, which writes the digits in groups with hyphens; reading the text
/// gives the identifier back.
#[verifier::external_body]
pub(crate) fn write_uid(uid: u128) -> (r: String)
    ensures
        r@ == uid_text(uid),
        uid_read(r@) == Some(uid),
{
    uuid::Uuid::from_u128(uid).to_string()
}

/// Calls `uuid::Uuid::parse_str`: what it reads is a function of the text.
#[verifier::external_body]
pub(crate) fn read_uid(text: &str) -> (r: Option<u128>)
    ensures
        r == uid_read(text@),
{
    uuid::Uuid::parse_str(text).ok().map(|u| u.as_u128())
}

/// The text of an identifier.
pub fn uid_to_string(uid: u128) -> (r: String)
    ensures
        r@ == uid_text(uid),
        uid_read(r@) == Some(uid),
{
    write_uid(uid)
}

/// The identifier that a text stands for; `fresh` where it stands for none.
pub open spec fn uid_or(text: Seq<char>, fresh: u128) -> u128 {
    match uid_read(text) {
        Some(u) => u,
        None => fresh,
    }
}

pub fn parse_uid_or(text: &str, fresh: u128) -> (r: u128)
    ensures
        r == uid_or(text@, fresh),
{
    match read_uid(text) {
        Some(u) => u,
        None => fresh,
    }
}

/// The identifier is written as this text.
pub fn uid_is(uid: u128, text: &String) -> (r: bool)
    ensures
        r == (uid_text(uid) == text@),
{
    let own = write_uid(uid);
    own == *text
}

pub open spec fn opt_text(t: Option<String>) -> Option<Seq<char>> {
    match t {
        Some(s) => Some(s@),
        None => None,
    }
}

pub fn copy_opt_text(t: &Option<String>) -> (r: Option<String>)
    ensures
        opt_text(r) == opt_text(*t),
{
    match t {
        Some(s) => Some(s.clone()),
        None => None,
    }
}

pub fn same_opt_text(a: &Option<String>, b: &Option<String>) -> (r: bool)
    ensures
        r == (opt_text(*a) == opt_text(*b)),
{
    match (a, b) {
        (Some(x), Some(y)) => *x == *y,
        (None, None) => true,
        _ => false,
    }
}

/// The texts of a list.
pub open spec fn texts(v: Seq<String>) -> Seq<Seq<char>> {
    v.map_values(|s: String| s@)
}

/// Whether a list holds a text.
pub fn holds_text(v: &Vec<String>, t: &String) -> (r: bool)
    ensures
        r == texts(v@).contains(t@),
{
    let mut i: usize = 0;
    while i < v.len()
        invariant
            i <= v@.len(),
            forall|k: int| 0 <= k < i ==> texts(v@)[k] != t@,
        decreases v@.len() - i,
    {
        if v[i] == *t {
            assert(texts(v@)[i as int] == t@);
            return true;
        }
        i += 1;
    }
    false
}

pub fn copy_texts(v: &Vec<String>) -> (r: Vec<String>)
    ensures
        texts(r@) == texts(v@),
{
    let mut out: Vec<String> = Vec::new();
    let mut i: usize = 0;
    while i < v.len()
        invariant
            i <= v@.len(),
            texts(out@) == texts(v@).take(i as int),
        decreases v@.len() - i,
    {
        let ghost before = out@;
        out.push(v[i].clone());
        i += 1;
        assert(texts(out@) =~= texts(before).push(v@[i - 1]@));
        assert(texts(out@) =~= texts(v@).take(i as int));
    }
    assert(texts(v@).take(v@.len() as int) =~= texts(v@));
    out
}

} // verus!
