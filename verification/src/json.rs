//! JSON documents: what the `serde_json` crate holds, reads and writes.

use vstd::prelude::*;

verus! {

/// A JSON document as a mathematical value.  A number is given by the text it is written as.
pub enum Json {
    Null,
    Bool(bool),
    Number(Seq<char>),
    Text(Seq<char>),
    List(Seq<Json>),
    Fields(Map<Seq<char>, Json>),
}

#[verifier::external_type_specification]
#[verifier::external_body]
pub struct ExJsonValue(serde_json::Value);

#[verifier::external_type_specification]
#[verifier::external_body]
pub struct ExJsonError(serde_json::Error);

/// The document that a `serde_json::Value` holds.
pub uninterp spec fn json_of(v: serde_json::Value) -> Json;

/// What `serde_json::from_str` reads from a text; nothing where it fails.
pub uninterp spec fn parsed_json(text: Seq<char>) -> Option<Json>;

/// The text that `serde_json::to_string_pretty` writes a document as.
pub uninterp spec fn pretty_json(j: Json) -> Seq<char>;

/// The member of an object under a key.
pub open spec fn member(j: Json, key: Seq<char>) -> Option<Json> {
    match j {
        Json::Fields(m) => if m.contains_key(key) {
            Some(m[key])
        } else {
            None
        },
        _ => None,
    }
}

/// The text at a place of a document that holds one.
pub open spec fn text_at(j: Option<Json>) -> Option<Seq<char>> {
    match j {
        Some(Json::Text(s)) => Some(s),
        _ => None,
    }
}

/// The truth value at a place of a document that holds one.
pub open spec fn flag_at(j: Option<Json>) -> Option<bool> {
    match j {
        Some(Json::Bool(b)) => Some(b),
        _ => None,
    }
}

/// What an object of a document holds under a key: nothing unless both are there.
pub open spec fn entry(j: Json, section: Seq<char>, key: Seq<char>) -> Option<Json> {
    match member(j, section) {
        Some(s) => member(s, key),
        None => None,
    }
}

/// Lists and objects are nested at most `depth` deep.
pub open spec fn nested_at_most(j: Json, depth: nat) -> bool
    decreases depth,
{
    match j {
        Json::List(items) => depth > 0 && forall|i: int|
            0 <= i < items.len() ==> nested_at_most(#[trigger] items[i], (depth - 1) as nat),
        Json::Fields(m) => depth > 0 && forall|k: Seq<char>|
            m.contains_key(k) ==> nested_at_most(#[trigger] m[k], (depth - 1) as nat),
        _ => true,
    }
}

/// How deep lists and objects may be nested in a text that is read.
pub const NESTING_LIMIT: u64 = 127;

pub open spec fn all_of(items: Seq<serde_json::Value>) -> Seq<Json> {
    items.map_values(|v: serde_json::Value| json_of(v))
}

/// The items of a text that is a list.
pub open spec fn parsed_list(text: Seq<char>) -> Option<Seq<Json>> {
    match parsed_json(text) {
        Some(Json::List(items)) => Some(items),
        _ => None,
    }
}

/// A text of a document that is not nested too deep is read again, with the same texts and truth
/// values two levels down.
pub open spec fn reads_back(text: Seq<char>, j: Json) -> bool {
    nested_at_most(j, NESTING_LIMIT as nat) ==> {
        &&& parsed_json(text) is Some
        &&& forall|s: Seq<char>, k: Seq<char>| #[trigger]
            text_at(entry(parsed_json(text)->0, s, k)) == text_at(entry(j, s, k))
        &&& forall|s: Seq<char>, k: Seq<char>| #[trigger]
            flag_at(entry(parsed_json(text)->0, s, k)) == flag_at(entry(j, s, k))
    }
}

/// Calls `serde_json::from_str` for one value.  What it reads is a function of the text, and is
/// never nested deeper than the reader's recursion limit allows.
#[verifier::external_body]
pub(crate) fn parse_json(text: &str) -> (r: Result<serde_json::Value, serde_json::Error>)
    ensures
        r is Ok <==> parsed_json(text@) is Some,
        r is Ok ==> Some(json_of(r->Ok_0)) == parsed_json(text@),
        r is Ok ==> nested_at_most(json_of(r->Ok_0), NESTING_LIMIT as nat),
{
    serde_json::from_str::<serde_json::Value>(text)
}

/// Calls `serde_json::from_str` for a list of values.  It succeeds exactly where the text is a
/// document that is a list, and gives the items of that list.
#[verifier::external_body]
pub(crate) fn parse_json_list(text: &str) -> (r: Result<Vec<serde_json::Value>, serde_json::Error>)
    ensures
        r is Ok <==> parsed_list(text@) is Some,
        r is Ok ==> parsed_list(text@) == Some(all_of((r->Ok_0)@)),
{
    serde_json::from_str::<Vec<serde_json::Value>>(text)
}

/// Calls `serde_json::to_string_pretty` on a value.  The text is a function of the document, and
/// writing a value never fails.  A document that is not nested too deep is read back from its
/// text with the same texts and truth values two levels down; of numbers nothing is claimed.
#[verifier::external_body]
pub(crate) fn write_json(v: &serde_json::Value) -> (r: Result<String, serde_json::Error>)
    ensures
        r is Ok,
        (r->Ok_0)@ == pretty_json(json_of(*v)),
        reads_back((r->Ok_0)@, json_of(*v)),
{
    serde_json::to_string_pretty(v)
}

/// Calls `serde_json::to_string_pretty` on a list of values, which never fails: the text is that
/// of the document which is the list.
#[verifier::external_body]
pub(crate) fn write_json_list(items: &Vec<serde_json::Value>) -> (r: Result<String, serde_json::Error>)
    ensures
        r is Ok,
        (r->Ok_0)@ == pretty_json(Json::List(all_of(items@))),
{
    serde_json::to_string_pretty(items)
}

/// Calls `serde_json::Value::get` with a key: the member of an object under that key.
#[verifier::external_body]
pub(crate) fn json_member<'a>(v: &'a serde_json::Value, key: &str) -> (r: Option<
    &'a serde_json::Value,
>)
    ensures
        r is Some <==> member(json_of(*v), key@) is Some,
        r is Some ==> Some(json_of(*r->0)) == member(json_of(*v), key@),
{
    v.get(key)
}

/// Calls `serde_json::Value::is_object`.
#[verifier::external_body]
pub(crate) fn json_is_object(v: &serde_json::Value) -> (r: bool)
    ensures
        r == (json_of(*v) is Fields),
{
    v.is_object()
}

/// Calls `serde_json::Value::as_str`: the text of a document that is one.
#[verifier::external_body]
pub(crate) fn json_text<'a>(v: &'a serde_json::Value) -> (r: Option<&'a str>)
    ensures
        r is Some <==> json_of(*v) is Text,
        r is Some ==> json_of(*v) == Json::Text((r->0)@),
{
    v.as_str()
}

/// Calls `serde_json::Value::as_bool`: the truth value of a document that is one.
#[verifier::external_body]
pub(crate) fn json_flag(v: &serde_json::Value) -> (r: Option<bool>)
    ensures
        r == flag_at(Some(json_of(*v))),
{
    v.as_bool()
}

/// Makes a `serde_json::Value` of a text.
#[verifier::external_body]
pub(crate) fn json_from_text(text: &str) -> (v: serde_json::Value)
    ensures
        json_of(v) == Json::Text(text@),
{
    serde_json::Value::from(text)
}

/// Calls `serde_json::Map::new` for an object without members.
#[verifier::external_body]
pub(crate) fn json_empty_object() -> (v: serde_json::Value)
    ensures
        json_of(v) == Json::Fields(Map::empty()),
{
    serde_json::Value::Object(serde_json::Map::new())
}

/// Calls `serde_json::Map::insert` on the members of an object: the key then holds the new member
/// and every other key what it held.
#[verifier::external_body]
pub(crate) fn json_insert(target: &mut serde_json::Value, key: &str, value: serde_json::Value)
    requires
        json_of(*old(target)) is Fields,
    ensures
        json_of(*final(target)) == Json::Fields(
            json_of(*old(target))->Fields_0.insert(key@, json_of(value)),
        ),
{
    if let Some(members) = target.as_object_mut() {
        members.insert(key.to_string(), value);
    }
}

/// Calls `serde_json::Value::clone`: the copy holds the same document.
#[verifier::external_body]
pub(crate) fn json_copy(v: &serde_json::Value) -> (r: serde_json::Value)
    ensures
        json_of(r) == json_of(*v),
{
    v.clone()
}

/// A copy of a list of documents.
pub(crate) fn copy_documents(items: &Vec<serde_json::Value>) -> (r: Vec<serde_json::Value>)
    ensures
        all_of(r@) == all_of(items@),
{
    let mut out: Vec<serde_json::Value> = Vec::new();
    let mut i: usize = 0;
    while i < items.len()
        invariant
            i <= items@.len(),
            all_of(out@) == all_of(items@).take(i as int),
        decreases items@.len() - i,
    {
        let ghost before = out@;
        out.push(json_copy(&items[i]));
        i += 1;
        assert(all_of(out@) =~= all_of(before).push(json_of(items@[i - 1])));
        assert(all_of(out@) =~= all_of(items@).take(i as int));
    }
    assert(all_of(items@).take(items@.len() as int) =~= all_of(items@));
    out
}

} // verus!
