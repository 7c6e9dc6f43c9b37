//! What is read out of JSON texts, and the few changes made to them.

use crate::text;
use vstd::prelude::*;

verus! {

/// What is wrong with a text as JSON, in `serde_json`'s words; nothing where it is JSON.
pub uninterp spec fn json_problem(payload: Seq<char>) -> Option<Seq<char>>;

/// The text under a key of a JSON object.
pub uninterp spec fn json_text(payload: Seq<char>, key: Seq<char>) -> Option<Seq<char>>;

/// The unsigned number under a key of a JSON object.
pub uninterp spec fn json_number(payload: Seq<char>, key: Seq<char>) -> Option<u64>;

/// How many elements the list under a key of a JSON object has.
pub uninterp spec fn json_length(payload: Seq<char>, list: Seq<char>) -> Option<usize>;

/// Whether an element of the list under a key of a JSON object has a key.
pub uninterp spec fn json_item_has(
    payload: Seq<char>,
    list: Seq<char>,
    index: usize,
    key: Seq<char>,
) -> bool;

/// An element of the list under a key of a JSON object, with a text and numbers set under keys and
/// another key taken out, as JSON text.
pub uninterp spec fn json_item_with(
    payload: Seq<char>,
    list: Seq<char>,
    index: usize,
    key: Seq<char>,
    value: Seq<char>,
    numbers: Seq<(Seq<char>, u64)>,
    without: Option<Seq<char>>,
) -> Option<Seq<char>>;

/// A JSON value without a key, as JSON text.
pub uninterp spec fn json_without(payload: Seq<char>, key: Seq<char>) -> Option<Seq<char>>;

/// What is wrong with a text as JSON, by the error of `serde_json::from_str` into a `Value`. The
/// contract gives the outcome a name: it depends on the text alone, and says nothing of which
/// texts are JSON.
#[verifier::external_body]
pub(crate) fn problem(payload: &str) -> (r: Option<String>)
    ensures
        text::opt_view(r) == json_problem(payload@),
{
    serde_json::from_str::<serde_json::Value>(payload).err().map(|err| err.to_string())
}

/// The text under a key, by `serde_json::Value::as_str` of the entry of the parsed object.
/// The contract gives the outcome a name, and claims that a text that is no JSON has no entry.
#[verifier::external_body]
pub(crate) fn text_field(payload: &str, key: &str) -> (r: Option<String>)
    ensures
        text::opt_view(r) == json_text(payload@, key@),
        r is Some ==> json_problem(payload@) is None,
{
    let value = serde_json::from_str::<serde_json::Value>(payload).ok()?;
    value.get(key)?.as_str().map(|found| found.to_string())
}

/// The number under a key, by `serde_json::Value::as_u64` of the entry of the parsed object.
/// The contract gives the outcome a name, and claims that a text that is no JSON has no entry.
#[verifier::external_body]
pub(crate) fn number_field(payload: &str, key: &str) -> (r: Option<u64>)
    ensures
        r == json_number(payload@, key@),
        r is Some ==> json_problem(payload@) is None,
{
    let value = serde_json::from_str::<serde_json::Value>(payload).ok()?;
    value.get(key)?.as_u64()
}

/// How many elements a list under a key has, by `serde_json::Value::as_array` of the entry of the
/// parsed object. The contract gives the outcome a name.
#[verifier::external_body]
pub(crate) fn list_length(payload: &str, list: &str) -> (r: Option<usize>)
    ensures
        r == json_length(payload@, list@),
{
    let value = serde_json::from_str::<serde_json::Value>(payload).ok()?;
    value.get(list)?.as_array().map(|found| found.len())
}

/// Whether an element of a list has a key, by `serde_json::Value::get` on the parsed text. The
/// contract gives the outcome a name.
#[verifier::external_body]
pub(crate) fn item_has(payload: &str, list: &str, index: usize, key: &str) -> (r: bool)
    ensures
        r == json_item_has(payload@, list@, index, key@),
{
    match serde_json::from_str::<serde_json::Value>(payload) {
        Ok(value) => value.get(list).and_then(|l| l.get(index)).and_then(|i| i.get(key)).is_some(),
        Err(_) => false,
    }
}

/// Whether a text has neither a dollar sign nor a backslash. `serde_json` reads objects of a few
/// keys of its own in another way; they all start with a dollar sign, so a plain text has none.
pub open spec fn is_plain(s: Seq<char>) -> bool {
    text::lacks(s, '$') && text::lacks(s, '\\')
}

/// An element of a list that is an object, with a text and numbers set by
/// `serde_json::Map::insert`, another key taken out by `Map::remove`, and written as JSON; nothing
/// where there is no such object. The contract gives the outcome a name. Of a plain text, and of
/// plain keys that are not set twice or taken out, it claims that the text is read back from the
/// outcome. That an outcome which is read and written again stays the same is not claimed: numbers
/// with fractions may change in their last digits.
#[verifier::external_body]
pub(crate) fn item_with(
    payload: &str,
    list: &str,
    index: usize,
    key: &str,
    value: &str,
    numbers: &Vec<(String, u64)>,
    without: Option<&str>,
) -> (r: Option<String>)
    ensures
        text::opt_view(r) == json_item_with(
            payload@,
            list@,
            index,
            key@,
            value@,
            number_views(numbers@),
            text::str_view(without),
        ),
        r is Some && without is None && is_plain(payload@) && is_plain(key@) && (forall|i: int|
            0 <= i < numbers@.len() ==> is_plain((#[trigger] numbers@[i]).0@) && numbers@[i].0@
                != key@) ==> json_text(r->0@, key@) == Some(value@),
{
    let parsed = serde_json::from_str::<serde_json::Value>(payload).ok()?;
    let mut object = parsed.get(list)?.as_array()?.get(index)?.as_object()?.clone();
    object.insert(key.to_string(), serde_json::Value::from(value));
    object.extend(numbers.iter().map(|n| (n.0.clone(), serde_json::Value::from(n.1))));
    without.map(|name| object.remove(name));
    Some(serde_json::Value::Object(object).to_string())
}

/// A value without a key, by `serde_json::Map::remove` and written as JSON. The contract gives the
/// outcome a name, and claims that there is none exactly where the text is no JSON.
#[verifier::external_body]
pub(crate) fn without_field(payload: &str, key: &str) -> (r: Option<String>)
    ensures
        text::opt_view(r) == json_without(payload@, key@),
        r is None <==> json_problem(payload@) is Some,
{
    let mut value = serde_json::from_str::<serde_json::Value>(payload).ok()?;
    value.as_object_mut().map(|object| object.remove(key));
    Some(value.to_string())
}

/// The views of keys and numbers.
pub open spec fn number_views(v: Seq<(String, u64)>) -> Seq<(Seq<char>, u64)> {
    v.map_values(|n: (String, u64)| (n.0@, n.1))
}

} // verus!
