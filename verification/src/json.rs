//! JSON documents, as `serde_json` reads and writes them.
//!
//! A value of `serde_json` is opaque to proofs: what the crate returns for it
//! is named here, and the functions below are stated over those names.

use crate::text;
use vstd::prelude::*;

verus! {

/// A JSON value of `serde_json`.
#[verifier::external_type_specification]
#[verifier::external_body]
pub struct ExValue(serde_json::Value);

/// What `serde_json::from_str` reads from a text: the value, if the text is
/// one JSON document, and else the words of the error.
pub uninterp spec fn json_read(text: Seq<char>) -> Result<serde_json::Value, Seq<char>>;

/// What `serde_json::Value::get` gives for a key: the member of an object.
pub uninterp spec fn json_member(v: serde_json::Value, key: Seq<char>) -> Option<
    serde_json::Value,
>;

/// What `serde_json::Value::as_str` gives: the text of a string.
pub uninterp spec fn json_text(v: serde_json::Value) -> Option<Seq<char>>;

/// What `serde_json::Value::as_array` gives: the items of an array.
pub uninterp spec fn json_items(v: serde_json::Value) -> Option<Seq<serde_json::Value>>;

/// The values of the members that `serde_json::Value::as_object` gives, in the
/// order of `serde_json::Map::values`.
pub uninterp spec fn json_values(v: serde_json::Value) -> Option<Seq<serde_json::Value>>;

/// What `serde_json::Value::as_bool` gives: the value of a boolean.
pub uninterp spec fn json_flag(v: serde_json::Value) -> Option<bool>;

/// What `serde_json::Value::as_u64` gives: the value of an unsigned number.
pub uninterp spec fn json_number(v: serde_json::Value) -> Option<u64>;

/// The boolean value that `serde_json::Value::from` makes.
pub uninterp spec fn json_from_flag(b: bool) -> serde_json::Value;

/// The string that `serde_json::Value::from` makes of a text.
pub uninterp spec fn json_from_text(text: Seq<char>) -> serde_json::Value;

/// The array that `serde_json::Value::from` makes of some values.
pub uninterp spec fn json_from_items(items: Seq<serde_json::Value>) -> serde_json::Value;

/// The text that `serde_json::to_string` writes for a list of values.
pub uninterp spec fn json_list_text(items: Seq<serde_json::Value>) -> Seq<char>;

/// The text over several lines that `serde_json::to_string_pretty` writes for
/// a value.
pub uninterp spec fn json_pretty(v: serde_json::Value) -> Seq<char>;

/// How deep arrays and objects are nested in a value.
pub uninterp spec fn json_depth(v: serde_json::Value) -> nat;

/// Calls `serde_json::from_str`. Its result depends on the text alone, the
/// words of the error too.
#[verifier::external_body]
pub(crate) fn read(text: &str) -> (r: Result<serde_json::Value, String>)
    ensures
        match r {
            Ok(v) => json_read(text@) == Ok::<serde_json::Value, Seq<char>>(v),
            Err(e) => json_read(text@) == Err::<serde_json::Value, Seq<char>>(e@),
        },
{
    serde_json::from_str(text).map_err(|e: serde_json::Error| e.to_string())
}

/// Calls `serde_json::Value::get` with a key. Its result depends on the value
/// and the key alone, and a member is nested less deep than its object.
#[verifier::external_body]
pub(crate) fn member<'a>(v: &'a serde_json::Value, key: &str) -> (r: Option<&'a serde_json::Value>)
    ensures
        r is Some <==> json_member(*v, key@) is Some,
        r matches Some(m) ==> json_member(*v, key@) == Some(*m) && json_depth(*m) < json_depth(*v),
{
    v.get(key)
}

/// Calls `serde_json::Value::as_str`. Its result depends on the value alone.
#[verifier::external_body]
pub(crate) fn as_text(v: &serde_json::Value) -> (r: Option<String>)
    ensures
        r.deep_view() == json_text(*v),
{
    v.as_str().map(String::from)
}

/// Calls `serde_json::Value::as_array`. Its result depends on the value alone,
/// and an item is nested less deep than its array.
#[verifier::external_body]
pub(crate) fn as_items<'a>(v: &'a serde_json::Value) -> (r: Option<&'a Vec<serde_json::Value>>)
    ensures
        r is Some <==> json_items(*v) is Some,
        r matches Some(a) ==> json_items(*v) == Some(a@) && forall|i: int|
            0 <= i < a@.len() ==> json_depth(#[trigger] a@[i]) < json_depth(*v),
{
    v.as_array()
}

/// Calls `serde_json::Value::as_object`, and copies the values of the members
/// in the order of `serde_json::Map::values`. The result depends on the value
/// alone.
#[verifier::external_body]
pub(crate) fn as_values(v: &serde_json::Value) -> (r: Option<Vec<serde_json::Value>>)
    ensures
        r is Some <==> json_values(*v) is Some,
        r matches Some(a) ==> json_values(*v) == Some(a@),
{
    v.as_object().map(|m| m.values().cloned().collect())
}

/// Calls `serde_json::Value::as_bool`. Its result depends on the value alone.
#[verifier::external_body]
pub(crate) fn as_flag(v: &serde_json::Value) -> (r: Option<bool>)
    ensures
        r == json_flag(*v),
{
    v.as_bool()
}

/// Calls `serde_json::Value::as_u64`. Its result depends on the value alone.
#[verifier::external_body]
pub(crate) fn as_number(v: &serde_json::Value) -> (r: Option<u64>)
    ensures
        r == json_number(*v),
{
    v.as_u64()
}

/// Calls `serde_json::Value::from` with a boolean: the value of that boolean,
/// and of nothing else.
#[verifier::external_body]
pub(crate) fn from_flag(b: bool) -> (r: serde_json::Value)
    ensures
        r == json_from_flag(b),
        json_flag(r) == Some(b),
        json_text(r) is None,
{
    serde_json::Value::from(b)
}

/// Calls `serde_json::Value::from` with a text: the string of that text, and
/// nothing else.
#[verifier::external_body]
pub(crate) fn from_text(text: &str) -> (r: serde_json::Value)
    ensures
        r == json_from_text(text@),
        json_text(r) == Some(text@),
        json_items(r) is None,
        json_flag(r) is None,
{
    serde_json::Value::from(text)
}

/// Calls `serde_json::Value::from` with a list of values: the array of those
/// values, and nothing else.
#[verifier::external_body]
pub(crate) fn from_items(items: Vec<serde_json::Value>) -> (r: serde_json::Value)
    ensures
        r == json_from_items(items@),
        json_items(r) == Some(items@),
        json_text(r) is None,
        json_flag(r) is None,
{
    serde_json::Value::from(items)
}

/// Calls `serde_json::to_string` with a list of values, for which it does not
/// fail. Its result depends on the values alone.
#[verifier::external_body]
pub(crate) fn write_list(items: &Vec<&serde_json::Value>) -> (r: String)
    ensures
        r@ == json_list_text(items@.map_values(|v: &serde_json::Value| *v)),
{
    serde_json::to_string(items).unwrap_or_default()
}

/// Calls `serde_json::to_string_pretty` with a value, for which it does not
/// fail. Its result depends on the value alone.
#[verifier::external_body]
pub(crate) fn write_pretty(v: &serde_json::Value) -> (r: String)
    ensures
        r@ == json_pretty(*v),
{
    serde_json::to_string_pretty(v).unwrap_or_default()
}

/// The value that a text writes, if it is one JSON document.
pub open spec fn json_of(text: Seq<char>) -> Option<serde_json::Value> {
    match json_read(text) {
        Ok(v) => Some(v),
        Err(_) => None,
    }
}

/// Reads a JSON document.
pub fn parse(text: &str) -> (r: Option<serde_json::Value>)
    ensures
        r == json_of(text@),
{
    match read(text) {
        Ok(v) => Some(v),
        Err(_) => None,
    }
}

/// The text of the member under a key.
pub open spec fn text_at(v: serde_json::Value, key: Seq<char>) -> Option<Seq<char>> {
    match json_member(v, key) {
        Some(m) => json_text(m),
        None => None,
    }
}

/// The items of the member under a key.
pub open spec fn items_at(v: serde_json::Value, key: Seq<char>) -> Option<Seq<serde_json::Value>> {
    match json_member(v, key) {
        Some(m) => json_items(m),
        None => None,
    }
}

/// The boolean under a key.
pub open spec fn flag_at(v: serde_json::Value, key: Seq<char>) -> Option<bool> {
    match json_member(v, key) {
        Some(m) => json_flag(m),
        None => None,
    }
}

/// The unsigned number under a key.
pub open spec fn number_at(v: serde_json::Value, key: Seq<char>) -> Option<u64> {
    match json_member(v, key) {
        Some(m) => json_number(m),
        None => None,
    }
}

/// The text of the first item of the member under a key.
pub open spec fn first_text_at(v: serde_json::Value, key: Seq<char>) -> Option<Seq<char>> {
    match items_at(v, key) {
        Some(items) => if items.len() > 0 {
            json_text(items[0])
        } else {
            None
        },
        None => None,
    }
}

/// The text of the member under a key.
pub fn member_text(v: &serde_json::Value, key: &str) -> (r: Option<String>)
    ensures
        r.deep_view() == text_at(*v, key@),
{
    match member(v, key) {
        Some(m) => as_text(m),
        None => None,
    }
}

/// The items of the member under a key.
pub fn member_items<'a>(v: &'a serde_json::Value, key: &str) -> (r: Option<
    &'a Vec<serde_json::Value>,
>)
    ensures
        r is Some <==> items_at(*v, key@) is Some,
        r matches Some(a) ==> items_at(*v, key@) == Some(a@) && forall|i: int|
            0 <= i < a@.len() ==> json_depth(#[trigger] a@[i]) < json_depth(*v),
{
    match member(v, key) {
        Some(m) => as_items(m),
        None => None,
    }
}

/// The boolean under a key.
pub fn member_flag(v: &serde_json::Value, key: &str) -> (r: Option<bool>)
    ensures
        r == flag_at(*v, key@),
{
    match member(v, key) {
        Some(m) => as_flag(m),
        None => None,
    }
}

/// The unsigned number under a key.
pub fn member_number(v: &serde_json::Value, key: &str) -> (r: Option<u64>)
    ensures
        r == number_at(*v, key@),
{
    match member(v, key) {
        Some(m) => as_number(m),
        None => None,
    }
}

/// The text of the first item of the member under a key.
pub fn member_first_text(v: &serde_json::Value, key: &str) -> (r: Option<String>)
    ensures
        r.deep_view() == first_text_at(*v, key@),
{
    match member_items(v, key) {
        Some(items) => if items.len() > 0 {
            as_text(&items[0])
        } else {
            None
        },
        None => None,
    }
}

/// The texts among the items of a list.
pub open spec fn texts_in(items: Seq<serde_json::Value>) -> Seq<Seq<char>>
    decreases items.len(),
{
    if items.len() == 0 {
        Seq::empty()
    } else {
        match json_text(items.last()) {
            Some(t) => texts_in(items.drop_last()).push(t),
            None => texts_in(items.drop_last()),
        }
    }
}

/// The texts among the items of a list.
pub fn read_texts(items: &Vec<serde_json::Value>) -> (r: Vec<String>)
    ensures
        r.deep_view() == texts_in(items@),
{
    let mut out: Vec<String> = Vec::new();
    let mut i: usize = 0;
    assert(out.deep_view() =~= texts_in(items@.take(0)));
    while i < items.len()
        invariant
            i <= items@.len(),
            out.deep_view() == texts_in(items@.take(i as int)),
        decreases items@.len() - i,
    {
        proof {
            assert(items@.take(i + 1).drop_last() =~= items@.take(i as int));
            assert(items@.take(i + 1).last() == items@[i as int]);
        }
        if let Some(t) = as_text(&items[i]) {
            text::push_text(&mut out, t);
        }
        i = i + 1;
    }
    assert(items@.take(i as int) =~= items@);
    out
}

/// The texts among some items are those of their parts, in their order, and
/// what is no text is passed over.
pub proof fn texts_follow_the_items(a: Seq<serde_json::Value>, b: Seq<serde_json::Value>)
    ensures
        texts_in(a + b) == texts_in(a) + texts_in(b),
        forall|v: serde_json::Value| texts_in(#[trigger] seq![v]) == (match json_text(v) {
            Some(t) => seq![t],
            None => Seq::empty(),
        }),
    decreases b.len(),
{
    assert forall|v: serde_json::Value| texts_in(#[trigger] seq![v]) == (match json_text(v) {
        Some(t) => seq![t],
        None => Seq::empty(),
    }) by {
        assert(seq![v].drop_last() =~= Seq::<serde_json::Value>::empty());
        assert(texts_in(Seq::<serde_json::Value>::empty()).len() == 0);
        assert(texts_in(seq![v]) =~= (match json_text(v) {
            Some(t) => seq![t],
            None => Seq::empty(),
        }));
    }
    if b.len() > 0 {
        assert((a + b).drop_last() =~= a + b.drop_last());
        texts_follow_the_items(a, b.drop_last());
        assert(texts_in(a + b) =~= texts_in(a) + texts_in(b));
    } else {
        assert(a + b =~= a);
        assert(texts_in(a) + texts_in(b) =~= texts_in(a));
    }
}

/// What is read under a key is the value of the member of that key, and the
/// first of a list is its first item.
pub proof fn members_are_read(v: serde_json::Value, key: Seq<char>, m: serde_json::Value)
    ensures
        json_member(v, key) == Some(m) ==> {
            &&& text_at(v, key) == json_text(m)
            &&& flag_at(v, key) == json_flag(m)
            &&& number_at(v, key) == json_number(m)
            &&& items_at(v, key) == json_items(m)
            &&& json_items(m) matches Some(items) ==> (items.len() > 0 ==> first_text_at(v, key)
                == json_text(items[0]))
        },
        json_member(v, key) is None ==> {
            &&& text_at(v, key) is None
            &&& flag_at(v, key) is None
            &&& number_at(v, key) is None
            &&& items_at(v, key) is None
            &&& first_text_at(v, key) is None
        },
{
}

} // verus!
