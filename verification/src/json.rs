//! The calls into `serde_json`, each behind a contract that is taken on trust.
//!
//! A JSON value stays what `serde_json` made of it. What reading it returns
//! is a function of the value alone, so each such result gets a name here,
//! and the rest of the library says what it does with the named results. What
//! writing a count returns is stated outright: its decimal digits.

use vstd::prelude::*;
use crate::text::decimal_digits;

verus! {

/// `serde_json::Value`: a JSON value. The verifier sees nothing inside it.
#[verifier::external_type_specification]
#[verifier::external_body]
pub struct ExValue(serde_json::Value);

/// `serde_json::Error`: why a text could not be parsed or a value not be
/// written. The verifier sees nothing inside it.
#[verifier::external_type_specification]
#[verifier::external_body]
pub struct ExError(serde_json::Error);

/// The value that a text parses to as one JSON document, if it is one.
pub uninterp spec fn json_document(text: Seq<char>) -> Option<serde_json::Value>;

/// The member of an object under a key; JSON `null` where the value is no
/// object or has no such member.
pub uninterp spec fn json_member(v: serde_json::Value, key: Seq<char>) -> serde_json::Value;

/// The characters of a value that is a JSON string.
pub uninterp spec fn json_text(v: serde_json::Value) -> Option<Seq<char>>;

/// The number that a value holds, where it is an integer that fits in `i64`.
pub uninterp spec fn json_integer(v: serde_json::Value) -> Option<i64>;

/// The keys of a value that is an object, in the order in which the object
/// hands them out.
pub uninterp spec fn json_keys(v: serde_json::Value) -> Option<Seq<Seq<char>>>;

/// `serde_json::from_str::<Value>`: parses a text as one JSON document. The
/// contract only names the outcome: the same text gives the same value, or
/// fails, every time.
#[verifier::external_body]
pub(crate) fn parse(text: &str) -> (r: Result<serde_json::Value, serde_json::Error>)
    ensures
        r is Ok <==> json_document(text@) is Some,
        r matches Ok(v) ==> json_document(text@) == Some(v),
{
    serde_json::from_str::<serde_json::Value>(text)
}

/// `Value`'s index operator with a string key: the member under that key, or a
/// `null` where there is none. It never panics. The contract only names the
/// value that comes back.
#[verifier::external_body]
pub(crate) fn member<'a>(v: &'a serde_json::Value, key: &str) -> (r: &'a serde_json::Value)
    ensures
        *r == json_member(*v, key@),
{
    &v[key]
}

/// `Value::as_str`: the string that the value holds, if it holds one. The
/// contract only names the outcome.
#[verifier::external_body]
pub(crate) fn text<'a>(v: &'a serde_json::Value) -> (r: Option<&'a str>)
    ensures
        r is Some <==> json_text(*v) is Some,
        r matches Some(s) ==> json_text(*v) == Some(s@),
{
    v.as_str()
}

/// `Value::as_i64`: the integer that the value holds, if it holds one that fits
/// in `i64`. The contract only names the outcome.
#[verifier::external_body]
pub(crate) fn integer(v: &serde_json::Value) -> (r: Option<i64>)
    ensures
        r == json_integer(*v),
{
    v.as_i64()
}

/// `Value::as_object` and `Map::keys`: the keys of an object, copied out in the
/// map's own order; `None` for a value that is no object. The contract only
/// names the outcome.
#[verifier::external_body]
pub(crate) fn keys(v: &serde_json::Value) -> (r: Option<Vec<String>>)
    ensures
        r is Some <==> json_keys(*v) is Some,
        r matches Some(ks) ==> json_keys(*v) == Some(ks.deep_view()),
{
    v.as_object().map(|m| m.keys().cloned().collect())
}

/// `serde_json::to_string` on a `u64`: the count as JSON text. Writing an
/// unsigned integer into a string cannot fail, and what is written is the
/// number in decimal digits.
#[verifier::external_body]
pub(crate) fn render(n: u64) -> (r: Result<String, serde_json::Error>)
    ensures
        r is Ok,
        r->Ok_0@ == decimal_digits(n as nat),
{
    serde_json::to_string(&n)
}

} // verus!
