//! What a cache entry holds: the count of commits for one comparison, written
//! as a JSON number in decimal digits.

use vstd::prelude::*;
use crate::failure::Fault;
use crate::json::{integer, json_document, json_integer, parse, render};
use crate::text::decimal_digits;

verus! {

/// The count that a number read from an entry stands for. An entry that holds
/// no integer, or a negative one, is corrupt.
pub open spec fn accept_count(number: Option<i64>) -> Result<u64, Fault> {
    match number {
        Some(n) => if n >= 0 {
            Ok(n as u64)
        } else {
            Err(Fault::EntryNotACount)
        },
        None => Err(Fault::EntryNotACount),
    }
}

/// The count that the text of an entry stands for.
pub open spec fn read_count(text: Seq<char>) -> Result<u64, Fault> {
    match json_document(text) {
        None => Err(Fault::EntryNotJson),
        Some(value) => accept_count(json_integer(value)),
    }
}

/// Takes the number that an entry held for a count, if it can be one.
pub fn count_of(number: Option<i64>) -> (r: Result<u64, Fault>)
    ensures
        r == accept_count(number),
{
    match number {
        Some(n) => if n >= 0 {
            Ok(n as u64)
        } else {
            Err(Fault::EntryNotACount)
        },
        None => Err(Fault::EntryNotACount),
    }
}

/// Reads the count out of the text of an entry.
pub fn read_entry(text: &str) -> (r: Result<u64, Fault>)
    ensures
        r == read_count(text@),
{
    match parse(text) {
        Ok(value) => count_of(integer(&value)),
        Err(_) => Err(Fault::EntryNotJson),
    }
}

/// Writes a count as the text of an entry: the count in decimal digits.
pub fn write_entry(count: u64) -> (text: String)
    ensures
        text@ == decimal_digits(count as nat),
{
    match render(count) {
        Ok(text) => text,
        Err(_) => unreached(),
    }
}

} // verus!
