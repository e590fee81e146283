//! Strategy parameters: a JSON object of numbers, read key by key, with a
//! default for whatever is missing or unreadable.
use std::collections::HashMap;
use vstd::prelude::*;
use crate::decimal::{parse_decimal, parse_decimal_text};

verus! {

/// The short period of the crossover rule where none is given.
pub const DEFAULT_SHORT_PERIOD: usize = 5;

/// The long period of the crossover rule where none is given.
pub const DEFAULT_LONG_PERIOD: usize = 20;

/// The period of the momentum rule where none is given.
pub const DEFAULT_PERIOD: usize = 10;

/// The threshold of the momentum rule where none is given: two percent.
pub const DEFAULT_THRESHOLD: i64 = 20_000;

/// The text of the number filed under `key` in the JSON object `payload`, as
/// `serde_json` renders it; `None` where `payload` is no JSON object of
/// numbers, or has no such key.
pub uninterp spec fn json_number(payload: Seq<char>, key: Seq<char>) -> Option<Seq<char>>;

/// The text of what was found, if anything was.
pub open spec fn text_of(found: Option<String>) -> Option<Seq<char>> {
    match found {
        Some(text) => Some(text@),
        None => None,
    }
}

/// The count that a looked-up number gives: the number rounded toward zero
/// and held within `usize`, or `default` where nothing was found or what was
/// found is no decimal number.
pub open spec fn count_or(found: Option<Seq<char>>, default: usize) -> usize {
    match found {
        Some(text) => match parse_decimal(text) {
            Some(d) => d.to_count() as usize,
            None => default,
        },
        None => default,
    }
}

/// The fixed-point amount that a looked-up number gives, or `default` where
/// nothing was found or what was found is no decimal number.
pub open spec fn fixed_or(found: Option<Seq<char>>, default: i64) -> i64 {
    match found {
        Some(text) => match parse_decimal(text) {
            Some(d) => d.to_fixed() as i64,
            None => default,
        },
        None => default,
    }
}

/// Looks `key` up in `payload`: `serde_json::from_str` reads the payload as
/// a map from strings to `serde_json::Number`, and the number found is
/// rendered by its `Display`. The contract gives that text a name; it claims
/// only that the text depends on the payload and the key alone.
#[verifier::external_body]
fn lookup_number(payload: &str, key: &str) -> (r: Option<String>)
    ensures
        text_of(r) == json_number(payload@, key@),
{
    match serde_json::from_str::<HashMap<String, serde_json::Number>>(payload) {
        Ok(numbers) => match numbers.get(key) {
            Some(number) => Some(number.to_string()),
            None => None,
        },
        Err(_) => None,
    }
}

/// Reads a count from what a lookup found.
pub fn count_or_default(found: &Option<String>, default: usize) -> (r: usize)
    ensures
        r == count_or(text_of(*found), default),
{
    match found {
        Some(text) => match parse_decimal_text(text.as_str()) {
            Some(d) => d.to_count(),
            None => default,
        },
        None => default,
    }
}

/// Reads a fixed-point amount from what a lookup found.
pub fn fixed_or_default(found: &Option<String>, default: i64) -> (r: i64)
    ensures
        r == fixed_or(text_of(*found), default),
{
    match found {
        Some(text) => match parse_decimal_text(text.as_str()) {
            Some(d) => d.to_fixed(),
            None => default,
        },
        None => default,
    }
}

/// Reads the count filed under `key` in the JSON object `payload`.
pub fn count_param(payload: &str, key: &str, default: usize) -> (r: usize)
    ensures
        r == count_or(json_number(payload@, key@), default),
{
    let found = lookup_number(payload, key);
    count_or_default(&found, default)
}

/// Reads the fixed-point amount filed under `key` in the JSON object
/// `payload`.
pub fn fixed_param(payload: &str, key: &str, default: i64) -> (r: i64)
    ensures
        r == fixed_or(json_number(payload@, key@), default),
{
    let found = lookup_number(payload, key);
    fixed_or_default(&found, default)
}

} // verus!
