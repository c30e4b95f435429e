//! Reading scalar fields out of start.gg responses.
use vstd::prelude::*;
use crate::json::{as_i64, as_str, as_u64, Json, JsonV};
use crate::text::{
    chars_of, decimal, decimal_string, parse_i32_str, parse_i32_text, parse_u64_str,
    parse_u64_text, string_of_chars, trim, trim_string,
};

verus! {

/// A number, or a string holding one (`parse_u64`).
pub open spec fn u64_of(v: JsonV) -> Option<u64> {
    match as_u64(v) {
        Some(n) => Some(n),
        None => match as_str(v) {
            Some(s) => parse_u64_text(s),
            None => None,
        },
    }
}

/// `.and_then(parse_u64)` on an optional value.
pub open spec fn u64_opt(v: Option<JsonV>) -> Option<u64> {
    match v {
        Some(x) => u64_of(x),
        None => None,
    }
}

/// An identifier: a non-empty string as it is, or a number in decimal.
pub open spec fn id_of(v: JsonV) -> Option<Seq<char>> {
    match as_str(v) {
        Some(s) => if s.len() > 0 {
            Some(s)
        } else {
            None
        },
        None => match as_u64(v) {
            Some(n) => Some(decimal(n as nat)),
            None => None,
        },
    }
}

pub open spec fn id_opt(v: Option<JsonV>) -> Option<Seq<char>> {
    match v {
        Some(x) => id_of(x),
        None => None,
    }
}

/// An integer that fits in an `i32`, or a string holding one (`parse_i32`).
pub open spec fn i32_of(v: JsonV) -> Option<i32> {
    match as_i64(v) {
        Some(n) if i32::MIN <= n <= i32::MAX => Some(n as i32),
        _ => match as_str(v) {
            Some(s) => parse_i32_text(s),
            None => None,
        },
    }
}

pub open spec fn i32_opt(v: Option<JsonV>) -> Option<i32> {
    match v {
        Some(x) => i32_of(x),
        None => None,
    }
}

/// A trimmed string field, or empty when it is missing or not a string.
pub open spec fn text_of(v: Option<JsonV>) -> Seq<char> {
    match v {
        Some(JsonV::Str(s)) => trim(s),
        _ => Seq::empty(),
    }
}

/// A string field, kept only when it is a non-empty string.
pub open spec fn nonempty_str(v: Option<JsonV>) -> Option<Seq<char>> {
    match v {
        Some(JsonV::Str(s)) => if s.len() > 0 {
            Some(s)
        } else {
            None
        },
        _ => None,
    }
}

pub fn parse_u64(value: &Json) -> (r: Option<u64>)
    ensures
        r == u64_of(value@),
{
    match value.as_u64() {
        Some(n) => Some(n),
        None => match value.as_str() {
            Some(s) => parse_u64_str(s),
            None => None,
        },
    }
}

pub fn parse_u64_opt(value: Option<&Json>) -> (r: Option<u64>)
    ensures
        r == u64_opt(match value {
            Some(v) => Some(v@),
            None => None,
        }),
{
    match value {
        Some(v) => parse_u64(v),
        None => None,
    }
}

/// Set ids are usually plain numbers, but sets in a bracket that is seeded and
/// not yet started have synthetic string ids, so ids are kept as strings.
pub fn parse_id_string(value: &Json) -> (r: Option<String>)
    ensures
        match r {
            Some(s) => id_of(value@) == Some(s@),
            None => id_of(value@) is None,
        },
{
    match value.as_str() {
        Some(s) => {
            let v = chars_of(s);
            if v.len() > 0 {
                Some(string_of_chars(&v))
            } else {
                None
            }
        },
        None => match value.as_u64() {
            Some(n) => Some(decimal_string(n)),
            None => None,
        },
    }
}

pub fn parse_i32(value: &Json) -> (r: Option<i32>)
    ensures
        r == i32_of(value@),
{
    match value.as_i64() {
        Some(n) => {
            if -2147483648 <= n && n <= 2147483647 {
                return Some(n as i32);
            }
        },
        None => {},
    }
    match value.as_str() {
        Some(s) => parse_i32_str(s),
        None => None,
    }
}

pub fn parse_i32_opt(value: Option<&Json>) -> (r: Option<i32>)
    ensures
        r == i32_opt(match value {
            Some(v) => Some(v@),
            None => None,
        }),
{
    match value {
        Some(v) => parse_i32(v),
        None => None,
    }
}

pub fn read_text(value: Option<&Json>) -> (r: String)
    ensures
        r@ == text_of(match value {
            Some(v) => Some(v@),
            None => None,
        }),
{
    match value {
        Some(v) => match v.as_str() {
            Some(s) => trim_string(s),
            None => String::new(),
        },
        None => String::new(),
    }
}

pub fn nonempty_string(value: Option<&Json>) -> (r: Option<String>)
    ensures
        match r {
            Some(s) => nonempty_str(match value {
                Some(v) => Some(v@),
                None => None,
            }) == Some(s@),
            None => nonempty_str(match value {
                Some(v) => Some(v@),
                None => None,
            }) is None,
        },
{
    match value {
        Some(v) => match v.as_str() {
            Some(s) => {
                let c = chars_of(s);
                if c.len() > 0 {
                    Some(string_of_chars(&c))
                } else {
                    None
                }
            },
            None => None,
        },
        None => None,
    }
}

} // verus!
