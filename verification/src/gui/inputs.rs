//! Reading numbers that the user typed.

use vstd::prelude::*;
use crate::numbers::{parse_i64, parse_i64_text, parse_usize, parse_usize_text};
use crate::text::{concat, trim, trim_str};

verus! {

pub const CANNOT_BE_EMPTY: &'static str = " cannot be empty.";
pub const NOT_A_WHOLE_NUMBER: &'static str = " must be a positive whole number.";
pub const NOT_ABOVE_ZERO: &'static str = " must be greater than zero.";
pub const WORD_COUNT_NOT_WHOLE: &'static str = "Word-count filters must be whole numbers.";

/// The outcome of reading a positive count typed for the field `label`.
pub open spec fn positive_count(input: Seq<char>, label: Seq<char>) -> Result<nat, Seq<char>> {
    let v = trim(input);
    if v.len() == 0 {
        Err(label + CANNOT_BE_EMPTY@)
    } else {
        match parse_usize(v) {
            None => Err(label + NOT_A_WHOLE_NUMBER@),
            Some(n) => if n == 0 {
                Err(label + NOT_ABOVE_ZERO@)
            } else {
                Ok(n)
            },
        }
    }
}

/// Reads a positive whole number typed for the field `label`; surrounding
/// whitespace is ignored, and the error names the field.
pub fn parse_positive_usize_input(input: &str, label: &str) -> (r: Result<usize, String>)
    ensures
        match r {
            Ok(n) => positive_count(input@, label@) == Ok::<nat, Seq<char>>(n as nat) && n > 0,
            Err(msg) => positive_count(input@, label@) == Err::<nat, Seq<char>>(msg@),
        },
{
    let value = trim_str(input);
    if value.as_str().is_empty() {
        return Err(concat(label, CANNOT_BE_EMPTY));
    }
    match parse_usize_text(value.as_str()) {
        None => Err(concat(label, NOT_A_WHOLE_NUMBER)),
        Some(n) => if n == 0 {
            Err(concat(label, NOT_ABOVE_ZERO))
        } else {
            Ok(n)
        },
    }
}

/// The outcome of reading an optional word-count bound.
pub open spec fn optional_count(input: Seq<char>) -> Result<Option<int>, Seq<char>> {
    let v = trim(input);
    if v.len() == 0 {
        Ok(None)
    } else {
        match parse_i64(v) {
            Some(n) => Ok(Some(n)),
            None => Err(WORD_COUNT_NOT_WHOLE@),
        }
    }
}

/// Reads an optional whole number: blank input gives `None`.
pub fn parse_optional_i64(input: &str) -> (r: Result<Option<i64>, String>)
    ensures
        match r {
            Ok(Some(n)) => optional_count(input@) == Ok::<Option<int>, Seq<char>>(Some(n as int)),
            Ok(None) => optional_count(input@) == Ok::<Option<int>, Seq<char>>(None),
            Err(msg) => optional_count(input@) == Err::<Option<int>, Seq<char>>(msg@),
        },
{
    let value = trim_str(input);
    if value.as_str().is_empty() {
        return Ok(None);
    }
    match parse_i64_text(value.as_str()) {
        Some(n) => Ok(Some(n)),
        None => Err(WORD_COUNT_NOT_WHOLE.to_owned()),
    }
}

} // verus!
