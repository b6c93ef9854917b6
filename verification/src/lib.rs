//! A recognizer for Ruby-style data literals: hashes, arrays, strings,
//! booleans, numbers and `nil`, with both `key: value` and `:key => value`
//! entries.
//!
//! The grammar is defined once, mathematically, in [`grammar`]; every parsing
//! function is proved to compute exactly what that definition says.

use vstd::prelude::*;
use vstd::string::StrSliceExecFns;

pub mod bounds;
pub mod diagnostic;
pub mod error;
pub mod grammar;
pub mod input;
pub mod laws;
pub mod lexer;
pub mod number;
pub mod object;
pub mod offsets;
pub mod parser;
pub mod shape;
pub mod text;
pub mod value;

use crate::error::ParseError;
use crate::grammar::{pair, value as value_rule, Outcome};
use crate::input::Input;
use crate::offsets::{lemma_in_bytes_fits, lemma_utf8_len_encoded, utf8_len};
use crate::shape::{lemma_pair_integer_free, lemma_value_integer_free};
use crate::value::Value;

verus! {

/// `r` is what the outcome `found` of a rule tried at the start of `text`
/// amounts to: what was found and the text left behind it, or the failure
/// with its offsets in bytes.
pub open spec fn answers<T: View>(
    r: Result<(&str, T), ParseError>,
    text: Seq<char>,
    found: Outcome<T::V>,
) -> bool {
    match found {
        Outcome::Match(v, n) => {
            &&& r matches Ok((rest, x))
            &&& x@ == v
            &&& n <= text.len()
            &&& rest@ == text.skip(n as int)
        },
        Outcome::Fail(fault) => {
            &&& r matches Err(e)
            &&& e@ == fault.in_bytes(text)
            &&& e@.fits(text)
        },
    }
}

/// The length of `text` in bytes is a `usize`.
fn bounded(text: &str)
    ensures
        utf8_len(text@) <= usize::MAX,
{
    let bytes = text.as_bytes();
    let _ = bytes.len();
    proof {
        lemma_utf8_len_encoded(text@);
    }
}

/// Parses the value that `text` begins with, whitespace before it included,
/// and returns it with the rest of `text`.
pub fn parse_value(text: &str) -> (r: Result<(&str, Value), ParseError>)
    ensures
        answers(r, text@, value_rule(text@, 0)),
        r matches Ok((_, v)) ==> v.wf() && v@.integer_free(),
{
    let input = Input::new(text);
    bounded(text);
    proof {
        lemma_value_integer_free(text@, 0);
    }
    match input.parse_value(0) {
        Ok((v, end)) => Ok((text.substring_char(end, input.len()), v)),
        Err(e) => {
            proof {
                lemma_in_bytes_fits(e@, text@);
            }
            Err(input.in_bytes(e))
        },
    }
}

/// Parses the key and value that `text` begins with, whitespace before them
/// included, and returns them with the rest of `text`.
pub fn parse_key_value(text: &str) -> (r: Result<(&str, (String, Value)), ParseError>)
    ensures
        answers(r, text@, pair(text@, 0)),
        r matches Ok((_, kv)) ==> kv.1.wf() && kv.1@.integer_free(),
{
    let input = Input::new(text);
    bounded(text);
    proof {
        lemma_pair_integer_free(text@, 0);
    }
    match input.parse_key_value(0) {
        Ok((kv, end)) => Ok((text.substring_char(end, input.len()), kv)),
        Err(e) => {
            proof {
                lemma_in_bytes_fits(e@, text@);
            }
            Err(input.in_bytes(e))
        },
    }
}

} // verus!
