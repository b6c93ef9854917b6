//! Numbers, which the `nom` crate reads.

use vstd::prelude::*;
use crate::error::{Expected, ParseError};
use crate::grammar::{number, number_from};
use crate::input::{reports, Input};

verus! {

/// What `nom::number::complete::double` makes of a text: the number of
/// characters it leaves and the bits of the double it read, or, where it read
/// none, whether it gave up for good.
pub uninterp spec fn float_literal(text: Seq<char>) -> Result<(usize, u64), bool>;

/// Runs `nom::number::complete::double` on `text`.
///
/// Trusted: the result depends on the characters of `text` alone. A
/// `nom::Err::Failure` is reported as `Err(true)`, any other error as
/// `Err(false)`.
#[verifier::external_body]
pub(crate) fn scan_double(text: &str) -> (r: Result<(usize, u64), bool>)
    ensures
        r == float_literal(text@),
{
    match nom::number::complete::double::<&str, nom::error::Error<&str>>(text) {
        Ok((rest, number)) => Ok((rest.chars().count(), number.to_bits())),
        Err(nom::Err::Failure(_)) => Err(true),
        Err(_) => Err(false),
    }
}

/// Turns the scanner's answer into the outcome of the number rule at `at`,
/// where `room` characters were handed to the scanner.
pub fn read_number(scanned: Result<(usize, u64), bool>, at: usize, room: usize) -> (r: Result<
    (u64, usize),
    ParseError,
>)
    requires
        at + room <= usize::MAX,
    ensures
        reports(r, at, number_from(scanned, at as nat, room as nat)),
        r matches Ok((_, end)) ==> at <= end <= at + room,
{
    match scanned {
        Ok((left, bits)) => {
            if left <= room {
                Ok((bits, at + (room - left)))
            } else {
                Err(ParseError::mismatch(at, Expected::Number))
            }
        },
        Err(hard) => {
            if hard {
                Err(ParseError::failure(at, Expected::Number))
            } else {
                Err(ParseError::mismatch(at, Expected::Number))
            }
        },
    }
}

impl Input {
    /// A number at `at`.
    pub fn parse_number(&self, at: usize) -> (r: Result<(u64, usize), ParseError>)
        requires
            at <= self@.len(),
        ensures
            reports(r, at, number(self@, at as nat)),
            r matches Ok((_, end)) ==> at <= end <= self@.len(),
    {
        let rest = self.copy(at, self.len());
        read_number(scan_double(rest.as_str()), at, self.len() - at)
    }
}

} // verus!
