//! A text laid out for parsing: its characters, each at its position.

use vstd::prelude::*;
use crate::error::ParseError;
use crate::grammar::{piece, sees, Outcome};
use crate::text::to_chars;

verus! {

/// A text to be parsed. Positions count characters from 0; the position
/// `len()` is the end of the text.
pub struct Input {
    pub chars: Vec<char>,
}

impl View for Input {
    type V = Seq<char>;

    open spec fn view(&self) -> Seq<char> {
        self.chars@
    }
}

/// `r` is what the outcome `found` of a rule tried at `at` amounts to: the
/// value that was found and the position where it ends, or the failure.
pub open spec fn reports<T: View>(
    r: Result<(T, usize), ParseError>,
    at: usize,
    found: Outcome<T::V>,
) -> bool {
    match found {
        Outcome::Match(v, n) => r matches Ok((x, end)) && x@ == v && end == at + n,
        Outcome::Fail(fault) => r matches Err(e) && e@ == fault,
    }
}

impl Input {
    /// Lays `text` out, one character at each position.
    pub fn new(text: &str) -> (input: Input)
        ensures
            input@ == text@,
    {
        Input { chars: to_chars(text) }
    }

    /// The number of characters.
    pub fn len(&self) -> (n: usize)
        ensures
            n == self@.len(),
    {
        self.chars.len()
    }

    /// Whether the character at `at` is `c`.
    pub fn sees(&self, at: usize, c: char) -> (r: bool)
        ensures
            r == sees(self@, at as nat, c),
            r ==> at < usize::MAX,
    {
        at < self.chars.len() && self.chars[at] == c
    }

    /// The characters from `from` up to `to`, as a text of their own.
    pub fn copy(&self, from: usize, to: usize) -> (text: String)
        requires
            from <= to <= self@.len(),
        ensures
            text@ == piece(self@, from as nat, to as nat),
    {
        let mut text = String::new();
        let mut i: usize = from;
        while i < to
            invariant
                from <= i <= to <= self.chars@.len(),
                text@ == self.chars@.subrange(from as int, i as int),
            decreases to - i,
        {
            text.push(self.chars[i]);
            i += 1;
        }
        text
    }
}

} // verus!
