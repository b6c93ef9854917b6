//! Diagnostics: a failure laid out against the text it came from, in the
//! layout that the `nom` crate gives to its own errors.

use vstd::prelude::*;
use vstd::utf8::{encode_utf8, is_char_boundary};
use nom::error::{convert_error, ErrorKind, VerboseError, VerboseErrorKind};
use crate::error::{Expected, Fault, ParseError, Rule};

verus! {

broadcast use vstd::utf8::encode_utf8_valid_utf8;

/// The text that `nom::error::convert_error` writes for the input `text` and
/// an error made of one entry for what was expected at the offset `at` and
/// one context entry for each of `frames`, an offset and a name, in their
/// order.
pub uninterp spec fn trace_text(
    text: Seq<char>,
    at: nat,
    expected: Expected,
    frames: Seq<(nat, Seq<char>)>,
) -> Seq<char>;

/// The offsets and names of `frames`, as they are handed on.
pub open spec fn named(frames: Seq<(usize, &'static str)>) -> Seq<(nat, Seq<char>)> {
    frames.map_values(|frame: (usize, &'static str)| (frame.0 as nat, frame.1@))
}

/// Runs `nom::error::convert_error` on `text` and a `VerboseError` whose
/// entries are the tail of `text` at `at` with what was expected there, then
/// the tail of `text` at the offset of each frame with the frame's name as
/// context. `Expected::Char` becomes `VerboseErrorKind::Char`; `Token`,
/// `Word`, `Digits`, `Number` and `Choice` become `VerboseErrorKind::Nom` of
/// `Tag`, `TakeWhile1`, `Digit`, `Float` and `Alt`.
///
/// Trusted: the text that comes back depends on these arguments alone. The
/// offsets are asked to lie on character boundaries of `text`, where a tail
/// can be taken.
#[verifier::external_body]
fn render(text: &str, at: usize, expected: Expected, frames: &Vec<(usize, &'static str)>) -> (r:
    String)
    requires
        is_char_boundary(encode_utf8(text@), at as int),
        forall|i: int|
            0 <= i < frames@.len() ==> is_char_boundary(
                encode_utf8(text@),
                (#[trigger] frames@[i]).0 as int,
            ),
    ensures
        r@ == trace_text(text@, at as nat, expected, named(frames@)),
{
    let kind = match expected {
        Expected::Char(c) => VerboseErrorKind::Char(c),
        Expected::Token => VerboseErrorKind::Nom(ErrorKind::Tag),
        Expected::Word => VerboseErrorKind::Nom(ErrorKind::TakeWhile1),
        Expected::Digits => VerboseErrorKind::Nom(ErrorKind::Digit),
        Expected::Number => VerboseErrorKind::Nom(ErrorKind::Float),
        Expected::Choice => VerboseErrorKind::Nom(ErrorKind::Alt),
    };
    let mut errors = vec![(&text[at..], kind)];
    for (start, name) in frames.iter() {
        errors.push((&text[*start..], VerboseErrorKind::Context(*name)));
    }
    convert_error(text, VerboseError { errors })
}

impl Fault {
    /// Every offset of the failure lies on a character boundary of `text`, its
    /// end included.
    pub open spec fn fits(self, text: Seq<char>) -> bool {
        &&& is_char_boundary(encode_utf8(text), self.at as int)
        &&& forall|i: int|
            0 <= i < self.trail.len() ==> is_char_boundary(
                encode_utf8(text),
                (#[trigger] self.trail[i]).0 as int,
            )
    }

    /// The trail with the name of each rule in the rule's place.
    pub open spec fn labels(self) -> Seq<(nat, Seq<char>)> {
        self.trail.map_values(|frame: (nat, Rule)| (frame.0, frame.1.label()))
    }
}

/// Lays the failure `error` out against `text`, the text whose parse failed:
/// for the place of the failure and then for each rule of the trail, the line
/// of `text` with a caret under the offset. A failure with an offset off the
/// character boundaries of `text` belongs to another text and has no
/// diagnostic.
pub fn describe(text: &str, error: &ParseError) -> (r: Option<String>)
    ensures
        r is Some <==> error@.fits(text@),
        r matches Some(diagnostic) ==> diagnostic@ == trace_text(
            text@,
            error@.at,
            error@.expected,
            error@.labels(),
        ),
{
    if !text.is_char_boundary(error.at) {
        return None;
    }
    let mut frames: Vec<(usize, &'static str)> = Vec::new();
    let mut i: usize = 0;
    while i < error.trail.len()
        invariant
            i <= error.trail@.len(),
            frames@.len() == i,
            forall|j: int|
                0 <= j < i ==> is_char_boundary(
                    encode_utf8(text@),
                    (#[trigger] error.trail@[j]).at as int,
                ),
            forall|j: int|
                0 <= j < i ==> (#[trigger] frames@[j]).0 == error.trail@[j].at && frames@[j].1@
                    == error.trail@[j].rule.label(),
        decreases error.trail@.len() - i,
    {
        let frame = error.trail[i];
        if !text.is_char_boundary(frame.at) {
            assert(error@.trail[i as int].0 == frame.at);
            return None;
        }
        frames.push((frame.at, frame.rule.name()));
        i += 1;
    }
    assert(named(frames@) =~= error@.labels());
    Some(render(text, error.at, error.expected, &frames))
}

} // verus!
