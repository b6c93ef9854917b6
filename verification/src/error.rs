//! Failures: how severe, where, what was wanted there, and inside which
//! rules.
//!
//! A failure that a rule of [`crate::input::Input`] returns gives its places
//! as positions, which count characters. A failure that [`crate::parse_value`]
//! or [`crate::parse_key_value`] returns gives them as offsets into the text,
//! which count bytes.

use vstd::prelude::*;

verus! {

/// Whether a failure can still be answered by trying another alternative.
#[derive(Debug, Clone, Copy, PartialEq, Eq)]
pub enum Severity {
    /// The rule did not match; an alternative may.
    Mismatch,
    /// The rule had committed and its continuation is missing; the parse is
    /// over.
    Failure,
}

/// The named rules that label a failure.
#[derive(Debug, Clone, Copy, PartialEq, Eq)]
pub enum Rule {
    String,
    Bytes,
    Array,
    Hash,
}

/// What a rule wanted to find at the place where it gave up.
#[derive(Debug, Clone, Copy, PartialEq, Eq)]
pub enum Expected {
    /// This very character.
    Char(char),
    /// A fixed word: `nil`, `true`, `false` or `=>`.
    Token,
    /// A letter, digit or underscore.
    Word,
    /// A decimal digit.
    Digits,
    /// A well-formed number.
    Number,
    /// Any one of several forms: of a key, or of a value.
    Choice,
}

/// A rule that was being parsed when a failure came through, and where that
/// rule had begun.
#[derive(Debug, Clone, Copy, PartialEq, Eq)]
pub struct Frame {
    pub at: usize,
    pub rule: Rule,
}

/// A failed parse: how severe it is, where it happened, what was expected
/// there, and the rules inside which it happened, from the innermost outward.
#[derive(Debug, PartialEq, Eq)]
pub struct ParseError {
    pub severity: Severity,
    pub at: usize,
    pub expected: Expected,
    pub trail: Vec<Frame>,
}

/// The content of a [`ParseError`], with its places as natural numbers.
pub struct Fault {
    pub severity: Severity,
    pub at: nat,
    pub expected: Expected,
    pub trail: Seq<(nat, Rule)>,
}

impl Fault {
    /// A mismatch at `at`, inside no rule yet.
    pub open spec fn mismatch(at: nat, expected: Expected) -> Fault {
        Fault { severity: Severity::Mismatch, at, expected, trail: Seq::empty() }
    }

    /// A hard failure at `at`, inside no rule yet.
    pub open spec fn failure(at: nat, expected: Expected) -> Fault {
        Fault { severity: Severity::Failure, at, expected, trail: Seq::empty() }
    }

    /// The failure is final.
    pub open spec fn is_hard(self) -> bool {
        self.severity == Severity::Failure
    }

    /// The same failure seen from the rule `rule` that began at `at`.
    pub open spec fn within(self, at: nat, rule: Rule) -> Fault {
        Fault { trail: self.trail.push((at, rule)), ..self }
    }

    /// The same failure, now final.
    pub open spec fn hardened(self) -> Fault {
        Fault { severity: Severity::Failure, ..self }
    }
}

impl View for Frame {
    type V = (nat, Rule);

    open spec fn view(&self) -> (nat, Rule) {
        (self.at as nat, self.rule)
    }
}

impl View for ParseError {
    type V = Fault;

    open spec fn view(&self) -> Fault {
        Fault {
            severity: self.severity,
            at: self.at as nat,
            expected: self.expected,
            trail: self.trail@.map_values(|frame: Frame| frame@),
        }
    }
}

impl Rule {
    /// The name under which the rule appears in a diagnostic.
    pub open spec fn label(self) -> Seq<char> {
        match self {
            Rule::String => "string"@,
            Rule::Bytes => "bytes"@,
            Rule::Array => "array"@,
            Rule::Hash => "map"@,
        }
    }

    /// The name under which the rule appears in a diagnostic.
    pub fn name(self) -> (name: &'static str)
        ensures
            name@ == self.label(),
    {
        match self {
            Rule::String => "string",
            Rule::Bytes => "bytes",
            Rule::Array => "array",
            Rule::Hash => "map",
        }
    }
}

impl ParseError {
    /// A mismatch at `at`, inside no rule yet.
    pub fn mismatch(at: usize, expected: Expected) -> (e: ParseError)
        ensures
            e@ == Fault::mismatch(at as nat, expected),
    {
        let e = ParseError { severity: Severity::Mismatch, at, expected, trail: Vec::new() };
        assert(e@.trail =~= Seq::empty());
        e
    }

    /// A hard failure at `at`, inside no rule yet.
    pub fn failure(at: usize, expected: Expected) -> (e: ParseError)
        ensures
            e@ == Fault::failure(at as nat, expected),
    {
        let e = ParseError { severity: Severity::Failure, at, expected, trail: Vec::new() };
        assert(e@.trail =~= Seq::empty());
        e
    }

    /// Whether the failure is final.
    pub fn is_hard(&self) -> (hard: bool)
        ensures
            hard == self@.is_hard(),
    {
        match self.severity {
            Severity::Failure => true,
            Severity::Mismatch => false,
        }
    }

    /// Adds the frame of the rule `rule`, begun at `at`, to the trail.
    pub fn within(self, at: usize, rule: Rule) -> (e: ParseError)
        ensures
            e@ == self@.within(at as nat, rule),
    {
        let mut e = self;
        e.trail.push(Frame { at, rule });
        assert(e@.trail =~= self@.trail.push((at as nat, rule)));
        e
    }

    /// Makes the failure final.
    pub fn hardened(self) -> (e: ParseError)
        ensures
            e@ == self@.hardened(),
    {
        ParseError { severity: Severity::Failure, ..self }
    }
}

} // verus!
