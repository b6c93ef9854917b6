//! The lexical rules: whitespace, runs of one class, and delimited strings.

use vstd::prelude::*;
use crate::error::{Expected, ParseError, Rule};
use crate::grammar::{
    body_len, body_scan, bytes, colon_key, digit_key, key_arrow, key_colon, more, piece, quoted,
    run, spaces, symbol_key, unescape, Class,
};
use crate::input::{reports, Input};
use crate::text::{digit, space, word};

verus! {

impl Class {
    /// Whether `c` belongs to the class.
    pub fn test(self, c: char) -> (r: bool)
        ensures
            r == self.holds(c),
    {
        match self {
            Class::Space => space(c),
            Class::Word => word(c),
            Class::Digit => digit(c),
        }
    }
}

impl Input {
    /// Where the longest run of `class` characters that begins at `at` ends.
    pub fn scan(&self, at: usize, class: Class) -> (end: usize)
        requires
            at <= self@.len(),
        ensures
            end == at + run(self@, at as nat, class),
            end <= self@.len(),
    {
        let mut i: usize = at;
        while i < self.chars.len() && class.test(self.chars[i])
            invariant
                at <= i <= self.chars@.len(),
                run(self.chars@, at as nat, class) == (i - at) + run(self.chars@, i as nat, class),
            decreases self.chars@.len() - i,
        {
            i += 1;
        }
        i
    }

    /// Skips whitespace: where the first character at or after `at` stands
    /// that is no space, tab, carriage return or newline.
    pub fn sp(&self, at: usize) -> (end: usize)
        requires
            at <= self@.len(),
        ensures
            end == at + spaces(self@, at as nat),
            end <= self@.len(),
    {
        self.scan(at, Class::Space)
    }

    /// Where the body of a string in the delimiter `d` ends, if it begins at
    /// `at`.
    fn body_end(&self, d: char, at: usize) -> (stop: usize)
        requires
            at <= self@.len(),
        ensures
            stop == at + body_len(self@, d, at as nat),
            stop <= self@.len(),
    {
        let n = self.chars.len();
        let mut i: usize = at;
        let mut in_run = false;
        loop
            invariant
                at <= i <= n == self.chars@.len(),
                body_scan(self.chars@, d, at as nat, false) == more(
                    (i - at) as nat,
                    body_scan(self.chars@, d, i as nat, in_run),
                ),
            decreases n - i,
        {
            if i >= n {
                return i;
            }
            let c = self.chars[i];
            if c == d {
                return i;
            }
            if c != '\\' {
                i += 1;
                in_run = true;
            } else if i + 1 < n && (self.chars[i + 1] == '\\' || self.chars[i + 1] == d || in_run) {
                i += 2;
                in_run = false;
            } else {
                return at;
            }
        }
    }

    /// The text that the body between `from` and `to` stands for.
    fn unescaped(&self, d: char, from: usize, to: usize) -> (text: String)
        requires
            from <= to <= self@.len(),
        ensures
            text@ == unescape(piece(self@, from as nat, to as nat), d),
    {
        let ghost raw = self.chars@.subrange(from as int, to as int);
        let mut text = String::new();
        let mut i: usize = from;
        assert(raw.skip(0) =~= raw);
        while i < to
            invariant
                from <= i <= to <= self.chars@.len(),
                raw == self.chars@.subrange(from as int, to as int),
                unescape(raw, d) == text@ + unescape(raw.skip(i - from), d),
            decreases to - i,
        {
            let ghost rest = raw.skip(i - from);
            let ghost before = text@;
            let c = self.chars[i];
            if c == '\\' && i + 1 < to && (self.chars[i + 1] == '\\' || self.chars[i + 1] == d) {
                let e = self.chars[i + 1];
                text.push(e);
                i += 2;
                proof {
                    assert(rest.skip(2) =~= raw.skip(i - from));
                    assert(before + (seq![e] + unescape(rest.skip(2), d)) =~= before.push(e)
                        + unescape(rest.skip(2), d));
                }
            } else {
                text.push(c);
                i += 1;
                proof {
                    assert(rest.skip(1) =~= raw.skip(i - from));
                    assert(before + (seq![c] + unescape(rest.skip(1), d)) =~= before.push(c)
                        + unescape(rest.skip(1), d));
                }
            }
        }
        assert(text@ + Seq::<char>::empty() =~= text@);
        text
    }

    /// The body of a string in the delimiter `delimiter`, which begins at
    /// `at`: the text it stands for, and where the body ends. That is where
    /// the closing delimiter has to stand.
    pub fn parse_inner_str(&self, delimiter: char, at: usize) -> (r: (String, usize))
        requires
            at <= self@.len(),
        ensures
            r.1 == at + body_len(self@, delimiter, at as nat),
            r.1 <= self@.len(),
            r.0@ == unescape(piece(self@, at as nat, r.1 as nat), delimiter),
    {
        let stop = self.body_end(delimiter, at);
        (self.unescaped(delimiter, at, stop), stop)
    }

    /// A string in the delimiter `delimiter`.
    pub fn parse_str(&self, delimiter: char, at: usize) -> (r: Result<(String, usize), ParseError>)
        requires
            at <= self@.len(),
        ensures
            reports(r, at, quoted(self@, delimiter, at as nat)),
            r matches Ok((_, end)) ==> at < end <= self@.len(),
    {
        if !self.sees(at, delimiter) {
            return Err(
                ParseError::mismatch(at, Expected::Char(delimiter)).within(at, Rule::String),
            );
        }
        let (text, stop) = self.parse_inner_str(delimiter, at + 1);
        if self.sees(stop, delimiter) {
            Ok((text, stop + 1))
        } else {
            Err(ParseError::failure(stop, Expected::Char(delimiter)).within(at, Rule::String))
        }
    }
}

impl Input {
    /// A string in double or in single quotes.
    pub fn parse_bytes(&self, at: usize) -> (r: Result<(String, usize), ParseError>)
        requires
            at <= self@.len(),
        ensures
            reports(r, at, bytes(self@, at as nat)),
            r matches Ok((_, end)) ==> at < end <= self@.len(),
    {
        match self.parse_str('"', at) {
            Ok(found) => Ok(found),
            Err(e) => {
                if e.is_hard() {
                    Err(e.within(at, Rule::Bytes))
                } else {
                    match self.parse_str('\'', at) {
                        Ok(found) => Ok(found),
                        Err(e) => Err(e.within(at, Rule::Bytes)),
                    }
                }
            },
        }
    }

    /// A bare key: a run of letters, digits and underscores.
    pub fn parse_symbol_key(&self, at: usize) -> (r: Result<(String, usize), ParseError>)
        requires
            at <= self@.len(),
        ensures
            reports(r, at, symbol_key(self@, at as nat)),
            r matches Ok((_, end)) ==> at < end <= self@.len(),
    {
        let end = self.scan(at, Class::Word);
        if end == at {
            Err(ParseError::mismatch(at, Expected::Word))
        } else {
            Ok((self.copy(at, end), end))
        }
    }

    /// A key written as a symbol: a colon and a bare key. The key that is
    /// returned begins with the colon.
    pub fn parse_colon_key(&self, at: usize) -> (r: Result<(String, usize), ParseError>)
        requires
            at <= self@.len(),
        ensures
            reports(r, at, colon_key(self@, at as nat)),
            r matches Ok((_, end)) ==> at < end <= self@.len(),
    {
        if !self.sees(at, ':') {
            return Err(ParseError::mismatch(at, Expected::Char(':')));
        }
        let end = self.scan(at + 1, Class::Word);
        if end == at + 1 {
            Err(ParseError::mismatch(at + 1, Expected::Word))
        } else {
            Ok((self.copy(at, end), end))
        }
    }

    /// A key made of digits, kept as text.
    pub fn parse_digit_key(&self, at: usize) -> (r: Result<(String, usize), ParseError>)
        requires
            at <= self@.len(),
        ensures
            reports(r, at, digit_key(self@, at as nat)),
            r matches Ok((_, end)) ==> at < end <= self@.len(),
    {
        let end = self.scan(at, Class::Digit);
        if end == at {
            Err(ParseError::mismatch(at, Expected::Digits))
        } else {
            Ok((self.copy(at, end), end))
        }
    }

    /// The key of the form `key: value`: a string, a bare key or digits.
    pub fn parse_key_colon_hash(&self, at: usize) -> (r: Result<(String, usize), ParseError>)
        requires
            at <= self@.len(),
        ensures
            reports(r, at, key_colon(self@, at as nat)),
            r matches Ok((_, end)) ==> at < end <= self@.len(),
    {
        match self.parse_str('"', at) {
            Ok(found) => {
                return Ok(found);
            },
            Err(e) => {
                if e.is_hard() {
                    return Err(e);
                }
            },
        }
        match self.parse_str('\'', at) {
            Ok(found) => {
                return Ok(found);
            },
            Err(e) => {
                if e.is_hard() {
                    return Err(e);
                }
            },
        }
        match self.parse_symbol_key(at) {
            Ok(found) => {
                return Ok(found);
            },
            Err(_) => {},
        }
        match self.parse_digit_key(at) {
            Ok(found) => Ok(found),
            Err(_) => Err(ParseError::mismatch(at, Expected::Choice)),
        }
    }

    /// The key of the form `:key => value`: a string, a symbol or digits.
    pub fn parse_key_arrow_hash(&self, at: usize) -> (r: Result<(String, usize), ParseError>)
        requires
            at <= self@.len(),
        ensures
            reports(r, at, key_arrow(self@, at as nat)),
            r matches Ok((_, end)) ==> at < end <= self@.len(),
    {
        match self.parse_str('"', at) {
            Ok(found) => {
                return Ok(found);
            },
            Err(e) => {
                if e.is_hard() {
                    return Err(e);
                }
            },
        }
        match self.parse_str('\'', at) {
            Ok(found) => {
                return Ok(found);
            },
            Err(e) => {
                if e.is_hard() {
                    return Err(e);
                }
            },
        }
        match self.parse_colon_key(at) {
            Ok(found) => {
                return Ok(found);
            },
            Err(_) => {},
        }
        match self.parse_digit_key(at) {
            Ok(found) => Ok(found),
            Err(_) => Err(ParseError::mismatch(at, Expected::Choice)),
        }
    }
}

} // verus!
