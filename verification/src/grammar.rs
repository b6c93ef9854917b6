//! The grammar, as functions from a text and a position to what is found
//! there.
//!
//! Every rule takes the whole text `s` and the position `at` at which it is
//! tried. It yields either what it denotes together with the number of
//! characters it took, or a [`Fault`] whose positions are again positions in
//! `s`.
//!
//! ```text
//! value  := ws ( "nil" | object | array | string | number | "true" | "false" )
//! object := "{" ( pair  ( ws "," pair  )* )? ws "}"
//! array  := "[" ( value ( ws "," value )* )? ws "]"
//! pair   := ws key ws ":" value  |  ws symbol-key ws "=>" value
//! ```

use vstd::prelude::*;
use crate::error::{Expected, Fault, Rule};
use crate::number::float_literal;
use crate::text::{is_digit, is_space, is_word};
use crate::value::ValueView;

verus! {

/// What a rule finds at a position.
pub enum Outcome<T> {
    /// The rule matched: what it denotes, and how many characters it took.
    Match(T, nat),
    /// The rule did not match.
    Fail(Fault),
}

impl<T> Outcome<T> {
    /// A failure that leaves the alternatives open.
    pub open spec fn is_soft(self) -> bool {
        self matches Outcome::Fail(fault) && !fault.is_hard()
    }
}

/// How much of `s` lies at and after `at`.
pub open spec fn room(s: Seq<char>, at: nat) -> nat {
    if at <= s.len() {
        (s.len() - at) as nat
    } else {
        0
    }
}

/// The character at `at` is `c`.
pub open spec fn sees(s: Seq<char>, at: nat, c: char) -> bool {
    at < s.len() && s[at as int] == c
}

/// The characters of `s` from `from` up to, not including, `to`.
pub open spec fn piece(s: Seq<char>, from: nat, to: nat) -> Seq<char> {
    s.subrange(from as int, to as int)
}

/// The classes of characters that a run can be made of.
#[derive(Debug, Clone, Copy, PartialEq, Eq)]
pub enum Class {
    Space,
    Word,
    Digit,
}

impl Class {
    /// `c` belongs to the class.
    pub open spec fn holds(self, c: char) -> bool {
        match self {
            Class::Space => is_space(c),
            Class::Word => is_word(c),
            Class::Digit => is_digit(c),
        }
    }
}

/// The length of the longest run of `class` characters that begins at `at`.
pub open spec fn run(s: Seq<char>, at: nat, class: Class) -> nat
    decreases room(s, at),
{
    if at < s.len() && class.holds(s[at as int]) {
        1 + run(s, at + 1, class)
    } else {
        0
    }
}

/// The whitespace at `at`.
pub open spec fn spaces(s: Seq<char>, at: nat) -> nat {
    run(s, at, Class::Space)
}

/// `taken` characters more than `rest`, where there is a `rest`.
pub open spec fn more(taken: nat, rest: Option<nat>) -> Option<nat> {
    match rest {
        Some(n) => Some(taken + n),
        None => None,
    }
}

/// The length of the body of a string delimited by `d`, scanned from `at`:
/// everything up to the first delimiter that no backslash escapes, or up to
/// the end of the text.
///
/// A backslash takes the next character with it. Before a backslash or the
/// delimiter it may stand anywhere; before any other character it must follow
/// directly on an ordinary character (`in_run`). A backslash anywhere else, or
/// as the last character of the text, makes the body malformed: `None`.
pub open spec fn body_scan(s: Seq<char>, d: char, at: nat, in_run: bool) -> Option<nat>
    decreases room(s, at),
{
    if at >= s.len() || s[at as int] == d {
        Some(0)
    } else if s[at as int] != '\\' {
        more(1, body_scan(s, d, at + 1, true))
    } else if at + 1 < s.len() && (s[(at + 1) as int] == '\\' || s[(at + 1) as int] == d || in_run) {
        more(2, body_scan(s, d, at + 2, false))
    } else {
        None
    }
}

/// The length of the body that begins at `at`. A malformed body counts as
/// empty, so that the closing delimiter is looked for right at `at`.
pub open spec fn body_len(s: Seq<char>, d: char, at: nat) -> nat {
    match body_scan(s, d, at, false) {
        Some(n) => n,
        None => 0,
    }
}

/// The text that a body stands for: `\\` is a backslash, a backslash before
/// the delimiter is the delimiter, and every other character, a backslash
/// before anything else included, is itself.
pub open spec fn unescape(raw: Seq<char>, d: char) -> Seq<char>
    decreases raw.len(),
{
    if raw.len() == 0 {
        Seq::empty()
    } else if raw[0] == '\\' && raw.len() >= 2 && (raw[1] == '\\' || raw[1] == d) {
        seq![raw[1]] + unescape(raw.skip(2), d)
    } else {
        seq![raw[0]] + unescape(raw.skip(1), d)
    }
}

/// A string in the delimiter `d`. Once the opening delimiter is there, the
/// closing one is owed.
pub open spec fn quoted(s: Seq<char>, d: char, at: nat) -> Outcome<Seq<char>> {
    if !sees(s, at, d) {
        Outcome::Fail(Fault::mismatch(at, Expected::Char(d)).within(at, Rule::String))
    } else {
        let n = body_len(s, d, at + 1);
        let stop = at + 1 + n;
        if sees(s, stop, d) {
            Outcome::Match(unescape(piece(s, at + 1, stop), d), n + 2)
        } else {
            Outcome::Fail(Fault::failure(stop, Expected::Char(d)).within(at, Rule::String))
        }
    }
}

/// A string in double or in single quotes.
pub open spec fn bytes(s: Seq<char>, at: nat) -> Outcome<Seq<char>> {
    match quoted(s, '"', at) {
        Outcome::Match(text, n) => Outcome::Match(text, n),
        Outcome::Fail(fault) => if fault.is_hard() {
            Outcome::Fail(fault.within(at, Rule::Bytes))
        } else {
            match quoted(s, '\'', at) {
                Outcome::Match(text, n) => Outcome::Match(text, n),
                Outcome::Fail(fault) => Outcome::Fail(fault.within(at, Rule::Bytes)),
            }
        },
    }
}

/// A bare key: a run of letters, digits and underscores.
pub open spec fn symbol_key(s: Seq<char>, at: nat) -> Outcome<Seq<char>> {
    let n = run(s, at, Class::Word);
    if n == 0 {
        Outcome::Fail(Fault::mismatch(at, Expected::Word))
    } else {
        Outcome::Match(piece(s, at, at + n), n)
    }
}

/// A key written as a symbol: a colon and a bare key. The colon belongs to
/// the key.
pub open spec fn colon_key(s: Seq<char>, at: nat) -> Outcome<Seq<char>> {
    if !sees(s, at, ':') {
        Outcome::Fail(Fault::mismatch(at, Expected::Char(':')))
    } else {
        let n = run(s, at + 1, Class::Word);
        if n == 0 {
            Outcome::Fail(Fault::mismatch(at + 1, Expected::Word))
        } else {
            Outcome::Match(piece(s, at, at + 1 + n), 1 + n)
        }
    }
}

/// A key made of digits, kept as text.
pub open spec fn digit_key(s: Seq<char>, at: nat) -> Outcome<Seq<char>> {
    let n = run(s, at, Class::Digit);
    if n == 0 {
        Outcome::Fail(Fault::mismatch(at, Expected::Digits))
    } else {
        Outcome::Match(piece(s, at, at + n), n)
    }
}

/// The first of two outcomes unless it leaves the alternatives open.
pub open spec fn or_else<T>(first: Outcome<T>, second: Outcome<T>) -> Outcome<T> {
    if first.is_soft() {
        second
    } else {
        first
    }
}

/// Any failure of the last alternative of a key is a missing key.
pub open spec fn or_no_key(last: Outcome<Seq<char>>, at: nat) -> Outcome<Seq<char>> {
    if last.is_soft() {
        Outcome::Fail(Fault::mismatch(at, Expected::Choice))
    } else {
        last
    }
}

/// The key of the form `key: value`: a string, a bare key or digits.
pub open spec fn key_colon(s: Seq<char>, at: nat) -> Outcome<Seq<char>> {
    or_else(
        quoted(s, '"', at),
        or_else(
            quoted(s, '\'', at),
            or_else(symbol_key(s, at), or_no_key(digit_key(s, at), at)),
        ),
    )
}

/// The key of the form `:key => value`: a string, a symbol or digits.
pub open spec fn key_arrow(s: Seq<char>, at: nat) -> Outcome<Seq<char>> {
    or_else(
        quoted(s, '"', at),
        or_else(
            quoted(s, '\'', at),
            or_else(colon_key(s, at), or_no_key(digit_key(s, at), at)),
        ),
    )
}

/// The word `nil`.
pub open spec fn nil(s: Seq<char>, at: nat) -> Outcome<ValueView> {
    if sees(s, at, 'n') && sees(s, at + 1, 'i') && sees(s, at + 2, 'l') {
        Outcome::Match(ValueView::Null, 3)
    } else {
        Outcome::Fail(Fault::mismatch(at, Expected::Token))
    }
}

/// The word `true` or the word `false`.
pub open spec fn boolean(s: Seq<char>, at: nat) -> Outcome<bool> {
    if sees(s, at, 't') && sees(s, at + 1, 'r') && sees(s, at + 2, 'u') && sees(s, at + 3, 'e') {
        Outcome::Match(true, 4)
    } else if sees(s, at, 'f') && sees(s, at + 1, 'a') && sees(s, at + 2, 'l') && sees(
        s,
        at + 3,
        's',
    ) && sees(s, at + 4, 'e') {
        Outcome::Match(false, 5)
    } else {
        Outcome::Fail(Fault::mismatch(at, Expected::Token))
    }
}

/// What the scanner's answer `scanned` amounts to where `room` characters
/// were handed to it, from `at` on. An answer that leaves more than it was
/// given is no number.
pub open spec fn number_from(scanned: Result<(usize, u64), bool>, at: nat, room: nat) -> Outcome<u64> {
    match scanned {
        Ok((left, bits)) => if left <= room {
            Outcome::Match(bits, (room - left) as nat)
        } else {
            Outcome::Fail(Fault::mismatch(at, Expected::Number))
        },
        Err(hard) => if hard {
            Outcome::Fail(Fault::failure(at, Expected::Number))
        } else {
            Outcome::Fail(Fault::mismatch(at, Expected::Number))
        },
    }
}

/// A number: whatever the number scanner makes of the text from `at` on.
pub open spec fn number(s: Seq<char>, at: nat) -> Outcome<u64> {
    number_from(float_literal(piece(s, at, s.len())), at, room(s, at))
}

/// `found`, preceded by what `found` itself was preceded by: `before` more
/// characters, and the items `head`.
pub open spec fn after<T>(head: Seq<T>, before: nat, found: Outcome<Seq<T>>) -> Outcome<Seq<T>> {
    match found {
        Outcome::Match(tail, n) => Outcome::Match(head + tail, before + n),
        Outcome::Fail(fault) => Outcome::Fail(fault),
    }
}

/// What comes after one item, which itself comes after `head`, comes after
/// `head` with that item at its end.
pub proof fn lemma_after_item<T>(
    head: Seq<T>,
    before: nat,
    item: T,
    taken: nat,
    found: Outcome<Seq<T>>,
)
    ensures
        after(head, before, after(seq![item], taken, found)) == after(
            head.push(item),
            before + taken,
            found,
        ),
{
    if let Outcome::Match(tail, _) = found {
        assert(head + (seq![item] + tail) =~= head.push(item) + tail);
    }
}

/// Where nothing more is found, what was found before is all.
pub proof fn lemma_after_none<T>(head: Seq<T>, before: nat)
    ensures
        after(head, before, Outcome::Match(Seq::empty(), 0)) == Outcome::Match(head, before),
{
    assert(head + Seq::<T>::empty() =~= head);
}

/// The map that the pairs build when each is inserted in turn: of two pairs
/// with one key, the later one stays.
pub open spec fn to_map(pairs: Seq<(Seq<char>, ValueView)>) -> Map<Seq<char>, ValueView>
    decreases pairs.len(),
{
    if pairs.len() == 0 {
        Map::empty()
    } else {
        to_map(pairs.drop_last()).insert(pairs.last().0, pairs.last().1)
    }
}

/// A value, after any whitespace: the first that matches of `nil`, an object,
/// an array, a string, a number, a boolean. A hard failure of one ends the
/// search.
pub open spec fn value(s: Seq<char>, at: nat) -> Outcome<ValueView>
    decreases room(s, at), 2nat,
{
    let ws = spaces(s, at);
    let p = at + ws;
    if nil(s, p) is Match {
        Outcome::Match(ValueView::Null, ws + 3)
    } else {
        match object(s, p) {
            Outcome::Match(v, n) => Outcome::Match(v, ws + n),
            Outcome::Fail(fault) => if fault.is_hard() {
                Outcome::Fail(fault)
            } else {
                match array(s, p) {
                    Outcome::Match(v, n) => Outcome::Match(v, ws + n),
                    Outcome::Fail(fault) => if fault.is_hard() {
                        Outcome::Fail(fault)
                    } else {
                        scalar(s, p, ws)
                    },
                }
            },
        }
    }
}

/// The alternatives of a value that hold no other value: a string, a number,
/// a boolean. `p` is where the value begins and `ws` the whitespace before
/// it.
pub open spec fn scalar(s: Seq<char>, p: nat, ws: nat) -> Outcome<ValueView> {
    match bytes(s, p) {
        Outcome::Match(text, n) => Outcome::Match(ValueView::Bytes(text), ws + n),
        Outcome::Fail(fault) => if fault.is_hard() {
            Outcome::Fail(fault)
        } else {
            match number(s, p) {
                Outcome::Match(bits, n) => Outcome::Match(ValueView::Float(bits), ws + n),
                Outcome::Fail(fault) => if fault.is_hard() {
                    Outcome::Fail(fault)
                } else {
                    match boolean(s, p) {
                        Outcome::Match(b, n) => Outcome::Match(ValueView::Boolean(b), ws + n),
                        Outcome::Fail(_) => Outcome::Fail(Fault::mismatch(p, Expected::Choice)),
                    }
                },
            }
        },
    }
}

/// An array. Once `[` is there, the items and `]` are owed.
pub open spec fn array(s: Seq<char>, at: nat) -> Outcome<ValueView>
    decreases room(s, at), 1nat,
{
    if !sees(s, at, '[') {
        Outcome::Fail(Fault::mismatch(at, Expected::Char('[')).within(at, Rule::Array))
    } else {
        match items(s, at + 1) {
            Outcome::Fail(fault) => Outcome::Fail(fault.within(at, Rule::Array)),
            Outcome::Match(found, n) => {
                let ws = spaces(s, at + 1 + n);
                let stop = at + 1 + n + ws;
                if sees(s, stop, ']') {
                    Outcome::Match(ValueView::Array(found), 1 + n + ws + 1)
                } else {
                    Outcome::Fail(
                        Fault::failure(stop, Expected::Char(']')).within(at, Rule::Array),
                    )
                }
            },
        }
    }
}

/// The items of an array, from the first on. Where no value begins there are
/// none.
pub open spec fn items(s: Seq<char>, at: nat) -> Outcome<Seq<ValueView>>
    decreases room(s, at), 3nat,
{
    match value(s, at) {
        Outcome::Match(v, n) => after(seq![v], n, more_items(s, at + n)),
        Outcome::Fail(fault) => if fault.is_hard() {
            Outcome::Fail(fault)
        } else {
            Outcome::Match(Seq::empty(), 0)
        },
    }
}

/// The items that follow an item that ended at `at`, each behind a comma. A
/// comma that no value follows is not taken.
pub open spec fn more_items(s: Seq<char>, at: nat) -> Outcome<Seq<ValueView>>
    decreases room(s, at), 0nat,
{
    let ws = spaces(s, at);
    if !sees(s, at + ws, ',') {
        Outcome::Match(Seq::empty(), 0)
    } else {
        match value(s, at + ws + 1) {
            Outcome::Match(v, n) => after(seq![v], ws + 1 + n, more_items(s, at + ws + 1 + n)),
            Outcome::Fail(fault) => if fault.is_hard() {
                Outcome::Fail(fault)
            } else {
                Outcome::Match(Seq::empty(), 0)
            },
        }
    }
}

/// An object. Once `{` is there, the pairs and `}` are owed.
pub open spec fn object(s: Seq<char>, at: nat) -> Outcome<ValueView>
    decreases room(s, at), 1nat,
{
    if !sees(s, at, '{') {
        Outcome::Fail(Fault::mismatch(at, Expected::Char('{')).within(at, Rule::Hash))
    } else {
        match pairs(s, at + 1) {
            Outcome::Fail(fault) => Outcome::Fail(fault.within(at, Rule::Hash)),
            Outcome::Match(found, n) => {
                let ws = spaces(s, at + 1 + n);
                let stop = at + 1 + n + ws;
                if sees(s, stop, '}') {
                    Outcome::Match(ValueView::Object(to_map(found)), 1 + n + ws + 1)
                } else {
                    Outcome::Fail(
                        Fault::failure(stop, Expected::Char('}')).within(at, Rule::Hash),
                    )
                }
            },
        }
    }
}

/// The pairs of an object, from the first on, in the order of the text.
pub open spec fn pairs(s: Seq<char>, at: nat) -> Outcome<Seq<(Seq<char>, ValueView)>>
    decreases room(s, at), 3nat,
{
    match pair(s, at) {
        Outcome::Match(kv, n) => after(seq![kv], n, more_pairs(s, at + n)),
        Outcome::Fail(fault) => if fault.is_hard() {
            Outcome::Fail(fault)
        } else {
            Outcome::Match(Seq::empty(), 0)
        },
    }
}

/// The pairs that follow a pair that ended at `at`, each behind a comma.
pub open spec fn more_pairs(s: Seq<char>, at: nat) -> Outcome<Seq<(Seq<char>, ValueView)>>
    decreases room(s, at), 0nat,
{
    let ws = spaces(s, at);
    if !sees(s, at + ws, ',') {
        Outcome::Match(Seq::empty(), 0)
    } else {
        match pair(s, at + ws + 1) {
            Outcome::Match(kv, n) => after(seq![kv], ws + 1 + n, more_pairs(s, at + ws + 1 + n)),
            Outcome::Fail(fault) => if fault.is_hard() {
                Outcome::Fail(fault)
            } else {
                Outcome::Match(Seq::empty(), 0)
            },
        }
    }
}

/// A key and its value: the form `key: value`, or else, where no such key
/// begins, the form `:key => value`.
pub open spec fn pair(s: Seq<char>, at: nat) -> Outcome<(Seq<char>, ValueView)>
    decreases room(s, at), 2nat,
{
    or_else(pair_colon(s, at), pair_arrow(s, at))
}

/// The form `key: value`. Once the key is there, `:` and the value are owed.
pub open spec fn pair_colon(s: Seq<char>, at: nat) -> Outcome<(Seq<char>, ValueView)>
    decreases room(s, at), 1nat,
{
    let lead = spaces(s, at);
    match key_colon(s, at + lead) {
        Outcome::Fail(fault) => Outcome::Fail(fault),
        Outcome::Match(key, n) => {
            let ws = spaces(s, at + lead + n);
            let sep = at + lead + n + ws;
            if !sees(s, sep, ':') {
                Outcome::Fail(Fault::failure(sep, Expected::Char(':')))
            } else {
                match value(s, sep + 1) {
                    Outcome::Match(v, m) => Outcome::Match((key, v), lead + n + ws + 1 + m),
                    Outcome::Fail(fault) => Outcome::Fail(fault.hardened()),
                }
            }
        },
    }
}

/// The form `:key => value`. Once the key is there, `=>` and the value are
/// owed.
pub open spec fn pair_arrow(s: Seq<char>, at: nat) -> Outcome<(Seq<char>, ValueView)>
    decreases room(s, at), 1nat,
{
    let lead = spaces(s, at);
    match key_arrow(s, at + lead) {
        Outcome::Fail(fault) => Outcome::Fail(fault),
        Outcome::Match(key, n) => {
            let ws = spaces(s, at + lead + n);
            let sep = at + lead + n + ws;
            if !(sees(s, sep, '=') && sees(s, sep + 1, '>')) {
                Outcome::Fail(Fault::failure(sep, Expected::Token))
            } else {
                match value(s, sep + 2) {
                    Outcome::Match(v, m) => Outcome::Match((key, v), lead + n + ws + 2 + m),
                    Outcome::Fail(fault) => Outcome::Fail(fault.hardened()),
                }
            }
        },
    }
}

} // verus!
