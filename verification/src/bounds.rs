//! Nothing that the grammar finds or reports lies outside the text.

use vstd::prelude::*;
use crate::grammar::{
    array, body_len, body_scan, boolean, bytes, colon_key, digit_key, items, key_arrow,
    key_colon, more_items, more_pairs, nil, number, object, pair, pair_arrow, pair_colon, pairs,
    quoted, room, run, scalar, sees, spaces, symbol_key, value, Class, Outcome,
};
use crate::laws::lemma_run_is_longest;

verus! {

/// What was found at `at` ends within `s`, or the failure and every frame of
/// its trail lie within `s`, its end included.
pub open spec fn inside<T>(found: Outcome<T>, s: Seq<char>, at: nat) -> bool {
    match found {
        Outcome::Match(_, n) => at + n <= s.len(),
        Outcome::Fail(fault) => {
            &&& fault.at <= s.len()
            &&& forall|i: int| 0 <= i < fault.trail.len() ==> (#[trigger] fault.trail[i]).0 <= s.len()
        },
    }
}

/// However a body is scanned, it ends within the text.
pub proof fn lemma_body_scan_inside(s: Seq<char>, d: char, at: nat, in_run: bool)
    requires
        at <= s.len(),
    ensures
        body_scan(s, d, at, in_run) matches Some(n) ==> at + n <= s.len(),
    decreases room(s, at),
{
    if at >= s.len() || s[at as int] == d {
    } else if s[at as int] != '\\' {
        lemma_body_scan_inside(s, d, at + 1, true);
    } else if at + 1 < s.len() && (s[(at + 1) as int] == '\\' || s[(at + 1) as int] == d || in_run) {
        lemma_body_scan_inside(s, d, at + 2, false);
    }
}

/// A body ends within the text.
pub proof fn lemma_body_inside(s: Seq<char>, d: char, at: nat)
    requires
        at <= s.len(),
    ensures
        at + body_len(s, d, at) <= s.len(),
{
    lemma_body_scan_inside(s, d, at, false);
}

/// A string lies within the text.
pub proof fn lemma_quoted_inside(s: Seq<char>, d: char, at: nat)
    requires
        at <= s.len(),
    ensures
        inside(quoted(s, d, at), s, at),
{
    if sees(s, at, d) {
        lemma_body_inside(s, d, at + 1);
    }
}

/// A key of either form lies within the text.
pub proof fn lemma_key_inside(s: Seq<char>, at: nat)
    requires
        at <= s.len(),
    ensures
        inside(key_colon(s, at), s, at),
        inside(key_arrow(s, at), s, at),
{
    lemma_quoted_inside(s, '"', at);
    lemma_quoted_inside(s, '\'', at);
    lemma_run_is_longest(s, at, Class::Word);
    lemma_run_is_longest(s, at, Class::Digit);
    if sees(s, at, ':') {
        lemma_run_is_longest(s, at + 1, Class::Word);
    }
    assert(inside(symbol_key(s, at), s, at));
    assert(inside(colon_key(s, at), s, at));
    assert(inside(digit_key(s, at), s, at));
}

/// A value lies within the text.
pub proof fn lemma_value_inside(s: Seq<char>, at: nat)
    requires
        at <= s.len(),
    ensures
        inside(value(s, at), s, at),
    decreases room(s, at), 2nat,
{
    lemma_run_is_longest(s, at, Class::Space);
    let p = at + spaces(s, at);
    lemma_object_inside(s, p);
    lemma_array_inside(s, p);
    lemma_quoted_inside(s, '"', p);
    lemma_quoted_inside(s, '\'', p);
    assert(inside(bytes(s, p), s, p));
    assert(inside(number(s, p), s, p));
    assert(inside(boolean(s, p), s, p));
    assert(inside(nil(s, p), s, p));
    assert(inside(scalar(s, p, spaces(s, at)), s, at));
}

/// An array lies within the text.
pub proof fn lemma_array_inside(s: Seq<char>, at: nat)
    requires
        at <= s.len(),
    ensures
        inside(array(s, at), s, at),
    decreases room(s, at), 1nat,
{
    if sees(s, at, '[') {
        lemma_items_inside(s, at + 1);
        if let Outcome::Match(_, n) = items(s, at + 1) {
            lemma_run_is_longest(s, at + 1 + n, Class::Space);
        }
    }
}

/// The items of an array lie within the text.
pub proof fn lemma_items_inside(s: Seq<char>, at: nat)
    requires
        at <= s.len(),
    ensures
        inside(items(s, at), s, at),
    decreases room(s, at), 3nat,
{
    lemma_value_inside(s, at);
    if let Outcome::Match(_, n) = value(s, at) {
        lemma_more_items_inside(s, at + n);
    }
}

/// The items behind an item lie within the text.
pub proof fn lemma_more_items_inside(s: Seq<char>, at: nat)
    requires
        at <= s.len(),
    ensures
        inside(more_items(s, at), s, at),
    decreases room(s, at), 0nat,
{
    lemma_run_is_longest(s, at, Class::Space);
    let ws = spaces(s, at);
    if sees(s, at + ws, ',') {
        lemma_value_inside(s, at + ws + 1);
        if let Outcome::Match(_, n) = value(s, at + ws + 1) {
            lemma_more_items_inside(s, at + ws + 1 + n);
        }
    }
}

/// An object lies within the text.
pub proof fn lemma_object_inside(s: Seq<char>, at: nat)
    requires
        at <= s.len(),
    ensures
        inside(object(s, at), s, at),
    decreases room(s, at), 1nat,
{
    if sees(s, at, '{') {
        lemma_pairs_inside(s, at + 1);
        if let Outcome::Match(_, n) = pairs(s, at + 1) {
            lemma_run_is_longest(s, at + 1 + n, Class::Space);
        }
    }
}

/// The pairs of an object lie within the text.
pub proof fn lemma_pairs_inside(s: Seq<char>, at: nat)
    requires
        at <= s.len(),
    ensures
        inside(pairs(s, at), s, at),
    decreases room(s, at), 3nat,
{
    lemma_pair_inside(s, at);
    if let Outcome::Match(_, n) = pair(s, at) {
        lemma_more_pairs_inside(s, at + n);
    }
}

/// The pairs behind a pair lie within the text.
pub proof fn lemma_more_pairs_inside(s: Seq<char>, at: nat)
    requires
        at <= s.len(),
    ensures
        inside(more_pairs(s, at), s, at),
    decreases room(s, at), 0nat,
{
    lemma_run_is_longest(s, at, Class::Space);
    let ws = spaces(s, at);
    if sees(s, at + ws, ',') {
        lemma_pair_inside(s, at + ws + 1);
        if let Outcome::Match(_, n) = pair(s, at + ws + 1) {
            lemma_more_pairs_inside(s, at + ws + 1 + n);
        }
    }
}

/// A pair, in either form, lies within the text.
pub proof fn lemma_pair_inside(s: Seq<char>, at: nat)
    requires
        at <= s.len(),
    ensures
        inside(pair(s, at), s, at),
        inside(pair_colon(s, at), s, at),
        inside(pair_arrow(s, at), s, at),
    decreases room(s, at), 2nat,
{
    lemma_run_is_longest(s, at, Class::Space);
    let lead = spaces(s, at);
    lemma_key_inside(s, at + lead);
    if let Outcome::Match(_, n) = key_colon(s, at + lead) {
        lemma_run_is_longest(s, at + lead + n, Class::Space);
        let sep = at + lead + n + spaces(s, at + lead + n);
        if sees(s, sep, ':') {
            lemma_value_inside(s, sep + 1);
        }
    }
    if let Outcome::Match(_, n) = key_arrow(s, at + lead) {
        lemma_run_is_longest(s, at + lead + n, Class::Space);
        let sep = at + lead + n + spaces(s, at + lead + n);
        if sees(s, sep, '=') && sees(s, sep + 1, '>') {
            lemma_value_inside(s, sep + 2);
        }
    }
}

} // verus!
