//! The value grammar: values, arrays, objects and their pairs.

use vstd::prelude::*;
use crate::error::{Expected, ParseError, Rule};
use crate::grammar::{
    after, array, boolean, items, lemma_after_item, lemma_after_none, more_items, more_pairs, nil,
    object, pair, pair_arrow, pair_colon, pairs, scalar, sees, to_map, value, Outcome,
};
use crate::input::{reports, Input};
use crate::object::{all_wf, upsert};
use crate::value::{ascending, entries_view, items_view, Value, ValueView};

verus! {

impl Input {
    /// The word `nil`.
    pub fn parse_nil(&self, at: usize) -> (r: Result<(Value, usize), ParseError>)
        ensures
            reports(r, at, nil(self@, at as nat)),
            r matches Ok((v, end)) ==> v.wf() && at < end <= self@.len(),
    {
        if self.sees(at, 'n') && self.sees(at + 1, 'i') && self.sees(at + 2, 'l') {
            Ok((Value::Null, at + 3))
        } else {
            Err(ParseError::mismatch(at, Expected::Token))
        }
    }

    /// The word `true` or the word `false`.
    pub fn parse_boolean(&self, at: usize) -> (r: Result<(bool, usize), ParseError>)
        ensures
            reports(r, at, boolean(self@, at as nat)),
            r matches Ok((_, end)) ==> at < end <= self@.len(),
    {
        if self.sees(at, 't') && self.sees(at + 1, 'r') && self.sees(at + 2, 'u') && self.sees(
            at + 3,
            'e',
        ) {
            Ok((true, at + 4))
        } else if self.sees(at, 'f') && self.sees(at + 1, 'a') && self.sees(at + 2, 'l')
            && self.sees(at + 3, 's') && self.sees(at + 4, 'e') {
            Ok((false, at + 5))
        } else {
            Err(ParseError::mismatch(at, Expected::Token))
        }
    }

    /// A string, a number or a boolean at `p`, where the value begins that
    /// was looked for from `at` on.
    fn parse_scalar(&self, p: usize, at: usize) -> (r: Result<(Value, usize), ParseError>)
        requires
            at <= p <= self@.len(),
        ensures
            reports(r, at, scalar(self@, p as nat, (p - at) as nat)),
            r matches Ok((v, end)) ==> v.wf() && p <= end <= self@.len(),
    {
        match self.parse_bytes(p) {
            Ok((text, end)) => {
                return Ok((Value::Bytes(text), end));
            },
            Err(e) => {
                if e.is_hard() {
                    return Err(e);
                }
            },
        }
        match self.parse_number(p) {
            Ok((bits, end)) => {
                return Ok((Value::Float(bits), end));
            },
            Err(e) => {
                if e.is_hard() {
                    return Err(e);
                }
            },
        }
        match self.parse_boolean(p) {
            Ok((b, end)) => Ok((Value::Boolean(b), end)),
            Err(_) => Err(ParseError::mismatch(p, Expected::Choice)),
        }
    }

    /// A value, after any whitespace.
    pub fn parse_value(&self, at: usize) -> (r: Result<(Value, usize), ParseError>)
        requires
            at <= self@.len(),
        ensures
            reports(r, at, value(self@, at as nat)),
            r matches Ok((v, end)) ==> v.wf() && at <= end <= self@.len(),
        decreases self@.len() - at, 2nat,
    {
        let p = self.sp(at);
        match self.parse_nil(p) {
            Ok((v, end)) => {
                return Ok((v, end));
            },
            Err(_) => {},
        }
        match self.parse_hash(p) {
            Ok((v, end)) => {
                return Ok((v, end));
            },
            Err(e) => {
                if e.is_hard() {
                    return Err(e);
                }
            },
        }
        match self.parse_array(p) {
            Ok((v, end)) => {
                return Ok((v, end));
            },
            Err(e) => {
                if e.is_hard() {
                    return Err(e);
                }
            },
        }
        self.parse_scalar(p, at)
    }

    /// An array.
    pub fn parse_array(&self, at: usize) -> (r: Result<(Value, usize), ParseError>)
        requires
            at <= self@.len(),
        ensures
            reports(r, at, array(self@, at as nat)),
            r matches Ok((v, end)) ==> v.wf() && at < end <= self@.len(),
        decreases self@.len() - at, 1nat,
    {
        if !self.sees(at, '[') {
            return Err(ParseError::mismatch(at, Expected::Char('[')).within(at, Rule::Array));
        }
        let mut found: Vec<Value> = Vec::new();
        let mut cur: usize = at + 1;
        let mut open = true;
        match self.parse_value(cur) {
            Ok((v, end)) => {
                found.push(v);
                cur = end;
                assert(items_view(found@) =~= seq![v@]);
            },
            Err(e) => {
                if e.is_hard() {
                    return Err(e.within(at, Rule::Array));
                }
                open = false;
                assert(items_view(found@) =~= Seq::<ValueView>::empty());
            },
        }
        while open
            invariant
                at < cur <= self@.len(),
                sees(self@, at as nat, '['),
                forall|i: int| 0 <= i < found@.len() ==> (#[trigger] found@[i]).wf(),
                open ==> items(self@, (at + 1) as nat) == after(
                    items_view(found@),
                    (cur - at - 1) as nat,
                    more_items(self@, cur as nat),
                ),
                !open ==> items(self@, (at + 1) as nat) == Outcome::Match(
                    items_view(found@),
                    (cur - at - 1) as nat,
                ),
            decreases self@.len() - cur, (if open { 1nat } else { 0nat }),
        {
            let ghost head = items_view(found@);
            let q = self.sp(cur);
            if !self.sees(q, ',') {
                open = false;
                proof {
                    lemma_after_none(head, (cur - at - 1) as nat);
                }
            } else {
                match self.parse_value(q + 1) {
                    Ok((v, end)) => {
                        found.push(v);
                        proof {
                            assert(items_view(found@) =~= head.push(v@));
                            lemma_after_item(
                                head,
                                (cur - at - 1) as nat,
                                v@,
                                (end - cur) as nat,
                                more_items(self@, end as nat),
                            );
                        }
                        cur = end;
                    },
                    Err(e) => {
                        if e.is_hard() {
                            return Err(e.within(at, Rule::Array));
                        }
                        open = false;
                        proof {
                            lemma_after_none(head, (cur - at - 1) as nat);
                        }
                    },
                }
            }
        }
        let stop = self.sp(cur);
        if self.sees(stop, ']') {
            Ok((Value::Array(found), stop + 1))
        } else {
            Err(ParseError::failure(stop, Expected::Char(']')).within(at, Rule::Array))
        }
    }

    /// An object.
    pub fn parse_hash(&self, at: usize) -> (r: Result<(Value, usize), ParseError>)
        requires
            at <= self@.len(),
        ensures
            reports(r, at, object(self@, at as nat)),
            r matches Ok((v, end)) ==> v.wf() && at < end <= self@.len(),
        decreases self@.len() - at, 1nat,
    {
        if !self.sees(at, '{') {
            return Err(ParseError::mismatch(at, Expected::Char('{')).within(at, Rule::Hash));
        }
        let mut entries: Vec<(String, Value)> = Vec::new();
        let ghost mut seen: Seq<(Seq<char>, ValueView)> = Seq::empty();
        let mut cur: usize = at + 1;
        let mut open = true;
        match self.parse_key_value(cur) {
            Ok(((key, v), end)) => {
                proof {
                    seen = seq![(key@, v@)];
                    assert(seen.drop_last() =~= Seq::empty());
                    assert(to_map(seen) == to_map(seen.drop_last()).insert(key@, v@));
                    assert(entries_view(entries@) == Map::<Seq<char>, ValueView>::empty());
                }
                upsert(&mut entries, key, v);
                cur = end;
            },
            Err(e) => {
                if e.is_hard() {
                    return Err(e.within(at, Rule::Hash));
                }
                open = false;
                assert(entries_view(entries@) == to_map(seen));
            },
        }
        while open
            invariant
                at < cur <= self@.len(),
                sees(self@, at as nat, '{'),
                ascending(entries@),
                all_wf(entries@),
                entries_view(entries@) == to_map(seen),
                open ==> pairs(self@, (at + 1) as nat) == after(
                    seen,
                    (cur - at - 1) as nat,
                    more_pairs(self@, cur as nat),
                ),
                !open ==> pairs(self@, (at + 1) as nat) == Outcome::Match(
                    seen,
                    (cur - at - 1) as nat,
                ),
            decreases self@.len() - cur, (if open { 1nat } else { 0nat }),
        {
            let ghost head = seen;
            let q = self.sp(cur);
            if !self.sees(q, ',') {
                open = false;
                proof {
                    lemma_after_none(head, (cur - at - 1) as nat);
                }
            } else {
                match self.parse_key_value(q + 1) {
                    Ok(((key, v), end)) => {
                        proof {
                            seen = head.push((key@, v@));
                            assert(seen.drop_last() =~= head);
                            lemma_after_item(
                                head,
                                (cur - at - 1) as nat,
                                (key@, v@),
                                (end - cur) as nat,
                                more_pairs(self@, end as nat),
                            );
                        }
                        upsert(&mut entries, key, v);
                        cur = end;
                    },
                    Err(e) => {
                        if e.is_hard() {
                            return Err(e.within(at, Rule::Hash));
                        }
                        open = false;
                        proof {
                            lemma_after_none(head, (cur - at - 1) as nat);
                        }
                    },
                }
            }
        }
        let stop = self.sp(cur);
        if self.sees(stop, '}') {
            Ok((Value::Object(entries), stop + 1))
        } else {
            Err(ParseError::failure(stop, Expected::Char('}')).within(at, Rule::Hash))
        }
    }

    /// A key and its value, in the form `key: value`.
    pub fn parse_key_value_colon(&self, at: usize) -> (r: Result<
        ((String, Value), usize),
        ParseError,
    >)
        requires
            at <= self@.len(),
        ensures
            reports(r, at, pair_colon(self@, at as nat)),
            r matches Ok((kv, end)) ==> kv.1.wf() && at < end <= self@.len(),
        decreases self@.len() - at, 1nat,
    {
        let p = self.sp(at);
        let (key, after_key) = match self.parse_key_colon_hash(p) {
            Ok(found) => found,
            Err(e) => {
                return Err(e);
            },
        };
        let sep = self.sp(after_key);
        if !self.sees(sep, ':') {
            return Err(ParseError::failure(sep, Expected::Char(':')));
        }
        match self.parse_value(sep + 1) {
            Ok((v, end)) => Ok(((key, v), end)),
            Err(e) => Err(e.hardened()),
        }
    }

    /// A key and its value, in the form `:key => value`.
    pub fn parse_key_value_arrow(&self, at: usize) -> (r: Result<
        ((String, Value), usize),
        ParseError,
    >)
        requires
            at <= self@.len(),
        ensures
            reports(r, at, pair_arrow(self@, at as nat)),
            r matches Ok((kv, end)) ==> kv.1.wf() && at < end <= self@.len(),
        decreases self@.len() - at, 1nat,
    {
        let p = self.sp(at);
        let (key, after_key) = match self.parse_key_arrow_hash(p) {
            Ok(found) => found,
            Err(e) => {
                return Err(e);
            },
        };
        let sep = self.sp(after_key);
        if !(self.sees(sep, '=') && self.sees(sep + 1, '>')) {
            return Err(ParseError::failure(sep, Expected::Token));
        }
        match self.parse_value(sep + 2) {
            Ok((v, end)) => Ok(((key, v), end)),
            Err(e) => Err(e.hardened()),
        }
    }

    /// A key and its value, in either form.
    pub fn parse_key_value(&self, at: usize) -> (r: Result<((String, Value), usize), ParseError>)
        requires
            at <= self@.len(),
        ensures
            reports(r, at, pair(self@, at as nat)),
            r matches Ok((kv, end)) ==> kv.1.wf() && at < end <= self@.len(),
        decreases self@.len() - at, 2nat,
    {
        match self.parse_key_value_colon(at) {
            Ok(found) => Ok(found),
            Err(e) => {
                if e.is_hard() {
                    Err(e)
                } else {
                    self.parse_key_value_arrow(at)
                }
            },
        }
    }
}

} // verus!
