//! From positions, which count characters, to offsets, which count the bytes
//! of the UTF-8 text.

use vstd::prelude::*;
use vstd::utf8::{
    char_is_scalar, encode_utf8, encode_utf8_first_scalar, encode_utf8_valid_utf8,
    is_char_boundary, pop_first_scalar,
};
use crate::error::{Fault, Frame, ParseError, Rule};
use crate::input::Input;

verus! {

/// The number of bytes that UTF-8 takes for `c`.
pub open spec fn utf8_width(c: char) -> nat {
    if (c as u32) < 0x80 {
        1
    } else if (c as u32) < 0x800 {
        2
    } else if (c as u32) < 0x10000 {
        3
    } else {
        4
    }
}

/// The number of bytes that UTF-8 takes for `s`.
pub open spec fn utf8_len(s: Seq<char>) -> nat
    decreases s.len(),
{
    if s.len() == 0 {
        0
    } else {
        utf8_width(s[0]) + utf8_len(s.drop_first())
    }
}

/// The offset in bytes of the position `at`; of the end of the text where
/// `at` lies beyond it.
pub open spec fn bytes_before(s: Seq<char>, at: nat) -> nat {
    if at <= s.len() {
        utf8_len(s.take(at as int))
    } else {
        utf8_len(s)
    }
}

impl Fault {
    /// The same failure with every position in `s` given as an offset in
    /// bytes.
    pub open spec fn in_bytes(self, s: Seq<char>) -> Fault {
        Fault {
            at: bytes_before(s, self.at),
            trail: self.trail.map_values(|frame: (nat, Rule)| (bytes_before(s, frame.0), frame.1)),
            ..self
        }
    }
}

/// The bytes of two texts, one after the other, are as many as those of
/// both.
pub proof fn lemma_utf8_len_concat(a: Seq<char>, b: Seq<char>)
    ensures
        utf8_len(a + b) == utf8_len(a) + utf8_len(b),
    decreases a.len(),
{
    if a.len() == 0 {
        assert(a + b =~= b);
    } else {
        assert((a + b).drop_first() =~= a.drop_first() + b);
        lemma_utf8_len_concat(a.drop_first(), b);
    }
}

/// `utf8_len` is the length of the UTF-8 encoding.
pub proof fn lemma_utf8_len_encoded(s: Seq<char>)
    ensures
        utf8_len(s) == encode_utf8(s).len(),
    decreases s.len(),
{
    if s.len() > 0 {
        char_is_scalar(s[0]);
        lemma_utf8_len_encoded(s.drop_first());
    }
}

/// An offset grows with the position, by the width of each character passed,
/// and never beyond the length of the text in bytes.
pub proof fn lemma_bytes_before_step(s: Seq<char>, at: nat)
    requires
        at < s.len(),
    ensures
        bytes_before(s, at + 1) == bytes_before(s, at) + utf8_width(s[at as int]),
        bytes_before(s, at + 1) <= utf8_len(s),
{
    let head = s.take(at as int);
    let next = s.take(at + 1 as int);
    assert(next =~= head + seq![s[at as int]]);
    lemma_utf8_len_concat(head, seq![s[at as int]]);
    let one = seq![s[at as int]];
    assert(one.drop_first() =~= Seq::<char>::empty());
    assert(utf8_len(Seq::<char>::empty()) == 0);
    assert(utf8_len(one) == utf8_width(one[0]) + utf8_len(one.drop_first()));
    assert(s =~= next + s.skip(at + 1 as int));
    lemma_utf8_len_concat(next, s.skip(at + 1 as int));
}

/// No offset is more than the length of the text in bytes.
pub proof fn lemma_bytes_before_bound(s: Seq<char>, at: nat)
    ensures
        bytes_before(s, at) <= utf8_len(s),
{
    if at <= s.len() {
        assert(s =~= s.take(at as int) + s.skip(at as int));
        lemma_utf8_len_concat(s.take(at as int), s.skip(at as int));
    }
}

/// The offset of a position lies on a character boundary of the UTF-8 text.
pub proof fn lemma_offset_on_boundary(s: Seq<char>, at: nat)
    ensures
        is_char_boundary(encode_utf8(s), bytes_before(s, at) as int),
    decreases s.len(),
{
    let bytes = encode_utf8(s);
    encode_utf8_valid_utf8(s);
    let k = if at <= s.len() {
        at
    } else {
        s.len()
    };
    assert(s.take(s.len() as int) =~= s);
    assert(bytes_before(s, at) == bytes_before(s, k));
    if k == 0 {
        assert(s.take(0) =~= Seq::<char>::empty());
    } else {
        let tail = s.drop_first();
        encode_utf8_first_scalar(s);
        char_is_scalar(s[0]);
        assert(pop_first_scalar(bytes) =~= encode_utf8(tail));
        assert(s.take(k as int).drop_first() =~= tail.take(k - 1));
        assert(bytes_before(s, k) == utf8_width(s[0]) + bytes_before(tail, (k - 1) as nat));
        lemma_offset_on_boundary(tail, (k - 1) as nat);
        lemma_bytes_before_bound(s, k);
        lemma_utf8_len_encoded(s);
    }
}

/// A failure whose positions were turned into offsets of a text fits that
/// text.
pub proof fn lemma_in_bytes_fits(fault: Fault, s: Seq<char>)
    ensures
        fault.in_bytes(s).fits(s),
{
    lemma_offset_on_boundary(s, fault.at);
    let turned = fault.in_bytes(s);
    assert forall|i: int| 0 <= i < turned.trail.len() implies is_char_boundary(
        encode_utf8(s),
        (#[trigger] turned.trail[i]).0 as int,
    ) by {
        lemma_offset_on_boundary(s, fault.trail[i].0);
    }
}

/// The number of bytes that UTF-8 takes for `c`.
pub fn width(c: char) -> (n: usize)
    ensures
        n == utf8_width(c),
{
    let v = c as u32;
    if v < 0x80 {
        1
    } else if v < 0x800 {
        2
    } else if v < 0x10000 {
        3
    } else {
        4
    }
}

impl Input {
    /// The offset in bytes of the position `at`.
    pub fn offset(&self, at: usize) -> (r: usize)
        requires
            utf8_len(self@) <= usize::MAX,
        ensures
            r == bytes_before(self@, at as nat),
    {
        let n = if at <= self.chars.len() {
            at
        } else {
            self.chars.len()
        };
        let mut i: usize = 0;
        let mut total: usize = 0;
        assert(self@.take(0) =~= Seq::<char>::empty());
        while i < n
            invariant
                i <= n <= self@.len(),
                total == bytes_before(self@, i as nat),
                utf8_len(self@) <= usize::MAX,
            decreases n - i,
        {
            proof {
                lemma_bytes_before_step(self@, i as nat);
            }
            total += width(self.chars[i]);
            i += 1;
        }
        assert(self@.take(self@.len() as int) =~= self@);
        total
    }

    /// The failure `e`, whose positions are positions in this text, with
    /// offsets in bytes in their place.
    pub fn in_bytes(&self, e: ParseError) -> (r: ParseError)
        requires
            utf8_len(self@) <= usize::MAX,
        ensures
            r@ == e@.in_bytes(self@),
    {
        let mut trail: Vec<Frame> = Vec::new();
        let mut i: usize = 0;
        while i < e.trail.len()
            invariant
                i <= e.trail@.len(),
                utf8_len(self@) <= usize::MAX,
                trail@.len() == i,
                forall|j: int|
                    0 <= j < i ==> (#[trigger] trail@[j])@ == (
                        bytes_before(self@, e.trail@[j].at as nat),
                        e.trail@[j].rule,
                    ),
            decreases e.trail@.len() - i,
        {
            trail.push(Frame { at: self.offset(e.trail[i].at), rule: e.trail[i].rule });
            i += 1;
        }
        let r = ParseError {
            severity: e.severity,
            at: self.offset(e.at),
            expected: e.expected,
            trail,
        };
        assert(r@.trail =~= e@.in_bytes(self@).trail);
        r
    }
}

} // verus!
