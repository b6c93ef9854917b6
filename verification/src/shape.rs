//! No rule of the grammar yields an integer: every number is a double.

use vstd::prelude::*;
use crate::grammar::{
    array, items, more_items, more_pairs, object, pair, pair_arrow, pair_colon, pairs, room,
    scalar, sees, spaces, to_map, value, Outcome,
};
use crate::value::ValueView;

verus! {

impl ValueView {
    /// No integer stands anywhere in the tree.
    pub open spec fn integer_free(self) -> bool
        decreases self,
    {
        match self {
            ValueView::Integer(_) => false,
            ValueView::Array(items) => forall|i: int|
                0 <= i < items.len() ==> (#[trigger] items[i]).integer_free(),
            ValueView::Object(entries) => entries.dom().finite() && forall|key: Seq<char>|
                entries.contains_key(key) ==> (#[trigger] entries[key]).integer_free(),
            _ => true,
        }
    }
}

/// What was found holds no integer.
pub open spec fn one_free(found: Outcome<ValueView>) -> bool {
    found matches Outcome::Match(v, _) ==> v.integer_free()
}

/// None of the items that were found holds an integer.
pub open spec fn all_free(found: Outcome<Seq<ValueView>>) -> bool {
    found matches Outcome::Match(vs, _) ==> forall|i: int|
        0 <= i < vs.len() ==> (#[trigger] vs[i]).integer_free()
}

/// The value of the pair that was found holds no integer.
pub open spec fn pair_free(found: Outcome<(Seq<char>, ValueView)>) -> bool {
    found matches Outcome::Match(kv, _) ==> kv.1.integer_free()
}

/// None of the values of the pairs that were found holds an integer.
pub open spec fn pairs_free(found: Outcome<Seq<(Seq<char>, ValueView)>>) -> bool {
    found matches Outcome::Match(kvs, _) ==> forall|i: int|
        0 <= i < kvs.len() ==> (#[trigger] kvs[i]).1.integer_free()
}

/// The map of pairs whose values hold no integer has finitely many keys and
/// holds no integer.
pub proof fn lemma_to_map_free(kvs: Seq<(Seq<char>, ValueView)>)
    requires
        forall|i: int| 0 <= i < kvs.len() ==> (#[trigger] kvs[i]).1.integer_free(),
    ensures
        ValueView::Object(to_map(kvs)).integer_free(),
    decreases kvs.len(),
{
    if kvs.len() > 0 {
        let front = kvs.drop_last();
        assert forall|i: int| 0 <= i < front.len() implies (#[trigger] front[i]).1.integer_free() by {
            assert(front[i] == kvs[i]);
        }
        lemma_to_map_free(front);
        assert(kvs.last() == kvs[kvs.len() - 1]);
    }
}

/// No value holds an integer.
pub proof fn lemma_value_integer_free(s: Seq<char>, at: nat)
    ensures
        one_free(value(s, at)),
    decreases room(s, at), 2nat,
{
    let p = at + spaces(s, at);
    lemma_object_integer_free(s, p);
    lemma_array_integer_free(s, p);
    assert(one_free(scalar(s, p, spaces(s, at))));
}

/// No array holds an integer.
pub proof fn lemma_array_integer_free(s: Seq<char>, at: nat)
    ensures
        one_free(array(s, at)),
    decreases room(s, at), 1nat,
{
    if sees(s, at, '[') {
        lemma_items_integer_free(s, at + 1);
    }
}

/// No item holds an integer.
pub proof fn lemma_items_integer_free(s: Seq<char>, at: nat)
    ensures
        all_free(items(s, at)),
    decreases room(s, at), 3nat,
{
    lemma_value_integer_free(s, at);
    if let Outcome::Match(_, n) = value(s, at) {
        lemma_more_items_integer_free(s, at + n);
    }
}

/// No item behind an item holds an integer.
pub proof fn lemma_more_items_integer_free(s: Seq<char>, at: nat)
    ensures
        all_free(more_items(s, at)),
    decreases room(s, at), 0nat,
{
    let ws = spaces(s, at);
    if sees(s, at + ws, ',') {
        lemma_value_integer_free(s, at + ws + 1);
        if let Outcome::Match(_, n) = value(s, at + ws + 1) {
            lemma_more_items_integer_free(s, at + ws + 1 + n);
        }
    }
}

/// No object holds an integer.
pub proof fn lemma_object_integer_free(s: Seq<char>, at: nat)
    ensures
        one_free(object(s, at)),
    decreases room(s, at), 1nat,
{
    if sees(s, at, '{') {
        lemma_pairs_integer_free(s, at + 1);
        if let Outcome::Match(kvs, _) = pairs(s, at + 1) {
            lemma_to_map_free(kvs);
        }
    }
}

/// No pair holds an integer.
pub proof fn lemma_pairs_integer_free(s: Seq<char>, at: nat)
    ensures
        pairs_free(pairs(s, at)),
    decreases room(s, at), 3nat,
{
    lemma_pair_integer_free(s, at);
    if let Outcome::Match(_, n) = pair(s, at) {
        lemma_more_pairs_integer_free(s, at + n);
    }
}

/// No pair behind a pair holds an integer.
pub proof fn lemma_more_pairs_integer_free(s: Seq<char>, at: nat)
    ensures
        pairs_free(more_pairs(s, at)),
    decreases room(s, at), 0nat,
{
    let ws = spaces(s, at);
    if sees(s, at + ws, ',') {
        lemma_pair_integer_free(s, at + ws + 1);
        if let Outcome::Match(_, n) = pair(s, at + ws + 1) {
            lemma_more_pairs_integer_free(s, at + ws + 1 + n);
        }
    }
}

/// The value of no pair, in either form, holds an integer.
pub proof fn lemma_pair_integer_free(s: Seq<char>, at: nat)
    ensures
        pair_free(pair(s, at)),
        pair_free(pair_colon(s, at)),
        pair_free(pair_arrow(s, at)),
    decreases room(s, at), 2nat,
{
    let lead = spaces(s, at);
    if let Outcome::Match(_, n) = crate::grammar::key_colon(s, at + lead) {
        let sep = at + lead + n + spaces(s, at + lead + n);
        if sees(s, sep, ':') {
            lemma_value_integer_free(s, sep + 1);
        }
    }
    if let Outcome::Match(_, n) = crate::grammar::key_arrow(s, at + lead) {
        let sep = at + lead + n + spaces(s, at + lead + n);
        if sees(s, sep, '=') && sees(s, sep + 1, '>') {
            lemma_value_integer_free(s, sep + 2);
        }
    }
}

} // verus!
