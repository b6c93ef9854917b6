//! What holds of the grammar and of the values it yields, stated and proved
//! once for every text.

use vstd::prelude::*;
use crate::error::{Expected, Fault};
use crate::grammar::{
    array, items, key_arrow, key_colon, more_items, more_pairs, object, pair, pair_arrow,
    pair_colon, pairs, quoted, room, run, sees, spaces, to_map, unescape, value, Class, Outcome,
};
use crate::object::lemma_ascending_distinct;
use crate::text::precedes;
use crate::value::{ascending, entries_view, Value, ValueView};

verus! {

/// A run is the longest stretch of its class: it lies within the text, every
/// character of it belongs to the class, and the character behind it, if
/// there is one, does not.
pub proof fn lemma_run_is_longest(s: Seq<char>, at: nat, class: Class)
    requires
        at <= s.len(),
    ensures
        at + run(s, at, class) <= s.len(),
        forall|i: int| at <= i < at + run(s, at, class) ==> class.holds(#[trigger] s[i]),
        at + run(s, at, class) < s.len() ==> !class.holds(s[(at + run(s, at, class)) as int]),
    decreases room(s, at),
{
    if at < s.len() && class.holds(s[at as int]) {
        lemma_run_is_longest(s, at + 1, class);
    }
}

/// Skipping whitespace twice skips no more than skipping it once.
pub proof fn lemma_spaces_once(s: Seq<char>, at: nat)
    requires
        at <= s.len(),
    ensures
        run(s, at + run(s, at, Class::Space), Class::Space) == 0,
{
    lemma_run_is_longest(s, at, Class::Space);
}

/// A body without a backslash stands for itself.
pub proof fn lemma_unescape_plain(raw: Seq<char>, d: char)
    requires
        forall|i: int| 0 <= i < raw.len() ==> raw[i] != '\\',
    ensures
        unescape(raw, d) == raw,
    decreases raw.len(),
{
    if raw.len() > 0 {
        lemma_unescape_plain(raw.skip(1), d);
        assert(seq![raw[0]] + raw.skip(1) =~= raw);
    }
}

/// Unescaping never makes a text longer.
pub proof fn lemma_unescape_shrinks(raw: Seq<char>, d: char)
    ensures
        unescape(raw, d).len() <= raw.len(),
    decreases raw.len(),
{
    if raw.len() == 0 {
    } else if raw[0] == '\\' && raw.len() >= 2 && (raw[1] == '\\' || raw[1] == d) {
        lemma_unescape_shrinks(raw.skip(2), d);
    } else {
        lemma_unescape_shrinks(raw.skip(1), d);
    }
}

/// Behind an item, the rest of the items either match or fail for good.
pub proof fn lemma_more_items_commit(s: Seq<char>, at: nat)
    ensures
        !more_items(s, at).is_soft(),
    decreases room(s, at),
{
    let ws = spaces(s, at);
    if sees(s, at + ws, ',') {
        if let Outcome::Match(_, n) = value(s, at + ws + 1) {
            lemma_more_items_commit(s, at + ws + 1 + n);
        }
    }
}

/// Behind a pair, the rest of the pairs either match or fail for good.
pub proof fn lemma_more_pairs_commit(s: Seq<char>, at: nat)
    ensures
        !more_pairs(s, at).is_soft(),
    decreases room(s, at),
{
    let ws = spaces(s, at);
    if sees(s, at + ws, ',') {
        if let Outcome::Match(_, n) = pair(s, at + ws + 1) {
            lemma_more_pairs_commit(s, at + ws + 1 + n);
        }
    }
}

/// An opening bracket commits: an array fails softly exactly where no `[`
/// stands, and behind a `[` it matches or fails for good.
pub proof fn lemma_array_commits(s: Seq<char>, at: nat)
    ensures
        array(s, at).is_soft() <==> !sees(s, at, '['),
{
    if sees(s, at, '[') {
        if let Outcome::Match(_, n) = value(s, at + 1) {
            lemma_more_items_commit(s, at + 1 + n);
        }
        assert(!items(s, at + 1).is_soft());
    }
}

/// An opening brace commits: an object fails softly exactly where no `{`
/// stands, and behind a `{` it matches or fails for good.
pub proof fn lemma_object_commits(s: Seq<char>, at: nat)
    ensures
        object(s, at).is_soft() <==> !sees(s, at, '{'),
{
    if sees(s, at, '{') {
        if let Outcome::Match(_, n) = pair(s, at + 1) {
            lemma_more_pairs_commit(s, at + 1 + n);
        }
        assert(!pairs(s, at + 1).is_soft());
    }
}

/// An opening delimiter commits: a string fails softly exactly where its
/// delimiter does not stand.
pub proof fn lemma_quoted_commits(s: Seq<char>, d: char, at: nat)
    ensures
        quoted(s, d, at).is_soft() <==> !sees(s, at, d),
{
}

/// A key commits: a pair fails softly exactly where, after the whitespace,
/// neither form finds its key for want of a match.
pub proof fn lemma_pair_commits(s: Seq<char>, at: nat)
    ensures
        pair(s, at).is_soft() <==> key_colon(s, at + spaces(s, at)).is_soft() && key_arrow(
            s,
            at + spaces(s, at),
        ).is_soft(),
        pair_colon(s, at).is_soft() <==> key_colon(s, at + spaces(s, at)).is_soft(),
        pair_arrow(s, at).is_soft() <==> key_arrow(s, at + spaces(s, at)).is_soft(),
{
}

/// A value takes the whitespace before it and nothing else with it: tried
/// from `at`, it is what it is where the whitespace ends, only longer by the
/// whitespace.
pub proof fn lemma_value_skips_space(s: Seq<char>, at: nat)
    requires
        at <= s.len(),
    ensures
        match value(s, at + spaces(s, at)) {
            Outcome::Match(v, n) => value(s, at) == Outcome::Match(v, spaces(s, at) + n),
            Outcome::Fail(fault) => value(s, at) == Outcome::<ValueView>::Fail(fault),
        },
{
    lemma_spaces_once(s, at);
}

/// Where no value begins, the failure is a plain mismatch at the place where
/// the value was looked for, inside no rule.
pub proof fn lemma_value_mismatch(s: Seq<char>, at: nat)
    requires
        value(s, at).is_soft(),
    ensures
        value(s, at) == Outcome::<ValueView>::Fail(
            Fault::mismatch(at + spaces(s, at), Expected::Choice),
        ),
{
}

/// Where no pair begins, the failure is a plain mismatch at the place where
/// the key was looked for, inside no rule.
pub proof fn lemma_pair_mismatch(s: Seq<char>, at: nat)
    requires
        pair(s, at).is_soft(),
    ensures
        pair(s, at) == Outcome::<(Seq<char>, ValueView)>::Fail(
            Fault::mismatch(at + spaces(s, at), Expected::Choice),
        ),
{
}

/// The map of an object has exactly the keys that occur among the pairs.
pub proof fn lemma_to_map_keys(pairs: Seq<(Seq<char>, ValueView)>, key: Seq<char>)
    ensures
        to_map(pairs).contains_key(key) <==> exists|i: int|
            0 <= i < pairs.len() && (#[trigger] pairs[i]).0 == key,
    decreases pairs.len(),
{
    if pairs.len() > 0 {
        let front = pairs.drop_last();
        lemma_to_map_keys(front, key);
        if to_map(pairs).contains_key(key) {
            if pairs.last().0 == key {
                assert(pairs[pairs.len() - 1].0 == key);
            } else {
                let i = choose|i: int| 0 <= i < front.len() && (#[trigger] front[i]).0 == key;
                assert(pairs[i].0 == key);
            }
        }
        if exists|i: int| 0 <= i < pairs.len() && (#[trigger] pairs[i]).0 == key {
            let i = choose|i: int| 0 <= i < pairs.len() && (#[trigger] pairs[i]).0 == key;
            if i < front.len() {
                assert(front[i].0 == key);
            }
        }
    }
}

/// Of the pairs with one key the last one wins: the map of an object has,
/// under the key of a pair that no later pair repeats, the value of that
/// pair.
pub proof fn lemma_to_map_last_wins(pairs: Seq<(Seq<char>, ValueView)>, i: int)
    requires
        0 <= i < pairs.len(),
        forall|j: int| i < j < pairs.len() ==> (#[trigger] pairs[j]).0 != pairs[i].0,
    ensures
        to_map(pairs).contains_key(pairs[i].0),
        to_map(pairs)[pairs[i].0] == pairs[i].1,
    decreases pairs.len(),
{
    if i < pairs.len() - 1 {
        let front = pairs.drop_last();
        assert(pairs.last() == pairs[pairs.len() - 1]);
        assert forall|j: int| i < j < front.len() implies (#[trigger] front[j]).0 != front[i].0 by {
            assert(front[j] == pairs[j]);
        }
        lemma_to_map_last_wins(front, i);
    }
}

/// The entries of a well-formed object are the entries of its map: the map
/// has, under the key of each entry, what the value of that entry holds.
pub proof fn lemma_entries_lookup(entries: Seq<(String, Value)>, i: int)
    requires
        ascending(entries),
        0 <= i < entries.len(),
    ensures
        entries_view(entries).contains_key(entries[i].0@),
        entries_view(entries)[entries[i].0@] == entries[i].1@,
    decreases entries.len(),
{
    assert(entries.last() == entries[entries.len() - 1]);
    assert(entries_view(entries) == entries_view(entries.drop_last()).insert(
        entries.last().0@,
        entries.last().1@,
    ));
    if i < entries.len() - 1 {
        let front = entries.drop_last();
        assert(front[i] == entries[i]);
        lemma_ascending_distinct(entries, i, entries.len() - 1);
        assert forall|a: int, b: int| 0 <= a < b < front.len() implies precedes(
            #[trigger] front[a].0@,
            #[trigger] front[b].0@,
        ) by {
            assert(precedes(entries[a].0@, entries[b].0@));
        }
        lemma_entries_lookup(front, i);
    }
}

/// The keys of a well-formed object, read in the order of its entries, are
/// sorted, and none occurs twice.
pub proof fn lemma_keys_sorted_once(object: Value, i: int, j: int)
    requires
        object.wf(),
        object is Object,
        0 <= i < j < object->Object_0@.len(),
    ensures
        precedes(object->Object_0@[i].0@, object->Object_0@[j].0@),
        object->Object_0@[i].0@ != object->Object_0@[j].0@,
{
    lemma_ascending_distinct(object->Object_0@, i, j);
}

/// The map of an object has no key but those of its entries.
pub proof fn lemma_entries_keys(entries: Seq<(String, Value)>, key: Seq<char>)
    requires
        entries_view(entries).contains_key(key),
    ensures
        exists|i: int| 0 <= i < entries.len() && (#[trigger] entries[i]).0@ == key,
    decreases entries.len(),
{
    if entries.len() > 0 {
        if entries.last().0@ == key {
            assert(entries[entries.len() - 1].0@ == key);
        } else {
            let front = entries.drop_last();
            assert(entries_view(entries) == entries_view(front).insert(
                entries.last().0@,
                entries.last().1@,
            ));
            lemma_entries_keys(front, key);
            let i = choose|i: int| 0 <= i < front.len() && (#[trigger] front[i]).0@ == key;
            assert(entries[i].0@ == key);
        }
    }
}

} // verus!
