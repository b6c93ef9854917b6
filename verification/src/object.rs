//! Objects: entries kept in a vector ordered by key.

use vstd::prelude::*;
use crate::text::{compare, lemma_precedes_irreflexive, lemma_precedes_transitive, precedes, Order};
use crate::value::{ascending, entries_view, Value};

verus! {

/// Every value among the entries is well formed.
pub open spec fn all_wf(entries: Seq<(String, Value)>) -> bool {
    forall|i: int| 0 <= i < entries.len() ==> (#[trigger] entries[i]).1.wf()
}

/// An entry put in front of entries that all have other keys counts as if it
/// had come last.
pub proof fn lemma_insert_entry(entries: Seq<(String, Value)>, i: int, e: (String, Value))
    requires
        0 <= i <= entries.len(),
        forall|j: int| i <= j < entries.len() ==> (#[trigger] entries[j]).0@ != e.0@,
    ensures
        entries_view(entries.insert(i, e)) == entries_view(entries).insert(e.0@, e.1@),
    decreases entries.len() - i,
{
    let put = entries.insert(i, e);
    if i == entries.len() {
        assert(put.drop_last() =~= entries);
    } else {
        let last = entries.last();
        let front = entries.drop_last();
        assert(put.drop_last() =~= front.insert(i, e));
        assert(put.last() == last);
        lemma_insert_entry(front, i, e);
        assert(entries_view(front).insert(e.0@, e.1@).insert(last.0@, last.1@) =~= entries_view(
            front,
        ).insert(last.0@, last.1@).insert(e.0@, e.1@));
    }
}

/// An entry put in the place of one with its key, before entries that all
/// have other keys, counts as if it had come last.
pub proof fn lemma_replace_entry(entries: Seq<(String, Value)>, i: int, e: (String, Value))
    requires
        0 <= i < entries.len(),
        entries[i].0@ == e.0@,
        forall|j: int| i < j < entries.len() ==> (#[trigger] entries[j]).0@ != e.0@,
    ensures
        entries_view(entries.update(i, e)) == entries_view(entries).insert(e.0@, e.1@),
    decreases entries.len() - i,
{
    let put = entries.update(i, e);
    let last = entries.last();
    let front = entries.drop_last();
    if i == entries.len() - 1 {
        assert(put.drop_last() =~= front);
        assert(entries_view(front).insert(e.0@, e.1@) =~= entries_view(front).insert(
            last.0@,
            last.1@,
        ).insert(e.0@, e.1@));
    } else {
        assert(put.drop_last() =~= front.update(i, e));
        assert(put.last() == last);
        lemma_replace_entry(front, i, e);
        assert(entries_view(front).insert(e.0@, e.1@).insert(last.0@, last.1@) =~= entries_view(
            front,
        ).insert(last.0@, last.1@).insert(e.0@, e.1@));
    }
}

/// Entries that agree, place by place, in their keys and in what their values
/// hold build the same map.
pub proof fn lemma_entries_view_alike(a: Seq<(String, Value)>, b: Seq<(String, Value)>)
    requires
        a.len() == b.len(),
        forall|i: int| 0 <= i < a.len() ==> (#[trigger] a[i]).0@ == b[i].0@ && a[i].1@ == b[i].1@,
    ensures
        entries_view(a) == entries_view(b),
    decreases a.len(),
{
    if a.len() > 0 {
        assert(a.last().0@ == b.last().0@ && a.last().1@ == b.last().1@);
        assert forall|i: int| 0 <= i < a.drop_last().len() implies (#[trigger] a.drop_last()[i]).0@
            == b.drop_last()[i].0@ && a.drop_last()[i].1@ == b.drop_last()[i].1@ by {
            assert(a.drop_last()[i] == a[i]);
        }
        lemma_entries_view_alike(a.drop_last(), b.drop_last());
    }
}

/// Among ascending keys none occurs twice.
pub proof fn lemma_ascending_distinct(entries: Seq<(String, Value)>, i: int, j: int)
    requires
        ascending(entries),
        0 <= i < entries.len(),
        0 <= j < entries.len(),
        i != j,
    ensures
        entries[i].0@ != entries[j].0@,
{
    lemma_precedes_irreflexive(entries[i].0@);
    if i < j {
        assert(precedes(entries[i].0@, entries[j].0@));
    } else {
        assert(precedes(entries[j].0@, entries[i].0@));
    }
}

/// Puts `value` under `key`: in the place of the entry that has this key, or
/// else where the order of the keys asks for it.
pub fn upsert(entries: &mut Vec<(String, Value)>, key: String, value: Value)
    requires
        ascending(old(entries)@),
        all_wf(old(entries)@),
        value.wf(),
    ensures
        ascending(final(entries)@),
        all_wf(final(entries)@),
        entries_view(final(entries)@) == entries_view(old(entries)@).insert(key@, value@),
{
    let ghost before = entries@;
    let mut i: usize = 0;
    while i < entries.len()
        invariant
            i <= entries@.len(),
            entries@ == before,
            before == old(entries)@,
            ascending(before),
            all_wf(before),
            value.wf(),
            forall|j: int| 0 <= j < i ==> precedes((#[trigger] before[j]).0@, key@),
        ensures
            i < before.len() ==> precedes(key@, before[i as int].0@),
        decreases entries@.len() - i,
    {
        match compare(entries[i].0.as_str(), key.as_str()) {
            Order::Before => {
                i += 1;
            },
            Order::Same => {
                let ghost e = (key, value);
                proof {
                    assert forall|j: int| i < j < before.len() implies (#[trigger] before[j]).0@
                        != key@ by {
                        assert(precedes(before[i as int].0@, before[j].0@));
                        lemma_precedes_irreflexive(key@);
                    }
                    lemma_replace_entry(before, i as int, e);
                }
                entries.set(i, (key, value));
                proof {
                    let after = entries@;
                    assert(after =~= before.update(i as int, e));
                    assert forall|a: int, b: int| 0 <= a < b < after.len() implies precedes(
                        #[trigger] after[a].0@,
                        #[trigger] after[b].0@,
                    ) by {
                        assert(precedes(before[a].0@, before[b].0@));
                    }
                }
                return ;
            },
            Order::After => {
                break ;
            },
        }
    }
    let ghost e = (key, value);
    proof {
        assert forall|j: int| i <= j < before.len() implies precedes(
            key@,
            (#[trigger] before[j]).0@,
        ) by {
            if i < j {
                assert(precedes(before[i as int].0@, before[j].0@));
                lemma_precedes_transitive(key@, before[i as int].0@, before[j].0@);
            }
        }
        assert forall|j: int| i <= j < before.len() implies (#[trigger] before[j]).0@ != key@ by {
            lemma_precedes_irreflexive(key@);
        }
        lemma_insert_entry(before, i as int, e);
    }
    entries.insert(i, (key, value));
    proof {
        let after = entries@;
        assert forall|a: int, b: int| 0 <= a < b < after.len() implies precedes(
            #[trigger] after[a].0@,
            #[trigger] after[b].0@,
        ) by {
            if b < i {
                assert(precedes(before[a].0@, before[b].0@));
            } else if b == i {
                assert(precedes(before[a].0@, key@));
            } else if a == i {
                assert(precedes(key@, before[b - 1].0@));
            } else if a < i {
                assert(precedes(before[a].0@, before[b - 1].0@));
            } else {
                assert(precedes(before[a - 1].0@, before[b - 1].0@));
            }
        }
    }
}

} // verus!
