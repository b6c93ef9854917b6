//! The value tree that a literal denotes.

use vstd::prelude::*;
use crate::object::lemma_entries_view_alike;
use crate::text::precedes;

verus! {

/// One parsed literal.
///
/// A number is carried as the bit pattern of its IEEE 754 double, so that the
/// tree holds plain integers only. An object keeps its entries in a vector
/// ordered by key; see [`Value::wf`].
#[derive(Debug, PartialEq)]
pub enum Value {
    Bytes(String),
    Integer(i64),
    Float(u64),
    Boolean(bool),
    Object(Vec<(String, Value)>),
    Array(Vec<Value>),
    Null,
}

/// The mathematical content of a [`Value`]: texts are character sequences and
/// an object is a finite map from key to content.
pub enum ValueView {
    Bytes(Seq<char>),
    Integer(int),
    Float(u64),
    Boolean(bool),
    Object(Map<Seq<char>, ValueView>),
    Array(Seq<ValueView>),
    Null,
}

/// The content of each item, in order.
pub open spec fn items_view(items: Seq<Value>) -> Seq<ValueView>
    decreases items,
{
    Seq::new(
        items.len(),
        |i: int|
            if 0 <= i < items.len() {
                items[i]@
            } else {
                arbitrary()
            },
    )
}

/// The map that a run of entries builds when each is inserted in turn, so
/// that a later entry replaces an earlier one with the same key.
pub open spec fn entries_view(entries: Seq<(String, Value)>) -> Map<Seq<char>, ValueView>
    decreases entries,
{
    if entries.len() == 0 {
        Map::empty()
    } else {
        entries_view(entries.drop_last()).insert(entries.last().0@, entries.last().1@)
    }
}

/// The keys are strictly ascending: sorted, and none occurs twice.
pub open spec fn ascending(entries: Seq<(String, Value)>) -> bool {
    forall|i: int, j: int|
        0 <= i < j < entries.len() ==> precedes(#[trigger] entries[i].0@, #[trigger] entries[j].0@)
}

impl View for Value {
    type V = ValueView;

    open spec fn view(&self) -> ValueView
        decreases self,
    {
        match self {
            Value::Bytes(text) => ValueView::Bytes(text@),
            Value::Integer(n) => ValueView::Integer(*n as int),
            Value::Float(bits) => ValueView::Float(*bits),
            Value::Boolean(b) => ValueView::Boolean(*b),
            Value::Object(entries) => ValueView::Object(entries_view(entries@)),
            Value::Array(items) => ValueView::Array(items_view(items@)),
            Value::Null => ValueView::Null,
        }
    }
}

impl Clone for Value {
    fn clone(&self) -> (copy: Value)
        ensures
            copy@ == self@,
            copy.wf() == self.wf(),
    {
        self.duplicate()
    }
}

impl Value {
    /// A copy of the whole tree.
    pub fn duplicate(&self) -> (copy: Value)
        ensures
            copy@ == self@,
            copy.wf() == self.wf(),
        decreases self,
    {
        match self {
            Value::Bytes(text) => Value::Bytes(text.clone()),
            Value::Integer(n) => Value::Integer(*n),
            Value::Float(bits) => Value::Float(*bits),
            Value::Boolean(b) => Value::Boolean(*b),
            Value::Null => Value::Null,
            Value::Array(items) => {
                let mut copies: Vec<Value> = Vec::new();
                let mut i: usize = 0;
                while i < items.len()
                    invariant
                        i <= items@.len(),
                        copies@.len() == i,
                        *self == Value::Array(*items),
                        forall|j: int|
                            0 <= j < i ==> (#[trigger] copies@[j])@ == items@[j]@ && copies@[j].wf()
                                == items@[j].wf(),
                    decreases items@.len() - i,
                {
                    proof {
                        assert(self->Array_0 == *items);
                        assert(decreases_to!(*self => self->Array_0));
                        assert(decreases_to!(*items => items@[i as int]));
                    }
                    copies.push(items[i].duplicate());
                    i += 1;
                }
                assert(items_view(copies@) =~= items_view(items@));
                let ghost made = copies@;
                let copy = Value::Array(copies);
                proof {
                    assert(copy->Array_0@ == made);
                    if self.wf() {
                        assert forall|j: int| 0 <= j < made.len() implies (#[trigger] made[j]).wf() by {
                            assert(items@[j].wf());
                        }
                    }
                    if copy.wf() {
                        assert forall|j: int| 0 <= j < items@.len() implies (
                        #[trigger] items@[j]).wf() by {
                            assert(made[j].wf());
                        }
                    }
                }
                copy
            },
            Value::Object(entries) => {
                let mut copies: Vec<(String, Value)> = Vec::new();
                let mut i: usize = 0;
                while i < entries.len()
                    invariant
                        i <= entries@.len(),
                        copies@.len() == i,
                        *self == Value::Object(*entries),
                        forall|j: int|
                            0 <= j < i ==> (#[trigger] copies@[j]).0@ == entries@[j].0@
                                && copies@[j].1@ == entries@[j].1@ && copies@[j].1.wf()
                                == entries@[j].1.wf(),
                    decreases entries@.len() - i,
                {
                    proof {
                        assert(self->Object_0 == *entries);
                        assert(decreases_to!(*self => self->Object_0));
                        assert(decreases_to!(*entries => entries@[i as int]));
                        assert(decreases_to!(entries@[i as int] => entries@[i as int].1));
                    }
                    copies.push((entries[i].0.clone(), entries[i].1.duplicate()));
                    i += 1;
                }
                let ghost made = copies@;
                let copy = Value::Object(copies);
                proof {
                    assert(copy->Object_0@ == made);
                    lemma_entries_view_alike(made, entries@);
                    if self.wf() {
                        assert forall|j: int| 0 <= j < made.len() implies (#[trigger] made[j]).1.wf() by {
                            assert(entries@[j].1.wf());
                        }
                        assert forall|a: int, b: int| 0 <= a < b < made.len() implies precedes(
                            #[trigger] made[a].0@,
                            #[trigger] made[b].0@,
                        ) by {
                            assert(precedes(entries@[a].0@, entries@[b].0@));
                        }
                    }
                    if copy.wf() {
                        assert forall|j: int| 0 <= j < entries@.len() implies (
                        #[trigger] entries@[j]).1.wf() by {
                            assert(made[j].1.wf());
                        }
                        assert forall|a: int, b: int| 0 <= a < b < entries@.len() implies precedes(
                            #[trigger] entries@[a].0@,
                            #[trigger] entries@[b].0@,
                        ) by {
                            assert(precedes(made[a].0@, made[b].0@));
                        }
                    }
                }
                copy
            },
        }
    }

    /// Every object in the tree keeps its entries in strictly ascending key
    /// order.
    pub open spec fn wf(&self) -> bool
        decreases self,
    {
        match self {
            Value::Object(entries) => {
                &&& ascending(entries@)
                &&& forall|i: int| 0 <= i < entries@.len() ==> (#[trigger] entries@[i]).1.wf()
            },
            Value::Array(items) => forall|i: int| 0 <= i < items@.len() ==> (#[trigger] items@[i]).wf(),
            _ => true,
        }
    }
}

} // verus!
