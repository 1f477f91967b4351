//! A table from names to values that keeps the order in which the names
//! first came.
use crate::text::{same_text, to_chars};
use vstd::prelude::*;
use vstd::slice::slice_to_vec;

verus! {

/// The position of the first entry for `name`, or the number of entries
/// where there is none.
pub open spec fn position<V>(entries: Seq<(Seq<char>, V)>, name: Seq<char>) -> int
    decreases entries.len(),
{
    if entries.len() == 0 {
        0
    } else if entries[0].0 == name {
        0
    } else {
        1 + position(entries.skip(1), name)
    }
}

/// The value that the entries give `name`.
pub open spec fn lookup<V>(entries: Seq<(Seq<char>, V)>, name: Seq<char>) -> Option<V> {
    let i = position(entries, name);
    if 0 <= i < entries.len() {
        Some(entries[i].1)
    } else {
        None
    }
}

/// The entries after `name` has been given `value`: the entry for `name`
/// is replaced where it stands, or a new one is added at the end.
pub open spec fn upsert<V>(entries: Seq<(Seq<char>, V)>, name: Seq<char>, value: V) -> Seq<
    (Seq<char>, V),
> {
    let i = position(entries, name);
    if 0 <= i < entries.len() {
        entries.update(i, (name, value))
    } else {
        entries.push((name, value))
    }
}

/// Whether no name occurs twice.
pub open spec fn distinct_names<V>(entries: Seq<(Seq<char>, V)>) -> bool {
    forall|i: int, j: int|
        0 <= i < j < entries.len() ==> (#[trigger] entries[i]).0 != (#[trigger] entries[j]).0
}

/// `position` gives a place within bounds, with no entry for `name` before
/// it and one at it unless it is the number of entries.
pub proof fn lemma_position<V>(entries: Seq<(Seq<char>, V)>, name: Seq<char>)
    ensures
        0 <= position(entries, name) <= entries.len(),
        forall|j: int| 0 <= j < position(entries, name) ==> (#[trigger] entries[j]).0 != name,
        position(entries, name) < entries.len() ==> entries[position(entries, name)].0 == name,
    decreases entries.len(),
{
    if entries.len() > 0 && entries[0].0 != name {
        let rest = entries.skip(1);
        lemma_position(rest, name);
        assert forall|j: int| 0 <= j < position(entries, name) implies (#[trigger] entries[j]).0
            != name by {
            if j > 0 {
                assert(rest[j - 1] == entries[j]);
            }
        }
    }
}

/// A place with no entry for `name` before it, and one at it unless it is
/// the number of entries, is the one that `position` gives.
pub proof fn lemma_position_is<V>(entries: Seq<(Seq<char>, V)>, name: Seq<char>, i: int)
    requires
        0 <= i <= entries.len(),
        forall|j: int| 0 <= j < i ==> (#[trigger] entries[j]).0 != name,
        i < entries.len() ==> entries[i].0 == name,
    ensures
        position(entries, name) == i,
{
    lemma_position(entries, name);
}

/// After `name` has been given `value`, the table gives `name` that value
/// and every other name what it gave before; no name occurs twice if none
/// did.
pub proof fn lemma_upsert<V>(
    entries: Seq<(Seq<char>, V)>,
    name: Seq<char>,
    value: V,
    other: Seq<char>,
)
    ensures
        lookup(upsert(entries, name, value), name) == Some(value),
        other != name ==> lookup(upsert(entries, name, value), other) == lookup(entries, other),
        distinct_names(entries) ==> distinct_names(upsert(entries, name, value)),
{
    let after = upsert(entries, name, value);
    lemma_position(entries, name);
    lemma_position(entries, other);
    let i = position(entries, name);
    assert forall|j: int| 0 <= j < i implies (#[trigger] after[j]).0 != name by {
        assert(after[j] == entries[j]);
    }
    lemma_position_is(after, name, i);
    if other != name {
        let k = position(entries, other);
        assert forall|j: int| 0 <= j < k implies (#[trigger] after[j]).0 != other by {
            if j < entries.len() && j != i {
                assert(after[j] == entries[j]);
            }
        }
        if k < entries.len() {
            assert(after[k] == entries[k]);
            lemma_position_is(after, other, k);
        } else {
            assert forall|j: int| 0 <= j < after.len() implies (#[trigger] after[j]).0 != other by {
                if j < entries.len() && j != i {
                    assert(after[j] == entries[j]);
                }
            }
            lemma_position_is(after, other, after.len() as int);
        }
    }
    if distinct_names(entries) {
        assert forall|a: int, b: int| 0 <= a < b < after.len() implies (#[trigger] after[a]).0 != (
        #[trigger] after[b]).0 by {
            if a < entries.len() && a != i {
                assert(after[a] == entries[a]);
            }
            if b < entries.len() && b != i {
                assert(after[b] == entries[b]);
            }
        }
    }
}

/// A table from names to values. No name occurs twice, and the entries
/// stand in the order in which their names were first given a value.
#[derive(Debug)]
pub struct NameTable<V> {
    entries: Vec<(Vec<char>, V)>,
}

impl<V> View for NameTable<V> {
    type V = Seq<(Seq<char>, V)>;

    /// The entries, each a name and its value, in order.
    closed spec fn view(&self) -> Seq<(Seq<char>, V)> {
        Seq::new(self.entries@.len(), |i: int| (self.entries@[i].0@, self.entries@[i].1))
    }
}

impl<V> NameTable<V> {
    #[verifier::type_invariant]
    spec fn names_are_distinct(&self) -> bool {
        distinct_names(self@)
    }

    /// The table without entries.
    pub fn new() -> (r: Self)
        ensures
            r@ == Seq::<(Seq<char>, V)>::empty(),
    {
        let r = NameTable { entries: Vec::new() };
        assert(r@ =~= Seq::<(Seq<char>, V)>::empty());
        r
    }

    /// The number of entries, which is the number of names.
    pub fn len(&self) -> (n: usize)
        ensures
            n == self@.len(),
            distinct_names(self@),
    {
        proof {
            use_type_invariant(self);
        }
        self.entries.len()
    }

    /// The name of the entry at place `i`.
    pub fn name_at(&self, i: usize) -> (name: &[char])
        requires
            i < self@.len(),
        ensures
            name@ == self@[i as int].0,
    {
        self.entries[i].0.as_slice()
    }

    /// The value of the entry at place `i`.
    pub fn value_at(&self, i: usize) -> (value: &V)
        requires
            i < self@.len(),
        ensures
            *value == self@[i as int].1,
    {
        &self.entries[i].1
    }

    /// The place of the entry for `name`, or the number of entries where
    /// there is none.
    pub fn place(&self, name: &[char]) -> (i: usize)
        ensures
            i == position(self@, name@),
    {
        let mut i: usize = 0;
        while i < self.entries.len()
            invariant
                i <= self.entries@.len(),
                forall|j: int| 0 <= j < i ==> (#[trigger] self@[j]).0 != name@,
            decreases self.entries@.len() - i,
        {
            if same_text(self.entries[i].0.as_slice(), name) {
                proof {
                    lemma_position_is(self@, name@, i as int);
                }
                return i;
            }
            i += 1;
        }
        proof {
            lemma_position_is(self@, name@, i as int);
        }
        i
    }

    /// The value that the table gives `name`.
    pub fn get(&self, name: &str) -> (r: Option<&V>)
        ensures
            r is Some <==> lookup(self@, name@) is Some,
            r matches Some(value) ==> lookup(self@, name@) == Some(*value),
    {
        let chars = to_chars(name);
        self.get_chars(chars.as_slice())
    }

    /// The value that the table gives the name made of the characters
    /// `name`.
    pub fn get_chars(&self, name: &[char]) -> (r: Option<&V>)
        ensures
            r is Some <==> lookup(self@, name@) is Some,
            r matches Some(value) ==> lookup(self@, name@) == Some(*value),
    {
        let i = self.place(name);
        if i < self.entries.len() {
            Some(&self.entries[i].1)
        } else {
            None
        }
    }

    /// Gives `name` the value `value`.
    pub fn insert(&mut self, name: Vec<char>, value: V)
        ensures
            final(self)@ == upsert(old(self)@, name@, value),
            distinct_names(final(self)@),
    {
        proof {
            use_type_invariant(&*self);
            lemma_upsert(self@, name@, value, name@);
        }
        let i = self.place(name.as_slice());
        let ghost before = self@;
        let mut entries: Vec<(Vec<char>, V)> = Vec::new();
        assert(Seq::new(0, |i: int| (entries@[i].0@, entries@[i].1)) =~= Seq::<
            (Seq<char>, V),
        >::empty());
        core::mem::swap(&mut self.entries, &mut entries);
        if i < entries.len() {
            entries.set(i, (name, value));
        } else {
            entries.push((name, value));
        }
        assert(Seq::new(entries@.len(), |i: int| (entries@[i].0@, entries@[i].1)) =~= upsert(
            before,
            name@,
            value,
        ));
        self.entries = entries;
    }

    /// Removes every entry.
    pub fn clear(&mut self)
        ensures
            final(self)@ == Seq::<(Seq<char>, V)>::empty(),
    {
        let entries: Vec<(Vec<char>, V)> = Vec::new();
        assert(Seq::new(0, |i: int| (entries@[i].0@, entries@[i].1)) =~= Seq::<
            (Seq<char>, V),
        >::empty());
        self.entries = entries;
    }
}

impl<V: Clone> Clone for NameTable<V> {
    /// A table with the same names in the same order, each with a clone
    /// of its value.
    fn clone(&self) -> (r: Self)
        ensures
            r@.len() == self@.len(),
            forall|i: int|
                0 <= i < self@.len() ==> (#[trigger] r@[i]).0 == self@[i].0 && cloned::<V>(
                    self@[i].1,
                    r@[i].1,
                ),
    {
        proof {
            use_type_invariant(self);
        }
        let mut entries: Vec<(Vec<char>, V)> = Vec::new();
        let mut i: usize = 0;
        while i < self.entries.len()
            invariant
                i <= self.entries@.len(),
                entries@.len() == i,
                forall|j: int|
                    0 <= j < i ==> (#[trigger] entries@[j]).0@ == self.entries@[j].0@ && cloned::<V>(
                        self.entries@[j].1,
                        entries@[j].1,
                    ),
            decreases self.entries@.len() - i,
        {
            let name = slice_to_vec(self.entries[i].0.as_slice());
            let value = self.entries[i].1.clone();
            entries.push((name, value));
            i += 1;
        }
        let ghost copy = Seq::new(entries@.len(), |i: int| (entries@[i].0@, entries@[i].1));
        assert forall|a: int, b: int| 0 <= a < b < copy.len() implies (#[trigger] copy[a]).0 != (
        #[trigger] copy[b]).0 by {
            assert(entries@[a].0@ == self@[a].0);
            assert(entries@[b].0@ == self@[b].0);
        }
        let r = NameTable { entries };
        assert forall|i: int| 0 <= i < self@.len() implies (#[trigger] r@[i]).0 == self@[i].0
            && cloned::<V>(self@[i].1, r@[i].1) by {
            assert(entries@[i].0@ == self.entries@[i].0@);
        }
        r
    }
}

} // verus!
