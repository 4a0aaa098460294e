//! The array context: for each collection that an enclosing array condition
//! walks, the position of the element in hand.

use crate::text::{
    decimal, lemma_replaced_leading_occurrence, lemma_replaced_without_occurrence, occurs_in,
    replaced,
};
use vstd::prelude::*;

verus! {

/// One entry of an array context: the address of a collection and the
/// position of its current element.
struct ContextEntry {
    key: String,
    index: i64,
}

/// A mapping from collection addresses to positions. It is a list of entries
/// in the order in which their addresses were first inserted, and no address
/// occurs twice.
pub struct ArrayContext {
    entries: Vec<ContextEntry>,
}

/// Whether some entry has the address `key`.
pub open spec fn has_key(entries: Seq<(Seq<char>, int)>, key: Seq<char>) -> bool {
    exists|i: int| 0 <= i < entries.len() && (#[trigger] entries[i]).0 == key
}

/// Whether no address occurs in two entries.
pub open spec fn distinct_keys(entries: Seq<(Seq<char>, int)>) -> bool {
    forall|i: int, j: int|
        0 <= i < j < entries.len() ==> (#[trigger] entries[i]).0 != (#[trigger] entries[j]).0
}

/// The context in which the element at `index` of the collection at
/// `address` is examined, inside the context `outer`: the outer entries, and
/// after them the new one. An outer entry for the same address prevails.
pub open spec fn item_entries(outer: Seq<(Seq<char>, int)>, address: Seq<char>, index: int) -> Seq<
    (Seq<char>, int),
> {
    if has_key(outer, address) {
        outer
    } else {
        outer.push((address, index))
    }
}

/// Entries for distinct addresses compose: descending into a collection
/// whose address the outer context does not hold keeps every outer entry in
/// its place, adds the new entry after them, and leaves the addresses
/// distinct.
pub proof fn lemma_item_entries_compose(outer: Seq<(Seq<char>, int)>, address: Seq<char>, index: int)
    requires
        distinct_keys(outer),
        !has_key(outer, address),
    ensures
        item_entries(outer, address, index).len() == outer.len() + 1,
        item_entries(outer, address, index).last() == (address, index),
        forall|i: int| 0 <= i < outer.len() ==> item_entries(outer, address, index)[i] == outer[i],
        distinct_keys(item_entries(outer, address, index)),
{
    let inner = item_entries(outer, address, index);
    assert forall|i: int, j: int| 0 <= i < j < inner.len() implies (#[trigger] inner[i]).0 != (
    #[trigger] inner[j]).0 by {
        assert(inner[i] == outer[i]);
        if j < outer.len() {
            assert(inner[j] == outer[j]);
        }
    }
}

/// The marker that stands for the current element of the collection `key`:
/// the key followed by `[]`.
pub open spec fn marker_of(key: Seq<char>) -> Seq<char> {
    key + seq!['[', ']']
}

/// What replaces the marker of `key`: the key, a dot and the position in
/// decimal.
pub open spec fn resolved_marker(key: Seq<char>, index: int) -> Seq<char> {
    key + seq!['.'] + decimal(index)
}

/// The address with the markers of all entries resolved, one entry after the
/// other from the last to the first: each rewrite replaces every occurrence
/// of the entry's marker in what the rewrites before it produced.
pub open spec fn hydrated(address: Seq<char>, entries: Seq<(Seq<char>, int)>) -> Seq<char>
    decreases entries.len(),
{
    if entries.len() == 0 {
        address
    } else {
        let entry = entries.last();
        hydrated(
            replaced(address, marker_of(entry.0), resolved_marker(entry.0, entry.1)),
            entries.drop_last(),
        )
    }
}

/// With one entry in the context, an address that begins with the entry's
/// marker and holds no further one becomes the key, a dot, the position and
/// the rest of the address.
pub proof fn lemma_hydrated_leading_marker(key: Seq<char>, index: int, rest: Seq<char>)
    requires
        !occurs_in(rest, marker_of(key)),
    ensures
        hydrated(marker_of(key) + rest, seq![(key, index)]) == resolved_marker(key, index) + rest,
{
    let entries = seq![(key, index)];
    let address = marker_of(key) + rest;
    assert(entries.last() == (key, index));
    assert(entries.drop_last().len() == 0);
    lemma_replaced_leading_occurrence(rest, marker_of(key), resolved_marker(key, index));
    lemma_replaced_without_occurrence(rest, marker_of(key), resolved_marker(key, index));
    let once = replaced(address, marker_of(key), resolved_marker(key, index));
    assert(hydrated(address, entries) == hydrated(once, entries.drop_last()));
}

/// An address that holds the marker of no entry stays as it is: a marker
/// whose key the context lacks is left unresolved.
pub proof fn lemma_hydrated_without_markers(address: Seq<char>, entries: Seq<(Seq<char>, int)>)
    requires
        forall|i: int| 0 <= i < entries.len() ==> !occurs_in(address, marker_of((#[trigger] entries[i]).0)),
    ensures
        hydrated(address, entries) == address,
    decreases entries.len(),
{
    if entries.len() > 0 {
        let entry = entries.last();
        lemma_replaced_without_occurrence(
            address,
            marker_of(entry.0),
            resolved_marker(entry.0, entry.1),
        );
        assert forall|i: int| 0 <= i < entries.drop_last().len() implies !occurs_in(
            address,
            marker_of((#[trigger] entries.drop_last()[i]).0),
        ) by {
            assert(entries.drop_last()[i] == entries[i]);
        }
        lemma_hydrated_without_markers(address, entries.drop_last());
    }
}

impl View for ArrayContext {
    type V = Seq<(Seq<char>, int)>;

    closed spec fn view(&self) -> Seq<(Seq<char>, int)> {
        Seq::new(self.entries@.len(), |i: int| (self.entries@[i].key@, self.entries@[i].index as int))
    }
}

impl ArrayContext {
    #[verifier::type_invariant]
    spec fn keys_are_distinct(self) -> bool {
        distinct_keys(self@)
    }

    /// The empty context.
    pub fn new() -> (context: ArrayContext)
        ensures
            context@ == Seq::<(Seq<char>, int)>::empty(),
    {
        let context = ArrayContext { entries: Vec::new() };
        assert(context@ =~= Seq::<(Seq<char>, int)>::empty());
        context
    }

    /// The number of entries.
    pub fn len(&self) -> (n: usize)
        ensures
            n == self@.len(),
    {
        self.entries.len()
    }

    /// Whether the context has no entry.
    pub fn is_empty(&self) -> (empty: bool)
        ensures
            empty == (self@.len() == 0),
    {
        self.entries.len() == 0
    }

    /// The address of the entry at `position`.
    pub fn key_at(&self, position: usize) -> (key: &str)
        requires
            position < self@.len(),
        ensures
            key@ == self@[position as int].0,
    {
        self.entries[position].key.as_str()
    }

    /// The position that the entry at `position` holds.
    pub fn index_at(&self, position: usize) -> (index: i64)
        requires
            position < self@.len(),
        ensures
            index == self@[position as int].1,
    {
        self.entries[position].index
    }

    /// The place of the entry for `key`, if there is one.
    pub fn find(&self, key: &str) -> (place: Option<usize>)
        ensures
            match place {
                Some(i) => i < self@.len() && self@[i as int].0 == key@,
                None => !has_key(self@, key@),
            },
            distinct_keys(self@),
    {
        proof {
            use_type_invariant(self);
        }
        let wanted = key.to_owned();
        let mut i: usize = 0;
        while i < self.entries.len()
            invariant
                wanted@ == key@,
                distinct_keys(self@),
                i <= self.entries.len(),
                forall|j: int| 0 <= j < i ==> (#[trigger] self@[j]).0 != key@,
                self@.len() == self.entries.len(),
            decreases self.entries.len() - i,
        {
            if self.entries[i].key == wanted {
                assert(self@[i as int].0 == key@);
                return Some(i);
            }
            assert(self@[i as int].0 != key@);
            i += 1;
        }
        None
    }

    /// The position recorded for `key`, if any.
    pub fn get(&self, key: &str) -> (index: Option<i64>)
        ensures
            match index {
                Some(v) => exists|i: int| 0 <= i < self@.len() && #[trigger] self@[i] == (key@, v as int),
                None => !has_key(self@, key@),
            },
            distinct_keys(self@),
    {
        match self.find(key) {
            Some(i) => {
                let v = self.entries[i].index;
                assert(self@[i as int] == (key@, v as int));
                Some(v)
            },
            None => None,
        }
    }

    /// Records `index` for `key`: it replaces the position of the entry that
    /// has this address, or is added as a new last entry.
    pub fn insert(&mut self, key: &str, index: i64)
        ensures
            !has_key(old(self)@, key@) ==> final(self)@ == old(self)@.push((key@, index as int)),
            forall|i: int|
                0 <= i < old(self)@.len() && (#[trigger] old(self)@[i]).0 == key@ ==> final(self)@
                    == old(self)@.update(i, (key@, index as int)),
            distinct_keys(final(self)@),
    {
        proof {
            use_type_invariant(&*self);
        }
        let ghost before = self@;
        let mut entries: Vec<ContextEntry> = Vec::new();
        let place = self.find(key);
        let mut i: usize = 0;
        while i < self.entries.len()
            invariant
                i <= self.entries.len(),
                entries@.len() == i,
                self@ == before,
                before.len() == self.entries.len(),
                forall|j: int|
                    0 <= j < i ==> (#[trigger] entries@[j]).key@ == before[j].0 && entries@[j].index
                        == (if place == Some(j as usize) {
                        index as int
                    } else {
                        before[j].1
                    }),
            decreases self.entries.len() - i,
        {
            let entry = &self.entries[i];
            let kept = if place == Some(i) {
                index
            } else {
                entry.index
            };
            entries.push(ContextEntry { key: entry.key.clone(), index: kept });
            i += 1;
        }
        if place.is_none() {
            entries.push(ContextEntry { key: key.to_owned(), index });
        }
        let ghost after = Seq::new(entries@.len(), |i: int| (entries@[i].key@, entries@[i].index as int));
        proof {
            match place {
                Some(p) => {
                    assert(after =~= before.update(p as int, (key@, index as int)));
                    assert forall|i: int|
                        0 <= i < before.len() && (#[trigger] before[i]).0 == key@ implies i == p by {
                        if i < p {
                            assert(before[i].0 != before[p as int].0);
                        } else if p < i {
                            assert(before[p as int].0 != before[i].0);
                        }
                    }
                    assert(has_key(before, key@));
                },
                None => {
                    assert(after =~= before.push((key@, index as int)));
                },
            }
            assert(distinct_keys(after));
        }
        self.entries = entries;
        assert(self@ =~= after);
    }

    /// The context for the element at `index` of the collection at `address`,
    /// inside this context.
    pub fn for_item(&self, address: &str, index: i64) -> (inner: ArrayContext)
        ensures
            inner@ == item_entries(self@, address@, index as int),
            distinct_keys(inner@),
    {
        proof {
            use_type_invariant(self);
        }
        let mut entries: Vec<ContextEntry> = Vec::new();
        let mut i: usize = 0;
        while i < self.entries.len()
            invariant
                i <= self.entries.len(),
                entries@.len() == i,
                self@.len() == self.entries.len(),
                forall|j: int|
                    0 <= j < i ==> (#[trigger] entries@[j]).key@ == self@[j].0 && entries@[j].index
                        == self@[j].1,
            decreases self.entries.len() - i,
        {
            let entry = &self.entries[i];
            entries.push(ContextEntry { key: entry.key.clone(), index: entry.index });
            i += 1;
        }
        if self.find(address).is_none() {
            entries.push(ContextEntry { key: address.to_owned(), index });
        }
        let inner = ArrayContext { entries };
        assert(inner@ =~= item_entries(self@, address@, index as int));
        inner
    }
}

} // verus!
