//! A map keyed by name, kept as a list of entries in which no name occurs
//! twice. The list keeps its order: a new name goes to the end, a known name
//! keeps its place.

use vstd::prelude::*;

verus! {

/// Whether some entry of `entries` is called `name`.
pub open spec fn has_name<T>(entries: Seq<(Seq<char>, T)>, name: Seq<char>) -> bool {
    exists|i: int| 0 <= i < entries.len() && (#[trigger] entries[i]).0 == name
}

/// The place of an entry called `name` in `entries`.
pub open spec fn slot_of<T>(entries: Seq<(Seq<char>, T)>, name: Seq<char>) -> int {
    choose|i: int| 0 <= i < entries.len() && (#[trigger] entries[i]).0 == name
}

/// Whether every name occurs at most once in `entries`.
pub open spec fn distinct_names<T>(entries: Seq<(Seq<char>, T)>) -> bool {
    forall|i: int, j: int|
        0 <= i < j < entries.len() ==> (#[trigger] entries[i]).0 != (#[trigger] entries[j]).0
}

/// The names of `entries`, in their order.
pub open spec fn names_of<T>(entries: Seq<(Seq<char>, T)>) -> Seq<Seq<char>> {
    entries.map_values(|e: (Seq<char>, T)| e.0)
}

/// `entries` as a map from each name to its value.
pub open spec fn as_map<T>(entries: Seq<(Seq<char>, T)>) -> Map<Seq<char>, T> {
    Map::new(
        |name: Seq<char>| has_name(entries, name),
        |name: Seq<char>| entries[slot_of(entries, name)].1,
    )
}

/// `entries` with `value` under `name`: in the place of the entry that was
/// called `name`, or at the end where there was none.
pub open spec fn with_entry<T>(entries: Seq<(Seq<char>, T)>, name: Seq<char>, value: T) -> Seq<
    (Seq<char>, T),
> {
    if has_name(entries, name) {
        entries.update(slot_of(entries, name), (name, value))
    } else {
        entries.push((name, value))
    }
}

/// `entries` without the entry called `name`.
pub open spec fn without<T>(entries: Seq<(Seq<char>, T)>, name: Seq<char>) -> Seq<(Seq<char>, T)> {
    if has_name(entries, name) {
        entries.remove(slot_of(entries, name))
    } else {
        entries
    }
}

/// The items of `items` whose mark in `keep` is set, in their order.
pub open spec fn marked<A>(items: Seq<A>, keep: Seq<bool>) -> Seq<A>
    recommends
        items.len() <= keep.len(),
    decreases items.len(),
{
    if items.len() == 0 {
        Seq::empty()
    } else {
        let before = marked(items.drop_last(), keep);
        if keep[items.len() - 1] {
            before.push(items.last())
        } else {
            before
        }
    }
}

/// Among distinct names, a name is found in the place where it stands, and
/// the map holds the value that stands there.
pub proof fn lemma_slot<T>(entries: Seq<(Seq<char>, T)>, i: int)
    requires
        distinct_names(entries),
        0 <= i < entries.len(),
    ensures
        has_name(entries, entries[i].0),
        slot_of(entries, entries[i].0) == i,
        as_map(entries).contains_key(entries[i].0),
        as_map(entries)[entries[i].0] == entries[i].1,
{
    let j = slot_of(entries, entries[i].0);
    assert(0 <= j < entries.len() && entries[j].0 == entries[i].0);
    if j < i {
        assert(entries[j].0 != entries[i].0);
    }
    if i < j {
        assert(entries[i].0 != entries[j].0);
    }
}

/// Putting a value under a name keeps the names distinct and changes the map
/// at that name alone.
pub proof fn lemma_with_entry<T>(entries: Seq<(Seq<char>, T)>, name: Seq<char>, value: T)
    requires
        distinct_names(entries),
    ensures
        distinct_names(with_entry(entries, name, value)),
        as_map(with_entry(entries, name, value)) == as_map(entries).insert(name, value),
{
    let after = with_entry(entries, name, value);
    let at: int = if has_name(entries, name) {
        slot_of(entries, name)
    } else {
        entries.len() as int
    };
    assert(0 <= at < after.len() && after[at] == (name, value));
    assert forall|i: int| 0 <= i < after.len() && i != at implies 0 <= i < entries.len()
        && after[i] == entries[i] && entries[i].0 != name by {
        if has_name(entries, name) {
            lemma_slot(entries, i);
        }
    }
    assert(distinct_names(after)) by {
        assert forall|i: int, j: int| 0 <= i < j < after.len() implies (#[trigger] after[i]).0 != (
        #[trigger] after[j]).0 by {
            if i != at && j != at {
                assert(entries[i].0 != entries[j].0);
            }
        }
    }
    assert forall|key: Seq<char>| #[trigger]
        as_map(after).contains_key(key) == as_map(entries).insert(name, value).contains_key(
            key,
        ) by {
        if has_name(after, key) {
            let i = slot_of(after, key);
            if i != at {
                assert(entries[i].0 == key);
            }
        }
        if key == name {
            assert(after[at].0 == key);
        } else if has_name(entries, key) {
            let i = slot_of(entries, key);
            assert(after[i].0 == key);
        }
    }
    assert forall|key: Seq<char>| #[trigger]
        as_map(after).contains_key(key) implies as_map(after)[key] == as_map(entries).insert(
        name,
        value,
    )[key] by {
        let i = slot_of(after, key);
        lemma_slot(after, i);
        if i != at {
            lemma_slot(entries, i);
        }
    }
    assert(as_map(after) =~= as_map(entries).insert(name, value));
}

/// The last value put under a name is the one that the map holds: putting
/// `first` and then `second` under `name` leaves the map as if `second` alone
/// had been put there.
pub proof fn lemma_last_entry_wins<T>(
    entries: Seq<(Seq<char>, T)>,
    name: Seq<char>,
    first: T,
    second: T,
)
    requires
        distinct_names(entries),
    ensures
        as_map(with_entry(with_entry(entries, name, first), name, second)) == as_map(
            entries,
        ).insert(name, second),
        as_map(with_entry(with_entry(entries, name, first), name, second))[name] == second,
        with_entry(with_entry(entries, name, first), name, second).len() == with_entry(
            entries,
            name,
            first,
        ).len(),
{
    let once = with_entry(entries, name, first);
    lemma_with_entry(entries, name, first);
    lemma_with_entry(once, name, second);
    assert(as_map(entries).insert(name, first).insert(name, second) =~= as_map(entries).insert(
        name,
        second,
    ));
    assert(as_map(once).contains_key(name));
}

/// Taking a name out keeps the names distinct and changes the map at that
/// name alone.
pub proof fn lemma_without<T>(entries: Seq<(Seq<char>, T)>, name: Seq<char>)
    requires
        distinct_names(entries),
    ensures
        distinct_names(without(entries, name)),
        !has_name(without(entries, name), name),
        as_map(without(entries, name)) == as_map(entries).remove(name),
{
    let after = without(entries, name);
    if has_name(entries, name) {
        let at = slot_of(entries, name);
        lemma_slot(entries, at);
        assert forall|i: int| 0 <= i < after.len() implies #[trigger] after[i] == entries[if i
            < at {
            i
        } else {
            i + 1
        }] && after[i].0 != name by {
            let k = if i < at {
                i
            } else {
                i + 1
            };
            lemma_slot(entries, k);
        }
        assert(distinct_names(after)) by {
            assert forall|i: int, j: int| 0 <= i < j < after.len() implies (#[trigger] after[i]).0
                != (#[trigger] after[j]).0 by {
                let ki = if i < at {
                    i
                } else {
                    i + 1
                };
                let kj = if j < at {
                    j
                } else {
                    j + 1
                };
                assert(entries[ki].0 != entries[kj].0);
            }
        }
        assert forall|key: Seq<char>| #[trigger]
            as_map(after).contains_key(key) == as_map(entries).remove(name).contains_key(key) by {
            if has_name(after, key) {
                let i = slot_of(after, key);
                let k = if i < at {
                    i
                } else {
                    i + 1
                };
                assert(entries[k].0 == key);
            }
            if key != name && has_name(entries, key) {
                let k = slot_of(entries, key);
                let i = if k < at {
                    k
                } else {
                    k - 1
                };
                assert(after[i].0 == key);
            }
        }
        assert forall|key: Seq<char>| #[trigger]
            as_map(after).contains_key(key) implies as_map(after)[key] == as_map(entries).remove(
            name,
        )[key] by {
            let i = slot_of(after, key);
            let k = if i < at {
                i
            } else {
                i + 1
            };
            lemma_slot(after, i);
            lemma_slot(entries, k);
        }
        assert(as_map(after) =~= as_map(entries).remove(name));
    } else {
        assert(as_map(after) =~= as_map(entries).remove(name));
    }
}

/// What a selection keeps was there before: each item of `marked(items,
/// keep)` is an item of `items` whose mark is set.
pub proof fn lemma_marked_from<A>(items: Seq<A>, keep: Seq<bool>, k: int)
    requires
        0 <= k < marked(items, keep).len(),
    ensures
        exists|i: int| 0 <= i < items.len() && keep[i] && #[trigger] items[i] == marked(items, keep)[k],
    decreases items.len(),
{
    if items.len() > 0 {
        let before = marked(items.drop_last(), keep);
        if k < before.len() {
            lemma_marked_from(items.drop_last(), keep, k);
            let i = choose|i: int|
                0 <= i < items.drop_last().len() && keep[i] && #[trigger] items.drop_last()[i]
                    == before[k];
            assert(items[i] == marked(items, keep)[k]);
        } else {
            assert(items[items.len() - 1] == marked(items, keep)[k]);
        }
    }
}

/// Selecting and then renaming the items is renaming and then selecting.
pub proof fn lemma_marked_map<A, B>(items: Seq<A>, keep: Seq<bool>, f: spec_fn(A) -> B)
    ensures
        marked(items, keep).map_values(f) == marked(items.map_values(f), keep),
    decreases items.len(),
{
    if items.len() > 0 {
        lemma_marked_map(items.drop_last(), keep, f);
        assert(items.map_values(f).drop_last() =~= items.drop_last().map_values(f));
        assert(marked(items, keep).map_values(f) =~= marked(items.map_values(f), keep));
    } else {
        assert(marked(items, keep).map_values(f) =~= marked(items.map_values(f), keep));
    }
}

/// A selection of entries with distinct names has distinct names, and its
/// map is the map of all the entries, cut down to the names kept.
pub proof fn lemma_marked_entries<T>(entries: Seq<(Seq<char>, T)>, keep: Seq<bool>)
    requires
        distinct_names(entries),
    ensures
        distinct_names(marked(entries, keep)),
        forall|i: int|
            0 <= i < entries.len() ==> (has_name(marked(entries, keep), (#[trigger] entries[i]).0)
                <==> keep[i]),
        as_map(marked(entries, keep)).submap_of(as_map(entries)),
    decreases entries.len(),
{
    let kept = marked(entries, keep);
    if entries.len() > 0 {
        let front = entries.drop_last();
        let before = marked(front, keep);
        let last = entries.len() - 1;
        assert(distinct_names(front)) by {
            assert forall|i: int, j: int| 0 <= i < j < front.len() implies (#[trigger] front[i]).0
                != (#[trigger] front[j]).0 by {
                assert(entries[i].0 != entries[j].0);
            }
        }
        lemma_marked_entries(front, keep);
        assert forall|k: int| 0 <= k < before.len() implies (#[trigger] before[k]).0
            != entries[last].0 by {
            lemma_marked_from(front, keep, k);
            let i = choose|i: int|
                0 <= i < front.len() && keep[i] && #[trigger] front[i] == before[k];
            assert(entries[i].0 != entries[last].0);
        }
        assert(distinct_names(kept));
        assert forall|i: int| 0 <= i < entries.len() implies (has_name(
            kept,
            (#[trigger] entries[i]).0,
        ) <==> keep[i]) by {
            if i < last {
                assert(front[i] == entries[i]);
                if has_name(before, entries[i].0) {
                    let k = slot_of(before, entries[i].0);
                    assert(kept[k].0 == entries[i].0);
                }
                if has_name(kept, entries[i].0) {
                    let k = slot_of(kept, entries[i].0);
                    if k < before.len() {
                        assert(before[k].0 == entries[i].0);
                    } else {
                        assert(entries[i].0 != entries[last].0);
                    }
                }
            } else {
                if keep[last] {
                    assert(kept[kept.len() - 1].0 == entries[last].0);
                }
                if has_name(kept, entries[last].0) {
                    let k = slot_of(kept, entries[last].0);
                    if k < before.len() {
                        assert(before[k].0 != entries[last].0);
                    }
                }
            }
        }
        assert forall|key: Seq<char>| #[trigger]
            as_map(kept).contains_key(key) implies as_map(entries).contains_key(key) && as_map(
            kept,
        )[key] == as_map(entries)[key] by {
            let k = slot_of(kept, key);
            lemma_slot(kept, k);
            lemma_marked_from(entries, keep, k);
            let i = choose|i: int|
                0 <= i < entries.len() && keep[i] && #[trigger] entries[i] == kept[k];
            lemma_slot(entries, i);
        }
    }
}

/// A map from names to values of type `T`.
///
/// Its view is a `Map` from each name, as a sequence of characters, to the
/// value kept under it. [`NameMap::entries`] gives the same contents as a
/// list, in the order in which the map hands them out.
pub struct NameMap<T> {
    slots: Vec<(String, T)>,
}

impl<T> View for NameMap<T> {
    type V = Map<Seq<char>, T>;

    open spec fn view(&self) -> Map<Seq<char>, T> {
        as_map(self.entries())
    }
}

impl<T> NameMap<T> {
    /// The entries in the order they are kept: each name with its value.
    pub closed spec fn entries(&self) -> Seq<(Seq<char>, T)> {
        self.slots@.map_values(|slot: (String, T)| (slot.0@, slot.1))
    }

    /// No name occurs twice. This holds of every `NameMap`.
    #[verifier::type_invariant]
    pub open spec fn well_formed(&self) -> bool {
        distinct_names(self.entries())
    }

    /// The number of entries, as executable code sees it.
    pub closed spec fn spec_len(&self) -> usize {
        self.slots.len()
    }

    /// The empty map.
    pub fn new() -> (map: NameMap<T>)
        ensures
            map.entries() == Seq::<(Seq<char>, T)>::empty(),
            map@ == Map::<Seq<char>, T>::empty(),
    {
        let map = NameMap { slots: Vec::new() };
        assert(map.entries() =~= Seq::<(Seq<char>, T)>::empty());
        assert(map@ =~= Map::<Seq<char>, T>::empty());
        map
    }

    /// The number of entries.
    #[verifier::when_used_as_spec(spec_len)]
    pub fn len(&self) -> (n: usize)
        ensures
            n == self.spec_len(),
            n == self.entries().len(),
    {
        self.slots.len()
    }

    /// The place of the entry called `name`, if there is one.
    pub fn position(&self, name: &String) -> (found: Option<usize>)
        ensures
            match found {
                Some(i) => i < self.entries().len() && self.entries()[i as int].0 == name@
                    && slot_of(self.entries(), name@) == i,
                None => !has_name(self.entries(), name@),
            },
    {
        proof {
            use_type_invariant(self);
        }
        let n = self.slots.len();
        let mut i: usize = 0;
        while i < n
            invariant
                n == self.slots.len(),
                i <= n,
                distinct_names(self.entries()),
                forall|j: int| 0 <= j < i ==> (#[trigger] self.entries()[j]).0 != name@,
            decreases n - i,
        {
            if self.slots[i].0 == *name {
                proof {
                    lemma_slot(self.entries(), i as int);
                }
                return Some(i);
            }
            i += 1;
        }
        None
    }

    /// The value kept under `name`, if there is one.
    pub fn get(&self, name: &String) -> (found: Option<&T>)
        ensures
            match found {
                Some(value) => self@.contains_key(name@) && *value == self@[name@],
                None => !self@.contains_key(name@),
            },
    {
        proof {
            use_type_invariant(self);
        }
        match self.position(name) {
            Some(i) => {
                proof {
                    lemma_slot(self.entries(), i as int);
                }
                Some(&self.slots[i].1)
            },
            None => None,
        }
    }

    /// The name of the entry in place `i`.
    pub fn name_at(&self, i: usize) -> (name: &String)
        requires
            i < self.entries().len(),
        ensures
            name@ == self.entries()[i as int].0,
    {
        &self.slots[i].0
    }

    /// The value of the entry in place `i`.
    pub fn value_at(&self, i: usize) -> (value: &T)
        requires
            i < self.entries().len(),
        ensures
            *value == self.entries()[i as int].1,
    {
        &self.slots[i].1
    }

    /// Puts `value` under `name`. A value that was there before is dropped
    /// and its place taken; a new name goes to the end.
    pub fn insert(&mut self, name: String, value: T)
        ensures
            final(self).entries() == with_entry(old(self).entries(), name@, value),
            final(self)@ == old(self)@.insert(name@, value),
            final(self).entries().len() == if old(self)@.contains_key(name@) {
                old(self).entries().len()
            } else {
                old(self).entries().len() + 1
            },
    {
        proof {
            use_type_invariant(&*self);
            lemma_with_entry(self.entries(), name@, value);
        }
        let found = self.position(&name);
        let ghost before = self.entries();
        let mut slots: Vec<(String, T)> = Vec::new();
        std::mem::swap(&mut self.slots, &mut slots);
        match found {
            Some(i) => {
                slots[i] = (name, value);
            },
            None => {
                slots.push((name, value));
            },
        }
        assert(slots@.map_values(|slot: (String, T)| (slot.0@, slot.1)) =~= with_entry(
            before,
            name@,
            value,
        ));
        self.slots = slots;
    }

    /// Takes the entry called `name` out, if there is one, and says whether
    /// there was.
    pub fn remove(&mut self, name: &String) -> (was_there: bool)
        ensures
            was_there == old(self)@.contains_key(name@),
            final(self).entries() == without(old(self).entries(), name@),
            final(self)@ == old(self)@.remove(name@),
            final(self).entries().len() == if was_there {
                old(self).entries().len() - 1
            } else {
                old(self).entries().len() as int
            },
    {
        proof {
            use_type_invariant(&*self);
            lemma_without(self.entries(), name@);
        }
        let found = self.position(name);
        let ghost before = self.entries();
        match found {
            Some(i) => {
                let mut slots: Vec<(String, T)> = Vec::new();
                std::mem::swap(&mut self.slots, &mut slots);
                let _ = slots.remove(i);
                assert(slots@.map_values(|slot: (String, T)| (slot.0@, slot.1)) =~= without(
                    before,
                    name@,
                ));
                self.slots = slots;
                true
            },
            None => false,
        }
    }

    /// Keeps the entries whose mark in `keep` is set and drops the others.
    /// What stays keeps its order.
    pub fn retain_marked(&mut self, keep: &Vec<bool>)
        requires
            keep.len() == old(self).entries().len(),
        ensures
            final(self).entries() == marked(old(self).entries(), keep@),
            final(self)@.submap_of(old(self)@),
    {
        proof {
            use_type_invariant(&*self);
            lemma_marked_entries(self.entries(), keep@);
        }
        let ghost before = self.entries();
        let mut slots: Vec<(String, T)> = Vec::new();
        std::mem::swap(&mut self.slots, &mut slots);
        let ghost all = slots@;
        let mut kept: Vec<(String, T)> = Vec::new();
        let mut i: usize = 0;
        for slot in it: slots
            invariant
                i == it.index(),
                it.seq() == all,
                all.len() == keep.len(),
                kept@ == marked(all.take(i as int), keep@),
        {
            proof {
                assert(all.take(i + 1).drop_last() =~= all.take(i as int));
                assert(all.take(i + 1).last() == all[i as int]);
            }
            if keep[i] {
                kept.push(slot);
            }
            i += 1;
        }
        proof {
            let view = |slot: (String, T)| (slot.0@, slot.1);
            assert(all.take(i as int) =~= all);
            lemma_marked_map(all, keep@, view);
            assert(all.map_values(view) == before);
        }
        self.slots = kept;
    }
}

} // verus!
