//! A map from asset identifiers to values.
//!
//! Balances, balance changes and prices are all keyed by an asset's
//! identifier, a string. `AssetMap` keeps such a mapping as a list of entries
//! in which no identifier occurs twice, and is viewed as the mathematical map
//! from identifiers to values.

use vstd::prelude::*;

verus! {

/// The map that a list of entries stands for. Where an identifier occurs more
/// than once, the entry nearest the end of the list decides.
pub open spec fn map_of<V>(entries: Seq<(Seq<char>, V)>) -> Map<Seq<char>, V>
    decreases entries.len(),
{
    if entries.len() == 0 {
        Map::empty()
    } else {
        map_of(entries.drop_last()).insert(entries.last().0, entries.last().1)
    }
}

/// No identifier occurs twice among the entries.
pub open spec fn distinct_keys<V>(entries: Seq<(Seq<char>, V)>) -> bool {
    forall|i: int, j: int|
        0 <= i < j < entries.len() ==> (#[trigger] entries[i]).0 != (#[trigger] entries[j]).0
}

/// The position of the entry for `key`, or the number of entries if there is
/// none.
pub open spec fn position_of<V>(entries: Seq<(Seq<char>, V)>, key: Seq<char>) -> int
    decreases entries.len(),
{
    if entries.len() == 0 {
        0
    } else if entries[0].0 == key {
        0
    } else {
        1 + position_of(entries.skip(1), key)
    }
}

/// The map of a list has exactly the identifiers of its entries.
pub proof fn lemma_map_of_domain<V>(entries: Seq<(Seq<char>, V)>, key: Seq<char>)
    ensures
        map_of(entries).contains_key(key) <==> exists|i: int|
            0 <= i < entries.len() && (#[trigger] entries[i]).0 == key,
        map_of(entries).dom().finite(),
        map_of(entries).len() <= entries.len(),
    decreases entries.len(),
{
    if entries.len() > 0 {
        let front = entries.drop_last();
        lemma_map_of_domain(front, key);
        if map_of(entries).contains_key(key) {
            if entries.last().0 == key {
                assert(entries[entries.len() - 1].0 == key);
            } else {
                let i = choose|i: int| 0 <= i < front.len() && (#[trigger] front[i]).0 == key;
                assert(entries[i].0 == key);
            }
        }
        if exists|i: int| 0 <= i < entries.len() && (#[trigger] entries[i]).0 == key {
            let i = choose|i: int| 0 <= i < entries.len() && (#[trigger] entries[i]).0 == key;
            if i < front.len() {
                assert(front[i].0 == key);
            }
        }
    }
}

/// Among entries with distinct identifiers, each entry's value is the one the
/// map holds for its identifier, and the map has as many pairs as the list has
/// entries.
pub proof fn lemma_map_of_entry<V>(entries: Seq<(Seq<char>, V)>, i: int)
    requires
        distinct_keys(entries),
        0 <= i < entries.len(),
    ensures
        map_of(entries).contains_key(entries[i].0),
        map_of(entries)[entries[i].0] == entries[i].1,
        map_of(entries).len() == entries.len(),
    decreases entries.len(),
{
    let front = entries.drop_last();
    let last = entries.last();
    assert(distinct_keys(front)) by {
        assert forall|a: int, b: int| 0 <= a < b < front.len() implies (#[trigger] front[a]).0 != (
        #[trigger] front[b]).0 by {
            assert(entries[a].0 != entries[b].0);
        }
    }
    lemma_map_of_domain(front, last.0);
    if exists|j: int| 0 <= j < front.len() && (#[trigger] front[j]).0 == last.0 {
        let j = choose|j: int| 0 <= j < front.len() && (#[trigger] front[j]).0 == last.0;
        assert(entries[j].0 != entries[entries.len() - 1].0);
    }
    assert(!map_of(front).contains_key(last.0));
    if front.len() > 0 {
        lemma_map_of_entry(front, if i < front.len() { i } else { 0 });
    }
    if i < front.len() {
        assert(entries[i].0 != entries[entries.len() - 1].0);
        assert(front[i] == entries[i]);
    }
}

/// Replacing the value of an entry changes the map as an insertion under that
/// entry's identifier does.
pub proof fn lemma_map_of_update<V>(entries: Seq<(Seq<char>, V)>, i: int, value: V)
    requires
        distinct_keys(entries),
        0 <= i < entries.len(),
    ensures
        distinct_keys(entries.update(i, (entries[i].0, value))),
        map_of(entries.update(i, (entries[i].0, value))) == map_of(entries).insert(
            entries[i].0,
            value,
        ),
    decreases entries.len(),
{
    let key = entries[i].0;
    let updated = entries.update(i, (key, value));
    assert(distinct_keys(updated)) by {
        assert forall|a: int, b: int| 0 <= a < b < updated.len() implies (#[trigger] updated[a]).0
            != (#[trigger] updated[b]).0 by {
            assert(entries[a].0 != entries[b].0);
        }
    }
    let front = entries.drop_last();
    if i == entries.len() - 1 {
        assert(updated.drop_last() =~= front);
        assert(map_of(updated) =~= map_of(entries).insert(key, value));
    } else {
        assert(distinct_keys(front)) by {
            assert forall|a: int, b: int| 0 <= a < b < front.len() implies (#[trigger] front[a]).0
                != (#[trigger] front[b]).0 by {
                assert(entries[a].0 != entries[b].0);
            }
        }
        lemma_map_of_update(front, i, value);
        assert(updated.drop_last() =~= front.update(i, (key, value)));
        assert(entries[i].0 != entries[entries.len() - 1].0);
        assert(map_of(updated) =~= map_of(entries).insert(key, value));
    }
}

/// Taking an entry out changes the map as a removal of that entry's
/// identifier does.
pub proof fn lemma_map_of_remove<V>(entries: Seq<(Seq<char>, V)>, i: int)
    requires
        distinct_keys(entries),
        0 <= i < entries.len(),
    ensures
        distinct_keys(entries.remove(i)),
        map_of(entries.remove(i)) == map_of(entries).remove(entries[i].0),
    decreases entries.len(),
{
    let key = entries[i].0;
    let removed = entries.remove(i);
    assert(distinct_keys(removed)) by {
        assert forall|a: int, b: int| 0 <= a < b < removed.len() implies (#[trigger] removed[a]).0
            != (#[trigger] removed[b]).0 by {
            let a0 = if a < i { a } else { a + 1 };
            let b0 = if b < i { b } else { b + 1 };
            assert(entries[a0].0 != entries[b0].0);
        }
    }
    let front = entries.drop_last();
    assert(distinct_keys(front)) by {
        assert forall|a: int, b: int| 0 <= a < b < front.len() implies (#[trigger] front[a]).0 != (
        #[trigger] front[b]).0 by {
            assert(entries[a].0 != entries[b].0);
        }
    }
    if i == entries.len() - 1 {
        assert(removed =~= front);
        lemma_map_of_domain(front, key);
        if exists|j: int| 0 <= j < front.len() && (#[trigger] front[j]).0 == key {
            let j = choose|j: int| 0 <= j < front.len() && (#[trigger] front[j]).0 == key;
            assert(entries[j].0 != entries[entries.len() - 1].0);
        }
        assert(map_of(removed) =~= map_of(entries).remove(key));
    } else {
        lemma_map_of_remove(front, i);
        assert(removed.drop_last() =~= front.remove(i));
        assert(removed.last() == entries.last());
        assert(entries[i].0 != entries[entries.len() - 1].0);
        assert(map_of(removed) =~= map_of(entries).remove(key));
    }
}

/// The entry found for an identifier carries that identifier, and no entry
/// before it does; past the end, no entry carries it.
pub proof fn lemma_position_of<V>(entries: Seq<(Seq<char>, V)>, key: Seq<char>)
    ensures
        0 <= position_of(entries, key) <= entries.len(),
        position_of(entries, key) < entries.len() ==> entries[position_of(entries, key)].0 == key,
        forall|i: int| 0 <= i < position_of(entries, key) ==> (#[trigger] entries[i]).0 != key,
    decreases entries.len(),
{
    if entries.len() > 0 && entries[0].0 != key {
        let rest = entries.skip(1);
        lemma_position_of(rest, key);
        assert forall|i: int| 0 <= i < position_of(entries, key) implies (#[trigger] entries[i]).0
            != key by {
            if i > 0 {
                assert(rest[i - 1].0 != key);
            }
        }
    }
}

/// A finite map from asset identifiers to values of type `V`.
pub struct AssetMap<V> {
    entries: Vec<(String, V)>,
}

impl<V> View for AssetMap<V> {
    type V = Map<Seq<char>, V>;

    open spec fn view(&self) -> Map<Seq<char>, V> {
        map_of(self.entries())
    }
}

impl<V> AssetMap<V> {
    /// The entries in the order in which their identifiers first came in.
    pub closed spec fn entries(&self) -> Seq<(Seq<char>, V)> {
        self.entries@.map_values(|e: (String, V)| (e.0@, e.1))
    }

    #[verifier::type_invariant]
    spec fn well_formed(&self) -> bool {
        distinct_keys(self.entries())
    }

    /// The position of the entry for `key`, if there is one.
    #[verifier::loop_isolation(false)]
    fn find(&self, key: &str) -> (found: Option<usize>)
        ensures
            distinct_keys(self.entries()),
            match found {
                Some(i) => i < self.entries().len() && self.entries()[i as int].0 == key@
                    && i == position_of(self.entries(), key@),
                None => !self@.contains_key(key@) && position_of(self.entries(), key@)
                    == self.entries().len(),
            },
    {
        proof {
            use_type_invariant(self);
            lemma_position_of(self.entries(), key@);
            lemma_map_of_domain(self.entries(), key@);
        }
        let wanted = key.to_owned();
        let mut i: usize = 0;
        while i < self.entries.len()
            invariant
                i <= self.entries.len(),
                forall|j: int| 0 <= j < i ==> (#[trigger] self.entries()[j]).0 != key@,
            decreases self.entries.len() - i,
        {
            if self.entries[i].0 == wanted {
                assert(self.entries()[i as int].0 == key@);
                return Some(i);
            }
            assert(self.entries()[i as int].0 != key@);
            i += 1;
        }
        None
    }

    /// Moves the entries out and leaves the map empty.
    fn take_entries(&mut self) -> (entries: Vec<(String, V)>)
        ensures
            entries@.map_values(|e: (String, V)| (e.0@, e.1)) == old(self).entries(),
            distinct_keys(old(self).entries()),
    {
        proof {
            use_type_invariant(&*self);
        }
        let mut taken = AssetMap { entries: Vec::new() };
        core::mem::swap(self, &mut taken);
        taken.entries
    }

    /// The empty map.
    pub fn new() -> (map: Self)
        ensures
            map@ == Map::<Seq<char>, V>::empty(),
            map.entries() == Seq::<(Seq<char>, V)>::empty(),
    {
        let map = AssetMap { entries: Vec::new() };
        assert(map.entries() =~= Seq::<(Seq<char>, V)>::empty());
        map
    }

    /// The number of assets in the map.
    pub fn len(&self) -> (n: usize)
        ensures
            n == self@.len(),
            n == self.entries().len(),
            distinct_keys(self.entries()),
    {
        proof {
            use_type_invariant(self);
            if self.entries().len() > 0 {
                lemma_map_of_entry(self.entries(), 0);
            }
        }
        self.entries.len()
    }

    /// Whether the map holds no asset.
    pub fn is_empty(&self) -> (empty: bool)
        ensures
            empty == (self@.len() == 0),
            empty == (self.entries().len() == 0),
    {
        self.len() == 0
    }

    /// Whether a value is held for `key`.
    pub fn contains_key(&self, key: &str) -> (present: bool)
        ensures
            present == self@.contains_key(key@),
    {
        let found = self.find(key);
        proof {
            if let Some(i) = found {
                lemma_map_of_entry(self.entries(), i as int);
            }
        }
        found.is_some()
    }

    /// The value held for `key`, if any.
    pub fn get(&self, key: &str) -> (value: Option<&V>)
        ensures
            match value {
                Some(v) => self@.contains_key(key@) && *v == self@[key@],
                None => !self@.contains_key(key@),
            },
    {
        match self.find(key) {
            Some(i) => {
                proof {
                    lemma_map_of_entry(self.entries(), i as int);
                }
                Some(&self.entries[i].1)
            },
            None => None,
        }
    }

    /// The identifier of the entry at `index`.
    pub fn key_at(&self, index: usize) -> (key: &String)
        requires
            index < self.entries().len(),
        ensures
            key@ == self.entries()[index as int].0,
    {
        &self.entries[index].0
    }

    /// The value of the entry at `index`.
    pub fn value_at(&self, index: usize) -> (value: &V)
        requires
            index < self.entries().len(),
        ensures
            *value == self.entries()[index as int].1,
            self@.contains_key(self.entries()[index as int].0),
            self@[self.entries()[index as int].0] == *value,
    {
        proof {
            use_type_invariant(self);
            lemma_map_of_entry(self.entries(), index as int);
        }
        &self.entries[index].1
    }

    /// Sets the value held for `key`, whether or not one was held before.
    pub fn insert(&mut self, key: String, value: V)
        ensures
            final(self)@ == old(self)@.insert(key@, value),
            final(self).entries() == (if old(self)@.contains_key(key@) {
                old(self).entries().update(position_of(old(self).entries(), key@), (key@, value))
            } else {
                old(self).entries().push((key@, value))
            }),
    {
        let ghost before = self.entries();
        match self.find(key.as_str()) {
            Some(i) => {
                proof {
                    lemma_map_of_entry(before, i as int);
                    lemma_map_of_update(before, i as int, value);
                }
                let ghost key_view = key@;
                let mut entries = self.take_entries();
                entries.set(i, (key, value));
                assert(entries@.map_values(|e: (String, V)| (e.0@, e.1)) =~= before.update(
                    i as int,
                    (key_view, value),
                ));
                *self = AssetMap { entries };
            },
            None => {
                proof {
                    lemma_map_of_domain(before, key@);
                }
                let ghost key_view = key@;
                let ghost after = before.push((key_view, value));
                let mut entries = self.take_entries();
                entries.push((key, value));
                assert(entries@.map_values(|e: (String, V)| (e.0@, e.1)) =~= after);
                assert(after.drop_last() =~= before);
                assert(distinct_keys(after)) by {
                    assert forall|a: int, b: int| 0 <= a < b < after.len() implies (
                    #[trigger] after[a]).0 != (#[trigger] after[b]).0 by {
                        if b < before.len() {
                            assert(before[a].0 != before[b].0);
                        } else {
                            assert(before[a].0 != key_view);
                        }
                    }
                }
                *self = AssetMap { entries };
            },
        }
    }

    /// Drops the value held for `key`, if there is one.
    pub fn remove(&mut self, key: &str)
        ensures
            final(self)@ == old(self)@.remove(key@),
            final(self).entries() == (if old(self)@.contains_key(key@) {
                old(self).entries().remove(position_of(old(self).entries(), key@))
            } else {
                old(self).entries()
            }),
    {
        let ghost before = self.entries();
        match self.find(key) {
            Some(i) => {
                proof {
                    lemma_map_of_entry(before, i as int);
                    lemma_map_of_remove(before, i as int);
                }
                let mut entries = self.take_entries();
                entries.remove(i);
                assert(entries@.map_values(|e: (String, V)| (e.0@, e.1)) =~= before.remove(
                    i as int,
                ));
                *self = AssetMap { entries };
            },
            None => {
                assert(self@ =~= self@.remove(key@));
            },
        }
    }

    /// The identifiers of the map, in entry order.
    pub fn keys(&self) -> (keys: Vec<String>)
        ensures
            keys@.len() == self.entries().len(),
            forall|i: int| 0 <= i < keys@.len() ==> (#[trigger] keys@[i])@ == self.entries()[i].0,
            distinct_keys(self.entries()),
    {
        proof {
            use_type_invariant(self);
        }
        let mut keys: Vec<String> = Vec::new();
        let mut i: usize = 0;
        while i < self.entries.len()
            invariant
                i <= self.entries.len(),
                self.entries().len() == self.entries.len(),
                keys@.len() == i,
                forall|j: int| 0 <= j < i ==> (#[trigger] keys@[j])@ == self.entries()[j].0,
            decreases self.entries.len() - i,
        {
            keys.push(self.entries[i].0.clone());
            i += 1;
        }
        keys
    }
}

impl<V: Clone> Clone for AssetMap<V> {
    /// A copy with the same identifiers in the same order, each value a clone
    /// of the one it was copied from.
    fn clone(&self) -> (copy: Self)
        ensures
            copy.entries().len() == self.entries().len(),
            forall|i: int|
                0 <= i < self.entries().len() ==> (#[trigger] copy.entries()[i]).0
                    == self.entries()[i].0 && cloned(self.entries()[i].1, copy.entries()[i].1),
    {
        proof {
            use_type_invariant(self);
        }
        let mut entries: Vec<(String, V)> = Vec::new();
        let mut i: usize = 0;
        while i < self.entries.len()
            invariant
                i <= self.entries.len(),
                entries@.len() == i,
                forall|j: int|
                    0 <= j < i ==> (#[trigger] entries@[j]).0@ == self.entries@[j].0@ && cloned(
                        self.entries@[j].1,
                        entries@[j].1,
                    ),
            decreases self.entries.len() - i,
        {
            let key = self.entries[i].0.clone();
            let value = self.entries[i].1.clone();
            entries.push((key, value));
            i += 1;
        }
        let ghost copied = entries@.map_values(|e: (String, V)| (e.0@, e.1));
        assert(distinct_keys(copied)) by {
            assert forall|a: int, b: int| 0 <= a < b < copied.len() implies (#[trigger] copied[a]).0
                != (#[trigger] copied[b]).0 by {
                assert(self.entries()[a].0 != self.entries()[b].0);
            }
        }
        AssetMap { entries }
    }
}

} // verus!
