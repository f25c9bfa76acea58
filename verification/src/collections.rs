//! A map from strings to values that keeps every key once.
//!
//! Entries are written one after another. An entry whose key was written
//! before replaces the value that the key had: the last write wins.

use vstd::prelude::*;
use crate::text::same_text;

verus! {

/// The map that a sequence of entries writes, one entry after another: an
/// entry replaces what an earlier entry with the same key wrote.
pub open spec fn collect<T>(entries: Seq<(Seq<char>, T)>) -> Map<Seq<char>, T>
    decreases entries.len(),
{
    if entries.len() == 0 {
        Map::empty()
    } else {
        collect(entries.drop_last()).insert(entries.last().0, entries.last().1)
    }
}

/// No two entries have the same key.
pub open spec fn distinct_keys<T>(entries: Seq<(Seq<char>, T)>) -> bool {
    forall|i: int, j: int|
        0 <= i < j < entries.len() ==> (#[trigger] entries[i]).0 != (#[trigger] entries[j]).0
}

/// The entries after `value` is written under `key`: where an entry has the
/// key, it keeps its place and gets the value; else a new entry stands at
/// the end.
pub open spec fn rewritten<T>(entries: Seq<(Seq<char>, T)>, key: Seq<char>, value: T) -> Seq<
    (Seq<char>, T),
> {
    if exists|i: int| 0 <= i < entries.len() && (#[trigger] entries[i]).0 == key {
        entries.map_values(
            |entry: (Seq<char>, T)|
                if entry.0 == key {
                    (key, value)
                } else {
                    entry
                },
        )
    } else {
        entries.push((key, value))
    }
}

/// What is kept of entries that are written one after another: each key
/// once, at the place where it was first written, with the value that was
/// written last.
pub open spec fn kept<T>(entries: Seq<(Seq<char>, T)>) -> Seq<(Seq<char>, T)>
    decreases entries.len(),
{
    if entries.len() == 0 {
        Seq::empty()
    } else {
        rewritten(kept(entries.drop_last()), entries.last().0, entries.last().1)
    }
}

/// The keys of the collected map are the keys of the entries, and there are
/// finitely many of them.
pub proof fn lemma_collect_keys<T>(entries: Seq<(Seq<char>, T)>, key: Seq<char>)
    ensures
        collect(entries).dom().finite(),
        collect(entries).contains_key(key) <==> exists|i: int|
            0 <= i < entries.len() && (#[trigger] entries[i]).0 == key,
    decreases entries.len(),
{
    if entries.len() > 0 {
        let front = entries.drop_last();
        lemma_collect_keys(front, key);
        if collect(entries).contains_key(key) {
            if entries.last().0 == key {
                assert(entries[entries.len() - 1].0 == key);
            } else {
                let i = choose|i: int| 0 <= i < front.len() && (#[trigger] front[i]).0 == key;
                assert(entries[i].0 == key);
            }
        }
        if exists|i: int| 0 <= i < entries.len() && (#[trigger] entries[i]).0 == key {
            let i = choose|i: int| 0 <= i < entries.len() && (#[trigger] entries[i]).0 == key;
            if i < front.len() {
                assert(front[i].0 == key);
            }
        }
    }
}

/// Every value of the collected map is the value of an entry with its key.
pub proof fn lemma_collect_values<T>(entries: Seq<(Seq<char>, T)>, key: Seq<char>)
    requires
        collect(entries).contains_key(key),
    ensures
        exists|i: int|
            0 <= i < entries.len() && #[trigger] entries[i] == (key, collect(entries)[key]),
    decreases entries.len(),
{
    if entries.len() > 0 {
        let front = entries.drop_last();
        if entries.last().0 == key {
            assert(entries[entries.len() - 1] == (key, collect(entries)[key]));
        } else {
            lemma_collect_values(front, key);
            let i = choose|i: int|
                0 <= i < front.len() && #[trigger] front[i] == (key, collect(front)[key]);
            assert(entries[i] == (key, collect(entries)[key]));
        }
    }
}

/// Last write wins: under a key, the collected map holds the value of the
/// last entry that has the key.
pub proof fn lemma_collect_last_write_wins<T>(entries: Seq<(Seq<char>, T)>, i: int)
    requires
        0 <= i < entries.len(),
        forall|j: int| i < j < entries.len() ==> (#[trigger] entries[j]).0 != entries[i].0,
    ensures
        collect(entries).contains_key(entries[i].0),
        collect(entries)[entries[i].0] == entries[i].1,
    decreases entries.len(),
{
    if i < entries.len() - 1 {
        let front = entries.drop_last();
        assert(entries[entries.len() - 1].0 != entries[i].0);
        assert forall|j: int| i < j < front.len() implies (#[trigger] front[j]).0
            != front[i].0 by {
            assert(entries[j].0 != entries[i].0);
        }
        lemma_collect_last_write_wins(front, i);
    }
}

/// Entries with distinct keys collect to a map with one key for each.
pub proof fn lemma_collect_len<T>(entries: Seq<(Seq<char>, T)>)
    requires
        distinct_keys(entries),
    ensures
        collect(entries).dom().finite(),
        collect(entries).dom().len() == entries.len(),
    decreases entries.len(),
{
    if entries.len() > 0 {
        let front = entries.drop_last();
        assert forall|i: int, j: int| 0 <= i < j < front.len() implies (#[trigger] front[i]).0 != (
        #[trigger] front[j]).0 by {
            assert(entries[i].0 != entries[j].0);
        }
        lemma_collect_len(front);
        lemma_collect_keys(front, entries.last().0);
        if collect(front).contains_key(entries.last().0) {
            let i = choose|i: int|
                0 <= i < front.len() && (#[trigger] front[i]).0 == entries.last().0;
            assert(entries[i].0 != entries[entries.len() - 1].0);
        }
    } else {
        lemma_collect_keys(entries, Seq::empty());
    }
}

/// Where the keys are distinct, a new value for the key of an entry changes
/// the collected map under that key and nowhere else.
pub proof fn lemma_collect_update<T>(entries: Seq<(Seq<char>, T)>, i: int, value: T)
    requires
        distinct_keys(entries),
        0 <= i < entries.len(),
    ensures
        distinct_keys(entries.update(i, (entries[i].0, value))),
        collect(entries.update(i, (entries[i].0, value))) == collect(entries).insert(
            entries[i].0,
            value,
        ),
    decreases entries.len(),
{
    let key = entries[i].0;
    let updated = entries.update(i, (key, value));
    assert forall|a: int, b: int| 0 <= a < b < updated.len() implies (#[trigger] updated[a]).0 != (
    #[trigger] updated[b]).0 by {
        assert(entries[a].0 != entries[b].0);
    }
    let front = entries.drop_last();
    if i == entries.len() - 1 {
        assert(updated.drop_last() =~= front);
        assert(collect(updated) =~= collect(entries).insert(key, value));
    } else {
        assert forall|a: int, b: int| 0 <= a < b < front.len() implies (#[trigger] front[a]).0 != (
        #[trigger] front[b]).0 by {
            assert(entries[a].0 != entries[b].0);
        }
        lemma_collect_update(front, i, value);
        assert(updated.drop_last() =~= front.update(i, (key, value)));
        assert(entries[i].0 != entries[entries.len() - 1].0);
        assert(collect(updated) =~= collect(entries).insert(key, value));
    }
}

/// A map from strings to values, kept as a list of entries in the order in
/// which their keys were first written. Two maps are equal where their
/// lists are: the same keys in the same order, with the same values.
#[derive(Debug, PartialEq, Eq)]
pub struct StringMap<V: DeepView> {
    entries: Vec<(String, V)>,
}

impl<V: DeepView> StringMap<V> {
    /// The entries, by their views, in the order in which they are kept.
    pub closed spec fn pairs(&self) -> Seq<(Seq<char>, V::V)> {
        self.entries.deep_view()
    }

    #[verifier::type_invariant]
    spec fn keys_are_distinct(&self) -> bool {
        distinct_keys(self.pairs())
    }

    /// The map that the entries collect to.
    pub open spec fn as_map(&self) -> Map<Seq<char>, V::V> {
        collect(self.pairs())
    }

    /// An empty map.
    pub fn new() -> (r: Self)
        ensures
            r.as_map() == Map::<Seq<char>, V::V>::empty(),
            r.pairs() == Seq::<(Seq<char>, V::V)>::empty(),
    {
        let r = StringMap { entries: Vec::new() };
        assert(r.pairs() =~= Seq::empty());
        r
    }

    /// The map that `entries` write, one after another: the last write wins,
    /// and a key stays where it was first written.
    pub fn from_entries(entries: Vec<(String, V)>) -> (r: Self)
        ensures
            r.as_map() == collect(entries.deep_view()),
            r.pairs() == kept(entries.deep_view()),
    {
        let ghost all = entries.deep_view();
        let mut map = StringMap::new();
        let ghost mut done: int = 0;
        for entry in it: entries
            invariant
                0 <= done <= all.len(),
                done == it.index(),
                it.seq().len() == all.len(),
                forall|i: int| 0 <= i < all.len() ==> (#[trigger] it.seq()[i]).deep_view() == all[i],
                map.as_map() == collect(all.take(done)),
                map.pairs() == kept(all.take(done)),
        {
            let (key, value) = entry;
            assert(all.take(done + 1).drop_last() =~= all.take(done));
            map.insert(key, value);
            proof {
                done = done + 1;
            }
        }
        assert(all.take(done) =~= all);
        map
    }

    /// The number of keys.
    pub fn len(&self) -> (r: usize)
        ensures
            self.as_map().dom().finite(),
            r == self.as_map().dom().len(),
            r == self.pairs().len(),
    {
        proof {
            use_type_invariant(self);
            lemma_collect_len(self.pairs());
        }
        self.entries.len()
    }

    /// Whether the map has no key.
    pub fn is_empty(&self) -> (r: bool)
        ensures
            r == (self.as_map() == Map::<Seq<char>, V::V>::empty()),
    {
        proof {
            use_type_invariant(self);
            lemma_collect_len(self.pairs());
            if self.pairs().len() == 0 {
                assert(self.as_map() =~= Map::empty());
            }
        }
        self.entries.len() == 0
    }

    /// The place of `key` among the entries, if the map has the key.
    fn position(&self, key: &str) -> (r: Option<usize>)
        ensures
            match r {
                Some(i) => i < self.pairs().len() && self.pairs()[i as int].0 == key@,
                None => forall|i: int| 0 <= i < self.pairs().len() ==> self.pairs()[i].0 != key@,
            },
    {
        let mut i: usize = 0;
        while i < self.entries.len()
            invariant
                i <= self.entries.len(),
                self.pairs().len() == self.entries.len(),
                forall|j: int| 0 <= j < i ==> self.pairs()[j].0 != key@,
            decreases self.entries.len() - i,
        {
            if same_text(self.entries[i].0.as_str(), key) {
                return Some(i);
            }
            i += 1;
        }
        None
    }

    /// The value under `key`, if the map has the key.
    pub fn get(&self, key: &str) -> (r: Option<&V>)
        ensures
            match r {
                Some(value) => self.as_map().contains_key(key@) && value.deep_view()
                    == self.as_map()[key@],
                None => !self.as_map().contains_key(key@),
            },
    {
        proof {
            use_type_invariant(self);
            lemma_collect_keys(self.pairs(), key@);
        }
        match self.position(key) {
            Some(i) => {
                proof {
                    lemma_collect_last_write_wins(self.pairs(), i as int);
                }
                Some(&self.entries[i].1)
            },
            None => None,
        }
    }

    /// Whether the map has `key`.
    pub fn contains_key(&self, key: &str) -> (r: bool)
        ensures
            r == self.as_map().contains_key(key@),
    {
        self.get(key).is_some()
    }

    /// Writes `value` under `key`. A value that the key had before is
    /// replaced, and the key keeps its place.
    pub fn insert(&mut self, key: String, value: V)
        ensures
            final(self).as_map() == old(self).as_map().insert(key@, value.deep_view()),
            final(self).pairs() == rewritten(old(self).pairs(), key@, value.deep_view()),
    {
        proof {
            use_type_invariant(&*self);
        }
        let found = self.position(key.as_str());
        let ghost before = self.pairs();
        let mut entries: Vec<(String, V)> = Vec::new();
        assert(entries.deep_view() =~= Seq::empty());
        core::mem::swap(&mut self.entries, &mut entries);
        match found {
            Some(i) => {
                proof {
                    lemma_collect_update(before, i as int, value.deep_view());
                }
                entries.set(i, (key, value));
                assert(entries.deep_view() =~= before.update(
                    i as int,
                    (key@, value.deep_view()),
                ));
                assert(before[i as int].0 == key@);
                assert(entries.deep_view() =~= rewritten(before, key@, value.deep_view())) by {
                    assert forall|j: int| 0 <= j < before.len() && j != i implies (
                    #[trigger] before[j]).0 != key@ by {
                        if j < i {
                            assert(before[j].0 != before[i as int].0);
                        } else {
                            assert(before[i as int].0 != before[j].0);
                        }
                    }
                }
            },
            None => {
                entries.push((key, value));
                assert(entries.deep_view() =~= before.push((key@, value.deep_view())));
                assert(entries.deep_view().drop_last() =~= before);
            },
        }
        core::mem::swap(&mut self.entries, &mut entries);
    }

    /// Gives the entries up, in the order in which their keys were first
    /// written.
    pub fn into_entries(self) -> (r: Vec<(String, V)>)
        ensures
            r.deep_view() == self.pairs(),
            distinct_keys(self.pairs()),
    {
        proof {
            use_type_invariant(&self);
        }
        self.entries
    }

    /// The entries, in the order in which their keys were first written.
    pub fn entries(&self) -> (r: &Vec<(String, V)>)
        ensures
            r.deep_view() == self.pairs(),
            distinct_keys(self.pairs()),
    {
        proof {
            use_type_invariant(self);
        }
        &self.entries
    }
}

impl<V: DeepView> View for StringMap<V> {
    type V = Map<Seq<char>, V::V>;

    open spec fn view(&self) -> Map<Seq<char>, V::V> {
        self.as_map()
    }
}

impl<V: DeepView> DeepView for StringMap<V> {
    type V = Map<Seq<char>, V::V>;

    open spec fn deep_view(&self) -> Map<Seq<char>, V::V> {
        self.as_map()
    }
}

} // verus!
