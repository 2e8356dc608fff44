//! A map from texts to values that keeps the order in which keys were added.

use vstd::prelude::*;

use crate::text::same;

verus! {

/// A map from texts to values. Each key occurs once; keys stand in the order in
/// which they were first inserted.
#[derive(Debug)]
pub struct StringMap<V> {
    core: Core<V>,
}

/// The keys and, at the same positions, their values.
#[derive(Debug)]
struct Core<V> {
    names: Vec<String>,
    values: Vec<V>,
}

impl<V> Core<V> {
    spec fn pairs(self) -> Seq<(String, V)> {
        zip_entries(self.names@, self.values@)
    }
}

/// The entries that a list of keys and a list of values make.
pub open spec fn zip_entries<V>(names: Seq<String>, values: Seq<V>) -> Seq<(String, V)> {
    Seq::new(names.len(), |i: int| (names[i], values[i]))
}

/// The keys of a list of entries.
pub open spec fn entry_keys<V>(entries: Seq<(String, V)>) -> Seq<Seq<char>> {
    entries.map_values(|e: (String, V)| e.0@)
}

/// The map that a list of entries with distinct keys stands for.
pub open spec fn entry_map<V>(entries: Seq<(String, V)>) -> Map<Seq<char>, V> {
    Map::new(
        |k: Seq<char>| entry_keys(entries).contains(k),
        |k: Seq<char>| entries[entry_keys(entries).index_of(k)].1,
    )
}

impl<V> View for StringMap<V> {
    type V = Map<Seq<char>, V>;

    open spec fn view(&self) -> Map<Seq<char>, V> {
        entry_map(self.list())
    }
}

impl<V> StringMap<V> {
    #[verifier::type_invariant]
    spec fn keys_are_distinct(self) -> bool {
        &&& self.core.names@.len() == self.core.values@.len()
        &&& entry_keys(self.core.pairs()).no_duplicates()
    }

    /// The entries in order.
    pub closed spec fn list(&self) -> Seq<(String, V)> {
        self.core.pairs()
    }

    /// The keys in order.
    pub open spec fn keys(&self) -> Seq<Seq<char>> {
        entry_keys(self.list())
    }

    /// A map without entries.
    pub fn new() -> (m: Self)
        ensures
            m@ == Map::<Seq<char>, V>::empty(),
            m.list() == Seq::<(String, V)>::empty(),
    {
        let core: Core<V> = Core { names: Vec::new(), values: Vec::new() };
        assert(core.pairs() =~= Seq::<(String, V)>::empty());
        let m = StringMap { core };
        assert(m@ =~= Map::<Seq<char>, V>::empty());
        m
    }

    /// The number of entries.
    pub fn len(&self) -> (n: usize)
        ensures
            n == self.list().len(),
            n == self.keys().len(),
    {
        self.core.names.len()
    }

    /// Whether the map has no entries.
    pub fn is_empty(&self) -> (r: bool)
        ensures
            r == (self.list().len() == 0),
            r == (self@ == Map::<Seq<char>, V>::empty()),
    {
        proof {
            if self.list().len() == 0 {
                assert(self@ =~= Map::<Seq<char>, V>::empty());
            } else {
                assert(self.keys()[0] == self.list()[0].0@);
                assert(self.keys().contains(self.keys()[0]));
                assert(self@.dom().contains(self.keys()[0]));
            }
        }
        self.core.names.len() == 0
    }

    /// The entry at position `i`.
    pub fn entry(&self, i: usize) -> (e: (&String, &V))
        requires
            i < self.list().len(),
        ensures
            (*e.0, *e.1) == self.list()[i as int],
            self.keys()[i as int] == e.0@,
            self@.dom().contains(e.0@),
            self@[e.0@] == *e.1,
    {
        proof {
            use_type_invariant(self);
            lemma_entry(self.list(), i as int);
        }
        (&self.core.names[i], &self.core.values[i])
    }

    fn position(&self, key: &str) -> (r: Option<usize>)
        ensures
            match r {
                Some(i) => i < self.list().len() && self.keys()[i as int] == key@ && self@.dom().contains(key@)
                    && self@[key@] == self.list()[i as int].1,
                None => !self@.dom().contains(key@) && !self.keys().contains(key@),
            },
    {
        let mut i: usize = 0;
        while i < self.core.names.len()
            invariant
                0 <= i <= self.core.names@.len(),
                self.core.names@.len() == self.list().len(),
                forall|j: int| 0 <= j < i ==> self.keys()[j] != key@,
            decreases self.core.names@.len() - i,
        {
            if same(self.core.names[i].as_str(), key) {
                proof {
                    use_type_invariant(self);
                    lemma_entry(self.list(), i as int);
                }
                return Some(i);
            }
            i += 1;
        }
        assert(!self.keys().contains(key@));
        None
    }

    /// The value of a key.
    pub fn get(&self, key: &str) -> (r: Option<&V>)
        ensures
            match r {
                Some(v) => self@.dom().contains(key@) && self@[key@] == *v,
                None => !self@.dom().contains(key@),
            },
    {
        match self.position(key) {
            Some(i) => {
                proof {
                    use_type_invariant(self);
                }
                Some(&self.core.values[i])
            },
            None => None,
        }
    }

    /// Whether the map holds a key.
    pub fn contains_key(&self, key: &str) -> (r: bool)
        ensures
            r == self@.dom().contains(key@),
    {
        self.position(key).is_some()
    }

    /// Sets the value of a key. A new key goes behind the others; a known key keeps
    /// its place.
    pub fn insert(&mut self, key: String, value: V)
        ensures
            final(self)@ == old(self)@.insert(key@, value),
            final(self).keys() == (if old(self)@.dom().contains(key@) {
                old(self).keys()
            } else {
                old(self).keys().push(key@)
            }),
    {
        proof {
            use_type_invariant(&*self);
        }
        let ghost before = self.list();
        let ghost k = key@;
        let at = self.position(key.as_str());
        let mut core: Core<V> = Core { names: Vec::new(), values: Vec::new() };
        assert(core.pairs() =~= Seq::<(String, V)>::empty());
        std::mem::swap(&mut core, &mut self.core);
        match at {
            Some(i) => {
                core.values.set(i, value);
                proof {
                    assert(entry_keys(core.pairs()) =~= entry_keys(before));
                    lemma_replace(before, core.pairs(), i as int, k, value);
                }
            },
            None => {
                core.names.push(key);
                core.values.push(value);
                proof {
                    assert(core.pairs().drop_last() =~= before);
                    assert(entry_keys(core.pairs()) =~= entry_keys(before).push(k));
                    lemma_append(before, core.pairs(), k, value);
                }
            },
        }
        self.core = core;
    }

    /// The value of a key, to be changed in place.
    pub fn get_mut(&mut self, key: &str) -> (r: Option<&mut V>)
        ensures
            match r {
                Some(v) => {
                    &&& old(self)@.dom().contains(key@)
                    &&& *v == old(self)@[key@]
                    &&& final(self)@ == old(self)@.insert(key@, *final(v))
                    &&& final(self).keys() == old(self).keys()
                },
                None => !old(self)@.dom().contains(key@) && *final(self) == *old(self),
            },
    {
        proof {
            use_type_invariant(&*self);
        }
        let ghost before = self.list();
        let ghost names = self.core.names@;
        let ghost values = self.core.values@;
        match self.position(key) {
            Some(i) => {
                proof {
                    assert forall|v: V|
                        {
                            let after = zip_entries(names, #[trigger] values.update(i as int, v));
                            &&& entry_map(after) == entry_map(before).insert(key@, v)
                            &&& entry_keys(after) == entry_keys(before)
                        } by {
                        let after = zip_entries(names, values.update(i as int, v));
                        assert(entry_keys(after) =~= entry_keys(before));
                        lemma_replace(before, after, i as int, key@, v);
                    }
                }
                Some(&mut self.core.values[i])
            },
            None => None,
        }
    }

    /// Removes a key, if the map holds it. The others keep their order.
    pub fn remove(&mut self, key: &str)
        ensures
            final(self)@ == old(self)@.remove(key@),
            old(self)@.dom().contains(key@) ==> final(self).keys() == old(self).keys().remove(
                old(self).keys().index_of(key@),
            ),
            !old(self)@.dom().contains(key@) ==> final(self).keys() == old(self).keys(),
    {
        proof {
            use_type_invariant(&*self);
        }
        let ghost before = self.list();
        let at = self.position(key);
        match at {
            Some(i) => {
                let mut core: Core<V> = Core { names: Vec::new(), values: Vec::new() };
                assert(core.pairs() =~= Seq::<(String, V)>::empty());
                std::mem::swap(&mut core, &mut self.core);
                core.names.remove(i);
                core.values.remove(i);
                proof {
                    assert(core.pairs() =~= before.remove(i as int));
                    lemma_removed(before, core.pairs(), i as int);
                }
                self.core = core;
            },
            None => {
                assert(self@.remove(key@) =~= self@);
            },
        }
    }
}

impl StringMap<String> {
    /// The map as a mathematical map between texts.
    pub open spec fn texts(&self) -> Map<Seq<char>, Seq<char>> {
        self@.map_values(|v: String| v@)
    }

    /// A copy with the same entries.
    pub fn duplicate(&self) -> (m: Self)
        ensures
            m@ == self@,
            m.keys() == self.keys(),
    {
        let m = self.clone();
        assert(m@ =~= self@);
        m
    }

    /// Sets every key of another map to its value there.
    pub fn overlay(&mut self, other: &StringMap<String>)
        ensures
            final(self).texts() == old(self).texts().union_prefer_right(other.texts()),
    {
        let mut i: usize = 0;
        let ghost before = self@;
        while i < other.len()
            invariant
                0 <= i <= other.list().len(),
                before == old(self)@,
                forall|k: Seq<char>| #[trigger]
                    self@.dom().contains(k) ==> before.dom().contains(k) || other@.dom().contains(k),
                forall|k: Seq<char>| #[trigger] before.dom().contains(k) ==> self@.dom().contains(k),
                forall|k: Seq<char>| #[trigger]
                    self@.dom().contains(k) ==> (self@[k]@ == other@[k]@ && other@.dom().contains(k)) || (
                    before.dom().contains(k) && self@[k] == before[k] && !other.keys().take(i as int).contains(k)),
                forall|j: int| 0 <= j < i ==> self@.dom().contains(#[trigger] other.keys()[j]),
            decreases other.list().len() - i,
        {
            let e = other.entry(i);
            self.insert(e.0.clone(), e.1.clone());
            assert(other.keys().take(i + 1) =~= other.keys().take(i as int).push(e.0@));
            proof {
                let now = other.keys().take(i as int);
                let next = other.keys().take(i + 1);
                assert forall|k: Seq<char>| #[trigger] next.contains(k) implies now.contains(k) || k == e.0@ by {
                    let j = next.index_of(k);
                    if j < i {
                        assert(now[j] == k);
                    }
                }
            }
            i += 1;
        }
        proof {
            let u = old(self).texts().union_prefer_right(other.texts());
            assert(other.keys().take(i as int) =~= other.keys());
            assert forall|k: Seq<char>| #[trigger] other@.dom().contains(k) implies self@.dom().contains(k) && other.keys().contains(k) by {
                let j = other.keys().index_of(k);
                assert(other.keys()[j] == k);
            }
            assert(self.texts() =~= u);
        }
    }
}

impl<V: Clone> Clone for StringMap<V> {
    fn clone(&self) -> (m: Self)
        ensures
            m.keys() == self.keys(),
            m@.dom() == self@.dom(),
            forall|k: Seq<char>| #[trigger] m@.dom().contains(k) ==> cloned(self@[k], m@[k]),
    {
        let mut m: StringMap<V> = StringMap::new();
        let mut i: usize = 0;
        proof {
            use_type_invariant(self);
            assert(self.keys().take(0) =~= seq![]);
        }
        while i < self.len()
            invariant
                0 <= i <= self.list().len(),
                self.keys().no_duplicates(),
                m.keys() == self.keys().take(i as int),
                forall|k: Seq<char>| #[trigger]
                    m@.dom().contains(k) ==> self@.dom().contains(k) && cloned(self@[k], m@[k]),
            decreases self.list().len() - i,
        {
            let e = self.entry(i);
            proof {
                if m@.dom().contains(e.0@) {
                    assert(m.keys().contains(e.0@));
                    let j = choose|j: int| 0 <= j < m.keys().len() && m.keys()[j] == e.0@;
                    assert(self.keys()[j] == self.keys()[i as int]);
                }
            }
            m.insert(e.0.clone(), e.1.clone());
            assert(self.keys().take(i + 1) =~= self.keys().take(i as int).push(e.0@));
            i += 1;
        }
        assert(self.keys().take(i as int) =~= self.keys());
        assert(m@.dom() =~= self@.dom());
        m
    }
}

proof fn lemma_entry<V>(entries: Seq<(String, V)>, i: int)
    requires
        entry_keys(entries).no_duplicates(),
        0 <= i < entries.len(),
    ensures
        entry_map(entries).dom().contains(entries[i].0@),
        entry_map(entries)[entries[i].0@] == entries[i].1,
        entry_keys(entries).index_of(entries[i].0@) == i,
{
    let keys = entry_keys(entries);
    assert(keys[i] == entries[i].0@);
    assert(keys.contains(keys[i]));
    let j = keys.index_of(keys[i]);
    assert(keys[j] == keys[i]);
}

proof fn lemma_replace<V>(before: Seq<(String, V)>, after: Seq<(String, V)>, i: int, key: Seq<char>, value: V)
    requires
        entry_keys(before).no_duplicates(),
        entry_keys(after) == entry_keys(before),
        0 <= i < before.len() == after.len(),
        entry_keys(before)[i] == key,
        after[i].1 == value,
        forall|j: int| 0 <= j < before.len() && j != i ==> after[j] == before[j],
    ensures
        entry_map(after) == entry_map(before).insert(key, value),
{
    let keys = entry_keys(before);
    assert forall|k: Seq<char>| #[trigger] keys.contains(k) implies entry_map(after)[k] == entry_map(before).insert(
        key,
        value,
    )[k] by {
        let j = keys.index_of(k);
        assert(keys[j] == k);
        if k == key {
            assert(j == i);
        }
    }
    assert(keys.contains(key));
    assert(entry_map(after) =~= entry_map(before).insert(key, value));
}

proof fn lemma_append<V>(before: Seq<(String, V)>, after: Seq<(String, V)>, key: Seq<char>, value: V)
    requires
        entry_keys(before).no_duplicates(),
        !entry_keys(before).contains(key),
        after.len() == before.len() + 1,
        after.drop_last() =~= before,
        after.last().0@ == key,
        after.last().1 == value,
    ensures
        entry_keys(after).no_duplicates(),
        entry_map(after) == entry_map(before).insert(key, value),
{
    let old_keys = entry_keys(before);
    let keys = entry_keys(after);
    assert(keys =~= old_keys.push(key));
    assert forall|k: Seq<char>| #[trigger] keys.contains(k) implies entry_map(after)[k] == entry_map(before).insert(
        key,
        value,
    )[k] && (k == key || old_keys.contains(k)) by {
        let j = keys.index_of(k);
        assert(keys[j] == k);
        lemma_entry(after, j);
        if j < before.len() {
            assert(old_keys[j] == k);
            lemma_entry(before, j);
            assert(after[j] == before[j]);
        }
    }
    assert forall|k: Seq<char>| k == key || #[trigger] old_keys.contains(k) implies keys.contains(k) by {
        if k == key {
            assert(keys[before.len() as int] == k);
        } else {
            let j = old_keys.index_of(k);
            assert(keys[j] == k);
        }
    }
    assert(keys[before.len() as int] == key);
    assert(entry_map(after) =~= entry_map(before).insert(key, value));
}

proof fn lemma_removed<V>(before: Seq<(String, V)>, after: Seq<(String, V)>, i: int)
    requires
        entry_keys(before).no_duplicates(),
        0 <= i < before.len(),
        after == before.remove(i),
    ensures
        entry_keys(after).no_duplicates(),
        entry_keys(after) == entry_keys(before).remove(entry_keys(before).index_of(before[i].0@)),
        entry_map(after) == entry_map(before).remove(before[i].0@),
{
    let old_keys = entry_keys(before);
    let keys = entry_keys(after);
    let key = before[i].0@;
    lemma_entry(before, i);
    assert(keys =~= old_keys.remove(i));
    assert forall|j: int| 0 <= j < keys.len() implies keys[j] == old_keys[if j < i { j } else { j + 1 }] by {}
    assert(keys.no_duplicates());
    assert forall|k: Seq<char>| #[trigger] keys.contains(k) implies old_keys.contains(k) && k != key && entry_map(
        after,
    )[k] == entry_map(before)[k] by {
        let j = keys.index_of(k);
        let m = if j < i { j } else { j + 1 };
        assert(keys[j] == k && old_keys[m] == k);
        lemma_entry(after, j);
        lemma_entry(before, m);
    }
    assert forall|k: Seq<char>| #[trigger] old_keys.contains(k) && k != key implies keys.contains(k) by {
        let m = old_keys.index_of(k);
        let j = if m < i { m } else { m - 1 };
        assert(old_keys[m] == k);
        assert(keys[j] == k);
    }
    assert(entry_map(after) =~= entry_map(before).remove(key));
}

} // verus!
