//! A table from names to values in which no name occurs twice.

use crate::order::same_name;
use vstd::prelude::*;

verus! {

/// The names of the entries, in their order.
spec fn names_in<V>(entries: Seq<(String, V)>) -> Seq<Seq<char>> {
    Seq::new(entries.len(), |i: int| entries[i].0@)
}

/// The entries as a map: each name with the value beside it.
spec fn map_of<V>(entries: Seq<(String, V)>) -> Map<Seq<char>, V> {
    Map::new(
        |name: Seq<char>| names_in(entries).contains(name),
        |name: Seq<char>| entries[names_in(entries).index_of(name)].1,
    )
}

/// Where no name occurs twice, the map gives each name the value of its entry.
proof fn lemma_map_of_at<V>(entries: Seq<(String, V)>, i: int)
    requires
        names_in(entries).no_duplicates(),
        0 <= i < entries.len(),
    ensures
        map_of(entries).contains_key(entries[i].0@),
        map_of(entries)[entries[i].0@] == entries[i].1,
{
    let names = names_in(entries);
    assert(names[i] == entries[i].0@);
    let j = names.index_of(entries[i].0@);
    assert(names[j] == names[i]);
}

/// An entry with a new name, put last, adds that name to the names and to the
/// map.
proof fn lemma_map_of_push<V>(entries: Seq<(String, V)>, name: String, value: V)
    requires
        names_in(entries).no_duplicates(),
        !names_in(entries).contains(name@),
    ensures
        names_in(entries.push((name, value))) == names_in(entries).push(name@),
        names_in(entries.push((name, value))).no_duplicates(),
        map_of(entries.push((name, value))) == map_of(entries).insert(name@, value),
{
    let after = entries.push((name, value));
    assert(names_in(after) =~= names_in(entries).push(name@));
    assert forall|i: int, j: int|
        0 <= i < j < names_in(after).len() implies names_in(after)[i] != names_in(after)[j] by {
        if j == entries.len() {
            assert(names_in(entries)[i] == names_in(after)[i]);
        } else {
            assert(names_in(entries)[i] != names_in(entries)[j]);
        }
    }
    assert forall|k: Seq<char>|
        map_of(after).contains_key(k) <==> map_of(entries).insert(name@, value).contains_key(
            k,
        ) by {
        if names_in(entries).contains(k) {
            let i = names_in(entries).index_of(k);
            assert(names_in(after)[i] == k);
        }
        if names_in(after).contains(k) && k != name@ {
            let i = names_in(after).index_of(k);
            assert(names_in(entries)[i] == k);
        }
        assert(names_in(after)[entries.len() as int] == name@);
    }
    assert forall|k: Seq<char>| map_of(after).contains_key(k) implies map_of(after)[k] == map_of(
        entries,
    ).insert(name@, value)[k] by {
        let i = names_in(after).index_of(k);
        lemma_map_of_at(after, i);
        if k != name@ {
            assert(names_in(entries)[i] == k);
            lemma_map_of_at(entries, i);
        } else {
            if i != entries.len() {
                assert(names_in(entries)[i] == k);
            }
        }
    }
    assert(map_of(after) =~= map_of(entries).insert(name@, value));
}

/// A new entry in the place of one with the same name leaves the names as
/// they are and gives the name its new value.
proof fn lemma_map_of_update<V>(entries: Seq<(String, V)>, i: int, name: String, value: V)
    requires
        names_in(entries).no_duplicates(),
        0 <= i < entries.len(),
        entries[i].0@ == name@,
    ensures
        names_in(entries.update(i, (name, value))) == names_in(entries),
        map_of(entries.update(i, (name, value))) == map_of(entries).insert(name@, value),
{
    let after = entries.update(i, (name, value));
    assert(names_in(after) =~= names_in(entries));
    assert(names_in(entries)[i] == name@);
    assert forall|k: Seq<char>| map_of(after).contains_key(k) implies map_of(after)[k] == map_of(
        entries,
    ).insert(name@, value)[k] by {
        let j = names_in(after).index_of(k);
        lemma_map_of_at(after, j);
        if k != name@ {
            lemma_map_of_at(entries, j);
        } else {
            assert(names_in(entries)[j] == names_in(entries)[i]);
        }
    }
    assert(map_of(after) =~= map_of(entries).insert(name@, value));
}

/// A table from names to values. A name is held once: storing under a name
/// that is present replaces its value and leaves its place unchanged.
pub struct Table<V> {
    entries: Vec<(String, V)>,
}

impl<V> View for Table<V> {
    type V = Map<Seq<char>, V>;

    closed spec fn view(&self) -> Map<Seq<char>, V> {
        map_of(self.entries@)
    }
}

impl<V> Table<V> {
    /// What holds of every table: no name occurs twice.
    #[verifier::type_invariant]
    pub closed spec fn wf(self) -> bool {
        names_in(self.entries@).no_duplicates()
    }

    /// The names of the table, in the order in which they were first stored.
    pub closed spec fn names_spec(self) -> Seq<Seq<char>> {
        names_in(self.entries@)
    }

    /// The table without entries.
    pub fn new() -> (r: Self)
        ensures
            r@ == Map::<Seq<char>, V>::empty(),
            r.names_spec() == Seq::<Seq<char>>::empty(),
    {
        let r = Table { entries: Vec::new() };
        assert(r@ =~= Map::<Seq<char>, V>::empty());
        assert(r.names_spec() =~= Seq::<Seq<char>>::empty());
        r
    }

    /// The number of names.
    pub fn len(&self) -> (n: usize)
        ensures
            n == self.names_spec().len(),
    {
        self.entries.len()
    }

    /// Stores `value` under `name`. A value that was stored under `name` is
    /// replaced; a new name comes after the names that are present.
    pub fn insert(&mut self, name: String, value: V)
        ensures
            final(self)@ == old(self)@.insert(name@, value),
            final(self).names_spec() == if old(self)@.contains_key(name@) {
                old(self).names_spec()
            } else {
                old(self).names_spec().push(name@)
            },
    {
        proof {
            use_type_invariant(&*self);
        }
        let mut entries: Vec<(String, V)> = Vec::new();
        std::mem::swap(&mut self.entries, &mut entries);
        let mut i: usize = 0;
        while i < entries.len()
            invariant
                i <= entries@.len(),
                entries@ == old(self).entries@,
                names_in(entries@).no_duplicates(),
                forall|k: int| 0 <= k < i ==> entries@[k].0@ != name@,
            decreases entries@.len() - i,
        {
            if same_name(entries[i].0.as_str(), name.as_str()) {
                proof {
                    lemma_map_of_at(entries@, i as int);
                    lemma_map_of_update(entries@, i as int, name, value);
                }
                entries.set(i, (name, value));
                self.entries = entries;
                return;
            }
            i += 1;
        }
        proof {
            lemma_map_of_push(entries@, name, value);
        }
        entries.push((name, value));
        self.entries = entries;
    }

    /// The names of the table, in the order in which they were first stored.
    pub fn names(&self) -> (r: Vec<String>)
        ensures
            r.deep_view() == self.names_spec(),
            r.deep_view().no_duplicates(),
            r.deep_view().to_set() == self@.dom(),
    {
        proof {
            use_type_invariant(self);
            self.lemma_names();
        }
        let mut r: Vec<String> = Vec::new();
        let mut i: usize = 0;
        while i < self.entries.len()
            invariant
                i <= self.entries@.len(),
                r@.len() == i,
                forall|k: int| 0 <= k < i ==> r@[k]@ == self.entries@[k].0@,
            decreases self.entries@.len() - i,
        {
            r.push(self.entries[i].0.clone());
            i += 1;
        }
        assert(r.deep_view() =~= self.names_spec());
        r
    }

    /// The names of a table are pairwise different, and they are the names
    /// under which it holds a value.
    pub proof fn lemma_names(self)
        requires
            self.wf(),
        ensures
            self.names_spec().no_duplicates(),
            self.names_spec().to_set() == self@.dom(),
    {
        assert(self.names_spec().to_set() =~= self@.dom());
    }

    /// The value stored under `name`, if there is one.
    pub fn get(&self, name: &str) -> (r: Option<&V>)
        ensures
            match r {
                Some(v) => self@.contains_key(name@) && *v == self@[name@],
                None => !self@.contains_key(name@),
            },
    {
        proof {
            use_type_invariant(self);
        }
        let mut i: usize = 0;
        while i < self.entries.len()
            invariant
                i <= self.entries@.len(),
                names_in(self.entries@).no_duplicates(),
                forall|k: int| 0 <= k < i ==> self.entries@[k].0@ != name@,
            decreases self.entries@.len() - i,
        {
            if same_name(self.entries[i].0.as_str(), name) {
                proof {
                    lemma_map_of_at(self.entries@, i as int);
                }
                return Some(&self.entries[i].1);
            }
            i += 1;
        }
        None
    }
}

} // verus!
