//! A mapping from names to values that keeps the order in which the names
//! came in.

use vstd::prelude::*;

verus! {

/// A mapping from names to values. No name occurs twice; a name that is
/// set again keeps its place.
#[derive(Debug)]
pub struct NamedMap<V> {
    entries: Vec<(String, V)>,
}

/// No two entries share a name.
pub open spec fn names_distinct<V>(entries: Seq<(String, V)>) -> bool {
    forall|i: int, j: int|
        0 <= i < j < entries.len() ==> (#[trigger] entries[i]).0@ != (#[trigger] entries[j]).0@
}

/// The mapping that a sequence of entries with distinct names denotes.
pub open spec fn mapping_of<V>(entries: Seq<(String, V)>) -> Map<Seq<char>, V> {
    Map::new(
        |name: Seq<char>| exists|i: int| 0 <= i < entries.len() && (#[trigger] entries[i]).0@ == name,
        |name: Seq<char>|
            entries[choose|i: int| 0 <= i < entries.len() && (#[trigger] entries[i]).0@ == name].1,
    )
}

/// An entry of a sequence with distinct names is what the mapping holds
/// for its name.
pub proof fn lemma_mapping_entry<V>(entries: Seq<(String, V)>, i: int)
    requires
        names_distinct(entries),
        0 <= i < entries.len(),
    ensures
        mapping_of(entries).contains_key(entries[i].0@),
        mapping_of(entries)[entries[i].0@] == entries[i].1,
{
    let name = entries[i].0@;
    let k = choose|k: int| 0 <= k < entries.len() && (#[trigger] entries[k]).0@ == name;
    if k < i {
        assert(entries[k].0@ != entries[i].0@);
    } else if i < k {
        assert(entries[i].0@ != entries[k].0@);
    }
}

impl<V> NamedMap<V> {
    #[verifier::type_invariant]
    spec fn distinct(self) -> bool {
        names_distinct(self.entries@)
    }

    /// The entries, in the order in which their names first came in.
    pub closed spec fn entries(self) -> Seq<(String, V)> {
        self.entries@
    }

    /// An empty mapping.
    pub fn new() -> (m: Self)
        ensures
            m.entries() == Seq::<(String, V)>::empty(),
            m@ == Map::<Seq<char>, V>::empty(),
    {
        let m = NamedMap { entries: Vec::new() };
        assert(m@ =~= Map::<Seq<char>, V>::empty());
        m
    }

    /// The number of names.
    pub fn len(&self) -> (n: usize)
        ensures
            n == self.entries().len(),
            n == self@.dom().len(),
            names_distinct(self.entries()),
    {
        proof {
            use_type_invariant(self);
            lemma_mapping_size(self.entries@);
        }
        self.entries.len()
    }

    /// The position of the entry named `name`, if there is one.
    fn position(&self, name: &String) -> (r: Option<usize>)
        ensures
            match r {
                Some(i) => i < self.entries().len() && self.entries()[i as int].0@ == name@,
                None => forall|i: int|
                    0 <= i < self.entries().len() ==> (#[trigger] self.entries()[i]).0@ != name@,
            },
    {
        let mut i: usize = 0;
        while i < self.entries.len()
            invariant
                i <= self.entries@.len(),
                forall|j: int| 0 <= j < i ==> (#[trigger] self.entries@[j]).0@ != name@,
            decreases self.entries.len() - i,
        {
            if self.entries[i].0 == *name {
                return Some(i);
            }
            i += 1;
        }
        None
    }

    /// Sets the value of `name`, overwriting the one it had.
    pub fn insert(&mut self, name: &str, value: V)
        ensures
            final(self)@ == old(self)@.insert(name@, value),
            old(self)@.contains_key(name@) ==> final(self).entries().len() == old(self).entries().len(),
            !old(self)@.contains_key(name@) ==> final(self).entries().len() == old(
                self,
            ).entries().len() + 1 && final(self).entries().drop_last() == old(self).entries()
                && final(self).entries().last().0@ == name@ && final(self).entries().last().1
                == value,
            forall|i: int|
                0 <= i < old(self).entries().len() ==> (#[trigger] final(self).entries()[i]).0@
                    == old(self).entries()[i].0@ && final(self).entries()[i].1 == if old(
                    self,
                ).entries()[i].0@ == name@ {
                    value
                } else {
                    old(self).entries()[i].1
                },
            names_distinct(final(self).entries()),
    {
        proof {
            use_type_invariant(&*self);
        }
        let ghost before = self.entries@;
        let key = name.to_owned();
        let found = self.position(&key);
        let mut entries: Vec<(String, V)> = Vec::new();
        std::mem::swap(&mut self.entries, &mut entries);
        match found {
            Some(i) => {
                entries.remove(i);
                entries.insert(i, (key, value));
                proof {
                    let after = entries@;
                    assert(after.len() == before.len());
                    assert forall|j: int| 0 <= j < after.len() implies (#[trigger] after[j]).0@
                        == before[j].0@ by {}
                    assert(names_distinct(after));
                    lemma_mapping_entry(before, i as int);
                    assert forall|n: Seq<char>| #[trigger]
                        mapping_of(after).contains_key(n) == mapping_of(before).insert(
                            name@,
                            value,
                        ).contains_key(n) by {
                        if mapping_of(after).contains_key(n) {
                            let k = choose|k: int| 0 <= k < after.len() && (#[trigger] after[k]).0@ == n;
                            assert(before[k].0@ == n);
                        }
                        if mapping_of(before).contains_key(n) {
                            let k = choose|k: int|
                                0 <= k < before.len() && (#[trigger] before[k]).0@ == n;
                            assert(after[k].0@ == n);
                        }
                        if n == name@ {
                            assert(after[i as int].0@ == n);
                        }
                    }
                    assert forall|n: Seq<char>| #[trigger]
                        mapping_of(after).contains_key(n) implies mapping_of(after)[n]
                        == mapping_of(before).insert(name@, value)[n] by {
                        let k = choose|k: int| 0 <= k < after.len() && (#[trigger] after[k]).0@ == n;
                        lemma_mapping_entry(after, k);
                        if k != i {
                            lemma_mapping_entry(before, k);
                        }
                    }
                    assert(mapping_of(after) =~= mapping_of(before).insert(name@, value));
                }
            },
            None => {
                entries.push((key, value));
                proof {
                    let after = entries@;
                    assert(after.drop_last() =~= before);
                    assert forall|a: int, b: int| 0 <= a < b < after.len() implies (
                    #[trigger] after[a]).0@ != (#[trigger] after[b]).0@ by {
                        if b < before.len() {
                            assert(before[a].0@ != before[b].0@);
                        } else {
                            assert(before[a].0@ != name@);
                        }
                    }
                    assert forall|n: Seq<char>| #[trigger]
                        mapping_of(after).contains_key(n) == mapping_of(before).insert(
                            name@,
                            value,
                        ).contains_key(n) by {
                        if mapping_of(after).contains_key(n) {
                            let k = choose|k: int| 0 <= k < after.len() && (#[trigger] after[k]).0@ == n;
                            if k < before.len() {
                                assert(before[k].0@ == n);
                            }
                        }
                        if mapping_of(before).contains_key(n) {
                            let k = choose|k: int|
                                0 <= k < before.len() && (#[trigger] before[k]).0@ == n;
                            assert(after[k].0@ == n);
                        }
                        if n == name@ {
                            assert(after[before.len() as int].0@ == n);
                        }
                    }
                    assert forall|n: Seq<char>| #[trigger]
                        mapping_of(after).contains_key(n) implies mapping_of(after)[n]
                        == mapping_of(before).insert(name@, value)[n] by {
                        let k = choose|k: int| 0 <= k < after.len() && (#[trigger] after[k]).0@ == n;
                        lemma_mapping_entry(after, k);
                        if k < before.len() {
                            lemma_mapping_entry(before, k);
                        }
                    }
                    assert(mapping_of(after) =~= mapping_of(before).insert(name@, value));
                    assert(!mapping_of(before).contains_key(name@));
                }
            },
        }
        std::mem::swap(&mut self.entries, &mut entries);
    }

    /// The value of `name`, if it has one.
    pub fn get(&self, name: &str) -> (r: Option<&V>)
        ensures
            match r {
                Some(v) => self@.contains_key(name@) && self@[name@] == *v,
                None => !self@.contains_key(name@),
            },
    {
        proof {
            use_type_invariant(self);
        }
        let key = name.to_owned();
        match self.position(&key) {
            Some(i) => {
                proof {
                    lemma_mapping_entry(self.entries@, i as int);
                    assert(self@.contains_key(name@));
                }
                let value = &self.entries[i].1;
                assert(*value == self@[name@]);
                Some(value)
            },
            None => {
                proof {
                    if self@.contains_key(name@) {
                        let k = choose|k: int|
                            0 <= k < self.entries@.len() && (#[trigger] self.entries@[k]).0@ == name@;
                        assert(self.entries()[k].0@ != key@);
                    }
                }
                None
            },
        }
    }

    /// The name and the value at a position, in the order in which the names
    /// first came in.
    pub fn entry(&self, i: usize) -> (r: (&String, &V))
        requires
            i < self.entries().len(),
        ensures
            *r.0 == self.entries()[i as int].0,
            *r.1 == self.entries()[i as int].1,
            self@.contains_key(r.0@),
            self@[r.0@] == *r.1,
    {
        proof {
            use_type_invariant(self);
            lemma_mapping_entry(self.entries@, i as int);
        }
        (&self.entries[i].0, &self.entries[i].1)
    }
}

impl<V: Clone> Clone for NamedMap<V> {
    /// A mapping of the same names, in the same order, each with a clone
    /// of its value.
    fn clone(&self) -> (copy: Self)
        ensures
            copy.entries().len() == self.entries().len(),
            forall|i: int|
                0 <= i < self.entries().len() ==> (#[trigger] copy.entries()[i]).0@
                    == self.entries()[i].0@ && cloned(self.entries()[i].1, copy.entries()[i].1),
    {
        proof {
            use_type_invariant(self);
        }
        let mut copy: NamedMap<V> = NamedMap::new();
        let mut i: usize = 0;
        while i < self.entries.len()
            invariant
                i <= self.entries@.len(),
                names_distinct(self.entries@),
                copy.entries().len() == i,
                forall|j: int|
                    0 <= j < i ==> (#[trigger] copy.entries()[j]).0@ == self.entries@[j].0@ && cloned(
                        self.entries@[j].1,
                        copy.entries()[j].1,
                    ),
            decreases self.entries.len() - i,
        {
            let ghost before = copy;
            proof {
                if copy@.contains_key(self.entries@[i as int].0@) {
                    let k = choose|k: int|
                        0 <= k < copy.entries().len() && (#[trigger] copy.entries()[k]).0@
                            == self.entries@[i as int].0@;
                    assert(self.entries@[k].0@ != self.entries@[i as int].0@);
                }
            }
            copy.insert(self.entries[i].0.as_str(), self.entries[i].1.clone());
            proof {
                assert(copy.entries().drop_last() == before.entries());
                assert forall|j: int| 0 <= j < i + 1 implies (#[trigger] copy.entries()[j]).0@
                    == self.entries@[j].0@ && cloned(self.entries@[j].1, copy.entries()[j].1) by {
                    if j < i {
                        assert(copy.entries()[j] == copy.entries().drop_last()[j]);
                    }
                }
            }
            i += 1;
        }
        copy
    }
}

impl<V> View for NamedMap<V> {
    type V = Map<Seq<char>, V>;

    closed spec fn view(&self) -> Map<Seq<char>, V> {
        mapping_of(self.entries@)
    }
}

/// A sequence of entries with distinct names denotes a mapping of as many
/// names.
pub proof fn lemma_mapping_size<V>(entries: Seq<(String, V)>)
    requires
        names_distinct(entries),
    ensures
        mapping_of(entries).dom().finite(),
        mapping_of(entries).dom().len() == entries.len(),
    decreases entries.len(),
{
    if entries.len() == 0 {
        assert(mapping_of(entries).dom() =~= Set::<Seq<char>>::empty());
    } else {
        let front = entries.drop_last();
        let last = entries.last();
        lemma_mapping_size(front);
        assert forall|n: Seq<char>| #[trigger]
            mapping_of(entries).dom().contains(n) == mapping_of(front).dom().insert(
                last.0@,
            ).contains(n) by {
            if mapping_of(entries).dom().contains(n) {
                let k = choose|k: int| 0 <= k < entries.len() && (#[trigger] entries[k]).0@ == n;
                if k < front.len() {
                    assert(front[k].0@ == n);
                }
            }
            if mapping_of(front).dom().contains(n) {
                let k = choose|k: int| 0 <= k < front.len() && (#[trigger] front[k]).0@ == n;
                assert(entries[k].0@ == n);
            }
            if n == last.0@ {
                assert(entries[entries.len() - 1].0@ == n);
            }
        }
        assert(mapping_of(entries).dom() =~= mapping_of(front).dom().insert(last.0@));
        if mapping_of(front).dom().contains(last.0@) {
            let k = choose|k: int| 0 <= k < front.len() && (#[trigger] front[k]).0@ == last.0@;
            assert(entries[k].0@ != entries[entries.len() - 1].0@);
        }
    }
}

} // verus!
