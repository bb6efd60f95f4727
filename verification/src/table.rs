//! Records under names, and the distance between two of them.

use crate::distance::Distance;
use crate::metric::{euclidean_along, is_walk, manhattan_along, minkowski_along};
use crate::numeric::Real;
use crate::record::Record;
use vstd::prelude::*;

verus! {

/// What the chosen distance between `a` and `b` is when accumulated along `w`.
pub open spec fn distance_along<V: Real>(
    a: Map<u64, V>,
    b: Map<u64, V>,
    method: Distance,
    w: Seq<u64>,
) -> Option<V> {
    match method {
        Distance::Manhattan => manhattan_along(a, b, w),
        Distance::Euclidean => euclidean_along(a, b, w),
        Distance::Minkowski(p) => minkowski_along(a, b, p, w),
    }
}

/// The key of the feature `name` among the canonical features `keys`: the
/// first position at which it stands. A function of the list and the name
/// alone, so tables made with the same list give a feature the same key.
pub open spec fn key_among(keys: Seq<Seq<char>>, name: Seq<char>) -> Option<u64> {
    match keys.index_of_first(name) {
        Some(i) => Some(i as u64),
        None => None,
    }
}

/// No name stands twice among `entries`.
spec fn distinct_names<V>(entries: Seq<(String, Record<V>)>) -> bool {
    forall|i: int, j: int| 0 <= i < j < entries.len() ==> entries[i].0@ != entries[j].0@
}

/// Records under names, with the ordered list of the canonical features
/// from which the keys of the records are derived.
#[derive(Debug)]
pub struct Table<V> {
    keys: Vec<String>,
    entries: Vec<(String, Record<V>)>,
}

impl<V: Clone> Clone for Table<V> {
    fn clone(&self) -> (t: Self)
        ensures
            t@ == self@,
            t.keys() == self.keys(),
    {
        proof {
            use_type_invariant(self);
        }
        let mut keys: Vec<String> = Vec::new();
        let mut i: usize = 0;
        while i < self.keys.len()
            invariant
                i <= self.keys.len(),
                keys@.len() == i,
                forall|j: int| 0 <= j < i ==> (#[trigger] keys@[j])@ == self.keys@[j]@,
            decreases self.keys.len() - i,
        {
            keys.push(self.keys[i].clone());
            i += 1;
        }
        let mut entries: Vec<(String, Record<V>)> = Vec::new();
        let mut k: usize = 0;
        while k < self.entries.len()
            invariant
                k <= self.entries.len(),
                entries@.len() == k,
                forall|j: int|
                    0 <= j < k ==> (#[trigger] entries@[j]).0@ == self.entries@[j].0@
                        && entries@[j].1@ == self.entries@[j].1@,
            decreases self.entries.len() - k,
        {
            entries.push((self.entries[k].0.clone(), self.entries[k].1.clone()));
            k += 1;
        }
        let t = Table { keys, entries };
        proof {
            assert forall|n: Seq<char>| t.holds(n) <==> self.holds(n) by {
                if t.holds(n) {
                    let j = t.position(n);
                    assert(self.entries@[j].0@ == n);
                }
                if self.holds(n) {
                    let j = self.position(n);
                    assert(t.entries@[j].0@ == n);
                }
            }
            assert forall|n: Seq<char>| self.holds(n) implies #[trigger] t@[n] == self@[n] by {
                let j = self.position(n);
                assert(t.entries@[j].0@ == n);
                t.lemma_position(j);
            }
            assert(t@ =~= self@);
            assert(t.keys() =~= self.keys());
        }
        t
    }
}

impl<V> View for Table<V> {
    type V = Map<Seq<char>, Map<u64, V>>;

    /// The record held under each name.
    closed spec fn view(&self) -> Map<Seq<char>, Map<u64, V>> {
        Map::new(
            |name: Seq<char>| self.holds(name),
            |name: Seq<char>| self.entries@[self.position(name)].1@,
        )
    }
}

impl<V> Default for Table<V> {
    fn default() -> (t: Self)
        ensures
            t@ == Map::<Seq<char>, Map<u64, V>>::empty(),
            t.keys() == Seq::<Seq<char>>::empty(),
    {
        Table::new()
    }
}

impl<V> Table<V> {
    /// No name stands twice.
    #[verifier::type_invariant]
    spec fn names_differ(self) -> bool {
        distinct_names(self.entries@)
    }

    spec fn holds(self, name: Seq<char>) -> bool {
        exists|i: int| 0 <= i < self.entries@.len() && self.entries@[i].0@ == name
    }

    spec fn position(self, name: Seq<char>) -> int {
        choose|i: int| 0 <= i < self.entries@.len() && self.entries@[i].0@ == name
    }

    /// The canonical feature names, in the order in which the table was given them.
    pub closed spec fn keys(&self) -> Seq<Seq<char>> {
        Seq::new(self.keys@.len(), |i: int| self.keys@[i]@)
    }

    /// A table without canonical features and without records.
    pub fn new() -> (t: Self)
        ensures
            t@ == Map::<Seq<char>, Map<u64, V>>::empty(),
            t.keys() == Seq::<Seq<char>>::empty(),
    {
        let t = Table { keys: Vec::new(), entries: Vec::new() };
        assert(t@ =~= Map::<Seq<char>, Map<u64, V>>::empty());
        assert(t.keys() =~= Seq::<Seq<char>>::empty());
        t
    }

    /// An empty table whose canonical features are `keys`, in that order.
    pub fn with_keys(keys: &[String]) -> (t: Self)
        ensures
            t@ == Map::<Seq<char>, Map<u64, V>>::empty(),
            t.keys() == Seq::new(keys@.len(), |i: int| keys@[i]@),
    {
        let mut names: Vec<String> = Vec::new();
        let mut i: usize = 0;
        while i < keys.len()
            invariant
                i <= keys.len(),
                names@.len() == i,
                forall|j: int| 0 <= j < i ==> (#[trigger] names@[j])@ == keys@[j]@,
            decreases keys.len() - i,
        {
            names.push(keys[i].clone());
            i += 1;
        }
        let t = Table { keys: names, entries: Vec::new() };
        assert(t@ =~= Map::<Seq<char>, Map<u64, V>>::empty());
        assert(t.keys() =~= Seq::new(keys@.len(), |i: int| keys@[i]@));
        t
    }

    /// The key under which records of this table hold the feature `name`;
    /// `None` where `name` is not a canonical feature of the table.
    pub fn key_of(&self, name: &str) -> (key: Option<u64>)
        ensures
            key == key_among(self.keys(), name@),
    {
        let wanted = name.to_owned();
        proof {
            self.keys().index_of_first_ensures(name@);
        }
        let mut i: usize = 0;
        while i < self.keys.len()
            invariant
                i <= self.keys.len(),
                wanted@ == name@,
                forall|j: int| 0 <= j < i ==> self.keys()[j] != name@,
            decreases self.keys.len() - i,
        {
            if self.keys[i] == wanted {
                proof {
                    assert(self.keys()[i as int] == name@);
                    self.keys().index_of_first_ensures(name@);
                }
                return Some(i as u64);
            }
            i += 1;
        }
        None
    }

    /// Where the record under `name` stands, if there is one.
    fn find(&self, name: &String) -> (at: Option<usize>)
        ensures
            match at {
                Some(i) => i < self.entries@.len() && self.entries@[i as int].0@ == name@,
                None => !self.holds(name@),
            },
    {
        let mut i: usize = 0;
        while i < self.entries.len()
            invariant
                i <= self.entries.len(),
                forall|j: int| 0 <= j < i ==> self.entries@[j].0@ != name@,
            decreases self.entries.len() - i,
        {
            if self.entries[i].0 == *name {
                return Some(i);
            }
            i += 1;
        }
        None
    }

    /// The record held under `name`, if there is one.
    pub fn get(&self, name: &str) -> (r: Option<&Record<V>>)
        ensures
            match r {
                Some(record) => self@.contains_key(name@) && record@ == self@[name@],
                None => !self@.contains_key(name@),
            },
    {
        let wanted = name.to_owned();
        proof {
            use_type_invariant(self);
        }
        match self.find(&wanted) {
            Some(i) => {
                proof {
                    self.lemma_position(i as int);
                }
                Some(&self.entries[i].1)
            },
            None => None,
        }
    }

    /// Whether a record is held under `name`.
    pub fn contains(&self, name: &str) -> (r: bool)
        ensures
            r == self@.contains_key(name@),
    {
        self.get(name).is_some()
    }

    /// Since no name stands twice, a name is looked up where it stands.
    proof fn lemma_position(self, i: int)
        requires
            self.names_differ(),
            0 <= i < self.entries@.len(),
        ensures
            self.holds(self.entries@[i].0@),
            self.position(self.entries@[i].0@) == i,
    {
        let at = self.position(self.entries@[i].0@);
        if at < i {
            assert(self.entries@[at].0@ != self.entries@[i].0@);
        }
        if i < at {
            assert(self.entries@[i].0@ != self.entries@[at].0@);
        }
    }

    /// Holds `record` under `key`, in place of any record held under it before.
    pub fn insert(&mut self, key: &str, record: Record<V>)
        ensures
            final(self)@ == old(self)@.insert(key@, record@),
            final(self).keys() == old(self).keys(),
    {
        let name = key.to_owned();
        proof {
            use_type_invariant(&*self);
        }
        let ghost before = *self;
        let ghost added = record@;
        let found = self.find(&name);
        let mut entries: Vec<(String, Record<V>)> = Vec::new();
        std::mem::swap(&mut self.entries, &mut entries);
        match found {
            Some(i) => {
                entries.set(i, (name, record));
            },
            None => {
                entries.push((name, record));
            },
        }
        std::mem::swap(&mut self.entries, &mut entries);
        proof {
            let after = *self;
            let at = match found {
                Some(i) => i as int,
                None => before.entries@.len() as int,
            };
            assert(after.entries@[at].0@ == key@);
            after.lemma_position(at);
            assert forall|n: Seq<char>| n != key@ implies (after.holds(n) <==> before.holds(n)) && (
            before.holds(n) ==> after.position(n) == before.position(n)) by {
                if after.holds(n) {
                    let j = after.position(n);
                    assert(before.entries@[j].0@ == n);
                }
                if before.holds(n) {
                    let j = before.position(n);
                    assert(after.entries@[j].0@ == n);
                    after.lemma_position(j);
                }
            }
            assert(after@ =~= before@.insert(key@, added));
            assert(after.keys() =~= before.keys());
        }
    }
}

impl<V: Real> Table<V> {
    /// The chosen distance between the records held under `a` and under `b`.
    pub fn distance_between(&self, a: &str, b: &str, method: Distance) -> (r: Option<V>)
        requires
            self@.contains_key(a@),
            self@.contains_key(b@),
        ensures
            self@[a@].dom().disjoint(self@[b@].dom()) ==> r is None,
            V::obeys_real_spec() ==> exists|w: Seq<u64>| #[trigger]
                is_walk(w, self@[a@], self@[b@]) && r == distance_along(
                    self@[a@],
                    self@[b@],
                    method,
                    w,
                ),
    {
        let left = self.get(a).unwrap();
        let right = self.get(b).unwrap();
        match method {
            Distance::Manhattan => left.manhattan_distance(right),
            Distance::Euclidean => left.euclidean_distance(right),
            Distance::Minkowski(p) => left.minkowski_distance(right, p),
        }
    }
}

} // verus!
