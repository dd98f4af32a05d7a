//! A finite map keyed by identifiers, kept as a list of entries with unique keys.

use vstd::prelude::*;
use crate::types::ID;

verus! {

/// Map from identifiers to values; each key appears in at most one entry.
#[derive(Debug, Clone)]
pub struct IdMap<V> {
    entries: Vec<(ID, V)>,
}

impl<V> IdMap<V> {
    /// The entries in storage order.
    pub closed spec fn pairs(&self) -> Seq<(ID, V)> {
        self.entries@
    }

    /// The keys in storage order.
    pub open spec fn keys(&self) -> Seq<ID> {
        self.pairs().map_values(|e: (ID, V)| e.0)
    }

    /// Keys are unique.
    pub open spec fn wf(&self) -> bool {
        self.keys().no_duplicates()
    }

    /// Position of a key among the entries.
    pub open spec fn index_of(&self, k: ID) -> int {
        choose|i: int| 0 <= i < self.pairs().len() && self.pairs()[i].0 == k
    }

    pub open spec fn view(&self) -> Map<ID, V> {
        Map::new(
            |k: ID| exists|i: int| 0 <= i < self.pairs().len() && self.pairs()[i].0 == k,
            |k: ID| self.pairs()[self.index_of(k)].1,
        )
    }

    /// The value stored for a key present at position `i`.
    pub proof fn lemma_at(&self, i: int)
        requires
            self.wf(),
            0 <= i < self.pairs().len(),
        ensures
            self@.contains_key(self.pairs()[i].0),
            self@[self.pairs()[i].0] == self.pairs()[i].1,
            self.index_of(self.pairs()[i].0) == i,
    {
        let k = self.pairs()[i].0;
        assert(self.keys()[i] == k);
        let j = self.index_of(k);
        assert(self.keys()[j] == k);
    }

    /// The domain is the set of keys, as many as the entries.
    pub proof fn lemma_len(&self)
        requires
            self.wf(),
        ensures
            self@.dom() == self.keys().to_set(),
            self@.len() == self.pairs().len(),
    {
        assert forall|k: ID| self@.contains_key(k) <==> self.keys().to_set().contains(k) by {
            if self@.contains_key(k) {
                let i = choose|i: int| 0 <= i < self.pairs().len() && self.pairs()[i].0 == k;
                assert(self.keys()[i] == k);
            }
            if self.keys().to_set().contains(k) {
                let i = choose|i: int| 0 <= i < self.keys().len() && self.keys()[i] == k;
                assert(self.pairs()[i].0 == k);
            }
        }
        assert(self@.dom() =~= self.keys().to_set());
        self.keys().unique_seq_to_set();
    }

    /// Replacing the value at position `i` updates the map at that key.
    pub proof fn lemma_set_value(a: &IdMap<V>, b: &IdMap<V>, i: int, v: V)
        requires
            a.wf(),
            0 <= i < a.pairs().len(),
            b.pairs() == a.pairs().update(i, (a.pairs()[i].0, v)),
        ensures
            b.wf(),
            b@ == a@.insert(a.pairs()[i].0, v),
    {
        let id = a.pairs()[i].0;
        assert(b.keys() =~= a.keys());
        assert forall|k: ID| #![auto] b@.contains_key(k) == a@.insert(id, v).contains_key(k) by {
            if a@.contains_key(k) {
                let j = choose|j: int| 0 <= j < a.pairs().len() && a.pairs()[j].0 == k;
                assert(b.pairs()[j].0 == k);
            }
            if b@.contains_key(k) {
                let j = choose|j: int| 0 <= j < b.pairs().len() && b.pairs()[j].0 == k;
                assert(a.pairs()[j].0 == k);
            }
            if k == id {
                assert(b.pairs()[i].0 == k);
            }
        }
        assert forall|k: ID| #![auto] b@.contains_key(k) implies b@[k] == a@.insert(id, v)[k] by {
            let j = choose|j: int| 0 <= j < b.pairs().len() && b.pairs()[j].0 == k;
            b.lemma_at(j);
            if k != id {
                a.lemma_at(j);
            } else {
                assert(b.keys()[j] == id);
                assert(b.keys()[i] == id);
            }
        }
        assert(b@ =~= a@.insert(id, v));
    }

    /// Mutable access to the value at position `i`.
    pub fn value_mut(&mut self, i: usize) -> (r: &mut V)
        requires
            i < old(self).pairs().len(),
        ensures
            *r == old(self).pairs()[i as int].1,
            final(self).pairs() == old(self).pairs().update(
                i as int,
                (old(self).pairs()[i as int].0, *final(r)),
            ),
    {
        &mut self.entries[i].1
    }

    /// The map is finite.
    pub proof fn lemma_finite(&self)
        requires
            self.wf(),
        ensures
            self@.dom().finite(),
    {
        self.lemma_len();
    }

    pub fn new() -> (r: IdMap<V>)
        ensures
            r.wf(),
            r@ == Map::<ID, V>::empty(),
            r.pairs().len() == 0,
    {
        let r = IdMap { entries: Vec::new() };
        assert(r.keys() =~= Seq::<ID>::empty());
        assert(r@ =~= Map::<ID, V>::empty());
        r
    }

    /// Number of keys.
    pub fn len(&self) -> (r: usize)
        requires
            self.wf(),
        ensures
            r == self@.len(),
            r == self.pairs().len(),
    {
        proof {
            self.lemma_len();
        }
        self.entries.len()
    }

    /// Position of `id` among the entries, if present.
    pub fn find(&self, id: &ID) -> (r: Option<usize>)
        requires
            self.wf(),
        ensures
            match r {
                Some(i) => i < self.pairs().len() && self.pairs()[i as int].0 == *id,
                None => !self@.contains_key(*id),
            },
    {
        let mut i: usize = 0;
        while i < self.entries.len()
            invariant
                0 <= i <= self.entries@.len(),
                forall|j: int| 0 <= j < i ==> self.entries@[j].0 != *id,
            decreases self.entries@.len() - i,
        {
            if self.entries[i].0 == *id {
                return Some(i);
            }
            i = i + 1;
        }
        None
    }

    pub fn contains_key(&self, id: &ID) -> (r: bool)
        requires
            self.wf(),
        ensures
            r == self@.contains_key(*id),
    {
        match self.find(id) {
            Some(_) => true,
            None => false,
        }
    }

    pub fn get(&self, id: &ID) -> (r: Option<&V>)
        requires
            self.wf(),
        ensures
            match r {
                Some(v) => self@.contains_key(*id) && *v == self@[*id],
                None => !self@.contains_key(*id),
            },
    {
        match self.find(id) {
            Some(i) => {
                proof {
                    self.lemma_at(i as int);
                }
                Some(&self.entries[i].1)
            },
            None => None,
        }
    }

    /// The entry at position `i`.
    pub fn entry_at(&self, i: usize) -> (r: (&ID, &V))
        requires
            self.wf(),
            i < self.pairs().len(),
        ensures
            *r.0 == self.pairs()[i as int].0,
            *r.1 == self.pairs()[i as int].1,
            self@.contains_key(*r.0),
            self@[*r.0] == *r.1,
    {
        proof {
            self.lemma_at(i as int);
        }
        let e = &self.entries[i];
        (&e.0, &e.1)
    }

    pub fn insert(&mut self, id: ID, v: V)
        requires
            old(self).wf(),
        ensures
            final(self).wf(),
            final(self)@ == old(self)@.insert(id, v),
    {
        let ghost old_pairs = self.entries@;
        match self.find(&id) {
            Some(i) => {
                self.entries.set(i, (id, v));
                proof {
                    assert(self.keys() =~= old(self).keys());
                    assert forall|k: ID| #![auto]
                        self@.contains_key(k) == old(self)@.insert(id, v).contains_key(k) by {
                        if old(self)@.contains_key(k) {
                            let j = choose|j: int| 0 <= j < old_pairs.len() && old_pairs[j].0 == k;
                            assert(self.pairs()[j].0 == k);
                        }
                        if self@.contains_key(k) {
                            let j = choose|j: int| 0 <= j < self.pairs().len() && self.pairs()[j].0 == k;
                            assert(old_pairs[j].0 == k);
                        }
                    }
                    assert forall|k: ID| #![auto] self@.contains_key(k)
                        implies self@[k] == old(self)@.insert(id, v)[k] by {
                        let j = choose|j: int| 0 <= j < self.pairs().len() && self.pairs()[j].0 == k;
                        self.lemma_at(j);
                        if k != id {
                            old(self).lemma_at(j);
                        } else {
                            assert(self.keys()[j] == id);
                            assert(self.keys()[i as int] == id);
                        }
                    }
                    assert(self@ =~= old(self)@.insert(id, v));
                }
            },
            None => {
                self.entries.push((id, v));
                proof {
                    assert(self.keys() =~= old(self).keys().push(id));
                    assert(!old(self).keys().contains(id)) by {
                        if old(self).keys().contains(id) {
                            let j = choose|j: int| 0 <= j < old(self).keys().len() && old(self).keys()[j] == id;
                            assert(old_pairs[j].0 == id);
                        }
                    }
                    assert forall|k: ID| #![auto]
                        self@.contains_key(k) == old(self)@.insert(id, v).contains_key(k) by {
                        if old(self)@.contains_key(k) {
                            let j = choose|j: int| 0 <= j < old_pairs.len() && old_pairs[j].0 == k;
                            assert(self.pairs()[j].0 == k);
                        }
                        if self@.contains_key(k) && k != id {
                            let j = choose|j: int| 0 <= j < self.pairs().len() && self.pairs()[j].0 == k;
                            assert(j < old_pairs.len());
                            assert(old_pairs[j].0 == k);
                        }
                        if k == id {
                            assert(self.pairs()[old_pairs.len() as int].0 == k);
                        }
                    }
                    assert forall|k: ID| #![auto] self@.contains_key(k)
                        implies self@[k] == old(self)@.insert(id, v)[k] by {
                        let j = choose|j: int| 0 <= j < self.pairs().len() && self.pairs()[j].0 == k;
                        self.lemma_at(j);
                        if k != id {
                            assert(j < old_pairs.len());
                            old(self).lemma_at(j);
                        }
                    }
                    assert(self@ =~= old(self)@.insert(id, v));
                }
            },
        }
    }

    /// Removes `id` and hands back its value, if it was present.
    pub fn remove(&mut self, id: &ID) -> (r: Option<V>)
        requires
            old(self).wf(),
        ensures
            final(self).wf(),
            final(self)@ == old(self)@.remove(*id),
            match r {
                Some(v) => old(self)@.contains_key(*id) && v == old(self)@[*id],
                None => !old(self)@.contains_key(*id),
            },
    {
        let ghost old_pairs = self.entries@;
        match self.find(id) {
            Some(i) => {
                proof {
                    old(self).lemma_at(i as int);
                }
                let e = self.entries.remove(i);
                proof {
                    assert(self.pairs() =~= old_pairs.remove(i as int));
                    assert(self.keys() =~= old(self).keys().remove(i as int));
                    assert forall|a: int, b: int|
                        0 <= a < self.keys().len() && 0 <= b < self.keys().len() && a != b
                        implies self.keys()[a] != self.keys()[b] by {
                        let oa = if a < i { a } else { a + 1 };
                        let ob = if b < i { b } else { b + 1 };
                        assert(self.keys()[a] == old(self).keys()[oa]);
                        assert(self.keys()[b] == old(self).keys()[ob]);
                    }
                    assert forall|k: ID| #![auto]
                        self@.contains_key(k) == old(self)@.remove(*id).contains_key(k) by {
                        if old(self)@.contains_key(k) && k != *id {
                            let j = choose|j: int| 0 <= j < old_pairs.len() && old_pairs[j].0 == k;
                            assert(j != i);
                            let nj = if j < i { j } else { j - 1 };
                            assert(self.pairs()[nj].0 == k);
                        }
                        if self@.contains_key(k) {
                            let j = choose|j: int| 0 <= j < self.pairs().len() && self.pairs()[j].0 == k;
                            let oj = if j < i { j } else { j + 1 };
                            assert(old_pairs[oj].0 == k);
                            assert(oj != i);
                            assert(old(self).keys()[oj] == k);
                            assert(old(self).keys()[i as int] == *id);
                        }
                    }
                    assert forall|k: ID| #![auto] self@.contains_key(k)
                        implies self@[k] == old(self)@.remove(*id)[k] by {
                        let j = choose|j: int| 0 <= j < self.pairs().len() && self.pairs()[j].0 == k;
                        self.lemma_at(j);
                        let oj = if j < i { j } else { j + 1 };
                        assert(old_pairs[oj] == self.pairs()[j]);
                        old(self).lemma_at(oj);
                    }
                    assert(self@ =~= old(self)@.remove(*id));
                }
                Some(e.1)
            },
            None => {
                proof {
                    assert(old(self)@.remove(*id) =~= old(self)@);
                }
                None
            },
        }
    }
}

} // verus!
