use vstd::prelude::*;

verus! {

/// A map from 128-bit identifiers to values.
///
/// The entries are kept in a vector with pairwise distinct keys; the ghost
/// `model` is the map that the entries stand for.
pub struct IdMap<V> {
    entries: Vec<(u128, V)>,
    model: Ghost<Map<u128, V>>,
}

impl<V> View for IdMap<V> {
    type V = Map<u128, V>;

    closed spec fn view(&self) -> Map<u128, V> {
        self.model@
    }
}

impl<V> IdMap<V> {
    pub closed spec fn wf(&self) -> bool {
        &&& forall|i: int, j: int|
            0 <= i < self.entries@.len() && 0 <= j < self.entries@.len() && i != j
                ==> #[trigger] self.entries@[i].0 != #[trigger] self.entries@[j].0
        &&& forall|i: int|
            0 <= i < self.entries@.len() ==> {
                &&& self.model@.contains_key(#[trigger] self.entries@[i].0)
                &&& self.model@[self.entries@[i].0] == self.entries@[i].1
            }
        &&& forall|k: u128|
            #[trigger] self.model@.contains_key(k) ==> exists|i: int|
                0 <= i < self.entries@.len() && #[trigger] self.entries@[i].0 == k
    }

    /// The entries in their stored order.
    pub closed spec fn entry_seq(&self) -> Seq<(u128, V)> {
        self.entries@
    }

    pub proof fn lemma_entry(&self, i: int)
        requires
            self.wf(),
            0 <= i < self.entry_seq().len(),
        ensures
            self@.contains_key(self.entry_seq()[i].0),
            self@[self.entry_seq()[i].0] == self.entry_seq()[i].1,
    {
    }

    /// The stored entries are exactly the map's: each entry is in the map,
    /// no key is stored twice, and every key of the map is stored.
    pub proof fn lemma_entries(&self)
        requires
            self.wf(),
        ensures
            forall|i: int|
                0 <= i < self.entry_seq().len() ==> {
                    &&& self@.contains_key(#[trigger] self.entry_seq()[i].0)
                    &&& self@[self.entry_seq()[i].0] == self.entry_seq()[i].1
                },
            forall|i: int, j: int|
                0 <= i < self.entry_seq().len() && 0 <= j < self.entry_seq().len() && i != j
                    ==> #[trigger] self.entry_seq()[i].0 != #[trigger] self.entry_seq()[j].0,
            forall|k: u128| #[trigger] self@.contains_key(k) ==> exists|i: int|
                0 <= i < self.entry_seq().len() && #[trigger] self.entry_seq()[i].0 == k,
    {
        assert forall|i: int, j: int|
            0 <= i < self.entry_seq().len() && 0 <= j < self.entry_seq().len() && i != j
                implies #[trigger] self.entry_seq()[i].0 != #[trigger] self.entry_seq()[j].0 by {
            assert(self.entries@[i].0 != self.entries@[j].0);
        }
        assert forall|k: u128| #[trigger] self@.contains_key(k) implies exists|i: int|
            0 <= i < self.entry_seq().len() && #[trigger] self.entry_seq()[i].0 == k by {
            assert(self.model@.contains_key(k));
            let i = choose|i: int| 0 <= i < self.entries@.len() && #[trigger] self.entries@[i].0 == k;
            assert(self.entry_seq()[i].0 == k);
        }
    }

    pub fn len(&self) -> (r: usize)
        ensures
            r == self.entry_seq().len(),
    {
        self.entries.len()
    }

    pub fn value_at(&self, i: usize) -> (r: &V)
        requires
            i < self.entry_seq().len(),
        ensures
            *r == self.entry_seq()[i as int].1,
    {
        &self.entries[i].1
    }

    pub fn new() -> (r: IdMap<V>)
        ensures
            r.wf(),
            r@ == Map::<u128, V>::empty(),
    {
        IdMap { entries: Vec::new(), model: Ghost(Map::empty()) }
    }

    fn find(&self, k: u128) -> (r: Option<usize>)
        requires
            self.wf(),
        ensures
            match r {
                Some(i) => i < self.entries@.len() && self.entries@[i as int].0 == k,
                None => !self@.contains_key(k),
            },
    {
        let mut i: usize = 0;
        while i < self.entries.len()
            invariant
                self.wf(),
                i <= self.entries@.len(),
                forall|j: int| 0 <= j < i ==> self.entries@[j].0 != k,
            decreases self.entries@.len() - i,
        {
            if self.entries[i].0 == k {
                return Some(i);
            }
            i = i + 1;
        }
        None
    }

    pub fn contains_key(&self, k: u128) -> (r: bool)
        requires
            self.wf(),
        ensures
            r == self@.contains_key(k),
    {
        match self.find(k) {
            Some(_) => true,
            None => false,
        }
    }

    pub fn get(&self, k: u128) -> (r: Option<&V>)
        requires
            self.wf(),
        ensures
            match r {
                Some(v) => self@.contains_key(k) && *v == self@[k],
                None => !self@.contains_key(k),
            },
    {
        match self.find(k) {
            Some(i) => Some(&self.entries[i].1),
            None => None,
        }
    }

    pub fn insert(&mut self, k: u128, v: V)
        requires
            old(self).wf(),
        ensures
            final(self).wf(),
            final(self)@ == old(self)@.insert(k, v),
    {
        let ghost new_model = self.model@.insert(k, v);
        let ghost old_entries = self.entries@;
        let ghost mut at: int = 0;
        match self.find(k) {
            Some(i) => {
                self.entries.set(i, (k, v));
                proof { at = i as int; }
            },
            None => {
                self.entries.push((k, v));
                proof { at = old_entries.len() as int; }
            },
        }
        self.model = Ghost(new_model);
        assert(self.entries@[at].0 == k);
        assert forall|kk: u128| #[trigger] self.model@.contains_key(kk) implies exists|i: int|
            0 <= i < self.entries@.len() && #[trigger] self.entries@[i].0 == kk by {
            if kk != k {
                assert(old(self).model@.contains_key(kk));
                let i = choose|i: int| 0 <= i < old_entries.len() && #[trigger] old_entries[i].0 == kk;
                assert(self.entries@[i].0 == kk);
            }
        }
    }

    pub fn remove(&mut self, k: u128) -> (r: Option<V>)
        requires
            old(self).wf(),
        ensures
            final(self).wf(),
            final(self)@ == old(self)@.remove(k),
            match r {
                Some(v) => old(self)@.contains_key(k) && v == old(self)@[k],
                None => !old(self)@.contains_key(k),
            },
    {
        match self.find(k) {
            Some(i) => {
                let ghost old_entries = self.entries@;
                let e = self.entries.remove(i);
                self.model = Ghost(self.model@.remove(k));
                assert forall|j: int| 0 <= j < self.entries@.len() implies
                    #[trigger] self.entries@[j] == (if j < i { old_entries[j] } else { old_entries[j + 1] }) by {}
                assert forall|kk: u128| #[trigger] self.model@.contains_key(kk) implies exists|j: int|
                    0 <= j < self.entries@.len() && #[trigger] self.entries@[j].0 == kk by {
                    let j = choose|j: int| 0 <= j < old_entries.len() && #[trigger] old_entries[j].0 == kk;
                    if j < i {
                        assert(self.entries@[j].0 == kk);
                    } else {
                        assert(j != i);
                        assert(self.entries@[j - 1].0 == kk);
                    }
                }
                Some(e.1)
            },
            None => {
                assert(self.model@.remove(k) =~= self.model@);
                None
            },
        }
    }

    /// The keys, each once, in the order of the entries.
    pub fn keys(&self) -> (r: Vec<u128>)
        requires
            self.wf(),
        ensures
            r@.no_duplicates(),
            forall|k: u128| self@.contains_key(k) <==> r@.contains(k),
            r@ == self.entry_seq().map_values(|e: (u128, V)| e.0),
    {
        let mut r: Vec<u128> = Vec::new();
        let mut i: usize = 0;
        while i < self.entries.len()
            invariant
                self.wf(),
                i <= self.entries@.len(),
                r@.len() == i,
                forall|j: int| 0 <= j < i ==> r@[j] == #[trigger] self.entries@[j].0,
            decreases self.entries@.len() - i,
        {
            r.push(self.entries[i].0);
            i = i + 1;
        }
        assert(r@ =~= self.entry_seq().map_values(|e: (u128, V)| e.0));
        assert forall|k: u128| self@.contains_key(k) <==> r@.contains(k) by {
            if self@.contains_key(k) {
                let j = choose|j: int| 0 <= j < self.entries@.len() && #[trigger] self.entries@[j].0 == k;
                assert(r@[j] == k);
            }
            if r@.contains(k) {
                let j = choose|j: int| 0 <= j < r@.len() && r@[j] == k;
                assert(self.entries@[j].0 == k);
            }
        }
        assert forall|a: int, b: int| 0 <= a < r@.len() && 0 <= b < r@.len() && a != b implies
            r@[a] != r@[b] by {
            assert(r@[a] == self.entries@[a].0);
            assert(r@[b] == self.entries@[b].0);
        }
        r
    }
}

} // verus!
