//! The registry store: a storage partition holding the registry's entries,
//! and the host storage that owns that partition.
//!
//! A partition holds three kinds of entry, each under keys of its own kind:
//! the provider count, the provider registered at each index, and the
//! status (active or banned) of each registered provider. Entries are
//! written by overwrite and never removed.
use crate::provider::ProviderId;
use vstd::prelude::*;

verus! {

/// What a partition holds, as maps from keys to values.
pub struct DictModel {
    pub count: Option<u64>,
    pub index: Map<u64, Seq<u8>>,
    pub status: Map<Seq<u8>, bool>,
}

/// A storage partition.
pub struct Dictionary {
    count: Option<u64>,
    indexed: Vec<(u64, ProviderId)>,
    statuses: Vec<(ProviderId, bool)>,
    index_map: Ghost<Map<u64, Seq<u8>>>,
    status_map: Ghost<Map<Seq<u8>, bool>>,
}

impl Dictionary {
    /// The tables agree with their maps, one entry per key.
    pub closed spec fn wf(&self) -> bool {
        &&& forall|i: int|
            #![trigger self.indexed@[i]]
            0 <= i < self.indexed@.len() ==> self.index_map@.contains_key(self.indexed@[i].0)
                && self.index_map@[self.indexed@[i].0] == self.indexed@[i].1@
        &&& forall|k: u64|
            #![trigger self.index_map@.contains_key(k)]
            self.index_map@.contains_key(k) ==> exists|i: int|
                #![trigger self.indexed@[i]]
                0 <= i < self.indexed@.len() && self.indexed@[i].0 == k
        &&& forall|i: int, j: int|
            0 <= i < self.indexed@.len() && 0 <= j < self.indexed@.len()
                && self.indexed@[i].0 == self.indexed@[j].0 ==> i == j
        &&& forall|i: int|
            #![trigger self.statuses@[i]]
            0 <= i < self.statuses@.len() ==> self.status_map@.contains_key(self.statuses@[i].0@)
                && self.status_map@[self.statuses@[i].0@] == self.statuses@[i].1
        &&& forall|p: Seq<u8>|
            #![trigger self.status_map@.contains_key(p)]
            self.status_map@.contains_key(p) ==> exists|i: int|
                #![trigger self.statuses@[i]]
                0 <= i < self.statuses@.len() && self.statuses@[i].0@ == p
        &&& forall|i: int, j: int|
            0 <= i < self.statuses@.len() && 0 <= j < self.statuses@.len()
                && self.statuses@[i].0@ == self.statuses@[j].0@ ==> i == j
    }

    /// What the partition holds.
    pub closed spec fn model(&self) -> DictModel {
        DictModel { count: self.count, index: self.index_map@, status: self.status_map@ }
    }

    /// An empty partition.
    pub fn new() -> (r: Dictionary)
        ensures
            r.wf(),
            r.model() == (DictModel {
                count: None,
                index: Map::empty(),
                status: Map::empty(),
            }),
    {
        Dictionary {
            count: None,
            indexed: Vec::new(),
            statuses: Vec::new(),
            index_map: Ghost(Map::empty()),
            status_map: Ghost(Map::empty()),
        }
    }

    /// The count entry, if written.
    pub fn get_count(&self) -> (r: Option<u64>)
        requires
            self.wf(),
        ensures
            r == self.model().count,
    {
        self.count
    }

    /// Writes the count entry.
    pub fn put_count(&mut self, n: u64)
        requires
            self.wf(),
        ensures
            final(self).wf(),
            final(self).model() == (DictModel { count: Some(n), ..old(self).model() }),
    {
        let ghost before = *self;
        self.count = Some(n);
        assert(self.indexed@ == before.indexed@ && self.statuses@ == before.statuses@);
        assert(self.index_map == before.index_map && self.status_map == before.status_map);
    }

    /// The provider registered at index `k`, if any.
    pub fn get_index(&self, k: u64) -> (r: Option<ProviderId>)
        requires
            self.wf(),
        ensures
            match r {
                Some(p) => self.model().index.contains_key(k) && self.model().index[k] == p@,
                None => !self.model().index.contains_key(k),
            },
    {
        let mut i: usize = 0;
        while i < self.indexed.len()
            invariant
                0 <= i <= self.indexed@.len(),
                self.wf(),
                forall|j: int| 0 <= j < i ==> self.indexed@[j].0 != k,
            decreases self.indexed@.len() - i,
        {
            if self.indexed[i].0 == k {
                assert(self.indexed@[i as int].0 == k);
                return Some(self.indexed[i].1);
            }
            i = i + 1;
        }
        None
    }

    /// Writes `p` at index `k`, over any earlier entry there.
    pub fn put_index(&mut self, k: u64, p: ProviderId)
        requires
            self.wf(),
        ensures
            final(self).wf(),
            final(self).model() == (DictModel {
                index: old(self).model().index.insert(k, p@),
                ..old(self).model()
            }),
    {
        let ghost before = *self;
        let ghost old_indexed = self.indexed@;
        let mut i: usize = 0;
        while i < self.indexed.len()
            invariant
                0 <= i <= self.indexed@.len(),
                self.wf(),
                self.indexed@ == old_indexed,
                *self == before,
                before == *old(self),
                forall|j: int| 0 <= j < i ==> self.indexed@[j].0 != k,
            decreases self.indexed@.len() - i,
        {
            if self.indexed[i].0 == k {
                self.indexed.set(i, (k, p));
                self.index_map = Ghost(self.index_map@.insert(k, p@));
                proof {
                    assert(self.count == before.count && self.statuses == before.statuses);
                    assert(self.status_map == before.status_map);
                    assert forall|a: int, b: int|
                        0 <= a < self.indexed@.len() && 0 <= b < self.indexed@.len()
                            && self.indexed@[a].0 == self.indexed@[b].0 implies a == b by {
                        assert(self.indexed@[a].0 == old_indexed[a].0);
                        assert(self.indexed@[b].0 == old_indexed[b].0);
                    }
                    assert forall|j: int|
                        #![trigger self.indexed@[j]]
                        0 <= j < self.indexed@.len() implies self.index_map@.contains_key(
                            self.indexed@[j].0,
                        ) && self.index_map@[self.indexed@[j].0] == self.indexed@[j].1@ by {
                        if j != i {
                            assert(old_indexed[j] == self.indexed@[j]);
                            assert(old_indexed[j].0 != k);
                        }
                    }
                    assert forall|q: u64|
                        #![trigger self.index_map@.contains_key(q)]
                        self.index_map@.contains_key(q) implies exists|j: int|
                            0 <= j < self.indexed@.len() && self.indexed@[j].0 == q by {
                        if q == k {
                            assert(self.indexed@[i as int].0 == q);
                        } else {
                            let j = choose|j: int| 0 <= j < old_indexed.len() && old_indexed[j].0 == q;
                            assert(self.indexed@[j].0 == q);
                        }
                    }
                }
                return;
            }
            i = i + 1;
        }
        self.indexed.push((k, p));
        self.index_map = Ghost(self.index_map@.insert(k, p@));
        proof {
            let n = old_indexed.len() as int;
            assert(self.count == before.count && self.statuses == before.statuses);
            assert(self.status_map == before.status_map);
            assert forall|a: int, b: int|
                0 <= a < self.indexed@.len() && 0 <= b < self.indexed@.len()
                    && self.indexed@[a].0 == self.indexed@[b].0 implies a == b by {
                if a < n {
                    assert(self.indexed@[a] == old_indexed[a]);
                }
                if b < n {
                    assert(self.indexed@[b] == old_indexed[b]);
                }
            }
            assert forall|j: int|
                #![trigger self.indexed@[j]]
                0 <= j < self.indexed@.len() implies self.index_map@.contains_key(
                    self.indexed@[j].0,
                ) && self.index_map@[self.indexed@[j].0] == self.indexed@[j].1@ by {
                if j < n {
                    assert(old_indexed[j] == self.indexed@[j]);
                }
            }
            assert forall|q: u64|
                #![trigger self.index_map@.contains_key(q)]
                self.index_map@.contains_key(q) implies exists|j: int|
                    0 <= j < self.indexed@.len() && self.indexed@[j].0 == q by {
                if q == k {
                    assert(self.indexed@[n].0 == q);
                } else {
                    let j = choose|j: int| 0 <= j < old_indexed.len() && old_indexed[j].0 == q;
                    assert(self.indexed@[j].0 == q);
                }
            }
        }
    }

    /// The status of provider `p`, if it has one.
    pub fn get_status(&self, p: &ProviderId) -> (r: Option<bool>)
        requires
            self.wf(),
        ensures
            match r {
                Some(b) => self.model().status.contains_key(p@) && self.model().status[p@] == b,
                None => !self.model().status.contains_key(p@),
            },
    {
        let mut i: usize = 0;
        while i < self.statuses.len()
            invariant
                0 <= i <= self.statuses@.len(),
                self.wf(),
                forall|j: int| 0 <= j < i ==> self.statuses@[j].0@ != p@,
            decreases self.statuses@.len() - i,
        {
            if self.statuses[i].0.same_as(p) {
                assert(self.statuses@[i as int].0@ == p@);
                return Some(self.statuses[i].1);
            }
            i = i + 1;
        }
        None
    }

    /// Writes status `b` for provider `p`, over any earlier one.
    pub fn put_status(&mut self, p: &ProviderId, b: bool)
        requires
            self.wf(),
        ensures
            final(self).wf(),
            final(self).model() == (DictModel {
                status: old(self).model().status.insert(p@, b),
                ..old(self).model()
            }),
    {
        let ghost before = *self;
        let ghost old_statuses = self.statuses@;
        let mut i: usize = 0;
        while i < self.statuses.len()
            invariant
                0 <= i <= self.statuses@.len(),
                self.wf(),
                self.statuses@ == old_statuses,
                *self == before,
                before == *old(self),
                forall|j: int| 0 <= j < i ==> self.statuses@[j].0@ != p@,
            decreases self.statuses@.len() - i,
        {
            if self.statuses[i].0.same_as(p) {
                self.statuses.set(i, (*p, b));
                self.status_map = Ghost(self.status_map@.insert(p@, b));
                proof {
                    assert(self.count == before.count && self.indexed == before.indexed);
                    assert(self.index_map == before.index_map);
                    assert forall|x: int, y: int|
                        0 <= x < self.statuses@.len() && 0 <= y < self.statuses@.len()
                            && self.statuses@[x].0@ == self.statuses@[y].0@ implies x == y by {
                        assert(self.statuses@[x].0@ == old_statuses[x].0@);
                        assert(self.statuses@[y].0@ == old_statuses[y].0@);
                    }
                    assert forall|j: int|
                        #![trigger self.statuses@[j]]
                        0 <= j < self.statuses@.len() implies self.status_map@.contains_key(
                            self.statuses@[j].0@,
                        ) && self.status_map@[self.statuses@[j].0@] == self.statuses@[j].1 by {
                        if j != i {
                            assert(old_statuses[j] == self.statuses@[j]);
                            assert(old_statuses[j].0@ != p@);
                        }
                    }
                    assert forall|q: Seq<u8>|
                        #![trigger self.status_map@.contains_key(q)]
                        self.status_map@.contains_key(q) implies exists|j: int|
                            0 <= j < self.statuses@.len() && self.statuses@[j].0@ == q by {
                        if q == p@ {
                            assert(self.statuses@[i as int].0@ == q);
                        } else {
                            let j = choose|j: int|
                                0 <= j < old_statuses.len() && old_statuses[j].0@ == q;
                            assert(self.statuses@[j].0@ == q);
                        }
                    }
                }
                return;
            }
            i = i + 1;
        }
        self.statuses.push((*p, b));
        self.status_map = Ghost(self.status_map@.insert(p@, b));
        proof {
            let n = old_statuses.len() as int;
            assert(self.count == before.count && self.indexed == before.indexed);
            assert(self.index_map == before.index_map);
            assert forall|x: int, y: int|
                0 <= x < self.statuses@.len() && 0 <= y < self.statuses@.len()
                    && self.statuses@[x].0@ == self.statuses@[y].0@ implies x == y by {
                if x < n {
                    assert(self.statuses@[x] == old_statuses[x]);
                }
                if y < n {
                    assert(self.statuses@[y] == old_statuses[y]);
                }
            }
            assert forall|j: int|
                #![trigger self.statuses@[j]]
                0 <= j < self.statuses@.len() implies self.status_map@.contains_key(
                    self.statuses@[j].0@,
                ) && self.status_map@[self.statuses@[j].0@] == self.statuses@[j].1 by {
                if j < n {
                    assert(old_statuses[j] == self.statuses@[j]);
                }
            }
            assert forall|q: Seq<u8>|
                #![trigger self.status_map@.contains_key(q)]
                self.status_map@.contains_key(q) implies exists|j: int|
                    0 <= j < self.statuses@.len() && self.statuses@[j].0@ == q by {
                if q == p@ {
                    assert(self.statuses@[n].0@ == q);
                } else {
                    let j = choose|j: int| 0 <= j < old_statuses.len() && old_statuses[j].0@ == q;
                    assert(self.statuses@[j].0@ == q);
                }
            }
        }
    }
}

/// Host storage as the registry sees it: the registry's partition, once
/// created. Creating it a second time fails.
pub struct RegistryStore {
    partition: Option<Dictionary>,
}

impl RegistryStore {
    /// The partition, once created, is well formed.
    pub closed spec fn wf(&self) -> bool {
        self.partition matches Some(d) ==> d.wf()
    }

    /// What the partition holds, or `None` before it is created.
    pub closed spec fn partition(&self) -> Option<DictModel> {
        match self.partition {
            Some(d) => Some(d.model()),
            None => None,
        }
    }

    /// Storage in which no partition has been created.
    pub fn new() -> (r: RegistryStore)
        ensures
            r.wf(),
            r.partition() is None,
    {
        RegistryStore { partition: None }
    }

    /// Creates the empty partition; fails, changing nothing, where it exists.
    pub fn new_dictionary(&mut self) -> (created: bool)
        requires
            old(self).wf(),
        ensures
            final(self).wf(),
            created == (old(self).partition() is None),
            created ==> final(self).partition() == Some(
                DictModel { count: None, index: Map::empty(), status: Map::empty() },
            ),
            !created ==> *final(self) == *old(self),
    {
        if self.partition.is_some() {
            return false;
        }
        self.partition = Some(Dictionary::new());
        true
    }

    /// Whether the partition has been created.
    pub fn has_dictionary(&self) -> (r: bool)
        ensures
            r == (self.partition() is Some),
    {
        self.partition.is_some()
    }

    /// The count entry of the partition, if written.
    pub fn get_count(&self) -> (r: Option<u64>)
        requires
            self.wf(),
            self.partition() is Some,
        ensures
            r == self.partition().unwrap().count,
    {
        match &self.partition {
            Some(d) => d.get_count(),
            None => None,
        }
    }

    /// The provider at index `k` in the partition, if any.
    pub fn get_index(&self, k: u64) -> (r: Option<ProviderId>)
        requires
            self.wf(),
            self.partition() is Some,
        ensures
            match r {
                Some(p) => self.partition().unwrap().index.contains_key(k)
                    && self.partition().unwrap().index[k] == p@,
                None => !self.partition().unwrap().index.contains_key(k),
            },
    {
        match &self.partition {
            Some(d) => d.get_index(k),
            None => None,
        }
    }

    /// The status of `p` in the partition, if it has one.
    pub fn get_status(&self, p: &ProviderId) -> (r: Option<bool>)
        requires
            self.wf(),
            self.partition() is Some,
        ensures
            match r {
                Some(b) => self.partition().unwrap().status.contains_key(p@)
                    && self.partition().unwrap().status[p@] == b,
                None => !self.partition().unwrap().status.contains_key(p@),
            },
    {
        match &self.partition {
            Some(d) => d.get_status(p),
            None => None,
        }
    }

    /// Writes the partition's count entry.
    pub fn put_count(&mut self, n: u64)
        requires
            old(self).wf(),
            old(self).partition() is Some,
        ensures
            final(self).wf(),
            final(self).partition() == Some(
                DictModel { count: Some(n), ..old(self).partition().unwrap() },
            ),
    {
        match &mut self.partition {
            Some(d) => d.put_count(n),
            None => {},
        }
    }

    /// Writes `p` at index `k` in the partition.
    pub fn put_index(&mut self, k: u64, p: ProviderId)
        requires
            old(self).wf(),
            old(self).partition() is Some,
        ensures
            final(self).wf(),
            final(self).partition() == Some(
                DictModel {
                    index: old(self).partition().unwrap().index.insert(k, p@),
                    ..old(self).partition().unwrap()
                },
            ),
    {
        match &mut self.partition {
            Some(d) => d.put_index(k, p),
            None => {},
        }
    }

    /// Writes status `b` for `p` in the partition.
    pub fn put_status(&mut self, p: &ProviderId, b: bool)
        requires
            old(self).wf(),
            old(self).partition() is Some,
        ensures
            final(self).wf(),
            final(self).partition() == Some(
                DictModel {
                    status: old(self).partition().unwrap().status.insert(p@, b),
                    ..old(self).partition().unwrap()
                },
            ),
    {
        match &mut self.partition {
            Some(d) => d.put_status(p, b),
            None => {},
        }
    }
}

} // verus!
