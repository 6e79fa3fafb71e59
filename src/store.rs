//! The key/value transaction that vertex records are stored through, and an
//! in-memory implementation of it.
use vstd::prelude::*;
use crate::model::{copy_bytes, Gid, GValue, Property, PropertyView};

verus! {

/// A failure reported by the storage engine.
#[derive(Debug, PartialEq, Eq, Clone, Copy, Structural)]
pub enum StoreError {
    /// The transaction was opened read-only.
    ReadOnly,
    /// Any other engine failure (I/O, conflict, closed handle).
    Engine,
}

/// The view of a list of key/value pairs.
pub open spec fn pairs_view(pairs: Seq<(Vec<u8>, Vec<u8>)>) -> Seq<(Seq<u8>, Seq<u8>)> {
    pairs.map_values(|p: (Vec<u8>, Vec<u8>)| (p.0@, p.1@))
}

/// `pairs` lists every entry of `m` exactly once.
pub open spec fn lists_exactly(pairs: Seq<(Seq<u8>, Seq<u8>)>, m: Map<Seq<u8>, Seq<u8>>) -> bool {
    &&& forall|i: int, j: int| 0 <= i < j < pairs.len() ==> pairs[i].0 != pairs[j].0
    &&& forall|i: int| 0 <= i < pairs.len() ==> #[trigger] m.contains_key(pairs[i].0) && m[pairs[i].0] == pairs[i].1
    &&& forall|k: Seq<u8>| m.contains_key(k) ==> exists|i: int| 0 <= i < pairs.len() && #[trigger] pairs[i].0 == k
}

/// A transaction over named partitions of byte keys and byte values.
pub trait Transaction {
    /// The entries of partition `cf` as this transaction sees them.
    spec fn partition(&self, cf: Seq<char>) -> Map<Seq<u8>, Seq<u8>>;

    /// Every read through this transaction succeeds.
    spec fn reads_succeed(&self) -> bool;

    /// Every write through this transaction succeeds.
    spec fn writes_succeed(&self) -> bool;

    /// Reads the value stored under `key`.
    fn get(&self, cf: &String, key: &Vec<u8>) -> (r: Result<Option<Vec<u8>>, StoreError>)
        ensures
            self.reads_succeed() ==> r is Ok,
            r matches Ok(o) ==> match o {
                Some(val) => self.partition(cf@).contains_key(key@) && self.partition(cf@)[key@] == val@,
                None => !self.partition(cf@).contains_key(key@),
            },
    ;

    /// Stores `value` under `key`, replacing what was there.
    fn set(&mut self, cf: &String, key: Vec<u8>, value: Vec<u8>) -> (r: Result<(), StoreError>)
        ensures
            old(self).writes_succeed() ==> r is Ok,
            final(self).reads_succeed() == old(self).reads_succeed(),
            final(self).writes_succeed() == old(self).writes_succeed(),
            forall|c: Seq<char>| #[trigger] final(self).partition(c) == if r is Ok && c == cf@ {
                old(self).partition(c).insert(key@, value@)
            } else {
                old(self).partition(c)
            },
    ;

    /// Removes the entry under `key`, if there is one.
    fn del(&mut self, cf: &String, key: &Vec<u8>) -> (r: Result<(), StoreError>)
        ensures
            old(self).writes_succeed() ==> r is Ok,
            final(self).reads_succeed() == old(self).reads_succeed(),
            final(self).writes_succeed() == old(self).writes_succeed(),
            forall|c: Seq<char>| #[trigger] final(self).partition(c) == if r is Ok && c == cf@ {
                old(self).partition(c).remove(key@)
            } else {
                old(self).partition(c)
            },
    ;

    /// Lists every entry of partition `cf`.
    fn iterate(&self, cf: &String) -> (r: Result<Vec<(Vec<u8>, Vec<u8>)>, StoreError>)
        ensures
            self.reads_succeed() ==> r is Ok,
            r matches Ok(pairs) ==> lists_exactly(pairs_view(pairs@), self.partition(cf@)),
    ;
}

/// Whether two byte vectors hold the same bytes.
pub fn bytes_equal(a: &Vec<u8>, b: &Vec<u8>) -> (r: bool)
    ensures
        r == (a@ == b@),
{
    if a.len() != b.len() {
        return false;
    }
    let mut i: usize = 0;
    while i < a.len()
        invariant
            a@.len() == b@.len(),
            i <= a@.len(),
            forall|j: int| 0 <= j < i ==> a@[j] == b@[j],
        decreases a@.len() - i,
    {
        if a[i] != b[i] {
            return false;
        }
        i = i + 1;
    }
    assert(a@ =~= b@);
    true
}

/// A transaction held in memory: a list of (partition, key, value) entries
/// with no two entries under the same partition and key.
pub struct MemoryTransaction {
    entries: Vec<(String, Vec<u8>, Vec<u8>)>,
    writable: bool,
}

impl MemoryTransaction {
    #[verifier::type_invariant]
    spec fn unique_keys(self) -> bool {
        forall|i: int, j: int|
            0 <= i < j < self.entries@.len() ==> !(#[trigger] self.entries@[i].0@ == #[trigger] self.entries@[j].0@
                && self.entries@[i].1@ == self.entries@[j].1@)
    }

    spec fn holds(self, i: int, cf: Seq<char>, k: Seq<u8>) -> bool {
        0 <= i < self.entries@.len() && self.entries@[i].0@ == cf && self.entries@[i].1@ == k
    }

    /// The entries stored under partition `cf`.
    pub closed spec fn entries_of(&self, cf: Seq<char>) -> Map<Seq<u8>, Seq<u8>> {
        Map::new(
            |k: Seq<u8>| exists|i: int| self.holds(i, cf, k),
            |k: Seq<u8>| self.entries@[choose|i: int| self.holds(i, cf, k)].2@,
        )
    }

    /// Whether the transaction accepts writes.
    pub closed spec fn is_writable(&self) -> bool {
        self.writable
    }

    /// An empty transaction; a read-only one refuses every write.
    pub fn new(writable: bool) -> (r: MemoryTransaction)
        ensures
            r.is_writable() == writable,
            forall|c: Seq<char>| #[trigger] r.partition(c) == Map::<Seq<u8>, Seq<u8>>::empty(),
    {
        let r = MemoryTransaction { entries: Vec::new(), writable };
        assert forall|c: Seq<char>| #[trigger] r.partition(c) == Map::<Seq<u8>, Seq<u8>>::empty() by {
            assert(r.partition(c) =~= Map::<Seq<u8>, Seq<u8>>::empty());
        }
        r
    }

    /// A read-only view of the same entries, as a fresh snapshot would see them.
    pub fn snapshot(&self) -> (r: MemoryTransaction)
        ensures
            !r.is_writable(),
            forall|c: Seq<char>| #[trigger] r.partition(c) == self.partition(c),
    {
        proof { use_type_invariant(self); }
        let mut out: Vec<(String, Vec<u8>, Vec<u8>)> = Vec::new();
        let mut i: usize = 0;
        while i < self.entries.len()
            invariant
                i <= self.entries@.len(),
                out@.len() == i,
                forall|j: int| 0 <= j < i ==> (#[trigger] out@[j]).0@ == self.entries@[j].0@
                    && out@[j].1@ == self.entries@[j].1@ && out@[j].2@ == self.entries@[j].2@,
            decreases self.entries@.len() - i,
        {
            let e = &self.entries[i];
            out.push((e.0.clone(), copy_bytes(&e.1), copy_bytes(&e.2)));
            i = i + 1;
        }
        let r = MemoryTransaction { entries: out, writable: false };
        proof { use_type_invariant(&r); }
        assert forall|c: Seq<char>| #[trigger] r.partition(c) == self.partition(c) by {
            assert forall|k: Seq<u8>| #[trigger] r.partition(c).dom().contains(k) implies self.partition(c).dom().contains(k)
                && r.partition(c)[k] == self.partition(c)[k] by {
                let j = choose|j: int| r.holds(j, c, k);
                assert(self.holds(j, c, k));
                self.lemma_found(j);
                r.lemma_found(j);
            }
            assert forall|k: Seq<u8>| #[trigger] self.partition(c).dom().contains(k) implies r.partition(c).dom().contains(k) by {
                let j = choose|j: int| self.holds(j, c, k);
                assert(r.holds(j, c, k));
            }
            assert(r.partition(c) =~= self.partition(c));
        }
        r
    }

    proof fn lemma_found(self, i: int)
        requires
            self.unique_keys(),
            0 <= i < self.entries@.len(),
        ensures
            self.partition(self.entries@[i].0@).contains_key(self.entries@[i].1@),
            self.partition(self.entries@[i].0@)[self.entries@[i].1@] == self.entries@[i].2@,
    {
        let cf = self.entries@[i].0@;
        let k = self.entries@[i].1@;
        assert(self.holds(i, cf, k));
        let j = choose|j: int| self.holds(j, cf, k);
        if j < i {
            assert(!(self.entries@[j].0@ == self.entries@[i].0@ && self.entries@[j].1@ == self.entries@[i].1@));
        } else if i < j {
            assert(!(self.entries@[i].0@ == self.entries@[j].0@ && self.entries@[i].1@ == self.entries@[j].1@));
        }
    }

    proof fn lemma_same_entry(self, i: int, j: int, cf: Seq<char>, k: Seq<u8>)
        requires
            self.unique_keys(),
            self.holds(i, cf, k),
            self.holds(j, cf, k),
        ensures
            i == j,
    {
        if i < j {
            assert(!(self.entries@[i].0@ == self.entries@[j].0@ && self.entries@[i].1@ == self.entries@[j].1@));
        } else if j < i {
            assert(!(self.entries@[j].0@ == self.entries@[i].0@ && self.entries@[j].1@ == self.entries@[i].1@));
        }
    }

    /// The position of the entry under (`cf`, `key`), if there is one.
    fn find(&self, cf: &String, key: &Vec<u8>) -> (r: Option<usize>)
        ensures
            match r {
                Some(i) => self.holds(i as int, cf@, key@),
                None => forall|i: int| !self.holds(i, cf@, key@),
            },
    {
        let mut i: usize = 0;
        while i < self.entries.len()
            invariant
                i <= self.entries@.len(),
                forall|j: int| 0 <= j < i ==> !self.holds(j, cf@, key@),
            decreases self.entries@.len() - i,
        {
            if self.entries[i].0 == *cf && bytes_equal(&self.entries[i].1, key) {
                return Some(i);
            }
            i = i + 1;
        }
        None
    }
}

impl Transaction for MemoryTransaction {
    open spec fn partition(&self, cf: Seq<char>) -> Map<Seq<u8>, Seq<u8>> {
        self.entries_of(cf)
    }

    open spec fn reads_succeed(&self) -> bool {
        true
    }

    open spec fn writes_succeed(&self) -> bool {
        self.is_writable()
    }

    fn get(&self, cf: &String, key: &Vec<u8>) -> (r: Result<Option<Vec<u8>>, StoreError>) {
        proof { use_type_invariant(self); }
        match self.find(cf, key) {
            Some(i) => {
                proof { self.lemma_found(i as int); }
                Ok(Some(copy_bytes(&self.entries[i].2)))
            },
            None => Ok(None),
        }
    }

    fn set(&mut self, cf: &String, key: Vec<u8>, value: Vec<u8>) -> (r: Result<(), StoreError>) {
        proof { use_type_invariant(&*self); }
        if !self.writable {
            return Err(StoreError::ReadOnly);
        }
        let ghost old_self = *self;
        let ghost kv = key@;
        let ghost vv = value@;
        match self.find(cf, &key) {
            Some(i) => {
                let mut es: Vec<(String, Vec<u8>, Vec<u8>)> = Vec::new();
                std::mem::swap(&mut es, &mut self.entries);
                es.set(i, (cf.clone(), key, value));
                self.entries = es;
                proof {
                    use_type_invariant(&*self);
                    assert forall|c: Seq<char>| #[trigger] self.partition(c) == if c == cf@ {
                        old_self.partition(c).insert(kv, vv)
                    } else {
                        old_self.partition(c)
                    } by {
                        let m = if c == cf@ { old_self.partition(c).insert(kv, vv) } else { old_self.partition(c) };
                        assert forall|k: Seq<u8>| #[trigger] self.partition(c).dom().contains(k) implies m.dom().contains(k)
                            && self.partition(c)[k] == m[k] by {
                            let j = choose|j: int| self.holds(j, c, k);
                            self.lemma_found(j);
                            if j != i {
                                if c == cf@ && k == kv {
                                    assert(self.holds(i as int, c, k));
                                    self.lemma_same_entry(i as int, j, c, k);
                                }
                                assert(old_self.holds(j, c, k));
                                old_self.lemma_found(j);
                            }
                        }
                        assert forall|k: Seq<u8>| #[trigger] m.dom().contains(k) implies self.partition(c).dom().contains(k) by {
                            if c == cf@ && k == kv {
                                assert(self.holds(i as int, c, k));
                            } else {
                                let j = choose|j: int| old_self.holds(j, c, k);
                                assert(self.holds(j, c, k));
                            }
                        }
                        assert(self.partition(c) =~= m);
                    }
                }
            },
            None => {
                let mut es: Vec<(String, Vec<u8>, Vec<u8>)> = Vec::new();
                std::mem::swap(&mut es, &mut self.entries);
                es.push((cf.clone(), key, value));
                assert forall|a: int, b: int| 0 <= a < b < es@.len() implies
                    !(#[trigger] es@[a].0@ == #[trigger] es@[b].0@ && es@[a].1@ == es@[b].1@) by {
                    if b == es@.len() - 1 {
                        assert(!old_self.holds(a, cf@, kv));
                    } else {
                        assert(!(old_self.entries@[a].0@ == old_self.entries@[b].0@
                            && old_self.entries@[a].1@ == old_self.entries@[b].1@));
                    }
                }
                self.entries = es;
                proof {
                    use_type_invariant(&*self);
                    let n = old_self.entries@.len() as int;
                    assert forall|c: Seq<char>| #[trigger] self.partition(c) == if c == cf@ {
                        old_self.partition(c).insert(kv, vv)
                    } else {
                        old_self.partition(c)
                    } by {
                        let m = if c == cf@ { old_self.partition(c).insert(kv, vv) } else { old_self.partition(c) };
                        assert forall|k: Seq<u8>| #[trigger] self.partition(c).dom().contains(k) implies m.dom().contains(k)
                            && self.partition(c)[k] == m[k] by {
                            let j = choose|j: int| self.holds(j, c, k);
                            self.lemma_found(j);
                            if j != n {
                                if c == cf@ && k == kv {
                                    assert(self.holds(n, c, k));
                                    self.lemma_same_entry(n, j, c, k);
                                }
                                assert(old_self.holds(j, c, k));
                                old_self.lemma_found(j);
                            }
                        }
                        assert forall|k: Seq<u8>| #[trigger] m.dom().contains(k) implies self.partition(c).dom().contains(k) by {
                            if c == cf@ && k == kv {
                                assert(self.holds(n, c, k));
                            } else {
                                let j = choose|j: int| old_self.holds(j, c, k);
                                assert(self.holds(j, c, k));
                            }
                        }
                        assert(self.partition(c) =~= m);
                    }
                }
            },
        }
        Ok(())
    }

    fn del(&mut self, cf: &String, key: &Vec<u8>) -> (r: Result<(), StoreError>) {
        proof { use_type_invariant(&*self); }
        if !self.writable {
            return Err(StoreError::ReadOnly);
        }
        let ghost old_self = *self;
        match self.find(cf, key) {
            Some(i) => {
                let mut es: Vec<(String, Vec<u8>, Vec<u8>)> = Vec::new();
                std::mem::swap(&mut es, &mut self.entries);
                es.remove(i);
                self.entries = es;
                proof {
                    use_type_invariant(&*self);
                    assert forall|c: Seq<char>| #[trigger] self.partition(c) == if c == cf@ {
                        old_self.partition(c).remove(key@)
                    } else {
                        old_self.partition(c)
                    } by {
                        let m = if c == cf@ { old_self.partition(c).remove(key@) } else { old_self.partition(c) };
                        assert forall|k: Seq<u8>| #[trigger] self.partition(c).dom().contains(k) implies m.dom().contains(k)
                            && self.partition(c)[k] == m[k] by {
                            let j = choose|j: int| self.holds(j, c, k);
                            self.lemma_found(j);
                            let oj = if j < i { j } else { j + 1 };
                            assert(old_self.holds(oj, c, k));
                            old_self.lemma_found(oj);
                            if c == cf@ && k == key@ {
                                old_self.lemma_same_entry(i as int, oj, c, k);
                            }
                        }
                        assert forall|k: Seq<u8>| #[trigger] m.dom().contains(k) implies self.partition(c).dom().contains(k) by {
                            let j = choose|j: int| old_self.holds(j, c, k);
                            if c == cf@ && k == key@ {
                                old_self.lemma_same_entry(i as int, j, c, k);
                            }
                            if j < i {
                                assert(self.holds(j, c, k));
                            } else {
                                assert(j != i);
                                assert(self.holds(j - 1, c, k));
                            }
                        }
                        assert(self.partition(c) =~= m);
                    }
                }
            },
            None => {
                proof {
                    assert forall|c: Seq<char>| #[trigger] self.partition(c) == if c == cf@ {
                        old_self.partition(c).remove(key@)
                    } else {
                        old_self.partition(c)
                    } by {
                        assert(!self.partition(cf@).contains_key(key@));
                        assert(self.partition(cf@).remove(key@) =~= self.partition(cf@));
                    }
                }
            },
        }
        Ok(())
    }

    fn iterate(&self, cf: &String) -> (r: Result<Vec<(Vec<u8>, Vec<u8>)>, StoreError>) {
        proof { use_type_invariant(self); }
        let mut out: Vec<(Vec<u8>, Vec<u8>)> = Vec::new();
        let ghost mut src: Seq<int> = Seq::empty();
        let mut i: usize = 0;
        while i < self.entries.len()
            invariant
                i <= self.entries@.len(),
                self.unique_keys(),
                src.len() == out@.len(),
                forall|j: int| 0 <= j < src.len() ==> 0 <= #[trigger] src[j] < i
                    && self.holds(src[j], cf@, out@[j].0@) && self.entries@[src[j]].2@ == out@[j].1@,
                forall|j1: int, j2: int| 0 <= j1 < j2 < src.len() ==> src[j1] < src[j2],
                forall|e: int| 0 <= e < i && self.entries@[e].0@ == cf@ ==>
                    exists|j: int| 0 <= j < src.len() && #[trigger] src[j] == e,
            decreases self.entries@.len() - i,
        {
            if self.entries[i].0 == *cf {
                let e = &self.entries[i];
                out.push((copy_bytes(&e.1), copy_bytes(&e.2)));
                proof {
                    let ghost prev = src;
                    src = src.push(i as int);
                    assert(src[src.len() - 1] == i as int);
                    assert forall|e: int| 0 <= e < i && self.entries@[e].0@ == cf@ implies
                        exists|j: int| 0 <= j < src.len() && #[trigger] src[j] == e by {
                        let j = choose|j: int| 0 <= j < prev.len() && #[trigger] prev[j] == e;
                        assert(src[j] == e);
                    }
                }
            }
            i = i + 1;
        }
        let ghost pv = pairs_view(out@);
        let ghost m = self.partition(cf@);
        assert forall|a: int, b: int| 0 <= a < b < pv.len() implies pv[a].0 != pv[b].0 by {
            assert(src[a] < src[b]);
            assert(!(self.entries@[src[a]].0@ == self.entries@[src[b]].0@
                && self.entries@[src[a]].1@ == self.entries@[src[b]].1@));
        }
        assert forall|a: int| 0 <= a < pv.len() implies #[trigger] m.contains_key(pv[a].0) && m[pv[a].0] == pv[a].1 by {
            self.lemma_found(src[a]);
        }
        assert forall|k: Seq<u8>| m.contains_key(k) implies exists|a: int| 0 <= a < pv.len() && #[trigger] pv[a].0 == k by {
            let e = choose|e: int| self.holds(e, cf@, k);
            let a = choose|a: int| 0 <= a < src.len() && #[trigger] src[a] == e;
            assert(pv[a].0 == k);
        }
        Ok(out)
    }
}

/// The store that holds vertex properties, outside the vertex partition.
pub trait PropertyStore {
    /// Every property written so far, with the identifier of its vertex, in order.
    spec fn written(&self) -> Seq<(Seq<u8>, PropertyView)>;

    /// Every write to this store succeeds.
    spec fn writes_succeed(&self) -> bool;

    /// Writes `label` = `value` for vertex `id` and returns the property.
    fn set_property(&mut self, id: &Gid, label: &String, value: &GValue) -> (r: Result<Property, StoreError>)
        ensures
            old(self).writes_succeed() ==> r is Ok,
            final(self).writes_succeed() == old(self).writes_succeed(),
            match r {
                Ok(p) => p@ == (PropertyView { label: label@, value: value@ })
                    && final(self).written() == old(self).written().push((id@, p@)),
                Err(_) => final(self).written() == old(self).written(),
            },
    ;
}

/// A property store held in memory.
pub struct MemoryPropertyStore {
    records: Vec<(Gid, Property)>,
}

impl MemoryPropertyStore {
    pub fn new() -> (r: MemoryPropertyStore)
        ensures
            r.written() == Seq::<(Seq<u8>, PropertyView)>::empty(),
    {
        let r = MemoryPropertyStore { records: Vec::new() };
        assert(r.written() =~= Seq::<(Seq<u8>, PropertyView)>::empty());
        r
    }

    /// How many properties were written.
    pub fn len(&self) -> (r: usize)
        ensures
            r == self.written().len(),
    {
        self.records.len()
    }
}

impl PropertyStore for MemoryPropertyStore {
    closed spec fn written(&self) -> Seq<(Seq<u8>, PropertyView)> {
        self.records@.map_values(|r: (Gid, Property)| (r.0@, r.1@))
    }

    open spec fn writes_succeed(&self) -> bool {
        true
    }

    fn set_property(&mut self, id: &Gid, label: &String, value: &GValue) -> (r: Result<Property, StoreError>) {
        let p = Property { label: label.clone(), value: value.duplicate() };
        let ghost before = self.written();
        self.records.push((id.duplicate(), p.duplicate()));
        assert(self.written() =~= before.push((id@, p@)));
        Ok(p)
    }
}

} // verus!
