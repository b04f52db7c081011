use vstd::prelude::*;

use crate::map::{MapError, MapIterator, E2BIG};
use vstd::slice::slice_to_vec;

verus! {

/// A (key, value) pair of byte records.
pub type Record = (Seq<u8>, Seq<u8>);

pub open spec fn has_key(p: Seq<Record>, k: Seq<u8>) -> bool {
    exists|i: int| 0 <= i < p.len() && (#[trigger] p[i]).0 == k
}

pub open spec fn index_of(p: Seq<Record>, k: Seq<u8>) -> int {
    choose|i: int| 0 <= i < p.len() && (#[trigger] p[i]).0 == k
}

pub open spec fn unique_keys(p: Seq<Record>) -> bool {
    forall|i: int, j: int| 0 <= i < p.len() && 0 <= j < p.len() && (#[trigger] p[i]).0 == (
    #[trigger] p[j]).0 ==> i == j
}

/// What a lookup of `k` finds.
pub open spec fn lookup_of(p: Seq<Record>, k: Seq<u8>) -> Option<Seq<u8>> {
    if has_key(p, k) {
        Some(p[index_of(p, k)].1)
    } else {
        None
    }
}

/// The contents after writing `v` under `k`: replaced in place, or added last.
pub open spec fn updated(p: Seq<Record>, k: Seq<u8>, v: Seq<u8>) -> Seq<Record> {
    if has_key(p, k) {
        p.update(index_of(p, k), (k, v))
    } else {
        p.push((k, v))
    }
}

/// The contents after deleting `k`; the others keep their order.
pub open spec fn deleted(p: Seq<Record>, k: Seq<u8>) -> Seq<Record> {
    if has_key(p, k) {
        p.remove(index_of(p, k))
    } else {
        p
    }
}

pub open spec fn zeros(n: nat) -> Seq<u8> {
    Seq::new(n, |i: int| 0u8)
}

/// After a write, a lookup of the same key gives the value written last; after a
/// delete it finds nothing; and keys stay unique throughout.
pub proof fn lemma_lookup_after_write(p: Seq<Record>, k: Seq<u8>, v: Seq<u8>)
    requires
        unique_keys(p),
    ensures
        unique_keys(updated(p, k, v)),
        lookup_of(updated(p, k, v), k) == Some(v),
        unique_keys(deleted(p, k)),
        lookup_of(deleted(p, k), k) is None,
{
    let u = updated(p, k, v);
    if has_key(p, k) {
        let i = index_of(p, k);
        assert(u[i].0 == k);
        assert forall|a: int, b: int| 0 <= a < u.len() && 0 <= b < u.len() && (#[trigger] u[a]).0 == (
        #[trigger] u[b]).0 implies a == b by {
            assert(p[a].0 == u[a].0 && p[b].0 == u[b].0);
        }
        let d = deleted(p, k);
        assert forall|a: int, b: int| 0 <= a < d.len() && 0 <= b < d.len() && (#[trigger] d[a]).0 == (
        #[trigger] d[b]).0 implies a == b by {
            let a2 = if a < i { a } else { a + 1 };
            let b2 = if b < i { b } else { b + 1 };
            assert(d[a] == p[a2] && d[b] == p[b2]);
        }
        if has_key(d, k) {
            let j = choose|j: int| 0 <= j < d.len() && (#[trigger] d[j]).0 == k;
            let j2 = if j < i { j } else { j + 1 };
            assert(d[j] == p[j2]);
        }
    } else {
        assert(u[p.len() as int].0 == k);
        assert forall|a: int, b: int| 0 <= a < u.len() && 0 <= b < u.len() && (#[trigger] u[a]).0 == (
        #[trigger] u[b]).0 implies a == b by {
            if a < p.len() && b == p.len() {
                assert(p[a].0 == k);
            }
            if b < p.len() && a == p.len() {
                assert(p[b].0 == k);
            }
        }
    }
    assert(has_key(u, k));
}

pub(crate) fn bytes_equal(a: &[u8], b: &[u8]) -> (r: bool)
    ensures
        r == (a@ == b@),
{
    if a.len() != b.len() {
        return false;
    }
    let mut i: usize = 0;
    while i < a.len()
        invariant
            i <= a@.len(),
            a@.len() == b@.len(),
            forall|j: int| 0 <= j < i ==> a@[j] == b@[j],
        decreases a@.len() - i,
    {
        if a[i] != b[i] {
            return false;
        }
        i += 1;
    }
    assert(a@ =~= b@);
    true
}

/// An in-process hash table with the keyed-access behaviour of a kernel hash map:
/// fixed key and value sizes, a bound on the number of entries, and a next-key walk
/// in a fixed internal order (here: order of first insertion).
pub struct MemMap {
    key_size: usize,
    value_size: usize,
    max_entries: usize,
    entries: Vec<(Vec<u8>, Vec<u8>)>,
}

impl MemMap {
    /// The records held, in walk order.
    pub closed spec fn contents(&self) -> Seq<Record> {
        self.entries@.map_values(|e: (Vec<u8>, Vec<u8>)| (e.0@, e.1@))
    }

    pub closed spec fn spec_key_size(&self) -> nat {
        self.key_size as nat
    }

    pub closed spec fn spec_value_size(&self) -> nat {
        self.value_size as nat
    }

    pub closed spec fn spec_max_entries(&self) -> nat {
        self.max_entries as nat
    }

    pub closed spec fn wf(&self) -> bool {
        &&& unique_keys(self.contents())
        &&& self.contents().len() <= self.max_entries
        &&& forall|i: int|
            0 <= i < self.contents().len() ==> (#[trigger] self.contents()[i]).0.len()
                == self.key_size && self.contents()[i].1.len() == self.value_size
    }

    pub fn new(key_size: usize, value_size: usize, max_entries: usize) -> (r: MemMap)
        ensures
            r.wf(),
            r.contents().len() == 0,
            r.spec_key_size() == key_size,
            r.spec_value_size() == value_size,
            r.spec_max_entries() == max_entries,
    {
        let r = MemMap { key_size, value_size, max_entries, entries: Vec::new() };
        assert(r.contents() =~= Seq::<Record>::empty());
        r
    }

    pub fn key_size(&self) -> (r: usize)
        ensures
            r == self.spec_key_size(),
    {
        self.key_size
    }

    pub fn value_size(&self) -> (r: usize)
        ensures
            r == self.spec_value_size(),
    {
        self.value_size
    }

    fn find(&self, key: &[u8]) -> (r: Option<usize>)
        requires
            self.wf(),
        ensures
            r matches Some(i) ==> i < self.contents().len() && self.contents()[i as int].0 == key@
                && index_of(self.contents(), key@) == i,
            r is None ==> !has_key(self.contents(), key@),
    {
        let mut i: usize = 0;
        while i < self.entries.len()
            invariant
                self.wf(),
                i <= self.entries@.len(),
                forall|j: int| 0 <= j < i ==> (#[trigger] self.contents()[j]).0 != key@,
            decreases self.entries@.len() - i,
        {
            if bytes_equal(self.entries[i].0.as_slice(), key) {
                proof {
                    let c = self.contents();
                    assert(c[i as int].0 == key@);
                    assert(has_key(c, key@));
                    let k = index_of(c, key@);
                    assert(c[k].0 == key@);
                }
                return Some(i);
            }
            i += 1;
        }
        None
    }

    /// Reads the value stored under `key`.
    pub fn lookup(&self, key: &[u8]) -> (r: Result<Vec<u8>, MapError>)
        requires
            self.wf(),
            key@.len() == self.spec_key_size(),
        ensures
            match lookup_of(self.contents(), key@) {
                Some(v) => r matches Ok(x) && x@ == v,
                None => r == Err::<Vec<u8>, MapError>(MapError::NotFound),
            },
    {
        match self.find(key) {
            Some(i) => Ok(self.entries[i].1.clone()),
            None => Err(MapError::NotFound),
        }
    }

    /// Creates or replaces the entry under `key`. A new key fails when the table is full.
    pub fn update(&mut self, key: &[u8], value: &[u8]) -> (r: Result<(), MapError>)
        requires
            old(self).wf(),
            key@.len() == old(self).spec_key_size(),
            value@.len() == old(self).spec_value_size(),
        ensures
            final(self).wf(),
            final(self).spec_key_size() == old(self).spec_key_size(),
            final(self).spec_value_size() == old(self).spec_value_size(),
            final(self).spec_max_entries() == old(self).spec_max_entries(),
            (has_key(old(self).contents(), key@) || old(self).contents().len()
                < old(self).spec_max_entries()) ==> r is Ok && final(self).contents() == updated(
                old(self).contents(),
                key@,
                value@,
            ),
            !(has_key(old(self).contents(), key@) || old(self).contents().len()
                < old(self).spec_max_entries()) ==> r == Err::<(), MapError>(MapError::Io(E2BIG))
                && final(self).contents() == old(self).contents(),
    {
        let ghost p = self.contents();
        proof {
            lemma_lookup_after_write(p, key@, value@);
        }
        match self.find(key) {
            Some(i) => {
                let k = slice_to_vec(key);
                let v = slice_to_vec(value);
                self.entries.set(i, (k, v));
                assert(self.contents() =~= updated(p, key@, value@));
                Ok(())
            },
            None => {
                if self.entries.len() >= self.max_entries {
                    return Err(MapError::Io(E2BIG));
                }
                self.entries.push((slice_to_vec(key), slice_to_vec(value)));
                assert(self.contents() =~= updated(p, key@, value@));
                Ok(())
            },
        }
    }

    /// Removes the entry under `key`; the others keep their walk order.
    pub fn delete(&mut self, key: &[u8]) -> (r: Result<(), MapError>)
        requires
            old(self).wf(),
            key@.len() == old(self).spec_key_size(),
        ensures
            final(self).wf(),
            final(self).spec_key_size() == old(self).spec_key_size(),
            final(self).spec_value_size() == old(self).spec_value_size(),
            final(self).spec_max_entries() == old(self).spec_max_entries(),
            final(self).contents() == deleted(old(self).contents(), key@),
            has_key(old(self).contents(), key@) <==> r is Ok,
            r is Err ==> r == Err::<(), MapError>(MapError::NotFound),
    {
        let ghost p = self.contents();
        proof {
            lemma_lookup_after_write(p, key@, seq![]);
        }
        match self.find(key) {
            Some(i) => {
                self.entries.remove(i);
                assert(self.contents() =~= deleted(p, key@));
                Ok(())
            },
            None => Err(MapError::NotFound),
        }
    }

    /// The key after `key` in walk order; an absent key (such as all zeros) asks for
    /// the first one. Past the last key the walk reports its end.
    pub fn get_next_key(&self, key: &[u8]) -> (r: Result<Vec<u8>, MapError>)
        requires
            self.wf(),
            key@.len() == self.spec_key_size(),
        ensures
            ({
                let c = self.contents();
                let n: int = if has_key(c, key@) {
                    index_of(c, key@) + 1
                } else {
                    0
                };
                &&& n < c.len() ==> (r matches Ok(k) && k@ == c[n].0)
                &&& n >= c.len() ==> r == Err::<Vec<u8>, MapError>(MapError::EndOfEnumeration)
            }),
    {
        let n: usize = match self.find(key) {
            Some(i) => i + 1,
            None => 0,
        };
        if n < self.entries.len() {
            Ok(self.entries[n].0.clone())
        } else {
            Err(MapError::EndOfEnumeration)
        }
    }

    /// Walks the table with a `MapIterator` from the all-zero key, looking up each key.
    /// With no all-zero key in the table (that key is the walk's starting point), the walk
    /// meets every entry exactly once, in the table's order, and ends; so two walks of an
    /// unchanged table give the same records.
    pub fn walk(&self) -> (r: Result<Vec<(Vec<u8>, Vec<u8>)>, MapError>)
        requires
            self.wf(),
            !has_key(self.contents(), zeros(self.spec_key_size())),
        ensures
            r matches Ok(v) && v@.map_values(|e: (Vec<u8>, Vec<u8>)| (e.0@, e.1@))
                == self.contents(),
    {
        let mut it = MapIterator::new(self.key_size);
        let mut out: Vec<(Vec<u8>, Vec<u8>)> = Vec::new();
        let ghost c = self.contents();
        loop
            invariant
                self.wf(),
                c == self.contents(),
                !has_key(c, zeros(self.spec_key_size())),
                out@.len() <= c.len(),
                it.spec_key().len() == self.spec_key_size(),
                out@.len() == 0 ==> it.spec_key() == zeros(self.spec_key_size()),
                out@.len() > 0 ==> it.spec_key() == c[out@.len() - 1].0,
                forall|j: int|
                    0 <= j < out@.len() ==> (#[trigger] out@[j]).0@ == c[j].0 && out@[j].1@ == c[j].1,
            ensures
                out@.len() == c.len(),
                forall|j: int|
                    0 <= j < out@.len() ==> (#[trigger] out@[j]).0@ == c[j].0 && out@[j].1@ == c[j].1,
            decreases c.len() - out@.len(),
        {
            let ghost n: int = out@.len() as int;
            proof {
                if n > 0 {
                    assert(c[n - 1].0 == it.spec_key());
                    assert(has_key(c, it.spec_key()));
                    let k = index_of(c, it.spec_key());
                    assert(c[k].0 == it.spec_key());
                }
            }
            let next = self.get_next_key(it.key().as_slice());
            let step = it.on_next_key(next);
            let k = match step {
                Ok(Some(k)) => k,
                Ok(None) => {
                    break ;
                },
                Err(e) => {
                    return Err(e);
                },
            };
            proof {
                assert(k@ == c[n].0);
                assert(has_key(c, k@));
                let kk = index_of(c, k@);
                assert(c[kk].0 == k@);
                assert(kk == n);
            }
            let value = self.lookup(k.as_slice());
            let got = it.on_lookup(k, value);
            match got {
                Ok(Some(pair)) => {
                    out.push(pair);
                },
                Ok(None) => {
                    return Err(MapError::NotFound);
                },
                Err(e) => {
                    return Err(e);
                },
            }
        }
        assert(out@.map_values(|e: (Vec<u8>, Vec<u8>)| (e.0@, e.1@)) =~= c);
        Ok(out)
    }
}

} // verus!
