//! A map keyed by 32-byte digests that keeps its keys in insertion order.

use vstd::prelude::*;
use vstd::bytes::{spec_u64_from_le_bytes, u64_from_le_bytes};
use vstd::slice::slice_subrange;
use std::collections::HashMap;
use vstd::pervasive::VecAdditionalExecFns;

verus! {

broadcast use vstd::std_specs::hash::group_hash_axioms;

/// The bucket a digest falls in: its first eight bytes.
pub open spec fn bucket_of(k: Seq<u8>) -> u64 {
    spec_u64_from_le_bytes(k.subrange(0, 8))
}

fn bucket_x(k: &[u8; 32]) -> (r: u64)
    ensures
        r == bucket_of(k@),
{
    let s: &[u8] = k;
    u64_from_le_bytes(slice_subrange(s, 0, 8))
}

/// Keys with values, in insertion order; each key once.
pub struct DigestMap<V> {
    items: Vec<([u8; 32], V)>,
    index: HashMap<u64, Vec<usize>>,
}

impl<V> DigestMap<V> {
    /// The keys in insertion order.
    pub closed spec fn keys(&self) -> Seq<Seq<u8>> {
        self.items@.map_values(|it: ([u8; 32], V)| it.0@)
    }

    /// The map itself.
    pub closed spec fn view(&self) -> Map<Seq<u8>, V> {
        Map::new(
            |k: Seq<u8>| exists|i: int| 0 <= i < self.items@.len() && self.items@[i].0@ == k,
            |k: Seq<u8>| self.items@[choose|i: int| 0 <= i < self.items@.len() && self.items@[i].0@ == k].1,
        )
    }

    pub closed spec fn wf(&self) -> bool {
        &&& forall|i: int, j: int|
            0 <= i < j < self.items@.len() ==> self.items@[i].0@ != self.items@[j].0@
        &&& forall|i: int|
            0 <= i < self.items@.len() ==> {
                let b = bucket_of((#[trigger] self.items@[i]).0@);
                self.index@.contains_key(b) && self.index@[b]@.contains(i as usize)
            }
        &&& forall|b: u64, p: usize|
            self.index@.contains_key(b) && #[trigger] self.index@[b]@.contains(p) ==> p < self.items@.len()
    }

    pub fn new() -> (r: DigestMap<V>)
        ensures
            r.wf(),
            r.view() == Map::<Seq<u8>, V>::empty(),
            r.keys() == Seq::<Seq<u8>>::empty(),
    {
        let r = DigestMap { items: Vec::new(), index: HashMap::new() };
        assert(r.view() =~= Map::<Seq<u8>, V>::empty());
        assert(r.keys() =~= Seq::<Seq<u8>>::empty());
        r
    }

    /// Where `k` is kept, if it is.
    fn position(&self, k: &[u8; 32]) -> (r: Option<usize>)
        requires
            self.wf(),
        ensures
            match r {
                Some(i) => i < self.items@.len() && self.items@[i as int].0@ == k@,
                None => forall|i: int| 0 <= i < self.items@.len() ==> self.items@[i].0@ != k@,
            },
    {
        let b = bucket_x(k);
        match self.index.get(&b) {
            None => {
                assert forall|i: int| 0 <= i < self.items@.len() implies self.items@[i].0@ != k@ by {
                    let _t = self.items@[i];
                }
                None
            },
            Some(ps) => {
                let _n = self.items.len();
                let mut j: usize = 0;
                while j < ps.len()
                    invariant
                        self.wf(),
                        self.items@.len() <= usize::MAX,
                        self.index@.contains_key(b),
                        ps@ == self.index@[b]@,
                        b == bucket_of(k@),
                        j <= ps@.len(),
                        forall|m: int| 0 <= m < j ==> self.items@[ps@[m] as int].0@ != k@,
                    decreases ps@.len() - j,
                {
                    let p = ps[j];
                    assert(self.index@[b]@.contains(p));
                    if bytes32_eq(&self.items[p].0, k) {
                        return Some(p);
                    }
                    j = j + 1;
                }
                assert forall|i: int| 0 <= i < self.items@.len() implies self.items@[i].0@ != k@ by {
                    let _t = self.items@[i];
                    if self.items@[i].0@ == k@ {
                        assert(self.index@[b]@.contains(i as usize));
                        let m = choose|m: int| 0 <= m < ps@.len() && ps@[m] == i as usize;
                    }
                }
                None
            },
        }
    }

    /// Whether `k` is kept.
    pub fn contains_key(&self, k: &[u8; 32]) -> (r: bool)
        requires
            self.wf(),
        ensures
            r == self.view().contains_key(k@),
    {
        match self.position(k) {
            Some(i) => {
                assert(self.view().contains_key(k@));
                true
            },
            None => false,
        }
    }

    /// The value kept under `k`.
    pub fn get(&self, k: &[u8; 32]) -> (r: Option<&V>)
        requires
            self.wf(),
        ensures
            match r {
                Some(v) => self.view().contains_key(k@) && self.view()[k@] == *v,
                None => !self.view().contains_key(k@),
            },
    {
        match self.position(k) {
            Some(i) => {
                assert(self.view().contains_key(k@));
                let ghost c = choose|c: int| 0 <= c < self.items@.len() && self.items@[c].0@ == k@;
                assert(c == i);
                Some(&self.items[i].1)
            },
            None => None,
        }
    }

    /// The value kept under the digest `k`, which may be of any length;
    /// only 32-byte keys are ever kept.
    pub fn get_slice(&self, k: &[u8]) -> (r: Option<&V>)
        requires
            self.wf(),
        ensures
            match r {
                Some(v) => self.view().contains_key(k@) && self.view()[k@] == *v,
                None => !self.view().contains_key(k@),
            },
    {
        if k.len() != 32 {
            assert(!self.view().contains_key(k@)) by {
                if self.view().contains_key(k@) {
                    let i = choose|i: int| 0 <= i < self.items@.len() && self.items@[i].0@ == k@;
                    assert(self.items@[i].0@.len() == 32);
                }
            }
            return None;
        }
        let mut arr = [0u8; 32];
        let mut i: usize = 0;
        while i < 32
            invariant
                k@.len() == 32,
                i <= 32,
                forall|j: int| 0 <= j < i ==> arr@[j] == k@[j],
            decreases 32 - i,
        {
            arr.set(i, k[i]);
            i = i + 1;
        }
        assert(arr@ =~= k@);
        self.get(&arr)
    }

    /// Keeps `v` under `k` unless `k` is kept already; returns whether it
    /// was new.
    pub fn insert_new(&mut self, k: [u8; 32], v: V) -> (r: bool)
        requires
            old(self).wf(),
        ensures
            final(self).wf(),
            r == !old(self).view().contains_key(k@),
            r ==> final(self).view() == old(self).view().insert(k@, v),
            r ==> final(self).keys() == old(self).keys().push(k@),
            !r ==> final(self).view() == old(self).view() && final(self).keys() == old(self).keys(),
    {
        if self.position(&k).is_some() {
            return false;
        }
        let n = self.items.len();
        let b = bucket_x(&k);
        let mut ps = match self.index.remove(&b) {
            Some(ps) => ps,
            None => Vec::new(),
        };
        ps.push(n);
        self.index.insert(b, ps);
        self.items.push((k, v));
        proof {
            let it = self.items@;
            assert(it.drop_last() == old(self).items@);
            assert forall|i: int, j: int| 0 <= i < j < it.len() implies it[i].0@ != it[j].0@ by {
                if j == n {
                    assert(old(self).items@[i] == it[i]);
                }
            }
            assert forall|i: int| 0 <= i < it.len() implies {
                let bb = bucket_of((#[trigger] it[i]).0@);
                self.index@.contains_key(bb) && self.index@[bb]@.contains(i as usize)
            } by {
                if i < n {
                    assert(old(self).items@[i] == it[i]);
                    let bb = bucket_of(it[i].0@);
                    if bb == b {
                        assert(self.index@[bb]@[self.index@[bb]@.len() - 1] == n);
                        let m = choose|m: int| 0 <= m < old(self).index@[bb]@.len() && old(self).index@[bb]@[m] == i as usize;
                        assert(self.index@[bb]@[m] == i as usize);
                    }
                } else {
                    assert(self.index@[b]@[self.index@[b]@.len() - 1] == n);
                }
            }
            assert forall|bb: u64, p: usize| self.index@.contains_key(bb) && #[trigger] self.index@[bb]@.contains(p) implies p < it.len() by {
                if bb == b {
                    let m = choose|m: int| 0 <= m < self.index@[bb]@.len() && self.index@[bb]@[m] == p;
                    if m < self.index@[bb]@.len() - 1 {
                        assert(old(self).index@.contains_key(bb));
                        assert(old(self).index@[bb]@[m] == p);
                        assert(old(self).index@[bb]@.contains(p));
                    }
                } else {
                    assert(old(self).index@[bb] == self.index@[bb]);
                }
            }
            assert(self.keys() =~= old(self).keys().push(k@));
            assert forall|key: Seq<u8>| #![auto] self.view().contains_key(key) == old(self).view().insert(k@, v).contains_key(key) by {
                if key != k@ && self.view().contains_key(key) {
                    let i = choose|i: int| 0 <= i < it.len() && it[i].0@ == key;
                    assert(old(self).items@[i] == it[i]);
                }
                if key != k@ && old(self).view().contains_key(key) {
                    let i = choose|i: int| 0 <= i < old(self).items@.len() && old(self).items@[i].0@ == key;
                    assert(it[i] == old(self).items@[i]);
                }
                if key == k@ {
                    assert(it[n as int].0@ == key);
                }
            }
            assert forall|key: Seq<u8>| #![auto] self.view().contains_key(key) implies self.view()[key] == old(self).view().insert(k@, v)[key] by {
                let c = choose|c: int| 0 <= c < it.len() && it[c].0@ == key;
                if key == k@ {
                    assert(it[n as int].0@ == key);
                    assert(c == n);
                } else {
                    let d = choose|d: int| 0 <= d < old(self).items@.len() && old(self).items@[d].0@ == key;
                    assert(it[d] == old(self).items@[d]);
                    assert(c == d);
                }
            }
            assert(self.view() =~= old(self).view().insert(k@, v));
        }
        true
    }

    /// Keeps `v` under `k`, replacing what was kept there; a new key goes
    /// last in insertion order. Returns whether the key was new.
    pub fn insert(&mut self, k: [u8; 32], v: V) -> (r: bool)
        requires
            old(self).wf(),
        ensures
            final(self).wf(),
            r == !old(self).view().contains_key(k@),
            final(self).view() == old(self).view().insert(k@, v),
            r ==> final(self).keys() == old(self).keys().push(k@),
            !r ==> final(self).keys() == old(self).keys(),
    {
        match self.position(&k) {
            None => self.insert_new(k, v),
            Some(i) => {
                let ghost it0 = self.items@;
                self.items.set(i, (k, v));
                proof {
                    let it = self.items@;
                    assert(self.index@ == old(self).index@);
                    assert forall|a: int, b: int| 0 <= a < b < it.len() implies it[a].0@ != it[b].0@ by {
                        assert(it[a].0@ == it0[a].0@ && it[b].0@ == it0[b].0@);
                    }
                    assert forall|a: int| 0 <= a < it.len() implies {
                        let bb = bucket_of((#[trigger] it[a]).0@);
                        self.index@.contains_key(bb) && self.index@[bb]@.contains(a as usize)
                    } by {
                        assert(it[a].0@ == it0[a].0@);
                        let _t = it0[a];
                    }
                    assert(self.keys() =~= old(self).keys());
                    assert forall|key: Seq<u8>| #![auto] self.view().contains_key(key) == old(self).view().insert(k@, v).contains_key(key) by {
                        if self.view().contains_key(key) {
                            let c = choose|c: int| 0 <= c < it.len() && it[c].0@ == key;
                            assert(it0[c].0@ == key);
                        }
                        if old(self).view().contains_key(key) {
                            let c = choose|c: int| 0 <= c < it0.len() && it0[c].0@ == key;
                            assert(it[c].0@ == key);
                        }
                        if key == k@ {
                            assert(it[i as int].0@ == key);
                        }
                    }
                    assert forall|key: Seq<u8>| #![auto] self.view().contains_key(key) implies self.view()[key] == old(self).view().insert(k@, v)[key] by {
                        let c = choose|c: int| 0 <= c < it.len() && it[c].0@ == key;
                        if key == k@ {
                            assert(it[i as int].0@ == key);
                            assert(c == i);
                        } else {
                            let d = choose|d: int| 0 <= d < it0.len() && it0[d].0@ == key;
                            assert(it[d] == it0[d]);
                            assert(c == d);
                        }
                    }
                    assert(self.view() =~= old(self).view().insert(k@, v));
                }
                false
            },
        }
    }

    /// How many keys are kept.
    pub fn len(&self) -> (r: usize)
        ensures
            r == self.keys().len(),
    {
        self.items.len()
    }

    /// The key at position `i` in insertion order, with its value.
    pub fn entry_at(&self, i: usize) -> (r: (&[u8; 32], &V))
        requires
            self.wf(),
            i < self.keys().len(),
        ensures
            r.0@ == self.keys()[i as int],
            self.view().contains_key(r.0@),
            self.view()[r.0@] == *r.1,
    {
        let it = &self.items[i];
        assert(self.view().contains_key(it.0@));
        let ghost c = choose|c: int| 0 <= c < self.items@.len() && self.items@[c].0@ == it.0@;
        assert(c == i);
        (&it.0, &it.1)
    }
}

/// Whether two digests are equal.
pub fn bytes32_eq(a: &[u8; 32], b: &[u8; 32]) -> (r: bool)
    ensures
        r == (a@ == b@),
{
    let mut i: usize = 0;
    while i < 32
        invariant
            i <= 32,
            a@.len() == 32,
            b@.len() == 32,
            forall|k: int| 0 <= k < i ==> a@[k] == b@[k],
        decreases 32 - i,
    {
        if a[i] != b[i] {
            return false;
        }
        i = i + 1;
    }
    assert(a@ =~= b@);
    true
}

} // verus!
