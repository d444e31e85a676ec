//! The sparse index from turns to snapshot roots, persisted as fixed
//! 44-byte records `u64 turn_id | 32-byte root hash | u32 crc32`, and the
//! inheritance of roots along the parent chain of turns.

use vstd::prelude::*;
use vstd::bytes::*;
use vstd::slice::slice_subrange;
use std::collections::HashMap;
use crate::digest_map::DigestMap;
use vstd::std_specs::iter::IteratorSpec;

verus! {

/// Bytes in one index record.
pub const RECORD_LEN: usize = 44;

/// What `crc32fast::hash` returns for the given bytes.
pub uninterp spec fn crc32_of(data: Seq<u8>) -> u32;

/// Relies on `crc32fast::hash`: the CRC-32 (IEEE) checksum of `data`.
#[verifier::external_body]
fn crc32(data: &[u8]) -> (r: u32)
    ensures
        r == crc32_of(data@),
{
    crc32fast::hash(data)
}

/// The 40 checksummed bytes of a record.
pub open spec fn record_body(turn_id: u64, hash: Seq<u8>) -> Seq<u8> {
    spec_u64_to_le_bytes(turn_id) + hash
}

/// The bytes of the record attaching `hash` to `turn_id`.
pub open spec fn record_bytes(turn_id: u64, hash: Seq<u8>) -> Seq<u8> {
    record_body(turn_id, hash) + spec_u32_to_le_bytes(crc32_of(record_body(turn_id, hash)))
}

/// A complete record whose checksum matches its first 40 bytes.
pub open spec fn record_ok(r: Seq<u8>) -> bool {
    r.len() >= RECORD_LEN && spec_u32_from_le_bytes(r.subrange(40, 44)) == crc32_of(r.subrange(0, 40))
}

/// How many good records the log starts with.
pub open spec fn good_records(s: Seq<u8>) -> nat
    decreases s.len(),
{
    if s.len() < RECORD_LEN || !record_ok(s) {
        0
    } else {
        1 + good_records(s.skip(RECORD_LEN as int))
    }
}

/// The turn of record `i`.
pub open spec fn turn_at(s: Seq<u8>, i: int) -> u64 {
    spec_u64_from_le_bytes(s.subrange(44 * i, 44 * i + 8))
}

/// The root hash of record `i`.
pub open spec fn root_at(s: Seq<u8>, i: int) -> Seq<u8> {
    s.subrange(44 * i + 8, 44 * i + 40)
}

/// The mapping after applying the first `k` records in order: the last
/// record of a turn wins.
pub open spec fn replay(s: Seq<u8>, k: nat) -> Map<u64, Seq<u8>>
    decreases k,
{
    if k == 0 {
        Map::empty()
    } else {
        replay(s, (k - 1) as nat).insert(turn_at(s, k - 1), root_at(s, k - 1))
    }
}

/// The turn store as the index reads it: each known turn's parent.
pub struct TurnStore {
    parents: HashMap<u64, u64>,
}

/// A turn as the turn store returns it.
#[derive(Debug, Clone, Copy, PartialEq, Eq, Structural)]
pub struct TurnRecord {
    pub turn_id: u64,
    pub parent_turn_id: u64,
}

impl TurnStore {
    pub closed spec fn view(&self) -> Map<u64, u64> {
        self.parents@
    }

    /// A turn store knows finitely many turns.
    pub proof fn lemma_finite(&self)
        ensures
            self.view().dom().finite(),
    {
        vstd::std_specs::hash::axiom_hashmap_view_finite_dom(self.parents);
    }

    pub fn new() -> (r: TurnStore)
        ensures
            r.view() == Map::<u64, u64>::empty(),
    {
        TurnStore { parents: HashMap::new() }
    }

    /// Records `turn_id` with its parent (0 for none).
    pub fn insert(&mut self, turn_id: u64, parent_turn_id: u64)
        ensures
            final(self).view() == old(self).view().insert(turn_id, parent_turn_id),
    {
        self.parents.insert(turn_id, parent_turn_id);
    }

    /// The turn `turn_id`, if the store knows it.
    pub fn get_turn(&self, turn_id: u64) -> (r: Option<TurnRecord>)
        ensures
            match r {
                Some(t) => self.view().contains_key(turn_id) && t.turn_id == turn_id && t.parent_turn_id
                    == self.view()[turn_id],
                None => !self.view().contains_key(turn_id),
            },
    {
        match self.parents.get(&turn_id) {
            Some(p) => Some(TurnRecord { turn_id, parent_turn_id: *p }),
            None => None,
        }
    }

    pub fn len(&self) -> (r: usize)
        ensures
            r == self.view().len(),
    {
        self.parents.len()
    }
}

/// The root found by walking up from `cur` for at most `fuel` turns: the
/// first turn on the chain that the store knows and that has a root. The
/// walk stops at turn 0 and at a turn the store does not know.
pub open spec fn chain_root(roots: Map<u64, Seq<u8>>, parents: Map<u64, u64>, cur: u64, fuel: nat) -> Option<Seq<u8>>
    decreases fuel,
{
    if fuel == 0 || cur == 0 || !parents.contains_key(cur) {
        None
    } else if roots.contains_key(cur) {
        Some(roots[cur])
    } else {
        chain_root(roots, parents, parents[cur], (fuel - 1) as nat)
    }
}

/// The root of `t`: its own, else the first ancestor's. A chain longer than
/// the store has turns repeats itself and yields none.
pub open spec fn inherited_root(roots: Map<u64, Seq<u8>>, parents: Map<u64, u64>, t: u64) -> Option<Seq<u8>> {
    if roots.contains_key(t) {
        Some(roots[t])
    } else {
        chain_root(roots, parents, t, parents.len() + 1)
    }
}

/// Size figures of the index.
#[derive(Debug, Clone, Copy, PartialEq, Eq, Structural)]
pub struct FsRootsStats {
    pub entries_total: usize,
    pub file_bytes: u64,
    /// Bytes of all blobs the snapshots reference, computed elsewhere.
    pub content_bytes: u64,
}

/// The in-memory index from turn to snapshot root hash.
pub struct FsRootsIndex {
    roots: HashMap<u64, [u8; 32]>,
}

impl FsRootsIndex {
    /// Each turn's root hash.
    pub closed spec fn view(&self) -> Map<u64, Seq<u8>> {
        Map::new(|k: u64| self.roots@.contains_key(k), |k: u64| self.roots@[k]@)
    }

    pub fn new() -> (r: FsRootsIndex)
        ensures
            r.view() == Map::<u64, Seq<u8>>::empty(),
    {
        let r = FsRootsIndex { roots: HashMap::new() };
        assert(r.view() =~= Map::<u64, Seq<u8>>::empty());
        r
    }

    /// Rebuilds the index from the bytes of the record log. Returns the
    /// index of the good records and the length the log keeps: loading stops
    /// at the first record that is cut short or whose checksum fails, and
    /// the log is to be truncated there.
    pub fn load(data: &[u8]) -> (r: (FsRootsIndex, usize))
        ensures
            r.1 == RECORD_LEN * good_records(data@),
            r.0.view() == replay(data@, good_records(data@)),
    {
        let total = data.len();
        let mut index = FsRootsIndex::new();
        let mut pos: usize = 0;
        let ghost mut count: nat = 0;
        assert(data@.skip(0) =~= data@);
        assert(index.view() =~= replay(data@, 0));
        while total - pos >= RECORD_LEN
            invariant
                total == data@.len(),
                pos == RECORD_LEN * count,
                pos <= total,
                good_records(data@) == count + good_records(data@.skip(pos as int)),
                index.view() == replay(data@, count),
            ensures
                pos == RECORD_LEN * count,
                good_records(data@) == count,
                index.view() == replay(data@, count),
            decreases total - pos,
        {
            let stored = u32_from_le_bytes(slice_subrange(data, pos + 40, pos + 44));
            let actual = crc32(slice_subrange(data, pos, pos + 40));
            let ghost s = data@.skip(pos as int);
            assert(data@.subrange(pos + 40, pos + 44) =~= s.subrange(40, 44));
            assert(data@.subrange(pos as int, pos + 40) =~= s.subrange(0, 40));
            if stored != actual {
                assert(!record_ok(s));
                break;
            }
            let turn_id = u64_from_le_bytes(slice_subrange(data, pos, pos + 8));
            let hash = array32(slice_subrange(data, pos + 8, pos + 40));
            assert(data@.subrange(pos as int, pos + 8) =~= data@.subrange(44 * (count as int), 44 * (count as int) + 8));
            assert(hash@ =~= root_at(data@, count as int));
            index.attach(turn_id, hash);
            assert(s.skip(RECORD_LEN as int) =~= data@.skip(pos + RECORD_LEN));
            proof {
                count = count + 1;
            }
            pos = pos + RECORD_LEN;
        }
        (index, pos)
    }

    /// The record to append to the log for `attach(turn_id, hash)`.
    pub fn encode_record(turn_id: u64, hash: &[u8; 32]) -> (r: Vec<u8>)
        ensures
            r@ == record_bytes(turn_id, hash@),
    {
        let mut out = u64_to_le_bytes(turn_id);
        let mut i: usize = 0;
        while i < 32
            invariant
                i <= 32,
                out@ == spec_u64_to_le_bytes(turn_id) + hash@.subrange(0, i as int),
            decreases 32 - i,
        {
            out.push(hash[i]);
            assert(out@ =~= spec_u64_to_le_bytes(turn_id) + hash@.subrange(0, i + 1));
            i = i + 1;
        }
        assert(hash@.subrange(0, 32) =~= hash@);
        let crc = crc32(out.as_slice());
        let tail = u32_to_le_bytes(crc);
        let ghost body = out@;
        out.extend_from_slice(tail.as_slice());
        assert(out@ =~= record_bytes(turn_id, hash@));
        out
    }

    /// Attaches `hash` to `turn_id` in memory; a later attach wins.
    pub fn attach(&mut self, turn_id: u64, hash: [u8; 32])
        ensures
            final(self).view() == old(self).view().insert(turn_id, hash@),
    {
        self.roots.insert(turn_id, hash);
        assert(self.view() =~= old(self).view().insert(turn_id, hash@));
    }

    /// The root attached to `turn_id` itself.
    pub fn get(&self, turn_id: u64) -> (r: Option<[u8; 32]>)
        ensures
            match r {
                Some(h) => self.view().contains_key(turn_id) && self.view()[turn_id] == h@,
                None => !self.view().contains_key(turn_id),
            },
    {
        match self.roots.get(&turn_id) {
            Some(h) => Some(*h),
            None => None,
        }
    }

    /// The root of `turn_id`, or of its nearest ancestor that has one.
    pub fn get_inherited(&self, turn_id: u64, turn_store: &TurnStore) -> (r: Option<[u8; 32]>)
        ensures
            match r {
                Some(h) => inherited_root(self.view(), turn_store.view(), turn_id) == Some(h@),
                None => inherited_root(self.view(), turn_store.view(), turn_id) is None,
            },
    {
        if let Some(h) = self.get(turn_id) {
            return Some(h);
        }
        let steps = turn_store.len();
        let mut fuel: u128 = steps as u128 + 1;
        let mut current = turn_id;
        while fuel > 0 && current != 0
            invariant
                !self.view().contains_key(turn_id),
                chain_root(self.view(), turn_store.view(), turn_id, turn_store.view().len() + 1) == chain_root(
                    self.view(),
                    turn_store.view(),
                    current,
                    fuel as nat,
                ),
            decreases fuel,
        {
            match turn_store.get_turn(current) {
                Some(turn) => {
                    if let Some(h) = self.get(turn.turn_id) {
                        return Some(h);
                    }
                    current = turn.parent_turn_id;
                },
                None => {
                    return None;
                },
            }
            fuel = fuel - 1;
        }
        None
    }

    /// Every attached root, one per turn, in the map's own order.
    fn all_roots(&self) -> (r: Vec<[u8; 32]>)
        ensures
            forall|i: int| 0 <= i < r@.len() ==> self.view().values().contains((#[trigger] r@[i])@),
            forall|v: Seq<u8>| #[trigger] self.view().values().contains(v) ==> exists|i: int| 0 <= i < r@.len() && r@[i]@ == v,
    {
        let mut out: Vec<[u8; 32]> = Vec::new();
        let ghost all: Seq<[u8; 32]> = IteratorSpec::remaining(&vstd::std_specs::hash::spec_values_iter(&self.roots)).unref();
        assert(all.to_set() == self.roots@.values());
        for h in iter: self.roots.values()
            invariant
                iter.seq().unref() == all,
                out@ == all.subrange(0, iter.index()),
        {
            let ghost k = iter.index();
            assert(all[k] == *h);
            out.push(*h);
            assert(out@ =~= all.subrange(0, k + 1));
        }
        proof {
            assert(out@ =~= all);
            assert forall|i: int| 0 <= i < out@.len() implies self.view().values().contains((#[trigger] out@[i])@) by {
                assert(all.to_set().contains(all[i]));
                assert(self.roots@.values().contains(all[i]));
                let t = choose|t: u64| self.roots@.contains_key(t) && self.roots@[t] == all[i];
                assert(self.view().contains_key(t) && self.view()[t] == out@[i]@);
            }
            assert forall|v: Seq<u8>| #[trigger] self.view().values().contains(v) implies exists|i: int| 0 <= i < out@.len() && out@[i]@ == v by {
                let t = choose|t: u64| self.view().contains_key(t) && self.view()[t] == v;
                assert(self.roots@.values().contains(self.roots@[t]));
                assert(all.to_set().contains(self.roots@[t]));
                let i = choose|i: int| 0 <= i < all.len() && all[i] == self.roots@[t];
                assert(out@[i]@ == v);
            }
        }
        out
    }

    /// The distinct root hashes attached to turns, each once.
    pub fn unique_roots(&self) -> (r: Vec<[u8; 32]>)
        ensures
            forall|i: int| 0 <= i < r@.len() ==> self.view().values().contains((#[trigger] r@[i])@),
            forall|v: Seq<u8>| #[trigger] self.view().values().contains(v) ==> exists|i: int| 0 <= i < r@.len() && r@[i]@ == v,
            forall|i: int, j: int| 0 <= i < j < r@.len() ==> r@[i]@ != r@[j]@,
    {
        let all = self.all_roots();
        let mut seen: DigestMap<()> = DigestMap::new();
        let mut out: Vec<[u8; 32]> = Vec::new();
        let mut k: usize = 0;
        while k < all.len()
            invariant
                k <= all@.len(),
                seen.wf(),
                forall|i: int| 0 <= i < all@.len() ==> self.view().values().contains((#[trigger] all@[i])@),
                forall|v: Seq<u8>| #[trigger] self.view().values().contains(v) ==> exists|i: int| 0 <= i < all@.len() && all@[i]@ == v,
                forall|i: int| 0 <= i < out@.len() ==> seen.view().contains_key((#[trigger] out@[i])@),
                forall|x: Seq<u8>| #[trigger] seen.view().contains_key(x) ==> exists|i: int| 0 <= i < out@.len() && out@[i]@ == x,
                forall|i: int| 0 <= i < out@.len() ==> self.view().values().contains((#[trigger] out@[i])@),
                forall|j: int| 0 <= j < k ==> seen.view().contains_key((#[trigger] all@[j])@),
                forall|i: int, j: int| 0 <= i < j < out@.len() ==> out@[i]@ != out@[j]@,
            decreases all@.len() - k,
        {
            let h = all[k];
            let ghost before = out@;
            let ghost seen_before = seen.view();
            if seen.insert_new(h, ()) {
                out.push(h);
                proof {
                    assert(out@[before.len() as int] == h);
                    assert forall|i: int| 0 <= i < out@.len() implies seen.view().contains_key((#[trigger] out@[i])@) by {
                        if i < before.len() {
                            assert(out@[i] == before[i]);
                        }
                    }
                    assert forall|i: int| 0 <= i < out@.len() implies self.view().values().contains((#[trigger] out@[i])@) by {
                        if i < before.len() {
                            assert(out@[i] == before[i]);
                        } else {
                            assert(self.view().values().contains(all@[k as int]@));
                        }
                    }
                    assert forall|x: Seq<u8>| #[trigger] seen.view().contains_key(x) implies exists|i: int| 0 <= i < out@.len() && out@[i]@ == x by {
                        if x != h@ {
                            assert(seen_before.contains_key(x));
                            let i = choose|i: int| 0 <= i < before.len() && before[i]@ == x;
                            assert(out@[i] == before[i]);
                        } else {
                            assert(out@[before.len() as int]@ == x);
                        }
                    }
                    assert forall|i: int, j: int| 0 <= i < j < out@.len() implies out@[i]@ != out@[j]@ by {
                        if j == before.len() {
                            assert(out@[i] == before[i]);
                            assert(seen_before.contains_key(before[i]@));
                        } else {
                            assert(out@[i] == before[i] && out@[j] == before[j]);
                        }
                    }
                    assert forall|j: int| 0 <= j < k + 1 implies seen.view().contains_key((#[trigger] all@[j])@) by {
                        if j < k {
                            assert(seen_before.contains_key(all@[j]@));
                        }
                    }
                }
            } else {
                proof {
                    assert forall|j: int| 0 <= j < k + 1 implies seen.view().contains_key((#[trigger] all@[j])@) by {
                        if j == k {
                            assert(all@[j] == h);
                        }
                    }
                }
            }
            k = k + 1;
        }
        proof {
            assert forall|v: Seq<u8>| #[trigger] self.view().values().contains(v) implies exists|i: int| 0 <= i < out@.len() && out@[i]@ == v by {
                let j = choose|j: int| 0 <= j < all@.len() && all@[j]@ == v;
                assert(seen.view().contains_key(all@[j]@));
            }
        }
        out
    }

    /// Whether `turn_id` has a root, its own or inherited.
    pub fn has_snapshot(&self, turn_id: u64, turn_store: &TurnStore) -> (r: bool)
        ensures
            r == inherited_root(self.view(), turn_store.view(), turn_id) is Some,
    {
        self.get_inherited(turn_id, turn_store).is_some()
    }

    /// Counts of the index; `file_bytes` is the current length of the log.
    pub fn stats(&self, file_bytes: u64) -> (r: FsRootsStats)
        ensures
            r.entries_total == self.view().len(),
            r.file_bytes == file_bytes,
            r.content_bytes == 0,
    {
        assert(self.view().dom() =~= self.roots@.dom());
        FsRootsStats { entries_total: self.roots.len(), file_bytes, content_bytes: 0 }
    }
}

/// Attaching two roots to one turn leaves the second.
pub proof fn lemma_last_write_wins(index: Map<u64, Seq<u8>>, t: u64, h1: Seq<u8>, h2: Seq<u8>)
    ensures
        index.insert(t, h1).insert(t, h2).contains_key(t),
        index.insert(t, h1).insert(t, h2)[t] == h2,
{
}

proof fn lemma_good_concat(l: Seq<u8>, x: Seq<u8>)
    requires
        l.len() == RECORD_LEN * good_records(l),
    ensures
        good_records(l + x) == good_records(l) + good_records(x),
    decreases l.len(),
{
    if l.len() == 0 {
        assert(l + x =~= x);
    } else {
        assert((l + x).subrange(40, 44) =~= l.subrange(40, 44));
        assert((l + x).subrange(0, 40) =~= l.subrange(0, 40));
        assert((l + x).skip(RECORD_LEN as int) =~= l.skip(RECORD_LEN as int) + x);
        lemma_good_concat(l.skip(RECORD_LEN as int), x);
    }
}

proof fn lemma_replay_prefix(l: Seq<u8>, x: Seq<u8>, k: nat)
    requires
        l.len() >= RECORD_LEN * k,
    ensures
        replay(l + x, k) == replay(l, k),
    decreases k,
{
    if k > 0 {
        lemma_replay_prefix(l, x, (k - 1) as nat);
        let i = k - 1;
        assert((l + x).subrange(44 * i, 44 * i + 8) =~= l.subrange(44 * i, 44 * i + 8));
        assert(root_at(l + x, i) =~= root_at(l, i));
    }
}

proof fn lemma_record_ok(t: u64, h: Seq<u8>)
    requires
        h.len() == 32,
    ensures
        good_records(record_bytes(t, h)) == 1,
        turn_at(record_bytes(t, h), 0) == t,
        root_at(record_bytes(t, h), 0) == h,
{
    let r = record_bytes(t, h);
    lemma_auto_spec_u32_to_from_le_bytes();
    lemma_auto_spec_u64_to_from_le_bytes();
    assert(r.subrange(0, 40) =~= record_body(t, h));
    assert(r.subrange(40, 44) =~= spec_u32_to_le_bytes(crc32_of(record_body(t, h))));
    assert(r.subrange(0, 8) =~= spec_u64_to_le_bytes(t));
    assert(r.subrange(8, 40) =~= h);
    assert(r.len() == 44);
    assert(record_ok(r));
    assert(good_records(r.skip(RECORD_LEN as int)) == 0);
}

/// A log of whole good records, reopened after one more record was
/// appended, maps that record's turn to its root, and every other turn as
/// before; a tail that does not start with a good record is cut off and the
/// records before it survive.
pub proof fn lemma_reopen(log: Seq<u8>, t: u64, h: Seq<u8>, tail: Seq<u8>)
    requires
        log.len() == RECORD_LEN * good_records(log),
        h.len() == 32,
        tail.len() < RECORD_LEN || !record_ok(tail),
    ensures
        ({
            let s = log + record_bytes(t, h);
            replay(s, good_records(s)) == replay(log, good_records(log)).insert(t, h)
        }),
        good_records(log + tail) == good_records(log),
        replay(log + tail, good_records(log + tail)) == replay(log, good_records(log)),
{
    let n = good_records(log);
    let rec = record_bytes(t, h);
    let s = log + rec;
    lemma_record_ok(t, h);
    lemma_good_concat(log, rec);
    lemma_replay_prefix(log, rec, n);
    assert(s.subrange(44 * (n as int), 44 * (n as int) + 8) =~= rec.subrange(0, 8));
    assert(root_at(s, n as int) =~= root_at(rec, 0));
    lemma_good_concat(log, tail);
    lemma_replay_prefix(log, tail, n);
}

/// The log holding one record per pair, in order.
pub open spec fn records_bytes(rs: Seq<(u64, Seq<u8>)>) -> Seq<u8>
    decreases rs.len(),
{
    if rs.len() == 0 {
        Seq::empty()
    } else {
        records_bytes(rs.drop_last()) + record_bytes(rs.last().0, rs.last().1)
    }
}

/// The mapping the pairs give when applied in order.
pub open spec fn pairs_map(rs: Seq<(u64, Seq<u8>)>) -> Map<u64, Seq<u8>>
    decreases rs.len(),
{
    if rs.len() == 0 {
        Map::empty()
    } else {
        pairs_map(rs.drop_last()).insert(rs.last().0, rs.last().1)
    }
}

proof fn lemma_records_len(rs: Seq<(u64, Seq<u8>)>)
    requires
        forall|i: int| 0 <= i < rs.len() ==> (#[trigger] rs[i]).1.len() == 32,
    ensures
        records_bytes(rs).len() == RECORD_LEN * rs.len(),
    decreases rs.len(),
{
    if rs.len() > 0 {
        lemma_records_len(rs.drop_last());
        lemma_auto_spec_u32_to_from_le_bytes();
        lemma_auto_spec_u64_to_from_le_bytes();
        assert(rs.last() == rs[rs.len() - 1]);
    }
}

/// A log of whole records followed by a tail that does not start with a
/// good record reopens as all of those records, applied in order, and is
/// cut where the tail starts.
pub proof fn lemma_reopen_records(rs: Seq<(u64, Seq<u8>)>, tail: Seq<u8>)
    requires
        forall|i: int| 0 <= i < rs.len() ==> (#[trigger] rs[i]).1.len() == 32,
        tail.len() < RECORD_LEN || !record_ok(tail),
    ensures
        good_records(records_bytes(rs) + tail) == rs.len(),
        replay(records_bytes(rs) + tail, rs.len()) == pairs_map(rs),
    decreases rs.len(),
{
    if rs.len() == 0 {
        assert(records_bytes(rs) + tail =~= tail);
        assert(replay(tail, 0) =~= pairs_map(rs));
    } else {
        let init = rs.drop_last();
        let (t, h) = rs.last();
        assert(rs.last() == rs[rs.len() - 1]);
        assert forall|i: int| 0 <= i < init.len() implies (#[trigger] init[i]).1.len() == 32 by {
            assert(init[i] == rs[i]);
        }
        let l = records_bytes(init);
        let rec = record_bytes(t, h);
        lemma_records_len(init);
        lemma_reopen_records(init, Seq::empty());
        assert(l + Seq::<u8>::empty() =~= l);
        lemma_record_ok(t, h);
        lemma_auto_spec_u32_to_from_le_bytes();
        lemma_auto_spec_u64_to_from_le_bytes();
        assert(rec.len() == 44);
        let rt = rec + tail;
        assert(rt.subrange(0, 40) =~= rec.subrange(0, 40));
        assert(rt.subrange(40, 44) =~= rec.subrange(40, 44));
        assert(rt.skip(RECORD_LEN as int) =~= tail);
        assert(record_ok(rec));
        assert(record_ok(rt));
        assert(good_records(tail) == 0);
        assert(good_records(rt) == 1);
        let s = records_bytes(rs) + tail;
        assert(s =~= l + rt);
        lemma_good_concat(l, rt);
        lemma_replay_prefix(l, rt, init.len());
        let n = init.len();
        assert(s.subrange(44 * (n as int), 44 * (n as int) + 8) =~= rec.subrange(0, 8));
        assert(root_at(s, n as int) =~= root_at(rec, 0));
        assert(replay(s, rs.len()) =~= pairs_map(rs));
    }
}

proof fn lemma_chain_without_roots(roots: Map<u64, Seq<u8>>, parents: Map<u64, u64>, cur: u64, fuel: nat)
    requires
        forall|x: u64| #[trigger] parents.contains_key(x) ==> !roots.contains_key(x),
    ensures
        chain_root(roots, parents, cur, fuel) is None,
    decreases fuel,
{
    if fuel > 0 && cur != 0 && parents.contains_key(cur) {
        lemma_chain_without_roots(roots, parents, parents[cur], (fuel - 1) as nat);
    }
}

/// A turn with no root of its own, none of whose known ancestors has one
/// either, inherits no root.
pub proof fn lemma_no_root_on_chain(roots: Map<u64, Seq<u8>>, parents: Map<u64, u64>, t: u64)
    requires
        !roots.contains_key(t),
        forall|x: u64| #[trigger] parents.contains_key(x) ==> !roots.contains_key(x),
    ensures
        inherited_root(roots, parents, t) is None,
{
    lemma_chain_without_roots(roots, parents, t, parents.len() + 1);
}

/// A turn with no root of its own inherits the root of its parent, when
/// the store knows both.
pub proof fn lemma_inherits_from_parent(roots: Map<u64, Seq<u8>>, parents: Map<u64, u64>, c: u64, p: u64)
    requires
        !roots.contains_key(c),
        parents.contains_key(c),
        parents[c] == p,
        parents.contains_key(p),
        p != 0,
        roots.contains_key(p),
        c != 0,
        parents.dom().finite(),
    ensures
        inherited_root(roots, parents, c) == Some(roots[p]),
{
    assert(parents.dom().contains(c));
    vstd::set_lib::lemma_set_empty_equivalency_len(parents.dom());
    assert(parents.len() + 1 >= 2);
    assert(chain_root(roots, parents, p, (parents.len() - 0) as nat) == Some(roots[p]));
}

fn array32(b: &[u8]) -> (r: [u8; 32])
    requires
        b@.len() == 32,
    ensures
        r@ == b@,
{
    let mut arr = [0u8; 32];
    let mut i: usize = 0;
    while i < 32
        invariant
            b@.len() == 32,
            i <= 32,
            forall|k: int| 0 <= k < i ==> arr@[k] == b@[k],
        decreases 32 - i,
    {
        arr.set(i, b[i]);
        i = i + 1;
    }
    assert(arr@ =~= b@);
    arr
}

} // verus!
