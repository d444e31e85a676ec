//! Content addressing: the BLAKE3 digest, and a store of blobs keyed by the
//! digest of their bytes.

use vstd::prelude::*;
use crate::digest_map::DigestMap;
use crate::snapshot::DigestBytes;

verus! {

/// What `blake3::hash` returns for the given bytes.
pub uninterp spec fn blake3_of(data: Seq<u8>) -> Seq<u8>;

/// Relies on `blake3::hash`: the 32-byte BLAKE3 digest of `data`.
#[verifier::external_body]
pub(crate) fn blake3_hash(data: &[u8]) -> (r: [u8; 32])
    ensures
        r@ == blake3_of(data@),
{
    *blake3::hash(data).as_bytes()
}

/// A content-addressed store: each blob is kept under the digest of its
/// bytes, once.
pub struct BlobStore {
    blobs: DigestMap<Vec<u8>>,
}

impl BlobStore {
    /// The stored blobs by digest.
    pub closed spec fn view(&self) -> Map<Seq<u8>, Seq<u8>> {
        self.blobs.view().map_values(|d: Vec<u8>| d@)
    }

    /// Every blob is kept under the digest of its bytes.
    pub closed spec fn wf(&self) -> bool {
        &&& self.blobs.wf()
        &&& forall|k: Seq<u8>| #[trigger] self.blobs.view().contains_key(k) ==> k == blake3_of(self.blobs.view()[k]@)
    }

    pub fn new() -> (r: BlobStore)
        ensures
            r.view() == Map::<Seq<u8>, Seq<u8>>::empty(),
            r.wf(),
    {
        let r = BlobStore { blobs: DigestMap::new() };
        assert(r.view() =~= Map::<Seq<u8>, Seq<u8>>::empty());
        r
    }

    /// The bytes stored under `hash`, if any.
    pub fn get(&self, hash: &[u8]) -> (r: Option<Vec<u8>>)
        requires
            self.wf(),
        ensures
            match r {
                Some(d) => self.view().contains_key(hash@) && self.view()[hash@] == d@,
                None => !self.view().contains_key(hash@),
            },
            r is Some ==> hash@ == blake3_of(r->0@),
    {
        match self.blobs.get_slice(hash) {
            Some(d) => Some(copy_bytes(d)),
            None => None,
        }
    }

    /// Stores `data` under its digest. Returns the digest and whether the
    /// bytes were new to the store; bytes already held under that digest
    /// stay as they are.
    pub fn put(&mut self, data: Vec<u8>) -> (r: (Vec<u8>, bool))
        requires
            old(self).wf(),
        ensures
            final(self).wf(),
            r.0@ == blake3_of(data@),
            r.1 == !old(self).view().contains_key(r.0@),
            r.1 ==> final(self).view() == old(self).view().insert(r.0@, data@),
            !r.1 ==> final(self).view() == old(self).view(),
    {
        let h = blake3_hash(data.as_slice());
        let ghost d = data@;
        let was_new = self.blobs.insert_new(h, data);
        proof {
            if was_new {
                assert(self.view() =~= old(self).view().insert(h@, d));
            } else {
                assert(self.view() =~= old(self).view());
            }
        }
        (h.to_vec_bytes(), was_new)
    }
}

fn copy_bytes(v: &Vec<u8>) -> (r: Vec<u8>)
    ensures
        r@ == v@,
{
    let mut out: Vec<u8> = Vec::new();
    let mut i: usize = 0;
    while i < v.len()
        invariant
            i <= v@.len(),
            out@ == v@.subrange(0, i as int),
        decreases v@.len() - i,
    {
        out.push(v[i]);
        assert(out@ =~= v@.subrange(0, i + 1));
        i = i + 1;
    }
    assert(v@.subrange(0, v@.len() as int) =~= v@);
    out
}

} // verus!
