//! Directory tree objects: the entries of one directory and their binary
//! encoding, a MessagePack array of maps keyed by the decimal strings
//! "1" (name), "2" (kind), "3" (mode), "4" (size) and "5" (hash), sorted by
//! name in byte order.

use vstd::prelude::*;
use vstd::utf8::encode_utf8;
use vstd::string::StringSliceAdditionalSpecFns;
use crate::error::StoreError;

verus! {

pub const KIND_FILE: u8 = 0;
pub const KIND_DIRECTORY: u8 = 1;
pub const KIND_SYMLINK: u8 = 2;

/// What a tree entry stands for.
#[derive(Debug, Clone, Copy, PartialEq, Eq, Structural)]
pub enum EntryKind {
    File,
    Directory,
    Symlink,
}

/// The kind a stored kind code stands for; unknown codes read as a file.
pub open spec fn kind_of_code(v: u8) -> EntryKind {
    if v == 1 {
        EntryKind::Directory
    } else if v == 2 {
        EntryKind::Symlink
    } else {
        EntryKind::File
    }
}

impl From<u8> for EntryKind {
    fn from(v: u8) -> (r: EntryKind)
        ensures
            r == kind_of_code(v),
    {
        if v == 1 {
            EntryKind::Directory
        } else if v == 2 {
            EntryKind::Symlink
        } else {
            EntryKind::File
        }
    }
}

impl vstd::std_specs::convert::FromSpecImpl<u8> for EntryKind {
    open spec fn obeys_from_spec() -> bool {
        true
    }

    open spec fn from_spec(v: u8) -> EntryKind {
        kind_of_code(v)
    }
}

/// One entry of a directory: file, subdirectory or symbolic link.
#[derive(Debug, Clone)]
pub struct TreeEntry {
    /// File name, without separators.
    pub name: String,
    /// 0 file, 1 directory, 2 symbolic link.
    pub kind: u8,
    /// Low 12 bits of the POSIX permissions.
    pub mode: u32,
    /// Size in bytes for files, the target's length for links, else 0.
    pub size: u64,
    /// Digest of the content, subtree or link target.
    pub hash: Vec<u8>,
}

/// The value of a [`TreeEntry`].
pub struct TreeEntryView {
    pub name: Seq<char>,
    pub kind: u8,
    pub mode: u32,
    pub size: u64,
    pub hash: Seq<u8>,
}

impl View for TreeEntry {
    type V = TreeEntryView;

    open spec fn view(&self) -> TreeEntryView {
        TreeEntryView {
            name: self.name@,
            kind: self.kind,
            mode: self.mode,
            size: self.size,
            hash: self.hash@,
        }
    }
}

impl TreeEntry {
    /// The digest as a fixed-size array.
    pub fn hash_array(&self) -> (r: Result<[u8; 32], StoreError>)
        ensures
            self.hash@.len() == 32 ==> (r matches Ok(a) && a@ == self.hash@),
            self.hash@.len() != 32 ==> (r matches Err(StoreError::Corrupt(_))),
    {
        if self.hash.len() != 32 {
            return Err(StoreError::Corrupt("invalid hash length".to_string()));
        }
        let mut arr = [0u8; 32];
        let mut i: usize = 0;
        while i < 32
            invariant
                self.hash@.len() == 32,
                i <= 32,
                forall|k: int| 0 <= k < i ==> arr@[k] == self.hash@[k],
            decreases 32 - i,
        {
            arr.set(i, self.hash[i]);
            i = i + 1;
        }
        assert(arr@ =~= self.hash@);
        Ok(arr)
    }

    /// The kind the entry's code stands for.
    pub fn kind_enum(&self) -> (r: EntryKind)
        ensures
            r == kind_of_code(self.kind),
    {
        EntryKind::from(self.kind)
    }
}

impl TreeEntry {
    /// A copy of the entry.
    pub fn clone_entry(&self) -> (r: TreeEntry)
        ensures
            r@ == self@,
    {
        TreeEntry {
            name: self.name.clone(),
            kind: self.kind,
            mode: self.mode,
            size: self.size,
            hash: self.hash.clone(),
        }
    }
}

/// The UTF-8 bytes of an entry's name, by which entries are ordered.
pub open spec fn name_bytes(e: TreeEntryView) -> Seq<u8> {
    encode_utf8(e.name)
}

/// Lexicographic order on byte strings.
pub open spec fn bytes_le(a: Seq<u8>, b: Seq<u8>) -> bool
    decreases a.len(),
{
    if a.len() == 0 {
        true
    } else if b.len() == 0 {
        false
    } else if a[0] != b[0] {
        a[0] < b[0]
    } else {
        bytes_le(a.drop_first(), b.drop_first())
    }
}

/// Entries in ascending byte order of their names.
pub open spec fn sorted_by_name(es: Seq<TreeEntryView>) -> bool {
    forall|i: int, j: int| 0 <= i < j < es.len() ==> bytes_le(name_bytes(es[i]), name_bytes(es[j]))
}

proof fn lemma_bytes_le_total(a: Seq<u8>, b: Seq<u8>)
    ensures
        bytes_le(a, b) || bytes_le(b, a),
    decreases a.len(),
{
    if a.len() > 0 && b.len() > 0 && a[0] == b[0] {
        lemma_bytes_le_total(a.drop_first(), b.drop_first());
    }
}

proof fn lemma_bytes_le_trans(a: Seq<u8>, b: Seq<u8>, c: Seq<u8>)
    requires
        bytes_le(a, b),
        bytes_le(b, c),
    ensures
        bytes_le(a, c),
    decreases a.len(),
{
    if a.len() > 0 && b.len() > 0 && c.len() > 0 && a[0] == b[0] && b[0] == c[0] {
        lemma_bytes_le_trans(a.drop_first(), b.drop_first(), c.drop_first());
    }
}

proof fn lemma_bytes_le_antisym(a: Seq<u8>, b: Seq<u8>)
    requires
        bytes_le(a, b),
        bytes_le(b, a),
    ensures
        a == b,
    decreases a.len(),
{
    if a.len() > 0 && b.len() > 0 {
        lemma_bytes_le_antisym(a.drop_first(), b.drop_first());
        assert(a =~= seq![a[0]] + a.drop_first());
        assert(b =~= seq![b[0]] + b.drop_first());
    } else {
        assert(a.len() == 0 && b.len() == 0);
        assert(a =~= b);
    }
}

/// No two entries have names with the same bytes.
pub open spec fn distinct_names(es: Seq<TreeEntryView>) -> bool {
    forall|i: int, j: int| 0 <= i < es.len() && 0 <= j < es.len() && i != j ==> name_bytes(es[i]) != name_bytes(
        es[j],
    )
}

proof fn lemma_in_other(s1: Seq<TreeEntry>, s2: Seq<TreeEntry>, k: int) -> (j: int)
    requires
        s1.to_multiset() == s2.to_multiset(),
        0 <= k < s2.len(),
    ensures
        0 <= j < s1.len(),
        s1[j] == s2[k],
{
    s1.to_multiset_ensures();
    s2.to_multiset_ensures();
    assert(s2.contains(s2[k]));
    assert(s2.to_multiset().count(s2[k]) > 0);
    assert(s1.contains(s2[k]));
    choose|j: int| 0 <= j < s1.len() && s1[j] == s2[k]
}

/// Two orderings by name of the same entries, whose names differ, are the
/// same sequence: the sorted order of a directory does not depend on the
/// order its entries were listed in.
pub proof fn lemma_sorted_order_is_unique(s1: Seq<TreeEntry>, s2: Seq<TreeEntry>)
    requires
        s1.to_multiset() == s2.to_multiset(),
        sorted_by_name(views(s1)),
        sorted_by_name(views(s2)),
        distinct_names(views(s1)),
    ensures
        s1 == s2,
    decreases s1.len(),
{
    vstd::seq_lib::to_multiset_len(s1);
    vstd::seq_lib::to_multiset_len(s2);
    if s1.len() == 0 {
        assert(s1 =~= s2);
        return;
    }
    let x = s1[0];
    let y = s2[0];
    let j = lemma_in_other(s1, s2, 0);
    let k = lemma_in_other(s2, s1, 0);
    assert(views(s1)[0] == x@ && views(s1)[j] == y@);
    assert(views(s2)[0] == y@ && views(s2)[k] == x@);
    if j > 0 {
        assert(bytes_le(name_bytes(x@), name_bytes(y@)));
    } else {
        lemma_bytes_le_total(name_bytes(x@), name_bytes(y@));
    }
    if k > 0 {
        assert(bytes_le(name_bytes(y@), name_bytes(x@)));
    } else {
        lemma_bytes_le_total(name_bytes(x@), name_bytes(y@));
    }
    if j > 0 || k > 0 {
        lemma_bytes_le_antisym(name_bytes(x@), name_bytes(y@));
    }
    assert(j == 0);
    assert(x == y);
    let t1 = s1.drop_first();
    let t2 = s2.drop_first();
    vstd::seq_lib::to_multiset_remove(s1, 0);
    vstd::seq_lib::to_multiset_remove(s2, 0);
    assert(s1.remove(0) =~= t1);
    assert(s2.remove(0) =~= t2);
    assert(views(t1) =~= views(s1).drop_first());
    assert(views(t2) =~= views(s2).drop_first());
    lemma_sorted_order_is_unique(t1, t2);
    assert(s1 =~= seq![x] + t1);
    assert(s2 =~= seq![y] + t2);
}

/// Whether `a`'s name comes no later than `b`'s in byte order.
fn name_le(a: &TreeEntry, b: &TreeEntry) -> (r: bool)
    ensures
        r == bytes_le(name_bytes(a@), name_bytes(b@)),
{
    let x = a.name.as_str().as_bytes();
    let y = b.name.as_str().as_bytes();
    let mut i: usize = 0;
    assert(x@.skip(0) =~= x@);
    assert(y@.skip(0) =~= y@);
    while i < x.len()
        invariant
            i <= x@.len(),
            x@ == name_bytes(a@),
            y@ == name_bytes(b@),
            i <= y@.len(),
            forall|k: int| 0 <= k < i ==> x@[k] == y@[k],
            bytes_le(x@, y@) == bytes_le(x@.skip(i as int), y@.skip(i as int)),
        decreases x@.len() - i,
    {
        if i >= y.len() {
            return false;
        }
        if x[i] != y[i] {
            return x[i] < y[i];
        }
        assert(x@.skip(i as int).drop_first() =~= x@.skip(i + 1));
        assert(y@.skip(i as int).drop_first() =~= y@.skip(i + 1));
        i = i + 1;
    }
    true
}

/// Sorts entries by name in byte order, keeping the same entries.
pub fn sort_entries(v: &mut Vec<TreeEntry>)
    ensures
        sorted_by_name(views(final(v)@)),
        final(v)@.to_multiset() == old(v)@.to_multiset(),
{
    let n = v.len();
    let mut i: usize = 0;
    while i < n
        invariant
            n == v@.len(),
            i <= n,
            sorted_by_name(views(v@.subrange(0, i as int))),
            v@.to_multiset() == old(v)@.to_multiset(),
        decreases n - i,
    {
        let ghost before = v@;
        let x = v.remove(i);
        proof {
            vstd::seq_lib::to_multiset_remove(before, i as int);
            assert(v@.subrange(0, i as int) =~= before.subrange(0, i as int));
        }
        let mut pos: usize = 0;
        while pos < i && name_le(&v[pos], &x)
            invariant
                pos <= i,
                i < n,
                v@.len() == n - 1,
                v@.subrange(0, i as int) == before.subrange(0, i as int),
                forall|k: int| 0 <= k < pos ==> bytes_le(name_bytes(v@[k]@), name_bytes(x@)),
            decreases i - pos,
        {
            pos = pos + 1;
        }
        let ghost mid = v@;
        v.insert(pos, x);
        proof {
            vstd::seq_lib::to_multiset_insert(mid, pos as int, x);
            before.to_multiset_ensures();
            assert(before[i as int] == x);
            assert(before.contains(x));
            assert(v@.to_multiset() =~= old(v)@.to_multiset());
            let w = views(v@.subrange(0, i + 1));
            let p = views(before.subrange(0, i as int));
            assert forall|a: int, b: int| 0 <= a < b < w.len() implies bytes_le(name_bytes(w[a]), name_bytes(w[b])) by {
                if a < pos && b < pos {
                    assert(w[a] == p[a] && w[b] == p[b]);
                } else if a < pos && b == pos {
                    assert(w[a] == p[a]);
                } else if a < pos {
                    assert(w[a] == p[a] && w[b] == p[b - 1]);
                    assert(bytes_le(name_bytes(mid[a]@), name_bytes(x@)));
                    if pos < i {
                        lemma_bytes_le_total(name_bytes(mid[pos as int]@), name_bytes(x@));
                        lemma_bytes_le_trans(name_bytes(mid[a]@), name_bytes(x@), name_bytes(mid[pos as int]@));
                        if pos < b - 1 {
                            assert(p[pos as int] == mid[pos as int]@ && p[b - 1] == mid[b - 1]@);
                            lemma_bytes_le_trans(name_bytes(mid[a]@), name_bytes(mid[pos as int]@), name_bytes(mid[b - 1]@));
                        }
                    }
                } else if a == pos {
                    assert(w[b] == p[b - 1]);
                    lemma_bytes_le_total(name_bytes(mid[pos as int]@), name_bytes(x@));
                    if pos < b - 1 {
                        assert(p[pos as int] == mid[pos as int]@ && p[b - 1] == mid[b - 1]@);
                        lemma_bytes_le_trans(name_bytes(x@), name_bytes(mid[pos as int]@), name_bytes(mid[b - 1]@));
                    }
                } else {
                    assert(w[a] == p[a - 1] && w[b] == p[b - 1]);
                }
            }
        }
        i = i + 1;
    }
    assert(v@.subrange(0, n as int) =~= v@);
}

// ---- encoding ----

pub open spec fn be16(v: u16) -> Seq<u8> {
    seq![(v >> 8u16) as u8, (v & 0xffu16) as u8]
}

pub open spec fn be32(v: u32) -> Seq<u8> {
    seq![(v >> 24u32) as u8, ((v >> 16u32) & 0xffu32) as u8, ((v >> 8u32) & 0xffu32) as u8, (v & 0xffu32) as u8]
}

pub open spec fn be64(v: u64) -> Seq<u8> {
    be32((v >> 32u64) as u32) + be32((v & 0xffff_ffffu64) as u32)
}

/// The shortest MessagePack encoding of an unsigned integer.
pub open spec fn uint_bytes(v: u64) -> Seq<u8> {
    if v < 128 {
        seq![v as u8]
    } else if v < 256 {
        seq![0xccu8, v as u8]
    } else if v < 65536 {
        seq![0xcdu8] + be16(v as u16)
    } else if v <= 0xffff_ffff {
        seq![0xceu8] + be32(v as u32)
    } else {
        seq![0xcfu8] + be64(v)
    }
}

/// The shortest MessagePack string header and body for UTF-8 bytes `b`.
pub open spec fn str_bytes(b: Seq<u8>) -> Seq<u8> {
    if b.len() < 32 {
        seq![(0xa0 + b.len()) as u8] + b
    } else if b.len() < 256 {
        seq![0xd9u8, b.len() as u8] + b
    } else if b.len() < 65536 {
        seq![0xdau8] + be16(b.len() as u16) + b
    } else {
        seq![0xdbu8] + be32(b.len() as u32) + b
    }
}

/// The shortest MessagePack binary header and body for `b`.
pub open spec fn bin_bytes(b: Seq<u8>) -> Seq<u8> {
    if b.len() < 256 {
        seq![0xc4u8, b.len() as u8] + b
    } else if b.len() < 65536 {
        seq![0xc5u8] + be16(b.len() as u16) + b
    } else {
        seq![0xc6u8] + be32(b.len() as u32) + b
    }
}

/// A one-character decimal key, `"1"` to `"5"`.
pub open spec fn key_bytes(k: u8) -> Seq<u8> {
    seq![0xa1u8, (0x30 + k) as u8]
}

/// The map encoding one entry.
pub open spec fn entry_bytes(e: TreeEntryView) -> Seq<u8> {
    seq![0x85u8] + key_bytes(1) + str_bytes(name_bytes(e)) + key_bytes(2) + uint_bytes(e.kind as u64)
        + key_bytes(3) + uint_bytes(e.mode as u64) + key_bytes(4) + uint_bytes(e.size) + key_bytes(5)
        + bin_bytes(e.hash)
}

/// The MessagePack array header for `n` items.
pub open spec fn array_head(n: nat) -> Seq<u8> {
    if n < 16 {
        seq![(0x90 + n) as u8]
    } else if n < 65536 {
        seq![0xdcu8] + be16(n as u16)
    } else {
        seq![0xddu8] + be32(n as u32)
    }
}

/// The entries' maps one after another.
pub open spec fn entries_bytes(es: Seq<TreeEntryView>) -> Seq<u8>
    decreases es.len(),
{
    if es.len() == 0 {
        Seq::empty()
    } else {
        entries_bytes(es.drop_last()) + entry_bytes(es.last())
    }
}

/// The tree object holding `es` in the given order.
pub open spec fn tree_bytes(es: Seq<TreeEntryView>) -> Seq<u8> {
    array_head(es.len()) + entries_bytes(es)
}

/// The sizes that the encoding can carry.
pub open spec fn encodable(es: Seq<TreeEntryView>) -> bool {
    &&& es.len() <= 0xffff_ffff
    &&& forall|i: int|
        0 <= i < es.len() ==> name_bytes(#[trigger] es[i]).len() <= 0xffff_ffff && es[i].hash.len()
            <= 0xffff_ffff
}

fn push_be16(out: &mut Vec<u8>, v: u16)
    ensures
        final(out)@ == old(out)@ + be16(v),
{
    out.push((v >> 8u16) as u8);
    out.push((v & 0xffu16) as u8);
    assert(final(out)@ =~= old(out)@ + be16(v));
}

fn push_be32(out: &mut Vec<u8>, v: u32)
    ensures
        final(out)@ == old(out)@ + be32(v),
{
    out.push((v >> 24u32) as u8);
    out.push(((v >> 16u32) & 0xffu32) as u8);
    out.push(((v >> 8u32) & 0xffu32) as u8);
    out.push((v & 0xffu32) as u8);
    assert(final(out)@ =~= old(out)@ + be32(v));
}

fn push_be64(out: &mut Vec<u8>, v: u64)
    ensures
        final(out)@ == old(out)@ + be64(v),
{
    push_be32(out, (v >> 32u64) as u32);
    push_be32(out, (v & 0xffff_ffffu64) as u32);
    assert(final(out)@ =~= old(out)@ + be64(v));
}

fn push_slice(out: &mut Vec<u8>, b: &[u8])
    ensures
        final(out)@ == old(out)@ + b@,
{
    out.extend_from_slice(b);
}

fn push_uint(out: &mut Vec<u8>, v: u64)
    ensures
        final(out)@ == old(out)@ + uint_bytes(v),
{
    if v < 128 {
        out.push(v as u8);
    } else if v < 256 {
        out.push(0xcc);
        out.push(v as u8);
    } else if v < 65536 {
        out.push(0xcd);
        push_be16(out, v as u16);
    } else if v <= 0xffff_ffff {
        out.push(0xce);
        push_be32(out, v as u32);
    } else {
        out.push(0xcf);
        push_be64(out, v);
    }
    assert(final(out)@ =~= old(out)@ + uint_bytes(v));
}

fn push_str(out: &mut Vec<u8>, b: &[u8])
    requires
        b@.len() <= 0xffff_ffff,
    ensures
        final(out)@ == old(out)@ + str_bytes(b@),
{
    let n = b.len();
    if n < 32 {
        out.push((0xa0 + n) as u8);
    } else if n < 256 {
        out.push(0xd9);
        out.push(n as u8);
    } else if n < 65536 {
        out.push(0xda);
        push_be16(out, n as u16);
    } else {
        out.push(0xdb);
        push_be32(out, n as u32);
    }
    push_slice(out, b);
    assert(final(out)@ =~= old(out)@ + str_bytes(b@));
}

fn push_bin(out: &mut Vec<u8>, b: &[u8])
    requires
        b@.len() <= 0xffff_ffff,
    ensures
        final(out)@ == old(out)@ + bin_bytes(b@),
{
    let n = b.len();
    if n < 256 {
        out.push(0xc4);
        out.push(n as u8);
    } else if n < 65536 {
        out.push(0xc5);
        push_be16(out, n as u16);
    } else {
        out.push(0xc6);
        push_be32(out, n as u32);
    }
    push_slice(out, b);
    assert(final(out)@ =~= old(out)@ + bin_bytes(b@));
}

fn push_key(out: &mut Vec<u8>, k: u8)
    requires
        1 <= k <= 5,
    ensures
        final(out)@ == old(out)@ + key_bytes(k),
{
    out.push(0xa1);
    out.push(0x30 + k);
    assert(final(out)@ =~= old(out)@ + key_bytes(k));
}

fn push_entry(out: &mut Vec<u8>, e: &TreeEntry)
    requires
        name_bytes(e@).len() <= 0xffff_ffff,
        e@.hash.len() <= 0xffff_ffff,
    ensures
        final(out)@ == old(out)@ + entry_bytes(e@),
{
    out.push(0x85);
    push_key(out, 1);
    push_str(out, e.name.as_str().as_bytes());
    push_key(out, 2);
    push_uint(out, e.kind as u64);
    push_key(out, 3);
    push_uint(out, e.mode as u64);
    push_key(out, 4);
    push_uint(out, e.size);
    push_key(out, 5);
    push_bin(out, e.hash.as_slice());
    assert(final(out)@ =~= old(out)@ + entry_bytes(e@));
}

/// The views of a list of entries.
pub open spec fn views(es: Seq<TreeEntry>) -> Seq<TreeEntryView> {
    es.map_values(|e: TreeEntry| e@)
}

/// Encodes the entries, in the order given, as a tree object.
pub fn encode_tree(entries: &Vec<TreeEntry>) -> (r: Vec<u8>)
    requires
        encodable(views(entries@)),
    ensures
        r@ == tree_bytes(views(entries@)),
{
    let ghost es = views(entries@);
    let mut out: Vec<u8> = Vec::new();
    let n = entries.len();
    if n < 16 {
        out.push((0x90 + n) as u8);
    } else if n < 65536 {
        out.push(0xdc);
        push_be16(&mut out, n as u16);
    } else {
        out.push(0xdd);
        push_be32(&mut out, n as u32);
    }
    assert(out@ =~= array_head(es.len()));
    let mut i: usize = 0;
    while i < n
        invariant
            n == entries@.len(),
            es == views(entries@),
            encodable(es),
            i <= n,
            out@ == array_head(es.len()) + entries_bytes(es.subrange(0, i as int)),
        decreases n - i,
    {
        assert(es[i as int] == entries@[i as int]@);
        assert(name_bytes(es[i as int]).len() <= 0xffff_ffff);
        push_entry(&mut out, &entries[i]);
        assert(es.subrange(0, i + 1).drop_last() =~= es.subrange(0, i as int));
        i = i + 1;
    }
    assert(es.subrange(0, n as int) =~= es);
    out
}

} // verus!
