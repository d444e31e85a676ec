//! Building a filesystem snapshot: the bookkeeping of a capture, which
//! turns the entries a directory walk reports into hashed tree objects,
//! file references and link targets, enforcing the capture's limits.

use vstd::prelude::*;
use vstd::utf8::encode_utf8;
use crate::blobs::{blake3_hash, blake3_of};
use crate::decode::{decode_tree, tree_entries};
use crate::digest_map::DigestMap;
use crate::options::Options;
use crate::tree::{
    bytes_le, distinct_names, encode_tree, encodable, lemma_sorted_order_is_unique, name_bytes, sort_entries, sorted_by_name, tree_bytes, views, TreeEntry,
    TreeEntryView, KIND_DIRECTORY, KIND_FILE, KIND_SYMLINK,
};

verus! {

/// What went wrong in a capture or an upload.
#[derive(Debug, Clone, Copy, PartialEq, Eq, Structural)]
pub enum FstreeErrorKind {
    TooManyFiles,
    FileTooLarge,
    CyclicLink,
    Io,
    Msgpack,
    Client,
    Other,
}

/// A capture or upload failure: its kind and a message.
#[derive(Debug, Clone)]
pub struct FstreeError {
    pub kind: FstreeErrorKind,
    pub detail: String,
}

impl FstreeError {
    pub fn new(kind: FstreeErrorKind, detail: &str) -> (r: FstreeError)
        ensures
            r.kind == kind,
            r.detail@ == detail@,
    {
        FstreeError { kind, detail: detail.to_string() }
    }

    /// Whether the failure ends the whole capture; other failures only drop
    /// the entry they arose on.
    pub fn propagates(&self) -> (r: bool)
        ensures
            r == (self.kind == FstreeErrorKind::TooManyFiles || self.kind == FstreeErrorKind::CyclicLink),
    {
        self.kind == FstreeErrorKind::TooManyFiles || self.kind == FstreeErrorKind::CyclicLink
    }
}

/// Reads a tree object back into its entries.
pub fn deserialize_tree(data: &[u8]) -> (r: Result<Vec<TreeEntry>, FstreeError>)
    ensures
        match tree_entries(data@) {
            None => r matches Err(e) && e.kind == FstreeErrorKind::Msgpack,
            Some(es) => r matches Ok(v) && views(v@) == es,
        },
{
    match decode_tree(data) {
        Some(v) => Ok(v),
        None => Err(FstreeError::new(FstreeErrorKind::Msgpack, "invalid tree object")),
    }
}

/// A file to upload: where it is on disk, its size and its digest.
#[derive(Debug, Clone)]
pub struct FileRef {
    pub path: String,
    pub size: u64,
    pub hash: [u8; 32],
}

/// Counts gathered by a capture.
#[derive(Debug, Clone, Copy, PartialEq, Eq, Structural)]
pub struct SnapshotStats {
    pub file_count: usize,
    pub dir_count: usize,
    pub symlink_count: usize,
    pub total_bytes: u64,
    pub duration_ms: u64,
}

/// A captured snapshot: the root tree's digest and the distinct tree
/// objects, files and link targets, each keyed by digest.
pub struct Snapshot {
    pub root_hash: [u8; 32],
    pub trees: DigestMap<Vec<u8>>,
    pub files: DigestMap<FileRef>,
    pub symlinks: DigestMap<String>,
    /// Milliseconds since the Unix epoch when the capture started.
    pub captured_at_ms: u64,
    pub stats: SnapshotStats,
}

/// What the walk does with an entry it found.
#[derive(Debug, Clone, Copy, PartialEq, Eq, Structural)]
pub enum EntryAction {
    /// Record the link's target.
    Link,
    /// Walk the directory.
    Walk,
    /// Hash the file's content.
    Read,
}

/// The permission bits kept in an entry: the low twelve.
pub open spec fn perm_bits(mode: u32) -> u32 {
    mode & 0o7777u32
}

/// Every stored tree object is kept under the digest of its bytes, and
/// reads back as entries in ascending byte order of their names.
pub open spec fn trees_sound(trees: Map<Seq<u8>, Vec<u8>>) -> bool {
    forall|k: Seq<u8>|
        #[trigger] trees.contains_key(k) ==> k == blake3_of(trees[k]@) && exists|es: Seq<TreeEntryView>|
            tree_entries(trees[k]@) == Some(es) && sorted_by_name(es)
}

/// The state of a capture in progress.
pub struct Builder {
    pub options: Options,
    pub trees: DigestMap<Vec<u8>>,
    pub files: DigestMap<FileRef>,
    pub symlinks: DigestMap<String>,
    /// Canonical paths of the directories on the current descent.
    pub visited: Vec<String>,
    pub file_count: usize,
    pub dir_count: usize,
    pub symlink_count: usize,
    pub total_bytes: u64,
}

impl Builder {
    /// The directories on the current descent, by canonical path.
    pub open spec fn stack(&self) -> Seq<Seq<char>> {
        self.visited@.map_values(|s: String| s@)
    }

    /// The maps are well formed.
    pub open spec fn wf(&self) -> bool {
        self.trees.wf() && self.files.wf() && self.symlinks.wf() && trees_sound(self.trees.view())
    }

    pub fn new(options: Options) -> (r: Builder)
        ensures
            r.wf(),
            r.options == options,
            r.trees.view().len() == 0,
            r.files.view().len() == 0,
            r.symlinks.view().len() == 0,
            r.stack().len() == 0,
            r.file_count == 0,
            r.dir_count == 0,
            r.symlink_count == 0,
            r.total_bytes == 0,
    {
        let r = Builder {
            options,
            trees: DigestMap::new(),
            files: DigestMap::new(),
            symlinks: DigestMap::new(),
            visited: Vec::new(),
            file_count: 0,
            dir_count: 0,
            symlink_count: 0,
            total_bytes: 0,
        };
        assert(r.stack() =~= Seq::<Seq<char>>::empty());
        r
    }

    /// Starts a directory found at canonical path `real_path`; a directory
    /// already on the descent means a cycle of links.
    pub fn enter_dir(&mut self, real_path: String) -> (r: Result<(), FstreeError>)
        ensures
            old(self).stack().contains(real_path@) ==> (r matches Err(e) && e.kind == FstreeErrorKind::CyclicLink)
                && final(self).stack() == old(self).stack(),
            !old(self).stack().contains(real_path@) ==> r is Ok && final(self).stack() == old(self).stack().push(
                real_path@,
            ),
            final(self).options == old(self).options,
            final(self).trees == old(self).trees,
            final(self).files == old(self).files,
            final(self).symlinks == old(self).symlinks,
            final(self).file_count == old(self).file_count,
            final(self).dir_count == old(self).dir_count,
            final(self).symlink_count == old(self).symlink_count,
            final(self).total_bytes == old(self).total_bytes,
    {
        let mut i: usize = 0;
        while i < self.visited.len()
            invariant
                i <= self.visited@.len(),
                forall|k: int| 0 <= k < i ==> self.visited@[k]@ != real_path@,
            decreases self.visited@.len() - i,
        {
            if self.visited[i] == real_path {
                assert(self.stack()[i as int] == real_path@);
                return Err(FstreeError::new(FstreeErrorKind::CyclicLink, "cyclic symbolic link detected"));
            }
            i = i + 1;
        }
        assert(!self.stack().contains(real_path@)) by {
            if self.stack().contains(real_path@) {
                let k = choose|k: int| 0 <= k < self.stack().len() && self.stack()[k] == real_path@;
                assert(self.visited@[k]@ == real_path@);
            }
        }
        let ghost before = self.visited@;
        self.visited.push(real_path);
        assert(self.stack() =~= before.map_values(|s: String| s@).push(self.visited@.last()@));
        Ok(())
    }

    /// Ends the innermost directory of the descent.
    pub fn leave_dir(&mut self)
        ensures
            final(self).stack() == if old(self).stack().len() > 0 {
                old(self).stack().drop_last()
            } else {
                old(self).stack()
            },
            final(self).options == old(self).options,
            final(self).trees == old(self).trees,
            final(self).files == old(self).files,
            final(self).symlinks == old(self).symlinks,
            final(self).file_count == old(self).file_count,
            final(self).dir_count == old(self).dir_count,
            final(self).symlink_count == old(self).symlink_count,
            final(self).total_bytes == old(self).total_bytes,
    {
        let ghost before = self.visited@;
        let _ = self.visited.pop();
        assert(self.stack() =~= if before.len() > 0 {
            before.map_values(|s: String| s@).drop_last()
        } else {
            before.map_values(|s: String| s@)
        });
    }

    /// How an entry the walk found is taken: a symbolic link is recorded as
    /// a link unless links are followed, a directory is walked, anything
    /// else is read as a file.
    pub fn classify(&self, is_symlink: bool, is_dir: bool) -> (r: EntryAction)
        ensures
            is_symlink && !self.options.follow_symlinks ==> r == EntryAction::Link,
            !(is_symlink && !self.options.follow_symlinks) && is_dir ==> r == EntryAction::Walk,
            !(is_symlink && !self.options.follow_symlinks) && !is_dir ==> r == EntryAction::Read,
    {
        if is_symlink && !self.options.follow_symlinks {
            EntryAction::Link
        } else if is_dir {
            EntryAction::Walk
        } else {
            EntryAction::Read
        }
    }

    /// Whether a regular file of `size` bytes may still be taken: under the
    /// file-count limit and within the size limit.
    pub fn check_file(&self, size: u64) -> (r: Result<(), FstreeError>)
        ensures
            self.file_count >= self.options.max_files ==> (r matches Err(e) && e.kind == FstreeErrorKind::TooManyFiles),
            self.file_count < self.options.max_files && size > self.options.max_file_size ==> (r matches Err(e)
                && e.kind == FstreeErrorKind::FileTooLarge),
            self.file_count < self.options.max_files && size <= self.options.max_file_size ==> r is Ok,
    {
        if self.file_count >= self.options.max_files {
            return Err(FstreeError::new(FstreeErrorKind::TooManyFiles, "too many files"));
        }
        if self.options.max_file_size < 0 || size > self.options.max_file_size as u64 {
            return Err(FstreeError::new(FstreeErrorKind::FileTooLarge, "file too large"));
        }
        Ok(())
    }

    /// Takes a regular file whose content has digest `hash`, after the same
    /// checks as [`Builder::check_file`]; returns its entry.
    pub fn add_file(&mut self, name: String, mode: u32, path: String, size: u64, hash: [u8; 32]) -> (r: Result<TreeEntry, FstreeError>)
        requires
            old(self).wf(),
        ensures
            final(self).wf(),
            final(self).stack() == old(self).stack(),
            final(self).options == old(self).options,
            final(self).trees == old(self).trees,
            final(self).symlinks == old(self).symlinks,
            final(self).dir_count == old(self).dir_count,
            final(self).symlink_count == old(self).symlink_count,
            old(self).file_count >= old(self).options.max_files ==> (r matches Err(e) && e.kind
                == FstreeErrorKind::TooManyFiles) && final(self).files == old(self).files && final(self).file_count
                == old(self).file_count && final(self).total_bytes == old(self).total_bytes,
            old(self).file_count < old(self).options.max_files && size > old(self).options.max_file_size ==> (
            r matches Err(e) && e.kind == FstreeErrorKind::FileTooLarge) && final(self).files == old(self).files
                && final(self).file_count == old(self).file_count && final(self).total_bytes == old(self).total_bytes,
            old(self).file_count < old(self).options.max_files && size <= old(self).options.max_file_size ==> {
                &&& r matches Ok(e) && e@ == TreeEntryView {
                    name: name@,
                    kind: KIND_FILE,
                    mode: perm_bits(mode),
                    size,
                    hash: hash@,
                }
                &&& final(self).files.view() == old(self).files.view().insert(hash@, FileRef { path, size, hash })
                &&& final(self).file_count == old(self).file_count + 1
                &&& final(self).total_bytes == if old(self).total_bytes as int + size > u64::MAX {
                    u64::MAX as int
                } else {
                    old(self).total_bytes + size
                }
            },
    {
        self.check_file(size)?;
        let _ = self.files.insert(hash, FileRef { path, size, hash });
        self.file_count = self.file_count + 1;
        self.total_bytes = if self.total_bytes > u64::MAX - size {
            u64::MAX
        } else {
            self.total_bytes + size
        };
        Ok(TreeEntry { name, kind: KIND_FILE, mode: mode & 0o7777, size, hash: hash.to_vec_bytes() })
    }

    /// Takes a symbolic link (not followed) with the given target; returns
    /// its entry, whose digest is that of the target's UTF-8 bytes.
    pub fn add_symlink(&mut self, name: String, mode: u32, target: String) -> (r: TreeEntry)
        requires
            old(self).wf(),
            old(self).symlink_count < usize::MAX,
        ensures
            final(self).wf(),
            r@ == (TreeEntryView {
                name: name@,
                kind: KIND_SYMLINK,
                mode: perm_bits(mode),
                size: encode_utf8(target@).len() as u64,
                hash: blake3_of(encode_utf8(target@)),
            }),
            final(self).symlinks.view() == old(self).symlinks.view().insert(blake3_of(encode_utf8(target@)), target),
            final(self).symlink_count == old(self).symlink_count + 1,
            final(self).stack() == old(self).stack(),
            final(self).options == old(self).options,
            final(self).trees == old(self).trees,
            final(self).files == old(self).files,
            final(self).file_count == old(self).file_count,
            final(self).dir_count == old(self).dir_count,
            final(self).total_bytes == old(self).total_bytes,
    {
        let bytes = target.as_str().as_bytes();
        let len = bytes.len();
        let hash = blake3_hash(bytes);
        let _ = self.symlinks.insert(hash, target);
        self.symlink_count = self.symlink_count + 1;
        TreeEntry { name, kind: KIND_SYMLINK, mode: mode & 0o7777, size: len as u64, hash: hash.to_vec_bytes() }
    }

    /// The entry for a subdirectory whose tree has digest `hash`.
    pub fn dir_entry(name: String, mode: u32, hash: [u8; 32]) -> (r: TreeEntry)
        ensures
            r@ == (TreeEntryView { name: name@, kind: KIND_DIRECTORY, mode: perm_bits(mode), size: 0, hash: hash@ }),
    {
        TreeEntry { name, kind: KIND_DIRECTORY, mode: mode & 0o7777, size: 0, hash: hash.to_vec_bytes() }
    }

    /// Completes a directory from its entries: sorts them by name, encodes
    /// the tree object, keeps it under its digest and returns the digest.
    pub fn finish_dir(&mut self, entries: Vec<TreeEntry>) -> (r: Result<[u8; 32], FstreeError>)
        requires
            old(self).wf(),
            old(self).dir_count < usize::MAX,
        ensures
            final(self).wf(),
            final(self).stack() == old(self).stack(),
            final(self).options == old(self).options,
            final(self).files == old(self).files,
            final(self).symlinks == old(self).symlinks,
            final(self).file_count == old(self).file_count,
            final(self).symlink_count == old(self).symlink_count,
            final(self).total_bytes == old(self).total_bytes,
            !encodable(views(entries@)) ==> (r matches Err(e) && e.kind == FstreeErrorKind::Msgpack)
                && final(self).trees == old(self).trees && final(self).dir_count == old(self).dir_count,
            encodable(views(entries@)) ==> (r matches Ok(h) && exists|sorted: Seq<TreeEntry>|
                {
                    &&& sorted.to_multiset() == entries@.to_multiset()
                    &&& sorted_by_name(views(sorted))
                    &&& h@ == blake3_of(tree_bytes(views(sorted)))
                    &&& final(self).trees.view() == old(self).trees.view().insert(h@, final(self).trees.view()[h@])
                    &&& final(self).trees.view()[h@]@ == tree_bytes(views(sorted))
                    &&& final(self).dir_count == old(self).dir_count + 1
                }),
    {
        let mut entries = entries;
        if !encodable_x(&entries) {
            return Err(FstreeError::new(FstreeErrorKind::Msgpack, "tree too large to encode"));
        }
        let ghost given = entries@;
        sort_entries(&mut entries);
        proof {
            lemma_encodable_perm(given, entries@);
        }
        let bytes = encode_tree(&entries);
        let hash = blake3_hash(bytes.as_slice());
        let ghost b = bytes;
        proof {
            crate::decode::lemma_tree_round_trip(views(entries@));
        }
        let _ = self.trees.insert(hash, bytes);
        proof {
            assert(self.trees.view()[hash@] == b);
            assert forall|k: Seq<u8>| #[trigger] self.trees.view().contains_key(k) implies k == blake3_of(
                self.trees.view()[k]@,
            ) && exists|es: Seq<TreeEntryView>| tree_entries(self.trees.view()[k]@) == Some(es) && sorted_by_name(es) by {
                if k != hash@ {
                    assert(old(self).trees.view().contains_key(k));
                } else {
                    assert(tree_entries(self.trees.view()[k]@) == Some(views(entries@)));
                }
            }
        }
        self.dir_count = self.dir_count + 1;
        Ok(hash)
    }

    /// The snapshot of a finished capture whose root tree has digest
    /// `root_hash`.
    pub fn into_snapshot(self, root_hash: [u8; 32], captured_at_ms: u64, duration_ms: u64) -> (r: Snapshot)
        ensures
            r.root_hash == root_hash,
            r.trees == self.trees,
            r.files == self.files,
            r.symlinks == self.symlinks,
            r.stats == (SnapshotStats {
                file_count: self.file_count,
                dir_count: self.dir_count,
                symlink_count: self.symlink_count,
                total_bytes: self.total_bytes,
                duration_ms,
            }),
            r.captured_at_ms == captured_at_ms,
            self.wf() ==> trees_sound(r.trees.view()),
    {
        Snapshot {
            root_hash,
            trees: self.trees,
            files: self.files,
            symlinks: self.symlinks,
            captured_at_ms,
            stats: SnapshotStats {
                file_count: self.file_count,
                dir_count: self.dir_count,
                symlink_count: self.symlink_count,
                total_bytes: self.total_bytes,
                duration_ms,
            },
        }
    }
}

/// A digest as a growable byte vector.
pub trait DigestBytes {
    fn to_vec_bytes(&self) -> Vec<u8>;
}

impl DigestBytes for [u8; 32] {
    fn to_vec_bytes(&self) -> (r: Vec<u8>)
        ensures
            r@ == self@,
    {
        let mut out: Vec<u8> = Vec::new();
        let mut i: usize = 0;
        while i < 32
            invariant
                i <= 32,
                self@.len() == 32,
                out@ == self@.subrange(0, i as int),
            decreases 32 - i,
        {
            out.push(self[i]);
            assert(out@ =~= self@.subrange(0, i + 1));
            i = i + 1;
        }
        assert(self@.subrange(0, 32) =~= self@);
        out
    }
}

fn encodable_x(es: &Vec<TreeEntry>) -> (r: bool)
    ensures
        r == encodable(views(es@)),
{
    let n = es.len();
    if n as u64 > 0xffff_ffff {
        return false;
    }
    let mut i: usize = 0;
    while i < n
        invariant
            n == es@.len(),
            n <= 0xffff_ffff,
            i <= n,
            forall|k: int| 0 <= k < i ==> name_bytes(#[trigger] views(es@)[k]).len() <= 0xffff_ffff && views(es@)[k].hash.len() <= 0xffff_ffff,
        decreases n - i,
    {
        let e = &es[i];
        assert(views(es@)[i as int] == e@);
        if e.name.as_str().as_bytes().len() as u64 > 0xffff_ffff || e.hash.len() as u64 > 0xffff_ffff {
            return false;
        }
        i = i + 1;
    }
    true
}

proof fn lemma_encodable_perm(a: Seq<TreeEntry>, b: Seq<TreeEntry>)
    requires
        encodable(views(a)),
        a.to_multiset() == b.to_multiset(),
    ensures
        encodable(views(b)),
{
    a.to_multiset_ensures();
    b.to_multiset_ensures();
    assert(a.len() == b.len()) by {
        vstd::seq_lib::to_multiset_len(a);
        vstd::seq_lib::to_multiset_len(b);
    }
    assert forall|i: int| 0 <= i < b.len() implies name_bytes(#[trigger] views(b)[i]).len() <= 0xffff_ffff
        && views(b)[i].hash.len() <= 0xffff_ffff by {
        assert(b.contains(b[i]));
        assert(b.to_multiset().count(b[i]) > 0);
        assert(a.to_multiset().count(b[i]) > 0);
        assert(a.contains(b[i]));
        let j = choose|j: int| 0 <= j < a.len() && a[j] == b[i];
        assert(views(a)[j] == views(b)[i]);
    }
}

/// A directory's tree object, and so its digest, does not depend on the
/// order in which its entries were listed: any two name-sorted orderings of
/// the same entries, whose names differ, encode to the same bytes.
pub proof fn lemma_tree_is_independent_of_listing_order(
    listed1: Seq<TreeEntry>,
    listed2: Seq<TreeEntry>,
    sorted1: Seq<TreeEntry>,
    sorted2: Seq<TreeEntry>,
)
    requires
        listed1.to_multiset() == listed2.to_multiset(),
        distinct_names(views(sorted1)),
        sorted1.to_multiset() == listed1.to_multiset(),
        sorted2.to_multiset() == listed2.to_multiset(),
        sorted_by_name(views(sorted1)),
        sorted_by_name(views(sorted2)),
    ensures
        tree_bytes(views(sorted1)) == tree_bytes(views(sorted2)),
        blake3_of(tree_bytes(views(sorted1))) == blake3_of(tree_bytes(views(sorted2))),
{
    lemma_sorted_order_is_unique(sorted1, sorted2);
}

/// Reading back the tree object a directory is stored as gives its entries
/// in ascending byte order of their names.
pub proof fn lemma_stored_tree_is_sorted(sorted: Seq<TreeEntry>)
    requires
        sorted_by_name(views(sorted)),
        encodable(views(sorted)),
    ensures
        tree_entries(tree_bytes(views(sorted))) == Some(views(sorted)),
        forall|i: int, j: int|
            0 <= i < j < sorted.len() ==> bytes_le(name_bytes(sorted[i]@), name_bytes(sorted[j]@)),
{
    crate::decode::lemma_tree_round_trip(views(sorted));
    assert forall|i: int, j: int| 0 <= i < j < sorted.len() implies bytes_le(
        name_bytes(sorted[i]@),
        name_bytes(sorted[j]@),
    ) by {
        assert(views(sorted)[i] == sorted[i]@ && views(sorted)[j] == sorted[j]@);
    }
}

} // verus!
