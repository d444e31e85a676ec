//! Resolving paths inside a snapshot by walking its tree objects in a blob
//! store, one component at a time.

use vstd::prelude::*;
use crate::blobs::BlobStore;
pub use crate::error::StoreError;
use crate::decode::{decode_tree, tree_entries};
use crate::text::{chars_equal, chars_of, string_from_chars};
use crate::tree::{kind_of_code, EntryKind, TreeEntry, TreeEntryView, views, KIND_DIRECTORY};

verus! {

/// A path component that names something: not empty and not `.`.
pub open spec fn keep(c: Seq<char>) -> bool {
    c.len() > 0 && c != seq!['.']
}

/// Splitting on `/`: the components finished so far and the one in
/// progress.
pub open spec fn comps(p: Seq<char>) -> (Seq<Seq<char>>, Seq<char>)
    decreases p.len(),
{
    if p.len() == 0 {
        (Seq::empty(), Seq::empty())
    } else {
        let (done, cur) = comps(p.drop_last());
        if p.last() == '/' {
            (
                if keep(cur) {
                    done.push(cur)
                } else {
                    done
                },
                Seq::empty(),
            )
        } else {
            (done, cur.push(p.last()))
        }
    }
}

/// The components of a path split on `/`, without empty and `.` ones.
pub open spec fn path_components(p: Seq<char>) -> Seq<Seq<char>> {
    let (done, cur) = comps(p);
    if keep(cur) {
        done.push(cur)
    } else {
        done
    }
}

pub open spec fn char_views(v: Seq<Vec<char>>) -> Seq<Seq<char>> {
    v.map_values(|c: Vec<char>| c@)
}

/// The components of `path`.
pub fn split_path(path: &str) -> (r: Vec<Vec<char>>)
    ensures
        char_views(r@) == path_components(path@),
{
    let p = chars_of(path);
    split_chars(&p)
}

/// The components of the path whose characters are `p`.
pub fn split_chars(p: &Vec<char>) -> (r: Vec<Vec<char>>)
    ensures
        char_views(r@) == path_components(p@),
{
    let n = p.len();
    let mut done: Vec<Vec<char>> = Vec::new();
    let mut cur: Vec<char> = Vec::new();
    let mut k: usize = 0;
    assert(p@.subrange(0, 0) =~= Seq::<char>::empty());
    while k < n
        invariant
            n == p@.len(),
            k <= n,
            (char_views(done@), cur@) == comps(p@.subrange(0, k as int)),
        decreases n - k,
    {
        assert(p@.subrange(0, k + 1).drop_last() =~= p@.subrange(0, k as int));
        let c = p[k];
        if c == '/' {
            if cur.len() > 0 && !(cur.len() == 1 && cur[0] == '.') {
                assert(cur@ != seq!['.']);
                let ghost before = done@;
                done.push(cur);
                assert(char_views(done@) =~= char_views(before).push(cur@));
            } else if cur.len() == 1 {
                assert(cur@ =~= seq!['.']);
            }
            cur = Vec::new();
        } else {
            cur.push(c);
        }
        k = k + 1;
    }
    assert(p@.subrange(0, n as int) =~= p@);
    if cur.len() > 0 && !(cur.len() == 1 && cur[0] == '.') {
        assert(cur@ != seq!['.']);
        let ghost before = done@;
        done.push(cur);
        assert(char_views(done@) =~= char_views(before).push(cur@));
    } else if cur.len() == 1 {
        assert(cur@ =~= seq!['.']);
    }
    done
}

/// The message `prefix` followed by the characters of `tail`.
fn with_suffix(prefix: &str, tail: &[char]) -> (r: String)
    ensures
        r@ == prefix@ + tail@,
{
    let mut all = chars_of(prefix);
    let mut i: usize = 0;
    let ghost start = all@;
    while i < tail.len()
        invariant
            start == prefix@,
            i <= tail@.len(),
            all@ == start + tail@.subrange(0, i as int),
        decreases tail@.len() - i,
    {
        all.push(tail[i]);
        assert(all@ =~= start + tail@.subrange(0, i + 1));
        i = i + 1;
    }
    assert(tail@.subrange(0, tail@.len() as int) =~= tail@);
    string_from_chars(all.as_slice())
}

/// The first entry named `name`.
pub open spec fn first_named(es: Seq<TreeEntryView>, name: Seq<char>) -> Option<TreeEntryView>
    decreases es.len(),
{
    if es.len() == 0 {
        None
    } else if es[0].name == name {
        Some(es[0])
    } else {
        first_named(es.drop_first(), name)
    }
}

/// Where a walk down the components ends.
pub enum Walk {
    /// A tree object is not in the store.
    Missing,
    /// A tree object does not decode, or an entry's digest is not 32 bytes.
    Corrupt,
    /// A component names no entry.
    NoEntry(Seq<char>),
    /// A component before the last is not a directory.
    NotDir(Seq<char>),
    /// The last component's entry.
    Found(TreeEntryView),
}

/// Walking `parts` down from the tree stored under `cur`.
pub open spec fn walk(store: Map<Seq<u8>, Seq<u8>>, cur: Seq<u8>, parts: Seq<Seq<char>>) -> Walk
    decreases parts.len(),
{
    if parts.len() == 0 {
        Walk::NoEntry(Seq::empty())
    } else if !store.contains_key(cur) {
        Walk::Missing
    } else {
        match tree_entries(store[cur]) {
            None => Walk::Corrupt,
            Some(es) => match first_named(es, parts[0]) {
                None => Walk::NoEntry(parts[0]),
                Some(e) => if e.hash.len() != 32 {
                    Walk::Corrupt
                } else if parts.len() == 1 {
                    Walk::Found(e)
                } else if kind_of_code(e.kind) != EntryKind::Directory {
                    Walk::NotDir(parts[0])
                } else {
                    walk(store, e.hash, parts.drop_first())
                },
            },
        }
    }
}

proof fn lemma_found_hash_len(store: Map<Seq<u8>, Seq<u8>>, cur: Seq<u8>, parts: Seq<Seq<char>>)
    ensures
        walk(store, cur, parts) matches Walk::Found(e) ==> e.hash.len() == 32,
    decreases parts.len(),
{
    if parts.len() > 1 {
        lemma_found_hash_len(store, cur, parts.drop_first());
        if store.contains_key(cur) {
            if let Some(es) = tree_entries(store[cur]) {
                if let Some(e) = first_named(es, parts[0]) {
                    lemma_found_hash_len(store, e.hash, parts.drop_first());
                }
            }
        }
    }
}

/// The entries of the tree object stored under `tree_hash`.
pub fn load_tree_entries(store: &BlobStore, tree_hash: &[u8]) -> (r: Result<Vec<TreeEntry>, StoreError>)
    requires
        store.wf(),
    ensures
        !store.view().contains_key(tree_hash@) ==> (r matches Err(StoreError::NotFound(_))),
        store.view().contains_key(tree_hash@) ==> match tree_entries(store.view()[tree_hash@]) {
            None => r matches Err(StoreError::Corrupt(_)),
            Some(es) => r matches Ok(v) && views(v@) == es,
        },
{
    let bytes = match store.get(tree_hash) {
        Some(b) => b,
        None => {
            return Err(StoreError::NotFound("blob not found".to_string()));
        },
    };
    match decode_tree(bytes.as_slice()) {
        Some(v) => Ok(v),
        None => Err(StoreError::Corrupt("invalid tree object".to_string())),
    }
}

/// The index of the first entry named `name`.
fn find_named(es: &Vec<TreeEntry>, name: &Vec<char>) -> (r: Option<usize>)
    ensures
        match first_named(views(es@), name@) {
            None => r is None,
            Some(e) => r matches Some(i) && i < es@.len() && es@[i as int]@ == e,
        },
{
    let n = es.len();
    let mut j: usize = 0;
    assert(views(es@).skip(0) =~= views(es@));
    while j < n
        invariant
            n == es@.len(),
            j <= n,
            first_named(views(es@), name@) == first_named(views(es@).skip(j as int), name@),
        decreases n - j,
    {
        let nm = chars_of(es[j].name.as_str());
        assert(views(es@).skip(j as int)[0] == es@[j as int]@);
        if chars_equal(&nm, name) {
            return Some(j);
        }
        assert(views(es@).skip(j as int).drop_first() =~= views(es@).skip(j + 1));
        j = j + 1;
    }
    None
}

/// How a walk that did not find its entry is reported.
pub open spec fn walk_err_ok(w: Walk, r: StoreError) -> bool {
    match w {
        Walk::Missing => r matches StoreError::NotFound(_),
        Walk::NoEntry(c) => r matches StoreError::NotFound(m) && m@ == "path component not found: "@ + c,
        Walk::Corrupt => r matches StoreError::Corrupt(_),
        Walk::NotDir(c) => r matches StoreError::InvalidInput(m) && m@ == "not a directory: "@ + c,
        Walk::Found(_) => false,
    }
}

/// Walks `parts` down from `root`: the last component's entry, or the error
/// the walk ends in.
fn walk_parts(store: &BlobStore, root: &[u8; 32], parts: &Vec<Vec<char>>) -> (r: Result<TreeEntry, StoreError>)
    requires
        parts@.len() > 0,
        store.wf(),
    ensures
        match walk(store.view(), root@, char_views(parts@)) {
            Walk::Found(e) => r matches Ok(x) && x@ == e,
            w => r matches Err(err) && walk_err_ok(w, err),
        },
{
    let ghost all = char_views(parts@);
    let n = parts.len();
    let mut cur: Vec<u8> = vstd::slice::slice_to_vec(root);
    let mut i: usize = 0;
    assert(all.skip(0) =~= all);
    loop
        invariant
            store.wf(),
            n == parts@.len(),
            all == char_views(parts@),
            i < n,
            walk(store.view(), root@, all) == walk(store.view(), cur@, all.skip(i as int)),
        decreases n - i,
    {
        let ghost rest = all.skip(i as int);
        assert(rest[0] == parts@[i as int]@);
        let entries = match load_tree_entries(store, cur.as_slice()) {
            Ok(v) => v,
            Err(e) => {
                return Err(e);
            },
        };
        let idx = match find_named(&entries, &parts[i]) {
            Some(j) => j,
            None => {
                return Err(StoreError::NotFound(with_suffix("path component not found: ", parts[i].as_slice())));
            },
        };
        let entry = &entries[idx];
        if entry.hash.len() != 32 {
            return Err(StoreError::Corrupt("invalid hash length".to_string()));
        }
        if i == n - 1 {
            return Ok(entry.clone_entry());
        }
        if entry.kind != KIND_DIRECTORY {
            return Err(StoreError::InvalidInput(with_suffix("not a directory: ", parts[i].as_slice())));
        }
        cur = entry.hash.clone();
        assert(rest.drop_first() =~= all.skip(i + 1));
        i = i + 1;
    }
}

/// What resolving a path yields: the digest it names and whether that is a
/// directory. An empty path (or one of only `/` and `.`) names the root.
pub open spec fn resolved(store: Map<Seq<u8>, Seq<u8>>, root: Seq<u8>, path: Seq<char>) -> Option<(Seq<u8>, bool)> {
    let parts = path_components(path);
    if parts.len() == 0 {
        Some((root, true))
    } else {
        match walk(store, root, parts) {
            Walk::Found(e) => Some((e.hash, kind_of_code(e.kind) == EntryKind::Directory)),
            _ => None,
        }
    }
}

/// Resolves `path` under the snapshot `root_hash` to the digest it names
/// and whether it is a directory.
pub fn resolve_path(store: &BlobStore, root_hash: &[u8; 32], path: &str) -> (r: Result<([u8; 32], bool), StoreError>)
    requires
        store.wf(),
    ensures
        match resolved(store.view(), root_hash@, path@) {
            Some((h, d)) => r matches Ok((x, dir)) && x@ == h && dir == d,
            None => r matches Err(err) && walk_err_ok(walk(store.view(), root_hash@, path_components(path@)), err),
        },
{
    let parts = split_path(path);
    if parts.len() == 0 {
        return Ok((*root_hash, true));
    }
    let entry = walk_parts(store, root_hash, &parts)?;
    proof {
        lemma_found_hash_len(store.view(), root_hash@, char_views(parts@));
    }
    let h = match entry.hash_array() {
        Ok(h) => h,
        Err(_) => {
            return Err(StoreError::Corrupt("invalid hash length".to_string()));
        },
    };
    Ok((h, entry.kind == KIND_DIRECTORY))
}

/// Where reading a file by path ends: its entry and the stored bytes of its
/// content (a link's target for a symbolic link), or the reason it failed.
pub enum FileLookup {
    Empty,
    Walked(Walk),
    IsDir,
    NoContent,
    Found(TreeEntryView, Seq<u8>),
}

pub open spec fn file_at(store: Map<Seq<u8>, Seq<u8>>, root: Seq<u8>, path: Seq<char>) -> FileLookup {
    let parts = path_components(path);
    if parts.len() == 0 {
        FileLookup::Empty
    } else {
        match walk(store, root, parts) {
            Walk::Found(e) => if kind_of_code(e.kind) == EntryKind::Directory {
                FileLookup::IsDir
            } else if !store.contains_key(e.hash) {
                FileLookup::NoContent
            } else {
                FileLookup::Found(e, store[e.hash])
            },
            w => FileLookup::Walked(w),
        }
    }
}

/// Reads the file or symbolic link at `path` under the snapshot
/// `root_hash`: its content and its entry.
pub fn get_file_at_path(store: &BlobStore, root_hash: &[u8; 32], path: &str) -> (r: Result<(Vec<u8>, TreeEntry), StoreError>)
    requires
        store.wf(),
    ensures
        match file_at(store.view(), root_hash@, path@) {
            FileLookup::Empty => r matches Err(StoreError::InvalidInput(m)) && m@ == "path is a directory: "@ + path@,
            FileLookup::IsDir => r matches Err(StoreError::InvalidInput(m)) && m@ == "path is a directory: "@ + path@,
            FileLookup::NoContent => r matches Err(StoreError::NotFound(_)),
            FileLookup::Walked(w) => r matches Err(err) && walk_err_ok(w, err),
            FileLookup::Found(e, c) => r matches Ok((content, x)) && content@ == c && x@ == e,
        },
{
    let parts = split_path(path);
    if parts.len() == 0 {
        return Err(StoreError::InvalidInput(with_suffix("path is a directory: ", chars_of(path).as_slice())));
    }
    let entry = walk_parts(store, root_hash, &parts)?;
    if entry.kind == KIND_DIRECTORY {
        return Err(StoreError::InvalidInput(with_suffix("path is a directory: ", chars_of(path).as_slice())));
    }
    match store.get(entry.hash.as_slice()) {
        Some(content) => Ok((content, entry)),
        None => Err(StoreError::NotFound("blob not found".to_string())),
    }
}

} // verus!
