//! Options of a snapshot capture and the rule that decides which entries it
//! leaves out.

use vstd::prelude::*;
use vstd::slice::{slice_subrange, slice_to_vec};
use crate::paths::{path_components, split_chars};
use crate::text::chars_equal;
use crate::text::chars_of;

verus! {

/// Default limit on the size of one file, in bytes.
pub const DEFAULT_MAX_FILE_SIZE: i64 = 100 * 1024 * 1024;

/// Default limit on the number of files.
pub const DEFAULT_MAX_FILES: usize = 100_000;

/// What a capture walks and what it leaves out.
#[derive(Debug, Clone)]
pub struct Options {
    pub exclude_patterns: Vec<String>,
    pub follow_symlinks: bool,
    pub max_file_size: i64,
    pub max_files: usize,
}

impl Default for Options {
    fn default() -> (r: Options)
        ensures
            r.exclude_patterns@.len() == 0,
            !r.follow_symlinks,
            r.max_file_size == DEFAULT_MAX_FILE_SIZE,
            r.max_files == DEFAULT_MAX_FILES,
    {
        Options {
            exclude_patterns: Vec::new(),
            follow_symlinks: false,
            max_file_size: DEFAULT_MAX_FILE_SIZE,
            max_files: DEFAULT_MAX_FILES,
        }
    }
}

/// One setting of [`Options`].
#[derive(Debug, Clone)]
pub enum SnapshotOption {
    Exclude(Vec<String>),
    FollowSymlinks,
    MaxFileSize(i64),
    MaxFiles(usize),
}

/// Adds exclusion patterns.
pub fn with_exclude(patterns: Vec<String>) -> (r: SnapshotOption)
    ensures
        r == SnapshotOption::Exclude(patterns),
{
    SnapshotOption::Exclude(patterns)
}

/// Follows symbolic links instead of recording them.
pub fn with_follow_symlinks() -> (r: SnapshotOption)
    ensures
        r == SnapshotOption::FollowSymlinks,
{
    SnapshotOption::FollowSymlinks
}

/// Sets the largest file size accepted.
pub fn with_max_file_size(bytes: i64) -> (r: SnapshotOption)
    ensures
        r == SnapshotOption::MaxFileSize(bytes),
{
    SnapshotOption::MaxFileSize(bytes)
}

/// Sets the largest number of files accepted.
pub fn with_max_files(count: usize) -> (r: SnapshotOption)
    ensures
        r == SnapshotOption::MaxFiles(count),
{
    SnapshotOption::MaxFiles(count)
}

impl Options {
    /// Applies one setting.
    pub fn apply(&mut self, opt: SnapshotOption)
        ensures
            match opt {
                SnapshotOption::Exclude(ps) => final(self).exclude_patterns@ == old(self).exclude_patterns@ + ps@
                    && final(self).follow_symlinks == old(self).follow_symlinks && final(self).max_file_size
                    == old(self).max_file_size && final(self).max_files == old(self).max_files,
                SnapshotOption::FollowSymlinks => final(self).follow_symlinks && final(self).exclude_patterns
                    == old(self).exclude_patterns && final(self).max_file_size == old(self).max_file_size
                    && final(self).max_files == old(self).max_files,
                SnapshotOption::MaxFileSize(b) => final(self).max_file_size == b && final(self).exclude_patterns
                    == old(self).exclude_patterns && final(self).follow_symlinks == old(self).follow_symlinks
                    && final(self).max_files == old(self).max_files,
                SnapshotOption::MaxFiles(c) => final(self).max_files == c && final(self).exclude_patterns
                    == old(self).exclude_patterns && final(self).follow_symlinks == old(self).follow_symlinks
                    && final(self).max_file_size == old(self).max_file_size,
            },
    {
        match opt {
            SnapshotOption::Exclude(ps) => {
                let mut ps = ps;
                self.exclude_patterns.append(&mut ps);
            },
            SnapshotOption::FollowSymlinks => self.follow_symlinks = true,
            SnapshotOption::MaxFileSize(b) => self.max_file_size = b,
            SnapshotOption::MaxFiles(c) => self.max_files = c,
        }
    }
}

/// What `glob::Pattern::new(pattern)` then `matches(text)` yields; a
/// pattern that does not parse matches nothing.
pub uninterp spec fn glob_match_of(pattern: Seq<char>, text: Seq<char>) -> bool;

/// Relies on `glob::Pattern::new` and `glob::Pattern::matches`: shell-style
/// matching of `text` against `pattern`, false when the pattern is invalid.
#[verifier::external_body]
fn glob_matches(pattern: &[char], text: &[char]) -> (r: bool)
    ensures
        r == glob_match_of(pattern@, text@),
{
    let p: String = pattern.iter().collect();
    let t: String = text.iter().collect();
    match glob::Pattern::new(&p) {
        Ok(g) => g.matches(&t),
        Err(_) => false,
    }
}

/// A relative path with backslashes turned into forward slashes.
pub open spec fn normalized(p: Seq<char>) -> Seq<char> {
    p.map_values(|c: char| if c == '\\' { '/' } else { c })
}

/// The last component of a path, or empty where it has none or it is `..`.
pub open spec fn basename(p: Seq<char>) -> Seq<char> {
    let cs = path_components(p);
    if cs.len() == 0 || cs.last() == seq!['.', '.'] {
        Seq::empty()
    } else {
        cs.last()
    }
}

/// A pattern `prefix/**` leaves out the directory `prefix` and every
/// directory below it, and any directory that `prefix` matches as a glob.
pub open spec fn double_star_dir(pat: Seq<char>, rel: Seq<char>, is_dir: bool) -> bool {
    let n = pat.len();
    is_dir && n >= 3 && pat.subrange(n - 3, n as int) == seq!['/', '*', '*'] && {
        let prefix = pat.subrange(0, n - 3);
        rel == prefix || (rel.len() > prefix.len() && rel.subrange(0, prefix.len() as int) == prefix
            && rel[prefix.len() as int] == '/') || glob_match_of(prefix, rel)
    }
}

/// Whether one pattern leaves out the entry at `rel` (already normalised).
pub open spec fn pattern_excludes(pat: Seq<char>, rel: Seq<char>, is_dir: bool) -> bool {
    double_star_dir(pat, rel, is_dir) || glob_match_of(pat, rel) || glob_match_of(pat, basename(rel))
}

/// Whether any of the patterns leaves out the entry at `rel_path`.
pub open spec fn excluded(pats: Seq<String>, rel_path: Seq<char>, is_dir: bool) -> bool {
    exists|i: int| 0 <= i < pats.len() && pattern_excludes((#[trigger] pats[i])@, normalized(rel_path), is_dir)
}

fn normalize_path(p: &Vec<char>) -> (r: Vec<char>)
    ensures
        r@ == normalized(p@),
{
    let mut out: Vec<char> = Vec::new();
    let mut i: usize = 0;
    while i < p.len()
        invariant
            i <= p@.len(),
            out@ == normalized(p@.subrange(0, i as int)),
        decreases p@.len() - i,
    {
        let c = p[i];
        out.push(if c == '\\' { '/' } else { c });
        assert(normalized(p@.subrange(0, i + 1)) =~= normalized(p@.subrange(0, i as int)).push(
            if c == '\\' { '/' } else { c },
        ));
        i = i + 1;
    }
    assert(p@.subrange(0, p@.len() as int) =~= p@);
    out
}

fn basename_x(rel: &Vec<char>) -> (r: Vec<char>)
    ensures
        r@ == basename(rel@),
{
    let parts = split_chars(rel);
    let n = parts.len();
    if n == 0 {
        return Vec::new();
    }
    let last = &parts[n - 1];
    assert(crate::paths::char_views(parts@).last() == last@);
    if last.len() == 2 && last[0] == '.' && last[1] == '.' {
        assert(last@ =~= seq!['.', '.']);
        return Vec::new();
    }
    assert(last@ != seq!['.', '.']);
    slice_to_vec(last.as_slice())
}

fn ends_with_double_star(pc: &Vec<char>) -> (r: bool)
    ensures
        r == (pc@.len() >= 3 && pc@.subrange(pc@.len() - 3, pc@.len() as int) == seq!['/', '*', '*']),
{
    let n = pc.len();
    if n < 3 {
        return false;
    }
    let r = pc[n - 3] == '/' && pc[n - 2] == '*' && pc[n - 1] == '*';
    if r {
        assert(pc@.subrange(n - 3, n as int) =~= seq!['/', '*', '*']);
    } else {
        assert(pc@.subrange(n - 3, n as int)[0] == pc@[n - 3]);
        assert(pc@.subrange(n - 3, n as int)[1] == pc@[n - 2]);
        assert(pc@.subrange(n - 3, n as int)[2] == pc@[n - 1]);
    }
    r
}

fn starts_with_dir(rel: &Vec<char>, prefix: &Vec<char>) -> (r: bool)
    ensures
        r == (rel@.len() > prefix@.len() && rel@.subrange(0, prefix@.len() as int) == prefix@
            && rel@[prefix@.len() as int] == '/'),
{
    let n = prefix.len();
    if rel.len() <= n {
        return false;
    }
    let mut i: usize = 0;
    while i < n
        invariant
            n == prefix@.len(),
            rel@.len() > n,
            i <= n,
            forall|k: int| 0 <= k < i ==> rel@[k] == prefix@[k],
        decreases n - i,
    {
        if rel[i] != prefix[i] {
            assert(rel@.subrange(0, n as int)[i as int] == rel@[i as int]);
            return false;
        }
        i = i + 1;
    }
    assert(rel@.subrange(0, n as int) =~= prefix@);
    rel[n] == '/'
}

fn is_double_star_dir(pc: &Vec<char>, rel: &Vec<char>, is_dir: bool) -> (r: bool)
    ensures
        r == double_star_dir(pc@, rel@, is_dir),
{
    if !is_dir {
        return false;
    }
    if !ends_with_double_star(pc) {
        return false;
    }
    let n = pc.len();
    let prefix = slice_to_vec(slice_subrange(pc.as_slice(), 0, n - 3));
    if chars_equal(rel, &prefix) {
        return true;
    }
    starts_with_dir(rel, &prefix) || glob_matches(prefix.as_slice(), rel.as_slice())
}

impl Options {
    /// Whether an exclusion pattern leaves out the entry at `rel_path`.
    /// Backslashes count as separators. For each pattern, in order: a
    /// `prefix/**` pattern leaves out the directory `prefix` and the
    /// directories below it; otherwise the pattern leaves out what it matches
    /// as a glob, against the whole path or against its last component.
    pub fn should_exclude(&self, rel_path: &str, is_dir: bool) -> (r: bool)
        ensures
            r == excluded(self.exclude_patterns@, rel_path@, is_dir),
    {
        let raw = chars_of(rel_path);
        let rel = normalize_path(&raw);
        let base = basename_x(&rel);
        let n = self.exclude_patterns.len();
        let mut i: usize = 0;
        while i < n
            invariant
                n == self.exclude_patterns@.len(),
                i <= n,
                rel@ == normalized(rel_path@),
                base@ == basename(rel@),
                forall|k: int| 0 <= k < i ==> !pattern_excludes(#[trigger] self.exclude_patterns@[k]@, rel@, is_dir),
            decreases n - i,
        {
            let pc = chars_of(self.exclude_patterns[i].as_str());
            if is_double_star_dir(&pc, &rel, is_dir) || glob_matches(pc.as_slice(), rel.as_slice())
                || glob_matches(pc.as_slice(), base.as_slice()) {
                assert(pattern_excludes(self.exclude_patterns@[i as int]@, rel@, is_dir));
                return true;
            }
            i = i + 1;
        }
        false
    }
}

/// A `prefix/**` pattern leaves out the directory `prefix` itself and every
/// directory below it, at whatever depth.
pub proof fn lemma_double_star_excludes_subtree(pats: Seq<String>, k: int, prefix: Seq<char>, rest: Seq<char>)
    requires
        0 <= k < pats.len(),
        pats[k]@ == prefix + seq!['/', '*', '*'],
        forall|i: int| 0 <= i < prefix.len() ==> prefix[i] != '\\',
        forall|i: int| 0 <= i < rest.len() ==> rest[i] != '\\',
    ensures
        excluded(pats, prefix, true),
        excluded(pats, prefix + seq!['/'] + rest, true),
{
    let p = pats[k]@;
    let n = p.len();
    assert(p.subrange(n - 3, n as int) =~= seq!['/', '*', '*']);
    assert(p.subrange(0, n - 3) =~= prefix);
    assert(normalized(prefix) =~= prefix);
    assert(pattern_excludes(pats[k]@, normalized(prefix), true));
    let d = prefix + seq!['/'] + rest;
    assert(normalized(d) =~= d);
    assert(d.subrange(0, prefix.len() as int) =~= prefix);
    assert(pattern_excludes(pats[k]@, normalized(d), true));
}

/// A pattern that matches an entry's name leaves the entry out wherever it
/// stands in the tree.
pub proof fn lemma_name_pattern_excludes_at_any_depth(pats: Seq<String>, k: int, rel: Seq<char>, is_dir: bool)
    requires
        0 <= k < pats.len(),
        glob_match_of(pats[k]@, basename(normalized(rel))),
    ensures
        excluded(pats, rel, is_dir),
{
    assert(pattern_excludes(pats[k]@, normalized(rel), is_dir));
}

} // verus!
