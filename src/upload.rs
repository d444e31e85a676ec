//! Accounting of an upload: each blob pushed to the server counts as
//! uploaded when the server did not have it and as skipped otherwise.

use vstd::prelude::*;

verus! {

/// What an upload of a snapshot pushed.
#[derive(Debug, Clone, Copy, PartialEq, Eq)]
pub struct UploadResult {
    pub root_hash: [u8; 32],
    pub trees_uploaded: usize,
    pub trees_skipped: usize,
    pub files_uploaded: usize,
    pub files_skipped: usize,
    pub bytes_uploaded: i64,
}

/// `total + n`, held at `i64::MAX`.
pub open spec fn add_bytes(total: i64, n: usize) -> i64 {
    if total as int + n as int > i64::MAX {
        i64::MAX
    } else {
        (total + n) as i64
    }
}

fn add_bytes_x(total: i64, n: usize) -> (r: i64)
    requires
        total >= 0,
    ensures
        r == add_bytes(total, n),
        r >= 0,
{
    if n as u64 > (i64::MAX - total) as u64 {
        i64::MAX
    } else {
        total + n as i64
    }
}

impl UploadResult {
    /// Nothing pushed yet for the snapshot with root `root_hash`.
    pub fn new(root_hash: [u8; 32]) -> (r: UploadResult)
        ensures
            r == (UploadResult {
                root_hash,
                trees_uploaded: 0,
                trees_skipped: 0,
                files_uploaded: 0,
                files_skipped: 0,
                bytes_uploaded: 0,
            }),
    {
        UploadResult {
            root_hash,
            trees_uploaded: 0,
            trees_skipped: 0,
            files_uploaded: 0,
            files_skipped: 0,
            bytes_uploaded: 0,
        }
    }

    /// Counts one tree object of `len` bytes.
    pub fn record_tree(&mut self, was_new: bool, len: usize)
        requires
            old(self).bytes_uploaded >= 0,
            old(self).trees_uploaded < usize::MAX,
            old(self).trees_skipped < usize::MAX,
        ensures
            was_new ==> *final(self) == (UploadResult {
                trees_uploaded: (old(self).trees_uploaded + 1) as usize,
                bytes_uploaded: add_bytes(old(self).bytes_uploaded, len),
                ..*old(self)
            }),
            !was_new ==> *final(self) == (UploadResult {
                trees_skipped: (old(self).trees_skipped + 1) as usize,
                ..*old(self)
            }),
            final(self).bytes_uploaded >= 0,
    {
        if was_new {
            self.trees_uploaded = self.trees_uploaded + 1;
            self.bytes_uploaded = add_bytes_x(self.bytes_uploaded, len);
        } else {
            self.trees_skipped = self.trees_skipped + 1;
        }
    }

    /// Counts one file or link target of `len` bytes.
    pub fn record_file(&mut self, was_new: bool, len: usize)
        requires
            old(self).bytes_uploaded >= 0,
            old(self).files_uploaded < usize::MAX,
            old(self).files_skipped < usize::MAX,
        ensures
            was_new ==> *final(self) == (UploadResult {
                files_uploaded: (old(self).files_uploaded + 1) as usize,
                bytes_uploaded: add_bytes(old(self).bytes_uploaded, len),
                ..*old(self)
            }),
            !was_new ==> *final(self) == (UploadResult {
                files_skipped: (old(self).files_skipped + 1) as usize,
                ..*old(self)
            }),
            final(self).bytes_uploaded >= 0,
    {
        if was_new {
            self.files_uploaded = self.files_uploaded + 1;
            self.bytes_uploaded = add_bytes_x(self.bytes_uploaded, len);
        } else {
            self.files_skipped = self.files_skipped + 1;
        }
    }
}

} // verus!
