//! The commit record: one commit's structured data, and its mathematical
//! model.

use vstd::prelude::*;

use crate::text::subvec;

verus! {

/// One parsed commit. Text fields hold UTF-8 bytes; `insertions` and
/// `deletions` are the summed per-file stat counts; `timestamp` is seconds
/// since the epoch as the tool reported it.
pub struct CommitInfo {
    pub date: Vec<u8>,
    pub hash: Vec<u8>,
    pub author: Vec<u8>,
    pub message: Vec<u8>,
    pub branch: Vec<u8>,
    pub repo_name: Vec<u8>,
    pub insertions: u64,
    pub deletions: u64,
    pub timestamp: i64,
}

/// The mathematical model of a commit record.
pub ghost struct Commit {
    pub date: Seq<u8>,
    pub hash: Seq<u8>,
    pub author: Seq<u8>,
    pub message: Seq<u8>,
    pub branch: Seq<u8>,
    pub repo_name: Seq<u8>,
    pub insertions: int,
    pub deletions: int,
    pub timestamp: int,
}

impl View for CommitInfo {
    type V = Commit;

    open spec fn view(&self) -> Commit {
        Commit {
            date: self.date@,
            hash: self.hash@,
            author: self.author@,
            message: self.message@,
            branch: self.branch@,
            repo_name: self.repo_name@,
            insertions: self.insertions as int,
            deletions: self.deletions as int,
            timestamp: self.timestamp as int,
        }
    }
}

/// The models of a sequence of commit records.
pub open spec fn commit_views(cs: Seq<CommitInfo>) -> Seq<Commit> {
    cs.map_values(|c: CommitInfo| c@)
}

/// An independent copy of a byte vector.
pub fn copy_bytes(v: &Vec<u8>) -> (r: Vec<u8>)
    ensures
        r@ == v@,
{
    let r = subvec(v, 0, v.len());
    proof {
        assert(v@.subrange(0, v@.len() as int) =~= v@);
    }
    r
}

impl CommitInfo {
    /// An independent copy of the record.
    pub fn duplicate(&self) -> (r: CommitInfo)
        ensures
            r@ == self@,
    {
        CommitInfo {
            date: copy_bytes(&self.date),
            hash: copy_bytes(&self.hash),
            author: copy_bytes(&self.author),
            message: copy_bytes(&self.message),
            branch: copy_bytes(&self.branch),
            repo_name: copy_bytes(&self.repo_name),
            insertions: self.insertions,
            deletions: self.deletions,
            timestamp: self.timestamp,
        }
    }
}

} // verus!
