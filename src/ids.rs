//! Git object identifiers and the typed commit ids of the top repository and
//! of the monorepo.
use vstd::prelude::*;

verus! {

/// A git object id (SHA-1 or SHA-256), held as two big-endian 128-bit words.
/// A SHA-1 id occupies the first 20 bytes and leaves the rest zero.
#[derive(Clone, Copy, Debug, PartialEq, Eq, Structural, Hash, PartialOrd, Ord)]
pub struct ObjectId {
    pub hi: u128,
    pub lo: u128,
}

pub type CommitId = ObjectId;

pub type TreeId = ObjectId;

pub type BlobId = ObjectId;

impl ObjectId {
    pub fn new(hi: u128, lo: u128) -> (r: ObjectId)
        ensures
            r.hi == hi,
            r.lo == lo,
    {
        ObjectId { hi, lo }
    }

    /// The all-zero id, which git uses for "no object".
    pub fn null() -> (r: ObjectId)
        ensures
            r.hi == 0 && r.lo == 0,
    {
        ObjectId { hi: 0, lo: 0 }
    }
}

/// The id of a commit in the top repository.
#[derive(Clone, Copy, Debug, PartialEq, Eq, Structural, Hash, PartialOrd, Ord)]
pub struct TopRepoCommitId(pub CommitId);

impl TopRepoCommitId {
    pub fn new(commit_id: CommitId) -> (r: TopRepoCommitId)
        ensures
            r.0 == commit_id,
    {
        TopRepoCommitId(commit_id)
    }

    pub fn into_inner(self) -> (r: CommitId)
        ensures
            r == self.0,
    {
        self.0
    }

    pub fn get(&self) -> (r: &CommitId)
        ensures
            *r == self.0,
    {
        &self.0
    }
}

/// The id of a commit in the monorepo. While importing, the id of a commit may
/// not be known yet and is then the null id.
#[derive(Clone, Copy, Debug, PartialEq, Eq, Structural, Hash, PartialOrd, Ord)]
pub struct MonoRepoCommitId(pub CommitId);

impl MonoRepoCommitId {
    pub fn new(commit_id: CommitId) -> (r: MonoRepoCommitId)
        ensures
            r.0 == commit_id,
    {
        MonoRepoCommitId(commit_id)
    }

    pub fn dummy() -> (r: MonoRepoCommitId)
        ensures
            r.0.hi == 0 && r.0.lo == 0,
    {
        MonoRepoCommitId(ObjectId::null())
    }

    pub fn get(&self) -> (r: &CommitId)
        ensures
            *r == self.0,
    {
        &self.0
    }
}

} // verus!
