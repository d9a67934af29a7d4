//! Reusing imported commits that differ only in their committer, so that
//! running an import again does not produce new commit ids.
use vstd::prelude::*;
use crate::bytes::{bytes_eq, copy_bytes};
use crate::ids::{CommitId, TreeId};

verus! {

/// A commit as it is handed to git fast-import.
#[derive(Debug)]
pub struct ImportedCommit {
    pub author: Vec<u8>,
    pub committer: Vec<u8>,
    pub message: Vec<u8>,
    pub parents: Vec<CommitId>,
    pub tree_id: TreeId,
}

/// Everything of a commit but its committer.
#[derive(Debug)]
pub struct DedupKey {
    pub author: Vec<u8>,
    pub message: Vec<u8>,
    pub parents: Vec<CommitId>,
    pub tree_id: TreeId,
}

pub type KeyView = (Seq<u8>, Seq<u8>, Seq<CommitId>, TreeId);

pub open spec fn key_view(k: DedupKey) -> KeyView {
    (k.author@, k.message@, k.parents@, k.tree_id)
}

/// The dedup key of a commit: all of it except the committer.
pub open spec fn key_of_commit(c: ImportedCommit) -> KeyView {
    (c.author@, c.message@, c.parents@, c.tree_id)
}

fn same_ids(a: &Vec<CommitId>, b: &Vec<CommitId>) -> (r: bool)
    ensures
        r == (a@ == b@),
{
    if a.len() != b.len() {
        return false;
    }
    let mut i: usize = 0;
    while i < a.len()
        invariant
            a@.len() == b@.len(),
            i <= a@.len(),
            forall|k: int| 0 <= k < i ==> a@[k] == b@[k],
        decreases a@.len() - i,
    {
        if a[i] != b[i] {
            return false;
        }
        i = i + 1;
    }
    assert(a@ =~= b@);
    true
}

impl DedupKey {
    /// The key of `c`.
    pub fn of_commit(c: &ImportedCommit) -> (r: DedupKey)
        ensures
            key_view(r) == key_of_commit(*c),
    {
        let mut parents: Vec<CommitId> = Vec::new();
        let mut i: usize = 0;
        while i < c.parents.len()
            invariant
                i <= c.parents@.len(),
                parents@ == c.parents@.subrange(0, i as int),
            decreases c.parents@.len() - i,
        {
            parents.push(c.parents[i]);
            i = i + 1;
            assert(parents@ =~= c.parents@.subrange(0, i as int));
        }
        assert(c.parents@.subrange(0, c.parents@.len() as int) =~= c.parents@);
        DedupKey {
            author: copy_bytes(c.author.as_slice()),
            message: copy_bytes(c.message.as_slice()),
            parents,
            tree_id: c.tree_id,
        }
    }

    pub fn same(&self, other: &DedupKey) -> (r: bool)
        ensures
            r == (key_view(*self) == key_view(*other)),
    {
        self.tree_id == other.tree_id && bytes_eq(self.author.as_slice(), other.author.as_slice())
            && bytes_eq(self.message.as_slice(), other.message.as_slice()) && same_ids(&self.parents, &other.parents)
    }
}

/// The last id recorded for key `k`.
pub open spec fn dedup_lookup(entries: Seq<(DedupKey, CommitId)>, k: KeyView) -> Option<CommitId>
    decreases entries.len(),
{
    if entries.len() == 0 {
        None
    } else if key_view(entries.last().0) == k {
        Some(entries.last().1)
    } else {
        dedup_lookup(entries.drop_last(), k)
    }
}

/// The latest imported or exported commit id of each dedup key.
#[derive(Debug)]
pub struct DedupCache {
    pub entries: Vec<(DedupKey, CommitId)>,
}

impl DedupCache {
    pub fn new() -> (r: DedupCache)
        ensures
            r.entries@.len() == 0,
    {
        DedupCache { entries: Vec::new() }
    }

    /// The id recorded for `key`, if any.
    pub fn get(&self, key: &DedupKey) -> (r: Option<CommitId>)
        ensures
            r == dedup_lookup(self.entries@, key_view(*key)),
    {
        let mut k: usize = self.entries.len();
        assert(self.entries@.subrange(0, k as int) =~= self.entries@);
        while k > 0
            invariant
                k <= self.entries@.len(),
                dedup_lookup(self.entries@, key_view(*key)) == dedup_lookup(
                    self.entries@.subrange(0, k as int),
                    key_view(*key),
                ),
            decreases k,
        {
            let ghost sub = self.entries@.subrange(0, k as int);
            assert(sub.drop_last() =~= self.entries@.subrange(0, k - 1));
            if self.entries[k - 1].0.same(key) {
                return Some(self.entries[k - 1].1);
            }
            k = k - 1;
        }
        None
    }

    /// Records `id` as the latest commit for `key`.
    pub fn insert(&mut self, key: DedupKey, id: CommitId)
        ensures
            final(self).entries@ == old(self).entries@.push((key, id)),
    {
        self.entries.push((key, id));
    }

    /// The id to use for `c`: the one recorded for a commit that differs from
    /// it at most in its committer, or `written`, the id it got when written,
    /// which is then recorded.
    pub fn dedup_commit(&mut self, c: &ImportedCommit, written: CommitId) -> (r: CommitId)
        ensures
            match dedup_lookup(old(self).entries@, key_of_commit(*c)) {
                Some(prev) => r == prev && final(self).entries@ == old(self).entries@,
                None => r == written && dedup_lookup(final(self).entries@, key_of_commit(*c)) == Some(written)
                    && final(self).entries@.len() == old(self).entries@.len() + 1,
            },
    {
        let key = DedupKey::of_commit(c);
        match self.get(&key) {
            Some(prev) => prev,
            None => {
                self.insert(key, written);
                written
            },
        }
    }
}

/// Writing the same commit again, whatever its committer, gives back the id
/// that the first write recorded.
pub proof fn lemma_dedup_ignores_committer(
    entries: Seq<(DedupKey, CommitId)>,
    first: ImportedCommit,
    again: ImportedCommit,
    key: DedupKey,
    id: CommitId,
)
    requires
        key_view(key) == key_of_commit(first),
        first.author@ == again.author@,
        first.message@ == again.message@,
        first.parents@ == again.parents@,
        first.tree_id == again.tree_id,
    ensures
        dedup_lookup(entries.push((key, id)), key_of_commit(again)) == Some(id),
{
    assert(entries.push((key, id)).last() == (key, id));
}

} // verus!
