//! Which parents the commits split out of a monorepo commit get, and which
//! of the queued pushes are still needed.
use vstd::prelude::*;
use crate::bytes::{bytes_eq, copy_bytes};
use crate::ids::CommitId;
use crate::mono::{
    chain_mono_bump, chain_top_bump, orig_commit_of, ExpandedOrRemovedSubmodule, ExpandedSubmodule,
    MonoRepoCommit, TopRepoCache,
};
use crate::path::{GitPath, RepoName};

verus! {

/// The sub repository named by a resolved gitlink, if it is known.
pub open spec fn known_repo_of(e: ExpandedSubmodule) -> Option<Seq<u8>> {
    match e {
        ExpandedSubmodule::Expanded(c) => Some(c.repo_name@),
        ExpandedSubmodule::CommitMissingInSubRepo(c) => Some(c.repo_name@),
        ExpandedSubmodule::RegressedNotFullyImplemented(c) => Some(c.repo_name@),
        _ => None,
    }
}

/// The commit of repository `repo` (`None` for the top repository) that
/// monorepo commit `i` carries at `path`, if any.
pub open spec fn parent_commit_for(
    g: Seq<MonoRepoCommit>,
    i: int,
    repo: Option<Seq<u8>>,
    path: Seq<u8>,
) -> Option<CommitId> {
    match repo {
        None => match chain_top_bump(g, i) {
            Some(t) => Some(t.0),
            None => None,
        },
        Some(name) => match chain_mono_bump(g, i, path) {
            Some(ExpandedOrRemovedSubmodule::Expanded(e)) => if known_repo_of(e) == Some(name) {
                Some(orig_commit_of(e))
            } else {
                None
            },
            _ => None,
        },
    }
}

/// The commits that the monorepo parents `ps` carry, in order.
pub open spec fn parent_candidates(
    g: Seq<MonoRepoCommit>,
    ps: Seq<usize>,
    repo: Option<Seq<u8>>,
    path: Seq<u8>,
) -> Seq<CommitId>
    decreases ps.len(),
{
    if ps.len() == 0 {
        Seq::empty()
    } else {
        let rest = parent_candidates(g, ps.drop_last(), repo, path);
        match parent_commit_for(g, ps.last() as int, repo, path) {
            Some(c) => rest.push(c),
            None => rest,
        }
    }
}

/// `s` with every repeated element after its first occurrence removed.
pub open spec fn dedup_first(s: Seq<CommitId>) -> Seq<CommitId>
    decreases s.len(),
{
    if s.len() == 0 {
        Seq::empty()
    } else {
        let d = dedup_first(s.drop_last());
        if d.contains(s.last()) {
            d
        } else {
            d.push(s.last())
        }
    }
}

fn contains_id(v: &Vec<CommitId>, c: CommitId) -> (r: bool)
    ensures
        r == v@.contains(c),
{
    let mut i: usize = 0;
    while i < v.len()
        invariant
            i <= v@.len(),
            forall|k: int| 0 <= k < i ==> v@[k] != c,
        decreases v@.len() - i,
    {
        if v[i] == c {
            assert(v@[i as int] == c);
            return true;
        }
        i = i + 1;
    }
    false
}

/// The parents that the commit split out for repository `repo` at
/// `abs_sub_path` gets: for each monorepo parent, the commit of that
/// repository it carries, without repetitions.
pub fn split_parent_ids(
    cache: &TopRepoCache,
    mono_parents: &Vec<usize>,
    repo: &RepoName,
    abs_sub_path: &GitPath,
) -> (r: Vec<CommitId>)
    requires
        cache.wf(),
        forall|k: int| 0 <= k < mono_parents@.len() ==> mono_parents@[k] < cache.monorepo_commits@.len(),
    ensures
        r@ == dedup_first(parent_candidates(cache.monorepo_commits@, mono_parents@, repo@, abs_sub_path@)),
{
    let ghost g = cache.monorepo_commits@;
    let mut out: Vec<CommitId> = Vec::new();
    let mut cands: Ghost<Seq<CommitId>> = Ghost(Seq::empty());
    let mut k: usize = 0;
    while k < mono_parents.len()
        invariant
            cache.wf(),
            g == cache.monorepo_commits@,
            k <= mono_parents@.len(),
            forall|j: int| 0 <= j < mono_parents@.len() ==> mono_parents@[j] < g.len(),
            cands@ == parent_candidates(g, mono_parents@.subrange(0, k as int), repo@, abs_sub_path@),
            out@ == dedup_first(cands@),
        decreases mono_parents@.len() - k,
    {
        let p = mono_parents[k];
        let found: Option<CommitId> = match repo {
            RepoName::Top => match cache.get_top_bump(p) {
                Some(t) => Some(t.0),
                None => None,
            },
            RepoName::SubRepo(name) => match cache.get_submodule_bump(p, abs_sub_path) {
                Some(ExpandedOrRemovedSubmodule::Expanded(e)) => match e.get_known_submod() {
                    Some(content) => if content.repo_name.same(name) {
                        Some(*e.get_orig_commit_id())
                    } else {
                        None
                    },
                    None => None,
                },
                _ => None,
            },
        };
        assert(found == parent_commit_for(g, p as int, repo@, abs_sub_path@));
        let ghost prefix = mono_parents@.subrange(0, k + 1);
        assert(prefix.drop_last() =~= mono_parents@.subrange(0, k as int));
        if let Some(c) = found {
            proof {
                cands@ = cands@.push(c);
            }
            assert(cands@.drop_last() =~= parent_candidates(g, mono_parents@.subrange(0, k as int), repo@, abs_sub_path@));
            if !contains_id(&out, c) {
                out.push(c);
            }
        }
        k = k + 1;
    }
    assert(mono_parents@.subrange(0, k as int) =~= mono_parents@);
    out
}


/// A queued push: the commit to push, where, with which topic, and the
/// parents it was given.
#[derive(Debug)]
pub struct PushEntry {
    pub push_url: Vec<u8>,
    pub topic: Option<Vec<u8>>,
    pub commit_id: CommitId,
    pub parents: Vec<CommitId>,
}

/// The view of an optional byte string.
pub open spec fn opt_bytes(o: Option<Vec<u8>>) -> Option<Seq<u8>> {
    match o {
        Some(v) => Some(v@),
        None => None,
    }
}

fn same_opt_bytes(a: &Option<Vec<u8>>, b: &Option<Vec<u8>>) -> (r: bool)
    ensures
        r == (opt_bytes(*a) == opt_bytes(*b)),
{
    match (a, b) {
        (Some(x), Some(y)) => bytes_eq(x.as_slice(), y.as_slice()),
        (None, None) => true,
        _ => false,
    }
}

fn copy_opt_bytes(a: &Option<Vec<u8>>) -> (r: Option<Vec<u8>>)
    ensures
        opt_bytes(r) == opt_bytes(*a),
{
    match a {
        Some(x) => Some(copy_bytes(x.as_slice())),
        None => None,
    }
}

fn copy_ids(v: &Vec<CommitId>) -> (r: Vec<CommitId>)
    ensures
        r@ == v@,
{
    let mut r: Vec<CommitId> = Vec::new();
    let mut i: usize = 0;
    while i < v.len()
        invariant
            i <= v@.len(),
            r@ == v@.subrange(0, i as int),
        decreases v@.len() - i,
    {
        r.push(v[i]);
        i = i + 1;
        assert(r@ =~= v@.subrange(0, i as int));
    }
    assert(v@.subrange(0, v@.len() as int) =~= v@);
    r
}

/// The view of a push entry: URL, topic, commit and parents.
pub open spec fn push_view(e: PushEntry) -> (Seq<u8>, Option<Seq<u8>>, CommitId, Seq<CommitId>) {
    (e.push_url@, opt_bytes(e.topic), e.commit_id, e.parents@)
}

impl PushEntry {
    pub fn copy(&self) -> (r: PushEntry)
        ensures
            push_view(r) == push_view(*self),
    {
        PushEntry {
            push_url: copy_bytes(self.push_url.as_slice()),
            topic: copy_opt_bytes(&self.topic),
            commit_id: self.commit_id,
            parents: copy_ids(&self.parents),
        }
    }
}

/// Whether push `i` is made redundant by a later one: scanning forward from
/// `m`, the first later push to the same URL that either pushes the same
/// commit or has it as a parent is one with the same topic that has it as a
/// parent.
pub open spec fn superseded_from(q: Seq<PushEntry>, i: int, m: int) -> bool
    decreases q.len() - m,
{
    if m < 0 || m >= q.len() {
        false
    } else if q[m].push_url@ == q[i].push_url@ && q[m].parents@.contains(q[i].commit_id) {
        opt_bytes(q[m].topic) == opt_bytes(q[i].topic)
    } else if q[m].push_url@ == q[i].push_url@ && q[m].commit_id == q[i].commit_id {
        false
    } else {
        superseded_from(q, i, m + 1)
    }
}

/// Whether push `i` is needed: no later push with the same topic takes its
/// commit along.
pub open spec fn push_needed(q: Seq<PushEntry>, i: int) -> bool {
    !superseded_from(q, i, i + 1)
}

/// The needed pushes among the first `n` of `q`, in order.
pub open spec fn needed_pushes(q: Seq<PushEntry>, n: int) -> Seq<(Seq<u8>, Option<Seq<u8>>, CommitId, Seq<CommitId>)>
    decreases n,
{
    if n <= 0 {
        Seq::empty()
    } else {
        let rest = needed_pushes(q, n - 1);
        if push_needed(q, n - 1) {
            rest.push(push_view(q[n - 1]))
        } else {
            rest
        }
    }
}

/// Drops the pushes that a later push with the same topic makes redundant,
/// keeping the order of the others.
pub fn collapse_redundant_pushes(queue: &Vec<PushEntry>) -> (r: Vec<PushEntry>)
    ensures
        r@.map_values(|e: PushEntry| push_view(e)) == needed_pushes(queue@, queue@.len() as int),
{
    let q = queue;
    let mut out: Vec<PushEntry> = Vec::new();
    let mut i: usize = 0;
    while i < q.len()
        invariant
            i <= q@.len(),
            out@.map_values(|e: PushEntry| push_view(e)) == needed_pushes(q@, i as int),
        decreases q@.len() - i,
    {
        let mut m: usize = i + 1;
        let mut superseded = false;
        let mut decided = false;
        while m < q.len() && !decided
            invariant
                i < q@.len(),
                i + 1 <= m <= q@.len(),
                !decided ==> superseded_from(q@, i as int, i + 1) == superseded_from(q@, i as int, m as int),
                decided ==> superseded_from(q@, i as int, i + 1) == superseded,
                !decided ==> !superseded,
            decreases q@.len() - m,
        {
            let same_url = bytes_eq(q[m].push_url.as_slice(), q[i].push_url.as_slice());
            if same_url && contains_id(&q[m].parents, q[i].commit_id) {
                superseded = same_opt_bytes(&q[m].topic, &q[i].topic);
                decided = true;
            } else if same_url && q[m].commit_id == q[i].commit_id {
                superseded = false;
                decided = true;
            }
            m = m + 1;
        }
        let ghost before = out@;
        proof {
            assert(!decided ==> superseded_from(q@, i as int, m as int) == false);
            assert(push_needed(q@, i as int) == !superseded);
        }
        if !superseded {
            let e = q[i].copy();
            out.push(e);
            assert(out@.map_values(|e: PushEntry| push_view(e)) =~= before.map_values(|e: PushEntry| push_view(e)).push(push_view(q@[i as int])));
        }
        i = i + 1;
    }
    out
}

} // verus!
