//! The monorepo side of the cache: expanded commits, how their submodules
//! were resolved, and the memo from top commits to monorepo commits.
use vstd::prelude::*;
use crate::dedup::DedupCache;
use crate::ids::{BlobId, CommitId, MonoRepoCommitId, TopRepoCommitId, TreeId};
use crate::path::{GitPath, SubRepoName};
use crate::pathset::{apply_ops, apply_path_op, path_set};
use crate::thin::{commit_wf, descends, has_parent, GraphError, ThinCommitGraph, ThinSubmodule};

verus! {

/// A submodule commit together with the sub repository it belongs to.
#[derive(Debug)]
pub struct SubmoduleContent {
    pub repo_name: SubRepoName,
    pub orig_commit_id: CommitId,
}

/// How a gitlink was resolved during expansion.
#[derive(Debug)]
pub enum ExpandedSubmodule {
    /// Known submodule and known commit: the content is inlined.
    Expanded(SubmoduleContent),
    /// Left as a gitlink on purpose.
    KeptAsSubmodule(CommitId),
    /// The commit does not exist (any more) in the referred sub repository.
    CommitMissingInSubRepo(SubmoduleContent),
    /// `.gitmodules` does not say which sub repository the path refers to.
    UnknownSubmodule(CommitId),
    /// The submodule moved back to an earlier or an unrelated commit, so the
    /// expansion must not draw merge edges across the revert point.
    RegressedNotFullyImplemented(SubmoduleContent),
}

impl ExpandedSubmodule {
    /// The submodule content, if `.gitmodules` resolved the submodule.
    pub fn get_known_submod(&self) -> (r: Option<&SubmoduleContent>)
        ensures
            match self {
                ExpandedSubmodule::Expanded(c) => r == Some(c),
                ExpandedSubmodule::CommitMissingInSubRepo(c) => r == Some(c),
                ExpandedSubmodule::RegressedNotFullyImplemented(c) => r == Some(c),
                ExpandedSubmodule::KeptAsSubmodule(_) => r is None,
                ExpandedSubmodule::UnknownSubmodule(_) => r is None,
            },
    {
        match self {
            ExpandedSubmodule::Expanded(submod) => Some(submod),
            ExpandedSubmodule::KeptAsSubmodule(_) => None,
            ExpandedSubmodule::CommitMissingInSubRepo(submod) => Some(submod),
            ExpandedSubmodule::UnknownSubmodule(_) => None,
            ExpandedSubmodule::RegressedNotFullyImplemented(submod) => Some(submod),
        }
    }

    /// The submodule commit that the gitlink records.
    pub fn get_orig_commit_id(&self) -> (r: &CommitId)
        ensures
            *r == orig_commit_of(*self),
    {
        match self {
            ExpandedSubmodule::Expanded(submod) => &submod.orig_commit_id,
            ExpandedSubmodule::KeptAsSubmodule(commit_id) => commit_id,
            ExpandedSubmodule::CommitMissingInSubRepo(submod) => &submod.orig_commit_id,
            ExpandedSubmodule::UnknownSubmodule(commit_id) => commit_id,
            ExpandedSubmodule::RegressedNotFullyImplemented(submod) => &submod.orig_commit_id,
        }
    }
}

/// The commit id recorded by a resolved gitlink, whatever its resolution.
pub open spec fn orig_commit_of(e: ExpandedSubmodule) -> CommitId {
    match e {
        ExpandedSubmodule::Expanded(c) => c.orig_commit_id,
        ExpandedSubmodule::KeptAsSubmodule(id) => id,
        ExpandedSubmodule::CommitMissingInSubRepo(c) => c.orig_commit_id,
        ExpandedSubmodule::UnknownSubmodule(id) => id,
        ExpandedSubmodule::RegressedNotFullyImplemented(c) => c.orig_commit_id,
    }
}

/// A submodule change of a monorepo commit.
#[derive(Debug)]
pub enum ExpandedOrRemovedSubmodule {
    Expanded(ExpandedSubmodule),
    Removed,
}

/// An original submodule commit grafted in as a parent of a monorepo commit.
#[derive(Debug)]
pub struct OriginalSubmodParent {
    pub path: GitPath,
    pub commit_id: CommitId,
}

/// A parent of a monorepo commit: another monorepo commit (by its position
/// in the cache) or an original submodule commit.
#[derive(Debug)]
pub enum MonoRepoParent {
    OriginalSubmod(OriginalSubmodParent),
    Mono(usize),
}

/// A commit of the monorepo.
#[derive(Debug)]
pub struct MonoRepoCommit {
    pub parents: Vec<MonoRepoParent>,
    /// The number of commits on the longest path to a root through monorepo
    /// parents.
    pub depth: usize,
    /// The top repository commit whose content this commit carries, if it
    /// updates the top repository's own content.
    pub top_bump: Option<TopRepoCommitId>,
    /// The submodules updated by this commit, recursively. A later entry for
    /// the same path overrides an earlier one.
    pub submodule_bumps: Vec<(GitPath, ExpandedOrRemovedSubmodule)>,
    /// Every expanded submodule path of this commit, recursively.
    pub submodule_paths: Vec<GitPath>,
}

/// The bumps of a monorepo commit as (path, expanded) pairs.
pub open spec fn mono_ops(bumps: Seq<(GitPath, ExpandedOrRemovedSubmodule)>) -> Seq<(Seq<u8>, bool)> {
    bumps.map_values(|b: (GitPath, ExpandedOrRemovedSubmodule)| (b.0@, b.1 is Expanded))
}

/// Whether `p` is a monorepo parent `Mono(j)` with `j` before `i`.
pub open spec fn parent_before(p: MonoRepoParent, i: int) -> bool {
    match p {
        MonoRepoParent::Mono(j) => j < i,
        MonoRepoParent::OriginalSubmod(_) => true,
    }
}

/// The depth that parents give to a commit: one more than the deepest
/// monorepo parent, or 0 without one.
pub open spec fn depth_from_parents(g: Seq<MonoRepoCommit>, ps: Seq<MonoRepoParent>) -> int
    decreases ps.len(),
{
    if ps.len() == 0 {
        0
    } else {
        let rest = depth_from_parents(g, ps.drop_last());
        match ps.last() {
            MonoRepoParent::Mono(j) => if g[j as int].depth + 1 > rest {
                g[j as int].depth + 1
            } else {
                rest
            },
            MonoRepoParent::OriginalSubmod(_) => rest,
        }
    }
}

/// The submodule paths that a commit inherits: those of its first parent if
/// that is a monorepo commit, else none.
pub open spec fn inherited_paths(g: Seq<MonoRepoCommit>, ps: Seq<MonoRepoParent>) -> Set<Seq<u8>> {
    if ps.len() > 0 && ps[0] is Mono {
        path_set(g[ps[0]->Mono_0 as int].submodule_paths@)
    } else {
        Set::empty()
    }
}

/// The facts that hold of monorepo commit `i`.
pub open spec fn mono_wf(g: Seq<MonoRepoCommit>, i: int) -> bool {
    let c = g[i];
    &&& forall|k: int| 0 <= k < c.parents@.len() ==> parent_before(#[trigger] c.parents@[k], i)
    &&& c.depth <= i
    &&& c.depth == depth_from_parents(g, c.parents@)
    &&& path_set(c.submodule_paths@) == apply_ops(
        inherited_paths(g, c.parents@),
        mono_ops(c.submodule_bumps@),
    )
}

/// Why the cache refused an update.
#[derive(Debug, PartialEq, Eq, Structural, Clone, Copy)]
pub enum CacheError {
    /// A parent does not name a commit of the cache.
    UnknownParent,
    /// A monorepo commit with this id is in the cache already.
    DuplicateMonoCommit,
    /// The top commit is not in the top repository's commit graph.
    UnknownTopCommit,
    /// A parent of the top commit has not been expanded yet.
    ParentNotExpanded,
    /// The position does not name a monorepo commit of the cache.
    UnknownMonoCommit,
}

/// The monorepo commit recorded last for top commit `t`.
pub open spec fn mono_of(m: Seq<(TopRepoCommitId, usize)>, t: TopRepoCommitId) -> Option<usize>
    decreases m.len(),
{
    if m.len() == 0 {
        None
    } else if m.last().0 == t {
        Some(m.last().1)
    } else {
        mono_of(m.drop_last(), t)
    }
}

/// Whether top commit `t` has been expanded.
pub open spec fn is_expanded(m: Seq<(TopRepoCommitId, usize)>, t: TopRepoCommitId) -> bool {
    mono_of(m, t) is Some
}

pub proof fn lemma_mono_of_entry(m: Seq<(TopRepoCommitId, usize)>, t: TopRepoCommitId)
    requires
        is_expanded(m, t),
    ensures
        exists|k: int| 0 <= k < m.len() && m[k].0 == t && m[k].1 == mono_of(m, t)->Some_0,
    decreases m.len(),
{
    if m.last().0 != t {
        lemma_mono_of_entry(m.drop_last(), t);
        let k = choose|k: int| 0 <= k < m.len() - 1 && m.drop_last()[k].0 == t && m.drop_last()[k].1 == mono_of(m, t)->Some_0;
        assert(m[k] == m.drop_last()[k]);
    } else {
        assert(m[m.len() - 1] == m.last());
    }
}

/// Appending a commit changes no depth that earlier parents give.
pub proof fn lemma_depth_from_parents_push(g: Seq<MonoRepoCommit>, x: MonoRepoCommit, ps: Seq<MonoRepoParent>)
    requires
        forall|k: int| 0 <= k < ps.len() ==> parent_before(#[trigger] ps[k], g.len() as int),
    ensures
        depth_from_parents(g.push(x), ps) == depth_from_parents(g, ps),
    decreases ps.len(),
{
    if ps.len() > 0 {
        assert forall|k: int| 0 <= k < ps.drop_last().len() implies parent_before(#[trigger] ps.drop_last()[k], g.len() as int) by {
            assert(ps.drop_last()[k] == ps[k]);
        }
        lemma_depth_from_parents_push(g, x, ps.drop_last());
        assert(parent_before(ps[ps.len() - 1], g.len() as int));
    }
}

/// The last bump of path `p` among `bumps`.
pub open spec fn last_mono_bump_for(bumps: Seq<(GitPath, ExpandedOrRemovedSubmodule)>, p: Seq<u8>) -> Option<
    ExpandedOrRemovedSubmodule,
>
    decreases bumps.len(),
{
    if bumps.len() == 0 {
        None
    } else if bumps.last().0@ == p {
        Some(bumps.last().1)
    } else {
        last_mono_bump_for(bumps.drop_last(), p)
    }
}

/// The monorepo commit that the first-parent chain continues with from `i`.
pub open spec fn first_mono_parent(g: Seq<MonoRepoCommit>, i: int) -> Option<int> {
    if g[i].parents@.len() > 0 && g[i].parents@[0] is Mono && g[i].parents@[0]->Mono_0 < i {
        Some(g[i].parents@[0]->Mono_0 as int)
    } else {
        None
    }
}

/// The nearest top repository content on the first-parent chain from `i`.
pub open spec fn chain_top_bump(g: Seq<MonoRepoCommit>, i: int) -> Option<TopRepoCommitId>
    decreases i,
{
    if 0 <= i < g.len() {
        match g[i].top_bump {
            Some(t) => Some(t),
            None => match first_mono_parent(g, i) {
                Some(j) => chain_top_bump(g, j),
                None => None,
            },
        }
    } else {
        None
    }
}

/// The latest bump of submodule path `p` on the first-parent chain from `i`.
pub open spec fn chain_mono_bump(g: Seq<MonoRepoCommit>, i: int, p: Seq<u8>) -> Option<ExpandedOrRemovedSubmodule>
    decreases i,
{
    if 0 <= i < g.len() {
        match last_mono_bump_for(g[i].submodule_bumps@, p) {
            Some(b) => Some(b),
            None => match first_mono_parent(g, i) {
                Some(j) => chain_mono_bump(g, j, p),
                None => None,
            },
        }
    } else {
        None
    }
}

/// What is known of one sub repository: its URL and its commits.
#[derive(Debug)]
pub struct RepoData {
    pub url: Vec<u8>,
    pub thin_commits: ThinCommitGraph,
}

impl RepoData {
    pub fn new(url: Vec<u8>) -> (r: RepoData)
        ensures
            r.url@ == url@,
            r.thin_commits.wf(),
            r.thin_commits.commits@.len() == 0,
    {
        RepoData { url, thin_commits: ThinCommitGraph::new() }
    }
}

/// The durable state: the top repository's commit graph, the sub
/// repositories' graphs, the monorepo commits and the expansion memo.
#[derive(Debug)]
pub struct TopRepoCache {
    pub top_commits: ThinCommitGraph,
    pub sub_repos: Vec<(SubRepoName, RepoData)>,
    pub monorepo_commits: Vec<MonoRepoCommit>,
    /// The id of each monorepo commit, by position.
    pub monorepo_commit_ids: Vec<MonoRepoCommitId>,
    /// The expansion memo from top commits to monorepo commit positions. A
    /// later entry for the same top commit overrides an earlier one.
    pub top_to_mono_map: Vec<(TopRepoCommitId, usize)>,
    /// Reuse of imported commits that differ only in their committer.
    pub dedup: DedupCache,
}

/// The id of top commit `pos` as a `TopRepoCommitId`.
pub open spec fn top_id(g: ThinCommitGraph, pos: int) -> TopRepoCommitId {
    TopRepoCommitId(g.commits@[pos].commit_id)
}

/// Whether top commit `t` is in the top repository's graph.
pub open spec fn in_top_graph(g: ThinCommitGraph, t: TopRepoCommitId) -> bool {
    exists|pos: int| 0 <= pos < g.commits@.len() && top_id(g, pos) == t
}

/// Whether every parent of an expanded top commit is expanded too.
pub open spec fn expanded_closed(g: ThinCommitGraph, m: Seq<(TopRepoCommitId, usize)>) -> bool {
    forall|pos: int, k: int|
        0 <= pos < g.commits@.len() && #[trigger] is_expanded(m, top_id(g, pos)) && 0 <= k
            < g.commits@[pos].parents@.len() ==> is_expanded(
            m,
            top_id(g, #[trigger] g.commits@[pos].parents@[k] as int),
        )
}

impl TopRepoCache {
    pub open spec fn wf(&self) -> bool {
        &&& self.top_commits.wf()
        &&& self.monorepo_commits@.len() == self.monorepo_commit_ids@.len()
        &&& forall|i: int|
            0 <= i < self.monorepo_commits@.len() ==> #[trigger] mono_wf(self.monorepo_commits@, i)
        &&& forall|i: int, j: int|
            0 <= i < self.monorepo_commit_ids@.len() && 0 <= j < self.monorepo_commit_ids@.len()
                && i != j ==> #[trigger] self.monorepo_commit_ids@[i]
                != #[trigger] self.monorepo_commit_ids@[j]
        &&& forall|k: int|
            0 <= k < self.top_to_mono_map@.len() ==> (#[trigger] self.top_to_mono_map@[k]).1
                < self.monorepo_commits@.len()
        &&& forall|k: int|
            0 <= k < self.top_to_mono_map@.len() ==> in_top_graph(
                self.top_commits,
                (#[trigger] self.top_to_mono_map@[k]).0,
            )
        &&& expanded_closed(self.top_commits, self.top_to_mono_map@)
    }

    pub fn new() -> (r: TopRepoCache)
        ensures
            r.wf(),
            r.top_commits.commits@.len() == 0,
            r.monorepo_commits@.len() == 0,
            r.monorepo_commit_ids@.len() == 0,
            r.top_to_mono_map@.len() == 0,
            r.sub_repos@.len() == 0,
            r.dedup.entries@.len() == 0,
    {
        TopRepoCache {
            top_commits: ThinCommitGraph::new(),
            sub_repos: Vec::new(),
            monorepo_commits: Vec::new(),
            monorepo_commit_ids: Vec::new(),
            top_to_mono_map: Vec::new(),
            dedup: DedupCache::new(),
        }
    }

    /// The monorepo commit that top commit `t` was expanded to.
    pub fn top_to_mono(&self, t: TopRepoCommitId) -> (r: Option<usize>)
        ensures
            r == mono_of(self.top_to_mono_map@, t),
    {
        let mut k: usize = self.top_to_mono_map.len();
        assert(self.top_to_mono_map@.subrange(0, k as int) =~= self.top_to_mono_map@);
        while k > 0
            invariant
                k <= self.top_to_mono_map@.len(),
                mono_of(self.top_to_mono_map@, t) == mono_of(
                    self.top_to_mono_map@.subrange(0, k as int),
                    t,
                ),
            decreases k,
        {
            let ghost sub = self.top_to_mono_map@.subrange(0, k as int);
            assert(sub.drop_last() =~= self.top_to_mono_map@.subrange(0, k - 1));
            if self.top_to_mono_map[k - 1].0 == t {
                return Some(self.top_to_mono_map[k - 1].1);
            }
            k = k - 1;
        }
        None
    }

    pub fn contains_top(&self, t: TopRepoCommitId) -> (r: bool)
        ensures
            r == is_expanded(self.top_to_mono_map@, t),
    {
        self.top_to_mono(t).is_some()
    }

    /// Records that top commit `t` was expanded to monorepo commit `mono`.
    /// The top commit must be in the top graph and all its parents expanded.
    pub fn record_top_to_mono(&mut self, t: TopRepoCommitId, mono: usize) -> (r: Result<(), CacheError>)
        requires
            old(self).wf(),
        ensures
            final(self).wf(),
            r is Ok <==> (mono < old(self).monorepo_commits@.len() && exists|pos: int|
                0 <= pos < old(self).top_commits.commits@.len() && top_id(old(self).top_commits, pos) == t
                    && forall|k: int|
                    0 <= k < old(self).top_commits.commits@[pos].parents@.len() ==> is_expanded(
                        old(self).top_to_mono_map@,
                        top_id(old(self).top_commits, #[trigger] old(self).top_commits.commits@[pos].parents@[k] as int),
                    )),
            r is Ok ==> final(self).top_to_mono_map@ == old(self).top_to_mono_map@.push((t, mono)),
            r is Err ==> final(self).top_to_mono_map@ == old(self).top_to_mono_map@,
            final(self).top_commits == old(self).top_commits,
            final(self).monorepo_commits@ == old(self).monorepo_commits@,
            final(self).monorepo_commit_ids@ == old(self).monorepo_commit_ids@,
            final(self).sub_repos@ == old(self).sub_repos@,
            final(self).dedup == old(self).dedup,
    {
        if mono >= self.monorepo_commits.len() {
            return Err(CacheError::UnknownMonoCommit);
        }
        let pos = match self.top_commits.find(t.0) {
            Some(pos) => pos,
            None => {
                return Err(CacheError::UnknownTopCommit);
            },
        };
        let ghost g = self.top_commits;
        let ps = &self.top_commits.commits[pos].parents;
        let mut k: usize = 0;
        while k < ps.len()
            invariant
                g == self.top_commits,
                self.wf(),
                *self == *old(self),
                top_id(g, pos as int) == t,
                pos < g.commits@.len(),
                ps@ == g.commits@[pos as int].parents@,
                k <= ps@.len(),
                forall|j: int| 0 <= j < k ==> is_expanded(self.top_to_mono_map@, top_id(g, #[trigger] ps@[j] as int)),
            decreases ps@.len() - k,
        {
            let q = ps[k];
            proof {
                assert(commit_wf(g.commits@, pos as int));
            }
            if !self.contains_top(TopRepoCommitId(self.top_commits.commits[q].commit_id)) {
                assert(!is_expanded(self.top_to_mono_map@, top_id(g, ps@[k as int] as int)));
                assert forall|p2: int| 0 <= p2 < g.commits@.len() && top_id(g, p2) == t implies !(forall|kk: int|
                    0 <= kk < g.commits@[p2].parents@.len() ==> is_expanded(
                        self.top_to_mono_map@,
                        top_id(g, #[trigger] g.commits@[p2].parents@[kk] as int),
                    )) by {
                    if p2 != pos as int {
                        assert(g.commits@[p2].commit_id != g.commits@[pos as int].commit_id);
                    }
                    assert(g.commits@[p2].parents@[k as int] == ps@[k as int]);
                }
                return Err(CacheError::ParentNotExpanded);
            }
            k = k + 1;
        }
        let ghost old_map = self.top_to_mono_map@;
        assert(0 <= pos < g.commits@.len() && top_id(g, pos as int) == t && forall|kk: int|
            0 <= kk < g.commits@[pos as int].parents@.len() ==> is_expanded(
                old_map,
                top_id(g, #[trigger] g.commits@[pos as int].parents@[kk] as int),
            ));
        self.top_to_mono_map.push((t, mono));
        proof {
            let m2 = self.top_to_mono_map@;
            assert(m2.drop_last() =~= old_map);
            assert forall|tt: TopRepoCommitId| is_expanded(m2, tt) == (is_expanded(old_map, tt) || tt == t) by {}
            assert forall|pos2: int, kk: int|
                0 <= pos2 < g.commits@.len() && #[trigger] is_expanded(m2, top_id(g, pos2)) && 0 <= kk
                    < g.commits@[pos2].parents@.len() implies is_expanded(
                    m2,
                    top_id(g, #[trigger] g.commits@[pos2].parents@[kk] as int),
                ) by {
                if top_id(g, pos2) == t {
                    if pos2 != pos as int {
                        assert(g.commits@[pos2].commit_id != g.commits@[pos as int].commit_id);
                    }
                    assert(is_expanded(old_map, top_id(g, ps@[kk] as int)));
                } else {
                    assert(is_expanded(old_map, top_id(g, pos2)));
                }
            }
            assert forall|k2: int| 0 <= k2 < m2.len() implies in_top_graph(g, (#[trigger] m2[k2]).0) by {
                if k2 < old_map.len() {
                    assert(m2[k2] == old_map[k2]);
                } else {
                    assert(top_id(g, pos as int) == m2[k2].0);
                }
            }
            assert forall|k2: int| 0 <= k2 < m2.len() implies (#[trigger] m2[k2]).1 < self.monorepo_commits@.len() by {
                if k2 < old_map.len() {
                    assert(m2[k2] == old_map[k2]);
                }
            }
            assert(expanded_closed(self.top_commits, m2));
        }
        Ok(())
    }

    /// Adds a monorepo commit whose monorepo parents are in the cache,
    /// computing its depth and its set of submodule paths. Returns its
    /// position.
    pub fn insert_mono(
        &mut self,
        mono_id: MonoRepoCommitId,
        parents: Vec<MonoRepoParent>,
        top_bump: Option<TopRepoCommitId>,
        submodule_bumps: Vec<(GitPath, ExpandedOrRemovedSubmodule)>,
    ) -> (r: Result<usize, CacheError>)
        requires
            old(self).wf(),
        ensures
            final(self).wf(),
            final(self).top_commits == old(self).top_commits,
            final(self).top_to_mono_map@ == old(self).top_to_mono_map@,
            final(self).sub_repos@ == old(self).sub_repos@,
            final(self).dedup == old(self).dedup,
            r is Err ==> *final(self) == *old(self),
            r is Err ==> r->Err_0 == CacheError::UnknownParent || r->Err_0 == CacheError::DuplicateMonoCommit,
            (r is Err && r->Err_0 == CacheError::UnknownParent) <==> exists|k: int|
                0 <= k < parents@.len() && !parent_before(#[trigger] parents@[k], old(self).monorepo_commits@.len() as int),
            (r is Err && r->Err_0 == CacheError::DuplicateMonoCommit) <==> (
            (forall|k: int| 0 <= k < parents@.len() ==> parent_before(#[trigger] parents@[k], old(self).monorepo_commits@.len() as int))
                && old(self).monorepo_commit_ids@.contains(mono_id)),
            r is Ok ==> {
                let n = r->Ok_0;
                let c = final(self).monorepo_commits@[n as int];
                &&& n == old(self).monorepo_commits@.len()
                &&& final(self).monorepo_commits@.len() == n + 1
                &&& final(self).monorepo_commits@.subrange(0, n as int) == old(self).monorepo_commits@
                &&& final(self).monorepo_commit_ids@ == old(self).monorepo_commit_ids@.push(mono_id)
                &&& c.parents@ == parents@
                &&& c.top_bump == top_bump
                &&& c.submodule_bumps@ == submodule_bumps@
                &&& c.depth == depth_from_parents(old(self).monorepo_commits@, parents@)
                &&& path_set(c.submodule_paths@) == apply_ops(
                    inherited_paths(old(self).monorepo_commits@, parents@),
                    mono_ops(submodule_bumps@),
                )
            },
    {
        let n = self.monorepo_commits.len();
        let mut k: usize = 0;
        while k < parents.len()
            invariant
                k <= parents@.len(),
                n == self.monorepo_commits@.len(),
                self.wf(),
                *self == *old(self),
                forall|j: int| 0 <= j < k ==> parent_before(#[trigger] parents@[j], n as int),
            decreases parents@.len() - k,
        {
            if let MonoRepoParent::Mono(j) = &parents[k] {
                if *j >= n {
                    return Err(CacheError::UnknownParent);
                }
            }
            k = k + 1;
        }
        let mut k: usize = 0;
        while k < self.monorepo_commit_ids.len()
            invariant
                k <= self.monorepo_commit_ids@.len(),
                self.wf(),
                *self == *old(self),
                forall|j: int| 0 <= j < k ==> self.monorepo_commit_ids@[j] != mono_id,
                forall|j: int| 0 <= j < parents@.len() ==> parent_before(#[trigger] parents@[j], n as int),
                n == self.monorepo_commits@.len(),
            decreases self.monorepo_commit_ids@.len() - k,
        {
            if self.monorepo_commit_ids[k] == mono_id {
                assert(self.monorepo_commit_ids@[k as int] == mono_id);
                assert(self.monorepo_commit_ids@.contains(mono_id));
                return Err(CacheError::DuplicateMonoCommit);
            }
            k = k + 1;
        }
        let ghost g = self.monorepo_commits@;
        let mut depth: usize = 0;
        let mut k: usize = 0;
        while k < parents.len()
            invariant
                g == self.monorepo_commits@,
                self.wf(),
                *self == *old(self),
                n == g.len(),
                k <= parents@.len(),
                forall|j: int| 0 <= j < parents@.len() ==> parent_before(#[trigger] parents@[j], n as int),
                depth <= n,
                depth == depth_from_parents(g, parents@.subrange(0, k as int)),
            decreases parents@.len() - k,
        {
            assert(parents@.subrange(0, k + 1).drop_last() =~= parents@.subrange(0, k as int));
            assert(parent_before(parents@[k as int], n as int));
            if let MonoRepoParent::Mono(j) = &parents[k] {
                assert(mono_wf(g, *j as int));
                let d = self.monorepo_commits[*j].depth + 1;
                if d > depth {
                    depth = d;
                }
            }
            k = k + 1;
        }
        assert(parents@.subrange(0, parents@.len() as int) =~= parents@);
        let mut paths: Vec<GitPath> = Vec::new();
        if parents.len() > 0 {
            if let MonoRepoParent::Mono(fp) = &parents[0] {
                assert(parent_before(parents@[0], n as int));
                let src = &self.monorepo_commits[*fp].submodule_paths;
                let mut j: usize = 0;
                while j < src.len()
                    invariant
                        self.wf(),
                        *self == *old(self),
                        j <= src@.len(),
                        paths@.len() == j,
                        forall|m: int| 0 <= m < j ==> (#[trigger] paths@[m])@ == src@[m]@,
                    decreases src@.len() - j,
                {
                    paths.push(src[j].copy());
                    j = j + 1;
                }
                assert(path_set(paths@) =~= path_set(src@)) by {
                    assert forall|x: Seq<u8>| path_set(src@).contains(x) implies path_set(paths@).contains(x) by {
                        let m = choose|m: int| 0 <= m < src@.len() && (#[trigger] src@[m])@ == x;
                        assert(paths@[m]@ == x);
                    }
                }
            }
        }
        assert(path_set(paths@) =~= inherited_paths(g, parents@));
        let ghost base = inherited_paths(g, parents@);
        let ghost ops = mono_ops(submodule_bumps@);
        let mut j: usize = 0;
        while j < submodule_bumps.len()
            invariant
                self.wf(),
                *self == *old(self),
                j <= submodule_bumps@.len(),
                ops == mono_ops(submodule_bumps@),
                path_set(paths@) == apply_ops(base, ops.subrange(0, j as int)),
            decreases submodule_bumps@.len() - j,
        {
            let entry = &submodule_bumps[j];
            let add = match &entry.1 {
                ExpandedOrRemovedSubmodule::Expanded(_) => true,
                ExpandedOrRemovedSubmodule::Removed => false,
            };
            apply_path_op(&mut paths, &entry.0, add);
            assert(ops.subrange(0, j + 1).drop_last() =~= ops.subrange(0, j as int));
            j = j + 1;
        }
        assert(ops.subrange(0, ops.len() as int) =~= ops);
        let commit = MonoRepoCommit {
            parents,
            depth,
            top_bump,
            submodule_bumps,
            submodule_paths: paths,
        };
        let ghost ids = self.monorepo_commit_ids@;
        self.monorepo_commits.push(commit);
        self.monorepo_commit_ids.push(mono_id);
        proof {
            let g2 = self.monorepo_commits@;
            assert(g2 == g.push(commit));
            assert forall|i: int| 0 <= i < g2.len() implies #[trigger] mono_wf(g2, i) by {
                let c = g2[i];
                if i < n {
                    assert(mono_wf(g, i));
                    assert(c == g[i]);
                    assert forall|k: int| 0 <= k < c.parents@.len() implies parent_before(#[trigger] c.parents@[k], n as int) by {
                        assert(parent_before(c.parents@[k], i));
                    }
                    lemma_depth_from_parents_push(g, commit, c.parents@);
                    if c.parents@.len() > 0 && c.parents@[0] is Mono {
                        assert(parent_before(c.parents@[0], i));
                        assert(g2[c.parents@[0]->Mono_0 as int] == g[c.parents@[0]->Mono_0 as int]);
                    }
                    assert(inherited_paths(g2, c.parents@) == inherited_paths(g, c.parents@));
                } else {
                    lemma_depth_from_parents_push(g, commit, c.parents@);
                    if c.parents@.len() > 0 && c.parents@[0] is Mono {
                        assert(parent_before(c.parents@[0], n as int));
                        assert(g2[c.parents@[0]->Mono_0 as int] == g[c.parents@[0]->Mono_0 as int]);
                    }
                    assert(inherited_paths(g2, c.parents@) == inherited_paths(g, c.parents@));
                }
            }
            assert(g2.subrange(0, n as int) =~= g);
            assert(forall|k: int|
                0 <= k < self.top_to_mono_map@.len() ==> (#[trigger] self.top_to_mono_map@[k]).1
                    < self.monorepo_commits@.len());
            assert(forall|k: int|
                0 <= k < self.top_to_mono_map@.len() ==> in_top_graph(
                    self.top_commits,
                    (#[trigger] self.top_to_mono_map@[k]).0,
                ));
            assert forall|a: int, b: int|
                0 <= a < self.monorepo_commit_ids@.len() && 0 <= b < self.monorepo_commit_ids@.len()
                    && a != b implies #[trigger] self.monorepo_commit_ids@[a]
                    != #[trigger] self.monorepo_commit_ids@[b] by {
                if a < n as int && b < n as int {
                    assert(self.monorepo_commit_ids@[a] == ids[a]);
                    assert(self.monorepo_commit_ids@[b] == ids[b]);
                } else if a < n as int {
                    assert(self.monorepo_commit_ids@[a] == ids[a]);
                } else if b < n as int {
                    assert(self.monorepo_commit_ids@[b] == ids[b]);
                }
            }
        }
        Ok(n)
    }

    /// Adds a commit of the top repository (see `ThinCommitGraph::insert`).
    pub fn insert_top(
        &mut self,
        commit_id: CommitId,
        tree_id: TreeId,
        parents: Vec<usize>,
        dot_gitmodules: Option<BlobId>,
        submodule_bumps: Vec<(GitPath, ThinSubmodule)>,
    ) -> (r: Result<usize, GraphError>)
        requires
            old(self).wf(),
        ensures
            final(self).wf(),
            final(self).top_to_mono_map@ == old(self).top_to_mono_map@,
            final(self).monorepo_commits@ == old(self).monorepo_commits@,
            final(self).monorepo_commit_ids@ == old(self).monorepo_commit_ids@,
            final(self).sub_repos@ == old(self).sub_repos@,
            final(self).dedup == old(self).dedup,
            r is Err ==> final(self).top_commits == old(self).top_commits,
            (r is Err && r->Err_0 == GraphError::UnknownParent) <==> exists|k: int|
                0 <= k < parents@.len() && parents@[k] >= old(self).top_commits.commits@.len(),
            (r is Err && r->Err_0 == GraphError::DuplicateCommit) <==> (
            (forall|k: int| 0 <= k < parents@.len() ==> parents@[k] < old(self).top_commits.commits@.len())
                && exists|i: int|
                0 <= i < old(self).top_commits.commits@.len() && old(self).top_commits.commits@[i].commit_id == commit_id),
            r is Ok ==> {
                let n = r->Ok_0;
                &&& n == old(self).top_commits.commits@.len()
                &&& final(self).top_commits.commits@.len() == n + 1
                &&& final(self).top_commits.commits@.subrange(0, n as int) == old(self).top_commits.commits@
                &&& final(self).top_commits.commits@[n as int].commit_id == commit_id
                &&& final(self).top_commits.commits@[n as int].tree_id == tree_id
                &&& final(self).top_commits.commits@[n as int].dot_gitmodules == dot_gitmodules
                &&& final(self).top_commits.commits@[n as int].parents@ == parents@
                &&& final(self).top_commits.commits@[n as int].submodule_bumps@ == submodule_bumps@
            },
    {
        let ghost g = self.top_commits;
        let ghost m = self.top_to_mono_map@;
        let r = self.top_commits.insert(commit_id, tree_id, parents, dot_gitmodules, submodule_bumps);
        proof {
            if r is Ok {
                let g2 = self.top_commits;
                let n = g.commits@.len() as int;
                assert forall|pos: int| 0 <= pos < n implies #[trigger] top_id(g2, pos) == top_id(g, pos)
                    && g2.commits@[pos].parents@ == g.commits@[pos].parents@ by {
                    assert(g2.commits@.subrange(0, n)[pos] == g2.commits@[pos]);
                }
                assert forall|t: TopRepoCommitId| is_expanded(m, t) implies t != top_id(g2, n) by {
                    lemma_mono_of_entry(m, t);
                    let k = choose|k: int| 0 <= k < m.len() && m[k].0 == t && m[k].1 == mono_of(m, t)->Some_0;
                    assert(in_top_graph(g, m[k].0));
                    let pos = choose|pos: int| 0 <= pos < g.commits@.len() && top_id(g, pos) == t;
                    assert(top_id(g2, pos) == t);
                    assert(g2.commits@[pos].commit_id != g2.commits@[n].commit_id);
                }
                assert forall|pos: int, k: int|
                    0 <= pos < g2.commits@.len() && #[trigger] is_expanded(m, top_id(g2, pos)) && 0 <= k
                        < g2.commits@[pos].parents@.len() implies is_expanded(
                        m,
                        top_id(g2, #[trigger] g2.commits@[pos].parents@[k] as int),
                    ) by {
                    assert(pos != n);
                    assert(top_id(g2, pos) == top_id(g, pos));
                    assert(commit_wf(g2.commits@, pos));
                    let q = g2.commits@[pos].parents@[k] as int;
                    assert(top_id(g2, q) == top_id(g, q));
                    assert(g.commits@[pos].parents@[k] as int == q);
                }
                assert forall|k: int| 0 <= k < m.len() implies in_top_graph(g2, (#[trigger] m[k]).0) by {
                    assert(in_top_graph(g, m[k].0));
                    let pos = choose|pos: int| 0 <= pos < g.commits@.len() && top_id(g, pos) == m[k].0;
                    assert(top_id(g2, pos) == m[k].0);
                }
            }
        }
        r
    }

    /// The nearest top repository content on the first-parent chain from
    /// monorepo commit `i`.
    pub fn get_top_bump(&self, i: usize) -> (r: Option<TopRepoCommitId>)
        requires
            self.wf(),
            i < self.monorepo_commits@.len(),
        ensures
            r == chain_top_bump(self.monorepo_commits@, i as int),
    {
        let mut node: usize = i;
        loop
            invariant
                self.wf(),
                node < self.monorepo_commits@.len(),
                chain_top_bump(self.monorepo_commits@, i as int) == chain_top_bump(self.monorepo_commits@, node as int),
            decreases node,
        {
            let c = &self.monorepo_commits[node];
            if let Some(t) = c.top_bump {
                return Some(t);
            }
            proof {
                assert(mono_wf(self.monorepo_commits@, node as int));
            }
            if c.parents.len() == 0 {
                return None;
            }
            match &c.parents[0] {
                MonoRepoParent::Mono(j) => {
                    assert(parent_before(c.parents@[0], node as int));
                    node = *j;
                },
                MonoRepoParent::OriginalSubmod(_) => {
                    return None;
                },
            }
        }
    }

    /// The latest bump of submodule `path` on the first-parent chain from
    /// monorepo commit `i`.
    pub fn get_submodule_bump(&self, i: usize, path: &GitPath) -> (r: Option<&ExpandedOrRemovedSubmodule>)
        requires
            self.wf(),
            i < self.monorepo_commits@.len(),
        ensures
            match r {
                Some(b) => chain_mono_bump(self.monorepo_commits@, i as int, path@) == Some(*b),
                None => chain_mono_bump(self.monorepo_commits@, i as int, path@) is None,
            },
    {
        let mut node: usize = i;
        loop
            invariant
                self.wf(),
                node < self.monorepo_commits@.len(),
                chain_mono_bump(self.monorepo_commits@, i as int, path@) == chain_mono_bump(self.monorepo_commits@, node as int, path@),
            decreases node,
        {
            let c = &self.monorepo_commits[node];
            proof {
                assert(mono_wf(self.monorepo_commits@, node as int));
            }
            let mut k: usize = c.submodule_bumps.len();
            assert(c.submodule_bumps@.subrange(0, k as int) =~= c.submodule_bumps@);
            while k > 0
                invariant
                    self.wf(),
                    node < self.monorepo_commits@.len(),
                    *c == self.monorepo_commits@[node as int],
                    chain_mono_bump(self.monorepo_commits@, i as int, path@) == chain_mono_bump(self.monorepo_commits@, node as int, path@),
                    k <= c.submodule_bumps@.len(),
                    last_mono_bump_for(c.submodule_bumps@, path@) == last_mono_bump_for(
                        c.submodule_bumps@.subrange(0, k as int),
                        path@,
                    ),
                decreases k,
            {
                let ghost sub = c.submodule_bumps@.subrange(0, k as int);
                assert(sub.drop_last() =~= c.submodule_bumps@.subrange(0, k - 1));
                if c.submodule_bumps[k - 1].0.same(path) {
                    assert(sub.last() == c.submodule_bumps@[k - 1]);
                    return Some(&c.submodule_bumps[k - 1].1);
                }
                k = k - 1;
            }
            if c.parents.len() == 0 {
                return None;
            }
            match &c.parents[0] {
                MonoRepoParent::Mono(j) => {
                    assert(parent_before(c.parents@[0], node as int));
                    node = *j;
                },
                MonoRepoParent::OriginalSubmod(_) => {
                    return None;
                },
            }
        }
    }
}

/// An expanded top commit has its whole ancestry expanded.
pub proof fn lemma_expanded_ancestry(cache: TopRepoCache, a: int, b: int)
    requires
        cache.wf(),
        0 <= a < cache.top_commits.commits@.len(),
        0 <= b < cache.top_commits.commits@.len(),
        is_expanded(cache.top_to_mono_map@, top_id(cache.top_commits, a)),
        descends(cache.top_commits.commits@, a, b),
    ensures
        is_expanded(cache.top_to_mono_map@, top_id(cache.top_commits, b)),
    decreases a - b,
{
    let g = cache.top_commits.commits@;
    if b != a && b < a {
        let c = choose|c: int| b < c <= a && #[trigger] has_parent(g, c, b) && descends(g, a, c);
        lemma_expanded_ancestry(cache, a, c);
        reveal(has_parent);
        let k = choose|k: int| 0 <= k < g[c].parents@.len() && g[c].parents@[k] == b;
        assert(g[c].parents@[k] == b);
    }
}

} // verus!
