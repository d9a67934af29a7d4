//! How the expansion resolves the gitlink bumps of a top commit.
use vstd::prelude::*;
use crate::ids::{CommitId, MonoRepoCommitId, TopRepoCommitId};
use crate::mono::{
    chain_mono_bump, parent_before, CacheError, is_expanded, mono_of, top_id, ExpandedOrRemovedSubmodule, ExpandedSubmodule, MonoRepoParent,
    OriginalSubmodParent, SubmoduleContent, TopRepoCache,
};
use crate::path::GitPath;
use crate::push::known_repo_of;
use crate::thin::{
    chain_bump, commit_wf, descends, has_parent, in_prefix, lemma_descends_step, lemma_in_prefix_step,
    ThinCommitGraph, ThinSubmodule, ThinSubmoduleContent,
};

verus! {

/// The first sub repository of the cache named `name`.
pub open spec fn sub_repo_index(cache: TopRepoCache, name: Seq<u8>, k: int) -> bool {
    0 <= k < cache.sub_repos@.len() && cache.sub_repos@[k].0@ == name && forall|j: int|
        0 <= j < k ==> cache.sub_repos@[j].0@ != name
}

/// The position of commit `id` in graph `g`, if it is there.
pub open spec fn position_of(g: ThinCommitGraph, id: CommitId) -> Option<int> {
    if exists|i: int| 0 <= i < g.commits@.len() && g.commits@[i].commit_id == id {
        Some(choose|i: int| 0 <= i < g.commits@.len() && g.commits@[i].commit_id == id)
    } else {
        None
    }
}

impl TopRepoCache {
    /// The first sub repository named `name`.
    pub fn find_sub_repo(&self, name: &[u8]) -> (r: Option<usize>)
        ensures
            match r {
                Some(k) => sub_repo_index(*self, name@, k as int),
                None => forall|j: int| 0 <= j < self.sub_repos@.len() ==> self.sub_repos@[j].0@ != name@,
            },
    {
        let mut k: usize = 0;
        while k < self.sub_repos.len()
            invariant
                k <= self.sub_repos@.len(),
                forall|j: int| 0 <= j < k ==> self.sub_repos@[j].0@ != name@,
            decreases self.sub_repos@.len() - k,
        {
            if crate::bytes::bytes_eq(self.sub_repos[k].0.name.as_slice(), name) {
                return Some(k);
            }
            k = k + 1;
        }
        None
    }
}

/// The resolution of a gitlink: unknown without a sub repository name;
/// missing when the named sub repository does not hold the commit; regressed
/// when the previous commit of the gitlink is known and the new one does not
/// descend from it; expanded otherwise.
pub open spec fn expansion_of(
    cache: TopRepoCache,
    content: ThinSubmoduleContent,
    prev: Option<CommitId>,
) -> ExpandedSubmodule {
    match content.repo_name {
        None => ExpandedSubmodule::UnknownSubmodule(content.commit_id),
        Some(name) => {
            let known = SubmoduleContent { repo_name: name, orig_commit_id: content.commit_id };
            if exists|k: int| sub_repo_index(cache, name@, k) {
                let k = choose|k: int| sub_repo_index(cache, name@, k);
                let g = cache.sub_repos@[k].1.thin_commits;
                match position_of(g, content.commit_id) {
                    None => ExpandedSubmodule::CommitMissingInSubRepo(known),
                    Some(new_pos) => match prev {
                        Some(p) => match position_of(g, p) {
                            Some(prev_pos) => if descends(g.commits@, new_pos, prev_pos) {
                                ExpandedSubmodule::Expanded(known)
                            } else {
                                ExpandedSubmodule::RegressedNotFullyImplemented(known)
                            },
                            None => ExpandedSubmodule::Expanded(known),
                        },
                        None => ExpandedSubmodule::Expanded(known),
                    },
                }
            } else {
                ExpandedSubmodule::CommitMissingInSubRepo(known)
            }
        },
    }
}

/// Whether two resolutions agree, names compared by their bytes.
pub open spec fn same_expansion(a: ExpandedSubmodule, b: ExpandedSubmodule) -> bool {
    match (a, b) {
        (ExpandedSubmodule::Expanded(x), ExpandedSubmodule::Expanded(y)) => x.repo_name@ == y.repo_name@
            && x.orig_commit_id == y.orig_commit_id,
        (ExpandedSubmodule::CommitMissingInSubRepo(x), ExpandedSubmodule::CommitMissingInSubRepo(y)) => x.repo_name@
            == y.repo_name@ && x.orig_commit_id == y.orig_commit_id,
        (
            ExpandedSubmodule::RegressedNotFullyImplemented(x),
            ExpandedSubmodule::RegressedNotFullyImplemented(y),
        ) => x.repo_name@ == y.repo_name@ && x.orig_commit_id == y.orig_commit_id,
        (ExpandedSubmodule::KeptAsSubmodule(x), ExpandedSubmodule::KeptAsSubmodule(y)) => x == y,
        (ExpandedSubmodule::UnknownSubmodule(x), ExpandedSubmodule::UnknownSubmodule(y)) => x == y,
        _ => false,
    }
}

/// Resolves a gitlink bump to the commit id in `content`, given the commit
/// that the gitlink pointed to before, if any.
pub fn expand_bump(cache: &TopRepoCache, content: &ThinSubmoduleContent, prev: Option<CommitId>) -> (r:
    ExpandedSubmodule)
    requires
        forall|k: int| 0 <= k < cache.sub_repos@.len() ==> (#[trigger] cache.sub_repos@[k]).1.thin_commits.wf(),
    ensures
        same_expansion(r, expansion_of(*cache, *content, prev)),
{
    let name = match &content.repo_name {
        None => {
            return ExpandedSubmodule::UnknownSubmodule(content.commit_id);
        },
        Some(name) => name,
    };
    let known = SubmoduleContent { repo_name: name.copy(), orig_commit_id: content.commit_id };
    let k = match cache.find_sub_repo(name.name.as_slice()) {
        None => {
            return ExpandedSubmodule::CommitMissingInSubRepo(known);
        },
        Some(k) => k,
    };
    proof {
        assert(sub_repo_index(*cache, name@, k as int));
        let kk = choose|kk: int| sub_repo_index(*cache, name@, kk);
        if kk < k {
            assert(cache.sub_repos@[kk].0@ != name@);
        } else if kk > k {
            assert(cache.sub_repos@[k as int].0@ != name@);
        }
        assert(kk == k);
    }
    let g = &cache.sub_repos[k].1.thin_commits;
    assert(g.wf());
    let new_pos = match g.find(content.commit_id) {
        None => {
            return ExpandedSubmodule::CommitMissingInSubRepo(known);
        },
        Some(i) => i,
    };
    proof {
        let c = choose|i: int| 0 <= i < g.commits@.len() && g.commits@[i].commit_id == content.commit_id;
        if c != new_pos as int {
            assert(g.commits@[c].commit_id != g.commits@[new_pos as int].commit_id);
        }
    }
    match prev {
        None => ExpandedSubmodule::Expanded(known),
        Some(p) => match g.find(p) {
            None => ExpandedSubmodule::Expanded(known),
            Some(prev_pos) => {
                proof {
                    let c = choose|i: int| 0 <= i < g.commits@.len() && g.commits@[i].commit_id == p;
                    if c != prev_pos as int {
                        assert(g.commits@[c].commit_id != g.commits@[prev_pos as int].commit_id);
                    }
                }
                if g.is_descendant_of(new_pos, prev_pos) {
                    ExpandedSubmodule::Expanded(known)
                } else {
                    ExpandedSubmodule::RegressedNotFullyImplemented(known)
                }
            },
        },
    }
}


/// A gitlink naming a sub repository that does not hold its commit resolves
/// to `CommitMissingInSubRepo`, never to `UnknownSubmodule`.
pub proof fn lemma_missing_commit_is_not_unknown(
    cache: TopRepoCache,
    content: ThinSubmoduleContent,
    prev: Option<CommitId>,
)
    requires
        content.repo_name is Some,
        forall|k: int|
            sub_repo_index(cache, content.repo_name->Some_0@, k) ==> position_of(
                cache.sub_repos@[k].1.thin_commits,
                content.commit_id,
            ) is None,
    ensures
        expansion_of(cache, content, prev) is CommitMissingInSubRepo,
{
}

/// A gitlink that moves from a known commit to one that does not descend
/// from it resolves to `RegressedNotFullyImplemented`.
pub proof fn lemma_backward_move_is_regression(
    cache: TopRepoCache,
    content: ThinSubmoduleContent,
    prev: CommitId,
    k: int,
)
    requires
        content.repo_name is Some,
        sub_repo_index(cache, content.repo_name->Some_0@, k),
        position_of(cache.sub_repos@[k].1.thin_commits, content.commit_id) is Some,
        position_of(cache.sub_repos@[k].1.thin_commits, prev) is Some,
        !descends(
            cache.sub_repos@[k].1.thin_commits.commits@,
            position_of(cache.sub_repos@[k].1.thin_commits, content.commit_id)->Some_0,
            position_of(cache.sub_repos@[k].1.thin_commits, prev)->Some_0,
        ),
    ensures
        expansion_of(cache, content, Some(prev)) is RegressedNotFullyImplemented,
{
    let name = content.repo_name->Some_0@;
    let kk = choose|kk: int| sub_repo_index(cache, name, kk);
    if kk < k {
        assert(cache.sub_repos@[kk].0@ != name);
    } else if kk > k {
        assert(cache.sub_repos@[k].0@ != name);
    }
}


/// What the expansion of one top commit consists of: the monorepo commits
/// of its parents and the resolution of each of its gitlink bumps.
#[derive(Debug)]
pub struct ExpansionPlan {
    pub mono_parents: Vec<MonoRepoParent>,
    pub submodule_bumps: Vec<(GitPath, ExpandedOrRemovedSubmodule)>,
    /// Whether a submodule regressed, so that a "reset" monorepo commit on
    /// the first monorepo parent, carrying the regressed submodules' new
    /// commits, is written first and taken as an extra parent instead of a
    /// merge edge across the revert point.
    pub reset_first: bool,
}

/// Whether a resolved bump is a regression.
pub open spec fn is_regressed(b: (GitPath, ExpandedOrRemovedSubmodule)) -> bool {
    b.1 matches ExpandedOrRemovedSubmodule::Expanded(ExpandedSubmodule::RegressedNotFullyImplemented(_))
}

/// The commit that the gitlink at `p` recorded in top commit `pos`, if any.
pub open spec fn gitlink_at(g: ThinCommitGraph, pos: int, p: Seq<u8>) -> Option<CommitId> {
    match chain_bump(g.commits@, pos, p) {
        Some(ThinSubmodule::AddedOrModified(c)) => Some(c.commit_id),
        _ => None,
    }
}

/// The gitlink at `p` in the first parent of top commit `pos`.
pub open spec fn previous_gitlink(g: ThinCommitGraph, pos: int, p: Seq<u8>) -> Option<CommitId> {
    if g.commits@[pos].parents@.len() > 0 {
        gitlink_at(g, g.commits@[pos].parents@[0] as int, p)
    } else {
        None
    }
}

/// Whether every git parent of top commit `pos` has been expanded.
pub open spec fn parents_expanded(cache: TopRepoCache, pos: int) -> bool {
    forall|k: int|
        0 <= k < cache.top_commits.commits@[pos].parents@.len() ==> is_expanded(
            cache.top_to_mono_map@,
            top_id(cache.top_commits, #[trigger] cache.top_commits.commits@[pos].parents@[k] as int),
        )
}

/// The original submodule commits grafted in as extra parents: one for each
/// bump that was fully expanded, in order. A regressed, missing or unknown
/// submodule gets none, so no merge edge crosses a revert point.
pub open spec fn grafts(bumps: Seq<(GitPath, ExpandedOrRemovedSubmodule)>) -> Seq<(Seq<u8>, CommitId)>
    decreases bumps.len(),
{
    if bumps.len() == 0 {
        Seq::empty()
    } else {
        let rest = grafts(bumps.drop_last());
        match bumps.last().1 {
            ExpandedOrRemovedSubmodule::Expanded(ExpandedSubmodule::Expanded(c)) => rest.push(
                (bumps.last().0@, c.orig_commit_id),
            ),
            _ => rest,
        }
    }
}

/// A grafted parent as a (path, commit) pair.
pub open spec fn graft_view(p: MonoRepoParent) -> (Seq<u8>, CommitId) {
    match p {
        MonoRepoParent::OriginalSubmod(o) => (o.path@, o.commit_id),
        MonoRepoParent::Mono(_) => (Seq::empty(), CommitId { hi: 0, lo: 0 }),
    }
}

/// Decides the expansion of top commit `pos`: its monorepo parents are the
/// monorepo commits of its git parents, in order, followed by the grafted
/// submodule commits, and each gitlink bump is resolved against the gitlink
/// of the first parent.
pub fn plan_expansion(cache: &TopRepoCache, pos: usize) -> (r: Result<ExpansionPlan, CacheError>)
    requires
        cache.wf(),
        pos < cache.top_commits.commits@.len(),
        forall|k: int| 0 <= k < cache.sub_repos@.len() ==> (#[trigger] cache.sub_repos@[k]).1.thin_commits.wf(),
    ensures
        r is Ok <==> parents_expanded(*cache, pos as int),
        r is Err ==> r->Err_0 == CacheError::ParentNotExpanded,
        r is Ok ==> {
            let plan = r->Ok_0;
            let c = cache.top_commits.commits@[pos as int];
            &&& plan.mono_parents@.len() == c.parents@.len() + grafts(plan.submodule_bumps@).len()
            &&& forall|k: int| 0 <= k < c.parents@.len() ==> (#[trigger] plan.mono_parents@[k]) == MonoRepoParent::Mono(
                mono_of(cache.top_to_mono_map@, top_id(cache.top_commits, c.parents@[k] as int))->Some_0,
            )
            &&& forall|k: int| 0 <= k < grafts(plan.submodule_bumps@).len() ==> {
                let p = #[trigger] plan.mono_parents@[c.parents@.len() + k];
                p is OriginalSubmod && graft_view(p) == grafts(plan.submodule_bumps@)[k]
            }
            &&& plan.reset_first == exists|j: int| 0 <= j < plan.submodule_bumps@.len() && is_regressed(#[trigger] plan.submodule_bumps@[j])
            &&& plan.submodule_bumps@.len() == c.submodule_bumps@.len()
            &&& forall|j: int| 0 <= j < c.submodule_bumps@.len() ==> {
                let b = #[trigger] plan.submodule_bumps@[j];
                &&& b.0@ == c.submodule_bumps@[j].0@
                &&& match c.submodule_bumps@[j].1 {
                    ThinSubmodule::Removed => b.1 is Removed,
                    ThinSubmodule::AddedOrModified(content) => match b.1 {
                        ExpandedOrRemovedSubmodule::Expanded(e) => same_expansion(
                            e,
                            expansion_of(*cache, content, previous_gitlink(cache.top_commits, pos as int, c.submodule_bumps@[j].0@)),
                        ),
                        ExpandedOrRemovedSubmodule::Removed => false,
                    },
                }
            }
        },
{
    let ghost g = cache.top_commits;
    let c = &cache.top_commits.commits[pos];
    proof {
        assert(commit_wf(g.commits@, pos as int));
    }
    let mut mono_parents: Vec<MonoRepoParent> = Vec::new();
    let mut k: usize = 0;
    while k < c.parents.len()
        invariant
            cache.wf(),
            g == cache.top_commits,
            pos < g.commits@.len(),
            *c == g.commits@[pos as int],
            commit_wf(g.commits@, pos as int),
            k <= c.parents@.len(),
            mono_parents@.len() == k,
            forall|j: int| 0 <= j < k ==> is_expanded(cache.top_to_mono_map@, top_id(g, #[trigger] c.parents@[j] as int)),
            forall|j: int| 0 <= j < k ==> (#[trigger] mono_parents@[j]) == MonoRepoParent::Mono(
                mono_of(cache.top_to_mono_map@, top_id(g, c.parents@[j] as int))->Some_0,
            ),
        decreases c.parents@.len() - k,
    {
        let q = c.parents[k];
        match cache.top_to_mono(TopRepoCommitId(cache.top_commits.commits[q].commit_id)) {
            None => {
                assert(!is_expanded(cache.top_to_mono_map@, top_id(g, c.parents@[k as int] as int)));
                return Err(CacheError::ParentNotExpanded);
            },
            Some(m) => {
                mono_parents.push(MonoRepoParent::Mono(m));
            },
        }
        k = k + 1;
    }
    let ghost old_parents = mono_parents@;
    let mut bumps: Vec<(GitPath, ExpandedOrRemovedSubmodule)> = Vec::new();
    let mut j: usize = 0;
    while j < c.submodule_bumps.len()
        invariant
            cache.wf(),
            g == cache.top_commits,
            pos < g.commits@.len(),
            *c == g.commits@[pos as int],
            commit_wf(g.commits@, pos as int),
            forall|k: int| 0 <= k < cache.sub_repos@.len() ==> (#[trigger] cache.sub_repos@[k]).1.thin_commits.wf(),
            j <= c.submodule_bumps@.len(),
            bumps@.len() == j,
            forall|jj: int| 0 <= jj < j ==> {
                let b = #[trigger] bumps@[jj];
                &&& b.0@ == c.submodule_bumps@[jj].0@
                &&& match c.submodule_bumps@[jj].1 {
                    ThinSubmodule::Removed => b.1 is Removed,
                    ThinSubmodule::AddedOrModified(content) => match b.1 {
                        ExpandedOrRemovedSubmodule::Expanded(e) => same_expansion(
                            e,
                            expansion_of(*cache, content, previous_gitlink(g, pos as int, c.submodule_bumps@[jj].0@)),
                        ),
                        ExpandedOrRemovedSubmodule::Removed => false,
                    },
                }
            },
        decreases c.submodule_bumps@.len() - j,
    {
        let entry = &c.submodule_bumps[j];
        let resolved = match &entry.1 {
            ThinSubmodule::Removed => ExpandedOrRemovedSubmodule::Removed,
            ThinSubmodule::AddedOrModified(content) => {
                let prev: Option<CommitId> = if c.parents.len() > 0 {
                    let fp = c.parents[0];
                    match cache.top_commits.get_submodule(fp, &entry.0) {
                        Some(ThinSubmodule::AddedOrModified(pc)) => Some(pc.commit_id),
                        _ => None,
                    }
                } else {
                    None
                };
                assert(prev == previous_gitlink(g, pos as int, entry.0@));
                ExpandedOrRemovedSubmodule::Expanded(expand_bump(cache, content, prev))
            },
        };
        bumps.push((entry.0.copy(), resolved));
        j = j + 1;
    }
    let np = mono_parents.len();
    let ghost g_all = grafts(bumps@);
    let mut reset_first = false;
    let mut j: usize = 0;
    while j < bumps.len()
        invariant
            j <= bumps@.len(),
            reset_first == exists|jj: int| 0 <= jj < j && is_regressed(#[trigger] bumps@[jj]),
            g_all == grafts(bumps@),
            np <= mono_parents@.len(),
            mono_parents@.len() == np + grafts(bumps@.subrange(0, j as int)).len(),
            forall|k: int| 0 <= k < np ==> #[trigger] mono_parents@[k] == old_parents[k],
            forall|k: int| 0 <= k < grafts(bumps@.subrange(0, j as int)).len() ==> {
                let p = #[trigger] mono_parents@[np + k];
                p is OriginalSubmod && graft_view(p) == grafts(bumps@.subrange(0, j as int))[k]
            },
        decreases bumps@.len() - j,
    {
        let ghost sub = bumps@.subrange(0, j + 1);
        assert(sub.drop_last() =~= bumps@.subrange(0, j as int));
        assert(sub.last() == bumps@[j as int]);
        if let ExpandedOrRemovedSubmodule::Expanded(ExpandedSubmodule::RegressedNotFullyImplemented(_)) = &bumps[j].1 {
            reset_first = true;
        }
        if let ExpandedOrRemovedSubmodule::Expanded(ExpandedSubmodule::Expanded(content)) = &bumps[j].1 {
            let graft = OriginalSubmodParent { path: bumps[j].0.copy(), commit_id: content.orig_commit_id };
            mono_parents.push(MonoRepoParent::OriginalSubmod(graft));
        }
        j = j + 1;
    }
    assert(bumps@.subrange(0, bumps@.len() as int) =~= bumps@);
    Ok(ExpansionPlan { mono_parents, submodule_bumps: bumps, reset_first })
}



/// The bumps of the reset commit: each regressed submodule at its new
/// commit, in order.
pub open spec fn reset_bumps(bumps: Seq<(GitPath, ExpandedOrRemovedSubmodule)>) -> Seq<(Seq<u8>, Seq<u8>, CommitId)>
    decreases bumps.len(),
{
    if bumps.len() == 0 {
        Seq::empty()
    } else {
        let rest = reset_bumps(bumps.drop_last());
        match bumps.last().1 {
            ExpandedOrRemovedSubmodule::Expanded(ExpandedSubmodule::RegressedNotFullyImplemented(c)) => rest.push(
                (bumps.last().0@, c.repo_name@, c.orig_commit_id),
            ),
            _ => rest,
        }
    }
}

/// A reset bump as (path, sub repository, commit), if it expands a known
/// submodule.
pub open spec fn reset_bump_view(b: (GitPath, ExpandedOrRemovedSubmodule)) -> Option<(Seq<u8>, Seq<u8>, CommitId)> {
    match b.1 {
        ExpandedOrRemovedSubmodule::Expanded(ExpandedSubmodule::Expanded(c)) => Some((b.0@, c.repo_name@, c.orig_commit_id)),
        _ => None,
    }
}

/// Writes the reset commit that a plan with a regressed submodule asks for:
/// a monorepo commit `reset_id` on the plan's first parent that carries each
/// regressed submodule at its new commit. The reset commit is then added to
/// the plan as an extra parent, in place of a merge edge across the revert
/// point. Returns the reset commit's position.
pub fn record_reset_commit(cache: &mut TopRepoCache, plan: &mut ExpansionPlan, reset_id: MonoRepoCommitId) -> (r:
    Result<usize, CacheError>)
    requires
        old(cache).wf(),
    ensures
        final(cache).wf(),
        final(cache).top_commits == old(cache).top_commits,
        final(cache).top_to_mono_map@ == old(cache).top_to_mono_map@,
        final(cache).sub_repos@ == old(cache).sub_repos@,
        r is Err ==> *final(cache) == *old(cache) && *final(plan) == *old(plan),
        (r is Err && r->Err_0 == CacheError::UnknownParent) <==> (old(plan).mono_parents@.len() > 0
            && old(plan).mono_parents@[0] is Mono && old(plan).mono_parents@[0]->Mono_0
            >= old(cache).monorepo_commits@.len()),
        (r is Err && r->Err_0 == CacheError::DuplicateMonoCommit) <==> (!(old(plan).mono_parents@.len() > 0
            && old(plan).mono_parents@[0] is Mono && old(plan).mono_parents@[0]->Mono_0
            >= old(cache).monorepo_commits@.len()) && old(cache).monorepo_commit_ids@.contains(reset_id)),
        r is Ok ==> {
            let n = r->Ok_0;
            let c = final(cache).monorepo_commits@[n as int];
            &&& n == old(cache).monorepo_commits@.len()
            &&& c.top_bump is None
            &&& (if old(plan).mono_parents@.len() > 0 && old(plan).mono_parents@[0] is Mono {
                c.parents@ == seq![old(plan).mono_parents@[0]]
            } else {
                c.parents@.len() == 0
            })
            &&& c.submodule_bumps@.len() == reset_bumps(old(plan).submodule_bumps@).len()
            &&& forall|j: int| 0 <= j < c.submodule_bumps@.len() ==> reset_bump_view(#[trigger] c.submodule_bumps@[j])
                == Some(reset_bumps(old(plan).submodule_bumps@)[j])
            &&& final(plan).mono_parents@ == old(plan).mono_parents@.push(MonoRepoParent::Mono(n))
            &&& final(plan).submodule_bumps@ == old(plan).submodule_bumps@
            &&& final(plan).reset_first == old(plan).reset_first
        },
{
    let mut parents: Vec<MonoRepoParent> = Vec::new();
    if plan.mono_parents.len() > 0 {
        if let MonoRepoParent::Mono(fp) = &plan.mono_parents[0] {
            parents.push(MonoRepoParent::Mono(*fp));
        }
    }
    let mut bumps: Vec<(GitPath, ExpandedOrRemovedSubmodule)> = Vec::new();
    let mut j: usize = 0;
    while j < plan.submodule_bumps.len()
        invariant
            j <= plan.submodule_bumps@.len(),
            bumps@.len() == reset_bumps(plan.submodule_bumps@.subrange(0, j as int)).len(),
            forall|k: int| 0 <= k < bumps@.len() ==> reset_bump_view(#[trigger] bumps@[k])
                == Some(reset_bumps(plan.submodule_bumps@.subrange(0, j as int))[k]),
        decreases plan.submodule_bumps@.len() - j,
    {
        let ghost sub = plan.submodule_bumps@.subrange(0, j + 1);
        assert(sub.drop_last() =~= plan.submodule_bumps@.subrange(0, j as int));
        assert(sub.last() == plan.submodule_bumps@[j as int]);
        if let ExpandedOrRemovedSubmodule::Expanded(ExpandedSubmodule::RegressedNotFullyImplemented(c)) = &plan.submodule_bumps[j].1 {
            let content = SubmoduleContent { repo_name: c.repo_name.copy(), orig_commit_id: c.orig_commit_id };
            bumps.push((plan.submodule_bumps[j].0.copy(), ExpandedOrRemovedSubmodule::Expanded(ExpandedSubmodule::Expanded(content))));
        }
        j = j + 1;
    }
    assert(plan.submodule_bumps@.subrange(0, plan.submodule_bumps@.len() as int) =~= plan.submodule_bumps@);
    let ghost ps = parents@;
    match cache.insert_mono(reset_id, parents, None, bumps) {
        Ok(n) => {
            proof {
                if plan.mono_parents@.len() > 0 && plan.mono_parents@[0] is Mono {
                    assert(ps =~= seq![plan.mono_parents@[0]]);
                }
            }
            plan.mono_parents.push(MonoRepoParent::Mono(n));
            Ok(n)
        },
        Err(e) => {
            proof {
                if exists|k: int| 0 <= k < ps.len() && !parent_before(#[trigger] ps[k], old(cache).monorepo_commits@.len() as int) {
                    let k = choose|k: int| 0 <= k < ps.len() && !parent_before(#[trigger] ps[k], old(cache).monorepo_commits@.len() as int);
                    assert(k == 0);
                }
            }
            Err(e)
        },
    }
}


/// What bump `j` of top commit `pos` undid, if it was a regression: the
/// submodule's path, its sub repository and the commit it had before.
pub open spec fn undone_by(cache: TopRepoCache, pos: int, j: int) -> Option<(Seq<u8>, Seq<u8>, CommitId)> {
    let b = cache.top_commits.commits@[pos].submodule_bumps@[j];
    match b.1 {
        ThinSubmodule::AddedOrModified(content) => match previous_gitlink(cache.top_commits, pos, b.0@) {
            Some(before) => if expansion_of(cache, content, Some(before)) is RegressedNotFullyImplemented {
                Some((b.0@, content.repo_name->Some_0@, before))
            } else {
                None
            },
            None => None,
        },
        ThinSubmodule::Removed => None,
    }
}

/// The regressions of top commit `pos`, in the order of its bumps.
pub open spec fn undone_in(cache: TopRepoCache, pos: int, n: int) -> Seq<(Seq<u8>, Seq<u8>, CommitId)>
    decreases n,
{
    if n <= 0 {
        Seq::empty()
    } else {
        let rest = undone_in(cache, pos, n - 1);
        match undone_by(cache, pos, n - 1) {
            Some(u) => rest.push(u),
            None => rest,
        }
    }
}

/// The submodule states that the first parent of top commit `pos` undid by
/// regressing: the commit after a revert point gets a "restore" monorepo
/// commit on its first monorepo parent that carries them again, so the
/// history in between is not lost.
pub fn plan_restore(cache: &TopRepoCache, pos: usize) -> (r: Vec<(GitPath, SubmoduleContent)>)
    requires
        cache.wf(),
        pos < cache.top_commits.commits@.len(),
        forall|k: int| 0 <= k < cache.sub_repos@.len() ==> (#[trigger] cache.sub_repos@[k]).1.thin_commits.wf(),
    ensures
        ({
            let c = cache.top_commits.commits@[pos as int];
            let u = if c.parents@.len() > 0 {
                undone_in(*cache, c.parents@[0] as int, cache.top_commits.commits@[c.parents@[0] as int].submodule_bumps@.len() as int)
            } else {
                Seq::empty()
            };
            &&& r@.len() == u.len()
            &&& forall|j: int| 0 <= j < r@.len() ==> ((#[trigger] r@[j]).0@, r@[j].1.repo_name@, r@[j].1.orig_commit_id) == u[j]
        }),
{
    let mut out: Vec<(GitPath, SubmoduleContent)> = Vec::new();
    let c = &cache.top_commits.commits[pos];
    if c.parents.len() == 0 {
        return out;
    }
    let fp = c.parents[0];
    proof {
        assert(commit_wf(cache.top_commits.commits@, pos as int));
    }
    let b = &cache.top_commits.commits[fp];
    let mut j: usize = 0;
    while j < b.submodule_bumps.len()
        invariant
            cache.wf(),
            forall|k: int| 0 <= k < cache.sub_repos@.len() ==> (#[trigger] cache.sub_repos@[k]).1.thin_commits.wf(),
            fp < cache.top_commits.commits@.len(),
            *b == cache.top_commits.commits@[fp as int],
            j <= b.submodule_bumps@.len(),
            out@.len() == undone_in(*cache, fp as int, j as int).len(),
            forall|k: int| 0 <= k < out@.len() ==> ((#[trigger] out@[k]).0@, out@[k].1.repo_name@, out@[k].1.orig_commit_id)
                == undone_in(*cache, fp as int, j as int)[k],
        decreases b.submodule_bumps@.len() - j,
    {
        let entry = &b.submodule_bumps[j];
        proof {
            assert(commit_wf(cache.top_commits.commits@, fp as int));
        }
        if let ThinSubmodule::AddedOrModified(content) = &entry.1 {
            let before: Option<CommitId> = if b.parents.len() > 0 {
                match cache.top_commits.get_submodule(b.parents[0], &entry.0) {
                    Some(ThinSubmodule::AddedOrModified(pc)) => Some(pc.commit_id),
                    _ => None,
                }
            } else {
                None
            };
            proof {
                assert(commit_wf(cache.top_commits.commits@, fp as int));
            }
            assert(before == previous_gitlink(cache.top_commits, fp as int, entry.0@));
            if let Some(y) = before {
                let e = expand_bump(cache, content, Some(y));
                if let ExpandedSubmodule::RegressedNotFullyImplemented(rc) = &e {
                    let restored = SubmoduleContent { repo_name: rc.repo_name.copy(), orig_commit_id: y };
                    out.push((entry.0.copy(), restored));
                }
            }
        }
        j = j + 1;
    }
    out
}

/// Writes the restore commit for `restore` (see `plan_restore`): a
/// monorepo commit `restore_id` on the plan's first parent that carries each
/// listed submodule at the listed commit. It is added to the plan as an extra
/// parent. Returns its position.
pub fn record_restore_commit(
    cache: &mut TopRepoCache,
    plan: &mut ExpansionPlan,
    restore_id: MonoRepoCommitId,
    restore: &Vec<(GitPath, SubmoduleContent)>,
) -> (r: Result<usize, CacheError>)
    requires
        old(cache).wf(),
    ensures
        final(cache).wf(),
        final(cache).top_commits == old(cache).top_commits,
        final(cache).top_to_mono_map@ == old(cache).top_to_mono_map@,
        final(cache).sub_repos@ == old(cache).sub_repos@,
        r is Err ==> *final(cache) == *old(cache) && *final(plan) == *old(plan),
        (r is Err && r->Err_0 == CacheError::UnknownParent) <==> (old(plan).mono_parents@.len() > 0
            && old(plan).mono_parents@[0] is Mono && old(plan).mono_parents@[0]->Mono_0
            >= old(cache).monorepo_commits@.len()),
        (r is Err && r->Err_0 == CacheError::DuplicateMonoCommit) <==> (!(old(plan).mono_parents@.len() > 0
            && old(plan).mono_parents@[0] is Mono && old(plan).mono_parents@[0]->Mono_0
            >= old(cache).monorepo_commits@.len()) && old(cache).monorepo_commit_ids@.contains(restore_id)),
        r is Ok ==> {
            let n = r->Ok_0;
            let c = final(cache).monorepo_commits@[n as int];
            &&& n == old(cache).monorepo_commits@.len()
            &&& c.top_bump is None
            &&& (if old(plan).mono_parents@.len() > 0 && old(plan).mono_parents@[0] is Mono {
                c.parents@ == seq![old(plan).mono_parents@[0]]
            } else {
                c.parents@.len() == 0
            })
            &&& c.submodule_bumps@.len() == restore@.len()
            &&& forall|j: int| 0 <= j < restore@.len() ==> reset_bump_view(#[trigger] c.submodule_bumps@[j])
                == Some((restore@[j].0@, restore@[j].1.repo_name@, restore@[j].1.orig_commit_id))
            &&& final(plan).mono_parents@ == old(plan).mono_parents@.push(MonoRepoParent::Mono(n))
            &&& final(plan).submodule_bumps@ == old(plan).submodule_bumps@
            &&& final(plan).reset_first == old(plan).reset_first
        },
{
    let mut parents: Vec<MonoRepoParent> = Vec::new();
    if plan.mono_parents.len() > 0 {
        if let MonoRepoParent::Mono(fp) = &plan.mono_parents[0] {
            parents.push(MonoRepoParent::Mono(*fp));
        }
    }
    let mut bumps: Vec<(GitPath, ExpandedOrRemovedSubmodule)> = Vec::new();
    let mut j: usize = 0;
    while j < restore.len()
        invariant
            j <= restore@.len(),
            bumps@.len() == j,
            forall|k: int| 0 <= k < j ==> reset_bump_view(#[trigger] bumps@[k])
                == Some((restore@[k].0@, restore@[k].1.repo_name@, restore@[k].1.orig_commit_id)),
        decreases restore@.len() - j,
    {
        let content = SubmoduleContent { repo_name: restore[j].1.repo_name.copy(), orig_commit_id: restore[j].1.orig_commit_id };
        bumps.push((restore[j].0.copy(), ExpandedOrRemovedSubmodule::Expanded(ExpandedSubmodule::Expanded(content))));
        j = j + 1;
    }
    let ghost ps = parents@;
    match cache.insert_mono(restore_id, parents, None, bumps) {
        Ok(n) => {
            proof {
                if plan.mono_parents@.len() > 0 && plan.mono_parents@[0] is Mono {
                    assert(ps =~= seq![plan.mono_parents@[0]]);
                }
            }
            plan.mono_parents.push(MonoRepoParent::Mono(n));
            Ok(n)
        },
        Err(e) => {
            proof {
                if exists|k: int| 0 <= k < ps.len() && !parent_before(#[trigger] ps[k], old(cache).monorepo_commits@.len() as int) {
                    let k = choose|k: int| 0 <= k < ps.len() && !parent_before(#[trigger] ps[k], old(cache).monorepo_commits@.len() as int);
                    assert(k == 0);
                }
            }
            Err(e)
        },
    }
}

/// Records the expansion of top commit `pos`, written as monorepo commit
/// `mono_id` from `plan`: the monorepo commit is added, carrying the top
/// commit, and the top commit is mapped to it.
pub fn record_expansion(
    cache: &mut TopRepoCache,
    pos: usize,
    mono_id: MonoRepoCommitId,
    plan: ExpansionPlan,
) -> (r: Result<usize, CacheError>)
    requires
        old(cache).wf(),
        pos < old(cache).top_commits.commits@.len(),
    ensures
        final(cache).wf(),
        r is Err ==> *final(cache) == *old(cache),
        (r is Err && r->Err_0 == CacheError::ParentNotExpanded) <==> !parents_expanded(*old(cache), pos as int),
        (r is Err && r->Err_0 == CacheError::UnknownParent) <==> (parents_expanded(*old(cache), pos as int)
            && exists|k: int|
            0 <= k < plan.mono_parents@.len() && !parent_before(
                #[trigger] plan.mono_parents@[k],
                old(cache).monorepo_commits@.len() as int,
            )),
        (r is Err && r->Err_0 == CacheError::DuplicateMonoCommit) <==> (parents_expanded(*old(cache), pos as int)
            && (forall|k: int|
            0 <= k < plan.mono_parents@.len() ==> parent_before(
                #[trigger] plan.mono_parents@[k],
                old(cache).monorepo_commits@.len() as int,
            )) && old(cache).monorepo_commit_ids@.contains(mono_id)),
        r is Ok <==> (parents_expanded(*old(cache), pos as int) && (forall|k: int|
            0 <= k < plan.mono_parents@.len() ==> parent_before(
                #[trigger] plan.mono_parents@[k],
                old(cache).monorepo_commits@.len() as int,
            )) && !old(cache).monorepo_commit_ids@.contains(mono_id)),
        final(cache).sub_repos@ == old(cache).sub_repos@,
        final(cache).dedup == old(cache).dedup,
        final(cache).top_commits == old(cache).top_commits,
        r is Ok ==> {
            let n = r->Ok_0;
            let t = top_id(old(cache).top_commits, pos as int);
            &&& n == old(cache).monorepo_commits@.len()
            &&& final(cache).monorepo_commits@[n as int].parents@ == plan.mono_parents@
            &&& final(cache).monorepo_commits@[n as int].submodule_bumps@ == plan.submodule_bumps@
            &&& final(cache).monorepo_commits@[n as int].top_bump == Some(t)
            &&& final(cache).top_to_mono_map@ == old(cache).top_to_mono_map@.push((t, n))
            &&& mono_of(final(cache).top_to_mono_map@, t) == Some(n)
        },
{
    let t = TopRepoCommitId(cache.top_commits.commits[pos].commit_id);
    let ghost g = cache.top_commits;
    let mut k: usize = 0;
    while k < cache.top_commits.commits[pos].parents.len()
        invariant
            cache.wf(),
            *cache == *old(cache),
            g == cache.top_commits,
            pos < g.commits@.len(),
            k <= g.commits@[pos as int].parents@.len(),
            forall|j: int| 0 <= j < k ==> is_expanded(
                cache.top_to_mono_map@,
                top_id(g, #[trigger] g.commits@[pos as int].parents@[j] as int),
            ),
        decreases g.commits@[pos as int].parents@.len() - k,
    {
        let q = cache.top_commits.commits[pos].parents[k];
        proof {
            assert(commit_wf(g.commits@, pos as int));
        }
        if !cache.contains_top(TopRepoCommitId(cache.top_commits.commits[q].commit_id)) {
            return Err(CacheError::ParentNotExpanded);
        }
        k = k + 1;
    }
    let n = match cache.insert_mono(mono_id, plan.mono_parents, Some(t), plan.submodule_bumps) {
        Ok(n) => n,
        Err(e) => {
            return Err(e);
        },
    };
    let recorded = cache.record_top_to_mono(t, n);
    proof {
        assert(top_id(cache.top_commits, pos as int) == t);
        assert(recorded is Ok);
    }
    Ok(n)
}


/// Whether top commit `j` is one of the tips or an ancestor of one.
pub open spec fn reached(g: Seq<crate::thin::ThinCommit>, tips: Seq<usize>, j: int) -> bool {
    exists|k: int| 0 <= k < tips.len() && #[trigger] descends(g, tips[k] as int, j)
}

/// Whether `j` is one of the tips.
pub open spec fn is_tip(tips: Seq<usize>, j: int) -> bool {
    exists|k: int| 0 <= k < tips.len() && tips[k] as int == j
}

/// Whether top commit `j` still has to be expanded to expand `tips`.
/// With `redo_tips`, the tips themselves are expanded again even when they
/// were expanded before.
pub open spec fn to_expand(cache: TopRepoCache, tips: Seq<usize>, redo_tips: bool, j: int) -> bool {
    reached(cache.top_commits.commits@, tips, j) && (!is_expanded(cache.top_to_mono_map@, top_id(cache.top_commits, j))
        || (redo_tips && is_tip(tips, j)))
}

proof fn lemma_reached_step(g: Seq<crate::thin::ThinCommit>, tips: Seq<usize>, j: int)
    requires
        0 <= j,
    ensures
        reached(g, tips, j) <==> (is_tip(tips, j) || exists|c: int|
            j < c && reached(g, tips, c) && #[trigger] has_parent(g, c, j)),
{
    if reached(g, tips, j) {
        let k = choose|k: int| 0 <= k < tips.len() && #[trigger] descends(g, tips[k] as int, j);
        if tips[k] as int != j {
            let t = tips[k] as int;
            assert(0 <= j < t);
            let c = choose|c: int| j < c <= t && #[trigger] has_parent(g, c, j) && descends(g, t, c);
            assert(reached(g, tips, c));
        } else {
            assert(is_tip(tips, j));
        }
    }
    if is_tip(tips, j) {
        let k = choose|k: int| 0 <= k < tips.len() && tips[k] as int == j;
        assert(descends(g, tips[k] as int, j));
    }
    if exists|c: int| j < c && reached(g, tips, c) && #[trigger] has_parent(g, c, j) {
        let c = choose|c: int| j < c && reached(g, tips, c) && #[trigger] has_parent(g, c, j);
        let k = choose|k: int| 0 <= k < tips.len() && #[trigger] descends(g, tips[k] as int, c);
        let t = tips[k] as int;
        if c > t {
            assert(!descends(g, t, c));
        }
        lemma_descends_step(g, t, j, c);
    }
}

impl TopRepoCache {
    /// The top commits that expanding `tips` has to expand: the tips and
    /// their ancestors that are not expanded yet, and with `redo_tips` the
    /// tips themselves in any case, parents before children.
    pub fn commits_to_expand(&self, tips: &Vec<usize>, redo_tips: bool) -> (r: Vec<usize>)
        requires
            self.wf(),
            forall|k: int| 0 <= k < tips@.len() ==> tips@[k] < self.top_commits.commits@.len(),
        ensures
            forall|a: int, b: int| 0 <= a < b < r@.len() ==> r@[a] < r@[b],
            forall|a: int| 0 <= a < r@.len() ==> (#[trigger] r@[a]) < self.top_commits.commits@.len()
                && to_expand(*self, tips@, redo_tips, r@[a] as int),
            forall|j: int|
                0 <= j < self.top_commits.commits@.len() && #[trigger] to_expand(*self, tips@, redo_tips, j) ==> r@.contains(
                    j as usize,
                ),
    {
        let ghost g = self.top_commits.commits@;
        let n = self.top_commits.commits.len();
        let mut marks: Vec<bool> = Vec::new();
        let mut tip_marks: Vec<bool> = Vec::new();
        let mut j: usize = 0;
        while j < n
            invariant
                j <= n,
                n == g.len(),
                marks@.len() == j,
                tip_marks@ == marks@,
                forall|m: int| 0 <= m < j ==> (marks@[m] <==> is_tip(tips@, m)),
                forall|k: int| 0 <= k < tips@.len() ==> tips@[k] < n,
            decreases n - j,
        {
            let mut is_tip = false;
            let mut k: usize = 0;
            while k < tips.len()
                invariant
                    k <= tips@.len(),
                    is_tip == exists|kk: int| 0 <= kk < k && tips@[kk] == j,
                decreases tips@.len() - k,
            {
                if tips[k] == j {
                    is_tip = true;
                }
                k = k + 1;
            }
            marks.push(is_tip);
            tip_marks.push(is_tip);
            j = j + 1;
        }
        let ghost tm = tip_marks@;
        let mut i: usize = n;
        while i > 0
            invariant
                g == self.top_commits.commits@,
                self.wf(),
                n == g.len(),
                i <= n,
                marks@.len() == n,
                tip_marks@ == tm,
                tm.len() == n,
                forall|m: int| 0 <= m < n ==> (tm[m] <==> is_tip(tips@, m)),
                forall|k: int| 0 <= k < tips@.len() ==> tips@[k] < n,
                forall|m: int| i <= m < n ==> (marks@[m] <==> reached(g, tips@, m)),
                forall|m: int| #![trigger marks@[m]]
                    0 <= m < i ==> (marks@[m] <==> (is_tip(tips@, m) || exists|c: int|
                        i <= c < n && reached(g, tips@, c) && #[trigger] has_parent(g, c, m))),
            decreases i,
        {
            let cur = i - 1;
            let ghost before = marks@;
            assert(forall|m: int| i <= m < n ==> (before[m] <==> reached(g, tips@, m)));
            proof {
                assert(commit_wf(g, cur as int));
                lemma_reached_step(g, tips@, cur as int);
                assert forall|c: int| cur < c && reached(g, tips@, c) && has_parent(g, c, cur as int) implies c < n by {
                    if c >= n {
                        let k = choose|k: int| 0 <= k < tips@.len() && #[trigger] descends(g, tips@[k] as int, c);
                        assert(!descends(g, tips@[k] as int, c));
                    }
                }
                assert(before[cur as int] == reached(g, tips@, cur as int));
            }
            if marks[cur] {
                let ps = &self.top_commits.commits[cur].parents;
                let mut k: usize = 0;
                assert forall|m: int| !in_prefix(ps@, 0, m) by {
                    reveal(in_prefix);
                }
                while k < ps.len()
                    invariant
                        g == self.top_commits.commits@,
                        ps@ == g[cur as int].parents@,
                        commit_wf(g, cur as int),
                        cur < n,
                        n == g.len(),
                        before.len() == n,
                        marks@.len() == n,
                tip_marks@ == tm,
                tm.len() == n,
                forall|m: int| 0 <= m < n ==> (tm[m] <==> is_tip(tips@, m)),
                        k <= ps@.len(),
                        forall|m: int| cur <= m < n ==> marks@[m] == before[m],
                        forall|m: int| #![trigger marks@[m]]
                            0 <= m < cur ==> (marks@[m] <==> (before[m] || in_prefix(ps@, k as int, m))),
                    decreases ps@.len() - k,
                {
                    let p = ps[k];
                    assert(ps@[k as int] < cur);
                    let ghost prev = marks@;
                    marks.set(p, true);
                    assert forall|m: int| #![trigger marks@[m]]
                        0 <= m < cur implies (marks@[m] <==> (before[m] || in_prefix(ps@, k + 1, m))) by {
                        lemma_in_prefix_step(ps@, k as int, m);
                        assert(prev[m] <==> (before[m] || in_prefix(ps@, k as int, m)));
                    }
                    k = k + 1;
                }
                assert forall|m: int| 0 <= m < cur implies (marks@[m] <==> (before[m] || has_parent(g, cur as int, m))) by {
                    reveal(in_prefix);
                    reveal(has_parent);
                    assert(in_prefix(ps@, ps@.len() as int, m) == has_parent(g, cur as int, m));
                }
            }
            assert(forall|m: int| cur <= m < n ==> marks@[m] == before[m]);
            proof {
                assert forall|m: int| #![trigger marks@[m]]
                    0 <= m < cur implies (marks@[m] <==> (is_tip(tips@, m) || exists|c: int|
                    cur <= c < n && reached(g, tips@, c) && #[trigger] has_parent(g, c, m))) by {
                    if marks@[m] && !before[m] {
                        assert(reached(g, tips@, cur as int) && has_parent(g, cur as int, m));
                    }
                    if exists|c: int| cur <= c < n && reached(g, tips@, c) && #[trigger] has_parent(g, c, m) {
                        let c = choose|c: int| cur <= c < n && reached(g, tips@, c) && #[trigger] has_parent(g, c, m);
                        if c == cur as int {
                            assert(marks@[m]);
                        } else {
                            assert(before[m]);
                        }
                    }
                    if before[m] && exists|c: int| i <= c < n && reached(g, tips@, c) && #[trigger] has_parent(g, c, m) {
                        let c = choose|c: int| i <= c < n && reached(g, tips@, c) && #[trigger] has_parent(g, c, m);
                        assert(cur <= c < n && reached(g, tips@, c) && has_parent(g, c, m));
                    }
                }
                assert(marks@[cur as int] == before[cur as int]);
                assert forall|m: int| cur <= m < n implies (marks@[m] <==> reached(g, tips@, m)) by {
                    assert(marks@[m] == before[m]);
                    if m > cur as int {
                        assert(before[m] <==> reached(g, tips@, m));
                    }
                }
            }
            i = cur;
        }
        let mut r: Vec<usize> = Vec::new();
        let mut j: usize = 0;
        while j < n
            invariant
                g == self.top_commits.commits@,
                self.wf(),
                n == g.len(),
                j <= n,
                marks@.len() == n,
                tip_marks@ == tm,
                tm.len() == n,
                forall|m: int| 0 <= m < n ==> (tm[m] <==> is_tip(tips@, m)),
                forall|m: int| 0 <= m < n ==> (marks@[m] <==> reached(g, tips@, m)),
                forall|a: int, b: int| 0 <= a < b < r@.len() ==> r@[a] < r@[b],
                forall|a: int| 0 <= a < r@.len() ==> (#[trigger] r@[a]) < j && to_expand(*self, tips@, redo_tips, r@[a] as int),
                forall|m: int| 0 <= m < j && #[trigger] to_expand(*self, tips@, redo_tips, m) ==> r@.contains(m as usize),
            decreases n - j,
        {
            if marks[j] && (!self.contains_top(TopRepoCommitId(self.top_commits.commits[j].commit_id)) || (redo_tips
                && tip_marks[j])) {
                let ghost before = r@;
                r.push(j);
                assert forall|m: int| 0 <= m < j + 1 && #[trigger] to_expand(*self, tips@, redo_tips, m) implies r@.contains(m as usize) by {
                    if m < j {
                        let a = choose|a: int| 0 <= a < before.len() && before[a] == m as usize;
                        assert(r@[a] == m as usize);
                    } else {
                        assert(r@[r@.len() - 1] == j);
                    }
                }
            } else {
                assert forall|m: int| 0 <= m < j + 1 && #[trigger] to_expand(*self, tips@, redo_tips, m) implies r@.contains(m as usize) by {
                    if m == j as int {
                        assert(!to_expand(*self, tips@, redo_tips, m));
                    }
                }
            }
            j = j + 1;
        }
        r
    }
}


/// Whether monorepo commit `m` is a valid place to inject the commit at
/// position `inject` of sub repository `k` at `path`: `m` carries that sub
/// repository at `path`, at a commit that `inject` descends from.
pub open spec fn splice_point(cache: TopRepoCache, k: int, path: Seq<u8>, inject: int, m: int) -> bool {
    match chain_mono_bump(cache.monorepo_commits@, m, path) {
        Some(ExpandedOrRemovedSubmodule::Expanded(e)) => known_repo_of(e) == Some(cache.sub_repos@[k].0@)
            && match position_of(cache.sub_repos@[k].1.thin_commits, crate::mono::orig_commit_of(e)) {
            Some(at) => descends(cache.sub_repos@[k].1.thin_commits.commits@, inject, at),
            None => false,
        },
        _ => false,
    }
}

impl TopRepoCache {
    /// Among the monorepo commits `candidates` (the known ancestors of the
    /// commit to build on), the oldest one onto which commit `inject` of sub
    /// repository `k` can be injected at `path`; `None` if there is no common
    /// history.
    pub fn injection_point(&self, candidates: &Vec<usize>, k: usize, path: &GitPath, inject: usize) -> (r:
        Option<usize>)
        requires
            self.wf(),
            k < self.sub_repos@.len(),
            self.sub_repos@[k as int].1.thin_commits.wf(),
            inject < self.sub_repos@[k as int].1.thin_commits.commits@.len(),
            forall|j: int| 0 <= j < candidates@.len() ==> candidates@[j] < self.monorepo_commits@.len(),
        ensures
            r is None <==> forall|j: int|
                0 <= j < candidates@.len() ==> !splice_point(*self, k as int, path@, inject as int, #[trigger] candidates@[j] as int),
            r is Some ==> {
                let m = r->Some_0;
                &&& candidates@.contains(m)
                &&& splice_point(*self, k as int, path@, inject as int, m as int)
                &&& forall|j: int|
                    0 <= j < candidates@.len() && splice_point(*self, k as int, path@, inject as int, #[trigger] candidates@[j] as int)
                        ==> self.monorepo_commits@[m as int].depth <= self.monorepo_commits@[candidates@[j] as int].depth
            },
    {
        let g = &self.sub_repos[k].1.thin_commits;
        let mut best: Option<usize> = None;
        let mut j: usize = 0;
        while j < candidates.len()
            invariant
                self.wf(),
                k < self.sub_repos@.len(),
                *g == self.sub_repos@[k as int].1.thin_commits,
                g.wf(),
                inject < g.commits@.len(),
                forall|x: int| 0 <= x < candidates@.len() ==> candidates@[x] < self.monorepo_commits@.len(),
                j <= candidates@.len(),
                best is None <==> forall|x: int|
                    0 <= x < j ==> !splice_point(*self, k as int, path@, inject as int, #[trigger] candidates@[x] as int),
                best is Some ==> {
                    let m = best->Some_0;
                    &&& candidates@.contains(m)
                    &&& splice_point(*self, k as int, path@, inject as int, m as int)
                    &&& forall|x: int|
                        0 <= x < j && splice_point(*self, k as int, path@, inject as int, #[trigger] candidates@[x] as int)
                            ==> self.monorepo_commits@[m as int].depth <= self.monorepo_commits@[candidates@[x] as int].depth
                },
            decreases candidates@.len() - j,
        {
            let m = candidates[j];
            let valid = match self.get_submodule_bump(m, path) {
                Some(ExpandedOrRemovedSubmodule::Expanded(e)) => match e.get_known_submod() {
                    Some(content) => if content.repo_name.same(&self.sub_repos[k].0) {
                        match g.find(*e.get_orig_commit_id()) {
                            Some(at) => {
                                proof {
                                    let c = choose|i: int| 0 <= i < g.commits@.len() && g.commits@[i].commit_id == crate::mono::orig_commit_of(*e);
                                    if c != at as int {
                                        assert(g.commits@[c].commit_id != g.commits@[at as int].commit_id);
                                    }
                                }
                                g.is_descendant_of(inject, at)
                            },
                            None => false,
                        }
                    } else {
                        false
                    },
                    None => false,
                },
                _ => false,
            };
            assert(valid == splice_point(*self, k as int, path@, inject as int, m as int));
            if valid {
                let better = match best {
                    None => true,
                    Some(b) => self.monorepo_commits[m].depth < self.monorepo_commits[b].depth,
                };
                if better {
                    best = Some(m);
                }
            }
            proof {
                if best is Some {
                    assert(candidates@[j as int] == m);
                }
            }
            j = j + 1;
        }
        best
    }
}

} // verus!
