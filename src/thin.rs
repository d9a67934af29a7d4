//! The per-repository commit graph: "thin" commits that record only what the
//! expansion needs (parents, depth and submodule bumps).
use vstd::prelude::*;
use crate::bytes::{lex_less, lex_lt};
use crate::ids::{BlobId, CommitId, TreeId};
use crate::path::{GitPath, SubRepoName};
use crate::pathset::{apply_ops, apply_path_op, last_op_for, lemma_apply_ops_member, path_set};

verus! {

/// A submodule at a path, as recorded by a gitlink.
#[derive(Debug)]
pub struct ThinSubmoduleContent {
    /// `None` if the submodule could not be resolved from `.gitmodules`.
    pub repo_name: Option<SubRepoName>,
    pub commit_id: CommitId,
}

/// A change of a gitlink compared to the first parent.
#[derive(Debug)]
pub enum ThinSubmodule {
    AddedOrModified(ThinSubmoduleContent),
    Removed,
}

/// A commit of one repository. Parents are positions in the owning
/// `ThinCommitGraph`, always smaller than the commit's own position.
#[derive(Debug)]
pub struct ThinCommit {
    pub commit_id: CommitId,
    pub tree_id: TreeId,
    /// The number of commits on the longest path to a root commit; strictly
    /// decreasing along parent edges.
    pub depth: usize,
    pub parents: Vec<usize>,
    pub dot_gitmodules: Option<BlobId>,
    /// Submodule updates compared to the first parent, added submodules
    /// included. A later entry for the same path overrides an earlier one.
    pub submodule_bumps: Vec<(GitPath, ThinSubmodule)>,
    /// Every submodule path live in this commit, not just the bumped ones.
    pub submodule_paths: Vec<GitPath>,
}

/// Why a commit could not be added to a graph.
#[derive(Debug, PartialEq, Eq, Structural, Clone, Copy)]
pub enum GraphError {
    /// A parent position does not name a commit of the graph.
    UnknownParent,
    /// A commit with this id is in the graph already.
    DuplicateCommit,
    /// The bumps are not in strictly increasing order of their paths.
    UnsortedBumps,
}

/// Whether the bump paths are strictly increasing, hence also unique.
pub open spec fn bumps_sorted(bumps: Seq<(GitPath, ThinSubmodule)>) -> bool {
    forall|k: int| 0 < k < bumps.len() ==> lex_lt(#[trigger] bumps[k - 1].0@, bumps[k].0@)
}

/// The commits of one repository, parents before children.
#[derive(Debug)]
pub struct ThinCommitGraph {
    pub commits: Vec<ThinCommit>,
}

/// The bumps of a commit as (path, added) pairs.
pub open spec fn thin_ops(bumps: Seq<(GitPath, ThinSubmodule)>) -> Seq<(Seq<u8>, bool)> {
    bumps.map_values(|b: (GitPath, ThinSubmodule)| (b.0@, b.1 is AddedOrModified))
}

/// The last bump of path `p` among `bumps`.
pub open spec fn last_bump_for(bumps: Seq<(GitPath, ThinSubmodule)>, p: Seq<u8>) -> Option<
    ThinSubmodule,
>
    decreases bumps.len(),
{
    if bumps.len() == 0 {
        None
    } else if bumps.last().0@ == p {
        Some(bumps.last().1)
    } else {
        last_bump_for(bumps.drop_last(), p)
    }
}

/// Whether commit `c` has `j` among its parents.
#[verifier::opaque]
pub open spec fn has_parent(g: Seq<ThinCommit>, c: int, j: int) -> bool {
    exists|k: int| 0 <= k < g[c].parents@.len() && g[c].parents@[k] == j
}

/// The submodule paths obtained by applying the bumps along the first-parent
/// chain of commit `i`, from its root commit onwards.
pub open spec fn chain_paths(g: Seq<ThinCommit>, i: int) -> Set<Seq<u8>>
    decreases i,
{
    if 0 <= i < g.len() {
        let base = if g[i].parents@.len() > 0 && g[i].parents@[0] < i {
            chain_paths(g, g[i].parents@[0] as int)
        } else {
            Set::empty()
        };
        apply_ops(base, thin_ops(g[i].submodule_bumps@))
    } else {
        Set::empty()
    }
}

/// The latest bump of path `p` found by walking the first-parent chain from `i`.
pub open spec fn chain_bump(g: Seq<ThinCommit>, i: int, p: Seq<u8>) -> Option<ThinSubmodule>
    decreases i,
{
    if 0 <= i < g.len() {
        match last_bump_for(g[i].submodule_bumps@, p) {
            Some(b) => Some(b),
            None => if g[i].parents@.len() > 0 && g[i].parents@[0] < i {
                chain_bump(g, g[i].parents@[0] as int, p)
            } else {
                None
            },
        }
    } else {
        None
    }
}

/// Whether commit `a` is commit `b` or one of its descendants.
pub open spec fn descends(g: Seq<ThinCommit>, a: int, b: int) -> bool
    decreases a - b,
{
    if b == a {
        true
    } else if 0 <= b < a {
        exists|c: int| b < c <= a && #[trigger] has_parent(g, c, b) && descends(g, a, c)
    } else {
        false
    }
}

/// The facts that hold of commit `i` of a well-formed graph.
pub open spec fn commit_wf(g: Seq<ThinCommit>, i: int) -> bool {
    let c = g[i];
    &&& forall|k: int| 0 <= k < c.parents@.len() ==> #[trigger] c.parents@[k] < i
    &&& c.depth <= i
    &&& c.parents@.len() == 0 ==> c.depth == 0
    &&& forall|k: int|
        0 <= k < c.parents@.len() ==> g[#[trigger] c.parents@[k] as int].depth + 1 <= c.depth
    &&& c.parents@.len() > 0 ==> exists|k: int|
        0 <= k < c.parents@.len() && g[#[trigger] c.parents@[k] as int].depth + 1 == c.depth
    &&& path_set(c.submodule_paths@) == chain_paths(g, i)
    &&& bumps_sorted(c.submodule_bumps@)
}

/// Appending a commit leaves the paths of the commits before it unchanged.
pub proof fn lemma_chain_paths_push(g: Seq<ThinCommit>, x: ThinCommit, i: int)
    requires
        0 <= i < g.len(),
    ensures
        chain_paths(g.push(x), i) == chain_paths(g, i),
    decreases i,
{
    assert(g.push(x)[i] == g[i]);
    if g[i].parents@.len() > 0 && g[i].parents@[0] < i {
        lemma_chain_paths_push(g, x, g[i].parents@[0] as int);
    }
}

/// The added/removed view of the last bump of a path.
pub proof fn lemma_last_op_for(bumps: Seq<(GitPath, ThinSubmodule)>, p: Seq<u8>)
    ensures
        last_op_for(thin_ops(bumps), p) == match last_bump_for(bumps, p) {
            Some(b) => Some(b is AddedOrModified),
            None => None::<bool>,
        },
    decreases bumps.len(),
{
    if bumps.len() > 0 {
        assert(thin_ops(bumps).drop_last() =~= thin_ops(bumps.drop_last()));
        lemma_last_op_for(bumps.drop_last(), p);
    }
}

/// The set of submodule paths at a commit is the fold of the bumps along its
/// first-parent chain: a path is live exactly when the latest bump of it on
/// that chain adds or modifies it, and no later bump removed it.
pub proof fn lemma_paths_are_fold_of_bumps(g: ThinCommitGraph, i: int, p: Seq<u8>)
    requires
        g.wf(),
        0 <= i < g.commits@.len(),
    ensures
        path_set(g.commits@[i].submodule_paths@) == chain_paths(g.commits@, i),
        chain_paths(g.commits@, i).contains(p) == (chain_bump(g.commits@, i, p) matches Some(
            ThinSubmodule::AddedOrModified(_),
        )),
    decreases i,
{
    assert(commit_wf(g.commits@, i));
    let c = g.commits@[i];
    lemma_last_op_for(c.submodule_bumps@, p);
    let base = if c.parents@.len() > 0 && c.parents@[0] < i {
        chain_paths(g.commits@, c.parents@[0] as int)
    } else {
        Set::empty()
    };
    lemma_apply_ops_member(base, thin_ops(c.submodule_bumps@), p);
    if c.parents@.len() > 0 && c.parents@[0] < i {
        lemma_paths_are_fold_of_bumps(g, c.parents@[0] as int, p);
    }
}

/// Whether `m` occurs among the first `k` entries of `s`.
#[verifier::opaque]
pub open spec fn in_prefix(s: Seq<usize>, k: int, m: int) -> bool {
    exists|kk: int| 0 <= kk < k && s[kk] == m
}

pub proof fn lemma_in_prefix_step(s: Seq<usize>, k: int, m: int)
    requires
        0 <= k < s.len(),
    ensures
        in_prefix(s, k + 1, m) == (in_prefix(s, k, m) || s[k] == m),
{
    reveal(in_prefix);
    if in_prefix(s, k + 1, m) {
        let kk = choose|kk: int| 0 <= kk < k + 1 && s[kk] == m;
        if kk < k {
            assert(in_prefix(s, k, m));
        }
    }
    if s[k] == m {
        assert(0 <= k < k + 1 && s[k] == m);
    }
    if in_prefix(s, k, m) {
        let kk = choose|kk: int| 0 <= kk < k && s[kk] == m;
        assert(0 <= kk < k + 1 && s[kk] == m);
    }
}

/// A parent of a commit that `a` descends from is also one that `a` descends
/// from.
pub proof fn lemma_descends_step(g: Seq<ThinCommit>, a: int, m: int, c: int)
    requires
        0 <= m < c <= a,
        has_parent(g, c, m),
        descends(g, a, c),
    ensures
        descends(g, a, m),
{
    assert(m < c <= a && has_parent(g, c, m) && descends(g, a, c));
}

/// The depth of a commit is 0 without parents, and otherwise one more than
/// the largest depth of its parents.
pub proof fn lemma_depth_is_one_more_than_deepest_parent(g: ThinCommitGraph, i: int)
    requires
        g.wf(),
        0 <= i < g.commits@.len(),
    ensures
        g.commits@[i].parents@.len() == 0 ==> g.commits@[i].depth == 0,
        forall|k: int|
            0 <= k < g.commits@[i].parents@.len() ==> g.commits@[g.commits@[i].parents@[k] as int].depth
                < g.commits@[i].depth,
        g.commits@[i].parents@.len() > 0 ==> exists|k: int|
            0 <= k < g.commits@[i].parents@.len() && g.commits@[g.commits@[i].parents@[k] as int].depth
                + 1 == g.commits@[i].depth,
{
    assert(commit_wf(g.commits@, i));
}

/// Every commit descends from itself, and two distinct commits never descend
/// from each other.
pub proof fn lemma_descends_reflexive_antisymmetric(g: ThinCommitGraph, a: int, b: int)
    requires
        g.wf(),
        0 <= a < g.commits@.len(),
        0 <= b < g.commits@.len(),
    ensures
        descends(g.commits@, a, a),
        descends(g.commits@, a, b) && a != b ==> !descends(g.commits@, b, a),
{
}

/// A submodule removed in one commit and added again at the same path in its
/// child leaves the path out of the first commit's paths and in the child's.
pub proof fn lemma_remove_then_readd(g: ThinCommitGraph, removed_at: int, readded_at: int, p: Seq<u8>)
    requires
        g.wf(),
        0 <= readded_at < g.commits@.len(),
        g.commits@[readded_at].parents@.len() > 0,
        g.commits@[readded_at].parents@[0] == removed_at,
        last_bump_for(g.commits@[removed_at].submodule_bumps@, p) == Some(ThinSubmodule::Removed),
        last_bump_for(g.commits@[readded_at].submodule_bumps@, p) matches Some(
            ThinSubmodule::AddedOrModified(_),
        ),
    ensures
        !path_set(g.commits@[removed_at].submodule_paths@).contains(p),
        path_set(g.commits@[readded_at].submodule_paths@).contains(p),
{
    assert(commit_wf(g.commits@, readded_at));
    lemma_paths_are_fold_of_bumps(g, removed_at, p);
    lemma_paths_are_fold_of_bumps(g, readded_at, p);
}

impl ThinCommitGraph {
    pub open spec fn wf(&self) -> bool {
        &&& forall|i: int| 0 <= i < self.commits@.len() ==> #[trigger] commit_wf(self.commits@, i)
        &&& forall|i: int, j: int|
            0 <= i < self.commits@.len() && 0 <= j < self.commits@.len() && i != j
                ==> #[trigger] self.commits@[i].commit_id != #[trigger] self.commits@[j].commit_id
    }

    pub fn new() -> (r: ThinCommitGraph)
        ensures
            r.wf(),
            r.commits@.len() == 0,
    {
        ThinCommitGraph { commits: Vec::new() }
    }

    pub fn len(&self) -> (r: usize)
        ensures
            r == self.commits@.len(),
    {
        self.commits.len()
    }

    /// The position of the commit with id `commit_id`, if it is in the graph.
    pub fn find(&self, commit_id: CommitId) -> (r: Option<usize>)
        ensures
            match r {
                Some(i) => i < self.commits@.len() && self.commits@[i as int].commit_id
                    == commit_id,
                None => forall|i: int|
                    0 <= i < self.commits@.len() ==> self.commits@[i].commit_id != commit_id,
            },
    {
        let mut i: usize = 0;
        while i < self.commits.len()
            invariant
                i <= self.commits@.len(),
                forall|k: int| 0 <= k < i ==> self.commits@[k].commit_id != commit_id,
            decreases self.commits@.len() - i,
        {
            if self.commits[i].commit_id == commit_id {
                return Some(i);
            }
            i = i + 1;
        }
        None
    }

    /// Adds a commit whose parents are already in the graph, computing its
    /// depth and its set of submodule paths. Returns its position.
    pub fn insert(
        &mut self,
        commit_id: CommitId,
        tree_id: TreeId,
        parents: Vec<usize>,
        dot_gitmodules: Option<BlobId>,
        submodule_bumps: Vec<(GitPath, ThinSubmodule)>,
    ) -> (r: Result<usize, GraphError>)
        requires
            old(self).wf(),
        ensures
            final(self).wf(),
            match r {
                Ok(n) => {
                    &&& n == old(self).commits@.len()
                    &&& final(self).commits@.len() == n + 1
                    &&& final(self).commits@.subrange(0, n as int) == old(self).commits@
                    &&& final(self).commits@[n as int].commit_id == commit_id
                    &&& final(self).commits@[n as int].tree_id == tree_id
                    &&& final(self).commits@[n as int].parents@ == parents@
                    &&& final(self).commits@[n as int].dot_gitmodules == dot_gitmodules
                    &&& final(self).commits@[n as int].submodule_bumps@ == submodule_bumps@
                },
                Err(e) => *final(self) == *old(self),
            },
            (r is Err && r->Err_0 == GraphError::UnknownParent) <==> exists|k: int|
                0 <= k < parents@.len() && parents@[k] >= old(self).commits@.len(),
            (r is Err && r->Err_0 == GraphError::DuplicateCommit) <==> (
            (forall|k: int| 0 <= k < parents@.len() ==> parents@[k] < old(self).commits@.len())
                && exists|i: int|
                0 <= i < old(self).commits@.len() && old(self).commits@[i].commit_id == commit_id),
            r is Ok <==> ((forall|k: int| 0 <= k < parents@.len() ==> parents@[k] < old(self).commits@.len())
                && (forall|i: int|
                0 <= i < old(self).commits@.len() ==> old(self).commits@[i].commit_id != commit_id)
                && bumps_sorted(submodule_bumps@)),
    {
        let n = self.commits.len();
        let mut k: usize = 0;
        while k < parents.len()
            invariant
                k <= parents@.len(),
                n == self.commits@.len(),
                self.wf(),
                *self == *old(self),
                forall|j: int| 0 <= j < k ==> parents@[j] < n,
            decreases parents@.len() - k,
        {
            if parents[k] >= n {
                return Err(GraphError::UnknownParent);
            }
            k = k + 1;
        }
        if let Some(_) = self.find(commit_id) {
            return Err(GraphError::DuplicateCommit);
        }
        let mut k: usize = 1;
        while k < submodule_bumps.len()
            invariant
                1 <= k,
                self.wf(),
                *self == *old(self),
                n == self.commits@.len(),
                forall|j: int| 0 <= j < parents@.len() ==> parents@[j] < n,
                forall|i: int| 0 <= i < self.commits@.len() ==> self.commits@[i].commit_id != commit_id,
                forall|j: int| 0 < j < k && j < submodule_bumps@.len() ==> lex_lt(#[trigger] submodule_bumps@[j - 1].0@, submodule_bumps@[j].0@),
            decreases submodule_bumps@.len() - k,
        {
            if !lex_less(submodule_bumps[k - 1].0.as_bytes(), submodule_bumps[k].0.as_bytes()) {
                return Err(GraphError::UnsortedBumps);
            }
            k = k + 1;
        }
        let ghost g = self.commits@;
        // Depth: one more than the deepest parent.
        let mut depth: usize = 0;
        let mut k: usize = 0;
        while k < parents.len()
            invariant
                self.wf(),
                g == self.commits@,
                n == g.len(),
                k <= parents@.len(),
                forall|j: int| 0 <= j < parents@.len() ==> parents@[j] < n,
                depth <= n,
                k == 0 ==> depth == 0,
                forall|j: int| 0 <= j < k ==> g[#[trigger] parents@[j] as int].depth + 1 <= depth,
                k > 0 ==> exists|j: int| 0 <= j < k && g[#[trigger] parents@[j] as int].depth + 1 == depth,
            decreases parents@.len() - k,
        {
            let p = parents[k];
            assert(commit_wf(g, p as int));
            let d = self.commits[p].depth + 1;
            if d > depth || k == 0 {
                depth = d;
            }
            k = k + 1;
        }
        // Submodule paths: those of the first parent, updated by the bumps.
        let mut paths: Vec<GitPath> = Vec::new();
        let ghost base: Set<Seq<u8>> = Set::empty();
        if parents.len() > 0 {
            let fp = parents[0];
            assert(commit_wf(g, fp as int));
            let src = &self.commits[fp].submodule_paths;
            let mut j: usize = 0;
            while j < src.len()
                invariant
                    j <= src@.len(),
                    paths@.len() == j,
                    forall|m: int| 0 <= m < j ==> (#[trigger] paths@[m])@ == src@[m]@,
                decreases src@.len() - j,
            {
                paths.push(src[j].copy());
                j = j + 1;
            }
            assert(path_set(paths@) =~= path_set(src@)) by {
                assert forall|x: Seq<u8>| path_set(src@).contains(x) implies path_set(paths@).contains(x) by {
                    let m = choose|m: int| 0 <= m < src@.len() && (#[trigger] src@[m])@ == x;
                    assert(paths@[m]@ == x);
                }
            }
            proof {
                base = chain_paths(g, fp as int);
            }
        }
        let ghost ops = thin_ops(submodule_bumps@);
        let mut j: usize = 0;
        while j < submodule_bumps.len()
            invariant
                j <= submodule_bumps@.len(),
                ops == thin_ops(submodule_bumps@),
                path_set(paths@) == apply_ops(base, ops.subrange(0, j as int)),
            decreases submodule_bumps@.len() - j,
        {
            let entry = &submodule_bumps[j];
            let add = match &entry.1 {
                ThinSubmodule::AddedOrModified(_) => true,
                ThinSubmodule::Removed => false,
            };
            apply_path_op(&mut paths, &entry.0, add);
            assert(ops.subrange(0, j + 1).drop_last() =~= ops.subrange(0, j as int));
            j = j + 1;
        }
        assert(ops.subrange(0, ops.len() as int) =~= ops);
        let commit = ThinCommit {
            commit_id,
            tree_id,
            depth,
            parents,
            dot_gitmodules,
            submodule_bumps,
            submodule_paths: paths,
        };
        self.commits.push(commit);
        proof {
            let g2 = self.commits@;
            assert(g2 == g.push(commit));
            assert forall|i: int| 0 <= i < g2.len() implies #[trigger] commit_wf(g2, i) by {
                if i < n {
                    assert(commit_wf(g, i));
                    lemma_chain_paths_push(g, commit, i);
                    assert(g2[i] == g[i]);
                    let c = g[i];
                    assert forall|k: int| 0 <= k < c.parents@.len() implies g2[#[trigger] c.parents@[k] as int] == g[c.parents@[k] as int] by {}
                } else {
                    assert(i == n);
                    assert forall|k: int| 0 <= k < commit.parents@.len() implies g2[#[trigger] commit.parents@[k] as int] == g[commit.parents@[k] as int] by {}
                    if commit.parents@.len() > 0 {
                        lemma_chain_paths_push(g, commit, commit.parents@[0] as int);
                    }
                }
            }
            assert(g2.subrange(0, n as int) =~= g);
        }
        Ok(n)
    }

    /// Whether commit `a` is commit `b` or one of its descendants. Only the
    /// commits between `b` and `a` in topological order are visited.
    pub fn is_descendant_of(&self, a: usize, b: usize) -> (r: bool)
        requires
            self.wf(),
            a < self.commits@.len(),
            b < self.commits@.len(),
        ensures
            r == descends(self.commits@, a as int, b as int),
    {
        if b > a {
            return false;
        }
        let ghost g = self.commits@;
        let n = self.commits.len();
        let mut marks: Vec<bool> = Vec::new();
        let mut j: usize = 0;
        while j <= a
            invariant
                j <= a + 1,
                a < n,
                marks@.len() == j,
                forall|m: int| 0 <= m < j ==> !marks@[m],
            decreases a + 1 - j,
        {
            marks.push(false);
            j = j + 1;
        }
        marks.set(a, true);
        let mut i: usize = a;
        while i > b
            invariant
                g == self.commits@,
                self.wf(),
                a < g.len(),
                b <= i <= a,
                marks@.len() == a + 1,
                forall|m: int| i <= m <= a ==> (marks@[m] <==> descends(g, a as int, m)),
                forall|m: int|
                    0 <= m < i ==> (marks@[m] <==> exists|c: int|
                        i < c <= a && descends(g, a as int, c) && #[trigger] has_parent(g, c, m)),
            decreases i,
        {
            let ghost before = marks@;
            proof {
                assert(commit_wf(g, i as int));
            }
            if marks[i] {
                let ps = &self.commits[i].parents;
                let mut k: usize = 0;
                assert forall|m: int| !in_prefix(ps@, 0, m) by {
                    reveal(in_prefix);
                }
                while k < ps.len()
                    invariant
                        g == self.commits@,
                        ps@ == g[i as int].parents@,
                        commit_wf(g, i as int),
                        i <= a,
                        a < g.len(),
                        before.len() == a + 1,
                        marks@.len() == a + 1,
                        k <= ps@.len(),
                        forall|m: int| i <= m <= a ==> marks@[m] == before[m],
                        forall|m: int| #![trigger marks@[m]]
                            0 <= m < i ==> (marks@[m] <==> (before[m] || in_prefix(ps@, k as int, m))),
                    decreases ps@.len() - k,
                {
                    let p = ps[k];
                    assert(ps@[k as int] < i);
                    let ghost prev = marks@;
                    marks.set(p, true);
                    assert forall|m: int| #![trigger marks@[m]]
                        0 <= m < i implies (marks@[m] <==> (before[m] || in_prefix(ps@, k + 1, m))) by {
                        lemma_in_prefix_step(ps@, k as int, m);
                        assert(prev[m] <==> (before[m] || in_prefix(ps@, k as int, m)));
                    }
                    k = k + 1;
                }
                assert forall|m: int| 0 <= m < i implies (marks@[m] <==> (before[m] || has_parent(g, i as int, m))) by {
                    reveal(in_prefix);
                    reveal(has_parent);
                    assert(in_prefix(ps@, ps@.len() as int, m) == has_parent(g, i as int, m));
                }
            }
            assert(forall|m: int| i <= m <= a ==> marks@[m] == before[m]);
            assert(forall|m: int| 0 <= m < i ==> (marks@[m] <==> (before[m] || (before[i as int] && has_parent(g, i as int, m)))));
            proof {
                let ni = i - 1;
                assert(before[i as int] == descends(g, a as int, i as int));
                assert forall|m: int| 0 <= m < i implies (marks@[m] <==> exists|c: int|
                    ni < c <= a && descends(g, a as int, c) && #[trigger] has_parent(g, c, m)) by {
                    if marks@[m] {
                        if before[m] {
                            let c = choose|c: int|
                                i < c <= a && descends(g, a as int, c) && #[trigger] has_parent(g, c, m);
                        } else {
                            assert(descends(g, a as int, i as int));
                            assert(has_parent(g, i as int, m));
                        }
                    }
                    if exists|c: int| ni < c <= a && descends(g, a as int, c) && #[trigger] has_parent(g, c, m) {
                        let c = choose|c: int|
                            ni < c <= a && descends(g, a as int, c) && #[trigger] has_parent(g, c, m);
                        if c == i {
                            assert(marks@[m]);
                        } else {
                            assert(before[m]);
                        }
                    }
                }
                let m = ni;
                assert(marks@[m] <==> descends(g, a as int, m)) by {
                    if marks@[m] {
                        let c = choose|c: int| ni < c <= a && descends(g, a as int, c) && #[trigger] has_parent(g, c, m);
                        assert(m < a);
                        lemma_descends_step(g, a as int, m, c);
                    }
                    if descends(g, a as int, m) {
                        let c = choose|c: int| m < c <= a && has_parent(g, c, m) && #[trigger] descends(g, a as int, c);
                        assert(ni < c <= a && descends(g, a as int, c) && has_parent(g, c, m));
                    }
                }
            }
            i = i - 1;
        }
        marks[b]
    }

    /// The latest bump of submodule `path`, found by walking the first-parent
    /// chain from commit `i`.
    pub fn get_submodule(&self, i: usize, path: &GitPath) -> (r: Option<&ThinSubmodule>)
        requires
            self.wf(),
            i < self.commits@.len(),
        ensures
            match r {
                Some(b) => chain_bump(self.commits@, i as int, path@) == Some(*b),
                None => chain_bump(self.commits@, i as int, path@) is None,
            },
    {
        let mut node: usize = i;
        loop
            invariant
                self.wf(),
                node < self.commits@.len(),
                chain_bump(self.commits@, i as int, path@) == chain_bump(self.commits@, node as int, path@),
            decreases node,
        {
            let c = &self.commits[node];
            proof {
                assert(commit_wf(self.commits@, node as int));
            }
            let mut k: usize = c.submodule_bumps.len();
            assert(c.submodule_bumps@.subrange(0, k as int) =~= c.submodule_bumps@);
            while k > 0
                invariant
                    self.wf(),
                    node < self.commits@.len(),
                    *c == self.commits@[node as int],
                    chain_bump(self.commits@, i as int, path@) == chain_bump(self.commits@, node as int, path@),
                    k <= c.submodule_bumps@.len(),
                    last_bump_for(c.submodule_bumps@, path@) == last_bump_for(
                        c.submodule_bumps@.subrange(0, k as int),
                        path@,
                    ),
                decreases k,
            {
                let ghost sub = c.submodule_bumps@.subrange(0, k as int);
                assert(sub.drop_last() =~= c.submodule_bumps@.subrange(0, k - 1));
                if c.submodule_bumps[k - 1].0.same(path) {
                    assert(sub.last() == c.submodule_bumps@[k - 1]);
                    assert(last_bump_for(c.submodule_bumps@, path@) == Some(c.submodule_bumps@[k - 1].1));
                    assert(c == self.commits@[node as int]);
                    assert(chain_bump(self.commits@, node as int, path@) == Some(c.submodule_bumps@[k - 1].1));
                    return Some(&c.submodule_bumps[k - 1].1);
                }
                k = k - 1;
            }
            if c.parents.len() == 0 {
                return None;
            }
            node = c.parents[0];
        }
    }
}

} // verus!
