//! Splitting one monorepo commit: its file changes are grouped by the
//! repository that owns them, and each group becomes one commit of that
//! repository with the parents its monorepo parents carry.
use vstd::prelude::*;
use crate::bytes::{bytes_eq, copy_bytes, lemma_lex_lt_irreflexive, lemma_lex_lt_transitive, lex_less, lex_lt};
use crate::ids::{BlobId, CommitId, MonoRepoCommitId, TopRepoCommitId};
use crate::message::{kept_text, last_topic, lines_from, rewrite_push_message};
use crate::mono::{
    parent_before, CacheError, ExpandedOrRemovedSubmodule, ExpandedSubmodule, MonoRepoParent, SubmoduleContent,
    TopRepoCache,
};
use crate::path::{GitPath, RepoName};
use crate::mono::chain_top_bump;
use crate::push::{dedup_first, opt_bytes, parent_candidates, parent_commit_for, split_parent_ids};

verus! {

/// A change of one file, as git fast-import writes it.
#[derive(Clone, Copy, Debug, PartialEq, Eq, Structural)]
pub enum FileChange {
    /// `M <mode> <blob> <path>`.
    Modified { mode: u32, blob_id: BlobId },
    /// `D <path>`.
    Deleted,
}

/// A changed file, its path relative to the repository that owns it.
#[derive(Debug)]
pub struct ChangedFile {
    pub path: GitPath,
    pub change: FileChange,
}

/// A file change of a monorepo commit, resolved to the repository that owns
/// it: where that repository is mounted, its name, its push URL and the file's
/// path inside it.
#[derive(Debug)]
pub struct ResolvedChange {
    pub abs_sub_path: GitPath,
    pub repo_name: RepoName,
    pub push_url: Vec<u8>,
    pub file: ChangedFile,
}

/// The file changes that go to one repository.
#[derive(Debug)]
pub struct ChangeGroup {
    pub abs_sub_path: GitPath,
    pub repo_name: RepoName,
    pub push_url: Vec<u8>,
    pub files: Vec<ChangedFile>,
}

pub type GroupKey = (Seq<u8>, Option<Seq<u8>>, Seq<u8>);

pub open spec fn change_key(c: ResolvedChange) -> GroupKey {
    (c.abs_sub_path@, c.repo_name@, c.push_url@)
}

pub open spec fn group_key(g: ChangeGroup) -> GroupKey {
    (g.abs_sub_path@, g.repo_name@, g.push_url@)
}

pub open spec fn file_view(f: ChangedFile) -> (Seq<u8>, FileChange) {
    (f.path@, f.change)
}

/// The keys of `cs` in order of first appearance.
pub open spec fn distinct_keys(cs: Seq<ResolvedChange>) -> Seq<GroupKey>
    decreases cs.len(),
{
    if cs.len() == 0 {
        Seq::empty()
    } else {
        let d = distinct_keys(cs.drop_last());
        if d.contains(change_key(cs.last())) {
            d
        } else {
            d.push(change_key(cs.last()))
        }
    }
}

/// The files of the changes in `cs` whose key is `k`, in order.
pub open spec fn files_with_key(cs: Seq<ResolvedChange>, k: GroupKey) -> Seq<(Seq<u8>, FileChange)>
    decreases cs.len(),
{
    if cs.len() == 0 {
        Seq::empty()
    } else {
        let rest = files_with_key(cs.drop_last(), k);
        if change_key(cs.last()) == k {
            rest.push(file_view(cs.last().file))
        } else {
            rest
        }
    }
}

fn same_key(a: &ResolvedChange, b: &ResolvedChange) -> (r: bool)
    ensures
        r == (change_key(*a) == change_key(*b)),
{
    a.abs_sub_path.same(&b.abs_sub_path) && a.repo_name.same(&b.repo_name) && bytes_eq(
        a.push_url.as_slice(),
        b.push_url.as_slice(),
    )
}

/// Groups file changes by owning repository, groups in order of first
/// appearance and files in their original order.
fn group_in_order(changes: &Vec<ResolvedChange>) -> (r: Vec<ChangeGroup>)
    ensures
        r@.len() == distinct_keys(changes@).len(),
        forall|j: int| 0 <= j < r@.len() ==> group_key(#[trigger] r@[j]) == distinct_keys(changes@)[j]
            && r@[j].files@.map_values(|f: ChangedFile| file_view(f)) == files_with_key(
            changes@,
            distinct_keys(changes@)[j],
        ),
{
    // The first change of each group.
    let mut firsts: Vec<usize> = Vec::new();
    let mut i: usize = 0;
    while i < changes.len()
        invariant
            i <= changes@.len(),
            firsts@.len() == distinct_keys(changes@.subrange(0, i as int)).len(),
            forall|j: int| 0 <= j < firsts@.len() ==> #[trigger] firsts@[j] < i
                && change_key(changes@[firsts@[j] as int]) == distinct_keys(changes@.subrange(0, i as int))[j],
        decreases changes@.len() - i,
    {
        let ghost d = distinct_keys(changes@.subrange(0, i as int));
        let ghost sub = changes@.subrange(0, i + 1);
        assert(sub.drop_last() =~= changes@.subrange(0, i as int));
        assert(sub.last() == changes@[i as int]);
        let mut j: usize = 0;
        let mut seen = false;
        while j < firsts.len()
            invariant
                i < changes@.len(),
                j <= firsts@.len(),
                firsts@.len() == d.len(),
                forall|jj: int| 0 <= jj < firsts@.len() ==> #[trigger] firsts@[jj] < i
                    && change_key(changes@[firsts@[jj] as int]) == d[jj],
                seen == exists|jj: int| 0 <= jj < j && d[jj] == change_key(changes@[i as int]),
            decreases firsts@.len() - j,
        {
            let same = same_key(&changes[firsts[j]], &changes[i]);
            proof {
                if same {
                    assert(d[j as int] == change_key(changes@[i as int]));
                }
                if exists|jj: int| 0 <= jj < j + 1 && d[jj] == change_key(changes@[i as int]) {
                    let jj = choose|jj: int| 0 <= jj < j + 1 && d[jj] == change_key(changes@[i as int]);
                    if jj < j {
                        assert(exists|x: int| 0 <= x < j && d[x] == change_key(changes@[i as int]));
                    }
                }
            }
            seen = seen || same;
            j = j + 1;
        }
        assert(seen == d.contains(change_key(changes@[i as int])));
        if !seen {
            firsts.push(i);
        }
        i = i + 1;
    }
    assert(changes@.subrange(0, changes@.len() as int) =~= changes@);
    let ghost keys = distinct_keys(changes@);
    let mut groups: Vec<ChangeGroup> = Vec::new();
    let mut j: usize = 0;
    while j < firsts.len()
        invariant
            j <= firsts@.len(),
            keys == distinct_keys(changes@),
            firsts@.len() == keys.len(),
            forall|jj: int| 0 <= jj < firsts@.len() ==> #[trigger] firsts@[jj] < changes@.len()
                && change_key(changes@[firsts@[jj] as int]) == keys[jj],
            groups@.len() == j,
            forall|jj: int| 0 <= jj < j ==> group_key(#[trigger] groups@[jj]) == keys[jj]
                && groups@[jj].files@.map_values(|f: ChangedFile| file_view(f)) == files_with_key(
                changes@,
                keys[jj],
            ),
        decreases firsts@.len() - j,
    {
        let head = &changes[firsts[j]];
        let mut files: Vec<ChangedFile> = Vec::new();
        let mut k: usize = 0;
        while k < changes.len()
            invariant
                k <= changes@.len(),
                j < firsts@.len(),
                firsts@[j as int] < changes@.len(),
                *head == changes@[firsts@[j as int] as int],
                files@.map_values(|f: ChangedFile| file_view(f)) == files_with_key(
                    changes@.subrange(0, k as int),
                    change_key(*head),
                ),
            decreases changes@.len() - k,
        {
            let ghost sub = changes@.subrange(0, k + 1);
            assert(sub.drop_last() =~= changes@.subrange(0, k as int));
            assert(sub.last() == changes@[k as int]);
            let ghost before = files@;
            if same_key(&changes[k], head) {
                let f = ChangedFile { path: changes[k].file.path.copy(), change: changes[k].file.change };
                files.push(f);
                assert(files@.map_values(|f: ChangedFile| file_view(f)) =~= before.map_values(
                    |f: ChangedFile| file_view(f),
                ).push(file_view(changes@[k as int].file)));
            }
            k = k + 1;
        }
        assert(changes@.subrange(0, changes@.len() as int) =~= changes@);
        groups.push(
            ChangeGroup {
                abs_sub_path: head.abs_sub_path.copy(),
                repo_name: head.repo_name.copy(),
                push_url: copy_bytes(head.push_url.as_slice()),
                files,
            },
        );
        j = j + 1;
    }
    groups
}



/// The order of repositories: the top repository first, then sub
/// repositories by name.
pub open spec fn repo_lt(a: Option<Seq<u8>>, b: Option<Seq<u8>>) -> bool {
    match (a, b) {
        (None, Some(_)) => true,
        (Some(x), Some(y)) => lex_lt(x, y),
        _ => false,
    }
}

/// The order of group keys: by mount path, then repository, then push URL.
pub open spec fn key_lt(a: GroupKey, b: GroupKey) -> bool {
    lex_lt(a.0, b.0) || (a.0 == b.0 && (repo_lt(a.1, b.1) || (a.1 == b.1 && lex_lt(a.2, b.2))))
}

pub proof fn lemma_key_lt_transitive(a: GroupKey, b: GroupKey, c: GroupKey)
    requires
        key_lt(a, b),
        key_lt(b, c),
    ensures
        key_lt(a, c),
{
    if lex_lt(a.0, b.0) && lex_lt(b.0, c.0) {
        lemma_lex_lt_transitive(a.0, b.0, c.0);
    }
    if a.1 is Some && b.1 is Some && c.1 is Some && lex_lt(a.1->Some_0, b.1->Some_0) && lex_lt(b.1->Some_0, c.1->Some_0) {
        lemma_lex_lt_transitive(a.1->Some_0, b.1->Some_0, c.1->Some_0);
    }
    if lex_lt(a.2, b.2) && lex_lt(b.2, c.2) {
        lemma_lex_lt_transitive(a.2, b.2, c.2);
    }
}

pub proof fn lemma_key_lt_irreflexive(k: GroupKey)
    ensures
        !key_lt(k, k),
{
    lemma_lex_lt_irreflexive(k.0);
    lemma_lex_lt_irreflexive(k.2);
    if k.1 is Some {
        lemma_lex_lt_irreflexive(k.1->Some_0);
    }
}

fn repo_less(a: &RepoName, b: &RepoName) -> (r: bool)
    ensures
        r == repo_lt(a@, b@),
{
    match (a, b) {
        (RepoName::Top, RepoName::SubRepo(_)) => true,
        (RepoName::SubRepo(x), RepoName::SubRepo(y)) => lex_less(x.name.as_slice(), y.name.as_slice()),
        _ => false,
    }
}

fn group_less(a: &ChangeGroup, b: &ChangeGroup) -> (r: bool)
    ensures
        r == key_lt(group_key(*a), group_key(*b)),
{
    if lex_less(a.abs_sub_path.as_bytes(), b.abs_sub_path.as_bytes()) {
        return true;
    }
    if !a.abs_sub_path.same(&b.abs_sub_path) {
        return false;
    }
    if repo_less(&a.repo_name, &b.repo_name) {
        return true;
    }
    a.repo_name.same(&b.repo_name) && lex_less(a.push_url.as_slice(), b.push_url.as_slice())
}

/// Whether some group of `gs` has key `k`.
pub open spec fn has_group(gs: Seq<ChangeGroup>, k: GroupKey) -> bool {
    exists|j: int| 0 <= j < gs.len() && group_key(gs[j]) == k
}

/// Whether some commit of `cs` is for key `k`.
pub open spec fn has_commit_for(cs: Seq<SplitCommit>, k: GroupKey) -> bool {
    exists|j: int| 0 <= j < cs.len() && group_key(cs[j].group) == k
}

/// Whether group `g` is the group of its key among `changes`.
pub open spec fn group_of_changes(changes: Seq<ResolvedChange>, g: ChangeGroup) -> bool {
    distinct_keys(changes).contains(group_key(g)) && g.files@.map_values(|f: ChangedFile| file_view(f))
        == files_with_key(changes, group_key(g))
}

/// Groups file changes by owning repository: one group for each key, in the
/// order of the keys, files in their original order.
pub fn group_file_changes(changes: &Vec<ResolvedChange>) -> (r: Vec<ChangeGroup>)
    ensures
        r@.len() == distinct_keys(changes@).len(),
        forall|j: int| 0 <= j < r@.len() ==> group_of_changes(changes@, #[trigger] r@[j]),
        forall|i: int| 0 <= i < distinct_keys(changes@).len() ==> has_group(r@, #[trigger] distinct_keys(changes@)[i]),
        forall|a: int, b: int| 0 <= a < b < r@.len() ==> !key_lt(group_key(r@[b]), group_key(r@[a])),
{
    let mut rest = group_in_order(changes);
    let ghost keys = distinct_keys(changes@);
    assert forall|j: int| 0 <= j < rest@.len() implies group_of_changes(changes@, #[trigger] rest@[j]) by {
        assert(keys[j] == group_key(rest@[j]));
    }
    assert forall|i: int| 0 <= i < keys.len() implies has_group(rest@, #[trigger] keys[i]) by {
        assert(group_key(rest@[i]) == keys[i]);
    }
    let mut out: Vec<ChangeGroup> = Vec::new();
    let total = rest.len();
    while rest.len() > 0
        invariant
            keys == distinct_keys(changes@),
            total == keys.len(),
            out@.len() + rest@.len() == total,
            forall|j: int| 0 <= j < rest@.len() ==> group_of_changes(changes@, #[trigger] rest@[j]),
            forall|j: int| 0 <= j < out@.len() ==> group_of_changes(changes@, #[trigger] out@[j]),
            forall|i: int| 0 <= i < keys.len() ==> has_group(out@, #[trigger] keys[i]) || has_group(rest@, keys[i]),
            forall|a: int, b: int| 0 <= a < b < out@.len() ==> !key_lt(group_key(out@[b]), group_key(out@[a])),
            forall|a: int, b: int|
                0 <= a < out@.len() && 0 <= b < rest@.len() ==> !key_lt(group_key(rest@[b]), group_key(out@[a])),
        decreases rest@.len(),
    {
        let mut best: usize = 0;
        let mut j: usize = 1;
        proof {
            lemma_key_lt_irreflexive(group_key(rest@[0]));
        }
        while j < rest.len()
            invariant
                1 <= j <= rest@.len(),
                best < rest@.len(),
                forall|x: int| 0 <= x < j ==> !key_lt(group_key(#[trigger] rest@[x]), group_key(rest@[best as int])),
            decreases rest@.len() - j,
        {
            if group_less(&rest[j], &rest[best]) {
                proof {
                    assert forall|x: int| 0 <= x < j + 1 implies !key_lt(group_key(#[trigger] rest@[x]), group_key(rest@[j as int])) by {
                        if x < j && key_lt(group_key(rest@[x]), group_key(rest@[j as int])) {
                            lemma_key_lt_transitive(group_key(rest@[x]), group_key(rest@[j as int]), group_key(rest@[best as int]));
                        }
                        if x == j {
                            lemma_key_lt_irreflexive(group_key(rest@[x]));
                        }
                    }
                }
                best = j;
            }
            j = j + 1;
        }
        let ghost before_rest = rest@;
        let ghost before_out = out@;
        let g = rest.remove(best);
        out.push(g);
        proof {
            assert(rest@ == before_rest.remove(best as int));
            assert forall|x: int| 0 <= x < rest@.len() implies #[trigger] rest@[x] == before_rest[if x < best { x } else { x + 1 }] by {}
            assert forall|j2: int| 0 <= j2 < out@.len() implies group_of_changes(changes@, #[trigger] out@[j2]) by {
                if j2 < before_out.len() {
                    assert(out@[j2] == before_out[j2]);
                }
            }
            assert forall|j2: int| 0 <= j2 < rest@.len() implies group_of_changes(changes@, #[trigger] rest@[j2]) by {
                assert(rest@[j2] == before_rest[if j2 < best { j2 } else { j2 + 1 }]);
            }
            assert forall|i: int| 0 <= i < keys.len() implies has_group(out@, #[trigger] keys[i]) || has_group(rest@, keys[i]) by {
                if has_group(before_out, keys[i]) {
                    let j2 = choose|j2: int| 0 <= j2 < before_out.len() && group_key(before_out[j2]) == keys[i];
                    assert(out@[j2] == before_out[j2]);
                } else {
                    assert(has_group(before_rest, keys[i]));
                    let j2 = choose|j2: int| 0 <= j2 < before_rest.len() && group_key(before_rest[j2]) == keys[i];
                    if j2 == best as int {
                        assert(out@[before_out.len() as int] == before_rest[j2]);
                    } else if j2 < best {
                        assert(rest@[j2] == before_rest[j2]);
                    } else {
                        assert(rest@[j2 - 1] == before_rest[j2]);
                    }
                }
            }
            assert forall|a: int, b: int| 0 <= a < b < out@.len() implies !key_lt(group_key(out@[b]), group_key(out@[a])) by {
                if b < before_out.len() {
                    assert(out@[a] == before_out[a] && out@[b] == before_out[b]);
                } else {
                    assert(out@[b] == before_rest[best as int]);
                    assert(out@[a] == before_out[a]);
                }
            }
            assert forall|a: int, b: int|
                0 <= a < out@.len() && 0 <= b < rest@.len() implies !key_lt(group_key(rest@[b]), group_key(out@[a])) by {
                let ob = if b < best { b } else { b + 1 };
                assert(rest@[b] == before_rest[ob]);
                if a < before_out.len() {
                    assert(out@[a] == before_out[a]);
                } else {
                    assert(out@[a] == before_rest[best as int]);
                }
            }
        }
    }
    assert forall|i: int| 0 <= i < keys.len() implies has_group(out@, #[trigger] keys[i]) by {
        if has_group(rest@, keys[i]) {
            let j = choose|j: int| 0 <= j < rest@.len() && group_key(rest@[j]) == keys[i];
        }
    }
    out
}

/// Why a monorepo commit could not be split.
#[derive(Debug, PartialEq, Eq, Structural, Clone, Copy)]
pub enum SplitError {
    /// The commit changes more than one repository and its message names
    /// no topic.
    MultipleReposWithoutTopic,
    /// No monorepo parent carries top repository content.
    NoTopParent,
    /// The submodule is not a gitlink in any monorepo parent.
    SubmoduleNotInParents,
}

/// One commit to write into one repository.
#[derive(Debug)]
pub struct SplitCommit {
    pub group: ChangeGroup,
    pub parents: Vec<CommitId>,
}

/// What a monorepo commit is split into.
#[derive(Debug)]
pub struct SplitPlan {
    pub message: Vec<u8>,
    pub topic: Option<Vec<u8>>,
    pub commits: Vec<SplitCommit>,
}

/// The parents that the commit for group key `k` gets.
pub open spec fn group_parents(cache: TopRepoCache, mono_parents: Seq<usize>, k: GroupKey) -> Seq<CommitId> {
    dedup_first(parent_candidates(cache.monorepo_commits@, mono_parents, k.1, k.0))
}

/// The error for a group whose parents are empty.
pub open spec fn no_parent_error(k: GroupKey) -> SplitError {
    if k.1 is None {
        SplitError::NoTopParent
    } else {
        SplitError::SubmoduleNotInParents
    }
}

/// Splits a monorepo commit with monorepo parents `mono_parents`, message
/// `message` and the resolved file changes `changes` into one commit per
/// repository that it touches.
pub fn split_mono_commit(
    cache: &TopRepoCache,
    mono_parents: &Vec<usize>,
    changes: &Vec<ResolvedChange>,
    message: &[u8],
) -> (r: Result<SplitPlan, SplitError>)
    requires
        cache.wf(),
        forall|k: int| 0 <= k < mono_parents@.len() ==> mono_parents@[k] < cache.monorepo_commits@.len(),
    ensures
        ({
            let keys = distinct_keys(changes@);
            let topic = last_topic(lines_from(message@, 0));
            let no_topic = keys.len() > 1 && topic is None;
            &&& (r matches Err(SplitError::MultipleReposWithoutTopic)) <==> no_topic
            &&& !no_topic ==> (r is Err <==> exists|j: int|
                0 <= j < keys.len() && group_parents(*cache, mono_parents@, #[trigger] keys[j]).len() == 0)
            &&& !no_topic && r is Err ==> exists|j: int|
                0 <= j < keys.len() && group_parents(*cache, mono_parents@, #[trigger] keys[j]).len() == 0
                    && r->Err_0 == no_parent_error(keys[j])
            &&& r is Ok ==> {
                let plan = r->Ok_0;
                &&& plan.message@ == kept_text(lines_from(message@, 0))
                &&& opt_bytes(plan.topic) == topic
                &&& plan.commits@.len() == keys.len()
                &&& forall|j: int| 0 <= j < keys.len() ==> {
                    let c = #[trigger] plan.commits@[j];
                    &&& group_of_changes(changes@, c.group)
                    &&& c.parents@ == group_parents(*cache, mono_parents@, group_key(c.group))
                }
                &&& forall|i: int| 0 <= i < keys.len() ==> has_commit_for(plan.commits@, #[trigger] keys[i])
                &&& forall|a: int, b: int|
                    0 <= a < b < plan.commits@.len() ==> !key_lt(
                        group_key(plan.commits@[b].group),
                        group_key(plan.commits@[a].group),
                    )
            }
        }),
{
    let (new_message, topic) = rewrite_push_message(message);
    let mut groups = group_file_changes(changes);
    let ghost keys = distinct_keys(changes@);
    proof {
        assert(opt_bytes(topic) == last_topic(lines_from(message@, 0)));
    }
    if groups.len() > 1 && topic.is_none() {
        return Err(SplitError::MultipleReposWithoutTopic);
    }
    let mut all_parents: Vec<Vec<CommitId>> = Vec::new();
    let mut j: usize = 0;
    while j < groups.len()
        invariant
            cache.wf(),
            forall|k: int| 0 <= k < mono_parents@.len() ==> mono_parents@[k] < cache.monorepo_commits@.len(),
            keys == distinct_keys(changes@),
            groups@.len() == keys.len(),
            forall|jj: int| 0 <= jj < groups@.len() ==> group_of_changes(changes@, #[trigger] groups@[jj]),
            forall|i: int| 0 <= i < keys.len() ==> has_group(groups@, #[trigger] keys[i]),
            forall|a: int, b: int| 0 <= a < b < groups@.len() ==> !key_lt(group_key(groups@[b]), group_key(groups@[a])),
            !(keys.len() > 1 && last_topic(lines_from(message@, 0)) is None),
            opt_bytes(topic) == last_topic(lines_from(message@, 0)),
            new_message@ == kept_text(lines_from(message@, 0)),
            j <= groups@.len(),
            all_parents@.len() == j,
            forall|jj: int| 0 <= jj < j ==> (#[trigger] all_parents@[jj])@ == group_parents(*cache, mono_parents@, group_key(groups@[jj]))
                && all_parents@[jj]@.len() > 0,
        decreases groups@.len() - j,
    {
        let ps = split_parent_ids(cache, mono_parents, &groups[j].repo_name, &groups[j].abs_sub_path);
        if ps.len() == 0 {
            proof {
                let k = group_key(groups@[j as int]);
                assert(group_of_changes(changes@, groups@[j as int]));
                let i = choose|i: int| 0 <= i < keys.len() && keys[i] == k;
                assert(group_parents(*cache, mono_parents@, keys[i]).len() == 0);
            }
            return match &groups[j].repo_name {
                RepoName::Top => Err(SplitError::NoTopParent),
                RepoName::SubRepo(_) => Err(SplitError::SubmoduleNotInParents),
            };
        }
        all_parents.push(ps);
        j = j + 1;
    }
    let ghost groups0 = groups@;
    let mut commits: Vec<SplitCommit> = Vec::new();
    let n = groups.len();
    while groups.len() > 0
        invariant
            n == groups0.len(),
            commits@.len() + groups@.len() == n,
            groups@ == groups0.subrange(commits@.len() as int, n as int),
            all_parents@.len() == n,
            forall|jj: int| 0 <= jj < commits@.len() ==> (#[trigger] commits@[jj]).group == groups0[jj]
                && commits@[jj].parents@ == all_parents@[jj]@,
        decreases groups@.len(),
    {
        let i = commits.len();
        let group = groups.remove(0);
        assert(group == groups0[i as int]);
        assert(groups@ =~= groups0.subrange(i + 1, n as int));
        let mut parents: Vec<CommitId> = Vec::new();
        let src = &all_parents[i];
        let mut k: usize = 0;
        while k < src.len()
            invariant
                k <= src@.len(),
                parents@ == src@.subrange(0, k as int),
            decreases src@.len() - k,
        {
            parents.push(src[k]);
            k = k + 1;
            assert(parents@ =~= src@.subrange(0, k as int));
        }
        assert(src@.subrange(0, src@.len() as int) =~= src@);
        commits.push(SplitCommit { group, parents });
    }
    proof {
        assert forall|jj: int| 0 <= jj < keys.len() implies group_parents(*cache, mono_parents@, #[trigger] keys[jj]).len() != 0 by {
            assert(has_group(groups0, keys[jj]));
            let g = choose|g: int| 0 <= g < groups0.len() && group_key(groups0[g]) == keys[jj];
            assert(all_parents@[g]@.len() > 0);
        }
        assert forall|i: int| 0 <= i < keys.len() implies has_commit_for(commits@, #[trigger] keys[i]) by {
            assert(has_group(groups0, keys[i]));
            let g = choose|g: int| 0 <= g < groups0.len() && group_key(groups0[g]) == keys[i];
            assert(commits@[g].group == groups0[g]);
        }
        assert forall|a: int, b: int|
            0 <= a < b < commits@.len() implies !key_lt(group_key(commits@[b].group), group_key(commits@[a].group)) by {
            assert(commits@[a].group == groups0[a] && commits@[b].group == groups0[b]);
        }
        assert forall|jj: int| 0 <= jj < keys.len() implies {
            let c = #[trigger] commits@[jj];
            &&& group_of_changes(changes@, c.group)
            &&& c.parents@ == group_parents(*cache, mono_parents@, group_key(c.group))
        } by {
            assert(commits@[jj].group == groups0[jj]);
        }
    }
    Ok(SplitPlan { message: new_message, topic, commits })
}


/// Records the commit `imported` written into repository `repo_name` for a
/// split monorepo commit `mono_id`, so that the monorepo commits exported
/// after it find their parents: a monorepo commit on the same monorepo
/// parents that carries `imported` as top content or as the submodule at
/// `abs_sub_path`. A submodule commit injected onto a monorepo commit is
/// recorded the same way.
pub fn record_split_commit(
    cache: &mut TopRepoCache,
    mono_id: MonoRepoCommitId,
    mono_parents: &Vec<usize>,
    repo_name: &RepoName,
    abs_sub_path: &GitPath,
    imported: CommitId,
) -> (r: Result<usize, CacheError>)
    requires
        old(cache).wf(),
    ensures
        final(cache).wf(),
        r is Err ==> *final(cache) == *old(cache),
        (r is Err && r->Err_0 == CacheError::UnknownParent) <==> exists|k: int|
            0 <= k < mono_parents@.len() && mono_parents@[k] >= old(cache).monorepo_commits@.len(),
        (r is Err && r->Err_0 == CacheError::DuplicateMonoCommit) <==> ((forall|k: int|
            0 <= k < mono_parents@.len() ==> mono_parents@[k] < old(cache).monorepo_commits@.len())
            && old(cache).monorepo_commit_ids@.contains(mono_id)),
        r is Ok <==> ((forall|k: int|
            0 <= k < mono_parents@.len() ==> mono_parents@[k] < old(cache).monorepo_commits@.len())
            && !old(cache).monorepo_commit_ids@.contains(mono_id)),
        final(cache).top_commits == old(cache).top_commits,
        final(cache).sub_repos@ == old(cache).sub_repos@,
        final(cache).dedup == old(cache).dedup,
        final(cache).top_to_mono_map@ == old(cache).top_to_mono_map@,
        r is Ok ==> {
            let n = r->Ok_0;
            let c = final(cache).monorepo_commits@[n as int];
            &&& n == old(cache).monorepo_commits@.len()
            &&& final(cache).top_to_mono_map@ == old(cache).top_to_mono_map@
            &&& c.parents@.len() == mono_parents@.len()
            &&& forall|k: int| 0 <= k < mono_parents@.len() ==> (#[trigger] c.parents@[k]) == MonoRepoParent::Mono(mono_parents@[k])
            &&& match repo_name {
                RepoName::Top => c.top_bump == Some(TopRepoCommitId(imported)) && c.submodule_bumps@.len() == 0,
                RepoName::SubRepo(s) => c.top_bump is None && c.submodule_bumps@.len() == 1
                    && c.submodule_bumps@[0].0@ == abs_sub_path@ && match c.submodule_bumps@[0].1 {
                    ExpandedOrRemovedSubmodule::Expanded(ExpandedSubmodule::Expanded(content)) => content.repo_name@
                        == s@ && content.orig_commit_id == imported,
                    _ => false,
                },
            }
        },
{
    let mut parents: Vec<MonoRepoParent> = Vec::new();
    let mut k: usize = 0;
    while k < mono_parents.len()
        invariant
            k <= mono_parents@.len(),
            parents@.len() == k,
            forall|j: int| 0 <= j < k ==> (#[trigger] parents@[j]) == MonoRepoParent::Mono(mono_parents@[j]),
        decreases mono_parents@.len() - k,
    {
        parents.push(MonoRepoParent::Mono(mono_parents[k]));
        k = k + 1;
    }
    assert forall|k: int| 0 <= k < mono_parents@.len() implies (parent_before(#[trigger] parents@[k], old(cache).monorepo_commits@.len() as int)
        <==> mono_parents@[k] < old(cache).monorepo_commits@.len()) by {
        assert(parents@[k] == MonoRepoParent::Mono(mono_parents@[k]));
    }
    let ghost n0 = cache.monorepo_commits@.len() as int;
    assert((exists|k: int| 0 <= k < parents@.len() && !parent_before(#[trigger] parents@[k], n0)) <==> (exists|k: int|
        0 <= k < mono_parents@.len() && mono_parents@[k] >= n0)) by {
        if exists|k: int| 0 <= k < parents@.len() && !parent_before(#[trigger] parents@[k], n0) {
            let k = choose|k: int| 0 <= k < parents@.len() && !parent_before(#[trigger] parents@[k], n0);
            assert(mono_parents@[k] >= n0);
        }
        if exists|k: int| 0 <= k < mono_parents@.len() && mono_parents@[k] >= n0 {
            let k = choose|k: int| 0 <= k < mono_parents@.len() && mono_parents@[k] >= n0;
            assert(!parent_before(parents@[k], n0));
        }
    }
    match repo_name {
        RepoName::Top => cache.insert_mono(mono_id, parents, Some(TopRepoCommitId(imported)), Vec::new()),
        RepoName::SubRepo(s) => {
            let content = SubmoduleContent { repo_name: s.copy(), orig_commit_id: imported };
            let bump = ExpandedOrRemovedSubmodule::Expanded(ExpandedSubmodule::Expanded(content));
            let mut bumps: Vec<(GitPath, ExpandedOrRemovedSubmodule)> = Vec::new();
            bumps.push((abs_sub_path.copy(), bump));
            cache.insert_mono(mono_id, parents, None, bumps)
        },
    }
}


/// The top repository side of expand-then-split: a commit split out of a
/// child of monorepo commit `m` into the top repository gets as its only
/// parent the top commit that `m` carries.
pub proof fn lemma_split_top_parent_is_expanded_commit(
    cache: TopRepoCache,
    m: usize,
    t: TopRepoCommitId,
    k: GroupKey,
)
    requires
        cache.wf(),
        m < cache.monorepo_commits@.len(),
        cache.monorepo_commits@[m as int].top_bump == Some(t),
        k.1 is None,
    ensures
        group_parents(cache, seq![m], k) == seq![t.0],
{
    let ps = seq![m];
    assert(ps.drop_last() =~= Seq::<usize>::empty());
    assert(ps.last() == m);
    let g = cache.monorepo_commits@;
    assert(chain_top_bump(g, m as int) == Some(t));
    assert(parent_commit_for(g, m as int, k.1, k.0) == Some(t.0));
    assert(parent_candidates(g, Seq::<usize>::empty(), k.1, k.0) =~= Seq::<CommitId>::empty());
    let cands = parent_candidates(g, ps, k.1, k.0);
    assert(cands =~= seq![t.0]);
    assert(cands.drop_last() =~= Seq::<CommitId>::empty());
    assert(dedup_first(Seq::<CommitId>::empty()) =~= Seq::<CommitId>::empty());
    assert(dedup_first(cands) =~= seq![t.0]);
}

} // verus!
