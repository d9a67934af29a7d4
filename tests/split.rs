use git_toprepo::ids::{MonoRepoCommitId, ObjectId, TopRepoCommitId};
use git_toprepo::message::rewrite_push_message;
use git_toprepo::mono::{
    ExpandedOrRemovedSubmodule, ExpandedSubmodule, MonoRepoParent, SubmoduleContent, TopRepoCache,
};
use git_toprepo::path::{GitPath, RepoName, SubRepoName};
use git_toprepo::push::{collapse_redundant_pushes, split_parent_ids, PushEntry};
use git_toprepo::refs::{input_ref_to_output_ref, plan_ref_updates, RefEdit, RefError, PreviousValue, RefTarget};
use git_toprepo::resolve::{join_submodule_url, resolve_step, GitModulesInfo, ResolveState, Submodule};
use git_toprepo::split::{
    group_file_changes, split_mono_commit, ChangedFile, FileChange, ResolvedChange, SplitError,
};

fn id(n: u128) -> ObjectId {
    ObjectId::new(n, 0)
}

fn path(s: &str) -> GitPath {
    GitPath::new(s.as_bytes().to_vec())
}

fn sub(s: &str) -> RepoName {
    RepoName::SubRepo(SubRepoName::new(s.as_bytes().to_vec()))
}

fn expanded(repo: &str, commit: u128) -> ExpandedOrRemovedSubmodule {
    ExpandedOrRemovedSubmodule::Expanded(ExpandedSubmodule::Expanded(SubmoduleContent {
        repo_name: SubRepoName::new(repo.as_bytes().to_vec()),
        orig_commit_id: id(commit),
    }))
}

fn change(abs: &str, repo: RepoName, url: &str, rel: &str, blob: u128) -> ResolvedChange {
    ResolvedChange {
        abs_sub_path: path(abs),
        repo_name: repo,
        push_url: url.as_bytes().to_vec(),
        file: ChangedFile { path: path(rel), change: FileChange::Modified { mode: 0o100644, blob_id: id(blob) } },
    }
}

/// One mono commit that carries top commit 10, `libs/a` at 1 and `libs/b` at 2.
fn mono_cache() -> TopRepoCache {
    let mut cache = TopRepoCache::new();
    cache
        .insert_mono(
            MonoRepoCommitId::new(id(50)),
            vec![],
            Some(TopRepoCommitId::new(id(10))),
            vec![(path("libs/a"), expanded("a", 1)), (path("libs/b"), expanded("b", 2))],
        )
        .unwrap();
    cache
}

#[test]
fn message_topic_and_crumbs() {
    let (msg, topic) = rewrite_push_message(b"Fix it\r\n\nTopic: feat\n^-- libs/a 0123\nBody\n");
    assert_eq!(msg, b"Fix it\n\nBody\n".to_vec());
    assert_eq!(topic, Some(b"feat".to_vec()));
    let (msg, topic) = rewrite_push_message(b"No newline");
    assert_eq!(msg, b"No newline\n".to_vec());
    assert_eq!(topic, None);
    let (msg, topic) = rewrite_push_message(b"");
    assert!(msg.is_empty());
    assert_eq!(topic, None);
    let (_, topic) = rewrite_push_message(b"Topic: one\nTopic: two\n");
    assert_eq!(topic, Some(b"two".to_vec()));
}

#[test]
fn multi_sub_commit_with_topic_splits_per_repo() {
    let cache = mono_cache();
    let changes = vec![
        change("libs/a", sub("a"), "https://host/a", "x", 5),
        change("libs/b", sub("b"), "https://host/b", "y", 6),
    ];
    let plan = split_mono_commit(&cache, &vec![0], &changes, b"Change both\n\nTopic: feat\n").unwrap();
    assert_eq!(plan.topic, Some(b"feat".to_vec()));
    assert_eq!(plan.message, b"Change both\n\n".to_vec());
    assert_eq!(plan.commits.len(), 2);
    assert_eq!(plan.commits[0].group.abs_sub_path.bytes, b"libs/a".to_vec());
    assert_eq!(plan.commits[0].parents, vec![id(1)]);
    assert_eq!(plan.commits[0].group.files[0].path.bytes, b"x".to_vec());
    assert_eq!(plan.commits[1].group.push_url, b"https://host/b".to_vec());
    assert_eq!(plan.commits[1].parents, vec![id(2)]);
}

#[test]
fn multi_sub_commit_without_topic_fails() {
    let cache = mono_cache();
    let changes = vec![
        change("libs/a", sub("a"), "https://host/a", "x", 5),
        change("libs/b", sub("b"), "https://host/b", "y", 6),
    ];
    let r = split_mono_commit(&cache, &vec![0], &changes, b"Change both\n");
    assert_eq!(r.err().map(|e| format!("{:?}", e)), Some("MultipleReposWithoutTopic".to_string()));
}

#[test]
fn split_without_parent_content_fails() {
    let cache = mono_cache();
    let changes = vec![change("libs/c", sub("c"), "https://host/c", "z", 5)];
    let r = split_mono_commit(&cache, &vec![0], &changes, b"msg\n");
    assert!(matches!(r, Err(SplitError::SubmoduleNotInParents)));
    let mut empty = TopRepoCache::new();
    empty.insert_mono(MonoRepoCommitId::new(id(60)), vec![], None, vec![]).unwrap();
    let top = vec![change("", RepoName::Top, "https://host/top", "README", 5)];
    assert!(matches!(split_mono_commit(&empty, &vec![0], &top, b"msg\n"), Err(SplitError::NoTopParent)));
}

#[test]
fn split_top_change_takes_top_bump() {
    let cache = mono_cache();
    let top = vec![change("", RepoName::Top, "https://host/top", "README", 5)];
    let plan = split_mono_commit(&cache, &vec![0, 0], &top, b"msg\n").unwrap();
    assert_eq!(plan.commits.len(), 1);
    assert_eq!(plan.commits[0].parents, vec![id(10)]);
    assert_eq!(split_parent_ids(&cache, &vec![0, 0], &sub("a"), &path("libs/a")), vec![id(1)]);
    assert_eq!(split_parent_ids(&cache, &vec![0], &sub("b"), &path("libs/a")), Vec::<ObjectId>::new());
}

#[test]
fn grouping_sorts_by_path_repo_and_url() {
    let changes = vec![
        change("libs/b", sub("b"), "u", "1", 1),
        change("libs/a", sub("a"), "u", "2", 2),
        change("libs/b", sub("b"), "u", "3", 3),
        change("", RepoName::Top, "t", "4", 4),
        change("libs/a", sub("a"), "t", "5", 5),
    ];
    let groups = group_file_changes(&changes);
    assert_eq!(groups.len(), 4);
    assert!(matches!(groups[0].repo_name, RepoName::Top));
    assert_eq!(groups[1].abs_sub_path.bytes, b"libs/a".to_vec());
    assert_eq!(groups[1].push_url, b"t".to_vec());
    assert_eq!(groups[2].push_url, b"u".to_vec());
    assert_eq!(groups[3].abs_sub_path.bytes, b"libs/b".to_vec());
    let files: Vec<Vec<u8>> = groups[3].files.iter().map(|f| f.path.bytes.clone()).collect();
    assert_eq!(files, vec![b"1".to_vec(), b"3".to_vec()]);
}

#[test]
fn multi_sub_commit_splits_in_path_order() {
    let cache = mono_cache();
    let changes = vec![
        change("libs/b", sub("b"), "https://host/b", "y", 6),
        change("libs/a", sub("a"), "https://host/a", "x", 5),
    ];
    let plan = split_mono_commit(&cache, &vec![0], &changes, b"Topic: feat\n").unwrap();
    assert_eq!(plan.commits[0].group.abs_sub_path.bytes, b"libs/a".to_vec());
    assert_eq!(plan.commits[1].group.abs_sub_path.bytes, b"libs/b".to_vec());
}

#[test]
fn message_keeps_carriage_return_without_newline() {
    let (msg, _) = rewrite_push_message(b"a\r");
    assert_eq!(msg, b"a\r\n".to_vec());
    let (msg, _) = rewrite_push_message(b"a\r\nb\r");
    assert_eq!(msg, b"a\nb\r\n".to_vec());
}

fn push(url: &str, topic: Option<&str>, commit: u128, parents: Vec<u128>) -> PushEntry {
    PushEntry {
        push_url: url.as_bytes().to_vec(),
        topic: topic.map(|t| t.as_bytes().to_vec()),
        commit_id: id(commit),
        parents: parents.into_iter().map(id).collect(),
    }
}

#[test]
fn redundant_pushes_collapse() {
    let queue = vec![push("a", Some("t"), 1, vec![0]), push("a", Some("t"), 2, vec![1]), push("a", Some("t"), 3, vec![2])];
    let kept = collapse_redundant_pushes(&queue);
    assert_eq!(kept.len(), 1);
    assert_eq!(kept[0].commit_id, id(3));
}

#[test]
fn pushes_with_other_topic_or_url_stay() {
    let queue = vec![push("a", Some("t"), 1, vec![0]), push("a", Some("u"), 2, vec![1]), push("b", Some("t"), 3, vec![1])];
    assert_eq!(collapse_redundant_pushes(&queue).len(), 3);
    let queue = vec![push("a", None, 1, vec![0]), push("a", None, 2, vec![1])];
    assert_eq!(collapse_redundant_pushes(&queue).len(), 1);
}

#[test]
fn empty_gitmodules_resolves_to_top() {
    let state = ResolveState::start(path("dir/file"), b"https://host/top".to_vec());
    let modules = GitModulesInfo { submodules: vec![] };
    assert!(resolve_step(&state, &modules).is_none());
    assert!(matches!(state.repo_name, RepoName::Top));
    assert!(state.repo_path.bytes.is_empty());
    assert_eq!(state.rel_path.bytes, b"dir/file".to_vec());
    assert_eq!(state.push_url, b"https://host/top".to_vec());
}

#[test]
fn resolve_descends_into_submodule() {
    let state = ResolveState::start(path("libs/a/src/x.c"), b"https://host/group/top.git".to_vec());
    let modules = GitModulesInfo {
        submodules: vec![
            Submodule { path: path("libs/ab"), url: b"../ab.git".to_vec() },
            Submodule { path: path("libs/a"), url: b"../a.git".to_vec() },
        ],
    };
    let next = resolve_step(&state, &modules).unwrap();
    assert_eq!(next.rel_path.bytes, b"src/x.c".to_vec());
    assert_eq!(next.repo_path.bytes, b"libs/a".to_vec());
    assert_eq!(next.push_url, b"https://host/group/a.git".to_vec());
    assert_eq!(next.generic_url, b"a.git".to_vec());
    let inside = GitModulesInfo { submodules: vec![Submodule { path: path("src"), url: b"./inner".to_vec() }] };
    let deeper = resolve_step(&next, &inside).unwrap();
    assert_eq!(deeper.repo_path.bytes, b"libs/a/src".to_vec());
    assert_eq!(deeper.push_url, b"https://host/group/a.git/inner".to_vec());
    assert!(resolve_step(&deeper, &GitModulesInfo { submodules: vec![] }).is_none());
}

#[test]
fn submodule_url_join() {
    assert_eq!(join_submodule_url(b"https://h/g/top/", b"../x"), b"https://h/g/x".to_vec());
    assert_eq!(join_submodule_url(b"https://h/g/top", b"./../../y"), b"https://h/y".to_vec());
    assert_eq!(join_submodule_url(b"https://h/g/top", b"ssh://other/z"), b"ssh://other/z".to_vec());
}

#[test]
fn ref_names_map_to_origin() {
    assert_eq!(input_ref_to_output_ref(b"refs/namespaces/top/HEAD"), Some(b"refs/remotes/origin/HEAD".to_vec()));
    assert_eq!(
        input_ref_to_output_ref(b"refs/namespaces/top/refs/heads/main"),
        Some(b"refs/remotes/origin/main".to_vec())
    );
    assert_eq!(input_ref_to_output_ref(b"refs/namespaces/top/refs/tags/mytag"), Some(b"refs/tags/mytag".to_vec()));
    assert_eq!(input_ref_to_output_ref(b"refs/heads/main"), None);
    assert_eq!(input_ref_to_output_ref(b"refs/namespaces/top/refs/notes/x"), None);
}

#[test]
fn ref_plan_updates_symbolic_and_deletes_stale() {
    let tips = vec![(b"refs/namespaces/top/HEAD".to_vec(), b"refs/namespaces/top/refs/heads/main".to_vec())];
    let olds = vec![
        (b"refs/remotes/origin/old".to_vec(), RefTarget::Object(id(1))),
        (b"refs/remotes/origin/main".to_vec(), RefTarget::Object(id(2))),
    ];
    let names = vec![b"refs/remotes/origin/main".to_vec(), b"refs/remotes/origin/HEAD".to_vec()];
    let edits = plan_ref_updates(&tips, &olds, &names).unwrap();
    assert_eq!(edits.len(), 2);
    match &edits[0] {
        RefEdit::Update { name, expected: PreviousValue::MustNotExist, new: RefTarget::Symbolic(t) } => {
            assert_eq!(name, &b"refs/remotes/origin/HEAD".to_vec());
            assert_eq!(t, &b"refs/remotes/origin/main".to_vec());
        },
        other => panic!("unexpected {:?}", other),
    }
    match &edits[1] {
        RefEdit::Delete { name, previous: RefTarget::Object(o) } => {
            assert_eq!(name, &b"refs/remotes/origin/old".to_vec());
            assert_eq!(*o, id(1));
        },
        other => panic!("unexpected {:?}", other),
    }
    let up_to_date = vec![(b"refs/remotes/origin/HEAD".to_vec(), RefTarget::Symbolic(b"refs/remotes/origin/main".to_vec()))];
    assert_eq!(plan_ref_updates(&tips, &up_to_date, &names).unwrap().len(), 0);
    let bad = vec![(b"refs/heads/x".to_vec(), b"refs/namespaces/top/refs/heads/main".to_vec())];
    assert!(matches!(plan_ref_updates(&bad, &olds, &names), Err(RefError::OutsideTopNamespace)));
}

fn imported(committer: &str) -> git_toprepo::dedup::ImportedCommit {
    git_toprepo::dedup::ImportedCommit {
        author: b"A Name <a@no.domain> 1672625045 +0100".to_vec(),
        committer: committer.as_bytes().to_vec(),
        message: b"Initial commit\n".to_vec(),
        parents: vec![id(1)],
        tree_id: id(2),
    }
}

#[test]
fn dedup_reuses_id_across_committers() {
    let mut cache = TopRepoCache::new();
    let first = imported("C Name <c@no.domain> 1686121750 +0100");
    assert_eq!(cache.dedup.dedup_commit(&first, id(100)), id(100));
    let again = imported("Other <o@no.domain> 1700000000 +0000");
    assert_eq!(cache.dedup.dedup_commit(&again, id(200)), id(100));
    let mut changed = imported("C Name <c@no.domain> 1686121750 +0100");
    changed.message = b"Other message\n".to_vec();
    assert_eq!(cache.dedup.dedup_commit(&changed, id(300)), id(300));
    assert_eq!(cache.dedup.entries.len(), 2);
}
