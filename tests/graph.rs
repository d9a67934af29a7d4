use git_toprepo::expand::{
    expand_bump, plan_expansion, plan_restore, record_expansion, record_reset_commit, record_restore_commit,
};
use git_toprepo::push::split_parent_ids;
use git_toprepo::split::record_split_commit;
use git_toprepo::ids::{MonoRepoCommitId, ObjectId, TopRepoCommitId};
use git_toprepo::mono::{
    CacheError, ExpandedOrRemovedSubmodule, ExpandedSubmodule, MonoRepoParent, OriginalSubmodParent,
    RepoData, SubmoduleContent, TopRepoCache,
};
use git_toprepo::path::{GitPath, RepoName, SubRepoName};
use git_toprepo::thin::{GraphError, ThinCommitGraph, ThinSubmodule, ThinSubmoduleContent};

fn id(n: u128) -> ObjectId {
    ObjectId::new(n, 0)
}

fn path(s: &str) -> GitPath {
    GitPath::new(s.as_bytes().to_vec())
}

fn name(s: &str) -> SubRepoName {
    SubRepoName::new(s.as_bytes().to_vec())
}

fn added(repo: Option<&str>, commit: u128) -> ThinSubmodule {
    ThinSubmodule::AddedOrModified(ThinSubmoduleContent { repo_name: repo.map(name), commit_id: id(commit) })
}

fn has_path(paths: &[GitPath], p: &str) -> bool {
    paths.iter().any(|x| x.bytes == p.as_bytes())
}

/// A linear history 0 <- 1 <- 2 and a merge 3 of 2 and a side root 4.
fn sample_graph() -> ThinCommitGraph {
    let mut g = ThinCommitGraph::new();
    assert_eq!(g.insert(id(10), id(100), vec![], None, vec![(path("libs/a"), added(Some("a"), 1))]), Ok(0));
    assert_eq!(g.insert(id(11), id(101), vec![0], None, vec![]), Ok(1));
    assert_eq!(g.insert(id(12), id(102), vec![1], None, vec![(path("libs/b"), added(Some("b"), 2))]), Ok(2));
    assert_eq!(g.insert(id(14), id(104), vec![], None, vec![]), Ok(3));
    assert_eq!(g.insert(id(13), id(103), vec![2, 3], None, vec![]), Ok(4));
    g
}

#[test]
fn thin_depth_is_one_more_than_deepest_parent() {
    let g = sample_graph();
    let depths: Vec<usize> = g.commits.iter().map(|c| c.depth).collect();
    assert_eq!(depths, vec![0, 1, 2, 0, 3]);
}

#[test]
fn thin_insert_rejects_unknown_parent_and_duplicate() {
    let mut g = sample_graph();
    assert_eq!(g.insert(id(20), id(200), vec![7], None, vec![]), Err(GraphError::UnknownParent));
    assert_eq!(g.insert(id(12), id(200), vec![0], None, vec![]), Err(GraphError::DuplicateCommit));
    let unsorted = vec![(path("libs/b"), ThinSubmodule::Removed), (path("libs/a"), ThinSubmodule::Removed)];
    assert_eq!(g.insert(id(20), id(200), vec![0], None, unsorted), Err(GraphError::UnsortedBumps));
    let repeated = vec![(path("libs/a"), ThinSubmodule::Removed), (path("libs/a"), ThinSubmodule::Removed)];
    assert_eq!(g.insert(id(20), id(200), vec![0], None, repeated), Err(GraphError::UnsortedBumps));
    assert_eq!(g.len(), 5);
    assert_eq!(g.find(id(13)), Some(4));
    assert_eq!(g.find(id(99)), None);
}

#[test]
fn thin_submodule_paths_follow_first_parent_bumps() {
    let g = sample_graph();
    assert!(has_path(&g.commits[1].submodule_paths, "libs/a"));
    assert!(!has_path(&g.commits[1].submodule_paths, "libs/b"));
    assert!(has_path(&g.commits[4].submodule_paths, "libs/a"));
    assert!(has_path(&g.commits[4].submodule_paths, "libs/b"));
    assert_eq!(g.commits[3].submodule_paths.len(), 0);
}

#[test]
fn thin_remove_then_readd_toggles_path() {
    let mut g = sample_graph();
    let removed = g.insert(id(30), id(300), vec![4], None, vec![(path("libs/a"), ThinSubmodule::Removed)]).unwrap();
    let readded = g.insert(id(31), id(301), vec![removed], None, vec![(path("libs/a"), added(Some("a"), 5))]).unwrap();
    assert!(!has_path(&g.commits[removed].submodule_paths, "libs/a"));
    assert!(has_path(&g.commits[readded].submodule_paths, "libs/a"));
    assert!(matches!(g.get_submodule(removed, &path("libs/a")), Some(ThinSubmodule::Removed)));
    match g.get_submodule(readded, &path("libs/a")) {
        Some(ThinSubmodule::AddedOrModified(c)) => assert_eq!(c.commit_id, id(5)),
        other => panic!("unexpected {:?}", other),
    }
}

#[test]
fn thin_get_submodule_walks_first_parents() {
    let g = sample_graph();
    match g.get_submodule(4, &path("libs/a")) {
        Some(ThinSubmodule::AddedOrModified(c)) => assert_eq!(c.commit_id, id(1)),
        other => panic!("unexpected {:?}", other),
    }
    assert!(g.get_submodule(3, &path("libs/a")).is_none());
    assert!(g.get_submodule(1, &path("libs/b")).is_none());
}

#[test]
fn thin_is_descendant_of() {
    let g = sample_graph();
    for a in 0..5 {
        assert!(g.is_descendant_of(a, a));
    }
    assert!(g.is_descendant_of(4, 0));
    assert!(g.is_descendant_of(4, 3));
    assert!(g.is_descendant_of(2, 0));
    assert!(!g.is_descendant_of(0, 2));
    assert!(!g.is_descendant_of(2, 3));
    assert!(!g.is_descendant_of(3, 0));
}

#[test]
fn ids_wrap_commit_ids() {
    let t = TopRepoCommitId::new(id(7));
    assert_eq!(*t.get(), id(7));
    assert_eq!(t.into_inner(), id(7));
    let m = MonoRepoCommitId::new(id(8));
    assert_eq!(*m.get(), id(8));
    assert_eq!(*MonoRepoCommitId::dummy().get(), ObjectId::null());
    assert_ne!(ObjectId::new(1, 2), ObjectId::new(2, 1));
}

#[test]
fn expanded_submodule_accessors() {
    let e = ExpandedSubmodule::Expanded(SubmoduleContent { repo_name: name("a"), orig_commit_id: id(3) });
    assert_eq!(e.get_known_submod().unwrap().repo_name.name, b"a".to_vec());
    assert_eq!(*e.get_orig_commit_id(), id(3));
    let k = ExpandedSubmodule::KeptAsSubmodule(id(4));
    assert!(k.get_known_submod().is_none());
    assert_eq!(*k.get_orig_commit_id(), id(4));
    let u = ExpandedSubmodule::UnknownSubmodule(id(5));
    assert!(u.get_known_submod().is_none());
    assert_eq!(*u.get_orig_commit_id(), id(5));
    let m = ExpandedSubmodule::CommitMissingInSubRepo(SubmoduleContent { repo_name: name("b"), orig_commit_id: id(6) });
    assert_eq!(m.get_known_submod().unwrap().orig_commit_id, id(6));
    let r = ExpandedSubmodule::RegressedNotFullyImplemented(SubmoduleContent { repo_name: name("c"), orig_commit_id: id(9) });
    assert_eq!(*r.get_orig_commit_id(), id(9));
}

fn cache_with_top() -> TopRepoCache {
    let mut cache = TopRepoCache::new();
    cache.insert_top(id(10), id(100), vec![], None, vec![]).unwrap();
    cache.insert_top(id(11), id(101), vec![0], None, vec![]).unwrap();
    cache.insert_mono(MonoRepoCommitId::new(id(50)), vec![], Some(TopRepoCommitId::new(id(10))), vec![]).unwrap();
    cache.insert_mono(MonoRepoCommitId::new(id(51)), vec![MonoRepoParent::Mono(0)], Some(TopRepoCommitId::new(id(11))), vec![]).unwrap();
    cache
}

#[test]
fn memo_requires_expanded_parents() {
    let mut cache = cache_with_top();
    let t0 = TopRepoCommitId::new(id(10));
    let t1 = TopRepoCommitId::new(id(11));
    assert_eq!(cache.record_top_to_mono(t1, 1), Err(CacheError::ParentNotExpanded));
    assert!(!cache.contains_top(t1));
    assert_eq!(cache.record_top_to_mono(TopRepoCommitId::new(id(99)), 0), Err(CacheError::UnknownTopCommit));
    assert_eq!(cache.record_top_to_mono(t0, 7), Err(CacheError::UnknownMonoCommit));
    assert_eq!(cache.record_top_to_mono(t0, 0), Ok(()));
    assert_eq!(cache.record_top_to_mono(t1, 1), Ok(()));
    assert_eq!(cache.top_to_mono(t0), Some(0));
    assert_eq!(cache.top_to_mono(t1), Some(1));
    assert!(cache.contains_top(t0));
}

#[test]
fn mono_insert_computes_depth_and_paths() {
    let mut cache = cache_with_top();
    let graft = MonoRepoParent::OriginalSubmod(OriginalSubmodParent { path: path("libs/a"), commit_id: id(2) });
    let bump = ExpandedOrRemovedSubmodule::Expanded(ExpandedSubmodule::Expanded(SubmoduleContent {
        repo_name: name("a"),
        orig_commit_id: id(2),
    }));
    let i = cache
        .insert_mono(MonoRepoCommitId::new(id(52)), vec![MonoRepoParent::Mono(1), graft], None, vec![(path("libs/a"), bump)])
        .unwrap();
    assert_eq!(i, 2);
    assert_eq!(cache.monorepo_commits[i].depth, 2);
    assert!(has_path(&cache.monorepo_commits[i].submodule_paths, "libs/a"));
    assert_eq!(cache.get_top_bump(i), Some(TopRepoCommitId::new(id(11))));
    assert!(matches!(cache.get_submodule_bump(i, &path("libs/a")), Some(ExpandedOrRemovedSubmodule::Expanded(_))));
    let j = cache
        .insert_mono(MonoRepoCommitId::new(id(53)), vec![MonoRepoParent::Mono(i)], None, vec![(path("libs/a"), ExpandedOrRemovedSubmodule::Removed)])
        .unwrap();
    assert_eq!(cache.monorepo_commits[j].depth, 3);
    assert!(!has_path(&cache.monorepo_commits[j].submodule_paths, "libs/a"));
    assert_eq!(cache.insert_mono(MonoRepoCommitId::new(id(53)), vec![], None, vec![]).err(), Some(CacheError::DuplicateMonoCommit));
    assert_eq!(cache.insert_mono(MonoRepoCommitId::new(id(54)), vec![MonoRepoParent::Mono(9)], None, vec![]).err(), Some(CacheError::UnknownParent));
}

fn cache_with_sub() -> TopRepoCache {
    let mut cache = TopRepoCache::new();
    let mut sub = RepoData::new(b"https://host/a".to_vec());
    // x <- y <- z
    sub.thin_commits.insert(id(1), id(201), vec![], None, vec![]).unwrap();
    sub.thin_commits.insert(id(2), id(202), vec![0], None, vec![]).unwrap();
    sub.thin_commits.insert(id(3), id(203), vec![1], None, vec![]).unwrap();
    assert_eq!(sub.url, b"https://host/a".to_vec());
    cache.sub_repos.push((name("a"), sub));
    cache
}

#[test]
fn gitlink_to_missing_commit_is_missing_not_unknown() {
    let cache = cache_with_sub();
    let missing = ThinSubmoduleContent { repo_name: Some(name("a")), commit_id: id(77) };
    assert!(matches!(expand_bump(&cache, &missing, None), ExpandedSubmodule::CommitMissingInSubRepo(_)));
    let other_repo = ThinSubmoduleContent { repo_name: Some(name("zzz")), commit_id: id(1) };
    assert!(matches!(expand_bump(&cache, &other_repo, None), ExpandedSubmodule::CommitMissingInSubRepo(_)));
    let unknown = ThinSubmoduleContent { repo_name: None, commit_id: id(1) };
    assert!(matches!(expand_bump(&cache, &unknown, None), ExpandedSubmodule::UnknownSubmodule(c) if c == id(1)));
}

#[test]
fn regressed_submodule_is_detected() {
    let cache = cache_with_sub();
    // A(sub=y), B(sub=x), C(sub=z): B moves back, C moves forward again.
    let y = ThinSubmoduleContent { repo_name: Some(name("a")), commit_id: id(2) };
    let x = ThinSubmoduleContent { repo_name: Some(name("a")), commit_id: id(1) };
    let z = ThinSubmoduleContent { repo_name: Some(name("a")), commit_id: id(3) };
    assert!(matches!(expand_bump(&cache, &y, None), ExpandedSubmodule::Expanded(_)));
    match expand_bump(&cache, &x, Some(id(2))) {
        ExpandedSubmodule::RegressedNotFullyImplemented(c) => assert_eq!(c.orig_commit_id, id(1)),
        other => panic!("unexpected {:?}", other),
    }
    match expand_bump(&cache, &z, Some(id(1))) {
        ExpandedSubmodule::Expanded(c) => assert_eq!(c.orig_commit_id, id(3)),
        other => panic!("unexpected {:?}", other),
    }
}

fn expansion_cache() -> TopRepoCache {
    let mut cache = cache_with_sub();
    cache.insert_top(id(10), id(100), vec![], None, vec![(path("libs/a"), added(Some("a"), 1))]).unwrap();
    cache.insert_top(id(11), id(101), vec![0], None, vec![(path("libs/a"), added(Some("a"), 2))]).unwrap();
    cache
}

#[test]
fn single_submodule_expansion() {
    let mut cache = expansion_cache();
    assert_eq!(plan_expansion(&cache, 1).err(), Some(CacheError::ParentNotExpanded));
    let plan = plan_expansion(&cache, 0).unwrap();
    assert_eq!(plan.mono_parents.len(), 1);
    assert!(matches!(&plan.mono_parents[0], MonoRepoParent::OriginalSubmod(o) if o.commit_id == id(1) && o.path.bytes == b"libs/a".to_vec()));
    assert!(matches!(
        &plan.submodule_bumps[0].1,
        ExpandedOrRemovedSubmodule::Expanded(ExpandedSubmodule::Expanded(c)) if c.orig_commit_id == id(1)
    ));
    assert_eq!(record_expansion(&mut cache, 0, MonoRepoCommitId::new(id(50)), plan), Ok(0));
    let again = plan_expansion(&cache, 1).unwrap();
    assert_eq!(record_expansion(&mut cache, 1, MonoRepoCommitId::new(id(50)), again), Err(CacheError::DuplicateMonoCommit));
    assert_eq!(cache.top_to_mono(TopRepoCommitId::new(id(11))), None);
    let plan = plan_expansion(&cache, 1).unwrap();
    assert_eq!(plan.mono_parents.len(), 2);
    assert!(matches!(plan.mono_parents[0], MonoRepoParent::Mono(0)));
    assert!(matches!(&plan.mono_parents[1], MonoRepoParent::OriginalSubmod(o) if o.commit_id == id(2)));
    assert!(matches!(
        &plan.submodule_bumps[0].1,
        ExpandedOrRemovedSubmodule::Expanded(ExpandedSubmodule::Expanded(c)) if c.orig_commit_id == id(2)
    ));
    assert_eq!(record_expansion(&mut cache, 1, MonoRepoCommitId::new(id(51)), plan), Ok(1));
    assert_eq!(cache.top_to_mono(TopRepoCommitId::new(id(11))), Some(1));
    assert_eq!(cache.get_top_bump(1), Some(TopRepoCommitId::new(id(11))));
    assert_eq!(cache.monorepo_commits[1].depth, 1);
    assert!(has_path(&cache.monorepo_commits[1].submodule_paths, "libs/a"));
}

#[test]
fn split_after_expansion_uses_recorded_commits() {
    let mut cache = expansion_cache();
    let plan = plan_expansion(&cache, 0).unwrap();
    record_expansion(&mut cache, 0, MonoRepoCommitId::new(id(50)), plan).unwrap();
    let repo = RepoName::SubRepo(name("a"));
    assert_eq!(split_parent_ids(&cache, &vec![0], &repo, &path("libs/a")), vec![id(1)]);
    let n = record_split_commit(&mut cache, MonoRepoCommitId::new(id(60)), &vec![0], &repo, &path("libs/a"), id(70)).unwrap();
    assert_eq!(split_parent_ids(&cache, &vec![n], &repo, &path("libs/a")), vec![id(70)]);
    assert_eq!(split_parent_ids(&cache, &vec![n], &RepoName::Top, &path("")), vec![id(10)]);
    let t = record_split_commit(&mut cache, MonoRepoCommitId::new(id(61)), &vec![n], &RepoName::Top, &path(""), id(80)).unwrap();
    assert_eq!(split_parent_ids(&cache, &vec![t], &RepoName::Top, &path("")), vec![id(80)]);
}

#[test]
fn regressed_submodule_gets_no_merge_edge() {
    let mut cache = cache_with_sub();
    // Top: A(sub=y) <- B(sub=x) <- C(sub=z), where x <- y <- z in the submodule.
    cache.insert_top(id(20), id(120), vec![], None, vec![(path("libs/a"), added(Some("a"), 2))]).unwrap();
    cache.insert_top(id(21), id(121), vec![0], None, vec![(path("libs/a"), added(Some("a"), 1))]).unwrap();
    cache.insert_top(id(22), id(122), vec![1], None, vec![(path("libs/a"), added(Some("a"), 3))]).unwrap();
    let a = plan_expansion(&cache, 0).unwrap();
    record_expansion(&mut cache, 0, MonoRepoCommitId::new(id(60)), a).unwrap();
    let b = plan_expansion(&cache, 1).unwrap();
    assert!(b.reset_first);
    assert_eq!(b.mono_parents.len(), 1);
    assert!(matches!(
        &b.submodule_bumps[0].1,
        ExpandedOrRemovedSubmodule::Expanded(ExpandedSubmodule::RegressedNotFullyImplemented(c)) if c.orig_commit_id == id(1)
    ));
    let mut b = b;
    let reset = record_reset_commit(&mut cache, &mut b, MonoRepoCommitId::new(id(70))).unwrap();
    assert!(matches!(cache.monorepo_commits[reset].parents[..], [MonoRepoParent::Mono(0)]));
    assert!(cache.monorepo_commits[reset].top_bump.is_none());
    assert!(matches!(
        &cache.monorepo_commits[reset].submodule_bumps[0].1,
        ExpandedOrRemovedSubmodule::Expanded(ExpandedSubmodule::Expanded(c)) if c.orig_commit_id == id(1)
    ));
    assert_eq!(b.mono_parents.len(), 2);
    assert!(matches!(b.mono_parents[1], MonoRepoParent::Mono(r) if r == reset));
    let mb = record_expansion(&mut cache, 1, MonoRepoCommitId::new(id(61)), b).unwrap();
    assert!(matches!(cache.monorepo_commits[mb].parents[..], [MonoRepoParent::Mono(0), MonoRepoParent::Mono(_)]));
    let c = plan_expansion(&cache, 2).unwrap();
    assert!(!c.reset_first);
    assert_eq!(c.mono_parents.len(), 2);
    assert!(matches!(c.mono_parents[0], MonoRepoParent::Mono(m) if m == mb));
    assert!(matches!(&c.mono_parents[1], MonoRepoParent::OriginalSubmod(o) if o.commit_id == id(3)));
    assert!(!c.mono_parents.iter().any(|p| matches!(p, MonoRepoParent::Mono(0))));
    // C restores y, which B's regression undid, on top of B.
    let restore = plan_restore(&cache, 2);
    assert_eq!(restore.len(), 1);
    assert_eq!(restore[0].0.bytes, b"libs/a".to_vec());
    assert_eq!(restore[0].1.orig_commit_id, id(2));
    assert!(plan_restore(&cache, 1).is_empty());
    let mut c = c;
    let r = record_restore_commit(&mut cache, &mut c, MonoRepoCommitId::new(id(71)), &restore).unwrap();
    assert!(matches!(cache.monorepo_commits[r].parents[..], [MonoRepoParent::Mono(m)] if m == mb));
    assert!(matches!(c.mono_parents[2], MonoRepoParent::Mono(x) if x == r));
}

#[test]
fn frontier_walk_stops_at_expanded_commits() {
    let mut cache = expansion_cache();
    assert_eq!(cache.commits_to_expand(&vec![1], false), vec![0, 1]);
    assert_eq!(cache.commits_to_expand(&vec![0], false), vec![0]);
    let plan = plan_expansion(&cache, 0).unwrap();
    record_expansion(&mut cache, 0, MonoRepoCommitId::new(id(50)), plan).unwrap();
    assert_eq!(cache.commits_to_expand(&vec![1], false), vec![1]);
    assert_eq!(cache.commits_to_expand(&vec![0], false), Vec::<usize>::new());
    assert_eq!(cache.commits_to_expand(&vec![], false), Vec::<usize>::new());
    assert_eq!(cache.commits_to_expand(&vec![0], true), vec![0]);
    assert_eq!(cache.commits_to_expand(&vec![1], true), vec![1]);
}

fn expanded_bump(commit: u128) -> ExpandedOrRemovedSubmodule {
    ExpandedOrRemovedSubmodule::Expanded(ExpandedSubmodule::Expanded(SubmoduleContent {
        repo_name: name("a"),
        orig_commit_id: id(commit),
    }))
}

#[test]
fn injection_point_is_oldest_common_history() {
    let mut cache = cache_with_sub();
    cache.insert_mono(MonoRepoCommitId::new(id(40)), vec![], None, vec![(path("libs/a"), expanded_bump(1))]).unwrap();
    cache
        .insert_mono(MonoRepoCommitId::new(id(41)), vec![MonoRepoParent::Mono(0)], None, vec![(path("libs/a"), expanded_bump(2))])
        .unwrap();
    assert_eq!(cache.injection_point(&vec![1, 0], 0, &path("libs/a"), 2), Some(0));
    assert_eq!(cache.injection_point(&vec![1], 0, &path("libs/a"), 2), Some(1));
    assert_eq!(cache.injection_point(&vec![1, 0], 0, &path("libs/a"), 0), Some(0));
    assert_eq!(cache.injection_point(&vec![1], 0, &path("libs/a"), 0), None);
    assert_eq!(cache.injection_point(&vec![1, 0], 0, &path("libs/b"), 2), None);
    let injected = record_split_commit(&mut cache, MonoRepoCommitId::new(id(42)), &vec![0], &RepoName::SubRepo(name("a")), &path("libs/a"), id(3)).unwrap();
    assert!(matches!(
        cache.get_submodule_bump(injected, &path("libs/a")),
        Some(ExpandedOrRemovedSubmodule::Expanded(ExpandedSubmodule::Expanded(c))) if c.orig_commit_id == id(3)
    ));
    assert_eq!(record_split_commit(&mut cache, MonoRepoCommitId::new(id(42)), &vec![0], &RepoName::Top, &path(""), id(3)).err(), Some(CacheError::DuplicateMonoCommit));
    assert_eq!(record_split_commit(&mut cache, MonoRepoCommitId::new(id(43)), &vec![9], &RepoName::Top, &path(""), id(3)).err(), Some(CacheError::UnknownParent));
}
