//! Which repository owns a path of the monorepo tree: descend through the
//! `.gitmodules` of each level until no submodule contains the path.
use vstd::prelude::*;
use crate::bytes::{concat, copy_bytes, is_prefix, slice_of, starts_with, tail_from};
use crate::path::{inside_spec, join_spec, strip_dir_spec, GitPath, RepoName};

verus! {

/// A submodule entry of a `.gitmodules` file.
#[derive(Debug)]
pub struct Submodule {
    pub path: GitPath,
    pub url: Vec<u8>,
}

/// The submodules that one `.gitmodules` file configures.
#[derive(Debug)]
pub struct GitModulesInfo {
    pub submodules: Vec<Submodule>,
}

impl GitModulesInfo {
    /// The first configured submodule whose directory contains `rel`.
    pub fn get_containing_submodule(&self, rel: &GitPath) -> (r: Option<usize>)
        ensures
            match r {
                Some(k) => k < self.submodules@.len() && inside_spec(self.submodules@[k as int].path@, rel@)
                    && forall|j: int| 0 <= j < k ==> !inside_spec(self.submodules@[j].path@, rel@),
                None => forall|j: int|
                    0 <= j < self.submodules@.len() ==> !inside_spec(self.submodules@[j].path@, rel@),
            },
    {
        let mut k: usize = 0;
        while k < self.submodules.len()
            invariant
                k <= self.submodules@.len(),
                forall|j: int| 0 <= j < k ==> !inside_spec(self.submodules@[j].path@, rel@),
            decreases self.submodules@.len() - k,
        {
            if rel.is_inside(&self.submodules[k].path) {
                return Some(k);
            }
            k = k + 1;
        }
        None
    }
}

pub open spec fn dot_slash() -> Seq<u8> {
    seq![46u8, 47u8]
}

pub open spec fn dot_dot_slash() -> Seq<u8> {
    seq![46u8, 46u8, 47u8]
}

/// The position of the last `/` before position `n` of `s`, or -1.
pub open spec fn last_slash_before(s: Seq<u8>, n: int) -> int
    decreases n,
{
    if n <= 0 {
        -1
    } else if s[n - 1] == 47u8 {
        n - 1
    } else {
        last_slash_before(s, n - 1)
    }
}

/// `s` without its trailing `/`s.
pub open spec fn trim_slashes(s: Seq<u8>) -> Seq<u8>
    decreases s.len(),
{
    if s.len() > 0 && s.last() == 47u8 {
        trim_slashes(s.drop_last())
    } else {
        s
    }
}

/// `base` without its last `/`-separated component; empty if it has one
/// component only.
pub open spec fn url_parent(base: Seq<u8>) -> Seq<u8> {
    let k = last_slash_before(base, base.len() as int);
    if k < 0 {
        Seq::empty()
    } else {
        base.subrange(0, k)
    }
}

/// `rel` resolved against `base`: each leading `./` is skipped, each leading
/// `../` takes one component off `base`, and the rest is appended after `/`
/// (or stands alone once `base` is empty).
pub open spec fn relative_join(base: Seq<u8>, rel: Seq<u8>) -> Seq<u8>
    decreases rel.len(),
{
    if is_prefix(dot_slash(), rel) {
        relative_join(base, rel.subrange(2, rel.len() as int))
    } else if is_prefix(dot_dot_slash(), rel) {
        relative_join(url_parent(base), rel.subrange(3, rel.len() as int))
    } else if rel.len() == 0 {
        base
    } else if base.len() == 0 {
        rel
    } else {
        base + seq![47u8] + rel
    }
}

/// A submodule URL as git resolves it against the URL of the repository
/// whose `.gitmodules` names it: URLs that start with `./` or `../` are
/// relative, others are taken as they are.
pub open spec fn submodule_url(base: Seq<u8>, url: Seq<u8>) -> Seq<u8> {
    if is_prefix(dot_slash(), url) || is_prefix(dot_dot_slash(), url) {
        relative_join(trim_slashes(base), url)
    } else {
        url
    }
}

fn trim_slashes_exec(s: &[u8]) -> (r: Vec<u8>)
    ensures
        r@ == trim_slashes(s@),
{
    let mut n: usize = s.len();
    assert(s@.subrange(0, n as int) =~= s@);
    while n > 0 && s[n - 1] == 47u8
        invariant
            n <= s@.len(),
            trim_slashes(s@) == trim_slashes(s@.subrange(0, n as int)),
        decreases n,
    {
        assert(s@.subrange(0, n as int).drop_last() =~= s@.subrange(0, n - 1));
        n = n - 1;
    }
    slice_of(s, 0, n)
}

fn url_parent_exec(base: &[u8]) -> (r: Vec<u8>)
    ensures
        r@ == url_parent(base@),
{
    let mut n: usize = base.len();
    while n > 0 && base[n - 1] != 47u8
        invariant
            n <= base@.len(),
            last_slash_before(base@, base@.len() as int) == last_slash_before(base@, n as int),
        decreases n,
    {
        n = n - 1;
    }
    if n == 0 {
        Vec::new()
    } else {
        slice_of(base, 0, n - 1)
    }
}

fn relative_join_exec(base: Vec<u8>, rel: &[u8]) -> (r: Vec<u8>)
    ensures
        r@ == relative_join(base@, rel@),
    decreases rel@.len(),
{
    let dot: Vec<u8> = vec![46u8, 47u8];
    let dot_dot: Vec<u8> = vec![46u8, 46u8, 47u8];
    assert(dot@ =~= dot_slash());
    assert(dot_dot@ =~= dot_dot_slash());
    if starts_with(rel, dot.as_slice()) {
        let rest = tail_from(rel, 2);
        relative_join_exec(base, rest.as_slice())
    } else if starts_with(rel, dot_dot.as_slice()) {
        let rest = tail_from(rel, 3);
        relative_join_exec(url_parent_exec(base.as_slice()), rest.as_slice())
    } else if rel.len() == 0 {
        base
    } else if base.len() == 0 {
        copy_bytes(rel)
    } else {
        let mut with_slash = base;
        with_slash.push(47u8);
        let r = concat(with_slash.as_slice(), rel);
        assert(r@ =~= base@ + seq![47u8] + rel@);
        r
    }
}

/// Resolves submodule URL `url` against `base` (see `submodule_url`).
pub fn join_submodule_url(base: &[u8], url: &[u8]) -> (r: Vec<u8>)
    ensures
        r@ == submodule_url(base@, url@),
{
    let dot: Vec<u8> = vec![46u8, 47u8];
    let dot_dot: Vec<u8> = vec![46u8, 46u8, 47u8];
    assert(dot@ =~= dot_slash());
    assert(dot_dot@ =~= dot_dot_slash());
    if starts_with(url, dot.as_slice()) || starts_with(url, dot_dot.as_slice()) {
        relative_join_exec(trim_slashes_exec(base), url)
    } else {
        copy_bytes(url)
    }
}

/// Where the descent through the submodules stands: the repository reached
/// so far, its mount path, the path relative to it, its push URL, and its URL
/// resolved from an empty base, which identifies the sub repository.
#[derive(Debug)]
pub struct ResolveState {
    pub repo_name: RepoName,
    pub repo_path: GitPath,
    pub rel_path: GitPath,
    pub push_url: Vec<u8>,
    pub generic_url: Vec<u8>,
}

impl ResolveState {
    /// The state before any `.gitmodules` is read: the top repository, at the
    /// root, with the whole path and the caller's push URL.
    pub fn start(path: GitPath, base_url: Vec<u8>) -> (r: ResolveState)
        ensures
            r.repo_name is Top,
            r.repo_path@.len() == 0,
            r.rel_path@ == path@,
            r.push_url@ == base_url@,
            r.generic_url@.len() == 0,
    {
        ResolveState {
            repo_name: RepoName::Top,
            repo_path: GitPath::root(),
            rel_path: path,
            push_url: base_url,
            generic_url: Vec::new(),
        }
    }
}

/// One level of the descent. `modules` is the `.gitmodules` found at the
/// current repository's mount path. Returns `None` when no submodule contains
/// the relative path, so that the current state is the answer; otherwise the
/// submodule entered and the URL that identifies it (to be looked up in the
/// configuration) and the state inside it, whose name is still the outer one.
pub fn resolve_step(state: &ResolveState, modules: &GitModulesInfo) -> (r: Option<ResolveState>)
    ensures
        modules.submodules@.len() == 0 ==> r is None,
        r is None <==> forall|j: int|
            0 <= j < modules.submodules@.len() ==> !inside_spec(modules.submodules@[j].path@, state.rel_path@),
        r is Some ==> exists|k: int|
            0 <= k < modules.submodules@.len() && inside_spec(modules.submodules@[k].path@, state.rel_path@)
                && (forall|j: int| 0 <= j < k ==> !inside_spec(modules.submodules@[j].path@, state.rel_path@))
                && {
                let sub = modules.submodules@[k];
                let next = r->Some_0;
                &&& next.rel_path@ == strip_dir_spec(sub.path@, state.rel_path@)
                &&& next.repo_path@ == join_spec(state.repo_path@, sub.path@)
                &&& next.push_url@ == submodule_url(state.push_url@, sub.url@)
                &&& next.generic_url@ == submodule_url(state.generic_url@, sub.url@)
                &&& next.repo_name@ == state.repo_name@
            },
{
    match modules.get_containing_submodule(&state.rel_path) {
        None => None,
        Some(k) => {
            let sub = &modules.submodules[k];
            Some(
                ResolveState {
                    repo_name: state.repo_name.copy(),
                    repo_path: state.repo_path.join(&sub.path),
                    rel_path: state.rel_path.strip_dir(&sub.path),
                    push_url: join_submodule_url(state.push_url.as_slice(), sub.url.as_slice()),
                    generic_url: join_submodule_url(state.generic_url.as_slice(), sub.url.as_slice()),
                },
            )
        },
    }
}

} // verus!
