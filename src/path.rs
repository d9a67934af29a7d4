//! Byte-exact paths inside a git tree and the names of the repositories.
use vstd::prelude::*;
use crate::bytes::{bytes_eq, concat, copy_bytes, is_prefix, starts_with, tail_from};

verus! {

/// A byte-exact, `/`-separated path inside a git tree. Not normalised.
#[derive(Debug)]
pub struct GitPath {
    pub bytes: Vec<u8>,
}

impl View for GitPath {
    type V = Seq<u8>;

    open spec fn view(&self) -> Seq<u8> {
        self.bytes@
    }
}

pub open spec fn slash() -> u8 {
    47u8
}

/// `base` joined with `rel`: `rel` alone under the root, else `base/rel`.
pub open spec fn join_spec(base: Seq<u8>, rel: Seq<u8>) -> Seq<u8> {
    if base.len() == 0 {
        rel
    } else {
        base + seq![slash()] + rel
    }
}

/// Whether `rel` lies strictly inside the directory `dir`, i.e. starts with
/// `dir/`.
pub open spec fn inside_spec(dir: Seq<u8>, rel: Seq<u8>) -> bool {
    is_prefix(dir + seq![slash()], rel)
}

/// What remains of `rel` after `dir/`.
pub open spec fn strip_dir_spec(dir: Seq<u8>, rel: Seq<u8>) -> Seq<u8> {
    rel.subrange(dir.len() as int + 1, rel.len() as int)
}

impl GitPath {
    pub fn new(bytes: Vec<u8>) -> (r: GitPath)
        ensures
            r@ == bytes@,
    {
        GitPath { bytes }
    }

    /// The root of the tree.
    pub fn root() -> (r: GitPath)
        ensures
            r@.len() == 0,
    {
        GitPath { bytes: Vec::new() }
    }

    pub fn as_bytes(&self) -> (r: &[u8])
        ensures
            r@ == self@,
    {
        self.bytes.as_slice()
    }

    pub fn copy(&self) -> (r: GitPath)
        ensures
            r@ == self@,
    {
        GitPath { bytes: copy_bytes(self.bytes.as_slice()) }
    }

    pub fn same(&self, other: &GitPath) -> (r: bool)
        ensures
            r == (self@ == other@),
    {
        bytes_eq(self.bytes.as_slice(), other.bytes.as_slice())
    }

    pub fn is_root(&self) -> (r: bool)
        ensures
            r == (self@.len() == 0),
    {
        self.bytes.len() == 0
    }

    pub fn join(&self, rel: &GitPath) -> (r: GitPath)
        ensures
            r@ == join_spec(self@, rel@),
    {
        if self.bytes.len() == 0 {
            rel.copy()
        } else {
            let mut with_slash = copy_bytes(self.bytes.as_slice());
            with_slash.push(47u8);
            let joined = concat(with_slash.as_slice(), rel.bytes.as_slice());
            assert(joined@ =~= self@ + seq![slash()] + rel@);
            GitPath { bytes: joined }
        }
    }

    /// Whether `self` lies strictly inside the directory `dir`.
    pub fn is_inside(&self, dir: &GitPath) -> (r: bool)
        ensures
            r == inside_spec(dir@, self@),
    {
        let mut with_slash = copy_bytes(dir.bytes.as_slice());
        with_slash.push(47u8);
        assert(with_slash@ =~= dir@ + seq![slash()]);
        starts_with(self.bytes.as_slice(), with_slash.as_slice())
    }

    /// The rest of `self` after `dir/`.
    pub fn strip_dir(&self, dir: &GitPath) -> (r: GitPath)
        requires
            inside_spec(dir@, self@),
        ensures
            r@ == strip_dir_spec(dir@, self@),
    {
        let n = dir.bytes.len();
        let m = self.bytes.len();
        assert(n < m);
        GitPath { bytes: tail_from(self.bytes.as_slice(), n + 1) }
    }
}

/// The name under which a sub repository is configured.
#[derive(Debug)]
pub struct SubRepoName {
    pub name: Vec<u8>,
}

impl View for SubRepoName {
    type V = Seq<u8>;

    open spec fn view(&self) -> Seq<u8> {
        self.name@
    }
}

impl SubRepoName {
    pub fn new(name: Vec<u8>) -> (r: SubRepoName)
        ensures
            r@ == name@,
    {
        SubRepoName { name }
    }

    pub fn copy(&self) -> (r: SubRepoName)
        ensures
            r@ == self@,
    {
        SubRepoName { name: copy_bytes(self.name.as_slice()) }
    }

    pub fn same(&self, other: &SubRepoName) -> (r: bool)
        ensures
            r == (self@ == other@),
    {
        bytes_eq(self.name.as_slice(), other.name.as_slice())
    }
}

/// Which repository a commit or a path belongs to.
#[derive(Debug)]
pub enum RepoName {
    Top,
    SubRepo(SubRepoName),
}

/// The mathematical view of a `RepoName`: `None` for the top repository.
pub open spec fn repo_view(r: RepoName) -> Option<Seq<u8>> {
    match r {
        RepoName::Top => None,
        RepoName::SubRepo(n) => Some(n@),
    }
}

impl View for RepoName {
    type V = Option<Seq<u8>>;

    open spec fn view(&self) -> Option<Seq<u8>> {
        repo_view(*self)
    }
}

impl RepoName {
    pub fn copy(&self) -> (r: RepoName)
        ensures
            r@ == self@,
    {
        match self {
            RepoName::Top => RepoName::Top,
            RepoName::SubRepo(n) => RepoName::SubRepo(n.copy()),
        }
    }

    pub fn same(&self, other: &RepoName) -> (r: bool)
        ensures
            r == (self@ == other@),
    {
        match (self, other) {
            (RepoName::Top, RepoName::Top) => true,
            (RepoName::SubRepo(a), RepoName::SubRepo(b)) => a.same(b),
            _ => false,
        }
    }
}

} // verus!
