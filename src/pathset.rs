//! Sets of submodule mount paths, and how a commit's bumps change them.
use vstd::prelude::*;
use crate::path::GitPath;

verus! {

/// The set of paths held by a vector of paths.
pub open spec fn path_set(v: Seq<GitPath>) -> Set<Seq<u8>> {
    Set::new(|x: Seq<u8>| exists|k: int| 0 <= k < v.len() && (#[trigger] v[k])@ == x)
}

/// One bump applied to a set: `add` puts `p` in, otherwise it is taken out.
pub open spec fn apply_op(s: Set<Seq<u8>>, op: (Seq<u8>, bool)) -> Set<Seq<u8>> {
    if op.1 {
        s.insert(op.0)
    } else {
        s.remove(op.0)
    }
}

/// The bumps `ops` applied to `base` in order, so a later bump of a path
/// overrides an earlier one.
pub open spec fn apply_ops(base: Set<Seq<u8>>, ops: Seq<(Seq<u8>, bool)>) -> Set<Seq<u8>>
    decreases ops.len(),
{
    if ops.len() == 0 {
        base
    } else {
        apply_op(apply_ops(base, ops.drop_last()), ops.last())
    }
}

/// The last bump of `p` in `ops`, as "added" (`true`) or "removed".
pub open spec fn last_op_for(ops: Seq<(Seq<u8>, bool)>, p: Seq<u8>) -> Option<bool>
    decreases ops.len(),
{
    if ops.len() == 0 {
        None
    } else if ops.last().0 == p {
        Some(ops.last().1)
    } else {
        last_op_for(ops.drop_last(), p)
    }
}

/// A path is in the result of `apply_ops` exactly when its last bump adds it,
/// or when it has no bump and was in `base`.
pub proof fn lemma_apply_ops_member(base: Set<Seq<u8>>, ops: Seq<(Seq<u8>, bool)>, p: Seq<u8>)
    ensures
        apply_ops(base, ops).contains(p) == match last_op_for(ops, p) {
            Some(add) => add,
            None => base.contains(p),
        },
    decreases ops.len(),
{
    if ops.len() > 0 {
        lemma_apply_ops_member(base, ops.drop_last(), p);
    }
}

/// Adds (`add`) or removes `p` in the path set held by `paths`.
pub fn apply_path_op(paths: &mut Vec<GitPath>, p: &GitPath, add: bool)
    ensures
        path_set(final(paths)@) == apply_op(path_set(old(paths)@), (p@, add)),
{
    let ghost before = path_set(paths@);
    if add {
        let mut i: usize = 0;
        let mut found = false;
        while i < paths.len() && !found
            invariant
                i <= paths@.len(),
                before == path_set(paths@),
                paths@ == old(paths)@,
                found ==> before.contains(p@),
                !found ==> forall|k: int| 0 <= k < i ==> paths@[k]@ != p@,
            decreases paths@.len() - i,
        {
            if paths[i].same(p) {
                assert(paths@[i as int]@ == p@);
                found = true;
            }
            i = i + 1;
        }
        if found {
            assert(path_set(paths@) =~= before.insert(p@));
            return;
        }
        let ghost prev = paths@;
        paths.push(p.copy());
        assert(path_set(paths@) =~= before.insert(p@)) by {
            assert forall|x: Seq<u8>| path_set(paths@).contains(x) implies before.insert(p@).contains(x) by {
                let k = choose|k: int| 0 <= k < paths@.len() && (#[trigger] paths@[k])@ == x;
                if k < prev.len() {
                    assert(prev[k] == paths@[k]);
                }
            }
            assert forall|x: Seq<u8>| before.insert(p@).contains(x) implies path_set(paths@).contains(x) by {
                if x == p@ {
                    assert(paths@[prev.len() as int]@ == x);
                } else {
                    let k = choose|k: int| 0 <= k < prev.len() && (#[trigger] prev[k])@ == x;
                    assert(paths@[k] == prev[k]);
                }
            }
        }
    } else {
        let mut kept: Vec<GitPath> = Vec::new();
        let mut i: usize = 0;
        while i < paths.len()
            invariant
                i <= paths@.len(),
                before == path_set(paths@),
                paths@ == old(paths)@,
                path_set(kept@) =~= Set::new(
                    |x: Seq<u8>|
                        x != p@ && exists|k: int| 0 <= k < i && (#[trigger] paths@[k])@ == x,
                ),
            decreases paths@.len() - i,
        {
            let ghost prev = kept@;
            if !paths[i].same(p) {
                kept.push(paths[i].copy());
            }
            i = i + 1;
            assert(path_set(kept@) =~= Set::new(
                |x: Seq<u8>| x != p@ && exists|k: int| 0 <= k < i && (#[trigger] paths@[k])@ == x,
            )) by {
                assert forall|x: Seq<u8>| path_set(kept@).contains(x) implies x != p@ && exists|k: int|
                    0 <= k < i && (#[trigger] paths@[k])@ == x by {
                    let k = choose|k: int| 0 <= k < kept@.len() && (#[trigger] kept@[k])@ == x;
                    if k < prev.len() {
                        assert(prev[k] == kept@[k]);
                        assert(path_set(prev).contains(x));
                    } else {
                        assert(paths@[i - 1]@ == x);
                    }
                }
                assert forall|x: Seq<u8>|
                    x != p@ && (exists|k: int| 0 <= k < i && (#[trigger] paths@[k])@ == x) implies path_set(
                    kept@,
                ).contains(x) by {
                    let k = choose|k: int| 0 <= k < i && (#[trigger] paths@[k])@ == x;
                    if k < i - 1 {
                        assert(path_set(prev).contains(x));
                        let j = choose|j: int| 0 <= j < prev.len() && (#[trigger] prev[j])@ == x;
                        assert(kept@[j] == prev[j]);
                    } else {
                        assert(kept@[kept@.len() - 1]@ == x);
                    }
                }
            }
        }
        assert(path_set(kept@) =~= before.remove(p@));
        *paths = kept;
    }
}

} // verus!
