//! Reconciling the `refs/remotes/origin/` view with the tips fetched into
//! the top repository's namespace `refs/namespaces/top/`.
use vstd::prelude::*;
use crate::bytes::{bytes_eq, concat, copy_bytes, is_prefix, starts_with, tail_from};
use crate::ids::ObjectId;

verus! {

/// What a ref points to.
#[derive(Debug)]
pub enum RefTarget {
    Object(ObjectId),
    Symbolic(Vec<u8>),
}

/// The mathematical view of a `RefTarget`.
pub enum TargetView {
    Object(ObjectId),
    Symbolic(Seq<u8>),
}

pub open spec fn target_view(t: RefTarget) -> TargetView {
    match t {
        RefTarget::Object(id) => TargetView::Object(id),
        RefTarget::Symbolic(n) => TargetView::Symbolic(n@),
    }
}

/// What a ref must hold for an edit to apply.
#[derive(Debug)]
pub enum PreviousValue {
    MustNotExist,
    MustExistAndMatch(RefTarget),
}

/// One change of a ref transaction.
#[derive(Debug)]
pub enum RefEdit {
    Update { name: Vec<u8>, expected: PreviousValue, new: RefTarget },
    Delete { name: Vec<u8>, previous: RefTarget },
}

/// The mathematical view of a `RefEdit`; `None` as expected value means that
/// the ref must not exist.
pub enum EditView {
    Update(Seq<u8>, Option<TargetView>, TargetView),
    Delete(Seq<u8>, TargetView),
}

pub open spec fn edit_view(e: RefEdit) -> EditView {
    match e {
        RefEdit::Update { name, expected, new } => EditView::Update(
            name@,
            match expected {
                PreviousValue::MustNotExist => None,
                PreviousValue::MustExistAndMatch(t) => Some(target_view(t)),
            },
            target_view(new),
        ),
        RefEdit::Delete { name, previous } => EditView::Delete(name@, target_view(previous)),
    }
}

pub open spec fn top_namespace() -> Seq<u8> {
    seq![114u8, 101u8, 102u8, 115u8, 47u8, 110u8, 97u8, 109u8, 101u8, 115u8, 112u8, 97u8, 99u8, 101u8, 115u8, 47u8, 116u8, 111u8, 112u8, 47u8]
}

pub open spec fn origin_prefix() -> Seq<u8> {
    seq![114u8, 101u8, 102u8, 115u8, 47u8, 114u8, 101u8, 109u8, 111u8, 116u8, 101u8, 115u8, 47u8, 111u8, 114u8, 105u8, 103u8, 105u8, 110u8, 47u8]
}

pub open spec fn heads_prefix() -> Seq<u8> {
    seq![114u8, 101u8, 102u8, 115u8, 47u8, 104u8, 101u8, 97u8, 100u8, 115u8, 47u8]
}

pub open spec fn tags_prefix() -> Seq<u8> {
    seq![114u8, 101u8, 102u8, 115u8, 47u8, 116u8, 97u8, 103u8, 115u8, 47u8]
}

pub open spec fn head_name() -> Seq<u8> {
    seq![72u8, 69u8, 65u8, 68u8]
}

/// The origin ref that a ref of the top namespace is shown as:
/// `refs/namespaces/top/HEAD` as `refs/remotes/origin/HEAD`, a branch
/// `refs/namespaces/top/refs/heads/b` as `refs/remotes/origin/b` and a tag
/// `refs/namespaces/top/refs/tags/t` as `refs/tags/t`. Other refs have none.
pub open spec fn output_ref(name: Seq<u8>) -> Option<Seq<u8>> {
    if !is_prefix(top_namespace(), name) {
        None
    } else {
        let rest = name.subrange(top_namespace().len() as int, name.len() as int);
        if rest == head_name() {
            Some(origin_prefix() + head_name())
        } else if is_prefix(heads_prefix(), rest) {
            Some(origin_prefix() + rest.subrange(heads_prefix().len() as int, rest.len() as int))
        } else if is_prefix(tags_prefix(), rest) {
            Some(rest)
        } else {
            None
        }
    }
}

/// Maps a ref of the top namespace to the origin ref it is shown as.
pub fn input_ref_to_output_ref(name: &[u8]) -> (r: Option<Vec<u8>>)
    ensures
        match r {
            Some(v) => output_ref(name@) == Some(v@),
            None => output_ref(name@) is None,
        },
{
    let top: Vec<u8> = vec![114u8, 101u8, 102u8, 115u8, 47u8, 110u8, 97u8, 109u8, 101u8, 115u8, 112u8, 97u8, 99u8, 101u8, 115u8, 47u8, 116u8, 111u8, 112u8, 47u8];
    let origin: Vec<u8> = vec![114u8, 101u8, 102u8, 115u8, 47u8, 114u8, 101u8, 109u8, 111u8, 116u8, 101u8, 115u8, 47u8, 111u8, 114u8, 105u8, 103u8, 105u8, 110u8, 47u8];
    let heads: Vec<u8> = vec![114u8, 101u8, 102u8, 115u8, 47u8, 104u8, 101u8, 97u8, 100u8, 115u8, 47u8];
    let tags: Vec<u8> = vec![114u8, 101u8, 102u8, 115u8, 47u8, 116u8, 97u8, 103u8, 115u8, 47u8];
    let head: Vec<u8> = vec![72u8, 69u8, 65u8, 68u8];
    assert(top@ =~= top_namespace());
    assert(origin@ =~= origin_prefix());
    assert(heads@ =~= heads_prefix());
    assert(tags@ =~= tags_prefix());
    assert(head@ =~= head_name());
    if !starts_with(name, top.as_slice()) {
        return None;
    }
    let rest = tail_from(name, top.len());
    if bytes_eq(rest.as_slice(), head.as_slice()) {
        Some(concat(origin.as_slice(), head.as_slice()))
    } else if starts_with(rest.as_slice(), heads.as_slice()) {
        let branch = tail_from(rest.as_slice(), heads.len());
        Some(concat(origin.as_slice(), branch.as_slice()))
    } else if starts_with(rest.as_slice(), tags.as_slice()) {
        Some(rest)
    } else {
        None
    }
}


impl RefTarget {
    pub fn copy(&self) -> (r: RefTarget)
        ensures
            target_view(r) == target_view(*self),
    {
        match self {
            RefTarget::Object(id) => RefTarget::Object(*id),
            RefTarget::Symbolic(n) => RefTarget::Symbolic(copy_bytes(n.as_slice())),
        }
    }

    pub fn same(&self, other: &RefTarget) -> (r: bool)
        ensures
            r == (target_view(*self) == target_view(*other)),
    {
        match (self, other) {
            (RefTarget::Object(a), RefTarget::Object(b)) => a == b,
            (RefTarget::Symbolic(a), RefTarget::Symbolic(b)) => bytes_eq(a.as_slice(), b.as_slice()),
            _ => false,
        }
    }
}

/// Why the refs could not be reconciled.
#[derive(Debug, PartialEq, Eq, Structural, Clone, Copy)]
pub enum RefError {
    /// A symbolic tip of the top namespace has a name that no origin ref
    /// corresponds to.
    OutsideTopNamespace,
}

/// The target of the first ref named `name` among `olds`.
pub open spec fn lookup_old(olds: Seq<(Vec<u8>, RefTarget)>, name: Seq<u8>) -> Option<TargetView>
    decreases olds.len(),
{
    if olds.len() == 0 {
        None
    } else if olds[0].0@ == name {
        Some(target_view(olds[0].1))
    } else {
        lookup_old(olds.drop_first(), name)
    }
}

/// The updates of symbolic origin refs for the symbolic tips `tips` (link,
/// target): a tip whose target lies outside the top namespace is skipped,
/// and a ref that already has the right target is left alone.
pub open spec fn symbolic_edits(tips: Seq<(Vec<u8>, Vec<u8>)>, olds: Seq<(Vec<u8>, RefTarget)>) -> Seq<EditView>
    decreases tips.len(),
{
    if tips.len() == 0 {
        Seq::empty()
    } else {
        let rest = symbolic_edits(tips.drop_last(), olds);
        match (output_ref(tips.last().0@), output_ref(tips.last().1@)) {
            (Some(link), Some(target)) => {
                let old = lookup_old(olds, link);
                if old == Some(TargetView::Symbolic(target)) {
                    rest
                } else {
                    rest.push(EditView::Update(link, old, TargetView::Symbolic(target)))
                }
            },
            _ => rest,
        }
    }
}

/// The deletions of the origin refs that no tip corresponds to any more.
pub open spec fn deletions(olds: Seq<(Vec<u8>, RefTarget)>, new_names: Seq<Vec<u8>>) -> Seq<EditView>
    decreases olds.len(),
{
    if olds.len() == 0 {
        Seq::empty()
    } else {
        let rest = deletions(olds.drop_last(), new_names);
        if exists|j: int| 0 <= j < new_names.len() && new_names[j]@ == olds.last().0@ {
            rest
        } else {
            rest.push(EditView::Delete(olds.last().0@, target_view(olds.last().1)))
        }
    }
}

fn lookup_old_exec<'a>(olds: &'a Vec<(Vec<u8>, RefTarget)>, name: &[u8]) -> (r: Option<&'a RefTarget>)
    ensures
        match r {
            Some(t) => lookup_old(olds@, name@) == Some(target_view(*t)),
            None => lookup_old(olds@, name@) is None,
        },
{
    let mut k: usize = 0;
    assert(olds@.subrange(0, olds@.len() as int) =~= olds@);
    while k < olds.len()
        invariant
            k <= olds@.len(),
            lookup_old(olds@, name@) == lookup_old(olds@.subrange(k as int, olds@.len() as int), name@),
        decreases olds@.len() - k,
    {
        let ghost sub = olds@.subrange(k as int, olds@.len() as int);
        assert(sub[0] == olds@[k as int]);
        assert(sub.drop_first() =~= olds@.subrange(k + 1, olds@.len() as int));
        if bytes_eq(olds[k].0.as_slice(), name) {
            return Some(&olds[k].1);
        }
        k = k + 1;
    }
    None
}

fn contains_name(names: &Vec<Vec<u8>>, name: &[u8]) -> (r: bool)
    ensures
        r == exists|j: int| 0 <= j < names@.len() && names@[j]@ == name@,
{
    let mut k: usize = 0;
    while k < names.len()
        invariant
            k <= names@.len(),
            forall|j: int| 0 <= j < k ==> names@[j]@ != name@,
        decreases names@.len() - k,
    {
        if bytes_eq(names[k].as_slice(), name) {
            return true;
        }
        k = k + 1;
    }
    false
}

/// The ref transaction that brings `refs/remotes/origin/*` in line with the
/// top namespace: updates of the symbolic refs, then deletions of the origin
/// refs in `olds` whose name is not among `new_names`. Each edit expects the
/// ref's current value.
pub fn plan_ref_updates(
    tips: &Vec<(Vec<u8>, Vec<u8>)>,
    olds: &Vec<(Vec<u8>, RefTarget)>,
    new_names: &Vec<Vec<u8>>,
) -> (r: Result<Vec<RefEdit>, RefError>)
    ensures
        r is Err <==> exists|k: int| 0 <= k < tips@.len() && output_ref((#[trigger] tips@[k]).0@) is None,
        r is Ok ==> r->Ok_0@.map_values(|e: RefEdit| edit_view(e)) == symbolic_edits(tips@, olds@)
            + deletions(olds@, new_names@),
{
    let mut edits: Vec<RefEdit> = Vec::new();
    let mut k: usize = 0;
    while k < tips.len()
        invariant
            k <= tips@.len(),
            forall|j: int| 0 <= j < k ==> output_ref((#[trigger] tips@[j]).0@) is Some,
            edits@.map_values(|e: RefEdit| edit_view(e)) == symbolic_edits(tips@.subrange(0, k as int), olds@),
        decreases tips@.len() - k,
    {
        let ghost sub = tips@.subrange(0, k + 1);
        assert(sub.drop_last() =~= tips@.subrange(0, k as int));
        assert(sub.last() == tips@[k as int]);
        let link = match input_ref_to_output_ref(tips[k].0.as_slice()) {
            Some(l) => l,
            None => {
                return Err(RefError::OutsideTopNamespace);
            },
        };
        if let Some(target) = input_ref_to_output_ref(tips[k].1.as_slice()) {
            let new = RefTarget::Symbolic(target);
            let old = lookup_old_exec(olds, link.as_slice());
            let unchanged = match old {
                Some(t) => t.same(&new),
                None => false,
            };
            if !unchanged {
                let expected = match old {
                    Some(t) => PreviousValue::MustExistAndMatch(t.copy()),
                    None => PreviousValue::MustNotExist,
                };
                let ghost before = edits@;
                let e = RefEdit::Update { name: link, expected, new };
                edits.push(e);
                assert(edits@.map_values(|e: RefEdit| edit_view(e)) =~= before.map_values(
                    |e: RefEdit| edit_view(e),
                ).push(edit_view(e)));
            }
        }
        k = k + 1;
    }
    assert(tips@.subrange(0, tips@.len() as int) =~= tips@);
    let ghost sym = edits@.map_values(|e: RefEdit| edit_view(e));
    let mut k: usize = 0;
    while k < olds.len()
        invariant
            k <= olds@.len(),
            sym == symbolic_edits(tips@, olds@),
            edits@.map_values(|e: RefEdit| edit_view(e)) == sym + deletions(olds@.subrange(0, k as int), new_names@),
        decreases olds@.len() - k,
    {
        let ghost sub = olds@.subrange(0, k + 1);
        assert(sub.drop_last() =~= olds@.subrange(0, k as int));
        assert(sub.last() == olds@[k as int]);
        if !contains_name(new_names, olds[k].0.as_slice()) {
            let ghost before = edits@;
            let e = RefEdit::Delete { name: copy_bytes(olds[k].0.as_slice()), previous: olds[k].1.copy() };
            edits.push(e);
            assert(edits@.map_values(|e: RefEdit| edit_view(e)) =~= before.map_values(
                |e: RefEdit| edit_view(e),
            ).push(edit_view(e)));
            assert(sym + deletions(olds@.subrange(0, k + 1), new_names@) =~= (sym + deletions(olds@.subrange(0, k as int), new_names@)).push(edit_view(e)));
        }
        k = k + 1;
    }
    assert(olds@.subrange(0, olds@.len() as int) =~= olds@);
    Ok(edits)
}

} // verus!
