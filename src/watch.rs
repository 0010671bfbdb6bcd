use vstd::prelude::*;

use crate::content_guard::{is_recognized_path, path_is_recognized};
use crate::path_guard::views;

verus! {

/// The kind of a raw filesystem event.
#[derive(Debug, Clone, Copy, PartialEq, Eq)]
pub enum ChangeKind {
    Create,
    Remove,
    Modify,
    Access,
    Other,
}

/// Events that change what a directory holds.
pub open spec fn is_change(k: ChangeKind) -> bool {
    k is Create || k is Remove || k is Modify
}

/// The recognized paths among the first `i` of `ps`, in order.
pub open spec fn recognized_upto(ps: Seq<Seq<char>>, i: int) -> Seq<Seq<char>>
    decreases i,
{
    if i <= 0 || i > ps.len() {
        Seq::empty()
    } else if path_is_recognized(ps[i - 1]) {
        recognized_upto(ps, i - 1).push(ps[i - 1])
    } else {
        recognized_upto(ps, i - 1)
    }
}

/// The paths to notify for one raw event: for a create, remove or modify
/// event, each of its paths that names a recognized file, in order; for any
/// other event, none.
pub fn change_events(kind: ChangeKind, paths: &Vec<String>) -> (r: Vec<String>)
    ensures
        !is_change(kind) ==> r@.len() == 0,
        is_change(kind) ==> views(r@) == recognized_upto(views(paths@), paths@.len() as int),
{
    let mut out: Vec<String> = Vec::new();
    match kind {
        ChangeKind::Access | ChangeKind::Other => {
            return out;
        },
        _ => {},
    }
    let mut i: usize = 0;
    assert(views(out@) =~= Seq::<Seq<char>>::empty());
    while i < paths.len()
        invariant
            i <= paths@.len(),
            views(out@) == recognized_upto(views(paths@), i as int),
        decreases paths.len() - i,
    {
        let ghost before = out@;
        assert(views(paths@)[i as int] == paths@[i as int]@);
        if is_recognized_path(paths[i].as_str()) {
            out.push(paths[i].clone());
            assert(views(out@) =~= views(before).push(paths@[i as int]@));
        }
        i = i + 1;
    }
    out
}

/// One created, removed or modified path yields exactly one notification,
/// for that path, when it names a recognized file, and none otherwise.
pub proof fn lemma_single_path_event(kind: ChangeKind, p: Seq<char>)
    requires
        is_change(kind),
    ensures
        path_is_recognized(p) ==> recognized_upto(seq![p], 1) == seq![p],
        !path_is_recognized(p) ==> recognized_upto(seq![p], 1) == Seq::<Seq<char>>::empty(),
{
    assert(recognized_upto(seq![p], 0) == Seq::<Seq<char>>::empty());
    assert(Seq::<Seq<char>>::empty().push(p) =~= seq![p]);
}

} // verus!
