//! The edit-action model: an ordered collection of (path expression, change
//! descriptor) pairs, together with the specification of which path
//! identities an action touches from a given working directory.
//!
//! The action value is produced by an external parser and consumed here
//! read-only; an update descriptor may carry a destination path for a
//! rename/move, which counts as touched too.

use vstd::prelude::*;

use crate::paths::PathExpr;
use crate::paths::normalize_spec;

verus! {

/// What an edit action does to one target path.
pub enum FileChange {
    /// The file is created.
    Create,
    /// The file is deleted.
    Delete,
    /// The file's contents are changed; with a destination path, the file is
    /// also renamed/moved there.
    Update { move_path: Option<PathExpr> },
}

/// One (target path expression, change descriptor) pair of an edit action.
pub struct ChangeEntry {
    /// The path expression the change targets.
    pub path: PathExpr,
    /// What happens at that path.
    pub change: FileChange,
}

/// A parsed edit action: the ordered changes it describes.
pub struct EditAction {
    /// The action's changes, in order.
    pub changes: Vec<ChangeEntry>,
}

/// The move destination a change carries, if any.
pub open spec fn change_dest(c: FileChange) -> Option<PathExpr> {
    match c {
        FileChange::Update { move_path } => move_path,
        _ => None,
    }
}

/// The path identities one change entry touches from working directory `cwd`:
/// its target, and for an update with a move destination that destination too.
pub open spec fn entry_touched(e: ChangeEntry, cwd: PathExpr) -> Set<Seq<Seq<char>>> {
    match change_dest(e.change) {
        Some(d) => set![normalize_spec(cwd, e.path), normalize_spec(cwd, d)],
        None => set![normalize_spec(cwd, e.path)],
    }
}

/// The path identities touched by the first `n` entries of `a`.
pub open spec fn touched_upto(a: EditAction, cwd: PathExpr, n: int) -> Set<Seq<Seq<char>>> {
    Set::new(
        |k: Seq<Seq<char>>|
            exists|i: int|
                0 <= i < n && i < a.changes@.len() && entry_touched(a.changes@[i], cwd).contains(k),
    )
}

/// The path identities an action touches from working directory `cwd`.
pub open spec fn touched_paths(a: EditAction, cwd: PathExpr) -> Set<Seq<Seq<char>>> {
    touched_upto(a, cwd, a.changes@.len() as int)
}

/// No entry means nothing touched.
pub proof fn lemma_touched_upto_zero(a: EditAction, cwd: PathExpr)
    ensures
        touched_upto(a, cwd, 0) == Set::<Seq<Seq<char>>>::empty(),
{
    assert(touched_upto(a, cwd, 0) =~= Set::<Seq<Seq<char>>>::empty());
}

/// Taking one more entry adds exactly that entry's touched identities.
pub proof fn lemma_touched_upto_step(a: EditAction, cwd: PathExpr, n: int)
    requires
        0 <= n < a.changes@.len(),
    ensures
        touched_upto(a, cwd, n + 1) == touched_upto(a, cwd, n) + entry_touched(
            a.changes@[n],
            cwd,
        ),
{
    let upper = touched_upto(a, cwd, n + 1);
    let lower = touched_upto(a, cwd, n) + entry_touched(a.changes@[n], cwd);
    assert forall|k: Seq<Seq<char>>| upper.contains(k) implies lower.contains(k) by {
        let i = choose|i: int|
            0 <= i < n + 1 && i < a.changes@.len() && entry_touched(a.changes@[i], cwd).contains(k);
        if i < n {
            assert(touched_upto(a, cwd, n).contains(k));
        } else {
            assert(entry_touched(a.changes@[n], cwd).contains(k));
        }
    }
    assert forall|k: Seq<Seq<char>>| lower.contains(k) implies upper.contains(k) by {
        if touched_upto(a, cwd, n).contains(k) {
            let i = choose|i: int|
                0 <= i < n && i < a.changes@.len() && entry_touched(a.changes@[i], cwd).contains(k);
            assert(0 <= i < n + 1 && i < a.changes@.len() && entry_touched(
                a.changes@[i],
                cwd,
            ).contains(k));
        } else {
            assert(0 <= n < n + 1 && n < a.changes@.len() && entry_touched(
                a.changes@[n],
                cwd,
            ).contains(k));
        }
    }
    assert(upper =~= lower);
}

/// Each entry's touched identities are among the whole action's.
pub proof fn lemma_entry_touched_in_touched_paths(a: EditAction, cwd: PathExpr, n: int)
    requires
        0 <= n < a.changes@.len(),
    ensures
        entry_touched(a.changes@[n], cwd).subset_of(touched_paths(a, cwd)),
{
    assert forall|k: Seq<Seq<char>>|
        entry_touched(a.changes@[n], cwd).contains(k) implies touched_paths(a, cwd).contains(
        k,
    ) by {
        assert(0 <= n < a.changes@.len() && entry_touched(a.changes@[n], cwd).contains(k));
    }
}

} // verus!
