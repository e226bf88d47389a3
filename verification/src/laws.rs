//! The guarantees of the approval tracker, stated and proved over the same
//! spec functions that the executable functions' contracts use: the store's
//! view (a set of approved identities), `normalize_spec` and `touched_paths`.

use vstd::prelude::*;

use crate::action::EditAction;
use crate::action::change_dest;
use crate::action::entry_touched;
use crate::action::lemma_entry_touched_in_touched_paths;
use crate::action::touched_paths;
use crate::paths::PathExpr;
use crate::paths::collapse;
use crate::paths::cur_dir_seg;
use crate::paths::lemma_collapse_is_collapsed;
use crate::paths::normalize_spec;
use crate::paths::parent_dir_seg;
use crate::paths::resolved_segs;

verus! {

/// Collapsing segments that hold no `.` or `..` changes nothing.
pub proof fn lemma_collapse_clean_identity(segs: Seq<Seq<char>>)
    requires
        forall|i: int| 0 <= i < segs.len() ==> segs[i] != cur_dir_seg() && segs[i]
            != parent_dir_seg(),
    ensures
        collapse(segs) == segs,
    decreases segs.len(),
{
    if segs.len() == 0 {
        assert(collapse(segs) =~= segs);
    } else {
        assert forall|i: int|
            0 <= i < segs.drop_last().len() implies segs.drop_last()[i] != cur_dir_seg()
            && segs.drop_last()[i] != parent_dir_seg() by {
            assert(segs.drop_last()[i] == segs[i]);
        }
        lemma_collapse_clean_identity(segs.drop_last());
        assert(collapse(segs) =~= segs);
    }
}

/// Law (idempotence of normalization): collapsing is idempotent, so two
/// expressions denote the same identity exactly when they collapse to the
/// same segments, and a collapsed path collapses to itself.
pub proof fn lemma_collapse_idempotent(segs: Seq<Seq<char>>)
    ensures
        collapse(collapse(segs)) == collapse(segs),
{
    lemma_collapse_is_collapsed(segs);
    lemma_collapse_clean_identity(collapse(segs));
}

/// Law (idempotence of normalization): an absolute expression that already
/// holds the identity `p` normalizes to from `cwd` normalizes to that same
/// identity again.
pub proof fn lemma_normalize_idempotent(cwd: PathExpr, p: PathExpr, q: PathExpr)
    requires
        q.absolute,
        q.segs() == normalize_spec(cwd, p),
    ensures
        normalize_spec(cwd, q) == normalize_spec(cwd, p),
{
    lemma_collapse_idempotent(resolved_segs(cwd, p));
}

/// Collapsing a concatenation depends on the left part only through its
/// collapsed form.
pub proof fn lemma_collapse_append(a1: Seq<Seq<char>>, a2: Seq<Seq<char>>, b: Seq<Seq<char>>)
    requires
        collapse(a1) == collapse(a2),
    ensures
        collapse(a1 + b) == collapse(a2 + b),
    decreases b.len(),
{
    if b.len() == 0 {
        assert(a1 + b =~= a1);
        assert(a2 + b =~= a2);
    } else {
        lemma_collapse_append(a1, a2, b.drop_last());
        assert((a1 + b).drop_last() =~= a1 + b.drop_last());
        assert((a2 + b).drop_last() =~= a2 + b.drop_last());
        assert((a1 + b).last() == b.last());
        assert((a2 + b).last() == b.last());
    }
}

/// Law (equivalent working directories): two absolute working directories
/// that collapse to the same segments give every path expression the same
/// identity key.
pub proof fn lemma_normalize_equivalent_cwd(cwd1: PathExpr, cwd2: PathExpr, p: PathExpr)
    requires
        cwd1.absolute,
        cwd2.absolute,
        collapse(cwd1.segs()) == collapse(cwd2.segs()),
    ensures
        normalize_spec(cwd1, p) == normalize_spec(cwd2, p),
{
    if !p.absolute {
        lemma_collapse_append(cwd1.segs(), cwd2.segs(), p.segs());
    }
}

/// Law (equivalent working directories): an action touches the same
/// identities from two working directories that collapse to the same
/// segments, so approvals recorded against one hold against the other.
pub proof fn lemma_touched_equivalent_cwd(a: EditAction, cwd1: PathExpr, cwd2: PathExpr)
    requires
        cwd1.absolute,
        cwd2.absolute,
        collapse(cwd1.segs()) == collapse(cwd2.segs()),
    ensures
        touched_paths(a, cwd1) == touched_paths(a, cwd2),
{
    assert forall|i: int| 0 <= i < a.changes@.len() implies entry_touched(a.changes@[i], cwd1)
        == entry_touched(a.changes@[i], cwd2) by {
        let e = a.changes@[i];
        lemma_normalize_equivalent_cwd(cwd1, cwd2, e.path);
        match change_dest(e.change) {
            Some(d) => {
                lemma_normalize_equivalent_cwd(cwd1, cwd2, d);
            },
            None => {},
        }
    }
    assert forall|k: Seq<Seq<char>>|
        touched_paths(a, cwd1).contains(k) <==> touched_paths(a, cwd2).contains(k) by {
        if touched_paths(a, cwd1).contains(k) {
            let i = choose|i: int|
                0 <= i < a.changes@.len() && entry_touched(a.changes@[i], cwd1).contains(k);
            assert(entry_touched(a.changes@[i], cwd2).contains(k));
        }
        if touched_paths(a, cwd2).contains(k) {
            let i = choose|i: int|
                0 <= i < a.changes@.len() && entry_touched(a.changes@[i], cwd2).contains(k);
            assert(entry_touched(a.changes@[i], cwd1).contains(k));
        }
    }
    assert(touched_paths(a, cwd1) =~= touched_paths(a, cwd2));
}

/// Law (recording is idempotent): re-recording an already recorded action
/// leaves the approval set as it was.
pub proof fn lemma_record_idempotent(approved: Set<Seq<Seq<char>>>, a: EditAction, cwd: PathExpr)
    ensures
        (approved + touched_paths(a, cwd)) + touched_paths(a, cwd) == approved + touched_paths(
            a,
            cwd,
        ),
{
    assert((approved + touched_paths(a, cwd)) + touched_paths(a, cwd) =~= approved + touched_paths(
        a,
        cwd,
    ));
}

/// Law (recording approves): immediately after an action's touched paths are
/// recorded, that same action tests as approved.
pub proof fn lemma_record_approves(approved: Set<Seq<Seq<char>>>, a: EditAction, cwd: PathExpr)
    ensures
        touched_paths(a, cwd).subset_of(approved + touched_paths(a, cwd)),
{
}

/// Law (monotonicity): once an action tests as approved, recording any
/// further action — from any working directory — keeps it approved; no
/// operation ever makes a previously-true test false.
pub proof fn lemma_approval_monotonic(
    approved: Set<Seq<Seq<char>>>,
    a: EditAction,
    a_cwd: PathExpr,
    b: EditAction,
    b_cwd: PathExpr,
)
    requires
        touched_paths(a, a_cwd).subset_of(approved),
    ensures
        touched_paths(a, a_cwd).subset_of(approved + touched_paths(b, b_cwd)),
{
}

/// Law (all-or-nothing): if even one entry's target is unapproved, the whole
/// action tests as unapproved, whatever else is approved.
pub proof fn lemma_all_or_nothing(
    approved: Set<Seq<Seq<char>>>,
    a: EditAction,
    cwd: PathExpr,
    i: int,
)
    requires
        0 <= i < a.changes@.len(),
        !approved.contains(normalize_spec(cwd, a.changes@[i].path)),
    ensures
        !touched_paths(a, cwd).subset_of(approved),
{
    let key = normalize_spec(cwd, a.changes@[i].path);
    lemma_entry_touched_in_touched_paths(a, cwd, i);
    assert(entry_touched(a.changes@[i], cwd).contains(key));
    if touched_paths(a, cwd).subset_of(approved) {
        assert(approved.contains(key));
    }
}

/// Law (sub-actions are approved): recording an action approves every action
/// whose touched paths are among the recorded action's touched paths.
pub proof fn lemma_subaction_approved(
    approved: Set<Seq<Seq<char>>>,
    a_full: EditAction,
    a_sub: EditAction,
    cwd: PathExpr,
)
    requires
        touched_paths(a_sub, cwd).subset_of(touched_paths(a_full, cwd)),
    ensures
        touched_paths(a_sub, cwd).subset_of(approved + touched_paths(a_full, cwd)),
{
}

/// Law (update destinations count as touched): an update's move destination
/// is among the action's touched paths, so while the destination is
/// unapproved the action tests as unapproved.
pub proof fn lemma_update_destination_gates(
    approved: Set<Seq<Seq<char>>>,
    a: EditAction,
    cwd: PathExpr,
    i: int,
    d: PathExpr,
)
    requires
        0 <= i < a.changes@.len(),
        change_dest(a.changes@[i].change) == Some(d),
        !approved.contains(normalize_spec(cwd, d)),
    ensures
        touched_paths(a, cwd).contains(normalize_spec(cwd, d)),
        !touched_paths(a, cwd).subset_of(approved),
{
    let key = normalize_spec(cwd, d);
    lemma_entry_touched_in_touched_paths(a, cwd, i);
    assert(entry_touched(a.changes@[i], cwd).contains(key));
    if touched_paths(a, cwd).subset_of(approved) {
        assert(approved.contains(key));
    }
}

/// Law (no cross-path leakage): recording an action approves exactly its own
/// touched identities — any identity neither approved before nor touched by
/// the action is still unapproved afterwards.
pub proof fn lemma_no_cross_path_leakage(
    approved: Set<Seq<Seq<char>>>,
    a: EditAction,
    cwd: PathExpr,
    k: Seq<Seq<char>>,
)
    requires
        !approved.contains(k),
        !touched_paths(a, cwd).contains(k),
    ensures
        !(approved + touched_paths(a, cwd)).contains(k),
{
}

} // verus!
