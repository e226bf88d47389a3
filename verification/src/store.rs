//! The approval set: the session's only persistent state.
//!
//! The store remembers the normalized identity of every path the user has
//! approved for modification. It grows monotonically — there is no
//! revocation — and approval is tested all-or-nothing per edit action.

use vstd::prelude::*;

use crate::action::EditAction;
use crate::action::FileChange;
use crate::action::entry_touched;
use crate::action::lemma_entry_touched_in_touched_paths;
use crate::action::lemma_touched_upto_step;
use crate::action::lemma_touched_upto_zero;
use crate::action::touched_paths;
use crate::action::touched_upto;
use crate::paths::NormalizedPath;
use crate::paths::PathExpr;
use crate::paths::resolve_and_normalize;

verus! {

/// The session-scoped set of approved path identities.
pub struct PatchApprovalStore {
    approved_paths: Vec<NormalizedPath>,
}

impl View for PatchApprovalStore {
    type V = Set<Seq<Seq<char>>>;

    closed spec fn view(&self) -> Set<Seq<Seq<char>>> {
        Set::new(
            |k: Seq<Seq<char>>|
                exists|i: int|
                    0 <= i < self.approved_paths@.len() && #[trigger] self.approved_paths@[i]@
                        == k,
        )
    }
}

impl PatchApprovalStore {
    /// An empty store: no path is approved yet.
    pub fn new() -> (r: Self)
        ensures
            r@ == Set::<Seq<Seq<char>>>::empty(),
    {
        let r = PatchApprovalStore { approved_paths: Vec::new() };
        proof {
            assert(r@ =~= Set::<Seq<Seq<char>>>::empty());
        }
        r
    }

    fn contains_normalized(&self, p: &NormalizedPath) -> (r: bool)
        ensures
            r == self@.contains(p@),
    {
        let mut i: usize = 0;
        while i < self.approved_paths.len()
            invariant
                i <= self.approved_paths@.len(),
                forall|j: int| 0 <= j < i ==> #[trigger] self.approved_paths@[j]@ != p@,
            decreases self.approved_paths@.len() - i,
        {
            if self.approved_paths[i].same_identity(p) {
                proof {
                    assert(self.approved_paths@[i as int]@ == p@);
                }
                return true;
            }
            i = i + 1;
        }
        proof {
            assert(!self@.contains(p@)) by {
                if self@.contains(p@) {
                    let j = choose|j: int|
                        0 <= j < self.approved_paths@.len() && #[trigger] self.approved_paths@[j]@
                            == p@;
                    assert(self.approved_paths@[j]@ != p@);
                }
            }
        }
        false
    }

    fn insert_normalized(&mut self, p: NormalizedPath)
        ensures
            final(self)@ == old(self)@.insert(p@),
    {
        if self.contains_normalized(&p) {
            proof {
                assert(self@ =~= old(self)@.insert(p@));
            }
        } else {
            self.approved_paths.push(p);
            proof {
                let prev = old(self).approved_paths@;
                assert forall|k: Seq<Seq<char>>| self@.contains(k) implies old(self)@.insert(
                    p@,
                ).contains(k) by {
                    let i = choose|i: int|
                        0 <= i < self.approved_paths@.len() && #[trigger] self.approved_paths@[i]@
                            == k;
                    if i < prev.len() {
                        assert(prev[i]@ == k);
                    }
                }
                assert forall|k: Seq<Seq<char>>|
                    old(self)@.insert(p@).contains(k) implies self@.contains(k) by {
                    if old(self)@.contains(k) {
                        let i = choose|i: int|
                            0 <= i < prev.len() && #[trigger] prev[i]@ == k;
                        assert(self.approved_paths@[i]@ == k);
                    } else {
                        assert(self.approved_paths@[prev.len() as int]@ == k);
                    }
                }
                assert(self@ =~= old(self)@.insert(p@));
            }
        }
    }

    /// Record approval for every path the action touches — each target, and
    /// each update's move destination — normalized against `cwd`.
    pub fn approve_action(&mut self, action: &EditAction, cwd: &PathExpr)
        requires
            cwd.absolute,
        ensures
            final(self)@ == old(self)@ + touched_paths(*action, *cwd),
    {
        proof {
            lemma_touched_upto_zero(*action, *cwd);
            assert(self@ =~= old(self)@ + touched_upto(*action, *cwd, 0));
        }
        let mut i: usize = 0;
        while i < action.changes.len()
            invariant
                cwd.absolute,
                i <= action.changes@.len(),
                self@ == old(self)@ + touched_upto(*action, *cwd, i as int),
            decreases action.changes@.len() - i,
        {
            let entry = &action.changes[i];
            let ghost at_entry = self@;
            let n = resolve_and_normalize(cwd, &entry.path);
            self.insert_normalized(n);
            match &entry.change {
                FileChange::Update { move_path } => {
                    match move_path {
                        Some(dest) => {
                            let nd = resolve_and_normalize(cwd, dest);
                            self.insert_normalized(nd);
                        },
                        None => {},
                    }
                },
                _ => {},
            }
            proof {
                assert(self@ =~= at_entry + entry_touched(action.changes@[i as int], *cwd));
                lemma_touched_upto_step(*action, *cwd, i as int);
                assert(self@ =~= old(self)@ + touched_upto(*action, *cwd, i + 1));
            }
            i = i + 1;
        }
        proof {
            assert(touched_upto(*action, *cwd, action.changes@.len() as int) == touched_paths(
                *action,
                *cwd,
            ));
        }
    }

    /// Test whether every path the action touches — each target, and each
    /// update's move destination — is already approved. Approval is
    /// all-or-nothing: one unapproved path makes the whole action unapproved.
    /// Testing never changes the store.
    pub fn is_action_approved(&self, action: &EditAction, cwd: &PathExpr) -> (r: bool)
        requires
            cwd.absolute,
        ensures
            r == touched_paths(*action, *cwd).subset_of(self@),
    {
        let mut i: usize = 0;
        while i < action.changes.len()
            invariant
                cwd.absolute,
                i <= action.changes@.len(),
                touched_upto(*action, *cwd, i as int).subset_of(self@),
            decreases action.changes@.len() - i,
        {
            let entry = &action.changes[i];
            let n = resolve_and_normalize(cwd, &entry.path);
            if !self.contains_normalized(&n) {
                proof {
                    lemma_entry_touched_in_touched_paths(*action, *cwd, i as int);
                    assert(entry_touched(action.changes@[i as int], *cwd).contains(n@));
                    assert(touched_paths(*action, *cwd).contains(n@));
                }
                return false;
            }
            match &entry.change {
                FileChange::Update { move_path } => {
                    match move_path {
                        Some(dest) => {
                            let nd = resolve_and_normalize(cwd, dest);
                            if !self.contains_normalized(&nd) {
                                proof {
                                    lemma_entry_touched_in_touched_paths(*action, *cwd, i as int);
                                    assert(entry_touched(action.changes@[i as int], *cwd).contains(
                                        nd@,
                                    ));
                                    assert(touched_paths(*action, *cwd).contains(nd@));
                                }
                                return false;
                            }
                        },
                        None => {},
                    }
                },
                _ => {},
            }
            proof {
                lemma_touched_upto_step(*action, *cwd, i as int);
            }
            i = i + 1;
        }
        proof {
            assert(touched_upto(*action, *cwd, action.changes@.len() as int) == touched_paths(
                *action,
                *cwd,
            ));
        }
        true
    }
}

impl Default for PatchApprovalStore {
    /// The default store is empty, like [`PatchApprovalStore::new`].
    fn default() -> (r: Self)
        ensures
            r@ == Set::<Seq<Seq<char>>>::empty(),
    {
        PatchApprovalStore::new()
    }
}

} // verus!
