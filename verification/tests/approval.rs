use patch_approval::action::ChangeEntry;
use patch_approval::action::EditAction;
use patch_approval::action::FileChange;
use patch_approval::paths::PathExpr;
use patch_approval::paths::resolve_and_normalize;
use patch_approval::store::PatchApprovalStore;

fn segs(parts: &[&str]) -> Vec<String> {
    parts.iter().map(|p| p.to_string()).collect()
}

fn rel(parts: &[&str]) -> PathExpr {
    PathExpr { absolute: false, segments: segs(parts) }
}

fn abs(parts: &[&str]) -> PathExpr {
    PathExpr { absolute: true, segments: segs(parts) }
}

fn entry(parts: &[&str], change: FileChange) -> ChangeEntry {
    ChangeEntry {
        path: rel(parts),
        change,
    }
}

fn creates(paths: &[&[&str]]) -> EditAction {
    EditAction {
        changes: paths.iter().map(|p| entry(p, FileChange::Create)).collect(),
    }
}

fn update_with_move(source: &[&str], dest: &[&str]) -> EditAction {
    EditAction {
        changes: vec![entry(
            source,
            FileChange::Update {
                move_path: Some(rel(dest)),
            },
        )],
    }
}

#[test]
fn approved_for_session_covers_all_touched_files() {
    let cwd = abs(&["tmp"]);

    let action = creates(&[&["a.txt"], &["b.txt"]]);

    let mut store = PatchApprovalStore::default();
    assert!(!store.is_action_approved(&action, &cwd));

    store.approve_action(&action, &cwd);
    assert!(store.is_action_approved(&action, &cwd));

    let action_a = creates(&[&["a.txt"]]);
    assert!(store.is_action_approved(&action_a, &cwd));

    let action_c = creates(&[&["c.txt"]]);
    assert!(!store.is_action_approved(&action_c, &cwd));
}

#[test]
fn normalize_collapses_redundant_segments() {
    let cwd = abs(&["x"]);
    let redundant = resolve_and_normalize(&cwd, &rel(&["a", "..", "a", "b"]));
    let plain = resolve_and_normalize(&cwd, &rel(&["a", "b"]));
    assert_eq!(redundant.segments(), &segs(&["x", "a", "b"]));
    assert_eq!(redundant.segments(), plain.segments());
}

#[test]
fn normalize_empty_expression_yields_working_directory() {
    let cwd = abs(&["tmp", "ws"]);
    let n = resolve_and_normalize(&cwd, &rel(&[]));
    assert_eq!(n.segments(), &segs(&["tmp", "ws"]));
}

#[test]
fn normalize_absorbs_parent_beyond_root() {
    let cwd = abs(&[]);
    let n = resolve_and_normalize(&cwd, &rel(&["..", "..", "a"]));
    assert_eq!(n.segments(), &segs(&["a"]));
}

#[test]
fn normalize_absolute_expression_ignores_working_directory() {
    let cwd = abs(&["x"]);
    let n = resolve_and_normalize(&cwd, &abs(&["y", "z"]));
    assert_eq!(n.segments(), &segs(&["y", "z"]));
}

#[test]
fn normalize_drops_cur_dir_segments() {
    let cwd = abs(&["x"]);
    let n = resolve_and_normalize(&cwd, &rel(&[".", "a", ".", "b", "."]));
    assert_eq!(n.segments(), &segs(&["x", "a", "b"]));
}

#[test]
fn normalize_same_identity_recognized() {
    let cwd = abs(&["x"]);
    let left = resolve_and_normalize(&cwd, &rel(&["sub", "..", "a.txt"]));
    let right = resolve_and_normalize(&cwd, &rel(&["a.txt"]));
    let other = resolve_and_normalize(&cwd, &rel(&["b.txt"]));
    assert!(left.same_identity(&right));
    assert!(!left.same_identity(&other));
}

#[test]
fn recorded_approval_is_monotonic() {
    let cwd = abs(&["tmp", "ws"]);
    let action_a = creates(&[&["a.txt"]]);
    let action_b = creates(&[&["b.txt"]]);

    let mut store = PatchApprovalStore::new();
    store.approve_action(&action_a, &cwd);
    assert!(store.is_action_approved(&action_a, &cwd));

    store.approve_action(&action_b, &cwd);
    assert!(store.is_action_approved(&action_a, &cwd));

    store.approve_action(&action_a, &cwd);
    assert!(store.is_action_approved(&action_a, &cwd));
    assert!(store.is_action_approved(&action_b, &cwd));
}

#[test]
fn partial_overlap_is_not_approved() {
    let cwd = abs(&["tmp", "ws"]);
    let only_first = creates(&[&["p1"]]);
    let both = creates(&[&["p1"], &["p2"]]);

    let mut store = PatchApprovalStore::new();
    store.approve_action(&only_first, &cwd);
    assert!(store.is_action_approved(&only_first, &cwd));
    assert!(!store.is_action_approved(&both, &cwd));

    store.approve_action(&both, &cwd);
    assert!(store.is_action_approved(&both, &cwd));
    assert!(store.is_action_approved(&creates(&[&["p1"]]), &cwd));
    assert!(store.is_action_approved(&creates(&[&["p2"]]), &cwd));
}

#[test]
fn update_destination_counts_as_touched() {
    let cwd = abs(&["tmp", "ws"]);
    let update = update_with_move(&["src.txt"], &["dst.txt"]);

    let mut store = PatchApprovalStore::new();
    store.approve_action(&creates(&[&["src.txt"]]), &cwd);
    assert!(!store.is_action_approved(&update, &cwd));

    store.approve_action(&update, &cwd);
    assert!(store.is_action_approved(&update, &cwd));
    assert!(store.is_action_approved(&creates(&[&["dst.txt"]]), &cwd));
}

#[test]
fn update_without_move_only_touches_target() {
    let cwd = abs(&["tmp", "ws"]);
    let update = EditAction {
        changes: vec![entry(&["f.txt"], FileChange::Update { move_path: None })],
    };

    let mut store = PatchApprovalStore::new();
    assert!(!store.is_action_approved(&update, &cwd));
    store.approve_action(&creates(&[&["f.txt"]]), &cwd);
    assert!(store.is_action_approved(&update, &cwd));
}

#[test]
fn delete_touches_its_target() {
    let cwd = abs(&["tmp", "ws"]);
    let delete = EditAction {
        changes: vec![entry(&["gone.txt"], FileChange::Delete)],
    };

    let mut store = PatchApprovalStore::new();
    assert!(!store.is_action_approved(&delete, &cwd));
    store.approve_action(&delete, &cwd);
    assert!(store.is_action_approved(&delete, &cwd));
}

#[test]
fn no_cross_path_leakage() {
    let cwd = abs(&["tmp", "ws"]);
    let mut store = PatchApprovalStore::new();
    store.approve_action(&creates(&[&["a.txt"]]), &cwd);
    assert!(!store.is_action_approved(&creates(&[&["b.txt"]]), &cwd));
    assert!(!store.is_action_approved(&creates(&[&["c.txt"]]), &cwd));
}

#[test]
fn scenario_from_tmp_ws() {
    let cwd = abs(&["tmp", "ws"]);
    let action1 = creates(&[&["a.txt"], &["b.txt"]]);
    let action2 = creates(&[&["a.txt"]]);
    let action3 = creates(&[&["c.txt"]]);

    let mut store = PatchApprovalStore::new();
    assert!(!store.is_action_approved(&action1, &cwd));
    store.approve_action(&action1, &cwd);
    assert!(store.is_action_approved(&action1, &cwd));
    assert!(store.is_action_approved(&action2, &cwd));
    assert!(!store.is_action_approved(&action3, &cwd));
}

#[test]
fn equivalent_working_directories_share_approvals() {
    let mut store = PatchApprovalStore::new();
    let redundant_cwd = abs(&["tmp", ".", "ws"]);
    let plain_cwd = abs(&["tmp", "ws"]);
    store.approve_action(&creates(&[&["a.txt"]]), &redundant_cwd);
    assert!(store.is_action_approved(&creates(&[&["a.txt"]]), &plain_cwd));
}

#[test]
fn testing_does_not_record() {
    let cwd = abs(&["tmp", "ws"]);
    let action = creates(&[&["a.txt"]]);
    let store = PatchApprovalStore::new();
    assert!(!store.is_action_approved(&action, &cwd));
    assert!(!store.is_action_approved(&action, &cwd));
}
