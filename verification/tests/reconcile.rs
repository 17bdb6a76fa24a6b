use weave::gitx::MergeOutcome;
use weave::model::{ConflictKind, FileEntry, GitMode};
use weave::reconcile::{reconcile, MergeContext, Reconciled};

fn entry(content: &str) -> FileEntry {
    FileEntry::from_bytes(content.as_bytes(), GitMode::Regular)
}

fn exec_entry(content: &str) -> FileEntry {
    FileEntry::from_bytes(content.as_bytes(), GitMode::Executable)
}

fn ctx() -> MergeContext {
    MergeContext::new(None)
}

#[test]
fn identical_desired_state_converges() {
    let b = entry("A\n");
    let x = entry("B\n");
    assert_eq!(
        reconcile(&ctx(), Some(&b), Some(&x), Some(&x)).unwrap(),
        Reconciled::Converged
    );
}

#[test]
fn no_concurrent_change_accepts() {
    let b = entry("A\n");
    let i = entry("A2\n");
    match reconcile(&ctx(), Some(&b), Some(&b), Some(&i)).unwrap() {
        Reconciled::Accept { entry, merged } => {
            assert!(!merged);
            assert_eq!(entry.unwrap().blob_hash, i.blob_hash);
        }
        other => panic!("unexpected {other:?}"),
    }
}

#[test]
fn independent_edits_merge_cleanly() {
    let b = entry("A\nB\nC\n");
    let c = entry("A1\nB\nC\n");
    let i = entry("A\nB\nC1\n");
    assert_eq!(
        reconcile(&ctx(), Some(&b), Some(&c), Some(&i)).unwrap(),
        Reconciled::NeedsMerge
    );
    let ctx = MergeContext::new(Some(MergeOutcome::Clean(b"A1\nB\nC1\n".to_vec())));
    match reconcile(&ctx, Some(&b), Some(&c), Some(&i)).unwrap() {
        Reconciled::Accept { entry: merged_entry, merged } => {
            assert!(merged);
            assert_eq!(merged_entry.unwrap(), entry("A1\nB\nC1\n"));
        }
        other => panic!("unexpected {other:?}"),
    }
}

#[test]
fn overlapping_edits_conflict() {
    let b = entry("A\nB\nC\n");
    let c = entry("A\nBETA\nC\n");
    let i = entry("A\nGAMMA\nC\n");
    let ctx = MergeContext::new(Some(MergeOutcome::Conflict));
    assert_eq!(
        reconcile(&ctx, Some(&b), Some(&c), Some(&i)).unwrap(),
        Reconciled::Conflict(ConflictKind::TextConcurrentEdit)
    );
}

#[test]
fn concurrent_create_same_content_converges() {
    let x = entry("same\n");
    assert_eq!(
        reconcile(&ctx(), None, Some(&x), Some(&x)).unwrap(),
        Reconciled::Converged
    );
}

#[test]
fn concurrent_create_different_content_conflicts() {
    let a = entry("one\n");
    let b = entry("two\n");
    assert_eq!(
        reconcile(&ctx(), None, Some(&a), Some(&b)).unwrap(),
        Reconciled::Conflict(ConflictKind::ConcurrentCreate)
    );
}

#[test]
fn modify_delete_conflicts_both_directions() {
    let b = entry("A\n");
    let m = entry("A2\n");
    assert_eq!(
        reconcile(&ctx(), Some(&b), None, Some(&m)).unwrap(),
        Reconciled::Conflict(ConflictKind::DeleteModify)
    );
    assert_eq!(
        reconcile(&ctx(), Some(&b), Some(&m), None).unwrap(),
        Reconciled::Conflict(ConflictKind::DeleteModify)
    );
}

#[test]
fn concurrent_delete_converges() {
    let b = entry("A\n");
    assert_eq!(
        reconcile(&ctx(), Some(&b), None, None).unwrap(),
        Reconciled::Converged
    );
}

#[test]
fn binary_concurrent_edit_conflicts() {
    let mk = |bytes: &[u8]| FileEntry::from_bytes(bytes, GitMode::Regular);
    let b = mk(&[0u8, 1, 2, 3]);
    let c = mk(&[0u8, 1, 2, 9]);
    let i = mk(&[0u8, 1, 2, 8]);
    assert_eq!(
        reconcile(&ctx(), Some(&b), Some(&c), Some(&i)).unwrap(),
        Reconciled::Conflict(ConflictKind::BinaryConcurrentEdit)
    );
}

#[test]
fn one_sided_mode_change_is_preserved() {
    let b = entry("A\n");
    let c = entry("A1\n"); // canonical changed content only
    let i = exec_entry("A\n"); // incoming changed mode only
    match reconcile(&ctx(), Some(&b), Some(&c), Some(&i)).unwrap() {
        Reconciled::Accept { entry, .. } => {
            let e = entry.unwrap();
            assert_eq!(e.git_mode, GitMode::Executable);
            assert_eq!(e.blob_hash, c.blob_hash);
        }
        other => panic!("unexpected {other:?}"),
    }
}

#[test]
fn incompatible_mode_change_conflicts() {
    let b = exec_entry("A\n");
    let c = entry("A\n"); // exec -> regular
    let mut i = exec_entry("A\n");
    i.git_mode = GitMode::Regular;
    // Both sides now agree on regular: that converges rather than conflicts.
    assert_eq!(
        reconcile(&ctx(), Some(&b), Some(&c), Some(&i)).unwrap(),
        Reconciled::Converged
    );
}

#[test]
fn a_merge_that_gives_the_incoming_content_is_no_merge() {
    let b = entry("A\nB\nC\n");
    let c = entry("A1\nB\nC\n");
    let i = entry("A1\nB\nC1\n");
    let ctx = MergeContext::new(Some(MergeOutcome::Clean(b"A1\nB\nC1\n".to_vec())));
    match reconcile(&ctx, Some(&b), Some(&c), Some(&i)).unwrap() {
        Reconciled::Accept { entry, merged } => {
            assert!(!merged);
            assert_eq!(entry.unwrap(), i);
        }
        other => panic!("unexpected {other:?}"),
    }
}
