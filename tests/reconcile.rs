use cargo_insta::container::{CommitStep, ContainerKind, SnapshotContainer};
use cargo_insta::operation::{Operation, Resolution};
use cargo_insta::pending::InlineEntry;

fn entry(line: u32, new: Option<&str>, old: Option<&str>) -> InlineEntry<String> {
    InlineEntry {
        line,
        new: new.map(|s| s.to_string()),
        old: old.map(|s| s.to_string()),
    }
}

fn inline_container(entries: Vec<InlineEntry<String>>, found: Option<Vec<bool>>) -> SnapshotContainer<String> {
    let sorted = cargo_insta::container::sort_batch(entries);
    SnapshotContainer::load_inline("a.pending-snap".to_string(), "a.rs".to_string(), sorted, found)
}

#[test]
fn sort_batch_orders_by_line() {
    let sorted = cargo_insta::container::sort_batch(vec![
        entry(30, Some("c"), None),
        entry(10, Some("a"), None),
        entry(20, None, Some("b")),
    ]);
    let lines: Vec<u32> = sorted.iter().map(|e| e.line).collect();
    assert_eq!(lines, vec![10, 20, 30]);
    assert_eq!(sorted[0].new.as_deref(), Some("a"));
    assert_eq!(sorted[1].old.as_deref(), Some("b"));
}

#[test]
fn probe_lines_skips_entries_without_new_value() {
    let sorted = cargo_insta::container::sort_batch(vec![
        entry(7, Some("x"), None),
        entry(3, None, None),
        entry(5, Some("y"), Some("old")),
    ]);
    assert_eq!(cargo_insta::container::probe_lines(&sorted), vec![5, 7]);
}

#[test]
fn load_inline_keeps_confirmed_call_sites() {
    let c = inline_container(
        vec![entry(40, Some("d"), None), entry(10, Some("a"), Some("a0")), entry(20, None, None), entry(30, Some("c"), None)],
        Some(vec![true, false, true]),
    );
    assert_eq!(c.kind, ContainerKind::Inline);
    assert_eq!(c.len(), 2);
    assert!(c.has_patcher);
    assert!(!c.pending_is_stale());
    assert_eq!(c.snapshots[0].id(), 0);
    assert_eq!(c.snapshots[0].line, Some(10));
    assert_eq!(c.snapshots[0].new, "a");
    assert_eq!(c.snapshots[0].old.as_deref(), Some("a0"));
    assert_eq!(c.snapshots[0].op, Operation::Skip);
    assert_eq!(c.snapshots[1].id(), 1);
    assert_eq!(c.snapshots[1].line, Some(40));
    assert_eq!(c.snapshots[1].new, "d");
    assert_eq!(c.snapshot_file(), None);
    assert_eq!(c.target_file(), "a.rs");
}

#[test]
fn load_inline_with_no_survivors_is_stale() {
    let c = inline_container(vec![entry(10, Some("a"), None), entry(20, None, None)], Some(vec![false]));
    assert_eq!(c.len(), 0);
    assert!(!c.has_patcher);
    assert!(c.pending_is_stale());
    assert_eq!(c.commit_plan(false, false), vec![]);
}

#[test]
fn load_inline_with_only_matching_entries_is_stale() {
    let c = inline_container(vec![entry(10, None, None), entry(20, None, Some("b"))], Some(vec![]));
    assert_eq!(c.len(), 0);
    assert!(c.pending_is_stale());
}

#[test]
fn load_inline_without_source_file_keeps_nothing() {
    let c = inline_container(vec![entry(10, Some("a"), None)], None);
    assert_eq!(c.len(), 0);
    assert!(!c.has_patcher);
    assert!(c.pending_is_stale());
}

#[test]
fn mixed_inline_commit() {
    let mut c = inline_container(
        vec![entry(30, Some("third"), None), entry(10, Some("first"), None), entry(20, Some("second"), None)],
        Some(vec![true, true, true]),
    );
    c.set_op(0, Operation::Accept);
    c.set_op(1, Operation::Skip);
    c.set_op(2, Operation::AcceptAll);
    assert_eq!(
        c.commit_plan(false, false),
        vec![
            CommitStep::SetContent(0),
            CommitStep::Requeue(1),
            CommitStep::SetContent(2),
            CommitStep::SaveSource,
            CommitStep::WriteBatch,
        ]
    );
}

#[test]
fn inline_skip_all_requeues_every_unit() {
    let mut c = inline_container(
        vec![entry(1, Some("a"), None), entry(2, Some("b"), None)],
        Some(vec![true, true]),
    );
    c.set_op(1, Operation::SkipAll);
    assert_eq!(
        c.commit_plan(true, true),
        vec![CommitStep::Requeue(0), CommitStep::Requeue(1), CommitStep::WriteBatch]
    );
}

#[test]
fn inline_reject_only_removes_pending() {
    let mut c = inline_container(
        vec![entry(1, Some("a"), None), entry(2, Some("b"), None)],
        Some(vec![true, true]),
    );
    c.set_op(0, Operation::Reject);
    c.set_op(1, Operation::RejectAll);
    assert_eq!(c.commit_plan(false, false), vec![CommitStep::RemovePending]);
}

#[test]
fn inline_accept_only_saves_source_and_removes_pending() {
    let mut c = inline_container(vec![entry(5, Some("a"), None)], Some(vec![true]));
    c.set_op(0, Operation::Accept);
    assert_eq!(
        c.commit_plan(false, false),
        vec![CommitStep::SetContent(0), CommitStep::SaveSource, CommitStep::RemovePending]
    );
}

fn file_container(old: Option<&str>, new: &str) -> SnapshotContainer<String> {
    SnapshotContainer::load_file(
        "x.snap.new".to_string(),
        "x.snap".to_string(),
        old.map(|s| s.to_string()),
        new.to_string(),
    )
}

#[test]
fn load_file_has_one_unit() {
    let c = file_container(Some("before"), "after");
    assert_eq!(c.kind, ContainerKind::File);
    assert_eq!(c.len(), 1);
    assert!(!c.has_patcher);
    assert!(!c.pending_is_stale());
    assert_eq!(c.snapshots[0].id(), 0);
    assert_eq!(c.snapshots[0].line, None);
    assert_eq!(c.snapshots[0].op, Operation::Skip);
    assert_eq!(c.snapshots[0].old.as_deref(), Some("before"));
    assert_eq!(c.snapshot_file().map(|p| p.as_str()), Some("x.snap"));
}

#[test]
fn file_skip_does_nothing() {
    let c = file_container(Some("before"), "after");
    assert_eq!(c.commit_plan(true, true), vec![]);
}

#[test]
fn file_accept_saves_target_last() {
    let mut c = file_container(Some("before"), "after");
    c.set_op(0, Operation::Accept);
    assert_eq!(
        c.commit_plan(true, true),
        vec![
            CommitStep::RemovePending,
            CommitStep::RemoveOldSidecar,
            CommitStep::RemoveNewSidecar,
            CommitStep::SaveTarget,
        ]
    );
    assert_eq!(c.commit_plan(false, false), vec![CommitStep::RemovePending, CommitStep::SaveTarget]);
}

#[test]
fn file_accept_then_reload_sees_new_as_baseline() {
    let mut c = file_container(None, "after");
    c.set_op(0, Operation::AcceptAll);
    let plan = c.commit_plan(false, false);
    assert_eq!(plan.last(), Some(&CommitStep::SaveTarget));
    let saved = c.snapshots[0].new.clone();
    let reloaded = file_container(Some(&saved), "later");
    assert_eq!(reloaded.snapshots[0].old.as_deref(), Some("after"));
}

#[test]
fn file_reject_keeps_old_sidecar() {
    let mut c = file_container(Some("before"), "after");
    c.set_op(0, Operation::Reject);
    let plan = c.commit_plan(true, true);
    assert_eq!(plan, vec![CommitStep::RemovePending, CommitStep::RemoveNewSidecar]);
    assert!(!plan.contains(&CommitStep::RemoveOldSidecar));
    assert!(!plan.contains(&CommitStep::SaveTarget));
    assert_eq!(c.commit_plan(true, false), vec![CommitStep::RemovePending]);
}

#[test]
fn operations_collapse_to_three_resolutions() {
    assert_eq!(Operation::Accept.resolution(), Resolution::Accept);
    assert_eq!(Operation::AcceptAll.resolution(), Resolution::Accept);
    assert_eq!(Operation::Reject.resolution(), Resolution::Reject);
    assert_eq!(Operation::RejectAll.resolution(), Resolution::Reject);
    assert_eq!(Operation::Skip.resolution(), Resolution::Skip);
    assert_eq!(Operation::SkipAll.resolution(), Resolution::Skip);
    assert!(Operation::SkipAll.applies_to_remaining());
    assert!(!Operation::Accept.applies_to_remaining());
    assert_eq!(Operation::from_parts(Resolution::Reject, true), Operation::RejectAll);
    assert_eq!(Operation::from_parts(Resolution::Accept, false), Operation::Accept);
    assert_eq!(Operation::default(), Operation::Skip);
}
