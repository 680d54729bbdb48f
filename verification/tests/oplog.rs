use workspace_engine::oplog::{
    recovery_for, MetadataStore, OperationKind, Oplog, OplogError, Recovery, StoreError,
};
use workspace_engine::snapshot::{
    VbBranchTarget, VbStack, VbStackHead, VbState, VirtualBranchesSnapshot,
};

fn stack(id: &str) -> VbStack {
    VbStack {
        id: id.to_string(),
        source_refname: None,
        upstream_remote_name: None,
        upstream_branch_name: None,
        sort_order: 0,
        in_workspace: true,
        legacy_name: String::new(),
        legacy_notes: String::new(),
        legacy_ownership: String::new(),
        legacy_allow_rebasing: true,
        legacy_post_commits: false,
        legacy_tree_sha: String::new(),
        legacy_head_sha: String::new(),
        legacy_created_timestamp_ms: "0".to_string(),
        legacy_updated_timestamp_ms: "0".to_string(),
    }
}

fn snapshot(ids: &[&str]) -> VirtualBranchesSnapshot {
    VirtualBranchesSnapshot {
        state: VbState { initialized: true, ..VbState::default() },
        stacks: ids.iter().map(|id| stack(id)).collect(),
        heads: vec![],
        branch_targets: vec![],
    }
}

#[test]
fn a_store_never_written_holds_nothing() {
    assert_eq!(MetadataStore::new().get_snapshot(), Ok(None));
}

#[test]
fn what_is_written_is_read() {
    let mut store = MetadataStore::new();
    store.replace_snapshot(&snapshot(&["a", "b"])).unwrap();
    assert_eq!(store.get_snapshot(), Ok(Some(snapshot(&["a", "b"]))));
    store.replace_snapshot(&snapshot(&[])).unwrap();
    assert_eq!(store.get_snapshot(), Ok(Some(snapshot(&[]))));
}

fn head(stack: &str, position: i64, name: &str) -> VbStackHead {
    VbStackHead {
        stack_id: stack.to_string(),
        position,
        name: name.to_string(),
        head_sha: String::new(),
        pr_number: None,
        archived: false,
        review_id: None,
    }
}

fn target(stack: &str) -> VbBranchTarget {
    VbBranchTarget {
        stack_id: stack.to_string(),
        remote_name: "origin".to_string(),
        branch_name: "main".to_string(),
        remote_url: String::new(),
        sha: String::new(),
        push_remote_name: None,
    }
}

#[test]
fn reads_list_every_table_in_its_order() {
    let row = |id: &str, sort_order: i64| VbStack { sort_order, ..stack(id) };
    let written = VirtualBranchesSnapshot {
        state: VbState::default(),
        stacks: vec![row("b", 1), row("c", 0), row("a", 1), row("ab", 1)],
        heads: vec![head("b", 1, "x"), head("a", 0, "y"), head("b", 0, "z"), head("c", 0, "x")],
        branch_targets: vec![target("b"), target("a")],
    };
    let mut store = MetadataStore::new();
    store.replace_snapshot(&written).unwrap();
    let read = store.get_snapshot().unwrap().unwrap();
    assert_eq!(read.stacks, vec![row("c", 0), row("a", 1), row("ab", 1), row("b", 1)]);
    assert_eq!(
        read.heads,
        vec![head("a", 0, "y"), head("b", 0, "z"), head("b", 1, "x"), head("c", 0, "x")]
    );
    assert_eq!(read.branch_targets, vec![target("a"), target("b")]);
    // Writing what was read changes nothing.
    store.replace_snapshot(&read).unwrap();
    assert_eq!(store.get_snapshot(), Ok(Some(read)));
}

fn with_heads(heads: Vec<VbStackHead>) -> VirtualBranchesSnapshot {
    VirtualBranchesSnapshot { heads, ..snapshot(&["a", "b"]) }
}

#[test]
fn a_gap_in_the_positions_is_found_on_read() {
    let mut store = MetadataStore::new();
    store.replace_snapshot(&with_heads(vec![head("a", 0, "x"), head("a", 2, "y")])).unwrap();
    assert_eq!(store.get_snapshot(), Err(StoreError::CorruptState));
    store.replace_snapshot(&with_heads(vec![head("a", 1, "x")])).unwrap();
    assert_eq!(store.get_snapshot(), Err(StoreError::CorruptState));
    store.replace_snapshot(&with_heads(vec![head("a", 1, "x"), head("b", 0, "x"), head("a", 0, "y")])).unwrap();
    assert!(store.get_snapshot().is_ok());
}

#[test]
fn a_head_name_used_twice_in_a_stack_is_found_on_read() {
    let mut store = MetadataStore::new();
    store.replace_snapshot(&with_heads(vec![head("a", 0, "x"), head("a", 1, "x")])).unwrap();
    assert_eq!(store.get_snapshot(), Err(StoreError::CorruptState));
    let mut log = Oplog::new(3);
    assert_eq!(log.capture(OperationKind::Other, 1, &store), Err(StoreError::CorruptState));
    assert_eq!(log.len(), 0);
}

#[test]
fn a_write_that_breaks_a_key_leaves_the_store_as_it_was() {
    let kept = with_heads(vec![head("a", 0, "x")]);
    let mut store = MetadataStore::new();
    store.replace_snapshot(&kept).unwrap();
    let refused = [
        with_heads(vec![head("a", 0, "x"), head("a", 0, "y")]),
        with_heads(vec![head("gone", 0, "x")]),
        VirtualBranchesSnapshot { branch_targets: vec![target("gone")], ..snapshot(&["a"]) },
        VirtualBranchesSnapshot {
            branch_targets: vec![target("a"), target("a")],
            ..snapshot(&["a"])
        },
        snapshot(&["a", "b", "a"]),
    ];
    for snapshot in refused {
        assert_eq!(store.replace_snapshot(&snapshot), Err(StoreError::ConstraintViolation));
        assert_eq!(store.get_snapshot(), Ok(Some(kept.clone())));
    }
}

#[test]
fn a_failed_mutation_restores_what_was_captured() {
    let mut store = MetadataStore::new();
    store.replace_snapshot(&snapshot(&["a"])).unwrap();
    let mut log = Oplog::new(3);
    log.capture(OperationKind::SquashCommit, 1, &store).unwrap();
    store.replace_snapshot(&snapshot(&["a", "half-done"])).unwrap();
    assert_eq!(recovery_for(true, 0), Recovery::Keep);
    assert_eq!(recovery_for(false, 0), Recovery::Restore { position: 0 });
    assert_eq!(log.settle(0, true, &mut store), Ok(Recovery::Keep));
    assert_eq!(store.get_snapshot(), Ok(Some(snapshot(&["a", "half-done"]))));
    assert_eq!(log.settle(0, false, &mut store), Ok(Recovery::Restore { position: 0 }));
    assert_eq!(store.get_snapshot(), Ok(Some(snapshot(&["a"]))));
    assert_eq!(log.settle(7, false, &mut store), Err(OplogError::NoSuchEntry));
    assert_eq!(store.get_snapshot(), Ok(Some(snapshot(&["a"]))));
}

#[test]
fn the_state_row_is_upserted() {
    let mut store = MetadataStore::new();
    let state = VbState { initialized: true, toml_last_seen_mtime_ns: Some(4), ..VbState::default() };
    store.set_state(&state);
    let read = store.get_snapshot().unwrap().unwrap();
    assert_eq!(read.state, state);
    assert!(read.stacks.is_empty());
    store.replace_snapshot(&snapshot(&["a"])).unwrap();
    store.set_state(&state);
    let read = store.get_snapshot().unwrap().unwrap();
    assert_eq!(read.state, state);
    assert_eq!(read.stacks, snapshot(&["a"]).stacks);
}

#[test]
fn restore_of_capture_gives_the_store_back() {
    let mut store = MetadataStore::new();
    store.replace_snapshot(&snapshot(&["a"])).unwrap();
    let mut log = Oplog::new(10);
    log.capture(OperationKind::SquashCommit, 1, &store).unwrap();
    store.replace_snapshot(&snapshot(&["a", "broken"])).unwrap();
    assert_eq!(log.restore(0, &mut store), Ok(()));
    assert_eq!(store.get_snapshot(), Ok(Some(snapshot(&["a"]))));
    // Restoring again changes nothing.
    assert_eq!(log.restore(0, &mut store), Ok(()));
    assert_eq!(store.get_snapshot(), Ok(Some(snapshot(&["a"]))));
    assert_eq!(log.len(), 1);
}

#[test]
fn an_unwritten_store_is_restored_as_unwritten() {
    let mut store = MetadataStore::new();
    let mut log = Oplog::new(2);
    log.capture(OperationKind::Other, 1, &store).unwrap();
    store.replace_snapshot(&snapshot(&["a"])).unwrap();
    assert_eq!(log.restore(0, &mut store), Ok(()));
    assert_eq!(store.get_snapshot(), Ok(None));
}

#[test]
fn the_log_is_bounded_and_drops_the_oldest() {
    let mut store = MetadataStore::new();
    let mut log = Oplog::new(2);
    for (time, id) in [(1u64, "a"), (2, "b"), (3, "c")] {
        store.replace_snapshot(&snapshot(&[id])).unwrap();
        log.capture(OperationKind::CreateCommit, time, &store).unwrap();
    }
    assert_eq!(log.len(), 2);
    assert_eq!(log.restore(0, &mut store), Ok(()));
    assert_eq!(store.get_snapshot(), Ok(Some(snapshot(&["b"]))));
    assert_eq!(log.restore(1, &mut store), Ok(()));
    assert_eq!(store.get_snapshot(), Ok(Some(snapshot(&["c"]))));
    assert_eq!(log.restore(2, &mut store), Err(OplogError::NoSuchEntry));
    assert_eq!(store.get_snapshot(), Ok(Some(snapshot(&["c"]))));
}

#[test]
fn a_log_keeps_at_least_one_entry() {
    let store = MetadataStore::new();
    let mut log = Oplog::new(0);
    log.capture(OperationKind::Other, 1, &store).unwrap();
    log.capture(OperationKind::Other, 2, &store).unwrap();
    assert_eq!(log.len(), 1);
}

#[test]
fn removing_a_stack_takes_its_rows_along() {
    let mut content = snapshot(&["a", "b"]);
    content.heads = vec![head("a", 0, "x"), head("b", 0, "y"), head("a", 1, "z")];
    content.branch_targets = vec![target("a"), target("b")];
    let mut store = MetadataStore::new();
    store.remove_stack("a");
    assert_eq!(store.get_snapshot(), Ok(None));
    store.replace_snapshot(&content).unwrap();
    store.remove_stack("a");
    let left = store.get_snapshot().unwrap().unwrap();
    assert_eq!(left.stacks, snapshot(&["b"]).stacks);
    assert_eq!(left.heads, vec![head("b", 0, "y")]);
    assert_eq!(left.branch_targets, vec![target("b")]);
    assert_eq!(left.state, content.state);
    store.remove_stack("missing");
    assert_eq!(store.get_snapshot(), Ok(Some(left)));
}
