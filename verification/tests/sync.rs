use workspace_engine::legacy::{
    RemoteRefname, Stack, StackBranch, StackTarget, Target, VirtualBranches,
};
use workspace_engine::snapshot::{
    VbBranchTarget, VbStack, VbStackHead, VbState, VirtualBranchesSnapshot,
};
use workspace_engine::sync::{
    check_object_id, ensure_vb_storage_in_sync, import_toml_into_db, into_db_toml_file_info,
    legacy_to_snapshot, read_synced_virtual_branches, record_written_file, snapshot_to_legacy,
    toml_compare, write_virtual_branches_and_sync, DbTomlFileState, Freshness, ParsedToml,
    SyncError, SyncPlan, TomlFileState, TomlInfo,
};

const SHA_A: &str = "aaaaaaaaaaaaaaaaaaaaaaaaaaaaaaaaaaaaaaaa";
const SHA_B: &str = "bbbbbbbbbbbbbbbbbbbbbbbbbbbbbbbbbbbbbbbb";
const SHA_C: &str = "0123456789abcdefABCDEF0123456789abcdef01";

fn branch(name: &str, head: &str) -> StackBranch {
    StackBranch {
        head: head.to_string(),
        name: name.to_string(),
        pr_number: None,
        archived: false,
        review_id: None,
    }
}

fn stack(id: &str, order: usize, heads: Vec<StackBranch>) -> Stack {
    Stack {
        id: id.to_string(),
        source_refname: None,
        upstream: Some(RemoteRefname { remote: "origin".to_string(), branch: id.to_string() }),
        order,
        in_workspace: true,
        heads,
        notes: String::new(),
        ownership: String::new(),
        allow_rebasing: true,
        post_commits: false,
        tree: SHA_A.to_string(),
        created_timestamp_ms: 17,
        updated_timestamp_ms: 340282366920938463463374607431768211455,
        name: id.to_string(),
        head: SHA_B.to_string(),
    }
}

fn target(sha: &str) -> Target {
    Target {
        branch: RemoteRefname { remote: "origin".to_string(), branch: "main".to_string() },
        remote_url: "https://example.com/repo.git".to_string(),
        sha: sha.to_string(),
        push_remote_name: Some("fork".to_string()),
    }
}

fn mirror() -> VirtualBranches {
    VirtualBranches {
        default_target: Some(target(SHA_A)),
        branch_targets: vec![
            StackTarget { stack_id: "s2".to_string(), target: target(SHA_B) },
            StackTarget { stack_id: "s1".to_string(), target: target(SHA_C) },
        ],
        branches: vec![
            stack("s3", 1, vec![branch("top", SHA_A), branch("bottom", SHA_B)]),
            stack("s2", 0, vec![branch("only", SHA_C)]),
            stack("s1", 1, vec![]),
        ],
        last_pushed_base: Some(SHA_B.to_string()),
    }
}

fn no_file_info() -> DbTomlFileState {
    DbTomlFileState { toml_last_seen_mtime_ns: None, toml_last_seen_sha256: None }
}

fn state_seen(mtime: Option<i64>, sha: Option<&str>) -> VbState {
    VbState {
        initialized: true,
        toml_last_seen_mtime_ns: mtime,
        toml_last_seen_sha256: sha.map(str::to_string),
        ..VbState::default()
    }
}

#[test]
fn compare_never_seen_file_is_newer() {
    assert_eq!(toml_compare(&state_seen(None, None), 5, "x"), Freshness::FileNewer);
}

#[test]
fn compare_later_mtime_is_newer() {
    assert_eq!(toml_compare(&state_seen(Some(10), Some("x")), 11, "x"), Freshness::FileNewer);
}

#[test]
fn compare_earlier_mtime_is_older() {
    assert_eq!(toml_compare(&state_seen(Some(10), Some("x")), 9, "y"), Freshness::StoreNewer);
}

#[test]
fn compare_equal_mtime_and_hash_is_same() {
    assert_eq!(toml_compare(&state_seen(Some(10), Some("x")), 10, "x"), Freshness::Same);
}

#[test]
fn compare_equal_mtime_with_other_hash_is_newer() {
    assert_eq!(toml_compare(&state_seen(Some(10), Some("x")), 10, "y"), Freshness::FileNewer);
    assert_eq!(toml_compare(&state_seen(Some(10), None), 10, "y"), Freshness::FileNewer);
}

#[test]
fn object_ids_are_forty_hex_digits() {
    assert!(check_object_id(SHA_A));
    assert!(check_object_id(SHA_C));
    assert!(!check_object_id(""));
    assert!(!check_object_id("aaaaaaaaaaaaaaaaaaaaaaaaaaaaaaaaaaaaaaa"));
    assert!(!check_object_id("aaaaaaaaaaaaaaaaaaaaaaaaaaaaaaaaaaaaaaaaa"));
    assert!(!check_object_id("gaaaaaaaaaaaaaaaaaaaaaaaaaaaaaaaaaaaaaaa"));
}

#[test]
fn snapshot_lists_stacks_by_order_then_id() {
    let snapshot = legacy_to_snapshot(&mirror(), no_file_info()).unwrap();
    let ids: Vec<&str> = snapshot.stacks.iter().map(|s| s.id.as_str()).collect();
    assert_eq!(ids, vec!["s2", "s1", "s3"]);
    let orders: Vec<i64> = snapshot.stacks.iter().map(|s| s.sort_order).collect();
    assert_eq!(orders, vec![0, 1, 1]);
}

#[test]
fn snapshot_numbers_heads_from_zero_per_stack() {
    let snapshot = legacy_to_snapshot(&mirror(), no_file_info()).unwrap();
    let heads: Vec<(&str, i64, &str)> = snapshot
        .heads
        .iter()
        .map(|h| (h.stack_id.as_str(), h.position, h.name.as_str()))
        .collect();
    assert_eq!(heads, vec![("s2", 0, "only"), ("s3", 0, "top"), ("s3", 1, "bottom")]);
}

#[test]
fn snapshot_lists_targets_by_stack_id() {
    let snapshot = legacy_to_snapshot(&mirror(), no_file_info()).unwrap();
    let ids: Vec<&str> = snapshot.branch_targets.iter().map(|t| t.stack_id.as_str()).collect();
    assert_eq!(ids, vec!["s1", "s2"]);
    assert_eq!(snapshot.branch_targets[0].sha, SHA_C);
    assert_eq!(snapshot.branch_targets[0].remote_name, "origin");
    assert_eq!(snapshot.branch_targets[0].branch_name, "main");
    assert_eq!(snapshot.branch_targets[0].push_remote_name.as_deref(), Some("fork"));
}

#[test]
fn snapshot_state_holds_target_and_file_metadata() {
    let info = DbTomlFileState {
        toml_last_seen_mtime_ns: Some(42),
        toml_last_seen_sha256: Some("cafe".to_string()),
    };
    let snapshot = legacy_to_snapshot(&mirror(), info).unwrap();
    assert!(snapshot.state.initialized);
    assert_eq!(snapshot.state.default_target_remote_name.as_deref(), Some("origin"));
    assert_eq!(snapshot.state.default_target_branch_name.as_deref(), Some("main"));
    assert_eq!(snapshot.state.default_target_sha.as_deref(), Some(SHA_A));
    assert_eq!(snapshot.state.default_target_push_remote_name.as_deref(), Some("fork"));
    assert_eq!(snapshot.state.last_pushed_base_sha.as_deref(), Some(SHA_B));
    assert_eq!(snapshot.state.toml_last_seen_mtime_ns, Some(42));
    assert_eq!(snapshot.state.toml_last_seen_sha256.as_deref(), Some("cafe"));
}

#[test]
fn snapshot_keeps_legacy_fields_and_formats_timestamps() {
    let snapshot = legacy_to_snapshot(&mirror(), no_file_info()).unwrap();
    let s2 = &snapshot.stacks[0];
    assert_eq!(s2.legacy_created_timestamp_ms, "17");
    assert_eq!(s2.legacy_updated_timestamp_ms, "340282366920938463463374607431768211455");
    assert_eq!(s2.legacy_tree_sha, SHA_A);
    assert_eq!(s2.legacy_head_sha, SHA_B);
    assert_eq!(s2.upstream_remote_name.as_deref(), Some("origin"));
    assert_eq!(s2.upstream_branch_name.as_deref(), Some("s2"));
}

#[test]
fn stack_order_beyond_the_column_is_refused() {
    let mut vb = mirror();
    vb.branches[0].order = usize::MAX;
    assert_eq!(legacy_to_snapshot(&vb, no_file_info()), Err(SyncError::StackOrderOutOfRange));
}

#[test]
fn snapshot_round_trips_through_the_mirror() {
    let snapshot = legacy_to_snapshot(&mirror(), no_file_info()).unwrap();
    let back = snapshot_to_legacy(&snapshot).unwrap();
    let again = legacy_to_snapshot(&back, no_file_info()).unwrap();
    assert_eq!(again, snapshot);
    let ids: Vec<&str> = back.branches.iter().map(|s| s.id.as_str()).collect();
    assert_eq!(ids, vec!["s2", "s1", "s3"]);
    assert_eq!(back.branches[2].heads.len(), 2);
    assert_eq!(back.branches[2].heads[0].name, "top");
    assert_eq!(back.branches[2].heads[1].name, "bottom");
    assert_eq!(back.branches[0].created_timestamp_ms, 17);
    assert_eq!(back.default_target, Some(target(SHA_A)));
    assert_eq!(back.last_pushed_base.as_deref(), Some(SHA_B));
}

fn stored() -> VirtualBranchesSnapshot {
    legacy_to_snapshot(
        &mirror(),
        DbTomlFileState {
            toml_last_seen_mtime_ns: Some(100),
            toml_last_seen_sha256: Some("seen".to_string()),
        },
    )
    .unwrap()
}

#[test]
fn invalid_rows_are_reported_in_order() {
    let mut s = stored();
    s.state.default_target_sha = Some("nothex".to_string());
    assert_eq!(snapshot_to_legacy(&s), Err(SyncError::InvalidDefaultTargetSha));

    let mut s = stored();
    s.state.last_pushed_base_sha = Some("nothex".to_string());
    assert_eq!(snapshot_to_legacy(&s), Err(SyncError::InvalidLastPushedBase));

    let mut s = stored();
    s.stacks[1].id = "s2".to_string();
    assert_eq!(snapshot_to_legacy(&s), Err(SyncError::DuplicateStackId));

    let mut s = stored();
    s.stacks[0].sort_order = -1;
    assert_eq!(snapshot_to_legacy(&s), Err(SyncError::InvalidSortOrder));

    let mut s = stored();
    s.stacks[0].legacy_tree_sha = "x".to_string();
    assert_eq!(snapshot_to_legacy(&s), Err(SyncError::InvalidTreeSha));

    let mut s = stored();
    s.stacks[0].legacy_created_timestamp_ms = "soon".to_string();
    assert_eq!(snapshot_to_legacy(&s), Err(SyncError::InvalidTimestamp));

    let mut s = stored();
    s.stacks[0].legacy_head_sha = "x".to_string();
    assert_eq!(snapshot_to_legacy(&s), Err(SyncError::InvalidStackHeadSha));

    let mut s = stored();
    s.heads[0].stack_id = "gone".to_string();
    assert_eq!(snapshot_to_legacy(&s), Err(SyncError::MissingStack));

    let mut s = stored();
    s.heads[2].position = 2;
    assert_eq!(snapshot_to_legacy(&s), Err(SyncError::NonContiguousPositions));

    let mut s = stored();
    s.heads[1].position = 1;
    assert_eq!(snapshot_to_legacy(&s), Err(SyncError::NonContiguousPositions));

    let mut s = stored();
    s.heads[0].position = -1;
    assert_eq!(snapshot_to_legacy(&s), Err(SyncError::NonContiguousPositions));

    let mut s = stored();
    s.heads[2].name = "top".to_string();
    assert_eq!(snapshot_to_legacy(&s), Err(SyncError::DuplicateHeadName));

    let mut s = stored();
    s.heads[1].name = "only".to_string();
    assert!(snapshot_to_legacy(&s).is_ok());

    let mut s = stored();
    s.heads[0].head_sha = "x".to_string();
    assert_eq!(snapshot_to_legacy(&s), Err(SyncError::InvalidHeadSha));

    let mut s = stored();
    s.heads[0].pr_number = Some(-3);
    assert_eq!(snapshot_to_legacy(&s), Err(SyncError::InvalidPrNumber));

    let mut s = stored();
    s.branch_targets[0].sha = "x".to_string();
    assert_eq!(snapshot_to_legacy(&s), Err(SyncError::InvalidTargetSha));
}

#[test]
fn partial_default_target_is_no_target() {
    let mut s = stored();
    s.state.default_target_remote_url = None;
    s.state.default_target_sha = Some("nothex".to_string());
    let back = snapshot_to_legacy(&s).unwrap();
    assert_eq!(back.default_target, None);
}

fn parsed(data: VirtualBranches, mtime_ns: i64, sha: &str) -> TomlInfo {
    TomlInfo::Parsed(ParsedToml { data, mtime_ns, sha256_hexdigest: sha.to_string() })
}

#[test]
fn uninitialized_store_imports_a_parsed_file() {
    let plan = ensure_vb_storage_in_sync(None, parsed(mirror(), 7, "h")).unwrap();
    match plan {
        SyncPlan::Import { snapshot, data } => {
            assert_eq!(data, mirror());
            assert!(snapshot.state.initialized);
            assert_eq!(snapshot.state.toml_last_seen_mtime_ns, Some(7));
            assert_eq!(snapshot.state.toml_last_seen_sha256.as_deref(), Some("h"));
            assert_eq!(snapshot.stacks.len(), 3);
        }
        other => panic!("expected an import, got {other:?}"),
    }
}

#[test]
fn uninitialized_store_without_file_starts_empty() {
    for info in [TomlInfo::Missing, TomlInfo::Invalid] {
        let plan = ensure_vb_storage_in_sync(None, info).unwrap();
        match plan {
            SyncPlan::Rewrite { snapshot, data } => {
                assert_eq!(data, VirtualBranches::default());
                assert!(snapshot.state.initialized);
                assert!(snapshot.stacks.is_empty());
                assert!(snapshot.heads.is_empty());
                assert!(snapshot.branch_targets.is_empty());
            }
            other => panic!("expected a rewrite, got {other:?}"),
        }
    }
}

#[test]
fn missing_or_invalid_file_is_rewritten_from_the_store() {
    for info in [TomlInfo::Missing, TomlInfo::Invalid] {
        let plan = ensure_vb_storage_in_sync(Some(stored()), info).unwrap();
        match plan {
            SyncPlan::Rewrite { snapshot, data } => {
                assert_eq!(snapshot, stored());
                assert_eq!(data, snapshot_to_legacy(&stored()).unwrap());
            }
            other => panic!("expected a rewrite, got {other:?}"),
        }
    }
}

#[test]
fn toml_newer_wins() {
    let mut edited = snapshot_to_legacy(&stored()).unwrap();
    edited.branches.push(stack("s9", 9, vec![branch("new", SHA_A)]));
    let plan = read_synced_virtual_branches(Some(stored()), parsed(edited.clone(), 101, "seen"))
        .unwrap();
    match plan {
        SyncPlan::Import { snapshot, data } => {
            assert_eq!(data, edited);
            let ids: Vec<&str> = snapshot.stacks.iter().map(|s| s.id.as_str()).collect();
            assert_eq!(ids, vec!["s2", "s1", "s3", "s9"]);
            assert_eq!(snapshot.state.toml_last_seen_mtime_ns, Some(101));
        }
        other => panic!("expected an import, got {other:?}"),
    }
}

#[test]
fn equal_mtime_with_other_hash_imports() {
    let data = snapshot_to_legacy(&stored()).unwrap();
    let plan = ensure_vb_storage_in_sync(Some(stored()), parsed(data, 100, "other")).unwrap();
    assert!(matches!(plan, SyncPlan::Import { .. }));
}

#[test]
fn unchanged_file_needs_nothing() {
    let data = snapshot_to_legacy(&stored()).unwrap();
    let plan = ensure_vb_storage_in_sync(Some(stored()), parsed(mirror(), 100, "seen")).unwrap();
    assert_eq!(plan, SyncPlan::InSync { data });
}

#[test]
fn older_file_is_rewritten() {
    let plan = ensure_vb_storage_in_sync(Some(stored()), parsed(mirror(), 99, "old")).unwrap();
    assert!(matches!(plan, SyncPlan::Rewrite { .. }));
}

#[test]
fn corrupt_store_stops_the_sync() {
    let mut s = stored();
    s.heads[0].stack_id = "gone".to_string();
    assert_eq!(
        ensure_vb_storage_in_sync(Some(s), TomlInfo::Missing),
        Err(SyncError::MissingStack)
    );
}

#[test]
fn written_file_is_recorded() {
    let written = TomlFileState { mtime_ns: 555, sha256_hexdigest: "fresh".to_string() };
    let after = record_written_file(stored(), &written);
    assert_eq!(after.state.toml_last_seen_mtime_ns, Some(555));
    assert_eq!(after.state.toml_last_seen_sha256.as_deref(), Some("fresh"));
    assert_eq!(after.stacks, stored().stacks);
    assert_eq!(after.heads, stored().heads);
    assert_eq!(after.branch_targets, stored().branch_targets);
}

#[test]
fn write_keeps_what_the_store_saw_of_the_file() {
    let snapshot = write_virtual_branches_and_sync(Some(stored()), &mirror()).unwrap();
    assert_eq!(snapshot.state.toml_last_seen_mtime_ns, Some(100));
    assert_eq!(snapshot.state.toml_last_seen_sha256.as_deref(), Some("seen"));
    assert_eq!(snapshot, stored());
    let fresh = write_virtual_branches_and_sync(None, &mirror()).unwrap();
    assert_eq!(fresh.state.toml_last_seen_mtime_ns, None);
    assert!(fresh.state.initialized);
}

#[test]
fn forced_import_needs_a_parsed_file() {
    assert_eq!(import_toml_into_db(TomlInfo::Missing), Err(SyncError::TomlUnavailable));
    assert_eq!(import_toml_into_db(TomlInfo::Invalid), Err(SyncError::TomlUnavailable));
    let snapshot = import_toml_into_db(parsed(mirror(), 3, "abc")).unwrap();
    assert_eq!(snapshot.state.toml_last_seen_mtime_ns, Some(3));
    assert_eq!(snapshot.state.toml_last_seen_sha256.as_deref(), Some("abc"));
    assert_eq!(snapshot.stacks.len(), 3);
}

#[test]
fn file_info_is_taken_from_the_state() {
    let info = into_db_toml_file_info(state_seen(Some(1), Some("s")));
    assert_eq!(info.toml_last_seen_mtime_ns, Some(1));
    assert_eq!(info.toml_last_seen_sha256.as_deref(), Some("s"));
}

#[test]
fn last_seen_metadata_is_updated_in_place() {
    let mut state = state_seen(Some(1), Some("s"));
    let parsed = ParsedToml { data: VirtualBranches::default(), mtime_ns: 2, sha256_hexdigest: "t".to_string() };
    parsed.update_last_seen_metadata_on(&mut state);
    assert_eq!(state, state_seen(Some(2), Some("t")));
    let written = TomlFileState { mtime_ns: 3, sha256_hexdigest: "u".to_string() };
    written.update_last_seen_metadata_on(&mut state);
    assert_eq!(state, state_seen(Some(3), Some("u")));
}

#[test]
fn rows_can_be_built_by_hand() {
    let row = VbStackHead {
        stack_id: "s".to_string(),
        position: 0,
        name: "n".to_string(),
        head_sha: SHA_A.to_string(),
        pr_number: Some(12),
        archived: true,
        review_id: Some("r".to_string()),
    };
    let stack_row = VbStack {
        id: "s".to_string(),
        source_refname: Some("refs/heads/x".to_string()),
        upstream_remote_name: None,
        upstream_branch_name: Some("dangling".to_string()),
        sort_order: 4,
        in_workspace: false,
        legacy_name: "name".to_string(),
        legacy_notes: "notes".to_string(),
        legacy_ownership: "own".to_string(),
        legacy_allow_rebasing: false,
        legacy_post_commits: true,
        legacy_tree_sha: SHA_A.to_string(),
        legacy_head_sha: SHA_B.to_string(),
        legacy_created_timestamp_ms: "1".to_string(),
        legacy_updated_timestamp_ms: "2".to_string(),
    };
    let target_row = VbBranchTarget {
        stack_id: "s".to_string(),
        remote_name: "r".to_string(),
        branch_name: "b".to_string(),
        remote_url: "u".to_string(),
        sha: SHA_C.to_string(),
        push_remote_name: None,
    };
    let snapshot = VirtualBranchesSnapshot {
        state: state_seen(None, None),
        stacks: vec![stack_row],
        heads: vec![row],
        branch_targets: vec![target_row],
    };
    let back = snapshot_to_legacy(&snapshot).unwrap();
    assert_eq!(back.branches[0].upstream, None);
    assert_eq!(back.branches[0].order, 4);
    assert_eq!(back.branches[0].heads[0].pr_number, Some(12));
    assert!(back.branches[0].heads[0].archived);
    assert_eq!(back.branches[0].source_refname.as_deref(), Some("refs/heads/x"));
    assert_eq!(back.branch_targets[0].target.sha, SHA_C);
}
