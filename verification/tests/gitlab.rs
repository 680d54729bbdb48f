use workspace_engine::gitlab::update_draft_state_in_title;

#[test]
fn makes_title_draft() {
    assert_eq!(
        update_draft_state_in_title("Add API validation", true),
        "Draft: Add API validation"
    );
}

#[test]
fn draft_state_noops_when_already_draft() {
    assert_eq!(
        update_draft_state_in_title("Draft: Add API validation", true),
        "Draft: Add API validation"
    );
    assert_eq!(
        update_draft_state_in_title("draft: Add API validation", true),
        "draft: Add API validation"
    );
    assert_eq!(
        update_draft_state_in_title("wip: Add API validation", true),
        "wip: Add API validation"
    );
    assert_eq!(
        update_draft_state_in_title("Wip: Add API validation", true),
        "Wip: Add API validation"
    );
}

#[test]
fn removes_draft_prefix_for_ready_state() {
    assert_eq!(
        update_draft_state_in_title("Draft: Add API validation", false),
        "Add API validation"
    );
}

#[test]
fn removes_wip_prefix_for_ready_state() {
    assert_eq!(
        update_draft_state_in_title("WIP: Add API validation", false),
        "Add API validation"
    );
}
