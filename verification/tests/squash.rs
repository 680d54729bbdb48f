use workspace_engine::squash::{
    contains_id, place_sources, remap_sources, remove_sources, squash_merge_input, squash_message, squash_order, squash_reorder, MergeInput,
    squash_steps, squash_tree, squash_tree_step, validate, MergeOutcome, RebaseStep,
    SquashCommit, SquashError,
};

fn commit(id: u64, message: &str) -> SquashCommit {
    SquashCommit { id, conflicted: false, message: message.to_string() }
}

#[test]
fn ids_are_found() {
    assert!(contains_id(&vec![1, 2, 3], 2));
    assert!(!contains_id(&vec![1, 2, 3], 4));
    assert!(!contains_id(&vec![], 4));
}

#[test]
fn sources_are_removed_and_placed_above_the_destination() {
    assert_eq!(remove_sources(&vec![5, 4, 3, 2, 1], &vec![4, 1]), vec![5, 3, 2]);
    assert_eq!(place_sources(&vec![5, 3, 2], 3, &vec![4, 1]), vec![5, 4, 1, 3, 2]);
    assert_eq!(place_sources(&vec![5, 3, 2], 9, &vec![4, 1]), vec![5, 3, 2]);
    assert_eq!(place_sources(&vec![3], 3, &vec![]), vec![3]);
}

#[test]
fn order_moves_sources_into_the_series_of_the_destination() {
    let order = vec![vec![9, 8, 7], vec![6, 5], vec![]];
    assert_eq!(
        squash_order(&order, 5, &vec![9, 7]),
        vec![vec![8], vec![6, 9, 7, 5], vec![]]
    );
}

#[test]
fn sources_follow_the_reorder() {
    assert_eq!(remap_sources(vec![1, 2, 3], &vec![(2, 20), (9, 90), (1, 10)]), vec![10, 20, 3]);
    assert_eq!(remap_sources(vec![1, 1], &vec![(1, 5)]), vec![5, 1]);
    assert_eq!(remap_sources(vec![1], &vec![(1, 2), (2, 3)]), vec![3]);
}

#[test]
fn squash_into_itself_is_refused() {
    let r = validate(true, &vec![1, 2], &vec![], &vec![commit(1, "a")], &commit(1, "a"));
    assert_eq!(r, Err(SquashError::SquashIntoItself));
}

#[test]
fn commits_outside_the_stack_are_refused() {
    let r = validate(true, &vec![1, 2], &vec![], &vec![commit(2, "a"), commit(7, "b")], &commit(1, "a"));
    assert_eq!(r, Err(SquashError::SourceNotInStack { commit_id: 7 }));
    let r = validate(true, &vec![1, 2], &vec![], &vec![commit(2, "a")], &commit(8, "a"));
    assert_eq!(r, Err(SquashError::DestinationNotInStack { commit_id: 8 }));
}

#[test]
fn conflicted_commits_are_refused() {
    let mut bad = commit(2, "a");
    bad.conflicted = true;
    let r = validate(true, &vec![1, 2], &vec![], &vec![bad.clone()], &commit(1, "a"));
    assert_eq!(r, Err(SquashError::ConflictedSource { commit_id: 2 }));
    let r = validate(true, &vec![1, 2], &vec![], &vec![commit(1, "a")], &bad);
    assert_eq!(r, Err(SquashError::ConflictedDestination));
}

#[test]
fn pushed_commits_are_refused_unless_rebasing_is_allowed() {
    let sources = vec![commit(2, "a")];
    let r = validate(false, &vec![1, 2], &vec![2], &sources, &commit(1, "a"));
    assert_eq!(r, Err(SquashError::SourceAlreadyPushed { commit_id: 2 }));
    let r = validate(false, &vec![1, 2], &vec![1], &sources, &commit(1, "a"));
    assert_eq!(r, Err(SquashError::DestinationAlreadyPushed { commit_id: 1 }));
    assert_eq!(validate(true, &vec![1, 2], &vec![1, 2], &sources, &commit(1, "a")), Ok(()));
    assert_eq!(validate(false, &vec![1, 2], &vec![], &sources, &commit(1, "a")), Ok(()));
}

#[test]
fn squash_preserves_messages() {
    let message = squash_message(&commit(1, "X"), &vec![commit(2, "Y"), commit(3, "Z")]);
    assert_eq!(message, "X\nY\nZ");
}

#[test]
fn blank_messages_are_left_out() {
    assert_eq!(squash_message(&commit(1, " \n"), &vec![commit(2, "Y"), commit(3, "")]), "Y");
    assert_eq!(squash_message(&commit(1, "X"), &vec![commit(2, "\t"), commit(3, "Z\n")]), "X\nZ\n");
    assert_eq!(squash_message(&commit(1, ""), &vec![]), "");
}

#[test]
fn steps_drop_sources_and_replace_the_destination() {
    // Tip first: Z(3) Y(2) X(1), squash Y and Z into X.
    // After the reorder the stack is Y Z X; heads: 0 at Z, 1 at X, 2 at the base.
    let steps = squash_steps(100, &vec![2, 3, 1], &vec![2, 3], 1, 50, &vec![3, 1, 100]);
    assert_eq!(
        steps,
        vec![
            RebaseStep::Reference { head: 2 },
            RebaseStep::Pick { commit_id: 50 },
            RebaseStep::Reference { head: 1 },
            RebaseStep::Reference { head: 0 },
        ]
    );
}

#[test]
fn squash_shortens_the_stack_by_its_sources() {
    let commits = vec![9, 4, 5, 3, 2, 1];
    let sources = vec![4, 5];
    let steps = squash_steps(100, &commits, &sources, 3, 50, &vec![9]);
    let picks: Vec<u64> = steps
        .iter()
        .filter_map(|s| match s {
            RebaseStep::Pick { commit_id } => Some(*commit_id),
            _ => None,
        })
        .collect();
    assert_eq!(picks.len(), commits.len() - sources.len());
    assert_eq!(picks, vec![1, 2, 50, 9]);
}

#[test]
fn trees_are_merged_in_order() {
    assert_eq!(squash_tree(7, &vec![]), Ok(7));
    assert_eq!(
        squash_tree(7, &vec![MergeOutcome::Clean { tree: 8 }, MergeOutcome::Clean { tree: 9 }]),
        Ok(9)
    );
    assert_eq!(
        squash_tree(7, &vec![MergeOutcome::Conflicted, MergeOutcome::Clean { tree: 9 }]),
        Err(SquashError::MergeConflict)
    );
    assert_eq!(squash_tree_step(7, MergeOutcome::Clean { tree: 8 }), Ok(8));
    assert_eq!(squash_tree_step(7, MergeOutcome::Conflicted), Err(SquashError::MergeConflict));
}

#[test]
fn a_stack_in_order_needs_no_reorder() {
    let order = vec![vec![9, 7, 5, 4], vec![3]];
    assert_eq!(squash_reorder(&order, 5, &vec![9, 7]), None);
    assert_eq!(squash_reorder(&order, 5, &vec![7, 9]), Some(vec![vec![7, 9, 5, 4], vec![3]]));
    assert_eq!(squash_reorder(&order, 4, &vec![3]), Some(vec![vec![9, 7, 5, 3, 4], vec![]]));
    assert_eq!(squash_reorder(&vec![], 4, &vec![3]), None);
}

#[test]
fn each_source_is_merged_into_the_tree_so_far() {
    // The destination's tree is 7; the first source (parent tree 1, tree 2) gives 8.
    assert_eq!(squash_merge_input(7, 1, 2), MergeInput { base: 1, ours: 2, theirs: 7 });
    let current = squash_tree_step(7, MergeOutcome::Clean { tree: 8 }).unwrap();
    assert_eq!(squash_merge_input(current, 3, 4), MergeInput { base: 3, ours: 4, theirs: 8 });
}
