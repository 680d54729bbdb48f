use workspace_engine::commit::{
    amend_target, commit_amend, commit_create, parent_commit_id_for_new_commit, CommitError,
    CreateCommitOutcome, RejectedSpec,
};
use workspace_engine::executor::{
    emitted_commit, honors_cancellation, plan_pick, Phase, PickAction, PickFacts, Rebase,
    SuccessfulRebase, Work,
};
use workspace_engine::graph::{GraphError, Selector, Side, Step, Editor};

fn pick(id: u64) -> Step {
    Step::Pick { commit_id: id, new_message: None }
}

/// base(10) <- A(11) <- B(12) <- C(13), as nodes 0..=3.
fn linear() -> Editor {
    let mut g = Editor::new();
    g.add_step(pick(10), vec![]).unwrap();
    g.add_step(pick(11), vec![0]).unwrap();
    g.add_step(pick(12), vec![1]).unwrap();
    g.add_step(pick(13), vec![2]).unwrap();
    g
}

/// Runs a rebase in which `parents_of` tells the parents that each commit
/// has in the object database, and a re-created commit gets its old id
/// plus a thousand.
fn run(graph: Editor, parents_of: &dyn Fn(u64) -> Vec<u64>, conflicted: &[u64]) -> (SuccessfulRebase, Vec<(u64, Vec<u64>)>) {
    let mut rebase = Rebase::start(graph, 1);
    let mut created = Vec::new();
    loop {
        match rebase.next() {
            Work::Done => break,
            Work::Pick { node, commit_id, new_message, parents } => {
                let facts = PickFacts {
                    conflicted: conflicted.contains(&commit_id),
                    parents: parents_of(commit_id),
                };
                let action = plan_pick(new_message, &facts, &parents);
                if action == PickAction::Recommit {
                    created.push((commit_id, parents.clone()));
                }
                let commit = emitted_commit(commit_id, action, commit_id + 1000);
                rebase.record(node, commit).unwrap();
            }
        }
    }
    (rebase.finish().unwrap(), created)
}

fn linear_parents(commit: u64) -> Vec<u64> {
    if commit == 10 { vec![] } else { vec![commit - 1] }
}

fn at(id: usize) -> Selector {
    Selector { id, revision: 0 }
}

#[test]
fn unchanged_picks_keep_their_commits() {
    let (done, created) = run(linear(), &linear_parents, &[]);
    assert!(created.is_empty());
    for (node, commit) in [(0, 10), (1, 11), (2, 12), (3, 13)] {
        assert_eq!(done.resolve(at(node)), Ok(commit));
    }
}

#[test]
fn linear_remove_replays_the_descendants() {
    let mut g = linear();
    let b = g.select_commit(12).unwrap();
    g.disconnect(b, b).unwrap();
    g.replace(b, Step::Placeholder).unwrap();
    let (done, created) = run(g, &linear_parents, &[]);
    // Only C is re-created, on A.
    assert_eq!(created, vec![(13, vec![11])]);
    assert_eq!(done.resolve(at(0)), Ok(10));
    assert_eq!(done.resolve(at(1)), Ok(11));
    assert_eq!(done.resolve(at(3)), Ok(1013));
    // The removed step has no parents left and resolves to the base.
    assert_eq!(done.resolve(b), Ok(1));
}

#[test]
fn skipped_steps_hand_their_parents_on() {
    let mut g = linear();
    let b = g.select_commit(12).unwrap();
    g.replace(b, Step::Placeholder).unwrap();
    let (done, created) = run(g, &linear_parents, &[]);
    assert_eq!(created, vec![(13, vec![11])]);
    assert_eq!(done.resolve(b), Ok(11));
}

#[test]
fn merge_removal_hands_both_parents_to_both_children() {
    let mut g = Editor::new();
    g.add_step(pick(1), vec![]).unwrap();
    g.add_step(pick(2), vec![]).unwrap();
    g.add_step(pick(3), vec![0, 1]).unwrap();
    g.add_step(pick(4), vec![2]).unwrap();
    g.add_step(pick(5), vec![2]).unwrap();
    let m = g.select_commit(3).unwrap();
    g.disconnect(m, m).unwrap();
    g.replace(m, Step::Placeholder).unwrap();
    let parents = |c: u64| match c {
        3 => vec![1, 2],
        4 | 5 => vec![3],
        _ => vec![],
    };
    let (_, created) = run(g, &parents, &[]);
    assert_eq!(created, vec![(4, vec![1, 2]), (5, vec![1, 2])]);
}

#[test]
fn reworded_and_conflicted_picks_are_always_recommitted() {
    let facts = PickFacts { conflicted: false, parents: vec![1] };
    assert_eq!(plan_pick(None, &facts, &vec![1]), PickAction::Reuse);
    assert_eq!(plan_pick(Some(7), &facts, &vec![1]), PickAction::Recommit);
    assert_eq!(plan_pick(None, &facts, &vec![2]), PickAction::Recommit);
    assert_eq!(plan_pick(None, &facts, &vec![1, 1]), PickAction::Recommit);
    let conflicted = PickFacts { conflicted: true, parents: vec![1] };
    assert_eq!(plan_pick(None, &conflicted, &vec![1]), PickAction::Recommit);
    assert_eq!(emitted_commit(5, PickAction::Reuse, 9), 5);
    assert_eq!(emitted_commit(5, PickAction::Recommit, 9), 9);
}

#[test]
fn conflict_materializes_not_fails() {
    let (done, created) = run(linear(), &linear_parents, &[12]);
    // The conflicted commit is re-created, and so is what follows it.
    assert_eq!(created, vec![(12, vec![11]), (13, vec![1012])]);
    assert_eq!(done.resolve(at(2)), Ok(1012));
    assert_eq!(done.resolve(at(3)), Ok(1013));
}

#[test]
fn references_land_on_the_pick_below_or_on_the_base() {
    let mut g = linear();
    g.add_step(Step::Reference { refname: 70 }, vec![3]).unwrap();
    g.add_step(Step::Reference { refname: 71 }, vec![]).unwrap();
    g.add_step(Step::Reference { refname: 72 }, vec![4]).unwrap();
    let (done, _) = run(g, &linear_parents, &[]);
    assert_eq!(done.references(), vec![(70, 13), (71, 1), (72, 13)]);
    assert_eq!(done.resolve(at(4)), Ok(13));
    assert_eq!(done.resolve(at(5)), Ok(1));
    assert_eq!(done.resolve(at(9)), Err(GraphError::StaleSelector));
}

#[test]
fn every_selector_of_the_editor_resolves() {
    let mut g = linear();
    let mut issued = vec![g.select_commit(11).unwrap(), g.select_commit(13).unwrap()];
    let b = g.select_commit(12).unwrap();
    issued.push(b);
    issued.push(g.insert(b, pick(20), Side::Above).unwrap());
    g.disconnect(b, b).unwrap();
    issued.push(g.insert(b, pick(21), Side::Below).unwrap());
    let (done, _) = run(g, &linear_parents, &[]);
    for s in issued {
        assert!(done.resolve(s).is_ok());
    }
}

#[test]
fn a_rebase_cannot_be_closed_early() {
    let mut rebase = Rebase::start(linear(), 1);
    assert!(matches!(rebase.next(), Work::Pick { node: 0, commit_id: 10, .. }));
    assert!(matches!(rebase.finish(), Err(GraphError::Unsettled)));
}

#[test]
fn only_ready_picks_can_be_recorded() {
    let mut g = linear();
    g.add_step(Step::Reference { refname: 1 }, vec![0]).unwrap();
    let mut rebase = Rebase::start(g, 1);
    assert_eq!(rebase.record(3, 13), Err(GraphError::WrongStepKind));
    assert_eq!(rebase.record(4, 13), Err(GraphError::WrongStepKind));
    assert_eq!(rebase.record(9, 13), Err(GraphError::WrongStepKind));
    assert_eq!(rebase.record(0, 10), Ok(()));
    assert_eq!(rebase.record(0, 10), Err(GraphError::WrongStepKind));
}

#[test]
fn amend_with_partial_rejection() {
    let mut g = linear();
    let c = g.select_commit(13).unwrap();
    assert_eq!(amend_target(&g, c, false), Ok((c, 13)));
    let rejected = vec![RejectedSpec { reason: 2, change: 1 }];
    let created = CreateCommitOutcome { new_commit: Some(99), rejected_specs: rejected.clone() };
    let out = commit_amend(&mut g, c, false, created).unwrap();
    assert_eq!(out.commit_selector, Some(c));
    assert_eq!(out.rejected_specs, rejected);
    assert_eq!(g.lookup_step(c), Ok(pick(99)));
    assert_eq!(g.select_commit(13), Err(GraphError::NotInGraph));
    assert_eq!(g.parents_of(c), Ok(vec![2]));
}

#[test]
fn amend_with_everything_rejected_changes_nothing() {
    let mut g = linear();
    let c = g.select_commit(13).unwrap();
    let rejected = vec![RejectedSpec { reason: 2, change: 0 }, RejectedSpec { reason: 3, change: 1 }];
    let created = CreateCommitOutcome { new_commit: None, rejected_specs: rejected.clone() };
    let out = commit_amend(&mut g, c, false, created).unwrap();
    assert_eq!(out.commit_selector, None);
    assert_eq!(out.rejected_specs, rejected);
    assert_eq!(g.lookup_step(c), Ok(pick(13)));
}

#[test]
fn conflicted_commits_are_not_amended() {
    let mut g = linear();
    let c = g.select_commit(13).unwrap();
    assert_eq!(amend_target(&g, c, true), Err(CommitError::ConflictedCommit));
    let built = |commit| CreateCommitOutcome { new_commit: commit, rejected_specs: vec![] };
    assert_eq!(commit_amend(&mut g, c, true, built(Some(99))), Err(CommitError::ConflictedCommit));
    assert_eq!(commit_amend(&mut g, c, true, built(None)), Err(CommitError::ConflictedCommit));
    assert_eq!(g.lookup_step(c), Ok(pick(13)));
    let r = g.add_step(Step::Reference { refname: 1 }, vec![3]).unwrap();
    assert_eq!(
        amend_target(&g, r, false),
        Err(CommitError::Graph { error: GraphError::WrongStepKind })
    );
    assert_eq!(
        commit_amend(&mut g, r, false, built(Some(99))),
        Err(CommitError::Graph { error: GraphError::WrongStepKind })
    );
    assert_eq!(
        amend_target(&g, at(9), true),
        Err(CommitError::Graph { error: GraphError::StaleSelector })
    );
    assert_eq!(
        commit_amend(&mut g, at(9), false, built(None)),
        Err(CommitError::Graph { error: GraphError::StaleSelector })
    );
}

#[test]
fn new_commits_find_their_parent() {
    let mut g = linear();
    let b = g.select_commit(12).unwrap();
    let r = g.add_step(Step::Reference { refname: 1 }, vec![3]).unwrap();
    let lonely = g.add_step(Step::Reference { refname: 2 }, vec![]).unwrap();
    let gone = g.add_step(Step::Placeholder, vec![3]).unwrap();
    assert_eq!(parent_commit_id_for_new_commit(&g, b, Side::Above, Some(11)), Ok(Some(12)));
    assert_eq!(parent_commit_id_for_new_commit(&g, b, Side::Below, Some(11)), Ok(Some(11)));
    assert_eq!(parent_commit_id_for_new_commit(&g, b, Side::Below, None), Ok(None));
    assert_eq!(parent_commit_id_for_new_commit(&g, r, Side::Above, None), Ok(Some(13)));
    assert_eq!(parent_commit_id_for_new_commit(&g, r, Side::Below, None), Ok(Some(13)));
    assert_eq!(
        parent_commit_id_for_new_commit(&g, lonely, Side::Below, None),
        Err(GraphError::NoReferenceTarget)
    );
    assert_eq!(parent_commit_id_for_new_commit(&g, gone, Side::Above, Some(5)), Ok(None));
    assert_eq!(
        parent_commit_id_for_new_commit(&g, at(40), Side::Above, None),
        Err(GraphError::StaleSelector)
    );
}

#[test]
fn create_inserts_or_leaves_the_graph_alone() {
    let mut g = linear();
    let b = g.select_commit(12).unwrap();
    let nothing = CreateCommitOutcome {
        new_commit: None,
        rejected_specs: vec![RejectedSpec { reason: 1, change: 0 }],
    };
    let out = commit_create(&mut g, b, Side::Above, nothing.clone()).unwrap();
    // The continuation is handed back, with every pick where it was.
    assert!(out.rebase);
    assert_eq!(out.commit_selector, None);
    assert_eq!(out.rejected_specs.len(), 1);
    assert_eq!(g.len(), 4);
    assert_eq!(g.current_revision(), 0);
    let (done, created) = run(linear(), &linear_parents, &[]);
    assert!(created.is_empty());
    assert_eq!(done.resolve(b), Ok(12));
    assert_eq!(
        commit_create(&mut g, at(9), Side::Above, nothing),
        Err(GraphError::StaleSelector)
    );
    let created = CreateCommitOutcome { new_commit: Some(50), rejected_specs: vec![] };
    let out = commit_create(&mut g, b, Side::Above, created).unwrap();
    assert!(out.rebase);
    assert_eq!(out.commit_selector, Some(Selector { id: 4, revision: 1 }));
    assert_eq!(g.lookup_step(at(4)), Ok(pick(50)));
    assert_eq!(g.parents_of(at(3)), Ok(vec![4]));
}

#[test]
fn cancellation_is_honored_until_references_move() {
    assert!(honors_cancellation(None, true));
    assert!(honors_cancellation(Some(Phase::Plan), true));
    assert!(honors_cancellation(Some(Phase::ObjectWrite), true));
    assert!(!honors_cancellation(Some(Phase::ReferenceUpdate), true));
    assert!(!honors_cancellation(None, false));
    assert!(!honors_cancellation(Some(Phase::Plan), false));
}

#[test]
fn disconnect_and_remove_middle_commit_in_linear_history() {
    let mut g = linear();
    let b_selector = g.select_commit(12).unwrap();
    g.disconnect(b_selector, b_selector).unwrap();
    g.replace(b_selector, Step::Placeholder).unwrap();
    let (done, created) = run(g, &linear_parents, &[]);
    // c is re-created on a; a and the base stay as they are.
    assert_eq!(created, vec![(13, vec![11])]);
    assert_eq!(done.resolve(at(3)), Ok(1013));
    assert_eq!(done.resolve(at(1)), Ok(11));
    assert_eq!(done.resolve(at(0)), Ok(10));
}

#[test]
fn disconnect_and_remove_two_middle_commits_in_linear_history() {
    let mut g = linear();
    let b_selector = g.select_commit(12).unwrap();
    let a_selector = g.select_commit(11).unwrap();
    g.disconnect(b_selector, a_selector).unwrap();
    g.replace(b_selector, Step::Placeholder).unwrap();
    g.replace(a_selector, Step::Placeholder).unwrap();
    let (done, created) = run(g, &linear_parents, &[]);
    // c is re-created on the base.
    assert_eq!(created, vec![(13, vec![10])]);
    assert_eq!(done.resolve(at(3)), Ok(1013));
    assert_eq!(done.resolve(at(0)), Ok(10));
}

#[test]
fn disconnect_and_remove_commit_in_merge_history_rewires_children() {
    // base(0); A(1) and C(2) on the base; their merge(3); a commit on top(4);
    // the branch A as a reference(5) at A.
    let mut g = Editor::new();
    g.add_step(pick(100), vec![]).unwrap();
    g.add_step(pick(101), vec![0]).unwrap();
    g.add_step(pick(102), vec![0]).unwrap();
    g.add_step(pick(103), vec![1, 2]).unwrap();
    g.add_step(pick(104), vec![3]).unwrap();
    let branch_a = g.add_step(Step::Reference { refname: 7 }, vec![1]).unwrap();
    let parents = |c: u64| match c {
        101 | 102 => vec![100],
        103 => vec![101, 102],
        104 => vec![103],
        _ => vec![],
    };
    let a_selector = g.select_commit(101).unwrap();
    g.disconnect(a_selector, a_selector).unwrap();
    g.replace(a_selector, Step::Placeholder).unwrap();
    let (done, created) = run(g, &parents, &[]);
    // A now points to the base.
    assert_eq!(done.resolve(branch_a), Ok(100));
    assert_eq!(done.references(), vec![(7, 100)]);
    // The merge is re-created on the base and C, and so is what follows it.
    assert_eq!(created, vec![(103, vec![100, 102]), (104, vec![1103])]);
    assert_eq!(done.resolve(at(2)), Ok(102));
}

#[test]
fn disconnect_and_remove_merge_with_two_parents_and_two_children() {
    // base(0); P1(1), P2(2); M(3) merges them; C1(4), C2(5) on M; the tip(6) merges those.
    let mut g = Editor::new();
    g.add_step(pick(100), vec![]).unwrap();
    g.add_step(pick(101), vec![0]).unwrap();
    g.add_step(pick(102), vec![0]).unwrap();
    g.add_step(pick(103), vec![1, 2]).unwrap();
    g.add_step(pick(104), vec![3]).unwrap();
    g.add_step(pick(105), vec![3]).unwrap();
    g.add_step(pick(106), vec![4, 5]).unwrap();
    let parents = |c: u64| match c {
        101 | 102 => vec![100],
        103 => vec![101, 102],
        104 | 105 => vec![103],
        106 => vec![104, 105],
        _ => vec![],
    };
    let merge_selector = g.select_commit(103).unwrap();
    g.disconnect(merge_selector, merge_selector).unwrap();
    g.replace(merge_selector, Step::Placeholder).unwrap();
    assert_eq!(g.parents_of(at(4)), Ok(vec![1, 2]));
    assert_eq!(g.parents_of(at(5)), Ok(vec![1, 2]));
    let (done, created) = run(g, &parents, &[]);
    // C1 and C2 have both merge parents after removing M.
    assert_eq!(
        created,
        vec![(104, vec![101, 102]), (105, vec![101, 102]), (106, vec![1104, 1105])]
    );
    assert_eq!(done.resolve(at(1)), Ok(101));
    assert_eq!(done.resolve(at(2)), Ok(102));
}

#[test]
fn amend_commit_smoke_test() {
    let mut g = linear();
    let two = g.select_commit(12).unwrap();
    let (target, commit) = amend_target(&g, two, false).unwrap();
    assert_eq!(commit, 12);
    let created = CreateCommitOutcome { new_commit: Some(212), rejected_specs: vec![] };
    let outcome = commit_amend(&mut g, target, false, created).unwrap();
    assert!(outcome.rejected_specs.is_empty());
    let selector = outcome.commit_selector.expect("selector exists");
    let amended_parents = |c: u64| if c == 212 { vec![11] } else { linear_parents(c) };
    let (done, created) = run(g, &amended_parents, &[]);
    // The amended commit stands in place of the old one, and what follows is replayed on it.
    assert_eq!(done.resolve(selector), Ok(212));
    assert_eq!(created, vec![(13, vec![212])]);
}
