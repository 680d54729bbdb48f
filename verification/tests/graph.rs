use workspace_engine::graph::{GraphError, Selector, Side, Step, Editor};

fn pick(id: u64) -> Step {
    Step::Pick { commit_id: id, new_message: None }
}

/// base <- A <- B <- C, as nodes 0..=3.
fn linear() -> Editor {
    let mut g = Editor::new();
    g.add_step(pick(10), vec![]).unwrap();
    g.add_step(pick(11), vec![0]).unwrap();
    g.add_step(pick(12), vec![1]).unwrap();
    g.add_step(pick(13), vec![2]).unwrap();
    g
}

/// Two roots (0, 1) merged by node 2, which has the children 3 and 4.
fn merge() -> Editor {
    let mut g = Editor::new();
    g.add_step(pick(1), vec![]).unwrap();
    g.add_step(pick(2), vec![]).unwrap();
    g.add_step(pick(3), vec![0, 1]).unwrap();
    g.add_step(pick(4), vec![2]).unwrap();
    g.add_step(pick(5), vec![2]).unwrap();
    g
}

fn parents(g: &Editor, id: usize) -> Vec<usize> {
    g.parents_of(Selector { id, revision: g.current_revision() }).unwrap()
}

#[test]
fn building_names_nodes_in_order() {
    let mut g = Editor::new();
    assert_eq!(g.len(), 0);
    assert_eq!(g.add_step(pick(1), vec![]), Ok(Selector { id: 0, revision: 0 }));
    assert_eq!(g.add_step(pick(2), vec![0]), Ok(Selector { id: 1, revision: 0 }));
    assert_eq!(g.add_step(pick(3), vec![2]), Err(GraphError::StaleSelector));
    assert_eq!(g.len(), 2);
}

#[test]
fn commits_are_selected_by_their_one_pick() {
    let mut g = linear();
    assert_eq!(g.select_commit(12), Ok(Selector { id: 2, revision: 0 }));
    assert_eq!(g.find_commit(10), Ok(Selector { id: 0, revision: 0 }));
    assert_eq!(g.select_commit(99), Err(GraphError::NotInGraph));
    g.add_step(pick(12), vec![3]).unwrap();
    assert_eq!(g.select_commit(12), Err(GraphError::NotInGraph));
}

#[test]
fn stale_selectors_fail_fast_or_are_normalized() {
    let mut g = linear();
    let b = g.select_commit(12).unwrap();
    g.disconnect(b, b).unwrap();
    assert_eq!(g.current_revision(), 1);
    assert_eq!(g.normalize_selector(b), Ok(Selector { id: 2, revision: 1 }));
    assert_eq!(g.lookup_step(b), Ok(pick(12)));
    assert_eq!(
        g.normalize_selector(Selector { id: 2, revision: 5 }),
        Err(GraphError::StaleSelector)
    );
    assert_eq!(g.lookup_step(Selector { id: 9, revision: 0 }), Err(GraphError::StaleSelector));
}

#[test]
fn linear_remove() {
    let mut g = linear();
    let b = g.select_commit(12).unwrap();
    g.disconnect(b, b).unwrap();
    g.replace(b, Step::Placeholder).unwrap();
    assert_eq!(parents(&g, 3), vec![1]);
    assert_eq!(parents(&g, 2), Vec::<usize>::new());
    assert_eq!(parents(&g, 1), vec![0]);
    assert_eq!(g.lookup_step(b), Ok(Step::Placeholder));
    assert_eq!(g.select_commit(12), Err(GraphError::NotInGraph));
}

#[test]
fn merge_removal_rewires() {
    let mut g = merge();
    let m = g.select_commit(3).unwrap();
    g.disconnect(m, m).unwrap();
    g.replace(m, Step::Placeholder).unwrap();
    assert_eq!(parents(&g, 3), vec![0, 1]);
    assert_eq!(parents(&g, 4), vec![0, 1]);
    assert_eq!(parents(&g, 2), Vec::<usize>::new());
}

#[test]
fn a_run_is_disconnected_as_a_whole() {
    let mut g = linear();
    let a = g.select_commit(11).unwrap();
    let b = g.select_commit(12).unwrap();
    g.disconnect(a, b).unwrap();
    assert_eq!(parents(&g, 3), vec![0]);
    assert_eq!(parents(&g, 2), vec![1]);
    assert_eq!(parents(&g, 1), Vec::<usize>::new());
}

#[test]
fn only_runs_are_disconnected() {
    let mut m = merge();
    let second_root = m.select_commit(2).unwrap();
    let child = m.select_commit(4).unwrap();
    // A run follows first parents only.
    assert_eq!(m.disconnect(second_root, child), Err(GraphError::NotARun));
    assert_eq!(m.disconnect(child, second_root), Err(GraphError::NotARun));
    assert_eq!(m.current_revision(), 0);
    assert_eq!(parents(&m, 3), vec![2]);
    let first_root = m.select_commit(1).unwrap();
    assert_eq!(m.disconnect(first_root, child), Ok(()));
    assert_eq!(m.current_revision(), 1);
}

#[test]
fn the_ends_of_a_run_come_in_either_order() {
    let mut up = linear();
    let mut down = linear();
    let (a, b) = (up.select_commit(11).unwrap(), up.select_commit(12).unwrap());
    up.disconnect(a, b).unwrap();
    down.disconnect(b, a).unwrap();
    for node in 0..4 {
        assert_eq!(parents(&up, node), parents(&down, node));
    }
}

#[test]
fn insert_above_and_below() {
    let mut g = linear();
    let b = g.select_commit(12).unwrap();
    let above = g.insert(b, pick(20), Side::Above).unwrap();
    assert_eq!(above, Selector { id: 4, revision: 1 });
    assert_eq!(parents(&g, 4), vec![2]);
    assert_eq!(parents(&g, 3), vec![4]);
    let below = g.insert(b, pick(21), Side::Below).unwrap();
    assert_eq!(below, Selector { id: 5, revision: 2 });
    assert_eq!(parents(&g, 5), vec![1]);
    assert_eq!(parents(&g, 2), vec![5]);
}

#[test]
fn replace_keeps_edges_and_revision() {
    let mut g = linear();
    let b = g.select_commit(12).unwrap();
    assert_eq!(g.replace(b, Step::Pick { commit_id: 77, new_message: Some(1) }), Ok(b));
    assert_eq!(g.current_revision(), 0);
    assert_eq!(parents(&g, 2), vec![1]);
    assert_eq!(g.select_commit(77), Ok(b));
    assert_eq!(
        g.replace(Selector { id: 8, revision: 0 }, Step::Placeholder),
        Err(GraphError::StaleSelector)
    );
}

#[test]
fn references_land_on_the_first_pick_below() {
    let mut g = linear();
    let r = g.add_step(Step::Reference { refname: 1 }, vec![2]).unwrap();
    assert_eq!(g.find_reference_target(r), Ok(Selector { id: 2, revision: 0 }));
    let b = g.select_commit(12).unwrap();
    g.replace(b, Step::Placeholder).unwrap();
    assert_eq!(g.find_reference_target(r), Ok(Selector { id: 1, revision: 0 }));
    let lonely = g.add_step(Step::Reference { refname: 2 }, vec![]).unwrap();
    assert_eq!(g.find_reference_target(lonely), Err(GraphError::NoReferenceTarget));
    assert_eq!(g.find_reference_target(b), Err(GraphError::WrongStepKind));
}

#[test]
fn selectable_commits_are_picks() {
    let mut g = linear();
    let b = g.select_commit(12).unwrap();
    assert_eq!(g.find_selectable_commit(b), Ok((b, 12)));
    let r = g.add_step(Step::Reference { refname: 1 }, vec![2]).unwrap();
    assert_eq!(g.find_selectable_commit(r), Err(GraphError::WrongStepKind));
}
