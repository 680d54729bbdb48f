use workspace_engine::stack::{
    is_empty_head, set_heads_from_rebase_output, stack_is_listed, visible_heads, StackHead,
};

fn head(refname: u64, commit: u64) -> StackHead {
    StackHead { refname, commit }
}

#[test]
fn heads_follow_their_references() {
    let mut heads = vec![head(1, 10), head(2, 20), head(3, 30)];
    set_heads_from_rebase_output(&mut heads, &vec![(3, 31), (1, 11), (1, 12), (9, 99)]);
    assert_eq!(heads, vec![head(1, 11), head(2, 20), head(3, 31)]);
}

#[test]
fn a_head_at_the_commit_below_is_empty() {
    let heads = vec![head(1, 10), head(2, 10), head(3, 5)];
    assert!(is_empty_head(&heads, 0, 4));
    assert!(!is_empty_head(&heads, 1, 4));
    assert!(!is_empty_head(&heads, 2, 4));
    assert!(is_empty_head(&heads, 2, 5));
    assert!(!is_empty_head(&heads, 3, 5));
}

#[test]
fn empty_heads_can_be_left_out() {
    let heads = vec![head(1, 10), head(2, 10), head(3, 5)];
    assert_eq!(visible_heads(&heads, Some(5), false), vec![0, 1, 2]);
    assert_eq!(visible_heads(&heads, Some(5), true), vec![1]);
    assert_eq!(visible_heads(&heads, Some(4), true), vec![1, 2]);
    assert_eq!(visible_heads(&vec![], Some(5), true), Vec::<usize>::new());
}

#[test]
fn without_a_target_no_head_is_left_out() {
    let heads = vec![head(1, 10), head(2, 10), head(3, 5)];
    assert_eq!(visible_heads(&heads, None, true), vec![0, 1, 2]);
    assert_eq!(visible_heads(&heads, None, false), vec![0, 1, 2]);
}

#[test]
fn a_stack_left_without_heads_is_not_listed() {
    let all_empty = vec![head(1, 5), head(2, 5)];
    assert_eq!(visible_heads(&all_empty, Some(5), true), Vec::<usize>::new());
    assert!(!stack_is_listed(&all_empty, Some(5), true));
    assert!(stack_is_listed(&all_empty, Some(5), false));
    assert!(stack_is_listed(&all_empty, None, true));
    assert!(stack_is_listed(&all_empty, Some(4), true));
    assert!(!stack_is_listed(&vec![], None, false));
}
