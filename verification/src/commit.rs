//! Amending a commit and creating a new one in the step graph.
//!
//! Both operations build their commit from changes of the worktree. Each
//! change may be rejected; the operation then succeeds in part, and where
//! every change is rejected no commit is produced at all. Building the
//! commit is the caller's part: the functions here say where it goes, and
//! put it into the graph.

use vstd::prelude::*;
use crate::graph::{
    normalize_spec, reference_target_spec, insert_spec, replace_spec, GraphError, Selector, Side,
    Step, Editor,
};
use crate::squash::CommitId;

verus! {

/// A change that could not be applied.
#[derive(Debug, Clone, Copy, PartialEq, Eq, Structural)]
pub struct RejectedSpec {
    /// Why the change was rejected, by the code of the reason.
    pub reason: u32,
    /// The position of the change among the changes that were given.
    pub change: usize,
}

/// What building a commit from changes gave.
#[derive(Debug, Clone, PartialEq, Eq)]
pub struct CreateCommitOutcome {
    /// The new commit; none where every change was rejected.
    pub new_commit: Option<CommitId>,
    /// The changes that were rejected.
    pub rejected_specs: Vec<RejectedSpec>,
}

/// The result of amending a commit.
#[derive(Debug, Clone, PartialEq, Eq)]
pub struct CommitAmendOutcome {
    /// The amended commit's node, if a commit was produced.
    pub commit_selector: Option<Selector>,
    /// The changes that were rejected.
    pub rejected_specs: Vec<RejectedSpec>,
}

/// The result of creating a commit.
#[derive(Debug, Clone, PartialEq, Eq)]
pub struct CommitCreateOutcome {
    /// Whether the continuation is handed back: the graph, with the new
    /// commit or as it was, is to be carried out by the caller. It always
    /// is, also where every change was rejected.
    pub rebase: bool,
    /// The new commit's node, if a commit was produced.
    pub commit_selector: Option<Selector>,
    /// The changes that were rejected.
    pub rejected_specs: Vec<RejectedSpec>,
}

/// Why an amend or a create was refused.
#[derive(Debug, Clone, Copy, PartialEq, Eq, Structural)]
pub enum CommitError {
    /// The graph refused the selector or the edit.
    Graph { error: GraphError },
    /// The commit to amend is conflicted.
    ConflictedCommit,
}

/// The commit that an amend of `commit` rewrites, where it may be amended:
/// the selector must name a pick, and its commit must not be conflicted.
pub open spec fn amend_target_spec(
    g: crate::graph::StepGraphView,
    commit: Selector,
    conflicted: bool,
) -> Result<(Selector, CommitId), CommitError> {
    match normalize_spec(g, commit) {
        Err(e) => Err(CommitError::Graph { error: e }),
        Ok(n) => if !(g.steps[n.id as int] is Pick) {
            Err(CommitError::Graph { error: GraphError::WrongStepKind })
        } else if conflicted {
            Err(CommitError::ConflictedCommit)
        } else {
            Ok((n, g.steps[n.id as int]->commit_id))
        },
    }
}

/// Find the commit that an amend rewrites and check that it may be
/// amended; `conflicted` tells whether the commit named by `commit` is.
pub fn amend_target(graph: &Editor, commit: Selector, conflicted: bool) -> (r: Result<
    (Selector, CommitId),
    CommitError,
>)
    ensures
        r == amend_target_spec(graph@, commit, conflicted),
{
    match graph.find_selectable_commit(commit) {
        Err(e) => Err(CommitError::Graph { error: e }),
        Ok(found) => {
            if conflicted {
                Err(CommitError::ConflictedCommit)
            } else {
                Ok(found)
            }
        },
    }
}

/// Put the commit that was built for an amend in place of the commit
/// that `commit` selects; `conflicted` tells whether that commit is.
///
/// The amend is refused where the selector names no pick of the graph, and
/// where the commit is conflicted; the graph then stays as it is. Where
/// every change was rejected there is no commit: the graph stays as it is
/// and no selector is returned. Else the selected pick replays the new
/// commit. The rejected changes are handed on either way.
pub fn commit_amend(
    graph: &mut Editor,
    commit: Selector,
    conflicted: bool,
    created: CreateCommitOutcome,
) -> (r: Result<CommitAmendOutcome, CommitError>)
    requires
        old(graph).wf(),
    ensures
        final(graph).wf(),
        match r {
            Ok(out) => {
                &&& amend_target_spec(old(graph)@, commit, conflicted) is Ok
                &&& out.rejected_specs@ == created.rejected_specs@
                &&& match created.new_commit {
                    None => out.commit_selector is None && final(graph)@ == old(graph)@,
                    Some(c) => {
                        &&& out.commit_selector == Some(
                            amend_target_spec(old(graph)@, commit, conflicted)->Ok_0.0,
                        )
                        &&& final(graph)@ == replace_spec(
                            old(graph)@,
                            commit.id,
                            Step::Pick { commit_id: c, new_message: None },
                        )
                    },
                }
            },
            Err(e) => {
                &&& amend_target_spec(old(graph)@, commit, conflicted) == Err::<
                    (Selector, CommitId),
                    CommitError,
                >(e)
                &&& final(graph)@ == old(graph)@
            },
        },
{
    let target = match amend_target(graph, commit, conflicted) {
        Ok((target, _)) => target,
        Err(e) => {
            return Err(e);
        },
    };
    match created.new_commit {
        None => Ok(
            CommitAmendOutcome { commit_selector: None, rejected_specs: created.rejected_specs },
        ),
        Some(c) => {
            match graph.replace(target, Step::Pick { commit_id: c, new_message: None }) {
                Ok(n) => Ok(
                    CommitAmendOutcome {
                        commit_selector: Some(n),
                        rejected_specs: created.rejected_specs,
                    },
                ),
                Err(e) => Err(CommitError::Graph { error: e }),
            }
        },
    }
}

/// The parent of a commit that is created on `side` of the node
/// `relative_to`.
///
/// Above a pick it is the pick's commit, below a pick the first parent of
/// that commit. At a reference it is, on both sides, the commit that the
/// reference lands on. At a placeholder there is, on both sides, no parent.
pub open spec fn new_commit_parent_spec(
    g: crate::graph::StepGraphView,
    relative_to: Selector,
    side: Side,
    first_parent: Option<CommitId>,
) -> Result<Option<CommitId>, GraphError> {
    match normalize_spec(g, relative_to) {
        Err(e) => Err(e),
        Ok(n) => match g.steps[n.id as int] {
            Step::Pick { commit_id, new_message } => match side {
                Side::Above => Ok(Some(commit_id)),
                Side::Below => Ok(first_parent),
            },
            Step::Reference { refname } => match reference_target_spec(g, relative_to) {
                Ok(t) => Ok(Some(g.steps[t.id as int]->commit_id)),
                Err(e) => Err(e),
            },
            Step::Placeholder => Ok(None),
        },
    }
}

/// Find the parent of a commit that is to be created on `side` of
/// `relative_to`; `first_parent` is the first parent of the commit that
/// `relative_to` replays, if it replays one that has parents.
pub fn parent_commit_id_for_new_commit(
    graph: &Editor,
    relative_to: Selector,
    side: Side,
    first_parent: Option<CommitId>,
) -> (r: Result<Option<CommitId>, GraphError>)
    requires
        graph.wf(),
    ensures
        r == new_commit_parent_spec(graph@, relative_to, side, first_parent),
{
    let step = match graph.lookup_step(relative_to) {
        Ok(s) => s,
        Err(e) => {
            return Err(e);
        },
    };
    match step {
        Step::Pick { commit_id, new_message: _ } => match side {
            Side::Above => Ok(Some(commit_id)),
            Side::Below => Ok(first_parent),
        },
        Step::Reference { refname: _ } => match graph.find_reference_target(relative_to) {
            Ok(t) => match graph.find_selectable_commit(t) {
                Ok((_, c)) => Ok(Some(c)),
                Err(e) => Err(e),
            },
            Err(e) => Err(e),
        },
        Step::Placeholder => Ok(None),
    }
}

/// Put the commit that was built into the graph, on `side` of
/// `relative_to`, and hand the continuation back.
///
/// The call fails exactly where `relative_to` names no node of the graph,
/// or where a commit was built and the graph cannot take another node or
/// another revision; the graph then stays as it is. Where every change was
/// rejected there is no commit: the graph stays as it is and no selector is
/// returned, but the continuation is. Else a pick of the new commit is
/// inserted and its selector returned. The rejected changes are handed on
/// either way.
pub fn commit_create(
    graph: &mut Editor,
    relative_to: Selector,
    side: Side,
    created: CreateCommitOutcome,
) -> (r: Result<CommitCreateOutcome, GraphError>)
    requires
        old(graph).wf(),
    ensures
        final(graph).wf(),
        match r {
            Ok(out) => {
                &&& normalize_spec(old(graph)@, relative_to) is Ok
                &&& out.rebase
                &&& out.rejected_specs@ == created.rejected_specs@
                &&& match created.new_commit {
                    None => {
                        &&& out.commit_selector is None
                        &&& final(graph)@ == old(graph)@
                    },
                    Some(c) => {
                        &&& old(graph)@.revision < u64::MAX
                        &&& old(graph)@.steps.len() < usize::MAX
                        &&& final(graph)@ == insert_spec(
                            old(graph)@,
                            relative_to.id,
                            Step::Pick { commit_id: c, new_message: None },
                            side,
                        )
                        &&& out.commit_selector == Some(
                            Selector {
                                id: old(graph)@.steps.len() as usize,
                                revision: final(graph)@.revision,
                            },
                        )
                    },
                }
            },
            Err(e) => {
                &&& final(graph)@ == old(graph)@
                &&& e == (if normalize_spec(old(graph)@, relative_to) is Err {
                    GraphError::StaleSelector
                } else {
                    GraphError::RevisionExhausted
                })
                &&& (normalize_spec(old(graph)@, relative_to) is Err || (created.new_commit
                    is Some && (old(graph)@.revision == u64::MAX || old(graph)@.steps.len()
                    == usize::MAX)))
            },
        },
{
    if let Err(e) = graph.normalize_selector(relative_to) {
        return Err(e);
    }
    match created.new_commit {
        None => Ok(
            CommitCreateOutcome {
                rebase: true,
                commit_selector: None,
                rejected_specs: created.rejected_specs,
            },
        ),
        Some(c) => {
            match graph.insert(relative_to, Step::Pick { commit_id: c, new_message: None }, side) {
                Ok(s) => Ok(
                    CommitCreateOutcome {
                        rebase: true,
                        commit_selector: Some(s),
                        rejected_specs: created.rejected_specs,
                    },
                ),
                Err(e) => Err(e),
            }
        },
    }
}

} // verus!
