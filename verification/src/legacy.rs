//! The shape of the workspace as the mirror file states it.
//!
//! The mirror file lists the default target, the last pushed base, the
//! stacks with their heads in tip-first order, and the per-stack targets.

use vstd::prelude::*;
use crate::snapshot::{opt_view, clone_opt};

verus! {

/// A branch on a remote.
#[derive(Debug, Clone, PartialEq, Eq)]
pub struct RemoteRefname {
    /// Name of the remote.
    pub remote: String,
    /// Name of the branch on that remote.
    pub branch: String,
}

/// The mathematical value of a [`RemoteRefname`].
pub struct RemoteRefnameView {
    pub remote: Seq<char>,
    pub branch: Seq<char>,
}

impl View for RemoteRefname {
    type V = RemoteRefnameView;

    open spec fn view(&self) -> RemoteRefnameView {
        RemoteRefnameView {
            remote: self.remote@,
            branch: self.branch@,
        }
    }
}

impl RemoteRefname {
    /// A copy with the same value.
    pub fn duplicate(&self) -> (r: Self)
        ensures
            r@ == self@,
    {
        let remote = self.remote.clone();
        let branch = self.branch.clone();
        RemoteRefname { remote, branch }
    }
}

/// The upstream branch that stacks are rebased against.
#[derive(Debug, Clone, PartialEq, Eq)]
pub struct Target {
    /// The remote branch.
    pub branch: RemoteRefname,
    /// URL of the remote.
    pub remote_url: String,
    /// Object id (hex) of the target commit.
    pub sha: String,
    /// Remote used for pushes, if it differs.
    pub push_remote_name: Option<String>,
}

/// The mathematical value of a [`Target`].
pub struct TargetView {
    pub branch: RemoteRefnameView,
    pub remote_url: Seq<char>,
    pub sha: Seq<char>,
    pub push_remote_name: Option<Seq<char>>,
}

impl View for Target {
    type V = TargetView;

    open spec fn view(&self) -> TargetView {
        TargetView {
            branch: self.branch@,
            remote_url: self.remote_url@,
            sha: self.sha@,
            push_remote_name: opt_view(self.push_remote_name),
        }
    }
}

impl Target {
    /// A copy with the same value.
    pub fn duplicate(&self) -> (r: Self)
        ensures
            r@ == self@,
    {
        let branch = self.branch.duplicate();
        let remote_url = self.remote_url.clone();
        let sha = self.sha.clone();
        let push_remote_name = clone_opt(&self.push_remote_name);
        Target { branch, remote_url, sha, push_remote_name }
    }
}

/// A head (series) of a stack.
#[derive(Debug, Clone, PartialEq, Eq)]
pub struct StackBranch {
    /// Object id (hex) the head points to.
    pub head: String,
    /// Name of the head, unique within its stack.
    pub name: String,
    /// Pull request number.
    pub pr_number: Option<usize>,
    /// Whether the head is archived.
    pub archived: bool,
    /// Review identifier.
    pub review_id: Option<String>,
}

/// The mathematical value of a [`StackBranch`].
pub struct StackBranchView {
    pub head: Seq<char>,
    pub name: Seq<char>,
    pub pr_number: Option<usize>,
    pub archived: bool,
    pub review_id: Option<Seq<char>>,
}

impl View for StackBranch {
    type V = StackBranchView;

    open spec fn view(&self) -> StackBranchView {
        StackBranchView {
            head: self.head@,
            name: self.name@,
            pr_number: self.pr_number,
            archived: self.archived,
            review_id: opt_view(self.review_id),
        }
    }
}

impl StackBranch {
    /// A copy with the same value.
    pub fn duplicate(&self) -> (r: Self)
        ensures
            r@ == self@,
    {
        let head = self.head.clone();
        let name = self.name.clone();
        let pr_number = self.pr_number;
        let archived = self.archived;
        let review_id = clone_opt(&self.review_id);
        StackBranch { head, name, pr_number, archived, review_id }
    }
}

impl StackBranch {
    /// A copy of every element, in order.
    pub fn duplicate_all(items: &Vec<StackBranch>) -> (r: Vec<StackBranch>)
        ensures
            r@.map_values(|x: StackBranch| x@) == items@.map_values(|x: StackBranch| x@),
    {
        let mut r: Vec<StackBranch> = Vec::new();
        let mut i: usize = 0;
        while i < items.len()
            invariant
                i <= items.len(),
                r@.len() == i,
                forall|k: int| 0 <= k < i ==> (#[trigger] r@[k])@ == items@[k]@,
            decreases items.len() - i,
        {
            r.push(items[i].duplicate());
            i += 1;
        }
        proof {
            assert(r@.map_values(|x: StackBranch| x@) =~= items@.map_values(|x: StackBranch| x@));
        }
        r
    }
}

/// A stack with its heads.
#[derive(Debug, Clone, PartialEq, Eq)]
pub struct Stack {
    /// Stable id of the stack.
    pub id: String,
    /// The branch reference this stack came from, if any.
    pub source_refname: Option<String>,
    /// Upstream tracking branch.
    pub upstream: Option<RemoteRefname>,
    /// Display order.
    pub order: usize,
    /// Whether the stack is applied.
    pub in_workspace: bool,
    /// Heads of the stack, in stored order.
    pub heads: Vec<StackBranch>,
    /// Retained verbatim.
    pub notes: String,
    /// Retained verbatim.
    pub ownership: String,
    /// Whether history of the stack may be rewritten after a push.
    pub allow_rebasing: bool,
    /// Retained verbatim.
    pub post_commits: bool,
    /// Object id (hex), retained verbatim.
    pub tree: String,
    /// Retained verbatim.
    pub created_timestamp_ms: u128,
    /// Retained verbatim.
    pub updated_timestamp_ms: u128,
    /// Retained verbatim.
    pub name: String,
    /// Object id (hex), retained verbatim.
    pub head: String,
}

/// The mathematical value of a [`Stack`].
pub struct StackView {
    pub id: Seq<char>,
    pub source_refname: Option<Seq<char>>,
    pub upstream: Option<RemoteRefnameView>,
    pub order: usize,
    pub in_workspace: bool,
    pub heads: Seq<StackBranchView>,
    pub notes: Seq<char>,
    pub ownership: Seq<char>,
    pub allow_rebasing: bool,
    pub post_commits: bool,
    pub tree: Seq<char>,
    pub created_timestamp_ms: u128,
    pub updated_timestamp_ms: u128,
    pub name: Seq<char>,
    pub head: Seq<char>,
}

impl View for Stack {
    type V = StackView;

    open spec fn view(&self) -> StackView {
        StackView {
            id: self.id@,
            source_refname: opt_view(self.source_refname),
            upstream: match self.upstream { Some(x) => Some(x@), None => None },
            order: self.order,
            in_workspace: self.in_workspace,
            heads: self.heads@.map_values(|x: StackBranch| x@),
            notes: self.notes@,
            ownership: self.ownership@,
            allow_rebasing: self.allow_rebasing,
            post_commits: self.post_commits,
            tree: self.tree@,
            created_timestamp_ms: self.created_timestamp_ms,
            updated_timestamp_ms: self.updated_timestamp_ms,
            name: self.name@,
            head: self.head@,
        }
    }
}

impl Stack {
    /// A copy with the same value.
    pub fn duplicate(&self) -> (r: Self)
        ensures
            r@ == self@,
    {
        let id = self.id.clone();
        let source_refname = clone_opt(&self.source_refname);
        let upstream = match &self.upstream { Some(x) => Some(x.duplicate()), None => None };
        let order = self.order;
        let in_workspace = self.in_workspace;
        let heads = StackBranch::duplicate_all(&self.heads);
        let notes = self.notes.clone();
        let ownership = self.ownership.clone();
        let allow_rebasing = self.allow_rebasing;
        let post_commits = self.post_commits;
        let tree = self.tree.clone();
        let created_timestamp_ms = self.created_timestamp_ms;
        let updated_timestamp_ms = self.updated_timestamp_ms;
        let name = self.name.clone();
        let head = self.head.clone();
        Stack { id, source_refname, upstream, order, in_workspace, heads, notes, ownership, allow_rebasing, post_commits, tree, created_timestamp_ms, updated_timestamp_ms, name, head }
    }
}

impl Stack {
    /// A copy of every element, in order.
    pub fn duplicate_all(items: &Vec<Stack>) -> (r: Vec<Stack>)
        ensures
            r@.map_values(|x: Stack| x@) == items@.map_values(|x: Stack| x@),
    {
        let mut r: Vec<Stack> = Vec::new();
        let mut i: usize = 0;
        while i < items.len()
            invariant
                i <= items.len(),
                r@.len() == i,
                forall|k: int| 0 <= k < i ==> (#[trigger] r@[k])@ == items@[k]@,
            decreases items.len() - i,
        {
            r.push(items[i].duplicate());
            i += 1;
        }
        proof {
            assert(r@.map_values(|x: Stack| x@) =~= items@.map_values(|x: Stack| x@));
        }
        r
    }
}

/// A per-stack override of the default target.
#[derive(Debug, Clone, PartialEq, Eq)]
pub struct StackTarget {
    /// The stack the override is for.
    pub stack_id: String,
    /// The target.
    pub target: Target,
}

/// The mathematical value of a [`StackTarget`].
pub struct StackTargetView {
    pub stack_id: Seq<char>,
    pub target: TargetView,
}

impl View for StackTarget {
    type V = StackTargetView;

    open spec fn view(&self) -> StackTargetView {
        StackTargetView {
            stack_id: self.stack_id@,
            target: self.target@,
        }
    }
}

impl StackTarget {
    /// A copy with the same value.
    pub fn duplicate(&self) -> (r: Self)
        ensures
            r@ == self@,
    {
        let stack_id = self.stack_id.clone();
        let target = self.target.duplicate();
        StackTarget { stack_id, target }
    }
}

impl StackTarget {
    /// A copy of every element, in order.
    pub fn duplicate_all(items: &Vec<StackTarget>) -> (r: Vec<StackTarget>)
        ensures
            r@.map_values(|x: StackTarget| x@) == items@.map_values(|x: StackTarget| x@),
    {
        let mut r: Vec<StackTarget> = Vec::new();
        let mut i: usize = 0;
        while i < items.len()
            invariant
                i <= items.len(),
                r@.len() == i,
                forall|k: int| 0 <= k < i ==> (#[trigger] r@[k])@ == items@[k]@,
            decreases items.len() - i,
        {
            r.push(items[i].duplicate());
            i += 1;
        }
        proof {
            assert(r@.map_values(|x: StackTarget| x@) =~= items@.map_values(|x: StackTarget| x@));
        }
        r
    }
}

/// The whole mirror file.
#[derive(Debug, Clone, PartialEq, Eq)]
pub struct VirtualBranches {
    /// Default target of the workspace.
    pub default_target: Option<Target>,
    /// Per-stack targets, at most one per stack id.
    pub branch_targets: Vec<StackTarget>,
    /// The stacks, at most one per stack id.
    pub branches: Vec<Stack>,
    /// Object id (hex) of the last pushed base.
    pub last_pushed_base: Option<String>,
}

/// The mathematical value of a [`VirtualBranches`].
pub struct VirtualBranchesView {
    pub default_target: Option<TargetView>,
    pub branch_targets: Seq<StackTargetView>,
    pub branches: Seq<StackView>,
    pub last_pushed_base: Option<Seq<char>>,
}

impl View for VirtualBranches {
    type V = VirtualBranchesView;

    open spec fn view(&self) -> VirtualBranchesView {
        VirtualBranchesView {
            default_target: match self.default_target { Some(x) => Some(x@), None => None },
            branch_targets: self.branch_targets@.map_values(|x: StackTarget| x@),
            branches: self.branches@.map_values(|x: Stack| x@),
            last_pushed_base: opt_view(self.last_pushed_base),
        }
    }
}

impl VirtualBranches {
    /// A copy with the same value.
    pub fn duplicate(&self) -> (r: Self)
        ensures
            r@ == self@,
    {
        let default_target = match &self.default_target { Some(x) => Some(x.duplicate()), None => None };
        let branch_targets = StackTarget::duplicate_all(&self.branch_targets);
        let branches = Stack::duplicate_all(&self.branches);
        let last_pushed_base = clone_opt(&self.last_pushed_base);
        VirtualBranches { default_target, branch_targets, branches, last_pushed_base }
    }
}

impl VirtualBranches {
    /// The mirror of a workspace without stacks or targets.
    pub open spec fn empty_view() -> VirtualBranchesView {
        VirtualBranchesView {
            default_target: None,
            branch_targets: Seq::empty(),
            branches: Seq::empty(),
            last_pushed_base: None,
        }
    }
}

impl Default for VirtualBranches {
    fn default() -> (r: Self)
        ensures
            r@ == VirtualBranches::empty_view(),
    {
        let r = VirtualBranches {
            default_target: None,
            branch_targets: Vec::new(),
            branches: Vec::new(),
            last_pushed_base: None,
        };
        proof {
            assert(r@.branch_targets =~= Seq::empty());
            assert(r@.branches =~= Seq::empty());
        }
        r
    }
}

} // verus!
