//! The rows of the metadata store and the snapshot that groups them.
//!
//! A snapshot is the unit that is read from and written to the store, and the
//! unit that the operation log captures and restores.

use vstd::prelude::*;

verus! {

/// The value of an optional string.
pub open spec fn opt_view(o: Option<String>) -> Option<Seq<char>> {
    match o {
        Some(s) => Some(s@),
        None => None,
    }
}

/// A copy of an optional string.
pub fn clone_opt(o: &Option<String>) -> (r: Option<String>)
    ensures
        opt_view(r) == opt_view(*o),
{
    match o {
        Some(s) => Some(s.clone()),
        None => None,
    }
}

/// The singleton state row of the workspace.
#[derive(Debug, Clone, PartialEq, Eq)]
pub struct VbState {
    /// Remote name of the default target (for example `origin`).
    pub default_target_remote_name: Option<String>,
    /// Branch name of the default target (for example `main`).
    pub default_target_branch_name: Option<String>,
    /// Remote URL of the default target.
    pub default_target_remote_url: Option<String>,
    /// Object id (hex) of the default target.
    pub default_target_sha: Option<String>,
    /// Optional remote name used for pushes of the default target.
    pub default_target_push_remote_name: Option<String>,
    /// Last pushed base object id (hex).
    pub last_pushed_base_sha: Option<String>,
    /// `true` once the store has been bootstrapped and synchronized at least once.
    pub initialized: bool,
    /// Last observed modification time (ns since the epoch) of the mirror file.
    pub toml_last_seen_mtime_ns: Option<i64>,
    /// Last observed SHA-256 of the mirror file.
    pub toml_last_seen_sha256: Option<String>,
}

/// The mathematical value of a [`VbState`].
pub struct VbStateView {
    pub default_target_remote_name: Option<Seq<char>>,
    pub default_target_branch_name: Option<Seq<char>>,
    pub default_target_remote_url: Option<Seq<char>>,
    pub default_target_sha: Option<Seq<char>>,
    pub default_target_push_remote_name: Option<Seq<char>>,
    pub last_pushed_base_sha: Option<Seq<char>>,
    pub initialized: bool,
    pub toml_last_seen_mtime_ns: Option<i64>,
    pub toml_last_seen_sha256: Option<Seq<char>>,
}

impl View for VbState {
    type V = VbStateView;

    open spec fn view(&self) -> VbStateView {
        VbStateView {
            default_target_remote_name: opt_view(self.default_target_remote_name),
            default_target_branch_name: opt_view(self.default_target_branch_name),
            default_target_remote_url: opt_view(self.default_target_remote_url),
            default_target_sha: opt_view(self.default_target_sha),
            default_target_push_remote_name: opt_view(self.default_target_push_remote_name),
            last_pushed_base_sha: opt_view(self.last_pushed_base_sha),
            initialized: self.initialized,
            toml_last_seen_mtime_ns: self.toml_last_seen_mtime_ns,
            toml_last_seen_sha256: opt_view(self.toml_last_seen_sha256),
        }
    }
}

impl VbState {
    /// A copy with the same value.
    pub fn duplicate(&self) -> (r: Self)
        ensures
            r@ == self@,
    {
        let default_target_remote_name = clone_opt(&self.default_target_remote_name);
        let default_target_branch_name = clone_opt(&self.default_target_branch_name);
        let default_target_remote_url = clone_opt(&self.default_target_remote_url);
        let default_target_sha = clone_opt(&self.default_target_sha);
        let default_target_push_remote_name = clone_opt(&self.default_target_push_remote_name);
        let last_pushed_base_sha = clone_opt(&self.last_pushed_base_sha);
        let initialized = self.initialized;
        let toml_last_seen_mtime_ns = self.toml_last_seen_mtime_ns;
        let toml_last_seen_sha256 = clone_opt(&self.toml_last_seen_sha256);
        VbState { default_target_remote_name, default_target_branch_name, default_target_remote_url, default_target_sha, default_target_push_remote_name, last_pushed_base_sha, initialized, toml_last_seen_mtime_ns, toml_last_seen_sha256 }
    }
}

/// A stack row.
#[derive(Debug, Clone, PartialEq, Eq)]
pub struct VbStack {
    /// Stable stack id, as text.
    pub id: String,
    /// The branch reference this stack came from, if any.
    pub source_refname: Option<String>,
    /// Remote component of the upstream tracking reference.
    pub upstream_remote_name: Option<String>,
    /// Branch component of the upstream tracking reference.
    pub upstream_branch_name: Option<String>,
    /// Display order of this stack.
    pub sort_order: i64,
    /// Whether the stack is applied.
    pub in_workspace: bool,
    /// Kept verbatim for round trips through the mirror file.
    pub legacy_name: String,
    /// Kept verbatim for round trips through the mirror file.
    pub legacy_notes: String,
    /// Kept verbatim for round trips through the mirror file.
    pub legacy_ownership: String,
    /// Kept verbatim for round trips through the mirror file.
    pub legacy_allow_rebasing: bool,
    /// Kept verbatim for round trips through the mirror file.
    pub legacy_post_commits: bool,
    /// Kept verbatim for round trips through the mirror file.
    pub legacy_tree_sha: String,
    /// Kept verbatim for round trips through the mirror file.
    pub legacy_head_sha: String,
    /// Kept verbatim for round trips through the mirror file.
    pub legacy_created_timestamp_ms: String,
    /// Kept verbatim for round trips through the mirror file.
    pub legacy_updated_timestamp_ms: String,
}

/// The mathematical value of a [`VbStack`].
pub struct VbStackView {
    pub id: Seq<char>,
    pub source_refname: Option<Seq<char>>,
    pub upstream_remote_name: Option<Seq<char>>,
    pub upstream_branch_name: Option<Seq<char>>,
    pub sort_order: i64,
    pub in_workspace: bool,
    pub legacy_name: Seq<char>,
    pub legacy_notes: Seq<char>,
    pub legacy_ownership: Seq<char>,
    pub legacy_allow_rebasing: bool,
    pub legacy_post_commits: bool,
    pub legacy_tree_sha: Seq<char>,
    pub legacy_head_sha: Seq<char>,
    pub legacy_created_timestamp_ms: Seq<char>,
    pub legacy_updated_timestamp_ms: Seq<char>,
}

impl View for VbStack {
    type V = VbStackView;

    open spec fn view(&self) -> VbStackView {
        VbStackView {
            id: self.id@,
            source_refname: opt_view(self.source_refname),
            upstream_remote_name: opt_view(self.upstream_remote_name),
            upstream_branch_name: opt_view(self.upstream_branch_name),
            sort_order: self.sort_order,
            in_workspace: self.in_workspace,
            legacy_name: self.legacy_name@,
            legacy_notes: self.legacy_notes@,
            legacy_ownership: self.legacy_ownership@,
            legacy_allow_rebasing: self.legacy_allow_rebasing,
            legacy_post_commits: self.legacy_post_commits,
            legacy_tree_sha: self.legacy_tree_sha@,
            legacy_head_sha: self.legacy_head_sha@,
            legacy_created_timestamp_ms: self.legacy_created_timestamp_ms@,
            legacy_updated_timestamp_ms: self.legacy_updated_timestamp_ms@,
        }
    }
}

impl VbStack {
    /// A copy with the same value.
    pub fn duplicate(&self) -> (r: Self)
        ensures
            r@ == self@,
    {
        let id = self.id.clone();
        let source_refname = clone_opt(&self.source_refname);
        let upstream_remote_name = clone_opt(&self.upstream_remote_name);
        let upstream_branch_name = clone_opt(&self.upstream_branch_name);
        let sort_order = self.sort_order;
        let in_workspace = self.in_workspace;
        let legacy_name = self.legacy_name.clone();
        let legacy_notes = self.legacy_notes.clone();
        let legacy_ownership = self.legacy_ownership.clone();
        let legacy_allow_rebasing = self.legacy_allow_rebasing;
        let legacy_post_commits = self.legacy_post_commits;
        let legacy_tree_sha = self.legacy_tree_sha.clone();
        let legacy_head_sha = self.legacy_head_sha.clone();
        let legacy_created_timestamp_ms = self.legacy_created_timestamp_ms.clone();
        let legacy_updated_timestamp_ms = self.legacy_updated_timestamp_ms.clone();
        VbStack { id, source_refname, upstream_remote_name, upstream_branch_name, sort_order, in_workspace, legacy_name, legacy_notes, legacy_ownership, legacy_allow_rebasing, legacy_post_commits, legacy_tree_sha, legacy_head_sha, legacy_created_timestamp_ms, legacy_updated_timestamp_ms }
    }
}

impl VbStack {
    /// A copy of every element, in order.
    pub fn duplicate_all(items: &Vec<VbStack>) -> (r: Vec<VbStack>)
        ensures
            r@.map_values(|x: VbStack| x@) == items@.map_values(|x: VbStack| x@),
    {
        let mut r: Vec<VbStack> = Vec::new();
        let mut i: usize = 0;
        while i < items.len()
            invariant
                i <= items.len(),
                r@.len() == i,
                forall|k: int| 0 <= k < i ==> (#[trigger] r@[k])@ == items@[k]@,
            decreases items.len() - i,
        {
            r.push(items[i].duplicate());
            i += 1;
        }
        proof {
            assert(r@.map_values(|x: VbStack| x@) =~= items@.map_values(|x: VbStack| x@));
        }
        r
    }
}

/// A stack head (a series) row.
#[derive(Debug, Clone, PartialEq, Eq)]
pub struct VbStackHead {
    /// The stack this head belongs to.
    pub stack_id: String,
    /// Zero-based position within the stack.
    pub position: i64,
    /// Name of the head.
    pub name: String,
    /// Object id (hex) this head points to.
    pub head_sha: String,
    /// Pull request number associated with this head.
    pub pr_number: Option<i64>,
    /// Whether this head is archived.
    pub archived: bool,
    /// Review identifier associated with this head.
    pub review_id: Option<String>,
}

/// The mathematical value of a [`VbStackHead`].
pub struct VbStackHeadView {
    pub stack_id: Seq<char>,
    pub position: i64,
    pub name: Seq<char>,
    pub head_sha: Seq<char>,
    pub pr_number: Option<i64>,
    pub archived: bool,
    pub review_id: Option<Seq<char>>,
}

impl View for VbStackHead {
    type V = VbStackHeadView;

    open spec fn view(&self) -> VbStackHeadView {
        VbStackHeadView {
            stack_id: self.stack_id@,
            position: self.position,
            name: self.name@,
            head_sha: self.head_sha@,
            pr_number: self.pr_number,
            archived: self.archived,
            review_id: opt_view(self.review_id),
        }
    }
}

impl VbStackHead {
    /// A copy with the same value.
    pub fn duplicate(&self) -> (r: Self)
        ensures
            r@ == self@,
    {
        let stack_id = self.stack_id.clone();
        let position = self.position;
        let name = self.name.clone();
        let head_sha = self.head_sha.clone();
        let pr_number = self.pr_number;
        let archived = self.archived;
        let review_id = clone_opt(&self.review_id);
        VbStackHead { stack_id, position, name, head_sha, pr_number, archived, review_id }
    }
}

impl VbStackHead {
    /// A copy of every element, in order.
    pub fn duplicate_all(items: &Vec<VbStackHead>) -> (r: Vec<VbStackHead>)
        ensures
            r@.map_values(|x: VbStackHead| x@) == items@.map_values(|x: VbStackHead| x@),
    {
        let mut r: Vec<VbStackHead> = Vec::new();
        let mut i: usize = 0;
        while i < items.len()
            invariant
                i <= items.len(),
                r@.len() == i,
                forall|k: int| 0 <= k < i ==> (#[trigger] r@[k])@ == items@[k]@,
            decreases items.len() - i,
        {
            r.push(items[i].duplicate());
            i += 1;
        }
        proof {
            assert(r@.map_values(|x: VbStackHead| x@) =~= items@.map_values(|x: VbStackHead| x@));
        }
        r
    }
}

/// A per-stack target row.
#[derive(Debug, Clone, PartialEq, Eq)]
pub struct VbBranchTarget {
    /// The stack this target belongs to.
    pub stack_id: String,
    /// Remote name of the target.
    pub remote_name: String,
    /// Branch name of the target.
    pub branch_name: String,
    /// Remote URL of the target.
    pub remote_url: String,
    /// Target object id (hex).
    pub sha: String,
    /// Remote name used for pushes.
    pub push_remote_name: Option<String>,
}

/// The mathematical value of a [`VbBranchTarget`].
pub struct VbBranchTargetView {
    pub stack_id: Seq<char>,
    pub remote_name: Seq<char>,
    pub branch_name: Seq<char>,
    pub remote_url: Seq<char>,
    pub sha: Seq<char>,
    pub push_remote_name: Option<Seq<char>>,
}

impl View for VbBranchTarget {
    type V = VbBranchTargetView;

    open spec fn view(&self) -> VbBranchTargetView {
        VbBranchTargetView {
            stack_id: self.stack_id@,
            remote_name: self.remote_name@,
            branch_name: self.branch_name@,
            remote_url: self.remote_url@,
            sha: self.sha@,
            push_remote_name: opt_view(self.push_remote_name),
        }
    }
}

impl VbBranchTarget {
    /// A copy with the same value.
    pub fn duplicate(&self) -> (r: Self)
        ensures
            r@ == self@,
    {
        let stack_id = self.stack_id.clone();
        let remote_name = self.remote_name.clone();
        let branch_name = self.branch_name.clone();
        let remote_url = self.remote_url.clone();
        let sha = self.sha.clone();
        let push_remote_name = clone_opt(&self.push_remote_name);
        VbBranchTarget { stack_id, remote_name, branch_name, remote_url, sha, push_remote_name }
    }
}

impl VbBranchTarget {
    /// A copy of every element, in order.
    pub fn duplicate_all(items: &Vec<VbBranchTarget>) -> (r: Vec<VbBranchTarget>)
        ensures
            r@.map_values(|x: VbBranchTarget| x@) == items@.map_values(|x: VbBranchTarget| x@),
    {
        let mut r: Vec<VbBranchTarget> = Vec::new();
        let mut i: usize = 0;
        while i < items.len()
            invariant
                i <= items.len(),
                r@.len() == i,
                forall|k: int| 0 <= k < i ==> (#[trigger] r@[k])@ == items@[k]@,
            decreases items.len() - i,
        {
            r.push(items[i].duplicate());
            i += 1;
        }
        proof {
            assert(r@.map_values(|x: VbBranchTarget| x@) =~= items@.map_values(|x: VbBranchTarget| x@));
        }
        r
    }
}

/// Everything the store holds, as one value.
#[derive(Debug, Clone, PartialEq, Eq)]
pub struct VirtualBranchesSnapshot {
    /// The singleton state row.
    pub state: VbState,
    /// All stacks, ordered by `(sort_order, id)` when read.
    pub stacks: Vec<VbStack>,
    /// All heads, ordered by `(stack_id, position)` when read.
    pub heads: Vec<VbStackHead>,
    /// All per-stack targets, ordered by `stack_id` when read.
    pub branch_targets: Vec<VbBranchTarget>,
}

/// The mathematical value of a [`VirtualBranchesSnapshot`].
pub struct VirtualBranchesSnapshotView {
    pub state: VbStateView,
    pub stacks: Seq<VbStackView>,
    pub heads: Seq<VbStackHeadView>,
    pub branch_targets: Seq<VbBranchTargetView>,
}

impl View for VirtualBranchesSnapshot {
    type V = VirtualBranchesSnapshotView;

    open spec fn view(&self) -> VirtualBranchesSnapshotView {
        VirtualBranchesSnapshotView {
            state: self.state@,
            stacks: self.stacks@.map_values(|x: VbStack| x@),
            heads: self.heads@.map_values(|x: VbStackHead| x@),
            branch_targets: self.branch_targets@.map_values(|x: VbBranchTarget| x@),
        }
    }
}

impl VirtualBranchesSnapshot {
    /// A copy with the same value.
    pub fn duplicate(&self) -> (r: Self)
        ensures
            r@ == self@,
    {
        let state = self.state.duplicate();
        let stacks = VbStack::duplicate_all(&self.stacks);
        let heads = VbStackHead::duplicate_all(&self.heads);
        let branch_targets = VbBranchTarget::duplicate_all(&self.branch_targets);
        VirtualBranchesSnapshot { state, stacks, heads, branch_targets }
    }
}

impl VbState {
    /// The state of a store that was never written.
    pub open spec fn empty_view() -> VbStateView {
        VbStateView {
            default_target_remote_name: None,
            default_target_branch_name: None,
            default_target_remote_url: None,
            default_target_sha: None,
            default_target_push_remote_name: None,
            last_pushed_base_sha: None,
            initialized: false,
            toml_last_seen_mtime_ns: None,
            toml_last_seen_sha256: None,
        }
    }
}

impl Default for VbState {
    fn default() -> (r: Self)
        ensures
            r@ == VbState::empty_view(),
    {
        VbState {
            default_target_remote_name: None,
            default_target_branch_name: None,
            default_target_remote_url: None,
            default_target_sha: None,
            default_target_push_remote_name: None,
            last_pushed_base_sha: None,
            initialized: false,
            toml_last_seen_mtime_ns: None,
            toml_last_seen_sha256: None,
        }
    }
}

impl VirtualBranchesSnapshot {
    /// The snapshot of a store that was never written.
    pub open spec fn empty_view() -> VirtualBranchesSnapshotView {
        VirtualBranchesSnapshotView {
            state: VbState::empty_view(),
            stacks: Seq::empty(),
            heads: Seq::empty(),
            branch_targets: Seq::empty(),
        }
    }
}

impl Default for VirtualBranchesSnapshot {
    fn default() -> (r: Self)
        ensures
            r@ == VirtualBranchesSnapshot::empty_view(),
    {
        let r = VirtualBranchesSnapshot {
            state: VbState::default(),
            stacks: Vec::new(),
            heads: Vec::new(),
            branch_targets: Vec::new(),
        };
        proof {
            assert(r@.stacks =~= Seq::empty());
            assert(r@.heads =~= Seq::empty());
            assert(r@.branch_targets =~= Seq::empty());
        }
        r
    }
}

} // verus!
