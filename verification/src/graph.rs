//! The step graph: an editable graph of rebase steps.
//!
//! Nodes live in an arena and are named by their index, which never changes:
//! a step is removed by turning it into a placeholder, not by renumbering.
//! Each node lists its parents in order. Every structural edit bumps the
//! revision of the graph, and a selector remembers the revision it was made
//! at.

use vstd::prelude::*;
use crate::squash::CommitId;

verus! {

/// Index of a node in the arena.
pub type NodeId = usize;

/// One rebase instruction.
#[derive(Debug, Clone, Copy, PartialEq, Eq, Structural)]
pub enum Step {
    /// Replay an existing commit, with a new message if one is given (by the
    /// key under which the caller holds the text).
    Pick { commit_id: CommitId, new_message: Option<u64> },
    /// A position where a branch reference should land.
    Reference { refname: u64 },
    /// A placeholder left where a step was removed.
    Placeholder,
}

/// The name of a node as of a revision of the graph.
#[derive(Debug, Clone, Copy, PartialEq, Eq, Structural)]
pub struct Selector {
    /// The node.
    pub id: NodeId,
    /// The revision of the graph at which the selector was made.
    pub revision: u64,
}

/// On which side of a node a step is inserted.
#[derive(Debug, Clone, Copy, PartialEq, Eq, Structural)]
pub enum Side {
    /// Toward the tip: the new step becomes the child.
    Above,
    /// Toward the base: the new step becomes the parent.
    Below,
}

/// Why an edit or a lookup was refused.
#[derive(Debug, Clone, Copy, PartialEq, Eq, Structural)]
pub enum GraphError {
    /// No pick, or more than one, replays the commit.
    NotInGraph,
    /// The selector names no node of this graph, or a revision that the
    /// graph has not reached.
    StaleSelector,
    /// The selected node is not of the kind that the operation needs.
    WrongStepKind,
    /// Walking the parents of a reference met no pick.
    NoReferenceTarget,
    /// The revision counter cannot be bumped any further.
    RevisionExhausted,
    /// The nodes to disconnect are no run: walking first parents from the
    /// upper end does not reach the lower end.
    NotARun,
    /// The rebase is closed before every node is settled.
    Unsettled,
}

/// The editor of a step graph: an editable graph of rebase steps.
pub struct Editor {
    steps: Vec<Step>,
    parents: Vec<Vec<NodeId>>,
    revision: u64,
}

/// The mathematical value of an [`Editor`].
pub struct StepGraphView {
    /// The step of each node.
    pub steps: Seq<Step>,
    /// The parents of each node, in order.
    pub parents: Seq<Seq<NodeId>>,
    /// The revision counter.
    pub revision: u64,
}

impl View for Editor {
    type V = StepGraphView;

    closed spec fn view(&self) -> StepGraphView {
        StepGraphView {
            steps: self.steps@,
            parents: Seq::new(self.parents@.len(), |i: int| self.parents@[i]@),
            revision: self.revision,
        }
    }
}

/// Whether every node has a parent list and every parent is a node.
pub open spec fn well_formed(g: StepGraphView) -> bool {
    &&& g.parents.len() == g.steps.len()
    &&& forall|i: int, k: int|
        0 <= i < g.parents.len() && 0 <= k < g.parents[i].len() ==> (#[trigger] g.parents[i][k])
            < g.steps.len()
}

/// Whether `child` lists `node` among its parents.
pub open spec fn is_child_of(g: StepGraphView, child: int, node: NodeId) -> bool {
    0 <= child < g.parents.len() && g.parents[child].contains(node)
}

/// Whether `rank` gives every node a rank above the ranks of its parents.
pub open spec fn ranks_rise(g: StepGraphView, rank: Seq<int>) -> bool {
    &&& rank.len() == g.steps.len()
    &&& forall|i: int, k: int|
        0 <= i < g.parents.len() && 0 <= k < g.parents[i].len() ==> rank[(
        #[trigger] g.parents[i][k]) as int] < rank[i]
}

/// Whether the graph has no cycle: its nodes can be ranked so that every
/// node stands above its parents.
pub open spec fn acyclic(g: StepGraphView) -> bool {
    exists|rank: Seq<int>| ranks_rise(g, rank)
}

/// Whether the nodes from `from` up to `to` are a run: walking first
/// parents from `to` reaches `from` in at most `fuel` hops.
pub open spec fn is_run(g: StepGraphView, from: NodeId, to: NodeId, fuel: nat) -> bool
    decreases fuel,
{
    to == from || (fuel > 0 && to < g.parents.len() && g.parents[to as int].len() > 0 && is_run(
        g,
        from,
        g.parents[to as int][0],
        (fuel - 1) as nat,
    ))
}

/// The two ends of a run.
pub struct RunEnds {
    /// The end toward the base.
    pub lower: NodeId,
    /// The end toward the tip.
    pub upper: NodeId,
}

/// The ends of the run between `a` and `b`, whichever of them is the
/// lower one; `None` where neither is reached from the other by walking
/// first parents.
pub open spec fn run_ends(g: StepGraphView, a: NodeId, b: NodeId) -> Option<RunEnds> {
    if is_run(g, a, b, g.steps.len()) {
        Some(RunEnds { lower: a, upper: b })
    } else if is_run(g, b, a, g.steps.len()) {
        Some(RunEnds { lower: b, upper: a })
    } else {
        None
    }
}

/// `ps` with every occurrence of `target` replaced by the list `with`, in
/// place.
pub open spec fn replace_in(ps: Seq<NodeId>, target: NodeId, with: Seq<NodeId>) -> Seq<NodeId>
    decreases ps.len(),
{
    if ps.len() == 0 {
        Seq::empty()
    } else if ps.last() == target {
        replace_in(ps.drop_last(), target, with) + with
    } else {
        replace_in(ps.drop_last(), target, with).push(ps.last())
    }
}

/// The graph after the run from `from` up to `to` was disconnected: every
/// node that had `to` as a parent has the parents of `from` in its place,
/// and `from` has no parents left. The revision is bumped.
pub open spec fn disconnect_spec(g: StepGraphView, from: NodeId, to: NodeId) -> StepGraphView {
    StepGraphView {
        steps: g.steps,
        parents: Seq::new(
            g.parents.len(),
            |i: int|
                if i == from {
                    Seq::empty()
                } else {
                    replace_in(g.parents[i], to, g.parents[from as int])
                },
        ),
        revision: (g.revision + 1) as u64,
    }
}

/// The graph after the step of `node` was swapped for `step`.
pub open spec fn replace_spec(g: StepGraphView, node: NodeId, step: Step) -> StepGraphView {
    StepGraphView { steps: g.steps.update(node as int, step), parents: g.parents, revision: g.revision }
}

/// The graph after `step` was inserted on `side` of `node`, as a new node
/// at the end of the arena.
///
/// Above: the new node has `node` as its only parent, and every node that
/// had `node` as a parent has the new node in its place. Below: the new
/// node takes over the parents of `node`, and becomes its only parent.
pub open spec fn insert_spec(g: StepGraphView, node: NodeId, step: Step, side: Side) -> StepGraphView {
    let fresh = g.steps.len() as NodeId;
    StepGraphView {
        steps: g.steps.push(step),
        parents: match side {
            Side::Above => Seq::new(
                g.parents.len(),
                |i: int| replace_in(g.parents[i], node, seq![fresh]),
            ).push(seq![node]),
            Side::Below => g.parents.update(node as int, seq![fresh]).push(g.parents[node as int]),
        },
        revision: (g.revision + 1) as u64,
    }
}

/// What a selector resolves to in `g`: itself at the current revision, or
/// a refusal where it names no node or comes from a later revision.
pub open spec fn normalize_spec(g: StepGraphView, s: Selector) -> Result<Selector, GraphError> {
    if s.id < g.steps.len() && s.revision <= g.revision {
        Ok(Selector { id: s.id, revision: g.revision })
    } else {
        Err(GraphError::StaleSelector)
    }
}

/// Whether `step` replays `commit_id`.
pub open spec fn is_pick_of(step: Step, commit_id: CommitId) -> bool {
    step is Pick && step->commit_id == commit_id
}

/// The nodes at or after `i` that replay `commit_id`, in order.
pub open spec fn picks_from(steps: Seq<Step>, commit_id: CommitId, i: int) -> Seq<NodeId>
    decreases steps.len() - i,
{
    if i < 0 || i >= steps.len() {
        Seq::empty()
    } else if is_pick_of(steps[i], commit_id) {
        seq![i as NodeId] + picks_from(steps, commit_id, i + 1)
    } else {
        picks_from(steps, commit_id, i + 1)
    }
}

/// The selector of the one pick that replays `commit_id`.
pub open spec fn select_commit_spec(g: StepGraphView, commit_id: CommitId) -> Result<
    Selector,
    GraphError,
> {
    let picks = picks_from(g.steps, commit_id, 0);
    if picks.len() == 1 {
        Ok(Selector { id: picks[0], revision: g.revision })
    } else {
        Err(GraphError::NotInGraph)
    }
}

/// Whether `step` marks the landing place of the reference `refname`.
pub open spec fn is_reference_of(step: Step, refname: u64) -> bool {
    step is Reference && step->refname == refname
}

/// The nodes at or after `i` that mark the landing place of `refname`, in
/// order.
pub open spec fn references_from(steps: Seq<Step>, refname: u64, i: int) -> Seq<NodeId>
    decreases steps.len() - i,
{
    if i < 0 || i >= steps.len() {
        Seq::empty()
    } else if is_reference_of(steps[i], refname) {
        seq![i as NodeId] + references_from(steps, refname, i + 1)
    } else {
        references_from(steps, refname, i + 1)
    }
}

/// The selector of the one node that marks the landing place of `refname`.
pub open spec fn select_reference_spec(g: StepGraphView, refname: u64) -> Result<
    Selector,
    GraphError,
> {
    let found = references_from(g.steps, refname, 0);
    if found.len() == 1 {
        Ok(Selector { id: found[0], revision: g.revision })
    } else {
        Err(GraphError::NotInGraph)
    }
}

/// The first pick met when walking first parents from `node`, in at most
/// `fuel` hops.
pub open spec fn first_pick_above(g: StepGraphView, node: NodeId, fuel: nat) -> Option<NodeId>
    decreases fuel,
{
    if fuel == 0 || node >= g.parents.len() || g.parents[node as int].len() == 0 {
        None
    } else {
        let p = g.parents[node as int][0];
        if p < g.steps.len() && g.steps[p as int] is Pick {
            Some(p)
        } else {
            first_pick_above(g, p, (fuel - 1) as nat)
        }
    }
}

/// The commit that a reference lands on: the first pick among its
/// ancestors along first parents.
pub open spec fn reference_target_spec(g: StepGraphView, s: Selector) -> Result<Selector, GraphError> {
    match normalize_spec(g, s) {
        Err(e) => Err(e),
        Ok(n) => if !(g.steps[n.id as int] is Reference) {
            Err(GraphError::WrongStepKind)
        } else {
            match first_pick_above(g, n.id, g.steps.len()) {
                Some(p) => Ok(Selector { id: p, revision: g.revision }),
                None => Err(GraphError::NoReferenceTarget),
            }
        },
    }
}

fn replace_parent(ps: &Vec<NodeId>, target: NodeId, with: &Vec<NodeId>) -> (out: Vec<NodeId>)
    ensures
        out@ == replace_in(ps@, target, with@),
{
    let mut out: Vec<NodeId> = Vec::new();
    let mut i: usize = 0;
    while i < ps.len()
        invariant
            i <= ps.len(),
            out@ == replace_in(ps@.take(i as int), target, with@),
        decreases ps.len() - i,
    {
        proof {
            assert(ps@.take(i + 1).drop_last() =~= ps@.take(i as int));
        }
        if ps[i] == target {
            let mut j: usize = 0;
            let ghost before = out@;
            while j < with.len()
                invariant
                    j <= with.len(),
                    out@ == before + with@.take(j as int),
                decreases with.len() - j,
            {
                out.push(with[j]);
                j += 1;
                proof {
                    assert(before + with@.take(j as int) =~= (before + with@.take(j - 1)).push(
                        with@[j - 1],
                    ));
                }
            }
            proof {
                assert(with@.take(with.len() as int) =~= with@);
            }
        } else {
            out.push(ps[i]);
        }
        i += 1;
    }
    proof {
        assert(ps@.take(ps.len() as int) =~= ps@);
    }
    out
}

proof fn lemma_replace_in_bounded(ps: Seq<NodeId>, target: NodeId, with: Seq<NodeId>, bound: int)
    requires
        forall|k: int| 0 <= k < ps.len() ==> (#[trigger] ps[k]) < bound,
        forall|k: int| 0 <= k < with.len() ==> (#[trigger] with[k]) < bound,
    ensures
        forall|k: int|
            0 <= k < replace_in(ps, target, with).len() ==> (#[trigger] replace_in(
                ps,
                target,
                with,
            )[k]) < bound,
    decreases ps.len(),
{
    if ps.len() > 0 {
        lemma_replace_in_bounded(ps.drop_last(), target, with, bound);
        let rest = replace_in(ps.drop_last(), target, with);
        let all = replace_in(ps, target, with);
        assert forall|k: int| 0 <= k < all.len() implies (#[trigger] all[k]) < bound by {
            if k < rest.len() {
                assert(all[k] == rest[k]);
            } else if ps.last() == target {
                assert(all[k] == with[k - rest.len()]);
            } else {
                assert(all[k] == ps[ps.len() - 1]);
            }
        }
    }
}

impl Editor {
    /// Whether the graph is well formed. Every graph that this module
    /// hands out is.
    pub open spec fn wf(&self) -> bool {
        well_formed(self@) && acyclic(self@)
    }

    /// A graph without nodes, at revision zero.
    pub fn new() -> (g: Self)
        ensures
            g.wf(),
            g@.steps.len() == 0,
            g@.revision == 0,
    {
        let g = Editor { steps: Vec::new(), parents: Vec::new(), revision: 0 };
        proof {
            assert(g@.parents =~= Seq::empty());
            assert(ranks_rise(g@, Seq::<int>::empty()));
        }
        g
    }

    /// The number of nodes.
    pub fn len(&self) -> (n: usize)
        ensures
            n == self@.steps.len(),
    {
        self.steps.len()
    }

    /// The current revision.
    pub fn current_revision(&self) -> (r: u64)
        ensures
            r == self@.revision,
    {
        self.revision
    }

    /// Add a node with the given step and parents while building the
    /// graph. Parents that are not nodes of the graph refuse the call with
    /// `StaleSelector`. Building does not bump the revision.
    #[verifier::loop_isolation(false)]
    pub fn add_step(&mut self, step: Step, parents: Vec<NodeId>) -> (r: Result<Selector, GraphError>)
        requires
            old(self).wf(),
        ensures
            final(self).wf(),
            match r {
                Ok(s) => {
                    &&& forall|k: int| 0 <= k < parents@.len() ==> parents@[k] < old(self)@.steps.len()
                    &&& s == Selector { id: old(self)@.steps.len() as NodeId, revision: old(self)@.revision }
                    &&& final(self)@ == StepGraphView {
                        steps: old(self)@.steps.push(step),
                        parents: old(self)@.parents.push(parents@),
                        revision: old(self)@.revision,
                    }
                },
                Err(e) => {
                    &&& e == GraphError::StaleSelector
                    &&& exists|k: int| 0 <= k < parents@.len() && parents@[k] >= old(self)@.steps.len()
                    &&& final(self)@ == old(self)@
                },
            },
    {
        let n = self.steps.len();
        let mut k: usize = 0;
        while k < parents.len()
            invariant
                k <= parents.len(),
                n == self.steps@.len(),
                forall|j: int| 0 <= j < k ==> parents@[j] < n,
            decreases parents.len() - k,
        {
            if parents[k] >= n {
                return Err(GraphError::StaleSelector);
            }
            k += 1;
        }
        let ghost before = self@;
        self.steps.push(step);
        self.parents.push(parents);
        proof {
            assert(self@.parents =~= before.parents.push(parents@));
            lemma_add_step_keeps_acyclic(before, step, parents@);
        }
        Ok(Selector { id: n, revision: self.revision })
    }

    /// Resolve a selector against the current revision.
    pub fn normalize_selector(&self, selector: Selector) -> (r: Result<Selector, GraphError>)
        ensures
            r == normalize_spec(self@, selector),
    {
        if selector.id < self.steps.len() && selector.revision <= self.revision {
            Ok(Selector { id: selector.id, revision: self.revision })
        } else {
            Err(GraphError::StaleSelector)
        }
    }

    /// The step of the selected node.
    pub fn lookup_step(&self, selector: Selector) -> (r: Result<Step, GraphError>)
        ensures
            r == (match normalize_spec(self@, selector) {
                Ok(n) => Ok::<Step, GraphError>(self@.steps[n.id as int]),
                Err(e) => Err::<Step, GraphError>(e),
            }),
    {
        match self.normalize_selector(selector) {
            Ok(n) => Ok(self.steps[n.id]),
            Err(e) => Err(e),
        }
    }

    /// The parents of the selected node, in order.
    pub fn parents_of(&self, selector: Selector) -> (r: Result<Vec<NodeId>, GraphError>)
        requires
            self.wf(),
        ensures
            match r {
                Ok(ps) => normalize_spec(self@, selector) is Ok && ps@ == self@.parents[selector.id as int],
                Err(e) => normalize_spec(self@, selector) == Err::<Selector, GraphError>(e),
            },
    {
        match self.normalize_selector(selector) {
            Ok(n) => Ok(self.parents[n.id].clone()),
            Err(e) => Err(e),
        }
    }

    /// Locate the one pick that replays `commit_id`.
    pub fn select_commit(&self, commit_id: CommitId) -> (r: Result<Selector, GraphError>)
        ensures
            r == select_commit_spec(self@, commit_id),
    {
        let mut found: Vec<NodeId> = Vec::new();
        let mut i: usize = self.steps.len();
        proof {
            assert(found@ =~= picks_from(self@.steps, commit_id, i as int));
        }
        while i > 0
            invariant
                i <= self.steps.len(),
                found@ == picks_from(self@.steps, commit_id, i as int),
            decreases i,
        {
            i -= 1;
            let is_pick = match self.steps[i] {
                Step::Pick { commit_id: c, new_message: _ } => c == commit_id,
                _ => false,
            };
            if is_pick {
                found.insert(0, i);
                proof {
                    assert(found@ =~= seq![i as NodeId] + picks_from(
                        self@.steps,
                        commit_id,
                        i + 1,
                    ));
                }
            }
        }
        if found.len() == 1 {
            Ok(Selector { id: found[0], revision: self.revision })
        } else {
            Err(GraphError::NotInGraph)
        }
    }

    /// Locate the one node that marks the landing place of `refname`.
    pub fn select_reference(&self, refname: u64) -> (r: Result<Selector, GraphError>)
        ensures
            r == select_reference_spec(self@, refname),
    {
        let mut found: Vec<NodeId> = Vec::new();
        let mut i: usize = self.steps.len();
        proof {
            assert(found@ =~= references_from(self@.steps, refname, i as int));
        }
        while i > 0
            invariant
                i <= self.steps.len(),
                found@ == references_from(self@.steps, refname, i as int),
            decreases i,
        {
            i -= 1;
            let is_reference = match self.steps[i] {
                Step::Reference { refname: name } => name == refname,
                _ => false,
            };
            if is_reference {
                found.insert(0, i);
                proof {
                    assert(found@ =~= seq![i as NodeId] + references_from(
                        self@.steps,
                        refname,
                        i + 1,
                    ));
                }
            }
        }
        if found.len() == 1 {
            Ok(Selector { id: found[0], revision: self.revision })
        } else {
            Err(GraphError::NotInGraph)
        }
    }

    /// The step of the node `id`.
    pub fn step_at(&self, id: NodeId) -> (r: Step)
        requires
            id < self@.steps.len(),
        ensures
            r == self@.steps[id as int],
    {
        self.steps[id]
    }

    /// The number of parents of the node `id`.
    pub fn parent_count(&self, id: NodeId) -> (r: usize)
        requires
            self.wf(),
            id < self@.steps.len(),
        ensures
            r == self@.parents[id as int].len(),
    {
        self.parents[id].len()
    }

    /// The parent at position `k` of the node `id`.
    pub fn parent_at(&self, id: NodeId, k: usize) -> (r: NodeId)
        requires
            self.wf(),
            id < self@.steps.len(),
            k < self@.parents[id as int].len(),
        ensures
            r == self@.parents[id as int][k as int],
            r < self@.steps.len(),
    {
        self.parents[id][k]
    }

    /// Find the pick that replays `commit_id`; the same as
    /// [`Editor::select_commit`].
    pub fn find_commit(&self, commit_id: CommitId) -> (r: Result<Selector, GraphError>)
        ensures
            r == select_commit_spec(self@, commit_id),
    {
        self.select_commit(commit_id)
    }

    /// Resolve a selector that must name a pick, and return it with the
    /// commit that the pick replays.
    pub fn find_selectable_commit(&self, selector: Selector) -> (r: Result<
        (Selector, CommitId),
        GraphError,
    >)
        ensures
            r == (match normalize_spec(self@, selector) {
                Err(e) => Err::<(Selector, CommitId), GraphError>(e),
                Ok(n) => if self@.steps[n.id as int] is Pick {
                    Ok::<(Selector, CommitId), GraphError>((n, self@.steps[n.id as int]->commit_id))
                } else {
                    Err::<(Selector, CommitId), GraphError>(GraphError::WrongStepKind)
                },
            }),
    {
        match self.normalize_selector(selector) {
            Err(e) => Err(e),
            Ok(n) => match self.steps[n.id] {
                Step::Pick { commit_id, new_message: _ } => Ok((n, commit_id)),
                _ => Err(GraphError::WrongStepKind),
            },
        }
    }

    /// Find the pick that a reference lands on: the first pick among its
    /// ancestors along first parents.
    #[verifier::loop_isolation(false)]
    pub fn find_reference_target(&self, selector: Selector) -> (r: Result<Selector, GraphError>)
        requires
            self.wf(),
        ensures
            r == reference_target_spec(self@, selector),
            r is Ok ==> r->Ok_0.id < self@.steps.len() && self@.steps[r->Ok_0.id as int] is Pick
                && r->Ok_0.revision == self@.revision,
    {
        let n = match self.normalize_selector(selector) {
            Ok(n) => n,
            Err(e) => {
                return Err(e);
            },
        };
        match self.steps[n.id] {
            Step::Reference { refname: _ } => {},
            _ => {
                return Err(GraphError::WrongStepKind);
            },
        }
        let mut node = n.id;
        let mut fuel = self.steps.len();
        while fuel > 0
            invariant
                self.wf(),
                node < self.steps@.len(),
                first_pick_above(self@, n.id, self@.steps.len() as nat) == first_pick_above(
                    self@,
                    node,
                    fuel as nat,
                ),
            decreases fuel,
        {
            if self.parents[node].len() == 0 {
                return Err(GraphError::NoReferenceTarget);
            }
            let p = self.parents[node][0];
            assert(self@.parents[node as int][0] == p);
            match self.steps[p] {
                Step::Pick { commit_id: _, new_message: _ } => {
                    return Ok(Selector { id: p, revision: self.revision });
                },
                _ => {},
            }
            node = p;
            fuel -= 1;
        }
        Err(GraphError::NoReferenceTarget)
    }

    /// Swap the step of the selected node in place.
    pub fn replace(&mut self, selector: Selector, step: Step) -> (r: Result<Selector, GraphError>)
        requires
            old(self).wf(),
        ensures
            final(self).wf(),
            r == normalize_spec(old(self)@, selector),
            match r {
                Ok(n) => final(self)@ == replace_spec(old(self)@, n.id, step),
                Err(_) => final(self)@ == old(self)@,
            },
    {
        match self.normalize_selector(selector) {
            Ok(n) => {
                let ghost before = self@;
                self.steps.set(n.id, step);
                proof {
                    let rank = choose|rank: Seq<int>| ranks_rise(before, rank);
                    assert(ranks_rise(self@, rank));
                }
                Ok(n)
            },
            Err(e) => Err(e),
        }
    }

    /// Decide whether the nodes from `from` up to `to` are a run.
    fn reaches(&self, from: NodeId, to: NodeId) -> (r: bool)
        requires
            self.wf(),
            to < self@.steps.len(),
        ensures
            r == is_run(self@, from, to, self@.steps.len()),
    {
        let mut node = to;
        let mut fuel = self.steps.len();
        loop
            invariant
                self.wf(),
                node < self@.steps.len(),
                is_run(self@, from, to, self@.steps.len()) == is_run(self@, from, node, fuel as nat),
            decreases fuel,
        {
            if node == from {
                return true;
            }
            if fuel == 0 || self.parents[node].len() == 0 {
                return false;
            }
            let p = self.parents[node][0];
            assert(self@.parents[node as int][0] == p);
            node = p;
            fuel -= 1;
        }
    }

    /// Detach the run of nodes between `from` and `to`: what had the upper
    /// end of the run as a parent gets the parents of its lower end in its
    /// place. The ends may be given in either order.
    pub fn disconnect(&mut self, from: Selector, to: Selector) -> (r: Result<(), GraphError>)
        requires
            old(self).wf(),
        ensures
            final(self).wf(),
            match r {
                Ok(()) => {
                    &&& normalize_spec(old(self)@, from) is Ok
                    &&& normalize_spec(old(self)@, to) is Ok
                    &&& old(self)@.revision < u64::MAX
                    &&& run_ends(old(self)@, from.id, to.id) is Some
                    &&& final(self)@ == disconnect_spec(
                        old(self)@,
                        run_ends(old(self)@, from.id, to.id)->0.lower,
                        run_ends(old(self)@, from.id, to.id)->0.upper,
                    )
                },
                Err(e) => {
                    &&& final(self)@ == old(self)@
                    &&& e == (if normalize_spec(old(self)@, from) is Err
                        || normalize_spec(old(self)@, to) is Err {
                        GraphError::StaleSelector
                    } else if old(self)@.revision == u64::MAX {
                        GraphError::RevisionExhausted
                    } else {
                        GraphError::NotARun
                    })
                    &&& (normalize_spec(old(self)@, from) is Err || normalize_spec(old(self)@, to)
                        is Err || old(self)@.revision == u64::MAX || run_ends(
                        old(self)@,
                        from.id,
                        to.id,
                    ) is None)
                },
            },
    {
        let from = match self.normalize_selector(from) {
            Ok(n) => n.id,
            Err(e) => {
                return Err(e);
            },
        };
        let to = match self.normalize_selector(to) {
            Ok(n) => n.id,
            Err(e) => {
                return Err(e);
            },
        };
        if self.revision == u64::MAX {
            return Err(GraphError::RevisionExhausted);
        }
        let (from, to) = if self.reaches(from, to) {
            (from, to)
        } else if self.reaches(to, from) {
            (to, from)
        } else {
            return Err(GraphError::NotARun);
        };
        let inherited = self.parents[from].clone();
        let ghost before = self@;
        let mut rewired: Vec<Vec<NodeId>> = Vec::new();
        let mut i: usize = 0;
        while i < self.parents.len()
            invariant
                i <= self.parents.len(),
                self@ == before,
                well_formed(before),
                from < before.steps.len(),
                to < before.steps.len(),
                acyclic(before),
                is_run(before, from, to, before.steps.len()),
                inherited@ == before.parents[from as int],
                rewired@.len() == i,
                forall|k: int|
                    0 <= k < i ==> (#[trigger] rewired@[k])@ == disconnect_spec(
                        before,
                        from,
                        to,
                    ).parents[k],
            decreases self.parents.len() - i,
        {
            let ps = if i == from {
                Vec::new()
            } else {
                replace_parent(&self.parents[i], to, &inherited)
            };
            rewired.push(ps);
            i += 1;
        }
        self.parents = rewired;
        self.revision = self.revision + 1;
        proof {
            assert(self@.parents =~= disconnect_spec(before, from, to).parents);
            lemma_disconnect_keeps_wf(before, from, to);
            lemma_disconnect_keeps_acyclic(before, from, to);
        }
        Ok(())
    }

    /// Place `step` on the indicated side of the selected node, and
    /// return the selector of the new node.
    pub fn insert(&mut self, relative_to: Selector, step: Step, side: Side) -> (r: Result<
        Selector,
        GraphError,
    >)
        requires
            old(self).wf(),
        ensures
            final(self).wf(),
            match r {
                Ok(s) => {
                    &&& normalize_spec(old(self)@, relative_to) is Ok
                    &&& old(self)@.revision < u64::MAX
                    &&& old(self)@.steps.len() < usize::MAX
                    &&& final(self)@ == insert_spec(old(self)@, relative_to.id, step, side)
                    &&& s == Selector {
                        id: old(self)@.steps.len() as NodeId,
                        revision: final(self)@.revision,
                    }
                },
                Err(e) => {
                    &&& final(self)@ == old(self)@
                    &&& e == (if normalize_spec(old(self)@, relative_to) is Err {
                        GraphError::StaleSelector
                    } else {
                        GraphError::RevisionExhausted
                    })
                    &&& (normalize_spec(old(self)@, relative_to) is Err || old(self)@.revision
                        == u64::MAX || old(self)@.steps.len() == usize::MAX)
                },
            },
    {
        let node = match self.normalize_selector(relative_to) {
            Ok(n) => n.id,
            Err(e) => {
                return Err(e);
            },
        };
        if self.revision == u64::MAX || self.steps.len() == usize::MAX {
            return Err(GraphError::RevisionExhausted);
        }
        let fresh = self.steps.len();
        let ghost before = self@;
        let mut link: Vec<NodeId> = Vec::new();
        link.push(fresh);
        proof {
            assert(link@ =~= seq![fresh]);
        }
        match side {
            Side::Above => {
                let mut rewired: Vec<Vec<NodeId>> = Vec::new();
                let mut i: usize = 0;
                while i < self.parents.len()
                    invariant
                        i <= self.parents.len(),
                        self@ == before,
                        link@ == seq![fresh],
                        rewired@.len() == i,
                        forall|k: int|
                            0 <= k < i ==> (#[trigger] rewired@[k])@ == replace_in(
                                before.parents[k],
                                node,
                                seq![fresh],
                            ),
                    decreases self.parents.len() - i,
                {
                    let ps = replace_parent(&self.parents[i], node, &link);
                    rewired.push(ps);
                    i += 1;
                }
                let mut own: Vec<NodeId> = Vec::new();
                own.push(node);
                proof {
                    assert(own@ =~= seq![node]);
                }
                rewired.push(own);
                self.parents = rewired;
            },
            Side::Below => {
                let inherited = self.parents[node].clone();
                self.parents.set(node, link);
                self.parents.push(inherited);
            },
        }
        self.steps.push(step);
        self.revision = self.revision + 1;
        proof {
            assert(self@.parents =~= insert_spec(before, node, step, side).parents);
            lemma_insert_keeps_wf(before, node, step, side);
            lemma_insert_keeps_acyclic(before, node, step, side);
        }
        Ok(Selector { id: fresh, revision: self.revision })
    }
}

proof fn lemma_disconnect_keeps_wf(g: StepGraphView, from: NodeId, to: NodeId)
    requires
        well_formed(g),
        from < g.steps.len(),
    ensures
        well_formed(disconnect_spec(g, from, to)),
{
    let after = disconnect_spec(g, from, to);
    assert forall|i: int, k: int|
        0 <= i < after.parents.len() && 0 <= k < after.parents[i].len() implies (
    #[trigger] after.parents[i][k]) < after.steps.len() by {
        if i != from {
            lemma_replace_in_bounded(g.parents[i], to, g.parents[from as int], g.steps.len() as int);
        }
    }
}

proof fn lemma_insert_keeps_wf(g: StepGraphView, node: NodeId, step: Step, side: Side)
    requires
        well_formed(g),
        node < g.steps.len(),
        g.steps.len() < usize::MAX,
    ensures
        well_formed(insert_spec(g, node, step, side)),
{
    let after = insert_spec(g, node, step, side);
    let fresh = g.steps.len() as NodeId;
    assert forall|i: int, k: int|
        0 <= i < after.parents.len() && 0 <= k < after.parents[i].len() implies (
    #[trigger] after.parents[i][k]) < after.steps.len() by {
        match side {
            Side::Above => {
                if i < g.parents.len() {
                    lemma_replace_in_bounded(
                        g.parents[i],
                        node,
                        seq![fresh],
                        after.steps.len() as int,
                    );
                }
            },
            Side::Below => {},
        }
    }
}

proof fn lemma_replace_in_has(ps: Seq<NodeId>, target: NodeId, with: Seq<NodeId>)
    requires
        ps.contains(target),
    ensures
        forall|k: int| 0 <= k < with.len() ==> replace_in(ps, target, with).contains(#[trigger] with[k]),
    decreases ps.len(),
{
    if ps.len() > 0 {
        let rest = replace_in(ps.drop_last(), target, with);
        if ps.last() == target {
            assert forall|k: int| 0 <= k < with.len() implies replace_in(ps, target, with).contains(
                #[trigger] with[k],
            ) by {
                assert((rest + with)[rest.len() + k] == with[k]);
            }
        } else {
            let j = choose|j: int| 0 <= j < ps.len() && ps[j] == target;
            assert(ps.drop_last()[j] == target);
            lemma_replace_in_has(ps.drop_last(), target, with);
            assert forall|k: int| 0 <= k < with.len() implies replace_in(ps, target, with).contains(
                #[trigger] with[k],
            ) by {
                let m = choose|m: int| 0 <= m < rest.len() && rest[m] == with[k];
                assert(rest.push(ps.last())[m] == with[k]);
            }
        }
    }
}

proof fn lemma_replace_in_drops(ps: Seq<NodeId>, target: NodeId, with: Seq<NodeId>)
    requires
        !with.contains(target),
    ensures
        !replace_in(ps, target, with).contains(target),
    decreases ps.len(),
{
    if ps.len() > 0 {
        lemma_replace_in_drops(ps.drop_last(), target, with);
        let rest = replace_in(ps.drop_last(), target, with);
        if replace_in(ps, target, with).contains(target) {
            let m = choose|m: int|
                0 <= m < replace_in(ps, target, with).len() && replace_in(ps, target, with)[m]
                    == target;
            if m < rest.len() {
                assert(rest[m] == target);
            } else if ps.last() == target {
                assert(with[m - rest.len()] == target);
            }
        }
    }
}

/// Removing a node hands its parents to its children.
///
/// After the node `removed` was disconnected, every node that had it as a
/// parent has each of its former parents as a parent, and no longer has
/// `removed` itself: a merge commit's children keep the whole parent set of
/// the merge.
pub proof fn lemma_disconnect_rewires_children(g: StepGraphView, removed: NodeId, child: NodeId)
    requires
        well_formed(g),
        acyclic(g),
        removed < g.steps.len(),
        is_child_of(g, child as int, removed),
    ensures
        ({
            let after = disconnect_spec(g, removed, removed);
            &&& forall|k: int|
                0 <= k < g.parents[removed as int].len() ==> is_child_of(
                    after,
                    child as int,
                    #[trigger] g.parents[removed as int][k],
                )
            &&& !is_child_of(after, child as int, removed)
            &&& after.parents[removed as int].len() == 0
        }),
{
    let rank = choose|rank: Seq<int>| ranks_rise(g, rank);
    let m = choose|m: int| 0 <= m < g.parents[child as int].len() && g.parents[child as int][m] == removed;
    assert(rank[g.parents[child as int][m] as int] < rank[child as int]);
    assert(child != removed);
    if g.parents[removed as int].contains(removed) {
        let j = choose|j: int|
            0 <= j < g.parents[removed as int].len() && g.parents[removed as int][j] == removed;
        assert(rank[g.parents[removed as int][j] as int] < rank[removed as int]);
    }
    lemma_replace_in_has(g.parents[child as int], removed, g.parents[removed as int]);
    lemma_replace_in_drops(g.parents[child as int], removed, g.parents[removed as int]);
}

/// A selector stays usable across edits: whatever names a node in `g`
/// names the same node, at the new revision, after an edit that keeps the
/// nodes and does not lower the revision.
pub proof fn lemma_selectors_survive(g: StepGraphView, after: StepGraphView, s: Selector)
    requires
        normalize_spec(g, s) is Ok,
        after.steps.len() >= g.steps.len(),
        after.revision >= g.revision,
    ensures
        normalize_spec(after, s) == Ok::<Selector, GraphError>(
            Selector { id: s.id, revision: after.revision },
        ),
{
}

proof fn lemma_run_rises(g: StepGraphView, rank: Seq<int>, from: NodeId, to: NodeId, fuel: nat)
    requires
        well_formed(g),
        ranks_rise(g, rank),
        to < g.steps.len(),
        is_run(g, from, to, fuel),
    ensures
        from < g.steps.len(),
        rank[from as int] <= rank[to as int],
    decreases fuel,
{
    if to != from {
        let p = g.parents[to as int][0];
        assert(rank[p as int] < rank[to as int]);
        lemma_run_rises(g, rank, from, p, (fuel - 1) as nat);
    }
}

proof fn lemma_replace_in_ranked(
    ps: Seq<NodeId>,
    target: NodeId,
    with: Seq<NodeId>,
    rank: Seq<int>,
    bound: int,
)
    requires
        forall|k: int| 0 <= k < ps.len() ==> 0 <= (#[trigger] ps[k]) < rank.len() && rank[ps[k] as int] < bound,
        ps.contains(target) ==> forall|k: int|
            0 <= k < with.len() ==> 0 <= (#[trigger] with[k]) < rank.len() && rank[with[k] as int]
                < bound,
    ensures
        forall|k: int|
            0 <= k < replace_in(ps, target, with).len() ==> rank[(#[trigger] replace_in(
                ps,
                target,
                with,
            )[k]) as int] < bound,
    decreases ps.len(),
{
    if ps.len() > 0 {
        let front = ps.drop_last();
        assert forall|k: int| 0 <= k < front.len() implies 0 <= (#[trigger] front[k]) < rank.len()
            && rank[front[k] as int] < bound by {
            assert(front[k] == ps[k]);
        }
        if front.contains(target) {
            let j = choose|j: int| 0 <= j < front.len() && front[j] == target;
            assert(ps[j] == target);
        }
        lemma_replace_in_ranked(front, target, with, rank, bound);
        let rest = replace_in(front, target, with);
        let all = replace_in(ps, target, with);
        assert forall|k: int| 0 <= k < all.len() implies rank[(#[trigger] all[k]) as int] < bound by {
            if k < rest.len() {
                assert(all[k] == rest[k]);
            } else if ps.last() == target {
                assert(ps[ps.len() - 1] == target);
                assert(all[k] == with[k - rest.len()]);
            } else {
                assert(all[k] == ps[ps.len() - 1]);
            }
        }
    }
}

proof fn lemma_disconnect_keeps_acyclic(g: StepGraphView, from: NodeId, to: NodeId)
    requires
        well_formed(g),
        acyclic(g),
        to < g.steps.len(),
        is_run(g, from, to, g.steps.len()),
    ensures
        acyclic(disconnect_spec(g, from, to)),
{
    let rank = choose|rank: Seq<int>| ranks_rise(g, rank);
    lemma_run_rises(g, rank, from, to, g.steps.len());
    let after = disconnect_spec(g, from, to);
    assert forall|i: int, k: int|
        0 <= i < after.parents.len() && 0 <= k < after.parents[i].len() implies rank[(
    #[trigger] after.parents[i][k]) as int] < rank[i] by {
        if i != from {
            let ps = g.parents[i];
            let with = g.parents[from as int];
            assert forall|j: int| 0 <= j < ps.len() implies 0 <= (#[trigger] ps[j]) < rank.len()
                && rank[ps[j] as int] < rank[i] by {
                assert(g.parents[i][j] < g.steps.len());
            }
            if ps.contains(to) {
                let m = choose|m: int| 0 <= m < ps.len() && ps[m] == to;
                assert(rank[g.parents[i][m] as int] < rank[i]);
                assert forall|j: int| 0 <= j < with.len() implies 0 <= (#[trigger] with[j])
                    < rank.len() && rank[with[j] as int] < rank[i] by {
                    assert(g.parents[from as int][j] < g.steps.len());
                    assert(rank[g.parents[from as int][j] as int] < rank[from as int]);
                }
            }
            lemma_replace_in_ranked(ps, to, with, rank, rank[i]);
        }
    }
    assert(ranks_rise(after, rank));
}

proof fn lemma_insert_keeps_acyclic(g: StepGraphView, node: NodeId, step: Step, side: Side)
    requires
        well_formed(g),
        acyclic(g),
        node < g.steps.len(),
        g.steps.len() < usize::MAX,
    ensures
        acyclic(insert_spec(g, node, step, side)),
{
    let rank = choose|rank: Seq<int>| ranks_rise(g, rank);
    let n = g.steps.len() as int;
    let fresh = g.steps.len() as NodeId;
    let after = insert_spec(g, node, step, side);
    let own = match side {
        Side::Above => 2 * rank[node as int] + 1,
        Side::Below => 2 * rank[node as int] - 1,
    };
    let doubled = Seq::new(
        (n + 1) as nat,
        |v: int|
            if v < n {
                2 * rank[v]
            } else {
                own
            },
    );
    assert forall|i: int, k: int|
        0 <= i < after.parents.len() && 0 <= k < after.parents[i].len() implies doubled[(
    #[trigger] after.parents[i][k]) as int] < doubled[i] by {
        match side {
            Side::Above => {
                if i < n {
                    let ps = g.parents[i];
                    let with = seq![fresh];
                    assert forall|j: int| 0 <= j < ps.len() implies 0 <= (#[trigger] ps[j])
                        < doubled.len() && doubled[ps[j] as int] < doubled[i] by {
                        assert(g.parents[i][j] < g.steps.len());
                        assert(rank[g.parents[i][j] as int] < rank[i]);
                    }
                    if ps.contains(node) {
                        let m = choose|m: int| 0 <= m < ps.len() && ps[m] == node;
                        assert(rank[g.parents[i][m] as int] < rank[i]);
                        assert forall|j: int| 0 <= j < with.len() implies 0 <= (#[trigger] with[j])
                            < doubled.len() && doubled[with[j] as int] < doubled[i] by {
                            assert(with[j] == fresh);
                        }
                    }
                    lemma_replace_in_ranked(ps, node, with, doubled, doubled[i]);
                } else {
                    assert(after.parents[i][k] == node);
                }
            },
            Side::Below => {
                if i == n {
                    let p = g.parents[node as int][k];
                    assert(p < g.steps.len());
                    assert(rank[p as int] < rank[node as int]);
                } else if i == node {
                    assert(after.parents[i][k] == fresh);
                } else {
                    assert(g.parents[i][k] < g.steps.len());
                    assert(rank[g.parents[i][k] as int] < rank[i]);
                }
            },
        }
    }
    assert(ranks_rise(after, doubled));
}

/// The largest of the ranks, or zero where there are none or all are
/// negative.
spec fn top_rank(rank: Seq<int>) -> int
    decreases rank.len(),
{
    if rank.len() == 0 {
        0
    } else if rank.last() > top_rank(rank.drop_last()) {
        rank.last()
    } else {
        top_rank(rank.drop_last())
    }
}

proof fn lemma_top_rank(rank: Seq<int>, v: int)
    requires
        0 <= v < rank.len(),
    ensures
        rank[v] <= top_rank(rank),
    decreases rank.len(),
{
    if v < rank.len() - 1 {
        lemma_top_rank(rank.drop_last(), v);
    }
}

proof fn lemma_add_step_keeps_acyclic(g: StepGraphView, step: Step, parents: Seq<NodeId>)
    requires
        well_formed(g),
        acyclic(g),
        forall|k: int| 0 <= k < parents.len() ==> parents[k] < g.steps.len(),
    ensures
        acyclic(
            StepGraphView {
                steps: g.steps.push(step),
                parents: g.parents.push(parents),
                revision: g.revision,
            },
        ),
{
    let rank = choose|rank: Seq<int>| ranks_rise(g, rank);
    let after = StepGraphView {
        steps: g.steps.push(step),
        parents: g.parents.push(parents),
        revision: g.revision,
    };
    let raised = rank.push(top_rank(rank) + 1);
    assert forall|i: int, k: int|
        0 <= i < after.parents.len() && 0 <= k < after.parents[i].len() implies raised[(
    #[trigger] after.parents[i][k]) as int] < raised[i] by {
        if i < g.parents.len() {
            assert(g.parents[i][k] < g.steps.len());
            assert(rank[g.parents[i][k] as int] < rank[i]);
        } else {
            lemma_top_rank(rank, parents[k] as int);
        }
    }
    assert(ranks_rise(after, raised));
}

} // verus!
