//! Carrying out an edited step graph.
//!
//! The executor walks the graph from the base toward the tips. A node is
//! ready once all its parents are settled. A pick that is ready is handed
//! to the caller, who re-creates the commit on its new parents unless it
//! can be reused as it is. Placeholders and references produce no commit:
//! what has one of them as a parent sees its parents' commits in its place.

use vstd::prelude::*;
use crate::graph::{
    acyclic, normalize_spec, ranks_rise, well_formed, GraphError, NodeId, Selector, Step, Editor, StepGraphView,
};
use crate::squash::CommitId;

verus! {

/// What the object database tells about the commit that a pick replays.
#[derive(Debug, Clone, PartialEq, Eq)]
pub struct PickFacts {
    /// Whether the commit carries an unresolved conflict.
    pub conflicted: bool,
    /// The parents of the commit.
    pub parents: Vec<CommitId>,
}

/// What becomes of a pick.
#[derive(Debug, Clone, Copy, PartialEq, Eq, Structural)]
pub enum PickAction {
    /// The commit is used as it is.
    Reuse,
    /// The commit is created anew on its new parents.
    Recommit,
}

/// Whether a pick has to be created anew: it is reworded, its commit is
/// conflicted, or its parents have changed.
pub open spec fn must_recommit(
    new_message: Option<u64>,
    conflicted: bool,
    original_parents: Seq<CommitId>,
    new_parents: Seq<CommitId>,
) -> bool {
    new_message is Some || conflicted || original_parents != new_parents
}

fn same_commits(a: &Vec<CommitId>, b: &Vec<CommitId>) -> (r: bool)
    ensures
        r == (a@ == b@),
{
    if a.len() != b.len() {
        return false;
    }
    let mut i: usize = 0;
    while i < a.len()
        invariant
            i <= a.len(),
            a.len() == b.len(),
            forall|k: int| 0 <= k < i ==> a@[k] == b@[k],
        decreases a.len() - i,
    {
        if a[i] != b[i] {
            return false;
        }
        i += 1;
    }
    assert(a@ =~= b@);
    true
}

/// Decide what becomes of a pick with the given new parents.
pub fn plan_pick(new_message: Option<u64>, facts: &PickFacts, new_parents: &Vec<CommitId>) -> (r:
    PickAction)
    ensures
        r == pick_action_spec(new_message, facts.conflicted, facts.parents@, new_parents@),
{
    if new_message.is_some() || facts.conflicted || !same_commits(&facts.parents, new_parents) {
        PickAction::Recommit
    } else {
        PickAction::Reuse
    }
}

/// The commit that a pick emits: the original where it is reused, the
/// commit that was created where it is not.
pub fn emitted_commit(original: CommitId, action: PickAction, created: CommitId) -> (r: CommitId)
    ensures
        r == emitted_commit_spec(original, action, created),
{
    match action {
        PickAction::Reuse => original,
        PickAction::Recommit => created,
    }
}

/// What becomes of a pick, as [`plan_pick`] decides it.
pub open spec fn pick_action_spec(
    new_message: Option<u64>,
    conflicted: bool,
    original_parents: Seq<CommitId>,
    new_parents: Seq<CommitId>,
) -> PickAction {
    if must_recommit(new_message, conflicted, original_parents, new_parents) {
        PickAction::Recommit
    } else {
        PickAction::Reuse
    }
}

/// The commit that a pick emits, as [`emitted_commit`] computes it.
pub open spec fn emitted_commit_spec(original: CommitId, action: PickAction, created: CommitId) -> CommitId {
    match action {
        PickAction::Reuse => original,
        PickAction::Recommit => created,
    }
}

/// A pick that is not reworded, whose commit is not conflicted and whose
/// parents are unchanged emits its original commit, whatever commit a
/// re-creation would have given.
pub proof fn lemma_unchanged_pick_keeps_its_commit(
    original: CommitId,
    parents: Seq<CommitId>,
    created: CommitId,
)
    ensures
        emitted_commit_spec(original, pick_action_spec(None, false, parents, parents), created)
            == original,
{
}

/// The commits that a node sees in place of its parents: for each parent,
/// in order, what the parent settled on.
pub open spec fn flat(landings: Seq<Seq<CommitId>>, parents: Seq<NodeId>) -> Seq<CommitId>
    decreases parents.len(),
{
    if parents.len() == 0 {
        Seq::empty()
    } else {
        flat(landings, parents.drop_last()) + landings[parents.last() as int]
    }
}

/// The mathematical value of a [`Rebase`].
pub struct RebaseView {
    /// The graph that is carried out.
    pub graph: StepGraphView,
    /// The commit that everything is rebased onto.
    pub base: CommitId,
    /// Which nodes are settled.
    pub settled: Seq<bool>,
    /// What each settled node settled on: a pick on its commit, any other
    /// node on what it sees in place of its parents.
    pub landings: Seq<Seq<CommitId>>,
}

/// Whether all parents of `v` are settled.
pub open spec fn parents_settled(r: RebaseView, v: int) -> bool {
    forall|k: int|
        0 <= k < r.graph.parents[v].len() ==> r.settled[(#[trigger] r.graph.parents[v][k]) as int]
}

/// Whether `v`, if settled, is settled rightly: after its parents, a pick
/// on one commit, any other node on what it sees in place of its parents.
pub open spec fn node_ok(r: RebaseView, v: int) -> bool {
    r.settled[v] ==> {
        &&& parents_settled(r, v)
        &&& if r.graph.steps[v] is Pick {
            r.landings[v].len() == 1
        } else {
            r.landings[v] == flat(r.landings, r.graph.parents[v])
        }
    }
}

/// Whether the state of a rebase is sound.
pub open spec fn consistent(r: RebaseView) -> bool {
    &&& well_formed(r.graph)
    &&& acyclic(r.graph)
    &&& r.settled.len() == r.graph.steps.len()
    &&& r.landings.len() == r.graph.steps.len()
    &&& forall|v: int| 0 <= v < r.graph.steps.len() ==> node_ok(r, v)
}

/// Whether `v` is ready: not settled, with all its parents settled.
pub open spec fn is_ready(r: RebaseView, v: int) -> bool {
    0 <= v < r.graph.steps.len() && !r.settled[v] && parents_settled(r, v)
}

/// Whether every node is settled.
pub open spec fn all_settled(r: RebaseView) -> bool {
    forall|v: int| 0 <= v < r.settled.len() ==> r.settled[v]
}

/// Whether `after` continues `before`: the same graph and base, and what
/// was settled stays settled on the same commits.
pub open spec fn continues(before: RebaseView, after: RebaseView) -> bool {
    &&& after.graph == before.graph
    &&& after.base == before.base
    &&& forall|v: int|
        0 <= v < before.settled.len() && before.settled[v] ==> after.settled[v]
            && after.landings[v] == before.landings[v]
}

/// The number of nodes that are not settled.
pub open spec fn unsettled(settled: Seq<bool>) -> nat
    decreases settled.len(),
{
    if settled.len() == 0 {
        0
    } else if settled.last() {
        unsettled(settled.drop_last())
    } else {
        unsettled(settled.drop_last()) + 1
    }
}

proof fn lemma_settling_counts(settled: Seq<bool>, v: int)
    requires
        0 <= v < settled.len(),
        !settled[v],
    ensures
        unsettled(settled.update(v, true)) + 1 == unsettled(settled),
    decreases settled.len(),
{
    if v == settled.len() - 1 {
        assert(settled.update(v, true).drop_last() =~= settled.drop_last());
    } else {
        lemma_settling_counts(settled.drop_last(), v);
        assert(settled.update(v, true).drop_last() =~= settled.drop_last().update(v, true));
    }
}

proof fn lemma_flat_ignores_others(
    landings: Seq<Seq<CommitId>>,
    parents: Seq<NodeId>,
    w: int,
    x: Seq<CommitId>,
)
    requires
        0 <= w < landings.len(),
        forall|k: int| 0 <= k < parents.len() ==> parents[k] != w && parents[k] < landings.len(),
    ensures
        flat(landings.update(w, x), parents) == flat(landings, parents),
    decreases parents.len(),
{
    if parents.len() > 0 {
        lemma_flat_ignores_others(landings, parents.drop_last(), w, x);
    }
}

/// The lowest of the ranks, or zero where there are none or all are
/// positive.
spec fn lowest(rank: Seq<int>) -> int
    decreases rank.len(),
{
    if rank.len() == 0 {
        0
    } else if rank.last() < lowest(rank.drop_last()) {
        rank.last()
    } else {
        lowest(rank.drop_last())
    }
}

proof fn lemma_lowest(rank: Seq<int>, v: int)
    requires
        0 <= v < rank.len(),
    ensures
        lowest(rank) <= rank[v],
    decreases rank.len(),
{
    if v < rank.len() - 1 {
        lemma_lowest(rank.drop_last(), v);
    }
}

/// While a node is left to settle, some node is ready: below every node
/// that is neither settled nor ready lies a parent that is not settled, and
/// the ranks of a graph without cycles cannot fall forever.
proof fn lemma_some_node_is_ready(r: RebaseView, rank: Seq<int>, v: int)
    requires
        consistent(r),
        ranks_rise(r.graph, rank),
        0 <= v < r.graph.steps.len(),
        !r.settled[v],
        lowest(rank) <= rank[v],
    ensures
        exists|u: int| 0 <= u < r.graph.steps.len() && is_ready(r, u),
    decreases rank[v] - lowest(rank),
{
    if !is_ready(r, v) {
        let k = choose|k: int|
            0 <= k < r.graph.parents[v].len() && !r.settled[(#[trigger] r.graph.parents[v][k]) as int];
        let p = r.graph.parents[v][k];
        assert(p < r.graph.steps.len());
        assert(rank[p as int] < rank[v]);
        lemma_lowest(rank, p as int);
        lemma_some_node_is_ready(r, rank, p as int);
    }
}

/// What the executor asks of its caller next.
#[derive(Debug, Clone, PartialEq, Eq)]
pub enum Work {
    /// Every node is settled.
    Done,
    /// Settle this pick: decide with [`plan_pick`] whether the commit is
    /// reused, re-create it on `parents` if not, and hand the commit that
    /// comes out to [`Rebase::record`].
    Pick { node: NodeId, commit_id: CommitId, new_message: Option<u64>, parents: Vec<CommitId> },
}

/// A rebase in progress.
pub struct Rebase {
    graph: Editor,
    base: CommitId,
    settled: Vec<bool>,
    landings: Vec<Vec<CommitId>>,
}

impl View for Rebase {
    type V = RebaseView;

    closed spec fn view(&self) -> RebaseView {
        RebaseView {
            graph: self.graph@,
            base: self.base,
            settled: self.settled@,
            landings: Seq::new(self.landings@.len(), |i: int| self.landings@[i]@),
        }
    }
}

/// The outcome of a rebase: for each node of the graph the one commit it
/// resolves to.
pub struct SuccessfulRebase {
    graph: Editor,
    commits: Vec<CommitId>,
}

/// The commit that a settled node resolves to: the first commit it settled
/// on, or the base where it settled on none.
pub open spec fn resolved_commit(r: RebaseView, v: int) -> CommitId {
    if r.landings[v].len() > 0 {
        r.landings[v][0]
    } else {
        r.base
    }
}

impl Rebase {
    /// Whether the state is sound. Every state that this module hands out
    /// is.
    pub open spec fn wf(&self) -> bool {
        consistent(self@)
    }

    /// Start to carry out `graph` onto `base`: nothing is settled yet.
    pub fn start(graph: Editor, base: CommitId) -> (r: Self)
        requires
            graph.wf(),
        ensures
            r.wf(),
            r@.graph == graph@,
            r@.base == base,
            forall|v: int| 0 <= v < r@.settled.len() ==> !r@.settled[v],
    {
        let n = graph.len();
        let mut settled: Vec<bool> = Vec::new();
        let mut landings: Vec<Vec<CommitId>> = Vec::new();
        let mut i: usize = 0;
        while i < n
            invariant
                i <= n,
                settled@.len() == i,
                landings@.len() == i,
                forall|v: int| 0 <= v < i ==> !settled@[v],
            decreases n - i,
        {
            settled.push(false);
            landings.push(Vec::new());
            i += 1;
        }
        Rebase { graph, base, settled, landings }
    }

    fn node_is_ready(&self, v: usize) -> (r: bool)
        requires
            self.wf(),
            v < self@.graph.steps.len(),
        ensures
            r == is_ready(self@, v as int),
    {
        if self.settled[v] {
            return false;
        }
        let count = self.graph.parent_count(v);
        let mut k: usize = 0;
        while k < count
            invariant
                k <= count,
                self.wf(),
                v < self@.graph.steps.len(),
                count == self@.graph.parents[v as int].len(),
                forall|j: int|
                    0 <= j < k ==> self@.settled[(#[trigger] self@.graph.parents[v as int][j]) as int],
            decreases count - k,
        {
            let p = self.graph.parent_at(v, k);
            if !self.settled[p] {
                return false;
            }
            k += 1;
        }
        true
    }

    fn find_ready(&self) -> (r: Option<NodeId>)
        requires
            self.wf(),
        ensures
            match r {
                Some(v) => is_ready(self@, v as int),
                None => forall|v: int| 0 <= v < self@.graph.steps.len() ==> !is_ready(self@, v),
            },
    {
        let n = self.graph.len();
        let mut v: usize = 0;
        while v < n
            invariant
                v <= n,
                self.wf(),
                n == self@.graph.steps.len(),
                forall|u: int| 0 <= u < v ==> !is_ready(self@, u),
            decreases n - v,
        {
            if self.node_is_ready(v) {
                return Some(v);
            }
            v += 1;
        }
        None
    }

    fn everything_settled(&self) -> (r: bool)
        ensures
            r == all_settled(self@),
    {
        let mut v: usize = 0;
        while v < self.settled.len()
            invariant
                v <= self.settled.len(),
                forall|u: int| 0 <= u < v ==> self.settled@[u],
            decreases self.settled.len() - v,
        {
            if !self.settled[v] {
                assert(!self@.settled[v as int]);
                return false;
            }
            v += 1;
        }
        true
    }

    fn collect_parents(&self, v: usize) -> (r: Vec<CommitId>)
        requires
            self.wf(),
            v < self@.graph.steps.len(),
        ensures
            r@ == flat(self@.landings, self@.graph.parents[v as int]),
    {
        let count = self.graph.parent_count(v);
        let ghost parents = self@.graph.parents[v as int];
        let mut out: Vec<CommitId> = Vec::new();
        let mut k: usize = 0;
        proof {
            assert(parents.take(0) =~= Seq::empty());
        }
        while k < count
            invariant
                k <= count,
                self.wf(),
                v < self@.graph.steps.len(),
                parents == self@.graph.parents[v as int],
                count == parents.len(),
                out@ == flat(self@.landings, parents.take(k as int)),
            decreases count - k,
        {
            let p = self.graph.parent_at(v, k);
            proof {
                assert(parents.take(k + 1).drop_last() =~= parents.take(k as int));
                assert(parents.take(k + 1).last() == p);
                assert(self@.landings[p as int] == self.landings@[p as int]@);
            }
            let landing = &self.landings[p];
            let ghost before = out@;
            let mut j: usize = 0;
            while j < landing.len()
                invariant
                    j <= landing.len(),
                    out@ == before + landing@.take(j as int),
                decreases landing.len() - j,
            {
                out.push(landing[j]);
                j += 1;
                proof {
                    assert(before + landing@.take(j as int) =~= (before + landing@.take(j - 1)).push(
                        landing@[j - 1],
                    ));
                }
            }
            proof {
                assert(landing@.take(landing.len() as int) =~= landing@);
            }
            k += 1;
        }
        proof {
            assert(parents.take(count as int) =~= parents);
        }
        out
    }

    fn settle(&mut self, v: usize, landing: Vec<CommitId>)
        requires
            old(self).wf(),
            is_ready(old(self)@, v as int),
            if old(self)@.graph.steps[v as int] is Pick {
                landing@.len() == 1
            } else {
                landing@ == flat(old(self)@.landings, old(self)@.graph.parents[v as int])
            },
        ensures
            final(self).wf(),
            continues(old(self)@, final(self)@),
            final(self)@.settled == old(self)@.settled.update(v as int, true),
            final(self)@.landings == old(self)@.landings.update(v as int, landing@),
            unsettled(final(self)@.settled) + 1 == unsettled(old(self)@.settled),
    {
        let ghost before = self@;
        self.landings.set(v, landing);
        self.settled.set(v, true);
        proof {
            let after = self@;
            assert(after.landings =~= before.landings.update(v as int, landing@));
            lemma_settling_counts(before.settled, v as int);
            assert forall|u: int| 0 <= u < after.graph.steps.len() implies node_ok(after, u) by {
                if after.settled[u] {
                    if u == v {
                        assert forall|k: int| 0 <= k < after.graph.parents[u].len() implies (
                        #[trigger] after.graph.parents[u][k]) != v by {
                            assert(before.settled[before.graph.parents[v as int][k] as int]);
                        }
                        lemma_flat_ignores_others(
                            before.landings,
                            before.graph.parents[u],
                            v as int,
                            landing@,
                        );
                    } else {
                        assert(node_ok(before, u));
                        assert forall|k: int| 0 <= k < after.graph.parents[u].len() implies (
                        #[trigger] after.graph.parents[u][k]) != v by {
                            assert(before.settled[before.graph.parents[u][k] as int]);
                        }
                        lemma_flat_ignores_others(
                            before.landings,
                            before.graph.parents[u],
                            v as int,
                            landing@,
                        );
                    }
                }
            }
        }
    }

    /// Find the next pick to settle.
    ///
    /// Placeholders and references that are ready are settled on the way.
    /// The result is the first ready pick with what it sees in place of its
    /// parents, or `Done` where every node is settled. As the graph has no
    /// cycle, some node is ready while nodes are left to settle.
    pub fn next(&mut self) -> (r: Work)
        requires
            old(self).wf(),
        ensures
            final(self).wf(),
            continues(old(self)@, final(self)@),
            match r {
                Work::Pick { node, commit_id, new_message, parents } => {
                    &&& is_ready(final(self)@, node as int)
                    &&& final(self)@.graph.steps[node as int] == (Step::Pick {
                        commit_id,
                        new_message,
                    })
                    &&& parents@ == flat(final(self)@.landings, final(self)@.graph.parents[node as int])
                },
                Work::Done => all_settled(final(self)@),
            },
    {
        let ghost start = self@;
        loop
            invariant
                self.wf(),
                start == old(self)@,
                consistent(start),
                continues(start, self@),
            decreases unsettled(self@.settled),
        {
            match self.find_ready() {
                None => {
                    proof {
                        if !all_settled(self@) {
                            let v = choose|v: int| 0 <= v < self@.settled.len() && !self@.settled[v];
                            let rank = choose|rank: Seq<int>| ranks_rise(self@.graph, rank);
                            lemma_lowest(rank, v);
                            lemma_some_node_is_ready(self@, rank, v);
                        }
                    }
                    return Work::Done;
                },
                Some(v) => {
                    let parents = self.collect_parents(v);
                    match self.graph.step_at(v) {
                        Step::Pick { commit_id, new_message } => {
                            return Work::Pick { node: v, commit_id, new_message, parents };
                        },
                        _ => {
                            self.settle(v, parents);
                        },
                    }
                },
            }
        }
    }

    /// Settle the pick `node` on the commit that it emitted.
    pub fn record(&mut self, node: NodeId, commit: CommitId) -> (r: Result<(), GraphError>)
        requires
            old(self).wf(),
        ensures
            final(self).wf(),
            continues(old(self)@, final(self)@),
            match r {
                Ok(()) => {
                    &&& is_ready(old(self)@, node as int)
                    &&& old(self)@.graph.steps[node as int] is Pick
                    &&& final(self)@.settled == old(self)@.settled.update(node as int, true)
                    &&& final(self)@.landings == old(self)@.landings.update(node as int, seq![commit])
                },
                Err(e) => {
                    &&& final(self)@ == old(self)@
                    &&& e == GraphError::WrongStepKind
                    &&& !(is_ready(old(self)@, node as int) && old(self)@.graph.steps[node as int]
                        is Pick)
                },
            },
    {
        if node >= self.graph.len() || !self.node_is_ready(node) {
            return Err(GraphError::WrongStepKind);
        }
        match self.graph.step_at(node) {
            Step::Pick { commit_id: _, new_message: _ } => {},
            _ => {
                return Err(GraphError::WrongStepKind);
            },
        }
        let mut landing: Vec<CommitId> = Vec::new();
        landing.push(commit);
        assert(landing@ =~= seq![commit]);
        self.settle(node, landing);
        Ok(())
    }

    /// Close a rebase in which every node is settled.
    pub fn finish(self) -> (r: Result<SuccessfulRebase, GraphError>)
        requires
            self.wf(),
        ensures
            match r {
                Ok(done) => {
                    &&& all_settled(self@)
                    &&& done.graph_view() == self@.graph
                    &&& done.commits_view().len() == self@.graph.steps.len()
                    &&& forall|v: int|
                        0 <= v < self@.graph.steps.len() ==> done.commits_view()[v]
                            == resolved_commit(self@, v)
                },
                Err(e) => e == GraphError::Unsettled && !all_settled(self@),
            },
    {
        if !self.everything_settled() {
            return Err(GraphError::Unsettled);
        }
        let mut commits: Vec<CommitId> = Vec::new();
        let mut v: usize = 0;
        while v < self.landings.len()
            invariant
                v <= self.landings.len(),
                self.wf(),
                commits@.len() == v,
                forall|u: int| 0 <= u < v ==> commits@[u] == resolved_commit(self@, u),
            decreases self.landings.len() - v,
        {
            assert(self@.landings[v as int] == self.landings@[v as int]@);
            let c = if self.landings[v].len() > 0 {
                self.landings[v][0]
            } else {
                self.base
            };
            commits.push(c);
            v += 1;
        }
        Ok(SuccessfulRebase { graph: self.graph, commits })
    }
}

/// The references among the nodes from `i` on with the commits they land
/// on, appended to `acc`.
pub open spec fn landed_references(
    steps: Seq<Step>,
    commits: Seq<CommitId>,
    i: int,
    acc: Seq<(u64, CommitId)>,
) -> Seq<(u64, CommitId)>
    decreases steps.len() - i,
{
    if i < 0 || i >= steps.len() {
        acc
    } else if steps[i] is Reference {
        landed_references(steps, commits, i + 1, acc.push((steps[i]->refname, commits[i])))
    } else {
        landed_references(steps, commits, i + 1, acc)
    }
}

/// What a selector resolves to in the outcome of a rebase of `g` that
/// settled node `v` on `commits[v]`.
pub open spec fn resolve_spec(g: StepGraphView, commits: Seq<CommitId>, s: Selector) -> Result<
    CommitId,
    GraphError,
> {
    match normalize_spec(g, s) {
        Ok(n) => Ok(commits[n.id as int]),
        Err(e) => Err(e),
    }
}

/// Every selector that the editor handed out resolves to exactly one
/// commit in the outcome of the rebase.
///
/// `issued` is the graph at the time the selector `s` was handed out, and
/// `rebased` the graph that was carried out. Edits keep the nodes and never
/// lower the revision, so the selector still names its node, and the
/// outcome holds one commit for each node.
pub proof fn lemma_every_selector_resolves(
    issued: StepGraphView,
    rebased: StepGraphView,
    commits: Seq<CommitId>,
    s: Selector,
)
    requires
        normalize_spec(issued, s) is Ok,
        rebased.steps.len() >= issued.steps.len(),
        rebased.revision >= issued.revision,
        commits.len() == rebased.steps.len(),
    ensures
        resolve_spec(rebased, commits, s) == Ok::<CommitId, GraphError>(commits[s.id as int]),
        0 <= s.id < commits.len(),
{
}

impl SuccessfulRebase {
    /// The graph that was carried out.
    pub closed spec fn graph_view(&self) -> StepGraphView {
        self.graph@
    }

    /// The commit of each node.
    pub closed spec fn commits_view(&self) -> Seq<CommitId> {
        self.commits@
    }

    /// Whether the outcome names a commit for every node. Every outcome
    /// that [`Rebase::finish`] hands out does.
    pub open spec fn wf(&self) -> bool {
        self.commits_view().len() == self.graph_view().steps.len()
    }

    /// The references of the graph with the commits they land on: for
    /// each reference node, in the order of the nodes, its name and the
    /// commit it resolves to.
    pub fn references(&self) -> (r: Vec<(u64, CommitId)>)
        requires
            self.wf(),
        ensures
            r@ == landed_references(self.graph_view().steps, self.commits_view(), 0, Seq::empty()),
    {
        let n = self.graph.len();
        let mut out: Vec<(u64, CommitId)> = Vec::new();
        let mut v: usize = 0;
        while v < n
            invariant
                v <= n,
                self.wf(),
                n == self.graph_view().steps.len(),
                landed_references(self.graph_view().steps, self.commits_view(), 0, Seq::empty())
                    == landed_references(
                    self.graph_view().steps,
                    self.commits_view(),
                    v as int,
                    out@,
                ),
            decreases n - v,
        {
            match self.graph.step_at(v) {
                Step::Reference { refname } => {
                    out.push((refname, self.commits[v]));
                },
                _ => {},
            }
            v += 1;
        }
        out
    }

    /// The commit that a selector resolves to. Every selector that names a
    /// node of the graph resolves to exactly one commit.
    pub fn resolve(&self, selector: Selector) -> (r: Result<CommitId, GraphError>)
        requires
            self.wf(),
        ensures
            r == resolve_spec(self.graph_view(), self.commits_view(), selector),
    {
        match self.graph.normalize_selector(selector) {
            Ok(n) => Ok(self.commits[n.id]),
            Err(e) => Err(e),
        }
    }
}

/// The phases of an operation that rewrites history, in order.
#[derive(Debug, Clone, Copy, PartialEq, Eq, Structural)]
pub enum Phase {
    /// The steps are planned.
    Plan,
    /// The new objects are written.
    ObjectWrite,
    /// The references are moved.
    ReferenceUpdate,
}

/// Whether an operation that is about to enter `next` stops because it was
/// cancelled. A cancellation is honored between phases up to the point
/// where the references are to be moved, which leaves at most unreferenced
/// objects behind; what follows the update of the references is always
/// carried out.
pub open spec fn stops_before(completed: Option<Phase>, cancelled: bool) -> bool {
    cancelled && !(completed == Some(Phase::ReferenceUpdate))
}

/// Decide between two phases whether a cancelled operation stops;
/// `completed` is the phase that was carried out last, if any.
pub fn honors_cancellation(completed: Option<Phase>, cancelled: bool) -> (r: bool)
    ensures
        r == stops_before(completed, cancelled),
{
    match completed {
        Some(Phase::ReferenceUpdate) => false,
        _ => cancelled,
    }
}

} // verus!
