//! Planning a squash of several commits of one stack into a destination.
//!
//! Commits are named by the keys under which the caller holds them. A squash
//! first reorders the stack so that the sources sit directly above the
//! destination, then replaces the destination by one commit that carries the
//! combined tree and message, and drops the sources. The functions here
//! compute the new order, check the preconditions, build the message and
//! list the rebase steps; creating objects is the caller's part.

use vstd::prelude::*;
use crate::chars::{all_blank, all_space, append, from_chars, to_chars};

verus! {

/// The key of a commit.
pub type CommitId = u64;

/// One instruction of a linear rebase.
#[derive(Debug, Clone, Copy, PartialEq, Eq, Structural)]
pub enum RebaseStep {
    /// Replay the commit.
    Pick { commit_id: CommitId },
    /// Let the head with this position in the stack point at the commit that
    /// the nearest pick before this step produced.
    Reference { head: usize },
}

/// Why a squash was refused.
#[derive(Debug, Clone, Copy, PartialEq, Eq, Structural)]
pub enum SquashError {
    /// The destination is among the sources.
    SquashIntoItself,
    /// A source is not a commit of the stack.
    SourceNotInStack { commit_id: CommitId },
    /// The destination is not a commit of the stack.
    DestinationNotInStack { commit_id: CommitId },
    /// A source is conflicted.
    ConflictedSource { commit_id: CommitId },
    /// The destination is conflicted.
    ConflictedDestination,
    /// A source was pushed and the stack does not allow rewriting pushed history.
    SourceAlreadyPushed { commit_id: CommitId },
    /// The destination was pushed and the stack does not allow rewriting pushed history.
    DestinationAlreadyPushed { commit_id: CommitId },
    /// Merging a source into the combined tree met a conflict.
    MergeConflict,
}

/// Decide whether `x` occurs in `v`.
pub fn contains_id(v: &Vec<CommitId>, x: CommitId) -> (r: bool)
    ensures
        r == v@.contains(x),
{
    let mut i: usize = 0;
    while i < v.len()
        invariant
            i <= v.len(),
            forall|k: int| 0 <= k < i ==> v@[k] != x,
        decreases v.len() - i,
    {
        if v[i] == x {
            return true;
        }
        i += 1;
    }
    false
}

/// `s` without the commits that occur in `sources`.
pub open spec fn without(s: Seq<CommitId>, sources: Seq<CommitId>) -> Seq<CommitId>
    decreases s.len(),
{
    if s.len() == 0 {
        Seq::empty()
    } else if sources.contains(s.last()) {
        without(s.drop_last(), sources)
    } else {
        without(s.drop_last(), sources).push(s.last())
    }
}

/// The first position at or after `i` at which `x` occurs in `s`.
pub open spec fn position_from(s: Seq<CommitId>, x: CommitId, i: int) -> Option<int>
    decreases s.len() - i,
{
    if i < 0 || i >= s.len() {
        None
    } else if s[i] == x {
        Some(i)
    } else {
        position_from(s, x, i + 1)
    }
}

/// `s` with `sources` placed directly above `destination`, if `s` holds it.
/// Lists are tip first, so above means before.
pub open spec fn with_sources_above(
    s: Seq<CommitId>,
    destination: CommitId,
    sources: Seq<CommitId>,
) -> Seq<CommitId> {
    match position_from(s, destination, 0) {
        Some(p) => s.take(p) + sources + s.skip(p),
        None => s,
    }
}

/// The commits of one series after the reorder that prepares a squash.
pub open spec fn squash_series(
    s: Seq<CommitId>,
    destination: CommitId,
    sources: Seq<CommitId>,
) -> Seq<CommitId> {
    with_sources_above(without(s, sources), destination, sources)
}

/// Remove the sources from a series.
pub fn remove_sources(series: &Vec<CommitId>, sources: &Vec<CommitId>) -> (out: Vec<CommitId>)
    ensures
        out@ == without(series@, sources@),
{
    let mut out: Vec<CommitId> = Vec::new();
    let mut i: usize = 0;
    while i < series.len()
        invariant
            i <= series.len(),
            out@ == without(series@.take(i as int), sources@),
        decreases series.len() - i,
    {
        proof {
            assert(series@.take(i + 1).drop_last() =~= series@.take(i as int));
        }
        if !contains_id(sources, series[i]) {
            out.push(series[i]);
        }
        i += 1;
    }
    proof {
        assert(series@.take(series.len() as int) =~= series@);
    }
    out
}

/// Put the sources directly above the destination, if the series holds it.
pub fn place_sources(series: &Vec<CommitId>, destination: CommitId, sources: &Vec<CommitId>) -> (out:
    Vec<CommitId>)
    ensures
        out@ == with_sources_above(series@, destination, sources@),
{
    let mut p: usize = 0;
    while p < series.len() && series[p] != destination
        invariant
            p <= series.len(),
            position_from(series@, destination, 0) == position_from(series@, destination, p as int),
        decreases series.len() - p,
    {
        p += 1;
    }
    if p == series.len() {
        return series.clone();
    }
    let mut out: Vec<CommitId> = Vec::new();
    let mut i: usize = 0;
    while i < p
        invariant
            i <= p < series.len(),
            out@ == series@.take(i as int),
        decreases p - i,
    {
        out.push(series[i]);
        i += 1;
        proof {
            assert(series@.take(i as int) =~= series@.take(i - 1).push(series@[i - 1]));
        }
    }
    let mut j: usize = 0;
    while j < sources.len()
        invariant
            j <= sources.len(),
            p < series.len(),
            out@ == series@.take(p as int) + sources@.take(j as int),
        decreases sources.len() - j,
    {
        out.push(sources[j]);
        j += 1;
        proof {
            assert(series@.take(p as int) + sources@.take(j as int) =~= (series@.take(p as int)
                + sources@.take(j - 1)).push(sources@[j - 1]));
        }
    }
    proof {
        assert(sources@.take(sources.len() as int) =~= sources@);
    }
    let mut k: usize = p;
    while k < series.len()
        invariant
            p <= k <= series.len(),
            out@ == series@.take(p as int) + sources@ + series@.subrange(p as int, k as int),
        decreases series.len() - k,
    {
        out.push(series[k]);
        k += 1;
        proof {
            assert(series@.subrange(p as int, k as int) =~= series@.subrange(p as int, k - 1).push(
                series@[k - 1],
            ));
            assert(series@.take(p as int) + sources@ + series@.subrange(p as int, k as int) =~= (
            series@.take(p as int) + sources@ + series@.subrange(p as int, k - 1)).push(
                series@[k - 1],
            ));
        }
    }
    proof {
        assert(series@.subrange(p as int, series.len() as int) =~= series@.skip(p as int));
    }
    out
}

/// The order of a stack, series by series, after the reorder that prepares
/// a squash of `sources` into `destination`.
pub open spec fn squash_order_spec(
    order: Seq<Seq<CommitId>>,
    destination: CommitId,
    sources: Seq<CommitId>,
) -> Seq<Seq<CommitId>> {
    Seq::new(order.len(), |i: int| squash_series(order[i], destination, sources))
}

/// The commit ids of each series of an order.
pub open spec fn order_view(order: Seq<Vec<CommitId>>) -> Seq<Seq<CommitId>> {
    Seq::new(order.len(), |i: int| order[i]@)
}

/// Compute the order in which the sources sit directly above the
/// destination: every series loses the sources, and the series that holds
/// the destination gets them back, in the given order, right above it.
pub fn squash_order(order: &Vec<Vec<CommitId>>, destination: CommitId, sources: &Vec<CommitId>) -> (out:
    Vec<Vec<CommitId>>)
    ensures
        order_view(out@) == squash_order_spec(order_view(order@), destination, sources@),
{
    let mut out: Vec<Vec<CommitId>> = Vec::new();
    let mut i: usize = 0;
    while i < order.len()
        invariant
            i <= order.len(),
            out@.len() == i,
            forall|k: int|
                0 <= k < i ==> (#[trigger] out@[k])@ == squash_series(
                    order@[k]@,
                    destination,
                    sources@,
                ),
        decreases order.len() - i,
    {
        let cleared = remove_sources(&order[i], sources);
        let placed = place_sources(&cleared, destination, sources);
        out.push(placed);
        i += 1;
    }
    proof {
        assert(order_view(out@) =~= squash_order_spec(order_view(order@), destination, sources@));
    }
    out
}

fn same_order(a: &Vec<Vec<CommitId>>, b: &Vec<Vec<CommitId>>) -> (r: bool)
    ensures
        r == (order_view(a@) == order_view(b@)),
{
    if a.len() != b.len() {
        assert(order_view(a@).len() != order_view(b@).len());
        return false;
    }
    let mut i: usize = 0;
    while i < a.len()
        invariant
            i <= a.len(),
            a.len() == b.len(),
            forall|k: int| 0 <= k < i ==> a@[k]@ == b@[k]@,
        decreases a.len() - i,
    {
        let x = &a[i];
        let y = &b[i];
        let mut same = x.len() == y.len();
        let mut j: usize = 0;
        while same && j < x.len()
            invariant
                j <= x.len(),
                same ==> x.len() == y.len(),
                same ==> forall|k: int| 0 <= k < j ==> x@[k] == y@[k],
                !same ==> x@ != y@,
                same ==> j <= y.len(),
            decreases x.len() - j,
        {
            if x[j] != y[j] {
                same = false;
            }
            j += 1;
        }
        if !same {
            assert(order_view(a@)[i as int] != order_view(b@)[i as int]);
            return false;
        }
        assert(x@ =~= y@);
        i += 1;
    }
    assert(order_view(a@) =~= order_view(b@));
    true
}

/// Compute the reorder that a squash needs before it can be carried out:
/// the order with the sources directly above the destination, or nothing
/// where the stack is in that order already.
pub fn squash_reorder(order: &Vec<Vec<CommitId>>, destination: CommitId, sources: &Vec<CommitId>) -> (r:
    Option<Vec<Vec<CommitId>>>)
    ensures
        match r {
            Some(updated) => order_view(updated@) == squash_order_spec(
                order_view(order@),
                destination,
                sources@,
            ) && order_view(updated@) != order_view(order@),
            None => squash_order_spec(order_view(order@), destination, sources@) == order_view(
                order@,
            ),
        },
{
    let updated = squash_order(order, destination, sources);
    if same_order(order, &updated) {
        None
    } else {
        Some(updated)
    }
}

/// `sources` after the commits were rewritten as `mapping` says, pair by
/// pair from position `k` on: the first occurrence of a rewritten commit is
/// replaced by its new key.
pub open spec fn remap_from(
    sources: Seq<CommitId>,
    mapping: Seq<(CommitId, CommitId)>,
    k: int,
) -> Seq<CommitId>
    decreases mapping.len() - k,
{
    if k < 0 || k >= mapping.len() {
        sources
    } else {
        match position_from(sources, mapping[k].0, 0) {
            Some(p) => remap_from(sources.update(p, mapping[k].1), mapping, k + 1),
            None => remap_from(sources, mapping, k + 1),
        }
    }
}

/// Follow the sources through a reorder: `mapping` pairs each rewritten
/// commit with the commit that replaced it.
pub fn remap_sources(sources: Vec<CommitId>, mapping: &Vec<(CommitId, CommitId)>) -> (out: Vec<
    CommitId,
>)
    ensures
        out@ == remap_from(sources@, mapping@, 0),
{
    let mut out = sources;
    let mut k: usize = 0;
    while k < mapping.len()
        invariant
            k <= mapping.len(),
            remap_from(sources@, mapping@, 0) == remap_from(out@, mapping@, k as int),
        decreases mapping.len() - k,
    {
        let (old_id, new_id) = mapping[k];
        let mut p: usize = 0;
        while p < out.len() && out[p] != old_id
            invariant
                p <= out.len(),
                position_from(out@, old_id, 0) == position_from(out@, old_id, p as int),
            decreases out.len() - p,
        {
            p += 1;
        }
        if p < out.len() {
            out.set(p, new_id);
        }
        k += 1;
    }
    out
}

/// What a squash needs to know of a commit.
#[derive(Debug, Clone, PartialEq, Eq)]
pub struct SquashCommit {
    /// The commit's key.
    pub id: CommitId,
    /// Whether the commit carries an unresolved conflict.
    pub conflicted: bool,
    /// The commit message.
    pub message: String,
}

/// The keys of `commits` from position `i` on.
pub open spec fn ids_of(commits: Seq<SquashCommit>) -> Seq<CommitId> {
    Seq::new(commits.len(), |i: int| commits[i].id)
}

/// The first source at or after `i` that is not in the stack.
pub open spec fn first_missing_from(sources: Seq<SquashCommit>, stack: Seq<CommitId>, i: int) -> Option<
    CommitId,
>
    decreases sources.len() - i,
{
    if i < 0 || i >= sources.len() {
        None
    } else if !stack.contains(sources[i].id) {
        Some(sources[i].id)
    } else {
        first_missing_from(sources, stack, i + 1)
    }
}

/// The first source at or after `i` that is conflicted.
pub open spec fn first_conflicted_from(sources: Seq<SquashCommit>, i: int) -> Option<CommitId>
    decreases sources.len() - i,
{
    if i < 0 || i >= sources.len() {
        None
    } else if sources[i].conflicted {
        Some(sources[i].id)
    } else {
        first_conflicted_from(sources, i + 1)
    }
}

/// The first source at or after `i` that was pushed.
pub open spec fn first_pushed_from(sources: Seq<SquashCommit>, pushed: Seq<CommitId>, i: int) -> Option<
    CommitId,
>
    decreases sources.len() - i,
{
    if i < 0 || i >= sources.len() {
        None
    } else if pushed.contains(sources[i].id) {
        Some(sources[i].id)
    } else {
        first_pushed_from(sources, pushed, i + 1)
    }
}

/// The preconditions of a squash, in the order in which they are checked.
///
/// The destination is no source; sources and destination are commits of the
/// stack; none of them is conflicted; and unless the stack allows rewriting
/// pushed history, none of them was pushed.
pub open spec fn validate_spec(
    allow_rebasing: bool,
    stack: Seq<CommitId>,
    pushed: Seq<CommitId>,
    sources: Seq<SquashCommit>,
    destination: SquashCommit,
) -> Result<(), SquashError> {
    if ids_of(sources).contains(destination.id) {
        Err(SquashError::SquashIntoItself)
    } else if first_missing_from(sources, stack, 0) is Some {
        Err(SquashError::SourceNotInStack { commit_id: first_missing_from(sources, stack, 0)->0 })
    } else if !stack.contains(destination.id) {
        Err(SquashError::DestinationNotInStack { commit_id: destination.id })
    } else if first_conflicted_from(sources, 0) is Some {
        Err(SquashError::ConflictedSource { commit_id: first_conflicted_from(sources, 0)->0 })
    } else if destination.conflicted {
        Err(SquashError::ConflictedDestination)
    } else if !allow_rebasing && first_pushed_from(sources, pushed, 0) is Some {
        Err(SquashError::SourceAlreadyPushed { commit_id: first_pushed_from(sources, pushed, 0)->0 })
    } else if !allow_rebasing && pushed.contains(destination.id) {
        Err(SquashError::DestinationAlreadyPushed { commit_id: destination.id })
    } else {
        Ok(())
    }
}

fn has_source(sources: &Vec<SquashCommit>, id: CommitId) -> (r: bool)
    ensures
        r == ids_of(sources@).contains(id),
{
    let mut i: usize = 0;
    while i < sources.len()
        invariant
            i <= sources.len(),
            forall|k: int| 0 <= k < i ==> ids_of(sources@)[k] != id,
        decreases sources.len() - i,
    {
        if sources[i].id == id {
            assert(ids_of(sources@)[i as int] == id);
            return true;
        }
        i += 1;
    }
    false
}

fn find_missing(sources: &Vec<SquashCommit>, stack: &Vec<CommitId>) -> (r: Option<CommitId>)
    ensures
        r == first_missing_from(sources@, stack@, 0),
{
    let mut i: usize = 0;
    while i < sources.len()
        invariant
            i <= sources.len(),
            first_missing_from(sources@, stack@, 0) == first_missing_from(
                sources@,
                stack@,
                i as int,
            ),
        decreases sources.len() - i,
    {
        if !contains_id(stack, sources[i].id) {
            return Some(sources[i].id);
        }
        i += 1;
    }
    None
}

fn find_conflicted(sources: &Vec<SquashCommit>) -> (r: Option<CommitId>)
    ensures
        r == first_conflicted_from(sources@, 0),
{
    let mut i: usize = 0;
    while i < sources.len()
        invariant
            i <= sources.len(),
            first_conflicted_from(sources@, 0) == first_conflicted_from(sources@, i as int),
        decreases sources.len() - i,
    {
        if sources[i].conflicted {
            return Some(sources[i].id);
        }
        i += 1;
    }
    None
}

fn find_pushed(sources: &Vec<SquashCommit>, pushed: &Vec<CommitId>) -> (r: Option<CommitId>)
    ensures
        r == first_pushed_from(sources@, pushed@, 0),
{
    let mut i: usize = 0;
    while i < sources.len()
        invariant
            i <= sources.len(),
            first_pushed_from(sources@, pushed@, 0) == first_pushed_from(
                sources@,
                pushed@,
                i as int,
            ),
        decreases sources.len() - i,
    {
        if contains_id(pushed, sources[i].id) {
            return Some(sources[i].id);
        }
        i += 1;
    }
    None
}

/// Check the preconditions of a squash.
///
/// `stack` lists the commits of the stack, `pushed` those of them that the
/// remote already has.
pub fn validate(
    allow_rebasing: bool,
    stack: &Vec<CommitId>,
    pushed: &Vec<CommitId>,
    sources: &Vec<SquashCommit>,
    destination: &SquashCommit,
) -> (r: Result<(), SquashError>)
    ensures
        r == validate_spec(allow_rebasing, stack@, pushed@, sources@, *destination),
{
    if has_source(sources, destination.id) {
        return Err(SquashError::SquashIntoItself);
    }
    if let Some(commit_id) = find_missing(sources, stack) {
        return Err(SquashError::SourceNotInStack { commit_id });
    }
    if !contains_id(stack, destination.id) {
        return Err(SquashError::DestinationNotInStack { commit_id: destination.id });
    }
    if let Some(commit_id) = find_conflicted(sources) {
        return Err(SquashError::ConflictedSource { commit_id });
    }
    if destination.conflicted {
        return Err(SquashError::ConflictedDestination);
    }
    if !allow_rebasing {
        if let Some(commit_id) = find_pushed(sources, pushed) {
            return Err(SquashError::SourceAlreadyPushed { commit_id });
        }
        if contains_id(pushed, destination.id) {
            return Err(SquashError::DestinationAlreadyPushed { commit_id: destination.id });
        }
    }
    Ok(())
}

/// The messages from position `i` on that are not blank, each on a line of
/// its own, appended to `acc`; `started` tells whether `acc` holds a message
/// already.
pub open spec fn join_from(messages: Seq<Seq<char>>, i: int, started: bool, acc: Seq<char>) -> Seq<
    char,
>
    decreases messages.len() - i,
{
    if i < 0 || i >= messages.len() {
        acc
    } else if all_space(messages[i]) {
        join_from(messages, i + 1, started, acc)
    } else if started {
        join_from(messages, i + 1, true, acc.push('\n') + messages[i])
    } else {
        join_from(messages, i + 1, true, acc + messages[i])
    }
}

/// The message of a squash commit: the destination's message, then the
/// sources' messages in order, blank messages left out, joined by newlines.
pub open spec fn squash_message_spec(destination: Seq<char>, sources: Seq<Seq<char>>) -> Seq<char> {
    join_from(seq![destination] + sources, 0, false, Seq::empty())
}

/// The messages of `commits`.
pub open spec fn messages_of(commits: Seq<SquashCommit>) -> Seq<Seq<char>> {
    Seq::new(commits.len(), |i: int| commits[i].message@)
}

/// Build the message of the squash commit.
pub fn squash_message(destination: &SquashCommit, sources: &Vec<SquashCommit>) -> (out: String)
    ensures
        out@ == squash_message_spec(destination.message@, messages_of(sources@)),
{
    let ghost all = seq![destination.message@] + messages_of(sources@);
    let mut acc: Vec<char> = Vec::new();
    let mut started = false;
    let first = to_chars(destination.message.as_str());
    assert(all[0] == first@);
    if !all_blank(&first) {
        append(&mut acc, &first);
        started = true;
        proof {
            assert(Seq::<char>::empty() + first@ =~= acc@);
        }
    }
    let mut i: usize = 0;
    while i < sources.len()
        invariant
            i <= sources.len(),
            all == seq![destination.message@] + messages_of(sources@),
            join_from(all, 0, false, Seq::empty()) == join_from(all, i + 1, started, acc@),
        decreases sources.len() - i,
    {
        let text = to_chars(sources[i].message.as_str());
        assert(all[i + 1] == text@);
        if !all_blank(&text) {
            if started {
                acc.push('\n');
            }
            append(&mut acc, &text);
            started = true;
        }
        i += 1;
    }
    from_chars(&acc)
}

/// The step that replays `id`: none for a source, the squash commit in
/// place of the destination, the commit itself otherwise.
pub open spec fn step_for(
    id: CommitId,
    sources: Seq<CommitId>,
    destination: CommitId,
    squashed: CommitId,
) -> Seq<RebaseStep> {
    if sources.contains(id) {
        Seq::empty()
    } else if id == destination {
        seq![RebaseStep::Pick { commit_id: squashed }]
    } else {
        seq![RebaseStep::Pick { commit_id: id }]
    }
}

/// The reference steps for the heads that point at `commit`, in the order
/// of the heads; `heads[k]` is the commit that head `k` points at.
pub open spec fn refs_at(heads: Seq<CommitId>, commit: CommitId) -> Seq<RebaseStep>
    decreases heads.len(),
{
    if heads.len() == 0 {
        Seq::empty()
    } else if heads.last() == commit {
        refs_at(heads.drop_last(), commit).push(
            RebaseStep::Reference { head: (heads.len() - 1) as usize },
        )
    } else {
        refs_at(heads.drop_last(), commit)
    }
}

/// The steps for `commits` (tip first), oldest commit first: each commit's
/// step followed by the references of the heads that point at it.
pub open spec fn steps_for(
    commits: Seq<CommitId>,
    sources: Seq<CommitId>,
    destination: CommitId,
    squashed: CommitId,
    heads: Seq<CommitId>,
) -> Seq<RebaseStep>
    decreases commits.len(),
{
    if commits.len() == 0 {
        Seq::empty()
    } else {
        steps_for(commits.drop_first(), sources, destination, squashed, heads) + step_for(
            commits[0],
            sources,
            destination,
            squashed,
        ) + refs_at(heads, commits[0])
    }
}

/// The steps of the rebase that carries out a squash: the references of the
/// heads at the merge base, then the steps for the commits of the stack.
pub open spec fn squash_steps_spec(
    base: CommitId,
    commits: Seq<CommitId>,
    sources: Seq<CommitId>,
    destination: CommitId,
    squashed: CommitId,
    heads: Seq<CommitId>,
) -> Seq<RebaseStep> {
    refs_at(heads, base) + steps_for(commits, sources, destination, squashed, heads)
}

fn push_refs_at(out: &mut Vec<RebaseStep>, heads: &Vec<CommitId>, commit: CommitId)
    ensures
        final(out)@ == old(out)@ + refs_at(heads@, commit),
{
    let mut k: usize = 0;
    proof {
        assert(old(out)@ + refs_at(heads@.take(0), commit) =~= out@);
    }
    while k < heads.len()
        invariant
            k <= heads.len(),
            out@ == old(out)@ + refs_at(heads@.take(k as int), commit),
        decreases heads.len() - k,
    {
        proof {
            assert(heads@.take(k + 1).drop_last() =~= heads@.take(k as int));
        }
        if heads[k] == commit {
            out.push(RebaseStep::Reference { head: k });
            proof {
                assert(old(out)@ + refs_at(heads@.take(k + 1), commit) =~= (old(out)@ + refs_at(
                    heads@.take(k as int),
                    commit,
                )).push(RebaseStep::Reference { head: k }));
            }
        }
        k += 1;
    }
    proof {
        assert(heads@.take(heads.len() as int) =~= heads@);
    }
}

/// List the steps of the rebase that carries out a squash.
///
/// `commits` are the commits of the stack, tip first, after the reorder;
/// `heads[k]` is the commit that head `k` points at; `squashed` is the
/// commit that replaces the destination.
pub fn squash_steps(
    base: CommitId,
    commits: &Vec<CommitId>,
    sources: &Vec<CommitId>,
    destination: CommitId,
    squashed: CommitId,
    heads: &Vec<CommitId>,
) -> (steps: Vec<RebaseStep>)
    ensures
        steps@ == squash_steps_spec(base, commits@, sources@, destination, squashed, heads@),
{
    let mut steps: Vec<RebaseStep> = Vec::new();
    push_refs_at(&mut steps, heads, base);
    let mut i: usize = commits.len();
    proof {
        assert(steps@ =~= refs_at(heads@, base) + steps_for(
            commits@.skip(i as int),
            sources@,
            destination,
            squashed,
            heads@,
        ));
    }
    while i > 0
        invariant
            i <= commits.len(),
            steps@ == refs_at(heads@, base) + steps_for(
                commits@.skip(i as int),
                sources@,
                destination,
                squashed,
                heads@,
            ),
        decreases i,
    {
        i -= 1;
        let id = commits[i];
        let ghost before = steps@;
        proof {
            assert(commits@.skip(i as int).drop_first() =~= commits@.skip(i + 1));
            assert(commits@.skip(i as int)[0] == id);
        }
        if contains_id(sources, id) {
        } else if id == destination {
            steps.push(RebaseStep::Pick { commit_id: squashed });
        } else {
            steps.push(RebaseStep::Pick { commit_id: id });
        }
        proof {
            assert(steps@ =~= before + step_for(id, sources@, destination, squashed));
        }
        push_refs_at(&mut steps, heads, id);
        proof {
            assert(steps@ =~= refs_at(heads@, base) + steps_for(
                commits@.skip(i as int),
                sources@,
                destination,
                squashed,
                heads@,
            ));
        }
    }
    proof {
        assert(commits@.skip(0) =~= commits@);
    }
    steps
}

/// The number of picks among `steps`.
pub open spec fn count_picks(steps: Seq<RebaseStep>) -> nat
    decreases steps.len(),
{
    if steps.len() == 0 {
        0
    } else if steps.last() is Pick {
        count_picks(steps.drop_last()) + 1
    } else {
        count_picks(steps.drop_last())
    }
}

proof fn lemma_count_picks_concat(a: Seq<RebaseStep>, b: Seq<RebaseStep>)
    ensures
        count_picks(a + b) == count_picks(a) + count_picks(b),
    decreases b.len(),
{
    if b.len() == 0 {
        assert(a + b =~= a);
    } else {
        assert((a + b).drop_last() =~= a + b.drop_last());
        lemma_count_picks_concat(a, b.drop_last());
    }
}

proof fn lemma_refs_hold_no_pick(heads: Seq<CommitId>, commit: CommitId)
    ensures
        count_picks(refs_at(heads, commit)) == 0,
    decreases heads.len(),
{
    if heads.len() > 0 {
        lemma_refs_hold_no_pick(heads.drop_last(), commit);
        if heads.last() == commit {
            assert(refs_at(heads, commit).drop_last() =~= refs_at(heads.drop_last(), commit));
        }
    }
}

proof fn lemma_steps_concat(
    a: Seq<CommitId>,
    b: Seq<CommitId>,
    sources: Seq<CommitId>,
    destination: CommitId,
    squashed: CommitId,
    heads: Seq<CommitId>,
)
    ensures
        steps_for(a + b, sources, destination, squashed, heads) == steps_for(
            b,
            sources,
            destination,
            squashed,
            heads,
        ) + steps_for(a, sources, destination, squashed, heads),
    decreases a.len(),
{
    if a.len() == 0 {
        assert(a + b =~= b);
        assert(steps_for(b, sources, destination, squashed, heads) + Seq::<RebaseStep>::empty()
            =~= steps_for(b, sources, destination, squashed, heads));
    } else {
        assert((a + b).drop_first() =~= a.drop_first() + b);
        lemma_steps_concat(a.drop_first(), b, sources, destination, squashed, heads);
        let sb = steps_for(b, sources, destination, squashed, heads);
        let sa = steps_for(a.drop_first(), sources, destination, squashed, heads);
        let st = step_for(a[0], sources, destination, squashed);
        let rf = refs_at(heads, a[0]);
        assert((sb + sa) + st + rf =~= sb + (sa + st + rf));
    }
}

proof fn lemma_picks_of_kept(
    c: Seq<CommitId>,
    sources: Seq<CommitId>,
    destination: CommitId,
    squashed: CommitId,
    heads: Seq<CommitId>,
)
    requires
        forall|k: int| 0 <= k < c.len() ==> !sources.contains(#[trigger] c[k]),
    ensures
        count_picks(steps_for(c, sources, destination, squashed, heads)) == c.len(),
    decreases c.len(),
{
    if c.len() > 0 {
        let rest = c.drop_first();
        assert forall|k: int| 0 <= k < rest.len() implies !sources.contains(#[trigger] rest[k]) by {
            assert(rest[k] == c[k + 1]);
        }
        lemma_picks_of_kept(rest, sources, destination, squashed, heads);
        let sa = steps_for(rest, sources, destination, squashed, heads);
        let st = step_for(c[0], sources, destination, squashed);
        let rf = refs_at(heads, c[0]);
        lemma_count_picks_concat(sa + st, rf);
        lemma_count_picks_concat(sa, st);
        lemma_refs_hold_no_pick(heads, c[0]);
        assert(st.len() == 1 && st[0] is Pick);
        assert(!sources.contains(c[0]));
        assert(st.last() is Pick);
        assert(st.drop_last() =~= Seq::<RebaseStep>::empty());
        assert(count_picks(st.drop_last()) == 0);
        assert(count_picks(st) == 1);
    }
}

proof fn lemma_picks_of_dropped(
    c: Seq<CommitId>,
    sources: Seq<CommitId>,
    destination: CommitId,
    squashed: CommitId,
    heads: Seq<CommitId>,
)
    requires
        forall|k: int| 0 <= k < c.len() ==> sources.contains(#[trigger] c[k]),
    ensures
        count_picks(steps_for(c, sources, destination, squashed, heads)) == 0,
    decreases c.len(),
{
    if c.len() > 0 {
        let rest = c.drop_first();
        assert forall|k: int| 0 <= k < rest.len() implies sources.contains(#[trigger] rest[k]) by {
            assert(rest[k] == c[k + 1]);
        }
        lemma_picks_of_dropped(rest, sources, destination, squashed, heads);
        let sa = steps_for(rest, sources, destination, squashed, heads);
        let st = step_for(c[0], sources, destination, squashed);
        let rf = refs_at(heads, c[0]);
        assert(sources.contains(c[0]));
        lemma_count_picks_concat(sa + st, rf);
        lemma_count_picks_concat(sa, st);
        lemma_refs_hold_no_pick(heads, c[0]);
    }
}

/// A squash shortens the stack by exactly the number of its sources.
///
/// The stack after the reorder is `above`, the sources, the destination and
/// `below`, tip first, where neither `above` nor `below` holds a source and
/// the destination is none. The rebase then picks one commit for each
/// commit of the stack except the sources.
pub proof fn lemma_squash_drops_sources(
    above: Seq<CommitId>,
    sources: Seq<CommitId>,
    destination: CommitId,
    below: Seq<CommitId>,
    base: CommitId,
    squashed: CommitId,
    heads: Seq<CommitId>,
)
    requires
        forall|k: int| 0 <= k < above.len() ==> !sources.contains(#[trigger] above[k]),
        forall|k: int| 0 <= k < below.len() ==> !sources.contains(#[trigger] below[k]),
        !sources.contains(destination),
    ensures
        ({
            let commits = above + sources + seq![destination] + below;
            count_picks(squash_steps_spec(base, commits, sources, destination, squashed, heads))
                == commits.len() - sources.len()
        }),
{
    let commits = above + sources + seq![destination] + below;
    let d = seq![destination];
    assert(forall|k: int| 0 <= k < d.len() ==> !sources.contains(#[trigger] d[k]));
    assert(forall|k: int| 0 <= k < sources.len() ==> sources.contains(#[trigger] sources[k]));
    lemma_steps_concat(above + sources + d, below, sources, destination, squashed, heads);
    lemma_steps_concat(above + sources, d, sources, destination, squashed, heads);
    lemma_steps_concat(above, sources, sources, destination, squashed, heads);
    lemma_picks_of_kept(above, sources, destination, squashed, heads);
    lemma_picks_of_kept(below, sources, destination, squashed, heads);
    lemma_picks_of_kept(d, sources, destination, squashed, heads);
    lemma_picks_of_dropped(sources, sources, destination, squashed, heads);
    let s_above = steps_for(above, sources, destination, squashed, heads);
    let s_src = steps_for(sources, sources, destination, squashed, heads);
    let s_d = steps_for(d, sources, destination, squashed, heads);
    let s_below = steps_for(below, sources, destination, squashed, heads);
    lemma_count_picks_concat(s_src, s_above);
    lemma_count_picks_concat(s_d, s_src + s_above);
    lemma_count_picks_concat(s_below, s_d + (s_src + s_above));
    lemma_refs_hold_no_pick(heads, base);
    lemma_count_picks_concat(
        refs_at(heads, base),
        steps_for(commits, sources, destination, squashed, heads),
    );
}

proof fn lemma_without_holds_no_source(s: Seq<CommitId>, sources: Seq<CommitId>)
    ensures
        forall|k: int|
            0 <= k < without(s, sources).len() ==> !sources.contains(
                #[trigger] without(s, sources)[k],
            ),
    decreases s.len(),
{
    if s.len() > 0 {
        lemma_without_holds_no_source(s.drop_last(), sources);
        let rest = without(s.drop_last(), sources);
        let all = without(s, sources);
        assert forall|k: int| 0 <= k < all.len() implies !sources.contains(#[trigger] all[k]) by {
            if k < rest.len() {
                assert(all[k] == rest[k]);
            } else {
                assert(all[k] == s.last());
            }
        }
    }
}

proof fn lemma_without_keeps_others(s: Seq<CommitId>, sources: Seq<CommitId>, x: CommitId)
    requires
        s.contains(x),
        !sources.contains(x),
    ensures
        without(s, sources).contains(x),
    decreases s.len(),
{
    let rest = without(s.drop_last(), sources);
    if s.last() == x {
        assert(without(s, sources)[rest.len() as int] == x);
    } else {
        let i = choose|i: int| 0 <= i < s.len() && s[i] == x;
        assert(s.drop_last()[i] == x);
        lemma_without_keeps_others(s.drop_last(), sources, x);
        let k = choose|k: int| 0 <= k < rest.len() && rest[k] == x;
        if sources.contains(s.last()) {
            assert(without(s, sources)[k] == x);
        } else {
            assert(without(s, sources)[k] == rest[k]);
        }
    }
}

proof fn lemma_position_found(s: Seq<CommitId>, x: CommitId, i: int, j: int)
    requires
        0 <= i <= j < s.len(),
        s[j] == x,
    ensures
        position_from(s, x, i) is Some,
        i <= position_from(s, x, i)->0 < s.len(),
        s[position_from(s, x, i)->0] == x,
    decreases j - i,
{
    if s[i] != x {
        lemma_position_found(s, x, i + 1, j);
    }
}

/// Whether `series` is `above`, the sources, the destination and `below`,
/// tip first, with no source in `above` or `below`.
pub open spec fn is_squash_shape(
    series: Seq<CommitId>,
    above: Seq<CommitId>,
    sources: Seq<CommitId>,
    destination: CommitId,
    below: Seq<CommitId>,
) -> bool {
    &&& series == above + sources + seq![destination] + below
    &&& forall|k: int| 0 <= k < above.len() ==> !sources.contains(#[trigger] above[k])
    &&& forall|k: int| 0 <= k < below.len() ==> !sources.contains(#[trigger] below[k])
}

/// The reorder puts the sources directly above the destination: the series
/// that holds the destination becomes what was above it, the sources, the
/// destination and what was below it, and the sources occur nowhere else.
pub proof fn lemma_reorder_puts_sources_above(
    series: Seq<CommitId>,
    destination: CommitId,
    sources: Seq<CommitId>,
)
    requires
        series.contains(destination),
        !sources.contains(destination),
    ensures
        exists|above: Seq<CommitId>, below: Seq<CommitId>|
            is_squash_shape(
                squash_series(series, destination, sources),
                above,
                sources,
                destination,
                below,
            ),
{
    let w = without(series, sources);
    lemma_without_holds_no_source(series, sources);
    lemma_without_keeps_others(series, sources, destination);
    let j = choose|j: int| 0 <= j < w.len() && w[j] == destination;
    lemma_position_found(w, destination, 0, j);
    let p = position_from(w, destination, 0)->0;
    let above = w.take(p);
    let below = w.skip(p + 1);
    assert(w.skip(p) =~= seq![destination] + below);
    assert(squash_series(series, destination, sources) =~= above + sources + seq![destination]
        + below);
    assert forall|k: int| 0 <= k < above.len() implies !sources.contains(#[trigger] above[k]) by {
        assert(above[k] == w[k]);
    }
    assert forall|k: int| 0 <= k < below.len() implies !sources.contains(#[trigger] below[k]) by {
        assert(below[k] == w[p + 1 + k]);
    }
    assert(is_squash_shape(
        squash_series(series, destination, sources),
        above,
        sources,
        destination,
        below,
    ));
}

/// The commit that a reference at position `k` of `steps` lands on: the
/// commit of the nearest pick before it, if there is one.
pub open spec fn last_pick_before(steps: Seq<RebaseStep>, k: int) -> Option<CommitId>
    decreases k,
{
    if k <= 0 || k > steps.len() {
        None
    } else if steps[k - 1] is Pick {
        Some(steps[k - 1]->commit_id)
    } else {
        last_pick_before(steps, k - 1)
    }
}

/// Whether no step is a pick.
pub open spec fn no_picks(steps: Seq<RebaseStep>) -> bool {
    forall|j: int| 0 <= j < steps.len() ==> !((#[trigger] steps[j]) is Pick)
}

proof fn lemma_refs_are_references(heads: Seq<CommitId>, commit: CommitId)
    ensures
        no_picks(refs_at(heads, commit)),
    decreases heads.len(),
{
    if heads.len() > 0 {
        lemma_refs_are_references(heads.drop_last(), commit);
    }
}

proof fn lemma_refs_hold_the_head(heads: Seq<CommitId>, h: int)
    requires
        0 <= h < heads.len(),
        heads.len() <= usize::MAX,
    ensures
        refs_at(heads, heads[h]).contains(RebaseStep::Reference { head: h as usize }),
    decreases heads.len(),
{
    let commit = heads[h];
    let rest = refs_at(heads.drop_last(), commit);
    if h == heads.len() - 1 {
        assert(refs_at(heads, commit)[rest.len() as int] == RebaseStep::Reference {
            head: h as usize,
        });
    } else {
        lemma_refs_hold_the_head(heads.drop_last(), h);
        let k = choose|k: int|
            0 <= k < rest.len() && rest[k] == RebaseStep::Reference { head: h as usize };
        assert(refs_at(heads, commit)[k] == rest[k]);
    }
}

proof fn lemma_source_steps(
    c: Seq<CommitId>,
    sources: Seq<CommitId>,
    destination: CommitId,
    squashed: CommitId,
    heads: Seq<CommitId>,
)
    requires
        forall|k: int| 0 <= k < c.len() ==> sources.contains(#[trigger] c[k]),
    ensures
        no_picks(steps_for(c, sources, destination, squashed, heads)),
    decreases c.len(),
{
    if c.len() > 0 {
        let rest = c.drop_first();
        assert forall|k: int| 0 <= k < rest.len() implies sources.contains(#[trigger] rest[k]) by {
            assert(rest[k] == c[k + 1]);
        }
        lemma_source_steps(rest, sources, destination, squashed, heads);
        lemma_refs_are_references(heads, c[0]);
        assert(sources.contains(c[0]));
    }
}

proof fn lemma_source_steps_hold_the_head(
    c: Seq<CommitId>,
    sources: Seq<CommitId>,
    destination: CommitId,
    squashed: CommitId,
    heads: Seq<CommitId>,
    h: int,
)
    requires
        0 <= h < heads.len(),
        heads.len() <= usize::MAX,
        c.contains(heads[h]),
    ensures
        steps_for(c, sources, destination, squashed, heads).contains(
            RebaseStep::Reference { head: h as usize },
        ),
    decreases c.len(),
{
    let target = RebaseStep::Reference { head: h as usize };
    let all = steps_for(c, sources, destination, squashed, heads);
    let rest = steps_for(c.drop_first(), sources, destination, squashed, heads);
    let st = step_for(c[0], sources, destination, squashed);
    let rf = refs_at(heads, c[0]);
    if c[0] == heads[h] {
        lemma_refs_hold_the_head(heads, h);
        let k = choose|k: int| 0 <= k < rf.len() && rf[k] == target;
        assert(all[rest.len() + st.len() + k] == target);
    } else {
        let i = choose|i: int| 0 <= i < c.len() && c[i] == heads[h];
        assert(c.drop_first()[i - 1] == heads[h]);
        lemma_source_steps_hold_the_head(c.drop_first(), sources, destination, squashed, heads, h);
        let k = choose|k: int| 0 <= k < rest.len() && rest[k] == target;
        assert(all[k] == target);
    }
}

proof fn lemma_last_pick_after(
    prefix: Seq<RebaseStep>,
    x: CommitId,
    mid: Seq<RebaseStep>,
    suffix: Seq<RebaseStep>,
    k: int,
)
    requires
        no_picks(mid),
        0 <= k <= mid.len(),
    ensures
        last_pick_before(
            prefix + seq![RebaseStep::Pick { commit_id: x }] + mid + suffix,
            prefix.len() + 1 + k,
        ) == Some(x),
    decreases k,
{
    let all = prefix + seq![RebaseStep::Pick { commit_id: x }] + mid + suffix;
    if k == 0 {
        assert(all[prefix.len() as int] == RebaseStep::Pick { commit_id: x });
    } else {
        assert(all[prefix.len() + k] == mid[k - 1]);
        lemma_last_pick_after(prefix, x, mid, suffix, k - 1);
    }
}

/// After a squash every reference that pointed at a source points at the
/// squash result.
///
/// The stack after the reorder is `above`, the sources, the destination
/// and `below`, tip first, and the destination is no source. For a head
/// that points at a source, its reference step follows the pick of the
/// squash commit with no other pick in between.
pub proof fn lemma_source_references_follow_the_squash(
    above: Seq<CommitId>,
    sources: Seq<CommitId>,
    destination: CommitId,
    below: Seq<CommitId>,
    base: CommitId,
    squashed: CommitId,
    heads: Seq<CommitId>,
    h: int,
)
    requires
        !sources.contains(destination),
        0 <= h < heads.len(),
        heads.len() <= usize::MAX,
        sources.contains(heads[h]),
    ensures
        ({
            let commits = above + sources + seq![destination] + below;
            let steps = squash_steps_spec(base, commits, sources, destination, squashed, heads);
            exists|k: int|
                0 <= k < steps.len() && #[trigger] steps[k] == (RebaseStep::Reference {
                    head: h as usize,
                }) && last_pick_before(steps, k) == Some(squashed)
        }),
{
    let commits = above + sources + seq![destination] + below;
    let steps = squash_steps_spec(base, commits, sources, destination, squashed, heads);
    let d = seq![destination];
    let target = RebaseStep::Reference { head: h as usize };
    lemma_steps_concat(above + sources + d, below, sources, destination, squashed, heads);
    lemma_steps_concat(above + sources, d, sources, destination, squashed, heads);
    lemma_steps_concat(above, sources, sources, destination, squashed, heads);
    let s_above = steps_for(above, sources, destination, squashed, heads);
    let s_src = steps_for(sources, sources, destination, squashed, heads);
    let s_below = steps_for(below, sources, destination, squashed, heads);
    let pick = seq![RebaseStep::Pick { commit_id: squashed }];
    assert(d.drop_first() =~= Seq::<CommitId>::empty());
    assert(d[0] == destination);
    assert(steps_for(d.drop_first(), sources, destination, squashed, heads)
        =~= Seq::<RebaseStep>::empty());
    assert(step_for(destination, sources, destination, squashed) =~= pick);
    assert(steps_for(d, sources, destination, squashed, heads) =~= pick + refs_at(
        heads,
        destination,
    ));
    let prefix = refs_at(heads, base) + s_below;
    let mid = refs_at(heads, destination) + s_src;
    assert(steps =~= prefix + pick + mid + s_above);
    assert(forall|k: int| 0 <= k < sources.len() ==> sources.contains(#[trigger] sources[k]));
    lemma_source_steps(sources, sources, destination, squashed, heads);
    lemma_refs_are_references(heads, destination);
    assert(no_picks(mid));
    lemma_source_steps_hold_the_head(sources, sources, destination, squashed, heads, h);
    let km = choose|km: int| 0 <= km < s_src.len() && s_src[km] == target;
    let at = refs_at(heads, destination).len() + km;
    assert(mid[at] == target);
    lemma_last_pick_after(prefix, squashed, mid, s_above, at);
    let k = prefix.len() + 1 + at;
    assert(steps[k] == target);
}

/// Whether no commit occurs twice in `s`.
pub open spec fn occur_once(s: Seq<CommitId>) -> bool {
    forall|i: int, j: int| 0 <= i < j < s.len() ==> s[i] != s[j]
}

/// How often `x` occurs in `s`.
pub open spec fn occurrences(s: Seq<CommitId>, x: CommitId) -> nat
    decreases s.len(),
{
    if s.len() == 0 {
        0
    } else if s.last() == x {
        occurrences(s.drop_last(), x) + 1
    } else {
        occurrences(s.drop_last(), x)
    }
}

/// How many commits of `s` are sources.
pub open spec fn hits(s: Seq<CommitId>, sources: Seq<CommitId>) -> nat
    decreases s.len(),
{
    if s.len() == 0 {
        0
    } else if sources.contains(s.last()) {
        hits(s.drop_last(), sources) + 1
    } else {
        hits(s.drop_last(), sources)
    }
}

proof fn lemma_without_and_hits(s: Seq<CommitId>, sources: Seq<CommitId>)
    ensures
        without(s, sources).len() + hits(s, sources) == s.len(),
    decreases s.len(),
{
    if s.len() > 0 {
        lemma_without_and_hits(s.drop_last(), sources);
    }
}

proof fn lemma_hits_of_one_more(s: Seq<CommitId>, sources: Seq<CommitId>, x: CommitId)
    requires
        !sources.contains(x),
    ensures
        hits(s, sources.push(x)) == hits(s, sources) + occurrences(s, x),
    decreases s.len(),
{
    if s.len() > 0 {
        lemma_hits_of_one_more(s.drop_last(), sources, x);
        let e = s.last();
        let more = sources.push(x);
        if e == x {
            assert(more[sources.len() as int] == e);
        } else if sources.contains(e) {
            let k = choose|k: int| 0 <= k < sources.len() && sources[k] == e;
            assert(more[k] == e);
        } else if more.contains(e) {
            let k = choose|k: int| 0 <= k < more.len() && more[k] == e;
            if k < sources.len() {
                assert(sources[k] == e);
            }
        }
    }
}

proof fn lemma_occurs_once(s: Seq<CommitId>, x: CommitId)
    requires
        occur_once(s),
    ensures
        occurrences(s, x) == (if s.contains(x) {
            1nat
        } else {
            0nat
        }),
    decreases s.len(),
{
    if s.len() > 0 {
        let front = s.drop_last();
        assert forall|i: int, j: int| 0 <= i < j < front.len() implies front[i] != front[j] by {
            assert(s[i] != s[j]);
        }
        lemma_occurs_once(front, x);
        if s.last() == x {
            if front.contains(x) {
                let k = choose|k: int| 0 <= k < front.len() && front[k] == x;
                assert(s[k] != s[s.len() - 1]);
            }
            assert(s[s.len() - 1] == x);
        } else if s.contains(x) {
            let k = choose|k: int| 0 <= k < s.len() && s[k] == x;
            assert(front[k] == x);
        } else if front.contains(x) {
            let k = choose|k: int| 0 <= k < front.len() && front[k] == x;
            assert(s[k] == x);
        }
    }
}

proof fn lemma_hits_count_sources(s: Seq<CommitId>, sources: Seq<CommitId>)
    requires
        occur_once(s),
        occur_once(sources),
        forall|k: int| 0 <= k < sources.len() ==> s.contains(#[trigger] sources[k]),
    ensures
        hits(s, sources) == sources.len(),
    decreases sources.len(),
{
    if sources.len() == 0 {
        lemma_no_hits(s, sources);
    } else {
        let front = sources.drop_last();
        let x = sources.last();
        assert forall|i: int, j: int| 0 <= i < j < front.len() implies front[i] != front[j] by {
            assert(sources[i] != sources[j]);
        }
        assert forall|k: int| 0 <= k < front.len() implies s.contains(#[trigger] front[k]) by {
            assert(front[k] == sources[k]);
        }
        lemma_hits_count_sources(s, front);
        if front.contains(x) {
            let k = choose|k: int| 0 <= k < front.len() && front[k] == x;
            assert(sources[k] != sources[sources.len() - 1]);
        }
        lemma_hits_of_one_more(s, front, x);
        assert(front.push(x) =~= sources);
        assert(s.contains(sources[sources.len() - 1]));
        lemma_occurs_once(s, x);
    }
}

proof fn lemma_no_hits(s: Seq<CommitId>, sources: Seq<CommitId>)
    requires
        sources.len() == 0,
    ensures
        hits(s, sources) == 0,
    decreases s.len(),
{
    if s.len() > 0 {
        lemma_no_hits(s.drop_last(), sources);
    }
}

/// A squash shortens the stack by exactly the number of its sources.
///
/// Let no commit occur twice in the series `series` of a stack, let the
/// sources be commits of it that differ from each other, and the
/// destination another commit of it. The reorder then leaves the series as
/// long as it was, and the rebase picks one commit for each commit of the
/// series except the sources.
pub proof fn lemma_squash_shortens_the_stack(
    series: Seq<CommitId>,
    sources: Seq<CommitId>,
    destination: CommitId,
    base: CommitId,
    squashed: CommitId,
    heads: Seq<CommitId>,
)
    requires
        occur_once(series),
        occur_once(sources),
        forall|k: int| 0 <= k < sources.len() ==> series.contains(#[trigger] sources[k]),
        series.contains(destination),
        !sources.contains(destination),
    ensures
        squash_series(series, destination, sources).len() == series.len(),
        count_picks(
            squash_steps_spec(
                base,
                squash_series(series, destination, sources),
                sources,
                destination,
                squashed,
                heads,
            ),
        ) == series.len() - sources.len(),
{
    let w = without(series, sources);
    lemma_without_and_hits(series, sources);
    lemma_hits_count_sources(series, sources);
    lemma_without_holds_no_source(series, sources);
    lemma_without_keeps_others(series, sources, destination);
    let j = choose|j: int| 0 <= j < w.len() && w[j] == destination;
    lemma_position_found(w, destination, 0, j);
    let p = position_from(w, destination, 0)->0;
    let above = w.take(p);
    let below = w.skip(p + 1);
    assert(w.skip(p) =~= seq![destination] + below);
    assert(squash_series(series, destination, sources) =~= above + sources + seq![destination]
        + below);
    assert forall|k: int| 0 <= k < above.len() implies !sources.contains(#[trigger] above[k]) by {
        assert(above[k] == w[k]);
    }
    assert forall|k: int| 0 <= k < below.len() implies !sources.contains(#[trigger] below[k]) by {
        assert(below[k] == w[p + 1 + k]);
    }
    lemma_squash_drops_sources(above, sources, destination, below, base, squashed, heads);
}

/// Whether `steps` holds a pick of `commit`.
pub open spec fn picks_commit(steps: Seq<RebaseStep>, commit: CommitId) -> bool {
    steps.contains(RebaseStep::Pick { commit_id: commit })
}

proof fn lemma_refs_pick_nothing(heads: Seq<CommitId>, at: CommitId, commit: CommitId)
    ensures
        !picks_commit(refs_at(heads, at), commit),
{
    lemma_refs_are_references(heads, at);
    if picks_commit(refs_at(heads, at), commit) {
        let k = choose|k: int|
            0 <= k < refs_at(heads, at).len() && refs_at(heads, at)[k] == (RebaseStep::Pick {
                commit_id: commit,
            });
        assert(refs_at(heads, at)[k] is Pick);
    }
}

/// The picks of the steps for `commits` are the squash commit, where the
/// destination is among the commits, and the commits themselves but the
/// sources and the destination.
proof fn lemma_picks_of_steps(
    commits: Seq<CommitId>,
    sources: Seq<CommitId>,
    destination: CommitId,
    squashed: CommitId,
    heads: Seq<CommitId>,
    commit: CommitId,
)
    requires
        !sources.contains(destination),
    ensures
        picks_commit(steps_for(commits, sources, destination, squashed, heads), commit) <==> ((
        commit == squashed && commits.contains(destination)) || (commits.contains(commit)
            && !sources.contains(commit) && commit != destination)),
    decreases commits.len(),
{
    let all = steps_for(commits, sources, destination, squashed, heads);
    let target = RebaseStep::Pick { commit_id: commit };
    if commits.len() == 0 {
        assert(all =~= Seq::<RebaseStep>::empty());
    } else {
        let rest_commits = commits.drop_first();
        let c = commits[0];
        lemma_picks_of_steps(rest_commits, sources, destination, squashed, heads, commit);
        let rest = steps_for(rest_commits, sources, destination, squashed, heads);
        let st = step_for(c, sources, destination, squashed);
        let rf = refs_at(heads, c);
        lemma_refs_pick_nothing(heads, c, commit);
        // Membership in the commits, split into the first and the rest.
        assert(forall|x: CommitId|
            commits.contains(x) <==> (x == c || rest_commits.contains(x))) by {
            assert forall|x: CommitId| commits.contains(x) implies x == c || rest_commits.contains(
                x,
            ) by {
                let k = choose|k: int| 0 <= k < commits.len() && commits[k] == x;
                if k > 0 {
                    assert(rest_commits[k - 1] == x);
                }
            }
            assert forall|x: CommitId| x == c || rest_commits.contains(x) implies commits.contains(
                x,
            ) by {
                if x == c {
                    assert(commits[0] == x);
                } else {
                    let k = choose|k: int| 0 <= k < rest_commits.len() && rest_commits[k] == x;
                    assert(commits[k + 1] == x);
                }
            }
        }
        // Membership in the steps, split into the three parts.
        assert(picks_commit(all, commit) <==> (picks_commit(rest, commit) || st.contains(target)))
            by {
            if picks_commit(all, commit) {
                let k = choose|k: int| 0 <= k < all.len() && all[k] == target;
                if k < rest.len() {
                    assert(rest[k] == target);
                } else if k < rest.len() + st.len() {
                    assert(st[k - rest.len()] == target);
                } else {
                    assert(rf[k - rest.len() - st.len()] == target);
                }
            }
            if picks_commit(rest, commit) {
                let k = choose|k: int| 0 <= k < rest.len() && rest[k] == target;
                assert(all[k] == target);
            }
            if st.contains(target) {
                let k = choose|k: int| 0 <= k < st.len() && st[k] == target;
                assert(all[rest.len() + k] == target);
            }
        }
        assert(st.contains(target) <==> ((c == destination && commit == squashed) || (
        !sources.contains(c) && c != destination && commit == c))) by {
            if sources.contains(c) {
            } else if c == destination {
                assert(st[0] == RebaseStep::Pick { commit_id: squashed });
            } else {
                assert(st[0] == RebaseStep::Pick { commit_id: c });
            }
        }
    }
}

/// After a squash the squash commit is on the stack, and neither the
/// sources nor the old destination are.
///
/// The stack after the reorder holds the destination, which is no source;
/// the squash commit is a new commit, none of the stack's.
pub proof fn lemma_squash_replaces_the_commits(
    commits: Seq<CommitId>,
    sources: Seq<CommitId>,
    destination: CommitId,
    base: CommitId,
    squashed: CommitId,
    heads: Seq<CommitId>,
)
    requires
        commits.contains(destination),
        !sources.contains(destination),
        !commits.contains(squashed),
        !sources.contains(squashed),
    ensures
        ({
            let steps = squash_steps_spec(base, commits, sources, destination, squashed, heads);
            &&& picks_commit(steps, squashed)
            &&& !picks_commit(steps, destination)
            &&& forall|k: int| 0 <= k < sources.len() ==> !picks_commit(steps, #[trigger] sources[k])
            &&& forall|x: CommitId|
                commits.contains(x) && !sources.contains(x) && x != destination ==> picks_commit(
                    steps,
                    x,
                )
        }),
{
    let inner = steps_for(commits, sources, destination, squashed, heads);
    let front = refs_at(heads, base);
    let steps = squash_steps_spec(base, commits, sources, destination, squashed, heads);
    assert forall|x: CommitId| picks_commit(steps, x) <==> picks_commit(inner, x) by {
        let target = RebaseStep::Pick { commit_id: x };
        lemma_refs_pick_nothing(heads, base, x);
        if picks_commit(steps, x) {
            let k = choose|k: int| 0 <= k < steps.len() && steps[k] == target;
            if k < front.len() {
                assert(front[k] == target);
            } else {
                assert(inner[k - front.len()] == target);
            }
        }
        if picks_commit(inner, x) {
            let k = choose|k: int| 0 <= k < inner.len() && inner[k] == target;
            assert(steps[front.len() + k] == target);
        }
    }
    lemma_picks_of_steps(commits, sources, destination, squashed, heads, squashed);
    lemma_picks_of_steps(commits, sources, destination, squashed, heads, destination);
    assert forall|k: int| 0 <= k < sources.len() implies !picks_commit(
        steps,
        #[trigger] sources[k],
    ) by {
        lemma_picks_of_steps(commits, sources, destination, squashed, heads, sources[k]);
        assert(sources.contains(sources[k]));
    }
    assert forall|x: CommitId|
        commits.contains(x) && !sources.contains(x) && x != destination implies picks_commit(
        steps,
        x,
    ) by {
        lemma_picks_of_steps(commits, sources, destination, squashed, heads, x);
    }
}

/// The key of a tree.
pub type TreeId = u64;

/// What a three-way merge of trees gave.
#[derive(Debug, Clone, Copy, PartialEq, Eq, Structural)]
pub enum MergeOutcome {
    /// The merge is clean and gave this tree.
    Clean { tree: TreeId },
    /// The merge has unresolved conflicts.
    Conflicted,
}

/// The combined tree of a squash: the destination's tree with each source
/// merged in, in order. `merges[k]` is the outcome of merging source `k`
/// into what the sources before it gave. A conflict refuses the squash.
pub open spec fn squash_tree_spec(destination_tree: TreeId, merges: Seq<MergeOutcome>) -> Result<
    TreeId,
    SquashError,
>
    decreases merges.len(),
{
    if merges.len() == 0 {
        Ok(destination_tree)
    } else {
        match squash_tree_spec(destination_tree, merges.drop_last()) {
            Err(e) => Err(e),
            Ok(_) => match merges.last() {
                MergeOutcome::Clean { tree } => Ok(tree),
                MergeOutcome::Conflicted => Err(SquashError::MergeConflict),
            },
        }
    }
}

/// The three trees of one merge.
#[derive(Debug, Clone, Copy, PartialEq, Eq, Structural)]
pub struct MergeInput {
    /// The common ancestor of the two sides.
    pub base: TreeId,
    /// The side that is merged in.
    pub ours: TreeId,
    /// The side that is merged into.
    pub theirs: TreeId,
}

/// Name the merge that brings the next source into the combined tree
/// `current`: the tree of the source's parent is the base, the source's
/// tree is merged in, and the combined tree so far is merged into.
pub fn squash_merge_input(current: TreeId, source_parent_tree: TreeId, source_tree: TreeId) -> (r:
    MergeInput)
    ensures
        r == (MergeInput { base: source_parent_tree, ours: source_tree, theirs: current }),
{
    MergeInput { base: source_parent_tree, ours: source_tree, theirs: current }
}

/// Take the outcome of merging the next source into the combined tree
/// `current`: the new combined tree, or a refusal on conflict.
pub fn squash_tree_step(current: TreeId, outcome: MergeOutcome) -> (r: Result<TreeId, SquashError>)
    ensures
        r == (match outcome {
            MergeOutcome::Clean { tree } => Ok::<TreeId, SquashError>(tree),
            MergeOutcome::Conflicted => Err::<TreeId, SquashError>(SquashError::MergeConflict),
        }),
{
    match outcome {
        MergeOutcome::Clean { tree } => Ok(tree),
        MergeOutcome::Conflicted => Err(SquashError::MergeConflict),
    }
}

/// Fold the outcomes of the merges of all sources into the combined tree.
pub fn squash_tree(destination_tree: TreeId, merges: &Vec<MergeOutcome>) -> (r: Result<
    TreeId,
    SquashError,
>)
    ensures
        r == squash_tree_spec(destination_tree, merges@),
{
    let mut current = destination_tree;
    let mut i: usize = 0;
    while i < merges.len()
        invariant
            i <= merges.len(),
            squash_tree_spec(destination_tree, merges@.take(i as int)) == Ok::<
                TreeId,
                SquashError,
            >(current),
        decreases merges.len() - i,
    {
        proof {
            assert(merges@.take(i + 1).drop_last() =~= merges@.take(i as int));
        }
        match squash_tree_step(current, merges[i]) {
            Ok(tree) => {
                current = tree;
            },
            Err(e) => {
                proof {
                    lemma_squash_tree_fails(destination_tree, merges@, i + 1);
                }
                return Err(e);
            },
        }
        i += 1;
    }
    proof {
        assert(merges@.take(merges.len() as int) =~= merges@);
    }
    Ok(current)
}

proof fn lemma_squash_tree_fails(destination_tree: TreeId, merges: Seq<MergeOutcome>, n: int)
    requires
        0 <= n <= merges.len(),
        squash_tree_spec(destination_tree, merges.take(n)) is Err,
    ensures
        squash_tree_spec(destination_tree, merges) == squash_tree_spec(
            destination_tree,
            merges.take(n),
        ),
    decreases merges.len() - n,
{
    if n == merges.len() {
        assert(merges.take(n) =~= merges);
    } else {
        assert(merges.take(n + 1).drop_last() =~= merges.take(n));
        lemma_squash_tree_fails(destination_tree, merges, n + 1);
    }
}

} // verus!
