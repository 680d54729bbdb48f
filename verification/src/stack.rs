//! The shape of a stack: its heads, tip first, each at a commit.
//!
//! After a rebase the heads move to the commits that their references
//! landed on. A head is empty when it sits at the same commit as the head
//! below it, or, for the bottommost head, at the commit of the workspace
//! target. Empty heads stay in the stack as named insertion points, and can
//! be left out when the stack is read; without a target none is left out.

use vstd::prelude::*;
use crate::squash::CommitId;

verus! {

/// A head of a stack.
#[derive(Debug, Clone, Copy, PartialEq, Eq, Structural)]
pub struct StackHead {
    /// The key of the head's reference.
    pub refname: u64,
    /// The commit that the head points at.
    pub commit: CommitId,
}

/// The commit that the first entry for `refname` at or after `i` names.
pub open spec fn landed_from(references: Seq<(u64, CommitId)>, refname: u64, i: int) -> Option<
    CommitId,
>
    decreases references.len() - i,
{
    if i < 0 || i >= references.len() {
        None
    } else if references[i].0 == refname {
        Some(references[i].1)
    } else {
        landed_from(references, refname, i + 1)
    }
}

/// A head after a rebase: at the commit that its reference landed on, or
/// where it was if the rebase did not move its reference.
pub open spec fn advanced_head(head: StackHead, references: Seq<(u64, CommitId)>) -> StackHead {
    match landed_from(references, head.refname, 0) {
        Some(c) => StackHead { refname: head.refname, commit: c },
        None => head,
    }
}

/// The heads after a rebase: each head advanced, in place.
pub open spec fn advanced_heads(heads: Seq<StackHead>, references: Seq<(u64, CommitId)>) -> Seq<
    StackHead,
> {
    Seq::new(heads.len(), |i: int| advanced_head(heads[i], references))
}

fn find_landing(references: &Vec<(u64, CommitId)>, refname: u64) -> (r: Option<CommitId>)
    ensures
        r == landed_from(references@, refname, 0),
{
    let mut i: usize = 0;
    while i < references.len()
        invariant
            i <= references.len(),
            landed_from(references@, refname, 0) == landed_from(references@, refname, i as int),
        decreases references.len() - i,
    {
        if references[i].0 == refname {
            return Some(references[i].1);
        }
        i += 1;
    }
    None
}

/// Move the heads to where the rebase put their references.
pub fn set_heads_from_rebase_output(heads: &mut Vec<StackHead>, references: &Vec<(u64, CommitId)>)
    ensures
        final(heads)@ == advanced_heads(old(heads)@, references@),
{
    let ghost before = heads@;
    let mut i: usize = 0;
    while i < heads.len()
        invariant
            i <= heads.len(),
            heads@.len() == before.len(),
            forall|k: int| 0 <= k < i ==> heads@[k] == advanced_head(before[k], references@),
            forall|k: int| i <= k < heads@.len() ==> heads@[k] == before[k],
        decreases heads.len() - i,
    {
        let head = heads[i];
        if let Some(c) = find_landing(references, head.refname) {
            heads.set(i, StackHead { refname: head.refname, commit: c });
        }
        i += 1;
    }
    proof {
        assert(heads@ =~= advanced_heads(before, references@));
    }
}

/// Whether the head at `position` is empty: it sits at the commit of the
/// head below it, or, if it is the bottommost head, at the commit of the
/// target.
pub open spec fn is_empty_head_spec(heads: Seq<StackHead>, position: int, target: CommitId) -> bool {
    if position < 0 || position >= heads.len() {
        false
    } else if position + 1 < heads.len() {
        heads[position].commit == heads[position + 1].commit
    } else {
        heads[position].commit == target
    }
}

/// Decide whether the head at `position` is empty.
pub fn is_empty_head(heads: &Vec<StackHead>, position: usize, target: CommitId) -> (r: bool)
    ensures
        r == is_empty_head_spec(heads@, position as int, target),
{
    if position >= heads.len() {
        false
    } else if position < heads.len() - 1 {
        heads[position].commit == heads[position + 1].commit
    } else {
        heads[position].commit == target
    }
}

/// Whether the head at `position` is left out when the stack is read:
/// empty heads are to be left out, the workspace has a target, and the head
/// is empty. Without a target no head is left out.
pub open spec fn is_omitted(
    heads: Seq<StackHead>,
    position: int,
    target: Option<CommitId>,
    omit_empty: bool,
) -> bool {
    omit_empty && target is Some && is_empty_head_spec(heads, position, target->0)
}

/// The positions among the first `n` of the heads that are shown: those
/// that are not left out.
pub open spec fn shown_heads(
    heads: Seq<StackHead>,
    target: Option<CommitId>,
    omit_empty: bool,
    n: int,
) -> Seq<usize>
    decreases n,
{
    if n <= 0 || n > heads.len() {
        Seq::empty()
    } else if is_omitted(heads, n - 1, target, omit_empty) {
        shown_heads(heads, target, omit_empty, n - 1)
    } else {
        shown_heads(heads, target, omit_empty, n - 1).push((n - 1) as usize)
    }
}

/// List the positions of the heads that are shown when the stack is read.
pub fn visible_heads(heads: &Vec<StackHead>, target: Option<CommitId>, omit_empty: bool) -> (r: Vec<
    usize,
>)
    ensures
        r@ == shown_heads(heads@, target, omit_empty, heads@.len() as int),
{
    let mut out: Vec<usize> = Vec::new();
    let mut i: usize = 0;
    while i < heads.len()
        invariant
            i <= heads.len(),
            out@ == shown_heads(heads@, target, omit_empty, i as int),
        decreases heads.len() - i,
    {
        let omitted = match target {
            Some(t) => omit_empty && is_empty_head(heads, i, t),
            None => false,
        };
        if !omitted {
            out.push(i);
        }
        i += 1;
    }
    out
}

/// Decide whether a stack is listed at all: it is where one of its heads
/// is shown.
pub fn stack_is_listed(heads: &Vec<StackHead>, target: Option<CommitId>, omit_empty: bool) -> (r:
    bool)
    ensures
        r == (shown_heads(heads@, target, omit_empty, heads@.len() as int).len() > 0),
{
    visible_heads(heads, target, omit_empty).len() > 0
}

/// Without a target, or where empty heads are kept, every head is shown.
pub proof fn lemma_filter_off_shows_all(
    heads: Seq<StackHead>,
    target: Option<CommitId>,
    omit_empty: bool,
    n: int,
)
    requires
        0 <= n <= heads.len(),
        heads.len() <= usize::MAX,
        target is None || !omit_empty,
    ensures
        shown_heads(heads, target, omit_empty, n) == Seq::new(n as nat, |i: int| i as usize),
    decreases n,
{
    if n > 0 {
        lemma_filter_off_shows_all(heads, target, omit_empty, n - 1);
        assert(shown_heads(heads, target, omit_empty, n) =~= Seq::new(
            n as nat,
            |i: int| i as usize,
        ));
    } else {
        assert(shown_heads(heads, target, omit_empty, n) =~= Seq::new(
            n as nat,
            |i: int| i as usize,
        ));
    }
}

} // verus!
