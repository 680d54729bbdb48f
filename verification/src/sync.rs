//! Reconciling the metadata store with its on-disk mirror file.
//!
//! The store is the runtime source of truth. The mirror file may be edited
//! by hand, so each access first decides which side is fresher, by the
//! modification time and hash that the store recorded when it last saw the
//! file. The functions here make that decision and compute what has to be
//! persisted; reading and writing the file and the store is the caller's part.

use vstd::prelude::*;
use crate::chars::{
    all_hex, is_all_hex, lemma_str_le_antisymmetric, lemma_str_le_total, lemma_str_le_trans, str_le,
    text_le, to_chars,
};
use crate::numbers::{decimal_text, parse_bounded, parse_bounded_spec, u128_to_text};
use crate::rows::{stack_row_le, stack_rows_listed, target_row_le, target_rows_listed};
use crate::legacy::{
    RemoteRefname, RemoteRefnameView, Stack, StackBranch, StackBranchView, StackTarget,
    StackTargetView, StackView, Target, TargetView, VirtualBranches, VirtualBranchesView,
};
use crate::snapshot::{
    clone_opt, opt_view, VbBranchTarget, VbBranchTargetView, VbStack, VbStackHead,
    VbStackHeadView, VbStackView, VbState, VbStateView, VirtualBranchesSnapshot,
    VirtualBranchesSnapshotView,
};

verus! {

/// Which side holds the fresher data.
#[derive(Debug, Clone, Copy, PartialEq, Eq, Structural)]
pub enum Freshness {
    /// The file changed since the store last saw it.
    FileNewer,
    /// The file is as the store last saw it.
    Same,
    /// The file is older than what the store last saw.
    StoreNewer,
}

/// Why a conversion or a synchronization step was refused.
#[derive(Debug, Clone, Copy, PartialEq, Eq, Structural)]
pub enum SyncError {
    /// A stack order does not fit the store's integer column.
    StackOrderOutOfRange,
    /// A head position does not fit the store's integer column.
    HeadPositionOutOfRange,
    /// The default target's object id is not a valid object id.
    InvalidDefaultTargetSha,
    /// The last pushed base is not a valid object id.
    InvalidLastPushedBase,
    /// Two stack rows share one id.
    DuplicateStackId,
    /// A stack's sort order is negative.
    InvalidSortOrder,
    /// A stack's tree id is not a valid object id.
    InvalidTreeSha,
    /// A stack's creation or update time is not a number.
    InvalidTimestamp,
    /// A stack's head id is not a valid object id.
    InvalidStackHeadSha,
    /// A head row names a stack that does not exist.
    MissingStack,
    /// A head's object id is not a valid object id.
    InvalidHeadSha,
    /// A head's pull request number is negative.
    InvalidPrNumber,
    /// The positions of the heads of a stack do not count up from zero
    /// without gaps.
    NonContiguousPositions,
    /// Two heads of one stack share a name.
    DuplicateHeadName,
    /// A per-stack target's object id is not a valid object id.
    InvalidTargetSha,
    /// The mirror file is missing or cannot be parsed.
    TomlUnavailable,
}

/// Modification time and hash of the mirror file as it was just written.
#[derive(Debug, Clone, PartialEq, Eq)]
pub struct TomlFileState {
    /// Modification time in nanoseconds since the epoch.
    pub mtime_ns: i64,
    /// Hex SHA-256 of the file's bytes.
    pub sha256_hexdigest: String,
}

/// What the store recorded about the mirror file when it last saw it.
#[derive(Debug, Clone, PartialEq, Eq)]
pub struct DbTomlFileState {
    /// Last seen modification time.
    pub toml_last_seen_mtime_ns: Option<i64>,
    /// Last seen hash.
    pub toml_last_seen_sha256: Option<String>,
}

/// A mirror file that was read and parsed.
#[derive(Debug, Clone, PartialEq, Eq)]
pub struct ParsedToml {
    /// The file's content.
    pub data: VirtualBranches,
    /// Modification time in nanoseconds since the epoch.
    pub mtime_ns: i64,
    /// Hex SHA-256 of the file's bytes.
    pub sha256_hexdigest: String,
}

/// What was found where the mirror file should be.
#[derive(Debug, Clone, PartialEq, Eq)]
pub enum TomlInfo {
    /// There is no file.
    Missing,
    /// The file was read and parsed.
    Parsed(ParsedToml),
    /// The file exists but is not valid.
    Invalid,
}

/// `state` with the given file metadata recorded as last seen.
pub open spec fn with_last_seen(state: VbStateView, mtime_ns: i64, sha256: Seq<char>) -> VbStateView {
    VbStateView {
        toml_last_seen_mtime_ns: Some(mtime_ns),
        toml_last_seen_sha256: Some(sha256),
        ..state
    }
}

impl ParsedToml {
    /// Record this file's metadata as last seen.
    pub fn update_last_seen_metadata_on(&self, state: &mut VbState)
        ensures
            final(state)@ == with_last_seen(old(state)@, self.mtime_ns, self.sha256_hexdigest@),
    {
        state.toml_last_seen_mtime_ns = Some(self.mtime_ns);
        state.toml_last_seen_sha256 = Some(self.sha256_hexdigest.clone());
    }
}

impl TomlFileState {
    /// Record this file's metadata as last seen.
    pub fn update_last_seen_metadata_on(&self, state: &mut VbState)
        ensures
            final(state)@ == with_last_seen(old(state)@, self.mtime_ns, self.sha256_hexdigest@),
    {
        state.toml_last_seen_mtime_ns = Some(self.mtime_ns);
        state.toml_last_seen_sha256 = Some(self.sha256_hexdigest.clone());
    }
}

/// Extract from `db_state` just the parts that relate the store to the file.
pub fn into_db_toml_file_info(db_state: VbState) -> (r: DbTomlFileState)
    ensures
        r.toml_last_seen_mtime_ns == db_state.toml_last_seen_mtime_ns,
        opt_view(r.toml_last_seen_sha256) == opt_view(db_state.toml_last_seen_sha256),
{
    DbTomlFileState {
        toml_last_seen_mtime_ns: db_state.toml_last_seen_mtime_ns,
        toml_last_seen_sha256: db_state.toml_last_seen_sha256,
    }
}

/// The freshness rule: a file never seen, or with a later modification time,
/// is newer; one with an earlier time is older; at equal times the hash
/// decides between unchanged and newer.
pub open spec fn toml_compare_spec(
    last_mtime: Option<i64>,
    last_sha: Option<Seq<char>>,
    mtime_ns: i64,
    sha256: Seq<char>,
) -> Freshness {
    match last_mtime {
        None => Freshness::FileNewer,
        Some(last) => if mtime_ns > last {
            Freshness::FileNewer
        } else if mtime_ns < last {
            Freshness::StoreNewer
        } else if last_sha == Some(sha256) {
            Freshness::Same
        } else {
            Freshness::FileNewer
        },
    }
}

/// Compare observed file metadata against what the store last saw.
pub fn toml_compare(state: &VbState, mtime_ns: i64, sha256: &str) -> (r: Freshness)
    ensures
        r == toml_compare_spec(
            state.toml_last_seen_mtime_ns,
            opt_view(state.toml_last_seen_sha256),
            mtime_ns,
            sha256@,
        ),
{
    match state.toml_last_seen_mtime_ns {
        None => Freshness::FileNewer,
        Some(last_seen) => {
            if mtime_ns > last_seen {
                Freshness::FileNewer
            } else if mtime_ns < last_seen {
                Freshness::StoreNewer
            } else {
                match &state.toml_last_seen_sha256 {
                    Some(last_sha) => {
                        let observed = sha256.to_owned();
                        if *last_sha == observed {
                            Freshness::Same
                        } else {
                            Freshness::FileNewer
                        }
                    },
                    None => Freshness::FileNewer,
                }
            }
        },
    }
}

/// Whether stack `a` may stand before stack `b`: by order, then by id.
pub open spec fn stack_key_le(a: StackView, b: StackView) -> bool {
    a.order < b.order || (a.order == b.order && str_le(a.id, b.id))
}

/// Whether `stacks` is ordered by `(order, id)`.
pub open spec fn stacks_ordered(stacks: Seq<StackView>) -> bool {
    forall|i: int, j: int| 0 <= i < j < stacks.len() ==> stack_key_le(stacks[i], stacks[j])
}

/// Whether `targets` is ordered by stack id.
pub open spec fn targets_ordered(targets: Seq<StackTargetView>) -> bool {
    forall|i: int, j: int| 0 <= i < j < targets.len() ==> target_key_le(targets[i], targets[j])
}

/// The order of stacks is total.
proof fn lemma_stack_key_le_total(a: StackView, b: StackView)
    ensures
        stack_key_le(a, b) || stack_key_le(b, a),
{
    lemma_str_le_total(a.id, b.id);
}

/// The order of stacks is transitive.
proof fn lemma_stack_key_le_trans(a: StackView, b: StackView, c: StackView)
    requires
        stack_key_le(a, b),
        stack_key_le(b, c),
    ensures
        stack_key_le(a, c),
{
    if a.order == b.order && b.order == c.order {
        lemma_str_le_trans(a.id, b.id, c.id);
    }
}

fn stack_le(a: &Stack, b: &Stack) -> (r: bool)
    ensures
        r == stack_key_le(a@, b@),
{
    a.order < b.order || (a.order == b.order && text_le(
        &to_chars(a.id.as_str()),
        &to_chars(b.id.as_str()),
    ))
}

/// `sorted` with `x` placed behind the last element that may stand before
/// it.
pub open spec fn insert_stack(sorted: Seq<StackView>, x: StackView) -> Seq<StackView>
    decreases sorted.len(),
{
    if sorted.len() == 0 {
        seq![x]
    } else if stack_key_le(sorted.last(), x) {
        sorted.push(x)
    } else {
        insert_stack(sorted.drop_last(), x).push(sorted.last())
    }
}

/// The stacks of a mirror file in the order in which the store lists them:
/// by `(order, id)`, stacks with equal keys in their given order.
pub open spec fn stacks_by_order(items: Seq<StackView>) -> Seq<StackView>
    decreases items.len(),
{
    if items.len() == 0 {
        Seq::empty()
    } else {
        insert_stack(stacks_by_order(items.drop_last()), items.last())
    }
}

proof fn lemma_insert_stack_at(sorted: Seq<StackView>, x: StackView, p: int)
    requires
        0 <= p <= sorted.len(),
        forall|k: int| p <= k < sorted.len() ==> !stack_key_le(#[trigger] sorted[k], x),
        p > 0 ==> stack_key_le(sorted[p - 1], x),
    ensures
        insert_stack(sorted, x) == sorted.insert(p, x),
    decreases sorted.len() - p,
{
    if p == sorted.len() {
        if sorted.len() > 0 {
            assert(sorted.last() == sorted[p - 1]);
            assert(sorted.insert(p, x) =~= sorted.push(x));
        } else {
            assert(sorted.insert(p, x) =~= seq![x]);
        }
    } else {
        let front = sorted.drop_last();
        assert(!stack_key_le(sorted[sorted.len() - 1], x));
        assert forall|k: int| p <= k < front.len() implies !stack_key_le(#[trigger] front[k], x) by {
            assert(front[k] == sorted[k]);
        }
        if p > 0 {
            assert(front[p - 1] == sorted[p - 1]);
        }
        lemma_insert_stack_at(front, x, p);
        assert(sorted.insert(p, x) =~= front.insert(p, x).push(sorted.last()));
    }
}

proof fn lemma_insert_stack_ordered(sorted: Seq<StackView>, x: StackView)
    requires
        stacks_ordered(sorted),
    ensures
        stacks_ordered(insert_stack(sorted, x)),
        insert_stack(sorted, x).to_multiset() == sorted.to_multiset().insert(x),
    decreases sorted.len(),
{
    broadcast use vstd::seq_lib::group_to_multiset_ensures;

    let out = insert_stack(sorted, x);
    if sorted.len() == 0 {
        assert(sorted =~= Seq::<StackView>::empty());
        assert(out =~= Seq::<StackView>::empty().push(x));
    } else if stack_key_le(sorted.last(), x) {
        assert forall|i: int, j: int| 0 <= i < j < out.len() implies stack_key_le(out[i], out[j]) by {
            if j == sorted.len() {
                if i < sorted.len() - 1 {
                    assert(stack_key_le(sorted[i], sorted[sorted.len() - 1]));
                    lemma_stack_key_le_trans(sorted[i], sorted.last(), x);
                }
            } else {
                assert(stack_key_le(sorted[i], sorted[j]));
            }
        }
    } else {
        let front = sorted.drop_last();
        let last = sorted.last();
        assert forall|i: int, j: int| 0 <= i < j < front.len() implies stack_key_le(front[i], front[j]) by {
            assert(stack_key_le(sorted[i], sorted[j]));
        }
        lemma_insert_stack_ordered(front, x);
        let inner = insert_stack(front, x);
        assert(sorted =~= front.push(last));
        assert(out.to_multiset() =~= sorted.to_multiset().insert(x));
        lemma_stack_key_le_total(last, x);
        assert forall|i: int, j: int| 0 <= i < j < out.len() implies stack_key_le(out[i], out[j]) by {
            if j == inner.len() {
                assert(inner.contains(inner[i]));
                assert(inner.to_multiset().count(inner[i]) > 0);
                if inner[i] != x {
                    assert(front.to_multiset().count(inner[i]) > 0);
                    assert(front.contains(inner[i]));
                    let k = choose|k: int| 0 <= k < front.len() && front[k] == inner[i];
                    assert(stack_key_le(sorted[k], sorted[sorted.len() - 1]));
                }
            } else {
                assert(stack_key_le(inner[i], inner[j]));
            }
        }
    }
}

/// The stacks in store order are the given stacks, ordered by `(order, id)`.
pub proof fn lemma_stacks_by_order_is_ordered(items: Seq<StackView>)
    ensures
        stacks_ordered(stacks_by_order(items)),
        stacks_by_order(items).to_multiset() == items.to_multiset(),
    decreases items.len(),
{
    broadcast use vstd::seq_lib::group_to_multiset_ensures;

    if items.len() == 0 {
        assert(items =~= Seq::<StackView>::empty());
    } else {
        lemma_stacks_by_order_is_ordered(items.drop_last());
        lemma_insert_stack_ordered(stacks_by_order(items.drop_last()), items.last());
        assert(items =~= items.drop_last().push(items.last()));
    }
}

/// Bring the stacks into the order in which the store lists them.
fn sort_stacks(items: &mut Vec<Stack>)
    ensures
        final(items)@.map_values(|x: Stack| x@) == stacks_by_order(old(items)@.map_values(|x: Stack| x@)),
        final(items)@.map_values(|x: Stack| x@).to_multiset() == old(items)@.map_values(
            |x: Stack| x@,
        ).to_multiset(),
        stacks_ordered(final(items)@.map_values(|x: Stack| x@)),
{
    let ghost views = items@.map_values(|x: Stack| x@);
    let mut out: Vec<Stack> = Vec::new();
    let mut i: usize = 0;
    proof {
        assert(views.take(0) =~= Seq::empty());
        assert(out@.map_values(|x: Stack| x@) =~= Seq::empty());
    }
    while i < items.len()
        invariant
            i <= items.len(),
            views == items@.map_values(|x: Stack| x@),
            out@.len() == i,
            out@.map_values(|x: Stack| x@) == stacks_by_order(views.take(i as int)),
        decreases items.len() - i,
    {
        let x = items[i].duplicate();
        let ghost sorted = out@.map_values(|x: Stack| x@);
        proof {
            assert(views.take(i + 1).drop_last() =~= views.take(i as int));
            assert(views.take(i + 1).last() == x@);
        }
        let mut p: usize = out.len();
        while p > 0 && !stack_le(&out[p - 1], &x)
            invariant
                p <= out.len(),
                sorted == out@.map_values(|x: Stack| x@),
                forall|k: int| p <= k < sorted.len() ==> !stack_key_le(#[trigger] sorted[k], x@),
            decreases p,
        {
            proof {
                assert(sorted[p - 1] == out@[p - 1]@);
            }
            p -= 1;
        }
        proof {
            if p > 0 {
                assert(sorted[p - 1] == out@[p - 1]@);
            }
            lemma_insert_stack_at(sorted, x@, p as int);
            assert(out@.insert(p as int, x).map_values(|x: Stack| x@) =~= sorted.insert(
                p as int,
                x@,
            ));
        }
        out.insert(p, x);
        i += 1;
    }
    proof {
        assert(views.take(items.len() as int) =~= views);
        lemma_stacks_by_order_is_ordered(views);
    }
    *items = out;
}

/// Whether target `a` may stand before target `b`: by stack id.
pub open spec fn target_key_le(a: StackTargetView, b: StackTargetView) -> bool {
    str_le(a.stack_id, b.stack_id)
}

/// The order of targets is total.
proof fn lemma_target_key_le_total(a: StackTargetView, b: StackTargetView)
    ensures
        target_key_le(a, b) || target_key_le(b, a),
{
    lemma_str_le_total(a.stack_id, b.stack_id);
}

/// The order of targets is transitive.
proof fn lemma_target_key_le_trans(a: StackTargetView, b: StackTargetView, c: StackTargetView)
    requires
        target_key_le(a, b),
        target_key_le(b, c),
    ensures
        target_key_le(a, c),
{
    lemma_str_le_trans(a.stack_id, b.stack_id, c.stack_id);
}

fn target_le(a: &StackTarget, b: &StackTarget) -> (r: bool)
    ensures
        r == target_key_le(a@, b@),
{
    text_le(&to_chars(a.stack_id.as_str()), &to_chars(b.stack_id.as_str()))
}

/// `sorted` with `x` placed behind the last element that may stand before
/// it.
pub open spec fn insert_target(sorted: Seq<StackTargetView>, x: StackTargetView) -> Seq<StackTargetView>
    decreases sorted.len(),
{
    if sorted.len() == 0 {
        seq![x]
    } else if target_key_le(sorted.last(), x) {
        sorted.push(x)
    } else {
        insert_target(sorted.drop_last(), x).push(sorted.last())
    }
}

/// The per-stack targets of a mirror file in the order in which the store
/// lists them: by stack id, targets with equal ids in their given order.
pub open spec fn targets_by_stack(items: Seq<StackTargetView>) -> Seq<StackTargetView>
    decreases items.len(),
{
    if items.len() == 0 {
        Seq::empty()
    } else {
        insert_target(targets_by_stack(items.drop_last()), items.last())
    }
}

proof fn lemma_insert_target_at(sorted: Seq<StackTargetView>, x: StackTargetView, p: int)
    requires
        0 <= p <= sorted.len(),
        forall|k: int| p <= k < sorted.len() ==> !target_key_le(#[trigger] sorted[k], x),
        p > 0 ==> target_key_le(sorted[p - 1], x),
    ensures
        insert_target(sorted, x) == sorted.insert(p, x),
    decreases sorted.len() - p,
{
    if p == sorted.len() {
        if sorted.len() > 0 {
            assert(sorted.last() == sorted[p - 1]);
            assert(sorted.insert(p, x) =~= sorted.push(x));
        } else {
            assert(sorted.insert(p, x) =~= seq![x]);
        }
    } else {
        let front = sorted.drop_last();
        assert(!target_key_le(sorted[sorted.len() - 1], x));
        assert forall|k: int| p <= k < front.len() implies !target_key_le(#[trigger] front[k], x) by {
            assert(front[k] == sorted[k]);
        }
        if p > 0 {
            assert(front[p - 1] == sorted[p - 1]);
        }
        lemma_insert_target_at(front, x, p);
        assert(sorted.insert(p, x) =~= front.insert(p, x).push(sorted.last()));
    }
}

proof fn lemma_insert_target_ordered(sorted: Seq<StackTargetView>, x: StackTargetView)
    requires
        targets_ordered(sorted),
    ensures
        targets_ordered(insert_target(sorted, x)),
        insert_target(sorted, x).to_multiset() == sorted.to_multiset().insert(x),
    decreases sorted.len(),
{
    broadcast use vstd::seq_lib::group_to_multiset_ensures;

    let out = insert_target(sorted, x);
    if sorted.len() == 0 {
        assert(sorted =~= Seq::<StackTargetView>::empty());
        assert(out =~= Seq::<StackTargetView>::empty().push(x));
    } else if target_key_le(sorted.last(), x) {
        assert forall|i: int, j: int| 0 <= i < j < out.len() implies target_key_le(out[i], out[j]) by {
            if j == sorted.len() {
                if i < sorted.len() - 1 {
                    assert(target_key_le(sorted[i], sorted[sorted.len() - 1]));
                    lemma_target_key_le_trans(sorted[i], sorted.last(), x);
                }
            } else {
                assert(target_key_le(sorted[i], sorted[j]));
            }
        }
    } else {
        let front = sorted.drop_last();
        let last = sorted.last();
        assert forall|i: int, j: int| 0 <= i < j < front.len() implies target_key_le(front[i], front[j]) by {
            assert(target_key_le(sorted[i], sorted[j]));
        }
        lemma_insert_target_ordered(front, x);
        let inner = insert_target(front, x);
        assert(sorted =~= front.push(last));
        assert(out.to_multiset() =~= sorted.to_multiset().insert(x));
        lemma_target_key_le_total(last, x);
        assert forall|i: int, j: int| 0 <= i < j < out.len() implies target_key_le(out[i], out[j]) by {
            if j == inner.len() {
                assert(inner.contains(inner[i]));
                assert(inner.to_multiset().count(inner[i]) > 0);
                if inner[i] != x {
                    assert(front.to_multiset().count(inner[i]) > 0);
                    assert(front.contains(inner[i]));
                    let k = choose|k: int| 0 <= k < front.len() && front[k] == inner[i];
                    assert(target_key_le(sorted[k], sorted[sorted.len() - 1]));
                }
            } else {
                assert(target_key_le(inner[i], inner[j]));
            }
        }
    }
}

/// The targets in store order are the given targets, ordered by stack id.
pub proof fn lemma_targets_by_stack_is_ordered(items: Seq<StackTargetView>)
    ensures
        targets_ordered(targets_by_stack(items)),
        targets_by_stack(items).to_multiset() == items.to_multiset(),
    decreases items.len(),
{
    broadcast use vstd::seq_lib::group_to_multiset_ensures;

    if items.len() == 0 {
        assert(items =~= Seq::<StackTargetView>::empty());
    } else {
        lemma_targets_by_stack_is_ordered(items.drop_last());
        lemma_insert_target_ordered(targets_by_stack(items.drop_last()), items.last());
        assert(items =~= items.drop_last().push(items.last()));
    }
}

/// Bring the targets into the order in which the store lists them.
fn sort_targets(items: &mut Vec<StackTarget>)
    ensures
        final(items)@.map_values(|x: StackTarget| x@) == targets_by_stack(old(items)@.map_values(|x: StackTarget| x@)),
        final(items)@.map_values(|x: StackTarget| x@).to_multiset() == old(items)@.map_values(
            |x: StackTarget| x@,
        ).to_multiset(),
        targets_ordered(final(items)@.map_values(|x: StackTarget| x@)),
{
    let ghost views = items@.map_values(|x: StackTarget| x@);
    let mut out: Vec<StackTarget> = Vec::new();
    let mut i: usize = 0;
    proof {
        assert(views.take(0) =~= Seq::empty());
        assert(out@.map_values(|x: StackTarget| x@) =~= Seq::empty());
    }
    while i < items.len()
        invariant
            i <= items.len(),
            views == items@.map_values(|x: StackTarget| x@),
            out@.len() == i,
            out@.map_values(|x: StackTarget| x@) == targets_by_stack(views.take(i as int)),
        decreases items.len() - i,
    {
        let x = items[i].duplicate();
        let ghost sorted = out@.map_values(|x: StackTarget| x@);
        proof {
            assert(views.take(i + 1).drop_last() =~= views.take(i as int));
            assert(views.take(i + 1).last() == x@);
        }
        let mut p: usize = out.len();
        while p > 0 && !target_le(&out[p - 1], &x)
            invariant
                p <= out.len(),
                sorted == out@.map_values(|x: StackTarget| x@),
                forall|k: int| p <= k < sorted.len() ==> !target_key_le(#[trigger] sorted[k], x@),
            decreases p,
        {
            proof {
                assert(sorted[p - 1] == out@[p - 1]@);
            }
            p -= 1;
        }
        proof {
            if p > 0 {
                assert(sorted[p - 1] == out@[p - 1]@);
            }
            lemma_insert_target_at(sorted, x@, p as int);
            assert(out@.insert(p as int, x).map_values(|x: StackTarget| x@) =~= sorted.insert(
                p as int,
                x@,
            ));
        }
        out.insert(p, x);
        i += 1;
    }
    proof {
        assert(views.take(items.len() as int) =~= views);
        lemma_targets_by_stack_is_ordered(views);
    }
    *items = out;
}

/// The remote part of an optional upstream.
pub open spec fn upstream_remote(u: Option<RemoteRefnameView>) -> Option<Seq<char>> {
    match u {
        Some(r) => Some(r.remote),
        None => None,
    }
}

/// The branch part of an optional upstream.
pub open spec fn upstream_branch(u: Option<RemoteRefnameView>) -> Option<Seq<char>> {
    match u {
        Some(r) => Some(r.branch),
        None => None,
    }
}

/// The store row of a stack.
pub open spec fn stack_row(s: StackView) -> VbStackView {
    VbStackView {
        id: s.id,
        source_refname: s.source_refname,
        upstream_remote_name: upstream_remote(s.upstream),
        upstream_branch_name: upstream_branch(s.upstream),
        sort_order: s.order as i64,
        in_workspace: s.in_workspace,
        legacy_name: s.name,
        legacy_notes: s.notes,
        legacy_ownership: s.ownership,
        legacy_allow_rebasing: s.allow_rebasing,
        legacy_post_commits: s.post_commits,
        legacy_tree_sha: s.tree,
        legacy_head_sha: s.head,
        legacy_created_timestamp_ms: decimal_text(s.created_timestamp_ms),
        legacy_updated_timestamp_ms: decimal_text(s.updated_timestamp_ms),
    }
}

/// The pull request number as the store holds it.
pub open spec fn pr_number_row(n: Option<usize>) -> Option<i64> {
    match n {
        Some(v) => Some(v as i64),
        None => None,
    }
}

/// The store row of the head at `position` of the stack `stack_id`.
pub open spec fn head_row(stack_id: Seq<char>, position: int, b: StackBranchView) -> VbStackHeadView {
    VbStackHeadView {
        stack_id,
        position: position as i64,
        name: b.name,
        head_sha: b.head,
        pr_number: pr_number_row(b.pr_number),
        archived: b.archived,
        review_id: b.review_id,
    }
}

/// The head rows of one stack: its heads in order, numbered from zero
/// without gaps.
pub open spec fn head_rows(s: StackView) -> Seq<VbStackHeadView> {
    Seq::new(s.heads.len(), |i: int| head_row(s.id, i, s.heads[i]))
}

/// The head rows of `stacks`, stack after stack.
pub open spec fn all_head_rows(stacks: Seq<StackView>) -> Seq<VbStackHeadView>
    decreases stacks.len(),
{
    if stacks.len() == 0 {
        Seq::empty()
    } else {
        all_head_rows(stacks.drop_last()) + head_rows(stacks.last())
    }
}

/// Why a stack cannot be stored, if it cannot.
pub open spec fn stack_fit_error(s: StackView) -> Option<SyncError> {
    if s.order > i64::MAX {
        Some(SyncError::StackOrderOutOfRange)
    } else if s.heads.len() > i64::MAX + 1 {
        Some(SyncError::HeadPositionOutOfRange)
    } else {
        None
    }
}

/// The error of the first stack of `stacks` that cannot be stored.
pub open spec fn first_fit_error(stacks: Seq<StackView>) -> Option<SyncError>
    decreases stacks.len(),
{
    if stacks.len() == 0 {
        None
    } else {
        match first_fit_error(stacks.drop_last()) {
            Some(e) => Some(e),
            None => stack_fit_error(stacks.last()),
        }
    }
}

/// The store row of a per-stack target.
pub open spec fn target_row(t: StackTargetView) -> VbBranchTargetView {
    VbBranchTargetView {
        stack_id: t.stack_id,
        remote_name: t.target.branch.remote,
        branch_name: t.target.branch.branch,
        remote_url: t.target.remote_url,
        sha: t.target.sha,
        push_remote_name: t.target.push_remote_name,
    }
}

/// The state row for a mirror file: initialized, with the file's default
/// target and last pushed base, and the given last-seen metadata.
pub open spec fn legacy_state(
    vb: VirtualBranchesView,
    mtime_ns: Option<i64>,
    sha256: Option<Seq<char>>,
) -> VbStateView {
    VbStateView {
        default_target_remote_name: match vb.default_target {
            Some(t) => Some(t.branch.remote),
            None => None,
        },
        default_target_branch_name: match vb.default_target {
            Some(t) => Some(t.branch.branch),
            None => None,
        },
        default_target_remote_url: match vb.default_target {
            Some(t) => Some(t.remote_url),
            None => None,
        },
        default_target_sha: match vb.default_target {
            Some(t) => Some(t.sha),
            None => None,
        },
        default_target_push_remote_name: match vb.default_target {
            Some(t) => t.push_remote_name,
            None => None,
        },
        last_pushed_base_sha: vb.last_pushed_base,
        initialized: true,
        toml_last_seen_mtime_ns: mtime_ns,
        toml_last_seen_sha256: sha256,
    }
}

/// The snapshot that stores a mirror file.
///
/// Stacks are listed by `(order, id)`, each stack's heads are numbered from
/// zero in their stored order, and targets are listed by stack id. The
/// conversion fails on the first stack, in that order, that does not fit.
pub open spec fn legacy_to_snapshot_spec(
    vb: VirtualBranchesView,
    mtime_ns: Option<i64>,
    sha256: Option<Seq<char>>,
) -> Result<VirtualBranchesSnapshotView, SyncError> {
    let sorted = stacks_by_order(vb.branches);
    match first_fit_error(sorted) {
        Some(e) => Err(e),
        None => Ok(
            VirtualBranchesSnapshotView {
                state: legacy_state(vb, mtime_ns, sha256),
                stacks: sorted.map_values(|s: StackView| stack_row(s)),
                heads: all_head_rows(sorted),
                branch_targets: targets_by_stack(vb.branch_targets).map_values(
                    |t: StackTargetView| target_row(t),
                ),
            },
        ),
    }
}

/// Whether `row` is the row of head `i` of stack `j`: it names the stack,
/// and its position is `i`.
pub open spec fn is_row_of(stacks: Seq<StackView>, j: int, i: int, row: VbStackHeadView) -> bool {
    &&& 0 <= j < stacks.len()
    &&& 0 <= i < stacks[j].heads.len()
    &&& row == head_row(stacks[j].id, i, stacks[j].heads[i])
}

/// Every head row is the row of a head of a stack, numbered by the place
/// of the head in its stack.
pub proof fn lemma_head_rows_are_numbered(stacks: Seq<StackView>, k: int)
    requires
        0 <= k < all_head_rows(stacks).len(),
    ensures
        exists|j: int, i: int| is_row_of(stacks, j, i, all_head_rows(stacks)[k]),
    decreases stacks.len(),
{
    let rest = all_head_rows(stacks.drop_last());
    if k < rest.len() {
        lemma_head_rows_are_numbered(stacks.drop_last(), k);
        let (j, i) = choose|j: int, i: int| is_row_of(stacks.drop_last(), j, i, rest[k]);
        assert(stacks.drop_last()[j] == stacks[j]);
        assert(is_row_of(stacks, j, i, all_head_rows(stacks)[k]));
    } else {
        let j = stacks.len() - 1;
        let i = k - rest.len();
        assert(all_head_rows(stacks)[k] == head_rows(stacks.last())[i]);
        assert(is_row_of(stacks, j, i, all_head_rows(stacks)[k]));
    }
}

/// Every head of every stack has its row: the heads of a stack take the
/// positions from zero up to their number, without gaps.
pub proof fn lemma_every_head_has_its_row(stacks: Seq<StackView>, j: int, i: int)
    requires
        0 <= j < stacks.len(),
        0 <= i < stacks[j].heads.len(),
    ensures
        exists|k: int|
            0 <= k < all_head_rows(stacks).len() && is_row_of(
                stacks,
                j,
                i,
                #[trigger] all_head_rows(stacks)[k],
            ),
    decreases stacks.len(),
{
    let rest = all_head_rows(stacks.drop_last());
    if j < stacks.len() - 1 {
        lemma_every_head_has_its_row(stacks.drop_last(), j, i);
        let k = choose|k: int|
            0 <= k < rest.len() && is_row_of(stacks.drop_last(), j, i, #[trigger] rest[k]);
        assert(stacks.drop_last()[j] == stacks[j]);
        assert(all_head_rows(stacks)[k] == rest[k]);
        assert(is_row_of(stacks, j, i, all_head_rows(stacks)[k]));
    } else {
        let k = rest.len() + i;
        assert(all_head_rows(stacks)[k] == head_rows(stacks.last())[i]);
        assert(is_row_of(stacks, j, i, all_head_rows(stacks)[k]));
    }
}

proof fn lemma_all_stacks_fit(stacks: Seq<StackView>, k: int)
    requires
        0 <= k < stacks.len(),
        first_fit_error(stacks) is None,
    ensures
        stack_fit_error(stacks[k]) is None,
    decreases stacks.len(),
{
    if k < stacks.len() - 1 {
        lemma_all_stacks_fit(stacks.drop_last(), k);
    }
}

/// The view of a conversion result.
pub open spec fn snapshot_result_view(
    r: Result<VirtualBranchesSnapshot, SyncError>,
) -> Result<VirtualBranchesSnapshotView, SyncError> {
    match r {
        Ok(s) => Ok(s@),
        Err(e) => Err(e),
    }
}

fn stack_to_row(s: &Stack) -> (r: VbStack)
    requires
        s@.order <= i64::MAX,
    ensures
        r@ == stack_row(s@),
{
    let (upstream_remote_name, upstream_branch_name) = match &s.upstream {
        Some(u) => (Some(u.remote.clone()), Some(u.branch.clone())),
        None => (None, None),
    };
    VbStack {
        id: s.id.clone(),
        source_refname: clone_opt(&s.source_refname),
        upstream_remote_name,
        upstream_branch_name,
        sort_order: s.order as i64,
        in_workspace: s.in_workspace,
        legacy_name: s.name.clone(),
        legacy_notes: s.notes.clone(),
        legacy_ownership: s.ownership.clone(),
        legacy_allow_rebasing: s.allow_rebasing,
        legacy_post_commits: s.post_commits,
        legacy_tree_sha: s.tree.clone(),
        legacy_head_sha: s.head.clone(),
        legacy_created_timestamp_ms: u128_to_text(s.created_timestamp_ms),
        legacy_updated_timestamp_ms: u128_to_text(s.updated_timestamp_ms),
    }
}

fn push_head_rows(s: &Stack, out: &mut Vec<VbStackHead>)
    requires
        s@.heads.len() <= i64::MAX + 1,
    ensures
        final(out)@.map_values(|x: VbStackHead| x@) == old(out)@.map_values(|x: VbStackHead| x@)
            + head_rows(s@),
{
    let ghost before = out@.map_values(|x: VbStackHead| x@);
    let mut j: usize = 0;
    while j < s.heads.len()
        invariant
            j <= s.heads.len(),
            s@.heads.len() == s.heads.len(),
            s@.heads.len() <= i64::MAX + 1,
            out@.map_values(|x: VbStackHead| x@) == before + head_rows(s@).take(j as int),
        decreases s.heads.len() - j,
    {
        let b = &s.heads[j];
        let pr_number = match b.pr_number {
            Some(v) => Some(#[verifier::truncate] (v as i64)),
            None => None,
        };
        let row = VbStackHead {
            stack_id: s.id.clone(),
            position: j as i64,
            name: b.name.clone(),
            head_sha: b.head.clone(),
            pr_number,
            archived: b.archived,
            review_id: clone_opt(&b.review_id),
        };
        proof {
            assert(s@.heads[j as int] == s.heads@[j as int]@);
            assert(row@ == head_row(s@.id, j as int, s@.heads[j as int]));
            assert(out@.push(row).map_values(|x: VbStackHead| x@) =~= out@.map_values(
                |x: VbStackHead| x@,
            ).push(row@));
            assert(head_rows(s@).take(j + 1) =~= head_rows(s@).take(j as int).push(row@));
            assert(before + head_rows(s@).take(j + 1) =~= (before + head_rows(s@).take(
                j as int,
            )).push(row@));
        }
        out.push(row);
        j += 1;
    }
    proof {
        assert(head_rows(s@).take(s.heads.len() as int) =~= head_rows(s@));
    }
}

fn target_to_row(t: &StackTarget) -> (r: VbBranchTarget)
    ensures
        r@ == target_row(t@),
{
    VbBranchTarget {
        stack_id: t.stack_id.clone(),
        remote_name: t.target.branch.remote.clone(),
        branch_name: t.target.branch.branch.clone(),
        remote_url: t.target.remote_url.clone(),
        sha: t.target.sha.clone(),
        push_remote_name: clone_opt(&t.target.push_remote_name),
    }
}

fn state_from_legacy(vb: &VirtualBranches, file: DbTomlFileState) -> (r: VbState)
    ensures
        r@ == legacy_state(vb@, file.toml_last_seen_mtime_ns, opt_view(file.toml_last_seen_sha256)),
{
    let (remote, branch, url, sha, push) = match &vb.default_target {
        Some(t) => (
            Some(t.branch.remote.clone()),
            Some(t.branch.branch.clone()),
            Some(t.remote_url.clone()),
            Some(t.sha.clone()),
            clone_opt(&t.push_remote_name),
        ),
        None => (None, None, None, None, None),
    };
    VbState {
        default_target_remote_name: remote,
        default_target_branch_name: branch,
        default_target_remote_url: url,
        default_target_sha: sha,
        default_target_push_remote_name: push,
        last_pushed_base_sha: clone_opt(&vb.last_pushed_base),
        initialized: true,
        toml_last_seen_mtime_ns: file.toml_last_seen_mtime_ns,
        toml_last_seen_sha256: file.toml_last_seen_sha256,
    }
}

/// Convert the content of a mirror file into the snapshot that stores it,
/// carrying over what the store last saw of the file.
pub fn legacy_to_snapshot(vb: &VirtualBranches, file: DbTomlFileState) -> (r: Result<
    VirtualBranchesSnapshot,
    SyncError,
>)
    ensures
        snapshot_result_view(r) == legacy_to_snapshot_spec(
            vb@,
            file.toml_last_seen_mtime_ns,
            opt_view(file.toml_last_seen_sha256),
        ),
        stacks_by_order(vb@.branches).to_multiset() == vb@.branches.to_multiset(),
        stacks_ordered(stacks_by_order(vb@.branches)),
        r is Ok ==> stack_rows_listed(r->Ok_0@.stacks),
        r is Ok ==> targets_by_stack(vb@.branch_targets).to_multiset()
            == vb@.branch_targets.to_multiset(),
        r is Ok ==> target_rows_listed(r->Ok_0@.branch_targets),
{
    let mut stacks = Stack::duplicate_all(&vb.branches);
    sort_stacks(&mut stacks);
    let ghost sorted = stacks@.map_values(|x: Stack| x@);
    let mut out_stacks: Vec<VbStack> = Vec::new();
    let mut out_heads: Vec<VbStackHead> = Vec::new();
    let mut i: usize = 0;
    while i < stacks.len()
        invariant
            i <= stacks.len(),
            sorted == stacks@.map_values(|x: Stack| x@),
            sorted == stacks_by_order(vb@.branches),
            sorted.to_multiset() == vb@.branches.to_multiset(),
            stacks_ordered(sorted),
            first_fit_error(sorted.take(i as int)) is None,
            out_stacks@.map_values(|x: VbStack| x@) == sorted.take(i as int).map_values(
                |s: StackView| stack_row(s),
            ),
            out_heads@.map_values(|x: VbStackHead| x@) == all_head_rows(sorted.take(i as int)),
        decreases stacks.len() - i,
    {
        let stack = &stacks[i];
        proof {
            assert(sorted.take(i + 1).drop_last() =~= sorted.take(i as int));
            assert(sorted.take(i + 1).last() == stack@);
        }
        assert(sorted[i as int] == stack@);
        if stack.order as u128 > i64::MAX as u128 {
            proof {
                lemma_fit_error_found(sorted, i + 1);
            }
            return Err(SyncError::StackOrderOutOfRange);
        }
        if stack.heads.len() > 0 && (stack.heads.len() - 1) as u128 > i64::MAX as u128 {
            proof {
                lemma_fit_error_found(sorted, i + 1);
            }
            return Err(SyncError::HeadPositionOutOfRange);
        }
        let row = stack_to_row(stack);
        proof {
            assert(out_stacks@.push(row).map_values(|x: VbStack| x@) =~= out_stacks@.map_values(
                |x: VbStack| x@,
            ).push(row@));
            assert(sorted.take(i + 1) =~= sorted.take(i as int).push(sorted[i as int]));
            assert(sorted.take(i as int).push(sorted[i as int]).map_values(
                |s: StackView| stack_row(s),
            ) =~= sorted.take(i as int).map_values(|s: StackView| stack_row(s)).push(
                stack_row(sorted[i as int]),
            ));
        }
        out_stacks.push(row);
        push_head_rows(stack, &mut out_heads);
        i += 1;
    }
    proof {
        assert(sorted.take(stacks.len() as int) =~= sorted);
    }
    let mut targets = StackTarget::duplicate_all(&vb.branch_targets);
    sort_targets(&mut targets);
    let ghost sorted_targets = targets@.map_values(|x: StackTarget| x@);
    let mut out_targets: Vec<VbBranchTarget> = Vec::new();
    let mut k: usize = 0;
    while k < targets.len()
        invariant
            k <= targets.len(),
            sorted_targets == targets@.map_values(|x: StackTarget| x@),
            out_targets@.map_values(|x: VbBranchTarget| x@) == sorted_targets.take(
                k as int,
            ).map_values(|t: StackTargetView| target_row(t)),
        decreases targets.len() - k,
    {
        let row = target_to_row(&targets[k]);
        proof {
            assert(sorted_targets[k as int] == targets@[k as int]@);
            assert(out_targets@.push(row).map_values(|x: VbBranchTarget| x@)
                =~= out_targets@.map_values(|x: VbBranchTarget| x@).push(row@));
            assert(sorted_targets.take(k + 1) =~= sorted_targets.take(k as int).push(
                sorted_targets[k as int],
            ));
            assert(sorted_targets.take(k as int).push(sorted_targets[k as int]).map_values(
                |t: StackTargetView| target_row(t),
            ) =~= sorted_targets.take(k as int).map_values(
                |t: StackTargetView| target_row(t),
            ).push(target_row(sorted_targets[k as int])));
        }
        out_targets.push(row);
        k += 1;
    }
    proof {
        assert(sorted_targets.take(targets.len() as int) =~= sorted_targets);
    }
    let state = state_from_legacy(vb, file);
    proof {
        let rows = sorted.map_values(|s: StackView| stack_row(s));
        assert forall|i: int, j: int| 0 <= i < j < rows.len() implies stack_row_le(
            rows[i],
            rows[j],
        ) by {
            lemma_all_stacks_fit(sorted, i);
            lemma_all_stacks_fit(sorted, j);
            assert(stack_key_le(sorted[i], sorted[j]));
        }
        let targets = sorted_targets.map_values(|t: StackTargetView| target_row(t));
        assert forall|i: int, j: int| 0 <= i < j < targets.len() implies str_le(
            targets[i].stack_id,
            targets[j].stack_id,
        ) by {
            assert(target_key_le(sorted_targets[i], sorted_targets[j]));
        }
    }
    Ok(VirtualBranchesSnapshot { state, stacks: out_stacks, heads: out_heads, branch_targets: out_targets })
}

/// Once a prefix of `stacks` holds a stack that does not fit, the first
/// error of the whole is the first error of that prefix.
proof fn lemma_fit_error_found(stacks: Seq<StackView>, n: int)
    requires
        0 <= n <= stacks.len(),
        first_fit_error(stacks.take(n)) is Some,
    ensures
        first_fit_error(stacks) == first_fit_error(stacks.take(n)),
    decreases stacks.len() - n,
{
    if n == stacks.len() {
        assert(stacks.take(n) =~= stacks);
    } else {
        assert(stacks.take(n + 1).drop_last() =~= stacks.take(n));
        lemma_fit_error_found(stacks, n + 1);
    }
}

/// Whether `s` is the hexadecimal text of an object id: forty hex digits.
pub open spec fn is_object_id(s: Seq<char>) -> bool {
    s.len() == 40 && all_hex(s)
}

/// Decide [`is_object_id`].
pub fn check_object_id(s: &str) -> (r: bool)
    ensures
        r == is_object_id(s@),
{
    let chars = to_chars(s);
    chars.len() == 40 && is_all_hex(&chars)
}

/// The number that a decimal text denotes: decimal digits, at least one,
/// with an optional plus sign in front, and a value that fits; `None` for
/// any other text.
pub open spec fn parsed_decimal(s: Seq<char>) -> Option<u128> {
    parse_bounded_spec(s, u128::MAX)
}

fn parse_u128(s: &str) -> (r: Option<u128>)
    ensures
        r == parsed_decimal(s@),
{
    parse_bounded(&to_chars(s), u128::MAX)
}

/// The default target that a state row holds: present when remote, branch,
/// URL and object id are all present.
pub open spec fn default_target_of(state: VbStateView) -> Option<TargetView> {
    if state.default_target_remote_name is Some && state.default_target_branch_name is Some
        && state.default_target_remote_url is Some && state.default_target_sha is Some {
        Some(
            TargetView {
                branch: RemoteRefnameView {
                    remote: state.default_target_remote_name->0,
                    branch: state.default_target_branch_name->0,
                },
                remote_url: state.default_target_remote_url->0,
                sha: state.default_target_sha->0,
                push_remote_name: state.default_target_push_remote_name,
            },
        )
    } else {
        None
    }
}

/// What is wrong with a state row, if anything.
pub open spec fn state_error(state: VbStateView) -> Option<SyncError> {
    if default_target_of(state) is Some && !is_object_id(state.default_target_sha->0) {
        Some(SyncError::InvalidDefaultTargetSha)
    } else if state.last_pushed_base_sha is Some && !is_object_id(state.last_pushed_base_sha->0) {
        Some(SyncError::InvalidLastPushedBase)
    } else {
        None
    }
}

/// Whether one of `rows` has the id `id`.
pub open spec fn stack_id_known(rows: Seq<VbStackView>, id: Seq<char>) -> bool {
    exists|k: int| 0 <= k < rows.len() && (#[trigger] rows[k]).id == id
}

/// Whether one of `rows` is for the stack `id`.
pub open spec fn target_id_known(rows: Seq<VbBranchTargetView>, id: Seq<char>) -> bool {
    exists|k: int| 0 <= k < rows.len() && (#[trigger] rows[k]).stack_id == id
}

/// What is wrong with a stack row that follows the rows `earlier`, if
/// anything.
pub open spec fn stack_row_error(earlier: Seq<VbStackView>, row: VbStackView) -> Option<SyncError> {
    if stack_id_known(earlier, row.id) {
        Some(SyncError::DuplicateStackId)
    } else if row.sort_order < 0 || row.sort_order > usize::MAX {
        Some(SyncError::InvalidSortOrder)
    } else if !is_object_id(row.legacy_tree_sha) {
        Some(SyncError::InvalidTreeSha)
    } else if parsed_decimal(row.legacy_created_timestamp_ms) is None || parsed_decimal(
        row.legacy_updated_timestamp_ms,
    ) is None {
        Some(SyncError::InvalidTimestamp)
    } else if !is_object_id(row.legacy_head_sha) {
        Some(SyncError::InvalidStackHeadSha)
    } else {
        None
    }
}

/// How many of `rows` belong to the stack `stack_id`.
pub open spec fn heads_of_stack(rows: Seq<VbStackHeadView>, stack_id: Seq<char>) -> int
    decreases rows.len(),
{
    if rows.len() == 0 {
        0
    } else if rows.last().stack_id == stack_id {
        heads_of_stack(rows.drop_last(), stack_id) + 1
    } else {
        heads_of_stack(rows.drop_last(), stack_id)
    }
}

/// Whether one of `rows` is a head of the stack `stack_id` with the name
/// `name`.
pub open spec fn head_name_known(rows: Seq<VbStackHeadView>, stack_id: Seq<char>, name: Seq<char>) -> bool {
    exists|k: int|
        0 <= k < rows.len() && (#[trigger] rows[k]).stack_id == stack_id && rows[k].name == name
}

/// What is wrong with a head row that follows the rows `earlier` in a
/// store with the stacks `stacks`, if anything. The position of a head is
/// the number of heads of its stack before it, and its name is new in its
/// stack.
pub open spec fn head_row_error(
    stacks: Seq<VbStackView>,
    earlier: Seq<VbStackHeadView>,
    row: VbStackHeadView,
) -> Option<SyncError> {
    if !stack_id_known(stacks, row.stack_id) {
        Some(SyncError::MissingStack)
    } else if row.position != heads_of_stack(earlier, row.stack_id) {
        Some(SyncError::NonContiguousPositions)
    } else if head_name_known(earlier, row.stack_id, row.name) {
        Some(SyncError::DuplicateHeadName)
    } else if !is_object_id(row.head_sha) {
        Some(SyncError::InvalidHeadSha)
    } else if row.pr_number is Some && (row.pr_number->0 < 0 || row.pr_number->0 > usize::MAX) {
        Some(SyncError::InvalidPrNumber)
    } else {
        None
    }
}

/// What is wrong with a target row that follows the rows `earlier`, if
/// anything.
pub open spec fn target_row_error(
    earlier: Seq<VbBranchTargetView>,
    row: VbBranchTargetView,
) -> Option<SyncError> {
    if target_id_known(earlier, row.stack_id) {
        Some(SyncError::DuplicateStackId)
    } else if !is_object_id(row.sha) {
        Some(SyncError::InvalidTargetSha)
    } else {
        None
    }
}

/// The error of the first invalid stack row.
pub open spec fn first_stack_error(rows: Seq<VbStackView>) -> Option<SyncError>
    decreases rows.len(),
{
    if rows.len() == 0 {
        None
    } else {
        match first_stack_error(rows.drop_last()) {
            Some(e) => Some(e),
            None => stack_row_error(rows.drop_last(), rows.last()),
        }
    }
}

/// Once a prefix of the rows holds an invalid row, the first error of the
/// whole is the first error of that prefix.
proof fn lemma_first_stack_error_found(rows: Seq<VbStackView>, n: int)
    requires
        0 <= n <= rows.len(),
        first_stack_error(rows.take(n)) is Some,
    ensures
        first_stack_error(rows) == first_stack_error(rows.take(n)),
    decreases rows.len() - n,
{
    if n == rows.len() {
        assert(rows.take(n) =~= rows);
    } else {
        assert(rows.take(n + 1).drop_last() =~= rows.take(n));
        lemma_first_stack_error_found(rows, n + 1);
    }
}

/// The error of the first invalid head row.
pub open spec fn first_head_error(rows: Seq<VbStackHeadView>, stacks: Seq<VbStackView>) -> Option<SyncError>
    decreases rows.len(),
{
    if rows.len() == 0 {
        None
    } else {
        match first_head_error(rows.drop_last(), stacks) {
            Some(e) => Some(e),
            None => head_row_error(stacks, rows.drop_last(), rows.last()),
        }
    }
}

/// Once a prefix of the rows holds an invalid row, the first error of the
/// whole is the first error of that prefix.
proof fn lemma_first_head_error_found(rows: Seq<VbStackHeadView>, stacks: Seq<VbStackView>, n: int)
    requires
        0 <= n <= rows.len(),
        first_head_error(rows.take(n), stacks) is Some,
    ensures
        first_head_error(rows, stacks) == first_head_error(rows.take(n), stacks),
    decreases rows.len() - n,
{
    if n == rows.len() {
        assert(rows.take(n) =~= rows);
    } else {
        assert(rows.take(n + 1).drop_last() =~= rows.take(n));
        lemma_first_head_error_found(rows, stacks, n + 1);
    }
}

/// The error of the first invalid target row.
pub open spec fn first_target_error(rows: Seq<VbBranchTargetView>) -> Option<SyncError>
    decreases rows.len(),
{
    if rows.len() == 0 {
        None
    } else {
        match first_target_error(rows.drop_last()) {
            Some(e) => Some(e),
            None => target_row_error(rows.drop_last(), rows.last()),
        }
    }
}

/// Once a prefix of the rows holds an invalid row, the first error of the
/// whole is the first error of that prefix.
proof fn lemma_first_target_error_found(rows: Seq<VbBranchTargetView>, n: int)
    requires
        0 <= n <= rows.len(),
        first_target_error(rows.take(n)) is Some,
    ensures
        first_target_error(rows) == first_target_error(rows.take(n)),
    decreases rows.len() - n,
{
    if n == rows.len() {
        assert(rows.take(n) =~= rows);
    } else {
        assert(rows.take(n + 1).drop_last() =~= rows.take(n));
        lemma_first_target_error_found(rows, n + 1);
    }
}

/// The head that a head row stores.
pub open spec fn branch_of(row: VbStackHeadView) -> StackBranchView {
    StackBranchView {
        head: row.head_sha,
        name: row.name,
        pr_number: match row.pr_number {
            Some(n) => Some(n as usize),
            None => None,
        },
        archived: row.archived,
        review_id: row.review_id,
    }
}

/// The heads of the stack `stack_id` among `rows`, in the order of the rows.
pub open spec fn branches_of(stack_id: Seq<char>, rows: Seq<VbStackHeadView>) -> Seq<
    StackBranchView,
>
    decreases rows.len(),
{
    if rows.len() == 0 {
        Seq::empty()
    } else if rows.last().stack_id == stack_id {
        branches_of(stack_id, rows.drop_last()).push(branch_of(rows.last()))
    } else {
        branches_of(stack_id, rows.drop_last())
    }
}

/// The upstream that a stack row stores: present when both parts are.
pub open spec fn upstream_of(row: VbStackView) -> Option<RemoteRefnameView> {
    if row.upstream_remote_name is Some && row.upstream_branch_name is Some {
        Some(
            RemoteRefnameView {
                remote: row.upstream_remote_name->0,
                branch: row.upstream_branch_name->0,
            },
        )
    } else {
        None
    }
}

/// The stack that a stack row stores, with the given heads.
pub open spec fn legacy_stack(row: VbStackView, heads: Seq<StackBranchView>) -> StackView {
    StackView {
        id: row.id,
        source_refname: row.source_refname,
        upstream: upstream_of(row),
        order: row.sort_order as usize,
        in_workspace: row.in_workspace,
        heads,
        notes: row.legacy_notes,
        ownership: row.legacy_ownership,
        allow_rebasing: row.legacy_allow_rebasing,
        post_commits: row.legacy_post_commits,
        tree: row.legacy_tree_sha,
        created_timestamp_ms: parsed_decimal(row.legacy_created_timestamp_ms)->0,
        updated_timestamp_ms: parsed_decimal(row.legacy_updated_timestamp_ms)->0,
        name: row.legacy_name,
        head: row.legacy_head_sha,
    }
}

/// The per-stack target that a target row stores.
pub open spec fn legacy_target(row: VbBranchTargetView) -> StackTargetView {
    StackTargetView {
        stack_id: row.stack_id,
        target: TargetView {
            branch: RemoteRefnameView { remote: row.remote_name, branch: row.branch_name },
            remote_url: row.remote_url,
            sha: row.sha,
            push_remote_name: row.push_remote_name,
        },
    }
}

/// The mirror-file content that a snapshot stores.
///
/// Each stack gets the heads whose rows name it, in the order of the rows.
/// The conversion fails on the first invalid row: the state row first, then
/// the stack rows, the head rows and the target rows, each in order. A
/// snapshot whose rows break an invariant of the store is refused: stack
/// ids are unique, every head names a stack, the positions of the heads of
/// a stack count up from zero, and head names are unique in their stack.
pub open spec fn snapshot_to_legacy_spec(s: VirtualBranchesSnapshotView) -> Result<
    VirtualBranchesView,
    SyncError,
> {
    if state_error(s.state) is Some {
        Err(state_error(s.state)->0)
    } else if first_stack_error(s.stacks) is Some {
        Err(first_stack_error(s.stacks)->0)
    } else if first_head_error(s.heads, s.stacks) is Some {
        Err(first_head_error(s.heads, s.stacks)->0)
    } else if first_target_error(s.branch_targets) is Some {
        Err(first_target_error(s.branch_targets)->0)
    } else {
        Ok(
            VirtualBranchesView {
                default_target: default_target_of(s.state),
                branch_targets: s.branch_targets.map_values(
                    |t: VbBranchTargetView| legacy_target(t),
                ),
                branches: s.stacks.map_values(
                    |r: VbStackView| legacy_stack(r, branches_of(r.id, s.heads)),
                ),
                last_pushed_base: s.state.last_pushed_base_sha,
            },
        )
    }
}

/// The view of a conversion result.
pub open spec fn legacy_result_view(r: Result<VirtualBranches, SyncError>) -> Result<
    VirtualBranchesView,
    SyncError,
> {
    match r {
        Ok(v) => Ok(v@),
        Err(e) => Err(e),
    }
}

/// Decide whether one of the first `n` stack rows has the id `id`.
pub fn has_stack_id(rows: &Vec<VbStack>, n: usize, id: &String) -> (r: bool)
    requires
        n <= rows.len(),
    ensures
        r == stack_id_known(rows@.map_values(|x: VbStack| x@).take(n as int), id@),
{
    let ghost views = rows@.map_values(|x: VbStack| x@).take(n as int);
    let mut k: usize = 0;
    while k < n
        invariant
            k <= n <= rows.len(),
            views == rows@.map_values(|x: VbStack| x@).take(n as int),
            forall|j: int| 0 <= j < k ==> (#[trigger] views[j]).id != id@,
        decreases n - k,
    {
        if rows[k].id == *id {
            assert(views[k as int].id == id@);
            return true;
        }
        k += 1;
    }
    false
}

/// Decide whether one of the first `n` target rows is for the stack `id`.
pub fn has_target_id(rows: &Vec<VbBranchTarget>, n: usize, id: &String) -> (r: bool)
    requires
        n <= rows.len(),
    ensures
        r == target_id_known(rows@.map_values(|x: VbBranchTarget| x@).take(n as int), id@),
{
    let ghost views = rows@.map_values(|x: VbBranchTarget| x@).take(n as int);
    let mut k: usize = 0;
    while k < n
        invariant
            k <= n <= rows.len(),
            views == rows@.map_values(|x: VbBranchTarget| x@).take(n as int),
            forall|j: int| 0 <= j < k ==> (#[trigger] views[j]).stack_id != id@,
        decreases n - k,
    {
        if rows[k].stack_id == *id {
            assert(views[k as int].stack_id == id@);
            return true;
        }
        k += 1;
    }
    false
}

fn collect_branches(stack_id: &String, rows: &Vec<VbStackHead>) -> (r: Vec<StackBranch>)
    requires
        forall|k: int|
            0 <= k < rows.len() ==> ((#[trigger] rows@[k]).pr_number is Some ==> 0
                <= rows@[k].pr_number->0 <= usize::MAX),
    ensures
        r@.map_values(|x: StackBranch| x@) == branches_of(
            stack_id@,
            rows@.map_values(|x: VbStackHead| x@),
        ),
{
    let ghost views = rows@.map_values(|x: VbStackHead| x@);
    let mut out: Vec<StackBranch> = Vec::new();
    let mut k: usize = 0;
    proof {
        assert(out@.map_values(|x: StackBranch| x@) =~= branches_of(stack_id@, views.take(0)));
    }
    while k < rows.len()
        invariant
            k <= rows.len(),
            views == rows@.map_values(|x: VbStackHead| x@),
            forall|j: int|
                0 <= j < rows.len() ==> ((#[trigger] rows@[j]).pr_number is Some ==> 0
                    <= rows@[j].pr_number->0 <= usize::MAX),
            out@.map_values(|x: StackBranch| x@) == branches_of(stack_id@, views.take(k as int)),
        decreases rows.len() - k,
    {
        let row = &rows[k];
        proof {
            assert(views.take(k + 1).drop_last() =~= views.take(k as int));
            assert(views.take(k + 1).last() == row@);
        }
        if row.stack_id == *stack_id {
            let pr_number = match row.pr_number {
                Some(n) => Some(n as usize),
                None => None,
            };
            let b = StackBranch {
                head: row.head_sha.clone(),
                name: row.name.clone(),
                pr_number,
                archived: row.archived,
                review_id: clone_opt(&row.review_id),
            };
            proof {
                assert(b@ == branch_of(row@));
                assert(out@.push(b).map_values(|x: StackBranch| x@) =~= out@.map_values(
                    |x: StackBranch| x@,
                ).push(b@));
            }
            out.push(b);
        }
        k += 1;
    }
    proof {
        assert(views.take(rows.len() as int) =~= views);
    }
    out
}

fn check_state(state: &VbState) -> (r: Result<(Option<Target>, Option<String>), SyncError>)
    ensures
        match r {
            Ok((target, base)) => state_error(state@) is None && (match target {
                Some(t) => Some(t@),
                None => None,
            }) == default_target_of(state@) && opt_view(base) == state@.last_pushed_base_sha,
            Err(e) => state_error(state@) == Some(e),
        },
{
    let default_target = match (
        &state.default_target_remote_name,
        &state.default_target_branch_name,
        &state.default_target_remote_url,
        &state.default_target_sha,
    ) {
        (Some(remote), Some(branch), Some(remote_url), Some(sha)) => {
            if !check_object_id(sha.as_str()) {
                return Err(SyncError::InvalidDefaultTargetSha);
            }
            Some(
                Target {
                    branch: RemoteRefname { remote: remote.clone(), branch: branch.clone() },
                    remote_url: remote_url.clone(),
                    sha: sha.clone(),
                    push_remote_name: clone_opt(&state.default_target_push_remote_name),
                },
            )
        },
        _ => None,
    };
    let last_pushed_base = match &state.last_pushed_base_sha {
        Some(value) => {
            if !check_object_id(value.as_str()) {
                return Err(SyncError::InvalidLastPushedBase);
            }
            Some(value.clone())
        },
        None => None,
    };
    Ok((default_target, last_pushed_base))
}

fn check_stack_rows(rows: &Vec<VbStack>) -> (r: Option<SyncError>)
    ensures
        r == first_stack_error(rows@.map_values(|x: VbStack| x@)),
{
    let ghost views = rows@.map_values(|x: VbStack| x@);
    let mut i: usize = 0;
    while i < rows.len()
        invariant
            i <= rows.len(),
            views == rows@.map_values(|x: VbStack| x@),
            first_stack_error(views.take(i as int)) is None,
        decreases rows.len() - i,
    {
        let row = &rows[i];
        proof {
            assert(views.take(i + 1).drop_last() =~= views.take(i as int));
            assert(views.take(i + 1).last() == row@);
        }
        let error = if has_stack_id(rows, i, &row.id) {
            Some(SyncError::DuplicateStackId)
        } else if row.sort_order < 0 || row.sort_order as u128 > usize::MAX as u128 {
            Some(SyncError::InvalidSortOrder)
        } else if !check_object_id(row.legacy_tree_sha.as_str()) {
            Some(SyncError::InvalidTreeSha)
        } else if parse_u128(row.legacy_created_timestamp_ms.as_str()).is_none() || parse_u128(
            row.legacy_updated_timestamp_ms.as_str(),
        ).is_none() {
            Some(SyncError::InvalidTimestamp)
        } else if !check_object_id(row.legacy_head_sha.as_str()) {
            Some(SyncError::InvalidStackHeadSha)
        } else {
            None
        };
        assert(error == stack_row_error(views.take(i as int), row@));
        if error.is_some() {
            proof {
                lemma_first_stack_error_found(views, i + 1);
            }
            return error;
        }
        i += 1;
    }
    proof {
        assert(views.take(rows.len() as int) =~= views);
    }
    None
}

/// Count the heads of the stack `stack_id` among the first `n` head rows,
/// and decide whether one of them has the name `name`.
pub fn scan_stack_heads(heads: &Vec<VbStackHead>, n: usize, stack_id: &String, name: &String) -> (r: (
    usize,
    bool,
))
    requires
        n <= heads.len(),
    ensures
        r.0 == heads_of_stack(heads@.map_values(|x: VbStackHead| x@).take(n as int), stack_id@),
        r.1 == head_name_known(
            heads@.map_values(|x: VbStackHead| x@).take(n as int),
            stack_id@,
            name@,
        ),
{
    let ghost views = heads@.map_values(|x: VbStackHead| x@);
    let mut count: usize = 0;
    let mut found = false;
    let mut k: usize = 0;
    proof {
        assert(views.take(0) =~= Seq::empty());
    }
    while k < n
        invariant
            k <= n <= heads.len(),
            views == heads@.map_values(|x: VbStackHead| x@),
            count == heads_of_stack(views.take(k as int), stack_id@),
            count <= k,
            found == head_name_known(views.take(k as int), stack_id@, name@),
        decreases n - k,
    {
        let row = &heads[k];
        proof {
            assert(views.take(k + 1).drop_last() =~= views.take(k as int));
            assert(views.take(k + 1).last() == row@);
        }
        let ghost before = found;
        if row.stack_id == *stack_id {
            count += 1;
            if row.name == *name {
                found = true;
            }
        }
        proof {
            let now = views.take(k + 1);
            let was = views.take(k as int);
            if found {
                if before {
                    let j = choose|j: int|
                        0 <= j < was.len() && (#[trigger] was[j]).stack_id == stack_id@ && was[j].name
                            == name@;
                    assert(now[j] == was[j]);
                } else {
                    assert(now[k as int].stack_id == stack_id@ && now[k as int].name == name@);
                }
            } else if head_name_known(now, stack_id@, name@) {
                let j = choose|j: int|
                    0 <= j < now.len() && (#[trigger] now[j]).stack_id == stack_id@ && now[j].name
                        == name@;
                if j < k {
                    assert(was[j] == now[j]);
                }
            }
        }
        k += 1;
    }
    (count, found)
}

fn check_head_rows(heads: &Vec<VbStackHead>, stacks: &Vec<VbStack>) -> (r: Option<SyncError>)
    ensures
        r == first_head_error(
            heads@.map_values(|x: VbStackHead| x@),
            stacks@.map_values(|x: VbStack| x@),
        ),
        r is None ==> forall|j: int|
            0 <= j < heads.len() ==> ((#[trigger] heads@[j]).pr_number is Some ==> 0
                <= heads@[j].pr_number->0 <= usize::MAX),
{
    let ghost stack_views = stacks@.map_values(|x: VbStack| x@);
    let ghost head_views = heads@.map_values(|x: VbStackHead| x@);
    let mut h: usize = 0;
    while h < heads.len()
        invariant
            h <= heads.len(),
            stack_views == stacks@.map_values(|x: VbStack| x@),
            head_views == heads@.map_values(|x: VbStackHead| x@),
            first_head_error(head_views.take(h as int), stack_views) is None,
            forall|j: int|
                0 <= j < h ==> ((#[trigger] heads@[j]).pr_number is Some ==> 0
                    <= heads@[j].pr_number->0 <= usize::MAX),
        decreases heads.len() - h,
    {
        let row = &heads[h];
        proof {
            assert(head_views.take(h + 1).drop_last() =~= head_views.take(h as int));
            assert(head_views.take(h + 1).last() == row@);
            assert(stack_views.take(stacks.len() as int) =~= stack_views);
        }
        let (before, name_taken) = scan_stack_heads(heads, h, &row.stack_id, &row.name);
        let error = if !has_stack_id(stacks, stacks.len(), &row.stack_id) {
            Some(SyncError::MissingStack)
        } else if row.position < 0 || row.position as u128 != before as u128 {
            Some(SyncError::NonContiguousPositions)
        } else if name_taken {
            Some(SyncError::DuplicateHeadName)
        } else if !check_object_id(row.head_sha.as_str()) {
            Some(SyncError::InvalidHeadSha)
        } else {
            match row.pr_number {
                Some(n) => if n < 0 || n as u128 > usize::MAX as u128 {
                    Some(SyncError::InvalidPrNumber)
                } else {
                    None
                },
                None => None,
            }
        };
        assert(error == head_row_error(stack_views, head_views.take(h as int), row@));
        if error.is_some() {
            proof {
                lemma_first_head_error_found(head_views, stack_views, h + 1);
            }
            return error;
        }
        h += 1;
    }
    proof {
        assert(head_views.take(heads.len() as int) =~= head_views);
    }
    None
}

fn convert_targets(rows: &Vec<VbBranchTarget>) -> (r: Result<Vec<StackTarget>, SyncError>)
    ensures
        match r {
            Ok(targets) => first_target_error(rows@.map_values(|x: VbBranchTarget| x@)) is None
                && targets@.map_values(|x: StackTarget| x@) == rows@.map_values(
                |x: VbBranchTarget| x@,
            ).map_values(|t: VbBranchTargetView| legacy_target(t)),
            Err(e) => first_target_error(rows@.map_values(|x: VbBranchTarget| x@)) == Some(e),
        },
{
    let ghost target_views = rows@.map_values(|x: VbBranchTarget| x@);
    let mut branch_targets: Vec<StackTarget> = Vec::new();
    let mut t: usize = 0;
    while t < rows.len()
        invariant
            t <= rows.len(),
            target_views == rows@.map_values(|x: VbBranchTarget| x@),
            first_target_error(target_views.take(t as int)) is None,
            branch_targets@.map_values(|x: StackTarget| x@) == target_views.take(
                t as int,
            ).map_values(|t: VbBranchTargetView| legacy_target(t)),
        decreases rows.len() - t,
    {
        let row = &rows[t];
        proof {
            assert(target_views.take(t + 1).drop_last() =~= target_views.take(t as int));
            assert(target_views.take(t + 1).last() == row@);
        }
        let error = if has_target_id(rows, t, &row.stack_id) {
            Some(SyncError::DuplicateStackId)
        } else if !check_object_id(row.sha.as_str()) {
            Some(SyncError::InvalidTargetSha)
        } else {
            None
        };
        assert(error == target_row_error(target_views.take(t as int), row@));
        if let Some(e) = error {
            proof {
                lemma_first_target_error_found(target_views, t + 1);
            }
            return Err(e);
        }
        let target = StackTarget {
            stack_id: row.stack_id.clone(),
            target: Target {
                branch: RemoteRefname {
                    remote: row.remote_name.clone(),
                    branch: row.branch_name.clone(),
                },
                remote_url: row.remote_url.clone(),
                sha: row.sha.clone(),
                push_remote_name: clone_opt(&row.push_remote_name),
            },
        };
        proof {
            assert(target@ == legacy_target(row@));
            assert(branch_targets@.push(target).map_values(|x: StackTarget| x@)
                =~= branch_targets@.map_values(|x: StackTarget| x@).push(target@));
            assert(target_views.take(t + 1) =~= target_views.take(t as int).push(row@));
            assert(target_views.take(t as int).push(row@).map_values(
                |t: VbBranchTargetView| legacy_target(t),
            ) =~= target_views.take(t as int).map_values(
                |t: VbBranchTargetView| legacy_target(t),
            ).push(legacy_target(row@)));
        }
        branch_targets.push(target);
        t += 1;
    }
    proof {
        assert(target_views.take(rows.len() as int) =~= target_views);
    }
    Ok(branch_targets)
}

fn build_stack(row: &VbStack, heads: &Vec<VbStackHead>) -> (r: Stack)
    requires
        0 <= row.sort_order <= usize::MAX,
        parsed_decimal(row.legacy_created_timestamp_ms@) is Some,
        parsed_decimal(row.legacy_updated_timestamp_ms@) is Some,
        forall|j: int|
            0 <= j < heads.len() ==> ((#[trigger] heads@[j]).pr_number is Some ==> 0
                <= heads@[j].pr_number->0 <= usize::MAX),
    ensures
        r@ == legacy_stack(row@, branches_of(row@.id, heads@.map_values(|x: VbStackHead| x@))),
{
    let heads = collect_branches(&row.id, heads);
    let upstream = match (&row.upstream_remote_name, &row.upstream_branch_name) {
        (Some(remote), Some(branch)) => Some(
            RemoteRefname { remote: remote.clone(), branch: branch.clone() },
        ),
        _ => None,
    };
    let created_timestamp_ms = match parse_u128(row.legacy_created_timestamp_ms.as_str()) {
        Some(c) => c,
        None => 0,
    };
    let updated_timestamp_ms = match parse_u128(row.legacy_updated_timestamp_ms.as_str()) {
        Some(u) => u,
        None => 0,
    };
    Stack {
        id: row.id.clone(),
        source_refname: clone_opt(&row.source_refname),
        upstream,
        order: row.sort_order as usize,
        in_workspace: row.in_workspace,
        heads,
        notes: row.legacy_notes.clone(),
        ownership: row.legacy_ownership.clone(),
        allow_rebasing: row.legacy_allow_rebasing,
        post_commits: row.legacy_post_commits,
        tree: row.legacy_tree_sha.clone(),
        created_timestamp_ms,
        updated_timestamp_ms,
        name: row.legacy_name.clone(),
        head: row.legacy_head_sha.clone(),
    }
}

fn build_stacks(stacks: &Vec<VbStack>, heads: &Vec<VbStackHead>) -> (r: Vec<Stack>)
    requires
        first_stack_error(stacks@.map_values(|x: VbStack| x@)) is None,
        forall|j: int|
            0 <= j < heads.len() ==> ((#[trigger] heads@[j]).pr_number is Some ==> 0
                <= heads@[j].pr_number->0 <= usize::MAX),
    ensures
        r@.map_values(|x: Stack| x@) == stacks@.map_values(|x: VbStack| x@).map_values(
            |r: VbStackView|
                legacy_stack(r, branches_of(r.id, heads@.map_values(|x: VbStackHead| x@))),
        ),
{
    let ghost stack_views = stacks@.map_values(|x: VbStack| x@);
    let ghost head_views = heads@.map_values(|x: VbStackHead| x@);
    let mut branches: Vec<Stack> = Vec::new();
    let mut s: usize = 0;
    while s < stacks.len()
        invariant
            s <= stacks.len(),
            stack_views == stacks@.map_values(|x: VbStack| x@),
            head_views == heads@.map_values(|x: VbStackHead| x@),
            first_stack_error(stack_views) is None,
            forall|j: int|
                0 <= j < heads.len() ==> ((#[trigger] heads@[j]).pr_number is Some ==> 0
                    <= heads@[j].pr_number->0 <= usize::MAX),
            branches@.map_values(|x: Stack| x@) == stack_views.take(s as int).map_values(
                |r: VbStackView| legacy_stack(r, branches_of(r.id, head_views)),
            ),
        decreases stacks.len() - s,
    {
        let row = &stacks[s];
        proof {
            assert(stack_views[s as int] == row@);
            lemma_stack_row_valid(stack_views, s as int);
        }
        let stack = build_stack(row, heads);
        proof {
            assert(branches@.push(stack).map_values(|x: Stack| x@) =~= branches@.map_values(
                |x: Stack| x@,
            ).push(stack@));
            assert(stack_views.take(s + 1) =~= stack_views.take(s as int).push(row@));
            assert(stack_views.take(s as int).push(row@).map_values(
                |r: VbStackView| legacy_stack(r, branches_of(r.id, head_views)),
            ) =~= stack_views.take(s as int).map_values(
                |r: VbStackView| legacy_stack(r, branches_of(r.id, head_views)),
            ).push(legacy_stack(row@, branches_of(row@.id, head_views))));
        }
        branches.push(stack);
        s += 1;
    }
    proof {
        assert(stack_views.take(stacks.len() as int) =~= stack_views);
    }
    branches
}

/// Convert a snapshot of the store into the content of the mirror file.
pub fn snapshot_to_legacy(snapshot: &VirtualBranchesSnapshot) -> (r: Result<
    VirtualBranches,
    SyncError,
>)
    ensures
        legacy_result_view(r) == snapshot_to_legacy_spec(snapshot@),
{
    let (default_target, last_pushed_base) = match check_state(&snapshot.state) {
        Ok(parts) => parts,
        Err(e) => {
            return Err(e);
        },
    };
    if let Some(e) = check_stack_rows(&snapshot.stacks) {
        return Err(e);
    }
    if let Some(e) = check_head_rows(&snapshot.heads, &snapshot.stacks) {
        return Err(e);
    }
    let branch_targets = match convert_targets(&snapshot.branch_targets) {
        Ok(targets) => targets,
        Err(e) => {
            return Err(e);
        },
    };
    let branches = build_stacks(&snapshot.stacks, &snapshot.heads);
    Ok(VirtualBranches { default_target, branch_targets, branches, last_pushed_base })
}

/// Where no stack row is invalid, each single row is valid.
proof fn lemma_stack_row_valid(rows: Seq<VbStackView>, k: int)
    requires
        0 <= k < rows.len(),
        first_stack_error(rows) is None,
    ensures
        stack_row_error(rows.take(k), rows[k]) is None,
    decreases rows.len(),
{
    if k == rows.len() - 1 {
        assert(rows.drop_last() =~= rows.take(k));
    } else {
        lemma_stack_row_valid(rows.drop_last(), k);
        assert(rows.drop_last().take(k) =~= rows.take(k));
    }
}

/// The mathematical value of a [`TomlInfo`].
pub enum TomlInfoView {
    /// There is no file.
    Missing,
    /// The file was read and parsed.
    Parsed { data: VirtualBranchesView, mtime_ns: i64, sha256: Seq<char> },
    /// The file exists but is not valid.
    Invalid,
}

impl View for TomlInfo {
    type V = TomlInfoView;

    open spec fn view(&self) -> TomlInfoView {
        match self {
            TomlInfo::Missing => TomlInfoView::Missing,
            TomlInfo::Parsed(p) => TomlInfoView::Parsed {
                data: p.data@,
                mtime_ns: p.mtime_ns,
                sha256: p.sha256_hexdigest@,
            },
            TomlInfo::Invalid => TomlInfoView::Invalid,
        }
    }
}

/// What has to happen to bring store and mirror file to agree.
#[derive(Debug, Clone, PartialEq, Eq)]
pub enum SyncPlan {
    /// Store and file agree. `data` is the store's content.
    InSync { data: VirtualBranches },
    /// The file is fresher: persist `snapshot`. `data` is the file's content.
    Import { snapshot: VirtualBranchesSnapshot, data: VirtualBranches },
    /// The store is fresher, or the file is unusable: write `data` to the
    /// file, record the written file's metadata in `snapshot` with
    /// [`record_written_file`], and persist the result.
    Rewrite { snapshot: VirtualBranchesSnapshot, data: VirtualBranches },
}

/// The mathematical value of a [`SyncPlan`].
pub enum SyncPlanView {
    /// Store and file agree.
    InSync { data: VirtualBranchesView },
    /// The file is fresher.
    Import { snapshot: VirtualBranchesSnapshotView, data: VirtualBranchesView },
    /// The store is fresher, or the file is unusable.
    Rewrite { snapshot: VirtualBranchesSnapshotView, data: VirtualBranchesView },
}

impl View for SyncPlan {
    type V = SyncPlanView;

    open spec fn view(&self) -> SyncPlanView {
        match self {
            SyncPlan::InSync { data } => SyncPlanView::InSync { data: data@ },
            SyncPlan::Import { snapshot, data } => SyncPlanView::Import {
                snapshot: snapshot@,
                data: data@,
            },
            SyncPlan::Rewrite { snapshot, data } => SyncPlanView::Rewrite {
                snapshot: snapshot@,
                data: data@,
            },
        }
    }
}

/// The view of a planning result.
pub open spec fn plan_result_view(r: Result<SyncPlan, SyncError>) -> Result<
    SyncPlanView,
    SyncError,
> {
    match r {
        Ok(p) => Ok(p@),
        Err(e) => Err(e),
    }
}

/// The content of the store, where a store never written counts as empty
/// and uninitialized.
pub open spec fn stored_view(stored: Option<VirtualBranchesSnapshot>) -> VirtualBranchesSnapshotView {
    match stored {
        Some(s) => s@,
        None => VirtualBranchesSnapshot::empty_view(),
    }
}

/// The plan that imports a parsed file.
pub open spec fn import_plan(data: VirtualBranchesView, mtime_ns: i64, sha256: Seq<char>) -> Result<
    SyncPlanView,
    SyncError,
> {
    match legacy_to_snapshot_spec(data, Some(mtime_ns), Some(sha256)) {
        Ok(snapshot) => Ok(SyncPlanView::Import { snapshot, data }),
        Err(e) => Err(e),
    }
}

/// The synchronization rules.
///
/// An uninitialized store imports a parsed file, and otherwise starts from an
/// empty workspace that is written out. An initialized store rewrites a
/// missing or invalid file from its own content. Else the freshness rule
/// decides: a newer file is imported, an older one rewritten, an unchanged
/// one left alone.
pub open spec fn sync_plan_spec(stored: VirtualBranchesSnapshotView, toml: TomlInfoView) -> Result<
    SyncPlanView,
    SyncError,
> {
    if !stored.state.initialized {
        match toml {
            TomlInfoView::Parsed { data, mtime_ns, sha256 } => import_plan(data, mtime_ns, sha256),
            _ => match legacy_to_snapshot_spec(
                VirtualBranches::empty_view(),
                stored.state.toml_last_seen_mtime_ns,
                stored.state.toml_last_seen_sha256,
            ) {
                Ok(snapshot) => Ok(
                    SyncPlanView::Rewrite { snapshot, data: VirtualBranches::empty_view() },
                ),
                Err(e) => Err(e),
            },
        }
    } else {
        match snapshot_to_legacy_spec(stored) {
            Err(e) => Err(e),
            Ok(db_data) => match toml {
                TomlInfoView::Parsed { data, mtime_ns, sha256 } => match toml_compare_spec(
                    stored.state.toml_last_seen_mtime_ns,
                    stored.state.toml_last_seen_sha256,
                    mtime_ns,
                    sha256,
                ) {
                    Freshness::FileNewer => import_plan(data, mtime_ns, sha256),
                    Freshness::Same => Ok(SyncPlanView::InSync { data: db_data }),
                    Freshness::StoreNewer => Ok(
                        SyncPlanView::Rewrite { snapshot: stored, data: db_data },
                    ),
                },
                _ => Ok(SyncPlanView::Rewrite { snapshot: stored, data: db_data }),
            },
        }
    }
}

fn plan_import(parsed: ParsedToml) -> (r: Result<SyncPlan, SyncError>)
    ensures
        plan_result_view(r) == import_plan(
            parsed.data@,
            parsed.mtime_ns,
            parsed.sha256_hexdigest@,
        ),
{
    let info = DbTomlFileState {
        toml_last_seen_mtime_ns: Some(parsed.mtime_ns),
        toml_last_seen_sha256: Some(parsed.sha256_hexdigest),
    };
    match legacy_to_snapshot(&parsed.data, info) {
        Ok(snapshot) => Ok(SyncPlan::Import { snapshot, data: parsed.data }),
        Err(e) => Err(e),
    }
}

/// Decide how to bring the store and the mirror file to agree.
///
/// `stored` is what the store holds (`None` if it was never written) and
/// `toml_info` what was found on disk.
pub fn ensure_vb_storage_in_sync(
    stored: Option<VirtualBranchesSnapshot>,
    toml_info: TomlInfo,
) -> (r: Result<SyncPlan, SyncError>)
    ensures
        plan_result_view(r) == sync_plan_spec(stored_view(stored), toml_info@),
{
    let snapshot = match stored {
        Some(s) => s,
        None => VirtualBranchesSnapshot::default(),
    };
    if !snapshot.state.initialized {
        return match toml_info {
            TomlInfo::Parsed(parsed) => plan_import(parsed),
            _ => {
                let empty = VirtualBranches::default();
                match legacy_to_snapshot(&empty, into_db_toml_file_info(snapshot.state)) {
                    Ok(db_snapshot) => Ok(SyncPlan::Rewrite { snapshot: db_snapshot, data: empty }),
                    Err(e) => Err(e),
                }
            },
        };
    }
    let db_data = match snapshot_to_legacy(&snapshot) {
        Ok(data) => data,
        Err(e) => {
            return Err(e);
        },
    };
    match toml_info {
        TomlInfo::Parsed(parsed) => {
            match toml_compare(&snapshot.state, parsed.mtime_ns, parsed.sha256_hexdigest.as_str()) {
                Freshness::FileNewer => plan_import(parsed),
                Freshness::Same => Ok(SyncPlan::InSync { data: db_data }),
                Freshness::StoreNewer => Ok(SyncPlan::Rewrite { snapshot, data: db_data }),
            }
        },
        _ => Ok(SyncPlan::Rewrite { snapshot, data: db_data }),
    }
}

/// `snapshot` with the metadata of the file just written recorded as last
/// seen.
pub open spec fn with_written_file(
    snapshot: VirtualBranchesSnapshotView,
    mtime_ns: i64,
    sha256: Seq<char>,
) -> VirtualBranchesSnapshotView {
    VirtualBranchesSnapshotView { state: with_last_seen(snapshot.state, mtime_ns, sha256), ..snapshot }
}

/// Record in `snapshot` the metadata of the mirror file as it was just
/// written.
pub fn record_written_file(snapshot: VirtualBranchesSnapshot, written: &TomlFileState) -> (r:
    VirtualBranchesSnapshot)
    ensures
        r@ == with_written_file(snapshot@, written.mtime_ns, written.sha256_hexdigest@),
{
    let mut snapshot = snapshot;
    let mut state = snapshot.state;
    written.update_last_seen_metadata_on(&mut state);
    VirtualBranchesSnapshot {
        state,
        stacks: snapshot.stacks,
        heads: snapshot.heads,
        branch_targets: snapshot.branch_targets,
    }
}

/// Plan a read of the workspace state: the store is the source of truth,
/// once it has been reconciled with the mirror file.
pub fn read_synced_virtual_branches(
    stored: Option<VirtualBranchesSnapshot>,
    toml_info: TomlInfo,
) -> (r: Result<SyncPlan, SyncError>)
    ensures
        plan_result_view(r) == sync_plan_spec(stored_view(stored), toml_info@),
{
    ensure_vb_storage_in_sync(stored, toml_info)
}

/// The snapshot that stores `vb` in a store that holds `stored`: the
/// store's last-seen file metadata is carried over.
pub open spec fn write_spec(stored: VirtualBranchesSnapshotView, vb: VirtualBranchesView) -> Result<
    VirtualBranchesSnapshotView,
    SyncError,
> {
    legacy_to_snapshot_spec(
        vb,
        stored.state.toml_last_seen_mtime_ns,
        stored.state.toml_last_seen_sha256,
    )
}

/// Compute the snapshot that stores `vb`, given what the store holds after
/// it was reconciled with the mirror file. The caller writes `vb` to the
/// file, records the written file with [`record_written_file`], and
/// persists the result.
pub fn write_virtual_branches_and_sync(
    stored: Option<VirtualBranchesSnapshot>,
    vb: &VirtualBranches,
) -> (r: Result<VirtualBranchesSnapshot, SyncError>)
    ensures
        snapshot_result_view(r) == write_spec(stored_view(stored), vb@),
{
    let db_state = match stored {
        Some(s) => s.state,
        None => VbState::default(),
    };
    legacy_to_snapshot(vb, into_db_toml_file_info(db_state))
}

/// The snapshot that a forced import persists: the file's content with the
/// file's metadata recorded, or a refusal where the file is missing or
/// invalid.
pub open spec fn import_spec(toml: TomlInfoView) -> Result<VirtualBranchesSnapshotView, SyncError> {
    match toml {
        TomlInfoView::Parsed { data, mtime_ns, sha256 } => legacy_to_snapshot_spec(
            data,
            Some(mtime_ns),
            Some(sha256),
        ),
        _ => Err(SyncError::TomlUnavailable),
    }
}

/// Compute the snapshot that overwrites the store with the mirror file,
/// whatever the store holds.
pub fn import_toml_into_db(toml_info: TomlInfo) -> (r: Result<VirtualBranchesSnapshot, SyncError>)
    ensures
        snapshot_result_view(r) == import_spec(toml_info@),
{
    match toml_info {
        TomlInfo::Parsed(parsed) => {
            let info = DbTomlFileState {
                toml_last_seen_mtime_ns: Some(parsed.mtime_ns),
                toml_last_seen_sha256: Some(parsed.sha256_hexdigest),
            };
            legacy_to_snapshot(&parsed.data, info)
        },
        _ => Err(SyncError::TomlUnavailable),
    }
}

/// What the store holds once a plan has been carried out, where `written`
/// is the metadata of the file in case the plan rewrote it.
pub open spec fn store_after(
    stored: VirtualBranchesSnapshotView,
    plan: SyncPlanView,
    written_mtime_ns: i64,
    written_sha256: Seq<char>,
) -> VirtualBranchesSnapshotView {
    match plan {
        SyncPlanView::InSync { data } => stored,
        SyncPlanView::Import { snapshot, data } => snapshot,
        SyncPlanView::Rewrite { snapshot, data } => with_written_file(
            snapshot,
            written_mtime_ns,
            written_sha256,
        ),
    }
}

/// The metadata of the file on disk once a plan has been carried out.
pub open spec fn file_after(
    toml: TomlInfoView,
    plan: SyncPlanView,
    written_mtime_ns: i64,
    written_sha256: Seq<char>,
) -> (i64, Seq<char>) {
    match plan {
        SyncPlanView::Rewrite { snapshot, data } => (written_mtime_ns, written_sha256),
        _ => match toml {
            TomlInfoView::Parsed { data, mtime_ns, sha256 } => (mtime_ns, sha256),
            _ => (written_mtime_ns, written_sha256),
        },
    }
}

/// After a synchronization the store has recorded exactly the modification
/// time and the hash of the file on disk, and is initialized.
pub proof fn lemma_sync_records_file(
    stored: VirtualBranchesSnapshotView,
    toml: TomlInfoView,
    written_mtime_ns: i64,
    written_sha256: Seq<char>,
)
    requires
        sync_plan_spec(stored, toml) is Ok,
    ensures
        ({
            let plan = sync_plan_spec(stored, toml)->Ok_0;
            let after = store_after(stored, plan, written_mtime_ns, written_sha256);
            let file = file_after(toml, plan, written_mtime_ns, written_sha256);
            &&& after.state.toml_last_seen_mtime_ns == Some(file.0)
            &&& after.state.toml_last_seen_sha256 == Some(file.1)
            &&& after.state.initialized
        }),
{
}

/// A synchronization that found store and file in agreement changes
/// nothing; run again on its own outcome, it finds them in agreement.
pub proof fn lemma_in_sync_is_stable(stored: VirtualBranchesSnapshotView, toml: TomlInfoView)
    requires
        sync_plan_spec(stored, toml) is Ok,
        sync_plan_spec(stored, toml)->Ok_0 is InSync,
    ensures
        toml is Parsed,
        stored.state.initialized,
        stored.state.toml_last_seen_mtime_ns == Some(toml->mtime_ns),
        stored.state.toml_last_seen_sha256 == Some(toml->sha256),
{
}

/// The SHA-256 of a content, as lower-case hex text.
pub uninterp spec fn sha256_hex(bytes: Seq<u8>) -> Seq<char>;

/// `Sha256::digest` of `sha2`, written out byte by byte as two lower-case
/// hex digits: the hash of the content, which depends on its bytes alone.
#[verifier::external_body]
fn sha256_hex_hash(bytes: &[u8]) -> (r: String)
    ensures
        r@ == sha256_hex(bytes@),
{
    let digest = <sha2::Sha256 as sha2::Digest>::digest(bytes);
    let mut text = String::new();
    for byte in digest.iter() {
        text.push_str(&format!("{:02x}", byte));
    }
    text
}

/// The modification time of a file whose distance from the epoch is
/// `nanos` nanoseconds, if it fits.
pub fn file_mtime_ns(nanos: u128) -> (r: Option<i64>)
    ensures
        r == (if nanos <= i64::MAX {
            Some(nanos as i64)
        } else {
            None
        }),
{
    if nanos <= i64::MAX as u128 {
        Some(nanos as i64)
    } else {
        None
    }
}

/// The metadata of the mirror file with the given bytes and modification
/// time.
pub fn toml_file_state(bytes: &[u8], mtime_ns: i64) -> (r: TomlFileState)
    ensures
        r.mtime_ns == mtime_ns,
        r.sha256_hexdigest@ == sha256_hex(bytes@),
{
    TomlFileState { mtime_ns, sha256_hexdigest: sha256_hex_hash(bytes) }
}

/// What was read where the mirror file should be.
#[derive(Debug, Clone, PartialEq, Eq)]
pub enum TomlRead {
    /// There is no file.
    Missing,
    /// The file's bytes and modification time.
    Found { bytes: Vec<u8>, mtime_ns: i64 },
}

/// What was found where the mirror file should be, given what was read
/// and what the bytes parse to: a file that does not parse is invalid, and
/// one that does is described by its content, modification time and hash.
pub open spec fn toml_info_spec(read: TomlRead, parsed: Option<VirtualBranchesView>) -> TomlInfoView {
    match read {
        TomlRead::Missing => TomlInfoView::Missing,
        TomlRead::Found { bytes, mtime_ns } => match parsed {
            Some(data) => TomlInfoView::Parsed { data, mtime_ns, sha256: sha256_hex(bytes@) },
            None => TomlInfoView::Invalid,
        },
    }
}

/// Describe the mirror file from what was read and what its bytes parse
/// to; `parsed` is `None` where the bytes are no text or no valid file.
pub fn read_toml_info(read: TomlRead, parsed: Option<VirtualBranches>) -> (r: TomlInfo)
    ensures
        r@ == toml_info_spec(
            read,
            match parsed {
                Some(d) => Some(d@),
                None => None,
            },
        ),
{
    match read {
        TomlRead::Missing => TomlInfo::Missing,
        TomlRead::Found { bytes, mtime_ns } => match parsed {
            Some(data) => {
                let sha256_hexdigest = sha256_hex_hash(bytes.as_slice());
                TomlInfo::Parsed(ParsedToml { data, mtime_ns, sha256_hexdigest })
            },
            None => TomlInfo::Invalid,
        },
    }
}

/// Whether one of `stacks` has the id `id`.
pub open spec fn holds_stack(stacks: Seq<StackView>, id: Seq<char>) -> bool {
    exists|k: int| 0 <= k < stacks.len() && (#[trigger] stacks[k]).id == id
}

/// Whether every stack id occurs once among `stacks`.
pub open spec fn stack_ids_occur_once(stacks: Seq<StackView>) -> bool {
    forall|i: int, j: int| 0 <= i < j < stacks.len() ==> stacks[i].id != stacks[j].id
}

/// Whether there is at most one target for a stack among `targets`.
pub open spec fn target_ids_occur_once(targets: Seq<StackTargetView>) -> bool {
    forall|i: int, j: int| 0 <= i < j < targets.len() ==> targets[i].stack_id != targets[j].stack_id
}

/// Whether a mirror file is keyed as its tables are: every stack id occurs
/// once among the stacks, and once at most among the targets.
pub open spec fn keyed_by_stack_id(vb: VirtualBranchesView) -> bool {
    stack_ids_occur_once(vb.branches) && target_ids_occur_once(vb.branch_targets)
}

proof fn lemma_insert_stack_is_insert(sorted: Seq<StackView>, x: StackView) -> (p: int)
    ensures
        0 <= p <= sorted.len(),
        insert_stack(sorted, x) == sorted.insert(p, x),
    decreases sorted.len(),
{
    if sorted.len() == 0 {
        assert(sorted.insert(0, x) =~= seq![x]);
        0
    } else if stack_key_le(sorted.last(), x) {
        assert(sorted.insert(sorted.len() as int, x) =~= sorted.push(x));
        sorted.len() as int
    } else {
        let p = lemma_insert_stack_is_insert(sorted.drop_last(), x);
        assert(sorted.insert(p, x) =~= sorted.drop_last().insert(p, x).push(sorted.last()));
        p
    }
}

proof fn lemma_sorted_stacks_keep_ids(items: Seq<StackView>)
    requires
        stack_ids_occur_once(items),
    ensures
        stack_ids_occur_once(stacks_by_order(items)),
        stacks_by_order(items).len() == items.len(),
        forall|id: Seq<char>| holds_stack(stacks_by_order(items), id) <==> holds_stack(items, id),
    decreases items.len(),
{
    if items.len() > 0 {
        let front = items.drop_last();
        let x = items.last();
        assert forall|i: int, j: int| 0 <= i < j < front.len() implies front[i].id != front[j].id by {
            assert(items[i].id != items[j].id);
        }
        lemma_sorted_stacks_keep_ids(front);
        let sorted = stacks_by_order(front);
        let p = lemma_insert_stack_is_insert(sorted, x);
        let out = stacks_by_order(items);
        assert(out == sorted.insert(p, x));
        // The id of the last stack is new among the sorted ones.
        if holds_stack(sorted, x.id) {
            assert(holds_stack(front, x.id));
            let k = choose|k: int| 0 <= k < front.len() && (#[trigger] front[k]).id == x.id;
            assert(items[k].id != items[items.len() - 1].id);
        }
        assert forall|i: int, j: int| 0 <= i < j < out.len() implies out[i].id != out[j].id by {
            if i == p {
                assert(out[j] == sorted[j - 1]);
            } else if j == p {
                assert(out[i] == sorted[i]);
            } else {
                let a = if i < p {
                    i
                } else {
                    i - 1
                };
                let b = if j < p {
                    j
                } else {
                    j - 1
                };
                assert(out[i] == sorted[a] && out[j] == sorted[b]);
            }
        }
        assert forall|id: Seq<char>| holds_stack(out, id) <==> holds_stack(items, id) by {
            if holds_stack(out, id) {
                let k = choose|k: int| 0 <= k < out.len() && (#[trigger] out[k]).id == id;
                if k == p {
                    assert(items[items.len() - 1].id == id);
                } else {
                    let a = if k < p {
                        k
                    } else {
                        k - 1
                    };
                    assert(sorted[a].id == id);
                    assert(holds_stack(front, id));
                    let m = choose|m: int| 0 <= m < front.len() && (#[trigger] front[m]).id == id;
                    assert(items[m].id == id);
                }
            }
            if holds_stack(items, id) {
                let k = choose|k: int| 0 <= k < items.len() && (#[trigger] items[k]).id == id;
                if k == items.len() - 1 {
                    assert(out[p].id == id);
                } else {
                    assert(front[k].id == id);
                    assert(holds_stack(front, id));
                    assert(holds_stack(sorted, id));
                    let m = choose|m: int| 0 <= m < sorted.len() && (#[trigger] sorted[m]).id == id;
                    let b = if m < p {
                        m
                    } else {
                        m + 1
                    };
                    assert(out[b] == sorted[m]);
                }
            }
        }
    }
}

/// Whether one of `targets` is for the stack `id`.
pub open spec fn holds_target(targets: Seq<StackTargetView>, id: Seq<char>) -> bool {
    exists|k: int| 0 <= k < targets.len() && (#[trigger] targets[k]).stack_id == id
}

proof fn lemma_insert_target_is_insert(sorted: Seq<StackTargetView>, x: StackTargetView) -> (p: int)
    ensures
        0 <= p <= sorted.len(),
        insert_target(sorted, x) == sorted.insert(p, x),
    decreases sorted.len(),
{
    if sorted.len() == 0 {
        assert(sorted.insert(0, x) =~= seq![x]);
        0
    } else if target_key_le(sorted.last(), x) {
        assert(sorted.insert(sorted.len() as int, x) =~= sorted.push(x));
        sorted.len() as int
    } else {
        let p = lemma_insert_target_is_insert(sorted.drop_last(), x);
        assert(sorted.insert(p, x) =~= sorted.drop_last().insert(p, x).push(sorted.last()));
        p
    }
}

proof fn lemma_sorted_targets_keep_ids(items: Seq<StackTargetView>)
    requires
        target_ids_occur_once(items),
    ensures
        target_ids_occur_once(targets_by_stack(items)),
        targets_by_stack(items).len() == items.len(),
        forall|id: Seq<char>| holds_target(targets_by_stack(items), id) <==> holds_target(items, id),
    decreases items.len(),
{
    if items.len() > 0 {
        let front = items.drop_last();
        let x = items.last();
        assert forall|i: int, j: int| 0 <= i < j < front.len() implies front[i].stack_id != front[j].stack_id by {
            assert(items[i].stack_id != items[j].stack_id);
        }
        lemma_sorted_targets_keep_ids(front);
        let sorted = targets_by_stack(front);
        let p = lemma_insert_target_is_insert(sorted, x);
        let out = targets_by_stack(items);
        assert(out == sorted.insert(p, x));
        // The stack of the last target is new among the sorted ones.
        if holds_target(sorted, x.stack_id) {
            assert(holds_target(front, x.stack_id));
            let k = choose|k: int| 0 <= k < front.len() && (#[trigger] front[k]).stack_id == x.stack_id;
            assert(items[k].stack_id != items[items.len() - 1].stack_id);
        }
        assert forall|i: int, j: int| 0 <= i < j < out.len() implies out[i].stack_id != out[j].stack_id by {
            if i == p {
                assert(out[j] == sorted[j - 1]);
            } else if j == p {
                assert(out[i] == sorted[i]);
            } else {
                let a = if i < p {
                    i
                } else {
                    i - 1
                };
                let b = if j < p {
                    j
                } else {
                    j - 1
                };
                assert(out[i] == sorted[a] && out[j] == sorted[b]);
            }
        }
        assert forall|id: Seq<char>| holds_target(out, id) <==> holds_target(items, id) by {
            if holds_target(out, id) {
                let k = choose|k: int| 0 <= k < out.len() && (#[trigger] out[k]).stack_id == id;
                if k == p {
                    assert(items[items.len() - 1].stack_id == id);
                } else {
                    let a = if k < p {
                        k
                    } else {
                        k - 1
                    };
                    assert(sorted[a].stack_id == id);
                    assert(holds_target(front, id));
                    let m = choose|m: int| 0 <= m < front.len() && (#[trigger] front[m]).stack_id == id;
                    assert(items[m].stack_id == id);
                }
            }
            if holds_target(items, id) {
                let k = choose|k: int| 0 <= k < items.len() && (#[trigger] items[k]).stack_id == id;
                if k == items.len() - 1 {
                    assert(out[p].stack_id == id);
                } else {
                    assert(front[k].stack_id == id);
                    assert(holds_target(front, id));
                    assert(holds_target(sorted, id));
                    let m = choose|m: int| 0 <= m < sorted.len() && (#[trigger] sorted[m]).stack_id == id;
                    let b = if m < p {
                        m
                    } else {
                        m + 1
                    };
                    assert(out[b] == sorted[m]);
                }
            }
        }
    }
}

/// A mirror file with at most one target for a stack is stored with one
/// target row for each of its targets, each for another stack, in the
/// order of the stack ids.
pub proof fn lemma_written_targets_keep_ids(
    vb: VirtualBranchesView,
    mtime_ns: Option<i64>,
    sha256: Option<Seq<char>>,
)
    requires
        target_ids_occur_once(vb.branch_targets),
        legacy_to_snapshot_spec(vb, mtime_ns, sha256) is Ok,
    ensures
        ({
            let rows = legacy_to_snapshot_spec(vb, mtime_ns, sha256)->Ok_0.branch_targets;
            &&& rows.len() == vb.branch_targets.len()
            &&& forall|i: int, j: int|
                0 <= i < j < rows.len() ==> rows[i].stack_id != rows[j].stack_id
            &&& target_rows_listed(rows)
        }),
{
    let sorted = targets_by_stack(vb.branch_targets);
    let rows = legacy_to_snapshot_spec(vb, mtime_ns, sha256)->Ok_0.branch_targets;
    lemma_sorted_targets_keep_ids(vb.branch_targets);
    lemma_targets_by_stack_is_ordered(vb.branch_targets);
    assert forall|i: int, j: int| 0 <= i < j < rows.len() implies rows[i].stack_id
        != rows[j].stack_id && target_row_le(rows[i], rows[j]) by {
        assert(sorted[i].stack_id != sorted[j].stack_id);
        assert(target_key_le(sorted[i], sorted[j]));
    }
}

/// Whether the stack rows ascend strictly: each row stands before the rows
/// behind it, and none of those before it.
pub open spec fn stack_rows_ascend(rows: Seq<VbStackView>) -> bool {
    forall|i: int, j: int|
        0 <= i < j < rows.len() ==> stack_row_le(rows[i], rows[j]) && !stack_row_le(
            rows[j],
            rows[i],
        )
}

/// A mirror file whose stack ids occur once is stored with one row for
/// each of its stacks, and the rows ascend strictly by `(sort_order, id)`,
/// whatever the order of the stacks in the file: equal orders are told
/// apart by the ids.
pub proof fn lemma_written_stacks_ascend_strictly(
    vb: VirtualBranchesView,
    mtime_ns: Option<i64>,
    sha256: Option<Seq<char>>,
)
    requires
        stack_ids_occur_once(vb.branches),
        legacy_to_snapshot_spec(vb, mtime_ns, sha256) is Ok,
    ensures
        ({
            let rows = legacy_to_snapshot_spec(vb, mtime_ns, sha256)->Ok_0.stacks;
            &&& rows.len() == vb.branches.len()
            &&& stack_rows_ascend(rows)
            &&& forall|i: int, j: int| 0 <= i < j < rows.len() ==> rows[i].id != rows[j].id
            &&& forall|k: int|
                0 <= k < vb.branches.len() ==> exists|m: int|
                    0 <= m < rows.len() && (#[trigger] rows[m]).id == (#[trigger] vb.branches[k]).id
        }),
{
    let sorted = stacks_by_order(vb.branches);
    let rows = legacy_to_snapshot_spec(vb, mtime_ns, sha256)->Ok_0.stacks;
    lemma_sorted_stacks_keep_ids(vb.branches);
    lemma_stacks_by_order_is_ordered(vb.branches);
    assert forall|i: int, j: int| 0 <= i < j < rows.len() implies stack_row_le(rows[i], rows[j])
        && !stack_row_le(rows[j], rows[i]) && rows[i].id != rows[j].id by {
        lemma_all_stacks_fit(sorted, i);
        lemma_all_stacks_fit(sorted, j);
        assert(stack_key_le(sorted[i], sorted[j]));
        assert(sorted[i].id != sorted[j].id);
        if stack_row_le(rows[j], rows[i]) {
            lemma_str_le_antisymmetric(sorted[i].id, sorted[j].id);
        }
    }
    assert forall|k: int| 0 <= k < vb.branches.len() implies exists|m: int|
        0 <= m < rows.len() && (#[trigger] rows[m]).id == (#[trigger] vb.branches[k]).id by {
        assert(holds_stack(vb.branches, vb.branches[k].id));
        assert(holds_stack(sorted, vb.branches[k].id));
        let m = choose|m: int| 0 <= m < sorted.len() && (#[trigger] sorted[m]).id == vb.branches[k].id;
        assert(rows[m].id == sorted[m].id);
    }
}

} // verus!
