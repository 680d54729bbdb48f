//! The metadata store as a value, and the log of snapshots taken of it.
//!
//! Before every mutation of the workspace a snapshot of the store is
//! captured together with the kind and the time of the operation. Where
//! the mutation fails the snapshot is restored. The log only grows at its
//! end, and keeps a bounded number of entries: the oldest ones leave first.

use vstd::prelude::*;
use crate::legacy::{StackView, VirtualBranchesView};
use crate::rows::{
    lemma_listed_heads_is_ordered, lemma_listed_is_stable, lemma_listed_stacks_keeps_ordered,
    lemma_listed_targets_keeps_ordered, list_snapshot, listed, target_row_le,
};
use crate::sync::{
    all_head_rows, has_stack_id, has_target_id, head_name_known, head_row, heads_of_stack,
    is_row_of, legacy_state, legacy_to_snapshot_spec, lemma_every_head_has_its_row,
    lemma_head_rows_are_numbered, lemma_targets_by_stack_is_ordered,
    lemma_written_stacks_ascend_strictly, scan_stack_heads, stack_id_known, stack_ids_occur_once,
    stack_rows_ascend, stacks_by_order, target_id_known, target_key_le, targets_by_stack,
};
use crate::snapshot::{
    VbBranchTarget, VbBranchTargetView, VbStack, VbStackHead, VbStackHeadView, VbStackView, VbState,
    VbStateView, VirtualBranchesSnapshot, VirtualBranchesSnapshotView,
};

verus! {

/// What the metadata store holds: nothing before the first write, and a
/// snapshot after it.
pub struct MetadataStore {
    content: Option<VirtualBranchesSnapshot>,
}

/// The value of an optional snapshot.
pub open spec fn content_view(content: Option<VirtualBranchesSnapshot>) -> Option<
    VirtualBranchesSnapshotView,
> {
    match content {
        Some(s) => Some(s@),
        None => None,
    }
}

impl View for MetadataStore {
    type V = Option<VirtualBranchesSnapshotView>;

    closed spec fn view(&self) -> Option<VirtualBranchesSnapshotView> {
        content_view(self.content)
    }
}

/// The content of a store after its state row was written: the rows are
/// kept, and a store never written has none.
pub open spec fn with_state(
    content: Option<VirtualBranchesSnapshotView>,
    state: VbStateView,
) -> VirtualBranchesSnapshotView {
    match content {
        Some(s) => VirtualBranchesSnapshotView { state, ..s },
        None => VirtualBranchesSnapshotView { state, ..VirtualBranchesSnapshot::empty_view() },
    }
}

/// The stack rows but those of the stack `stack_id`.
pub open spec fn other_stacks(rows: Seq<VbStackView>, stack_id: Seq<char>) -> Seq<VbStackView>
    decreases rows.len(),
{
    if rows.len() == 0 {
        Seq::empty()
    } else if rows.last().id == stack_id {
        other_stacks(rows.drop_last(), stack_id)
    } else {
        other_stacks(rows.drop_last(), stack_id).push(rows.last())
    }
}

/// The head rows but those of the stack `stack_id`.
pub open spec fn other_heads(rows: Seq<VbStackHeadView>, stack_id: Seq<char>) -> Seq<VbStackHeadView>
    decreases rows.len(),
{
    if rows.len() == 0 {
        Seq::empty()
    } else if rows.last().stack_id == stack_id {
        other_heads(rows.drop_last(), stack_id)
    } else {
        other_heads(rows.drop_last(), stack_id).push(rows.last())
    }
}

/// The target rows but that of the stack `stack_id`.
pub open spec fn other_targets(rows: Seq<VbBranchTargetView>, stack_id: Seq<char>) -> Seq<
    VbBranchTargetView,
>
    decreases rows.len(),
{
    if rows.len() == 0 {
        Seq::empty()
    } else if rows.last().stack_id == stack_id {
        other_targets(rows.drop_last(), stack_id)
    } else {
        other_targets(rows.drop_last(), stack_id).push(rows.last())
    }
}

/// The content of a store after the stack `stack_id` was removed: the
/// rows that depend on the stack leave with it.
pub open spec fn without_stack(
    content: VirtualBranchesSnapshotView,
    stack_id: Seq<char>,
) -> VirtualBranchesSnapshotView {
    VirtualBranchesSnapshotView {
        state: content.state,
        stacks: other_stacks(content.stacks, stack_id),
        heads: other_heads(content.heads, stack_id),
        branch_targets: other_targets(content.branch_targets, stack_id),
    }
}

/// Why the store refused a call.
#[derive(Debug, Clone, Copy, PartialEq, Eq, Structural)]
pub enum StoreError {
    /// What the store holds breaks an invariant; found on read.
    CorruptState,
    /// What was to be written breaks a key of the store; nothing was
    /// written.
    ConstraintViolation,
}

/// Whether one of `rows` is the head of the stack `stack_id` at
/// `position`.
pub open spec fn head_key_known(rows: Seq<VbStackHeadView>, stack_id: Seq<char>, position: i64) -> bool {
    exists|k: int|
        0 <= k < rows.len() && (#[trigger] rows[k]).stack_id == stack_id && rows[k].position
            == position
}

/// Whether the stack row at `j` has an id of its own and not that of a
/// row before it.
pub open spec fn stack_key_is_new(stacks: Seq<VbStackView>, j: int) -> bool {
    !stack_id_known(stacks.take(j), stacks[j].id)
}

/// Whether the head row at `j` names a stack, and has a `(stack_id,
/// position)` of its own and not that of a row before it.
pub open spec fn head_key_is_new(stacks: Seq<VbStackView>, heads: Seq<VbStackHeadView>, j: int) -> bool {
    stack_id_known(stacks, heads[j].stack_id) && !head_key_known(
        heads.take(j),
        heads[j].stack_id,
        heads[j].position,
    )
}

/// Whether the target row at `j` names a stack that no target row before
/// it is for.
pub open spec fn target_key_is_new(
    stacks: Seq<VbStackView>,
    targets: Seq<VbBranchTargetView>,
    j: int,
) -> bool {
    stack_id_known(stacks, targets[j].stack_id) && !target_id_known(
        targets.take(j),
        targets[j].stack_id,
    )
}

/// Whether a snapshot keeps the keys of the store: stack ids occur once,
/// heads have their `(stack_id, position)` to themselves, there is at most
/// one target for a stack, and every head and target names a stack of the
/// snapshot.
pub open spec fn keys_hold(s: VirtualBranchesSnapshotView) -> bool {
    &&& forall|j: int| 0 <= j < s.stacks.len() ==> #[trigger] stack_key_is_new(s.stacks, j)
    &&& forall|j: int| 0 <= j < s.heads.len() ==> #[trigger] head_key_is_new(s.stacks, s.heads, j)
    &&& forall|j: int|
        0 <= j < s.branch_targets.len() ==> #[trigger] target_key_is_new(
            s.stacks,
            s.branch_targets,
            j,
        )
}

/// Whether the head row at `j` is where the invariant of the store puts
/// it: its position is the number of heads of its stack before it, and its
/// name is new in its stack.
pub open spec fn head_is_in_place(heads: Seq<VbStackHeadView>, j: int) -> bool {
    heads[j].position == heads_of_stack(heads.take(j), heads[j].stack_id) && !head_name_known(
        heads.take(j),
        heads[j].stack_id,
        heads[j].name,
    )
}

/// Whether listed rows are sound: they keep the keys of the store, and in
/// every stack the positions of the heads count up from zero without gaps
/// and the names of the heads differ.
pub open spec fn store_sound(listed: VirtualBranchesSnapshotView) -> bool {
    &&& keys_hold(listed)
    &&& forall|j: int| 0 <= j < listed.heads.len() ==> #[trigger] head_is_in_place(listed.heads, j)
}

/// What a read of a store with the given content gives: nothing where the
/// store was never written, the listed rows where they are sound, and a
/// refusal where they are not.
pub open spec fn read_spec(content: Option<VirtualBranchesSnapshotView>) -> Result<
    Option<VirtualBranchesSnapshotView>,
    StoreError,
> {
    match content {
        None => Ok(None),
        Some(s) => if store_sound(listed(s)) {
            Ok(Some(listed(s)))
        } else {
            Err(StoreError::CorruptState)
        },
    }
}

/// What a store with the given content holds after `snapshot` was to be
/// written: the snapshot where it keeps the keys, and what it held before
/// where it does not.
pub open spec fn written_spec(
    content: Option<VirtualBranchesSnapshotView>,
    snapshot: VirtualBranchesSnapshotView,
) -> Option<VirtualBranchesSnapshotView> {
    if keys_hold(snapshot) {
        Some(snapshot)
    } else {
        content
    }
}

fn has_head_key(rows: &Vec<VbStackHead>, n: usize, stack_id: &String, position: i64) -> (r: bool)
    requires
        n <= rows.len(),
    ensures
        r == head_key_known(rows@.map_values(|x: VbStackHead| x@).take(n as int), stack_id@, position),
{
    let ghost views = rows@.map_values(|x: VbStackHead| x@).take(n as int);
    let mut k: usize = 0;
    while k < n
        invariant
            k <= n <= rows.len(),
            views == rows@.map_values(|x: VbStackHead| x@).take(n as int),
            forall|j: int|
                0 <= j < k ==> !((#[trigger] views[j]).stack_id == stack_id@ && views[j].position
                    == position),
        decreases n - k,
    {
        if rows[k].stack_id == *stack_id && rows[k].position == position {
            assert(views[k as int].stack_id == stack_id@ && views[k as int].position == position);
            return true;
        }
        k += 1;
    }
    false
}

#[verifier::loop_isolation(false)]
fn check_keys(snapshot: &VirtualBranchesSnapshot) -> (r: bool)
    ensures
        r == keys_hold(snapshot@),
{
    let ghost s = snapshot@;
    let mut i: usize = 0;
    while i < snapshot.stacks.len()
        invariant
            i <= snapshot.stacks.len(),
            forall|j: int| 0 <= j < i ==> #[trigger] stack_key_is_new(s.stacks, j),
        decreases snapshot.stacks.len() - i,
    {
        assert(s.stacks[i as int] == snapshot.stacks@[i as int]@);
        if has_stack_id(&snapshot.stacks, i, &snapshot.stacks[i].id) {
            assert(!stack_key_is_new(s.stacks, i as int));
            return false;
        }
        i += 1;
    }
    proof {
        assert(s.stacks.take(snapshot.stacks.len() as int) =~= s.stacks);
    }
    let mut h: usize = 0;
    while h < snapshot.heads.len()
        invariant
            h <= snapshot.heads.len(),
            forall|j: int| 0 <= j < h ==> #[trigger] head_key_is_new(s.stacks, s.heads, j),
        decreases snapshot.heads.len() - h,
    {
        let row = &snapshot.heads[h];
        assert(s.heads[h as int] == row@);
        if !has_stack_id(&snapshot.stacks, snapshot.stacks.len(), &row.stack_id) || has_head_key(
            &snapshot.heads,
            h,
            &row.stack_id,
            row.position,
        ) {
            assert(!head_key_is_new(s.stacks, s.heads, h as int));
            return false;
        }
        h += 1;
    }
    let mut t: usize = 0;
    while t < snapshot.branch_targets.len()
        invariant
            t <= snapshot.branch_targets.len(),
            forall|j: int|
                0 <= j < t ==> #[trigger] target_key_is_new(s.stacks, s.branch_targets, j),
        decreases snapshot.branch_targets.len() - t,
    {
        let row = &snapshot.branch_targets[t];
        assert(s.branch_targets[t as int] == row@);
        if !has_stack_id(&snapshot.stacks, snapshot.stacks.len(), &row.stack_id) || has_target_id(
            &snapshot.branch_targets,
            t,
            &row.stack_id,
        ) {
            assert(!target_key_is_new(s.stacks, s.branch_targets, t as int));
            return false;
        }
        t += 1;
    }
    true
}

#[verifier::loop_isolation(false)]
fn check_sound(listed: &VirtualBranchesSnapshot) -> (r: bool)
    ensures
        r == store_sound(listed@),
{
    if !check_keys(listed) {
        return false;
    }
    let ghost heads = listed@.heads;
    let mut h: usize = 0;
    while h < listed.heads.len()
        invariant
            h <= listed.heads.len(),
            forall|j: int| 0 <= j < h ==> #[trigger] head_is_in_place(heads, j),
        decreases listed.heads.len() - h,
    {
        let row = &listed.heads[h];
        assert(heads[h as int] == row@);
        let (before, name_taken) = scan_stack_heads(&listed.heads, h, &row.stack_id, &row.name);
        if row.position < 0 || row.position as u128 != before as u128 || name_taken {
            assert(!head_is_in_place(heads, h as int));
            return false;
        }
        h += 1;
    }
    true
}

impl MetadataStore {
    /// A store that was never written.
    pub fn new() -> (r: Self)
        ensures
            r@ is None,
    {
        MetadataStore { content: None }
    }

    /// Read everything the store holds, every table in its order; `None`
    /// exactly where the state row is absent because the store was never
    /// written. Rows that break an invariant of the store are not handed
    /// out: the read then fails with `CorruptState`.
    pub fn get_snapshot(&self) -> (r: Result<Option<VirtualBranchesSnapshot>, StoreError>)
        ensures
            (match r {
                Ok(rows) => Ok::<Option<VirtualBranchesSnapshotView>, StoreError>(content_view(rows)),
                Err(e) => Err::<Option<VirtualBranchesSnapshotView>, StoreError>(e),
            }) == read_spec(self@),
    {
        match &self.content {
            Some(s) => {
                let listed = list_snapshot(s);
                if check_sound(&listed) {
                    Ok(Some(listed))
                } else {
                    Err(StoreError::CorruptState)
                }
            },
            None => Ok(None),
        }
    }

    /// Insert or update the state row.
    pub fn set_state(&mut self, state: &VbState)
        ensures
            final(self)@ == Some(with_state(old(self)@, state@)),
    {
        let next = match &self.content {
            Some(s) => VirtualBranchesSnapshot {
                state: state.duplicate(),
                stacks: crate::snapshot::VbStack::duplicate_all(&s.stacks),
                heads: crate::snapshot::VbStackHead::duplicate_all(&s.heads),
                branch_targets: crate::snapshot::VbBranchTarget::duplicate_all(&s.branch_targets),
            },
            None => {
                let empty = VirtualBranchesSnapshot::default();
                VirtualBranchesSnapshot {
                    state: state.duplicate(),
                    stacks: empty.stacks,
                    heads: empty.heads,
                    branch_targets: empty.branch_targets,
                }
            },
        };
        self.content = Some(next);
    }

    /// Remove the stack `stack_id` together with its heads and its target.
    /// A store never written stays so.
    pub fn remove_stack(&mut self, stack_id: &str)
        ensures
            final(self)@ == (match old(self)@ {
                Some(content) => Some(without_stack(content, stack_id@)),
                None => None,
            }),
    {
        let id = stack_id.to_owned();
        let next = match &self.content {
            None => None,
            Some(content) => {
                let mut stacks: Vec<VbStack> = Vec::new();
                let mut i: usize = 0;
                proof {
                    assert(content@.stacks.take(0) =~= Seq::empty());
                }
                while i < content.stacks.len()
                    invariant
                        i <= content.stacks.len(),
                        id@ == stack_id@,
                        stacks@.map_values(|x: VbStack| x@) == other_stacks(
                            content@.stacks.take(i as int),
                            stack_id@,
                        ),
                    decreases content.stacks.len() - i,
                {
                    let row = &content.stacks[i];
                    proof {
                        assert(content@.stacks.take(i + 1).drop_last() =~= content@.stacks.take(
                            i as int,
                        ));
                        assert(content@.stacks.take(i + 1).last() == row@);
                    }
                    if row.id != id {
                        let copy = row.duplicate();
                        proof {
                            assert(stacks@.push(copy).map_values(|x: VbStack| x@)
                                =~= stacks@.map_values(|x: VbStack| x@).push(copy@));
                        }
                        stacks.push(copy);
                    }
                    i += 1;
                }
                let mut heads: Vec<VbStackHead> = Vec::new();
                let mut h: usize = 0;
                proof {
                    assert(content@.stacks.take(content.stacks.len() as int) =~= content@.stacks);
                    assert(content@.heads.take(0) =~= Seq::empty());
                }
                while h < content.heads.len()
                    invariant
                        h <= content.heads.len(),
                        id@ == stack_id@,
                        heads@.map_values(|x: VbStackHead| x@) == other_heads(
                            content@.heads.take(h as int),
                            stack_id@,
                        ),
                    decreases content.heads.len() - h,
                {
                    let row = &content.heads[h];
                    proof {
                        assert(content@.heads.take(h + 1).drop_last() =~= content@.heads.take(
                            h as int,
                        ));
                        assert(content@.heads.take(h + 1).last() == row@);
                    }
                    if row.stack_id != id {
                        let copy = row.duplicate();
                        proof {
                            assert(heads@.push(copy).map_values(|x: VbStackHead| x@)
                                =~= heads@.map_values(|x: VbStackHead| x@).push(copy@));
                        }
                        heads.push(copy);
                    }
                    h += 1;
                }
                let mut targets: Vec<VbBranchTarget> = Vec::new();
                let mut t: usize = 0;
                proof {
                    assert(content@.heads.take(content.heads.len() as int) =~= content@.heads);
                    assert(content@.branch_targets.take(0) =~= Seq::empty());
                }
                while t < content.branch_targets.len()
                    invariant
                        t <= content.branch_targets.len(),
                        id@ == stack_id@,
                        targets@.map_values(|x: VbBranchTarget| x@) == other_targets(
                            content@.branch_targets.take(t as int),
                            stack_id@,
                        ),
                    decreases content.branch_targets.len() - t,
                {
                    let row = &content.branch_targets[t];
                    proof {
                        assert(content@.branch_targets.take(t + 1).drop_last()
                            =~= content@.branch_targets.take(t as int));
                        assert(content@.branch_targets.take(t + 1).last() == row@);
                    }
                    if row.stack_id != id {
                        let copy = row.duplicate();
                        proof {
                            assert(targets@.push(copy).map_values(|x: VbBranchTarget| x@)
                                =~= targets@.map_values(|x: VbBranchTarget| x@).push(copy@));
                        }
                        targets.push(copy);
                    }
                    t += 1;
                }
                proof {
                    assert(content@.branch_targets.take(content.branch_targets.len() as int)
                        =~= content@.branch_targets);
                }
                Some(
                    VirtualBranchesSnapshot {
                        state: content.state.duplicate(),
                        stacks,
                        heads,
                        branch_targets: targets,
                    },
                )
            },
        };
        self.content = next;
    }

    /// Replace everything the store holds by `snapshot`. A snapshot that
    /// breaks a key of the store is refused, and the store stays as it was.
    pub fn replace_snapshot(&mut self, snapshot: &VirtualBranchesSnapshot) -> (r: Result<
        (),
        StoreError,
    >)
        ensures
            final(self)@ == written_spec(old(self)@, snapshot@),
            match r {
                Ok(()) => keys_hold(snapshot@),
                Err(e) => e == StoreError::ConstraintViolation && !keys_hold(snapshot@),
            },
    {
        if !check_keys(snapshot) {
            return Err(StoreError::ConstraintViolation);
        }
        self.content = Some(snapshot.duplicate());
        Ok(())
    }
}

/// The kind of an operation that the log protects.
#[derive(Debug, Clone, Copy, PartialEq, Eq, Structural)]
pub enum OperationKind {
    CreateCommit,
    AmendCommit,
    SquashCommit,
    MoveCommit,
    ReorderCommit,
    ApplyBranch,
    UnapplyBranch,
    RestoreFromSnapshot,
    Other,
}

/// One entry of the log.
pub struct OplogEntry {
    /// The kind of the operation.
    pub kind: OperationKind,
    /// When the snapshot was taken, in milliseconds since the epoch.
    pub timestamp_ms: u64,
    /// What the store held; `None` if it was never written.
    pub snapshot: Option<VirtualBranchesSnapshot>,
}

/// The mathematical value of an [`OplogEntry`].
pub struct OplogEntryView {
    pub kind: OperationKind,
    pub timestamp_ms: u64,
    pub snapshot: Option<VirtualBranchesSnapshotView>,
}

impl View for OplogEntry {
    type V = OplogEntryView;

    open spec fn view(&self) -> OplogEntryView {
        OplogEntryView {
            kind: self.kind,
            timestamp_ms: self.timestamp_ms,
            snapshot: content_view(self.snapshot),
        }
    }
}

/// The log of snapshots of one project.
pub struct Oplog {
    entries: Vec<OplogEntry>,
    limit: usize,
}

/// The mathematical value of an [`Oplog`].
pub struct OplogView {
    /// The entries, oldest first.
    pub entries: Seq<OplogEntryView>,
    /// How many entries the log keeps at most.
    pub limit: usize,
}

impl View for Oplog {
    type V = OplogView;

    closed spec fn view(&self) -> OplogView {
        OplogView { entries: Seq::new(self.entries@.len(), |i: int| self.entries@[i]@), limit: self.limit }
    }
}

/// The entries after `entry` was appended to a log that keeps `limit`
/// entries: the oldest entry leaves where the log is full.
pub open spec fn appended(entries: Seq<OplogEntryView>, limit: usize, entry: OplogEntryView) -> Seq<
    OplogEntryView,
> {
    if entries.len() >= limit {
        entries.skip(entries.len() - limit + 1).push(entry)
    } else {
        entries.push(entry)
    }
}

/// Why a snapshot could not be restored.
#[derive(Debug, Clone, Copy, PartialEq, Eq, Structural)]
pub enum OplogError {
    /// The log holds no entry at this position.
    NoSuchEntry,
    /// The store refused the snapshot of the entry.
    Refused,
}

impl Oplog {
    /// Whether the log holds no more entries than it keeps. Every log that
    /// this module hands out does.
    pub open spec fn wf(&self) -> bool {
        self@.limit >= 1 && self@.entries.len() <= self@.limit
    }

    /// An empty log that keeps at most `limit` entries, and at least one.
    pub fn new(limit: usize) -> (r: Self)
        ensures
            r.wf(),
            r@.entries.len() == 0,
            r@.limit == (if limit == 0 {
                1usize
            } else {
                limit
            }),
    {
        Oplog { entries: Vec::new(), limit: if limit == 0 {
            1
        } else {
            limit
        } }
    }

    /// The number of entries.
    pub fn len(&self) -> (r: usize)
        ensures
            r == self@.entries.len(),
    {
        self.entries.len()
    }

    /// Capture what the store reads as before an operation of the given
    /// kind. The store is not changed. A store that cannot be read is not
    /// captured: the log stays as it was.
    pub fn capture(&mut self, kind: OperationKind, timestamp_ms: u64, store: &MetadataStore) -> (r:
        Result<(), StoreError>)
        requires
            old(self).wf(),
        ensures
            final(self).wf(),
            final(self)@.limit == old(self)@.limit,
            match r {
                Ok(()) => {
                    &&& read_spec(store@) is Ok
                    &&& final(self)@.entries == appended(
                        old(self)@.entries,
                        old(self)@.limit,
                        OplogEntryView { kind, timestamp_ms, snapshot: read_spec(store@)->Ok_0 },
                    )
                },
                Err(e) => {
                    &&& read_spec(store@) == Err::<Option<VirtualBranchesSnapshotView>, StoreError>(e)
                    &&& final(self)@ == old(self)@
                },
            },
    {
        let snapshot = match store.get_snapshot() {
            Ok(snapshot) => snapshot,
            Err(e) => {
                return Err(e);
            },
        };
        let entry = OplogEntry { kind, timestamp_ms, snapshot };
        let ghost before = self@;
        if self.entries.len() >= self.limit {
            let drop = self.entries.len() - self.limit + 1;
            let mut k: usize = 0;
            while k < drop
                invariant
                    k <= drop <= before.entries.len(),
                    self.limit == before.limit,
                    self@.entries == before.entries.skip(k as int),
                decreases drop - k,
            {
                let ghost now = self@.entries;
                assert(self.entries@.len() == now.len());
                assert(now.len() == before.entries.len() - k);
                let _ = self.entries.remove(0);
                k += 1;
                proof {
                    assert(self@.entries =~= now.skip(1));
                    assert(now.skip(1) =~= before.entries.skip(k as int));
                }
            }
        }
        let ghost kept = self@.entries;
        self.entries.push(entry);
        proof {
            assert(self@.entries =~= kept.push(entry@));
            if before.entries.len() < before.limit {
                assert(kept =~= before.entries);
            }
        }
        Ok(())
    }

    /// Restore the snapshot of the entry at `position` into the store.
    /// The log is not changed, so that restoring again gives the same
    /// store. Where there is no such entry, or the store refuses its
    /// snapshot, the store stays as it was.
    pub fn restore(&self, position: usize, store: &mut MetadataStore) -> (r: Result<(), OplogError>)
        ensures
            r == restore_result(self@.entries, position as int),
            final(store)@ == (if r is Ok {
                self@.entries[position as int].snapshot
            } else {
                old(store)@
            }),
    {
        if position >= self.entries.len() {
            return Err(OplogError::NoSuchEntry);
        }
        assert(self@.entries[position as int] == self.entries@[position as int]@);
        match &self.entries[position].snapshot {
            Some(s) => {
                match store.replace_snapshot(s) {
                    Ok(()) => Ok(()),
                    Err(_) => Err(OplogError::Refused),
                }
            },
            None => {
                *store = MetadataStore::new();
                Ok(())
            },
        }
    }

    /// Close a mutation that was protected by the entry at `position`:
    /// where it succeeded the store is kept as the mutation left it, and
    /// where it failed the store is restored to what was captured before
    /// it.
    pub fn settle(&self, position: usize, succeeded: bool, store: &mut MetadataStore) -> (r: Result<
        Recovery,
        OplogError,
    >)
        ensures
            r == (if succeeded {
                Ok::<Recovery, OplogError>(Recovery::Keep)
            } else {
                match restore_result(self@.entries, position as int) {
                    Ok(()) => Ok::<Recovery, OplogError>(Recovery::Restore { position }),
                    Err(e) => Err::<Recovery, OplogError>(e),
                }
            }),
            final(store)@ == (if !succeeded && restore_result(self@.entries, position as int)
                is Ok {
                self@.entries[position as int].snapshot
            } else {
                old(store)@
            }),
    {
        match recovery_for(succeeded, position) {
            Recovery::Keep => Ok(Recovery::Keep),
            Recovery::Restore { position } => match self.restore(position, store) {
                Ok(()) => Ok(Recovery::Restore { position }),
                Err(e) => Err(e),
            },
        }
    }
}

/// How a restore of the entry at `position` ends: it fails where there is
/// no such entry, and where the store refuses the entry's snapshot.
pub open spec fn restore_result(entries: Seq<OplogEntryView>, position: int) -> Result<
    (),
    OplogError,
> {
    if position < 0 || position >= entries.len() {
        Err(OplogError::NoSuchEntry)
    } else {
        match entries[position].snapshot {
            Some(s) => if keys_hold(s) {
                Ok(())
            } else {
                Err(OplogError::Refused)
            },
            None => Ok(()),
        }
    }
}

/// What becomes of the store when a protected mutation ends.
#[derive(Debug, Clone, Copy, PartialEq, Eq, Structural)]
pub enum Recovery {
    /// The mutation succeeded: the store is kept as it is.
    Keep,
    /// The mutation failed: the snapshot captured at `position` is
    /// restored.
    Restore { position: usize },
}

/// Decide what becomes of the store when a mutation that was protected by
/// the entry at `position` ends.
pub fn recovery_for(succeeded: bool, position: usize) -> (r: Recovery)
    ensures
        r == (if succeeded {
            Recovery::Keep
        } else {
            Recovery::Restore { position }
        }),
{
    if succeeded {
        Recovery::Keep
    } else {
        Recovery::Restore { position }
    }
}

/// What is captured is what is restored: where a store with the content
/// `captured` was read for a capture, the store accepts what was read, and
/// a store that holds it reads as the captured store did.
pub proof fn lemma_restore_of_capture(captured: Option<VirtualBranchesSnapshotView>)
    requires
        read_spec(captured) is Ok,
    ensures
        ({
            let entry = read_spec(captured)->Ok_0;
            &&& entry is Some ==> keys_hold(entry->0)
            &&& entry is Some ==> written_spec(None, entry->0) == entry
            &&& read_spec(entry) == read_spec(captured)
        }),
{
    if captured is Some {
        lemma_listed_is_stable(captured->0);
    }
}

/// What is written is what is read: a snapshot that the store accepts
/// and whose listed rows are sound is read back as its listed rows, with
/// the same state row.
pub proof fn lemma_read_of_write(
    content: Option<VirtualBranchesSnapshotView>,
    snapshot: VirtualBranchesSnapshotView,
)
    requires
        keys_hold(snapshot),
        store_sound(listed(snapshot)),
    ensures
        read_spec(written_spec(content, snapshot)) == Ok::<
            Option<VirtualBranchesSnapshotView>,
            StoreError,
        >(Some(listed(snapshot))),
        listed(snapshot).state == snapshot.state,
{
}

/// Whether `row` is the row of a head of one of `stacks`, at the position
/// that the head has in its stack.
pub open spec fn is_head_of_a_stack(stacks: Seq<StackView>, row: VbStackHeadView) -> bool {
    exists|j: int, i: int| is_row_of(stacks, j, i, row)
}

/// The snapshot that is written for a mirror file.
pub open spec fn written_rows(
    vb: VirtualBranchesView,
    mtime_ns: Option<i64>,
    sha256: Option<Seq<char>>,
) -> VirtualBranchesSnapshotView {
    legacy_to_snapshot_spec(vb, mtime_ns, sha256)->Ok_0
}

/// A read after a write carries what was written.
///
/// Let a mirror file whose stack ids occur once be written, so that the
/// store accepts its snapshot, and let the read that follows find the rows
/// sound. The read then returns the state row of the file, initialized; one
/// stack row for each stack, in the order `(sort_order, id)`; the target
/// rows as written; and as head rows exactly the heads of the stacks, each
/// at the position that it has in its stack.
pub proof fn lemma_read_after_write(
    content: Option<VirtualBranchesSnapshotView>,
    vb: VirtualBranchesView,
    mtime_ns: Option<i64>,
    sha256: Option<Seq<char>>,
)
    requires
        stack_ids_occur_once(vb.branches),
        legacy_to_snapshot_spec(vb, mtime_ns, sha256) is Ok,
        keys_hold(written_rows(vb, mtime_ns, sha256)),
        store_sound(listed(written_rows(vb, mtime_ns, sha256))),
    ensures
        read_spec(written_spec(content, written_rows(vb, mtime_ns, sha256))) == Ok::<
            Option<VirtualBranchesSnapshotView>,
            StoreError,
        >(Some(listed(written_rows(vb, mtime_ns, sha256)))),
        listed(written_rows(vb, mtime_ns, sha256)).state == legacy_state(vb, mtime_ns, sha256),
        listed(written_rows(vb, mtime_ns, sha256)).state.initialized,
        listed(written_rows(vb, mtime_ns, sha256)).stacks == written_rows(
            vb,
            mtime_ns,
            sha256,
        ).stacks,
        listed(written_rows(vb, mtime_ns, sha256)).stacks.len() == vb.branches.len(),
        stack_rows_ascend(listed(written_rows(vb, mtime_ns, sha256)).stacks),
        listed(written_rows(vb, mtime_ns, sha256)).branch_targets == written_rows(
            vb,
            mtime_ns,
            sha256,
        ).branch_targets,
        listed(written_rows(vb, mtime_ns, sha256)).heads.len() == written_rows(
            vb,
            mtime_ns,
            sha256,
        ).heads.len(),
        forall|j: int, i: int|
            0 <= j < stacks_by_order(vb.branches).len() && 0 <= i < stacks_by_order(
                vb.branches,
            )[j].heads.len() ==> listed(written_rows(vb, mtime_ns, sha256)).heads.contains(
                #[trigger] head_row(
                    stacks_by_order(vb.branches)[j].id,
                    i,
                    stacks_by_order(vb.branches)[j].heads[i],
                ),
            ),
        forall|m: int|
            0 <= m < listed(written_rows(vb, mtime_ns, sha256)).heads.len()
                ==> #[trigger] is_head_of_a_stack(
                stacks_by_order(vb.branches),
                listed(written_rows(vb, mtime_ns, sha256)).heads[m],
            ),
{
    broadcast use vstd::seq_lib::group_to_multiset_ensures;

    let written = legacy_to_snapshot_spec(vb, mtime_ns, sha256)->Ok_0;
    let stacks = stacks_by_order(vb.branches);
    let read = listed(written);
    lemma_written_stacks_ascend_strictly(vb, mtime_ns, sha256);
    lemma_listed_stacks_keeps_ordered(written.stacks);
    lemma_targets_by_stack_is_ordered(vb.branch_targets);
    let targets = targets_by_stack(vb.branch_targets);
    assert forall|i: int, j: int| 0 <= i < j < written.branch_targets.len() implies target_row_le(
        written.branch_targets[i],
        written.branch_targets[j],
    ) by {
        assert(target_key_le(targets[i], targets[j]));
    }
    lemma_listed_targets_keeps_ordered(written.branch_targets);
    lemma_listed_heads_is_ordered(written.heads);
    assert(read.heads.to_multiset().len() == written.heads.to_multiset().len());
    assert forall|j: int, i: int|
        0 <= j < stacks.len() && 0 <= i < stacks[j].heads.len() implies read.heads.contains(
        #[trigger] head_row(stacks[j].id, i, stacks[j].heads[i]),
    ) by {
        lemma_every_head_has_its_row(stacks, j, i);
        let row = head_row(stacks[j].id, i, stacks[j].heads[i]);
        let k = choose|k: int|
            0 <= k < all_head_rows(stacks).len() && is_row_of(
                stacks,
                j,
                i,
                #[trigger] all_head_rows(stacks)[k],
            );
        assert(written.heads[k] == row);
        assert(written.heads.contains(row));
        assert(written.heads.to_multiset().count(row) > 0);
        assert(read.heads.to_multiset().count(row) > 0);
    }
    assert forall|m: int| 0 <= m < read.heads.len() implies #[trigger] is_head_of_a_stack(
        stacks,
        read.heads[m],
    ) by {
        let row = read.heads[m];
        assert(read.heads.contains(row));
        assert(read.heads.to_multiset().count(row) > 0);
        assert(written.heads.to_multiset().count(row) > 0);
        assert(written.heads.contains(row));
        let k = choose|k: int| 0 <= k < written.heads.len() && written.heads[k] == row;
        lemma_head_rows_are_numbered(stacks, k);
    }
    assert(read.stacks == written.stacks);
    assert(read.branch_targets == written.branch_targets);
    assert(read.stacks.len() == vb.branches.len());
    assert(stack_rows_ascend(read.stacks));
    assert(read.heads.len() == written.heads.len());
    assert(read.state == legacy_state(vb, mtime_ns, sha256));
    assert(read.state.initialized);
    assert(read_spec(written_spec(content, written)) == Ok::<
        Option<VirtualBranchesSnapshotView>,
        StoreError,
    >(Some(read)));
}

} // verus!
