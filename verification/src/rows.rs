//! The order in which the store lists its rows.
//!
//! Stacks are listed by `(sort_order, id)`, heads by `(stack_id,
//! position)` and targets by `stack_id`. Rows with equal keys keep the order
//! in which they were written.

use vstd::prelude::*;
use crate::chars::{
    lemma_str_le_antisymmetric, lemma_str_le_total, lemma_str_le_trans, same_text, str_le, text_le,
    to_chars,
};
use crate::snapshot::{
    VbBranchTarget, VbBranchTargetView, VbStack, VbStackHead, VbStackHeadView, VbStackView,
    VirtualBranchesSnapshot, VirtualBranchesSnapshotView,
};

verus! {

/// Whether stack row `a` may stand before stack row `b`: by sort order,
/// then by id.
pub open spec fn stack_row_le(a: VbStackView, b: VbStackView) -> bool {
    a.sort_order < b.sort_order || (a.sort_order == b.sort_order && str_le(a.id, b.id))
}

proof fn lemma_stack_row_le_total(a: VbStackView, b: VbStackView)
    ensures
        stack_row_le(a, b) || stack_row_le(b, a),
{
    lemma_str_le_total(a.id, b.id);
}

proof fn lemma_stack_row_le_trans(a: VbStackView, b: VbStackView, c: VbStackView)
    requires
        stack_row_le(a, b),
        stack_row_le(b, c),
    ensures
        stack_row_le(a, c),
{
    if a.sort_order == b.sort_order && b.sort_order == c.sort_order {
        lemma_str_le_trans(a.id, b.id, c.id);
    }
}

fn stack_row_before(a: &VbStack, b: &VbStack) -> (r: bool)
    ensures
        r == stack_row_le(a@, b@),
{
    a.sort_order < b.sort_order || (a.sort_order == b.sort_order && text_le(
        &to_chars(a.id.as_str()),
        &to_chars(b.id.as_str()),
    ))
}

/// Whether head row `a` may stand before head row `b`: by stack id, then
/// by position.
pub open spec fn head_row_le(a: VbStackHeadView, b: VbStackHeadView) -> bool {
    if a.stack_id == b.stack_id {
        a.position <= b.position
    } else {
        str_le(a.stack_id, b.stack_id)
    }
}

proof fn lemma_head_row_le_total(a: VbStackHeadView, b: VbStackHeadView)
    ensures
        head_row_le(a, b) || head_row_le(b, a),
{
    lemma_str_le_total(a.stack_id, b.stack_id);
}

proof fn lemma_head_row_le_trans(a: VbStackHeadView, b: VbStackHeadView, c: VbStackHeadView)
    requires
        head_row_le(a, b),
        head_row_le(b, c),
    ensures
        head_row_le(a, c),
{
    if a.stack_id != b.stack_id && b.stack_id != c.stack_id {
        lemma_str_le_trans(a.stack_id, b.stack_id, c.stack_id);
        if a.stack_id == c.stack_id {
            lemma_str_le_antisymmetric(a.stack_id, b.stack_id);
        }
    }
}

fn head_row_before(a: &VbStackHead, b: &VbStackHead) -> (r: bool)
    ensures
        r == head_row_le(a@, b@),
{
    let x = to_chars(a.stack_id.as_str());
    let y = to_chars(b.stack_id.as_str());
    if same_text(&x, &y) {
        a.position <= b.position
    } else {
        text_le(&x, &y)
    }
}

/// Whether target row `a` may stand before target row `b`: by stack id.
pub open spec fn target_row_le(a: VbBranchTargetView, b: VbBranchTargetView) -> bool {
    str_le(a.stack_id, b.stack_id)
}

proof fn lemma_target_row_le_total(a: VbBranchTargetView, b: VbBranchTargetView)
    ensures
        target_row_le(a, b) || target_row_le(b, a),
{
    lemma_str_le_total(a.stack_id, b.stack_id);
}

proof fn lemma_target_row_le_trans(a: VbBranchTargetView, b: VbBranchTargetView, c: VbBranchTargetView)
    requires
        target_row_le(a, b),
        target_row_le(b, c),
    ensures
        target_row_le(a, c),
{
    lemma_str_le_trans(a.stack_id, b.stack_id, c.stack_id);
}

fn target_row_before(a: &VbBranchTarget, b: &VbBranchTarget) -> (r: bool)
    ensures
        r == target_row_le(a@, b@),
{
    text_le(&to_chars(a.stack_id.as_str()), &to_chars(b.stack_id.as_str()))
}

/// `sorted` with `x` placed behind the last row that may stand before it.
pub open spec fn place_stack_row(sorted: Seq<VbStackView>, x: VbStackView) -> Seq<VbStackView>
    decreases sorted.len(),
{
    if sorted.len() == 0 {
        seq![x]
    } else if stack_row_le(sorted.last(), x) {
        sorted.push(x)
    } else {
        place_stack_row(sorted.drop_last(), x).push(sorted.last())
    }
}

/// The stack rows as the store lists them.
pub open spec fn listed_stacks(items: Seq<VbStackView>) -> Seq<VbStackView>
    decreases items.len(),
{
    if items.len() == 0 {
        Seq::empty()
    } else {
        place_stack_row(listed_stacks(items.drop_last()), items.last())
    }
}

/// Whether the rows are in the order in which the store lists them.
pub open spec fn stack_rows_listed(rows: Seq<VbStackView>) -> bool {
    forall|i: int, j: int| 0 <= i < j < rows.len() ==> stack_row_le(rows[i], rows[j])
}

proof fn lemma_place_stack_row_at(sorted: Seq<VbStackView>, x: VbStackView, p: int)
    requires
        0 <= p <= sorted.len(),
        forall|k: int| p <= k < sorted.len() ==> !stack_row_le(#[trigger] sorted[k], x),
        p > 0 ==> stack_row_le(sorted[p - 1], x),
    ensures
        place_stack_row(sorted, x) == sorted.insert(p, x),
    decreases sorted.len() - p,
{
    if p == sorted.len() {
        if sorted.len() > 0 {
            assert(sorted.last() == sorted[p - 1]);
            assert(sorted.insert(p, x) =~= sorted.push(x));
        } else {
            assert(sorted.insert(p, x) =~= seq![x]);
        }
    } else {
        let front = sorted.drop_last();
        assert(!stack_row_le(sorted[sorted.len() - 1], x));
        assert forall|k: int| p <= k < front.len() implies !stack_row_le(#[trigger] front[k], x) by {
            assert(front[k] == sorted[k]);
        }
        if p > 0 {
            assert(front[p - 1] == sorted[p - 1]);
        }
        lemma_place_stack_row_at(front, x, p);
        assert(sorted.insert(p, x) =~= front.insert(p, x).push(sorted.last()));
    }
}

proof fn lemma_place_stack_row_ordered(sorted: Seq<VbStackView>, x: VbStackView)
    requires
        stack_rows_listed(sorted),
    ensures
        stack_rows_listed(place_stack_row(sorted, x)),
        place_stack_row(sorted, x).to_multiset() == sorted.to_multiset().insert(x),
    decreases sorted.len(),
{
    broadcast use vstd::seq_lib::group_to_multiset_ensures;

    let out = place_stack_row(sorted, x);
    if sorted.len() == 0 {
        assert(sorted =~= Seq::<VbStackView>::empty());
        assert(out =~= Seq::<VbStackView>::empty().push(x));
    } else if stack_row_le(sorted.last(), x) {
        assert forall|i: int, j: int| 0 <= i < j < out.len() implies stack_row_le(out[i], out[j]) by {
            if j == sorted.len() {
                if i < sorted.len() - 1 {
                    assert(stack_row_le(sorted[i], sorted[sorted.len() - 1]));
                    lemma_stack_row_le_trans(sorted[i], sorted.last(), x);
                }
            } else {
                assert(stack_row_le(sorted[i], sorted[j]));
            }
        }
    } else {
        let front = sorted.drop_last();
        let last = sorted.last();
        assert forall|i: int, j: int| 0 <= i < j < front.len() implies stack_row_le(front[i], front[j]) by {
            assert(stack_row_le(sorted[i], sorted[j]));
        }
        lemma_place_stack_row_ordered(front, x);
        let inner = place_stack_row(front, x);
        assert(sorted =~= front.push(last));
        assert(out.to_multiset() =~= sorted.to_multiset().insert(x));
        lemma_stack_row_le_total(last, x);
        assert forall|i: int, j: int| 0 <= i < j < out.len() implies stack_row_le(out[i], out[j]) by {
            if j == inner.len() {
                assert(inner.contains(inner[i]));
                assert(inner.to_multiset().count(inner[i]) > 0);
                if inner[i] != x {
                    assert(front.to_multiset().count(inner[i]) > 0);
                    assert(front.contains(inner[i]));
                    let k = choose|k: int| 0 <= k < front.len() && front[k] == inner[i];
                    assert(stack_row_le(sorted[k], sorted[sorted.len() - 1]));
                }
            } else {
                assert(stack_row_le(inner[i], inner[j]));
            }
        }
    }
}

/// The listed stack rows are the given rows, in order.
pub proof fn lemma_listed_stacks_is_ordered(items: Seq<VbStackView>)
    ensures
        stack_rows_listed(listed_stacks(items)),
        listed_stacks(items).to_multiset() == items.to_multiset(),
    decreases items.len(),
{
    broadcast use vstd::seq_lib::group_to_multiset_ensures;

    if items.len() == 0 {
        assert(items =~= Seq::<VbStackView>::empty());
    } else {
        lemma_listed_stacks_is_ordered(items.drop_last());
        lemma_place_stack_row_ordered(listed_stacks(items.drop_last()), items.last());
        assert(items =~= items.drop_last().push(items.last()));
    }
}

/// Rows that are in order stay as they are.
pub proof fn lemma_listed_stacks_keeps_ordered(items: Seq<VbStackView>)
    requires
        stack_rows_listed(items),
    ensures
        listed_stacks(items) == items,
    decreases items.len(),
{
    if items.len() > 0 {
        let front = items.drop_last();
        assert forall|i: int, j: int| 0 <= i < j < front.len() implies stack_row_le(front[i], front[j]) by {
            assert(stack_row_le(items[i], items[j]));
        }
        lemma_listed_stacks_keeps_ordered(front);
        if front.len() > 0 {
            assert(stack_row_le(items[front.len() - 1], items[items.len() - 1]));
            assert(front[front.len() - 1] == items[front.len() - 1]);
        }
        lemma_place_stack_row_at(front, items.last(), front.len() as int);
        assert(front.insert(front.len() as int, items.last()) =~= items);
    }
}

/// Bring stack rows into the order in which the store lists them.
pub fn list_stacks(items: &Vec<VbStack>) -> (out: Vec<VbStack>)
    ensures
        out@.map_values(|x: VbStack| x@) == listed_stacks(items@.map_values(|x: VbStack| x@)),
{
    let ghost views = items@.map_values(|x: VbStack| x@);
    let mut out: Vec<VbStack> = Vec::new();
    let mut i: usize = 0;
    proof {
        assert(views.take(0) =~= Seq::empty());
        assert(out@.map_values(|x: VbStack| x@) =~= Seq::empty());
    }
    while i < items.len()
        invariant
            i <= items.len(),
            views == items@.map_values(|x: VbStack| x@),
            out@.len() == i,
            out@.map_values(|x: VbStack| x@) == listed_stacks(views.take(i as int)),
        decreases items.len() - i,
    {
        let x = items[i].duplicate();
        let ghost sorted = out@.map_values(|x: VbStack| x@);
        proof {
            assert(views.take(i + 1).drop_last() =~= views.take(i as int));
            assert(views.take(i + 1).last() == x@);
        }
        let mut p: usize = out.len();
        while p > 0 && !stack_row_before(&out[p - 1], &x)
            invariant
                p <= out.len(),
                sorted == out@.map_values(|x: VbStack| x@),
                forall|k: int| p <= k < sorted.len() ==> !stack_row_le(#[trigger] sorted[k], x@),
            decreases p,
        {
            proof {
                assert(sorted[p - 1] == out@[p - 1]@);
            }
            p -= 1;
        }
        proof {
            if p > 0 {
                assert(sorted[p - 1] == out@[p - 1]@);
            }
            lemma_place_stack_row_at(sorted, x@, p as int);
            assert(out@.insert(p as int, x).map_values(|x: VbStack| x@) =~= sorted.insert(
                p as int,
                x@,
            ));
        }
        out.insert(p, x);
        i += 1;
    }
    proof {
        assert(views.take(items.len() as int) =~= views);
    }
    out
}

/// `sorted` with `x` placed behind the last row that may stand before it.
pub open spec fn place_head_row(sorted: Seq<VbStackHeadView>, x: VbStackHeadView) -> Seq<VbStackHeadView>
    decreases sorted.len(),
{
    if sorted.len() == 0 {
        seq![x]
    } else if head_row_le(sorted.last(), x) {
        sorted.push(x)
    } else {
        place_head_row(sorted.drop_last(), x).push(sorted.last())
    }
}

/// The head rows as the store lists them.
pub open spec fn listed_heads(items: Seq<VbStackHeadView>) -> Seq<VbStackHeadView>
    decreases items.len(),
{
    if items.len() == 0 {
        Seq::empty()
    } else {
        place_head_row(listed_heads(items.drop_last()), items.last())
    }
}

/// Whether the rows are in the order in which the store lists them.
pub open spec fn head_rows_listed(rows: Seq<VbStackHeadView>) -> bool {
    forall|i: int, j: int| 0 <= i < j < rows.len() ==> head_row_le(rows[i], rows[j])
}

proof fn lemma_place_head_row_at(sorted: Seq<VbStackHeadView>, x: VbStackHeadView, p: int)
    requires
        0 <= p <= sorted.len(),
        forall|k: int| p <= k < sorted.len() ==> !head_row_le(#[trigger] sorted[k], x),
        p > 0 ==> head_row_le(sorted[p - 1], x),
    ensures
        place_head_row(sorted, x) == sorted.insert(p, x),
    decreases sorted.len() - p,
{
    if p == sorted.len() {
        if sorted.len() > 0 {
            assert(sorted.last() == sorted[p - 1]);
            assert(sorted.insert(p, x) =~= sorted.push(x));
        } else {
            assert(sorted.insert(p, x) =~= seq![x]);
        }
    } else {
        let front = sorted.drop_last();
        assert(!head_row_le(sorted[sorted.len() - 1], x));
        assert forall|k: int| p <= k < front.len() implies !head_row_le(#[trigger] front[k], x) by {
            assert(front[k] == sorted[k]);
        }
        if p > 0 {
            assert(front[p - 1] == sorted[p - 1]);
        }
        lemma_place_head_row_at(front, x, p);
        assert(sorted.insert(p, x) =~= front.insert(p, x).push(sorted.last()));
    }
}

proof fn lemma_place_head_row_ordered(sorted: Seq<VbStackHeadView>, x: VbStackHeadView)
    requires
        head_rows_listed(sorted),
    ensures
        head_rows_listed(place_head_row(sorted, x)),
        place_head_row(sorted, x).to_multiset() == sorted.to_multiset().insert(x),
    decreases sorted.len(),
{
    broadcast use vstd::seq_lib::group_to_multiset_ensures;

    let out = place_head_row(sorted, x);
    if sorted.len() == 0 {
        assert(sorted =~= Seq::<VbStackHeadView>::empty());
        assert(out =~= Seq::<VbStackHeadView>::empty().push(x));
    } else if head_row_le(sorted.last(), x) {
        assert forall|i: int, j: int| 0 <= i < j < out.len() implies head_row_le(out[i], out[j]) by {
            if j == sorted.len() {
                if i < sorted.len() - 1 {
                    assert(head_row_le(sorted[i], sorted[sorted.len() - 1]));
                    lemma_head_row_le_trans(sorted[i], sorted.last(), x);
                }
            } else {
                assert(head_row_le(sorted[i], sorted[j]));
            }
        }
    } else {
        let front = sorted.drop_last();
        let last = sorted.last();
        assert forall|i: int, j: int| 0 <= i < j < front.len() implies head_row_le(front[i], front[j]) by {
            assert(head_row_le(sorted[i], sorted[j]));
        }
        lemma_place_head_row_ordered(front, x);
        let inner = place_head_row(front, x);
        assert(sorted =~= front.push(last));
        assert(out.to_multiset() =~= sorted.to_multiset().insert(x));
        lemma_head_row_le_total(last, x);
        assert forall|i: int, j: int| 0 <= i < j < out.len() implies head_row_le(out[i], out[j]) by {
            if j == inner.len() {
                assert(inner.contains(inner[i]));
                assert(inner.to_multiset().count(inner[i]) > 0);
                if inner[i] != x {
                    assert(front.to_multiset().count(inner[i]) > 0);
                    assert(front.contains(inner[i]));
                    let k = choose|k: int| 0 <= k < front.len() && front[k] == inner[i];
                    assert(head_row_le(sorted[k], sorted[sorted.len() - 1]));
                }
            } else {
                assert(head_row_le(inner[i], inner[j]));
            }
        }
    }
}

/// The listed head rows are the given rows, in order.
pub proof fn lemma_listed_heads_is_ordered(items: Seq<VbStackHeadView>)
    ensures
        head_rows_listed(listed_heads(items)),
        listed_heads(items).to_multiset() == items.to_multiset(),
    decreases items.len(),
{
    broadcast use vstd::seq_lib::group_to_multiset_ensures;

    if items.len() == 0 {
        assert(items =~= Seq::<VbStackHeadView>::empty());
    } else {
        lemma_listed_heads_is_ordered(items.drop_last());
        lemma_place_head_row_ordered(listed_heads(items.drop_last()), items.last());
        assert(items =~= items.drop_last().push(items.last()));
    }
}

/// Rows that are in order stay as they are.
pub proof fn lemma_listed_heads_keeps_ordered(items: Seq<VbStackHeadView>)
    requires
        head_rows_listed(items),
    ensures
        listed_heads(items) == items,
    decreases items.len(),
{
    if items.len() > 0 {
        let front = items.drop_last();
        assert forall|i: int, j: int| 0 <= i < j < front.len() implies head_row_le(front[i], front[j]) by {
            assert(head_row_le(items[i], items[j]));
        }
        lemma_listed_heads_keeps_ordered(front);
        if front.len() > 0 {
            assert(head_row_le(items[front.len() - 1], items[items.len() - 1]));
            assert(front[front.len() - 1] == items[front.len() - 1]);
        }
        lemma_place_head_row_at(front, items.last(), front.len() as int);
        assert(front.insert(front.len() as int, items.last()) =~= items);
    }
}

/// Bring head rows into the order in which the store lists them.
pub fn list_heads(items: &Vec<VbStackHead>) -> (out: Vec<VbStackHead>)
    ensures
        out@.map_values(|x: VbStackHead| x@) == listed_heads(items@.map_values(|x: VbStackHead| x@)),
{
    let ghost views = items@.map_values(|x: VbStackHead| x@);
    let mut out: Vec<VbStackHead> = Vec::new();
    let mut i: usize = 0;
    proof {
        assert(views.take(0) =~= Seq::empty());
        assert(out@.map_values(|x: VbStackHead| x@) =~= Seq::empty());
    }
    while i < items.len()
        invariant
            i <= items.len(),
            views == items@.map_values(|x: VbStackHead| x@),
            out@.len() == i,
            out@.map_values(|x: VbStackHead| x@) == listed_heads(views.take(i as int)),
        decreases items.len() - i,
    {
        let x = items[i].duplicate();
        let ghost sorted = out@.map_values(|x: VbStackHead| x@);
        proof {
            assert(views.take(i + 1).drop_last() =~= views.take(i as int));
            assert(views.take(i + 1).last() == x@);
        }
        let mut p: usize = out.len();
        while p > 0 && !head_row_before(&out[p - 1], &x)
            invariant
                p <= out.len(),
                sorted == out@.map_values(|x: VbStackHead| x@),
                forall|k: int| p <= k < sorted.len() ==> !head_row_le(#[trigger] sorted[k], x@),
            decreases p,
        {
            proof {
                assert(sorted[p - 1] == out@[p - 1]@);
            }
            p -= 1;
        }
        proof {
            if p > 0 {
                assert(sorted[p - 1] == out@[p - 1]@);
            }
            lemma_place_head_row_at(sorted, x@, p as int);
            assert(out@.insert(p as int, x).map_values(|x: VbStackHead| x@) =~= sorted.insert(
                p as int,
                x@,
            ));
        }
        out.insert(p, x);
        i += 1;
    }
    proof {
        assert(views.take(items.len() as int) =~= views);
    }
    out
}

/// `sorted` with `x` placed behind the last row that may stand before it.
pub open spec fn place_target_row(sorted: Seq<VbBranchTargetView>, x: VbBranchTargetView) -> Seq<VbBranchTargetView>
    decreases sorted.len(),
{
    if sorted.len() == 0 {
        seq![x]
    } else if target_row_le(sorted.last(), x) {
        sorted.push(x)
    } else {
        place_target_row(sorted.drop_last(), x).push(sorted.last())
    }
}

/// The target rows as the store lists them.
pub open spec fn listed_targets(items: Seq<VbBranchTargetView>) -> Seq<VbBranchTargetView>
    decreases items.len(),
{
    if items.len() == 0 {
        Seq::empty()
    } else {
        place_target_row(listed_targets(items.drop_last()), items.last())
    }
}

/// Whether the rows are in the order in which the store lists them.
pub open spec fn target_rows_listed(rows: Seq<VbBranchTargetView>) -> bool {
    forall|i: int, j: int| 0 <= i < j < rows.len() ==> target_row_le(rows[i], rows[j])
}

proof fn lemma_place_target_row_at(sorted: Seq<VbBranchTargetView>, x: VbBranchTargetView, p: int)
    requires
        0 <= p <= sorted.len(),
        forall|k: int| p <= k < sorted.len() ==> !target_row_le(#[trigger] sorted[k], x),
        p > 0 ==> target_row_le(sorted[p - 1], x),
    ensures
        place_target_row(sorted, x) == sorted.insert(p, x),
    decreases sorted.len() - p,
{
    if p == sorted.len() {
        if sorted.len() > 0 {
            assert(sorted.last() == sorted[p - 1]);
            assert(sorted.insert(p, x) =~= sorted.push(x));
        } else {
            assert(sorted.insert(p, x) =~= seq![x]);
        }
    } else {
        let front = sorted.drop_last();
        assert(!target_row_le(sorted[sorted.len() - 1], x));
        assert forall|k: int| p <= k < front.len() implies !target_row_le(#[trigger] front[k], x) by {
            assert(front[k] == sorted[k]);
        }
        if p > 0 {
            assert(front[p - 1] == sorted[p - 1]);
        }
        lemma_place_target_row_at(front, x, p);
        assert(sorted.insert(p, x) =~= front.insert(p, x).push(sorted.last()));
    }
}

proof fn lemma_place_target_row_ordered(sorted: Seq<VbBranchTargetView>, x: VbBranchTargetView)
    requires
        target_rows_listed(sorted),
    ensures
        target_rows_listed(place_target_row(sorted, x)),
        place_target_row(sorted, x).to_multiset() == sorted.to_multiset().insert(x),
    decreases sorted.len(),
{
    broadcast use vstd::seq_lib::group_to_multiset_ensures;

    let out = place_target_row(sorted, x);
    if sorted.len() == 0 {
        assert(sorted =~= Seq::<VbBranchTargetView>::empty());
        assert(out =~= Seq::<VbBranchTargetView>::empty().push(x));
    } else if target_row_le(sorted.last(), x) {
        assert forall|i: int, j: int| 0 <= i < j < out.len() implies target_row_le(out[i], out[j]) by {
            if j == sorted.len() {
                if i < sorted.len() - 1 {
                    assert(target_row_le(sorted[i], sorted[sorted.len() - 1]));
                    lemma_target_row_le_trans(sorted[i], sorted.last(), x);
                }
            } else {
                assert(target_row_le(sorted[i], sorted[j]));
            }
        }
    } else {
        let front = sorted.drop_last();
        let last = sorted.last();
        assert forall|i: int, j: int| 0 <= i < j < front.len() implies target_row_le(front[i], front[j]) by {
            assert(target_row_le(sorted[i], sorted[j]));
        }
        lemma_place_target_row_ordered(front, x);
        let inner = place_target_row(front, x);
        assert(sorted =~= front.push(last));
        assert(out.to_multiset() =~= sorted.to_multiset().insert(x));
        lemma_target_row_le_total(last, x);
        assert forall|i: int, j: int| 0 <= i < j < out.len() implies target_row_le(out[i], out[j]) by {
            if j == inner.len() {
                assert(inner.contains(inner[i]));
                assert(inner.to_multiset().count(inner[i]) > 0);
                if inner[i] != x {
                    assert(front.to_multiset().count(inner[i]) > 0);
                    assert(front.contains(inner[i]));
                    let k = choose|k: int| 0 <= k < front.len() && front[k] == inner[i];
                    assert(target_row_le(sorted[k], sorted[sorted.len() - 1]));
                }
            } else {
                assert(target_row_le(inner[i], inner[j]));
            }
        }
    }
}

/// The listed target rows are the given rows, in order.
pub proof fn lemma_listed_targets_is_ordered(items: Seq<VbBranchTargetView>)
    ensures
        target_rows_listed(listed_targets(items)),
        listed_targets(items).to_multiset() == items.to_multiset(),
    decreases items.len(),
{
    broadcast use vstd::seq_lib::group_to_multiset_ensures;

    if items.len() == 0 {
        assert(items =~= Seq::<VbBranchTargetView>::empty());
    } else {
        lemma_listed_targets_is_ordered(items.drop_last());
        lemma_place_target_row_ordered(listed_targets(items.drop_last()), items.last());
        assert(items =~= items.drop_last().push(items.last()));
    }
}

/// Rows that are in order stay as they are.
pub proof fn lemma_listed_targets_keeps_ordered(items: Seq<VbBranchTargetView>)
    requires
        target_rows_listed(items),
    ensures
        listed_targets(items) == items,
    decreases items.len(),
{
    if items.len() > 0 {
        let front = items.drop_last();
        assert forall|i: int, j: int| 0 <= i < j < front.len() implies target_row_le(front[i], front[j]) by {
            assert(target_row_le(items[i], items[j]));
        }
        lemma_listed_targets_keeps_ordered(front);
        if front.len() > 0 {
            assert(target_row_le(items[front.len() - 1], items[items.len() - 1]));
            assert(front[front.len() - 1] == items[front.len() - 1]);
        }
        lemma_place_target_row_at(front, items.last(), front.len() as int);
        assert(front.insert(front.len() as int, items.last()) =~= items);
    }
}

/// Bring target rows into the order in which the store lists them.
pub fn list_targets(items: &Vec<VbBranchTarget>) -> (out: Vec<VbBranchTarget>)
    ensures
        out@.map_values(|x: VbBranchTarget| x@) == listed_targets(items@.map_values(|x: VbBranchTarget| x@)),
{
    let ghost views = items@.map_values(|x: VbBranchTarget| x@);
    let mut out: Vec<VbBranchTarget> = Vec::new();
    let mut i: usize = 0;
    proof {
        assert(views.take(0) =~= Seq::empty());
        assert(out@.map_values(|x: VbBranchTarget| x@) =~= Seq::empty());
    }
    while i < items.len()
        invariant
            i <= items.len(),
            views == items@.map_values(|x: VbBranchTarget| x@),
            out@.len() == i,
            out@.map_values(|x: VbBranchTarget| x@) == listed_targets(views.take(i as int)),
        decreases items.len() - i,
    {
        let x = items[i].duplicate();
        let ghost sorted = out@.map_values(|x: VbBranchTarget| x@);
        proof {
            assert(views.take(i + 1).drop_last() =~= views.take(i as int));
            assert(views.take(i + 1).last() == x@);
        }
        let mut p: usize = out.len();
        while p > 0 && !target_row_before(&out[p - 1], &x)
            invariant
                p <= out.len(),
                sorted == out@.map_values(|x: VbBranchTarget| x@),
                forall|k: int| p <= k < sorted.len() ==> !target_row_le(#[trigger] sorted[k], x@),
            decreases p,
        {
            proof {
                assert(sorted[p - 1] == out@[p - 1]@);
            }
            p -= 1;
        }
        proof {
            if p > 0 {
                assert(sorted[p - 1] == out@[p - 1]@);
            }
            lemma_place_target_row_at(sorted, x@, p as int);
            assert(out@.insert(p as int, x).map_values(|x: VbBranchTarget| x@) =~= sorted.insert(
                p as int,
                x@,
            ));
        }
        out.insert(p, x);
        i += 1;
    }
    proof {
        assert(views.take(items.len() as int) =~= views);
    }
    out
}

/// A snapshot as the store lists it: every table in its order.
pub open spec fn listed(s: VirtualBranchesSnapshotView) -> VirtualBranchesSnapshotView {
    VirtualBranchesSnapshotView {
        state: s.state,
        stacks: listed_stacks(s.stacks),
        heads: listed_heads(s.heads),
        branch_targets: listed_targets(s.branch_targets),
    }
}

/// Bring the rows of a snapshot into the order in which the store lists
/// them.
pub fn list_snapshot(snapshot: &VirtualBranchesSnapshot) -> (r: VirtualBranchesSnapshot)
    ensures
        r@ == listed(snapshot@),
{
    VirtualBranchesSnapshot {
        state: snapshot.state.duplicate(),
        stacks: list_stacks(&snapshot.stacks),
        heads: list_heads(&snapshot.heads),
        branch_targets: list_targets(&snapshot.branch_targets),
    }
}

/// What the store lists is in order, and listing it again changes nothing.
pub proof fn lemma_listed_is_stable(s: VirtualBranchesSnapshotView)
    ensures
        stack_rows_listed(listed(s).stacks),
        head_rows_listed(listed(s).heads),
        target_rows_listed(listed(s).branch_targets),
        listed(listed(s)) == listed(s),
{
    lemma_listed_stacks_is_ordered(s.stacks);
    lemma_listed_heads_is_ordered(s.heads);
    lemma_listed_targets_is_ordered(s.branch_targets);
    lemma_listed_stacks_keeps_ordered(listed_stacks(s.stacks));
    lemma_listed_heads_keeps_ordered(listed_heads(s.heads));
    lemma_listed_targets_keeps_ordered(listed_targets(s.branch_targets));
}

} // verus!
