//! What the branch listing shows beside a branch.

use vstd::prelude::*;
use crate::chars::{append, from_chars, to_chars};
use crate::numbers::{i64_to_text, signed_decimal_text};

verus! {

/// The milliseconds of a day.
pub const MS_PER_DAY: u128 = 86_400_000;

/// How many whole days lie between `timestamp_ms` and `now_ms`; none where
/// the time lies ahead.
pub open spec fn days_ago_spec(timestamp_ms: u128, now_ms: u128) -> i64 {
    if now_ms >= timestamp_ms {
        ((now_ms - timestamp_ms) / MS_PER_DAY as int) as i64
    } else {
        0
    }
}

/// The age of a time as the listing shows it: today, yesterday, then in
/// days up to a week, in weeks up to thirty days, in months of thirty days
/// up to a year, and in years of 365 days.
pub open spec fn date_label_spec(days_ago: i64) -> Seq<char> {
    if days_ago == 0 {
        "today"@
    } else if days_ago == 1 {
        "yesterday"@
    } else if days_ago < 7 {
        signed_decimal_text(days_ago) + "d ago"@
    } else if days_ago < 30 {
        signed_decimal_text((days_ago / 7) as i64) + "w ago"@
    } else if days_ago < 365 {
        signed_decimal_text((days_ago / 30) as i64) + "mo ago"@
    } else {
        signed_decimal_text((days_ago / 365) as i64) + "y ago"@
    }
}

fn label(count: i64, unit: &str) -> (r: String)
    ensures
        r@ == signed_decimal_text(count) + unit@,
{
    let mut text = to_chars(i64_to_text(count).as_str());
    append(&mut text, &to_chars(unit));
    from_chars(&text)
}

/// Describe how long ago `timestamp_ms` was, seen from `now_ms`; both are
/// milliseconds since the epoch.
pub fn format_date_for_display(timestamp_ms: u128, now_ms: u128) -> (r: String)
    ensures
        r@ == date_label_spec(days_ago_spec(timestamp_ms, now_ms)),
{
    let age_ms = if now_ms >= timestamp_ms {
        now_ms - timestamp_ms
    } else {
        0
    };
    let days_ago = #[verifier::truncate] ((age_ms / MS_PER_DAY) as i64);
    if days_ago == 0 {
        "today".to_owned()
    } else if days_ago == 1 {
        "yesterday".to_owned()
    } else if days_ago < 7 {
        label(days_ago, "d ago")
    } else if days_ago < 30 {
        label(days_ago / 7, "w ago")
    } else if days_ago < 365 {
        label(days_ago / 30, "mo ago")
    } else {
        label(days_ago / 365, "y ago")
    }
}

/// What the listing knows of a head when it looks for branches without a
/// review.
#[derive(Debug, Clone, PartialEq, Eq)]
pub struct HeadReviews {
    /// The name of the head's branch.
    pub name: String,
    /// How many open reviews the forge lists for the branch.
    pub open_reviews: usize,
    /// Whether a review is associated with the head.
    pub has_review_id: bool,
}

/// Whether a head has no review: the forge lists no open one, and none is
/// associated with the head.
pub open spec fn lacks_review(h: HeadReviews) -> bool {
    h.open_reviews == 0 && !h.has_review_id
}

/// The names of the heads among the first `n` that have no review, in
/// order.
pub open spec fn names_without_reviews(heads: Seq<HeadReviews>, n: int) -> Seq<Seq<char>>
    decreases n,
{
    if n <= 0 || n > heads.len() {
        Seq::empty()
    } else if lacks_review(heads[n - 1]) {
        names_without_reviews(heads, n - 1).push(heads[n - 1].name@)
    } else {
        names_without_reviews(heads, n - 1)
    }
}

/// List the branches that have no review yet; `heads` are the heads of
/// the applied stacks, stack by stack.
pub fn get_branches_without_prs(heads: &Vec<HeadReviews>) -> (r: Vec<String>)
    ensures
        Seq::new(r@.len(), |i: int| r@[i]@) == names_without_reviews(heads@, heads@.len() as int),
{
    let mut out: Vec<String> = Vec::new();
    let mut i: usize = 0;
    while i < heads.len()
        invariant
            i <= heads.len(),
            Seq::new(out@.len(), |k: int| out@[k]@) == names_without_reviews(heads@, i as int),
        decreases heads.len() - i,
    {
        let ghost before = Seq::new(out@.len(), |k: int| out@[k]@);
        if heads[i].open_reviews == 0 && !heads[i].has_review_id {
            let name = heads[i].name.clone();
            out.push(name);
            proof {
                assert(Seq::new(out@.len(), |k: int| out@[k]@) =~= before.push(heads@[i as int].name@));
            }
        }
        i += 1;
    }
    out
}

} // verus!
