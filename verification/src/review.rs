//! Reading review messages and review selections.
//!
//! A review message is a text whose first line is the title and whose
//! remaining lines, after any blank ones, are the body. A selection is a
//! comma-separated list of review numbers.

use vstd::prelude::*;
use crate::numbers::{parse_bounded, parse_bounded_spec};
use crate::chars::{
    all_blank, all_space, append, from_chars, is_digit, slice, to_chars, trim, trim_spec,
};

verus! {

/// The title and the body of a review.
#[derive(Debug, Clone)]
pub struct ForgeReviewMessage {
    pub title: String,
    pub body: String,
}

/// Why a review message was refused.
#[derive(Debug, Clone, Copy, PartialEq, Eq, Structural)]
pub enum ReviewMessageError {
    /// The first line holds no title.
    EmptyTitle,
}

impl ReviewMessageError {
    /// The text of the error.
    pub fn to_string(&self) -> (r: String)
        ensures
            r@ == "Aborting due to empty PR title"@,
    {
        "Aborting due to empty PR title".to_owned()
    }
}

/// The texts of the pieces.
pub open spec fn pieces_view(v: Seq<Vec<char>>) -> Seq<Seq<char>> {
    Seq::new(v.len(), |i: int| v[i]@)
}

/// The pieces of `s` between occurrences of `c`, from the piece that
/// starts at `start` on, appended to `acc`; `i` is the position of the
/// scan.
pub open spec fn split_from(s: Seq<char>, c: char, i: int, start: int, acc: Seq<Seq<char>>) -> Seq<
    Seq<char>,
>
    decreases s.len() - i,
{
    if i < 0 || i >= s.len() {
        acc.push(s.subrange(start, s.len() as int))
    } else if s[i] == c {
        split_from(s, c, i + 1, i + 1, acc.push(s.subrange(start, i)))
    } else {
        split_from(s, c, i + 1, start, acc)
    }
}

/// The pieces of `s` between occurrences of `c`; one more than there are
/// occurrences.
pub open spec fn split_spec(s: Seq<char>, c: char) -> Seq<Seq<char>> {
    split_from(s, c, 0, 0, Seq::empty())
}

/// Split `s` at every occurrence of `c`.
pub fn split(s: &Vec<char>, c: char) -> (r: Vec<Vec<char>>)
    ensures
        pieces_view(r@) == split_spec(s@, c),
        r.len() >= 1,
{
    let mut out: Vec<Vec<char>> = Vec::new();
    let mut start: usize = 0;
    let mut i: usize = 0;
    proof {
        assert(pieces_view(out@) =~= Seq::empty());
    }
    while i < s.len()
        invariant
            start <= i <= s.len(),
            split_spec(s@, c) == split_from(s@, c, i as int, start as int, pieces_view(out@)),
        decreases s.len() - i,
    {
        if s[i] == c {
            let piece = slice(s, start, i);
            proof {
                assert(pieces_view(out@.push(piece)) =~= pieces_view(out@).push(piece@));
            }
            out.push(piece);
            start = i + 1;
        }
        i += 1;
    }
    let piece = slice(s, start, s.len());
    proof {
        assert(pieces_view(out@.push(piece)) =~= pieces_view(out@).push(piece@));
    }
    out.push(piece);
    out
}

/// `line` without a carriage return at its end.
pub open spec fn strip_cr(line: Seq<char>) -> Seq<char> {
    if line.len() > 0 && line.last() == '\r' {
        line.drop_last()
    } else {
        line
    }
}

/// The lines of a text. A line ends at a line feed, or at a carriage
/// return followed by one; the last line needs no line ending.
pub open spec fn lines_spec(s: Seq<char>) -> Seq<Seq<char>> {
    let parts = split_spec(s, '\n');
    let n = if parts.len() > 0 && parts.last().len() == 0 {
        parts.len() - 1
    } else {
        parts.len() as int
    };
    Seq::new(
        n as nat,
        |k: int|
            if k < parts.len() - 1 {
                strip_cr(parts[k])
            } else {
                parts[k]
            },
    )
}

/// Split a text into its lines.
pub fn lines(s: &Vec<char>) -> (r: Vec<Vec<char>>)
    ensures
        pieces_view(r@) == lines_spec(s@),
{
    let parts = split(s, '\n');
    let ghost views = pieces_view(parts@);
    let n = if parts[parts.len() - 1].len() == 0 {
        parts.len() - 1
    } else {
        parts.len()
    };
    assert(views.last() == parts@[parts.len() - 1]@);
    let mut out: Vec<Vec<char>> = Vec::new();
    let mut k: usize = 0;
    while k < n
        invariant
            k <= n <= parts.len(),
            views == pieces_view(parts@),
            out@.len() == k,
            forall|j: int| 0 <= j < k ==> (#[trigger] out@[j])@ == lines_spec(s@)[j],
            lines_spec(s@).len() == n,
            views == split_spec(s@, '\n'),
        decreases n - k,
    {
        let part = &parts[k];
        assert(views[k as int] == part@);
        let line = if k + 1 < parts.len() && part.len() > 0 && part[part.len() - 1] == '\r' {
            let l = slice(part, 0, part.len() - 1);
            assert(l@ =~= part@.drop_last());
            l
        } else {
            part.clone()
        };
        out.push(line);
        k += 1;
    }
    proof {
        assert(pieces_view(out@) =~= lines_spec(s@));
    }
    out
}

/// The position of the first line at or after `i` that is not blank.
pub open spec fn skip_blank_lines(lines: Seq<Seq<char>>, i: int) -> int
    decreases lines.len() - i,
{
    if 0 <= i < lines.len() && all_space(lines[i]) {
        skip_blank_lines(lines, i + 1)
    } else {
        i
    }
}

/// The lines from `i` on, each after the first preceded by a line feed,
/// appended to `acc`; `first` tells whether the next line is the first.
pub open spec fn join_lines_from(lines: Seq<Seq<char>>, i: int, first: bool, acc: Seq<char>) -> Seq<
    char,
>
    decreases lines.len() - i,
{
    if i < 0 || i >= lines.len() {
        acc
    } else if first {
        join_lines_from(lines, i + 1, false, acc + lines[i])
    } else {
        join_lines_from(lines, i + 1, false, acc.push('\n') + lines[i])
    }
}

/// The title of a review message: its first line, trimmed.
pub open spec fn review_title(content: Seq<char>) -> Seq<char> {
    let lines = lines_spec(content);
    if lines.len() == 0 {
        Seq::empty()
    } else {
        trim_spec(lines[0])
    }
}

/// The body of a review message: the lines after the title, without the
/// blank lines that lead them, joined by line feeds and trimmed.
pub open spec fn review_body(content: Seq<char>) -> Seq<char> {
    let lines = lines_spec(content);
    trim_spec(join_lines_from(lines, skip_blank_lines(lines, 1), true, Seq::empty()))
}

fn join_lines(lines: &Vec<Vec<char>>, from: usize) -> (r: Vec<char>)
    requires
        from <= lines.len() || lines.len() == 0,
    ensures
        r@ == join_lines_from(pieces_view(lines@), from as int, true, Seq::empty()),
{
    let ghost views = pieces_view(lines@);
    let mut acc: Vec<char> = Vec::new();
    let mut first = true;
    let mut i: usize = from;
    while i < lines.len()
        invariant
            views == pieces_view(lines@),
            join_lines_from(views, from as int, true, Seq::empty()) == join_lines_from(
                views,
                i as int,
                first,
                acc@,
            ),
        decreases lines.len() - i,
    {
        assert(views[i as int] == lines@[i as int]@);
        if !first {
            acc.push('\n');
        }
        append(&mut acc, &lines[i]);
        first = false;
        i += 1;
    }
    acc
}

/// Read the title and the body of a review from a text.
///
/// The text is refused exactly where its first line holds no title.
pub fn parse_review_message(content: &str) -> (r: Result<ForgeReviewMessage, ReviewMessageError>)
    ensures
        match r {
            Ok(m) => review_title(content@).len() > 0 && m.title@ == review_title(content@)
                && m.body@ == review_body(content@),
            Err(e) => review_title(content@).len() == 0 && e == ReviewMessageError::EmptyTitle,
        },
{
    let text = to_chars(content);
    let all = lines(&text);
    let ghost views = pieces_view(all@);
    let title = if all.len() == 0 {
        Vec::new()
    } else {
        assert(views[0] == all@[0]@);
        trim(&all[0])
    };
    if title.len() == 0 {
        return Err(ReviewMessageError::EmptyTitle);
    }
    let mut from: usize = 1;
    while from < all.len() && all_blank(&all[from])
        invariant
            1 <= from <= all.len(),
            views == pieces_view(all@),
            skip_blank_lines(views, 1) == skip_blank_lines(views, from as int),
        decreases all.len() - from,
    {
        assert(views[from as int] == all@[from as int]@);
        from += 1;
    }
    proof {
        if from < all.len() {
            assert(views[from as int] == all@[from as int]@);
        }
    }
    let body = trim(&join_lines(&all, from));
    Ok(ForgeReviewMessage { title: from_chars(&title), body: from_chars(&body) })
}

/// The title of a commit: the first line of its message, if it has one.
pub open spec fn commit_title_spec(message: Option<Seq<char>>) -> Option<Seq<char>> {
    match message {
        Some(m) => if lines_spec(m).len() > 0 {
            Some(lines_spec(m)[0])
        } else {
            None
        },
        None => None,
    }
}

/// The value of an optional text.
pub open spec fn opt_text(o: Option<&str>) -> Option<Seq<char>> {
    match o {
        Some(s) => Some(s@),
        None => None,
    }
}

/// Extract the title of a commit from its message.
pub fn extract_commit_title(message: Option<&str>) -> (r: Option<String>)
    ensures
        crate::snapshot::opt_view(r) == commit_title_spec(opt_text(message)),
{
    match message {
        Some(m) => {
            let all = lines(&to_chars(m));
            if all.len() > 0 {
                assert(pieces_view(all@)[0] == all@[0]@);
                Some(from_chars(&all[0]))
            } else {
                None
            }
        },
        None => None,
    }
}

/// The description of a commit: the lines of its message after the title
/// and the blank lines that follow it, if any line is left.
pub open spec fn commit_description_spec(message: Option<Seq<char>>) -> Option<Seq<Seq<char>>> {
    match message {
        Some(m) => {
            let lines = lines_spec(m);
            let from = skip_blank_lines(lines, 1);
            if from < lines.len() {
                Some(lines.skip(from))
            } else {
                None
            }
        },
        None => None,
    }
}

/// Extract the description of a commit from its message.
pub fn extract_commit_description(message: Option<&str>) -> (r: Option<Vec<String>>)
    ensures
        match r {
            Some(d) => commit_description_spec(opt_text(message)) == Some(
                Seq::new(d@.len(), |i: int| d@[i]@),
            ),
            None => commit_description_spec(opt_text(message)) is None,
        },
{
    let m = match message {
        Some(m) => m,
        None => {
            return None;
        },
    };
    let all = lines(&to_chars(m));
    let ghost views = pieces_view(all@);
    let mut from: usize = 1;
    while from < all.len() && all_blank(&all[from])
        invariant
            1 <= from,
            from <= all.len() || all.len() == 0,
            views == pieces_view(all@),
            skip_blank_lines(views, 1) == skip_blank_lines(views, from as int),
        decreases all.len() - from,
    {
        assert(views[from as int] == all@[from as int]@);
        from += 1;
    }
    proof {
        if from < all.len() {
            assert(views[from as int] == all@[from as int]@);
        }
    }
    if from >= all.len() {
        return None;
    }
    let mut out: Vec<String> = Vec::new();
    let mut i: usize = from;
    while i < all.len()
        invariant
            from <= i <= all.len(),
            views == pieces_view(all@),
            out@.len() == i - from,
            forall|k: int| 0 <= k < out@.len() ==> (#[trigger] out@[k])@ == views[from + k],
        decreases all.len() - i,
    {
        assert(views[i as int] == all@[i as int]@);
        out.push(from_chars(&all[i]));
        i += 1;
    }
    proof {
        assert(Seq::new(out@.len(), |i: int| out@[i]@) =~= views.skip(from as int));
    }
    Some(out)
}

/// The number that a text denotes: decimal digits, at least one, with an
/// optional plus sign in front, and a value that fits.
pub open spec fn parse_usize_spec(s: Seq<char>) -> Option<usize> {
    match parse_bounded_spec(s, usize::MAX as u128) {
        Some(v) => Some(v as usize),
        None => None,
    }
}

/// Read a number from a text.
pub fn parse_usize(s: &Vec<char>) -> (r: Option<usize>)
    ensures
        r == parse_usize_spec(s@),
{
    match parse_bounded(s, usize::MAX as u128) {
        Some(v) => Some(v as usize),
        None => None,
    }
}

/// The numbers among the pieces from `i` on, appended to `acc`: each piece
/// is trimmed, and pieces that denote no number are left out.
pub open spec fn numbers_from(pieces: Seq<Seq<char>>, i: int, acc: Seq<usize>) -> Seq<usize>
    decreases pieces.len() - i,
{
    if i < 0 || i >= pieces.len() {
        acc
    } else {
        match parse_usize_spec(trim_spec(pieces[i])) {
            Some(n) => numbers_from(pieces, i + 1, acc.push(n)),
            None => numbers_from(pieces, i + 1, acc),
        }
    }
}

/// The review numbers that a selection names: the comma-separated pieces
/// that denote a number, in order.
pub open spec fn extract_valid_ids_spec(selector: Seq<char>) -> Seq<usize> {
    numbers_from(split_spec(selector, ','), 0, Seq::empty())
}

/// Read the review numbers of a comma-separated selection.
pub fn extract_valid_ids(selector: &str) -> (r: Vec<usize>)
    ensures
        r@ == extract_valid_ids_spec(selector@),
{
    let pieces = split(&to_chars(selector), ',');
    let ghost views = pieces_view(pieces@);
    let mut out: Vec<usize> = Vec::new();
    let mut i: usize = 0;
    while i < pieces.len()
        invariant
            i <= pieces.len(),
            views == pieces_view(pieces@),
            numbers_from(views, 0, Seq::empty()) == numbers_from(views, i as int, out@),
        decreases pieces.len() - i,
    {
        assert(views[i as int] == pieces@[i as int]@);
        if let Some(n) = parse_usize(&trim(&pieces[i])) {
            out.push(n);
        }
        i += 1;
    }
    out
}

/// The review numbers of the heads that the selection names: the numbers
/// of the heads, in order, that occur among `valid`.
pub open spec fn selected_reviews(heads: Seq<Option<usize>>, valid: Seq<usize>) -> Seq<usize>
    decreases heads.len(),
{
    if heads.len() == 0 {
        Seq::empty()
    } else {
        match heads.last() {
            Some(id) => if valid.contains(id) {
                selected_reviews(heads.drop_last(), valid).push(id)
            } else {
                selected_reviews(heads.drop_last(), valid)
            },
            None => selected_reviews(heads.drop_last(), valid),
        }
    }
}

/// Resolve a selection of review numbers against the reviews of the heads
/// in the workspace; `head_reviews` lists the review of each head, stack by
/// stack.
pub fn parse_review_ids(selector: &str, head_reviews: &Vec<Option<usize>>) -> (r: Vec<usize>)
    ensures
        r@ == selected_reviews(head_reviews@, extract_valid_ids_spec(selector@)),
{
    let valid = extract_valid_ids(selector);
    let mut out: Vec<usize> = Vec::new();
    let mut i: usize = 0;
    while i < head_reviews.len()
        invariant
            i <= head_reviews.len(),
            out@ == selected_reviews(head_reviews@.take(i as int), valid@),
        decreases head_reviews.len() - i,
    {
        proof {
            assert(head_reviews@.take(i + 1).drop_last() =~= head_reviews@.take(i as int));
        }
        if let Some(id) = head_reviews[i] {
            let mut k: usize = 0;
            let mut found = false;
            while k < valid.len() && !found
                invariant
                    k <= valid.len(),
                    found ==> valid@.contains(id),
                    !found ==> forall|j: int| 0 <= j < k ==> valid@[j] != id,
                decreases valid.len() - k, (if found { 0int } else { 1int }),
            {
                if valid[k] == id {
                    found = true;
                } else {
                    k += 1;
                }
            }
            if found {
                out.push(id);
            }
        }
        i += 1;
    }
    proof {
        assert(head_reviews@.take(head_reviews.len() as int) =~= head_reviews@);
    }
    out
}

} // verus!
