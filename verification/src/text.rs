//! Display-width aware text truncation with ANSI escape pass-through.

use vstd::prelude::*;
use crate::chars::{to_chars, from_chars};
use unicode_width::{UnicodeWidthChar, UnicodeWidthStr};

verus! {

/// The character that starts an ANSI escape sequence.
pub open spec fn is_escape_start(c: char) -> bool {
    c == '\x1b'
}

/// The character that ends an ANSI escape sequence.
pub open spec fn is_escape_end(c: char) -> bool {
    c == 'm'
}

/// The visible characters of `s[i..]`, appended to `acc`, when the scan
/// reaches position `i` inside (`in_escape`) or outside an escape sequence.
///
/// An escape sequence runs from an escape character up to and including the
/// next `m`; an unterminated sequence swallows the rest of the input.
pub open spec fn strip_from(s: Seq<char>, i: int, in_escape: bool, acc: Seq<char>) -> Seq<char>
    decreases s.len() - i,
{
    if i < 0 || i >= s.len() {
        acc
    } else if is_escape_start(s[i]) {
        strip_from(s, i + 1, true, acc)
    } else if in_escape {
        strip_from(s, i + 1, !is_escape_end(s[i]), acc)
    } else {
        strip_from(s, i + 1, false, acc.push(s[i]))
    }
}

/// `s` with every ANSI escape sequence removed.
pub open spec fn strip_ansi_spec(s: Seq<char>) -> Seq<char> {
    strip_from(s, 0, false, Seq::empty())
}

/// Remove all ANSI escape sequences from `s`, returning plain text.
pub fn strip_ansi_codes(s: &str) -> (out: String)
    ensures
        out@ == strip_ansi_spec(s@),
{
    let chars = to_chars(s);
    let stripped = strip_ansi_chars(&chars);
    from_chars(&stripped)
}

/// [`strip_ansi_codes`] on a character vector.
pub fn strip_ansi_chars(s: &Vec<char>) -> (out: Vec<char>)
    ensures
        out@ == strip_ansi_spec(s@),
{
    let mut out: Vec<char> = Vec::new();
    let mut in_escape = false;
    let mut i: usize = 0;
    while i < s.len()
        invariant
            i <= s.len(),
            strip_ansi_spec(s@) == strip_from(s@, i as int, in_escape, out@),
        decreases s.len() - i,
    {
        let ch = s[i];
        if ch == '\x1b' {
            in_escape = true;
        } else if in_escape {
            if ch == 'm' {
                in_escape = false;
            }
        } else {
            out.push(ch);
        }
        i += 1;
    }
    out
}

/// The display width of one character in terminal columns, as the
/// `unicode-width` tables give it; `None` for control characters.
pub uninterp spec fn char_display_width(c: char) -> Option<usize>;

/// The display width of a whole string in terminal columns, as the
/// `unicode-width` tables give it.
pub uninterp spec fn str_display_width(s: Seq<char>) -> usize;

/// The columns a character takes while scanning: control characters take none.
pub open spec fn char_columns(c: char) -> int {
    match char_display_width(c) {
        Some(w) => w as int,
        None => 0,
    }
}

/// `UnicodeWidthChar::width` of `unicode-width`: a table lookup that depends
/// on the character alone.
#[verifier::external_body]
fn char_width(c: char) -> (w: Option<usize>)
    ensures
        w == char_display_width(c),
{
    UnicodeWidthChar::width(c)
}

/// `UnicodeWidthStr::width` of `unicode-width`: the width of the string,
/// a function of its characters alone.
#[verifier::external_body]
fn str_width(s: &str) -> (w: usize)
    ensures
        w == str_display_width(s@),
{
    UnicodeWidthStr::width(s)
}

/// The display width of `s` once its ANSI escape sequences are removed.
pub open spec fn visible_width(s: Seq<char>) -> usize {
    str_display_width(strip_ansi_spec(s))
}

/// Measure the display width of `s`, ignoring ANSI escape sequences.
pub fn measure_visible_width(s: &str) -> (w: usize)
    ensures
        w == visible_width(s@),
{
    let stripped = strip_ansi_codes(s);
    str_width(stripped.as_str())
}

/// The horizontal ellipsis that marks a cut.
pub open spec fn ellipsis() -> Seq<char> {
    seq!['\u{2026}']
}

/// The result of cutting `s[i..]` to the columns that remain of `target`.
///
/// `acc` is what has been emitted, `width` the columns it takes, `buf` the
/// escape sequence being read when `in_ansi` holds. Complete escape
/// sequences are copied without taking columns. The first visible character
/// that does not fit ends the scan, and `mark` is appended in its place. An
/// escape sequence left unterminated at the end of the input is dropped.
pub open spec fn cut_from(
    s: Seq<char>,
    i: int,
    in_ansi: bool,
    buf: Seq<char>,
    width: int,
    target: int,
    acc: Seq<char>,
    mark: Seq<char>,
) -> Seq<char>
    decreases s.len() - i,
{
    if i < 0 || i >= s.len() {
        acc
    } else if is_escape_start(s[i]) {
        cut_from(s, i + 1, true, buf.push(s[i]), width, target, acc, mark)
    } else if in_ansi {
        if is_escape_end(s[i]) {
            cut_from(s, i + 1, false, Seq::empty(), width, target, acc + buf.push(s[i]), mark)
        } else {
            cut_from(s, i + 1, true, buf.push(s[i]), width, target, acc, mark)
        }
    } else if width + char_columns(s[i]) > target {
        acc + mark
    } else {
        cut_from(s, i + 1, false, buf, width + char_columns(s[i]), target, acc.push(s[i]), mark)
    }
}

/// `s` cut to at most `target` columns of visible text, with `mark` appended
/// where the cut happened.
pub open spec fn cut_to_width(s: Seq<char>, target: int, mark: Seq<char>) -> Seq<char> {
    cut_from(s, 0, false, Seq::empty(), 0, target, Seq::empty(), mark)
}

/// Cut `s` to at most `target` columns of visible text; `mark` is appended
/// if and only if a visible character had to be left out.
pub fn cut_chars(s: &Vec<char>, target: usize, mark: &Vec<char>) -> (out: Vec<char>)
    ensures
        out@ == cut_to_width(s@, target as int, mark@),
{
    let mut out: Vec<char> = Vec::new();
    let mut buf: Vec<char> = Vec::new();
    let mut in_ansi = false;
    let mut width: usize = 0;
    let mut cut = false;
    let mut i: usize = 0;
    while i < s.len() && !cut
        invariant
            i <= s.len(),
            width <= target,
            !cut ==> cut_to_width(s@, target as int, mark@) == cut_from(
                s@,
                i as int,
                in_ansi,
                buf@,
                width as int,
                target as int,
                out@,
                mark@,
            ),
            cut ==> out@ == cut_to_width(s@, target as int, mark@),
        decreases s.len() - i, (if cut { 0int } else { 1int }),
    {
        let ch = s[i];
        if ch == '\x1b' {
            in_ansi = true;
            buf.push(ch);
            i += 1;
        } else if in_ansi {
            buf.push(ch);
            if ch == 'm' {
                out.append(&mut buf);
                in_ansi = false;
            }
            i += 1;
        } else {
            let ch_width = match char_width(ch) {
                Some(w) => w,
                None => 0,
            };
            if ch_width > target - width {
                let mut tail = mark.clone();
                out.append(&mut tail);
                cut = true;
            } else {
                out.push(ch);
                width = width + ch_width;
                i += 1;
            }
        }
    }
    out
}

/// What [`truncate_text`] returns for `text` and `max_width`.
///
/// Nothing fits in zero columns. Text whose visible width fits is returned
/// unchanged. In one column only the ellipsis fits. Otherwise one column is
/// kept for the ellipsis and the text is cut to the rest.
pub open spec fn truncate_text_spec(text: Seq<char>, max_width: usize) -> Seq<char> {
    if max_width == 0 {
        Seq::empty()
    } else if visible_width(text) <= max_width {
        text
    } else if max_width == 1 {
        ellipsis()
    } else {
        cut_to_width(text, max_width - 1, ellipsis())
    }
}

/// Truncate `text` to fit within `max_width` display columns.
///
/// ANSI escape sequences are passed through without counting toward the
/// width. When truncation occurs an ellipsis (one column wide) is appended.
pub fn truncate_text(text: &str, max_width: usize) -> (out: String)
    ensures
        out@ == truncate_text_spec(text@, max_width),
{
    if max_width == 0 {
        return String::new();
    }
    let visible = measure_visible_width(text);
    if visible <= max_width {
        return text.to_owned();
    }
    let mut mark: Vec<char> = Vec::new();
    mark.push('\u{2026}');
    proof {
        assert(mark@ =~= ellipsis());
    }
    if max_width == 1 {
        return from_chars(&mark);
    }
    let chars = to_chars(text);
    let out = cut_chars(&chars, max_width - 1, &mark);
    from_chars(&out)
}

} // verus!
