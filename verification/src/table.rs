//! A table of aligned columns that fits the terminal.

use vstd::prelude::*;
use crate::chars::{append, from_chars, to_chars};
use crate::text::{cut_chars, cut_to_width, ellipsis, measure_visible_width, visible_width};

verus! {

/// How a cell is aligned in its column.
#[derive(Debug, Clone, Copy, PartialEq, Eq, Structural)]
pub enum Alignment {
    Left,
}

/// A single cell of a table.
#[derive(Debug, Clone)]
pub struct Cell {
    pub content: String,
    pub width: Option<usize>,
    pub align: Alignment,
    /// A column marked so is never shrunk to fit the terminal.
    pub no_truncate: bool,
}

/// The mathematical value of a [`Cell`].
pub struct CellView {
    pub content: Seq<char>,
    pub width: Option<usize>,
    pub align: Alignment,
    pub no_truncate: bool,
}

impl View for Cell {
    type V = CellView;

    open spec fn view(&self) -> CellView {
        CellView {
            content: self.content@,
            width: self.width,
            align: self.align,
            no_truncate: self.no_truncate,
        }
    }
}

impl Cell {
    /// A cell with the given content, of flexible width, aligned left.
    pub fn new(content: &str) -> (r: Self)
        ensures
            r@ == (CellView {
                content: content@,
                width: None,
                align: Alignment::Left,
                no_truncate: false,
            }),
    {
        Cell { content: content.to_owned(), width: None, align: Alignment::Left, no_truncate: false }
    }

    /// The cell with a fixed width.
    pub fn with_width(self, width: usize) -> (r: Self)
        ensures
            r@ == (CellView { width: Some(width), ..self@ }),
    {
        let mut cell = self;
        cell.width = Some(width);
        cell
    }

    /// The cell marked as never to be shrunk.
    pub fn no_truncate(self) -> (r: Self)
        ensures
            r@ == (CellView { no_truncate: true, ..self@ }),
    {
        let mut cell = self;
        cell.no_truncate = true;
        cell
    }
}

/// A table with one header row that fixes the columns.
pub struct Table {
    headers: Vec<Cell>,
    rows: Vec<Vec<Cell>>,
    terminal_width: u16,
}

/// The mathematical value of a [`Table`].
pub struct TableView {
    pub headers: Seq<CellView>,
    pub rows: Seq<Seq<CellView>>,
    pub terminal_width: usize,
}

/// The values of the cells of a row.
pub open spec fn row_view(row: Seq<Cell>) -> Seq<CellView> {
    Seq::new(row.len(), |i: int| row[i]@)
}

/// The width of the terminal where it cannot be found out.
pub open spec fn default_terminal_width() -> u16 {
    80
}

/// `terminal_size::terminal_size`: the number of columns of the terminal
/// that the process is attached to, if it is attached to one.
#[verifier::external_body]
fn detect_terminal_columns() -> (r: Option<u16>) {
    terminal_size::terminal_size().map(|(w, _)| w.0)
}

/// The width of a terminal with the detected number of columns.
pub fn terminal_width_from(columns: Option<u16>) -> (r: u16)
    ensures
        r == (match columns {
            Some(w) => w,
            None => default_terminal_width(),
        }),
{
    match columns {
        Some(w) => w,
        None => 80,
    }
}

/// The current width of the terminal in columns; 80 where it cannot be
/// found out.
pub fn terminal_width() -> (r: u16) {
    terminal_width_from(detect_terminal_columns())
}

/// The sum of two widths, capped at the largest width there is.
pub open spec fn capped(n: int) -> usize {
    if n > usize::MAX {
        usize::MAX
    } else {
        n as usize
    }
}

fn add_capped(a: usize, b: usize) -> (r: usize)
    ensures
        r == capped(a + b),
{
    if a > usize::MAX - b {
        usize::MAX
    } else {
        a + b
    }
}

/// The widest visible content in column `i` among `rows`, but at least
/// `base`.
pub open spec fn column_max(rows: Seq<Seq<CellView>>, i: int, base: usize) -> usize
    decreases rows.len(),
{
    if rows.len() == 0 {
        base
    } else {
        let rest = column_max(rows.drop_last(), i, base);
        let row = rows.last();
        if 0 <= i < row.len() && visible_width(row[i].content) > rest {
            visible_width(row[i].content)
        } else {
            rest
        }
    }
}

/// The width that column `i` asks for: the fixed width of its header, or
/// the widest visible content of header and rows.
pub open spec fn natural_width(t: TableView, i: int) -> usize {
    match t.headers[i].width {
        Some(w) => w,
        None => column_max(t.rows, i, visible_width(t.headers[i].content)),
    }
}

/// The kinds of columns that the layout tells apart.
#[derive(Debug, Clone, Copy, PartialEq, Eq, Structural)]
pub enum ColumnKind {
    /// Every column.
    Any,
    /// A column with a fixed width.
    Fixed,
    /// A column of flexible width that is never shrunk.
    Kept,
    /// A column of flexible width that may be shrunk.
    Shrinkable,
}

/// Whether a header is of the given kind.
pub open spec fn is_kind(h: CellView, kind: ColumnKind) -> bool {
    match kind {
        ColumnKind::Any => true,
        ColumnKind::Fixed => h.width is Some,
        ColumnKind::Kept => h.width is None && h.no_truncate,
        ColumnKind::Shrinkable => h.width is None && !h.no_truncate,
    }
}

/// The sum of the natural widths of the first `n` columns of a kind.
pub open spec fn width_sum(t: TableView, kind: ColumnKind, n: int) -> int
    decreases n,
{
    if n <= 0 {
        0
    } else if is_kind(t.headers[n - 1], kind) {
        width_sum(t, kind, n - 1) + natural_width(t, n - 1)
    } else {
        width_sum(t, kind, n - 1)
    }
}

/// The number of columns of a kind among the first `n`.
pub open spec fn kind_count(t: TableView, kind: ColumnKind, n: int) -> int
    decreases n,
{
    if n <= 0 {
        0
    } else if is_kind(t.headers[n - 1], kind) {
        kind_count(t, kind, n - 1) + 1
    } else {
        kind_count(t, kind, n - 1)
    }
}

/// The columns between the cells.
pub open spec fn separator_width(t: TableView) -> int {
    if t.headers.len() == 0 {
        0
    } else {
        t.headers.len() - 1
    }
}

/// Whether the columns at their natural widths are wider than the terminal.
pub open spec fn overflows(t: TableView) -> bool {
    width_sum(t, ColumnKind::Any, t.headers.len() as int) + separator_width(t) > t.terminal_width
}

/// What is left of `a` after `b` is taken away, but not less than nothing.
pub open spec fn left_over(a: int, b: int) -> int {
    if a > b {
        a - b
    } else {
        0
    }
}

/// The width that each shrinkable column may take at most, where the
/// table overflows: what the terminal leaves after the fixed columns, the
/// separators and the kept columns, shared evenly.
pub open spec fn shrink_limit(t: TableView) -> int {
    let n = t.headers.len() as int;
    let available = left_over(
        t.terminal_width as int,
        width_sum(t, ColumnKind::Fixed, n) + separator_width(t),
    );
    left_over(available, width_sum(t, ColumnKind::Kept, n)) / kind_count(
        t,
        ColumnKind::Shrinkable,
        n,
    )
}

/// The width of column `i`: its natural width, except that a shrinkable
/// column of a table that overflows takes no more than the shrink limit.
pub open spec fn column_width(t: TableView, i: int) -> usize {
    let natural = natural_width(t, i);
    if overflows(t) && is_kind(t.headers[i], ColumnKind::Shrinkable) && shrink_limit(t) < natural {
        shrink_limit(t) as usize
    } else {
        natural
    }
}

/// The widths of all columns.
pub open spec fn column_widths_spec(t: TableView) -> Seq<usize> {
    Seq::new(t.headers.len(), |i: int| column_width(t, i))
}

/// `n` spaces.
pub open spec fn spaces(n: int) -> Seq<char> {
    Seq::new(n as nat, |i: int| ' ')
}

/// A cell's content laid out in `width` columns: padded with spaces where
/// it is narrower, and else cut, with an ellipsis in the last column unless
/// the width is three or less.
pub open spec fn format_cell_spec(content: Seq<char>, width: usize) -> Seq<char> {
    if visible_width(content) >= width {
        if width <= 3 {
            cut_to_width(content, width as int, Seq::empty())
        } else {
            cut_to_width(content, width - 1, Seq::empty()) + ellipsis()
        }
    } else {
        content + spaces(width - visible_width(content))
    }
}

/// Cut `s` to at most `max_width` columns of visible text, passing ANSI
/// escape sequences through.
pub fn truncate_string(s: &str, max_width: usize) -> (r: String)
    ensures
        r@ == cut_to_width(s@, max_width as int, Seq::empty()),
{
    let nothing: Vec<char> = Vec::new();
    from_chars(&cut_chars(&to_chars(s), max_width, &nothing))
}

/// Lay a cell's content out in `width` columns.
pub fn format_cell(content: &str, width: usize, align: Alignment) -> (r: String)
    ensures
        r@ == format_cell_spec(content@, width),
{
    let content_width = measure_visible_width(content);
    if content_width >= width {
        if width <= 3 {
            return truncate_string(content, width);
        }
        let nothing: Vec<char> = Vec::new();
        let mut text = cut_chars(&to_chars(content), width - 1, &nothing);
        text.push('\u{2026}');
        assert(text@ =~= cut_to_width(content@, width - 1, Seq::empty()) + ellipsis());
        return from_chars(&text);
    }
    let padding = width - content_width;
    let mut text = to_chars(content);
    let mut k: usize = 0;
    while k < padding
        invariant
            k <= padding,
            text@ == content@ + spaces(k as int),
        decreases padding - k,
    {
        text.push(' ');
        k += 1;
        proof {
            assert(content@ + spaces(k as int) =~= (content@ + spaces(k - 1)).push(' '));
        }
    }
    from_chars(&text)
}

/// The cells of a row from `i` on, laid out in the widths of their
/// columns and separated by single spaces, appended to `acc`. A cell
/// beyond the last column has width zero.
pub open spec fn render_row_from(cells: Seq<CellView>, widths: Seq<usize>, i: int, acc: Seq<char>) -> Seq<
    char,
>
    decreases cells.len() - i,
{
    if i < 0 || i >= cells.len() {
        acc
    } else {
        let width = if i < widths.len() {
            widths[i]
        } else {
            0
        };
        let sep = if i > 0 {
            acc.push(' ')
        } else {
            acc
        };
        render_row_from(cells, widths, i + 1, sep + format_cell_spec(cells[i].content, width))
    }
}

/// The rows from `i` on, each laid out and ended by a line feed, appended
/// to `acc`.
pub open spec fn render_rows_from(rows: Seq<Seq<CellView>>, widths: Seq<usize>, i: int, acc: Seq<char>) -> Seq<
    char,
>
    decreases rows.len() - i,
{
    if i < 0 || i >= rows.len() {
        acc
    } else {
        render_rows_from(
            rows,
            widths,
            i + 1,
            render_row_from(rows[i], widths, 0, acc).push('\n'),
        )
    }
}

/// The text of a table: nothing without columns, else every row on a
/// line of its own. The header row only fixes the columns.
pub open spec fn render_spec(t: TableView) -> Seq<char> {
    if t.headers.len() == 0 {
        Seq::empty()
    } else {
        render_rows_from(t.rows, column_widths_spec(t), 0, Seq::empty())
    }
}

impl View for Table {
    type V = TableView;

    closed spec fn view(&self) -> TableView {
        TableView {
            headers: row_view(self.headers@),
            rows: Seq::new(self.rows@.len(), |i: int| row_view(self.rows@[i]@)),
            terminal_width: self.terminal_width as usize,
        }
    }
}

impl Table {
    /// A table without rows for a terminal of the given width.
    pub fn with_terminal_width(headers: Vec<Cell>, terminal_width: u16) -> (r: Self)
        ensures
            r@.headers == row_view(headers@),
            r@.rows.len() == 0,
            r@.terminal_width == terminal_width,
    {
        Table { headers, rows: Vec::new(), terminal_width }
    }

    /// A table without rows for the terminal of this process.
    pub fn new(headers: Vec<Cell>) -> (r: Self)
        ensures
            r@.headers == row_view(headers@),
            r@.rows.len() == 0,
    {
        Table::with_terminal_width(headers, terminal_width())
    }

    /// Add a row at the end.
    pub fn add_row(&mut self, row: Vec<Cell>)
        ensures
            final(self)@ == (TableView { rows: old(self)@.rows.push(row_view(row@)), ..old(self)@ }),
    {
        let ghost before = self@;
        self.rows.push(row);
        proof {
            assert(self@.rows =~= before.rows.push(row_view(row@)));
        }
    }

    fn measure_column(&self, i: usize) -> (r: usize)
        requires
            i < self@.headers.len(),
        ensures
            r == natural_width(self@, i as int),
    {
        assert(self@.headers[i as int] == self.headers@[i as int]@);
        if let Some(w) = self.headers[i].width {
            return w;
        }
        let mut widest = measure_visible_width(self.headers[i].content.as_str());
        let ghost base = widest;
        let mut r: usize = 0;
        proof {
            assert(self@.rows.take(0) =~= Seq::empty());
        }
        while r < self.rows.len()
            invariant
                r <= self.rows.len(),
                widest == column_max(self@.rows.take(r as int), i as int, base),
            decreases self.rows.len() - r,
        {
            proof {
                assert(self@.rows.take(r + 1).drop_last() =~= self@.rows.take(r as int));
                assert(self@.rows.take(r + 1).last() == row_view(self.rows@[r as int]@));
            }
            let row = &self.rows[r];
            if i < row.len() {
                assert(row_view(row@)[i as int] == row@[i as int]@);
                let w = measure_visible_width(row[i].content.as_str());
                if w > widest {
                    widest = w;
                }
            }
            r += 1;
        }
        proof {
            assert(self@.rows.take(self.rows.len() as int) =~= self@.rows);
        }
        widest
    }

    fn header_is(&self, i: usize, kind: ColumnKind) -> (r: bool)
        requires
            i < self@.headers.len(),
        ensures
            r == is_kind(self@.headers[i as int], kind),
    {
        assert(self@.headers[i as int] == self.headers@[i as int]@);
        let h = &self.headers[i];
        match kind {
            ColumnKind::Any => true,
            ColumnKind::Fixed => h.width.is_some(),
            ColumnKind::Kept => h.width.is_none() && h.no_truncate,
            ColumnKind::Shrinkable => h.width.is_none() && !h.no_truncate,
        }
    }

    fn sum_widths(&self, natural: &Vec<usize>, kind: ColumnKind) -> (r: (usize, usize))
        requires
            natural@.len() == self@.headers.len(),
            forall|i: int| 0 <= i < natural@.len() ==> natural@[i] == natural_width(self@, i),
        ensures
            r.0 == capped(width_sum(self@, kind, self@.headers.len() as int)),
            r.1 == kind_count(self@, kind, self@.headers.len() as int),
            0 <= width_sum(self@, kind, self@.headers.len() as int),
    {
        let n = self.headers.len();
        let mut sum: usize = 0;
        let mut count: usize = 0;
        let mut i: usize = 0;
        while i < n
            invariant
                i <= n,
                n == self@.headers.len(),
                natural@.len() == n,
                forall|k: int| 0 <= k < natural@.len() ==> natural@[k] == natural_width(self@, k),
                sum == capped(width_sum(self@, kind, i as int)),
                count == kind_count(self@, kind, i as int),
                0 <= width_sum(self@, kind, i as int),
                count <= i,
            decreases n - i,
        {
            if self.header_is(i, kind) {
                sum = add_capped(sum, natural[i]);
                count += 1;
            }
            i += 1;
        }
        (sum, count)
    }

    /// Compute the width of every column.
    pub fn calculate_column_widths(&self) -> (widths: Vec<usize>)
        ensures
            widths@ == column_widths_spec(self@),
    {
        let n = self.headers.len();
        let mut natural: Vec<usize> = Vec::new();
        let mut i: usize = 0;
        while i < n
            invariant
                i <= n,
                n == self@.headers.len(),
                natural@.len() == i,
                forall|k: int| 0 <= k < i ==> natural@[k] == natural_width(self@, k),
            decreases n - i,
        {
            natural.push(self.measure_column(i));
            i += 1;
        }
        let separator: usize = if n == 0 {
            0
        } else {
            n - 1
        };
        assert(separator == separator_width(self@));
        let (total, _) = self.sum_widths(&natural, ColumnKind::Any);
        let needed = add_capped(total, separator);
        assert(needed == capped(
            width_sum(self@, ColumnKind::Any, n as int) + separator_width(self@),
        ));
        let terminal_width = self.terminal_width as usize;
        if needed <= terminal_width {
            proof {
                assert(!overflows(self@));
                assert(natural@ =~= column_widths_spec(self@));
            }
            return natural;
        }
        assert(overflows(self@));
        let (fixed, _) = self.sum_widths(&natural, ColumnKind::Fixed);
        let (kept, _) = self.sum_widths(&natural, ColumnKind::Kept);
        let (_, shrinkable) = self.sum_widths(&natural, ColumnKind::Shrinkable);
        if shrinkable == 0 {
            proof {
                assert forall|k: int| 0 <= k < n implies !is_kind(
                    self@.headers[k],
                    ColumnKind::Shrinkable,
                ) by {
                    lemma_no_column_of_kind(self@, ColumnKind::Shrinkable, n as int, k);
                }
                assert(natural@ =~= column_widths_spec(self@));
            }
            return natural;
        }
        let taken = add_capped(fixed, separator);
        let available = if terminal_width > taken {
            terminal_width - taken
        } else {
            0
        };
        let rest = if available > kept {
            available - kept
        } else {
            0
        };
        let limit = rest / shrinkable;
        assert(limit == shrink_limit(self@));
        let mut widths: Vec<usize> = Vec::new();
        let mut j: usize = 0;
        while j < n
            invariant
                j <= n,
                n == self@.headers.len(),
                natural@.len() == n,
                forall|k: int| 0 <= k < n ==> natural@[k] == natural_width(self@, k),
                overflows(self@),
                limit == shrink_limit(self@),
                widths@.len() == j,
                forall|k: int| 0 <= k < j ==> widths@[k] == column_width(self@, k),
            decreases n - j,
        {
            let w = if self.header_is(j, ColumnKind::Shrinkable) && limit < natural[j] {
                limit
            } else {
                natural[j]
            };
            widths.push(w);
            j += 1;
        }
        proof {
            assert(widths@ =~= column_widths_spec(self@));
        }
        widths
    }

    /// Lay out one row in the given column widths.
    pub fn render_row(&self, cells: &Vec<Cell>, column_widths: &Vec<usize>) -> (r: String)
        ensures
            r@ == render_row_from(row_view(cells@), column_widths@, 0, Seq::empty()),
    {
        let mut out: Vec<char> = Vec::new();
        Table::render_row_into(&mut out, cells, column_widths);
        from_chars(&out)
    }

    fn render_row_into(out: &mut Vec<char>, cells: &Vec<Cell>, column_widths: &Vec<usize>)
        ensures
            final(out)@ == render_row_from(row_view(cells@), column_widths@, 0, old(out)@),
    {
        let ghost views = row_view(cells@);
        let mut i: usize = 0;
        while i < cells.len()
            invariant
                i <= cells.len(),
                views == row_view(cells@),
                render_row_from(views, column_widths@, 0, old(out)@) == render_row_from(
                    views,
                    column_widths@,
                    i as int,
                    out@,
                ),
            decreases cells.len() - i,
        {
            assert(views[i as int] == cells@[i as int]@);
            if i > 0 {
                out.push(' ');
            }
            let width = if i < column_widths.len() {
                column_widths[i]
            } else {
                0
            };
            let formatted = format_cell(cells[i].content.as_str(), width, cells[i].align);
            append(out, &to_chars(formatted.as_str()));
            i += 1;
        }
    }

    /// The text of the table.
    pub fn render(&self) -> (r: String)
        ensures
            r@ == render_spec(self@),
    {
        if self.headers.len() == 0 {
            return String::new();
        }
        let widths = self.calculate_column_widths();
        let mut out: Vec<char> = Vec::new();
        let mut i: usize = 0;
        while i < self.rows.len()
            invariant
                i <= self.rows.len(),
                widths@ == column_widths_spec(self@),
                render_rows_from(self@.rows, widths@, 0, Seq::empty()) == render_rows_from(
                    self@.rows,
                    widths@,
                    i as int,
                    out@,
                ),
            decreases self.rows.len() - i,
        {
            assert(self@.rows[i as int] == row_view(self.rows@[i as int]@));
            Table::render_row_into(&mut out, &self.rows[i], &widths);
            out.push('\n');
            i += 1;
        }
        from_chars(&out)
    }
}

proof fn lemma_no_column_of_kind(t: TableView, kind: ColumnKind, n: int, k: int)
    requires
        0 <= k < n,
        kind_count(t, kind, n) == 0,
    ensures
        !is_kind(t.headers[k], kind),
    decreases n,
{
    lemma_kind_count_nonnegative(t, kind, n - 1);
    if k < n - 1 {
        lemma_no_column_of_kind(t, kind, n - 1, k);
    }
}

proof fn lemma_kind_count_nonnegative(t: TableView, kind: ColumnKind, n: int)
    ensures
        kind_count(t, kind, n) >= 0,
    decreases n,
{
    if n > 0 {
        lemma_kind_count_nonnegative(t, kind, n - 1);
    }
}

} // verus!
