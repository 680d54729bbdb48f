use workspace_engine::table::{format_cell, terminal_width_from, truncate_string, Alignment, Cell, Table};

#[test]
fn cells_are_built_step_by_step() {
    let cell = Cell::new("abc");
    assert_eq!(cell.content, "abc");
    assert_eq!(cell.width, None);
    assert!(!cell.no_truncate);
    let cell = cell.with_width(7).no_truncate();
    assert_eq!(cell.width, Some(7));
    assert!(cell.no_truncate);
    assert_eq!(cell.content, "abc");
}

#[test]
fn terminal_width_defaults_to_eighty() {
    assert_eq!(terminal_width_from(None), 80);
    assert_eq!(terminal_width_from(Some(132)), 132);
}

#[test]
fn strings_are_cut_without_a_mark() {
    assert_eq!(truncate_string("hello", 3), "hel");
    assert_eq!(truncate_string("hello", 0), "");
    assert_eq!(truncate_string("\x1b[31mhello\x1b[0m", 2), "\x1b[31mhe");
    assert_eq!(truncate_string("你好", 3), "你");
    assert_eq!(truncate_string("ab\x1b[1", 5), "ab");
}

#[test]
fn cells_are_padded_or_cut() {
    assert_eq!(format_cell("ab", 5, Alignment::Left), "ab   ");
    assert_eq!(format_cell("abcdef", 5, Alignment::Left), "abcd…");
    assert_eq!(format_cell("abcde", 5, Alignment::Left), "abcd…");
    assert_eq!(format_cell("abcdef", 3, Alignment::Left), "abc");
    assert_eq!(format_cell("abcdef", 0, Alignment::Left), "");
    assert_eq!(format_cell("\x1b[1mab\x1b[0m", 4, Alignment::Left), "\x1b[1mab\x1b[0m  ");
}

#[test]
fn columns_take_their_natural_width_when_they_fit() {
    let mut table = Table::with_terminal_width(vec![Cell::new("id"), Cell::new("name").with_width(6)], 40);
    table.add_row(vec![Cell::new("1"), Cell::new("alpha")]);
    table.add_row(vec![Cell::new("1234"), Cell::new("b")]);
    table.add_row(vec![Cell::new("x")]);
    assert_eq!(table.calculate_column_widths(), vec![4, 6]);
    // A content as wide as its column is cut like a wider one.
    assert_eq!(table.render(), "1    alpha \n123… b     \nx   \n");
}

#[test]
fn shrinkable_columns_share_what_is_left() {
    let mut table = Table::with_terminal_width(
        vec![
            Cell::new("a").with_width(4),
            Cell::new("b").no_truncate(),
            Cell::new("c"),
            Cell::new("d"),
        ],
        20,
    );
    table.add_row(vec![
        Cell::new("1"),
        Cell::new("keepme"),
        Cell::new("a long text here"),
        Cell::new("xy"),
    ]);
    // 20 - (4 fixed + 3 separators) = 13; minus 6 kept = 7; two shrinkable: 3 each.
    assert_eq!(table.calculate_column_widths(), vec![4, 6, 3, 2]);
    assert_eq!(table.render(), "1    keepm… a l xy\n");
}

#[test]
fn overflow_without_shrinkable_columns_changes_nothing() {
    let mut table = Table::with_terminal_width(vec![Cell::new("b").no_truncate()], 3);
    table.add_row(vec![Cell::new("abcdef")]);
    assert_eq!(table.calculate_column_widths(), vec![6]);
}

#[test]
fn a_table_without_columns_renders_nothing() {
    let mut table = Table::with_terminal_width(vec![], 80);
    table.add_row(vec![Cell::new("lost")]);
    assert_eq!(table.render(), "");
    assert_eq!(table.calculate_column_widths(), Vec::<usize>::new());
}

#[test]
fn rows_are_rendered_in_given_widths() {
    let table = Table::new(vec![Cell::new("h")]);
    let row = vec![Cell::new("a"), Cell::new("bcd"), Cell::new("e")];
    assert_eq!(table.render_row(&row, &vec![2, 2]), "a  bc ");
}
