use typstyle::aligned::{
    layout_aligned, layout_math_aligned, math_cell_text, AlignedStylist, MeasuredCell, Piece, PrintedRow, Row,
};

fn cells(texts: &[&str]) -> Row<String> {
    Row::Cells(texts.iter().map(|t| t.to_string()).collect())
}

fn show(rows: &[PrintedRow<String>]) -> String {
    let mut out = String::new();
    for row in rows {
        match row {
            PrintedRow::Free(f) => {
                out.push_str(f);
                out.push('\n');
            }
            PrintedRow::Cells(pieces) => {
                for p in pieces {
                    match p {
                        Piece::Text(t) => out.push_str(t),
                        Piece::Spaces(n) => out.push_str(&" ".repeat(*n)),
                        Piece::AlignMark => out.push('&'),
                        Piece::LineEnd(true) => out.push_str(" \\"),
                        Piece::LineEnd(false) => out.push(' '),
                        Piece::Newline => out.push('\n'),
                    }
                }
            }
        }
    }
    out
}

#[test]
fn two_columns_align_at_the_separator() {
    let rows = vec![cells(&["a", "b"]), cells(&["ccc", "d"])];
    let out = layout_aligned(rows, 80, false).unwrap();
    assert_eq!(show(&out), "  a & b \\\nccc & d ");
}

#[test]
fn trailing_linebreak_ends_every_row_with_backslash() {
    let rows = vec![cells(&["x", "yy"]), cells(&["xx", "y"])];
    let out = layout_aligned(rows, 80, true).unwrap();
    assert_eq!(show(&out), " x & yy \\\nxx & y  \\");
}

#[test]
fn single_row_has_no_line_end() {
    let rows = vec![cells(&["a", "b", "c"])];
    let out = layout_aligned(rows, 80, false).unwrap();
    assert_eq!(show(&out), "a & b & c");
}

#[test]
fn empty_cell_drops_the_space_next_to_separator() {
    let rows = vec![cells(&["", "b"]), cells(&["aa", "bb"])];
    let out = layout_aligned(rows, 80, false).unwrap();
    assert_eq!(show(&out), "   & b  \\\naa & bb ");
}

#[test]
fn short_row_is_padded_to_grid_width() {
    let rows = vec![cells(&["a", "b", "c"]), cells(&["a"])];
    let out = layout_aligned(rows, 80, false).unwrap();
    let text = show(&out);
    let lines: Vec<&str> = text.split('\n').collect();
    assert_eq!(lines[0], "a & b & c \\");
    assert_eq!(lines[1], "a         ");
    // Every row is as wide as the grid less one, before its end.
    assert_eq!(lines[0].len() - 2, lines[1].len() - 1);
}

#[test]
fn comment_rows_are_carried_through() {
    let rows = vec![
        cells(&["a", "b"]),
        Row::Free("// note".to_string()),
        cells(&["c", "d"]),
    ];
    let out = layout_aligned(rows, 80, false).unwrap();
    assert_eq!(show(&out), "a & b \\\n// note\nc & d ");
}

#[test]
fn too_wide_grid_gives_none() {
    let rows = vec![cells(&["aaaa", "bbbb"])];
    // columns 5 + 5 and 2 separators: 12
    assert!(layout_aligned(rows, 11, false).is_none());
    let rows = vec![cells(&["aaaa", "bbbb"])];
    assert!(layout_aligned(rows, 12, false).is_some());
}

#[test]
fn more_columns_than_width_gives_none() {
    let rows = vec![cells(&["", "", ""])];
    assert!(layout_aligned(rows, 2, false).is_none());
}

#[test]
fn wide_characters_count_two_columns() {
    // Each fullwidth letter takes two columns, so the narrow cell gets padded by two.
    let rows = vec![cells(&["ｈｅ", "x"]), cells(&["he", "y"])];
    let out = layout_aligned(rows, 80, false).unwrap();
    assert_eq!(show(&out), "ｈｅ & x \\\n  he & y ");
}

#[test]
fn multi_line_cell_is_indented_under_its_column() {
    let rows = vec![cells(&["a", "b"]), cells(&["c", "long\nx"])];
    let out = layout_aligned(rows, 80, false).unwrap();
    assert_eq!(show(&out), "a & b \\\nc & long\n    x ");
}

#[test]
fn render_measures_columns() {
    let rows = vec![cells(&["a", "bb"]), cells(&["ccc", ""])];
    let measured = AlignedStylist::new().render(rows, 80);
    assert!(measured.is_some());
}

#[test]
fn measured_cell_widths() {
    let cell = MeasuredCell::MultiLine(vec![("ab".to_string(), 4), ("a".to_string(), 3)]);
    assert_eq!(cell.max_width(), 4);
    assert_eq!(cell.width(), 3);
    assert_eq!(MeasuredCell::Empty.max_width(), 0);
    assert_eq!(MeasuredCell::SingleLine("x".to_string(), 2).width(), 2);
}

#[test]
fn math_cell_with_line_comment_gets_a_new_line() {
    assert_eq!(math_cell_text("a // c".to_string(), true), "a // c\n ");
    assert_eq!(math_cell_text("a".to_string(), false), "a");
}

#[test]
fn node_row_counts_cells() {
    assert_eq!(typstyle::aligned::NodeRow::Cells(vec![1, 2, 3]).len(), 3);
    assert_eq!(typstyle::aligned::NodeRow::Comment(1).len(), 0);
}

#[test]
fn later_lines_of_a_cell_start_under_its_first_line() {
    // The multi-line cell in the first column is right-aligned: its lines start
    // after the padding, at the same column.
    let rows = vec![cells(&["ab\nc", "x"]), cells(&["abcdef", "y"])];
    let out = layout_aligned(rows, 80, false).unwrap();
    let text = show(&out);
    let lines: Vec<&str> = text.split('\n').collect();
    assert_eq!(lines[0], "    ab");
    assert_eq!(lines[1], "    c  & x \\");
    assert_eq!(lines[2], "abcdef & y ");
}

#[test]
fn math_alignment_only_where_it_may_be_used() {
    let rows = || vec![cells(&["a", "b"]), cells(&["ccc", "d"])];
    assert!(layout_math_aligned(true, true, rows(), 80, true, false).is_none());
    assert!(layout_math_aligned(false, false, rows(), 80, true, false).is_none());
    let out = layout_math_aligned(false, true, rows(), 80, true, false).unwrap();
    assert_eq!(show(&out), "  a & b \\\nccc & d ");
    // A trailing line break ends the last row with a backslash too, in the
    // outer mode only.
    let out = layout_math_aligned(false, true, rows(), 80, true, true).unwrap();
    assert_eq!(show(&out), "  a & b \\\nccc & d \\");
    let out = layout_math_aligned(false, true, rows(), 80, false, true).unwrap();
    assert_eq!(show(&out), "  a & b \\\nccc & d ");
    assert!(layout_math_aligned(false, true, rows(), 5, true, false).is_none());
}
