use typstyle::table::{
    get_table_columns, is_formattable_table, positional_args, is_header_or_footer, is_table, lay_out_rows,
    table_columns, table_layout, table_rows, ArgValue, CellBreak, PosArg, TableArg, TableCall,
};
use typstyle::{FormatFacts, FunctionQuery};

fn pos(names: &[(&'static str, bool)]) -> Vec<PosArg<&'static str>> {
    names.iter().map(|(a, h)| PosArg { arg: *a, header_or_footer: *h }).collect()
}

fn args_of(rows: &[Vec<PosArg<&'static str>>]) -> Vec<Vec<&'static str>> {
    rows.iter().map(|r| r.iter().map(|p| p.arg).collect()).collect()
}

#[test]
fn rows_of_columns_cells() {
    let rows = table_rows(pos(&[("1", false), ("2", false), ("3", false), ("4", false), ("5", false)]), 2);
    assert_eq!(args_of(&rows), vec![vec!["1", "2"], vec!["3", "4"], vec!["5"]]);
}

#[test]
fn header_ends_its_row() {
    let rows = table_rows(pos(&[("h", true), ("1", false), ("2", false), ("3", false)]), 2);
    assert_eq!(args_of(&rows), vec![vec!["h"], vec!["1", "2"], vec!["3"]]);
}

#[test]
fn header_that_fills_a_row_leaves_an_empty_row() {
    let rows = table_rows(pos(&[("1", false), ("h", true), ("2", false)]), 2);
    assert_eq!(args_of(&rows), vec![vec!["1", "h"], vec![], vec!["2"]]);
}

#[test]
fn zero_columns_break_only_at_headers() {
    let rows = table_rows(pos(&[("1", false), ("2", false), ("f", true), ("3", false)]), 0);
    assert_eq!(args_of(&rows), vec![vec!["1", "2", "f"], vec!["3"]]);
}

#[test]
fn rows_are_laid_out_with_lines_between_cells() {
    let laid = lay_out_rows(vec![vec!["a", "b"], vec!["c"]]);
    assert_eq!(laid.len(), 2);
    assert_eq!(laid[0].cells[0].after, CellBreak::Line);
    assert_eq!(laid[0].cells[1].after, CellBreak::SoftLine);
    assert!(laid[0].hardline_after);
    assert_eq!(laid[1].cells[0].after, CellBreak::Nothing);
    assert!(!laid[1].hardline_after);
    let laid = table_layout(pos(&[("1", false), ("2", false), ("3", false)]), 3);
    assert_eq!(laid.len(), 1);
    assert_eq!(laid[0].cells[2].after, CellBreak::Nothing);
}

fn by_name(name: &str) -> FunctionQuery<'_> {
    FunctionQuery { callee_span: None, callee_name: Some(name), callee_path: Some(name) }
}

fn call(callee: &str, args: Vec<TableArg>) -> TableCall {
    TableCall { callee: Some(callee.to_string()), has_comments: false, args }
}

fn named(name: &str, v: ArgValue) -> TableArg {
    TableArg::Named(name.to_string(), v)
}

#[test]
fn tables_and_grids() {
    assert!(is_table(Some("table")));
    assert!(is_table(Some("grid")));
    assert!(!is_table(Some("my-table")));
    assert!(!is_table(None));
}

#[test]
fn columns_from_integer_or_array() {
    let c = call("table", vec![named("columns", ArgValue::Int(3)), TableArg::Pos(None)]);
    assert_eq!(get_table_columns(&c), Some(3));
    let c = call("table", vec![named("columns", ArgValue::Array(4)), TableArg::Pos(None)]);
    assert_eq!(get_table_columns(&c), Some(4));
    let c = call("table", vec![named("columns", ArgValue::Other), named("columns", ArgValue::Int(2))]);
    assert_eq!(get_table_columns(&c), Some(2));
    let c = call("table", vec![named("rows", ArgValue::Int(2))]);
    assert_eq!(get_table_columns(&c), None);
}

#[test]
fn formattable_tables() {
    let ok = call("table", vec![named("columns", ArgValue::Int(2)), TableArg::Pos(None)]);
    assert!(is_formattable_table(&ok));
    assert_eq!(table_columns(&ok, &FormatFacts::new(), by_name("table")), Some(2));
    let named_after = call("table", vec![TableArg::Pos(None), named("columns", ArgValue::Int(2))]);
    assert!(!is_formattable_table(&named_after));
    let spread = call("table", vec![TableArg::Pos(None), TableArg::Spread]);
    assert!(!is_formattable_table(&spread));
    let cell = call("table", vec![TableArg::Pos(Some("table.cell".to_string()))]);
    assert!(!is_formattable_table(&cell));
    let no_pos = call("table", vec![named("columns", ArgValue::Int(2))]);
    assert!(!is_formattable_table(&no_pos));
    let mut commented = call("table", vec![TableArg::Pos(None)]);
    commented.has_comments = true;
    assert!(!is_formattable_table(&commented));
    let other = call("figure", vec![named("columns", ArgValue::Int(2)), TableArg::Pos(None)]);
    assert_eq!(table_columns(&other, &FormatFacts::new(), by_name("figure")), None);
}

#[test]
fn headers_and_footers() {
    assert!(is_header_or_footer(&TableArg::Pos(Some("table.header".to_string()))));
    assert!(is_header_or_footer(&TableArg::Pos(Some("grid.footer".to_string()))));
    assert!(!is_header_or_footer(&TableArg::Pos(Some("table.cell".to_string()))));
    assert!(!is_header_or_footer(&TableArg::Pos(None)));
    assert!(!is_header_or_footer(&TableArg::Spread));
}

#[test]
fn positional_arguments_with_headers_marked() {
    let args = vec![
        ("c", TableArg::Named("columns".to_string(), ArgValue::Int(2))),
        ("h", TableArg::Pos(Some("table.header".to_string()))),
        ("1", TableArg::Pos(None)),
        ("s", TableArg::Spread),
        ("2", TableArg::Pos(Some("text".to_string()))),
    ];
    let pos = positional_args(args);
    let got: Vec<(&str, bool)> = pos.iter().map(|p| (p.arg, p.header_or_footer)).collect();
    assert_eq!(got, vec![("h", true), ("1", false), ("2", false)]);
    let rows = table_rows(pos, 2);
    assert_eq!(args_of(&rows), vec![vec!["h"], vec!["1", "2"]]);
}
