// The table decision for calls of wrapper functions that facts describe: a
// call with a table-like hint is laid out as a table, its columns taken from
// its own `columns` argument or else from the hint; a call without a hint is
// left to the normal argument layout.
use typstyle::table::{
    positional_args, table_columns, table_document, table_layout, ArgValue, CellBreak, TableArg,
    TableCall, TableDocument,
};
use typstyle::{FormatFacts, FunctionFact, FunctionHint, FunctionQuery};

fn query_for(name: &str) -> FunctionQuery<'_> {
    FunctionQuery { callee_span: None, callee_name: Some(name), callee_path: Some(name) }
}

/// `#<callee>(<columns: n,> [1], [2], [3], [4])`, each cell tagged by its number.
fn wrapper_call(callee: &str, columns: Option<i64>) -> (TableCall, Vec<(u32, TableArg)>) {
    let mut args = Vec::new();
    if let Some(n) = columns {
        args.push(TableArg::Named("columns".to_string(), ArgValue::Int(n)));
    }
    let cells: Vec<(u32, TableArg)> = (1..=4).map(|k| (k, TableArg::Pos(None))).collect();
    args.extend(cells.iter().map(|_| TableArg::Pos(None)));
    (TableCall { callee: Some(callee.to_string()), has_comments: false, args }, cells)
}

/// The rows of the laid out table, by cell number, with the break after each cell.
fn laid_rows(cells: Vec<(u32, TableArg)>, columns: usize) -> Vec<Vec<(u32, CellBreak)>> {
    table_layout(positional_args(cells), columns)
        .into_iter()
        .map(|row| row.cells.into_iter().map(|c| (c.arg.arg, c.after)).collect())
        .collect()
}

/// The arguments of `#<callee>(<columns: n,> [1], [2], [3], [4])` as their source text.
fn source_args(columns: Option<i64>) -> Vec<(String, TableArg)> {
    let mut args = Vec::new();
    if let Some(n) = columns {
        args.push((format!("columns: {}", n), TableArg::Named("columns".to_string(), ArgValue::Int(n))));
    }
    for k in 1..=4 {
        args.push((format!("[{}]", k), TableArg::Pos(None)));
    }
    args
}

/// The text of a laid out table whose rows each fit on a line.
fn print_table(callee: &str, doc: &TableDocument<String>) -> String {
    let pad = " ".repeat(doc.indent);
    let mut out = format!("#{}(\n", callee);
    for named in &doc.named {
        out.push_str(&format!("{}{},\n", pad, named));
    }
    for row in &doc.rows {
        out.push_str(&pad);
        for cell in &row.cells {
            out.push_str(&cell.arg.arg);
            out.push(',');
            if cell.after == CellBreak::Line {
                out.push(' ');
            }
        }
        if row.hardline_after {
            out.push('\n');
        }
    }
    out.push_str("\n)\n");
    out
}

#[test]
fn formats_named_table_like_wrapper_as_table() {
    let facts = FormatFacts::new()
        .with_function_fact(FunctionFact::by_name("my-table", FunctionHint::table_like(None)));
    let (call, cells) = wrapper_call("my-table", Some(2));
    let columns = table_columns(&call, &facts, query_for("my-table"));
    assert_eq!(columns, Some(2));
    assert_eq!(
        laid_rows(cells, columns.unwrap()),
        vec![
            vec![(1, CellBreak::Line), (2, CellBreak::SoftLine)],
            vec![(3, CellBreak::Line), (4, CellBreak::Nothing)],
        ]
    );
    let doc = table_document(source_args(Some(2)), columns.unwrap(), 2);
    assert_eq!(print_table("my-table", &doc), "#my-table(\n  columns: 2,\n  [1], [2],\n  [3], [4],\n)\n");
}

#[test]
fn uses_table_like_fact_columns_when_call_has_no_columns_argument() {
    let facts = FormatFacts::new()
        .with_function_fact(FunctionFact::by_name("two-col-table", FunctionHint::table_like(Some(2))));
    let (call, cells) = wrapper_call("two-col-table", None);
    let columns = table_columns(&call, &facts, query_for("two-col-table"));
    assert_eq!(columns, Some(2));
    let rows: Vec<Vec<u32>> =
        laid_rows(cells, columns.unwrap()).into_iter().map(|r| r.into_iter().map(|c| c.0).collect()).collect();
    assert_eq!(rows, vec![vec![1, 2], vec![3, 4]]);
    let doc = table_document(source_args(None), columns.unwrap(), 2);
    assert_eq!(print_table("two-col-table", &doc), "#two-col-table(\n  [1], [2],\n  [3], [4],\n)\n");
}

#[test]
fn normal_function_without_fact_keeps_normal_argument_layout() {
    let (call, _) = wrapper_call("my-table", Some(2));
    assert_eq!(table_columns(&call, &FormatFacts::new(), query_for("my-table")), None);
}

#[test]
fn call_columns_win_over_hint_columns() {
    let facts = FormatFacts::new()
        .with_function_fact(FunctionFact::by_name("t", FunctionHint::grid_like(Some(5))));
    let (call, _) = wrapper_call("t", Some(3));
    assert_eq!(table_columns(&call, &facts, query_for("t")), Some(3));
    let (call, _) = wrapper_call("t", None);
    assert_eq!(table_columns(&call, &facts, query_for("t")), Some(5));
}

#[test]
fn hinted_call_without_columns_anywhere_is_no_table() {
    let facts = FormatFacts::new()
        .with_function_fact(FunctionFact::by_name("t", FunctionHint::table_like(None)));
    let (call, _) = wrapper_call("t", None);
    assert_eq!(table_columns(&call, &facts, query_for("t")), None);
}

#[test]
fn hinted_call_with_spread_is_no_table() {
    let facts = FormatFacts::new()
        .with_function_fact(FunctionFact::by_name("t", FunctionHint::table_like(Some(2))));
    let (mut call, _) = wrapper_call("t", None);
    call.args.push(TableArg::Spread);
    assert_eq!(table_columns(&call, &facts, query_for("t")), None);
}
