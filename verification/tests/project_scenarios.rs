// What a project's `typstyle.toml` decides, for the projects of the command
// line's scenarios: the options and hints it gives, how a hinted call's
// arguments fall into rows, and the errors it is refused with.
use typstyle::cli::StyleArgs;
use typstyle::project::{
    parse_typstyle_toml_config, parse_typstyle_toml_text, ConfigError, ProjectConfig, TomlValue,
};
use typstyle::table::{table_columns, table_document, CellBreak, TableArg, TableCall};
use typstyle::{Config, FunctionHint, FunctionQuery};

fn toml_entry(k: &str, v: TomlValue) -> (String, TomlValue) {
    (k.to_string(), v)
}

fn hint_table(name: &str, fields: Vec<(String, TomlValue)>) -> Vec<(String, TomlValue)> {
    vec![toml_entry("function-hints", TomlValue::Table(vec![toml_entry(name, TomlValue::Table(fields))]))]
}

/// The call `#<callee>([1], [2], [3], [4])`: whether the table decision lays
/// it out as a table, and with how many columns, given the project's facts.
fn columns_of_call(project: &ProjectConfig, callee: &str, query: FunctionQuery) -> Option<usize> {
    let call = TableCall {
        callee: Some(callee.to_string()),
        has_comments: false,
        args: (0..4).map(|_| TableArg::Pos(None)).collect(),
    };
    table_columns(&call, &project.facts, query)
}

/// The text of `#<callee>([1], [2], [3], [4])` laid out as a table of
/// `columns` columns, indented as the project's options say.
fn table_text(project: &ProjectConfig, callee: &str, columns: usize) -> String {
    let args: Vec<(String, TableArg)> = (1..=4).map(|k| (format!("[{}]", k), TableArg::Pos(None))).collect();
    let doc = table_document(args, columns, project.config.tab_spaces);
    let pad = " ".repeat(doc.indent);
    let mut out = format!("#{}(\n", callee);
    for named in &doc.named {
        out.push_str(&format!("{}{},\n", pad, named));
    }
    for row in &doc.rows {
        out.push_str(&pad);
        for cell in &row.cells {
            out.push_str(&cell.arg.arg);
            out.push(',');
            if cell.after == CellBreak::Line {
                out.push(' ');
            }
        }
        if row.hardline_after {
            out.push('\n');
        }
    }
    out.push_str("\n)\n");
    out
}

#[test]
fn test_typstyle_toml_function_hint() {
    let text = r#"
[function-hints.my-table]
kind = "table"
columns = 2
"#;
    let project = parse_typstyle_toml_text(text).unwrap();
    let q = FunctionQuery { callee_span: None, callee_name: Some("my-table"), callee_path: Some("my-table") };
    assert_eq!(project.facts.function_hint(q), Some(FunctionHint::table_like(Some(2))));
    let columns = columns_of_call(&project, "my-table", q);
    assert_eq!(columns, Some(2));
    assert_eq!(table_text(&project, "my-table", columns.unwrap()), "#my-table(\n  [1], [2],\n  [3], [4],\n)\n");
}

#[test]
fn test_typstyle_toml_qualified_function_hint() {
    let text = r#"
[function-hints."pkg.my-table"]
kind = "table"
columns = 2
"#;
    let project = parse_typstyle_toml_text(text).unwrap();
    let q = FunctionQuery { callee_span: None, callee_name: Some("my-table"), callee_path: Some("pkg.my-table") };
    let columns = columns_of_call(&project, "pkg.my-table", q);
    assert_eq!(columns, Some(2));
    assert_eq!(
        table_text(&project, "pkg.my-table", columns.unwrap()),
        "#pkg.my-table(\n  [1], [2],\n  [3], [4],\n)\n"
    );
    // The bare name alone does not reach a hint given by the full path.
    let bare = FunctionQuery { callee_span: None, callee_name: Some("my-table"), callee_path: Some("my-table") };
    assert_eq!(project.facts.function_hint(bare), None);
    assert_eq!(columns_of_call(&project, "my-table", bare), None);
}

#[test]
fn indent_width_in_the_file_sets_tab_spaces() {
    let project = parse_typstyle_toml_text("\nindent_width = 4\n").unwrap();
    assert_eq!(project.config.tab_spaces, 4);
    assert_eq!(project.config.max_width, 80);
}

#[test]
fn wrap_text_and_max_width_from_the_file() {
    let project = parse_typstyle_toml_text("\nwrap_text = true\nmax_width = 20\n").unwrap();
    assert!(project.config.wrap_text);
    assert!(project.config.collapse_markup_spaces);
    assert_eq!(project.config.max_width, 20);
}

#[test]
fn command_line_width_overrides_the_file() {
    // The file gives `wrap_text = true` and `max_width = 20`; the command line `--line-width=80`.
    let project = parse_typstyle_toml_text("\nwrap_text = true\nmax_width = 20\n").unwrap();
    let style = StyleArgs { line_width: Some(80), indent_width: None, no_reorder_import_items: false, wrap_text: false };
    let config = style.apply_to_config(project.config);
    assert_eq!(config.max_width, 80);
    assert!(config.wrap_text);
    assert!(config.collapse_markup_spaces);
}

#[test]
fn test_typstyle_toml_invalid_function_hint() {
    let text = r#"
[function-hints.my-table]
kind = "unknown"
"#;
    let err = parse_typstyle_toml_text(text).unwrap_err();
    assert_eq!(err.message(), "function-hints.my-table.kind must be `table` or `grid`");
}

#[test]
fn test_typstyle_toml_invalid_format_config() {
    let err = parse_typstyle_toml_text("\nmax_width = \"wide\"\n").unwrap_err();
    assert_eq!(err.message(), "max_width must be an integer");
}

#[test]
fn text_that_is_no_toml_document_is_a_syntax_error() {
    let err = parse_typstyle_toml_text("max_width = = 3").unwrap_err();
    assert!(matches!(err, ConfigError::Syntax(_)));
    assert!(!err.message().is_empty());
    let err = parse_typstyle_toml_text("a = 1\na = 2\n").unwrap_err();
    assert!(matches!(err, ConfigError::Syntax(_)));
}

#[test]
fn an_empty_file_gives_the_defaults() {
    let project = parse_typstyle_toml_text("").unwrap();
    assert_eq!(project.config, Config::new());
    let q = FunctionQuery { callee_span: None, callee_name: Some("t"), callee_path: None };
    assert_eq!(project.facts.function_hint(q), None);
}

#[test]
fn hints_of_a_file_become_facts_in_key_order() {
    // Both hints name the call, one by its path and one by its name; the
    // file's table walks its keys in sorted order, so `pkg.t` comes first.
    let text = r#"
[function-hints.t]
kind = "grid"
[function-hints."pkg.t"]
kind = "table"
columns = 3
"#;
    let project = parse_typstyle_toml_text(text).unwrap();
    let q = FunctionQuery { callee_span: None, callee_name: Some("t"), callee_path: Some("pkg.t") };
    assert_eq!(project.facts.function_hint(q), Some(FunctionHint::table_like(Some(3))));
}

#[test]
fn table_from_entries_gives_the_same_as_the_text() {
    let root = hint_table(
        "my-table",
        vec![toml_entry("kind", TomlValue::Str("table".to_string())), toml_entry("columns", TomlValue::Integer(2))],
    );
    let from_table = parse_typstyle_toml_config(&root).unwrap();
    let from_text = parse_typstyle_toml_text("[function-hints.my-table]\nkind = \"table\"\ncolumns = 2\n").unwrap();
    assert_eq!(from_table.config, from_text.config);
    assert_eq!(from_table.facts, from_text.facts);
}
