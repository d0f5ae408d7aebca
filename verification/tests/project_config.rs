use typstyle::project::{
    get_bool, get_unique, get_usize, parse_format_config, parse_format_facts,
    parse_typstyle_toml_config, ConfigError, TomlValue,
};
use typstyle::{Config, FunctionHint, FunctionQuery};

fn entry(k: &str, v: TomlValue) -> (String, TomlValue) {
    (k.to_string(), v)
}

#[test]
fn default_config() {
    let c = Config::new();
    assert_eq!(c, Config::default());
    assert_eq!(c.max_width, 80);
    assert_eq!(c.tab_spaces, 2);
    assert_eq!(c.blank_lines_upper_bound, 2);
    assert!(!c.collapse_markup_spaces);
    assert!(c.reorder_import_items);
    assert!(!c.wrap_text);
}

#[test]
fn options_under_any_spelling() {
    let root = vec![
        entry("indent_width", TomlValue::Integer(4)),
        entry("line-width", TomlValue::Integer(100)),
        entry("wrap_text", TomlValue::Boolean(true)),
    ];
    let c = parse_format_config(&root).unwrap();
    assert_eq!(c.tab_spaces, 4);
    assert_eq!(c.max_width, 100);
    assert!(c.wrap_text);
    assert!(c.collapse_markup_spaces);
}

#[test]
fn two_spellings_conflict() {
    let root = vec![
        entry("max-width", TomlValue::Integer(100)),
        entry("max_width", TomlValue::Integer(90)),
    ];
    let err = parse_format_config(&root).unwrap_err();
    assert_eq!(err, ConfigError::KeyConflict("max_width".to_string(), "max-width".to_string()));
    assert_eq!(err.message(), "max_width conflicts with max-width");
}

#[test]
fn wrong_types_are_errors() {
    let root = vec![entry("max_width", TomlValue::Str("wide".to_string()))];
    let err = parse_format_config(&root).unwrap_err();
    assert_eq!(err.message(), "max_width must be an integer");
    let root = vec![entry("tab-spaces", TomlValue::Integer(-1))];
    assert_eq!(parse_format_config(&root).unwrap_err(), ConfigError::NotNonNegative("tab-spaces".to_string()));
    let root = vec![entry("wrap-text", TomlValue::Integer(1))];
    assert_eq!(parse_format_config(&root).unwrap_err().message(), "wrap-text must be a boolean");
}

#[test]
fn lookups() {
    let root = vec![entry("a", TomlValue::Integer(3)), entry("b", TomlValue::Boolean(false))];
    assert_eq!(get_usize(&root, &["x", "a"]).unwrap(), Some(3));
    assert_eq!(get_usize(&root, &["x"]).unwrap(), None);
    assert_eq!(get_bool(&root, &["b"]).unwrap(), Some(false));
    assert!(matches!(get_unique(&root, &["a", "b"]), Err(ConfigError::KeyConflict(_, _))));
    let found = get_unique(&root, &["z", "b"]).unwrap().unwrap();
    assert_eq!(found.0, "b");
}

fn hints(entries: Vec<(String, TomlValue)>) -> Vec<(String, TomlValue)> {
    vec![entry("function-hints", TomlValue::Table(entries))]
}

fn hint_entry(kind: TomlValue, columns: Option<TomlValue>) -> TomlValue {
    let mut fields = vec![entry("kind", kind)];
    if let Some(c) = columns {
        fields.push(entry("columns", c));
    }
    TomlValue::Table(fields)
}

#[test]
fn function_hints() {
    let root = hints(vec![
        entry("my-table", hint_entry(TomlValue::Str("table".to_string()), Some(TomlValue::Integer(2)))),
        entry("pkg.g", hint_entry(TomlValue::Str("grid".to_string()), None)),
    ]);
    let facts = parse_format_facts(&root).unwrap();
    let q = FunctionQuery { callee_span: None, callee_name: Some("my-table"), callee_path: None };
    assert_eq!(facts.function_hint(q), Some(FunctionHint::table_like(Some(2))));
    let q = FunctionQuery { callee_span: None, callee_name: Some("g"), callee_path: Some("pkg.g") };
    assert_eq!(facts.function_hint(q), Some(FunctionHint::grid_like(None)));
}

#[test]
fn bad_function_hints() {
    let root = hints(vec![entry("t", hint_entry(TomlValue::Str("unknown".to_string()), None))]);
    let err = parse_format_facts(&root).unwrap_err();
    assert_eq!(err.message(), "function-hints.t.kind must be `table` or `grid`");
    let root = hints(vec![entry("t", hint_entry(TomlValue::Integer(1), None))]);
    assert_eq!(parse_format_facts(&root).unwrap_err().message(), "function-hints.t.kind must be a string");
    let root = hints(vec![entry("t", hint_entry(TomlValue::Str("table".to_string()), Some(TomlValue::Integer(-2))))]);
    assert_eq!(parse_format_facts(&root).unwrap_err().message(), "function-hints.t.columns must be non-negative");
    let root = hints(vec![entry("t", TomlValue::Integer(3))]);
    assert_eq!(parse_format_facts(&root).unwrap_err(), ConfigError::HintKindNotString("t".to_string()));
}

#[test]
fn columns_of_another_type_are_ignored() {
    let root = hints(vec![entry("t", hint_entry(TomlValue::Str("table".to_string()), Some(TomlValue::Str("2".to_string()))))]);
    let facts = parse_format_facts(&root).unwrap();
    let q = FunctionQuery { callee_span: None, callee_name: Some("t"), callee_path: None };
    assert_eq!(facts.function_hint(q), Some(FunctionHint::table_like(None)));
}

#[test]
fn whole_project_config() {
    let mut root = hints(vec![entry("t", hint_entry(TomlValue::Str("table".to_string()), None))]);
    root.push(entry("max_width", TomlValue::Integer(20)));
    let project = parse_typstyle_toml_config(&root).unwrap();
    assert_eq!(project.config.max_width, 20);
    let q = FunctionQuery { callee_span: None, callee_name: Some("t"), callee_path: None };
    assert_eq!(project.facts.function_hint(q), Some(FunctionHint::table_like(None)));
    // An error in the options comes before one in the hints.
    let mut root = hints(vec![entry("t", TomlValue::Integer(1))]);
    root.push(entry("max_width", TomlValue::Boolean(true)));
    assert_eq!(parse_typstyle_toml_config(&root).unwrap_err(), ConfigError::NotInteger("max_width".to_string()));
}
