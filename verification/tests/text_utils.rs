use typstyle::text::{has_linebreak, indent_4_to_2, split_lines, str_eq};

#[test]
fn lines_follow_str_lines() {
    for s in ["", "a", "a\n", "a\nb", "a\r\nb\r\n", "\n\n", "x\r", "a\n\nb"] {
        let expected: Vec<String> = s.lines().map(|l| l.to_string()).collect();
        assert_eq!(split_lines(s), expected, "lines of {s:?}");
    }
}

#[test]
fn linebreak_means_line_feed() {
    assert!(has_linebreak("a\nb"));
    assert!(!has_linebreak("a\rb"));
    assert!(!has_linebreak(""));
}

#[test]
fn string_equality() {
    assert!(str_eq("table", "table"));
    assert!(!str_eq("table", "tables"));
    assert!(!str_eq("grid", "Grid"));
}

#[test]
fn indentation_is_halved_line_by_line() {
    assert_eq!(indent_4_to_2("a\n    b\n        c"), "a\n  b\n    c\n");
    assert_eq!(indent_4_to_2("   x\r\n\n"), " x\n\n");
    assert_eq!(indent_4_to_2(""), "");
    assert_eq!(indent_4_to_2("    "), "  \n");
}
