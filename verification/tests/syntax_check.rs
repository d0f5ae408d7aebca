use typstyle::{check_syntax, syntax_outcome, Error};

#[test]
fn erroneous_documents_are_refused() {
    assert_eq!(check_syntax("#let"), Err(Error::SyntaxError));
    assert_eq!(check_syntax("#let a = 0"), Ok(()));
    assert_eq!(check_syntax("= Heading\nSome *text*."), Ok(()));
    assert_eq!(syntax_outcome(true), Err(Error::SyntaxError));
    assert_eq!(syntax_outcome(false), Ok(()));
}

#[test]
fn syntax_tree_is_shown_with_two_spaces_a_level() {
    let tree = typstyle::format_ast("#let a = 1");
    let expected = typstyle::text::indent_4_to_2(&format!("{:#?}", typst_syntax::parse("#let a = 1")));
    assert_eq!(tree, expected);
    assert!(tree.starts_with("Markup"));
    assert!(tree.lines().any(|l| l.starts_with("  ") && !l.starts_with("   ")));
}
