use typstyle::{FormatFacts, FunctionFact, FunctionHint, FunctionQuery, TableLikeHint};

fn query<'a>(span: Option<u64>, name: Option<&'a str>, path: Option<&'a str>) -> FunctionQuery<'a> {
    FunctionQuery { callee_span: span, callee_name: name, callee_path: path }
}

#[test]
fn hint_kinds_carry_their_table_hint() {
    assert_eq!(FunctionHint::table_like(Some(2)).table_like_hint(), TableLikeHint { columns: Some(2) });
    assert_eq!(FunctionHint::grid_like(None).table_like_hint(), TableLikeHint { columns: None });
    assert_eq!(FunctionHint::table_like(None), FunctionHint::TableLike(TableLikeHint { columns: None }));
}

#[test]
fn looks_up_by_name_or_path() {
    let facts = FormatFacts::new()
        .with_function_fact(FunctionFact::by_name("my-table", FunctionHint::table_like(None)));
    assert_eq!(
        facts.function_hint(query(None, Some("my-table"), None)),
        Some(FunctionHint::table_like(None))
    );
    assert_eq!(
        facts.function_hint(query(None, Some("other"), Some("my-table"))),
        Some(FunctionHint::table_like(None))
    );
    assert_eq!(facts.function_hint(query(None, Some("other"), None)), None);
}

#[test]
fn span_fact_wins_over_name_fact() {
    let mut facts = FormatFacts::new();
    facts.add_function_name_hint("t", FunctionHint::table_like(Some(1)));
    facts.add_function_fact(FunctionFact::by_span(7, FunctionHint::grid_like(Some(3))));
    assert_eq!(
        facts.function_hint(query(Some(7), Some("t"), None)),
        Some(FunctionHint::grid_like(Some(3)))
    );
    assert_eq!(
        facts.function_hint(query(Some(8), Some("t"), None)),
        Some(FunctionHint::table_like(Some(1)))
    );
}

#[test]
fn earlier_fact_of_a_kind_wins() {
    let facts = FormatFacts::new()
        .with_function_fact(FunctionFact::by_name("t", FunctionHint::table_like(Some(1))))
        .with_function_fact(FunctionFact::by_name("t", FunctionHint::grid_like(Some(2))));
    assert_eq!(
        facts.function_hint(query(None, Some("t"), None)),
        Some(FunctionHint::table_like(Some(1)))
    );
}

#[test]
fn fact_constructors() {
    let f = FunctionFact::by_name("my-table", FunctionHint::table_like(None));
    assert_eq!(f.callee_name.as_deref(), Some("my-table"));
    assert_eq!(f.callee_span, None);
    let g = FunctionFact::by_span(5, FunctionHint::table_like(None));
    assert_eq!(g.callee_span, Some(5));
    assert_eq!(g.callee_name, None);
    assert_eq!(FormatFacts::new(), FormatFacts::default());
}
