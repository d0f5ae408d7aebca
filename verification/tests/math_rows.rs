use typstyle::math_align::{collect_aligned, MathItem, MathKind, MathNode, NodeRow};

fn leaf(name: &'static str, kind: MathKind) -> MathNode<&'static str> {
    MathNode { item: MathItem { node: name, kind }, descend: false, children: vec![] }
}

fn math(children: Vec<MathNode<&'static str>>) -> MathNode<&'static str> {
    MathNode { item: MathItem { node: "math", kind: MathKind::Other }, descend: true, children }
}

fn names(row: &NodeRow<&'static str>) -> Vec<Vec<&'static str>> {
    match row {
        NodeRow::Cells(cells) => cells.iter().map(|c| c.iter().map(|i| i.node).collect()).collect(),
        NodeRow::Comment(c) => vec![vec![c]],
    }
}

#[test]
fn splits_rows_at_linebreaks_and_cells_at_align_points() {
    // a & b \ c & d
    let m = math(vec![
        leaf("a", MathKind::Other),
        leaf(" ", MathKind::Space),
        leaf("&", MathKind::AlignPoint),
        leaf(" ", MathKind::Space),
        leaf("b", MathKind::Other),
        leaf(" ", MathKind::Space),
        leaf("\\", MathKind::Linebreak),
        leaf("c", MathKind::Other),
        leaf("&", MathKind::AlignPoint),
        leaf("d", MathKind::Other),
    ]);
    let res = collect_aligned(m);
    assert!(!res.has_trailing_linebreak);
    assert_eq!(res.rows.len(), 2);
    assert_eq!(names(&res.rows[0]), vec![vec!["a"], vec!["b"]]);
    assert_eq!(names(&res.rows[1]), vec![vec!["c"], vec!["d"]]);
    assert_eq!(res.rows[0].len(), 2);
}

#[test]
fn trailing_linebreak_is_noted_and_dropped() {
    let m = math(vec![leaf("a", MathKind::Other), leaf("\\", MathKind::Linebreak)]);
    let res = collect_aligned(m);
    assert!(res.has_trailing_linebreak);
    assert_eq!(res.rows.len(), 1);
}

#[test]
fn leading_line_comment_becomes_its_own_row() {
    let m = math(vec![
        leaf("// c", MathKind::LineComment),
        leaf("x", MathKind::Other),
    ]);
    let res = collect_aligned(m);
    assert_eq!(res.rows.len(), 2);
    assert!(matches!(res.rows[0], NodeRow::Comment("// c")));
    assert_eq!(res.rows[0].len(), 0);
    assert_eq!(names(&res.rows[1]), vec![vec!["x"]]);
}

#[test]
fn descends_only_into_marked_nodes() {
    let inner = MathNode {
        item: MathItem { node: "inner", kind: MathKind::Other },
        descend: true,
        children: vec![leaf("p", MathKind::Other), leaf("&", MathKind::AlignPoint), leaf("q", MathKind::Other)],
    };
    let opaque = MathNode {
        item: MathItem { node: "group", kind: MathKind::Other },
        descend: false,
        children: vec![leaf("&", MathKind::AlignPoint)],
    };
    let res = collect_aligned(math(vec![inner, opaque]));
    assert_eq!(names(&res.rows[0]), vec![vec!["p"], vec!["q", "group"]]);
}

#[test]
fn empty_block_has_no_rows() {
    let res = collect_aligned(math(vec![]));
    assert_eq!(res.rows.len(), 0);
    assert!(res.has_trailing_linebreak);
}
