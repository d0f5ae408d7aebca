//! Splitting a math block into the rows and cells of an aligned grid: rows at
//! line breaks, cells at align points `&`.
use vstd::prelude::*;

verus! {

/// What splitting a math block needs to know of the kind of a node.
pub enum MathKind {
    /// A line break `\`.
    Linebreak,
    /// An align point `&`.
    AlignPoint,
    Space,
    LineComment,
    Other,
}

/// A node of a math block and its kind.
pub struct MathItem<N> {
    pub node: N,
    pub kind: MathKind,
}

/// A math syntax tree. `descend` holds for a math (or delimited math) node
/// that holds an align point: the split looks at its children instead of it.
pub struct MathNode<N> {
    pub item: MathItem<N>,
    pub descend: bool,
    pub children: Vec<MathNode<N>>,
}

/// A raw row before rendering: the nodes of each cell, or a line comment that
/// starts a line.
pub enum NodeRow<N> {
    Cells(Vec<Vec<MathItem<N>>>),
    Comment(N),
}

/// A row as a value: the nodes of each cell, or a line comment.
pub enum RowShape<N> {
    Cells(Seq<Seq<MathItem<N>>>),
    Comment(N),
}

impl<N> View for NodeRow<N> {
    type V = RowShape<N>;

    open spec fn view(&self) -> RowShape<N> {
        match self {
            NodeRow::Cells(cells) => RowShape::Cells(
                cells@.map_values(|c: Vec<MathItem<N>>| c@),
            ),
            NodeRow::Comment(c) => RowShape::Comment(*c),
        }
    }
}

/// The rows of a math block, and whether it ends with a line break.
pub struct AlignedNodes<N> {
    pub rows: Vec<NodeRow<N>>,
    pub has_trailing_linebreak: bool,
}

impl<N> NodeRow<N> {
    /// The number of cells; none for a comment.
    pub fn len(&self) -> (res: usize)
        ensures
            res == match self@ {
                RowShape::Cells(cells) => cells.len(),
                RowShape::Comment(_) => 0,
            },
    {
        match self {
            NodeRow::Cells(items) => items.len(),
            NodeRow::Comment(_) => 0,
        }
    }
}

/// The nodes the split looks at, left to right: the nodes of the forest, where
/// each node to descend into stands for the nodes of its children.
pub open spec fn flatten<N>(nodes: Seq<MathNode<N>>) -> Seq<MathItem<N>>
    decreases nodes,
{
    if nodes.len() == 0 {
        seq![]
    } else {
        let last = nodes.last();
        flatten(nodes.drop_last()) + if last.descend {
            flatten(last.children@)
        } else {
            seq![last.item]
        }
    }
}

/// Split at line breaks, as `<[T]>::split` does: one more part than there
/// are line breaks, the line breaks left out.
pub open spec fn split_lines<N>(items: Seq<MathItem<N>>) -> Seq<Seq<MathItem<N>>>
    decreases items.len(),
{
    if items.len() == 0 {
        seq![seq![]]
    } else {
        let parts = split_lines(items.drop_last());
        if items.last().kind is Linebreak {
            parts.push(seq![])
        } else {
            parts.update(parts.len() - 1, parts.last().push(items.last()))
        }
    }
}

/// The lines of the block: the parts between line breaks, without an empty
/// last one; and whether there was one to leave out.
pub open spec fn block_lines<N>(items: Seq<MathItem<N>>) -> (Seq<Seq<MathItem<N>>>, bool) {
    let parts = split_lines(items);
    if parts.last().len() == 0 {
        (parts.drop_last(), true)
    } else {
        (parts, false)
    }
}

/// A cell without its trailing spaces.
pub open spec fn trim_spaces<N>(cell: Seq<MathItem<N>>) -> Seq<MathItem<N>>
    decreases cell.len(),
{
    if cell.len() > 0 && cell.last().kind is Space {
        trim_spaces(cell.drop_last())
    } else {
        cell
    }
}

/// Reading a line from the left: the comment rows met so far, the cells ended
/// by an align point, and the cell not yet ended. Spaces that start a cell are
/// dropped, and a line comment before any content becomes a row of its own.
pub open spec fn line_scan<N>(line: Seq<MathItem<N>>) -> (
    Seq<RowShape<N>>,
    Seq<Seq<MathItem<N>>>,
    Seq<MathItem<N>>,
)
    decreases line.len(),
{
    if line.len() == 0 {
        (seq![], seq![], seq![])
    } else {
        let (comments, cells, cur) = line_scan(line.drop_last());
        let it = line.last();
        match it.kind {
            MathKind::AlignPoint => (comments, cells.push(trim_spaces(cur)), seq![]),
            MathKind::Space if cur.len() == 0 => (comments, cells, cur),
            MathKind::LineComment if cells.len() == 0 && cur.len() == 0 => (
                comments.push(RowShape::Comment(it.node)),
                cells,
                cur,
            ),
            _ => (comments, cells, cur.push(it)),
        }
    }
}

/// The rows of one line: its comment rows, then its cells.
pub open spec fn line_rows<N>(line: Seq<MathItem<N>>) -> Seq<RowShape<N>> {
    let (comments, cells, cur) = line_scan(line);
    comments.push(RowShape::Cells(cells.push(trim_spaces(cur))))
}

/// The rows of all lines, in order.
pub open spec fn rows_of_lines<N>(lines: Seq<Seq<MathItem<N>>>) -> Seq<RowShape<N>>
    decreases lines.len(),
{
    if lines.len() == 0 {
        seq![]
    } else {
        rows_of_lines(lines.drop_last()) + line_rows(lines.last())
    }
}

proof fn lemma_flatten_single<N>(node: MathNode<N>)
    ensures
        flatten(seq![node]) == if node.descend {
            flatten(node.children@)
        } else {
            seq![node.item]
        },
{
    let single = seq![node];
    assert(single.drop_last() =~= seq![]);
    assert(flatten(single.drop_last()) =~= seq![]);
    assert(single.last() == node);
    if node.descend {
        assert(flatten(single) =~= flatten(node.children@));
    } else {
        assert(flatten(single) =~= seq![node.item]);
    }
}

/// Gather the nodes to split, descending into the nodes that ask for it.
fn collect_children<N>(node: MathNode<N>, out: &mut Vec<MathItem<N>>)
    ensures
        final(out)@ == old(out)@ + flatten(seq![node]),
    decreases node,
{
    proof {
        lemma_flatten_single(node);
    }
    if !node.descend {
        out.push(node.item);
        return ;
    }
    let ghost kids = node.children@;
    let MathNode { item, descend, children } = node;
    let ghost start = out@;
    let n = children.len();
    let mut k: usize = 0;
    for child in it: children.into_iter()
        invariant
            it.seq() == kids,
            kids.len() == n,
            k == it.index(),
            out@ == start + flatten(kids.take(k as int)),
            kids == node.children@,
    {
        proof {
            assert(child == kids[k as int]);
            assert(decreases_to!(node => node.children));
            assert(decreases_to!(node.children => node.children@));
            assert(decreases_to!(node.children@ => node.children@[k as int]));
        }
        collect_children(child, out);
        proof {
            let t = kids.take(k + 1);
            assert(t.drop_last() =~= kids.take(k as int));
            lemma_flatten_single(child);
        }
        k = k + 1;
    }
    proof {
        assert(kids.take(kids.len() as int) =~= kids);
    }
}

/// Drop the spaces that end a cell.
fn trim_trailing_spaces<N>(cell: &mut Vec<MathItem<N>>)
    ensures
        final(cell)@ == trim_spaces(old(cell)@),
{
    loop
        invariant
            trim_spaces(cell@) == trim_spaces(old(cell)@),
        decreases cell@.len(),
    {
        if cell.len() == 0 {
            return ;
        }
        let is_space = match cell[cell.len() - 1].kind {
            MathKind::Space => true,
            _ => false,
        };
        if !is_space {
            return ;
        }
        cell.pop();
    }
}

/// The rows of one line, appended to `rows`.
fn push_line_rows<N>(line: Vec<MathItem<N>>, rows: &mut Vec<NodeRow<N>>)
    ensures
        final(rows)@.map_values(|r: NodeRow<N>| r@) == old(rows)@.map_values(|r: NodeRow<N>| r@)
            + line_rows(line@),
{
    let ghost l = line@;
    let ghost start = rows@.map_values(|r: NodeRow<N>| r@);
    let mut cells: Vec<Vec<MathItem<N>>> = Vec::new();
    let mut current_cell: Vec<MathItem<N>> = Vec::new();
    let n = line.len();
    let mut k: usize = 0;
    for node in it: line.into_iter()
        invariant
            it.seq() == l,
            l.len() == n,
            k == it.index(),
            ({
                let (comments, cs, cur) = line_scan(l.take(k as int));
                &&& rows@.map_values(|r: NodeRow<N>| r@) == start + comments
                &&& cells@.map_values(|c: Vec<MathItem<N>>| c@) == cs
                &&& current_cell@ == cur
            }),
    {
        proof {
            assert(l.take(k + 1).drop_last() =~= l.take(k as int));
            assert(node == l[k as int]);
        }
        let ghost rows_before = rows@;
        let ghost cells_before = cells@;
        match node.kind {
            MathKind::AlignPoint => {
                trim_trailing_spaces(&mut current_cell);
                let mut finished: Vec<MathItem<N>> = Vec::new();
                std::mem::swap(&mut finished, &mut current_cell);
                cells.push(finished);
                proof {
                    assert(cells@.map_values(|c: Vec<MathItem<N>>| c@) =~= cells_before.map_values(
                        |c: Vec<MathItem<N>>| c@,
                    ).push(finished@));
                }
            },
            MathKind::Space if current_cell.len() == 0 => {},
            MathKind::LineComment if cells.len() == 0 && current_cell.len() == 0 => {
                rows.push(NodeRow::Comment(node.node));
                proof {
                    assert(rows@.map_values(|r: NodeRow<N>| r@) =~= rows_before.map_values(
                        |r: NodeRow<N>| r@,
                    ).push(RowShape::Comment(node.node)));
                }
            },
            _ => {
                current_cell.push(node);
            },
        }
        k = k + 1;
    }
    proof {
        assert(l.take(l.len() as int) =~= l);
    }
    trim_trailing_spaces(&mut current_cell);
    let ghost cells_before = cells@;
    cells.push(current_cell);
    let ghost rows_before = rows@;
    let ghost cells_now = cells@;
    rows.push(NodeRow::Cells(cells));
    proof {
        assert(cells_now.map_values(|c: Vec<MathItem<N>>| c@) =~= cells_before.map_values(
            |c: Vec<MathItem<N>>| c@,
        ).push(cells_now.last()@));
        assert(rows@.map_values(|r: NodeRow<N>| r@) =~= rows_before.map_values(
            |r: NodeRow<N>| r@,
        ).push(RowShape::Cells(cells_now.map_values(|c: Vec<MathItem<N>>| c@))));
    }
}

/// Collect math syntax nodes, split into lines and cells by linebreaks and
/// align points.
pub fn collect_aligned<N>(math: MathNode<N>) -> (res: AlignedNodes<N>)
    ensures
        ({
            let (lines, trailing) = block_lines(flatten(seq![math]));
            &&& res.rows@.map_values(|r: NodeRow<N>| r@) == rows_of_lines(lines)
            &&& res.has_trailing_linebreak == trailing
        }),
{
    let mut flat: Vec<MathItem<N>> = Vec::new();
    collect_children(math, &mut flat);
    let ghost items = flat@;
    // First pass: split all children into lines (split at Linebreak)
    let mut lines: Vec<Vec<MathItem<N>>> = Vec::new();
    let mut current: Vec<MathItem<N>> = Vec::new();
    let n = flat.len();
    let mut k: usize = 0;
    for item in it: flat.into_iter()
        invariant
            it.seq() == items,
            items.len() == n,
            k == it.index(),
            lines@.map_values(|l: Vec<MathItem<N>>| l@).push(current@) == split_lines(
                items.take(k as int),
            ),
    {
        proof {
            assert(items.take(k + 1).drop_last() =~= items.take(k as int));
            assert(item == items[k as int]);
        }
        let ghost lines_before = lines@;
        let is_break = match item.kind {
            MathKind::Linebreak => true,
            _ => false,
        };
        if is_break {
            let mut finished: Vec<MathItem<N>> = Vec::new();
            std::mem::swap(&mut finished, &mut current);
            lines.push(finished);
            proof {
                assert(lines@.map_values(|l: Vec<MathItem<N>>| l@) =~= lines_before.map_values(
                    |l: Vec<MathItem<N>>| l@,
                ).push(finished@));
            }
        } else {
            current.push(item);
        }
        proof {
            assert(lines@.map_values(|l: Vec<MathItem<N>>| l@).push(current@) =~= split_lines(
                items.take(k + 1),
            ));
        }
        k = k + 1;
    }
    proof {
        assert(items.take(items.len() as int) =~= items);
    }
    let has_trailing_linebreak = current.len() == 0;
    if !has_trailing_linebreak {
        lines.push(current);
    }
    let ghost the_lines = lines@.map_values(|l: Vec<MathItem<N>>| l@);
    proof {
        let parts = split_lines(items);
        if has_trailing_linebreak {
            assert(the_lines =~= parts.drop_last());
        } else {
            assert(the_lines =~= parts);
        }
    }
    // Second pass: create rows; a line that starts with a line comment gives a comment row.
    let ghost lines_seq = lines@;
    let mut rows: Vec<NodeRow<N>> = Vec::new();
    let n_lines = lines.len();
    let mut j: usize = 0;
    for line in it: lines.into_iter()
        invariant
            it.seq() == lines_seq,
            lines_seq.len() == n_lines,
            j == it.index(),
            the_lines == lines_seq.map_values(|l: Vec<MathItem<N>>| l@),
            rows@.map_values(|r: NodeRow<N>| r@) == rows_of_lines(the_lines.take(j as int)),
    {
        proof {
            assert(the_lines.take(j + 1).drop_last() =~= the_lines.take(j as int));
            assert(line@ == the_lines[j as int]);
        }
        push_line_rows(line, &mut rows);
        j = j + 1;
    }
    proof {
        assert(the_lines.take(the_lines.len() as int) =~= the_lines);
    }
    AlignedNodes { rows, has_trailing_linebreak }
}


// ---------------------------------------------------------------------------
// What a cell holds

/// A cell holds no line break and no align point, and neither starts nor
/// ends with a space.
pub open spec fn cell_clean<N>(cell: Seq<MathItem<N>>) -> bool {
    &&& forall|k: int|
        0 <= k < cell.len() ==> !((#[trigger] cell[k]).kind is AlignPoint) && !(
        cell[k].kind is Linebreak)
    &&& cell.len() > 0 ==> !(cell[0].kind is Space) && !(cell.last().kind is Space)
}

proof fn lemma_trim_spaces<N>(cell: Seq<MathItem<N>>)
    ensures
        trim_spaces(cell).len() <= cell.len(),
        trim_spaces(cell) == cell.take(trim_spaces(cell).len() as int),
        trim_spaces(cell).len() > 0 ==> !(trim_spaces(cell).last().kind is Space),
    decreases cell.len(),
{
    if cell.len() > 0 && cell.last().kind is Space {
        lemma_trim_spaces(cell.drop_last());
        let t = trim_spaces(cell.drop_last());
        assert(cell.drop_last().take(t.len() as int) =~= cell.take(t.len() as int));
    } else {
        assert(cell.take(cell.len() as int) =~= cell);
    }
}

/// A cell without align points, line breaks or a leading space keeps none
/// once its trailing spaces are trimmed, and ends in no space.
proof fn lemma_trimmed_clean<N>(cur: Seq<MathItem<N>>)
    requires
        forall|k: int|
            0 <= k < cur.len() ==> !((#[trigger] cur[k]).kind is AlignPoint) && !(
            cur[k].kind is Linebreak),
        cur.len() > 0 ==> !(cur[0].kind is Space),
    ensures
        cell_clean(trim_spaces(cur)),
{
    lemma_trim_spaces(cur);
    let t = trim_spaces(cur);
    assert forall|k: int| 0 <= k < t.len() implies !((#[trigger] t[k]).kind is AlignPoint) && !(
    t[k].kind is Linebreak) by {
        assert(t[k] == cur[k]);
    }
    if t.len() > 0 {
        assert(t[0] == cur[0]);
    }
}

proof fn lemma_line_scan_clean<N>(line: Seq<MathItem<N>>)
    requires
        forall|k: int| 0 <= k < line.len() ==> !((#[trigger] line[k]).kind is Linebreak),
    ensures
        ({
            let (comments, cells, cur) = line_scan(line);
            &&& forall|c: int| 0 <= c < cells.len() ==> cell_clean(#[trigger] cells[c])
            &&& forall|k: int|
                0 <= k < cur.len() ==> !((#[trigger] cur[k]).kind is AlignPoint) && !(
                cur[k].kind is Linebreak)
            &&& cur.len() > 0 ==> !(cur[0].kind is Space)
            &&& forall|c: int| 0 <= c < comments.len() ==> (#[trigger] comments[c]) is Comment
        }),
    decreases line.len(),
{
    if line.len() > 0 {
        let prefix = line.drop_last();
        assert forall|k: int| 0 <= k < prefix.len() implies !((#[trigger] prefix[k]).kind is Linebreak) by {
            assert(prefix[k] == line[k]);
        }
        lemma_line_scan_clean(prefix);
        let (comments, cells, cur) = line_scan(prefix);
        lemma_trimmed_clean(cur);
        let it = line.last();
        assert(!(it.kind is Linebreak));
        if !(it.kind is AlignPoint) && !(it.kind is Space && cur.len() == 0) && !(
        it.kind is LineComment && cells.len() == 0 && cur.len() == 0) {
            let cur2 = cur.push(it);
            assert forall|k: int| 0 <= k < cur2.len() implies !((#[trigger] cur2[k]).kind is AlignPoint) && !(
            cur2[k].kind is Linebreak) by {
                if k < cur.len() {
                    assert(cur2[k] == cur[k]);
                }
            }
            if cur.len() == 0 {
                assert(cur2[0] == it);
            } else {
                assert(cur2[0] == cur[0]);
            }
        }
    }
}

proof fn lemma_split_lines_no_breaks<N>(items: Seq<MathItem<N>>)
    ensures
        split_lines(items).len() > 0,
        forall|l: int, k: int|
            0 <= l < split_lines(items).len() && 0 <= k < split_lines(items)[l].len() ==> !((
            #[trigger] split_lines(items)[l][k]).kind is Linebreak),
    decreases items.len(),
{
    if items.len() > 0 {
        lemma_split_lines_no_breaks(items.drop_last());
        let parts = split_lines(items.drop_last());
        if !(items.last().kind is Linebreak) {
            let last = parts.last().push(items.last());
            let all = parts.update(parts.len() - 1, last);
            assert forall|l: int, k: int| 0 <= l < all.len() && 0 <= k < all[l].len() implies !((
            #[trigger] all[l][k]).kind is Linebreak) by {
                if l < parts.len() - 1 {
                    assert(all[l] == parts[l]);
                } else if k < parts.last().len() {
                    assert(all[l][k] == parts[l][k]);
                }
            }
        } else {
            let all = parts.push(seq![]);
            assert forall|l: int, k: int| 0 <= l < all.len() && 0 <= k < all[l].len() implies !((
            #[trigger] all[l][k]).kind is Linebreak) by {
                assert(all[l] == parts[l]);
            }
        }
    }
}

proof fn lemma_rows_of_lines_clean<N>(lines: Seq<Seq<MathItem<N>>>)
    requires
        forall|l: int, k: int|
            0 <= l < lines.len() && 0 <= k < lines[l].len() ==> !((
            #[trigger] lines[l][k]).kind is Linebreak),
    ensures
        forall|r: int|
            0 <= r < rows_of_lines(lines).len() && #[trigger] rows_of_lines(lines)[r] is Cells
                ==> forall|c: int|
                0 <= c < rows_of_lines(lines)[r]->Cells_0.len() ==> cell_clean(
                    #[trigger] rows_of_lines(lines)[r]->Cells_0[c],
                ),
    decreases lines.len(),
{
    if lines.len() > 0 {
        let prefix = lines.drop_last();
        assert forall|l: int, k: int| 0 <= l < prefix.len() && 0 <= k < prefix[l].len() implies !((
        #[trigger] prefix[l][k]).kind is Linebreak) by {
            assert(prefix[l] == lines[l]);
        }
        lemma_rows_of_lines_clean(prefix);
        let line = lines.last();
        assert forall|k: int| 0 <= k < line.len() implies !((#[trigger] line[k]).kind is Linebreak) by {
            assert(line[k] == lines[lines.len() - 1][k]);
        }
        lemma_line_scan_clean(line);
        let (comments, cells, cur) = line_scan(line);
        lemma_trimmed_clean(cur);
        let before = rows_of_lines(prefix);
        let new_rows = line_rows(line);
        let all = rows_of_lines(lines);
        assert(all == before + new_rows);
        let last_cells = cells.push(trim_spaces(cur));
        assert forall|r: int|
            0 <= r < all.len() && #[trigger] all[r] is Cells implies forall|c: int|
            0 <= c < all[r]->Cells_0.len() ==> cell_clean(#[trigger] all[r]->Cells_0[c]) by {
            if r < before.len() {
                assert(all[r] == before[r]);
            } else if r - before.len() < comments.len() {
                assert(all[r] == comments[r - before.len()]);
            } else {
                assert(all[r] == RowShape::<N>::Cells(last_cells));
                assert forall|c: int| 0 <= c < last_cells.len() implies cell_clean(
                    #[trigger] last_cells[c],
                ) by {
                    if c < cells.len() {
                        assert(last_cells[c] == cells[c]);
                    }
                }
            }
        }
    }
}

/// The cells of an aligned math block hold the content between align points:
/// no cell holds a line break or an align point, and none starts or ends
/// with a space.
pub proof fn lemma_cells_are_clean<N>(math: MathNode<N>)
    ensures
        ({
            let rows = rows_of_lines(block_lines(flatten(seq![math])).0);
            forall|r: int|
                0 <= r < rows.len() && #[trigger] rows[r] is Cells ==> forall|c: int|
                    0 <= c < rows[r]->Cells_0.len() ==> cell_clean(#[trigger] rows[r]->Cells_0[c])
        }),
{
    let items = flatten(seq![math]);
    lemma_split_lines_no_breaks(items);
    let parts = split_lines(items);
    let lines = block_lines(items).0;
    assert forall|l: int, k: int| 0 <= l < lines.len() && 0 <= k < lines[l].len() implies !((
    #[trigger] lines[l][k]).kind is Linebreak) by {
        assert(lines[l] == parts[l]);
    }
    lemma_rows_of_lines_clean(lines);
}


// ---------------------------------------------------------------------------
// No content is lost

/// The content nodes of the items, in order: all but line breaks, align
/// points and spaces; line comments count.
pub open spec fn content<N>(items: Seq<MathItem<N>>) -> Seq<N>
    decreases items.len(),
{
    if items.len() == 0 {
        seq![]
    } else {
        content(items.drop_last()) + if items.last().kind is Other || items.last().kind is LineComment {
            seq![items.last().node]
        } else {
            seq![]
        }
    }
}

/// The content of cells, one after another.
pub open spec fn cells_content<N>(cells: Seq<Seq<MathItem<N>>>) -> Seq<N>
    decreases cells.len(),
{
    if cells.len() == 0 {
        seq![]
    } else {
        cells_content(cells.drop_last()) + content(cells.last())
    }
}

/// The content of rows, one after another; a comment row holds its comment.
pub open spec fn rows_content<N>(rows: Seq<RowShape<N>>) -> Seq<N>
    decreases rows.len(),
{
    if rows.len() == 0 {
        seq![]
    } else {
        rows_content(rows.drop_last()) + match rows.last() {
            RowShape::Cells(cells) => cells_content(cells),
            RowShape::Comment(c) => seq![c],
        }
    }
}

/// The content of lines, one after another.
pub open spec fn lines_content<N>(lines: Seq<Seq<MathItem<N>>>) -> Seq<N>
    decreases lines.len(),
{
    if lines.len() == 0 {
        seq![]
    } else {
        lines_content(lines.drop_last()) + content(lines.last())
    }
}

proof fn lemma_content_concat<N>(a: Seq<MathItem<N>>, b: Seq<MathItem<N>>)
    ensures
        content(a + b) == content(a) + content(b),
    decreases b.len(),
{
    if b.len() > 0 {
        lemma_content_concat(a, b.drop_last());
        assert((a + b).drop_last() =~= a + b.drop_last());
    } else {
        assert(a + b =~= a);
    }
}

proof fn lemma_rows_content_concat<N>(a: Seq<RowShape<N>>, b: Seq<RowShape<N>>)
    ensures
        rows_content(a + b) == rows_content(a) + rows_content(b),
    decreases b.len(),
{
    if b.len() > 0 {
        lemma_rows_content_concat(a, b.drop_last());
        assert((a + b).drop_last() =~= a + b.drop_last());
    } else {
        assert(a + b =~= a);
    }
}

proof fn lemma_trim_keeps_content<N>(cell: Seq<MathItem<N>>)
    ensures
        content(trim_spaces(cell)) == content(cell),
    decreases cell.len(),
{
    if cell.len() > 0 && cell.last().kind is Space {
        lemma_trim_keeps_content(cell.drop_last());
    }
}

/// Scanning a line keeps its content, in order: that of the comment rows
/// met so far, of the cells ended so far and of the cell not yet ended.
proof fn lemma_line_scan_content<N>(line: Seq<MathItem<N>>)
    ensures
        ({
            let (comments, cells, cur) = line_scan(line);
            content(line) == rows_content(comments) + cells_content(cells) + content(cur)
        }),
    decreases line.len(),
{
    if line.len() > 0 {
        let prefix = line.drop_last();
        lemma_line_scan_content(prefix);
        let (comments, cells, cur) = line_scan(prefix);
        let it = line.last();
        lemma_trim_keeps_content(cur);
        let cur2 = cur.push(it);
        assert(cur2.drop_last() =~= cur);
        let cells2 = cells.push(trim_spaces(cur));
        assert(cells2.drop_last() =~= cells);
        let comments2 = comments.push(RowShape::Comment(it.node));
        assert(comments2.drop_last() =~= comments);
        assert(content(Seq::<MathItem<N>>::empty()) =~= Seq::<N>::empty());
        match it.kind {
            MathKind::AlignPoint => {
                assert(content(line) == content(prefix));
                assert(rows_content(comments) + cells_content(cells2) + content(seq![]) =~= rows_content(
                    comments,
                ) + cells_content(cells) + content(cur));
            },
            MathKind::Space if cur.len() == 0 => {
                assert(content(line) == content(prefix));
            },
            MathKind::LineComment if cells.len() == 0 && cur.len() == 0 => {
                assert(cells_content(cells) =~= Seq::<N>::empty());
                assert(content(cur) =~= Seq::<N>::empty());
                assert(content(line) =~= content(prefix) + seq![it.node]);
                assert(rows_content(comments2) =~= rows_content(comments) + seq![it.node]);
                assert(content(line) =~= rows_content(comments2) + cells_content(cells) + content(cur));
            },
            _ => {
                if it.kind is Other || it.kind is LineComment {
                    assert(content(line) =~= content(prefix) + seq![it.node]);
                    assert(content(cur2) =~= content(cur) + seq![it.node]);
                    assert(content(line) =~= rows_content(comments) + cells_content(cells) + content(
                        cur2,
                    ));
                } else {
                    assert(content(line) == content(prefix));
                    assert(content(cur2) == content(cur));
                }
            },
        }
    }
}

proof fn lemma_line_rows_content<N>(line: Seq<MathItem<N>>)
    ensures
        rows_content(line_rows(line)) == content(line),
{
    lemma_line_scan_content(line);
    let (comments, cells, cur) = line_scan(line);
    lemma_trim_keeps_content(cur);
    let last = cells.push(trim_spaces(cur));
    assert(last.drop_last() =~= cells);
    let rows = comments.push(RowShape::Cells(last));
    assert(rows.drop_last() =~= comments);
    assert(rows_content(rows) =~= rows_content(comments) + cells_content(last));
}

proof fn lemma_rows_of_lines_content<N>(lines: Seq<Seq<MathItem<N>>>)
    ensures
        rows_content(rows_of_lines(lines)) == lines_content(lines),
    decreases lines.len(),
{
    if lines.len() > 0 {
        lemma_rows_of_lines_content(lines.drop_last());
        lemma_rows_content_concat(rows_of_lines(lines.drop_last()), line_rows(lines.last()));
        lemma_line_rows_content(lines.last());
    }
}

proof fn lemma_split_lines_content<N>(items: Seq<MathItem<N>>)
    ensures
        lines_content(split_lines(items)) == content(items),
    decreases items.len(),
{
    if items.len() == 0 {
        let parts = split_lines(items);
        let empty_line = Seq::<MathItem<N>>::empty();
        assert(parts =~= seq![empty_line]);
        assert(parts.drop_last() =~= Seq::<Seq<MathItem<N>>>::empty());
        assert(lines_content(parts.drop_last()) =~= Seq::<N>::empty());
        assert(content(empty_line) =~= Seq::<N>::empty());
        assert(lines_content(parts) =~= Seq::<N>::empty());
    } else {
        lemma_split_lines_content(items.drop_last());
        let parts = split_lines(items.drop_last());
        let it = items.last();
        if it.kind is Linebreak {
            let all = parts.push(seq![]);
            assert(all.drop_last() =~= parts);
            assert(content(Seq::<MathItem<N>>::empty()) =~= Seq::<N>::empty());
            assert(lines_content(all) =~= lines_content(parts));
        } else {
            lemma_split_lines_no_breaks(items.drop_last());
            let last = parts.last().push(it);
            let all = parts.update(parts.len() - 1, last);
            assert(all.drop_last() =~= parts.drop_last());
            assert(parts.drop_last().push(parts.last()) =~= parts);
            assert(last.drop_last() =~= parts.last());
            assert(lines_content(parts) == lines_content(parts.drop_last()) + content(parts.last()));
            assert(lines_content(all) =~= lines_content(parts.drop_last()) + content(last));
        }
    }
}

/// Splitting a math block loses no content: the content nodes and line
/// comments of its rows (a comment row's comment, and the nodes of each
/// cell), row after row and cell after cell, are those of the block, in
/// order. Only line breaks, align points and spaces are taken out.
pub proof fn lemma_content_kept<N>(math: MathNode<N>)
    ensures
        rows_content(rows_of_lines(block_lines(flatten(seq![math])).0)) == content(
            flatten(seq![math]),
        ),
{
    let items = flatten(seq![math]);
    lemma_split_lines_no_breaks(items);
    lemma_split_lines_content(items);
    let parts = split_lines(items);
    let lines = block_lines(items).0;
    lemma_rows_of_lines_content(lines);
    if parts.last().len() == 0 {
        assert(parts.drop_last().push(parts.last()) =~= parts);
        assert(content(parts.last()) =~= Seq::<N>::empty());
        assert(lines_content(parts) =~= lines_content(lines));
    }
}


// ---------------------------------------------------------------------------
// The cells of a line are the stretches between its align points

/// The parts between align points, as `<[T]>::split` gives them: one more
/// part than there are align points, the align points left out.
pub open spec fn split_at_aligns<N>(items: Seq<MathItem<N>>) -> Seq<Seq<MathItem<N>>>
    decreases items.len(),
{
    if items.len() == 0 {
        seq![seq![]]
    } else {
        let parts = split_at_aligns(items.drop_last());
        if items.last().kind is AlignPoint {
            parts.push(seq![])
        } else {
            parts.update(parts.len() - 1, parts.last().push(items.last()))
        }
    }
}

/// The items without the spaces that start them.
pub open spec fn drop_leading_spaces<N>(items: Seq<MathItem<N>>) -> Seq<MathItem<N>>
    decreases items.len(),
{
    if items.len() > 0 && items[0].kind is Space {
        drop_leading_spaces(items.drop_first())
    } else {
        items
    }
}

/// The items without the spaces that end them.
pub open spec fn drop_trailing_spaces<N>(items: Seq<MathItem<N>>) -> Seq<MathItem<N>>
    decreases items.len(),
{
    if items.len() > 0 && items.last().kind is Space {
        drop_trailing_spaces(items.drop_last())
    } else {
        items
    }
}

/// A part without the spaces that start or end it; spaces between its other
/// items stay.
pub open spec fn strip_spaces<N>(part: Seq<MathItem<N>>) -> Seq<MathItem<N>> {
    drop_trailing_spaces(drop_leading_spaces(part))
}

proof fn lemma_trim_drops_trailing<N>(items: Seq<MathItem<N>>)
    ensures
        trim_spaces(items) == drop_trailing_spaces(items),
    decreases items.len(),
{
    if items.len() > 0 && items.last().kind is Space {
        lemma_trim_drops_trailing(items.drop_last());
    }
}

/// Spaces and line comments.
pub open spec fn is_blank_or_comment<N>(item: MathItem<N>) -> bool {
    item.kind is Space || item.kind is LineComment
}

/// How many items start the line that are spaces or line comments.
pub open spec fn lead_len<N>(line: Seq<MathItem<N>>) -> nat
    decreases line.len(),
{
    if line.len() > 0 && is_blank_or_comment(line[0]) {
        1 + lead_len(line.drop_first())
    } else {
        0
    }
}

/// The line comments among the items, each a row of its own, in order.
pub open spec fn comment_rows<N>(items: Seq<MathItem<N>>) -> Seq<RowShape<N>>
    decreases items.len(),
{
    if items.len() == 0 {
        seq![]
    } else {
        comment_rows(items.drop_last()) + if items.last().kind is LineComment {
            seq![RowShape::Comment(items.last().node)]
        } else {
            seq![]
        }
    }
}

proof fn lemma_lead_len_push<N>(q: Seq<MathItem<N>>, it: MathItem<N>)
    ensures
        lead_len(q) <= q.len(),
        lead_len(q) < q.len() ==> !is_blank_or_comment(q[lead_len(q) as int]),
        lead_len(q.push(it)) == if lead_len(q) == q.len() && is_blank_or_comment(it) {
            q.len() + 1int
        } else {
            lead_len(q) as int
        },
    decreases q.len(),
{
    let p = q.push(it);
    if q.len() > 0 {
        assert(p.drop_first() =~= q.drop_first().push(it));
        assert(p[0] == q[0]);
        lemma_lead_len_push(q.drop_first(), it);
        if is_blank_or_comment(q[0]) && lead_len(q.drop_first()) < q.drop_first().len() {
            assert(q.drop_first()[lead_len(q.drop_first()) as int] == q[lead_len(q) as int]);
        }
    } else {
        assert(p.drop_first() =~= Seq::<MathItem<N>>::empty());
        reveal_with_fuel(lead_len, 2);
    }
}

proof fn lemma_drop_leading_push<N>(s: Seq<MathItem<N>>, x: MathItem<N>)
    ensures
        drop_leading_spaces(s.push(x)) == if drop_leading_spaces(s).len() == 0 && x.kind is Space {
            Seq::<MathItem<N>>::empty()
        } else {
            drop_leading_spaces(s).push(x)
        },
    decreases s.len(),
{
    let p = s.push(x);
    if s.len() > 0 {
        assert(p[0] == s[0]);
        assert(p.drop_first() =~= s.drop_first().push(x));
        if s[0].kind is Space {
            lemma_drop_leading_push(s.drop_first(), x);
        }
    } else {
        assert(p.drop_first() =~= Seq::<MathItem<N>>::empty());
        assert(drop_leading_spaces(Seq::<MathItem<N>>::empty()) =~= Seq::<MathItem<N>>::empty());
    }
}

proof fn lemma_split_single<N>(r: Seq<MathItem<N>>)
    ensures
        split_at_aligns(r).len() >= 1,
        split_at_aligns(r).len() == 1 ==> split_at_aligns(r).last() == r,
    decreases r.len(),
{
    if r.len() > 0 {
        lemma_split_single(r.drop_last());
        if !(r.last().kind is AlignPoint) && split_at_aligns(r.drop_last()).len() == 1 {
            assert(r.drop_last().push(r.last()) =~= r);
        }
    }
}

/// Reading a line from the left gives, at every point: the line comments
/// among the spaces and comments that start the line, each a row; the
/// parts between align points after that start, each without its edge
/// spaces, but for the last, which has lost only its leading spaces so far.
proof fn lemma_line_scan_parts<N>(p: Seq<MathItem<N>>)
    ensures
        ({
            let k = lead_len(p) as int;
            let parts = split_at_aligns(p.skip(k));
            &&& parts.len() >= 1
            &&& line_scan(p).0 == comment_rows(p.take(k))
            &&& line_scan(p).1 == parts.drop_last().map_values(|c: Seq<MathItem<N>>| strip_spaces(c))
            &&& line_scan(p).2 == drop_leading_spaces(parts.last())
        }),
    decreases p.len(),
{
    let empty = Seq::<MathItem<N>>::empty();
    if p.len() == 0 {
        assert(p.skip(0) =~= empty);
        assert(p.take(0) =~= empty);
        assert(split_at_aligns(empty) =~= seq![empty]);
        assert(seq![empty].drop_last().map_values(|c: Seq<MathItem<N>>| strip_spaces(c)) =~= Seq::<Seq<MathItem<N>>>::empty());
        return;
    }
    let q = p.drop_last();
    let it = p.last();
    assert(q.push(it) =~= p);
    lemma_line_scan_parts(q);
    lemma_lead_len_push(q, it);
    let kq = lead_len(q) as int;
    let kp = lead_len(p) as int;
    let (comments, cells, cur) = line_scan(q);
    let parts_q = split_at_aligns(q.skip(kq));
    lemma_split_single(q.skip(kq));
    assert(split_at_aligns(empty) =~= seq![empty]);
    assert(drop_leading_spaces(empty) =~= empty);
    if kq == q.len() {
        assert(q.skip(kq) =~= empty);
        assert(q.take(kq) =~= q);
        assert(cells =~= Seq::<Seq<MathItem<N>>>::empty());
        assert(cur =~= empty);
        if is_blank_or_comment(it) {
            assert(kp == p.len());
            assert(p.take(kp) =~= p);
            assert(p.skip(kp) =~= empty);
            assert(p.drop_last() =~= q);
        } else {
            assert(kp == q.len());
            assert(p.take(kp) =~= q);
            let rest = seq![it];
            assert(p.skip(kp) =~= rest);
            assert(rest.drop_last() =~= empty);
            if it.kind is AlignPoint {
                let parts = seq![empty, empty];
                assert(split_at_aligns(rest) =~= parts);
                assert(parts.drop_last().map_values(|c: Seq<MathItem<N>>| strip_spaces(c)) =~= seq![strip_spaces(empty)]);
                assert(trim_spaces(empty) =~= empty);
                assert(drop_trailing_spaces(empty) =~= empty);
            } else {
                assert(split_at_aligns(rest) =~= seq![rest]);
                assert(seq![rest].drop_last().map_values(|c: Seq<MathItem<N>>| strip_spaces(c)) =~= Seq::<Seq<MathItem<N>>>::empty());
                assert(drop_leading_spaces(rest) =~= rest);
                assert(empty.push(it) =~= rest);
            }
        }
    } else {
        assert(kp == kq);
        assert(p.take(kp) =~= q.take(kq));
        let rest_q = q.skip(kq);
        let rest_p = p.skip(kp);
        assert(rest_p =~= rest_q.push(it));
        assert(rest_p.drop_last() =~= rest_q);
        assert(rest_q[0] == q[kq]);
        let last = parts_q.last();
        lemma_drop_leading_push(last, it);
        lemma_trim_drops_trailing(drop_leading_spaces(last));
        if it.kind is AlignPoint {
            let parts_p = parts_q.push(empty);
            assert(split_at_aligns(rest_p) == parts_p);
            assert(parts_p.drop_last() =~= parts_q);
            assert(parts_q.map_values(|c: Seq<MathItem<N>>| strip_spaces(c)) =~= parts_q.drop_last().map_values(
                |c: Seq<MathItem<N>>| strip_spaces(c),
            ).push(strip_spaces(last)));
        } else {
            let parts_p = parts_q.update(parts_q.len() - 1, last.push(it));
            assert(split_at_aligns(rest_p) == parts_p);
            assert(parts_p.drop_last() =~= parts_q.drop_last());
            if it.kind is LineComment && cells.len() == 0 && cur.len() == 0 {
                assert(parts_q.len() == 1);
                assert(last == rest_q);
                assert(drop_leading_spaces(rest_q) == rest_q);
                assert(false);
            }
        }
    }
}

/// The rows of a line: a row for each line comment among the spaces and
/// comments that start it, then one row whose cells are exactly the parts
/// of the rest of the line between its align points, in order, each without
/// the spaces that start or end it. Every other item stays in its cell, in
/// order, a space between two of them too.
pub proof fn lemma_cells_are_the_parts_between_align_points<N>(line: Seq<MathItem<N>>)
    ensures
        ({
            let k = lead_len(line) as int;
            line_rows(line) == comment_rows(line.take(k)).push(
                RowShape::Cells(
                    split_at_aligns(line.skip(k)).map_values(|c: Seq<MathItem<N>>| strip_spaces(c)),
                ),
            )
        }),
{
    lemma_line_scan_parts(line);
    let k = lead_len(line) as int;
    let parts = split_at_aligns(line.skip(k));
    lemma_trim_drops_trailing(drop_leading_spaces(parts.last()));
    assert(parts.map_values(|c: Seq<MathItem<N>>| strip_spaces(c)) =~= parts.drop_last().map_values(
        |c: Seq<MathItem<N>>| strip_spaces(c),
    ).push(strip_spaces(parts.last())));
}

} // verus!
