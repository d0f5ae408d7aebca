//! Laying out rows of cells as an aligned grid: the columns of every row line
//! up at their `&` separators, each column as wide as its widest cell.
use vstd::prelude::*;

use crate::text::{display_width, has_linebreak, has_linebreak_spec, lines_of, split_lines, str_display_width};

verus! {

/// A row before measuring: the rendered text of each of its cells, or a row
/// that takes no part in the alignment (a line comment), carried through as it is.
pub enum Row<F> {
    Cells(Vec<String>),
    Free(F),
}

/// A measured cell: its text and its width in columns, where the width also
/// counts the room for the spaces around the separators that touch it.
pub enum MeasuredCell {
    Empty,
    /// The text and its width.
    SingleLine(String, usize),
    /// The lines with their widths.
    MultiLine(Vec<(String, usize)>),
}

/// A measured row: measured cells, or a row carried through as it is.
pub enum MeasuredRow<F> {
    Cells(Vec<MeasuredCell>),
    Free(F),
}

/// A fully measured grid of rows and column widths.
pub struct MeasuredAligned<F> {
    rows: Vec<MeasuredRow<F>>,
    col_widths: Vec<usize>,
}

/// A raw row before rendering: the documents of its cells, or a comment.
pub enum NodeRow<D> {
    Cells(Vec<D>),
    Comment(D),
}

impl<D> NodeRow<D> {
    /// The number of cells; none for a comment.
    pub fn len(&self) -> (res: usize)
        ensures
            res == match self {
                NodeRow::Cells(items) => items@.len(),
                NodeRow::Comment(_) => 0,
            },
    {
        match self {
            NodeRow::Cells(items) => items.len(),
            NodeRow::Comment(_) => 0,
        }
    }
}

/// Measures rows of cells into a grid.
pub struct AlignedStylist {}

/// The text that separates rows of an aligned grid.
pub struct AlignedStyle {
    pub row_sep: &'static str,
}

/// One piece of a printed row.
pub enum Piece {
    /// The text of a cell, or of one line of it.
    Text(String),
    /// As many spaces.
    Spaces(usize),
    /// The `&` that separates two cells.
    AlignMark,
    /// The end of a row in a grid of several rows: ` \` where `true`, a single space where `false`.
    LineEnd(bool),
    /// A line break that keeps the indentation of the surrounding block.
    Newline,
}

/// A printed row: its pieces, or the carried row, after which a line break follows.
pub enum PrintedRow<F> {
    Free(F),
    Cells(Vec<Piece>),
}

// ---------------------------------------------------------------------------
// Sums and maxima

/// The largest of the numbers, 0 for none.
pub open spec fn seq_max(s: Seq<usize>) -> usize
    decreases s.len(),
{
    if s.len() == 0 {
        0
    } else {
        let m = seq_max(s.drop_last());
        if s.last() > m {
            s.last()
        } else {
            m
        }
    }
}

/// The sum of the first `j` numbers.
pub open spec fn prefix_sum(s: Seq<usize>, j: int) -> int
    decreases j,
{
    if j <= 0 || s.len() == 0 {
        0
    } else if j > s.len() {
        prefix_sum(s, s.len() as int)
    } else {
        prefix_sum(s, j - 1) + s[j - 1]
    }
}

/// The width of a grid with these column widths: the columns and one
/// separator for each column.
pub open spec fn grid_width(col_widths: Seq<usize>) -> int {
    prefix_sum(col_widths, col_widths.len() as int) + col_widths.len()
}

proof fn lemma_seq_max_bound(s: Seq<usize>, k: int)
    requires
        0 <= k < s.len(),
    ensures
        s[k] <= seq_max(s),
    decreases s.len(),
{
    if k < s.len() - 1 {
        lemma_seq_max_bound(s.drop_last(), k);
    }
}

proof fn lemma_prefix_sum_mono(s: Seq<usize>, a: int, b: int)
    requires
        0 <= a <= b <= s.len(),
    ensures
        0 <= prefix_sum(s, a) <= prefix_sum(s, b),
    decreases b,
{
    if b > a {
        lemma_prefix_sum_mono(s, a, b - 1);
    } else if a > 0 {
        lemma_prefix_sum_mono(s, 0, a - 1);
    }
}

proof fn lemma_prefix_sum_pointwise(s: Seq<usize>, t: Seq<usize>, n: int)
    requires
        s.len() == t.len(),
        0 <= n <= s.len(),
        forall|k: int| 0 <= k < s.len() ==> s[k] <= t[k],
    ensures
        prefix_sum(s, n) <= prefix_sum(t, n),
    decreases n,
{
    if n > 0 {
        lemma_prefix_sum_pointwise(s, t, n - 1);
    }
}

proof fn lemma_prefix_sum_update(s: Seq<usize>, j: int, v: usize, n: int)
    requires
        0 <= j < s.len(),
        0 <= n <= s.len(),
    ensures
        prefix_sum(s.update(j, v), n) == prefix_sum(s, n) + (if j < n { v - s[j] } else { 0 }),
    decreases n,
{
    if n > 0 {
        lemma_prefix_sum_update(s, j, v, n - 1);
    }
}

// ---------------------------------------------------------------------------
// Measuring

impl MeasuredCell {
    /// The widest line of the cell.
    pub open spec fn spec_max_width(self) -> usize {
        match self {
            MeasuredCell::Empty => 0,
            MeasuredCell::SingleLine(_, w) => w,
            MeasuredCell::MultiLine(lines) => seq_max(lines@.map_values(|l: (String, usize)| l.1)),
        }
    }

    /// The width of the last line of the cell.
    pub open spec fn spec_width(self) -> usize {
        match self {
            MeasuredCell::Empty => 0,
            MeasuredCell::SingleLine(_, w) => w,
            MeasuredCell::MultiLine(lines) => if lines@.len() > 0 {
                lines@.last().1
            } else {
                0
            },
        }
    }

    /// Return the maximum display width of this cell.
    pub fn max_width(&self) -> (res: usize)
        ensures
            res == self.spec_max_width(),
    {
        match self {
            MeasuredCell::Empty => 0,
            MeasuredCell::SingleLine(_, width) => *width,
            MeasuredCell::MultiLine(lines) => {
                let mut m: usize = 0;
                let mut k: usize = 0;
                while k < lines.len()
                    invariant
                        k <= lines.len(),
                        m == seq_max(lines@.map_values(|l: (String, usize)| l.1).take(k as int)),
                    decreases lines.len() - k,
                {
                    let ghost ws = lines@.map_values(|l: (String, usize)| l.1);
                    assert(ws.take(k + 1).drop_last() =~= ws.take(k as int));
                    if lines[k].1 > m {
                        m = lines[k].1;
                    }
                    k = k + 1;
                }
                assert(lines@.map_values(|l: (String, usize)| l.1).take(lines.len() as int)
                    =~= lines@.map_values(|l: (String, usize)| l.1));
                m
            },
        }
    }

    /// Return the width of the last line in this cell.
    pub fn width(&self) -> (res: usize)
        ensures
            res == self.spec_width(),
    {
        match self {
            MeasuredCell::Empty => 0,
            MeasuredCell::SingleLine(_, width) => *width,
            MeasuredCell::MultiLine(lines) => if lines.len() > 0 {
                lines[lines.len() - 1].1
            } else {
                0
            },
        }
    }
}

/// The room a cell of column `j` keeps for the spaces around its separators:
/// one in the first and the last column, two in between.
pub open spec fn allowance(j: int, col_num: int) -> int {
    if j == 0 || j + 1 == col_num {
        1
    } else {
        2
    }
}

/// The number of cells of a row, 0 for a carried row.
pub open spec fn row_len<F>(row: Row<F>) -> nat {
    match row {
        Row::Cells(cells) => cells@.len(),
        Row::Free(_) => 0,
    }
}

/// The number of columns: the most cells of any row.
pub open spec fn col_count<F>(rows: Seq<Row<F>>) -> nat
    decreases rows.len(),
{
    if rows.len() == 0 {
        0
    } else {
        let m = col_count(rows.drop_last());
        if row_len(rows.last()) > m {
            row_len(rows.last())
        } else {
            m
        }
    }
}

/// The lines that measuring takes from a cell's text: all its lines where it
/// holds a line feed, else the whole text.
pub open spec fn cell_lines(text: Seq<char>) -> Seq<Seq<char>> {
    if has_linebreak_spec(text) {
        lines_of(text)
    } else {
        seq![text]
    }
}

/// Every line of every cell that is not empty is narrow enough that its
/// width, with the room for separators added, fits in a `usize`.
pub open spec fn widths_fit<F>(rows: Seq<Row<F>>) -> bool {
    forall|i: int, j: int, k: int|
        0 <= i < rows.len() && rows[i] is Cells && 0 <= j < rows[i]->Cells_0@.len()
            && rows[i]->Cells_0@[j]@.len() > 0 && 0 <= k < cell_lines(
            rows[i]->Cells_0@[j]@,
        ).len() ==> display_width(#[trigger] cell_lines(rows[i]->Cells_0@[j]@)[k]) + 2
            <= usize::MAX
}

/// The width of the last line of a cell in column `j`, as measured.
pub open spec fn measured_width(text: Seq<char>, j: int, col_num: int) -> int {
    if text.len() == 0 {
        0
    } else {
        display_width(cell_lines(text).last()) + allowance(j, col_num)
    }
}

/// The measured width of column `j` in one row.
pub open spec fn cell_width_in<F>(row: Row<F>, j: int, col_num: int) -> int {
    match row {
        Row::Cells(cells) => if 0 <= j < cells@.len() {
            measured_width(cells@[j]@, j, col_num)
        } else {
            0
        },
        Row::Free(_) => 0,
    }
}

/// The width of column `j` over the first `n` rows: its widest measured cell.
pub open spec fn col_width_upto<F>(rows: Seq<Row<F>>, j: int, n: int) -> int
    decreases n,
{
    if n <= 0 {
        0
    } else {
        let m = col_width_upto(rows, j, n - 1);
        let w = cell_width_in(rows[n - 1], j, col_count(rows) as int);
        if w > m {
            w
        } else {
            m
        }
    }
}

/// The widths of the columns of the grid.
pub open spec fn col_widths_of<F>(rows: Seq<Row<F>>) -> Seq<usize> {
    Seq::new(col_count(rows), |j: int| col_width_upto(rows, j, rows.len() as int) as usize)
}

/// The width of the whole grid: the columns and a separator for each.
pub open spec fn measured_grid_width<F>(rows: Seq<Row<F>>) -> int {
    grid_width(col_widths_of(rows))
}

/// `cell` is the measure of the text `text` in column `j` of `col_num` columns.
pub open spec fn measured_as(cell: MeasuredCell, text: Seq<char>, j: int, col_num: int) -> bool {
    match cell {
        MeasuredCell::Empty => text.len() == 0,
        MeasuredCell::SingleLine(t, w) => {
            &&& text.len() > 0
            &&& !has_linebreak_spec(text)
            &&& t@ == text
            &&& w == display_width(text) + allowance(j, col_num)
        },
        MeasuredCell::MultiLine(lines) => {
            &&& text.len() > 0
            &&& has_linebreak_spec(text)
            &&& lines@.len() == lines_of(text).len()
            &&& forall|k: int|
                0 <= k < lines@.len() ==> {
                    &&& (#[trigger] lines@[k]).0@ == lines_of(text)[k]
                    &&& lines@[k].1 == display_width(lines_of(text)[k]) + allowance(j, col_num)
                }
        },
    }
}

/// `m` is the measure of the row `row` in a grid of `col_num` columns.
pub open spec fn row_measured_as<F>(m: MeasuredRow<F>, row: Row<F>, col_num: int) -> bool {
    match row {
        Row::Free(f) => m == MeasuredRow::Free(f),
        Row::Cells(cells) => m matches MeasuredRow::Cells(mc) && mc@.len() == cells@.len() && forall|
            j: int,
        |
            0 <= j < cells@.len() ==> measured_as(#[trigger] mc@[j], cells@[j]@, j, col_num),
    }
}

/// A cell of column `j` fits its column: its widths are measured from its
/// text, and its last line is no wider than the column.
pub open spec fn cell_fits(cell: MeasuredCell, j: int, col_widths: Seq<usize>) -> bool {
    let a = allowance(j, col_widths.len() as int);
    match cell {
        MeasuredCell::Empty => true,
        MeasuredCell::SingleLine(t, w) => w == display_width(t@) + a && w <= col_widths[j],
        MeasuredCell::MultiLine(lines) => {
            &&& lines@.len() > 0
            &&& forall|k: int|
                0 <= k < lines@.len() ==> (#[trigger] lines@[k]).1 == display_width(lines@[k].0@)
                    + a
            &&& lines@.last().1 <= col_widths[j]
        },
    }
}

/// A measured grid whose rows fit their columns and whose total width fits in a `usize`.
pub open spec fn grid_fits<F>(rows: Seq<MeasuredRow<F>>, col_widths: Seq<usize>) -> bool {
    &&& grid_width(col_widths) <= usize::MAX
    &&& forall|i: int|
        0 <= i < rows.len() && #[trigger] rows[i] is Cells ==> {
            &&& rows[i]->Cells_0@.len() <= col_widths.len()
            &&& forall|j: int|
                0 <= j < rows[i]->Cells_0@.len() ==> cell_fits(
                    #[trigger] rows[i]->Cells_0@[j],
                    j,
                    col_widths,
                )
        }
}

impl<F> MeasuredAligned<F> {
    #[verifier::type_invariant]
    spec fn inv(self) -> bool {
        grid_fits(self.rows@, self.col_widths@)
    }

    /// The measured rows.
    pub closed spec fn rows(self) -> Seq<MeasuredRow<F>> {
        self.rows@
    }

    /// The widths of the columns.
    pub closed spec fn col_widths(self) -> Seq<usize> {
        self.col_widths@
    }
}


/// Whether a grid fits depends only on its width: rows that fit a width fit
/// every wider one, and rows too wide for a width are too wide for every
/// narrower one.
pub proof fn lemma_fits_wider<F>(rows: Seq<Row<F>>, narrow: int, wide: int)
    requires
        narrow <= wide,
    ensures
        measured_grid_width(rows) <= narrow ==> measured_grid_width(rows) <= wide,
        measured_grid_width(rows) > wide ==> measured_grid_width(rows) > narrow,
{
}

proof fn lemma_col_count_bound<F>(rows: Seq<Row<F>>, i: int)
    requires
        0 <= i < rows.len(),
    ensures
        row_len(rows[i]) <= col_count(rows),
    decreases rows.len(),
{
    if i < rows.len() - 1 {
        lemma_col_count_bound(rows.drop_last(), i);
        assert(rows.drop_last()[i] == rows[i]);
    }
}

proof fn lemma_col_count_take<F>(rows: Seq<Row<F>>, i: int)
    requires
        0 <= i < rows.len(),
    ensures
        col_count(rows.take(i + 1)) == if row_len(rows[i]) > col_count(rows.take(i)) {
            row_len(rows[i])
        } else {
            col_count(rows.take(i))
        },
{
    assert(rows.take(i + 1).drop_last() =~= rows.take(i));
}

proof fn lemma_col_width_upto_range<F>(rows: Seq<Row<F>>, j: int, n: int)
    requires
        widths_fit(rows),
        0 <= n <= rows.len(),
    ensures
        0 <= col_width_upto(rows, j, n) <= usize::MAX,
    decreases n,
{
    if n > 0 {
        lemma_col_width_upto_range(rows, j, n - 1);
        let row = rows[n - 1];
        if let Row::Cells(cells) = row {
            if 0 <= j < cells@.len() {
                let text = cells@[j]@;
                if text.len() > 0 {
                    if has_linebreak_spec(text) {
                        crate::text::lemma_lines_nonempty(text);
                    }
                    let k = cell_lines(text).len() - 1;
                    assert(display_width(cell_lines(rows[n - 1]->Cells_0@[j]@)[k]) + 2 <= usize::MAX);
                }
            }
        }
    }
}

proof fn lemma_col_width_upto_mono<F>(rows: Seq<Row<F>>, j: int, a: int, b: int)
    requires
        0 <= a <= b <= rows.len(),
    ensures
        col_width_upto(rows, j, a) <= col_width_upto(rows, j, b),
    decreases b,
{
    if a < b {
        lemma_col_width_upto_mono(rows, j, a, b - 1);
    }
}

/// The measure of a cell's text in column `j` of `col_num` columns.
fn measure_cell(buf: String, j: usize, col_num: usize) -> (cell: MeasuredCell)
    requires
        j < col_num,
        buf@.len() > 0 ==> forall|k: int|
            0 <= k < cell_lines(buf@).len() ==> display_width(#[trigger] cell_lines(buf@)[k]) + 2
                <= usize::MAX,
    ensures
        measured_as(cell, buf@, j as int, col_num as int),
        cell.spec_width() == measured_width(buf@, j as int, col_num as int),
        cell_fits(cell, j as int, Seq::new(col_num as nat, |k: int| usize::MAX)),
{
    let a: usize = if j == 0 || j + 1 == col_num {
        1
    } else {
        2
    };
    if buf.as_str().is_empty() {
        MeasuredCell::Empty
    } else if has_linebreak(buf.as_str()) {
        assert(buf@.len() > 0);
        let lines = split_lines(buf.as_str());
        let ghost ls = lines_of(buf@);
        proof {
            crate::text::lemma_lines_nonempty(buf@);
            assert(lines@.len() == ls.len());
        }
        let mut measured: Vec<(String, usize)> = Vec::new();
        for line in it: lines.into_iter()
            invariant
                it.seq() == lines@,
                lines@.map_values(|l: String| l@) == ls,
                ls == cell_lines(buf@),
                measured@.len() == it.index(),
                forall|k: int|
                    0 <= k < ls.len() ==> display_width(#[trigger] cell_lines(buf@)[k]) + 2
                        <= usize::MAX,
                a == allowance(j as int, col_num as int),
                forall|k: int|
                    0 <= k < measured@.len() ==> {
                        &&& (#[trigger] measured@[k]).0@ == ls[k]
                        &&& measured@[k].1 == display_width(ls[k]) + a
                    },
        {
            let ghost k = it.index();
            assert(line@ == lines@.map_values(|l: String| l@)[k]);
            assert(display_width(cell_lines(buf@)[k]) + 2 <= usize::MAX);
            let w = str_display_width(line.as_str());
            measured.push((line, w + a));
        }
        MeasuredCell::MultiLine(measured)
    } else {
        proof {
            assert(cell_lines(buf@)[0] == buf@);
        }
        let w = str_display_width(buf.as_str());
        MeasuredCell::SingleLine(buf, w + a)
    }
}

impl AlignedStylist {
    pub fn new() -> (res: Self) {
        AlignedStylist {  }
    }

    /// Build aligned rows by measuring each cell and tracking column widths.
    ///
    /// Gives `None` when the grid would be wider than `max_width`; else the
    /// measured rows with the width of each column, that of its widest cell.
    pub fn render<F>(self, aligned_elems: Vec<Row<F>>, max_width: usize) -> (res: Option<
        MeasuredAligned<F>,
    >)
        requires
            widths_fit(aligned_elems@),
        ensures
            res is None <==> measured_grid_width(aligned_elems@) > max_width,
            res matches Some(m) ==> {
                &&& m.col_widths() == col_widths_of(aligned_elems@)
                &&& m.rows().len() == aligned_elems@.len()
                &&& forall|i: int|
                    0 <= i < aligned_elems@.len() ==> row_measured_as(
                        #[trigger] m.rows()[i],
                        aligned_elems@[i],
                        col_count(aligned_elems@) as int,
                    )
                &&& grid_fits(m.rows(), m.col_widths())
                &&& grid_width(m.col_widths()) <= max_width
            },
    {
        let ghost rows = aligned_elems@;
        // Determine how many columns we need
        let mut col_num: usize = 0;
        let mut i: usize = 0;
        while i < aligned_elems.len()
            invariant
                rows == aligned_elems@,
                i <= aligned_elems.len(),
                col_num == col_count(rows.take(i as int)),
            decreases aligned_elems.len() - i,
        {
            proof {
                lemma_col_count_take(rows, i as int);
            }
            let l = match &aligned_elems[i] {
                Row::Cells(cells) => cells.len(),
                Row::Free(_) => 0,
            };
            if l > col_num {
                col_num = l;
            }
            i = i + 1;
        }
        proof {
            assert(rows.take(rows.len() as int) =~= rows);
        }
        let ghost final_widths = col_widths_of(rows);
        proof {
            assert forall|k: int| 0 <= k < col_num implies 0 <= #[trigger] col_width_upto(
                rows,
                k,
                rows.len() as int,
            ) <= usize::MAX by {
                lemma_col_width_upto_range(rows, k, rows.len() as int);
            }
            lemma_prefix_sum_mono(final_widths, 0, col_num as int);
        }
        // Early-exit if even the empty grid would exceed max width
        if col_num > max_width {
            return None;
        }
        let mut col_widths: Vec<usize> = Vec::new();
        let mut k: usize = 0;
        while k < col_num
            invariant
                k <= col_num,
                col_widths@.len() == k,
                forall|m: int| 0 <= m < k ==> col_widths@[m] == 0,
            decreases col_num - k,
        {
            col_widths.push(0);
            k = k + 1;
        }
        proof {
            assert forall|m: int| 0 <= m <= col_num implies prefix_sum(col_widths@, m) == 0 by {
                lemma_prefix_sum_zero(col_widths@, m);
            }
        }
        let mut grid_width: usize = col_num;
        let mut out_rows: Vec<MeasuredRow<F>> = Vec::new();
        for row in it: aligned_elems.into_iter()
            invariant
                it.seq() == rows,
                rows == aligned_elems@,
                col_num == col_count(rows),
                widths_fit(rows),
                final_widths == col_widths_of(rows),
                col_widths@.len() == col_num,
                forall|m: int|
                    0 <= m < col_num ==> #[trigger] col_widths@[m] == col_width_upto(
                        rows,
                        m,
                        it.index() as int,
                    ),
                grid_width == col_num + prefix_sum(col_widths@, col_num as int),
                grid_width <= max_width,
                out_rows@.len() == it.index(),
                forall|r: int|
                    0 <= r < it.index() ==> row_measured_as(
                        #[trigger] out_rows@[r],
                        rows[r],
                        col_num as int,
                    ),
                grid_fits(out_rows@, col_widths@),
        {
            let ghost i = it.index() as int;
            let ghost before = col_widths@;
            match row {
                Row::Free(f) => {
                    out_rows.push(MeasuredRow::Free(f));
                    proof {
                        assert forall|m: int| 0 <= m < col_num implies #[trigger] col_widths@[m]
                            == col_width_upto(rows, m, i + 1) by {
                            assert(cell_width_in(rows[i], m, col_num as int) == 0);
                        }
                        assert forall|r: int|
                            0 <= r < out_rows@.len() && #[trigger] out_rows@[r] is Cells implies {
                            &&& out_rows@[r]->Cells_0@.len() <= col_widths@.len()
                            &&& forall|j: int|
                                0 <= j < out_rows@[r]->Cells_0@.len() ==> cell_fits(
                                    #[trigger] out_rows@[r]->Cells_0@[j],
                                    j,
                                    col_widths@,
                                )
                        } by {
                            assert(r < i);
                        }
                    }
                },
                Row::Cells(cells) => {
                    let ghost cs = cells@;
                    proof {
                        lemma_col_count_bound(rows, i);
                        assert(rows[i] == Row::<F>::Cells(cells));
                    }
                    let mut rendered: Vec<MeasuredCell> = Vec::new();
                    let mut j: usize = 0;
                    for buf in it2: cells.into_iter()
                        invariant
                            it2.seq() == cs,
                            rows == aligned_elems@,
                            j == it2.index(),
                            rows[i] is Cells,
                            rows[i]->Cells_0@ == cs,
                            cs.len() <= col_num,
                            0 <= i < rows.len(),
                            col_num == col_count(rows),
                            widths_fit(rows),
                            col_widths@.len() == col_num,
                            forall|m: int|
                                0 <= m < col_num ==> #[trigger] col_widths@[m] == if m < j {
                                    col_width_upto(rows, m, i + 1)
                                } else {
                                    col_width_upto(rows, m, i)
                                },
                            grid_width == col_num + prefix_sum(col_widths@, col_num as int),
                            grid_width <= max_width,
                            final_widths == col_widths_of(rows),
                            rendered@.len() == j,
                            forall|m: int|
                                0 <= m < j ==> measured_as(
                                    #[trigger] rendered@[m],
                                    cs[m]@,
                                    m,
                                    col_num as int,
                                ),
                            forall|m: int|
                                0 <= m < j ==> cell_fits(#[trigger] rendered@[m], m, col_widths@),
                            grid_fits(out_rows@, col_widths@),
                            out_rows@.len() == i,
                    {
                        proof {
                            assert(buf == cs[j as int]);
                            assert forall|k: int|
                                buf@.len() > 0 && 0 <= k < cell_lines(buf@).len() implies display_width(
                                #[trigger] cell_lines(buf@)[k],
                            ) + 2 <= usize::MAX by {
                                assert(display_width(cell_lines(rows[i]->Cells_0@[j as int]@)[k])
                                    + 2 <= usize::MAX);
                            }
                        }
                        let cell = measure_cell(buf, j, col_num);
                        let cw = cell.width();
                        let ghost old_widths = col_widths@;
                        proof {
                            assert(cell_width_in(rows[i], j as int, col_num as int) == cw);
                            lemma_col_width_upto_range(rows, j as int, i);
                        }
                        if cw > col_widths[j] {
                            let diff = cw - col_widths[j];
                            if diff > max_width - grid_width {
                                proof {
                                    lemma_bail_out(rows, old_widths, j as int, cw, i, max_width as int);
                                }
                                return None;
                            }
                            grid_width = grid_width + diff;
                            col_widths.set(j, cw);
                            proof {
                                lemma_prefix_sum_update(old_widths, j as int, cw, col_num as int);
                            }
                        }
                        rendered.push(cell);
                        proof {
                            assert forall|m: int|
                                0 <= m < rendered@.len() implies cell_fits(
                                #[trigger] rendered@[m],
                                m,
                                col_widths@,
                            ) by {
                                if m < j {
                                    assert(cell_fits(rendered@[m], m, old_widths));
                                }
                            }
                            assert forall|r: int|
                                0 <= r < out_rows@.len() && #[trigger] out_rows@[r] is Cells implies {
                                &&& out_rows@[r]->Cells_0@.len() <= col_widths@.len()
                                &&& forall|jj: int|
                                    0 <= jj < out_rows@[r]->Cells_0@.len() ==> cell_fits(
                                        #[trigger] out_rows@[r]->Cells_0@[jj],
                                        jj,
                                        col_widths@,
                                    )
                            } by {
                                assert forall|jj: int|
                                    0 <= jj < out_rows@[r]->Cells_0@.len() implies cell_fits(
                                    #[trigger] out_rows@[r]->Cells_0@[jj],
                                    jj,
                                    col_widths@,
                                ) by {
                                    assert(cell_fits(out_rows@[r]->Cells_0@[jj], jj, old_widths));
                                }
                            }
                        }
                        j = j + 1;
                    }
                    proof {
                        assert forall|m: int| 0 <= m < col_num implies #[trigger] col_widths@[m]
                            == col_width_upto(rows, m, i + 1) by {
                            if m >= j {
                                assert(cell_width_in(rows[i], m, col_num as int) == 0);
                            }
                        }
                    }
                    let ghost prev_rows = out_rows@;
                    out_rows.push(MeasuredRow::Cells(rendered));
                    proof {
                        assert forall|r: int|
                            0 <= r < out_rows@.len() && #[trigger] out_rows@[r] is Cells implies {
                            &&& out_rows@[r]->Cells_0@.len() <= col_widths@.len()
                            &&& forall|jj: int|
                                0 <= jj < out_rows@[r]->Cells_0@.len() ==> cell_fits(
                                    #[trigger] out_rows@[r]->Cells_0@[jj],
                                    jj,
                                    col_widths@,
                                )
                        } by {
                            if r < i {
                                assert(out_rows@[r] == prev_rows[r]);
                            }
                        }
                    }
                },
            }
        }
        proof {
            assert(col_widths@ =~= final_widths);
        }
        Some(MeasuredAligned { rows: out_rows, col_widths })
    }
}

proof fn lemma_prefix_sum_zero(s: Seq<usize>, n: int)
    requires
        0 <= n <= s.len(),
        forall|m: int| 0 <= m < s.len() ==> s[m] == 0,
    ensures
        prefix_sum(s, n) == 0,
    decreases n,
{
    if n > 0 {
        lemma_prefix_sum_zero(s, n - 1);
    }
}

/// When the widths measured so far, with column `j` widened to `w`, already make
/// the grid too wide, the final grid is too wide.
proof fn lemma_bail_out<F>(
    rows: Seq<Row<F>>,
    cur: Seq<usize>,
    j: int,
    w: usize,
    i: int,
    max_width: int,
)
    requires
        0 <= i < rows.len(),
        cur.len() == col_count(rows),
        0 <= j < cur.len(),
        widths_fit(rows),
        forall|m: int| 0 <= m < cur.len() ==> cur[m] <= col_width_upto(rows, m, i + 1),
        w == col_width_upto(rows, j, i + 1),
        cur[j] < w,
        col_count(rows) + prefix_sum(cur, cur.len() as int) + (w - cur[j]) > max_width,
    ensures
        measured_grid_width(rows) > max_width,
{
    let fin = col_widths_of(rows);
    let upd = cur.update(j, w);
    lemma_prefix_sum_update(cur, j, w, cur.len() as int);
    assert forall|m: int| 0 <= m < upd.len() implies upd[m] <= fin[m] by {
        lemma_col_width_upto_mono(rows, m, i + 1, rows.len() as int);
        lemma_col_width_upto_range(rows, m, rows.len() as int);
    }
    lemma_prefix_sum_pointwise(upd, fin, upd.len() as int);
}


// ---------------------------------------------------------------------------
// Printing

/// Column `j` of `ncols` is left-aligned: the odd columns, and the only one.
pub open spec fn left_aligned(j: int, ncols: int) -> bool {
    j % 2 == 1 || ncols == 1
}

/// The lines of a cell, one below the other, each after the first indented by `indent`.
pub open spec fn line_pieces(lines: Seq<(String, usize)>, indent: usize) -> Seq<Piece>
    decreases lines.len(),
{
    if lines.len() == 0 {
        seq![]
    } else if lines.len() == 1 {
        seq![Piece::Text(lines[0].0)]
    } else {
        line_pieces(lines.drop_last(), indent) + seq![
            Piece::Newline,
            Piece::Spaces(indent),
            Piece::Text(lines.last().0),
        ]
    }
}

/// The spaces before a cell of several lines: none when left-aligned, else
/// what the column has beyond the cell's widest line.
pub open spec fn multi_line_padding_left(cell_max: usize, col_width: usize, left: bool) -> usize {
    if left {
        0
    } else if col_width >= cell_max {
        (col_width - cell_max) as usize
    } else {
        0
    }
}

/// The spaces before a cell of several lines in column `j`.
pub open spec fn cell_padding_left(cell: MeasuredCell, j: int, cw: Seq<usize>) -> usize {
    multi_line_padding_left(cell.spec_max_width(), cw[j], left_aligned(j, cw.len() as int))
}

/// The column at which the lines of a cell of several lines in column `j`
/// start: that of the column, past its separator, and the padding before it.
pub open spec fn cell_indent(cell: MeasuredCell, j: int, cw: Seq<usize>) -> int {
    prefix_sum(cw, j) + j + cell_padding_left(cell, j, cw) + if j > 0 {
        1int
    } else {
        0int
    }
}

/// A cell of column `j` padded with spaces to the width of its column.
pub open spec fn padded_cell(cell: MeasuredCell, j: int, cw: Seq<usize>) -> Seq<Piece> {
    let cwj = cw[j];
    let left = left_aligned(j, cw.len() as int);
    match cell {
        MeasuredCell::Empty => seq![Piece::Spaces(cwj)],
        MeasuredCell::SingleLine(t, w) => if left {
            seq![Piece::Text(t), Piece::Spaces((cwj - w) as usize)]
        } else {
            seq![Piece::Spaces((cwj - w) as usize), Piece::Text(t)]
        },
        MeasuredCell::MultiLine(lines) => {
            let pl = cell_padding_left(cell, j, cw);
            let trailing = cwj - pl - lines@.last().1;
            seq![Piece::Spaces(pl)] + line_pieces(lines@, cell_indent(cell, j, cw) as usize)
                + seq![Piece::Spaces(trailing as usize)]
        },
    }
}

/// Before the cell of column `j > 0`: the `&`, with a space on each side
/// that touches a cell which is not empty.
pub open spec fn separator(cells: Seq<MeasuredCell>, j: int) -> Seq<Piece> {
    if j == 0 {
        seq![]
    } else {
        (if !(cells[j - 1] is Empty) {
            seq![Piece::Spaces(1)]
        } else {
            seq![]
        }) + seq![Piece::AlignMark] + (if !(cells[j] is Empty) {
            seq![Piece::Spaces(1)]
        } else {
            seq![]
        })
    }
}

/// The first `n` cells of a row, each after its separator.
pub open spec fn cells_pieces(cells: Seq<MeasuredCell>, cw: Seq<usize>, n: int) -> Seq<Piece>
    decreases n,
{
    if n <= 0 {
        seq![]
    } else {
        cells_pieces(cells, cw, n - 1) + separator(cells, n - 1) + padded_cell(
            cells[n - 1],
            n - 1,
            cw,
        )
    }
}

/// The spaces that fill a row with fewer cells than the grid has columns.
pub open spec fn row_fill(cells: Seq<MeasuredCell>, cw: Seq<usize>) -> Seq<Piece> {
    let nc = cells.len() as int;
    if nc < cw.len() {
        seq![Piece::Spaces((grid_width(cw) - nc - prefix_sum(cw, nc)) as usize)] + if !(nc > 0
            && cells.last() is Empty) {
            seq![Piece::Spaces(1)]
        } else {
            seq![]
        }
    } else {
        seq![]
    }
}

/// The cells of a row and the spaces that fill it.
pub open spec fn row_body(cells: Seq<MeasuredCell>, cw: Seq<usize>) -> Seq<Piece> {
    cells_pieces(cells, cw, cells.len() as int) + row_fill(cells, cw)
}

/// The end of row `i` of `n`: ` \` or a space where the grid has several
/// rows, and a line break after each row but the last.
pub open spec fn row_end(i: int, n: int, trailing: bool) -> Seq<Piece> {
    (if n > 1 {
        seq![Piece::LineEnd(trailing || i + 1 != n)]
    } else {
        seq![]
    }) + (if i + 1 != n {
        seq![Piece::Newline]
    } else {
        seq![]
    })
}

/// `printed` is row `i` of `n` of a grid with column widths `cw`, printed.
pub open spec fn printed_as<F>(
    printed: PrintedRow<F>,
    row: MeasuredRow<F>,
    i: int,
    n: int,
    cw: Seq<usize>,
    trailing: bool,
) -> bool {
    match row {
        MeasuredRow::Free(f) => printed == PrintedRow::Free(f),
        MeasuredRow::Cells(cells) => printed is Cells && printed->Cells_0@ == row_body(cells@, cw)
            + row_end(i, n, trailing),
    }
}

proof fn lemma_line_pieces_step(lines: Seq<(String, usize)>, indent: usize, k: int)
    requires
        0 <= k < lines.len(),
    ensures
        line_pieces(lines.take(k + 1), indent) == line_pieces(lines.take(k), indent) + if k == 0 {
            seq![Piece::Text(lines[k].0)]
        } else {
            seq![Piece::Newline, Piece::Spaces(indent), Piece::Text(lines[k].0)]
        },
{
    assert(lines.take(k + 1).drop_last() =~= lines.take(k));
    if k == 0 {
        assert(line_pieces(lines.take(0), indent) =~= seq![]);
        assert(seq![Piece::Text(lines[k].0)] =~= seq![] + seq![Piece::Text(lines[k].0)]);
    }
}

/// Push a cell of column `j`, padded to the width of its column.
fn push_padded_cell(
    pieces: &mut Vec<Piece>,
    cell: MeasuredCell,
    j: usize,
    cw: &Vec<usize>,
    sums: &Vec<usize>,
)
    requires
        j < cw@.len(),
        grid_width(cw@) <= usize::MAX,
        sums@.len() == cw@.len() + 1,
        forall|k: int| 0 <= k <= cw@.len() ==> #[trigger] sums@[k] == prefix_sum(cw@, k),
        cell_fits(cell, j as int, cw@),
    ensures
        final(pieces)@ == old(pieces)@ + padded_cell(cell, j as int, cw@),
{
    let ghost mid = pieces@;
    let ghost the_cell = cell;
    let num_cols = cw.len();
    proof {
        lemma_prefix_sum_mono(cw@, j as int + 1, cw@.len() as int);
    }
    let col_width = cw[j];
    let left = j % 2 == 1 || num_cols == 1;
    let cell_width = cell.max_width();
    match cell {
        MeasuredCell::Empty => {
            pieces.push(Piece::Spaces(col_width));
        },
        MeasuredCell::SingleLine(line, width) => {
            if left {
                pieces.push(Piece::Text(line));
                pieces.push(Piece::Spaces(col_width - width));
            } else {
                pieces.push(Piece::Spaces(col_width - width));
                pieces.push(Piece::Text(line));
            }
        },
        MeasuredCell::MultiLine(lines) => {
            let ghost ls = lines@;
            let padding_left = if left {
                0
            } else if col_width >= cell_width {
                col_width - cell_width
            } else {
                0
            };
            let last_width = lines[lines.len() - 1].1;
            proof {
                if !left && col_width >= cell_width {
                    lemma_seq_max_bound(
                        ls.map_values(|l: (String, usize)| l.1),
                        ls.len() - 1,
                    );
                }
            }
            let mut indent = sums[j] + j + padding_left;
            if j > 0 {
                indent = indent + 1;
            }
            let trailing_padding = col_width - padding_left - last_width;
            pieces.push(Piece::Spaces(padding_left));
            let ghost base = pieces@;
            let n_lines = lines.len();
            let mut k: usize = 0;
            for line in it2: lines.into_iter()
                invariant
                    it2.seq() == ls,
                    ls.len() == n_lines,
                    k == it2.index(),
                    pieces@ == base + line_pieces(ls.take(k as int), indent),
            {
                proof {
                    lemma_line_pieces_step(ls, indent, k as int);
                }
                if k > 0 {
                    pieces.push(Piece::Newline);
                    pieces.push(Piece::Spaces(indent));
                }
                pieces.push(Piece::Text(line.0));
                k = k + 1;
            }
            proof {
                assert(ls.take(ls.len() as int) =~= ls);
            }
            pieces.push(Piece::Spaces(trailing_padding));
        },
    }
    proof {
        assert(pieces@ =~= mid + padded_cell(the_cell, j as int, cw@));
    }
}

/// Print one row of cells.
fn print_cells_row(
    cells: Vec<MeasuredCell>,
    cw: &Vec<usize>,
    sums: &Vec<usize>,
    grid: usize,
    i: usize,
    num_rows: usize,
    add_trailing_linebreak: bool,
) -> (res: Vec<Piece>)
    requires
        grid_width(cw@) <= usize::MAX,
        grid == grid_width(cw@),
        sums@.len() == cw@.len() + 1,
        forall|k: int| 0 <= k <= cw@.len() ==> #[trigger] sums@[k] == prefix_sum(cw@, k),
        cells@.len() <= cw@.len(),
        forall|j: int| 0 <= j < cells@.len() ==> cell_fits(#[trigger] cells@[j], j, cw@),
        i < num_rows,
    ensures
        res@ == row_body(cells@, cw@) + row_end(i as int, num_rows as int, add_trailing_linebreak),
{
    let ghost cs = cells@;
    let num_cols = cw.len();
    let num_cells = cells.len();
    let mut pieces: Vec<Piece> = Vec::new();
    let mut is_prev_empty = false;
    let mut j: usize = 0;
    for cell in it: cells.into_iter()
        invariant
            it.seq() == cs,
            j == it.index(),
            cs.len() <= cw@.len(),
            num_cols == cw@.len(),
            grid_width(cw@) <= usize::MAX,
            sums@.len() == cw@.len() + 1,
            forall|k: int| 0 <= k <= cw@.len() ==> #[trigger] sums@[k] == prefix_sum(cw@, k),
            forall|jj: int| 0 <= jj < cs.len() ==> cell_fits(#[trigger] cs[jj], jj, cw@),
            pieces@ == cells_pieces(cs, cw@, j as int),
            is_prev_empty == (j > 0 && cs[j - 1] is Empty),
    {
        let ghost before = pieces@;
        let is_cur_empty = match &cell {
            MeasuredCell::Empty => true,
            _ => false,
        };
        if j > 0 {
            if !is_prev_empty {
                pieces.push(Piece::Spaces(1));
            }
            pieces.push(Piece::AlignMark);
            if !is_cur_empty {
                pieces.push(Piece::Spaces(1));
            }
        }
        proof {
            assert(cell == cs[j as int]);
            assert(pieces@ =~= before + separator(cs, j as int));
        }
        let ghost mid = pieces@;
        push_padded_cell(&mut pieces, cell, j, cw, sums);
        proof {
            assert(cs.take(j + 1).drop_last() =~= cs.take(j as int));
        }
        is_prev_empty = is_cur_empty;
        j = j + 1;
    }
    // If row has fewer cells than columns, add trailing spaces
    if num_cells < num_cols {
        proof {
            lemma_prefix_sum_mono(cw@, num_cells as int, num_cols as int);
        }
        let padding = grid - num_cells - sums[num_cells];
        pieces.push(Piece::Spaces(padding));
        if !is_prev_empty {
            pieces.push(Piece::Spaces(1));
        }
    }
    let ghost body = pieces@;
    proof {
        assert(body =~= row_body(cs, cw@));
    }
    // Append trailing backslashes and linebreaks when multiple rows
    if num_rows > 1 {
        pieces.push(Piece::LineEnd(add_trailing_linebreak || i + 1 != num_rows));
    }
    if i + 1 != num_rows {
        pieces.push(Piece::Newline);
    }
    proof {
        assert(pieces@ =~= body + row_end(i as int, num_rows as int, add_trailing_linebreak));
    }
    pieces
}

impl<F> MeasuredAligned<F> {
    /// Combine aligned cells together, inserting `&`, spaces, and linebreaks.
    pub fn print(self, add_trailing_linebreak: bool) -> (res: Vec<PrintedRow<F>>)
        ensures
            res@.len() == self.rows().len(),
            forall|i: int|
                0 <= i < res@.len() ==> printed_as(
                    #[trigger] res@[i],
                    self.rows()[i],
                    i,
                    self.rows().len() as int,
                    self.col_widths(),
                    add_trailing_linebreak,
                ),
    {
        proof {
            use_type_invariant(&self);
        }
        let ghost all_rows = self.rows@;
        let MeasuredAligned { rows, col_widths } = self;
        let num_rows = rows.len();
        let num_cols = col_widths.len();
        let mut sums: Vec<usize> = Vec::new();
        sums.push(0);
        let mut k: usize = 0;
        while k < num_cols
            invariant
                k <= num_cols,
                num_cols == col_widths@.len(),
                grid_width(col_widths@) <= usize::MAX,
                sums@.len() == k + 1,
                forall|m: int| 0 <= m <= k ==> #[trigger] sums@[m] == prefix_sum(col_widths@, m),
            decreases num_cols - k,
        {
            proof {
                lemma_prefix_sum_mono(col_widths@, k + 1, num_cols as int);
            }
            let next = sums[k] + col_widths[k];
            sums.push(next);
            k = k + 1;
        }
        let grid = sums[num_cols] + num_cols;
        let mut out: Vec<PrintedRow<F>> = Vec::new();
        let mut i: usize = 0;
        for row in it: rows.into_iter()
            invariant
                it.seq() == all_rows,
                i == it.index(),
                num_rows == all_rows.len(),
                num_cols == col_widths@.len(),
                grid == grid_width(col_widths@),
                grid_fits(all_rows, col_widths@),
                sums@.len() == num_cols + 1,
                forall|m: int| 0 <= m <= num_cols ==> #[trigger] sums@[m] == prefix_sum(col_widths@, m),
                out@.len() == i,
                forall|r: int|
                    0 <= r < i ==> printed_as(
                        #[trigger] out@[r],
                        all_rows[r],
                        r,
                        num_rows as int,
                        col_widths@,
                        add_trailing_linebreak,
                    ),
        {
            proof {
                assert(row == all_rows[i as int]);
            }
            match row {
                MeasuredRow::Free(free) => {
                    out.push(PrintedRow::Free(free));
                },
                MeasuredRow::Cells(cells) => {
                    let pieces = print_cells_row(
                        cells,
                        &col_widths,
                        &sums,
                        grid,
                        i,
                        num_rows,
                        add_trailing_linebreak,
                    );
                    out.push(PrintedRow::Cells(pieces));
                },
            }
            i = i + 1;
        }
        out
    }
}


// ---------------------------------------------------------------------------
// What a printed grid looks like

/// The width in columns of a piece, a cell's text taken at its display width.
pub open spec fn piece_width(p: Piece) -> int {
    match p {
        Piece::Text(t) => display_width(t@) as int,
        Piece::Spaces(n) => n as int,
        Piece::AlignMark => 1,
        Piece::LineEnd(backslash) => if backslash {
            2
        } else {
            1
        },
        Piece::Newline => 0,
    }
}

/// The width in columns of pieces on one line.
pub open spec fn pieces_width(ps: Seq<Piece>) -> int
    decreases ps.len(),
{
    if ps.len() == 0 {
        0
    } else {
        pieces_width(ps.drop_last()) + piece_width(ps.last())
    }
}

/// How many `&` separators the pieces hold.
pub open spec fn mark_count(ps: Seq<Piece>) -> int
    decreases ps.len(),
{
    if ps.len() == 0 {
        0
    } else {
        mark_count(ps.drop_last()) + if ps.last() is AlignMark {
            1int
        } else {
            0int
        }
    }
}

/// No cell of the row spans several lines.
pub open spec fn single_line_cells(cells: Seq<MeasuredCell>) -> bool {
    forall|j: int| 0 <= j < cells.len() ==> !(#[trigger] cells[j] is MultiLine)
}

proof fn lemma_pieces_concat(a: Seq<Piece>, b: Seq<Piece>)
    ensures
        pieces_width(a + b) == pieces_width(a) + pieces_width(b),
        mark_count(a + b) == mark_count(a) + mark_count(b),
    decreases b.len(),
{
    if b.len() > 0 {
        lemma_pieces_concat(a, b.drop_last());
        assert((a + b).drop_last() =~= a + b.drop_last());
    }
}

proof fn lemma_take_concat(a: Seq<Piece>, b: Seq<Piece>, p: int)
    requires
        0 <= p <= a.len() + b.len(),
    ensures
        p <= a.len() ==> (a + b).take(p) == a.take(p),
        p >= a.len() ==> (a + b).take(p) == a + b.take(p - a.len()),
{
    if p <= a.len() {
        assert((a + b).take(p) =~= a.take(p));
    }
    if p >= a.len() {
        assert((a + b).take(p) =~= a + b.take(p - a.len()));
    }
}

/// A cell of one line, padded, is its column's width less the room kept for
/// the spaces of its separators; an empty one is the full width.
proof fn lemma_padded_single(cell: MeasuredCell, j: int, cw: Seq<usize>)
    requires
        0 <= j < cw.len(),
        cell_fits(cell, j, cw),
        !(cell is MultiLine),
    ensures
        pieces_width(padded_cell(cell, j, cw)) == if cell is Empty {
            cw[j] as int
        } else {
            cw[j] - allowance(j, cw.len() as int)
        },
        mark_count(padded_cell(cell, j, cw)) == 0,
{
    let ps = padded_cell(cell, j, cw);
    reveal_with_fuel(pieces_width, 3);
    reveal_with_fuel(mark_count, 3);
    if let MeasuredCell::SingleLine(t, w) = cell {
        if left_aligned(j, cw.len() as int) {
            assert(ps.drop_last() =~= seq![Piece::Text(t)]);
        } else {
            assert(ps.drop_last() =~= seq![Piece::Spaces((cw[j] - w) as usize)]);
        }
    }
}

proof fn lemma_separator(cells: Seq<MeasuredCell>, j: int)
    requires
        0 < j < cells.len(),
    ensures
        pieces_width(separator(cells, j)) == 1 + (if !(cells[j - 1] is Empty) {
            1int
        } else {
            0int
        }) + (if !(cells[j] is Empty) {
            1int
        } else {
            0int
        }),
        mark_count(separator(cells, j)) == 1,
        ({
            let k = if !(cells[j - 1] is Empty) {
                1int
            } else {
                0int
            };
            &&& separator(cells, j)[k] is AlignMark
            &&& forall|q: int|
                0 <= q < separator(cells, j).len() && q != k ==> !(
                #[trigger] separator(cells, j)[q] is AlignMark)
            &&& pieces_width(separator(cells, j).take(k)) == k
            &&& mark_count(separator(cells, j).take(k)) == 0
        }),
{
    let pre = if !(cells[j - 1] is Empty) {
        seq![Piece::Spaces(1)]
    } else {
        seq![]
    };
    let post = if !(cells[j] is Empty) {
        seq![Piece::Spaces(1)]
    } else {
        seq![]
    };
    reveal_with_fuel(pieces_width, 2);
    reveal_with_fuel(mark_count, 2);
    lemma_pieces_concat(pre, seq![Piece::AlignMark]);
    lemma_pieces_concat(pre + seq![Piece::AlignMark], post);
    assert(separator(cells, j).take(pre.len() as int) =~= pre);
}

/// The width and the separators of the first `m` cells of a row of single
/// lines, where none of them is in the last column.
proof fn lemma_cells_prefix(cells: Seq<MeasuredCell>, cw: Seq<usize>, m: int)
    requires
        cells.len() <= cw.len(),
        forall|j: int| 0 <= j < cells.len() ==> cell_fits(#[trigger] cells[j], j, cw),
        forall|j: int| 0 <= j < m ==> !(#[trigger] cells[j] is MultiLine),
        1 <= m <= cells.len(),
        m < cw.len(),
    ensures
        pieces_width(cells_pieces(cells, cw, m)) == prefix_sum(cw, m) + m - 1 - (if !(cells[m
            - 1] is Empty) {
            1int
        } else {
            0int
        }),
        mark_count(cells_pieces(cells, cw, m)) == m - 1,
    decreases m,
{
    let a = cells_pieces(cells, cw, m - 1);
    let sep = separator(cells, m - 1);
    let pad = padded_cell(cells[m - 1], m - 1, cw);
    assert(cell_fits(cells[m - 1], m - 1, cw));
    assert(!(cells[m - 1] is MultiLine));
    lemma_padded_single(cells[m - 1], m - 1, cw);
    lemma_pieces_concat(a, sep);
    lemma_pieces_concat(a + sep, pad);
    assert(cells_pieces(cells, cw, m) == a + sep + pad);
    assert(prefix_sum(cw, m) == prefix_sum(cw, m - 1) + cw[m - 1]);
    if m > 1 {
        lemma_cells_prefix(cells, cw, m - 1);
        lemma_separator(cells, m - 1);
        assert(allowance(m - 1, cw.len() as int) == 2);
    } else {
        assert(a =~= seq![]);
        assert(sep =~= seq![]);
        assert(prefix_sum(cw, 0) == 0);
        assert(allowance(0, cw.len() as int) == 1);
    }
}

/// In a printed grid, the separators of every row whose cells hold one line
/// each stand in the same columns: the `c`-th `&` of such a row comes after
/// pieces as wide as the first `c` columns and the `c - 1` separators between them.
pub proof fn lemma_separators_line_up<F>(
    rows: Seq<MeasuredRow<F>>,
    cw: Seq<usize>,
    printed: Seq<PrintedRow<F>>,
    trailing: bool,
    i: int,
    p: int,
)
    requires
        grid_fits(rows, cw),
        printed.len() == rows.len(),
        forall|r: int|
            0 <= r < rows.len() ==> printed_as(
                #[trigger] printed[r],
                rows[r],
                r,
                rows.len() as int,
                cw,
                trailing,
            ),
        0 <= i < rows.len(),
        rows[i] is Cells,
        single_line_cells(rows[i]->Cells_0@),
        0 <= p < printed[i]->Cells_0@.len(),
        printed[i]->Cells_0@[p] is AlignMark,
    ensures
        ({
            let ps = printed[i]->Cells_0@;
            let c = mark_count(ps.take(p)) + 1;
            pieces_width(ps.take(p)) == prefix_sum(cw, c) + c - 1
        }),
{
    let cells = rows[i]->Cells_0@;
    assert(printed_as(printed[i], rows[i], i, rows.len() as int, cw, trailing));
    assert(forall|j: int| 0 <= j < cells.len() ==> cell_fits(#[trigger] cells[j], j, cw));
    let body_cells = cells_pieces(cells, cw, cells.len() as int);
    let rest = row_fill(cells, cw) + row_end(i, rows.len() as int, trailing);
    let ps = printed[i]->Cells_0@;
    assert(ps =~= body_cells + rest);
    if p >= body_cells.len() {
        assert(rest[p - body_cells.len()] == ps[p]);
        assert(false);
    }
    lemma_take_concat(body_cells, rest, p);
    assert(body_cells[p] is AlignMark);
    lemma_mark_position(cells, cw, cells.len() as int, p);
}

proof fn lemma_mark_position(cells: Seq<MeasuredCell>, cw: Seq<usize>, m: int, p: int)
    requires
        cells.len() <= cw.len(),
        forall|j: int| 0 <= j < cells.len() ==> cell_fits(#[trigger] cells[j], j, cw),
        single_line_cells(cells),
        0 <= m <= cells.len(),
        0 <= p < cells_pieces(cells, cw, m).len(),
        cells_pieces(cells, cw, m)[p] is AlignMark,
    ensures
        ({
            let ps = cells_pieces(cells, cw, m).take(p);
            let c = mark_count(ps) + 1;
            pieces_width(ps) == prefix_sum(cw, c) + c - 1
        }),
    decreases m,
{
    let a = cells_pieces(cells, cw, m - 1);
    let sep = separator(cells, m - 1);
    let pad = padded_cell(cells[m - 1], m - 1, cw);
    let whole = cells_pieces(cells, cw, m);
    assert(whole =~= a + (sep + pad));
    lemma_take_concat(a, sep + pad, p);
    if p < a.len() {
        assert(a[p] == whole[p]);
        lemma_mark_position(cells, cw, m - 1, p);
    } else {
        assert(cell_fits(cells[m - 1], m - 1, cw));
        assert(!(cells[m - 1] is MultiLine));
        lemma_padded_single(cells[m - 1], m - 1, cw);
        let q = p - a.len();
        lemma_take_concat(sep, pad, q);
        if q >= sep.len() {
            assert(pad[q - sep.len()] == whole[p]);
            lemma_no_mark_in_padded(cells[m - 1], m - 1, cw, q - sep.len());
            assert(false);
        }
        assert(sep[q] == whole[p]);
        if m == 1 {
            assert(sep =~= seq![]);
            assert(false);
        }
        lemma_separator(cells, m - 1);
        let k = if !(cells[m - 2] is Empty) {
            1int
        } else {
            0int
        };
        assert(q == k);
        lemma_cells_prefix(cells, cw, m - 1);
        lemma_pieces_concat(a, sep.take(q));
        assert(whole.take(p) =~= a + sep.take(q));
    }
}

proof fn lemma_no_mark_in_padded(cell: MeasuredCell, j: int, cw: Seq<usize>, q: int)
    requires
        0 <= j < cw.len(),
        !(cell is MultiLine),
        0 <= q < padded_cell(cell, j, cw).len(),
    ensures
        !(padded_cell(cell, j, cw)[q] is AlignMark),
{
}

/// How many row ends (` \` or a closing space) the pieces hold.
pub open spec fn line_end_count(ps: Seq<Piece>) -> int
    decreases ps.len(),
{
    if ps.len() == 0 {
        0
    } else {
        line_end_count(ps.drop_last()) + if ps.last() is LineEnd {
            1int
        } else {
            0int
        }
    }
}

proof fn lemma_line_end_count_concat(a: Seq<Piece>, b: Seq<Piece>)
    ensures
        line_end_count(a + b) == line_end_count(a) + line_end_count(b),
    decreases b.len(),
{
    if b.len() > 0 {
        lemma_line_end_count_concat(a, b.drop_last());
        assert((a + b).drop_last() =~= a + b.drop_last());
    } else {
        assert(a + b =~= a);
    }
}

proof fn lemma_no_line_end_in(ps: Seq<Piece>)
    requires
        forall|k: int| 0 <= k < ps.len() ==> !(#[trigger] ps[k] is LineEnd),
    ensures
        line_end_count(ps) == 0,
    decreases ps.len(),
{
    if ps.len() > 0 {
        lemma_no_line_end_in(ps.drop_last());
    }
}

proof fn lemma_line_pieces_no_line_end(lines: Seq<(String, usize)>, indent: usize)
    ensures
        forall|k: int| 0 <= k < line_pieces(lines, indent).len() ==> !(#[trigger] line_pieces(lines, indent)[k] is LineEnd),
    decreases lines.len(),
{
    if lines.len() > 1 {
        lemma_line_pieces_no_line_end(lines.drop_last(), indent);
        let a = line_pieces(lines.drop_last(), indent);
        let b = seq![Piece::Newline, Piece::Spaces(indent), Piece::Text(lines.last().0)];
        assert forall|k: int| 0 <= k < (a + b).len() implies !((a + b)[k] is LineEnd) by {
            if k >= a.len() {
                assert((a + b)[k] == b[k - a.len()]);
            } else {
                assert((a + b)[k] == a[k]);
            }
        }
    }
}

proof fn lemma_padded_no_line_end(cell: MeasuredCell, j: int, cw: Seq<usize>)
    ensures
        line_end_count(padded_cell(cell, j, cw)) == 0,
{
    let ps = padded_cell(cell, j, cw);
    match cell {
        MeasuredCell::MultiLine(lines) => {
            let pl = cell_padding_left(cell, j, cw);
            let lp = line_pieces(lines@, cell_indent(cell, j, cw) as usize);
            lemma_line_pieces_no_line_end(lines@, cell_indent(cell, j, cw) as usize);
            lemma_no_line_end_in(lp);
            let tr = seq![Piece::Spaces((cw[j] - pl - lines@.last().1) as usize)];
            reveal_with_fuel(line_end_count, 2);
            lemma_line_end_count_concat(seq![Piece::Spaces(pl)], lp);
            lemma_line_end_count_concat(seq![Piece::Spaces(pl)] + lp, tr);
        },
        _ => {
            assert forall|k: int| 0 <= k < ps.len() implies !(#[trigger] ps[k] is LineEnd) by {}
            lemma_no_line_end_in(ps);
        },
    }
}

proof fn lemma_separator_no_line_end(cells: Seq<MeasuredCell>, j: int)
    ensures
        line_end_count(separator(cells, j)) == 0,
{
    let ps = separator(cells, j);
    assert forall|k: int| 0 <= k < ps.len() implies !(#[trigger] ps[k] is LineEnd) by {}
    lemma_no_line_end_in(ps);
}

/// The cells of a row, with their separators and the spaces that fill the
/// row, hold no row end.
proof fn lemma_row_body_no_line_end(cells: Seq<MeasuredCell>, cw: Seq<usize>, m: int)
    requires
        0 <= m <= cells.len(),
        cells.len() <= cw.len(),
    ensures
        line_end_count(cells_pieces(cells, cw, m)) == 0,
        m == cells.len() ==> line_end_count(row_body(cells, cw)) == 0,
    decreases m,
{
    if m > 0 {
        lemma_row_body_no_line_end(cells, cw, m - 1);
        let a = cells_pieces(cells, cw, m - 1);
        let sep = separator(cells, m - 1);
        let pad = padded_cell(cells[m - 1], m - 1, cw);
        assert(cells_pieces(cells, cw, m) == a + sep + pad);
        lemma_line_end_count_concat(a, sep);
        lemma_line_end_count_concat(a + sep, pad);
        lemma_separator_no_line_end(cells, m - 1);
        lemma_padded_no_line_end(cells[m - 1], m - 1, cw);
    }
    if m == cells.len() {
        let fill = row_fill(cells, cw);
        lemma_line_end_count_concat(cells_pieces(cells, cw, m), fill);
        assert forall|k: int| 0 <= k < fill.len() implies !(#[trigger] fill[k] is LineEnd) by {}
        lemma_no_line_end_in(fill);
    }
}

/// In a printed grid of several rows, every row but the last ends with ` \`
/// and a line break, and the last with ` \` or a space as
/// `add_trailing_linebreak` says; each such row holds exactly one row end.
/// A grid of one row has no row end at all.
pub proof fn lemma_row_ends<F>(
    rows: Seq<MeasuredRow<F>>,
    cw: Seq<usize>,
    printed: Seq<PrintedRow<F>>,
    trailing: bool,
    i: int,
)
    requires
        grid_fits(rows, cw),
        printed.len() == rows.len(),
        forall|r: int|
            0 <= r < rows.len() ==> printed_as(
                #[trigger] printed[r],
                rows[r],
                r,
                rows.len() as int,
                cw,
                trailing,
            ),
        0 <= i < rows.len(),
        rows[i] is Cells,
    ensures
        ({
            let ps = printed[i]->Cells_0@;
            let n = rows.len();
            &&& i + 1 < n ==> ps.len() >= 2 && ps[ps.len() - 2] == Piece::LineEnd(true) && ps.last()
                == Piece::Newline
            &&& n > 1 && i + 1 == n ==> ps.len() >= 1 && ps.last() == Piece::LineEnd(trailing)
            &&& line_end_count(ps) == if n > 1 {
                1int
            } else {
                0int
            }
        }),
{
    let cells = rows[i]->Cells_0@;
    let n = rows.len() as int;
    assert(printed_as(printed[i], rows[i], i, n, cw, trailing));
    let ps = printed[i]->Cells_0@;
    let body = row_body(cells, cw);
    let end = row_end(i, n, trailing);
    assert(ps == body + end);
    lemma_row_body_no_line_end(cells, cw, cells.len() as int);
    lemma_line_end_count_concat(body, end);
    reveal_with_fuel(line_end_count, 3);
    if n > 1 {
        if i + 1 != n {
            assert(end =~= seq![Piece::LineEnd(true), Piece::Newline]);
        } else {
            assert(end =~= seq![Piece::LineEnd(trailing)]);
        }
    } else {
        assert(end =~= Seq::<Piece>::empty());
    }
}

/// In a printed grid of at least two columns, every row of one-line cells,
/// full or not, is as wide as the grid less one, before its end.
pub proof fn lemma_rows_fill_the_grid(cells: Seq<MeasuredCell>, cw: Seq<usize>)
    requires
        cells.len() <= cw.len(),
        forall|j: int| 0 <= j < cells.len() ==> cell_fits(#[trigger] cells[j], j, cw),
        single_line_cells(cells),
        cells.len() >= 1,
        cw.len() >= 2,
        grid_width(cw) <= usize::MAX,
    ensures
        pieces_width(row_body(cells, cw)) == grid_width(cw) - 1,
{
    let nc = cells.len() as int;
    let ncols = cw.len() as int;
    let fill = row_fill(cells, cw);
    lemma_pieces_concat(cells_pieces(cells, cw, nc), fill);
    if nc < ncols {
        lemma_cells_prefix(cells, cw, nc);
        lemma_prefix_sum_mono(cw, nc, ncols);
        reveal_with_fuel(pieces_width, 3);
        let first = seq![Piece::Spaces((grid_width(cw) - nc - prefix_sum(cw, nc)) as usize)];
        if !(nc > 0 && cells.last() is Empty) {
            assert(fill =~= first + seq![Piece::Spaces(1)]);
            lemma_pieces_concat(first, seq![Piece::Spaces(1)]);
        } else {
            assert(fill =~= first);
        }
    } else {
        let a = cells_pieces(cells, cw, nc - 1);
        let sep = separator(cells, nc - 1);
        let pad = padded_cell(cells[nc - 1], nc - 1, cw);
        assert(cell_fits(cells[nc - 1], nc - 1, cw));
        lemma_padded_single(cells[nc - 1], nc - 1, cw);
        lemma_pieces_concat(a, sep);
        lemma_pieces_concat(a + sep, pad);
        lemma_cells_prefix(cells, cw, nc - 1);
        lemma_separator(cells, nc - 1);
        assert(fill =~= seq![]);
    }
}


// ---------------------------------------------------------------------------
// From rendered cells to a printed grid

/// The text of a rendered math cell; a cell that ends with a line comment
/// gets a line break and a space after it, so that what follows starts on a
/// line of its own.
pub fn math_cell_text(rendered: String, ends_with_line_comment: bool) -> (res: String)
    ensures
        res@ == if ends_with_line_comment {
            rendered@ + "\n "@
        } else {
            rendered@
        },
{
    let mut buf = rendered;
    if ends_with_line_comment {
        buf.append("\n ");
    }
    buf
}

/// Whether the lines of one cell are narrow enough.
fn cell_widths_fit(text: &String) -> (res: bool)
    ensures
        res == (text@.len() > 0 ==> forall|k: int|
            0 <= k < cell_lines(text@).len() ==> display_width(#[trigger] cell_lines(text@)[k]) + 2
                <= usize::MAX),
{
    if text.as_str().is_empty() {
        return true;
    }
    if has_linebreak(text.as_str()) {
        let lines = split_lines(text.as_str());
        let mut k: usize = 0;
        while k < lines.len()
            invariant
                k <= lines@.len(),
                text@.len() > 0,
                lines@.map_values(|l: String| l@) == cell_lines(text@),
                forall|m: int|
                    0 <= m < k ==> display_width(#[trigger] cell_lines(text@)[m]) + 2 <= usize::MAX,
            decreases lines@.len() - k,
        {
            let w = str_display_width(lines[k].as_str());
            proof {
                assert(lines@[k as int]@ == cell_lines(text@)[k as int]);
            }
            if w > usize::MAX - 2 {
                return false;
            }
            k = k + 1;
        }
        true
    } else {
        let w = str_display_width(text.as_str());
        proof {
            assert(cell_lines(text@)[0] == text@);
        }
        w <= usize::MAX - 2
    }
}

/// Whether every line of every cell is narrow enough to be measured.
pub fn rows_fit_widths<F>(rows: &Vec<Row<F>>) -> (res: bool)
    ensures
        res == widths_fit(rows@),
{
    let mut i: usize = 0;
    while i < rows.len()
        invariant
            i <= rows@.len(),
            forall|a: int, j: int, k: int|
                0 <= a < i && rows@[a] is Cells && 0 <= j < rows@[a]->Cells_0@.len()
                    && rows@[a]->Cells_0@[j]@.len() > 0 && 0 <= k < cell_lines(
                    rows@[a]->Cells_0@[j]@,
                ).len() ==> display_width(#[trigger] cell_lines(rows@[a]->Cells_0@[j]@)[k]) + 2
                    <= usize::MAX,
        decreases rows@.len() - i,
    {
        if let Row::Cells(cells) = &rows[i] {
            let mut j: usize = 0;
            while j < cells.len()
                invariant
                    i < rows@.len(),
                    rows@[i as int] is Cells,
                    rows@[i as int]->Cells_0@ == cells@,
                    j <= cells@.len(),
                    forall|a: int, jj: int, k: int|
                        0 <= a < i && rows@[a] is Cells && 0 <= jj < rows@[a]->Cells_0@.len()
                            && rows@[a]->Cells_0@[jj]@.len() > 0 && 0 <= k < cell_lines(
                            rows@[a]->Cells_0@[jj]@,
                        ).len() ==> display_width(
                            #[trigger] cell_lines(rows@[a]->Cells_0@[jj]@)[k],
                        ) + 2 <= usize::MAX,
                    forall|jj: int, k: int|
                        0 <= jj < j && cells@[jj]@.len() > 0 && 0 <= k < cell_lines(
                            cells@[jj]@,
                        ).len() ==> display_width(#[trigger] cell_lines(cells@[jj]@)[k]) + 2
                            <= usize::MAX,
                decreases cells@.len() - j,
            {
                if !cell_widths_fit(&cells[j]) {
                    proof {
                        let k = choose|k: int|
                            0 <= k < cell_lines(cells@[j as int]@).len() && !(display_width(
                                #[trigger] cell_lines(cells@[j as int]@)[k],
                            ) + 2 <= usize::MAX);
                        assert(!(display_width(
                            cell_lines(rows@[i as int]->Cells_0@[j as int]@)[k],
                        ) + 2 <= usize::MAX));
                    }
                    return false;
                }
                j = j + 1;
            }
        }
        i = i + 1;
    }
    true
}

/// `out` is the grid of `rows` printed: the rows measured into the columns
/// that measuring gives, then each printed, every row ending with ` \` where
/// `trailing`.
pub open spec fn printed_grid<F>(rows: Seq<Row<F>>, out: Seq<PrintedRow<F>>, trailing: bool) -> bool {
    exists|measured: Seq<MeasuredRow<F>>|
        {
            &&& measured.len() == rows.len()
            &&& forall|i: int|
                0 <= i < rows.len() ==> row_measured_as(
                    #[trigger] measured[i],
                    rows[i],
                    col_count(rows) as int,
                )
            &&& grid_fits(measured, col_widths_of(rows))
            &&& out.len() == measured.len()
            &&& forall|i: int|
                0 <= i < out.len() ==> printed_as(
                    #[trigger] out[i],
                    measured[i],
                    i,
                    measured.len() as int,
                    col_widths_of(rows),
                    trailing,
                )
        }
}

/// Lay out rows of rendered cells as an aligned grid no wider than
/// `max_width`, ending every row with ` \` where `add_trailing_linebreak`.
/// Gives `None` where a line is too wide to measure in a `usize`, or where
/// the grid would be wider than `max_width`; else the printed rows of the
/// grid that measuring the rows gives.
pub fn layout_aligned<F>(rows: Vec<Row<F>>, max_width: usize, add_trailing_linebreak: bool) -> (res:
    Option<Vec<PrintedRow<F>>>)
    ensures
        !widths_fit(rows@) ==> res is None,
        widths_fit(rows@) ==> (res is None <==> measured_grid_width(rows@) > max_width),
        res matches Some(out) ==> printed_grid(rows@, out@, add_trailing_linebreak),
{
    if !rows_fit_widths(&rows) {
        return None;
    }
    let ghost input = rows@;
    match AlignedStylist::new().render(rows, max_width) {
        None => None,
        Some(measured) => {
            let ghost m_rows = measured.rows();
            let ghost m_widths = measured.col_widths();
            let out = measured.print(add_trailing_linebreak);
            proof {
                assert(m_widths == col_widths_of(input));
            }
            Some(out)
        },
    }
}

/// Lay out a math block as an aligned grid where alignment may be used there:
/// not where alignment is switched off, nor where the block has no align
/// point that counts. The rows end with ` \` where the block is laid out in
/// the outer alignment mode and its last line ended with a line break.
pub fn layout_math_aligned<F>(
    alignment_off: bool,
    can_align: bool,
    rows: Vec<Row<F>>,
    max_width: usize,
    outer_mode: bool,
    has_trailing_linebreak: bool,
) -> (res: Option<Vec<PrintedRow<F>>>)
    ensures
        (alignment_off || !can_align) ==> res is None,
        !alignment_off && can_align ==> {
            &&& res is None <==> (!widths_fit(rows@) || measured_grid_width(rows@) > max_width)
            &&& res matches Some(out) ==> printed_grid(
                rows@,
                out@,
                outer_mode && has_trailing_linebreak,
            )
        },
{
    if alignment_off || !can_align {
        return None;
    }
    layout_aligned(rows, max_width, outer_mode && has_trailing_linebreak)
}


/// The later lines of a cell of several lines start where its first line
/// starts: in a row whose cells before it hold one line each, the first line
/// comes after pieces as wide as the indentation given to every later line.
pub proof fn lemma_multi_line_cells_stay_in_column(cells: Seq<MeasuredCell>, cw: Seq<usize>, j: int)
    requires
        cells.len() <= cw.len(),
        forall|k: int| 0 <= k < cells.len() ==> cell_fits(#[trigger] cells[k], k, cw),
        forall|k: int| 0 <= k < j ==> !(#[trigger] cells[k] is MultiLine),
        0 <= j < cells.len(),
        cells[j] is MultiLine,
    ensures
        pieces_width(
            cells_pieces(cells, cw, j) + separator(cells, j) + seq![
                Piece::Spaces(cell_padding_left(cells[j], j, cw)),
            ],
        ) == cell_indent(cells[j], j, cw),
        padded_cell(cells[j], j, cw) == seq![Piece::Spaces(cell_padding_left(cells[j], j, cw))]
            + line_pieces(cells[j]->MultiLine_0@, cell_indent(cells[j], j, cw) as usize) + seq![
            Piece::Spaces((cw[j] - cell_padding_left(cells[j], j, cw)
                - cells[j]->MultiLine_0@.last().1) as usize),
        ],
{
    let pl = cell_padding_left(cells[j], j, cw);
    let a = cells_pieces(cells, cw, j);
    let sep = separator(cells, j);
    let pad = seq![Piece::Spaces(pl)];
    lemma_pieces_concat(a, sep);
    lemma_pieces_concat(a + sep, pad);
    reveal_with_fuel(pieces_width, 2);
    assert(pad.drop_last() =~= Seq::<Piece>::empty());
    if j > 0 {
        lemma_cells_prefix(cells, cw, j);
        lemma_separator(cells, j);
    } else {
        assert(a =~= Seq::<Piece>::empty());
        assert(sep =~= Seq::<Piece>::empty());
        assert(prefix_sum(cw, 0) == 0);
    }
}

} // verus!
