//! Tables and grids: which calls are laid out as a table, how many columns
//! they have, how their positional arguments fall into rows, and where the
//! rows break.
use vstd::prelude::*;

use crate::facts::{
    first_path_hint, first_span_hint, hint_for, path_matches, FormatFacts, FunctionFact,
    FunctionQuery,
};
use crate::text::str_eq;

verus! {

broadcast use vstd::string::group_string_axioms;

/// The value given to a named argument, as far as the columns of a table go.
pub enum ArgValue {
    /// An integer literal.
    Int(i64),
    /// An array, with its number of items.
    Array(usize),
    Other,
}

/// An argument of a table call.
pub enum TableArg {
    /// A positional argument; where it is a function call, the callee's name
    /// (such as `table.cell`).
    Pos(Option<String>),
    /// A named argument and its value.
    Named(String, ArgValue),
    /// A spread argument `..args`.
    Spread,
}

/// A call that may be laid out as a table: the name of its callee as written
/// (such as `table` or `grid`), whether comments stand among its arguments,
/// and its parenthesized arguments in order.
pub struct TableCall {
    pub callee: Option<String>,
    pub has_comments: bool,
    pub args: Vec<TableArg>,
}

/// Cells that keep a table from being reflowed.
pub open spec fn black_listed(name: Seq<char>) -> bool {
    ||| name == "table.cell"@
    ||| name == "table.vline"@
    ||| name == "table.hline"@
    ||| name == "grid.cell"@
    ||| name == "grid.vline"@
    ||| name == "grid.hline"@
}

/// Headers and footers, which take a row of their own.
pub open spec fn header_or_footer(name: Seq<char>) -> bool {
    ||| name == "table.header"@
    ||| name == "table.footer"@
    ||| name == "grid.header"@
    ||| name == "grid.footer"@
}

/// A call of `table` or `grid`.
pub open spec fn spec_is_table(callee: Option<Seq<char>>) -> bool {
    callee matches Some(n) && (n == "table"@ || n == "grid"@)
}

/// A positional argument that calls a black-listed function.
pub open spec fn is_black_listed_arg(arg: TableArg) -> bool {
    arg matches TableArg::Pos(Some(name)) && black_listed(name@)
}

/// The arguments can be laid out as a table: no comments, no spread, no
/// black-listed cell, named arguments only before the positional ones, and
/// at least one positional argument.
pub open spec fn spec_formattable(call_has_comments: bool, args: Seq<TableArg>) -> bool {
    &&& !call_has_comments
    &&& forall|k: int| 0 <= k < args.len() ==> !(#[trigger] args[k] is Spread)
    &&& forall|k: int| 0 <= k < args.len() ==> !is_black_listed_arg(#[trigger] args[k])
    &&& forall|a: int, b: int|
        0 <= a < b < args.len() && #[trigger] args[a] is Pos ==> !(#[trigger] args[b] is Named)
    &&& exists|k: int| 0 <= k < args.len() && #[trigger] args[k] is Pos
}

/// The columns that the first `columns` argument gives with a value that
/// counts: an integer (as a `usize` cast of it) or an array (its length).
pub open spec fn spec_columns(args: Seq<TableArg>) -> Option<usize>
    decreases args.len(),
{
    if args.len() == 0 {
        None
    } else {
        match args[0] {
            TableArg::Named(name, value) if name@ == "columns"@ => match value {
                ArgValue::Int(n) => Some(n as usize),
                ArgValue::Array(count) => Some(count),
                ArgValue::Other => spec_columns(args.drop_first()),
            },
            _ => spec_columns(args.drop_first()),
        }
    }
}

fn is_one_of(name: &str, options: &[&str]) -> (res: bool)
    ensures
        res == exists|k: int| 0 <= k < options@.len() && name@ == (#[trigger] options@[k])@,
{
    let mut k: usize = 0;
    while k < options.len()
        invariant
            k <= options@.len(),
            forall|m: int| 0 <= m < k ==> name@ != (#[trigger] options@[m])@,
        decreases options@.len() - k,
    {
        if str_eq(name, options[k]) {
            return true;
        }
        k = k + 1;
    }
    false
}

/// Whether the callee is `table` or `grid`.
pub fn is_table(callee: Option<&str>) -> (res: bool)
    ensures
        res == spec_is_table(
            match callee {
                Some(n) => Some(n@),
                None => None,
            },
        ),
{
    match callee {
        Some(name) => {
            let names: [&str; 2] = ["table", "grid"];
            proof {
                reveal_strlit("table");
                reveal_strlit("grid");
            }
            let res = is_one_of(name, &names);
            proof {
                if name@ == "table"@ {
                    assert(names@[0]@ == "table"@);
                }
                if name@ == "grid"@ {
                    assert(names@[1]@ == "grid"@);
                }
            }
            res
        },
        None => false,
    }
}

fn is_black_listed_name(name: &str) -> (res: bool)
    ensures
        res == black_listed(name@),
{
    let names: [&str; 6] = [
        "table.cell",
        "table.vline",
        "table.hline",
        "grid.cell",
        "grid.vline",
        "grid.hline",
    ];
    let res = is_one_of(name, &names);
    proof {
        assert(names@[0]@ == "table.cell"@);
        assert(names@[1]@ == "table.vline"@);
        assert(names@[2]@ == "table.hline"@);
        assert(names@[3]@ == "grid.cell"@);
        assert(names@[4]@ == "grid.vline"@);
        assert(names@[5]@ == "grid.hline"@);
    }
    res
}

/// Whether the call's arguments can be laid out as a table.
pub fn is_formattable_table(call: &TableCall) -> (res: bool)
    ensures
        res == spec_formattable(call.has_comments, call.args@),
{
    if call.has_comments {
        return false;
    }
    let args = &call.args;
    let mut seen_pos_arg = false;
    let mut k: usize = 0;
    while k < args.len()
        invariant
            k <= args@.len(),
            !call.has_comments,
            args@ == call.args@,
            seen_pos_arg == exists|m: int| 0 <= m < k && #[trigger] args@[m] is Pos,
            forall|m: int| 0 <= m < k ==> !(#[trigger] args@[m] is Spread),
            forall|m: int| 0 <= m < k ==> !is_black_listed_arg(#[trigger] args@[m]),
            forall|a: int, b: int|
                0 <= a < b < k && #[trigger] args@[a] is Pos ==> !(#[trigger] args@[b] is Named),
        decreases args@.len() - k,
    {
        match &args[k] {
            TableArg::Pos(callee) => {
                if let Some(name) = callee {
                    if is_black_listed_name(name.as_str()) {
                        assert(is_black_listed_arg(args@[k as int]));
                        return false;
                    }
                }
                seen_pos_arg = true;
            },
            TableArg::Named(_, _) => {
                if seen_pos_arg {
                    let ghost a = choose|m: int| 0 <= m < k && #[trigger] args@[m] is Pos;
                    assert(args@[a] is Pos && args@[k as int] is Named);
                    return false;
                }
            },
            TableArg::Spread => {
                return false;
            },
        }
        k = k + 1;
    }
    if !seen_pos_arg {
        return false;
    }
    true
}

/// Whether a positional argument is a table or grid header or footer.
pub fn is_header_or_footer(arg: &TableArg) -> (res: bool)
    ensures
        res == (arg matches TableArg::Pos(Some(name)) && header_or_footer(name@)),
{
    match arg {
        TableArg::Pos(Some(name)) => {
            let names: [&str; 4] = ["table.header", "table.footer", "grid.header", "grid.footer"];
            let res = is_one_of(name.as_str(), &names);
            proof {
                assert(names@[0]@ == "table.header"@);
                assert(names@[1]@ == "table.footer"@);
                assert(names@[2]@ == "grid.header"@);
                assert(names@[3]@ == "grid.footer"@);
            }
            res
        },
        _ => false,
    }
}

/// The number of columns the call's `columns` argument gives, if any.
pub fn get_table_columns(call: &TableCall) -> (res: Option<usize>)
    ensures
        res == spec_columns(call.args@),
{
    let args = &call.args;
    let mut k: usize = 0;
    let columns = "columns";
    proof {
        reveal_strlit("columns");
        assert(args@.skip(0) =~= args@);
    }
    while k < args.len()
        invariant
            k <= args@.len(),
            args@ == call.args@,
            columns@ == "columns"@,
            spec_columns(call.args@) == spec_columns(args@.skip(k as int)),
        decreases args@.len() - k,
    {
        proof {
            assert(args@.skip(k as int).drop_first() =~= args@.skip(k + 1));
            assert(args@.skip(k as int)[0] == args@[k as int]);
        }
        if let TableArg::Named(name, value) = &args[k] {
            if str_eq(name.as_str(), columns) {
                match value {
                    ArgValue::Int(count) => {
                        return Some(*count as usize);
                    },
                    ArgValue::Array(count) => {
                        return Some(*count);
                    },
                    ArgValue::Other => {},
                }
            }
        }
        k = k + 1;
    }
    None
}

/// The columns of a call laid out as a table: where the call is to `table`
/// or `grid`, or a fact gives a hint for it, and its arguments can be laid
/// out as a table, its own `columns` argument, or else the hint's columns;
/// otherwise none.
pub open spec fn spec_table_columns(
    callee: Option<Seq<char>>,
    has_comments: bool,
    args: Seq<TableArg>,
    facts: Seq<FunctionFact>,
    query: FunctionQuery,
) -> Option<usize> {
    let hint = hint_for(facts, query);
    if (spec_is_table(callee) || hint is Some) && spec_formattable(has_comments, args) {
        match spec_columns(args) {
            Some(c) => Some(c),
            None => match hint {
                Some(h) => h.spec_table_like_hint().columns,
                None => None,
            },
        }
    } else {
        None
    }
}

/// The number of columns of a call to lay out as a table, `None` where it is
/// not laid out as one. A call is laid out as a table where it calls `table`
/// or `grid`, or the facts give a hint for it (a wrapper that forwards its
/// arguments to `table`), and its arguments can be laid out as a table. Its
/// columns come from its own `columns` argument, or else from the hint.
pub fn table_columns(call: &TableCall, facts: &FormatFacts, query: FunctionQuery<'_>) -> (res:
    Option<usize>)
    ensures
        res == spec_table_columns(
            match call.callee {
                Some(n) => Some(n@),
                None => None,
            },
            call.has_comments,
            call.args@,
            facts@,
            query,
        ),
{
    let hint = facts.function_hint(query);
    let callee = match &call.callee {
        Some(name) => Some(name.as_str()),
        None => None,
    };
    if (is_table(callee) || hint.is_some()) && is_formattable_table(call) {
        match get_table_columns(call) {
            Some(c) => Some(c),
            None => match hint {
                Some(h) => h.table_like_hint().columns,
                None => None,
            },
        }
    } else {
        None
    }
}


/// A wrapper that a fact names is laid out as a table: where the only fact
/// names the callee (by its name or its full path) and the call's arguments
/// can be laid out as a table, the call's columns are its own `columns`
/// argument, or else those of the fact's hint, whatever the callee is called.
/// Without facts, a call to anything but `table` or `grid` is not a table.
pub proof fn lemma_hinted_wrapper_is_a_table(
    callee: Option<Seq<char>>,
    has_comments: bool,
    args: Seq<TableArg>,
    fact: FunctionFact,
    query: FunctionQuery,
)
    requires
        fact.callee_span is None,
        path_matches(fact, query),
        spec_formattable(has_comments, args),
    ensures
        spec_table_columns(callee, has_comments, args, seq![fact], query) == match spec_columns(
            args,
        ) {
            Some(c) => Some(c),
            None => fact.hint.spec_table_like_hint().columns,
        },
        !spec_is_table(callee) ==> spec_table_columns(
            callee,
            has_comments,
            args,
            Seq::<FunctionFact>::empty(),
            query,
        ) is None,
{
    let one = seq![fact];
    assert(one.drop_last() =~= Seq::<FunctionFact>::empty());
    assert(first_span_hint(one, query.callee_span) is None);
    assert(first_path_hint(one, query) == Some(fact.hint));
}


// ---------------------------------------------------------------------------
// Rows of a table

/// A positional argument of a table, and whether it is a header or footer.
pub struct PosArg<A> {
    pub arg: A,
    pub header_or_footer: bool,
}

/// The positional arguments among the arguments, in order, each marked
/// where it is a header or footer.
pub open spec fn spec_positional<A>(args: Seq<(A, TableArg)>) -> Seq<PosArg<A>>
    decreases args.len(),
{
    if args.len() == 0 {
        seq![]
    } else {
        let (a, model) = args.last();
        spec_positional(args.drop_last()) + match model {
            TableArg::Pos(callee) => seq![
                PosArg {
                    arg: a,
                    header_or_footer: callee matches Some(name) && header_or_footer(name@),
                },
            ],
            _ => seq![],
        }
    }
}

/// The positional arguments of a table, each with whether it is a header or
/// footer; `args` pairs each argument with what the layout reads of it.
pub fn positional_args<A>(args: Vec<(A, TableArg)>) -> (res: Vec<PosArg<A>>)
    ensures
        res@ == spec_positional(args@),
{
    let ghost all = args@;
    let n = args.len();
    let mut res: Vec<PosArg<A>> = Vec::new();
    let mut k: usize = 0;
    for pair in it: args.into_iter()
        invariant
            it.seq() == all,
            all.len() == n,
            k == it.index(),
            res@ == spec_positional(all.take(k as int)),
    {
        proof {
            assert(all.take(k + 1).drop_last() =~= all.take(k as int));
            assert(pair == all[k as int]);
        }
        let (arg, model) = pair;
        let header = is_header_or_footer(&model);
        if let TableArg::Pos(_) = model {
            res.push(PosArg { arg, header_or_footer: header });
        }
        proof {
            assert(res@ =~= spec_positional(all.take(k + 1)));
        }
        k = k + 1;
    }
    proof {
        assert(all.take(n as int) =~= all);
    }
    res
}

/// Reading the positional arguments from the left: the rows ended so far, and
/// the row not yet ended. A row ends when it has `columns` cells, and after a
/// header or footer.
pub open spec fn row_scan<A>(args: Seq<PosArg<A>>, columns: nat) -> (Seq<Seq<PosArg<A>>>, Seq<PosArg<A>>)
    decreases args.len(),
{
    if args.len() == 0 {
        (seq![], seq![])
    } else {
        let (rows, row) = row_scan(args.drop_last(), columns);
        let row1 = row.push(args.last());
        let (rows2, row2) = if row1.len() == columns {
            (rows.push(row1), seq![])
        } else {
            (rows, row1)
        };
        if args.last().header_or_footer {
            (rows2.push(row2), seq![])
        } else {
            (rows2, row2)
        }
    }
}

/// The rows of a table, the last one kept where it is not empty.
pub open spec fn spec_table_rows<A>(args: Seq<PosArg<A>>, columns: nat) -> Seq<Seq<PosArg<A>>> {
    let (rows, row) = row_scan(args, columns);
    if row.len() > 0 {
        rows.push(row)
    } else {
        rows
    }
}

/// The rows one after another.
pub open spec fn concat_rows<A>(rows: Seq<Seq<A>>) -> Seq<A>
    decreases rows.len(),
{
    if rows.len() == 0 {
        seq![]
    } else {
        concat_rows(rows.drop_last()) + rows.last()
    }
}

/// Group the positional arguments of a table into rows of `columns` cells,
/// each header or footer ending its row.
pub fn table_rows<A>(args: Vec<PosArg<A>>, columns: usize) -> (res: Vec<Vec<PosArg<A>>>)
    ensures
        res@.map_values(|r: Vec<PosArg<A>>| r@) == spec_table_rows(args@, columns as nat),
{
    let ghost all = args@;
    let n = args.len();
    let mut table: Vec<Vec<PosArg<A>>> = Vec::new();
    let mut row: Vec<PosArg<A>> = Vec::new();
    let mut k: usize = 0;
    for arg in it: args.into_iter()
        invariant
            it.seq() == all,
            all.len() == n,
            k == it.index(),
            ({
                let (rows, cur) = row_scan(all.take(k as int), columns as nat);
                &&& table@.map_values(|r: Vec<PosArg<A>>| r@) == rows
                &&& row@ == cur
            }),
    {
        proof {
            assert(all.take(k + 1).drop_last() =~= all.take(k as int));
            assert(arg == all[k as int]);
        }
        let is_boundary = arg.header_or_footer;
        row.push(arg);
        if row.len() == columns {
            let ghost before = table@;
            let mut full: Vec<PosArg<A>> = Vec::new();
            std::mem::swap(&mut full, &mut row);
            table.push(full);
            proof {
                assert(table@.map_values(|r: Vec<PosArg<A>>| r@) =~= before.map_values(
                    |r: Vec<PosArg<A>>| r@,
                ).push(full@));
            }
        }
        if is_boundary {
            let ghost before = table@;
            let mut ended: Vec<PosArg<A>> = Vec::new();
            std::mem::swap(&mut ended, &mut row);
            table.push(ended);
            proof {
                assert(table@.map_values(|r: Vec<PosArg<A>>| r@) =~= before.map_values(
                    |r: Vec<PosArg<A>>| r@,
                ).push(ended@));
            }
        }
        k = k + 1;
    }
    proof {
        assert(all.take(n as int) =~= all);
    }
    if row.len() > 0 {
        let ghost before = table@;
        table.push(row);
        proof {
            assert(table@.map_values(|r: Vec<PosArg<A>>| r@) =~= before.map_values(
                |r: Vec<PosArg<A>>| r@,
            ).push(row@));
        }
    }
    table
}

proof fn lemma_row_scan_props<A>(args: Seq<PosArg<A>>, columns: nat)
    ensures
        ({
            let (rows, row) = row_scan(args, columns);
            &&& concat_rows(rows) + row == args
            &&& columns > 0 ==> (forall|r: int|
                0 <= r < rows.len() ==> (#[trigger] rows[r]).len() <= columns)
            &&& columns > 0 ==> row.len() < columns
            &&& forall|r: int, c: int|
                0 <= r < rows.len() && 0 <= c < rows[r].len() - 1 ==> !(
                #[trigger] rows[r][c]).header_or_footer
            &&& forall|c: int| 0 <= c < row.len() ==> !(#[trigger] row[c]).header_or_footer
        }),
    decreases args.len(),
{
    if args.len() > 0 {
        lemma_row_scan_props(args.drop_last(), columns);
        let (rows, row) = row_scan(args.drop_last(), columns);
        let row1 = row.push(args.last());
        assert(concat_rows(rows.push(row1)) =~= concat_rows(rows) + row1) by {
            assert(rows.push(row1).drop_last() =~= rows);
        }
        assert(args.drop_last().push(args.last()) =~= args);
        assert(concat_rows(rows) + row1 =~= (concat_rows(rows) + row).push(args.last()));
        assert(concat_rows(rows) + row1 =~= args);
        let (rows2, row2) = if row1.len() == columns {
            (rows.push(row1), seq![])
        } else {
            (rows, row1)
        };
        assert(concat_rows(rows2.push(row2)) =~= concat_rows(rows2) + row2) by {
            assert(rows2.push(row2).drop_last() =~= rows2);
        }
        assert(concat_rows(rows2) + row2 =~= args);
        if args.last().header_or_footer {
            assert(concat_rows(rows2.push(row2)) + seq![] =~= args);
        }
    } else {
        assert(concat_rows(seq![]) + seq![] =~= args);
    }
}

/// Grouping into rows keeps every positional argument, in order; with a
/// positive number of columns no row has more; and a header or footer is
/// always the last cell of its row.
pub proof fn lemma_table_rows<A>(args: Seq<PosArg<A>>, columns: nat)
    ensures
        concat_rows(spec_table_rows(args, columns)) == args,
        columns > 0 ==> forall|r: int|
            0 <= r < spec_table_rows(args, columns).len() ==> (#[trigger] spec_table_rows(
                args,
                columns,
            )[r]).len() <= columns,
        forall|r: int, c: int|
            0 <= r < spec_table_rows(args, columns).len() && 0 <= c < spec_table_rows(
                args,
                columns,
            )[r].len() - 1 ==> !(#[trigger] spec_table_rows(args, columns)[r][c]).header_or_footer,
{
    lemma_row_scan_props(args, columns);
    let (rows, row) = row_scan(args, columns);
    if row.len() > 0 {
        assert(rows.push(row).drop_last() =~= rows);
        let all = rows.push(row);
        assert forall|r: int, c: int|
            0 <= r < all.len() && 0 <= c < all[r].len() - 1 implies !(
            #[trigger] all[r][c]).header_or_footer by {
            if r < rows.len() {
                assert(all[r] == rows[r]);
            }
        }
    } else {
        assert(row =~= seq![]);
        assert(concat_rows(rows) + row =~= concat_rows(rows));
    }
}

/// What follows the comma after a cell.
#[derive(Debug, Clone, Copy, PartialEq, Eq, Structural)]
pub enum CellBreak {
    /// A space, or a line break where the row does not fit on one line.
    Line,
    /// Nothing, or a line break where the row does not fit on one line.
    SoftLine,
    /// Nothing.
    Nothing,
}

/// A cell of a laid out row and what follows its comma.
pub struct LaidCell<A> {
    pub arg: A,
    pub after: CellBreak,
}

/// A laid out row: its cells, kept on one line where they fit, and whether
/// a line break follows it.
pub struct LaidRow<A> {
    pub cells: Vec<LaidCell<A>>,
    pub hardline_after: bool,
}

/// After the comma of cell `c` of `m` in row `r` of `n`: a line within the
/// row, a soft break after the last cell of all but the last row, else nothing.
pub open spec fn cell_break(c: int, m: int, r: int, n: int) -> CellBreak {
    if c + 1 < m {
        CellBreak::Line
    } else if r + 1 < n {
        CellBreak::SoftLine
    } else {
        CellBreak::Nothing
    }
}

/// `laid` is row `r` of `n`, holding `row`, laid out.
pub open spec fn laid_out_as<A>(laid: LaidRow<A>, row: Seq<A>, r: int, n: int) -> bool {
    &&& laid.hardline_after == (r + 1 < n)
    &&& laid.cells@.len() == row.len()
    &&& forall|c: int|
        0 <= c < row.len() ==> (#[trigger] laid.cells@[c]).arg == row[c] && laid.cells@[c].after
            == cell_break(c, row.len() as int, r, n)
}

/// Lay out the rows of a table: the cells of a row separated by lines, the
/// rows by line breaks.
pub fn lay_out_rows<A>(rows: Vec<Vec<A>>) -> (res: Vec<LaidRow<A>>)
    ensures
        res@.len() == rows@.len(),
        forall|r: int|
            0 <= r < rows@.len() ==> laid_out_as(
                #[trigger] res@[r],
                rows@[r]@,
                r,
                rows@.len() as int,
            ),
{
    let ghost all = rows@;
    let num_rows = rows.len();
    let mut out: Vec<LaidRow<A>> = Vec::new();
    let mut r: usize = 0;
    for row in it: rows.into_iter()
        invariant
            it.seq() == all,
            all.len() == num_rows,
            r == it.index(),
            out@.len() == r,
            forall|q: int| 0 <= q < r ==> laid_out_as(#[trigger] out@[q], all[q]@, q, num_rows as int),
    {
        let ghost cells_seq = row@;
        proof {
            assert(row == all[r as int]);
        }
        let num_cells = row.len();
        let mut cells: Vec<LaidCell<A>> = Vec::new();
        let mut c: usize = 0;
        for cell in it2: row.into_iter()
            invariant
                it2.seq() == cells_seq,
                cells_seq.len() == num_cells,
                c == it2.index(),
                r < num_rows,
                cells@.len() == c,
                forall|q: int|
                    0 <= q < c ==> (#[trigger] cells@[q]).arg == cells_seq[q] && cells@[q].after
                        == cell_break(q, num_cells as int, r as int, num_rows as int),
        {
            let after = if c + 1 < num_cells {
                CellBreak::Line
            } else if r + 1 < num_rows {
                CellBreak::SoftLine
            } else {
                CellBreak::Nothing
            };
            cells.push(LaidCell { arg: cell, after });
            c = c + 1;
        }
        out.push(LaidRow { cells, hardline_after: r + 1 < num_rows });
        r = r + 1;
    }
    out
}

/// Laid out rows print as lines of their own: a line break follows every row
/// but the last; each row holds its cells in order; within a row every cell
/// but the last is followed by a line (a space where the row fits), and the
/// last cell of every row but the last by a soft break, that of the last
/// row by nothing.
pub proof fn lemma_rows_are_lines<A>(rows: Seq<Seq<A>>, laid: Seq<LaidRow<A>>)
    requires
        laid.len() == rows.len(),
        forall|r: int| 0 <= r < rows.len() ==> laid_out_as(#[trigger] laid[r], rows[r], r, rows.len() as int),
    ensures
        forall|r: int| 0 <= r < laid.len() ==> (#[trigger] laid[r]).hardline_after == (r != laid.len() - 1),
        forall|r: int, c: int|
            0 <= r < laid.len() && 0 <= c < rows[r].len() ==> (#[trigger] laid[r].cells@[c]).arg == rows[r][c]
                && laid[r].cells@.len() == rows[r].len() && laid[r].cells@[c].after == if c < rows[r].len() - 1 {
                CellBreak::Line
            } else if r < laid.len() - 1 {
                CellBreak::SoftLine
            } else {
                CellBreak::Nothing
            },
{
    assert forall|r: int| 0 <= r < laid.len() implies (#[trigger] laid[r]).hardline_after == (r != laid.len() - 1) by {
        assert(laid_out_as(laid[r], rows[r], r, rows.len() as int));
    }
    assert forall|r: int, c: int|
        0 <= r < laid.len() && 0 <= c < rows[r].len() implies (#[trigger] laid[r].cells@[c]).arg == rows[r][c]
            && laid[r].cells@.len() == rows[r].len() && laid[r].cells@[c].after == if c < rows[r].len() - 1 {
            CellBreak::Line
        } else if r < laid.len() - 1 {
            CellBreak::SoftLine
        } else {
            CellBreak::Nothing
        } by {
        assert(laid_out_as(laid[r], rows[r], r, rows.len() as int));
    }
}

/// The positional arguments of a table in rows of `columns` cells, laid out.
pub fn table_layout<A>(args: Vec<PosArg<A>>, columns: usize) -> (res: Vec<LaidRow<PosArg<A>>>)
    ensures
        res@.len() == spec_table_rows(args@, columns as nat).len(),
        forall|r: int|
            0 <= r < res@.len() ==> laid_out_as(
                #[trigger] res@[r],
                spec_table_rows(args@, columns as nat)[r],
                r,
                res@.len() as int,
            ),
{
    let rows = table_rows(args, columns);
    proof {
        assert forall|r: int| 0 <= r < rows@.len() implies #[trigger] rows@[r]@ == spec_table_rows(
            args@,
            columns as nat,
        )[r] by {
            assert(rows@.map_values(|v: Vec<PosArg<A>>| v@)[r] == rows@[r]@);
        }
    }
    lay_out_rows(rows)
}


// ---------------------------------------------------------------------------
// The whole table

/// The named arguments among the arguments, in order.
pub open spec fn spec_named<A>(args: Seq<(A, TableArg)>) -> Seq<A>
    decreases args.len(),
{
    if args.len() == 0 {
        seq![]
    } else {
        spec_named(args.drop_last()) + if args.last().1 is Named {
            seq![args.last().0]
        } else {
            seq![]
        }
    }
}

/// The named arguments, in order, and the positional ones, each marked where
/// it is a header or footer; `args` pairs each argument with what the layout
/// reads of it.
pub fn split_table_args<A>(args: Vec<(A, TableArg)>) -> (res: (Vec<A>, Vec<PosArg<A>>))
    ensures
        res.0@ == spec_named(args@),
        res.1@ == spec_positional(args@),
{
    let ghost all = args@;
    let n = args.len();
    let mut named: Vec<A> = Vec::new();
    let mut pos: Vec<PosArg<A>> = Vec::new();
    let mut k: usize = 0;
    for pair in it: args.into_iter()
        invariant
            it.seq() == all,
            all.len() == n,
            k == it.index(),
            named@ == spec_named(all.take(k as int)),
            pos@ == spec_positional(all.take(k as int)),
    {
        proof {
            assert(all.take(k + 1).drop_last() =~= all.take(k as int));
            assert(pair == all[k as int]);
        }
        let (arg, model) = pair;
        let header = is_header_or_footer(&model);
        match model {
            TableArg::Pos(_) => {
                pos.push(PosArg { arg, header_or_footer: header });
            },
            TableArg::Named(_, _) => {
                named.push(arg);
            },
            TableArg::Spread => {},
        }
        proof {
            assert(named@ =~= spec_named(all.take(k + 1)));
            assert(pos@ =~= spec_positional(all.take(k + 1)));
        }
        k = k + 1;
    }
    proof {
        assert(all.take(n as int) =~= all);
    }
    (named, pos)
}

/// A table laid out: `(`, a line break, then, indented by `indent`, each
/// named argument on a line of its own followed by `,`, then the rows of the
/// positional arguments (each cell followed by `,` and its break, a line
/// break after each row but the last), then a line break and `)`.
pub struct TableDocument<A> {
    pub indent: usize,
    pub named: Vec<A>,
    pub rows: Vec<LaidRow<PosArg<A>>>,
}

/// Lay out the arguments of a table call of `columns` columns, indented by
/// `indent`: the named arguments first, in order, each on a line of its own,
/// then the positional ones in rows.
pub fn table_document<A>(args: Vec<(A, TableArg)>, columns: usize, indent: usize) -> (res:
    TableDocument<A>)
    ensures
        res.indent == indent,
        res.named@ == spec_named(args@),
        res.rows@.len() == spec_table_rows(spec_positional(args@), columns as nat).len(),
        forall|r: int|
            0 <= r < res.rows@.len() ==> laid_out_as(
                #[trigger] res.rows@[r],
                spec_table_rows(spec_positional(args@), columns as nat)[r],
                r,
                res.rows@.len() as int,
            ),
{
    let (named, pos) = split_table_args(args);
    let rows = table_layout(pos, columns);
    TableDocument { indent, named, rows }
}

} // verus!
