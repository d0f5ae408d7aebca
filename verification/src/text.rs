use vstd::prelude::*;
use unicode_width::UnicodeWidthStr;

verus! {

broadcast use vstd::string::group_string_axioms;

/// The characters of `s`, in order.
pub fn chars_of(s: &str) -> (res: Vec<char>)
    ensures
        res@ == s@,
{
    let mut res: Vec<char> = Vec::new();
    for c in it: s.chars()
        invariant
            res@ == it.seq().take(it.index() as int),
            it.seq() == s@,
    {
        res.push(c);
    }
    res
}

/// Whether two strings hold the same characters.
pub fn str_eq(a: &str, b: &str) -> (res: bool)
    ensures
        res == (a@ == b@),
{
    let ca = chars_of(a);
    let cb = chars_of(b);
    if ca.len() != cb.len() {
        return false;
    }
    let mut i: usize = 0;
    while i < ca.len()
        invariant
            ca@ == a@,
            cb@ == b@,
            ca.len() == cb.len(),
            i <= ca.len(),
            forall|k: int| 0 <= k < i ==> ca@[k] == cb@[k],
        decreases ca.len() - i,
    {
        if ca[i] != cb[i] {
            return false;
        }
        i = i + 1;
    }
    assert(a@ =~= b@);
    true
}

/// Names the display width, in columns, that `unicode-width` gives a string.
pub uninterp spec fn display_width(s: Seq<char>) -> usize;

/// Calls `UnicodeWidthStr::width` of `unicode-width`, the displayed width of a
/// string in columns (non-CJK context). The crate computes it from the
/// characters alone, so the result is named by `display_width` of them.
#[verifier::external_body]
pub(crate) fn str_display_width(s: &str) -> (w: usize)
    ensures
        w == display_width(s@),
{
    s.width()
}


/// Whether the text holds a line feed.
pub open spec fn has_linebreak_spec(s: Seq<char>) -> bool {
    s.contains('\n')
}

/// A line without the one carriage return that may end it.
pub open spec fn strip_cr(line: Seq<char>) -> Seq<char> {
    if line.len() > 0 && line.last() == '\r' {
        line.drop_last()
    } else {
        line
    }
}

/// Reading `s` from the left: the lines ended by a line feed so far, and the
/// text of the line not yet ended.
pub open spec fn line_scan(s: Seq<char>) -> (Seq<Seq<char>>, Seq<char>)
    decreases s.len(),
{
    if s.len() == 0 {
        (seq![], seq![])
    } else {
        let (done, cur) = line_scan(s.drop_last());
        if s.last() == '\n' {
            (done.push(strip_cr(cur)), seq![])
        } else {
            (done, cur.push(s.last()))
        }
    }
}

/// The lines of `s` as `str::lines` gives them: split at each `\n`, a `\r` just
/// before it dropped, and no empty last line after a final line feed.
pub open spec fn lines_of(s: Seq<char>) -> Seq<Seq<char>> {
    let (done, cur) = line_scan(s);
    if cur.len() > 0 {
        done.push(cur)
    } else {
        done
    }
}

/// The unfinished line of the scan is the text after the last line feed.
proof fn lemma_line_scan_cur(s: Seq<char>, start: int)
    requires
        0 <= start <= s.len(),
        start == 0 || s[start - 1] == '\n',
        forall|k: int| start <= k < s.len() ==> s[k] != '\n',
    ensures
        line_scan(s).1 == s.subrange(start, s.len() as int),
    decreases s.len(),
{
    if s.len() > 0 {
        if start == s.len() {
            assert(s.last() == '\n');
        } else {
            lemma_line_scan_cur(s.drop_last(), start);
            assert(s.subrange(start, s.len() as int) =~= s.drop_last().subrange(
                start,
                s.len() - 1,
            ).push(s.last()));
        }
    }
}

/// A text that is not empty has at least one line.
pub proof fn lemma_lines_nonempty(s: Seq<char>)
    requires
        s.len() > 0,
    ensures
        lines_of(s).len() > 0,
{
    let (done, cur) = line_scan(s.drop_last());
    if s.last() == '\n' {
        assert(line_scan(s).0.len() > 0);
    } else {
        assert(line_scan(s).1.len() > 0);
    }
}

/// Whether the text holds a line feed.
pub fn has_linebreak(s: &str) -> (res: bool)
    ensures
        res == has_linebreak_spec(s@),
{
    let cs = chars_of(s);
    let mut i: usize = 0;
    while i < cs.len()
        invariant
            cs@ == s@,
            i <= cs.len(),
            forall|k: int| 0 <= k < i ==> cs@[k] != '\n',
        decreases cs.len() - i,
    {
        if cs[i] == '\n' {
            assert(s@[i as int] == '\n');
            return true;
        }
        i = i + 1;
    }
    false
}

/// The lines of `s`, as `str::lines` splits them.
pub fn split_lines(s: &str) -> (res: Vec<String>)
    ensures
        res@.map_values(|l: String| l@) == lines_of(s@),
{
    let cs = chars_of(s);
    let n = cs.len();
    let mut res: Vec<String> = Vec::new();
    let mut start: usize = 0;
    let mut i: usize = 0;
    while i < n
        invariant
            cs@ == s@,
            n == cs.len(),
            start <= i <= n,
            start == 0 || cs@[start - 1] == '\n',
            forall|k: int| start <= k < i ==> cs@[k] != '\n',
            res@.map_values(|l: String| l@) == line_scan(s@.take(i as int)).0,
        decreases n - i,
    {
        let ghost prefix = s@.take(i as int);
        let ghost next = s@.take(i + 1);
        assert(next.drop_last() =~= prefix);
        if cs[i] == '\n' {
            proof {
                lemma_line_scan_cur(prefix, start as int);
                assert(prefix.subrange(start as int, i as int) =~= s@.subrange(start as int, i as int));
            }
            let end = if i > start && cs[i - 1] == '\r' { i - 1 } else { i };
            let line = s.substring_char(start, end).to_owned();
            proof {
                assert(line@ =~= strip_cr(s@.subrange(start as int, i as int)));
            }
            res.push(line);
            proof {
                assert(res@.map_values(|l: String| l@) =~= line_scan(prefix).0.push(line@));
            }
            start = i + 1;
        }
        i = i + 1;
    }
    proof {
        assert(s@.take(n as int) =~= s@);
        lemma_line_scan_cur(s@, start as int);
    }
    if start < n {
        let line = s.substring_char(start, n).to_owned();
        res.push(line);
        proof {
            assert(res@.map_values(|l: String| l@) =~= line_scan(s@).0.push(line@));
        }
    }
    res
}


// ---------------------------------------------------------------------------
// Halving indentation

/// The number of spaces that start the line.
pub open spec fn leading_spaces(line: Seq<char>) -> nat
    decreases line.len(),
{
    if line.len() > 0 && line[0] == ' ' {
        1 + leading_spaces(line.drop_first())
    } else {
        0
    }
}

/// The line with half its leading spaces (rounded down).
pub open spec fn halve_indent(line: Seq<char>) -> Seq<char> {
    let n = leading_spaces(line);
    Seq::new(n / 2, |i: int| ' ') + line.skip(n as int)
}

/// Each line with its indentation halved, and a line feed after it.
pub open spec fn joined_halved(lines: Seq<Seq<char>>) -> Seq<char>
    decreases lines.len(),
{
    if lines.len() == 0 {
        seq![]
    } else {
        joined_halved(lines.drop_last()) + halve_indent(lines.last()) + seq!['\n']
    }
}

/// The text with every line's indentation halved, each line (as `str::lines`
/// gives them) followed by a line feed: an indentation of four spaces a
/// level becomes one of two.
pub open spec fn indent_halved(s: Seq<char>) -> Seq<char> {
    joined_halved(lines_of(s))
}

proof fn lemma_leading_spaces(line: Seq<char>, k: int)
    requires
        0 <= k <= line.len(),
        forall|j: int| 0 <= j < k ==> line[j] == ' ',
        k == line.len() || line[k] != ' ',
    ensures
        leading_spaces(line) == k,
    decreases k,
{
    if k > 0 {
        let rest = line.drop_first();
        assert forall|j: int| 0 <= j < k - 1 implies rest[j] == ' ' by {
            assert(rest[j] == line[j + 1]);
        }
        if k < line.len() {
            assert(rest[k - 1] == line[k]);
        }
        lemma_leading_spaces(rest, k - 1);
    }
}

/// The number of spaces that start the line.
fn count_leading_spaces(line: &str) -> (n: usize)
    ensures
        n == leading_spaces(line@),
        n <= line@.len(),
{
    let cs = chars_of(line);
    let mut k: usize = 0;
    while k < cs.len() && cs[k] == ' '
        invariant
            cs@ == line@,
            k <= cs.len(),
            forall|j: int| 0 <= j < k ==> line@[j] == ' ',
        decreases cs.len() - k,
    {
        k = k + 1;
    }
    proof {
        lemma_leading_spaces(line@, k as int);
    }
    k
}

/// Halve the indentation of every line, as for a tree printed with four
/// spaces a level that should show two.
pub fn indent_4_to_2(s: &str) -> (res: String)
    ensures
        res@ == indent_halved(s@),
{
    let lines = split_lines(s);
    let ghost ls = lines_of(s@);
    let sp = " ";
    let nl = "\n";
    proof {
        reveal_strlit(" ");
        reveal_strlit("\n");
    }
    let mut out = String::new();
    let mut i: usize = 0;
    while i < lines.len()
        invariant
            i <= lines@.len(),
            lines@.map_values(|l: String| l@) == ls,
            sp@ == seq![' '],
            nl@ == seq!['\n'],
            out@ == joined_halved(ls.take(i as int)),
        decreases lines@.len() - i,
    {
        let line = lines[i].as_str();
        proof {
            assert(line@ == ls[i as int]);
            assert(ls.take(i + 1).drop_last() =~= ls.take(i as int));
        }
        let n = count_leading_spaces(line);
        let ghost before = out@;
        let mut k: usize = 0;
        while k < n / 2
            invariant
                k <= n / 2,
                sp@ == seq![' '],
                out@ == before + Seq::new(k as nat, |j: int| ' '),
            decreases n / 2 - k,
        {
            out.append(sp);
            proof {
                assert(out@ =~= before + Seq::new((k + 1) as nat, |j: int| ' '));
            }
            k = k + 1;
        }
        let len = line.unicode_len();
        let rest = line.substring_char(n, len);
        out.append(rest);
        out.append(nl);
        proof {
            assert(rest@ =~= line@.skip(n as int));
            assert(out@ =~= before + halve_indent(ls[i as int]) + seq!['\n']);
        }
        i = i + 1;
    }
    proof {
        assert(ls.take(lines@.len() as int) =~= ls);
    }
    out
}

} // verus!
