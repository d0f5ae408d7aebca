//! The decisions of the command line: which options win, what to do with a
//! formatted file, and how a run ends.
use vstd::prelude::*;

use crate::config::Config;
use crate::project::ProjectConfig;
use crate::text::str_eq;
use crate::{Error, Typstyle};

verus! {

broadcast use vstd::string::group_string_axioms;

/// Style options given on the command line; each overrides the configuration.
#[derive(Debug, Clone, Copy, PartialEq, Eq, Structural)]
pub struct StyleArgs {
    pub line_width: Option<usize>,
    pub indent_width: Option<usize>,
    pub no_reorder_import_items: bool,
    pub wrap_text: bool,
}

/// What to print for debugging.
#[derive(Debug, Clone, Copy, PartialEq, Eq, Structural)]
pub struct DebugArgs {
    /// Print the syntax tree.
    pub ast: bool,
    /// Print the pretty document.
    pub pretty_doc: bool,
    /// Print how long formatting took.
    pub timing: bool,
}

/// The command line options that decide what a run does.
#[derive(Debug, Clone, Copy, PartialEq, Eq, Structural)]
pub struct CliArguments {
    /// Write the formatted text back to the files.
    pub inplace: bool,
    /// Only check that the files are formatted.
    pub check: bool,
    /// Show what formatting would change.
    pub diff: bool,
    pub style: StyleArgs,
    pub debug: DebugArgs,
}

#[derive(Debug, Clone, Copy, PartialEq, Eq, Structural)]
pub enum FormatMode {
    /// Write the formatted contents back to the file.
    Write,
    /// Check if the file is formatted, but do not write the formatted contents back.
    Check,
    /// Show unified diff of what formatting changes would be made.
    Diff,
}

/// How a run ends.
#[derive(Debug, Clone, Copy, PartialEq, Eq, Structural)]
pub enum ExitStatus {
    Success,
    Failure,
}

/// The outcome of formatting one text.
#[derive(Debug, Clone, PartialEq, Eq)]
pub enum FormatResult {
    /// The text changes; the formatted text.
    Formatted(String),
    /// The text is already formatted.
    Unchanged,
    /// The text has syntax errors or could not be rendered.
    Erroneous,
}

impl StyleArgs {
    /// The configuration with the options given on the command line put over it.
    pub open spec fn spec_apply(self, config: Config) -> Config {
        let c1 = match self.line_width {
            Some(w) => Config { max_width: w, ..config },
            None => config,
        };
        let c2 = match self.indent_width {
            Some(w) => Config { tab_spaces: w, ..c1 },
            None => c1,
        };
        let c3 = if self.no_reorder_import_items {
            Config { reorder_import_items: false, ..c2 }
        } else {
            c2
        };
        if self.wrap_text {
            Config { wrap_text: true, collapse_markup_spaces: true, ..c3 }
        } else {
            c3
        }
    }

    pub fn apply_to_config(&self, config: Config) -> (res: Config)
        ensures
            res == self.spec_apply(config),
    {
        let mut config = config;
        if let Some(line_width) = self.line_width {
            config.max_width = line_width;
        }
        if let Some(indent_width) = self.indent_width {
            config.tab_spaces = indent_width;
        }
        if self.no_reorder_import_items {
            config.reorder_import_items = false;
        }
        if self.wrap_text {
            config.wrap_text = true;
            config.collapse_markup_spaces = true;
        }
        config
    }
}

/// Options given on the command line win over the configuration, and those
/// not given leave it as it is; wrapping text also collapses spaces.
pub proof fn lemma_style_args_override(style: StyleArgs, config: Config)
    ensures
        style.line_width matches Some(w) ==> style.spec_apply(config).max_width == w,
        style.line_width is None ==> style.spec_apply(config).max_width == config.max_width,
        style.indent_width matches Some(w) ==> style.spec_apply(config).tab_spaces == w,
        style.indent_width is None ==> style.spec_apply(config).tab_spaces == config.tab_spaces,
        style.spec_apply(config).blank_lines_upper_bound == config.blank_lines_upper_bound,
        style.spec_apply(config).reorder_import_items == (config.reorder_import_items
            && !style.no_reorder_import_items),
        style.spec_apply(config).wrap_text == (config.wrap_text || style.wrap_text),
        style.spec_apply(config).collapse_markup_spaces == (config.collapse_markup_spaces
            || style.wrap_text),
        style.spec_apply(style.spec_apply(config)) == style.spec_apply(config),
{
}

impl FormatMode {
    pub open spec fn spec_from_cli(cli: CliArguments) -> FormatMode {
        if cli.check {
            FormatMode::Check
        } else if cli.diff {
            FormatMode::Diff
        } else {
            FormatMode::Write
        }
    }

    /// `--check` wins over `--diff`; without either, files are written.
    pub fn from_cli(cli: &CliArguments) -> (res: Self)
        ensures
            res == FormatMode::spec_from_cli(*cli),
    {
        if cli.check {
            FormatMode::Check
        } else if cli.diff {
            FormatMode::Diff
        } else {
            FormatMode::Write
        }
    }
}

/// The outcome of rendering a text: erroneous where rendering failed,
/// unchanged where the rendered text is the text itself, else formatted.
pub fn format_result(content: &str, rendered: Result<String, Error>) -> (res: FormatResult)
    ensures
        match rendered {
            Err(_) => res == FormatResult::Erroneous,
            Ok(r) => if r@ == content@ {
                res == FormatResult::Unchanged
            } else {
                res == FormatResult::Formatted(r)
            },
        },
{
    match rendered {
        Err(_) => FormatResult::Erroneous,
        Ok(res) => {
            if !str_eq(res.as_str(), content) {
                FormatResult::Formatted(res)
            } else {
                FormatResult::Unchanged
            }
        },
    }
}

/// What to print for one text.
#[derive(Debug, Clone, Copy, PartialEq, Eq, Structural)]
pub enum Printed {
    Nothing,
    /// The formatted text.
    Formatted,
    /// The text as it was read.
    Original,
}

/// What to do with one formatted text.
#[derive(Debug, Clone, Copy, PartialEq, Eq, Structural)]
pub struct OutputPlan {
    /// Write the formatted text back to its file.
    pub write_back: bool,
    /// Report that the file would be reformatted.
    pub report_reformat: bool,
    /// Show the changes as a unified diff.
    pub show_diff: bool,
    pub print: Printed,
    /// Warn that the text could not be parsed.
    pub warn_erroneous: bool,
}

/// What to do with the outcome: a changed text is written back in place,
/// reported (for a file) in check mode, shown as a diff in diff mode, else
/// printed; a text left as it is, or erroneous, is printed as it was when
/// printing to standard output, and an erroneous one is warned about.
pub open spec fn spec_output_plan(res: FormatResult, from_stdin: bool, args: CliArguments) -> OutputPlan {
    let use_stdout = !args.inplace && !args.check && !args.diff;
    let nothing = OutputPlan {
        write_back: false,
        report_reformat: false,
        show_diff: false,
        print: Printed::Nothing,
        warn_erroneous: false,
    };
    match res {
        FormatResult::Formatted(_) => if args.inplace {
            OutputPlan { write_back: true, ..nothing }
        } else if args.check {
            OutputPlan { report_reformat: !from_stdin, ..nothing }
        } else if args.diff {
            OutputPlan { show_diff: true, ..nothing }
        } else {
            OutputPlan { print: Printed::Formatted, ..nothing }
        },
        FormatResult::Unchanged => OutputPlan {
            print: if use_stdout {
                Printed::Original
            } else {
                Printed::Nothing
            },
            ..nothing
        },
        FormatResult::Erroneous => OutputPlan {
            print: if use_stdout {
                Printed::Original
            } else {
                Printed::Nothing
            },
            warn_erroneous: true,
            ..nothing
        },
    }
}

/// What a plan does follows the mode: a text (formatted or as it was) is
/// printed exactly when none of in-place, check and diff is on, and the text
/// printed is the formatted one when it changes; a changed text is written
/// back only in place, reported only in check mode (and only for a file),
/// and shown as a diff only in diff mode (without in place or check); only
/// an erroneous text is warned about.
pub proof fn lemma_plan_follows_the_mode(res: FormatResult, from_stdin: bool, args: CliArguments)
    ensures
        ({
            let plan = spec_output_plan(res, from_stdin, args);
            let to_stdout = !args.inplace && !args.check && !args.diff;
            &&& (plan.print != Printed::Nothing) == to_stdout
            &&& plan.print == Printed::Formatted ==> res is Formatted
            &&& (to_stdout && res is Formatted) ==> plan.print == Printed::Formatted
            &&& plan.write_back == (args.inplace && res is Formatted)
            &&& plan.report_reformat == (!args.inplace && args.check && !from_stdin && res is Formatted)
            &&& plan.show_diff == (!args.inplace && !args.check && args.diff && res is Formatted)
            &&& plan.warn_erroneous == (res is Erroneous)
        }),
{
}

/// What to do with the outcome of formatting one file, or the standard input.
pub fn output_plan(res: &FormatResult, from_stdin: bool, args: &CliArguments) -> (plan: OutputPlan)
    requires
        !(args.inplace && from_stdin),
    ensures
        plan == spec_output_plan(*res, from_stdin, *args),
{
    let use_stdout = !args.inplace && !args.check && !args.diff;
    let mut plan = OutputPlan {
        write_back: false,
        report_reformat: false,
        show_diff: false,
        print: Printed::Nothing,
        warn_erroneous: false,
    };
    match res {
        FormatResult::Formatted(_) => {
            if args.inplace {
                plan.write_back = true;
            } else if args.check {
                plan.report_reformat = !from_stdin;
            } else if args.diff {
                plan.show_diff = true;
            } else {
                plan.print = Printed::Formatted;
            }
        },
        FormatResult::Unchanged => {
            if use_stdout {
                plan.print = Printed::Original;
            }
        },
        FormatResult::Erroneous => {
            if use_stdout {
                plan.print = Printed::Original;
            }
            plan.warn_erroneous = true;
        },
    }
    plan
}

/// How formatting the standard input ends: with failure where a check or a
/// diff finds the text changes, else with success.
pub fn format_stdin(args: &CliArguments, res: &FormatResult) -> (status: ExitStatus)
    ensures
        status == if res is Formatted && (args.check || args.diff) {
            ExitStatus::Failure
        } else {
            ExitStatus::Success
        },
{
    match res {
        FormatResult::Formatted(_) if args.check || args.diff => ExitStatus::Failure,
        _ => ExitStatus::Success,
    }
}

/// The counts of a run over files: reformatted, left as they were, and
/// failed for reading or writing (which also count as left as they were).
#[derive(Debug, Clone, Copy, PartialEq, Eq, Structural)]
pub struct FormatSummary {
    pub format_count: usize,
    pub unchanged_count: usize,
    pub error_count: usize,
}

impl FormatSummary {
    pub fn new() -> (res: Self)
        ensures
            res == (FormatSummary { format_count: 0, unchanged_count: 0, error_count: 0 }),
    {
        FormatSummary { format_count: 0, unchanged_count: 0, error_count: 0 }
    }

    /// Count one file: its outcome, or `None` where reading or writing it failed.
    pub fn record(&mut self, outcome: Option<&FormatResult>)
        requires
            old(self).format_count < usize::MAX,
            old(self).unchanged_count < usize::MAX,
            old(self).error_count < usize::MAX,
        ensures
            final(self).format_count == old(self).format_count + if outcome matches Some(
                FormatResult::Formatted(_),
            ) {
                1int
            } else {
                0int
            },
            final(self).unchanged_count == old(self).unchanged_count + if outcome matches Some(
                FormatResult::Formatted(_),
            ) {
                0int
            } else {
                1int
            },
            final(self).error_count == old(self).error_count + if outcome is None {
                1int
            } else {
                0int
            },
    {
        match outcome {
            Some(FormatResult::Formatted(_)) => {
                self.format_count = self.format_count + 1;
            },
            Some(_) => {
                self.unchanged_count = self.unchanged_count + 1;
            },
            None => {
                self.error_count = self.error_count + 1;
                self.unchanged_count = self.unchanged_count + 1;
            },
        }
    }
}

/// What became of one file of a run over files.
pub enum FileOutcome {
    /// The project configuration that applies to it could not be loaded.
    ProjectUnreadable,
    /// It could not be read or written.
    IoFailed,
    /// It was formatted, with this outcome.
    Done(FormatResult),
}

/// The counts after one more file, where it was counted.
pub open spec fn counted(s: FormatSummary, outcome: FileOutcome) -> FormatSummary {
    match outcome {
        FileOutcome::ProjectUnreadable => s,
        FileOutcome::IoFailed => FormatSummary {
            unchanged_count: (s.unchanged_count + 1) as usize,
            error_count: (s.error_count + 1) as usize,
            ..s
        },
        FileOutcome::Done(FormatResult::Formatted(_)) => FormatSummary {
            format_count: (s.format_count + 1) as usize,
            ..s
        },
        FileOutcome::Done(_) => FormatSummary { unchanged_count: (s.unchanged_count + 1) as usize, ..s },
    }
}

/// One step of a run over files: a file whose project configuration could
/// not be loaded stops the run, uncounted; any other is counted, and the run
/// goes on.
pub fn run_step(summary: &mut FormatSummary, outcome: &FileOutcome) -> (go_on: bool)
    requires
        old(summary).format_count < usize::MAX,
        old(summary).unchanged_count < usize::MAX,
        old(summary).error_count < usize::MAX,
    ensures
        go_on == !(*outcome is ProjectUnreadable),
        *final(summary) == counted(*old(summary), *outcome),
{
    match outcome {
        FileOutcome::ProjectUnreadable => false,
        FileOutcome::IoFailed => {
            summary.record(None);
            true
        },
        FileOutcome::Done(res) => {
            summary.record(Some(res));
            true
        },
    }
}

/// Why a run over files failed.
#[derive(Debug, Clone, Copy, PartialEq, Eq, Structural)]
pub enum FormatFailure {
    /// So many files could not be read or written.
    IoErrors(usize),
}

/// How a run over files ends: an error where some file could not be read or
/// written; else failure where a check or a diff finds a file that changes;
/// else success.
pub fn format(args: &CliArguments, summary: &FormatSummary) -> (res: Result<ExitStatus, FormatFailure>)
    ensures
        summary.error_count > 0 ==> res == Err::<ExitStatus, FormatFailure>(
            FormatFailure::IoErrors(summary.error_count),
        ),
        summary.error_count == 0 ==> res == Ok::<ExitStatus, FormatFailure>(
            if !(FormatMode::spec_from_cli(*args) is Write) && summary.format_count > 0 {
                ExitStatus::Failure
            } else {
                ExitStatus::Success
            },
        ),
{
    let mode = FormatMode::from_cli(args);
    if summary.error_count > 0 {
        return Err(FormatFailure::IoErrors(summary.error_count));
    }
    Ok(
        match mode {
            FormatMode::Check if summary.format_count > 0 => ExitStatus::Failure,
            FormatMode::Diff if summary.format_count > 0 => ExitStatus::Failure,
            _ => ExitStatus::Success,
        },
    )
}

/// The formatter for a run: the project's options with those of the command
/// line put over them, and the project's facts.
pub fn make_typstyle(args: &CliArguments, project: ProjectConfig) -> (res: Typstyle)
    ensures
        res.spec_config() == args.style.spec_apply(project.config),
        res.spec_facts() == project.facts@,
{
    let config = args.style.apply_to_config(project.config);
    Typstyle::new(config).with_experimental_facts(project.facts)
}

/// Whether a directory entry is hidden: its name starts with a dot. Hidden
/// entries are left out when walking a directory for Typst files.
pub fn is_hidden_name(name: &str) -> (res: bool)
    ensures
        res == (name@.len() > 0 && name@[0] == '.'),
{
    let mut it = name.chars();
    match it.next() {
        Some(c) => c == '.',
        None => false,
    }
}

// ---------------------------------------------------------------------------
// Counting files in words

/// The decimal digits of `n`.
pub open spec fn decimal(n: nat) -> Seq<char>
    decreases n,
{
    if n < 10 {
        seq![digit_char(n)]
    } else {
        decimal(n / 10) + seq![digit_char(n % 10)]
    }
}

/// The character of a digit.
pub open spec fn digit_char(d: nat) -> char {
    if d == 0 {
        '0'
    } else if d == 1 {
        '1'
    } else if d == 2 {
        '2'
    } else if d == 3 {
        '3'
    } else if d == 4 {
        '4'
    } else if d == 5 {
        '5'
    } else if d == 6 {
        '6'
    } else if d == 7 {
        '7'
    } else if d == 8 {
        '8'
    } else {
        '9'
    }
}

/// The digits of `n`, most significant first.
fn digits_of(n: usize) -> (res: Vec<usize>)
    ensures
        res@.len() > 0,
        forall|k: int| 0 <= k < res@.len() ==> #[trigger] res@[k] < 10,
        res@.map_values(|d: usize| digit_char(d as nat)) == decimal(n as nat),
    decreases n,
{
    if n < 10 {
        let mut res: Vec<usize> = Vec::new();
        res.push(n);
        proof {
            assert(res@.map_values(|d: usize| digit_char(d as nat)) =~= decimal(n as nat));
        }
        res
    } else {
        let mut res = digits_of(n / 10);
        let ghost before = res@;
        res.push(n % 10);
        proof {
            assert(res@.map_values(|d: usize| digit_char(d as nat)) =~= before.map_values(
                |d: usize| digit_char(d as nat),
            ) + seq![digit_char((n % 10) as nat)]);
        }
        res
    }
}

/// `n` in decimal.
pub fn decimal_string(n: usize) -> (res: String)
    ensures
        res@ == decimal(n as nat),
{
    let digits = digits_of(n);
    let names: [&str; 10] = ["0", "1", "2", "3", "4", "5", "6", "7", "8", "9"];
    proof {
        reveal_strlit("0");
        reveal_strlit("1");
        reveal_strlit("2");
        reveal_strlit("3");
        reveal_strlit("4");
        reveal_strlit("5");
        reveal_strlit("6");
        reveal_strlit("7");
        reveal_strlit("8");
        reveal_strlit("9");
        assert forall|d: int| 0 <= d < 10 implies (#[trigger] names@[d])@ == seq![
            digit_char(d as nat),
        ] by {
            if d == 0 {
                assert(names@[0]@ == "0"@);
            } else if d == 1 {
                assert(names@[1]@ == "1"@);
            } else if d == 2 {
                assert(names@[2]@ == "2"@);
            } else if d == 3 {
                assert(names@[3]@ == "3"@);
            } else if d == 4 {
                assert(names@[4]@ == "4"@);
            } else if d == 5 {
                assert(names@[5]@ == "5"@);
            } else if d == 6 {
                assert(names@[6]@ == "6"@);
            } else if d == 7 {
                assert(names@[7]@ == "7"@);
            } else if d == 8 {
                assert(names@[8]@ == "8"@);
            } else {
                assert(names@[9]@ == "9"@);
            }
        }
    }
    let mut res = String::new();
    let mut k: usize = 0;
    while k < digits.len()
        invariant
            k <= digits@.len(),
            forall|m: int| 0 <= m < digits@.len() ==> #[trigger] digits@[m] < 10,
            forall|d: int| 0 <= d < 10 ==> (#[trigger] names@[d])@ == seq![digit_char(d as nat)],
            res@ == digits@.map_values(|d: usize| digit_char(d as nat)).take(k as int),
        decreases digits@.len() - k,
    {
        let d = digits[k];
        res.append(names[d]);
        proof {
            assert(res@ =~= digits@.map_values(|d: usize| digit_char(d as nat)).take(k + 1));
        }
        k = k + 1;
    }
    proof {
        assert(digits@.map_values(|d: usize| digit_char(d as nat)).take(digits@.len() as int)
            =~= digits@.map_values(|d: usize| digit_char(d as nat)));
    }
    res
}

/// `n file`, or `n files` for more than one.
pub open spec fn spec_num_files(n: nat) -> Seq<char> {
    decimal(n) + if n > 1 {
        " files"@
    } else {
        " file"@
    }
}

/// The number of files in words: `1 file`, `3 files`.
pub fn num_files(num: usize) -> (res: String)
    ensures
        res@ == spec_num_files(num as nat),
{
    let mut res = decimal_string(num);
    if num > 1 {
        res.append(" files");
    } else {
        res.append(" file");
    }
    res
}

impl FormatFailure {
    /// What the failure says.
    pub fn message(&self) -> (res: String)
        ensures
            match *self {
                FormatFailure::IoErrors(n) => res@ == "failed to format "@ + spec_num_files(n as nat)
                    + " due to IO error"@,
            },
    {
        match self {
            FormatFailure::IoErrors(n) => {
                let mut m = "failed to format ".to_owned();
                let files = num_files(*n);
                m.append(files.as_str());
                m.append(" due to IO error");
                m
            },
        }
    }
}

} // verus!
