// Runs of the command line over files, decided by the library: each file's
// text and what rendering gives for it lead to what is done with the file and
// to how the run ends. The formatted texts are given here, as the formatter
// would produce them; the syntax check is the library's own.
use typstyle::check_syntax;
use typstyle::cli::{
    format_result, output_plan, run_step, CliArguments, FileOutcome, DebugArgs, ExitStatus, FormatResult,
    FormatSummary, OutputPlan, Printed, StyleArgs,
};

fn run_args(inplace: bool, check: bool, diff: bool) -> CliArguments {
    CliArguments {
        inplace,
        check,
        diff,
        style: StyleArgs { line_width: None, indent_width: None, no_reorder_import_items: false, wrap_text: false },
        debug: DebugArgs { ast: false, pretty_doc: false, timing: false },
    }
}

/// Each file is a text and the formatted text that rendering gives it; a text
/// with syntax errors is refused before it is rendered.
fn run(files: &[(&str, &str)], args: &CliArguments) -> (Vec<(FormatResult, OutputPlan)>, ExitStatus) {
    let mut summary = FormatSummary::new();
    let mut plans = Vec::new();
    for (content, formatted) in files {
        let rendered = check_syntax(content).map(|()| formatted.to_string());
        let res = format_result(content, rendered);
        let plan = output_plan(&res, false, args);
        summary.record(Some(&res));
        plans.push((res, plan));
    }
    (plans, typstyle::cli::format(args, &summary).unwrap())
}

fn nothing() -> OutputPlan {
    OutputPlan { write_back: false, report_reformat: false, show_diff: false, print: Printed::Nothing, warn_erroneous: false }
}

fn printed(p: Printed) -> OutputPlan {
    OutputPlan { print: p, ..nothing() }
}

#[test]
fn changed_file_is_printed() {
    let (plans, status) = run(&[("#let a  =  0", "#let a = 0\n")], &run_args(false, false, false));
    assert_eq!(plans[0].0, FormatResult::Formatted("#let a = 0\n".to_string()));
    assert_eq!(plans[0].1, printed(Printed::Formatted));
    assert_eq!(status, ExitStatus::Success);
}

#[test]
fn changed_file_in_place_is_written_back() {
    let (plans, status) = run(&[("#let a  =  0", "#let a = 0\n")], &run_args(true, false, false));
    assert_eq!(plans[0].0, FormatResult::Formatted("#let a = 0\n".to_string()));
    assert_eq!(plans[0].1, OutputPlan { write_back: true, ..nothing() });
    assert_eq!(status, ExitStatus::Success);
}

#[test]
fn erroneous_file_is_printed_as_it_was_and_warned_about() {
    let (plans, status) = run(&[("#let", "#let\n")], &run_args(false, false, false));
    assert_eq!(plans[0].0, FormatResult::Erroneous);
    assert_eq!(plans[0].1, OutputPlan { print: Printed::Original, warn_erroneous: true, ..nothing() });
    assert_eq!(status, ExitStatus::Success);
}

#[test]
fn erroneous_file_in_place_is_left_and_warned_about() {
    let (plans, status) = run(&[("#let", "#let\n")], &run_args(true, false, false));
    assert_eq!(plans[0].0, FormatResult::Erroneous);
    assert_eq!(plans[0].1, OutputPlan { warn_erroneous: true, ..nothing() });
    assert_eq!(status, ExitStatus::Success);
}

#[test]
fn check_of_a_changed_file_reports_it_and_fails() {
    let (plans, status) = run(&[("#let a  =  0", "#let a = 0\n")], &run_args(false, true, false));
    assert_eq!(plans[0].1, OutputPlan { report_reformat: true, ..nothing() });
    assert_eq!(status, ExitStatus::Failure);
}

const A_DONE: (&str, &str) = ("#let a = 0\n", "#let a = 0\n");
const A_TODO: (&str, &str) = ("#let a  =  0\n", "#let a = 0\n");
const B_DONE: (&str, &str) = ("#let b = 1\n", "#let b = 1\n");
const B_TODO: (&str, &str) = ("#let b  =  1\n", "#let b = 1\n");

#[test]
fn formatted_files_are_printed_as_they_are() {
    let (plans, status) = run(&[A_DONE, B_DONE], &run_args(false, false, false));
    assert_eq!(plans[0].1, printed(Printed::Original));
    assert_eq!(plans[1].1, printed(Printed::Original));
    assert_eq!(status, ExitStatus::Success);
}

#[test]
fn formatted_and_changed_files_are_printed() {
    let (plans, status) = run(&[A_DONE, B_TODO], &run_args(false, false, false));
    assert_eq!(plans[0].1, printed(Printed::Original));
    assert_eq!(plans[1].1, printed(Printed::Formatted));
    assert_eq!(status, ExitStatus::Success);
}

#[test]
fn changed_files_are_printed_formatted() {
    let (plans, status) = run(&[A_TODO, B_TODO], &run_args(false, false, false));
    assert_eq!(plans[0].1, printed(Printed::Formatted));
    assert_eq!(plans[1].1, printed(Printed::Formatted));
    assert_eq!(status, ExitStatus::Success);
}

#[test]
fn in_place_leaves_formatted_files_alone() {
    let (plans, status) = run(&[A_DONE, B_DONE], &run_args(true, false, false));
    assert_eq!(plans[0].1, nothing());
    assert_eq!(plans[1].1, nothing());
    assert_eq!(status, ExitStatus::Success);
}

#[test]
fn in_place_writes_back_the_changed_file() {
    let (plans, status) = run(&[A_DONE, B_TODO], &run_args(true, false, false));
    assert_eq!(plans[0].1, nothing());
    assert_eq!(plans[1].0, FormatResult::Formatted("#let b = 1\n".to_string()));
    assert_eq!(plans[1].1, OutputPlan { write_back: true, ..nothing() });
    assert_eq!(status, ExitStatus::Success);
}

#[test]
fn in_place_writes_back_both_changed_files() {
    let (plans, status) = run(&[A_TODO, B_TODO], &run_args(true, false, false));
    assert_eq!(plans[0].0, FormatResult::Formatted("#let a = 0\n".to_string()));
    assert_eq!(plans[0].1, OutputPlan { write_back: true, ..nothing() });
    assert_eq!(plans[1].1, OutputPlan { write_back: true, ..nothing() });
    assert_eq!(status, ExitStatus::Success);
}

#[test]
fn check_of_formatted_files_succeeds() {
    let (plans, status) = run(&[A_DONE, B_DONE], &run_args(false, true, false));
    assert_eq!(plans[0].1, nothing());
    assert_eq!(plans[1].1, nothing());
    assert_eq!(status, ExitStatus::Success);
}

#[test]
fn check_with_one_changed_file_fails() {
    let (plans, status) = run(&[A_DONE, B_TODO], &run_args(false, true, false));
    assert_eq!(plans[0].1, nothing());
    assert_eq!(plans[1].1, OutputPlan { report_reformat: true, ..nothing() });
    assert_eq!(status, ExitStatus::Failure);
}

#[test]
fn check_with_two_changed_files_fails() {
    let (plans, status) = run(&[A_TODO, B_TODO], &run_args(false, true, false));
    assert_eq!(plans[0].1, OutputPlan { report_reformat: true, ..nothing() });
    assert_eq!(plans[1].1, OutputPlan { report_reformat: true, ..nothing() });
    assert_eq!(status, ExitStatus::Failure);
}

#[test]
fn diff_of_a_changed_line_fails_the_run() {
    let (plans, status) = run(&[("#let x=1+2", "#let x = 1 + 2\n")], &run_args(false, false, true));
    assert_eq!(plans[0].0, FormatResult::Formatted("#let x = 1 + 2\n".to_string()));
    assert_eq!(plans[0].1, OutputPlan { show_diff: true, ..nothing() });
    assert_eq!(status, ExitStatus::Failure);
}

#[test]
fn diff_of_changed_lines_fails_the_run() {
    let (plans, status) = run(&[("#let x=1\n#let y=2+3", "#let x = 1\n#let y = 2 + 3\n")], &run_args(false, false, true));
    assert_eq!(plans[0].1, OutputPlan { show_diff: true, ..nothing() });
    assert_eq!(status, ExitStatus::Failure);
}

#[test]
fn a_project_that_cannot_be_loaded_stops_the_run() {
    let mut summary = FormatSummary::new();
    assert!(run_step(&mut summary, &FileOutcome::Done(FormatResult::Unchanged)));
    assert!(run_step(&mut summary, &FileOutcome::Done(FormatResult::Formatted("x".to_string()))));
    assert!(run_step(&mut summary, &FileOutcome::IoFailed));
    assert_eq!(summary, FormatSummary { format_count: 1, unchanged_count: 2, error_count: 1 });
    assert!(!run_step(&mut summary, &FileOutcome::ProjectUnreadable));
    assert_eq!(summary, FormatSummary { format_count: 1, unchanged_count: 2, error_count: 1 });
}
