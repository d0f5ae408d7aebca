use typstyle::cli::{
    format_result, format_stdin, make_typstyle, num_files, output_plan, CliArguments,
    DebugArgs, ExitStatus, FormatFailure, FormatMode, FormatResult, FormatSummary, Printed,
    StyleArgs,
};
use typstyle::project::ProjectConfig;
use typstyle::{Config, Error, FormatFacts, FunctionFact, FunctionHint, Typstyle};

fn style() -> StyleArgs {
    StyleArgs { line_width: None, indent_width: None, no_reorder_import_items: false, wrap_text: false }
}

fn args(inplace: bool, check: bool, diff: bool) -> CliArguments {
    CliArguments {
        inplace,
        check,
        diff,
        style: style(),
        debug: DebugArgs { ast: false, pretty_doc: false, timing: false },
    }
}

#[test]
fn command_line_style_overrides_config() {
    let s = StyleArgs { line_width: Some(20), indent_width: Some(4), no_reorder_import_items: true, wrap_text: true };
    let c = s.apply_to_config(Config::new());
    assert_eq!(c.max_width, 20);
    assert_eq!(c.tab_spaces, 4);
    assert!(!c.reorder_import_items);
    assert!(c.wrap_text && c.collapse_markup_spaces);
    assert_eq!(style().apply_to_config(Config::new()), Config::new());
}

#[test]
fn mode_from_flags() {
    assert_eq!(FormatMode::from_cli(&args(false, true, true)), FormatMode::Check);
    assert_eq!(FormatMode::from_cli(&args(false, false, true)), FormatMode::Diff);
    assert_eq!(FormatMode::from_cli(&args(true, false, false)), FormatMode::Write);
}

#[test]
fn outcome_of_rendering() {
    assert_eq!(format_result("#let a = 0\n", Ok("#let a = 0\n".to_string())), FormatResult::Unchanged);
    assert_eq!(
        format_result("#let a  =  0", Ok("#let a = 0\n".to_string())),
        FormatResult::Formatted("#let a = 0\n".to_string())
    );
    assert_eq!(format_result("#let", Err(Error::SyntaxError)), FormatResult::Erroneous);
    assert_eq!(format_result("#let a = 0", Err(Error::RenderError)), FormatResult::Erroneous);
}

#[test]
fn what_to_do_with_a_formatted_file() {
    let formatted = FormatResult::Formatted("x".to_string());
    assert!(output_plan(&formatted, false, &args(true, false, false)).write_back);
    assert!(output_plan(&formatted, false, &args(false, true, false)).report_reformat);
    assert!(!output_plan(&formatted, true, &args(false, true, false)).report_reformat);
    assert!(output_plan(&formatted, false, &args(false, false, true)).show_diff);
    assert_eq!(output_plan(&formatted, false, &args(false, false, false)).print, Printed::Formatted);
    let unchanged = output_plan(&FormatResult::Unchanged, false, &args(false, false, false));
    assert_eq!(unchanged.print, Printed::Original);
    let erroneous = output_plan(&FormatResult::Erroneous, false, &args(true, false, false));
    assert_eq!(erroneous.print, Printed::Nothing);
    assert!(erroneous.warn_erroneous);
}

#[test]
fn stdin_exit_status() {
    let formatted = FormatResult::Formatted("x".to_string());
    assert_eq!(format_stdin(&args(false, true, false), &formatted), ExitStatus::Failure);
    assert_eq!(format_stdin(&args(false, false, true), &formatted), ExitStatus::Failure);
    assert_eq!(format_stdin(&args(false, false, false), &formatted), ExitStatus::Success);
    assert_eq!(format_stdin(&args(false, true, false), &FormatResult::Unchanged), ExitStatus::Success);
}

#[test]
fn run_over_files() {
    let mut summary = FormatSummary::new();
    summary.record(Some(&FormatResult::Unchanged));
    summary.record(Some(&FormatResult::Formatted("y".to_string())));
    summary.record(Some(&FormatResult::Erroneous));
    assert_eq!(summary.format_count, 1);
    assert_eq!(summary.unchanged_count, 2);
    assert_eq!(typstyle::cli::format(&args(false, false, false), &summary), Ok(ExitStatus::Success));
    assert_eq!(typstyle::cli::format(&args(false, true, false), &summary), Ok(ExitStatus::Failure));
    assert_eq!(typstyle::cli::format(&args(false, false, true), &summary), Ok(ExitStatus::Failure));
    summary.record(None);
    assert_eq!(summary.error_count, 1);
    assert_eq!(summary.unchanged_count, 3);
    assert_eq!(typstyle::cli::format(&args(false, true, false), &summary), Err(FormatFailure::IoErrors(1)));
    assert_eq!(FormatFailure::IoErrors(1).message(), "failed to format 1 file due to IO error");
    let empty = FormatSummary::new();
    assert_eq!(typstyle::cli::format(&args(false, true, false), &empty), Ok(ExitStatus::Success));
}

#[test]
fn counting_files() {
    assert_eq!(num_files(0), "0 file");
    assert_eq!(num_files(1), "1 file");
    assert_eq!(num_files(2), "2 files");
    assert_eq!(num_files(120), "120 files");
    assert_eq!(num_files(usize::MAX), format!("{} files", usize::MAX));
}

#[test]
fn formatter_from_project_and_command_line() {
    let mut a = args(false, false, false);
    a.style.line_width = Some(40);
    let facts = FormatFacts::new().with_function_fact(FunctionFact::by_name("t", FunctionHint::table_like(None)));
    let project = ProjectConfig { config: Config::new(), facts: facts.clone() };
    let t = make_typstyle(&a, project);
    assert_eq!(t.config().max_width, 40);
    assert_eq!(t.experimental_facts(), &facts);
    let d = Typstyle::default();
    assert_eq!(d.config(), &Config::new());
    let n = Typstyle::new(Config::new()).with_experimental_facts(facts.clone());
    assert_eq!(n.experimental_facts(), &facts);
}

#[test]
fn hidden_entries() {
    assert!(typstyle::cli::is_hidden_name(".git"));
    assert!(typstyle::cli::is_hidden_name("."));
    assert!(!typstyle::cli::is_hidden_name("a.typ"));
    assert!(!typstyle::cli::is_hidden_name(""));
}
