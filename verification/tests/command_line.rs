use rgrank::cli::{
    help_text, parse_args_from, parse_color_mode, parse_short_string_inline,
    parse_short_usize_inline, parse_string_inline, parse_string_value, parse_usize_inline,
    parse_usize_value, CaseMode, Cli, ColorMode, MatchMode, ParseOutcome, SearchOutputMode,
    HELP_SUMMARY, VERSION_TEXT,
};
use rgrank::run::{run, RunStep};

fn owned(args: &[&str]) -> Vec<String> {
    args.iter().map(|argument| (*argument).to_owned()).collect()
}

fn parse_test_cli(args: &[&str]) -> Cli {
    match parse_args_from(owned(args)).expect("parse args") {
        ParseOutcome::Cli(cli) => cli,
        ParseOutcome::Help => panic!("expected cli parse result, got help"),
        ParseOutcome::Version => panic!("expected cli parse result, got version"),
    }
}

fn parse_error(args: &[&str]) -> String {
    match parse_args_from(owned(args)) {
        Ok(_) => panic!("expected an error"),
        Err(message) => message,
    }
}

#[test]
fn parse_args_accepts_files_mode_without_query() {
    let cli = parse_test_cli(&["--files", "./hypotheses"]);
    assert!(cli.files_mode);
    assert!(cli.query.is_none());
    assert_eq!(cli.roots, vec!["./hypotheses".to_owned()]);
    assert_eq!(cli.match_mode, MatchMode::Regex);
    assert_eq!(cli.case_mode, CaseMode::Smart);
}

#[test]
fn parse_args_accepts_fixed_strings_mode() {
    let cli = parse_test_cli(&["-F", "cortisol level", "./hypotheses"]);
    assert!(!cli.files_mode);
    assert_eq!(cli.query.as_deref(), Some("cortisol level"));
    assert_eq!(cli.match_mode, MatchMode::FixedStrings);
}

#[test]
fn parse_args_accepts_common_rg_flags() {
    let cli = parse_test_cli(&[
        "--debug", "-i", "-L", "-g*.rs", "-tpy", "-Tjson", "-A2", "-B1", "-w", "-x", "-c",
        "python", ".",
    ]);
    assert_eq!(cli.case_mode, CaseMode::Insensitive);
    assert_eq!(cli.globs, vec!["*.rs".to_owned()]);
    assert_eq!(cli.type_names, vec!["py".to_owned()]);
    assert_eq!(cli.type_not_names, vec!["json".to_owned()]);
    assert_eq!(cli.before_context, 1);
    assert_eq!(cli.after_context, 2);
    assert!(cli.debug);
    assert!(cli.word_regexp);
    assert!(cli.line_regexp);
    assert!(cli.follow_links);
    assert_eq!(cli.output_mode, SearchOutputMode::Count);
}

#[test]
fn parse_args_accepts_long_files_without_match_flag() {
    let cli = parse_test_cli(&["--files-without-match", "python", "."]);
    assert_eq!(cli.output_mode, SearchOutputMode::FilesWithoutMatch);
}

#[test]
fn parse_args_accepts_ranked_all_flag() {
    let cli = parse_test_cli(&["--ranked", "--all", "timeout", "."]);
    assert_eq!(cli.output_mode, SearchOutputMode::Ranked);
    assert!(cli.show_all);
}

#[test]
fn parse_args_accepts_version_flag() {
    let outcome = parse_args_from(vec!["--version".to_owned()]).expect("parse args");
    assert!(matches!(outcome, ParseOutcome::Version));
}

#[test]
fn help_text_includes_version_banner() {
    let help = help_text();
    assert!(help.starts_with(&format!("{VERSION_TEXT}: {HELP_SUMMARY}")));
}

#[test]
fn defaults_are_as_told_in_the_help() {
    let cli = parse_test_cli(&["timeout"]);
    assert_eq!(cli.roots, vec![".".to_owned()]);
    assert_eq!(cli.output_mode, SearchOutputMode::Standard);
    assert_eq!(cli.top_k, 5);
    assert_eq!(cli.max_candidate_lines, 500);
    assert_eq!(cli.max_snippets, 3);
    assert_eq!(cli.before_context, 0);
    assert_eq!(cli.after_context, 0);
    assert!(!cli.context_explicit);
    assert!(!cli.line_numbers);
    assert!(!cli.hidden);
    assert!(!cli.no_ignore);
    assert_eq!(cli.color_mode, ColorMode::Auto);
}

#[test]
fn every_switch_is_read() {
    let cli = parse_test_cli(&[
        "-s", "-n", "--column", "--heading", "--hidden", "--no-ignore", "--follow-links", "q",
    ]);
    assert_eq!(cli.case_mode, CaseMode::Sensitive);
    assert!(cli.line_numbers);
    assert!(cli.show_column);
    assert!(cli.heading);
    assert!(cli.hidden);
    assert!(cli.no_ignore);
    assert!(cli.follow_links);
    assert!(!parse_test_cli(&["--heading", "--no-heading", "q"]).heading);
    assert_eq!(parse_test_cli(&["-i", "-S", "q"]).case_mode, CaseMode::Smart);
    assert_eq!(parse_test_cli(&["--json", "q"]).output_mode, SearchOutputMode::Json);
    assert_eq!(parse_test_cli(&["-l", "q"]).output_mode, SearchOutputMode::FilesWithMatches);
}

#[test]
fn values_are_read_in_every_form() {
    let apart = parse_test_cli(&[
        "-k", "7", "-m", "8", "--max-snippets", "9", "--glob", "*.rs", "--color", "always", "q",
    ]);
    let inline = parse_test_cli(&[
        "--top-k=7", "--max-candidate-lines=8", "--max-snippets=9", "--glob=*.rs",
        "--color=always", "q",
    ]);
    for cli in [apart, inline] {
        assert_eq!(cli.top_k, 7);
        assert_eq!(cli.max_candidate_lines, 8);
        assert_eq!(cli.max_snippets, 9);
        assert_eq!(cli.globs, vec!["*.rs".to_owned()]);
        assert_eq!(cli.color_mode, ColorMode::Always);
    }
    let typed = parse_test_cli(&["--type=py", "--type-not", "json", "q"]);
    assert_eq!(typed.type_names, vec!["py".to_owned()]);
    assert_eq!(typed.type_not_names, vec!["json".to_owned()]);
}

#[test]
fn context_is_the_same_as_before_and_after() {
    let both = parse_test_cli(&["-C", "3", "q"]);
    let each = parse_test_cli(&["-A", "3", "-B", "3", "q"]);
    for cli in [both, each, parse_test_cli(&["-C3", "q"]), parse_test_cli(&["--context=3", "q"])] {
        assert_eq!(cli.before_context, 3);
        assert_eq!(cli.after_context, 3);
        assert!(cli.context_explicit);
    }
}

#[test]
fn flags_behind_the_separator_are_positional() {
    let cli = parse_test_cli(&["--", "-n", "--json"]);
    assert_eq!(cli.query.as_deref(), Some("-n"));
    assert_eq!(cli.roots, vec!["--json".to_owned()]);
    assert!(!cli.line_numbers);
}

#[test]
fn errors_say_what_is_wrong() {
    assert_eq!(parse_error(&[]), format!("missing query\n\n{}", help_text()));
    assert_eq!(parse_error(&["  "]), "query must not be empty");
    assert_eq!(parse_error(&["--nope"]), format!("unknown flag: --nope\n\n{}", help_text()));
    assert_eq!(parse_error(&["q", "-k"]), "missing value for -k");
    assert_eq!(parse_error(&["-k", "x", "q"]), "invalid numeric value for -k: x");
    assert_eq!(parse_error(&["--top-k=x", "q"]), "invalid numeric value for --top-k=: x");
    assert_eq!(parse_error(&["-Ax", "q"]), "invalid numeric value for -A: x");
    assert_eq!(parse_error(&["--color", "red", "q"]), "invalid value for --color: red");
    assert_eq!(parse_error(&["q", "--glob"]), "missing value for --glob");
}

#[test]
fn single_values_are_read() {
    assert_eq!(parse_usize_value(Some("12".to_owned()), "-k"), Ok(12));
    assert_eq!(parse_usize_value(Some("+12".to_owned()), "-k"), Ok(12));
    assert_eq!(parse_usize_value(None, "-k"), Err("missing value for -k".to_owned()));
    assert!(parse_usize_value(Some("".to_owned()), "-k").is_err());
    assert!(parse_usize_value(Some("99999999999999999999999".to_owned()), "-k").is_err());
    assert_eq!(parse_string_value(Some("x".to_owned()), "-g"), Ok("x".to_owned()));
    assert_eq!(parse_usize_inline("--top-k=4", "--top-k="), Ok(4));
    assert_eq!(
        parse_usize_inline("--nope", "--top-k="),
        Err("invalid flag syntax: --nope".to_owned())
    );
    assert_eq!(parse_string_inline("--glob=a", "--glob="), Ok("a".to_owned()));
    assert_eq!(
        parse_string_inline("--nope", "--glob="),
        Err("invalid flag syntax: --nope".to_owned())
    );
    assert_eq!(parse_short_usize_inline("-A4", "-A"), Ok(4));
    assert_eq!(parse_short_string_inline("-ga", "-g"), Ok("a".to_owned()));
    assert_eq!(parse_color_mode("never"), Ok(ColorMode::Never));
    assert_eq!(parse_color_mode("auto"), Ok(ColorMode::Auto));
}

#[test]
fn run_prints_help_and_version() {
    match run(owned(&["-h"])).expect("help") {
        RunStep::Done(outcome) => {
            assert_eq!(outcome.output, help_text());
            assert_eq!(outcome.exit_code, 0);
        }
        RunStep::Search(_) => panic!("expected help"),
    }
    match run(owned(&["-v"])).expect("version") {
        RunStep::Done(outcome) => {
            assert_eq!(outcome.output, "rgrank 0.1.0");
            assert_eq!(outcome.exit_code, 0);
        }
        RunStep::Search(_) => panic!("expected version"),
    }
    match run(owned(&["needle", "src"])).expect("search") {
        RunStep::Search(cli) => assert_eq!(cli.query.as_deref(), Some("needle")),
        RunStep::Done(_) => panic!("expected a search"),
    }
    assert!(run(owned(&["--nope"])).is_err());
}
