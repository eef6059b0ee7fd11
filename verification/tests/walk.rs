use rgrank::cli::{parse_args_from, Cli, ParseOutcome};
use rgrank::walk::{build_walk_builder, is_too_deep, MAX_GLOB_BRACES, TOO_DEEP};

fn test_cli(args: &[&str]) -> Cli {
    let args = args.iter().map(|argument| (*argument).to_owned()).collect();
    match parse_args_from(args).expect("parse args") {
        ParseOutcome::Cli(cli) => cli,
        _ => panic!("expected a command line"),
    }
}

fn walk_text(args: &[&str]) -> String {
    let cli = test_cli(args);
    let exist = vec![true; cli.roots.len()];
    match build_walk_builder(&cli, &exist) {
        Ok(builder) => format!("{builder:?}"),
        Err(message) => panic!("{message}"),
    }
}

fn walk_error(args: &[&str]) -> String {
    let cli = test_cli(args);
    let exist = vec![true; cli.roots.len()];
    match build_walk_builder(&cli, &exist) {
        Ok(_) => panic!("expected an error"),
        Err(message) => message,
    }
}

#[test]
fn walk_goes_through_all_roots() {
    let walk = walk_text(&["q", "left", "right"]);
    assert!(walk.contains("paths: [\"left\", \"right\"]"));
    assert!(walk.contains("follow_links: false"));
    assert!(walk.contains("hidden: true"));
    assert!(walk.contains("git_ignore: true"));
    assert!(walk.contains("require_git: false"));
}

#[test]
fn walk_does_what_switches_say() {
    assert!(walk_text(&["-L", "q"]).contains("follow_links: true"));
    assert!(walk_text(&["--hidden", "q"]).contains("hidden: false"));
    let walk = walk_text(&["--no-ignore", "q"]);
    for setting in
        ["parents: false", " ignore: false", "git_ignore: false", "git_global: false", "git_exclude: false"]
    {
        assert!(walk.contains(setting), "{setting}");
    }
}

#[test]
fn walk_heeds_globs_and_types() {
    assert!(walk_text(&["-g", "*.rs", "q"]).contains("*.rs"));
    assert_ne!(walk_text(&["-t", "py", "q"]), walk_text(&["q"]));
    assert_ne!(walk_text(&["-T", "py", "q"]), walk_text(&["q"]));
    assert_ne!(walk_text(&["-T", "py", "q"]), walk_text(&["-t", "py", "q"]));
}

#[test]
fn walk_errors_say_what_is_wrong() {
    let cli = test_cli(&["q", "here", "gone", "lost"]);
    let error = build_walk_builder(&cli, &vec![true, false, false]).err().expect("error");
    assert_eq!(error, "search root does not exist: gone");
    assert!(walk_error(&["-g", "[a", "q"]).contains("[a"));
    assert_eq!(walk_error(&["-t", "nope", "q"]), "unrecognized file type: nope");
    assert_eq!(walk_error(&["-T", "nope", "q"]), "unrecognized file type: nope");
}

#[test]
fn globs_too_deep_in_braces_are_refused() {
    let nested = |depth: usize| format!("{}a{}", "{".repeat(depth), "}".repeat(depth));
    assert!(walk_text(&["-g", &nested(3), "q"]).contains("{{{a}}}"));
    assert!(!is_too_deep(&nested(MAX_GLOB_BRACES)));
    assert_ne!(walk_error(&["-g", &nested(MAX_GLOB_BRACES), "q"]), TOO_DEEP);
    assert_eq!(walk_error(&["-g", &nested(MAX_GLOB_BRACES + 1), "q"]), TOO_DEEP);
    assert_eq!(walk_error(&["-g", &nested(1_000_000), "q"]), TOO_DEEP);
    let comment = format!("#{}", nested(MAX_GLOB_BRACES + 1));
    assert!(!is_too_deep(&comment));
    walk_text(&["-g", &comment, "q"]);
}
