use std::path::Path;

use rgrank::around::search_around;
use rgrank::blocks::event_runs;
use rgrank::bytes::{cut_text, is_cut, trim_line_ending, trim_line_ending_bytes};
use rgrank::candidate::FilePath;
use rgrank::cli::{CaseMode, Cli, ColorMode, MatchMode, SearchOutputMode};
use rgrank::json::{
    does_result_cut, do_matches_fit, execute_json_search, json_duration, json_escape,
    json_optional_u64, render_json_submatches, rendered_bytes, JsonDuration, JsonSearchResult,
};
use rgrank::matcher::find_submatches;
use rgrank::run::{execute_cli, search_task, SearchResults, SearchTask};
use rgrank::search::{
    execute_standard_search, prepare_search, read_file_lines, search_file_events,
    search_file_json, search_target,
};
use rgrank::sinks::{JsonFileResult, MatchEvent, SearchEnd};
use rgrank::stream::is_unbroken;
use rgrank::standard::{
    color_enabled, do_events_fit, highlight_text, render_standard_output,
    show_path_in_standard_output, Surroundings,
};

type TestFile = (&'static str, Vec<u8>);

fn test_cli(query: &str, output_mode: SearchOutputMode) -> Cli {
    Cli {
        query: Some(query.to_owned()),
        roots: vec!["root".to_owned()],
        files_mode: false,
        debug: false,
        match_mode: MatchMode::Regex,
        case_mode: CaseMode::Smart,
        output_mode,
        show_all: false,
        top_k: 5,
        max_candidate_lines: 500,
        before_context: 0,
        after_context: 0,
        context_explicit: false,
        max_snippets: 3,
        globs: Vec::new(),
        type_names: Vec::new(),
        type_not_names: Vec::new(),
        line_numbers: false,
        show_column: false,
        heading: false,
        color_mode: ColorMode::Never,
        word_regexp: false,
        line_regexp: false,
        hidden: false,
        no_ignore: false,
        follow_links: false,
    }
}

fn name_parts(name: &str) -> (Option<&str>, Option<&str>) {
    let path = Path::new(name);
    (
        path.file_name().and_then(|part| part.to_str()),
        path.extension().and_then(|part| part.to_str()),
    )
}

fn events_of(cli: &Cli, files: &[TestFile]) -> Vec<MatchEvent> {
    let prepared = prepare_search(cli).expect("prepared");
    let capture = cli.show_column || color_enabled(cli, false);
    let found = files
        .iter()
        .enumerate()
        .map(|(rank, (name, content))| {
            let (file_name, extension) = name_parts(name);
            let path = FilePath { text: (*name).to_owned(), rank };
            search_target(&prepared.matcher, file_name, extension, content.clone(), &Vec::new())
                .ok()
                .map(|found| search_file_events(&prepared.matcher, &path, capture, &found))
        })
        .collect();
    execute_standard_search(found)
}

fn lines_of(files: &[TestFile], events: &Vec<MatchEvent>) -> Vec<Option<Vec<String>>> {
    event_runs(events)
        .iter()
        .map(|(start, _)| {
            let (name, content) = &files[events[*start].path.rank];
            let (file_name, extension) = name_parts(name);
            read_file_lines(file_name, extension, content.clone(), &Vec::new()).ok()
        })
        .collect()
}

fn standard(cli: &Cli, files: &[TestFile], single_file: bool) -> String {
    let events = events_of(cli, files);
    assert!(do_events_fit(&events));
    let lines = lines_of(files, &events);
    let around = Surroundings { first_root_is_file: single_file, stdout_is_terminal: false };
    render_standard_output(&events, cli, &around, &lines)
}

fn no_time() -> JsonDuration {
    json_duration(0, 0, "0.000000s".to_owned())
}

fn json_results(cli: &Cli, files: &[TestFile]) -> Vec<JsonFileResult> {
    let prepared = prepare_search(cli).expect("prepared");
    files
        .iter()
        .enumerate()
        .map(|(rank, (name, content))| {
            let (file_name, extension) = name_parts(name);
            let path = FilePath { text: (*name).to_owned(), rank };
            search_file_json(
                &prepared,
                cli,
                &path,
                file_name,
                extension,
                content.clone(),
                &Vec::new(),
            )
            .expect("search")
            .into_result(no_time())
        })
        .collect()
}

fn json(cli: &Cli, files: &[TestFile]) -> JsonSearchResult {
    let results = json_results(cli, files);
    assert!(do_matches_fit(&results));
    assert!(results.iter().all(does_result_cut));
    execute_json_search(files.len(), results, &no_time())
}

#[test]
fn standard_output_omits_path_for_single_file_by_default() {
    let files = [("sample.txt", b"zero\none hit\ntwo\n".to_vec())];
    let cli = test_cli("hit", SearchOutputMode::Standard);
    assert_eq!(standard(&cli, &files, true), "one hit");
}

#[test]
fn standard_output_context_uses_rg_style_separators() {
    let files = [("sample.txt", b"zero\none hit\ntwo\n".to_vec())];
    let cli = Cli {
        before_context: 1,
        after_context: 1,
        context_explicit: true,
        ..test_cli("hit", SearchOutputMode::Standard)
    };
    assert_eq!(standard(&cli, &files, true), "1-zero\n2:one hit\n3-two");
}

#[test]
fn run_returns_no_match_exit_code_for_standard_search() {
    let files = [("sample.txt", b"bar\n".to_vec())];
    let cli = test_cli("foo", SearchOutputMode::Standard);
    let events = events_of(&cli, &files);
    let lines = lines_of(&files, &events);
    let around = Surroundings { first_root_is_file: true, stdout_is_terminal: false };
    let outcome = execute_cli(&cli, &around, Ok(SearchResults::Standard(events, lines))).expect("outcome");
    assert_eq!(outcome.exit_code, 1);
    assert!(outcome.output.is_empty());
}

#[test]
fn json_output_includes_rg_style_events_and_offsets() {
    let files = [("sample.txt", b"zero\none hit\ntwo\n".to_vec())];
    let cli = Cli {
        before_context: 1,
        after_context: 1,
        context_explicit: true,
        ..test_cli("hit", SearchOutputMode::Json)
    };
    let result = json(&cli, &files);
    assert!(result.had_match);
    let output = result.output;
    assert!(output.contains("\"type\":\"begin\""));
    assert!(output.contains("\"type\":\"context\""));
    assert!(output.contains("\"type\":\"match\""));
    assert!(output.contains("\"type\":\"end\""));
    assert!(output.contains("\"type\":\"summary\""));
    assert!(output.contains("\"absolute_offset\":5"));
}

#[test]
fn json_output_reports_summary_for_no_match() {
    let files = [("sample.txt", b"bar\n".to_vec())];
    let cli = test_cli("foo", SearchOutputMode::Json);
    let result = json(&cli, &files);
    assert!(!result.had_match);
    let output = result.output;
    assert!(!output.contains("\"type\":\"begin\""));
    assert!(output.contains("\"type\":\"summary\""));
    assert!(output.contains("\"searches\":1"));
    assert!(output.contains("\"searches_with_match\":0"));
}

#[test]
fn json_objects_are_written_exactly() {
    let files = [("a \"b\".txt", b"one hit\n".to_vec())];
    let output = json(&test_cli("hit", SearchOutputMode::Json), &files).output;
    let lines: Vec<&str> = output.split('\n').collect();
    assert_eq!(lines.len(), 4);
    assert_eq!(
        lines[0],
        "{\"type\":\"begin\",\"data\":{\"path\":{\"text\":\"a \\\"b\\\".txt\"}}}"
    );
    assert_eq!(
        lines[1],
        "{\"type\":\"match\",\"data\":{\"path\":{\"text\":\"a \\\"b\\\".txt\"},\
         \"lines\":{\"text\":\"one hit\\n\"},\"line_number\":1,\"absolute_offset\":0,\
         \"submatches\":[{\"match\":{\"text\":\"hit\"},\"start\":4,\"end\":7}]}}"
    );
    let elapsed = "{\"secs\":0,\"nanos\":0,\"human\":\"0.000000s\"}";
    let end = |bytes: usize| {
        format!(
            "{{\"type\":\"end\",\"data\":{{\"path\":{{\"text\":\"a \\\"b\\\".txt\"}},\
             \"binary_offset\":null,\"stats\":{{\"elapsed\":{elapsed},\"searches\":1,\
             \"searches_with_match\":1,\"bytes_searched\":8,\"bytes_printed\":{bytes},\
             \"matched_lines\":1,\"matches\":1}}}}}}"
        )
    };
    let opening = lines[0].len() + lines[1].len() + 2;
    let told = opening + end(opening).len() + 1;
    assert_eq!(lines[2], end(told));
    let printed = opening + lines[2].len() + 1;
    assert_eq!(
        lines[3],
        format!(
            "{{\"data\":{{\"elapsed_total\":{elapsed},\"stats\":{{\"bytes_printed\":{printed},\
             \"bytes_searched\":8,\"elapsed\":{elapsed},\"matched_lines\":1,\"matches\":1,\
             \"searches\":1,\"searches_with_match\":1}}}},\"type\":\"summary\"}}"
        )
    );
}

#[test]
fn json_counts_every_match() {
    let files = [
        ("a.txt", b"hit hit\nhit\n".to_vec()),
        ("b.txt", b"none\n".to_vec()),
        ("c.txt", b"hit\n".to_vec()),
    ];
    let output = json(&test_cli("hit", SearchOutputMode::Json), &files).output;
    let summary = output.split('\n').last().expect("summary");
    assert!(summary.contains("\"matched_lines\":3"));
    assert!(summary.contains("\"matches\":4"));
    assert!(summary.contains("\"searches\":3"));
    assert!(summary.contains("\"searches_with_match\":2"));
    assert!(summary.contains("\"bytes_searched\":21"));
}

#[test]
fn json_tells_of_binary_content() {
    let files = [("a.bin", b"hit\nmore\n\0rest\n".to_vec())];
    let results = json_results(&test_cli("hit", SearchOutputMode::Json), &files);
    assert_eq!(results[0].binary_offset, Some(9));
    assert_eq!(json_optional_u64(results[0].binary_offset), "9");
}

#[test]
fn json_strings_are_escaped() {
    assert_eq!(json_escape("a\"b\\c\n\r\t"), "a\\\"b\\\\c\\n\\r\\t");
    assert_eq!(json_escape("\u{1}\u{1f}\u{7f}\u{9f}"), "\\u0001\\u001f\\u007f\\u009f");
    assert_eq!(json_escape("gr\u{fc}n \u{1F600}"), "gr\u{fc}n \u{1F600}");
    assert_ne!(json_escape("\n"), json_escape("\\n"));
}

#[test]
fn json_pieces_are_written_exactly() {
    assert_eq!(json_optional_u64(None), "null");
    assert_eq!(
        json_duration(3, 41, "3.000000s".to_owned()).render(),
        "{\"secs\":3,\"nanos\":41,\"human\":\"3.000000s\"}"
    );
    assert_eq!(
        render_json_submatches("gr\u{fc}n", &vec![(0, 2), (2, 4)]),
        "{\"match\":{\"text\":\"gr\"},\"start\":0,\"end\":2},\
         {\"match\":{\"text\":\"\u{fc}\"},\"start\":2,\"end\":4}"
    );
    assert_eq!(rendered_bytes(&Vec::new()), 0);
    assert_eq!(rendered_bytes(&vec!["ab".to_owned(), "\u{fc}".to_owned()]), 6);
}

#[test]
fn texts_are_cut_between_characters() {
    assert!(is_cut("gr\u{fc}n", 2, 4));
    assert!(!is_cut("gr\u{fc}n", 2, 3));
    assert!(!is_cut("gr\u{fc}n", 2, 9));
    assert_eq!(cut_text("gr\u{fc}n", 2, 4), "\u{fc}");
    assert_eq!(cut_text("gr\u{fc}n", 0, 5), "gr\u{fc}n");
}

#[test]
fn paths_and_numbers_are_shown_as_asked() {
    let files = [
        ("a.txt", b"one hit\n".to_vec()),
        ("b.txt", b"zero\nhit two\n".to_vec()),
    ];
    let cli = test_cli("hit", SearchOutputMode::Standard);
    assert_eq!(standard(&cli, &files, false), "a.txt:one hit\nb.txt:hit two");
    let numbers = Cli { line_numbers: true, ..cli.clone() };
    assert_eq!(standard(&numbers, &files, false), "a.txt:1:one hit\nb.txt:2:hit two");
    let column = Cli { show_column: true, ..cli.clone() };
    assert_eq!(standard(&column, &files, false), "a.txt:1:5:one hit\nb.txt:2:1:hit two");
    let heading = Cli { heading: true, line_numbers: true, ..cli };
    assert_eq!(standard(&heading, &files, false), "a.txt\n1:one hit\n\nb.txt\n2:hit two");
    assert_eq!(standard(&heading, &files[..1], true), "1:one hit");
}

#[test]
fn blocks_are_set_apart() {
    let files = [("a.txt", b"hit\n2\n3\n4\nhit\nhit\n".to_vec())];
    let cli = Cli {
        after_context: 1,
        context_explicit: true,
        ..test_cli("hit", SearchOutputMode::Standard)
    };
    assert_eq!(standard(&cli, &files, true), "1:hit\n2-2\n--\n5:hit\n6:hit");
    let heading = Cli { heading: true, ..cli };
    assert_eq!(
        standard(&heading, &files, false),
        "a.txt\n1:hit\n2-2\n--\n5:hit\n6:hit"
    );
}

#[test]
fn matches_are_shown_where_the_file_is_gone() {
    let files = [("a.txt", b"one hit\ntwo\nhit\n".to_vec())];
    let cli = Cli { before_context: 3, ..test_cli("hit", SearchOutputMode::Standard) };
    let events = events_of(&cli, &files);
    let around = Surroundings { first_root_is_file: false, stdout_is_terminal: false };
    assert_eq!(
        render_standard_output(&events, &cli, &around, &vec![None]),
        "a.txt:1:one hit\na.txt:3:hit"
    );
}

#[test]
fn matches_are_coloured() {
    assert_eq!(highlight_text("one hit", &Vec::new()), "one hit");
    assert_eq!(highlight_text("one hit!", &vec![(4, 7)]), "one \u{1b}[31mhit\u{1b}[0m!");
    assert_eq!(
        highlight_text("aba", &vec![(0, 1), (2, 3)]),
        "\u{1b}[31ma\u{1b}[0mb\u{1b}[31ma\u{1b}[0m"
    );
    let files = [("a.txt", b"one hit\n".to_vec())];
    let cli =
        Cli { color_mode: ColorMode::Always, ..test_cli("hit", SearchOutputMode::Standard) };
    assert_eq!(standard(&cli, &files, true), "one \u{1b}[31mhit\u{1b}[0m");
}

#[test]
fn colour_and_paths_follow_their_surroundings() {
    let cli = test_cli("hit", SearchOutputMode::Standard);
    assert!(!color_enabled(&cli, true));
    let auto = Cli { color_mode: ColorMode::Auto, ..cli.clone() };
    assert!(color_enabled(&auto, true));
    assert!(!color_enabled(&auto, false));
    assert!(!show_path_in_standard_output(&cli, true));
    assert!(show_path_in_standard_output(&cli, false));
    let two = Cli { roots: vec!["a".to_owned(), "b".to_owned()], ..cli };
    assert!(show_path_in_standard_output(&two, true));
}

#[test]
fn submatches_go_on_behind_empty_matches() {
    let prepared = prepare_search(&test_cli("a*", SearchOutputMode::Standard)).expect("prepared");
    assert_eq!(
        find_submatches(&prepared.matcher, &b"baa".to_vec()),
        vec![(0, 0), (1, 3), (3, 3)]
    );
    let prepared = prepare_search(&test_cli("hit", SearchOutputMode::Standard)).expect("prepared");
    assert_eq!(
        find_submatches(&prepared.matcher, &b"hit a hit".to_vec()),
        vec![(0, 3), (6, 9)]
    );
    assert!(find_submatches(&prepared.matcher, &b"none".to_vec()).is_empty());
}

#[test]
fn line_endings_are_trimmed() {
    assert_eq!(trim_line_ending_bytes(&b"a\r\n".to_vec()), b"a".to_vec());
    assert_eq!(trim_line_ending_bytes(&b"a\n".to_vec()), b"a".to_vec());
    assert_eq!(trim_line_ending_bytes(&b"a\r".to_vec()), b"a".to_vec());
    assert_eq!(trim_line_ending_bytes(&b"a\n\n".to_vec()), b"a\n".to_vec());
    assert_eq!(trim_line_ending("a\r\n\n"), "a");
    assert_eq!(trim_line_ending("a b"), "a b");
}

#[test]
fn text_that_is_not_utf8_is_shown_with_replacements() {
    let files = [("a.txt", b"hit \xff\n".to_vec())];
    let cli = test_cli("hit", SearchOutputMode::Standard);
    assert_eq!(events_of(&cli, &files)[0].text, "hit \u{fffd}");
}

#[test]
fn exit_codes_tell_whether_something_was_found() {
    let around = Surroundings { first_root_is_file: false, stdout_is_terminal: false };
    let listing = Cli { files_mode: true, query: None, ..test_cli("x", SearchOutputMode::Count) };
    assert_eq!(search_task(&listing), SearchTask::ListFiles);
    let outcome = execute_cli(&listing, &around, Ok(SearchResults::Listed(Vec::new()))).expect("outcome");
    assert_eq!(outcome.exit_code, 0);
    let with = test_cli("x", SearchOutputMode::FilesWithMatches);
    assert_eq!(search_task(&with), SearchTask::FilesWithMatches);
    let outcome = execute_cli(&with, &around, Ok(SearchResults::Files(Vec::new()))).expect("outcome");
    assert_eq!(outcome.exit_code, 1);
    let file = FilePath { text: "a".to_owned(), rank: 0 };
    let outcome = execute_cli(&with, &around, Ok(SearchResults::Files(vec![file]))).expect("outcome");
    assert_eq!(outcome.exit_code, 0);
    assert_eq!(outcome.output, "a");
    let count = test_cli("x", SearchOutputMode::Count);
    let outcome = execute_cli(&count, &around, Ok(SearchResults::Counts(Vec::new()))).expect("outcome");
    assert_eq!(outcome.exit_code, 1);
    let result = JsonSearchResult { output: "{}".to_owned(), had_match: true };
    let json = test_cli("x", SearchOutputMode::Json);
    let outcome = execute_cli(&json, &around, Ok(SearchResults::Json(result))).expect("outcome");
    assert_eq!(outcome.exit_code, 0);
    assert_eq!(outcome.output, "{}");
    let failed = execute_cli(&json, &around, Err("no such place".to_owned()));
    assert_eq!(failed.err(), Some("no such place".to_owned()));
}

#[test]
fn json_output_has_one_object_on_each_line() {
    let files = [("a\nb.txt", b"one hit\r\nnear\n\nhit\thit".to_vec())];
    let cli = Cli { after_context: 1, ..test_cli("hit", SearchOutputMode::Json) };
    let output = json(&cli, &files).output;
    let kinds: Vec<&str> = output
        .split('\n')
        .map(|line| {
            assert!(line.starts_with('{') && line.ends_with('}'));
            ["begin", "context", "match", "end", "summary"]
                .into_iter()
                .find(|kind| line.contains(&format!("\"type\":\"{kind}\"")))
                .expect("kind")
        })
        .collect();
    assert_eq!(kinds, ["begin", "match", "context", "match", "end", "summary"]);
}

#[test]
fn searches_around_matches_tell_lines_and_their_ends() {
    let prepared = prepare_search(&test_cli("hit", SearchOutputMode::Json)).expect("prepared");
    let around = search_around(&prepared.matcher, 1, 0, &b"far\nnear\nhit\nfar\n".to_vec())
        .expect("lines");
    let seen: Vec<(bool, Option<u64>, u64, &[u8])> = around
        .lines
        .iter()
        .map(|line| (line.is_match, line.number, line.offset, line.bytes.as_slice()))
        .collect();
    assert_eq!(seen, vec![(false, Some(2), 4, &b"near\n"[..]), (true, Some(3), 9, &b"hit\n"[..])]);
    assert_eq!(around.end, Some(SearchEnd { binary_offset: None, byte_count: 17 }));
    let binary = search_around(&prepared.matcher, 0, 0, &b"hit\nx\0y\n".to_vec()).expect("lines");
    assert_eq!(binary.end.expect("end").binary_offset, Some(5));
}

#[test]
fn times_are_shown_on_one_line() {
    assert!(is_unbroken("0.000000s"));
    assert!(is_unbroken(""));
    assert!(!is_unbroken("0\ns"));
}
