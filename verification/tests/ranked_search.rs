use std::io::{Cursor, Write};
use std::path::Path;

use flate2::write::GzEncoder;
use flate2::Compression;
use rgrank::candidate::{
    CandidateScore, CorpusStats, FileCandidate, FilePath, LineHint, LineMatchRecord, PhrasePlace,
};
use rgrank::cli::{
    CaseMode, Cli, ColorMode, MatchMode, SearchOutputMode, DEFAULT_MAX_CANDIDATE_LINES,
    DEFAULT_MAX_SNIPPETS, DEFAULT_TOP_K,
};
use rgrank::collect::{
    execute_search, rank_search, ranked_after_context, ranked_before_context, search_report,
    snippet_limit, FoundFile,
};
use rgrank::query::{normalize_text, Query};
use rgrank::rank::{measure_candidates, rank_candidates, FileScore, RankedFile, Score};
use rgrank::report::{
    render_count_list, render_file_list, render_report, CountEntry, SearchReport,
};
use rgrank::search::{
    execute_count, execute_files_with_matches, execute_files_without_match, list_files,
    prepare_search, read_file_lines, search_file_count, search_target, search_warning_message,
    RankedSearch, SearchedFile, WalkedEntry,
};
use rgrank::snippet::{build_snippets, merge_snippets, Snippet};
use tar::Builder as TarBuilder;
use zip::write::SimpleFileOptions;
use zip::ZipWriter;

type TestFile = (&'static str, Vec<u8>);

fn test_cli(root: &str, query: Option<&str>) -> Cli {
    Cli {
        query: query.map(ToOwned::to_owned),
        roots: vec![root.to_owned()],
        files_mode: query.is_none(),
        debug: false,
        match_mode: MatchMode::Regex,
        case_mode: CaseMode::Smart,
        output_mode: SearchOutputMode::Ranked,
        show_all: false,
        top_k: DEFAULT_TOP_K,
        max_candidate_lines: DEFAULT_MAX_CANDIDATE_LINES,
        before_context: 0,
        after_context: 0,
        context_explicit: false,
        max_snippets: DEFAULT_MAX_SNIPPETS,
        globs: Vec::new(),
        type_names: Vec::new(),
        type_not_names: Vec::new(),
        line_numbers: false,
        show_column: false,
        heading: false,
        color_mode: ColorMode::Never,
        word_regexp: false,
        line_regexp: false,
        hidden: false,
        no_ignore: false,
        follow_links: false,
    }
}

fn order_of(value: f64) -> i64 {
    let bits = value.to_bits() as i64;
    bits ^ (((bits >> 63) as u64) >> 1) as i64
}

fn value_of(score: &Score) -> f64 {
    let order = score.order;
    f64::from_bits((order ^ (((order >> 63) as u64) >> 1) as i64) as u64)
}

fn score_of(value: f64) -> Score {
    Score { order: order_of(value), text: format!("{value:.3}") }
}

fn line_value(line: &LineMatchRecord) -> f64 {
    let mut value = 0.0;
    for hits in &line.hint.exact_hits {
        value += if *hits > 0 { 1.0 + (*hits - 1) as f64 * 0.2 } else { 0.35 };
    }
    if line.matched_terms.len() > 1 {
        value += 0.45 * (line.matched_terms.len() - 1) as f64;
    }
    if line.hint.phrase {
        value += 2.0;
    }
    value
}

fn file_value(terms: usize, stats: &CorpusStats, score: &CandidateScore) -> f64 {
    let average = stats.total_doc_len as f64 / stats.total_docs as f64;
    let mut value = 0.0;
    for term in &score.terms {
        let tf = term.exact_hits as f64
            + term.partial_hits as f64 * 0.35
            + term.path_hits as f64 * 0.75;
        if tf == 0.0 {
            continue;
        }
        let frequency = term.document_frequency as f64;
        let idf =
            ((stats.total_docs as f64 - frequency + 0.5) / (frequency + 0.5) + 1.0).ln();
        let norm = tf + 1.2 * (1.0 - 0.75 + 0.75 * score.doc_len as f64 / average.max(1.0));
        value += idf * (tf * 2.2) / norm;
        if term.in_path {
            value += 0.9;
        }
    }
    value += score.matched_terms as f64 / terms as f64 * 2.5;
    if score.matched_terms == terms {
        value += 1.5;
    }
    value += match score.phrase {
        PhrasePlace::Body => 2.0,
        PhrasePlace::Path => 1.25,
        PhrasePlace::Nowhere => 0.0,
    };
    if score.same_line_terms > 1 {
        value += 0.45 * (score.same_line_terms - 1) as f64;
    }
    if let Some(span) = score.span {
        value += 1.6 / (span as f64).sqrt();
    }
    value + (score.match_count as f64).sqrt() * 0.25
}

fn scores_of(query: &Query, candidates: &Vec<FileCandidate>) -> Vec<FileScore> {
    let (stats, measures) = measure_candidates(query, candidates);
    candidates
        .iter()
        .zip(&measures)
        .map(|(candidate, measure)| FileScore {
            total: score_of(file_value(query.terms.len(), &stats, measure)),
            lines: candidate.matches.iter().map(|line| score_of(line_value(line))).collect(),
        })
        .collect()
}

fn name_parts(name: &str) -> (Option<&str>, Option<&str>) {
    let path = Path::new(name);
    (
        path.file_name().and_then(|part| part.to_str()),
        path.extension().and_then(|part| part.to_str()),
    )
}

fn path_of(files: &[TestFile], name: &str) -> FilePath {
    let rank = files.iter().filter(|(other, _)| Path::new(other) < Path::new(name)).count();
    FilePath { text: name.to_owned(), rank }
}

fn ranked_report(cli: &Cli, files: &[TestFile]) -> SearchReport {
    let prepared = prepare_search(cli).expect("prepared");
    let found: Vec<FoundFile> = files
        .iter()
        .map(|(name, content)| {
            let (file_name, extension) = name_parts(name);
            FoundFile {
                path: path_of(files, name),
                found: search_target(
                    &prepared.matcher,
                    file_name,
                    extension,
                    content.clone(),
                    &Vec::new(),
                )
                .ok(),
            }
        })
        .collect();
    let search = execute_search(&prepared.query, cli.max_candidate_lines, &found);
    let scores = scores_of(&prepared.query, &search.candidates);
    let mut ranked = rank_search(cli, &prepared.query, &search.candidates, &scores);
    let before = ranked_before_context(cli);
    let after = ranked_after_context(cli);
    for result in &mut ranked {
        let (name, content) = files
            .iter()
            .find(|(name, _)| *name == result.path.text)
            .expect("file");
        let (file_name, extension) = name_parts(name);
        let lines = read_file_lines(file_name, extension, content.clone(), &Vec::new()).ok();
        let count = lines.as_ref().map_or(0, Vec::len);
        let merged: Vec<Score> = merge_snippets(&result.snippets, before, after, count)
            .iter()
            .map(|range| {
                let part = &result.snippets[range.first..=range.last];
                score_of(part.iter().map(|snippet| value_of(&snippet.score)).sum())
            })
            .collect();
        result.snippets =
            build_snippets(&lines, before, after, snippet_limit(cli), &result.snippets, &merged);
    }
    search_report(&prepared.query_text, &prepared.query, &search, ranked)
}

fn searched(cli: &Cli, files: &[TestFile], stop: bool) -> Vec<SearchedFile> {
    let prepared = prepare_search(cli).expect("prepared");
    files
        .iter()
        .map(|(name, content)| {
            let (file_name, extension) = name_parts(name);
            SearchedFile {
                path: path_of(files, name),
                count: search_file_count(
                    &prepared.matcher,
                    file_name,
                    extension,
                    content.clone(),
                    &Vec::new(),
                    stop,
                )
                .ok(),
            }
        })
        .collect()
}

fn names(results: &[RankedFile]) -> Vec<&str> {
    results.iter().map(|result| result.path.text.as_str()).collect()
}

fn snippet_lines(snippet: &Snippet) -> Vec<&str> {
    snippet.lines.iter().map(|(_, text)| text.as_str()).collect()
}

fn docx(paragraphs: &[&str]) -> Vec<u8> {
    let mut xml = String::from(
        r#"<?xml version="1.0" encoding="UTF-8" standalone="yes"?>
<w:document xmlns:w="http://schemas.openxmlformats.org/wordprocessingml/2006/main">
  <w:body>"#,
    );
    for paragraph in paragraphs {
        xml.push_str("<w:p><w:r><w:t>");
        xml.push_str(paragraph);
        xml.push_str("</w:t></w:r></w:p>");
    }
    xml.push_str("</w:body></w:document>");
    zip_bytes(&[("word/document.xml".to_owned(), xml.into_bytes())])
}

fn zip_bytes(entries: &[(String, Vec<u8>)]) -> Vec<u8> {
    let mut zip = ZipWriter::new(Cursor::new(Vec::new()));
    let options = SimpleFileOptions::default();
    for (name, contents) in entries {
        zip.start_file(name.as_str(), options).expect("start zip entry");
        zip.write_all(contents).expect("write zip entry");
    }
    zip.finish().expect("finish zip").into_inner()
}

fn tar_bytes(entries: &[(String, Vec<u8>)]) -> Vec<u8> {
    let mut builder = TarBuilder::new(Vec::new());
    for (name, contents) in entries {
        let mut header = tar::Header::new_gnu();
        header.set_mode(0o644);
        header.set_size(contents.len() as u64);
        header.set_cksum();
        builder
            .append_data(&mut header, name, Cursor::new(contents.as_slice()))
            .expect("append tar entry");
    }
    builder.into_inner().expect("finish tar")
}

fn tgz_bytes(entries: &[(String, Vec<u8>)]) -> Vec<u8> {
    let mut encoder = GzEncoder::new(Vec::new(), Compression::default());
    encoder.write_all(&tar_bytes(entries)).expect("write tgz");
    encoder.finish().expect("finish tgz")
}

#[test]
fn ranking_prefers_balanced_match_over_repetition() {
    let query = Query::from_raw("timeout config").expect("query");
    let balanced = FileCandidate::new(
        FilePath { text: "config.go".to_owned(), rank: 0 },
        vec![LineMatchRecord {
            line_number: 12,
            text: "timeout := 30 config loaded".to_owned(),
            normalized_text: normalize_text("timeout := 30 config loaded"),
            matched_terms: vec![0, 1],
            hint: LineHint { exact_hits: vec![1, 1], phrase: false },
        }],
    );
    let repeated = FileCandidate::new(
        FilePath { text: "server.go".to_owned(), rank: 1 },
        vec![LineMatchRecord {
            line_number: 8,
            text: "timeout timeout timeout".to_owned(),
            normalized_text: normalize_text("timeout timeout timeout"),
            matched_terms: vec![0],
            hint: LineHint { exact_hits: vec![3], phrase: false },
        }],
    );
    let candidates = vec![repeated, balanced];
    let scores = scores_of(&query, &candidates);
    let ranked = rank_candidates(&query, &candidates, &scores);
    assert_eq!(ranked[0].path.text, "config.go");
}

#[test]
fn execute_search_ranks_expected_file_first() {
    let files = [
        ("config.go", b"timeout := 30\nconfig loaded\n".to_vec()),
        ("server.go", b"cfg.Timeout = 30\n".to_vec()),
        ("utils.go", b"retryTimeout := 5\n".to_vec()),
    ];
    let cli = Cli {
        match_mode: MatchMode::FixedStrings,
        top_k: 3,
        before_context: 1,
        after_context: 1,
        context_explicit: true,
        max_snippets: 2,
        ..test_cli(".", Some("timeout config"))
    };
    let report = ranked_report(&cli, &files);
    assert_eq!(report.results.first().map(|item| item.path.text.as_str()), Some("config.go"));
}

#[test]
fn execute_search_supports_regex_alternation_by_default() {
    let files = [
        ("alpha.txt", b"whisper is enabled\n".to_vec()),
        ("beta.txt", b"python worker\n".to_vec()),
        ("gamma.txt", b"rust only\n".to_vec()),
    ];
    let cli = Cli {
        top_k: 10,
        before_context: 1,
        after_context: 1,
        context_explicit: true,
        max_snippets: 1,
        ..test_cli(".", Some("whisper|process_all_mp4s|python"))
    };
    let report = ranked_report(&cli, &files);
    let file_names = names(&report.results);
    assert!(file_names.contains(&"alpha.txt"));
    assert!(file_names.contains(&"beta.txt"));
    assert!(!file_names.contains(&"gamma.txt"));
}

#[test]
fn ranked_all_shows_all_files_and_snippets() {
    let files = [
        ("one.txt", b"alpha term\nterm again\n".to_vec()),
        ("two.txt", b"term here\nmiddle\nterm there\n".to_vec()),
    ];
    let limited_cli = Cli {
        top_k: 1,
        before_context: 0,
        after_context: 0,
        context_explicit: true,
        max_snippets: 1,
        ..test_cli(".", Some("term"))
    };
    let limited = ranked_report(&limited_cli, &files);
    assert_eq!(limited.results.len(), 1);
    assert_eq!(limited.results[0].snippets.len(), 1);

    let all_cli = Cli { show_all: true, ..limited_cli };
    let all = ranked_report(&all_cli, &files);
    assert_eq!(all.results.len(), 2);
    assert!(all.results.iter().any(|result| result.snippets.len() > 1));
}

#[test]
fn execute_search_respects_case_modes() {
    let files = [("sample.txt", b"Timeout value\n".to_vec())];
    let sensitive = Cli {
        case_mode: CaseMode::Sensitive,
        top_k: 5,
        before_context: 0,
        after_context: 0,
        context_explicit: true,
        max_snippets: 1,
        ..test_cli(".", Some("timeout"))
    };
    assert_eq!(ranked_report(&sensitive, &files).results.len(), 0);

    let insensitive = Cli { case_mode: CaseMode::Insensitive, ..sensitive.clone() };
    assert_eq!(ranked_report(&insensitive, &files).results.len(), 1);

    let smart = Cli { case_mode: CaseMode::Smart, ..sensitive.clone() };
    assert_eq!(ranked_report(&smart, &files).results.len(), 1);
    let smart_upper = Cli { query: Some("TIMEOUT".to_owned()), ..smart };
    assert_eq!(ranked_report(&smart_upper, &files).results.len(), 0);
}

#[test]
fn execute_search_respects_word_and_line_regexp() {
    let files = [("sample.txt", b"cpython\npython\npython worker\n".to_vec())];
    let word_cli = Cli {
        top_k: 5,
        before_context: 0,
        after_context: 0,
        context_explicit: true,
        max_snippets: 5,
        word_regexp: true,
        ..test_cli(".", Some("python"))
    };
    let word_report = ranked_report(&word_cli, &files);
    assert_eq!(word_report.results.len(), 1);
    assert_eq!(word_report.results[0].match_count, 2);

    let line_cli = Cli { line_regexp: true, ..word_cli };
    let line_report = ranked_report(&line_cli, &files);
    assert_eq!(line_report.results.len(), 1);
    assert_eq!(line_report.results[0].match_count, 1);
}

#[test]
fn execute_output_modes_and_context_work() {
    let files = [
        ("one.txt", b"zero\none hit\ntwo\nthree\n".to_vec()),
        ("two.txt", b"zero\n".to_vec()),
    ];
    let base_cli = Cli {
        top_k: 5,
        before_context: 1,
        after_context: 2,
        context_explicit: true,
        max_snippets: 5,
        ..test_cli(".", Some("hit"))
    };
    let report = ranked_report(&base_cli, &files);
    assert_eq!(report.results.len(), 1);
    assert_eq!(report.results[0].snippets[0].start_line, 1);
    assert_eq!(report.results[0].snippets[0].end_line, 4);

    let files_with_matches = execute_files_with_matches(&searched(&base_cli, &files, true));
    assert_eq!(files_with_matches.len(), 1);
    assert_eq!(files_with_matches[0].text, "one.txt");

    let files_without_match = execute_files_without_match(&searched(&base_cli, &files, true));
    assert_eq!(files_without_match.len(), 1);
    assert_eq!(files_without_match[0].text, "two.txt");

    let counts = execute_count(&searched(&base_cli, &files, false));
    assert_eq!(counts.len(), 1);
    assert_eq!(counts[0].count, 1);
}

#[test]
fn extracted_docx_snippets_use_human_readable_text() {
    let files = [(
        "sample.docx",
        docx(&["Human readable heading", "cortisol level in serum", "closing notes"]),
    )];
    let cli = Cli {
        match_mode: MatchMode::FixedStrings,
        before_context: 1,
        after_context: 1,
        context_explicit: true,
        ..test_cli("sample.docx", Some("cortisol"))
    };
    let report = ranked_report(&cli, &files);
    assert_eq!(report.results.len(), 1);
    assert_eq!(
        snippet_lines(&report.results[0].snippets[0]),
        vec!["Human readable heading", "cortisol level in serum", "closing notes"]
    );
}

#[test]
fn execute_search_supports_zip_archives() {
    let files = [(
        "bundle.zip",
        zip_bytes(&[(
            "notes.txt".to_owned(),
            b"archived cortisol finding\nsecondary line\n".to_vec(),
        )]),
    )];
    let cli = Cli {
        match_mode: MatchMode::FixedStrings,
        before_context: 1,
        after_context: 1,
        context_explicit: true,
        ..test_cli("bundle.zip", Some("cortisol"))
    };
    let report = ranked_report(&cli, &files);
    assert_eq!(report.results.len(), 1);
    assert_eq!(report.results[0].path.text, "bundle.zip");
    let snippet_text = snippet_lines(&report.results[0].snippets[0]).join("\n");
    assert!(snippet_text.contains("Archive entry: notes.txt"));
    assert!(snippet_text.contains("archived cortisol finding"));
}

#[test]
fn execute_search_supports_tar_and_tgz_archives() {
    let entries = vec![("sheet.txt".to_owned(), b"aldosterone archive payload\n".to_vec())];
    let files = [
        ("bundle.tar", tar_bytes(&entries)),
        ("bundle.tgz", tgz_bytes(&entries)),
        ("bundle.tar.gz", tgz_bytes(&entries)),
    ];
    let cli = Cli {
        match_mode: MatchMode::FixedStrings,
        top_k: 10,
        before_context: 0,
        after_context: 0,
        context_explicit: true,
        ..test_cli(".", Some("aldosterone"))
    };
    let report = ranked_report(&cli, &files);
    let file_names = names(&report.results);
    assert!(file_names.contains(&"bundle.tar"));
    assert!(file_names.contains(&"bundle.tgz"));
    assert!(file_names.contains(&"bundle.tar.gz"));
}

#[test]
fn execute_search_supports_nested_archives() {
    let inner_tar = tar_bytes(&[("deep.txt".to_owned(), b"nested tumor evidence\n".to_vec())]);
    let files = [("outer.zip", zip_bytes(&[("inner.tar".to_owned(), inner_tar)]))];
    let cli = Cli {
        match_mode: MatchMode::FixedStrings,
        before_context: 2,
        after_context: 1,
        context_explicit: true,
        ..test_cli("outer.zip", Some("tumor"))
    };
    let report = ranked_report(&cli, &files);
    assert_eq!(report.results.len(), 1);
    let snippet_text = snippet_lines(&report.results[0].snippets[0]).join("\n");
    assert!(snippet_text.contains("Archive entry: inner.tar"));
    assert!(snippet_text.contains("Archive entry: deep.txt"));
    assert!(snippet_text.contains("nested tumor evidence"));
}

#[test]
fn count_output_omits_path_for_single_file() {
    let files = [("sample.txt", b"foo\nfoo\n".to_vec())];
    let cli = Cli { output_mode: SearchOutputMode::Count, ..test_cli("sample.txt", Some("foo")) };
    let counts = execute_count(&searched(&cli, &files, false));
    assert_eq!(render_count_list(&counts, &cli, true), "2");
    assert_eq!(render_count_list(&counts, &cli, false), "sample.txt:2");
}

#[test]
fn search_warning_message_requires_debug() {
    let quiet_cli = test_cli(".", Some("python"));
    let debug_cli = Cli { debug: true, ..test_cli(".", Some("python")) };
    let error = "pdf extraction panicked: boom";

    assert!(search_warning_message(&quiet_cli, "broken.pdf", error).is_none());
    assert_eq!(
        search_warning_message(&debug_cli, "broken.pdf", error),
        Some("warning: failed to search broken.pdf: pdf extraction panicked: boom".to_owned())
    );
}

#[test]
fn collection_stops_at_the_limit() {
    let files = [
        ("one.txt", b"hit\nhit\n".to_vec()),
        ("two.txt", b"hit\nhit\n".to_vec()),
        ("three.txt", b"hit\n".to_vec()),
    ];
    let cli = Cli { max_candidate_lines: 3, ..test_cli(".", Some("hit")) };
    let report = ranked_report(&cli, &files);
    assert_eq!(report.candidate_lines, 3);
    assert_eq!(report.scanned_files, 2);
    assert!(report.truncated);

    let roomy = Cli { max_candidate_lines: 6, ..cli.clone() };
    let report = ranked_report(&roomy, &files);
    assert_eq!(report.candidate_lines, 5);
    assert_eq!(report.scanned_files, 3);
    assert!(!report.truncated);

    let exact = Cli { max_candidate_lines: 4, ..cli };
    let report = ranked_report(&exact, &files);
    assert_eq!(report.candidate_lines, 4);
    assert_eq!(report.scanned_files, 2);
    assert!(report.truncated);
}

#[test]
fn a_search_takes_files_while_there_is_room() {
    let mut search = RankedSearch::new(0);
    assert!(!search.accept_file());
    assert!(search.truncated);
    assert_eq!(search.scanned_files, 0);
    let mut search = RankedSearch::new(1);
    assert!(search.accept_file());
    assert!(!search.truncated);
    assert_eq!(search.scanned_files, 1);
}

#[test]
fn report_shows_files_with_passages() {
    let files = [("config.go", b"one\ntimeout here\nthree\nfour\nfive\n".to_vec())];
    let cli = test_cli(".", Some("timeout"));
    let report = ranked_report(&cli, &files);
    let text = render_report(&report);
    let score = &report.results[0].score.text;
    assert_eq!(
        text,
        format!(
            "query: timeout\nscanned_files: 1\ncandidate_lines: 1\nresults: 1\n\nconfig.go\n  \
             score={score} matched_terms=1/1 match_lines=1\n  snippet 1-4 score=3.000\n         \
             1 | one\n         2 | timeout here\n         3 | three\n         4 | four"
        )
    );
}

#[test]
fn report_without_results_says_so() {
    let files = [("config.go", b"nothing\n".to_vec())];
    let report = ranked_report(&test_cli(".", Some("timeout")), &files);
    assert_eq!(
        render_report(&report),
        "query: timeout\nscanned_files: 1\ncandidate_lines: 0\nresults: 0\n"
    );
    let truncated = SearchReport { truncated: true, ..report };
    assert!(render_report(&truncated)
        .contains("candidate_lines: 0 (truncated at candidate limit)\n"));
}

#[test]
fn proximity_prefers_terms_close_together() {
    let files = [
        ("far.txt", b"alpha\n\n\n\n\n\n\n\nbeta\n".to_vec()),
        ("near.txt", b"alpha\nbeta\n\n\n\n\n\n\n\n".to_vec()),
    ];
    let report = ranked_report(&test_cli(".", Some("alpha|beta")), &files);
    assert_eq!(names(&report.results), vec!["near.txt", "far.txt"]);
}

#[test]
fn equal_scores_are_ranked_by_path() {
    let files = [("b.txt", b"hit\n".to_vec()), ("a.txt", b"hit\n".to_vec())];
    let report = ranked_report(&test_cli(".", Some("hit")), &files);
    assert_eq!(names(&report.results), vec!["a.txt", "b.txt"]);
}

#[test]
fn passages_that_touch_are_one() {
    let content = b"hit\n2\n3\nhit\n5\n6\n7\n8\n9\nhit\n".to_vec();
    let files = [("a.txt", content)];
    let cli = Cli {
        before_context: 1,
        after_context: 1,
        context_explicit: true,
        ..test_cli(".", Some("hit"))
    };
    let report = ranked_report(&cli, &files);
    let spans: Vec<(usize, usize)> = report.results[0]
        .snippets
        .iter()
        .map(|snippet| (snippet.start_line, snippet.end_line))
        .collect();
    assert_eq!(spans, vec![(1, 5), (9, 10)]);
    assert_eq!(report.results[0].snippets[0].score.text, "6.000");

    let best = Cli { max_snippets: 1, ..cli };
    let report = ranked_report(&best, &files);
    assert_eq!(report.results[0].snippets.len(), 1);
    assert_eq!(report.results[0].snippets[0].start_line, 1);
}

#[test]
fn matched_lines_are_shown_where_the_file_is_gone() {
    let placeholder = |line: usize| Snippet {
        start_line: line,
        end_line: line,
        score: score_of(1.0),
        lines: vec![(line, format!("line {line}"))],
    };
    let placeholders = vec![placeholder(3), placeholder(8)];
    let shown = build_snippets(&None, 2, 2, 1, &placeholders, &Vec::new());
    assert_eq!(shown.len(), 1);
    assert_eq!(shown[0].lines, vec![(3, "line 3".to_owned())]);
    let shown = build_snippets(&Some(Vec::new()), 2, 2, 5, &placeholders, &Vec::new());
    assert_eq!(shown.len(), 2);
}

#[test]
fn preparation_says_what_is_wrong_with_a_query() {
    let missing = test_cli(".", None);
    let error = prepare_search(&missing).err().expect("error");
    assert_eq!(error, "query is required unless --files is set");
    let empty = test_cli(".", Some("***"));
    let error = prepare_search(&empty).err().expect("error");
    assert_eq!(error, "query must contain at least one searchable term");
    let broken = test_cli(".", Some("a(b"));
    let error = prepare_search(&broken).err().expect("error");
    assert!(error.contains("unclosed group"));
    let literal = Cli { match_mode: MatchMode::FixedStrings, ..broken };
    assert!(prepare_search(&literal).is_ok());
}

#[test]
fn fixed_strings_match_any_term() {
    let files = [("a.txt", b"only beta\nnone\nonly alpha\n".to_vec())];
    let cli = Cli { match_mode: MatchMode::FixedStrings, ..test_cli(".", Some("alpha beta")) };
    assert_eq!(searched(&cli, &files, false)[0].count, Some(2));
    assert_eq!(searched(&cli, &files, true)[0].count, Some(1));
}

#[test]
fn binary_content_ends_a_search() {
    let files = [("a.bin", b"\0hit\n".to_vec()), ("b.txt", b"hit\n".to_vec())];
    let counts = execute_count(&searched(&test_cli(".", Some("hit")), &files, false));
    assert_eq!(counts.len(), 1);
    assert_eq!(counts[0].path.text, "b.txt");
}

#[test]
fn files_that_fail_are_in_no_list() {
    let files = [("broken.docx", b"no archive".to_vec()), ("b.txt", b"other\n".to_vec())];
    let searched = searched(&test_cli(".", Some("hit")), &files, true);
    assert_eq!(searched[0].count, None);
    assert!(execute_files_with_matches(&searched).is_empty());
    let without = execute_files_without_match(&searched);
    assert_eq!(render_file_list(&without), "b.txt");
}

#[test]
fn listed_files_are_those_that_could_be_read() {
    let entry = |text: &str, is_file: bool| {
        Some(WalkedEntry { path: FilePath { text: text.to_owned(), rank: 0 }, is_file })
    };
    let files = list_files(&vec![entry("a", true), None, entry("dir", false), entry("b", true)]);
    assert_eq!(render_file_list(&files), "a\nb");
}

#[test]
fn counts_are_shown_with_their_paths() {
    let counts = vec![
        CountEntry { path: FilePath { text: "a".to_owned(), rank: 0 }, count: 2 },
        CountEntry { path: FilePath { text: "b".to_owned(), rank: 1 }, count: 10 },
    ];
    let cli = test_cli(".", Some("x"));
    assert_eq!(render_count_list(&counts, &cli, false), "a:2\nb:10");
}
