use rgrank::blocks::{build_file_output_blocks, build_output_blocks, event_runs};
use rgrank::bytes::{bytes_between, bytes_of};
use rgrank::candidate::{
    best_same_line_terms, body_tokens, join_normalized_lines, matched_term_count, score_candidate,
    score_line_against_query, CorpusStats, FileCandidate, FilePath, LineHint, LineMatchRecord,
    PhrasePlace, TermScore,
};
use rgrank::cli::{parse_args_from, Cli, ParseOutcome};
use rgrank::context::{merge_ranges, LineRange};
use rgrank::cover::{minimal_cover_span, unique_term_indexes};
use rgrank::extract::{ascii_lower, is_document_text};
use rgrank::matcher::{search_content, FoundLine};
use rgrank::order::{ranking, RankKey};
use rgrank::query::{holds_text, normalize_text, Query};
use rgrank::rank::{keep_top, placeholder_snippets, RankedFile, Score};
use rgrank::report::{padded_number, trim_end};
use rgrank::search::{copy_query, prepare_search, searchable_content, RankedSearch};
use rgrank::sinks::{
    record_line, to_line_number, CollectingSink, CountingSink, MatchEvent, MatchEventSink,
};
use rgrank::snippet::clone_snippet;
use rgrank::standard::{do_spans_fit, render_standard_line, render_standard_suffix};
use rgrank::text::{
    begins_with, chars_of, contains_text, decimal_text, finishes_with, is_blank, is_control,
    is_white_space, parse_size, same_text, split_lines, strip_prefix, text_at,
};
use rgrank::xml::XmlTextMode;

fn path(text: &str, rank: usize) -> FilePath {
    FilePath { text: text.to_owned(), rank }
}

fn cli(args: &[&str]) -> Cli {
    let args = args.iter().map(|argument| (*argument).to_owned()).collect();
    match parse_args_from(args).expect("parse args") {
        ParseOutcome::Cli(cli) => cli,
        _ => panic!("expected a command line"),
    }
}

fn record(line_number: usize, text: &str, matched_terms: Vec<usize>) -> LineMatchRecord {
    LineMatchRecord {
        line_number,
        text: text.to_owned(),
        normalized_text: normalize_text(text),
        matched_terms,
        hint: LineHint { exact_hits: Vec::new(), phrase: false },
    }
}

fn found(number: u64, line: &str) -> FoundLine {
    FoundLine { number, bytes: line.as_bytes().to_vec() }
}

fn event(rank: usize, line_number: usize, text: &str) -> MatchEvent {
    MatchEvent {
        path: path(&format!("f{rank}"), rank),
        line_number,
        column: None,
        text: text.to_owned(),
        submatches: Vec::new(),
    }
}

#[test]
fn cover_span_is_the_smallest() {
    let matches = vec![
        record(1, "a", vec![0]),
        record(10, "b", vec![1]),
        record(12, "a", vec![0]),
        record(40, "c", vec![2]),
        record(41, "b", vec![1, 1]),
        record(42, "a", vec![0]),
    ];
    assert_eq!(minimal_cover_span(3, &matches), Some(3));
    assert_eq!(minimal_cover_span(3, &matches[..3].to_vec()), None);
    assert_eq!(minimal_cover_span(2, &matches[..2].to_vec()), Some(10));
    assert_eq!(minimal_cover_span(2, &matches[..3].to_vec()), Some(3));
    assert_eq!(minimal_cover_span(0, &Vec::new()), None);
    assert_eq!(minimal_cover_span(1, &vec![record(7, "a", vec![0])]), Some(1));
}

#[test]
fn term_indexes_are_listed_once() {
    assert_eq!(unique_term_indexes(&vec![3, 1, 3, 2, 1]), vec![1, 2, 3]);
    assert!(unique_term_indexes(&Vec::new()).is_empty());
}

#[test]
fn ranking_puts_the_best_first() {
    let key = |score, tie| RankKey { score, tie };
    let keys = vec![key(1, 0), key(5, 9), key(5, 2), key(-3, 0), key(5, 2)];
    assert_eq!(ranking(&keys), vec![2, 4, 1, 0, 3]);
    assert!(ranking(&Vec::new()).is_empty());
}

#[test]
fn ranges_are_merged_where_they_touch() {
    let range = |start, end, first, last| LineRange { start, end, first, last };
    let spans = vec![(2, 2), (5, 5), (9, 9)];
    assert_eq!(merge_ranges(&spans, 1, 1, 20), vec![range(1, 6, 0, 1), range(8, 10, 2, 2)]);
    assert_eq!(
        merge_ranges(&spans, 0, 0, 20),
        vec![range(2, 2, 0, 0), range(5, 5, 1, 1), range(9, 9, 2, 2)]
    );
    assert_eq!(merge_ranges(&spans, 3, usize::MAX, 9), vec![range(1, 9, 0, 2)]);
    assert_eq!(merge_ranges(&vec![(9, 9)], 0, 0, 4), vec![range(9, 4, 0, 0)]);
}

#[test]
fn lines_are_scored_against_the_query() {
    let query = Query::from_raw("timeout config retry").expect("query");
    let (terms, hint) = score_line_against_query(&query, "timeout timeout configs");
    assert_eq!(terms, vec![0, 1]);
    assert_eq!(hint.exact_hits, vec![2, 0]);
    assert!(!hint.phrase);
    let (terms, hint) = score_line_against_query(&query, "the timeout config retry rule");
    assert_eq!(terms, vec![0, 1, 2]);
    assert!(hint.phrase);
    let (terms, hint) = score_line_against_query(&query, "");
    assert!(terms.is_empty());
    assert!(hint.exact_hits.is_empty());
}

#[test]
fn candidates_are_measured() {
    let query = Query::from_raw("timeout config").expect("query");
    let candidate = FileCandidate::new(
        path("src/timeoutConfig.go", 0),
        vec![
            record(3, "timeout := timeouts", vec![0]),
            record(5, "reload timeout config", vec![0, 1]),
        ],
    );
    let other = FileCandidate::new(path("b.go", 1), vec![record(1, "config", vec![1])]);
    assert_eq!(candidate.normalized_path, "src timeout config go");
    assert_eq!(body_tokens(&candidate).len(), 5);
    assert_eq!(
        join_normalized_lines(&candidate.matches),
        "timeout timeouts reload timeout config"
    );
    assert_eq!(matched_term_count(&query, &other, &body_tokens(&other)), 1);
    assert_eq!(best_same_line_terms(&candidate.matches), 2);
    let candidates = vec![candidate, other];
    let stats = CorpusStats::from_candidates(&query, &candidates);
    assert_eq!(stats.total_docs, 2);
    assert_eq!(stats.total_doc_len, 6);
    assert_eq!(stats.document_frequency, vec![1, 2]);
    let score = score_candidate(&query, &stats, &candidates[0]);
    assert_eq!(
        score.terms,
        vec![
            TermScore {
                exact_hits: 2,
                partial_hits: 1,
                path_hits: 1,
                in_path: true,
                document_frequency: 1,
            },
            TermScore {
                exact_hits: 1,
                partial_hits: 0,
                path_hits: 1,
                in_path: true,
                document_frequency: 2,
            },
        ]
    );
    assert_eq!(score.doc_len, 5);
    assert_eq!(score.matched_terms, 2);
    assert_eq!(score.phrase, PhrasePlace::Body);
    assert_eq!(score.same_line_terms, 2);
    assert_eq!(score.span, Some(1));
    assert_eq!(score.match_count, 2);
    let score = score_candidate(&query, &stats, &candidates[1]);
    assert_eq!(score.phrase, PhrasePlace::Nowhere);
    assert_eq!(score.span, None);
}

#[test]
fn no_candidates_count_as_one_document() {
    let query = Query::from_raw("timeout").expect("query");
    let stats = CorpusStats::from_candidates(&query, &Vec::new());
    assert_eq!(stats.total_docs, 1);
    assert_eq!(stats.total_doc_len, 0);
    assert_eq!(stats.document_frequency, vec![0]);
}

#[test]
fn phrases_are_found_in_paths() {
    let query = Query::from_raw("timeout config").expect("query");
    let candidate =
        FileCandidate::new(path("timeout_config.go", 0), vec![record(1, "other", Vec::new())]);
    let stats = CorpusStats::from_candidates(&query, &vec![candidate.clone()]);
    assert_eq!(score_candidate(&query, &stats, &candidate).phrase, PhrasePlace::Path);
}

#[test]
fn lines_are_recorded_up_to_a_limit() {
    let query = Query::from_raw("hit").expect("query");
    let lines = vec![found(2, "one hit\r\n"), found(4, "hitting\n"), found(9, "hit")];
    let mut sink = CollectingSink::new(copy_query(&query), 2);
    sink.take_lines(&lines);
    assert!(sink.hit_limit);
    assert_eq!(sink.lines.len(), 2);
    assert_eq!(sink.lines[0].line_number, 2);
    assert_eq!(sink.lines[0].text, "one hit");
    assert_eq!(sink.lines[0].hint.exact_hits, vec![1]);
    assert_eq!(sink.lines[1].hint.exact_hits, vec![0]);
    let mut roomy = CollectingSink::new(copy_query(&query), 3);
    roomy.take_lines(&lines);
    assert!(!roomy.hit_limit);
    assert_eq!(roomy.lines.len(), 3);
    assert_eq!(record_line(&query, 7, &b"Hit \xff\n".to_vec()).text, "Hit \u{fffd}");
    assert_eq!(to_line_number(7), 7);
}

#[test]
fn counting_can_stop_at_the_first_line() {
    let lines = vec![found(1, "a\n"), found(2, "b\n"), found(3, "c\n")];
    let mut all = CountingSink::new(false);
    all.take_lines(&lines);
    assert_eq!(all.match_count, 3);
    let mut first = CountingSink::new(true);
    first.take_lines(&lines);
    assert_eq!(first.match_count, 1);
    let mut none = CountingSink::new(true);
    none.take_lines(&Vec::new());
    assert_eq!(none.match_count, 0);
}

#[test]
fn events_hold_columns_where_asked_for() {
    let prepared = prepare_search(&cli(&["hit"])).expect("prepared");
    let lines = vec![found(3, "a hit hit\n")];
    let mut sink = MatchEventSink::new(path("a", 0), true);
    sink.take_lines(&prepared.matcher, &lines);
    assert_eq!(sink.events[0].column, Some(3));
    assert_eq!(sink.events[0].submatches, vec![(2, 5), (6, 9)]);
    assert_eq!(sink.events[0].text, "a hit hit");
    let mut plain = MatchEventSink::new(path("a", 0), false);
    plain.take_lines(&prepared.matcher, &lines);
    assert_eq!(plain.events[0].column, None);
    assert!(plain.events[0].submatches.is_empty());
}

#[test]
fn content_is_searched_line_by_line() {
    let prepared = prepare_search(&cli(&["hit$"])).expect("prepared");
    let lines = search_content(&prepared.matcher, &b"hit\nhit not\n\nlast hit".to_vec())
        .expect("lines");
    let seen: Vec<(u64, &[u8])> =
        lines.iter().map(|line| (line.number, line.bytes.as_slice())).collect();
    assert_eq!(seen, vec![(1, &b"hit\n"[..]), (4, &b"last hit"[..])]);
    assert!(search_content(&prepared.matcher, &Vec::new()).expect("lines").is_empty());
}

#[test]
fn searched_content_is_extracted_or_plain() {
    let content = |name, extension| {
        searchable_content(Some(name), Some(extension), b"x".to_vec(), &Vec::new())
    };
    assert_eq!(content("a.txt", "txt"), Ok(b"x".to_vec()));
    assert_eq!(content("~$a.docx", "docx"), Ok(Vec::new()));
    assert!(content("a.docx", "docx").is_err());
}

#[test]
fn a_ranked_search_keeps_its_lines() {
    let query = Query::from_raw("hit").expect("query");
    let mut search = RankedSearch::new(2);
    assert!(search.accept_file());
    search.take_file(&query, path("a", 0), &Vec::new());
    assert!(search.candidates.is_empty());
    search.take_file(&query, path("b", 1), &vec![found(1, "hit"), found(2, "hit")]);
    assert_eq!(search.candidate_lines, 2);
    assert!(!search.truncated);
    assert_eq!(search.candidates[0].path.text, "b");
    assert!(!search.accept_file());
    assert!(search.truncated);
}

#[test]
fn events_are_put_into_blocks() {
    let events = vec![event(0, 2, "two"), event(0, 3, "three"), event(1, 1, "one")];
    assert_eq!(event_runs(&events), vec![(0, 2), (2, 3)]);
    let lines = Some(vec!["1".to_owned(), "2".to_owned(), "3".to_owned(), "4".to_owned()]);
    let context = cli(&["-B1", "q"]);
    let blocks = build_file_output_blocks(&path("f0", 0), &events, 0, 2, &context, &lines);
    assert_eq!(blocks.len(), 1);
    let shown: Vec<(&str, bool)> =
        blocks[0].lines.iter().map(|line| (line.text.as_str(), line.is_match)).collect();
    assert_eq!(shown, vec![("1", false), ("two", true), ("three", true)]);
    let blocks = build_output_blocks(&events, &context, &vec![lines, None]);
    assert_eq!(blocks.len(), 2);
    assert_eq!(blocks[1].path.text, "f1");
    assert_eq!(render_standard_suffix(&blocks[0].lines[0], "1", true, "-"), "1-1");
    assert_eq!(
        render_standard_line(&path("f0", 0), &blocks[0].lines[1], "two", &context, false, true),
        "f0:2:two"
    );
    assert!(do_spans_fit("abc", &vec![(0, 3)]));
    assert!(!do_spans_fit("abc", &vec![(0, 4)]));
    assert!(!do_spans_fit("abc", &vec![(2, 1)]));
}

#[test]
fn passages_are_copied_and_cut() {
    let score = Score { order: 1, text: "1.000".to_owned() };
    let snippets = placeholder_snippets(&vec![record(4, "text", Vec::new())], &vec![score.copy()]);
    assert_eq!(snippets[0].start_line, 4);
    assert_eq!(snippets[0].lines, vec![(4, "text".to_owned())]);
    let copy = clone_snippet(&snippets[0]);
    assert_eq!(copy.end_line, 4);
    assert_eq!(copy.score.text, "1.000");
    let file = || RankedFile {
        path: path("a", 0),
        score: Score { order: 1, text: String::new() },
        matched_terms: 1,
        match_count: 1,
        snippets: Vec::new(),
    };
    let mut ranked = vec![file(), file(), file()];
    keep_top(&mut ranked, true, 1);
    assert_eq!(ranked.len(), 3);
    keep_top(&mut ranked, false, 2);
    assert_eq!(ranked.len(), 2);
    keep_top(&mut ranked, false, 9);
    assert_eq!(ranked.len(), 2);
}

#[test]
fn numbers_are_written_and_read() {
    assert_eq!(decimal_text(0), "0");
    assert_eq!(decimal_text(907), "907");
    assert_eq!(decimal_text(u128::MAX), u128::MAX.to_string());
    assert_eq!(padded_number(42), "    42");
    assert_eq!(padded_number(1234567), "1234567");
    assert_eq!(parse_size("0042"), Some(42));
    assert_eq!(parse_size("-1"), None);
    assert_eq!(parse_size("+"), None);
    assert_eq!(parse_size(&usize::MAX.to_string()), Some(usize::MAX));
}

#[test]
fn texts_are_taken_apart() {
    assert_eq!(chars_of("a\u{fc}"), vec!['a', '\u{fc}']);
    assert!(same_text("a", "a") && !same_text("a", "ab"));
    assert!(contains_text("haystack", "st") && contains_text("x", "") && !contains_text("a", "b"));
    assert!(text_at(&chars_of("abc"), 1, &chars_of("bc")));
    assert_eq!(strip_prefix("--x=1", "--x="), Some("1".to_owned()));
    assert_eq!(strip_prefix("-x", "--"), None);
    assert!(begins_with("abc", "ab") && !begins_with("a", "ab"));
    assert!(finishes_with("abc", "bc") && !finishes_with("c", "bc"));
    assert!(is_blank(" \t\u{3000}") && !is_blank(" a"));
    assert!(is_control('\u{85}') && !is_control('a'));
    assert!(is_white_space('\u{2028}') && !is_white_space('\u{200b}'));
    assert_eq!(split_lines("a\r\nb\n\nc\n"), vec!["a", "b", "", "c"]);
    assert_eq!(split_lines("\r"), vec!["\r"]);
    assert!(split_lines("").is_empty());
    assert_eq!(trim_end("a \n\n"), "a");
    assert_eq!(bytes_of("\u{fc}"), vec![0xc3, 0xbc]);
    assert_eq!(bytes_between(&b"abcd".to_vec(), 1, 3), b"bc".to_vec());
    assert_eq!(ascii_lower("A\u{dc}b"), "a\u{dc}b");
    assert!(holds_text(&vec!["a".to_owned()], "a"));
}

#[test]
fn document_entries_are_known_by_name() {
    assert!(is_document_text(XmlTextMode::Word, "word/document.xml"));
    assert!(is_document_text(XmlTextMode::Word, "word/footer2.xml"));
    assert!(!is_document_text(XmlTextMode::Word, "word/document2.xml"));
    assert!(!is_document_text(XmlTextMode::Word, "ppt/slides/slide1.xml"));
    assert!(is_document_text(XmlTextMode::Presentation, "ppt/slides/slide1.xml"));
    assert!(!is_document_text(XmlTextMode::Presentation, "ppt/slides/_rels/slide1.xml.rels"));
}
