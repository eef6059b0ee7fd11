use rgrank::hits::{contains_partial_token, count_exact_hits, count_partial_hits};
use rgrank::query::{normalize_text, Query};
use rgrank::text::{join, tokenize};

fn owned(items: &[&str]) -> Vec<String> {
    items.iter().map(|item| (*item).to_owned()).collect()
}

#[test]
fn normalize_text_splits_camel_case_and_symbols() {
    assert_eq!(
        normalize_text("retryTimeout config.go"),
        "retry timeout config go"
    );
}

#[test]
fn plain_form_keeps_letters_and_digits_only() {
    assert_eq!(normalize_text("cfg.Timeout = 30"), "cfg timeout 30");
    assert_eq!(normalize_text("HTTPServer2Go"), "httpserver2 go");
    assert_eq!(normalize_text("  --  "), "");
    assert_eq!(normalize_text("na\u{ef}ve"), "na ve");
}

#[test]
fn plain_form_of_plain_form_is_itself() {
    let plain = normalize_text("retryTimeout: config.go / README");
    assert_eq!(normalize_text(&plain), plain);
}

#[test]
fn query_has_each_term_once() {
    let query = Query::from_raw("timeout config Timeout").expect("query");
    assert_eq!(query.normalized_phrase, "timeout config timeout");
    assert_eq!(query.terms, owned(&["timeout", "config"]));
}

#[test]
fn query_without_terms_is_refused() {
    let error = match Query::from_raw("-- !!") {
        Ok(_) => panic!("expected an error"),
        Err(message) => message,
    };
    assert_eq!(error, "query must contain at least one searchable term");
}

#[test]
fn hits_are_exact_or_partial() {
    let tokens = tokenize("timeout timeouts config timeout");
    assert_eq!(count_exact_hits(&tokens, "timeout"), 2);
    assert_eq!(count_partial_hits(&tokens, "timeout", false), 1);
    assert_eq!(count_partial_hits(&tokens, "timeout", true), 1);
    assert!(contains_partial_token(&tokens, "time"));
    assert!(!contains_partial_token(&tokens, "config"));
    assert_eq!(count_exact_hits(&tokens, "none"), 0);
}

#[test]
fn splitting_what_was_joined_gives_the_words() {
    let words = owned(&["alpha", "beta", "gamma"]);
    assert_eq!(tokenize(&join(&words, " ")), words);
    assert_eq!(tokenize(" \t alpha\u{a0}beta\n"), owned(&["alpha", "beta"]));
}

#[test]
fn plain_form_has_a_space_where_a_word_begins() {
    assert_eq!(normalize_text("fooBar"), "foo bar");
    assert_eq!(normalize_text("v2Api"), "v2 api");
    assert_eq!(normalize_text("HTTPServer"), "httpserver");
    assert_eq!(normalize_text("a--b\u{fc}c"), "a b c");
    assert_eq!(normalize_text("  x  "), "x");
}
