//! Matching of lines: the matcher of a query, the matches within a line, and the lines of a content
//! that match.

use vstd::prelude::*;

use grep_matcher::Matcher;
use grep_regex::{RegexMatcher, RegexMatcherBuilder};
use grep_searcher::{sinks, BinaryDetection, SearcherBuilder};

use crate::cli::{CaseMode, Cli, MatchMode};
use crate::query::{Query, QueryView};
use crate::text::texts;

verus! {

/// A matcher of `grep-regex`.
#[verifier::external_type_specification]
#[verifier::external_body]
pub struct ExRegexMatcher(grep_regex::RegexMatcher);

/// How a matcher is made: which case it heeds, and whether it matches whole words or whole lines
/// only.
#[derive(Debug, Clone, Copy, PartialEq, Eq, Structural)]
pub struct MatcherOptions {
    /// Whether letters match both cases.
    pub case_insensitive: bool,
    /// Whether letters match both cases where the pattern holds no upper-case letter.
    pub case_smart: bool,
    /// Whether only whole words match.
    pub word: bool,
    /// Whether only whole lines match.
    pub whole_line: bool,
}

/// The matcher that `RegexMatcherBuilder::build` makes of a pattern, or the text of its error.
pub uninterp spec fn regex_built(pattern: Seq<char>, options: MatcherOptions) -> Result<
    RegexMatcher,
    Seq<char>,
>;

/// The matcher that `RegexMatcherBuilder::build_literals` makes of literals, or the text of its
/// error.
pub uninterp spec fn literals_built(literals: Seq<Seq<char>>, options: MatcherOptions) -> Result<
    RegexMatcher,
    Seq<char>,
>;

/// The first match that `RegexMatcher::find_at` finds in `haystack` from byte `at` on.
pub uninterp spec fn match_from(matcher: RegexMatcher, haystack: Seq<u8>, at: nat) -> Option<
    (usize, usize),
>;

/// The lines of `content` that `Searcher::search_reader` hands on, each with its number and its
/// ending, or the text of its error.
pub uninterp spec fn lines_matched(matcher: RegexMatcher, content: Seq<u8>) -> Result<
    Seq<(u64, Seq<u8>)>,
    Seq<char>,
>;

/// Whether a result is the named one, with an error taken as its text.
pub open spec fn same_result(
    result: Result<RegexMatcher, String>,
    named: Result<RegexMatcher, Seq<char>>,
) -> bool {
    match (result, named) {
        (Ok(matcher), Ok(name)) => matcher == name,
        (Err(message), Err(text)) => message@ == text,
        _ => false,
    }
}

/// `RegexMatcherBuilder::build` of `grep-regex`, with the options set and all else at its default:
/// the matcher depends on the pattern and the options alone, and so does the error.
#[verifier::external_body]
fn regex_matcher(pattern: &str, options: &MatcherOptions) -> (result: Result<RegexMatcher, String>)
    ensures
        same_result(result, regex_built(pattern@, *options)),
{
    RegexMatcherBuilder::new()
        .case_insensitive(options.case_insensitive)
        .case_smart(options.case_smart)
        .word(options.word)
        .whole_line(options.whole_line)
        .build(pattern)
        .map_err(|error| error.to_string())
}

/// `RegexMatcherBuilder::build_literals` of `grep-regex`, with the options set and all else at its
/// default: the matcher depends on the literals and the options alone, and so does the error.
#[verifier::external_body]
fn literal_matcher(literals: &Vec<String>, options: &MatcherOptions) -> (result: Result<
    RegexMatcher,
    String,
>)
    ensures
        same_result(result, literals_built(texts(literals@), *options)),
{
    RegexMatcherBuilder::new()
        .case_insensitive(options.case_insensitive)
        .case_smart(options.case_smart)
        .word(options.word)
        .whole_line(options.whole_line)
        .build_literals(literals.as_slice())
        .map_err(|error| error.to_string())
}

/// `RegexMatcher::find_at` of `grep-regex`: the first match from byte `at` on, which lies within
/// the bytes from there on. It never fails.
#[verifier::external_body]
fn find_match(matcher: &RegexMatcher, haystack: &Vec<u8>, at: usize) -> (found: Option<
    (usize, usize),
>)
    requires
        at <= haystack@.len(),
    ensures
        found == match_from(*matcher, haystack@, at as nat),
        match found {
            Some((start, end)) => at <= start <= end <= haystack@.len(),
            None => true,
        },
{
    let found = matcher.find_at(haystack.as_slice(), at).ok().flatten();
    found.map(|span| (span.start(), span.end()))
}

/// How the case mode, the word switch and the line switch of a command line make a matcher.
pub open spec fn matcher_options(cli: Cli) -> MatcherOptions {
    MatcherOptions {
        case_insensitive: cli.case_mode is Insensitive,
        case_smart: cli.case_mode is Smart,
        word: cli.word_regexp,
        whole_line: cli.line_regexp,
    }
}

/// The matcher of a query: the whole text as a regular expression, or its terms as literals.
pub open spec fn matcher_of(cli: Cli, query_text: Seq<char>, query: QueryView) -> Result<
    RegexMatcher,
    Seq<char>,
> {
    match cli.match_mode {
        MatchMode::Regex => regex_built(query_text, matcher_options(cli)),
        MatchMode::FixedStrings => literals_built(query.terms, matcher_options(cli)),
    }
}

/// The matcher of a query.
pub fn build_matcher(cli: &Cli, query_text: &str, query: &Query) -> (result: Result<
    RegexMatcher,
    String,
>)
    ensures
        same_result(result, matcher_of(*cli, query_text@, query@)),
{
    let (case_insensitive, case_smart) = match cli.case_mode {
        CaseMode::Smart => (false, true),
        CaseMode::Sensitive => (false, false),
        CaseMode::Insensitive => (true, false),
    };
    let options = MatcherOptions {
        case_insensitive,
        case_smart,
        word: cli.word_regexp,
        whole_line: cli.line_regexp,
    };
    match cli.match_mode {
        MatchMode::Regex => regex_matcher(query_text, &options),
        MatchMode::FixedStrings => literal_matcher(&query.terms, &options),
    }
}

/// The matches from byte `at` on: each is looked for where the one before ended, or one byte
/// further where that one did not get past where it was looked for.
pub open spec fn submatches_from(matcher: RegexMatcher, line: Seq<u8>, at: nat) -> Seq<
    (usize, usize),
>
    decreases
            (if at <= line.len() {
                line.len() + 1 - at
            } else {
                0
            }),
{
    if at > line.len() {
        Seq::empty()
    } else {
        match match_from(matcher, line, at) {
            None => Seq::empty(),
            Some(found) => {
                let next = if found.1 > at {
                    found.1 as nat
                } else {
                    at + 1
                };
                seq![found] + submatches_from(matcher, line, next)
            },
        }
    }
}

/// The matches within a line.
pub fn find_submatches(matcher: &RegexMatcher, line: &Vec<u8>) -> (submatches: Vec<(usize, usize)>)
    ensures
        submatches@ == submatches_from(*matcher, line@, 0),
        forall|i: int|
            0 <= i < submatches@.len() ==> (#[trigger] submatches@[i]).0 <= submatches@[i].1
                <= line@.len(),
        forall|i: int, j: int|
            0 <= i < j < submatches@.len() ==> (#[trigger] submatches@[i]).1 <= (
            #[trigger] submatches@[j]).0,
{
    let mut submatches: Vec<(usize, usize)> = Vec::new();
    let mut at: usize = 0;
    let length: usize = line.len();
    let ghost all = submatches_from(*matcher, line@, 0);
    let mut ended = false;
    assert(all == submatches@ + all);
    while !ended && at <= length
        invariant
            length == line@.len(),
            all == submatches_from(*matcher, line@, 0),
            !ended ==> all == submatches@ + submatches_from(*matcher, line@, at as nat),
            ended ==> all == submatches@,
            at <= length + 1,
            forall|i: int|
                0 <= i < submatches@.len() ==> (#[trigger] submatches@[i]).0 <= submatches@[i].1
                    <= length,
            forall|i: int| 0 <= i < submatches@.len() ==> (#[trigger] submatches@[i]).1 <= at,
            forall|i: int, j: int|
                0 <= i < j < submatches@.len() ==> (#[trigger] submatches@[i]).1 <= (
                #[trigger] submatches@[j]).0,
        decreases
                length + 1 - at,
                (if ended {
                    0int
                } else {
                    1int
                }),
    {
        match find_match(matcher, line, at) {
            None => {
                assert(submatches_from(*matcher, line@, at as nat) == Seq::<(usize, usize)>::empty());
                assert(all == submatches@);
                ended = true;
            },
            Some(found) => {
                let ghost before = submatches@;
                submatches.push(found);
                if found.1 > at {
                    at = found.1;
                } else if at == length {
                    assert(all == submatches@) by {
                        assert(submatches_from(*matcher, line@, (at + 1) as nat) == Seq::<
                            (usize, usize),
                        >::empty());
                        assert(all == before + (seq![found] + Seq::<(usize, usize)>::empty()));
                    }
                    ended = true;
                } else {
                    at = at + 1;
                }
                assert(!ended ==> all == submatches@ + submatches_from(
                    *matcher,
                    line@,
                    at as nat,
                )) by {
                    let rest = submatches_from(*matcher, line@, at as nat);
                    if !ended {
                        assert(all == before + (seq![found] + rest));
                        assert(before + (seq![found] + rest) == before.push(found) + rest);
                    }
                }
            },
        }
    }
    if !ended {
        assert(submatches_from(*matcher, line@, at as nat) == Seq::<(usize, usize)>::empty());
        assert(all == submatches@);
    }
    submatches
}

/// A line that matches.
#[derive(Debug, Clone)]
pub struct FoundLine {
    /// The number of the line, counted from one.
    pub number: u64,
    /// The line, with its ending.
    pub bytes: Vec<u8>,
}

/// Lines that match, with their bytes as sequences.
pub open spec fn line_views(lines: Seq<FoundLine>) -> Seq<(u64, Seq<u8>)> {
    Seq::new(lines.len(), |i: int| (lines[i].number, lines[i].bytes@))
}

/// Whether lines are numbered from one and in ascending order.
pub open spec fn numbers_ascend(lines: Seq<FoundLine>) -> bool {
    &&& forall|i: int| 0 <= i < lines.len() ==> (#[trigger] lines[i]).number >= 1
    &&& forall|i: int, j: int|
        0 <= i < j < lines.len() ==> (#[trigger] lines[i]).number < (#[trigger] lines[j]).number
}

/// Keeps a line that matches; the search always goes on.
fn keep_line(lines: &mut Vec<FoundLine>, number: u64, bytes: &[u8]) -> (go_on: bool)
    ensures
        go_on,
        line_views(final(lines)@) == line_views(old(lines)@).push((number, bytes@)),
{
    lines.push(FoundLine { number, bytes: vstd::slice::slice_to_vec(bytes) });
    assert(line_views(lines@) == line_views(old(lines)@).push((number, bytes@)));
    true
}

/// `Searcher::search_reader` of `grep-searcher` on bytes in memory, with line numbers and with a
/// stop at the first NUL byte, and all else at its default: the lines in which the matcher finds a
/// match. Each is handed on once, in the order of the content, with its number; the first line of
/// the content has number one.
#[verifier::external_body]
fn matching_lines(matcher: &RegexMatcher, content: &Vec<u8>) -> (result: Result<
    Vec<FoundLine>,
    String,
>)
    ensures
        match (result, lines_matched(*matcher, content@)) {
            (Ok(lines), Ok(named)) => line_views(lines@) == named && numbers_ascend(lines@),
            (Err(message), Err(named)) => message@ == named,
            _ => false,
        },
{
    let mut lines: Vec<FoundLine> = Vec::new();
    let sink = sinks::Bytes(|number, bytes| Ok(keep_line(&mut lines, number, bytes)));
    let mut builder = SearcherBuilder::new();
    builder.line_number(true);
    builder.binary_detection(BinaryDetection::quit(0));
    let result = builder.build().search_reader(matcher, content.as_slice(), sink);
    match result {
        Ok(()) => Ok(lines),
        Err(error) => Err(error.to_string()),
    }
}

/// Lines that match, or the text of an error, as sequences.
pub open spec fn found_view(result: Result<Vec<FoundLine>, String>) -> Result<
    Seq<(u64, Seq<u8>)>,
    Seq<char>,
> {
    match result {
        Ok(lines) => Ok(line_views(lines@)),
        Err(message) => Err(message@),
    }
}

/// The lines of a content that match.
pub fn search_content(matcher: &RegexMatcher, content: &Vec<u8>) -> (result: Result<
    Vec<FoundLine>,
    String,
>)
    ensures
        found_view(result) == lines_matched(*matcher, content@),
        result is Ok ==> numbers_ascend(result->Ok_0@),
{
    matching_lines(matcher, content)
}

} // verus!
