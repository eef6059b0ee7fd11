//! Searches that also hand on the lines around those that match.

use vstd::prelude::*;

use grep_regex::RegexMatcher;
use grep_searcher::{
    BinaryDetection, Searcher, SearcherBuilder, Sink, SinkContext, SinkFinish, SinkMatch,
};

use crate::sinks::SearchEnd;

verus! {

/// An error of the standard library's input and output.
#[verifier::external_type_specification]
#[verifier::external_body]
pub struct ExIoError(std::io::Error);

/// A searcher of `grep-searcher`.
#[verifier::external_type_specification]
#[verifier::external_body]
pub struct ExSearcher(grep_searcher::Searcher);

/// A match that a searcher of `grep-searcher` hands on.
#[verifier::external_type_specification]
#[verifier::external_body]
pub struct ExSinkMatch<'b>(grep_searcher::SinkMatch<'b>);

/// A line near a match that a searcher of `grep-searcher` hands on.
#[verifier::external_type_specification]
#[verifier::external_body]
pub struct ExSinkContext<'b>(grep_searcher::SinkContext<'b>);

/// What a searcher of `grep-searcher` says at its end.
#[verifier::external_type_specification]
#[verifier::external_body]
pub struct ExSinkFinish(grep_searcher::SinkFinish);

/// A line that matches or stands near one that does.
#[derive(Debug, Clone)]
pub struct AroundLine {
    /// Whether the line matches.
    pub is_match: bool,
    /// The number of the line, counted from one, where lines are counted.
    pub number: Option<u64>,
    /// The place of the line's first byte in the content.
    pub offset: u64,
    /// The line, with its ending.
    pub bytes: Vec<u8>,
}

/// What a search with the lines around matches came to.
#[derive(Debug, Clone)]
pub struct AroundLines {
    /// The lines, in the order of the content.
    pub lines: Vec<AroundLine>,
    /// What the search said at its end.
    pub end: Option<SearchEnd>,
}

/// Lines, with their bytes as sequences.
pub open spec fn around_views(lines: Seq<AroundLine>) -> Seq<(bool, Option<u64>, u64, Seq<u8>)> {
    Seq::new(
        lines.len(),
        |i: int| (lines[i].is_match, lines[i].number, lines[i].offset, lines[i].bytes@),
    )
}

/// What `Searcher::search_reader` hands on of `content`: the lines that match and those around them,
/// and what it says at its end; or the text of its error.
pub uninterp spec fn lines_around(
    matcher: RegexMatcher,
    before: usize,
    after: usize,
    content: Seq<u8>,
) -> Result<(Seq<(bool, Option<u64>, u64, Seq<u8>)>, Option<SearchEnd>), Seq<char>>;

impl AroundLines {
    /// Nothing yet.
    fn new() -> (around: AroundLines)
        ensures
            around.lines@.len() == 0,
            around.end is None,
    {
        AroundLines { lines: Vec::new(), end: None }
    }

    /// Takes a line; the search always goes on.
    fn take_line(&mut self, is_match: bool, number: Option<u64>, offset: u64, bytes: &[u8]) -> (
    go_on: bool)
        ensures
            go_on,
            around_views(final(self).lines@) == around_views(old(self).lines@).push(
                (is_match, number, offset, bytes@),
            ),
            final(self).end == old(self).end,
    {
        let ghost before = self.lines@;
        let bytes = vstd::slice::slice_to_vec(bytes);
        self.lines.push(AroundLine { is_match, number, offset, bytes });
        assert(around_views(self.lines@) == around_views(before).push(
            (is_match, number, offset, bytes@),
        ));
        true
    }
}

impl Sink for AroundLines {
    type Error = std::io::Error;

    /// Takes a match of a searcher of `grep-searcher`; nothing is claimed of it.
    #[verifier::external_body]
    fn matched(&mut self, _searcher: &Searcher, found: &SinkMatch<'_>) -> (result: Result<
        bool,
        std::io::Error,
    >) {
        Ok(self.take_line(true, found.line_number(), found.absolute_byte_offset(), found.bytes()))
    }

    /// Takes a line near a match of a searcher of `grep-searcher`; nothing is claimed of it.
    #[verifier::external_body]
    fn context(&mut self, _searcher: &Searcher, near: &SinkContext<'_>) -> (result: Result<
        bool,
        std::io::Error,
    >) {
        Ok(self.take_line(false, near.line_number(), near.absolute_byte_offset(), near.bytes()))
    }

    /// Takes what a searcher of `grep-searcher` says at its end; nothing is claimed of it.
    #[verifier::external_body]
    fn finish(&mut self, _searcher: &Searcher, end: &SinkFinish) -> (result: Result<
        (),
        std::io::Error,
    >) {
        let byte_count = end.byte_count();
        self.end = Some(SearchEnd { binary_offset: end.binary_byte_offset(), byte_count });
        Ok(())
    }
}

/// `Searcher::search_reader` of `grep-searcher` on bytes in memory, with line numbers, with lines
/// before and after matches and with a stop at the first NUL byte, and all else at its default: what
/// it hands on depends on the matcher, on the two numbers of lines and on the content alone.
#[verifier::external_body]
fn matching_lines_around(
    matcher: &RegexMatcher,
    before: usize,
    after: usize,
    content: &Vec<u8>,
) -> (result: Result<AroundLines, String>)
    ensures
        match (result, lines_around(*matcher, before, after, content@)) {
            (Ok(around), Ok(named)) => around_views(around.lines@) == named.0 && around.end
                == named.1,
            (Err(message), Err(named)) => message@ == named,
            _ => false,
        },
{
    let mut sink = AroundLines::new();
    let mut builder = SearcherBuilder::new();
    builder.line_number(true).before_context(before).after_context(after);
    builder.binary_detection(BinaryDetection::quit(0));
    let result = builder.build().search_reader(matcher, content.as_slice(), &mut sink);
    match result {
        Ok(()) => Ok(sink),
        Err(error) => Err(error.to_string()),
    }
}

/// What a search with the lines around matches came to, or the text of an error, as sequences.
pub open spec fn around_view(result: Result<AroundLines, String>) -> Result<
    (Seq<(bool, Option<u64>, u64, Seq<u8>)>, Option<SearchEnd>),
    Seq<char>,
> {
    match result {
        Ok(around) => Ok((around_views(around.lines@), around.end)),
        Err(message) => Err(message@),
    }
}

/// The lines of a content that match, with those around them.
pub fn search_around(matcher: &RegexMatcher, before: usize, after: usize, content: &Vec<u8>) -> (
    result: Result<AroundLines, String>)
    ensures
        around_view(result) == lines_around(*matcher, before, after, content@),
{
    matching_lines_around(matcher, before, after, content)
}

} // verus!
