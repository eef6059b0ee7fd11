//! What becomes of the lines that match: records for ranking, a count, or events for output.

use vstd::prelude::*;

use grep_regex::RegexMatcher;

use crate::around::{around_views, AroundLines};
use crate::bytes::{
    decoded, lossy_text, trim_line_ending, trim_line_ending_bytes, without_ending,
    without_line_ends,
};
use crate::candidate::{
    found_terms_are_those_found, line_fits, lines_fit, score_line_against_query, scored,
    FilePath, LineMatchRecord,
};
use crate::cover::in_line_order;
use crate::json::JsonDuration;
use crate::matcher::{find_submatches, numbers_ascend, submatches_from, FoundLine};
use crate::query::{normalize_text, normalized, Query};
use crate::text::{texts, words};

verus! {

/// The number of a line, as a place in memory counts; the greatest such number where it is greater
/// still.
pub open spec fn line_number_of(number: u64) -> usize {
    if number <= usize::MAX {
        number as usize
    } else {
        usize::MAX
    }
}

/// The number of a line, as a place in memory counts.
pub fn to_line_number(number: u64) -> (line_number: usize)
    ensures
        line_number == line_number_of(number),
{
    if number <= usize::MAX as u64 {
        number as usize
    } else {
        usize::MAX
    }
}

/// Whether a record is that of a line.
pub open spec fn is_record(
    query: Query,
    number: u64,
    line: Seq<u8>,
    record: LineMatchRecord,
) -> bool {
    &&& record.line_number == line_number_of(number)
    &&& record.text@ == without_line_ends(decoded(line))
    &&& record.normalized_text@ == normalized(record.text@)
    &&& scored(query, record.normalized_text@, record.matched_terms@, record.hint)
}

/// Records lines for ranking, up to a limit.
#[derive(Debug, Clone)]
pub struct CollectingSink {
    /// The query.
    pub query: Query,
    /// How many lines are recorded at most.
    pub limit: usize,
    /// The recorded lines.
    pub lines: Vec<LineMatchRecord>,
    /// Whether a line came that was not recorded for the limit.
    pub hit_limit: bool,
}

/// The record of a line.
pub fn record_line(query: &Query, number: u64, line: &Vec<u8>) -> (record: LineMatchRecord)
    ensures
        is_record(*query, number, line@, record),
        number >= 1 ==> line_fits(record, query.terms@.len()),
{
    let whole = lossy_text(line);
    let text = trim_line_ending(whole.as_str());
    let normalized_text = normalize_text(text.as_str());
    let (matched_terms, hint) = score_line_against_query(query, normalized_text.as_str());
    let term_count: usize = query.terms.len();
    proof {
        found_terms_are_those_found(
            texts(query.terms@),
            words(normalized_text@),
            query.terms@.len() as int,
        );
    }
    LineMatchRecord {
        line_number: to_line_number(number),
        text,
        normalized_text,
        matched_terms,
        hint,
    }
}

impl CollectingSink {
    /// Whether no more lines are recorded than the limit allows.
    pub open spec fn wf(self) -> bool {
        self.lines@.len() <= self.limit
    }

    /// Records up to `limit` lines.
    pub fn new(query: Query, limit: usize) -> (sink: CollectingSink)
        ensures
            sink.wf(),
            sink.query == query,
            sink.limit == limit,
            sink.lines@.len() == 0,
            !sink.hit_limit,
    {
        CollectingSink { query, limit, lines: Vec::new(), hit_limit: false }
    }

    /// Takes a line that matches, and says whether the search goes on.
    pub fn matched(&mut self, number: u64, line: &Vec<u8>) -> (go_on: bool)
        requires
            old(self).wf(),
        ensures
            final(self).wf(),
            final(self).query == old(self).query,
            final(self).limit == old(self).limit,
            go_on == (old(self).lines@.len() < old(self).limit),
            final(self).hit_limit == (old(self).hit_limit || !go_on),
            !go_on ==> final(self).lines == old(self).lines,
            go_on ==> {
                &&& final(self).lines@.len() == old(self).lines@.len() + 1
                &&& final(self).lines@.drop_last() == old(self).lines@
                &&& is_record(old(self).query, number, line@, final(self).lines@.last())
                &&& number >= 1 ==> line_fits(
                    final(self).lines@.last(),
                    old(self).query.terms@.len(),
                )
            },
    {
        if self.lines.len() >= self.limit {
            self.hit_limit = true;
            return false;
        }
        let record = record_line(&self.query, number, line);
        self.lines.push(record);
        assert(self.lines@.drop_last() == old(self).lines@);
        true
    }

    /// Takes the lines that match, one after the other, as long as there is room.
    pub fn take_lines(&mut self, found: &Vec<FoundLine>)
        requires
            old(self).wf(),
            old(self).lines@.len() == 0,
            numbers_ascend(found@),
        ensures
            final(self).wf(),
            final(self).query == old(self).query,
            final(self).limit == old(self).limit,
            collected(old(self).query, old(self).limit, found@, final(self).lines@),
            final(self).hit_limit == (old(self).hit_limit || found@.len() > old(self).limit),
            lines_fit(final(self).lines@, old(self).query.terms@.len()),
            in_line_order(final(self).lines@),
    {
        let mut at: usize = 0;
        let mut go_on = true;
        while go_on && at < found.len()
            invariant
                numbers_ascend(found@),
                self.wf(),
                self.query == old(self).query,
                self.limit == old(self).limit,
                at <= found@.len(),
                go_on ==> self.lines@.len() == at && self.hit_limit == old(self).hit_limit,
                !go_on ==> self.lines@.len() == self.limit && self.limit < found@.len()
                    && self.hit_limit,
                self.lines@.len() <= found@.len(),
                forall|i: int|
                    0 <= i < self.lines@.len() ==> is_record(
                        self.query,
                        found@[i].number,
                        found@[i].bytes@,
                        #[trigger] self.lines@[i],
                    ),
                lines_fit(self.lines@, self.query.terms@.len()),
            decreases
                    found@.len() - at,
                    (if go_on {
                        1int
                    } else {
                        0int
                    }),
        {
            let ghost before = self.lines@;
            go_on = self.matched(found[at].number, &found[at].bytes);
            proof {
                assert forall|i: int| 0 <= i < self.lines@.len() implies is_record(
                    self.query,
                    found@[i].number,
                    found@[i].bytes@,
                    #[trigger] self.lines@[i],
                ) by {
                    if i < before.len() {
                        assert(self.lines@[i] == before[i]);
                    }
                }
                assert forall|i: int| 0 <= i < self.lines@.len() implies #[trigger] line_fits(
                    self.lines@[i],
                    self.query.terms@.len(),
                ) by {
                    if i < before.len() {
                        assert(self.lines@[i] == before[i]);
                        assert(line_fits(before[i], self.query.terms@.len()));
                    }
                }
            }
            if go_on {
                at = at + 1;
            }
        }
    }
}

/// Whether the records are those of the lines, up to a limit.
pub open spec fn collected(
    query: Query,
    limit: usize,
    found: Seq<FoundLine>,
    lines: Seq<LineMatchRecord>,
) -> bool {
    &&& lines.len() == if found.len() <= limit {
        found.len()
    } else {
        limit as nat
    }
    &&& forall|i: int|
        0 <= i < lines.len() ==> is_record(
            query,
            found[i].number,
            found[i].bytes@,
            #[trigger] lines[i],
        )
}

/// Counts lines.
#[derive(Debug, Clone)]
pub struct CountingSink {
    /// The number of lines that matched.
    pub match_count: usize,
    /// Whether the search stops at the first match.
    pub stop_after_first: bool,
}

/// How many of `found` lines are counted.
pub open spec fn lines_counted(found: nat, stop_after_first: bool) -> nat {
    if stop_after_first && found > 1 {
        1
    } else {
        found
    }
}

impl CountingSink {
    /// Counts from zero.
    pub fn new(stop_after_first: bool) -> (sink: CountingSink)
        ensures
            sink.match_count == 0,
            sink.stop_after_first == stop_after_first,
    {
        CountingSink { match_count: 0, stop_after_first }
    }

    /// Takes a match of so many lines, and says whether the search goes on.
    pub fn matched(&mut self, line_count: usize) -> (go_on: bool)
        requires
            old(self).match_count + line_count <= usize::MAX,
        ensures
            final(self).match_count == old(self).match_count + line_count,
            final(self).stop_after_first == old(self).stop_after_first,
            go_on == !old(self).stop_after_first,
    {
        self.match_count = self.match_count + line_count;
        !self.stop_after_first
    }

    /// Takes the lines that match, one after the other, as long as the search goes on.
    pub fn take_lines(&mut self, found: &Vec<FoundLine>)
        requires
            old(self).match_count == 0,
        ensures
            final(self).match_count == lines_counted(found@.len(), old(self).stop_after_first),
            final(self).stop_after_first == old(self).stop_after_first,
    {
        let mut at: usize = 0;
        let mut go_on = true;
        let total: usize = found.len();
        while go_on && at < total
            invariant
                total == found@.len(),
                at <= total,
                self.stop_after_first == old(self).stop_after_first,
                self.match_count == at,
                go_on == (at == 0 || !self.stop_after_first),
                self.stop_after_first ==> at <= 1,
            decreases total - at,
        {
            go_on = self.matched(1);
            at = at + 1;
        }
    }
}

/// A line that matches, for output.
#[derive(Debug, Clone)]
pub struct MatchEvent {
    /// The path of the file.
    pub path: FilePath,
    /// The number of the line in the file, counted from one.
    pub line_number: usize,
    /// The place of the first match in the line, counted from one.
    pub column: Option<usize>,
    /// The line, without its ending.
    pub text: String,
    /// The matches in the line, each from a byte to a byte.
    pub submatches: Vec<(usize, usize)>,
}

/// Makes events of lines that match.
#[derive(Debug, Clone)]
pub struct MatchEventSink {
    /// The path of the file.
    pub path: FilePath,
    /// Whether the matches in a line are looked for.
    pub capture_matches: bool,
    /// The events.
    pub events: Vec<MatchEvent>,
}

/// The place of a byte in its line, counted from one.
pub open spec fn column_of(start: usize) -> usize {
    if start < usize::MAX {
        (start + 1) as usize
    } else {
        start
    }
}

/// The place of the first match, counted from one.
pub open spec fn first_column(submatches: Seq<(usize, usize)>) -> Option<usize> {
    if submatches.len() > 0 {
        Some(column_of(submatches[0].0))
    } else {
        None
    }
}

/// The matches in a line, where they are looked for.
pub open spec fn captured(matcher: RegexMatcher, capture: bool, line: Seq<u8>) -> Seq<
    (usize, usize),
> {
    if capture {
        submatches_from(matcher, line, 0)
    } else {
        Seq::empty()
    }
}

/// Whether an event is that of a line.
pub open spec fn is_match_event(
    path: FilePath,
    matcher: RegexMatcher,
    capture: bool,
    number: u64,
    line: Seq<u8>,
    event: MatchEvent,
) -> bool {
    let bytes = without_ending(line);
    &&& event.path == path
    &&& event.line_number == line_number_of(number)
    &&& event.text@ == decoded(bytes)
    &&& event.submatches@ == captured(matcher, capture, bytes)
    &&& event.column == first_column(event.submatches@)
}

impl MatchEventSink {
    /// Makes events for a file.
    pub fn new(path: FilePath, capture_matches: bool) -> (sink: MatchEventSink)
        ensures
            sink.path == path,
            sink.capture_matches == capture_matches,
            sink.events@.len() == 0,
    {
        MatchEventSink { path, capture_matches, events: Vec::new() }
    }

    /// Takes a line that matches; the search always goes on.
    pub fn matched(&mut self, matcher: &RegexMatcher, number: u64, line: &Vec<u8>) -> (go_on: bool)
        ensures
            go_on,
            final(self).path == old(self).path,
            final(self).capture_matches == old(self).capture_matches,
            final(self).events@.len() == old(self).events@.len() + 1,
            final(self).events@.drop_last() == old(self).events@,
            is_match_event(
                old(self).path,
                *matcher,
                old(self).capture_matches,
                number,
                line@,
                final(self).events@.last(),
            ),
    {
        let bytes = trim_line_ending_bytes(line);
        let submatches = if self.capture_matches {
            find_submatches(matcher, &bytes)
        } else {
            Vec::new()
        };
        let column: Option<usize> = if submatches.len() > 0 {
            let start: usize = submatches[0].0;
            if start < usize::MAX {
                Some(start + 1)
            } else {
                Some(start)
            }
        } else {
            None
        };
        self.events.push(
            MatchEvent {
                path: self.path.copy(),
                line_number: to_line_number(number),
                column,
                text: lossy_text(&bytes),
                submatches,
            },
        );
        assert(self.events@.drop_last() == old(self).events@);
        true
    }

    /// Takes the lines that match, one after the other.
    pub fn take_lines(&mut self, matcher: &RegexMatcher, found: &Vec<FoundLine>)
        requires
            old(self).events@.len() == 0,
        ensures
            final(self).path == old(self).path,
            final(self).capture_matches == old(self).capture_matches,
            are_match_events(
                old(self).path,
                *matcher,
                old(self).capture_matches,
                found@,
                final(self).events@,
            ),
    {
        let mut at: usize = 0;
        while at < found.len()
            invariant
                self.path == old(self).path,
                self.capture_matches == old(self).capture_matches,
                at == self.events@.len() <= found@.len(),
                forall|i: int|
                    0 <= i < at ==> is_match_event(
                        self.path,
                        *matcher,
                        self.capture_matches,
                        found@[i].number,
                        found@[i].bytes@,
                        #[trigger] self.events@[i],
                    ),
            decreases found@.len() - at,
        {
            let ghost before = self.events@;
            let _ = self.matched(matcher, found[at].number, &found[at].bytes);
            proof {
                assert forall|i: int| 0 <= i < self.events@.len() implies is_match_event(
                    self.path,
                    *matcher,
                    self.capture_matches,
                    found@[i].number,
                    found@[i].bytes@,
                    #[trigger] self.events@[i],
                ) by {
                    if i < before.len() {
                        assert(self.events@[i] == before[i]);
                    }
                }
            }
            at = at + 1;
        }
    }
}

/// Whether the events are those of the lines, one for each.
pub open spec fn are_match_events(
    path: FilePath,
    matcher: RegexMatcher,
    capture: bool,
    found: Seq<FoundLine>,
    events: Seq<MatchEvent>,
) -> bool {
    &&& events.len() == found.len()
    &&& forall|i: int|
        0 <= i < events.len() ==> is_match_event(
            path,
            matcher,
            capture,
            found[i].number,
            found[i].bytes@,
            #[trigger] events[i],
        )
}

/// What a line event of the JSON output stands for.
#[derive(Debug, Clone, Copy, PartialEq, Eq, Structural)]
pub enum JsonLineEventKind {
    Context,
    Match,
}

/// A line, for the JSON output.
#[derive(Debug, Clone)]
pub struct JsonLineEvent {
    /// Whether the line matches or stands near one that does.
    pub kind: JsonLineEventKind,
    /// The number of the line in the file, counted from one.
    pub line_number: usize,
    /// The place of the line's first byte in the content.
    pub absolute_offset: u64,
    /// The line, with its ending.
    pub text: String,
    /// The matches in the line, each from a byte to a byte.
    pub submatches: Vec<(usize, usize)>,
}

/// What a search says at its end.
#[derive(Debug, Clone, Copy, PartialEq, Eq, Structural)]
pub struct SearchEnd {
    /// The place of the first NUL byte, where one stopped the search.
    pub binary_offset: Option<u64>,
    /// The number of bytes searched.
    pub byte_count: u64,
}

/// Makes events for the JSON output.
#[derive(Debug, Clone)]
pub struct JsonEventSink {
    /// The path of the file.
    pub path: FilePath,
    /// The number of lines that match.
    pub matched_lines: usize,
    /// The number of matches, with at least one for each line that matches.
    pub matches: u128,
    /// The events.
    pub events: Vec<JsonLineEvent>,
    /// What the search said at its end.
    pub finished: Option<SearchEnd>,
}

/// What the search of a file came to, for the JSON output.
#[derive(Debug, Clone)]
pub struct JsonFileResult {
    /// The path of the file.
    pub path: FilePath,
    /// The number of lines that match.
    pub matched_lines: usize,
    /// The number of matches.
    pub matches: u128,
    /// The place of the first NUL byte, where one stopped the search.
    pub binary_offset: Option<u64>,
    /// The number of bytes searched.
    pub bytes_searched: u64,
    /// How long the search took.
    pub elapsed: JsonDuration,
    /// The events.
    pub events: Vec<JsonLineEvent>,
}

impl JsonFileResult {
    /// Whether the time is shown on one line.
    pub open spec fn wf(self) -> bool {
        self.elapsed.wf()
    }
}

/// The number of events for lines that match.
pub open spec fn match_events(events: Seq<JsonLineEvent>) -> nat
    decreases events.len(),
{
    if events.len() == 0 {
        0
    } else {
        match_events(events.drop_last()) + if events.last().kind is Match {
            1nat
        } else {
            0nat
        }
    }
}

/// The number of matches, with at least one for each line that matches.
pub open spec fn match_total(events: Seq<JsonLineEvent>) -> nat
    decreases events.len(),
{
    if events.len() == 0 {
        0
    } else {
        match_total(events.drop_last()) + if events.last().kind is Match {
            if events.last().submatches@.len() > 0 {
                events.last().submatches@.len()
            } else {
                1nat
            }
        } else {
            0nat
        }
    }
}

/// No more lines match than there are events.
proof fn lemma_match_events(events: Seq<JsonLineEvent>)
    ensures
        match_events(events) <= events.len(),
    decreases events.len(),
{
    if events.len() > 0 {
        lemma_match_events(events.drop_last());
    }
}

/// Whether an event is that of a line that matches.
pub open spec fn is_json_match(
    matcher: RegexMatcher,
    number: u64,
    offset: u64,
    line: Seq<u8>,
    event: JsonLineEvent,
) -> bool {
    &&& event.kind is Match
    &&& event.line_number == line_number_of(number)
    &&& event.absolute_offset == offset
    &&& event.text@ == decoded(line)
    &&& event.submatches@ == submatches_from(matcher, line, 0)
}

/// Whether an event is that of a line near one that matches.
pub open spec fn is_json_context(
    number: u64,
    offset: u64,
    line: Seq<u8>,
    event: JsonLineEvent,
) -> bool {
    &&& event.kind is Context
    &&& event.line_number == line_number_of(number)
    &&& event.absolute_offset == offset
    &&& event.text@ == decoded(line)
    &&& event.submatches@.len() == 0
}

/// The number of a line; one where lines are not counted.
pub open spec fn number_or_one(number: Option<u64>) -> u64 {
    match number {
        Some(number) => number,
        None => 1,
    }
}

/// Whether an event is that of a line that matches or stands near one that does.
pub open spec fn is_json_event(
    matcher: RegexMatcher,
    line: (bool, Option<u64>, u64, Seq<u8>),
    event: JsonLineEvent,
) -> bool {
    if line.0 {
        is_json_match(matcher, number_or_one(line.1), line.2, line.3, event)
    } else {
        is_json_context(number_or_one(line.1), line.2, line.3, event)
    }
}

/// Whether the events are those of the lines, one for each.
pub open spec fn are_json_events(
    matcher: RegexMatcher,
    lines: Seq<(bool, Option<u64>, u64, Seq<u8>)>,
    events: Seq<JsonLineEvent>,
) -> bool {
    &&& events.len() == lines.len()
    &&& forall|i: int|
        0 <= i < events.len() ==> is_json_event(matcher, lines[i], #[trigger] events[i])
}

impl JsonEventSink {
    /// Whether the counts are those of the events.
    pub open spec fn wf(self) -> bool {
        &&& self.matched_lines == match_events(self.events@)
        &&& self.matches == match_total(self.events@)
        &&& self.matches <= self.matched_lines * usize::MAX
    }

    /// Makes events for a file.
    pub fn new(path: FilePath) -> (sink: JsonEventSink)
        ensures
            sink.wf(),
            sink.path == path,
            sink.events@.len() == 0,
            sink.finished is None,
    {
        JsonEventSink { path, matched_lines: 0, matches: 0, events: Vec::new(), finished: None }
    }

    /// Takes a line that matches; the search always goes on.
    pub fn matched(&mut self, matcher: &RegexMatcher, number: u64, offset: u64, line: &Vec<u8>) -> (
    go_on: bool)
        requires
            old(self).wf(),
        ensures
            go_on,
            final(self).wf(),
            final(self).path == old(self).path,
            final(self).finished == old(self).finished,
            final(self).events@.len() == old(self).events@.len() + 1,
            final(self).events@.drop_last() == old(self).events@,
            is_json_match(*matcher, number, offset, line@, final(self).events@.last()),
    {
        let submatches = find_submatches(matcher, line);
        let found: usize = if submatches.len() > 0 {
            submatches.len()
        } else {
            1
        };
        self.events.push(
            JsonLineEvent {
                kind: JsonLineEventKind::Match,
                line_number: to_line_number(number),
                absolute_offset: offset,
                text: lossy_text(line),
                submatches,
            },
        );
        assert(self.events@.drop_last() == old(self).events@);
        let event_count: usize = self.events.len();
        proof {
            lemma_match_events(old(self).events@);
            let most = usize::MAX as int;
            let lines = self.matched_lines as int;
            assert(lines * most + most == (lines + 1) * most) by (nonlinear_arith);
            assert((lines + 1) * most <= most * most) by (nonlinear_arith)
                requires
                    lines + 1 <= most,
                    most >= 0,
            ;
            assert(most * most <= u64::MAX * u64::MAX) by (nonlinear_arith)
                requires
                    0 <= most <= u64::MAX,
            ;
        }
        self.matched_lines = self.matched_lines + 1;
        self.matches = self.matches + found as u128;
        true
    }

    /// Takes a line near one that matches; the search always goes on.
    pub fn context(&mut self, number: u64, offset: u64, line: &Vec<u8>) -> (go_on: bool)
        requires
            old(self).wf(),
        ensures
            go_on,
            final(self).wf(),
            final(self).path == old(self).path,
            final(self).finished == old(self).finished,
            final(self).events@.len() == old(self).events@.len() + 1,
            final(self).events@.drop_last() == old(self).events@,
            is_json_context(number, offset, line@, final(self).events@.last()),
    {
        self.events.push(
            JsonLineEvent {
                kind: JsonLineEventKind::Context,
                line_number: to_line_number(number),
                absolute_offset: offset,
                text: lossy_text(line),
                submatches: Vec::new(),
            },
        );
        assert(self.events@.drop_last() == old(self).events@);
        true
    }

    /// Takes what the search says at its end.
    pub fn finish(&mut self, end: SearchEnd)
        requires
            old(self).wf(),
        ensures
            final(self).wf(),
            final(self).path == old(self).path,
            final(self).events == old(self).events,
            final(self).finished == Some(end),
    {
        self.finished = Some(end);
    }

    /// Takes the lines that match and those around them, one after the other, and what the search
    /// says at its end.
    pub fn take_lines(&mut self, matcher: &RegexMatcher, around: &AroundLines)
        requires
            old(self).wf(),
            old(self).events@.len() == 0,
            old(self).finished is None,
        ensures
            final(self).wf(),
            final(self).path == old(self).path,
            final(self).finished == around.end,
            are_json_events(*matcher, around_views(around.lines@), final(self).events@),
    {
        let ghost views = around_views(around.lines@);
        let mut at: usize = 0;
        while at < around.lines.len()
            invariant
                views == around_views(around.lines@),
                at <= around.lines@.len(),
                self.wf(),
                self.path == old(self).path,
                self.finished is None,
                are_json_events(*matcher, views.take(at as int), self.events@),
            decreases around.lines@.len() - at,
        {
            let ghost before = self.events@;
            let line = &around.lines[at];
            let number: u64 = match line.number {
                Some(number) => number,
                None => 1,
            };
            if line.is_match {
                self.matched(matcher, number, line.offset, &line.bytes);
            } else {
                self.context(number, line.offset, &line.bytes);
            }
            proof {
                let events = self.events@;
                assert forall|i: int| 0 <= i < events.len() implies is_json_event(
                    *matcher,
                    views.take(at + 1)[i],
                    #[trigger] events[i],
                ) by {
                    if i < at {
                        assert(events[i] == events.drop_last()[i]);
                        assert(views.take(at + 1)[i] == views.take(at as int)[i]);
                        assert(is_json_event(*matcher, views.take(at as int)[i], before[i]));
                    } else {
                        assert(events[i] == events.last());
                    }
                }
            }
            at = at + 1;
        }
        assert(views.take(at as int) == views);
        if let Some(end) = around.end {
            self.finish(end);
        }
    }

    /// What the search came to.
    pub fn into_result(self, elapsed: JsonDuration) -> (result: JsonFileResult)
        requires
            self.wf(),
            elapsed.wf(),
        ensures
            result.wf(),
            result.path == self.path,
            result.matched_lines == match_events(self.events@),
            result.matches == match_total(self.events@),
            result.binary_offset == match self.finished {
                Some(end) => end.binary_offset,
                None => None,
            },
            result.bytes_searched == match self.finished {
                Some(end) => end.byte_count,
                None => 0,
            },
            result.elapsed == elapsed,
            result.events == self.events,
    {
        let (binary_offset, bytes_searched): (Option<u64>, u64) = match self.finished {
            Some(end) => (end.binary_offset, end.byte_count),
            None => (None, 0),
        };
        JsonFileResult {
            path: self.path,
            matched_lines: self.matched_lines,
            matches: self.matches,
            binary_offset,
            bytes_searched,
            elapsed,
            events: self.events,
        }
    }
}

} // verus!
