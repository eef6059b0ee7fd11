//! Laws on lines that match and on the bytes that they are made of.

use vstd::prelude::*;

use crate::bytes::{
    decoded, text_between, without_ending, without_line_ends,
};
use crate::candidate::FilePath;
use crate::cli::{CaseMode, Cli};
use crate::matcher::{
    literals_built, match_from, matcher_of, matcher_options, regex_built, submatches_from,
    FoundLine,
};
use crate::query::QueryView;
use crate::sinks::{
    are_json_events, are_match_events, first_column, line_number_of, lines_counted, match_events,
    match_total, JsonLineEvent, MatchEvent,
};
use grep_regex::RegexMatcher;
use vstd::utf8::encode_utf8;

verus! {

/// The bytes of texts behind one another are those of the texts, one behind the other.
proof fn lemma_encoded(first: Seq<char>, second: Seq<char>)
    ensures
        encode_utf8(first + second) == encode_utf8(first) + encode_utf8(second),
    decreases first.len(),
{
    if first.len() == 0 {
        assert(first + second == second);
        assert(encode_utf8(first) + encode_utf8(second) == encode_utf8(second));
    } else {
        lemma_encoded(first.drop_first(), second);
        assert((first + second).drop_first() == first.drop_first() + second);
        assert((first + second)[0] == first[0]);
    }
}

/// A part of a text is found again by the place of its first byte and of the byte behind it.
pub proof fn parts_are_cut_by_their_bytes(
    before: Seq<char>,
    part: Seq<char>,
    behind: Seq<char>,
)
    ensures
        text_between(
            before + part + behind,
            encode_utf8(before).len() as int,
            (encode_utf8(before).len() + encode_utf8(part).len()) as int,
        ) == part,
{
    let whole = before + part + behind;
    lemma_encoded(before + part, behind);
    lemma_encoded(before, part);
    let start = encode_utf8(before).len() as int;
    let end = (encode_utf8(before).len() + encode_utf8(part).len()) as int;
    assert(encode_utf8(whole).subrange(start, end) == encode_utf8(part));
    crate::bytes::decoding_undoes_encoding(part);
    vstd::utf8::encode_utf8_valid_utf8(part);
}

/// Only the line ends at the end of a text are left off, and all of them.
pub proof fn only_line_ends_are_left_off(text: Seq<char>)
    ensures
        without_line_ends(text).len() <= text.len(),
        text.take(without_line_ends(text).len() as int) == without_line_ends(text),
        forall|i: int|
            without_line_ends(text).len() <= i < text.len() ==> #[trigger] text[i] == '\r'
                || text[i] == '\n',
        without_line_ends(text).len() > 0 ==> without_line_ends(text).last() != '\r'
            && without_line_ends(text).last() != '\n',
    decreases text.len(),
{
    if text.len() > 0 && (text.last() == '\r' || text.last() == '\n') {
        let front = text.drop_last();
        only_line_ends_are_left_off(front);
        let length = without_line_ends(front).len() as int;
        assert(front.take(length) == text.take(length));
        assert forall|i: int| length <= i < text.len() implies #[trigger] text[i] == '\r' || text[i]
            == '\n' by {
            if i < front.len() {
                assert(front[i] == text[i]);
            }
        }
    } else {
        assert(text.take(text.len() as int) == text);
    }
}

/// A line loses its line feed, with the carriage return before it, or its carriage return; nothing
/// else is taken from it.
pub proof fn a_line_loses_its_ending(line: Seq<u8>)
    ensures
        without_ending(line.push(13).push(10)) == line,
        line.len() == 0 || line.last() != 13 ==> without_ending(line.push(10)) == line,
        without_ending(line.push(13)) == line,
        line.len() == 0 || line.last() != 10 && line.last() != 13 ==> without_ending(line) == line,
{
    assert(line.push(13).push(10).take(line.len() as int) == line);
    assert(line.push(10).drop_last() == line);
    assert(line.push(13).drop_last() == line);
}

/// Numbers of lines stay as they are, up to the greatest that a place in memory can have.
pub proof fn line_numbers_stay(number: u64)
    ensures
        number <= usize::MAX ==> line_number_of(number) == number,
        number > usize::MAX ==> line_number_of(number) == usize::MAX,
{
}

/// Every line is counted, and one alone where the search stops at the first.
pub proof fn every_line_is_counted(found: nat)
    ensures
        lines_counted(found, false) == found,
        lines_counted(found, true) == if found == 0 {
            0nat
        } else {
            1nat
        },
{
}

/// Each line that matches has an event of its own, in order: its number, its text without the
/// ending, and, where they are looked for, its matches with the place of the first.
pub proof fn events_are_those_of_the_lines(
    path: FilePath,
    matcher: RegexMatcher,
    capture: bool,
    found: Seq<FoundLine>,
    events: Seq<MatchEvent>,
    index: int,
)
    requires
        are_match_events(path, matcher, capture, found, events),
        0 <= index < found.len(),
    ensures
        events.len() == found.len(),
        events[index].path == path,
        found[index].number <= usize::MAX ==> events[index].line_number == found[index].number,
        events[index].text@ == decoded(without_ending(found[index].bytes@)),
        !capture ==> events[index].submatches@.len() == 0,
        capture ==> events[index].submatches@ == submatches_from(
            matcher,
            without_ending(found[index].bytes@),
            0,
        ),
        events[index].submatches@.len() == 0 ==> events[index].column is None,
        events[index].submatches@.len() > 0 && events[index].submatches@[0].0 < usize::MAX
            ==> events[index].column is Some && events[index].column->0
            == events[index].submatches@[0].0 + 1,
{
    assert(crate::sinks::is_match_event(
        path,
        matcher,
        capture,
        found[index].number,
        found[index].bytes@,
        events[index],
    ));
}

/// Each line of the JSON output has an event of its own, in order: what it is, its number, its place
/// in the content and its text, and its matches where it is one that matches.
pub proof fn json_events_are_those_of_the_lines(
    matcher: RegexMatcher,
    lines: Seq<(bool, Option<u64>, u64, Seq<u8>)>,
    events: Seq<JsonLineEvent>,
    index: int,
)
    requires
        are_json_events(matcher, lines, events),
        0 <= index < lines.len(),
    ensures
        events.len() == lines.len(),
        events[index].kind is Match <==> lines[index].0,
        lines[index].1 is None ==> events[index].line_number == 1,
        lines[index].1 is Some && lines[index].1->0 <= usize::MAX ==> events[index].line_number
            == lines[index].1->0,
        events[index].absolute_offset == lines[index].2,
        events[index].text@ == decoded(lines[index].3),
        lines[index].0 ==> events[index].submatches@ == submatches_from(
            matcher,
            lines[index].3,
            0,
        ),
        !lines[index].0 ==> events[index].submatches@.len() == 0,
{
    assert(crate::sinks::is_json_event(matcher, lines[index], events[index]));
}

/// The lines that match are the events for matches, and each counts with its matches, or as one
/// where none is told.
pub proof fn matches_of_events_add_up(first: Seq<JsonLineEvent>, second: Seq<JsonLineEvent>)
    ensures
        match_events(first) == first.filter(|event: JsonLineEvent| event.kind is Match).len(),
        match_total(first + second) == match_total(first) + match_total(second),
        match_total(Seq::<JsonLineEvent>::empty()) == 0,
        first.len() == 1 ==> match_total(first) == if first[0].kind is Context {
            0
        } else if first[0].submatches@.len() == 0 {
            1
        } else {
            first[0].submatches@.len()
        },
    decreases first.len(), second.len(),
{
    lemma_match_events(first);
    if first.len() == 1 {
        assert(first.drop_last() == Seq::<JsonLineEvent>::empty());
        assert(match_total(first.drop_last()) == 0);
        assert(first.last() == first[0]);
    }
    if second.len() == 0 {
        assert(first + second == first);
    } else {
        assert((first + second).drop_last() == first + second.drop_last());
        matches_of_events_add_up(first, second.drop_last());
    }
}

/// The lines that match are the events for matches.
proof fn lemma_match_events(events: Seq<JsonLineEvent>)
    ensures
        match_events(events) == events.filter(|event: JsonLineEvent| event.kind is Match).len(),
    decreases events.len(),
{
    reveal(Seq::filter);
    if events.len() > 0 {
        lemma_match_events(events.drop_last());
    }
}

/// The matches in a line are those that the matcher finds, one after the other: the search goes on
/// where a match ended, or one byte further where it did not get on, and it ends where there is no
/// further match.
pub proof fn matches_are_found_one_after_the_other(
    matcher: RegexMatcher,
    line: Seq<u8>,
    at: nat,
)
    ensures
        at > line.len() ==> submatches_from(matcher, line, at).len() == 0,
        at <= line.len() && match_from(matcher, line, at) is None ==> submatches_from(
            matcher,
            line,
            at,
        ).len() == 0,
        at <= line.len() && match_from(matcher, line, at) is Some ==> submatches_from(
            matcher,
            line,
            at,
        ).len() > 0 && submatches_from(matcher, line, at)[0] == match_from(matcher, line, at)->0
            && submatches_from(matcher, line, at).skip(1) == submatches_from(
            matcher,
            line,
            if (match_from(matcher, line, at)->0).1 > at {
                (match_from(matcher, line, at)->0).1 as nat
            } else {
                at + 1
            },
        ),
        first_column(Seq::empty()) is None,
{
    if at <= line.len() && match_from(matcher, line, at) is Some {
        let found = match_from(matcher, line, at)->0;
        let next = if found.1 > at {
            found.1 as nat
        } else {
            at + 1
        };
        assert((seq![found] + submatches_from(matcher, line, next)).skip(1) == submatches_from(
            matcher,
            line,
            next,
        ));
    }
}

/// The matcher of a query is made of its text as a regular expression, or of its terms where fixed
/// strings are asked for, with the case, word and line switches of the command line.
pub proof fn the_matcher_heeds_the_command_line(
    cli: Cli,
    query_text: Seq<char>,
    query: QueryView,
)
    ensures
        cli.match_mode is Regex ==> matcher_of(cli, query_text, query) == regex_built(
            query_text,
            matcher_options(cli),
        ),
        cli.match_mode is FixedStrings ==> matcher_of(cli, query_text, query) == literals_built(
            query.terms,
            matcher_options(cli),
        ),
        matcher_options(cli).case_insensitive <==> cli.case_mode == CaseMode::Insensitive,
        matcher_options(cli).case_smart <==> cli.case_mode == CaseMode::Smart,
        matcher_options(cli).word <==> cli.word_regexp,
        matcher_options(cli).whole_line <==> cli.line_regexp,
{
}

} // verus!
