//! Laws on JSON output.

use vstd::prelude::*;

use crate::bytes::text_between;
use crate::json::{
    all_objects, are_totals, begin_object, bytes_taken, bytes_told, end_object, escaped,
    file_objects, json_output, line_object, opening_objects, optional_number, submatch_objects,
    sum_bytes, sum_lines, sum_matches, summary_object, with_match, JsonDuration,
    JsonTotals,
};
use crate::sinks::{JsonFileResult, JsonLineEvent};
use crate::stream::{output_objects, pieces, unbroken};
use crate::text::{decimal, joined, occurs_in};
use vstd::utf8::encode_utf8;

verus! {

/// A text is escaped character by character: quotes, backslashes, line feeds, carriage returns and
/// tabs behind a backslash, other control characters by their codes, and any other character as it
/// is.
pub proof fn texts_are_escaped_character_by_character(first: Seq<char>, second: Seq<char>)
    ensures
        escaped(first + second) == escaped(first) + escaped(second),
        escaped(Seq::<char>::empty()) == Seq::<char>::empty(),
        first == seq!['"'] ==> escaped(first) == seq!['\\', '"'],
        first == seq!['\\'] ==> escaped(first) == seq!['\\', '\\'],
        first == seq!['\n'] ==> escaped(first) == seq!['\\', 'n'],
        first == seq!['\r'] ==> escaped(first) == seq!['\\', 'r'],
        first == seq!['\t'] ==> escaped(first) == seq!['\\', 't'],
        first.len() == 1 && first[0] != '"' && first[0] != '\\' && (' ' <= first[0] <= '~'
            || first[0] as u32 >= 0xa0) ==> escaped(first) == first,
        first.len() == 1 && first[0] as u32 == 1 ==> escaped(first) == seq![
            '\\',
            'u',
            '0',
            '0',
            '0',
            '1',
        ],
    decreases second.len(),
{
    if first.len() == 1 {
        assert(first.drop_last() == Seq::<char>::empty());
        assert(escaped(first.drop_last()) == Seq::<char>::empty());
        assert(first.last() == first[0]);
    }
    if second.len() == 0 {
        assert(first + second == first);
    } else {
        assert((first + second).drop_last() == first + second.drop_last());
        texts_are_escaped_character_by_character(first, second.drop_last());
    }
}

/// A control character that has no short form is written by its code, in four hexadecimal digits in
/// lower case.
pub proof fn control_characters_are_written_by_their_codes(character: char)
    requires
        (character as u32) < 0x20 || 0x7f <= character as u32 <= 0x9f,
        character != '\n' && character != '\r' && character != '\t',
    ensures
        escaped(seq![character]).len() == 6,
        escaped(seq![character]).take(4) == seq!['\\', 'u', '0', '0'],
        ({
            let high = escaped(seq![character])[4] as int;
            let low = escaped(seq![character])[5] as int;
            &&& 48 <= high <= 57 || 97 <= high <= 102
            &&& 48 <= low <= 57 || 97 <= low <= 102
            &&& character as int == (if high <= 57 {
                high - 48
            } else {
                high - 87
            }) * 16 + (if low <= 57 {
                low - 48
            } else {
                low - 87
            })
        }),
{
    let text = seq![character];
    assert(text.drop_last() == Seq::<char>::empty());
    assert(escaped(text.drop_last()) == Seq::<char>::empty());
    assert(text.last() == character);
    let code = character as u32 as nat;
    assert(escaped(text) == crate::json::escaped_character(character));
    assert(escaped(text).take(4) == seq!['\\', 'u', '0', '0']);
    assert(code / 16 < 10);
    assert(code == code / 16 * 16 + code % 16);
}

/// The object for a line tells what the line is, the path of its file, its text, its number, its
/// place in the content and its matches.
pub proof fn a_line_object_tells_of_its_line(path: Seq<char>, event: JsonLineEvent)
    ensures
        line_object(path, event) == "{\"type\":\""@ + (if event.kind is Match {
            "match"@
        } else {
            "context"@
        }) + "\",\"data\":{\"path\":{\"text\":\""@ + path + "\"},\"lines\":{\"text\":\""@ + escaped(
            event.text@,
        ) + "\"},\"line_number\":"@ + decimal(event.line_number as nat) + ",\"absolute_offset\":"@
            + decimal(event.absolute_offset as nat) + ",\"submatches\":["@ + joined(
            submatch_objects(event.text@, event.submatches@),
            ","@,
        ) + "]}}"@,
        submatch_objects(event.text@, event.submatches@).len() == event.submatches@.len(),
{
}

/// Every match of a line has an object of its own: the text of the match, and where it starts and
/// ends.
pub proof fn every_match_has_an_object(text: Seq<char>, spans: Seq<(usize, usize)>, index: int)
    requires
        0 <= index < spans.len(),
    ensures
        submatch_objects(text, spans)[index] == "{\"match\":{\"text\":\""@ + escaped(
            text_between(text, spans[index].0 as int, spans[index].1 as int),
        ) + "\"},\"start\":"@ + decimal(spans[index].0 as nat) + ",\"end\":"@ + decimal(
            spans[index].1 as nat,
        ) + "}"@,
        occurs_in(
            submatch_objects(text, spans)[index],
            joined(submatch_objects(text, spans), ","@),
        ),
{
    super::sheets::lemma_in_joined(submatch_objects(text, spans), ","@, index);
}

/// The object for the end of a file tells its path, where a NUL byte stopped the search, how long it
/// took, and how many bytes were searched and printed, lines matched and matches found.
pub proof fn an_end_object_tells_of_its_file(
    result: JsonFileResult,
    path: Seq<char>,
    elapsed: JsonDuration,
    bytes_printed: nat,
)
    ensures
        end_object(result, path, elapsed, bytes_printed)
            == "{\"type\":\"end\",\"data\":{\"path\":{\"text\":\""@ + path
            + "\"},\"binary_offset\":"@ + (match result.binary_offset {
            Some(offset) => decimal(offset as nat),
            None => "null"@,
        }) + ",\"stats\":{\"elapsed\":"@ + elapsed.rendered()
            + ",\"searches\":1,\"searches_with_match\":1,\"bytes_searched\":"@ + decimal(
            result.bytes_searched as nat,
        ) + ",\"bytes_printed\":"@ + decimal(bytes_printed) + ",\"matched_lines\":"@ + decimal(
            result.matched_lines as nat,
        ) + ",\"matches\":"@ + decimal(result.matches as nat) + "}}}"@,
        elapsed.rendered() == "{\"secs\":"@ + decimal(elapsed.secs as nat) + ",\"nanos\":"@
            + decimal(elapsed.nanos as nat) + ",\"human\":\""@ + elapsed.human@ + "\"}"@,
        begin_object(path) == "{\"type\":\"begin\",\"data\":{\"path\":{\"text\":\""@ + path
            + "\"}}}"@,
        optional_number(None) == "null"@,
        result.binary_offset is Some ==> optional_number(result.binary_offset) == decimal(
            result.binary_offset->0 as nat,
        ),
{
}

/// The last object tells how long the whole search took, and the totals of all searches.
pub proof fn a_summary_tells_the_totals(
    totals: JsonTotals,
    elapsed: JsonDuration,
    bytes_printed: nat,
)
    ensures
        summary_object(totals, elapsed, bytes_printed) == "{\"data\":{\"elapsed_total\":"@
            + elapsed.rendered() + ",\"stats\":{\"bytes_printed\":"@ + decimal(bytes_printed)
            + ",\"bytes_searched\":"@ + decimal(totals.bytes_searched as nat) + ",\"elapsed\":"@
            + elapsed.rendered() + ",\"matched_lines\":"@ + decimal(totals.matched_lines as nat)
            + ",\"matches\":"@ + decimal(totals.matches as nat) + ",\"searches\":"@ + decimal(
            totals.searches as nat,
        ) + ",\"searches_with_match\":"@ + decimal(totals.searches_with_match as nat)
            + "}},\"type\":\"summary\"}"@,
{
}

/// Lines take the bytes of their texts in UTF-8, and one more for each line break.
pub proof fn a_line_takes_its_bytes_and_one(lines: Seq<Seq<char>>, line: Seq<char>)
    ensures
        bytes_taken(Seq::<Seq<char>>::empty()) == 0,
        bytes_taken(lines.push(line)) == bytes_taken(lines) + encode_utf8(line).len() + 1,
{
    assert(lines.push(line).drop_last() == lines);
}

/// A file is told of by an object for its beginning, one for each of its lines in order, and one for
/// its end, all of them under its escaped path. The bytes told at the end are those of the objects,
/// with the last as it is written for the bytes of those before it.
pub proof fn a_file_is_told_of_in_order(result: JsonFileResult, path: Seq<char>)
    requires
        path == escaped(result.path.text@),
    ensures
        opening_objects(result) == seq![begin_object(path)] + Seq::new(
            result.events@.len(),
            |i: int| line_object(path, result.events@[i]),
        ),
        bytes_told(result) == bytes_taken(opening_objects(result)) + encode_utf8(
            end_object(result, path, result.elapsed, bytes_taken(opening_objects(result))),
        ).len() + 1,
        file_objects(result) == opening_objects(result).push(
            end_object(result, path, result.elapsed, bytes_told(result)),
        ),
{
    let opening = opening_objects(result);
    a_line_takes_its_bytes_and_one(
        opening,
        end_object(result, path, result.elapsed, bytes_taken(opening)),
    );
}

/// The objects of files do not hang on files behind them.
proof fn lemma_earlier_objects(
    first: Seq<JsonFileResult>,
    second: Seq<JsonFileResult>,
    count: int,
)
    requires
        count <= first.len(),
    ensures
        all_objects(first + second, count) == all_objects(first, count),
    decreases count,
{
    if count > 0 {
        lemma_earlier_objects(first, second, count - 1);
        assert((first + second)[count - 1] == first[count - 1]);
    }
}

/// The objects of some files and of further files are the objects of them all, in order.
pub proof fn objects_of_files_add_up(first: Seq<JsonFileResult>, second: Seq<JsonFileResult>)
    ensures
        all_objects(first + second, (first + second).len() as int) == all_objects(
            first,
            first.len() as int,
        ) + all_objects(second, second.len() as int),
        first.len() == 0 ==> all_objects(first, 0) == Seq::<Seq<char>>::empty(),
        first.len() == 1 ==> all_objects(first, 1) == file_objects(first[0]),
    decreases second.len(),
{
    if first.len() == 1 {
        assert(all_objects(first, 0) == Seq::<Seq<char>>::empty());
        assert(Seq::<Seq<char>>::empty() + file_objects(first[0]) == file_objects(first[0]));
    }
    if second.len() == 0 {
        assert(first + second == first);
        assert(all_objects(second, 0) == Seq::<Seq<char>>::empty());
    } else {
        let front = second.drop_last();
        let last = seq![second.last()];
        objects_of_files_add_up(first, front);
        assert(first + second == (first + front) + last);
        assert(second == front + last);
        let count = (first + second).len() as int;
        lemma_earlier_objects(first + front, last, count - 1);
        lemma_earlier_objects(front, last, second.len() - 1);
        assert((first + second)[count - 1] == second.last());
        assert(second[second.len() - 1] == second.last());
    }
}

/// JSON output is the objects of the files with one for all searches behind them, each on a line of
/// its own; that one tells the bytes of all before it.
pub proof fn output_ends_with_the_summary(
    results: Seq<JsonFileResult>,
    totals: JsonTotals,
    elapsed: JsonDuration,
)
    ensures
        json_output(results, totals, elapsed) == joined(
            all_objects(results, results.len() as int).push(
                summary_object(
                    totals,
                    elapsed,
                    bytes_taken(all_objects(results, results.len() as int)),
                ),
            ),
            seq!['\n'],
        ),
        output_objects(results, totals, elapsed) == all_objects(results, results.len() as int).push(
            summary_object(
                totals,
                elapsed,
                bytes_taken(all_objects(results, results.len() as int)),
            ),
        ),
{
    reveal_strlit("\n");
    assert("\n"@ == seq!['\n']);
}

/// The sums over some files and over further files are the sums over them all.
pub proof fn sums_of_files_add_up(first: Seq<JsonFileResult>, second: Seq<JsonFileResult>)
    ensures
        sum_lines(first + second) == sum_lines(first) + sum_lines(second),
        sum_matches(first + second) == sum_matches(first) + sum_matches(second),
        sum_bytes(first + second) == sum_bytes(first) + sum_bytes(second),
        first.len() == 0 ==> sum_lines(first) == 0 && sum_matches(first) == 0 && sum_bytes(first)
            == 0,
        first.len() == 1 ==> sum_lines(first) == first[0].matched_lines && sum_matches(first)
            == first[0].matches && sum_bytes(first) == first[0].bytes_searched,
    decreases second.len(),
{
    if first.len() == 1 {
        assert(first.drop_last() == Seq::<JsonFileResult>::empty());
        assert(first.last() == first[0]);
        assert(sum_lines(first.drop_last()) == 0);
        assert(sum_matches(first.drop_last()) == 0);
        assert(sum_bytes(first.drop_last()) == 0);
    }
    if second.len() == 0 {
        assert(first + second == first);
    } else {
        assert((first + second).drop_last() == first + second.drop_last());
        sums_of_files_add_up(first, second.drop_last());
    }
}

/// The files told of are those with a matched line, in order.
pub proof fn files_with_a_matched_line_are_told_of(results: Seq<JsonFileResult>)
    ensures
        with_match(results) == results.filter(|result: JsonFileResult| result.matched_lines > 0),
    decreases results.len(),
{
    reveal(Seq::filter);
    if results.len() > 0 {
        files_with_a_matched_line_are_told_of(results.drop_last());
    }
}

/// The totals are the number of searches, the number of files with a matched line, and the sums over
/// all files.
pub proof fn totals_are_sums(totals: JsonTotals, searches: nat, results: Seq<JsonFileResult>)
    requires
        are_totals(totals, searches, results),
    ensures
        totals.searches == searches,
        totals.searches_with_match == results.filter(
            |result: JsonFileResult| result.matched_lines > 0,
        ).len(),
        totals.matched_lines == sum_lines(results),
        totals.matches == sum_matches(results),
        totals.bytes_searched == sum_bytes(results),
{
    files_with_a_matched_line_are_told_of(results);
}

/// A line break parts the pieces before it from those behind it, and a text without one is a single
/// piece.
pub proof fn line_breaks_part_pieces(first: Seq<char>, second: Seq<char>)
    requires
        forall|i: int| 0 <= i < first.len() ==> first[i] != '\n',
    ensures
        unbroken(first),
        pieces(first) == seq![first],
        pieces(first.push('\n') + second) == seq![first] + pieces(second),
    decreases first.len() + second.len(),
{
    reveal(unbroken);
    lemma_single_piece(first);
    if second.len() == 0 {
        let whole = first.push('\n');
        assert(whole + second == whole);
        assert(whole.drop_last() == first);
        assert(pieces(second) == seq![Seq::<char>::empty()]);
        assert(pieces(whole) == seq![first].push(Seq::<char>::empty()));
    } else {
        let front = second.drop_last();
        let whole = first.push('\n') + second;
        line_breaks_part_pieces(first, front);
        assert(whole.drop_last() == first.push('\n') + front);
        assert(whole.last() == second.last());
        let before = seq![first] + pieces(front);
        lemma_some_piece(front);
        assert(before.drop_last() == seq![first] + pieces(front).drop_last());
        assert(before.last() == pieces(front).last());
    }
}

/// A text without line breaks is a single piece.
proof fn lemma_single_piece(text: Seq<char>)
    requires
        forall|i: int| 0 <= i < text.len() ==> text[i] != '\n',
    ensures
        pieces(text) == seq![text],
    decreases text.len(),
{
    if text.len() > 0 {
        let front = text.drop_last();
        assert forall|i: int| 0 <= i < front.len() implies front[i] != '\n' by {
            assert(front[i] == text[i]);
        }
        lemma_single_piece(front);
        assert(text[text.len() - 1] != '\n');
        assert(seq![front].drop_last() == Seq::<Seq<char>>::empty());
        assert(front.push(text.last()) == text);
        assert(pieces(text) == pieces(front).drop_last().push(
            pieces(front).last().push(text.last()),
        ));
    } else {
        assert(text == Seq::<char>::empty());
    }
}

/// There is always a piece.
proof fn lemma_some_piece(text: Seq<char>)
    ensures
        pieces(text).len() > 0,
    decreases text.len(),
{
    if text.len() > 0 {
        lemma_some_piece(text.drop_last());
    }
}

} // verus!
