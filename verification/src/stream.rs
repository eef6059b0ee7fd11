//! JSON output as a stream: one object on each line.

use vstd::prelude::*;

use crate::json::{
    all_objects, begin_object, bytes_taken, bytes_told, end_object, escaped,
    escaped_text_stays_within_its_quotes, file_objects, json_output, kind_name, line_object,
    opening_objects, optional_number, submatch_object, submatch_objects, summary_object,
    JsonDuration, JsonTotals,
};
use crate::sinks::{JsonFileResult, JsonLineEvent};
use crate::text::{chars_of, decimal, digit, joined};

verus! {

/// Whether a text holds no line break.
#[verifier::opaque]
pub open spec fn unbroken(text: Seq<char>) -> bool {
    forall|i: int| 0 <= i < text.len() ==> #[trigger] text[i] != '\n'
}

/// Whether a text holds no line break.
pub fn is_unbroken(text: &str) -> (result: bool)
    ensures
        result == unbroken(text@),
{
    let characters = chars_of(text);
    let mut at: usize = 0;
    while at < characters.len()
        invariant
            characters@ == text@,
            at <= text@.len(),
            forall|i: int| 0 <= i < at ==> text@[i] != '\n',
        decreases text@.len() - at,
    {
        if characters[at] == '\n' {
            assert(!unbroken(text@)) by {
                reveal(unbroken);
                assert(text@[at as int] == '\n');
            }
            return false;
        }
        at = at + 1;
    }
    reveal(unbroken);
    true
}

/// What stands between the line breaks of a text, and before the first and behind the last of them.
pub open spec fn pieces(text: Seq<char>) -> Seq<Seq<char>>
    decreases text.len(),
{
    if text.len() == 0 {
        seq![Seq::empty()]
    } else {
        let before = pieces(text.drop_last());
        if text.last() == '\n' {
            before.push(Seq::empty())
        } else {
            before.drop_last().push(before.last().push(text.last()))
        }
    }
}

/// The objects of the JSON output: those of the files, and one for all searches.
pub open spec fn output_objects(
    results: Seq<JsonFileResult>,
    totals: JsonTotals,
    elapsed: JsonDuration,
) -> Seq<Seq<char>> {
    let objects = all_objects(results, results.len() as int);
    objects.push(summary_object(totals, elapsed, bytes_taken(objects)))
}

/// JSON output split at its line breaks gives its objects: those of each file in order, and one for
/// all searches, which tells the bytes of all before it. No object holds a line break.
pub proof fn json_output_has_an_object_on_each_line(
    results: Seq<JsonFileResult>,
    totals: JsonTotals,
    elapsed: JsonDuration,
)
    requires
        elapsed.wf(),
        forall|i: int| 0 <= i < results.len() ==> (#[trigger] results[i]).wf(),
    ensures
        pieces(json_output(results, totals, elapsed)) == output_objects(results, totals, elapsed),
{
    let objects = all_objects(results, results.len() as int);
    lemma_all_objects(results, results.len() as int);
    let summary = summary_object(totals, elapsed, bytes_taken(objects));
    lemma_summary(totals, elapsed, bytes_taken(objects));
    let all = objects.push(summary);
    assert forall|i: int| 0 <= i < all.len() implies unbroken(#[trigger] all[i]) by {
        if i < objects.len() {
            assert(all[i] == objects[i]);
        }
    }
    lemma_pieces_of_joined(all);
}

/// There is at least one piece.
proof fn lemma_pieces(text: Seq<char>)
    ensures
        pieces(text).len() > 0,
    decreases text.len(),
{
    if text.len() > 0 {
        lemma_pieces(text.drop_last());
    }
}

/// A text without a line break makes the last piece longer.
proof fn lemma_pieces_longer(text: Seq<char>, more: Seq<char>)
    requires
        unbroken(more),
    ensures
        pieces(text + more) == pieces(text).drop_last().push(pieces(text).last() + more),
    decreases more.len(),
{
    lemma_pieces(text);
    let before = pieces(text);
    if more.len() == 0 {
        assert(text + more == text);
        assert(before.last() + more == before.last());
        assert(before.drop_last().push(before.last()) == before);
    } else {
        let front = more.drop_last();
        assert(unbroken(front) && more.last() != '\n') by {
            reveal(unbroken);
            assert(more.last() == more[more.len() - 1]);
            assert forall|i: int| 0 <= i < front.len() implies #[trigger] front[i] != '\n' by {
                assert(front[i] == more[i]);
            }
        }
        lemma_pieces_longer(text, front);
        assert((text + more).drop_last() == text + front);
        let here = pieces(text + front);
        assert(here.drop_last() == before.drop_last());
        assert(here.last().push(more.last()) == before.last() + more);
    }
}

/// Texts without line breaks, joined by line breaks, are the pieces.
proof fn lemma_pieces_of_joined(parts: Seq<Seq<char>>)
    requires
        parts.len() > 0,
        forall|i: int| 0 <= i < parts.len() ==> unbroken(#[trigger] parts[i]),
    ensures
        pieces(joined(parts, "\n"@)) == parts,
    decreases parts.len(),
{
    reveal_strlit("\n");
    if parts.len() == 1 {
        let empty = Seq::<char>::empty();
        lemma_pieces_longer(empty, parts[0]);
        assert(empty + parts[0] == parts[0]);
        assert(pieces(empty).drop_last().push(pieces(empty).last() + parts[0]) == parts);
    } else {
        let front = parts.drop_last();
        assert forall|i: int| 0 <= i < front.len() implies unbroken(#[trigger] front[i]) by {
            assert(front[i] == parts[i]);
        }
        lemma_pieces_of_joined(front);
        let before = joined(front, "\n"@);
        let broken = before.push('\n');
        assert(broken.drop_last() == before);
        assert(pieces(broken) == front.push(Seq::empty()));
        lemma_pieces_longer(broken, parts.last());
        assert(broken + parts.last() == before + ("\n"@ + parts.last()));
        assert(front.push(Seq::<char>::empty()).drop_last() == front);
        assert(Seq::<char>::empty() + parts.last() == parts.last());
        assert(front.push(parts.last()) == parts);
    }
}

/// Texts without line breaks put together hold none.
broadcast proof fn lemma_together(first: Seq<char>, second: Seq<char>)
    requires
        unbroken(first),
        unbroken(second),
    ensures
        #[trigger] unbroken(first + second),
{
    reveal(unbroken);
}

/// A number holds no line break.
broadcast proof fn lemma_number(number: nat)
    ensures
        #[trigger] unbroken(decimal(number)),
    decreases number,
{
    reveal(unbroken);
    if number >= 10 {
        lemma_number(number / 10);
        assert(digit(number % 10) != '\n');
    }
}

/// An escaped text holds no line break.
broadcast proof fn lemma_escaped(text: Seq<char>)
    ensures
        #[trigger] unbroken(escaped(text)),
{
    reveal(unbroken);
    escaped_text_stays_within_its_quotes(text);
}

/// The object for a time holds no line break.
proof fn lemma_time(elapsed: JsonDuration)
    requires
        elapsed.wf(),
    ensures
        unbroken(elapsed.rendered()),
{
    broadcast use lemma_together, lemma_number;

    assert(unbroken("{\"secs\":"@)) by {
        reveal(unbroken);
        reveal_strlit("{\"secs\":");
    }
    assert(unbroken(",\"nanos\":"@)) by {
        reveal(unbroken);
        reveal_strlit(",\"nanos\":");
    }
    assert(unbroken(",\"human\":\""@)) by {
        reveal(unbroken);
        reveal_strlit(",\"human\":\"");
    }
    assert(unbroken("\"}"@)) by {
        reveal(unbroken);
        reveal_strlit("\"}");
    }
}

/// The object for all searches holds no line break.
proof fn lemma_summary(totals: JsonTotals, elapsed: JsonDuration, bytes_printed: nat)
    requires
        elapsed.wf(),
    ensures
        unbroken(summary_object(totals, elapsed, bytes_printed)),
{
    broadcast use lemma_together, lemma_number;

    lemma_time(elapsed);
    assert(unbroken("{\"data\":{\"elapsed_total\":"@)) by {
        reveal(unbroken);
        reveal_strlit("{\"data\":{\"elapsed_total\":");
    }
    assert(unbroken(",\"stats\":{\"bytes_printed\":"@)) by {
        reveal(unbroken);
        reveal_strlit(",\"stats\":{\"bytes_printed\":");
    }
    assert(unbroken(",\"bytes_searched\":"@)) by {
        reveal(unbroken);
        reveal_strlit(",\"bytes_searched\":");
    }
    assert(unbroken(",\"elapsed\":"@)) by {
        reveal(unbroken);
        reveal_strlit(",\"elapsed\":");
    }
    assert(unbroken(",\"matched_lines\":"@)) by {
        reveal(unbroken);
        reveal_strlit(",\"matched_lines\":");
    }
    assert(unbroken(",\"matches\":"@)) by {
        reveal(unbroken);
        reveal_strlit(",\"matches\":");
    }
    assert(unbroken(",\"searches\":"@)) by {
        reveal(unbroken);
        reveal_strlit(",\"searches\":");
    }
    assert(unbroken(",\"searches_with_match\":"@)) by {
        reveal(unbroken);
        reveal_strlit(",\"searches_with_match\":");
    }
    assert(unbroken("}},\"type\":\"summary\"}"@)) by {
        reveal(unbroken);
        reveal_strlit("}},\"type\":\"summary\"}");
    }
}

/// The object for the beginning of a file holds no line break.
proof fn lemma_begin(path: Seq<char>)
    requires
        unbroken(path),
    ensures
        unbroken(begin_object(path)),
{
    broadcast use lemma_together;

    assert(unbroken("{\"type\":\"begin\",\"data\":{\"path\":{\"text\":\""@)) by {
        reveal(unbroken);
        reveal_strlit("{\"type\":\"begin\",\"data\":{\"path\":{\"text\":\"");
    }
    assert(unbroken("\"}}}"@)) by {
        reveal(unbroken);
        reveal_strlit("\"}}}");
    }
}

/// The object for the end of a file holds no line break.
proof fn lemma_end(
    result: JsonFileResult,
    path: Seq<char>,
    elapsed: JsonDuration,
    bytes_printed: nat,
)
    requires
        unbroken(path),
        elapsed.wf(),
    ensures
        unbroken(end_object(result, path, elapsed, bytes_printed)),
{
    broadcast use lemma_together, lemma_number;

    lemma_time(elapsed);
    assert(unbroken(optional_number(result.binary_offset))) by {
        assert(unbroken("null"@)) by {
            reveal(unbroken);
            reveal_strlit("null");
        }
    }
    assert(unbroken("{\"type\":\"end\",\"data\":{\"path\":{\"text\":\""@)) by {
        reveal(unbroken);
        reveal_strlit("{\"type\":\"end\",\"data\":{\"path\":{\"text\":\"");
    }
    assert(unbroken("\"},\"binary_offset\":"@)) by {
        reveal(unbroken);
        reveal_strlit("\"},\"binary_offset\":");
    }
    assert(unbroken(",\"stats\":{\"elapsed\":"@)) by {
        reveal(unbroken);
        reveal_strlit(",\"stats\":{\"elapsed\":");
    }
    assert(unbroken(",\"searches\":1,\"searches_with_match\":1,\"bytes_searched\":"@)) by {
        reveal(unbroken);
        reveal_strlit(",\"searches\":1,\"searches_with_match\":1,\"bytes_searched\":");
    }
    assert(unbroken(",\"bytes_printed\":"@)) by {
        reveal(unbroken);
        reveal_strlit(",\"bytes_printed\":");
    }
    assert(unbroken(",\"matched_lines\":"@)) by {
        reveal(unbroken);
        reveal_strlit(",\"matched_lines\":");
    }
    assert(unbroken(",\"matches\":"@)) by {
        reveal(unbroken);
        reveal_strlit(",\"matches\":");
    }
    assert(unbroken("}}}"@)) by {
        reveal(unbroken);
        reveal_strlit("}}}");
    }
}

/// The object for a match within a line holds no line break.
proof fn lemma_submatch(text: Seq<char>, span: (usize, usize))
    ensures
        unbroken(submatch_object(text, span)),
{
    broadcast use lemma_together, lemma_number, lemma_escaped;

    assert(unbroken("{\"match\":{\"text\":\""@)) by {
        reveal(unbroken);
        reveal_strlit("{\"match\":{\"text\":\"");
    }
    assert(unbroken("\"},\"start\":"@)) by {
        reveal(unbroken);
        reveal_strlit("\"},\"start\":");
    }
    assert(unbroken(",\"end\":"@)) by {
        reveal(unbroken);
        reveal_strlit(",\"end\":");
    }
    assert(unbroken("}"@)) by {
        reveal(unbroken);
        reveal_strlit("}");
    }
}

/// Texts without line breaks, joined by a text without one, hold none.
proof fn lemma_joined_unbroken(parts: Seq<Seq<char>>, separator: Seq<char>)
    requires
        unbroken(separator),
        forall|i: int| 0 <= i < parts.len() ==> unbroken(#[trigger] parts[i]),
    ensures
        unbroken(joined(parts, separator)),
    decreases parts.len(),
{
    broadcast use lemma_together;

    if parts.len() == 0 {
        reveal(unbroken);
    } else if parts.len() > 1 {
        let front = parts.drop_last();
        assert forall|i: int| 0 <= i < front.len() implies unbroken(#[trigger] front[i]) by {
            assert(front[i] == parts[i]);
        }
        lemma_joined_unbroken(front, separator);
    }
}

/// The object for a line holds no line break.
proof fn lemma_line(path: Seq<char>, event: JsonLineEvent)
    requires
        unbroken(path),
    ensures
        unbroken(line_object(path, event)),
{
    broadcast use lemma_together, lemma_number, lemma_escaped;

    assert(unbroken("context"@)) by {
        reveal(unbroken);
        reveal_strlit("context");
    }
    assert(unbroken("match"@)) by {
        reveal(unbroken);
        reveal_strlit("match");
    }
    assert(unbroken("{\"type\":\""@)) by {
        reveal(unbroken);
        reveal_strlit("{\"type\":\"");
    }
    assert(unbroken("\",\"data\":{\"path\":{\"text\":\""@)) by {
        reveal(unbroken);
        reveal_strlit("\",\"data\":{\"path\":{\"text\":\"");
    }
    assert(unbroken("\"},\"lines\":{\"text\":\""@)) by {
        reveal(unbroken);
        reveal_strlit("\"},\"lines\":{\"text\":\"");
    }
    assert(unbroken("\"},\"line_number\":"@)) by {
        reveal(unbroken);
        reveal_strlit("\"},\"line_number\":");
    }
    assert(unbroken(",\"absolute_offset\":"@)) by {
        reveal(unbroken);
        reveal_strlit(",\"absolute_offset\":");
    }
    assert(unbroken(",\"submatches\":["@)) by {
        reveal(unbroken);
        reveal_strlit(",\"submatches\":[");
    }
    assert(unbroken(","@)) by {
        reveal(unbroken);
        reveal_strlit(",");
    }
    assert(unbroken("]}}"@)) by {
        reveal(unbroken);
        reveal_strlit("]}}");
    }
    let objects = submatch_objects(event.text@, event.submatches@);
    assert forall|i: int| 0 <= i < objects.len() implies unbroken(#[trigger] objects[i]) by {
        lemma_submatch(event.text@, event.submatches@[i]);
    }
    lemma_joined_unbroken(objects, ","@);
    assert(unbroken(kind_name(event.kind)));
}

/// The objects for a file hold no line break.
proof fn lemma_file_objects(result: JsonFileResult)
    requires
        result.wf(),
    ensures
        forall|i: int|
            0 <= i < file_objects(result).len() ==> unbroken(#[trigger] file_objects(result)[i]),
{
    let path = escaped(result.path.text@);
    lemma_escaped(result.path.text@);
    let opening = opening_objects(result);
    let objects = file_objects(result);
    assert forall|i: int| 0 <= i < objects.len() implies unbroken(#[trigger] objects[i]) by {
        if i == 0 {
            lemma_begin(path);
            assert(objects[0] == opening[0]);
        } else if i < opening.len() {
            lemma_line(path, result.events@[i - 1]);
            assert(objects[i] == opening[i]);
        } else {
            lemma_end(result, path, result.elapsed, bytes_told(result));
        }
    }
}

/// The objects for files hold no line break.
proof fn lemma_all_objects(results: Seq<JsonFileResult>, count: int)
    requires
        0 <= count <= results.len(),
        forall|i: int| 0 <= i < results.len() ==> (#[trigger] results[i]).wf(),
    ensures
        forall|i: int|
            0 <= i < all_objects(results, count).len() ==> unbroken(
                #[trigger] all_objects(results, count)[i],
            ),
    decreases count,
{
    if count > 0 {
        lemma_all_objects(results, count - 1);
        lemma_file_objects(results[count - 1]);
        let before = all_objects(results, count - 1);
        let objects = file_objects(results[count - 1]);
        assert forall|i: int| 0 <= i < all_objects(results, count).len() implies unbroken(
            #[trigger] all_objects(results, count)[i],
        ) by {
            if i < before.len() {
                assert(all_objects(results, count)[i] == before[i]);
            } else {
                assert(all_objects(results, count)[i] == objects[i - before.len()]);
            }
        }
    }
}

} // verus!
