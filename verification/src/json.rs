//! JSON output: one object on each line.

use vstd::prelude::*;
use vstd::utf8::encode_utf8;

use crate::bytes::{bytes_of, cut_text, cuts_text, is_cut, text_between};
use crate::sinks::{JsonFileResult, JsonLineEvent, JsonLineEventKind};
use crate::stream::{json_output_has_an_object_on_each_line, output_objects, pieces, unbroken};
use crate::text::{chars_of, control, decimal, decimal_text, is_control, join, joined, texts};

verus! {

/// A digit of a number in hexadecimal notation.
pub open spec fn hex_digit(value: nat) -> char {
    if value < 10 {
        (48 + value) as char
    } else {
        (87 + value) as char
    }
}

/// What a character is written as within a JSON string.
pub open spec fn escaped_character(character: char) -> Seq<char> {
    if character == '"' {
        seq!['\\', '"']
    } else if character == '\\' {
        seq!['\\', '\\']
    } else if character == '\n' {
        seq!['\\', 'n']
    } else if character == '\r' {
        seq!['\\', 'r']
    } else if character == '\t' {
        seq!['\\', 't']
    } else if control(character) {
        let code = character as u32 as nat;
        seq!['\\', 'u', '0', '0', hex_digit(code / 16), hex_digit(code % 16)]
    } else {
        seq![character]
    }
}

/// What a text is written as within a JSON string.
pub open spec fn escaped(text: Seq<char>) -> Seq<char>
    decreases text.len(),
{
    if text.len() == 0 {
        Seq::empty()
    } else {
        escaped(text.drop_last()) + escaped_character(text.last())
    }
}

/// A hexadecimal digit is no control character and no quote.
proof fn lemma_hex_digit(value: nat)
    requires
        value < 16,
    ensures
        !control(hex_digit(value)),
        hex_digit(value) != '"',
{
}

/// What a character is written as holds no control character, and no quote but behind a backslash.
proof fn lemma_escaped_character(character: char)
    ensures
        forall|i: int|
            0 <= i < escaped_character(character).len() ==> !control(
                #[trigger] escaped_character(character)[i],
            ),
        forall|i: int|
            0 <= i < escaped_character(character).len() && #[trigger] escaped_character(
                character,
            )[i] == '"' ==> i > 0 && escaped_character(character)[i - 1] == '\\',
{
    if control(character) {
        let code = character as u32 as nat;
        lemma_hex_digit(code / 16);
        lemma_hex_digit(code % 16);
    }
}

/// Within a JSON string there is no control character, and no quote but behind a backslash.
pub proof fn escaped_text_stays_within_its_quotes(text: Seq<char>)
    ensures
        forall|i: int| 0 <= i < escaped(text).len() ==> !control(#[trigger] escaped(text)[i]),
        forall|i: int|
            0 <= i < escaped(text).len() && #[trigger] escaped(text)[i] == '"' ==> i > 0 && escaped(
                text,
            )[i - 1] == '\\',
    decreases text.len(),
{
    if text.len() > 0 {
        let front = escaped(text.drop_last());
        let last = escaped_character(text.last());
        let whole = escaped(text);
        escaped_text_stays_within_its_quotes(text.drop_last());
        lemma_escaped_character(text.last());
        assert forall|i: int| 0 <= i < whole.len() implies !control(#[trigger] whole[i]) by {
            if i < front.len() {
                assert(whole[i] == front[i]);
            } else {
                assert(whole[i] == last[i - front.len()]);
            }
        }
        assert forall|i: int| 0 <= i < whole.len() && #[trigger] whole[i] == '"' implies i > 0
            && whole[i - 1] == '\\' by {
            if i < front.len() {
                assert(whole[i] == front[i]);
                assert(whole[i - 1] == front[i - 1]);
            } else {
                assert(whole[i] == last[i - front.len()]);
                if i > front.len() {
                    assert(whole[i - 1] == last[i - 1 - front.len()]);
                }
            }
        }
    }
}

/// What begins a text that was escaped: the character that stands there, and how long it is
/// written.
pub open spec fn first_escape(written: Seq<char>) -> (char, int) {
    if written[0] != '\\' {
        (written[0], 1)
    } else if written[1] == 'n' {
        ('\n', 2)
    } else if written[1] == 'r' {
        ('\r', 2)
    } else if written[1] == 't' {
        ('\t', 2)
    } else if written[1] == 'u' {
        ((hex_value(written[4]) * 16 + hex_value(written[5])) as char, 6)
    } else {
        (written[1], 2)
    }
}

/// The value of a hexadecimal digit.
pub open spec fn hex_value(digit: char) -> int {
    if '0' <= digit <= '9' {
        digit as int - 48
    } else {
        digit as int - 87
    }
}

/// Escapes are read back as what was escaped.
proof fn lemma_first_escape(character: char, rest: Seq<char>)
    ensures
        first_escape(escaped_character(character) + rest) == (
            character,
            escaped_character(character).len() as int,
        ),
{
    let written = escaped_character(character) + rest;
    let code = character as u32 as nat;
    if character == '"' || character == '\\' || character == '\n' || character == '\r' || character
        == '\t' {
        assert(written[0] == '\\');
    } else if control(character) {
        assert(code / 16 < 16 && code % 16 < 16);
        assert(hex_value(hex_digit(code / 16)) == code / 16);
        assert(hex_value(hex_digit(code % 16)) == code % 16);
        assert((code / 16) * 16 + code % 16 == code);
        assert(written[0] == '\\' && written[1] == 'u');
        assert(written[4] == hex_digit(code / 16));
        assert(written[5] == hex_digit(code % 16));
    } else {
        assert(written[0] == character);
    }
}

/// Escaping from the front: the first character, and then the rest.
proof fn lemma_escaped_front(text: Seq<char>)
    requires
        text.len() > 0,
    ensures
        escaped(text) == escaped_character(text[0]) + escaped(text.drop_first()),
    decreases text.len(),
{
    if text.len() == 1 {
        assert(text.drop_last() == Seq::<char>::empty());
        assert(text.drop_first() == Seq::<char>::empty());
        assert(escaped(text.drop_last()) == Seq::<char>::empty());
        assert(Seq::<char>::empty() + escaped_character(text[0]) == escaped_character(text[0])
            + Seq::<char>::empty());
    } else {
        let front = text.drop_last();
        lemma_escaped_front(front);
        assert(front.drop_first() == text.drop_first().drop_last());
        assert(escaped(text) == escaped_character(text[0]) + escaped(front.drop_first())
            + escaped_character(text.last()));
        assert(escaped(text.drop_first()) == escaped(front.drop_first()) + escaped_character(
            text.last(),
        ));
        assert(escaped_character(text[0]) + escaped(front.drop_first()) + escaped_character(
            text.last(),
        ) == escaped_character(text[0]) + (escaped(front.drop_first()) + escaped_character(
            text.last(),
        )));
    }
}

/// Different texts are written differently: what is written can be read back.
pub proof fn escaping_loses_nothing(first: Seq<char>, second: Seq<char>)
    requires
        escaped(first) == escaped(second),
    ensures
        first == second,
    decreases first.len(),
{
    if first.len() > 0 {
        lemma_escaped_front(first);
        lemma_first_escape(first[0], escaped(first.drop_first()));
    }
    if second.len() > 0 {
        lemma_escaped_front(second);
        lemma_first_escape(second[0], escaped(second.drop_first()));
    }
    if first.len() == 0 {
        if second.len() > 0 {
            assert(escaped(second).len() > 0);
        }
    } else {
        if second.len() == 0 {
            assert(escaped(first).len() > 0);
        }
        let length = escaped_character(first[0]).len() as int;
        assert(first[0] == second[0]);
        assert(escaped(first).skip(length) == escaped(first.drop_first()));
        assert(escaped(second).skip(length) == escaped(second.drop_first()));
        escaping_loses_nothing(first.drop_first(), second.drop_first());
        assert(first == seq![first[0]] + first.drop_first());
        assert(second == seq![second[0]] + second.drop_first());
    }
}

/// A digit of a number in hexadecimal notation.
fn to_hex_digit(value: u32) -> (digit: char)
    requires
        value < 16,
    ensures
        digit == hex_digit(value as nat),
{
    let low: u8 = value as u8;
    if low < 10 {
        (48u8 + low) as char
    } else {
        (87u8 + low) as char
    }
}

/// What a text is written as within a JSON string.
pub fn json_escape(text: &str) -> (written: String)
    ensures
        written@ == escaped(text@),
{
    let characters = chars_of(text);
    let mut written = String::new();
    let mut at: usize = 0;
    while at < characters.len()
        invariant
            characters@ == text@,
            at <= text@.len(),
            written@ == escaped(text@.take(at as int)),
        decreases text@.len() - at,
    {
        let character = characters[at];
        assert(text@.take(at + 1).drop_last() == text@.take(at as int));
        let ghost before = written@;
        if character == '"' || character == '\\' {
            written.push('\\');
            written.push(character);
        } else if character == '\n' {
            written.push('\\');
            written.push('n');
        } else if character == '\r' {
            written.push('\\');
            written.push('r');
        } else if character == '\t' {
            written.push('\\');
            written.push('t');
        } else if is_control(character) {
            let code: u32 = character as u32;
            written.push('\\');
            written.push('u');
            written.push('0');
            written.push('0');
            written.push(to_hex_digit(code / 16));
            written.push(to_hex_digit(code % 16));
            assert((code / 16) as nat == code as nat / 16);
            assert((code % 16) as nat == code as nat % 16);
            assert(written@ == before + escaped_character(character));
        } else {
            written.push(character);
        }
        assert(written@ == before + escaped_character(character));
        at = at + 1;
    }
    assert(text@.take(at as int) == text@);
    written
}

/// How long a search took.
#[derive(Debug, Clone)]
pub struct JsonDuration {
    /// The whole seconds.
    pub secs: u64,
    /// The nanoseconds beyond them.
    pub nanos: u32,
    /// The time in seconds, as it is shown.
    pub human: String,
}

impl JsonDuration {
    /// Whether the time is shown on one line.
    pub open spec fn wf(self) -> bool {
        unbroken(self.human@)
    }

    /// The object for the time.
    pub open spec fn rendered(self) -> Seq<char> {
        "{\"secs\":"@ + decimal(self.secs as nat) + ",\"nanos\":"@ + decimal(self.nanos as nat)
            + ",\"human\":\""@ + self.human@ + "\"}"@
    }

    /// The object for the time.
    pub fn render(&self) -> (text: String)
        ensures
            text@ == self.rendered(),
    {
        let secs = decimal_text(self.secs as u128);
        let nanos = decimal_text(self.nanos as u128);
        let mut text = "{\"secs\":".to_owned();
        text.append(secs.as_str());
        text.append(",\"nanos\":");
        text.append(nanos.as_str());
        text.append(",\"human\":\"");
        text.append(self.human.as_str());
        text.append("\"}");
        text
    }
}

/// How long a search took: whole seconds, the nanoseconds beyond them, and the time as it is shown.
pub fn json_duration(secs: u64, nanos: u32, human: String) -> (duration: JsonDuration)
    requires
        unbroken(human@),
    ensures
        duration.wf(),
        duration.secs == secs,
        duration.nanos == nanos,
        duration.human == human,
{
    JsonDuration { secs, nanos, human }
}

/// A number, or `null`.
pub open spec fn optional_number(value: Option<u64>) -> Seq<char> {
    match value {
        Some(number) => decimal(number as nat),
        None => "null"@,
    }
}

/// A number, or `null`.
pub fn json_optional_u64(value: Option<u64>) -> (text: String)
    ensures
        text@ == optional_number(value),
{
    match value {
        Some(number) => decimal_text(number as u128),
        None => "null".to_owned(),
    }
}

/// The object for a match within a line.
pub open spec fn submatch_object(text: Seq<char>, span: (usize, usize)) -> Seq<char> {
    "{\"match\":{\"text\":\""@ + escaped(text_between(text, span.0 as int, span.1 as int))
        + "\"},\"start\":"@ + decimal(span.0 as nat) + ",\"end\":"@ + decimal(span.1 as nat) + "}"@
}

/// The objects for the matches within a line.
pub open spec fn submatch_objects(text: Seq<char>, spans: Seq<(usize, usize)>) -> Seq<Seq<char>> {
    Seq::new(spans.len(), |i: int| submatch_object(text, spans[i]))
}

/// Whether matches cut a line into whole characters.
pub open spec fn spans_cut(text: Seq<char>, spans: Seq<(usize, usize)>) -> bool {
    forall|i: int|
        0 <= i < spans.len() ==> cuts_text(
            text,
            (#[trigger] spans[i]).0 as int,
            spans[i].1 as int,
        )
}

/// Whether matches cut a line into whole characters.
pub fn do_spans_cut(text: &str, spans: &Vec<(usize, usize)>) -> (cut: bool)
    ensures
        cut == spans_cut(text@, spans@),
{
    let mut at: usize = 0;
    while at < spans.len()
        invariant
            at <= spans@.len(),
            forall|i: int|
                0 <= i < at ==> cuts_text(
                    text@,
                    (#[trigger] spans@[i]).0 as int,
                    spans@[i].1 as int,
                ),
        decreases spans@.len() - at,
    {
        let (start, end) = spans[at];
        if !is_cut(text, start, end) {
            assert(!cuts_text(text@, spans@[at as int].0 as int, spans@[at as int].1 as int));
            return false;
        }
        at = at + 1;
    }
    true
}

/// The object for a match within a line.
fn render_json_submatch(text: &str, start: usize, end: usize) -> (object: String)
    requires
        cuts_text(text@, start as int, end as int),
    ensures
        object@ == submatch_object(text@, (start, end)),
{
    let part = cut_text(text, start, end);
    let written = json_escape(part.as_str());
    let start_text = decimal_text(start as u128);
    let end_text = decimal_text(end as u128);
    let mut object = "{\"match\":{\"text\":\"".to_owned();
    object.append(written.as_str());
    object.append("\"},\"start\":");
    object.append(start_text.as_str());
    object.append(",\"end\":");
    object.append(end_text.as_str());
    object.append("}");
    object
}

/// The objects for the matches within a line, with commas between them.
pub fn render_json_submatches(text: &str, submatches: &Vec<(usize, usize)>) -> (objects: String)
    requires
        spans_cut(text@, submatches@),
    ensures
        objects@ == joined(submatch_objects(text@, submatches@), ","@),
{
    let mut parts: Vec<String> = Vec::new();
    let mut at: usize = 0;
    while at < submatches.len()
        invariant
            spans_cut(text@, submatches@),
            at == parts@.len() <= submatches@.len(),
            forall|i: int|
                0 <= i < at ==> (#[trigger] parts@[i])@ == submatch_object(text@, submatches@[i]),
        decreases submatches@.len() - at,
    {
        let (start, end) = submatches[at];
        parts.push(render_json_submatch(text, start, end));
        at = at + 1;
    }
    assert(texts(parts@) == submatch_objects(text@, submatches@));
    join(&parts, ",")
}

/// What the kind of a line event is called.
pub open spec fn kind_name(kind: JsonLineEventKind) -> Seq<char> {
    match kind {
        JsonLineEventKind::Context => "context"@,
        JsonLineEventKind::Match => "match"@,
    }
}

/// The object for a line. The path is already escaped.
pub open spec fn line_object(path: Seq<char>, event: JsonLineEvent) -> Seq<char> {
    "{\"type\":\""@ + kind_name(event.kind) + "\",\"data\":{\"path\":{\"text\":\""@ + path
        + "\"},\"lines\":{\"text\":\""@ + escaped(event.text@) + "\"},\"line_number\":"@ + decimal(
        event.line_number as nat,
    ) + ",\"absolute_offset\":"@ + decimal(event.absolute_offset as nat) + ",\"submatches\":["@
        + joined(submatch_objects(event.text@, event.submatches@), ","@) + "]}}"@
}

/// The object for a line. The path is already escaped.
pub fn render_json_line_event(path: &str, event: &JsonLineEvent) -> (object: String)
    requires
        spans_cut(event.text@, event.submatches@),
    ensures
        object@ == line_object(path@, *event),
{
    let kind = match event.kind {
        JsonLineEventKind::Context => "context",
        JsonLineEventKind::Match => "match",
    };
    let submatches = render_json_submatches(event.text.as_str(), &event.submatches);
    let written = json_escape(event.text.as_str());
    let number = decimal_text(event.line_number as u128);
    let offset = decimal_text(event.absolute_offset as u128);
    let mut object = "{\"type\":\"".to_owned();
    object.append(kind);
    object.append("\",\"data\":{\"path\":{\"text\":\"");
    object.append(path);
    object.append("\"},\"lines\":{\"text\":\"");
    object.append(written.as_str());
    object.append("\"},\"line_number\":");
    object.append(number.as_str());
    object.append(",\"absolute_offset\":");
    object.append(offset.as_str());
    object.append(",\"submatches\":[");
    object.append(submatches.as_str());
    object.append("]}}");
    object
}

/// The object for the end of a file. The path is already escaped.
pub open spec fn end_object(
    result: JsonFileResult,
    path: Seq<char>,
    elapsed: JsonDuration,
    bytes_printed: nat,
) -> Seq<char> {
    "{\"type\":\"end\",\"data\":{\"path\":{\"text\":\""@ + path + "\"},\"binary_offset\":"@
        + optional_number(result.binary_offset) + ",\"stats\":{\"elapsed\":"@ + elapsed.rendered()
        + ",\"searches\":1,\"searches_with_match\":1,\"bytes_searched\":"@ + decimal(
        result.bytes_searched as nat,
    ) + ",\"bytes_printed\":"@ + decimal(bytes_printed) + ",\"matched_lines\":"@ + decimal(
        result.matched_lines as nat,
    ) + ",\"matches\":"@ + decimal(result.matches as nat) + "}}}"@
}

/// The object for the end of a file. The path is already escaped.
pub fn render_json_end(
    result: &JsonFileResult,
    path: &str,
    elapsed: &JsonDuration,
    bytes_printed: u128,
) -> (object: String)
    ensures
        object@ == end_object(*result, path@, *elapsed, bytes_printed as nat),
{
    let offset = json_optional_u64(result.binary_offset);
    let time = elapsed.render();
    let searched = decimal_text(result.bytes_searched as u128);
    let printed = decimal_text(bytes_printed);
    let lines = decimal_text(result.matched_lines as u128);
    let matches = decimal_text(result.matches);
    let mut object = "{\"type\":\"end\",\"data\":{\"path\":{\"text\":\"".to_owned();
    object.append(path);
    object.append("\"},\"binary_offset\":");
    object.append(offset.as_str());
    object.append(",\"stats\":{\"elapsed\":");
    object.append(time.as_str());
    object.append(",\"searches\":1,\"searches_with_match\":1,\"bytes_searched\":");
    object.append(searched.as_str());
    object.append(",\"bytes_printed\":");
    object.append(printed.as_str());
    object.append(",\"matched_lines\":");
    object.append(lines.as_str());
    object.append(",\"matches\":");
    object.append(matches.as_str());
    object.append("}}}");
    object
}

/// What all searches came to together.
#[derive(Debug, Clone, Copy, PartialEq, Eq, Structural)]
pub struct JsonTotals {
    /// The number of files searched.
    pub searches: usize,
    /// The number of files with a match.
    pub searches_with_match: usize,
    /// The number of lines that match.
    pub matched_lines: u128,
    /// The number of matches.
    pub matches: u128,
    /// The number of bytes searched.
    pub bytes_searched: u128,
}

/// The object for all searches.
pub open spec fn summary_object(
    totals: JsonTotals,
    elapsed: JsonDuration,
    bytes_printed: nat,
) -> Seq<char> {
    "{\"data\":{\"elapsed_total\":"@ + elapsed.rendered() + ",\"stats\":{\"bytes_printed\":"@
        + decimal(bytes_printed) + ",\"bytes_searched\":"@ + decimal(totals.bytes_searched as nat)
        + ",\"elapsed\":"@ + elapsed.rendered() + ",\"matched_lines\":"@ + decimal(
        totals.matched_lines as nat,
    ) + ",\"matches\":"@ + decimal(totals.matches as nat) + ",\"searches\":"@ + decimal(
        totals.searches as nat,
    ) + ",\"searches_with_match\":"@ + decimal(totals.searches_with_match as nat)
        + "}},\"type\":\"summary\"}"@
}

/// The object for all searches.
pub fn render_json_summary(totals: &JsonTotals, elapsed_total: &JsonDuration, bytes_printed: u128)
    -> (object: String)
    ensures
        object@ == summary_object(*totals, *elapsed_total, bytes_printed as nat),
{
    let time = elapsed_total.render();
    let printed = decimal_text(bytes_printed);
    let searched = decimal_text(totals.bytes_searched);
    let lines = decimal_text(totals.matched_lines);
    let matches = decimal_text(totals.matches);
    let searches = decimal_text(totals.searches as u128);
    let with_match = decimal_text(totals.searches_with_match as u128);
    let mut object = "{\"data\":{\"elapsed_total\":".to_owned();
    object.append(time.as_str());
    object.append(",\"stats\":{\"bytes_printed\":");
    object.append(printed.as_str());
    object.append(",\"bytes_searched\":");
    object.append(searched.as_str());
    object.append(",\"elapsed\":");
    object.append(time.as_str());
    object.append(",\"matched_lines\":");
    object.append(lines.as_str());
    object.append(",\"matches\":");
    object.append(matches.as_str());
    object.append(",\"searches\":");
    object.append(searches.as_str());
    object.append(",\"searches_with_match\":");
    object.append(with_match.as_str());
    object.append("}},\"type\":\"summary\"}");
    object
}

/// The number of bytes that lines take, each with its line break.
pub open spec fn bytes_taken(lines: Seq<Seq<char>>) -> nat
    decreases lines.len(),
{
    if lines.len() == 0 {
        0
    } else {
        bytes_taken(lines.drop_last()) + encode_utf8(lines.last()).len() + 1
    }
}

/// Lines put together take the bytes of both.
pub proof fn bytes_add_up(first: Seq<Seq<char>>, second: Seq<Seq<char>>)
    ensures
        bytes_taken(first + second) == bytes_taken(first) + bytes_taken(second),
    decreases second.len(),
{
    if second.len() == 0 {
        assert(first + second == first);
    } else {
        bytes_add_up(first, second.drop_last());
        assert((first + second).drop_last() == first + second.drop_last());
    }
}

/// The number of bytes that lines take, each with its line break.
pub fn rendered_bytes(lines: &Vec<String>) -> (bytes: u128)
    ensures
        bytes == bytes_taken(texts(lines@)),
{
    let mut bytes: u128 = 0;
    let count: usize = lines.len();
    let mut at: usize = 0;
    let ghost all = texts(lines@);
    while at < count
        invariant
            all == texts(lines@),
            count == lines@.len(),
            at <= count,
            bytes == bytes_taken(all.take(at as int)),
            bytes <= at * (usize::MAX + 1),
        decreases count - at,
    {
        let line = bytes_of(lines[at].as_str());
        let length: usize = line.len();
        proof {
            assert(all.take(at + 1).drop_last() == all.take(at as int));
            assert(all.take(at + 1).last() == lines@[at as int]@);
            let most = usize::MAX + 1;
            assert(at * most + most == (at + 1) * most) by (nonlinear_arith);
            assert((at + 1) * most <= usize::MAX * most) by (nonlinear_arith)
                requires
                    at + 1 <= usize::MAX,
                    most >= 0,
            ;
            assert(usize::MAX * most <= u64::MAX * (u64::MAX + 1)) by (nonlinear_arith)
                requires
                    most == usize::MAX + 1,
                    usize::MAX <= u64::MAX,
            ;
        }
        bytes = bytes + (length as u128 + 1);
        at = at + 1;
    }
    assert(all.take(at as int) == all);
    bytes
}

/// Whether the matches of every line of a file cut the line into whole characters.
pub open spec fn result_cuts(result: JsonFileResult) -> bool {
    forall|i: int|
        0 <= i < result.events@.len() ==> #[trigger] event_cuts(result.events@[i])
}

/// Whether the matches of a line cut it into whole characters.
pub open spec fn event_cuts(event: JsonLineEvent) -> bool {
    spans_cut(event.text@, event.submatches@)
}

/// Whether the matches of every line of a file cut the line into whole characters.
pub fn does_result_cut(result: &JsonFileResult) -> (cut: bool)
    ensures
        cut == result_cuts(*result),
{
    let mut at: usize = 0;
    while at < result.events.len()
        invariant
            at <= result.events@.len(),
            forall|i: int| 0 <= i < at ==> #[trigger] event_cuts(result.events@[i]),
        decreases result.events@.len() - at,
    {
        if !do_spans_cut(result.events[at].text.as_str(), &result.events[at].submatches) {
            assert(!event_cuts(result.events@[at as int]));
            return false;
        }
        at = at + 1;
    }
    true
}

/// The object for the beginning of a file. The path is already escaped.
pub open spec fn begin_object(path: Seq<char>) -> Seq<char> {
    "{\"type\":\"begin\",\"data\":{\"path\":{\"text\":\""@ + path + "\"}}}"@
}

/// The objects for the beginning of a file and for its lines.
pub open spec fn opening_objects(result: JsonFileResult) -> Seq<Seq<char>> {
    let path = escaped(result.path.text@);
    seq![begin_object(path)] + Seq::new(
        result.events@.len(),
        |i: int| line_object(path, result.events@[i]),
    )
}

/// The bytes told of at the end of a file: those of all its objects, with the last of them as it
/// is written before its own bytes are counted.
pub open spec fn bytes_told(result: JsonFileResult) -> nat {
    let path = escaped(result.path.text@);
    let opening = opening_objects(result);
    bytes_taken(
        opening.push(end_object(result, path, result.elapsed, bytes_taken(opening))),
    )
}

/// The objects for a file: its beginning, its lines, and its end.
pub open spec fn file_objects(result: JsonFileResult) -> Seq<Seq<char>> {
    let path = escaped(result.path.text@);
    opening_objects(result).push(end_object(result, path, result.elapsed, bytes_told(result)))
}

/// The objects for a file begin with that for its beginning, and end with that for its end; between
/// them there is one for each line, in order.
pub proof fn objects_stand_between_begin_and_end(result: JsonFileResult)
    ensures
        file_objects(result).len() == result.events@.len() + 2,
        file_objects(result)[0] == begin_object(escaped(result.path.text@)),
        file_objects(result).last() == end_object(
            result,
            escaped(result.path.text@),
            result.elapsed,
            bytes_told(result),
        ),
        forall|i: int|
            0 <= i < result.events@.len() ==> #[trigger] file_objects(result)[i + 1] == line_object(
                escaped(result.path.text@),
                result.events@[i],
            ),
{
}

/// The objects for a file.
pub fn render_json_file(result: &JsonFileResult) -> (lines: Vec<String>)
    requires
        result_cuts(*result),
    ensures
        texts(lines@) == file_objects(*result),
{
    let path = json_escape(result.path.text.as_str());
    let ghost opening = opening_objects(*result);
    let mut lines: Vec<String> = Vec::new();
    let mut begin = "{\"type\":\"begin\",\"data\":{\"path\":{\"text\":\"".to_owned();
    begin.append(path.as_str());
    begin.append("\"}}}");
    lines.push(begin);
    let mut at: usize = 0;
    assert(texts(lines@) == opening.take(1));
    while at < result.events.len()
        invariant
            result_cuts(*result),
            path@ == escaped(result.path.text@),
            opening == opening_objects(*result),
            at <= result.events@.len(),
            texts(lines@) == opening.take(at + 1),
        decreases result.events@.len() - at,
    {
        assert(event_cuts(result.events@[at as int]));
        let line = render_json_line_event(path.as_str(), &result.events[at]);
        let ghost before = lines@;
        assert(opening[at + 1] == line@);
        lines.push(line);
        assert(texts(lines@) == texts(before).push(line@));
        assert(opening.take(at + 2) == opening.take(at + 1).push(opening[at + 1]));
        at = at + 1;
    }
    assert(opening.take(opening.len() as int) == opening);
    let ghost opened = lines@;
    let so_far = rendered_bytes(&lines);
    lines.push(render_json_end(result, path.as_str(), &result.elapsed, so_far));
    assert(texts(lines@) == opening.push(
        end_object(*result, path@, result.elapsed, so_far as nat),
    ));
    let bytes_printed = rendered_bytes(&lines);
    let _ = lines.pop();
    assert(lines@ == opened);
    lines.push(render_json_end(result, path.as_str(), &result.elapsed, bytes_printed));
    assert(texts(lines@) == texts(opened).push(
        end_object(*result, path@, result.elapsed, bytes_printed as nat),
    ));
    lines
}

/// The objects for the first `count` files.
pub open spec fn all_objects(results: Seq<JsonFileResult>, count: int) -> Seq<Seq<char>>
    decreases count,
{
    if count <= 0 {
        Seq::empty()
    } else {
        all_objects(results, count - 1) + file_objects(results[count - 1])
    }
}

/// JSON output: the objects for the files, and one for all searches, each on a line.
pub open spec fn json_output(
    results: Seq<JsonFileResult>,
    totals: JsonTotals,
    elapsed: JsonDuration,
) -> Seq<char> {
    let objects = all_objects(results, results.len() as int);
    joined(objects.push(summary_object(totals, elapsed, bytes_taken(objects))), "\n"@)
}

/// JSON output.
pub fn render_json_output(
    file_results: &Vec<JsonFileResult>,
    totals: &JsonTotals,
    elapsed_total: &JsonDuration,
) -> (output: String)
    requires
        elapsed_total.wf(),
        forall|i: int| 0 <= i < file_results@.len() ==> (#[trigger] file_results@[i]).wf(),
        forall|i: int|
            0 <= i < file_results@.len() ==> result_cuts(#[trigger] file_results@[i]),
    ensures
        output@ == json_output(file_results@, *totals, *elapsed_total),
        pieces(output@) == output_objects(file_results@, *totals, *elapsed_total),
{
    proof {
        json_output_has_an_object_on_each_line(file_results@, *totals, *elapsed_total);
    }
    let mut lines: Vec<String> = Vec::new();
    let mut at: usize = 0;
    assert(texts(lines@) == all_objects(file_results@, 0));
    while at < file_results.len()
        invariant
            forall|i: int|
                0 <= i < file_results@.len() ==> result_cuts(#[trigger] file_results@[i]),
            at <= file_results@.len(),
            texts(lines@) == all_objects(file_results@, at as int),
        decreases file_results@.len() - at,
    {
        let mut more = render_json_file(&file_results[at]);
        let ghost before = lines@;
        let ghost added = more@;
        lines.append(&mut more);
        assert(texts(lines@) == texts(before) + texts(added));
        at = at + 1;
    }
    let bytes_printed = rendered_bytes(&lines);
    let ghost objects = texts(lines@);
    let summary = render_json_summary(totals, elapsed_total, bytes_printed);
    lines.push(summary);
    assert(texts(lines@) == objects.push(summary@));
    join(&lines, "\n")
}

/// The sum of the matched lines of files.
pub open spec fn sum_lines(results: Seq<JsonFileResult>) -> nat
    decreases results.len(),
{
    if results.len() == 0 {
        0
    } else {
        sum_lines(results.drop_last()) + results.last().matched_lines as nat
    }
}

/// The sum of the matches of files.
pub open spec fn sum_matches(results: Seq<JsonFileResult>) -> nat
    decreases results.len(),
{
    if results.len() == 0 {
        0
    } else {
        sum_matches(results.drop_last()) + results.last().matches as nat
    }
}

/// The sum of the bytes searched in files.
pub open spec fn sum_bytes(results: Seq<JsonFileResult>) -> nat
    decreases results.len(),
{
    if results.len() == 0 {
        0
    } else {
        sum_bytes(results.drop_last()) + results.last().bytes_searched as nat
    }
}

/// The files with a match.
pub open spec fn with_match(results: Seq<JsonFileResult>) -> Seq<JsonFileResult>
    decreases results.len(),
{
    if results.len() == 0 {
        Seq::empty()
    } else if results.last().matched_lines > 0 {
        with_match(results.drop_last()).push(results.last())
    } else {
        with_match(results.drop_last())
    }
}

/// Whether totals are those of the searches: `searches` files were searched, and those that could
/// be are `results`.
pub open spec fn are_totals(
    totals: JsonTotals,
    searches: nat,
    results: Seq<JsonFileResult>,
) -> bool {
    &&& totals.searches == searches
    &&& totals.searches_with_match == with_match(results).len()
    &&& totals.matched_lines == sum_lines(results)
    &&& totals.matches == sum_matches(results)
    &&& totals.bytes_searched == sum_bytes(results)
}

/// What a JSON search came to.
#[derive(Debug, Clone)]
pub struct JsonSearchResult {
    /// The output.
    pub output: String,
    /// Whether a file has a match.
    pub had_match: bool,
}

/// The matches of part of the files are no more than those of all.
proof fn lemma_sum_matches(results: Seq<JsonFileResult>, count: int)
    requires
        0 <= count <= results.len(),
    ensures
        sum_matches(results.take(count)) <= sum_matches(results),
    decreases results.len() - count,
{
    if count < results.len() {
        lemma_sum_matches(results, count + 1);
        assert(results.take(count + 1).drop_last() == results.take(count));
    } else {
        assert(results.take(count) == results);
    }
}

/// Whether the sum of the matches of files can be told.
pub fn do_matches_fit(results: &Vec<JsonFileResult>) -> (fit: bool)
    ensures
        fit == (sum_matches(results@) <= u128::MAX),
{
    let mut sum: u128 = 0;
    let mut at: usize = 0;
    while at < results.len()
        invariant
            at <= results@.len(),
            sum == sum_matches(results@.take(at as int)),
        decreases results@.len() - at,
    {
        assert(results@.take(at + 1).drop_last() == results@.take(at as int));
        if results[at].matches > u128::MAX - sum {
            proof {
                lemma_sum_matches(results@, at + 1);
            }
            return false;
        }
        sum = sum + results[at].matches;
        at = at + 1;
    }
    assert(results@.take(at as int) == results@);
    true
}

/// The totals of searches: `searches` files were searched, and those that could be are `results`.
fn totals_of(searches: usize, results: &Vec<JsonFileResult>) -> (totals: JsonTotals)
    requires
        sum_matches(results@) <= u128::MAX,
    ensures
        are_totals(totals, searches as nat, results@),
{
    let mut with_matches: usize = 0;
    let mut lines: u128 = 0;
    let mut matches: u128 = 0;
    let mut bytes: u128 = 0;
    let count: usize = results.len();
    let mut at: usize = 0;
    while at < count
        invariant
            sum_matches(results@) <= u128::MAX,
            count == results@.len(),
            at <= count,
            with_matches <= at,
            with_matches == with_match(results@.take(at as int)).len(),
            lines == sum_lines(results@.take(at as int)),
            lines <= at * u64::MAX,
            matches == sum_matches(results@.take(at as int)),
            bytes == sum_bytes(results@.take(at as int)),
            bytes <= at * u64::MAX,
        decreases count - at,
    {
        let result = &results[at];
        proof {
            assert(results@.take(at + 1).drop_last() == results@.take(at as int));
            lemma_sum_matches(results@, at + 1);
            let most = u64::MAX as int;
            assert(at * most + most == (at + 1) * most) by (nonlinear_arith);
            assert((at + 1) * most <= most * most) by (nonlinear_arith)
                requires
                    at + 1 <= most,
                    most >= 0,
            ;
        }
        if result.matched_lines > 0 {
            with_matches = with_matches + 1;
        }
        lines = lines + result.matched_lines as u128;
        matches = matches + result.matches;
        bytes = bytes + result.bytes_searched as u128;
        at = at + 1;
    }
    assert(results@.take(at as int) == results@);
    JsonTotals {
        searches,
        searches_with_match: with_matches,
        matched_lines: lines,
        matches,
        bytes_searched: bytes,
    }
}

/// Leaves the files with a match.
fn keep_with_match(results: Vec<JsonFileResult>) -> (kept: Vec<JsonFileResult>)
    ensures
        kept@ == with_match(results@),
{
    let mut results = results;
    let mut kept: Vec<JsonFileResult> = Vec::new();
    let mut reversed: Vec<JsonFileResult> = Vec::new();
    let ghost all = results@;
    assert(with_match(all) == with_match(results@) + reversed@.reverse());
    while results.len() > 0
        invariant
            with_match(all) == with_match(results@) + reversed@.reverse(),
        decreases results@.len(),
    {
        let ghost before = results@;
        let ghost earlier = reversed@;
        if let Some(result) = results.pop() {
            assert(results@ == before.drop_last());
            assert(result == before.last());
            if result.matched_lines > 0 {
                reversed.push(result);
                assert(with_match(before) + earlier.reverse() == with_match(results@)
                    + reversed@.reverse());
            }
        }
    }
    let ghost found = reversed@;
    assert(with_match(all) == found.reverse());
    assert(kept@ + reversed@.reverse() == found.reverse());
    while reversed.len() > 0
        invariant
            kept@ + reversed@.reverse() == found.reverse(),
        decreases reversed@.len(),
    {
        let ghost before = reversed@;
        let ghost earlier = kept@;
        if let Some(result) = reversed.pop() {
            kept.push(result);
            assert(earlier + before.reverse() == kept@ + reversed@.reverse());
        }
    }
    assert(kept@ == found.reverse());
    kept
}

/// The files with a match are among the files.
proof fn lemma_with_match_among(results: Seq<JsonFileResult>)
    ensures
        forall|i: int|
            0 <= i < with_match(results).len() ==> results.contains(
                #[trigger] with_match(results)[i],
            ),
    decreases results.len(),
{
    if results.len() > 0 {
        let front = results.drop_last();
        lemma_with_match_among(front);
        let kept = with_match(results);
        assert forall|i: int| 0 <= i < kept.len() implies results.contains(#[trigger] kept[i]) by {
            if i < with_match(front).len() {
                assert(kept[i] == with_match(front)[i]);
                let at = front.index_of(kept[i]);
                assert(results[at] == kept[i]);
            } else {
                assert(results[results.len() - 1] == kept[i]);
            }
        }
    }
}

/// What a JSON search came to: `searches` files were searched, and those that could be are
/// `results`.
pub fn execute_json_search(
    searches: usize,
    results: Vec<JsonFileResult>,
    elapsed_total: &JsonDuration,
) -> (outcome: JsonSearchResult)
    requires
        elapsed_total.wf(),
        sum_matches(results@) <= u128::MAX,
        forall|i: int| 0 <= i < results@.len() ==> (#[trigger] results@[i]).wf(),
        forall|i: int| 0 <= i < results@.len() ==> result_cuts(#[trigger] results@[i]),
    ensures
        outcome.had_match == (with_match(results@).len() > 0),
        exists|totals: JsonTotals| #[trigger]
            are_totals(totals, searches as nat, results@) && outcome.output@ == json_output(
                with_match(results@),
                totals,
                *elapsed_total,
            ),
{
    let totals = totals_of(searches, &results);
    let ghost all = results@;
    let kept = keep_with_match(results);
    proof {
        lemma_with_match_among(all);
        assert forall|i: int| 0 <= i < kept@.len() implies (#[trigger] kept@[i]).wf()
            && result_cuts(kept@[i]) by {
            let at = all.index_of(with_match(all)[i]);
            assert(all[at] == kept@[i]);
        }
    }
    let output = render_json_output(&kept, &totals, elapsed_total);
    JsonSearchResult { output, had_match: totals.searches_with_match > 0 }
}

} // verus!
