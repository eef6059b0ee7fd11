//! Characters, words, lines and numbers, as values and as sequences of characters.

use vstd::prelude::*;

verus! {

/// [`String::push`]: the character is added at the end of the text.
pub assume_specification[ String::push ](text: &mut String, character: char)
    ensures
        final(text)@ == old(text)@.push(character),
;

/// The characters of each of several texts.
pub open spec fn texts(strings: Seq<String>) -> Seq<Seq<char>> {
    Seq::new(strings.len(), |i: int| strings[i]@)
}

/// Unicode's `White_Space` property.
pub open spec fn white_space(character: char) -> bool {
    let code = character as u32;
    ||| 0x9 <= code <= 0xd
    ||| code == 0x20
    ||| code == 0x85
    ||| code == 0xa0
    ||| code == 0x1680
    ||| 0x2000 <= code <= 0x200a
    ||| code == 0x2028
    ||| code == 0x2029
    ||| code == 0x202f
    ||| code == 0x205f
    ||| code == 0x3000
}

/// Unicode's general category `Cc`: the control characters.
pub open spec fn control(character: char) -> bool {
    let code = character as u32;
    code < 0x20 || 0x7f <= code < 0xa0
}

/// The place of the first white space at or after `from`, or the end of the text.
pub open spec fn word_end(text: Seq<char>, from: int) -> int
    decreases text.len() - from,
{
    if from < 0 || from >= text.len() || white_space(text[from]) {
        from
    } else {
        word_end(text, from + 1)
    }
}

/// The words of `text` from `from` on: the longest runs free of white space, in order.
pub open spec fn words_from(text: Seq<char>, from: int) -> Seq<Seq<char>>
    decreases text.len() - from,
{
    if from < 0 || from >= text.len() {
        Seq::empty()
    } else if white_space(text[from]) {
        words_from(text, from + 1)
    } else {
        let end = word_end(text, from);
        if from < end <= text.len() {
            seq![text.subrange(from, end)] + words_from(text, end)
        } else {
            Seq::empty()
        }
    }
}

/// The words of a text.
pub open spec fn words(text: Seq<char>) -> Seq<Seq<char>> {
    words_from(text, 0)
}

/// The parts one after the other, with `separator` between neighbours.
pub open spec fn joined(parts: Seq<Seq<char>>, separator: Seq<char>) -> Seq<char>
    decreases parts.len(),
{
    if parts.len() == 0 {
        Seq::empty()
    } else if parts.len() == 1 {
        parts[0]
    } else {
        joined(parts.drop_last(), separator) + (separator + parts.last())
    }
}

/// Whether `part` stands somewhere in `whole`, without a gap.
pub open spec fn occurs_in(part: Seq<char>, whole: Seq<char>) -> bool {
    exists|at: int| occurs_at(part, whole, at)
}

/// Whether `part` stands in `whole` at `at`.
pub open spec fn occurs_at(part: Seq<char>, whole: Seq<char>, at: int) -> bool {
    0 <= at && at + part.len() <= whole.len() && whole.subrange(at, at + part.len()) == part
}

/// The characters of a text, one by one.
pub fn chars_of(text: &str) -> (characters: Vec<char>)
    ensures
        characters@ == text@,
{
    let mut characters: Vec<char> = Vec::new();
    for character in iter: text.chars()
        invariant
            characters@ == text@.take(iter.index() as int),
            iter.seq() == text@,
    {
        characters.push(character);
        assert(text@.take(iter.index() + 1) == text@.take(iter.index() as int).push(character));
    }
    assert(text@.take(text@.len() as int) == text@);
    characters
}

/// The text made of `characters[start..end]`.
pub fn text_of(characters: &Vec<char>, start: usize, end: usize) -> (text: String)
    requires
        start <= end <= characters@.len(),
    ensures
        text@ == characters@.subrange(start as int, end as int),
{
    let mut text = String::new();
    let mut at: usize = start;
    while at < end
        invariant
            start <= at <= end <= characters@.len(),
            text@ == characters@.subrange(start as int, at as int),
        decreases end - at,
    {
        text.push(characters[at]);
        at = at + 1;
        assert(characters@.subrange(start as int, at as int) == characters@.subrange(
            start as int,
            at - 1,
        ).push(characters@[at - 1]));
    }
    text
}

/// Whether two texts hold the same characters.
pub fn same_text(left: &str, right: &str) -> (same: bool)
    ensures
        same == (left@ == right@),
{
    let left_bytes = left.as_bytes();
    let right_bytes = right.as_bytes();
    proof {
        vstd::utf8::encode_utf8_decode_utf8(left@);
        vstd::utf8::encode_utf8_decode_utf8(right@);
    }
    if left_bytes.len() != right_bytes.len() {
        return false;
    }
    let mut at: usize = 0;
    while at < left_bytes.len()
        invariant
            at <= left_bytes@.len(),
            left_bytes@.len() == right_bytes@.len(),
            forall|i: int| 0 <= i < at ==> left_bytes@[i] == right_bytes@[i],
            left_bytes@ == vstd::utf8::encode_utf8(left@),
            right_bytes@ == vstd::utf8::encode_utf8(right@),
        decreases left_bytes@.len() - at,
    {
        if left_bytes[at] != right_bytes[at] {
            return false;
        }
        at = at + 1;
    }
    assert(left_bytes@ == right_bytes@);
    true
}

/// Whether the character is white space.
pub fn is_white_space(character: char) -> (result: bool)
    ensures
        result == white_space(character),
{
    let code: u32 = character as u32;
    (0x9 <= code && code <= 0xd) || code == 0x20 || code == 0x85 || code == 0xa0 || code == 0x1680
        || (0x2000 <= code && code <= 0x200a) || code == 0x2028 || code == 0x2029 || code == 0x202f
        || code == 0x205f || code == 0x3000
}

/// Whether the character is a control character.
pub fn is_control(character: char) -> (result: bool)
    ensures
        result == control(character),
{
    let code: u32 = character as u32;
    code < 0x20 || (0x7f <= code && code < 0xa0)
}

/// The words of a text, in order.
pub fn tokenize(text: &str) -> (tokens: Vec<String>)
    ensures
        texts(tokens@) == words(text@),
{
    let characters = chars_of(text);
    let mut tokens: Vec<String> = Vec::new();
    let mut at: usize = 0;
    assert(texts(tokens@) + words_from(text@, 0) == words(text@));
    while at < characters.len()
        invariant
            characters@ == text@,
            at <= text@.len(),
            texts(tokens@) + words_from(text@, at as int) == words(text@),
        decreases text@.len() - at,
    {
        if is_white_space(characters[at]) {
            at = at + 1;
        } else {
            let start = at;
            while at < characters.len() && !is_white_space(characters[at])
                invariant
                    characters@ == text@,
                    start <= at <= text@.len(),
                    word_end(text@, start as int) == word_end(text@, at as int),
                decreases text@.len() - at,
            {
                at = at + 1;
            }
            let ghost before = tokens@;
            assert(word_end(text@, start as int) == at);
            tokens.push(text_of(&characters, start, at));
            assert(texts(tokens@) == texts(before).push(text@.subrange(start as int, at as int)));
            assert(texts(tokens@) + words_from(text@, at as int) == texts(before) + words_from(
                text@,
                start as int,
            ));
        }
    }
    assert(texts(tokens@) + words_from(text@, at as int) == texts(tokens@));
    tokens
}

/// The parts one after the other, with `separator` between neighbours.
pub fn join(parts: &Vec<String>, separator: &str) -> (whole: String)
    ensures
        whole@ == joined(texts(parts@), separator@),
{
    let mut whole = String::new();
    let mut count: usize = 0;
    while count < parts.len()
        invariant
            count <= parts@.len(),
            whole@ == joined(texts(parts@).take(count as int), separator@),
        decreases parts@.len() - count,
    {
        let ghost done = texts(parts@).take(count as int);
        let ghost next = texts(parts@).take(count + 1);
        assert(next.drop_last() == done);
        if count > 0 {
            whole.append(separator);
        }
        whole.append(parts[count].as_str());
        assert(whole@ == joined(next, separator@));
        count = count + 1;
    }
    assert(texts(parts@).take(count as int) == texts(parts@));
    whole
}

/// Whether `part` stands somewhere in `whole`.
pub fn contains_text(whole: &str, part: &str) -> (found: bool)
    ensures
        found == occurs_in(part@, whole@),
{
    let haystack = chars_of(whole);
    let needle = chars_of(part);
    if needle.len() > haystack.len() {
        return false;
    }
    let last = haystack.len() - needle.len();
    let mut at: usize = 0;
    loop
        invariant
            haystack@ == whole@,
            needle@ == part@,
            last == whole@.len() - part@.len(),
            at <= last,
            forall|i: int| 0 <= i < at ==> !occurs_at(part@, whole@, i),
        decreases last - at,
    {
        if text_at(&haystack, at, &needle) {
            return true;
        }
        if at == last {
            assert forall|i: int| !occurs_at(part@, whole@, i) by {
                if i == at {
                }
            }
            return false;
        }
        at = at + 1;
    }
}

/// Whether `part` stands in `whole` at `at`.
pub fn text_at(whole: &Vec<char>, at: usize, part: &Vec<char>) -> (found: bool)
    requires
        at <= whole@.len(),
    ensures
        found == occurs_at(part@, whole@, at as int),
{
    if part.len() > whole.len() - at {
        return false;
    }
    let mut done: usize = 0;
    while done < part.len()
        invariant
            at + part@.len() <= whole@.len(),
            done <= part@.len(),
            forall|i: int| 0 <= i < done ==> whole@[at + i] == part@[i],
        decreases part@.len() - done,
    {
        assert(at + done < whole.len());
        if whole[at + done] != part[done] {
            assert(whole@.subrange(at as int, at + part@.len())[done as int] != part@[done as int]);
            return false;
        }
        done = done + 1;
    }
    assert(whole@.subrange(at as int, at + part@.len()) == part@);
    true
}

/// What follows `prefix` in `text`, where `text` begins with it.
pub fn strip_prefix(text: &str, prefix: &str) -> (rest: Option<String>)
    ensures
        rest is Some <==> prefix@.is_prefix_of(text@),
        rest matches Some(rest) ==> rest@ == text@.skip(prefix@.len() as int),
{
    let characters = chars_of(text);
    let start = chars_of(prefix);
    if !text_at(&characters, 0, &start) {
        assert(prefix@.is_prefix_of(text@) ==> occurs_at(prefix@, text@, 0));
        return None;
    }
    Some(text_of(&characters, start.len(), characters.len()))
}

/// Whether `text` begins with `prefix`.
pub fn begins_with(text: &str, prefix: &str) -> (result: bool)
    ensures
        result == prefix@.is_prefix_of(text@),
{
    let characters = chars_of(text);
    let start = chars_of(prefix);
    let result = text_at(&characters, 0, &start);
    assert(prefix@.is_prefix_of(text@) ==> occurs_at(prefix@, text@, 0));
    result
}

/// Whether `text` ends with `suffix`.
pub fn finishes_with(text: &str, suffix: &str) -> (result: bool)
    ensures
        result == suffix@.is_suffix_of(text@),
{
    let characters = chars_of(text);
    let end = chars_of(suffix);
    if end.len() > characters.len() {
        return false;
    }
    text_at(&characters, characters.len() - end.len(), &end)
}

/// Whether a text holds nothing but white space.
pub open spec fn blank(text: Seq<char>) -> bool {
    forall|i: int| 0 <= i < text.len() ==> white_space(#[trigger] text[i])
}

/// Whether a text holds nothing but white space.
pub fn is_blank(text: &str) -> (result: bool)
    ensures
        result == blank(text@),
{
    let characters = chars_of(text);
    let mut at: usize = 0;
    while at < characters.len()
        invariant
            characters@ == text@,
            at <= text@.len(),
            forall|i: int| 0 <= i < at ==> white_space(#[trigger] text@[i]),
        decreases text@.len() - at,
    {
        if !is_white_space(characters[at]) {
            return false;
        }
        at = at + 1;
    }
    true
}

/// A result with the characters of its error.
pub open spec fn error_text<T>(result: Result<T, String>) -> Result<T, Seq<char>> {
    match result {
        Ok(value) => Ok(value),
        Err(message) => Err(message@),
    }
}

/// A result with the characters of its text and of its error.
pub open spec fn result_text(result: Result<String, String>) -> Result<Seq<char>, Seq<char>> {
    match result {
        Ok(text) => Ok(text@),
        Err(message) => Err(message@),
    }
}

/// The place of the first line feed at or after `from`, or the end of the text.
pub open spec fn line_end(text: Seq<char>, from: int) -> int
    decreases text.len() - from,
{
    if from < 0 || from >= text.len() || text[from] == '\n' {
        from
    } else {
        line_end(text, from + 1)
    }
}

/// A line that ended in a line feed, without the carriage return before it.
pub open spec fn without_return(line: Seq<char>) -> Seq<char> {
    if line.len() > 0 && line.last() == '\r' {
        line.drop_last()
    } else {
        line
    }
}

/// The lines of `text` from `from` on: what stands between line endings, which are a line feed or
/// a carriage return and a line feed. The last line need not have an ending.
pub open spec fn lines_from(text: Seq<char>, from: int) -> Seq<Seq<char>>
    decreases text.len() - from,
{
    if from < 0 || from >= text.len() {
        Seq::empty()
    } else {
        let end = line_end(text, from);
        if end < from || end >= text.len() {
            seq![text.subrange(from, text.len() as int)]
        } else {
            seq![without_return(text.subrange(from, end))] + lines_from(text, end + 1)
        }
    }
}

/// The lines of a text.
pub open spec fn text_lines(text: Seq<char>) -> Seq<Seq<char>> {
    lines_from(text, 0)
}

/// The lines of a text, in order.
pub fn split_lines(text: &str) -> (lines: Vec<String>)
    ensures
        texts(lines@) == text_lines(text@),
{
    let characters = chars_of(text);
    let mut lines: Vec<String> = Vec::new();
    let mut at: usize = 0;
    assert(texts(lines@) + lines_from(text@, 0) == text_lines(text@));
    while at < characters.len()
        invariant
            characters@ == text@,
            at <= text@.len(),
            texts(lines@) + lines_from(text@, at as int) == text_lines(text@),
        decreases text@.len() - at,
    {
        let start = at;
        while at < characters.len() && characters[at] != '\n'
            invariant
                characters@ == text@,
                start <= at <= text@.len(),
                line_end(text@, start as int) == line_end(text@, at as int),
            decreases text@.len() - at,
        {
            at = at + 1;
        }
        assert(line_end(text@, start as int) == at);
        let mut end = at;
        if at < characters.len() {
            at = at + 1;
            if start < end && characters[end - 1] == '\r' {
                assert(text@.subrange(start as int, end as int).drop_last() == text@.subrange(
                    start as int,
                    end - 1,
                ));
                end = end - 1;
            }
        }
        let ghost before = lines@;
        lines.push(text_of(&characters, start, end));
        assert(texts(lines@) == texts(before).push(text@.subrange(start as int, end as int)));
        assert(texts(lines@) + lines_from(text@, at as int) == texts(before) + lines_from(
            text@,
            start as int,
        ));
    }
    assert(texts(lines@) + lines_from(text@, at as int) == texts(lines@));
    lines
}

/// The decimal digit for a number below ten.
pub open spec fn digit(value: nat) -> char {
    (('0' as u32 + value) as u32) as char
}

/// A number in decimal notation, without leading zeros.
pub open spec fn decimal(number: nat) -> Seq<char>
    decreases number,
{
    if number < 10 {
        seq![digit(number)]
    } else {
        decimal(number / 10).push(digit(number % 10))
    }
}

/// The value of a decimal digit.
pub open spec fn digit_value(character: char) -> Option<nat> {
    if '0' <= character <= '9' {
        Some((character as u32 - '0' as u32) as nat)
    } else {
        None
    }
}

/// The number that a row of decimal digits stands for; nothing for an empty row or another
/// character.
pub open spec fn digits_value(digits: Seq<char>) -> Option<nat>
    decreases digits.len(),
{
    if digits.len() == 0 {
        None
    } else if digits.len() == 1 {
        digit_value(digits[0])
    } else {
        match (digits_value(digits.drop_last()), digit_value(digits.last())) {
            (Some(high), Some(low)) => Some(high * 10 + low),
            _ => None,
        }
    }
}

/// The number that a text stands for, with or without a plus sign before its digits.
pub open spec fn number_value(text: Seq<char>) -> Option<nat> {
    if text.len() > 0 && text[0] == '+' {
        digits_value(text.drop_first())
    } else {
        digits_value(text)
    }
}

/// The number that a text stands for, where it is at most [`usize::MAX`].
pub open spec fn size_value(text: Seq<char>) -> Option<usize> {
    match number_value(text) {
        Some(value) => if value <= usize::MAX {
            Some(value as usize)
        } else {
            None
        },
        None => None,
    }
}

/// A number in decimal notation.
pub fn decimal_text(number: u128) -> (text: String)
    ensures
        text@ == decimal(number as nat),
{
    let mut reversed: Vec<char> = Vec::new();
    let mut rest: u128 = number;
    while rest >= 10
        invariant
            decimal(number as nat) == decimal(rest as nat) + reversed@.reverse(),
        decreases rest,
    {
        let low: u8 = (rest % 10) as u8;
        let character = (48u8 + low) as char;
        let ghost before = reversed@;
        reversed.push(character);
        assert(character == digit((rest % 10) as nat));
        assert(decimal((rest / 10) as nat).push(character) + before.reverse() == decimal(
            (rest / 10) as nat,
        ) + reversed@.reverse());
        rest = rest / 10;
    }
    let mut text = String::new();
    text.push((48u8 + rest as u8) as char);
    assert(text@ == decimal(rest as nat));
    let mut left: usize = reversed.len();
    while left > 0
        invariant
            left <= reversed@.len(),
            text@ == decimal(rest as nat) + reversed@.reverse().take(reversed@.len() - left),
        decreases left,
    {
        left = left - 1;
        text.push(reversed[left]);
        assert(reversed@.reverse().take(reversed@.len() - left) == reversed@.reverse().take(
            reversed@.len() - left - 1,
        ).push(reversed@[left as int]));
    }
    assert(reversed@.reverse().take(reversed@.len() as int) == reversed@.reverse());
    text
}

/// A row with a character that is no digit has no value.
proof fn lemma_digits_value_none(digits: Seq<char>, count: int)
    requires
        0 < count <= digits.len(),
        digits_value(digits.take(count)) is None,
    ensures
        digits_value(digits) is None,
    decreases digits.len(),
{
    if count < digits.len() {
        assert(digits.drop_last().take(count) == digits.take(count));
        lemma_digits_value_none(digits.drop_last(), count);
    } else {
        assert(digits.take(count) == digits);
    }
}

/// A longer row of digits stands for no smaller number.
proof fn lemma_digits_value_grows(digits: Seq<char>, count: int)
    requires
        0 < count <= digits.len(),
        digits_value(digits) is Some,
    ensures
        digits_value(digits.take(count)) is Some,
        digits_value(digits.take(count))->0 <= digits_value(digits)->0,
    decreases digits.len(),
{
    if count < digits.len() {
        assert(digits.drop_last().take(count) == digits.take(count));
        lemma_digits_value_grows(digits.drop_last(), count);
    } else {
        assert(digits.take(count) == digits);
    }
}

/// The number that a text stands for, where it is one that fits.
pub fn parse_size(text: &str) -> (value: Option<usize>)
    ensures
        value == size_value(text@),
{
    let characters = chars_of(text);
    let mut start: usize = 0;
    if characters.len() > 0 && characters[0] == '+' {
        start = 1;
    }
    let ghost digits = text@.skip(start as int);
    assert(digits == if start == 1 { text@.drop_first() } else { text@ });
    if start == characters.len() {
        return None;
    }
    let mut total: usize = 0;
    let mut at: usize = start;
    while at < characters.len()
        invariant
            characters@ == text@,
            start <= at <= text@.len(),
            start < text@.len(),
            digits == text@.skip(start as int),
            number_value(text@) == digits_value(digits),
            at == start ==> total == 0,
            at > start ==> digits_value(digits.take(at - start)) == Some(total as nat),
        decreases text@.len() - at,
    {
        let character = characters[at];
        let ghost next = digits.take(at + 1 - start);
        assert(next.last() == character);
        assert(next.drop_last() == digits.take(at - start));
        if !('0' <= character && character <= '9') {
            proof {
                lemma_digits_value_none(digits, at + 1 - start);
            }
            return None;
        }
        let low: usize = (character as u32 - 48u32) as usize;
        if total > usize::MAX / 10 || total * 10 > usize::MAX - low {
            proof {
                if digits_value(digits) is Some {
                    lemma_digits_value_grows(digits, at + 1 - start);
                }
            }
            return None;
        }
        total = total * 10 + low;
        at = at + 1;
    }
    assert(digits.take(at - start) == digits);
    Some(total)
}

} // verus!
