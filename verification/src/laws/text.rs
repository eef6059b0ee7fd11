//! Laws on words, lines, numbers and joined texts.

use vstd::prelude::*;

use crate::query::{lemma_word_alone, lemma_words_apart, lemma_words_behind};
use crate::text::{
    blank, control, decimal, digit, digit_value, digits_value, joined, line_end, lines_from, number_value,
    occurs_at, occurs_in, size_value, text_lines, white_space, words, words_from,
};

verus! {

/// Parts that are joined all at once are the same as parts that are joined in two steps; a single
/// part stands alone, and no parts make nothing.
pub proof fn joining_in_two_steps(
    first: Seq<Seq<char>>,
    second: Seq<Seq<char>>,
    separator: Seq<char>,
)
    ensures
        joined(Seq::<Seq<char>>::empty(), separator) == Seq::<char>::empty(),
        first.len() == 1 ==> joined(first, separator) == first[0],
        first.len() > 0 && second.len() > 0 ==> joined(first + second, separator) == joined(
            first,
            separator,
        ) + separator + joined(second, separator),
    decreases second.len(),
{
    if first.len() > 0 && second.len() > 0 {
        let front = second.drop_last();
        assert((first + second).drop_last() == first + front);
        if front.len() == 0 {
            assert(first + front == first);
            assert(joined(first, separator) + (separator + second[0]) == joined(first, separator)
                + separator + second[0]);
        } else {
            joining_in_two_steps(first, front, separator);
            assert(joined(first, separator) + separator + joined(front, separator) + (separator
                + second.last()) == joined(first, separator) + separator + (joined(
                front,
                separator,
            ) + (separator + second.last())));
        }
    }
}

/// A text free of white space is one word; white space parts the words before it from those behind
/// it and belongs to none; nothing else makes or loses words.
pub proof fn white_space_parts_words(before: Seq<char>, space: char, behind: Seq<char>)
    ensures
        words(Seq::<char>::empty()) == Seq::<Seq<char>>::empty(),
        before.len() > 0 && (forall|i: int|
            0 <= i < before.len() ==> !white_space(#[trigger] before[i])) ==> words(before)
            == seq![before],
        white_space(space) ==> words(before.push(space) + behind) == words(before) + words(behind),
{
    if before.len() > 0 && (forall|i: int|
        0 <= i < before.len() ==> !white_space(#[trigger] before[i])) {
        lemma_word_alone(before);
    }
    if white_space(space) {
        let rest = seq![space] + behind;
        lemma_words_apart(before, rest, 0);
        assert(before + rest == before.push(space) + behind);
        assert(rest[0] == space);
        assert(words(rest) == words_from(rest, 1));
        lemma_words_behind(seq![space], behind, 0);
    }
}

/// A text is blank exactly where it has no words.
pub proof fn blank_texts_have_no_words(text: Seq<char>)
    ensures
        blank(text) <==> words(text).len() == 0,
{
    crate::query::lemma_has_word(text, 0);
}

/// White space is the space, the characters from the tab to the carriage return, and beyond ASCII the
/// next line, the spaces of other widths and the separators of lines and paragraphs.
pub proof fn these_characters_are_white_space(character: char)
    ensures
        white_space(character) <==> character == ' ' || '\t' <= character <= '\r' || character
            == '\u{85}' || character == '\u{a0}' || character == '\u{1680}' || '\u{2000}'
            <= character <= '\u{200a}' || character == '\u{2028}' || character == '\u{2029}'
            || character == '\u{202f}' || character == '\u{205f}' || character == '\u{3000}',
        control(character) <==> character < ' ' || '\u{7f}' <= character <= '\u{9f}',
{
}

/// Where the search for a line feed ends.
proof fn lemma_line_end(text: Seq<char>, from: int, end: int)
    requires
        0 <= from <= end <= text.len(),
        forall|i: int| from <= i < end ==> text[i] != '\n',
        end < text.len() ==> text[end] == '\n',
    ensures
        line_end(text, from) == end,
    decreases end - from,
{
    if from < end {
        lemma_line_end(text, from + 1, end);
    }
}

/// The search for a line feed behind another text.
proof fn lemma_line_end_behind(first: Seq<char>, second: Seq<char>, from: int)
    requires
        0 <= from,
    ensures
        line_end(first + second, first.len() + from) == first.len() + line_end(second, from),
        from <= second.len() ==> from <= line_end(second, from) <= second.len(),
    decreases second.len() - from,
{
    if from < second.len() {
        assert((first + second)[first.len() + from] == second[from]);
        if second[from] != '\n' {
            lemma_line_end_behind(first, second, from + 1);
        }
    }
}

/// Lines behind another text.
proof fn lemma_lines_behind(first: Seq<char>, second: Seq<char>, from: int)
    requires
        0 <= from,
    ensures
        lines_from(first + second, first.len() + from) == lines_from(second, from),
    decreases second.len() - from,
{
    if from < second.len() {
        let whole = first + second;
        lemma_line_end_behind(first, second, from);
        let end = line_end(second, from);
        if end >= second.len() {
            assert(whole.subrange(first.len() + from, whole.len() as int) == second.subrange(
                from,
                second.len() as int,
            ));
        } else {
            assert(whole.subrange(first.len() + from, first.len() + end) == second.subrange(
                from,
                end,
            ));
            lemma_lines_behind(first, second, end + 1);
        }
    }
}

/// A line without its carriage return is followed by the lines behind its line feed; a last line
/// without a line feed counts unless it is empty.
pub proof fn line_feeds_part_lines(line: Seq<char>, behind: Seq<char>)
    requires
        forall|i: int| 0 <= i < line.len() ==> line[i] != '\n',
    ensures
        text_lines(Seq::<char>::empty()) == Seq::<Seq<char>>::empty(),
        line.len() > 0 ==> text_lines(line) == seq![line],
        text_lines(line.push('\n') + behind) == seq![line] + text_lines(behind) || line.len() > 0
            && line.last() == '\r',
        text_lines(line.push('\r').push('\n') + behind) == seq![line] + text_lines(behind),
{
    lemma_line_end(line, 0, line.len() as int);
    assert(line.subrange(0, line.len() as int) == line);
    let plain = line.push('\n');
    let whole = plain + behind;
    lemma_line_end(whole, 0, line.len() as int);
    lemma_lines_behind(plain, behind, 0);
    assert(whole.subrange(0, line.len() as int) == line);
    let returned = line.push('\r').push('\n');
    let other = returned + behind;
    lemma_line_end(other, 0, line.len() as int + 1);
    lemma_lines_behind(returned, behind, 0);
    assert(other.subrange(0, line.len() as int + 1) == line.push('\r'));
    assert(line.push('\r').drop_last() == line);
}

/// A number in decimal notation is made of digits, has no needless zero before it, ends in its last
/// digit, and is read back as the number.
pub proof fn numbers_read_back(number: nat)
    ensures
        digits_value(decimal(number)) == Some(number),
        decimal(number).len() > 0,
        forall|i: int|
            0 <= i < decimal(number).len() ==> '0' <= #[trigger] decimal(number)[i] <= '9',
        decimal(number)[0] == '0' ==> number == 0 && decimal(number).len() == 1,
        decimal(number).last() as int == 48 + number % 10,
        decimal(number).len() == 1 <==> number < 10,
        number >= 10 ==> decimal(number).drop_last() == decimal(number / 10),
    decreases number,
{
    assert(digit(number % 10) as int == 48 + number % 10);
    if number >= 10 {
        numbers_read_back(number / 10);
        let front = decimal(number / 10);
        assert(decimal(number).drop_last() == front);
        assert(decimal(number)[0] == front[0]);
        assert(digits_value(decimal(number)) == Some(number / 10 * 10 + number % 10));
    } else {
        assert(digit(number) as int == 48 + number);
    }
}

/// Only digits make a number: one more digit makes it ten times as great and adds its value, a zero
/// or a plus sign before it changes nothing, and any other character spoils it. What is greater than
/// the greatest `usize` is no size.
pub proof fn digits_make_numbers(digits: Seq<char>, character: char)
    ensures
        digits_value(Seq::<char>::empty()) is None,
        digits.len() > 0 && '0' <= character <= '9' && digits_value(digits) is Some
            ==> digits_value(digits.push(character)) == Some(
            (digits_value(digits)->0 * 10 + (character as int - 48)) as nat,
        ),
        digits_value(digits) is Some <==> digits.len() > 0 && forall|i: int|
            0 <= i < digits.len() ==> '0' <= #[trigger] digits[i] <= '9',
        digits_value(seq![character]) == if '0' <= character <= '9' {
            Some((character as int - 48) as nat)
        } else {
            None
        },
        digits.len() > 0 ==> number_value(seq!['+'] + digits) == digits_value(digits),
        digits.len() > 0 && digits[0] != '+' ==> number_value(digits) == digits_value(digits),
        size_value(digits) == match number_value(digits) {
            Some(value) => if value <= usize::MAX {
                Some(value as usize)
            } else {
                None
            },
            None => None,
        },
    decreases digits.len(),
{
    assert((seq!['+'] + digits).drop_first() == digits);
    assert(digits.push(character).drop_last() == digits);
    assert('0' <= character <= '9' ==> digit_value(character) == Some(
        (character as int - 48) as nat,
    ));
    if digits.len() > 1 {
        let front = digits.drop_last();
        digits_make_numbers(front, character);
        assert(digits == front.push(digits.last()));
        if digits_value(digits) is Some {
            assert forall|i: int| 0 <= i < digits.len() implies '0' <= #[trigger] digits[i] <= '9' by {
                if i < front.len() {
                    assert(digits[i] == front[i]);
                }
            }
        }
        if forall|i: int| 0 <= i < digits.len() ==> '0' <= #[trigger] digits[i] <= '9' {
            assert forall|i: int| 0 <= i < front.len() implies '0' <= #[trigger] front[i] <= '9' by {
                assert(front[i] == digits[i]);
            }
            assert('0' <= digits[digits.len() - 1] <= '9');
        }
    }
}

/// A part occurs in a text exactly where the text is something, the part, and something else.
pub proof fn a_part_stands_between(part: Seq<char>, whole: Seq<char>)
    ensures
        occurs_in(part, whole) <==> exists|before: Seq<char>, behind: Seq<char>|
            whole == #[trigger] (before + part + behind),
{
    if occurs_in(part, whole) {
        let at = choose|at: int| occurs_at(part, whole, at);
        let before = whole.take(at);
        let behind = whole.skip(at + part.len());
        assert(whole == before + part + behind);
    }
    if exists|before: Seq<char>, behind: Seq<char>| whole == #[trigger] (before + part + behind) {
        let (before, behind) = choose|before: Seq<char>, behind: Seq<char>|
            whole == #[trigger] (before + part + behind);
        assert(whole.subrange(before.len() as int, (before.len() + part.len()) as int) == part);
        assert(occurs_at(part, whole, before.len() as int));
    }
}

} // verus!
