//! Bytes of lines and texts.

use vstd::prelude::*;
use vstd::utf8::{
    decode_utf8, encode_utf8, encode_utf8_decode_utf8, encode_utf8_valid_utf8, is_char_boundary,
    is_char_boundary_iff_not_is_continuation_byte, is_char_boundary_start_end_of_seq, valid_utf8,
};

use crate::text::{chars_of, text_of};

verus! {

/// The text that [`String::from_utf8_lossy`] makes of bytes that are not UTF-8.
pub uninterp spec fn lossily_decoded(bytes: Seq<u8>) -> Seq<char>;

/// [`String::from_utf8_lossy`]: bytes that are UTF-8 are the text that they encode; in other bytes
/// each part that is not UTF-8 is replaced by U+FFFD.
#[verifier::external_body]
pub(crate) fn lossy_text(bytes: &Vec<u8>) -> (text: String)
    ensures
        valid_utf8(bytes@) ==> text@ == decode_utf8(bytes@),
        !valid_utf8(bytes@) ==> text@ == lossily_decoded(bytes@),
{
    String::from_utf8_lossy(bytes.as_slice()).into_owned()
}

/// The text of bytes: what they encode in UTF-8, or what is made of them where they do not.
pub open spec fn decoded(bytes: Seq<u8>) -> Seq<char> {
    if valid_utf8(bytes) {
        decode_utf8(bytes)
    } else {
        lossily_decoded(bytes)
    }
}

/// The bytes of a text are decoded as that text.
pub proof fn decoding_undoes_encoding(text: Seq<char>)
    ensures
        decoded(encode_utf8(text)) == text,
{
    encode_utf8_valid_utf8(text);
    encode_utf8_decode_utf8(text);
}

/// The bytes of a text in UTF-8.
pub fn bytes_of(text: &str) -> (bytes: Vec<u8>)
    ensures
        bytes@ == encode_utf8(text@),
{
    vstd::slice::slice_to_vec(text.as_bytes())
}

/// The bytes from `start` to `end`.
pub fn bytes_between(bytes: &Vec<u8>, start: usize, end: usize) -> (part: Vec<u8>)
    requires
        start <= end <= bytes@.len(),
    ensures
        part@ == bytes@.subrange(start as int, end as int),
{
    let mut part: Vec<u8> = Vec::new();
    let mut at: usize = start;
    while at < end
        invariant
            start <= at <= end <= bytes@.len(),
            part@ == bytes@.subrange(start as int, at as int),
        decreases end - at,
    {
        part.push(bytes[at]);
        at = at + 1;
        assert(bytes@.subrange(start as int, at as int) == bytes@.subrange(
            start as int,
            at - 1,
        ).push(bytes@[at - 1]));
    }
    part
}

/// A line without its ending: `\r\n`, `\n` or `\r`.
pub open spec fn without_ending(line: Seq<u8>) -> Seq<u8> {
    if line.len() >= 2 && line[line.len() - 2] == 13 && line.last() == 10 {
        line.take(line.len() - 2)
    } else if line.len() >= 1 && (line.last() == 10 || line.last() == 13) {
        line.drop_last()
    } else {
        line
    }
}

/// A line without its ending.
pub fn trim_line_ending_bytes(line: &Vec<u8>) -> (trimmed: Vec<u8>)
    ensures
        trimmed@ == without_ending(line@),
{
    let length: usize = line.len();
    if length >= 2 && line[length - 2] == 13 && line[length - 1] == 10 {
        return bytes_between(line, 0, length - 2);
    }
    if length >= 1 && (line[length - 1] == 10 || line[length - 1] == 13) {
        return bytes_between(line, 0, length - 1);
    }
    bytes_between(line, 0, length)
}

/// A text without the `\r` and `\n` at its end.
pub open spec fn without_line_ends(text: Seq<char>) -> Seq<char>
    decreases text.len(),
{
    if text.len() > 0 && (text.last() == '\r' || text.last() == '\n') {
        without_line_ends(text.drop_last())
    } else {
        text
    }
}

/// A text without the `\r` and `\n` at its end.
pub fn trim_line_ending(text: &str) -> (trimmed: String)
    ensures
        trimmed@ == without_line_ends(text@),
{
    let characters = chars_of(text);
    let mut end: usize = characters.len();
    assert(text@.take(end as int) == text@);
    while end > 0 && (characters[end - 1] == '\r' || characters[end - 1] == '\n')
        invariant
            characters@ == text@,
            end <= text@.len(),
            without_line_ends(text@.take(end as int)) == without_line_ends(text@),
        decreases end,
    {
        assert(text@.take(end as int).drop_last() == text@.take(end - 1));
        end = end - 1;
    }
    assert(end > 0 ==> text@.take(end as int).last() == text@[end - 1]);
    text_of(&characters, 0, end)
}

/// Whether `start` and `end`, counted in bytes, cut a text into whole characters.
pub open spec fn cuts_text(text: Seq<char>, start: int, end: int) -> bool {
    &&& start <= end
    &&& is_char_boundary(encode_utf8(text), start)
    &&& is_char_boundary(encode_utf8(text), end)
}

/// The part of a text from byte `start` to byte `end`.
pub open spec fn text_between(text: Seq<char>, start: int, end: int) -> Seq<char> {
    decode_utf8(encode_utf8(text).subrange(start, end))
}

/// A character boundary lies within the bytes.
proof fn lemma_boundary_within(bytes: Seq<u8>, index: int)
    requires
        valid_utf8(bytes),
        is_char_boundary(bytes, index),
    ensures
        0 <= index <= bytes.len(),
{
}

/// Whether `start` and `end` cut a text into whole characters.
pub fn is_cut(text: &str, start: usize, end: usize) -> (result: bool)
    ensures
        result == cuts_text(text@, start as int, end as int),
{
    start <= end && text.is_char_boundary(start) && text.is_char_boundary(end)
}

/// The part of a text from byte `start` to byte `end`.
pub fn cut_text(text: &str, start: usize, end: usize) -> (part: String)
    requires
        cuts_text(text@, start as int, end as int),
    ensures
        part@ == text_between(text@, start as int, end as int),
{
    let ghost bytes = encode_utf8(text@);
    proof {
        encode_utf8_valid_utf8(text@);
        lemma_boundary_within(bytes, start as int);
        lemma_boundary_within(bytes, end as int);
    }
    let (front, _) = text.split_at(end);
    proof {
        let first = bytes.subrange(0, end as int);
        assert(encode_utf8(front@) == first);
        encode_utf8_valid_utf8(front@);
        if start < end {
            is_char_boundary_iff_not_is_continuation_byte(bytes, start as int);
            is_char_boundary_iff_not_is_continuation_byte(first, start as int);
            assert(first[start as int] == bytes[start as int]);
        } else {
            is_char_boundary_start_end_of_seq(first);
        }
    }
    let (_, part) = front.split_at(start);
    proof {
        let first = bytes.subrange(0, end as int);
        assert(encode_utf8(part@) == first.subrange(start as int, end as int));
        assert(first.subrange(start as int, end as int) == bytes.subrange(
            start as int,
            end as int,
        ));
        encode_utf8_decode_utf8(part@);
    }
    part.to_owned()
}

/// A cut at both ends gives the whole text.
pub proof fn whole_text_is_a_cut(text: Seq<char>)
    ensures
        cuts_text(text, 0, encode_utf8(text).len() as int),
        text_between(text, 0, encode_utf8(text).len() as int) == text,
{
    let bytes = encode_utf8(text);
    encode_utf8_valid_utf8(text);
    is_char_boundary_start_end_of_seq(bytes);
    assert(bytes.subrange(0, bytes.len() as int) == bytes);
    encode_utf8_decode_utf8(text);
}

} // verus!
