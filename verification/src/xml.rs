//! The text of XML parts of office documents.

use vstd::prelude::*;
use vstd::utf8::{decode_utf8, encode_utf8, valid_utf8};

use quick_xml::escape::unescape;
use quick_xml::events::Event;
use quick_xml::Reader;

use crate::bytes::bytes_of;
use crate::text::{
    finishes_with, join, joined, result_text, split_lines, text_lines, texts, tokenize, words,
};

verus! {

/// A reader of `quick-xml`.
#[verifier::external_type_specification]
#[verifier::external_body]
#[verifier::reject_recursive_types(R)]
pub struct ExReader<R>(quick_xml::Reader<R>);

/// An event in an XML text. Elements are told by their local names.
#[derive(Debug, Clone)]
pub enum XmlEvent {
    Start(Vec<u8>),
    Empty(Vec<u8>),
    End(Vec<u8>),
    Text(Vec<u8>),
    CData(Vec<u8>),
    Eof,
    Other,
}

/// An event in an XML text, with bytes as sequences.
pub ghost enum XmlEventView {
    Start(Seq<u8>),
    Empty(Seq<u8>),
    End(Seq<u8>),
    Text(Seq<u8>),
    CData(Seq<u8>),
    Eof,
    Other,
}

impl View for XmlEvent {
    type V = XmlEventView;

    open spec fn view(&self) -> XmlEventView {
        match self {
            XmlEvent::Start(name) => XmlEventView::Start(name@),
            XmlEvent::Empty(name) => XmlEventView::Empty(name@),
            XmlEvent::End(name) => XmlEventView::End(name@),
            XmlEvent::Text(bytes) => XmlEventView::Text(bytes@),
            XmlEvent::CData(bytes) => XmlEventView::CData(bytes@),
            XmlEvent::Eof => XmlEventView::Eof,
            XmlEvent::Other => XmlEventView::Other,
        }
    }
}

/// The text that a reader reads.
pub uninterp spec fn reader_text(reader: Reader<&[u8]>) -> Seq<char>;

/// How many events a reader has read.
pub uninterp spec fn events_read(reader: Reader<&[u8]>) -> nat;

/// The event number `index` that `Reader::read_event_into` gives for a text, or the text of its
/// error.
pub uninterp spec fn event_of(text: Seq<char>, index: nat) -> Result<XmlEventView, Seq<char>>;

/// The text of the error that `Decoder::decode` gives for bytes that are not UTF-8.
pub uninterp spec fn decoding_error(bytes: Seq<u8>) -> Seq<char>;

/// What `quick_xml::escape::unescape` makes of a text with `&`, or the text of its error.
pub uninterp spec fn unescaped(text: Seq<char>) -> Result<Seq<char>, Seq<char>>;

/// `Reader::from_str` of `quick-xml`, with text kept as it stands: a reader of the text that has
/// read nothing yet.
#[verifier::external_body]
fn xml_reader(text: &str) -> (reader: Reader<&[u8]>)
    requires
        encode_utf8(text@).len() <= i32::MAX,
    ensures
        reader_text(reader) == text@,
        events_read(reader) == 0,
{
    let mut reader = Reader::from_str(text);
    reader.config_mut().trim_text(false);
    reader
}

/// `Reader::read_event_into` of `quick-xml`: the next event of the text, or an error. Every event
/// but the end takes at least one byte of the text, so that there are no more events than bytes.
/// Within a document type declaration the opening brackets are counted in an `i32`, so the length
/// of the text is bounded.
#[verifier::external_body]
fn next_event(reader: &mut Reader<&[u8]>) -> (result: Result<XmlEvent, String>)
    requires
        encode_utf8(reader_text(*old(reader))).len() <= i32::MAX,
    ensures
        reader_text(*final(reader)) == reader_text(*old(reader)),
        events_read(*final(reader)) == events_read(*old(reader)) + 1,
        match (result, event_of(reader_text(*old(reader)), events_read(*old(reader)))) {
            (Ok(event), Ok(named)) => event@ == named && (event is Eof || events_read(*old(reader))
                < encode_utf8(reader_text(*old(reader))).len()),
            (Err(message), Err(named)) => message@ == named,
            _ => false,
        },
{
    let mut buffer: Vec<u8> = Vec::new();
    let event = match reader.read_event_into(&mut buffer) {
        Ok(event) => event,
        Err(error) => return Err(error.to_string()),
    };
    Ok(match event {
        Event::Start(tag) => XmlEvent::Start(tag.local_name().as_ref().to_vec()),
        Event::Empty(tag) => XmlEvent::Empty(tag.local_name().as_ref().to_vec()),
        Event::End(tag) => XmlEvent::End(tag.local_name().as_ref().to_vec()),
        Event::Text(text) => XmlEvent::Text(text.to_vec()),
        Event::CData(text) => XmlEvent::CData(text.to_vec()),
        Event::Eof => XmlEvent::Eof,
        _ => XmlEvent::Other,
    })
}

/// `Decoder::decode` of `quick-xml`, with the decoder of a reader: the text that bytes encode in
/// UTF-8, and an error where they do not.
#[verifier::external_body]
fn decode_bytes(reader: &Reader<&[u8]>, bytes: &Vec<u8>) -> (result: Result<String, String>)
    ensures
        match result {
            Ok(text) => valid_utf8(bytes@) && text@ == decode_utf8(bytes@),
            Err(message) => !valid_utf8(bytes@) && message@ == decoding_error(bytes@),
        },
{
    match reader.decoder().decode(bytes.as_slice()) {
        Ok(text) => Ok(text.into_owned()),
        Err(error) => Err(error.to_string()),
    }
}

/// `quick_xml::escape::unescape`: the text with each escape replaced by what it stands for. A text
/// without `&` has no escapes and stays as it is.
#[verifier::external_body]
fn unescape_text(text: &str) -> (result: Result<String, String>)
    ensures
        text@.contains('&') ==> result_text(result) == unescaped(text@),
        !text@.contains('&') ==> result is Ok && result->Ok_0@ == text@,
{
    match unescape(text) {
        Ok(plain) => Ok(plain.into_owned()),
        Err(error) => Err(error.to_string()),
    }
}

/// Which kind of document an XML part belongs to.
#[derive(Debug, Clone, Copy, PartialEq, Eq, Structural)]
pub enum XmlTextMode {
    Word,
    Presentation,
}

/// The text with a line break at its end: one is added unless it stands there.
pub open spec fn line_broken(text: Seq<char>) -> Seq<char> {
    if text.len() > 0 && text.last() == '\n' {
        text
    } else {
        text.push('\n')
    }
}

/// Adds a line break at the end of the text, unless one stands there.
pub fn push_line_break(output: &mut String)
    ensures
        final(output)@ == line_broken(old(output)@),
{
    proof {
        reveal_strlit("\n");
    }
    if !finishes_with(output.as_str(), "\n") {
        output.push('\n');
        assert(!(old(output)@.len() > 0 && old(output)@.last() == '\n')) by {
            if old(output)@.len() > 0 && old(output)@.last() == '\n' {
                assert(old(output)@.subrange(
                    old(output)@.len() - 1,
                    old(output)@.len() as int,
                ) == "\n"@);
            }
        }
    } else {
        assert(old(output)@.last() == "\n"@[0]);
    }
}

/// A line with its words put next to one another, with one space between them.
pub open spec fn collapsed(line: Seq<char>) -> Seq<char> {
    joined(words(line), " "@)
}

/// The lines with their words put next to one another; of blank lines one is kept after each that
/// is not.
pub open spec fn cleaned_lines(lines: Seq<Seq<char>>) -> Seq<Seq<char>>
    decreases lines.len(),
{
    if lines.len() == 0 {
        Seq::empty()
    } else {
        let before = cleaned_lines(lines.drop_last());
        let line = collapsed(lines.last());
        if line.len() > 0 {
            before.push(line)
        } else if lines.len() > 1 && collapsed(lines[lines.len() - 2]).len() > 0 {
            before.push(Seq::empty())
        } else {
            before
        }
    }
}

/// An extracted text without needless white space.
pub open spec fn cleaned(text: Seq<char>) -> Seq<char> {
    joined(cleaned_lines(text_lines(text)), "\n"@)
}

/// An extracted text without needless white space: words of a line have one space between them,
/// and there is one blank line where there were several, and none at the beginning.
pub fn clean_extracted_text(text: &str) -> (clean: String)
    ensures
        clean@ == cleaned(text@),
{
    let lines = split_lines(text);
    let ghost all = text_lines(text@);
    let mut kept: Vec<String> = Vec::new();
    let mut previous_blank = true;
    let mut at: usize = 0;
    assert(texts(kept@) == cleaned_lines(all.take(0)));
    while at < lines.len()
        invariant
            all == texts(lines@),
            at <= lines@.len(),
            texts(kept@) == cleaned_lines(all.take(at as int)),
            previous_blank == (at == 0 || collapsed(all[at - 1]).len() == 0),
        decreases lines@.len() - at,
    {
        let line = join(&tokenize(lines[at].as_str()), " ");
        let ghost before = kept@;
        let ghost done = all.take(at + 1);
        proof {
            assert(done.drop_last() == all.take(at as int));
            assert(done.last() == lines@[at as int]@);
            assert(at > 0 ==> done[done.len() - 2] == all[at - 1]);
            assert(line@ == collapsed(all[at as int]));
        }
        if line.as_str().is_empty() {
            if !previous_blank {
                kept.push(String::new());
                assert(texts(kept@) == texts(before).push(Seq::empty()));
            }
            previous_blank = true;
        } else {
            kept.push(line);
            assert(texts(kept@) == texts(before).push(line@));
            previous_blank = false;
        }
        at = at + 1;
    }
    assert(all.take(at as int) == all);
    join(&kept, "\n")
}

/// Whether there is no blank line at the beginning, nor after another blank line.
pub open spec fn no_needless_lines(lines: Seq<Seq<char>>) -> bool {
    &&& lines.len() > 0 ==> lines[0].len() > 0
    &&& forall|i: int|
        0 < i < lines.len() ==> (#[trigger] lines[i]).len() > 0 || lines[i - 1].len() > 0
}

/// Of blank lines, cleaning keeps none at the beginning and one of several, and it leaves the words
/// of each other line.
pub proof fn cleaning_keeps_no_needless_lines(lines: Seq<Seq<char>>)
    ensures
        no_needless_lines(cleaned_lines(lines)),
        cleaned_lines(lines).len() <= lines.len(),
        forall|line: Seq<char>|
            line.len() > 0 && #[trigger] cleaned_lines(lines).contains(line) ==> exists|i: int|
                0 <= i < lines.len() && line == collapsed(#[trigger] lines[i]),
        lines.len() > 0 && collapsed(lines.last()).len() > 0 ==> cleaned_lines(lines).len() > 0
            && cleaned_lines(lines).last() == collapsed(lines.last()),
    decreases lines.len(),
{
    if lines.len() > 0 {
        let front = lines.drop_last();
        cleaning_keeps_no_needless_lines(front);
        let before = cleaned_lines(front);
        let kept = cleaned_lines(lines);
        if lines.len() > 1 {
            assert(front.last() == lines[lines.len() - 2]);
        }
        assert forall|i: int| 0 < i < kept.len() implies (#[trigger] kept[i]).len() > 0 || kept[i
            - 1].len() > 0 by {
            if i < before.len() {
                assert(kept[i] == before[i] && kept[i - 1] == before[i - 1]);
            }
        }
        assert forall|line: Seq<char>|
            line.len() > 0 && #[trigger] kept.contains(line) implies exists|i: int|
            0 <= i < lines.len() && line == collapsed(#[trigger] lines[i]) by {
            let at = kept.index_of(line);
            if at < before.len() {
                assert(before[at] == line);
                assert(before.contains(line));
                let i = choose|i: int|
                    0 <= i < front.len() && line == collapsed(#[trigger] front[i]);
                assert(line == collapsed(lines[i]));
            } else {
                assert(line == collapsed(lines[lines.len() - 1]));
            }
        }
    }
}

/// What has been read of an XML text: the text so far, and whether it stands within an element that
/// holds text.
pub ghost struct XmlState {
    pub output: Seq<char>,
    pub in_text: bool,
}

/// Whether a name is the given one.
pub open spec fn is_name(name: Seq<u8>, wanted: Seq<char>) -> bool {
    name == encode_utf8(wanted)
}

/// What an event adds to the text.
pub open spec fn event_taken(mode: XmlTextMode, state: XmlState, event: XmlEventView) -> Result<
    XmlState,
    Seq<char>,
> {
    match event {
        XmlEventView::Start(name) => Ok(
            XmlState { in_text: state.in_text || is_name(name, "t"@), ..state },
        ),
        XmlEventView::Empty(name) => Ok(
            if mode is Word && is_name(name, "tab"@) {
                XmlState { output: state.output.push('\t'), ..state }
            } else if is_name(name, "br"@) || mode is Word && is_name(name, "cr"@) {
                XmlState { output: line_broken(state.output), ..state }
            } else {
                state
            },
        ),
        XmlEventView::End(name) => Ok(
            if is_name(name, "t"@) {
                XmlState { in_text: false, ..state }
            } else if is_name(name, "p"@) {
                XmlState { output: line_broken(state.output), ..state }
            } else {
                state
            },
        ),
        XmlEventView::Text(bytes) => if state.in_text {
            match decoded_text(bytes) {
                Ok(text) => Ok(XmlState { output: state.output + text, ..state }),
                Err(message) => Err(message),
            }
        } else {
            Ok(state)
        },
        XmlEventView::CData(bytes) => if state.in_text {
            if valid_utf8(bytes) {
                Ok(XmlState { output: state.output + decode_utf8(bytes), ..state })
            } else {
                Err(decoding_error(bytes))
            }
        } else {
            Ok(state)
        },
        XmlEventView::Eof => Ok(state),
        XmlEventView::Other => Ok(state),
    }
}

/// The text of bytes between tags: decoded, and with escapes replaced.
pub open spec fn decoded_text(bytes: Seq<u8>) -> Result<Seq<char>, Seq<char>> {
    if !valid_utf8(bytes) {
        Err(decoding_error(bytes))
    } else if decode_utf8(bytes).contains('&') {
        unescaped(decode_utf8(bytes))
    } else {
        Ok(decode_utf8(bytes))
    }
}

/// The text of an XML part from event `index` on. There are no more events than bytes.
pub open spec fn text_from(xml: Seq<char>, mode: XmlTextMode, index: nat, state: XmlState) -> Result<
    Seq<char>,
    Seq<char>,
>
    decreases encode_utf8(xml).len() + 1 - index,
{
    match event_of(xml, index) {
        Err(message) => Err(message),
        Ok(event) => if event is Eof || index >= encode_utf8(xml).len() {
            Ok(cleaned(state.output))
        } else {
            match event_taken(mode, state, event) {
                Ok(next) => text_from(xml, mode, index + 1, next),
                Err(message) => Err(message),
            }
        },
    }
}

/// What is said of an XML part that is too long to be read.
pub const XML_TOO_LONG: &'static str = "XML part is too long";

/// The text of an XML part: what stands in its text elements, with tabs and line breaks where the
/// document has them, without needless white space. A part of more than [`i32::MAX`] bytes is not
/// read.
pub open spec fn xml_text(xml: Seq<char>, mode: XmlTextMode) -> Result<Seq<char>, Seq<char>> {
    if encode_utf8(xml).len() > i32::MAX {
        Err(XML_TOO_LONG@)
    } else {
        text_from(xml, mode, 0, XmlState { output: Seq::empty(), in_text: false })
    }
}

/// Whether bytes are those of a text.
fn name_is(name: &Vec<u8>, wanted: &str) -> (same: bool)
    ensures
        same == is_name(name@, wanted@),
{
    let bytes = bytes_of(wanted);
    if name.len() != bytes.len() {
        return false;
    }
    let mut at: usize = 0;
    while at < name.len()
        invariant
            bytes@ == encode_utf8(wanted@),
            name@.len() == bytes@.len(),
            at <= name@.len(),
            forall|i: int| 0 <= i < at ==> name@[i] == bytes@[i],
        decreases name@.len() - at,
    {
        if name[at] != bytes[at] {
            return false;
        }
        at = at + 1;
    }
    assert(name@ == bytes@);
    true
}

/// The text of bytes between tags: decoded, and with escapes replaced.
pub fn decode_xml_bytes(reader: &Reader<&[u8]>, bytes: &Vec<u8>) -> (result: Result<String, String>)
    ensures
        result_text(result) == decoded_text(bytes@),
{
    match decode_bytes(reader, bytes) {
        Ok(decoded) => unescape_text(decoded.as_str()),
        Err(message) => Err(message),
    }
}

/// What an event adds to the text.
pub fn take_event(
    reader: &Reader<&[u8]>,
    mode: XmlTextMode,
    event: &XmlEvent,
    output: &mut String,
    in_text: bool,
) -> (result: Result<bool, String>)
    ensures
        match (
            result,
            event_taken(mode, XmlState { output: old(output)@, in_text }, event@),
        ) {
            (Ok(inside), Ok(state)) => inside == state.in_text && final(output)@ == state.output,
            (Err(message), Err(named)) => message@ == named,
            _ => false,
        },
{
    match event {
        XmlEvent::Start(name) => Ok(in_text || name_is(name, "t")),
        XmlEvent::Empty(name) => {
            let word = match mode {
                XmlTextMode::Word => true,
                XmlTextMode::Presentation => false,
            };
            if word && name_is(name, "tab") {
                output.push('\t');
            } else if name_is(name, "br") || word && name_is(name, "cr") {
                push_line_break(output);
            }
            Ok(in_text)
        },
        XmlEvent::End(name) => {
            if name_is(name, "t") {
                return Ok(false);
            }
            if name_is(name, "p") {
                push_line_break(output);
            }
            Ok(in_text)
        },
        XmlEvent::Text(bytes) => {
            if in_text {
                let text = match decode_xml_bytes(reader, bytes) {
                    Ok(text) => text,
                    Err(message) => return Err(message),
                };
                output.append(text.as_str());
            }
            Ok(in_text)
        },
        XmlEvent::CData(bytes) => {
            if in_text {
                let text = match decode_bytes(reader, bytes) {
                    Ok(text) => text,
                    Err(message) => return Err(message),
                };
                output.append(text.as_str());
            }
            Ok(in_text)
        },
        XmlEvent::Eof => Ok(in_text),
        XmlEvent::Other => Ok(in_text),
    }
}

/// The text of an XML part.
pub fn extract_xml_text(xml: &str, mode: XmlTextMode) -> (result: Result<String, String>)
    ensures
        result_text(result) == xml_text(xml@, mode),
{
    if xml.as_bytes().len() > 0x7fff_ffff {
        return Err(XML_TOO_LONG.to_owned());
    }
    let mut reader = xml_reader(xml);
    let mut output = String::new();
    let mut in_text = false;
    loop
        invariant
            encode_utf8(xml@).len() <= i32::MAX,
            reader_text(reader) == xml@,
            events_read(reader) <= encode_utf8(xml@).len(),
            xml_text(xml@, mode) == text_from(
                xml@,
                mode,
                events_read(reader),
                XmlState { output: output@, in_text },
            ),
        decreases encode_utf8(xml@).len() + 1 - events_read(reader),
    {
        let event = match next_event(&mut reader) {
            Ok(event) => event,
            Err(message) => return Err(message),
        };
        if let XmlEvent::Eof = event {
            return Ok(clean_extracted_text(output.as_str()));
        }
        match take_event(&reader, mode, &event, &mut output, in_text) {
            Ok(inside) => {
                in_text = inside;
            },
            Err(message) => return Err(message),
        }
    }
}

} // verus!
