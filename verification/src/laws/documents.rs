//! Laws on the texts of documents and archives.

use vstd::prelude::*;

use super::sheets::lemma_in_joined;
use crate::extract::{
    ascii_lowered, extension_of, file_name_of, holds_document_text, kind_of, last_place,
    member_kind, DocumentKind,
};
use crate::text::{joined, text_lines, words};
use crate::xml::{
    cleaned, cleaned_lines, collapsed, event_of, event_taken, line_broken, text_from,
    xml_text, XmlEventView, XmlState, XmlTextMode,
};
use vstd::utf8::{decode_utf8, encode_utf8, valid_utf8};

verus! {

/// Cleaning keeps every line that has words, in order, with its words one space apart.
pub proof fn cleaning_keeps_every_word(lines: Seq<Seq<char>>)
    ensures
        cleaned_lines(lines).filter(|line: Seq<char>| line.len() > 0) == lines.filter(
            |line: Seq<char>| words(line).len() > 0,
        ).map_values(|line: Seq<char>| joined(words(line), " "@)),
    decreases lines.len(),
{
    reveal(Seq::filter);
    let kept = |line: Seq<char>| line.len() > 0;
    let wordy = |line: Seq<char>| words(line).len() > 0;
    let joint = |line: Seq<char>| joined(words(line), " "@);
    if lines.len() > 0 {
        let front = lines.drop_last();
        cleaning_keeps_every_word(front);
        lemma_words_make_text(lines.last());
        let before = cleaned_lines(front);
        let line = collapsed(lines.last());
        assert(before.push(line).drop_last() == before);
        assert(before.push(Seq::<char>::empty()).drop_last() == before);
        assert(front.filter(wordy).push(lines.last()).map_values(joint) == front.filter(
            wordy,
        ).map_values(joint).push(line));
    } else {
        assert(lines.filter(wordy).map_values(joint) == Seq::<Seq<char>>::empty());
    }
}

/// A line with its words put together is empty exactly where it has no words.
proof fn lemma_words_make_text(line: Seq<char>)
    ensures
        collapsed(line).len() > 0 <==> words(line).len() > 0,
{
    let parts = words(line);
    if parts.len() > 0 {
        crate::query::lemma_words_are_words(line, 0);
        assert(crate::query::is_word(parts[0]));
        lemma_in_joined(parts, " "@, 0);
        let at = choose|at: int| crate::text::occurs_at(parts[0], joined(parts, " "@), at);
        assert(parts[0].len() > 0);
    }
}

/// One more line is added to cleaned lines with its words; a blank line is added as an empty one
/// where the line before it has words, and left out at the beginning and behind another blank line.
pub proof fn lines_are_cleaned_one_by_one(lines: Seq<Seq<char>>, line: Seq<char>)
    ensures
        cleaned_lines(Seq::<Seq<char>>::empty()) == Seq::<Seq<char>>::empty(),
        words(line).len() > 0 ==> cleaned_lines(lines.push(line)) == cleaned_lines(lines).push(
            joined(words(line), " "@),
        ),
        words(line).len() == 0 && lines.len() > 0 && words(lines.last()).len() > 0
            ==> cleaned_lines(lines.push(line)) == cleaned_lines(lines).push(Seq::<char>::empty()),
        words(line).len() == 0 && (lines.len() == 0 || words(lines.last()).len() == 0)
            ==> cleaned_lines(lines.push(line)) == cleaned_lines(lines),
{
    let more = lines.push(line);
    assert(more.drop_last() == lines);
    lemma_words_make_text(line);
    if lines.len() > 0 {
        assert(more[more.len() - 2] == lines.last());
        lemma_words_make_text(lines.last());
    }
}

/// A cleaned text is made of the cleaned lines of the text, with line breaks between them.
pub proof fn texts_are_cleaned_line_by_line(text: Seq<char>)
    ensures
        cleaned(text) == joined(cleaned_lines(text_lines(text)), seq!['\n']),
{
    reveal_strlit("\n");
    assert("\n"@ == seq!['\n']);
}

/// What the events of an XML part do: text counts only within a text element, ends of paragraphs and
/// breaks end the line, and tabs count in Word documents.
pub proof fn events_make_text(mode: XmlTextMode, state: XmlState, name: Seq<u8>, bytes: Seq<u8>)
    ensures
        name == encode_utf8("t"@) ==> event_taken(mode, state, XmlEventView::Start(name)) == Ok::<
            XmlState,
            Seq<char>,
        >(XmlState { output: state.output, in_text: true }),
        name != encode_utf8("t"@) ==> event_taken(mode, state, XmlEventView::Start(name)) == Ok::<
            XmlState,
            Seq<char>,
        >(state),
        name == encode_utf8("t"@) ==> event_taken(mode, state, XmlEventView::End(name)) == Ok::<
            XmlState,
            Seq<char>,
        >(XmlState { output: state.output, in_text: false }),
        name == encode_utf8("p"@) ==> event_taken(mode, state, XmlEventView::End(name)) == Ok::<
            XmlState,
            Seq<char>,
        >(XmlState { output: line_broken(state.output), in_text: state.in_text }),
        name != encode_utf8("t"@) && name != encode_utf8("p"@) ==> event_taken(
            mode,
            state,
            XmlEventView::End(name),
        ) == Ok::<XmlState, Seq<char>>(state),
        name == encode_utf8("tab"@) ==> event_taken(mode, state, XmlEventView::Empty(name))
            == Ok::<XmlState, Seq<char>>(
            XmlState {
                output: if mode is Word {
                    state.output.push('\t')
                } else {
                    state.output
                },
                in_text: state.in_text,
            },
        ),
        name == encode_utf8("br"@) ==> event_taken(mode, state, XmlEventView::Empty(name)) == Ok::<
            XmlState,
            Seq<char>,
        >(XmlState { output: line_broken(state.output), in_text: state.in_text }),
        name == encode_utf8("cr"@) ==> event_taken(mode, state, XmlEventView::Empty(name)) == Ok::<
            XmlState,
            Seq<char>,
        >(
            XmlState {
                output: if mode is Word {
                    line_broken(state.output)
                } else {
                    state.output
                },
                in_text: state.in_text,
            },
        ),
        name != encode_utf8("tab"@) && name != encode_utf8("br"@) && name != encode_utf8("cr"@)
            ==> event_taken(mode, state, XmlEventView::Empty(name)) == Ok::<XmlState, Seq<char>>(
            state,
        ),
        !state.in_text ==> event_taken(mode, state, XmlEventView::Text(bytes)) == Ok::<
            XmlState,
            Seq<char>,
        >(state) && event_taken(mode, state, XmlEventView::CData(bytes)) == Ok::<
            XmlState,
            Seq<char>,
        >(state),
        state.in_text && valid_utf8(bytes) ==> event_taken(mode, state, XmlEventView::CData(bytes))
            == Ok::<XmlState, Seq<char>>(
            XmlState { output: state.output + decode_utf8(bytes), in_text: true },
        ),
        state.in_text && valid_utf8(bytes) && !decode_utf8(bytes).contains('&') ==> event_taken(
            mode,
            state,
            XmlEventView::Text(bytes),
        ) == Ok::<XmlState, Seq<char>>(
            XmlState { output: state.output + decode_utf8(bytes), in_text: true },
        ),
        state.in_text && valid_utf8(bytes) && decode_utf8(bytes).contains('&') ==> event_taken(
            mode,
            state,
            XmlEventView::Text(bytes),
        ) == match crate::xml::unescaped(decode_utf8(bytes)) {
            Ok(text) => Ok(XmlState { output: state.output + text, in_text: true }),
            Err(message) => Err(message),
        },
        state.in_text && !valid_utf8(bytes) ==> event_taken(mode, state, XmlEventView::Text(bytes))
            is Err && event_taken(mode, state, XmlEventView::CData(bytes)) is Err,
        event_taken(mode, state, XmlEventView::Other) == Ok::<XmlState, Seq<char>>(state),
{
    reveal_strlit("t");
    reveal_strlit("p");
    reveal_strlit("tab");
    reveal_strlit("br");
    reveal_strlit("cr");
    crate::bytes::decoding_undoes_encoding("t"@);
    crate::bytes::decoding_undoes_encoding("p"@);
    crate::bytes::decoding_undoes_encoding("tab"@);
    crate::bytes::decoding_undoes_encoding("br"@);
    crate::bytes::decoding_undoes_encoding("cr"@);
    assert("t"@[0] != "p"@[0]);
    assert("tab"@.len() != "br"@.len());
    assert("cr"@[0] != "br"@[0]);
}

/// A line is ended once: a line break is added unless one stands at the end.
pub proof fn lines_are_ended_once(text: Seq<char>)
    ensures
        line_broken(text).last() == '\n',
        text.len() > 0 && text.last() == '\n' ==> line_broken(text) == text,
        text.len() == 0 || text.last() != '\n' ==> line_broken(text) == text + seq!['\n'],
{
}

/// The text of an XML part is made of its events in order: each changes what is at hand, the end of
/// the events gives the cleaned text, and the first error is told.
pub proof fn events_are_taken_in_order(xml: Seq<char>, mode: XmlTextMode, index: nat, state: XmlState)
    ensures
        event_of(xml, index) is Err ==> text_from(xml, mode, index, state) == Err::<
            Seq<char>,
            Seq<char>,
        >(event_of(xml, index)->Err_0),
        event_of(xml, index) == Ok::<XmlEventView, Seq<char>>(XmlEventView::Eof) ==> text_from(
            xml,
            mode,
            index,
            state,
        ) == Ok::<Seq<char>, Seq<char>>(cleaned(state.output)),
        event_of(xml, index) is Ok && !(event_of(xml, index)->Ok_0 is Eof) && index < encode_utf8(
            xml,
        ).len() ==> text_from(xml, mode, index, state) == match event_taken(
            mode,
            state,
            event_of(xml, index)->Ok_0,
        ) {
            Ok(next) => text_from(xml, mode, index + 1, next),
            Err(message) => Err(message),
        },
        encode_utf8(xml).len() <= i32::MAX ==> xml_text(xml, mode) == text_from(
            xml,
            mode,
            0,
            XmlState { output: Seq::empty(), in_text: false },
        ),
        encode_utf8(xml).len() > i32::MAX ==> xml_text(xml, mode) == Err::<Seq<char>, Seq<char>>(
            "XML part is too long"@,
        ),
{
}

/// A text element adds its text to the output, whatever stood before it.
pub proof fn text_elements_add_their_text(
    xml: Seq<char>,
    mode: XmlTextMode,
    index: nat,
    state: XmlState,
    bytes: Seq<u8>,
)
    requires
        index + 3 <= encode_utf8(xml).len(),
        event_of(xml, index) == Ok::<XmlEventView, Seq<char>>(
            XmlEventView::Start(encode_utf8("t"@)),
        ),
        event_of(xml, index + 1) == Ok::<XmlEventView, Seq<char>>(XmlEventView::Text(bytes)),
        event_of(xml, index + 2) == Ok::<XmlEventView, Seq<char>>(
            XmlEventView::End(encode_utf8("t"@)),
        ),
        valid_utf8(bytes),
        !decode_utf8(bytes).contains('&'),
    ensures
        text_from(xml, mode, index, state) == text_from(
            xml,
            mode,
            index + 3,
            XmlState { output: state.output + decode_utf8(bytes), in_text: false },
        ),
{
    reveal_with_fuel(text_from, 4);
}

/// Letters of ASCII are put in lower case, and no other character is changed.
pub proof fn lower_case_changes_letters_alone(text: Seq<char>)
    ensures
        ascii_lowered(text).len() == text.len(),
        forall|i: int|
            0 <= i < text.len() ==> #[trigger] ascii_lowered(text)[i] == if 'A' <= text[i] <= 'Z' {
                (text[i] as int + 32) as char
            } else {
                text[i]
            },
{
}

/// What a file is read as follows from its extension in lower case; files without one are searched
/// as they stand, and so are those with any other extension. Lock files are told by their names.
pub proof fn kinds_follow_from_extensions(name: Seq<char>, extension: Seq<char>)
    ensures
        kind_of(Some(name), None) == DocumentKind::Plain,
        name.len() >= 2 && name[0] == '~' && name[1] == '$' <==> kind_of(
            Some(name),
            Some(extension),
        ) == DocumentKind::LockFile,
        !(name.len() >= 2 && name[0] == '~' && name[1] == '$') ==> kind_of(
            Some(name),
            Some(extension),
        ) == if ascii_lowered(extension) == "docx"@ {
            DocumentKind::Docx
        } else if ascii_lowered(extension) == "pdf"@ {
            DocumentKind::Pdf
        } else if ascii_lowered(extension) == "pptx"@ {
            DocumentKind::Pptx
        } else if ascii_lowered(extension) == "xlsx"@ {
            DocumentKind::Xlsx
        } else if ascii_lowered(extension) == "zip"@ {
            DocumentKind::Zip
        } else if ascii_lowered(extension) == "tar"@ {
            DocumentKind::Tar
        } else if ascii_lowered(extension) == "tgz"@ {
            DocumentKind::TarGz
        } else if ascii_lowered(extension) == "gz"@ && name.len() >= 7 && ascii_lowered(name).skip(
            name.len() - 7,
        ) == ".tar.gz"@ {
            DocumentKind::TarGz
        } else {
            DocumentKind::Plain
        },
        kind_of(Some(name), Some(ascii_lowered(extension))) == kind_of(
            Some(name),
            Some(extension),
        ),
{
    reveal_strlit("~$");
    reveal_strlit(".tar.gz");
    let prefix = "~$"@;
    if name.len() >= 2 && name[0] == '~' && name[1] == '$' {
        assert(name.subrange(0, 2) == prefix);
    }
    if prefix.is_prefix_of(name) {
        assert(name.subrange(0, 2)[0] == prefix[0]);
        assert(name.subrange(0, 2)[1] == prefix[1]);
    }
    let lower = ascii_lowered(name);
    if lower.len() >= 7 {
        assert(lower.skip(lower.len() - 7) == lower.subrange(
            lower.len() - 7,
            lower.len() as int,
        ));
    }
    assert(ascii_lowered(ascii_lowered(extension)) == ascii_lowered(extension));
}

/// The place of the last character of a kind.
proof fn lemma_last_place(text: Seq<char>, character: char)
    ensures
        -1 <= last_place(text, character) < text.len(),
        last_place(text, character) >= 0 ==> text[last_place(text, character)] == character,
        forall|i: int|
            last_place(text, character) < i < text.len() ==> text[i] != character,
    decreases text.len(),
{
    if text.len() > 0 && text.last() != character {
        let front = text.drop_last();
        lemma_last_place(front, character);
        assert forall|i: int| last_place(text, character) < i < text.len() implies text[i]
            != character by {
            if i < front.len() {
                assert(front[i] == text[i]);
            }
        }
    }
}

/// The name of a member is what stands behind the last slash of its path, and its extension what
/// stands behind the last dot of its name, unless the name begins with that dot.
pub proof fn members_are_named_by_their_paths(
    directory: Seq<char>,
    name: Seq<char>,
    stem: Seq<char>,
    extension: Seq<char>,
)
    requires
        forall|i: int| 0 <= i < name.len() ==> name[i] != '/',
        forall|i: int| 0 <= i < extension.len() ==> extension[i] != '.',
        stem.len() > 0,
    ensures
        file_name_of(name) == name,
        file_name_of(directory.push('/') + name) == name,
        extension_of(extension) is None,
        extension_of(seq!['.'] + extension) is None,
        stem.push('.') + extension != ".."@ ==> extension_of(stem.push('.') + extension) == Some(
            extension,
        ),
        member_kind(directory.push('/') + name) == kind_of(Some(name), extension_of(name)),
{
    lemma_last_place(name, '/');
    assert(name.skip(0) == name);
    let path = directory.push('/') + name;
    lemma_last_place(path, '/');
    let slash = directory.len() as int;
    assert(path[slash] == '/');
    assert(last_place(path, '/') == slash) by {
        let place = last_place(path, '/');
        if place > slash {
            assert(path[place] == name[place - slash - 1]);
        }
    }
    assert(path.skip(slash + 1) == name);
    lemma_last_place(extension, '.');
    let hidden = seq!['.'] + extension;
    lemma_last_place(hidden, '.');
    if last_place(hidden, '.') > 0 {
        assert(hidden[last_place(hidden, '.')] == extension[last_place(hidden, '.') - 1]);
    }
    let whole = stem.push('.') + extension;
    lemma_last_place(whole, '.');
    let dot = stem.len() as int;
    assert(whole[dot] == '.');
    assert(last_place(whole, '.') == dot) by {
        let place = last_place(whole, '.');
        if place > dot {
            assert(whole[place] == extension[place - dot - 1]);
        }
    }
    assert(whole.skip(dot + 1) == extension);
}

/// An entry with a prefix and a suffix that do not overlap.
proof fn lemma_named(name: Seq<char>, prefix: Seq<char>, suffix: Seq<char>)
    ensures
        (prefix.is_prefix_of(name) && suffix.is_suffix_of(name) && prefix.len() + suffix.len()
            <= name.len()) <==> exists|middle: Seq<char>|
            name == #[trigger] (prefix + middle + suffix),
{
    if prefix.is_prefix_of(name) && suffix.is_suffix_of(name) && prefix.len() + suffix.len()
        <= name.len() {
        let middle = name.subrange(prefix.len() as int, name.len() - suffix.len());
        assert(name == prefix + middle + suffix) by {
            assert forall|i: int| 0 <= i < name.len() implies name[i] == (prefix + middle
                + suffix)[i] by {
                if i < prefix.len() {
                    assert(name.subrange(0, prefix.len() as int)[i] == name[i]);
                } else if i >= name.len() - suffix.len() {
                    assert(name.subrange(name.len() - suffix.len(), name.len() as int)[i - (
                    name.len() - suffix.len())] == name[i]);
                }
            }
        }
    }
    if exists|middle: Seq<char>| name == #[trigger] (prefix + middle + suffix) {
        let middle = choose|middle: Seq<char>| name == #[trigger] (prefix + middle + suffix);
        assert(name.subrange(0, prefix.len() as int) == prefix);
        assert(name.subrange(name.len() - suffix.len(), name.len() as int) == suffix);
    }
}

/// A prefix and the end of an XML entry do not overlap.
proof fn lemma_no_overlap(name: Seq<char>, prefix: Seq<char>)
    requires
        prefix.is_prefix_of(name),
        ".xml"@.is_suffix_of(name),
        forall|i: int| 0 <= i < prefix.len() ==> prefix[i] != '.',
    ensures
        prefix.len() + ".xml"@.len() <= name.len(),
{
    reveal_strlit(".xml");
    let suffix = ".xml"@;
    let dot = name.len() - 4;
    assert(name.subrange(dot, name.len() as int)[0] == suffix[0]);
    if prefix.len() > dot {
        assert(name.subrange(0, prefix.len() as int)[dot] == prefix[dot]);
    }
}

/// Word documents have their text in the document itself and in headers, footers, notes and
/// comments; presentations have it in their slides and in the notes to them.
pub proof fn texts_stand_in_named_entries(name: Seq<char>)
    ensures
        holds_document_text(XmlTextMode::Word, name) <==> name == "word/document.xml"@ || (exists|
            middle: Seq<char>,
        |
            name == #[trigger] ("word/header"@ + middle + ".xml"@)) || (exists|middle: Seq<char>|
            name == #[trigger] ("word/footer"@ + middle + ".xml"@)) || (exists|middle: Seq<char>|
            name == #[trigger] ("word/footnotes"@ + middle + ".xml"@)) || (exists|middle: Seq<char>|
            name == #[trigger] ("word/endnotes"@ + middle + ".xml"@)) || (exists|middle: Seq<char>|
            name == #[trigger] ("word/comments"@ + middle + ".xml"@)),
        holds_document_text(XmlTextMode::Presentation, name) <==> (exists|middle: Seq<char>|
            name == #[trigger] ("ppt/slides/slide"@ + middle + ".xml"@)) || (exists|
            middle: Seq<char>,
        |
            name == #[trigger] ("ppt/notesSlides/notesSlide"@ + middle + ".xml"@)),
{
    reveal_strlit("word/header");
    reveal_strlit("word/footer");
    reveal_strlit("word/footnotes");
    reveal_strlit("word/endnotes");
    reveal_strlit("word/comments");
    reveal_strlit("ppt/slides/slide");
    reveal_strlit("ppt/notesSlides/notesSlide");
    lemma_named(name, "word/header"@, ".xml"@);
    lemma_named(name, "word/footer"@, ".xml"@);
    lemma_named(name, "word/footnotes"@, ".xml"@);
    lemma_named(name, "word/endnotes"@, ".xml"@);
    lemma_named(name, "word/comments"@, ".xml"@);
    lemma_named(name, "ppt/slides/slide"@, ".xml"@);
    lemma_named(name, "ppt/notesSlides/notesSlide"@, ".xml"@);
    if ".xml"@.is_suffix_of(name) {
        if "word/header"@.is_prefix_of(name) {
            lemma_no_overlap(name, "word/header"@);
        }
        if "word/footer"@.is_prefix_of(name) {
            lemma_no_overlap(name, "word/footer"@);
        }
        if "word/footnotes"@.is_prefix_of(name) {
            lemma_no_overlap(name, "word/footnotes"@);
        }
        if "word/endnotes"@.is_prefix_of(name) {
            lemma_no_overlap(name, "word/endnotes"@);
        }
        if "word/comments"@.is_prefix_of(name) {
            lemma_no_overlap(name, "word/comments"@);
        }
        if "ppt/slides/slide"@.is_prefix_of(name) {
            lemma_no_overlap(name, "ppt/slides/slide"@);
        }
        if "ppt/notesSlides/notesSlide"@.is_prefix_of(name) {
            lemma_no_overlap(name, "ppt/notesSlides/notesSlide"@);
        }
    }
}

} // verus!
