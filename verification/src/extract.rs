//! Searchable text of documents and archives.

use vstd::prelude::*;
use vstd::utf8::{decode_utf8, valid_utf8};

use crate::bytes::{bytes_between, decoded, lossy_text};
use crate::containers::{
    bytes_view, does_tar_overflow, gunzip, gunzipped, open_zip, tar_data, tar_entry,
    tar_entry_data, tar_member, tar_overflows, utf8_text, zip_content, zip_data, zip_entries,
    zip_entry_data, zip_entry_name, zip_error, zip_len, zip_name,
};
use crate::query::lowered;
use crate::reading::{
    document_views, find_reading, read_text, reading_of, Document, ReadDocument,
};
use crate::text::{
    begins_with, chars_of, finishes_with, join, joined, result_text, same_text,
    text_of, texts,
};
use crate::xml::{extract_xml_text, xml_text, XmlTextMode};

verus! {

/// How deep archives within archives are read.
pub const MAX_ARCHIVE_DEPTH: u32 = 4;

/// What a file is read as.
#[derive(Debug, Clone, Copy, PartialEq, Eq, Structural)]
pub enum DocumentKind {
    /// A file that an office program keeps while a document is open.
    LockFile,
    Docx,
    Pdf,
    Pptx,
    Xlsx,
    Zip,
    Tar,
    TarGz,
    /// A file that is searched as it stands.
    Plain,
}

/// A text with its ASCII letters in lower case.
pub open spec fn ascii_lowered(text: Seq<char>) -> Seq<char> {
    Seq::new(text.len(), |i: int| lowered(text[i]))
}

/// A text with its ASCII letters in lower case.
pub fn ascii_lower(text: &str) -> (lower: String)
    ensures
        lower@ == ascii_lowered(text@),
{
    let characters = chars_of(text);
    let mut lower = String::new();
    let mut at: usize = 0;
    while at < characters.len()
        invariant
            characters@ == text@,
            at <= text@.len(),
            lower@ == ascii_lowered(text@.take(at as int)),
        decreases text@.len() - at,
    {
        let character = characters[at];
        if 'A' <= character && character <= 'Z' {
            lower.push((character as u8 + 32u8) as char);
        } else {
            lower.push(character);
        }
        at = at + 1;
        assert(ascii_lowered(text@.take(at as int)) == ascii_lowered(text@.take(at - 1)).push(
            lowered(text@[at - 1]),
        ));
    }
    assert(text@.take(at as int) == text@);
    lower
}

/// Whether a file name is that of a lock file of an office program.
pub open spec fn lock_file(file_name: Option<Seq<char>>) -> bool {
    file_name is Some && "~$"@.is_prefix_of(file_name->0)
}

/// A name as a sequence of characters.
pub open spec fn name_view(name: Option<&str>) -> Option<Seq<char>> {
    match name {
        Some(name) => Some(name@),
        None => None,
    }
}

/// Whether a file name is that of a lock file of an office program.
pub fn is_office_lockfile(file_name: Option<&str>) -> (result: bool)
    ensures
        result == lock_file(name_view(file_name)),
{
    match file_name {
        Some(name) => begins_with(name, "~$"),
        None => false,
    }
}

/// Whether a file name ends as that of a compressed tar archive does.
pub open spec fn tar_gz_name(file_name: Option<Seq<char>>) -> bool {
    file_name is Some && ".tar.gz"@.is_suffix_of(ascii_lowered(file_name->0))
}

/// What a file with the given name and extension is read as.
pub open spec fn kind_of(file_name: Option<Seq<char>>, extension: Option<Seq<char>>) -> DocumentKind {
    match extension {
        None => DocumentKind::Plain,
        Some(extension) => {
            let lower = ascii_lowered(extension);
            if lock_file(file_name) {
                DocumentKind::LockFile
            } else if lower == "docx"@ {
                DocumentKind::Docx
            } else if lower == "pdf"@ {
                DocumentKind::Pdf
            } else if lower == "pptx"@ {
                DocumentKind::Pptx
            } else if lower == "xlsx"@ {
                DocumentKind::Xlsx
            } else if lower == "zip"@ {
                DocumentKind::Zip
            } else if lower == "tar"@ {
                DocumentKind::Tar
            } else if lower == "tgz"@ || lower == "gz"@ && tar_gz_name(file_name) {
                DocumentKind::TarGz
            } else {
                DocumentKind::Plain
            }
        },
    }
}

/// Whether a file name ends as that of a compressed tar archive does.
fn is_tar_gz_name(file_name: Option<&str>) -> (result: bool)
    ensures
        result == tar_gz_name(name_view(file_name)),
{
    match file_name {
        Some(name) => {
            let lower = ascii_lower(name);
            finishes_with(lower.as_str(), ".tar.gz")
        },
        None => false,
    }
}

/// What a file with the given name and extension is read as.
pub fn document_kind(file_name: Option<&str>, extension: Option<&str>) -> (kind: DocumentKind)
    ensures
        kind == kind_of(name_view(file_name), name_view(extension)),
{
    let lower = match extension {
        Some(extension) => ascii_lower(extension),
        None => return DocumentKind::Plain,
    };
    let lower = lower.as_str();
    if is_office_lockfile(file_name) {
        DocumentKind::LockFile
    } else if same_text(lower, "docx") {
        DocumentKind::Docx
    } else if same_text(lower, "pdf") {
        DocumentKind::Pdf
    } else if same_text(lower, "pptx") {
        DocumentKind::Pptx
    } else if same_text(lower, "xlsx") {
        DocumentKind::Xlsx
    } else if same_text(lower, "zip") {
        DocumentKind::Zip
    } else if same_text(lower, "tar") {
        DocumentKind::Tar
    } else if same_text(lower, "tgz") || same_text(lower, "gz") && is_tar_gz_name(file_name) {
        DocumentKind::TarGz
    } else {
        DocumentKind::Plain
    }
}

/// The place of the last `character` in a text; the place before its beginning where there is none.
pub open spec fn last_place(text: Seq<char>, character: char) -> int
    decreases text.len(),
{
    if text.len() == 0 {
        -1
    } else if text.last() == character {
        text.len() - 1
    } else {
        last_place(text.drop_last(), character)
    }
}

/// The last part of a path: what stands behind the last slash.
pub open spec fn file_name_of(path: Seq<char>) -> Seq<char> {
    path.skip(last_place(path, '/') + 1)
}

/// The extension of a file name: what stands behind its last dot, unless that is its first
/// character.
pub open spec fn extension_of(file_name: Seq<char>) -> Option<Seq<char>> {
    let dot = last_place(file_name, '.');
    if dot > 0 && file_name != ".."@ {
        Some(file_name.skip(dot + 1))
    } else {
        None
    }
}

/// The place of a character lies within the text.
proof fn lemma_last_place(text: Seq<char>, character: char)
    ensures
        -1 <= last_place(text, character) < text.len(),
    decreases text.len(),
{
    if text.len() > 0 {
        lemma_last_place(text.drop_last(), character);
    }
}

/// The number of characters up to and including the last `character`.
fn behind_last(characters: &Vec<char>, character: char) -> (place: usize)
    ensures
        place == last_place(characters@, character) + 1,
        place <= characters@.len(),
{
    let mut end: usize = characters.len();
    assert(characters@.take(end as int) == characters@);
    while end > 0 && characters[end - 1] != character
        invariant
            end <= characters@.len(),
            last_place(characters@, character) == last_place(
                characters@.take(end as int),
                character,
            ),
        decreases end,
    {
        assert(characters@.take(end as int).drop_last() == characters@.take(end - 1));
        end = end - 1;
    }
    assert(end > 0 ==> characters@.take(end as int).last() == characters@[end - 1]);
    end
}

/// What a member of an archive is read as, by its path.
pub open spec fn member_kind(path: Seq<char>) -> DocumentKind {
    let name = file_name_of(path);
    kind_of(Some(name), extension_of(name))
}

/// What a member of an archive is read as, by its path.
pub fn archive_member_kind(path: &str) -> (kind: DocumentKind)
    ensures
        kind == member_kind(path@),
{
    let characters = chars_of(path);
    let slash = behind_last(&characters, '/');
    let name = text_of(&characters, slash, characters.len());
    assert(name@ == file_name_of(path@));
    let letters = chars_of(name.as_str());
    let dot = behind_last(&letters, '.');
    if dot > 1 && !same_text(name.as_str(), "..") {
        let extension = text_of(&letters, dot, letters.len());
        assert(extension@ == name@.skip(dot as int));
        document_kind(Some(name.as_str()), Some(extension.as_str()))
    } else {
        document_kind(Some(name.as_str()), None)
    }
}

/// Whether an entry of an office document holds text.
pub open spec fn holds_document_text(mode: XmlTextMode, name: Seq<char>) -> bool {
    match mode {
        XmlTextMode::Word => name == "word/document.xml"@ || ".xml"@.is_suffix_of(name) && (
        "word/header"@.is_prefix_of(name) || "word/footer"@.is_prefix_of(name)
            || "word/footnotes"@.is_prefix_of(name) || "word/endnotes"@.is_prefix_of(name)
            || "word/comments"@.is_prefix_of(name)),
        XmlTextMode::Presentation => ".xml"@.is_suffix_of(name) && (
        "ppt/slides/slide"@.is_prefix_of(name) || "ppt/notesSlides/notesSlide"@.is_prefix_of(
            name,
        )),
    }
}

/// Whether an entry of an office document holds text.
pub fn is_document_text(mode: XmlTextMode, name: &str) -> (result: bool)
    ensures
        result == holds_document_text(mode, name@),
{
    match mode {
        XmlTextMode::Word => same_text(name, "word/document.xml") || finishes_with(name, ".xml")
            && (begins_with(name, "word/header") || begins_with(name, "word/footer")
            || begins_with(name, "word/footnotes") || begins_with(name, "word/endnotes")
            || begins_with(name, "word/comments")),
        XmlTextMode::Presentation => finishes_with(name, ".xml") && (begins_with(
            name,
            "ppt/slides/slide",
        ) || begins_with(name, "ppt/notesSlides/notesSlide")),
    }
}

/// What is said of an entry of an office document that is not UTF-8.
pub const NOT_UTF8: &'static str = "stream did not contain valid UTF-8";

/// The text of an entry of an office document.
pub open spec fn entry_text(mode: XmlTextMode, data: Result<Seq<u8>, Seq<char>>) -> Result<
    Seq<char>,
    Seq<char>,
> {
    match data {
        Ok(bytes) => if valid_utf8(bytes) {
            xml_text(decode_utf8(bytes), mode)
        } else {
            Err(NOT_UTF8@)
        },
        Err(message) => Err(message),
    }
}

/// Parts at hand with further parts behind them, unless these could not be had.
pub open spec fn with_more(
    parts: Seq<Seq<char>>,
    more: Result<Seq<Seq<char>>, Seq<char>>,
) -> Result<Seq<Seq<char>>, Seq<char>> {
    match more {
        Ok(more) => Ok(parts + more),
        Err(message) => Err(message),
    }
}

/// A part, unless it is empty.
pub open spec fn unless_empty(part: Seq<char>) -> Seq<Seq<char>> {
    if part.len() == 0 {
        Seq::empty()
    } else {
        seq![part]
    }
}

/// The texts of an office document from entry `index` on, without those that are empty.
pub open spec fn document_parts(content: Seq<u8>, mode: XmlTextMode, index: nat) -> Result<
    Seq<Seq<char>>,
    Seq<char>,
>
    decreases zip_len(content) - index,
{
    if index >= zip_len(content) {
        Ok(Seq::empty())
    } else {
        match zip_name(content, index) {
            Err(message) => Err(message),
            Ok(name) => if !holds_document_text(mode, name) {
                document_parts(content, mode, index + 1)
            } else {
                match entry_text(mode, zip_data(content, index)) {
                    Err(message) => Err(message),
                    Ok(text) => with_more(
                        unless_empty(text),
                        document_parts(content, mode, index + 1),
                    ),
                }
            },
        }
    }
}

/// Parts with line breaks between them, unless they could not be had.
pub open spec fn lines_of(parts: Result<Seq<Seq<char>>, Seq<char>>) -> Result<Seq<char>, Seq<char>> {
    match parts {
        Ok(parts) => Ok(joined(parts, "\n"@)),
        Err(message) => Err(message),
    }
}

/// The text of an office document: the texts of its entries, with line breaks between them.
pub open spec fn document_text(content: Seq<u8>, mode: XmlTextMode) -> Result<
    Seq<char>,
    Seq<char>,
> {
    match zip_error(content) {
        Some(message) => Err(message),
        None => lines_of(document_parts(content, mode, 0)),
    }
}

/// Parts behind parts behind parts are the same however they are put together.
proof fn lemma_with_more(
    first: Seq<Seq<char>>,
    second: Seq<Seq<char>>,
    more: Result<Seq<Seq<char>>, Seq<char>>,
)
    ensures
        with_more(first, with_more(second, more)) == with_more(first + second, more),
{
    if let Ok(rest) = more {
        assert(first + (second + rest) == (first + second) + rest);
    }
}

/// The text of an entry of an office document.
pub fn extract_entry_text(mode: XmlTextMode, data: Result<Vec<u8>, String>) -> (result: Result<
    String,
    String,
>)
    ensures
        result_text(result) == entry_text(mode, bytes_view(data)),
{
    match data {
        Ok(bytes) => match utf8_text(bytes) {
            Some(xml) => extract_xml_text(xml.as_str(), mode),
            None => Err(NOT_UTF8.to_owned()),
        },
        Err(message) => Err(message),
    }
}

/// The text of an office document.
pub fn extract_zip_xml_text(content: Vec<u8>, mode: XmlTextMode) -> (result: Result<String, String>)
    ensures
        result_text(result) == document_text(content@, mode),
{
    let ghost bytes = content@;
    let mut archive = match open_zip(content) {
        Ok(archive) => archive,
        Err(message) => return Err(message),
    };
    let count = zip_entries(&archive);
    let mut parts: Vec<String> = Vec::new();
    let mut index: usize = 0;
    assert(texts(parts@) == Seq::<Seq<char>>::empty());
    assert(document_parts(bytes, mode, 0) == with_more(
        texts(parts@),
        document_parts(bytes, mode, 0),
    )) by {
        if let Ok(all) = document_parts(bytes, mode, 0) {
            assert(Seq::<Seq<char>>::empty() + all == all);
        }
    }
    while index < count
        invariant
            bytes == content@,
            zip_content(archive) == bytes,
            count == zip_len(bytes),
            zip_error(bytes) is None,
            index <= count,
            document_parts(bytes, mode, 0) == with_more(
                texts(parts@),
                document_parts(bytes, mode, index as nat),
            ),
        decreases count - index,
    {
        let name = match zip_entry_name(&mut archive, index) {
            Ok(name) => name,
            Err(message) => return Err(message),
        };
        if is_document_text(mode, name.as_str()) {
            let data = zip_entry_data(&mut archive, index);
            let text = match extract_entry_text(mode, data) {
                Ok(text) => text,
                Err(message) => return Err(message),
            };
            proof {
                lemma_with_more(
                    texts(parts@),
                    unless_empty(text@),
                    document_parts(bytes, mode, (index + 1) as nat),
                );
            }
            let ghost before = parts@;
            if !text.as_str().is_empty() {
                parts.push(text);
                assert(texts(parts@) == texts(before) + seq![text@]);
            } else {
                assert(texts(parts@) == texts(before) + Seq::<Seq<char>>::empty());
            }
        }
        index = index + 1;
    }
    assert(texts(parts@) + Seq::<Seq<char>>::empty() == texts(parts@));
    Ok(join(&parts, "\n"))
}

/// The text of a Word document.
pub fn extract_docx(content: Vec<u8>) -> (result: Result<String, String>)
    ensures
        result_text(result) == document_text(content@, XmlTextMode::Word),
{
    extract_zip_xml_text(content, XmlTextMode::Word)
}

/// The text of a presentation.
pub fn extract_pptx(content: Vec<u8>) -> (result: Result<String, String>)
    ensures
        result_text(result) == document_text(content@, XmlTextMode::Presentation),
{
    extract_zip_xml_text(content, XmlTextMode::Presentation)
}

/// Whether bytes are no text: a NUL byte is among them.
pub open spec fn binary(content: Seq<u8>) -> bool {
    content.contains(0u8)
}

/// Whether bytes are no text.
fn is_binary(content: &Vec<u8>) -> (result: bool)
    ensures
        result == binary(content@),
{
    let mut at: usize = 0;
    while at < content.len()
        invariant
            at <= content@.len(),
            forall|i: int| 0 <= i < at ==> content@[i] != 0,
        decreases content@.len() - at,
    {
        if content[at] == 0 {
            assert(content@[at as int] == 0);
            return true;
        }
        at = at + 1;
    }
    false
}

/// The lines for a member of an archive: its path and its text; none where there is no text.
pub open spec fn member_part(path: Seq<char>, text: Seq<char>) -> Seq<Seq<char>> {
    if text.len() == 0 {
        Seq::empty()
    } else {
        seq!["Archive entry: "@ + path + "\n"@ + text]
    }
}

/// The text of a member of an archive: that of a document or of an archive in it, or the bytes as
/// text, unless they are none.
pub open spec fn member_text(
    path: Seq<char>,
    content: Seq<u8>,
    depth: nat,
    read: Seq<ReadDocument>,
) -> Result<Seq<char>, Seq<char>>
    decreases depth, 1int, 1int,
{
    match searchable_text(member_kind(path), content, depth, read) {
        Err(message) => Err(message),
        Ok(Some(text)) => Ok(text),
        Ok(None) => Ok(
            if binary(content) {
                Seq::empty()
            } else {
                decoded(content)
            },
        ),
    }
}

/// The texts of the members of a zip archive from `index` on. Directories have none.
pub open spec fn zip_parts(
    content: Seq<u8>,
    depth: nat,
    index: nat,
    read: Seq<ReadDocument>,
) -> Result<Seq<Seq<char>>, Seq<char>>
    decreases depth, 2int, zip_len(content) - index,
{
    if index >= zip_len(content) {
        Ok(Seq::empty())
    } else {
        match zip_name(content, index) {
            Err(message) => Err(message),
            Ok(path) => if "/"@.is_suffix_of(path) {
                zip_parts(content, depth, index + 1, read)
            } else {
                match zip_data(content, index) {
                    Err(message) => Err(message),
                    Ok(data) => match member_text(path, data, depth, read) {
                        Err(message) => Err(message),
                        Ok(text) => with_more(
                            member_part(path, text),
                            zip_parts(content, depth, index + 1, read),
                        ),
                    },
                }
            },
        }
    }
}

/// The texts of the members of a tar archive from `index` on. What is no regular file has none.
/// There are no more members than bytes.
pub open spec fn tar_parts(
    content: Seq<u8>,
    depth: nat,
    index: nat,
    read: Seq<ReadDocument>,
) -> Result<Seq<Seq<char>>, Seq<char>>
    decreases depth, 2int, content.len() - index,
{
    match tar_member(content, index) {
        None => Ok(Seq::empty()),
        Some(Err(message)) => Err(message),
        Some(Ok((path, is_file))) => if index >= content.len() {
            Ok(Seq::empty())
        } else if !is_file {
            tar_parts(content, depth, index + 1, read)
        } else {
            match tar_data(content, index) {
                None => Ok(Seq::empty()),
                Some(Err(message)) => Err(message),
                Some(Ok(data)) => match member_text(decoded(path), data, depth, read) {
                    Err(message) => Err(message),
                    Ok(text) => with_more(
                        member_part(decoded(path), text),
                        tar_parts(content, depth, index + 1, read),
                    ),
                },
            }
        },
    }
}

/// What is said of a tar archive with places that are too great to be counted.
pub const TAR_OVERFLOW: &'static str = "size overflow";

/// The texts of the members of a tar archive, unless its places are too great to be counted.
pub open spec fn all_tar_parts(content: Seq<u8>, depth: nat, read: Seq<ReadDocument>) -> Result<
    Seq<Seq<char>>,
    Seq<char>,
>
    decreases depth, 3int, 0int,
{
    if tar_overflows(content) {
        Err(TAR_OVERFLOW@)
    } else {
        tar_parts(content, depth, 0, read)
    }
}

/// The text of an archive: its parts with line breaks between them.
pub open spec fn archive_text(parts: Result<Seq<Seq<char>>, Seq<char>>) -> Result<
    Option<Seq<char>>,
    Seq<char>,
> {
    match parts {
        Ok(parts) => Ok(Some(joined(parts, "\n"@))),
        Err(message) => Err(message),
    }
}

/// Some text, unless it could not be had.
pub open spec fn some_text(text: Result<Seq<char>, Seq<char>>) -> Result<
    Option<Seq<char>>,
    Seq<char>,
> {
    match text {
        Ok(text) => Ok(Some(text)),
        Err(message) => Err(message),
    }
}

/// The searchable text of a file; nothing for a file that is searched as it stands. Archives have
/// no text where they lie too deep in other archives. Workbooks and PDF documents have the text of
/// their readings.
pub open spec fn searchable_text(
    kind: DocumentKind,
    content: Seq<u8>,
    depth: nat,
    read: Seq<ReadDocument>,
) -> Result<Option<Seq<char>>, Seq<char>>
    decreases depth, 1int, 0int,
{
    match kind {
        DocumentKind::Plain => Ok(None),
        DocumentKind::LockFile => Ok(Some(Seq::empty())),
        DocumentKind::Docx => some_text(document_text(content, XmlTextMode::Word)),
        DocumentKind::Pptx => some_text(document_text(content, XmlTextMode::Presentation)),
        DocumentKind::Xlsx => some_text(read_text(read, kind, content)),
        DocumentKind::Pdf => some_text(read_text(read, kind, content)),
        DocumentKind::Zip => if depth == 0 {
            Ok(Some(Seq::empty()))
        } else {
            match zip_error(content) {
                Some(message) => Err(message),
                None => archive_text(zip_parts(content, (depth - 1) as nat, 0, read)),
            }
        },
        DocumentKind::Tar => if depth == 0 {
            Ok(Some(Seq::empty()))
        } else {
            archive_text(all_tar_parts(content, (depth - 1) as nat, read))
        },
        DocumentKind::TarGz => if depth == 0 {
            Ok(Some(Seq::empty()))
        } else {
            match gunzipped(content) {
                Ok(data) => archive_text(all_tar_parts(data, (depth - 1) as nat, read)),
                Err(message) => Err(message),
            }
        },
    }
}

/// Archives that lie too deep in other archives are left out: they have no text, whatever they hold.
pub proof fn archives_too_deep_have_no_text(
    kind: DocumentKind,
    content: Seq<u8>,
    read: Seq<ReadDocument>,
)
    requires
        kind is Zip || kind is Tar || kind is TarGz,
    ensures
        searchable_text(kind, content, 0, read) == Ok::<Option<Seq<char>>, Seq<char>>(
            Some(Seq::<char>::empty()),
        ),
{
}

/// A text that may be missing, or the text of an error, as sequences.
pub open spec fn option_text(result: Result<Option<String>, String>) -> Result<
    Option<Seq<char>>,
    Seq<char>,
> {
    match result {
        Ok(Some(text)) => Ok(Some(text@)),
        Ok(None) => Ok(None),
        Err(message) => Err(message@),
    }
}

/// Some text, unless it could not be had.
fn as_some(result: Result<String, String>) -> (some: Result<Option<String>, String>)
    ensures
        option_text(some) == some_text(result_text(result)),
{
    match result {
        Ok(text) => Ok(Some(text)),
        Err(message) => Err(message),
    }
}

/// Parts as sequences, or the text of an error.
pub open spec fn parts_view(result: Result<Vec<String>, String>) -> Result<
    Seq<Seq<char>>,
    Seq<char>,
> {
    match result {
        Ok(parts) => Ok(texts(parts@)),
        Err(message) => Err(message@),
    }
}

/// The text of an archive with the given parts.
fn text_of_parts(parts: Result<Vec<String>, String>) -> (result: Result<Option<String>, String>)
    ensures
        option_text(result) == archive_text(parts_view(parts)),
{
    match parts {
        Ok(parts) => Ok(Some(join(&parts, "\n"))),
        Err(message) => Err(message),
    }
}

/// Adds the lines for a member of an archive.
fn push_member(parts: &mut Vec<String>, path: &str, text: &str)
    ensures
        texts(final(parts)@) == texts(old(parts)@) + member_part(path@, text@),
{
    let ghost before = parts@;
    if !text.is_empty() {
        let mut part = "Archive entry: ".to_owned();
        part.append(path);
        part.append("\n");
        part.append(text);
        parts.push(part);
        assert(texts(parts@) == texts(before) + seq![part@]);
    } else {
        assert(texts(parts@) == texts(before) + Seq::<Seq<char>>::empty());
    }
}

/// The text of a member of an archive.
fn extract_member(path: &str, content: Vec<u8>, depth: u32, read: &Vec<ReadDocument>) -> (result:
    Result<String, String>)
    ensures
        result_text(result) == member_text(path@, content@, depth as nat, read@),
    decreases depth, 1int, 1int,
{
    let kind = archive_member_kind(path);
    if let DocumentKind::Plain = kind {
        if is_binary(&content) {
            return Ok(String::new());
        }
        return Ok(lossy_text(&content));
    }
    match extract_kind(kind, content, depth, read) {
        Ok(Some(text)) => Ok(text),
        Ok(None) => Ok(String::new()),
        Err(message) => Err(message),
    }
}

/// The texts of the members of a zip archive.
fn extract_zip_parts(content: Vec<u8>, depth: u32, read: &Vec<ReadDocument>) -> (result: Result<
    Vec<String>,
    String,
>)
    ensures
        match zip_error(content@) {
            Some(message) => result is Err && result->Err_0@ == message,
            None => parts_view(result) == zip_parts(content@, depth as nat, 0, read@),
        },
    decreases depth, 2int, 0int,
{
    let ghost bytes = content@;
    let mut archive = match open_zip(content) {
        Ok(archive) => archive,
        Err(message) => return Err(message),
    };
    let count = zip_entries(&archive);
    let mut parts: Vec<String> = Vec::new();
    let mut index: usize = 0;
    assert(texts(parts@) == Seq::<Seq<char>>::empty());
    assert(zip_parts(bytes, depth as nat, 0, read@) == with_more(
        texts(parts@),
        zip_parts(bytes, depth as nat, 0, read@),
    )) by {
        if let Ok(all) = zip_parts(bytes, depth as nat, 0, read@) {
            assert(Seq::<Seq<char>>::empty() + all == all);
        }
    }
    while index < count
        invariant
            bytes == content@,
            zip_content(archive) == bytes,
            count == zip_len(bytes),
            zip_error(bytes) is None,
            index <= count,
            zip_parts(bytes, depth as nat, 0, read@) == with_more(
                texts(parts@),
                zip_parts(bytes, depth as nat, index as nat, read@),
            ),
        decreases count - index,
    {
        let path = match zip_entry_name(&mut archive, index) {
            Ok(path) => path,
            Err(message) => return Err(message),
        };
        if !finishes_with(path.as_str(), "/") {
            let data = match zip_entry_data(&mut archive, index) {
                Ok(data) => data,
                Err(message) => return Err(message),
            };
            let text = match extract_member(path.as_str(), data, depth, read) {
                Ok(text) => text,
                Err(message) => return Err(message),
            };
            proof {
                lemma_with_more(
                    texts(parts@),
                    member_part(path@, text@),
                    zip_parts(bytes, depth as nat, (index + 1) as nat, read@),
                );
            }
            push_member(&mut parts, path.as_str(), text.as_str());
        }
        index = index + 1;
    }
    assert(texts(parts@) + Seq::<Seq<char>>::empty() == texts(parts@));
    Ok(parts)
}

/// The texts of the members of a tar archive.
fn extract_tar_parts(content: &Vec<u8>, depth: u32, read: &Vec<ReadDocument>) -> (result: Result<
    Vec<String>,
    String,
>)
    ensures
        parts_view(result) == all_tar_parts(content@, depth as nat, read@),
    decreases depth, 2int, 0int,
{
    if does_tar_overflow(content) {
        return Err(TAR_OVERFLOW.to_owned());
    }
    let ghost bytes = content@;
    let mut parts: Vec<String> = Vec::new();
    let mut index: usize = 0;
    assert(texts(parts@) == Seq::<Seq<char>>::empty());
    assert(tar_parts(bytes, depth as nat, 0, read@) == with_more(
        texts(parts@),
        tar_parts(bytes, depth as nat, 0, read@),
    )) by {
        if let Ok(all) = tar_parts(bytes, depth as nat, 0, read@) {
            assert(Seq::<Seq<char>>::empty() + all == all);
        }
    }
    let length: usize = content.len();
    loop
        invariant
            !tar_overflows(content@),
            bytes == content@,
            length == bytes.len(),
            index <= length,
            tar_parts(bytes, depth as nat, 0, read@) == with_more(
                texts(parts@),
                tar_parts(bytes, depth as nat, index as nat, read@),
            ),
        decreases length - index,
    {
        assert(texts(parts@) + Seq::<Seq<char>>::empty() == texts(parts@));
        let member = match tar_entry(content, index) {
            Some(Ok(member)) => member,
            Some(Err(message)) => return Err(message),
            None => return Ok(parts),
        };
        if member.is_file {
            let data = match tar_entry_data(content, index) {
                Some(Ok(data)) => data,
                Some(Err(message)) => return Err(message),
                None => return Ok(parts),
            };
            let path = lossy_text(&member.path);
            let text = match extract_member(path.as_str(), data, depth, read) {
                Ok(text) => text,
                Err(message) => return Err(message),
            };
            proof {
                lemma_with_more(
                    texts(parts@),
                    member_part(path@, text@),
                    tar_parts(bytes, depth as nat, (index + 1) as nat, read@),
                );
            }
            push_member(&mut parts, path.as_str(), text.as_str());
        }
        index = index + 1;
    }
}

/// The searchable text of a file.
pub fn extract_kind(
    kind: DocumentKind,
    content: Vec<u8>,
    depth: u32,
    read: &Vec<ReadDocument>,
) -> (result: Result<Option<String>, String>)
    ensures
        option_text(result) == searchable_text(kind, content@, depth as nat, read@),
    decreases depth, 1int, 0int,
{
    match kind {
        DocumentKind::Plain => Ok(None),
        DocumentKind::LockFile => Ok(Some(String::new())),
        DocumentKind::Docx => as_some(extract_docx(content)),
        DocumentKind::Pptx => as_some(extract_pptx(content)),
        DocumentKind::Xlsx => as_some(find_reading(read, kind, &content)),
        DocumentKind::Pdf => as_some(find_reading(read, kind, &content)),
        DocumentKind::Zip => if depth == 0 {
            Ok(Some(String::new()))
        } else {
            text_of_parts(extract_zip_parts(content, depth - 1, read))
        },
        DocumentKind::Tar => if depth == 0 {
            Ok(Some(String::new()))
        } else {
            text_of_parts(extract_tar_parts(&content, depth - 1, read))
        },
        DocumentKind::TarGz => if depth == 0 {
            Ok(Some(String::new()))
        } else {
            match gunzip(&content) {
                Ok(data) => text_of_parts(extract_tar_parts(&data, depth - 1, read)),
                Err(message) => Err(message),
            }
        },
    }
}

/// The searchable text of a file, by its name, its extension and its content; nothing for a file
/// that is searched as it stands. `read` holds the workbooks and PDF documents that have been read.
pub fn extract_searchable_text(
    file_name: Option<&str>,
    extension: Option<&str>,
    content: Vec<u8>,
    read: &Vec<ReadDocument>,
) -> (result: Result<Option<String>, String>)
    ensures
        option_text(result) == searchable_text(
            kind_of(name_view(file_name), name_view(extension)),
            content@,
            MAX_ARCHIVE_DEPTH as nat,
            read@,
        ),
{
    extract_kind(document_kind(file_name, extension), content, MAX_ARCHIVE_DEPTH, read)
}

/// The workbooks and PDF documents among the members of a zip archive from `index` on, up to a
/// member that cannot be had.
pub open spec fn zip_documents(content: Seq<u8>, depth: nat, index: nat) -> Seq<
    (DocumentKind, Seq<u8>),
>
    decreases depth, 2int, zip_len(content) - index,
{
    if index >= zip_len(content) {
        Seq::empty()
    } else {
        match zip_name(content, index) {
            Err(message) => Seq::empty(),
            Ok(path) => if "/"@.is_suffix_of(path) {
                zip_documents(content, depth, index + 1)
            } else {
                match zip_data(content, index) {
                    Err(message) => Seq::empty(),
                    Ok(data) => documents_in(member_kind(path), data, depth) + zip_documents(
                        content,
                        depth,
                        index + 1,
                    ),
                }
            },
        }
    }
}

/// The workbooks and PDF documents among the members of a tar archive from `index` on, up to a
/// member that cannot be had.
pub open spec fn tar_documents(content: Seq<u8>, depth: nat, index: nat) -> Seq<
    (DocumentKind, Seq<u8>),
>
    decreases depth, 2int, content.len() - index,
{
    match tar_member(content, index) {
        None => Seq::empty(),
        Some(Err(message)) => Seq::empty(),
        Some(Ok((path, is_file))) => if index >= content.len() {
            Seq::empty()
        } else if !is_file {
            tar_documents(content, depth, index + 1)
        } else {
            match tar_data(content, index) {
                None => Seq::empty(),
                Some(Err(message)) => Seq::empty(),
                Some(Ok(data)) => documents_in(member_kind(decoded(path)), data, depth)
                    + tar_documents(content, depth, index + 1),
            }
        },
    }
}

/// The workbooks and PDF documents among the members of a tar archive, unless its places are too
/// great to be counted.
pub open spec fn all_tar_documents(content: Seq<u8>, depth: nat) -> Seq<(DocumentKind, Seq<u8>)>
    decreases depth, 3int, 0int,
{
    if tar_overflows(content) {
        Seq::empty()
    } else {
        tar_documents(content, depth, 0)
    }
}

/// The workbooks and PDF documents that a file is or holds, in order.
pub open spec fn documents_in(kind: DocumentKind, content: Seq<u8>, depth: nat) -> Seq<
    (DocumentKind, Seq<u8>),
>
    decreases depth, 1int, 0int,
{
    match kind {
        DocumentKind::Xlsx => seq![(kind, content)],
        DocumentKind::Pdf => seq![(kind, content)],
        DocumentKind::Zip => if depth == 0 || zip_error(content) is Some {
            Seq::empty()
        } else {
            zip_documents(content, (depth - 1) as nat, 0)
        },
        DocumentKind::Tar => if depth == 0 {
            Seq::empty()
        } else {
            all_tar_documents(content, (depth - 1) as nat)
        },
        DocumentKind::TarGz => if depth == 0 {
            Seq::empty()
        } else {
            match gunzipped(content) {
                Ok(data) => all_tar_documents(data, (depth - 1) as nat),
                Err(message) => Seq::empty(),
            }
        },
        _ => Seq::empty(),
    }
}

/// Lists the workbooks and PDF documents among the members of a zip archive.
fn list_zip_documents(content: Vec<u8>, depth: u32, found: &mut Vec<Document>)
    ensures
        document_views(final(found)@) == document_views(old(found)@) + if zip_error(
            content@,
        ) is Some {
            Seq::empty()
        } else {
            zip_documents(content@, depth as nat, 0)
        },
    decreases depth, 2int, 0int,
{
    let ghost bytes = content@;
    let ghost before = document_views(found@);
    assert(before + Seq::<(DocumentKind, Seq<u8>)>::empty() == before);
    let mut archive = match open_zip(content) {
        Ok(archive) => archive,
        Err(message) => return ,
    };
    let count = zip_entries(&archive);
    let mut index: usize = 0;
    while index < count
        invariant
            bytes == content@,
            zip_content(archive) == bytes,
            count == zip_len(bytes),
            zip_error(bytes) is None,
            index <= count,
            before == document_views(old(found)@),
            before + zip_documents(bytes, depth as nat, 0) == document_views(found@)
                + zip_documents(bytes, depth as nat, index as nat),
        decreases count - index,
    {
        let ghost here = document_views(found@);
        assert(here + Seq::<(DocumentKind, Seq<u8>)>::empty() == here);
        let path = match zip_entry_name(&mut archive, index) {
            Ok(path) => path,
            Err(message) => return ,
        };
        if !finishes_with(path.as_str(), "/") {
            let data = match zip_entry_data(&mut archive, index) {
                Ok(data) => data,
                Err(message) => return ,
            };
            let ghost member = data@;
            list_documents(archive_member_kind(path.as_str()), data, depth, found);
            proof {
                let more = documents_in(member_kind(path@), member, depth as nat);
                let rest = zip_documents(bytes, depth as nat, (index + 1) as nat);
                assert(here + (more + rest) == (here + more) + rest);
            }
        }
        index = index + 1;
    }
    assert(document_views(found@) + Seq::<(DocumentKind, Seq<u8>)>::empty() == document_views(
        found@,
    ));
}

/// Lists the workbooks and PDF documents among the members of a tar archive.
fn list_tar_documents(content: &Vec<u8>, depth: u32, found: &mut Vec<Document>)
    ensures
        document_views(final(found)@) == document_views(old(found)@) + all_tar_documents(
            content@,
            depth as nat,
        ),
    decreases depth, 2int, 0int,
{
    let ghost bytes = content@;
    let ghost before = document_views(found@);
    if does_tar_overflow(content) {
        assert(before + Seq::<(DocumentKind, Seq<u8>)>::empty() == before);
        return ;
    }
    let length: usize = content.len();
    let mut index: usize = 0;
    loop
        invariant
            !tar_overflows(content@),
            bytes == content@,
            length == bytes.len(),
            index <= length,
            before == document_views(old(found)@),
            before + tar_documents(bytes, depth as nat, 0) == document_views(found@)
                + tar_documents(bytes, depth as nat, index as nat),
        decreases length - index,
    {
        let ghost here = document_views(found@);
        assert(here + Seq::<(DocumentKind, Seq<u8>)>::empty() == here);
        let member = match tar_entry(content, index) {
            Some(Ok(member)) => member,
            _ => return ,
        };
        if member.is_file {
            let data = match tar_entry_data(content, index) {
                Some(Ok(data)) => data,
                _ => return ,
            };
            let path = lossy_text(&member.path);
            let ghost held = data@;
            list_documents(archive_member_kind(path.as_str()), data, depth, found);
            proof {
                let more = documents_in(member_kind(path@), held, depth as nat);
                let rest = tar_documents(bytes, depth as nat, (index + 1) as nat);
                assert(here + (more + rest) == (here + more) + rest);
            }
        }
        index = index + 1;
    }
}

/// Lists the workbooks and PDF documents that a file is or holds.
fn list_documents(kind: DocumentKind, content: Vec<u8>, depth: u32, found: &mut Vec<Document>)
    ensures
        document_views(final(found)@) == document_views(old(found)@) + documents_in(
            kind,
            content@,
            depth as nat,
        ),
    decreases depth, 1int, 0int,
{
    let ghost before = document_views(found@);
    assert(before + Seq::<(DocumentKind, Seq<u8>)>::empty() == before);
    match kind {
        DocumentKind::Xlsx | DocumentKind::Pdf => {
            found.push(Document { kind, content });
            assert(document_views(found@) == before + seq![(kind, content@)]);
        },
        DocumentKind::Zip => if depth > 0 {
            list_zip_documents(content, depth - 1, found);
        },
        DocumentKind::Tar => if depth > 0 {
            list_tar_documents(&content, depth - 1, found);
        },
        DocumentKind::TarGz => if depth > 0 {
            if let Ok(data) = gunzip(&content) {
                list_tar_documents(&data, depth - 1, found);
            }
        },
        _ => {},
    }
}

/// The workbooks and PDF documents that have to be read before the text of a file can be extracted:
/// the file itself, or those that it holds.
pub fn documents_to_read(
    file_name: Option<&str>,
    extension: Option<&str>,
    content: &Vec<u8>,
) -> (documents: Vec<Document>)
    ensures
        document_views(documents@) == documents_in(
            kind_of(name_view(file_name), name_view(extension)),
            content@,
            MAX_ARCHIVE_DEPTH as nat,
        ),
{
    let mut found: Vec<Document> = Vec::new();
    let kind = document_kind(file_name, extension);
    assert(document_views(found@) + documents_in(kind, content@, MAX_ARCHIVE_DEPTH as nat)
        == documents_in(kind, content@, MAX_ARCHIVE_DEPTH as nat));
    match kind {
        DocumentKind::Plain | DocumentKind::LockFile | DocumentKind::Docx | DocumentKind::Pptx => {},
        _ => {
            let copy = bytes_between(content, 0, content.len());
            assert(copy@ == content@);
            list_documents(kind, copy, MAX_ARCHIVE_DEPTH, &mut found);
        },
    }
    found
}

/// Whether two lists of readings say the same of the given documents.
pub open spec fn same_readings(
    first: Seq<ReadDocument>,
    second: Seq<ReadDocument>,
    documents: Seq<(DocumentKind, Seq<u8>)>,
) -> bool {
    forall|i: int|
        0 <= i < documents.len() ==> reading_of(first, (#[trigger] documents[i]).0, documents[i].1)
            == reading_of(second, documents[i].0, documents[i].1)
}

/// The text of a file rests on the readings of the documents that are listed for it, and on no
/// others.
pub proof fn listed_documents_decide_the_text(
    kind: DocumentKind,
    content: Seq<u8>,
    depth: nat,
    first: Seq<ReadDocument>,
    second: Seq<ReadDocument>,
)
    requires
        same_readings(first, second, documents_in(kind, content, depth)),
    ensures
        searchable_text(kind, content, depth, first) == searchable_text(
            kind,
            content,
            depth,
            second,
        ),
    decreases depth, 1int, 0int,
{
    match kind {
        DocumentKind::Xlsx | DocumentKind::Pdf => {
            assert(documents_in(kind, content, depth)[0] == (kind, content));
        },
        DocumentKind::Zip => if depth > 0 && zip_error(content) is None {
            lemma_zip_parts_agree(content, (depth - 1) as nat, 0, first, second);
        },
        DocumentKind::Tar => if depth > 0 && !tar_overflows(content) {
            lemma_tar_parts_agree(content, (depth - 1) as nat, 0, first, second);
        },
        DocumentKind::TarGz => if depth > 0 {
            if let Ok(data) = gunzipped(content) {
                if !tar_overflows(data) {
                    lemma_tar_parts_agree(data, (depth - 1) as nat, 0, first, second);
                }
            }
        },
        _ => {},
    }
}

/// Readings that say the same of two lists of documents together say the same of each.
proof fn lemma_readings_split(
    first: Seq<ReadDocument>,
    second: Seq<ReadDocument>,
    left: Seq<(DocumentKind, Seq<u8>)>,
    right: Seq<(DocumentKind, Seq<u8>)>,
)
    requires
        same_readings(first, second, left + right),
    ensures
        same_readings(first, second, left),
        same_readings(first, second, right),
{
    assert forall|i: int| 0 <= i < left.len() implies reading_of(
        first,
        (#[trigger] left[i]).0,
        left[i].1,
    ) == reading_of(second, left[i].0, left[i].1) by {
        assert((left + right)[i] == left[i]);
    }
    assert forall|i: int| 0 <= i < right.len() implies reading_of(
        first,
        (#[trigger] right[i]).0,
        right[i].1,
    ) == reading_of(second, right[i].0, right[i].1) by {
        assert((left + right)[left.len() + i] == right[i]);
    }
}

/// The parts of a zip archive rest on the readings of its documents.
proof fn lemma_zip_parts_agree(
    content: Seq<u8>,
    depth: nat,
    index: nat,
    first: Seq<ReadDocument>,
    second: Seq<ReadDocument>,
)
    requires
        same_readings(first, second, zip_documents(content, depth, index)),
    ensures
        zip_parts(content, depth, index, first) == zip_parts(content, depth, index, second),
    decreases depth, 2int, zip_len(content) - index,
{
    if index < zip_len(content) {
        if let Ok(path) = zip_name(content, index) {
            if "/"@.is_suffix_of(path) {
                lemma_zip_parts_agree(content, depth, index + 1, first, second);
            } else if let Ok(data) = zip_data(content, index) {
                lemma_readings_split(
                    first,
                    second,
                    documents_in(member_kind(path), data, depth),
                    zip_documents(content, depth, index + 1),
                );
                listed_documents_decide_the_text(member_kind(path), data, depth, first, second);
                assert(member_text(path, data, depth, first) == member_text(
                    path,
                    data,
                    depth,
                    second,
                ));
                lemma_zip_parts_agree(content, depth, index + 1, first, second);
            }
        }
    }
}

/// The parts of a tar archive rest on the readings of its documents.
proof fn lemma_tar_parts_agree(
    content: Seq<u8>,
    depth: nat,
    index: nat,
    first: Seq<ReadDocument>,
    second: Seq<ReadDocument>,
)
    requires
        same_readings(first, second, tar_documents(content, depth, index)),
    ensures
        tar_parts(content, depth, index, first) == tar_parts(content, depth, index, second),
    decreases depth, 2int, content.len() - index,
{
    if let Some(Ok((path, is_file))) = tar_member(content, index) {
        if index < content.len() {
            if !is_file {
                lemma_tar_parts_agree(content, depth, index + 1, first, second);
            } else if let Some(Ok(data)) = tar_data(content, index) {
                lemma_readings_split(
                    first,
                    second,
                    documents_in(member_kind(decoded(path)), data, depth),
                    tar_documents(content, depth, index + 1),
                );
                listed_documents_decide_the_text(
                    member_kind(decoded(path)),
                    data,
                    depth,
                    first,
                    second,
                );
                assert(member_text(decoded(path), data, depth, first) == member_text(
                    decoded(path),
                    data,
                    depth,
                    second,
                ));
                lemma_tar_parts_agree(content, depth, index + 1, first, second);
            }
        }
    }
}

} // verus!
