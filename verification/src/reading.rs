//! Workbooks and PDF documents: what their text comes to once they have been read.
//!
//! The readers of these documents can panic on damaged ones, so the program runs them under a guard
//! and hands over what they gave: it asks which documents a file holds, reads them, and hands their
//! readings to the extraction.

use vstd::prelude::*;

use crate::extract::DocumentKind;
use crate::text::{blank, is_blank, join, joined, result_text, texts};
use crate::xml::{clean_extracted_text, cleaned};

verus! {

/// A sheet of a workbook.
#[derive(Debug, Clone)]
pub struct Sheet {
    /// The name of the sheet.
    pub name: String,
    /// The cells, row by row, each as it is shown.
    pub rows: Vec<Vec<String>>,
}

/// What the reader of a document gave.
#[derive(Debug)]
pub enum Reading {
    /// The text of a PDF document, or the text of an error.
    Pdf(Result<String, String>),
    /// The sheets of a workbook, or the text of an error.
    Workbook(Result<Vec<Sheet>, String>),
}

/// A document that has been read.
#[derive(Debug)]
pub struct ReadDocument {
    /// The content of the document.
    pub content: Vec<u8>,
    /// What its reader gave.
    pub reading: Reading,
}

/// A document that is to be read.
#[derive(Debug, Clone)]
pub struct Document {
    /// What the document is: a PDF document or a workbook.
    pub kind: DocumentKind,
    /// The content of the document.
    pub content: Vec<u8>,
}

/// Documents, with their contents as sequences.
pub open spec fn document_views(documents: Seq<Document>) -> Seq<(DocumentKind, Seq<u8>)> {
    Seq::new(documents.len(), |i: int| (documents[i].kind, documents[i].content@))
}

/// Rows of cells, as sequences of characters.
pub open spec fn row_views(rows: Seq<Vec<String>>) -> Seq<Seq<Seq<char>>> {
    Seq::new(rows.len(), |i: int| texts(rows[i]@))
}

/// The cells that are not blank.
pub open spec fn filled(cells: Seq<Seq<char>>) -> Seq<Seq<char>>
    decreases cells.len(),
{
    if cells.len() == 0 {
        Seq::empty()
    } else if blank(cells.last()) {
        filled(cells.drop_last())
    } else {
        filled(cells.drop_last()).push(cells.last())
    }
}

/// The lines of the first `count` rows: the cells that are not blank, with tabs between them, and
/// none for a row without such cells.
pub open spec fn row_lines(rows: Seq<Seq<Seq<char>>>, count: int) -> Seq<char>
    decreases count,
{
    if count <= 0 {
        Seq::empty()
    } else {
        let before = row_lines(rows, count - 1);
        let cells = filled(rows[count - 1]);
        if cells.len() == 0 {
            before
        } else {
            before + joined(cells, "\t"@) + "\n"@
        }
    }
}

/// The output with a sheet behind it: its name and its rows, with a line break before it; nothing
/// for a sheet without filled cells.
pub open spec fn with_sheet(output: Seq<char>, name: Seq<char>, rows: Seq<Seq<Seq<char>>>) -> Seq<
    char,
> {
    let lines = row_lines(rows, rows.len() as int);
    if lines.len() == 0 {
        output
    } else if output.len() == 0 {
        output + "Sheet: "@ + name + "\n"@ + lines
    } else {
        output.push('\n') + "Sheet: "@ + name + "\n"@ + lines
    }
}

/// The first `count` sheets, one behind the other.
pub open spec fn sheets_text(sheets: Seq<Sheet>, count: int) -> Seq<char>
    decreases count,
{
    if count <= 0 {
        Seq::empty()
    } else {
        let sheet = sheets[count - 1];
        with_sheet(sheets_text(sheets, count - 1), sheet.name@, row_views(sheet.rows@))
    }
}

/// The text of a workbook: its sheets, each with its name and its filled cells, without needless
/// white space; or the error of its reader.
pub open spec fn workbook_text(workbook: Result<Vec<Sheet>, String>) -> Result<
    Seq<char>,
    Seq<char>,
> {
    match workbook {
        Ok(sheets) => Ok(cleaned(sheets_text(sheets@, sheets@.len() as int))),
        Err(message) => Err(message@),
    }
}

/// The text of a PDF document, without needless white space; or the error of its reader.
pub open spec fn pdf_text(extracted: Result<String, String>) -> Result<Seq<char>, Seq<char>> {
    match extracted {
        Ok(text) => Ok(cleaned(text@)),
        Err(message) => Err(message@),
    }
}

/// The text of a document, as its reader gave it.
pub open spec fn reading_text(reading: Reading) -> Result<Seq<char>, Seq<char>> {
    match reading {
        Reading::Pdf(extracted) => pdf_text(extracted),
        Reading::Workbook(workbook) => workbook_text(workbook),
    }
}

/// Whether a document that has been read is one of the given kind and content.
pub open spec fn is_reading_of(document: ReadDocument, kind: DocumentKind, content: Seq<u8>) -> bool {
    &&& document.content@ == content
    &&& match document.reading {
        Reading::Pdf(_) => kind is Pdf,
        Reading::Workbook(_) => kind is Xlsx,
    }
}

/// What the reader of a document gave, where it has been read.
pub open spec fn reading_of(read: Seq<ReadDocument>, kind: DocumentKind, content: Seq<u8>) -> Option<
    Reading,
>
    decreases read.len(),
{
    if read.len() == 0 {
        None
    } else if is_reading_of(read[0], kind, content) {
        Some(read[0].reading)
    } else {
        reading_of(read.drop_first(), kind, content)
    }
}

/// What is said of a document that has not been read.
pub const NOT_READ: &'static str = "document has not been read";

/// The text of a document among those that have been read.
pub open spec fn read_text(read: Seq<ReadDocument>, kind: DocumentKind, content: Seq<u8>) -> Result<
    Seq<char>,
    Seq<char>,
> {
    match reading_of(read, kind, content) {
        Some(reading) => reading_text(reading),
        None => Err(NOT_READ@),
    }
}

/// The cells of a row that are not blank.
fn filled_cells(cells: &Vec<String>) -> (kept: Vec<String>)
    ensures
        texts(kept@) == filled(texts(cells@)),
{
    let mut kept: Vec<String> = Vec::new();
    let ghost all = texts(cells@);
    let mut at: usize = 0;
    assert(texts(kept@) == filled(all.take(0)));
    while at < cells.len()
        invariant
            all == texts(cells@),
            at <= cells@.len(),
            texts(kept@) == filled(all.take(at as int)),
        decreases cells@.len() - at,
    {
        assert(all.take(at + 1).drop_last() == all.take(at as int));
        assert(all.take(at + 1).last() == cells@[at as int]@);
        let ghost before = kept@;
        if !is_blank(cells[at].as_str()) {
            kept.push(cells[at].clone());
            assert(texts(kept@) == texts(before).push(cells@[at as int]@));
        }
        at = at + 1;
    }
    assert(all.take(at as int) == all);
    kept
}

/// The lines of the rows of a sheet.
pub fn rows_text(rows: &Vec<Vec<String>>) -> (lines: String)
    ensures
        lines@ == row_lines(row_views(rows@), rows@.len() as int),
{
    let mut lines = String::new();
    let ghost views = row_views(rows@);
    let mut at: usize = 0;
    while at < rows.len()
        invariant
            views == row_views(rows@),
            at <= rows@.len(),
            lines@ == row_lines(views, at as int),
        decreases rows@.len() - at,
    {
        let cells = filled_cells(&rows[at]);
        assert(views[at as int] == texts(rows@[at as int]@));
        assert(texts(cells@).len() == cells@.len());
        if cells.len() > 0 {
            let line = join(&cells, "\t");
            lines.append(line.as_str());
            lines.append("\n");
        }
        at = at + 1;
    }
    lines
}

/// Adds a sheet to the output.
pub fn push_sheet(output: &mut String, name: &str, rows: &Vec<Vec<String>>)
    ensures
        final(output)@ == with_sheet(old(output)@, name@, row_views(rows@)),
{
    let lines = rows_text(rows);
    assert(row_views(rows@).len() == rows@.len());
    if lines.as_str().is_empty() {
        return ;
    }
    if !output.as_str().is_empty() {
        output.push('\n');
    }
    output.append("Sheet: ");
    output.append(name);
    output.append("\n");
    output.append(lines.as_str());
}

/// The text of a workbook, as its reader gave it.
pub fn extract_xlsx(workbook: &Result<Vec<Sheet>, String>) -> (result: Result<String, String>)
    ensures
        result_text(result) == workbook_text(*workbook),
{
    let sheets = match workbook {
        Ok(sheets) => sheets,
        Err(message) => return Err(message.clone()),
    };
    let mut output = String::new();
    let mut at: usize = 0;
    while at < sheets.len()
        invariant
            at <= sheets@.len(),
            output@ == sheets_text(sheets@, at as int),
        decreases sheets@.len() - at,
    {
        push_sheet(&mut output, sheets[at].name.as_str(), &sheets[at].rows);
        at = at + 1;
    }
    Ok(clean_extracted_text(output.as_str()))
}

/// The text of a PDF document, as its reader gave it.
pub fn extract_pdf(extracted: &Result<String, String>) -> (result: Result<String, String>)
    ensures
        result_text(result) == pdf_text(*extracted),
{
    match extracted {
        Ok(text) => Ok(clean_extracted_text(text.as_str())),
        Err(message) => Err(message.clone()),
    }
}

/// Whether bytes are the same.
fn same_bytes(left: &Vec<u8>, right: &Vec<u8>) -> (same: bool)
    ensures
        same == (left@ == right@),
{
    if left.len() != right.len() {
        return false;
    }
    let mut at: usize = 0;
    while at < left.len()
        invariant
            left@.len() == right@.len(),
            at <= left@.len(),
            forall|i: int| 0 <= i < at ==> left@[i] == right@[i],
        decreases left@.len() - at,
    {
        if left[at] != right[at] {
            return false;
        }
        at = at + 1;
    }
    assert(left@ == right@);
    true
}

/// The text of a document among those that have been read; an error where it is not among them.
pub fn find_reading(read: &Vec<ReadDocument>, kind: DocumentKind, content: &Vec<u8>) -> (result:
    Result<String, String>)
    ensures
        result_text(result) == read_text(read@, kind, content@),
{
    let mut at: usize = 0;
    assert(read@.skip(0) == read@);
    while at < read.len()
        invariant
            at <= read@.len(),
            reading_of(read@, kind, content@) == reading_of(read@.skip(at as int), kind, content@),
        decreases read@.len() - at,
    {
        assert(read@.skip(at as int)[0] == read@[at as int]);
        assert(read@.skip(at as int).drop_first() == read@.skip(at + 1));
        if same_bytes(&read[at].content, content) {
            match (&read[at].reading, kind) {
                (Reading::Pdf(extracted), DocumentKind::Pdf) => return extract_pdf(extracted),
                (Reading::Workbook(workbook), DocumentKind::Xlsx) => {
                    return extract_xlsx(workbook);
                },
                _ => {},
            }
        }
        at = at + 1;
    }
    Err(NOT_READ.to_owned())
}

} // verus!
