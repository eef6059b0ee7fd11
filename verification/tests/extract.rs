use std::io::{Cursor, Write};

use calamine::{Reader, Xlsx};
use flate2::write::GzEncoder;
use flate2::Compression;
use rgrank::containers::does_tar_overflow;
use rgrank::extract::{
    archive_member_kind, document_kind, documents_to_read, extract_docx, extract_entry_text,
    extract_pptx, extract_searchable_text, is_office_lockfile, DocumentKind, TAR_OVERFLOW,
};
use rgrank::reading::{
    extract_pdf, extract_xlsx, find_reading, push_sheet, rows_text, ReadDocument, Reading, Sheet,
    NOT_READ,
};
use rgrank::xml::{
    clean_extracted_text, decode_xml_bytes, extract_xml_text, push_line_break, take_event,
    XmlEvent, XmlTextMode,
};
use tar::Builder as TarBuilder;
use zip::write::SimpleFileOptions;
use zip::ZipWriter;

fn zip_bytes(entries: &[(&str, &[u8])]) -> Vec<u8> {
    let mut zip = ZipWriter::new(Cursor::new(Vec::new()));
    let options = SimpleFileOptions::default();
    for (name, contents) in entries {
        if name.ends_with('/') {
            zip.add_directory(*name, options).expect("add directory");
        } else {
            zip.start_file(*name, options).expect("start zip entry");
            zip.write_all(contents).expect("write zip entry");
        }
    }
    zip.finish().expect("finish zip").into_inner()
}

fn tar_bytes(entries: &[(&str, &[u8])]) -> Vec<u8> {
    let mut builder = TarBuilder::new(Vec::new());
    for (name, contents) in entries {
        let mut header = tar::Header::new_gnu();
        header.set_mode(0o644);
        header.set_size(contents.len() as u64);
        header.set_cksum();
        builder
            .append_data(&mut header, name, Cursor::new(*contents))
            .expect("append tar entry");
    }
    builder.into_inner().expect("finish tar")
}

fn gzip(content: &[u8]) -> Vec<u8> {
    let mut encoder = GzEncoder::new(Vec::new(), Compression::default());
    encoder.write_all(content).expect("write gzip");
    encoder.finish().expect("finish gzip")
}

fn read_workbook(content: Vec<u8>) -> Result<Vec<Sheet>, String> {
    let mut workbook = Xlsx::new(Cursor::new(content)).map_err(|error| error.to_string())?;
    workbook
        .sheet_names()
        .into_iter()
        .map(|name| {
            let range = workbook.worksheet_range(&name).map_err(|error| error.to_string())?;
            let rows = range
                .rows()
                .map(|row| row.iter().map(|cell| cell.to_string()).collect())
                .collect();
            Ok(Sheet { name, rows })
        })
        .collect()
}

fn read_pdf(content: &[u8]) -> Result<String, String> {
    pdf_extract::extract_text_from_mem(content).map_err(|error| error.to_string())
}

fn extract(name: &str, extension: &str, content: Vec<u8>) -> Result<Option<String>, String> {
    let read = documents_to_read(Some(name), Some(extension), &content)
        .into_iter()
        .map(|document| ReadDocument {
            reading: match document.kind {
                DocumentKind::Pdf => Reading::Pdf(read_pdf(&document.content)),
                _ => Reading::Workbook(read_workbook(document.content.clone())),
            },
            content: document.content,
        })
        .collect();
    extract_searchable_text(Some(name), Some(extension), content, &read)
}

fn text_of(name: &str, extension: &str, content: Vec<u8>) -> String {
    extract(name, extension, content).expect("text").expect("some text")
}

fn pdf_bytes(text: &str) -> Vec<u8> {
    let stream = format!("BT /F1 24 Tf 72 700 Td ({text}) Tj ET");
    let objects = [
        "<< /Type /Catalog /Pages 2 0 R >>".to_owned(),
        "<< /Type /Pages /Kids [3 0 R] /Count 1 >>".to_owned(),
        "<< /Type /Page /Parent 2 0 R /MediaBox [0 0 612 792] /Contents 4 0 R \
         /Resources << /Font << /F1 5 0 R >> >> >>"
            .to_owned(),
        format!("<< /Length {} >>\nstream\n{stream}\nendstream", stream.len()),
        "<< /Type /Font /Subtype /Type1 /BaseFont /Helvetica /Encoding /WinAnsiEncoding >>"
            .to_owned(),
    ];
    let mut pdf = String::from("%PDF-1.4\n");
    let mut offsets = Vec::new();
    for (index, object) in objects.iter().enumerate() {
        offsets.push(pdf.len());
        pdf.push_str(&format!("{} 0 obj\n{object}\nendobj\n", index + 1));
    }
    let start = pdf.len();
    pdf.push_str("xref\n0 6\n0000000000 65535 f \n");
    for offset in offsets {
        pdf.push_str(&format!("{offset:010} 00000 n \n"));
    }
    pdf.push_str(&format!("trailer\n<< /Size 6 /Root 1 0 R >>\nstartxref\n{start}\n%%EOF\n"));
    pdf.into_bytes()
}

fn xlsx_bytes(sheet: &str) -> Vec<u8> {
    zip_bytes(&[
        (
            "[Content_Types].xml",
            br#"<?xml version="1.0"?><Types xmlns="http://schemas.openxmlformats.org/package/2006/content-types"><Default Extension="rels" ContentType="application/vnd.openxmlformats-package.relationships+xml"/><Default Extension="xml" ContentType="application/xml"/></Types>"#,
        ),
        (
            "_rels/.rels",
            br#"<?xml version="1.0"?><Relationships xmlns="http://schemas.openxmlformats.org/package/2006/relationships"><Relationship Id="rId1" Type="http://schemas.openxmlformats.org/officeDocument/2006/relationships/officeDocument" Target="xl/workbook.xml"/></Relationships>"#,
        ),
        (
            "xl/workbook.xml",
            br#"<?xml version="1.0"?><workbook xmlns="http://schemas.openxmlformats.org/spreadsheetml/2006/main" xmlns:r="http://schemas.openxmlformats.org/officeDocument/2006/relationships"><sheets><sheet name="Levels" sheetId="1" r:id="rId1"/></sheets></workbook>"#,
        ),
        (
            "xl/_rels/workbook.xml.rels",
            br#"<?xml version="1.0"?><Relationships xmlns="http://schemas.openxmlformats.org/package/2006/relationships"><Relationship Id="rId1" Type="http://schemas.openxmlformats.org/officeDocument/2006/relationships/worksheet" Target="worksheets/sheet1.xml"/></Relationships>"#,
        ),
        ("xl/worksheets/sheet1.xml", sheet.as_bytes()),
    ])
}

#[test]
fn documents_are_known_by_their_names() {
    let kind = |name, extension| document_kind(Some(name), extension);
    assert_eq!(kind("a.docx", Some("docx")), DocumentKind::Docx);
    assert_eq!(kind("a.DOCX", Some("DOCX")), DocumentKind::Docx);
    assert_eq!(kind("a.pdf", Some("pdf")), DocumentKind::Pdf);
    assert_eq!(kind("a.pptx", Some("pptx")), DocumentKind::Pptx);
    assert_eq!(kind("a.xlsx", Some("xlsx")), DocumentKind::Xlsx);
    assert_eq!(kind("a.zip", Some("zip")), DocumentKind::Zip);
    assert_eq!(kind("a.tar", Some("tar")), DocumentKind::Tar);
    assert_eq!(kind("a.tgz", Some("tgz")), DocumentKind::TarGz);
    assert_eq!(kind("a.tar.gz", Some("gz")), DocumentKind::TarGz);
    assert_eq!(kind("a.gz", Some("gz")), DocumentKind::Plain);
    assert_eq!(kind("a.txt", Some("txt")), DocumentKind::Plain);
    assert_eq!(kind("docx", None), DocumentKind::Plain);
    assert_eq!(kind("~$a.docx", Some("docx")), DocumentKind::LockFile);
    assert_eq!(document_kind(None, Some("docx")), DocumentKind::Docx);
}

#[test]
fn members_are_known_by_their_paths() {
    assert_eq!(archive_member_kind("dir/a.docx"), DocumentKind::Docx);
    assert_eq!(archive_member_kind("dir.docx/a"), DocumentKind::Plain);
    assert_eq!(archive_member_kind("dir/.zip"), DocumentKind::Plain);
    assert_eq!(archive_member_kind("dir/b.tar.gz"), DocumentKind::TarGz);
    assert_eq!(archive_member_kind(".."), DocumentKind::Plain);
    assert_eq!(archive_member_kind("dir/~$a.docx"), DocumentKind::LockFile);
}

#[test]
fn lock_files_hold_no_text() {
    assert!(is_office_lockfile(Some("~$notes.docx")));
    assert!(!is_office_lockfile(Some("notes.docx")));
    assert!(!is_office_lockfile(None));
    let text = extract("~$notes.docx", "docx", b"junk".to_vec());
    assert_eq!(text, Ok(Some(String::new())));
}

#[test]
fn plain_files_are_searched_as_they_stand() {
    let content = b"plain".to_vec();
    assert_eq!(extract("a.txt", "txt", content.clone()), Ok(None));
    assert_eq!(extract_searchable_text(Some("Makefile"), None, content, &Vec::new()), Ok(None));
}

#[test]
fn word_text_has_tabs_breaks_and_escapes() {
    let xml = "<w:document><w:p><w:r><w:t>a &amp; b</w:t><w:tab/><w:t>c</w:t><w:br/>\
               <w:t><![CDATA[d & e]]></w:t></w:r></w:p><w:p><w:t>f</w:t><w:cr/><w:t>g</w:t>\
               </w:p>outside</w:document>";
    assert_eq!(
        extract_xml_text(xml, XmlTextMode::Word),
        Ok("a & b c\nd & e\nf\ng".to_owned())
    );
    assert_eq!(
        extract_xml_text(xml, XmlTextMode::Presentation),
        Ok("a & bc\nd & e\nfg".to_owned())
    );
}

#[test]
fn broken_xml_is_refused() {
    let error = extract_xml_text("<a><b></a>", XmlTextMode::Word).err().expect("error");
    assert!(error.contains("expected `</b>`"));
    assert!(extract_xml_text("<t>&nope;</t>", XmlTextMode::Word).is_err());
    assert_eq!(extract_xml_text("<x>&nope;</x>", XmlTextMode::Word), Ok(String::new()));
    assert_eq!(extract_xml_text("", XmlTextMode::Word), Ok(String::new()));
}

#[test]
fn word_documents_have_headers_and_notes() {
    let part = |text: &str| format!("<w:x><w:p><w:t>{text}</w:t></w:p></w:x>").into_bytes();
    let content = zip_bytes(&[
        ("word/document.xml", &part("body")),
        ("word/styles.xml", &part("style")),
        ("word/header1.xml", &part("head")),
        ("word/footnotes.xml", &part("note")),
        ("word/comments.xml", &part("comment")),
        ("word/header1.bin", &part("binary")),
        ("word/endnotes.xml", &part("")),
    ]);
    assert_eq!(extract_docx(content.clone()), Ok("body\nhead\nnote\ncomment".to_owned()));
    assert_eq!(text_of("a.docx", "docx", content), "body\nhead\nnote\ncomment");
}

#[test]
fn presentations_have_slides_and_notes() {
    let part = |text: &str| format!("<a:x><a:p><a:t>{text}</a:t></a:p></a:x>").into_bytes();
    let content = zip_bytes(&[
        ("ppt/slides/slide1.xml", &part("slide")),
        ("ppt/notesSlides/notesSlide1.xml", &part("note")),
        ("ppt/theme/theme1.xml", &part("theme")),
    ]);
    assert_eq!(extract_pptx(content.clone()), Ok("slide\nnote".to_owned()));
    assert_eq!(text_of("a.pptx", "pptx", content), "slide\nnote");
}

#[test]
fn entries_that_are_not_utf8_are_refused() {
    let content = zip_bytes(&[("word/document.xml", b"\xff\xfe")]);
    assert_eq!(extract_docx(content), Err("stream did not contain valid UTF-8".to_owned()));
}

#[test]
fn workbooks_have_sheets_and_cells() {
    let sheet = r#"<?xml version="1.0"?><worksheet xmlns="http://schemas.openxmlformats.org/spreadsheetml/2006/main"><sheetData><row r="1"><c r="A1" t="inlineStr"><is><t>name</t></is></c><c r="C1" t="inlineStr"><is><t>level</t></is></c></row><row r="3"><c r="A3" t="inlineStr"><is><t>cortisol</t></is></c><c r="B3"><v>12.5</v></c></row></sheetData></worksheet>"#;
    let content = xlsx_bytes(sheet);
    assert_eq!(
        extract_xlsx(&read_workbook(content.clone())),
        Ok("Sheet: Levels\nname level\ncortisol 12.5".to_owned())
    );
    assert_eq!(
        text_of("a.xlsx", "xlsx", content),
        "Sheet: Levels\nname level\ncortisol 12.5"
    );
    let empty = r#"<?xml version="1.0"?><worksheet xmlns="http://schemas.openxmlformats.org/spreadsheetml/2006/main"><sheetData/></worksheet>"#;
    assert_eq!(extract_xlsx(&read_workbook(xlsx_bytes(empty))), Ok(String::new()));
    assert!(extract_xlsx(&read_workbook(b"no workbook".to_vec())).is_err());
}

#[test]
fn pdf_documents_have_text() {
    let text = text_of("a.pdf", "pdf", pdf_bytes("cortisol level"));
    assert_eq!(text.trim(), "cortisol level");
    assert!(extract("a.pdf", "pdf", b"no pdf".to_vec()).is_err());
    assert_eq!(extract_pdf(&Ok(" a  b\n\n".to_owned())), Ok("a b\n".to_owned()));
    assert_eq!(extract_pdf(&Err("torn".to_owned())), Err("torn".to_owned()));
}

#[test]
fn archives_hold_the_texts_of_their_members() {
    let members: [(&str, &[u8]); 5] = [
        ("dir/", b""),
        ("dir/notes.txt", b"first  line\n\n\nsecond line\n"),
        ("image.bin", b"\0\x01"),
        ("empty.txt", b""),
        ("last.txt", b"last"),
    ];
    let wanted = "Archive entry: dir/notes.txt\nfirst  line\n\n\nsecond line\n\n\
                  Archive entry: last.txt\nlast";
    assert_eq!(text_of("a.zip", "zip", zip_bytes(&members)), wanted);
    let tar = tar_bytes(&members[1..]);
    assert_eq!(text_of("a.tar", "tar", tar.clone()), wanted);
    assert_eq!(text_of("a.tgz", "tgz", gzip(&tar)), wanted);
    assert_eq!(text_of("a.tar.gz", "gz", gzip(&tar)), wanted);
}

#[test]
fn archives_within_archives_are_read_to_a_depth() {
    let mut content = b"deep text".to_vec();
    let mut name = "deep.txt".to_owned();
    for level in 0..4 {
        content = zip_bytes(&[(name.as_str(), content.as_slice())]);
        name = format!("level{level}.zip");
    }
    assert!(text_of("a.zip", "zip", content.clone()).contains("deep text"));
    let deeper = zip_bytes(&[(name.as_str(), content.as_slice())]);
    assert_eq!(text_of("a.zip", "zip", deeper), "");
}

#[test]
fn documents_within_archives_are_read() {
    let document = zip_bytes(&[("word/document.xml", b"<w:p><w:t>inside</w:t></w:p>")]);
    let content = tar_bytes(&[("docs/a.docx", &document)]);
    assert_eq!(text_of("a.tar", "tar", content), "Archive entry: docs/a.docx\ninside");
}

#[test]
fn damaged_archives_are_refused() {
    let refused = |name: &str, extension: &str, content: Vec<u8>| {
        extract(name, extension, content).is_err()
    };
    assert!(refused("a.zip", "zip", b"no archive".to_vec()));
    assert!(refused("a.docx", "docx", b"no archive".to_vec()));
    assert!(refused("a.tar", "tar", vec![b'x'; 1024]));
    assert!(refused("a.tgz", "tgz", b"no gzip".to_vec()));
    let inner = zip_bytes(&[("broken.docx", b"no archive")]);
    assert!(refused("a.zip", "zip", inner));
    assert_eq!(text_of("a.tar", "tar", Vec::new()), "");
}

#[test]
fn extracted_text_is_cleaned() {
    assert_eq!(clean_extracted_text("\n\n  a \t b  \n\n\n c\r\n"), "a b\n\nc");
    assert_eq!(clean_extracted_text("a\n \n"), "a\n");
    assert_eq!(clean_extracted_text(""), "");
}

#[test]
fn line_breaks_are_not_doubled() {
    let mut output = String::new();
    push_line_break(&mut output);
    push_line_break(&mut output);
    assert_eq!(output, "\n");
    output.push('a');
    push_line_break(&mut output);
    assert_eq!(output, "\na\n");
}

#[test]
fn documents_in_archives_are_listed_and_read() {
    let pdf = pdf_bytes("inner text");
    let inner = zip_bytes(&[("b.pdf", &pdf)]);
    let content = zip_bytes(&[("a.pdf", &pdf), ("c.txt", b"plain"), ("inner.zip", &inner)]);
    let listed = documents_to_read(Some("a.zip"), Some("zip"), &content);
    assert_eq!(listed.len(), 2);
    assert!(listed.iter().all(|document| document.content == pdf));
    let text = text_of("a.zip", "zip", content.clone());
    assert_eq!(text.matches("inner text").count(), 2);
    assert!(text.contains("Archive entry: inner.zip\nArchive entry: b.pdf\n"));
    let unread = extract_searchable_text(Some("a.zip"), Some("zip"), content, &Vec::new());
    assert_eq!(unread, Err(NOT_READ.to_owned()));
    let tar = tar_bytes(&[("a.xlsx", b"junk"), ("b.docx", b"junk")]);
    assert_eq!(documents_to_read(Some("a.tgz"), Some("tgz"), &gzip(&tar)).len(), 1);
    assert!(documents_to_read(Some("a.docx"), Some("docx"), &pdf).is_empty());
    assert!(documents_to_read(Some("a.zip"), Some("zip"), &b"junk".to_vec()).is_empty());
}

#[test]
fn readings_are_found_by_kind_and_content() {
    let read = vec![
        ReadDocument { content: b"x".to_vec(), reading: Reading::Pdf(Ok("first".to_owned())) },
        ReadDocument { content: b"x".to_vec(), reading: Reading::Pdf(Ok("second".to_owned())) },
        ReadDocument { content: b"x".to_vec(), reading: Reading::Workbook(Err("torn".to_owned())) },
    ];
    let found = |kind, content: &[u8]| find_reading(&read, kind, &content.to_vec());
    assert_eq!(found(DocumentKind::Pdf, b"x"), Ok("first".to_owned()));
    assert_eq!(found(DocumentKind::Xlsx, b"x"), Err("torn".to_owned()));
    assert_eq!(found(DocumentKind::Pdf, b"y"), Err(NOT_READ.to_owned()));
    assert_eq!(found(DocumentKind::Zip, b"x"), Err(NOT_READ.to_owned()));
}

#[test]
fn sheets_are_put_behind_one_another() {
    let row = |cells: &[&str]| -> Vec<String> { cells.iter().map(|cell| cell.to_string()).collect() };
    let rows = vec![row(&["a", " ", "b"]), row(&["", "\t"]), row(&["c"])];
    assert_eq!(rows_text(&rows), "a\tb\nc\n");
    let mut output = String::new();
    push_sheet(&mut output, "One", &rows);
    push_sheet(&mut output, "None", &vec![row(&[" "])]);
    push_sheet(&mut output, "Two", &vec![row(&["d"])]);
    assert_eq!(output, "Sheet: One\na\tb\nc\n\nSheet: Two\nd\n");
}

#[test]
fn events_are_taken_one_by_one() {
    let reader = quick_xml::Reader::from_str("");
    let mut output = String::new();
    let mut take = |event: XmlEvent, in_text: bool, output: &mut String| {
        take_event(&reader, XmlTextMode::Word, &event, output, in_text)
    };
    assert_eq!(take(XmlEvent::Start(b"t".to_vec()), false, &mut output), Ok(true));
    assert_eq!(take(XmlEvent::Text(b"a &lt; b".to_vec()), true, &mut output), Ok(true));
    assert_eq!(take(XmlEvent::Text(b"left out".to_vec()), false, &mut output), Ok(false));
    assert_eq!(take(XmlEvent::End(b"t".to_vec()), true, &mut output), Ok(false));
    assert_eq!(take(XmlEvent::Empty(b"tab".to_vec()), false, &mut output), Ok(false));
    assert_eq!(take(XmlEvent::CData(b"&lt;".to_vec()), true, &mut output), Ok(true));
    assert_eq!(take(XmlEvent::End(b"p".to_vec()), false, &mut output), Ok(false));
    assert_eq!(take(XmlEvent::Other, true, &mut output), Ok(true));
    assert!(take(XmlEvent::Text(b"\xff".to_vec()), true, &mut output).is_err());
    assert_eq!(output, "a < b\t&lt;\n");
    assert_eq!(decode_xml_bytes(&reader, &b"&amp;".to_vec()), Ok("&".to_owned()));
}

#[test]
fn entry_texts_hand_errors_on() {
    let entry = |data| extract_entry_text(XmlTextMode::Word, data);
    assert_eq!(entry(Ok(b"<t>a</t>".to_vec())), Ok("a".to_owned()));
    assert_eq!(entry(Err("torn".to_owned())), Err("torn".to_owned()));
}

fn sparse_header(size: [u8; 12]) -> Vec<u8> {
    let mut header = vec![0u8; 512];
    header[0] = b'a';
    header[124..136].copy_from_slice(&size);
    header[148..156].fill(b' ');
    header[156] = b'S';
    header[257..265].copy_from_slice(b"ustar  \0");
    header[482] = 1;
    let sum: u32 = header.iter().map(|byte| u32::from(*byte)).sum();
    header[148..156].copy_from_slice(format!("{sum:06o}\0 ").as_bytes());
    header
}

#[test]
fn tar_sizes_that_cannot_be_added_up_are_refused() {
    let mut size = [0xff; 12];
    size[0] = 0x80;
    size[10] = 0xfc;
    size[11] = 0;
    let mut content = sparse_header(size);
    content.extend([0; 1024]);
    assert!(does_tar_overflow(&content));
    assert_eq!(extract("a.tar", "tar", content.clone()), Err(TAR_OVERFLOW.to_owned()));
    assert_eq!(extract("a.tgz", "tgz", gzip(&content)), Err(TAR_OVERFLOW.to_owned()));
    assert!(documents_to_read(Some("a.tar"), Some("tar"), &content).is_empty());
    let plain = sparse_header(*b"00000000000\0");
    assert!(!does_tar_overflow(&plain));
    for record in ["size=18446744073709551615", "size=+9223372036854775808"] {
        let mut content = plain.clone();
        content.extend(format!("30 {record}\n").bytes());
        assert!(does_tar_overflow(&content), "{record}");
    }
    let text = tar_bytes(&[("a.txt", b"size=18446744073709551615")]);
    assert!(!does_tar_overflow(&text));
    assert!(text_of("a.tar", "tar", text).contains("size=1844"));
}
