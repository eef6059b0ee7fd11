//! Laws on workbooks and other documents that have been read.

use vstd::prelude::*;

use super::ranking::lemma_occurs_within;
use super::reporting::{lemma_between, lemma_regroup};
use crate::extract::DocumentKind;
use crate::reading::{
    filled, pdf_text, read_text, reading_of, reading_text, row_lines, row_views, sheets_text,
    with_sheet, workbook_text, ReadDocument, Reading, Sheet,
};
use crate::text::{blank, joined, occurs_in, texts, white_space};
use crate::xml::cleaned;

verus! {

/// The cells kept of a row are those with a character other than white space, in order.
pub proof fn filled_cells_are_kept(cells: Seq<Seq<char>>)
    ensures
        filled(cells) == cells.filter(
            |cell: Seq<char>| exists|i: int| 0 <= i < cell.len() && !white_space(#[trigger] cell[i]),
        ),
    decreases cells.len(),
{
    reveal(Seq::filter);
    if cells.len() > 0 {
        filled_cells_are_kept(cells.drop_last());
    }
}

/// Cells that are not blank are among those kept.
proof fn lemma_filled(cells: Seq<Seq<char>>)
    ensures
        forall|i: int|
            0 <= i < cells.len() && !blank(#[trigger] cells[i]) ==> filled(cells).contains(cells[i]),
        forall|i: int| 0 <= i < filled(cells).len() ==> !blank(#[trigger] filled(cells)[i]),
        filled(cells).len() > 0 ==> exists|i: int| 0 <= i < cells.len() && !blank(
            #[trigger] cells[i],
        ),
    decreases cells.len(),
{
    if cells.len() > 0 {
        let front = cells.drop_last();
        lemma_filled(front);
        assert forall|i: int| 0 <= i < front.len() implies front[i] == #[trigger] cells[i] by {}
        let kept = filled(cells);
        if !blank(cells.last()) {
            assert(kept[kept.len() - 1] == cells.last());
            assert(!blank(cells[cells.len() - 1]));
        }
        assert forall|i: int| 0 <= i < cells.len() && !blank(#[trigger] cells[i]) implies
            kept.contains(cells[i]) by {
            if i < front.len() {
                assert(!blank(front[i]));
                let j = choose|j: int| 0 <= j < filled(front).len() && filled(front)[j] == front[i];
                assert(kept[j] == cells[i]);
            }
        }
        if kept.len() > 0 && blank(cells.last()) {
            let i = choose|i: int| 0 <= i < front.len() && !blank(#[trigger] front[i]);
            assert(!blank(cells[i]));
        }
    }
}

/// The lines of rows do not hang on rows behind them.
proof fn lemma_earlier_rows(
    first: Seq<Seq<Seq<char>>>,
    second: Seq<Seq<Seq<char>>>,
    count: int,
)
    requires
        count <= first.len(),
    ensures
        row_lines(first + second, count) == row_lines(first, count),
    decreases count,
{
    if count > 0 {
        lemma_earlier_rows(first, second, count - 1);
        assert((first + second)[count - 1] == first[count - 1]);
    }
}

/// Rows are written in order, one behind the other; a row with filled cells is a line of them, with
/// tabs between them, and a row without such cells is left out.
pub proof fn rows_are_written_in_order(
    first: Seq<Seq<Seq<char>>>,
    second: Seq<Seq<Seq<char>>>,
)
    ensures
        row_lines(first + second, (first + second).len() as int) == row_lines(
            first,
            first.len() as int,
        ) + row_lines(second, second.len() as int),
        first.len() == 0 ==> row_lines(first, 0) == Seq::<char>::empty(),
        first.len() == 1 && (exists|i: int| 0 <= i < first[0].len() && !blank(
            #[trigger] first[0][i],
        )) ==> row_lines(first, 1) == joined(filled(first[0]), "\t"@) + "\n"@,
        first.len() == 1 && (forall|i: int| 0 <= i < first[0].len() ==> blank(
            #[trigger] first[0][i],
        )) ==> row_lines(first, 1) == Seq::<char>::empty(),
    decreases second.len(),
{
    if first.len() == 1 {
        lemma_filled(first[0]);
        assert(row_lines(first, 0) == Seq::<char>::empty());
        assert(Seq::<char>::empty() + joined(filled(first[0]), "\t"@) == joined(
            filled(first[0]),
            "\t"@,
        ));
        if exists|i: int| 0 <= i < first[0].len() && !blank(#[trigger] first[0][i]) {
            let i = choose|i: int| 0 <= i < first[0].len() && !blank(#[trigger] first[0][i]);
            assert(filled(first[0]).contains(first[0][i]));
        }
    }
    if second.len() == 0 {
        assert(first + second == first);
        assert(row_lines(second, 0) == Seq::<char>::empty());
    } else {
        let front = second.drop_last();
        let last = seq![second.last()];
        rows_are_written_in_order(first, front);
        assert(first + second == (first + front) + last);
        assert(second == front + last);
        let count = (first + second).len() as int;
        lemma_earlier_rows(first + front, last, count - 1);
        lemma_earlier_rows(front, last, second.len() - 1);
        assert((first + second)[count - 1] == second.last());
        assert(second[second.len() - 1] == second.last());
        let cells = filled(second.last());
        if cells.len() > 0 {
            let line = joined(cells, "\t"@);
            let before = row_lines(first, first.len() as int);
            let middle = row_lines(front, front.len() as int);
            assert(before + middle + line + "\n"@ == before + (middle + line + "\n"@));
        }
    }
}

/// A filled cell stands in the lines of its rows, and lines come of filled cells alone.
proof fn lemma_cell_in_rows(rows: Seq<Seq<Seq<char>>>, row: int, cell: int)
    requires
        0 <= row < rows.len(),
        0 <= cell < rows[row].len(),
        !blank(rows[row][cell]),
    ensures
        occurs_in(rows[row][cell], row_lines(rows, rows.len() as int)),
        row_lines(rows, rows.len() as int).len() > 0,
{
    let before = rows.take(row);
    let own = seq![rows[row]];
    let behind = rows.skip(row + 1);
    rows_are_written_in_order(before, own);
    rows_are_written_in_order(before + own, behind);
    rows_are_written_in_order(own, behind);
    assert(before + own + behind == rows);
    assert(own[0] == rows[row]);
    assert(!blank(own[0][cell]));
    lemma_filled(rows[row]);
    let cells = filled(rows[row]);
    let kept = choose|kept: int| 0 <= kept < cells.len() && cells[kept] == rows[row][cell];
    lemma_in_joined(cells, "\t"@, kept);
    let line = joined(cells, "\t"@);
    lemma_between(Seq::empty(), line, "\n"@);
    assert(Seq::<char>::empty() + line + "\n"@ == line + "\n"@);
    lemma_between(
        row_lines(before, before.len() as int),
        row_lines(own, 1),
        row_lines(behind, behind.len() as int),
    );
    lemma_occurs_within(line, row_lines(own, 1), row_lines(rows, rows.len() as int));
    lemma_occurs_within(rows[row][cell], line, row_lines(rows, rows.len() as int));
    reveal_strlit("\n");
    assert(row_lines(own, 1).len() > 0);
}

/// A part stands in the parts joined.
pub(crate) proof fn lemma_in_joined(parts: Seq<Seq<char>>, separator: Seq<char>, index: int)
    requires
        0 <= index < parts.len(),
    ensures
        occurs_in(parts[index], joined(parts, separator)),
    decreases parts.len(),
{
    let front = parts.drop_last();
    let whole = joined(parts, separator);
    if parts.len() == 1 {
        lemma_between(Seq::empty(), parts[0], Seq::empty());
        assert(Seq::<char>::empty() + parts[0] + Seq::<char>::empty() == whole);
    } else if index == parts.len() - 1 {
        lemma_between(joined(front, separator) + separator, parts[index], Seq::empty());
        assert(joined(front, separator) + separator + parts[index] + Seq::<char>::empty()
            == whole);
    } else {
        lemma_in_joined(front, separator, index);
        assert(front[index] == parts[index]);
        lemma_between(Seq::empty(), joined(front, separator), separator + parts.last());
        assert(Seq::<char>::empty() + joined(front, separator) + (separator + parts.last())
            == whole);
        lemma_occurs_within(parts[index], joined(front, separator), whole);
    }
}

/// Lines come of filled cells alone.
proof fn lemma_no_lines(rows: Seq<Seq<Seq<char>>>, count: int)
    requires
        0 <= count <= rows.len(),
        forall|row: int, cell: int|
            0 <= row < rows.len() && 0 <= cell < rows[row].len() ==> blank(
                #[trigger] rows[row][cell],
            ),
    ensures
        row_lines(rows, count) == Seq::<char>::empty(),
    decreases count,
{
    if count > 0 {
        lemma_no_lines(rows, count - 1);
        lemma_filled(rows[count - 1]);
        let cells = rows[count - 1];
        if filled(cells).len() > 0 {
            let i = choose|i: int| 0 <= i < cells.len() && !blank(#[trigger] cells[i]);
            assert(blank(rows[count - 1][i]));
        }
    }
}

/// The text of sheets does not hang on sheets behind them.
proof fn lemma_earlier_sheets(sheets: Seq<Sheet>, sheet: Sheet, count: int)
    requires
        count <= sheets.len(),
    ensures
        sheets_text(sheets.push(sheet), count) == sheets_text(sheets, count),
    decreases count,
{
    if count > 0 {
        lemma_earlier_sheets(sheets, sheet, count - 1);
        assert(sheets.push(sheet)[count - 1] == sheets[count - 1]);
    }
}

/// A further sheet with a filled cell stands behind the sheets before it: a line break where there
/// is text before it, its name, and its rows. A further sheet without filled cells adds nothing.
pub proof fn a_further_sheet_stands_behind(sheets: Seq<Sheet>, sheet: Sheet)
    ensures
        sheets_text(Seq::<Sheet>::empty(), 0) == Seq::<char>::empty(),
        (exists|row: int, cell: int|
            0 <= row < sheet.rows@.len() && 0 <= cell < sheet.rows@[row]@.len() && !blank(
                #[trigger] sheet.rows@[row]@[cell]@,
            )) ==> sheets_text(sheets.push(sheet), sheets.len() as int + 1) == sheets_text(
            sheets,
            sheets.len() as int,
        ) + (if sheets_text(sheets, sheets.len() as int).len() > 0 {
            "\n"@
        } else {
            ""@
        }) + "Sheet: "@ + sheet.name@ + "\n"@ + row_lines(
            row_views(sheet.rows@),
            sheet.rows@.len() as int,
        ),
        (forall|row: int, cell: int|
            0 <= row < sheet.rows@.len() && 0 <= cell < sheet.rows@[row]@.len() ==> blank(
                #[trigger] sheet.rows@[row]@[cell]@,
            )) ==> sheets_text(sheets.push(sheet), sheets.len() as int + 1) == sheets_text(
            sheets,
            sheets.len() as int,
        ),
{
    let count = sheets.len() as int;
    let rows = row_views(sheet.rows@);
    let before = sheets_text(sheets, count);
    lemma_earlier_sheets(sheets, sheet, count);
    assert(sheets.push(sheet)[count] == sheet);
    assert(sheets_text(sheets.push(sheet), count + 1) == with_sheet(before, sheet.name@, rows));
    reveal_strlit("\n");
    reveal_strlit("");
    assert(before.push('\n') == before + "\n"@);
    if before.len() == 0 {
        assert(before + ""@ == before);
    }
    if exists|row: int, cell: int|
        0 <= row < sheet.rows@.len() && 0 <= cell < sheet.rows@[row]@.len() && !blank(
            #[trigger] sheet.rows@[row]@[cell]@,
        ) {
        let (row, cell) = choose|row: int, cell: int|
            0 <= row < sheet.rows@.len() && 0 <= cell < sheet.rows@[row]@.len() && !blank(
                #[trigger] sheet.rows@[row]@[cell]@,
            );
        assert(rows[row] == texts(sheet.rows@[row]@));
        assert(rows[row][cell] == sheet.rows@[row]@[cell]@);
        lemma_cell_in_rows(rows, row, cell);
    } else {
        assert forall|row: int, cell: int|
            0 <= row < rows.len() && 0 <= cell < rows[row].len() implies blank(
            #[trigger] rows[row][cell],
        ) by {
            assert(rows[row] == texts(sheet.rows@[row]@));
            assert(rows[row][cell] == sheet.rows@[row]@[cell]@);
            assert(blank(sheet.rows@[row]@[cell]@));
        }
        lemma_no_lines(rows, rows.len() as int);
    }
}

/// A sheet with a filled cell stands whole in the text of the sheets up to any place behind it.
proof fn lemma_sheet_in_text(sheets: Seq<Sheet>, count: int, index: int)
    requires
        0 <= index < count <= sheets.len(),
        row_lines(row_views(sheets[index].rows@), sheets[index].rows@.len() as int).len() > 0,
    ensures
        occurs_in(
            "Sheet: "@ + sheets[index].name@ + "\n"@ + row_lines(
                row_views(sheets[index].rows@),
                sheets[index].rows@.len() as int,
            ),
            sheets_text(sheets, count),
        ),
    decreases count,
{
    let before = sheets_text(sheets, count - 1);
    let sheet = sheets[count - 1];
    let lines = row_lines(row_views(sheet.rows@), sheet.rows@.len() as int);
    let entry = "Sheet: "@ + sheet.name@ + "\n"@ + lines;
    let whole = sheets_text(sheets, count);
    assert(whole == with_sheet(before, sheet.name@, row_views(sheet.rows@)));
    let head = if before.len() == 0 {
        before
    } else {
        before.push('\n')
    };
    if lines.len() > 0 {
        lemma_regroup(head, "Sheet: "@, sheet.name@);
        lemma_regroup(head, "Sheet: "@ + sheet.name@, "\n"@);
        lemma_regroup(head, "Sheet: "@ + sheet.name@ + "\n"@, lines);
        assert(whole == head + entry);
    }
    if index == count - 1 {
        lemma_between(head, entry, Seq::empty());
        assert(head + entry + Seq::<char>::empty() == whole);
    } else {
        lemma_sheet_in_text(sheets, count - 1, index);
        if lines.len() > 0 {
            let rest = if before.len() == 0 {
                entry
            } else {
                seq!['\n'] + entry
            };
            lemma_between(Seq::empty(), before, rest);
            assert(Seq::<char>::empty() + before + rest == whole);
            lemma_occurs_within(
                "Sheet: "@ + sheets[index].name@ + "\n"@ + row_lines(
                    row_views(sheets[index].rows@),
                    sheets[index].rows@.len() as int,
                ),
                before,
                whole,
            );
        }
    }
}

/// Every cell of every sheet that is not blank stands in the text of the workbook before it is
/// cleaned, behind the name of its sheet.
pub proof fn every_filled_cell_is_in_the_text(sheets: Seq<Sheet>, index: int, row: int, cell: int)
    requires
        0 <= index < sheets.len(),
        0 <= row < sheets[index].rows@.len(),
        0 <= cell < sheets[index].rows@[row]@.len(),
        !blank(sheets[index].rows@[row]@[cell]@),
    ensures
        occurs_in(
            "Sheet: "@ + sheets[index].name@ + "\n"@ + row_lines(
                row_views(sheets[index].rows@),
                sheets[index].rows@.len() as int,
            ),
            sheets_text(sheets, sheets.len() as int),
        ),
        occurs_in(
            sheets[index].rows@[row]@[cell]@,
            row_lines(row_views(sheets[index].rows@), sheets[index].rows@.len() as int),
        ),
        occurs_in(sheets[index].rows@[row]@[cell]@, sheets_text(sheets, sheets.len() as int)),
{
    let sheet = sheets[index];
    let rows = row_views(sheet.rows@);
    assert(rows[row] == texts(sheet.rows@[row]@));
    assert(rows[row][cell] == sheet.rows@[row]@[cell]@);
    lemma_cell_in_rows(rows, row, cell);
    lemma_sheet_in_text(sheets, sheets.len() as int, index);
    let lines = row_lines(rows, rows.len() as int);
    let head = "Sheet: "@ + sheet.name@ + "\n"@;
    lemma_between(head, lines, Seq::empty());
    assert(head + lines + Seq::<char>::empty() == head + lines);
    lemma_occurs_within(lines, head + lines, sheets_text(sheets, sheets.len() as int));
    lemma_occurs_within(rows[row][cell], lines, sheets_text(sheets, sheets.len() as int));
}

/// The text of a document that could be read is its cleaned text, and an error is handed on.
pub proof fn readings_are_cleaned(
    sheets: Vec<Sheet>,
    text: String,
    message: String,
)
    ensures
        workbook_text(Ok(sheets)) == Ok::<Seq<char>, Seq<char>>(
            cleaned(sheets_text(sheets@, sheets@.len() as int)),
        ),
        workbook_text(Err(message)) == Err::<Seq<char>, Seq<char>>(message@),
        pdf_text(Ok(text)) == Ok::<Seq<char>, Seq<char>>(cleaned(text@)),
        pdf_text(Err(message)) == Err::<Seq<char>, Seq<char>>(message@),
        reading_text(Reading::Pdf(Ok(text))) == pdf_text(Ok(text)),
        reading_text(Reading::Pdf(Err(message))) == pdf_text(Err(message)),
        reading_text(Reading::Workbook(Ok(sheets))) == workbook_text(Ok(sheets)),
        reading_text(Reading::Workbook(Err(message))) == workbook_text(Err(message)),
{
}

/// A document is found by its content and by what it is: the first reading that has both is taken,
/// and without one there is no text.
pub proof fn readings_are_found_by_content(
    read: Seq<ReadDocument>,
    kind: DocumentKind,
    content: Seq<u8>,
)
    ensures
        reading_of(read, kind, content) is None <==> forall|i: int|
            0 <= i < read.len() ==> !((#[trigger] read[i]).content@ == content && (
            read[i].reading is Pdf && kind is Pdf || read[i].reading is Workbook && kind is Xlsx)),
        reading_of(read, kind, content) is Some ==> exists|i: int|
            0 <= i < read.len() && Some((#[trigger] read[i]).reading) == reading_of(
                read,
                kind,
                content,
            ) && read[i].content@ == content && (read[i].reading is Pdf && kind is Pdf
                || read[i].reading is Workbook && kind is Xlsx) && forall|j: int|
                0 <= j < i ==> !((#[trigger] read[j]).content@ == content && (
                read[j].reading is Pdf && kind is Pdf || read[j].reading is Workbook
                    && kind is Xlsx)),
        reading_of(read, kind, content) is Some ==> read_text(read, kind, content) == reading_text(
            reading_of(read, kind, content)->0,
        ),
        reading_of(read, kind, content) is None ==> read_text(read, kind, content) == Err::<
            Seq<char>,
            Seq<char>,
        >("document has not been read"@),
    decreases read.len(),
{
    if read.len() > 0 {
        let rest = read.drop_first();
        readings_are_found_by_content(rest, kind, content);
        assert forall|i: int| 0 <= i < rest.len() implies #[trigger] rest[i] == read[i + 1] by {}
        assert forall|i: int| 1 <= i < read.len() implies #[trigger] read[i] == rest[i - 1] by {}
        if reading_of(read, kind, content) is Some && !(read[0].content@ == content && (
        read[0].reading is Pdf && kind is Pdf || read[0].reading is Workbook && kind is Xlsx)) {
            let i = choose|i: int|
                0 <= i < rest.len() && Some((#[trigger] rest[i]).reading) == reading_of(
                    rest,
                    kind,
                    content,
                ) && rest[i].content@ == content && (rest[i].reading is Pdf && kind is Pdf
                    || rest[i].reading is Workbook && kind is Xlsx) && forall|j: int|
                    0 <= j < i ==> !((#[trigger] rest[j]).content@ == content && (
                    rest[j].reading is Pdf && kind is Pdf || rest[j].reading is Workbook
                        && kind is Xlsx));
            assert(read[i + 1] == rest[i]);
            assert forall|j: int| 0 <= j < i + 1 implies !((#[trigger] read[j]).content@ == content
                && (read[j].reading is Pdf && kind is Pdf || read[j].reading is Workbook
                && kind is Xlsx)) by {
                if j > 0 {
                    assert(read[j] == rest[j - 1]);
                }
            }
        }
        if reading_of(read, kind, content) is None {
            assert forall|i: int| 0 <= i < read.len() implies !((#[trigger] read[i]).content@
                == content && (read[i].reading is Pdf && kind is Pdf || read[i].reading is Workbook
                && kind is Xlsx)) by {
                if i > 0 {
                    assert(read[i] == rest[i - 1]);
                }
            }
        }
        if forall|i: int|
            0 <= i < read.len() ==> !((#[trigger] read[i]).content@ == content && (
            read[i].reading is Pdf && kind is Pdf || read[i].reading is Workbook && kind is Xlsx)) {
            assert forall|i: int| 0 <= i < rest.len() implies !((#[trigger] rest[i]).content@
                == content && (rest[i].reading is Pdf && kind is Pdf || rest[i].reading is Workbook
                && kind is Xlsx)) by {
                assert(rest[i] == read[i + 1]);
            }
        }
    }
}

} // verus!
