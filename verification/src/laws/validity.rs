//! Laws on what makes values valid, and on how they are viewed.

use vstd::prelude::*;

use crate::around::{around_views, AroundLine};
use crate::blocks::{block_views, event_line, event_lines, line_views, OutputBlock, OutputLine};
use crate::bytes::cuts_text;
use crate::candidate::{lines_fit, FileCandidate, LineMatchRecord};
use crate::cli::Cli;
use crate::collect::{found_counts, FoundFile};
use crate::containers::tar_overflows;
use crate::json::{result_cuts, spans_cut};
use crate::matcher::{numbers_ascend, FoundLine};
use crate::rank::{scores_fit, snippet_views, FileScore};
use crate::reading::{document_views, row_views, Document};
use crate::report::SearchReport;
use crate::run::{printable, SearchResults};
use crate::search::one_more;
use crate::sinks::{JsonFileResult, MatchEvent};
use crate::snippet::{has_lines, limited, spans_of, Snippet};
use crate::standard::{
    events_fit, shows_heading, shows_line_numbers, spans_fit, Surroundings,
};
use crate::text::texts;
use vstd::utf8::{encode_utf8, is_char_boundary};

verus! {

/// Matches lie within a text exactly where each ends no earlier than it starts, and no later than
/// the text.
pub proof fn matches_lie_within_their_text(text: Seq<char>, spans: Seq<(usize, usize)>)
    ensures
        spans_fit(text, spans) <==> forall|i: int|
            0 <= i < spans.len() ==> (#[trigger] spans[i]).0 <= spans[i].1 && spans[i].1
                <= encode_utf8(text).len(),
        spans_cut(text, spans) <==> forall|i: int|
            0 <= i < spans.len() ==> (#[trigger] spans[i]).0 <= spans[i].1 && is_char_boundary(
                encode_utf8(text),
                spans[i].0 as int,
            ) && is_char_boundary(encode_utf8(text), spans[i].1 as int),
{
    if forall|i: int|
        0 <= i < spans.len() ==> (#[trigger] spans[i]).0 <= spans[i].1 && is_char_boundary(
            encode_utf8(text),
            spans[i].0 as int,
        ) && is_char_boundary(encode_utf8(text), spans[i].1 as int) {
        assert forall|i: int| 0 <= i < spans.len() implies cuts_text(
            text,
            (#[trigger] spans[i]).0 as int,
            spans[i].1 as int,
        ) by {}
    }
    if spans_cut(text, spans) {
        assert forall|i: int| 0 <= i < spans.len() implies (#[trigger] spans[i]).0 <= spans[i].1
            && is_char_boundary(encode_utf8(text), spans[i].0 as int) && is_char_boundary(
            encode_utf8(text),
            spans[i].1 as int,
        ) by {
            assert(cuts_text(text, spans[i].0 as int, spans[i].1 as int));
        }
    }
}

/// Events, blocks and files are valid exactly where the matches of each of their lines are.
pub proof fn valid_lines_make_valid_output(events: Seq<MatchEvent>, result: JsonFileResult)
    ensures
        events_fit(events) <==> forall|i: int|
            0 <= i < events.len() ==> spans_fit(
                (#[trigger] events[i]).text@,
                events[i].submatches@,
            ),
        result_cuts(result) <==> forall|i: int|
            0 <= i < result.events@.len() ==> spans_cut(
                (#[trigger] result.events@[i]).text@,
                result.events@[i].submatches@,
            ),
{
    if events_fit(events) {
        assert forall|i: int| 0 <= i < events.len() implies spans_fit(
            (#[trigger] events[i]).text@,
            events[i].submatches@,
        ) by {
            assert(crate::standard::event_fits(events[i]));
        }
    }
    if result_cuts(result) {
        assert forall|i: int| 0 <= i < result.events@.len() implies spans_cut(
            (#[trigger] result.events@[i]).text@,
            result.events@[i].submatches@,
        ) by {
            assert(crate::json::event_cuts(result.events@[i]));
        }
    }
}

/// Results can be printed where the matches of the lines lie within them and the lines of a file are
/// told, or told to be missing, for each run of one path.
pub proof fn results_can_be_printed(
    events: Vec<MatchEvent>,
    file_lines: Vec<Option<Vec<String>>>,
    report: SearchReport,
)
    ensures
        printable(SearchResults::Standard(events, file_lines)) <==> events_fit(events@)
            && file_lines@.len() == crate::blocks::path_runs(events@).len(),
        printable(SearchResults::Ranked(report)),
{
}

/// Numbers of lines begin with one and ascend.
pub proof fn numbers_of_lines_ascend(lines: Seq<FoundLine>)
    ensures
        numbers_ascend(lines) <==> (forall|i: int|
            0 <= i < lines.len() ==> (#[trigger] lines[i]).number >= 1) && (forall|
            i: int,
            j: int,
        |
            0 <= i < j < lines.len() ==> (#[trigger] lines[i]).number < (
            #[trigger] lines[j]).number),
{
}

/// Lines belong to a query where each has a number and names terms that the query has.
pub proof fn lines_name_terms_of_their_query(lines: Seq<LineMatchRecord>, term_count: nat)
    ensures
        lines_fit(lines, term_count) <==> forall|line: int|
            0 <= line < lines.len() ==> (#[trigger] lines[line]).line_number >= 1 && forall|
                i: int,
            |
                0 <= i < lines[line].matched_terms@.len() ==> #[trigger] lines[
                line].matched_terms@[i] < term_count,
{
    if lines_fit(lines, term_count) {
        assert forall|line: int| 0 <= line < lines.len() implies (#[trigger] lines[
            line
        ]).line_number >= 1 && forall|i: int|
            0 <= i < lines[line].matched_terms@.len() ==> #[trigger] lines[line].matched_terms@[i]
                < term_count by {
            assert(crate::candidate::line_fits(lines[line], term_count));
        }
    }
}

/// There is a score for each candidate and for each of its lines.
pub proof fn every_line_has_a_score(candidates: Seq<FileCandidate>, scores: Seq<FileScore>)
    ensures
        scores_fit(candidates, scores) <==> scores.len() == candidates.len() && forall|i: int|
            0 <= i < scores.len() ==> (#[trigger] scores[i]).lines@.len()
                == candidates[i].matches@.len(),
{
}

/// A tar archive is not read where a block may be the header of a sparse file whose map goes on, and
/// a size of at least 2 to the 63 is told in that header or in an extension record.
pub proof fn tar_archives_with_great_sizes_are_not_read(content: Seq<u8>)
    ensures
        (exists|block: int|
            0 <= block && block * 512 + 512 <= content.len() && content[block * 512 + 156] == 0x53
                && content[block * 512 + 482] == 1 && #[trigger] content[block * 512 + 124] >= 0x80
                && content[block * 512 + 128] >= 0x80) ==> tar_overflows(content),
        (forall|block: int|
            0 <= block && block * 512 + 512 <= content.len() ==> content[block * 512 + 482] != 1
                || #[trigger] content[block * 512 + 156] != 0x53) ==> !tar_overflows(content),
        (forall|block: int|
            0 <= block && block * 512 + 512 <= content.len() ==> content[block * 512 + 128] < 0x80
                || #[trigger] content[block * 512 + 124] < 0x80) && (forall|at: int|
            0 <= at && at + 5 <= content.len() ==> #[trigger] content[at] != 's' as u8 || content[at
                + 1] != 'i' as u8 || content[at + 2] != 'z' as u8 || content[at + 3] != 'e' as u8
                || content[at + 4] != '=' as u8) ==> !tar_overflows(content),
        content.len() < 512 ==> !tar_overflows(content),
{
    if exists|block: int|
        0 <= block && block * 512 + 512 <= content.len() && content[block * 512 + 156] == 0x53
            && content[block * 512 + 482] == 1 && #[trigger] content[block * 512 + 124] >= 0x80
            && content[block * 512 + 128] >= 0x80 {
        let block = choose|block: int|
            0 <= block && block * 512 + 512 <= content.len() && content[block * 512 + 156] == 0x53
                && content[block * 512 + 482] == 1 && #[trigger] content[block * 512 + 124] >= 0x80
                && content[block * 512 + 128] >= 0x80;
        assert(crate::containers::overflows_at(content, block));
    }
    if tar_overflows(content) {
        let block = choose|block: int| #[trigger] crate::containers::overflows_at(content, block);
        assert(content[block * 512 + 156] == 0x53);
        if crate::containers::has_huge_record(content) {
            let at = choose|at: int| #[trigger] crate::containers::huge_record_at(content, at);
            assert(content[at] == 's' as u8);
        } else {
            assert(content[block * 512 + 124] >= 0x80);
        }
    }
}

/// Line numbers are shown where they, columns or lines around matches are asked for; headings where
/// they are asked for and paths are shown.
pub proof fn numbers_and_headings_are_shown(cli: Cli, around: Surroundings)
    ensures
        shows_line_numbers(cli) <==> cli.line_numbers || cli.show_column || cli.before_context > 0
            || cli.after_context > 0,
        shows_heading(cli, around) <==> cli.heading && !(cli.roots@.len() == 1
            && around.first_root_is_file),
{
}

/// The lines of a file are at hand where there is at least one; without them, the first passages are
/// shown, up to the limit.
pub proof fn passages_are_limited(lines: Vec<String>, length: nat, limit: usize)
    ensures
        !has_lines(None),
        has_lines(Some(lines)) <==> lines@.len() > 0,
        limited(length, limit) <= length,
        limited(length, limit) <= limit,
        limited(length, limit) == length || limited(length, limit) == limit,
{
}

/// A count grows by one, up to the greatest there is.
pub proof fn counts_grow_by_one(number: usize)
    ensures
        number < usize::MAX ==> one_more(number) == number + 1,
        one_more(usize::MAX) == usize::MAX,
{
}

/// Lists are viewed item by item, in order.
pub proof fn lists_are_viewed_item_by_item(
    list: Seq<String>,
    lines: Seq<OutputLine>,
    blocks: Seq<OutputBlock>,
    snippets: Seq<Snippet>,
    around: Seq<AroundLine>,
    found: Seq<FoundLine>,
    files: Seq<FoundFile>,
    rows: Seq<Vec<String>>,
    documents: Seq<Document>,
    events: Seq<MatchEvent>,
    index: int,
)
    ensures
        texts(list).len() == list.len(),
        0 <= index < list.len() ==> texts(list)[index] == list[index]@,
        line_views(lines).len() == lines.len(),
        0 <= index < lines.len() ==> line_views(lines)[index].text == lines[index].text@
            && line_views(lines)[index].line_number == lines[index].line_number && line_views(
            lines,
        )[index].column == lines[index].column && line_views(lines)[index].submatches
            == lines[index].submatches@ && line_views(lines)[index].is_match
            == lines[index].is_match,
        block_views(blocks).len() == blocks.len(),
        0 <= index < blocks.len() ==> block_views(blocks)[index].path == blocks[index].path
            && block_views(blocks)[index].lines == line_views(blocks[index].lines@),
        snippet_views(snippets).len() == snippets.len(),
        0 <= index < snippets.len() ==> snippet_views(snippets)[index].start_line
            == snippets[index].start_line && snippet_views(snippets)[index].end_line
            == snippets[index].end_line && snippet_views(snippets)[index].score_text
            == snippets[index].score.text@ && snippet_views(snippets)[index].lines.len()
            == snippets[index].lines@.len(),
        spans_of(snippets).len() == snippets.len(),
        0 <= index < snippets.len() ==> spans_of(snippets)[index] == (
            snippets[index].start_line,
            snippets[index].end_line,
        ),
        around_views(around).len() == around.len(),
        0 <= index < around.len() ==> around_views(around)[index] == (
            around[index].is_match,
            around[index].number,
            around[index].offset,
            around[index].bytes@,
        ),
        crate::matcher::line_views(found).len() == found.len(),
        0 <= index < found.len() ==> crate::matcher::line_views(found)[index] == (
            found[index].number,
            found[index].bytes@,
        ),
        found_counts(files).len() == files.len(),
        0 <= index < files.len() && files[index].found is None ==> found_counts(files)[index]
            is None,
        0 <= index < files.len() && files[index].found is Some ==> found_counts(files)[index]
            == Some(files[index].found->0@.len()),
        row_views(rows).len() == rows.len(),
        0 <= index < rows.len() ==> row_views(rows)[index] == texts(rows[index]@),
        document_views(documents).len() == documents.len(),
        0 <= index < documents.len() ==> document_views(documents)[index] == (
            documents[index].kind,
            documents[index].content@,
        ),
        event_lines(events).len() == events.len(),
        0 <= index < events.len() ==> event_lines(events)[index] == event_line(events[index])
            && event_line(events[index]).is_match && event_line(events[index]).text
            == events[index].text@ && event_line(events[index]).line_number
            == events[index].line_number && event_line(events[index]).column
            == events[index].column && event_line(events[index]).submatches
            == events[index].submatches@,
{
}

} // verus!
