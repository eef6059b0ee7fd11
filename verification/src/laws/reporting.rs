//! Laws on reports and lists.

use vstd::prelude::*;

use super::ranking::lemma_occurs_within;
use crate::candidate::FilePath;
use crate::rank::{RankedFile, RankedFileView};
use crate::report::{
    count_lines, file_views, padded, passage_lines, passages, path_texts, report_files,
    report_text, trimmed_end, CountEntry, SearchReport,
};
use crate::snippet::SnippetView;
use crate::text::{decimal, occurs_at, occurs_in, white_space};

verus! {

/// A part with something before and behind it occurs in the whole.
pub(crate) proof fn lemma_between(before: Seq<char>, part: Seq<char>, behind: Seq<char>)
    ensures
        occurs_in(part, before + part + behind),
{
    let whole = before + part + behind;
    assert(whole.subrange(before.len() as int, (before.len() + part.len()) as int) == part);
    assert(occurs_at(part, whole, before.len() as int));
}

/// A text without the white space at its end: what is left off is white space, and what stays has
/// none at its end.
pub proof fn only_white_space_is_trimmed(text: Seq<char>)
    ensures
        trimmed_end(text).len() <= text.len(),
        text.take(trimmed_end(text).len() as int) == trimmed_end(text),
        forall|i: int|
            trimmed_end(text).len() <= i < text.len() ==> white_space(#[trigger] text[i]),
        trimmed_end(text).len() > 0 ==> !white_space(trimmed_end(text).last()),
    decreases text.len(),
{
    if text.len() > 0 && white_space(text.last()) {
        let front = text.drop_last();
        only_white_space_is_trimmed(front);
        let length = trimmed_end(front).len() as int;
        assert(front.take(length) == text.take(length));
        assert forall|i: int| length <= i < text.len() implies white_space(#[trigger] text[i]) by {
            if i < front.len() {
                assert(front[i] == text[i]);
            }
        }
    } else {
        assert(text.take(text.len() as int) == text);
    }
}

/// A number stands at the end of at least six places, with nothing but spaces before it.
pub proof fn numbers_are_padded_with_spaces(number: nat)
    ensures
        padded(number).len() == if decimal(number).len() < 6 {
            6
        } else {
            decimal(number).len()
        },
        padded(number).skip(padded(number).len() - decimal(number).len()) == decimal(number),
        forall|i: int|
            0 <= i < padded(number).len() - decimal(number).len() ==> #[trigger] padded(number)[i]
                == ' ',
{
}

/// Texts behind one another, however they are grouped.
pub(crate) proof fn lemma_regroup(first: Seq<char>, second: Seq<char>, third: Seq<char>)
    ensures
        first + second + third == first + (second + third),
{
}

/// A line of a passage behind other text.
proof fn lemma_line_behind(before: Seq<char>, number: nat, text: Seq<char>)
    ensures
        before + "    "@ + padded(number) + " | "@ + text + "\n"@ == before + ("    "@ + padded(number)
            + " | "@ + text + "\n"@),
{
    let numbered = "    "@ + padded(number);
    lemma_regroup(before, "    "@, padded(number));
    let barred = numbered + " | "@;
    lemma_regroup(before, numbered, " | "@);
    let written = barred + text;
    lemma_regroup(before, barred, text);
    lemma_regroup(before, written, "\n"@);
}

/// A passage behind other text.
proof fn lemma_passage_behind(before: Seq<char>, snippet: SnippetView)
    ensures
        before + "  snippet "@ + decimal(snippet.start_line as nat) + "-"@ + decimal(
            snippet.end_line as nat,
        ) + " score="@ + snippet.score_text + "\n"@ + passage_lines(snippet.lines) == before + (
        "  snippet "@ + decimal(snippet.start_line as nat) + "-"@ + decimal(snippet.end_line as nat)
            + " score="@ + snippet.score_text + "\n"@ + passage_lines(snippet.lines)),
{
    let start = "  snippet "@ + decimal(snippet.start_line as nat);
    lemma_regroup(before, "  snippet "@, decimal(snippet.start_line as nat));
    let dash = start + "-"@;
    lemma_regroup(before, start, "-"@);
    let end = dash + decimal(snippet.end_line as nat);
    lemma_regroup(before, dash, decimal(snippet.end_line as nat));
    let score = end + " score="@;
    lemma_regroup(before, end, " score="@);
    let scored = score + snippet.score_text;
    lemma_regroup(before, score, snippet.score_text);
    let ended = scored + "\n"@;
    lemma_regroup(before, scored, "\n"@);
    lemma_regroup(before, ended, passage_lines(snippet.lines));
}

/// The lines of a passage are printed in order, one behind the other: four spaces, the padded line
/// number, a bar and the text of the line.
pub proof fn passage_lines_are_printed_in_order(
    first: Seq<(usize, Seq<char>)>,
    second: Seq<(usize, Seq<char>)>,
)
    ensures
        passage_lines(first + second) == passage_lines(first) + passage_lines(second),
        passage_lines(Seq::<(usize, Seq<char>)>::empty()) == Seq::<char>::empty(),
        first.len() == 1 ==> passage_lines(first) == "    "@ + padded(first[0].0 as nat) + " | "@
            + first[0].1 + "\n"@,
    decreases second.len(),
{
    if first.len() == 1 {
        assert(first.drop_last() == Seq::<(usize, Seq<char>)>::empty());
        assert(passage_lines(first.drop_last()) == Seq::<char>::empty());
        lemma_line_behind(Seq::empty(), first[0].0 as nat, first[0].1);
    }
    if second.len() == 0 {
        assert(first + second == first);
        assert(passage_lines(first) + Seq::<char>::empty() == passage_lines(first));
    } else {
        let front = second.drop_last();
        let line = second.last();
        passage_lines_are_printed_in_order(first, front);
        assert((first + second).drop_last() == first + front);
        assert((first + second).last() == line);
        let own = "    "@ + padded(line.0 as nat) + " | "@ + line.1 + "\n"@;
        lemma_line_behind(passage_lines(first + front), line.0 as nat, line.1);
        lemma_line_behind(passage_lines(front), line.0 as nat, line.1);
        lemma_regroup(passage_lines(first), passage_lines(front), own);
    }
}

/// The passages of a file are printed in order, one behind the other: the lines it spans and its
/// score, and below them its lines.
pub proof fn passages_are_printed_in_order(first: Seq<SnippetView>, second: Seq<SnippetView>)
    ensures
        passages(first + second) == passages(first) + passages(second),
        passages(Seq::<SnippetView>::empty()) == Seq::<char>::empty(),
        first.len() == 1 ==> passages(first) == "  snippet "@ + decimal(
            first[0].start_line as nat,
        ) + "-"@ + decimal(first[0].end_line as nat) + " score="@ + first[0].score_text + "\n"@
            + passage_lines(first[0].lines),
    decreases second.len(),
{
    if first.len() == 1 {
        assert(first.drop_last() == Seq::<SnippetView>::empty());
        assert(passages(first.drop_last()) == Seq::<char>::empty());
        lemma_passage_behind(Seq::empty(), first[0]);
    }
    if second.len() == 0 {
        assert(first + second == first);
        assert(passages(first) + Seq::<char>::empty() == passages(first));
    } else {
        let front = second.drop_last();
        let snippet = second.last();
        passages_are_printed_in_order(first, front);
        assert((first + second).drop_last() == first + front);
        assert((first + second).last() == snippet);
        let own = "  snippet "@ + decimal(snippet.start_line as nat) + "-"@ + decimal(
            snippet.end_line as nat,
        ) + " score="@ + snippet.score_text + "\n"@ + passage_lines(snippet.lines);
        lemma_passage_behind(passages(first + front), snippet);
        lemma_passage_behind(passages(front), snippet);
        lemma_regroup(passages(first), passages(front), own);
    }
}

/// The entry of a ranked file behind other text.
proof fn lemma_entry_behind(before: Seq<char>, file: RankedFileView, told: nat)
    ensures
        before + "\n"@ + file.path + "\n  score="@ + file.score_text + " matched_terms="@ + decimal(
            file.matched_terms,
        ) + "/"@ + decimal(told) + " match_lines="@ + decimal(file.match_count) + "\n"@ + passages(
            file.snippets,
        ) == before + ("\n"@ + file.path + "\n  score="@ + file.score_text + " matched_terms="@
            + decimal(file.matched_terms) + "/"@ + decimal(told) + " match_lines="@ + decimal(
            file.match_count,
        ) + "\n"@ + passages(file.snippets)),
{
    let path = "\n"@ + file.path;
    lemma_regroup(before, "\n"@, file.path);
    let score = path + "\n  score="@;
    lemma_regroup(before, path, "\n  score="@);
    let scored = score + file.score_text;
    lemma_regroup(before, score, file.score_text);
    let terms = scored + " matched_terms="@;
    lemma_regroup(before, scored, " matched_terms="@);
    let matched = terms + decimal(file.matched_terms);
    lemma_regroup(before, terms, decimal(file.matched_terms));
    let of = matched + "/"@;
    lemma_regroup(before, matched, "/"@);
    let total = of + decimal(told);
    lemma_regroup(before, of, decimal(told));
    let lines = total + " match_lines="@;
    lemma_regroup(before, total, " match_lines="@);
    let counted = lines + decimal(file.match_count);
    lemma_regroup(before, lines, decimal(file.match_count));
    let ended = counted + "\n"@;
    lemma_regroup(before, counted, "\n"@);
    lemma_regroup(before, ended, passages(file.snippets));
}

/// The files of a report are printed in order, one behind the other: an empty line, the path, the
/// score, how many of the terms are matched, how many lines match, and the passages.
pub proof fn files_are_printed_in_order(
    first: Seq<RankedFileView>,
    second: Seq<RankedFileView>,
    total_terms: usize,
)
    ensures
        report_files(first + second, total_terms) == report_files(first, total_terms)
            + report_files(second, total_terms),
        report_files(Seq::<RankedFileView>::empty(), total_terms) == Seq::<char>::empty(),
        first.len() == 1 && total_terms > 0 ==> report_files(first, total_terms) == "\n"@
            + first[0].path + "\n  score="@ + first[0].score_text + " matched_terms="@ + decimal(
            first[0].matched_terms,
        ) + "/"@ + decimal(total_terms as nat) + " match_lines="@ + decimal(first[0].match_count)
            + "\n"@ + passages(first[0].snippets),
        first.len() == 1 && total_terms == 0 ==> report_files(first, total_terms) == "\n"@
            + first[0].path + "\n  score="@ + first[0].score_text + " matched_terms="@ + decimal(
            first[0].matched_terms,
        ) + "/"@ + decimal(1) + " match_lines="@ + decimal(first[0].match_count) + "\n"@
            + passages(first[0].snippets),
    decreases second.len(),
{
    if first.len() == 1 {
        assert(first.drop_last() == Seq::<RankedFileView>::empty());
        assert(report_files(first.drop_last(), total_terms) == Seq::<char>::empty());
        lemma_entry_behind(
            Seq::empty(),
            first.last(),
            crate::report::terms_told(total_terms),
        );
    }
    if second.len() == 0 {
        assert(first + second == first);
        assert(report_files(first, total_terms) + Seq::<char>::empty() == report_files(
            first,
            total_terms,
        ));
    } else {
        let front = second.drop_last();
        let file = second.last();
        files_are_printed_in_order(first, front, total_terms);
        assert((first + second).drop_last() == first + front);
        assert((first + second).last() == file);
        let own = "\n"@ + file.path + "\n  score="@ + file.score_text + " matched_terms="@
            + decimal(file.matched_terms) + "/"@ + decimal(
            crate::report::terms_told(total_terms),
        ) + " match_lines="@ + decimal(file.match_count) + "\n"@ + passages(file.snippets);
        let told = crate::report::terms_told(total_terms);
        lemma_entry_behind(report_files(first + front, total_terms), file, told);
        lemma_entry_behind(report_files(front, total_terms), file, told);
        lemma_regroup(report_files(first, total_terms), report_files(front, total_terms), own);
    }
}

/// Every ranked file has its entry in the report: its path, its score, its counts and its passages
/// stand in the text of the files.
pub proof fn every_file_is_in_the_report(
    results: Seq<RankedFileView>,
    total_terms: usize,
    index: int,
)
    requires
        0 <= index < results.len(),
    ensures
        occurs_in(
            "\n"@ + results[index].path + "\n  score="@ + results[index].score_text
                + " matched_terms="@ + decimal(results[index].matched_terms) + "/"@ + decimal(
                if total_terms == 0 {
                    1
                } else {
                    total_terms as nat
                },
            ) + " match_lines="@ + decimal(results[index].match_count) + "\n"@ + passages(
                results[index].snippets,
            ),
            report_files(results, total_terms),
        ),
{
    let before = results.take(index);
    let own = seq![results[index]];
    let behind = results.skip(index + 1);
    files_are_printed_in_order(before, own, total_terms);
    files_are_printed_in_order(before + own, behind, total_terms);
    files_are_printed_in_order(own, behind, total_terms);
    assert(before + own + behind == results);
    assert(own[0] == results[index]);
    lemma_between(
        report_files(before, total_terms),
        report_files(own, total_terms),
        report_files(behind, total_terms),
    );
}

/// Every passage of a ranked file stands in its entry, and every line of the passage in the passage.
pub proof fn every_passage_is_printed(snippets: Seq<SnippetView>, index: int, line: int)
    requires
        0 <= index < snippets.len(),
        0 <= line < snippets[index].lines.len(),
    ensures
        occurs_in(passage_lines(snippets[index].lines), passages(snippets)),
        occurs_in(
            "    "@ + padded(snippets[index].lines[line].0 as nat) + " | "@
                + snippets[index].lines[line].1 + "\n"@,
            passages(snippets),
        ),
{
    let before = snippets.take(index);
    let own = seq![snippets[index]];
    let behind = snippets.skip(index + 1);
    passages_are_printed_in_order(before, own);
    passages_are_printed_in_order(before + own, behind);
    passages_are_printed_in_order(own, behind);
    assert(before + own + behind == snippets);
    assert(own[0] == snippets[index]);
    lemma_between(passages(before), passages(own), passages(behind));
    let snippet = snippets[index];
    let head = "  snippet "@ + decimal(snippet.start_line as nat) + "-"@ + decimal(
        snippet.end_line as nat,
    ) + " score="@ + snippet.score_text + "\n"@;
    lemma_between(head, passage_lines(snippet.lines), Seq::empty());
    assert(head + passage_lines(snippet.lines) + Seq::empty() == passages(own));
    lemma_occurs_within(passage_lines(snippet.lines), passages(own), passages(snippets));
    let lines = snippet.lines;
    let earlier = lines.take(line);
    let this = seq![lines[line]];
    let later = lines.skip(line + 1);
    passage_lines_are_printed_in_order(earlier, this);
    passage_lines_are_printed_in_order(earlier + this, later);
    passage_lines_are_printed_in_order(this, later);
    assert(earlier + this + later == lines);
    assert(this[0] == lines[line]);
    lemma_between(passage_lines(earlier), passage_lines(this), passage_lines(later));
    lemma_occurs_within(passage_lines(this), passage_lines(lines), passages(snippets));
}

/// A report begins with the query and the numbers of the search, tells the number of results, and
/// has the ranked files behind them, all of them in rank order; only white space at its end is left
/// off.
pub proof fn a_report_holds_numbers_and_files(
    report: SearchReport,
    files: Seq<RankedFileView>,
    whole: Seq<char>,
)
    requires
        files.len() == report.results@.len(),
        forall|i: int| 0 <= i < files.len() ==> #[trigger] files[i] == report.results@[i]@,
        whole == "query: "@ + report.query@ + "\nscanned_files: "@ + decimal(
            report.scanned_files as nat,
        ) + "\ncandidate_lines: "@ + decimal(report.candidate_lines as nat) + (
        if report.truncated {
            " (truncated at candidate limit)"@
        } else {
            ""@
        }) + "\n"@ + "results: "@ + decimal(files.len()) + "\n"@ + report_files(
            files,
            report.total_terms,
        ),
    ensures
        report_text(report).len() <= whole.len(),
        report_text(report) == whole.take(report_text(report).len() as int),
        forall|i: int|
            report_text(report).len() <= i < whole.len() ==> white_space(#[trigger] whole[i]),
        files.len() == 0 ==> report_text(report) == whole,
        files.len() > 0 ==> report_text(report).len() == 0 || !white_space(
            report_text(report).last(),
        ),
{
    assert(files == file_views(report.results@));
    if files.len() > 0 {
        assert(report_text(report) == trimmed_end(whole));
        only_white_space_is_trimmed(whole);
    } else {
        reveal_strlit("results: ");
        reveal_strlit("results: 0\n");
        reveal_strlit("\n");
        assert(decimal(0) == seq!['0']);
        assert(report_files(files, report.total_terms) == Seq::<char>::empty());
        assert(report_text(report) == whole);
        assert(whole.take(whole.len() as int) == whole);
    }
}

/// A ranked file is shown with its own path, numbers and passages.
pub proof fn a_ranked_file_shows_its_fields(file: RankedFile)
    ensures
        file@.path == file.path.text@,
        file@.matched_terms == file.matched_terms,
        file@.match_count == file.match_count,
        file@.snippets.len() == file.snippets@.len(),
        forall|i: int|
            0 <= i < file.snippets@.len() ==> #[trigger] file@.snippets[i] == file.snippets@[i]@,
{
}

/// A list of counts has a line for each, in order: the count, behind the path and a colon where
/// paths are shown. A list of paths has a line for each, in order.
pub proof fn lists_have_a_line_for_each(
    counts: Seq<CountEntry>,
    files: Seq<FilePath>,
    show_path: bool,
)
    ensures
        count_lines(counts, show_path).len() == counts.len(),
        forall|i: int|
            0 <= i < counts.len() && show_path ==> #[trigger] count_lines(counts, show_path)[i]
                == counts[i].path.text@ + ":"@ + decimal(counts[i].count as nat),
        forall|i: int|
            0 <= i < counts.len() && !show_path ==> #[trigger] count_lines(counts, show_path)[i]
                == decimal(counts[i].count as nat),
        path_texts(files).len() == files.len(),
        forall|i: int|
            0 <= i < files.len() ==> #[trigger] path_texts(files)[i] == files[i].text@,
{
}

} // verus!
