//! Reports: ranked files with passages, lists of files, and counts.

use vstd::prelude::*;

use crate::candidate::FilePath;
use crate::cli::Cli;
use crate::rank::{snippet_views, RankedFile, RankedFileView};
use crate::snippet::{numbered, Snippet, SnippetView};
use crate::standard::{show_path_in_standard_output, shows_path};
use crate::text::{
    chars_of, decimal, decimal_text, is_white_space, join, joined, text_of, texts, white_space,
};

verus! {

/// What a ranked search came to.
#[derive(Debug, Clone)]
pub struct SearchReport {
    /// The query, as it was given.
    pub query: String,
    /// The number of terms of the query.
    pub total_terms: usize,
    /// The number of files searched.
    pub scanned_files: usize,
    /// The number of matched lines collected.
    pub candidate_lines: usize,
    /// Whether the limit on matched lines stopped the collection.
    pub truncated: bool,
    /// The ranked files.
    pub results: Vec<RankedFile>,
}

/// The number of matches in a file.
#[derive(Debug, Clone)]
pub struct CountEntry {
    /// The path of the file.
    pub path: FilePath,
    /// The number of lines that match.
    pub count: usize,
}

/// A text without the white space at its end.
pub open spec fn trimmed_end(text: Seq<char>) -> Seq<char>
    decreases text.len(),
{
    if text.len() > 0 && white_space(text.last()) {
        trimmed_end(text.drop_last())
    } else {
        text
    }
}

/// A text without the white space at its end.
pub fn trim_end(text: &str) -> (trimmed: String)
    ensures
        trimmed@ == trimmed_end(text@),
{
    let characters = chars_of(text);
    let mut end: usize = characters.len();
    assert(text@.take(end as int) == text@);
    while end > 0 && is_white_space(characters[end - 1])
        invariant
            characters@ == text@,
            end <= text@.len(),
            trimmed_end(text@.take(end as int)) == trimmed_end(text@),
        decreases end,
    {
        assert(text@.take(end as int).drop_last() == text@.take(end - 1));
        end = end - 1;
    }
    assert(end > 0 ==> text@.take(end as int).last() == text@[end - 1]);
    text_of(&characters, 0, end)
}

/// So many spaces.
pub open spec fn spaces(count: nat) -> Seq<char> {
    Seq::new(count, |i: int| ' ')
}

/// A number at the end of six places; a longer one takes the places that it needs.
pub open spec fn padded(number: nat) -> Seq<char> {
    let digits = decimal(number);
    if digits.len() < 6 {
        spaces((6 - digits.len()) as nat) + digits
    } else {
        digits
    }
}

/// A number at the end of six places.
pub fn padded_number(number: usize) -> (text: String)
    ensures
        text@ == padded(number as nat),
{
    let digits = decimal_text(number as u128);
    let length: usize = chars_of(digits.as_str()).len();
    let mut text = String::new();
    let mut at: usize = length;
    assert(text@ == spaces(0));
    while at < 6
        invariant
            length <= at,
            length < 6 ==> at <= 6,
            length >= 6 ==> at == length,
            text@ == spaces((at - length) as nat),
        decreases 6 - at,
    {
        text.push(' ');
        at = at + 1;
        assert(spaces((at - length) as nat) == spaces((at - 1 - length) as nat).push(' '));
    }
    text.append(digits.as_str());
    assert(Seq::<char>::empty() + digits@ == digits@);
    assert(length >= 6 ==> spaces(0) + digits@ == digits@);
    text
}

/// The lines of a passage, as they are printed.
pub open spec fn passage_lines(lines: Seq<(usize, Seq<char>)>) -> Seq<char>
    decreases lines.len(),
{
    if lines.len() == 0 {
        Seq::empty()
    } else {
        let line = lines.last();
        passage_lines(lines.drop_last()) + "    "@ + padded(line.0 as nat) + " | "@ + line.1
            + "\n"@
    }
}

/// The passages of a file, as they are printed.
pub open spec fn passages(snippets: Seq<SnippetView>) -> Seq<char>
    decreases snippets.len(),
{
    if snippets.len() == 0 {
        Seq::empty()
    } else {
        let snippet = snippets.last();
        passages(snippets.drop_last()) + "  snippet "@ + decimal(snippet.start_line as nat) + "-"@
            + decimal(snippet.end_line as nat) + " score="@ + snippet.score_text + "\n"@
            + passage_lines(snippet.lines)
    }
}

/// The greater of a number of terms and one.
pub open spec fn terms_told(total_terms: usize) -> nat {
    if total_terms == 0 {
        1
    } else {
        total_terms as nat
    }
}

/// The ranked files, as they are printed.
pub open spec fn report_files(results: Seq<RankedFileView>, total_terms: usize) -> Seq<char>
    decreases results.len(),
{
    if results.len() == 0 {
        Seq::empty()
    } else {
        let result = results.last();
        report_files(results.drop_last(), total_terms) + "\n"@ + result.path + "\n  score="@
            + result.score_text + " matched_terms="@ + decimal(result.matched_terms) + "/"@
            + decimal(terms_told(total_terms)) + " match_lines="@ + decimal(result.match_count)
            + "\n"@ + passages(result.snippets)
    }
}

/// Ranked files, with texts as sequences of characters.
pub open spec fn file_views(results: Seq<RankedFile>) -> Seq<RankedFileView> {
    Seq::new(results.len(), |i: int| results[i]@)
}

/// The first lines of a report.
pub open spec fn report_header(report: SearchReport) -> Seq<char> {
    "query: "@ + report.query@ + "\nscanned_files: "@ + decimal(report.scanned_files as nat)
        + "\ncandidate_lines: "@ + decimal(report.candidate_lines as nat) + (if report.truncated {
        " (truncated at candidate limit)"@
    } else {
        ""@
    }) + "\n"@
}

/// A report, as it is printed.
pub open spec fn report_text(report: SearchReport) -> Seq<char> {
    if report.results@.len() == 0 {
        report_header(report) + "results: 0\n"@
    } else {
        trimmed_end(
            report_header(report) + "results: "@ + decimal(report.results@.len()) + "\n"@
                + report_files(file_views(report.results@), report.total_terms),
        )
    }
}

/// Prints the lines of a passage behind the text at hand.
fn print_passage_lines(snippet: &Snippet, output: &mut String)
    ensures
        final(output)@ == old(output)@ + passage_lines(snippet@.lines),
{
    let ghost lines = snippet@.lines;
    let mut at: usize = 0;
    assert(output@ == old(output)@ + passage_lines(lines.take(0)));
    while at < snippet.lines.len()
        invariant
            lines == numbered(snippet.lines@),
            at <= snippet.lines@.len(),
            output@ == old(output)@ + passage_lines(lines.take(at as int)),
        decreases snippet.lines@.len() - at,
    {
        let line = &snippet.lines[at];
        let number = padded_number(line.0);
        let ghost before = output@;
        output.append("    ");
        output.append(number.as_str());
        output.append(" | ");
        output.append(line.1.as_str());
        output.append("\n");
        proof {
            let done = lines.take(at + 1);
            assert(done.drop_last() == lines.take(at as int));
            assert(done.last() == (line.0, line.1@));
            assert(output@ == old(output)@ + passage_lines(done));
        }
        at = at + 1;
    }
    assert(lines.take(at as int) == lines);
}

/// Prints the passages of a file behind the text at hand.
fn print_passages(snippets: &Vec<Snippet>, output: &mut String)
    ensures
        final(output)@ == old(output)@ + passages(snippet_views(snippets@)),
{
    let ghost views = snippet_views(snippets@);
    let mut at: usize = 0;
    assert(output@ == old(output)@ + passages(views.take(0)));
    while at < snippets.len()
        invariant
            views == snippet_views(snippets@),
            at <= snippets@.len(),
            output@ == old(output)@ + passages(views.take(at as int)),
        decreases snippets@.len() - at,
    {
        let snippet = &snippets[at];
        let start = decimal_text(snippet.start_line as u128);
        let end = decimal_text(snippet.end_line as u128);
        output.append("  snippet ");
        output.append(start.as_str());
        output.append("-");
        output.append(end.as_str());
        output.append(" score=");
        output.append(snippet.score.text.as_str());
        output.append("\n");
        print_passage_lines(snippet, output);
        proof {
            let done = views.take(at + 1);
            assert(done.drop_last() == views.take(at as int));
            assert(done.last() == snippet@);
            assert(output@ == old(output)@ + passages(done));
        }
        at = at + 1;
    }
    assert(views.take(at as int) == views);
}

/// Prints a ranked file behind the text at hand.
fn print_file(result: &RankedFile, total_terms: usize, output: &mut String)
    ensures
        final(output)@ == old(output)@ + "\n"@ + result@.path + "\n  score="@ + result@.score_text
            + " matched_terms="@ + decimal(result@.matched_terms) + "/"@ + decimal(
            terms_told(total_terms),
        ) + " match_lines="@ + decimal(result@.match_count) + "\n"@ + passages(result@.snippets),
{
    let terms: usize = if total_terms == 0 {
        1
    } else {
        total_terms
    };
    let matched = decimal_text(result.matched_terms as u128);
    let total = decimal_text(terms as u128);
    let lines = decimal_text(result.match_count as u128);
    output.append("\n");
    output.append(result.path.text.as_str());
    output.append("\n  score=");
    output.append(result.score.text.as_str());
    output.append(" matched_terms=");
    output.append(matched.as_str());
    output.append("/");
    output.append(total.as_str());
    output.append(" match_lines=");
    output.append(lines.as_str());
    output.append("\n");
    print_passages(&result.snippets, output);
}

/// A report, as it is printed.
pub fn render_report(report: &SearchReport) -> (text: String)
    ensures
        text@ == report_text(*report),
{
    let scanned = decimal_text(report.scanned_files as u128);
    let lines = decimal_text(report.candidate_lines as u128);
    let mut output = "query: ".to_owned();
    output.append(report.query.as_str());
    output.append("\nscanned_files: ");
    output.append(scanned.as_str());
    output.append("\ncandidate_lines: ");
    output.append(lines.as_str());
    output.append(
        if report.truncated {
            " (truncated at candidate limit)"
        } else {
            ""
        },
    );
    output.append("\n");
    assert(output@ == report_header(*report));
    if report.results.len() == 0 {
        output.append("results: 0\n");
        return output;
    }
    let count = decimal_text(report.results.len() as u128);
    output.append("results: ");
    output.append(count.as_str());
    output.append("\n");
    let ghost opening = output@;
    let ghost views = file_views(report.results@);
    let mut at: usize = 0;
    assert(output@ == opening + report_files(views.take(0), report.total_terms));
    while at < report.results.len()
        invariant
            views == file_views(report.results@),
            at <= report.results@.len(),
            output@ == opening + report_files(views.take(at as int), report.total_terms),
        decreases report.results@.len() - at,
    {
        print_file(&report.results[at], report.total_terms, &mut output);
        proof {
            let done = views.take(at + 1);
            assert(done.drop_last() == views.take(at as int));
            assert(done.last() == report.results@[at as int]@);
            assert(output@ == opening + report_files(done, report.total_terms));
        }
        at = at + 1;
    }
    assert(views.take(at as int) == views);
    trim_end(output.as_str())
}

/// Paths, as they are shown.
pub open spec fn path_texts(files: Seq<FilePath>) -> Seq<Seq<char>> {
    Seq::new(files.len(), |i: int| files[i].text@)
}

/// A list of files: one path on each line.
pub fn render_file_list(files: &Vec<FilePath>) -> (text: String)
    ensures
        text@ == joined(path_texts(files@), "\n"@),
{
    let mut lines: Vec<String> = Vec::new();
    let mut at: usize = 0;
    while at < files.len()
        invariant
            at == lines@.len() <= files@.len(),
            forall|i: int| 0 <= i < at ==> (#[trigger] lines@[i])@ == files@[i].text@,
        decreases files@.len() - at,
    {
        lines.push(files[at].text.clone());
        at = at + 1;
    }
    assert(texts(lines@) == path_texts(files@));
    join(&lines, "\n")
}

/// A count, behind its path where paths are shown.
pub open spec fn count_line(entry: CountEntry, show_path: bool) -> Seq<char> {
    if show_path {
        entry.path.text@ + ":"@ + decimal(entry.count as nat)
    } else {
        decimal(entry.count as nat)
    }
}

/// Counts, one on each line.
pub open spec fn count_lines(counts: Seq<CountEntry>, show_path: bool) -> Seq<Seq<char>> {
    Seq::new(counts.len(), |i: int| count_line(counts[i], show_path))
}

/// A list of counts: one on each line, behind its path unless one file is searched.
pub fn render_count_list(counts: &Vec<CountEntry>, cli: &Cli, first_root_is_file: bool) -> (text:
    String)
    ensures
        text@ == joined(count_lines(counts@, shows_path(*cli, first_root_is_file)), "\n"@),
{
    let show_path = show_path_in_standard_output(cli, first_root_is_file);
    let mut lines: Vec<String> = Vec::new();
    let mut at: usize = 0;
    while at < counts.len()
        invariant
            show_path == shows_path(*cli, first_root_is_file),
            at == lines@.len() <= counts@.len(),
            forall|i: int|
                0 <= i < at ==> (#[trigger] lines@[i])@ == count_line(counts@[i], show_path),
        decreases counts@.len() - at,
    {
        let entry = &counts[at];
        let count = decimal_text(entry.count as u128);
        if show_path {
            let mut line = entry.path.text.clone();
            line.append(":");
            line.append(count.as_str());
            lines.push(line);
        } else {
            lines.push(count);
        }
        at = at + 1;
    }
    assert(texts(lines@) == count_lines(counts@, show_path));
    join(&lines, "\n")
}

} // verus!
