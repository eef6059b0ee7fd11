//! Standard output: lines that match, as `path:line` or under headings, with the lines around them.

use vstd::prelude::*;
use vstd::utf8::{
    decode_utf8, decode_utf8_split, encode_utf8, encode_utf8_valid_utf8,
    is_char_boundary_iff_not_is_continuation_byte, is_char_boundary_start_end_of_seq, valid_utf8,
    valid_utf8_split,
};

use crate::blocks::{
    all_blocks, block_views, build_output_blocks, event_at, event_spans, file_blocks,
    lines_view, path_runs, run_blocks, runs_share_out_the_events, shown_line, OutputBlock,
    OutputBlockView, OutputLine, OutputLineView,
};
use crate::bytes::{
    bytes_between, bytes_of, cuts_text, decoded, decoding_undoes_encoding, lossy_text,
};
use crate::candidate::FilePath;
use crate::cli::{Cli, ColorMode};
use crate::context::merged_ranges;
use crate::sinks::MatchEvent;
use crate::text::{decimal, decimal_text, join, joined, texts};

verus! {

/// Whether paths are shown: unless one file is searched.
pub open spec fn shows_path(cli: Cli, first_root_is_file: bool) -> bool {
    !(cli.roots@.len() == 1 && first_root_is_file)
}

/// Whether paths are shown: unless one file is searched.
pub fn show_path_in_standard_output(cli: &Cli, first_root_is_file: bool) -> (shown: bool)
    ensures
        shown == shows_path(*cli, first_root_is_file),
{
    !(cli.roots.len() == 1 && first_root_is_file)
}

/// Whether output is coloured: always, never, or where it goes to a terminal.
pub open spec fn coloured(cli: Cli, stdout_is_terminal: bool) -> bool {
    match cli.color_mode {
        ColorMode::Always => true,
        ColorMode::Never => false,
        ColorMode::Auto => stdout_is_terminal,
    }
}

/// Whether output is coloured.
pub fn color_enabled(cli: &Cli, stdout_is_terminal: bool) -> (enabled: bool)
    ensures
        enabled == coloured(*cli, stdout_is_terminal),
{
    match cli.color_mode {
        ColorMode::Always => true,
        ColorMode::Never => false,
        ColorMode::Auto => stdout_is_terminal,
    }
}

/// What turns the colour of a match on.
pub const MATCH_COLOR: &'static str = "\u{1b}[31m";

/// What turns the colour of a match off.
pub const PLAIN_COLOR: &'static str = "\u{1b}[0m";

/// Whether matches lie within a text, counted in bytes.
pub open spec fn spans_fit(text: Seq<char>, spans: Seq<(usize, usize)>) -> bool {
    forall|i: int|
        0 <= i < spans.len() ==> (#[trigger] spans[i]).0 <= spans[i].1 <= encode_utf8(text).len()
}

/// Whether matches lie within a text, counted in bytes.
pub fn do_spans_fit(text: &str, spans: &Vec<(usize, usize)>) -> (fit: bool)
    ensures
        fit == spans_fit(text@, spans@),
{
    let bytes = bytes_of(text);
    let length: usize = bytes.len();
    let mut at: usize = 0;
    while at < spans.len()
        invariant
            length == encode_utf8(text@).len(),
            at <= spans@.len(),
            forall|i: int|
                0 <= i < at ==> (#[trigger] spans@[i]).0 <= spans@[i].1 <= encode_utf8(text@).len(),
        decreases spans@.len() - at,
    {
        let (start, end) = spans[at];
        if start > end || end > length {
            assert(!((spans@[at as int]).0 <= spans@[at as int].1 <= encode_utf8(text@).len()));
            return false;
        }
        at = at + 1;
    }
    true
}

/// Where the text before a match starts: at the end of the match before it.
pub open spec fn marked_until(spans: Seq<(usize, usize)>) -> int {
    if spans.len() == 0 {
        0
    } else {
        spans.last().1 as int
    }
}

/// The text up to the end of the last match, with each match in colour.
pub open spec fn marked(bytes: Seq<u8>, spans: Seq<(usize, usize)>) -> Seq<char>
    decreases spans.len(),
{
    if spans.len() == 0 {
        Seq::empty()
    } else {
        let last = marked_until(spans.drop_last());
        let (start, end) = spans.last();
        let between = if start > last {
            decoded(bytes.subrange(last, start as int))
        } else {
            Seq::empty()
        };
        marked(bytes, spans.drop_last()) + between + MATCH_COLOR@ + decoded(
            bytes.subrange(start as int, end as int),
        ) + PLAIN_COLOR@
    }
}

/// A text with each match in colour.
pub open spec fn highlighted(text: Seq<char>, spans: Seq<(usize, usize)>) -> Seq<char> {
    let bytes = encode_utf8(text);
    let last = marked_until(spans);
    if spans.len() == 0 {
        text
    } else if last < bytes.len() {
        marked(bytes, spans) + decoded(bytes.subrange(last, bytes.len() as int))
    } else {
        marked(bytes, spans)
    }
}

/// The text up to the end of the last match, without colours.
pub open spec fn unmarked(bytes: Seq<u8>, spans: Seq<(usize, usize)>) -> Seq<char>
    decreases spans.len(),
{
    if spans.len() == 0 {
        Seq::empty()
    } else {
        let last = marked_until(spans.drop_last());
        let (start, end) = spans.last();
        let between = if start > last {
            decoded(bytes.subrange(last, start as int))
        } else {
            Seq::empty()
        };
        unmarked(bytes, spans.drop_last()) + between + decoded(
            bytes.subrange(start as int, end as int),
        )
    }
}

/// Whether matches cut a text into whole characters, one behind the other.
pub open spec fn spans_in_order(text: Seq<char>, spans: Seq<(usize, usize)>) -> bool {
    &&& forall|i: int|
        0 <= i < spans.len() ==> cuts_text(
            text,
            (#[trigger] spans[i]).0 as int,
            spans[i].1 as int,
        )
    &&& forall|i: int, j: int|
        0 <= i < j < spans.len() ==> (#[trigger] spans[i]).1 <= (#[trigger] spans[j]).0
}

/// Two neighbouring parts of a text are decoded as the part that they make up.
proof fn lemma_parts(text: Seq<char>, start: int, middle: int, end: int)
    requires
        cuts_text(text, start, middle),
        cuts_text(text, middle, end),
    ensures
        decoded(encode_utf8(text).subrange(start, middle)) + decoded(
            encode_utf8(text).subrange(middle, end),
        ) == decoded(encode_utf8(text).subrange(start, end)),
{
    let bytes = encode_utf8(text);
    encode_utf8_valid_utf8(text);
    lemma_part_is_valid(text, start, end);
    lemma_part_is_valid(text, start, middle);
    lemma_part_is_valid(text, middle, end);
    let part = bytes.subrange(start, end);
    let index = middle - start;
    assert(part.subrange(0, index) == bytes.subrange(start, middle));
    assert(part.subrange(index, part.len() as int) == bytes.subrange(middle, end));
    if index < part.len() {
        is_char_boundary_iff_not_is_continuation_byte(bytes, middle);
        is_char_boundary_iff_not_is_continuation_byte(part, index);
        assert(part[index] == bytes[middle]);
    } else {
        is_char_boundary_start_end_of_seq(part);
    }
    decode_utf8_split(part, index);
}

/// A part of a text between characters is UTF-8.
proof fn lemma_part_is_valid(text: Seq<char>, start: int, end: int)
    requires
        cuts_text(text, start, end),
    ensures
        0 <= start <= end <= encode_utf8(text).len(),
        valid_utf8(encode_utf8(text).subrange(start, end)),
{
    let bytes = encode_utf8(text);
    encode_utf8_valid_utf8(text);
    let front = bytes.subrange(0, end);
    valid_utf8_split(bytes, end);
    if start < end {
        is_char_boundary_iff_not_is_continuation_byte(bytes, start);
        is_char_boundary_iff_not_is_continuation_byte(front, start);
        assert(front[start] == bytes[start]);
    } else {
        is_char_boundary_start_end_of_seq(front);
    }
    valid_utf8_split(front, start);
    assert(front.subrange(start, front.len() as int) == bytes.subrange(start, end));
}

/// Without its colours, the text up to the last match is the text up to there.
proof fn lemma_unmarked(text: Seq<char>, spans: Seq<(usize, usize)>)
    requires
        spans_in_order(text, spans),
    ensures
        unmarked(encode_utf8(text), spans) == decoded(
            encode_utf8(text).subrange(0, marked_until(spans)),
        ),
        cuts_text(text, 0, marked_until(spans)),
    decreases spans.len(),
{
    let bytes = encode_utf8(text);
    encode_utf8_valid_utf8(text);
    is_char_boundary_start_end_of_seq(bytes);
    if spans.len() == 0 {
        lemma_part_is_valid(text, 0, 0);
        assert(bytes.subrange(0, 0) == Seq::<u8>::empty());
        assert(decode_utf8(Seq::<u8>::empty()) == Seq::<char>::empty());
    } else {
        let front = spans.drop_last();
        lemma_unmarked(text, front);
        let last = marked_until(front);
        let (start, end) = spans.last();
        assert(cuts_text(text, start as int, end as int)) by {
            assert(spans[spans.len() - 1] == spans.last());
        }
        if front.len() > 0 {
            assert(front.last() == spans[front.len() - 1]);
            assert(spans[front.len() - 1].1 <= spans[spans.len() - 1].0);
        }
        assert(last <= start);
        lemma_parts(text, 0, last, start as int);
        lemma_parts(text, 0, start as int, end as int);
        if start == last {
            assert(unmarked(bytes, front) + Seq::<char>::empty() == unmarked(bytes, front));
        }
    }
}

/// Colour adds nothing to a text but its codes: without them, what stands before, in, between and
/// behind the matches is the text.
pub proof fn colour_keeps_the_text(text: Seq<char>, spans: Seq<(usize, usize)>)
    requires
        spans_in_order(text, spans),
    ensures
        unmarked(encode_utf8(text), spans) + decoded(
            encode_utf8(text).subrange(marked_until(spans), encode_utf8(text).len() as int),
        ) == text,
{
    let bytes = encode_utf8(text);
    encode_utf8_valid_utf8(text);
    is_char_boundary_start_end_of_seq(bytes);
    lemma_unmarked(text, spans);
    lemma_parts(text, 0, marked_until(spans), bytes.len() as int);
    assert(bytes.subrange(0, bytes.len() as int) == bytes);
    decoding_undoes_encoding(text);
}

/// A text with each match in colour.
pub fn highlight_text(text: &str, submatches: &Vec<(usize, usize)>) -> (rendered: String)
    requires
        spans_fit(text@, submatches@),
    ensures
        rendered@ == highlighted(text@, submatches@),
{
    if submatches.len() == 0 {
        return text.to_owned();
    }
    let bytes = bytes_of(text);
    let mut rendered = String::new();
    let mut last: usize = 0;
    let mut at: usize = 0;
    while at < submatches.len()
        invariant
            spans_fit(text@, submatches@),
            bytes@ == encode_utf8(text@),
            at <= submatches@.len(),
            last == marked_until(submatches@.take(at as int)),
            last <= bytes@.len(),
            rendered@ == marked(bytes@, submatches@.take(at as int)),
        decreases submatches@.len() - at,
    {
        let (start, end) = submatches[at];
        assert(start <= end <= bytes@.len()) by {
            assert(submatches@[at as int] == (start, end));
        }
        assert(submatches@.take(at + 1).drop_last() == submatches@.take(at as int));
        let ghost before = rendered@;
        if start > last {
            let between = lossy_text(&bytes_between(&bytes, last, start));
            rendered.append(between.as_str());
        } else {
            assert(before == before + Seq::<char>::empty());
        }
        rendered.append(MATCH_COLOR);
        let inside = lossy_text(&bytes_between(&bytes, start, end));
        rendered.append(inside.as_str());
        rendered.append(PLAIN_COLOR);
        last = end;
        at = at + 1;
    }
    assert(submatches@.take(at as int) == submatches@);
    if last < bytes.len() {
        let rest = lossy_text(&bytes_between(&bytes, last, bytes.len()));
        rendered.append(rest.as_str());
    }
    rendered
}

/// A line without its path: the line number and the column, where they are shown, and the text.
pub open spec fn line_suffix(
    line: OutputLineView,
    rendered: Seq<char>,
    show_line_numbers: bool,
    separator: Seq<char>,
) -> Seq<char> {
    if show_line_numbers {
        let number = decimal(line.line_number as nat) + separator;
        if line.column is Some && line.is_match {
            number + decimal(line.column->0 as nat) + ":"@ + rendered
        } else {
            number + rendered
        }
    } else {
        rendered
    }
}

/// A line without its path.
pub fn render_standard_suffix(
    line: &OutputLine,
    rendered_text: &str,
    show_line_numbers: bool,
    separator: &str,
) -> (suffix: String)
    ensures
        suffix@ == line_suffix(line@, rendered_text@, show_line_numbers, separator@),
{
    if !show_line_numbers {
        return rendered_text.to_owned();
    }
    let mut suffix = decimal_text(line.line_number as u128);
    suffix.append(separator);
    if let Some(column) = line.column {
        if line.is_match {
            let place = decimal_text(column as u128);
            suffix.append(place.as_str());
            suffix.append(":");
        }
    }
    suffix.append(rendered_text);
    suffix
}

/// What stands between the parts of a line.
pub open spec fn line_separator(is_match: bool) -> Seq<char> {
    if is_match {
        ":"@
    } else {
        "-"@
    }
}

/// Whether line numbers are shown.
pub open spec fn shows_line_numbers(cli: Cli) -> bool {
    cli.line_numbers || cli.show_column || cli.before_context > 0 || cli.after_context > 0
}

/// A line as it is printed.
pub open spec fn standard_line(
    path: Seq<char>,
    line: OutputLineView,
    rendered: Seq<char>,
    cli: Cli,
    show_heading: bool,
    show_path: bool,
) -> Seq<char> {
    let separator = line_separator(line.is_match);
    let suffix = line_suffix(line, rendered, shows_line_numbers(cli), separator);
    if !show_heading && show_path {
        path + separator + suffix
    } else {
        suffix
    }
}

/// A line as it is printed.
pub fn render_standard_line(
    path: &FilePath,
    line: &OutputLine,
    rendered_text: &str,
    cli: &Cli,
    show_heading: bool,
    show_path: bool,
) -> (rendered: String)
    ensures
        rendered@ == standard_line(
            path.text@,
            line@,
            rendered_text@,
            *cli,
            show_heading,
            show_path,
        ),
{
    let separator = if line.is_match {
        ":"
    } else {
        "-"
    };
    let show_line_numbers = cli.line_numbers || cli.show_column || cli.before_context > 0
        || cli.after_context > 0;
    let suffix = render_standard_suffix(line, rendered_text, show_line_numbers, separator);
    if !show_heading && show_path {
        let mut rendered = path.text.clone();
        rendered.append(separator);
        rendered.append(suffix.as_str());
        rendered
    } else {
        suffix
    }
}

/// What a search finds around it: where it looks, and where its output goes.
#[derive(Debug, Clone, Copy, PartialEq, Eq, Structural)]
pub struct Surroundings {
    /// Whether the first place to search is a file.
    pub first_root_is_file: bool,
    /// Whether output goes to a terminal.
    pub stdout_is_terminal: bool,
}

/// Whether files have headings.
pub open spec fn shows_heading(cli: Cli, around: Surroundings) -> bool {
    cli.heading && shows_path(cli, around.first_root_is_file)
}

/// A line of a block as it is printed, in colour where that is asked for.
pub open spec fn printed_line(
    path: FilePath,
    line: OutputLineView,
    cli: Cli,
    around: Surroundings,
) -> Seq<char> {
    let rendered = if coloured(cli, around.stdout_is_terminal) && line.is_match {
        highlighted(line.text, line.submatches)
    } else {
        line.text
    };
    standard_line(
        path.text@,
        line,
        rendered,
        cli,
        shows_heading(cli, around),
        shows_path(cli, around.first_root_is_file),
    )
}

/// The lines of a block as they are printed.
pub open spec fn printed_lines(block: OutputBlockView, cli: Cli, around: Surroundings) -> Seq<
    Seq<char>,
> {
    Seq::new(block.lines.len(), |i: int| printed_line(block.path, block.lines[i], cli, around))
}

/// What is printed before block `index`: the path as a heading where it is a new one, with an empty
/// line before all but the first; or `--` between blocks with lines around matches.
pub open spec fn block_opening(
    blocks: Seq<OutputBlockView>,
    index: int,
    any_before: bool,
    cli: Cli,
    around: Surroundings,
) -> Seq<Seq<char>> {
    let new_path = index == 0 || blocks[index].path.rank != blocks[index - 1].path.rank;
    if shows_heading(cli, around) && new_path {
        if any_before {
            seq![Seq::empty(), blocks[index].path.text@]
        } else {
            seq![blocks[index].path.text@]
        }
    } else if (cli.before_context > 0 || cli.after_context > 0) && index > 0 {
        seq!["--"@]
    } else {
        Seq::empty()
    }
}

/// The lines printed for the first `count` blocks.
pub open spec fn printed_blocks(
    blocks: Seq<OutputBlockView>,
    count: int,
    cli: Cli,
    around: Surroundings,
) -> Seq<Seq<char>>
    decreases count,
{
    if count <= 0 {
        Seq::empty()
    } else {
        let before = printed_blocks(blocks, count - 1, cli, around);
        before + block_opening(blocks, count - 1, before.len() > 0, cli, around) + printed_lines(
            blocks[count - 1],
            cli,
            around,
        )
    }
}

/// Standard output for blocks.
pub open spec fn standard_output(
    blocks: Seq<OutputBlockView>,
    cli: Cli,
    around: Surroundings,
) -> Seq<char> {
    joined(printed_blocks(blocks, blocks.len() as int, cli, around), "\n"@)
}

/// Whether the matches of every event lie within its line.
pub open spec fn events_fit(events: Seq<MatchEvent>) -> bool {
    forall|i: int|
        0 <= i < events.len() ==> #[trigger] event_fits(events[i])
}

/// Whether the matches of an event lie within its line.
pub open spec fn event_fits(event: MatchEvent) -> bool {
    spans_fit(event.text@, event.submatches@)
}

/// Whether the matches of every event lie within its line.
pub fn do_events_fit(events: &Vec<MatchEvent>) -> (fit: bool)
    ensures
        fit == events_fit(events@),
{
    let mut at: usize = 0;
    while at < events.len()
        invariant
            at <= events@.len(),
            forall|i: int| 0 <= i < at ==> #[trigger] event_fits(events@[i]),
        decreases events@.len() - at,
    {
        if !do_spans_fit(events[at].text.as_str(), &events[at].submatches) {
            assert(!event_fits(events@[at as int]));
            return false;
        }
        at = at + 1;
    }
    true
}

/// Whether the matches of every line of a block lie within the line.
pub open spec fn block_fits(block: OutputBlockView) -> bool {
    forall|i: int|
        0 <= i < block.lines.len() ==> #[trigger] line_fits(block.lines[i])
}

/// Whether the matches of a line lie within it.
pub open spec fn line_fits(line: OutputLineView) -> bool {
    spans_fit(line.text, line.submatches)
}

/// An event that is found among events is one of them.
proof fn lemma_event_at(events: Seq<MatchEvent>, line_number: usize)
    requires
        events_fit(events),
    ensures
        match event_at(events, line_number) {
            Some(event) => event_fits(event),
            None => true,
        },
    decreases events.len(),
{
    if events.len() > 0 {
        assert(event_fits(events[0]));
        assert forall|i: int| 0 <= i < events.drop_first().len() implies #[trigger] event_fits(
            events.drop_first()[i],
        ) by {
            assert(event_fits(events[i + 1]));
        }
        lemma_event_at(events.drop_first(), line_number);
    }
}

/// Where the matches of every event lie within its line, so do those of every block.
proof fn lemma_file_blocks_fit(
    path: FilePath,
    events: Seq<MatchEvent>,
    before: usize,
    after: usize,
    file_lines: Option<Seq<Seq<char>>>,
)
    requires
        events_fit(events),
    ensures
        ({
            let blocks = file_blocks(path, events, before, after, file_lines);
            forall|i: int| 0 <= i < blocks.len() ==> #[trigger] block_fits(blocks[i])
        }),
{
    let blocks = file_blocks(path, events, before, after, file_lines);
    assert forall|i: int| 0 <= i < blocks.len() implies #[trigger] block_fits(blocks[i]) by {
        let block = blocks[i];
        assert forall|k: int| 0 <= k < block.lines.len() implies #[trigger] line_fits(
            block.lines[k],
        ) by {
            match file_lines {
                None => {
                    assert(event_fits(events[k]));
                },
                Some(lines) => {
                    let ranges = merged_ranges(
                        event_spans(events),
                        before,
                        after,
                        lines.len() as usize,
                    );
                    let number = (ranges[i].start + k) as usize;
                    lemma_event_at(events, number);
                    assert(block.lines[k] == shown_line(events, lines, number));
                },
            }
        }
    }
}

/// Where the matches of every event lie within its line, so do those of all blocks.
proof fn lemma_run_blocks_fit(
    events: Seq<MatchEvent>,
    runs: Seq<(usize, usize)>,
    before: usize,
    after: usize,
    file_lines: Seq<Option<Vec<String>>>,
    count: int,
)
    requires
        events_fit(events),
        forall|i: int|
            0 <= i < runs.len() ==> (#[trigger] runs[i]).0 <= runs[i].1 <= events.len(),
        count <= runs.len(),
    ensures
        ({
            let blocks = run_blocks(events, runs, before, after, file_lines, count);
            forall|i: int| 0 <= i < blocks.len() ==> #[trigger] block_fits(blocks[i])
        }),
    decreases count,
{
    if count > 0 {
        lemma_run_blocks_fit(events, runs, before, after, file_lines, count - 1);
        let (start, end) = runs[count - 1];
        let part = events.subrange(start as int, end as int);
        assert forall|i: int| 0 <= i < part.len() implies #[trigger] event_fits(part[i]) by {
            assert(event_fits(events[start + i]));
        }
        let lines = lines_view(file_lines[count - 1]);
        lemma_file_blocks_fit(events[start as int].path, part, before, after, lines);
        let earlier = run_blocks(
            events,
            runs,
            before,
            after,
            file_lines,
            count - 1,
        );
        let more = file_blocks(
            events[start as int].path,
            part,
            before,
            after,
            lines,
        );
        let blocks = run_blocks(events, runs, before, after, file_lines, count);
        assert forall|i: int| 0 <= i < blocks.len() implies #[trigger] block_fits(blocks[i]) by {
            if i < earlier.len() {
                assert(blocks[i] == earlier[i]);
            } else {
                assert(blocks[i] == more[i - earlier.len()]);
            }
        }
    }
}

/// The lines of a block as they are printed, behind the lines at hand.
fn print_block(block: &OutputBlock, cli: &Cli, around: &Surroundings, lines: &mut Vec<String>)
    requires
        block_fits(block@),
    ensures
        texts(final(lines)@) == texts(old(lines)@) + printed_lines(block@, *cli, *around),
{
    let use_color = color_enabled(cli, around.stdout_is_terminal);
    let show_path = show_path_in_standard_output(cli, around.first_root_is_file);
    let show_heading = cli.heading && show_path;
    let ghost wanted = printed_lines(block@, *cli, *around);
    let mut at: usize = 0;
    assert(texts(lines@) == texts(old(lines)@) + wanted.take(0));
    while at < block.lines.len()
        invariant
            block_fits(block@),
            use_color == coloured(*cli, around.stdout_is_terminal),
            show_path == shows_path(*cli, around.first_root_is_file),
            show_heading == shows_heading(*cli, *around),
            wanted == printed_lines(block@, *cli, *around),
            at <= block.lines@.len(),
            texts(lines@) == texts(old(lines)@) + wanted.take(at as int),
        decreases block.lines@.len() - at,
    {
        let line = &block.lines[at];
        assert(block@.lines[at as int] == line@);
        assert(line_fits(block@.lines[at as int]));
        let rendered_text = if use_color && line.is_match {
            highlight_text(line.text.as_str(), &line.submatches)
        } else {
            line.text.clone()
        };
        let rendered = render_standard_line(
            &block.path,
            line,
            rendered_text.as_str(),
            cli,
            show_heading,
            show_path,
        );
        let ghost before = lines@;
        assert(rendered@ == wanted[at as int]);
        lines.push(rendered);
        proof {
            assert(texts(lines@) == texts(before).push(rendered@));
            assert(wanted.take(at + 1) == wanted.take(at as int).push(wanted[at as int]));
            assert(texts(old(lines)@) + wanted.take(at + 1) == (texts(old(lines)@) + wanted.take(
                at as int,
            )).push(wanted[at as int]));
        }
        at = at + 1;
    }
    assert(wanted.take(at as int) == wanted);
}

/// What is printed before a block, behind the lines at hand.
fn print_opening(
    blocks: &Vec<OutputBlock>,
    index: usize,
    cli: &Cli,
    around: &Surroundings,
    lines: &mut Vec<String>,
)
    requires
        index < blocks@.len(),
    ensures
        texts(final(lines)@) == texts(old(lines)@) + block_opening(
            block_views(blocks@),
            index as int,
            old(lines)@.len() > 0,
            *cli,
            *around,
        ),
{
    let show_path = show_path_in_standard_output(cli, around.first_root_is_file);
    let show_heading = cli.heading && show_path;
    let has_context = cli.before_context > 0 || cli.after_context > 0;
    assert(block_views(blocks@)[index as int].path == blocks@[index as int].path);
    assert(index > 0 ==> block_views(blocks@)[index - 1].path == blocks@[index - 1].path);
    let new_path = index == 0 || blocks[index].path.rank != blocks[index - 1].path.rank;
    let ghost before = texts(lines@);
    if show_heading && new_path {
        let path = blocks[index].path.text.clone();
        if lines.len() > 0 {
            lines.push(String::new());
            let ghost middle = lines@;
            lines.push(path);
            assert(texts(middle) == before.push(Seq::empty()));
            assert(texts(lines@) == texts(middle).push(path@));
            assert(before.push(Seq::empty()).push(path@) == before + seq![Seq::empty(), path@]);
        } else {
            lines.push(path);
            assert(texts(lines@) == before.push(path@));
            assert(before.push(path@) == before + seq![path@]);
        }
    } else if has_context && index > 0 {
        lines.push("--".to_owned());
        assert(texts(lines@) == before.push("--"@));
        assert(before.push("--"@) == before + seq!["--"@]);
    } else {
        assert(before == before + Seq::<Seq<char>>::empty());
    }
}

/// Standard output for events. For each run of events with one path, `file_lines` holds the lines
/// of the file, where they are at hand.
pub fn render_standard_output(
    events: &Vec<MatchEvent>,
    cli: &Cli,
    around: &Surroundings,
    file_lines: &Vec<Option<Vec<String>>>,
) -> (output: String)
    requires
        events_fit(events@),
        file_lines@.len() == path_runs(events@).len(),
    ensures
        output@ == standard_output(
            all_blocks(events@, cli.before_context, cli.after_context, file_lines@),
            *cli,
            *around,
        ),
{
    let blocks = build_output_blocks(events, cli, file_lines);
    let event_count: usize = events.len();
    let ghost views = block_views(blocks@);
    proof {
        runs_share_out_the_events(events@, 0);
        let runs = path_runs(events@);
        lemma_run_blocks_fit(
            events@,
            runs,
            cli.before_context,
            cli.after_context,
            file_lines@,
            runs.len() as int,
        );
    }
    let mut lines: Vec<String> = Vec::new();
    let mut index: usize = 0;
    assert(texts(lines@) == printed_blocks(views, 0, *cli, *around));
    while index < blocks.len()
        invariant
            views == block_views(blocks@),
            forall|i: int| 0 <= i < views.len() ==> #[trigger] block_fits(views[i]),
            index <= blocks@.len(),
            texts(lines@) == printed_blocks(views, index as int, *cli, *around),
        decreases blocks@.len() - index,
    {
        assert(texts(lines@).len() == lines@.len());
        assert(block_fits(views[index as int]));
        assert(views[index as int] == blocks@[index as int]@);
        print_opening(&blocks, index, cli, around, &mut lines);
        print_block(&blocks[index], cli, around, &mut lines);
        index = index + 1;
    }
    join(&lines, "\n")
}

} // verus!
