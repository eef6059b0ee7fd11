//! Laws on standard output.

use vstd::prelude::*;

use super::ranking::lemma_occurs_within;
use super::reporting::lemma_between;
use crate::blocks::{
    all_blocks, event_at, event_spans, file_blocks, lines_view, path_runs, run_blocks, run_end,
    runs_from, shown_line, shown_lines, OutputBlockView, OutputLineView,
};
use crate::bytes::decoded;
use crate::candidate::FilePath;
use crate::cli::{Cli, ColorMode};
use crate::context::{
    in_range, in_some_range, merged_ranges, near, near_some, ranges_share_out_the_items,
    ranges_show_the_lines_near_items, starts_ascend, LineRange,
};
use crate::sinks::MatchEvent;
use crate::standard::{
    block_opening, coloured, highlighted, marked, marked_until, printed_blocks, printed_line,
    printed_lines, shows_path, standard_output, Surroundings,
};
use crate::text::{decimal, joined, occurs_in};
use vstd::utf8::encode_utf8;

verus! {

/// Where paths are shown and there are no headings, every printed line of a block, whether it
/// matches or not, begins with the path of its file, followed by a colon where the line matches and
/// by a dash where it does not.
pub proof fn lines_begin_with_their_path(
    block: OutputBlockView,
    cli: Cli,
    around: Surroundings,
    index: int,
)
    requires
        0 <= index < block.lines.len(),
        cli.roots@.len() != 1 || !around.first_root_is_file,
        !cli.heading,
    ensures
        printed_lines(block, cli, around).len() == block.lines.len(),
        printed_lines(block, cli, around)[index].len() > block.path.text@.len(),
        printed_lines(block, cli, around)[index].take(block.path.text@.len() as int)
            == block.path.text@,
        printed_lines(block, cli, around)[index][block.path.text@.len() as int]
            == if block.lines[index].is_match {
            ':'
        } else {
            '-'
        },
{
    reveal_strlit(":");
    reveal_strlit("-");
    let line = printed_line(block.path, block.lines[index], cli, around);
    assert(printed_lines(block, cli, around)[index] == line);
    assert(line.take(block.path.text@.len() as int) == block.path.text@);
}

/// A printed line is made of the path where there is no heading, the line number where numbers,
/// columns or context are asked for, the column of a line that matches, and the text.
pub proof fn lines_are_printed_with_their_parts(
    path: FilePath,
    line: OutputLineView,
    cli: Cli,
    around: Surroundings,
)
    ensures
        printed_line(path, line, cli, around) == (if !cli.heading && !(cli.roots@.len() == 1
            && around.first_root_is_file) {
            path.text@ + if line.is_match {
                ":"@
            } else {
                "-"@
            }
        } else {
            Seq::empty()
        }) + (if cli.line_numbers || cli.show_column || cli.before_context > 0
            || cli.after_context > 0 {
            decimal(line.line_number as nat) + (if line.is_match {
                ":"@
            } else {
                "-"@
            }) + if line.is_match && line.column is Some {
                decimal(line.column->0 as nat) + ":"@
            } else {
                Seq::empty()
            }
        } else {
            Seq::empty()
        }) + (if line.is_match && (cli.color_mode == ColorMode::Always || cli.color_mode
            == ColorMode::Auto && around.stdout_is_terminal) {
            highlighted(line.text, line.submatches)
        } else {
            line.text
        }),
{
}

/// Paths are left out exactly where a single file is searched; colours are used where they are
/// asked for, and where they are left to the terminal, if there is one.
pub proof fn paths_and_colours_are_shown(cli: Cli, around: Surroundings)
    ensures
        !shows_path(cli, around.first_root_is_file) <==> cli.roots@.len() == 1
            && around.first_root_is_file,
        cli.color_mode is Always ==> coloured(cli, around.stdout_is_terminal),
        cli.color_mode is Never ==> !coloured(cli, around.stdout_is_terminal),
        cli.color_mode is Auto ==> coloured(cli, around.stdout_is_terminal)
            == around.stdout_is_terminal,
{
}

/// One more match adds the text between it and the match before, and the match between the codes
/// for red and for plain text; behind the last match the rest of the text stands as it is.
pub proof fn matches_stand_in_colour(
    text: Seq<char>,
    spans: Seq<(usize, usize)>,
    span: (usize, usize),
)
    requires
        spans.len() > 0 ==> spans.last().1 <= span.0,
        span.0 <= span.1 <= encode_utf8(text).len(),
    ensures
        highlighted(text, Seq::empty()) == text,
        marked(encode_utf8(text), Seq::empty()) == Seq::<char>::empty(),
        marked(encode_utf8(text), spans.push(span)) == marked(encode_utf8(text), spans) + decoded(
            encode_utf8(text).subrange(
                if spans.len() == 0 {
                    0
                } else {
                    spans.last().1 as int
                },
                span.0 as int,
            ),
        ) + "\u{1b}[31m"@ + decoded(encode_utf8(text).subrange(span.0 as int, span.1 as int))
            + "\u{1b}[0m"@,
        highlighted(text, spans.push(span)) == marked(encode_utf8(text), spans.push(span))
            + decoded(encode_utf8(text).subrange(span.1 as int, encode_utf8(text).len() as int)),
{
    let bytes = encode_utf8(text);
    let more = spans.push(span);
    assert(more.drop_last() == spans);
    assert(more.last() == span);
    let last = marked_until(spans);
    crate::bytes::decoding_undoes_encoding(Seq::empty());
    assert(encode_utf8(Seq::<char>::empty()) == Seq::<u8>::empty());
    if span.0 == last {
        assert(bytes.subrange(last, span.0 as int) == Seq::<u8>::empty());
    }
    if span.1 == bytes.len() {
        assert(bytes.subrange(span.1 as int, bytes.len() as int) == Seq::<u8>::empty());
    }
}

/// Every match stands in the coloured text between the codes for red and for plain text.
pub proof fn every_match_is_coloured(text: Seq<char>, spans: Seq<(usize, usize)>, index: int)
    requires
        0 <= index < spans.len(),
    ensures
        occurs_in(
            "\u{1b}[31m"@ + decoded(
                encode_utf8(text).subrange(spans[index].0 as int, spans[index].1 as int),
            ) + "\u{1b}[0m"@,
            highlighted(text, spans),
        ),
{
    let bytes = encode_utf8(text);
    lemma_marked(bytes, spans, index);
    let part = marked(bytes, spans);
    let last = marked_until(spans);
    let rest = if last < bytes.len() {
        decoded(bytes.subrange(last, bytes.len() as int))
    } else {
        Seq::empty()
    };
    lemma_between(Seq::empty(), part, rest);
    assert(Seq::<char>::empty() + part + rest == highlighted(text, spans));
    lemma_occurs_within(
        "\u{1b}[31m"@ + decoded(bytes.subrange(spans[index].0 as int, spans[index].1 as int))
            + "\u{1b}[0m"@,
        part,
        highlighted(text, spans),
    );
}

/// Every match stands in the text up to the last match.
proof fn lemma_marked(bytes: Seq<u8>, spans: Seq<(usize, usize)>, index: int)
    requires
        0 <= index < spans.len(),
    ensures
        occurs_in(
            "\u{1b}[31m"@ + decoded(bytes.subrange(spans[index].0 as int, spans[index].1 as int))
                + "\u{1b}[0m"@,
            marked(bytes, spans),
        ),
    decreases spans.len(),
{
    let front = spans.drop_last();
    let (start, end) = spans.last();
    let last = marked_until(front);
    let between = if start > last {
        decoded(bytes.subrange(last, start as int))
    } else {
        Seq::empty()
    };
    let before = marked(bytes, front);
    let own = decoded(bytes.subrange(start as int, end as int));
    let whole = marked(bytes, spans);
    let entry = "\u{1b}[31m"@ + own + "\u{1b}[0m"@;
    assert(whole == before + between + entry);
    if index == spans.len() - 1 {
        lemma_between(before + between, entry, Seq::empty());
        assert(before + between + entry + Seq::<char>::empty() == whole);
    } else {
        lemma_marked(bytes, front, index);
        assert(front[index] == spans[index]);
        lemma_between(Seq::empty(), before, between + entry);
        assert(Seq::<char>::empty() + before + (between + entry) == whole);
        lemma_occurs_within(
            "\u{1b}[31m"@ + decoded(
                bytes.subrange(spans[index].0 as int, spans[index].1 as int),
            ) + "\u{1b}[0m"@,
            before,
            whole,
        );
    }
}

/// What is printed of blocks does not hang on blocks behind them.
proof fn lemma_earlier_blocks(
    first: Seq<OutputBlockView>,
    second: Seq<OutputBlockView>,
    count: int,
    cli: Cli,
    around: Surroundings,
)
    requires
        count <= first.len(),
    ensures
        printed_blocks(first + second, count, cli, around) == printed_blocks(
            first,
            count,
            cli,
            around,
        ),
    decreases count,
{
    if count > 0 {
        lemma_earlier_blocks(first, second, count - 1, cli, around);
        let all = first + second;
        assert(all[count - 1] == first[count - 1]);
        if count > 1 {
            assert(all[count - 2] == first[count - 2]);
        }
        let before = printed_blocks(first, count - 1, cli, around);
        assert(block_opening(all, count - 1, before.len() > 0, cli, around) == block_opening(
            first,
            count - 1,
            before.len() > 0,
            cli,
            around,
        ));
    }
}

/// One more block is printed behind the blocks before it: all its lines in order, with its path
/// above them where there are headings and the path is a new one, or two dashes where lines around
/// matches are shown.
pub proof fn blocks_are_printed_in_order(
    blocks: Seq<OutputBlockView>,
    block: OutputBlockView,
    cli: Cli,
    around: Surroundings,
)
    ensures
        printed_blocks(Seq::empty(), 0, cli, around) == Seq::<Seq<char>>::empty(),
        printed_blocks(blocks.push(block), blocks.len() as int + 1, cli, around) == printed_blocks(
            blocks,
            blocks.len() as int,
            cli,
            around,
        ) + (if cli.heading && !(cli.roots@.len() == 1 && around.first_root_is_file) && (
        blocks.len() == 0 || blocks.last().path.rank != block.path.rank) {
            if printed_blocks(blocks, blocks.len() as int, cli, around).len() > 0 {
                seq![Seq::<char>::empty(), block.path.text@]
            } else {
                seq![block.path.text@]
            }
        } else if blocks.len() > 0 && (cli.before_context > 0 || cli.after_context > 0) {
            seq!["--"@]
        } else {
            Seq::empty()
        }) + Seq::new(
            block.lines.len(),
            |i: int| printed_line(block.path, block.lines[i], cli, around),
        ),
        standard_output(blocks, cli, around) == joined(
            printed_blocks(blocks, blocks.len() as int, cli, around),
            seq!['\n'],
        ),
{
    let more = blocks.push(block);
    let count = blocks.len() as int;
    assert(more == blocks + seq![block]);
    lemma_earlier_blocks(blocks, seq![block], count, cli, around);
    assert(more[count] == block);
    if count > 0 {
        assert(more[count - 1] == blocks.last());
    }
    reveal_strlit("\n");
    assert("\n"@ == seq!['\n']);
}

/// Every line of every block is printed: the lines of a block stand together in the output, behind
/// those of the blocks before it.
pub proof fn every_line_of_every_block_is_printed(
    blocks: Seq<OutputBlockView>,
    index: int,
    cli: Cli,
    around: Surroundings,
)
    requires
        0 <= index < blocks.len(),
    ensures
        exists|at: int|
            printed_blocks(blocks, index, cli, around).len() <= at && at
                + blocks[index].lines.len() <= printed_blocks(
                blocks,
                blocks.len() as int,
                cli,
                around,
            ).len() && #[trigger] printed_blocks(
                blocks,
                blocks.len() as int,
                cli,
                around,
            ).subrange(at, at + blocks[index].lines.len()) == Seq::new(
                blocks[index].lines.len(),
                |i: int| printed_line(blocks[index].path, blocks[index].lines[i], cli, around),
            ),
{
    let before = printed_blocks(blocks, index, cli, around);
    let opening = block_opening(blocks, index, before.len() > 0, cli, around);
    let at = (before.len() + opening.len()) as int;
    let own = printed_blocks(blocks, index + 1, cli, around);
    let lines = printed_lines(blocks[index], cli, around);
    assert(own == before + opening + lines);
    lemma_printed_prefix(blocks, index + 1, blocks.len() as int, cli, around);
    let whole = printed_blocks(blocks, blocks.len() as int, cli, around);
    assert(whole.subrange(at, at + blocks[index].lines.len()) == lines) by {
        assert forall|i: int| 0 <= i < lines.len() implies whole[at + i] == lines[i] by {
            assert(whole.take(own.len() as int)[at + i] == own[at + i]);
        }
    }
    assert(lines == Seq::new(
        blocks[index].lines.len(),
        |i: int| printed_line(blocks[index].path, blocks[index].lines[i], cli, around),
    ));
}

/// What is printed of the first blocks begins what is printed of more.
proof fn lemma_printed_prefix(
    blocks: Seq<OutputBlockView>,
    few: int,
    many: int,
    cli: Cli,
    around: Surroundings,
)
    requires
        0 <= few <= many,
    ensures
        printed_blocks(blocks, few, cli, around).len() <= printed_blocks(
            blocks,
            many,
            cli,
            around,
        ).len(),
        printed_blocks(blocks, many, cli, around).take(
            printed_blocks(blocks, few, cli, around).len() as int,
        ) == printed_blocks(blocks, few, cli, around),
    decreases many,
{
    let start = printed_blocks(blocks, few, cli, around);
    let whole = printed_blocks(blocks, many, cli, around);
    if few < many {
        lemma_printed_prefix(blocks, few, many - 1, cli, around);
        let middle = printed_blocks(blocks, many - 1, cli, around);
        assert(whole.take(start.len() as int) == middle.take(start.len() as int));
    } else {
        assert(whole.take(start.len() as int) == start);
    }
}

/// The event shown for a line is the first one with its number.
pub proof fn the_first_event_of_a_line_is_shown(events: Seq<MatchEvent>, line_number: usize)
    ensures
        event_at(events, line_number) is None <==> forall|i: int|
            0 <= i < events.len() ==> (#[trigger] events[i]).line_number != line_number,
        event_at(events, line_number) is Some ==> exists|i: int|
            0 <= i < events.len() && event_at(events, line_number) == Some(#[trigger] events[i])
                && events[i].line_number == line_number && forall|j: int|
                0 <= j < i ==> (#[trigger] events[j]).line_number != line_number,
    decreases events.len(),
{
    if events.len() > 0 {
        let rest = events.drop_first();
        the_first_event_of_a_line_is_shown(rest, line_number);
        assert forall|i: int| 0 <= i < rest.len() implies #[trigger] rest[i] == events[i + 1] by {}
        assert forall|i: int| 1 <= i < events.len() implies #[trigger] events[i] == rest[
            i - 1
        ] by {}
        if events[0].line_number != line_number {
            if event_at(events, line_number) is Some {
                let i = choose|i: int|
                    0 <= i < rest.len() && event_at(rest, line_number) == Some(#[trigger] rest[i])
                        && rest[i].line_number == line_number && forall|j: int|
                        0 <= j < i ==> (#[trigger] rest[j]).line_number != line_number;
                assert(events[i + 1] == rest[i]);
                assert forall|j: int| 0 <= j < i + 1 implies (#[trigger] events[j]).line_number
                    != line_number by {
                    if j > 0 {
                        assert(events[j] == rest[j - 1]);
                    }
                }
            } else {
                assert forall|i: int| 0 <= i < events.len() implies (#[trigger] events[
                    i
                ]).line_number != line_number by {
                    if i > 0 {
                        assert(events[i] == rest[i - 1]);
                    }
                }
            }
        }
        if forall|i: int|
            0 <= i < events.len() ==> (#[trigger] events[i]).line_number != line_number {
            assert forall|i: int| 0 <= i < rest.len() implies (#[trigger] rest[i]).line_number
                != line_number by {
                assert(rest[i] == events[i + 1]);
            }
        }
    }
}

/// A stretch of lines is shown line by line: a line that matches with its event, and any other with
/// its text in the file, as a line that does not match.
pub proof fn stretches_are_shown_line_by_line(
    events: Seq<MatchEvent>,
    file_lines: Seq<Seq<char>>,
    range: LineRange,
    line_number: usize,
)
    requires
        range.start <= line_number <= range.end,
    ensures
        shown_lines(events, file_lines, range).len() == range.end - range.start + 1,
        shown_lines(events, file_lines, range)[line_number - range.start].line_number
            == line_number,
        (forall|i: int| 0 <= i < events.len() ==> (#[trigger] events[i]).line_number != line_number)
            ==> {
            &&& !shown_lines(events, file_lines, range)[line_number - range.start].is_match
            &&& shown_lines(events, file_lines, range)[line_number - range.start].text
                == file_lines[line_number - 1]
            &&& shown_lines(events, file_lines, range)[line_number - range.start].column is None
            &&& shown_lines(events, file_lines, range)[line_number - range.start].submatches
                == Seq::<(usize, usize)>::empty()
        },
        forall|i: int|
            0 <= i < events.len() && (#[trigger] events[i]).line_number == line_number && (forall|
                j: int,
            |
                0 <= j < i ==> (#[trigger] events[j]).line_number != line_number) ==> {
                &&& shown_lines(events, file_lines, range)[line_number - range.start].is_match
                &&& shown_lines(events, file_lines, range)[line_number - range.start].text
                    == events[i].text@
                &&& shown_lines(events, file_lines, range)[line_number - range.start].column
                    == events[i].column
                &&& shown_lines(events, file_lines, range)[line_number - range.start].submatches
                    == events[i].submatches@
            },
{
    the_first_event_of_a_line_is_shown(events, line_number);
    assert(shown_lines(events, file_lines, range)[line_number - range.start] == shown_line(
        events,
        file_lines,
        line_number,
    ));
    assert forall|i: int|
        0 <= i < events.len() && (#[trigger] events[i]).line_number == line_number && (forall|
            j: int,
        |
            0 <= j < i ==> (#[trigger] events[j]).line_number != line_number) implies event_at(
        events,
        line_number,
    ) == Some(events[i]) by {
        let k = choose|k: int|
            0 <= k < events.len() && event_at(events, line_number) == Some(#[trigger] events[k])
                && events[k].line_number == line_number && forall|j: int|
                0 <= j < k ==> (#[trigger] events[j]).line_number != line_number;
        if k < i {
            assert(events[k].line_number != line_number);
        }
        if i < k {
            assert(events[i].line_number != line_number);
        }
    }
}

/// Where the lines of a file are not at hand, its matches make one block: a line for each event, in
/// order, with the event's number, column, text and matches.
pub proof fn events_make_one_block(
    path: FilePath,
    events: Seq<MatchEvent>,
    before: usize,
    after: usize,
)
    ensures
        file_blocks(path, events, before, after, None).len() == 1,
        file_blocks(path, events, before, after, None)[0].path == path,
        file_blocks(path, events, before, after, None)[0].lines.len() == events.len(),
        forall|i: int|
            0 <= i < events.len() ==> {
                let line = #[trigger] file_blocks(path, events, before, after, None)[0].lines[i];
                line.line_number == events[i].line_number && line.column == events[i].column
                    && line.text == events[i].text@ && line.submatches == events[i].submatches@
                    && line.is_match
            },
{
}

/// Every line that matches is shown in a block of its file, with the lines around it that the file
/// has; no line is shown that is farther from every match.
pub proof fn every_match_is_shown_in_a_block(
    path: FilePath,
    events: Seq<MatchEvent>,
    before: usize,
    after: usize,
    lines: Seq<Seq<char>>,
    line_number: usize,
)
    requires
        lines.len() <= usize::MAX,
        events.len() <= usize::MAX,
        1 <= line_number <= lines.len(),
        forall|i: int, j: int|
            0 <= i < j < events.len() ==> (#[trigger] events[i]).line_number <= (
            #[trigger] events[j]).line_number,
    ensures
        (exists|block: int, line: int|
            0 <= block < file_blocks(path, events, before, after, Some(lines)).len() && 0 <= line
                < file_blocks(path, events, before, after, Some(lines))[block].lines.len()
                && (#[trigger] file_blocks(path, events, before, after, Some(lines))[block].lines[
                line
            ]).line_number == line_number) <==> exists|event: int|
            0 <= event < events.len() && (#[trigger] events[event]).line_number - before
                <= line_number <= events[event].line_number + after,
        forall|block: int|
            0 <= block < file_blocks(path, events, before, after, Some(lines)).len() ==> (
            #[trigger] file_blocks(path, events, before, after, Some(lines))[block]).path == path,
{
    let spans = event_spans(events);
    let count = lines.len() as usize;
    let ranges = merged_ranges(spans, before, after, count);
    let blocks = file_blocks(path, events, before, after, Some(lines));
    assert forall|i: int| 0 <= i < spans.len() implies #[trigger] spans[i] == (
        events[i].line_number,
        events[i].line_number,
    ) by {}
    ranges_share_out_the_items(spans, before, after, count);
    assert(starts_ascend(spans));
    ranges_show_the_lines_near_items(spans, before, after, count);
    let number = line_number as int;
    assert(in_some_range(ranges, number) <==> near_some(spans, before, after, count, number));
    if exists|block: int, line: int|
        0 <= block < blocks.len() && 0 <= line < blocks[block].lines.len() && (
        #[trigger] blocks[block].lines[line]).line_number == line_number {
        let (block, line) = choose|block: int, line: int|
            0 <= block < blocks.len() && 0 <= line < blocks[block].lines.len() && (
            #[trigger] blocks[block].lines[line]).line_number == line_number;
        assert(blocks[block].lines == shown_lines(events, lines, ranges[block]));
        assert(1 <= ranges[block].start && ranges[block].end <= count);
        assert(in_range(ranges[block], number));
        let event = choose|event: int|
            0 <= event < spans.len() && near(#[trigger] spans[event], before, after, count, number);
        assert(events[event].line_number - before <= line_number);
    }
    if exists|event: int|
        0 <= event < events.len() && (#[trigger] events[event]).line_number - before <= line_number
            <= events[event].line_number + after {
        let event = choose|event: int|
            0 <= event < events.len() && (#[trigger] events[event]).line_number - before
                <= line_number <= events[event].line_number + after;
        assert(near(spans[event], before, after, count, number));
        let block = choose|block: int|
            0 <= block < ranges.len() && in_range(#[trigger] ranges[block], number);
        assert(blocks[block].lines == shown_lines(events, lines, ranges[block]));
        assert(1 <= ranges[block].start && ranges[block].end <= count);
        assert(blocks[block].lines[line_number - ranges[block].start].line_number == line_number);
    }
}

/// The blocks of a file are its stretches of lines around matches, in order, each shown line by line.
pub proof fn blocks_are_stretches_of_the_file(
    path: FilePath,
    events: Seq<MatchEvent>,
    before: usize,
    after: usize,
    lines: Seq<Seq<char>>,
    spans: Seq<(usize, usize)>,
    index: int,
)
    requires
        spans.len() == events.len(),
        forall|i: int|
            0 <= i < spans.len() ==> #[trigger] spans[i] == (
                events[i].line_number,
                events[i].line_number,
            ),
        0 <= index < file_blocks(path, events, before, after, Some(lines)).len(),
    ensures
        file_blocks(path, events, before, after, Some(lines)).len() == merged_ranges(
            spans,
            before,
            after,
            lines.len() as usize,
        ).len(),
        file_blocks(path, events, before, after, Some(lines))[index].path == path,
        file_blocks(path, events, before, after, Some(lines))[index].lines == shown_lines(
            events,
            lines,
            merged_ranges(spans, before, after, lines.len() as usize)[index],
        ),
{
    assert(spans == event_spans(events));
}

/// The runs of one path: an event belongs to the run of the event before it exactly where it has the
/// same path, so neighbouring runs have different paths.
pub proof fn runs_end_where_the_path_changes(events: Seq<MatchEvent>, start: int)
    requires
        0 <= start <= events.len() <= usize::MAX,
    ensures
        forall|i: int|
            0 <= i < runs_from(events, start).len() - 1 ==> events[runs_from(
                events,
                start,
            )[i].0 as int].path.rank != events[(#[trigger] runs_from(
                events,
                start,
            )[i]).1 as int].path.rank,
    decreases events.len() - start,
{
    if start < events.len() {
        let end = run_end(events, start, start + 1);
        lemma_run_end(events, start, start + 1);
        runs_end_where_the_path_changes(events, end);
        crate::blocks::runs_share_out_the_events(events, end);
        let runs = runs_from(events, start);
        let rest = runs_from(events, end);
        assert(runs == seq![(start as usize, end as usize)] + rest);
        assert forall|i: int| 0 <= i < runs.len() - 1 implies events[runs[i].0 as int].path.rank
            != events[(#[trigger] runs[i]).1 as int].path.rank by {
            if i > 0 {
                assert(runs[i] == rest[i - 1]);
            } else {
                assert(rest.len() > 0);
                assert(end < events.len());
            }
        }
    }
}

/// Where a run ends, the path is another one.
proof fn lemma_run_end(events: Seq<MatchEvent>, start: int, at: int)
    requires
        0 <= start < at <= events.len(),
    ensures
        at <= run_end(events, start, at) <= events.len(),
        run_end(events, start, at) < events.len() ==> events[run_end(
            events,
            start,
            at,
        )].path.rank != events[start].path.rank,
    decreases events.len() - at,
{
    if at < events.len() && events[at].path.rank == events[start].path.rank {
        lemma_run_end(events, start, at + 1);
    }
}

/// The blocks of one more run stand behind those of the runs before it: they are made of its events
/// and shown under the path of its first event.
pub proof fn runs_are_shown_in_order(
    events: Seq<MatchEvent>,
    runs: Seq<(usize, usize)>,
    before: usize,
    after: usize,
    file_lines: Seq<Option<Vec<String>>>,
    count: int,
)
    requires
        0 <= count < runs.len(),
    ensures
        run_blocks(events, runs, before, after, file_lines, 0) == Seq::<OutputBlockView>::empty(),
        run_blocks(events, runs, before, after, file_lines, count + 1) == run_blocks(
            events,
            runs,
            before,
            after,
            file_lines,
            count,
        ) + file_blocks(
            events[runs[count].0 as int].path,
            events.subrange(runs[count].0 as int, runs[count].1 as int),
            before,
            after,
            lines_view(file_lines[count]),
        ),
        path_runs(events) == runs_from(events, 0),
        all_blocks(events, before, after, file_lines) == run_blocks(
            events,
            path_runs(events),
            before,
            after,
            file_lines,
            path_runs(events).len() as int,
        ),
{
}

} // verus!
