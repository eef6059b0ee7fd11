//! Blocks of standard output: the lines that match, with the lines around them.

use vstd::prelude::*;

use crate::candidate::FilePath;
use crate::cli::Cli;
use crate::context::{merge_ranges, merged_ranges, ranges_share_out_the_items, LineRange};
use crate::sinks::MatchEvent;
use crate::text::texts;

verus! {

/// A line of standard output.
#[derive(Debug, Clone)]
pub struct OutputLine {
    /// The number of the line in its file, counted from one.
    pub line_number: usize,
    /// The place of the first match in the line, counted from one.
    pub column: Option<usize>,
    /// The line.
    pub text: String,
    /// The matches in the line, each from a byte to a byte.
    pub submatches: Vec<(usize, usize)>,
    /// Whether the line matches.
    pub is_match: bool,
}

/// A line of standard output, with its text as a sequence of characters.
pub ghost struct OutputLineView {
    pub line_number: usize,
    pub column: Option<usize>,
    pub text: Seq<char>,
    pub submatches: Seq<(usize, usize)>,
    pub is_match: bool,
}

impl View for OutputLine {
    type V = OutputLineView;

    open spec fn view(&self) -> OutputLineView {
        OutputLineView {
            line_number: self.line_number,
            column: self.column,
            text: self.text@,
            submatches: self.submatches@,
            is_match: self.is_match,
        }
    }
}

/// Lines of a file that are shown together.
#[derive(Debug, Clone)]
pub struct OutputBlock {
    /// The path of the file.
    pub path: FilePath,
    /// The lines.
    pub lines: Vec<OutputLine>,
}

/// Lines of a file that are shown together, with texts as sequences of characters.
pub ghost struct OutputBlockView {
    pub path: FilePath,
    pub lines: Seq<OutputLineView>,
}

/// Lines of standard output, with texts as sequences of characters.
pub open spec fn line_views(lines: Seq<OutputLine>) -> Seq<OutputLineView> {
    Seq::new(lines.len(), |i: int| lines[i]@)
}

/// Blocks of standard output, with texts as sequences of characters.
pub open spec fn block_views(blocks: Seq<OutputBlock>) -> Seq<OutputBlockView> {
    Seq::new(blocks.len(), |i: int| blocks[i]@)
}

impl View for OutputBlock {
    type V = OutputBlockView;

    open spec fn view(&self) -> OutputBlockView {
        OutputBlockView { path: self.path, lines: line_views(self.lines@) }
    }
}

/// The line of an event.
pub open spec fn event_line(event: MatchEvent) -> OutputLineView {
    OutputLineView {
        line_number: event.line_number,
        column: event.column,
        text: event.text@,
        submatches: event.submatches@,
        is_match: true,
    }
}

/// The lines of events.
pub open spec fn event_lines(events: Seq<MatchEvent>) -> Seq<OutputLineView> {
    Seq::new(events.len(), |i: int| event_line(events[i]))
}

/// The first event with the given line number.
pub open spec fn event_at(events: Seq<MatchEvent>, line_number: usize) -> Option<MatchEvent>
    decreases events.len(),
{
    if events.len() == 0 {
        None
    } else if events[0].line_number == line_number {
        Some(events[0])
    } else {
        event_at(events.drop_first(), line_number)
    }
}

/// What is shown of a line: the event, where it matches, and else the line of the file.
pub open spec fn shown_line(
    events: Seq<MatchEvent>,
    file_lines: Seq<Seq<char>>,
    line_number: usize,
) -> OutputLineView {
    match event_at(events, line_number) {
        Some(event) => OutputLineView { line_number, ..event_line(event) },
        None => OutputLineView {
            line_number,
            column: None,
            text: file_lines[line_number - 1],
            submatches: Seq::empty(),
            is_match: false,
        },
    }
}

/// What is shown of a stretch of lines.
pub open spec fn shown_lines(
    events: Seq<MatchEvent>,
    file_lines: Seq<Seq<char>>,
    range: LineRange,
) -> Seq<OutputLineView> {
    Seq::new(
        if range.start <= range.end {
            (range.end - range.start + 1) as nat
        } else {
            0
        },
        |i: int| shown_line(events, file_lines, (range.start + i) as usize),
    )
}

/// The lines of events, each as a stretch of one line.
pub open spec fn event_spans(events: Seq<MatchEvent>) -> Seq<(usize, usize)> {
    Seq::new(events.len(), |i: int| (events[i].line_number, events[i].line_number))
}

/// The lines of a file, where they are at hand, as sequences of characters.
pub open spec fn lines_view(file_lines: Option<Vec<String>>) -> Option<Seq<Seq<char>>> {
    match file_lines {
        Some(lines) => Some(texts(lines@)),
        None => None,
    }
}

/// The blocks of one file: a block for each stretch of lines around matches. Where the lines of the
/// file are not at hand, one block with the lines that match.
pub open spec fn file_blocks(
    path: FilePath,
    events: Seq<MatchEvent>,
    before: usize,
    after: usize,
    file_lines: Option<Seq<Seq<char>>>,
) -> Seq<OutputBlockView> {
    match file_lines {
        None => seq![OutputBlockView { path, lines: event_lines(events) }],
        Some(lines) => {
            let ranges = merged_ranges(event_spans(events), before, after, lines.len() as usize);
            Seq::new(
                ranges.len(),
                |i: int| OutputBlockView { path, lines: shown_lines(events, lines, ranges[i]) },
            )
        },
    }
}

/// The same matches once more.
pub fn copy_spans(spans: &Vec<(usize, usize)>) -> (copy: Vec<(usize, usize)>)
    ensures
        copy@ == spans@,
{
    let mut copy: Vec<(usize, usize)> = Vec::new();
    let mut at: usize = 0;
    while at < spans.len()
        invariant
            at <= spans@.len(),
            copy@ == spans@.take(at as int),
        decreases spans@.len() - at,
    {
        copy.push(spans[at]);
        at = at + 1;
        assert(spans@.take(at as int) == spans@.take(at - 1).push(spans@[at - 1]));
    }
    assert(spans@.take(at as int) == spans@);
    copy
}

/// The line of an event, with the number it is shown under.
fn line_of_event(event: &MatchEvent, line_number: usize) -> (line: OutputLine)
    ensures
        line@ == (OutputLineView { line_number, ..event_line(*event) }),
{
    OutputLine {
        line_number,
        column: event.column,
        text: event.text.clone(),
        submatches: copy_spans(&event.submatches),
        is_match: true,
    }
}

/// The lines of the events from `start` to `end`.
fn lines_of_events(events: &Vec<MatchEvent>, start: usize, end: usize) -> (lines: Vec<OutputLine>)
    requires
        start <= end <= events@.len(),
    ensures
        line_views(lines@) == event_lines(events@.subrange(start as int, end as int)),
{
    let mut lines: Vec<OutputLine> = Vec::new();
    let mut at: usize = start;
    while at < end
        invariant
            start <= at <= end <= events@.len(),
            lines@.len() == at - start,
            forall|i: int|
                0 <= i < lines@.len() ==> (#[trigger] lines@[i])@ == event_line(events@[start + i]),
        decreases end - at,
    {
        lines.push(line_of_event(&events[at], events[at].line_number));
        at = at + 1;
    }
    assert(line_views(lines@) == event_lines(events@.subrange(start as int, end as int)));
    lines
}

/// What is shown of a line, with the events from `start` to `end`.
fn output_line(
    events: &Vec<MatchEvent>,
    start: usize,
    end: usize,
    file_lines: &Vec<String>,
    line_number: usize,
) -> (line: OutputLine)
    requires
        start <= end <= events@.len(),
        1 <= line_number <= file_lines@.len(),
    ensures
        line@ == shown_line(
            events@.subrange(start as int, end as int),
            texts(file_lines@),
            line_number,
        ),
{
    let ghost all = events@.subrange(start as int, end as int);
    let mut at: usize = start;
    assert(events@.subrange(at as int, end as int) == all);
    while at < end
        invariant
            start <= at <= end <= events@.len(),
            all == events@.subrange(start as int, end as int),
            event_at(all, line_number) == event_at(
                events@.subrange(at as int, end as int),
                line_number,
            ),
        decreases end - at,
    {
        let ghost rest = events@.subrange(at as int, end as int);
        assert(rest[0] == events@[at as int]);
        if events[at].line_number == line_number {
            assert(event_at(rest, line_number) == Some(rest[0]));
            return line_of_event(&events[at], line_number);
        }
        assert(rest.drop_first() == events@.subrange(at + 1, end as int));
        at = at + 1;
    }
    OutputLine {
        line_number,
        column: None,
        text: file_lines[line_number - 1].clone(),
        submatches: Vec::new(),
        is_match: false,
    }
}

/// The lines of a stretch, with the events from `start` to `end`.
fn output_lines(
    events: &Vec<MatchEvent>,
    start: usize,
    end: usize,
    file_lines: &Vec<String>,
    range: &LineRange,
) -> (lines: Vec<OutputLine>)
    requires
        start <= end <= events@.len(),
        range.start >= 1,
        range.end <= file_lines@.len(),
    ensures
        line_views(lines@) == shown_lines(
            events@.subrange(start as int, end as int),
            texts(file_lines@),
            *range,
        ),
{
    let ghost wanted = shown_lines(
        events@.subrange(start as int, end as int),
        texts(file_lines@),
        *range,
    );
    let total: usize = file_lines.len();
    let mut lines: Vec<OutputLine> = Vec::new();
    let mut index: usize = range.start - 1;
    while index < range.end
        invariant
            start <= end <= events@.len(),
            1 <= range.start,
            range.end <= total == file_lines@.len(),
            wanted == shown_lines(
                events@.subrange(start as int, end as int),
                texts(file_lines@),
                *range,
            ),
            range.start - 1 <= index,
            range.start <= range.end ==> index <= range.end,
            range.start > range.end ==> index == range.start - 1,
            lines@.len() == index - (range.start - 1),
            forall|i: int| 0 <= i < lines@.len() ==> (#[trigger] lines@[i])@ == wanted[i],
        decreases range.end - index,
    {
        let line = output_line(events, start, end, file_lines, index + 1);
        assert(wanted[lines@.len() as int] == line@);
        lines.push(line);
        index = index + 1;
    }
    assert(line_views(lines@) == wanted);
    lines
}

/// The blocks of one file, with the events from `start` to `end`.
pub fn build_file_output_blocks(
    path: &FilePath,
    events: &Vec<MatchEvent>,
    start: usize,
    end: usize,
    cli: &Cli,
    file_lines: &Option<Vec<String>>,
) -> (blocks: Vec<OutputBlock>)
    requires
        start <= end <= events@.len(),
    ensures
        block_views(blocks@) == file_blocks(
            *path,
            events@.subrange(start as int, end as int),
            cli.before_context,
            cli.after_context,
            lines_view(*file_lines),
        ),
{
    let ghost these = events@.subrange(start as int, end as int);
    let ghost wanted = file_blocks(
        *path,
        these,
        cli.before_context,
        cli.after_context,
        lines_view(*file_lines),
    );
    let mut blocks: Vec<OutputBlock> = Vec::new();
    let Some(file_lines) = file_lines else {
        blocks.push(
            OutputBlock { path: path.copy(), lines: lines_of_events(events, start, end) },
        );
        assert(block_views(blocks@) == wanted);
        return blocks;
    };
    let mut spans: Vec<(usize, usize)> = Vec::new();
    let mut at: usize = start;
    while at < end
        invariant
            start <= at <= end <= events@.len(),
            these == events@.subrange(start as int, end as int),
            spans@ == event_spans(these).take(at - start),
        decreases end - at,
    {
        let ghost before = spans@;
        spans.push((events[at].line_number, events[at].line_number));
        assert(these[at - start] == events@[at as int]);
        assert(event_spans(these).take(at + 1 - start) == before.push(
            event_spans(these)[at - start],
        ));
        at = at + 1;
    }
    assert(spans@ == event_spans(these));
    let line_count: usize = file_lines.len();
    let span_count: usize = spans.len();
    let ranges = merge_ranges(&spans, cli.before_context, cli.after_context, line_count);
    proof {
        ranges_share_out_the_items(
            spans@,
            cli.before_context,
            cli.after_context,
            line_count,
        );
        assert(texts(file_lines@).len() == line_count);
    }
    let mut index: usize = 0;
    while index < ranges.len()
        invariant
            start <= end <= events@.len(),
            these == events@.subrange(start as int, end as int),
            line_count == file_lines@.len(),
            forall|i: int|
                0 <= i < ranges@.len() ==> 1 <= (#[trigger] ranges@[i]).start && ranges@[i].end
                    <= line_count,
            index == blocks@.len() <= ranges@.len(),
            forall|i: int|
                0 <= i < index ==> (#[trigger] blocks@[i])@ == (OutputBlockView {
                    path: *path,
                    lines: shown_lines(these, texts(file_lines@), ranges@[i]),
                }),
        decreases ranges@.len() - index,
    {
        blocks.push(
            OutputBlock {
                path: path.copy(),
                lines: output_lines(events, start, end, file_lines, &ranges[index]),
            },
        );
        index = index + 1;
    }
    assert(block_views(blocks@) == wanted);
    blocks
}

/// The end of the run of events with the path of the event at `start`, looked for from `at` on.
pub open spec fn run_end(events: Seq<MatchEvent>, start: int, at: int) -> int
    decreases events.len() - at,
{
    if at < events.len() && events[at].path.rank == events[start].path.rank {
        run_end(events, start, at + 1)
    } else {
        at
    }
}

/// The runs of neighbouring events with the same path, from `start` on.
pub open spec fn runs_from(events: Seq<MatchEvent>, start: int) -> Seq<(usize, usize)>
    decreases events.len() - start,
{
    if start >= events.len() {
        Seq::empty()
    } else {
        let end = run_end(events, start, start + 1);
        if start < end <= events.len() {
            seq![(start as usize, end as usize)] + runs_from(events, end)
        } else {
            Seq::empty()
        }
    }
}

/// The runs of neighbouring events with the same path.
pub open spec fn path_runs(events: Seq<MatchEvent>) -> Seq<(usize, usize)> {
    runs_from(events, 0)
}

/// Whether runs follow one another from `start` to the end of the events.
pub open spec fn runs_fit(events: Seq<MatchEvent>, runs: Seq<(usize, usize)>, start: int) -> bool {
    &&& forall|i: int|
        0 <= i < runs.len() ==> start <= (#[trigger] runs[i]).0 < runs[i].1 <= events.len()
    &&& forall|i: int| 0 <= i < runs.len() - 1 ==> (#[trigger] runs[i]).1 == runs[i + 1].0
    &&& runs.len() > 0 ==> runs[0].0 == start && runs.last().1 == events.len()
    &&& runs.len() == 0 ==> start == events.len()
    &&& forall|i: int, event: int|
        0 <= i < runs.len() && (#[trigger] runs[i]).0 <= event < runs[i].1 ==> (
        #[trigger] events[event]).path.rank == events[runs[i].0 as int].path.rank
}

/// A run ends within the events, and all its events have the path of the first.
proof fn lemma_run_end(events: Seq<MatchEvent>, start: int, at: int)
    requires
        0 <= start < at <= events.len(),
        forall|event: int|
            start <= event < at ==> (#[trigger] events[event]).path.rank
                == events[start].path.rank,
    ensures
        at <= run_end(events, start, at) <= events.len(),
        forall|event: int|
            start <= event < run_end(events, start, at) ==> (#[trigger] events[event]).path.rank
                == events[start].path.rank,
    decreases events.len() - at,
{
    if at < events.len() && events[at].path.rank == events[start].path.rank {
        lemma_run_end(events, start, at + 1);
    }
}

/// The runs follow one another, and each holds the events of one path.
pub proof fn runs_share_out_the_events(events: Seq<MatchEvent>, start: int)
    requires
        0 <= start <= events.len() <= usize::MAX,
    ensures
        runs_fit(events, runs_from(events, start), start),
    decreases events.len() - start,
{
    if start < events.len() {
        let end = run_end(events, start, start + 1);
        lemma_run_end(events, start, start + 1);
        runs_share_out_the_events(events, end);
        let rest = runs_from(events, end);
        let runs = runs_from(events, start);
        assert(runs == seq![(start as usize, end as usize)] + rest);
        assert forall|i: int| 0 <= i < runs.len() implies start <= (#[trigger] runs[i]).0
            < runs[i].1 <= events.len() by {
            if i > 0 {
                assert(runs[i] == rest[i - 1]);
            }
        }
        assert forall|i: int| 0 <= i < runs.len() - 1 implies (#[trigger] runs[i]).1 == runs[i
            + 1].0 by {
            assert(runs[i + 1] == rest[i]);
            if i > 0 {
                assert(runs[i] == rest[i - 1]);
            }
        }
        assert forall|i: int, event: int|
            0 <= i < runs.len() && (#[trigger] runs[i]).0 <= event < runs[i].1 implies (
        #[trigger] events[event]).path.rank == events[runs[i].0 as int].path.rank by {
            if i > 0 {
                assert(runs[i] == rest[i - 1]);
            }
        }
        if rest.len() > 0 {
            assert(runs.last() == rest.last());
        }
    }
}

/// The runs of neighbouring events with the same path: each from an event to an event.
pub fn event_runs(events: &Vec<MatchEvent>) -> (runs: Vec<(usize, usize)>)
    ensures
        runs@ == path_runs(events@),
{
    let mut runs: Vec<(usize, usize)> = Vec::new();
    let mut start: usize = 0;
    let ghost all = path_runs(events@);
    assert(runs@ + runs_from(events@, 0) == all);
    while start < events.len()
        invariant
            start <= events@.len(),
            all == path_runs(events@),
            runs@ + runs_from(events@, start as int) == all,
        decreases events@.len() - start,
    {
        let mut end: usize = start + 1;
        while end < events.len() && events[end].path.rank == events[start].path.rank
            invariant
                start < end <= events@.len(),
                run_end(events@, start as int, start + 1) == run_end(
                    events@,
                    start as int,
                    end as int,
                ),
            decreases events@.len() - end,
        {
            end = end + 1;
        }
        let ghost before = runs@;
        runs.push((start, end));
        proof {
            let rest = runs_from(events@, end as int);
            assert(runs_from(events@, start as int) == seq![(start, end)] + rest);
            assert(before + (seq![(start, end)] + rest) == runs@ + rest);
        }
        start = end;
    }
    assert(runs@ + runs_from(events@, start as int) == runs@);
    runs
}

/// The blocks of the first `count` runs.
pub open spec fn run_blocks(
    events: Seq<MatchEvent>,
    runs: Seq<(usize, usize)>,
    before: usize,
    after: usize,
    file_lines: Seq<Option<Vec<String>>>,
    count: int,
) -> Seq<OutputBlockView>
    decreases count,
{
    if count <= 0 {
        Seq::empty()
    } else {
        let (start, end) = runs[count - 1];
        run_blocks(events, runs, before, after, file_lines, count - 1) + file_blocks(
            events[start as int].path,
            events.subrange(start as int, end as int),
            before,
            after,
            lines_view(file_lines[count - 1]),
        )
    }
}

/// The blocks of all events: those of each run of events with one path, one run after the other.
pub open spec fn all_blocks(
    events: Seq<MatchEvent>,
    before: usize,
    after: usize,
    file_lines: Seq<Option<Vec<String>>>,
) -> Seq<OutputBlockView> {
    let runs = path_runs(events);
    run_blocks(events, runs, before, after, file_lines, runs.len() as int)
}

/// The blocks of all events. For each run of events with one path, `file_lines` holds the lines of
/// the file, where they are at hand.
pub fn build_output_blocks(
    events: &Vec<MatchEvent>,
    cli: &Cli,
    file_lines: &Vec<Option<Vec<String>>>,
) -> (blocks: Vec<OutputBlock>)
    requires
        file_lines@.len() == path_runs(events@).len(),
    ensures
        block_views(blocks@) == all_blocks(
            events@,
            cli.before_context,
            cli.after_context,
            file_lines@,
        ),
{
    let runs = event_runs(events);
    let total: usize = events.len();
    proof {
        runs_share_out_the_events(events@, 0);
    }
    let mut blocks: Vec<OutputBlock> = Vec::new();
    let mut at: usize = 0;
    assert(block_views(blocks@) == run_blocks(
        events@,
        runs@,
        cli.before_context,
        cli.after_context,
        file_lines@,
        0,
    ));
    while at < runs.len()
        invariant
            file_lines@.len() == runs@.len(),
            runs_fit(events@, runs@, 0),
            at <= runs@.len(),
            block_views(blocks@) == run_blocks(
                events@,
                runs@,
                cli.before_context,
                cli.after_context,
                file_lines@,
                at as int,
            ),
        decreases runs@.len() - at,
    {
        let (start, end) = runs[at];
        let mut more = build_file_output_blocks(
            &events[start].path,
            events,
            start,
            end,
            cli,
            &file_lines[at],
        );
        let ghost before = blocks@;
        let ghost added = more@;
        blocks.append(&mut more);
        assert(block_views(blocks@) == block_views(before) + block_views(added));
        at = at + 1;
    }
    blocks
}

} // verus!
