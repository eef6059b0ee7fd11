//! What holds of standard output without lines around matches.

use vstd::prelude::*;

use crate::blocks::{
    all_blocks, event_at, event_line, event_lines, event_spans, file_blocks, lines_view,
    path_runs, run_blocks, runs_fit, runs_share_out_the_events, shown_line, shown_lines,
    OutputBlockView, OutputLineView,
};
use crate::candidate::FilePath;
use crate::cli::Cli;
use crate::context::{merged_ranges, LineRange};
use crate::sinks::MatchEvent;
use crate::standard::{
    block_opening, coloured, printed_blocks, printed_line, printed_lines, shows_heading,
    shows_line_numbers, shows_path, standard_output, Surroundings,
};
use crate::text::joined;

verus! {

/// Whether events have ascending line numbers within a file of `line_count` lines.
pub open spec fn lines_ascend(events: Seq<MatchEvent>, line_count: nat) -> bool {
    &&& forall|i: int|
        0 <= i < events.len() ==> 1 <= (#[trigger] events[i]).line_number <= line_count
    &&& forall|i: int, j: int|
        0 <= i < j < events.len() ==> (#[trigger] events[i]).line_number < (
        #[trigger] events[j]).line_number
}

/// The lines shown of stretches, one after the other.
spec fn lines_of_ranges(
    events: Seq<MatchEvent>,
    lines: Seq<Seq<char>>,
    ranges: Seq<LineRange>,
) -> Seq<OutputLineView>
    decreases ranges.len(),
{
    if ranges.len() == 0 {
        Seq::empty()
    } else {
        lines_of_ranges(events, lines, ranges.drop_last()) + shown_lines(
            events,
            lines,
            ranges.last(),
        )
    }
}

/// The event with the number of an event is that event, where numbers ascend.
proof fn lemma_event_at(events: Seq<MatchEvent>, at: int)
    requires
        0 <= at < events.len(),
        forall|i: int, j: int|
            0 <= i < j < events.len() ==> (#[trigger] events[i]).line_number < (
            #[trigger] events[j]).line_number,
    ensures
        event_at(events, events[at].line_number) == Some(events[at]),
    decreases events.len(),
{
    if at > 0 {
        let rest = events.drop_first();
        assert(events[0].line_number < events[at].line_number);
        assert forall|i: int, j: int| 0 <= i < j < rest.len() implies (
        #[trigger] rest[i]).line_number < (#[trigger] rest[j]).line_number by {
            assert(events[i + 1].line_number < events[j + 1].line_number);
        }
        lemma_event_at(rest, at - 1);
        assert(rest[at - 1] == events[at]);
    }
}

/// Without lines around matches, the stretches show the lines that match, and no others.
proof fn lemma_ranges_show_events(events: Seq<MatchEvent>, lines: Seq<Seq<char>>, count: int)
    requires
        0 <= count <= events.len() <= usize::MAX,
        lines.len() <= usize::MAX,
        lines_ascend(events, lines.len()),
    ensures
        ({
            let ranges = merged_ranges(
                event_spans(events).take(count),
                0,
                0,
                lines.len() as usize,
            );
            &&& lines_of_ranges(events, lines, ranges) == event_lines(events).take(count)
            &&& ranges.len() == 0 <==> count == 0
            &&& count > 0 ==> ranges.last().start <= ranges.last().end
                == events[count - 1].line_number
        }),
    decreases count,
{
    let line_count = lines.len() as usize;
    let spans = event_spans(events);
    let ranges = merged_ranges(spans.take(count), 0, 0, line_count);
    let wanted = event_lines(events);
    if count > 0 {
        lemma_ranges_show_events(events, lines, count - 1);
        let earlier = merged_ranges(spans.take(count - 1), 0, 0, line_count);
        assert(spans.take(count).drop_last() == spans.take(count - 1));
        let event = events[count - 1];
        let number = event.line_number;
        assert(spans.take(count).last() == (number, number));
        lemma_event_at(events, count - 1);
        let shown = shown_line(events, lines, number);
        assert(shown == event_line(event));
        assert(wanted.take(count) == wanted.take(count - 1).push(event_line(event)));
        if count > 1 && number <= earlier.last().end + 1 {
            let old = earlier.last();
            let new = ranges.last();
            assert(events[count - 2].line_number < number);
            assert(new.start == old.start && new.end == number && old.end == number - 1);
            assert(ranges.drop_last() == earlier.drop_last());
            assert(shown_lines(events, lines, new) == shown_lines(events, lines, old).push(
                shown,
            )) by {
                let left = shown_lines(events, lines, new);
                let right = shown_lines(events, lines, old).push(shown);
                assert(left.len() == right.len());
                assert forall|i: int| 0 <= i < left.len() implies left[i] == right[i] by {}
            }
            assert(lines_of_ranges(events, lines, earlier.drop_last()) + shown_lines(
                events,
                lines,
                old,
            ).push(shown) == (lines_of_ranges(events, lines, earlier.drop_last()) + shown_lines(
                events,
                lines,
                old,
            )).push(shown));
        } else {
            let new = ranges.last();
            assert(ranges.drop_last() == earlier);
            assert(new.start == number && new.end == number);
            assert(shown_lines(events, lines, new) == seq![shown]) by {
                let left = shown_lines(events, lines, new);
                assert(left.len() == 1);
                assert(left[0] == shown);
            }
        }
    } else {
        assert(spans.take(0) == Seq::<(usize, usize)>::empty());
        assert(wanted.take(0) == Seq::<OutputLineView>::empty());
    }
}

/// The lines printed for lines of a file.
pub open spec fn printed_each(
    path: FilePath,
    lines: Seq<OutputLineView>,
    cli: Cli,
    around: Surroundings,
) -> Seq<Seq<char>> {
    Seq::new(lines.len(), |i: int| printed_line(path, lines[i], cli, around))
}

/// The lines printed for the blocks of a file are those of its stretches.
proof fn lemma_printed_blocks_of_ranges(
    earlier: Seq<OutputBlockView>,
    path: FilePath,
    events: Seq<MatchEvent>,
    lines: Seq<Seq<char>>,
    ranges: Seq<LineRange>,
    cli: Cli,
    around: Surroundings,
)
    requires
        cli.before_context == 0,
        cli.after_context == 0,
        !shows_heading(cli, around),
    ensures
        ({
            let blocks = Seq::new(
                ranges.len(),
                |i: int| OutputBlockView { path, lines: shown_lines(events, lines, ranges[i]) },
            );
            printed_blocks(earlier + blocks, (earlier + blocks).len() as int, cli, around)
                == printed_blocks(earlier, earlier.len() as int, cli, around) + printed_each(
                path,
                lines_of_ranges(events, lines, ranges),
                cli,
                around,
            )
        }),
    decreases ranges.len(),
{
    let blocks = Seq::new(
        ranges.len(),
        |i: int| OutputBlockView { path, lines: shown_lines(events, lines, ranges[i]) },
    );
    let all = earlier + blocks;
    if ranges.len() == 0 {
        assert(all == earlier);
        assert(printed_each(path, lines_of_ranges(events, lines, ranges), cli, around) == Seq::<
            Seq<char>,
        >::empty());
    } else {
        let front = ranges.drop_last();
        let fewer = Seq::new(
            front.len(),
            |i: int| OutputBlockView { path, lines: shown_lines(events, lines, front[i]) },
        );
        lemma_printed_blocks_of_ranges(earlier, path, events, lines, front, cli, around);
        let count = all.len() as int;
        let some = earlier + fewer;
        assert(all.take(count - 1) == some);
        lemma_printed_blocks_take(all, count - 1, cli, around);
        assert(block_opening(
            all,
            count - 1,
            printed_blocks(all, count - 1, cli, around).len() > 0,
            cli,
            around,
        ) == Seq::<Seq<char>>::empty());
        let last = shown_lines(events, lines, ranges.last());
        assert(all[count - 1] == (OutputBlockView { path, lines: last }));
        assert(printed_lines(all[count - 1], cli, around) == printed_each(path, last, cli, around));
        let before = lines_of_ranges(events, lines, front);
        assert(printed_each(path, before + last, cli, around) == printed_each(
            path,
            before,
            cli,
            around,
        ) + printed_each(path, last, cli, around));
        let start = printed_blocks(earlier, earlier.len() as int, cli, around);
        assert(start + printed_each(path, before, cli, around) + Seq::<Seq<char>>::empty()
            + printed_each(path, last, cli, around) == start + (printed_each(
            path,
            before,
            cli,
            around,
        ) + printed_each(path, last, cli, around)));
    }
}

/// What is printed for the first blocks depends on these alone.
proof fn lemma_printed_blocks_take(
    blocks: Seq<OutputBlockView>,
    count: int,
    cli: Cli,
    around: Surroundings,
)
    requires
        0 <= count <= blocks.len(),
    ensures
        printed_blocks(blocks, count, cli, around) == printed_blocks(
            blocks.take(count),
            count,
            cli,
            around,
        ),
    decreases count,
{
    if count > 0 {
        let some = blocks.take(count);
        lemma_printed_blocks_take(blocks, count - 1, cli, around);
        lemma_printed_blocks_take(some, count - 1, cli, around);
        assert(some.take(count - 1) == blocks.take(count - 1));
        assert(some[count - 1] == blocks[count - 1]);
        if count > 1 {
            assert(some[count - 2] == blocks[count - 2]);
        }
    }
}

/// Whether a run of events can be shown: its line numbers ascend within the lines of the file,
/// where these are at hand, and all its events have one path.
pub open spec fn run_ordered(
    events: Seq<MatchEvent>,
    run: (usize, usize),
    file_lines: Option<Vec<String>>,
) -> bool {
    let part = events.subrange(run.0 as int, run.1 as int);
    &&& match lines_view(file_lines) {
        Some(lines) => lines.len() <= usize::MAX && lines_ascend(part, lines.len()),
        None => true,
    }
    &&& forall|i: int| 0 <= i < part.len() ==> (#[trigger] part[i]).path == part[0].path
}

/// What is printed for an event.
pub open spec fn printed_event(event: MatchEvent, cli: Cli, around: Surroundings) -> Seq<char> {
    printed_line(event.path, event_line(event), cli, around)
}

/// What is printed for events, one line for each.
pub open spec fn printed_events(events: Seq<MatchEvent>, cli: Cli, around: Surroundings) -> Seq<
    Seq<char>,
> {
    Seq::new(events.len(), |i: int| printed_event(events[i], cli, around))
}

/// What is printed for the events of a run.
proof fn lemma_printed_run(
    earlier: Seq<OutputBlockView>,
    events: Seq<MatchEvent>,
    run: (usize, usize),
    file_lines: Option<Vec<String>>,
    cli: Cli,
    around: Surroundings,
)
    requires
        cli.before_context == 0,
        cli.after_context == 0,
        !shows_heading(cli, around),
        run.0 < run.1 <= events.len() <= usize::MAX,
        run_ordered(events, run, file_lines),
    ensures
        ({
            let part = events.subrange(run.0 as int, run.1 as int);
            let all = earlier + file_blocks(
                events[run.0 as int].path,
                part,
                0,
                0,
                lines_view(file_lines),
            );
            printed_blocks(all, all.len() as int, cli, around) == printed_blocks(
                earlier,
                earlier.len() as int,
                cli,
                around,
            ) + printed_events(part, cli, around)
        }),
{
    let part = events.subrange(run.0 as int, run.1 as int);
    let path = events[run.0 as int].path;
    assert(part[0].path == path);
    let blocks = file_blocks(path, part, 0, 0, lines_view(file_lines));
    assert(printed_each(path, event_lines(part), cli, around) == printed_events(
        part,
        cli,
        around,
    )) by {
        assert forall|i: int| 0 <= i < part.len() implies #[trigger] printed_each(
            path,
            event_lines(part),
            cli,
            around,
        )[i] == printed_events(part, cli, around)[i] by {
            assert(part[i].path == path);
        }
    }
    match lines_view(file_lines) {
        Some(lines) => {
            let ranges = merged_ranges(event_spans(part), 0, 0, lines.len() as usize);
            lemma_ranges_show_events(part, lines, part.len() as int);
            assert(event_spans(part).take(part.len() as int) == event_spans(part));
            assert(event_lines(part).take(part.len() as int) == event_lines(part));
            lemma_printed_blocks_of_ranges(earlier, path, part, lines, ranges, cli, around);
            assert(blocks == Seq::new(
                ranges.len(),
                |i: int| OutputBlockView { path, lines: shown_lines(part, lines, ranges[i]) },
            ));
        },
        None => {
            let all = earlier + blocks;
            let count = all.len() as int;
            assert(all.take(count - 1) == earlier);
            lemma_printed_blocks_take(all, count - 1, cli, around);
            assert(all[count - 1] == (OutputBlockView { path, lines: event_lines(part) }));
            assert(printed_lines(all[count - 1], cli, around) == printed_each(
                path,
                event_lines(part),
                cli,
                around,
            ));
            assert(block_opening(
                all,
                count - 1,
                printed_blocks(all, count - 1, cli, around).len() > 0,
                cli,
                around,
            ) == Seq::<Seq<char>>::empty());
            let start = printed_blocks(earlier, earlier.len() as int, cli, around);
            assert(start + Seq::<Seq<char>>::empty() + printed_events(part, cli, around) == start
                + printed_events(part, cli, around));
        },
    }
}

/// What is printed for the first runs.
proof fn lemma_printed_runs(
    events: Seq<MatchEvent>,
    runs: Seq<(usize, usize)>,
    file_lines: Seq<Option<Vec<String>>>,
    cli: Cli,
    around: Surroundings,
    count: int,
)
    requires
        cli.before_context == 0,
        cli.after_context == 0,
        !shows_heading(cli, around),
        events.len() <= usize::MAX,
        runs_fit(events, runs, 0),
        0 <= count <= runs.len(),
        forall|i: int|
            0 <= i < runs.len() ==> #[trigger] run_ordered(events, runs[i], file_lines[i]),
    ensures
        ({
            let blocks = run_blocks(events, runs, 0, 0, file_lines, count);
            let end = if count == 0 {
                0
            } else {
                runs[count - 1].1 as int
            };
            printed_blocks(blocks, blocks.len() as int, cli, around) == printed_events(
                events.take(end),
                cli,
                around,
            )
        }),
    decreases count,
{
    let blocks = run_blocks(events, runs, 0, 0, file_lines, count);
    if count == 0 {
        assert(printed_events(events.take(0), cli, around) == Seq::<Seq<char>>::empty());
    } else {
        lemma_printed_runs(events, runs, file_lines, cli, around, count - 1);
        let earlier = run_blocks(events, runs, 0, 0, file_lines, count - 1);
        let (start, end) = runs[count - 1];
        let before = if count == 1 {
            0
        } else {
            runs[count - 2].1 as int
        };
        assert(before == start) by {
            if count > 1 {
                assert(runs[count - 2].1 == runs[count - 1].0);
            }
        }
        assert(run_ordered(events, runs[count - 1], file_lines[count - 1]));
        lemma_printed_run(
            earlier,
            events,
            runs[count - 1],
            file_lines[count - 1],
            cli,
            around,
        );
        assert(printed_events(events.take(start as int), cli, around) + printed_events(
            events.subrange(start as int, end as int),
            cli,
            around,
        ) == printed_events(events.take(end as int), cli, around));
    }
}

/// Without lines around matches and without headings, standard output has one line for each line
/// that matches, in order.
pub proof fn output_has_a_line_for_each_match(
    events: Seq<MatchEvent>,
    file_lines: Seq<Option<Vec<String>>>,
    cli: Cli,
    around: Surroundings,
)
    requires
        cli.before_context == 0,
        cli.after_context == 0,
        !shows_heading(cli, around),
        events.len() <= usize::MAX,
        file_lines.len() == path_runs(events).len(),
        forall|i: int|
            0 <= i < path_runs(events).len() ==> #[trigger] run_ordered(
                events,
                path_runs(events)[i],
                file_lines[i],
            ),
    ensures
        standard_output(all_blocks(events, 0, 0, file_lines), cli, around) == joined(
            printed_events(events, cli, around),
            "\n"@,
        ),
{
    let runs = path_runs(events);
    runs_share_out_the_events(events, 0);
    lemma_printed_runs(events, runs, file_lines, cli, around, runs.len() as int);
    assert(events.take(events.len() as int) == events);
    if runs.len() > 0 {
        assert(runs.last() == runs[runs.len() - 1]);
    } else {
        assert(events.take(0) == events);
    }
}

/// The search of one file prints just the lines that match, unless it is told otherwise.
pub proof fn one_file_prints_just_its_lines(
    events: Seq<MatchEvent>,
    file_lines: Seq<Option<Vec<String>>>,
    cli: Cli,
    around: Surroundings,
)
    requires
        cli.roots@.len() == 1,
        around.first_root_is_file,
        !shows_line_numbers(cli),
        !coloured(cli, around.stdout_is_terminal),
        events.len() <= usize::MAX,
        file_lines.len() == path_runs(events).len(),
        forall|i: int|
            0 <= i < path_runs(events).len() ==> #[trigger] run_ordered(
                events,
                path_runs(events)[i],
                file_lines[i],
            ),
    ensures
        standard_output(all_blocks(events, 0, 0, file_lines), cli, around) == joined(
            Seq::new(events.len(), |i: int| events[i].text@),
            "\n"@,
        ),
{
    assert(!shows_path(cli, around.first_root_is_file));
    output_has_a_line_for_each_match(events, file_lines, cli, around);
    assert(printed_events(events, cli, around) == Seq::new(
        events.len(),
        |i: int| events[i].text@,
    ));
}

} // verus!
