//! Lines around matches: stretches of a file, with those that touch put together.

use vstd::prelude::*;

verus! {

/// A stretch of lines, and the items that it was made for.
#[derive(Debug, Clone, Copy, PartialEq, Eq, Structural)]
pub struct LineRange {
    /// The first line, counted from one.
    pub start: usize,
    /// The last line.
    pub end: usize,
    /// The first of the items, by index.
    pub first: usize,
    /// The last of the items.
    pub last: usize,
}

/// The first line shown for an item that starts at `line`.
pub open spec fn shown_from(line: usize, before: usize) -> int {
    if line - before > 1 {
        line - before
    } else {
        1
    }
}

/// The last line shown for an item that ends at `line`, in a file of `line_count` lines.
pub open spec fn shown_to(line: usize, after: usize, line_count: usize) -> int {
    if line + after < line_count {
        line + after
    } else {
        line_count as int
    }
}

/// The stretches of lines shown for items, each given by its first and last line: the lines of an
/// item with the lines around it, and one stretch for neighbours that overlap or touch.
pub open spec fn merged_ranges(
    spans: Seq<(usize, usize)>,
    before: usize,
    after: usize,
    line_count: usize,
) -> Seq<LineRange>
    decreases spans.len(),
{
    if spans.len() == 0 {
        Seq::empty()
    } else {
        let earlier = merged_ranges(spans.drop_last(), before, after, line_count);
        let start = shown_from(spans.last().0, before) as usize;
        let end = shown_to(spans.last().1, after, line_count) as usize;
        let item = (spans.len() - 1) as usize;
        if earlier.len() > 0 && start <= earlier.last().end + 1 {
            let previous = earlier.last();
            earlier.drop_last().push(
                LineRange {
                    start: previous.start,
                    end: if end > previous.end {
                        end
                    } else {
                        previous.end
                    },
                    first: previous.first,
                    last: item,
                },
            )
        } else {
            earlier.push(LineRange { start, end, first: item, last: item })
        }
    }
}

/// Whether a line lies in one of the stretches.
pub open spec fn in_some_range(ranges: Seq<LineRange>, line: int) -> bool {
    exists|i: int| 0 <= i < ranges.len() && in_range(#[trigger] ranges[i], line)
}

/// Whether a line lies in a stretch.
pub open spec fn in_range(range: LineRange, line: int) -> bool {
    range.start <= line <= range.end
}

/// Whether a line is shown for an item.
pub open spec fn near(
    span: (usize, usize),
    before: usize,
    after: usize,
    line_count: usize,
    line: int,
) -> bool {
    shown_from(span.0, before) <= line <= shown_to(span.1, after, line_count)
}

/// Whether a line is shown for one of the items.
pub open spec fn near_some(
    spans: Seq<(usize, usize)>,
    before: usize,
    after: usize,
    line_count: usize,
    line: int,
) -> bool {
    exists|i: int|
        0 <= i < spans.len() && near(#[trigger] spans[i], before, after, line_count, line)
}

/// Whether the items start in ascending order.
pub open spec fn starts_ascend(spans: Seq<(usize, usize)>) -> bool {
    forall|i: int, j: int|
        0 <= i < j < spans.len() ==> (#[trigger] spans[i]).0 <= (#[trigger] spans[j]).0
}

/// Whether each stretch starts more than one line after the one before ends.
pub open spec fn apart(ranges: Seq<LineRange>) -> bool {
    forall|i: int, j: int|
        0 <= i < j < ranges.len() ==> (#[trigger] ranges[i]).end + 1 < (#[trigger] ranges[j]).start
}

/// Whether the stretches share out `count` items: each item belongs to one stretch, in order.
pub open spec fn shares_out(ranges: Seq<LineRange>, count: nat) -> bool {
    &&& ranges.len() == 0 <==> count == 0
    &&& ranges.len() > 0 ==> ranges[0].first == 0 && ranges.last().last == count - 1
    &&& forall|i: int| 0 <= i < ranges.len() ==> (#[trigger] ranges[i]).first <= ranges[i].last
    &&& forall|i: int|
        0 < i < ranges.len() ==> (#[trigger] ranges[i]).first == ranges[i - 1].last + 1
}

/// Every item belongs to exactly one stretch, and the stretches lie within the file.
pub proof fn ranges_share_out_the_items(
    spans: Seq<(usize, usize)>,
    before: usize,
    after: usize,
    line_count: usize,
)
    requires
        spans.len() <= usize::MAX,
    ensures
        shares_out(merged_ranges(spans, before, after, line_count), spans.len()),
        forall|i: int|
            0 <= i < merged_ranges(spans, before, after, line_count).len() ==> 1 <= (
            #[trigger] merged_ranges(spans, before, after, line_count)[i]).start
                && merged_ranges(spans, before, after, line_count)[i].end <= line_count,
    decreases spans.len(),
{
    if spans.len() > 0 {
        ranges_share_out_the_items(spans.drop_last(), before, after, line_count);
        let earlier = merged_ranges(spans.drop_last(), before, after, line_count);
        let ranges = merged_ranges(spans, before, after, line_count);
        assert forall|i: int| 0 < i < ranges.len() implies (#[trigger] ranges[i]).first == ranges[i
            - 1].last + 1 by {
            if i < earlier.len() {
                assert(earlier[i].first == earlier[i - 1].last + 1);
            }
        }
        assert forall|i: int| 0 <= i < ranges.len() implies (#[trigger] ranges[i]).first
            <= ranges[i].last && 1 <= ranges[i].start && ranges[i].end <= line_count by {
            if i < earlier.len() {
                assert(earlier[i].first <= earlier[i].last);
            }
        }
    }
}

/// Where the items start in ascending order, a line is shown exactly where it is near an item, no
/// line is shown twice, and stretches that touch are one.
pub proof fn ranges_show_the_lines_near_items(
    spans: Seq<(usize, usize)>,
    before: usize,
    after: usize,
    line_count: usize,
)
    requires
        spans.len() <= usize::MAX,
        starts_ascend(spans),
    ensures
        apart(merged_ranges(spans, before, after, line_count)),
        forall|line: int| #[trigger]
            in_some_range(merged_ranges(spans, before, after, line_count), line) <==> near_some(
                spans,
                before,
                after,
                line_count,
                line,
            ),
{
    lemma_ranges(spans, before, after, line_count);
}

/// The stretches lie apart, the last of them starts no later than the last item, and they hold the
/// lines near items.
proof fn lemma_ranges(
    spans: Seq<(usize, usize)>,
    before: usize,
    after: usize,
    line_count: usize,
)
    requires
        spans.len() <= usize::MAX,
        starts_ascend(spans),
    ensures
        ({
            let ranges = merged_ranges(spans, before, after, line_count);
            &&& apart(ranges)
            &&& spans.len() > 0 ==> ranges.len() > 0 && ranges.last().start <= shown_from(
                spans.last().0,
                before,
            )
            &&& forall|line: int| #[trigger]
                in_some_range(ranges, line) <==> near_some(spans, before, after, line_count, line)
        }),
    decreases spans.len(),
{
    let ranges = merged_ranges(spans, before, after, line_count);
    if spans.len() > 0 {
        let front = spans.drop_last();
        assert(starts_ascend(front));
        lemma_ranges(front, before, after, line_count);
        let earlier = merged_ranges(front, before, after, line_count);
        let start = shown_from(spans.last().0, before) as usize;
        let end = shown_to(spans.last().1, after, line_count) as usize;
        if front.len() > 0 {
            assert(front.last() == spans[front.len() - 1]);
            assert(earlier.last().start <= start);
        }
        assert forall|line: int| #[trigger]
            in_some_range(ranges, line) <==> near_some(spans, before, after, line_count, line) by {
            lemma_near_some_front(spans, before, after, line_count, line);
            assert(in_some_range(earlier, line) <==> near_some(
                front,
                before,
                after,
                line_count,
                line,
            ));
            if earlier.len() > 0 && start <= earlier.last().end + 1 {
                lemma_in_some_range_last(earlier, line);
                lemma_in_some_range_last(ranges, line);
                assert(ranges.drop_last() == earlier.drop_last());
            } else {
                lemma_in_some_range_last(ranges, line);
                assert(ranges.drop_last() == earlier);
            }
        }
    } else {
        assert forall|line: int| #[trigger] in_some_range(ranges, line) implies near_some(
            spans,
            before,
            after,
            line_count,
            line,
        ) by {}
    }
}

/// A line is near one of the items where it is near one of all but the last, or near the last.
proof fn lemma_near_some_front(
    spans: Seq<(usize, usize)>,
    before: usize,
    after: usize,
    line_count: usize,
    line: int,
)
    requires
        spans.len() > 0,
    ensures
        near_some(spans, before, after, line_count, line) <==> near_some(
            spans.drop_last(),
            before,
            after,
            line_count,
            line,
        ) || near(spans.last(), before, after, line_count, line),
{
    let front = spans.drop_last();
    if near_some(front, before, after, line_count, line) {
        let i = choose|i: int|
            0 <= i < front.len() && near(#[trigger] front[i], before, after, line_count, line);
        assert(spans[i] == front[i]);
    }
    if near(spans.last(), before, after, line_count, line) {
        assert(spans[spans.len() - 1] == spans.last());
    }
    if near_some(spans, before, after, line_count, line) {
        let i = choose|i: int|
            0 <= i < spans.len() && near(#[trigger] spans[i], before, after, line_count, line);
        if i < front.len() {
            assert(front[i] == spans[i]);
        }
    }
}

/// A line is in one of the stretches where it is in one of all but the last, or in the last.
proof fn lemma_in_some_range_last(ranges: Seq<LineRange>, line: int)
    requires
        ranges.len() > 0,
    ensures
        in_some_range(ranges, line) <==> in_some_range(ranges.drop_last(), line) || in_range(
            ranges.last(),
            line,
        ),
{
    let front = ranges.drop_last();
    if in_some_range(front, line) {
        let i = choose|i: int| 0 <= i < front.len() && in_range(#[trigger] front[i], line);
        assert(ranges[i] == front[i]);
    }
    if in_range(ranges.last(), line) {
        assert(ranges[ranges.len() - 1] == ranges.last());
    }
    if in_some_range(ranges, line) {
        let i = choose|i: int| 0 <= i < ranges.len() && in_range(#[trigger] ranges[i], line);
        if i < front.len() {
            assert(front[i] == ranges[i]);
        }
    }
}

/// The stretches of lines shown for items.
pub fn merge_ranges(
    spans: &Vec<(usize, usize)>,
    before: usize,
    after: usize,
    line_count: usize,
) -> (ranges: Vec<LineRange>)
    ensures
        ranges@ == merged_ranges(spans@, before, after, line_count),
{
    let mut ranges: Vec<LineRange> = Vec::new();
    let mut at: usize = 0;
    while at < spans.len()
        invariant
            at <= spans@.len(),
            ranges@ == merged_ranges(spans@.take(at as int), before, after, line_count),
            forall|i: int| 0 <= i < ranges@.len() ==> (#[trigger] ranges@[i]).end <= line_count,
        decreases spans@.len() - at,
    {
        let (first_line, last_line) = spans[at];
        let start: usize = if first_line > before && first_line - before > 1 {
            first_line - before
        } else {
            1
        };
        let end: usize = if last_line < line_count && after < line_count - last_line {
            last_line + after
        } else {
            line_count
        };
        proof {
            let done = spans@.take(at + 1);
            assert(done.drop_last() == spans@.take(at as int));
            assert(done.last() == spans@[at as int]);
        }
        let ghost earlier = ranges@;
        match ranges.pop() {
            Some(previous) => {
                assert(previous == earlier.last());
                assert(ranges@ == earlier.drop_last());
                if start - 1 <= previous.end {
                    ranges.push(
                        LineRange {
                            start: previous.start,
                            end: if end > previous.end {
                                end
                            } else {
                                previous.end
                            },
                            first: previous.first,
                            last: at,
                        },
                    );
                } else {
                    ranges.push(previous);
                    assert(ranges@ == earlier);
                    ranges.push(LineRange { start, end, first: at, last: at });
                }
            },
            None => {
                assert(ranges@ == earlier);
                ranges.push(LineRange { start, end, first: at, last: at });
            },
        }
        at = at + 1;
    }
    assert(spans@.take(at as int) == spans@);
    ranges
}

} // verus!
