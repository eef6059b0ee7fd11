//! The terms of a query among the matched lines of a file: which lines hold them all, and how far
//! apart these are.

use vstd::prelude::*;

use crate::candidate::LineMatchRecord;

verus! {

/// Whether a line from `start` to `end`, both of them taken in, matches the term.
pub open spec fn term_within(
    matches: Seq<LineMatchRecord>,
    start: int,
    end: int,
    term: usize,
) -> bool {
    exists|line: int|
        start <= line <= end && (#[trigger] matches[line]).matched_terms@.contains(term)
}

/// Whether the lines from `start` to `end` match all terms between them.
pub open spec fn covers(
    matches: Seq<LineMatchRecord>,
    start: int,
    end: int,
    term_count: usize,
) -> bool {
    forall|term: usize| term < term_count ==> #[trigger] term_within(matches, start, end, term)
}

/// How many lines of the file the stretch from match `start` to match `end` takes.
pub open spec fn span(matches: Seq<LineMatchRecord>, start: int, end: int) -> int {
    let first = matches[start].line_number as int;
    let last = matches[end].line_number as int;
    if last >= first {
        last - first + 1
    } else {
        1
    }
}

/// Whether the lines from `start` to `end` match all terms and would not without the last of them.
pub open spec fn newly_covers(
    matches: Seq<LineMatchRecord>,
    start: int,
    end: int,
    term_count: usize,
) -> bool {
    &&& 0 <= start <= end < matches.len()
    &&& covers(matches, start, end, term_count)
    &&& !covers(matches, start, end - 1, term_count)
}

/// Whether `best` is the smallest span of the stretches that newly match all terms; nothing where
/// there is none.
pub open spec fn is_smallest_span(
    matches: Seq<LineMatchRecord>,
    term_count: usize,
    best: Option<usize>,
) -> bool {
    match best {
        Some(best) => {
            &&& exists|start: int, end: int|
                #[trigger] newly_covers(matches, start, end, term_count) && span(matches, start, end)
                    == best
            &&& forall|start: int, end: int| #[trigger]
                newly_covers(matches, start, end, term_count) ==> best <= span(matches, start, end)
        },
        None => forall|start: int, end: int|
            !#[trigger] newly_covers(matches, start, end, term_count),
    }
}

/// Whether the matches stand in the order of their lines.
pub open spec fn in_line_order(matches: Seq<LineMatchRecord>) -> bool {
    forall|i: int, j: int|
        0 <= i <= j < matches.len() ==> (#[trigger] matches[i]).line_number <= (
        #[trigger] matches[j]).line_number
}

/// More lines match no fewer terms.
proof fn lemma_covers_wider(
    matches: Seq<LineMatchRecord>,
    start: int,
    end: int,
    wider_start: int,
    wider_end: int,
    term_count: usize,
)
    requires
        wider_start <= start,
        end <= wider_end,
        covers(matches, start, end, term_count),
    ensures
        covers(matches, wider_start, wider_end, term_count),
{
    assert forall|term: usize| term < term_count implies #[trigger] term_within(
        matches,
        wider_start,
        wider_end,
        term,
    ) by {
        assert(term_within(matches, start, end, term));
        let line = choose|line: int|
            start <= line <= end && (#[trigger] matches[line]).matched_terms@.contains(term);
        assert(matches[line].matched_terms@.contains(term));
    }
}

/// A stretch that matches all terms newly does so at one of its ends.
proof fn lemma_newly_covers_within(
    matches: Seq<LineMatchRecord>,
    start: int,
    end: int,
    term_count: usize,
) -> (last: int)
    requires
        term_count > 0,
        0 <= start <= end < matches.len(),
        covers(matches, start, end, term_count),
    ensures
        start <= last <= end,
        newly_covers(matches, start, last, term_count),
    decreases end - start,
{
    if covers(matches, start, end - 1, term_count) {
        if start == end {
            assert(term_within(matches, start, end - 1, 0));
            assert(false);
        }
        lemma_newly_covers_within(matches, start, end - 1, term_count)
    } else {
        end
    }
}

/// Where the matches stand in the order of their lines, the smallest span is the smallest of all
/// stretches that match all terms, and there is one as soon as some stretch does.
pub proof fn smallest_span_is_smallest_of_all(
    matches: Seq<LineMatchRecord>,
    term_count: usize,
    best: Option<usize>,
)
    requires
        term_count > 0,
        in_line_order(matches),
        is_smallest_span(matches, term_count, best),
    ensures
        forall|start: int, end: int|
            0 <= start <= end < matches.len() && #[trigger] covers(matches, start, end, term_count)
                ==> best is Some && best->0 <= span(matches, start, end),
        best is Some ==> exists|start: int, end: int|
            0 <= start <= end < matches.len() && #[trigger] covers(matches, start, end, term_count)
                && span(matches, start, end) == best->0,
{
    assert forall|start: int, end: int|
        0 <= start <= end < matches.len() && #[trigger] covers(
            matches,
            start,
            end,
            term_count,
        ) implies best is Some && best->0 <= span(matches, start, end) by {
        let last = lemma_newly_covers_within(matches, start, end, term_count);
        assert(newly_covers(matches, start, last, term_count));
        assert(matches[start].line_number <= matches[last].line_number);
        assert(matches[last].line_number <= matches[end].line_number);
    }
    if best is Some {
        let (start, end) = choose|start: int, end: int|
            #[trigger] newly_covers(matches, start, end, term_count) && span(matches, start, end)
                == best->0;
        assert(covers(matches, start, end, term_count));
    }
}

/// The number of lines from `start` on and before `end` that match the term.
spec fn lines_with(matches: Seq<LineMatchRecord>, start: int, end: int, term: usize) -> nat
    decreases end - start,
{
    if end <= start {
        0
    } else {
        lines_with(matches, start, end - 1, term) + if matches[end - 1].matched_terms@.contains(
            term,
        ) {
            1nat
        } else {
            0nat
        }
    }
}

/// The number of lines with a term, counted from the front.
proof fn lemma_lines_with_front(matches: Seq<LineMatchRecord>, start: int, end: int, term: usize)
    requires
        start < end,
    ensures
        lines_with(matches, start, end, term) == lines_with(matches, start + 1, end, term)
            + if matches[start].matched_terms@.contains(term) {
            1nat
        } else {
            0nat
        },
    decreases end - start,
{
    if start < end - 1 {
        lemma_lines_with_front(matches, start, end - 1, term);
    } else {
        assert(lines_with(matches, start, start, term) == 0);
    }
}

/// Some line has the term where the number of lines with it is not zero, and there are no more such
/// lines than lines.
proof fn lemma_lines_with(matches: Seq<LineMatchRecord>, start: int, end: int, term: usize)
    requires
        start <= end,
    ensures
        lines_with(matches, start, end, term) > 0 <==> term_within(matches, start, end - 1, term),
        lines_with(matches, start, end, term) <= end - start,
    decreases end - start,
{
    if start < end {
        lemma_lines_with(matches, start, end - 1, term);
        if term_within(matches, start, end - 1, term) {
            let line = choose|line: int|
                start <= line <= end - 1 && (#[trigger] matches[line]).matched_terms@.contains(term);
            if line < end - 1 {
                assert(term_within(matches, start, end - 2, term));
            }
        }
        if term_within(matches, start, end - 2, term) {
            let line = choose|line: int|
                start <= line <= end - 2 && (#[trigger] matches[line]).matched_terms@.contains(term);
            assert(matches[line].matched_terms@.contains(term));
        }
        if matches[end - 1].matched_terms@.contains(term) {
            assert(term_within(matches, start, end - 1, term));
        }
    }
}

/// How many of the numbers are not zero.
spec fn not_zero(counts: Seq<usize>) -> nat
    decreases counts.len(),
{
    if counts.len() == 0 {
        0
    } else {
        not_zero(counts.drop_last()) + if counts.last() > 0 {
            1nat
        } else {
            0nat
        }
    }
}

/// All numbers are greater than zero exactly where as many are not zero as there are numbers.
proof fn lemma_not_zero(counts: Seq<usize>)
    ensures
        not_zero(counts) <= counts.len(),
        not_zero(counts) == counts.len() <==> forall|i: int| 0 <= i < counts.len() ==> counts[i] > 0,
    decreases counts.len(),
{
    if counts.len() > 0 {
        let front = counts.drop_last();
        lemma_not_zero(front);
        if forall|i: int| 0 <= i < counts.len() ==> counts[i] > 0 {
            assert forall|i: int| 0 <= i < front.len() implies front[i] > 0 by {
                assert(front[i] == counts[i]);
            }
        }
        if not_zero(counts) == counts.len() {
            assert forall|i: int| 0 <= i < counts.len() implies counts[i] > 0 by {
                if i < front.len() {
                    assert(front[i] == counts[i]);
                }
            }
        }
    }
}

/// What one change does to the count of numbers that are not zero.
proof fn lemma_not_zero_update(counts: Seq<usize>, at: int, value: usize)
    requires
        0 <= at < counts.len(),
    ensures
        not_zero(counts.update(at, value)) + (if counts[at] > 0 {
            1int
        } else {
            0int
        }) == not_zero(counts) + (if value > 0 {
            1int
        } else {
            0int
        }),
    decreases counts.len(),
{
    let changed = counts.update(at, value);
    if at == counts.len() - 1 {
        assert(changed.drop_last() == counts.drop_last());
    } else {
        lemma_not_zero_update(counts.drop_last(), at, value);
        assert(changed.drop_last() == counts.drop_last().update(at, value));
    }
}

/// A row of zeros has no number that is not zero.
proof fn lemma_not_zero_zeros(counts: Seq<usize>)
    requires
        forall|i: int| 0 <= i < counts.len() ==> counts[i] == 0,
    ensures
        not_zero(counts) == 0,
    decreases counts.len(),
{
    if counts.len() > 0 {
        assert forall|i: int| 0 <= i < counts.drop_last().len() implies counts.drop_last()[i] == 0 by {
            assert(counts.drop_last()[i] == counts[i]);
        }
        lemma_not_zero_zeros(counts.drop_last());
    }
}

/// The terms that occur in the list, each once, in ascending order.
pub fn unique_term_indexes(terms: &Vec<usize>) -> (unique: Vec<usize>)
    ensures
        forall|term: usize| unique@.contains(term) <==> terms@.contains(term),
        forall|i: int, j: int| 0 <= i < j < unique@.len() ==> unique@[i] < unique@[j],
{
    let mut unique: Vec<usize> = Vec::new();
    let mut at: usize = 0;
    while at < terms.len()
        invariant
            at <= terms@.len(),
            forall|term: usize| unique@.contains(term) <==> terms@.take(at as int).contains(term),
            forall|i: int, j: int| 0 <= i < j < unique@.len() ==> unique@[i] < unique@[j],
        decreases terms@.len() - at,
    {
        let term = terms[at];
        let mut place: usize = 0;
        while place < unique.len() && unique[place] < term
            invariant
                place <= unique@.len(),
                forall|i: int| 0 <= i < place ==> unique@[i] < term,
            decreases unique@.len() - place,
        {
            place = place + 1;
        }
        let ghost before = unique@;
        if place == unique.len() || unique[place] != term {
            unique.insert(place, term);
        }
        proof {
            let done = terms@.take(at + 1);
            let earlier = terms@.take(at as int);
            assert(done == earlier.push(term));
            assert forall|other: usize| unique@.contains(other) <==> done.contains(other) by {
                assert(before.contains(other) <==> earlier.contains(other));
                if before.contains(other) {
                    let i = choose|i: int| 0 <= i < before.len() && before[i] == other;
                    if unique@ == before {
                        assert(unique@[i] == other);
                    } else if i < place {
                        assert(unique@[i] == other);
                    } else {
                        assert(unique@[i + 1] == other);
                    }
                    let k = choose|k: int| 0 <= k < earlier.len() && earlier[k] == other;
                    assert(done[k] == other);
                }
                if other == term {
                    assert(unique@[place as int] == other);
                    assert(done[at as int] == other);
                }
                if unique@.contains(other) {
                    let i = choose|i: int| 0 <= i < unique@.len() && unique@[i] == other;
                    if unique@ != before {
                        if i < place {
                            assert(before[i] == other);
                        } else if i > place {
                            assert(before[i - 1] == other);
                        }
                    }
                }
                if done.contains(other) && other != term {
                    let k = choose|k: int| 0 <= k < done.len() && done[k] == other;
                    assert(earlier[k] == other);
                }
            }
        }
        at = at + 1;
    }
    assert(terms@.take(at as int) == terms@);
    unique
}

/// What is kept while a stretch moves over the matches: for each term the number of lines with it,
/// and how many of these numbers are not zero.
spec fn window_state(
    matches: Seq<LineMatchRecord>,
    start: int,
    end: int,
    counts: Seq<usize>,
    covered: usize,
) -> bool {
    &&& forall|term: usize|
        term < counts.len() ==> (#[trigger] counts[term as int]) == lines_with(
            matches,
            start,
            end,
            term,
        )
    &&& covered == not_zero(counts)
}

/// A stretch matches all terms exactly where no number is zero.
proof fn lemma_window_covers(
    matches: Seq<LineMatchRecord>,
    start: int,
    end: int,
    counts: Seq<usize>,
    covered: usize,
)
    requires
        start <= end,
        counts.len() <= usize::MAX,
        window_state(matches, start, end, counts, covered),
    ensures
        covered == counts.len() <==> covers(matches, start, end - 1, counts.len() as usize),
{
    let term_count = counts.len() as usize;
    lemma_not_zero(counts);
    assert forall|term: usize| term < term_count implies (counts[term as int] > 0
        <==> #[trigger] term_within(matches, start, end - 1, term)) by {
        lemma_lines_with(matches, start, end, term);
    }
    if covers(matches, start, end - 1, term_count) {
        assert forall|i: int| 0 <= i < counts.len() implies counts[i] > 0 by {
            assert(term_within(matches, start, end - 1, i as usize));
        }
    }
}

/// Takes the line at `end` into the stretch.
fn take_in(
    matches: &Vec<LineMatchRecord>,
    start: usize,
    end: usize,
    counts: &mut Vec<usize>,
    covered: usize,
) -> (result: usize)
    requires
        start <= end < matches@.len(),
        window_state(matches@, start as int, end as int, old(counts)@, covered),
        forall|i: int|
            0 <= i < matches@[end as int].matched_terms@.len() ==> matches@[end as int].matched_terms@[i]
                < old(counts)@.len(),
    ensures
        final(counts)@.len() == old(counts)@.len(),
        window_state(matches@, start as int, end + 1, final(counts)@, result),
{
    let terms = unique_term_indexes(&matches[end].matched_terms);
    let total: usize = counts.len();
    let lines: usize = matches.len();
    let mut covered = covered;
    let ghost line = matches@[end as int].matched_terms@;
    let mut at: usize = 0;
    while at < terms.len()
        invariant
            start <= end < lines,
            at <= terms@.len(),
            total == counts@.len() == old(counts)@.len(),
            line == matches@[end as int].matched_terms@,
            forall|term: usize| terms@.contains(term) <==> line.contains(term),
            forall|i: int, j: int| 0 <= i < j < terms@.len() ==> terms@[i] < terms@[j],
            forall|i: int| 0 <= i < line.len() ==> line[i] < old(counts)@.len(),
            forall|term: usize|
                term < old(counts)@.len() ==> (#[trigger] old(counts)@[term as int]) == lines_with(
                    matches@,
                    start as int,
                    end as int,
                    term,
                ),
            forall|term: usize|
                term < counts@.len() ==> (#[trigger] counts@[term as int]) == old(
                    counts,
                )@[term as int] + if terms@.take(at as int).contains(term) {
                    1int
                } else {
                    0int
                },
            covered == not_zero(counts@),
        decreases terms@.len() - at,
    {
        let term = terms[at];
        proof {
            assert(terms@.contains(term));
            assert(line.contains(term));
            if terms@.take(at as int).contains(term) {
                let i = choose|i: int| 0 <= i < at && terms@.take(at as int)[i] == term;
                assert(terms@[i] < terms@[at as int]);
            }
            lemma_lines_with(matches@, start as int, end as int, term);
            lemma_not_zero_update(counts@, term as int, (counts@[term as int] + 1) as usize);
            lemma_not_zero(counts@);
        }
        let ghost before = counts@;
        if counts[term] == 0 {
            proof {
                lemma_not_zero(counts@.update(term as int, 1));
            }
            covered = covered + 1;
        }
        let count = counts[term];
        counts.set(term, count + 1);
        proof {
            assert forall|other: usize| other < counts@.len() implies (#[trigger] counts@[other as int])
                == old(counts)@[other as int] + if terms@.take(at + 1).contains(other) {
                1int
            } else {
                0int
            } by {
                assert(before[other as int] == old(counts)@[other as int] + if terms@.take(
                    at as int,
                ).contains(other) {
                    1int
                } else {
                    0int
                });
                assert(terms@.take(at + 1) == terms@.take(at as int).push(term));
                if other == term {
                    assert(terms@.take(at + 1)[at as int] == term);
                } else {
                    if terms@.take(at as int).contains(other) {
                        let i = terms@.take(at as int).index_of(other);
                        assert(terms@.take(at + 1)[i] == other);
                    }
                    if terms@.take(at + 1).contains(other) {
                        let i = terms@.take(at + 1).index_of(other);
                        assert(terms@.take(at as int)[i] == other);
                    }
                }
            }
        }
        at = at + 1;
    }
    assert(terms@.take(at as int) == terms@);
    covered
}

/// Drops the line at `start` from the stretch.
fn drop_out(
    matches: &Vec<LineMatchRecord>,
    start: usize,
    end: usize,
    counts: &mut Vec<usize>,
    covered: usize,
) -> (result: usize)
    requires
        start < end <= matches@.len(),
        window_state(matches@, start as int, end as int, old(counts)@, covered),
        forall|i: int|
            0 <= i < matches@[start as int].matched_terms@.len()
                ==> matches@[start as int].matched_terms@[i] < old(counts)@.len(),
    ensures
        final(counts)@.len() == old(counts)@.len(),
        window_state(matches@, start + 1, end as int, final(counts)@, result),
{
    let terms = unique_term_indexes(&matches[start].matched_terms);
    let mut covered = covered;
    let ghost line = matches@[start as int].matched_terms@;
    let mut at: usize = 0;
    while at < terms.len()
        invariant
            start < end <= matches@.len(),
            at <= terms@.len(),
            counts@.len() == old(counts)@.len(),
            line == matches@[start as int].matched_terms@,
            forall|term: usize| terms@.contains(term) <==> line.contains(term),
            forall|i: int, j: int| 0 <= i < j < terms@.len() ==> terms@[i] < terms@[j],
            forall|i: int| 0 <= i < line.len() ==> line[i] < old(counts)@.len(),
            forall|term: usize|
                term < old(counts)@.len() ==> (#[trigger] old(counts)@[term as int]) == lines_with(
                    matches@,
                    start as int,
                    end as int,
                    term,
                ),
            forall|term: usize|
                term < counts@.len() ==> (#[trigger] counts@[term as int]) == old(
                    counts,
                )@[term as int] - if terms@.take(at as int).contains(term) {
                    1int
                } else {
                    0int
                },
            covered == not_zero(counts@),
        decreases terms@.len() - at,
    {
        let term = terms[at];
        proof {
            assert(terms@.contains(term));
            assert(line.contains(term));
            if terms@.take(at as int).contains(term) {
                let i = choose|i: int| 0 <= i < at && terms@.take(at as int)[i] == term;
                assert(terms@[i] < terms@[at as int]);
            }
            lemma_lines_with_front(matches@, start as int, end as int, term);
            assert(counts@[term as int] > 0);
            lemma_not_zero_update(counts@, term as int, (counts@[term as int] - 1) as usize);
        }
        let ghost before = counts@;
        let count = counts[term];
        counts.set(term, count - 1);
        if count == 1 {
            covered = covered - 1;
        }
        proof {
            assert forall|other: usize| other < counts@.len() implies (#[trigger] counts@[other as int])
                == old(counts)@[other as int] - if terms@.take(at + 1).contains(other) {
                1int
            } else {
                0int
            } by {
                assert(before[other as int] == old(counts)@[other as int] - if terms@.take(
                    at as int,
                ).contains(other) {
                    1int
                } else {
                    0int
                });
                assert(terms@.take(at + 1) == terms@.take(at as int).push(term));
                if other == term {
                    assert(terms@.take(at + 1)[at as int] == term);
                } else {
                    if terms@.take(at as int).contains(other) {
                        let i = terms@.take(at as int).index_of(other);
                        assert(terms@.take(at + 1)[i] == other);
                    }
                    if terms@.take(at + 1).contains(other) {
                        let i = terms@.take(at + 1).index_of(other);
                        assert(terms@.take(at as int)[i] == other);
                    }
                }
            }
        }
        at = at + 1;
    }
    proof {
        assert(terms@.take(at as int) == terms@);
        assert forall|term: usize| term < counts@.len() implies (#[trigger] counts@[term as int])
            == lines_with(matches@, start + 1, end as int, term) by {
            lemma_lines_with_front(matches@, start as int, end as int, term);
            assert(old(counts)@[term as int] == lines_with(matches@, start as int, end as int, term));
        }
    }
    covered
}

/// The smallest number of lines of a file within which all terms are matched: of the stretches of
/// matches that newly match all terms, the smallest span.
pub fn minimal_cover_span(term_count: usize, matches: &Vec<LineMatchRecord>) -> (best: Option<usize>)
    requires
        forall|line: int, i: int|
            0 <= line < matches@.len() && 0 <= i < matches@[line].matched_terms@.len() ==> (
            #[trigger] matches@[line].matched_terms@[i]) < term_count,
        forall|first: int, last: int|
            0 <= first <= last < matches@.len() ==> (#[trigger] matches@[last]).line_number - (
            #[trigger] matches@[first]).line_number < usize::MAX,
    ensures
        term_count == 0 ==> best is None,
        term_count > 0 ==> is_smallest_span(matches@, term_count, best),
{
    if term_count == 0 {
        return None;
    }
    let mut counts: Vec<usize> = Vec::new();
    while counts.len() < term_count
        invariant
            counts@.len() <= term_count,
            forall|i: int| 0 <= i < counts@.len() ==> counts@[i] == 0,
        decreases term_count - counts@.len(),
    {
        counts.push(0);
    }
    let mut covered: usize = 0;
    let mut best: Option<usize> = None;
    let mut start: usize = 0;
    let mut end: usize = 0;
    let lines: usize = matches.len();
    proof {
        lemma_not_zero_zeros(counts@);
        if covers(matches@, 0, -1, term_count) {
            assert(term_within(matches@, 0, -1, 0));
        }
    }
    while end < lines
        invariant
            term_count > 0,
            forall|line: int, i: int|
                0 <= line < matches@.len() && 0 <= i < matches@[line].matched_terms@.len() ==> (
                #[trigger] matches@[line].matched_terms@[i]) < term_count,
            forall|first: int, last: int|
                0 <= first <= last < matches@.len() ==> (#[trigger] matches@[last]).line_number - (
                #[trigger] matches@[first]).line_number < usize::MAX,
            lines == matches@.len(),
            start <= end <= lines,
            counts@.len() == term_count,
            window_state(matches@, start as int, end as int, counts@, covered),
            !covers(matches@, start as int, end - 1, term_count),
            start > 0 ==> covers(matches@, start - 1, end - 1, term_count),
            best_so_far(matches@, term_count, best, end as int, 0),
        decreases matches@.len() - end,
    {
        covered = take_in(matches, start, end, &mut counts, covered);
        let ghost entry = start;
        proof {
            lemma_earlier_starts(matches@, term_count, best, end as int, start as int);
            lemma_window_covers(matches@, start as int, end + 1, counts@, covered);
        }
        while covered == term_count && start <= end
            invariant
                term_count > 0,
                forall|line: int, i: int|
                    0 <= line < matches@.len() && 0 <= i < matches@[line].matched_terms@.len() ==> (
                    #[trigger] matches@[line].matched_terms@[i]) < term_count,
                forall|first: int, last: int|
                    0 <= first <= last < matches@.len() ==> (#[trigger] matches@[last]).line_number
                        - (#[trigger] matches@[first]).line_number < usize::MAX,
                entry <= start <= end + 1,
                end < lines == matches@.len(),
                counts@.len() == term_count,
                window_state(matches@, start as int, end + 1, counts@, covered),
                covered == term_count <==> covers(matches@, start as int, end as int, term_count),
                !covers(matches@, entry as int, end - 1, term_count),
                entry > 0 ==> covers(matches@, entry - 1, end - 1, term_count),
                start > entry ==> covers(matches@, start - 1, end as int, term_count),
                best_so_far(matches@, term_count, best, end as int, start as int),
            decreases end + 1 - start,
        {
            let first = matches[start].line_number;
            let last = matches[end].line_number;
            assert(matches@[end as int].line_number - matches@[start as int].line_number
                < usize::MAX);
            let width: usize = if last >= first {
                (last - first) + 1
            } else {
                1
            };
            assert(width == span(matches@, start as int, end as int));
            let ghost before = best;
            match best {
                Some(smallest) => {
                    if width < smallest {
                        best = Some(width);
                    }
                },
                None => {
                    best = Some(width);
                },
            }
            proof {
                if covers(matches@, start as int, end - 1, term_count) {
                    lemma_covers_wider(
                        matches@,
                        start as int,
                        end - 1,
                        entry as int,
                        end - 1,
                        term_count,
                    );
                }
                assert(newly_covers(matches@, start as int, end as int, term_count));
                lemma_better(matches@, term_count, before, best, end as int, start as int);
            }
            covered = drop_out(matches, start, end + 1, &mut counts, covered);
            start = start + 1;
            proof {
                lemma_window_covers(matches@, start as int, end + 1, counts@, covered);
            }
        }
        proof {
            if start == end + 1 {
                if covers(matches@, start as int, end as int, term_count) {
                    assert(term_within(matches@, start as int, end as int, 0));
                }
            }
            assert(!covers(matches@, start as int, end as int, term_count));
            if start == entry && entry > 0 {
                lemma_covers_wider(
                    matches@,
                    entry - 1,
                    end - 1,
                    entry - 1,
                    end as int,
                    term_count,
                );
            }
            lemma_next_end(matches@, term_count, best, end as int, start as int);
        }
        end = end + 1;
    }
    proof {
        assert(is_smallest_span(matches@, term_count, best));
    }
    best
}

/// Whether `best` is the smallest span of the stretches seen: those that end before `end`, and
/// those that end there and start before `start`.
spec fn best_so_far(
    matches: Seq<LineMatchRecord>,
    term_count: usize,
    best: Option<usize>,
    end: int,
    start: int,
) -> bool {
    match best {
        Some(best) => {
            &&& exists|s: int, e: int|
                #[trigger] newly_covers(matches, s, e, term_count) && span(matches, s, e) == best
            &&& forall|s: int, e: int| #[trigger]
                newly_covers(matches, s, e, term_count) && (e < end || e == end && s < start)
                    ==> best <= span(matches, s, e)
        },
        None => forall|s: int, e: int|
            #[trigger] newly_covers(matches, s, e, term_count) ==> e > end || e == end && s >= start,
    }
}

/// One more stretch is seen.
proof fn lemma_better(
    matches: Seq<LineMatchRecord>,
    term_count: usize,
    before: Option<usize>,
    best: Option<usize>,
    end: int,
    start: int,
)
    requires
        best_so_far(matches, term_count, before, end, start),
        newly_covers(matches, start, end, term_count),
        best is Some,
        best->0 == span(matches, start, end) || best == before,
        best->0 <= span(matches, start, end),
        before is Some ==> best->0 <= before->0,
    ensures
        best_so_far(matches, term_count, best, end, start + 1),
{
}

/// With starts before one that matches all terms without the end, no stretch newly does.
proof fn lemma_earlier_starts(
    matches: Seq<LineMatchRecord>,
    term_count: usize,
    best: Option<usize>,
    end: int,
    start: int,
)
    requires
        best_so_far(matches, term_count, best, end, 0),
        start > 0 ==> covers(matches, start - 1, end - 1, term_count),
    ensures
        best_so_far(matches, term_count, best, end, start),
{
    assert forall|s: int, e: int| #[trigger] newly_covers(matches, s, e, term_count) && e
        == end implies s >= start by {
        if s < start {
            lemma_covers_wider(matches, start - 1, end - 1, s, end - 1, term_count);
        }
    }
}

/// Past the last start that matches all terms, no stretch with this end is left.
proof fn lemma_next_end(
    matches: Seq<LineMatchRecord>,
    term_count: usize,
    best: Option<usize>,
    end: int,
    start: int,
)
    requires
        best_so_far(matches, term_count, best, end, start),
        !covers(matches, start, end, term_count),
    ensures
        best_so_far(matches, term_count, best, end + 1, 0),
{
    assert forall|s: int, e: int| #[trigger] newly_covers(matches, s, e, term_count) && e
        == end implies s < start by {
        if s >= start {
            lemma_covers_wider(matches, s, end, start, end, term_count);
        }
    }
}

} // verus!
