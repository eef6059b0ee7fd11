//! Laws on what is collected, ranked and shown.

use vstd::prelude::*;

use crate::candidate::{FileCandidate, LineMatchRecord};
use crate::cli::Cli;
use crate::collect::{
    are_candidates, collection_of, found_counts, is_candidate, lines_after, lines_before,
    snippet_limit_of, total_found, FoundFile,
};
use crate::context::{
    in_some_range, merged_ranges, near, near_some, ranges_share_out_the_items,
    ranges_show_the_lines_near_items, starts_ascend, LineRange,
};
use crate::cover::{covers, in_line_order, is_smallest_span, span, term_within};
use crate::order::{ranking_exists, ranking_of, RankKey};
use crate::query::Query;
use crate::rank::{
    line_snippets, rank_keys, ranked_file, shown_count, FileScore, Score,
};
use crate::snippet::{range_snippet, shown_ranges, shown_ranges_are_the_best};
use crate::sinks::collected;

verus! {

/// The ranking lists every item once, the best score first; among equal scores the smaller tie
/// breaker comes first, and among items equal in both the one that was given first.
pub proof fn the_best_come_first(keys: Seq<RankKey>)
    requires
        keys.len() <= usize::MAX,
    ensures
        ranking_of(keys).len() == keys.len(),
        forall|i: int|
            0 <= i < keys.len() ==> 0 <= #[trigger] ranking_of(keys)[i] < keys.len(),
        forall|item: usize| item < keys.len() ==> ranking_of(keys).contains(item),
        forall|i: int, j: int|
            0 <= i < j < keys.len() ==> #[trigger] ranking_of(keys)[i] != #[trigger] ranking_of(
                keys,
            )[j],
        forall|i: int, j: int|
            0 <= i < j < keys.len() ==> {
                let first = keys[#[trigger] ranking_of(keys)[i] as int];
                let second = keys[#[trigger] ranking_of(keys)[j] as int];
                ||| first.score > second.score
                ||| first.score == second.score && first.tie < second.tie
                ||| first.score == second.score && first.tie == second.tie && ranking_of(keys)[i]
                    < ranking_of(keys)[j]
            },
{
    ranking_exists(keys);
}

/// Files are ranked by their scores, and among equal scores by their paths; every candidate is
/// ranked, with its own path, score, number of lines and lines.
pub proof fn files_are_ranked_by_score_and_path(
    query: Query,
    candidates: Seq<FileCandidate>,
    scores: Seq<FileScore>,
    index: int,
)
    requires
        0 <= index < candidates.len() <= usize::MAX,
        scores.len() == candidates.len(),
        scores[index].lines@.len() == candidates[index].matches@.len(),
    ensures
        rank_keys(candidates, scores).len() == candidates.len(),
        rank_keys(candidates, scores)[index].score == scores[index].total.order,
        rank_keys(candidates, scores)[index].tie == candidates[index].path.rank,
        ranked_file(query, candidates[index], scores[index]).path == candidates[index].path.text@,
        ranked_file(query, candidates[index], scores[index]).score == scores[index].total.order,
        ranked_file(query, candidates[index], scores[index]).score_text
            == scores[index].total.text@,
        ranked_file(query, candidates[index], scores[index]).match_count
            == candidates[index].matches@.len(),
        ranked_file(query, candidates[index], scores[index]).matched_terms
            == crate::candidate::terms_found(
            candidates[index],
            crate::text::texts(query.terms@),
            query.terms@.len() as int,
        ),
        ranked_file(query, candidates[index], scores[index]).snippets == line_snippets(
            candidates[index].matches@,
            scores[index].lines@,
        ),
{
}

/// Before passages are cut, each matched line is a passage of its own: its number, its text and its
/// score.
pub proof fn matched_lines_are_passages(
    lines: Seq<LineMatchRecord>,
    scores: Seq<Score>,
    index: int,
)
    requires
        0 <= index < lines.len(),
    ensures
        line_snippets(lines, scores).len() == lines.len(),
        line_snippets(lines, scores)[index].start_line == lines[index].line_number,
        line_snippets(lines, scores)[index].end_line == lines[index].line_number,
        line_snippets(lines, scores)[index].score == scores[index].order,
        line_snippets(lines, scores)[index].score_text == scores[index].text@,
        line_snippets(lines, scores)[index].lines.len() == 1,
        line_snippets(lines, scores)[index].lines[0].0 == lines[index].line_number,
        line_snippets(lines, scores)[index].lines[0].1 == lines[index].text@,
{
}

/// As many files are shown as are asked for, or all of them; never more than there are.
pub proof fn no_more_files_are_shown_than_asked_for(total: nat, show_all: bool, top_k: usize)
    ensures
        shown_count(total, show_all, top_k) <= total,
        show_all ==> shown_count(total, show_all, top_k) == total,
        !show_all ==> shown_count(total, show_all, top_k) <= top_k,
        !show_all && top_k <= total ==> shown_count(total, show_all, top_k) == top_k,
        !show_all && top_k > total ==> shown_count(total, show_all, top_k) == total,
{
}

/// A passage holds the lines of its stretch, each with its number and its text in the file.
pub proof fn passages_hold_lines_of_the_file(
    file_lines: Seq<Seq<char>>,
    range: LineRange,
    score: Score,
    line_number: usize,
)
    requires
        1 <= range.start <= line_number <= range.end <= file_lines.len(),
    ensures
        range_snippet(file_lines, range, score).start_line == range.start,
        range_snippet(file_lines, range, score).end_line == range.end,
        range_snippet(file_lines, range, score).score == score.order,
        range_snippet(file_lines, range, score).score_text == score.text@,
        range_snippet(file_lines, range, score).lines.len() == range.end - range.start + 1,
        range_snippet(file_lines, range, score).lines[line_number - range.start] == (
            line_number,
            file_lines[line_number - 1],
        ),
{
}

/// The passages shown are as many as the limit allows, each once and in the order of the file; none
/// that is left out has a better score, nor an equal score and an earlier first line.
pub proof fn the_best_passages_are_shown(
    ranges: Seq<LineRange>,
    scores: Seq<Score>,
    limit: usize,
)
    requires
        scores.len() == ranges.len() <= usize::MAX,
    ensures
        shown_ranges(ranges, scores, limit).len() == if limit < ranges.len() {
            limit as nat
        } else {
            ranges.len()
        },
        forall|i: int, j: int|
            0 <= i < j < shown_ranges(ranges, scores, limit).len() ==> #[trigger] shown_ranges(
                ranges,
                scores,
                limit,
            )[i] != #[trigger] shown_ranges(ranges, scores, limit)[j] && ranges[shown_ranges(
                ranges,
                scores,
                limit,
            )[i] as int].start <= ranges[shown_ranges(ranges, scores, limit)[j] as int].start,
        forall|kept: usize, left: usize| #[trigger]
            shown_ranges(ranges, scores, limit).contains(kept) && left < ranges.len()
                && !#[trigger] shown_ranges(ranges, scores, limit).contains(left)
                ==> scores[kept as int].order > scores[left as int].order || scores[
            kept as int].order == scores[left as int].order && ranges[kept as int].start
                <= ranges[left as int].start,
{
    shown_ranges_are_the_best(ranges, scores, limit);
    let shown = shown_ranges(ranges, scores, limit);
    let keys = crate::snippet::choice_keys(ranges, scores);
    crate::order::ranking_exists(keys);
    let chosen = crate::snippet::chosen_ranges(ranges, scores, limit);
    let places = crate::snippet::place_keys(ranges, chosen);
    crate::order::ranking_exists(places);
    assert forall|kept: usize, left: usize| #[trigger]
        shown.contains(kept) && left < ranges.len() && !#[trigger] shown.contains(left) implies
        scores[kept as int].order > scores[left as int].order || scores[kept as int].order
        == scores[left as int].order && ranges[kept as int].start <= ranges[left as int].start by {
        let i = choose|i: int| 0 <= i < shown.len() && shown[i] == kept;
        let order = ranking_of(places);
        assert(0 <= order[i] < places.len());
        assert(shown[i] == chosen[order[i] as int]);
        assert(chosen[order[i] as int] == ranking_of(keys)[order[i] as int]);
        assert(kept < ranges.len());
        assert(crate::order::comes_before(keys, kept as int, left as int));
        assert(keys[kept as int] == RankKey {
            score: scores[kept as int].order,
            tie: ranges[kept as int].start,
        });
        assert(keys[left as int] == RankKey {
            score: scores[left as int].order,
            tie: ranges[left as int].start,
        });
    }
}

/// A line of the file is shown exactly where it lies no more lines before an item or behind it than
/// are asked for; what is shown stands in stretches that neither overlap nor touch, in order.
pub proof fn lines_around_items_are_shown(
    spans: Seq<(usize, usize)>,
    before: usize,
    after: usize,
    line_count: usize,
    line: int,
)
    requires
        spans.len() <= usize::MAX,
        1 <= line <= line_count,
        forall|i: int, j: int|
            0 <= i < j < spans.len() ==> (#[trigger] spans[i]).0 <= (#[trigger] spans[j]).0,
    ensures
        (exists|i: int|
            0 <= i < merged_ranges(spans, before, after, line_count).len() && (
            #[trigger] merged_ranges(spans, before, after, line_count)[i]).start <= line
                <= merged_ranges(spans, before, after, line_count)[i].end) <==> exists|i: int|
            0 <= i < spans.len() && (#[trigger] spans[i]).0 - before <= line <= spans[i].1 + after,
        forall|i: int|
            0 <= i < merged_ranges(spans, before, after, line_count).len() - 1 ==> (
            #[trigger] merged_ranges(spans, before, after, line_count)[i]).end + 1
                < merged_ranges(spans, before, after, line_count)[i + 1].start,
{
    ranges_share_out_the_items(spans, before, after, line_count);
    assert(starts_ascend(spans));
    ranges_show_the_lines_near_items(spans, before, after, line_count);
    let ranges = merged_ranges(spans, before, after, line_count);
    assert(in_some_range(ranges, line) <==> near_some(spans, before, after, line_count, line));
    if exists|i: int| 0 <= i < spans.len() && (#[trigger] spans[i]).0 - before <= line <= spans[i].1
        + after {
        let i = choose|i: int|
            0 <= i < spans.len() && (#[trigger] spans[i]).0 - before <= line <= spans[i].1 + after;
        assert(near(spans[i], before, after, line_count, line));
        let k = choose|k: int|
            0 <= k < ranges.len() && crate::context::in_range(#[trigger] ranges[k], line);
        assert(ranges[k].start <= line <= ranges[k].end);
    }
    if exists|i: int| 0 <= i < ranges.len() && (#[trigger] ranges[i]).start <= line <= ranges[i].end {
        let i = choose|i: int|
            0 <= i < ranges.len() && (#[trigger] ranges[i]).start <= line <= ranges[i].end;
        assert(crate::context::in_range(ranges[i], line));
        let k = choose|k: int|
            0 <= k < spans.len() && near(#[trigger] spans[k], before, after, line_count, line);
        assert(spans[k].0 - before <= line <= spans[k].1 + after);
    }
    assert forall|i: int| 0 <= i < ranges.len() - 1 implies (#[trigger] ranges[i]).end + 1
        < ranges[i + 1].start by {
        assert(ranges[i + 1].start == ranges[i + 1].start);
    }
}

/// Where matches stand in the order of their lines, the span of a file is the smallest number of
/// lines, from a match to a match, within which every term is matched; there is none exactly where
/// some term is matched nowhere.
pub proof fn the_span_holds_every_term(
    matches: Seq<LineMatchRecord>,
    term_count: usize,
    best: Option<usize>,
    start: int,
    end: int,
)
    requires
        term_count > 0,
        forall|i: int, j: int|
            0 <= i <= j < matches.len() ==> (#[trigger] matches[i]).line_number <= (
            #[trigger] matches[j]).line_number,
        is_smallest_span(matches, term_count, best),
    ensures
        0 <= start <= end < matches.len() && (forall|term: usize|
            term < term_count ==> #[trigger] term_within(matches, start, end, term)) ==> best is Some
            && best->0 <= matches[end].line_number - matches[start].line_number + 1,
        best is Some ==> exists|first: int, last: int|
            0 <= first <= last < matches.len() && best->0 == (#[trigger] matches[last]).line_number
                - (#[trigger] matches[first]).line_number + 1 && forall|term: usize|
                term < term_count ==> #[trigger] term_within(matches, first, last, term),
{
    assert(in_line_order(matches));
    crate::cover::smallest_span_is_smallest_of_all(matches, term_count, best);
    if 0 <= start <= end < matches.len() && (forall|term: usize|
        term < term_count ==> #[trigger] term_within(matches, start, end, term)) {
        assert(covers(matches, start, end, term_count));
        assert(matches[start].line_number <= matches[end].line_number);
    }
    if best is Some {
        let (first, last) = choose|first: int, last: int|
            0 <= first <= last < matches.len() && #[trigger] covers(
                matches,
                first,
                last,
                term_count,
            ) && span(matches, first, last) == best->0;
        assert(matches[first].line_number <= matches[last].line_number);
    }
}

/// A term is matched within a stretch of matches exactly where one of its lines matches the term.
pub proof fn a_term_is_matched_by_a_line(
    matches: Seq<LineMatchRecord>,
    start: int,
    end: int,
    term: usize,
)
    ensures
        term_within(matches, start, end, term) <==> exists|line: int|
            start <= line <= end && (#[trigger] matches[line]).matched_terms@.contains(term),
{
}

/// The lines found in files add up.
proof fn lemma_total_grows(counts: Seq<Option<nat>>, few: int, many: int)
    requires
        few <= many,
    ensures
        total_found(counts, few) <= total_found(counts, many),
    decreases many,
{
    if few < many && many > 0 {
        lemma_total_grows(counts, few, many - 1);
    }
}

/// Lines are taken file by file until there is no more room: a file is searched exactly where the
/// lines found in the files before it leave room, its lines are taken as far as there is room for
/// them, and the collection was cut short exactly where lines or files were left out.
pub proof fn lines_are_collected_until_full(counts: Seq<Option<nat>>, limit: nat, count: int)
    requires
        0 <= count <= counts.len(),
    ensures
        total_found(counts, 0) == 0,
        count > 0 ==> total_found(counts, count) == total_found(counts, count - 1) + match counts[
        count - 1] {
            Some(found) => found,
            None => 0,
        },
        collection_of(counts, limit, count).lines == if total_found(counts, count) <= limit {
            total_found(counts, count)
        } else {
            limit
        },
        collection_of(counts, limit, count).truncated <==> total_found(counts, count) > limit
            || count > 0 && total_found(counts, count - 1) >= limit,
        !(count > 0 && total_found(counts, count - 1) >= limit) ==> collection_of(
            counts,
            limit,
            count,
        ).scanned == count,
        count > 0 && total_found(counts, count - 1) >= limit ==> collection_of(
            counts,
            limit,
            count,
        ).scanned == collection_of(counts, limit, count - 1).scanned && collection_of(
            counts,
            limit,
            count,
        ).taken == collection_of(counts, limit, count - 1).taken,
        collection_of(counts, limit, count).stopped <==> count > 0 && total_found(
            counts,
            count - 1,
        ) >= limit,
        forall|i: int|
            0 <= i < collection_of(counts, limit, count).taken.len() ==> {
                let (index, lines) = #[trigger] collection_of(counts, limit, count).taken[i];
                &&& 0 <= index < count
                &&& counts[index] is Some
                &&& total_found(counts, index) < limit
                &&& lines > 0
                &&& lines == if counts[index]->0 <= limit - total_found(counts, index) {
                    counts[index]->0 as int
                } else {
                    limit - total_found(counts, index)
                }
            },
        forall|i: int, j: int|
            0 <= i < j < collection_of(counts, limit, count).taken.len() ==> (
            #[trigger] collection_of(counts, limit, count).taken[i]).0 < (
            #[trigger] collection_of(counts, limit, count).taken[j]).0,
        forall|index: int|
            0 <= index < count && (#[trigger] counts[index]) is Some && counts[index]->0 > 0
                && total_found(counts, index) < limit ==> exists|i: int|
                0 <= i < collection_of(counts, limit, count).taken.len() && (
                #[trigger] collection_of(counts, limit, count).taken[i]).0 == index,
    decreases count,
{
    if count > 0 {
        lines_are_collected_until_full(counts, limit, count - 1);
        let before = collection_of(counts, limit, count - 1);
        let after = collection_of(counts, limit, count);
        if count > 1 {
            lemma_total_grows(counts, count - 2, count - 1);
        }
        assert forall|index: int|
            0 <= index < count && (#[trigger] counts[index]) is Some && counts[index]->0 > 0
                && total_found(counts, index) < limit implies exists|i: int|
            0 <= i < after.taken.len() && (#[trigger] after.taken[i]).0 == index by {
            if index < count - 1 {
                let i = choose|i: int|
                    0 <= i < before.taken.len() && (#[trigger] before.taken[i]).0 == index;
                assert(after.taken[i] == before.taken[i]);
            } else {
                assert(after.taken[before.taken.len() as int].0 == index);
            }
        }
    }
}

/// A candidate holds the first lines that match in its file, in order.
pub proof fn candidates_hold_the_first_lines(
    query: Query,
    files: Seq<FoundFile>,
    index: int,
    count: nat,
    candidate: FileCandidate,
    line: int,
)
    requires
        is_candidate(query, files, (index, count), candidate),
        0 <= line < count,
    ensures
        candidate.path == files[index].path,
        candidate.matches@.len() == count <= files[index].found->0@.len(),
        candidate.matches@[line].text@ == crate::bytes::without_line_ends(
            crate::bytes::decoded(files[index].found->0@[line].bytes@),
        ),
        files[index].found->0@[line].number <= usize::MAX ==> candidate.matches@[line].line_number
            == files[index].found->0@[line].number,
        candidate.matches@[line].normalized_text@ == crate::query::normalized(
            candidate.matches@[line].text@,
        ),
        crate::candidate::scored(
            query,
            candidate.matches@[line].normalized_text@,
            candidate.matches@[line].matched_terms@,
            candidate.matches@[line].hint,
        ),
{
    let limit = choose|limit: usize| #[trigger]
        collected(query, limit, files[index].found->0@, candidate.matches@);
    assert(crate::sinks::is_record(
        query,
        files[index].found->0@[line].number,
        files[index].found->0@[line].bytes@,
        candidate.matches@[line],
    ));
}

/// The candidates are the files with lines, in the order of the search, as long as there is room: the
/// first file with a line is a candidate, and every file that is searched and has lines is one.
pub proof fn candidates_are_the_files_with_lines(
    query: Query,
    files: Seq<FoundFile>,
    limit: nat,
    candidates: Seq<FileCandidate>,
    index: int,
)
    requires
        are_candidates(
            query,
            files,
            collection_of(found_counts(files), limit, files.len() as int),
            candidates,
        ),
        0 <= index < files.len(),
        files[index].found is Some,
        files[index].found->0@.len() > 0,
        total_found(found_counts(files), index) < limit,
    ensures
        exists|i: int|
            0 <= i < candidates.len() && (#[trigger] candidates[i]).path == files[index].path
                && candidates[i].matches@.len() == if files[index].found->0@.len() <= limit
                - total_found(found_counts(files), index) {
                files[index].found->0@.len() as int
            } else {
                limit - total_found(found_counts(files), index)
            },
{
    let counts = found_counts(files);
    let collection = collection_of(counts, limit, files.len() as int);
    lines_are_collected_until_full(counts, limit, files.len() as int);
    assert(counts[index] == Some(files[index].found->0@.len()));
    let i = choose|i: int|
        0 <= i < collection.taken.len() && (#[trigger] collection.taken[i]).0 == index;
    assert(is_candidate(query, files, collection.taken[i], candidates[i]));
    let (place, lines) = collection.taken[i];
    assert(candidates[i].path == files[index].path);
}

/// Every candidate comes of one file, in the order of the search, and no file makes two.
pub proof fn every_candidate_is_one_file(
    query: Query,
    files: Seq<FoundFile>,
    limit: nat,
    candidates: Seq<FileCandidate>,
) -> (places: Seq<int>)
    requires
        are_candidates(
            query,
            files,
            collection_of(found_counts(files), limit, files.len() as int),
            candidates,
        ),
    ensures
        places.len() == candidates.len(),
        forall|i: int|
            0 <= i < places.len() ==> 0 <= #[trigger] places[i] < files.len() && candidates[i].path
                == files[places[i]].path && candidates[i].matches@.len() > 0,
        forall|i: int, j: int| 0 <= i < j < places.len() ==> places[i] < places[j],
{
    let counts = found_counts(files);
    let collection = collection_of(counts, limit, files.len() as int);
    lines_are_collected_until_full(counts, limit, files.len() as int);
    let places = Seq::new(collection.taken.len(), |i: int| collection.taken[i].0);
    assert forall|i: int| 0 <= i < places.len() implies 0 <= #[trigger] places[i] < files.len()
        && candidates[i].path == files[places[i]].path && candidates[i].matches@.len() > 0 by {
        assert(is_candidate(query, files, collection.taken[i], candidates[i]));
        let (place, lines) = collection.taken[i];
    }
    assert forall|i: int, j: int| 0 <= i < j < places.len() implies places[i] < places[j] by {
        assert(collection.taken[i].0 < collection.taken[j].0);
    }
    places
}

/// The items of a stretch lie within it as far as the file goes, and the stretches share out the
/// items in order: each begins with the item behind the last of the one before.
pub proof fn stretches_hold_their_items(
    spans: Seq<(usize, usize)>,
    before: usize,
    after: usize,
    line_count: usize,
)
    requires
        spans.len() <= usize::MAX,
    ensures
        spans.len() == 0 <==> merged_ranges(spans, before, after, line_count).len() == 0,
        spans.len() > 0 ==> merged_ranges(spans, before, after, line_count)[0].first == 0
            && merged_ranges(spans, before, after, line_count).last().last == spans.len() - 1,
        forall|i: int|
            0 < i < merged_ranges(spans, before, after, line_count).len() ==> (
            #[trigger] merged_ranges(spans, before, after, line_count)[i]).first == merged_ranges(
                spans,
                before,
                after,
                line_count,
            )[i - 1].last + 1,
        forall|i: int|
            0 <= i < merged_ranges(spans, before, after, line_count).len() ==> (
            #[trigger] merged_ranges(spans, before, after, line_count)[i]).first <= merged_ranges(
                spans,
                before,
                after,
                line_count,
            )[i].last,
{
    ranges_share_out_the_items(spans, before, after, line_count);
}

/// Ranked output shows the lines around matches that are asked for, and two where nothing is said;
/// all passages are shown where all is asked for.
pub proof fn ranked_output_heeds_the_command_line(cli: Cli)
    ensures
        cli.context_explicit ==> lines_before(cli) == cli.before_context && lines_after(cli)
            == cli.after_context,
        !cli.context_explicit ==> lines_before(cli) == 2 && lines_after(cli) == 2,
        cli.show_all ==> snippet_limit_of(cli) == usize::MAX,
        !cli.show_all ==> snippet_limit_of(cli) == cli.max_snippets,
{
}

} // verus!
