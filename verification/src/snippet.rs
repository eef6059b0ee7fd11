//! The passages of a ranked file that are shown.

use vstd::prelude::*;

use crate::context::{merge_ranges, merged_ranges, ranges_share_out_the_items, LineRange};
use crate::order::{comes_before, is_ranking, ranking, ranking_exists, ranking_of, RankKey};
use crate::rank::{snippet_views, Score};
use crate::text::texts;

verus! {

/// A passage of a file.
#[derive(Debug, Clone)]
pub struct Snippet {
    /// The first line, counted from one.
    pub start_line: usize,
    /// The last line.
    pub end_line: usize,
    /// The score of the passage.
    pub score: Score,
    /// The lines, each with its number.
    pub lines: Vec<(usize, String)>,
}

/// A passage of a file, with texts as sequences of characters.
pub ghost struct SnippetView {
    pub start_line: usize,
    pub end_line: usize,
    pub score: i64,
    pub score_text: Seq<char>,
    pub lines: Seq<(usize, Seq<char>)>,
}

/// Numbered lines, with texts as sequences of characters.
pub open spec fn numbered(lines: Seq<(usize, String)>) -> Seq<(usize, Seq<char>)> {
    Seq::new(lines.len(), |i: int| (lines[i].0, lines[i].1@))
}

impl View for Snippet {
    type V = SnippetView;

    open spec fn view(&self) -> SnippetView {
        SnippetView {
            start_line: self.start_line,
            end_line: self.end_line,
            score: self.score.order,
            score_text: self.score.text@,
            lines: numbered(self.lines@),
        }
    }
}

/// The first and last lines of passages.
pub open spec fn spans_of(snippets: Seq<Snippet>) -> Seq<(usize, usize)> {
    Seq::new(snippets.len(), |i: int| (snippets[i].start_line, snippets[i].end_line))
}

/// The lines from `start` to `end`, with their numbers; none where `end` comes before `start`.
pub open spec fn lines_between(file_lines: Seq<Seq<char>>, start: usize, end: usize) -> Seq<
    (usize, Seq<char>),
> {
    Seq::new(
        if start <= end {
            (end - start + 1) as nat
        } else {
            0
        },
        |i: int| ((start + i) as usize, file_lines[start + i - 1]),
    )
}

/// The passage for a stretch of lines.
pub open spec fn range_snippet(
    file_lines: Seq<Seq<char>>,
    range: LineRange,
    score: Score,
) -> SnippetView {
    SnippetView {
        start_line: range.start,
        end_line: range.end,
        score: score.order,
        score_text: score.text@,
        lines: lines_between(file_lines, range.start, range.end),
    }
}

/// What stretches are chosen by: the score, and among equal scores the first line.
pub open spec fn choice_keys(ranges: Seq<LineRange>, scores: Seq<Score>) -> Seq<RankKey> {
    Seq::new(ranges.len(), |i: int| RankKey { score: scores[i].order, tie: ranges[i].start })
}

/// What the chosen stretches are shown by: the first line.
pub open spec fn place_keys(ranges: Seq<LineRange>, chosen: Seq<usize>) -> Seq<RankKey> {
    Seq::new(chosen.len(), |i: int| RankKey { score: 0, tie: ranges[chosen[i] as int].start })
}

/// The smaller of a length and a limit.
pub open spec fn limited(length: nat, limit: usize) -> int {
    if limit < length {
        limit as int
    } else {
        length as int
    }
}

/// The stretches that are chosen, the best first: at most `limit`.
pub open spec fn chosen_ranges(ranges: Seq<LineRange>, scores: Seq<Score>, limit: usize) -> Seq<
    usize,
> {
    ranking_of(choice_keys(ranges, scores)).take(limited(ranges.len(), limit))
}

/// The stretches that are shown: those that are chosen, in the order of their first lines.
pub open spec fn shown_ranges(ranges: Seq<LineRange>, scores: Seq<Score>, limit: usize) -> Seq<
    usize,
> {
    let chosen = chosen_ranges(ranges, scores, limit);
    let order = ranking_of(place_keys(ranges, chosen));
    Seq::new(chosen.len(), |i: int| chosen[order[i] as int])
}

/// The same passage once more.
pub fn clone_snippet(snippet: &Snippet) -> (copy: Snippet)
    ensures
        copy@ == snippet@,
{
    let mut lines: Vec<(usize, String)> = Vec::new();
    let mut at: usize = 0;
    while at < snippet.lines.len()
        invariant
            at == lines@.len() <= snippet.lines@.len(),
            forall|i: int|
                0 <= i < at ==> (#[trigger] lines@[i]).0 == snippet.lines@[i].0 && lines@[i].1@
                    == snippet.lines@[i].1@,
        decreases snippet.lines@.len() - at,
    {
        let line = &snippet.lines[at];
        lines.push((line.0, line.1.clone()));
        at = at + 1;
    }
    let copy = Snippet {
        start_line: snippet.start_line,
        end_line: snippet.end_line,
        score: snippet.score.copy(),
        lines,
    };
    assert(copy@.lines == snippet@.lines);
    copy
}

/// The first passages, at most `limit`.
fn first_snippets(snippets: &Vec<Snippet>, limit: usize) -> (first: Vec<Snippet>)
    ensures
        snippet_views(first@) == snippet_views(snippets@).take(limited(snippets@.len(), limit)),
{
    let mut first: Vec<Snippet> = Vec::new();
    let mut at: usize = 0;
    while at < snippets.len() && at < limit
        invariant
            at == first@.len() <= snippets@.len(),
            at <= limit,
            forall|i: int| 0 <= i < at ==> (#[trigger] first@[i])@ == snippets@[i]@,
        decreases snippets@.len() - at,
    {
        first.push(clone_snippet(&snippets[at]));
        at = at + 1;
    }
    assert(snippet_views(first@) == snippet_views(snippets@).take(
        limited(snippets@.len(), limit),
    ));
    first
}

/// The stretches of lines that passages come to with the lines around them.
pub fn merge_snippets(
    snippets: &Vec<Snippet>,
    before_context: usize,
    after_context: usize,
    line_count: usize,
) -> (ranges: Vec<LineRange>)
    ensures
        ranges@ == merged_ranges(spans_of(snippets@), before_context, after_context, line_count),
{
    let mut spans: Vec<(usize, usize)> = Vec::new();
    let mut at: usize = 0;
    while at < snippets.len()
        invariant
            at == spans@.len() <= snippets@.len(),
            forall|i: int| 0 <= i < at ==> #[trigger] spans@[i] == spans_of(snippets@)[i],
        decreases snippets@.len() - at,
    {
        spans.push((snippets[at].start_line, snippets[at].end_line));
        at = at + 1;
    }
    assert(spans@ == spans_of(snippets@));
    merge_ranges(&spans, before_context, after_context, line_count)
}

/// The passage for a stretch of lines.
fn cut_snippet(file_lines: &Vec<String>, range: &LineRange, score: &Score) -> (snippet: Snippet)
    requires
        range.start >= 1,
        range.end <= file_lines@.len(),
    ensures
        snippet@ == range_snippet(texts(file_lines@), *range, *score),
{
    let mut lines: Vec<(usize, String)> = Vec::new();
    let total: usize = file_lines.len();
    let ghost wanted = lines_between(texts(file_lines@), range.start, range.end);
    if range.start <= range.end {
        let mut index: usize = range.start - 1;
        while index < range.end
            invariant
                1 <= range.start <= range.end <= total == file_lines@.len(),
                range.start - 1 <= index <= range.end,
                wanted == lines_between(texts(file_lines@), range.start, range.end),
                numbered(lines@) == wanted.take(index - (range.start - 1)),
            decreases range.end - index,
        {
            let ghost before = lines@;
            lines.push((index + 1, file_lines[index].clone()));
            proof {
                let done = index - (range.start - 1);
                assert(numbered(lines@) == numbered(before).push(
                    ((index + 1) as usize, file_lines@[index as int]@),
                ));
                assert(wanted[done] == ((index + 1) as usize, texts(file_lines@)[index as int]));
                assert(wanted.take(done + 1) == wanted.take(done).push(wanted[done]));
            }
            index = index + 1;
        }
        assert(wanted.take(wanted.len() as int) == wanted);
    }
    assert(numbered(lines@) == wanted);
    Snippet { start_line: range.start, end_line: range.end, score: score.copy(), lines }
}

/// Chooses the best stretches, and puts the chosen in the order of their first lines.
fn choose_ranges(ranges: &Vec<LineRange>, scores: &Vec<Score>, limit: usize) -> (shown: Vec<usize>)
    requires
        scores@.len() == ranges@.len(),
    ensures
        shown@ == shown_ranges(ranges@, scores@, limit),
        forall|i: int| 0 <= i < shown@.len() ==> #[trigger] shown@[i] < ranges@.len(),
{
    let mut keys: Vec<RankKey> = Vec::new();
    let mut at: usize = 0;
    while at < ranges.len()
        invariant
            scores@.len() == ranges@.len(),
            at == keys@.len() <= ranges@.len(),
            forall|i: int|
                0 <= i < at ==> #[trigger] keys@[i] == choice_keys(ranges@, scores@)[i],
        decreases ranges@.len() - at,
    {
        keys.push(RankKey { score: scores[at].order, tie: ranges[at].start });
        at = at + 1;
    }
    assert(keys@ == choice_keys(ranges@, scores@));
    let mut chosen = ranking(&keys);
    let ghost all = chosen@;
    if limit < chosen.len() {
        chosen.truncate(limit);
    }
    assert(chosen@ == chosen_ranges(ranges@, scores@, limit)) by {
        assert(all.take(all.len() as int) == all);
    }
    assert forall|i: int| 0 <= i < chosen@.len() implies #[trigger] chosen@[i] < ranges@.len() by {
        assert(all[i] < ranges@.len());
    }
    let mut places: Vec<RankKey> = Vec::new();
    let mut index: usize = 0;
    while index < chosen.len()
        invariant
            index == places@.len() <= chosen@.len(),
            forall|i: int| 0 <= i < chosen@.len() ==> #[trigger] chosen@[i] < ranges@.len(),
            forall|i: int|
                0 <= i < index ==> #[trigger] places@[i] == place_keys(ranges@, chosen@)[i],
        decreases chosen@.len() - index,
    {
        places.push(RankKey { score: 0, tie: ranges[chosen[index]].start });
        index = index + 1;
    }
    assert(places@ == place_keys(ranges@, chosen@));
    let order = ranking(&places);
    let mut shown: Vec<usize> = Vec::new();
    let mut place: usize = 0;
    while place < order.len()
        invariant
            is_ranking(places@, order@),
            places@.len() == chosen@.len(),
            place == shown@.len() <= order@.len(),
            forall|i: int| 0 <= i < chosen@.len() ==> #[trigger] chosen@[i] < ranges@.len(),
            forall|i: int| 0 <= i < place ==> #[trigger] shown@[i] == chosen@[order@[i] as int],
            forall|i: int| 0 <= i < place ==> #[trigger] shown@[i] < ranges@.len(),
        decreases order@.len() - place,
    {
        shown.push(chosen[order[place]]);
        place = place + 1;
    }
    assert(shown@ == shown_ranges(ranges@, scores@, limit));
    shown
}

/// Whether the lines of a file are at hand.
pub open spec fn has_lines(file_lines: Option<Vec<String>>) -> bool {
    file_lines is Some && file_lines->0@.len() > 0
}

/// The passages to show for a file: the stretches around the matched lines, the best of them, in
/// the order of the file. Where the lines of the file are not at hand, the first matched lines.
pub fn build_snippets(
    file_lines: &Option<Vec<String>>,
    before_context: usize,
    after_context: usize,
    max_snippets: usize,
    placeholder_snippets: &Vec<Snippet>,
    scores: &Vec<Score>,
) -> (snippets: Vec<Snippet>)
    requires
        has_lines(*file_lines) ==> scores@.len() == merged_ranges(
            spans_of(placeholder_snippets@),
            before_context,
            after_context,
            file_lines->0@.len() as usize,
        ).len(),
    ensures
        !has_lines(*file_lines) ==> snippet_views(snippets@) == snippet_views(
            placeholder_snippets@,
        ).take(limited(placeholder_snippets@.len(), max_snippets)),
        has_lines(*file_lines) ==> ({
            let ranges = merged_ranges(
                spans_of(placeholder_snippets@),
                before_context,
                after_context,
                file_lines->0@.len() as usize,
            );
            let shown = shown_ranges(ranges, scores@, max_snippets);
            &&& snippets@.len() == shown.len()
            &&& forall|i: int|
                0 <= i < shown.len() ==> (#[trigger] snippets@[i])@ == range_snippet(
                    texts(file_lines->0@),
                    ranges[shown[i] as int],
                    scores@[shown[i] as int],
                )
        }),
{
    let Some(file_lines) = file_lines else {
        return first_snippets(placeholder_snippets, max_snippets);
    };
    if file_lines.len() == 0 {
        return first_snippets(placeholder_snippets, max_snippets);
    }
    let line_count: usize = file_lines.len();
    let ranges = merge_snippets(placeholder_snippets, before_context, after_context, line_count);
    let item_count: usize = placeholder_snippets.len();
    proof {
        ranges_share_out_the_items(
            spans_of(placeholder_snippets@),
            before_context,
            after_context,
            line_count,
        );
    }
    let shown = choose_ranges(&ranges, scores, max_snippets);
    let mut snippets: Vec<Snippet> = Vec::new();
    let mut at: usize = 0;
    while at < shown.len()
        invariant
            scores@.len() == ranges@.len(),
            line_count == file_lines@.len(),
            forall|i: int|
                0 <= i < ranges@.len() ==> 1 <= (#[trigger] ranges@[i]).start && ranges@[i].end
                    <= line_count,
            forall|i: int| 0 <= i < shown@.len() ==> #[trigger] shown@[i] < ranges@.len(),
            at == snippets@.len() <= shown@.len(),
            forall|i: int|
                0 <= i < at ==> (#[trigger] snippets@[i])@ == range_snippet(
                    texts(file_lines@),
                    ranges@[shown@[i] as int],
                    scores@[shown@[i] as int],
                ),
        decreases shown@.len() - at,
    {
        let item = shown[at];
        snippets.push(cut_snippet(file_lines, &ranges[item], &scores[item]));
        at = at + 1;
    }
    snippets
}

/// The passages shown are those with the best scores, each once, in the order of their first
/// lines.
pub proof fn shown_ranges_are_the_best(
    ranges: Seq<LineRange>,
    scores: Seq<Score>,
    limit: usize,
)
    requires
        scores.len() == ranges.len() <= usize::MAX,
    ensures
        ({
            let shown = shown_ranges(ranges, scores, limit);
            &&& shown.len() == limited(ranges.len(), limit)
            &&& forall|i: int, j: int|
                0 <= i < j < shown.len() ==> #[trigger] shown[i] != #[trigger] shown[j]
            &&& forall|i: int, j: int|
                0 <= i < j < shown.len() ==> ranges[#[trigger] shown[i] as int].start
                    <= ranges[#[trigger] shown[j] as int].start
            &&& forall|kept: usize, left: usize|
                shown.contains(kept) && left < ranges.len() && !shown.contains(left)
                    ==> #[trigger] comes_before(
                    choice_keys(ranges, scores),
                    kept as int,
                    left as int,
                )
        }),
{
    let keys = choice_keys(ranges, scores);
    let order = ranking_of(keys);
    ranking_exists(keys);
    let chosen = chosen_ranges(ranges, scores, limit);
    ranking_exists(place_keys(ranges, chosen));
    let places = ranking_of(place_keys(ranges, chosen));
    let shown = shown_ranges(ranges, scores, limit);
    assert(is_ranking(place_keys(ranges, chosen), places));
    assert forall|i: int, j: int| 0 <= i < j < shown.len() implies #[trigger] shown[i]
        != #[trigger] shown[j] by {
        let first = places[i] as int;
        let second = places[j] as int;
        assert(comes_before(place_keys(ranges, chosen), first, second));
        assert(first != second);
        if first < second {
            assert(comes_before(keys, order[first] as int, order[second] as int));
        } else {
            assert(comes_before(keys, order[second] as int, order[first] as int));
        }
    }
    assert forall|i: int, j: int| 0 <= i < j < shown.len() implies ranges[#[trigger] shown[i] as int].start
        <= ranges[#[trigger] shown[j] as int].start by {
        assert(comes_before(
            place_keys(ranges, chosen),
            places[i] as int,
            places[j] as int,
        ));
    }
    assert forall|kept: usize, left: usize|
        shown.contains(kept) && left < ranges.len() && !shown.contains(
            left,
        ) implies #[trigger] comes_before(keys, kept as int, left as int) by {
        let i = shown.index_of(kept);
        assert(shown[i] == kept);
        let at = places[i] as int;
        assert(order[at] == kept);
        assert(order.contains(left));
        let other = order.index_of(left);
        if other < chosen.len() {
            assert(chosen[other] == left);
            assert(places.contains(other as usize));
            let k = places.index_of(other as usize);
            assert(shown[k] == left);
            assert(shown.contains(left));
        }
        assert(order[other] == left);
    }
}

} // verus!
