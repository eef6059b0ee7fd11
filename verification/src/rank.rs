//! The ranked files, the best first.

use vstd::prelude::*;

use crate::candidate::{
    body_tokens, candidate_scored, frequencies, matched_term_count, naturals, score_candidate,
    terms_found, CandidateScore, CorpusStats, FileCandidate, FilePath, LineMatchRecord,
};
use crate::order::{comes_before, is_ranking, ranking, ranking_of, RankKey};
use crate::query::Query;
use crate::snippet::{Snippet, SnippetView};
use crate::text::texts;

verus! {

/// A score: its place in the order of scores, and how it is shown.
#[derive(Debug, Clone)]
pub struct Score {
    /// The place of the score in the order of scores; greater is better.
    pub order: i64,
    /// The score as it is shown.
    pub text: String,
}

impl Score {
    /// The same score once more.
    pub fn copy(&self) -> (score: Score)
        ensures
            score == *self,
    {
        Score { order: self.order, text: self.text.clone() }
    }
}

/// The scores of a file: of the whole file, and of each of its matched lines.
#[derive(Debug, Clone)]
pub struct FileScore {
    /// The score of the file.
    pub total: Score,
    /// The scores of the matched lines.
    pub lines: Vec<Score>,
}

/// A ranked file.
#[derive(Debug, Clone)]
pub struct RankedFile {
    /// The path of the file.
    pub path: FilePath,
    /// The score of the file.
    pub score: Score,
    /// How many of the query's terms occur in the matched lines or in the path.
    pub matched_terms: usize,
    /// The number of matched lines.
    pub match_count: usize,
    /// The passages to show.
    pub snippets: Vec<Snippet>,
}

/// A ranked file, with texts as sequences of characters.
pub ghost struct RankedFileView {
    pub path: Seq<char>,
    pub path_rank: usize,
    pub score: i64,
    pub score_text: Seq<char>,
    pub matched_terms: nat,
    pub match_count: nat,
    pub snippets: Seq<SnippetView>,
}

/// The passages, with texts as sequences of characters.
pub open spec fn snippet_views(snippets: Seq<Snippet>) -> Seq<SnippetView> {
    Seq::new(snippets.len(), |i: int| snippets[i]@)
}

impl View for RankedFile {
    type V = RankedFileView;

    open spec fn view(&self) -> RankedFileView {
        RankedFileView {
            path: self.path.text@,
            path_rank: self.path.rank,
            score: self.score.order,
            score_text: self.score.text@,
            matched_terms: self.matched_terms as nat,
            match_count: self.match_count as nat,
            snippets: snippet_views(self.snippets@),
        }
    }
}

/// A passage of one matched line.
pub open spec fn line_snippet(line: LineMatchRecord, score: Score) -> SnippetView {
    SnippetView {
        start_line: line.line_number,
        end_line: line.line_number,
        score: score.order,
        score_text: score.text@,
        lines: seq![(line.line_number, line.text@)],
    }
}

/// A passage for each matched line.
pub open spec fn line_snippets(lines: Seq<LineMatchRecord>, scores: Seq<Score>) -> Seq<
    SnippetView,
> {
    Seq::new(lines.len(), |i: int| line_snippet(lines[i], scores[i]))
}

/// What a candidate comes to once it has its scores.
pub open spec fn ranked_file(
    query: Query,
    candidate: FileCandidate,
    score: FileScore,
) -> RankedFileView {
    RankedFileView {
        path: candidate.path.text@,
        path_rank: candidate.path.rank,
        score: score.total.order,
        score_text: score.total.text@,
        matched_terms: terms_found(candidate, texts(query.terms@), query.terms@.len() as int),
        match_count: candidate.matches@.len(),
        snippets: line_snippets(candidate.matches@, score.lines@),
    }
}

/// What candidates are ranked by: the score, and among equal scores the path.
pub open spec fn rank_keys(candidates: Seq<FileCandidate>, scores: Seq<FileScore>) -> Seq<RankKey> {
    Seq::new(
        candidates.len(),
        |i: int| RankKey { score: scores[i].total.order, tie: candidates[i].path.rank },
    )
}

/// Whether there are scores for every candidate and for every matched line.
pub open spec fn scores_fit(candidates: Seq<FileCandidate>, scores: Seq<FileScore>) -> bool {
    &&& scores.len() == candidates.len()
    &&& forall|i: int|
        0 <= i < scores.len() ==> (#[trigger] scores[i]).lines@.len() == candidates[i].matches@.len()
}

/// A passage for each matched line.
pub fn placeholder_snippets(lines: &Vec<LineMatchRecord>, scores: &Vec<Score>) -> (snippets: Vec<
    Snippet,
>)
    requires
        lines@.len() == scores@.len(),
    ensures
        snippet_views(snippets@) == line_snippets(lines@, scores@),
{
    let mut snippets: Vec<Snippet> = Vec::new();
    let mut at: usize = 0;
    while at < lines.len()
        invariant
            lines@.len() == scores@.len(),
            at == snippets@.len() <= lines@.len(),
            forall|i: int|
                0 <= i < at ==> (#[trigger] snippets@[i])@ == line_snippet(lines@[i], scores@[i]),
        decreases lines@.len() - at,
    {
        let line = &lines[at];
        let mut shown: Vec<(usize, String)> = Vec::new();
        shown.push((line.line_number, line.text.clone()));
        let snippet = Snippet {
            start_line: line.line_number,
            end_line: line.line_number,
            score: scores[at].copy(),
            lines: shown,
        };
        assert(snippet@.lines == seq![(line.line_number, line.text@)]);
        snippets.push(snippet);
        at = at + 1;
    }
    assert(snippet_views(snippets@) == line_snippets(lines@, scores@));
    snippets
}

/// A candidate with its scores.
fn ranked_candidate(query: &Query, candidate: &FileCandidate, score: &FileScore) -> (ranked:
    RankedFile)
    requires
        score.lines@.len() == candidate.matches@.len(),
    ensures
        ranked@ == ranked_file(*query, *candidate, *score),
        ranked.score == score.total,
        ranked.path == candidate.path,
{
    let body = body_tokens(candidate);
    RankedFile {
        path: candidate.path.copy(),
        score: score.total.copy(),
        matched_terms: matched_term_count(query, candidate, &body),
        match_count: candidate.matches.len(),
        snippets: placeholder_snippets(&candidate.matches, &score.lines),
    }
}

/// What the candidates have in common, and what of each of them counts towards its rank.
pub fn measure_candidates(query: &Query, candidates: &Vec<FileCandidate>) -> (measures: (
    CorpusStats,
    Vec<CandidateScore>,
))
    requires
        forall|i: int|
            0 <= i < candidates@.len() ==> (#[trigger] candidates@[i]).fits(query.terms@.len()),
    ensures
        measures.0.of(*query, candidates@),
        measures.1@.len() == candidates@.len(),
        forall|i: int|
            0 <= i < candidates@.len() ==> candidate_scored(
                *query,
                measures.0,
                candidates@[i],
                #[trigger] measures.1@[i],
            ),
{
    let stats = CorpusStats::from_candidates(query, candidates);
    assert(stats.document_frequency@.len() == query.terms@.len()) by {
        assert(naturals(stats.document_frequency@).len()
            == stats.document_frequency@.len());
        assert(frequencies(candidates@, texts(query.terms@)).len()
            == query.terms@.len());
    }
    let mut scores: Vec<CandidateScore> = Vec::new();
    let mut at: usize = 0;
    while at < candidates.len()
        invariant
            stats.document_frequency@.len() == query.terms@.len(),
            forall|i: int|
                0 <= i < candidates@.len() ==> (#[trigger] candidates@[i]).fits(query.terms@.len()),
            at == scores@.len() <= candidates@.len(),
            forall|i: int|
                0 <= i < at ==> candidate_scored(
                    *query,
                    stats,
                    candidates@[i],
                    #[trigger] scores@[i],
                ),
        decreases candidates@.len() - at,
    {
        scores.push(score_candidate(query, &stats, &candidates[at]));
        at = at + 1;
    }
    (stats, scores)
}

/// The candidates with their scores, the best first; among equal scores in the order of their
/// paths.
pub fn rank_candidates(
    query: &Query,
    candidates: &Vec<FileCandidate>,
    scores: &Vec<FileScore>,
) -> (ranked: Vec<RankedFile>)
    requires
        scores_fit(candidates@, scores@),
    ensures
        ranked@.len() == candidates@.len(),
        forall|i: int|
            0 <= i < ranked@.len() ==> (#[trigger] ranked@[i])@ == ranked_file(
                *query,
                candidates@[ranking_of(rank_keys(candidates@, scores@))[i] as int],
                scores@[ranking_of(rank_keys(candidates@, scores@))[i] as int],
            ),
        forall|i: int, j: int|
            0 <= i < j < ranked@.len() ==> (#[trigger] ranked@[i]).score.order > (
            #[trigger] ranked@[j]).score.order || ranked@[i].score.order == ranked@[j].score.order
                && ranked@[i].path.rank <= ranked@[j].path.rank,
{
    let mut keys: Vec<RankKey> = Vec::new();
    let mut at: usize = 0;
    while at < candidates.len()
        invariant
            scores_fit(candidates@, scores@),
            at == keys@.len() <= candidates@.len(),
            forall|i: int|
                0 <= i < at ==> #[trigger] keys@[i] == rank_keys(candidates@, scores@)[i],
        decreases candidates@.len() - at,
    {
        keys.push(RankKey { score: scores[at].total.order, tie: candidates[at].path.rank });
        at = at + 1;
    }
    let ghost wanted = rank_keys(candidates@, scores@);
    assert(keys@ == wanted);
    let order = ranking(&keys);
    let mut ranked: Vec<RankedFile> = Vec::new();
    let mut place: usize = 0;
    while place < order.len()
        invariant
            scores_fit(candidates@, scores@),
            wanted == rank_keys(candidates@, scores@),
            is_ranking(wanted, order@),
            order@ == ranking_of(wanted),
            place == ranked@.len() <= order@.len(),
            forall|i: int|
                0 <= i < place ==> (#[trigger] ranked@[i])@ == ranked_file(
                    *query,
                    candidates@[order@[i] as int],
                    scores@[order@[i] as int],
                ),
        decreases order@.len() - place,
    {
        let item = order[place];
        ranked.push(ranked_candidate(query, &candidates[item], &scores[item]));
        place = place + 1;
    }
    proof {
        assert forall|i: int, j: int| 0 <= i < j < ranked@.len() implies (#[trigger] ranked@[i]).score.order > (
        #[trigger] ranked@[j]).score.order || ranked@[i].score.order == ranked@[j].score.order
            && ranked@[i].path.rank <= ranked@[j].path.rank by {
            let left = order@[i] as int;
            let right = order@[j] as int;
            assert(comes_before(wanted, left, right));
            assert(ranked@[i]@.score == wanted[left].score && ranked@[i]@.path_rank == wanted[left].tie);
            assert(ranked@[j]@.score == wanted[right].score && ranked@[j]@.path_rank == wanted[right].tie);
        }
    }
    ranked
}

/// How many of the ranked files are shown.
pub open spec fn shown_count(total: nat, show_all: bool, top_k: usize) -> nat {
    if show_all || top_k > total {
        total
    } else {
        top_k as nat
    }
}

/// Keeps the best `top_k` files, or all of them.
pub fn keep_top(ranked: &mut Vec<RankedFile>, show_all: bool, top_k: usize)
    ensures
        final(ranked)@ == old(ranked)@.take(
            shown_count(old(ranked)@.len(), show_all, top_k) as int,
        ),
{
    if !show_all && top_k < ranked.len() {
        ranked.truncate(top_k);
    }
    assert(old(ranked)@.take(old(ranked)@.len() as int) == old(ranked)@);
}

} // verus!
