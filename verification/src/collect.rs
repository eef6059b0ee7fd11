//! Ranked searches: the collection of lines up to a limit, and what is shown of the ranked files.

use vstd::prelude::*;

use crate::candidate::{FileCandidate, FilePath};
use crate::cli::{Cli, DEFAULT_CONTEXT_LINES};
use crate::context::LineRange;
use crate::matcher::{numbers_ascend, FoundLine};
use crate::order::ranking_of;
use crate::query::Query;
use crate::rank::{
    keep_top, rank_candidates, rank_keys, ranked_file, scores_fit, shown_count, FileScore,
    RankedFile, Score,
};
use crate::report::SearchReport;
use crate::search::{lines_taken, RankedSearch};
use crate::sinks::collected;
use crate::snippet::{shown_ranges, shown_ranges_are_the_best};

verus! {

/// The lines that match in a file.
#[derive(Debug, Clone)]
pub struct FoundFile {
    /// The path of the file.
    pub path: FilePath,
    /// The lines that match; nothing where the search failed.
    pub found: Option<Vec<FoundLine>>,
}

/// What a collection of lines comes to.
pub ghost struct Collection {
    /// The number of files searched.
    pub scanned: nat,
    /// The number of lines collected.
    pub lines: nat,
    /// Whether the limit kept lines or files out.
    pub truncated: bool,
    /// Whether no more files are searched.
    pub stopped: bool,
    /// The files from which lines were collected, each with the number of lines.
    pub taken: Seq<(int, nat)>,
}

/// The numbers of lines that match in files.
pub open spec fn found_counts(files: Seq<FoundFile>) -> Seq<Option<nat>> {
    Seq::new(
        files.len(),
        |i: int|
            match files[i].found {
                Some(lines) => Some(lines@.len()),
                None => None,
            },
    )
}

/// What the collection comes to after the first `count` files. Files are searched as long as there
/// is room for lines.
pub open spec fn collection_of(counts: Seq<Option<nat>>, limit: nat, count: int) -> Collection
    decreases count,
{
    if count <= 0 {
        Collection { scanned: 0, lines: 0, truncated: false, stopped: false, taken: Seq::empty() }
    } else {
        let before = collection_of(counts, limit, count - 1);
        if before.stopped {
            before
        } else if before.lines >= limit {
            Collection { truncated: true, stopped: true, ..before }
        } else {
            match counts[count - 1] {
                None => Collection { scanned: before.scanned + 1, ..before },
                Some(found) => {
                    let room = (limit - before.lines) as nat;
                    let lines = lines_taken(found, room);
                    Collection {
                        scanned: before.scanned + 1,
                        lines: before.lines + lines,
                        truncated: before.truncated || lines > 0 && found > room,
                        stopped: false,
                        taken: if lines > 0 {
                            before.taken.push((count - 1, lines))
                        } else {
                            before.taken
                        },
                    }
                },
            }
        }
    }
}

/// The number of lines that match in the first `count` files.
pub open spec fn total_found(counts: Seq<Option<nat>>, count: int) -> nat
    decreases count,
{
    if count <= 0 {
        0
    } else {
        total_found(counts, count - 1) + match counts[count - 1] {
            Some(found) => found,
            None => 0,
        }
    }
}

/// A collection never holds more lines than the limit. One that was not cut short has searched
/// every file and holds every line that matches; one that was is full.
pub proof fn collection_is_full_or_complete(counts: Seq<Option<nat>>, limit: nat, count: int)
    requires
        count >= 0,
    ensures
        ({
            let collection = collection_of(counts, limit, count);
            &&& collection.lines <= limit
            &&& collection.truncated ==> collection.lines == limit
            &&& collection.stopped ==> collection.truncated
            &&& collection.scanned <= count
            &&& !collection.truncated ==> collection.scanned == count && collection.lines
                == total_found(counts, count)
        }),
    decreases count,
{
    if count > 0 {
        collection_is_full_or_complete(counts, limit, count - 1);
    }
}

/// Whether the candidates of a search are those of a collection.
pub open spec fn are_candidates(
    query: Query,
    files: Seq<FoundFile>,
    collection: Collection,
    candidates: Seq<FileCandidate>,
) -> bool {
    &&& candidates.len() == collection.taken.len()
    &&& forall|i: int|
        0 <= i < candidates.len() ==> #[trigger] is_candidate(
            query,
            files,
            collection.taken[i],
            candidates[i],
        )
}

/// Whether a candidate holds the first lines that match in a file, so many of them.
pub open spec fn is_candidate(
    query: Query,
    files: Seq<FoundFile>,
    taken: (int, nat),
    candidate: FileCandidate,
) -> bool {
    let (index, count) = taken;
    &&& 0 <= index < files.len()
    &&& files[index].found is Some
    &&& candidate.path == files[index].path
    &&& candidate.matches@.len() == count
    &&& exists|limit: usize| #[trigger]
        collected(query, limit, files[index].found->0@, candidate.matches@)
}

/// Collects the lines that match in files, up to a limit.
pub fn execute_search(query: &Query, limit: usize, files: &Vec<FoundFile>) -> (search: RankedSearch)
    requires
        forall|i: int|
            0 <= i < files@.len() && (#[trigger] files@[i]).found is Some ==> numbers_ascend(
                files@[i].found->0@,
            ),
    ensures
        search.wf(query.terms@.len()),
        search.limit == limit,
        ({
            let collection = collection_of(
                found_counts(files@),
                limit as nat,
                files@.len() as int,
            );
            &&& search.scanned_files == collection.scanned
            &&& search.candidate_lines == collection.lines
            &&& search.truncated == collection.truncated
            &&& are_candidates(*query, files@, collection, search.candidates@)
        }),
{
    let mut search = RankedSearch::new(limit);
    let ghost counts = found_counts(files@);
    let mut stopped = false;
    let mut at: usize = 0;
    let total: usize = files.len();
    assert(search.wf(query.terms@.len()));
    while at < total
        invariant
            forall|i: int|
                0 <= i < files@.len() && (#[trigger] files@[i]).found is Some ==> numbers_ascend(
                    files@[i].found->0@,
                ),
            total == files@.len(),
            at <= total,
            counts == found_counts(files@),
            search.wf(query.terms@.len()),
            search.limit == limit,
            stopped == collection_of(counts, limit as nat, at as int).stopped,
            search.scanned_files == collection_of(counts, limit as nat, at as int).scanned,
            search.scanned_files <= at,
            search.candidate_lines == collection_of(counts, limit as nat, at as int).lines,
            search.truncated == collection_of(counts, limit as nat, at as int).truncated,
            are_candidates(
                *query,
                files@,
                collection_of(counts, limit as nat, at as int),
                search.candidates@,
            ),
        decreases total - at,
    {
        let ghost before = search;
        let ghost earlier = collection_of(counts, limit as nat, at as int);
        let ghost next = collection_of(counts, limit as nat, at + 1);
        if !stopped {
            if !search.accept_file() {
                stopped = true;
            } else if let Some(found) = &files[at].found {
                assert(counts[at as int] == Some(found@.len()));
                let ghost room = (limit - earlier.lines) as nat;
                search.take_file(query, files[at].path.copy(), found);
                proof {
                    let lines = lines_taken(found@.len(), room);
                    if lines > 0 {
                        let candidate = search.candidates@.last();
                        assert(collected(
                            *query,
                            room as usize,
                            files@[at as int].found->0@,
                            candidate.matches@,
                        ));
                        assert(is_candidate(*query, files@, (at as int, lines), candidate));
                        assert forall|i: int| 0 <= i < search.candidates@.len() implies #[trigger] is_candidate(
                            *query,
                            files@,
                            next.taken[i],
                            search.candidates@[i],
                        ) by {
                            if i < before.candidates@.len() {
                                assert(is_candidate(
                                    *query,
                                    files@,
                                    earlier.taken[i],
                                    before.candidates@[i],
                                ));
                                assert(search.candidates@[i] == before.candidates@[i]);
                                assert(next.taken[i] == earlier.taken[i]);
                            }
                        }
                    }
                }
            } else {
                assert(counts[at as int] is None);
            }
        }
        at = at + 1;
    }
    search
}

/// How many lines before a match ranked output shows.
pub open spec fn lines_before(cli: Cli) -> usize {
    if cli.context_explicit {
        cli.before_context
    } else {
        DEFAULT_CONTEXT_LINES
    }
}

/// How many lines after a match ranked output shows.
pub open spec fn lines_after(cli: Cli) -> usize {
    if cli.context_explicit {
        cli.after_context
    } else {
        DEFAULT_CONTEXT_LINES
    }
}

/// How many lines before a match ranked output shows.
pub fn ranked_before_context(cli: &Cli) -> (lines: usize)
    ensures
        lines == lines_before(*cli),
{
    if cli.context_explicit {
        cli.before_context
    } else {
        DEFAULT_CONTEXT_LINES
    }
}

/// How many lines after a match ranked output shows.
pub fn ranked_after_context(cli: &Cli) -> (lines: usize)
    ensures
        lines == lines_after(*cli),
{
    if cli.context_explicit {
        cli.after_context
    } else {
        DEFAULT_CONTEXT_LINES
    }
}

/// How many passages of a file are shown at most.
pub open spec fn snippet_limit_of(cli: Cli) -> usize {
    if cli.show_all {
        usize::MAX
    } else {
        cli.max_snippets
    }
}

/// How many passages of a file are shown at most.
pub fn snippet_limit(cli: &Cli) -> (limit: usize)
    ensures
        limit == snippet_limit_of(*cli),
{
    if cli.show_all {
        usize::MAX
    } else {
        cli.max_snippets
    }
}

/// Where all is asked for, every ranked file is shown and every passage of it.
pub proof fn all_leaves_nothing_out(
    cli: Cli,
    files: nat,
    ranges: Seq<LineRange>,
    scores: Seq<Score>,
)
    requires
        cli.show_all,
        scores.len() == ranges.len() <= usize::MAX,
    ensures
        shown_count(files, cli.show_all, cli.top_k) == files,
        shown_ranges(ranges, scores, snippet_limit_of(cli)).len() == ranges.len(),
{
    shown_ranges_are_the_best(ranges, scores, snippet_limit_of(cli));
}

/// The ranked files that are shown: the best first, and no more than are asked for.
pub fn rank_search(
    cli: &Cli,
    query: &Query,
    candidates: &Vec<FileCandidate>,
    scores: &Vec<FileScore>,
) -> (ranked: Vec<RankedFile>)
    requires
        scores_fit(candidates@, scores@),
    ensures
        ranked@.len() == shown_count(candidates@.len(), cli.show_all, cli.top_k),
        forall|i: int|
            0 <= i < ranked@.len() ==> (#[trigger] ranked@[i])@ == ranked_file(
                *query,
                candidates@[ranking_of(rank_keys(candidates@, scores@))[i] as int],
                scores@[ranking_of(rank_keys(candidates@, scores@))[i] as int],
            ),
        forall|i: int, j: int|
            0 <= i < j < ranked@.len() ==> (#[trigger] ranked@[i]).score.order >= (
            #[trigger] ranked@[j]).score.order,
{
    let mut ranked = rank_candidates(query, candidates, scores);
    keep_top(&mut ranked, cli.show_all, cli.top_k);
    ranked
}

/// What a ranked search came to.
pub fn search_report(
    query_text: &str,
    query: &Query,
    search: &RankedSearch,
    results: Vec<RankedFile>,
) -> (report: SearchReport)
    ensures
        report.query@ == query_text@,
        report.total_terms == query.terms@.len(),
        report.scanned_files == search.scanned_files,
        report.candidate_lines == search.candidate_lines,
        report.truncated == search.truncated,
        report.results == results,
{
    SearchReport {
        query: query_text.to_owned(),
        total_terms: query.terms.len(),
        scanned_files: search.scanned_files,
        candidate_lines: search.candidate_lines,
        truncated: search.truncated,
        results,
    }
}

} // verus!
