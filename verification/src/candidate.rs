//! Files with matched lines, and what of them counts towards their rank.

use vstd::prelude::*;

use crate::cover::{is_smallest_span, minimal_cover_span, unique_term_indexes};
use crate::hits::{
    contains_partial_token, count_exact_hits, count_partial_hits, exact_hits, found_in,
    found_means_hit, partial_hits,
};
use crate::query::{normalize_text, normalized, Query};
use crate::text::{contains_text, occurs_in, texts, tokenize, words};

verus! {

/// A path, as it is shown and as it is ordered among other paths.
#[derive(Debug, Clone)]
pub struct FilePath {
    /// The path as it is shown.
    pub text: String,
    /// The place of the path in the order of all paths at hand; equal paths have the same place.
    pub rank: usize,
}

impl FilePath {
    /// The same path once more.
    pub fn copy(&self) -> (path: FilePath)
        ensures
            path == *self,
    {
        FilePath { text: self.text.clone(), rank: self.rank }
    }
}

/// What a matched line is worth: for each matched term the number of words that are the term, and
/// whether the whole phrase stands in the line.
#[derive(Debug, Clone)]
pub struct LineHint {
    /// For each matched term the number of words that are the term; zero where the term is only a
    /// part of words.
    pub exact_hits: Vec<usize>,
    /// Whether the query's phrase stands in the line.
    pub phrase: bool,
}

/// A matched line.
#[derive(Debug, Clone)]
pub struct LineMatchRecord {
    /// The number of the line in its file, counted from one.
    pub line_number: usize,
    /// The line, without its ending.
    pub text: String,
    /// The line in plain form.
    pub normalized_text: String,
    /// The query's terms that occur in the line, by index.
    pub matched_terms: Vec<usize>,
    /// What the line is worth.
    pub hint: LineHint,
}

/// The indexes of the first `count` terms that occur among the tokens.
pub open spec fn found_terms(terms: Seq<Seq<char>>, tokens: Seq<Seq<char>>, count: int) -> Seq<usize>
    decreases count,
{
    if count <= 0 {
        Seq::empty()
    } else {
        let before = found_terms(terms, tokens, count - 1);
        if found_in(tokens, terms[count - 1]) {
            before.push((count - 1) as usize)
        } else {
            before
        }
    }
}

/// For each listed term the number of tokens that are the term.
pub open spec fn hits_of(
    terms: Seq<Seq<char>>,
    tokens: Seq<Seq<char>>,
    listed: Seq<usize>,
) -> Seq<nat> {
    Seq::new(listed.len(), |i: int| exact_hits(tokens, terms[listed[i] as int]))
}

/// The numbers, as natural numbers.
pub open spec fn naturals(numbers: Seq<usize>) -> Seq<nat> {
    Seq::new(numbers.len(), |i: int| numbers[i] as nat)
}

/// The terms found are listed in ascending order, and they are those that occur.
pub proof fn found_terms_are_those_found(
    terms: Seq<Seq<char>>,
    tokens: Seq<Seq<char>>,
    count: int,
)
    requires
        0 <= count <= usize::MAX,
    ensures
        forall|i: int, j: int|
            0 <= i < j < found_terms(terms, tokens, count).len() ==> found_terms(
                terms,
                tokens,
                count,
            )[i] < found_terms(terms, tokens, count)[j],
        forall|term: usize| #[trigger]
            found_terms(terms, tokens, count).contains(term) <==> term < count && found_in(
                tokens,
                terms[term as int],
            ),
        forall|i: int|
            0 <= i < found_terms(terms, tokens, count).len() ==> #[trigger] found_terms(
                terms,
                tokens,
                count,
            )[i] < count,
    decreases count,
{
    if count > 0 {
        found_terms_are_those_found(terms, tokens, count - 1);
        let before = found_terms(terms, tokens, count - 1);
        let all = found_terms(terms, tokens, count);
        assert forall|term: usize| #[trigger] all.contains(term) <==> term < count && found_in(
            tokens,
            terms[term as int],
        ) by {
            assert(before.contains(term) <==> term < count - 1 && found_in(
                tokens,
                terms[term as int],
            ));
            if all.contains(term) {
                let i = all.index_of(term);
                if i < before.len() {
                    assert(before[i] == term);
                }
            }
            if before.contains(term) {
                let i = before.index_of(term);
                assert(all[i] == term);
            }
            if term == count - 1 && found_in(tokens, terms[term as int]) {
                assert(all[before.len() as int] == term);
            }
        }
    }
}

/// Whether what a line is worth is what its terms and its plain form give.
pub open spec fn scored(
    query: Query,
    plain: Seq<char>,
    matched_terms: Seq<usize>,
    hint: LineHint,
) -> bool {
    let tokens = words(plain);
    let terms = texts(query.terms@);
    &&& matched_terms == found_terms(terms, tokens, terms.len() as int)
    &&& naturals(hint.exact_hits@) == hits_of(terms, tokens, matched_terms)
    &&& hint.phrase == occurs_in(query.normalized_phrase@, plain)
}

/// The query's terms that occur in a line of plain text, and what the line is worth.
pub fn score_line_against_query(query: &Query, normalized_text: &str) -> (result: (
    Vec<usize>,
    LineHint,
))
    ensures
        scored(*query, normalized_text@, result.0@, result.1),
{
    let tokens = tokenize(normalized_text);
    let mut matched_terms: Vec<usize> = Vec::new();
    let mut hits: Vec<usize> = Vec::new();
    let ghost terms = texts(query.terms@);
    let ghost found = texts(tokens@);
    let mut index: usize = 0;
    while index < query.terms.len()
        invariant
            index <= query.terms@.len(),
            terms == texts(query.terms@),
            found == texts(tokens@),
            matched_terms@ == found_terms(terms, found, index as int),
            naturals(hits@) == hits_of(terms, found, matched_terms@),
        decreases query.terms@.len() - index,
    {
        let term = query.terms[index].as_str();
        assert(terms[index as int] == term@);
        proof {
            found_means_hit(found, term@);
        }
        let exact = count_exact_hits(&tokens, term);
        let ghost before = hits@;
        let ghost before_terms = matched_terms@;
        if exact > 0 || contains_partial_token(&tokens, term) {
            matched_terms.push(index);
            hits.push(exact);
            proof {
                assert(naturals(hits@) == naturals(before).push(exact as nat));
                assert(hits_of(terms, found, matched_terms@) == hits_of(
                    terms,
                    found,
                    before_terms,
                ).push(exact as nat));
            }
        }
        index = index + 1;
    }
    let phrase = contains_text(normalized_text, query.normalized_phrase.as_str());
    (matched_terms, LineHint { exact_hits: hits, phrase })
}

/// A file with matched lines.
#[derive(Debug, Clone)]
pub struct FileCandidate {
    /// The path of the file.
    pub path: FilePath,
    /// The path in plain form.
    pub normalized_path: String,
    /// The words of the path in plain form.
    pub path_tokens: Vec<String>,
    /// The matched lines.
    pub matches: Vec<LineMatchRecord>,
}

impl FileCandidate {
    /// Whether the plain form of the path, and its words, are those of the path.
    pub open spec fn wf(self) -> bool {
        &&& self.normalized_path@ == normalized(self.path.text@)
        &&& texts(self.path_tokens@) == words(self.normalized_path@)
    }

    /// Whether the matched lines belong to a query with `term_count` terms.
    pub open spec fn fits(self, term_count: nat) -> bool {
        lines_fit(self.matches@, term_count)
    }

    /// A file with the given matched lines.
    pub fn new(path: FilePath, matches: Vec<LineMatchRecord>) -> (candidate: FileCandidate)
        ensures
            candidate.wf(),
            candidate.path == path,
            candidate.matches == matches,
    {
        let normalized_path = normalize_text(path.text.as_str());
        let path_tokens = tokenize(normalized_path.as_str());
        FileCandidate { path, normalized_path, path_tokens, matches }
    }
}

/// Whether lines are numbered from one and name terms of a query with `term_count` terms.
pub open spec fn lines_fit(lines: Seq<LineMatchRecord>, term_count: nat) -> bool {
    forall|line: int|
        0 <= line < lines.len() ==> #[trigger] line_fits(lines[line], term_count)
}

/// Whether a line has a number and names terms of a query with `term_count` terms.
pub open spec fn line_fits(line: LineMatchRecord, term_count: nat) -> bool {
    &&& line.line_number >= 1
    &&& forall|i: int|
        0 <= i < line.matched_terms@.len() ==> #[trigger] line.matched_terms@[i] < term_count
}

/// The words of the matched lines, line after line.
pub open spec fn body_words(lines: Seq<LineMatchRecord>) -> Seq<Seq<char>>
    decreases lines.len(),
{
    if lines.len() == 0 {
        Seq::empty()
    } else {
        body_words(lines.drop_last()) + words(lines.last().normalized_text@)
    }
}

/// The matched lines in plain form, with a space before each but those with nothing before them.
pub open spec fn body_text(lines: Seq<LineMatchRecord>) -> Seq<char>
    decreases lines.len(),
{
    if lines.len() == 0 {
        Seq::empty()
    } else {
        let before = body_text(lines.drop_last());
        let line = lines.last().normalized_text@;
        if before.len() == 0 {
            line
        } else {
            before.push(' ') + line
        }
    }
}

/// The words of the matched lines.
pub fn body_tokens(candidate: &FileCandidate) -> (tokens: Vec<String>)
    ensures
        texts(tokens@) == body_words(candidate.matches@),
{
    let mut tokens: Vec<String> = Vec::new();
    let ghost lines = candidate.matches@;
    let mut at: usize = 0;
    assert(texts(tokens@) == body_words(lines.take(0)));
    while at < candidate.matches.len()
        invariant
            lines == candidate.matches@,
            at <= lines.len(),
            texts(tokens@) == body_words(lines.take(at as int)),
        decreases lines.len() - at,
    {
        let mut more = tokenize(candidate.matches[at].normalized_text.as_str());
        let ghost before = tokens@;
        let ghost added = more@;
        tokens.append(&mut more);
        proof {
            assert(lines.take(at + 1).drop_last() == lines.take(at as int));
            assert(texts(tokens@) == texts(before) + texts(added));
        }
        at = at + 1;
    }
    assert(lines.take(at as int) == lines);
    tokens
}

/// The matched lines in plain form, one after the other.
pub fn join_normalized_lines(lines: &Vec<LineMatchRecord>) -> (whole: String)
    ensures
        whole@ == body_text(lines@),
{
    let mut whole = String::new();
    let mut at: usize = 0;
    while at < lines.len()
        invariant
            at <= lines@.len(),
            whole@ == body_text(lines@.take(at as int)),
        decreases lines@.len() - at,
    {
        assert(lines@.take(at + 1).drop_last() == lines@.take(at as int));
        if !whole.as_str().is_empty() {
            whole.push(' ');
        }
        whole.append(lines[at].normalized_text.as_str());
        at = at + 1;
    }
    assert(lines@.take(at as int) == lines@);
    whole
}

/// Whether a term occurs in the matched lines or in the path.
pub open spec fn term_found(candidate: FileCandidate, term: Seq<char>) -> bool {
    found_in(body_words(candidate.matches@), term) || found_in(texts(candidate.path_tokens@), term)
}

/// How many of the first `count` terms occur in the matched lines or in the path.
pub open spec fn terms_found(candidate: FileCandidate, terms: Seq<Seq<char>>, count: int) -> nat
    decreases count,
{
    if count <= 0 {
        0
    } else {
        terms_found(candidate, terms, count - 1) + if term_found(candidate, terms[count - 1]) {
            1nat
        } else {
            0nat
        }
    }
}

/// No more terms are found than there are.
pub proof fn found_terms_are_at_most_the_terms(
    candidate: FileCandidate,
    terms: Seq<Seq<char>>,
    count: int,
)
    ensures
        count >= 0 ==> terms_found(candidate, terms, count) <= count,
    decreases count,
{
    if count > 0 {
        found_terms_are_at_most_the_terms(candidate, terms, count - 1);
    }
}

/// Whether a term occurs in the matched lines, of which the words are at hand, or in the path.
fn is_term_found(candidate: &FileCandidate, body: &Vec<String>, term: &str) -> (found: bool)
    requires
        texts(body@) == body_words(candidate.matches@),
    ensures
        found == term_found(*candidate, term@),
{
    proof {
        found_means_hit(texts(body@), term@);
        found_means_hit(texts(candidate.path_tokens@), term@);
    }
    count_exact_hits(body, term) > 0 || count_partial_hits(body, term, false) > 0
        || count_exact_hits(&candidate.path_tokens, term) > 0 || contains_partial_token(
        &candidate.path_tokens,
        term,
    )
}

/// How many of the query's terms occur in the matched lines or in the path.
pub fn matched_term_count(query: &Query, candidate: &FileCandidate, body_tokens: &Vec<String>) -> (
    count: usize)
    requires
        texts(body_tokens@) == body_words(candidate.matches@),
    ensures
        count == terms_found(*candidate, texts(query.terms@), query.terms@.len() as int),
{
    let ghost terms = texts(query.terms@);
    let mut count: usize = 0;
    let mut at: usize = 0;
    while at < query.terms.len()
        invariant
            terms == texts(query.terms@),
            texts(body_tokens@) == body_words(candidate.matches@),
            at <= query.terms@.len(),
            count <= at,
            count == terms_found(*candidate, terms, at as int),
        decreases query.terms@.len() - at,
    {
        assert(terms[at as int] == query.terms@[at as int]@);
        if is_term_found(candidate, body_tokens, query.terms[at].as_str()) {
            count = count + 1;
        }
        at = at + 1;
    }
    count
}

/// What the candidates have in common: how many they are, how long they are together, and in how
/// many of them each term occurs.
#[derive(Debug, Clone)]
pub struct CorpusStats {
    /// The number of candidates, at least one.
    pub total_docs: usize,
    /// The number of words of all candidates, each counted with at least one.
    pub total_doc_len: u128,
    /// For each term the number of candidates in which it occurs.
    pub document_frequency: Vec<usize>,
}

/// The greater of two numbers.
pub open spec fn at_least(number: nat, least: nat) -> nat {
    if number < least {
        least
    } else {
        number
    }
}

/// The number of words of all candidates, each counted with at least one.
pub open spec fn total_words(candidates: Seq<FileCandidate>) -> nat
    decreases candidates.len(),
{
    if candidates.len() == 0 {
        0
    } else {
        total_words(candidates.drop_last()) + at_least(
            body_words(candidates.last().matches@).len(),
            1,
        )
    }
}

/// The number of candidates in which a term occurs.
pub open spec fn frequency(candidates: Seq<FileCandidate>, term: Seq<char>) -> nat
    decreases candidates.len(),
{
    if candidates.len() == 0 {
        0
    } else {
        frequency(candidates.drop_last(), term) + if term_found(candidates.last(), term) {
            1nat
        } else {
            0nat
        }
    }
}

/// A term occurs in no more candidates than there are.
pub proof fn frequency_is_at_most_the_candidates(
    candidates: Seq<FileCandidate>,
    term: Seq<char>,
)
    ensures
        frequency(candidates, term) <= candidates.len(),
    decreases candidates.len(),
{
    if candidates.len() > 0 {
        frequency_is_at_most_the_candidates(candidates.drop_last(), term);
    }
}

/// The numbers of candidates in which the terms occur.
pub open spec fn frequencies(
    candidates: Seq<FileCandidate>,
    terms: Seq<Seq<char>>,
) -> Seq<nat> {
    Seq::new(terms.len(), |i: int| frequency(candidates, terms[i]))
}

impl CorpusStats {
    /// Whether the numbers are those of the candidates.
    pub open spec fn of(self, query: Query, candidates: Seq<FileCandidate>) -> bool {
        &&& self.total_docs == at_least(candidates.len(), 1)
        &&& self.total_doc_len == total_words(candidates)
        &&& naturals(self.document_frequency@) == frequencies(candidates, texts(query.terms@))
    }

    /// What the candidates have in common.
    pub fn from_candidates(query: &Query, candidates: &Vec<FileCandidate>) -> (stats: CorpusStats)
        ensures
            stats.of(*query, candidates@),
    {
        let ghost terms = texts(query.terms@);
        let mut total: u128 = 0;
        let mut document_frequency: Vec<usize> = Vec::new();
        while document_frequency.len() < query.terms.len()
            invariant
                terms == texts(query.terms@),
                document_frequency@.len() <= terms.len(),
                forall|i: int|
                    0 <= i < document_frequency@.len() ==> document_frequency@[i] == 0,
            decreases terms.len() - document_frequency@.len(),
        {
            document_frequency.push(0);
        }
        let count: usize = candidates.len();
        let mut at: usize = 0;
        assert(naturals(document_frequency@) == frequencies(candidates@.take(0), terms));
        while at < count
            invariant
                terms == texts(query.terms@),
                count == candidates@.len(),
                at <= count,
                total == total_words(candidates@.take(at as int)),
                total <= at * usize::MAX,
                naturals(document_frequency@) == frequencies(candidates@.take(at as int), terms),
            decreases count - at,
        {
            let candidate = &candidates[at];
            let ghost done = candidates@.take(at + 1);
            let ghost earlier = candidates@.take(at as int);
            assert(done.drop_last() == earlier);
            let body = body_tokens(candidate);
            let length: usize = if body.len() == 0 {
                1
            } else {
                body.len()
            };
            proof {
                let most = usize::MAX as int;
                assert(at * most + most == (at + 1) * most) by (nonlinear_arith);
                assert((at + 1) * most <= most * most) by (nonlinear_arith)
                    requires
                        at + 1 <= most,
                        most >= 0,
                ;
                assert(most * most <= u64::MAX * u64::MAX) by (nonlinear_arith)
                    requires
                        0 <= most <= u64::MAX,
                ;
                assert(texts(body@).len() == body@.len());
            }
            total = total + length as u128;
            proof {
                assert(naturals(document_frequency@).len() == frequencies(earlier, terms).len());
                assert forall|i: int| 0 <= i < terms.len() implies #[trigger] document_frequency@[i]
                    == frequency(earlier, terms[i]) by {
                    assert(naturals(document_frequency@)[i] == frequencies(earlier, terms)[i]);
                }
            }
            let mut index: usize = 0;
            while index < query.terms.len()
                invariant
                    terms == texts(query.terms@),
                    texts(body@) == body_words(candidate.matches@),
                    earlier.len() == at < count,
                    done.drop_last() == earlier,
                    done.len() == at + 1,
                    done.last() == *candidate,
                    index <= terms.len(),
                    document_frequency@.len() == terms.len(),
                    forall|i: int|
                        0 <= i < index ==> #[trigger] document_frequency@[i] == frequency(
                            done,
                            terms[i],
                        ),
                    forall|i: int|
                        index <= i < terms.len() ==> #[trigger] document_frequency@[i]
                            == frequency(earlier, terms[i]),
                decreases terms.len() - index,
            {
                assert(terms[index as int] == query.terms@[index as int]@);
                proof {
                    frequency_is_at_most_the_candidates(earlier, terms[index as int]);
                }
                if is_term_found(candidate, &body, query.terms[index].as_str()) {
                    let frequency = document_frequency[index];
                    document_frequency.set(index, frequency + 1);
                }
                index = index + 1;
            }
            assert(naturals(document_frequency@) == frequencies(done, terms));
            at = at + 1;
        }
        assert(candidates@.take(at as int) == candidates@);
        let total_docs: usize = if count == 0 {
            1
        } else {
            count
        };
        CorpusStats { total_docs, total_doc_len: total, document_frequency }
    }
}

/// What a term counts for.
#[derive(Debug, Clone, Copy, PartialEq, Eq, Structural)]
pub struct TermScore {
    /// The number of words of the matched lines that are the term.
    pub exact_hits: usize,
    /// The number of words of the matched lines that hold the term and more.
    pub partial_hits: usize,
    /// The number of words of the path that are the term.
    pub path_hits: usize,
    /// Whether the term occurs in the path.
    pub in_path: bool,
    /// The number of candidates in which the term occurs.
    pub document_frequency: usize,
}

/// Where the phrase of a query stands.
#[derive(Debug, Clone, Copy, PartialEq, Eq, Structural)]
pub enum PhrasePlace {
    Body,
    Path,
    Nowhere,
}

/// What of a candidate counts towards its rank.
#[derive(Debug, Clone)]
pub struct CandidateScore {
    /// What each term counts for.
    pub terms: Vec<TermScore>,
    /// The number of words of the matched lines, at least one.
    pub doc_len: usize,
    /// How many terms occur in the matched lines or in the path.
    pub matched_terms: usize,
    /// Where the phrase stands.
    pub phrase: PhrasePlace,
    /// The greatest number of terms that one line matches.
    pub same_line_terms: usize,
    /// The smallest number of lines of the file within which all terms are matched.
    pub span: Option<usize>,
    /// The number of matched lines.
    pub match_count: usize,
}

/// Whether `score` is what a term counts for.
pub open spec fn term_scored(
    candidate: FileCandidate,
    term: Seq<char>,
    document_frequency: usize,
    score: TermScore,
) -> bool {
    let body = body_words(candidate.matches@);
    let path = texts(candidate.path_tokens@);
    &&& score.exact_hits == exact_hits(body, term)
    &&& score.partial_hits == partial_hits(body, term)
    &&& score.path_hits == exact_hits(path, term)
    &&& score.in_path == found_in(path, term)
    &&& score.document_frequency == document_frequency
}

/// The greatest number of different terms that one of the lines matches.
pub open spec fn most_terms(lines: Seq<LineMatchRecord>) -> nat
    decreases lines.len(),
{
    if lines.len() == 0 {
        0
    } else {
        at_least(lines.last().matched_terms@.to_set().len(), most_terms(lines.drop_last()))
    }
}

/// Where the phrase stands: in the matched lines, or else in the path, or else nowhere.
pub open spec fn phrase_place(query: Query, candidate: FileCandidate) -> PhrasePlace {
    if occurs_in(query.normalized_phrase@, body_text(candidate.matches@)) {
        PhrasePlace::Body
    } else if occurs_in(query.normalized_phrase@, candidate.normalized_path@) {
        PhrasePlace::Path
    } else {
        PhrasePlace::Nowhere
    }
}

/// Whether `score` is what of the candidate counts towards its rank.
pub open spec fn candidate_scored(
    query: Query,
    stats: CorpusStats,
    candidate: FileCandidate,
    score: CandidateScore,
) -> bool {
    &&& score.terms@.len() == query.terms@.len()
    &&& forall|i: int|
        0 <= i < score.terms@.len() ==> term_scored(
            candidate,
            query.terms@[i]@,
            stats.document_frequency@[i],
            #[trigger] score.terms@[i],
        )
    &&& score.doc_len == at_least(body_words(candidate.matches@).len(), 1)
    &&& score.matched_terms == terms_found(
        candidate,
        texts(query.terms@),
        query.terms@.len() as int,
    )
    &&& score.phrase == phrase_place(query, candidate)
    &&& score.same_line_terms == most_terms(candidate.matches@)
    &&& query.terms@.len() == 0 ==> score.span is None
    &&& query.terms@.len() > 0 ==> is_smallest_span(
        candidate.matches@,
        query.terms@.len() as usize,
        score.span,
    )
    &&& score.match_count == candidate.matches@.len()
}

/// The greatest number of different terms that one of the lines matches.
pub fn best_same_line_terms(matches: &Vec<LineMatchRecord>) -> (most: usize)
    ensures
        most == most_terms(matches@),
{
    let mut most: usize = 0;
    let mut at: usize = 0;
    while at < matches.len()
        invariant
            at <= matches@.len(),
            most == most_terms(matches@.take(at as int)),
        decreases matches@.len() - at,
    {
        let unique = unique_term_indexes(&matches[at].matched_terms);
        proof {
            let terms = matches@[at as int].matched_terms@;
            assert(matches@.take(at + 1).drop_last() == matches@.take(at as int));
            assert(unique@.no_duplicates());
            unique@.unique_seq_to_set();
            assert(unique@.to_set() =~= terms.to_set());
        }
        if unique.len() > most {
            most = unique.len();
        }
        at = at + 1;
    }
    assert(matches@.take(at as int) == matches@);
    most
}

/// What a term counts for.
fn score_term(
    candidate: &FileCandidate,
    body: &Vec<String>,
    term: &str,
    document_frequency: usize,
) -> (score: TermScore)
    requires
        texts(body@) == body_words(candidate.matches@),
    ensures
        term_scored(*candidate, term@, document_frequency, score),
{
    proof {
        found_means_hit(texts(candidate.path_tokens@), term@);
    }
    let exact = count_exact_hits(body, term);
    let partial = count_partial_hits(body, term, exact > 0);
    let path_hits = count_exact_hits(&candidate.path_tokens, term);
    let in_path = path_hits > 0 || contains_partial_token(&candidate.path_tokens, term);
    TermScore { exact_hits: exact, partial_hits: partial, path_hits, in_path, document_frequency }
}

/// What of a candidate counts towards its rank.
pub fn score_candidate(query: &Query, stats: &CorpusStats, candidate: &FileCandidate) -> (score:
    CandidateScore)
    requires
        candidate.fits(query.terms@.len()),
        stats.document_frequency@.len() == query.terms@.len(),
    ensures
        candidate_scored(*query, *stats, *candidate, score),
{
    let body = body_tokens(candidate);
    let whole = join_normalized_lines(&candidate.matches);
    assert(texts(body@).len() == body@.len());
    let doc_len: usize = if body.len() == 0 {
        1
    } else {
        body.len()
    };
    let matched_terms = matched_term_count(query, candidate, &body);
    let mut terms: Vec<TermScore> = Vec::new();
    let mut at: usize = 0;
    while at < query.terms.len()
        invariant
            texts(body@) == body_words(candidate.matches@),
            stats.document_frequency@.len() == query.terms@.len(),
            at == terms@.len() <= query.terms@.len(),
            forall|i: int|
                0 <= i < at ==> term_scored(
                    *candidate,
                    query.terms@[i]@,
                    stats.document_frequency@[i],
                    #[trigger] terms@[i],
                ),
        decreases query.terms@.len() - at,
    {
        terms.push(
            score_term(candidate, &body, query.terms[at].as_str(), stats.document_frequency[at]),
        );
        at = at + 1;
    }
    let phrase = if contains_text(whole.as_str(), query.normalized_phrase.as_str()) {
        PhrasePlace::Body
    } else if contains_text(candidate.normalized_path.as_str(), query.normalized_phrase.as_str()) {
        PhrasePlace::Path
    } else {
        PhrasePlace::Nowhere
    };
    let same_line_terms = best_same_line_terms(&candidate.matches);
    proof {
        let matches = candidate.matches@;
        assert forall|line: int, i: int|
            0 <= line < matches.len() && 0 <= i < matches[line].matched_terms@.len() implies (
        #[trigger] matches[line].matched_terms@[i]) < query.terms@.len() by {
            assert(line_fits(matches[line], query.terms@.len()));
        }
        assert forall|first: int, last: int|
            0 <= first <= last < matches.len() implies (#[trigger] matches[last]).line_number - (
        #[trigger] matches[first]).line_number < usize::MAX by {
            assert(line_fits(matches[first], query.terms@.len()));
        }
    }
    let span = minimal_cover_span(query.terms.len(), &candidate.matches);
    CandidateScore {
        terms,
        doc_len,
        matched_terms,
        phrase,
        same_line_terms,
        span,
        match_count: candidate.matches.len(),
    }
}

} // verus!
