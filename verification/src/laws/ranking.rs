//! Laws on what files are ranked by.

use vstd::prelude::*;

use crate::candidate::{
    body_text, body_words, candidate_scored, found_terms, frequency, most_terms, phrase_place,
    scored, term_found, terms_found, total_words, CandidateScore, CorpusStats, FileCandidate,
    LineHint, LineMatchRecord, PhrasePlace,
};
use crate::hits::{exact_hits, found_in, partial_hits};
use crate::query::{normalized, Query};
use crate::text::{joined, occurs_in, texts, words};

verus! {

/// A word of the tokens is an exact hit where it is the term, and a partial hit where it is not the
/// term but the term stands in it; every word counts once.
pub proof fn hits_count_words(tokens: Seq<Seq<char>>, term: Seq<char>)
    ensures
        exact_hits(tokens, term) == tokens.filter(|token: Seq<char>| token == term).len(),
        partial_hits(tokens, term) == tokens.filter(
            |token: Seq<char>| token != term && occurs_in(term, token),
        ).len(),
        found_in(tokens, term) <==> exists|i: int|
            0 <= i < tokens.len() && occurs_in(term, #[trigger] tokens[i]),
    decreases tokens.len(),
{
    reveal(Seq::filter);
    if tokens.len() > 0 {
        hits_count_words(tokens.drop_last(), term);
    }
}

/// The words of some lines and of further lines are the words of them all, in order; those of one
/// line are the words of its plain form.
pub proof fn words_of_lines_add_up(first: Seq<LineMatchRecord>, second: Seq<LineMatchRecord>)
    ensures
        body_words(first + second) == body_words(first) + body_words(second),
        body_words(Seq::<LineMatchRecord>::empty()) == Seq::<Seq<char>>::empty(),
        first.len() == 1 ==> body_words(first) == words(first[0].normalized_text@),
    decreases second.len(),
{
    if first.len() == 1 {
        assert(first.drop_last() == Seq::<LineMatchRecord>::empty());
        assert(body_words(first.drop_last()) == Seq::<Seq<char>>::empty());
    }
    if second.len() == 0 {
        assert(first + second == first);
    } else {
        assert((first + second).drop_last() == first + second.drop_last());
        words_of_lines_add_up(first, second.drop_last());
    }
}

/// A word is among the words of the lines exactly where it is a word of one of them.
proof fn lemma_words_of_a_line(lines: Seq<LineMatchRecord>, term: Seq<char>)
    ensures
        (exists|i: int| 0 <= i < body_words(lines).len() && occurs_in(
            term,
            #[trigger] body_words(lines)[i],
        )) <==> (exists|line: int, word: int|
            0 <= line < lines.len() && 0 <= word < words(lines[line].normalized_text@).len()
                && occurs_in(term, #[trigger] words(lines[line].normalized_text@)[word])),
    decreases lines.len(),
{
    if lines.len() > 0 {
        let front = lines.drop_last();
        let before = body_words(front);
        let own = words(lines.last().normalized_text@);
        lemma_words_of_a_line(front, term);
        let all = body_words(lines);
        assert(all == before + own);
        if exists|i: int| 0 <= i < all.len() && occurs_in(term, #[trigger] all[i]) {
            let i = choose|i: int| 0 <= i < all.len() && occurs_in(term, #[trigger] all[i]);
            if i < before.len() {
                assert(before[i] == all[i]);
                let (line, word) = choose|line: int, word: int|
                    0 <= line < front.len() && 0 <= word < words(
                        front[line].normalized_text@,
                    ).len() && occurs_in(term, #[trigger] words(front[line].normalized_text@)[word]);
                assert(front[line] == lines[line]);
                assert(occurs_in(term, words(lines[line].normalized_text@)[word]));
            } else {
                assert(own[i - before.len()] == all[i]);
                let line = lines.len() - 1;
                assert(occurs_in(term, words(lines[line].normalized_text@)[i - before.len()]));
            }
        }
        if exists|line: int, word: int|
            0 <= line < lines.len() && 0 <= word < words(lines[line].normalized_text@).len()
                && occurs_in(term, #[trigger] words(lines[line].normalized_text@)[word]) {
            let (line, word) = choose|line: int, word: int|
                0 <= line < lines.len() && 0 <= word < words(lines[line].normalized_text@).len()
                    && occurs_in(term, #[trigger] words(lines[line].normalized_text@)[word]);
            if line < front.len() {
                assert(front[line] == lines[line]);
                assert(occurs_in(term, words(front[line].normalized_text@)[word]));
                let i = choose|i: int| 0 <= i < before.len() && occurs_in(
                    term,
                    #[trigger] before[i],
                );
                assert(all[i] == before[i]);
            } else {
                assert(all[before.len() + word] == own[word]);
            }
        }
    } else {
        assert(body_words(lines).len() == 0);
    }
}

/// A term counts as matched in a file exactly where it stands in a word of one of the matched lines
/// or in a word of the path.
pub proof fn a_term_is_matched_in_lines_or_path(candidate: FileCandidate, term: Seq<char>)
    ensures
        term_found(candidate, term) <==> (exists|line: int, word: int|
            0 <= line < candidate.matches@.len() && 0 <= word < words(
                candidate.matches@[line].normalized_text@,
            ).len() && occurs_in(
                term,
                #[trigger] words(candidate.matches@[line].normalized_text@)[word],
            )) || (exists|word: int|
            0 <= word < candidate.path_tokens@.len() && occurs_in(
                term,
                #[trigger] candidate.path_tokens@[word]@,
            )),
{
    lemma_words_of_a_line(candidate.matches@, term);
    let tokens = texts(candidate.path_tokens@);
    assert forall|i: int| 0 <= i < tokens.len() implies #[trigger] tokens[i]
        == candidate.path_tokens@[i]@ by {}
    if exists|word: int|
        0 <= word < candidate.path_tokens@.len() && occurs_in(
            term,
            #[trigger] candidate.path_tokens@[word]@,
        ) {
        let word = choose|word: int|
            0 <= word < candidate.path_tokens@.len() && occurs_in(
                term,
                #[trigger] candidate.path_tokens@[word]@,
            );
        assert(occurs_in(term, tokens[word]));
    }
    if found_in(tokens, term) {
        let word = choose|word: int| 0 <= word < tokens.len() && occurs_in(
            term,
            #[trigger] tokens[word],
        );
        assert(occurs_in(term, candidate.path_tokens@[word]@));
    }
}

/// Of the terms, as many are matched in a file as stand in a word of its matched lines or of its
/// path.
pub proof fn matched_terms_are_counted(candidate: FileCandidate, terms: Seq<Seq<char>>, count: int)
    requires
        0 <= count <= terms.len(),
    ensures
        terms_found(candidate, terms, count) == terms.take(count).filter(
            |term: Seq<char>|
                (exists|i: int|
                    0 <= i < body_words(candidate.matches@).len() && occurs_in(
                        term,
                        #[trigger] body_words(candidate.matches@)[i],
                    )) || (exists|i: int|
                    0 <= i < candidate.path_tokens@.len() && occurs_in(
                        term,
                        #[trigger] candidate.path_tokens@[i]@,
                    )),
        ).len(),
    decreases count,
{
    reveal(Seq::filter);
    if count > 0 {
        matched_terms_are_counted(candidate, terms, count - 1);
        assert(terms.take(count).drop_last() == terms.take(count - 1));
        assert(terms.take(count).last() == terms[count - 1]);
        lemma_words_of_a_line(candidate.matches@, terms[count - 1]);
        a_term_is_matched_in_lines_or_path(candidate, terms[count - 1]);
    }
}

/// The document frequency of a term counts the files with a word that holds the term, among the
/// words of their matched lines or of their paths: each such file once, and no other.
pub proof fn frequency_counts_files(candidates: Seq<FileCandidate>, term: Seq<char>)
    ensures
        frequency(candidates, term) == candidates.filter(
            |candidate: FileCandidate|
                (exists|i: int|
                    0 <= i < body_words(candidate.matches@).len() && occurs_in(
                        term,
                        #[trigger] body_words(candidate.matches@)[i],
                    )) || (exists|i: int|
                    0 <= i < candidate.path_tokens@.len() && occurs_in(
                        term,
                        #[trigger] candidate.path_tokens@[i]@,
                    )),
        ).len(),
    decreases candidates.len(),
{
    reveal(Seq::filter);
    if candidates.len() > 0 {
        frequency_counts_files(candidates.drop_last(), term);
        lemma_words_of_a_line(candidates.last().matches@, term);
        a_term_is_matched_in_lines_or_path(candidates.last(), term);
    }
}

/// A word of the path that holds a term makes the file count for it, whatever its lines hold: one
/// more such file adds one to the document frequency.
pub proof fn a_path_counts_for_its_words(
    candidates: Seq<FileCandidate>,
    candidate: FileCandidate,
    term: Seq<char>,
    word: int,
)
    requires
        0 <= word < candidate.path_tokens@.len(),
        occurs_in(term, candidate.path_tokens@[word]@),
    ensures
        frequency(candidates.push(candidate), term) == frequency(candidates, term) + 1,
        terms_found(candidate, seq![term], 1) == 1,
{
    a_term_is_matched_in_lines_or_path(candidate, term);
    let more = candidates.push(candidate);
    assert(more.drop_last() == candidates);
    assert(seq![term][0] == term);
    assert(terms_found(candidate, seq![term], 0) == 0);
}

/// The numbers of all candidates are those of the candidates: how many they are, how many words
/// their lines have, and how often each term occurs.
pub proof fn corpus_numbers_are_those_of_the_files(
    stats: CorpusStats,
    query: Query,
    candidates: Seq<FileCandidate>,
)
    requires
        stats.of(query, candidates),
    ensures
        candidates.len() > 0 ==> stats.total_docs == candidates.len(),
        candidates.len() == 0 ==> stats.total_docs == 1 && stats.total_doc_len == 0,
        stats.total_doc_len == total_words(candidates),
        stats.document_frequency@.len() == query.terms@.len(),
        forall|i: int|
            0 <= i < query.terms@.len() ==> #[trigger] stats.document_frequency@[i] == frequency(
                candidates,
                query.terms@[i]@,
            ),
{
    let numbers = crate::candidate::naturals(stats.document_frequency@);
    assert(numbers.len() == stats.document_frequency@.len());
    assert forall|i: int| 0 <= i < query.terms@.len() implies #[trigger]
        stats.document_frequency@[i] == frequency(candidates, query.terms@[i]@) by {
        assert(numbers[i] == stats.document_frequency@[i]);
    }
}

/// The words of all files are those of the files taken one by one, a file without words counted as
/// one.
pub proof fn words_of_files_add_up(first: Seq<FileCandidate>, second: Seq<FileCandidate>)
    ensures
        total_words(first + second) == total_words(first) + total_words(second),
        total_words(Seq::<FileCandidate>::empty()) == 0,
        first.len() == 1 && body_words(first[0].matches@).len() > 0 ==> total_words(first)
            == body_words(first[0].matches@).len(),
        first.len() == 1 && body_words(first[0].matches@).len() == 0 ==> total_words(first) == 1,
    decreases second.len(),
{
    if first.len() == 1 {
        assert(first.drop_last() == Seq::<FileCandidate>::empty());
        assert(total_words(first.drop_last()) == 0);
    }
    if second.len() == 0 {
        assert(first + second == first);
    } else {
        assert((first + second).drop_last() == first + second.drop_last());
        words_of_files_add_up(first, second.drop_last());
    }
}

/// The terms listed for a line are those that stand in a word of it; each is listed with the number
/// of words that are the term, and the line is marked where the whole phrase stands in it.
pub proof fn a_line_is_worth_what_it_holds(
    query: Query,
    plain: Seq<char>,
    matched_terms: Seq<usize>,
    hint: LineHint,
)
    requires
        scored(query, plain, matched_terms, hint),
    ensures
        forall|i: int, j: int|
            0 <= i < j < matched_terms.len() ==> matched_terms[i] < matched_terms[j],
        forall|term: int|
            #![trigger query.terms@[term]]
            0 <= term < query.terms@.len() ==> (matched_terms.contains(term as usize) <==> exists|
                word: int,
            |
                0 <= word < words(plain).len() && occurs_in(
                    query.terms@[term]@,
                    #[trigger] words(plain)[word],
                )),
        hint.exact_hits@.len() == matched_terms.len(),
        forall|i: int|
            #![trigger matched_terms[i]]
            0 <= i < matched_terms.len() ==> matched_terms[i] < query.terms@.len()
                && hint.exact_hits@[i] == words(plain).filter(
                |token: Seq<char>| token == query.terms@[matched_terms[i] as int]@,
            ).len(),
        hint.phrase <==> occurs_in(query.normalized_phrase@, plain),
{
    let terms = texts(query.terms@);
    let tokens = words(plain);
    let count = terms.len() as int;
    assert(query.terms@.len() <= usize::MAX) by {
        assert(query.terms.len() == query.terms@.len());
    }
    crate::candidate::found_terms_are_those_found(terms, tokens, count);
    assert forall|term: int| #![trigger query.terms@[term]] 0 <= term < query.terms@.len() implies (
    matched_terms.contains(term as usize) <==> exists|word: int|
        0 <= word < words(plain).len() && occurs_in(
            query.terms@[term]@,
            #[trigger] words(plain)[word],
        )) by {
        assert(terms[term] == query.terms@[term]@);
        assert(found_terms(terms, tokens, count).contains(term as usize) <==> found_in(
            tokens,
            terms[term],
        ));
    }
    let numbers = crate::candidate::naturals(hint.exact_hits@);
    assert(numbers.len() == hint.exact_hits@.len());
    assert forall|i: int| #![trigger matched_terms[i]] 0 <= i < matched_terms.len() implies
        matched_terms[i] < query.terms@.len() && hint.exact_hits@[i] == words(plain).filter(
        |token: Seq<char>| token == query.terms@[matched_terms[i] as int]@,
    ).len() by {
        assert(found_terms(terms, tokens, count)[i] < count);
        assert(numbers[i] == hint.exact_hits@[i]);
        assert(terms[matched_terms[i] as int] == query.terms@[matched_terms[i] as int]@);
        let term = query.terms@[matched_terms[i] as int]@;
        hits_count_words(tokens, term);
        assert((|token: Seq<char>| token == term) =~= (|token: Seq<char>|
            token == query.terms@[matched_terms[i] as int]@));
    }
}

/// The greatest number of terms on one line: no line has more, and some line has as many.
pub proof fn most_terms_is_the_greatest(lines: Seq<LineMatchRecord>)
    ensures
        forall|i: int|
            0 <= i < lines.len() ==> (#[trigger] lines[i]).matched_terms@.to_set().len()
                <= most_terms(lines),
        lines.len() == 0 ==> most_terms(lines) == 0,
        lines.len() > 0 ==> exists|i: int|
            0 <= i < lines.len() && (#[trigger] lines[i]).matched_terms@.to_set().len()
                == most_terms(lines),
    decreases lines.len(),
{
    if lines.len() > 0 {
        let front = lines.drop_last();
        most_terms_is_the_greatest(front);
        assert forall|i: int| 0 <= i < lines.len() implies (#[trigger] lines[
            i
        ]).matched_terms@.to_set().len() <= most_terms(lines) by {
            if i < front.len() {
                assert(front[i] == lines[i]);
            }
        }
        assert(lines[lines.len() - 1] == lines.last());
        if front.len() > 0 {
            let i = choose|i: int|
                0 <= i < front.len() && (#[trigger] front[i]).matched_terms@.to_set().len()
                    == most_terms(front);
            assert(lines[i] == front[i]);
        }
    }
}

/// The plain forms of lines that are not empty are joined by single spaces.
pub proof fn lines_are_joined_by_spaces(lines: Seq<LineMatchRecord>)
    requires
        forall|i: int| 0 <= i < lines.len() ==> (#[trigger] lines[i]).normalized_text@.len() > 0,
    ensures
        body_text(lines) == joined(
            Seq::new(lines.len(), |i: int| lines[i].normalized_text@),
            seq![' '],
        ),
        lines.len() > 0 ==> body_text(lines).len() > 0,
    decreases lines.len(),
{
    if lines.len() > 0 {
        let front = lines.drop_last();
        assert forall|i: int| 0 <= i < front.len() implies (#[trigger] front[
            i
        ]).normalized_text@.len() > 0 by {
            assert(front[i] == lines[i]);
        }
        lines_are_joined_by_spaces(front);
        let parts = Seq::new(lines.len(), |i: int| lines[i].normalized_text@);
        assert(parts.drop_last() == Seq::new(front.len(), |i: int| front[i].normalized_text@));
        assert(lines[lines.len() - 1] == lines.last());
        if front.len() > 0 {
            assert(body_text(front).push(' ') + lines.last().normalized_text@ == body_text(front)
                + (seq![' '] + lines.last().normalized_text@));
        }
    }
}

/// A phrase that stands in the plain form of a matched line is found in the lines.
pub proof fn a_phrase_of_a_line_is_found(
    query: Query,
    candidate: FileCandidate,
    line: int,
)
    requires
        0 <= line < candidate.matches@.len(),
        occurs_in(query.normalized_phrase@, candidate.matches@[line].normalized_text@),
    ensures
        phrase_place(query, candidate) == PhrasePlace::Body,
{
    lemma_text_of_a_line(candidate.matches@, line);
    lemma_occurs_within(
        query.normalized_phrase@,
        candidate.matches@[line].normalized_text@,
        body_text(candidate.matches@),
    );
}

/// What occurs in a part occurs in the whole.
pub(crate) proof fn lemma_occurs_within(part: Seq<char>, middle: Seq<char>, whole: Seq<char>)
    requires
        occurs_in(part, middle),
        occurs_in(middle, whole),
    ensures
        occurs_in(part, whole),
{
    let first = choose|at: int| crate::text::occurs_at(part, middle, at);
    let second = choose|at: int| crate::text::occurs_at(middle, whole, at);
    assert(whole.subrange(second + first, second + first + part.len()) == part) by {
        assert forall|i: int| 0 <= i < part.len() implies whole[second + first + i] == part[i] by {
            assert(middle.subrange(first, first + part.len())[i] == part[i]);
            assert(whole.subrange(second, second + middle.len())[first + i] == middle[first + i]);
        }
    }
    assert(crate::text::occurs_at(part, whole, second + first));
}

/// The plain form of every line stands in the text of the lines.
proof fn lemma_text_of_a_line(lines: Seq<LineMatchRecord>, line: int)
    requires
        0 <= line < lines.len(),
    ensures
        occurs_in(lines[line].normalized_text@, body_text(lines)),
    decreases lines.len(),
{
    let front = lines.drop_last();
    let whole = body_text(lines);
    let own = lines.last().normalized_text@;
    if line == lines.len() - 1 {
        assert(whole.subrange(whole.len() - own.len(), whole.len() as int) == own);
        assert(crate::text::occurs_at(own, whole, whole.len() - own.len()));
    } else {
        lemma_text_of_a_line(front, line);
        assert(front[line] == lines[line]);
        let part = lines[line].normalized_text@;
        let before = body_text(front);
        let at = choose|at: int| crate::text::occurs_at(part, before, at);
        assert(whole.subrange(at, at + part.len()) == before.subrange(at, at + part.len()));
        assert(crate::text::occurs_at(part, whole, at));
    }
}

/// What of a file counts towards its rank is what its matched lines and its path hold.
pub proof fn a_file_counts_by_what_it_holds(
    query: Query,
    stats: CorpusStats,
    candidate: FileCandidate,
    score: CandidateScore,
)
    requires
        candidate_scored(query, stats, candidate, score),
    ensures
        score.terms@.len() == query.terms@.len(),
        forall|i: int|
            #![trigger score.terms@[i]]
            0 <= i < query.terms@.len() ==> {
                &&& score.terms@[i].exact_hits == body_words(candidate.matches@).filter(
                    |token: Seq<char>| token == query.terms@[i]@,
                ).len()
                &&& score.terms@[i].partial_hits == body_words(candidate.matches@).filter(
                    |token: Seq<char>|
                        token != query.terms@[i]@ && occurs_in(query.terms@[i]@, token),
                ).len()
                &&& score.terms@[i].path_hits == texts(candidate.path_tokens@).filter(
                    |token: Seq<char>| token == query.terms@[i]@,
                ).len()
                &&& score.terms@[i].in_path <==> exists|word: int|
                    0 <= word < candidate.path_tokens@.len() && occurs_in(
                        query.terms@[i]@,
                        #[trigger] candidate.path_tokens@[word]@,
                    )
                &&& score.terms@[i].document_frequency == stats.document_frequency@[i]
            },
        body_words(candidate.matches@).len() > 0 ==> score.doc_len == body_words(
            candidate.matches@,
        ).len(),
        body_words(candidate.matches@).len() == 0 ==> score.doc_len == 1,
        score.matched_terms == terms_found(
            candidate,
            texts(query.terms@),
            query.terms@.len() as int,
        ),
        score.phrase == PhrasePlace::Body <==> occurs_in(
            query.normalized_phrase@,
            body_text(candidate.matches@),
        ),
        score.phrase == PhrasePlace::Path <==> !occurs_in(
            query.normalized_phrase@,
            body_text(candidate.matches@),
        ) && occurs_in(query.normalized_phrase@, candidate.normalized_path@),
        score.same_line_terms == most_terms(candidate.matches@),
        score.match_count == candidate.matches@.len(),
{
    assert forall|i: int| #![trigger score.terms@[i]] 0 <= i < query.terms@.len() implies {
        &&& score.terms@[i].exact_hits == body_words(candidate.matches@).filter(
            |token: Seq<char>| token == query.terms@[i]@,
        ).len()
        &&& score.terms@[i].partial_hits == body_words(candidate.matches@).filter(
            |token: Seq<char>| token != query.terms@[i]@ && occurs_in(query.terms@[i]@, token),
        ).len()
        &&& score.terms@[i].path_hits == texts(candidate.path_tokens@).filter(
            |token: Seq<char>| token == query.terms@[i]@,
        ).len()
        &&& score.terms@[i].in_path <==> exists|word: int|
            0 <= word < candidate.path_tokens@.len() && occurs_in(
                query.terms@[i]@,
                #[trigger] candidate.path_tokens@[word]@,
            )
        &&& score.terms@[i].document_frequency == stats.document_frequency@[i]
    } by {
        let term = query.terms@[i]@;
        let tokens = texts(candidate.path_tokens@);
        hits_count_words(body_words(candidate.matches@), term);
        hits_count_words(tokens, term);
        assert((|token: Seq<char>| token == term) =~= (|token: Seq<char>|
            token == query.terms@[i]@));
        assert((|token: Seq<char>| token != term && occurs_in(term, token)) =~= (|token: Seq<char>|
            token != query.terms@[i]@ && occurs_in(query.terms@[i]@, token)));
        if exists|word: int|
            0 <= word < candidate.path_tokens@.len() && occurs_in(
                term,
                #[trigger] candidate.path_tokens@[word]@,
            ) {
            let word = choose|word: int|
                0 <= word < candidate.path_tokens@.len() && occurs_in(
                    term,
                    #[trigger] candidate.path_tokens@[word]@,
                );
            assert(occurs_in(term, tokens[word]));
        }
        if found_in(tokens, term) {
            let word = choose|word: int| 0 <= word < tokens.len() && occurs_in(
                term,
                #[trigger] tokens[word],
            );
            assert(occurs_in(term, candidate.path_tokens@[word]@));
        }
    }
}

/// The words of a path are the words of its plain form.
pub proof fn path_words_are_those_of_the_path(candidate: FileCandidate)
    requires
        candidate.wf(),
    ensures
        candidate.normalized_path@ == normalized(candidate.path.text@),
        candidate.path_tokens@.len() == words(normalized(candidate.path.text@)).len(),
        forall|i: int|
            0 <= i < candidate.path_tokens@.len() ==> #[trigger] candidate.path_tokens@[i]@
                == words(normalized(candidate.path.text@))[i],
{
    let tokens = texts(candidate.path_tokens@);
    assert(tokens.len() == candidate.path_tokens@.len());
    assert forall|i: int| 0 <= i < candidate.path_tokens@.len() implies #[trigger]
        candidate.path_tokens@[i]@ == words(normalized(candidate.path.text@))[i] by {
        assert(tokens[i] == candidate.path_tokens@[i]@);
    }
}

} // verus!
