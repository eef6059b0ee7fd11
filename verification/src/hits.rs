//! How often terms occur among the words of a text.

use vstd::prelude::*;

use crate::text::{contains_text, occurs_at, occurs_in, same_text, texts};

verus! {

/// Whether `token` holds `term` and more.
pub open spec fn partial(token: Seq<char>, term: Seq<char>) -> bool {
    token != term && occurs_in(term, token)
}

/// How many of the tokens are the term.
pub open spec fn exact_hits(tokens: Seq<Seq<char>>, term: Seq<char>) -> nat
    decreases tokens.len(),
{
    if tokens.len() == 0 {
        0
    } else {
        exact_hits(tokens.drop_last(), term) + if tokens.last() == term {
            1nat
        } else {
            0nat
        }
    }
}

/// How many of the tokens hold the term and more.
pub open spec fn partial_hits(tokens: Seq<Seq<char>>, term: Seq<char>) -> nat
    decreases tokens.len(),
{
    if tokens.len() == 0 {
        0
    } else {
        partial_hits(tokens.drop_last(), term) + if partial(tokens.last(), term) {
            1nat
        } else {
            0nat
        }
    }
}

/// Whether the term occurs among the tokens, as one of them or as a part of one.
pub open spec fn found_in(tokens: Seq<Seq<char>>, term: Seq<char>) -> bool {
    exists|i: int| 0 <= i < tokens.len() && occurs_in(term, #[trigger] tokens[i])
}

/// No more tokens are hit than there are.
pub proof fn hits_are_at_most_the_tokens(tokens: Seq<Seq<char>>, term: Seq<char>)
    ensures
        exact_hits(tokens, term) + partial_hits(tokens, term) <= tokens.len(),
    decreases tokens.len(),
{
    if tokens.len() > 0 {
        hits_are_at_most_the_tokens(tokens.drop_last(), term);
    }
}

/// A term occurs in itself.
proof fn lemma_occurs_in_itself(term: Seq<char>)
    ensures
        occurs_in(term, term),
{
    assert(term.subrange(0, term.len() as int) == term);
    assert(occurs_at(term, term, 0));
}

/// A term occurs among the tokens exactly where it has an exact or a partial hit.
pub proof fn found_means_hit(tokens: Seq<Seq<char>>, term: Seq<char>)
    ensures
        found_in(tokens, term) <==> exact_hits(tokens, term) > 0 || partial_hits(tokens, term) > 0,
        partial_hits(tokens, term) > 0 <==> exists|i: int|
            0 <= i < tokens.len() && partial(#[trigger] tokens[i], term),
    decreases tokens.len(),
{
    if tokens.len() > 0 {
        let front = tokens.drop_last();
        found_means_hit(front, term);
        lemma_occurs_in_itself(term);
        if found_in(front, term) {
            let i = choose|i: int| 0 <= i < front.len() && occurs_in(term, #[trigger] front[i]);
            assert(tokens[i] == front[i]);
        }
        if occurs_in(term, tokens.last()) {
            assert(tokens[tokens.len() - 1] == tokens.last());
        }
        if found_in(tokens, term) {
            let i = choose|i: int| 0 <= i < tokens.len() && occurs_in(term, #[trigger] tokens[i]);
            if i < front.len() {
                assert(front[i] == tokens[i]);
            }
        }
        if partial_hits(front, term) > 0 {
            let i = choose|i: int| 0 <= i < front.len() && partial(#[trigger] front[i], term);
            assert(tokens[i] == front[i]);
        }
        if exists|i: int| 0 <= i < tokens.len() && partial(#[trigger] tokens[i], term) {
            let i = choose|i: int| 0 <= i < tokens.len() && partial(#[trigger] tokens[i], term);
            if i < front.len() {
                assert(front[i] == tokens[i]);
            }
        }
    }
}

/// How many of the tokens are the term.
pub fn count_exact_hits(tokens: &Vec<String>, term: &str) -> (count: usize)
    ensures
        count == exact_hits(texts(tokens@), term@),
{
    let mut count: usize = 0;
    let mut at: usize = 0;
    while at < tokens.len()
        invariant
            at <= tokens@.len(),
            count <= at,
            count == exact_hits(texts(tokens@).take(at as int), term@),
        decreases tokens@.len() - at,
    {
        assert(texts(tokens@).take(at + 1).drop_last() == texts(tokens@).take(at as int));
        if same_text(tokens[at].as_str(), term) {
            count = count + 1;
        }
        at = at + 1;
    }
    assert(texts(tokens@).take(at as int) == texts(tokens@));
    count
}

/// How many of the tokens hold the term and more. Whether tokens that are the term are left out by
/// `skip_exact` makes no difference: they are never counted.
pub fn count_partial_hits(tokens: &Vec<String>, term: &str, skip_exact: bool) -> (count: usize)
    ensures
        count == partial_hits(texts(tokens@), term@),
{
    let mut count: usize = 0;
    let mut at: usize = 0;
    while at < tokens.len()
        invariant
            at <= tokens@.len(),
            count <= at,
            count == partial_hits(texts(tokens@).take(at as int), term@),
        decreases tokens@.len() - at,
    {
        assert(texts(tokens@).take(at + 1).drop_last() == texts(tokens@).take(at as int));
        let exact = same_text(tokens[at].as_str(), term);
        if (!skip_exact || !exact) && !exact && contains_text(tokens[at].as_str(), term) {
            count = count + 1;
        }
        at = at + 1;
    }
    assert(texts(tokens@).take(at as int) == texts(tokens@));
    count
}

/// Whether one of the tokens holds the term and more.
pub fn contains_partial_token(tokens: &Vec<String>, term: &str) -> (found: bool)
    ensures
        found == (partial_hits(texts(tokens@), term@) > 0),
        found == exists|i: int| 0 <= i < tokens@.len() && partial(#[trigger] tokens@[i]@, term@),
{
    let count = count_partial_hits(tokens, term, false);
    proof {
        let all = texts(tokens@);
        found_means_hit(all, term@);
        if count > 0 {
            let i = choose|i: int| 0 <= i < all.len() && partial(#[trigger] all[i], term@);
            assert(partial(tokens@[i]@, term@));
        }
        if exists|i: int| 0 <= i < tokens@.len() && partial(#[trigger] tokens@[i]@, term@) {
            let i = choose|i: int| 0 <= i < tokens@.len() && partial(#[trigger] tokens@[i]@, term@);
            assert(partial(all[i], term@));
        }
    }
    count > 0
}

} // verus!
