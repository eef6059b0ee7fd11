//! Laws on plain forms and queries.

use vstd::prelude::*;

use super::text::white_space_parts_words;
use crate::query::{
    distinct, normalized, normalizing_twice_is_normalizing_once, query_of, spaced,
};
use crate::text::{joined, words};

verus! {

/// What a text comes to, with a text behind it that is not parted from it by its first character.
proof fn lemma_spaced_behind(first: Seq<char>, second: Seq<char>)
    requires
        first.len() > 0,
        second.len() > 0,
    ensures
        'A' <= second[0] <= 'Z' && ('a' <= first.last() <= 'z' || '0' <= first.last() <= '9')
            ==> spaced(first + second) == spaced(first).push(' ') + spaced(second),
        !('A' <= second[0] <= 'Z' && ('a' <= first.last() <= 'z' || '0' <= first.last() <= '9'))
            ==> spaced(first + second) == spaced(first) + spaced(second),
    decreases second.len(),
{
    let whole = first + second;
    let front = second.drop_last();
    assert(whole.drop_last() == first + front);
    assert(whole.last() == second.last());
    if second.len() == 1 {
        assert(first + front == first);
        assert(whole[whole.len() - 2] == first.last());
        assert(spaced(front) == Seq::<char>::empty());
    } else {
        lemma_spaced_behind(first, front);
        assert(front[0] == second[0]);
        assert(whole[whole.len() - 2] == second[second.len() - 2]);
    }
}

/// A character that is no ASCII letter or digit parts the words before it from those behind it, and
/// so does the beginning of camel case: an upper-case letter behind a lower-case letter or a digit.
pub proof fn plain_words_are_parted(first: Seq<char>, other: char, second: Seq<char>)
    ensures
        !('a' <= other <= 'z' || 'A' <= other <= 'Z' || '0' <= other <= '9') ==> words(
            normalized(first.push(other) + second),
        ) == words(normalized(first)) + words(normalized(second)),
        first.len() > 0 && second.len() > 0 && 'A' <= second[0] <= 'Z' && ('a' <= first.last()
            <= 'z' || '0' <= first.last() <= '9') ==> words(normalized(first + second)) == words(
            normalized(first),
        ) + words(normalized(second)),
{
    normalizing_twice_is_normalizing_once(first);
    normalizing_twice_is_normalizing_once(second);
    white_space_parts_words(spaced(first), ' ', spaced(second));
    if !('a' <= other <= 'z' || 'A' <= other <= 'Z' || '0' <= other <= '9') {
        let front = first.push(other);
        let whole = front + second;
        normalizing_twice_is_normalizing_once(whole);
        assert(front.drop_last() == first);
        assert(spaced(front) == spaced(first).push(' '));
        if second.len() > 0 {
            lemma_spaced_behind(front, second);
        } else {
            assert(whole == front);
            assert(spaced(second) == Seq::<char>::empty());
            assert(spaced(first).push(' ') + spaced(second) == spaced(first).push(' '));
        }
    }
    if first.len() > 0 && second.len() > 0 && 'A' <= second[0] <= 'Z' && ('a' <= first.last()
        <= 'z' || '0' <= first.last() <= '9') {
        normalizing_twice_is_normalizing_once(first + second);
        lemma_spaced_behind(first, second);
    }
}

/// A run of ASCII letters and digits in which no camel case begins is one word: its letters in lower
/// case. The plain form of a text is its words, one space apart.
pub proof fn a_plain_word_is_in_lower_case(text: Seq<char>)
    ensures
        text.len() > 0 && (forall|i: int|
            0 <= i < text.len() ==> 'a' <= #[trigger] text[i] <= 'z' || 'A' <= text[i] <= 'Z'
                || '0' <= text[i] <= '9') && (forall|i: int|
            0 < i < text.len() && 'A' <= #[trigger] text[i] <= 'Z' ==> 'A' <= text[i - 1] <= 'Z')
            ==> words(normalized(text)) == seq![
            Seq::new(
                text.len(),
                |i: int|
                    if 'A' <= text[i] <= 'Z' {
                        (text[i] as u32 + 32) as char
                    } else {
                        text[i]
                    },
            ),
        ],
        normalized(text) == joined(words(normalized(text)), seq![' ']),
        normalized(Seq::<char>::empty()) == Seq::<char>::empty(),
{
    reveal_strlit(" ");
    assert(" "@ == seq![' ']);
    normalizing_twice_is_normalizing_once(text);
    if text.len() > 0 && (forall|i: int|
        0 <= i < text.len() ==> 'a' <= #[trigger] text[i] <= 'z' || 'A' <= text[i] <= 'Z' || '0'
            <= text[i] <= '9') && (forall|i: int|
        0 < i < text.len() && 'A' <= #[trigger] text[i] <= 'Z' ==> 'A' <= text[i - 1] <= 'Z') {
        lemma_one_word(text);
        white_space_parts_words(spaced(text), ' ', Seq::empty());
    }
    assert(spaced(Seq::<char>::empty()) == Seq::<char>::empty());
    assert(words(Seq::<char>::empty()) == Seq::<Seq<char>>::empty());
}

/// What a run of letters and digits comes to where no camel case begins.
proof fn lemma_one_word(text: Seq<char>)
    requires
        forall|i: int|
            0 <= i < text.len() ==> 'a' <= #[trigger] text[i] <= 'z' || 'A' <= text[i] <= 'Z'
                || '0' <= text[i] <= '9',
        forall|i: int|
            0 < i < text.len() && 'A' <= #[trigger] text[i] <= 'Z' ==> 'A' <= text[i - 1] <= 'Z',
    ensures
        spaced(text) == Seq::new(
            text.len(),
            |i: int|
                if 'A' <= text[i] <= 'Z' {
                    (text[i] as u32 + 32) as char
                } else {
                    text[i]
                },
        ),
        forall|i: int| 0 <= i < spaced(text).len() ==> !crate::text::white_space(
            #[trigger] spaced(text)[i],
        ),
    decreases text.len(),
{
    if text.len() > 0 {
        let front = text.drop_last();
        assert forall|i: int| 0 <= i < front.len() implies 'a' <= #[trigger] front[i] <= 'z'
            || 'A' <= front[i] <= 'Z' || '0' <= front[i] <= '9' by {
            assert(front[i] == text[i]);
        }
        assert forall|i: int| 0 < i < front.len() && 'A' <= #[trigger] front[i] <= 'Z' implies 'A'
            <= front[i - 1] <= 'Z' by {
            assert(front[i] == text[i]);
        }
        lemma_one_word(front);
        let last = text[text.len() - 1];
        assert('a' <= last <= 'z' || 'A' <= last <= 'Z' || '0' <= last <= '9');
        if text.len() > 1 && 'A' <= last <= 'Z' {
            assert('A' <= text[text.len() - 2] <= 'Z');
        }
    }
}

/// Each word of the phrase is a term once, where it stands first: a further word is a further term
/// unless it stood before.
pub proof fn terms_come_in_order(items: Seq<Seq<char>>, item: Seq<char>)
    ensures
        distinct(Seq::<Seq<char>>::empty()) == Seq::<Seq<char>>::empty(),
        items.contains(item) ==> distinct(items.push(item)) == distinct(items),
        !items.contains(item) ==> distinct(items.push(item)) == distinct(items).push(item),
{
    assert(items.push(item).drop_last() == items);
    lemma_distinct_holds(items, item);
}

/// What is kept once is what there is.
proof fn lemma_distinct_holds(items: Seq<Seq<char>>, item: Seq<char>)
    ensures
        distinct(items).contains(item) <==> items.contains(item),
    decreases items.len(),
{
    if items.len() > 0 {
        let front = items.drop_last();
        lemma_distinct_holds(front, item);
        lemma_distinct_holds(front, items.last());
        let before = distinct(front);
        if items.contains(item) {
            let i = choose|i: int| 0 <= i < items.len() && items[i] == item;
            if i < front.len() {
                assert(front[i] == item);
                let j = choose|j: int| 0 <= j < before.len() && before[j] == item;
                assert(before.push(items.last())[j] == item);
            } else {
                assert(before.push(items.last())[before.len() as int] == item);
            }
        }
        if distinct(items).contains(item) {
            if before.contains(item) {
                let i = choose|i: int| 0 <= i < front.len() && front[i] == item;
                assert(items[i] == item);
            } else {
                assert(items[items.len() - 1] == items.last());
            }
        }
    }
}

/// A query has the plain form of its text as its phrase, and the words of the phrase as its terms,
/// each once.
pub proof fn a_query_is_its_plain_form(raw: Seq<char>)
    ensures
        query_of(raw) is Some <==> normalized(raw).len() > 0,
        query_of(raw) is Some ==> query_of(raw)->0.phrase == normalized(raw)
            && query_of(raw)->0.terms == distinct(words(normalized(raw))),
{
}

} // verus!
