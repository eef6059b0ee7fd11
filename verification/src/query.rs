//! Queries, and the plain form in which texts are compared with them.

use vstd::prelude::*;

use crate::text::{
    chars_of, join, joined, same_text, texts, tokenize, white_space, word_end, words,
    words_from,
};

verus! {

/// Whether the character is an ASCII lower-case letter.
pub open spec fn lower(character: char) -> bool {
    'a' <= character <= 'z'
}

/// Whether the character is an ASCII upper-case letter.
pub open spec fn upper(character: char) -> bool {
    'A' <= character <= 'Z'
}

/// Whether the character is an ASCII digit.
pub open spec fn ascii_digit(character: char) -> bool {
    '0' <= character <= '9'
}

/// The character, with an ASCII letter in lower case.
pub open spec fn lowered(character: char) -> char {
    if upper(character) {
        ((character as u32 + 32) as u32) as char
    } else {
        character
    }
}

/// What a character comes to: letters and digits stay, in lower case, with a space before an
/// upper-case letter that follows a lower-case letter or a digit; anything else is a space.
pub open spec fn spaced_character(before: Option<char>, character: char) -> Seq<char> {
    if lower(character) || ascii_digit(character) {
        seq![character]
    } else if upper(character) {
        if before is Some && (lower(before->0) || ascii_digit(before->0)) {
            seq![' ', lowered(character)]
        } else {
            seq![lowered(character)]
        }
    } else {
        seq![' ']
    }
}

/// What a text comes to, character by character.
pub open spec fn spaced(text: Seq<char>) -> Seq<char>
    decreases text.len(),
{
    if text.len() == 0 {
        Seq::empty()
    } else {
        let before = if text.len() > 1 {
            Some(text[text.len() - 2])
        } else {
            None
        };
        spaced(text.drop_last()) + spaced_character(before, text.last())
    }
}

/// A text in plain form: its runs of ASCII letters and digits, cut where camel case begins a new
/// word, in lower case, with one space between them.
pub open spec fn normalized(text: Seq<char>) -> Seq<char> {
    joined(words(spaced(text)), " "@)
}

/// Each item once, where it stands first.
pub open spec fn distinct(items: Seq<Seq<char>>) -> Seq<Seq<char>>
    decreases items.len(),
{
    if items.len() == 0 {
        Seq::empty()
    } else {
        let before = distinct(items.drop_last());
        if before.contains(items.last()) {
            before
        } else {
            before.push(items.last())
        }
    }
}

/// What is searched for.
#[derive(Debug, Clone)]
pub struct Query {
    /// The query in plain form.
    pub normalized_phrase: String,
    /// The words of the phrase, each once.
    pub terms: Vec<String>,
}

/// What is searched for, as sequences of characters.
pub ghost struct QueryView {
    pub phrase: Seq<char>,
    pub terms: Seq<Seq<char>>,
}

impl View for Query {
    type V = QueryView;

    open spec fn view(&self) -> QueryView {
        QueryView { phrase: self.normalized_phrase@, terms: texts(self.terms@) }
    }
}

/// The query that a text stands for; nothing where it holds no letter and no digit.
pub open spec fn query_of(raw: Seq<char>) -> Option<QueryView> {
    let phrase = normalized(raw);
    if phrase.len() == 0 {
        None
    } else {
        Some(QueryView { phrase, terms: distinct(words(phrase)) })
    }
}

/// A text in plain form.
pub fn normalize_text(text: &str) -> (plain: String)
    ensures
        plain@ == normalized(text@),
{
    let characters = chars_of(text);
    let mut separate = String::new();
    let mut after_lower_or_digit = false;
    let mut at: usize = 0;
    while at < characters.len()
        invariant
            characters@ == text@,
            at <= text@.len(),
            separate@ == spaced(text@.take(at as int)),
            after_lower_or_digit == (at > 0 && (lower(text@[at - 1]) || ascii_digit(text@[at - 1]))),
        decreases text@.len() - at,
    {
        let character = characters[at];
        let ghost done = text@.take(at + 1);
        assert(done.drop_last() == text@.take(at as int));
        let ghost before = separate@;
        if 'A' <= character && character <= 'Z' {
            if after_lower_or_digit {
                separate.push(' ');
            }
            separate.push((character as u8 + 32u8) as char);
            after_lower_or_digit = false;
        } else if ('a' <= character && character <= 'z') || ('0' <= character && character <= '9') {
            separate.push(character);
            after_lower_or_digit = true;
        } else {
            separate.push(' ');
            after_lower_or_digit = false;
        }
        assert(separate@ == before + spaced_character(
            if at > 0 {
                Some(text@[at - 1])
            } else {
                None
            },
            character,
        ));
        at = at + 1;
    }
    assert(text@.take(at as int) == text@);
    join(&tokenize(separate.as_str()), " ")
}

impl Query {
    /// The query that a text stands for.
    pub fn from_raw(raw: &str) -> (result: Result<Query, String>)
        ensures
            match result {
                Ok(query) => query_of(raw@) == Some(query@),
                Err(message) => query_of(raw@) is None && message@
                    == "query must contain at least one searchable term"@,
            },
    {
        let normalized_phrase = normalize_text(raw);
        if normalized_phrase.as_str().is_empty() {
            return Err("query must contain at least one searchable term".to_owned());
        }
        let tokens = tokenize(normalized_phrase.as_str());
        let mut terms: Vec<String> = Vec::new();
        let mut at: usize = 0;
        assert(texts(terms@) == distinct(texts(tokens@).take(0)));
        while at < tokens.len()
            invariant
                at <= tokens@.len(),
                texts(terms@) == distinct(texts(tokens@).take(at as int)),
            decreases tokens@.len() - at,
        {
            let ghost done = texts(tokens@).take(at + 1);
            assert(done.drop_last() == texts(tokens@).take(at as int));
            let ghost before = texts(terms@);
            if !holds_text(&terms, tokens[at].as_str()) {
                terms.push(tokens[at].clone());
                assert(texts(terms@) == before.push(tokens@[at as int]@));
            }
            at = at + 1;
        }
        assert(texts(tokens@).take(at as int) == texts(tokens@));
        Ok(Query { normalized_phrase, terms })
    }
}

/// Whether one of the texts is `text`.
pub fn holds_text(list: &Vec<String>, text: &str) -> (found: bool)
    ensures
        found == texts(list@).contains(text@),
{
    let mut at: usize = 0;
    while at < list.len()
        invariant
            at <= list@.len(),
            forall|i: int| 0 <= i < at ==> texts(list@)[i] != text@,
        decreases list@.len() - at,
    {
        if same_text(list[at].as_str(), text) {
            assert(texts(list@)[at as int] == text@);
            return true;
        }
        at = at + 1;
    }
    false
}

/// Whether every item is a word: not empty, and free of white space.
pub open spec fn all_words(items: Seq<Seq<char>>) -> bool {
    forall|i: int| 0 <= i < items.len() ==> is_word(#[trigger] items[i])
}

/// Whether the characters make one word.
pub open spec fn is_word(item: Seq<char>) -> bool {
    item.len() > 0 && forall|k: int| 0 <= k < item.len() ==> !white_space(#[trigger] item[k])
}

/// A word ends at its first white space.
pub(crate) proof fn lemma_word_end(text: Seq<char>, from: int)
    requires
        0 <= from <= text.len(),
    ensures
        from <= word_end(text, from) <= text.len(),
        forall|k: int| from <= k < word_end(text, from) ==> !white_space(#[trigger] text[k]),
        word_end(text, from) < text.len() ==> white_space(text[word_end(text, from)]),
    decreases text.len() - from,
{
    if from < text.len() && !white_space(text[from]) {
        lemma_word_end(text, from + 1);
    }
}

/// What a text is split into are words.
pub(crate) proof fn lemma_words_are_words(text: Seq<char>, from: int)
    requires
        0 <= from,
    ensures
        all_words(words_from(text, from)),
    decreases text.len() - from,
{
    if from < text.len() {
        if white_space(text[from]) {
            lemma_words_are_words(text, from + 1);
        } else {
            lemma_word_end(text, from);
            let end = word_end(text, from);
            lemma_words_are_words(text, end);
        }
    }
}

/// A word that ends the first of two texts ends it in both together, where the second begins with
/// white space.
proof fn lemma_word_end_in_front(first: Seq<char>, second: Seq<char>, from: int)
    requires
        0 <= from <= first.len(),
        second.len() > 0,
        white_space(second[0]),
    ensures
        word_end(first + second, from) == word_end(first, from),
    decreases first.len() - from,
{
    if from < first.len() && !white_space(first[from]) {
        assert((first + second)[from] == first[from]);
        lemma_word_end_in_front(first, second, from + 1);
    }
}

/// Past the first of two texts, the words are those of the second.
pub(crate) proof fn lemma_words_behind(first: Seq<char>, second: Seq<char>, from: int)
    requires
        0 <= from,
    ensures
        words_from(first + second, first.len() + from) == words_from(second, from),
    decreases second.len() - from,
{
    if from < second.len() {
        assert((first + second)[first.len() + from] == second[from]);
        if white_space(second[from]) {
            lemma_words_behind(first, second, from + 1);
        } else {
            lemma_word_end_behind(first, second, from);
            lemma_word_end(second, from);
            let end = word_end(second, from);
            lemma_words_behind(first, second, end);
            assert((first + second).subrange(first.len() + from, first.len() + end)
                == second.subrange(from, end));
        }
    }
}

/// Past the first of two texts, words end where they end in the second.
proof fn lemma_word_end_behind(first: Seq<char>, second: Seq<char>, from: int)
    requires
        0 <= from,
    ensures
        word_end(first + second, first.len() + from) == first.len() + word_end(second, from),
    decreases second.len() - from,
{
    if from < second.len() {
        assert((first + second)[first.len() + from] == second[from]);
        if !white_space(second[from]) {
            lemma_word_end_behind(first, second, from + 1);
        }
    }
}

/// Where the second of two texts begins with white space, the words of both together are the words
/// of each.
pub(crate) proof fn lemma_words_apart(first: Seq<char>, second: Seq<char>, from: int)
    requires
        0 <= from <= first.len(),
        second.len() > 0,
        white_space(second[0]),
    ensures
        words_from(first + second, from) == words_from(first, from) + words(second),
    decreases first.len() - from,
{
    if from == first.len() {
        lemma_words_behind(first, second, 0);
        assert(words_from(first, from) + words(second) == words(second));
    } else {
        assert((first + second)[from] == first[from]);
        if white_space(first[from]) {
            lemma_words_apart(first, second, from + 1);
        } else {
            lemma_word_end(first, from);
            lemma_word_end_in_front(first, second, from);
            let end = word_end(first, from);
            lemma_words_apart(first, second, end);
            assert((first + second).subrange(from, end) == first.subrange(from, end));
            assert(seq![first.subrange(from, end)] + words_from(first, end) + words(second) == seq![
                first.subrange(from, end),
            ] + (words_from(first, end) + words(second)));
        }
    }
}

/// One word is split into itself.
pub(crate) proof fn lemma_word_alone(word: Seq<char>)
    requires
        is_word(word),
    ensures
        words(word) == seq![word],
{
    lemma_word_end(word, 0);
    let end = word_end(word, 0);
    if end < word.len() {
        assert(white_space(word[end]));
    }
    assert(word.subrange(0, end) == word);
    assert(words_from(word, end) == Seq::<Seq<char>>::empty());
    assert(words(word) == seq![word] + words_from(word, end));
    assert(seq![word] + Seq::<Seq<char>>::empty() == seq![word]);
}

/// Words that are joined by single spaces and split again are the same words.
pub proof fn splitting_undoes_joining(items: Seq<Seq<char>>)
    requires
        all_words(items),
    ensures
        words(joined(items, " "@)) == items,
    decreases items.len(),
{
    reveal_strlit(" ");
    if items.len() == 1 {
        lemma_word_alone(items[0]);
        assert(items == seq![items[0]]);
    } else if items.len() > 1 {
        let front = items.drop_last();
        let last = items.last();
        assert forall|i: int| 0 <= i < front.len() implies is_word(#[trigger] front[i]) by {
            assert(front[i] == items[i]);
        }
        splitting_undoes_joining(front);
        assert(is_word(last));
        let tail = " "@ + last;
        assert(white_space(tail[0]));
        lemma_words_apart(joined(front, " "@), tail, 0);
        lemma_words_behind(" "@, last, 0);
        assert(words_from(tail, 0) == words_from(tail, 1));
        lemma_word_alone(last);
        assert(items == front + seq![last]);
    }
}

/// Whether a text holds lower-case letters, digits and spaces only.
pub open spec fn plain(text: Seq<char>) -> bool {
    forall|i: int|
        0 <= i < text.len() ==> lower(#[trigger] text[i]) || ascii_digit(text[i]) || text[i] == ' '
}

/// What a text comes to, character by character, is plain.
proof fn lemma_spaced_is_plain(text: Seq<char>)
    ensures
        plain(spaced(text)),
    decreases text.len(),
{
    if text.len() > 0 {
        lemma_spaced_is_plain(text.drop_last());
    }
}

/// The words of a plain text are plain.
proof fn lemma_words_of_plain(text: Seq<char>, from: int)
    requires
        plain(text),
        0 <= from,
    ensures
        forall|i: int| 0 <= i < words_from(text, from).len() ==> plain(#[trigger] words_from(text, from)[i]),
    decreases text.len() - from,
{
    if from < text.len() {
        if white_space(text[from]) {
            lemma_words_of_plain(text, from + 1);
            assert(words_from(text, from) == words_from(text, from + 1));
        } else {
            lemma_word_end(text, from);
            let end = word_end(text, from);
            lemma_words_of_plain(text, end);
            assert(plain(text.subrange(from, end)));
            let rest = words_from(text, end);
            assert forall|i: int| 0 <= i < words_from(text, from).len() implies plain(
                #[trigger] words_from(text, from)[i],
            ) by {
                assert(words_from(text, from) == seq![text.subrange(from, end)] + rest);
                if i > 0 {
                    assert(words_from(text, from)[i] == rest[i - 1]);
                } else {
                    assert(words_from(text, from)[i] == text.subrange(from, end));
                }
            }
        }
    }
}

/// Plain texts joined by spaces are plain.
proof fn lemma_joined_is_plain(items: Seq<Seq<char>>)
    requires
        forall|i: int| 0 <= i < items.len() ==> plain(#[trigger] items[i]),
    ensures
        plain(joined(items, " "@)),
    decreases items.len(),
{
    reveal_strlit(" ");
    if items.len() > 1 {
        let front = items.drop_last();
        assert forall|i: int| 0 <= i < front.len() implies plain(#[trigger] front[i]) by {
            assert(front[i] == items[i]);
        }
        lemma_joined_is_plain(front);
        assert(plain(items.last()));
    }
}

/// A plain text comes to itself, character by character.
proof fn lemma_spaced_of_plain(text: Seq<char>)
    requires
        plain(text),
    ensures
        spaced(text) == text,
    decreases text.len(),
{
    if text.len() > 0 {
        assert forall|i: int| 0 <= i < text.drop_last().len() implies lower(
            #[trigger] text.drop_last()[i],
        ) || ascii_digit(text.drop_last()[i]) || text.drop_last()[i] == ' ' by {
            assert(text.drop_last()[i] == text[i]);
        }
        lemma_spaced_of_plain(text.drop_last());
        assert(text.drop_last() + seq![text.last()] == text);
        assert(lower(text.last()) || ascii_digit(text.last()) || text.last() == ' ');
    } else {
        assert(spaced(text) == text);
    }
}

/// The plain form holds lower-case letters, digits and spaces only, its words are those of the
/// text, and putting it in plain form again changes nothing.
pub proof fn normalizing_twice_is_normalizing_once(text: Seq<char>)
    ensures
        plain(normalized(text)),
        words(normalized(text)) == words(spaced(text)),
        normalized(normalized(text)) == normalized(text),
{
    lemma_spaced_is_plain(text);
    lemma_words_are_words(spaced(text), 0);
    lemma_words_of_plain(spaced(text), 0);
    splitting_undoes_joining(words(spaced(text)));
    lemma_joined_is_plain(words(spaced(text)));
    lemma_spaced_of_plain(normalized(text));
}

/// Taking each item once leaves the same items, none of them twice.
proof fn lemma_distinct(items: Seq<Seq<char>>)
    ensures
        distinct(items).no_duplicates(),
        forall|item: Seq<char>| distinct(items).contains(item) <==> items.contains(item),
    decreases items.len(),
{
    if items.len() > 0 {
        let front = items.drop_last();
        let last = items.last();
        lemma_distinct(front);
        let before = distinct(front);
        assert forall|item: Seq<char>| distinct(items).contains(item) <==> items.contains(item) by {
            if items.contains(item) {
                let i = choose|i: int| 0 <= i < items.len() && items[i] == item;
                if i < front.len() {
                    assert(front[i] == item);
                    assert(front.contains(item));
                    assert(before.contains(item));
                    let j = choose|j: int| 0 <= j < before.len() && before[j] == item;
                    assert(distinct(items)[j] == item);
                } else if !before.contains(last) {
                    assert(distinct(items)[before.len() as int] == item);
                }
            }
            if distinct(items).contains(item) {
                let j = choose|j: int| 0 <= j < distinct(items).len() && distinct(items)[j] == item;
                if j < before.len() {
                    assert(before[j] == item);
                    assert(front.contains(item));
                    let i = choose|i: int| 0 <= i < front.len() && front[i] == item;
                    assert(items[i] == item);
                } else {
                    assert(items[items.len() - 1] == item);
                }
            }
        }
    }
}

/// A query has at least one term, no term twice, every term is a word of its phrase and every word
/// of its phrase is a term.
pub proof fn terms_are_the_words_once(raw: Seq<char>)
    requires
        query_of(raw) is Some,
    ensures
        query_of(raw)->0.terms.len() > 0,
        query_of(raw)->0.terms.no_duplicates(),
        all_words(query_of(raw)->0.terms),
        forall|term: Seq<char>|
            query_of(raw)->0.terms.contains(term) <==> words(query_of(raw)->0.phrase).contains(term),
{
    let phrase = normalized(raw);
    let terms = distinct(words(phrase));
    lemma_distinct(words(phrase));
    lemma_words_are_words(phrase, 0);
    assert forall|i: int| 0 <= i < terms.len() implies is_word(#[trigger] terms[i]) by {
        assert(terms.contains(terms[i]));
        assert(words(phrase).contains(terms[i]));
        let j = choose|j: int| 0 <= j < words(phrase).len() && words(phrase)[j] == terms[i];
        assert(is_word(words(phrase)[j]));
    }
    normalizing_twice_is_normalizing_once(raw);
    let items = words(spaced(raw));
    assert(items.len() > 0);
    assert(words(phrase)[0] == items[0]);
    assert(words(phrase).contains(items[0]));
    assert(terms.contains(items[0]));
}

/// Whether a character is an ASCII letter or digit.
pub open spec fn searchable(character: char) -> bool {
    lower(character) || upper(character) || ascii_digit(character)
}

/// What a text comes to holds something but spaces exactly where the text holds a letter or digit.
proof fn lemma_spaced_holds_letters(text: Seq<char>)
    ensures
        (exists|i: int| 0 <= i < spaced(text).len() && !white_space(#[trigger] spaced(text)[i]))
            <==> exists|i: int| 0 <= i < text.len() && searchable(#[trigger] text[i]),
    decreases text.len(),
{
    if text.len() > 0 {
        let front = text.drop_last();
        lemma_spaced_holds_letters(front);
        let before = if text.len() > 1 {
            Some(text[text.len() - 2])
        } else {
            None
        };
        let last = spaced_character(before, text.last());
        let whole = spaced(text);
        assert(whole == spaced(front) + last);
        if exists|i: int| 0 <= i < whole.len() && !white_space(#[trigger] whole[i]) {
            let i = choose|i: int| 0 <= i < whole.len() && !white_space(#[trigger] whole[i]);
            if i < spaced(front).len() {
                assert(!white_space(spaced(front)[i]));
                let k = choose|k: int| 0 <= k < front.len() && searchable(#[trigger] front[k]);
                assert(searchable(text[k]));
            } else {
                assert(whole[i] == last[i - spaced(front).len()]);
                assert(searchable(text[text.len() - 1]));
            }
        }
        if exists|i: int| 0 <= i < text.len() && searchable(#[trigger] text[i]) {
            let i = choose|i: int| 0 <= i < text.len() && searchable(#[trigger] text[i]);
            if i < front.len() {
                assert(searchable(front[i]));
                let k = choose|k: int|
                    0 <= k < spaced(front).len() && !white_space(#[trigger] spaced(front)[k]);
                assert(whole[k] == spaced(front)[k]);
            } else {
                assert(whole[whole.len() - 1] == last[last.len() - 1]);
                assert(!white_space(whole[whole.len() - 1]));
            }
        }
    }
}

/// A text has a word from a place on exactly where something but white space stands there.
pub(crate) proof fn lemma_has_word(text: Seq<char>, from: int)
    requires
        0 <= from,
    ensures
        words_from(text, from).len() > 0 <==> exists|i: int|
            from <= i < text.len() && !white_space(#[trigger] text[i]),
    decreases text.len() - from,
{
    if from < text.len() {
        if white_space(text[from]) {
            lemma_has_word(text, from + 1);
        } else {
            lemma_word_end(text, from);
        }
    }
}

/// Words put together are empty only where there are none.
proof fn lemma_joined_is_not_empty(items: Seq<Seq<char>>)
    requires
        items.len() > 0,
        all_words(items),
    ensures
        joined(items, " "@).len() > 0,
    decreases items.len(),
{
    assert(is_word(items[0]));
    if items.len() > 1 {
        let front = items.drop_last();
        assert forall|i: int| 0 <= i < front.len() implies is_word(#[trigger] front[i]) by {
            assert(is_word(items[i]));
        }
        lemma_joined_is_not_empty(front);
    }
}

/// A text is a query exactly where it holds an ASCII letter or digit.
pub proof fn a_query_holds_a_letter_or_digit(raw: Seq<char>)
    ensures
        query_of(raw) is Some <==> exists|i: int| 0 <= i < raw.len() && searchable(#[trigger] raw[i]),
{
    let text = spaced(raw);
    lemma_spaced_holds_letters(raw);
    lemma_has_word(text, 0);
    lemma_words_are_words(text, 0);
    if words(text).len() > 0 {
        lemma_joined_is_not_empty(words(text));
    }
}

} // verus!
