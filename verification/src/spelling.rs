//! How the plain form of a text is spelled: which characters it keeps, and where its spaces stand.

use vstd::prelude::*;

use crate::query::{
    ascii_digit, lemma_word_alone, lemma_word_end, lemma_words_apart, lemma_words_behind, lower,
    lowered, normalized, searchable, spaced, spaced_character, upper,
};
use crate::text::{joined, white_space, word_end, words, words_from};

verus! {

/// The places of the ASCII letters and digits of a text, in order.
pub open spec fn places(text: Seq<char>) -> Seq<int>
    decreases text.len(),
{
    if text.len() == 0 {
        Seq::empty()
    } else if searchable(text.last()) {
        places(text.drop_last()).push(text.len() - 1)
    } else {
        places(text.drop_last())
    }
}

/// Whether a new word begins at `at`, where the letter or digit before stands at `before`: another
/// character lies between them, or camel case begins.
pub open spec fn parted(text: Seq<char>, before: int, at: int) -> bool {
    before + 1 < at || upper(text[at]) && (lower(text[before]) || ascii_digit(text[before]))
}

/// The first `count` letters and digits of a text, in lower case, with a space where a new word
/// begins.
pub open spec fn written(text: Seq<char>, count: int) -> Seq<char>
    decreases count,
{
    if count <= 0 {
        Seq::empty()
    } else {
        let at = places(text)[count - 1];
        let before = written(text, count - 1);
        if count > 1 && parted(text, places(text)[count - 2], at) {
            before.push(' ').push(lowered(text[at]))
        } else {
            before.push(lowered(text[at]))
        }
    }
}

/// A text without its spaces.
pub open spec fn without_spaces(text: Seq<char>) -> Seq<char>
    decreases text.len(),
{
    if text.len() == 0 {
        Seq::empty()
    } else if text.last() == ' ' {
        without_spaces(text.drop_last())
    } else {
        without_spaces(text.drop_last()).push(text.last())
    }
}

/// The ASCII letters and digits of a text, in lower case.
pub open spec fn letters(text: Seq<char>) -> Seq<char> {
    Seq::new(places(text).len(), |i: int| lowered(text[places(text)[i]]))
}

/// The plain form of a text holds its ASCII letters and digits in lower case, and one space between
/// neighbours exactly where another character lies between them or camel case begins.
pub proof fn plain_form_keeps_letters_and_digits(text: Seq<char>)
    ensures
        normalized(text) == written(text, places(text).len() as int),
        without_spaces(normalized(text)) == letters(text),
{
    lemma_written(text);
    lemma_places(text);
    lemma_without_spaces(text, places(text).len() as int);
    assert(Seq::new(places(text).len(), |i: int| lowered(text[places(text)[i]])) == letters(text));
}

/// Places lie within the text and hold letters and digits; the last one is the end of the text
/// exactly where that is a letter or digit.
proof fn lemma_places(text: Seq<char>)
    ensures
        forall|i: int|
            0 <= i < places(text).len() ==> 0 <= #[trigger] places(text)[i] < text.len()
                && searchable(text[places(text)[i]]),
        places(text).len() > 0 ==> (places(text).last() == text.len() - 1 <==> searchable(
            text.last(),
        )),
        text.len() > 0 && searchable(text.last()) ==> places(text).len() > 0,
    decreases text.len(),
{
    if text.len() > 0 {
        let front = text.drop_last();
        lemma_places(front);
        assert forall|i: int| 0 <= i < places(text).len() implies 0 <= #[trigger] places(text)[i]
            < text.len() && searchable(text[places(text)[i]]) by {
            if i < places(front).len() {
                assert(places(text)[i] == places(front)[i]);
                assert(front[places(front)[i]] == text[places(front)[i]]);
            }
        }
        if !searchable(text.last()) && places(text).len() > 0 {
            assert(0 <= places(front)[places(front).len() - 1] < front.len());
        }
    }
}

/// A letter or digit in lower case is no white space.
proof fn lemma_lowered(character: char)
    requires
        searchable(character),
    ensures
        !white_space(lowered(character)),
        lowered(character) != ' ',
{
}

/// What is written is made of the letters and digits.
proof fn lemma_without_spaces(text: Seq<char>, count: int)
    requires
        0 <= count <= places(text).len(),
    ensures
        without_spaces(written(text, count)) == Seq::new(
            count as nat,
            |i: int| lowered(text[places(text)[i]]),
        ),
    decreases count,
{
    if count > 0 {
        lemma_places(text);
        lemma_without_spaces(text, count - 1);
        let at = places(text)[count - 1];
        let before = written(text, count - 1);
        lemma_lowered(text[at]);
        assert(before.push(' ').drop_last() == before);
        assert(without_spaces(before.push(' ')) == without_spaces(before));
        assert(written(text, count).last() == lowered(text[at]));
        if count > 1 && parted(text, places(text)[count - 2], at) {
            assert(written(text, count).drop_last() == before.push(' '));
        } else {
            assert(written(text, count).drop_last() == before);
        }
        assert(Seq::new((count - 1) as nat, |i: int| lowered(text[places(text)[i]])).push(
            lowered(text[at]),
        ) == Seq::new(count as nat, |i: int| lowered(text[places(text)[i]])));
    }
}

/// What is written of the beginning of a text does not change with its last character.
proof fn lemma_written_in_front(text: Seq<char>, count: int)
    requires
        text.len() > 0,
        count <= places(text.drop_last()).len(),
    ensures
        written(text, count) == written(text.drop_last(), count),
    decreases count,
{
    if count > 0 {
        let front = text.drop_last();
        lemma_places(front);
        lemma_written_in_front(text, count - 1);
        assert(places(text)[count - 1] == places(front)[count - 1]);
        assert(front[places(front)[count - 1]] == text[places(front)[count - 1]]);
        if count > 1 {
            assert(places(text)[count - 2] == places(front)[count - 2]);
            assert(front[places(front)[count - 2]] == text[places(front)[count - 2]]);
        }
    }
}

/// White space behind a text adds no word.
proof fn lemma_words_before_space(text: Seq<char>, space: char)
    requires
        white_space(space),
    ensures
        words(text.push(space)) == words(text),
{
    lemma_words_apart(text, seq![space], 0);
    assert(text + seq![space] == text.push(space));
    assert(words_from(seq![space], 1) == Seq::<Seq<char>>::empty());
    assert(words(seq![space]) == words_from(seq![space], 1));
    assert(words(text) + Seq::<Seq<char>>::empty() == words(text));
}

/// Another character behind white space, or behind nothing, is a new word.
proof fn lemma_words_new(text: Seq<char>, character: char)
    requires
        !white_space(character),
        text.len() > 0 ==> white_space(text.last()),
    ensures
        words(text.push(character)) == words(text).push(seq![character]),
{
    let word = seq![character];
    lemma_word_alone(word);
    if text.len() == 0 {
        assert(text.push(character) == word);
        assert(words(text) == Seq::<Seq<char>>::empty());
        assert(words(text).push(word) == seq![word]);
    } else {
        let front = text.drop_last();
        let space = text.last();
        lemma_words_apart(front, seq![space, character], 0);
        assert(front + seq![space, character] == text.push(character));
        assert(words(seq![space, character]) == words_from(seq![space, character], 1));
        lemma_words_behind(seq![space], word, 0);
        assert(seq![space] + word == seq![space, character]);
        lemma_words_before_space(front, space);
        assert(front.push(space) == text);
        assert(words(front) + seq![word] == words(front).push(word));
    }
}

/// The words with their last one a character longer.
spec fn longer(items: Seq<Seq<char>>, character: char) -> Seq<Seq<char>> {
    items.drop_last().push(items.last().push(character))
}

/// The end of a word that does not reach the end of the text stays where it is.
proof fn lemma_word_end_pushed(text: Seq<char>, character: char, from: int)
    requires
        0 <= from <= text.len(),
        !white_space(character),
    ensures
        word_end(text, from) < text.len() ==> word_end(text.push(character), from) == word_end(
            text,
            from,
        ),
        word_end(text, from) == text.len() ==> word_end(text.push(character), from) == text.len()
            + 1,
    decreases text.len() - from,
{
    lemma_word_end(text, from);
    let pushed = text.push(character);
    if from == text.len() {
        assert(pushed[from] == character);
        assert(word_end(pushed, from + 1) == from + 1);
    } else {
        assert(pushed[from] == text[from]);
        if !white_space(text[from]) {
            lemma_word_end_pushed(text, character, from + 1);
        }
    }
}

/// Another character behind a word makes it longer.
proof fn lemma_words_longer(text: Seq<char>, character: char, from: int)
    requires
        0 <= from < text.len(),
        !white_space(text.last()),
        !white_space(character),
    ensures
        words_from(text, from).len() > 0,
        words_from(text.push(character), from) == longer(words_from(text, from), character),
    decreases text.len() - from,
{
    let pushed = text.push(character);
    assert(pushed[from] == text[from]);
    if white_space(text[from]) {
        lemma_words_longer(text, character, from + 1);
    } else {
        lemma_word_end(text, from);
        lemma_word_end_pushed(text, character, from);
        let end = word_end(text, from);
        let word = text.subrange(from, end);
        if end < text.len() {
            lemma_words_longer(text, character, end);
            let rest = words_from(text, end);
            assert(pushed.subrange(from, end) == word);
            assert((seq![word] + rest).last() == rest.last());
            assert(seq![word] + longer(rest, character) == longer(seq![word] + rest, character));
        } else {
            assert(words_from(text, end) == Seq::<Seq<char>>::empty());
            assert(words_from(pushed, end + 1) == Seq::<Seq<char>>::empty());
            assert(pushed.subrange(from, end + 1) == word.push(character));
            assert(seq![word] + Seq::<Seq<char>>::empty() == seq![word]);
            assert(words_from(text, from) == seq![word]);
            assert(words_from(pushed, from) == seq![word.push(character)]
                + words_from(pushed, end + 1));
            assert(seq![word.push(character)] + Seq::<Seq<char>>::empty() == longer(
                seq![word],
                character,
            ));
        }
    }
}

/// A new word stands behind a space, unless it is the first.
proof fn lemma_joined_new(items: Seq<Seq<char>>, character: char)
    ensures
        items.len() == 0 ==> joined(items.push(seq![character]), " "@) == seq![character],
        items.len() > 0 ==> joined(items.push(seq![character]), " "@) == joined(items, " "@).push(
            ' ',
        ).push(character),
{
    reveal_strlit(" ");
    let more = items.push(seq![character]);
    assert(more.drop_last() == items);
    if items.len() > 0 {
        assert(" "@ + seq![character] == seq![' ', character]);
        assert(joined(items, " "@) + seq![' ', character] == joined(items, " "@).push(' ').push(
            character,
        ));
    }
}

/// A longer last word makes the whole longer.
proof fn lemma_joined_longer(items: Seq<Seq<char>>, character: char)
    requires
        items.len() > 0,
    ensures
        joined(longer(items, character), " "@) == joined(items, " "@).push(character),
{
    let more = longer(items, character);
    assert(more.drop_last() == items.drop_last());
    if items.len() > 1 {
        let front = joined(items.drop_last(), " "@);
        assert(front + (" "@ + items.last().push(character)) == (front + (" "@ + items.last())).push(
            character,
        ));
    }
}

/// The plain form is what is written, and white space stands at the end of the spaced form exactly
/// where the text ends in something else than a letter or digit.
proof fn lemma_written(text: Seq<char>)
    ensures
        normalized(text) == written(text, places(text).len() as int),
        words(spaced(text)).len() > 0 <==> places(text).len() > 0,
        text.len() > 0 ==> spaced(text).len() > 0 && (white_space(spaced(text).last())
            <==> !searchable(text.last())),
    decreases text.len(),
{
    if text.len() == 0 {
        assert(words(spaced(text)) == Seq::<Seq<char>>::empty());
    } else {
        let front = text.drop_last();
        lemma_written(front);
        lemma_places(front);
        let count = places(front).len() as int;
        lemma_written_in_front(text, count);
        let before = if text.len() > 1 {
            Some(text[text.len() - 2])
        } else {
            None
        };
        let character = text.last();
        let whole = spaced(front);
        assert(spaced(text) == whole + spaced_character(before, character));
        if !searchable(character) {
            assert(spaced(text) == whole.push(' '));
            lemma_words_before_space(whole, ' ');
        } else {
            lemma_lowered(character);
            let plain = lowered(character);
            assert(places(text) == places(front).push(text.len() - 1));
            if front.len() > 0 {
                assert(before == Some(front.last()));
            }
            if upper(character) && before is Some && (lower(before->0) || ascii_digit(before->0)) {
                assert(spaced(text) == whole.push(' ').push(plain));
                lemma_words_before_space(whole, ' ');
                lemma_words_new(whole.push(' '), plain);
                lemma_joined_new(words(whole), plain);
                assert(places(front).last() == front.len() - 1);
                assert(text[front.len() - 1] == front.last());
            } else {
                assert(spaced(text) == whole.push(plain));
                if front.len() == 0 || !searchable(front.last()) {
                    lemma_words_new(whole, plain);
                    lemma_joined_new(words(whole), plain);
                    if count == 0 {
                        assert(written(front, 0).push(plain) == seq![plain]);
                    } else {
                        assert(places(front)[count - 1] < front.len() - 1);
                    }
                } else {
                    lemma_words_longer(whole, plain, 0);
                    lemma_joined_longer(words(whole), plain);
                    assert(places(front).last() == front.len() - 1);
                    assert(text[front.len() - 1] == front.last());
                }
            }
        }
    }
}

} // verus!
