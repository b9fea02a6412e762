//! Words of a text, and texts put together.

use crate::text::{byte_len, chars_of, is_space, text_of};
use vstd::prelude::*;
use vstd::utf8::{encode_scalar, encode_utf8};

verus! {

/// Where the word that starts at a place ends.
pub open spec fn word_end(text: Seq<char>, start: int) -> int
    decreases text.len() - start,
{
    if start < 0 || start >= text.len() || is_space(text[start]) {
        start
    } else {
        word_end(text, start + 1)
    }
}

proof fn lemma_word_end(text: Seq<char>, start: int)
    requires
        0 <= start <= text.len(),
    ensures
        start <= word_end(text, start) <= text.len(),
    decreases text.len() - start,
{
    if start < text.len() && !is_space(text[start]) {
        lemma_word_end(text, start + 1);
    }
}

/// The words of a text from a place on: what stands between whitespace.
pub open spec fn words_from(text: Seq<char>, index: int) -> Seq<Seq<char>>
    decreases text.len() - index,
    when 0 <= index
    via words_from_decreases
{
    if index >= text.len() {
        Seq::empty()
    } else if is_space(text[index]) {
        words_from(text, index + 1)
    } else {
        seq![text.subrange(index, word_end(text, index))] + words_from(text, word_end(text, index))
    }
}

#[via_fn]
proof fn words_from_decreases(text: Seq<char>, index: int) {
    if index < text.len() {
        lemma_word_end(text, index + 1);
    }
}

/// The words of a text.
pub open spec fn words_of(text: Seq<char>) -> Seq<Seq<char>> {
    words_from(text, 0)
}

/// The words of a text.
pub fn split_words(text: &str) -> (words: Vec<String>)
    ensures
        words.deep_view() == words_of(text@),
{
    let chars: Vec<char> = chars_of(text);
    let ghost whole = words_of(text@);
    let mut words: Vec<String> = Vec::new();
    let mut index: usize = 0;
    assert(words.deep_view() + whole =~= whole);
    while index < chars.len()
        invariant
            chars@ == text@,
            index <= chars.len(),
            words.deep_view() + words_from(text@, index as int) == whole,
        decreases chars.len() - index,
    {
        if chars[index].is_whitespace() {
            index += 1;
        } else {
            let start: usize = index;
            while index < chars.len() && !chars[index].is_whitespace()
                invariant
                    chars@ == text@,
                    start <= index <= chars.len(),
                    word_end(text@, start as int) == word_end(text@, index as int),
                decreases chars.len() - index,
            {
                index += 1;
            }
            assert(index == word_end(text@, start as int));
            let ghost before = words.deep_view();
            let word: String = text_of(&chars, start, index);
            let ghost own = word@;
            words.push(word);
            proof {
                let rest = words_from(text@, index as int);
                assert(words.deep_view() =~= before.push(own));
                assert(words.deep_view() + rest =~= before + (seq![own] + rest));
            }
        }
    }
    assert(words.deep_view() =~= whole);
    words
}

/// The first texts with a separator between them.
pub open spec fn joined(texts: Seq<Seq<char>>, separator: Seq<char>, count: int) -> Seq<char>
    decreases count,
{
    if count <= 0 {
        Seq::empty()
    } else if count == 1 {
        texts[0]
    } else {
        joined(texts, separator, count - 1) + separator + texts[count - 1]
    }
}

/// Texts that begin alike are joined alike.
pub proof fn lemma_joined_prefix(left: Seq<Seq<char>>, right: Seq<Seq<char>>, separator: Seq<char>, count: int)
    requires
        0 <= count <= left.len() <= right.len(),
        forall|i: int| 0 <= i < count ==> left[i] == right[i],
    ensures
        joined(left, separator, count) == joined(right, separator, count),
    decreases count,
{
    if count > 1 {
        lemma_joined_prefix(left, right, separator, count - 1);
    }
}

/// The first texts with a separator between them.
pub fn join_first(texts: &Vec<String>, separator: &str, count: usize) -> (text: String)
    requires
        count <= texts.len(),
    ensures
        text@ == joined(texts.deep_view(), separator@, count as int),
{
    let ghost model = texts.deep_view();
    let mut text: String = String::new();
    let mut index: usize = 0;
    assert(text@ =~= joined(model, separator@, 0));
    while index < count
        invariant
            index <= count <= texts.len(),
            model == texts.deep_view(),
            text@ == joined(model, separator@, index as int),
        decreases count - index,
    {
        assert(model[index as int] == texts[index as int]@);
        if index > 0 {
            text.append(separator);
        }
        text.append(texts[index].as_str());
        if index == 0 {
            assert(text@ =~= model[0]);
        }
        index += 1;
    }
    text
}

/// A text with its words one space apart.
pub open spec fn normalized(text: Seq<char>) -> Seq<char> {
    joined(words_of(text), " "@, words_of(text).len() as int)
}

/// A text with its words one space apart.
pub fn normalized_text(text: &str) -> (result: String)
    ensures
        result@ == normalized(text@),
{
    let words: Vec<String> = split_words(text);
    assert(words.deep_view().len() == words.len());
    join_first(&words, " ", words.len())
}

/// How many bytes a character takes as UTF-8.
pub open spec fn char_width(c: char) -> nat {
    encode_scalar(c as u32).len()
}

fn width_of(c: char) -> (width: usize)
    ensures
        width == char_width(c),
        1 <= width <= 4,
{
    let code: u32 = c as u32;
    if code < 0x80 {
        1
    } else if code < 0x800 {
        2
    } else if code < 0x1_0000 {
        3
    } else {
        4
    }
}

/// Each character adds its own bytes.
pub proof fn lemma_bytes_grow(text: Seq<char>, count: int)
    requires
        0 <= count < text.len(),
    ensures
        byte_len(text.take(count + 1)) == byte_len(text.take(count)) + char_width(text[count]),
    decreases count,
{
    let more = text.take(count + 1);
    let less = text.take(count);
    if count > 0 {
        lemma_bytes_grow(text.drop_first(), count - 1);
        assert(more.drop_first() =~= text.drop_first().take(count));
        assert(less.drop_first() =~= text.drop_first().take(count - 1));
        assert(text.drop_first()[count - 1] == text[count]);
    } else {
        assert(less =~= Seq::empty());
        assert(more.drop_first() =~= Seq::empty());
        assert(encode_utf8(more.drop_first()) =~= Seq::empty());
        assert(encode_utf8(less) =~= Seq::empty());
    }
}

/// How many of a text's characters, from some on, fit in so many bytes.
pub open spec fn fitting_from(text: Seq<char>, limit: int, count: int) -> int
    decreases text.len() - count,
{
    if count < 0 || count >= text.len() || byte_len(text.take(count + 1)) > limit {
        count
    } else {
        fitting_from(text, limit, count + 1)
    }
}

/// The longest beginning of a text that fits in so many bytes.
pub open spec fn fitting(text: Seq<char>, limit: int) -> Seq<char> {
    text.take(fitting_from(text, limit, 0))
}

/// The longest beginning of a text that fits in so many bytes.
pub fn fit_bytes(text: &str, limit: usize) -> (result: String)
    ensures
        result@ == fitting(text@, limit as int),
{
    let chars: Vec<char> = chars_of(text);
    let mut count: usize = 0;
    let mut used: usize = 0;
    assert(text@.take(0) =~= Seq::empty());
    assert(encode_utf8(text@.take(0)) =~= Seq::empty());
    while count < chars.len()
        invariant
            chars@ == text@,
            count <= chars.len(),
            used == byte_len(text@.take(count as int)),
            used <= limit,
            fitting_from(text@, limit as int, 0) == fitting_from(text@, limit as int, count as int),
        decreases chars.len() - count,
    {
        let width: usize = width_of(chars[count]);
        proof {
            lemma_bytes_grow(text@, count as int);
        }
        if width > limit - used {
            let beginning: String = text_of(&chars, 0, count);
            assert(beginning@ =~= text@.take(count as int));
            return beginning;
        }
        used = used + width;
        count = count + 1;
    }
    let result: String = text_of(&chars, 0, count);
    assert(result@ =~= text@.take(count as int));
    result
}

/// The words of a text are its stretches without whitespace, in order and none left out: each word is one of them, as
/// long as it can be, and what lies between two is whitespace.
pub proof fn words_are_what_stands_between_spaces(text: Seq<char>, from: int) -> (places: Seq<(int, int)>)
    requires
        0 <= from <= text.len(),
        from == 0 || from == text.len() || is_space(text[from - 1]) || is_space(text[from]),
    ensures
        places.len() == words_from(text, from).len(),
        forall|k: int|
            0 <= k < places.len() ==> {
                let (start, end) = #[trigger] places[k];
                &&& from <= start < end <= text.len()
                &&& words_from(text, from)[k] == text.subrange(start, end)
                &&& start == 0 || is_space(text[start - 1])
                &&& end == text.len() || is_space(text[end])
                &&& forall|i: int| start <= i < end ==> !is_space(#[trigger] text[i])
            },
        forall|j: int, k: int| 0 <= j < k < places.len() ==> (#[trigger] places[j]).1 < (#[trigger] places[k]).0,
        forall|i: int|
            from <= i < text.len() && !is_space(#[trigger] text[i]) ==> exists|k: int|
                0 <= k < places.len() && (#[trigger] places[k]).0 <= i < places[k].1,
    decreases text.len() - from,
{
    if from == text.len() {
        Seq::empty()
    } else if is_space(text[from]) {
        words_are_what_stands_between_spaces(text, from + 1)
    } else {
        let end = word_end(text, from);
        lemma_word_end(text, from + 1);
        lemma_word_runs(text, from);
        let rest = words_are_what_stands_between_spaces(text, end);
        let places = seq![(from, end)] + rest;
        let after = words_from(text, end);
        assert(words_from(text, from) == seq![text.subrange(from, end)] + after);
        assert forall|k: int| 1 <= k < places.len() implies #[trigger] places[k] == rest[k - 1] && words_from(
            text,
            from,
        )[k] == after[k - 1] by {
        }
        assert forall|j: int, k: int| 0 <= j < k < places.len() implies (#[trigger] places[j]).1 < (
        #[trigger] places[k]).0 by {
            assert(places[k] == rest[k - 1]);
            if j == 0 {
                assert(!is_space(text[rest[k - 1].0]));
            } else {
                assert(places[j] == rest[j - 1]);
            }
        }
        assert forall|i: int| from <= i < text.len() && !is_space(#[trigger] text[i]) implies exists|k: int|
            0 <= k < places.len() && (#[trigger] places[k]).0 <= i < places[k].1 by {
            if i < end {
                assert(places[0] == (from, end));
            } else {
                let k = choose|k: int| 0 <= k < rest.len() && (#[trigger] rest[k]).0 <= i < rest[k].1;
                assert(places[k + 1] == rest[k]);
            }
        }
        places
    }
}

proof fn lemma_word_runs(text: Seq<char>, start: int)
    requires
        0 <= start <= text.len(),
    ensures
        start <= word_end(text, start) <= text.len(),
        forall|i: int| start <= i < word_end(text, start) ==> !is_space(#[trigger] text[i]),
        word_end(text, start) == text.len() || is_space(text[word_end(text, start)]),
    decreases text.len() - start,
{
    if start < text.len() && !is_space(text[start]) {
        lemma_word_runs(text, start + 1);
    }
}

} // verus!
