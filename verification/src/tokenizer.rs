//! What counts as a word, and where the words of a text lie.
//!
//! A text is read as a sequence of characters, and every offset counts characters.

use vstd::prelude::*;
use crate::text::{chars_of, string_of};

verus! {

/// Whether the character belongs to a word: what `char::is_alphanumeric` answers.
pub uninterp spec fn is_word_char(c: char) -> bool;

/// Calls `char::is_alphanumeric`. Its answer depends on the character alone, and
/// the contract gives that answer the name `is_word_char`.
#[verifier::external_body]
fn is_alphanumeric(c: char) -> (answer: bool)
    ensures
        answer == is_word_char(c),
{
    c.is_alphanumeric()
}

/// A word of a text: its characters, where it lies, and its rank among the words.
#[derive(Debug, PartialEq, Eq)]
pub struct WordInfo {
    pub text: String,
    pub start_index: usize,
    pub end_index: usize,
    pub word_index: usize,
}

/// What a [`WordInfo`] stands for.
pub struct WordView {
    pub text: Seq<char>,
    pub start_index: nat,
    pub end_index: nat,
    pub word_index: nat,
}

impl View for WordInfo {
    type V = WordView;

    open spec fn view(&self) -> WordView {
        WordView {
            text: self.text@,
            start_index: self.start_index as nat,
            end_index: self.end_index as nat,
            word_index: self.word_index as nat,
        }
    }
}

impl Clone for WordInfo {
    fn clone(&self) -> (copy: WordInfo)
        ensures
            copy@ == self@,
    {
        WordInfo {
            text: self.text.clone(),
            start_index: self.start_index,
            end_index: self.end_index,
            word_index: self.word_index,
        }
    }
}

/// The models of a list of words, in order.
pub open spec fn word_views(words: Seq<WordInfo>) -> Seq<WordView> {
    words.map_values(|word: WordInfo| word@)
}

/// Whether the characters from `start` up to `end` are a word of the text: a run
/// of word characters, not empty, that no word character touches on either side.
pub open spec fn is_word_at(text: Seq<char>, start: int, end: int) -> bool {
    &&& 0 <= start < end <= text.len()
    &&& forall|k: int| start <= k < end ==> is_word_char(#[trigger] text[k])
    &&& (start == 0 || !is_word_char(text[start - 1]))
    &&& (end == text.len() || !is_word_char(text[end]))
}

impl WordView {
    /// Whether the word lies over the position `k`.
    pub open spec fn covers(self, k: int) -> bool {
        self.start_index <= k < self.end_index
    }

    /// Whether this is the word of rank `rank` of the text, for some place in it.
    pub open spec fn is_word_of(self, text: Seq<char>, rank: int) -> bool {
        &&& self.word_index == rank
        &&& is_word_at(text, self.start_index as int, self.end_index as int)
        &&& self.text == text.subrange(self.start_index as int, self.end_index as int)
    }
}

/// Whether `words` are the words of the first `upto` characters of the text, from
/// left to right: each one a word of the text with its rank, none overlapping
/// another, and every word character before `upto` inside one of them.
pub open spec fn are_words_upto(text: Seq<char>, words: Seq<WordView>, upto: int) -> bool {
    &&& forall|i: int| 0 <= i < words.len() ==> (#[trigger] words[i]).is_word_of(text, i)
    &&& forall|i: int| 0 <= i < words.len() ==> (#[trigger] words[i]).end_index <= upto
    &&& forall|i: int, j: int|
        0 <= i < j < words.len() ==> (#[trigger] words[i]).end_index < (
        #[trigger] words[j]).start_index
    &&& forall|k: int|
        0 <= k < upto && is_word_char(#[trigger] text[k]) ==> exists|i: int|
            0 <= i < words.len() && (#[trigger] words[i]).covers(k)
}

/// Whether `words` are the words of the text, from left to right.
pub open spec fn are_words_of(text: Seq<char>, words: Seq<WordView>) -> bool {
    are_words_upto(text, words, text.len() as int)
}

/// Two words of a text that lie over one position are the same run of characters.
pub proof fn lemma_word_at_is_unique(
    text: Seq<char>,
    start: int,
    end: int,
    other_start: int,
    other_end: int,
    position: int,
)
    requires
        is_word_at(text, start, end),
        is_word_at(text, other_start, other_end),
        start <= position < end,
        other_start <= position < other_end,
    ensures
        start == other_start,
        end == other_end,
{
    if start < other_start {
        assert(is_word_char(text[other_start - 1]));
    }
    if other_start < start {
        assert(is_word_char(text[start - 1]));
    }
    if end < other_end {
        assert(is_word_char(text[end]));
    }
    if other_end < end {
        assert(is_word_char(text[other_end]));
    }
}

proof fn lemma_words_agree_upto(text: Seq<char>, first: Seq<WordView>, second: Seq<WordView>, i: int)
    requires
        are_words_of(text, first),
        are_words_of(text, second),
        0 <= i < first.len(),
    ensures
        i < second.len(),
        first[i] == second[i],
    decreases i,
{
    if i > 0 {
        lemma_words_agree_upto(text, first, second, i - 1);
    }
    assert forall|k: int| 0 <= k < i implies k < second.len() && first[k] == second[k] by {
        lemma_words_agree_upto(text, first, second, k);
    }
    let word = first[i];
    let position = word.start_index as int;
    assert(word.is_word_of(text, i));
    assert(is_word_char(text[position]));
    let j = choose|j: int| 0 <= j < second.len() && (#[trigger] second[j]).covers(position);
    assert(second[j].is_word_of(text, j));
    if j < i {
        assert(first[j] == second[j]);
        assert(first[j].end_index < first[i].start_index);
    } else if j > i {
        let other = second[i];
        let before = other.start_index as int;
        assert(other.is_word_of(text, i));
        assert(other.end_index < second[j].start_index);
        assert(is_word_char(text[before]));
        let k = choose|k: int| 0 <= k < first.len() && (#[trigger] first[k]).covers(before);
        if k < i {
            assert(first[k] == second[k]);
            assert(second[k].end_index < second[i].start_index);
        } else if k > i {
            assert(first[i].end_index < first[k].start_index);
        }
    }
    assert(j == i);
    lemma_word_at_is_unique(
        text,
        word.start_index as int,
        word.end_index as int,
        second[i].start_index as int,
        second[i].end_index as int,
        position,
    );
}

/// A text has one list of words, and no other: two lists that are both the
/// words of the text are equal.
pub proof fn lemma_words_are_unique(text: Seq<char>, first: Seq<WordView>, second: Seq<WordView>)
    requires
        are_words_of(text, first),
        are_words_of(text, second),
    ensures
        first == second,
{
    if first.len() > 0 {
        lemma_words_agree_upto(text, first, second, first.len() - 1);
    }
    if second.len() > 0 {
        lemma_words_agree_upto(text, second, first, second.len() - 1);
    }
    assert forall|i: int| 0 <= i < first.len() implies first[i] == second[i] by {
        lemma_words_agree_upto(text, first, second, i);
    }
    assert(first =~= second);
}

/// Splits the text into its words.
///
/// Every maximal run of alphanumeric characters is one word; all other characters
/// separate words and belong to none. The words come from left to right, ranked
/// from 0, and `end_index` is the offset just after the word.
pub fn get_words_from_text(text: &str) -> (words: Vec<WordInfo>)
    ensures
        are_words_of(text@, word_views(words@)),
{
    let chars = chars_of(text);
    let mut words: Vec<WordInfo> = Vec::new();
    let mut i: usize = 0;
    while i < chars.len()
        invariant
            chars@ == text@,
            i <= chars.len(),
            i < chars.len() ==> i == 0 || !is_word_char(chars@[i - 1]),
            i < chars.len() ==> forall|t: int|
                0 <= t < words.len() ==> (#[trigger] words@[t]).end_index < i,
            are_words_upto(text@, word_views(words@), i as int),
        decreases chars.len() - i,
    {
        if is_alphanumeric(chars[i]) {
            let start: usize = i;
            while i < chars.len() && is_alphanumeric(chars[i])
                invariant
                    start <= i <= chars.len(),
                    forall|k: int| start <= k < i ==> is_word_char(#[trigger] chars@[k]),
                decreases chars.len() - i,
            {
                i += 1;
            }
            let word = WordInfo {
                text: string_of(&chars, start, i),
                start_index: start,
                end_index: i,
                word_index: words.len(),
            };
            proof {
                let before = word_views(words@);
                let after = word_views(words@.push(word));
                assert(after =~= before.push(word@));
                assert(word@.is_word_of(text@, before.len() as int));
                assert forall|k: int|
                    0 <= k < i && is_word_char(#[trigger] text@[k]) implies exists|t: int|
                    0 <= t < after.len() && (#[trigger] after[t]).covers(k) by {
                    if k < start {
                        let t = choose|t: int| 0 <= t < before.len() && (#[trigger] before[t]).covers(k);
                        assert(after[t].covers(k));
                    } else {
                        assert(after[before.len() as int].covers(k));
                    }
                }
            }
            words.push(word);
            if i < chars.len() {
                i += 1;
            }
        } else {
            i += 1;
        }
    }
    words
}

/// Where the run of word characters that ends just before `position` begins;
/// `position` itself when the character before it is none.
pub open spec fn word_start(text: Seq<char>, position: int) -> int
    decreases position,
{
    if 0 < position <= text.len() && is_word_char(text[position - 1]) {
        word_start(text, position - 1)
    } else {
        position
    }
}

/// Where the run of word characters that begins at `position` ends; `position`
/// itself when the character there is none.
pub open spec fn word_end(text: Seq<char>, position: int) -> int
    decreases text.len() - position,
{
    if 0 <= position < text.len() && is_word_char(text[position]) {
        word_end(text, position + 1)
    } else {
        position
    }
}

/// The word that lies over `position` or ends just before it, if there is one:
/// the characters from `word_start` up to `word_end`.
pub open spec fn word_at(text: Seq<char>, position: int) -> Option<Seq<char>> {
    if 0 <= position < text.len() && word_start(text, position) < word_end(text, position) {
        Some(text.subrange(word_start(text, position), word_end(text, position)))
    } else {
        None
    }
}

proof fn lemma_word_start(text: Seq<char>, start: int, end: int, position: int)
    requires
        is_word_at(text, start, end),
        start <= position <= end,
    ensures
        word_start(text, position) == start,
    decreases position - start,
{
    if position > start {
        assert(is_word_char(text[position - 1]));
        lemma_word_start(text, start, end, position - 1);
    }
}

proof fn lemma_word_end(text: Seq<char>, start: int, end: int, position: int)
    requires
        is_word_at(text, start, end),
        start <= position <= end,
    ensures
        word_end(text, position) == end,
    decreases end - position,
{
    if position < end {
        assert(is_word_char(text[position]));
        lemma_word_end(text, start, end, position + 1);
    }
}

/// At every position of a word of the text, and at the position just after it,
/// `word_at` is that word.
pub proof fn lemma_word_at_in_word(text: Seq<char>, start: int, end: int, position: int)
    requires
        is_word_at(text, start, end),
        start <= position <= end,
        position < text.len(),
    ensures
        word_at(text, position) == Some(text.subrange(start, end)),
{
    lemma_word_start(text, start, end, position);
    lemma_word_end(text, start, end, position);
}

/// The word under the character at offset `position`.
///
/// Grows to the left and to the right of `position` while the characters are
/// alphanumeric. There is no word when `position` is past the last character, or
/// when neither the character there nor the one before it is alphanumeric.
pub fn get_word_at_position(text: &str, position: usize) -> (word: Option<String>)
    ensures
        match word {
            Some(found) => word_at(text@, position as int) == Some(found@),
            None => word_at(text@, position as int) is None,
        },
{
    let chars = chars_of(text);
    if position >= chars.len() {
        return None;
    }
    let mut start: usize = position;
    while start > 0 && is_alphanumeric(chars[start - 1])
        invariant
            chars@ == text@,
            start <= position < chars.len(),
            word_start(text@, position as int) == word_start(text@, start as int),
        decreases start,
    {
        start -= 1;
    }
    let mut end: usize = position;
    while end < chars.len() && is_alphanumeric(chars[end])
        invariant
            chars@ == text@,
            position <= end <= chars.len(),
            word_end(text@, position as int) == word_end(text@, end as int),
        decreases chars.len() - end,
    {
        end += 1;
    }
    if start < end {
        Some(string_of(&chars, start, end))
    } else {
        None
    }
}

} // verus!
