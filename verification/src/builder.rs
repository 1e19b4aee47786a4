//! The selection buffer and the pattern list of one host.

use vstd::prelude::*;
use crate::compiler::regex_of;
use crate::engine::{
    are_successive, byte_length, engine_accepts, find_matches, match_spans, matches_or_nothing,
};
use crate::error::PatternError;
use crate::pattern::{lemma_pattern_views, pattern_views, Pattern, PatternView};
use crate::segmenter::{
    group_phrases, phrase_preview, preview_views, previewed, segment, segmented, PreviewElement,
};
use crate::selection::{
    clone_spans, sort_by_word_index, sorted_by_index, span_views, SelectionSpan, SpanView,
};

verus! {

/// Collects highlighted words, builds patterns from them, and keeps the patterns
/// in a list. A pattern is known to the host by its place in the list.
///
/// The builder stores nothing. The host gives it the stored patterns when it
/// makes the builder, and stores the list again after each call that says it
/// changed the list.
pub struct PatternBuilder {
    patterns: Vec<Pattern>,
    current_selections: Vec<SelectionSpan>,
}

/// What a [`PatternBuilder`] stands for: its patterns and the highlighted words
/// that wait to be built into one, each in order.
pub struct BuilderView {
    pub patterns: Seq<PatternView>,
    pub selections: Seq<SpanView>,
}

impl View for PatternBuilder {
    type V = BuilderView;

    closed spec fn view(&self) -> BuilderView {
        BuilderView {
            patterns: pattern_views(self.patterns@),
            selections: span_views(self.current_selections@),
        }
    }
}

/// The sequence pattern that highlighted words stand for, under an identifier and
/// a name.
pub open spec fn built_pattern(id: Seq<char>, name: Seq<char>, selections: Seq<SpanView>)
    -> PatternView {
    PatternView::Sequence { id, name, elements: segmented(selections) }
}

impl PatternBuilder {
    /// A builder that holds the given patterns and no highlighted word.
    pub fn new(patterns: Vec<Pattern>) -> (builder: PatternBuilder)
        ensures
            builder@.patterns == pattern_views(patterns@),
            builder@.selections == Seq::<SpanView>::empty(),
    {
        let builder = PatternBuilder { patterns, current_selections: Vec::new() };
        assert(builder@.selections =~= Seq::<SpanView>::empty());
        builder
    }

    /// Whether any highlighted word waits in the buffer, so that there is
    /// something to build.
    pub fn has_selections(&self) -> (any: bool)
        ensures
            any == (self@.selections.len() > 0),
    {
        self.current_selections.len() > 0
    }

    /// Adds a highlighted word at the end of the buffer.
    pub fn add_selection(
        &mut self,
        text: String,
        start_index: usize,
        end_index: usize,
        word_index: usize,
    )
        ensures
            final(self)@.patterns == old(self)@.patterns,
            final(self)@.selections == old(self)@.selections.push(
                SpanView {
                    text: text@,
                    start_index: start_index as nat,
                    end_index: end_index as nat,
                    word_index: word_index as nat,
                },
            ),
    {
        let selection = SelectionSpan { text, start_index, end_index, word_index };
        self.current_selections.push(selection);
        assert(final(self)@.selections =~= old(self)@.selections.push(selection@));
    }

    /// Empties the buffer.
    pub fn clear_selections(&mut self)
        ensures
            final(self)@.patterns == old(self)@.patterns,
            final(self)@.selections == Seq::<SpanView>::empty(),
    {
        self.current_selections.clear();
        assert(final(self)@.selections =~= Seq::<SpanView>::empty());
    }

    /// Takes the highlighted word at place `index` out of the buffer; does nothing
    /// when there is no such place.
    pub fn remove_selection(&mut self, index: usize)
        ensures
            final(self)@.patterns == old(self)@.patterns,
            final(self)@.selections == if index < old(self)@.selections.len() {
                old(self)@.selections.remove(index as int)
            } else {
                old(self)@.selections
            },
    {
        if index < self.current_selections.len() {
            self.current_selections.remove(index);
            assert(final(self)@.selections =~= old(self)@.selections.remove(index as int));
        }
    }

    /// Builds a sequence pattern from the highlighted words, adds it at the end of
    /// the list, and returns the regular expression it compiles to.
    ///
    /// With no word highlighted it fails and changes nothing, so nothing is to be
    /// stored. Otherwise the list has changed and is to be stored; the highlighted
    /// words stay in the buffer, in the order of the text, until
    /// `clear_selections` is called, which the host does once the list is stored.
    pub fn build_sequence_pattern(&mut self, name: String, id: String) -> (result: Result<
        String,
        PatternError,
    >)
        ensures
            old(self)@.selections.len() == 0 ==> result == Err::<String, PatternError>(
                PatternError::EmptySelection,
            ) && final(self)@ == old(self)@,
            old(self)@.selections.len() > 0 ==> {
                let built = built_pattern(id@, name@, old(self)@.selections);
                &&& result is Ok
                &&& result->Ok_0@ == regex_of(built)
                &&& final(self)@.patterns == old(self)@.patterns.push(built)
                &&& final(self)@.selections == sorted_by_index(old(self)@.selections)
            },
    {
        let elements = match segment(&mut self.current_selections) {
            Ok(elements) => elements,
            Err(error) => {
                return Err(error);
            },
        };
        let pattern = Pattern::Sequence { id, name, elements };
        let regex = pattern.to_regex();
        proof {
            let before = old(self).patterns@;
            assert(before.push(pattern).drop_last() == before);
        }
        self.patterns.push(pattern);
        Ok(regex)
    }

    /// The patterns, in the order of the list.
    pub fn get_patterns(&self) -> (patterns: &Vec<Pattern>)
        ensures
            pattern_views(patterns@) == self@.patterns,
    {
        &self.patterns
    }

    /// Shows what `build_sequence_pattern` would build from the highlighted
    /// words, or nothing when no word is highlighted. The buffer stays as it is.
    pub fn get_pattern_preview(&self) -> (preview: Option<Vec<PreviewElement>>)
        ensures
            self@.selections.len() == 0 ==> preview is None,
            self@.selections.len() > 0 ==> preview is Some && preview_views(preview->Some_0@)
                == previewed(self@.selections),
    {
        if self.current_selections.len() == 0 {
            return None;
        }
        let mut sorted = clone_spans(&self.current_selections);
        sort_by_word_index(&mut sorted);
        let phrases = group_phrases(&sorted);
        Some(phrase_preview(&phrases))
    }

    /// The regular expression that the pattern at place `pattern_index` compiles
    /// to, or nothing when the list has no such place.
    pub fn regex_at(&self, pattern_index: usize) -> (regex: Option<String>)
        ensures
            pattern_index >= self@.patterns.len() ==> regex is None,
            pattern_index < self@.patterns.len() ==> regex is Some && regex->Some_0@ == regex_of(
                self@.patterns[pattern_index as int],
            ),
    {
        proof {
            lemma_pattern_views(self.patterns@);
        }
        if pattern_index < self.patterns.len() {
            Some(self.patterns[pattern_index].to_regex())
        } else {
            None
        }
    }

    /// Runs the pattern at place `pattern_index` over the text and returns its
    /// matches from left to right, each as the byte offsets of its begin and end.
    ///
    /// There is no result when the list has no such place, nor when the engine
    /// does not accept the expression that the pattern compiles to. A pattern
    /// that matches nowhere gives an empty list.
    pub fn test_pattern(&self, pattern_index: usize, text: &str) -> (found: Option<
        Vec<(usize, usize)>,
    >)
        ensures
            found is Some <==> pattern_index < self@.patterns.len() && engine_accepts(
                regex_of(self@.patterns[pattern_index as int]),
            ),
            found matches Some(spans) ==> spans@ == match_spans(
                regex_of(self@.patterns[pattern_index as int]),
                text@,
            ) && are_successive(spans@, byte_length(text@)),
    {
        match self.regex_at(pattern_index) {
            Some(regex) => matches_or_nothing(find_matches(regex.as_str(), text)),
            None => None,
        }
    }

    /// Takes the pattern at place `index` out of the list, and says whether it did:
    /// when the list has no such place, nothing changes and nothing is to be
    /// stored.
    pub fn delete_pattern(&mut self, index: usize) -> (removed: bool)
        ensures
            removed == (index < old(self)@.patterns.len()),
            removed ==> final(self)@.patterns == old(self)@.patterns.remove(index as int),
            !removed ==> final(self)@.patterns == old(self)@.patterns,
            final(self)@.selections == old(self)@.selections,
    {
        proof {
            lemma_pattern_views(self.patterns@);
        }
        if index < self.patterns.len() {
            proof {
                lemma_pattern_views(self.patterns@.remove(index as int));
            }
            self.patterns.remove(index);
            assert(final(self)@.patterns =~= old(self)@.patterns.remove(index as int));
            true
        } else {
            false
        }
    }
}

} // verus!
