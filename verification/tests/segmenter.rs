use regexgen::segmenter::{group_phrases, phrase_elements, phrase_preview, segment};
use regexgen::selection::{clone_spans, sort_by_word_index};
use regexgen::{PatternElement, PatternError, Phrase, PreviewElement, PreviewKind, SelectionSpan};

fn span(text: &str, word_index: usize) -> SelectionSpan {
    SelectionSpan { text: text.to_string(), start_index: 0, end_index: text.len(), word_index }
}

fn word(text: &str) -> PatternElement {
    PatternElement::Word { text: text.to_string() }
}

fn open_gap() -> PatternElement {
    PatternElement::Gap { min_words: 0, max_words: None }
}

fn phrase(text: &str, word_count: usize) -> Phrase {
    Phrase { text: text.to_string(), word_count }
}

fn shown(kind: PreviewKind, text: &str) -> PreviewElement {
    PreviewElement { kind, text: text.to_string() }
}

#[test]
fn neighbours_make_one_phrase() {
    let mut selections = vec![span("the", 0), span("quick", 1), span("fox", 2)];
    assert_eq!(segment(&mut selections), Ok(vec![word("the quick fox")]));
}

#[test]
fn distant_words_get_a_gap() {
    let mut selections = vec![span("the", 0), span("fox", 2)];
    assert_eq!(segment(&mut selections), Ok(vec![word("the"), open_gap(), word("fox")]));
}

#[test]
fn nothing_selected_is_an_error() {
    let mut selections: Vec<SelectionSpan> = Vec::new();
    assert_eq!(segment(&mut selections), Err(PatternError::EmptySelection));
    assert!(selections.is_empty());
}

#[test]
fn one_word_is_one_element() {
    let mut selections = vec![span("fox", 7)];
    assert_eq!(segment(&mut selections), Ok(vec![word("fox")]));
}

#[test]
fn selections_are_taken_in_text_order() {
    let mut selections = vec![span("fox", 2), span("the", 0), span("quick", 1)];
    assert_eq!(segment(&mut selections), Ok(vec![word("the quick fox")]));
    assert_eq!(selections, vec![span("the", 0), span("quick", 1), span("fox", 2)]);
}

#[test]
fn phrases_and_single_words_alternate_with_gaps() {
    let mut selections =
        vec![span("lazy", 8), span("the", 0), span("dog", 9), span("quick", 1), span("jumps", 4)];
    assert_eq!(
        segment(&mut selections),
        Ok(vec![word("the quick"), open_gap(), word("jumps"), open_gap(), word("lazy dog")])
    );
}

#[test]
fn a_word_selected_twice_is_not_its_own_neighbour() {
    let mut selections = vec![span("the", 0), span("the", 0), span("quick", 1)];
    assert_eq!(segment(&mut selections), Ok(vec![word("the"), open_gap(), word("the quick")]));
}

#[test]
fn the_greatest_rank_has_no_neighbour_after_it() {
    let mut selections = vec![span("last", usize::MAX), span("first", 0)];
    assert_eq!(segment(&mut selections), Ok(vec![word("first"), open_gap(), word("last")]));
}

#[test]
fn sort_orders_by_rank() {
    let mut spans = vec![span("d", 3), span("b", 1), span("e", 4), span("a", 0), span("c", 2)];
    sort_by_word_index(&mut spans);
    assert_eq!(spans, vec![span("a", 0), span("b", 1), span("c", 2), span("d", 3), span("e", 4)]);
}

#[test]
fn sort_keeps_the_order_of_equal_ranks() {
    let mut spans =
        vec![span("x", 2), span("first", 1), span("y", 0), span("second", 1), span("third", 1)];
    sort_by_word_index(&mut spans);
    assert_eq!(
        spans,
        vec![span("y", 0), span("first", 1), span("second", 1), span("third", 1), span("x", 2)]
    );
}

#[test]
fn sort_leaves_sorted_and_empty_lists_alone() {
    let mut spans = vec![span("a", 0), span("b", 5), span("c", 9)];
    sort_by_word_index(&mut spans);
    assert_eq!(spans, vec![span("a", 0), span("b", 5), span("c", 9)]);
    let mut none: Vec<SelectionSpan> = Vec::new();
    sort_by_word_index(&mut none);
    assert!(none.is_empty());
}

#[test]
fn sort_reverses_a_descending_list() {
    let mut spans = vec![span("c", 9), span("b", 5), span("a", 0)];
    sort_by_word_index(&mut spans);
    assert_eq!(spans, vec![span("a", 0), span("b", 5), span("c", 9)]);
}

#[test]
fn copies_of_spans_are_equal() {
    let spans = vec![
        SelectionSpan { text: "quick".to_string(), start_index: 4, end_index: 9, word_index: 1 },
        span("fox", 2),
    ];
    assert_eq!(clone_spans(&spans), spans);
    assert_eq!(spans[0].clone(), spans[0]);
}

#[test]
fn grouping_takes_the_spans_as_they_stand() {
    let spans = vec![span("b", 1), span("c", 2), span("a", 0), span("b", 1)];
    assert_eq!(group_phrases(&spans), vec![phrase("b c", 2), phrase("a b", 2)]);
}

#[test]
fn grouping_counts_the_words_of_each_phrase() {
    let spans = vec![span("a", 0), span("b", 1), span("c", 2), span("e", 4), span("g", 6), span("h", 7)];
    assert_eq!(group_phrases(&spans), vec![phrase("a b c", 3), phrase("e", 1), phrase("g h", 2)]);
    assert_eq!(group_phrases(&Vec::new()), Vec::<Phrase>::new());
}

#[test]
fn elements_alternate_words_and_gaps() {
    let phrases = vec![phrase("a b", 2), phrase("c", 1), phrase("d e f", 3)];
    assert_eq!(
        phrase_elements(&phrases),
        vec![word("a b"), open_gap(), word("c"), open_gap(), word("d e f")]
    );
    assert_eq!(phrase_elements(&Vec::new()), Vec::<PatternElement>::new());
}

#[test]
fn preview_names_words_phrases_and_links() {
    let phrases = vec![phrase("a b", 2), phrase("c", 1), phrase("d e f", 3)];
    assert_eq!(
        phrase_preview(&phrases),
        vec![
            shown(PreviewKind::Phrase, "a b"),
            shown(PreviewKind::And, "AND"),
            shown(PreviewKind::Word, "c"),
            shown(PreviewKind::And, "AND"),
            shown(PreviewKind::Phrase, "d e f"),
        ]
    );
    assert_eq!(phrase_preview(&Vec::new()), Vec::<PreviewElement>::new());
}

#[test]
fn preview_kinds_have_labels() {
    assert_eq!(PreviewKind::Word.label(), "word");
    assert_eq!(PreviewKind::Phrase.label(), "phrase");
    assert_eq!(PreviewKind::And.label(), "and");
}

#[test]
fn preview_and_elements_have_the_same_shape() {
    let spans = vec![span("e", 4), span("a", 0), span("b", 1), span("h", 7), span("g", 6)];
    let mut sorted = clone_spans(&spans);
    sort_by_word_index(&mut sorted);
    let phrases = group_phrases(&sorted);
    let elements = phrase_elements(&phrases);
    let preview = phrase_preview(&phrases);
    assert_eq!(elements.len(), preview.len());
    for (element, part) in elements.iter().zip(preview.iter()) {
        match element {
            PatternElement::Word { text } => {
                assert_ne!(part.kind, PreviewKind::And);
                assert_eq!(&part.text, text);
            }
            _ => assert_eq!(part, &shown(PreviewKind::And, "AND")),
        }
    }
}

#[test]
fn empty_selection_has_a_message() {
    assert_eq!(PatternError::EmptySelection.message(), "No selections to build pattern from");
}
