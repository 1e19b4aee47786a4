use regexgen::{
    CompositeOperator, Pattern, PatternBuilder, PatternElement, PatternError, PreviewElement,
    PreviewKind,
};

fn word(text: &str) -> PatternElement {
    PatternElement::Word { text: text.to_string() }
}

fn open_gap() -> PatternElement {
    PatternElement::Gap { min_words: 0, max_words: None }
}

fn sequence(id: &str, name: &str, elements: Vec<PatternElement>) -> Pattern {
    Pattern::Sequence { id: id.to_string(), name: name.to_string(), elements }
}

fn composite(operator: CompositeOperator, patterns: Vec<Pattern>) -> Pattern {
    Pattern::Composite { id: "c".to_string(), name: "composite".to_string(), operator, patterns }
}

fn shown(kind: PreviewKind, text: &str) -> PreviewElement {
    PreviewElement { kind, text: text.to_string() }
}

fn builder_with(patterns: Vec<Pattern>) -> PatternBuilder {
    PatternBuilder::new(patterns)
}

#[test]
fn new_builder_holds_the_given_patterns() {
    let stored = vec![sequence("1", "cat", vec![word("cat")])];
    let builder = PatternBuilder::new(stored.clone());
    assert_eq!(builder.get_patterns(), &stored);
    assert_eq!(builder.get_pattern_preview(), None);
    assert!(PatternBuilder::new(Vec::new()).get_patterns().is_empty());
}

#[test]
fn building_from_nothing_fails_and_changes_nothing() {
    let stored = vec![sequence("1", "cat", vec![word("cat")])];
    let mut builder = PatternBuilder::new(stored.clone());
    assert_eq!(
        builder.build_sequence_pattern("empty".to_string(), "2".to_string()),
        Err(PatternError::EmptySelection)
    );
    assert_eq!(builder.get_patterns(), &stored);
    assert_eq!(builder.get_pattern_preview(), None);
}

#[test]
fn building_adds_a_pattern_and_returns_its_expression() {
    let mut builder = builder_with(Vec::new());
    builder.add_selection("fox".to_string(), 10, 13, 2);
    builder.add_selection("the".to_string(), 0, 3, 0);
    let regex = builder.build_sequence_pattern("the fox".to_string(), "17-3".to_string());
    assert_eq!(regex, Ok(r"\bthe\b.*?\bfox\b".to_string()));
    assert_eq!(
        builder.get_patterns(),
        &vec![sequence("17-3", "the fox", vec![word("the"), open_gap(), word("fox")])]
    );
}

#[test]
fn building_from_neighbours_gives_one_phrase() {
    let mut builder = builder_with(Vec::new());
    builder.add_selection("the".to_string(), 0, 3, 0);
    builder.add_selection("quick".to_string(), 4, 9, 1);
    builder.add_selection("fox".to_string(), 10, 13, 2);
    let regex = builder.build_sequence_pattern("phrase".to_string(), "1".to_string());
    assert_eq!(regex, Ok(r"\bthe quick fox\b".to_string()));
    assert_eq!(builder.get_patterns(), &vec![sequence("1", "phrase", vec![word("the quick fox")])]);
}

#[test]
fn new_patterns_go_to_the_end_of_the_list() {
    let first = sequence("1", "cat", vec![word("cat")]);
    let mut builder = builder_with(vec![first.clone()]);
    builder.add_selection("dog".to_string(), 0, 3, 0);
    assert!(builder.build_sequence_pattern("dog".to_string(), "2".to_string()).is_ok());
    assert_eq!(builder.get_patterns(), &vec![first, sequence("2", "dog", vec![word("dog")])]);
}

#[test]
fn built_words_stay_in_text_order_until_cleared() {
    let mut builder = builder_with(Vec::new());
    builder.add_selection("fox".to_string(), 10, 13, 2);
    builder.add_selection("the".to_string(), 0, 3, 0);
    assert!(builder.build_sequence_pattern("p".to_string(), "1".to_string()).is_ok());
    builder.remove_selection(0);
    assert_eq!(builder.get_pattern_preview(), Some(vec![shown(PreviewKind::Word, "fox")]));
    builder.clear_selections();
    assert_eq!(builder.get_pattern_preview(), None);
    assert_eq!(
        builder.build_sequence_pattern("q".to_string(), "2".to_string()),
        Err(PatternError::EmptySelection)
    );
    assert_eq!(builder.get_patterns().len(), 1);
}

#[test]
fn preview_shows_words_phrases_and_links() {
    let mut builder = builder_with(Vec::new());
    builder.add_selection("dog".to_string(), 40, 43, 8);
    builder.add_selection("quick".to_string(), 4, 9, 1);
    builder.add_selection("the".to_string(), 0, 3, 0);
    assert_eq!(
        builder.get_pattern_preview(),
        Some(vec![
            shown(PreviewKind::Phrase, "the quick"),
            shown(PreviewKind::And, "AND"),
            shown(PreviewKind::Word, "dog"),
        ])
    );
}

#[test]
fn preview_leaves_the_buffer_as_it_is() {
    let mut builder = builder_with(Vec::new());
    builder.add_selection("fox".to_string(), 10, 13, 2);
    builder.add_selection("the".to_string(), 0, 3, 0);
    let first = builder.get_pattern_preview();
    assert_eq!(builder.get_pattern_preview(), first);
    builder.remove_selection(0);
    assert_eq!(builder.get_pattern_preview(), Some(vec![shown(PreviewKind::Word, "the")]));
}

#[test]
fn preview_agrees_with_what_is_built() {
    let mut builder = builder_with(Vec::new());
    builder.add_selection("jumps".to_string(), 20, 25, 4);
    builder.add_selection("the".to_string(), 0, 3, 0);
    builder.add_selection("quick".to_string(), 4, 9, 1);
    let preview = builder.get_pattern_preview().unwrap();
    assert!(builder.build_sequence_pattern("p".to_string(), "1".to_string()).is_ok());
    let elements = match &builder.get_patterns()[0] {
        Pattern::Sequence { elements, .. } => elements.clone(),
        Pattern::Composite { .. } => panic!("a sequence was built"),
    };
    assert_eq!(elements, vec![word("the quick"), open_gap(), word("jumps")]);
    assert_eq!(
        preview,
        vec![
            shown(PreviewKind::Phrase, "the quick"),
            shown(PreviewKind::And, "AND"),
            shown(PreviewKind::Word, "jumps"),
        ]
    );
}

#[test]
fn removing_a_selection_by_place() {
    let mut builder = builder_with(Vec::new());
    builder.add_selection("a".to_string(), 0, 1, 0);
    builder.add_selection("b".to_string(), 2, 3, 1);
    builder.add_selection("c".to_string(), 4, 5, 2);
    builder.remove_selection(1);
    assert_eq!(
        builder.get_pattern_preview(),
        Some(vec![
            shown(PreviewKind::Word, "a"),
            shown(PreviewKind::And, "AND"),
            shown(PreviewKind::Word, "c"),
        ])
    );
}

#[test]
fn removing_a_selection_out_of_range_does_nothing() {
    let mut builder = builder_with(Vec::new());
    builder.add_selection("a".to_string(), 0, 1, 0);
    builder.remove_selection(1);
    builder.remove_selection(usize::MAX);
    assert_eq!(builder.get_pattern_preview(), Some(vec![shown(PreviewKind::Word, "a")]));
    builder.remove_selection(0);
    assert_eq!(builder.get_pattern_preview(), None);
    builder.remove_selection(0);
    assert_eq!(builder.get_pattern_preview(), None);
}

#[test]
fn clearing_empties_the_buffer_and_keeps_the_list() {
    let stored = vec![sequence("1", "cat", vec![word("cat")])];
    let mut builder = builder_with(stored.clone());
    builder.add_selection("a".to_string(), 0, 1, 0);
    builder.clear_selections();
    assert_eq!(builder.get_pattern_preview(), None);
    assert_eq!(builder.get_patterns(), &stored);
}

#[test]
fn deleting_takes_the_pattern_out() {
    let first = sequence("1", "cat", vec![word("cat")]);
    let second = sequence("2", "dog", vec![word("dog")]);
    let third = sequence("3", "fox", vec![word("fox")]);
    let mut builder = builder_with(vec![first.clone(), second, third.clone()]);
    assert!(builder.delete_pattern(1));
    assert_eq!(builder.get_patterns(), &vec![first, third]);
}

#[test]
fn deleting_out_of_range_does_nothing() {
    let stored = vec![sequence("1", "cat", vec![word("cat")])];
    let mut builder = builder_with(stored.clone());
    builder.add_selection("a".to_string(), 0, 1, 0);
    assert!(!builder.delete_pattern(1));
    assert!(!builder.delete_pattern(usize::MAX));
    assert!(!builder.delete_pattern(1));
    assert_eq!(builder.get_patterns(), &stored);
    assert_eq!(builder.get_pattern_preview(), Some(vec![shown(PreviewKind::Word, "a")]));
    assert!(!PatternBuilder::new(Vec::new()).delete_pattern(0));
}

#[test]
fn testing_finds_the_matches_from_left_to_right() {
    let builder = builder_with(vec![sequence("1", "cat", vec![word("cat")])]);
    assert_eq!(builder.test_pattern(0, "a cat and a cat"), Some(vec![(2, 5), (12, 15)]));
}

#[test]
fn testing_counts_bytes() {
    let builder = builder_with(vec![sequence("1", "cat", vec![word("cat")])]);
    assert_eq!(builder.test_pattern(0, "é cat"), Some(vec![(3, 6)]));
}

#[test]
fn no_match_is_an_empty_list() {
    let builder = builder_with(vec![sequence("1", "cat", vec![word("cat")])]);
    assert_eq!(builder.test_pattern(0, "the dog ran away"), Some(Vec::new()));
    assert_eq!(builder.test_pattern(0, "concatenate"), Some(Vec::new()));
}

#[test]
fn testing_out_of_range_gives_no_result() {
    let builder = builder_with(vec![sequence("1", "cat", vec![word("cat")])]);
    assert_eq!(builder.test_pattern(1, "a cat"), None);
    assert_eq!(builder.test_pattern(usize::MAX, "a cat"), None);
    assert_eq!(PatternBuilder::new(Vec::new()).test_pattern(0, "a cat"), None);
}

#[test]
fn an_ill_formed_gap_gives_no_result() {
    let gap = PatternElement::Gap { min_words: 3, max_words: Some(1) };
    let builder = builder_with(vec![sequence("1", "bad", vec![word("a"), gap, word("b")])]);
    assert_eq!(builder.test_pattern(0, "a x y z b"), None);
}

#[test]
fn a_built_pattern_matches_across_the_gap() {
    let mut builder = builder_with(Vec::new());
    builder.add_selection("fox".to_string(), 10, 13, 2);
    builder.add_selection("the".to_string(), 0, 3, 0);
    assert!(builder.build_sequence_pattern("p".to_string(), "1".to_string()).is_ok());
    assert_eq!(builder.test_pattern(0, "the quick fox"), Some(vec![(0, 13)]));
    assert_eq!(builder.test_pattern(0, "fox the"), Some(Vec::new()));
}

#[test]
fn a_bounded_gap_counts_the_words_between() {
    let gap = PatternElement::Gap { min_words: 1, max_words: Some(2) };
    let builder = builder_with(vec![sequence("1", "near", vec![word("a"), gap])]);
    assert_eq!(builder.test_pattern(0, "a x"), Some(vec![(0, 3)]));
    assert_eq!(builder.test_pattern(0, "a x y z"), Some(vec![(0, 5)]));
    assert_eq!(builder.test_pattern(0, "a"), Some(Vec::new()));
}

#[test]
fn nothing_is_put_between_a_gap_and_the_next_word() {
    let gap = PatternElement::Gap { min_words: 1, max_words: Some(2) };
    let builder = builder_with(vec![sequence("1", "near", vec![word("a"), gap, word("b")])]);
    assert_eq!(builder.test_pattern(0, "a x b"), Some(Vec::new()));
}

#[test]
fn one_of_matches_any_option() {
    let options = PatternElement::OneOf { options: vec!["cat".to_string(), "dog".to_string()] };
    let builder = builder_with(vec![sequence("1", "pet", vec![options])]);
    assert_eq!(builder.test_pattern(0, "cat or dog or cow"), Some(vec![(0, 3), (7, 10)]));
}

#[test]
fn an_escaped_word_matches_itself_only() {
    let builder = builder_with(vec![sequence("1", "dots", vec![word("a.b")])]);
    assert_eq!(builder.test_pattern(0, "a.b axb"), Some(vec![(0, 3)]));
}

#[test]
fn a_reference_matches_anything_in_its_place() {
    let reference = PatternElement::Reference { pattern_id: "other".to_string() };
    let builder =
        builder_with(vec![sequence("1", "ref", vec![word("start"), reference, word("end")])]);
    assert_eq!(builder.test_pattern(0, "start of anything at all end"), Some(vec![(0, 28)]));
    assert_eq!(builder.test_pattern(0, "start end"), Some(vec![(0, 9)]));
    assert_eq!(builder.test_pattern(0, "start of nothing"), Some(Vec::new()));
}

#[test]
fn a_reference_alone_matches_every_text() {
    let reference = PatternElement::Reference { pattern_id: "other".to_string() };
    let builder = builder_with(vec![sequence("1", "ref", vec![reference])]);
    assert_eq!(builder.test_pattern(0, "any text"), Some(vec![(0, 8)]));
    assert_eq!(builder.test_pattern(0, ""), Some(vec![(0, 0)]));
}

#[test]
fn or_matches_either_branch() {
    let pattern = composite(
        CompositeOperator::Or,
        vec![sequence("1", "cat", vec![word("cat")]), sequence("2", "dog", vec![word("dog")])],
    );
    assert_eq!(pattern.to_regex(), r"(\bcat\b)|(\bdog\b)");
    let builder = builder_with(vec![pattern]);
    assert_eq!(builder.test_pattern(0, "the dog chased the cat"), Some(vec![(4, 7), (19, 22)]));
}

#[test]
fn lookaheads_are_not_accepted_by_the_engine() {
    let and = composite(
        CompositeOperator::And,
        vec![sequence("1", "cat", vec![word("cat")]), sequence("2", "dog", vec![word("dog")])],
    );
    let not = composite(CompositeOperator::Not, vec![sequence("1", "cat", vec![word("cat")])]);
    assert_eq!(and.to_regex(), r"(?=.*\bcat\b)(?=.*\bdog\b).*");
    let builder = builder_with(vec![and, not]);
    assert_eq!(builder.test_pattern(0, "the dog chased the cat"), None);
    assert_eq!(builder.test_pattern(0, "the dog ran away"), None);
    assert_eq!(builder.test_pattern(1, "the dog ran away"), None);
}

#[test]
fn not_of_nothing_matches_everywhere() {
    let builder = builder_with(vec![composite(CompositeOperator::Not, Vec::new())]);
    assert_eq!(builder.test_pattern(0, "ab"), Some(vec![(0, 0), (1, 1), (2, 2)]));
}

#[test]
fn regex_of_a_stored_pattern() {
    let stored = vec![
        sequence("1", "cat", vec![word("cat")]),
        composite(CompositeOperator::Not, vec![sequence("2", "dog", vec![word("dog")])]),
    ];
    let builder = builder_with(stored);
    assert_eq!(builder.regex_at(0), Some(r"\bcat\b".to_string()));
    assert_eq!(builder.regex_at(1), Some(r"(?!.*\bdog\b)".to_string()));
    assert_eq!(builder.regex_at(2), None);
    assert_eq!(builder.regex_at(usize::MAX), None);
}

#[test]
fn a_gap_too_large_for_the_engine_gives_no_result() {
    let gap = PatternElement::Gap { min_words: 100000, max_words: None };
    let builder = builder_with(vec![sequence("1", "far", vec![word("a"), gap])]);
    assert_eq!(builder.regex_at(0), Some(r"\ba\b(?:\W+\w+){100000,}".to_string()));
    assert_eq!(builder.test_pattern(0, "a b"), None);
}

#[test]
fn an_accepted_expression_gives_its_matches() {
    let found: Result<Vec<(usize, usize)>, regex::Error> = Ok(vec![(2, 5), (12, 15)]);
    assert_eq!(regexgen::engine::matches_or_nothing(found), Some(vec![(2, 5), (12, 15)]));
    assert_eq!(regexgen::engine::matches_or_nothing(Ok(Vec::new())), Some(Vec::new()));
}

#[test]
fn a_refused_expression_gives_nothing() {
    let refused = regex::Regex::new("(").unwrap_err();
    assert_eq!(regexgen::engine::matches_or_nothing(Err(refused)), None);
    let too_large = regex::Regex::new(r"\w{100000}").unwrap_err();
    assert_eq!(regexgen::engine::matches_or_nothing(Err(too_large)), None);
}

#[test]
fn the_builder_says_whether_words_wait() {
    let mut builder = builder_with(Vec::new());
    assert!(!builder.has_selections());
    builder.add_selection("a".to_string(), 0, 1, 0);
    assert!(builder.has_selections());
    builder.remove_selection(0);
    assert!(!builder.has_selections());
    builder.add_selection("b".to_string(), 2, 3, 1);
    builder.clear_selections();
    assert!(!builder.has_selections());
}

#[test]
fn a_result_is_given_whenever_the_engine_accepts() {
    let accepted = sequence("1", "cat", vec![word("cat")]);
    let refused = composite(CompositeOperator::Not, vec![sequence("2", "dog", vec![word("dog")])]);
    assert!(regex::Regex::new(&accepted.to_regex()).is_ok());
    assert!(regex::Regex::new(&refused.to_regex()).is_err());
    let builder = builder_with(vec![accepted, refused]);
    for text in ["", "a cat", "no match here", "é cat cat"] {
        assert!(builder.test_pattern(0, text).is_some());
        assert!(builder.test_pattern(1, text).is_none());
        assert!(builder.test_pattern(2, text).is_none());
    }
}
