//! From a pattern tree to the text of a regular expression.

use vstd::prelude::*;
use vstd::string::StringExecFns;
use crate::pattern::{
    element_views, lemma_pattern_views, pattern_views, CompositeOperator, ElementView, Pattern,
    PatternElement, PatternView,
};
use crate::text::{decimal, join, joined, lemma_joined_push, push_decimal, texts};

verus! {

/// Whether the character means something to the regular-expression engine
/// when it stands unescaped.
pub open spec fn is_meta_character(c: char) -> bool {
    c == '\\' || c == '.' || c == '+' || c == '*' || c == '?' || c == '(' || c == ')' || c == '|'
        || c == '[' || c == ']' || c == '{' || c == '}' || c == '^' || c == '$' || c == '#'
        || c == '&' || c == '-' || c == '~'
}

/// The text with a backslash put before each meta character.
pub open spec fn escaped(text: Seq<char>) -> Seq<char>
    decreases text.len(),
{
    if text.len() == 0 {
        Seq::empty()
    } else if is_meta_character(text.last()) {
        escaped(text.drop_last()).push('\\').push(text.last())
    } else {
        escaped(text.drop_last()).push(text.last())
    }
}

/// Calls `regex::escape`, which walks the characters of the text and writes each
/// one out, after a backslash where `regex_syntax::is_meta_character` holds of it.
/// The contract repeats that: the result is `escaped` of the text, and
/// `is_meta_character` lists the same eighteen characters.
#[verifier::external_body]
fn escape(text: &str) -> (literal: String)
    ensures
        literal@ == escaped(text@),
{
    regex::escape(text)
}

/// The expression for a literal word or phrase: the escaped text between two
/// word boundaries.
pub open spec fn word_regex(text: Seq<char>) -> Seq<char> {
    "\\b"@ + escaped(text) + "\\b"@
}

/// The expression for a gap of `min_words` to `max_words` words.
pub open spec fn gap_regex(min_words: nat, max_words: Option<nat>) -> Seq<char> {
    match max_words {
        None => if min_words == 0 {
            ".*?"@
        } else {
            "(?:\\W+\\w+){"@ + decimal(min_words) + ",}"@
        },
        Some(max) => "(?:\\W+\\w+){"@ + decimal(min_words) + ","@ + decimal(max) + "}"@,
    }
}

/// The escaped forms of the options, in order.
pub open spec fn escaped_options(options: Seq<Seq<char>>) -> Seq<Seq<char>> {
    options.map_values(|option: Seq<char>| escaped(option))
}

/// The expression for a choice among literals.
pub open spec fn one_of_regex(options: Seq<Seq<char>>) -> Seq<char> {
    "\\b(?:"@ + joined(escaped_options(options), "|"@) + ")\\b"@
}

/// The expression for one element of a sequence.
pub open spec fn element_regex(element: ElementView) -> Seq<char> {
    match element {
        ElementView::Word { text } => word_regex(text),
        ElementView::Gap { min_words, max_words } => gap_regex(min_words, max_words),
        ElementView::Reference { .. } => ".*"@,
        ElementView::OneOf { options } => one_of_regex(options),
    }
}

/// The expressions of the elements, in order.
pub open spec fn element_regexes(elements: Seq<ElementView>) -> Seq<Seq<char>> {
    elements.map_values(|element: ElementView| element_regex(element))
}

/// The expression for a sequence: those of its elements, with nothing between them.
pub open spec fn sequence_regex(elements: Seq<ElementView>) -> Seq<char> {
    joined(element_regexes(elements), Seq::empty())
}

/// One branch of an alternation.
pub open spec fn or_branch(regex: Seq<char>) -> Seq<char> {
    "("@ + regex + ")"@
}

/// A lookahead that asks for a match somewhere ahead.
pub open spec fn and_branch(regex: Seq<char>) -> Seq<char> {
    "(?=.*"@ + regex + ")"@
}

/// A lookahead that forbids a match anywhere ahead.
pub open spec fn not_branch(regex: Seq<char>) -> Seq<char> {
    "(?!.*"@ + regex + ")"@
}

/// The expression for an alternation of compiled sub-patterns.
pub open spec fn or_regex(regexes: Seq<Seq<char>>) -> Seq<char> {
    joined(regexes.map_values(|regex: Seq<char>| or_branch(regex)), "|"@)
}

/// The expression that asks for all of the compiled sub-patterns, in any order.
pub open spec fn and_regex(regexes: Seq<Seq<char>>) -> Seq<char> {
    joined(regexes.map_values(|regex: Seq<char>| and_branch(regex)), Seq::empty()) + ".*"@
}

/// The expression that forbids the first compiled sub-pattern; the others are
/// ignored, and with none the expression is empty.
pub open spec fn not_regex(regexes: Seq<Seq<char>>) -> Seq<char> {
    if regexes.len() == 0 {
        Seq::empty()
    } else {
        not_branch(regexes[0])
    }
}

/// The expressions of a list of patterns, in order.
pub open spec fn regexes_of(patterns: Seq<PatternView>) -> Seq<Seq<char>>
    decreases patterns,
{
    if patterns.len() == 0 {
        Seq::empty()
    } else {
        regexes_of(patterns.drop_last()).push(regex_of(patterns.last()))
    }
}

/// The regular expression that a pattern compiles to.
pub open spec fn regex_of(pattern: PatternView) -> Seq<char>
    decreases pattern,
{
    match pattern {
        PatternView::Sequence { elements, .. } => sequence_regex(elements),
        PatternView::Composite { operator, patterns, .. } => match operator {
            CompositeOperator::Or => or_regex(regexes_of(patterns)),
            CompositeOperator::And => and_regex(regexes_of(patterns)),
            CompositeOperator::Not => not_regex(regexes_of(patterns)),
        },
    }
}

/// `regexes_of` keeps the length and compiles each pattern in its place.
pub proof fn lemma_regexes_of(patterns: Seq<PatternView>)
    ensures
        regexes_of(patterns).len() == patterns.len(),
        forall|i: int|
            0 <= i < patterns.len() ==> (#[trigger] regexes_of(patterns)[i]) == regex_of(
                patterns[i],
            ),
    decreases patterns.len(),
{
    if patterns.len() > 0 {
        lemma_regexes_of(patterns.drop_last());
        assert(regexes_of(patterns) == regexes_of(patterns.drop_last()).push(
            regex_of(patterns.last()),
        ));
    } else {
        assert(regexes_of(patterns) == Seq::<Seq<char>>::empty());
    }
}

fn push_word(out: &mut String, text: &str)
    ensures
        final(out)@ == old(out)@ + word_regex(text@),
{
    let literal = escape(text);
    out.append("\\b");
    out.append(literal.as_str());
    out.append("\\b");
    assert(final(out)@ =~= old(out)@ + word_regex(text@));
}

fn push_gap(out: &mut String, min_words: u32, max_words: Option<u32>)
    ensures
        final(out)@ == old(out)@ + gap_regex(
            min_words as nat,
            match max_words {
                Some(max) => Some(max as nat),
                None => None,
            },
        ),
{
    match max_words {
        None => {
            if min_words == 0 {
                out.append(".*?");
            } else {
                out.append("(?:\\W+\\w+){");
                push_decimal(out, min_words);
                out.append(",}");
                assert(final(out)@ =~= old(out)@ + gap_regex(min_words as nat, None));
            }
        },
        Some(max) => {
            out.append("(?:\\W+\\w+){");
            push_decimal(out, min_words);
            out.append(",");
            push_decimal(out, max);
            out.append("}");
            assert(final(out)@ =~= old(out)@ + gap_regex(min_words as nat, Some(max as nat)));
        },
    }
}

fn push_one_of(out: &mut String, options: &Vec<String>)
    ensures
        final(out)@ == old(out)@ + one_of_regex(texts(options@)),
{
    let mut literals: Vec<String> = Vec::new();
    let mut i: usize = 0;
    while i < options.len()
        invariant
            i <= options.len(),
            literals.len() == i,
            forall|k: int| 0 <= k < i ==> literals@[k]@ == escaped(options@[k]@),
        decreases options.len() - i,
    {
        literals.push(escape(options[i].as_str()));
        i += 1;
    }
    assert(texts(literals@) =~= escaped_options(texts(options@)));
    let alternatives = join(&literals, "|");
    out.append("\\b(?:");
    out.append(alternatives.as_str());
    out.append(")\\b");
    assert(final(out)@ =~= old(out)@ + one_of_regex(texts(options@)));
}

fn push_element(out: &mut String, element: &PatternElement)
    ensures
        final(out)@ == old(out)@ + element_regex(element@),
{
    match element {
        PatternElement::Word { text } => push_word(out, text.as_str()),
        PatternElement::Gap { min_words, max_words } => push_gap(out, *min_words, *max_words),
        PatternElement::Reference { .. } => out.append(".*"),
        PatternElement::OneOf { options } => push_one_of(out, options),
    }
}

fn sequence_to_regex(elements: &Vec<PatternElement>) -> (regex: String)
    ensures
        regex@ == sequence_regex(element_views(elements@)),
{
    let ghost parts = element_regexes(element_views(elements@));
    let mut regex = String::new();
    let mut i: usize = 0;
    while i < elements.len()
        invariant
            i <= elements.len(),
            parts == element_regexes(element_views(elements@)),
            regex@ == joined(parts.take(i as int), Seq::empty()),
        decreases elements.len() - i,
    {
        proof {
            let part = element_regex(elements@[i as int]@);
            assert(parts.take(i + 1) == parts.take(i as int).push(part));
            lemma_joined_push(parts.take(i as int), Seq::empty(), part);
        }
        push_element(&mut regex, &elements[i]);
        assert(regex@ =~= joined(parts.take(i + 1), Seq::empty()));
        i += 1;
    }
    assert(parts.take(elements.len() as int) == parts);
    regex
}

impl Pattern {
    /// Compiles the pattern to the text of a regular expression.
    ///
    /// A sequence is the expressions of its elements written one after the other.
    /// `Or` parenthesises each sub-pattern and joins them with `|`; `And` turns each
    /// into a lookahead and ends with `.*`; `Not` forbids its first sub-pattern
    /// with a negative lookahead, and is empty when it has none.
    pub fn to_regex(&self) -> (regex: String)
        ensures
            regex@ == regex_of(self@),
        decreases self,
    {
        match self {
            Pattern::Sequence { elements, .. } => sequence_to_regex(elements),
            Pattern::Composite { operator, patterns, .. } => {
                let ghost subs = regexes_of(pattern_views(patterns@));
                proof {
                    lemma_pattern_views(patterns@);
                    lemma_regexes_of(pattern_views(patterns@));
                }
                match operator {
                    CompositeOperator::Or => {
                        let ghost branches = subs.map_values(|regex: Seq<char>| or_branch(regex));
                        let mut regex = String::new();
                        let mut i: usize = 0;
                        while i < patterns.len()
                            invariant
                                i <= patterns.len(),
                                subs.len() == patterns.len(),
                                forall|k: int|
                                    0 <= k < patterns.len() ==> subs[k] == regex_of(
                                        #[trigger] patterns@[k]@,
                                    ),
                                forall|k: int|
                                    0 <= k < patterns.len() ==> decreases_to!(self => #[trigger] patterns@[k]),
                                branches == subs.map_values(|regex: Seq<char>| or_branch(regex)),
                                regex@ == joined(branches.take(i as int), "|"@),
                            decreases patterns.len() - i,
                        {
                            let sub = patterns[i].to_regex();
                            proof {
                                let branch = or_branch(sub@);
                                assert(branches.take(i + 1) == branches.take(i as int).push(branch));
                                lemma_joined_push(branches.take(i as int), "|"@, branch);
                            }
                            if i > 0 {
                                regex.append("|");
                            }
                            regex.append("(");
                            regex.append(sub.as_str());
                            regex.append(")");
                            assert(regex@ =~= joined(branches.take(i + 1), "|"@));
                            i += 1;
                        }
                        assert(branches.take(patterns.len() as int) == branches);
                        regex
                    },
                    CompositeOperator::And => {
                        let ghost branches = subs.map_values(|regex: Seq<char>| and_branch(regex));
                        let mut regex = String::new();
                        let mut i: usize = 0;
                        while i < patterns.len()
                            invariant
                                i <= patterns.len(),
                                subs.len() == patterns.len(),
                                forall|k: int|
                                    0 <= k < patterns.len() ==> subs[k] == regex_of(
                                        #[trigger] patterns@[k]@,
                                    ),
                                forall|k: int|
                                    0 <= k < patterns.len() ==> decreases_to!(self => #[trigger] patterns@[k]),
                                branches == subs.map_values(|regex: Seq<char>| and_branch(regex)),
                                regex@ == joined(branches.take(i as int), Seq::empty()),
                            decreases patterns.len() - i,
                        {
                            let sub = patterns[i].to_regex();
                            proof {
                                let branch = and_branch(sub@);
                                assert(branches.take(i + 1) == branches.take(i as int).push(branch));
                                lemma_joined_push(branches.take(i as int), Seq::empty(), branch);
                            }
                            regex.append("(?=.*");
                            regex.append(sub.as_str());
                            regex.append(")");
                            assert(regex@ =~= joined(branches.take(i + 1), Seq::empty()));
                            i += 1;
                        }
                        assert(branches.take(patterns.len() as int) == branches);
                        regex.append(".*");
                        regex
                    },
                    CompositeOperator::Not => {
                        let mut regex = String::new();
                        if patterns.len() > 0 {
                            let sub = patterns[0].to_regex();
                            regex.append("(?!.*");
                            regex.append(sub.as_str());
                            regex.append(")");
                            assert(regex@ =~= not_branch(sub@));
                        }
                        regex
                    },
                }
            },
        }
    }
}

/// A reference to another pattern compiles to a wildcard, whichever pattern it
/// names: the pattern it names is not looked up.
pub proof fn lemma_reference_is_wildcard(pattern_id: Seq<char>)
    ensures
        element_regex(ElementView::Reference { pattern_id }) == ".*"@,
{
}

/// Compiling is a function of what the pattern stands for: two patterns with the
/// same model compile to the same expression, and so does one pattern every time.
pub proof fn lemma_compile_is_deterministic(first: Pattern, second: Pattern)
    requires
        first@ == second@,
    ensures
        regex_of(first@) == regex_of(second@),
{
}

} // verus!
