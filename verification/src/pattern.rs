//! The pattern tree and its mathematical model.

use vstd::prelude::*;
use crate::text::texts;

verus! {

/// One unit of a sequence pattern.
#[derive(Debug, PartialEq, Eq)]
pub enum PatternElement {
    /// A literal word, or a phrase of several words separated by single spaces.
    Word { text: String },
    /// Between `min_words` and `max_words` words; no upper limit when `max_words` is `None`.
    Gap { min_words: u32, max_words: Option<u32> },
    /// Another pattern, named by its identifier.
    Reference { pattern_id: String },
    /// Any one of the listed literals.
    OneOf { options: Vec<String> },
}

/// How a composite pattern combines its sub-patterns.
#[derive(Clone, Copy, Debug, PartialEq, Eq)]
pub enum CompositeOperator {
    And,
    Or,
    Not,
}

/// A named rule that recognises a class of text.
#[derive(Debug, PartialEq, Eq)]
pub enum Pattern {
    /// Elements that follow each other in the text.
    Sequence { id: String, name: String, elements: Vec<PatternElement> },
    /// A boolean combination of other patterns.
    Composite { id: String, name: String, operator: CompositeOperator, patterns: Vec<Pattern> },
}

/// What a [`PatternElement`] stands for.
pub enum ElementView {
    Word { text: Seq<char> },
    Gap { min_words: nat, max_words: Option<nat> },
    Reference { pattern_id: Seq<char> },
    OneOf { options: Seq<Seq<char>> },
}

/// What a [`Pattern`] stands for.
pub enum PatternView {
    Sequence { id: Seq<char>, name: Seq<char>, elements: Seq<ElementView> },
    Composite {
        id: Seq<char>,
        name: Seq<char>,
        operator: CompositeOperator,
        patterns: Seq<PatternView>,
    },
}

impl View for PatternElement {
    type V = ElementView;

    open spec fn view(&self) -> ElementView {
        match self {
            PatternElement::Word { text } => ElementView::Word { text: text@ },
            PatternElement::Gap { min_words, max_words } => ElementView::Gap {
                min_words: *min_words as nat,
                max_words: match max_words {
                    Some(n) => Some(*n as nat),
                    None => None,
                },
            },
            PatternElement::Reference { pattern_id } => ElementView::Reference {
                pattern_id: pattern_id@,
            },
            PatternElement::OneOf { options } => ElementView::OneOf { options: texts(options@) },
        }
    }
}

/// The models of the elements of a sequence, in order.
pub open spec fn element_views(elements: Seq<PatternElement>) -> Seq<ElementView> {
    elements.map_values(|e: PatternElement| e@)
}

/// The models of a list of patterns, in order.
pub open spec fn pattern_views(patterns: Seq<Pattern>) -> Seq<PatternView>
    decreases patterns,
{
    if patterns.len() == 0 {
        Seq::empty()
    } else {
        pattern_views(patterns.drop_last()).push(patterns.last()@)
    }
}

impl View for Pattern {
    type V = PatternView;

    open spec fn view(&self) -> PatternView
        decreases self,
    {
        match self {
            Pattern::Sequence { id, name, elements } => PatternView::Sequence {
                id: id@,
                name: name@,
                elements: element_views(elements@),
            },
            Pattern::Composite { id, name, operator, patterns } => PatternView::Composite {
                id: id@,
                name: name@,
                operator: *operator,
                patterns: pattern_views(patterns@),
            },
        }
    }
}

impl PatternView {
    /// The identifier given to the pattern when it was made.
    pub open spec fn id(self) -> Seq<char> {
        match self {
            PatternView::Sequence { id, .. } => id,
            PatternView::Composite { id, .. } => id,
        }
    }

    /// The name the user gave to the pattern.
    pub open spec fn name(self) -> Seq<char> {
        match self {
            PatternView::Sequence { name, .. } => name,
            PatternView::Composite { name, .. } => name,
        }
    }
}

/// `pattern_views` keeps the length and models each pattern in its place.
pub proof fn lemma_pattern_views(patterns: Seq<Pattern>)
    ensures
        pattern_views(patterns).len() == patterns.len(),
        forall|i: int| 0 <= i < patterns.len() ==> (#[trigger] pattern_views(patterns)[i]) == patterns[i]@,
    decreases patterns.len(),
{
    if patterns.len() > 0 {
        lemma_pattern_views(patterns.drop_last());
        assert(pattern_views(patterns) == pattern_views(patterns.drop_last()).push(patterns.last()@));
    } else {
        assert(pattern_views(patterns) == Seq::<PatternView>::empty());
    }
}

/// A copy of a list of strings.
pub fn clone_strings(strings: &Vec<String>) -> (copy: Vec<String>)
    ensures
        texts(copy@) == texts(strings@),
{
    let mut copy: Vec<String> = Vec::new();
    let mut i: usize = 0;
    while i < strings.len()
        invariant
            i <= strings.len(),
            copy.len() == i,
            forall|k: int| 0 <= k < i ==> copy@[k]@ == strings@[k]@,
        decreases strings.len() - i,
    {
        copy.push(strings[i].clone());
        i += 1;
    }
    assert(texts(copy@) =~= texts(strings@));
    copy
}

impl Clone for PatternElement {
    fn clone(&self) -> (copy: PatternElement)
        ensures
            copy@ == self@,
    {
        match self {
            PatternElement::Word { text } => PatternElement::Word { text: text.clone() },
            PatternElement::Gap { min_words, max_words } => PatternElement::Gap {
                min_words: *min_words,
                max_words: *max_words,
            },
            PatternElement::Reference { pattern_id } => PatternElement::Reference {
                pattern_id: pattern_id.clone(),
            },
            PatternElement::OneOf { options } => PatternElement::OneOf {
                options: clone_strings(options),
            },
        }
    }
}

/// A copy of a list of elements.
pub fn clone_elements(elements: &Vec<PatternElement>) -> (copy: Vec<PatternElement>)
    ensures
        element_views(copy@) == element_views(elements@),
{
    let mut copy: Vec<PatternElement> = Vec::new();
    let mut i: usize = 0;
    while i < elements.len()
        invariant
            i <= elements.len(),
            copy.len() == i,
            forall|k: int| 0 <= k < i ==> copy@[k]@ == elements@[k]@,
        decreases elements.len() - i,
    {
        copy.push(elements[i].clone());
        i += 1;
    }
    assert(element_views(copy@) =~= element_views(elements@));
    copy
}

impl Clone for Pattern {
    fn clone(&self) -> (copy: Pattern)
        ensures
            copy@ == self@,
        decreases self,
    {
        match self {
            Pattern::Sequence { id, name, elements } => Pattern::Sequence {
                id: id.clone(),
                name: name.clone(),
                elements: clone_elements(elements),
            },
            Pattern::Composite { id, name, operator, patterns } => {
                let mut copies: Vec<Pattern> = Vec::new();
                let mut i: usize = 0;
                while i < patterns.len()
                    invariant
                        i <= patterns.len(),
                        copies.len() == i,
                        forall|k: int| 0 <= k < i ==> copies@[k]@ == patterns@[k]@,
                        forall|k: int| 0 <= k < patterns.len() ==> decreases_to!(self => #[trigger] patterns@[k]),
                    decreases patterns.len() - i,
                {
                    copies.push(patterns[i].clone());
                    i += 1;
                }
                proof {
                    lemma_pattern_views(copies@);
                    lemma_pattern_views(patterns@);
                    assert(pattern_views(copies@) =~= pattern_views(patterns@));
                }
                Pattern::Composite {
                    id: id.clone(),
                    name: name.clone(),
                    operator: *operator,
                    patterns: copies,
                }
            },
        }
    }
}

impl Pattern {
    /// The identifier given to the pattern when it was made.
    pub fn get_id(&self) -> (id: &str)
        ensures
            id@ == self@.id(),
    {
        match self {
            Pattern::Sequence { id, .. } => id.as_str(),
            Pattern::Composite { id, .. } => id.as_str(),
        }
    }

    /// The name the user gave to the pattern.
    pub fn get_name(&self) -> (name: &str)
        ensures
            name@ == self@.name(),
    {
        match self {
            Pattern::Sequence { name, .. } => name.as_str(),
            Pattern::Composite { name, .. } => name.as_str(),
        }
    }
}

} // verus!
