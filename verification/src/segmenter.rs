//! From highlighted words to phrases, and from phrases to the elements of a
//! pattern or to a preview of them.
//!
//! Highlighted words that are neighbours in the text form one phrase. Between two
//! phrases anything may stand.

use vstd::prelude::*;
use vstd::string::StringExecFns;
use crate::error::PatternError;
use crate::pattern::{element_views, ElementView, PatternElement};
use crate::selection::{sort_by_word_index, sorted_by_index, span_views, SelectionSpan, SpanView};
use crate::text::{joined, lemma_joined_push};

verus! {

/// Whether `next` is the word of the text that comes right after `previous`.
pub open spec fn follows(previous: SpanView, next: SpanView) -> bool {
    next.word_index == previous.word_index + 1
}

/// The spans cut into runs, in order: a span continues the run of the span
/// before it when it `follows` that span, and begins a new run otherwise.
pub open spec fn runs(spans: Seq<SpanView>) -> Seq<Seq<SpanView>>
    decreases spans.len(),
{
    if spans.len() == 0 {
        Seq::empty()
    } else if spans.len() >= 2 && follows(spans[spans.len() - 2], spans.last()) {
        let before = runs(spans.drop_last());
        before.drop_last().push(before.last().push(spans.last()))
    } else {
        runs(spans.drop_last()).push(seq![spans.last()])
    }
}

/// Whether the spans are one run: at least one span, each followed in the text
/// by the next.
pub open spec fn is_run(run: Seq<SpanView>) -> bool {
    &&& run.len() > 0
    &&& forall|k: int| 0 <= k < run.len() - 1 ==> follows(#[trigger] run[k], run[k + 1])
}

/// The runs are the spans cut at every place where a span does not follow the one
/// before it, and nowhere else: put end to end they give the spans back, each is
/// a run, and no run goes on into the next.
pub proof fn lemma_runs(spans: Seq<SpanView>)
    ensures
        runs(spans).flatten() == spans,
        forall|r: int| 0 <= r < runs(spans).len() ==> is_run(#[trigger] runs(spans)[r]),
        forall|r: int|
            0 <= r < runs(spans).len() - 1 ==> !follows(
                (#[trigger] runs(spans)[r]).last(),
                runs(spans)[r + 1].first(),
            ),
        spans.len() > 0 ==> runs(spans).len() > 0 && runs(spans).last().last() == spans.last(),
    decreases spans.len(),
{
    if spans.len() > 0 {
        let rest = spans.drop_last();
        let last = spans.last();
        let before = runs(rest);
        let now = runs(spans);
        lemma_runs(rest);
        assert(rest.push(last) == spans);
        if spans.len() >= 2 && follows(spans[spans.len() - 2], last) {
            let current = before.last();
            let grown = current.push(last);
            assert(rest.last() == spans[spans.len() - 2]);
            assert(now == before.drop_last().push(grown));
            assert(before.drop_last().push(current) == before);
            before.drop_last().lemma_flatten_push(current);
            before.drop_last().lemma_flatten_push(grown);
            assert(now.flatten() =~= spans);
            assert(is_run(current));
            assert forall|k: int| 0 <= k < grown.len() - 1 implies follows(
                #[trigger] grown[k],
                grown[k + 1],
            ) by {
                if k < current.len() - 1 {
                    assert(follows(current[k], current[k + 1]));
                }
            }
            assert forall|r: int| 0 <= r < now.len() implies is_run(#[trigger] now[r]) by {
                if r < now.len() - 1 {
                    assert(now[r] == before[r]);
                }
            }
            assert forall|r: int| 0 <= r < now.len() - 1 implies !follows(
                (#[trigger] now[r]).last(),
                now[r + 1].first(),
            ) by {
                assert(now[r] == before[r]);
                assert(is_run(before[r + 1]));
                assert(now[r + 1].first() == before[r + 1].first());
            }
        } else {
            assert(now == before.push(seq![last]));
            before.lemma_flatten_push(seq![last]);
            assert(now.flatten() =~= spans);
            assert forall|r: int| 0 <= r < now.len() implies is_run(#[trigger] now[r]) by {
                if r < now.len() - 1 {
                    assert(now[r] == before[r]);
                }
            }
            assert forall|r: int| 0 <= r < now.len() - 1 implies !follows(
                (#[trigger] now[r]).last(),
                now[r + 1].first(),
            ) by {
                assert(now[r] == before[r]);
                if r < before.len() - 1 {
                    assert(now[r + 1] == before[r + 1]);
                } else {
                    assert(rest.last() == spans[spans.len() - 2]);
                }
            }
        }
    } else {
        assert(runs(spans) == Seq::<Seq<SpanView>>::empty());
    }
}

/// The words of one phrase, or a single word: the text as it is searched for, and
/// of how many highlighted words it is made.
#[derive(Debug, PartialEq, Eq)]
pub struct Phrase {
    pub text: String,
    pub word_count: usize,
}

/// What a [`Phrase`] stands for.
pub struct PhraseView {
    pub text: Seq<char>,
    pub word_count: nat,
}

impl View for Phrase {
    type V = PhraseView;

    open spec fn view(&self) -> PhraseView {
        PhraseView { text: self.text@, word_count: self.word_count as nat }
    }
}

/// The models of a list of phrases, in order.
pub open spec fn phrase_views(phrases: Seq<Phrase>) -> Seq<PhraseView> {
    phrases.map_values(|phrase: Phrase| phrase@)
}

/// The texts of the spans, in order.
pub open spec fn span_texts(spans: Seq<SpanView>) -> Seq<Seq<char>> {
    spans.map_values(|span: SpanView| span.text)
}

/// The phrase that a run of spans makes: their texts with one space between
/// each two neighbours.
pub open spec fn phrase_of(run: Seq<SpanView>) -> PhraseView {
    PhraseView { text: joined(span_texts(run), " "@), word_count: run.len() }
}

/// The phrases that the spans make, one for each of their runs.
pub open spec fn phrases_of(spans: Seq<SpanView>) -> Seq<PhraseView> {
    runs(spans).map_values(|run: Seq<SpanView>| phrase_of(run))
}

/// Groups the spans into phrases, as they stand: a span joins the phrase of the
/// span before it when its `word_index` is greater by exactly one.
pub fn group_phrases(spans: &Vec<SelectionSpan>) -> (phrases: Vec<Phrase>)
    ensures
        phrase_views(phrases@) == phrases_of(span_views(spans@)),
{
    let ghost views = span_views(spans@);
    let mut phrases: Vec<Phrase> = Vec::new();
    let mut i: usize = 0;
    assert(views.take(0) =~= Seq::<SpanView>::empty());
    assert(phrase_views(phrases@) =~= phrases_of(views.take(0)));
    while i < spans.len()
        invariant
            i <= spans.len(),
            views == span_views(spans@),
            phrase_views(phrases@) == phrases_of(views.take(i as int)),
            0 < i < spans.len() ==> !follows(views[i - 1], views[i as int]),
        decreases spans.len() - i,
    {
        let ghost done = runs(views.take(i as int));
        let mut text = spans[i].text.clone();
        let mut j: usize = i + 1;
        proof {
            let upto = views.take(j as int);
            assert(upto.drop_last() == views.take(i as int));
            assert(upto.last() == views[i as int]);
            if i > 0 {
                assert(upto[upto.len() - 2] == views[i - 1]);
            }
            assert(views.subrange(i as int, j as int) == seq![views[i as int]]);
            assert(span_texts(seq![views[i as int]]) =~= seq![views[i as int].text]);
        }
        while j < spans.len() && spans[j - 1].word_index < usize::MAX && spans[j].word_index
            == spans[j - 1].word_index + 1
            invariant
                i < j <= spans.len(),
                views == span_views(spans@),
                runs(views.take(j as int)) == done.push(views.subrange(i as int, j as int)),
                text@ == joined(span_texts(views.subrange(i as int, j as int)), " "@),
            decreases spans.len() - j,
        {
            proof {
                let run = views.subrange(i as int, j as int);
                let upto = views.take(j + 1);
                assert(upto.drop_last() == views.take(j as int));
                assert(upto.last() == views[j as int]);
                assert(upto[upto.len() - 2] == views[j - 1]);
                assert(follows(views[j - 1], views[j as int]));
                assert(done.push(run).drop_last() == done);
                assert(views.subrange(i as int, j + 1) == run.push(views[j as int]));
                assert(span_texts(run.push(views[j as int])) =~= span_texts(run).push(
                    views[j as int].text,
                ));
                lemma_joined_push(span_texts(run), " "@, views[j as int].text);
            }
            text.append(" ");
            text.append(spans[j].text.as_str());
            j += 1;
        }
        let phrase = Phrase { text, word_count: j - i };
        proof {
            let run = views.subrange(i as int, j as int);
            assert(phrase@ == phrase_of(run));
            assert(phrase_views(phrases@.push(phrase)) =~= phrase_views(phrases@).push(phrase@));
            assert(phrases_of(views.take(j as int)) =~= phrases_of(views.take(i as int)).push(
                phrase_of(run),
            ));
        }
        phrases.push(phrase);
        i = j;
    }
    assert(views.take(spans.len() as int) == views);
    phrases
}

/// The gap that lets anything stand between two phrases.
pub open spec fn open_gap() -> ElementView {
    ElementView::Gap { min_words: 0, max_words: None }
}

/// The elements of the pattern that looks for the phrases in their order: each
/// phrase as a literal, and an open gap between each two neighbours.
pub open spec fn elements_of(phrases: Seq<PhraseView>) -> Seq<ElementView> {
    if phrases.len() == 0 {
        Seq::empty()
    } else {
        Seq::new(
            (2 * phrases.len() - 1) as nat,
            |k: int|
                if k % 2 == 0 {
                    ElementView::Word { text: phrases[k / 2].text }
                } else {
                    open_gap()
                },
        )
    }
}

/// Writes the phrases as the elements of a sequence pattern.
pub fn phrase_elements(phrases: &Vec<Phrase>) -> (elements: Vec<PatternElement>)
    ensures
        element_views(elements@) == elements_of(phrase_views(phrases@)),
{
    let ghost views = phrase_views(phrases@);
    let mut elements: Vec<PatternElement> = Vec::new();
    let mut i: usize = 0;
    assert(element_views(elements@) =~= elements_of(views.take(0)));
    while i < phrases.len()
        invariant
            i <= phrases.len(),
            views == phrase_views(phrases@),
            element_views(elements@) == elements_of(views.take(i as int)),
        decreases phrases.len() - i,
    {
        let ghost before = element_views(elements@);
        if i > 0 {
            elements.push(PatternElement::Gap { min_words: 0, max_words: None });
        }
        elements.push(PatternElement::Word { text: phrases[i].text.clone() });
        proof {
            let word = ElementView::Word { text: views[i as int].text };
            let after = element_views(elements@);
            if i > 0 {
                assert(after =~= before.push(open_gap()).push(word));
            } else {
                assert(after =~= before.push(word));
            }
            assert(after =~= elements_of(views.take(i + 1)));
        }
        i += 1;
    }
    assert(views.take(phrases.len() as int) == views);
    elements
}

/// What a part of a preview shows.
#[derive(Clone, Copy, Debug, PartialEq, Eq)]
pub enum PreviewKind {
    /// A single highlighted word.
    Word,
    /// Several highlighted words that are neighbours in the text.
    Phrase,
    /// The link between two phrases that anything may separate.
    And,
}

impl PreviewKind {
    /// The name of the kind, as a host shows it.
    pub open spec fn spec_label(self) -> Seq<char> {
        match self {
            PreviewKind::Word => "word"@,
            PreviewKind::Phrase => "phrase"@,
            PreviewKind::And => "and"@,
        }
    }

    /// The name of the kind, as a host shows it.
    pub fn label(&self) -> (name: &'static str)
        ensures
            name@ == self.spec_label(),
    {
        match self {
            PreviewKind::Word => "word",
            PreviewKind::Phrase => "phrase",
            PreviewKind::And => "and",
        }
    }
}

/// One part of the preview of a pattern that is not built yet.
#[derive(Debug, PartialEq, Eq)]
pub struct PreviewElement {
    pub kind: PreviewKind,
    pub text: String,
}

/// What a [`PreviewElement`] stands for.
pub struct PreviewView {
    pub kind: PreviewKind,
    pub text: Seq<char>,
}

impl View for PreviewElement {
    type V = PreviewView;

    open spec fn view(&self) -> PreviewView {
        PreviewView { kind: self.kind, text: self.text@ }
    }
}

/// The models of the parts of a preview, in order.
pub open spec fn preview_views(preview: Seq<PreviewElement>) -> Seq<PreviewView> {
    preview.map_values(|part: PreviewElement| part@)
}

/// How a phrase shows in a preview: as a word when it is made of one word, as a
/// phrase otherwise, with its text.
pub open spec fn preview_of_phrase(phrase: PhraseView) -> PreviewView {
    PreviewView {
        kind: if phrase.word_count == 1 {
            PreviewKind::Word
        } else {
            PreviewKind::Phrase
        },
        text: phrase.text,
    }
}

/// How the link between two phrases shows in a preview.
pub open spec fn preview_link() -> PreviewView {
    PreviewView { kind: PreviewKind::And, text: "AND"@ }
}

/// The preview of the pattern that looks for the phrases in their order: each
/// phrase, and a link between each two neighbours. It has a phrase wherever
/// `elements_of` has a literal, and a link wherever that has a gap.
pub open spec fn preview_of(phrases: Seq<PhraseView>) -> Seq<PreviewView> {
    if phrases.len() == 0 {
        Seq::empty()
    } else {
        Seq::new(
            (2 * phrases.len() - 1) as nat,
            |k: int|
                if k % 2 == 0 {
                    preview_of_phrase(phrases[k / 2])
                } else {
                    preview_link()
                },
        )
    }
}

/// Writes the phrases as the parts of a preview.
pub fn phrase_preview(phrases: &Vec<Phrase>) -> (preview: Vec<PreviewElement>)
    ensures
        preview_views(preview@) == preview_of(phrase_views(phrases@)),
{
    let ghost views = phrase_views(phrases@);
    let mut preview: Vec<PreviewElement> = Vec::new();
    let mut i: usize = 0;
    assert(preview_views(preview@) =~= preview_of(views.take(0)));
    while i < phrases.len()
        invariant
            i <= phrases.len(),
            views == phrase_views(phrases@),
            preview_views(preview@) == preview_of(views.take(i as int)),
        decreases phrases.len() - i,
    {
        let ghost before = preview_views(preview@);
        if i > 0 {
            preview.push(PreviewElement { kind: PreviewKind::And, text: "AND".to_owned() });
        }
        let kind = if phrases[i].word_count == 1 {
            PreviewKind::Word
        } else {
            PreviewKind::Phrase
        };
        preview.push(PreviewElement { kind, text: phrases[i].text.clone() });
        proof {
            let part = preview_of_phrase(views[i as int]);
            let after = preview_views(preview@);
            if i > 0 {
                assert(after =~= before.push(preview_link()).push(part));
            } else {
                assert(after =~= before.push(part));
            }
            assert(after =~= preview_of(views.take(i + 1)));
        }
        i += 1;
    }
    assert(views.take(phrases.len() as int) == views);
    preview
}

/// The preview of the pattern that a set of highlighted words stands for.
pub open spec fn previewed(spans: Seq<SpanView>) -> Seq<PreviewView> {
    preview_of(phrases_of(sorted_by_index(spans)))
}

/// A pattern and its preview are made of the same phrases: the preview shows a
/// phrase with the literal's text wherever the pattern has a literal, and a link
/// wherever the pattern has a gap.
pub proof fn lemma_preview_follows_elements(spans: Seq<SpanView>)
    ensures
        previewed(spans).len() == segmented(spans).len(),
        forall|k: int|
            0 <= k < segmented(spans).len() ==> match #[trigger] segmented(spans)[k] {
                ElementView::Word { text } => previewed(spans)[k].kind != PreviewKind::And
                    && previewed(spans)[k].text == text,
                _ => previewed(spans)[k] == preview_link(),
            },
{
}

/// The elements that a set of highlighted words stands for: the words in the
/// order of the text, grouped into phrases, with an open gap between each two
/// phrases.
pub open spec fn segmented(spans: Seq<SpanView>) -> Seq<ElementView> {
    elements_of(phrases_of(sorted_by_index(spans)))
}

/// Turns the highlighted words into the elements of a sequence pattern.
///
/// The words are put in the order of the text, and are left so. With no word
/// highlighted there is nothing to build.
pub fn segment(selections: &mut Vec<SelectionSpan>) -> (result: Result<
    Vec<PatternElement>,
    PatternError,
>)
    ensures
        old(selections).len() == 0 ==> result == Err::<Vec<PatternElement>, PatternError>(
            PatternError::EmptySelection,
        ) && final(selections)@ == old(selections)@,
        old(selections).len() > 0 ==> result is Ok && element_views(result->Ok_0@) == segmented(
            span_views(old(selections)@),
        ) && span_views(final(selections)@) == sorted_by_index(span_views(old(selections)@)),
{
    if selections.len() == 0 {
        return Err(PatternError::EmptySelection);
    }
    sort_by_word_index(selections);
    let phrases = group_phrases(selections);
    Ok(phrase_elements(&phrases))
}

} // verus!
