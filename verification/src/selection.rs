//! Highlighted words, and their order by place in the text.

use vstd::prelude::*;

verus! {

/// A word that the user highlighted: its characters, where it lies in the text,
/// and its rank among the words of the text.
#[derive(Debug, PartialEq, Eq)]
pub struct SelectionSpan {
    pub text: String,
    pub start_index: usize,
    pub end_index: usize,
    pub word_index: usize,
}

/// What a [`SelectionSpan`] stands for.
pub struct SpanView {
    pub text: Seq<char>,
    pub start_index: nat,
    pub end_index: nat,
    pub word_index: nat,
}

impl View for SelectionSpan {
    type V = SpanView;

    open spec fn view(&self) -> SpanView {
        SpanView {
            text: self.text@,
            start_index: self.start_index as nat,
            end_index: self.end_index as nat,
            word_index: self.word_index as nat,
        }
    }
}

impl Clone for SelectionSpan {
    fn clone(&self) -> (copy: SelectionSpan)
        ensures
            copy@ == self@,
    {
        SelectionSpan {
            text: self.text.clone(),
            start_index: self.start_index,
            end_index: self.end_index,
            word_index: self.word_index,
        }
    }
}

/// The models of a list of spans, in order.
pub open spec fn span_views(spans: Seq<SelectionSpan>) -> Seq<SpanView> {
    spans.map_values(|span: SelectionSpan| span@)
}

/// A copy of a list of spans.
pub fn clone_spans(spans: &Vec<SelectionSpan>) -> (copy: Vec<SelectionSpan>)
    ensures
        span_views(copy@) == span_views(spans@),
{
    let mut copy: Vec<SelectionSpan> = Vec::new();
    let mut i: usize = 0;
    while i < spans.len()
        invariant
            i <= spans.len(),
            copy.len() == i,
            forall|k: int| 0 <= k < i ==> copy@[k]@ == spans@[k]@,
        decreases spans.len() - i,
    {
        copy.push(spans[i].clone());
        i += 1;
    }
    assert(span_views(copy@) =~= span_views(spans@));
    copy
}

/// Where a span of rank `word_index` goes among spans already placed: just after
/// the last of them whose rank is not greater, and first where there is none.
pub open spec fn insertion_point(placed: Seq<SpanView>, word_index: nat) -> int
    decreases placed.len(),
{
    if placed.len() == 0 {
        0
    } else if placed.last().word_index <= word_index {
        placed.len() as int
    } else {
        insertion_point(placed.drop_last(), word_index)
    }
}

/// The spans in ascending order of `word_index`, those of equal rank in the order
/// in which they came: each span in turn is placed at its `insertion_point`
/// among those before it.
pub open spec fn sorted_by_index(spans: Seq<SpanView>) -> Seq<SpanView>
    decreases spans.len(),
{
    if spans.len() == 0 {
        Seq::empty()
    } else {
        let placed = sorted_by_index(spans.drop_last());
        placed.insert(insertion_point(placed, spans.last().word_index), spans.last())
    }
}

/// Whether no span has a greater `word_index` than a later one.
pub open spec fn is_ordered(spans: Seq<SpanView>) -> bool {
    forall|i: int, j: int|
        0 <= i < j < spans.len() ==> (#[trigger] spans[i]).word_index <= (
        #[trigger] spans[j]).word_index
}

/// The spans of rank `word_index`, in the order in which they stand.
pub open spec fn at_index(spans: Seq<SpanView>, word_index: nat) -> Seq<SpanView> {
    spans.filter(|span: SpanView| span.word_index == word_index)
}

/// The insertion point lies within the placed spans; all spans from it on have
/// a greater rank, and the one before it has not.
pub proof fn lemma_insertion_point(placed: Seq<SpanView>, word_index: nat)
    ensures
        0 <= insertion_point(placed, word_index) <= placed.len(),
        forall|k: int|
            insertion_point(placed, word_index) <= k < placed.len() ==> (
            #[trigger] placed[k]).word_index > word_index,
        insertion_point(placed, word_index) > 0 ==> placed[insertion_point(placed, word_index)
            - 1].word_index <= word_index,
    decreases placed.len(),
{
    if placed.len() > 0 && placed.last().word_index > word_index {
        let rest = placed.drop_last();
        lemma_insertion_point(rest, word_index);
        assert forall|k: int| insertion_point(placed, word_index) <= k < placed.len() implies (
        #[trigger] placed[k]).word_index > word_index by {
            if k < rest.len() {
                assert(rest[k] == placed[k]);
            }
        }
        if insertion_point(placed, word_index) > 0 {
            assert(rest[insertion_point(rest, word_index) - 1] == placed[insertion_point(
                placed,
                word_index,
            ) - 1]);
        }
    }
}

/// Sorting keeps the number of spans.
pub proof fn lemma_sorted_len(spans: Seq<SpanView>)
    ensures
        sorted_by_index(spans).len() == spans.len(),
    decreases spans.len(),
{
    if spans.len() > 0 {
        let placed = sorted_by_index(spans.drop_last());
        lemma_sorted_len(spans.drop_last());
        lemma_insertion_point(placed, spans.last().word_index);
    }
}

/// Sorted spans are in ascending order of `word_index`.
pub proof fn lemma_sorted_is_ordered(spans: Seq<SpanView>)
    ensures
        is_ordered(sorted_by_index(spans)),
    decreases spans.len(),
{
    if spans.len() > 0 {
        let placed = sorted_by_index(spans.drop_last());
        let last = spans.last();
        let at = insertion_point(placed, last.word_index);
        let sorted = sorted_by_index(spans);
        lemma_sorted_is_ordered(spans.drop_last());
        lemma_insertion_point(placed, last.word_index);
        assert(sorted == placed.insert(at, last));
        assert forall|i: int, j: int| 0 <= i < j < sorted.len() implies (#[trigger] sorted[i]).word_index
            <= (#[trigger] sorted[j]).word_index by {
            if j < at {
                assert(sorted[i] == placed[i] && sorted[j] == placed[j]);
            } else if j == at {
                assert(sorted[i] == placed[i]);
                assert(placed[i].word_index <= placed[at - 1].word_index);
            } else if i < at {
                assert(sorted[i] == placed[i] && sorted[j] == placed[j - 1]);
            } else if i == at {
                assert(sorted[j] == placed[j - 1]);
            } else {
                assert(sorted[i] == placed[i - 1] && sorted[j] == placed[j - 1]);
            }
        }
    }
}

/// Sorting only rearranges: every span stays, as often as it occurred.
pub proof fn lemma_sorted_is_permutation(spans: Seq<SpanView>)
    ensures
        sorted_by_index(spans).to_multiset() == spans.to_multiset(),
    decreases spans.len(),
{
    if spans.len() > 0 {
        let rest = spans.drop_last();
        let placed = sorted_by_index(rest);
        let last = spans.last();
        let at = insertion_point(placed, last.word_index);
        lemma_sorted_is_permutation(rest);
        lemma_insertion_point(placed, last.word_index);
        vstd::seq_lib::lemma_multiset_commutative(placed.take(at), placed.skip(at));
        assert(placed.take(at) + placed.skip(at) == placed);
        assert(placed.insert(at, last) == placed.take(at).push(last) + placed.skip(at));
        vstd::seq_lib::lemma_multiset_commutative(placed.take(at).push(last), placed.skip(at));
        placed.take(at).to_multiset_ensures();
        rest.to_multiset_ensures();
        assert(rest.push(last) == spans);
        assert(sorted_by_index(spans).to_multiset() =~= spans.to_multiset());
    } else {
        assert(sorted_by_index(spans) == spans);
    }
}

proof fn lemma_at_index_of_greater(spans: Seq<SpanView>, word_index: nat)
    requires
        forall|k: int| 0 <= k < spans.len() ==> (#[trigger] spans[k]).word_index > word_index,
    ensures
        at_index(spans, word_index) == Seq::<SpanView>::empty(),
    decreases spans.len(),
{
    reveal(Seq::filter);
    if spans.len() > 0 {
        let rest = spans.drop_last();
        assert forall|k: int| 0 <= k < rest.len() implies (#[trigger] rest[k]).word_index
            > word_index by {
            assert(rest[k] == spans[k]);
        }
        lemma_at_index_of_greater(rest, word_index);
    }
}

proof fn lemma_at_index_of_one(span: SpanView, word_index: nat)
    ensures
        at_index(seq![span], word_index) == if span.word_index == word_index {
            seq![span]
        } else {
            Seq::<SpanView>::empty()
        },
{
    reveal_with_fuel(Seq::filter, 2);
    let one = seq![span];
    assert(one.drop_last() =~= Seq::<SpanView>::empty());
    assert(one.last() == span);
    assert(Seq::<SpanView>::empty().push(span) =~= one);
}

/// Sorting is stable: the spans of one rank stand after sorting in the order in
/// which they stood before.
pub proof fn lemma_sorted_is_stable(spans: Seq<SpanView>, word_index: nat)
    ensures
        at_index(sorted_by_index(spans), word_index) == at_index(spans, word_index),
    decreases spans.len(),
{
    if spans.len() > 0 {
        let rest = spans.drop_last();
        let last = spans.last();
        let placed = sorted_by_index(rest);
        let at = insertion_point(placed, last.word_index);
        let keep = |span: SpanView| span.word_index == word_index;
        let head = placed.take(at);
        let tail = placed.skip(at);
        lemma_sorted_is_stable(rest, word_index);
        lemma_insertion_point(placed, last.word_index);
        lemma_at_index_of_one(last, word_index);
        assert(head + tail == placed);
        assert(placed.insert(at, last) == (head + seq![last]) + tail);
        assert(rest + seq![last] == spans);
        Seq::filter_distributes_over_add(head, tail, keep);
        Seq::filter_distributes_over_add(head, seq![last], keep);
        Seq::filter_distributes_over_add(head + seq![last], tail, keep);
        Seq::filter_distributes_over_add(rest, seq![last], keep);
        if last.word_index == word_index {
            lemma_at_index_of_greater(tail, word_index);
        }
        assert(at_index(sorted_by_index(spans), word_index) =~= at_index(spans, word_index));
    }
}

/// Puts the spans in ascending order of `word_index`; spans of equal rank keep
/// the order in which they stood.
pub fn sort_by_word_index(spans: &mut Vec<SelectionSpan>)
    ensures
        span_views(final(spans)@) == sorted_by_index(span_views(old(spans)@)),
{
    let ghost given = span_views(spans@);
    let mut i: usize = 0;
    while i < spans.len()
        invariant
            i <= spans.len(),
            spans.len() == given.len(),
            span_views(spans@).take(i as int) == sorted_by_index(given.take(i as int)),
            span_views(spans@).skip(i as int) == given.skip(i as int),
        decreases spans.len() - i,
    {
        let ghost before = span_views(spans@);
        let ghost placed = before.take(i as int);
        let span = spans.remove(i);
        assert(span@ == given[i as int]) by {
            assert(before.skip(i as int)[0] == given.skip(i as int)[0]);
        }
        assert(span_views(spans@) =~= before.remove(i as int));
        let mut at: usize = i;
        assert(placed.take(at as int) == placed);
        while at > 0 && spans[at - 1].word_index > span.word_index
            invariant
                at <= i <= spans.len(),
                span_views(spans@).take(i as int) == placed,
                insertion_point(placed, span@.word_index) == insertion_point(
                    placed.take(at as int),
                    span@.word_index,
                ),
            decreases at,
        {
            assert(placed.take(at as int).drop_last() == placed.take(at - 1));
            at -= 1;
        }
        assert(insertion_point(placed, span@.word_index) == at) by {
            if at > 0 {
                assert(placed.take(at as int).last() == span_views(spans@)[at - 1]);
            }
        }
        let ghost removed = span_views(spans@);
        spans.insert(at, span);
        proof {
            let after = span_views(spans@);
            assert(after =~= removed.insert(at as int, span@));
            assert(given.take(i + 1).drop_last() == given.take(i as int));
            assert(given.take(i + 1).last() == span@);
            assert(after.take(i + 1) =~= placed.insert(at as int, span@));
            assert(after.skip(i + 1) =~= given.skip(i + 1)) by {
                let tail = after.skip(i + 1);
                assert forall|k: int| 0 <= k < tail.len() implies #[trigger] tail[k] == given.skip(
                    i + 1,
                )[k] by {
                    assert(after[i + 1 + k] == removed[i + k]);
                    assert(removed[i + k] == before[i + k + 1]);
                    assert(before.skip(i as int)[k + 1] == given.skip(i as int)[k + 1]);
                }
            }
        }
        i += 1;
    }
    assert(span_views(spans@).take(i as int) == span_views(spans@));
    assert(given.take(i as int) == given);
}

} // verus!
