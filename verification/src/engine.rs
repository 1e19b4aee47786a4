//! Running a compiled expression over a text.

use vstd::prelude::*;

verus! {

/// The matches of a regular expression in a text, as the engine finds them: each
/// a pair of the offset where the match begins and the offset just after its end,
/// both counted in bytes of the text. It has a meaning only for an expression
/// that the engine accepts (`engine_accepts`).
pub uninterp spec fn match_spans(regex: Seq<char>, text: Seq<char>) -> Seq<(usize, usize)>;

/// Whether the engine accepts the expression: whether `regex::Regex::new` builds
/// a matcher from it.
pub uninterp spec fn engine_accepts(regex: Seq<char>) -> bool;

/// How many bytes the text takes.
pub open spec fn byte_length(text: Seq<char>) -> nat {
    vstd::utf8::encode_utf8(text).len()
}

/// Whether the spans lie in a text of `length` bytes, from left to right without
/// overlapping: no span ends before it begins or after the text, and none begins
/// before an earlier one has ended.
pub open spec fn are_successive(spans: Seq<(usize, usize)>, length: nat) -> bool {
    &&& forall|i: int| 0 <= i < spans.len() ==> (#[trigger] spans[i]).0 <= spans[i].1 <= length
    &&& forall|i: int, j: int|
        0 <= i < j < spans.len() ==> (#[trigger] spans[i]).1 <= (#[trigger] spans[j]).0
}

/// Why the engine did not accept an expression: `regex::Error`, of which nothing
/// is read here.
#[verifier::external_type_specification]
#[verifier::external_body]
pub struct ExRegexError(regex::Error);

/// Calls `regex::Regex::new` on the expression and, where that accepts it,
/// `Regex::find_iter` on the text, and reads each match with `Match::start` and
/// `Match::end`.
///
/// `Regex::new` reads the expression alone, under the syntax and the size limits
/// that the engine is built with, so whether it accepts depends on the expression
/// alone: the contract gives that the name `engine_accepts`, and says no more of
/// which expressions those are. Where it accepts one, the matches depend on the
/// expression and the text alone, and the contract gives them the name
/// `match_spans`. `find_iter` yields successive matches that do not overlap, and
/// the offsets of a match can be used to slice the text, the first never greater
/// than the second.
#[verifier::external_body]
pub(crate) fn find_matches(regex: &str, text: &str) -> (found: Result<
    Vec<(usize, usize)>,
    regex::Error,
>)
    ensures
        found is Ok <==> engine_accepts(regex@),
        found matches Ok(spans) ==> spans@ == match_spans(regex@, text@) && are_successive(
            spans@,
            byte_length(text@),
        ),
{
    match regex::Regex::new(regex) {
        Ok(compiled) => Ok(compiled.find_iter(text).map(|m| (m.start(), m.end())).collect()),
        Err(error) => Err(error),
    }
}

/// What a test gives for an answer of the engine: the matches where the engine
/// accepted the expression, and nothing where it did not, whatever its reason.
pub fn matches_or_nothing(answer: Result<Vec<(usize, usize)>, regex::Error>) -> (found: Option<
    Vec<(usize, usize)>,
>)
    ensures
        answer matches Ok(spans) ==> found == Some(spans),
        answer is Err ==> found is None,
{
    match answer {
        Ok(spans) => Some(spans),
        Err(_) => None,
    }
}

} // verus!
