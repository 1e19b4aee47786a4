//! What can go wrong when a pattern is built.

use vstd::prelude::*;

verus! {

/// Why no pattern was built.
#[derive(Clone, Copy, Debug, PartialEq, Eq)]
pub enum PatternError {
    /// No word is highlighted.
    EmptySelection,
}

impl PatternError {
    /// The error in words, for the user.
    pub fn message(&self) -> (text: String)
        ensures
            text@ == "No selections to build pattern from"@,
    {
        match self {
            PatternError::EmptySelection => "No selections to build pattern from".to_owned(),
        }
    }
}

} // verus!
