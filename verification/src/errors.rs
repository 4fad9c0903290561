use vstd::prelude::*;

verus! {

/// The fatal conditions that stop a conversion run.
///
/// Every one of these is unrecoverable: the transpiler emits no partial
/// output once any of them is detected.
#[derive(Clone, Copy, PartialEq, Eq, Structural, Debug)]
pub enum GrammarError {
    /// The source text holds no section marker at all.
    MissingStartMarker,
    /// The source text holds no second section marker after the first.
    MissingEndMarker,
    /// A semantic action opens more braces than it closes.
    UnbalancedBraces,
    /// A rule has no name/body separator (`:`).
    MissingRuleSeparator,
}

impl GrammarError {
    /// A short description of the condition, for the host program's report.
    pub fn message(&self) -> &'static str {
        match self {
            GrammarError::MissingStartMarker => "could not find start of grammar rules",
            GrammarError::MissingEndMarker => "could not find end of grammar rules",
            GrammarError::UnbalancedBraces => "unbalanced braces in a semantic action",
            GrammarError::MissingRuleSeparator => "rule is missing the name/body separator",
        }
    }
}

} // verus!
