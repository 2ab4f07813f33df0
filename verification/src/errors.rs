//! The failure taxonomy shared by the tokenizer engine, the grammar
//! compiler, the rule table and the grammar interpreter. Every failure is
//! surfaced to the nearest caller as a typed value; nothing is retried.

use vstd::prelude::*;

verus! {

/// One typed failure value for the whole core.
#[derive(Clone, Copy, Debug, PartialEq, Eq, Structural)]
pub enum ParseError {
    /// No registered pattern matches at the current position in the current
    /// lexical state.
    LexicalMismatch,
    /// End of input was reached where a token was required.
    PrematureEnd,
    /// A decoded range's begin bound is not strictly below its end bound.
    RangeBoundsInvalid,
    /// A rule body is empty, or an alternation ended up with fewer than two
    /// branches.
    EmptyOrMalformedAlternation,
    /// The compiler saw a token kind (or token text) it has no handling for.
    UnknownTokenKind,
    /// The first-definition operator was used on an already defined name.
    DuplicateRuleDefinition,
    /// The extension operator was used on a name that is not defined.
    UndefinedRuleExtension,
    /// A rule reference names a rule absent from the rule table.
    UnknownRuleReference,
    /// A terminal's expected text does not equal the next token's text.
    TerminalMismatch,
    /// The documented recursion-depth policy: work nested deeper than the
    /// guard allows is cut off instead of recursing without bound.
    RecursionLimit,
    /// A definition node kind the interpreter leaves unevaluated (`Range`
    /// and `Repeat`): reaching one is an unconditional failure.
    UnsupportedDefinition,
}

impl ParseError {
    /// A short stable name for the error, for callers that want to print it.
    pub fn describe(&self) -> (r: &'static str)
        ensures
            r@ == self.describe_spec(),
    {
        match self {
            ParseError::LexicalMismatch => "lexical mismatch",
            ParseError::PrematureEnd => "premature end of input",
            ParseError::RangeBoundsInvalid => "range bounds invalid",
            ParseError::EmptyOrMalformedAlternation => "empty or malformed alternation",
            ParseError::UnknownTokenKind => "unknown token kind",
            ParseError::DuplicateRuleDefinition => "duplicate rule definition",
            ParseError::UndefinedRuleExtension => "undefined rule extension",
            ParseError::UnknownRuleReference => "unknown rule reference",
            ParseError::TerminalMismatch => "terminal mismatch",
            ParseError::RecursionLimit => "recursion limit reached",
            ParseError::UnsupportedDefinition => "unsupported definition kind",
        }
    }

    /// What `describe` returns for each variant.
    pub open spec fn describe_spec(&self) -> Seq<char> {
        match self {
            ParseError::LexicalMismatch => "lexical mismatch"@,
            ParseError::PrematureEnd => "premature end of input"@,
            ParseError::RangeBoundsInvalid => "range bounds invalid"@,
            ParseError::EmptyOrMalformedAlternation => "empty or malformed alternation"@,
            ParseError::UnknownTokenKind => "unknown token kind"@,
            ParseError::DuplicateRuleDefinition => "duplicate rule definition"@,
            ParseError::UndefinedRuleExtension => "undefined rule extension"@,
            ParseError::UnknownRuleReference => "unknown rule reference"@,
            ParseError::TerminalMismatch => "terminal mismatch"@,
            ParseError::RecursionLimit => "recursion limit reached"@,
            ParseError::UnsupportedDefinition => "unsupported definition kind"@,
        }
    }
}

} // verus!
