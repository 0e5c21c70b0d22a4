use vstd::prelude::*;

verus! {

/// Why an equation could not be turned into an expression tree.
///
/// Every failure is final for the parse that met it: the stage that finds
/// one stops and hands it to the caller unchanged.
#[derive(Debug, Clone, Copy, PartialEq, Eq, Structural)]
pub enum EquationParseError {
    /// A character of the text belongs to no token.
    UnrecognizedCharacter,
    /// A run of digits and decimal points does not spell a decimal number.
    InvalidLiteral,
    /// A name that is followed by `(` is none of the known functions.
    UnknownFunction,
    /// A scope is closed by a symbol that does not pair with the one that
    /// opened it.
    MismatchedGrouping,
    /// A scope is opened and never closed, or closed without being open.
    UnbalancedGrouping,
    /// A function is called with another number of arguments than it takes.
    WrongArity { expected: usize, found: usize },
    /// An operand is missing where one has to stand.
    EmptyExpression,
    /// A token stands where the grammar has no place for it.
    UnexpectedToken,
    /// Tokens remain behind a complete expression.
    TrailingTokens,
}

impl EquationParseError {
    /// The text of the message that goes with each kind of failure.
    pub open spec fn message_text(self) -> Seq<char> {
        match self {
            EquationParseError::UnrecognizedCharacter => "No character match"@,
            EquationParseError::InvalidLiteral => "Bad literal"@,
            EquationParseError::UnknownFunction => "Unknown function"@,
            EquationParseError::MismatchedGrouping => "Mismatched grouping"@,
            EquationParseError::UnbalancedGrouping => "Unbalanced grouping"@,
            EquationParseError::WrongArity { .. } => "Wrong number of arguments"@,
            EquationParseError::EmptyExpression => "Empty expression"@,
            EquationParseError::UnexpectedToken => "Unexpected token"@,
            EquationParseError::TrailingTokens => "Trailing tokens"@,
        }
    }

    /// A short message for a person to read.
    pub fn message(&self) -> (text: &'static str)
        ensures
            text@ == self.message_text(),
    {
        match self {
            EquationParseError::UnrecognizedCharacter => "No character match",
            EquationParseError::InvalidLiteral => "Bad literal",
            EquationParseError::UnknownFunction => "Unknown function",
            EquationParseError::MismatchedGrouping => "Mismatched grouping",
            EquationParseError::UnbalancedGrouping => "Unbalanced grouping",
            EquationParseError::WrongArity { .. } => "Wrong number of arguments",
            EquationParseError::EmptyExpression => "Empty expression",
            EquationParseError::UnexpectedToken => "Unexpected token",
            EquationParseError::TrailingTokens => "Trailing tokens",
        }
    }
}

} // verus!
