use vstd::prelude::*;

verus! {

/// Why a line could not be processed. Every failure concerns one line only.
#[derive(Debug, Clone, Copy, PartialEq, Eq, Structural)]
pub enum CalcError {
    /// A piece is no operator, parenthesis or memory token and does not read
    /// as a number.
    MalformedNumber,
    /// An opening parenthesis whose group is not followed by a closing one.
    UnbalancedParens,
    /// A token that cannot begin an operand stands where an operand is due.
    UnexpectedToken,
    /// The tokens end where an operand is due.
    UnexpectedEndOfInput,
    /// A complete expression is followed by further tokens.
    TrailingTokens,
}

impl CalcError {
    /// A few words that name the error, for a report to whoever entered the
    /// line.
    pub fn message(&self) -> (text: &'static str)
        ensures
            text@ == (match *self {
                CalcError::MalformedNumber => "malformed number"@,
                CalcError::UnbalancedParens => "unbalanced parentheses"@,
                CalcError::UnexpectedToken => "unexpected token"@,
                CalcError::UnexpectedEndOfInput => "unexpected end of input"@,
                CalcError::TrailingTokens => "trailing tokens"@,
            }),
    {
        match self {
            CalcError::MalformedNumber => "malformed number",
            CalcError::UnbalancedParens => "unbalanced parentheses",
            CalcError::UnexpectedToken => "unexpected token",
            CalcError::UnexpectedEndOfInput => "unexpected end of input",
            CalcError::TrailingTokens => "trailing tokens",
        }
    }
}

} // verus!
