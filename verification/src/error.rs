//! The ways in which running a program can fail.

use vstd::prelude::*;

verus! {

/// A failure of the interpreter. Each kind has one fixed text, which is what
/// the executable functions hand back in their `Err`.
#[derive(Clone, Copy, Debug, PartialEq, Eq)]
pub enum ForthError {
    /// A value was pushed onto a full stack.
    StackOverflow,
    /// A value was asked of a stack that holds too few.
    StackUnderflow,
    /// The divisor of `/` was zero.
    DivisionByZero,
    /// A definition has no name, a numeric name or no closing `;`, or a `;`
    /// stands where no definition is open.
    InvalidWord,
    /// A word is neither defined nor built in.
    UnknownWord,
    /// An `IF` has no matching `THEN`.
    MissingThen,
    /// A `:` stands inside the body of a definition.
    NestedDefinition,
    /// `EMIT` was given a value that is no code point.
    InvalidCharacter,
}

impl ForthError {
    /// The text that stands for this failure.
    pub open spec fn text(self) -> Seq<char> {
        match self {
            ForthError::StackOverflow => "stack-overflow"@,
            ForthError::StackUnderflow => "stack-underflow"@,
            ForthError::DivisionByZero => "division-by-zero"@,
            ForthError::InvalidWord => "invalid-word"@,
            ForthError::UnknownWord => "?"@,
            ForthError::MissingThen => "Missing THEN for IF"@,
            ForthError::NestedDefinition => "Syntax error: nested definitions are not allowed"@,
            ForthError::InvalidCharacter => "Valor para EMIT no es un carácter válido"@,
        }
    }

    /// The text that stands for this failure, as an owned string.
    pub fn message(&self) -> (s: String)
        ensures
            s@ == self.text(),
    {
        match self {
            ForthError::StackOverflow => "stack-overflow".to_string(),
            ForthError::StackUnderflow => "stack-underflow".to_string(),
            ForthError::DivisionByZero => "division-by-zero".to_string(),
            ForthError::InvalidWord => "invalid-word".to_string(),
            ForthError::UnknownWord => "?".to_string(),
            ForthError::MissingThen => "Missing THEN for IF".to_string(),
            ForthError::NestedDefinition => "Syntax error: nested definitions are not allowed".to_string(),
            ForthError::InvalidCharacter => "Valor para EMIT no es un carácter válido".to_string(),
        }
    }
}

/// Whether an executable result reports exactly the given outcome: `Ok` for
/// no failure, else `Err` with the failure's text.
pub open spec fn reports<T>(r: Result<T, String>, error: Option<ForthError>) -> bool {
    match error {
        None => r is Ok,
        Some(e) => r is Err && r->Err_0@ == e.text(),
    }
}

/// No two failures share a text.
pub proof fn lemma_texts_differ(a: ForthError, b: ForthError)
    ensures
        a.text() == b.text() <==> a == b,
{
    reveal_strlit("stack-overflow");
    reveal_strlit("stack-underflow");
    reveal_strlit("division-by-zero");
    reveal_strlit("invalid-word");
    reveal_strlit("?");
    reveal_strlit("Missing THEN for IF");
    reveal_strlit("Syntax error: nested definitions are not allowed");
    reveal_strlit("Valor para EMIT no es un carácter válido");
    if a != b {
        assert(a.text().len() != b.text().len());
    }
}

} // verus!
