//! The errors of a translation and their diagnostics.
use vstd::prelude::*;
use crate::text::{abort, expected, error_line, expected_line};

verus! {

/// What a failed `match` was looking for.
#[derive(Clone, Copy, Debug, PartialEq, Eq, Structural)]
pub enum Expected {
    /// A particular character.
    Char(u8),
    /// The terminator that ends a program.
    End,
}

/// Why a translation stopped. Every error is fatal.
#[derive(Clone, Copy, Debug, PartialEq, Eq, Structural)]
pub enum TranslateError {
    /// More input was needed but the source was exhausted.
    InputExhausted,
    /// The lookahead differed from what the grammar required.
    UnexpectedCharacter(Expected),
    /// A name was required but the lookahead was not a letter.
    InvalidName,
}

/// The diagnostic that reports `e`.
pub open spec fn diagnostic(e: TranslateError) -> Seq<char> {
    match e {
        TranslateError::InputExhausted => error_line(
            seq!['I', 'n', 'p', 'u', 't', ' ', 'e', 'x', 'h', 'a', 'u', 's', 't', 'e', 'd'],
        ),
        TranslateError::UnexpectedCharacter(Expected::Char(c)) => expected_line(seq![c as char]),
        TranslateError::UnexpectedCharacter(Expected::End) => expected_line(seq!['E', 'n', 'd']),
        TranslateError::InvalidName => expected_line(seq!['N', 'a', 'm', 'e']),
    }
}

impl TranslateError {
    /// The diagnostic line that reports this error.
    pub fn message(&self) -> (r: Vec<char>)
        ensures
            r@ == diagnostic(*self),
    {
        match self {
            TranslateError::InputExhausted => {
                let t: Vec<char> = vec![
                    'I', 'n', 'p', 'u', 't', ' ', 'e', 'x', 'h', 'a', 'u', 's', 't', 'e', 'd',
                ];
                abort(t.as_slice())
            },
            TranslateError::UnexpectedCharacter(Expected::Char(c)) => {
                let t: Vec<char> = vec![*c as char];
                expected(t.as_slice())
            },
            TranslateError::UnexpectedCharacter(Expected::End) => {
                let t: Vec<char> = vec!['E', 'n', 'd'];
                expected(t.as_slice())
            },
            TranslateError::InvalidName => {
                let t: Vec<char> = vec!['N', 'a', 'm', 'e'];
                expected(t.as_slice())
            },
        }
    }
}

} // verus!
