use crate::lexer::span::Span;
use vstd::prelude::*;

verus! {

/// Why the tokenizer could not produce a token.
#[derive(Debug, Clone, Copy, PartialEq, Eq, Structural)]
pub enum LexerError {
    /// A character that begins no token.
    UnexpectedCharacter { found: char, span: Span },
    /// A string literal that the end of the text cut short.
    UnterminatedString { span: Span },
}

} // verus!
