use crate::lexer::span::Span;
use crate::lexer::token::{TokenKind, TokenKindView};
use vstd::prelude::*;

verus! {

/// Why a parse stopped, and where.
#[derive(Debug, PartialEq)]
pub enum ParserError {
    UnexpectedToken { expected: Vec<TokenKind>, found: TokenKind, span: Span },
    UnexpectedEOF { expected: Vec<TokenKind>, span: Span },
    Custom { message: String, span: Span },
}

/// The mathematical value of a [`ParserError`].
pub ghost enum ParserErrorView {
    UnexpectedToken { expected: Seq<TokenKindView>, found: TokenKindView, span: Span },
    UnexpectedEOF { expected: Seq<TokenKindView>, span: Span },
    Custom { message: Seq<char>, span: Span },
}

/// The values of a run of token kinds, in order.
pub open spec fn kind_views(kinds: Seq<TokenKind>) -> Seq<TokenKindView> {
    Seq::new(kinds.len(), |i: int| kinds[i]@)
}

impl View for ParserError {
    type V = ParserErrorView;

    open spec fn view(&self) -> ParserErrorView {
        match self {
            ParserError::UnexpectedToken { expected, found, span } => {
                ParserErrorView::UnexpectedToken {
                    expected: kind_views(expected@),
                    found: found@,
                    span: *span,
                }
            },
            ParserError::UnexpectedEOF { expected, span } => ParserErrorView::UnexpectedEOF {
                expected: kind_views(expected@),
                span: *span,
            },
            ParserError::Custom { message, span } => ParserErrorView::Custom {
                message: message@,
                span: *span,
            },
        }
    }
}

fn clone_kinds(kinds: &Vec<TokenKind>) -> (copies: Vec<TokenKind>)
    ensures
        copies@ == kinds@,
{
    let mut copies: Vec<TokenKind> = Vec::new();
    let mut i: usize = 0;
    while i < kinds.len()
        invariant
            i <= kinds.len(),
            copies@ == kinds@.take(i as int),
        decreases kinds.len() - i,
    {
        copies.push(kinds[i].clone());
        i += 1;
        assert(copies@ =~= kinds@.take(i as int));
    }
    assert(kinds@.take(kinds@.len() as int) =~= kinds@);
    copies
}

impl Clone for ParserError {
    fn clone(&self) -> (copy: ParserError)
        ensures
            copy@ == self@,
    {
        match self {
            ParserError::UnexpectedToken { expected, found, span } => ParserError::UnexpectedToken {
                expected: clone_kinds(expected),
                found: found.clone(),
                span: *span,
            },
            ParserError::UnexpectedEOF { expected, span } => ParserError::UnexpectedEOF {
                expected: clone_kinds(expected),
                span: *span,
            },
            ParserError::Custom { message, span } => ParserError::Custom {
                message: message.clone(),
                span: *span,
            },
        }
    }
}

impl ParserError {
    /// An error that carries a free-form message.
    pub fn new(message: String, span: Span) -> (error: ParserError)
        ensures
            error@ == (ParserErrorView::Custom { message: message@, span }),
    {
        ParserError::Custom { message, span }
    }
}

} // verus!
