use super::span::Span;
use vstd::prelude::*;

verus! {

/// A number of the language.
///
/// The language's numbers are IEEE 754 doubles. This library only carries them
/// from a token into the syntax tree and on into a runtime value, so it holds a
/// number as its 64-bit pattern and never looks inside.
#[derive(Debug, Clone, Copy, PartialEq, Eq, Structural)]
pub struct Number {
    pub bits: u64,
}

impl Number {
    /// Positive zero, whose pattern has no bit set.
    pub fn zero() -> (number: Number)
        ensures
            number == Number::spec_zero(),
    {
        Number { bits: 0 }
    }

    /// Positive zero.
    pub open spec fn spec_zero() -> Number {
        Number { bits: 0 }
    }
}

/// What a token is, together with the text or number that it carries.
#[derive(Debug, PartialEq)]
pub enum TokenKind {
    // punctuation
    LeftParen,
    RightParen,
    LeftBrace,
    RightBrace,
    Comma,
    Dot,
    Minus,
    Plus,
    Semicolon,
    Colon,
    Slash,
    Star,
    Percent,
    // keywords
    Var,
    Func,
    Return,
    If,
    Else,
    While,
    For,
    True,
    False,
    Null,
    // literals
    Identifier(String),
    StringLiteral(String),
    NumberLiteral(Number),
    // operators
    Equal,
    EqualEqual,
    Greater,
    GreaterEqual,
    Less,
    LessEqual,
    And,
    Or,
    // end of input
    Eof,
}

/// The mathematical value of a [`TokenKind`]: carried text is a sequence of
/// characters.
pub ghost enum TokenKindView {
    // punctuation
    LeftParen,
    RightParen,
    LeftBrace,
    RightBrace,
    Comma,
    Dot,
    Minus,
    Plus,
    Semicolon,
    Colon,
    Slash,
    Star,
    Percent,
    // keywords
    Var,
    Func,
    Return,
    If,
    Else,
    While,
    For,
    True,
    False,
    Null,
    // literals
    Identifier(Seq<char>),
    StringLiteral(Seq<char>),
    NumberLiteral(Number),
    // operators
    Equal,
    EqualEqual,
    Greater,
    GreaterEqual,
    Less,
    LessEqual,
    And,
    Or,
    // end of input
    Eof,
}

impl TokenKindView {
    /// The kind with whatever it carries blanked out. Two kinds are the same
    /// variant exactly when their shapes are equal.
    pub open spec fn shape(self) -> TokenKindView {
        match self {
            TokenKindView::Identifier(_) => TokenKindView::Identifier(Seq::empty()),
            TokenKindView::StringLiteral(_) => TokenKindView::StringLiteral(Seq::empty()),
            TokenKindView::NumberLiteral(_) => TokenKindView::NumberLiteral(Number::spec_zero()),
            other => other,
        }
    }
}

impl View for TokenKind {
    type V = TokenKindView;

    open spec fn view(&self) -> TokenKindView {
        match self {
            TokenKind::LeftParen => TokenKindView::LeftParen,
            TokenKind::RightParen => TokenKindView::RightParen,
            TokenKind::LeftBrace => TokenKindView::LeftBrace,
            TokenKind::RightBrace => TokenKindView::RightBrace,
            TokenKind::Comma => TokenKindView::Comma,
            TokenKind::Dot => TokenKindView::Dot,
            TokenKind::Minus => TokenKindView::Minus,
            TokenKind::Plus => TokenKindView::Plus,
            TokenKind::Semicolon => TokenKindView::Semicolon,
            TokenKind::Colon => TokenKindView::Colon,
            TokenKind::Slash => TokenKindView::Slash,
            TokenKind::Star => TokenKindView::Star,
            TokenKind::Percent => TokenKindView::Percent,
            TokenKind::Var => TokenKindView::Var,
            TokenKind::Func => TokenKindView::Func,
            TokenKind::Return => TokenKindView::Return,
            TokenKind::If => TokenKindView::If,
            TokenKind::Else => TokenKindView::Else,
            TokenKind::While => TokenKindView::While,
            TokenKind::For => TokenKindView::For,
            TokenKind::True => TokenKindView::True,
            TokenKind::False => TokenKindView::False,
            TokenKind::Null => TokenKindView::Null,
            TokenKind::Identifier(text) => TokenKindView::Identifier(text@),
            TokenKind::StringLiteral(text) => TokenKindView::StringLiteral(text@),
            TokenKind::NumberLiteral(number) => TokenKindView::NumberLiteral(*number),
            TokenKind::Equal => TokenKindView::Equal,
            TokenKind::EqualEqual => TokenKindView::EqualEqual,
            TokenKind::Greater => TokenKindView::Greater,
            TokenKind::GreaterEqual => TokenKindView::GreaterEqual,
            TokenKind::Less => TokenKindView::Less,
            TokenKind::LessEqual => TokenKindView::LessEqual,
            TokenKind::And => TokenKindView::And,
            TokenKind::Or => TokenKindView::Or,
            TokenKind::Eof => TokenKindView::Eof,
        }
    }
}

impl Clone for TokenKind {
    fn clone(&self) -> (copy: TokenKind)
        ensures
            copy == *self,
    {
        match self {
            TokenKind::LeftParen => TokenKind::LeftParen,
            TokenKind::RightParen => TokenKind::RightParen,
            TokenKind::LeftBrace => TokenKind::LeftBrace,
            TokenKind::RightBrace => TokenKind::RightBrace,
            TokenKind::Comma => TokenKind::Comma,
            TokenKind::Dot => TokenKind::Dot,
            TokenKind::Minus => TokenKind::Minus,
            TokenKind::Plus => TokenKind::Plus,
            TokenKind::Semicolon => TokenKind::Semicolon,
            TokenKind::Colon => TokenKind::Colon,
            TokenKind::Slash => TokenKind::Slash,
            TokenKind::Star => TokenKind::Star,
            TokenKind::Percent => TokenKind::Percent,
            TokenKind::Var => TokenKind::Var,
            TokenKind::Func => TokenKind::Func,
            TokenKind::Return => TokenKind::Return,
            TokenKind::If => TokenKind::If,
            TokenKind::Else => TokenKind::Else,
            TokenKind::While => TokenKind::While,
            TokenKind::For => TokenKind::For,
            TokenKind::True => TokenKind::True,
            TokenKind::False => TokenKind::False,
            TokenKind::Null => TokenKind::Null,
            TokenKind::Identifier(text) => TokenKind::Identifier(text.clone()),
            TokenKind::StringLiteral(text) => TokenKind::StringLiteral(text.clone()),
            TokenKind::NumberLiteral(number) => TokenKind::NumberLiteral(*number),
            TokenKind::Equal => TokenKind::Equal,
            TokenKind::EqualEqual => TokenKind::EqualEqual,
            TokenKind::Greater => TokenKind::Greater,
            TokenKind::GreaterEqual => TokenKind::GreaterEqual,
            TokenKind::Less => TokenKind::Less,
            TokenKind::LessEqual => TokenKind::LessEqual,
            TokenKind::And => TokenKind::And,
            TokenKind::Or => TokenKind::Or,
            TokenKind::Eof => TokenKind::Eof,
        }
    }
}

impl TokenKind {
    /// Whether `self` and `other` are the same variant, whatever they carry:
    /// any two identifiers are the same kind, and so are any two strings and
    /// any two numbers.
    pub fn same_kind(&self, other: &TokenKind) -> (same: bool)
        ensures
            same == (self@.shape() == other@.shape()),
    {
        match (self, other) {
            (TokenKind::LeftParen, TokenKind::LeftParen) => true,
            (TokenKind::RightParen, TokenKind::RightParen) => true,
            (TokenKind::LeftBrace, TokenKind::LeftBrace) => true,
            (TokenKind::RightBrace, TokenKind::RightBrace) => true,
            (TokenKind::Comma, TokenKind::Comma) => true,
            (TokenKind::Dot, TokenKind::Dot) => true,
            (TokenKind::Minus, TokenKind::Minus) => true,
            (TokenKind::Plus, TokenKind::Plus) => true,
            (TokenKind::Semicolon, TokenKind::Semicolon) => true,
            (TokenKind::Colon, TokenKind::Colon) => true,
            (TokenKind::Slash, TokenKind::Slash) => true,
            (TokenKind::Star, TokenKind::Star) => true,
            (TokenKind::Percent, TokenKind::Percent) => true,
            (TokenKind::Var, TokenKind::Var) => true,
            (TokenKind::Func, TokenKind::Func) => true,
            (TokenKind::Return, TokenKind::Return) => true,
            (TokenKind::If, TokenKind::If) => true,
            (TokenKind::Else, TokenKind::Else) => true,
            (TokenKind::While, TokenKind::While) => true,
            (TokenKind::For, TokenKind::For) => true,
            (TokenKind::True, TokenKind::True) => true,
            (TokenKind::False, TokenKind::False) => true,
            (TokenKind::Null, TokenKind::Null) => true,
            (TokenKind::Identifier(_), TokenKind::Identifier(_)) => true,
            (TokenKind::StringLiteral(_), TokenKind::StringLiteral(_)) => true,
            (TokenKind::NumberLiteral(_), TokenKind::NumberLiteral(_)) => true,
            (TokenKind::Equal, TokenKind::Equal) => true,
            (TokenKind::EqualEqual, TokenKind::EqualEqual) => true,
            (TokenKind::Greater, TokenKind::Greater) => true,
            (TokenKind::GreaterEqual, TokenKind::GreaterEqual) => true,
            (TokenKind::Less, TokenKind::Less) => true,
            (TokenKind::LessEqual, TokenKind::LessEqual) => true,
            (TokenKind::And, TokenKind::And) => true,
            (TokenKind::Or, TokenKind::Or) => true,
            (TokenKind::Eof, TokenKind::Eof) => true,
            _ => false,
        }
    }
}

/// One token of a source text: its kind and where it stood.
#[derive(Debug, PartialEq)]
pub struct Token {
    pub kind: TokenKind,
    pub span: Span,
}

/// The mathematical value of a [`Token`].
pub ghost struct TokenView {
    pub kind: TokenKindView,
    pub span: Span,
}

impl Clone for Token {
    fn clone(&self) -> (copy: Token)
        ensures
            copy == *self,
    {
        Token { kind: self.kind.clone(), span: self.span }
    }
}

impl View for Token {
    type V = TokenView;

    open spec fn view(&self) -> TokenView {
        TokenView { kind: self.kind@, span: self.span }
    }
}

/// The values of a run of tokens, in order.
pub open spec fn token_views(tokens: Seq<Token>) -> Seq<TokenView> {
    Seq::new(tokens.len(), |i: int| tokens[i]@)
}

} // verus!
