pub mod classes;
pub mod cursor;
pub mod error;
pub mod lexer;
pub mod rules;
pub mod span;
pub mod text;
pub mod token;

pub use error::LexerError;
pub use lexer::Lexer;
pub use span::Span;
pub use token::{Number, Token, TokenKind, TokenKindView, TokenView};
