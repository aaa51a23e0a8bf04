pub mod error;
pub mod grammar;
pub mod parser;
pub mod printer;

pub use crate::ast::{Expr, Literal, Stmt, Type};
pub use error::{ParserError, ParserErrorView};
pub use parser::Parser;
