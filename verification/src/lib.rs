//! The front end and the execution core of a small scripting language: a
//! tokenizer, a recursive-descent parser that builds a syntax tree, and a
//! tree-walking interpreter with lexical scopes.
//!
//! Every function is verified against a contract. The contracts speak of
//! mathematical values: a text is a `Seq<char>`, a tree is the value of its
//! nodes, and an environment is a sequence of maps from names to values. The
//! rules that the contracts refer to stand in [`lexer::rules`],
//! [`parser::grammar`], [`interpreter::evaluator`] and
//! [`interpreter::executor`]; what is proved of the rules for all inputs
//! stands beside them and in [`parser::printer`].
#![allow(non_snake_case)]

pub mod ast;
pub mod interpreter;
pub mod lexer;
pub mod parser;
