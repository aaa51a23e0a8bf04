use crate::ast::{Literal, LiteralView};
use crate::lexer::token::Number;
use vstd::prelude::*;
use vstd::std_specs::convert::FromSpecImpl;

verus! {

/// What an expression reduces to when the program runs.
#[derive(Debug, PartialEq)]
pub enum Value {
    String(String),
    Number(Number),
    Bool(bool),
    Null,
}

/// The mathematical value of a [`Value`].
pub ghost enum ValueView {
    String(Seq<char>),
    Number(Number),
    Bool(bool),
    Null,
}

impl View for Value {
    type V = ValueView;

    open spec fn view(&self) -> ValueView {
        match self {
            Value::String(text) => ValueView::String(text@),
            Value::Number(number) => ValueView::Number(*number),
            Value::Bool(flag) => ValueView::Bool(*flag),
            Value::Null => ValueView::Null,
        }
    }
}

impl Clone for Value {
    fn clone(&self) -> (copy: Value)
        ensures
            copy == *self,
    {
        match self {
            Value::String(text) => Value::String(text.clone()),
            Value::Number(number) => Value::Number(*number),
            Value::Bool(flag) => Value::Bool(*flag),
            Value::Null => Value::Null,
        }
    }
}

/// The value that a literal stands for: the same text, number or truth value,
/// or null for null.
pub open spec fn literal_value(literal: LiteralView) -> ValueView {
    match literal {
        LiteralView::String(text) => ValueView::String(text),
        LiteralView::Number(number) => ValueView::Number(number),
        LiteralView::Bool(flag) => ValueView::Bool(flag),
        LiteralView::Null => ValueView::Null,
    }
}

impl From<Literal> for Value {
    fn from(literal: Literal) -> (value: Value)
        ensures
            value@ == literal_value(literal@),
    {
        match literal {
            Literal::String(text) => Value::String(text),
            Literal::Number(number) => Value::Number(number),
            Literal::Bool(flag) => Value::Bool(flag),
            Literal::Null => Value::Null,
        }
    }
}

impl FromSpecImpl<Literal> for Value {
    open spec fn obeys_from_spec() -> bool {
        true
    }

    open spec fn from_spec(literal: Literal) -> Value {
        match literal {
            Literal::String(text) => Value::String(text),
            Literal::Number(number) => Value::Number(number),
            Literal::Bool(flag) => Value::Bool(flag),
            Literal::Null => Value::Null,
        }
    }
}

} // verus!
