use crate::ast::{expr_views, Expr, ExprView};
use crate::interpreter::environment::{
    lookup, undefined_variable, undefined_variable_message, Environment, Scope,
};
use crate::interpreter::value::{literal_value, Value, ValueView};
use vstd::prelude::*;

verus! {

/// What a reduction came to: the value, or the message of the failure.
pub type Reduced = Result<ValueView, Seq<char>>;

/// What `expr` reduces to in the chain `scopes`.
///
/// A literal is its value and a variable is its nearest binding; a variable
/// that no scope defines is the one failure there is. An operator node and a
/// call read their parts in the order in which they were written, so that the
/// first undefined variable among them fails the whole; where all are
/// defined they yield null, for this core neither computes on numbers nor
/// applies functions.
pub open spec fn reduce(expr: ExprView, scopes: Seq<Scope>) -> Reduced
    decreases expr,
{
    match expr {
        ExprView::Literal(literal) => Ok(literal_value(literal)),
        ExprView::Variable(name) => match lookup(scopes, name) {
            Some(value) => Ok(value),
            None => Err(undefined_variable(name)),
        },
        ExprView::Binary { left, op, right } => match reduce(*left, scopes) {
            Ok(_) => match reduce(*right, scopes) {
                Ok(_) => Ok(ValueView::Null),
                Err(message) => Err(message),
            },
            Err(message) => Err(message),
        },
        ExprView::Call { callee, args } => match reduce(*callee, scopes) {
            Ok(_) => match first_failure(args, scopes) {
                None => Ok(ValueView::Null),
                Some(message) => Err(message),
            },
            Err(message) => Err(message),
        },
    }
}

/// The failure of the first of `exprs` that fails in `scopes`, if one does.
pub open spec fn first_failure(exprs: Seq<ExprView>, scopes: Seq<Scope>) -> Option<Seq<char>>
    decreases exprs,
{
    if exprs.len() == 0 {
        None
    } else {
        match reduce(exprs[0], scopes) {
            Ok(_) => first_failure(exprs.drop_first(), scopes),
            Err(message) => Some(message),
        }
    }
}

/// The variables that `expr` reads, in the order in which it reads them.
pub open spec fn variables(expr: ExprView) -> Seq<Seq<char>>
    decreases expr,
{
    match expr {
        ExprView::Literal(_) => Seq::empty(),
        ExprView::Variable(name) => seq![name],
        ExprView::Binary { left, op, right } => variables(*left) + variables(*right),
        ExprView::Call { callee, args } => variables(*callee) + variables_of_all(args),
    }
}

/// The variables that `exprs` read, one expression after the other.
pub open spec fn variables_of_all(exprs: Seq<ExprView>) -> Seq<Seq<char>>
    decreases exprs,
{
    if exprs.len() == 0 {
        Seq::empty()
    } else {
        variables(exprs[0]) + variables_of_all(exprs.drop_first())
    }
}

/// The first of `names` that no scope of the chain defines, if there is one.
pub open spec fn first_undefined(names: Seq<Seq<char>>, scopes: Seq<Scope>) -> Option<Seq<char>>
    decreases names.len(),
{
    if names.len() == 0 {
        None
    } else if lookup(scopes, names[0]) is None {
        Some(names[0])
    } else {
        first_undefined(names.drop_first(), scopes)
    }
}

/// The first undefined name of two runs of names is that of the first run,
/// or else that of the second.
pub proof fn lemma_first_undefined_of_both(
    front: Seq<Seq<char>>,
    back: Seq<Seq<char>>,
    scopes: Seq<Scope>,
)
    ensures
        first_undefined(front + back, scopes) == match first_undefined(front, scopes) {
            Some(name) => Some(name),
            None => first_undefined(back, scopes),
        },
    decreases front.len(),
{
    if front.len() == 0 {
        assert(front + back =~= back);
    } else {
        assert((front + back).drop_first() =~= front.drop_first() + back);
        lemma_first_undefined_of_both(front.drop_first(), back, scopes);
    }
}

/// An expression fails exactly when it reads a variable that no scope
/// defines, and the failure reports the first such variable that it reads.
pub proof fn lemma_reduce_fails_on_first_undefined(expr: ExprView, scopes: Seq<Scope>)
    ensures
        reduce(expr, scopes) is Err <==> first_undefined(variables(expr), scopes) is Some,
        match first_undefined(variables(expr), scopes) {
            Some(name) => reduce(expr, scopes) == Reduced::Err(undefined_variable(name)),
            None => reduce(expr, scopes) is Ok,
        },
    decreases expr,
{
    match expr {
        ExprView::Literal(_) => {},
        ExprView::Variable(name) => {
            assert(seq![name].drop_first() =~= Seq::<Seq<char>>::empty());
            reveal_with_fuel(first_undefined, 2);
        },
        ExprView::Binary { left, op, right } => {
            lemma_reduce_fails_on_first_undefined(*left, scopes);
            lemma_reduce_fails_on_first_undefined(*right, scopes);
            lemma_first_undefined_of_both(variables(*left), variables(*right), scopes);
        },
        ExprView::Call { callee, args } => {
            lemma_reduce_fails_on_first_undefined(*callee, scopes);
            lemma_first_failure_is_first_undefined(args, scopes);
            lemma_first_undefined_of_both(variables(*callee), variables_of_all(args), scopes);
        },
    }
}

/// As [`lemma_reduce_fails_on_first_undefined`], for a run of expressions.
pub proof fn lemma_first_failure_is_first_undefined(exprs: Seq<ExprView>, scopes: Seq<Scope>)
    ensures
        first_failure(exprs, scopes) == match first_undefined(variables_of_all(exprs), scopes) {
            Some(name) => Some(undefined_variable(name)),
            None => None,
        },
    decreases exprs,
{
    if exprs.len() > 0 {
        lemma_reduce_fails_on_first_undefined(exprs[0], scopes);
        lemma_first_failure_is_first_undefined(exprs.drop_first(), scopes);
        lemma_first_undefined_of_both(
            variables(exprs[0]),
            variables_of_all(exprs.drop_first()),
            scopes,
        );
    }
}

/// The value of what an evaluation returned.
pub open spec fn reduced_view(result: Result<Value, String>) -> Reduced {
    match result {
        Ok(value) => Ok(value@),
        Err(message) => Err(message@),
    }
}

/// Reduces expressions to values.
pub struct Evaluator {}

impl Evaluator {
    /// An evaluator. It holds no state.
    pub fn new() -> (evaluator: Evaluator) {
        Evaluator {  }
    }

    /// Reduces `expr` in `env`, as [`reduce`] states.
    pub fn evaluate(&self, expr: &Expr, env: &Environment) -> (result: Result<Value, String>)
        ensures
            reduced_view(result) == reduce(expr@, env@),
        decreases expr,
    {
        match expr {
            Expr::Literal(literal) => Ok(Value::from(literal.clone())),
            Expr::Variable(name) => match env.get(name.as_str()) {
                Some(value) => Ok(value.clone()),
                None => Err(undefined_variable_message(name.as_str())),
            },
            Expr::Binary { left, op, right } => {
                self.evaluate(left, env)?;
                self.evaluate(right, env)?;
                Ok(Value::Null)
            },
            Expr::Call { callee, args } => {
                self.evaluate(callee, env)?;
                let ghost views = expr_views(args@);
                proof {
                    assert(expr@->Call_args =~= views);
                    assert(views.skip(0) =~= views);
                }
                let mut i: usize = 0;
                while i < args.len()
                    invariant
                        i <= args.len(),
                        expr is Call,
                        expr->Call_args == *args,
                        views == expr_views(args@),
                        reduce(expr@, env@) == match first_failure(views, env@) {
                            None => Reduced::Ok(ValueView::Null),
                            Some(message) => Err(message),
                        },
                        first_failure(views, env@) == first_failure(views.skip(i as int), env@),
                    decreases args.len() - i,
                {
                    assert(views.skip(i as int).drop_first() =~= views.skip(i + 1));
                    self.evaluate(&args[i], env)?;
                    i += 1;
                }
                Ok(Value::Null)
            },
        }
    }
}

} // verus!
