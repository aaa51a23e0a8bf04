use crate::ast::{stmt_views, Stmt};
use crate::interpreter::environment::{Environment, Scope};
use crate::interpreter::executor::{outcome_view, run_block, Executor};
use crate::interpreter::value::ValueView;
use vstd::prelude::*;

verus! {

/// A tree-walking interpreter: one global environment, kept from one run to
/// the next.
pub struct Interpreter {
    environment: Environment,
    executor: Executor,
}

impl Interpreter {
    /// The interpreter's scopes: the global scope alone.
    pub closed spec fn scopes(&self) -> Seq<Scope> {
        self.environment@
    }

    /// An interpreter whose global scope binds nothing.
    pub fn new() -> (interpreter: Interpreter)
        ensures
            interpreter.scopes() == seq![Map::<Seq<char>, ValueView>::empty()],
    {
        Interpreter { environment: Environment::new(), executor: Executor::new() }
    }

    /// Runs `statements` in the global environment, as [`run_block`] states.
    pub fn interpret(&mut self, statements: &[Stmt]) -> (result: Result<(), String>)
        ensures
            (final(self).scopes(), outcome_view(result)) == run_block(
                stmt_views(statements@),
                old(self).scopes(),
            ),
    {
        self.executor.execute_block(statements, &mut self.environment)
    }

    /// The global environment.
    pub fn environment(&self) -> (env: &Environment)
        ensures
            env@ == self.scopes(),
    {
        &self.environment
    }
}

} // verus!
