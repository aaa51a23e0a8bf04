use crate::ast::{stmt_views, ExprView, LiteralView, Stmt, StmtView, TypeView};
use crate::interpreter::environment::{defined, lookup, undefined_variable, Environment, Scope};
use crate::interpreter::evaluator::{reduce, Evaluator};
use crate::interpreter::value::literal_value;
use vstd::prelude::*;

verus! {

/// How a run ended: well, or with the message of the failure that stopped it.
pub type Outcome = Result<(), Seq<char>>;

/// The chain of scopes after `stmt` has run in `scopes`, and how the run
/// ended.
///
/// A variable declaration reduces its initializer and binds the name in the
/// innermost scope. An expression statement reduces its expression for the
/// failure that it may raise. A function declaration does nothing. A failure
/// leaves the chain as it was.
pub open spec fn run_statement(stmt: StmtView, scopes: Seq<Scope>) -> (Seq<Scope>, Outcome) {
    match stmt {
        StmtView::VarDecl { name, ty, initializer } => match reduce(initializer, scopes) {
            Ok(value) => (defined(scopes, name, value), Ok(())),
            Err(message) => (scopes, Err(message)),
        },
        StmtView::ExprStmt(expr) => match reduce(expr, scopes) {
            Ok(_) => (scopes, Ok(())),
            Err(message) => (scopes, Err(message)),
        },
        StmtView::FuncDecl { .. } => (scopes, Ok(())),
    }
}

/// The chain of scopes after the statements `stmts` have run in `scopes`, one
/// after the other, and how the run ended. The first failure stops the run;
/// what the statements before it have bound stays bound.
pub open spec fn run_block(stmts: Seq<StmtView>, scopes: Seq<Scope>) -> (Seq<Scope>, Outcome)
    decreases stmts.len(),
{
    if stmts.len() == 0 {
        (scopes, Ok(()))
    } else {
        match run_statement(stmts[0], scopes) {
            (next, Ok(_)) => run_block(stmts.drop_first(), next),
            (next, Err(message)) => (next, Err(message)),
        }
    }
}

/// A statement that fails leaves the chain of scopes as it was.
pub proof fn lemma_failure_changes_nothing(stmt: StmtView, scopes: Seq<Scope>)
    ensures
        run_statement(stmt, scopes).1 is Err ==> run_statement(stmt, scopes).0 == scopes,
{
}

/// An expression statement leaves the chain of scopes as it was, and fails
/// exactly when its expression does.
pub proof fn lemma_expression_statement_binds_nothing(expr: ExprView, scopes: Seq<Scope>)
    ensures
        run_statement(StmtView::ExprStmt(expr), scopes).0 == scopes,
        run_statement(StmtView::ExprStmt(expr), scopes).1 is Err <==> reduce(expr, scopes) is Err,
{
}

/// An expression statement that reads a variable which no scope defines
/// fails, says which variable, and leaves the chain of scopes as it was.
pub proof fn lemma_undefined_reference_fails(name: Seq<char>, scopes: Seq<Scope>)
    requires
        lookup(scopes, name) is None,
    ensures
        run_statement(StmtView::ExprStmt(ExprView::Variable(name)), scopes) == (
            scopes,
            Outcome::Err(undefined_variable(name)),
        ),
{
}

/// A variable that was declared with a literal is bound to the literal's
/// value afterwards.
pub proof fn lemma_declared_variable_is_bound(
    name: Seq<char>,
    ty: Option<TypeView>,
    literal: LiteralView,
    scopes: Seq<Scope>,
)
    requires
        scopes.len() > 0,
    ensures
        ({
            let declaration = StmtView::VarDecl {
                name,
                ty,
                initializer: ExprView::Literal(literal),
            };
            let (after, outcome) = run_statement(declaration, scopes);
            outcome is Ok && lookup(after, name) == Some(literal_value(literal))
        }),
{
}

/// The value of what a run returned.
pub open spec fn outcome_view(result: Result<(), String>) -> Outcome {
    match result {
        Ok(_) => Ok(()),
        Err(message) => Err(message@),
    }
}

/// Runs statements against an environment.
pub struct Executor {
    evaluator: Evaluator,
}

impl Executor {
    /// An executor. It holds no state of its own: what a run changes is the
    /// environment that is handed to it.
    pub fn new() -> (executor: Executor) {
        Executor { evaluator: Evaluator::new() }
    }

    /// Runs `stmt` in `env`, as [`run_statement`] states.
    pub fn execute(&self, stmt: &Stmt, env: &mut Environment) -> (result: Result<(), String>)
        ensures
            (final(env)@, outcome_view(result)) == run_statement(stmt@, old(env)@),
    {
        match stmt {
            Stmt::VarDecl { name, initializer, .. } => {
                let value = self.evaluator.evaluate(initializer, env)?;
                env.define(name.clone(), value);
                Ok(())
            },
            Stmt::ExprStmt(expr) => {
                self.evaluator.evaluate(expr, env)?;
                Ok(())
            },
            Stmt::FuncDecl { .. } => {
                Ok(())
            },
        }
    }

    /// Runs `statements` in `env`, one after the other, as [`run_block`]
    /// states.
    pub fn execute_block(&self, statements: &[Stmt], env: &mut Environment) -> (result: Result<
        (),
        String,
    >)
        ensures
            (final(env)@, outcome_view(result)) == run_block(stmt_views(statements@), old(env)@),
    {
        let ghost views = stmt_views(statements@);
        proof {
            assert(views.skip(0) =~= views);
        }
        let mut i: usize = 0;
        while i < statements.len()
            invariant
                i <= statements.len(),
                views == stmt_views(statements@),
                run_block(views, old(env)@) == run_block(views.skip(i as int), env@),
            decreases statements.len() - i,
        {
            assert(views.skip(i as int).drop_first() =~= views.skip(i + 1));
            self.execute(&statements[i], env)?;
            i += 1;
        }
        Ok(())
    }
}

} // verus!
