use compiler::ast::{Expr, Literal, Parameter, Stmt};
use compiler::interpreter::environment::undefined_variable_message;
use compiler::interpreter::{Environment, Evaluator, Executor, Interpreter, Value};
use compiler::lexer::{Number, TokenKind};

fn string(text: &str) -> Expr {
    Expr::Literal(Literal::String(text.to_string()))
}

fn variable(name: &str) -> Expr {
    Expr::Variable(name.to_string())
}

fn declare(name: &str, initializer: Expr) -> Stmt {
    Stmt::VarDecl { name: name.to_string(), ty: None, initializer }
}

fn number(value: f64) -> Number {
    Number { bits: value.to_bits() }
}

#[test]
fn value_from_literal_is_one_to_one() {
    assert_eq!(Value::from(Literal::String("s".to_string())), Value::String("s".to_string()));
    assert_eq!(Value::from(Literal::Number(number(1.5))), Value::Number(number(1.5)));
    assert_eq!(Value::from(Literal::Bool(true)), Value::Bool(true));
    assert_eq!(Value::from(Literal::Bool(false)), Value::Bool(false));
    assert_eq!(Value::from(Literal::Null), Value::Null);
}

#[test]
fn numbers_keep_their_bits() {
    let value = Value::from(Literal::Number(number(-0.0)));
    match value {
        Value::Number(n) => {
            assert_eq!(f64::from_bits(n.bits).to_bits(), (-0.0f64).to_bits());
            assert_ne!(n, Number::zero());
        }
        other => panic!("unexpected value {:?}", other),
    }
}

#[test]
fn values_can_be_copied() {
    for value in [
        Value::String("abc".to_string()),
        Value::Number(number(3.25)),
        Value::Bool(true),
        Value::Null,
    ] {
        assert_eq!(value.clone(), value);
    }
}

#[test]
fn new_environment_binds_nothing() {
    let env = Environment::new();
    assert_eq!(env.get("x"), None);
    assert_eq!(env.get(""), None);
}

#[test]
fn define_then_get() {
    let mut env = Environment::new();
    env.define("x".to_string(), Value::Bool(true));
    assert_eq!(env.get("x"), Some(&Value::Bool(true)));
    assert_eq!(env.get("y"), None);
}

#[test]
fn define_overwrites_without_complaint() {
    let mut env = Environment::new();
    env.define("x".to_string(), Value::Bool(true));
    env.define("x".to_string(), Value::String("again".to_string()));
    assert_eq!(env.get("x"), Some(&Value::String("again".to_string())));
}

#[test]
fn get_walks_outward() {
    let mut global = Environment::new();
    global.define("g".to_string(), Value::Number(number(1.0)));
    global.define("both".to_string(), Value::String("outer".to_string()));
    let mut middle = Environment::withParent(global);
    middle.define("m".to_string(), Value::Null);
    let mut inner = Environment::withParent(middle);
    inner.define("both".to_string(), Value::String("inner".to_string()));

    assert_eq!(inner.get("g"), Some(&Value::Number(number(1.0))));
    assert_eq!(inner.get("m"), Some(&Value::Null));
    assert_eq!(inner.get("both"), Some(&Value::String("inner".to_string())));
    assert_eq!(inner.get("none"), None);
}

#[test]
fn define_in_a_child_shadows_the_parent() {
    let mut global = Environment::new();
    global.define("x".to_string(), Value::Bool(false));
    let mut inner = Environment::withParent(global);
    assert_eq!(inner.get("x"), Some(&Value::Bool(false)));
    inner.define("x".to_string(), Value::Bool(true));
    assert_eq!(inner.get("x"), Some(&Value::Bool(true)));
    // the parent's binding is still there behind the shadow: assigning goes
    // to the nearest binding, which is the child's
    assert_eq!(inner.assign("x", Value::Null), Ok(()));
    assert_eq!(inner.get("x"), Some(&Value::Null));
}

#[test]
fn assign_changes_the_nearest_binding() {
    let mut env = Environment::new();
    env.define("x".to_string(), Value::Bool(true));
    assert_eq!(env.assign("x", Value::String("new".to_string())), Ok(()));
    assert_eq!(env.get("x"), Some(&Value::String("new".to_string())));
}

#[test]
fn assign_reaches_an_enclosing_scope() {
    let mut global = Environment::new();
    global.define("x".to_string(), Value::Bool(true));
    let mut inner = Environment::withParent(Environment::withParent(global));
    inner.define("y".to_string(), Value::Null);
    assert_eq!(inner.assign("x", Value::Number(number(7.0))), Ok(()));
    assert_eq!(inner.get("x"), Some(&Value::Number(number(7.0))));
    assert_eq!(inner.get("y"), Some(&Value::Null));
}

#[test]
fn assign_to_an_undefined_name_fails_and_binds_nothing() {
    let mut env = Environment::new();
    env.define("x".to_string(), Value::Bool(true));
    let result = env.assign("ghost", Value::Null);
    assert_eq!(result, Err("Undefined variable 'ghost'".to_string()));
    assert!(result.unwrap_err().contains("ghost"));
    assert_eq!(env.get("ghost"), None);
    assert_eq!(env.get("x"), Some(&Value::Bool(true)));
}

#[test]
fn assign_to_an_undefined_name_fails_in_a_chain() {
    let mut inner = Environment::withParent(Environment::new());
    assert_eq!(inner.assign("n", Value::Null), Err("Undefined variable 'n'".to_string()));
    assert_eq!(inner.get("n"), None);
}

#[test]
fn undefined_variable_message_quotes_the_name() {
    assert_eq!(undefined_variable_message("x"), "Undefined variable 'x'");
    assert_eq!(undefined_variable_message(""), "Undefined variable ''");
    assert_eq!(undefined_variable_message("a b"), "Undefined variable 'a b'");
}

#[test]
fn evaluate_literals() {
    let evaluator = Evaluator::new();
    let env = Environment::new();
    assert_eq!(evaluator.evaluate(&string("v"), &env), Ok(Value::String("v".to_string())));
    assert_eq!(
        evaluator.evaluate(&Expr::Literal(Literal::Number(number(4.0))), &env),
        Ok(Value::Number(number(4.0)))
    );
    assert_eq!(evaluator.evaluate(&Expr::Literal(Literal::Bool(true)), &env), Ok(Value::Bool(true)));
    assert_eq!(evaluator.evaluate(&Expr::Literal(Literal::Null), &env), Ok(Value::Null));
}

#[test]
fn evaluate_variables() {
    let evaluator = Evaluator::new();
    let mut env = Environment::new();
    env.define("x".to_string(), Value::String("v1".to_string()));
    assert_eq!(evaluator.evaluate(&variable("x"), &env), Ok(Value::String("v1".to_string())));
    assert_eq!(
        evaluator.evaluate(&variable("y"), &env),
        Err("Undefined variable 'y'".to_string())
    );
}

#[test]
fn evaluate_reports_the_first_undefined_variable_of_an_operator_node() {
    let evaluator = Evaluator::new();
    let mut env = Environment::new();
    env.define("a".to_string(), Value::Null);
    let node = |left: Expr, right: Expr| Expr::Binary {
        left: Box::new(left),
        op: TokenKind::Plus,
        right: Box::new(right),
    };
    assert_eq!(
        evaluator.evaluate(&node(variable("p"), variable("q")), &env),
        Err("Undefined variable 'p'".to_string())
    );
    assert_eq!(
        evaluator.evaluate(&node(variable("a"), variable("q")), &env),
        Err("Undefined variable 'q'".to_string())
    );
    assert_eq!(evaluator.evaluate(&node(variable("a"), string("s")), &env), Ok(Value::Null));
}

#[test]
fn evaluate_reports_the_first_undefined_variable_of_a_call() {
    let evaluator = Evaluator::new();
    let mut env = Environment::new();
    env.define("f".to_string(), Value::Null);
    env.define("a".to_string(), Value::Null);
    let call = |name: &str, args: Vec<Expr>| Expr::Call { callee: Box::new(variable(name)), args };
    assert_eq!(
        evaluator.evaluate(&call("g", vec![variable("zz")]), &env),
        Err("Undefined variable 'g'".to_string())
    );
    assert_eq!(
        evaluator.evaluate(&call("f", vec![variable("a"), variable("b"), variable("c")]), &env),
        Err("Undefined variable 'b'".to_string())
    );
    assert_eq!(evaluator.evaluate(&call("f", vec![variable("a")]), &env), Ok(Value::Null));
    assert_eq!(evaluator.evaluate(&call("f", vec![]), &env), Ok(Value::Null));
}

#[test]
fn execute_var_declaration_binds_the_value() {
    let executor = Executor::new();
    let mut env = Environment::new();
    assert_eq!(executor.execute(&declare("x", string("v1")), &mut env), Ok(()));
    assert_eq!(env.get("x"), Some(&Value::String("v1".to_string())));
}

#[test]
fn execute_var_declaration_binds_in_the_current_scope() {
    let executor = Executor::new();
    let mut global = Environment::new();
    global.define("x".to_string(), Value::Bool(true));
    let mut inner = Environment::withParent(global);
    assert_eq!(executor.execute(&declare("x", variable("x")), &mut inner), Ok(()));
    assert_eq!(inner.get("x"), Some(&Value::Bool(true)));
    assert_eq!(executor.execute(&declare("x", string("s")), &mut inner), Ok(()));
    assert_eq!(inner.get("x"), Some(&Value::String("s".to_string())));
}

#[test]
fn execute_var_declaration_fails_with_its_initializer() {
    let executor = Executor::new();
    let mut env = Environment::new();
    assert_eq!(
        executor.execute(&declare("x", variable("y")), &mut env),
        Err("Undefined variable 'y'".to_string())
    );
    assert_eq!(env.get("x"), None);
    assert_eq!(env.get("y"), None);
}

#[test]
fn execute_expression_statement_binds_nothing() {
    let executor = Executor::new();
    let mut env = Environment::new();
    env.define("x".to_string(), Value::Null);
    assert_eq!(executor.execute(&Stmt::ExprStmt(variable("x")), &mut env), Ok(()));
    assert_eq!(executor.execute(&Stmt::ExprStmt(string("s")), &mut env), Ok(()));
    assert_eq!(env.get("x"), Some(&Value::Null));
}

#[test]
fn execute_function_declaration_does_nothing() {
    let executor = Executor::new();
    let mut env = Environment::new();
    let declaration = Stmt::FuncDecl {
        name: "f".to_string(),
        params: vec![Parameter { name: "a".to_string(), ty: None }],
        return_ty: None,
        body: vec![Stmt::ExprStmt(variable("undefined"))],
    };
    assert_eq!(executor.execute(&declaration, &mut env), Ok(()));
    assert_eq!(env.get("f"), None);
    assert_eq!(env.get("a"), None);
}

#[test]
fn execute_block_stops_at_the_first_failure() {
    let executor = Executor::new();
    let mut env = Environment::new();
    let block = vec![
        declare("a", string("1")),
        Stmt::ExprStmt(variable("missing")),
        declare("b", string("2")),
    ];
    assert_eq!(
        executor.execute_block(&block, &mut env),
        Err("Undefined variable 'missing'".to_string())
    );
    // what ran before the failure stays
    assert_eq!(env.get("a"), Some(&Value::String("1".to_string())));
    assert_eq!(env.get("b"), None);
}

#[test]
fn execute_block_of_nothing() {
    let executor = Executor::new();
    let mut env = Environment::new();
    assert_eq!(executor.execute_block(&[], &mut env), Ok(()));
}

#[test]
fn interpret_declaration_then_reference() {
    let mut interpreter = Interpreter::new();
    let program = vec![declare("x", string("v1")), Stmt::ExprStmt(variable("x"))];
    assert_eq!(interpreter.interpret(&program), Ok(()));
    assert_eq!(interpreter.environment().get("x"), Some(&Value::String("v1".to_string())));
}

#[test]
fn interpret_undefined_reference_fails_and_changes_nothing() {
    let mut interpreter = Interpreter::new();
    assert_eq!(interpreter.interpret(&[declare("x", string("v1"))]), Ok(()));
    assert_eq!(
        interpreter.interpret(&[Stmt::ExprStmt(variable("y"))]),
        Err("Undefined variable 'y'".to_string())
    );
    assert_eq!(interpreter.environment().get("x"), Some(&Value::String("v1".to_string())));
    assert_eq!(interpreter.environment().get("y"), None);
}

#[test]
fn interpreter_keeps_its_environment_between_runs() {
    let mut interpreter = Interpreter::new();
    assert_eq!(interpreter.interpret(&[declare("a", string("1"))]), Ok(()));
    assert_eq!(interpreter.interpret(&[declare("b", variable("a"))]), Ok(()));
    assert_eq!(interpreter.environment().get("b"), Some(&Value::String("1".to_string())));
}
