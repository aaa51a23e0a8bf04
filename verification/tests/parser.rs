use compiler::ast::{Expr, Literal, Parameter, Stmt, Type};
use compiler::lexer::{Number, Span, Token, TokenKind};
use compiler::parser::{Parser, ParserError};

/// Tokens of the given kinds, the token of index `i` at bytes `[10 i, 10 i + 1)`,
/// with the end of input behind them.
fn tokens(kinds: Vec<TokenKind>) -> Vec<Token> {
    let mut out = Vec::new();
    for (i, kind) in kinds.into_iter().enumerate() {
        out.push(Token { kind, span: Span { start: 10 * i, end: 10 * i + 1 } });
    }
    let end = 10 * out.len();
    out.push(Token { kind: TokenKind::Eof, span: Span { start: end, end } });
    out
}

fn parse(kinds: Vec<TokenKind>) -> Result<Vec<Stmt>, ParserError> {
    Parser::new(tokens(kinds)).parse()
}

/// The error with `message` at the token of index `at`.
fn failure(message: &str, at: usize, is_eof: bool) -> ParserError {
    let end = if is_eof { 10 * at } else { 10 * at + 1 };
    ParserError::Custom { message: message.to_string(), span: Span { start: 10 * at, end } }
}

fn ident(name: &str) -> TokenKind {
    TokenKind::Identifier(name.to_string())
}

fn text(value: &str) -> TokenKind {
    TokenKind::StringLiteral(value.to_string())
}

fn number(value: f64) -> TokenKind {
    TokenKind::NumberLiteral(Number { bits: value.to_bits() })
}

fn num(value: f64) -> Expr {
    Expr::Literal(Literal::Number(Number { bits: value.to_bits() }))
}

fn var(name: &str) -> Expr {
    Expr::Variable(name.to_string())
}

fn binary(left: Expr, op: TokenKind, right: Expr) -> Expr {
    Expr::Binary { left: Box::new(left), op, right: Box::new(right) }
}

fn call(name: &str, args: Vec<Expr>) -> Expr {
    Expr::Call { callee: Box::new(var(name)), args }
}

fn ty(name: &str) -> Option<Type> {
    Some(Type { name: name.to_string() })
}

#[test]
fn empty_program() {
    assert_eq!(parse(vec![]), Ok(vec![]));
}

#[test]
fn var_declaration_with_string_initializer() {
    // var x = "hi";
    let result = parse(vec![
        TokenKind::Var,
        ident("x"),
        TokenKind::Equal,
        text("hi"),
        TokenKind::Semicolon,
    ]);
    assert_eq!(
        result,
        Ok(vec![Stmt::VarDecl {
            name: "x".to_string(),
            ty: None,
            initializer: Expr::Literal(Literal::String("hi".to_string())),
        }])
    );
}

#[test]
fn unary_minus_is_a_subtraction_from_zero() {
    // var x = 1 - -2;
    let result = parse(vec![
        TokenKind::Var,
        ident("x"),
        TokenKind::Equal,
        number(1.0),
        TokenKind::Minus,
        TokenKind::Minus,
        number(2.0),
        TokenKind::Semicolon,
    ]);
    let expected = binary(
        num(1.0),
        TokenKind::Minus,
        binary(num(0.0), TokenKind::Minus, num(2.0)),
    );
    assert_eq!(
        result,
        Ok(vec![Stmt::VarDecl { name: "x".to_string(), ty: None, initializer: expected }])
    );
}

#[test]
fn zero_of_a_negation_is_positive_zero() {
    let result = parse(vec![TokenKind::Minus, ident("a"), TokenKind::Semicolon]).unwrap();
    match &result[0] {
        Stmt::ExprStmt(Expr::Binary { left, op, right }) => {
            assert_eq!(**left, Expr::Literal(Literal::Number(Number { bits: 0 })));
            assert_eq!(Number::zero(), Number { bits: 0.0f64.to_bits() });
            assert_eq!(*op, TokenKind::Minus);
            assert_eq!(**right, var("a"));
        }
        other => panic!("unexpected statement {:?}", other),
    }
}

#[test]
fn double_negation_nests() {
    // - - a;
    let result = parse(vec![TokenKind::Minus, TokenKind::Minus, ident("a"), TokenKind::Semicolon]);
    let inner = binary(num(0.0), TokenKind::Minus, var("a"));
    assert_eq!(
        result,
        Ok(vec![Stmt::ExprStmt(binary(num(0.0), TokenKind::Minus, inner))])
    );
}

#[test]
fn additive_operators_associate_to_the_left() {
    // a - b + c - d;
    let result = parse(vec![
        ident("a"),
        TokenKind::Minus,
        ident("b"),
        TokenKind::Plus,
        ident("c"),
        TokenKind::Minus,
        ident("d"),
        TokenKind::Semicolon,
    ]);
    let expected = binary(
        binary(binary(var("a"), TokenKind::Minus, var("b")), TokenKind::Plus, var("c")),
        TokenKind::Minus,
        var("d"),
    );
    assert_eq!(result, Ok(vec![Stmt::ExprStmt(expected)]));
}

#[test]
fn literals() {
    let result = parse(vec![
        TokenKind::True,
        TokenKind::Semicolon,
        TokenKind::False,
        TokenKind::Semicolon,
        TokenKind::Null,
        TokenKind::Semicolon,
        number(2.5),
        TokenKind::Semicolon,
        text(""),
        TokenKind::Semicolon,
    ]);
    assert_eq!(
        result,
        Ok(vec![
            Stmt::ExprStmt(Expr::Literal(Literal::Bool(true))),
            Stmt::ExprStmt(Expr::Literal(Literal::Bool(false))),
            Stmt::ExprStmt(Expr::Literal(Literal::Null)),
            Stmt::ExprStmt(num(2.5)),
            Stmt::ExprStmt(Expr::Literal(Literal::String(String::new()))),
        ])
    );
}

#[test]
fn var_declaration_with_type_annotation() {
    // var x: int = y;
    let result = parse(vec![
        TokenKind::Var,
        ident("x"),
        TokenKind::Colon,
        ident("int"),
        TokenKind::Equal,
        ident("y"),
        TokenKind::Semicolon,
    ]);
    assert_eq!(
        result,
        Ok(vec![Stmt::VarDecl { name: "x".to_string(), ty: ty("int"), initializer: var("y") }])
    );
}

#[test]
fn call_without_arguments() {
    let result = parse(vec![
        ident("f"),
        TokenKind::LeftParen,
        TokenKind::RightParen,
        TokenKind::Semicolon,
    ]);
    assert_eq!(result, Ok(vec![Stmt::ExprStmt(call("f", vec![]))]));
}

#[test]
fn call_with_arguments() {
    // f(a, 1 + b, g(c));
    let result = parse(vec![
        ident("f"),
        TokenKind::LeftParen,
        ident("a"),
        TokenKind::Comma,
        number(1.0),
        TokenKind::Plus,
        ident("b"),
        TokenKind::Comma,
        ident("g"),
        TokenKind::LeftParen,
        ident("c"),
        TokenKind::RightParen,
        TokenKind::RightParen,
        TokenKind::Semicolon,
    ]);
    let expected = call(
        "f",
        vec![
            var("a"),
            binary(num(1.0), TokenKind::Plus, var("b")),
            call("g", vec![var("c")]),
        ],
    );
    assert_eq!(result, Ok(vec![Stmt::ExprStmt(expected)]));
}

#[test]
fn a_call_result_cannot_be_called() {
    // f()();
    let result = parse(vec![
        ident("f"),
        TokenKind::LeftParen,
        TokenKind::RightParen,
        TokenKind::LeftParen,
        TokenKind::RightParen,
        TokenKind::Semicolon,
    ]);
    assert_eq!(result, Err(failure("Expected ';' after expression.", 3, false)));
}

#[test]
fn parentheses_do_not_group() {
    let result = parse(vec![
        TokenKind::LeftParen,
        ident("a"),
        TokenKind::RightParen,
        TokenKind::Semicolon,
    ]);
    assert_eq!(result, Err(failure("Expected expression.", 0, false)));
}

#[test]
fn function_declaration_without_parameters() {
    // func main() { }
    let result = parse(vec![
        TokenKind::Func,
        ident("main"),
        TokenKind::LeftParen,
        TokenKind::RightParen,
        TokenKind::LeftBrace,
        TokenKind::RightBrace,
    ]);
    assert_eq!(
        result,
        Ok(vec![Stmt::FuncDecl {
            name: "main".to_string(),
            params: vec![],
            return_ty: None,
            body: vec![],
        }])
    );
}

#[test]
fn function_declaration_in_full() {
    // func add(a: int, b): int { var c = a + b; c; func inner() { } }  x;
    let result = parse(vec![
        TokenKind::Func,
        ident("add"),
        TokenKind::LeftParen,
        ident("a"),
        TokenKind::Colon,
        ident("int"),
        TokenKind::Comma,
        ident("b"),
        TokenKind::RightParen,
        TokenKind::Colon,
        ident("int"),
        TokenKind::LeftBrace,
        TokenKind::Var,
        ident("c"),
        TokenKind::Equal,
        ident("a"),
        TokenKind::Plus,
        ident("b"),
        TokenKind::Semicolon,
        ident("c"),
        TokenKind::Semicolon,
        TokenKind::Func,
        ident("inner"),
        TokenKind::LeftParen,
        TokenKind::RightParen,
        TokenKind::LeftBrace,
        TokenKind::RightBrace,
        TokenKind::RightBrace,
        ident("x"),
        TokenKind::Semicolon,
    ]);
    assert_eq!(
        result,
        Ok(vec![
            Stmt::FuncDecl {
                name: "add".to_string(),
                params: vec![
                    Parameter { name: "a".to_string(), ty: ty("int") },
                    Parameter { name: "b".to_string(), ty: None },
                ],
                return_ty: ty("int"),
                body: vec![
                    Stmt::VarDecl {
                        name: "c".to_string(),
                        ty: None,
                        initializer: binary(var("a"), TokenKind::Plus, var("b")),
                    },
                    Stmt::ExprStmt(var("c")),
                    Stmt::FuncDecl {
                        name: "inner".to_string(),
                        params: vec![],
                        return_ty: None,
                        body: vec![],
                    },
                ],
            },
            Stmt::ExprStmt(var("x")),
        ])
    );
}

#[test]
fn several_statements() {
    let result = parse(vec![
        TokenKind::Var,
        ident("a"),
        TokenKind::Equal,
        TokenKind::Null,
        TokenKind::Semicolon,
        ident("a"),
        TokenKind::Semicolon,
    ]);
    assert_eq!(
        result,
        Ok(vec![
            Stmt::VarDecl {
                name: "a".to_string(),
                ty: None,
                initializer: Expr::Literal(Literal::Null),
            },
            Stmt::ExprStmt(var("a")),
        ])
    );
}

#[test]
fn parsing_again_at_the_end_yields_nothing_more() {
    let mut parser = Parser::new(tokens(vec![ident("a"), TokenKind::Semicolon]));
    assert_eq!(parser.parse(), Ok(vec![Stmt::ExprStmt(var("a"))]));
    assert_eq!(parser.parse(), Ok(vec![]));
}

#[test]
fn tokens_behind_the_first_end_of_input_are_not_read() {
    let mut all = tokens(vec![ident("a"), TokenKind::Semicolon]);
    all.extend(tokens(vec![TokenKind::Plus, TokenKind::Plus]));
    assert_eq!(Parser::new(all).parse(), Ok(vec![Stmt::ExprStmt(var("a"))]));
}

#[test]
fn payload_does_not_decide_how_a_token_is_matched() {
    // two different identifiers take the same path
    let a = parse(vec![ident("a"), TokenKind::Semicolon]);
    let b = parse(vec![ident("bcd"), TokenKind::Semicolon]);
    assert_eq!(a, Ok(vec![Stmt::ExprStmt(var("a"))]));
    assert_eq!(b, Ok(vec![Stmt::ExprStmt(var("bcd"))]));
}

#[test]
fn error_expected_variable_name() {
    assert_eq!(
        parse(vec![TokenKind::Var, TokenKind::Equal]),
        Err(failure("Expected variable name.", 1, false))
    );
    assert_eq!(parse(vec![TokenKind::Var]), Err(failure("Expected variable name.", 1, true)));
}

#[test]
fn error_expected_equal() {
    assert_eq!(
        parse(vec![TokenKind::Var, ident("x"), TokenKind::Semicolon]),
        Err(failure("Expected '=' after variable name.", 2, false))
    );
    assert_eq!(
        parse(vec![TokenKind::Var, ident("x"), TokenKind::Colon, ident("t"), text("v")]),
        Err(failure("Expected '=' after variable name.", 4, false))
    );
}

#[test]
fn error_expected_semicolon_after_declaration() {
    assert_eq!(
        parse(vec![TokenKind::Var, ident("x"), TokenKind::Equal, number(1.0)]),
        Err(failure("Expected ';' after variable declaration.", 4, true))
    );
    assert_eq!(
        parse(vec![TokenKind::Var, ident("x"), TokenKind::Equal, number(1.0), number(2.0)]),
        Err(failure("Expected ';' after variable declaration.", 4, false))
    );
}

#[test]
fn error_expected_type_name() {
    assert_eq!(
        parse(vec![TokenKind::Var, ident("x"), TokenKind::Colon, TokenKind::Equal]),
        Err(failure("Expected type name after ':'", 3, false))
    );
}

#[test]
fn error_expected_expression() {
    assert_eq!(
        parse(vec![TokenKind::Var, ident("x"), TokenKind::Equal, TokenKind::Semicolon]),
        Err(failure("Expected expression.", 3, false))
    );
    assert_eq!(
        parse(vec![ident("a"), TokenKind::Plus, TokenKind::Semicolon]),
        Err(failure("Expected expression.", 2, false))
    );
    assert_eq!(parse(vec![TokenKind::Minus]), Err(failure("Expected expression.", 1, true)));
    assert_eq!(parse(vec![TokenKind::Star]), Err(failure("Expected expression.", 0, false)));
}

#[test]
fn error_expected_semicolon_after_expression() {
    assert_eq!(parse(vec![ident("a")]), Err(failure("Expected ';' after expression.", 1, true)));
    assert_eq!(
        parse(vec![ident("a"), ident("b")]),
        Err(failure("Expected ';' after expression.", 1, false))
    );
}

#[test]
fn error_expected_closing_paren_after_arguments() {
    assert_eq!(
        parse(vec![ident("f"), TokenKind::LeftParen, ident("a"), TokenKind::Semicolon]),
        Err(failure("Expected ')' after function arguments.", 3, false))
    );
}

#[test]
fn error_in_an_argument() {
    assert_eq!(
        parse(vec![ident("f"), TokenKind::LeftParen, ident("a"), TokenKind::Comma, TokenKind::RightParen]),
        Err(failure("Expected expression.", 4, false))
    );
    assert_eq!(
        parse(vec![ident("f"), TokenKind::LeftParen]),
        Err(failure("Expected expression.", 2, true))
    );
}

#[test]
fn error_expected_function_name() {
    assert_eq!(
        parse(vec![TokenKind::Func, TokenKind::LeftParen]),
        Err(failure("Expected function name.", 1, false))
    );
}

#[test]
fn error_expected_opening_paren() {
    assert_eq!(
        parse(vec![TokenKind::Func, ident("f"), TokenKind::LeftBrace]),
        Err(failure("Expected '(' after function name.", 2, false))
    );
}

#[test]
fn error_expected_parameter_name() {
    assert_eq!(
        parse(vec![TokenKind::Func, ident("f"), TokenKind::LeftParen, number(1.0)]),
        Err(failure("Expected parameter name.", 3, false))
    );
    assert_eq!(
        parse(vec![
            TokenKind::Func,
            ident("f"),
            TokenKind::LeftParen,
            ident("a"),
            TokenKind::Comma,
            TokenKind::RightParen,
        ]),
        Err(failure("Expected parameter name.", 5, false))
    );
}

#[test]
fn error_expected_closing_paren_after_parameters() {
    assert_eq!(
        parse(vec![TokenKind::Func, ident("f"), TokenKind::LeftParen, ident("a"), ident("b")]),
        Err(failure("Expected ')' after parameters.", 4, false))
    );
}

#[test]
fn error_expected_opening_brace() {
    assert_eq!(
        parse(vec![
            TokenKind::Func,
            ident("f"),
            TokenKind::LeftParen,
            TokenKind::RightParen,
            TokenKind::Semicolon,
        ]),
        Err(failure("Expected '{' before function body.", 4, false))
    );
}

#[test]
fn error_expected_closing_brace() {
    assert_eq!(
        parse(vec![
            TokenKind::Func,
            ident("f"),
            TokenKind::LeftParen,
            TokenKind::RightParen,
            TokenKind::LeftBrace,
            ident("a"),
            TokenKind::Semicolon,
        ]),
        Err(failure("Expected '}' after function body.", 7, true))
    );
}

#[test]
fn error_inside_a_function_body() {
    assert_eq!(
        parse(vec![
            TokenKind::Func,
            ident("f"),
            TokenKind::LeftParen,
            TokenKind::RightParen,
            TokenKind::LeftBrace,
            TokenKind::Var,
            TokenKind::RightBrace,
        ]),
        Err(failure("Expected variable name.", 6, false))
    );
}

#[test]
fn a_stray_closing_brace_is_no_statement() {
    assert_eq!(parse(vec![TokenKind::RightBrace]), Err(failure("Expected expression.", 0, false)));
}

#[test]
fn the_first_error_ends_the_parse() {
    // the second statement is fine, the first is not
    assert_eq!(
        parse(vec![TokenKind::Var, TokenKind::Semicolon, ident("a"), TokenKind::Semicolon]),
        Err(failure("Expected variable name.", 1, false))
    );
}

#[test]
fn parser_error_new_makes_a_custom_error() {
    let span = Span { start: 2, end: 5 };
    assert_eq!(
        ParserError::new("broken".to_string(), span),
        ParserError::Custom { message: "broken".to_string(), span }
    );
}

#[test]
fn trees_can_be_copied() {
    let tree = call("f", vec![binary(var("a"), TokenKind::Plus, num(1.0)), call("g", vec![])]);
    assert_eq!(tree.clone(), tree);
    let stmt = Stmt::FuncDecl {
        name: "f".to_string(),
        params: vec![Parameter { name: "a".to_string(), ty: ty("t") }],
        return_ty: ty("u"),
        body: vec![
            Stmt::ExprStmt(tree),
            Stmt::VarDecl { name: "v".to_string(), ty: None, initializer: var("a") },
        ],
    };
    assert_eq!(stmt.clone(), stmt);
}

#[test]
fn parser_errors_can_be_copied() {
    let errors = vec![
        ParserError::Custom { message: "m".to_string(), span: Span { start: 1, end: 2 } },
        ParserError::UnexpectedEOF {
            expected: vec![TokenKind::Semicolon, ident("a")],
            span: Span { start: 3, end: 3 },
        },
        ParserError::UnexpectedToken {
            expected: vec![text("s"), TokenKind::RightBrace],
            found: number(1.0),
            span: Span { start: 0, end: 9 },
        },
    ];
    for error in errors {
        assert_eq!(error.clone(), error);
    }
}
