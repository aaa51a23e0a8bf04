//! The grammar, as functions from a token sequence and a position to the tree
//! that starts there and the position behind it, or to the error that stops
//! the parse.
//!
//! ```text
//! statement      := varDecl | funcDecl | exprStmt
//! varDecl        := 'var' IDENT typeAnnotation '=' expression ';'
//! funcDecl       := 'func' IDENT '(' (parameter (',' parameter)*)? ')'
//!                   typeAnnotation '{' statement* '}'
//! parameter      := IDENT typeAnnotation
//! exprStmt       := expression ';'
//! typeAnnotation := (':' IDENT)?
//! expression     := additive
//! additive       := unary (('+' | '-') unary)*
//! unary          := '-' unary | primary
//! primary        := IDENT ('(' (expression (',' expression)*)? ')')?
//!                 | STRING | NUMBER | 'true' | 'false' | 'null'
//! ```
use crate::ast::{ExprView, LiteralView, ParameterView, StmtView, TypeView};
use crate::lexer::span::Span;
use crate::lexer::token::{Number, TokenKindView, TokenView};
use crate::parser::error::ParserErrorView;
use vstd::prelude::*;

verus! {

/// What a production yields: the value it built and the position of the first
/// token behind it, or the error that stopped it and the position of the token
/// at which it was raised.
pub type Parsed<T> = Result<(T, nat), (ParserErrorView, nat)>;

/// The kind of the token at `pos`. Beyond the last token the input has ended.
pub open spec fn kind_at(tokens: Seq<TokenView>, pos: nat) -> TokenKindView {
    if pos < tokens.len() {
        tokens[pos as int].kind
    } else {
        TokenKindView::Eof
    }
}

/// Where the token at `pos` stood in the source.
pub open spec fn span_at(tokens: Seq<TokenView>, pos: nat) -> Span
    recommends
        pos < tokens.len(),
{
    tokens[pos as int].span
}

/// The number of tokens from `pos` to the end of the sequence.
pub open spec fn remaining(tokens: Seq<TokenView>, pos: nat) -> nat {
    if pos < tokens.len() {
        (tokens.len() - pos) as nat
    } else {
        0
    }
}

/// A list that stands complete so far as `done`, followed by what `rest` came
/// to.
pub open spec fn listed<T>(done: Seq<T>, rest: Parsed<Seq<T>>) -> Parsed<Seq<T>> {
    match rest {
        Ok((more, end)) => Ok((done + more, end)),
        Err(error) => Err(error),
    }
}

/// Nothing before a list leaves the list as it is.
pub proof fn lemma_listed_nothing<T>(rest: Parsed<Seq<T>>)
    ensures
        listed(Seq::empty(), rest) == rest,
{
    match rest {
        Ok((more, end)) => {
            assert(Seq::<T>::empty() + more =~= more);
        },
        Err(_) => {},
    }
}

/// An item behind `done` and before `rest` may be counted to either.
pub proof fn lemma_listed_one_more<T>(done: Seq<T>, item: T, rest: Parsed<Seq<T>>)
    ensures
        listed(done, listed(seq![item], rest)) == listed(done.push(item), rest),
{
    match rest {
        Ok((more, end)) => {
            assert(done + (seq![item] + more) =~= done.push(item) + more);
        },
        Err(_) => {},
    }
}

/// The error raised at `pos`: the message, with the span of the token there.
pub open spec fn failure(tokens: Seq<TokenView>, pos: nat, message: Seq<char>) -> (
    ParserErrorView,
    nat,
) {
    (ParserErrorView::Custom { message, span: span_at(tokens, pos) }, pos)
}

/// Whether a token of this kind continues a sum.
pub open spec fn is_additive(kind: TokenKindView) -> bool {
    kind == TokenKindView::Plus || kind == TokenKindView::Minus
}

/// The tree that stands for `-operand`: the operand taken from zero.
pub open spec fn negation(operand: ExprView) -> ExprView {
    ExprView::Binary {
        left: Box::new(ExprView::Literal(LiteralView::Number(Number::spec_zero()))),
        op: TokenKindView::Minus,
        right: Box::new(operand),
    }
}

/// `typeAnnotation := (':' IDENT)?`
pub open spec fn type_annotation(tokens: Seq<TokenView>, pos: nat) -> Parsed<Option<TypeView>> {
    if kind_at(tokens, pos) == TokenKindView::Colon {
        match kind_at(tokens, pos + 1) {
            TokenKindView::Identifier(name) => Ok((Some(TypeView { name }), pos + 2)),
            _ => Err(failure(tokens, pos + 1, "Expected type name after ':'"@)),
        }
    } else {
        Ok((None, pos))
    }
}

/// `primary`: a name, a call of a name, or a literal.
pub open spec fn primary(tokens: Seq<TokenView>, pos: nat) -> Parsed<ExprView>
    decreases remaining(tokens, pos), 0nat,
{
    match kind_at(tokens, pos) {
        TokenKindView::Identifier(name) => {
            if kind_at(tokens, pos + 1) == TokenKindView::LeftParen {
                let listed = if kind_at(tokens, pos + 2) == TokenKindView::RightParen {
                    Ok((Seq::empty(), pos + 2))
                } else {
                    arguments(tokens, pos + 2)
                };
                match listed {
                    Ok((args, close)) => {
                        if kind_at(tokens, close) == TokenKindView::RightParen {
                            Ok(
                                (
                                    ExprView::Call {
                                        callee: Box::new(ExprView::Variable(name)),
                                        args,
                                    },
                                    close + 1,
                                ),
                            )
                        } else {
                            Err(failure(tokens, close, "Expected ')' after function arguments."@))
                        }
                    },
                    Err(error) => Err(error),
                }
            } else {
                Ok((ExprView::Variable(name), pos + 1))
            }
        },
        TokenKindView::StringLiteral(value) => Ok(
            (ExprView::Literal(LiteralView::String(value)), pos + 1),
        ),
        TokenKindView::NumberLiteral(value) => Ok(
            (ExprView::Literal(LiteralView::Number(value)), pos + 1),
        ),
        TokenKindView::True => Ok((ExprView::Literal(LiteralView::Bool(true)), pos + 1)),
        TokenKindView::False => Ok((ExprView::Literal(LiteralView::Bool(false)), pos + 1)),
        TokenKindView::Null => Ok((ExprView::Literal(LiteralView::Null), pos + 1)),
        _ => Err(failure(tokens, pos, "Expected expression."@)),
    }
}

/// `expression (',' expression)*`: the arguments of a call, at least one.
///
/// A production that succeeds always moves forward
/// ([`lemma_expression_advances`]), so the comparison of positions below never
/// decides anything; it is there to make the recursion visibly well-founded.
/// The same holds of the comparisons in [`additive`], [`additive_tail`] and
/// [`block`].
pub open spec fn arguments(tokens: Seq<TokenView>, pos: nat) -> Parsed<Seq<ExprView>>
    decreases remaining(tokens, pos), 4nat,
{
    match expression(tokens, pos) {
        Ok((first, next)) => {
            if pos < next && kind_at(tokens, next) == TokenKindView::Comma {
                match arguments(tokens, next + 1) {
                    Ok((rest, end)) => Ok((seq![first] + rest, end)),
                    Err(error) => Err(error),
                }
            } else {
                Ok((seq![first], next))
            }
        },
        Err(error) => Err(error),
    }
}

/// `unary := '-' unary | primary`
pub open spec fn unary(tokens: Seq<TokenView>, pos: nat) -> Parsed<ExprView>
    decreases remaining(tokens, pos), 1nat,
{
    if kind_at(tokens, pos) == TokenKindView::Minus {
        match unary(tokens, pos + 1) {
            Ok((operand, next)) => Ok((negation(operand), next)),
            Err(error) => Err(error),
        }
    } else {
        primary(tokens, pos)
    }
}

/// `(('+' | '-') unary)*` behind the operand `left`, which ended at `pos`.
/// Operators associate to the left.
pub open spec fn additive_tail(tokens: Seq<TokenView>, pos: nat, left: ExprView) -> Parsed<ExprView>
    decreases remaining(tokens, pos), 0nat,
{
    if is_additive(kind_at(tokens, pos)) {
        match unary(tokens, pos + 1) {
            Ok((right, next)) => {
                let sum = ExprView::Binary {
                    left: Box::new(left),
                    op: kind_at(tokens, pos),
                    right: Box::new(right),
                };
                if pos < next {
                    additive_tail(tokens, next, sum)
                } else {
                    Ok((sum, next))
                }
            },
            Err(error) => Err(error),
        }
    } else {
        Ok((left, pos))
    }
}

/// `additive := unary (('+' | '-') unary)*`
pub open spec fn additive(tokens: Seq<TokenView>, pos: nat) -> Parsed<ExprView>
    decreases remaining(tokens, pos), 2nat,
{
    match unary(tokens, pos) {
        Ok((left, next)) => {
            if pos < next {
                additive_tail(tokens, next, left)
            } else {
                Ok((left, next))
            }
        },
        Err(error) => Err(error),
    }
}

/// `expression := additive`
pub open spec fn expression(tokens: Seq<TokenView>, pos: nat) -> Parsed<ExprView>
    decreases remaining(tokens, pos), 3nat,
{
    additive(tokens, pos)
}

/// A primary expression that parses takes at least one token.
pub proof fn lemma_primary_advances(tokens: Seq<TokenView>, pos: nat)
    ensures
        match primary(tokens, pos) {
            Ok((_, next)) => pos < next,
            Err(_) => true,
        },
    decreases remaining(tokens, pos), 0nat,
{
    match kind_at(tokens, pos) {
        TokenKindView::Identifier(_) => {
            if kind_at(tokens, pos + 1) == TokenKindView::LeftParen && kind_at(tokens, pos + 2)
                != TokenKindView::RightParen {
                lemma_arguments_advance(tokens, pos + 2);
            }
        },
        _ => {},
    }
}

/// An argument list that parses ends behind where it began.
pub proof fn lemma_arguments_advance(tokens: Seq<TokenView>, pos: nat)
    ensures
        match arguments(tokens, pos) {
            Ok((_, next)) => pos < next,
            Err(_) => true,
        },
    decreases remaining(tokens, pos), 4nat,
{
    match expression(tokens, pos) {
        Ok((_, next)) => {
            if pos < next && kind_at(tokens, next) == TokenKindView::Comma {
                lemma_arguments_advance(tokens, next + 1);
            } else {
                lemma_expression_advances(tokens, pos);
            }
        },
        Err(_) => {},
    }
}

/// A unary expression that parses takes at least one token.
pub proof fn lemma_unary_advances(tokens: Seq<TokenView>, pos: nat)
    ensures
        match unary(tokens, pos) {
            Ok((_, next)) => pos < next,
            Err(_) => true,
        },
    decreases remaining(tokens, pos), 1nat,
{
    if kind_at(tokens, pos) == TokenKindView::Minus {
        lemma_unary_advances(tokens, pos + 1);
    } else {
        lemma_primary_advances(tokens, pos);
    }
}

/// The operators and operands behind a first operand end no earlier than
/// where they began.
pub proof fn lemma_additive_tail_advances(tokens: Seq<TokenView>, pos: nat, left: ExprView)
    ensures
        match additive_tail(tokens, pos, left) {
            Ok((_, next)) => pos <= next,
            Err(_) => true,
        },
    decreases remaining(tokens, pos), 0nat,
{
    if is_additive(kind_at(tokens, pos)) {
        lemma_unary_advances(tokens, pos + 1);
        match unary(tokens, pos + 1) {
            Ok((right, next)) => {
                let sum = ExprView::Binary {
                    left: Box::new(left),
                    op: kind_at(tokens, pos),
                    right: Box::new(right),
                };
                lemma_additive_tail_advances(tokens, next, sum);
            },
            Err(_) => {},
        }
    }
}

/// An expression that parses takes at least one token.
pub proof fn lemma_expression_advances(tokens: Seq<TokenView>, pos: nat)
    ensures
        match expression(tokens, pos) {
            Ok((_, next)) => pos < next,
            Err(_) => true,
        },
    decreases remaining(tokens, pos), 3nat,
{
    lemma_unary_advances(tokens, pos);
    match unary(tokens, pos) {
        Ok((left, next)) => {
            lemma_additive_tail_advances(tokens, next, left);
        },
        Err(_) => {},
    }
}

/// `varDecl`, from the token behind `var`.
pub open spec fn var_declaration(tokens: Seq<TokenView>, pos: nat) -> Parsed<StmtView> {
    match kind_at(tokens, pos) {
        TokenKindView::Identifier(name) => match type_annotation(tokens, pos + 1) {
            Ok((ty, equal)) => {
                if kind_at(tokens, equal) == TokenKindView::Equal {
                    match expression(tokens, equal + 1) {
                        Ok((initializer, end)) => {
                            if kind_at(tokens, end) == TokenKindView::Semicolon {
                                Ok((StmtView::VarDecl { name, ty, initializer }, end + 1))
                            } else {
                                Err(
                                    failure(
                                        tokens,
                                        end,
                                        "Expected ';' after variable declaration."@,
                                    ),
                                )
                            }
                        },
                        Err(error) => Err(error),
                    }
                } else {
                    Err(failure(tokens, equal, "Expected '=' after variable name."@))
                }
            },
            Err(error) => Err(error),
        },
        _ => Err(failure(tokens, pos, "Expected variable name."@)),
    }
}

/// `exprStmt := expression ';'`
pub open spec fn expression_statement(tokens: Seq<TokenView>, pos: nat) -> Parsed<StmtView> {
    match expression(tokens, pos) {
        Ok((expr, end)) => {
            if kind_at(tokens, end) == TokenKindView::Semicolon {
                Ok((StmtView::ExprStmt(expr), end + 1))
            } else {
                Err(failure(tokens, end, "Expected ';' after expression."@))
            }
        },
        Err(error) => Err(error),
    }
}

/// `parameter (',' parameter)*`: the parameters of a declaration, at least one.
pub open spec fn parameters(tokens: Seq<TokenView>, pos: nat) -> Parsed<Seq<ParameterView>>
    decreases remaining(tokens, pos),
{
    match kind_at(tokens, pos) {
        TokenKindView::Identifier(name) => match type_annotation(tokens, pos + 1) {
            Ok((ty, next)) => {
                let first = ParameterView { name, ty };
                if kind_at(tokens, next) == TokenKindView::Comma {
                    match parameters(tokens, next + 1) {
                        Ok((rest, end)) => Ok((seq![first] + rest, end)),
                        Err(error) => Err(error),
                    }
                } else {
                    Ok((seq![first], next))
                }
            },
            Err(error) => Err(error),
        },
        _ => Err(failure(tokens, pos, "Expected parameter name."@)),
    }
}

/// A parameter list that parses ends behind where it began.
pub proof fn lemma_parameters_advance(tokens: Seq<TokenView>, pos: nat)
    ensures
        match parameters(tokens, pos) {
            Ok((_, next)) => pos < next,
            Err(_) => true,
        },
    decreases remaining(tokens, pos),
{
    match kind_at(tokens, pos) {
        TokenKindView::Identifier(_) => match type_annotation(tokens, pos + 1) {
            Ok((_, next)) => {
                if kind_at(tokens, next) == TokenKindView::Comma {
                    lemma_parameters_advance(tokens, next + 1);
                }
            },
            Err(_) => {},
        },
        _ => {},
    }
}

/// What stands between the parentheses of a declaration: nothing, or
/// [`parameters`].
pub open spec fn parameter_list(tokens: Seq<TokenView>, pos: nat) -> Parsed<Seq<ParameterView>> {
    if kind_at(tokens, pos) == TokenKindView::RightParen {
        Ok((Seq::empty(), pos))
    } else {
        parameters(tokens, pos)
    }
}

/// `statement := varDecl | funcDecl | exprStmt`, where the input has not ended.
pub open spec fn statement(tokens: Seq<TokenView>, pos: nat) -> Parsed<StmtView>
    decreases remaining(tokens, pos), 2nat,
{
    if kind_at(tokens, pos) == TokenKindView::Var {
        var_declaration(tokens, pos + 1)
    } else if kind_at(tokens, pos) == TokenKindView::Func {
        func_declaration(tokens, pos + 1)
    } else {
        expression_statement(tokens, pos)
    }
}

/// The end of a declaration whose body came to `body`: the closing brace, and
/// the declaration as a whole.
pub open spec fn function_close(
    tokens: Seq<TokenView>,
    name: Seq<char>,
    params: Seq<ParameterView>,
    return_ty: Option<TypeView>,
    body: Parsed<Seq<StmtView>>,
) -> Parsed<StmtView> {
    match body {
        Ok((body, end)) => {
            if kind_at(tokens, end) == TokenKindView::RightBrace {
                Ok((StmtView::FuncDecl { name, params, return_ty, body }, end + 1))
            } else {
                Err(failure(tokens, end, "Expected '}' after function body."@))
            }
        },
        Err(error) => Err(error),
    }
}

/// `funcDecl`, from the token behind `func`.
pub open spec fn func_declaration(tokens: Seq<TokenView>, pos: nat) -> Parsed<StmtView>
    decreases remaining(tokens, pos), 1nat,
{
    match kind_at(tokens, pos) {
        TokenKindView::Identifier(name) => {
            if kind_at(tokens, pos + 1) != TokenKindView::LeftParen {
                Err(failure(tokens, pos + 1, "Expected '(' after function name."@))
            } else {
                match parameter_list(tokens, pos + 2) {
                    Ok((params, close)) => {
                        if kind_at(tokens, close) != TokenKindView::RightParen {
                            Err(failure(tokens, close, "Expected ')' after parameters."@))
                        } else {
                            match type_annotation(tokens, close + 1) {
                                Ok((return_ty, open)) => {
                                    if kind_at(tokens, open) != TokenKindView::LeftBrace {
                                        Err(
                                            failure(
                                                tokens,
                                                open,
                                                "Expected '{' before function body."@,
                                            ),
                                        )
                                    } else {
                                        proof {
                                            lemma_parameters_advance(tokens, pos + 2);
                                        }
                                        function_close(
                                            tokens,
                                            name,
                                            params,
                                            return_ty,
                                            block(tokens, open + 1),
                                        )
                                    }
                                },
                                Err(error) => Err(error),
                            }
                        }
                    },
                    Err(error) => Err(error),
                }
            }
        },
        _ => Err(failure(tokens, pos, "Expected function name."@)),
    }
}

/// A statement, or nothing where the input has ended.
pub open spec fn statement_or_end(tokens: Seq<TokenView>, pos: nat) -> Parsed<Option<StmtView>> {
    if kind_at(tokens, pos) == TokenKindView::Eof {
        Ok((None, pos))
    } else {
        match statement(tokens, pos) {
            Ok((stmt, next)) => Ok((Some(stmt), next)),
            Err(error) => Err(error),
        }
    }
}

/// `statement*`, up to a closing brace or the end of the input.
pub open spec fn block(tokens: Seq<TokenView>, pos: nat) -> Parsed<Seq<StmtView>>
    decreases remaining(tokens, pos), 3nat,
{
    if kind_at(tokens, pos) == TokenKindView::RightBrace || kind_at(tokens, pos)
        == TokenKindView::Eof {
        Ok((Seq::empty(), pos))
    } else {
        match statement(tokens, pos) {
            Ok((first, next)) => {
                if pos < next {
                    match block(tokens, next) {
                        Ok((rest, end)) => Ok((seq![first] + rest, end)),
                        Err(error) => Err(error),
                    }
                } else {
                    Ok((seq![first], next))
                }
            },
            Err(error) => Err(error),
        }
    }
}

/// A statement that parses takes at least one token.
pub proof fn lemma_statement_advances(tokens: Seq<TokenView>, pos: nat)
    ensures
        match statement(tokens, pos) {
            Ok((_, next)) => pos < next,
            Err(_) => true,
        },
    decreases remaining(tokens, pos), 2nat,
{
    if kind_at(tokens, pos) == TokenKindView::Var {
        match type_annotation(tokens, pos + 2) {
            Ok((_, equal)) => {
                lemma_expression_advances(tokens, equal + 1);
            },
            Err(_) => {},
        }
    } else if kind_at(tokens, pos) == TokenKindView::Func {
        lemma_parameters_advance(tokens, pos + 3);
        match parameter_list(tokens, pos + 3) {
            Ok((_, close)) => match type_annotation(tokens, close + 1) {
                Ok((_, open)) => {
                    if kind_at(tokens, pos + 1) is Identifier && kind_at(tokens, pos + 2)
                        == TokenKindView::LeftParen && kind_at(tokens, close)
                        == TokenKindView::RightParen && kind_at(tokens, open)
                        == TokenKindView::LeftBrace {
                        lemma_block_advances(tokens, open + 1);
                    }
                },
                Err(_) => {},
            },
            Err(_) => {},
        }
    } else {
        lemma_expression_advances(tokens, pos);
    }
}

/// A run of statements that parses ends no earlier than where it began.
pub proof fn lemma_block_advances(tokens: Seq<TokenView>, pos: nat)
    ensures
        match block(tokens, pos) {
            Ok((_, next)) => pos <= next,
            Err(_) => true,
        },
    decreases remaining(tokens, pos), 3nat,
{
    if kind_at(tokens, pos) == TokenKindView::RightBrace || kind_at(tokens, pos)
        == TokenKindView::Eof {
    } else {
        lemma_statement_advances(tokens, pos);
        match statement(tokens, pos) {
            Ok((_, next)) => {
                lemma_block_advances(tokens, next);
            },
            Err(_) => {},
        }
    }
}

/// `statement*`, up to the end of the input: a whole program.
pub open spec fn program(tokens: Seq<TokenView>, pos: nat) -> Parsed<Seq<StmtView>>
    decreases remaining(tokens, pos),
{
    if kind_at(tokens, pos) == TokenKindView::Eof {
        Ok((Seq::empty(), pos))
    } else {
        match statement(tokens, pos) {
            Ok((first, next)) => {
                proof {
                    lemma_statement_advances(tokens, pos);
                }
                match program(tokens, next) {
                    Ok((rest, end)) => Ok((seq![first] + rest, end)),
                    Err(error) => Err(error),
                }
            },
            Err(error) => Err(error),
        }
    }
}

/// A program that parses ends at the end of the input, no earlier than it
/// began.
pub proof fn lemma_program_ends_at_eof(tokens: Seq<TokenView>, pos: nat)
    ensures
        match program(tokens, pos) {
            Ok((_, end)) => pos <= end && kind_at(tokens, end) == TokenKindView::Eof,
            Err(_) => true,
        },
    decreases remaining(tokens, pos),
{
    if kind_at(tokens, pos) != TokenKindView::Eof {
        lemma_statement_advances(tokens, pos);
        match statement(tokens, pos) {
            Ok((_, next)) => {
                lemma_program_ends_at_eof(tokens, next);
            },
            Err(_) => {},
        }
    }
}

/// A program of which the statements `done` stand parsed up to `here`, where
/// the input has not ended, goes on with the statement that stands there, or
/// fails as that statement fails.
pub proof fn lemma_program_continues(
    tokens: Seq<TokenView>,
    start: nat,
    done: Seq<StmtView>,
    here: nat,
)
    requires
        program(tokens, start) == listed(done, program(tokens, here)),
        kind_at(tokens, here) != TokenKindView::Eof,
    ensures
        program(tokens, start) == match statement(tokens, here) {
            Ok((first, next)) => listed(done.push(first), program(tokens, next)),
            Err(error) => Err(error),
        },
{
    match statement(tokens, here) {
        Ok((first, next)) => {
            lemma_listed_one_more(done, first, program(tokens, next));
        },
        Err(_) => {},
    }
}

/// As [`lemma_program_continues`], for the statements of a block.
pub proof fn lemma_block_continues(
    tokens: Seq<TokenView>,
    start: nat,
    done: Seq<StmtView>,
    here: nat,
)
    requires
        block(tokens, start) == listed(done, block(tokens, here)),
        kind_at(tokens, here) != TokenKindView::Eof,
        kind_at(tokens, here) != TokenKindView::RightBrace,
    ensures
        block(tokens, start) == match statement(tokens, here) {
            Ok((first, next)) => listed(done.push(first), block(tokens, next)),
            Err(error) => Err(error),
        },
{
    lemma_statement_advances(tokens, here);
    match statement(tokens, here) {
        Ok((first, next)) => {
            lemma_listed_one_more(done, first, block(tokens, next));
        },
        Err(_) => {},
    }
}

/// A program of which the statements `done` stand parsed up to `here`, where
/// the input ends, is those statements.
pub proof fn lemma_program_ends(tokens: Seq<TokenView>, start: nat, done: Seq<StmtView>, here: nat)
    requires
        program(tokens, start) == listed(done, program(tokens, here)),
        kind_at(tokens, here) == TokenKindView::Eof,
    ensures
        program(tokens, start) == Parsed::<Seq<StmtView>>::Ok((done, here)),
{
    lemma_listed_complete(done, here);
}

/// A list to which nothing more is added is the list itself.
pub proof fn lemma_listed_complete<T>(done: Seq<T>, end: nat)
    ensures
        listed(done, Parsed::<Seq<T>>::Ok((Seq::empty(), end))) == Parsed::<Seq<T>>::Ok(
            (done, end),
        ),
{
    assert(done + Seq::<T>::empty() =~= done);
}

} // verus!
