//! The tokens that a syntax tree is written with, and the proof that the
//! grammar reads every tree back from them.
use crate::ast::{ExprView, LiteralView, ParameterView, StmtView, TypeView};
use crate::lexer::token::{Number, TokenKindView, TokenView};
use crate::parser::grammar::{
    additive, additive_tail, arguments, block, expression, is_additive, kind_at,
    lemma_parameters_advance, lemma_statement_advances, lemma_unary_advances, negation,
    parameter_list, parameters, primary, program, remaining, statement, type_annotation, unary,
    Parsed,
};
use vstd::prelude::*;

verus! {

/// The token that a literal is written as.
pub open spec fn literal_token(literal: LiteralView) -> TokenKindView {
    match literal {
        LiteralView::String(text) => TokenKindView::StringLiteral(text),
        LiteralView::Number(number) => TokenKindView::NumberLiteral(number),
        LiteralView::Bool(true) => TokenKindView::True,
        LiteralView::Bool(false) => TokenKindView::False,
        LiteralView::Null => TokenKindView::Null,
    }
}

/// Whether `expr` is the tree that stands for a negation: something taken
/// from zero.
pub open spec fn is_negation(expr: ExprView) -> bool {
    match expr {
        ExprView::Binary { left, op, right } => *left == ExprView::Literal(
            LiteralView::Number(Number::spec_zero()),
        ) && op == TokenKindView::Minus,
        _ => false,
    }
}

/// The name that a call names, where its callee is a variable.
pub open spec fn callee_name(callee: ExprView) -> Seq<char> {
    match callee {
        ExprView::Variable(name) => name,
        _ => Seq::empty(),
    }
}

/// Whether `expr` is a tree that `primary` can yield: a literal, a variable,
/// or a call of a name with arguments that `expression` can yield.
pub open spec fn primary_shaped(expr: ExprView) -> bool
    decreases expr, 0nat,
{
    match expr {
        ExprView::Literal(_) => true,
        ExprView::Variable(_) => true,
        ExprView::Call { callee, args } => *callee is Variable && all_expression_shaped(args),
        ExprView::Binary { .. } => false,
    }
}

/// Whether `expr` is a tree that `unary` can yield: negations around a
/// primary-shaped tree.
pub open spec fn unary_shaped(expr: ExprView) -> bool
    decreases expr, 1nat,
{
    match expr {
        ExprView::Binary { left, op, right } => is_negation(expr) && unary_shaped(*right),
        _ => primary_shaped(expr),
    }
}

/// Whether `expr` is a tree that `expression` can yield: sums and differences
/// that lean to the left, of unary-shaped operands.
pub open spec fn expression_shaped(expr: ExprView) -> bool
    decreases expr, 1nat,
{
    match expr {
        ExprView::Binary { left, op, right } => is_additive(op) && expression_shaped(*left)
            && unary_shaped(*right),
        _ => primary_shaped(expr),
    }
}

/// Whether every one of `exprs` is expression-shaped.
pub open spec fn all_expression_shaped(exprs: Seq<ExprView>) -> bool
    decreases exprs, 0nat,
{
    exprs.len() == 0 || (expression_shaped(exprs[0]) && all_expression_shaped(exprs.drop_first()))
}

/// The tokens of a primary-shaped tree.
pub open spec fn primary_tokens(expr: ExprView) -> Seq<TokenKindView>
    decreases expr, 0nat,
{
    match expr {
        ExprView::Literal(literal) => seq![literal_token(literal)],
        ExprView::Variable(name) => seq![TokenKindView::Identifier(name)],
        ExprView::Call { callee, args } => seq![
            TokenKindView::Identifier(callee_name(*callee)),
            TokenKindView::LeftParen,
        ] + argument_tokens(args) + seq![TokenKindView::RightParen],
        ExprView::Binary { .. } => Seq::empty(),
    }
}

/// The tokens of a unary-shaped tree: a minus sign for each negation.
pub open spec fn unary_tokens(expr: ExprView) -> Seq<TokenKindView>
    decreases expr, 1nat,
{
    match expr {
        ExprView::Binary { left, op, right } => seq![TokenKindView::Minus] + unary_tokens(*right),
        _ => primary_tokens(expr),
    }
}

/// The tokens of an expression-shaped tree: the operands with the operators
/// between them. A leading negation is written as a difference from zero.
pub open spec fn expression_tokens(expr: ExprView) -> Seq<TokenKindView>
    decreases expr, 1nat,
{
    match expr {
        ExprView::Binary { left, op, right } => expression_tokens(*left) + seq![op] + unary_tokens(
            *right,
        ),
        _ => primary_tokens(expr),
    }
}

/// The tokens of the arguments of a call: the expressions with commas between
/// them.
pub open spec fn argument_tokens(exprs: Seq<ExprView>) -> Seq<TokenKindView>
    decreases exprs, 0nat,
{
    if exprs.len() == 0 {
        Seq::empty()
    } else if exprs.len() == 1 {
        expression_tokens(exprs[0])
    } else {
        expression_tokens(exprs[0]) + seq![TokenKindView::Comma] + argument_tokens(
            exprs.drop_first(),
        )
    }
}

/// Whether the tokens from `pos` on are of the kinds `kinds`, in order.
pub open spec fn reads(tokens: Seq<TokenView>, pos: nat, kinds: Seq<TokenKindView>) -> bool {
    forall|i: nat| i < kinds.len() ==> kind_at(tokens, pos + i) == #[trigger] kinds[i as int]
}

/// Tokens that read two runs of kinds, one behind the other, read each of
/// them where it stands.
pub proof fn lemma_reads_both(
    tokens: Seq<TokenView>,
    pos: nat,
    front: Seq<TokenKindView>,
    back: Seq<TokenKindView>,
)
    requires
        reads(tokens, pos, front + back),
    ensures
        reads(tokens, pos, front),
        reads(tokens, pos + front.len(), back),
{
    let all = front + back;
    assert forall|i: nat| i < front.len() implies kind_at(tokens, pos + i) == #[trigger] front[i as int] by {
        assert(all[i as int] == front[i as int]);
    }
    assert forall|i: nat| i < back.len() implies kind_at(tokens, pos + front.len() + i)
        == #[trigger] back[i as int] by {
        assert(all[(front.len() + i) as int] == back[i as int]);
        assert(kind_at(tokens, pos + (front.len() + i)) == all[(front.len() + i) as int]);
    }
}

/// Whether a token of this kind begins a primary expression.
pub open spec fn begins_primary(kind: TokenKindView) -> bool {
    kind is Identifier || kind is StringLiteral || kind is NumberLiteral || kind
        == TokenKindView::True || kind == TokenKindView::False || kind == TokenKindView::Null
}

/// Whether a token of this kind may stand behind an expression without
/// going on with it.
pub open spec fn ends_expression(kind: TokenKindView) -> bool {
    !is_additive(kind) && kind != TokenKindView::LeftParen
}

/// The tokens of an expression-shaped tree begin with a token that begins a
/// primary expression.
pub proof fn lemma_expression_begins(expr: ExprView)
    requires
        expression_shaped(expr),
    ensures
        expression_tokens(expr).len() > 0,
        begins_primary(expression_tokens(expr)[0]),
    decreases expr,
{
    reveal_with_fuel(expression_tokens, 2);
    match expr {
        ExprView::Binary { left, op, right } => {
            lemma_expression_begins(*left);
            let front = expression_tokens(*left);
            assert((front + seq![op] + unary_tokens(*right))[0] == front[0]);
        },
        ExprView::Call { callee, args } => {
            let head = seq![TokenKindView::Identifier(callee_name(*callee)), TokenKindView::LeftParen];
            assert((head + argument_tokens(args) + seq![TokenKindView::RightParen])[0] == head[0]);
        },
        _ => {},
    }
}

/// `primary` reads a primary-shaped tree back from its tokens.
pub proof fn lemma_primary_round_trip(tokens: Seq<TokenView>, pos: nat, expr: ExprView)
    requires
        primary_shaped(expr),
        reads(tokens, pos, primary_tokens(expr)),
        kind_at(tokens, pos + primary_tokens(expr).len()) != TokenKindView::LeftParen,
    ensures
        primary(tokens, pos) == Parsed::<ExprView>::Ok((expr, pos + primary_tokens(expr).len())),
    decreases expr, 0nat,
{
    let kinds = primary_tokens(expr);
    match expr {
        ExprView::Call { callee, args } => {
            let head = seq![TokenKindView::Identifier(callee_name(*callee)), TokenKindView::LeftParen];
            let inner = argument_tokens(args);
            let tail = seq![TokenKindView::RightParen];
            lemma_reads_both(tokens, pos, head + inner, tail);
            lemma_reads_both(tokens, pos, head, inner);
            assert(kind_at(tokens, pos + 0) == head[0]);
            assert(kind_at(tokens, pos + 1) == head[1]);
            assert(kind_at(tokens, pos + 2 + inner.len() + 0) == tail[0]);
            if args.len() == 0 {
                assert(args =~= Seq::<ExprView>::empty());
            } else {
                lemma_expression_begins(args[0]);
                assert(kind_at(tokens, pos + 2 + 0) == inner[0]);
                lemma_arguments_round_trip(tokens, pos + 2, args);
            }
        },
        _ => {
            assert(kind_at(tokens, pos + 0) == kinds[0]);
        },
    }
}

/// `arguments` reads expression-shaped arguments back from their tokens.
pub proof fn lemma_arguments_round_trip(tokens: Seq<TokenView>, pos: nat, exprs: Seq<ExprView>)
    requires
        exprs.len() > 0,
        all_expression_shaped(exprs),
        reads(tokens, pos, argument_tokens(exprs)),
        ends_expression(kind_at(tokens, pos + argument_tokens(exprs).len())),
        kind_at(tokens, pos + argument_tokens(exprs).len()) != TokenKindView::Comma,
    ensures
        arguments(tokens, pos) == Parsed::<Seq<ExprView>>::Ok(
            (exprs, pos + argument_tokens(exprs).len()),
        ),
    decreases exprs, 0nat,
{
    let first = expression_tokens(exprs[0]);
    lemma_expression_begins(exprs[0]);
    if exprs.len() == 1 {
        lemma_expression_round_trip(tokens, pos, exprs[0]);
        assert(seq![exprs[0]] =~= exprs);
    } else {
        let rest = exprs.drop_first();
        let comma = seq![TokenKindView::Comma];
        lemma_reads_both(tokens, pos, first + comma, argument_tokens(rest));
        lemma_reads_both(tokens, pos, first, comma);
        assert(kind_at(tokens, pos + first.len() + 0) == comma[0]);
        lemma_expression_round_trip(tokens, pos, exprs[0]);
        lemma_arguments_round_trip(tokens, pos + first.len() + 1, rest);
        assert(seq![exprs[0]] + rest =~= exprs);
    }
}

/// `unary` reads a unary-shaped tree back from its tokens.
pub proof fn lemma_unary_round_trip(tokens: Seq<TokenView>, pos: nat, expr: ExprView)
    requires
        unary_shaped(expr),
        reads(tokens, pos, unary_tokens(expr)),
        kind_at(tokens, pos + unary_tokens(expr).len()) != TokenKindView::LeftParen,
    ensures
        unary(tokens, pos) == Parsed::<ExprView>::Ok((expr, pos + unary_tokens(expr).len())),
        unary_tokens(expr).len() > 0,
    decreases expr, 1nat,
{
    match expr {
        ExprView::Binary { left, op, right } => {
            let minus = seq![TokenKindView::Minus];
            lemma_reads_both(tokens, pos, minus, unary_tokens(*right));
            assert(kind_at(tokens, pos + 0) == minus[0]);
            lemma_unary_round_trip(tokens, pos + 1, *right);
            assert(negation(*right) == expr);
        },
        _ => {
            assert(kind_at(tokens, pos + 0) == primary_tokens(expr)[0]);
            lemma_primary_round_trip(tokens, pos, expr);
        },
    }
}

/// `additive` reads the operands and operators of an expression-shaped tree
/// and goes on behind them with the tree in hand.
pub proof fn lemma_additive_reads_tree(tokens: Seq<TokenView>, pos: nat, expr: ExprView)
    requires
        expression_shaped(expr),
        reads(tokens, pos, expression_tokens(expr)),
        kind_at(tokens, pos + expression_tokens(expr).len()) != TokenKindView::LeftParen,
    ensures
        additive(tokens, pos) == additive_tail(tokens, pos + expression_tokens(expr).len(), expr),
        expression_tokens(expr).len() > 0,
    decreases expr, 2nat,
{
    match expr {
        ExprView::Binary { left, op, right } => {
            let front = expression_tokens(*left);
            let sign = seq![op];
            let back = unary_tokens(*right);
            lemma_reads_both(tokens, pos, front + sign, back);
            lemma_reads_both(tokens, pos, front, sign);
            assert(kind_at(tokens, pos + front.len() + 0) == sign[0]);
            lemma_additive_reads_tree(tokens, pos, *left);
            lemma_unary_round_trip(tokens, pos + front.len() + 1, *right);
        },
        _ => {
            assert(unary_shaped(expr));
            assert(unary_tokens(expr) == expression_tokens(expr));
            lemma_unary_round_trip(tokens, pos, expr);
        },
    }
}

/// `expression` reads an expression-shaped tree back from its tokens, where
/// the token behind them does not go on with the expression.
pub proof fn lemma_expression_round_trip(tokens: Seq<TokenView>, pos: nat, expr: ExprView)
    requires
        expression_shaped(expr),
        reads(tokens, pos, expression_tokens(expr)),
        ends_expression(kind_at(tokens, pos + expression_tokens(expr).len())),
    ensures
        expression(tokens, pos) == Parsed::<ExprView>::Ok(
            (expr, pos + expression_tokens(expr).len()),
        ),
        expression_tokens(expr).len() > 0,
    decreases expr, 3nat,
{
    lemma_additive_reads_tree(tokens, pos, expr);
}

/// The tokens of an annotation: a colon and the name of the type, or nothing.
pub open spec fn annotation_tokens(ty: Option<TypeView>) -> Seq<TokenKindView> {
    match ty {
        Some(ty) => seq![TokenKindView::Colon, TokenKindView::Identifier(ty.name)],
        None => Seq::empty(),
    }
}

/// The tokens of one parameter: its name and its annotation.
pub open spec fn parameter_tokens(param: ParameterView) -> Seq<TokenKindView> {
    seq![TokenKindView::Identifier(param.name)] + annotation_tokens(param.ty)
}

/// The tokens of the parameters of a declaration, with commas between them.
pub open spec fn parameter_list_tokens(params: Seq<ParameterView>) -> Seq<TokenKindView>
    decreases params.len(),
{
    if params.len() == 0 {
        Seq::empty()
    } else if params.len() == 1 {
        parameter_tokens(params[0])
    } else {
        parameter_tokens(params[0]) + seq![TokenKindView::Comma] + parameter_list_tokens(
            params.drop_first(),
        )
    }
}

/// Whether `stmt` is a statement that `statement` can yield: its expressions
/// are expression-shaped, and so are those of the statements in it.
pub open spec fn statement_shaped(stmt: StmtView) -> bool
    decreases stmt,
{
    match stmt {
        StmtView::VarDecl { name, ty, initializer } => expression_shaped(initializer),
        StmtView::FuncDecl { name, params, return_ty, body } => all_statement_shaped(body),
        StmtView::ExprStmt(expr) => expression_shaped(expr),
    }
}

/// Whether every one of `stmts` is statement-shaped.
pub open spec fn all_statement_shaped(stmts: Seq<StmtView>) -> bool
    decreases stmts,
{
    stmts.len() == 0 || (statement_shaped(stmts[0]) && all_statement_shaped(stmts.drop_first()))
}

/// The tokens of a statement.
pub open spec fn statement_tokens(stmt: StmtView) -> Seq<TokenKindView>
    decreases stmt,
{
    match stmt {
        StmtView::VarDecl { name, ty, initializer } => seq![
            TokenKindView::Var,
            TokenKindView::Identifier(name),
        ] + annotation_tokens(ty) + seq![TokenKindView::Equal] + expression_tokens(initializer)
            + seq![TokenKindView::Semicolon],
        StmtView::FuncDecl { name, params, return_ty, body } => seq![
            TokenKindView::Func,
            TokenKindView::Identifier(name),
            TokenKindView::LeftParen,
        ] + parameter_list_tokens(params) + seq![TokenKindView::RightParen] + annotation_tokens(
            return_ty,
        ) + seq![TokenKindView::LeftBrace] + statements_tokens(body) + seq![
            TokenKindView::RightBrace,
        ],
        StmtView::ExprStmt(expr) => expression_tokens(expr) + seq![TokenKindView::Semicolon],
    }
}

/// The tokens of a run of statements, one statement after the other.
pub open spec fn statements_tokens(stmts: Seq<StmtView>) -> Seq<TokenKindView>
    decreases stmts,
{
    if stmts.len() == 0 {
        Seq::empty()
    } else {
        statement_tokens(stmts[0]) + statements_tokens(stmts.drop_first())
    }
}

/// Whether a token of this kind begins a statement.
pub open spec fn begins_statement(kind: TokenKindView) -> bool {
    kind == TokenKindView::Var || kind == TokenKindView::Func || begins_primary(kind)
}

/// The tokens of a statement-shaped statement begin with a token that begins
/// a statement.
pub proof fn lemma_statement_begins(stmt: StmtView)
    requires
        statement_shaped(stmt),
    ensures
        statement_tokens(stmt).len() > 0,
        begins_statement(statement_tokens(stmt)[0]),
{
    match stmt {
        StmtView::VarDecl { name, ty, initializer } => {
            let head = seq![TokenKindView::Var, TokenKindView::Identifier(name)];
            assert(statement_tokens(stmt)[0] == head[0]);
        },
        StmtView::FuncDecl { name, params, return_ty, body } => {
            let head = seq![
                TokenKindView::Func,
                TokenKindView::Identifier(name),
                TokenKindView::LeftParen,
            ];
            assert(statement_tokens(stmt)[0] == head[0]);
        },
        StmtView::ExprStmt(expr) => {
            lemma_expression_begins(expr);
            assert(statement_tokens(stmt)[0] == expression_tokens(expr)[0]);
        },
    }
}

/// `type_annotation` reads an annotation back from its tokens. Where there is
/// no annotation, the token that stands there must not be a colon.
pub proof fn lemma_annotation_round_trip(tokens: Seq<TokenView>, pos: nat, ty: Option<TypeView>)
    requires
        reads(tokens, pos, annotation_tokens(ty)),
        ty is None ==> kind_at(tokens, pos) != TokenKindView::Colon,
    ensures
        type_annotation(tokens, pos) == Parsed::<Option<TypeView>>::Ok(
            (ty, pos + annotation_tokens(ty).len()),
        ),
{
    match ty {
        Some(ty) => {
            let kinds = annotation_tokens(Some(ty));
            assert(kind_at(tokens, pos + 0) == kinds[0]);
            assert(kind_at(tokens, pos + 1) == kinds[1]);
        },
        None => {},
    }
}

/// `parameters` reads parameters back from their tokens, where the token
/// behind them is neither a comma nor a colon.
pub proof fn lemma_parameters_round_trip(
    tokens: Seq<TokenView>,
    pos: nat,
    params: Seq<ParameterView>,
)
    requires
        params.len() > 0,
        reads(tokens, pos, parameter_list_tokens(params)),
        kind_at(tokens, pos + parameter_list_tokens(params).len()) != TokenKindView::Comma,
        kind_at(tokens, pos + parameter_list_tokens(params).len()) != TokenKindView::Colon,
    ensures
        parameters(tokens, pos) == Parsed::<Seq<ParameterView>>::Ok(
            (params, pos + parameter_list_tokens(params).len()),
        ),
    decreases params.len(),
{
    let first = params[0];
    let name = seq![TokenKindView::Identifier(first.name)];
    let annotation = annotation_tokens(first.ty);
    if params.len() == 1 {
        lemma_reads_both(tokens, pos, name, annotation);
        assert(kind_at(tokens, pos + 0) == name[0]);
        lemma_annotation_round_trip(tokens, pos + 1, first.ty);
        assert(seq![first] =~= params);
    } else {
        let rest = params.drop_first();
        let comma = seq![TokenKindView::Comma];
        lemma_reads_both(tokens, pos, name + annotation + comma, parameter_list_tokens(rest));
        lemma_reads_both(tokens, pos, name + annotation, comma);
        lemma_reads_both(tokens, pos, name, annotation);
        assert(kind_at(tokens, pos + 0) == name[0]);
        assert(kind_at(tokens, pos + 1 + annotation.len() + 0) == comma[0]);
        lemma_annotation_round_trip(tokens, pos + 1, first.ty);
        lemma_parameters_round_trip(tokens, pos + 1 + annotation.len() + 1, rest);
        assert(seq![first] + rest =~= params);
    }
}

/// `statement` reads a statement-shaped statement back from its tokens.
pub proof fn lemma_statement_round_trip(tokens: Seq<TokenView>, pos: nat, stmt: StmtView)
    requires
        statement_shaped(stmt),
        reads(tokens, pos, statement_tokens(stmt)),
    ensures
        statement(tokens, pos) == Parsed::<StmtView>::Ok((stmt, pos + statement_tokens(stmt).len())),
        statement_tokens(stmt).len() > 0,
    decreases stmt, 1nat,
{
    match stmt {
        StmtView::VarDecl { name, ty, initializer } => {
            let head = seq![TokenKindView::Var, TokenKindView::Identifier(name)];
            let annotation = annotation_tokens(ty);
            let equal = seq![TokenKindView::Equal];
            let value = expression_tokens(initializer);
            let semicolon = seq![TokenKindView::Semicolon];
            lemma_reads_both(tokens, pos, head + annotation + equal + value, semicolon);
            lemma_reads_both(tokens, pos, head + annotation + equal, value);
            lemma_reads_both(tokens, pos, head + annotation, equal);
            lemma_reads_both(tokens, pos, head, annotation);
            let at_equal = pos + 2 + annotation.len();
            assert(kind_at(tokens, pos + 0) == head[0]);
            assert(kind_at(tokens, pos + 1) == head[1]);
            assert(kind_at(tokens, at_equal + 0) == equal[0]);
            assert(kind_at(tokens, at_equal + 1 + value.len() + 0) == semicolon[0]);
            lemma_annotation_round_trip(tokens, pos + 2, ty);
            lemma_expression_round_trip(tokens, at_equal + 1, initializer);
        },
        StmtView::FuncDecl { name, params, return_ty, body } => {
            let head = seq![
                TokenKindView::Func,
                TokenKindView::Identifier(name),
                TokenKindView::LeftParen,
            ];
            let listed = parameter_list_tokens(params);
            let close = seq![TokenKindView::RightParen];
            let annotation = annotation_tokens(return_ty);
            let open = seq![TokenKindView::LeftBrace];
            let inside = statements_tokens(body);
            let end = seq![TokenKindView::RightBrace];
            lemma_reads_both(tokens, pos, head + listed + close + annotation + open + inside, end);
            lemma_reads_both(tokens, pos, head + listed + close + annotation + open, inside);
            lemma_reads_both(tokens, pos, head + listed + close + annotation, open);
            lemma_reads_both(tokens, pos, head + listed + close, annotation);
            lemma_reads_both(tokens, pos, head + listed, close);
            lemma_reads_both(tokens, pos, head, listed);
            let at_close = pos + 3 + listed.len();
            let at_open = at_close + 1 + annotation.len();
            assert(kind_at(tokens, pos + 0) == head[0]);
            assert(kind_at(tokens, pos + 1) == head[1]);
            assert(kind_at(tokens, pos + 2) == head[2]);
            assert(kind_at(tokens, at_close + 0) == close[0]);
            assert(kind_at(tokens, at_open + 0) == open[0]);
            assert(kind_at(tokens, at_open + 1 + inside.len() + 0) == end[0]);
            if params.len() == 0 {
                assert(params =~= Seq::<ParameterView>::empty());
            } else {
                assert(listed.len() > 0 && listed[0] is Identifier) by {
                    let first = parameter_tokens(params[0]);
                    assert(first[0] is Identifier);
                    assert(listed[0] == first[0]);
                }
                assert(kind_at(tokens, pos + 3 + 0) == listed[0]);
                lemma_parameters_round_trip(tokens, pos + 3, params);
            }
            lemma_annotation_round_trip(tokens, at_close + 1, return_ty);
            lemma_block_round_trip(tokens, at_open + 1, body);
        },
        StmtView::ExprStmt(expr) => {
            let value = expression_tokens(expr);
            let semicolon = seq![TokenKindView::Semicolon];
            lemma_reads_both(tokens, pos, value, semicolon);
            lemma_expression_begins(expr);
            assert(kind_at(tokens, pos + 0) == value[0]);
            assert(kind_at(tokens, pos + value.len() + 0) == semicolon[0]);
            lemma_expression_round_trip(tokens, pos, expr);
        },
    }
}

/// `block` reads statement-shaped statements back from their tokens, where a
/// closing brace or the end of the input stands behind them.
pub proof fn lemma_block_round_trip(tokens: Seq<TokenView>, pos: nat, stmts: Seq<StmtView>)
    requires
        all_statement_shaped(stmts),
        reads(tokens, pos, statements_tokens(stmts)),
        kind_at(tokens, pos + statements_tokens(stmts).len()) == TokenKindView::RightBrace
            || kind_at(tokens, pos + statements_tokens(stmts).len()) == TokenKindView::Eof,
    ensures
        block(tokens, pos) == Parsed::<Seq<StmtView>>::Ok(
            (stmts, pos + statements_tokens(stmts).len()),
        ),
    decreases stmts, 0nat,
{
    if stmts.len() == 0 {
        assert(stmts =~= Seq::<StmtView>::empty());
    } else {
        let first = statement_tokens(stmts[0]);
        let rest = stmts.drop_first();
        lemma_reads_both(tokens, pos, first, statements_tokens(rest));
        lemma_statement_begins(stmts[0]);
        assert(kind_at(tokens, pos + 0) == first[0]);
        lemma_statement_round_trip(tokens, pos, stmts[0]);
        lemma_block_round_trip(tokens, pos + first.len(), rest);
        assert(seq![stmts[0]] + rest =~= stmts);
    }
}

/// `program` reads statement-shaped statements back from their tokens, where
/// the end of the input stands behind them.
pub proof fn lemma_program_round_trip(tokens: Seq<TokenView>, pos: nat, stmts: Seq<StmtView>)
    requires
        all_statement_shaped(stmts),
        reads(tokens, pos, statements_tokens(stmts)),
        kind_at(tokens, pos + statements_tokens(stmts).len()) == TokenKindView::Eof,
    ensures
        program(tokens, pos) == Parsed::<Seq<StmtView>>::Ok(
            (stmts, pos + statements_tokens(stmts).len()),
        ),
    decreases stmts.len(),
{
    if stmts.len() == 0 {
        assert(stmts =~= Seq::<StmtView>::empty());
    } else {
        let first = statement_tokens(stmts[0]);
        let rest = stmts.drop_first();
        lemma_reads_both(tokens, pos, first, statements_tokens(rest));
        lemma_statement_begins(stmts[0]);
        assert(kind_at(tokens, pos + 0) == first[0]);
        lemma_statement_round_trip(tokens, pos, stmts[0]);
        lemma_program_round_trip(tokens, pos + first.len(), rest);
        assert(seq![stmts[0]] + rest =~= stmts);
    }
}

/// A tree that `primary` yields is primary-shaped.
pub proof fn lemma_primary_yields_shaped(tokens: Seq<TokenView>, pos: nat)
    ensures
        match primary(tokens, pos) {
            Ok((expr, _)) => primary_shaped(expr),
            Err(_) => true,
        },
    decreases remaining(tokens, pos), 0nat,
{
    match kind_at(tokens, pos) {
        TokenKindView::Identifier(_) => {
            if kind_at(tokens, pos + 1) == TokenKindView::LeftParen {
                if kind_at(tokens, pos + 2) != TokenKindView::RightParen {
                    lemma_arguments_yield_shaped(tokens, pos + 2);
                }
            }
        },
        _ => {},
    }
}

/// Arguments that `arguments` yields are expression-shaped.
pub proof fn lemma_arguments_yield_shaped(tokens: Seq<TokenView>, pos: nat)
    ensures
        match arguments(tokens, pos) {
            Ok((exprs, _)) => all_expression_shaped(exprs),
            Err(_) => true,
        },
    decreases remaining(tokens, pos), 4nat,
{
    lemma_expression_yields_shaped(tokens, pos);
    match expression(tokens, pos) {
        Ok((first, next)) => {
            if pos < next && kind_at(tokens, next) == TokenKindView::Comma {
                lemma_arguments_yield_shaped(tokens, next + 1);
                match arguments(tokens, next + 1) {
                    Ok((rest, _)) => {
                        assert((seq![first] + rest).drop_first() =~= rest);
                    },
                    Err(_) => {},
                }
            } else {
                assert(seq![first].drop_first() =~= Seq::<ExprView>::empty());
                reveal_with_fuel(all_expression_shaped, 2);
            }
        },
        Err(_) => {},
    }
}

/// A tree that `unary` yields is unary-shaped.
pub proof fn lemma_unary_yields_shaped(tokens: Seq<TokenView>, pos: nat)
    ensures
        match unary(tokens, pos) {
            Ok((expr, _)) => unary_shaped(expr),
            Err(_) => true,
        },
    decreases remaining(tokens, pos), 1nat,
{
    if kind_at(tokens, pos) == TokenKindView::Minus {
        lemma_unary_yields_shaped(tokens, pos + 1);
    } else {
        lemma_primary_yields_shaped(tokens, pos);
        reveal_with_fuel(unary_shaped, 2);
    }
}

/// A unary-shaped tree is expression-shaped.
pub proof fn lemma_unary_is_expression_shaped(expr: ExprView)
    requires
        unary_shaped(expr),
    ensures
        expression_shaped(expr),
{
    reveal_with_fuel(expression_shaped, 3);
}

/// The tree that `additive_tail` yields behind an expression-shaped operand
/// is expression-shaped.
pub proof fn lemma_additive_tail_yields_shaped(tokens: Seq<TokenView>, pos: nat, left: ExprView)
    requires
        expression_shaped(left),
    ensures
        match additive_tail(tokens, pos, left) {
            Ok((expr, _)) => expression_shaped(expr),
            Err(_) => true,
        },
    decreases remaining(tokens, pos), 0nat,
{
    if is_additive(kind_at(tokens, pos)) {
        lemma_unary_yields_shaped(tokens, pos + 1);
        match unary(tokens, pos + 1) {
            Ok((right, next)) => {
                let sum = ExprView::Binary {
                    left: Box::new(left),
                    op: kind_at(tokens, pos),
                    right: Box::new(right),
                };
                if pos < next {
                    lemma_additive_tail_yields_shaped(tokens, next, sum);
                }
            },
            Err(_) => {},
        }
    }
}

/// A tree that `expression` yields is expression-shaped.
pub proof fn lemma_expression_yields_shaped(tokens: Seq<TokenView>, pos: nat)
    ensures
        match expression(tokens, pos) {
            Ok((expr, _)) => expression_shaped(expr),
            Err(_) => true,
        },
    decreases remaining(tokens, pos), 3nat,
{
    lemma_unary_yields_shaped(tokens, pos);
    lemma_unary_advances(tokens, pos);
    match unary(tokens, pos) {
        Ok((left, next)) => {
            lemma_unary_is_expression_shaped(left);
            lemma_additive_tail_yields_shaped(tokens, next, left);
        },
        Err(_) => {},
    }
}

/// A statement that `statement` yields is statement-shaped.
pub proof fn lemma_statement_yields_shaped(tokens: Seq<TokenView>, pos: nat)
    ensures
        match statement(tokens, pos) {
            Ok((stmt, _)) => statement_shaped(stmt),
            Err(_) => true,
        },
    decreases remaining(tokens, pos), 2nat,
{
    if kind_at(tokens, pos) == TokenKindView::Var {
        match type_annotation(tokens, pos + 2) {
            Ok((_, equal)) => {
                lemma_expression_yields_shaped(tokens, equal + 1);
            },
            Err(_) => {},
        }
    } else if kind_at(tokens, pos) == TokenKindView::Func {
        lemma_parameters_advance(tokens, pos + 3);
        match parameter_list(tokens, pos + 3) {
            Ok((_, close)) => match type_annotation(tokens, close + 1) {
                Ok((_, open)) => {
                    if kind_at(tokens, pos + 1) is Identifier && kind_at(tokens, pos + 2)
                        == TokenKindView::LeftParen && kind_at(tokens, close)
                        == TokenKindView::RightParen && kind_at(tokens, open)
                        == TokenKindView::LeftBrace {
                        lemma_block_yields_shaped(tokens, open + 1);
                    }
                },
                Err(_) => {},
            },
            Err(_) => {},
        }
    } else {
        lemma_expression_yields_shaped(tokens, pos);
    }
}

/// Statements that `block` yields are statement-shaped.
pub proof fn lemma_block_yields_shaped(tokens: Seq<TokenView>, pos: nat)
    ensures
        match block(tokens, pos) {
            Ok((stmts, _)) => all_statement_shaped(stmts),
            Err(_) => true,
        },
    decreases remaining(tokens, pos), 3nat,
{
    if kind_at(tokens, pos) == TokenKindView::RightBrace || kind_at(tokens, pos)
        == TokenKindView::Eof {
    } else {
        lemma_statement_yields_shaped(tokens, pos);
        lemma_statement_advances(tokens, pos);
        match statement(tokens, pos) {
            Ok((first, next)) => {
                lemma_block_yields_shaped(tokens, next);
                match block(tokens, next) {
                    Ok((rest, _)) => {
                        assert((seq![first] + rest).drop_first() =~= rest);
                    },
                    Err(_) => {},
                }
            },
            Err(_) => {},
        }
    }
}

/// Statements that `program` yields are statement-shaped.
pub proof fn lemma_program_yields_shaped(tokens: Seq<TokenView>, pos: nat)
    ensures
        match program(tokens, pos) {
            Ok((stmts, _)) => all_statement_shaped(stmts),
            Err(_) => true,
        },
    decreases remaining(tokens, pos),
{
    if kind_at(tokens, pos) != TokenKindView::Eof {
        lemma_statement_yields_shaped(tokens, pos);
        lemma_statement_advances(tokens, pos);
        match statement(tokens, pos) {
            Ok((first, next)) => {
                lemma_program_yields_shaped(tokens, next);
                match program(tokens, next) {
                    Ok((rest, _)) => {
                        assert((seq![first] + rest).drop_first() =~= rest);
                    },
                    Err(_) => {},
                }
            },
            Err(_) => {},
        }
    }
}

} // verus!
