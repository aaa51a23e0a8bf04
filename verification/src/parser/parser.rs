use crate::ast::{
    annotation_view, expr_views, parameter_views, stmt_views, Expr, ExprView, Literal, Parameter,
    ParameterView, Stmt, StmtView, Type, TypeView,
};
use crate::lexer::token::{token_views, Number, Token, TokenKind, TokenKindView, TokenView};
use crate::parser::error::ParserError;
use crate::parser::grammar::{
    additive, additive_tail, arguments, block, expression, expression_statement, failure,
    func_declaration, function_close, kind_at, lemma_block_continues, lemma_expression_advances,
    lemma_listed_complete, lemma_listed_nothing, lemma_listed_one_more, lemma_parameters_advance,
    lemma_program_continues, lemma_program_ends, lemma_statement_advances, lemma_unary_advances,
    listed, parameters, primary, program, remaining, span_at, statement_or_end, type_annotation,
    unary, var_declaration, Parsed,
};
use vstd::prelude::*;

verus! {

/// Whether a token sequence is one that a [`Parser`] can work on: it ends in
/// the end-of-input token.
pub open spec fn ends_in_eof(tokens: Seq<TokenView>) -> bool {
    tokens.len() > 0 && tokens.last().kind == TokenKindView::Eof
}

/// What a production of the parser came to, as the grammar states it: the value
/// of the tree or of the error, with the position at which the parser then
/// stands.
pub open spec fn expr_outcome(result: Result<Expr, ParserError>, next: nat) -> Parsed<ExprView> {
    match result {
        Ok(expr) => Ok((expr@, next)),
        Err(error) => Err((error@, next)),
    }
}

/// As [`expr_outcome`], for a statement.
pub open spec fn stmt_outcome(result: Result<Stmt, ParserError>, next: nat) -> Parsed<StmtView> {
    match result {
        Ok(stmt) => Ok((stmt@, next)),
        Err(error) => Err((error@, next)),
    }
}

/// As [`expr_outcome`], for a run of statements.
pub open spec fn stmts_outcome(result: Result<Vec<Stmt>, ParserError>, next: nat) -> Parsed<
    Seq<StmtView>,
> {
    match result {
        Ok(stmts) => Ok((stmt_views(stmts@), next)),
        Err(error) => Err((error@, next)),
    }
}

/// As [`expr_outcome`], for a statement that may be absent.
pub open spec fn optional_stmt_outcome(
    result: Result<Option<Stmt>, ParserError>,
    next: nat,
) -> Parsed<Option<StmtView>> {
    match result {
        Ok(Some(stmt)) => Ok((Some(stmt@), next)),
        Ok(None) => Ok((None, next)),
        Err(error) => Err((error@, next)),
    }
}

/// As [`expr_outcome`], for an annotation that may be absent.
pub open spec fn annotation_outcome(result: Result<Option<Type>, ParserError>, next: nat) -> Parsed<
    Option<TypeView>,
> {
    match result {
        Ok(ty) => Ok((annotation_view(ty), next)),
        Err(error) => Err((error@, next)),
    }
}

/// A recursive-descent parser with one token of look-ahead.
pub struct Parser {
    tokens: Vec<Token>,
    current: usize,
}

impl Parser {
    #[verifier::type_invariant]
    spec fn well_formed(self) -> bool {
        &&& ends_in_eof(token_views(self.tokens@))
        &&& self.current < self.tokens@.len()
    }

    /// The tokens that the parser was made with.
    pub closed spec fn tokens(&self) -> Seq<TokenView> {
        token_views(self.tokens@)
    }

    /// The index of the token that the parser looks at.
    pub closed spec fn position(&self) -> nat {
        self.current as nat
    }

    /// A parser at the first of `tokens`.
    pub fn new(tokens: Vec<Token>) -> (parser: Parser)
        requires
            ends_in_eof(token_views(tokens@)),
        ensures
            parser.tokens() == token_views(tokens@),
            parser.position() == 0,
    {
        Parser { tokens, current: 0 }
    }

    /// The token that the parser looks at.
    fn peek(&self) -> (token: &Token)
        ensures
            self.position() < self.tokens().len(),
            token@ == self.tokens()[self.position() as int],
            token@.kind == kind_at(self.tokens(), self.position()),
            token.span == span_at(self.tokens(), self.position()),
    {
        proof {
            use_type_invariant(self);
        }
        &self.tokens[self.current]
    }

    /// The token before the one that the parser looks at, or the first token
    /// where there is none before.
    fn previous(&self) -> (token: &Token)
        ensures
            token@ == self.tokens()[if self.position() == 0 {
                0
            } else {
                self.position() - 1
            }],
    {
        proof {
            use_type_invariant(self);
        }
        if self.current == 0 {
            &self.tokens[0]
        } else {
            &self.tokens[self.current - 1]
        }
    }

    /// Whether the parser looks at the end of the input.
    fn isAtEnd(&self) -> (ended: bool)
        ensures
            ended == (kind_at(self.tokens(), self.position()) == TokenKindView::Eof),
    {
        matches!(self.peek().kind, TokenKind::Eof)
    }

    /// Whether the parser looks at a token of the kind of `kind`, whatever it
    /// carries. At the end of the input it looks at none.
    fn check(&self, kind: &TokenKind) -> (found: bool)
        ensures
            found == (kind_at(self.tokens(), self.position()) != TokenKindView::Eof && kind_at(
                self.tokens(),
                self.position(),
            ).shape() == kind@.shape()),
    {
        if self.isAtEnd() {
            return false;
        }
        self.peek().kind.same_kind(kind)
    }

    /// Moves on by one token, unless the input has ended, and returns the
    /// token before the one that the parser then looks at.
    fn advance(&mut self) -> (token: &Token)
        ensures
            final(self).tokens() == old(self).tokens(),
            final(self).position() == if kind_at(old(self).tokens(), old(self).position())
                == TokenKindView::Eof {
                old(self).position()
            } else {
                old(self).position() + 1
            },
            token@ == old(self).tokens()[if final(self).position() == 0 {
                0
            } else {
                final(self).position() - 1
            }],
    {
        proof {
            use_type_invariant(&*self);
        }
        if !self.isAtEnd() {
            assert(self.current + 1 < self.tokens.len()) by {
                let views = token_views(self.tokens@);
                assert(views.last().kind == TokenKindView::Eof);
                assert(views[self.current as int].kind != TokenKindView::Eof);
            }
            self.current += 1;
        }
        self.previous()
    }

    /// The error with `message` at the token that the parser looks at.
    fn error(&self, message: &str) -> (error: ParserError)
        ensures
            (error@, self.position()) == failure(self.tokens(), self.position(), message@),
    {
        ParserError::Custom { message: String::from_str(message), span: self.peek().span }
    }

    /// Moves over a token of the kind of `kind`, if the parser looks at one,
    /// and says whether it did.
    fn matchToken(&mut self, kind: &TokenKind) -> (found: bool)
        ensures
            final(self).tokens() == old(self).tokens(),
            found == (kind_at(old(self).tokens(), old(self).position()) != TokenKindView::Eof
                && kind_at(old(self).tokens(), old(self).position()).shape() == kind@.shape()),
            final(self).position() == if found {
                old(self).position() + 1
            } else {
                old(self).position()
            },
    {
        if self.check(kind) {
            self.advance();
            true
        } else {
            false
        }
    }

    /// Moves over a token of the kind of `kind`, or fails with `message` where
    /// the parser looks at another.
    fn consume(&mut self, kind: &TokenKind, message: &str) -> (result: Result<(), ParserError>)
        ensures
            final(self).tokens() == old(self).tokens(),
            match result {
                Ok(_) => {
                    &&& kind_at(old(self).tokens(), old(self).position()) != TokenKindView::Eof
                    &&& kind_at(old(self).tokens(), old(self).position()).shape() == kind@.shape()
                    &&& final(self).position() == old(self).position() + 1
                },
                Err(error) => {
                    &&& !(kind_at(old(self).tokens(), old(self).position()) != TokenKindView::Eof
                        && kind_at(old(self).tokens(), old(self).position()).shape()
                        == kind@.shape())
                    &&& (error@, final(self).position()) == failure(
                        old(self).tokens(),
                        old(self).position(),
                        message@,
                    )
                },
            },
    {
        if self.check(kind) {
            self.advance();
            Ok(())
        } else {
            Err(self.error(message))
        }
    }

    /// Parses statements up to the end of the input. The result is what the
    /// grammar's [`program`] yields from the parser's position; the first
    /// error ends the parse, and the parser then stands at the token that the
    /// error names.
    pub fn parse(&mut self) -> (result: Result<Vec<Stmt>, ParserError>)
        ensures
            final(self).tokens() == old(self).tokens(),
            stmts_outcome(result, final(self).position()) == program(
                old(self).tokens(),
                old(self).position(),
            ),
    {
        let ghost tokens = self.tokens();
        let ghost start = self.position();
        let mut statements: Vec<Stmt> = Vec::new();
        proof {
            lemma_listed_nothing(program(tokens, start));
        }
        while !self.isAtEnd()
            invariant
                tokens == old(self).tokens(),
                start == old(self).position(),
                self.tokens() == tokens,
                program(tokens, start) == listed(
                    stmt_views(statements@),
                    program(tokens, self.position()),
                ),
            decreases remaining(tokens, self.position()),
        {
            let ghost here = self.position();
            let ghost done = stmt_views(statements@);
            proof {
                lemma_statement_advances(tokens, here);
                lemma_program_continues(tokens, start, done, here);
            }
            if let Some(stmt) = self.parseStatement()? {
                statements.push(stmt);
                assert(stmt_views(statements@) =~= done.push(stmt@));
            }
        }
        proof {
            lemma_program_ends(tokens, start, stmt_views(statements@), self.position());
        }
        Ok(statements)
    }

    /// `statement`, or nothing at the end of the input.
    fn parseStatement(&mut self) -> (result: Result<Option<Stmt>, ParserError>)
        ensures
            final(self).tokens() == old(self).tokens(),
            optional_stmt_outcome(result, final(self).position()) == statement_or_end(
                old(self).tokens(),
                old(self).position(),
            ),
        decreases remaining(old(self).tokens(), old(self).position()), 2nat,
    {
        if self.isAtEnd() {
            return Ok(None);
        }
        if self.matchToken(&TokenKind::Var) {
            Ok(Some(self.parseVarDeclaration()?))
        } else if self.matchToken(&TokenKind::Func) {
            Ok(Some(self.parseFuncDeclaration()?))
        } else {
            Ok(Some(self.parseExpressionStatement()?))
        }
    }

    /// `varDecl`, behind its `var`.
    fn parseVarDeclaration(&mut self) -> (result: Result<Stmt, ParserError>)
        ensures
            final(self).tokens() == old(self).tokens(),
            stmt_outcome(result, final(self).position()) == var_declaration(
                old(self).tokens(),
                old(self).position(),
            ),
    {
        let name = match &self.peek().kind {
            TokenKind::Identifier(name) => name.clone(),
            _ => return Err(self.error("Expected variable name.")),
        };
        self.advance();

        let ty = self.parseTypeAnnotation()?;

        self.consume(&TokenKind::Equal, "Expected '=' after variable name.")?;
        let initializer = self.parseExpression()?;
        self.consume(&TokenKind::Semicolon, "Expected ';' after variable declaration.")?;

        Ok(Stmt::VarDecl { name, ty, initializer })
    }

    /// `funcDecl`, behind its `func`.
    fn parseFuncDeclaration(&mut self) -> (result: Result<Stmt, ParserError>)
        ensures
            final(self).tokens() == old(self).tokens(),
            stmt_outcome(result, final(self).position()) == func_declaration(
                old(self).tokens(),
                old(self).position(),
            ),
        decreases remaining(old(self).tokens(), old(self).position()), 1nat,
    {
        let ghost tokens = self.tokens();
        let ghost start = self.position();
        let name = match &self.peek().kind {
            TokenKind::Identifier(name) => name.clone(),
            _ => return Err(self.error("Expected function name.")),
        };
        self.advance();

        self.consume(&TokenKind::LeftParen, "Expected '(' after function name.")?;

        let mut params: Vec<Parameter> = Vec::new();
        if !self.check(&TokenKind::RightParen) {
            proof {
                lemma_listed_nothing(parameters(tokens, start + 2));
            }
            loop
                invariant_except_break
                    tokens == old(self).tokens(),
                    start == old(self).position(),
                    kind_at(tokens, start) == TokenKindView::Identifier(name@),
                    kind_at(tokens, start + 1) == TokenKindView::LeftParen,
                    kind_at(tokens, start + 2) != TokenKindView::RightParen,
                    self.tokens() == tokens,
                    start + 2 <= self.position(),
                    parameters(tokens, start + 2) == listed(
                        parameter_views(params@),
                        parameters(tokens, self.position()),
                    ),
                ensures
                    self.tokens() == tokens,
                    start + 2 <= self.position(),
                    parameters(tokens, start + 2) == Parsed::<Seq<ParameterView>>::Ok(
                        (parameter_views(params@), self.position()),
                    ),
                decreases remaining(tokens, self.position()),
            {
                let ghost done = parameter_views(params@);
                let param_name = match &self.peek().kind {
                    TokenKind::Identifier(name) => name.clone(),
                    _ => return Err(self.error("Expected parameter name.")),
                };
                self.advance();

                let param_ty = self.parseTypeAnnotation()?;

                let param = Parameter { name: param_name, ty: param_ty };
                let ghost added = param@;
                params.push(param);
                proof {
                    assert(parameter_views(params@) =~= done.push(added));
                    assert(done + seq![added] =~= done.push(added));
                    lemma_listed_one_more(done, added, parameters(tokens, self.position() + 1));
                }

                if !self.matchToken(&TokenKind::Comma) {
                    break ;
                }
            }
        }
        proof {
            assert(params@.len() == 0 ==> parameter_views(params@) =~= Seq::empty());
            lemma_parameters_advance(tokens, start + 2);
        }
        self.consume(&TokenKind::RightParen, "Expected ')' after parameters.")?;

        let return_ty = self.parseTypeAnnotation()?;

        self.consume(&TokenKind::LeftBrace, "Expected '{' before function body.")?;

        let ghost inside = self.position();
        let mut body: Vec<Stmt> = Vec::new();
        proof {
            lemma_listed_nothing(block(tokens, inside));
        }
        while !self.check(&TokenKind::RightBrace) && !self.isAtEnd()
            invariant
                tokens == old(self).tokens(),
                start == old(self).position(),
                start < tokens.len(),
                self.tokens() == tokens,
                start < inside <= self.position(),
                func_declaration(tokens, start) == function_close(
                    tokens,
                    name@,
                    parameter_views(params@),
                    annotation_view(return_ty),
                    block(tokens, inside),
                ),
                block(tokens, inside) == listed(stmt_views(body@), block(tokens, self.position())),
            decreases remaining(tokens, self.position()),
        {
            let ghost here = self.position();
            let ghost done = stmt_views(body@);
            proof {
                lemma_statement_advances(tokens, here);
                lemma_block_continues(tokens, inside, done, here);
            }
            if let Some(stmt) = self.parseStatement()? {
                body.push(stmt);
                assert(stmt_views(body@) =~= done.push(stmt@));
            }
        }
        proof {
            lemma_listed_complete(stmt_views(body@), self.position());
        }
        self.consume(&TokenKind::RightBrace, "Expected '}' after function body.")?;

        let declaration = Stmt::FuncDecl { name, params, return_ty, body };
        proof {
            assert(declaration@->FuncDecl_body =~= stmt_views(body@));
        }
        Ok(declaration)
    }

    /// `exprStmt`.
    fn parseExpressionStatement(&mut self) -> (result: Result<Stmt, ParserError>)
        ensures
            final(self).tokens() == old(self).tokens(),
            stmt_outcome(result, final(self).position()) == expression_statement(
                old(self).tokens(),
                old(self).position(),
            ),
    {
        let expr = self.parseExpression()?;
        self.consume(&TokenKind::Semicolon, "Expected ';' after expression.")?;
        Ok(Stmt::ExprStmt(expr))
    }

    /// Moves over an identifier, or fails with `message` where the parser
    /// looks at another token.
    #[allow(dead_code)]
    fn consumeIdentifier(&mut self, message: &str) -> (result: Result<(), ParserError>)
        ensures
            final(self).tokens() == old(self).tokens(),
            match result {
                Ok(_) => {
                    &&& kind_at(old(self).tokens(), old(self).position()) is Identifier
                    &&& final(self).position() == old(self).position() + 1
                },
                Err(error) => {
                    &&& !(kind_at(old(self).tokens(), old(self).position()) is Identifier)
                    &&& (error@, final(self).position()) == failure(
                        old(self).tokens(),
                        old(self).position(),
                        message@,
                    )
                },
            },
    {
        match &self.peek().kind {
            TokenKind::Identifier(_) => {
                self.advance();
                Ok(())
            },
            _ => Err(self.error(message)),
        }
    }

    /// `typeAnnotation`.
    fn parseTypeAnnotation(&mut self) -> (result: Result<Option<Type>, ParserError>)
        ensures
            final(self).tokens() == old(self).tokens(),
            annotation_outcome(result, final(self).position()) == type_annotation(
                old(self).tokens(),
                old(self).position(),
            ),
    {
        if self.matchToken(&TokenKind::Colon) {
            match &self.peek().kind {
                TokenKind::Identifier(name) => {
                    let ty = Type { name: name.clone() };
                    self.advance();
                    Ok(Some(ty))
                },
                _ => Err(self.error("Expected type name after ':'")),
            }
        } else {
            Ok(None)
        }
    }

    /// `unary`.
    fn parseUnary(&mut self) -> (result: Result<Expr, ParserError>)
        ensures
            final(self).tokens() == old(self).tokens(),
            expr_outcome(result, final(self).position()) == unary(
                old(self).tokens(),
                old(self).position(),
            ),
        decreases remaining(old(self).tokens(), old(self).position()), 1nat,
    {
        match &self.peek().kind {
            TokenKind::Minus => {
                self.advance();
                let expr = self.parseUnary()?;
                proof {
                    reveal_with_fuel(Expr::model, 2);
                }
                Ok(
                    Expr::Binary {
                        left: Box::new(Expr::Literal(Literal::Number(Number::zero()))),
                        op: TokenKind::Minus,
                        right: Box::new(expr),
                    },
                )
            },
            _ => self.parsePrimary(),
        }
    }

    /// `primary`.
    fn parsePrimary(&mut self) -> (result: Result<Expr, ParserError>)
        ensures
            final(self).tokens() == old(self).tokens(),
            expr_outcome(result, final(self).position()) == primary(
                old(self).tokens(),
                old(self).position(),
            ),
        decreases remaining(old(self).tokens(), old(self).position()), 0nat,
    {
        let ghost tokens = self.tokens();
        let ghost start = self.position();
        match &self.peek().kind {
            TokenKind::Identifier(name) => {
                let name = name.clone();
                let ghost callee_name = name@;
                self.advance();
                if self.matchToken(&TokenKind::LeftParen) {
                    let callee = Expr::Variable(name);
                    let mut args: Vec<Expr> = Vec::new();

                    if !self.check(&TokenKind::RightParen) {
                        assert(listed(Seq::empty(), arguments(tokens, start + 2)) == arguments(
                            tokens,
                            start + 2,
                        )) by {
                            lemma_listed_nothing(arguments(tokens, start + 2));
                        }
                        loop
                            invariant_except_break
                                tokens == old(self).tokens(),
                                start == old(self).position(),
                                start < tokens.len(),
                                kind_at(tokens, start) == TokenKindView::Identifier(callee_name),
                                kind_at(tokens, start + 1) == TokenKindView::LeftParen,
                                kind_at(tokens, start + 2) != TokenKindView::RightParen,
                                self.tokens() == tokens,
                                start + 2 <= self.position(),
                                arguments(tokens, start + 2) == listed(
                                    expr_views(args@),
                                    arguments(tokens, self.position()),
                                ),
                            ensures
                                self.tokens() == tokens,
                                arguments(tokens, start + 2) == Parsed::<Seq<ExprView>>::Ok(
                                    (expr_views(args@), self.position()),
                                ),
                            decreases remaining(tokens, self.position()),
                        {
                            let ghost here = self.position();
                            let ghost done = expr_views(args@);
                            proof {
                                lemma_expression_advances(tokens, here);
                            }
                            let arg = self.parseExpression()?;
                            args.push(arg);
                            proof {
                                assert(expr_views(args@) =~= done.push(arg@));
                                lemma_listed_one_more(
                                    done,
                                    arg@,
                                    arguments(tokens, self.position() + 1),
                                );
                                assert(done + seq![arg@] =~= done.push(arg@));
                            }
                            if !self.matchToken(&TokenKind::Comma) {
                                break ;
                            }
                        }
                    }
                    self.consume(&TokenKind::RightParen, "Expected ')' after function arguments.")?;
                    let call = Expr::Call { callee: Box::new(callee), args };
                    proof {
                        reveal_with_fuel(Expr::model, 2);
                        assert(call@->Call_args =~= expr_views(args@));
                        assert(args@.len() == 0 ==> expr_views(args@) =~= Seq::empty());
                    }
                    Ok(call)
                } else {
                    Ok(Expr::Variable(name))
                }
            },
            TokenKind::StringLiteral(value) => {
                let value = value.clone();
                self.advance();
                Ok(Expr::Literal(Literal::String(value)))
            },
            TokenKind::NumberLiteral(value) => {
                let value = *value;
                self.advance();
                Ok(Expr::Literal(Literal::Number(value)))
            },
            TokenKind::True => {
                self.advance();
                Ok(Expr::Literal(Literal::Bool(true)))
            },
            TokenKind::False => {
                self.advance();
                Ok(Expr::Literal(Literal::Bool(false)))
            },
            TokenKind::Null => {
                self.advance();
                Ok(Expr::Literal(Literal::Null))
            },
            _ => Err(self.error("Expected expression.")),
        }
    }

    /// `additive`.
    fn parseAdditive(&mut self) -> (result: Result<Expr, ParserError>)
        ensures
            final(self).tokens() == old(self).tokens(),
            expr_outcome(result, final(self).position()) == additive(
                old(self).tokens(),
                old(self).position(),
            ),
        decreases remaining(old(self).tokens(), old(self).position()), 2nat,
    {
        let ghost tokens = self.tokens();
        let ghost start = self.position();
        proof {
            lemma_unary_advances(tokens, start);
        }
        let mut expr = self.parseUnary()?;

        while matches!(self.peek().kind, TokenKind::Plus | TokenKind::Minus)
            invariant
                tokens == old(self).tokens(),
                start == old(self).position(),
                start < tokens.len(),
                self.tokens() == tokens,
                start < self.position(),
                additive(tokens, start) == additive_tail(tokens, self.position(), expr@),
            decreases remaining(tokens, self.position()),
        {
            proof {
                lemma_unary_advances(tokens, self.position() + 1);
            }
            let op = self.peek().kind.clone();
            self.advance();
            let right = self.parseUnary()?;

            expr = Expr::Binary { left: Box::new(expr), op, right: Box::new(right) };
        }
        Ok(expr)
    }

    /// `expression`.
    fn parseExpression(&mut self) -> (result: Result<Expr, ParserError>)
        ensures
            final(self).tokens() == old(self).tokens(),
            expr_outcome(result, final(self).position()) == expression(
                old(self).tokens(),
                old(self).position(),
            ),
        decreases remaining(old(self).tokens(), old(self).position()), 3nat,
    {
        self.parseAdditive()
    }
}

} // verus!
