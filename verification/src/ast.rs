use crate::lexer::token::{Number, TokenKind, TokenKindView};
use vstd::prelude::*;

verus! {

/// A constant written in the source.
#[derive(Debug, PartialEq)]
pub enum Literal {
    String(String),
    Number(Number),
    Bool(bool),
    Null,
}

/// The mathematical value of a [`Literal`].
pub ghost enum LiteralView {
    String(Seq<char>),
    Number(Number),
    Bool(bool),
    Null,
}

impl View for Literal {
    type V = LiteralView;

    open spec fn view(&self) -> LiteralView {
        match self {
            Literal::String(text) => LiteralView::String(text@),
            Literal::Number(number) => LiteralView::Number(*number),
            Literal::Bool(flag) => LiteralView::Bool(*flag),
            Literal::Null => LiteralView::Null,
        }
    }
}

impl Clone for Literal {
    fn clone(&self) -> (copy: Literal)
        ensures
            copy == *self,
    {
        match self {
            Literal::String(text) => Literal::String(text.clone()),
            Literal::Number(number) => Literal::Number(*number),
            Literal::Bool(flag) => Literal::Bool(*flag),
            Literal::Null => Literal::Null,
        }
    }
}

/// A type annotation: the name that was written, not checked against anything.
#[derive(Debug, PartialEq)]
pub struct Type {
    pub name: String,
}

/// The mathematical value of a [`Type`].
pub ghost struct TypeView {
    pub name: Seq<char>,
}

impl View for Type {
    type V = TypeView;

    open spec fn view(&self) -> TypeView {
        TypeView { name: self.name@ }
    }
}

impl Clone for Type {
    fn clone(&self) -> (copy: Type)
        ensures
            copy == *self,
    {
        Type { name: self.name.clone() }
    }
}

/// The value of an annotation that may be absent.
pub open spec fn annotation_view(ty: Option<Type>) -> Option<TypeView> {
    match ty {
        Some(ty) => Some(ty@),
        None => None,
    }
}

/// One parameter of a function declaration.
#[derive(Debug, PartialEq)]
pub struct Parameter {
    pub name: String,
    pub ty: Option<Type>,
}

/// The mathematical value of a [`Parameter`].
pub ghost struct ParameterView {
    pub name: Seq<char>,
    pub ty: Option<TypeView>,
}

impl View for Parameter {
    type V = ParameterView;

    open spec fn view(&self) -> ParameterView {
        ParameterView { name: self.name@, ty: annotation_view(self.ty) }
    }
}

impl Clone for Parameter {
    fn clone(&self) -> (copy: Parameter)
        ensures
            copy == *self,
    {
        Parameter {
            name: self.name.clone(),
            ty: match &self.ty {
                Some(ty) => Some(ty.clone()),
                None => None,
            },
        }
    }
}

/// The values of a run of parameters, in order.
pub open spec fn parameter_views(params: Seq<Parameter>) -> Seq<ParameterView> {
    Seq::new(params.len(), |i: int| params[i]@)
}

/// An expression. Every node owns its children.
#[derive(Debug, PartialEq)]
pub enum Expr {
    Literal(Literal),
    Variable(String),
    Binary { left: Box<Expr>, op: TokenKind, right: Box<Expr> },
    Call { callee: Box<Expr>, args: Vec<Expr> },
}

/// The mathematical value of an [`Expr`].
pub ghost enum ExprView {
    Literal(LiteralView),
    Variable(Seq<char>),
    Binary { left: Box<ExprView>, op: TokenKindView, right: Box<ExprView> },
    Call { callee: Box<ExprView>, args: Seq<ExprView> },
}

impl Expr {
    /// The value of the tree, node by node.
    pub open spec fn model(self) -> ExprView
        decreases self,
    {
        match self {
            Expr::Literal(literal) => ExprView::Literal(literal@),
            Expr::Variable(name) => ExprView::Variable(name@),
            Expr::Binary { left, op, right } => ExprView::Binary {
                left: Box::new(left.model()),
                op: op@,
                right: Box::new(right.model()),
            },
            Expr::Call { callee, args } => ExprView::Call {
                callee: Box::new(callee.model()),
                args: Seq::new(
                    args.len() as nat,
                    |i: int|
                        if 0 <= i < args.len() {
                            args[i].model()
                        } else {
                            arbitrary()
                        },
                ),
            },
        }
    }
}

impl Expr {
    /// A copy of the tree.
    fn duplicate(&self) -> (copy: Expr)
        ensures
            copy@ == self@,
        decreases self,
    {
        match self {
            Expr::Literal(literal) => Expr::Literal(literal.clone()),
            Expr::Variable(name) => Expr::Variable(name.clone()),
            Expr::Binary { left, op, right } => Expr::Binary {
                left: Box::new(left.duplicate()),
                op: op.clone(),
                right: Box::new(right.duplicate()),
            },
            Expr::Call { callee, args } => {
                let mut copies: Vec<Expr> = Vec::new();
                let mut i: usize = 0;
                while i < args.len()
                    invariant
                        i <= args.len(),
                        self is Call,
                        self->Call_args == *args,
                        copies@.len() == i,
                        forall|j: int| 0 <= j < i ==> copies@[j]@ == args@[j]@,
                    decreases args.len() - i,
                {
                    copies.push(args[i].duplicate());
                    i += 1;
                }
                let copy = Expr::Call { callee: Box::new(callee.duplicate()), args: copies };
                proof {
                    assert(copy@->Call_args =~= self@->Call_args);
                }
                copy
            },
        }
    }
}

impl Clone for Expr {
    fn clone(&self) -> (copy: Expr)
        ensures
            copy@ == self@,
    {
        self.duplicate()
    }
}

impl View for Expr {
    type V = ExprView;

    open spec fn view(&self) -> ExprView {
        self.model()
    }
}

/// The values of a run of expressions, in order.
pub open spec fn expr_views(exprs: Seq<Expr>) -> Seq<ExprView> {
    Seq::new(exprs.len(), |i: int| exprs[i]@)
}

/// A statement.
#[derive(Debug, PartialEq)]
pub enum Stmt {
    VarDecl { name: String, ty: Option<Type>, initializer: Expr },
    FuncDecl { name: String, params: Vec<Parameter>, return_ty: Option<Type>, body: Vec<Stmt> },
    ExprStmt(Expr),
}

/// The mathematical value of a [`Stmt`].
pub ghost enum StmtView {
    VarDecl { name: Seq<char>, ty: Option<TypeView>, initializer: ExprView },
    FuncDecl {
        name: Seq<char>,
        params: Seq<ParameterView>,
        return_ty: Option<TypeView>,
        body: Seq<StmtView>,
    },
    ExprStmt(ExprView),
}

impl Stmt {
    /// The value of the statement, nested bodies included.
    pub open spec fn model(self) -> StmtView
        decreases self,
    {
        match self {
            Stmt::VarDecl { name, ty, initializer } => StmtView::VarDecl {
                name: name@,
                ty: annotation_view(ty),
                initializer: initializer@,
            },
            Stmt::FuncDecl { name, params, return_ty, body } => StmtView::FuncDecl {
                name: name@,
                params: parameter_views(params@),
                return_ty: annotation_view(return_ty),
                body: Seq::new(
                    body.len() as nat,
                    |i: int|
                        if 0 <= i < body.len() {
                            body[i].model()
                        } else {
                            arbitrary()
                        },
                ),
            },
            Stmt::ExprStmt(expr) => StmtView::ExprStmt(expr@),
        }
    }
}

impl Stmt {
    /// A copy of the statement, nested bodies included.
    fn duplicate(&self) -> (copy: Stmt)
        ensures
            copy@ == self@,
        decreases self,
    {
        match self {
            Stmt::VarDecl { name, ty, initializer } => Stmt::VarDecl {
                name: name.clone(),
                ty: match ty {
                    Some(ty) => Some(ty.clone()),
                    None => None,
                },
                initializer: initializer.duplicate(),
            },
            Stmt::FuncDecl { name, params, return_ty, body } => {
                let mut param_copies: Vec<Parameter> = Vec::new();
                let mut i: usize = 0;
                while i < params.len()
                    invariant
                        i <= params.len(),
                        param_copies@.len() == i,
                        forall|j: int| 0 <= j < i ==> param_copies@[j] == params@[j],
                    decreases params.len() - i,
                {
                    param_copies.push(params[i].clone());
                    i += 1;
                }
                let mut body_copies: Vec<Stmt> = Vec::new();
                let mut k: usize = 0;
                while k < body.len()
                    invariant
                        k <= body.len(),
                        self is FuncDecl,
                        self->FuncDecl_body == *body,
                        body_copies@.len() == k,
                        forall|j: int| 0 <= j < k ==> body_copies@[j]@ == body@[j]@,
                    decreases body.len() - k,
                {
                    body_copies.push(body[k].duplicate());
                    k += 1;
                }
                let copy = Stmt::FuncDecl {
                    name: name.clone(),
                    params: param_copies,
                    return_ty: match return_ty {
                        Some(ty) => Some(ty.clone()),
                        None => None,
                    },
                    body: body_copies,
                };
                proof {
                    assert(copy@->FuncDecl_body =~= self@->FuncDecl_body);
                    assert(copy@->FuncDecl_params =~= self@->FuncDecl_params);
                }
                copy
            },
            Stmt::ExprStmt(expr) => Stmt::ExprStmt(expr.duplicate()),
        }
    }
}

impl Clone for Stmt {
    fn clone(&self) -> (copy: Stmt)
        ensures
            copy@ == self@,
    {
        self.duplicate()
    }
}

impl View for Stmt {
    type V = StmtView;

    open spec fn view(&self) -> StmtView {
        self.model()
    }
}

/// The values of a run of statements, in order.
pub open spec fn stmt_views(stmts: Seq<Stmt>) -> Seq<StmtView> {
    Seq::new(stmts.len(), |i: int| stmts[i]@)
}

} // verus!
