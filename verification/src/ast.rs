//! The syntax tree that the parser builds and the code generator reads,
//! and the mathematical values that its nodes stand for.

use vstd::prelude::*;

verus! {

/// A binary operator.
#[derive(Debug, Clone, Copy, PartialEq, Eq, Structural)]
pub enum Binop {
    Add,
    Sub,
    Mul,
    Div,
}

/// An expression. A tree owns its subtrees; nothing is shared.
#[derive(Debug, PartialEq)]
pub enum Expr {
    /// A reference to a variable.
    Identifier(String),
    /// A numeric literal: the integer part of what was written.
    Number(i64),
    /// The text of a string literal, escapes resolved.
    String(String),
    BinaryOp { left: Box<Expr>, op: Binop, right: Box<Expr> },
    FunctionCall { callee: String, args: Vec<Expr> },
}

/// A statement.
#[derive(Debug, PartialEq)]
pub enum Stmt {
    /// An expression evaluated for its effect.
    Expression(Expr),
    VariableDecl(VariableDecl),
    FunctionDecl(FunctionDecl),
    Return(Return),
}

/// `data_type name = value`
#[derive(Debug, PartialEq)]
pub struct VariableDecl {
    pub data_type: String,
    pub name: String,
    pub value: Expr,
}

/// `return value`
#[derive(Debug, PartialEq)]
pub struct Return {
    pub value: Expr,
}

/// One parameter of a function.
#[derive(Debug, PartialEq)]
pub struct Parameter {
    pub data_type: String,
    pub name: String,
}

/// `data_type name(params) { body }`
#[derive(Debug, PartialEq)]
pub struct FunctionDecl {
    pub data_type: String,
    pub name: String,
    pub body: Vec<Stmt>,
    pub params: Vec<Parameter>,
}

/// What an [`Expr`] stands for.
pub enum ExprView {
    Identifier(Seq<char>),
    Number(int),
    String(Seq<char>),
    BinaryOp { left: Box<ExprView>, op: Binop, right: Box<ExprView> },
    FunctionCall { callee: Seq<char>, args: Seq<ExprView> },
}

/// What a [`Parameter`] stands for.
pub struct ParameterView {
    pub data_type: Seq<char>,
    pub name: Seq<char>,
}

/// What a [`Stmt`] stands for.
pub enum StmtView {
    Expression(ExprView),
    VariableDecl { data_type: Seq<char>, name: Seq<char>, value: ExprView },
    FunctionDecl {
        data_type: Seq<char>,
        name: Seq<char>,
        body: Seq<StmtView>,
        params: Seq<ParameterView>,
    },
    Return { value: ExprView },
}

/// The value of an expression, node by node.
pub open spec fn expr_view(e: Expr) -> ExprView
    decreases e,
{
    match e {
        Expr::Identifier(name) => ExprView::Identifier(name@),
        Expr::Number(n) => ExprView::Number(n as int),
        Expr::String(text) => ExprView::String(text@),
        Expr::BinaryOp { left, op, right } => ExprView::BinaryOp {
            left: Box::new(expr_view(*left)),
            op,
            right: Box::new(expr_view(*right)),
        },
        Expr::FunctionCall { callee, args } => ExprView::FunctionCall {
            callee: callee@,
            args: Seq::new(
                args@.len(),
                |i: int|
                    if 0 <= i < args@.len() {
                        expr_view(args[i])
                    } else {
                        arbitrary()
                    },
            ),
        },
    }
}

/// The value of a statement, node by node.
pub open spec fn stmt_view(s: Stmt) -> StmtView
    decreases s,
{
    match s {
        Stmt::Expression(e) => StmtView::Expression(e@),
        Stmt::VariableDecl(d) => StmtView::VariableDecl {
            data_type: d.data_type@,
            name: d.name@,
            value: d.value@,
        },
        Stmt::FunctionDecl(f) => StmtView::FunctionDecl {
            data_type: f.data_type@,
            name: f.name@,
            body: Seq::new(
                f.body@.len(),
                |i: int|
                    if 0 <= i < f.body@.len() {
                        stmt_view(f.body[i])
                    } else {
                        arbitrary()
                    },
            ),
            params: params_view(f.params@),
        },
        Stmt::Return(r) => StmtView::Return { value: r.value@ },
    }
}

/// The values of a run of expressions, in order.
pub open spec fn exprs_view(exprs: Seq<Expr>) -> Seq<ExprView> {
    exprs.map_values(|e: Expr| e@)
}

/// The values of a run of parameters, in order.
pub open spec fn params_view(params: Seq<Parameter>) -> Seq<ParameterView> {
    params.map_values(|p: Parameter| p@)
}

/// The values of a run of statements, in order.
pub open spec fn stmts_view(stmts: Seq<Stmt>) -> Seq<StmtView> {
    stmts.map_values(|s: Stmt| s@)
}

impl View for Expr {
    type V = ExprView;

    open spec fn view(&self) -> ExprView {
        expr_view(*self)
    }
}

impl View for Parameter {
    type V = ParameterView;

    open spec fn view(&self) -> ParameterView {
        ParameterView { data_type: self.data_type@, name: self.name@ }
    }
}

impl View for Stmt {
    type V = StmtView;

    open spec fn view(&self) -> StmtView {
        stmt_view(*self)
    }
}

impl Clone for Expr {
    fn clone(&self) -> (r: Self)
        ensures
            r@ == self@,
        decreases self,
    {
        match self {
            Expr::Identifier(name) => Expr::Identifier(name.clone()),
            Expr::Number(n) => Expr::Number(*n),
            Expr::String(text) => Expr::String(text.clone()),
            Expr::BinaryOp { left, op, right } => {
                let l: Expr = (**left).clone();
                let r: Expr = (**right).clone();
                Expr::BinaryOp { left: Box::new(l), op: *op, right: Box::new(r) }
            },
            Expr::FunctionCall { callee, args } => {
                let mut copies: Vec<Expr> = Vec::new();
                let mut i: usize = 0;
                while i < args.len()
                    invariant
                        i <= args.len(),
                        copies.len() == i,
                        self matches Expr::FunctionCall { args: own, .. } && own == args,
                        forall|j: int| 0 <= j < i ==> copies[j]@ == args[j]@,
                    decreases args.len() - i,
                {
                    let c: Expr = args[i].clone();
                    copies.push(c);
                    i += 1;
                }
                let r = Expr::FunctionCall { callee: callee.clone(), args: copies };
                assert(r@->args =~= self@->args);
                r
            },
        }
    }
}

impl Binop {
    /// How tightly the operator binds: `*` and `/` bind tighter than `+`
    /// and `-`.
    pub open spec fn spec_precedence(&self) -> u8 {
        match self {
            Binop::Add | Binop::Sub => 1,
            Binop::Mul | Binop::Div => 2,
        }
    }

    #[verifier::when_used_as_spec(spec_precedence)]
    pub fn precedence(&self) -> (p: u8)
        ensures
            p == self.spec_precedence(),
    {
        match self {
            Binop::Add | Binop::Sub => 1,
            Binop::Mul | Binop::Div => 2,
        }
    }

    /// Whether a chain of this operator groups from the left, as in
    /// `(a - b) - c`. Every operator does.
    pub open spec fn spec_is_left_linked(&self) -> bool {
        true
    }

    #[verifier::when_used_as_spec(spec_is_left_linked)]
    pub fn is_left_linked(&self) -> (b: bool)
        ensures
            b == self.spec_is_left_linked(),
    {
        true
    }

    /// The least precedence that the right operand of this operator may
    /// have at its top.
    pub open spec fn right_min(&self) -> u8 {
        if self.spec_is_left_linked() {
            (self.spec_precedence() + 1) as u8
        } else {
            self.spec_precedence()
        }
    }
}

} // verus!
