//! The tree handed over by the parsing layer.
//!
//! The parser is an external collaborator: it delivers a structurally
//! valid, fully structured tree, and the passes in this crate analyze and
//! lower it. Literals carry their source spelling; the front end types and
//! lowers them but never evaluates them.

use vstd::prelude::*;
use crate::scope::Type;

verus! {

/// Unary operators.
#[derive(Clone, Copy, Debug, PartialEq, Eq, Structural)]
pub enum UnOp {
    Neg,
    Not,
}

/// Binary operators, including assignment.
#[derive(Clone, Copy, Debug, PartialEq, Eq, Structural)]
pub enum BinOp {
    Add,
    Sub,
    Mul,
    Div,
    Mod,
    Pow,
    And,
    Or,
    Shl,
    Shr,
    Eq,
    Ne,
    Lt,
    Gt,
    Le,
    Ge,
    Assign,
}

/// Expressions.
#[derive(Debug)]
pub enum Expr {
    Identifier(String),
    IntLit(String),
    FloatLit(String),
    BoolLit(bool),
    StrLit(String),
    Unary { op: UnOp, operand: Box<Expr> },
    Binary { left: Box<Expr>, op: BinOp, right: Box<Expr> },
    Call { callee: Box<Expr>, args: Vec<Expr> },
    Grouping(Box<Expr>),
}

/// Statements.
#[derive(Debug)]
pub enum Stmt {
    Expr(Expr),
    Let { name: String, type_annot: Option<Type>, value: Expr },
    Block(Vec<Stmt>),
    Return(Option<Expr>),
    Break,
    If { condition: Expr, then_branch: Box<Stmt>, else_branch: Option<Box<Stmt>> },
    While { condition: Expr, body: Box<Stmt> },
    For {
        init: Option<Box<Stmt>>,
        condition: Option<Expr>,
        increment: Option<Expr>,
        body: Box<Stmt>,
    },
}

/// One formal parameter of a function declaration.
#[derive(Debug, Clone)]
pub struct Param {
    pub name: String,
    pub param_type: Type,
}

/// One top-level declaration.
#[derive(Debug)]
pub enum Decl {
    Function { name: String, params: Vec<Param>, return_type: Option<Type>, body: Box<Stmt> },
    GlobalVar { name: String, type_annot: Option<Type>, value: Option<Expr> },
    Stmt(Stmt),
}

/// An ordered sequence of top-level declarations.
#[derive(Debug)]
pub struct Program {
    pub declarations: Vec<Decl>,
}

/// Number of nodes in an expression; at least 1.
pub open spec fn expr_size(e: Expr) -> nat
    decreases e,
{
    1 + match e {
        Expr::Unary { operand, .. } => expr_size(*operand),
        Expr::Binary { left, right, .. } => expr_size(*left) + expr_size(*right),
        Expr::Call { callee, args } => expr_size(*callee) + exprs_size(args@),
        Expr::Grouping(inner) => expr_size(*inner),
        _ => 0,
    }
}

/// Total node count of a sequence of expressions.
pub open spec fn exprs_size(es: Seq<Expr>) -> nat
    decreases es,
{
    if es.len() == 0 {
        0
    } else {
        expr_size(es[0]) + exprs_size(es.drop_first())
    }
}

/// Number of nodes in a statement, expressions included; at least 1.
pub open spec fn stmt_size(s: Stmt) -> nat
    decreases s,
{
    1 + match s {
        Stmt::Expr(e) => expr_size(e),
        Stmt::Let { value, .. } => expr_size(value),
        Stmt::Block(stmts) => stmts_size(stmts@),
        Stmt::Return(e) => match e {
            Some(e) => expr_size(e),
            None => 0,
        },
        Stmt::Break => 0,
        Stmt::If { condition, then_branch, else_branch } => expr_size(condition) + stmt_size(
            *then_branch,
        ) + match else_branch {
            Some(e) => stmt_size(*e),
            None => 0,
        },
        Stmt::While { condition, body } => expr_size(condition) + stmt_size(*body),
        Stmt::For { init, condition, increment, body } => (match init {
            Some(i) => stmt_size(*i),
            None => 0,
        }) + (match condition {
            Some(c) => expr_size(c),
            None => 0,
        }) + (match increment {
            Some(i) => expr_size(i),
            None => 0,
        }) + stmt_size(*body),
    }
}

/// Total node count of a sequence of statements.
pub open spec fn stmts_size(ss: Seq<Stmt>) -> nat
    decreases ss,
{
    if ss.len() == 0 {
        0
    } else {
        stmt_size(ss[0]) + stmts_size(ss.drop_first())
    }
}

/// Every element of a sequence weighs no more than the whole.
pub proof fn lemma_stmts_size_elem(ss: Seq<Stmt>, i: int)
    requires
        0 <= i < ss.len(),
    ensures
        stmt_size(ss[i]) <= stmts_size(ss),
    decreases ss.len(),
{
    if i > 0 {
        lemma_stmts_size_elem(ss.drop_first(), i - 1);
        assert(ss.drop_first()[i - 1] == ss[i]);
    }
}

} // verus!
