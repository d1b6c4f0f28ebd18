//! The expression syntax tree.
//!
//! A closed tagged union, one variant per node kind; every operation on
//! expressions (printing, evaluating) is a single match over it. Nodes are
//! immutable and exclusively owned by their parent after parse time.

use vstd::prelude::*;
use crate::lit::Lit;
use crate::token::Token;

verus! {

pub enum Expr {
    Assign(AssignExpr),
    Binary(BinaryExpr),
    Call(CallExpr),
    Grouping(GroupingExpr),
    Literal(LiteralExpr),
    Logical(LogicalExpr),
    Unary(UnaryExpr),
    Variable(VariableExpr),
}

/// Assignment to a bare variable; yields the assigned value.
pub struct AssignExpr {
    pub name: Token,
    pub value: Box<Expr>,
}

pub struct BinaryExpr {
    pub left: Box<Expr>,
    pub operator: Token,
    pub right: Box<Expr>,
}

/// A call expression; the closing parenthesis token is kept for error
/// reporting.
pub struct CallExpr {
    pub callee: Box<Expr>,
    pub paren: Token,
    pub arguments: Vec<Expr>,
}

pub struct GroupingExpr {
    pub expression: Box<Expr>,
}

pub struct LiteralExpr {
    pub value: Option<Lit>,
}

/// Short-circuiting `and` / `or`.
pub struct LogicalExpr {
    pub left: Box<Expr>,
    pub operator: Token,
    pub right: Box<Expr>,
}

pub struct UnaryExpr {
    pub operator: Token,
    pub right: Box<Expr>,
}

pub struct VariableExpr {
    pub name: Token,
}

} // verus!
