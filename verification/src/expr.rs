//! The syntax tree: expression nodes and statement nodes, each a closed set
//! of variants that own their children.

use vstd::prelude::*;
use crate::token::{Token, TokenView};

verus! {

/// An expression as a mathematical value.
pub enum ExprView {
    /// A literal: the token it wraps.
    Literal(TokenView),
    /// An operator applied to one operand.
    Unary(TokenView, Box<ExprView>),
    /// An operator between a left and a right operand.
    Binary(Box<ExprView>, TokenView, Box<ExprView>),
}

/// A statement as a mathematical value.
pub enum StmtView {
    /// An expression evaluated for its effect only.
    Expression(ExprView),
    /// An expression whose value is written out.
    Print(ExprView),
}

/// A leaf of the tree: one token.
#[derive(Debug)]
pub struct LiteralExpr {
    pub token: Token,
}

/// An operator and its operand.
#[derive(Debug)]
pub struct UnaryExpr {
    pub op: Token,
    pub right: Box<Expr>,
}

/// An operator and its two operands.
#[derive(Debug)]
pub struct BinaryExpr {
    pub left: Box<Expr>,
    pub op: Token,
    pub right: Box<Expr>,
}

/// An expression node: one of three kinds, told apart by matching.
#[derive(Debug)]
pub enum Expr {
    Literal(LiteralExpr),
    Unary(UnaryExpr),
    Binary(BinaryExpr),
}

/// A statement that evaluates its expression and drops the value.
#[derive(Debug)]
pub struct ExpressionStmt {
    pub expression: Box<Expr>,
}

/// A statement that evaluates its expression and writes the value out.
#[derive(Debug)]
pub struct PrintStmt {
    pub expression: Box<Expr>,
}

/// A statement node.
#[derive(Debug)]
pub enum Stmt {
    Expression(ExpressionStmt),
    Print(PrintStmt),
}

impl View for Expr {
    type V = ExprView;

    open spec fn view(&self) -> ExprView
        decreases self,
    {
        match self {
            Expr::Literal(literal) => ExprView::Literal(literal.token@),
            Expr::Unary(unary) => ExprView::Unary(unary.op@, Box::new((*unary.right).view())),
            Expr::Binary(binary) => ExprView::Binary(
                Box::new((*binary.left).view()),
                binary.op@,
                Box::new((*binary.right).view()),
            ),
        }
    }
}

impl View for Stmt {
    type V = StmtView;

    open spec fn view(&self) -> StmtView {
        match self {
            Stmt::Expression(stmt) => StmtView::Expression((*stmt.expression).view()),
            Stmt::Print(stmt) => StmtView::Print((*stmt.expression).view()),
        }
    }
}

/// The statements of a program as mathematical values, in order.
pub open spec fn stmt_views(stmts: Seq<Stmt>) -> Seq<StmtView> {
    stmts.map_values(|s: Stmt| s@)
}

impl LiteralExpr {
    /// A literal that wraps `token`.
    pub fn new(token: Token) -> (node: Self)
        ensures
            node.token == token,
    {
        Self { token }
    }

    /// The token that the literal wraps.
    pub fn get_token(&self) -> (token: &Token)
        ensures
            *token == self.token,
    {
        &self.token
    }
}

impl UnaryExpr {
    /// The operator `op` applied to `right`.
    pub fn new(op: Token, right: Box<Expr>) -> (node: Self)
        ensures
            node.op == op,
            node.right == right,
    {
        Self { op, right }
    }

    /// The operator.
    pub fn get_op(&self) -> (op: &Token)
        ensures
            *op == self.op,
    {
        &self.op
    }

    /// The right operand.
    pub fn get_right(&self) -> (right: &Box<Expr>)
        ensures
            *right == self.right,
    {
        &self.right
    }
}

impl BinaryExpr {
    /// The operator `op` between `left` and `right`.
    pub fn new(left: Box<Expr>, op: Token, right: Box<Expr>) -> (node: Self)
        ensures
            node.left == left,
            node.op == op,
            node.right == right,
    {
        Self { left, op, right }
    }

    /// The left operand.
    pub fn get_left(&self) -> (left: &Box<Expr>)
        ensures
            *left == self.left,
    {
        &self.left
    }

    /// The operator.
    pub fn get_op(&self) -> (op: &Token)
        ensures
            *op == self.op,
    {
        &self.op
    }

    /// The right operand.
    pub fn get_right(&self) -> (right: &Box<Expr>)
        ensures
            *right == self.right,
    {
        &self.right
    }
}

impl ExpressionStmt {
    /// A statement that evaluates `expression` and drops the value.
    pub fn new(expression: Box<Expr>) -> (node: Self)
        ensures
            node.expression == expression,
    {
        Self { expression }
    }

    /// The expression of the statement.
    pub fn get_expression(&self) -> (expression: &Box<Expr>)
        ensures
            *expression == self.expression,
    {
        &self.expression
    }
}

impl PrintStmt {
    /// A statement that evaluates `expression` and writes the value out.
    pub fn new(expression: Box<Expr>) -> (node: Self)
        ensures
            node.expression == expression,
    {
        Self { expression }
    }

    /// The expression of the statement.
    pub fn get_expression(&self) -> (expression: &Box<Expr>)
        ensures
            *expression == self.expression,
    {
        &self.expression
    }
}

} // verus!
