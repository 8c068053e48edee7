//! What evaluation means, as far as it can be said without arithmetic: the
//! ordered steps that a stack of numbers has to go through.

use vstd::prelude::*;
use crate::expr::{ExprView, StmtView};
use crate::token::TokenType;

verus! {

/// One step of an evaluation, run against a stack of numbers.
#[derive(Debug)]
pub enum Step {
    /// Read the lexeme as a number and push it.
    Number(String),
    /// Replace the top of the stack by its negation.
    Negate,
    /// Replace the two topmost numbers by their sum.
    Add,
    /// Replace the two topmost numbers by the lower minus the upper.
    Subtract,
    /// Replace the two topmost numbers by their product.
    Multiply,
    /// Replace the two topmost numbers by the lower divided by the upper.
    Divide,
    /// Pop the top of the stack and write it out.
    Print,
    /// Pop the top of the stack and drop it.
    Discard,
    /// Stop for good: an operator of this kind cannot be applied.
    Abort(TokenType),
}

/// A step as a mathematical value.
pub enum StepView {
    Number(Seq<char>),
    Negate,
    Add,
    Subtract,
    Multiply,
    Divide,
    Print,
    Discard,
    Abort(TokenType),
}

impl View for Step {
    type V = StepView;

    open spec fn view(&self) -> StepView {
        match self {
            Step::Number(lexeme) => StepView::Number(lexeme@),
            Step::Negate => StepView::Negate,
            Step::Add => StepView::Add,
            Step::Subtract => StepView::Subtract,
            Step::Multiply => StepView::Multiply,
            Step::Divide => StepView::Divide,
            Step::Print => StepView::Print,
            Step::Discard => StepView::Discard,
            Step::Abort(kind) => StepView::Abort(*kind),
        }
    }
}

/// The steps of a sequence as mathematical values, in order.
pub open spec fn step_views(steps: Seq<Step>) -> Seq<StepView> {
    steps.map_values(|s: Step| s@)
}

/// What a prefix operator of kind `kind` does to the value of its operand:
/// `+` nothing, `-` negates it, and no other kind can be applied.
pub open spec fn unary_steps(kind: TokenType) -> Seq<StepView> {
    match kind {
        TokenType::Plus => Seq::empty(),
        TokenType::Minus => seq![StepView::Negate],
        _ => seq![StepView::Abort(kind)],
    }
}

/// What a binary operator of kind `kind` does to the values of its
/// operands. Only the four arithmetic operators can be applied.
pub open spec fn binary_step(kind: TokenType) -> StepView {
    match kind {
        TokenType::Plus => StepView::Add,
        TokenType::Minus => StepView::Subtract,
        TokenType::Star => StepView::Multiply,
        TokenType::Slash => StepView::Divide,
        _ => StepView::Abort(kind),
    }
}

/// The steps that leave the value of `expr` on top of the stack: operands
/// first, the left one before the right one, then the operator.
pub open spec fn expr_plan(expr: ExprView) -> Seq<StepView>
    decreases expr,
{
    match expr {
        ExprView::Literal(token) => seq![StepView::Number(token.lexeme)],
        ExprView::Unary(op, right) => expr_plan(*right) + unary_steps(op.kind),
        ExprView::Binary(left, op, right) => expr_plan(*left) + expr_plan(*right) + seq![
            binary_step(op.kind),
        ],
    }
}

/// The steps of one statement: its expression, then what becomes of the
/// value.
pub open spec fn stmt_plan(stmt: StmtView) -> Seq<StepView> {
    match stmt {
        StmtView::Expression(expr) => expr_plan(expr) + seq![StepView::Discard],
        StmtView::Print(expr) => expr_plan(expr) + seq![StepView::Print],
    }
}

/// The steps of a program: those of its statements, in order.
pub open spec fn program_plan(stmts: Seq<StmtView>) -> Seq<StepView>
    decreases stmts.len(),
{
    if stmts.len() == 0 {
        Seq::empty()
    } else {
        program_plan(stmts.drop_last()) + stmt_plan(stmts.last())
    }
}

} // verus!
