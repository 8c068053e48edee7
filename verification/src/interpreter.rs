//! The evaluator: walks the tree, one function per kind of node, and lays
//! down the steps of its evaluation in the order in which they run.

use vstd::prelude::*;
use crate::expr::{
    stmt_views, BinaryExpr, Expr, ExprView, ExpressionStmt, LiteralExpr, PrintStmt, Stmt,
    StmtView, UnaryExpr,
};
use crate::plan::{
    binary_step, expr_plan, program_plan, step_views, stmt_plan, unary_steps, Step, StepView,
};
use crate::token::TokenType;

verus! {

/// The evaluator of programs.
pub struct Interpreter {}

impl Interpreter {
    /// An evaluator. It keeps nothing from one program to the next.
    pub fn new() -> (interpreter: Self) {
        Self {  }
    }

    /// The steps of the whole program: statement after statement, in one
    /// pass. A step that aborts stands where the evaluation stops; the
    /// steps in front of it are those that run before.
    pub fn interpret(&mut self, statements: &Vec<Stmt>) -> (steps: Vec<Step>)
        ensures
            step_views(steps@) == program_plan(stmt_views(statements@)),
    {
        let mut steps: Vec<Step> = Vec::new();
        let mut i: usize = 0;
        assert(step_views(steps@) =~= Seq::empty());
        assert(stmt_views(statements@).take(0) =~= Seq::empty());
        while i < statements.len()
            invariant
                i <= statements.len(),
                step_views(steps@) == program_plan(stmt_views(statements@).take(i as int)),
            decreases statements.len() - i,
        {
            self.execute(&statements[i], &mut steps);
            proof {
                let all = stmt_views(statements@);
                assert(all.take(i + 1).drop_last() =~= all.take(i as int));
                assert(all.take(i + 1).last() == statements[i as int]@);
            }
            i += 1;
        }
        assert(stmt_views(statements@).take(i as int) =~= stmt_views(statements@));
        steps
    }

    /// Lays down the steps of one statement behind `steps`.
    fn execute(&mut self, stmt: &Stmt, steps: &mut Vec<Step>)
        ensures
            step_views(final(steps)@) == step_views(old(steps)@) + stmt_plan(stmt@),
    {
        match stmt {
            Stmt::Expression(expression) => self.visit_expression(expression, steps),
            Stmt::Print(print) => self.visit_print(print, steps),
        }
    }

    /// Lays down the steps of one expression behind `steps`.
    pub fn evaluate(&mut self, expr: &Expr, steps: &mut Vec<Step>)
        ensures
            step_views(final(steps)@) == step_views(old(steps)@) + expr_plan(expr@),
        decreases expr, 1nat,
    {
        match expr {
            Expr::Literal(literal) => self.visit_literal(literal, steps),
            Expr::Unary(unary) => self.visit_unary(unary, steps),
            Expr::Binary(binary) => self.visit_binary(binary, steps),
        }
    }

    /// An expression statement: the value is computed and dropped.
    fn visit_expression(&mut self, stmt: &ExpressionStmt, steps: &mut Vec<Step>)
        ensures
            step_views(final(steps)@) == step_views(old(steps)@) + stmt_plan(
                StmtView::Expression(stmt.expression@),
            ),
    {
        let ghost before = steps@;
        self.evaluate(stmt.get_expression(), steps);
        let ghost middle = steps@;
        steps.push(Step::Discard);
        proof {
            assert(step_views(steps@) =~= step_views(middle) + seq![StepView::Discard]);
            assert(step_views(steps@) =~= step_views(before) + (expr_plan(stmt.expression@)
                + seq![StepView::Discard]));
        }
    }

    /// A print statement: the value is computed and written out.
    fn visit_print(&mut self, stmt: &PrintStmt, steps: &mut Vec<Step>)
        ensures
            step_views(final(steps)@) == step_views(old(steps)@) + stmt_plan(
                StmtView::Print(stmt.expression@),
            ),
    {
        let ghost before = steps@;
        self.evaluate(stmt.get_expression(), steps);
        let ghost middle = steps@;
        steps.push(Step::Print);
        proof {
            assert(step_views(steps@) =~= step_views(middle) + seq![StepView::Print]);
            assert(step_views(steps@) =~= step_views(before) + (expr_plan(stmt.expression@)
                + seq![StepView::Print]));
        }
    }

    /// A literal: its lexeme is read as a number.
    fn visit_literal(&mut self, literal: &LiteralExpr, steps: &mut Vec<Step>)
        ensures
            step_views(final(steps)@) == step_views(old(steps)@) + expr_plan(
                ExprView::Literal(literal.token@),
            ),
    {
        let ghost before = steps@;
        let step = Step::Number(literal.get_token().literal.clone());
        steps.push(step);
        proof {
            assert(step_views(steps@) =~= step_views(before) + seq![step@]);
        }
    }

    /// A prefix operator: the operand first, then `+` leaves its value as
    /// it is and `-` negates it.
    fn visit_unary(&mut self, unary: &UnaryExpr, steps: &mut Vec<Step>)
        ensures
            step_views(final(steps)@) == step_views(old(steps)@) + expr_plan(
                ExprView::Unary(unary.op@, Box::new(unary.right@)),
            ),
        decreases unary, 0nat,
    {
        let ghost before = steps@;
        let op = unary.get_op();
        self.evaluate(unary.get_right(), steps);
        let ghost middle = steps@;
        match op.token_type {
            TokenType::Plus => {},
            TokenType::Minus => {
                steps.push(Step::Negate);
            },
            _ => {
                steps.push(Step::Abort(op.token_type));
            },
        }
        proof {
            assert(step_views(steps@) =~= step_views(middle) + unary_steps(op.token_type));
            assert(step_views(steps@) =~= step_views(before) + (expr_plan(unary.right@)
                + unary_steps(op.token_type)));
        }
    }

    /// A binary operator: the left operand, then the right one, then one of
    /// the four arithmetic operations.
    fn visit_binary(&mut self, binary: &BinaryExpr, steps: &mut Vec<Step>)
        ensures
            step_views(final(steps)@) == step_views(old(steps)@) + expr_plan(
                ExprView::Binary(Box::new(binary.left@), binary.op@, Box::new(binary.right@)),
            ),
        decreases binary, 0nat,
    {
        let ghost before = steps@;
        self.evaluate(binary.get_left(), steps);
        self.evaluate(binary.get_right(), steps);
        let ghost middle = steps@;
        let op = binary.get_op();
        let step = match op.token_type {
            TokenType::Plus => Step::Add,
            TokenType::Minus => Step::Subtract,
            TokenType::Star => Step::Multiply,
            TokenType::Slash => Step::Divide,
            _ => Step::Abort(op.token_type),
        };
        steps.push(step);
        proof {
            assert(step_views(steps@) =~= step_views(middle) + seq![binary_step(op.token_type)]);
            assert(step_views(steps@) =~= step_views(before) + (expr_plan(binary.left@)
                + expr_plan(binary.right@) + seq![binary_step(op.token_type)]));
        }
    }
}

} // verus!
