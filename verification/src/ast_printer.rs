//! A second reader of the same tree: it evaluates one expression, for a
//! caller that shows the value.

use vstd::prelude::*;
use crate::expr::Expr;
use crate::interpreter::Interpreter;
use crate::plan::{expr_plan, step_views, Step};

verus! {

/// The evaluator of single expressions.
pub struct AstPrinter {}

impl AstPrinter {
    /// The steps that leave the value of `expr` as the only number on the
    /// stack.
    pub fn eval(&mut self, expr: &Box<Expr>) -> (steps: Vec<Step>)
        ensures
            step_views(steps@) == expr_plan(expr@),
    {
        let mut steps: Vec<Step> = Vec::new();
        let mut interpreter = Interpreter::new();
        assert(step_views(steps@) =~= Seq::empty());
        interpreter.evaluate(expr, &mut steps);
        assert(Seq::empty() + expr_plan(expr@) =~= expr_plan(expr@));
        steps
    }
}

} // verus!
