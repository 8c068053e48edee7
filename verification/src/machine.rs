//! What the steps of an evaluation compute. The numbers themselves are left
//! open: over any arithmetic, running the steps of a tree on a stack gives
//! the value that the tree denotes.

use vstd::prelude::*;
use crate::expr::{ExprView, StmtView};
use crate::plan::{binary_step, expr_plan, program_plan, stmt_plan, unary_steps, StepView};
use crate::token::TokenType;

verus! {

/// An arithmetic on values of type `V`: how a lexeme is read as a number,
/// if it can be, and the five operations.
#[verifier::reject_recursive_types(V)]
pub struct Arithmetic<V> {
    pub number: spec_fn(Seq<char>) -> Option<V>,
    pub negate: spec_fn(V) -> V,
    pub add: spec_fn(V, V) -> V,
    pub subtract: spec_fn(V, V) -> V,
    pub multiply: spec_fn(V, V) -> V,
    pub divide: spec_fn(V, V) -> V,
}

/// Why an evaluation stops for good.
pub enum Failure {
    /// An operator of this kind cannot be applied.
    Operator(TokenType),
    /// This lexeme is not a number.
    Number(Seq<char>),
}

/// The value that `expr` denotes: operands first, the left one before the
/// right one, then the operator. The first failure on that way is the
/// outcome.
pub open spec fn value<V>(a: Arithmetic<V>, expr: ExprView) -> Result<V, Failure>
    decreases expr,
{
    match expr {
        ExprView::Literal(token) => match (a.number)(token.lexeme) {
            Some(v) => Ok(v),
            None => Err(Failure::Number(token.lexeme)),
        },
        ExprView::Unary(op, right) => match value(a, *right) {
            Ok(v) => match op.kind {
                TokenType::Plus => Ok(v),
                TokenType::Minus => Ok((a.negate)(v)),
                kind => Err(Failure::Operator(kind)),
            },
            Err(f) => Err(f),
        },
        ExprView::Binary(left, op, right) => match value(a, *left) {
            Ok(x) => match value(a, *right) {
                Ok(y) => match op.kind {
                    TokenType::Plus => Ok((a.add)(x, y)),
                    TokenType::Minus => Ok((a.subtract)(x, y)),
                    TokenType::Star => Ok((a.multiply)(x, y)),
                    TokenType::Slash => Ok((a.divide)(x, y)),
                    kind => Err(Failure::Operator(kind)),
                },
                Err(f) => Err(f),
            },
            Err(f) => Err(f),
        },
    }
}

/// The state of a run: the stack of numbers, top last, and the numbers
/// written out so far.
pub struct Machine<V> {
    pub stack: Seq<V>,
    pub output: Seq<V>,
}

/// Why a run ends before its last step.
pub enum Stop {
    /// The evaluation failed.
    Failed(Failure),
    /// A step found fewer numbers on the stack than it takes.
    Underflow,
}

/// A run that ended before its last step: what it had written out, and
/// why it ended.
pub struct Halted<V> {
    pub output: Seq<V>,
    pub stop: Stop,
}

/// An outcome: the final state, or the early end.
pub type Outcome<V> = Result<Machine<V>, Halted<V>>;

/// The machine `m` with `v` pushed.
pub open spec fn pushed<V>(m: Machine<V>, v: V) -> Machine<V> {
    Machine { stack: m.stack.push(v), output: m.output }
}

/// The early end of a run in state `m`.
pub open spec fn halt<V>(m: Machine<V>, stop: Stop) -> Outcome<V> {
    Err(Halted { output: m.output, stop })
}

/// One step.
pub open spec fn step<V>(a: Arithmetic<V>, s: StepView, m: Machine<V>) -> Outcome<V> {
    let n = m.stack.len() as int;
    match s {
        StepView::Number(lexeme) => match (a.number)(lexeme) {
            Some(v) => Ok(pushed(m, v)),
            None => halt(m, Stop::Failed(Failure::Number(lexeme))),
        },
        StepView::Abort(kind) => halt(m, Stop::Failed(Failure::Operator(kind))),
        StepView::Negate => if n >= 1 {
            Ok(pushed(Machine { stack: m.stack.take(n - 1), ..m }, (a.negate)(m.stack[n - 1])))
        } else {
            halt(m, Stop::Underflow)
        },
        StepView::Print => if n >= 1 {
            Ok(Machine { stack: m.stack.take(n - 1), output: m.output.push(m.stack[n - 1]) })
        } else {
            halt(m, Stop::Underflow)
        },
        StepView::Discard => if n >= 1 {
            Ok(Machine { stack: m.stack.take(n - 1), ..m })
        } else {
            halt(m, Stop::Underflow)
        },
        _ => if n >= 2 {
            let x = m.stack[n - 2];
            let y = m.stack[n - 1];
            let rest = Machine { stack: m.stack.take(n - 2), ..m };
            match s {
                StepView::Add => Ok(pushed(rest, (a.add)(x, y))),
                StepView::Subtract => Ok(pushed(rest, (a.subtract)(x, y))),
                StepView::Multiply => Ok(pushed(rest, (a.multiply)(x, y))),
                _ => Ok(pushed(rest, (a.divide)(x, y))),
            }
        } else {
            halt(m, Stop::Underflow)
        },
    }
}

/// All the steps, in order, up to the first that ends the run.
pub open spec fn run<V>(a: Arithmetic<V>, steps: Seq<StepView>, m: Machine<V>) -> Outcome<V>
    decreases steps.len(),
{
    if steps.len() == 0 {
        Ok(m)
    } else {
        match step(a, steps[0], m) {
            Ok(next) => run(a, steps.drop_first(), next),
            Err(h) => Err(h),
        }
    }
}

/// What one statement does to the output: a print statement adds the
/// value of its expression, an expression statement nothing; a failure of
/// the evaluation ends everything.
pub open spec fn perform<V>(a: Arithmetic<V>, stmt: StmtView, output: Seq<V>) -> Result<
    Seq<V>,
    Halted<V>,
> {
    match stmt {
        StmtView::Expression(expr) => match value(a, expr) {
            Ok(_) => Ok(output),
            Err(f) => Err(Halted { output, stop: Stop::Failed(f) }),
        },
        StmtView::Print(expr) => match value(a, expr) {
            Ok(v) => Ok(output.push(v)),
            Err(f) => Err(Halted { output, stop: Stop::Failed(f) }),
        },
    }
}

/// What a program does to the output: its statements in order, none of
/// them once one has failed.
pub open spec fn perform_all<V>(a: Arithmetic<V>, stmts: Seq<StmtView>, output: Seq<V>) -> Result<
    Seq<V>,
    Halted<V>,
>
    decreases stmts.len(),
{
    if stmts.len() == 0 {
        Ok(output)
    } else {
        match perform_all(a, stmts.drop_last(), output) {
            Ok(written) => perform(a, stmts.last(), written),
            Err(h) => Err(h),
        }
    }
}

/// Running one list of steps behind another is running the second from
/// where the first one ends.
pub proof fn lemma_run_concat<V>(
    a: Arithmetic<V>,
    first: Seq<StepView>,
    second: Seq<StepView>,
    m: Machine<V>,
)
    ensures
        run(a, first + second, m) == match run(a, first, m) {
            Ok(next) => run(a, second, next),
            Err(h) => Err(h),
        },
    decreases first.len(),
{
    if first.len() == 0 {
        assert(first + second =~= second);
    } else {
        assert((first + second).drop_first() =~= first.drop_first() + second);
        match step(a, first[0], m) {
            Ok(next) => {
                lemma_run_concat(a, first.drop_first(), second, next);
            },
            Err(_) => {},
        }
    }
}

/// Running a single step is taking that step.
pub proof fn lemma_run_one<V>(a: Arithmetic<V>, s: StepView, m: Machine<V>)
    ensures
        run(a, seq![s], m) == step(a, s, m),
{
    assert(seq![s].drop_first() =~= Seq::<StepView>::empty());
    match step(a, s, m) {
        Ok(next) => {
            assert(run(a, Seq::<StepView>::empty(), next) == Ok::<Machine<V>, Halted<V>>(next));
        },
        Err(_) => {},
    }
}

/// Running the steps of an expression pushes the value that the
/// expression denotes and changes nothing else; where the expression has
/// no value, the run ends with the same failure. The stack never runs
/// short.
pub proof fn lemma_plan_computes_value<V>(a: Arithmetic<V>, expr: ExprView, m: Machine<V>)
    ensures
        run(a, expr_plan(expr), m) == match value(a, expr) {
            Ok(v) => Ok(pushed(m, v)),
            Err(f) => halt(m, Stop::Failed(f)),
        },
    decreases expr,
{
    match expr {
        ExprView::Literal(token) => {
            lemma_run_one(a, StepView::Number(token.lexeme), m);
        },
        ExprView::Unary(op, right) => {
            lemma_plan_computes_value(a, *right, m);
            lemma_run_concat(a, expr_plan(*right), unary_steps(op.kind), m);
            match value(a, *right) {
                Ok(v) => {
                    let next = pushed(m, v);
                    assert(next.stack.take(next.stack.len() - 1) =~= m.stack);
                    match op.kind {
                        TokenType::Plus => {},
                        TokenType::Minus => {
                            lemma_run_one(a, StepView::Negate, next);
                        },
                        kind => {
                            lemma_run_one(a, StepView::Abort(kind), next);
                        },
                    }
                },
                Err(_) => {},
            }
        },
        ExprView::Binary(left, op, right) => {
            lemma_plan_computes_value(a, *left, m);
            lemma_run_concat(
                a,
                expr_plan(*left) + expr_plan(*right),
                seq![binary_step(op.kind)],
                m,
            );
            lemma_run_concat(a, expr_plan(*left), expr_plan(*right), m);
            match value(a, *left) {
                Ok(x) => {
                    let first = pushed(m, x);
                    lemma_plan_computes_value(a, *right, first);
                    match value(a, *right) {
                        Ok(y) => {
                            let second = pushed(first, y);
                            lemma_run_one(a, binary_step(op.kind), second);
                            assert(second.stack.take(second.stack.len() - 2) =~= m.stack);
                        },
                        Err(_) => {},
                    }
                },
                Err(_) => {},
            }
        },
    }
}

/// Running the steps of a statement on an empty stack leaves the stack
/// empty and does to the output what the statement does.
pub proof fn lemma_plan_performs_statement<V>(a: Arithmetic<V>, stmt: StmtView, output: Seq<V>)
    ensures
        run(a, stmt_plan(stmt), Machine { stack: Seq::empty(), output }) == match perform(
            a,
            stmt,
            output,
        ) {
            Ok(written) => Ok(Machine { stack: Seq::empty(), output: written }),
            Err(h) => Err(h),
        },
{
    let m = Machine { stack: Seq::<V>::empty(), output };
    match stmt {
        StmtView::Expression(expr) => {
            lemma_plan_computes_value(a, expr, m);
            lemma_run_concat(a, expr_plan(expr), seq![StepView::Discard], m);
            match value(a, expr) {
                Ok(v) => {
                    lemma_run_one(a, StepView::Discard, pushed(m, v));
                    assert(pushed(m, v).stack.take(0) =~= Seq::<V>::empty());
                },
                Err(_) => {},
            }
        },
        StmtView::Print(expr) => {
            lemma_plan_computes_value(a, expr, m);
            lemma_run_concat(a, expr_plan(expr), seq![StepView::Print], m);
            match value(a, expr) {
                Ok(v) => {
                    lemma_run_one(a, StepView::Print, pushed(m, v));
                    assert(pushed(m, v).stack.take(0) =~= Seq::<V>::empty());
                },
                Err(_) => {},
            }
        },
    }
}

/// Running the steps of a program on an empty stack performs its
/// statements in order: the output is what the statements write, up to
/// the first failure, and the stack is empty again at the end.
pub proof fn lemma_plan_performs_program<V>(
    a: Arithmetic<V>,
    stmts: Seq<StmtView>,
    output: Seq<V>,
)
    ensures
        run(a, program_plan(stmts), Machine { stack: Seq::empty(), output }) == match perform_all(
            a,
            stmts,
            output,
        ) {
            Ok(written) => Ok(Machine { stack: Seq::empty(), output: written }),
            Err(h) => Err(h),
        },
    decreases stmts.len(),
{
    let m = Machine { stack: Seq::<V>::empty(), output };
    if stmts.len() > 0 {
        lemma_plan_performs_program(a, stmts.drop_last(), output);
        lemma_run_concat(a, program_plan(stmts.drop_last()), stmt_plan(stmts.last()), m);
        match perform_all(a, stmts.drop_last(), output) {
            Ok(written) => {
                lemma_plan_performs_statement(a, stmts.last(), written);
            },
            Err(_) => {},
        }
    }
}

/// A division is applied whatever its divisor is: with operands that have
/// values, the quotient is the value, and the evaluation does not fail.
pub proof fn lemma_division_is_applied<V>(
    a: Arithmetic<V>,
    left: ExprView,
    op: crate::token::TokenView,
    right: ExprView,
)
    requires
        op.kind == TokenType::Slash,
        value(a, left) is Ok,
        value(a, right) is Ok,
    ensures
        value(a, ExprView::Binary(Box::new(left), op, Box::new(right))) == Ok::<V, Failure>(
            (a.divide)(value(a, left)->Ok_0, value(a, right)->Ok_0),
        ),
{
}

} // verus!
