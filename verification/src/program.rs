//! The three stages in a row: from source text to the steps of its
//! evaluation.

use vstd::prelude::*;
use crate::expr::StmtView;
use crate::grammar::{parse_program, ParseError};
use crate::interpreter::Interpreter;
use crate::lexer::Lexer;
use crate::parser::Parser;
use crate::plan::{program_plan, step_views, Step};
use crate::scan::scan_all;

verus! {

/// Scans `source`, parses its tokens and lays down the steps of the
/// program: the steps of the statements that the tokens of the text parse
/// to, or the error that parsing them ends with.
pub fn plan_of(source: String) -> (result: Result<Vec<Step>, ParseError>)
    ensures
        match result {
            Ok(steps) => parse_program(scan_all(source@, 0), 0) matches Ok((stmts, _))
                && step_views(steps@) == program_plan(stmts),
            Err(e) => parse_program(scan_all(source@, 0), 0) == Err::<
                (Seq<StmtView>, int),
                ParseError,
            >(e),
        },
{
    let mut lexer = Lexer::new(source);
    let tokens = lexer.tokens();
    let mut parser = Parser::new(tokens);
    match parser.parse() {
        Ok(statements) => {
            let mut interpreter = Interpreter::new();
            Ok(interpreter.interpret(&statements))
        },
        Err(e) => Err(e),
    }
}

} // verus!
