use lox::ast_printer::AstPrinter;
use lox::expr::{
    BinaryExpr, Expr, ExpressionStmt, LiteralExpr, PrintStmt, Stmt, UnaryExpr,
};
use lox::interpreter::Interpreter;
use lox::lexer::Lexer;
use lox::parser::Parser;
use lox::plan::Step;
use lox::token::{Token, TokenType};

/// What running a list of steps did: the text written, the values that
/// statements ended with, and the operator that stopped the run, if any.
struct Outcome {
    output: String,
    values: Vec<f64>,
    stack: Vec<f64>,
    aborted: Option<TokenType>,
}

fn run(steps: &[Step]) -> Outcome {
    let mut outcome = Outcome {
        output: String::new(),
        values: Vec::new(),
        stack: Vec::new(),
        aborted: None,
    };
    for step in steps {
        match step {
            Step::Number(lexeme) => outcome.stack.push(lexeme.parse::<f64>().unwrap()),
            Step::Negate => {
                let x = outcome.stack.pop().unwrap();
                outcome.stack.push(-x);
            }
            Step::Add | Step::Subtract | Step::Multiply | Step::Divide => {
                let right = outcome.stack.pop().unwrap();
                let left = outcome.stack.pop().unwrap();
                outcome.stack.push(match step {
                    Step::Add => left + right,
                    Step::Subtract => left - right,
                    Step::Multiply => left * right,
                    _ => left / right,
                });
            }
            Step::Print => {
                let x = outcome.stack.pop().unwrap();
                outcome.output.push_str(&format!("{}", x));
                outcome.values.push(x);
            }
            Step::Discard => {
                let x = outcome.stack.pop().unwrap();
                outcome.values.push(x);
            }
            Step::Abort(kind) => {
                outcome.aborted = Some(*kind);
                return outcome;
            }
        }
    }
    outcome
}

fn plan(source: &str) -> Vec<Step> {
    let tokens = Lexer::new(source.to_string()).tokens();
    let statements = Parser::new(tokens).parse().unwrap();
    Interpreter::new().interpret(&statements)
}

fn names(steps: &[Step]) -> Vec<String> {
    steps.iter().map(|s| format!("{:?}", s)).collect()
}

fn value(source: &str) -> f64 {
    let outcome = run(&plan(source));
    assert!(outcome.aborted.is_none());
    assert!(outcome.stack.is_empty());
    assert_eq!(outcome.values.len(), 1);
    outcome.values[0]
}

fn number(lexeme: &str) -> Box<Expr> {
    Box::new(Expr::Literal(LiteralExpr::new(Token::new(
        TokenType::NumberLiteral,
        lexeme.to_string(),
    ))))
}

fn op(kind: TokenType, lexeme: &str) -> Token {
    Token::new(kind, lexeme.to_string())
}

#[test]
fn steps_of_a_sum_with_a_product() {
    assert_eq!(
        names(&plan("1 + 2 * 3;\n")),
        vec![
            "Number(\"1\")",
            "Number(\"2\")",
            "Number(\"3\")",
            "Multiply",
            "Add",
            "Discard"
        ]
    );
}

#[test]
fn operands_come_left_to_right() {
    assert_eq!(
        names(&plan("(1 - 2) / (3 + 4);\n")),
        vec![
            "Number(\"1\")",
            "Number(\"2\")",
            "Subtract",
            "Number(\"3\")",
            "Number(\"4\")",
            "Add",
            "Divide",
            "Discard"
        ]
    );
}

#[test]
fn prefix_minus_negates_and_prefix_plus_does_nothing() {
    assert_eq!(
        names(&plan("-5;\n")),
        vec!["Number(\"5\")", "Negate", "Discard"]
    );
    assert_eq!(names(&plan("+5;\n")), vec!["Number(\"5\")", "Discard"]);
    assert_eq!(
        names(&plan("-+-5;\n")),
        vec!["Number(\"5\")", "Negate", "Negate", "Discard"]
    );
    assert_eq!(value("+5;\n"), 5.0);
    assert_eq!(value("--5;\n"), 5.0);
}

#[test]
fn print_statement_ends_with_print() {
    assert_eq!(
        names(&plan("print 1;\n")),
        vec!["Number(\"1\")", "Print"]
    );
}

#[test]
fn empty_program_has_no_steps() {
    assert_eq!(plan("").len(), 0);
    assert_eq!(Interpreter::new().interpret(&Vec::new()).len(), 0);
}

#[test]
fn statements_run_in_order() {
    let steps = plan("print 1; 2; print 3 + 4;\n");
    assert_eq!(
        names(&steps),
        vec![
            "Number(\"1\")",
            "Print",
            "Number(\"2\")",
            "Discard",
            "Number(\"3\")",
            "Number(\"4\")",
            "Add",
            "Print"
        ]
    );
    let outcome = run(&steps);
    assert_eq!(outcome.output, "17");
    assert_eq!(outcome.values, vec![1.0, 2.0, 7.0]);
}

#[test]
fn arithmetic_follows_binding_power_and_grouping() {
    assert_eq!(value("1 + 2 * 3;\n"), 7.0);
    assert_eq!(value("(1 + 2) * 3;\n"), 9.0);
    assert_eq!(value("10 - 4 - 3;\n"), 3.0);
    assert_eq!(value("10 - (4 - 3);\n"), 9.0);
    assert_eq!(value("8 / 4 / 2;\n"), 1.0);
    assert_eq!(value("8 / (4 / 2);\n"), 4.0);
    assert_eq!(value("2 * 3 + 4 * 5;\n"), 26.0);
    assert_eq!(value("1.5 + 2.25;\n"), 3.75);
    assert_eq!(value("7 / 2;\n"), 3.5);
    assert_eq!(value("2 * -3;\n"), -6.0);
    assert_eq!(value("0.1 + 0.2;\n"), 0.1 + 0.2);
}

#[test]
fn division_by_zero_is_not_an_error() {
    assert_eq!(value("10 / 0;\n"), f64::INFINITY);
    assert_eq!(value("-10 / 0;\n"), f64::NEG_INFINITY);
    assert!(value("0 / 0;\n").is_nan());
    let outcome = run(&plan("print 1 / 0;\n"));
    assert_eq!(outcome.output, "inf");
}

#[test]
fn printed_numbers_have_their_plain_form() {
    assert_eq!(run(&plan("print (2 + 3) * 4;\n")).output, "20");
    assert_eq!(run(&plan("print 7 / 2;\n")).output, "3.5");
    assert_eq!(run(&plan("print -3;\n")).output, "-3");
    assert_eq!(run(&plan("print 1; print 2;\n")).output, "12");
}

#[test]
fn comparison_and_equality_cannot_be_applied() {
    for (source, kind) in [
        ("1 < 2;\n", TokenType::Less),
        ("1 <= 2;\n", TokenType::LessEqual),
        ("1 > 2;\n", TokenType::Greater),
        ("1 >= 2;\n", TokenType::GreaterEqual),
        ("1 == 2;\n", TokenType::EqualEqual),
        ("1 != 2;\n", TokenType::BangEqual),
    ] {
        let steps = plan(source);
        assert_eq!(
            names(&steps),
            vec![
                "Number(\"1\")".to_string(),
                "Number(\"2\")".to_string(),
                format!("Abort({:?})", kind),
                "Discard".to_string()
            ]
        );
        assert_eq!(run(&steps).aborted, Some(kind));
    }
}

#[test]
fn statements_in_front_of_a_failure_have_run() {
    let outcome = run(&plan("print 1; print 2 < 3; print 4;\n"));
    assert_eq!(outcome.output, "1");
    assert_eq!(outcome.aborted, Some(TokenType::Less));
}

#[test]
fn operands_are_evaluated_before_the_operator_fails() {
    let steps = plan("(1 < 2) + (3 == 4);\n");
    assert_eq!(
        names(&steps),
        vec![
            "Number(\"1\")",
            "Number(\"2\")",
            "Abort(Less)",
            "Number(\"3\")",
            "Number(\"4\")",
            "Abort(EqualEqual)",
            "Add",
            "Discard"
        ]
    );
    assert_eq!(run(&steps).aborted, Some(TokenType::Less));
}

#[test]
fn a_prefix_operator_other_than_sign_cannot_be_applied() {
    let tree = Expr::Unary(UnaryExpr::new(op(TokenType::Star, "*"), number("2")));
    let steps = Interpreter::new().interpret(&vec![Stmt::Expression(ExpressionStmt::new(
        Box::new(tree),
    ))]);
    assert_eq!(
        names(&steps),
        vec!["Number(\"2\")", "Abort(Star)", "Discard"]
    );
}

#[test]
fn a_tree_built_by_hand() {
    let sum = Expr::Binary(BinaryExpr::new(
        number("2"),
        op(TokenType::Plus, "+"),
        number("3"),
    ));
    let product = Expr::Binary(BinaryExpr::new(
        Box::new(sum),
        op(TokenType::Star, "*"),
        number("4"),
    ));
    let program = vec![Stmt::Print(PrintStmt::new(Box::new(product)))];
    let outcome = run(&Interpreter::new().interpret(&program));
    assert_eq!(outcome.output, "20");
}

#[test]
fn a_literal_hands_on_its_lexeme_whatever_its_kind() {
    let tree = Expr::Literal(LiteralExpr::new(Token::new(TokenType::Unknown, String::new())));
    let steps = Interpreter::new().interpret(&vec![Stmt::Expression(ExpressionStmt::new(
        Box::new(tree),
    ))]);
    assert_eq!(names(&steps), vec!["Number(\"\")", "Discard"]);
    assert!("".parse::<f64>().is_err());
}

#[test]
fn ast_printer_evaluates_one_expression() {
    let tree = Box::new(Expr::Binary(BinaryExpr::new(
        number("1"),
        op(TokenType::Minus, "-"),
        Box::new(Expr::Unary(UnaryExpr::new(
            op(TokenType::Minus, "-"),
            number("2"),
        ))),
    )));
    let steps = AstPrinter {}.eval(&tree);
    assert_eq!(
        names(&steps),
        vec!["Number(\"1\")", "Number(\"2\")", "Negate", "Subtract"]
    );
    let outcome = run(&steps);
    assert_eq!(outcome.stack, vec![3.0]);
    assert!(outcome.output.is_empty());
}

#[test]
fn evaluate_appends_to_the_steps_it_is_given() {
    let mut steps = vec![Step::Print];
    Interpreter::new().evaluate(&number("9"), &mut steps);
    assert_eq!(names(&steps), vec!["Print", "Number(\"9\")"]);
}

#[test]
fn the_stack_is_empty_between_statements() {
    let outcome = run(&plan("1 + 2; print 3 * (4 - 5); -6;\n"));
    assert!(outcome.stack.is_empty());
    assert_eq!(outcome.values, vec![3.0, -3.0, -6.0]);
}

#[test]
fn node_getters_hand_back_what_the_constructors_took() {
    let literal = LiteralExpr::new(op(TokenType::NumberLiteral, "4"));
    assert_eq!(literal.get_token().literal, "4");
    assert_eq!(literal.get_token().token_type, TokenType::NumberLiteral);
    let unary = UnaryExpr::new(op(TokenType::Minus, "-"), number("1"));
    assert_eq!(unary.get_op().token_type, TokenType::Minus);
    assert!(matches!(&**unary.get_right(), Expr::Literal(l) if l.get_token().literal == "1"));
    let binary = BinaryExpr::new(number("1"), op(TokenType::Slash, "/"), number("2"));
    assert_eq!(binary.get_op().literal, "/");
    assert!(matches!(&**binary.get_left(), Expr::Literal(l) if l.get_token().literal == "1"));
    assert!(matches!(&**binary.get_right(), Expr::Literal(l) if l.get_token().literal == "2"));
    let statement = ExpressionStmt::new(number("3"));
    assert!(matches!(&**statement.get_expression(), Expr::Literal(l) if l.get_token().literal == "3"));
    let print = PrintStmt::new(number("5"));
    assert!(matches!(&**print.get_expression(), Expr::Literal(l) if l.get_token().literal == "5"));
}
