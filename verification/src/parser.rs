//! The parser: recursive descent over a token sequence, one function per
//! level of the grammar.

use vstd::prelude::*;
use crate::expr::{
    stmt_views, BinaryExpr, Expr, ExprView, ExpressionStmt, LiteralExpr, PrintStmt, Stmt, StmtView,
    UnaryExpr,
};
use crate::grammar::{
    binary_level, expected, kind_at, lemma_operand_bounds, lemma_statement_bounds, levels_above,
    parse_binary, parse_chain, parse_expr, parse_operand, parse_primary, parse_program,
    parse_statement, parse_unary, ParseError, Parsed,
};
use crate::token::{views, Token, TokenType, TokenView};

verus! {

/// What a parser is, as a mathematical value: its tokens and the position
/// of the next one to read.
pub struct ParserView {
    pub tokens: Seq<TokenView>,
    pub position: int,
}

/// Whether the outcome `result` of a parsing step that left the cursor at
/// `end` is the outcome `parsed` that the grammar gives: the same tree and
/// end, or the same error with the cursor on the token it is about.
pub open spec fn agrees(result: Result<Expr, ParseError>, end: int, parsed: Parsed) -> bool {
    match result {
        Ok(tree) => parsed == Ok::<(ExprView, int), ParseError>((tree@, end)),
        Err(e) => parsed == Err::<(ExprView, int), ParseError>(e) && end == e.at(),
    }
}

/// As `agrees`, for a statement.
pub open spec fn agrees_stmt(
    result: Result<Stmt, ParseError>,
    end: int,
    parsed: Result<(StmtView, int), ParseError>,
) -> bool {
    match result {
        Ok(stmt) => parsed == Ok::<(StmtView, int), ParseError>((stmt@, end)),
        Err(e) => parsed == Err::<(StmtView, int), ParseError>(e) && end == e.at(),
    }
}

/// As `agrees`, for a whole program.
pub open spec fn agrees_program(
    result: Result<Vec<Stmt>, ParseError>,
    end: int,
    parsed: Result<(Seq<StmtView>, int), ParseError>,
) -> bool {
    match result {
        Ok(statements) => parsed == Ok::<(Seq<StmtView>, int), ParseError>(
            (stmt_views(statements@), end),
        ),
        Err(e) => parsed == Err::<(Seq<StmtView>, int), ParseError>(e) && end == e.at(),
    }
}

/// The statements `done` followed by the outcome `rest` of parsing what
/// comes behind them.
pub open spec fn after(
    done: Seq<StmtView>,
    rest: Result<(Seq<StmtView>, int), ParseError>,
) -> Result<(Seq<StmtView>, int), ParseError> {
    match rest {
        Ok((more, end)) => Ok((done + more, end)),
        Err(e) => Err(e),
    }
}

/// Parsing the same tokens from the same position twice comes out the
/// same: both times the same trees and the same end, or both times the
/// same error.
pub proof fn lemma_parse_again(
    tokens: Seq<TokenView>,
    position: int,
    first: Result<Vec<Stmt>, ParseError>,
    first_end: int,
    second: Result<Vec<Stmt>, ParseError>,
    second_end: int,
)
    requires
        agrees_program(first, first_end, parse_program(tokens, position)),
        agrees_program(second, second_end, parse_program(tokens, position)),
    ensures
        first_end == second_end,
        match (first, second) {
            (Ok(a), Ok(b)) => stmt_views(a@) == stmt_views(b@),
            (Err(e), Err(f)) => e == f,
            _ => false,
        },
{
}

/// A parser over one token sequence.
pub struct Parser {
    tokens: Vec<Token>,
    current: usize,
}

impl View for Parser {
    type V = ParserView;

    closed spec fn view(&self) -> ParserView {
        ParserView { tokens: views(self.tokens@), position: self.current as int }
    }
}

impl Parser {
    #[verifier::type_invariant]
    spec fn inv(&self) -> bool {
        self.current <= self.tokens.len()
    }

    /// A parser in front of the first of `tokens`.
    pub fn new(tokens: Vec<Token>) -> (parser: Parser)
        ensures
            parser@ == (ParserView { tokens: views(tokens@), position: 0 }),
    {
        Parser { tokens, current: 0 }
    }

    /// Parses statements up to the first end-of-input token. On success the
    /// cursor stands on that token; on failure it stands on the token that
    /// the error is about.
    pub fn parse(&mut self) -> (result: Result<Vec<Stmt>, ParseError>)
        ensures
            final(self)@.tokens == old(self)@.tokens,
            agrees_program(
                result,
                final(self)@.position,
                parse_program(old(self)@.tokens, old(self)@.position),
            ),
    {
        let mut statements: Vec<Stmt> = Vec::new();
        let ghost ts = self@.tokens;
        let ghost start = self@.position;
        proof {
            use_type_invariant(&*self);
        }
        assert(stmt_views(statements@) =~= Seq::empty());
        assert(after(Seq::empty(), parse_program(ts, start)) == parse_program(ts, start)) by {
            match parse_program(ts, start) {
                Ok((more, end)) => {
                    assert(Seq::<StmtView>::empty() + more =~= more);
                },
                Err(_) => {},
            }
        }
        while !self.is_at_end()
            invariant
                ts == old(self)@.tokens,
                start == old(self)@.position,
                self@.tokens == ts,
                0 <= self@.position <= ts.len(),
                parse_program(ts, start) == after(
                    stmt_views(statements@),
                    parse_program(ts, self@.position),
                ),
            decreases ts.len() - self@.position,
        {
            let ghost pos = self@.position;
            let ghost done = statements@;
            proof {
                lemma_statement_bounds(ts, pos);
            }
            match self.statement() {
                Ok(statement) => {
                    proof {
                        use_type_invariant(&*self);
                    }
                    statements.push(statement);
                    proof {
                        assert(stmt_views(statements@) =~= stmt_views(done) + seq![statement@]);
                        match parse_program(ts, self@.position) {
                            Ok((more, end)) => {
                                assert(stmt_views(statements@) + more =~= stmt_views(done) + (
                                seq![statement@] + more));
                            },
                            Err(_) => {},
                        }
                    }
                },
                Err(e) => {
                    return Err(e);
                },
            }
        }
        proof {
            assert(stmt_views(statements@) + Seq::<StmtView>::empty() =~= stmt_views(
                statements@,
            ));
        }
        Ok(statements)
    }

    /// `statement -> "print" expr ";" | expr ";"`
    fn statement(&mut self) -> (result: Result<Stmt, ParseError>)
        ensures
            final(self)@.tokens == old(self)@.tokens,
            agrees_stmt(
                result,
                final(self)@.position,
                parse_statement(old(self)@.tokens, old(self)@.position),
            ),
    {
        if self.eat(&TokenType::Print) {
            return self.print_stmt();
        }
        self.expr_stmt()
    }

    /// An expression and the semicolon that ends its statement.
    fn expr_stmt(&mut self) -> (result: Result<Stmt, ParseError>)
        requires
            kind_at(old(self)@.tokens, old(self)@.position) != TokenType::Print,
        ensures
            final(self)@.tokens == old(self)@.tokens,
            agrees_stmt(
                result,
                final(self)@.position,
                parse_statement(old(self)@.tokens, old(self)@.position),
            ),
    {
        let expr = match self.expr() {
            Ok(expr) => expr,
            Err(e) => {
                return Err(e);
            },
        };
        match self.consume(&TokenType::Semicolon) {
            Ok(()) => {},
            Err(e) => {
                return Err(e);
            },
        }
        Ok(Stmt::Expression(ExpressionStmt::new(Box::new(expr))))
    }

    /// The rest of a print statement, behind its keyword: an expression and
    /// the semicolon that ends the statement.
    fn print_stmt(&mut self) -> (result: Result<Stmt, ParseError>)
        requires
            kind_at(old(self)@.tokens, old(self)@.position - 1) == TokenType::Print,
        ensures
            final(self)@.tokens == old(self)@.tokens,
            agrees_stmt(
                result,
                final(self)@.position,
                parse_statement(old(self)@.tokens, old(self)@.position - 1),
            ),
    {
        let expr = match self.expr() {
            Ok(expr) => expr,
            Err(e) => {
                return Err(e);
            },
        };
        match self.consume(&TokenType::Semicolon) {
            Ok(()) => {},
            Err(e) => {
                return Err(e);
            },
        }
        Ok(Stmt::Print(PrintStmt::new(Box::new(expr))))
    }

    /// `expr -> equality`
    fn expr(&mut self) -> (result: Result<Expr, ParseError>)
        ensures
            final(self)@.tokens == old(self)@.tokens,
            agrees(result, final(self)@.position, parse_expr(old(self)@.tokens, old(self)@.position)),
        decreases old(self)@.tokens.len() - old(self)@.position, 14nat,
    {
        self.equality()
    }

    /// `equality -> comparison ( ("!=" | "==") comparison )*`
    fn equality(&mut self) -> (result: Result<Expr, ParseError>)
        ensures
            final(self)@.tokens == old(self)@.tokens,
            agrees(
                result,
                final(self)@.position,
                parse_binary(old(self)@.tokens, old(self)@.position, 0),
            ),
        decreases old(self)@.tokens.len() - old(self)@.position, 13nat,
    {
        self.chain(0)
    }

    /// `comparison -> term ( (">" | ">=" | "<" | "<=") term )*`
    fn comparison(&mut self) -> (result: Result<Expr, ParseError>)
        ensures
            final(self)@.tokens == old(self)@.tokens,
            agrees(
                result,
                final(self)@.position,
                parse_binary(old(self)@.tokens, old(self)@.position, 1),
            ),
        decreases old(self)@.tokens.len() - old(self)@.position, 10nat,
    {
        self.chain(1)
    }

    /// `term -> factor ( ("+" | "-") factor )*`
    fn term(&mut self) -> (result: Result<Expr, ParseError>)
        ensures
            final(self)@.tokens == old(self)@.tokens,
            agrees(
                result,
                final(self)@.position,
                parse_binary(old(self)@.tokens, old(self)@.position, 2),
            ),
        decreases old(self)@.tokens.len() - old(self)@.position, 7nat,
    {
        self.chain(2)
    }

    /// `factor -> unary ( ("*" | "/") unary )*`
    fn factor(&mut self) -> (result: Result<Expr, ParseError>)
        ensures
            final(self)@.tokens == old(self)@.tokens,
            agrees(
                result,
                final(self)@.position,
                parse_binary(old(self)@.tokens, old(self)@.position, 3),
            ),
        decreases old(self)@.tokens.len() - old(self)@.position, 4nat,
    {
        self.chain(3)
    }

    /// One operand of a chain of binding power `level`: an expression of
    /// the next stronger level.
    fn operand(&mut self, level: u8) -> (result: Result<Expr, ParseError>)
        requires
            level <= 3,
        ensures
            final(self)@.tokens == old(self)@.tokens,
            agrees(
                result,
                final(self)@.position,
                parse_operand(old(self)@.tokens, old(self)@.position, level as nat),
            ),
        decreases old(self)@.tokens.len() - old(self)@.position, 2 + 3 * levels_above(level as nat),
    {
        if level == 0 {
            self.comparison()
        } else if level == 1 {
            self.term()
        } else if level == 2 {
            self.factor()
        } else {
            self.unary()
        }
    }

    /// A chain of binding power `level`: one operand, then, as long as an
    /// operator of that level follows, the operator and a further operand,
    /// folded to the left into one tree.
    fn chain(&mut self, level: u8) -> (result: Result<Expr, ParseError>)
        requires
            level <= 3,
        ensures
            final(self)@.tokens == old(self)@.tokens,
            agrees(
                result,
                final(self)@.position,
                parse_binary(old(self)@.tokens, old(self)@.position, level as nat),
            ),
        decreases old(self)@.tokens.len() - old(self)@.position, 3 + 3 * levels_above(level as nat),
    {
        let ghost ts = self@.tokens;
        let ghost start = self@.position;
        proof {
            use_type_invariant(&*self);
            lemma_operand_bounds(ts, start, level as nat);
        }
        let mut left = match self.operand(level) {
            Ok(left) => left,
            Err(e) => {
                return Err(e);
            },
        };
        while self.at_operator(level)
            invariant
                level <= 3,
                ts == old(self)@.tokens,
                start == old(self)@.position,
                self@.tokens == ts,
                0 <= start < self@.position <= ts.len(),
                parse_binary(ts, start, level as nat) == parse_chain(
                    ts,
                    self@.position,
                    level as nat,
                    left@,
                ),
            decreases ts.len() - self@.position,
        {
            let ghost pos = self@.position;
            proof {
                use_type_invariant(&*self);
                lemma_operand_bounds(ts, pos + 1, level as nat);
            }
            let op = self.pull();
            let right = match self.operand(level) {
                Ok(right) => right,
                Err(e) => {
                    return Err(e);
                },
            };
            proof {
                use_type_invariant(&*self);
            }
            left = Expr::Binary(BinaryExpr::new(Box::new(left), op, Box::new(right)));
        }
        Ok(left)
    }

    /// `unary -> ("+" | "-") unary | primary`
    fn unary(&mut self) -> (result: Result<Expr, ParseError>)
        ensures
            final(self)@.tokens == old(self)@.tokens,
            agrees(
                result,
                final(self)@.position,
                parse_unary(old(self)@.tokens, old(self)@.position),
            ),
        decreases old(self)@.tokens.len() - old(self)@.position, 1nat,
    {
        proof {
            use_type_invariant(&*self);
        }
        if self.match_token(&TokenType::Plus) || self.match_token(&TokenType::Minus) {
            let op = self.pull();
            let right = match self.unary() {
                Ok(right) => right,
                Err(e) => {
                    return Err(e);
                },
            };
            return Ok(Expr::Unary(UnaryExpr::new(op, Box::new(right))));
        }
        self.primary()
    }

    /// `primary -> NUMBER | "(" expr ")"`
    fn primary(&mut self) -> (result: Result<Expr, ParseError>)
        ensures
            final(self)@.tokens == old(self)@.tokens,
            agrees(
                result,
                final(self)@.position,
                parse_primary(old(self)@.tokens, old(self)@.position),
            ),
        decreases old(self)@.tokens.len() - old(self)@.position, 0nat,
    {
        proof {
            use_type_invariant(&*self);
        }
        if self.match_token(&TokenType::NumberLiteral) {
            return Ok(Expr::Literal(LiteralExpr::new(self.pull())));
        }
        if self.eat(&TokenType::LeftParen) {
            let inner = match self.expr() {
                Ok(inner) => inner,
                Err(e) => {
                    return Err(e);
                },
            };
            return match self.consume(&TokenType::RightParen) {
                Ok(()) => Ok(inner),
                Err(e) => Err(e),
            };
        }
        Err(ParseError::ExpectedExpression { found: self.kind(), position: self.current })
    }

    /// The token under the cursor.
    fn peek(&self) -> (token: &Token)
        requires
            self@.position < self@.tokens.len(),
        ensures
            token@ == self@.tokens[self@.position],
            *token == self.tokens[self.current as int],
    {
        &self.tokens[self.current]
    }

    /// The kind of the token under the cursor; behind the last token, the
    /// end of the input.
    fn kind(&self) -> (kind: TokenType)
        ensures
            kind == kind_at(self@.tokens, self@.position),
    {
        if self.current < self.tokens.len() {
            self.peek().token_type
        } else {
            TokenType::Eof
        }
    }

    /// Hands out the token under the cursor and moves the cursor behind it.
    fn pull(&mut self) -> (token: Token)
        requires
            old(self)@.position < old(self)@.tokens.len(),
        ensures
            final(self)@.tokens == old(self)@.tokens,
            final(self)@.position == old(self)@.position + 1,
            token@ == old(self)@.tokens[old(self)@.position],
    {
        proof {
            use_type_invariant(&*self);
        }
        let found = self.peek();
        let token = Token::new(found.token_type, found.literal.clone());
        self.current += 1;
        token
    }

    /// Whether the cursor stands on an end-of-input token, or behind the
    /// last token.
    fn is_at_end(&self) -> (at_end: bool)
        ensures
            at_end == (kind_at(self@.tokens, self@.position) == TokenType::Eof),
            !at_end ==> 0 <= self@.position < self@.tokens.len(),
    {
        self.kind() == TokenType::Eof
    }

    /// Consumes the token under the cursor where it is of kind
    /// `token_type`, and says whether it did.
    fn eat(&mut self, token_type: &TokenType) -> (eaten: bool)
        ensures
            final(self)@.tokens == old(self)@.tokens,
            eaten == (*token_type != TokenType::Eof && kind_at(
                old(self)@.tokens,
                old(self)@.position,
            ) == *token_type),
            final(self)@.position == if eaten {
                old(self)@.position + 1
            } else {
                old(self)@.position
            },
    {
        if self.match_token(token_type) {
            let _ = self.pull();
            return true;
        }
        false
    }

    /// Consumes the token under the cursor, which has to be of kind
    /// `token_type`; where it is not, the cursor stays and the error names
    /// both kinds. The end of the input is never consumed: asking for it
    /// always gives the error.
    fn consume(&mut self, token_type: &TokenType) -> (result: Result<(), ParseError>)
        ensures
            final(self)@.tokens == old(self)@.tokens,
            result is Ok <==> *token_type != TokenType::Eof && kind_at(
                old(self)@.tokens,
                old(self)@.position,
            ) == *token_type,
            result is Ok ==> final(self)@.position == old(self)@.position + 1,
            result matches Err(e) ==> e == expected(
                old(self)@.tokens,
                old(self)@.position,
                *token_type,
            ) && final(self)@.position == old(self)@.position && e.at() == old(self)@.position,
    {
        if self.eat(token_type) {
            return Ok(());
        }
        Err(
            ParseError::Expected {
                expected: *token_type,
                found: self.kind(),
                position: self.current,
            },
        )
    }

    /// Whether the token under the cursor is of kind `token_type` and the
    /// input has not ended.
    fn match_token(&self, token_type: &TokenType) -> (matched: bool)
        ensures
            matched == (*token_type != TokenType::Eof && kind_at(self@.tokens, self@.position)
                == *token_type),
            matched ==> 0 <= self@.position < self@.tokens.len(),
    {
        !self.is_at_end() && self.peek().token_type == *token_type
    }

    /// Whether the token under the cursor is a binary operator of binding
    /// power `level`.
    fn at_operator(&self, level: u8) -> (found: bool)
        requires
            level <= 3,
        ensures
            found == (binary_level(kind_at(self@.tokens, self@.position)) == Some(level as nat)),
            found ==> 0 <= self@.position < self@.tokens.len(),
    {
        if level == 0 {
            self.match_token(&TokenType::BangEqual) || self.match_token(&TokenType::EqualEqual)
        } else if level == 1 {
            self.match_token(&TokenType::Less) || self.match_token(&TokenType::LessEqual)
                || self.match_token(&TokenType::Greater) || self.match_token(
                &TokenType::GreaterEqual,
            )
        } else if level == 2 {
            self.match_token(&TokenType::Plus) || self.match_token(&TokenType::Minus)
        } else {
            self.match_token(&TokenType::Star) || self.match_token(&TokenType::Slash)
        }
    }
}

} // verus!
