//! What parsing means, as mathematics: the tree that the grammar assigns to
//! a token sequence.
//!
//! ```text
//! program     -> statement* EOF
//! statement   -> "print" expr ";" | expr ";"
//! expr        -> equality
//! equality    -> comparison ( ("!=" | "==") comparison )*
//! comparison  -> term ( (">" | ">=" | "<" | "<=") term )*
//! term        -> factor ( ("+" | "-") factor )*
//! factor      -> unary ( ("*" | "/") unary )*
//! unary       -> ("+" | "-") unary | primary
//! primary     -> NUMBER | "(" expr ")"
//! ```

use vstd::prelude::*;
use crate::expr::{ExprView, StmtView};
use crate::token::{TokenType, TokenView};

verus! {

/// Why a token sequence is not a program.
#[derive(Debug, Clone, Copy, PartialEq, Eq, Structural)]
pub enum ParseError {
    /// The token at `position` had to be of kind `expected` and is of kind
    /// `found`.
    Expected { expected: TokenType, found: TokenType, position: usize },
    /// An expression had to start at `position`, where the token is of
    /// kind `found`: neither a number nor an opening parenthesis.
    ExpectedExpression { found: TokenType, position: usize },
}

impl ParseError {
    /// The position of the token that the error is about.
    pub open spec fn at(self) -> usize {
        match self {
            ParseError::Expected { position, .. } => position,
            ParseError::ExpectedExpression { position, .. } => position,
        }
    }

    /// The position of the token that the error is about.
    pub fn position(&self) -> (position: usize)
        ensures
            position == self.at(),
    {
        match self {
            ParseError::Expected { position, .. } => *position,
            ParseError::ExpectedExpression { position, .. } => *position,
        }
    }

    /// The kind of the token that the error is about.
    pub fn found(&self) -> (kind: TokenType)
        ensures
            kind == match *self {
                ParseError::Expected { found, .. } => found,
                ParseError::ExpectedExpression { found, .. } => found,
            },
    {
        match self {
            ParseError::Expected { found, .. } => *found,
            ParseError::ExpectedExpression { found, .. } => *found,
        }
    }
}

/// The kind of the token at `pos`. Behind the last token the input counts
/// as ended.
pub open spec fn kind_at(ts: Seq<TokenView>, pos: int) -> TokenType {
    if 0 <= pos < ts.len() {
        ts[pos].kind
    } else {
        TokenType::Eof
    }
}

/// The binding power of a binary operator, weakest first: equality 0,
/// comparison 1, term 2, factor 3.
pub open spec fn binary_level(kind: TokenType) -> Option<nat> {
    match kind {
        TokenType::BangEqual | TokenType::EqualEqual => Some(0),
        TokenType::Greater | TokenType::GreaterEqual | TokenType::Less | TokenType::LessEqual => Some(
            1,
        ),
        TokenType::Plus | TokenType::Minus => Some(2),
        TokenType::Star | TokenType::Slash => Some(3),
        _ => None,
    }
}

/// Whether `kind` is a prefix operator.
pub open spec fn is_sign(kind: TokenType) -> bool {
    kind == TokenType::Plus || kind == TokenType::Minus
}

/// A tree and the position behind its last token, or the first error.
pub type Parsed = Result<(ExprView, int), ParseError>;

/// The error for a token that is not of the kind required at `pos`.
pub open spec fn expected(ts: Seq<TokenView>, pos: int, kind: TokenType) -> ParseError {
    ParseError::Expected { expected: kind, found: kind_at(ts, pos), position: pos as usize }
}

/// The error for a token at `pos` that starts no expression.
pub open spec fn no_expression(ts: Seq<TokenView>, pos: int) -> ParseError {
    ParseError::ExpectedExpression { found: kind_at(ts, pos), position: pos as usize }
}

/// `primary -> NUMBER | "(" expr ")"`
pub open spec fn parse_primary(ts: Seq<TokenView>, pos: int) -> Parsed
    decreases ts.len() - pos, 0nat,
{
    if kind_at(ts, pos) == TokenType::NumberLiteral {
        Ok((ExprView::Literal(ts[pos]), pos + 1))
    } else if kind_at(ts, pos) == TokenType::LeftParen {
        match parse_binary(ts, pos + 1, 0) {
            Ok((inner, p)) => if kind_at(ts, p) == TokenType::RightParen {
                Ok((inner, p + 1))
            } else {
                Err(expected(ts, p, TokenType::RightParen))
            },
            Err(e) => Err(e),
        }
    } else {
        Err(no_expression(ts, pos))
    }
}

/// `unary -> ("+" | "-") unary | primary`
pub open spec fn parse_unary(ts: Seq<TokenView>, pos: int) -> Parsed
    decreases ts.len() - pos, 1nat,
{
    if is_sign(kind_at(ts, pos)) {
        match parse_unary(ts, pos + 1) {
            Ok((right, p)) => Ok((ExprView::Unary(ts[pos], Box::new(right)), p)),
            Err(e) => Err(e),
        }
    } else {
        parse_primary(ts, pos)
    }
}

/// How many binding powers lie above `level`.
pub open spec fn levels_above(level: nat) -> nat {
    if level >= 3 {
        0
    } else {
        (3 - level) as nat
    }
}

/// An operand of the binary operators of binding power `level`: an
/// expression of the next stronger level.
pub open spec fn parse_operand(ts: Seq<TokenView>, pos: int, level: nat) -> Parsed
    decreases ts.len() - pos, 2 + 2 * levels_above(level),
{
    if level >= 3 {
        parse_unary(ts, pos)
    } else {
        parse_binary(ts, pos, level + 1)
    }
}

/// A chain of operands joined by operators of binding power `level`,
/// grouped to the left. `level` 0 is `equality`, which is `expr`; 1 is
/// `comparison`, 2 is `term`, 3 is `factor`.
pub open spec fn parse_binary(ts: Seq<TokenView>, pos: int, level: nat) -> Parsed
    decreases ts.len() - pos, 3 + 2 * levels_above(level),
{
    if level > 3 {
        parse_unary(ts, pos)
    } else {
        match parse_operand(ts, pos, level) {
            // A tree holds a token at least, so `p` always lies behind `pos`
            // (`lemma_operand_bounds`); the second arm is never taken.
            Ok((left, p)) if pos < p <= ts.len() => parse_chain(ts, p, level, left),
            Ok(_) => Err(no_expression(ts, pos)),
            Err(e) => Err(e),
        }
    }
}

/// The rest of a chain of binding power `level` whose operands so far make
/// up `left`: as long as an operator of that level follows, it joins `left`
/// and the next operand into the new left operand.
pub open spec fn parse_chain(ts: Seq<TokenView>, pos: int, level: nat, left: ExprView) -> Parsed
    decreases ts.len() - pos, 0nat,
{
    if level <= 3 && binary_level(kind_at(ts, pos)) == Some(level) {
        match parse_operand(ts, pos + 1, level) {
            // As in `parse_binary`: the second arm is never taken.
            Ok((right, p)) if pos < p <= ts.len() => parse_chain(
                ts,
                p,
                level,
                ExprView::Binary(Box::new(left), ts[pos], Box::new(right)),
            ),
            Ok(_) => Err(no_expression(ts, pos)),
            Err(e) => Err(e),
        }
    } else {
        Ok((left, pos))
    }
}

/// `expr -> equality`
pub open spec fn parse_expr(ts: Seq<TokenView>, pos: int) -> Parsed {
    parse_binary(ts, pos, 0)
}

/// `statement -> "print" expr ";" | expr ";"`
pub open spec fn parse_statement(ts: Seq<TokenView>, pos: int) -> Result<(StmtView, int), ParseError> {
    if kind_at(ts, pos) == TokenType::Print {
        match parse_expr(ts, pos + 1) {
            Ok((value, p)) => if kind_at(ts, p) == TokenType::Semicolon {
                Ok((StmtView::Print(value), p + 1))
            } else {
                Err(expected(ts, p, TokenType::Semicolon))
            },
            Err(e) => Err(e),
        }
    } else {
        match parse_expr(ts, pos) {
            Ok((value, p)) => if kind_at(ts, p) == TokenType::Semicolon {
                Ok((StmtView::Expression(value), p + 1))
            } else {
                Err(expected(ts, p, TokenType::Semicolon))
            },
            Err(e) => Err(e),
        }
    }
}

/// `program -> statement* EOF`: the statements from `pos` up to the first
/// end-of-input token, and the position of that token.
pub open spec fn parse_program(ts: Seq<TokenView>, pos: int) -> Result<
    (Seq<StmtView>, int),
    ParseError,
>
    decreases ts.len() - pos,
{
    if kind_at(ts, pos) == TokenType::Eof {
        Ok((Seq::empty(), pos))
    } else {
        match parse_statement(ts, pos) {
            // A statement holds a token at least (`lemma_statement_bounds`):
            // the second arm is never taken.
            Ok((first, p)) if pos < p <= ts.len() => match parse_program(ts, p) {
                Ok((rest, end)) => Ok((seq![first] + rest, end)),
                Err(e) => Err(e),
            },
            Ok(_) => Err(no_expression(ts, pos)),
            Err(e) => Err(e),
        }
    }
}

/// A primary that parses ends behind where it starts, inside the sequence.
pub proof fn lemma_primary_bounds(ts: Seq<TokenView>, pos: int)
    requires
        0 <= pos,
    ensures
        parse_primary(ts, pos) matches Ok((_, p)) ==> pos < p <= ts.len(),
    decreases ts.len() - pos, 0nat,
{
    if kind_at(ts, pos) == TokenType::LeftParen {
        lemma_binary_bounds(ts, pos + 1, 0);
    }
}

/// A unary expression that parses ends behind where it starts, inside the
/// sequence.
pub proof fn lemma_unary_bounds(ts: Seq<TokenView>, pos: int)
    requires
        0 <= pos,
    ensures
        parse_unary(ts, pos) matches Ok((_, p)) ==> pos < p <= ts.len(),
    decreases ts.len() - pos, 1nat,
{
    if is_sign(kind_at(ts, pos)) {
        lemma_unary_bounds(ts, pos + 1);
    } else {
        lemma_primary_bounds(ts, pos);
    }
}

/// An operand that parses ends behind where it starts, inside the sequence.
pub proof fn lemma_operand_bounds(ts: Seq<TokenView>, pos: int, level: nat)
    requires
        0 <= pos,
    ensures
        parse_operand(ts, pos, level) matches Ok((_, p)) ==> pos < p <= ts.len(),
    decreases ts.len() - pos, 2 + 2 * levels_above(level),
{
    if level >= 3 {
        lemma_unary_bounds(ts, pos);
    } else {
        lemma_binary_bounds(ts, pos, level + 1);
    }
}

/// A chain that parses ends behind where it starts, inside the sequence.
pub proof fn lemma_binary_bounds(ts: Seq<TokenView>, pos: int, level: nat)
    requires
        0 <= pos,
    ensures
        parse_binary(ts, pos, level) matches Ok((_, p)) ==> pos < p <= ts.len(),
    decreases ts.len() - pos, 3 + 2 * levels_above(level),
{
    if level > 3 {
        lemma_unary_bounds(ts, pos);
    } else {
        lemma_operand_bounds(ts, pos, level);
        match parse_operand(ts, pos, level) {
            Ok((left, p)) => {
                lemma_chain_bounds(ts, p, level, left);
            },
            Err(_) => {},
        }
    }
}

/// The rest of a chain ends at or behind where it starts, inside the
/// sequence.
pub proof fn lemma_chain_bounds(ts: Seq<TokenView>, pos: int, level: nat, left: ExprView)
    requires
        0 <= pos <= ts.len(),
    ensures
        parse_chain(ts, pos, level, left) matches Ok((_, p)) ==> pos <= p <= ts.len(),
    decreases ts.len() - pos, 0nat,
{
    if level <= 3 && binary_level(kind_at(ts, pos)) == Some(level) {
        lemma_operand_bounds(ts, pos + 1, level);
        match parse_operand(ts, pos + 1, level) {
            Ok((right, p)) => {
                lemma_chain_bounds(
                    ts,
                    p,
                    level,
                    ExprView::Binary(Box::new(left), ts[pos], Box::new(right)),
                );
            },
            Err(_) => {},
        }
    }
}

/// A statement that parses ends behind where it starts, inside the
/// sequence.
pub proof fn lemma_statement_bounds(ts: Seq<TokenView>, pos: int)
    requires
        0 <= pos,
    ensures
        parse_statement(ts, pos) matches Ok((_, p)) ==> pos < p <= ts.len(),
{
    if kind_at(ts, pos) == TokenType::Print {
        lemma_binary_bounds(ts, pos + 1, 0);
    } else {
        lemma_binary_bounds(ts, pos, 0);
    }
}

} // verus!
