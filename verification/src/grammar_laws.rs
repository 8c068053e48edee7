//! What holds of every parse: the shape of the trees, and the way back from
//! a tree to tokens that parse to it.

use vstd::prelude::*;
use crate::expr::{ExprView, StmtView};
use crate::grammar::{
    binary_level, is_sign, kind_at, lemma_operand_bounds, levels_above, parse_binary,
    parse_chain, parse_expr, parse_operand, parse_primary, parse_program, parse_statement,
    parse_unary, ParseError,
};
use crate::scan::scan_all;
use crate::scan_laws::{is_decimal, lemma_numbers_in_all_tokens};
use crate::token::{TokenType, TokenView};

verus! {

/// Whether `expr` is a tree of the grammar: its literals are numbers, its
/// prefix operators are signs, and its binary operators are binary
/// operators.
pub open spec fn grammatical(expr: ExprView) -> bool
    decreases expr,
{
    match expr {
        ExprView::Literal(token) => token.kind == TokenType::NumberLiteral,
        ExprView::Unary(op, right) => is_sign(op.kind) && grammatical(*right),
        ExprView::Binary(left, op, right) => binary_level(op.kind) is Some && grammatical(*left)
            && grammatical(*right),
    }
}

/// Whether every literal of `expr` is one of the tokens `ts`.
pub open spec fn literals_from(expr: ExprView, ts: Seq<TokenView>) -> bool
    decreases expr,
{
    match expr {
        ExprView::Literal(token) => ts.contains(token),
        ExprView::Unary(_, right) => literals_from(*right, ts),
        ExprView::Binary(left, _, right) => literals_from(*left, ts) && literals_from(*right, ts),
    }
}

/// A primary that parses is a tree of the grammar.
pub proof fn lemma_primary_grammatical(ts: Seq<TokenView>, pos: int)
    requires
        0 <= pos,
    ensures
        parse_primary(ts, pos) matches Ok((tree, _)) ==> grammatical(tree) && literals_from(tree, ts),
    decreases ts.len() - pos, 0nat,
{
    if kind_at(ts, pos) == TokenType::NumberLiteral {
        assert(ts.contains(ts[pos]));
    } else if kind_at(ts, pos) == TokenType::LeftParen {
        lemma_binary_grammatical(ts, pos + 1, 0);
    }
}

/// A unary expression that parses is a tree of the grammar.
pub proof fn lemma_unary_grammatical(ts: Seq<TokenView>, pos: int)
    requires
        0 <= pos,
    ensures
        parse_unary(ts, pos) matches Ok((tree, _)) ==> grammatical(tree) && literals_from(tree, ts),
    decreases ts.len() - pos, 1nat,
{
    if is_sign(kind_at(ts, pos)) {
        lemma_unary_grammatical(ts, pos + 1);
    } else {
        lemma_primary_grammatical(ts, pos);
    }
}

/// An operand that parses is a tree of the grammar.
pub proof fn lemma_operand_grammatical(ts: Seq<TokenView>, pos: int, level: nat)
    requires
        0 <= pos,
    ensures
        parse_operand(ts, pos, level) matches Ok((tree, _)) ==> grammatical(tree) && literals_from(tree, ts),
    decreases ts.len() - pos, 2 + 2 * levels_above(level),
{
    if level >= 3 {
        lemma_unary_grammatical(ts, pos);
    } else {
        lemma_binary_grammatical(ts, pos, level + 1);
    }
}

/// A chain that parses is a tree of the grammar.
pub proof fn lemma_binary_grammatical(ts: Seq<TokenView>, pos: int, level: nat)
    requires
        0 <= pos,
    ensures
        parse_binary(ts, pos, level) matches Ok((tree, _)) ==> grammatical(tree) && literals_from(tree, ts),
    decreases ts.len() - pos, 3 + 2 * levels_above(level),
{
    if level > 3 {
        lemma_unary_grammatical(ts, pos);
    } else {
        lemma_operand_grammatical(ts, pos, level);
        lemma_operand_bounds(ts, pos, level);
        match parse_operand(ts, pos, level) {
            Ok((left, p)) => {
                lemma_chain_grammatical(ts, p, level, left);
            },
            Err(_) => {},
        }
    }
}

/// The rest of a chain behind a tree of the grammar is a tree of the
/// grammar.
pub proof fn lemma_chain_grammatical(ts: Seq<TokenView>, pos: int, level: nat, left: ExprView)
    requires
        0 <= pos <= ts.len(),
        grammatical(left),
        literals_from(left, ts),
    ensures
        parse_chain(ts, pos, level, left) matches Ok((tree, _)) ==> grammatical(tree) && literals_from(tree, ts),
    decreases ts.len() - pos, 0nat,
{
    if level <= 3 && binary_level(kind_at(ts, pos)) == Some(level) {
        lemma_operand_grammatical(ts, pos + 1, level);
        lemma_operand_bounds(ts, pos + 1, level);
        match parse_operand(ts, pos + 1, level) {
            Ok((right, p)) => {
                lemma_chain_grammatical(
                    ts,
                    p,
                    level,
                    ExprView::Binary(Box::new(left), ts[pos], Box::new(right)),
                );
            },
            Err(_) => {},
        }
    }
}

/// Every expression that parses is a tree of the grammar, and each of its
/// literals wraps a number token of the sequence.
pub proof fn lemma_parsed_is_grammatical(ts: Seq<TokenView>, pos: int)
    requires
        0 <= pos,
    ensures
        parse_expr(ts, pos) matches Ok((tree, _)) ==> grammatical(tree) && literals_from(tree, ts),
{
    lemma_binary_grammatical(ts, pos, 0);
}

/// Every statement that parses holds a tree of the grammar, whose
/// literals are number tokens of the sequence.
pub proof fn lemma_statement_grammatical(ts: Seq<TokenView>, pos: int)
    requires
        0 <= pos,
    ensures
        parse_statement(ts, pos) matches Ok((stmt, _)) ==> grammatical(expression_of(stmt))
            && literals_from(expression_of(stmt), ts),
{
    if kind_at(ts, pos) == TokenType::Print {
        lemma_binary_grammatical(ts, pos + 1, 0);
    } else {
        lemma_binary_grammatical(ts, pos, 0);
    }
}

/// Every program that parses holds trees of the grammar only, whose
/// literals are number tokens of the sequence.
pub proof fn lemma_program_grammatical(ts: Seq<TokenView>, pos: int)
    requires
        0 <= pos,
    ensures
        parse_program(ts, pos) matches Ok((stmts, _)) ==> forall|i: int|
            0 <= i < stmts.len() ==> grammatical(expression_of(#[trigger] stmts[i]))
                && literals_from(expression_of(stmts[i]), ts),
    decreases ts.len() - pos,
{
    if kind_at(ts, pos) != TokenType::Eof {
        lemma_statement_grammatical(ts, pos);
        match parse_statement(ts, pos) {
            Ok((first, p)) => {
                if pos < p <= ts.len() {
                    lemma_program_grammatical(ts, p);
                    match parse_program(ts, p) {
                        Ok((rest, _)) => {
                            let stmts = seq![first] + rest;
                            assert forall|i: int| 0 <= i < stmts.len() implies grammatical(
                                expression_of(#[trigger] stmts[i]),
                            ) && literals_from(expression_of(stmts[i]), ts) by {
                                if i > 0 {
                                    assert(stmts[i] == rest[i - 1]);
                                }
                            }
                        },
                        Err(_) => {},
                    }
                }
            },
            Err(_) => {},
        }
    }
}

/// Whether every literal of `expr` holds decimal text.
pub open spec fn literals_decimal(expr: ExprView) -> bool
    decreases expr,
{
    match expr {
        ExprView::Literal(token) => is_decimal(token.lexeme),
        ExprView::Unary(_, right) => literals_decimal(*right),
        ExprView::Binary(left, _, right) => literals_decimal(*left) && literals_decimal(*right),
    }
}

/// A tree of the grammar whose literals come from tokens whose numbers
/// hold decimal text holds decimal text in every literal.
pub proof fn lemma_literals_decimal(expr: ExprView, ts: Seq<TokenView>)
    requires
        grammatical(expr),
        literals_from(expr, ts),
        forall|i: int|
            0 <= i < ts.len() && (#[trigger] ts[i]).kind == TokenType::NumberLiteral
                ==> is_decimal(ts[i].lexeme),
    ensures
        literals_decimal(expr),
    decreases expr,
{
    match expr {
        ExprView::Literal(token) => {
            let i = choose|i: int| 0 <= i < ts.len() && ts[i] == token;
            assert(ts[i].kind == TokenType::NumberLiteral);
        },
        ExprView::Unary(_, right) => {
            lemma_literals_decimal(*right, ts);
        },
        ExprView::Binary(left, _, right) => {
            lemma_literals_decimal(*left, ts);
            lemma_literals_decimal(*right, ts);
        },
    }
}

/// From text to tree: in every program parsed from the tokens of a text,
/// each literal holds decimal text, so that reading it as a number cannot
/// fail for want of digits.
pub proof fn lemma_scanned_literals_are_decimal(s: Seq<char>, pos: int)
    requires
        0 <= pos,
    ensures
        parse_program(scan_all(s, 0), pos) matches Ok((stmts, _)) ==> forall|i: int|
            0 <= i < stmts.len() ==> literals_decimal(expression_of(#[trigger] stmts[i])),
{
    let ts = scan_all(s, 0);
    lemma_numbers_in_all_tokens(s, 0);
    lemma_program_grammatical(ts, pos);
    match parse_program(ts, pos) {
        Ok((stmts, _)) => {
            assert forall|i: int| 0 <= i < stmts.len() implies literals_decimal(
                expression_of(#[trigger] stmts[i]),
            ) by {
                lemma_literals_decimal(expression_of(stmts[i]), ts);
            }
        },
        Err(_) => {},
    }
}

/// The binding power of a tree: that of its operator for a binary node, 4
/// for a prefix operator, 5 for a literal.
pub open spec fn tree_level(expr: ExprView) -> nat {
    match expr {
        ExprView::Literal(_) => 5,
        ExprView::Unary(_, _) => 4,
        ExprView::Binary(_, op, _) => match binary_level(op.kind) {
            Some(level) => level,
            None => 0,
        },
    }
}

/// An opening parenthesis.
pub open spec fn opening() -> TokenView {
    TokenView { kind: TokenType::LeftParen, lexeme: seq!['('] }
}

/// A closing parenthesis.
pub open spec fn closing() -> TokenView {
    TokenView { kind: TokenType::RightParen, lexeme: seq![')'] }
}

/// The tokens of `expr` without parentheses around the whole: the left
/// operand of a binary operator is written as an expression of the
/// operator's own binding power, the right operand as one of the next
/// stronger, the operand of a prefix operator as a unary expression.
pub open spec fn bare(expr: ExprView) -> Seq<TokenView>
    decreases expr, 0nat,
{
    match expr {
        ExprView::Literal(token) => seq![token],
        ExprView::Unary(op, right) => seq![op] + render(*right, 4),
        ExprView::Binary(left, op, right) => render(*left, tree_level(expr)) + seq![op] + render(
            *right,
            tree_level(expr) + 1,
        ),
    }
}

/// The tokens of `expr` where an expression of binding power `min` at
/// least is asked for: in parentheses where its own binding power is
/// weaker, and only there.
pub open spec fn render(expr: ExprView, min: nat) -> Seq<TokenView>
    decreases expr, 1nat,
{
    if tree_level(expr) < min {
        seq![opening()] + bare(expr) + seq![closing()]
    } else {
        bare(expr)
    }
}

/// The parse of an expression of binding power `level` at least: a chain
/// for 0 to 3, a unary expression for 4, a primary for 5.
pub open spec fn parse_level(ts: Seq<TokenView>, pos: int, level: nat) -> crate::grammar::Parsed {
    if level <= 3 {
        parse_binary(ts, pos, level)
    } else if level == 4 {
        parse_unary(ts, pos)
    } else {
        parse_primary(ts, pos)
    }
}

/// Whether the tokens `part` stand in `ts` from `pos` on.
pub open spec fn stands_at(ts: Seq<TokenView>, pos: int, part: Seq<TokenView>) -> bool {
    0 <= pos && pos + part.len() <= ts.len() && ts.subrange(pos, pos + part.len()) == part
}

/// Whether no binary operator of binding power `level` or stronger stands
/// at `pos`.
pub open spec fn stops_below(ts: Seq<TokenView>, pos: int, level: nat) -> bool {
    binary_level(kind_at(ts, pos)) matches Some(found) ==> found < level
}

/// The order in which the proof below visits the levels of one tree.
pub open spec fn visit_rank(expr: ExprView, level: nat) -> nat {
    if level > tree_level(expr) {
        (11 - level) as nat
    } else {
        (tree_level(expr) - level) as nat
    }
}

/// Where two parts stand one behind the other, each stands at its place.
pub proof fn lemma_stands_split(
    ts: Seq<TokenView>,
    pos: int,
    first: Seq<TokenView>,
    second: Seq<TokenView>,
)
    requires
        stands_at(ts, pos, first + second),
    ensures
        stands_at(ts, pos, first),
        stands_at(ts, pos + first.len(), second),
{
    let whole = first + second;
    assert(ts.subrange(pos, pos + first.len()) =~= whole.subrange(0, first.len() as int));
    assert(whole.subrange(0, first.len() as int) =~= first);
    assert(ts.subrange(pos + first.len(), pos + first.len() + second.len()) =~= whole.subrange(
        first.len() as int,
        whole.len() as int,
    ));
    assert(whole.subrange(first.len() as int, whole.len() as int) =~= second);
}

/// Where one token stands, it is the token at that position.
pub proof fn lemma_stands_one(ts: Seq<TokenView>, pos: int, token: TokenView)
    requires
        stands_at(ts, pos, seq![token]),
    ensures
        0 <= pos < ts.len(),
        ts[pos] == token,
{
    assert(ts.subrange(pos, pos + 1)[0] == token);
}

/// A tree has a token at least.
pub proof fn lemma_render_not_empty(expr: ExprView, min: nat)
    ensures
        render(expr, min).len() >= 1,
        bare(expr).len() >= 1,
{
}

/// Parsing a chain of binding power `level` over the tokens of `expr`,
/// written for that level, gets as far as their end with `expr` as the
/// left operand so far, where no stronger operator follows.
pub proof fn lemma_chain_reaches(expr: ExprView, level: nat, ts: Seq<TokenView>, pos: int)
    requires
        grammatical(expr),
        level <= 3,
        stands_at(ts, pos, render(expr, level)),
        stops_below(ts, pos + render(expr, level).len(), level + 1),
    ensures
        parse_binary(ts, pos, level) == parse_chain(
            ts,
            pos + render(expr, level).len(),
            level,
            expr,
        ),
    decreases expr, 2 * visit_rank(expr, level),
{
    let end = pos + render(expr, level).len();
    lemma_render_not_empty(expr, level);
    if tree_level(expr) == level {
        match expr {
            ExprView::Binary(left, op, right) => {
                let a = render(*left, level);
                let b = render(*right, level + 1);
                assert(render(expr, level) == (a + seq![op]) + b);
                lemma_stands_split(ts, pos, a + seq![op], b);
                lemma_stands_split(ts, pos, a, seq![op]);
                lemma_stands_one(ts, pos + a.len(), op);
                lemma_render_not_empty(*left, level);
                lemma_render_not_empty(*right, level + 1);
                lemma_chain_reaches(*left, level, ts, pos);
                lemma_level_parses(*right, level + 1, ts, pos + a.len() + 1);
                assert(parse_operand(ts, pos + a.len() + 1, level) == parse_level(
                    ts,
                    pos + a.len() + 1,
                    level + 1,
                ));
            },
            _ => {},
        }
    } else {
        assert(render(expr, level) == render(expr, level + 1));
        lemma_level_parses(expr, level + 1, ts, pos);
        assert(parse_operand(ts, pos, level) == parse_level(ts, pos, level + 1));
    }
}

/// Parsing an expression of binding power `level` at least over the
/// tokens of `expr`, written for that level, gives `expr` and ends behind
/// them, where no operator of that binding power or stronger follows.
pub proof fn lemma_level_parses(expr: ExprView, level: nat, ts: Seq<TokenView>, pos: int)
    requires
        grammatical(expr),
        level <= 5,
        stands_at(ts, pos, render(expr, level)),
        stops_below(ts, pos + render(expr, level).len(), level),
    ensures
        parse_level(ts, pos, level) == Ok::<(ExprView, int), crate::grammar::ParseError>(
            (expr, pos + render(expr, level).len()),
        ),
    decreases expr, 2 * visit_rank(expr, level) + 1,
{
    let end = pos + render(expr, level).len();
    lemma_render_not_empty(expr, level);
    if level <= 3 {
        lemma_chain_reaches(expr, level, ts, pos);
    } else if level == 4 {
        match expr {
            ExprView::Unary(op, right) => {
                let b = render(*right, 4);
                lemma_stands_split(ts, pos, seq![op], b);
                lemma_stands_one(ts, pos, op);
                lemma_level_parses(*right, 4, ts, pos + 1);
            },
            _ => {
                assert(render(expr, 4) == render(expr, 5));
                if tree_level(expr) < 4 {
                    lemma_stands_split(ts, pos, seq![opening()] + bare(expr), seq![closing()]);
                    lemma_stands_split(ts, pos, seq![opening()], bare(expr));
                    lemma_stands_one(ts, pos, opening());
                } else {
                    lemma_stands_one(ts, pos, expr->Literal_0);
                }
                lemma_level_parses(expr, 5, ts, pos);
            },
        }
    } else {
        match expr {
            ExprView::Literal(token) => {
                lemma_stands_one(ts, pos, token);
            },
            _ => {
                let inner = bare(expr);
                lemma_stands_split(ts, pos, seq![opening()] + inner, seq![closing()]);
                lemma_stands_split(ts, pos, seq![opening()], inner);
                lemma_stands_one(ts, pos, opening());
                lemma_stands_one(ts, pos + 1 + inner.len(), closing());
                assert(render(expr, 0) == inner);
                lemma_level_parses(expr, 0, ts, pos + 1);
            },
        }
    }
}

/// The tokens of a tree of the grammar, written with the fewest
/// parentheses, parse to that tree: factors bind tighter than terms, terms
/// tighter than comparisons, comparisons tighter than equalities, prefix
/// operators tightest, and chains of one binding power group to the left.
/// It holds wherever the tokens stand, as long as no binary operator
/// follows them.
pub proof fn lemma_render_parses(expr: ExprView, ts: Seq<TokenView>, pos: int)
    requires
        grammatical(expr),
        stands_at(ts, pos, bare(expr)),
        binary_level(kind_at(ts, pos + bare(expr).len())) is None,
    ensures
        parse_expr(ts, pos) == Ok::<(ExprView, int), crate::grammar::ParseError>(
            (expr, pos + bare(expr).len()),
        ),
{
    assert(render(expr, 0) == bare(expr));
    lemma_level_parses(expr, 0, ts, pos);
}

/// The expression of a statement.
pub open spec fn expression_of(stmt: StmtView) -> ExprView {
    match stmt {
        StmtView::Expression(expr) => expr,
        StmtView::Print(expr) => expr,
    }
}

/// The tokens of a statement: the keyword of a print statement, the
/// expression, and a semicolon.
pub open spec fn render_statement(stmt: StmtView) -> Seq<TokenView> {
    let semicolon = TokenView { kind: TokenType::Semicolon, lexeme: seq![';'] };
    match stmt {
        StmtView::Expression(expr) => bare(expr) + seq![semicolon],
        StmtView::Print(expr) => seq![TokenView { kind: TokenType::Print, lexeme: "print"@ }]
            + bare(expr) + seq![semicolon],
    }
}

/// The tokens of statements, one statement behind the other.
pub open spec fn render_statements(stmts: Seq<StmtView>) -> Seq<TokenView>
    decreases stmts.len(),
{
    if stmts.len() == 0 {
        Seq::empty()
    } else {
        render_statement(stmts[0]) + render_statements(stmts.drop_first())
    }
}

/// The tokens of a tree of the grammar start with a number, an opening
/// parenthesis or a sign.
pub proof fn lemma_first_token(expr: ExprView, min: nat)
    requires
        grammatical(expr),
    ensures
        starts_expression(bare(expr)[0].kind),
        starts_expression(render(expr, min)[0].kind),
    decreases expr,
{
    match expr {
        ExprView::Literal(_) => {},
        ExprView::Unary(_, _) => {},
        ExprView::Binary(left, _, _) => {
            lemma_first_token(*left, tree_level(expr));
            lemma_render_not_empty(*left, tree_level(expr));
        },
    }
}

/// Whether a token of kind `kind` can start an expression.
pub open spec fn starts_expression(kind: TokenType) -> bool {
    kind == TokenType::NumberLiteral || kind == TokenType::LeftParen || is_sign(kind)
}

/// The tokens of a statement whose expression is a tree of the grammar
/// parse to that statement.
pub proof fn lemma_statement_render_parses(stmt: StmtView, ts: Seq<TokenView>, pos: int)
    requires
        grammatical(expression_of(stmt)),
        stands_at(ts, pos, render_statement(stmt)),
    ensures
        parse_statement(ts, pos) == Ok::<(StmtView, int), ParseError>(
            (stmt, pos + render_statement(stmt).len()),
        ),
{
    let semicolon = TokenView { kind: TokenType::Semicolon, lexeme: seq![';'] };
    let expr = expression_of(stmt);
    lemma_first_token(expr, 0);
    lemma_render_not_empty(expr, 0);
    match stmt {
        StmtView::Expression(_) => {
            lemma_stands_split(ts, pos, bare(expr), seq![semicolon]);
            lemma_stands_one(ts, pos + bare(expr).len(), semicolon);
            assert(ts[pos] == bare(expr)[0]) by {
                assert(ts.subrange(pos, pos + bare(expr).len())[0] == bare(expr)[0]);
            }
            lemma_render_parses(expr, ts, pos);
        },
        StmtView::Print(_) => {
            let keyword = TokenView { kind: TokenType::Print, lexeme: "print"@ };
            lemma_stands_split(ts, pos, seq![keyword] + bare(expr), seq![semicolon]);
            lemma_stands_split(ts, pos, seq![keyword], bare(expr));
            lemma_stands_one(ts, pos, keyword);
            lemma_stands_one(ts, pos + 1 + bare(expr).len(), semicolon);
            lemma_render_parses(expr, ts, pos + 1);
        },
    }
}

/// The tokens of a program whose expressions are trees of the grammar,
/// followed by the end of the input, parse to that program: parsing undoes
/// writing a program down.
pub proof fn lemma_program_render_parses(stmts: Seq<StmtView>, ts: Seq<TokenView>, pos: int)
    requires
        forall|i: int| 0 <= i < stmts.len() ==> grammatical(expression_of(#[trigger] stmts[i])),
        stands_at(ts, pos, render_statements(stmts)),
        kind_at(ts, pos + render_statements(stmts).len()) == TokenType::Eof,
    ensures
        parse_program(ts, pos) == Ok::<(Seq<StmtView>, int), ParseError>(
            (stmts, pos + render_statements(stmts).len()),
        ),
    decreases stmts.len(),
{
    if stmts.len() > 0 {
        let first = stmts[0];
        let rest = stmts.drop_first();
        let head = render_statement(first);
        lemma_stands_split(ts, pos, head, render_statements(rest));
        lemma_statement_render_parses(first, ts, pos);
        lemma_first_token(expression_of(first), 0);
        lemma_render_not_empty(expression_of(first), 0);
        assert(ts[pos] == head[0]) by {
            assert(ts.subrange(pos, pos + head.len())[0] == head[0]);
        }
        assert(kind_at(ts, pos) != TokenType::Eof);
        assert forall|i: int| 0 <= i < rest.len() implies grammatical(
            expression_of(#[trigger] rest[i]),
        ) by {
            assert(rest[i] == stmts[i + 1]);
        }
        lemma_program_render_parses(rest, ts, pos + head.len());
        assert(seq![first] + rest =~= stmts);
    } else {
        assert(stmts =~= Seq::<StmtView>::empty());
    }
}

} // verus!
