//! What scanning means, as mathematics: the token that starts at a position
//! of a character sequence, and the tokens of a whole text.

use vstd::prelude::*;
use crate::chars::{is_blank, is_digit, is_letter, is_word};
use crate::token::{TokenType, TokenView};

verus! {

/// The character at `i`, or the null character where `i` is outside the text.
pub open spec fn char_at(s: Seq<char>, i: int) -> char {
    if 0 <= i < s.len() {
        s[i]
    } else {
        '\0'
    }
}

/// The kinds of character run that the scanner walks over.
pub enum Run {
    /// Blanks between tokens.
    Blank,
    /// Decimal digits.
    Digits,
    /// The characters that continue an identifier.
    Word,
    /// The inside of a string literal: anything but a quote.
    Quoted,
    /// The inside of a line comment: anything but a newline.
    Comment,
}

/// Whether `c` belongs to runs of kind `run`. The null character, which
/// stands for the end of the text, ends every run.
pub open spec fn in_run(run: Run, c: char) -> bool {
    match run {
        Run::Blank => is_blank(c),
        Run::Digits => is_digit(c),
        Run::Word => is_word(c),
        Run::Quoted => c != '"' && c != '\0',
        Run::Comment => c != '\n' && c != '\0',
    }
}

/// The end of the longest run of kind `run` that starts at `i`.
pub open spec fn run_end(s: Seq<char>, i: int, run: Run) -> int
    decreases s.len() - i,
{
    if 0 <= i < s.len() && in_run(run, s[i]) {
        run_end(s, i + 1, run)
    } else {
        i
    }
}

/// How many newlines `s` holds from `from` up to, not including, `to`.
pub open spec fn newlines(s: Seq<char>, from: int, to: int) -> nat
    decreases to - from,
{
    if from < to {
        newlines(s, from, to - 1) + if char_at(s, to - 1) == '\n' {
            1nat
        } else {
            0nat
        }
    } else {
        0
    }
}

/// The kind of the keyword that `lexeme` spells, if it spells one.
pub open spec fn keyword_kind(lexeme: Seq<char>) -> Option<TokenType> {
    if lexeme == "and"@ {
        Some(TokenType::And)
    } else if lexeme == "class"@ {
        Some(TokenType::Class)
    } else if lexeme == "else"@ {
        Some(TokenType::Else)
    } else if lexeme == "false"@ {
        Some(TokenType::False)
    } else if lexeme == "fun"@ {
        Some(TokenType::Fun)
    } else if lexeme == "for"@ {
        Some(TokenType::For)
    } else if lexeme == "if"@ {
        Some(TokenType::If)
    } else if lexeme == "nil"@ {
        Some(TokenType::Nil)
    } else if lexeme == "or"@ {
        Some(TokenType::Or)
    } else if lexeme == "print"@ {
        Some(TokenType::Print)
    } else if lexeme == "return"@ {
        Some(TokenType::Return)
    } else if lexeme == "super"@ {
        Some(TokenType::Super)
    } else if lexeme == "this"@ {
        Some(TokenType::This)
    } else if lexeme == "true"@ {
        Some(TokenType::True)
    } else if lexeme == "var"@ {
        Some(TokenType::Var)
    } else if lexeme == "while"@ {
        Some(TokenType::While)
    } else {
        None
    }
}

/// The kind of an identifier-shaped lexeme: the keyword it spells, or
/// `Identifier`.
pub open spec fn word_kind(lexeme: Seq<char>) -> TokenType {
    match keyword_kind(lexeme) {
        Some(kind) => kind,
        None => TokenType::Identifier,
    }
}

/// The kind of the punctuation token that the single character `c` spells,
/// if it spells one.
pub open spec fn punct_kind(c: char) -> Option<TokenType> {
    if c == '(' {
        Some(TokenType::LeftParen)
    } else if c == ')' {
        Some(TokenType::RightParen)
    } else if c == '{' {
        Some(TokenType::LeftBrace)
    } else if c == '}' {
        Some(TokenType::RightBrace)
    } else if c == ';' {
        Some(TokenType::Semicolon)
    } else if c == ',' {
        Some(TokenType::Comma)
    } else if c == '.' {
        Some(TokenType::Dot)
    } else if c == '-' {
        Some(TokenType::Minus)
    } else if c == '+' {
        Some(TokenType::Plus)
    } else if c == '*' {
        Some(TokenType::Star)
    } else if c == '/' {
        Some(TokenType::Slash)
    } else if c == '=' {
        Some(TokenType::Equal)
    } else if c == '!' {
        Some(TokenType::Bang)
    } else if c == '<' {
        Some(TokenType::Less)
    } else if c == '>' {
        Some(TokenType::Greater)
    } else {
        None
    }
}

/// The kind that a punctuation token of kind `kind` takes when `=` follows
/// it directly, if it takes one.
pub open spec fn with_equal(kind: TokenType) -> Option<TokenType> {
    match kind {
        TokenType::Equal => Some(TokenType::EqualEqual),
        TokenType::Bang => Some(TokenType::BangEqual),
        TokenType::Less => Some(TokenType::LessEqual),
        TokenType::Greater => Some(TokenType::GreaterEqual),
        _ => None,
    }
}

/// One step of scanning: the token found, where its text starts and ends in
/// the source, and how many newlines were counted on the way.
pub struct Scan {
    pub token: TokenView,
    pub start: int,
    pub end: int,
    pub lines: nat,
}

/// The lexeme of a string literal that the text ends before closing.
pub open spec fn unterminated() -> Seq<char> {
    "Unterimated string"@
}

/// The token whose first character stands at `b`, inside the text, where
/// no comment starts.
pub open spec fn scan_token(s: Seq<char>, b: int) -> Scan {
    let c = char_at(s, b);
    let e = b + 1;
    if c == '"' {
        let q = run_end(s, e, Run::Quoted);
        if char_at(s, q) == '"' {
            Scan {
                token: TokenView { kind: TokenType::StringLiteral, lexeme: s.subrange(b, q + 1) },
                start: b,
                end: q + 1,
                lines: newlines(s, e, q),
            }
        } else {
            Scan {
                token: TokenView { kind: TokenType::Unknown, lexeme: unterminated() },
                start: b,
                end: q,
                lines: newlines(s, e, q),
            }
        }
    } else if is_letter(c) {
        let w = run_end(s, e, Run::Word);
        Scan {
            token: TokenView { kind: word_kind(s.subrange(b, w)), lexeme: s.subrange(b, w) },
            start: b,
            end: w,
            lines: 0,
        }
    } else if is_digit(c) {
        let d = run_end(s, e, Run::Digits);
        let f = if char_at(s, d) == '.' && is_digit(char_at(s, d + 1)) {
            run_end(s, d + 1, Run::Digits)
        } else {
            d
        };
        Scan {
            token: TokenView { kind: TokenType::NumberLiteral, lexeme: s.subrange(b, f) },
            start: b,
            end: f,
            lines: 0,
        }
    } else {
        match punct_kind(c) {
            Some(kind) => match with_equal(kind) {
                Some(longer) if char_at(s, e) == '=' => Scan {
                    token: TokenView { kind: longer, lexeme: s.subrange(b, e + 1) },
                    start: b,
                    end: e + 1,
                    lines: 0,
                },
                _ => Scan {
                    token: TokenView { kind, lexeme: s.subrange(b, e) },
                    start: b,
                    end: e,
                    lines: 0,
                },
            },
            None => Scan {
                token: TokenView { kind: TokenType::Unknown, lexeme: Seq::empty() },
                start: b,
                end: e,
                lines: 0,
            },
        }
    }
}

/// Whether scanning from `pos` reports the end of the input: it does as soon
/// as the character after `pos` is the null character, before any blank is
/// skipped.
pub open spec fn at_end(s: Seq<char>, pos: int) -> bool {
    char_at(s, pos + 1) == '\0'
}

/// Whether a line comment starts at `b`.
pub open spec fn comment_at(s: Seq<char>, b: int) -> bool {
    char_at(s, b) == '/' && char_at(s, b + 1) == '/'
}

/// Where the line comment that starts at `b` ends: behind its newline, or
/// at the end of the text.
pub open spec fn comment_end(s: Seq<char>, b: int) -> int {
    let n = run_end(s, b + 2, Run::Comment);
    if char_at(s, n) == '\n' {
        n + 1
    } else {
        n
    }
}

/// The next token from position `pos` on: blanks are skipped, a line
/// comment is skipped and scanning starts afresh behind it. Blanks that run
/// up to the end of the text are followed by the end of the input.
pub open spec fn scan_from(s: Seq<char>, pos: int) -> Scan
    decreases s.len() - pos,
    when 0 <= pos <= s.len()
{
    if at_end(s, pos) {
        Scan {
            token: TokenView { kind: TokenType::Eof, lexeme: Seq::empty() },
            start: pos,
            end: pos,
            lines: 0,
        }
    } else {
        let b = run_end(s, pos, Run::Blank);
        if b >= s.len() {
            Scan {
                token: TokenView { kind: TokenType::Eof, lexeme: Seq::empty() },
                start: b,
                end: b,
                lines: newlines(s, pos, b),
            }
        } else if comment_at(s, b) {
            let after = comment_end(s, b);
            proof {
                lemma_run_end(s, pos, Run::Blank);
                lemma_run_end(s, b + 2, Run::Comment);
            }
            let rest = scan_from(s, after);
            Scan { lines: newlines(s, pos, after) + rest.lines, ..rest }
        } else {
            let found = scan_token(s, b);
            Scan { lines: newlines(s, pos, b) + found.lines, ..found }
        }
    }
}

/// The tokens of the text from `pos` on, closed by one end-of-input token.
pub open spec fn scan_all(s: Seq<char>, pos: int) -> Seq<TokenView>
    decreases s.len() - pos,
    when 0 <= pos <= s.len()
{
    let next = scan_from(s, pos);
    if next.token.kind != TokenType::Eof {
        proof {
            lemma_scan_from_bounds(s, pos);
        }
        seq![next.token] + scan_all(s, next.end)
    } else {
        seq![TokenView { kind: TokenType::Eof, lexeme: Seq::empty() }]
    }
}

/// Where scanning the whole text from `pos` stops.
pub open spec fn scan_stop(s: Seq<char>, pos: int) -> int
    decreases s.len() - pos,
    when 0 <= pos <= s.len()
{
    let next = scan_from(s, pos);
    if next.token.kind != TokenType::Eof {
        proof {
            lemma_scan_from_bounds(s, pos);
        }
        scan_stop(s, next.end)
    } else {
        next.end
    }
}

/// The newlines counted while scanning the whole text from `pos`.
pub open spec fn scan_lines(s: Seq<char>, pos: int) -> nat
    decreases s.len() - pos,
    when 0 <= pos <= s.len()
{
    let next = scan_from(s, pos);
    if next.token.kind != TokenType::Eof {
        proof {
            lemma_scan_from_bounds(s, pos);
        }
        next.lines + scan_lines(s, next.end)
    } else {
        next.lines
    }
}

/// A run starts where it is asked to, ends inside the text, holds only
/// characters of its kind, and is not followed by one.
pub proof fn lemma_run_end(s: Seq<char>, i: int, run: Run)
    requires
        0 <= i <= s.len(),
    ensures
        i <= run_end(s, i, run) <= s.len(),
        forall|j: int| i <= j < run_end(s, i, run) ==> in_run(run, #[trigger] s[j]),
        !in_run(run, char_at(s, run_end(s, i, run))) || run_end(s, i, run) == s.len(),
    decreases s.len() - i,
{
    if i < s.len() && in_run(run, s[i]) {
        lemma_run_end(s, i + 1, run);
    }
}

/// A stretch without a newline counts none.
pub proof fn lemma_newlines_none(s: Seq<char>, from: int, to: int)
    requires
        0 <= from,
        to <= s.len(),
        forall|j: int| from <= j < to ==> #[trigger] s[j] != '\n',
    ensures
        newlines(s, from, to) == 0,
    decreases to - from,
{
    if from < to {
        lemma_newlines_none(s, from, to - 1);
    }
}

/// The token at `b` starts at `b`, is not empty, and ends inside the text.
pub proof fn lemma_scan_token_bounds(s: Seq<char>, b: int)
    requires
        0 <= b < s.len(),
    ensures
        scan_token(s, b).start == b,
        b < scan_token(s, b).end <= s.len(),
{
    let e = b + 1;
    lemma_run_end(s, e, Run::Quoted);
    lemma_run_end(s, e, Run::Word);
    lemma_run_end(s, e, Run::Digits);
    let d = run_end(s, e, Run::Digits);
    if d + 1 <= s.len() {
        lemma_run_end(s, d + 1, Run::Digits);
    }
}

/// A step of scanning never moves backwards or out of the text, and a step
/// that finds a token other than the end of the input moves forwards.
pub proof fn lemma_scan_from_bounds(s: Seq<char>, pos: int)
    requires
        0 <= pos <= s.len(),
    ensures
        pos <= scan_from(s, pos).start <= scan_from(s, pos).end <= s.len(),
        scan_from(s, pos).token.kind != TokenType::Eof ==> pos < scan_from(s, pos).end,
    decreases s.len() - pos,
{
    if !at_end(s, pos) {
        let b = run_end(s, pos, Run::Blank);
        lemma_run_end(s, pos, Run::Blank);
        if b < s.len() {
            lemma_scan_token_bounds(s, b);
            if comment_at(s, b) {
                lemma_run_end(s, b + 2, Run::Comment);
                lemma_scan_from_bounds(s, comment_end(s, b));
            }
        }
    }
}

/// Counting newlines over two adjoining stretches adds up.
pub proof fn lemma_newlines_split(s: Seq<char>, from: int, mid: int, to: int)
    requires
        from <= mid <= to,
    ensures
        newlines(s, from, to) == newlines(s, from, mid) + newlines(s, mid, to),
    decreases to - mid,
{
    if mid < to {
        lemma_newlines_split(s, from, mid, to - 1);
    }
}

} // verus!
