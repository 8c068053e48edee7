//! The scanner: a cursor over source text that hands out one token per call.

use vstd::prelude::*;
use vstd::string::StrSliceExecFns;
use crate::chars::{blank, digit, is_letter, letter, word};
use crate::scan::{
    char_at, comment_end, in_run, lemma_newlines_none, lemma_newlines_split, lemma_run_end,
    lemma_scan_from_bounds, newlines, punct_kind, run_end, scan_all, scan_from, scan_lines,
    scan_stop, scan_token, with_equal, word_kind, Run,
};
use crate::token::{views, Token, TokenType};

verus! {

/// What a scanner is, as a mathematical value: the text it reads, how many
/// characters it has consumed, and the line it has counted up to.
pub struct LexerView {
    pub source: Seq<char>,
    pub position: int,
    pub line: nat,
}

/// A line count that stops at the largest number the machine can hold.
pub open spec fn saturate(n: nat) -> nat {
    if n > usize::MAX {
        usize::MAX as nat
    } else {
        n
    }
}

/// Whether two texts hold the same characters.
pub fn same_text(a: &str, b: &str) -> (same: bool)
    ensures
        same == (a@ == b@),
{
    let n = a.unicode_len();
    if n != b.unicode_len() {
        return false;
    }
    let mut i: usize = 0;
    while i < n
        invariant
            i <= n,
            n == a@.len(),
            n == b@.len(),
            forall|j: int| 0 <= j < i ==> a@[j] == b@[j],
        decreases n - i,
    {
        if a.get_char(i) != b.get_char(i) {
            return false;
        }
        i += 1;
    }
    assert(a@ =~= b@);
    true
}

/// The kind of an identifier-shaped lexeme: a keyword's own kind where the
/// lexeme spells one, `Identifier` otherwise.
pub fn keyword(lexeme: &str) -> (kind: TokenType)
    ensures
        kind == word_kind(lexeme@),
{
    if same_text(lexeme, "and") {
        TokenType::And
    } else if same_text(lexeme, "class") {
        TokenType::Class
    } else if same_text(lexeme, "else") {
        TokenType::Else
    } else if same_text(lexeme, "false") {
        TokenType::False
    } else if same_text(lexeme, "fun") {
        TokenType::Fun
    } else if same_text(lexeme, "for") {
        TokenType::For
    } else if same_text(lexeme, "if") {
        TokenType::If
    } else if same_text(lexeme, "nil") {
        TokenType::Nil
    } else if same_text(lexeme, "or") {
        TokenType::Or
    } else if same_text(lexeme, "print") {
        TokenType::Print
    } else if same_text(lexeme, "return") {
        TokenType::Return
    } else if same_text(lexeme, "super") {
        TokenType::Super
    } else if same_text(lexeme, "this") {
        TokenType::This
    } else if same_text(lexeme, "true") {
        TokenType::True
    } else if same_text(lexeme, "var") {
        TokenType::Var
    } else if same_text(lexeme, "while") {
        TokenType::While
    } else {
        TokenType::Identifier
    }
}

/// The kind of the punctuation token that `c` spells alone, if any.
fn punct(c: char) -> (kind: Option<TokenType>)
    ensures
        kind == punct_kind(c),
{
    match c {
        '(' => Some(TokenType::LeftParen),
        ')' => Some(TokenType::RightParen),
        '{' => Some(TokenType::LeftBrace),
        '}' => Some(TokenType::RightBrace),
        ';' => Some(TokenType::Semicolon),
        ',' => Some(TokenType::Comma),
        '.' => Some(TokenType::Dot),
        '-' => Some(TokenType::Minus),
        '+' => Some(TokenType::Plus),
        '*' => Some(TokenType::Star),
        '/' => Some(TokenType::Slash),
        '=' => Some(TokenType::Equal),
        '!' => Some(TokenType::Bang),
        '<' => Some(TokenType::Less),
        '>' => Some(TokenType::Greater),
        _ => None,
    }
}

/// The kind that `kind` takes when `=` follows it directly, if any.
fn longer(kind: TokenType) -> (long: Option<TokenType>)
    ensures
        long == with_equal(kind),
{
    match kind {
        TokenType::Equal => Some(TokenType::EqualEqual),
        TokenType::Bang => Some(TokenType::BangEqual),
        TokenType::Less => Some(TokenType::LessEqual),
        TokenType::Greater => Some(TokenType::GreaterEqual),
        _ => None,
    }
}

/// Whether `c` belongs to runs of kind `run`.
fn belongs(run: &Run, c: char) -> (b: bool)
    ensures
        b == in_run(*run, c),
{
    match run {
        Run::Blank => blank(c),
        Run::Digits => digit(c),
        Run::Word => word(c),
        Run::Quoted => c != '"' && c != '\0',
        Run::Comment => c != '\n' && c != '\0',
    }
}

/// A scanner over one text.
pub struct Lexer {
    input: String,
    length: usize,
    start: usize,
    current: usize,
    line: usize,
}

impl View for Lexer {
    type V = LexerView;

    closed spec fn view(&self) -> LexerView {
        LexerView {
            source: self.input@,
            position: self.current as int,
            line: self.line as nat,
        }
    }
}

impl Lexer {
    #[verifier::type_invariant]
    spec fn inv(&self) -> bool {
        &&& self.length == self.input@.len()
        &&& self.start <= self.current <= self.length
    }

    /// A scanner at the start of `input`, on line 1.
    pub fn new(input: String) -> (lexer: Lexer)
        ensures
            lexer@ == (LexerView { source: input@, position: 0, line: 1 }),
    {
        let length = input.as_str().unicode_len();
        Lexer { input, length, start: 0, current: 0, line: 1 }
    }

    /// The line that the scanner has counted up to.
    pub fn line(&self) -> (line: usize)
        ensures
            line == self@.line,
    {
        self.line
    }

    /// The next token. The end of the input is reported as soon as the
    /// character after the cursor is the null character; otherwise blanks
    /// and line comments are skipped and one token is consumed. Where the
    /// blanks run up to the end of the text, the end of the input is
    /// reported behind them.
    pub fn next_token(&mut self) -> (token: Token)
        ensures
            final(self)@.source == old(self)@.source,
            0 <= old(self)@.position <= final(self)@.position <= final(self)@.source.len(),
            token@ == scan_from(old(self)@.source, old(self)@.position).token,
            final(self)@.position == scan_from(old(self)@.source, old(self)@.position).end,
            final(self)@.line == saturate(
                old(self)@.line + scan_from(old(self)@.source, old(self)@.position).lines,
            ),
        decreases old(self)@.source.len() - old(self)@.position,
    {
        proof {
            use_type_invariant(&*self);
        }
        let ghost s = self.input@;
        let ghost pos = self.current as int;
        proof {
            lemma_scan_from_bounds(s, pos);
        }
        if self.peek_next() == '\0' {
            return Token::new(TokenType::Eof, String::new());
        }
        self.skip_whitespace();
        proof {
            use_type_invariant(&*self);
            lemma_run_end(s, pos, Run::Blank);
        }
        if self.current >= self.length {
            return Token::new(TokenType::Eof, String::new());
        }
        self.start = self.current;
        let ghost b = self.current as int;
        let ch = self.advance();
        if ch == '"' {
            self.string()
        } else if letter(ch) {
            self.identifier()
        } else if digit(ch) {
            self.number()
        } else if ch == '/' && self.peek() == '/' {
            self.advance();
            self.skip_comment();
            proof {
                use_type_invariant(&*self);
                lemma_run_end(s, b + 2, Run::Comment);
                lemma_newlines_split(s, pos, b, comment_end(s, b));
                lemma_newlines_split(s, b, b + 2, comment_end(s, b));
                lemma_newlines_none(s, b, b + 2);
            }
            self.next_token()
        } else {
            match punct(ch) {
                Some(kind) => match longer(kind) {
                    Some(long) => {
                        if self.peek() == '=' {
                            self.advance();
                            Token::new(long, self.lexeme())
                        } else {
                            Token::new(kind, self.lexeme())
                        }
                    },
                    None => Token::new(kind, self.lexeme()),
                },
                None => Token::new(TokenType::Unknown, String::new()),
            }
        }
    }

    /// Every token from the cursor on, in order, closed by exactly one
    /// end-of-input token.
    pub fn tokens(&mut self) -> (tokens: Vec<Token>)
        ensures
            final(self)@.source == old(self)@.source,
            0 <= old(self)@.position <= final(self)@.position <= final(self)@.source.len(),
            views(tokens@) == scan_all(old(self)@.source, old(self)@.position),
            final(self)@.position == scan_stop(old(self)@.source, old(self)@.position),
            final(self)@.line == saturate(
                old(self)@.line + scan_lines(old(self)@.source, old(self)@.position),
            ),
    {
        let mut ret: Vec<Token> = Vec::new();
        let ghost s = self.input@;
        let ghost pos = self.current as int;
        let ghost line = self.line as nat;
        proof {
            use_type_invariant(&*self);
        }
        assert(views(ret@) =~= Seq::empty());
        loop
            invariant_except_break
                self@.source == s,
                0 <= pos <= self@.position <= s.len(),
                views(ret@) + scan_all(s, self@.position) == scan_all(s, pos),
                scan_stop(s, self@.position) == scan_stop(s, pos),
                saturate(self@.line + scan_lines(s, self@.position)) == saturate(
                    line + scan_lines(s, pos),
                ),
            ensures
                self@.source == s,
                0 <= pos <= self@.position <= s.len(),
                views(ret@) + seq![
                    crate::token::TokenView { kind: TokenType::Eof, lexeme: Seq::empty() },
                ] == scan_all(s, pos),
                self@.position == scan_stop(s, pos),
                self@.line == saturate(line + scan_lines(s, pos)),
            decreases self@.source.len() - self@.position,
        {
            proof {
                use_type_invariant(&*self);
                lemma_scan_from_bounds(s, self@.position);
            }
            let ghost before = self@.position;
            let ghost seen = ret@;
            let token = self.next_token();
            if token.token_type == TokenType::Eof {
                break;
            }
            ret.push(token);
            proof {
                assert(views(ret@) =~= views(seen) + seq![token@]);
                assert(scan_all(s, before) == seq![token@] + scan_all(s, self@.position));
                assert(views(ret@) + scan_all(s, self@.position) =~= views(seen) + scan_all(
                    s,
                    before,
                ));
            }
        }
        let ghost seen = ret@;
        let eof = Token::new(TokenType::Eof, String::new());
        ret.push(eof);
        assert(views(ret@) =~= views(seen) + seq![eof@]);
        ret
    }

    /// Moves the cursor over the blanks in front of it and counts their
    /// newlines.
    fn skip_whitespace(&mut self)
        ensures
            final(self).input == old(self).input,
            final(self).length == old(self).length,
            final(self).start == old(self).start,
            final(self).current == run_end(old(self).input@, old(self).current as int, Run::Blank),
            final(self).line == saturate(
                old(self).line as nat + newlines(
                    old(self).input@,
                    old(self).current as int,
                    final(self).current as int,
                ),
            ),
    {
        let lines = self.skip_run(Run::Blank);
        proof {
            use_type_invariant(&*self);
        }
        self.line = self.line.saturating_add(lines);
    }

    /// Moves the cursor to the end of the line comment it stands in: behind
    /// the newline, which is counted, or to the end of the text.
    fn skip_comment(&mut self)
        ensures
            final(self).input == old(self).input,
            final(self).length == old(self).length,
            final(self).start == old(self).start,
            final(self).current == ({
                let n = run_end(old(self).input@, old(self).current as int, Run::Comment);
                if char_at(old(self).input@, n) == '\n' {
                    n + 1
                } else {
                    n
                }
            }),
            final(self).line == saturate(
                old(self).line as nat + newlines(
                    old(self).input@,
                    old(self).current as int,
                    final(self).current as int,
                ),
            ),
    {
        let ghost s = self.input@;
        let ghost from = self.current as int;
        proof {
            use_type_invariant(&*self);
            lemma_run_end(s, from, Run::Comment);
        }
        let _ = self.skip_run(Run::Comment);
        proof {
            lemma_newlines_none(s, from, self.current as int);
        }
        if self.peek() == '\n' {
            proof {
                use_type_invariant(&*self);
            }
            self.line = self.line.saturating_add(1);
            self.advance();
        }
    }

    /// The character after the one under the cursor, or the null character
    /// at the end of the text.
    fn peek_next(&self) -> (c: char)
        ensures
            c == char_at(self.input@, self.current + 1),
    {
        proof {
            use_type_invariant(self);
        }
        if self.current >= self.length || self.current + 1 >= self.length {
            '\0'
        } else {
            self.input.as_str().get_char(self.current + 1)
        }
    }

    /// The character under the cursor, or the null character at the end of
    /// the text.
    fn peek(&self) -> (c: char)
        ensures
            c == char_at(self.input@, self.current as int),
    {
        proof {
            use_type_invariant(self);
        }
        if self.current >= self.length {
            '\0'
        } else {
            self.input.as_str().get_char(self.current)
        }
    }

    /// Hands out the character under the cursor, which stands inside the
    /// text, and moves the cursor behind it.
    fn advance(&mut self) -> (c: char)
        requires
            old(self).current < old(self).length,
        ensures
            final(self).input == old(self).input,
            final(self).length == old(self).length,
            final(self).start == old(self).start,
            final(self).line == old(self).line,
            c == old(self).input@[old(self).current as int],
            final(self).current == old(self).current + 1,
    {
        proof {
            use_type_invariant(&*self);
        }
        let c = self.input.as_str().get_char(self.current);
        self.current += 1;
        c
    }

    /// Moves the cursor to the end of the run of kind `run` in front of it,
    /// and hands out the number of newlines in the run.
    fn skip_run(&mut self, run: Run) -> (lines: usize)
        ensures
            final(self).input == old(self).input,
            final(self).length == old(self).length,
            final(self).start == old(self).start,
            final(self).line == old(self).line,
            final(self).current == run_end(old(self).input@, old(self).current as int, run),
            lines == newlines(
                old(self).input@,
                old(self).current as int,
                final(self).current as int,
            ),
    {
        proof {
            use_type_invariant(&*self);
        }
        let ghost s = self.input@;
        let ghost from = self.current as int;
        let mut lines: usize = 0;
        while self.current < self.length
            invariant
                self.input == old(self).input,
                self.length == old(self).length,
                self.start == old(self).start,
                self.line == old(self).line,
                s == self.input@,
                self.length == s.len(),
                self.start <= from <= self.current <= self.length,
                run_end(s, from, run) == run_end(s, self.current as int, run),
                lines == newlines(s, from, self.current as int),
                lines <= self.current - from,
            ensures
                self.current == run_end(s, from, run),
            decreases self.length - self.current,
        {
            let c = self.input.as_str().get_char(self.current);
            if !belongs(&run, c) {
                break;
            }
            if c == '\n' {
                lines += 1;
            }
            self.current += 1;
        }
        lines
    }

    /// The text between the start of the token and the cursor.
    fn lexeme(&self) -> (text: String)
        ensures
            text@ == self.input@.subrange(self.start as int, self.current as int),
    {
        proof {
            use_type_invariant(self);
        }
        self.input.as_str().substring_char(self.start, self.current).to_owned()
    }

    /// The identifier or keyword whose first letter was just consumed.
    fn identifier(&mut self) -> (token: Token)
        requires
            old(self).current == old(self).start + 1,
            is_letter(char_at(old(self).input@, old(self).start as int)),
        ensures
            final(self).input == old(self).input,
            final(self).length == old(self).length,
            final(self).line == old(self).line,
            token@ == scan_token(old(self).input@, old(self).start as int).token,
            final(self).current == scan_token(old(self).input@, old(self).start as int).end,
    {
        proof {
            use_type_invariant(&*self);
        }
        let _ = self.skip_run(Run::Word);
        let text = self.lexeme();
        let kind = keyword(text.as_str());
        Token::new(kind, text)
    }

    /// The number whose first digit was just consumed: a run of digits, and
    /// a point with a further run where a digit follows the point.
    fn number(&mut self) -> (token: Token)
        requires
            old(self).current == old(self).start + 1,
            crate::chars::is_digit(char_at(old(self).input@, old(self).start as int)),
        ensures
            final(self).input == old(self).input,
            final(self).length == old(self).length,
            final(self).line == old(self).line,
            token@ == scan_token(old(self).input@, old(self).start as int).token,
            final(self).current == scan_token(old(self).input@, old(self).start as int).end,
    {
        proof {
            use_type_invariant(&*self);
        }
        let _ = self.skip_run(Run::Digits);
        if self.peek() == '.' && digit(self.peek_next()) {
            self.advance();
            let _ = self.skip_run(Run::Digits);
        }
        Token::new(TokenType::NumberLiteral, self.lexeme())
    }

    /// The string literal whose opening quote was just consumed. Its
    /// newlines are counted. Where the text ends before the closing quote,
    /// the token is of kind `Unknown`.
    fn string(&mut self) -> (token: Token)
        requires
            old(self).current == old(self).start + 1,
            char_at(old(self).input@, old(self).start as int) == '"',
        ensures
            final(self).input == old(self).input,
            final(self).length == old(self).length,
            token@ == scan_token(old(self).input@, old(self).start as int).token,
            final(self).current == scan_token(old(self).input@, old(self).start as int).end,
            final(self).line == saturate(
                old(self).line as nat + scan_token(old(self).input@, old(self).start as int).lines,
            ),
    {
        proof {
            use_type_invariant(&*self);
            lemma_run_end(self.input@, self.current as int, Run::Quoted);
        }
        let lines = self.skip_run(Run::Quoted);
        proof {
            use_type_invariant(&*self);
        }
        self.line = self.line.saturating_add(lines);
        if self.peek() != '"' {
            return Token::new(TokenType::Unknown, String::from_str("Unterimated string"));
        }
        self.advance();
        Token::new(TokenType::StringLiteral, self.lexeme())
    }
}

} // verus!
