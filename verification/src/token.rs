//! The vocabulary shared by every stage: token kinds and tokens.

use vstd::prelude::*;

verus! {

/// The closed set of token kinds.
#[derive(Debug, Clone, Copy, PartialEq, Eq, Structural)]
pub enum TokenType {
    // Single-character tokens.
    LeftParen,
    RightParen,
    LeftBrace,
    RightBrace,
    Comma,
    Dot,
    Minus,
    Plus,
    Semicolon,
    Slash,
    Star,
    // One or two character tokens.
    Bang,
    BangEqual,
    Equal,
    EqualEqual,
    Greater,
    GreaterEqual,
    Less,
    LessEqual,
    // Literals.
    Identifier,
    StringLiteral,
    NumberLiteral,
    // Keywords.
    And,
    Class,
    Else,
    False,
    Fun,
    For,
    If,
    Nil,
    Or,
    Print,
    Return,
    Super,
    This,
    True,
    Var,
    While,
    // End of input, and anything the scanner does not recognise.
    Eof,
    Unknown,
}

/// What a token is, as a mathematical value: its kind and the characters of
/// its lexeme.
pub struct TokenView {
    pub kind: TokenType,
    pub lexeme: Seq<char>,
}

/// A token: a kind and the lexeme it was scanned from.
#[derive(Debug, Clone)]
pub struct Token {
    pub token_type: TokenType,
    pub literal: String,
}

impl View for Token {
    type V = TokenView;

    open spec fn view(&self) -> TokenView {
        TokenView { kind: self.token_type, lexeme: self.literal@ }
    }
}

/// The tokens of a sequence as mathematical values, in order.
pub open spec fn views(tokens: Seq<Token>) -> Seq<TokenView> {
    tokens.map_values(|t: Token| t@)
}

impl Token {
    /// Pairs a kind with a lexeme.
    pub fn new(token_type: TokenType, literal: String) -> (token: Token)
        ensures
            token.token_type == token_type,
            token.literal == literal,
            token@ == (TokenView { kind: token_type, lexeme: literal@ }),
    {
        Token { token_type, literal }
    }
}

} // verus!
