//! Tokens and their categories, together with their mathematical model.

use vstd::prelude::*;

verus! {

/// The lexical category of a token: single-character punctuation,
/// one-or-two-character operators, the three literal shapes, the sixteen
/// reserved words, and the terminal end marker.
#[derive(Debug, Clone, Copy, PartialEq, Eq, Structural)]
pub enum TokenKind {
    // Single-character tokens.
    LeftParen,
    RightParen,
    LeftBrace,
    RightBrace,
    Comma,
    Dot,
    Minus,
    Plus,
    Semicolon,
    Slash,
    Star,
    // One or two character tokens.
    Bang,
    BangEqual,
    Equal,
    EqualEqual,
    Greater,
    GreaterEqual,
    Less,
    LessEqual,
    // Literals.
    Identifier,
    Str,
    Number,
    // Keywords.
    And,
    Class,
    Else,
    False,
    Fun,
    For,
    If,
    Nil,
    Or,
    Print,
    Return,
    Super,
    This,
    True,
    Var,
    While,
    Eof,
}

/// The mathematical value of a token: its category, the exact characters of
/// its lexeme, and the 1-based line on which its first character stands.
pub struct TokenModel {
    pub kind: TokenKind,
    pub lexeme: Seq<char>,
    pub line: int,
}

/// A classified, line-tagged unit of lexical meaning. `lexeme` is the exact
/// substring of the source text the token was derived from (empty only for
/// the terminal `Eof` marker); `line` is the 1-based line number of the
/// lexeme's first character.
#[derive(Debug)]
pub struct Token {
    pub kind: TokenKind,
    pub lexeme: String,
    pub line: i64,
}

impl View for Token {
    type V = TokenModel;

    open spec fn view(&self) -> TokenModel {
        TokenModel { kind: self.kind, lexeme: self.lexeme@, line: self.line as int }
    }
}

impl Token {
    pub fn new(kind: TokenKind, lexeme: String, line: i64) -> (t: Token)
        ensures
            t@ == (TokenModel { kind, lexeme: lexeme@, line: line as int }),
    {
        Token { kind, lexeme, line }
    }
}

} // verus!
