use vstd::prelude::*;

verus! {

/// The classes of lexical units.
#[derive(Clone, Copy, Debug, PartialEq, Eq, Structural)]
pub enum TokenKind {
    LeftParen,
    RightParen,
    LeftBrace,
    RightBrace,
    Comma,
    Dot,
    Minus,
    Plus,
    Semicolon,
    Slash,
    Star,
    Bang,
    BangEqual,
    Equal,
    EqualEqual,
    Greater,
    GreaterEqual,
    Less,
    LessEqual,
    Identifier,
    /// A string literal closed by its quote; the lexeme is its content.
    Str,
    /// A string literal that ran to the end of the source without a closing quote.
    UnterminatedStr,
    /// A numeric literal; the lexeme holds its digits.
    Number,
    And,
    Class,
    Else,
    False,
    Fun,
    For,
    If,
    Nil,
    Or,
    Print,
    Return,
    Super,
    This,
    True,
    Var,
    While,
    Eof,
}

/// A classified lexical unit with its text and the 1-based line it starts on.
#[derive(Debug)]
pub struct Token {
    pub kind: TokenKind,
    pub lexeme: String,
    pub line: usize,
}

impl View for Token {
    type V = (TokenKind, Seq<char>, int);

    open spec fn view(&self) -> Self::V {
        (self.kind, self.lexeme@, self.line as int)
    }
}

impl Token {
    pub fn new(kind: TokenKind, lexeme: String, line: usize) -> (r: Token)
        ensures
            r == (Token { kind, lexeme, line }),
    {
        Token { kind, lexeme, line }
    }

    /// A copy of this token, equal to it in every field.
    pub fn duplicate(&self) -> (r: Token)
        ensures
            r == *self,
    {
        Token { kind: self.kind, lexeme: self.lexeme.clone(), line: self.line }
    }
}

impl Clone for Token {
    fn clone(&self) -> Token {
        self.duplicate()
    }
}

} // verus!
