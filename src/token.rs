use vstd::prelude::*;

verus! {

/// The kind of a token produced by the lexer.
#[derive(Debug, Clone, Copy, PartialEq, Eq, Structural)]
pub enum TokenType {
    LeftParen,
    RightParen,
    LeftBrace,
    RightBrace,
    Dot,
    Comma,
    Plus,
    Minus,
    Slash,
    Star,
    Semicolon,
    Equal,
    EqualEqual,
    Less,
    LessEqual,
    Greater,
    GreaterEqual,
    Bang,
    BangEqual,
    Identifier,
    String,
    Number,
    Or,
    And,
    If,
    Else,
    True,
    False,
    Fun,
    Return,
    Class,
    Super,
    This,
    Var,
    Nil,
    For,
    While,
    Print,
    Eof,
}

/// A token: its kind, its source text and the line it was read on. A `Number` token also
/// carries the bit pattern of the 64-bit floating-point value its text denotes, as the
/// lexer read it; for any other token that field is 0.
#[derive(Debug, Clone)]
pub struct Token {
    pub token_type: TokenType,
    pub lexeme: String,
    pub line: u32,
    pub number_bits: u64,
}

impl Token {
    pub fn new(token_type: TokenType, lexeme: String, line: u32) -> (r: Token)
        ensures
            r.token_type == token_type,
            r.lexeme@ == lexeme@,
            r.line == line,
            r.number_bits == 0,
    {
        Token { token_type, lexeme, line, number_bits: 0 }
    }

    /// A `Number` token whose value has the bit pattern `bits`.
    pub fn number(lexeme: String, bits: u64, line: u32) -> (r: Token)
        ensures
            r.token_type == TokenType::Number,
            r.lexeme@ == lexeme@,
            r.line == line,
            r.number_bits == bits,
    {
        Token { token_type: TokenType::Number, lexeme, line, number_bits: bits }
    }
}

} // verus!
