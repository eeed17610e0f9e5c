use vstd::prelude::*;
use crate::value::Value;

verus! {

/// The lexical token kinds that the scanner hands to the parser.  Only the
/// operator kinds matter to the bytecode compiler, which maps them to opcodes.
#[derive(Debug, Clone, Copy, PartialEq, Eq, Structural)]
pub enum TokenType {
    LeftParen,
    RightParen,
    LeftBrace,
    RightBrace,
    Comma,
    Dot,
    Minus,
    Plus,
    Slash,
    Star,
    Modulo,
    Semicolon,
    LeftSquare,
    RightSquare,
    Bang,
    BangEqual,
    Equal,
    EqualEqual,
    Greater,
    GreaterEqual,
    Less,
    LessEqual,
    And,
    Or,
    Let,
    Identifier,
    Str,
    Int,
    Float,
    Bool,
    If,
    Else,
    For,
    Range,
    In,
    While,
    Print,
    FnDecl,
    Return,
    Printable,
    Eof,
}

/// A scanned token: its kind, the source text it covers, an optional literal
/// value, and the source line it came from.
pub struct Token {
    pub tt: TokenType,
    pub lexeme: String,
    pub literal: Option<Value>,
    pub line: usize,
}

} // verus!
