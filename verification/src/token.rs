//! Tokens of Lox source text.

use vstd::prelude::*;

verus! {

/// The kinds of tokens that the scanner recognises.
#[derive(Debug, PartialEq, Eq, Clone, Copy, Structural)]
pub enum TokenType {
    // Single character tokens
    LeftParen,
    RightParen,
    LeftBrace,
    RightBrace,
    Comma,
    Dot,
    Minus,
    Plus,
    Semicolon,
    Slash,
    Star,
    // One or two character tokens
    Bang,
    BangEqual,
    Equal,
    EqualEqual,
    Greater,
    GreaterEqual,
    Less,
    LessEqual,
    // Literals
    Identifier,
    String,
    Number,
    // Keywords
    And,
    Break,
    Class,
    Continue,
    Else,
    False,
    Fun,
    For,
    If,
    Nil,
    Or,
    Print,
    Return,
    Static,
    Super,
    This,
    True,
    Var,
    While,
    Eof,
}

} // verus!

verus! {

/// The value that a literal token carries. A number is kept as the text that
/// spells it, so that the library holds no floating-point value; two number
/// literals are equal when their shortest forms are (see `literal_eq`).
#[derive(Debug)]
pub enum LiteralType {
    StringValue(String),
    NumberValue(String),
    BoolValue(bool),
    NoneValue,
}

/// The mathematical model of a literal.
pub enum SLiteral {
    Str(Seq<char>),
    Num(Seq<char>),
    Bool(bool),
    Nothing,
}

impl View for LiteralType {
    type V = SLiteral;

    open spec fn view(&self) -> SLiteral {
        match self {
            LiteralType::StringValue(s) => SLiteral::Str(s@),
            LiteralType::NumberValue(s) => SLiteral::Num(s@),
            LiteralType::BoolValue(b) => SLiteral::Bool(*b),
            LiteralType::NoneValue => SLiteral::Nothing,
        }
    }
}

impl Clone for LiteralType {
    fn clone(&self) -> (r: Self)
        ensures
            r@ == self@,
    {
        match self {
            LiteralType::StringValue(s) => LiteralType::StringValue(s.clone()),
            LiteralType::NumberValue(s) => LiteralType::NumberValue(s.clone()),
            LiteralType::BoolValue(b) => LiteralType::BoolValue(*b),
            LiteralType::NoneValue => LiteralType::NoneValue,
        }
    }
}

/// A token: its kind, the text it was scanned from, its literal value and
/// the line it stands on.
#[derive(Debug, PartialEq)]
pub struct Token {
    pub ttype: TokenType,
    pub lexeme: String,
    pub literal: LiteralType,
    pub line: usize,
}

/// The mathematical model of a token.
pub struct SToken {
    pub ttype: TokenType,
    pub lexeme: Seq<char>,
    pub literal: SLiteral,
    pub line: nat,
}

impl View for Token {
    type V = SToken;

    open spec fn view(&self) -> SToken {
        SToken {
            ttype: self.ttype,
            lexeme: self.lexeme@,
            literal: self.literal@,
            line: self.line as nat,
        }
    }
}

impl Clone for Token {
    fn clone(&self) -> (r: Self)
        ensures
            r@ == self@,
    {
        Token {
            ttype: self.ttype,
            lexeme: self.lexeme.clone(),
            literal: self.literal.clone(),
            line: self.line,
        }
    }
}

} // verus!
