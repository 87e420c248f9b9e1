//! Lexical atoms and source positions.
use vstd::prelude::*;

verus! {

/// Byte offset of a token's first character in the source text.
#[derive(Debug, Copy, Clone, PartialEq, Eq, Structural)]
pub struct SourcePosition(pub usize);

/// One lexical atom of the source language.
#[derive(Debug, PartialEq, Eq)]
pub enum Token {
    Num(i32),
    Identifier(String),
    Plus,
    Minus,
    Asterisk,
    Slash,
    LParen,
    RParen,
    Equality,
    Inequality,
    LessThan,
    LessThanOrEqual,
    GreaterThan,
    GreaterThanOrEqual,
    Assign,
    Semicolon,
    Return,
    If,
    Else,
    While,
    For,
    LBracket,
    RBracket,
    LBrace,
    RBrace,
    Comma,
    Ampersand,
    Int,
    Extern,
    Sizeof,
}

/// Mathematical model of a token: identifiers carry their character
/// sequence rather than an opaque `String`.
pub enum SpecToken {
    Num(int),
    Identifier(Seq<char>),
    Plus,
    Minus,
    Asterisk,
    Slash,
    LParen,
    RParen,
    Equality,
    Inequality,
    LessThan,
    LessThanOrEqual,
    GreaterThan,
    GreaterThanOrEqual,
    Assign,
    Semicolon,
    Return,
    If,
    Else,
    While,
    For,
    LBracket,
    RBracket,
    LBrace,
    RBrace,
    Comma,
    Ampersand,
    Int,
    Extern,
    Sizeof,
}

impl View for Token {
    type V = SpecToken;

    open spec fn view(&self) -> SpecToken {
        match self {
            Token::Num(n) => SpecToken::Num(*n as int),
            Token::Identifier(s) => SpecToken::Identifier(s@),
            Token::Plus => SpecToken::Plus,
            Token::Minus => SpecToken::Minus,
            Token::Asterisk => SpecToken::Asterisk,
            Token::Slash => SpecToken::Slash,
            Token::LParen => SpecToken::LParen,
            Token::RParen => SpecToken::RParen,
            Token::Equality => SpecToken::Equality,
            Token::Inequality => SpecToken::Inequality,
            Token::LessThan => SpecToken::LessThan,
            Token::LessThanOrEqual => SpecToken::LessThanOrEqual,
            Token::GreaterThan => SpecToken::GreaterThan,
            Token::GreaterThanOrEqual => SpecToken::GreaterThanOrEqual,
            Token::Assign => SpecToken::Assign,
            Token::Semicolon => SpecToken::Semicolon,
            Token::Return => SpecToken::Return,
            Token::If => SpecToken::If,
            Token::Else => SpecToken::Else,
            Token::While => SpecToken::While,
            Token::For => SpecToken::For,
            Token::LBracket => SpecToken::LBracket,
            Token::RBracket => SpecToken::RBracket,
            Token::LBrace => SpecToken::LBrace,
            Token::RBrace => SpecToken::RBrace,
            Token::Comma => SpecToken::Comma,
            Token::Ampersand => SpecToken::Ampersand,
            Token::Int => SpecToken::Int,
            Token::Extern => SpecToken::Extern,
            Token::Sizeof => SpecToken::Sizeof,
        }
    }
}

impl Clone for Token {
    fn clone(&self) -> (r: Self)
        ensures
            r == *self,
            r@ == self@,
    {
        match self {
            Token::Num(n) => Token::Num(*n),
            Token::Identifier(s) => Token::Identifier(s.clone()),
            Token::Plus => Token::Plus,
            Token::Minus => Token::Minus,
            Token::Asterisk => Token::Asterisk,
            Token::Slash => Token::Slash,
            Token::LParen => Token::LParen,
            Token::RParen => Token::RParen,
            Token::Equality => Token::Equality,
            Token::Inequality => Token::Inequality,
            Token::LessThan => Token::LessThan,
            Token::LessThanOrEqual => Token::LessThanOrEqual,
            Token::GreaterThan => Token::GreaterThan,
            Token::GreaterThanOrEqual => Token::GreaterThanOrEqual,
            Token::Assign => Token::Assign,
            Token::Semicolon => Token::Semicolon,
            Token::Return => Token::Return,
            Token::If => Token::If,
            Token::Else => Token::Else,
            Token::While => Token::While,
            Token::For => Token::For,
            Token::LBracket => Token::LBracket,
            Token::RBracket => Token::RBracket,
            Token::LBrace => Token::LBrace,
            Token::RBrace => Token::RBrace,
            Token::Comma => Token::Comma,
            Token::Ampersand => Token::Ampersand,
            Token::Int => Token::Int,
            Token::Extern => Token::Extern,
            Token::Sizeof => Token::Sizeof,
        }
    }
}

/// A token together with the byte offset of its first character.
pub type PositionedToken = (Token, SourcePosition);

} // verus!
