//! The lexical categories that the scanner produces and the parser consumes.

use vstd::prelude::*;

verus! {

/// The mathematical value of a [`Token`]: its tag, and for the three tokens
/// that carry text, that text as a sequence of characters.
pub enum SpecToken {
    Ident(Seq<char>),
    Number(Seq<char>),
    String(Seq<char>),
    Print,
    Null,
    Illegal,
    Eof,
    Bang,
    Assign,
    Equal,
    NotEqual,
    LessThan,
    LessThanOrEqual,
    GreaterThan,
    GreaterThanOrEqual,
    Plus,
    Minus,
    Asterisk,
    And,
    Or,
    ForwardSlash,
    Comma,
    Semicolon,
    Lparen,
    Rparen,
    LSquirly,
    RSquirly,
    Function,
    Let,
    If,
    Else,
    While,
    For,
    Do,
    Return,
    True,
    False,
    Newline,
}

/// A token. Tokens are plain values: two tokens are the same token when their
/// tags and payloads agree.
#[derive(Debug, PartialEq)]
pub enum Token {
    Ident(String),
    Number(String),
    String(String),
    Print,
    Null,
    /// The value a scanner holds as its current token before it has read any.
    Illegal,
    Eof,
    Bang,
    Assign,
    Equal,
    NotEqual,
    LessThan,
    LessThanOrEqual,
    GreaterThan,
    GreaterThanOrEqual,
    Plus,
    Minus,
    Asterisk,
    And,
    Or,
    ForwardSlash,
    Comma,
    Semicolon,
    Lparen,
    Rparen,
    LSquirly,
    RSquirly,
    Function,
    Let,
    If,
    Else,
    While,
    For,
    Do,
    Return,
    True,
    False,
    /// Never produced by the scanner, which treats line ends as whitespace.
    Newline,
}

impl View for Token {
    type V = SpecToken;

    open spec fn view(&self) -> SpecToken {
        match self {
            Token::Ident(s) => SpecToken::Ident(s@),
            Token::Number(s) => SpecToken::Number(s@),
            Token::String(s) => SpecToken::String(s@),
            Token::Print => SpecToken::Print,
            Token::Null => SpecToken::Null,
            Token::Illegal => SpecToken::Illegal,
            Token::Eof => SpecToken::Eof,
            Token::Bang => SpecToken::Bang,
            Token::Assign => SpecToken::Assign,
            Token::Equal => SpecToken::Equal,
            Token::NotEqual => SpecToken::NotEqual,
            Token::LessThan => SpecToken::LessThan,
            Token::LessThanOrEqual => SpecToken::LessThanOrEqual,
            Token::GreaterThan => SpecToken::GreaterThan,
            Token::GreaterThanOrEqual => SpecToken::GreaterThanOrEqual,
            Token::Plus => SpecToken::Plus,
            Token::Minus => SpecToken::Minus,
            Token::Asterisk => SpecToken::Asterisk,
            Token::And => SpecToken::And,
            Token::Or => SpecToken::Or,
            Token::ForwardSlash => SpecToken::ForwardSlash,
            Token::Comma => SpecToken::Comma,
            Token::Semicolon => SpecToken::Semicolon,
            Token::Lparen => SpecToken::Lparen,
            Token::Rparen => SpecToken::Rparen,
            Token::LSquirly => SpecToken::LSquirly,
            Token::RSquirly => SpecToken::RSquirly,
            Token::Function => SpecToken::Function,
            Token::Let => SpecToken::Let,
            Token::If => SpecToken::If,
            Token::Else => SpecToken::Else,
            Token::While => SpecToken::While,
            Token::For => SpecToken::For,
            Token::Do => SpecToken::Do,
            Token::Return => SpecToken::Return,
            Token::True => SpecToken::True,
            Token::False => SpecToken::False,
            Token::Newline => SpecToken::Newline,
        }
    }
}

impl Clone for Token {
    fn clone(&self) -> (r: Self)
        ensures
            r@ == self@,
    {
        match self {
            Token::Ident(s) => Token::Ident(s.clone()),
            Token::Number(s) => Token::Number(s.clone()),
            Token::String(s) => Token::String(s.clone()),
            Token::Print => Token::Print,
            Token::Null => Token::Null,
            Token::Illegal => Token::Illegal,
            Token::Eof => Token::Eof,
            Token::Bang => Token::Bang,
            Token::Assign => Token::Assign,
            Token::Equal => Token::Equal,
            Token::NotEqual => Token::NotEqual,
            Token::LessThan => Token::LessThan,
            Token::LessThanOrEqual => Token::LessThanOrEqual,
            Token::GreaterThan => Token::GreaterThan,
            Token::GreaterThanOrEqual => Token::GreaterThanOrEqual,
            Token::Plus => Token::Plus,
            Token::Minus => Token::Minus,
            Token::Asterisk => Token::Asterisk,
            Token::And => Token::And,
            Token::Or => Token::Or,
            Token::ForwardSlash => Token::ForwardSlash,
            Token::Comma => Token::Comma,
            Token::Semicolon => Token::Semicolon,
            Token::Lparen => Token::Lparen,
            Token::Rparen => Token::Rparen,
            Token::LSquirly => Token::LSquirly,
            Token::RSquirly => Token::RSquirly,
            Token::Function => Token::Function,
            Token::Let => Token::Let,
            Token::If => Token::If,
            Token::Else => Token::Else,
            Token::While => Token::While,
            Token::For => Token::For,
            Token::Do => Token::Do,
            Token::Return => Token::Return,
            Token::True => Token::True,
            Token::False => Token::False,
            Token::Newline => Token::Newline,
        }
    }
}

impl Token {
    /// A string-literal token with the given text.
    pub fn string(string: &str) -> (r: Token)
        ensures
            r@ == SpecToken::String(string@),
    {
        Token::String(string.to_owned())
    }

    /// A number token with the given literal text.
    pub fn number(number: &str) -> (r: Token)
        ensures
            r@ == SpecToken::Number(number@),
    {
        Token::Number(number.to_owned())
    }

    /// An identifier token with the given name.
    pub fn ident(ident: &str) -> (r: Token)
        ensures
            r@ == SpecToken::Ident(ident@),
    {
        Token::Ident(ident.to_owned())
    }

    /// Whether two tokens have the same tag and the same payload.
    pub fn same(&self, other: &Token) -> (r: bool)
        ensures
            r == (self@ == other@),
    {
        match (self, other) {
            (Token::Ident(a), Token::Ident(b)) => *a == *b,
            (Token::Number(a), Token::Number(b)) => *a == *b,
            (Token::String(a), Token::String(b)) => *a == *b,
            (Token::Print, Token::Print) => true,
            (Token::Null, Token::Null) => true,
            (Token::Illegal, Token::Illegal) => true,
            (Token::Eof, Token::Eof) => true,
            (Token::Bang, Token::Bang) => true,
            (Token::Assign, Token::Assign) => true,
            (Token::Equal, Token::Equal) => true,
            (Token::NotEqual, Token::NotEqual) => true,
            (Token::LessThan, Token::LessThan) => true,
            (Token::LessThanOrEqual, Token::LessThanOrEqual) => true,
            (Token::GreaterThan, Token::GreaterThan) => true,
            (Token::GreaterThanOrEqual, Token::GreaterThanOrEqual) => true,
            (Token::Plus, Token::Plus) => true,
            (Token::Minus, Token::Minus) => true,
            (Token::Asterisk, Token::Asterisk) => true,
            (Token::And, Token::And) => true,
            (Token::Or, Token::Or) => true,
            (Token::ForwardSlash, Token::ForwardSlash) => true,
            (Token::Comma, Token::Comma) => true,
            (Token::Semicolon, Token::Semicolon) => true,
            (Token::Lparen, Token::Lparen) => true,
            (Token::Rparen, Token::Rparen) => true,
            (Token::LSquirly, Token::LSquirly) => true,
            (Token::RSquirly, Token::RSquirly) => true,
            (Token::Function, Token::Function) => true,
            (Token::Let, Token::Let) => true,
            (Token::If, Token::If) => true,
            (Token::Else, Token::Else) => true,
            (Token::While, Token::While) => true,
            (Token::For, Token::For) => true,
            (Token::Do, Token::Do) => true,
            (Token::Return, Token::Return) => true,
            (Token::True, Token::True) => true,
            (Token::False, Token::False) => true,
            (Token::Newline, Token::Newline) => true,
            _ => false,
        }
    }
}

} // verus!
