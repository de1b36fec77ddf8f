//! Tokens: the classified lexical units that the lexer hands to the parser.

use vstd::prelude::*;

verus! {

/// The digits of a base-10 literal with a fractional part, kept exactly.
///
/// `whole` is the value of the digits before the `.` (reduced modulo 2^64),
/// `fraction` holds the digits after it, most significant first, each below 10.
#[derive(Clone, PartialEq, Debug)]
pub struct FloatLiteral {
    pub whole: u64,
    pub fraction: Vec<u8>,
}

/// What a token is. An error is a token too: the lexer reports malformed
/// input as data and leaves it to its caller to stop.
#[derive(Clone, PartialEq, Debug)]
pub enum TokenKind {
    EndOfFile,
    Error(String),
    Identifier(String),
    Integer(u64),
    Float(FloatLiteral),
    Colon,
    Semicolon,
    LParen,
    RParen,
    LBrace,
    RBrace,
    Comma,
    RightArrow,
    Plus,
    Minus,
    Asterisk,
    Slash,
    Percent,
    Equals,
    ExclamationMark,
    PlusEquals,
    MinusEquals,
    AsteriskEquals,
    SlashEquals,
    PercentEquals,
    EqualsEquals,
    ExclamationMarkEquals,
}

/// A token: its kind, the position, line and column of its first
/// character, and its length in characters. An error token points at the
/// one character that is wrong.
#[derive(Clone, PartialEq, Debug)]
pub struct Token {
    pub kind: TokenKind,
    pub position: usize,
    pub line: usize,
    pub column: usize,
    pub length: usize,
}

/// Mathematical model of a `TokenKind`: texts are sequences of characters.
pub enum TokenKindView {
    EndOfFile,
    Error(Seq<char>),
    Identifier(Seq<char>),
    Integer(u64),
    Float(u64, Seq<u8>),
    Colon,
    Semicolon,
    LParen,
    RParen,
    LBrace,
    RBrace,
    Comma,
    RightArrow,
    Plus,
    Minus,
    Asterisk,
    Slash,
    Percent,
    Equals,
    ExclamationMark,
    PlusEquals,
    MinusEquals,
    AsteriskEquals,
    SlashEquals,
    PercentEquals,
    EqualsEquals,
    ExclamationMarkEquals,
}

/// Mathematical model of a `Token`.
pub struct TokenView {
    pub kind: TokenKindView,
    pub position: int,
    pub line: int,
    pub column: int,
    pub length: int,
}

impl View for TokenKind {
    type V = TokenKindView;

    open spec fn view(&self) -> TokenKindView {
        match self {
            TokenKind::EndOfFile => TokenKindView::EndOfFile,
            TokenKind::Error(message) => TokenKindView::Error(message@),
            TokenKind::Identifier(text) => TokenKindView::Identifier(text@),
            TokenKind::Integer(value) => TokenKindView::Integer(*value),
            TokenKind::Float(literal) => TokenKindView::Float(literal.whole, literal.fraction@),
            TokenKind::Colon => TokenKindView::Colon,
            TokenKind::Semicolon => TokenKindView::Semicolon,
            TokenKind::LParen => TokenKindView::LParen,
            TokenKind::RParen => TokenKindView::RParen,
            TokenKind::LBrace => TokenKindView::LBrace,
            TokenKind::RBrace => TokenKindView::RBrace,
            TokenKind::Comma => TokenKindView::Comma,
            TokenKind::RightArrow => TokenKindView::RightArrow,
            TokenKind::Plus => TokenKindView::Plus,
            TokenKind::Minus => TokenKindView::Minus,
            TokenKind::Asterisk => TokenKindView::Asterisk,
            TokenKind::Slash => TokenKindView::Slash,
            TokenKind::Percent => TokenKindView::Percent,
            TokenKind::Equals => TokenKindView::Equals,
            TokenKind::ExclamationMark => TokenKindView::ExclamationMark,
            TokenKind::PlusEquals => TokenKindView::PlusEquals,
            TokenKind::MinusEquals => TokenKindView::MinusEquals,
            TokenKind::AsteriskEquals => TokenKindView::AsteriskEquals,
            TokenKind::SlashEquals => TokenKindView::SlashEquals,
            TokenKind::PercentEquals => TokenKindView::PercentEquals,
            TokenKind::EqualsEquals => TokenKindView::EqualsEquals,
            TokenKind::ExclamationMarkEquals => TokenKindView::ExclamationMarkEquals,
        }
    }
}

impl View for Token {
    type V = TokenView;

    open spec fn view(&self) -> TokenView {
        TokenView {
            kind: self.kind@,
            position: self.position as int,
            line: self.line as int,
            column: self.column as int,
            length: self.length as int,
        }
    }
}

impl TokenView {
    /// Where the lexer's cursor stands once this token has been produced.
    pub open spec fn end(self) -> int {
        self.position + self.length
    }
}

impl TokenKindView {
    /// The name of the kind, as diagnostics show it.
    pub open spec fn name(self) -> Seq<char> {
        match self {
            TokenKindView::EndOfFile => "EndOfFile"@,
            TokenKindView::Error(_) => "Error"@,
            TokenKindView::Identifier(_) => "Identifier"@,
            TokenKindView::Integer(_) => "Integer"@,
            TokenKindView::Float(_, _) => "Float"@,
            TokenKindView::Colon => "Colon"@,
            TokenKindView::Semicolon => "Semicolon"@,
            TokenKindView::LParen => "LParen"@,
            TokenKindView::RParen => "RParen"@,
            TokenKindView::LBrace => "LBrace"@,
            TokenKindView::RBrace => "RBrace"@,
            TokenKindView::Comma => "Comma"@,
            TokenKindView::RightArrow => "RightArrow"@,
            TokenKindView::Plus => "Plus"@,
            TokenKindView::Minus => "Minus"@,
            TokenKindView::Asterisk => "Asterisk"@,
            TokenKindView::Slash => "Slash"@,
            TokenKindView::Percent => "Percent"@,
            TokenKindView::Equals => "Equals"@,
            TokenKindView::ExclamationMark => "ExclamationMark"@,
            TokenKindView::PlusEquals => "PlusEquals"@,
            TokenKindView::MinusEquals => "MinusEquals"@,
            TokenKindView::AsteriskEquals => "AsteriskEquals"@,
            TokenKindView::SlashEquals => "SlashEquals"@,
            TokenKindView::PercentEquals => "PercentEquals"@,
            TokenKindView::EqualsEquals => "EqualsEquals"@,
            TokenKindView::ExclamationMarkEquals => "ExclamationMarkEquals"@,
        }
    }
}

impl TokenKind {
    /// The name of the kind, as diagnostics show it.
    pub fn name(&self) -> (name: &'static str)
        ensures
            name@ == self@.name(),
    {
        match self {
            TokenKind::EndOfFile => "EndOfFile",
            TokenKind::Error(_) => "Error",
            TokenKind::Identifier(_) => "Identifier",
            TokenKind::Integer(_) => "Integer",
            TokenKind::Float(_) => "Float",
            TokenKind::Colon => "Colon",
            TokenKind::Semicolon => "Semicolon",
            TokenKind::LParen => "LParen",
            TokenKind::RParen => "RParen",
            TokenKind::LBrace => "LBrace",
            TokenKind::RBrace => "RBrace",
            TokenKind::Comma => "Comma",
            TokenKind::RightArrow => "RightArrow",
            TokenKind::Plus => "Plus",
            TokenKind::Minus => "Minus",
            TokenKind::Asterisk => "Asterisk",
            TokenKind::Slash => "Slash",
            TokenKind::Percent => "Percent",
            TokenKind::Equals => "Equals",
            TokenKind::ExclamationMark => "ExclamationMark",
            TokenKind::PlusEquals => "PlusEquals",
            TokenKind::MinusEquals => "MinusEquals",
            TokenKind::AsteriskEquals => "AsteriskEquals",
            TokenKind::SlashEquals => "SlashEquals",
            TokenKind::PercentEquals => "PercentEquals",
            TokenKind::EqualsEquals => "EqualsEquals",
            TokenKind::ExclamationMarkEquals => "ExclamationMarkEquals",
        }
    }
}

impl Token {
    pub fn new(
        kind: TokenKind,
        position: usize,
        line: usize,
        column: usize,
        length: usize,
    ) -> (token: Token)
        ensures
            token.kind == kind,
            token.position == position,
            token.line == line,
            token.column == column,
            token.length == length,
    {
        Token { kind, position, line, column, length }
    }
}

} // verus!
