//! What the parser reports when the tokens do not follow the grammar.

use crate::token::{Token, TokenView};
use vstd::prelude::*;
use vstd::string::StringExecFns;

verus! {

/// What was expected where the parse stopped.
#[derive(Clone, Copy, PartialEq, Eq, Debug, Structural)]
pub enum ParseErrorKind {
    /// A scope must open with `{`.
    ExpectedLBrace,
    /// Only a bare name can stand before `:`, and an argument starts with one.
    ExpectedName,
    /// After the name and the optional type of a declaration.
    ExpectedColonOrEquals,
    /// At the end of a statement.
    ExpectedSemicolon,
    /// Before the default value of a procedure argument.
    ExpectedEquals,
    /// After the name of a procedure argument.
    ExpectedColon,
    /// At the end of a parenthesized expression or of an argument list.
    ExpectedRParen,
    /// The token starts neither an expression nor a type.
    UnexpectedToken,
    /// A declaration needs a type or a value.
    DeclarationWithoutTypeOrValue,
}

impl ParseErrorKind {
    /// How the message of an error of this kind begins. The kind of the
    /// token at which the parse stopped follows.
    pub open spec fn lead(self) -> Seq<char> {
        match self {
            ParseErrorKind::ExpectedLBrace => "Expected '{' got "@,
            ParseErrorKind::ExpectedName => "Expected name got "@,
            ParseErrorKind::ExpectedColonOrEquals => "Expected ':' or '=' got "@,
            ParseErrorKind::ExpectedSemicolon => "Expected ';' got "@,
            ParseErrorKind::ExpectedEquals => "Expected '=' got "@,
            ParseErrorKind::ExpectedColon => "Expected ':' got "@,
            ParseErrorKind::ExpectedRParen => "Expected ')' got "@,
            ParseErrorKind::UnexpectedToken => "Unexpected token "@,
            ParseErrorKind::DeclarationWithoutTypeOrValue =>
                "Cannot have a declaration with neither type nor value: "@,
        }
    }

    fn lead_text(&self) -> (text: &'static str)
        ensures
            text@ == self.lead(),
    {
        match self {
            ParseErrorKind::ExpectedLBrace => "Expected '{' got ",
            ParseErrorKind::ExpectedName => "Expected name got ",
            ParseErrorKind::ExpectedColonOrEquals => "Expected ':' or '=' got ",
            ParseErrorKind::ExpectedSemicolon => "Expected ';' got ",
            ParseErrorKind::ExpectedEquals => "Expected '=' got ",
            ParseErrorKind::ExpectedColon => "Expected ':' got ",
            ParseErrorKind::ExpectedRParen => "Expected ')' got ",
            ParseErrorKind::UnexpectedToken => "Unexpected token ",
            ParseErrorKind::DeclarationWithoutTypeOrValue =>
                "Cannot have a declaration with neither type nor value: ",
        }
    }
}

/// A grammar error: what was expected, and the token that was found instead.
/// The token carries its position, line and column.
#[derive(Clone, PartialEq, Debug)]
pub struct ParseError {
    pub kind: ParseErrorKind,
    pub token: Token,
}

/// Model of a `ParseError`.
pub struct ParseErrorView {
    pub kind: ParseErrorKind,
    pub token: TokenView,
}

impl View for ParseError {
    type V = ParseErrorView;

    open spec fn view(&self) -> ParseErrorView {
        ParseErrorView { kind: self.kind, token: self.token@ }
    }
}

impl ParseErrorView {
    /// The message of the error: what was expected, and the kind of the
    /// token that was found.
    pub open spec fn message(self) -> Seq<char> {
        self.kind.lead() + self.token.kind.name()
    }
}

impl ParseError {
    /// The message of the error: what was expected, and the kind of the
    /// token that was found. Where the token stands, the token itself says.
    pub fn message(&self) -> (message: String)
        ensures
            message@ == self@.message(),
    {
        let mut message = String::from_str(self.kind.lead_text());
        message.append(self.token.kind.name());
        message
    }
}

} // verus!
