//! The grammar, as functions on sequences of tokens.
//!
//! Each function takes the tokens that are left and the arena of scopes built
//! so far, and gives the node it reads together with what is left after it,
//! or the error at which the parse stops. The parser is proved against these
//! functions.
//!
//! A function that goes on after a part has been read asks that the part
//! took at least one token: that is what makes the definitions well-founded.
//! Every part does, as the proofs in `consumption` show, so that no parse
//! stops for that reason.

use crate::ast::{
    DeclarationView, ExpressionView, FileView, ParentView, ScopeView, StatementView, TypeView, FILE,
    TOP_LEVEL,
};
use crate::error::{ParseErrorKind, ParseErrorView};
use crate::token::{TokenKindView, TokenView};
use vstd::prelude::*;

verus! {

/// What the parser has before it: the tokens not yet consumed, the first of
/// them being the lookahead, and the scopes created so far.
pub struct ParseState {
    pub input: Seq<TokenView>,
    pub scopes: Seq<ScopeView>,
}

/// A node with the state after it, or the error that ends the parse.
pub type Parsed<T> = Result<(T, ParseState), ParseErrorView>;

/// The lookahead where no token is left.
pub open spec fn end_of_input() -> TokenView {
    TokenView { kind: TokenKindView::EndOfFile, position: 0, line: 1, column: 1, length: 0 }
}

impl ParseState {
    /// The lookahead token.
    pub open spec fn peek(self) -> TokenView {
        if self.input.len() > 0 {
            self.input[0]
        } else {
            end_of_input()
        }
    }

    /// The state after the lookahead has been consumed. The end-of-file token
    /// is never consumed: after it comes end-of-file again.
    pub open spec fn advance(self) -> ParseState {
        if self.input.len() > 0 && !(self.input[0].kind is EndOfFile) {
            ParseState { input: self.input.drop_first(), scopes: self.scopes }
        } else {
            self
        }
    }

    /// Fewer tokens are left here than in `other`.
    pub open spec fn shorter_than(self, other: ParseState) -> bool {
        self.input.len() < other.input.len()
    }
}

/// The parse stops at `token`.
pub open spec fn fail<T>(kind: ParseErrorKind, token: TokenView) -> Parsed<T> {
    Err(ParseErrorView { kind, token })
}

/// Precedence of a token as a prefix operator; 0 where it is none.
pub open spec fn unary_precedence(kind: TokenKindView) -> nat {
    match kind {
        TokenKindView::Plus => 3,
        TokenKindView::Minus => 3,
        _ => 0,
    }
}

/// Precedence of a token as an infix operator; 0 where it is none.
pub open spec fn binary_precedence(kind: TokenKindView) -> nat {
    match kind {
        TokenKindView::Asterisk => 2,
        TokenKindView::Slash => 2,
        TokenKindView::Percent => 2,
        TokenKindView::Plus => 1,
        TokenKindView::Minus => 1,
        _ => 0,
    }
}

/// The token is one of `+=`, `-=`, `*=`, `/=`, `%=`.
pub open spec fn is_compound_assignment(kind: TokenKindView) -> bool {
    kind is PlusEquals || kind is MinusEquals || kind is AsteriskEquals || kind is SlashEquals
        || kind is PercentEquals
}

/// A type reference: an identifier.
pub open spec fn parse_type(st: ParseState, parent: ParentView) -> Parsed<TypeView> {
    if st.peek().kind is Identifier {
        Ok((TypeView::Name { parent_data: parent, name: st.peek() }, st.advance()))
    } else {
        fail(ParseErrorKind::UnexpectedToken, st.peek())
    }
}

/// A type reference, unless `absent` says that none stands here.
pub open spec fn parse_optional_type(st: ParseState, absent: bool, parent: ParentView) -> Parsed<
    Option<TypeView>,
> {
    if absent {
        Ok((None, st))
    } else {
        match parse_type(st, parent) {
            Ok((type_, after)) => Ok((Some(type_), after)),
            Err(error) => Err(error),
        }
    }
}

/// A scope: `{`, statements up to `}`. The scope takes the next free slot of
/// the arena before its statements are read, so that they can record it as
/// the scope that encloses them; the slot is filled when `}` is reached.
#[verifier::opaque]
pub open spec fn parse_scope(st: ParseState, parent: ParentView) -> Parsed<nat>
    decreases st.input.len(), 0int,
{
    if !(st.peek().kind is LBrace) {
        fail(ParseErrorKind::ExpectedLBrace, st.peek())
    } else {
        let id = st.scopes.len();
        let reserved = ScopeView { parent_data: parent, statements: Seq::empty() };
        let opened = ParseState { input: st.advance().input, scopes: st.scopes.push(reserved) };
        let inside = ParentView { file: parent.file, scope: Some(id) };
        match parse_statements(opened, inside, Seq::empty(), false) {
            Err(error) => Err(error),
            Ok((statements, after)) => Ok(
                (
                    id,
                    ParseState {
                        input: after.advance().input,
                        scopes: after.scopes.update(
                            id as int,
                            ScopeView { parent_data: parent, statements },
                        ),
                    },
                ),
            ),
        }
    }
}

/// Statements up to the token that closes them: end-of-file at the top
/// level, `}` in a nested scope. `read` holds the statements read so far. The
/// closing token is left as the lookahead.
#[verifier::opaque]
pub open spec fn parse_statements(
    st: ParseState,
    parent: ParentView,
    read: Seq<StatementView>,
    top_level: bool,
) -> Parsed<Seq<StatementView>>
    decreases st.input.len(), 5int,
{
    if (top_level && st.peek().kind is EndOfFile) || (!top_level && st.peek().kind is RBrace) {
        Ok((read, st))
    } else {
        match parse_statement(st, parent) {
            Err(error) => Err(error),
            Ok((statement, after)) => if after.shorter_than(st) {
                parse_statements(after, parent, read.push(statement), top_level)
            } else {
                fail(ParseErrorKind::UnexpectedToken, after.peek())
            },
        }
    }
}

/// A statement. Empty statements (`;`) before it are skipped. `{` opens a
/// nested scope. Otherwise an expression is read, and the token after it
/// decides what the statement is.
#[verifier::opaque]
pub open spec fn parse_statement(st: ParseState, parent: ParentView) -> Parsed<StatementView>
    decreases st.input.len(), 4int,
{
    if st.peek().kind is Semicolon {
        parse_statement(st.advance(), parent)
    } else if st.peek().kind is LBrace {
        match parse_scope(st, parent) {
            Err(error) => Err(error),
            Ok((id, after)) => Ok((StatementView::Scope(id), after)),
        }
    } else {
        match parse_expression(st, parent) {
            Err(error) => Err(error),
            Ok((expression, after)) => if after.shorter_than(st) {
                parse_statement_rest(after, expression, parent)
            } else {
                fail(ParseErrorKind::UnexpectedToken, after.peek())
            },
        }
    }
}

/// What follows the expression that a statement starts with: `:` makes a
/// declaration of it, a compound assignment operator an assignment, `;` an
/// expression statement.
#[verifier::opaque]
pub open spec fn parse_statement_rest(
    st: ParseState,
    expression: ExpressionView,
    parent: ParentView,
) -> Parsed<StatementView>
    decreases st.input.len(), 4int,
{
    if st.peek().kind is Colon {
        parse_declaration(st.advance(), expression, st.peek(), parent)
    } else if is_compound_assignment(st.peek().kind) {
        parse_assignment(st.advance(), expression, st.peek(), parent)
    } else if st.peek().kind is Semicolon {
        Ok((StatementView::Expression(expression), st.advance()))
    } else {
        fail(ParseErrorKind::ExpectedSemicolon, st.peek())
    }
}

/// The rest of an assignment, after its operator: the right-hand expression
/// and `;`.
#[verifier::opaque]
pub open spec fn parse_assignment(
    st: ParseState,
    left: ExpressionView,
    operator: TokenView,
    parent: ParentView,
) -> Parsed<StatementView>
    decreases st.input.len(), 4int,
{
    match parse_expression(st, parent) {
        Err(error) => Err(error),
        Ok((right, after)) => if after.peek().kind is Semicolon {
            Ok(
                (
                    StatementView::Assignment { parent_data: parent, left, operator, right },
                    after.advance(),
                ),
            )
        } else {
            fail(ParseErrorKind::ExpectedSemicolon, after.peek())
        },
    }
}

/// The type and the binding of a declaration, after the `:` that follows
/// its name: a type unless `:` or `=` stands there, then `=` (the name can be
/// assigned again) or `:` (the name is a constant). Gives the type and
/// whether the name is a constant.
pub open spec fn parse_binding(st: ParseState, parent: ParentView) -> Parsed<
    (Option<TypeView>, bool),
> {
    let no_type = st.peek().kind is Colon || st.peek().kind is Equals;
    match parse_optional_type(st, no_type, parent) {
        Err(error) => Err(error),
        Ok((type_, typed)) => if typed.peek().kind is Equals {
            Ok(((type_, false), typed.advance()))
        } else if typed.peek().kind is Colon {
            Ok(((type_, true), typed.advance()))
        } else {
            fail(ParseErrorKind::ExpectedColonOrEquals, typed.peek())
        },
    }
}

/// The value of a declaration: an expression, unless `;` stands there.
#[verifier::opaque]
pub open spec fn parse_optional_value(st: ParseState, parent: ParentView) -> Parsed<
    Option<ExpressionView>,
>
    decreases st.input.len(), 4int,
{
    if st.peek().kind is Semicolon {
        Ok((None, st))
    } else {
        match parse_expression(st, parent) {
            Err(error) => Err(error),
            Ok((value, after)) => Ok((Some(value), after)),
        }
    }
}

/// The end of a declaration: `;`, unless the value is a procedure, whose
/// body closes it. Type and value cannot both be absent.
pub open spec fn finish_declaration(
    st: ParseState,
    name: TokenView,
    type_: Option<TypeView>,
    value: Option<ExpressionView>,
    constant: bool,
    parent: ParentView,
) -> Parsed<StatementView> {
    let closed_by_body = value matches Some(ExpressionView::Procedure { .. });
    if !closed_by_body && !(st.peek().kind is Semicolon) {
        fail(ParseErrorKind::ExpectedSemicolon, st.peek())
    } else if type_ is None && value is None {
        fail(ParseErrorKind::DeclarationWithoutTypeOrValue, name)
    } else {
        Ok(
            (
                StatementView::Declaration(
                    DeclarationView { parent_data: parent, name, type_, value, constant },
                ),
                st.advance_if(!closed_by_body),
            ),
        )
    }
}

/// The rest of a declaration, after the `:` that follows `named`, which
/// must be a bare name: type and binding, value, end.
#[verifier::opaque]
pub open spec fn parse_declaration(
    st: ParseState,
    named: ExpressionView,
    colon: TokenView,
    parent: ParentView,
) -> Parsed<StatementView>
    decreases st.input.len(), 3int,
{
    match named {
        ExpressionView::Name { token: name, .. } => match parse_binding(st, parent) {
            Err(error) => Err(error),
            Ok(((type_, constant), bound)) => match parse_optional_value(bound, parent) {
                Err(error) => Err(error),
                Ok((value, after)) => finish_declaration(
                    after,
                    name,
                    type_,
                    value,
                    constant,
                    parent,
                ),
            },
        },
        _ => fail(ParseErrorKind::ExpectedName, colon),
    }
}

/// An expression: operators bind by precedence, from bound 0.
#[verifier::opaque]
pub open spec fn parse_expression(st: ParseState, parent: ParentView) -> Parsed<ExpressionView>
    decreases st.input.len(), 3int,
{
    parse_binary_expression(st, 0, parent)
}

/// An expression whose infix operators all bind tighter than `bound`. A
/// prefix operator applies where it binds tighter than `bound`, and its
/// operand is read at the operator's own precedence.
#[verifier::opaque]
pub open spec fn parse_binary_expression(st: ParseState, bound: nat, parent: ParentView) -> Parsed<
    ExpressionView,
>
    decreases st.input.len(), 2int,
{
    let operator = st.peek();
    let precedence = unary_precedence(operator.kind);
    let first: Parsed<ExpressionView> = if precedence > bound {
        match parse_binary_expression(st.advance(), precedence, parent) {
            Err(error) => Err(error),
            Ok((operand, after)) => Ok(
                (
                    ExpressionView::Unary {
                        parent_data: parent,
                        operator,
                        operand: Box::new(operand),
                    },
                    after,
                ),
            ),
        }
    } else {
        parse_primary_expression(st, parent)
    };
    match first {
        Err(error) => Err(error),
        Ok((left, after)) => if after.shorter_than(st) {
            parse_infix(after, left, bound, parent)
        } else {
            fail(ParseErrorKind::UnexpectedToken, after.peek())
        },
    }
}

/// Folds the infix operators that follow `left` and bind tighter than
/// `bound` into `left`, each with the operand to its right, which is read at
/// the operator's precedence: operators of one precedence group to the left.
#[verifier::opaque]
pub open spec fn parse_infix(
    st: ParseState,
    left: ExpressionView,
    bound: nat,
    parent: ParentView,
) -> Parsed<ExpressionView>
    decreases st.input.len(), 1int,
{
    let operator = st.peek();
    let precedence = binary_precedence(operator.kind);
    if precedence == 0 || precedence <= bound {
        Ok((left, st))
    } else {
        match parse_binary_expression(st.advance(), precedence, parent) {
            Err(error) => Err(error),
            Ok((right, after)) => if after.shorter_than(st) {
                parse_infix(
                    after,
                    ExpressionView::Binary {
                        parent_data: parent,
                        left: Box::new(left),
                        operator,
                        right: Box::new(right),
                    },
                    bound,
                    parent,
                )
            } else {
                fail(ParseErrorKind::UnexpectedToken, after.peek())
            },
        }
    }
}

/// A name, a literal, or what `(` opens: `()` starts a procedure without
/// arguments; an expression followed by `:` must be a bare name and is the
/// first argument of a procedure; an expression followed by `)` stands for
/// itself.
#[verifier::opaque]
pub open spec fn parse_primary_expression(st: ParseState, parent: ParentView) -> Parsed<
    ExpressionView,
>
    decreases st.input.len(), 1int,
{
    let token = st.peek();
    if token.kind is Identifier {
        Ok((ExpressionView::Name { parent_data: parent, token }, st.advance()))
    } else if token.kind is Integer || token.kind is Float {
        Ok((ExpressionView::Literal { parent_data: parent, token }, st.advance()))
    } else if token.kind is LParen {
        let opened = st.advance();
        if opened.peek().kind is RParen {
            parse_procedure(opened.advance(), None, parent)
        } else {
            match parse_expression(opened, parent) {
                Err(error) => Err(error),
                Ok((expression, after)) => if !after.shorter_than(st) {
                    fail(ParseErrorKind::UnexpectedToken, after.peek())
                } else if after.peek().kind is Colon {
                    match expression {
                        ExpressionView::Name { token: name, .. } => parse_procedure(
                            after.advance(),
                            Some(name),
                            parent,
                        ),
                        _ => fail(ParseErrorKind::ExpectedName, after.peek()),
                    }
                } else if after.peek().kind is RParen {
                    Ok((expression, after.advance()))
                } else {
                    fail(ParseErrorKind::ExpectedRParen, after.peek())
                },
            }
        }
    } else {
        fail(ParseErrorKind::UnexpectedToken, token)
    }
}

/// A procedure, from after `()` or after the `:` that follows the name of
/// its first argument: the arguments up to `)`, an optional `->` with the
/// return type, and the body.
#[verifier::opaque]
pub open spec fn parse_procedure(
    st: ParseState,
    first_argument: Option<TokenView>,
    parent: ParentView,
) -> Parsed<ExpressionView>
    decreases st.input.len(), 2int,
{
    match first_argument {
        None => parse_procedure_tail(st, Seq::empty(), parent),
        Some(name) => match parse_argument(st, name, parent) {
            Err(error) => Err(error),
            Ok((argument, after)) => if !after.shorter_than(st) {
                fail(ParseErrorKind::UnexpectedToken, after.peek())
            } else {
                match parse_arguments(after, seq![argument], parent) {
                    Err(error) => Err(error),
                    Ok((arguments, closed)) => if closed.shorter_than(st) {
                        parse_procedure_tail(closed, arguments, parent)
                    } else {
                        fail(ParseErrorKind::UnexpectedToken, closed.peek())
                    },
                }
            },
        },
    }
}

/// What follows the name and `:` of an argument: a type unless `=` stands
/// there, then `=` and a default value unless `,` or `)` stands there. So an
/// argument has a type, a value or both.
#[verifier::opaque]
pub open spec fn parse_argument(st: ParseState, name: TokenView, parent: ParentView) -> Parsed<
    DeclarationView,
>
    decreases st.input.len(), 1int,
{
    match parse_optional_type(st, st.peek().kind is Equals, parent) {
        Err(error) => Err(error),
        Ok((type_, typed)) => if typed.peek().kind is Comma || typed.peek().kind is RParen {
            Ok(
                (
                    DeclarationView {
                        parent_data: parent,
                        name,
                        type_,
                        value: None,
                        constant: false,
                    },
                    typed,
                ),
            )
        } else if !(typed.peek().kind is Equals) {
            fail(ParseErrorKind::ExpectedEquals, typed.peek())
        } else {
            match parse_expression(typed.advance(), parent) {
                Err(error) => Err(error),
                Ok((value, after)) => Ok(
                    (
                        DeclarationView {
                            parent_data: parent,
                            name,
                            type_,
                            value: Some(value),
                            constant: false,
                        },
                        after,
                    ),
                ),
            }
        },
    }
}

/// The arguments after those in `read`, each led by `,`, up to and including
/// the `)` that closes the list.
#[verifier::opaque]
pub open spec fn parse_arguments(
    st: ParseState,
    read: Seq<DeclarationView>,
    parent: ParentView,
) -> Parsed<Seq<DeclarationView>>
    decreases st.input.len(), 1int,
{
    if st.peek().kind is Comma {
        let name = st.advance().peek();
        let named = st.advance().advance();
        if !(name.kind is Identifier) {
            fail(ParseErrorKind::ExpectedName, name)
        } else if !(named.peek().kind is Colon) {
            fail(ParseErrorKind::ExpectedColon, named.peek())
        } else {
            match parse_argument(named.advance(), name, parent) {
                Err(error) => Err(error),
                Ok((argument, after)) => if after.shorter_than(st) {
                    parse_arguments(after, read.push(argument), parent)
                } else {
                    fail(ParseErrorKind::UnexpectedToken, after.peek())
                },
            }
        }
    } else if st.peek().kind is RParen {
        Ok((read, st.advance()))
    } else {
        fail(ParseErrorKind::ExpectedRParen, st.peek())
    }
}

/// What follows the argument list of a procedure: `->` and the return type,
/// if any, and the body.
#[verifier::opaque]
pub open spec fn parse_procedure_tail(
    st: ParseState,
    arguments: Seq<DeclarationView>,
    parent: ParentView,
) -> Parsed<ExpressionView>
    decreases st.input.len(), 1int,
{
    let arrow = st.peek().kind is RightArrow;
    match parse_optional_type(st.advance_if(arrow), !arrow, parent) {
        Err(error) => Err(error),
        Ok((return_type, typed)) => match parse_scope(typed, parent) {
            Err(error) => Err(error),
            Ok((scope, after)) => Ok(
                (
                    ExpressionView::Procedure {
                        parent_data: parent,
                        arguments,
                        return_type,
                        scope,
                    },
                    after,
                ),
            ),
        },
    }
}

impl ParseState {
    /// The state after the lookahead has been consumed, if `condition` holds.
    pub open spec fn advance_if(self, condition: bool) -> ParseState {
        if condition {
            self.advance()
        } else {
            self
        }
    }
}

/// A file: statements up to the end of the tokens, in the top-level scope.
/// The top-level scope is the first of the arena and records the file, and
/// no scope, as what encloses it.
pub open spec fn parse_file(
    tokens: Seq<TokenView>,
    file_path: Seq<char>,
    source: Seq<char>,
    parent: ParentView,
) -> Result<FileView, ParseErrorView> {
    let top = ParentView { file: Some(FILE as nat), scope: parent.scope };
    let reserved = ScopeView { parent_data: top, statements: Seq::empty() };
    let st = ParseState { input: tokens, scopes: seq![reserved] };
    let inside = ParentView { file: Some(FILE as nat), scope: Some(TOP_LEVEL as nat) };
    match parse_statements(st, inside, Seq::empty(), true) {
        Err(error) => Err(error),
        Ok((statements, after)) => Ok(
            FileView {
                parent_data: parent,
                file_path,
                source,
                scope: TOP_LEVEL as nat,
                scopes: after.scopes.update(
                    TOP_LEVEL as int,
                    ScopeView { parent_data: top, statements },
                ),
            },
        ),
    }
}

} // verus!
