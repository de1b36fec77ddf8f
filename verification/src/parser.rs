//! The parser: pulls tokens from the lexer, one token of lookahead at a time,
//! and builds the syntax tree by recursive descent.

use crate::ast::{
    file_well_formed, lemma_procedure_view, lemma_view_all_empty, lemma_view_all_push,
    lemma_view_all_update, optional_expression_view, optional_type_view, view_all, Ast,
    AstAssignment, AstBinary, AstDeclaration, AstExpression, AstFile, AstLiteral, AstName,
    AstProcedure, AstScope, AstStatement, AstType, AstTypeName, AstUnary, AstView, FileView,
    ParentData, ParentView, ScopeId, ScopeView, FILE, TOP_LEVEL,
};
use crate::content::{content, file_tokens, lemma_file_content};
use crate::error::{ParseError, ParseErrorKind, ParseErrorView};
use crate::grammar;
use crate::grammar::{ParseState, Parsed};
use crate::lexer::Lexer;
use crate::lexical::{
    lemma_end_of_file_repeats, lemma_token_progress, token_at, tokens, tokens_from,
};
use crate::scoping::lemma_file_well_formed;
use crate::token::{Token, TokenKind, TokenView};
use vstd::prelude::*;

verus! {

/// The parser returned what the grammar gives for the state it started in,
/// and is left in the state that the grammar gives.
spec fn agrees<T: View>(
    result: Result<T, ParseError>,
    state: ParseState,
    expected: Parsed<T::V>,
) -> bool {
    match expected {
        Ok((node, after)) => result matches Ok(value) && value@ == node && state == after,
        Err(error) => result matches Err(e) && e@ == error,
    }
}

/// The lookahead, then what the lexer will yield, up to the end-of-file
/// token.
#[verifier::opaque]
spec fn stream(current: TokenView, lexer: Lexer) -> Seq<TokenView> {
    if current.kind is EndOfFile {
        seq![current]
    } else {
        seq![current] + tokens_from(lexer.text(), lexer.cursor())
    }
}

/// The lexer reads the text `source`, and once the lookahead is end-of-file
/// the lexer yields that token again.
#[verifier::opaque]
spec fn in_step(current: TokenView, lexer: Lexer, source: Seq<char>) -> bool {
    &&& lexer.wf()
    &&& lexer.text() == source
    &&& current.kind is EndOfFile ==> token_at(lexer.text(), lexer.cursor()) == current
}

/// A parser for one file. It holds the lexer and one token of lookahead.
pub struct Parser {
    file_path: String,
    source: String,
    lexer: Lexer,
    current: Token,
    scopes: Vec<AstScope>,
}

impl Parser {
    /// The path of the file that is parsed.
    pub closed spec fn path_text(&self) -> Seq<char> {
        self.file_path@
    }

    /// The text that is parsed.
    pub closed spec fn source_text(&self) -> Seq<char> {
        self.source@
    }

    /// The tokens not yet consumed.
    pub closed spec fn remaining(&self) -> Seq<TokenView> {
        stream(self.current@, self.lexer)
    }

    /// The tokens not yet consumed and the scopes created so far.
    spec fn state(&self) -> ParseState {
        ParseState { input: self.remaining(), scopes: view_all(self.scopes@) }
    }

    /// The parser and its lexer are in step, and the lookahead is the first
    /// of the tokens not yet consumed.
    pub closed spec fn wf(&self) -> bool {
        &&& in_step(self.current@, self.lexer, self.source@)
        &&& self.remaining().len() > 0
        &&& self.remaining()[0] == self.current@
    }

    /// The parser is sound, reads the same file as `before`, and has lost
    /// none of the scopes that `before` had.
    spec fn continues(&self, before: &Parser) -> bool {
        &&& self.wf()
        &&& self.file_path == before.file_path
        &&& self.source == before.source
        &&& before.scopes@.len() <= self.scopes@.len()
    }

    /// A parser for the text `source` of the file at `path`. Its lookahead is
    /// the first token of the text.
    pub fn new(path: &str, source: String) -> (parser: Parser)
        ensures
            parser.wf(),
            parser.path_text() == path@,
            parser.source_text() == source@,
            parser.remaining() == tokens(source@),
    {
        let mut lexer = Lexer::new(source.clone());
        let current = lexer.next_token();
        proof {
            reveal(stream);
            reveal(in_step);
            lemma_token_progress(source@, 0);
            if current@.kind is EndOfFile {
                lemma_end_of_file_repeats(source@, 0);
            }
        }
        let parser = Parser {
            file_path: String::from_str(path),
            source,
            lexer,
            current,
            scopes: Vec::new(),
        };
        assert(parser.remaining() =~= tokens(source@));
        parser
    }

    /// Returns the lookahead and takes the next token from the lexer.
    fn next_token(&mut self) -> (token: Token)
        requires
            old(self).wf(),
        ensures
            final(self).continues(old(self)),
            token@ == old(self).state().peek(),
            final(self).state() == old(self).state().advance(),
            final(self).scopes == old(self).scopes,
    {
        proof {
            reveal(stream);
            reveal(in_step);
            self.lexer.lemma_cursor_in_text();
            lemma_token_progress(self.lexer.text(), self.lexer.cursor());
            if self.current@.kind is EndOfFile {
                lemma_end_of_file_repeats(self.lexer.text(), self.lexer.cursor());
            }
        }
        let mut token = self.lexer.next_token();
        proof {
            if token@.kind is EndOfFile {
                lemma_end_of_file_repeats(old(self).lexer.text(), old(self).lexer.cursor());
            }
        }
        core::mem::swap(&mut self.current, &mut token);
        assert(self.remaining() =~= old(self).state().advance().input);
        token
    }

    fn unary_operator_precedence(token: &Token) -> (precedence: u64)
        ensures
            precedence == grammar::unary_precedence(token@.kind),
    {
        match token.kind {
            TokenKind::Plus => 3,
            TokenKind::Minus => 3,
            _ => 0,
        }
    }

    fn binary_operator_precedence(token: &Token) -> (precedence: u64)
        ensures
            precedence == grammar::binary_precedence(token@.kind),
    {
        match token.kind {
            TokenKind::Asterisk => 2,
            TokenKind::Slash => 2,
            TokenKind::Percent => 2,
            TokenKind::Plus => 1,
            TokenKind::Minus => 1,
            _ => 0,
        }
    }

    /// Consumes the lookahead and gives it back as the token at which the
    /// parse stops.
    fn error<T>(&mut self, kind: ParseErrorKind) -> (result: Result<T, ParseError>)
        requires
            old(self).wf(),
        ensures
            final(self).continues(old(self)),
            result matches Err(e) && e@ == (ParseErrorView {
                kind,
                token: old(self).state().peek(),
            }),
    {
        let token = self.next_token();
        Err(ParseError { kind, token })
    }

    fn parse_type(&mut self, parent_data: ParentData) -> (result: Result<AstType, ParseError>)
        requires
            old(self).wf(),
        ensures
            final(self).continues(old(self)),
            agrees(
                result,
                final(self).state(),
                grammar::parse_type(old(self).state(), parent_data@),
            ),
            result is Ok ==> final(self).state().shorter_than(old(self).state()),
    {
        match self.current.kind {
            TokenKind::Identifier(_) => {
                let name = self.next_token();
                Ok(AstType::Name(AstTypeName { parent_data, name }))
            },
            _ => self.error(ParseErrorKind::UnexpectedToken),
        }
    }

    #[verifier::spinoff_prover]
    fn parse_expression(&mut self, parent_data: ParentData) -> (result: Result<
        AstExpression,
        ParseError,
    >)
        requires
            old(self).wf(),
        ensures
            final(self).continues(old(self)),
            agrees(
                result,
                final(self).state(),
                grammar::parse_expression(old(self).state(), parent_data@),
            ),
            result is Ok ==> final(self).state().shorter_than(old(self).state()),
        decreases old(self).remaining().len(), 3int,
    {
        proof {
            reveal(grammar::parse_expression);
            reveal(grammar::parse_binary_expression);
        }
        self.parse_binary_expression(0, parent_data)
    }

    #[verifier::spinoff_prover]
    #[verifier::loop_isolation(false)]
    fn parse_binary_expression(
        &mut self,
        parent_precedence: u64,
        parent_data: ParentData,
    ) -> (result: Result<AstExpression, ParseError>)
        requires
            old(self).wf(),
        ensures
            final(self).continues(old(self)),
            agrees(
                result,
                final(self).state(),
                grammar::parse_binary_expression(
                    old(self).state(),
                    parent_precedence as nat,
                    parent_data@,
                ),
            ),
            result is Ok ==> final(self).state().shorter_than(old(self).state()),
        decreases old(self).remaining().len(), 2int,
    {
        proof {
            reveal(grammar::parse_binary_expression);
            reveal(grammar::parse_infix);
            reveal(grammar::parse_primary_expression);
        }
        let ghost expected = grammar::parse_binary_expression(
            old(self).state(),
            parent_precedence as nat,
            parent_data@,
        );
        let unary_precedence = Parser::unary_operator_precedence(&self.current);
        let mut left = if unary_precedence > parent_precedence {
            let operator = self.next_token();
            match self.parse_binary_expression(unary_precedence, parent_data) {
                Ok(operand) => AstExpression::Unary(
                    Box::new(AstUnary { parent_data, operator, operand }),
                ),
                Err(error) => {
                    return Err(error);
                },
            }
        } else {
            match self.parse_primary_expression(parent_data) {
                Ok(expression) => expression,
                Err(error) => {
                    return Err(error);
                },
            }
        };
        loop
            invariant
                self.continues(old(self)),
                self.state().shorter_than(old(self).state()),
                expected == grammar::parse_infix(
                    self.state(),
                    left@,
                    parent_precedence as nat,
                    parent_data@,
                ),
            decreases self.remaining().len(),
        {
            let precedence = Parser::binary_operator_precedence(&self.current);
            if precedence == 0 || precedence <= parent_precedence {
                return Ok(left);
            }
            let operator = self.next_token();
            match self.parse_binary_expression(precedence, parent_data) {
                Ok(right) => {
                    left = AstExpression::Binary(
                        Box::new(AstBinary { parent_data, left, operator, right }),
                    );
                },
                Err(error) => {
                    return Err(error);
                },
            }
        }
    }

    #[verifier::spinoff_prover]
    fn parse_primary_expression(&mut self, parent_data: ParentData) -> (result: Result<
        AstExpression,
        ParseError,
    >)
        requires
            old(self).wf(),
        ensures
            final(self).continues(old(self)),
            agrees(
                result,
                final(self).state(),
                grammar::parse_primary_expression(old(self).state(), parent_data@),
            ),
            result is Ok ==> final(self).state().shorter_than(old(self).state()),
        decreases old(self).remaining().len(), 1int,
    {
        proof {
            reveal(grammar::parse_primary_expression);
            reveal(grammar::parse_procedure);
            reveal(grammar::parse_expression);
        }
        match self.current.kind {
            TokenKind::Identifier(_) => {
                let token = self.next_token();
                Ok(AstExpression::Name(AstName { parent_data, token }))
            },
            TokenKind::Integer(_) | TokenKind::Float(_) => {
                let token = self.next_token();
                Ok(AstExpression::Literal(AstLiteral { parent_data, token }))
            },
            TokenKind::LParen => {
                self.next_token();
                if matches!(self.current.kind, TokenKind::RParen) {
                    self.next_token();
                    return self.parse_procedure(None, parent_data);
                }
                let expression = match self.parse_expression(parent_data) {
                    Ok(expression) => expression,
                    Err(error) => {
                        return Err(error);
                    },
                };
                match self.current.kind {
                    TokenKind::Colon => match expression {
                        AstExpression::Name(name) => {
                            self.next_token();
                            self.parse_procedure(Some(name), parent_data)
                        },
                        _ => self.error(ParseErrorKind::ExpectedName),
                    },
                    TokenKind::RParen => {
                        self.next_token();
                        Ok(expression)
                    },
                    _ => self.error(ParseErrorKind::ExpectedRParen),
                }
            },
            _ => self.error(ParseErrorKind::UnexpectedToken),
        }
    }

    /// The type and the default value of a procedure argument, after its
    /// name and `:`.
    #[verifier::spinoff_prover]
    fn parse_argument(&mut self, name: Token, parent_data: ParentData) -> (result: Result<
        AstDeclaration,
        ParseError,
    >)
        requires
            old(self).wf(),
        ensures
            final(self).continues(old(self)),
            agrees(
                result,
                final(self).state(),
                grammar::parse_argument(old(self).state(), name@, parent_data@),
            ),
            result is Ok ==> final(self).state().shorter_than(old(self).state()),
        decreases old(self).remaining().len(), 1int,
    {
        proof {
            reveal(grammar::parse_argument);
            reveal(grammar::parse_expression);
        }
        let type_ = if matches!(self.current.kind, TokenKind::Equals) {
            None
        } else {
            match self.parse_type(parent_data) {
                Ok(type_) => Some(type_),
                Err(error) => {
                    return Err(error);
                },
            }
        };
        let value = match self.current.kind {
            TokenKind::Comma | TokenKind::RParen => None,
            TokenKind::Equals => {
                self.next_token();
                match self.parse_expression(parent_data) {
                    Ok(value) => Some(value),
                    Err(error) => {
                        return Err(error);
                    },
                }
            },
            _ => {
                return self.error(ParseErrorKind::ExpectedEquals);
            },
        };
        Ok(AstDeclaration { parent_data, name, type_, value, constant: false })
    }
}

/// The name of the first argument of a procedure, where it has one.
spec fn first_argument_view(name: Option<AstName>) -> Option<TokenView> {
    match name {
        Some(name) => Some(name.token@),
        None => None,
    }
}

impl Parser {
    #[verifier::spinoff_prover]
    fn parse_procedure(
        &mut self,
        first_arg_name: Option<AstName>,
        parent_data: ParentData,
    ) -> (result: Result<AstExpression, ParseError>)
        requires
            old(self).wf(),
        ensures
            final(self).continues(old(self)),
            agrees(
                result,
                final(self).state(),
                grammar::parse_procedure(
                    old(self).state(),
                    first_argument_view(first_arg_name),
                    parent_data@,
                ),
            ),
            result is Ok ==> final(self).state().shorter_than(old(self).state()),
        decreases old(self).remaining().len(), 2int,
    {
        proof {
            reveal(grammar::parse_procedure);
            reveal(grammar::parse_argument);
            reveal(grammar::parse_arguments);
            reveal(grammar::parse_procedure_tail);
            lemma_view_all_empty::<AstDeclaration>();
        }
        let mut arguments: Vec<AstDeclaration> = Vec::new();
        match first_arg_name {
            None => self.parse_procedure_tail(arguments, parent_data),
            Some(name) => {
                match self.parse_argument(name.token, parent_data) {
                    Ok(argument) => {
                        proof {
                            lemma_view_all_push(arguments@, argument);
                        }
                        arguments.push(argument);
                    },
                    Err(error) => {
                        return Err(error);
                    },
                }
                assert(view_all(arguments@) =~= seq![arguments@[0]@]);
                match self.parse_arguments(arguments, parent_data) {
                    Ok(arguments) => self.parse_procedure_tail(arguments, parent_data),
                    Err(error) => Err(error),
                }
            },
        }
    }

    /// The arguments after those in `arguments`, up to and including `)`.
    #[verifier::spinoff_prover]
    #[verifier::loop_isolation(false)]
    fn parse_arguments(
        &mut self,
        arguments: Vec<AstDeclaration>,
        parent_data: ParentData,
    ) -> (result: Result<Vec<AstDeclaration>, ParseError>)
        requires
            old(self).wf(),
        ensures
            final(self).continues(old(self)),
            match grammar::parse_arguments(old(self).state(), view_all(arguments@), parent_data@) {
                Ok((read, after)) => {
                    &&& result matches Ok(all) && view_all(all@) == read
                    &&& final(self).state() == after
                },
                Err(error) => result matches Err(e) && e@ == error,
            },
            result is Ok ==> final(self).state().shorter_than(old(self).state()),
        decreases old(self).remaining().len(), 1int,
    {
        proof {
            reveal(grammar::parse_arguments);
            reveal(grammar::parse_argument);
        }
        let ghost expected = grammar::parse_arguments(
            old(self).state(),
            view_all(arguments@),
            parent_data@,
        );
        let mut arguments = arguments;
        loop
            invariant
                self.continues(old(self)),
                self.state().input.len() <= old(self).state().input.len(),
                expected == grammar::parse_arguments(
                    self.state(),
                    view_all(arguments@),
                    parent_data@,
                ),
            decreases self.remaining().len(),
        {
            match self.current.kind {
                TokenKind::Comma => {
                    self.next_token();
                    let name = self.next_token();
                    if !matches!(name.kind, TokenKind::Identifier(_)) {
                        return Err(ParseError { kind: ParseErrorKind::ExpectedName, token: name });
                    }
                    if !matches!(self.current.kind, TokenKind::Colon) {
                        return self.error(ParseErrorKind::ExpectedColon);
                    }
                    self.next_token();
                    match self.parse_argument(name, parent_data) {
                        Ok(argument) => {
                            proof {
                                lemma_view_all_push(arguments@, argument);
                            }
                            arguments.push(argument);
                        },
                        Err(error) => {
                            return Err(error);
                        },
                    }
                },
                TokenKind::RParen => {
                    self.next_token();
                    return Ok(arguments);
                },
                _ => {
                    return self.error(ParseErrorKind::ExpectedRParen);
                },
            }
        }
    }

    /// The return type and the body of a procedure, after its arguments.
    #[verifier::spinoff_prover]
    fn parse_procedure_tail(
        &mut self,
        arguments: Vec<AstDeclaration>,
        parent_data: ParentData,
    ) -> (result: Result<AstExpression, ParseError>)
        requires
            old(self).wf(),
        ensures
            final(self).continues(old(self)),
            agrees(
                result,
                final(self).state(),
                grammar::parse_procedure_tail(
                    old(self).state(),
                    view_all(arguments@),
                    parent_data@,
                ),
            ),
            result is Ok ==> final(self).state().shorter_than(old(self).state()),
        decreases old(self).remaining().len(), 1int,
    {
        proof {
            reveal(grammar::parse_procedure_tail);
            reveal(grammar::parse_scope);
        }
        let return_type = if matches!(self.current.kind, TokenKind::RightArrow) {
            self.next_token();
            match self.parse_type(parent_data) {
                Ok(type_) => Some(type_),
                Err(error) => {
                    return Err(error);
                },
            }
        } else {
            None
        };
        let scope = match self.parse_scope(parent_data) {
            Ok(scope) => scope,
            Err(error) => {
                return Err(error);
            },
        };
        let procedure = AstProcedure { parent_data, arguments, return_type, scope };
        proof {
            lemma_procedure_view(procedure);
        }
        Ok(AstExpression::Procedure(Box::new(procedure)))
    }

    #[verifier::spinoff_prover]
    #[verifier::loop_isolation(false)]
    fn parse_scope(&mut self, parent_data: ParentData) -> (result: Result<ScopeId, ParseError>)
        requires
            old(self).wf(),
        ensures
            final(self).continues(old(self)),
            match grammar::parse_scope(old(self).state(), parent_data@) {
                Ok((scope, after)) => {
                    &&& result matches Ok(id) && id as nat == scope
                    &&& final(self).state() == after
                },
                Err(error) => result matches Err(e) && e@ == error,
            },
            result is Ok ==> final(self).state().shorter_than(old(self).state()),
        decreases old(self).remaining().len(), 0int,
    {
        proof {
            reveal(grammar::parse_scope);
            reveal(grammar::parse_statements);
            reveal(grammar::parse_statement);
        }
        let ghost start = old(self).state();
        let ghost expected = grammar::parse_scope(start, parent_data@);
        if !matches!(self.current.kind, TokenKind::LBrace) {
            return self.error(ParseErrorKind::ExpectedLBrace);
        }
        self.next_token();
        let id = self.scopes.len();
        let reserved = AstScope { parent_data, statements: Vec::new() };
        proof {
            lemma_view_all_empty::<AstStatement>();
            lemma_view_all_push(self.scopes@, reserved);
        }
        self.scopes.push(reserved);
        let inside = ParentData { file: parent_data.file, scope: Some(id) };
        let mut statements: Vec<AstStatement> = Vec::new();
        while !matches!(self.current.kind, TokenKind::RBrace)
            invariant
                self.continues(old(self)),
                id < self.scopes@.len(),
                self.state().shorter_than(start),
                expected == (match grammar::parse_statements(
                    self.state(),
                    inside@,
                    view_all(statements@),
                    false,
                ) {
                    Err(error) => Err(error),
                    Ok((read, after)) => Ok(
                        (
                            id as nat,
                            ParseState {
                                input: after.advance().input,
                                scopes: after.scopes.update(
                                    id as int,
                                    ScopeView { parent_data: parent_data@, statements: read },
                                ),
                            },
                        ),
                    ),
                }),
            decreases self.remaining().len(),
        {
            match self.parse_statement(inside) {
                Ok(statement) => {
                    proof {
                        lemma_view_all_push(statements@, statement);
                    }
                    statements.push(statement);
                },
                Err(error) => {
                    return Err(error);
                },
            }
        }
        self.next_token();
        let scope = AstScope { parent_data, statements };
        proof {
            lemma_view_all_update(self.scopes@, id as int, scope);
        }
        self.scopes.set(id, scope);
        Ok(id)
    }

    #[verifier::spinoff_prover]
    fn parse_statement(&mut self, parent_data: ParentData) -> (result: Result<
        AstStatement,
        ParseError,
    >)
        requires
            old(self).wf(),
        ensures
            final(self).continues(old(self)),
            agrees(
                result,
                final(self).state(),
                grammar::parse_statement(old(self).state(), parent_data@),
            ),
            result is Ok ==> final(self).state().shorter_than(old(self).state()),
        decreases old(self).remaining().len(), 4int,
    {
        proof {
            reveal(grammar::parse_statement);
            reveal(grammar::parse_scope);
            reveal(grammar::parse_expression);
            reveal(grammar::parse_statement_rest);
        }
        match self.current.kind {
            TokenKind::Semicolon => {
                self.next_token();
                self.parse_statement(parent_data)
            },
            TokenKind::LBrace => match self.parse_scope(parent_data) {
                Ok(id) => Ok(AstStatement::Scope(id)),
                Err(error) => Err(error),
            },
            _ => match self.parse_expression(parent_data) {
                Ok(expression) => self.parse_statement_rest(expression, parent_data),
                Err(error) => Err(error),
            },
        }
    }

    /// What follows the expression that a statement starts with.
    #[verifier::spinoff_prover]
    fn parse_statement_rest(
        &mut self,
        expression: AstExpression,
        parent_data: ParentData,
    ) -> (result: Result<AstStatement, ParseError>)
        requires
            old(self).wf(),
        ensures
            final(self).continues(old(self)),
            agrees(
                result,
                final(self).state(),
                grammar::parse_statement_rest(old(self).state(), expression@, parent_data@),
            ),
            result is Ok ==> final(self).state().shorter_than(old(self).state()),
        decreases old(self).remaining().len(), 4int,
    {
        proof {
            reveal(grammar::parse_statement_rest);
            reveal(grammar::parse_declaration);
            reveal(grammar::parse_assignment);
        }
        match self.current.kind {
            TokenKind::Colon => {
                let colon = self.next_token();
                self.parse_declaration(expression, colon, parent_data)
            },
            TokenKind::PlusEquals
            | TokenKind::MinusEquals
            | TokenKind::AsteriskEquals
            | TokenKind::SlashEquals
            | TokenKind::PercentEquals => {
                let operator = self.next_token();
                self.parse_assignment(expression, operator, parent_data)
            },
            TokenKind::Semicolon => {
                self.next_token();
                Ok(AstStatement::Expression(expression))
            },
            _ => self.error(ParseErrorKind::ExpectedSemicolon),
        }
    }

    /// The right-hand side and the end of an assignment, after its operator.
    #[verifier::spinoff_prover]
    fn parse_assignment(
        &mut self,
        left: AstExpression,
        operator: Token,
        parent_data: ParentData,
    ) -> (result: Result<AstStatement, ParseError>)
        requires
            old(self).wf(),
        ensures
            final(self).continues(old(self)),
            agrees(
                result,
                final(self).state(),
                grammar::parse_assignment(old(self).state(), left@, operator@, parent_data@),
            ),
            result is Ok ==> final(self).state().shorter_than(old(self).state()),
        decreases old(self).remaining().len(), 4int,
    {
        proof {
            reveal(grammar::parse_assignment);
            reveal(grammar::parse_expression);
        }
        let right = match self.parse_expression(parent_data) {
            Ok(right) => right,
            Err(error) => {
                return Err(error);
            },
        };
        if !matches!(self.current.kind, TokenKind::Semicolon) {
            return self.error(ParseErrorKind::ExpectedSemicolon);
        }
        self.next_token();
        Ok(AstStatement::Assignment(AstAssignment { parent_data, left, operator, right }))
    }

    /// The type and the binding of a declaration, after the `:` that follows
    /// its name. Gives the type and whether the name is a constant.
    #[verifier::spinoff_prover]
    fn parse_binding(&mut self, parent_data: ParentData) -> (result: Result<
        (Option<AstType>, bool),
        ParseError,
    >)
        requires
            old(self).wf(),
        ensures
            final(self).continues(old(self)),
            match grammar::parse_binding(old(self).state(), parent_data@) {
                Ok(((type_, constant), after)) => {
                    &&& result matches Ok(binding) && optional_type_view(binding.0) == type_
                        && binding.1 == constant
                    &&& final(self).state() == after
                },
                Err(error) => result matches Err(e) && e@ == error,
            },
            result is Ok ==> final(self).state().shorter_than(old(self).state()),
    {
        let type_ = match self.current.kind {
            TokenKind::Colon | TokenKind::Equals => None,
            _ => match self.parse_type(parent_data) {
                Ok(type_) => Some(type_),
                Err(error) => {
                    return Err(error);
                },
            },
        };
        let constant = match self.current.kind {
            TokenKind::Equals => false,
            TokenKind::Colon => true,
            _ => {
                return self.error(ParseErrorKind::ExpectedColonOrEquals);
            },
        };
        self.next_token();
        Ok((type_, constant))
    }

    /// The value of a declaration, unless `;` stands there.
    #[verifier::spinoff_prover]
    fn parse_optional_value(&mut self, parent_data: ParentData) -> (result: Result<
        Option<AstExpression>,
        ParseError,
    >)
        requires
            old(self).wf(),
        ensures
            final(self).continues(old(self)),
            match grammar::parse_optional_value(old(self).state(), parent_data@) {
                Ok((value, after)) => result matches Ok(parsed) && optional_expression_view(parsed)
                    == value && final(self).state() == after,
                Err(error) => result matches Err(e) && e@ == error,
            },
            result is Ok ==> final(self).state().input.len() <= old(self).state().input.len(),
        decreases old(self).remaining().len(), 4int,
    {
        proof {
            reveal(grammar::parse_optional_value);
            reveal(grammar::parse_expression);
        }
        if matches!(self.current.kind, TokenKind::Semicolon) {
            Ok(None)
        } else {
            match self.parse_expression(parent_data) {
                Ok(value) => Ok(Some(value)),
                Err(error) => Err(error),
            }
        }
    }

    /// The end of a declaration: checks that it has a type or a value, and
    /// consumes the `;` that closes it unless the value is a procedure.
    #[verifier::spinoff_prover]
    fn finish_declaration(
        &mut self,
        name: Token,
        type_: Option<AstType>,
        value: Option<AstExpression>,
        constant: bool,
        parent_data: ParentData,
    ) -> (result: Result<AstStatement, ParseError>)
        requires
            old(self).wf(),
        ensures
            final(self).continues(old(self)),
            agrees(
                result,
                final(self).state(),
                grammar::finish_declaration(
                    old(self).state(),
                    name@,
                    optional_type_view(type_),
                    optional_expression_view(value),
                    constant,
                    parent_data@,
                ),
            ),
            result is Ok ==> final(self).state().input.len() <= old(self).state().input.len(),
    {
        let closed_by_body = match &value {
            Some(AstExpression::Procedure(_)) => true,
            _ => false,
        };
        if !closed_by_body && !matches!(self.current.kind, TokenKind::Semicolon) {
            return self.error(ParseErrorKind::ExpectedSemicolon);
        }
        if type_.is_none() && value.is_none() {
            return Err(
                ParseError { kind: ParseErrorKind::DeclarationWithoutTypeOrValue, token: name },
            );
        }
        if !closed_by_body {
            self.next_token();
        }
        Ok(
            AstStatement::Declaration(
                AstDeclaration { parent_data, name, type_, value, constant },
            ),
        )
    }

    /// The rest of a declaration, after the expression `named` and the
    /// `colon` that follows it.
    #[verifier::spinoff_prover]
    fn parse_declaration(
        &mut self,
        named: AstExpression,
        colon: Token,
        parent_data: ParentData,
    ) -> (result: Result<AstStatement, ParseError>)
        requires
            old(self).wf(),
        ensures
            final(self).continues(old(self)),
            agrees(
                result,
                final(self).state(),
                grammar::parse_declaration(old(self).state(), named@, colon@, parent_data@),
            ),
            result is Ok ==> final(self).state().shorter_than(old(self).state()),
        decreases old(self).remaining().len(), 3int,
    {
        proof {
            reveal(grammar::parse_declaration);
            reveal(grammar::parse_optional_value);
        }
        let name = match named {
            AstExpression::Name(name) => name.token,
            _ => {
                return Err(ParseError { kind: ParseErrorKind::ExpectedName, token: colon });
            },
        };
        let (type_, constant) = match self.parse_binding(parent_data) {
            Ok(binding) => binding,
            Err(error) => {
                return Err(error);
            },
        };
        let value = match self.parse_optional_value(parent_data) {
            Ok(value) => value,
            Err(error) => {
                return Err(error);
            },
        };
        self.finish_declaration(name, type_, value, constant, parent_data)
    }

    /// Parses the whole text. Gives the tree of the file where the tokens
    /// follow the grammar, and else the error at which the grammar stops: no
    /// part of a tree comes with an error. In the tree every node records the
    /// file and the innermost scope that holds it, and the tokens of the
    /// tree are the names, literals and operators of the text, in order.
    pub fn parse(&mut self) -> (result: Result<Ast, ParseError>)
        requires
            old(self).wf(),
        ensures
            final(self).wf(),
            final(self).path_text() == old(self).path_text(),
            final(self).source_text() == old(self).source_text(),
            match grammar::parse_file(
                old(self).remaining(),
                old(self).path_text(),
                old(self).source_text(),
                ParentView { file: None, scope: None },
            ) {
                Ok(file) => {
                    &&& result matches Ok(tree) && tree@ == AstView::File(file)
                    &&& file_well_formed(file)
                    &&& file_tokens(file) == content(old(self).remaining())
                },
                Err(error) => result matches Err(e) && e@ == error,
            },
    {
        proof {
            lemma_file_well_formed(self.remaining(), self.path_text(), self.source_text());
            lemma_file_content(self.remaining(), self.path_text(), self.source_text());
        }
        match self.parse_file(ParentData { file: None, scope: None }) {
            Ok(file) => Ok(Ast::File(file)),
            Err(error) => Err(error),
        }
    }

    #[verifier::spinoff_prover]
    #[verifier::loop_isolation(false)]
    fn parse_file(&mut self, parent_data: ParentData) -> (result: Result<AstFile, ParseError>)
        requires
            old(self).wf(),
        ensures
            final(self).wf(),
            final(self).path_text() == old(self).path_text(),
            final(self).source_text() == old(self).source_text(),
            match grammar::parse_file(
                old(self).remaining(),
                old(self).path_text(),
                old(self).source_text(),
                parent_data@,
            ) {
                Ok(file) => result matches Ok(parsed) && parsed@ == file,
                Err(error) => result matches Err(e) && e@ == error,
            },
    {
        proof {
            reveal(grammar::parse_statements);
            reveal(grammar::parse_statement);
        }
        let ghost expected = grammar::parse_file(
            old(self).remaining(),
            old(self).path_text(),
            old(self).source_text(),
            parent_data@,
        );
        let file_path = self.file_path.clone();
        let source = self.source.clone();
        let top = ParentData { file: Some(FILE), scope: parent_data.scope };
        let reserved = AstScope { parent_data: top, statements: Vec::new() };
        let mut scopes: Vec<AstScope> = Vec::new();
        proof {
            lemma_view_all_empty::<AstStatement>();
            lemma_view_all_empty::<AstScope>();
            lemma_view_all_push(scopes@, reserved);
        }
        scopes.push(reserved);
        self.scopes = scopes;
        assert(view_all(self.scopes@) =~= seq![
            ScopeView { parent_data: top@, statements: Seq::empty() },
        ]);
        let inside = ParentData { file: Some(FILE), scope: Some(TOP_LEVEL) };
        let mut statements: Vec<AstStatement> = Vec::new();
        while !matches!(self.current.kind, TokenKind::EndOfFile)
            invariant
                self.wf(),
                self.file_path == old(self).file_path,
                self.source == old(self).source,
                0 < self.scopes@.len(),
                expected == (match grammar::parse_statements(
                    self.state(),
                    inside@,
                    view_all(statements@),
                    true,
                ) {
                    Err(error) => Err(error),
                    Ok((read, after)) => Ok(
                        FileView {
                            parent_data: parent_data@,
                            file_path: old(self).path_text(),
                            source: old(self).source_text(),
                            scope: TOP_LEVEL as nat,
                            scopes: after.scopes.update(
                                TOP_LEVEL as int,
                                ScopeView { parent_data: top@, statements: read },
                            ),
                        },
                    ),
                }),
            decreases self.remaining().len(),
        {
            match self.parse_statement(inside) {
                Ok(statement) => {
                    proof {
                        lemma_view_all_push(statements@, statement);
                    }
                    statements.push(statement);
                },
                Err(error) => {
                    return Err(error);
                },
            }
        }
        let mut scopes: Vec<AstScope> = Vec::new();
        core::mem::swap(&mut self.scopes, &mut scopes);
        let scope = AstScope { parent_data: top, statements };
        proof {
            lemma_view_all_update(scopes@, TOP_LEVEL as int, scope);
        }
        scopes.set(TOP_LEVEL, scope);
        Ok(AstFile { parent_data, file_path, source, scope: TOP_LEVEL, scopes })
    }
}

} // verus!
