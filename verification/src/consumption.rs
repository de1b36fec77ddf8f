//! What a part consumes: at least one token, and brackets in pairs.
//!
//! Where a grammar function goes on after a part, it first asks that the
//! part left fewer tokens than there were. These proofs show that the
//! answer is always yes: no parse stops for that reason. They also show
//! that the tokens of a part hold as many `{` as `}` and as many `(` as `)`,
//! so that a text with a bracket left open or closed too often has no tree.

use crate::ast::{
    DeclarationView, ExpressionView, ParentView, ScopeView, StatementView, FILE, TOP_LEVEL,
};
use crate::grammar::{
    binary_precedence, is_compound_assignment, parse_argument, parse_arguments, parse_assignment,
    parse_binary_expression, parse_binding, parse_declaration, parse_expression, parse_file,
    parse_infix, parse_optional_type, parse_optional_value, parse_primary_expression,
    parse_procedure, parse_procedure_tail, parse_scope, parse_statement, parse_statement_rest,
    parse_statements, unary_precedence, ParseState, Parsed,
};
use crate::token::{TokenKindView, TokenView};
use vstd::prelude::*;

verus! {

/// What a token adds to the number of braces that are open.
pub open spec fn brace_step(kind: TokenKindView) -> int {
    if kind is LBrace {
        1
    } else if kind is RBrace {
        -1
    } else {
        0
    }
}

/// What a token adds to the number of parentheses that are open.
pub open spec fn paren_step(kind: TokenKindView) -> int {
    if kind is LParen {
        1
    } else if kind is RParen {
        -1
    } else {
        0
    }
}

/// The number of `{` less the number of `}` among the tokens before the
/// first end-of-file token.
pub open spec fn braces(input: Seq<TokenView>) -> int
    decreases input.len(),
{
    if input.len() == 0 || input[0].kind is EndOfFile {
        0
    } else {
        brace_step(input[0].kind) + braces(input.drop_first())
    }
}

/// The number of `(` less the number of `)` among the tokens before the
/// first end-of-file token.
pub open spec fn parens(input: Seq<TokenView>) -> int
    decreases input.len(),
{
    if input.len() == 0 || input[0].kind is EndOfFile {
        0
    } else {
        paren_step(input[0].kind) + parens(input.drop_first())
    }
}

/// As many brackets are open after `after` as after `st`.
pub open spec fn level(st: ParseState, after: ParseState) -> bool {
    &&& braces(after.input) == braces(st.input)
    &&& parens(after.input) == parens(st.input)
}

/// Where `result` is a node, fewer tokens are left after it than in `st`,
/// and the tokens of the node hold their brackets in pairs.
pub open spec fn consumes<T>(st: ParseState, result: Parsed<T>) -> bool {
    match result {
        Ok((_, after)) => after.shorter_than(st) && level(st, after),
        Err(_) => true,
    }
}

/// Where `result` is the rest of an argument list, fewer tokens are left
/// after it than in `st`, and its tokens hold their brackets in pairs but
/// for the `)` that closes the list.
pub open spec fn consumes_to_closing<T>(st: ParseState, result: Parsed<T>) -> bool {
    match result {
        Ok((_, after)) => {
            &&& after.shorter_than(st)
            &&& braces(after.input) == braces(st.input)
            &&& parens(after.input) == parens(st.input) + 1
        },
        Err(_) => true,
    }
}

/// Where `result` is a node, no more tokens are left after it than in `st`,
/// and the tokens of the node hold their brackets in pairs.
pub open spec fn keeps<T>(st: ParseState, result: Parsed<T>) -> bool {
    match result {
        Ok((_, after)) => after.input.len() <= st.input.len() && level(st, after),
        Err(_) => true,
    }
}

/// Consuming a token changes the number of open brackets by what the token
/// adds.
pub proof fn lemma_step(st: ParseState)
    ensures
        st.input.len() > 0 && !(st.peek().kind is EndOfFile) ==> {
            &&& braces(st.input) == brace_step(st.peek().kind) + braces(st.advance().input)
            &&& parens(st.input) == paren_step(st.peek().kind) + parens(st.advance().input)
        },
        !(st.input.len() > 0 && !(st.peek().kind is EndOfFile)) ==> st.advance() == st,
{
}

/// A type reference holds no bracket.
proof fn lemma_type_level(st: ParseState, absent: bool, parent: ParentView)
    ensures
        keeps(st, parse_optional_type(st, absent, parent)),
{
    lemma_step(st);
}

/// A name, a literal or what `(` opens: reading takes tokens, and brackets in pairs.
#[verifier::spinoff_prover]
pub proof fn lemma_primary_expression_consumes(st: ParseState, parent: ParentView)
    ensures
        consumes(st, parse_primary_expression(st, parent)),
    decreases st.input.len(), 1int,
{
    reveal(parse_primary_expression);
    reveal(parse_procedure);
    reveal(parse_expression);
    lemma_step(st);
    lemma_step(st.advance());
    if st.peek().kind is LParen {
        let opened = st.advance();
        if opened.peek().kind is RParen {
            lemma_procedure_consumes(opened.advance(), None, parent);
        } else {
            lemma_expression_consumes(opened, parent);
            match parse_expression(opened, parent) {
                Ok((expression, after)) => {
                    lemma_step(after);
                    if after.shorter_than(st) && after.peek().kind is Colon {
                        match expression {
                            ExpressionView::Name { token: name, .. } => {
                                lemma_procedure_consumes(after.advance(), Some(name), parent);
                            },
                            _ => {},
                        }
                    }
                },
                Err(_) => {},
            }
        }
    }
}

/// An expression: reading takes tokens, and brackets in pairs.
#[verifier::spinoff_prover]
pub proof fn lemma_expression_consumes(st: ParseState, parent: ParentView)
    ensures
        consumes(st, parse_expression(st, parent)),
    decreases st.input.len(), 3int,
{
    reveal(parse_expression);
    reveal(parse_binary_expression);
    lemma_binary_expression_consumes(st, 0, parent);
}

/// An expression read at a bound: reading takes tokens, and brackets in pairs.
#[verifier::spinoff_prover]
pub proof fn lemma_binary_expression_consumes(st: ParseState, bound: nat, parent: ParentView)
    ensures
        consumes(st, parse_binary_expression(st, bound, parent)),
    decreases st.input.len(), 2int,
{
    reveal(parse_binary_expression);
    reveal(parse_primary_expression);
    reveal(parse_infix);
    lemma_step(st);
    let operator = st.peek();
    let precedence = unary_precedence(operator.kind);
    if precedence > bound {
        lemma_binary_expression_consumes(st.advance(), precedence, parent);
        match parse_binary_expression(st.advance(), precedence, parent) {
            Ok((operand, after)) => {
                let left = ExpressionView::Unary {
                    parent_data: parent,
                    operator,
                    operand: Box::new(operand),
                };
                lemma_infix_keeps(after, left, bound, parent);
            },
            Err(_) => {},
        }
    } else {
        lemma_primary_expression_consumes(st, parent);
        match parse_primary_expression(st, parent) {
            Ok((left, after)) => {
                lemma_infix_keeps(after, left, bound, parent);
            },
            Err(_) => {},
        }
    }
}

/// The infix operators that follow an expression: reading takes no token
/// back, and takes brackets in pairs.
#[verifier::spinoff_prover]
pub proof fn lemma_infix_keeps(st: ParseState, left: ExpressionView, bound: nat, parent: ParentView)
    ensures
        keeps(st, parse_infix(st, left, bound, parent)),
    decreases st.input.len(), 1int,
{
    reveal(parse_infix);
    reveal(parse_binary_expression);
    lemma_step(st);
    let operator = st.peek();
    let precedence = binary_precedence(operator.kind);
    if !(precedence == 0 || precedence <= bound) {
        lemma_binary_expression_consumes(st.advance(), precedence, parent);
        match parse_binary_expression(st.advance(), precedence, parent) {
            Ok((right, after)) => {
                let folded = ExpressionView::Binary {
                    parent_data: parent,
                    left: Box::new(left),
                    operator,
                    right: Box::new(right),
                };
                if after.shorter_than(st) {
                    lemma_infix_keeps(after, folded, bound, parent);
                }
            },
            Err(_) => {},
        }
    }
}

/// The type and value of an argument: reading takes tokens, and brackets in pairs.
#[verifier::spinoff_prover]
pub proof fn lemma_argument_consumes(st: ParseState, name: TokenView, parent: ParentView)
    ensures
        consumes(st, parse_argument(st, name, parent)),
    decreases st.input.len(), 1int,
{
    reveal(parse_argument);
    reveal(parse_expression);
    match parse_optional_type(st, st.peek().kind is Equals, parent) {
        Ok((type_, typed)) => {
            lemma_type_level(st, st.peek().kind is Equals, parent);
            lemma_step(typed);
            if typed.peek().kind is Equals {
                lemma_expression_consumes(typed.advance(), parent);
            }
        },
        Err(_) => {},
    }
}

/// The rest of an argument list: reading takes tokens, and brackets in pairs but for the `)`
/// that closes the list.
#[verifier::spinoff_prover]
pub proof fn lemma_arguments_consume(st: ParseState, read: Seq<DeclarationView>, parent: ParentView)
    ensures
        consumes_to_closing(st, parse_arguments(st, read, parent)),
    decreases st.input.len(), 1int,
{
    reveal(parse_arguments);
    reveal(parse_argument);
    lemma_step(st);
    lemma_step(st.advance());
    lemma_step(st.advance().advance());
    if st.peek().kind is Comma {
        let name = st.advance().peek();
        let named = st.advance().advance();
        if name.kind is Identifier && named.peek().kind is Colon {
            lemma_argument_consumes(named.advance(), name, parent);
            match parse_argument(named.advance(), name, parent) {
                Ok((argument, after)) => {
                    if after.shorter_than(st) {
                        lemma_arguments_consume(after, read.push(argument), parent);
                    }
                },
                Err(_) => {},
            }
        }
    }
}

/// The return type and the body of a procedure: reading takes tokens, and brackets in pairs.
#[verifier::spinoff_prover]
pub proof fn lemma_procedure_tail_consumes(
    st: ParseState,
    arguments: Seq<DeclarationView>,
    parent: ParentView,
)
    ensures
        consumes(st, parse_procedure_tail(st, arguments, parent)),
    decreases st.input.len(), 1int,
{
    reveal(parse_procedure_tail);
    reveal(parse_scope);
    let arrow = st.peek().kind is RightArrow;
    match parse_optional_type(st.advance_if(arrow), !arrow, parent) {
        Ok((return_type, typed)) => {
            lemma_step(st);
            lemma_type_level(st.advance_if(arrow), !arrow, parent);
            lemma_scope_consumes(typed, parent);
        },
        Err(_) => {},
    }
}

/// A procedure: reading takes tokens, and brackets in pairs; after a first
/// argument, but for the `)` that closes the list.
#[verifier::spinoff_prover]
pub proof fn lemma_procedure_consumes(
    st: ParseState,
    first_argument: Option<TokenView>,
    parent: ParentView,
)
    ensures
        first_argument is None ==> consumes(st, parse_procedure(st, first_argument, parent)),
        first_argument is Some ==> consumes_to_closing(
            st,
            parse_procedure(st, first_argument, parent),
        ),
    decreases st.input.len(), 2int,
{
    reveal(parse_procedure);
    reveal(parse_argument);
    reveal(parse_arguments);
    reveal(parse_procedure_tail);
    match first_argument {
        None => {
            lemma_procedure_tail_consumes(st, Seq::empty(), parent);
        },
        Some(name) => {
            lemma_argument_consumes(st, name, parent);
            match parse_argument(st, name, parent) {
                Ok((argument, after)) => {
                    lemma_arguments_consume(after, seq![argument], parent);
                    match parse_arguments(after, seq![argument], parent) {
                        Ok((arguments, closed)) => {
                            if closed.shorter_than(st) {
                                lemma_procedure_tail_consumes(closed, arguments, parent);
                            }
                        },
                        Err(_) => {},
                    }
                },
                Err(_) => {},
            }
        },
    }
}

/// A scope: reading takes tokens, and brackets in pairs.
#[verifier::spinoff_prover]
pub proof fn lemma_scope_consumes(st: ParseState, parent: ParentView)
    ensures
        consumes(st, parse_scope(st, parent)),
    decreases st.input.len(), 0int,
{
    reveal(parse_scope);
    reveal(parse_statements);
    if st.peek().kind is LBrace {
        let id = st.scopes.len();
        let reserved = ScopeView { parent_data: parent, statements: Seq::empty() };
        let opened = ParseState { input: st.advance().input, scopes: st.scopes.push(reserved) };
        let within = ParentView { file: parent.file, scope: Some(id) };
        lemma_step(st);
        lemma_statements_keep(opened, within, Seq::empty(), false);
        lemma_stops(opened, within, Seq::empty(), false);
        match parse_statements(opened, within, Seq::empty(), false) {
            Ok((statements, after)) => {
                lemma_step(after);
            },
            Err(_) => {},
        }
    }
}

/// Statements up to the token that closes them: reading takes no token back,
/// and takes brackets in pairs.
#[verifier::spinoff_prover]
pub proof fn lemma_statements_keep(
    st: ParseState,
    parent: ParentView,
    read: Seq<StatementView>,
    top_level: bool,
)
    ensures
        keeps(st, parse_statements(st, parent, read, top_level)),
    decreases st.input.len(), 5int,
{
    reveal(parse_statements);
    reveal(parse_statement);
    if !((top_level && st.peek().kind is EndOfFile) || (!top_level && st.peek().kind is RBrace)) {
        lemma_statement_consumes(st, parent);
        match parse_statement(st, parent) {
            Ok((statement, after)) => {
                lemma_statements_keep(after, parent, read.push(statement), top_level);
            },
            Err(_) => {},
        }
    }
}

/// A statement: reading takes tokens, and brackets in pairs.
#[verifier::spinoff_prover]
pub proof fn lemma_statement_consumes(st: ParseState, parent: ParentView)
    ensures
        consumes(st, parse_statement(st, parent)),
    decreases st.input.len(), 4int,
{
    reveal(parse_statement);
    reveal(parse_scope);
    reveal(parse_expression);
    reveal(parse_statement_rest);
    lemma_step(st);
    if st.peek().kind is Semicolon {
        lemma_statement_consumes(st.advance(), parent);
    } else if st.peek().kind is LBrace {
        lemma_scope_consumes(st, parent);
    } else {
        lemma_expression_consumes(st, parent);
        match parse_expression(st, parent) {
            Ok((expression, after)) => {
                lemma_statement_rest_consumes(after, expression, parent);
            },
            Err(_) => {},
        }
    }
}

/// What follows the expression that a statement starts with: reading takes
/// tokens, and brackets in pairs.
#[verifier::spinoff_prover]
pub proof fn lemma_statement_rest_consumes(
    st: ParseState,
    expression: ExpressionView,
    parent: ParentView,
)
    ensures
        consumes(st, parse_statement_rest(st, expression, parent)),
    decreases st.input.len(), 4int,
{
    reveal(parse_statement_rest);
    reveal(parse_declaration);
    reveal(parse_assignment);
    lemma_step(st);
    if st.peek().kind is Colon {
        lemma_declaration_consumes(st.advance(), expression, st.peek(), parent);
    } else if is_compound_assignment(st.peek().kind) {
        lemma_assignment_consumes(st.advance(), expression, st.peek(), parent);
    }
}

/// The rest of an assignment: reading takes tokens, and brackets in pairs.
#[verifier::spinoff_prover]
pub proof fn lemma_assignment_consumes(
    st: ParseState,
    left: ExpressionView,
    operator: TokenView,
    parent: ParentView,
)
    ensures
        consumes(st, parse_assignment(st, left, operator, parent)),
    decreases st.input.len(), 4int,
{
    reveal(parse_assignment);
    reveal(parse_expression);
    lemma_expression_consumes(st, parent);
    match parse_expression(st, parent) {
        Ok((right, after)) => {
            lemma_step(after);
        },
        Err(_) => {},
    }
}

/// The rest of a declaration: reading takes tokens, and brackets in pairs.
#[verifier::spinoff_prover]
pub proof fn lemma_declaration_consumes(
    st: ParseState,
    named: ExpressionView,
    colon: TokenView,
    parent: ParentView,
)
    ensures
        consumes(st, parse_declaration(st, named, colon, parent)),
    decreases st.input.len(), 3int,
{
    reveal(parse_declaration);
    reveal(parse_optional_value);
    reveal(parse_expression);
    match named {
        ExpressionView::Name { token: name, .. } => {
            let no_type = st.peek().kind is Colon || st.peek().kind is Equals;
            lemma_type_level(st, no_type, parent);
            match parse_optional_type(st, no_type, parent) {
                Ok((type_, typed)) => {
                    lemma_step(typed);
                },
                Err(_) => {},
            }
            match parse_binding(st, parent) {
                Ok(((type_, constant), bound)) => {
                    if !(bound.peek().kind is Semicolon) {
                        lemma_expression_consumes(bound, parent);
                    }
                    match parse_optional_value(bound, parent) {
                        Ok((value, after)) => {
                            lemma_step(after);
                        },
                        Err(_) => {},
                    }
                },
                Err(_) => {},
            }
        },
        _ => {},
    }
}

/// A text whose tokens make a file holds as many `{` as `}` and as many
/// `(` as `)`.
pub proof fn lemma_file_is_balanced(
    tokens: Seq<TokenView>,
    file_path: Seq<char>,
    source: Seq<char>,
    parent: ParentView,
)
    ensures
        parse_file(tokens, file_path, source, parent) is Ok ==> braces(tokens) == 0 && parens(
            tokens,
        ) == 0,
{
    let top = ParentView { file: Some(FILE as nat), scope: parent.scope };
    let reserved = ScopeView { parent_data: top, statements: Seq::empty() };
    let st = ParseState { input: tokens, scopes: seq![reserved] };
    let within = ParentView { file: Some(FILE as nat), scope: Some(TOP_LEVEL as nat) };
    lemma_statements_keep(st, within, Seq::empty(), true);
    lemma_stops(st, within, Seq::empty(), true);
}

/// Statements are read up to the token that closes them.
pub proof fn lemma_stops(
    st: ParseState,
    parent: ParentView,
    read: Seq<StatementView>,
    top_level: bool,
)
    ensures
        match parse_statements(st, parent, read, top_level) {
            Ok((_, after)) => if top_level {
                after.peek().kind is EndOfFile
            } else {
                after.peek().kind is RBrace
            },
            Err(_) => true,
        },
    decreases st.input.len(),
{
    reveal(parse_statements);
    reveal(parse_statement);
    if !((top_level && st.peek().kind is EndOfFile) || (!top_level && st.peek().kind is RBrace)) {
        match parse_statement(st, parent) {
            Ok((statement, after)) => {
                if after.shorter_than(st) {
                    lemma_stops(after, parent, read.push(statement), top_level);
                }
            },
            Err(_) => {},
        }
    }
}

} // verus!
