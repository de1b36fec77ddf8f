//! Nothing lost, nothing added: the tokens that a tree holds are the tokens
//! of the text that carry content, in the order of the text.
//!
//! Names, literals and operators carry content; brackets, `,`, `;`, `:`,
//! `=` and `->` only give the text its shape, and the tree keeps the shape
//! instead of them.

use crate::ast::{
    arena_well_formed, declaration_records, expression_records, inside, scope_well_formed,
    statement_records, DeclarationView, ExpressionView, FileView, ParentView, ScopeView,
    StatementView, TypeView, FILE, TOP_LEVEL,
};
use crate::consumption::lemma_stops;
use crate::grammar::{
    binary_precedence, is_compound_assignment, parse_argument, parse_arguments, parse_assignment,
    parse_binary_expression, parse_binding, parse_declaration, parse_expression, parse_file,
    parse_infix, parse_optional_type, parse_optional_value, parse_primary_expression,
    parse_procedure, parse_procedure_tail, parse_scope, parse_statement, parse_statement_rest,
    parse_statements, unary_precedence, ParseState,
};
use crate::scoping;
use crate::scoping::{all_declarations_record, all_statements_record, extends};
use crate::token::{TokenKindView, TokenView};
use vstd::prelude::*;

verus! {

/// The token is a name, a literal or an operator.
pub open spec fn is_content(kind: TokenKindView) -> bool {
    ||| kind is Identifier
    ||| kind is Integer
    ||| kind is Float
    ||| kind is Plus
    ||| kind is Minus
    ||| kind is Asterisk
    ||| kind is Slash
    ||| kind is Percent
    ||| is_compound_assignment(kind)
}

/// The tokens that carry content among the tokens before the first
/// end-of-file token, in order.
pub open spec fn content(input: Seq<TokenView>) -> Seq<TokenView>
    decreases input.len(),
{
    if input.len() == 0 || input[0].kind is EndOfFile {
        Seq::empty()
    } else if is_content(input[0].kind) {
        seq![input[0]] + content(input.drop_first())
    } else {
        content(input.drop_first())
    }
}

/// The token of a type reference, if there is one.
pub open spec fn type_tokens(t: Option<TypeView>) -> Seq<TokenView> {
    match t {
        Some(TypeView::Name { name, .. }) => seq![name],
        None => Seq::empty(),
    }
}

/// The tokens of an expression that stands in scope `within`, in order;
/// those of the body of a procedure are the tokens of its statements.
pub open spec fn expression_tokens(
    scopes: Seq<ScopeView>,
    within: nat,
    e: ExpressionView,
) -> Seq<TokenView>
    decreases scopes.len() - within, 0int, e,
{
    match e {
        ExpressionView::Procedure { arguments, return_type, scope, .. } => {
            declarations_tokens(scopes, within, arguments) + type_tokens(return_type) + (if within
                < scope < scopes.len() {
                statements_tokens(scopes, scope, scopes[scope as int].statements)
            } else {
                Seq::empty()
            })
        },
        ExpressionView::Name { token, .. } => seq![token],
        ExpressionView::Literal { token, .. } => seq![token],
        ExpressionView::Unary { operator, operand, .. } => seq![operator] + expression_tokens(
            scopes,
            within,
            *operand,
        ),
        ExpressionView::Binary { left, operator, right, .. } => expression_tokens(
            scopes,
            within,
            *left,
        ) + seq![operator] + expression_tokens(scopes, within, *right),
    }
}

/// The tokens of a declaration: its name, its type, its value.
pub open spec fn declaration_tokens(
    scopes: Seq<ScopeView>,
    within: nat,
    d: DeclarationView,
) -> Seq<TokenView>
    decreases scopes.len() - within, 0int, d,
{
    seq![d.name] + type_tokens(d.type_) + (match d.value {
        Some(value) => expression_tokens(scopes, within, value),
        None => Seq::empty(),
    })
}

/// The tokens of declarations, one after the other.
pub open spec fn declarations_tokens(
    scopes: Seq<ScopeView>,
    within: nat,
    declarations: Seq<DeclarationView>,
) -> Seq<TokenView>
    decreases scopes.len() - within, 0int, declarations,
{
    if declarations.len() == 0 {
        Seq::empty()
    } else {
        declarations_tokens(scopes, within, declarations.drop_last()) + declaration_tokens(
            scopes,
            within,
            declarations.last(),
        )
    }
}

/// The tokens of a statement that stands in scope `within`; those of a
/// nested scope are the tokens of its statements.
pub open spec fn statement_tokens(
    scopes: Seq<ScopeView>,
    within: nat,
    s: StatementView,
) -> Seq<TokenView>
    decreases scopes.len() - within, 1int, s,
{
    match s {
        StatementView::Expression(e) => expression_tokens(scopes, within, e),
        StatementView::Scope(id) => if within < id < scopes.len() {
            statements_tokens(scopes, id, scopes[id as int].statements)
        } else {
            Seq::empty()
        },
        StatementView::Declaration(d) => declaration_tokens(scopes, within, d),
        StatementView::Assignment { left, operator, right, .. } => expression_tokens(
            scopes,
            within,
            left,
        ) + seq![operator] + expression_tokens(scopes, within, right),
    }
}

/// The tokens of statements, one after the other.
pub open spec fn statements_tokens(
    scopes: Seq<ScopeView>,
    within: nat,
    statements: Seq<StatementView>,
) -> Seq<TokenView>
    decreases scopes.len() - within, 2int, statements,
{
    if statements.len() == 0 {
        Seq::empty()
    } else {
        statements_tokens(scopes, within, statements.drop_last()) + statement_tokens(
            scopes,
            within,
            statements.last(),
        )
    }
}

/// The tokens of a file: those of the statements of its top-level scope.
pub open spec fn file_tokens(file: FileView) -> Seq<TokenView> {
    statements_tokens(file.scopes, TOP_LEVEL as nat, file.scopes[TOP_LEVEL as int].statements)
}

/// The scopes of `before` that lie after scope `within` are in `after`,
/// unchanged.
pub open spec fn agree_above(before: Seq<ScopeView>, after: Seq<ScopeView>, within: nat) -> bool {
    &&& before.len() <= after.len()
    &&& forall|j: int| within < j < before.len() ==> #[trigger] after[j] == before[j]
}

/// The tokens of a scope that is nested in `within` stay what they are
/// while the arena grows and scopes up to `within` are filled.
proof fn lemma_nested_tokens_stay(
    before: Seq<ScopeView>,
    after: Seq<ScopeView>,
    within: nat,
    id: nat,
)
    requires
        arena_well_formed(before),
        id < before.len(),
        before[id as int].parent_data == inside(within),
        agree_above(before, after, within),
    ensures
        within < id < before.len(),
        after[id as int] == before[id as int],
        statements_tokens(before, id, before[id as int].statements) == statements_tokens(
            after,
            id,
            after[id as int].statements,
        ),
    decreases before.len() - within, 0int, before[id as int].statements,
{
    assert(scope_well_formed(before, id as int));
    lemma_statements_tokens_stay(before, after, id, before[id as int].statements);
}

/// The tokens of an expression stay what they are while the arena grows
/// and scopes up to `within` are filled.
pub proof fn lemma_expression_tokens_stay(
    before: Seq<ScopeView>,
    after: Seq<ScopeView>,
    within: nat,
    e: ExpressionView,
)
    requires
        arena_well_formed(before),
        expression_records(e, inside(within), before),
        agree_above(before, after, within),
    ensures
        expression_tokens(before, within, e) == expression_tokens(after, within, e),
    decreases before.len() - within, 1int, e,
{
    match e {
        ExpressionView::Procedure { arguments, scope, .. } => {
            lemma_declarations_tokens_stay(before, after, within, arguments);
            lemma_nested_tokens_stay(before, after, within, scope);
        },
        ExpressionView::Name { .. } => {},
        ExpressionView::Literal { .. } => {},
        ExpressionView::Unary { operand, .. } => {
            lemma_expression_tokens_stay(before, after, within, *operand);
        },
        ExpressionView::Binary { left, right, .. } => {
            lemma_expression_tokens_stay(before, after, within, *left);
            lemma_expression_tokens_stay(before, after, within, *right);
        },
    }
}

/// The tokens of a declaration stay what they are while the arena grows
/// and scopes up to `within` are filled.
pub proof fn lemma_declaration_tokens_stay(
    before: Seq<ScopeView>,
    after: Seq<ScopeView>,
    within: nat,
    d: DeclarationView,
)
    requires
        arena_well_formed(before),
        declaration_records(d, inside(within), before),
        agree_above(before, after, within),
    ensures
        declaration_tokens(before, within, d) == declaration_tokens(after, within, d),
    decreases before.len() - within, 1int, d,
{
    match d.value {
        Some(value) => {
            lemma_expression_tokens_stay(before, after, within, value);
        },
        None => {},
    }
}

/// The tokens of declarations stay what they are while the arena grows
/// and scopes up to `within` are filled.
pub proof fn lemma_declarations_tokens_stay(
    before: Seq<ScopeView>,
    after: Seq<ScopeView>,
    within: nat,
    declarations: Seq<DeclarationView>,
)
    requires
        arena_well_formed(before),
        all_declarations_record(declarations, inside(within), before),
        agree_above(before, after, within),
    ensures
        declarations_tokens(before, within, declarations) == declarations_tokens(
            after,
            within,
            declarations,
        ),
    decreases before.len() - within, 1int, declarations,
{
    if declarations.len() > 0 {
        assert forall|i: int| 0 <= i < declarations.drop_last().len() implies declaration_records(
            #[trigger] declarations.drop_last()[i],
            inside(within),
            before,
        ) by {
            assert(declarations.drop_last()[i] == declarations[i]);
        }
        lemma_declarations_tokens_stay(before, after, within, declarations.drop_last());
        assert(declarations.last() == declarations[declarations.len() - 1]);
        lemma_declaration_tokens_stay(before, after, within, declarations.last());
    }
}

/// The tokens of a statement stay what they are while the arena grows
/// and scopes up to `within` are filled.
pub proof fn lemma_statement_tokens_stay(
    before: Seq<ScopeView>,
    after: Seq<ScopeView>,
    within: nat,
    s: StatementView,
)
    requires
        arena_well_formed(before),
        statement_records(s, inside(within), before),
        agree_above(before, after, within),
    ensures
        statement_tokens(before, within, s) == statement_tokens(after, within, s),
    decreases before.len() - within, 2int, s,
{
    match s {
        StatementView::Expression(e) => {
            lemma_expression_tokens_stay(before, after, within, e);
        },
        StatementView::Scope(id) => {
            lemma_nested_tokens_stay(before, after, within, id);
        },
        StatementView::Declaration(d) => {
            lemma_declaration_tokens_stay(before, after, within, d);
        },
        StatementView::Assignment { left, right, .. } => {
            lemma_expression_tokens_stay(before, after, within, left);
            lemma_expression_tokens_stay(before, after, within, right);
        },
    }
}

/// The tokens of statements stay what they are while the arena grows
/// and scopes up to `within` are filled.
pub proof fn lemma_statements_tokens_stay(
    before: Seq<ScopeView>,
    after: Seq<ScopeView>,
    within: nat,
    statements: Seq<StatementView>,
)
    requires
        arena_well_formed(before),
        all_statements_record(statements, inside(within), before),
        agree_above(before, after, within),
    ensures
        statements_tokens(before, within, statements) == statements_tokens(
            after,
            within,
            statements,
        ),
    decreases before.len() - within, 3int, statements,
{
    if statements.len() > 0 {
        assert forall|i: int| 0 <= i < statements.drop_last().len() implies statement_records(
            #[trigger] statements.drop_last()[i],
            inside(within),
            before,
        ) by {
            assert(statements.drop_last()[i] == statements[i]);
        }
        lemma_statements_tokens_stay(before, after, within, statements.drop_last());
        assert(statements.last() == statements[statements.len() - 1]);
        lemma_statement_tokens_stay(before, after, within, statements.last());
    }
}

/// A part can be read in scope `within` of a well-formed arena.
pub open spec fn ready(st: ParseState, within: nat) -> bool {
    &&& arena_well_formed(st.scopes)
    &&& within < st.scopes.len()
}

/// The token that a consumed token adds to the content.
pub open spec fn step(token: TokenView) -> Seq<TokenView> {
    if is_content(token.kind) {
        seq![token]
    } else {
        Seq::empty()
    }
}

/// The name in front of a procedure's arguments, where the first argument
/// was already read.
pub open spec fn first_name(first_argument: Option<TokenView>) -> Seq<TokenView> {
    match first_argument {
        Some(name) => seq![name],
        None => Seq::empty(),
    }
}

/// Consuming a token takes it from the content, if it carries content.
pub proof fn lemma_content_step(st: ParseState)
    ensures
        st.input.len() > 0 && !(st.peek().kind is EndOfFile) ==> content(st.input) == step(
            st.peek(),
        ) + content(st.advance().input),
        !(st.input.len() > 0 && !(st.peek().kind is EndOfFile)) ==> st.advance() == st && content(
            st.input,
        ) == Seq::<TokenView>::empty(),
{
    if st.input.len() > 0 && !(st.peek().kind is EndOfFile) {
        assert(content(st.input) =~= step(st.peek()) + content(st.advance().input));
    }
}

/// A type reference holds its name.
proof fn lemma_type_content(st: ParseState, absent: bool, parent: ParentView)
    ensures
        match parse_optional_type(st, absent, parent) {
            Ok((type_, after)) => content(st.input) == type_tokens(type_) + content(after.input)
                && after.scopes == st.scopes,
            Err(_) => true,
        },
{
    lemma_content_step(st);
    match parse_optional_type(st, absent, parent) {
        Ok((type_, after)) => {
            assert(content(st.input) =~= type_tokens(type_) + content(after.input));
        },
        Err(_) => {},
    }
}

/// A name, a literal or what `(` opens: the tokens of what was read are the content of the tokens
/// that reading took.
#[verifier::spinoff_prover]
pub proof fn lemma_primary_expression_content(st: ParseState, within: nat)
    requires
        ready(st, within),
    ensures
        match parse_primary_expression(st, inside(within)) {
            Ok((e, after)) => content(st.input) == expression_tokens(after.scopes, within, e)
                + content(after.input),
            Err(_) => true,
        },
    decreases st.input.len(), 1int,
{
    reveal(parse_primary_expression);
    reveal(parse_procedure);
    reveal(parse_expression);
    let parent = inside(within);
    lemma_content_step(st);
    if st.peek().kind is LParen {
        let opened = st.advance();
        lemma_content_step(opened);
        if opened.peek().kind is RParen {
            lemma_procedure_content(opened.advance(), None, within);
            match parse_procedure(opened.advance(), None, parent) {
                Ok((e, after)) => {
                    assert(content(st.input) =~= expression_tokens(after.scopes, within, e)
                        + content(after.input));
                },
                Err(_) => {},
            }
        } else {
            scoping::lemma_expression(opened, parent);
            lemma_expression_content(opened, within);
            match parse_expression(opened, parent) {
                Ok((expression, after)) => {
                    lemma_content_step(after);
                    if after.shorter_than(st) && after.peek().kind is Colon {
                        match expression {
                            ExpressionView::Name { token: name, .. } => {
                                lemma_procedure_content(after.advance(), Some(name), within);
                                match parse_procedure(after.advance(), Some(name), parent) {
                                    Ok((e, last)) => {
                                        assert(content(st.input) =~= expression_tokens(
                                            last.scopes,
                                            within,
                                            e,
                                        ) + content(last.input));
                                    },
                                    Err(_) => {},
                                }
                            },
                            _ => {},
                        }
                    } else if after.shorter_than(st) && after.peek().kind is RParen {
                        assert(content(st.input) =~= expression_tokens(
                            after.scopes,
                            within,
                            expression,
                        ) + content(after.advance().input));
                    }
                },
                Err(_) => {},
            }
        }
    } else {
        match parse_primary_expression(st, parent) {
            Ok((e, after)) => {
                assert(content(st.input) =~= expression_tokens(after.scopes, within, e)
                    + content(after.input));
            },
            Err(_) => {},
        }
    }
}

/// An expression: the tokens of what was read are the content of the tokens
/// that reading took.
#[verifier::spinoff_prover]
pub proof fn lemma_expression_content(st: ParseState, within: nat)
    requires
        ready(st, within),
    ensures
        match parse_expression(st, inside(within)) {
            Ok((e, after)) => content(st.input) == expression_tokens(after.scopes, within, e)
                + content(after.input),
            Err(_) => true,
        },
    decreases st.input.len(), 3int,
{
    reveal(parse_expression);
    reveal(parse_binary_expression);
    lemma_binary_expression_content(st, 0, within);
}

/// An expression read at a bound: the tokens of what was read are the content of the tokens
/// that reading took.
#[verifier::spinoff_prover]
pub proof fn lemma_binary_expression_content(st: ParseState, bound: nat, within: nat)
    requires
        ready(st, within),
    ensures
        match parse_binary_expression(st, bound, inside(within)) {
            Ok((e, after)) => content(st.input) == expression_tokens(after.scopes, within, e)
                + content(after.input),
            Err(_) => true,
        },
    decreases st.input.len(), 2int,
{
    reveal(parse_binary_expression);
    reveal(parse_primary_expression);
    reveal(parse_infix);
    let parent = inside(within);
    let operator = st.peek();
    let precedence = unary_precedence(operator.kind);
    if precedence > bound {
        lemma_content_step(st);
        scoping::lemma_binary_expression(st.advance(), precedence, parent);
        lemma_binary_expression_content(st.advance(), precedence, within);
        match parse_binary_expression(st.advance(), precedence, parent) {
            Ok((operand, after)) => {
                let left = ExpressionView::Unary {
                    parent_data: parent,
                    operator,
                    operand: Box::new(operand),
                };
                assert(content(st.input) =~= expression_tokens(after.scopes, within, left)
                    + content(after.input));
                if after.shorter_than(st) {
                    lemma_infix_content(after, left, bound, within);
                }
            },
            Err(_) => {},
        }
    } else {
        scoping::lemma_primary_expression(st, parent);
        lemma_primary_expression_content(st, within);
        match parse_primary_expression(st, parent) {
            Ok((left, after)) => {
                if after.shorter_than(st) {
                    lemma_infix_content(after, left, bound, within);
                }
            },
            Err(_) => {},
        }
    }
}

/// The infix operators that follow an expression: the tokens of what was read
/// are the content of the tokens that reading took.
#[verifier::spinoff_prover]
pub proof fn lemma_infix_content(st: ParseState, left: ExpressionView, bound: nat, within: nat)
    requires
        ready(st, within),
        expression_records(left, inside(within), st.scopes),
    ensures
        match parse_infix(st, left, bound, inside(within)) {
            Ok((e, after)) => expression_tokens(st.scopes, within, left) + content(st.input)
                == expression_tokens(after.scopes, within, e) + content(after.input),
            Err(_) => true,
        },
    decreases st.input.len(), 1int,
{
    reveal(parse_infix);
    reveal(parse_binary_expression);
    let parent = inside(within);
    let operator = st.peek();
    let precedence = binary_precedence(operator.kind);
    if !(precedence == 0 || precedence <= bound) {
        lemma_content_step(st);
        scoping::lemma_binary_expression(st.advance(), precedence, parent);
        lemma_binary_expression_content(st.advance(), precedence, within);
        match parse_binary_expression(st.advance(), precedence, parent) {
            Ok((right, after)) => {
                if after.shorter_than(st) {
                    scoping::lemma_expression_stays(left, parent, st.scopes, after.scopes);
                    lemma_expression_tokens_stay(st.scopes, after.scopes, within, left);
                    let folded = ExpressionView::Binary {
                        parent_data: parent,
                        left: Box::new(left),
                        operator,
                        right: Box::new(right),
                    };
                    assert(expression_tokens(st.scopes, within, left) + content(st.input)
                        =~= expression_tokens(after.scopes, within, folded) + content(
                        after.input,
                    ));
                    lemma_infix_content(after, folded, bound, within);
                }
            },
            Err(_) => {},
        }
    }
}

/// The type and value of an argument: the tokens of what was read are the content of the tokens
/// that reading took.
#[verifier::spinoff_prover]
pub proof fn lemma_argument_content(st: ParseState, name: TokenView, within: nat)
    requires
        ready(st, within),
    ensures
        match parse_argument(st, name, inside(within)) {
            Ok((d, after)) => seq![name] + content(st.input) == declaration_tokens(
                after.scopes,
                within,
                d,
            ) + content(after.input),
            Err(_) => true,
        },
    decreases st.input.len(), 1int,
{
    reveal(parse_argument);
    reveal(parse_expression);
    let parent = inside(within);
    lemma_type_content(st, st.peek().kind is Equals, parent);
    match parse_optional_type(st, st.peek().kind is Equals, parent) {
        Ok((type_, typed)) => {
            lemma_content_step(typed);
            if typed.peek().kind is Equals {
                lemma_expression_content(typed.advance(), within);
            }
            match parse_argument(st, name, parent) {
                Ok((d, after)) => {
                    assert(seq![name] + content(st.input) =~= declaration_tokens(
                        after.scopes,
                        within,
                        d,
                    ) + content(after.input));
                },
                Err(_) => {},
            }
        },
        Err(_) => {},
    }
}

/// The tokens of declarations with one more at their end.
proof fn lemma_declarations_tokens_push(
    scopes: Seq<ScopeView>,
    within: nat,
    read: Seq<DeclarationView>,
    next: DeclarationView,
)
    ensures
        declarations_tokens(scopes, within, read.push(next)) == declarations_tokens(
            scopes,
            within,
            read,
        ) + declaration_tokens(scopes, within, next),
{
    assert(read.push(next).drop_last() =~= read);
}

/// The tokens of statements with one more at their end.
proof fn lemma_statements_tokens_push(
    scopes: Seq<ScopeView>,
    within: nat,
    read: Seq<StatementView>,
    next: StatementView,
)
    ensures
        statements_tokens(scopes, within, read.push(next)) == statements_tokens(
            scopes,
            within,
            read,
        ) + statement_tokens(scopes, within, next),
{
    assert(read.push(next).drop_last() =~= read);
}

/// The rest of an argument list: the tokens of what was read are the content of the tokens
/// that reading took.
#[verifier::spinoff_prover]
pub proof fn lemma_arguments_content(st: ParseState, read: Seq<DeclarationView>, within: nat)
    requires
        ready(st, within),
        all_declarations_record(read, inside(within), st.scopes),
    ensures
        match parse_arguments(st, read, inside(within)) {
            Ok((all, after)) => declarations_tokens(st.scopes, within, read) + content(st.input)
                == declarations_tokens(after.scopes, within, all) + content(after.input),
            Err(_) => true,
        },
    decreases st.input.len(), 1int,
{
    reveal(parse_arguments);
    reveal(parse_argument);
    let parent = inside(within);
    lemma_content_step(st);
    if st.peek().kind is Comma {
        let name = st.advance().peek();
        let named = st.advance().advance();
        lemma_content_step(st.advance());
        lemma_content_step(named);
        if name.kind is Identifier && named.peek().kind is Colon {
            scoping::lemma_argument(named.advance(), name, parent);
            lemma_argument_content(named.advance(), name, within);
            match parse_argument(named.advance(), name, parent) {
                Ok((argument, after)) => {
                    if after.shorter_than(st) {
                        scoping::lemma_declarations_stay(read, parent, st.scopes, after.scopes);
                        lemma_declarations_tokens_stay(st.scopes, after.scopes, within, read);
                        lemma_declarations_tokens_push(after.scopes, within, read, argument);
                        assert(declarations_tokens(st.scopes, within, read) + content(st.input)
                            =~= declarations_tokens(after.scopes, within, read.push(argument))
                            + content(after.input));
                        lemma_arguments_content(after, read.push(argument), within);
                    }
                },
                Err(_) => {},
            }
        }
    } else if st.peek().kind is RParen {
        assert(declarations_tokens(st.scopes, within, read) + content(st.input)
            =~= declarations_tokens(st.scopes, within, read) + content(st.advance().input));
    }
}

/// The return type and the body of a procedure: the tokens of what was read
/// are the content of the tokens that reading took.
#[verifier::spinoff_prover]
pub proof fn lemma_procedure_tail_content(
    st: ParseState,
    arguments: Seq<DeclarationView>,
    within: nat,
)
    requires
        ready(st, within),
        all_declarations_record(arguments, inside(within), st.scopes),
    ensures
        match parse_procedure_tail(st, arguments, inside(within)) {
            Ok((e, after)) => declarations_tokens(st.scopes, within, arguments) + content(
                st.input,
            ) == expression_tokens(after.scopes, within, e) + content(after.input),
            Err(_) => true,
        },
    decreases st.input.len(), 1int,
{
    reveal(parse_procedure_tail);
    reveal(parse_scope);
    let parent = inside(within);
    let arrow = st.peek().kind is RightArrow;
    lemma_content_step(st);
    lemma_type_content(st.advance_if(arrow), !arrow, parent);
    match parse_optional_type(st.advance_if(arrow), !arrow, parent) {
        Ok((return_type, typed)) => {
            scoping::lemma_scope(typed, parent);
            lemma_scope_content(typed, within);
            match parse_scope(typed, parent) {
                Ok((scope, after)) => {
                    lemma_declarations_tokens_stay(st.scopes, after.scopes, within, arguments);
                    let e = ExpressionView::Procedure {
                        parent_data: parent,
                        arguments,
                        return_type,
                        scope,
                    };
                    assert(declarations_tokens(st.scopes, within, arguments) + content(st.input)
                        =~= expression_tokens(after.scopes, within, e) + content(after.input));
                },
                Err(_) => {},
            }
        },
        Err(_) => {},
    }
}

/// A procedure: the tokens of what was read are the content of the tokens
/// that reading took.
#[verifier::spinoff_prover]
pub proof fn lemma_procedure_content(
    st: ParseState,
    first_argument: Option<TokenView>,
    within: nat,
)
    requires
        ready(st, within),
    ensures
        match parse_procedure(st, first_argument, inside(within)) {
            Ok((e, after)) => first_name(first_argument) + content(st.input) == expression_tokens(
                after.scopes,
                within,
                e,
            ) + content(after.input),
            Err(_) => true,
        },
    decreases st.input.len(), 2int,
{
    reveal(parse_procedure);
    reveal(parse_argument);
    reveal(parse_arguments);
    reveal(parse_procedure_tail);
    let parent = inside(within);
    match first_argument {
        None => {
            lemma_procedure_tail_content(st, Seq::empty(), within);
            match parse_procedure_tail(st, Seq::empty(), parent) {
                Ok((e, after)) => {
                    assert(first_name(first_argument) + content(st.input) =~= expression_tokens(
                        after.scopes,
                        within,
                        e,
                    ) + content(after.input));
                },
                Err(_) => {},
            }
        },
        Some(name) => {
            scoping::lemma_argument(st, name, parent);
            lemma_argument_content(st, name, within);
            match parse_argument(st, name, parent) {
                Ok((argument, after)) => {
                    if after.shorter_than(st) {
                        lemma_declarations_tokens_push(
                            after.scopes,
                            within,
                            Seq::empty(),
                            argument,
                        );
                        assert(seq![argument] =~= Seq::<DeclarationView>::empty().push(argument));
                        scoping::lemma_arguments(after, seq![argument], parent);
                        lemma_arguments_content(after, seq![argument], within);
                        match parse_arguments(after, seq![argument], parent) {
                            Ok((arguments, closed)) => {
                                if closed.shorter_than(st) {
                                    lemma_procedure_tail_content(closed, arguments, within);
                                    match parse_procedure_tail(closed, arguments, parent) {
                                        Ok((e, last)) => {
                                            assert(first_name(first_argument) + content(st.input)
                                                =~= expression_tokens(last.scopes, within, e)
                                                + content(last.input));
                                        },
                                        Err(_) => {},
                                    }
                                }
                            },
                            Err(_) => {},
                        }
                    }
                },
                Err(_) => {},
            }
        },
    }
}

/// A scope: the tokens of what was read are the content of the tokens
/// that reading took.
#[verifier::spinoff_prover]
pub proof fn lemma_scope_content(st: ParseState, within: nat)
    requires
        ready(st, within),
    ensures
        match parse_scope(st, inside(within)) {
            Ok((id, after)) => within < id < after.scopes.len() && content(st.input)
                == statements_tokens(after.scopes, id, after.scopes[id as int].statements)
                + content(after.input),
            Err(_) => true,
        },
    decreases st.input.len(), 0int,
{
    reveal(parse_scope);
    reveal(parse_statements);
    let parent = inside(within);
    if st.peek().kind is LBrace {
        let id = st.scopes.len();
        let reserved = ScopeView { parent_data: parent, statements: Seq::empty() };
        let opened = ParseState { input: st.advance().input, scopes: st.scopes.push(reserved) };
        lemma_content_step(st);
        scoping::lemma_arena_stays(st.scopes, opened.scopes, -1);
        scoping::lemma_statements(opened, inside(id), Seq::empty(), false);
        lemma_statements_content(opened, id, Seq::empty(), false);
        lemma_stops(opened, inside(id), Seq::empty(), false);
        match parse_statements(opened, inside(id), Seq::empty(), false) {
            Ok((statements, after)) => {
                lemma_content_step(after);
                let filled = after.scopes.update(
                    id as int,
                    ScopeView { parent_data: parent, statements },
                );
                lemma_statements_tokens_stay(after.scopes, filled, id, statements);
                assert(content(st.input) =~= statements_tokens(filled, id, statements) + content(
                    after.advance().input,
                ));
            },
            Err(_) => {},
        }
    }
}

/// Statements up to the token that closes them: the tokens of what was read
/// are the content of the tokens that reading took.
#[verifier::spinoff_prover]
pub proof fn lemma_statements_content(
    st: ParseState,
    within: nat,
    read: Seq<StatementView>,
    top_level: bool,
)
    requires
        ready(st, within),
        all_statements_record(read, inside(within), st.scopes),
    ensures
        match parse_statements(st, inside(within), read, top_level) {
            Ok((all, after)) => statements_tokens(st.scopes, within, read) + content(st.input)
                == statements_tokens(after.scopes, within, all) + content(after.input),
            Err(_) => true,
        },
    decreases st.input.len(), 5int,
{
    reveal(parse_statements);
    reveal(parse_statement);
    let parent = inside(within);
    if !((top_level && st.peek().kind is EndOfFile) || (!top_level && st.peek().kind is RBrace)) {
        scoping::lemma_statement(st, parent);
        lemma_statement_content(st, within);
        match parse_statement(st, parent) {
            Ok((statement, after)) => {
                if after.shorter_than(st) {
                    scoping::lemma_statements_stay(read, parent, st.scopes, after.scopes);
                    lemma_statements_tokens_stay(st.scopes, after.scopes, within, read);
                    lemma_statements_tokens_push(after.scopes, within, read, statement);
                    assert(statements_tokens(st.scopes, within, read) + content(st.input)
                        =~= statements_tokens(after.scopes, within, read.push(statement))
                        + content(after.input));
                    lemma_statements_content(after, within, read.push(statement), top_level);
                }
            },
            Err(_) => {},
        }
    }
}

/// A statement: the tokens of what was read are the content of the tokens
/// that reading took.
#[verifier::spinoff_prover]
pub proof fn lemma_statement_content(st: ParseState, within: nat)
    requires
        ready(st, within),
    ensures
        match parse_statement(st, inside(within)) {
            Ok((s, after)) => content(st.input) == statement_tokens(after.scopes, within, s)
                + content(after.input),
            Err(_) => true,
        },
    decreases st.input.len(), 4int,
{
    reveal(parse_statement);
    reveal(parse_scope);
    reveal(parse_expression);
    reveal(parse_statement_rest);
    let parent = inside(within);
    lemma_content_step(st);
    if st.peek().kind is Semicolon {
        lemma_statement_content(st.advance(), within);
        match parse_statement(st.advance(), parent) {
            Ok((s, after)) => {
                assert(content(st.input) =~= statement_tokens(after.scopes, within, s) + content(
                    after.input,
                ));
            },
            Err(_) => {},
        }
    } else if st.peek().kind is LBrace {
        lemma_scope_content(st, within);
    } else {
        scoping::lemma_expression(st, parent);
        lemma_expression_content(st, within);
        match parse_expression(st, parent) {
            Ok((expression, after)) => {
                if after.shorter_than(st) {
                    lemma_statement_rest_content(after, expression, within);
                }
            },
            Err(_) => {},
        }
    }
}

/// What follows the expression that a statement starts with: the tokens of
/// what was read are the content of the tokens that reading took.
#[verifier::spinoff_prover]
pub proof fn lemma_statement_rest_content(st: ParseState, expression: ExpressionView, within: nat)
    requires
        ready(st, within),
        expression_records(expression, inside(within), st.scopes),
    ensures
        match parse_statement_rest(st, expression, inside(within)) {
            Ok((s, after)) => expression_tokens(st.scopes, within, expression) + content(
                st.input,
            ) == statement_tokens(after.scopes, within, s) + content(after.input),
            Err(_) => true,
        },
    decreases st.input.len(), 4int,
{
    reveal(parse_statement_rest);
    reveal(parse_declaration);
    reveal(parse_assignment);
    let parent = inside(within);
    lemma_content_step(st);
    if st.peek().kind is Colon {
        lemma_declaration_content(st.advance(), expression, st.peek(), within);
        match parse_declaration(st.advance(), expression, st.peek(), parent) {
            Ok((s, after)) => {
                assert(expression_tokens(st.scopes, within, expression) + content(st.input)
                    =~= statement_tokens(after.scopes, within, s) + content(after.input));
            },
            Err(_) => {},
        }
    } else if is_compound_assignment(st.peek().kind) {
        lemma_assignment_content(st.advance(), expression, st.peek(), within);
        match parse_assignment(st.advance(), expression, st.peek(), parent) {
            Ok((s, after)) => {
                assert(expression_tokens(st.scopes, within, expression) + content(st.input)
                    =~= statement_tokens(after.scopes, within, s) + content(after.input));
            },
            Err(_) => {},
        }
    } else if st.peek().kind is Semicolon {
        assert(expression_tokens(st.scopes, within, expression) + content(st.input)
            =~= expression_tokens(st.scopes, within, expression) + content(
            st.advance().input,
        ));
    }
}

/// The rest of an assignment: the tokens of what was read are the content of the tokens
/// that reading took.
#[verifier::spinoff_prover]
pub proof fn lemma_assignment_content(
    st: ParseState,
    left: ExpressionView,
    operator: TokenView,
    within: nat,
)
    requires
        ready(st, within),
        expression_records(left, inside(within), st.scopes),
    ensures
        match parse_assignment(st, left, operator, inside(within)) {
            Ok((s, after)) => expression_tokens(st.scopes, within, left) + seq![operator]
                + content(st.input) == statement_tokens(after.scopes, within, s) + content(
                after.input,
            ),
            Err(_) => true,
        },
    decreases st.input.len(), 4int,
{
    reveal(parse_assignment);
    reveal(parse_expression);
    let parent = inside(within);
    scoping::lemma_expression(st, parent);
    lemma_expression_content(st, within);
    match parse_expression(st, parent) {
        Ok((right, after)) => {
            lemma_content_step(after);
            lemma_expression_tokens_stay(st.scopes, after.scopes, within, left);
            if after.peek().kind is Semicolon {
                let s = StatementView::Assignment { parent_data: parent, left, operator, right };
                assert(expression_tokens(st.scopes, within, left) + seq![operator] + content(
                    st.input,
                ) =~= statement_tokens(after.scopes, within, s) + content(
                    after.advance().input,
                ));
            }
        },
        Err(_) => {},
    }
}

/// The rest of a declaration: the tokens of what was read are the content of the tokens
/// that reading took.
#[verifier::spinoff_prover]
pub proof fn lemma_declaration_content(
    st: ParseState,
    named: ExpressionView,
    colon: TokenView,
    within: nat,
)
    requires
        ready(st, within),
    ensures
        match parse_declaration(st, named, colon, inside(within)) {
            Ok((s, after)) => expression_tokens(st.scopes, within, named) + content(st.input)
                == statement_tokens(after.scopes, within, s) + content(after.input),
            Err(_) => true,
        },
    decreases st.input.len(), 3int,
{
    reveal(parse_declaration);
    reveal(parse_optional_value);
    reveal(parse_expression);
    let parent = inside(within);
    match named {
        ExpressionView::Name { token: name, .. } => {
            let no_type = st.peek().kind is Colon || st.peek().kind is Equals;
            lemma_type_content(st, no_type, parent);
            match parse_optional_type(st, no_type, parent) {
                Ok((type_, typed)) => {
                    lemma_content_step(typed);
                },
                Err(_) => {},
            }
            match parse_binding(st, parent) {
                Ok(((type_, constant), bound)) => {
                    if !(bound.peek().kind is Semicolon) {
                        lemma_expression_content(bound, within);
                    }
                    match parse_optional_value(bound, parent) {
                        Ok((value, after)) => {
                            lemma_content_step(after);
                            match parse_declaration(st, named, colon, parent) {
                                Ok((s, last)) => {
                                    assert(expression_tokens(st.scopes, within, named) + content(
                                        st.input,
                                    ) =~= statement_tokens(last.scopes, within, s) + content(
                                        last.input,
                                    ));
                                },
                                Err(_) => {},
                            }
                        },
                        Err(_) => {},
                    }
                },
                Err(_) => {},
            }
        },
        _ => {},
    }
}

/// Nothing lost, nothing added: the tokens of the file that the grammar
/// gives for a sequence of tokens are the tokens of the sequence that carry
/// content, in the order of the sequence.
#[verifier::spinoff_prover]
pub proof fn lemma_file_content(tokens: Seq<TokenView>, file_path: Seq<char>, source: Seq<char>)
    ensures
        match parse_file(tokens, file_path, source, ParentView { file: None, scope: None }) {
            Ok(file) => file_tokens(file) == content(tokens),
            Err(_) => true,
        },
{
    reveal(parse_statements);
    let top = ParentView { file: Some(FILE as nat), scope: None };
    let reserved = ScopeView { parent_data: top, statements: Seq::empty() };
    let st = ParseState { input: tokens, scopes: seq![reserved] };
    let within = TOP_LEVEL as nat;
    assert(scope_well_formed(st.scopes, 0));
    scoping::lemma_statements(st, inside(within), Seq::empty(), true);
    lemma_statements_content(st, within, Seq::empty(), true);
    lemma_stops(st, inside(within), Seq::empty(), true);
    match parse_statements(st, inside(within), Seq::empty(), true) {
        Ok((statements, after)) => {
            lemma_content_step(after);
            let filled = after.scopes.update(
                TOP_LEVEL as int,
                ScopeView { parent_data: top, statements },
            );
            lemma_statements_tokens_stay(after.scopes, filled, within, statements);
            assert(statements_tokens(filled, within, statements) =~= content(tokens));
        },
        Err(_) => {},
    }
}

} // verus!
