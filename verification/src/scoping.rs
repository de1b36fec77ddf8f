//! Back-references: every tree that the grammar gives is well formed.
//!
//! The proofs follow the grammar function by function. Each says that a
//! part read in a well-formed arena leaves a well-formed arena that still
//! holds the scopes it held, unchanged, and that the nodes of the part
//! record the file and the scope in which the part was read.

use crate::ast::{
    arena_well_formed, declaration_records, expression_records, file_well_formed, inside,
    optional_type_records, scope_recorded, scope_well_formed, statement_records, DeclarationView,
    ExpressionView, ParentView, ScopeView, StatementView, FILE, TOP_LEVEL,
};
use crate::grammar::{
    binary_precedence, is_compound_assignment, parse_argument, parse_arguments, parse_assignment,
    parse_binary_expression, parse_binding, parse_declaration, parse_expression, parse_file,
    parse_infix, parse_optional_type, parse_optional_value, parse_primary_expression,
    parse_procedure, parse_procedure_tail, parse_scope, parse_statement, parse_statement_rest,
    parse_statements, unary_precedence, ParseState,
};
use crate::token::TokenView;
use vstd::prelude::*;

verus! {

/// The scopes of `before` are all in `after`, with the parents they had.
pub open spec fn same_parents(before: Seq<ScopeView>, after: Seq<ScopeView>) -> bool {
    &&& before.len() <= after.len()
    &&& forall|i: int|
        0 <= i < before.len() ==> (#[trigger] after[i]).parent_data == before[i].parent_data
}

/// The scopes of `before` are all in `after`, unchanged.
pub open spec fn extends(before: Seq<ScopeView>, after: Seq<ScopeView>) -> bool {
    &&& before.len() <= after.len()
    &&& forall|i: int| 0 <= i < before.len() ==> #[trigger] after[i] == before[i]
}

/// The arena after a part was read: well formed, and an extension of the
/// arena before.
pub open spec fn grows(before: ParseState, after: ParseState) -> bool {
    &&& arena_well_formed(after.scopes)
    &&& extends(before.scopes, after.scopes)
}

/// A part can be read in `scopes` with `parent` around it: the file is the
/// file of the parse and the scope is in the arena.
pub open spec fn can_enclose(parent: ParentView, scopes: Seq<ScopeView>) -> bool {
    &&& parent.file == Some(FILE as nat)
    &&& parent.scope matches Some(scope) && scope < scopes.len()
}

pub open spec fn all_declarations_record(
    declarations: Seq<DeclarationView>,
    parent: ParentView,
    scopes: Seq<ScopeView>,
) -> bool {
    forall|i: int|
        0 <= i < declarations.len() ==> declaration_records(
            #[trigger] declarations[i],
            parent,
            scopes,
        )
}

pub open spec fn all_statements_record(
    statements: Seq<StatementView>,
    parent: ParentView,
    scopes: Seq<ScopeView>,
) -> bool {
    forall|k: int|
        0 <= k < statements.len() ==> statement_records(#[trigger] statements[k], parent, scopes)
}

/// What an expression records, it records in every later arena.
pub proof fn lemma_expression_stays(
    e: ExpressionView,
    parent: ParentView,
    before: Seq<ScopeView>,
    after: Seq<ScopeView>,
)
    requires
        expression_records(e, parent, before),
        same_parents(before, after),
    ensures
        expression_records(e, parent, after),
    decreases e,
{
    match e {
        ExpressionView::Procedure { arguments, scope, .. } => {
            assert forall|i: int| 0 <= i < arguments.len() implies declaration_records(
                #[trigger] arguments[i],
                parent,
                after,
            ) by {
                lemma_declaration_stays(arguments[i], parent, before, after);
            }
            assert(after[scope as int].parent_data == before[scope as int].parent_data);
        },
        ExpressionView::Name { .. } => {},
        ExpressionView::Literal { .. } => {},
        ExpressionView::Unary { operand, .. } => {
            lemma_expression_stays(*operand, parent, before, after);
        },
        ExpressionView::Binary { left, right, .. } => {
            lemma_expression_stays(*left, parent, before, after);
            lemma_expression_stays(*right, parent, before, after);
        },
    }
}

/// What a declaration records, it records in every later arena.
pub proof fn lemma_declaration_stays(
    d: DeclarationView,
    parent: ParentView,
    before: Seq<ScopeView>,
    after: Seq<ScopeView>,
)
    requires
        declaration_records(d, parent, before),
        same_parents(before, after),
    ensures
        declaration_records(d, parent, after),
    decreases d,
{
    match d.value {
        Some(value) => {
            lemma_expression_stays(value, parent, before, after);
        },
        None => {},
    }
}

/// What a statement records, it records in every later arena.
pub proof fn lemma_statement_stays(
    s: StatementView,
    parent: ParentView,
    before: Seq<ScopeView>,
    after: Seq<ScopeView>,
)
    requires
        statement_records(s, parent, before),
        same_parents(before, after),
    ensures
        statement_records(s, parent, after),
{
    match s {
        StatementView::Expression(e) => {
            lemma_expression_stays(e, parent, before, after);
        },
        StatementView::Scope(id) => {
            assert(after[id as int].parent_data == before[id as int].parent_data);
        },
        StatementView::Declaration(d) => {
            lemma_declaration_stays(d, parent, before, after);
        },
        StatementView::Assignment { left, right, .. } => {
            lemma_expression_stays(left, parent, before, after);
            lemma_expression_stays(right, parent, before, after);
        },
    }
}

/// What declarations record, they record in every later arena.
pub proof fn lemma_declarations_stay(
    declarations: Seq<DeclarationView>,
    parent: ParentView,
    before: Seq<ScopeView>,
    after: Seq<ScopeView>,
)
    requires
        all_declarations_record(declarations, parent, before),
        same_parents(before, after),
    ensures
        all_declarations_record(declarations, parent, after),
{
    assert forall|i: int| 0 <= i < declarations.len() implies declaration_records(
        #[trigger] declarations[i],
        parent,
        after,
    ) by {
        lemma_declaration_stays(declarations[i], parent, before, after);
    }
}

/// What statements record, they record in every later arena.
pub proof fn lemma_statements_stay(
    statements: Seq<StatementView>,
    parent: ParentView,
    before: Seq<ScopeView>,
    after: Seq<ScopeView>,
)
    requires
        all_statements_record(statements, parent, before),
        same_parents(before, after),
    ensures
        all_statements_record(statements, parent, after),
{
    assert forall|k: int| 0 <= k < statements.len() implies statement_records(
        #[trigger] statements[k],
        parent,
        after,
    ) by {
        lemma_statement_stays(statements[k], parent, before, after);
    }
}

/// A well-formed arena stays well formed when the statements of one scope
/// are replaced by statements that record that scope, and when scopes that
/// record an earlier scope are added.
pub proof fn lemma_arena_stays(before: Seq<ScopeView>, after: Seq<ScopeView>, filled: int)
    requires
        arena_well_formed(before),
        same_parents(before, after),
        forall|id: int|
            0 <= id < before.len() && id != filled ==> #[trigger] after[id] == before[id],
        forall|id: int|
            before.len() <= id < after.len() || id == filled ==> 0 <= id < after.len() ==> {
                &&& (#[trigger] after[id]).parent_data.file == Some(FILE as nat)
                &&& id != TOP_LEVEL ==> (after[id].parent_data.scope matches Some(outer) && outer
                    < id)
                &&& id == TOP_LEVEL ==> after[id].parent_data.scope is None
                &&& all_statements_record(after[id].statements, inside(id as nat), after)
            },
    ensures
        arena_well_formed(after),
{
    assert forall|id: int| 0 <= id < after.len() implies #[trigger] scope_well_formed(
        after,
        id,
    ) by {
        if id < before.len() && id != filled {
            assert(scope_well_formed(before, id));
            assert(after[id] == before[id]);
            lemma_statements_stay(before[id].statements, inside(id as nat), before, after);
        } else {
            assert(all_statements_record(after[id].statements, inside(id as nat), after));
        }
    }
}

/// A type reference: what was read records where it was read, and the arena stays
/// well formed.
pub proof fn lemma_type(st: ParseState, absent: bool, parent: ParentView)
    ensures
        match parse_optional_type(st, absent, parent) {
            Ok((type_, after)) => optional_type_records(type_, parent) && after.scopes
                == st.scopes && after.input.len() <= st.input.len() && (absent <==> type_
                is None),
            Err(_) => true,
        },
{
}

/// A name, a literal or what `(` opens: what was read records where it was
/// read, and the arena stays well formed.
#[verifier::spinoff_prover]
pub proof fn lemma_primary_expression(st: ParseState, parent: ParentView)
    requires
        arena_well_formed(st.scopes),
        can_enclose(parent, st.scopes),
    ensures
        match parse_primary_expression(st, parent) {
            Ok((e, after)) => grows(st, after) && expression_records(e, parent, after.scopes),
            Err(_) => true,
        },
    decreases st.input.len(), 1int,
{
    reveal(parse_primary_expression);
    reveal(parse_procedure);
    reveal(parse_expression);
    let token = st.peek();
    if token.kind is LParen {
        let opened = st.advance();
        if opened.peek().kind is RParen {
            lemma_procedure(opened.advance(), None, parent);
        } else {
            lemma_expression(opened, parent);
            match parse_expression(opened, parent) {
                Ok((expression, after)) => {
                    if after.shorter_than(st) && after.peek().kind is Colon {
                        match expression {
                            ExpressionView::Name { token: name, .. } => {
                                lemma_procedure(after.advance(), Some(name), parent);
                            },
                            _ => {},
                        }
                    }
                },
                Err(_) => {},
            }
        }
    }
}

/// An expression: what was read records where it was read, and the arena stays
/// well formed.
#[verifier::spinoff_prover]
pub proof fn lemma_expression(st: ParseState, parent: ParentView)
    requires
        arena_well_formed(st.scopes),
        can_enclose(parent, st.scopes),
    ensures
        match parse_expression(st, parent) {
            Ok((e, after)) => grows(st, after) && expression_records(e, parent, after.scopes),
            Err(_) => true,
        },
    decreases st.input.len(), 3int,
{
    reveal(parse_expression);
    reveal(parse_binary_expression);
    lemma_binary_expression(st, 0, parent);
}

/// An expression read at a bound: what was read records where it was read, and the arena stays
/// well formed.
#[verifier::spinoff_prover]
pub proof fn lemma_binary_expression(st: ParseState, bound: nat, parent: ParentView)
    requires
        arena_well_formed(st.scopes),
        can_enclose(parent, st.scopes),
    ensures
        match parse_binary_expression(st, bound, parent) {
            Ok((e, after)) => grows(st, after) && expression_records(e, parent, after.scopes),
            Err(_) => true,
        },
    decreases st.input.len(), 2int,
{
    reveal(parse_binary_expression);
    reveal(parse_primary_expression);
    reveal(parse_infix);
    let operator = st.peek();
    let precedence = unary_precedence(operator.kind);
    if precedence > bound {
        lemma_binary_expression(st.advance(), precedence, parent);
        match parse_binary_expression(st.advance(), precedence, parent) {
            Ok((operand, after)) => {
                let left = ExpressionView::Unary {
                    parent_data: parent,
                    operator,
                    operand: Box::new(operand),
                };
                if after.shorter_than(st) {
                    lemma_infix(after, left, bound, parent);
                }
            },
            Err(_) => {},
        }
    } else {
        lemma_primary_expression(st, parent);
        match parse_primary_expression(st, parent) {
            Ok((left, after)) => {
                if after.shorter_than(st) {
                    lemma_infix(after, left, bound, parent);
                }
            },
            Err(_) => {},
        }
    }
}

/// The infix operators that follow an expression: what was read records where
/// it was read, and the arena stays well formed.
#[verifier::spinoff_prover]
pub proof fn lemma_infix(st: ParseState, left: ExpressionView, bound: nat, parent: ParentView)
    requires
        arena_well_formed(st.scopes),
        can_enclose(parent, st.scopes),
        expression_records(left, parent, st.scopes),
    ensures
        match parse_infix(st, left, bound, parent) {
            Ok((e, after)) => grows(st, after) && expression_records(e, parent, after.scopes),
            Err(_) => true,
        },
    decreases st.input.len(), 1int,
{
    reveal(parse_infix);
    reveal(parse_binary_expression);
    let operator = st.peek();
    let precedence = binary_precedence(operator.kind);
    if !(precedence == 0 || precedence <= bound) {
        lemma_binary_expression(st.advance(), precedence, parent);
        match parse_binary_expression(st.advance(), precedence, parent) {
            Ok((right, after)) => {
                if after.shorter_than(st) {
                    lemma_expression_stays(left, parent, st.scopes, after.scopes);
                    let folded = ExpressionView::Binary {
                        parent_data: parent,
                        left: Box::new(left),
                        operator,
                        right: Box::new(right),
                    };
                    lemma_infix(after, folded, bound, parent);
                }
            },
            Err(_) => {},
        }
    }
}

/// The type and value of an argument: what was read records where it was read, and the arena stays
/// well formed.
#[verifier::spinoff_prover]
pub proof fn lemma_argument(st: ParseState, name: TokenView, parent: ParentView)
    requires
        arena_well_formed(st.scopes),
        can_enclose(parent, st.scopes),
    ensures
        match parse_argument(st, name, parent) {
            Ok((d, after)) => grows(st, after) && declaration_records(d, parent, after.scopes),
            Err(_) => true,
        },
    decreases st.input.len(), 1int,
{
    reveal(parse_argument);
    reveal(parse_expression);
    lemma_type(st, st.peek().kind is Equals, parent);
    match parse_optional_type(st, st.peek().kind is Equals, parent) {
        Ok((type_, typed)) => {
            if typed.peek().kind is Equals {
                lemma_expression(typed.advance(), parent);
            }
        },
        Err(_) => {},
    }
}

/// The rest of an argument list: what was read records where it was read, and the arena stays
/// well formed.
#[verifier::spinoff_prover]
pub proof fn lemma_arguments(st: ParseState, read: Seq<DeclarationView>, parent: ParentView)
    requires
        arena_well_formed(st.scopes),
        can_enclose(parent, st.scopes),
        all_declarations_record(read, parent, st.scopes),
    ensures
        match parse_arguments(st, read, parent) {
            Ok((all, after)) => grows(st, after) && all_declarations_record(
                all,
                parent,
                after.scopes,
            ),
            Err(_) => true,
        },
    decreases st.input.len(), 1int,
{
    reveal(parse_arguments);
    reveal(parse_argument);
    if st.peek().kind is Comma {
        let name = st.advance().peek();
        let named = st.advance().advance();
        if name.kind is Identifier && named.peek().kind is Colon {
            lemma_argument(named.advance(), name, parent);
            match parse_argument(named.advance(), name, parent) {
                Ok((argument, after)) => {
                    if after.shorter_than(st) {
                        lemma_declarations_stay(read, parent, st.scopes, after.scopes);
                        lemma_arguments(after, read.push(argument), parent);
                    }
                },
                Err(_) => {},
            }
        }
    }
}

/// The return type and the body of a procedure: what was read records where
/// it was read, and the arena stays well formed.
#[verifier::spinoff_prover]
pub proof fn lemma_procedure_tail(
    st: ParseState,
    arguments: Seq<DeclarationView>,
    parent: ParentView,
)
    requires
        arena_well_formed(st.scopes),
        can_enclose(parent, st.scopes),
        all_declarations_record(arguments, parent, st.scopes),
    ensures
        match parse_procedure_tail(st, arguments, parent) {
            Ok((e, after)) => grows(st, after) && expression_records(e, parent, after.scopes),
            Err(_) => true,
        },
    decreases st.input.len(), 1int,
{
    reveal(parse_procedure_tail);
    reveal(parse_scope);
    let arrow = st.peek().kind is RightArrow;
    lemma_type(st.advance_if(arrow), !arrow, parent);
    match parse_optional_type(st.advance_if(arrow), !arrow, parent) {
        Ok((return_type, typed)) => {
            lemma_scope(typed, parent);
            match parse_scope(typed, parent) {
                Ok((scope, after)) => {
                    lemma_declarations_stay(arguments, parent, st.scopes, after.scopes);
                },
                Err(_) => {},
            }
        },
        Err(_) => {},
    }
}

/// A procedure: what was read records where it was read, and the arena stays
/// well formed.
#[verifier::spinoff_prover]
pub proof fn lemma_procedure(st: ParseState, first_argument: Option<TokenView>, parent: ParentView)
    requires
        arena_well_formed(st.scopes),
        can_enclose(parent, st.scopes),
    ensures
        match parse_procedure(st, first_argument, parent) {
            Ok((e, after)) => grows(st, after) && expression_records(e, parent, after.scopes),
            Err(_) => true,
        },
    decreases st.input.len(), 2int,
{
    reveal(parse_procedure);
    reveal(parse_argument);
    reveal(parse_arguments);
    reveal(parse_procedure_tail);
    match first_argument {
        None => {
            lemma_procedure_tail(st, Seq::empty(), parent);
        },
        Some(name) => {
            lemma_argument(st, name, parent);
            match parse_argument(st, name, parent) {
                Ok((argument, after)) => {
                    if after.shorter_than(st) {
                        lemma_arguments(after, seq![argument], parent);
                        match parse_arguments(after, seq![argument], parent) {
                            Ok((arguments, closed)) => {
                                if closed.shorter_than(st) {
                                    lemma_procedure_tail(closed, arguments, parent);
                                }
                            },
                            Err(_) => {},
                        }
                    }
                },
                Err(_) => {},
            }
        },
    }
}

/// A scope: what was read records where it was read, and the arena stays
/// well formed.
#[verifier::spinoff_prover]
pub proof fn lemma_scope(st: ParseState, parent: ParentView)
    requires
        arena_well_formed(st.scopes),
        can_enclose(parent, st.scopes),
    ensures
        match parse_scope(st, parent) {
            Ok((id, after)) => grows(st, after) && scope_recorded(after.scopes, id, parent),
            Err(_) => true,
        },
    decreases st.input.len(), 0int,
{
    reveal(parse_scope);
    reveal(parse_statements);
    if st.peek().kind is LBrace {
        let id = st.scopes.len();
        let reserved = ScopeView { parent_data: parent, statements: Seq::empty() };
        let opened = ParseState { input: st.advance().input, scopes: st.scopes.push(reserved) };
        lemma_arena_stays(st.scopes, opened.scopes, -1);
        lemma_statements(opened, inside(id), Seq::empty(), false);
        match parse_statements(opened, inside(id), Seq::empty(), false) {
            Ok((statements, after)) => {
                let filled = after.scopes.update(
                    id as int,
                    ScopeView { parent_data: parent, statements },
                );
                assert(after.scopes[id as int] == reserved);
                lemma_statements_stay(statements, inside(id), after.scopes, filled);
                lemma_arena_stays(after.scopes, filled, id as int);
            },
            Err(_) => {},
        }
    }
}

/// Statements up to the token that closes them: what was read records where
/// it was read, and the arena stays well formed.
#[verifier::spinoff_prover]
pub proof fn lemma_statements(
    st: ParseState,
    parent: ParentView,
    read: Seq<StatementView>,
    top_level: bool,
)
    requires
        arena_well_formed(st.scopes),
        can_enclose(parent, st.scopes),
        all_statements_record(read, parent, st.scopes),
    ensures
        match parse_statements(st, parent, read, top_level) {
            Ok((all, after)) => grows(st, after) && all_statements_record(
                all,
                parent,
                after.scopes,
            ),
            Err(_) => true,
        },
    decreases st.input.len(), 5int,
{
    reveal(parse_statements);
    reveal(parse_statement);
    if !((top_level && st.peek().kind is EndOfFile) || (!top_level && st.peek().kind is RBrace)) {
        lemma_statement(st, parent);
        match parse_statement(st, parent) {
            Ok((statement, after)) => {
                if after.shorter_than(st) {
                    lemma_statements_stay(read, parent, st.scopes, after.scopes);
                    lemma_statements(after, parent, read.push(statement), top_level);
                }
            },
            Err(_) => {},
        }
    }
}

/// A statement: what was read records where it was read, and the arena stays
/// well formed.
#[verifier::spinoff_prover]
pub proof fn lemma_statement(st: ParseState, parent: ParentView)
    requires
        arena_well_formed(st.scopes),
        can_enclose(parent, st.scopes),
    ensures
        match parse_statement(st, parent) {
            Ok((s, after)) => grows(st, after) && statement_records(s, parent, after.scopes),
            Err(_) => true,
        },
    decreases st.input.len(), 4int,
{
    reveal(parse_statement);
    reveal(parse_scope);
    reveal(parse_expression);
    reveal(parse_statement_rest);
    if st.peek().kind is Semicolon {
        lemma_statement(st.advance(), parent);
    } else if st.peek().kind is LBrace {
        lemma_scope(st, parent);
    } else {
        lemma_expression(st, parent);
        match parse_expression(st, parent) {
            Ok((expression, after)) => {
                if after.shorter_than(st) {
                    lemma_statement_rest(after, expression, parent);
                }
            },
            Err(_) => {},
        }
    }
}

/// What follows the expression that a statement starts with: what was read
/// records where it was read, and the arena stays well formed.
#[verifier::spinoff_prover]
pub proof fn lemma_statement_rest(st: ParseState, expression: ExpressionView, parent: ParentView)
    requires
        arena_well_formed(st.scopes),
        can_enclose(parent, st.scopes),
        expression_records(expression, parent, st.scopes),
    ensures
        match parse_statement_rest(st, expression, parent) {
            Ok((s, after)) => grows(st, after) && statement_records(s, parent, after.scopes),
            Err(_) => true,
        },
    decreases st.input.len(), 4int,
{
    reveal(parse_statement_rest);
    reveal(parse_declaration);
    reveal(parse_assignment);
    if st.peek().kind is Colon {
        lemma_declaration(st.advance(), expression, st.peek(), parent);
    } else if is_compound_assignment(st.peek().kind) {
        lemma_assignment(st.advance(), expression, st.peek(), parent);
    }
}

/// The rest of an assignment: what was read records where it was read, and the arena stays
/// well formed.
#[verifier::spinoff_prover]
pub proof fn lemma_assignment(
    st: ParseState,
    left: ExpressionView,
    operator: TokenView,
    parent: ParentView,
)
    requires
        arena_well_formed(st.scopes),
        can_enclose(parent, st.scopes),
        expression_records(left, parent, st.scopes),
    ensures
        match parse_assignment(st, left, operator, parent) {
            Ok((s, after)) => grows(st, after) && statement_records(s, parent, after.scopes),
            Err(_) => true,
        },
    decreases st.input.len(), 4int,
{
    reveal(parse_assignment);
    reveal(parse_expression);
    lemma_expression(st, parent);
    match parse_expression(st, parent) {
        Ok((right, after)) => {
            lemma_expression_stays(left, parent, st.scopes, after.scopes);
        },
        Err(_) => {},
    }
}

/// The rest of a declaration: what was read records where it was read, and the arena stays
/// well formed.
#[verifier::spinoff_prover]
pub proof fn lemma_declaration(
    st: ParseState,
    named: ExpressionView,
    colon: TokenView,
    parent: ParentView,
)
    requires
        arena_well_formed(st.scopes),
        can_enclose(parent, st.scopes),
    ensures
        match parse_declaration(st, named, colon, parent) {
            Ok((s, after)) => grows(st, after) && statement_records(s, parent, after.scopes),
            Err(_) => true,
        },
    decreases st.input.len(), 3int,
{
    reveal(parse_declaration);
    reveal(parse_optional_value);
    reveal(parse_expression);
    match named {
        ExpressionView::Name { token: name, .. } => {
            let no_type = st.peek().kind is Colon || st.peek().kind is Equals;
            lemma_type(st, no_type, parent);
            match parse_binding(st, parent) {
                Ok(((type_, constant), bound)) => {
                    if !(bound.peek().kind is Semicolon) {
                        lemma_expression(bound, parent);
                    }
                },
                Err(_) => {},
            }
        },
        _ => {},
    }
}

/// The file that the grammar gives for a sequence of tokens is well formed:
/// every node of it records the file and the innermost scope that holds it,
/// and a nested scope records the scope around it.
#[verifier::spinoff_prover]
pub proof fn lemma_file_well_formed(
    tokens: Seq<TokenView>,
    file_path: Seq<char>,
    source: Seq<char>,
)
    ensures
        match parse_file(tokens, file_path, source, ParentView { file: None, scope: None }) {
            Ok(file) => file_well_formed(file),
            Err(_) => true,
        },
{
    reveal(parse_statements);
    let parent = ParentView { file: None, scope: None };
    let top = ParentView { file: Some(FILE as nat), scope: None };
    let reserved = ScopeView { parent_data: top, statements: Seq::empty() };
    let st = ParseState { input: tokens, scopes: seq![reserved] };
    assert(scope_well_formed(st.scopes, 0));
    lemma_statements(st, inside(TOP_LEVEL as nat), Seq::empty(), true);
    match parse_statements(st, inside(TOP_LEVEL as nat), Seq::empty(), true) {
        Ok((statements, after)) => {
            let filled = after.scopes.update(
                TOP_LEVEL as int,
                ScopeView { parent_data: top, statements },
            );
            assert(after.scopes[0] == reserved);
            lemma_statements_stay(statements, inside(TOP_LEVEL as nat), after.scopes, filled);
            lemma_arena_stays(after.scopes, filled, 0);
        },
        Err(_) => {},
    }
}

} // verus!
