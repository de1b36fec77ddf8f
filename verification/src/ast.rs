//! The syntax tree.
//!
//! A file owns an arena of scopes. A scope owns its statements, a statement
//! its expressions. A nested scope is held by its index in the arena, and
//! every node records the file and the scope that enclose it by index too:
//! such a back-reference owns nothing and is only read.

use crate::token::{Token, TokenView};
use vstd::prelude::*;

verus! {

/// Index of a file. A parse builds one file, and its index is `FILE`.
pub type FileId = usize;

/// Index of a scope in the arena of its file.
pub type ScopeId = usize;

/// The nearest enclosing file and the nearest enclosing scope of a node.
#[derive(Clone, Copy, PartialEq, Eq, Debug)]
pub struct ParentData {
    pub file: Option<FileId>,
    pub scope: Option<ScopeId>,
}

/// The index of the file that a parse builds.
pub const FILE: FileId = 0;

/// The index of the top-level scope of a file.
pub const TOP_LEVEL: ScopeId = 0;

/// What a parse gives: a file. A statement can stand alone as a tree too.
#[derive(Debug)]
pub enum Ast {
    File(AstFile),
    Statement(AstStatement),
}

/// A source file: its path, its text and its scopes.
#[derive(Debug)]
pub struct AstFile {
    pub parent_data: ParentData,
    pub file_path: String,
    pub source: String,
    /// The top-level scope.
    pub scope: ScopeId,
    /// Every scope of the file; a scope comes before the scopes nested in it.
    pub scopes: Vec<AstScope>,
}

/// A statement. A nested scope is held by its index in the arena.
#[derive(Debug)]
pub enum AstStatement {
    Expression(AstExpression),
    Scope(ScopeId),
    Declaration(AstDeclaration),
    Assignment(AstAssignment),
}

/// A scope: statements in the order of the text.
#[derive(Debug)]
pub struct AstScope {
    pub parent_data: ParentData,
    pub statements: Vec<AstStatement>,
}

/// A declaration of a name: `constant` tells a name bound with `::` from
/// one bound with `:=`. A declaration has a type, a value or both.
#[derive(Debug)]
pub struct AstDeclaration {
    pub parent_data: ParentData,
    pub name: Token,
    pub type_: Option<AstType>,
    pub value: Option<AstExpression>,
    pub constant: bool,
}

/// A compound assignment.
#[derive(Debug)]
pub struct AstAssignment {
    pub parent_data: ParentData,
    pub left: AstExpression,
    pub operator: Token,
    pub right: AstExpression,
}

/// An expression. A procedure is an expression like the others.
#[derive(Debug)]
pub enum AstExpression {
    Procedure(Box<AstProcedure>),
    Name(AstName),
    Literal(AstLiteral),
    Unary(Box<AstUnary>),
    Binary(Box<AstBinary>),
}

/// A procedure: its arguments, its return type and its body.
#[derive(Debug)]
pub struct AstProcedure {
    pub parent_data: ParentData,
    pub arguments: Vec<AstDeclaration>,
    pub return_type: Option<AstType>,
    /// The body.
    pub scope: ScopeId,
}

/// A name that is used.
#[derive(Clone, Debug)]
pub struct AstName {
    pub parent_data: ParentData,
    pub token: Token,
}

/// A number.
#[derive(Clone, Debug)]
pub struct AstLiteral {
    pub parent_data: ParentData,
    pub token: Token,
}

/// A prefix operator and its operand.
#[derive(Debug)]
pub struct AstUnary {
    pub parent_data: ParentData,
    pub operator: Token,
    pub operand: AstExpression,
}

/// An infix operator and its two operands.
#[derive(Debug)]
pub struct AstBinary {
    pub parent_data: ParentData,
    pub left: AstExpression,
    pub operator: Token,
    pub right: AstExpression,
}

/// A reference to a type.
#[derive(Clone, Debug)]
pub enum AstType {
    Name(AstTypeName),
}

/// A reference to a type by its name.
#[derive(Clone, Debug)]
pub struct AstTypeName {
    pub parent_data: ParentData,
    pub name: Token,
}

impl AstFile {
    /// Follows a back-reference: the scope of this file that a node with
    /// the back-reference `parent_data` lies in. `None` where the node
    /// records no scope, as the top-level scope does, or a scope that this
    /// file does not have.
    pub fn enclosing_scope(&self, parent_data: ParentData) -> (scope: Option<&AstScope>)
        ensures
            scope == match parent_data.scope {
                Some(id) => if id < self.scopes@.len() {
                    Some(&self.scopes@[id as int])
                } else {
                    None
                },
                None => None,
            },
    {
        match parent_data.scope {
            Some(id) => if id < self.scopes.len() {
                Some(&self.scopes[id])
            } else {
                None
            },
            None => None,
        }
    }
}

/// Model of a back-reference: the indices as natural numbers.
pub struct ParentView {
    pub file: Option<nat>,
    pub scope: Option<nat>,
}

impl View for ParentData {
    type V = ParentView;

    open spec fn view(&self) -> ParentView {
        ParentView {
            file: match self.file {
                Some(file) => Some(file as nat),
                None => None,
            },
            scope: match self.scope {
                Some(scope) => Some(scope as nat),
                None => None,
            },
        }
    }
}

/// Model of an expression.
pub enum ExpressionView {
    Procedure {
        parent_data: ParentView,
        arguments: Seq<DeclarationView>,
        return_type: Option<TypeView>,
        scope: nat,
    },
    Name { parent_data: ParentView, token: TokenView },
    Literal { parent_data: ParentView, token: TokenView },
    Unary { parent_data: ParentView, operator: TokenView, operand: Box<ExpressionView> },
    Binary {
        parent_data: ParentView,
        left: Box<ExpressionView>,
        operator: TokenView,
        right: Box<ExpressionView>,
    },
}

/// Model of a declaration.
pub struct DeclarationView {
    pub parent_data: ParentView,
    pub name: TokenView,
    pub type_: Option<TypeView>,
    pub value: Option<ExpressionView>,
    pub constant: bool,
}

/// Model of a type reference.
pub enum TypeView {
    Name { parent_data: ParentView, name: TokenView },
}

/// Model of a statement.
pub enum StatementView {
    Expression(ExpressionView),
    Scope(nat),
    Declaration(DeclarationView),
    Assignment {
        parent_data: ParentView,
        left: ExpressionView,
        operator: TokenView,
        right: ExpressionView,
    },
}

/// Model of a scope.
pub struct ScopeView {
    pub parent_data: ParentView,
    pub statements: Seq<StatementView>,
}

/// Model of a file.
pub struct FileView {
    pub parent_data: ParentView,
    pub file_path: Seq<char>,
    pub source: Seq<char>,
    pub scope: nat,
    pub scopes: Seq<ScopeView>,
}

/// Model of a tree.
pub enum AstView {
    File(FileView),
    Statement(StatementView),
}

/// The type reference records `parent` as what encloses it.
pub open spec fn type_records(t: TypeView, parent: ParentView) -> bool {
    match t {
        TypeView::Name { parent_data, .. } => parent_data == parent,
    }
}

pub open spec fn optional_type_records(t: Option<TypeView>, parent: ParentView) -> bool {
    match t {
        Some(t) => type_records(t, parent),
        None => true,
    }
}

/// `id` is a scope of the arena, and that scope records `parent` as what
/// encloses it.
pub open spec fn scope_recorded(scopes: Seq<ScopeView>, id: nat, parent: ParentView) -> bool {
    id < scopes.len() && scopes[id as int].parent_data == parent
}

/// Every node of the expression records `parent` as what encloses it, the
/// body of a procedure in it too; each argument has a type or a value.
pub open spec fn expression_records(
    e: ExpressionView,
    parent: ParentView,
    scopes: Seq<ScopeView>,
) -> bool
    decreases e,
{
    match e {
        ExpressionView::Procedure { parent_data, arguments, return_type, scope } => {
            &&& parent_data == parent
            &&& forall|i: int|
                0 <= i < arguments.len() ==> declaration_records(
                    #[trigger] arguments[i],
                    parent,
                    scopes,
                )
            &&& optional_type_records(return_type, parent)
            &&& scope_recorded(scopes, scope, parent)
        },
        ExpressionView::Name { parent_data, .. } => parent_data == parent,
        ExpressionView::Literal { parent_data, .. } => parent_data == parent,
        ExpressionView::Unary { parent_data, operand, .. } => {
            &&& parent_data == parent
            &&& expression_records(*operand, parent, scopes)
        },
        ExpressionView::Binary { parent_data, left, right, .. } => {
            &&& parent_data == parent
            &&& expression_records(*left, parent, scopes)
            &&& expression_records(*right, parent, scopes)
        },
    }
}

/// The declaration and every node in it record `parent` as what encloses
/// them, and the declaration has a type or a value.
pub open spec fn declaration_records(
    d: DeclarationView,
    parent: ParentView,
    scopes: Seq<ScopeView>,
) -> bool
    decreases d,
{
    &&& d.parent_data == parent
    &&& optional_type_records(d.type_, parent)
    &&& d.value matches Some(value) ==> expression_records(value, parent, scopes)
    &&& d.type_ is Some || d.value is Some
}

/// The statement and every node in it record `parent` as what encloses
/// them; a nested scope is in the arena and records `parent`.
pub open spec fn statement_records(
    s: StatementView,
    parent: ParentView,
    scopes: Seq<ScopeView>,
) -> bool {
    match s {
        StatementView::Expression(e) => expression_records(e, parent, scopes),
        StatementView::Scope(id) => scope_recorded(scopes, id, parent),
        StatementView::Declaration(d) => declaration_records(d, parent, scopes),
        StatementView::Assignment { parent_data, left, right, .. } => {
            &&& parent_data == parent
            &&& expression_records(left, parent, scopes)
            &&& expression_records(right, parent, scopes)
        },
    }
}

/// What the nodes directly inside scope `id` record.
pub open spec fn inside(id: nat) -> ParentView {
    ParentView { file: Some(FILE as nat), scope: Some(id) }
}

/// Scope `id` records the file, and as enclosing scope none if it is the
/// top level, else a scope that comes before it. Everything directly inside
/// it records `id` as its scope.
pub open spec fn scope_well_formed(scopes: Seq<ScopeView>, id: int) -> bool {
    let scope = scopes[id];
    &&& scope.parent_data.file == Some(FILE as nat)
    &&& if id == TOP_LEVEL {
        scope.parent_data.scope is None
    } else {
        scope.parent_data.scope matches Some(outer) && outer < id
    }
    &&& forall|k: int|
        0 <= k < scope.statements.len() ==> statement_records(
            #[trigger] scope.statements[k],
            inside(id as nat),
            scopes,
        )
}

/// The arena holds the top-level scope, and each of its scopes is well
/// formed.
pub open spec fn arena_well_formed(scopes: Seq<ScopeView>) -> bool {
    &&& scopes.len() >= 1
    &&& forall|id: int| 0 <= id < scopes.len() ==> #[trigger] scope_well_formed(scopes, id)
}

/// The back-references of a file are right: the file has nothing around
/// it, its scope is the first of the arena, and every node in it records
/// the file and the innermost scope that holds it.
pub open spec fn file_well_formed(file: FileView) -> bool {
    &&& file.parent_data == ParentView { file: None, scope: None }
    &&& file.scope == TOP_LEVEL
    &&& arena_well_formed(file.scopes)
}

/// The views of the items of a sequence, in order.
pub open spec fn view_all<T: View>(items: Seq<T>) -> Seq<T::V> {
    Seq::new(items.len(), |i: int| items[i]@)
}

pub proof fn lemma_view_all_empty<T: View>()
    ensures
        view_all(Seq::<T>::empty()) == Seq::<T::V>::empty(),
{
    assert(view_all(Seq::<T>::empty()) =~= Seq::<T::V>::empty());
}

pub proof fn lemma_view_all_push<T: View>(items: Seq<T>, item: T)
    ensures
        view_all(items.push(item)) == view_all(items).push(item@),
{
    assert(view_all(items.push(item)) =~= view_all(items).push(item@));
}

pub proof fn lemma_view_all_update<T: View>(items: Seq<T>, at: int, item: T)
    requires
        0 <= at < items.len(),
    ensures
        view_all(items.update(at, item)) == view_all(items).update(at, item@),
{
    assert(view_all(items.update(at, item)) =~= view_all(items).update(at, item@));
}

pub open spec fn type_view(t: AstType) -> TypeView {
    match t {
        AstType::Name(name) => TypeView::Name { parent_data: name.parent_data@, name: name.name@ },
    }
}

pub open spec fn optional_type_view(t: Option<AstType>) -> Option<TypeView> {
    match t {
        Some(t) => Some(type_view(t)),
        None => None,
    }
}

pub open spec fn expression_view(e: AstExpression) -> ExpressionView
    decreases e,
{
    match e {
        AstExpression::Procedure(p) => ExpressionView::Procedure {
            parent_data: p.parent_data@,
            arguments: Seq::new(
                p.arguments@.len(),
                |i: int|
                    if 0 <= i < p.arguments@.len() {
                        declaration_view(p.arguments@[i])
                    } else {
                        arbitrary()
                    },
            ),
            return_type: optional_type_view(p.return_type),
            scope: p.scope as nat,
        },
        AstExpression::Name(n) => ExpressionView::Name {
            parent_data: n.parent_data@,
            token: n.token@,
        },
        AstExpression::Literal(l) => ExpressionView::Literal {
            parent_data: l.parent_data@,
            token: l.token@,
        },
        AstExpression::Unary(u) => ExpressionView::Unary {
            parent_data: u.parent_data@,
            operator: u.operator@,
            operand: Box::new(expression_view(u.operand)),
        },
        AstExpression::Binary(b) => ExpressionView::Binary {
            parent_data: b.parent_data@,
            left: Box::new(expression_view(b.left)),
            operator: b.operator@,
            right: Box::new(expression_view(b.right)),
        },
    }
}

pub open spec fn declaration_view(d: AstDeclaration) -> DeclarationView
    decreases d,
{
    DeclarationView {
        parent_data: d.parent_data@,
        name: d.name@,
        type_: optional_type_view(d.type_),
        value: match d.value {
            Some(e) => Some(expression_view(e)),
            None => None,
        },
        constant: d.constant,
    }
}

pub open spec fn optional_expression_view(e: Option<AstExpression>) -> Option<ExpressionView> {
    match e {
        Some(e) => Some(expression_view(e)),
        None => None,
    }
}

impl View for AstType {
    type V = TypeView;

    open spec fn view(&self) -> TypeView {
        type_view(*self)
    }
}

impl View for AstExpression {
    type V = ExpressionView;

    open spec fn view(&self) -> ExpressionView {
        expression_view(*self)
    }
}

impl View for AstDeclaration {
    type V = DeclarationView;

    open spec fn view(&self) -> DeclarationView {
        declaration_view(*self)
    }
}

impl View for AstStatement {
    type V = StatementView;

    open spec fn view(&self) -> StatementView {
        match self {
            AstStatement::Expression(e) => StatementView::Expression(e@),
            AstStatement::Scope(id) => StatementView::Scope(*id as nat),
            AstStatement::Declaration(d) => StatementView::Declaration(d@),
            AstStatement::Assignment(a) => StatementView::Assignment {
                parent_data: a.parent_data@,
                left: a.left@,
                operator: a.operator@,
                right: a.right@,
            },
        }
    }
}

impl View for AstScope {
    type V = ScopeView;

    open spec fn view(&self) -> ScopeView {
        ScopeView { parent_data: self.parent_data@, statements: view_all(self.statements@) }
    }
}

impl View for AstFile {
    type V = FileView;

    open spec fn view(&self) -> FileView {
        FileView {
            parent_data: self.parent_data@,
            file_path: self.file_path@,
            source: self.source@,
            scope: self.scope as nat,
            scopes: view_all(self.scopes@),
        }
    }
}

impl View for Ast {
    type V = AstView;

    open spec fn view(&self) -> AstView {
        match self {
            Ast::File(file) => AstView::File(file@),
            Ast::Statement(statement) => AstView::Statement(statement@),
        }
    }
}

/// The view of a procedure's arguments is the views of the arguments.
pub proof fn lemma_procedure_view(p: AstProcedure)
    ensures
        expression_view(AstExpression::Procedure(Box::new(p))) == (ExpressionView::Procedure {
            parent_data: p.parent_data@,
            arguments: view_all(p.arguments@),
            return_type: optional_type_view(p.return_type),
            scope: p.scope as nat,
        }),
{
    assert(expression_view(AstExpression::Procedure(Box::new(p)))->Procedure_arguments
        =~= view_all(p.arguments@));
}

} // verus!
