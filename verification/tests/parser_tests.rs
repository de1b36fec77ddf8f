use frontend::ast::{
    Ast, AstDeclaration, AstExpression, AstFile, AstStatement, AstType, ParentData,
};
use frontend::lexer::Lexer;
use frontend::error::{ParseError, ParseErrorKind};
use frontend::parser::Parser;
use frontend::token::{Token, TokenKind};

fn parse(source: &str) -> Result<AstFile, ParseError> {
    let mut parser = Parser::new("test.lang", String::from(source));
    match parser.parse() {
        Ok(Ast::File(file)) => Ok(file),
        Ok(Ast::Statement(_)) => panic!("a parse gives a file"),
        Err(error) => Err(error),
    }
}

fn top_level(file: &AstFile) -> &Vec<AstStatement> {
    &file.scopes[file.scope].statements
}

fn only_statement(file: &AstFile) -> &AstStatement {
    assert_eq!(top_level(file).len(), 1);
    &top_level(file)[0]
}

fn declaration(statement: &AstStatement) -> &AstDeclaration {
    match statement {
        AstStatement::Declaration(declaration) => declaration,
        _ => panic!("not a declaration: {:?}", statement),
    }
}

fn identifier(text: &str) -> TokenKind {
    TokenKind::Identifier(String::from(text))
}

fn named_type(type_: &Option<AstType>) -> Option<TokenKind> {
    match type_ {
        Some(AstType::Name(name)) => Some(name.name.kind.clone()),
        None => None,
    }
}

fn integer(expression: &AstExpression) -> u64 {
    match expression {
        AstExpression::Literal(literal) => match literal.token.kind {
            TokenKind::Integer(value) => value,
            _ => panic!("not an integer: {:?}", literal),
        },
        _ => panic!("not a literal: {:?}", expression),
    }
}

fn in_scope(scope: usize) -> ParentData {
    ParentData { file: Some(0), scope: Some(scope) }
}

fn failure(source: &str) -> (ParseErrorKind, TokenKind) {
    match parse(source) {
        Ok(file) => panic!("parsed: {:?}", file),
        Err(error) => (error.kind, error.token.kind),
    }
}

#[test]
fn declaration_with_type_and_value() {
    let file = parse("x: i32 = 1;").unwrap();
    let declaration = declaration(only_statement(&file));
    assert!(!declaration.constant);
    assert_eq!(declaration.name.kind, identifier("x"));
    assert_eq!(named_type(&declaration.type_), Some(identifier("i32")));
    assert_eq!(integer(declaration.value.as_ref().unwrap()), 1);
}

#[test]
fn constant_declaration_without_type() {
    let file = parse("x :: 1;").unwrap();
    let declaration = declaration(only_statement(&file));
    assert!(declaration.constant);
    assert!(declaration.type_.is_none());
    assert_eq!(integer(declaration.value.as_ref().unwrap()), 1);
}

#[test]
fn declaration_with_type_only() {
    let file = parse("x: i32 = ;").unwrap();
    let declaration = declaration(only_statement(&file));
    assert!(!declaration.constant);
    assert_eq!(named_type(&declaration.type_), Some(identifier("i32")));
    assert!(declaration.value.is_none());
}

#[test]
fn declaration_with_inferred_type() {
    let file = parse("x := 2;").unwrap();
    let declaration = declaration(only_statement(&file));
    assert!(!declaration.constant);
    assert!(declaration.type_.is_none());
    assert_eq!(integer(declaration.value.as_ref().unwrap()), 2);
}

#[test]
fn constant_declaration_with_type() {
    let file = parse("x: i32 : 2;").unwrap();
    let declaration = declaration(only_statement(&file));
    assert!(declaration.constant);
    assert_eq!(named_type(&declaration.type_), Some(identifier("i32")));
}

#[test]
fn name_alone_is_an_expression_statement() {
    let file = parse("x;").unwrap();
    match only_statement(&file) {
        AstStatement::Expression(AstExpression::Name(name)) => {
            assert_eq!(name.token.kind, identifier("x"))
        }
        other => panic!("not a name: {:?}", other),
    }
}

#[test]
fn declaration_without_type_and_binding_is_fatal() {
    assert_eq!(failure("x:;"), (ParseErrorKind::UnexpectedToken, TokenKind::Semicolon));
}

#[test]
fn declaration_without_type_and_value_is_fatal() {
    assert_eq!(
        failure("x :: ;"),
        (ParseErrorKind::DeclarationWithoutTypeOrValue, identifier("x"))
    );
    assert_eq!(
        failure("x := ;"),
        (ParseErrorKind::DeclarationWithoutTypeOrValue, identifier("x"))
    );
}

#[test]
fn parenthesized_expression() {
    let file = parse("(1 + 2);").unwrap();
    match only_statement(&file) {
        AstStatement::Expression(AstExpression::Binary(binary)) => {
            assert_eq!(binary.operator.kind, TokenKind::Plus);
            assert_eq!(integer(&binary.left), 1);
            assert_eq!(integer(&binary.right), 2);
        }
        other => panic!("not a binary expression: {:?}", other),
    }
}

#[test]
fn parentheses_group() {
    let file = parse("(1 + 2) * 3;").unwrap();
    match only_statement(&file) {
        AstStatement::Expression(AstExpression::Binary(product)) => {
            assert_eq!(product.operator.kind, TokenKind::Asterisk);
            assert!(matches!(product.left, AstExpression::Binary(_)));
            assert_eq!(integer(&product.right), 3);
        }
        other => panic!("not a binary expression: {:?}", other),
    }
}

#[test]
fn procedure_without_arguments_needs_no_semicolon() {
    let file = parse("f :: () {} g;").unwrap();
    let statements = top_level(&file);
    assert_eq!(statements.len(), 2);
    let declaration = declaration(&statements[0]);
    assert!(declaration.constant);
    match declaration.value.as_ref().unwrap() {
        AstExpression::Procedure(procedure) => {
            assert!(procedure.arguments.is_empty());
            assert!(procedure.return_type.is_none());
            assert!(file.scopes[procedure.scope].statements.is_empty());
        }
        other => panic!("not a procedure: {:?}", other),
    }
    assert!(matches!(statements[1], AstStatement::Expression(AstExpression::Name(_))));
}

#[test]
fn procedure_with_one_argument() {
    let file = parse("f :: (x: i32) -> i32 { x; }").unwrap();
    let declaration = declaration(only_statement(&file));
    match declaration.value.as_ref().unwrap() {
        AstExpression::Procedure(procedure) => {
            assert_eq!(procedure.arguments.len(), 1);
            let argument = &procedure.arguments[0];
            assert_eq!(argument.name.kind, identifier("x"));
            assert_eq!(named_type(&argument.type_), Some(identifier("i32")));
            assert!(argument.value.is_none());
            assert!(!argument.constant);
            assert_eq!(named_type(&procedure.return_type), Some(identifier("i32")));
            assert_eq!(file.scopes[procedure.scope].statements.len(), 1);
        }
        other => panic!("not a procedure: {:?}", other),
    }
}

#[test]
fn procedure_as_an_expression_statement() {
    let file = parse("(x: i32) -> i32 { x; };").unwrap();
    assert!(matches!(
        only_statement(&file),
        AstStatement::Expression(AstExpression::Procedure(_))
    ));
}

#[test]
fn procedure_arguments_with_defaults() {
    let file = parse("f :: (a: i32, b: i32 = 2, c := 3) {}").unwrap();
    let declaration = declaration(only_statement(&file));
    match declaration.value.as_ref().unwrap() {
        AstExpression::Procedure(procedure) => {
            assert_eq!(procedure.arguments.len(), 3);
            assert_eq!(procedure.arguments[0].name.kind, identifier("a"));
            assert!(procedure.arguments[0].value.is_none());
            assert_eq!(procedure.arguments[1].name.kind, identifier("b"));
            assert_eq!(named_type(&procedure.arguments[1].type_), Some(identifier("i32")));
            assert_eq!(integer(procedure.arguments[1].value.as_ref().unwrap()), 2);
            assert_eq!(procedure.arguments[2].name.kind, identifier("c"));
            assert!(procedure.arguments[2].type_.is_none());
            assert_eq!(integer(procedure.arguments[2].value.as_ref().unwrap()), 3);
        }
        other => panic!("not a procedure: {:?}", other),
    }
}

#[test]
fn first_argument_with_default() {
    let file = parse("f :: (a := 1) {}").unwrap();
    let declaration = declaration(only_statement(&file));
    match declaration.value.as_ref().unwrap() {
        AstExpression::Procedure(procedure) => {
            assert_eq!(procedure.arguments.len(), 1);
            assert_eq!(integer(procedure.arguments[0].value.as_ref().unwrap()), 1);
        }
        other => panic!("not a procedure: {:?}", other),
    }
}

#[test]
fn precedence_multiplication_binds_tighter() {
    let file = parse("1 + 2 * 3;").unwrap();
    match only_statement(&file) {
        AstStatement::Expression(AstExpression::Binary(outer)) => {
            assert_eq!(outer.operator.kind, TokenKind::Plus);
            assert_eq!(integer(&outer.left), 1);
            match &outer.right {
                AstExpression::Binary(inner) => {
                    assert_eq!(inner.operator.kind, TokenKind::Asterisk);
                    assert_eq!(integer(&inner.left), 2);
                    assert_eq!(integer(&inner.right), 3);
                }
                other => panic!("not a product: {:?}", other),
            }
        }
        other => panic!("not a binary expression: {:?}", other),
    }
}

#[test]
fn subtraction_groups_to_the_left() {
    let file = parse("1 - 2 - 3;").unwrap();
    match only_statement(&file) {
        AstStatement::Expression(AstExpression::Binary(outer)) => {
            assert_eq!(outer.operator.kind, TokenKind::Minus);
            assert_eq!(integer(&outer.right), 3);
            match &outer.left {
                AstExpression::Binary(inner) => {
                    assert_eq!(inner.operator.kind, TokenKind::Minus);
                    assert_eq!(integer(&inner.left), 1);
                    assert_eq!(integer(&inner.right), 2);
                }
                other => panic!("not a difference: {:?}", other),
            }
        }
        other => panic!("not a binary expression: {:?}", other),
    }
}

#[test]
fn product_before_sum_groups_to_the_left() {
    let file = parse("1 * 2 + 3;").unwrap();
    match only_statement(&file) {
        AstStatement::Expression(AstExpression::Binary(outer)) => {
            assert_eq!(outer.operator.kind, TokenKind::Plus);
            assert!(matches!(outer.left, AstExpression::Binary(_)));
            assert_eq!(integer(&outer.right), 3);
        }
        other => panic!("not a binary expression: {:?}", other),
    }
}

#[test]
fn prefix_operator_binds_tightest() {
    let file = parse("-1 + 2;").unwrap();
    match only_statement(&file) {
        AstStatement::Expression(AstExpression::Binary(sum)) => {
            assert_eq!(sum.operator.kind, TokenKind::Plus);
            match &sum.left {
                AstExpression::Unary(unary) => {
                    assert_eq!(unary.operator.kind, TokenKind::Minus);
                    assert_eq!(integer(&unary.operand), 1);
                }
                other => panic!("not a unary expression: {:?}", other),
            }
            assert_eq!(integer(&sum.right), 2);
        }
        other => panic!("not a binary expression: {:?}", other),
    }
}

#[test]
fn prefix_operator_after_infix_operator() {
    let file = parse("1 * -2;").unwrap();
    match only_statement(&file) {
        AstStatement::Expression(AstExpression::Binary(product)) => {
            assert!(matches!(product.right, AstExpression::Unary(_)));
        }
        other => panic!("not a binary expression: {:?}", other),
    }
}

#[test]
fn prefix_operator_cannot_follow_prefix_operator() {
    assert_eq!(failure("- - 1;"), (ParseErrorKind::UnexpectedToken, TokenKind::Minus));
}

#[test]
fn compound_assignment() {
    let file = parse("x += 1 * 2;").unwrap();
    match only_statement(&file) {
        AstStatement::Assignment(assignment) => {
            assert!(matches!(assignment.left, AstExpression::Name(_)));
            assert_eq!(assignment.operator.kind, TokenKind::PlusEquals);
            assert!(matches!(assignment.right, AstExpression::Binary(_)));
            assert_eq!(assignment.parent_data, in_scope(0));
        }
        other => panic!("not an assignment: {:?}", other),
    }
    for operator in ["-=", "*=", "/=", "%="] {
        let file = parse(&format!("x {} 1;", operator)).unwrap();
        assert!(matches!(only_statement(&file), AstStatement::Assignment(_)));
    }
}

#[test]
fn empty_statements_are_skipped() {
    let file = parse(";;; x; ;; y;").unwrap();
    assert_eq!(top_level(&file).len(), 2);
}

#[test]
fn trailing_empty_statement_is_fatal() {
    assert_eq!(failure("x;;"), (ParseErrorKind::UnexpectedToken, TokenKind::EndOfFile));
}

#[test]
fn empty_file() {
    let file = parse("  \n").unwrap();
    assert!(top_level(&file).is_empty());
    assert_eq!(file.scopes.len(), 1);
    assert_eq!(file.scope, 0);
    assert_eq!(file.parent_data, ParentData { file: None, scope: None });
    assert_eq!(file.scopes[0].parent_data, ParentData { file: Some(0), scope: None });
}

#[test]
fn file_keeps_path_and_source() {
    let file = parse("x;").unwrap();
    assert_eq!(file.file_path, "test.lang");
    assert_eq!(file.source, "x;");
}

#[test]
fn statements_keep_source_order() {
    let file = parse("a; b; c;").unwrap();
    let names: Vec<TokenKind> = top_level(&file)
        .iter()
        .map(|statement| match statement {
            AstStatement::Expression(AstExpression::Name(name)) => name.token.kind.clone(),
            other => panic!("not a name: {:?}", other),
        })
        .collect();
    assert_eq!(names, vec![identifier("a"), identifier("b"), identifier("c")]);
}

#[test]
fn top_level_statements_record_the_top_level_scope() {
    let file = parse("x; y: i32 = ;").unwrap();
    match &top_level(&file)[0] {
        AstStatement::Expression(AstExpression::Name(name)) => {
            assert_eq!(name.parent_data, in_scope(0))
        }
        other => panic!("not a name: {:?}", other),
    }
    let declaration = declaration(&top_level(&file)[1]);
    assert_eq!(declaration.parent_data, in_scope(0));
    match &declaration.type_ {
        Some(AstType::Name(name)) => assert_eq!(name.parent_data, in_scope(0)),
        None => panic!("the type is present"),
    }
}

#[test]
fn nested_scope_back_references() {
    let file = parse("{ x; { y; } } z;").unwrap();
    assert_eq!(file.scopes.len(), 3);
    assert_eq!(top_level(&file).len(), 2);
    let outer = match &top_level(&file)[0] {
        AstStatement::Scope(id) => *id,
        other => panic!("not a scope: {:?}", other),
    };
    assert_eq!(file.scopes[outer].parent_data, in_scope(0));
    assert_eq!(file.scopes[outer].statements.len(), 2);
    match &file.scopes[outer].statements[0] {
        AstStatement::Expression(AstExpression::Name(name)) => {
            assert_eq!(name.token.kind, identifier("x"));
            assert_eq!(name.parent_data, in_scope(outer));
        }
        other => panic!("not a name: {:?}", other),
    }
    let inner = match &file.scopes[outer].statements[1] {
        AstStatement::Scope(id) => *id,
        other => panic!("not a scope: {:?}", other),
    };
    assert_ne!(inner, outer);
    assert_eq!(file.scopes[inner].parent_data, in_scope(outer));
    match &file.scopes[inner].statements[0] {
        AstStatement::Expression(AstExpression::Name(name)) => {
            assert_eq!(name.token.kind, identifier("y"));
            assert_eq!(name.parent_data, in_scope(inner));
        }
        other => panic!("not a name: {:?}", other),
    }
    match &top_level(&file)[1] {
        AstStatement::Expression(AstExpression::Name(name)) => {
            assert_eq!(name.parent_data, in_scope(0))
        }
        other => panic!("not a name: {:?}", other),
    }
}

#[test]
fn back_references_lead_outward() {
    let file = parse("{ { y; } }").unwrap();
    let inner = &file.scopes[2];
    let name = match &inner.statements[0] {
        AstStatement::Expression(AstExpression::Name(name)) => name,
        other => panic!("not a name: {:?}", other),
    };
    let around_name = file.enclosing_scope(name.parent_data).unwrap();
    assert!(std::ptr::eq(around_name, inner));
    let around_inner = file.enclosing_scope(inner.parent_data).unwrap();
    assert!(std::ptr::eq(around_inner, &file.scopes[1]));
    let around_outer = file.enclosing_scope(around_inner.parent_data).unwrap();
    assert!(std::ptr::eq(around_outer, &file.scopes[0]));
    assert!(file.enclosing_scope(around_outer.parent_data).is_none());
    assert!(file.enclosing_scope(ParentData { file: Some(0), scope: Some(3) }).is_none());
}

#[test]
fn procedure_back_references() {
    let file = parse("{ f :: (a: i32 = 1) -> r { a; } }").unwrap();
    let outer = match only_statement(&file) {
        AstStatement::Scope(id) => *id,
        other => panic!("not a scope: {:?}", other),
    };
    let declaration = declaration(&file.scopes[outer].statements[0]);
    match declaration.value.as_ref().unwrap() {
        AstExpression::Procedure(procedure) => {
            assert_eq!(procedure.parent_data, in_scope(outer));
            assert_eq!(procedure.arguments[0].parent_data, in_scope(outer));
            match procedure.arguments[0].value.as_ref().unwrap() {
                AstExpression::Literal(literal) => {
                    assert_eq!(literal.parent_data, in_scope(outer))
                }
                other => panic!("not a literal: {:?}", other),
            }
            let body = procedure.scope;
            assert_eq!(file.scopes[body].parent_data, in_scope(outer));
            match &file.scopes[body].statements[0] {
                AstStatement::Expression(AstExpression::Name(name)) => {
                    assert_eq!(name.parent_data, in_scope(body))
                }
                other => panic!("not a name: {:?}", other),
            }
        }
        other => panic!("not a procedure: {:?}", other),
    }
}

#[test]
fn unmatched_brace_is_an_error() {
    assert_eq!(failure("{ x;"), (ParseErrorKind::UnexpectedToken, TokenKind::EndOfFile));
    assert_eq!(failure("x; }"), (ParseErrorKind::UnexpectedToken, TokenKind::RBrace));
}

#[test]
fn procedure_needs_a_body() {
    assert_eq!(failure("f :: ();"), (ParseErrorKind::ExpectedLBrace, TokenKind::Semicolon));
}

#[test]
fn only_a_name_can_be_declared() {
    assert_eq!(failure("1: i32 = 2;"), (ParseErrorKind::ExpectedName, TokenKind::Colon));
    assert_eq!(failure("(1: i32) {}"), (ParseErrorKind::ExpectedName, TokenKind::Colon));
    assert_eq!(
        failure("(a: i32, 1: i32) {}"),
        (ParseErrorKind::ExpectedName, TokenKind::Integer(1))
    );
}

#[test]
fn declaration_needs_a_binding() {
    assert_eq!(
        failure("x: i32 i32;"),
        (ParseErrorKind::ExpectedColonOrEquals, TokenKind::Identifier(String::from("i32")))
    );
    assert_eq!(
        failure("x: i32;"),
        (ParseErrorKind::ExpectedColonOrEquals, TokenKind::Semicolon)
    );
}

#[test]
fn constant_declaration_with_type_only() {
    let file = parse("x: i32 : ;").unwrap();
    let declaration = declaration(only_statement(&file));
    assert!(declaration.constant);
    assert_eq!(named_type(&declaration.type_), Some(identifier("i32")));
    assert!(declaration.value.is_none());
}

#[test]
fn statement_needs_a_semicolon() {
    assert_eq!(failure("x y"), (ParseErrorKind::ExpectedSemicolon, identifier("y")));
    assert_eq!(failure("x = 1;"), (ParseErrorKind::ExpectedSemicolon, TokenKind::Equals));
    assert_eq!(failure("x += 1"), (ParseErrorKind::ExpectedSemicolon, TokenKind::EndOfFile));
    assert_eq!(failure("x := 1"), (ParseErrorKind::ExpectedSemicolon, TokenKind::EndOfFile));
}

#[test]
fn argument_value_needs_equals() {
    assert_eq!(failure("(a: i32 b) {}"), (ParseErrorKind::ExpectedEquals, identifier("b")));
}

#[test]
fn argument_needs_a_colon() {
    assert_eq!(failure("(a: i32, b) {}"), (ParseErrorKind::ExpectedColon, TokenKind::RParen));
}

#[test]
fn parenthesis_must_close() {
    assert_eq!(failure("(1 2);"), (ParseErrorKind::ExpectedRParen, TokenKind::Integer(2)));
    assert_eq!(
        failure("(a: i32 = 1 2) {}"),
        (ParseErrorKind::ExpectedRParen, TokenKind::Integer(2))
    );
}

#[test]
fn type_must_be_a_name() {
    assert_eq!(failure("x: 1 = 2;"), (ParseErrorKind::UnexpectedToken, TokenKind::Integer(1)));
    assert_eq!(
        failure("f :: () -> 1 {}"),
        (ParseErrorKind::UnexpectedToken, TokenKind::Integer(1))
    );
}

#[test]
fn lexical_error_stops_the_parse() {
    assert_eq!(
        failure("x = 0xG;"),
        (ParseErrorKind::ExpectedSemicolon, TokenKind::Equals)
    );
    assert_eq!(
        failure("x += 0xG;"),
        (
            ParseErrorKind::UnexpectedToken,
            TokenKind::Error(String::from("Digit greater than base"))
        )
    );
    assert_eq!(
        failure("@"),
        (ParseErrorKind::UnexpectedToken, TokenKind::Error(String::from("Unknown character")))
    );
}

#[test]
fn error_carries_the_position_of_the_token() {
    let error = parse("x;\n  y z;").unwrap_err();
    assert_eq!(error.kind, ParseErrorKind::ExpectedSemicolon);
    assert_eq!(error.token.position, 7);
    assert_eq!(error.token.line, 2);
    assert_eq!(error.token.column, 5);
}

#[test]
fn error_messages() {
    assert_eq!(parse("x y").unwrap_err().message(), "Expected ';' got Identifier");
    assert_eq!(parse("f :: ();").unwrap_err().message(), "Expected '{' got Semicolon");
    assert_eq!(parse("1: i32;").unwrap_err().message(), "Expected name got Colon");
    assert_eq!(parse("x: i32 1;").unwrap_err().message(), "Expected ':' or '=' got Integer");
    assert_eq!(parse("(a: b c) {}").unwrap_err().message(), "Expected '=' got Identifier");
    assert_eq!(parse("(a: b, c) {}").unwrap_err().message(), "Expected ':' got RParen");
    assert_eq!(parse("(1 2)").unwrap_err().message(), "Expected ')' got Integer");
    assert_eq!(parse("}").unwrap_err().message(), "Unexpected token RBrace");
    assert_eq!(
        parse("x :: ;").unwrap_err().message(),
        "Cannot have a declaration with neither type nor value: Identifier"
    );
}

#[test]
fn parsing_again_gives_an_empty_file() {
    let mut parser = Parser::new("test.lang", String::from("x;"));
    assert!(parser.parse().is_ok());
    match parser.parse() {
        Ok(Ast::File(file)) => assert!(top_level(&file).is_empty()),
        other => panic!("not a file: {:?}", other),
    }
}

fn type_tokens(type_: &Option<AstType>, found: &mut Vec<Token>) {
    if let Some(AstType::Name(name)) = type_ {
        found.push(name.name.clone());
    }
}

fn declaration_tokens(file: &AstFile, declaration: &AstDeclaration, found: &mut Vec<Token>) {
    found.push(declaration.name.clone());
    type_tokens(&declaration.type_, found);
    if let Some(value) = &declaration.value {
        expression_tokens(file, value, found);
    }
}

fn expression_tokens(file: &AstFile, expression: &AstExpression, found: &mut Vec<Token>) {
    match expression {
        AstExpression::Procedure(procedure) => {
            for argument in &procedure.arguments {
                declaration_tokens(file, argument, found);
            }
            type_tokens(&procedure.return_type, found);
            scope_tokens(file, procedure.scope, found);
        }
        AstExpression::Name(name) => found.push(name.token.clone()),
        AstExpression::Literal(literal) => found.push(literal.token.clone()),
        AstExpression::Unary(unary) => {
            found.push(unary.operator.clone());
            expression_tokens(file, &unary.operand, found);
        }
        AstExpression::Binary(binary) => {
            expression_tokens(file, &binary.left, found);
            found.push(binary.operator.clone());
            expression_tokens(file, &binary.right, found);
        }
    }
}

fn scope_tokens(file: &AstFile, scope: usize, found: &mut Vec<Token>) {
    for statement in &file.scopes[scope].statements {
        match statement {
            AstStatement::Expression(expression) => expression_tokens(file, expression, found),
            AstStatement::Scope(nested) => scope_tokens(file, *nested, found),
            AstStatement::Declaration(declaration) => {
                declaration_tokens(file, declaration, found)
            }
            AstStatement::Assignment(assignment) => {
                expression_tokens(file, &assignment.left, found);
                found.push(assignment.operator.clone());
                expression_tokens(file, &assignment.right, found);
            }
        }
    }
}

#[test]
fn tree_holds_the_names_literals_and_operators_of_the_text() {
    let source = "total: i32 = 0;\n\
                  add :: (a: i32, b: i32 = 2 * 3) -> i32 {\n\
                      { total += a + -b; }\n\
                      f := () { (a); };\n\
                      1.5 - a % 0x10;\n\
                  }\n\
                  add;";
    let file = parse(source).unwrap();
    let mut in_tree = Vec::new();
    scope_tokens(&file, file.scope, &mut in_tree);

    let mut in_text = Vec::new();
    let mut lexer = Lexer::new(String::from(source));
    loop {
        let token = lexer.next_token();
        match token.kind {
            TokenKind::EndOfFile => break,
            TokenKind::Identifier(_)
            | TokenKind::Integer(_)
            | TokenKind::Float(_)
            | TokenKind::Plus
            | TokenKind::Minus
            | TokenKind::Asterisk
            | TokenKind::Slash
            | TokenKind::Percent
            | TokenKind::PlusEquals
            | TokenKind::MinusEquals
            | TokenKind::AsteriskEquals
            | TokenKind::SlashEquals
            | TokenKind::PercentEquals => in_text.push(token),
            _ => {}
        }
    }
    assert_eq!(in_tree.len(), 26);
    assert_eq!(in_tree, in_text);
}
