use frontend::lexer::Lexer;
use frontend::token::{FloatLiteral, Token, TokenKind};

fn lex_all(source: &str) -> Vec<Token> {
    let mut lexer = Lexer::new(String::from(source));
    let mut tokens = Vec::new();
    loop {
        let token = lexer.next_token();
        let done = token.kind == TokenKind::EndOfFile;
        tokens.push(token);
        if done {
            break;
        }
    }
    tokens
}

fn kinds(source: &str) -> Vec<TokenKind> {
    lex_all(source).into_iter().map(|token| token.kind).collect()
}

fn first(source: &str) -> Token {
    Lexer::new(String::from(source)).next_token()
}

fn identifier(text: &str) -> TokenKind {
    TokenKind::Identifier(String::from(text))
}

fn error(message: &str) -> TokenKind {
    TokenKind::Error(String::from(message))
}

fn float(whole: u64, fraction: &[u8]) -> TokenKind {
    TokenKind::Float(FloatLiteral { whole, fraction: fraction.to_vec() })
}

fn float_value(kind: &TokenKind) -> f64 {
    match kind {
        TokenKind::Float(literal) => {
            let mut value = literal.whole as f64;
            let mut denominator = 1.0;
            for digit in &literal.fraction {
                denominator *= 10.0;
                value += *digit as f64 / denominator;
            }
            value
        }
        _ => panic!("not a float: {:?}", kind),
    }
}

#[test]
fn hexadecimal_literal() {
    assert_eq!(kinds("0x1F"), vec![TokenKind::Integer(31), TokenKind::EndOfFile]);
}

#[test]
fn hexadecimal_literal_in_either_case() {
    assert_eq!(kinds("0XfF"), vec![TokenKind::Integer(255), TokenKind::EndOfFile]);
}

#[test]
fn binary_literal() {
    assert_eq!(kinds("0b101"), vec![TokenKind::Integer(5), TokenKind::EndOfFile]);
    assert_eq!(kinds("0B11"), vec![TokenKind::Integer(3), TokenKind::EndOfFile]);
}

#[test]
fn decimal_literal() {
    assert_eq!(kinds("42"), vec![TokenKind::Integer(42), TokenKind::EndOfFile]);
    assert_eq!(kinds("0"), vec![TokenKind::Integer(0), TokenKind::EndOfFile]);
    assert_eq!(kinds("007"), vec![TokenKind::Integer(7), TokenKind::EndOfFile]);
}

#[test]
fn base_selector_without_digits_is_zero() {
    assert_eq!(kinds("0x"), vec![TokenKind::Integer(0), TokenKind::EndOfFile]);
}

#[test]
fn float_literal_keeps_its_digits() {
    assert_eq!(kinds("3.14"), vec![float(3, &[1, 4]), TokenKind::EndOfFile]);
    assert_eq!(kinds("3."), vec![float(3, &[]), TokenKind::EndOfFile]);
    assert_eq!(kinds("0.05"), vec![float(0, &[0, 5]), TokenKind::EndOfFile]);
}

#[test]
fn float_literal_value_within_tolerance() {
    let token = first("3.14");
    assert!((float_value(&token.kind) - 3.14).abs() < 1e-12);
    assert_eq!(token.length, 4);
}

#[test]
fn underscore_is_ignored_in_literals() {
    assert_eq!(kinds("2_000"), vec![TokenKind::Integer(2000), TokenKind::EndOfFile]);
    assert_eq!(kinds("1_0.0_5"), vec![float(10, &[0, 5]), TokenKind::EndOfFile]);
    assert_eq!(first("2_000").length, 5);
}

#[test]
fn digit_greater_than_base_points_at_the_digit() {
    let token = first("0xG");
    assert_eq!(token.kind, error("Digit greater than base"));
    assert_eq!(token.position, 2);
    assert_eq!(token.column, 3);
    assert_eq!(token.length, 1);
    assert_eq!(first("0b2").kind, error("Digit greater than base"));
    assert_eq!(first("12a").kind, error("Digit greater than base"));
    assert_eq!(first("12a").position, 2);
    assert_eq!(first("1.5e3").kind, error("Digit greater than base"));
    assert_eq!(first("1.5e3").position, 3);
}

#[test]
fn letters_are_digits_from_ten_on() {
    assert_eq!(kinds("0xa"), vec![TokenKind::Integer(10), TokenKind::EndOfFile]);
    assert_eq!(kinds("0xF"), vec![TokenKind::Integer(15), TokenKind::EndOfFile]);
}

#[test]
fn second_dot_is_an_error() {
    let token = first("1.2.3");
    assert_eq!(token.kind, error("Cannot have multiple '.' in float literal"));
    assert_eq!(token.position, 3);
    assert_eq!(token.length, 1);
}

#[test]
fn float_must_be_decimal() {
    let token = first("0b1.1");
    assert_eq!(token.kind, error("Float literal must be base 10"));
    assert_eq!(token.position, 3);
    assert_eq!(token.length, 1);
}

#[test]
fn literal_wraps_at_64_bits() {
    assert_eq!(
        kinds("18446744073709551615"),
        vec![TokenKind::Integer(u64::MAX), TokenKind::EndOfFile]
    );
    assert_eq!(
        kinds("18446744073709551617"),
        vec![TokenKind::Integer(1), TokenKind::EndOfFile]
    );
}

#[test]
fn minus_forms() {
    assert_eq!(kinds("-"), vec![TokenKind::Minus, TokenKind::EndOfFile]);
    assert_eq!(kinds("-="), vec![TokenKind::MinusEquals, TokenKind::EndOfFile]);
    assert_eq!(kinds("->"), vec![TokenKind::RightArrow, TokenKind::EndOfFile]);
    assert_eq!(kinds("-+"), vec![TokenKind::Minus, TokenKind::Plus, TokenKind::EndOfFile]);
    assert_eq!(kinds("--"), vec![TokenKind::Minus, TokenKind::Minus, TokenKind::EndOfFile]);
    assert_eq!(kinds("-<").len(), 3);
    assert_eq!(kinds("-<")[0], TokenKind::Minus);
}

#[test]
fn punctuation_and_operators() {
    assert_eq!(
        kinds(": ; ( ) { } , + * / % = !"),
        vec![
            TokenKind::Colon,
            TokenKind::Semicolon,
            TokenKind::LParen,
            TokenKind::RParen,
            TokenKind::LBrace,
            TokenKind::RBrace,
            TokenKind::Comma,
            TokenKind::Plus,
            TokenKind::Asterisk,
            TokenKind::Slash,
            TokenKind::Percent,
            TokenKind::Equals,
            TokenKind::ExclamationMark,
            TokenKind::EndOfFile
        ]
    );
    assert_eq!(
        kinds("+= *= /= %= == !="),
        vec![
            TokenKind::PlusEquals,
            TokenKind::AsteriskEquals,
            TokenKind::SlashEquals,
            TokenKind::PercentEquals,
            TokenKind::EqualsEquals,
            TokenKind::ExclamationMarkEquals,
            TokenKind::EndOfFile
        ]
    );
}

#[test]
fn longest_operator_wins() {
    assert_eq!(
        kinds("==="),
        vec![TokenKind::EqualsEquals, TokenKind::Equals, TokenKind::EndOfFile]
    );
    assert_eq!(kinds("::"), vec![TokenKind::Colon, TokenKind::Colon, TokenKind::EndOfFile]);
    assert_eq!(kinds(":="), vec![TokenKind::Colon, TokenKind::Equals, TokenKind::EndOfFile]);
}

#[test]
fn identifiers() {
    assert_eq!(
        kinds("foo _bar b4z_"),
        vec![identifier("foo"), identifier("_bar"), identifier("b4z_"), TokenKind::EndOfFile]
    );
    assert_eq!(first("  name").position, 2);
    assert_eq!(first("  name").length, 4);
}

#[test]
fn unknown_character_moves_on() {
    let tokens = lex_all("@x");
    assert_eq!(tokens[0].kind, error("Unknown character"));
    assert_eq!(tokens[0].position, 0);
    assert_eq!(tokens[0].length, 1);
    assert_eq!(tokens[1].kind, identifier("x"));
    assert_eq!(tokens[1].position, 1);
}

#[test]
fn nul_character_is_unknown() {
    let tokens = lex_all("a\0b");
    assert_eq!(
        tokens.iter().map(|token| token.kind.clone()).collect::<Vec<_>>(),
        vec![identifier("a"), error("Unknown character"), identifier("b"), TokenKind::EndOfFile]
    );
}

#[test]
fn non_ascii_letter_is_unknown() {
    assert_eq!(first("é").kind, error("Unknown character"));
    assert_eq!(first("é").length, 1);
}

#[test]
fn end_of_file_repeats() {
    let mut lexer = Lexer::new(String::from("x  "));
    assert_eq!(lexer.next_token().kind, identifier("x"));
    let end = lexer.next_token();
    assert_eq!(end.kind, TokenKind::EndOfFile);
    assert_eq!(end.position, 3);
    assert_eq!(end.length, 0);
    assert_eq!(lexer.next_token(), end);
    assert_eq!(lexer.next_token(), end);
}

#[test]
fn empty_text_is_end_of_file() {
    let token = first("");
    assert_eq!(token, Token::new(TokenKind::EndOfFile, 0, 1, 1, 0));
}

#[test]
fn whitespace_is_skipped() {
    assert_eq!(
        kinds(" \t\r\n a \n\n b "),
        vec![identifier("a"), identifier("b"), TokenKind::EndOfFile]
    );
}

#[test]
fn tokens_carry_line_and_column_of_their_first_character() {
    let tokens = lex_all("ab cd\n  ef\n\ngh");
    assert_eq!(tokens[0], Token::new(identifier("ab"), 0, 1, 1, 2));
    assert_eq!(tokens[1], Token::new(identifier("cd"), 3, 1, 4, 2));
    assert_eq!(tokens[2], Token::new(identifier("ef"), 8, 2, 3, 2));
    assert_eq!(tokens[3], Token::new(identifier("gh"), 12, 4, 1, 2));
    assert_eq!(tokens[4], Token::new(TokenKind::EndOfFile, 14, 4, 3, 0));
}

#[test]
fn position_counts_characters_not_bytes() {
    let tokens = lex_all("é x");
    assert_eq!(tokens[1], Token::new(identifier("x"), 2, 1, 3, 1));
}

#[test]
fn cursor_stands_after_each_token() {
    let tokens = lex_all("x+=12 ->y");
    assert_eq!(tokens[0], Token::new(identifier("x"), 0, 1, 1, 1));
    assert_eq!(tokens[1], Token::new(TokenKind::PlusEquals, 1, 1, 2, 2));
    assert_eq!(tokens[2], Token::new(TokenKind::Integer(12), 3, 1, 4, 2));
    assert_eq!(tokens[3], Token::new(TokenKind::RightArrow, 6, 1, 7, 2));
    assert_eq!(tokens[4], Token::new(identifier("y"), 8, 1, 9, 1));
}

#[test]
fn lexing_goes_on_after_an_error_in_a_literal() {
    let tokens = lex_all("0xG1 z");
    assert_eq!(tokens[0].kind, error("Digit greater than base"));
    assert_eq!(tokens[1], Token::new(TokenKind::Integer(1), 3, 1, 4, 1));
    assert_eq!(tokens[2].kind, identifier("z"));
}

#[test]
fn spelled_tokens_are_read_back() {
    let spelled = "x : i32 = 0 ; y : = 3.50 ; f : : ( a , b ) -> r { a += - b * 2 / 1 % 7 ; } \
                   ! == != -= *= /= %=";
    assert_eq!(
        kinds(spelled),
        vec![
            identifier("x"),
            TokenKind::Colon,
            identifier("i32"),
            TokenKind::Equals,
            TokenKind::Integer(0),
            TokenKind::Semicolon,
            identifier("y"),
            TokenKind::Colon,
            TokenKind::Equals,
            float(3, &[5, 0]),
            TokenKind::Semicolon,
            identifier("f"),
            TokenKind::Colon,
            TokenKind::Colon,
            TokenKind::LParen,
            identifier("a"),
            TokenKind::Comma,
            identifier("b"),
            TokenKind::RParen,
            TokenKind::RightArrow,
            identifier("r"),
            TokenKind::LBrace,
            identifier("a"),
            TokenKind::PlusEquals,
            TokenKind::Minus,
            identifier("b"),
            TokenKind::Asterisk,
            TokenKind::Integer(2),
            TokenKind::Slash,
            TokenKind::Integer(1),
            TokenKind::Percent,
            TokenKind::Integer(7),
            TokenKind::Semicolon,
            TokenKind::RBrace,
            TokenKind::ExclamationMark,
            TokenKind::EqualsEquals,
            TokenKind::ExclamationMarkEquals,
            TokenKind::MinusEquals,
            TokenKind::AsteriskEquals,
            TokenKind::SlashEquals,
            TokenKind::PercentEquals,
            TokenKind::EndOfFile
        ]
    );
}

#[test]
fn kind_names() {
    assert_eq!(TokenKind::EndOfFile.name(), "EndOfFile");
    assert_eq!(identifier("x").name(), "Identifier");
    assert_eq!(float(1, &[]).name(), "Float");
    assert_eq!(TokenKind::ExclamationMarkEquals.name(), "ExclamationMarkEquals");
}
