//! The lexer: turns a text into tokens, one per call.

use crate::lexical::{
    char_at, column_at, digit_value, digits_value, error_at, first_bad_digit, fraction_digits,
    is_digit, is_letter, is_whitespace, is_word_char, lemma_first_bad_digit,
    lemma_line_column_bounds, lemma_skip_whitespace, lemma_word_end, line_at, literal_base,
    literal_digits_start, number_token, skip_whitespace, token_at, word_end, wrap64,
};
use crate::token::{FloatLiteral, Token, TokenKind};
use vstd::arithmetic::div_mod::{lemma_add_mod_noop, lemma_mul_mod_noop_left};
use vstd::prelude::*;
use vstd::string::StringExecFns;

verus! {

/// `String::push` of the standard library: appends the character to the end
/// of the string and changes nothing else of it.
pub assume_specification[ String::push ](s: &mut String, c: char)
    ensures
        final(s)@ == old(s)@.push(c),
;

fn whitespace(c: char) -> (b: bool)
    ensures
        b == is_whitespace(c),
{
    c == ' ' || c == '\n' || c == '\r' || c == '\t'
}

fn letter(c: char) -> (b: bool)
    ensures
        b == is_letter(c),
{
    (c >= 'A' && c <= 'Z') || (c >= 'a' && c <= 'z')
}

fn digit(c: char) -> (b: bool)
    ensures
        b == is_digit(c),
{
    c >= '0' && c <= '9'
}

fn word_char(c: char) -> (b: bool)
    ensures
        b == is_word_char(c),
{
    letter(c) || digit(c) || c == '_'
}

/// The value of a digit or letter as a digit symbol of base 36.
fn char_to_int(c: char) -> (value: u64)
    requires
        is_letter(c) || is_digit(c),
    ensures
        value == digit_value(c),
        value < 36,
{
    if c >= '0' && c <= '9' {
        (c as u32 - '0' as u32) as u64
    } else if c >= 'A' && c <= 'Z' {
        (c as u32 - 'A' as u32) as u64 + 10
    } else {
        (c as u32 - 'a' as u32) as u64 + 10
    }
}

/// Appends one digit to a value in 64-bit wrapping arithmetic.
fn append_digit(value: u64, base: u64, d: u64) -> (next: u64)
    ensures
        next == wrap64(value as int * base as int + d as int),
{
    value.wrapping_mul(base).wrapping_add(d)
}

/// One more digit in 64-bit wrapping arithmetic is one more digit of the
/// unbounded value, wrapped.
proof fn lemma_wrap_step(value: int, base: int, add: int)
    ensures
        wrap64(wrap64(value) * base + add) == wrap64(value * base + add),
{
    let m = 0x1_0000_0000_0000_0000int;
    lemma_mul_mod_noop_left(value, base, m);
    lemma_add_mod_noop(value * base, add, m);
    lemma_add_mod_noop((value % m) * base, add, m);
}

/// A lexer for one text. Between calls it keeps only where it stands in
/// the text: position, line and column.
pub struct Lexer {
    /// The characters of the text, followed by one NUL that marks its end.
    source: Vec<char>,
    position: usize,
    line: usize,
    column: usize,
}

impl Lexer {
    /// The text that is being read.
    pub closed spec fn text(&self) -> Seq<char> {
        self.source@.drop_last()
    }

    /// The position of the next character to read.
    pub closed spec fn cursor(&self) -> int {
        self.position as int
    }

    /// The cursor lies in the text or at its end, and line and column are
    /// those of the cursor.
    pub closed spec fn wf(&self) -> bool {
        &&& self.source@.len() >= 1
        &&& self.source@.last() == '\0'
        &&& self.position < self.source@.len()
        &&& self.line == line_at(self.text(), self.position as int)
        &&& self.column == column_at(self.text(), self.position as int)
    }

    /// The cursor of a sound lexer lies in its text or at its end.
    pub proof fn lemma_cursor_in_text(&self)
        requires
            self.wf(),
        ensures
            0 <= self.cursor() <= self.text().len(),
    {
    }

    /// A lexer at the start of the text `source`.
    pub fn new(source: String) -> (lexer: Lexer)
        ensures
            lexer.wf(),
            lexer.text() == source@,
            lexer.cursor() == 0,
    {
        let mut chars: Vec<char> = Vec::new();
        for c in it: source.as_str().chars()
            invariant
                chars@ == it.seq().take(it.index()),
        {
            chars.push(c);
        }
        chars.push('\0');
        assert(chars@.drop_last() == source@);
        Lexer { source: chars, position: 0, line: 1, column: 1 }
    }

    /// The character under the cursor; NUL at the end of the text.
    fn current(&self) -> (c: char)
        requires
            self.wf(),
        ensures
            c == char_at(self.text(), self.cursor()),
    {
        self.source[self.position]
    }

    fn at_end(&self) -> (b: bool)
        requires
            self.wf(),
        ensures
            b == (self.cursor() == self.text().len()),
    {
        let length = self.source.len();
        self.position + 1 == length
    }

    /// Returns the character under the cursor and moves the cursor past it.
    fn next_char(&mut self) -> (c: char)
        requires
            old(self).wf(),
            old(self).cursor() < old(self).text().len(),
        ensures
            final(self).wf(),
            final(self).text() == old(self).text(),
            final(self).cursor() == old(self).cursor() + 1,
            c == old(self).text()[old(self).cursor()],
    {
        let c = self.source[self.position];
        proof {
            lemma_line_column_bounds(self.text(), self.position as int);
            assert(self.source.len() <= usize::MAX);
        }
        self.position = self.position + 1;
        if c == '\n' {
            self.line = self.line + 1;
            self.column = 1;
        } else {
            self.column = self.column + 1;
        }
        c
    }

    /// The error token that points at the character under the cursor; the
    /// cursor moves past that character.
    fn error_here(&mut self, message: &str) -> (token: Token)
        requires
            old(self).wf(),
            old(self).cursor() < old(self).text().len(),
        ensures
            final(self).wf(),
            final(self).text() == old(self).text(),
            final(self).cursor() == old(self).cursor() + 1,
            token@ == error_at(old(self).text(), message@, old(self).cursor()),
    {
        let token = Token::new(
            TokenKind::Error(String::from_str(message)),
            self.position,
            self.line,
            self.column,
            1,
        );
        self.next_char();
        token
    }

    /// Reads the digits of a literal's whole part up to the end of the run of
    /// word characters. `None` where a symbol is no digit of the base; the
    /// cursor then stands at that symbol.
    fn scan_digits(&mut self, base: u64) -> (value: Option<u64>)
        requires
            old(self).wf(),
            base == 2 || base == 10 || base == 16,
        ensures
            final(self).wf(),
            final(self).text() == old(self).text(),
            ({
                let s = old(self).text();
                let from = old(self).cursor();
                let end = word_end(s, from);
                let bad = first_bad_digit(s, from, end, base as int);
                match value {
                    Some(v) => bad == end && final(self).cursor() == end && v == wrap64(
                        digits_value(s, from, end, base as int),
                    ),
                    None => bad < end && final(self).cursor() == bad,
                }
            }),
    {
        let ghost s = self.text();
        let ghost from = self.cursor();
        let ghost end = word_end(s, from);
        let mut value: u64 = 0;
        proof {
            lemma_word_end(s, from);
        }
        loop
            invariant
                self.wf(),
                self.text() == s,
                s == old(self).text(),
                from == old(self).cursor(),
                end == word_end(s, from),
                0 <= from <= self.cursor() <= end <= s.len(),
                word_end(s, self.cursor()) == end,
                first_bad_digit(s, self.cursor(), end, base as int) == first_bad_digit(
                    s,
                    from,
                    end,
                    base as int,
                ),
                value == wrap64(digits_value(s, from, self.cursor(), base as int)),
                base == 2 || base == 10 || base == 16,
            decreases s.len() - self.cursor(),
        {
            let c = self.current();
            if !word_char(c) {
                return Some(value);
            }
            if c != '_' {
                let d = char_to_int(c);
                if d >= base {
                    proof {
                        lemma_word_end(s, self.cursor() + 1);
                        assert(first_bad_digit(s, self.cursor(), end, base as int)
                            == self.cursor());
                    }
                    return None;
                }
                proof {
                    lemma_wrap_step(
                        digits_value(s, from, self.cursor(), base as int),
                        base as int,
                        d as int,
                    );
                }
                value = append_digit(value, base, d);
            }
            self.next_char();
            proof {
                lemma_word_end(s, self.cursor());
            }
        }
    }

    /// Reads the digits after the `.` of a literal up to the end of the run
    /// of word characters. `None` where a symbol is no decimal digit; the
    /// cursor then stands at that symbol.
    fn scan_fraction(&mut self) -> (digits: Option<Vec<u8>>)
        requires
            old(self).wf(),
        ensures
            final(self).wf(),
            final(self).text() == old(self).text(),
            ({
                let s = old(self).text();
                let from = old(self).cursor();
                let end = word_end(s, from);
                let bad = first_bad_digit(s, from, end, 10);
                match digits {
                    Some(d) => bad == end && final(self).cursor() == end && d@ == fraction_digits(
                        s,
                        from,
                        end,
                    ),
                    None => bad < end && final(self).cursor() == bad,
                }
            }),
    {
        let ghost s = self.text();
        let ghost from = self.cursor();
        let ghost end = word_end(s, from);
        let mut digits: Vec<u8> = Vec::new();
        proof {
            lemma_word_end(s, from);
        }
        loop
            invariant
                self.wf(),
                self.text() == s,
                s == old(self).text(),
                from == old(self).cursor(),
                end == word_end(s, from),
                0 <= from <= self.cursor() <= end <= s.len(),
                word_end(s, self.cursor()) == end,
                first_bad_digit(s, self.cursor(), end, 10) == first_bad_digit(s, from, end, 10),
                digits@ == fraction_digits(s, from, self.cursor()),
            decreases s.len() - self.cursor(),
        {
            let c = self.current();
            if !word_char(c) {
                return Some(digits);
            }
            if c != '_' {
                let d = char_to_int(c);
                if d >= 10 {
                    proof {
                        lemma_word_end(s, self.cursor() + 1);
                        assert(first_bad_digit(s, self.cursor(), end, 10) == self.cursor());
                    }
                    return None;
                }
                digits.push(d as u8);
            }
            self.next_char();
            proof {
                lemma_word_end(s, self.cursor());
            }
        }
    }

    /// Reads the numeric literal whose first digit is under the cursor.
    fn scan_number(&mut self) -> (token: Token)
        requires
            old(self).wf(),
            is_digit(char_at(old(self).text(), old(self).cursor())),
        ensures
            final(self).wf(),
            final(self).text() == old(self).text(),
            token@ == number_token(old(self).text(), old(self).cursor()),
            final(self).cursor() == token@.end(),
    {
        let ghost s = self.text();
        let start = self.position;
        let line = self.line;
        let column = self.column;
        if self.current() == '0' {
            self.next_char();
        }
        let selector = self.current();
        let base: u64 = if selector == 'x' || selector == 'X' {
            self.next_char();
            16
        } else if selector == 'b' || selector == 'B' {
            self.next_char();
            2
        } else {
            10
        };
        assert(base == literal_base(s, start as int));
        assert(self.cursor() == literal_digits_start(s, start as int));
        let ghost from = self.cursor();
        proof {
            lemma_word_end(s, from);
            lemma_first_bad_digit(s, from, word_end(s, from), base as int);
        }
        match self.scan_digits(base) {
            None => self.error_here("Digit greater than base"),
            Some(value) => {
                if self.current() != '.' {
                    Token::new(
                        TokenKind::Integer(value),
                        start,
                        line,
                        column,
                        self.position - start,
                    )
                } else if base != 10 {
                    self.error_here("Float literal must be base 10")
                } else {
                    self.next_char();
                    proof {
                        lemma_word_end(s, self.cursor());
                        lemma_first_bad_digit(
                            s,
                            self.cursor(),
                            word_end(s, self.cursor()),
                            10,
                        );
                    }
                    match self.scan_fraction() {
                        None => self.error_here("Digit greater than base"),
                        Some(fraction) => {
                            if self.current() == '.' {
                                self.error_here("Cannot have multiple '.' in float literal")
                            } else {
                                Token::new(
                                    TokenKind::Float(FloatLiteral { whole: value, fraction }),
                                    start,
                                    line,
                                    column,
                                    self.position - start,
                                )
                            }
                        },
                    }
                }
            },
        }
    }

    /// Reads the identifier whose first character is under the cursor.
    fn scan_identifier(&mut self) -> (token: Token)
        requires
            old(self).wf(),
            old(self).cursor() < old(self).text().len(),
        ensures
            final(self).wf(),
            final(self).text() == old(self).text(),
            token@ == crate::lexical::identifier_token(old(self).text(), old(self).cursor()),
            final(self).cursor() == token@.end(),
    {
        let ghost s = self.text();
        let start = self.position;
        let line = self.line;
        let column = self.column;
        let mut identifier = String::new();
        proof {
            lemma_word_end(s, start as int);
        }
        while word_char(self.current())
            invariant
                self.wf(),
                self.text() == s,
                0 <= start <= self.cursor() <= word_end(s, start as int) <= s.len(),
                word_end(s, self.cursor()) == word_end(s, start as int),
                identifier@ == s.subrange(start as int, self.cursor()),
            decreases s.len() - self.cursor(),
        {
            let c = self.next_char();
            identifier.push(c);
            proof {
                lemma_word_end(s, self.cursor());
            }
            assert(identifier@ == s.subrange(start as int, self.cursor()));
        }
        Token::new(TokenKind::Identifier(identifier), start, line, column, self.position - start)
    }

    /// Reads the punctuation or operator under the cursor, the longest form
    /// that matches; any other character gives an error token.
    fn scan_operator(&mut self) -> (token: Token)
        requires
            old(self).wf(),
            old(self).cursor() < old(self).text().len(),
        ensures
            final(self).wf(),
            final(self).text() == old(self).text(),
            token@ == crate::lexical::operator_token(old(self).text(), old(self).cursor()),
            final(self).cursor() == token@.end(),
    {
        let start = self.position;
        let line = self.line;
        let column = self.column;
        let c = self.next_char();
        let d = self.current();
        let kind = match c {
            ':' => TokenKind::Colon,
            ';' => TokenKind::Semicolon,
            '(' => TokenKind::LParen,
            ')' => TokenKind::RParen,
            '{' => TokenKind::LBrace,
            '}' => TokenKind::RBrace,
            ',' => TokenKind::Comma,
            '+' => if d == '=' {
                self.next_char();
                TokenKind::PlusEquals
            } else {
                TokenKind::Plus
            },
            '-' => if d == '=' {
                self.next_char();
                TokenKind::MinusEquals
            } else if d == '>' {
                self.next_char();
                TokenKind::RightArrow
            } else {
                TokenKind::Minus
            },
            '*' => if d == '=' {
                self.next_char();
                TokenKind::AsteriskEquals
            } else {
                TokenKind::Asterisk
            },
            '/' => if d == '=' {
                self.next_char();
                TokenKind::SlashEquals
            } else {
                TokenKind::Slash
            },
            '%' => if d == '=' {
                self.next_char();
                TokenKind::PercentEquals
            } else {
                TokenKind::Percent
            },
            '=' => if d == '=' {
                self.next_char();
                TokenKind::EqualsEquals
            } else {
                TokenKind::Equals
            },
            '!' => if d == '=' {
                self.next_char();
                TokenKind::ExclamationMarkEquals
            } else {
                TokenKind::ExclamationMark
            },
            _ => TokenKind::Error(String::from_str("Unknown character")),
        };
        Token::new(kind, start, line, column, self.position - start)
    }

    /// Returns the next token and moves the cursor past it. At the end of the
    /// text the token is end-of-file, again and again. Malformed input gives
    /// an error token, never a failure.
    pub fn next_token(&mut self) -> (token: Token)
        requires
            old(self).wf(),
        ensures
            final(self).wf(),
            final(self).text() == old(self).text(),
            token@ == token_at(old(self).text(), old(self).cursor()),
            final(self).cursor() == token@.end(),
    {
        let ghost s = self.text();
        let ghost p = self.cursor();
        proof {
            lemma_skip_whitespace(s, p);
        }
        while whitespace(self.current())
            invariant
                self.wf(),
                self.text() == s,
                0 <= p <= self.cursor() <= s.len(),
                skip_whitespace(s, self.cursor()) == skip_whitespace(s, p),
            decreases s.len() - self.cursor(),
        {
            self.next_char();
        }
        assert(self.cursor() == skip_whitespace(s, p));
        if self.at_end() {
            return Token::new(TokenKind::EndOfFile, self.position, self.line, self.column, 0);
        }
        let c = self.current();
        if letter(c) || c == '_' {
            self.scan_identifier()
        } else if digit(c) {
            self.scan_number()
        } else {
            self.scan_operator()
        }
    }
}

} // verus!
