//! The lexical grammar, as functions on sequences of characters.
//!
//! `token_at(s, p)` is the token that a lexer whose cursor stands at position
//! `p` of the text `s` yields next. Everything here is ghost code: the
//! executable lexer is proved against it.

use crate::token::{TokenKindView, TokenView};
use vstd::prelude::*;

verus! {

pub open spec fn is_whitespace(c: char) -> bool {
    c == ' ' || c == '\n' || c == '\r' || c == '\t'
}

pub open spec fn is_letter(c: char) -> bool {
    ('A' <= c <= 'Z') || ('a' <= c <= 'z')
}

pub open spec fn is_digit(c: char) -> bool {
    '0' <= c <= '9'
}

/// Characters that continue an identifier or a numeric literal.
pub open spec fn is_word_char(c: char) -> bool {
    is_letter(c) || is_digit(c) || c == '_'
}

/// The value of a digit symbol in base 36: `0`-`9`, then the letters from 10
/// on, upper and lower case alike.
pub open spec fn digit_value(c: char) -> int {
    if is_digit(c) {
        c as int - '0' as int
    } else if 'A' <= c <= 'Z' {
        c as int - 'A' as int + 10
    } else {
        c as int - 'a' as int + 10
    }
}

/// The character at `p`, or NUL where `p` lies outside the text.
pub open spec fn char_at(s: Seq<char>, p: int) -> char {
    if 0 <= p < s.len() {
        s[p]
    } else {
        '\0'
    }
}

/// Line of position `p`, counted from 1: one more than the number of line
/// feeds before `p`.
pub open spec fn line_at(s: Seq<char>, p: int) -> int
    decreases p,
{
    if p <= 0 {
        1
    } else if char_at(s, p - 1) == '\n' {
        line_at(s, p - 1) + 1
    } else {
        line_at(s, p - 1)
    }
}

/// Column of position `p`, counted from 1: one more than the number of
/// characters between `p` and the last line feed before it.
pub open spec fn column_at(s: Seq<char>, p: int) -> int
    decreases p,
{
    if p <= 0 {
        1
    } else if char_at(s, p - 1) == '\n' {
        1
    } else {
        column_at(s, p - 1) + 1
    }
}

/// First position at or after `p` that holds no whitespace.
pub open spec fn skip_whitespace(s: Seq<char>, p: int) -> int
    decreases s.len() - p,
{
    if 0 <= p < s.len() && is_whitespace(s[p]) {
        skip_whitespace(s, p + 1)
    } else {
        p
    }
}

/// First position at or after `p` that holds no word character.
pub open spec fn word_end(s: Seq<char>, p: int) -> int
    decreases s.len() - p,
{
    if 0 <= p < s.len() && is_word_char(s[p]) {
        word_end(s, p + 1)
    } else {
        p
    }
}

/// A digit symbol that the base does not have. The separator `_` is none.
pub open spec fn is_bad_digit(c: char, base: int) -> bool {
    c != '_' && digit_value(c) >= base
}

/// First position in `from..to` whose symbol is no digit of `base`; `to`
/// where there is none.
pub open spec fn first_bad_digit(s: Seq<char>, from: int, to: int, base: int) -> int
    decreases to - from,
{
    if from >= to {
        to
    } else if is_bad_digit(char_at(s, from), base) {
        from
    } else {
        first_bad_digit(s, from + 1, to, base)
    }
}

/// The number that the digit symbols in `from..to` write in `base`, most
/// significant first; `_` is skipped.
pub open spec fn digits_value(s: Seq<char>, from: int, to: int, base: int) -> int
    decreases to - from,
{
    if to <= from {
        0
    } else if char_at(s, to - 1) == '_' {
        digits_value(s, from, to - 1, base)
    } else {
        digits_value(s, from, to - 1, base) * base + digit_value(char_at(s, to - 1))
    }
}

/// The digits in `from..to` one by one, `_` skipped.
pub open spec fn fraction_digits(s: Seq<char>, from: int, to: int) -> Seq<u8>
    decreases to - from,
{
    if to <= from {
        Seq::empty()
    } else if char_at(s, to - 1) == '_' {
        fraction_digits(s, from, to - 1)
    } else {
        fraction_digits(s, from, to - 1).push(digit_value(char_at(s, to - 1)) as u8)
    }
}

/// A 64-bit literal keeps the low 64 bits of what its digits write.
pub open spec fn wrap64(n: int) -> u64 {
    (n % 0x1_0000_0000_0000_0000) as u64
}

pub open spec fn unknown_character() -> Seq<char> {
    "Unknown character"@
}

pub open spec fn digit_greater_than_base() -> Seq<char> {
    "Digit greater than base"@
}

pub open spec fn multiple_dots() -> Seq<char> {
    "Cannot have multiple '.' in float literal"@
}

pub open spec fn float_must_be_base_10() -> Seq<char> {
    "Float literal must be base 10"@
}

/// A token of `kind` whose first character stands at `at`.
pub open spec fn located(s: Seq<char>, kind: TokenKindView, at: int, length: int) -> TokenView {
    TokenView { kind, position: at, line: line_at(s, at), column: column_at(s, at), length }
}

/// The error token that points at the single character at `at`.
pub open spec fn error_at(s: Seq<char>, message: Seq<char>, at: int) -> TokenView {
    located(s, TokenKindView::Error(message), at, 1)
}

/// The kind and length of the punctuation or operator that starts with `c`
/// and is followed by `d`: the longest of the one- and two-character forms.
pub open spec fn operator_kind(c: char, d: char) -> (TokenKindView, int) {
    if c == ':' {
        (TokenKindView::Colon, 1)
    } else if c == ';' {
        (TokenKindView::Semicolon, 1)
    } else if c == '(' {
        (TokenKindView::LParen, 1)
    } else if c == ')' {
        (TokenKindView::RParen, 1)
    } else if c == '{' {
        (TokenKindView::LBrace, 1)
    } else if c == '}' {
        (TokenKindView::RBrace, 1)
    } else if c == ',' {
        (TokenKindView::Comma, 1)
    } else if c == '+' {
        if d == '=' {
            (TokenKindView::PlusEquals, 2)
        } else {
            (TokenKindView::Plus, 1)
        }
    } else if c == '-' {
        if d == '=' {
            (TokenKindView::MinusEquals, 2)
        } else if d == '>' {
            (TokenKindView::RightArrow, 2)
        } else {
            (TokenKindView::Minus, 1)
        }
    } else if c == '*' {
        if d == '=' {
            (TokenKindView::AsteriskEquals, 2)
        } else {
            (TokenKindView::Asterisk, 1)
        }
    } else if c == '/' {
        if d == '=' {
            (TokenKindView::SlashEquals, 2)
        } else {
            (TokenKindView::Slash, 1)
        }
    } else if c == '%' {
        if d == '=' {
            (TokenKindView::PercentEquals, 2)
        } else {
            (TokenKindView::Percent, 1)
        }
    } else if c == '=' {
        if d == '=' {
            (TokenKindView::EqualsEquals, 2)
        } else {
            (TokenKindView::Equals, 1)
        }
    } else if c == '!' {
        if d == '=' {
            (TokenKindView::ExclamationMarkEquals, 2)
        } else {
            (TokenKindView::ExclamationMark, 1)
        }
    } else {
        (TokenKindView::Error(unknown_character()), 1)
    }
}

/// The token at `start` where the character there is neither a letter, `_`
/// nor a digit.
pub open spec fn operator_token(s: Seq<char>, start: int) -> TokenView {
    let found = operator_kind(char_at(s, start), char_at(s, start + 1));
    located(s, found.0, start, found.1)
}

/// The identifier that starts at `start`: the longest run of word characters.
pub open spec fn identifier_token(s: Seq<char>, start: int) -> TokenView {
    let end = word_end(s, start);
    located(s, TokenKindView::Identifier(s.subrange(start, end)), start, end - start)
}

/// Where the digits of the literal at `start` begin: after an optional
/// leading `0` and, if one follows it, the base selector.
pub open spec fn literal_digits_start(s: Seq<char>, start: int) -> int {
    let after_zero = if char_at(s, start) == '0' {
        start + 1
    } else {
        start
    };
    if literal_base(s, start) == 10 {
        after_zero
    } else {
        after_zero + 1
    }
}

/// The base of the literal at `start`: 16 after `x` or `X`, 2 after `b` or
/// `B`, else 10.
pub open spec fn literal_base(s: Seq<char>, start: int) -> int {
    let after_zero = if char_at(s, start) == '0' {
        start + 1
    } else {
        start
    };
    let selector = char_at(s, after_zero);
    if selector == 'x' || selector == 'X' {
        16
    } else if selector == 'b' || selector == 'B' {
        2
    } else {
        10
    }
}

/// The numeric literal that starts at `start`, or the error token for the
/// first character that spoils it.
pub open spec fn number_token(s: Seq<char>, start: int) -> TokenView {
    let base = literal_base(s, start);
    let from = literal_digits_start(s, start);
    let end = word_end(s, from);
    let bad = first_bad_digit(s, from, end, base);
    if bad < end {
        error_at(s, digit_greater_than_base(), bad)
    } else if char_at(s, end) == '.' {
        if base != 10 {
            error_at(s, float_must_be_base_10(), end)
        } else {
            let stop = word_end(s, end + 1);
            let bad_fraction = first_bad_digit(s, end + 1, stop, 10);
            if bad_fraction < stop {
                error_at(s, digit_greater_than_base(), bad_fraction)
            } else if char_at(s, stop) == '.' {
                error_at(s, multiple_dots(), stop)
            } else {
                located(
                    s,
                    TokenKindView::Float(
                        wrap64(digits_value(s, from, end, 10)),
                        fraction_digits(s, end + 1, stop),
                    ),
                    start,
                    stop - start,
                )
            }
        }
    } else {
        located(
            s,
            TokenKindView::Integer(wrap64(digits_value(s, from, end, base))),
            start,
            end - start,
        )
    }
}

/// The token that a lexer at position `p` of `s` yields: whitespace is
/// skipped, then the first character decides. At the end of the text it is
/// the end-of-file token, of length 0.
pub open spec fn token_at(s: Seq<char>, p: int) -> TokenView {
    let start = skip_whitespace(s, p);
    if !(0 <= start < s.len()) {
        located(s, TokenKindView::EndOfFile, start, 0)
    } else if is_letter(s[start]) || s[start] == '_' {
        identifier_token(s, start)
    } else if is_digit(s[start]) {
        number_token(s, start)
    } else {
        operator_token(s, start)
    }
}

/// All tokens from position `p` on, up to and including the end-of-file
/// token.
pub open spec fn tokens_from(s: Seq<char>, p: int) -> Seq<TokenView>
    decreases s.len() - p,
{
    let token = token_at(s, p);
    if token.kind is EndOfFile || !(p < token.end() <= s.len()) {
        seq![token]
    } else {
        seq![token] + tokens_from(s, token.end())
    }
}

/// The tokens of a whole text.
pub open spec fn tokens(s: Seq<char>) -> Seq<TokenView> {
    tokens_from(s, 0)
}

pub proof fn lemma_line_column_bounds(s: Seq<char>, p: int)
    requires
        0 <= p,
    ensures
        1 <= line_at(s, p) <= p + 1,
        1 <= column_at(s, p) <= p + 1,
    decreases p,
{
    if p > 0 {
        lemma_line_column_bounds(s, p - 1);
    }
}

pub proof fn lemma_skip_whitespace(s: Seq<char>, p: int)
    requires
        0 <= p <= s.len(),
    ensures
        p <= skip_whitespace(s, p) <= s.len(),
        !is_whitespace(char_at(s, skip_whitespace(s, p))),
        forall|i: int| p <= i < skip_whitespace(s, p) ==> is_whitespace(#[trigger] s[i]),
    decreases s.len() - p,
{
    if p < s.len() && is_whitespace(s[p]) {
        lemma_skip_whitespace(s, p + 1);
    }
}

pub proof fn lemma_word_end(s: Seq<char>, p: int)
    requires
        0 <= p <= s.len(),
    ensures
        p <= word_end(s, p) <= s.len(),
        !is_word_char(char_at(s, word_end(s, p))),
        forall|i: int| p <= i < word_end(s, p) ==> is_word_char(#[trigger] s[i]),
    decreases s.len() - p,
{
    if p < s.len() && is_word_char(s[p]) {
        lemma_word_end(s, p + 1);
    }
}

pub proof fn lemma_first_bad_digit(s: Seq<char>, from: int, to: int, base: int)
    requires
        from <= to,
    ensures
        from <= first_bad_digit(s, from, to, base) <= to,
        first_bad_digit(s, from, to, base) < to ==> is_bad_digit(
            char_at(s, first_bad_digit(s, from, to, base)),
            base,
        ),
        forall|i: int|
            from <= i < first_bad_digit(s, from, to, base) ==> !is_bad_digit(
                #[trigger] char_at(s, i),
                base,
            ),
    decreases to - from,
{
    if from < to && !is_bad_digit(char_at(s, from), base) {
        lemma_first_bad_digit(s, from + 1, to, base);
    }
}

/// The literal at `start` begins with a digit, so its digits start after
/// `start` or its first digit is a word character: either way the literal
/// reaches beyond `start`.
pub proof fn lemma_number_progress(s: Seq<char>, start: int)
    requires
        0 <= start < s.len(),
        is_digit(s[start]),
    ensures
        number_token(s, start).end() > start,
        number_token(s, start).position >= start,
        number_token(s, start).end() <= s.len(),
        number_token(s, start).length >= 1,
        !(number_token(s, start).kind is EndOfFile),
{
    let base = literal_base(s, start);
    let from = literal_digits_start(s, start);
    assert(start <= from <= s.len());
    lemma_word_end(s, from);
    let end = word_end(s, from);
    assert(end > start) by {
        if from == start {
            assert(is_word_char(s[start]));
        }
    }
    lemma_first_bad_digit(s, from, end, base);
    if first_bad_digit(s, from, end, base) < end {
    } else if char_at(s, end) == '.' {
        if base == 10 {
            lemma_word_end(s, end + 1);
            let stop = word_end(s, end + 1);
            lemma_first_bad_digit(s, end + 1, stop, 10);
        }
    }
}

/// Every token lies in the text at or after the cursor, and every token but
/// end-of-file moves the cursor on.
pub proof fn lemma_token_progress(s: Seq<char>, p: int)
    requires
        0 <= p <= s.len(),
    ensures
        p <= token_at(s, p).position,
        0 <= token_at(s, p).length,
        token_at(s, p).end() <= s.len(),
        token_at(s, p).kind is EndOfFile <==> skip_whitespace(s, p) == s.len(),
        token_at(s, p).kind is EndOfFile ==> token_at(s, p).position == s.len() && token_at(
            s,
            p,
        ).length == 0,
        !(token_at(s, p).kind is EndOfFile) ==> token_at(s, p).end() > p && token_at(s, p).length
            >= 1,
{
    lemma_skip_whitespace(s, p);
    let start = skip_whitespace(s, p);
    if start < s.len() {
        if is_letter(s[start]) || s[start] == '_' {
            lemma_word_end(s, start);
            assert(is_word_char(s[start]));
        } else if is_digit(s[start]) {
            lemma_number_progress(s, start);
        } else {
        }
    }
}

/// Once the end of the file is reached, the lexer stays there: the token
/// after an end-of-file token is that same token.
pub proof fn lemma_end_of_file_repeats(s: Seq<char>, p: int)
    requires
        0 <= p <= s.len(),
        token_at(s, p).kind is EndOfFile,
    ensures
        token_at(s, token_at(s, p).end()) == token_at(s, p),
{
    lemma_token_progress(s, p);
    lemma_skip_whitespace(s, p);
}

/// The tokens of a text, from any position on: the last one is end-of-file
/// and no other is; each lies in the text, and a token starts where the one
/// before it ends or later.
pub proof fn lemma_tokens_in_order(s: Seq<char>, p: int)
    requires
        0 <= p <= s.len(),
    ensures
        tokens_from(s, p).len() >= 1,
        tokens_from(s, p).last().kind is EndOfFile,
        tokens_from(s, p)[0] == token_at(s, p),
        forall|i: int|
            0 <= i < tokens_from(s, p).len() - 1 ==> !((#[trigger] tokens_from(s, p)[i]).kind
                is EndOfFile),
        forall|i: int|
            0 <= i < tokens_from(s, p).len() ==> p <= (#[trigger] tokens_from(s, p)[i]).position
                && tokens_from(s, p)[i].end() <= s.len(),
        forall|i: int, j: int|
            0 <= i < j < tokens_from(s, p).len() ==> (#[trigger] tokens_from(s, p)[i]).end() <= (
            #[trigger] tokens_from(s, p)[j]).position,
    decreases s.len() - p,
{
    lemma_token_progress(s, p);
    let token = token_at(s, p);
    if !(token.kind is EndOfFile) {
        lemma_tokens_in_order(s, token.end());
        let rest = tokens_from(s, token.end());
        assert(tokens_from(s, p) == seq![token] + rest);
        assert forall|i: int| 0 < i < tokens_from(s, p).len() implies #[trigger] tokens_from(
            s,
            p,
        )[i] == rest[i - 1] by {}
    }
}

/// A token that starts with `-` is `-=` where `=` follows, `->` where `>`
/// follows, and the single `-` before anything else.
pub proof fn lemma_minus_forms(s: Seq<char>, p: int)
    requires
        0 <= p < s.len(),
        s[p] == '-',
    ensures
        token_at(s, p).position == p,
        char_at(s, p + 1) == '=' ==> token_at(s, p).kind is MinusEquals && token_at(s, p).length
            == 2,
        char_at(s, p + 1) == '>' ==> token_at(s, p).kind is RightArrow && token_at(s, p).length
            == 2,
        char_at(s, p + 1) != '=' && char_at(s, p + 1) != '>' ==> token_at(s, p).kind is Minus
            && token_at(s, p).length == 1,
{
}

/// An integer literal whose digits write a number below 2^64 has that
/// number as its value.
pub proof fn lemma_literal_value(s: Seq<char>, start: int)
    requires
        0 <= start < s.len(),
        is_digit(s[start]),
        number_token(s, start).kind is Integer,
        0 <= digits_value(
            s,
            literal_digits_start(s, start),
            word_end(s, literal_digits_start(s, start)),
            literal_base(s, start),
        ) < 0x1_0000_0000_0000_0000,
    ensures
        number_token(s, start).kind == TokenKindView::Integer(
            digits_value(
                s,
                literal_digits_start(s, start),
                word_end(s, literal_digits_start(s, start)),
                literal_base(s, start),
            ) as u64,
        ),
{
}

} // verus!
