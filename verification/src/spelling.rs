//! Spelling tokens out, and reading them back.
//!
//! Every token kind but end-of-file and error has a spelling. A text made
//! of spellings with one space between them is read back by the lexer as
//! the kinds that were spelled, followed by end-of-file.

use crate::lexical::{
    char_at, digits_value, first_bad_digit, fraction_digits, is_bad_digit, is_digit, is_letter,
    is_word_char, lemma_token_progress, literal_base, literal_digits_start, token_at, tokens,
    tokens_from, word_end,
};
use crate::token::{TokenKindView, TokenView};
use vstd::prelude::*;

verus! {

/// The character that writes the digit `d`.
pub open spec fn digit_char(d: int) -> char {
    if d == 0 {
        '0'
    } else if d == 1 {
        '1'
    } else if d == 2 {
        '2'
    } else if d == 3 {
        '3'
    } else if d == 4 {
        '4'
    } else if d == 5 {
        '5'
    } else if d == 6 {
        '6'
    } else if d == 7 {
        '7'
    } else if d == 8 {
        '8'
    } else {
        '9'
    }
}

/// The number in base 10, without leading zeros.
pub open spec fn decimal(n: nat) -> Seq<char>
    decreases n,
{
    if n < 10 {
        seq![digit_char(n as int)]
    } else {
        decimal(n / 10).push(digit_char((n % 10) as int))
    }
}

/// The digits after the `.` of a literal, one character each.
pub open spec fn fraction_spelling(digits: Seq<u8>) -> Seq<char> {
    Seq::new(digits.len(), |i: int| digit_char(digits[i] as int))
}

/// The text is a name: a letter or `_`, then word characters.
pub open spec fn is_identifier(text: Seq<char>) -> bool {
    &&& text.len() > 0
    &&& is_letter(text[0]) || text[0] == '_'
    &&& forall|i: int| 0 <= i < text.len() ==> is_word_char(#[trigger] text[i])
}

/// The kind has a spelling: it is neither end-of-file nor an error, the
/// text of an identifier is a name, and the digits of a fraction are
/// decimal.
pub open spec fn can_be_spelled(kind: TokenKindView) -> bool {
    match kind {
        TokenKindView::EndOfFile => false,
        TokenKindView::Error(_) => false,
        TokenKindView::Identifier(text) => is_identifier(text),
        TokenKindView::Float(_, fraction) => forall|i: int|
            0 <= i < fraction.len() ==> #[trigger] fraction[i] < 10,
        _ => true,
    }
}

/// The text of a token of this kind.
pub open spec fn spelling(kind: TokenKindView) -> Seq<char> {
    match kind {
        TokenKindView::EndOfFile => Seq::empty(),
        TokenKindView::Error(_) => Seq::empty(),
        TokenKindView::Identifier(text) => text,
        TokenKindView::Integer(value) => decimal(value as nat),
        TokenKindView::Float(whole, fraction) => decimal(whole as nat) + seq!['.']
            + fraction_spelling(fraction),
        TokenKindView::Colon => seq![':'],
        TokenKindView::Semicolon => seq![';'],
        TokenKindView::LParen => seq!['('],
        TokenKindView::RParen => seq![')'],
        TokenKindView::LBrace => seq!['{'],
        TokenKindView::RBrace => seq!['}'],
        TokenKindView::Comma => seq![','],
        TokenKindView::RightArrow => seq!['-', '>'],
        TokenKindView::Plus => seq!['+'],
        TokenKindView::Minus => seq!['-'],
        TokenKindView::Asterisk => seq!['*'],
        TokenKindView::Slash => seq!['/'],
        TokenKindView::Percent => seq!['%'],
        TokenKindView::Equals => seq!['='],
        TokenKindView::ExclamationMark => seq!['!'],
        TokenKindView::PlusEquals => seq!['+', '='],
        TokenKindView::MinusEquals => seq!['-', '='],
        TokenKindView::AsteriskEquals => seq!['*', '='],
        TokenKindView::SlashEquals => seq!['/', '='],
        TokenKindView::PercentEquals => seq!['%', '='],
        TokenKindView::EqualsEquals => seq!['=', '='],
        TokenKindView::ExclamationMarkEquals => seq!['!', '='],
    }
}

/// The spellings of the kinds, in order, with one space between two.
pub open spec fn printed(kinds: Seq<TokenKindView>) -> Seq<char>
    decreases kinds.len(),
{
    if kinds.len() == 0 {
        Seq::empty()
    } else if kinds.len() == 1 {
        spelling(kinds[0])
    } else {
        spelling(kinds[0]) + seq![' '] + printed(kinds.drop_first())
    }
}

/// The kinds of the tokens, in order.
pub open spec fn kinds_of(tokens: Seq<TokenView>) -> Seq<TokenKindView> {
    Seq::new(tokens.len(), |i: int| tokens[i].kind)
}

pub open spec fn all_can_be_spelled(kinds: Seq<TokenKindView>) -> bool {
    forall|i: int| 0 <= i < kinds.len() ==> can_be_spelled(#[trigger] kinds[i])
}

/// A run of word characters ends where the first other character stands.
pub proof fn lemma_run(s: Seq<char>, p: int, q: int)
    requires
        0 <= p <= q <= s.len(),
        forall|i: int| p <= i < q ==> is_word_char(#[trigger] s[i]),
        !is_word_char(char_at(s, q)),
    ensures
        word_end(s, p) == q,
    decreases q - p,
{
    if p < q {
        lemma_run(s, p + 1, q);
    }
}

/// A run of digits of the base holds no bad digit.
pub proof fn lemma_all_digits(s: Seq<char>, p: int, q: int, base: int)
    requires
        0 <= p <= q <= s.len(),
        forall|i: int| p <= i < q ==> !is_bad_digit(#[trigger] s[i], base),
    ensures
        first_bad_digit(s, p, q, base) == q,
    decreases q - p,
{
    if p < q {
        lemma_all_digits(s, p + 1, q, base);
    }
}

/// The decimal spelling of a number is one or more digits, the first of
/// which is `0` only for the number 0.
pub proof fn lemma_decimal(n: nat)
    ensures
        decimal(n).len() >= 1,
        forall|i: int| 0 <= i < decimal(n).len() ==> is_digit(#[trigger] decimal(n)[i]),
        n == 0 <==> decimal(n)[0] == '0',
    decreases n,
{
    if n >= 10 {
        lemma_decimal(n / 10);
    }
}

/// Reading the decimal spelling of a number gives the number.
pub proof fn lemma_decimal_value(s: Seq<char>, from: int, to: int, n: nat)
    requires
        0 <= from <= to <= s.len(),
        s.subrange(from, to) == decimal(n),
    ensures
        digits_value(s, from, to, 10) == n,
    decreases n,
{
    lemma_decimal(n);
    assert(s.subrange(from, to)[to - from - 1] == s[to - 1]);
    if n < 10 {
        assert(to == from + 1);
        assert(digits_value(s, from, from, 10) == 0);
    } else {
        assert(s.subrange(from, to - 1) =~= decimal(n / 10));
        lemma_decimal_value(s, from, to - 1, n / 10);
    }
}

/// Reading the spelling of a fraction gives its digits.
pub proof fn lemma_fraction_value(s: Seq<char>, from: int, to: int, digits: Seq<u8>)
    requires
        0 <= from <= to <= s.len(),
        s.subrange(from, to) == fraction_spelling(digits),
        forall|i: int| 0 <= i < digits.len() ==> #[trigger] digits[i] < 10,
    ensures
        fraction_digits(s, from, to) == digits,
    decreases digits.len(),
{
    assert(s.subrange(from, to).len() == to - from);
    assert(fraction_spelling(digits).len() == digits.len());
    if digits.len() == 0 {
        assert(fraction_digits(s, from, to) =~= digits);
    } else {
        let last = digits.len() - 1;
        assert(s.subrange(from, to)[last] == s[to - 1]);
        assert(digits[last] < 10);
        assert(s.subrange(from, to - 1) =~= fraction_spelling(digits.drop_last()));
        lemma_fraction_value(s, from, to - 1, digits.drop_last());
        assert(fraction_digits(s, from, to) =~= digits);
    }
}

/// The end of a spelled token: the end of the text, or a space.
pub open spec fn token_ends(s: Seq<char>, q: int) -> bool {
    q == s.len() || (0 <= q < s.len() && s[q] == ' ')
}

/// A spelled number is read back: the digits of `n` at `p`, ended by the end
/// of the text, a space or a `.`, are a run of decimal digits that is worth
/// `n`.
proof fn lemma_spelled_number(s: Seq<char>, p: int, n: nat)
    requires
        0 <= p,
        p + decimal(n).len() <= s.len(),
        s.subrange(p, p + decimal(n).len()) == decimal(n),
        !is_word_char(char_at(s, p + decimal(n).len())),
        char_at(s, p + decimal(n).len()) == '.' || char_at(s, p + decimal(n).len()) == ' '
            || p + decimal(n).len() == s.len(),
    ensures
        is_digit(s[p]),
        literal_base(s, p) == 10,
        word_end(s, literal_digits_start(s, p)) == p + decimal(n).len(),
        first_bad_digit(s, literal_digits_start(s, p), p + decimal(n).len(), 10) == p
            + decimal(n).len(),
        digits_value(s, literal_digits_start(s, p), p + decimal(n).len(), 10) == n,
{
    let text = decimal(n);
    let q = p + text.len();
    lemma_decimal(n);
    assert forall|i: int| p <= i < q implies is_digit(#[trigger] s[i]) by {
        assert(s.subrange(p, q)[i - p] == s[i]);
    }
    assert(s.subrange(p, q)[0] == s[p]);
    lemma_decimal_value(s, p, q, n);
    if s[p] == '0' {
        assert(text.len() == 1);
        assert(digits_value(s, p + 1, p + 1, 10) == 0);
    } else {
        lemma_run(s, p, q);
        lemma_all_digits(s, p, q, 10);
    }
}

/// A spelled token is read back: where the spelling of a kind stands at
/// `p` and ends the text or is followed by a space, the token at `p` is of
/// that kind and spans the spelling.
#[verifier::spinoff_prover]
pub proof fn lemma_spelled_token(s: Seq<char>, p: int, kind: TokenKindView)
    requires
        can_be_spelled(kind),
        0 <= p,
        p + spelling(kind).len() <= s.len(),
        s.subrange(p, p + spelling(kind).len()) == spelling(kind),
        token_ends(s, p + spelling(kind).len()),
    ensures
        spelling(kind).len() >= 1,
        token_at(s, p).kind == kind,
        token_at(s, p).position == p,
        token_at(s, p).length == spelling(kind).len(),
{
    let text = spelling(kind);
    let q = p + text.len();
    match kind {
        TokenKindView::Identifier(name) => {
            assert forall|i: int| p <= i < q implies is_word_char(#[trigger] s[i]) by {
                assert(s.subrange(p, q)[i - p] == s[i]);
            }
            assert(s.subrange(p, q)[0] == s[p]);
            lemma_run(s, p, q);
        },
        TokenKindView::Integer(value) => {
            lemma_spelled_number(s, p, value as nat);
        },
        TokenKindView::Float(whole, fraction) => {
            let digits = decimal(whole as nat);
            let dot = p + digits.len();
            lemma_decimal(whole as nat);
            assert(s.subrange(p, q)[digits.len() as int] == s[dot]);
            assert(s[dot] == '.');
            assert(s.subrange(p, dot) =~= digits) by {
                assert forall|i: int| 0 <= i < digits.len() implies s.subrange(p, dot)[i]
                    == digits[i] by {
                    assert(s.subrange(p, q)[i] == s[p + i]);
                }
            }
            lemma_spelled_number(s, p, whole as nat);
            assert(s.subrange(dot + 1, q) =~= fraction_spelling(fraction)) by {
                assert forall|i: int| 0 <= i < fraction.len() implies s.subrange(dot + 1, q)[i]
                    == fraction_spelling(fraction)[i] by {
                    assert(s.subrange(p, q)[digits.len() + 1 + i] == s[dot + 1 + i]);
                }
            }
            assert forall|i: int| dot + 1 <= i < q implies !is_bad_digit(#[trigger] s[i], 10)
                && is_word_char(s[i]) by {
                assert(s.subrange(dot + 1, q)[i - dot - 1] == s[i]);
                assert(fraction[i - dot - 1] < 10);
            }
            lemma_run(s, dot + 1, q);
            lemma_all_digits(s, dot + 1, q, 10);
            lemma_fraction_value(s, dot + 1, q, fraction);
        },
        _ => {
            assert(s.subrange(p, q)[0] == s[p]);
            if text.len() == 2 {
                assert(s.subrange(p, q)[1] == s[p + 1]);
            }
        },
    }
}

/// A space before a token changes nothing of what the lexer yields.
proof fn lemma_space_skipped(s: Seq<char>, q: int)
    requires
        0 <= q < s.len(),
        s[q] == ' ',
    ensures
        tokens_from(s, q) == tokens_from(s, q + 1),
{
    assert(token_at(s, q) == token_at(s, q + 1));
    lemma_token_progress(s, q + 1);
}

/// The tokens of a text that, from `p` on, is the printed form of `kinds`.
#[verifier::spinoff_prover]
proof fn lemma_printed_tokens(s: Seq<char>, p: int, kinds: Seq<TokenKindView>)
    requires
        0 <= p <= s.len(),
        all_can_be_spelled(kinds),
        s.subrange(p, s.len() as int) == printed(kinds),
    ensures
        kinds_of(tokens_from(s, p)) == kinds.push(TokenKindView::EndOfFile),
    decreases kinds.len(),
{
    if kinds.len() == 0 {
        assert(p == s.len());
        assert(kinds_of(tokens_from(s, p)) =~= kinds.push(TokenKindView::EndOfFile));
    } else {
        let kind = kinds[0];
        let rest = kinds.drop_first();
        let text = spelling(kind);
        let q = p + text.len();
        assert(can_be_spelled(kind));
        assert forall|i: int| 0 <= i < rest.len() implies can_be_spelled(#[trigger] rest[i]) by {
            assert(rest[i] == kinds[i + 1]);
        }
        let tail = s.subrange(p, s.len() as int);
        assert(tail.len() == s.len() - p);
        assert(tail.len() == if kinds.len() == 1 {
            text.len()
        } else {
            text.len() + 1 + printed(rest).len()
        });
        assert(s.subrange(p, q) =~= text) by {
            assert forall|i: int| 0 <= i < text.len() implies s.subrange(p, q)[i] == text[i] by {
                assert(tail[i] == s[p + i]);
            }
        }
        if kinds.len() == 1 {
            assert(q == s.len());
            assert(s.subrange(q, s.len() as int) =~= printed(rest));
            lemma_spelled_token(s, p, kind);
            lemma_printed_tokens(s, q, rest);
        } else {
            assert(tail[text.len() as int] == s[q]);
            assert(s[q] == ' ');
            assert(s.subrange(q + 1, s.len() as int) =~= printed(rest)) by {
                assert forall|i: int| 0 <= i < printed(rest).len() implies s.subrange(
                    q + 1,
                    s.len() as int,
                )[i] == printed(rest)[i] by {
                    assert(tail[text.len() + 1 + i] == s[q + 1 + i]);
                }
            }
            lemma_spelled_token(s, p, kind);
            lemma_printed_tokens(s, q + 1, rest);
            lemma_space_skipped(s, q);
        }
        let token = token_at(s, p);
        assert(tokens_from(s, p) == seq![token] + tokens_from(s, q));
        lemma_kinds_of_first(token, tokens_from(s, q));
        assert(seq![kind] + rest.push(TokenKindView::EndOfFile) =~= kinds.push(
            TokenKindView::EndOfFile,
        ));
    }
}

/// The kinds of a token followed by tokens.
proof fn lemma_kinds_of_first(token: TokenView, tokens: Seq<TokenView>)
    ensures
        kinds_of(seq![token] + tokens) == seq![token.kind] + kinds_of(tokens),
{
    assert(kinds_of(seq![token] + tokens) =~= seq![token.kind] + kinds_of(tokens));
}

/// Reading back what was spelled: the lexer reads a text made of the
/// spellings of token kinds, with one space between two, as those kinds in
/// that order, followed by one end-of-file token.
pub proof fn lemma_round_trip(kinds: Seq<TokenKindView>)
    requires
        all_can_be_spelled(kinds),
    ensures
        kinds_of(tokens(printed(kinds))) == kinds.push(TokenKindView::EndOfFile),
{
    let s = printed(kinds);
    assert(s.subrange(0, s.len() as int) =~= s);
    lemma_printed_tokens(s, 0, kinds);
}

} // verus!
