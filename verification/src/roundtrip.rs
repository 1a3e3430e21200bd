//! What is written reads back. The texts that numbers and strings are
//! rendered as scan and lex to the values that they were rendered from, and
//! a field that holds a single number, text or boolean value, without
//! constraints and options, parses back from what it is rendered as.

use vstd::prelude::*;
use crate::chars::{first_or_nul, spec_digit_value, spec_is_digit, spec_is_whitespace};
use crate::decimal::Decimal;
use crate::formatting::{layout, ValueToString};
use crate::grammar::{accept_assign, accept_special, accept_value, assigned_read, begin_read,
    boolean_parse, boolean_value_read, constraints_read, enum_read, field_parse,
    floating_value_read, integer_value_read, interval_read, literal_read, name_read,
    number_parse, options_parse, sign_read, start, step, string_parse, string_value_read,
    typed_parse, Cursor, ParserErrorView};
use crate::helpers::PossibleSeq;
use crate::lexer::{decimal_of_digits, digit_run, exponent_scan, fraction_scan,
    integer_of_digits, is_ident_part, keyword, keyword_at, lemma_lex_step, lemma_run_length, lex,
    lex_from, lex_one, number_scan, number_token, run_length, spec_is_ident,
    spec_is_ident_string, string_scan, LexError, Lexeme, Number, MANTISSA_LIMIT};
use crate::object_base::ObjectBase;
use crate::objects::{BooleanType, BooleanTypeView, ElementView, FieldTypeView, FloatingType,
    IntegerType, NumberTypeView, OptionView, StringType, StringTypeView};
use crate::scanner::{step_position, walk_position};
use crate::text::{decimal_text, escaped, integer_text, natural_text, quoted};
use crate::to_schemer::{field_text, name_text};
use crate::tokens::{SpecialToken, TokenInfoView, TokenView, TypeName};

verus! {

/// The text of a natural number holds at least one character, and nothing
/// but digits.
pub proof fn lemma_natural_text_is_digits(n: nat)
    ensures
        natural_text(n).len() >= 1,
        forall|i: int| 0 <= i < natural_text(n).len() ==> spec_is_digit(#[trigger] natural_text(n)[i]),
    decreases n,
{
    if n >= 10 {
        lemma_natural_text_is_digits(n / 10);
        let front = natural_text(n / 10);
        assert forall|i: int| 0 <= i < natural_text(n).len() implies spec_is_digit(
            #[trigger] natural_text(n)[i],
        ) by {
            if i < front.len() {
                assert(natural_text(n)[i] == front[i]);
            }
        }
    }
}

/// The number that digits stand for depends on these digits only.
pub proof fn lemma_integer_of_prefix(text: Seq<char>, other: Seq<char>, n: nat)
    requires
        n <= text.len(),
        n <= other.len(),
        forall|i: int| 0 <= i < n ==> text[i] == other[i],
    ensures
        integer_of_digits(text, n) == integer_of_digits(other, n),
    decreases n,
{
    if n > 0 {
        lemma_integer_of_prefix(text, other, (n - 1) as nat);
    }
}

/// The number that the scanner makes of the digits of `n`, a number of at
/// most 64 bits in size: the number itself, or the least number if `n` is one
/// above the greatest.
pub open spec fn scanned(n: nat) -> i64 {
    if n <= i64::MAX {
        n as i64
    } else {
        i64::MIN
    }
}

/// The digits of a natural number that is not above the size of the least
/// signed 64-bit number stand for the number as the scanner takes it.
pub proof fn lemma_digits_of_natural(n: nat)
    requires
        n <= i64::MAX + 1,
    ensures
        integer_of_digits(natural_text(n), natural_text(n).len()) == scanned(n),
    decreases n,
{
    let text = natural_text(n);
    if n < 10 {
        assert(text.len() == 1);
        assert(integer_of_digits(text, 0) == 0);
        assert(spec_digit_value(text[0]) == n);
        assert(0i64.wrapping_mul(10) == 0);
    } else {
        let front = natural_text(n / 10);
        lemma_digits_of_natural(n / 10);
        lemma_natural_text_is_digits(n / 10);
        lemma_integer_of_prefix(text, front, front.len());
        let upper = integer_of_digits(text, front.len());
        assert(upper == n / 10);
        assert(text.len() == front.len() + 1);
        assert(spec_digit_value(text[text.len() - 1]) == n % 10);
        assert(upper.wrapping_mul(10) == (n / 10) * 10) by {
            assert(0 <= upper * 10 <= i64::MAX);
            assert((upper * 10) % 0x1_0000_0000_0000_0000 == upper * 10);
        }
    }
}

/// Whether `rest` may stand behind a number without being taken for a part
/// of it: it starts with no digit, no point and no `e`.
pub open spec fn ends_number(rest: Seq<char>) -> bool {
    rest.len() > 0 ==> !spec_is_digit(rest[0]) && rest[0] != '.' && rest[0] != 'e' && rest[0]
        != 'E'
}

/// The digits at the head of a text that continues with something else than
/// a digit are all the digits of the run.
pub proof fn lemma_digit_run_of_natural(n: nat, rest: Seq<char>)
    requires
        rest.len() > 0 ==> !spec_is_digit(rest[0]),
    ensures
        digit_run(natural_text(n) + rest) == natural_text(n).len(),
{
    let digits = natural_text(n);
    let text = digits + rest;
    lemma_natural_text_is_digits(n);
    assert forall|i: int| 0 <= i < digits.len() implies spec_is_digit(#[trigger] text[i]) by {
        assert(text[i] == digits[i]);
    }
    if rest.len() > 0 {
        assert(text[digits.len() as int] == rest[0]);
    }
    lemma_run_length(text, |c: char| spec_is_digit(c), digits.len() as int);
}

/// A whole number reads back: the digits that a natural number is written
/// with scan as that number, and all of them are taken, whatever follows that
/// cannot belong to a number.
pub proof fn lemma_whole_number_reads_back(n: nat, rest: Seq<char>)
    requires
        n <= i64::MAX + 1,
        ends_number(rest),
    ensures
        number_scan(natural_text(n) + rest) == (
            Number::Integer(scanned(n)),
            natural_text(n).len() as int,
        ),
{
    let digits = natural_text(n);
    let text = digits + rest;
    lemma_natural_text_is_digits(n);
    lemma_digits_of_natural(n);
    lemma_digit_run_of_natural(n, rest);
    lemma_integer_of_prefix(text, digits, digits.len());
    assert(text.skip(digits.len() as int) =~= rest);
    assert(text.skip(digits.len() as int + 0) =~= rest);
}

/// The mantissa and exponent that digits give depend on these digits only.
pub proof fn lemma_decimal_of_prefix(
    text: Seq<char>,
    other: Seq<char>,
    n: nat,
    init: (u64, i64),
    fraction: bool,
)
    requires
        n <= text.len(),
        n <= other.len(),
        forall|i: int| 0 <= i < n ==> text[i] == other[i],
    ensures
        decimal_of_digits(text, n, init, fraction) == decimal_of_digits(other, n, init, fraction),
    decreases n,
{
    if n > 0 {
        lemma_decimal_of_prefix(text, other, (n - 1) as nat, init, fraction);
    }
}

/// The digits of a mantissa that the scanner can give make that mantissa,
/// and leave the exponent at zero.
pub proof fn lemma_mantissa_of_natural(n: nat)
    requires
        n <= MANTISSA_LIMIT * 10 + 9,
    ensures
        decimal_of_digits(natural_text(n), natural_text(n).len(), (0u64, 0i64), false) == (
            n as u64,
            0i64,
        ),
    decreases n,
{
    let text = natural_text(n);
    if n < 10 {
        assert(text.len() == 1);
        assert(decimal_of_digits(text, 0, (0u64, 0i64), false) == (0u64, 0i64));
        assert(spec_digit_value(text[0]) == n);
    } else {
        let front = natural_text(n / 10);
        lemma_mantissa_of_natural(n / 10);
        lemma_decimal_of_prefix(text, front, front.len(), (0u64, 0i64), false);
        assert(text.len() == front.len() + 1);
        assert(spec_digit_value(text[text.len() - 1]) == n % 10);
        assert(n / 10 <= MANTISSA_LIMIT);
    }
}

/// The text of a decimal that is not below zero: the mantissa, `e` and the
/// exponent.
pub open spec fn unsigned_decimal_text(d: Decimal) -> Seq<char> {
    natural_text(d.mantissa as nat) + seq!['e'] + integer_text(d.exponent as int)
}

/// An exponent reads back: `e` and the text of a number scan as that
/// number, added to the exponent zero, and all of it is taken, whatever
/// follows that is no digit.
pub proof fn lemma_exponent_reads_back(exponent: i64, rest: Seq<char>)
    requires
        rest.len() > 0 ==> !spec_is_digit(rest[0]),
    ensures
        exponent_scan(seq!['e'] + integer_text(exponent as int) + rest, 0i64) == (
            exponent,
            1 + integer_text(exponent as int).len() as int,
            true,
        ),
{
    let size: nat = if exponent < 0 {
        (-exponent) as nat
    } else {
        exponent as nat
    };
    let sign: Seq<char> = if exponent < 0 {
        seq!['-']
    } else {
        Seq::<char>::empty()
    };
    let sign_len: int = if exponent < 0 {
        1
    } else {
        0
    };
    let power = natural_text(size);
    let tail = seq!['e'] + integer_text(exponent as int) + rest;
    assert(integer_text(exponent as int) =~= sign + power);
    assert(tail[0] == 'e');
    lemma_natural_text_is_digits(size);
    lemma_digits_of_natural(size);
    let behind_mark = tail.skip(1);
    assert(behind_mark =~= sign + power + rest);
    assert(spec_is_digit(power[0]));
    assert(behind_mark[0] == (if exponent < 0 {
        '-'
    } else {
        power[0]
    }));
    let digits = tail.skip(1 + sign_len);
    assert(digits =~= power + rest);
    lemma_digit_run_of_natural(size, rest);
    lemma_integer_of_prefix(digits, power, power.len());
    let written = integer_of_digits(digits, power.len());
    assert(written == scanned(size));
    if exponent < 0 {
        lemma_negation_of_scanned(exponent);
    }
}

/// The opposite of what the scanner makes of the size of a number below
/// zero is the number.
pub proof fn lemma_negation_of_scanned(value: i64)
    requires
        value < 0,
    ensures
        scanned((-value) as nat).wrapping_mul(-1i64) == value,
{
    if value > i64::MIN {
        lemma_negation_wraps_nowhere((-value) as i64);
    } else {
        let product = i64::MIN * (-1i64);
        assert(product == 0x8000_0000_0000_0000);
        assert(product % 0x1_0000_0000_0000_0000 == 0x8000_0000_0000_0000);
    }
}

/// The opposite of a number above zero is no wrapped number.
proof fn lemma_negation_wraps_nowhere(written: i64)
    requires
        written > 0,
    ensures
        written.wrapping_mul(-1i64) == -written,
{
    let product = written * (-1i64);
    assert(product == -(written as int)) by (nonlinear_arith)
        requires
            product == written * (-1i64),
    ;
    assert(product % 0x1_0000_0000_0000_0000 == 0x1_0000_0000_0000_0000 - written);
}

/// A decimal reads back: the text that a decimal with a mantissa of the
/// scanner is written as scans as that decimal, and all of it is taken,
/// whatever follows that is no digit.
pub proof fn lemma_decimal_reads_back(d: Decimal, rest: Seq<char>)
    requires
        !d.negative,
        d.mantissa <= MANTISSA_LIMIT * 10 + 9,
        rest.len() > 0 ==> !spec_is_digit(rest[0]),
    ensures
        number_scan(unsigned_decimal_text(d) + rest) == (
            Number::Floating(d),
            unsigned_decimal_text(d).len() as int,
        ),
{
    let mantissa = natural_text(d.mantissa as nat);
    let tail = seq!['e'] + integer_text(d.exponent as int) + rest;
    let text = unsigned_decimal_text(d) + rest;
    assert(text =~= mantissa + tail);
    assert(tail[0] == 'e');
    lemma_digit_run_of_natural(d.mantissa as nat, tail);
    lemma_mantissa_of_natural(d.mantissa as nat);
    lemma_decimal_of_prefix(text, mantissa, mantissa.len(), (0u64, 0i64), false);
    lemma_exponent_reads_back(d.exponent, rest);
    let after_whole = text.skip(mantissa.len() as int);
    assert(after_whole =~= tail);
    assert(fraction_scan(after_whole, (d.mantissa, 0i64)) == ((d.mantissa, 0i64), 0int, false));
    assert(text.skip(mantissa.len() as int + 0) =~= tail);
    assert(unsigned_decimal_text(d).len() == mantissa.len() + 1 + integer_text(
        d.exponent as int,
    ).len());
}

/// What a character is written as inside a string: with a backslash in front
/// of it if it is a double quote or a backslash.
pub open spec fn escaped_char(c: char) -> Seq<char> {
    if c == '"' || c == '\\' {
        seq!['\\', c]
    } else {
        seq![c]
    }
}

/// The escaped text of a text starts with the escaped first character.
pub proof fn lemma_escaped_front(text: Seq<char>)
    requires
        text.len() > 0,
    ensures
        escaped(text) == escaped_char(text[0]) + escaped(text.drop_first()),
    decreases text.len(),
{
    if text.len() == 1 {
        assert(text.drop_last() =~= Seq::<char>::empty());
        assert(text.drop_first() =~= Seq::<char>::empty());
        assert(escaped(Seq::<char>::empty()) =~= Seq::<char>::empty());
        assert(escaped(text) =~= escaped_char(text[0]) + escaped(text.drop_first()));
    } else {
        lemma_escaped_front(text.drop_last());
        assert(text.drop_last().drop_first() =~= text.drop_first().drop_last());
        assert(text.drop_first().last() == text.last());
        assert(text.drop_last()[0] == text[0]);
        assert(escaped(text) =~= escaped_char(text[0]) + escaped(text.drop_first()));
    }
}

/// A string reads back: the escaped text of a text, a double quote and
/// anything behind it scan as the text, up to and with the double quote.
pub proof fn lemma_string_reads_back(text: Seq<char>, rest: Seq<char>)
    ensures
        string_scan(escaped(text) + seq!['"'] + rest, seq!['"']) == (
            text,
            escaped(text).len() as int + 1,
        ),
    decreases text.len(),
{
    let ending = seq!['"'];
    let written = escaped(text) + ending + rest;
    if text.len() == 0 {
        assert(escaped(text) =~= Seq::<char>::empty());
        assert(written[0] == '"');
        assert(ending =~= written.subrange(0, 1));
        assert(ending.is_prefix_of(written));
        assert(string_scan(written, ending).0 =~= text);
    } else {
        let c = text[0];
        let tail = text.drop_first();
        lemma_escaped_front(text);
        lemma_string_reads_back(tail, rest);
        let rest_written = escaped(tail) + ending + rest;
        let head = escaped_char(c);
        assert(written =~= head + rest_written);
        assert(written[0] != '"');
        assert(!ending.is_prefix_of(written)) by {
            if ending.is_prefix_of(written) {
                assert(written.subrange(0, 1)[0] == ending[0]);
            }
        }
        if c == '"' || c == '\\' {
            assert(written[0] == '\\');
            assert(written.len() >= 2);
            assert(first_or_nul(written.skip(1)) == c);
            assert(written.skip(2) =~= rest_written);
            assert(crate::lexer::escape_text(c, '"') =~= seq![c]);
            assert(seq![c] + tail =~= text);
        } else {
            assert(written.skip(1) =~= rest_written);
            assert(seq![written[0]] + tail =~= text);
        }
    }
}

/// Every keyword and sign starts with a character that is no digit, no
/// double quote and no white space.
pub proof fn lemma_keyword_starts(text: Seq<char>)
    requires
        keyword(text) is Some,
    ensures
        text.len() >= 1,
        !spec_is_digit(text[0]),
        text[0] != '"',
        !spec_is_whitespace(text[0]),
{
    reveal_strlit("false");
    reveal_strlit("true");
    reveal_strlit("object");
    reveal_strlit("boolean");
    reveal_strlit("floating");
    reveal_strlit("integer");
    reveal_strlit("string");
    reveal_strlit("null");
    reveal_strlit("enum");
    reveal_strlit("-");
    reveal_strlit("+");
    reveal_strlit("#");
    reveal_strlit(";");
    reveal_strlit(":");
    reveal_strlit("..");
    reveal_strlit(",");
    reveal_strlit("=");
    reveal_strlit("]");
    reveal_strlit("[");
    reveal_strlit("}");
    reveal_strlit("{");
    reveal_strlit(")");
    reveal_strlit("(");
}

/// A text that starts with a digit starts with a number literal.
pub proof fn lemma_digit_starts_number(text: Seq<char>)
    requires
        text.len() > 0,
        spec_is_digit(text[0]),
    ensures
        lex_one(text) == (Lexeme::Token(number_token(number_scan(text).0)), number_scan(text).1),
{
    assert forall|n: int| !keyword_at(text, n) by {
        if keyword_at(text, n) {
            lemma_keyword_starts(text.take(n));
            assert(text.take(n)[0] == text[0]);
        }
    }
}

/// A text that starts with a double quote starts with a string literal.
pub proof fn lemma_quote_starts_string(text: Seq<char>)
    requires
        text.len() > 0,
        text[0] == '"',
    ensures
        lex_one(text) == (
            Lexeme::Token(TokenView::String(string_scan(text.skip(1), seq!['"']).0)),
            1 + string_scan(text.skip(1), seq!['"']).1,
        ),
{
    assert forall|n: int| !keyword_at(text, n) by {
        if keyword_at(text, n) {
            lemma_keyword_starts(text.take(n));
            assert(text.take(n)[0] == text[0]);
        }
    }
}

/// The stream of a text that holds a single token at its very start and
/// nothing else.
pub open spec fn single_token(token: TokenView) -> Result<Seq<TokenInfoView>, LexError> {
    Ok(
        seq![
            TokenInfoView {
                token: TokenView::Nil,
                position: (0usize, 0usize),
                literal: Seq::<char>::empty(),
            },
            TokenInfoView { token, position: (1usize, 1usize), literal: Seq::<char>::empty() },
        ],
    )
}

/// A text whose first lexeme is a token that takes all of it gives the
/// stream of that token alone.
pub proof fn lemma_lex_single(text: Seq<char>, token: TokenView)
    requires
        text.len() > 0,
        !spec_is_whitespace(text[0]),
        lex_one(text) == (Lexeme::Token(token), text.len() as int),
    ensures
        lex(text) == single_token(token),
{
    lemma_lex_step(text, (1, 1));
    assert(run_length(text, |c: char| spec_is_whitespace(c)) == 0);
    assert(text.skip(0) =~= text);
    assert(text.take(0) =~= Seq::<char>::empty());
    assert(walk_position((1, 1), Seq::<char>::empty()) == (1int, 1int));
    let rest = text.skip(text.len() as int);
    assert(rest.len() == 0);
    let behind = walk_position((1, 1), text.take(text.len() as int));
    lemma_lex_step(rest, behind);
    assert(run_length(rest, |c: char| spec_is_whitespace(c)) == 0);
    assert(rest.skip(0) =~= rest);
    assert(lex_from(rest, behind) == Ok::<Seq<TokenInfoView>, LexError>(Seq::empty()));
    let found = seq![
        TokenInfoView { token, position: (1usize, 1usize), literal: Seq::<char>::empty() },
    ];
    assert(found + Seq::<TokenInfoView>::empty() =~= found);
    assert(seq![
        TokenInfoView {
            token: TokenView::Nil,
            position: (0usize, 0usize),
            literal: Seq::<char>::empty(),
        },
    ] + found =~= single_token(token)->Ok_0);
}

/// Whole numbers lex back: the digits that a natural number is written with
/// are the text of one token, the number.
pub proof fn lemma_whole_number_lexes_back(n: nat)
    requires
        n <= i64::MAX + 1,
    ensures
        lex(natural_text(n)) == single_token(TokenView::Integer(scanned(n))),
{
    let text = natural_text(n);
    lemma_natural_text_is_digits(n);
    lemma_whole_number_reads_back(n, Seq::<char>::empty());
    assert(text + Seq::<char>::empty() =~= text);
    lemma_digit_starts_number(text);
    lemma_lex_single(text, TokenView::Integer(scanned(n)));
}

/// Decimals lex back: the text that a decimal with a mantissa of the scanner
/// is written as is the text of one token, the decimal.
pub proof fn lemma_decimal_lexes_back(d: Decimal)
    requires
        !d.negative,
        d.mantissa <= MANTISSA_LIMIT * 10 + 9,
    ensures
        lex(unsigned_decimal_text(d)) == single_token(TokenView::Floating(d)),
{
    let text = unsigned_decimal_text(d);
    lemma_natural_text_is_digits(d.mantissa as nat);
    lemma_decimal_reads_back(d, Seq::<char>::empty());
    assert(text + Seq::<char>::empty() =~= text);
    assert(text[0] == natural_text(d.mantissa as nat)[0]);
    lemma_digit_starts_number(text);
    lemma_lex_single(text, TokenView::Floating(d));
}

/// Strings lex back: a text between double quotes, written with its escapes,
/// is the text of one token, the string.
pub proof fn lemma_string_lexes_back(content: Seq<char>)
    ensures
        lex(quoted(content)) == single_token(TokenView::String(content)),
{
    let text = quoted(content);
    lemma_string_reads_back(content, Seq::<char>::empty());
    assert(text.skip(1) =~= escaped(content) + seq!['"'] + Seq::<char>::empty());
    assert(text[0] == '"');
    lemma_quote_starts_string(text);
    assert(text.len() == escaped(content).len() + 2);
    lemma_lex_single(text, TokenView::String(content));
}

/// Whether `c` is a small letter.
pub open spec fn is_small_letter(c: char) -> bool {
    'a' <= c && c <= 'z'
}

/// The keywords and signs are short; none holds white space, a digit, a
/// double quote or an underscore; and one that starts with a letter holds
/// nothing but small letters.
pub proof fn lemma_keyword_shape(text: Seq<char>)
    requires
        keyword(text) is Some,
    ensures
        1 <= text.len() <= 8,
        forall|i: int|
            0 <= i < text.len() ==> !spec_is_whitespace(#[trigger] text[i]) && !spec_is_digit(
                text[i],
            ) && text[i] != '"' && text[i] != '_',
        spec_is_ident(text[0]) ==> forall|i: int|
            0 <= i < text.len() ==> is_small_letter(#[trigger] text[i]),
        keyword(text) == Some(TokenView::Special(SpecialToken::Hash)) ==> text == seq!['#'],
{
    reveal_strlit("false");
    reveal_strlit("true");
    reveal_strlit("object");
    reveal_strlit("boolean");
    reveal_strlit("floating");
    reveal_strlit("integer");
    reveal_strlit("string");
    reveal_strlit("null");
    reveal_strlit("enum");
    reveal_strlit("-");
    reveal_strlit("+");
    reveal_strlit("#");
    reveal_strlit(";");
    reveal_strlit(":");
    reveal_strlit("..");
    reveal_strlit(",");
    reveal_strlit("=");
    reveal_strlit("]");
    reveal_strlit("[");
    reveal_strlit("}");
    reveal_strlit("{");
    reveal_strlit(")");
    reveal_strlit("(");
    if text == "#"@ {
        assert(text =~= seq!['#']);
    }
}

/// An identifier lexes back: a text that has the form of an identifier and
/// is no keyword is taken as one identifier, whatever follows that cannot
/// stand inside an identifier.
pub proof fn lemma_ident_lexes(name: Seq<char>, rest: Seq<char>)
    requires
        spec_is_ident_string(name),
        keyword(name) is None,
        rest.len() > 0 ==> !is_ident_part(rest[0]),
    ensures
        lex_one(name + rest) == (Lexeme::Token(TokenView::Ident(name)), name.len() as int),
{
    let text = name + rest;
    let accepts = |c: char| is_ident_part(c);
    assert(text[0] == name[0]);
    if exists|n: int| keyword_at(text, n) {
        let n = choose|n: int| keyword_at(text, n);
        let found = text.take(n);
        lemma_keyword_shape(found);
        assert(found[0] == text[0]);
        if n > name.len() {
            assert(found[name.len() as int] == rest[0]);
            assert(is_small_letter(found[name.len() as int]));
        }
        if n == name.len() {
            assert(found =~= name);
        }
        assert(n < name.len());
        assert forall|i: int| 1 <= i < found.len() implies is_ident_part(#[trigger] found[i]) by {
            assert(is_small_letter(found[i]));
        }
        assert(spec_is_ident_string(found));
        let behind = text.skip(n);
        assert(behind[0] == name[n]);
        assert(first_or_nul(behind) == name[n]);
        assert forall|i: int| 0 <= i < name.len() - n implies accepts(#[trigger] behind[i]) by {
            assert(behind[i] == name[n + i]);
        }
        if name.len() - n < behind.len() {
            assert(behind[name.len() - n] == rest[0]);
        }
        lemma_run_length(behind, accepts, name.len() - n);
        assert(found + behind.take(name.len() - n) =~= name);
    } else {
        assert forall|i: int| 0 <= i < name.len() implies accepts(#[trigger] text[i]) by {
            assert(text[i] == name[i]);
        }
        if name.len() < text.len() {
            assert(text[name.len() as int] == rest[0]);
        }
        lemma_run_length(text, accepts, name.len() as int);
        assert(text.take(name.len() as int) =~= name);
    }
}

/// A keyword or sign lexes back: the text of one, except `#`, is taken as
/// its token where white space or the end of the text follows, and for a
/// sign also where a digit follows.
pub proof fn lemma_keyword_lexes(word: Seq<char>, rest: Seq<char>)
    requires
        keyword(word) is Some,
        word[0] != '#',
        rest.len() > 0 ==> spec_is_whitespace(rest[0]) || (spec_is_digit(rest[0])
            && !spec_is_ident(word[0])),
    ensures
        lex_one(word + rest) == (Lexeme::Token(keyword(word)->0), word.len() as int),
{
    let text = word + rest;
    lemma_keyword_shape(word);
    assert(text.take(word.len() as int) =~= word);
    assert forall|m: int| word.len() < m <= text.len() implies (#[trigger] keyword(text.take(m)))
        is None by {
        if keyword(text.take(m)) is Some {
            lemma_keyword_shape(text.take(m));
            assert(text.take(m)[word.len() as int] == rest[0]);
        }
    }
    assert(keyword_at(text, word.len() as int));
    let n = choose|n: int| keyword_at(text, n);
    crate::lexer::lemma_keyword_at_unique(text, n, word.len() as int);
    let behind = text.skip(n);
    assert(behind =~= rest);
    if spec_is_ident_string(word) {
        assert(spec_is_ident(word[0]));
    }
}

/// A token with the position `pos` and no literal text.
pub open spec fn placed(token: TokenView, pos: (int, int)) -> TokenInfoView {
    TokenInfoView {
        token,
        position: (pos.0 as usize, pos.1 as usize),
        literal: Seq::<char>::empty(),
    }
}

/// The tokens of a stream without their positions.
pub open spec fn kinds(toks: Seq<TokenInfoView>) -> Seq<TokenView> {
    Seq::new(toks.len(), |i: int| toks[i].token)
}

/// Whether `text` lexes to tokens of the kinds `expected`, at whatever
/// position it starts.
#[verifier::opaque]
pub open spec fn reads_as(text: Seq<char>, expected: Seq<TokenView>) -> bool {
    forall|pos: (int, int)|
        (#[trigger] lex_from(text, pos)) matches Ok(toks) && kinds(toks) == expected
}

/// The end of a text gives no token.
pub proof fn lemma_reads_end()
    ensures
        reads_as(Seq::<char>::empty(), Seq::<TokenView>::empty()),
{
    reveal(reads_as);
    let text = Seq::<char>::empty();
    assert forall|pos: (int, int)|
        (#[trigger] lex_from(text, pos)) matches Ok(toks) && kinds(toks) == Seq::<
            TokenView,
        >::empty() by {
        lemma_lex_step(text, pos);
        assert(run_length(text, |c: char| spec_is_whitespace(c)) == 0);
        assert(text.skip(0) =~= text);
        assert(kinds(Seq::<TokenInfoView>::empty()) =~= Seq::<TokenView>::empty());
    }
}

/// A text that starts with a token gives that token in front of what the
/// rest of the text gives.
pub proof fn lemma_reads_token(text: Seq<char>, token: TokenView, used: int, more: Seq<TokenView>)
    requires
        0 < used <= text.len(),
        !spec_is_whitespace(text[0]),
        lex_one(text) == (Lexeme::Token(token), used),
        reads_as(text.skip(used), more),
    ensures
        reads_as(text, seq![token] + more),
{
    reveal(reads_as);
    assert forall|pos: (int, int)|
        (#[trigger] lex_from(text, pos)) matches Ok(toks) && kinds(toks) == seq![token]
            + more by {
        lemma_lex_step(text, pos);
        assert(run_length(text, |c: char| spec_is_whitespace(c)) == 0);
        assert(text.skip(0) =~= text);
        assert(text.take(0) =~= Seq::<char>::empty());
        assert(walk_position(pos, Seq::<char>::empty()) == pos);
        let behind = walk_position(pos, text.take(used));
        let rest = lex_from(text.skip(used), behind)->Ok_0;
        let all = seq![placed(token, pos)] + rest;
        assert(kinds(all) =~= seq![token] + more);
    }
}

/// A blank in front of a text gives what the text gives.
pub proof fn lemma_reads_blank(text: Seq<char>, more: Seq<TokenView>)
    requires
        text.len() > 0,
        text[0] == ' ',
        text.len() > 1 ==> !spec_is_whitespace(text[1]),
        reads_as(text.skip(1), more),
    ensures
        reads_as(text, more),
{
    reveal(reads_as);
    let blanks = |c: char| spec_is_whitespace(c);
    let rest = text.skip(1);
    crate::lexer::lemma_run_length(text, blanks, 1);
    assert(rest.len() > 0 ==> rest[0] == text[1]);
    crate::lexer::lemma_run_length(rest, blanks, 0);
    assert(rest.skip(0) =~= rest);
    assert(rest.take(0) =~= Seq::<char>::empty());
    assert(text.take(1).drop_last() =~= Seq::<char>::empty());
    assert forall|pos: (int, int)|
        (#[trigger] lex_from(text, pos)) matches Ok(toks) && kinds(toks) == more by {
        let behind = (pos.0, pos.1 + 1);
        assert(walk_position(pos, Seq::<char>::empty()) == pos);
        assert(walk_position(pos, text.take(1)) == step_position(pos, ' '));
        assert(walk_position(behind, Seq::<char>::empty()) == behind);
        lemma_lex_step(text, pos);
        lemma_lex_step(rest, behind);
        assert(lex_from(text, pos) == lex_from(rest, behind));
    }
}

/// A text that gives tokens wherever it starts lexes to the token in front
/// of every stream and these tokens.
pub proof fn lemma_reads_whole(text: Seq<char>, more: Seq<TokenView>)
    requires
        reads_as(text, more),
    ensures
        lex(text) matches Ok(toks) && toks.len() == 1 + more.len() && forall|i: int|
            0 <= i < more.len() ==> (#[trigger] toks[i + 1]).token == more[i],
{
    reveal(reads_as);
    let found = lex_from(text, (1, 1))->Ok_0;
    let first = TokenInfoView {
        token: TokenView::Nil,
        position: (0usize, 0usize),
        literal: Seq::<char>::empty(),
    };
    let toks = seq![first] + found;
    assert(lex(text) == Ok::<Seq<TokenInfoView>, LexError>(toks));
    assert(found.len() == kinds(found).len());
    assert forall|i: int| 0 <= i < more.len() implies (#[trigger] toks[i + 1]).token == more[i] by {
        assert(toks[i + 1] == found[i]);
        assert(kinds(found)[i] == found[i].token);
    }
}

/// A keyword or sign in front of a text gives its token in front of what the
/// text gives.
pub proof fn lemma_reads_word(word: Seq<char>, rest: Seq<char>, more: Seq<TokenView>)
    requires
        keyword(word) is Some,
        word[0] != '#',
        rest.len() > 0 ==> spec_is_whitespace(rest[0]) || (spec_is_digit(rest[0])
            && !spec_is_ident(word[0])),
        reads_as(rest, more),
    ensures
        reads_as(word + rest, seq![keyword(word)->0] + more),
{
    let text = word + rest;
    lemma_keyword_lexes(word, rest);
    lemma_keyword_shape(word);
    assert(text[0] == word[0]);
    assert(text.skip(word.len() as int) =~= rest);
    lemma_reads_token(text, keyword(word)->0, word.len() as int, more);
}

/// The digits of a natural number give the number.
pub proof fn lemma_reads_natural(n: nat)
    requires
        n <= i64::MAX + 1,
    ensures
        reads_as(natural_text(n), seq![TokenView::Integer(scanned(n))]),
{
    let digits = natural_text(n);
    let none = Seq::<char>::empty();
    lemma_natural_text_is_digits(n);
    lemma_whole_number_reads_back(n, none);
    assert(digits + none =~= digits);
    lemma_digit_starts_number(digits);
    assert(digits.skip(digits.len() as int) =~= none);
    lemma_reads_end();
    lemma_reads_token(
        digits,
        TokenView::Integer(scanned(n)),
        digits.len() as int,
        Seq::<TokenView>::empty(),
    );
    assert(seq![TokenView::Integer(scanned(n))] + Seq::<TokenView>::empty() =~= seq![
        TokenView::Integer(scanned(n)),
    ]);
}

/// The tokens that a number is written with: the number, behind a `-` if it
/// is below zero.
pub open spec fn integer_kinds(value: i64) -> Seq<TokenView> {
    if value < 0 {
        seq![TokenView::Special(SpecialToken::Minus), TokenView::Integer(scanned((-value) as nat))]
    } else {
        seq![TokenView::Integer(value)]
    }
}

/// A number lexes back from its text.
pub proof fn lemma_reads_integer(value: i64)
    ensures
        reads_as(integer_text(value as int), integer_kinds(value)),
        integer_text(value as int).len() > 0,
        !spec_is_whitespace(integer_text(value as int)[0]),
{
    if value < 0 {
        let size = (-value) as nat;
        let digits = natural_text(size);
        let sign = seq!['-'];
        lemma_minus_is_keyword();
        lemma_natural_text_is_digits(size);
        lemma_reads_natural(size);
        lemma_reads_word(sign, digits, seq![TokenView::Integer(scanned(size))]);
        assert(integer_text(value as int) =~= sign + digits);
        assert(seq![TokenView::Special(SpecialToken::Minus)] + seq![
            TokenView::Integer(scanned(size)),
        ] =~= integer_kinds(value));
        assert(integer_text(value as int)[0] == '-');
    } else {
        lemma_natural_text_is_digits(value as nat);
        lemma_reads_natural(value as nat);
    }
}

/// A value behind ` = ` lexes to `=` and the tokens of the value.
pub proof fn lemma_reads_assignment(value: Seq<char>, value_kinds: Seq<TokenView>)
    requires
        value.len() > 0,
        !spec_is_whitespace(value[0]),
        reads_as(value, value_kinds),
    ensures
        reads_as(
            seq![' ', '=', ' '] + value,
            seq![TokenView::Special(SpecialToken::Equal)] + value_kinds,
        ),
{
    let sign = seq!['='];
    let behind_sign = seq![' '] + value;
    lemma_equal_is_keyword();
    assert(behind_sign.skip(1) =~= value);
    assert(behind_sign[1] == value[0]);
    lemma_reads_blank(behind_sign, value_kinds);
    lemma_reads_word(sign, behind_sign, value_kinds);
    let tail = seq![' ', '=', ' '] + value;
    assert(tail =~= seq![' '] + (sign + behind_sign));
    assert(tail.skip(1) =~= sign + behind_sign);
    assert(tail[1] == '=');
    lemma_reads_blank(tail, seq![TokenView::Special(SpecialToken::Equal)] + value_kinds);
}

/// A declaration behind a name lexes to a colon, the type name and the
/// tokens of what follows the type name, which is nothing or starts with a
/// blank.
pub proof fn lemma_reads_declaration(word: Seq<char>, tail: Seq<char>, tail_kinds: Seq<TokenView>)
    requires
        keyword(word) is Some,
        word.len() > 0,
        word[0] != '#',
        !spec_is_whitespace(word[0]),
        tail.len() > 0 ==> tail[0] == ' ',
        reads_as(tail, tail_kinds),
    ensures
        reads_as(
            seq![':', ' '] + word + tail,
            seq![TokenView::Special(SpecialToken::Colon), keyword(word)->0] + tail_kinds,
        ),
{
    let colon = seq![':'];
    let from_word = word + tail;
    let behind_colon = seq![' '] + from_word;
    lemma_colon_is_keyword();
    lemma_reads_word(word, tail, tail_kinds);
    let type_kinds = seq![keyword(word)->0] + tail_kinds;
    assert(behind_colon.skip(1) =~= from_word);
    assert(behind_colon[1] == word[0]);
    lemma_reads_blank(behind_colon, type_kinds);
    lemma_reads_word(colon, behind_colon, type_kinds);
    assert(seq![':', ' '] + word + tail =~= colon + behind_colon);
    assert(seq![TokenView::Special(SpecialToken::Colon)] + type_kinds =~= seq![
        TokenView::Special(SpecialToken::Colon),
        keyword(word)->0,
    ] + tail_kinds);
}

/// Whether a name reads back from what it is written as in a schema: it is
/// not empty, and either it has the form of an identifier and is no keyword,
/// or it holds a character that asks for quotes.
pub open spec fn name_reads_back(name: Seq<char>) -> bool {
    &&& name.len() > 0
    &&& crate::to_schemer::spec_is_ident_string(name) ==> spec_is_ident_string(name) && keyword(
        name,
    ) is None
}

/// Whether the token is the name `name`: an identifier or a string.
pub open spec fn names(token: TokenView, name: Seq<char>) -> bool {
    token == TokenView::Ident(name) || token == TokenView::String(name)
}

/// The token that a name is written as.
pub open spec fn name_token(name: Seq<char>) -> TokenView {
    if crate::to_schemer::spec_is_ident_string(name) {
        TokenView::Ident(name)
    } else {
        TokenView::String(name)
    }
}

/// A name lexes back from what it is written as, in front of what the text
/// behind it gives, if that text starts with a colon.
pub proof fn lemma_reads_name(name: Seq<char>, rest: Seq<char>, more: Seq<TokenView>)
    requires
        name_reads_back(name),
        rest.len() > 0,
        rest[0] == ':',
        reads_as(rest, more),
    ensures
        reads_as(name_text(name) + rest, seq![name_token(name)] + more),
{
    let written = name_text(name);
    let text = written + rest;
    if crate::to_schemer::spec_is_ident_string(name) {
        lemma_ident_lexes(name, rest);
        assert(text[0] == name[0]);
        assert(text.skip(name.len() as int) =~= rest);
        lemma_reads_token(text, TokenView::Ident(name), name.len() as int, more);
    } else {
        lemma_string_reads_back(name, rest);
        assert(text[0] == '"');
        assert(text.skip(1) =~= escaped(name) + seq!['"'] + rest);
        lemma_quote_starts_string(text);
        assert(written.len() == escaped(name).len() + 2);
        assert(text.skip(written.len() as int) =~= rest);
        lemma_reads_token(text, TokenView::String(name), written.len() as int, more);
    }
}

/// What a field is written as lexes to the token in front of every stream,
/// the name, and the tokens of the declaration behind the name.
pub proof fn lemma_source_lexes(name: Seq<char>, declaration: Seq<char>, more: Seq<TokenView>)
    requires
        name_reads_back(name),
        declaration.len() > 0,
        declaration[0] == ':',
        reads_as(declaration, more),
    ensures
        lex(name_text(name) + declaration) matches Ok(toks) && toks.len() == 2 + more.len()
            && names(toks[1].token, name) && forall|i: int|
            0 <= i < more.len() ==> (#[trigger] toks[i + 2]).token == more[i],
{
    let all = seq![name_token(name)] + more;
    lemma_reads_name(name, declaration, more);
    lemma_reads_whole(name_text(name) + declaration, all);
    let toks = lex(name_text(name) + declaration)->Ok_0;
    assert(toks[0int + 1].token == all[0]);
    assert forall|i: int| 0 <= i < more.len() implies (#[trigger] toks[i + 2]).token == more[i] by {
        assert(toks[(i + 1) + 1].token == all[i + 1]);
    }
}

/// The start of a field parses: behind a name and a colon, the parser
/// stands at the type name.
pub proof fn lemma_field_head_parses(toks: Seq<TokenInfoView>, name: Seq<char>)
    requires
        toks.len() >= 4,
        names(toks[1].token, name),
        name.len() > 0,
        toks[2].token == TokenView::Special(SpecialToken::Colon),
    ensures
        field_parse(toks, start(toks)) == crate::grammar::lifted(
            typed_parse(toks, Cursor { current: 3, next: 4 }),
            |value: ElementView| FieldTypeView { value, name, opts: Seq::<OptionView>::empty() },
        ),
{
    reveal(options_parse);
    let at = start(toks);
    let at_name = Cursor { current: 1, next: 2 };
    assert(name_read(toks, at) == (true, name, at_name));
    assert(options_parse(toks, at_name) == Ok::<(Seq<OptionView>, Cursor), ParserErrorView>(
        (Seq::<OptionView>::empty(), at_name),
    ));
    let at_colon = Cursor { current: 2, next: 3 };
    assert(accept_special(toks, at_name, SpecialToken::Colon) == (true, at_colon));
    assert(step(toks, at_colon) == (Cursor { current: 3, next: 4 }));
}

/// The text `:` is the sign for a colon.
pub proof fn lemma_colon_is_keyword()
    ensures
        keyword(seq![':']) == Some(TokenView::Special(SpecialToken::Colon)),
{
    let text = seq![':'];
    reveal_strlit("false");
    reveal_strlit("true");
    reveal_strlit("object");
    reveal_strlit("boolean");
    reveal_strlit("floating");
    reveal_strlit("integer");
    reveal_strlit("string");
    reveal_strlit("null");
    reveal_strlit("enum");
    reveal_strlit("-");
    reveal_strlit("+");
    reveal_strlit("#");
    reveal_strlit(";");
    reveal_strlit(":");
    assert(text.len() == 1 && text[0] == ':');
    assert(text != "false"@ && text != "true"@ && text != "object"@ && text != "boolean"@);
    assert(text != "floating"@ && text != "integer"@ && text != "string"@ && text != "null"@);
    assert(text != "enum"@);
    assert("-"@[0] == '-' && "+"@[0] == '+' && "#"@[0] == '#' && ";"@[0] == ';');
    assert(text != "-"@ && text != "+"@ && text != "#"@ && text != ";"@);
    assert(text =~= ":"@);
}

/// The text `=` is the sign for an assignment.
pub proof fn lemma_equal_is_keyword()
    ensures
        keyword(seq!['=']) == Some(TokenView::Special(SpecialToken::Equal)),
{
    let text = seq!['='];
    reveal_strlit("false");
    reveal_strlit("true");
    reveal_strlit("object");
    reveal_strlit("boolean");
    reveal_strlit("floating");
    reveal_strlit("integer");
    reveal_strlit("string");
    reveal_strlit("null");
    reveal_strlit("enum");
    reveal_strlit("-");
    reveal_strlit("+");
    reveal_strlit("#");
    reveal_strlit(";");
    reveal_strlit(":");
    reveal_strlit("..");
    reveal_strlit(",");
    reveal_strlit("=");
    assert(text.len() == 1 && text[0] == '=');
    assert(text != "false"@ && text != "true"@ && text != "object"@ && text != "boolean"@);
    assert(text != "floating"@ && text != "integer"@ && text != "string"@ && text != "null"@);
    assert(text != "enum"@ && text != ".."@);
    assert("-"@[0] == '-' && "+"@[0] == '+' && "#"@[0] == '#' && ";"@[0] == ';');
    assert(":"@[0] == ':' && ","@[0] == ',');
    assert(text != "-"@ && text != "+"@ && text != "#"@ && text != ";"@);
    assert(text != ":"@ && text != ","@);
    assert(text =~= "="@);
}

/// The text `-` is the sign for a minus.
pub proof fn lemma_minus_is_keyword()
    ensures
        keyword(seq!['-']) == Some(TokenView::Special(SpecialToken::Minus)),
{
    let text = seq!['-'];
    reveal_strlit("false");
    reveal_strlit("true");
    reveal_strlit("object");
    reveal_strlit("boolean");
    reveal_strlit("floating");
    reveal_strlit("integer");
    reveal_strlit("string");
    reveal_strlit("null");
    reveal_strlit("enum");
    reveal_strlit("-");
    assert(text.len() == 1 && text[0] == '-');
    assert(text != "false"@ && text != "true"@ && text != "object"@ && text != "boolean"@);
    assert(text != "floating"@ && text != "integer"@ && text != "string"@ && text != "null"@);
    assert(text != "enum"@);
    assert(text =~= "-"@);
}

/// The text `integer` is the name of the integer type.
pub proof fn lemma_integer_is_keyword()
    ensures
        keyword("integer"@) == Some(TokenView::Type(TypeName::TypeInteger)),
        "integer"@.len() == 7,
        "integer"@[0] == 'i',
{
    let text = "integer"@;
    reveal_strlit("false");
    reveal_strlit("true");
    reveal_strlit("object");
    reveal_strlit("boolean");
    reveal_strlit("floating");
    reveal_strlit("integer");
    assert(text.len() == 7 && text[0] == 'i');
    assert("boolean"@[0] == 'b');
    assert(text != "false"@ && text != "true"@ && text != "object"@ && text != "boolean"@);
    assert(text != "floating"@);
}

/// An integer field without bounds, enumeration and options, that holds a
/// single number.
pub open spec fn plain_integer_field(name: Seq<char>, value: i64) -> FieldTypeView {
    FieldTypeView {
        value: ElementView::Integer(
            NumberTypeView {
                value: PossibleSeq::Value(value),
                bounds: (None, None),
                enum_values: None,
            },
        ),
        name,
        opts: Seq::<OptionView>::empty(),
    }
}

/// The start of the declaration of an integer field parses: behind a name,
/// a colon and the type name, the parser stands at the value with a fresh
/// field, if no bracket, number, `..` or `enum` follows.
pub proof fn lemma_integer_head_parses(toks: Seq<TokenInfoView>, name: Seq<char>)
    requires
        toks.len() >= 4,
        names(toks[1].token, name),
        name.len() > 0,
        toks[2].token == TokenView::Special(SpecialToken::Colon),
        toks[3].token == TokenView::Type(TypeName::TypeInteger),
        toks.len() == 4 || toks[4].token == TokenView::Special(SpecialToken::Equal),
    ensures
        field_parse(toks, start(toks)) == crate::grammar::lifted(
            assigned_read::<IntegerType>(
                IntegerType::fresh(),
                toks,
                Cursor { current: 3, next: 4 },
            ),
            |value: NumberTypeView<i64>|
                FieldTypeView {
                    value: ElementView::Integer(value),
                    name,
                    opts: Seq::<OptionView>::empty(),
                },
        ),
{
    reveal(options_parse);
    reveal(number_parse);
    reveal(begin_read);
    reveal(interval_read);
    reveal(enum_read);
    let at = start(toks);
    let at_name = Cursor { current: 1, next: 2 };
    assert(name_read(toks, at) == (true, name, at_name));
    assert(options_parse(toks, at_name) == Ok::<(Seq<OptionView>, Cursor), ParserErrorView>(
        (Seq::<OptionView>::empty(), at_name),
    ));
    let at_colon = Cursor { current: 2, next: 3 };
    assert(accept_special(toks, at_name, SpecialToken::Colon) == (true, at_colon));
    let at_type = Cursor { current: 3, next: 4 };
    assert(step(toks, at_colon) == at_type);
    let fresh = IntegerType::fresh();
    assert(begin_read::<IntegerType>(fresh, toks, at_type) == Ok::<
        (NumberTypeView<i64>, Cursor),
        ParserErrorView,
    >((fresh, at_type)));
    assert(!accept_value::<IntegerType>(toks, at_type).0);
    assert(interval_read::<IntegerType>(fresh, toks, at_type) == Ok::<
        (bool, NumberTypeView<i64>, Cursor),
        ParserErrorView,
    >((false, fresh, at_type)));
    assert(enum_read::<IntegerType>(fresh, toks, at_type) == Ok::<
        (bool, NumberTypeView<i64>, Cursor),
        ParserErrorView,
    >((false, fresh, at_type)));
    assert(constraints_read::<IntegerType>(fresh, toks, at_type) == Ok::<
        (NumberTypeView<i64>, Cursor),
        ParserErrorView,
    >((fresh, at_type)));
    assert(number_parse::<IntegerType>(toks, at_type) == assigned_read::<IntegerType>(
        fresh,
        toks,
        at_type,
    ));
}

/// An integer field parses from its tokens: a name, a colon, the type name
/// and, unless the field holds zero, `=` and the number, with a `-` in front
/// of a number below zero.
pub proof fn lemma_integer_field_parses(toks: Seq<TokenInfoView>, name: Seq<char>, value: i64)
    requires
        name.len() > 0,
        toks.len() == (if value == 0 {
            4int
        } else if value > 0 {
            6int
        } else {
            7int
        }),
        names(toks[1].token, name),
        toks[2].token == TokenView::Special(SpecialToken::Colon),
        toks[3].token == TokenView::Type(TypeName::TypeInteger),
        value != 0 ==> toks[4].token == TokenView::Special(SpecialToken::Equal),
        value > 0 ==> toks[5].token == TokenView::Integer(value),
        value < 0 ==> toks[5].token == TokenView::Special(SpecialToken::Minus) && toks[6].token
            == TokenView::Integer(scanned((-value) as nat)),
    ensures
        field_parse(toks, start(toks)) matches Ok((field, _)) && field == plain_integer_field(
            name,
            value,
        ),
{
    lemma_integer_head_parses(toks, name);
    reveal(assigned_read);
    reveal(literal_read);
    let at_type = Cursor { current: 3, next: 4 };
    let fresh = IntegerType::fresh();
    if value == 0 {
        assert(!accept_assign(toks, at_type).0);
    } else {
        let at_equal = Cursor { current: 4, next: 5 };
        assert(accept_assign(toks, at_type) == (true, at_equal));
        let at_value = Cursor { current: 5, next: 6 };
        assert(accept_value::<IntegerType>(toks, at_equal) == (true, at_value));
        if value > 0 {
            assert(sign_read(toks, at_value) == (false, at_value));
            assert(integer_value_read(fresh, toks, at_value) == Ok::<
                (NumberTypeView<i64>, Cursor),
                ParserErrorView,
            >((NumberTypeView { value: PossibleSeq::Value(value), ..fresh }, at_value)));
        } else {
            let at_number = Cursor { current: 6, next: 7 };
            assert(sign_read(toks, at_value) == (true, at_number));
            lemma_negation_of_scanned(value);
            assert(integer_value_read(fresh, toks, at_value) == Ok::<
                (NumberTypeView<i64>, Cursor),
                ParserErrorView,
            >((NumberTypeView { value: PossibleSeq::Value(value), ..fresh }, at_number)));
        }
    }
}


/// What follows the type name of an integer field that holds `value`:
/// nothing for zero, else ` = ` and the number.
pub open spec fn integer_tail(value: i64) -> Seq<char> {
    if value == 0 {
        Seq::<char>::empty()
    } else {
        seq![' ', '=', ' '] + integer_text(value as int)
    }
}

/// The tokens of what follows the type name of an integer field.
pub open spec fn integer_tail_kinds(value: i64) -> Seq<TokenView> {
    if value == 0 {
        Seq::<TokenView>::empty()
    } else {
        seq![TokenView::Special(SpecialToken::Equal)] + integer_kinds(value)
    }
}

/// The declaration of an integer field behind its name: `: integer` and the
/// value.
pub open spec fn integer_declaration(value: i64) -> Seq<char> {
    seq![':', ' '] + "integer"@ + integer_tail(value)
}

/// The tokens that the declaration of an integer field is written with.
pub open spec fn integer_declaration_kinds(value: i64) -> Seq<TokenView> {
    seq![TokenView::Special(SpecialToken::Colon), TokenView::Type(TypeName::TypeInteger)]
        + integer_tail_kinds(value)
}

/// The declaration of an integer field lexes back.
pub proof fn lemma_reads_integer_declaration(value: i64)
    ensures
        reads_as(integer_declaration(value), integer_declaration_kinds(value)),
        integer_declaration(value).len() > 0,
        integer_declaration(value)[0] == ':',
{
    lemma_integer_is_keyword();
    if value == 0 {
        lemma_reads_end();
    } else {
        lemma_reads_integer(value);
        lemma_reads_assignment(integer_text(value as int), integer_kinds(value));
    }
    lemma_reads_declaration("integer"@, integer_tail(value), integer_tail_kinds(value));
}

/// The shape of a stream that holds the declaration of an integer field
/// behind a name.
pub proof fn lemma_integer_stream_shape(toks: Seq<TokenInfoView>, value: i64)
    requires
        toks.len() == 2 + integer_declaration_kinds(value).len(),
        forall|i: int|
            0 <= i < integer_declaration_kinds(value).len() ==> (#[trigger] toks[i + 2]).token
                == integer_declaration_kinds(value)[i],
    ensures
        toks.len() == (if value == 0 {
            4int
        } else if value > 0 {
            6int
        } else {
            7int
        }),
        toks[2].token == TokenView::Special(SpecialToken::Colon),
        toks[3].token == TokenView::Type(TypeName::TypeInteger),
        value != 0 ==> toks[4].token == TokenView::Special(SpecialToken::Equal),
        value > 0 ==> toks[5].token == TokenView::Integer(value),
        value < 0 ==> toks[5].token == TokenView::Special(SpecialToken::Minus) && toks[6].token
            == TokenView::Integer(scanned((-value) as nat)),
{
    let more = integer_declaration_kinds(value);
    assert(toks[0int + 2].token == more[0]);
    assert(toks[1int + 2].token == more[1]);
    if value != 0 {
        assert(toks[2int + 2].token == more[2]);
        assert(toks[3int + 2].token == more[3]);
        if value < 0 {
            assert(toks[4int + 2].token == more[4]);
        }
    }
}

/// What an integer field is written as lexes to a stream that parses to the
/// field.
pub proof fn lemma_integer_source_comes_back(name: Seq<char>, value: i64)
    requires
        name_reads_back(name),
    ensures
        lex(name_text(name) + integer_declaration(value)) matches Ok(toks) && field_parse(
            toks,
            start(toks),
        ) matches Ok((field, _)) && field == plain_integer_field(name, value),
{
    lemma_reads_integer_declaration(value);
    lemma_source_lexes(name, integer_declaration(value), integer_declaration_kinds(value));
    let toks = lex(name_text(name) + integer_declaration(value))->Ok_0;
    lemma_integer_stream_shape(toks, value);
    lemma_integer_field_parses(toks, name, value);
}

/// What an integer field without bounds, enumeration and options is written
/// as: the name, `: integer`, and ` = ` with the number unless it is zero.
pub proof fn lemma_integer_field_text(name: Seq<char>, value: i64, width: nat)
    ensures
        field_text(layout(width), plain_integer_field(name, value), Seq::<char>::empty())
            == name_text(name) + integer_declaration(value),
{
    let format = layout(width);
    let field = plain_integer_field(name, value);
    let none = Seq::<char>::empty();
    reveal_strlit("");
    reveal_strlit(" = ");
    assert(""@ =~= none);
    assert(" = "@ =~= seq![' ', '=', ' ']);
    let number = field.value->Integer_0;
    assert(crate::to_schemer::number_type_text(format, number, none) =~= "integer"@);
    assert(crate::to_schemer::holds_default(field.value) == (value == 0));
    assert(crate::to_schemer::value_text(format, field.value, none) == integer_text(value as int));
    assert(crate::to_schemer::options_text(format, field.opts, none) =~= none);
    assert(field_text(format, field, none) =~= name_text(name) + integer_declaration(value));
}

/// Integer fields come back: what an integer field without bounds,
/// enumeration and options is written as, with whatever width of
/// indentation, lexes to a stream that parses to the same field, if the name
/// of the field reads back.
pub proof fn lemma_integer_field_comes_back(name: Seq<char>, value: i64, width: nat)
    requires
        name_reads_back(name),
    ensures
        lex(field_text(layout(width), plain_integer_field(name, value), Seq::<char>::empty()))
            matches Ok(toks) && field_parse(toks, start(toks)) matches Ok((field, _)) && field
            == plain_integer_field(name, value),
{
    lemma_integer_field_text(name, value, width);
    lemma_integer_source_comes_back(name, value);
}

/// A boolean field without options that holds a single value.
pub open spec fn plain_boolean_field(name: Seq<char>, value: bool) -> FieldTypeView {
    FieldTypeView {
        value: ElementView::Boolean(BooleanTypeView { value: PossibleSeq::Value(value) }),
        name,
        opts: Seq::<OptionView>::empty(),
    }
}

/// The words that the declaration of a boolean field is written with.
pub proof fn lemma_boolean_keywords()
    ensures
        keyword("boolean"@) == Some(TokenView::Type(TypeName::TypeBoolean)),
        keyword("true"@) == Some(TokenView::Boolean(true)),
        "true"@.len() == 4,
        "true"@[0] == 't',
        "boolean"@.len() == 7,
        "boolean"@[0] == 'b',
{
    reveal_strlit("false");
    reveal_strlit("true");
    reveal_strlit("object");
    reveal_strlit("boolean");
    assert("object"@.len() == 6 && "false"@.len() == 5 && "true"@.len() == 4 && "boolean"@.len()
        == 7);
    assert("true"@ != "false"@);
    assert("boolean"@ != "false"@ && "boolean"@ != "true"@ && "boolean"@ != "object"@);
}

/// What follows the type name of a boolean field: nothing for `false`, else
/// ` = true`.
pub open spec fn boolean_tail(value: bool) -> Seq<char> {
    if value {
        seq![' ', '=', ' '] + "true"@
    } else {
        Seq::<char>::empty()
    }
}

/// The tokens of what follows the type name of a boolean field.
pub open spec fn boolean_tail_kinds(value: bool) -> Seq<TokenView> {
    if value {
        seq![TokenView::Special(SpecialToken::Equal)] + seq![TokenView::Boolean(true)]
    } else {
        Seq::<TokenView>::empty()
    }
}

/// The declaration of a boolean field behind its name: `: boolean` and the
/// value.
pub open spec fn boolean_declaration(value: bool) -> Seq<char> {
    seq![':', ' '] + "boolean"@ + boolean_tail(value)
}

/// The tokens that the declaration of a boolean field is written with.
pub open spec fn boolean_declaration_kinds(value: bool) -> Seq<TokenView> {
    seq![TokenView::Special(SpecialToken::Colon), TokenView::Type(TypeName::TypeBoolean)]
        + boolean_tail_kinds(value)
}

/// The declaration of a boolean field lexes back.
pub proof fn lemma_reads_boolean_declaration(value: bool)
    ensures
        reads_as(boolean_declaration(value), boolean_declaration_kinds(value)),
        boolean_declaration(value).len() > 0,
        boolean_declaration(value)[0] == ':',
{
    lemma_boolean_keywords();
    lemma_reads_end();
    if value {
        let word = "true"@;
        let none = Seq::<char>::empty();
        lemma_reads_word(word, none, Seq::<TokenView>::empty());
        assert(word + none =~= word);
        assert(seq![TokenView::Boolean(true)] + Seq::<TokenView>::empty() =~= seq![
            TokenView::Boolean(true),
        ]);
        lemma_reads_assignment(word, seq![TokenView::Boolean(true)]);
    }
    lemma_reads_declaration("boolean"@, boolean_tail(value), boolean_tail_kinds(value));
}

/// A boolean field parses from its tokens: a name, a colon, the type name
/// and, if the field holds `true`, `=` and `true`.
pub proof fn lemma_boolean_field_parses(toks: Seq<TokenInfoView>, name: Seq<char>, value: bool)
    requires
        name.len() > 0,
        toks.len() == (if value {
            6int
        } else {
            4int
        }),
        names(toks[1].token, name),
        toks[2].token == TokenView::Special(SpecialToken::Colon),
        toks[3].token == TokenView::Type(TypeName::TypeBoolean),
        value ==> toks[4].token == TokenView::Special(SpecialToken::Equal) && toks[5].token
            == TokenView::Boolean(true),
    ensures
        field_parse(toks, start(toks)) matches Ok((field, _)) && field == plain_boolean_field(
            name,
            value,
        ),
{
    lemma_field_head_parses(toks, name);
    reveal(boolean_parse);
    reveal(begin_read);
    reveal(assigned_read);
    reveal(literal_read);
    let at_type = Cursor { current: 3, next: 4 };
    let fresh = BooleanType::fresh();
    assert(begin_read::<BooleanType>(fresh, toks, at_type) == Ok::<
        (BooleanTypeView, Cursor),
        ParserErrorView,
    >((fresh, at_type)));
    if value {
        let at_equal = Cursor { current: 4, next: 5 };
        assert(accept_assign(toks, at_type) == (true, at_equal));
        let at_value = Cursor { current: 5, next: 6 };
        assert(accept_value::<BooleanType>(toks, at_equal) == (true, at_value));
        assert(boolean_value_read(fresh, toks, at_value) == Ok::<
            (BooleanTypeView, Cursor),
            ParserErrorView,
        >((BooleanTypeView { value: PossibleSeq::Value(true) }, at_value)));
    } else {
        assert(!accept_assign(toks, at_type).0);
    }
}

/// The shape of a stream that holds the declaration of a boolean field
/// behind a name.
pub proof fn lemma_boolean_stream_shape(toks: Seq<TokenInfoView>, value: bool)
    requires
        toks.len() == 2 + boolean_declaration_kinds(value).len(),
        forall|i: int|
            0 <= i < boolean_declaration_kinds(value).len() ==> (#[trigger] toks[i + 2]).token
                == boolean_declaration_kinds(value)[i],
    ensures
        toks.len() == (if value {
            6int
        } else {
            4int
        }),
        toks[2].token == TokenView::Special(SpecialToken::Colon),
        toks[3].token == TokenView::Type(TypeName::TypeBoolean),
        value ==> toks[4].token == TokenView::Special(SpecialToken::Equal) && toks[5].token
            == TokenView::Boolean(true),
{
    let more = boolean_declaration_kinds(value);
    assert(toks[0int + 2].token == more[0]);
    assert(toks[1int + 2].token == more[1]);
    if value {
        assert(toks[2int + 2].token == more[2]);
        assert(toks[3int + 2].token == more[3]);
    }
}

/// What a boolean field is written as lexes to a stream that parses to the
/// field.
pub proof fn lemma_boolean_source_comes_back(name: Seq<char>, value: bool)
    requires
        name_reads_back(name),
    ensures
        lex(name_text(name) + boolean_declaration(value)) matches Ok(toks) && field_parse(
            toks,
            start(toks),
        ) matches Ok((field, _)) && field == plain_boolean_field(name, value),
{
    lemma_reads_boolean_declaration(value);
    lemma_source_lexes(name, boolean_declaration(value), boolean_declaration_kinds(value));
    let toks = lex(name_text(name) + boolean_declaration(value))->Ok_0;
    lemma_boolean_stream_shape(toks, value);
    lemma_boolean_field_parses(toks, name, value);
}

/// What a boolean field without options is written as: the name,
/// `: boolean`, and ` = true` if it holds `true`.
pub proof fn lemma_boolean_field_text(name: Seq<char>, value: bool, width: nat)
    ensures
        field_text(layout(width), plain_boolean_field(name, value), Seq::<char>::empty())
            == name_text(name) + boolean_declaration(value),
{
    let format = layout(width);
    let field = plain_boolean_field(name, value);
    let none = Seq::<char>::empty();
    reveal_strlit("");
    reveal_strlit(" = ");
    assert(""@ =~= none);
    assert(" = "@ =~= seq![' ', '=', ' ']);
    assert(crate::to_schemer::type_text(format, field.value, none) =~= "boolean"@);
    assert(crate::to_schemer::holds_default(field.value) == !value);
    assert(crate::to_schemer::value_text(format, field.value, none) == value.text());
    assert(crate::to_schemer::options_text(format, field.opts, none) =~= none);
    assert(field_text(format, field, none) =~= name_text(name) + boolean_declaration(value));
}

/// Boolean fields come back: what a boolean field without options is
/// written as, with whatever width of indentation, lexes to a stream that
/// parses to the same field, if the name of the field reads back.
pub proof fn lemma_boolean_field_comes_back(name: Seq<char>, value: bool, width: nat)
    requires
        name_reads_back(name),
    ensures
        lex(field_text(layout(width), plain_boolean_field(name, value), Seq::<char>::empty()))
            matches Ok(toks) && field_parse(toks, start(toks)) matches Ok((field, _)) && field
            == plain_boolean_field(name, value),
{
    lemma_boolean_field_text(name, value, width);
    lemma_boolean_source_comes_back(name, value);
}

/// A string field without enumeration and options that holds a single text.
pub open spec fn plain_string_field(name: Seq<char>, value: Seq<char>) -> FieldTypeView {
    FieldTypeView {
        value: ElementView::String(
            StringTypeView { value: PossibleSeq::Value(value), enum_values: None },
        ),
        name,
        opts: Seq::<OptionView>::empty(),
    }
}

/// The text `string` is the name of the string type.
pub proof fn lemma_string_is_keyword()
    ensures
        keyword("string"@) == Some(TokenView::Type(TypeName::TypeString)),
        "string"@.len() == 6,
        "string"@[0] == 's',
{
    let text = "string"@;
    reveal_strlit("false");
    reveal_strlit("true");
    reveal_strlit("object");
    reveal_strlit("boolean");
    reveal_strlit("floating");
    reveal_strlit("integer");
    reveal_strlit("string");
    assert(text.len() == 6 && text[0] == 's');
    assert("object"@[0] == 'o');
    assert(text != "false"@ && text != "true"@ && text != "object"@ && text != "boolean"@);
    assert(text != "floating"@ && text != "integer"@);
}

/// A text between double quotes, written with its escapes, gives the string.
pub proof fn lemma_reads_quoted(content: Seq<char>)
    ensures
        reads_as(quoted(content), seq![TokenView::String(content)]),
        quoted(content).len() > 0,
        quoted(content)[0] == '"',
{
    let text = quoted(content);
    let none = Seq::<char>::empty();
    lemma_string_reads_back(content, none);
    assert(text.skip(1) =~= escaped(content) + seq!['"'] + none);
    assert(text[0] == '"');
    lemma_quote_starts_string(text);
    assert(text.len() == escaped(content).len() + 2);
    assert(text.skip(text.len() as int) =~= none);
    lemma_reads_end();
    lemma_reads_token(
        text,
        TokenView::String(content),
        text.len() as int,
        Seq::<TokenView>::empty(),
    );
    assert(seq![TokenView::String(content)] + Seq::<TokenView>::empty() =~= seq![
        TokenView::String(content),
    ]);
}

/// What follows the type name of a string field: nothing for the empty text,
/// else ` = ` and the text between double quotes.
pub open spec fn string_tail(value: Seq<char>) -> Seq<char> {
    if value.len() == 0 {
        Seq::<char>::empty()
    } else {
        seq![' ', '=', ' '] + quoted(value)
    }
}

/// The tokens of what follows the type name of a string field.
pub open spec fn string_tail_kinds(value: Seq<char>) -> Seq<TokenView> {
    if value.len() == 0 {
        Seq::<TokenView>::empty()
    } else {
        seq![TokenView::Special(SpecialToken::Equal)] + seq![TokenView::String(value)]
    }
}

/// The declaration of a string field behind its name: `: string` and the
/// value.
pub open spec fn string_declaration(value: Seq<char>) -> Seq<char> {
    seq![':', ' '] + "string"@ + string_tail(value)
}

/// The tokens that the declaration of a string field is written with.
pub open spec fn string_declaration_kinds(value: Seq<char>) -> Seq<TokenView> {
    seq![TokenView::Special(SpecialToken::Colon), TokenView::Type(TypeName::TypeString)]
        + string_tail_kinds(value)
}

/// The declaration of a string field lexes back.
pub proof fn lemma_reads_string_declaration(value: Seq<char>)
    ensures
        reads_as(string_declaration(value), string_declaration_kinds(value)),
        string_declaration(value).len() > 0,
        string_declaration(value)[0] == ':',
{
    lemma_string_is_keyword();
    if value.len() == 0 {
        lemma_reads_end();
    } else {
        lemma_reads_quoted(value);
        lemma_reads_assignment(quoted(value), seq![TokenView::String(value)]);
    }
    lemma_reads_declaration("string"@, string_tail(value), string_tail_kinds(value));
}

/// A string field parses from its tokens: a name, a colon, the type name
/// and, unless the field holds the empty text, `=` and the string.
pub proof fn lemma_string_field_parses(toks: Seq<TokenInfoView>, name: Seq<char>, value: Seq<char>)
    requires
        name.len() > 0,
        toks.len() == (if value.len() == 0 {
            4int
        } else {
            6int
        }),
        names(toks[1].token, name),
        toks[2].token == TokenView::Special(SpecialToken::Colon),
        toks[3].token == TokenView::Type(TypeName::TypeString),
        value.len() > 0 ==> toks[4].token == TokenView::Special(SpecialToken::Equal)
            && toks[5].token == TokenView::String(value),
    ensures
        field_parse(toks, start(toks)) matches Ok((field, _)) && field == plain_string_field(
            name,
            value,
        ),
{
    lemma_field_head_parses(toks, name);
    reveal(string_parse);
    reveal(begin_read);
    reveal(enum_read);
    reveal(assigned_read);
    reveal(literal_read);
    let at_type = Cursor { current: 3, next: 4 };
    let fresh = StringType::fresh();
    assert(begin_read::<StringType>(fresh, toks, at_type) == Ok::<
        (StringTypeView, Cursor),
        ParserErrorView,
    >((fresh, at_type)));
    assert(enum_read::<StringType>(fresh, toks, at_type) == Ok::<
        (bool, StringTypeView, Cursor),
        ParserErrorView,
    >((false, fresh, at_type)));
    if value.len() > 0 {
        let at_equal = Cursor { current: 4, next: 5 };
        assert(accept_assign(toks, at_type) == (true, at_equal));
        let at_value = Cursor { current: 5, next: 6 };
        assert(accept_value::<StringType>(toks, at_equal) == (true, at_value));
        assert(string_value_read(fresh, toks, at_value) == Ok::<
            (StringTypeView, Cursor),
            ParserErrorView,
        >((StringTypeView { value: PossibleSeq::Value(value), ..fresh }, at_value)));
    } else {
        assert(!accept_assign(toks, at_type).0);
        assert(fresh.value == PossibleSeq::Value(value)) by {
            assert(value =~= Seq::<char>::empty());
        }
    }
}

/// The shape of a stream that holds the declaration of a string field behind
/// a name.
pub proof fn lemma_string_stream_shape(toks: Seq<TokenInfoView>, value: Seq<char>)
    requires
        toks.len() == 2 + string_declaration_kinds(value).len(),
        forall|i: int|
            0 <= i < string_declaration_kinds(value).len() ==> (#[trigger] toks[i + 2]).token
                == string_declaration_kinds(value)[i],
    ensures
        toks.len() == (if value.len() == 0 {
            4int
        } else {
            6int
        }),
        toks[2].token == TokenView::Special(SpecialToken::Colon),
        toks[3].token == TokenView::Type(TypeName::TypeString),
        value.len() > 0 ==> toks[4].token == TokenView::Special(SpecialToken::Equal)
            && toks[5].token == TokenView::String(value),
{
    let more = string_declaration_kinds(value);
    assert(toks[0int + 2].token == more[0]);
    assert(toks[1int + 2].token == more[1]);
    if value.len() > 0 {
        assert(toks[2int + 2].token == more[2]);
        assert(toks[3int + 2].token == more[3]);
    }
}

/// What a string field is written as lexes to a stream that parses to the
/// field.
pub proof fn lemma_string_source_comes_back(name: Seq<char>, value: Seq<char>)
    requires
        name_reads_back(name),
    ensures
        lex(name_text(name) + string_declaration(value)) matches Ok(toks) && field_parse(
            toks,
            start(toks),
        ) matches Ok((field, _)) && field == plain_string_field(name, value),
{
    lemma_reads_string_declaration(value);
    lemma_source_lexes(name, string_declaration(value), string_declaration_kinds(value));
    let toks = lex(name_text(name) + string_declaration(value))->Ok_0;
    lemma_string_stream_shape(toks, value);
    lemma_string_field_parses(toks, name, value);
}

/// What a string field without enumeration and options is written as: the
/// name, `: string`, and ` = ` with the text between double quotes unless it
/// is empty.
pub proof fn lemma_string_field_text(name: Seq<char>, value: Seq<char>, width: nat)
    ensures
        field_text(layout(width), plain_string_field(name, value), Seq::<char>::empty())
            == name_text(name) + string_declaration(value),
{
    let format = layout(width);
    let field = plain_string_field(name, value);
    let none = Seq::<char>::empty();
    reveal_strlit("");
    reveal_strlit(" = ");
    assert(""@ =~= none);
    assert(" = "@ =~= seq![' ', '=', ' ']);
    assert(crate::to_schemer::type_text(format, field.value, none) =~= "string"@);
    assert(crate::to_schemer::holds_default(field.value) == (value.len() == 0));
    assert(crate::to_schemer::value_text(format, field.value, none) == quoted(value));
    assert(crate::to_schemer::options_text(format, field.opts, none) =~= none);
    assert(field_text(format, field, none) =~= name_text(name) + string_declaration(value));
}

/// String fields come back: what a string field without enumeration and
/// options is written as, with whatever width of indentation, lexes to a
/// stream that parses to the same field, if the name of the field reads
/// back.
pub proof fn lemma_string_field_comes_back(name: Seq<char>, value: Seq<char>, width: nat)
    requires
        name_reads_back(name),
    ensures
        lex(field_text(layout(width), plain_string_field(name, value), Seq::<char>::empty()))
            matches Ok(toks) && field_parse(toks, start(toks)) matches Ok((field, _)) && field
            == plain_string_field(name, value),
{
    lemma_string_field_text(name, value, width);
    lemma_string_source_comes_back(name, value);
}

/// A floating field without bounds, enumeration and options, that holds a
/// single number.
pub open spec fn plain_floating_field(name: Seq<char>, value: Decimal) -> FieldTypeView {
    FieldTypeView {
        value: ElementView::Floating(
            NumberTypeView {
                value: PossibleSeq::Value(value),
                bounds: (None, None),
                enum_values: None,
            },
        ),
        name,
        opts: Seq::<OptionView>::empty(),
    }
}

/// Whether a decimal reads back from what it is written as: its mantissa is
/// one that the scanner can give, and if it stands for zero, it is the zero
/// of a fresh field.
pub open spec fn decimal_reads_back(value: Decimal) -> bool {
    &&& value.mantissa <= MANTISSA_LIMIT * 10 + 9
    &&& value.mantissa == 0 ==> !value.negative && value.exponent == 0
}

/// The text `floating` is the name of the floating type.
pub proof fn lemma_floating_is_keyword()
    ensures
        keyword("floating"@) == Some(TokenView::Type(TypeName::TypeFloating)),
        "floating"@.len() == 8,
        "floating"@[0] == 'f',
{
    let text = "floating"@;
    reveal_strlit("false");
    reveal_strlit("true");
    reveal_strlit("object");
    reveal_strlit("boolean");
    reveal_strlit("floating");
    assert(text.len() == 8 && text[0] == 'f');
    assert(text != "false"@ && text != "true"@ && text != "object"@ && text != "boolean"@);
}

/// The tokens that a decimal is written with: the decimal, or a `-` and the
/// decimal without its sign.
pub open spec fn decimal_kinds(value: Decimal) -> Seq<TokenView> {
    if value.negative {
        seq![TokenView::Special(SpecialToken::Minus), TokenView::Floating(value.opposite())]
    } else {
        seq![TokenView::Floating(value)]
    }
}

/// A decimal without sign lexes back from its text.
pub proof fn lemma_reads_unsigned_decimal(value: Decimal)
    requires
        !value.negative,
        value.mantissa <= MANTISSA_LIMIT * 10 + 9,
    ensures
        reads_as(unsigned_decimal_text(value), seq![TokenView::Floating(value)]),
        unsigned_decimal_text(value).len() > 0,
        spec_is_digit(unsigned_decimal_text(value)[0]),
{
    let text = unsigned_decimal_text(value);
    let none = Seq::<char>::empty();
    lemma_natural_text_is_digits(value.mantissa as nat);
    lemma_decimal_reads_back(value, none);
    assert(text + none =~= text);
    assert(text[0] == natural_text(value.mantissa as nat)[0]);
    lemma_digit_starts_number(text);
    assert(text.skip(text.len() as int) =~= none);
    lemma_reads_end();
    lemma_reads_token(text, TokenView::Floating(value), text.len() as int, Seq::<TokenView>::empty());
    assert(seq![TokenView::Floating(value)] + Seq::<TokenView>::empty() =~= seq![
        TokenView::Floating(value),
    ]);
}

/// A decimal lexes back from its text.
pub proof fn lemma_reads_decimal(value: Decimal)
    requires
        value.mantissa <= MANTISSA_LIMIT * 10 + 9,
    ensures
        reads_as(decimal_text(value), decimal_kinds(value)),
        decimal_text(value).len() > 0,
        !spec_is_whitespace(decimal_text(value)[0]),
{
    let unsigned = Decimal { negative: false, ..value };
    let digits = unsigned_decimal_text(unsigned);
    lemma_reads_unsigned_decimal(unsigned);
    if value.negative {
        let sign = seq!['-'];
        lemma_minus_is_keyword();
        lemma_reads_word(sign, digits, seq![TokenView::Floating(unsigned)]);
        assert(decimal_text(value) =~= sign + digits);
        assert(value.opposite() == unsigned);
        assert(seq![TokenView::Special(SpecialToken::Minus)] + seq![
            TokenView::Floating(unsigned),
        ] =~= decimal_kinds(value));
        assert(decimal_text(value)[0] == '-');
    } else {
        assert(decimal_text(value) =~= digits);
        assert(value == unsigned);
    }
}

/// What follows the type name of a floating field that holds `value`:
/// nothing for zero, else ` = ` and the number.
pub open spec fn floating_tail(value: Decimal) -> Seq<char> {
    if value.mantissa == 0 {
        Seq::<char>::empty()
    } else {
        seq![' ', '=', ' '] + decimal_text(value)
    }
}

/// The tokens of what follows the type name of a floating field.
pub open spec fn floating_tail_kinds(value: Decimal) -> Seq<TokenView> {
    if value.mantissa == 0 {
        Seq::<TokenView>::empty()
    } else {
        seq![TokenView::Special(SpecialToken::Equal)] + decimal_kinds(value)
    }
}

/// The declaration of a floating field behind its name: `: floating` and
/// the value.
pub open spec fn floating_declaration(value: Decimal) -> Seq<char> {
    seq![':', ' '] + "floating"@ + floating_tail(value)
}

/// The tokens that the declaration of a floating field is written with.
pub open spec fn floating_declaration_kinds(value: Decimal) -> Seq<TokenView> {
    seq![TokenView::Special(SpecialToken::Colon), TokenView::Type(TypeName::TypeFloating)]
        + floating_tail_kinds(value)
}

/// The declaration of a floating field lexes back.
pub proof fn lemma_reads_floating_declaration(value: Decimal)
    requires
        value.mantissa <= MANTISSA_LIMIT * 10 + 9,
    ensures
        reads_as(floating_declaration(value), floating_declaration_kinds(value)),
        floating_declaration(value).len() > 0,
        floating_declaration(value)[0] == ':',
{
    lemma_floating_is_keyword();
    if value.mantissa == 0 {
        lemma_reads_end();
    } else {
        lemma_reads_decimal(value);
        lemma_reads_assignment(decimal_text(value), decimal_kinds(value));
    }
    lemma_reads_declaration("floating"@, floating_tail(value), floating_tail_kinds(value));
}

/// The start of the declaration of a floating field parses: behind a name,
/// a colon and the type name, the parser stands at the value with a fresh
/// field, if no bracket, number, `..` or `enum` follows.
pub proof fn lemma_floating_head_parses(toks: Seq<TokenInfoView>, name: Seq<char>)
    requires
        toks.len() >= 4,
        names(toks[1].token, name),
        name.len() > 0,
        toks[2].token == TokenView::Special(SpecialToken::Colon),
        toks[3].token == TokenView::Type(TypeName::TypeFloating),
        toks.len() == 4 || toks[4].token == TokenView::Special(SpecialToken::Equal),
    ensures
        field_parse(toks, start(toks)) == crate::grammar::lifted(
            assigned_read::<FloatingType>(
                FloatingType::fresh(),
                toks,
                Cursor { current: 3, next: 4 },
            ),
            |value: NumberTypeView<Decimal>|
                FieldTypeView {
                    value: ElementView::Floating(value),
                    name,
                    opts: Seq::<OptionView>::empty(),
                },
        ),
{
    lemma_field_head_parses(toks, name);
    reveal(number_parse);
    reveal(begin_read);
    reveal(interval_read);
    reveal(enum_read);
    let at_type = Cursor { current: 3, next: 4 };
    let fresh = FloatingType::fresh();
    assert(begin_read::<FloatingType>(fresh, toks, at_type) == Ok::<
        (NumberTypeView<Decimal>, Cursor),
        ParserErrorView,
    >((fresh, at_type)));
    assert(!accept_value::<FloatingType>(toks, at_type).0);
    assert(interval_read::<FloatingType>(fresh, toks, at_type) == Ok::<
        (bool, NumberTypeView<Decimal>, Cursor),
        ParserErrorView,
    >((false, fresh, at_type)));
    assert(enum_read::<FloatingType>(fresh, toks, at_type) == Ok::<
        (bool, NumberTypeView<Decimal>, Cursor),
        ParserErrorView,
    >((false, fresh, at_type)));
    assert(constraints_read::<FloatingType>(fresh, toks, at_type) == Ok::<
        (NumberTypeView<Decimal>, Cursor),
        ParserErrorView,
    >((fresh, at_type)));
    assert(number_parse::<FloatingType>(toks, at_type) == assigned_read::<FloatingType>(
        fresh,
        toks,
        at_type,
    ));
}

/// A floating field parses from its tokens: a name, a colon, the type name
/// and, unless the field holds zero, `=` and the number, with a `-` in front
/// of a number below zero.
pub proof fn lemma_floating_field_parses(toks: Seq<TokenInfoView>, name: Seq<char>, value: Decimal)
    requires
        name.len() > 0,
        value.mantissa == 0 ==> !value.negative && value.exponent == 0,
        toks.len() == (if value.mantissa == 0 {
            4int
        } else if !value.negative {
            6int
        } else {
            7int
        }),
        names(toks[1].token, name),
        toks[2].token == TokenView::Special(SpecialToken::Colon),
        toks[3].token == TokenView::Type(TypeName::TypeFloating),
        value.mantissa != 0 ==> toks[4].token == TokenView::Special(SpecialToken::Equal),
        value.mantissa != 0 && !value.negative ==> toks[5].token == TokenView::Floating(value),
        value.mantissa != 0 && value.negative ==> toks[5].token == TokenView::Special(
            SpecialToken::Minus,
        ) && toks[6].token == TokenView::Floating(value.opposite()),
    ensures
        field_parse(toks, start(toks)) matches Ok((field, _)) && field == plain_floating_field(
            name,
            value,
        ),
{
    lemma_floating_head_parses(toks, name);
    reveal(assigned_read);
    reveal(literal_read);
    let at_type = Cursor { current: 3, next: 4 };
    let fresh = FloatingType::fresh();
    if value.mantissa == 0 {
        assert(!accept_assign(toks, at_type).0);
        assert(value == Decimal { negative: false, mantissa: 0, exponent: 0 });
    } else {
        let at_equal = Cursor { current: 4, next: 5 };
        assert(accept_assign(toks, at_type) == (true, at_equal));
        let at_value = Cursor { current: 5, next: 6 };
        assert(accept_value::<FloatingType>(toks, at_equal) == (true, at_value));
        let stored = NumberTypeView { value: PossibleSeq::Value(value), ..fresh };
        if !value.negative {
            assert(sign_read(toks, at_value) == (false, at_value));
            assert(floating_value_read(fresh, toks, at_value) == Ok::<
                (NumberTypeView<Decimal>, Cursor),
                ParserErrorView,
            >((stored, at_value)));
        } else {
            let at_number = Cursor { current: 6, next: 7 };
            assert(sign_read(toks, at_value) == (true, at_number));
            assert(value.opposite().opposite() == value);
            assert(floating_value_read(fresh, toks, at_value) == Ok::<
                (NumberTypeView<Decimal>, Cursor),
                ParserErrorView,
            >((stored, at_number)));
        }
    }
}

/// The shape of a stream that holds the declaration of a floating field
/// behind a name.
pub proof fn lemma_floating_stream_shape(toks: Seq<TokenInfoView>, value: Decimal)
    requires
        toks.len() == 2 + floating_declaration_kinds(value).len(),
        forall|i: int|
            0 <= i < floating_declaration_kinds(value).len() ==> (#[trigger] toks[i + 2]).token
                == floating_declaration_kinds(value)[i],
    ensures
        toks.len() == (if value.mantissa == 0 {
            4int
        } else if !value.negative {
            6int
        } else {
            7int
        }),
        toks[2].token == TokenView::Special(SpecialToken::Colon),
        toks[3].token == TokenView::Type(TypeName::TypeFloating),
        value.mantissa != 0 ==> toks[4].token == TokenView::Special(SpecialToken::Equal),
        value.mantissa != 0 && !value.negative ==> toks[5].token == TokenView::Floating(value),
        value.mantissa != 0 && value.negative ==> toks[5].token == TokenView::Special(
            SpecialToken::Minus,
        ) && toks[6].token == TokenView::Floating(value.opposite()),
{
    let more = floating_declaration_kinds(value);
    assert(toks[0int + 2].token == more[0]);
    assert(toks[1int + 2].token == more[1]);
    if value.mantissa != 0 {
        assert(toks[2int + 2].token == more[2]);
        assert(toks[3int + 2].token == more[3]);
        if value.negative {
            assert(toks[4int + 2].token == more[4]);
        }
    }
}

/// What a floating field is written as lexes to a stream that parses to the
/// field.
pub proof fn lemma_floating_source_comes_back(name: Seq<char>, value: Decimal)
    requires
        name_reads_back(name),
        decimal_reads_back(value),
    ensures
        lex(name_text(name) + floating_declaration(value)) matches Ok(toks) && field_parse(
            toks,
            start(toks),
        ) matches Ok((field, _)) && field == plain_floating_field(name, value),
{
    lemma_reads_floating_declaration(value);
    lemma_source_lexes(name, floating_declaration(value), floating_declaration_kinds(value));
    let toks = lex(name_text(name) + floating_declaration(value))->Ok_0;
    lemma_floating_stream_shape(toks, value);
    lemma_floating_field_parses(toks, name, value);
}

/// A decimal stands for zero where its mantissa is zero, and nowhere else.
pub proof fn lemma_zero_decimal(value: Decimal)
    ensures
        value.value_eq(Decimal { negative: false, mantissa: 0, exponent: 0 }) == (value.mantissa
            == 0),
{
    let zero = Decimal { negative: false, mantissa: 0, exponent: 0 };
    let unit = value.common_unit(zero);
    value.lemma_magnitude(unit);
    zero.lemma_magnitude(unit);
}

/// What a floating field without bounds, enumeration and options is written
/// as: the name, `: floating`, and ` = ` with the number unless it is zero.
pub proof fn lemma_floating_field_text(name: Seq<char>, value: Decimal, width: nat)
    ensures
        field_text(layout(width), plain_floating_field(name, value), Seq::<char>::empty())
            == name_text(name) + floating_declaration(value),
{
    let format = layout(width);
    let field = plain_floating_field(name, value);
    let none = Seq::<char>::empty();
    reveal_strlit("");
    reveal_strlit(" = ");
    assert(""@ =~= none);
    assert(" = "@ =~= seq![' ', '=', ' ']);
    lemma_zero_decimal(value);
    let number = field.value->Floating_0;
    assert(crate::to_schemer::number_type_text(format, number, none) =~= "floating"@);
    assert(crate::to_schemer::holds_default(field.value) == (value.mantissa == 0));
    assert(crate::to_schemer::value_text(format, field.value, none) == decimal_text(value));
    assert(crate::to_schemer::options_text(format, field.opts, none) =~= none);
    assert(field_text(format, field, none) =~= name_text(name) + floating_declaration(value));
}

/// Floating fields come back: what a floating field without bounds,
/// enumeration and options is written as, with whatever width of
/// indentation, lexes to a stream that parses to the same field, if the name
/// and the number of the field read back.
pub proof fn lemma_floating_field_comes_back(name: Seq<char>, value: Decimal, width: nat)
    requires
        name_reads_back(name),
        decimal_reads_back(value),
    ensures
        lex(field_text(layout(width), plain_floating_field(name, value), Seq::<char>::empty()))
            matches Ok(toks) && field_parse(toks, start(toks)) matches Ok((field, _)) && field
            == plain_floating_field(name, value),
{
    lemma_floating_field_text(name, value, width);
    lemma_floating_source_comes_back(name, value);
}

} // verus!
