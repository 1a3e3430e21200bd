//! The lexer: from text to tokens.

use vstd::prelude::*;
use vstd::string::*;
use vstd::utf8::*;
use crate::chars::{digit_value, first_or_nul, is_digit, is_whitespace, lemma_utf8_size_is_encoding_len,
    lemma_utf8_len_is_encoding_len, spec_digit_value, spec_is_digit, spec_is_whitespace,
    utf8_size};
use crate::decimal::Decimal;
use crate::scanner::{lemma_moved_none, lemma_moved_twice, moved, walk_position, Scanner};
use crate::text::{append_natural, natural_text};
use crate::tokens::{SpecialToken, Token, TokenInfo, TokenInfoView, TokenView, TypeName};
use crate::trie::Trie;

verus! {

/// Whether `c` may start an identifier: an ASCII letter or an underscore.
pub open spec fn spec_is_ident(c: char) -> bool {
    ('a' <= c && c <= 'z') || ('A' <= c && c <= 'Z') || c == '_'
}

/// Whether `c` may start an identifier: an ASCII letter or an underscore.
#[verifier::when_used_as_spec(spec_is_ident)]
pub fn is_ident(c: char) -> (r: bool)
    ensures
        r == spec_is_ident(c),
{
    ('a' <= c && c <= 'z') || ('A' <= c && c <= 'Z') || c == '_'
}

/// Whether `c` may stand inside an identifier: a character that may start
/// one, or a digit.
pub open spec fn is_ident_part(c: char) -> bool {
    spec_is_ident(c) || spec_is_digit(c)
}

/// The number of characters at the head of `text` that `accepts` takes before
/// the first one that it refuses.
pub open spec fn run_length(text: Seq<char>, accepts: spec_fn(char) -> bool) -> nat
    decreases text.len(),
{
    if text.len() == 0 || !accepts(text[0]) {
        0
    } else {
        1 + run_length(text.drop_first(), accepts)
    }
}

/// A run that is accepted character by character and stops at a refused one
/// or at the end has the length of the longest accepted run.
pub proof fn lemma_run_length(text: Seq<char>, accepts: spec_fn(char) -> bool, n: int)
    requires
        0 <= n <= text.len(),
        forall|i: int| 0 <= i < n ==> accepts(#[trigger] text[i]),
        n < text.len() ==> !accepts(text[n]),
    ensures
        run_length(text, accepts) == n,
    decreases n,
{
    if n > 0 {
        let rest = text.drop_first();
        assert forall|i: int| 0 <= i < n - 1 implies accepts(#[trigger] rest[i]) by {
            assert(rest[i] == text[i + 1]);
        }
        lemma_run_length(rest, accepts, n - 1);
    }
}

/// The longest accepted run is within the text, all of it is accepted, and
/// what follows it is refused.
pub proof fn lemma_run_length_bounds(text: Seq<char>, accepts: spec_fn(char) -> bool)
    ensures
        run_length(text, accepts) <= text.len(),
        forall|i: int| 0 <= i < run_length(text, accepts) ==> accepts(#[trigger] text[i]),
        run_length(text, accepts) < text.len() ==> !accepts(
            text[run_length(text, accepts) as int],
        ),
    decreases text.len(),
{
    if text.len() > 0 && accepts(text[0]) {
        let rest = text.drop_first();
        lemma_run_length_bounds(rest, accepts);
        assert forall|i: int| 0 <= i < run_length(text, accepts) implies accepts(
            #[trigger] text[i],
        ) by {
            if i > 0 {
                assert(text[i] == rest[i - 1]);
            }
        }
    }
}

/// Moves the cursor over white space.
pub fn skip_spaces(scanner: &mut Scanner)
    ensures
        moved(
            *old(scanner),
            *final(scanner),
            run_length(old(scanner).remaining(), |c: char| spec_is_whitespace(c)) as int,
        ),
{
    let ghost text = scanner.remaining();
    let accepts = |c: char| -> (found: bool)
        ensures
            found == spec_is_whitespace(c),
        {
            is_whitespace(c)
        };
    scanner.advance_while(accepts);
    proof {
        lemma_run_length(
            text,
            |c: char| spec_is_whitespace(c),
            text.len() - scanner.remaining().len(),
        );
    }
}

/// The first character of `data` and what follows it; NUL and `data` itself
/// if `data` is empty.
pub fn str_head_tail(data: &str) -> (r: (char, &str))
    ensures
        r.0 == first_or_nul(data@),
        r.1@ == (if data@.len() > 0 {
            data@.drop_first()
        } else {
            data@
        }),
{
    let mut chars = data.chars();
    proof {
        broadcast use {axiom_spec_iter, next_postcondition};
    }
    match chars.next() {
        Some(c) => {
            let shift = crate::chars::len_utf8(c);
            let ghost text = data@;
            let ghost bytes = data.spec_bytes();
            proof {
                broadcast use encode_utf8_valid_utf8;

                lemma_utf8_len_is_encoding_len(c);
                encode_utf8_first_scalar(text);
                assert(pop_first_scalar(bytes) =~= encode_utf8(text.drop_first()));
                assert(is_char_boundary(pop_first_scalar(bytes), 0));
                assert(is_char_boundary(bytes, shift as int));
            }
            let (_, rest) = data.split_at(shift);
            proof {
                broadcast use encode_utf8_decode_utf8;

                assert(rest.spec_bytes() == encode_utf8(text.drop_first()));
                assert(decode_utf8(encode_utf8(rest@)) == rest@);
            }
            (c, rest)
        },
        None => ('\0', data),
    }
}

/// The bytes of the first `n` characters of a text are the first bytes of
/// its encoding, and they end where a character ends.
pub proof fn lemma_prefix_encoding(text: Seq<char>, n: int)
    requires
        0 <= n <= text.len(),
    ensures
        utf8_size(text.take(n)) <= encode_utf8(text).len(),
        is_char_boundary(encode_utf8(text), utf8_size(text.take(n)) as int),
        encode_utf8(text).subrange(0, utf8_size(text.take(n)) as int) == encode_utf8(text.take(n)),
    decreases n,
{
    broadcast use encode_utf8_valid_utf8;

    let bytes = encode_utf8(text);
    if n == 0 {
        assert(text.take(0) =~= Seq::<char>::empty());
        assert(bytes.subrange(0, 0) =~= encode_utf8(text.take(0)));
    } else {
        let rest = text.drop_first();
        let head = encode_scalar(text[0] as u32);
        lemma_utf8_len_is_encoding_len(text[0]);
        encode_utf8_first_scalar(text);
        lemma_prefix_encoding(rest, n - 1);
        assert(pop_first_scalar(bytes) =~= encode_utf8(rest));
        assert(text.take(n).drop_first() =~= rest.take(n - 1));
        assert(text.take(n)[0] == text[0]);
        let k = utf8_size(rest.take(n - 1)) as int;
        assert(utf8_size(text.take(n)) == head.len() + k);
        assert(bytes.subrange(0, head.len() + k) =~= head + encode_utf8(rest).subrange(0, k));
        assert(encode_utf8(text.take(n)) == head + encode_utf8(rest.take(n - 1)));
    }
}

/// Reads an identifier: moves the cursor over letters, underscores and
/// digits and returns them.
pub fn scan_ident(scanner: &mut Scanner) -> (r: String)
    ensures
        r@ == old(scanner).remaining().take(
            run_length(old(scanner).remaining(), |c: char| is_ident_part(c)) as int,
        ),
        moved(
            *old(scanner),
            *final(scanner),
            run_length(old(scanner).remaining(), |c: char| is_ident_part(c)) as int,
        ),
{
    let ghost text = scanner.remaining();
    let base = scanner.backup();
    let accepts = |c: char| -> (found: bool)
        ensures
            found == is_ident_part(c),
        {
            is_ident(c) || is_digit(c)
        };
    let shift = scanner.advance_while(accepts);
    let ghost n = text.len() - scanner.remaining().len();
    proof {
        broadcast use encode_utf8_valid_utf8;

        lemma_run_length(text, |c: char| is_ident_part(c), n);
        lemma_prefix_encoding(text, n);
    }
    let (head, _) = base.get().split_at(shift);
    proof {
        broadcast use encode_utf8_decode_utf8;

        assert(head.spec_bytes() == encode_utf8(text.take(n)));
        assert(decode_utf8(encode_utf8(head@)) == head@);
    }
    String::from_str(head)
}

/// Whether every character of `data` may stand inside an identifier.
fn is_ident_string_rest(data: &str) -> (r: bool)
    ensures
        r == (forall|i: int| 0 <= i < data@.len() ==> is_ident_part(#[trigger] data@[i])),
{
    let mut rest = data;
    let ghost mut n: int = 0;
    proof {
        assert(data@.skip(0) =~= data@);
    }
    while !rest.is_empty()
        invariant
            0 <= n <= data@.len(),
            rest@ == data@.skip(n),
            forall|i: int| 0 <= i < n ==> is_ident_part(#[trigger] data@[i]),
        decreases data@.len() - n,
    {
        let (head, tail) = str_head_tail(rest);
        if !(is_digit(head) || is_ident(head)) {
            proof {
                assert(data@[n] == head);
            }
            return false;
        }
        proof {
            assert(data@.skip(n).drop_first() =~= data@.skip(n + 1));
            assert(data@[n] == head);
            n = n + 1;
        }
        rest = tail;
    }
    true
}

/// Whether `data` has the form of an identifier: a letter or an underscore,
/// then letters, underscores and digits.
pub open spec fn spec_is_ident_string(data: Seq<char>) -> bool {
    &&& data.len() > 0
    &&& spec_is_ident(data[0])
    &&& forall|i: int| 1 <= i < data.len() ==> is_ident_part(#[trigger] data[i])
}

/// Whether `data` has the form of an identifier: a letter or an underscore,
/// then letters, underscores and digits.
pub fn is_ident_string(data: &str) -> (r: bool)
    ensures
        r == spec_is_ident_string(data@),
{
    let (head, tail) = str_head_tail(data);
    let found = is_ident(head) && is_ident_string_rest(tail);
    proof {
        if data@.len() > 0 {
            let rest = data@.drop_first();
            if found {
                assert forall|i: int| 1 <= i < data@.len() implies is_ident_part(
                    #[trigger] data@[i],
                ) by {
                    assert(data@[i] == rest[i - 1]);
                }
            }
            if spec_is_ident_string(data@) {
                assert forall|i: int| 0 <= i < rest.len() implies is_ident_part(
                    #[trigger] rest[i],
                ) by {
                    assert(rest[i] == data@[i + 1]);
                }
            }
        }
    }
    found
}

/// What an escape sequence stands for: the character `c` came after a
/// backslash, and `ec` is the first character of the closing delimiter. An
/// escape that is not known is kept as it is written.
pub open spec fn escape_text(c: char, ec: char) -> Seq<char> {
    if c == 'n' {
        seq!['\n']
    } else if c == 'r' {
        seq!['\r']
    } else if c == 't' {
        seq!['\t']
    } else if c == '\\' {
        seq!['\\']
    } else if c == '\0' {
        seq!['\0']
    } else if c == ec {
        seq![ec]
    } else {
        seq!['\\', c]
    }
}

/// The text of a string literal and the number of characters that it takes
/// in `text`, which starts behind the opening delimiter. The literal ends
/// with the delimiter `ending`, which belongs to what it takes, or with the
/// text.
pub open spec fn string_scan(text: Seq<char>, ending: Seq<char>) -> (Seq<char>, int)
    decreases text.len(),
{
    if text.len() == 0 {
        (Seq::<char>::empty(), 0)
    } else if ending.is_prefix_of(text) {
        (Seq::<char>::empty(), ending.len() as int)
    } else if text[0] == '\\' {
        let used: int = if text.len() >= 2 {
            2
        } else {
            1
        };
        let rest = string_scan(text.skip(used), ending);
        (escape_text(first_or_nul(text.skip(1)), first_or_nul(ending)) + rest.0, used + rest.1)
    } else {
        let rest = string_scan(text.skip(1), ending);
        (seq![text[0]] + rest.0, 1 + rest.1)
    }
}

/// What a string literal takes of a text lies within the text.
pub proof fn lemma_string_scan_bounds(text: Seq<char>, ending: Seq<char>)
    ensures
        0 <= string_scan(text, ending).1 <= text.len(),
    decreases text.len(),
{
    if text.len() == 0 {
    } else if ending.is_prefix_of(text) {
    } else if text[0] == '\\' {
        let used: int = if text.len() >= 2 {
            2
        } else {
            1
        };
        lemma_string_scan_bounds(text.skip(used), ending);
    } else {
        lemma_string_scan_bounds(text.skip(1), ending);
    }
}

/// Whether the rest of the text begins with `ending`, and the number of
/// characters of `ending`.
fn starts_with(scan: &Scanner, ending: &str) -> (r: (bool, usize))
    ensures
        r.0 == ending@.is_prefix_of(scan.remaining()),
        r.0 ==> r.1 == ending@.len(),
{
    let at_end = scan.eol();
    let mut text = scan.get();
    let mut rest = ending;
    let mut count: usize = 0;
    let ghost whole = scan.remaining();
    proof {
        assert(whole.skip(0) =~= whole);
        assert(ending@.skip(0) =~= ending@);
        lemma_utf8_size_is_encoding_len(whole);
    }
    while !rest.is_empty()
        invariant
            whole == scan.remaining(),
            count <= whole.len() <= usize::MAX,
            count <= ending@.len(),
            text@ == whole.skip(count as int),
            rest@ == ending@.skip(count as int),
            forall|i: int| 0 <= i < count ==> whole[i] == ending@[i],
        decreases ending@.len() - count,
    {
        if text.is_empty() {
            proof {
                assert(whole.skip(count as int).len() == whole.len() - count);
                assert(ending@.skip(count as int).len() == ending@.len() - count);
            }
            return (false, count);
        }
        let (expected, rest_tail) = str_head_tail(rest);
        let (found, text_tail) = str_head_tail(text);
        proof {
            assert(whole.skip(count as int).len() == whole.len() - count);
            assert(ending@.skip(count as int).len() == ending@.len() - count);
            assert(whole[count as int] == found);
            assert(ending@[count as int] == expected);
        }
        if expected != found {
            proof {
                if ending@.is_prefix_of(whole) {
                    assert(whole.subrange(0, ending@.len() as int)[count as int]
                        == ending@[count as int]);
                }
            }
            return (false, count);
        }
        proof {
            assert(whole.skip(count as int).drop_first() =~= whole.skip(count + 1));
            assert(ending@.skip(count as int).drop_first() =~= ending@.skip(count + 1));
        }
        rest = rest_tail;
        text = text_tail;
        count += 1;
    }
    proof {
        assert(ending@ =~= whole.subrange(0, ending@.len() as int));
    }
    (true, count)
}

/// Reads a string literal whose opening delimiter was read already: moves
/// the cursor past the closing delimiter `ending`, or to the end of the text
/// if there is none, and returns the text in between with the escapes
/// `\n`, `\r`, `\t`, `\\` and the escaped delimiter replaced.
pub fn scan_string(scan: &mut Scanner, ending: &str) -> (r: String)
    ensures
        r@ == string_scan(old(scan).remaining(), ending@).0,
        moved(*old(scan), *final(scan), string_scan(old(scan).remaining(), ending@).1),
{
    let mut result = String::new();
    let (ec, _) = str_head_tail(ending);
    let ghost start = *scan;
    let ghost whole = scan.remaining();
    let ghost mut n: int = 0;
    proof {
        lemma_moved_none(start);
        lemma_string_scan_bounds(whole, ending@);
        assert(Seq::<char>::empty() + string_scan(whole, ending@).0 =~= string_scan(
            whole,
            ending@,
        ).0);
    }
    loop
        invariant_except_break
            moved(start, *scan, n),
            result@ + string_scan(scan.remaining(), ending@).0 == string_scan(whole, ending@).0,
            n + string_scan(scan.remaining(), ending@).1 == string_scan(whole, ending@).1,
        invariant
            whole == start.remaining(),
            ec == first_or_nul(ending@),
        ensures
            result@ == string_scan(whole, ending@).0,
            moved(start, *scan, string_scan(whole, ending@).1),
        decreases whole.len() - n,
    {
        let ghost here = *scan;
        let ghost text = scan.remaining();
        if scan.eol() {
            proof {
                assert(result@ + Seq::<char>::empty() =~= result@);
            }
            break;
        }
        let (closing, length) = starts_with(scan, ending);
        if closing {
            scan.jump(length);
            proof {
                assert(result@ + Seq::<char>::empty() =~= result@);
                lemma_moved_twice(start, here, *scan, n, length as int);
            }
            break;
        }
        let ghost before = result@;
        match scan.top() {
            '\\' => {
                scan.advance();
                let val = scan.top();
                if val == 'n' {
                    result.push('\n');
                } else if val == 'r' {
                    result.push('\r');
                } else if val == 't' {
                    result.push('\t');
                } else if val == '\\' {
                    result.push('\\');
                } else if val == '\0' {
                    result.push('\0');
                } else if val == ec {
                    result.push(ec);
                } else {
                    result.push('\\');
                    result.push(val);
                }
                let ghost middle = *scan;
                let ghost used: int = if text.len() >= 2 {
                    2
                } else {
                    1
                };
                proof {
                    assert(text.skip(1) =~= text.drop_first());
                    assert(result@ =~= before + escape_text(val, ec));
                    lemma_moved_none(middle);
                }
                scan.advance();
                proof {
                    lemma_moved_twice(here, middle, *scan, 1, used - 1);
                    lemma_moved_twice(start, here, *scan, n, used);
                    let rest = string_scan(text.skip(used), ending@);
                    assert(result@ + rest.0 =~= before + (escape_text(val, ec) + rest.0));
                    n = n + used;
                }
            },
            val => {
                result.push(val);
                scan.advance();
                proof {
                    lemma_moved_twice(start, here, *scan, n, 1);
                    let rest = string_scan(text.skip(1), ending@);
                    assert(result@ + rest.0 =~= before + (seq![val] + rest.0));
                    n = n + 1;
                }
            },
        }
    }
    result
}

/// A number literal: a whole number, or a decimal if it has a fraction or an
/// exponent.
#[derive(Clone, Copy, PartialEq, Eq, Structural, Debug)]
pub enum Number {
    Integer(i64),
    Floating(Decimal),
}

/// The whole number that the first `n` characters of `text`, all digits,
/// stand for. A number that does not fit 64 bits wraps around.
pub open spec fn integer_of_digits(text: Seq<char>, n: nat) -> i64
    decreases n,
{
    if n == 0 {
        0i64
    } else {
        integer_of_digits(text, (n - 1) as nat).wrapping_mul(10).wrapping_add(
            spec_digit_value(text[n - 1]) as i64,
        )
    }
}

/// The largest mantissa that takes one more digit, whatever the digit is.
pub const MANTISSA_LIMIT: u64 = 1844674407370955160;

/// A mantissa and an exponent after one more digit. While the mantissa is
/// not above `MANTISSA_LIMIT` the digit goes into it, and a digit of the
/// fraction lowers the exponent by one. From then on the digits are dropped,
/// and a digit in front of the point raises the exponent by one. The exponent
/// wraps around.
pub open spec fn append_digit(acc: (u64, i64), d: int, fraction: bool) -> (u64, i64) {
    if acc.0 <= MANTISSA_LIMIT {
        (
            (acc.0 * 10 + d) as u64,
            if fraction {
                acc.1.wrapping_sub(1)
            } else {
                acc.1
            },
        )
    } else {
        (
            acc.0,
            if fraction {
                acc.1
            } else {
                acc.1.wrapping_add(1)
            },
        )
    }
}

/// The mantissa and the exponent `init` after the first `n` characters of
/// `text`, all digits, were appended, in front of the point or behind it.
pub open spec fn decimal_of_digits(text: Seq<char>, n: nat, init: (u64, i64), fraction: bool) -> (
    u64,
    i64,
)
    decreases n,
{
    if n == 0 {
        init
    } else {
        append_digit(
            decimal_of_digits(text, (n - 1) as nat, init, fraction),
            spec_digit_value(text[n - 1]),
            fraction,
        )
    }
}

/// The number of digits at the head of `text`.
pub open spec fn digit_run(text: Seq<char>) -> nat {
    run_length(text, |c: char| spec_is_digit(c))
}

/// The fraction of a number literal: a point and the digits behind it. The
/// mantissa and exponent `acc` with those digits appended, the number of
/// characters that the fraction takes in `text`, and whether it has a digit.
/// Where `text` starts with no point, nothing is taken.
pub open spec fn fraction_scan(text: Seq<char>, acc: (u64, i64)) -> ((u64, i64), int, bool) {
    if first_or_nul(text) == '.' {
        let digits = digit_run(text.skip(1));
        (decimal_of_digits(text.skip(1), digits, acc, true), 1 + digits as int, digits > 0)
    } else {
        (acc, 0, false)
    }
}

/// The exponent of a number literal: `e` or `E`, optionally a sign, and
/// digits. The exponent `exponent` with the written one added, the number of
/// characters that this takes in `text`, and whether the exponent has a
/// digit. Where `text` starts with neither letter, nothing is taken. The sum
/// wraps around.
pub open spec fn exponent_scan(text: Seq<char>, exponent: i64) -> (i64, int, bool) {
    let mark = first_or_nul(text);
    if mark == 'e' || mark == 'E' {
        let sign = first_or_nul(text.skip(1));
        let sign_len: int = if sign == '+' || sign == '-' {
            1
        } else {
            0
        };
        let digits = digit_run(text.skip(1 + sign_len));
        let written = integer_of_digits(text.skip(1 + sign_len), digits);
        (
            exponent.wrapping_add(
                if sign == '-' {
                    written.wrapping_mul(-1i64)
                } else {
                    written
                },
            ),
            1 + sign_len + digits as int,
            digits > 0,
        )
    } else {
        (exponent, 0, false)
    }
}

/// The number literal at the head of `text` and the number of characters
/// that it takes: digits, then optionally a fraction, then optionally an
/// exponent. Where neither the fraction nor the exponent has a digit, the
/// literal is the whole number of the first digits and ends with them.
pub open spec fn number_scan(text: Seq<char>) -> (Number, int) {
    let whole_len = digit_run(text) as int;
    let whole = decimal_of_digits(text, whole_len as nat, (0u64, 0i64), false);
    let fraction = fraction_scan(text.skip(whole_len), whole);
    let exponent = exponent_scan(text.skip(whole_len + fraction.1), fraction.0.1);
    if fraction.2 || exponent.2 {
        (
            Number::Floating(
                Decimal { negative: false, mantissa: fraction.0.0, exponent: exponent.0 },
            ),
            whole_len + fraction.1 + exponent.1,
        )
    } else {
        (Number::Integer(integer_of_digits(text, whole_len as nat)), whole_len)
    }
}

/// Reads the digits under the cursor. Returns whether there was one, the
/// whole number that they stand for, and the mantissa and exponent given
/// with the digits appended.
fn scan_digits(scan: &mut Scanner, mantissa: u64, exponent: i64, fraction: bool) -> (r: (
    bool,
    i64,
    u64,
    i64,
))
    ensures
        moved(*old(scan), *final(scan), digit_run(old(scan).remaining()) as int),
        r.0 == (digit_run(old(scan).remaining()) > 0),
        r.1 == integer_of_digits(old(scan).remaining(), digit_run(old(scan).remaining())),
        (r.2, r.3) == decimal_of_digits(
            old(scan).remaining(),
            digit_run(old(scan).remaining()),
            (mantissa, exponent),
            fraction,
        ),
{
    let ghost start = *scan;
    let ghost text = scan.remaining();
    let ghost mut n: nat = 0;
    let mut found = false;
    let mut d: i64 = 0;
    let mut m: u64 = mantissa;
    let mut e: i64 = exponent;
    proof {
        lemma_moved_none(start);
    }
    while !scan.eol() && is_digit(scan.top())
        invariant
            moved(start, *scan, n as int),
            text == start.remaining(),
            forall|i: int| 0 <= i < n ==> spec_is_digit(#[trigger] text[i]),
            found == (n > 0),
            d == integer_of_digits(text, n),
            (m, e) == decimal_of_digits(text, n, (mantissa, exponent), fraction),
        decreases text.len() - n,
    {
        let ghost here = *scan;
        let value = digit_value(scan.top());
        found = true;
        d = d.wrapping_mul(10).wrapping_add(value as i64);
        if m <= MANTISSA_LIMIT {
            m = m * 10 + (value as u64);
            if fraction {
                e = e.wrapping_sub(1);
            }
        } else {
            if !fraction {
                e = e.wrapping_add(1);
            }
        }
        scan.advance();
        proof {
            assert(text[n as int] == here.remaining()[0]);
            lemma_moved_twice(start, here, *scan, n as int, 1);
            n = n + 1;
        }
    }
    proof {
        assert(n < text.len() ==> scan.remaining()[0] == text[n as int]);
        lemma_run_length(text, |c: char| spec_is_digit(c), n as int);
    }
    (found, d, m, e)
}

/// Reads the fraction of a number literal, if one stands under the cursor.
fn scan_fraction(scan: &mut Scanner, mantissa: u64, exponent: i64) -> (r: (bool, u64, i64))
    ensures
        moved(
            *old(scan),
            *final(scan),
            fraction_scan(old(scan).remaining(), (mantissa, exponent)).1,
        ),
        ((r.1, r.2), r.0) == (
            fraction_scan(old(scan).remaining(), (mantissa, exponent)).0,
            fraction_scan(old(scan).remaining(), (mantissa, exponent)).2,
        ),
{
    let ghost start = *scan;
    let ghost text = scan.remaining();
    if scan.top() == '.' {
        scan.advance();
        let ghost at_digits = *scan;
        proof {
            assert(text.skip(1) =~= text.drop_first());
        }
        let (found, _, m, e) = scan_digits(scan, mantissa, exponent, true);
        proof {
            lemma_moved_twice(start, at_digits, *scan, 1, digit_run(text.skip(1)) as int);
        }
        (found, m, e)
    } else {
        proof {
            lemma_moved_none(start);
        }
        (false, mantissa, exponent)
    }
}

/// Reads the exponent of a number literal, if one stands under the cursor.
fn scan_exponent(scan: &mut Scanner, exponent: i64) -> (r: (bool, i64))
    ensures
        moved(*old(scan), *final(scan), exponent_scan(old(scan).remaining(), exponent).1),
        (r.1, r.0) == (
            exponent_scan(old(scan).remaining(), exponent).0,
            exponent_scan(old(scan).remaining(), exponent).2,
        ),
{
    let ghost start = *scan;
    let ghost text = scan.remaining();
    if scan.top() == 'e' || scan.top() == 'E' {
        let mut negative = false;
        scan.advance();
        let ghost at_sign = *scan;
        let ghost mut sign_len: int = 0;
        proof {
            assert(text.skip(1) =~= text.drop_first());
            lemma_moved_none(at_sign);
        }
        let sign = scan.top();
        if sign == '+' {
            scan.advance();
            proof {
                sign_len = 1;
            }
        } else if sign == '-' {
            scan.advance();
            negative = true;
            proof {
                sign_len = 1;
            }
        }
        let ghost at_digits = *scan;
        proof {
            lemma_moved_twice(start, at_sign, at_digits, 1, sign_len);
        }
        let (found, i, _, _) = scan_digits(scan, 0, 0, false);
        proof {
            lemma_moved_twice(
                start,
                at_digits,
                *scan,
                1 + sign_len,
                digit_run(text.skip(1 + sign_len)) as int,
            );
        }
        let written = if negative {
            i.wrapping_mul(-1)
        } else {
            i
        };
        (found, exponent.wrapping_add(written))
    } else {
        proof {
            lemma_moved_none(start);
        }
        (false, exponent)
    }
}

/// Reads a number literal: moves the cursor over it and returns its value.
pub fn scan_number(scan: &mut Scanner) -> (r: Number)
    ensures
        r == number_scan(old(scan).remaining()).0,
        moved(*old(scan), *final(scan), number_scan(old(scan).remaining()).1),
{
    let ghost start = *scan;
    let ghost text = scan.remaining();
    let (_, d, whole_m, whole_e) = scan_digits(scan, 0, 0, false);
    let scan_bu = scan.backup();
    let ghost whole_len = digit_run(text) as int;
    let (has_fraction, m, fraction_e) = scan_fraction(scan, whole_m, whole_e);
    let ghost after_fraction = *scan;
    let ghost fraction_len = fraction_scan(text.skip(whole_len), (whole_m, whole_e)).1;
    let (has_exponent, e) = scan_exponent(scan, fraction_e);
    proof {
        let exponent_len = exponent_scan(text.skip(whole_len + fraction_len), fraction_e).1;
        lemma_moved_twice(start, scan_bu, after_fraction, whole_len, fraction_len);
        lemma_moved_twice(start, after_fraction, *scan, whole_len + fraction_len, exponent_len);
    }
    if has_fraction || has_exponent {
        Number::Floating(Decimal { negative: false, mantissa: m, exponent: e })
    } else {
        scan.restore(&scan_bu);
        Number::Integer(d)
    }
}

/// A payload of the keyword table: a token, and whether its text has the
/// form of an identifier.
struct TokenPack<T> {
    value: T,
    possible_ident: bool,
}

impl<T> TokenPack<T> {
    fn new(val: T, ident: bool) -> (r: TokenPack<T>)
        ensures
            r == (TokenPack { value: val, possible_ident: ident }),
    {
        TokenPack { value: val, possible_ident: ident }
    }
}

/// The token of a keyword or a sign, if `text` is one.
pub open spec fn keyword(text: Seq<char>) -> Option<TokenView> {
    if text == "false"@ {
        Some(TokenView::Boolean(false))
    } else if text == "true"@ {
        Some(TokenView::Boolean(true))
    } else if text == "object"@ {
        Some(TokenView::Type(TypeName::TypeObject))
    } else if text == "boolean"@ {
        Some(TokenView::Type(TypeName::TypeBoolean))
    } else if text == "floating"@ {
        Some(TokenView::Type(TypeName::TypeFloating))
    } else if text == "integer"@ {
        Some(TokenView::Type(TypeName::TypeInteger))
    } else if text == "string"@ {
        Some(TokenView::Type(TypeName::TypeString))
    } else if text == "null"@ {
        Some(TokenView::Special(SpecialToken::Null))
    } else if text == "enum"@ {
        Some(TokenView::Special(SpecialToken::Enum))
    } else if text == "-"@ {
        Some(TokenView::Special(SpecialToken::Minus))
    } else if text == "+"@ {
        Some(TokenView::Special(SpecialToken::Plus))
    } else if text == "#"@ {
        Some(TokenView::Special(SpecialToken::Hash))
    } else if text == ";"@ {
        Some(TokenView::Special(SpecialToken::Semicolon))
    } else if text == ":"@ {
        Some(TokenView::Special(SpecialToken::Colon))
    } else if text == ".."@ {
        Some(TokenView::Special(SpecialToken::Interval))
    } else if text == ","@ {
        Some(TokenView::Special(SpecialToken::Comma))
    } else if text == "="@ {
        Some(TokenView::Special(SpecialToken::Equal))
    } else if text == "]"@ {
        Some(TokenView::Special(SpecialToken::RBracket))
    } else if text == "["@ {
        Some(TokenView::Special(SpecialToken::LBracket))
    } else if text == "}"@ {
        Some(TokenView::Special(SpecialToken::RBrace))
    } else if text == "{"@ {
        Some(TokenView::Special(SpecialToken::LBrace))
    } else if text == ")"@ {
        Some(TokenView::Special(SpecialToken::RParen))
    } else if text == "("@ {
        Some(TokenView::Special(SpecialToken::LParen))
    } else {
        None
    }
}

/// Whether the first `n` characters of `text` are the longest keyword or
/// sign that `text` begins with.
pub open spec fn keyword_at(text: Seq<char>, n: int) -> bool {
    &&& 1 <= n <= text.len()
    &&& keyword(text.take(n)) is Some
    &&& forall|m: int| n < m <= text.len() ==> (#[trigger] keyword(text.take(m))) is None
}

/// A text begins with at most one longest keyword.
pub proof fn lemma_keyword_at_unique(text: Seq<char>, n: int, m: int)
    requires
        keyword_at(text, n),
        keyword_at(text, m),
    ensures
        n == m,
{
    if n < m {
        assert(keyword(text.take(m)) is None);
    } else if m < n {
        assert(keyword(text.take(n)) is None);
    }
}

/// What stands at the head of a text.
pub enum Lexeme {
    /// A token.
    Token(TokenView),
    /// A comment, which gives no token.
    Comment,
    /// A character that starts no token.
    Unexpected(char),
}

/// The token of a number literal.
pub open spec fn number_token(number: Number) -> TokenView {
    match number {
        Number::Integer(i) => TokenView::Integer(i),
        Number::Floating(f) => TokenView::Floating(f),
    }
}

/// What stands at the head of `text`, which is not empty and does not start
/// with white space, and the number of characters that it takes.
///
/// The longest keyword or sign is taken, with two exceptions: a keyword with
/// a letter, a digit or an underscore right behind it is the start of an
/// identifier, and `#` starts a comment that runs to the end of the line.
/// Where no keyword stands, a digit starts a number, a letter or an
/// underscore an identifier, and a double quote a string.
pub open spec fn lex_one(text: Seq<char>) -> (Lexeme, int) {
    if exists|n: int| keyword_at(text, n) {
        let n = choose|n: int| keyword_at(text, n);
        let token = keyword(text.take(n))->0;
        let next = first_or_nul(text.skip(n));
        if spec_is_ident_string(text.take(n)) && is_ident_part(next) {
            let more = run_length(text.skip(n), |c: char| is_ident_part(c)) as int;
            (Lexeme::Token(TokenView::Ident(text.take(n) + text.skip(n).take(more))), n + more)
        } else if token == TokenView::Special(SpecialToken::Hash) {
            (Lexeme::Comment, n + run_length(text.skip(n), |c: char| c != '\n'))
        } else {
            (Lexeme::Token(token), n)
        }
    } else if spec_is_digit(text[0]) {
        (Lexeme::Token(number_token(number_scan(text).0)), number_scan(text).1)
    } else if spec_is_ident(text[0]) {
        let length = run_length(text, |c: char| is_ident_part(c)) as int;
        (Lexeme::Token(TokenView::Ident(text.take(length))), length)
    } else if text[0] == '"' {
        let body = string_scan(text.skip(1), seq!['"']);
        (Lexeme::Token(TokenView::String(body.0)), 1 + body.1)
    } else {
        (Lexeme::Unexpected(text[0]), 0)
    }
}

/// A character that starts no token, and where it stands.
#[derive(Clone, Copy, PartialEq, Eq, Structural, Debug)]
pub struct LexError {
    pub character: char,
    pub line: usize,
    pub column: usize,
}

/// The message of a lexical error.
pub open spec fn lex_error_text(error: LexError) -> Seq<char> {
    "Unexpected character '"@ + seq![error.character] + "' at "@ + natural_text(
        error.line as nat,
    ) + seq![':'] + natural_text(error.column as nat)
}

impl LexError {
    /// The message: the character, and its line and column.
    pub fn message(&self) -> (r: String)
        ensures
            r@ == lex_error_text(*self),
    {
        let mut out = String::from_str("Unexpected character '");
        out.push(self.character);
        out.append("' at ");
        append_natural(&mut out, self.line as u64);
        out.push(':');
        append_natural(&mut out, self.column as u64);
        out
    }

    /// The line and the column of the character.
    pub fn position(&self) -> (r: (usize, usize))
        ensures
            r == (self.line, self.column),
    {
        (self.line, self.column)
    }
}

/// The tokens of `text`, which is read from the position `pos` on, or the
/// first character that starts no token. White space between the tokens is
/// passed over, and each token has the line and the column of its first
/// character.
pub open spec fn lex_from(text: Seq<char>, pos: (int, int)) -> Result<Seq<TokenInfoView>, LexError>
    decreases text.len(),
{
    let spaces = run_length(text, |c: char| spec_is_whitespace(c)) as int;
    let rest = text.skip(spaces);
    let at = walk_position(pos, text.take(spaces));
    let here = (at.0 as usize, at.1 as usize);
    if rest.len() == 0 {
        Ok(Seq::<TokenInfoView>::empty())
    } else {
        proof {
            lemma_run_length_bounds(text, |c: char| spec_is_whitespace(c));
        }
        let (lexeme, used) = lex_one(rest);
        match lexeme {
            Lexeme::Unexpected(c) => Err(LexError { character: c, line: here.0, column: here.1 }),
            _ => if 0 < used <= rest.len() {
                let found = match lexeme {
                    Lexeme::Token(token) => seq![
                        TokenInfoView { token, position: here, literal: Seq::<char>::empty() },
                    ],
                    _ => Seq::<TokenInfoView>::empty(),
                };
                after(found, lex_from(rest.skip(used), walk_position(at, rest.take(used))))
            } else {
                Ok(Seq::<TokenInfoView>::empty())
            },
        }
    }
}

/// The tokens `found` in front of the outcome `rest`.
pub open spec fn after(found: Seq<TokenInfoView>, rest: Result<Seq<TokenInfoView>, LexError>)
    -> Result<Seq<TokenInfoView>, LexError> {
    match rest {
        Ok(more) => Ok(found + more),
        Err(error) => Err(error),
    }
}

/// Tokens in front of tokens in front of an outcome are all of them in front
/// of it.
pub proof fn lemma_after_after(
    first: Seq<TokenInfoView>,
    second: Seq<TokenInfoView>,
    rest: Result<Seq<TokenInfoView>, LexError>,
)
    ensures
        after(first, after(second, rest)) == after(first + second, rest),
        after(Seq::<TokenInfoView>::empty(), rest) == rest,
{
    match rest {
        Ok(more) => {
            assert(first + (second + more) =~= (first + second) + more);
            assert(Seq::<TokenInfoView>::empty() + more =~= more);
        },
        Err(_) => {},
    }
}

/// One step of `lex_from`: what it makes of a text whose first lexeme is known.
pub proof fn lemma_lex_step(text: Seq<char>, pos: (int, int))
    ensures
        ({
            let spaces = run_length(text, |c: char| spec_is_whitespace(c)) as int;
            let rest = text.skip(spaces);
            let at = walk_position(pos, text.take(spaces));
            let here = (at.0 as usize, at.1 as usize);
            let used = lex_one(rest).1;
            let tail = lex_from(rest.skip(used), walk_position(at, rest.take(used)));
            &&& 0 <= spaces <= text.len()
            &&& rest.len() == 0 ==> lex_from(text, pos) == Ok::<Seq<TokenInfoView>, LexError>(
                Seq::<TokenInfoView>::empty(),
            )
            &&& rest.len() > 0 ==> match lex_one(rest).0 {
                Lexeme::Unexpected(c) => lex_from(text, pos) == Err::<Seq<TokenInfoView>, LexError>(
                    LexError { character: c, line: here.0, column: here.1 },
                ),
                Lexeme::Comment => 0 < used <= rest.len() ==> lex_from(text, pos) == tail,
                Lexeme::Token(token) => 0 < used <= rest.len() ==> lex_from(text, pos) == after(
                    seq![TokenInfoView { token, position: here, literal: Seq::<char>::empty() }],
                    tail,
                ),
            }
        }),
{
    let spaces = run_length(text, |c: char| spec_is_whitespace(c)) as int;
    let rest = text.skip(spaces);
    let at = walk_position(pos, text.take(spaces));
    let used = lex_one(rest).1;
    lemma_run_length_bounds(text, |c: char| spec_is_whitespace(c));
    lemma_after_after(
        Seq::<TokenInfoView>::empty(),
        Seq::<TokenInfoView>::empty(),
        lex_from(rest.skip(used), walk_position(at, rest.take(used))),
    );
}

/// The token stream of `text`: a token `Nil` at position (0, 0), then the
/// tokens of the text; or the first character that starts no token.
pub open spec fn lex(text: Seq<char>) -> Result<Seq<TokenInfoView>, LexError> {
    after(
        seq![
            TokenInfoView {
                token: TokenView::Nil,
                position: (0usize, 0usize),
                literal: Seq::<char>::empty(),
            },
        ],
        lex_from(text, (1, 1)),
    )
}

/// The tokens of a vector as plain values.
pub open spec fn token_views(tokens: Seq<TokenInfo>) -> Seq<TokenInfoView> {
    Seq::new(tokens.len(), |i: int| tokens[i]@)
}

/// Whether `trie` holds the keywords and signs of the language, each with its
/// token and with the mark of those that have the form of an identifier.
spec fn holds_keywords(trie: Trie<TokenPack<Token>>) -> bool {
    forall|text: Seq<char>|
        match #[trigger] trie.lookup(text) {
            Some(pack) => keyword(text) == Some(pack.value@) && pack.possible_ident
                == spec_is_ident_string(text),
            None => keyword(text) is None,
        }
}

/// The lexer. It holds the table of the keywords and signs.
pub struct Lexer {
    trie: Trie<TokenPack<Token>>,
}

/// Puts the keyword or sign `key` into the table.
fn add(trie: &mut Trie<TokenPack<Token>>, key: &str, value: Token)
    ensures
        forall|other: Seq<char>| #[trigger]
            final(trie).lookup(other) == (if other == key@ {
                Some(TokenPack { value, possible_ident: spec_is_ident_string(key@) })
            } else {
                old(trie).lookup(other)
            }),
{
    let ident = is_ident_string(key);
    trie.set(key, TokenPack::new(value, ident));
}

/// Puts the type keyword `key` into the table.
fn add_type(trie: &mut Trie<TokenPack<Token>>, key: &str, value: TypeName)
    ensures
        forall|other: Seq<char>| #[trigger]
            final(trie).lookup(other) == (if other == key@ {
                Some(
                    TokenPack {
                        value: Token::Type(value),
                        possible_ident: spec_is_ident_string(key@),
                    },
                )
            } else {
                old(trie).lookup(other)
            }),
{
    self::add(trie, key, Token::Type(value));
}

/// Puts the sign or keyword `key` into the table.
fn add_special(trie: &mut Trie<TokenPack<Token>>, key: &str, value: SpecialToken)
    ensures
        forall|other: Seq<char>| #[trigger]
            final(trie).lookup(other) == (if other == key@ {
                Some(
                    TokenPack {
                        value: Token::Special(value),
                        possible_ident: spec_is_ident_string(key@),
                    },
                )
            } else {
                old(trie).lookup(other)
            }),
{
    self::add(trie, key, Token::Special(value));
}

impl Lexer {
    #[verifier::type_invariant]
    spec fn table_is_complete(&self) -> bool {
        holds_keywords(self.trie)
    }

    /// The token that the table holds for `text`.
    pub closed spec fn token_for(&self, text: Seq<char>) -> Option<TokenView> {
        match self.trie.lookup(text) {
            Some(pack) => Some(pack.value@),
            None => None,
        }
    }

    /// A lexer with the table of the language: the signs, `enum` and `null`,
    /// the type names, and `true` and `false`.
    pub fn new() -> (r: Lexer)
        ensures
            forall|text: Seq<char>| #[trigger] r.token_for(text) == keyword(text),
    {
        let mut trie: Trie<TokenPack<Token>> = Trie::new();

        add_special(&mut trie, "(", SpecialToken::LParen);
        add_special(&mut trie, ")", SpecialToken::RParen);
        add_special(&mut trie, "{", SpecialToken::LBrace);
        add_special(&mut trie, "}", SpecialToken::RBrace);
        add_special(&mut trie, "[", SpecialToken::LBracket);
        add_special(&mut trie, "]", SpecialToken::RBracket);

        add_special(&mut trie, "=", SpecialToken::Equal);
        add_special(&mut trie, ",", SpecialToken::Comma);
        add_special(&mut trie, "..", SpecialToken::Interval);
        add_special(&mut trie, ":", SpecialToken::Colon);
        add_special(&mut trie, ";", SpecialToken::Semicolon);
        add_special(&mut trie, "#", SpecialToken::Hash);
        add_special(&mut trie, "+", SpecialToken::Plus);
        add_special(&mut trie, "-", SpecialToken::Minus);

        add_special(&mut trie, "enum", SpecialToken::Enum);
        add_special(&mut trie, "null", SpecialToken::Null);

        add_type(&mut trie, "string", TypeName::TypeString);
        add_type(&mut trie, "integer", TypeName::TypeInteger);
        add_type(&mut trie, "floating", TypeName::TypeFloating);
        add_type(&mut trie, "boolean", TypeName::TypeBoolean);
        add_type(&mut trie, "object", TypeName::TypeObject);

        self::add(&mut trie, "true", Token::Boolean(true));
        self::add(&mut trie, "false", Token::Boolean(false));

        Lexer { trie }
    }

    /// Cuts `data` into tokens. The result is the whole stream, with the
    /// token `Nil` in front, or the first character that starts no token.
    pub fn run(&self, data: &str) -> (r: Result<Vec<TokenInfo>, LexError>)
        requires
            data@.len() < usize::MAX,
        ensures
            match r {
                Ok(tokens) => lex(data@) == Ok::<Seq<TokenInfoView>, LexError>(
                    token_views(tokens@),
                ),
                Err(error) => lex(data@) == Err::<Seq<TokenInfoView>, LexError>(error),
            },
    {
        proof {
            use_type_invariant(self);
        }
        let mut result: Vec<TokenInfo> = Vec::new();
        result.push(TokenInfo::new(Token::Nil, (0, 0)));
        let mut scanner = Scanner::new(data);
        let ghost first = TokenInfoView {
            token: TokenView::Nil,
            position: (0usize, 0usize),
            literal: Seq::<char>::empty(),
        };
        let ghost mut found: Seq<TokenInfoView> = Seq::empty();
        proof {
            lemma_after_after(found, found, lex_from(data@, (1, 1)));
        }
        while !scanner.eol()
            invariant
                holds_keywords(self.trie),
                result@.len() == found.len() + 1,
                result@[0]@ == first,
                forall|i: int| 0 <= i < found.len() ==> (#[trigger] result@[i + 1])@ == found[i],
                after(found, lex_from(scanner.remaining(), scanner.spec_position())) == lex_from(
                    data@,
                    (1, 1),
                ),
            decreases scanner.remaining().len(),
        {
            let ghost begin = scanner;
            let ghost text = scanner.remaining();
            skip_spaces(&mut scanner);
            let ghost spaced = scanner;
            let ghost rest = scanner.remaining();
            let ghost at = scanner.spec_position();
            let backup = scanner.backup();
            let pos = scanner.position();
            let ghost here_view = TokenInfoView {
                token: TokenView::Nil,
                position: pos,
                literal: Seq::<char>::empty(),
            };
            let ghost mut token: Option<TokenView> = None;
            let ghost before = result@;
            proof {
                lemma_lex_step(text, begin.spec_position());
                lemma_run_length_bounds(text, |c: char| spec_is_whitespace(c));
            }
            let next = self.trie.get(&mut scanner);
            match next {
                Some(expr) => {
                    let ghost n = rest.len() - scanner.remaining().len();
                    let ghost matched = scanner;
                    proof {
                        assert(keyword_at(rest, n)) by {
                            assert(self.trie.lookup(rest.take(n)) is Some);
                            assert forall|m: int| n < m <= rest.len() implies (#[trigger] keyword(
                                rest.take(m),
                            )) is None by {
                                assert(self.trie.lookup(rest.take(m)) is None);
                            }
                        }
                        lemma_keyword_at_unique(rest, n, choose|k: int| keyword_at(rest, k));
                    }
                    let top = scanner.top();
                    if expr.0.possible_ident && (is_ident(top) || is_digit(top)) {
                        proof {
                            broadcast use encode_utf8_valid_utf8;

                            lemma_prefix_encoding(rest, n);
                        }
                        let (head, _) = backup.get().split_at(expr.1);
                        proof {
                            broadcast use encode_utf8_decode_utf8;

                            assert(head.spec_bytes() == encode_utf8(rest.take(n)));
                            assert(decode_utf8(encode_utf8(head@)) == head@);
                        }
                        let mut ival = String::from_str(head);
                        let tail = scan_ident(&mut scanner);
                        ival.append(tail.as_str());
                        proof {
                            let more = run_length(rest.skip(n), |c: char| is_ident_part(c)) as int;
                            lemma_moved_twice(spaced, matched, scanner, n, more);
                            token = Some(TokenView::Ident(ival@));
                            assert(lex_one(rest) == (Lexeme::Token(token->0), n + more));
                        }
                        result.push(TokenInfo::new(Token::Ident(ival), pos));
                    } else {
                        let is_hash = Token::is_special(SpecialToken::Hash);
                        if is_hash(&expr.0.value) {
                            let accepts = |c: char| -> (found: bool)
                                ensures
                                    found == (c != '\n'),
                                {
                                    c != '\n'
                                };
                            scanner.advance_while(accepts);
                            proof {
                                let k = matched.remaining().len() - scanner.remaining().len();
                                lemma_run_length(rest.skip(n), |c: char| c != '\n', k);
                                lemma_moved_twice(spaced, matched, scanner, n, k);
                                assert(lex_one(rest) == (Lexeme::Comment, n + k));
                            }
                        } else {
                            proof {
                                token = Some(expr.0.value@);
                                assert(lex_one(rest) == (Lexeme::Token(token->0), n));
                            }
                            result.push(TokenInfo::new(expr.0.value.clone(), pos));
                        }
                    }
                },
                None => {
                    proof {
                        assert forall|k: int| !keyword_at(rest, k) by {
                            if 1 <= k <= rest.len() {
                                assert(self.trie.lookup(rest.take(k)) is None);
                            }
                        }
                        lemma_string_scan_bounds(rest.skip(1), seq!['"']);
                        lemma_run_length_bounds(rest, |c: char| spec_is_digit(c));
                        lemma_run_length_bounds(rest, |c: char| is_ident_part(c));
                    }
                    if is_digit(scanner.top()) {
                        let num = scan_number(&mut scanner);
                        proof {
                            token = Some(number_token(num));
                            assert(lex_one(rest) == (Lexeme::Token(token->0), number_scan(rest).1));
                            assert(0 < number_scan(rest).1);
                        }
                        match num {
                            Number::Integer(i) => result.push(
                                TokenInfo::new(Token::Integer(i), pos),
                            ),
                            Number::Floating(f) => result.push(
                                TokenInfo::new(Token::Floating(f), pos),
                            ),
                        }
                    } else if is_ident(scanner.top()) {
                        let ident = scan_ident(&mut scanner);
                        proof {
                            token = Some(TokenView::Ident(ident@));
                            let length = run_length(rest, |c: char| is_ident_part(c)) as int;
                            assert(lex_one(rest) == (Lexeme::Token(token->0), length));
                            assert(0 < length);
                        }
                        result.push(TokenInfo::new(Token::Ident(ident), pos));
                    } else if scanner.top() == '"' {
                        scanner.advance();
                        let ghost opened = scanner;
                        proof {
                            reveal_strlit("\"");
                            assert("\""@ =~= seq!['"']);
                            assert(rest.skip(1) =~= rest.drop_first());
                        }
                        let svalue = scan_string(&mut scanner, "\"");
                        proof {
                            lemma_moved_twice(
                                spaced,
                                opened,
                                scanner,
                                1,
                                string_scan(rest.skip(1), seq!['"']).1,
                            );
                            token = Some(TokenView::String(svalue@));
                            assert(lex_one(rest) == (
                                Lexeme::Token(token->0),
                                1 + string_scan(rest.skip(1), seq!['"']).1,
                            ));
                        }
                        result.push(TokenInfo::new(Token::String(svalue), pos));
                    } else if !scanner.eol() {
                        return Err(
                            LexError { character: scanner.top(), line: pos.0, column: pos.1 },
                        );
                    }
                },
            }
            proof {
                let tail = lex_from(scanner.remaining(), scanner.spec_position());
                let whole = lex_from(text, begin.spec_position());
                match token {
                    Some(view) => {
                        let info = TokenInfoView { token: view, ..here_view };
                        assert(whole == after(seq![info], tail));
                        lemma_after_after(found, seq![info], tail);
                        assert(found + seq![info] =~= found.push(info));
                        assert(result@.len() == before.len() + 1);
                        assert(result@[before.len() as int]@ == info);
                        assert forall|i: int| 0 <= i < found.len() + 1 implies (
                        #[trigger] result@[i + 1])@ == found.push(info)[i] by {
                            if i < found.len() {
                                assert(result@[i + 1] == before[i + 1]);
                            }
                        }
                        assert(result@[0] == before[0]);
                        found = found.push(info);
                    },
                    None => {
                        assert(result@ == before);
                        assert(whole == tail);
                    },
                }
            }
        }
        proof {
            lemma_lex_step(scanner.remaining(), scanner.spec_position());
            lemma_after_after(seq![first], found, lex_from(data@, (1, 1)));
            assert(found + Seq::<TokenInfoView>::empty() =~= found);
            assert forall|i: int| 0 <= i < result@.len() implies token_views(result@)[i] == (seq![
                first,
            ] + found)[i] by {
                if i > 0 {
                    assert(result@[(i - 1) + 1]@ == found[i - 1]);
                }
            }
            assert(token_views(result@) =~= seq![first] + found);
        }
        Ok(result)
    }
}

} // verus!
