//! Character classes of the schema language, and the size of a character in
//! UTF-8.

use vstd::prelude::*;
use vstd::utf8::*;

verus! {

/// Whether `c` is one of the ten ASCII decimal digits.
pub open spec fn spec_is_digit(c: char) -> bool {
    '0' <= c && c <= '9'
}

/// Whether `c` is one of the ten ASCII decimal digits.
#[verifier::when_used_as_spec(spec_is_digit)]
pub fn is_digit(c: char) -> (r: bool)
    ensures
        r == spec_is_digit(c),
{
    '0' <= c && c <= '9'
}

/// The number that the decimal digit `c` stands for.
pub open spec fn spec_digit_value(c: char) -> int {
    c as int - '0' as int
}

/// The number that the decimal digit `c` stands for.
pub fn digit_value(c: char) -> (r: u8)
    requires
        spec_is_digit(c),
    ensures
        r as int == spec_digit_value(c),
        r <= 9,
{
    let code: u32 = c as u32;
    (code - 48) as u8
}

/// Whether `c` is white space: a character with the Unicode property
/// `White_Space`.
pub open spec fn spec_is_whitespace(c: char) -> bool {
    let code = c as u32;
    ||| 0x09 <= code <= 0x0d
    ||| code == 0x20
    ||| code == 0x85
    ||| code == 0xa0
    ||| code == 0x1680
    ||| 0x2000 <= code <= 0x200a
    ||| code == 0x2028
    ||| code == 0x2029
    ||| code == 0x202f
    ||| code == 0x205f
    ||| code == 0x3000
}

/// Whether `c` is white space: a character with the Unicode property
/// `White_Space`.
#[verifier::when_used_as_spec(spec_is_whitespace)]
pub fn is_whitespace(c: char) -> (r: bool)
    ensures
        r == spec_is_whitespace(c),
{
    let code: u32 = c as u32;
    (0x09 <= code && code <= 0x0d) || code == 0x20 || code == 0x85 || code == 0xa0 || code
        == 0x1680 || (0x2000 <= code && code <= 0x200a) || code == 0x2028 || code == 0x2029
        || code == 0x202f || code == 0x205f || code == 0x3000
}

/// The number of bytes that `c` takes in UTF-8.
pub open spec fn utf8_len(c: char) -> nat {
    let code = c as u32;
    if code < 0x80 {
        1
    } else if code < 0x800 {
        2
    } else if code < 0x1_0000 {
        3
    } else {
        4
    }
}

/// The number of bytes that `text` takes in UTF-8.
pub open spec fn utf8_size(text: Seq<char>) -> nat
    decreases text.len(),
{
    if text.len() == 0 {
        0
    } else {
        utf8_len(text[0]) + utf8_size(text.drop_first())
    }
}

/// The number of bytes that `c` takes in UTF-8.
pub fn len_utf8(c: char) -> (r: usize)
    ensures
        r == utf8_len(c),
        1 <= r <= 4,
{
    let code: u32 = c as u32;
    if code < 0x80 {
        1
    } else if code < 0x800 {
        2
    } else if code < 0x1_0000 {
        3
    } else {
        4
    }
}

/// `utf8_len` is the length of the encoding of one character.
pub proof fn lemma_utf8_len_is_encoding_len(c: char)
    ensures
        encode_scalar(c as u32).len() == utf8_len(c),
{
    let code = c as u32;
    char_is_scalar(c);
    assert(has_width_1_encoding(code) == (code < 0x80));
    assert(has_width_2_encoding(code) == (0x80 <= code < 0x800));
    assert(has_width_3_encoding(code) == (0x800 <= code < 0x1_0000));
}

/// The size of a text grows by the size of a character put after it.
pub proof fn lemma_utf8_size_push(text: Seq<char>, c: char)
    ensures
        utf8_size(text.push(c)) == utf8_size(text) + utf8_len(c),
    decreases text.len(),
{
    if text.len() == 0 {
        assert(text.push(c).drop_first() =~= Seq::<char>::empty());
        assert(utf8_size(text.push(c).drop_first()) == 0);
    } else {
        assert(text.push(c).drop_first() =~= text.drop_first().push(c));
        lemma_utf8_size_push(text.drop_first(), c);
    }
}

/// `utf8_size` is the length of the encoding of a text.
pub proof fn lemma_utf8_size_is_encoding_len(text: Seq<char>)
    ensures
        encode_utf8(text).len() == utf8_size(text),
        text.len() <= utf8_size(text),
    decreases text.len(),
{
    if text.len() > 0 {
        lemma_utf8_len_is_encoding_len(text[0]);
        lemma_utf8_size_is_encoding_len(text.drop_first());
    }
}

/// The character at the head of a text, or NUL for the empty text.
pub open spec fn first_or_nul(text: Seq<char>) -> char {
    if text.len() > 0 {
        text[0]
    } else {
        '\0'
    }
}

} // verus!
