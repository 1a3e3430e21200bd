//! Writing numbers and characters into strings.

use vstd::prelude::*;
use vstd::string::*;
use crate::decimal::Decimal;
use crate::lexer::str_head_tail;

verus! {

/// `String::push` of std puts one character after the ones that the string
/// holds and changes nothing else.
pub assume_specification[ std::string::String::push ](text: &mut std::string::String, c: char)
    ensures
        final(text)@ == old(text)@.push(c),
;

/// Whether the two texts are the same.
pub fn same_text(a: &str, b: &str) -> (r: bool)
    ensures
        r == (a@ == b@),
{
    let mut left = a;
    let mut right = b;
    let ghost mut n: int = 0;
    proof {
        assert(a@.skip(0) =~= a@);
        assert(b@.skip(0) =~= b@);
    }
    loop
        invariant
            0 <= n <= a@.len(),
            n <= b@.len(),
            left@ == a@.skip(n),
            right@ == b@.skip(n),
            forall|i: int| 0 <= i < n ==> a@[i] == b@[i],
        decreases a@.len() - n,
    {
        if left.is_empty() {
            proof {
                if right@.len() == 0 {
                    assert(a@ =~= b@);
                }
            }
            return right.is_empty();
        }
        if right.is_empty() {
            return false;
        }
        let (x, left_rest) = str_head_tail(left);
        let (y, right_rest) = str_head_tail(right);
        proof {
            assert(a@[n] == x);
            assert(b@[n] == y);
        }
        if x != y {
            return false;
        }
        proof {
            assert(a@.skip(n).drop_first() =~= a@.skip(n + 1));
            assert(b@.skip(n).drop_first() =~= b@.skip(n + 1));
            n = n + 1;
        }
        left = left_rest;
        right = right_rest;
    }
}

/// The character of the decimal digit `d`.
pub open spec fn digit_char(d: int) -> char
    recommends
        0 <= d <= 9,
{
    (d + '0' as int) as char
}

/// The decimal digits of `n`, the most significant first and without
/// leading zeros; one zero for 0.
pub open spec fn natural_text(n: nat) -> Seq<char>
    decreases n,
{
    if n < 10 {
        seq![digit_char(n as int)]
    } else {
        natural_text(n / 10).push(digit_char((n % 10) as int))
    }
}

/// The decimal digits of `n`, after a minus sign if it is below zero.
pub open spec fn integer_text(n: int) -> Seq<char> {
    if n < 0 {
        seq!['-'] + natural_text((-n) as nat)
    } else {
        natural_text(n as nat)
    }
}

/// The text of a decimal: the mantissa, the letter `e` and the exponent, with
/// a minus sign in front if the number is marked as negative.
pub open spec fn decimal_text(d: Decimal) -> Seq<char> {
    (if d.negative {
        seq!['-']
    } else {
        Seq::<char>::empty()
    }) + natural_text(d.mantissa as nat) + seq!['e'] + integer_text(d.exponent as int)
}

/// Puts the decimal digits of `n` after the text in `out`.
pub fn append_natural(out: &mut String, n: u64)
    ensures
        final(out)@ == old(out)@ + natural_text(n as nat),
    decreases n,
{
    if n >= 10 {
        append_natural(out, n / 10);
    }
    let d: u8 = (n % 10) as u8;
    let c: char = (d + 48) as char;
    out.push(c);
    proof {
        let low = seq![digit_char((n % 10) as int)];
        if n >= 10 {
            assert(old(out)@ + natural_text(n as nat) =~= (old(out)@ + natural_text(
                (n / 10) as nat,
            )).push(c));
        } else {
            assert(old(out)@ + natural_text(n as nat) =~= old(out)@.push(c));
        }
    }
}

/// Puts the decimal digits of `n` after the text in `out`, with a minus sign
/// if `n` is below zero.
pub fn append_integer(out: &mut String, n: i64)
    ensures
        final(out)@ == old(out)@ + integer_text(n as int),
{
    if n < 0 {
        out.push('-');
        let magnitude: u64 = (-(n as i128)) as u64;
        append_natural(out, magnitude);
        proof {
            assert(old(out)@ + integer_text(n as int) =~= old(out)@.push('-') + natural_text(
                magnitude as nat,
            ));
        }
    } else {
        append_natural(out, n as u64);
    }
}

/// Puts the text of the decimal `d` after the text in `out`.
pub fn append_decimal(out: &mut String, d: &Decimal)
    ensures
        final(out)@ == old(out)@ + decimal_text(*d),
{
    if d.negative {
        out.push('-');
    }
    append_natural(out, d.mantissa);
    out.push('e');
    append_integer(out, d.exponent);
    proof {
        let sign = if d.negative {
            seq!['-']
        } else {
            Seq::<char>::empty()
        };
        assert(old(out)@ + decimal_text(*d) =~= (old(out)@ + sign + natural_text(
            d.mantissa as nat,
        )).push('e') + integer_text(d.exponent as int));
    }
}

/// The text `unit`, `n` times in a row.
pub open spec fn repeated(unit: Seq<char>, n: nat) -> Seq<char>
    decreases n,
{
    if n == 0 {
        Seq::<char>::empty()
    } else {
        repeated(unit, (n - 1) as nat) + unit
    }
}

/// The text `unit`, `n` times in a row.
pub fn repeat_text(unit: &str, n: usize) -> (r: String)
    ensures
        r@ == repeated(unit@, n as nat),
{
    let mut out = String::new();
    let mut i: usize = 0;
    while i < n
        invariant
            i <= n,
            out@ == repeated(unit@, i as nat),
        decreases n - i,
    {
        out.append(unit);
        i += 1;
    }
    out
}

/// The texts `items` in a row, with `sep` between each two of them.
pub open spec fn joined(items: Seq<Seq<char>>, sep: Seq<char>) -> Seq<char>
    decreases items.len(),
{
    if items.len() == 0 {
        Seq::<char>::empty()
    } else if items.len() == 1 {
        items[0]
    } else {
        joined(items.drop_last(), sep) + sep + items.last()
    }
}

/// The texts of a sequence of strings.
pub open spec fn texts(items: Seq<String>) -> Seq<Seq<char>> {
    Seq::new(items.len(), |i: int| items[i]@)
}

/// The strings `items` in a row, with `sep` between each two of them.
pub fn join_texts(items: &Vec<String>, sep: &str) -> (r: String)
    ensures
        r@ == joined(texts(items@), sep@),
{
    let mut out = String::new();
    let mut i: usize = 0;
    let ghost all = texts(items@);
    proof {
        assert(all.take(0) =~= Seq::<Seq<char>>::empty());
    }
    while i < items.len()
        invariant
            i <= items.len(),
            all == texts(items@),
            out@ == joined(all.take(i as int), sep@),
        decreases items.len() - i,
    {
        if i > 0 {
            out.append(sep);
        }
        out.append(items[i].as_str());
        proof {
            let longer = all.take(i + 1);
            assert(longer.drop_last() =~= all.take(i as int));
            assert(longer.last() == items@[i as int]@);
            if i == 0 {
                assert(out@ =~= longer[0]);
            }
        }
        i += 1;
    }
    proof {
        assert(all.take(items@.len() as int) =~= all);
    }
    out
}

/// The text between double quotes, with a backslash in front of every
/// double quote and backslash in it.
pub open spec fn quoted(text: Seq<char>) -> Seq<char> {
    seq!['"'] + escaped(text) + seq!['"']
}

/// The text with a backslash in front of every double quote and backslash.
pub open spec fn escaped(text: Seq<char>) -> Seq<char>
    decreases text.len(),
{
    if text.len() == 0 {
        Seq::<char>::empty()
    } else {
        escaped(text.drop_last()) + (if text.last() == '"' || text.last() == '\\' {
            seq!['\\', text.last()]
        } else {
            seq![text.last()]
        })
    }
}

/// Puts `text` after the text in `out`, between double quotes and with a
/// backslash in front of every double quote and backslash in it.
pub fn append_quoted(out: &mut String, text: &str)
    ensures
        final(out)@ == old(out)@ + quoted(text@),
{
    out.push('"');
    let ghost start = out@;
    let ghost mut n: int = 0;
    let mut rest = text;
    proof {
        assert(text@.skip(0) =~= text@);
        assert(text@.take(0) =~= Seq::<char>::empty());
        assert(start + escaped(text@.take(0)) =~= start);
    }
    while !rest.is_empty()
        invariant
            0 <= n <= text@.len(),
            rest@ == text@.skip(n),
            out@ == start + escaped(text@.take(n)),
        decreases text@.len() - n,
    {
        let (c, tail) = str_head_tail(rest);
        if c == '"' || c == '\\' {
            out.push('\\');
        }
        out.push(c);
        proof {
            assert(text@[n] == c);
            assert(text@.skip(n).drop_first() =~= text@.skip(n + 1));
            assert(text@.take(n + 1).drop_last() =~= text@.take(n));
            assert(text@.take(n + 1).last() == c);
            assert(out@ =~= start + escaped(text@.take(n + 1)));
            n = n + 1;
        }
        rest = tail;
    }
    out.push('"');
    proof {
        assert(text@.take(n) =~= text@);
        assert(out@ =~= old(out)@ + quoted(text@));
    }
}

} // verus!
