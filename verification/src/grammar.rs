//! The grammar of the schema language, as functions from a token stream and
//! a cursor to what the parser makes of them.

use vstd::prelude::*;
use crate::decimal::Decimal;
use crate::helpers::{interval_admits, listed, PossibleSeq};
use crate::object_base::ObjectBase;
use crate::objects::{field_index, put_field, put_option, AnyType, AnyTypeView, BooleanType,
    BooleanTypeView, ElementView, FieldTypeView, FloatingType, IntegerType, NumberTypeView,
    ObjectType, ObjectTypeView, OptionView, StringType, StringTypeView};
use crate::tokens::TypeName;
use crate::parser::{ValueReadCheck, WithEnum, WithInterval};
use crate::text::{decimal_text, integer_text, natural_text};
use crate::tokens::{token_text, SpecialToken, TokenInfoView, TokenView};

verus! {

/// Where the parser stands in the stream: the place of the token that it has
/// taken last, and the place of the one that comes next.
pub struct Cursor {
    pub current: int,
    pub next: int,
}

/// The token that closes every stream. It stands behind the last token, and
/// its position is the length of the stream, twice.
pub open spec fn eof_info(toks: Seq<TokenInfoView>) -> TokenInfoView {
    TokenInfoView {
        token: TokenView::Eof,
        position: (toks.len() as usize, toks.len() as usize),
        literal: Seq::<char>::empty(),
    }
}

/// The token at the place `i`; behind the stream it is the closing token.
pub open spec fn token_at(toks: Seq<TokenInfoView>, i: int) -> TokenInfoView {
    if 0 <= i < toks.len() {
        toks[i]
    } else {
        eof_info(toks)
    }
}

/// Whether the cursor lies within the stream.
pub open spec fn cursor_ok(toks: Seq<TokenInfoView>, at: Cursor) -> bool {
    0 <= at.current <= at.next <= toks.len()
}

/// The cursor at the start of a stream.
pub open spec fn start(toks: Seq<TokenInfoView>) -> Cursor {
    Cursor {
        current: 0,
        next: if toks.len() == 0 {
            0
        } else {
            1
        },
    }
}

/// The cursor after one token was taken: the next token becomes the current
/// one. At the end of the stream the next place stays where it is.
pub open spec fn step(toks: Seq<TokenInfoView>, at: Cursor) -> Cursor {
    Cursor {
        current: at.next,
        next: if at.next == toks.len() {
            at.next
        } else {
            at.next + 1
        },
    }
}

/// Takes the next token if `wanted` holds of it: whether it did, and the
/// cursor after that.
pub open spec fn accept(toks: Seq<TokenInfoView>, at: Cursor, wanted: spec_fn(TokenView) -> bool)
    -> (bool, Cursor) {
    if wanted(token_at(toks, at.next).token) {
        (true, step(toks, at))
    } else {
        (false, at)
    }
}

/// Takes the next token if it is the sign `sign`.
pub open spec fn accept_special(toks: Seq<TokenInfoView>, at: Cursor, sign: SpecialToken) -> (
    bool,
    Cursor,
) {
    accept(toks, at, |token: TokenView| token == TokenView::Special(sign))
}

/// Takes the next token if it is `=` or `:`.
pub open spec fn accept_assign(toks: Seq<TokenInfoView>, at: Cursor) -> (bool, Cursor) {
    if accept_special(toks, at, SpecialToken::Equal).0 {
        accept_special(toks, at, SpecialToken::Equal)
    } else {
        accept_special(toks, at, SpecialToken::Colon)
    }
}

/// The cursor after the next token was taken if it is the sign `sign`.
pub open spec fn skip_special(toks: Seq<TokenInfoView>, at: Cursor, sign: SpecialToken) -> Cursor {
    accept_special(toks, at, sign).1
}

/// The kinds of errors of the parser.
#[derive(Clone, Copy, PartialEq, Eq, Structural, Debug)]
pub enum ErrorKind {
    /// The next token is not what the grammar asks for.
    UnexpectedToken,
    /// A value is not listed in the enumeration of its field.
    EnumViolation,
    /// A value lies outside the interval of its field.
    IntervalViolation,
    /// A literal cannot be a value of the type of its field.
    InvalidLiteral,
    /// No type name stands where the type of a field is due.
    MissingType,
    /// A field is declared twice in one object.
    DuplicateField,
    /// A field of an object literal is not declared, and no value follows
    /// from which its type could be taken.
    UnresolvedField,
    /// An error that was made from a message alone.
    Other,
}

/// An error of the parser as a plain value.
pub struct ParserErrorView {
    pub kind: ErrorKind,
    pub msg: Seq<char>,
}

/// The error for a next token that is not what the grammar asks for: the
/// message names the token, its line and column, and what was expected.
pub open spec fn unexpected(toks: Seq<TokenInfoView>, at: Cursor, expected: Seq<char>)
    -> ParserErrorView {
    let found = token_at(toks, at.next);
    ParserErrorView {
        kind: ErrorKind::UnexpectedToken,
        msg: "unexpected '"@ + token_text(found.token) + "' at "@ + natural_text(
            found.position.0 as nat,
        ) + seq![':'] + natural_text(found.position.1 as nat) + ". Expected '"@ + expected
            + seq!['\''],
    }
}

/// The error of the kind `kind` for the current token: the message names the
/// token, its line and column, and says what is wrong in `note`.
pub open spec fn mistaken(toks: Seq<TokenInfoView>, at: Cursor, kind: ErrorKind, note: Seq<char>)
    -> ParserErrorView {
    let found = token_at(toks, at.current);
    ParserErrorView {
        kind,
        msg: "current '"@ + token_text(found.token) + "' at "@ + natural_text(
            found.position.0 as nat,
        ) + seq![':'] + natural_text(found.position.1 as nat) + ". "@ + note,
    }
}

/// Reads a name: the text of the next token if it is an identifier or a
/// string, else the literal text of the token if it has one. Whether a name
/// was found, the name, and the cursor, which has moved on if there was one.
pub open spec fn name_read(toks: Seq<TokenInfoView>, at: Cursor) -> (bool, Seq<char>, Cursor) {
    let info = token_at(toks, at.next);
    match info.token {
        TokenView::Ident(value) => (true, value, step(toks, at)),
        TokenView::String(value) => (true, value, step(toks, at)),
        _ => if info.literal.len() > 0 {
            (true, info.literal, step(toks, at))
        } else {
            (false, Seq::<char>::empty(), at)
        },
    }
}

/// Reads a sign in front of a number: if the current token is `-` or `+`,
/// the token behind it becomes the current one. Whether the sign was `-`,
/// and the cursor after that.
pub open spec fn sign_read(toks: Seq<TokenInfoView>, at: Cursor) -> (bool, Cursor) {
    let token = token_at(toks, at.current).token;
    if token == TokenView::Special(SpecialToken::Minus) {
        (true, step(toks, at))
    } else if token == TokenView::Special(SpecialToken::Plus) {
        (false, step(toks, at))
    } else {
        (false, at)
    }
}

/// What reading a value gives: the field with the value and the cursor
/// behind it, or an error.
pub type Outcome<V> = Result<(V, Cursor), ParserErrorView>;

/// Whether a number may start with the token: a whole number or a sign.
pub open spec fn starts_integer(token: TokenView) -> bool {
    token is Integer || token == TokenView::Special(SpecialToken::Plus) || token
        == TokenView::Special(SpecialToken::Minus)
}

/// Whether a decimal may start with the token: a number or a sign.
pub open spec fn starts_floating(token: TokenView) -> bool {
    token is Floating || starts_integer(token)
}

/// The whole number `val` with the sign that was read in front of it.
pub open spec fn signed_integer(minus: bool, val: i64) -> i64 {
    if minus {
        val.wrapping_mul(-1i64)
    } else {
        val
    }
}

/// The decimal `val` with the sign that was read in front of it.
pub open spec fn signed_decimal(minus: bool, val: Decimal) -> Decimal {
    if minus {
        val.opposite()
    } else {
        val
    }
}

/// The decimal that a number token stands for.
pub open spec fn decimal_of_token(token: TokenView) -> Option<Decimal> {
    match token {
        TokenView::Floating(val) => Some(val),
        TokenView::Integer(val) => Some(Decimal::of_integer(val)),
        _ => None,
    }
}

/// A string field after its current token was read as its value: the text
/// must be listed if the field has an enumeration. Any other token than a
/// string is passed over.
pub open spec fn string_value_read(value: StringTypeView, toks: Seq<TokenInfoView>, at: Cursor)
    -> Outcome<StringTypeView> {
    match token_at(toks, at.current).token {
        TokenView::String(val) => {
            if value.enum_values matches Some(vals) && !vals.contains(val) {
                Err(
                    mistaken(
                        toks,
                        at,
                        ErrorKind::EnumViolation,
                        "Value '"@ + val + "' is not valid for enum."@,
                    ),
                )
            } else {
                Ok((StringTypeView { value: value.value.with(val), ..value }, at))
            }
        },
        _ => Ok((value, at)),
    }
}

/// An integer field after a sign and the token behind it were read as its
/// value: the number must be listed if the field has an enumeration, and lie
/// within its interval. Any other token than a whole number is passed over.
pub open spec fn integer_value_read(
    value: NumberTypeView<i64>,
    toks: Seq<TokenInfoView>,
    at: Cursor,
) -> Outcome<NumberTypeView<i64>> {
    let (minus, to) = sign_read(toks, at);
    match token_at(toks, to.current).token {
        TokenView::Integer(val) => {
            let result = signed_integer(minus, val);
            if value.enum_values matches Some(vals) && !listed(vals, result) {
                Err(
                    mistaken(
                        toks,
                        to,
                        ErrorKind::EnumViolation,
                        "Value "@ + integer_text(result as int) + " is invalid for integer enum"@,
                    ),
                )
            } else if !interval_admits(value.bounds, result) {
                Err(
                    mistaken(
                        toks,
                        to,
                        ErrorKind::IntervalViolation,
                        "Value "@ + integer_text(result as int)
                            + " is invalid for integer interval"@,
                    ),
                )
            } else {
                Ok((NumberTypeView { value: value.value.with(result), ..value }, to))
            }
        },
        _ => Ok((value, to)),
    }
}

/// A floating field after a sign and the token behind it were read as its
/// value: the token must be a number, and the number must be listed if the
/// field has an enumeration, and lie within its interval.
pub open spec fn floating_value_read(
    value: NumberTypeView<Decimal>,
    toks: Seq<TokenInfoView>,
    at: Cursor,
) -> Outcome<NumberTypeView<Decimal>> {
    let (minus, to) = sign_read(toks, at);
    match decimal_of_token(token_at(toks, to.current).token) {
        Some(val) => {
            let result = signed_decimal(minus, val);
            if value.enum_values matches Some(vals) && !listed(vals, result) {
                Err(
                    mistaken(
                        toks,
                        to,
                        ErrorKind::EnumViolation,
                        "Value "@ + decimal_text(result) + " is invalid for floating enum"@,
                    ),
                )
            } else if !interval_admits(value.bounds, result) {
                Err(
                    mistaken(
                        toks,
                        to,
                        ErrorKind::IntervalViolation,
                        "Value "@ + decimal_text(result) + " is invalid for floating interval"@,
                    ),
                )
            } else {
                Ok((NumberTypeView { value: value.value.with(result), ..value }, to))
            }
        },
        None => Err(mistaken(toks, to, ErrorKind::InvalidLiteral, "Should not be here"@)),
    }
}

/// A boolean field after its current token was read as its value. Any other
/// token than a boolean is passed over.
pub open spec fn boolean_value_read(value: BooleanTypeView, toks: Seq<TokenInfoView>, at: Cursor)
    -> Outcome<BooleanTypeView> {
    match token_at(toks, at.current).token {
        TokenView::Boolean(val) => Ok((BooleanTypeView { value: value.value.with(val) }, at)),
        _ => Ok((value, at)),
    }
}

/// A number field with `val` as its lower or its upper bound.
pub open spec fn with_bound<T>(value: NumberTypeView<T>, val: T, upper: bool) -> NumberTypeView<T> {
    if upper {
        NumberTypeView { bounds: (value.bounds.0, Some(val)), ..value }
    } else {
        NumberTypeView { bounds: (Some(val), value.bounds.1), ..value }
    }
}

/// A number field after `val` was listed in its enumeration. The first
/// number that is listed becomes the value of the field as well; a number
/// that is listed already is not listed again.
pub open spec fn number_listed<T: crate::helpers::Numeric>(value: NumberTypeView<T>, val: T)
    -> NumberTypeView<T> {
    match value.enum_values {
        Some(vals) => if listed(vals, val) {
            value
        } else {
            NumberTypeView { enum_values: Some(vals.push(val)), ..value }
        },
        None => NumberTypeView {
            value: value.value.with(val),
            enum_values: Some(seq![val]),
            ..value
        },
    }
}

/// A string field after `val` was listed in its enumeration. The first text
/// that is listed becomes the value of the field as well; a text that is
/// listed already is not listed again.
pub open spec fn string_listed(value: StringTypeView, val: Seq<char>) -> StringTypeView {
    match value.enum_values {
        Some(vals) => if vals.contains(val) {
            value
        } else {
            StringTypeView { enum_values: Some(vals.push(val)), ..value }
        },
        None => StringTypeView { value: value.value.with(val), enum_values: Some(seq![val]) },
    }
}

/// An integer field after a sign and the token behind it were read as a
/// bound of its interval. Any other token than a whole number is passed
/// over.
pub open spec fn integer_bound_read(
    value: NumberTypeView<i64>,
    toks: Seq<TokenInfoView>,
    at: Cursor,
    upper: bool,
) -> (NumberTypeView<i64>, Cursor) {
    let (minus, to) = sign_read(toks, at);
    match token_at(toks, to.current).token {
        TokenView::Integer(val) => (with_bound(value, signed_integer(minus, val), upper), to),
        _ => (value, to),
    }
}

/// A floating field after a sign and the token behind it were read as a
/// bound of its interval. Any other token than a number is passed over.
pub open spec fn floating_bound_read(
    value: NumberTypeView<Decimal>,
    toks: Seq<TokenInfoView>,
    at: Cursor,
    upper: bool,
) -> (NumberTypeView<Decimal>, Cursor) {
    let (minus, to) = sign_read(toks, at);
    match decimal_of_token(token_at(toks, to.current).token) {
        Some(val) => (with_bound(value, signed_decimal(minus, val), upper), to),
        None => (value, to),
    }
}

/// An integer field after a sign and the token behind it were read as a
/// member of its enumeration. Any other token than a whole number is passed
/// over.
pub open spec fn integer_member_read(
    value: NumberTypeView<i64>,
    toks: Seq<TokenInfoView>,
    at: Cursor,
) -> (NumberTypeView<i64>, Cursor) {
    let (minus, to) = sign_read(toks, at);
    match token_at(toks, to.current).token {
        TokenView::Integer(val) => (number_listed(value, signed_integer(minus, val)), to),
        _ => (value, to),
    }
}

/// A floating field after a sign and the token behind it were read as a
/// member of its enumeration. Any other token than a number is passed over.
pub open spec fn floating_member_read(
    value: NumberTypeView<Decimal>,
    toks: Seq<TokenInfoView>,
    at: Cursor,
) -> (NumberTypeView<Decimal>, Cursor) {
    let (minus, to) = sign_read(toks, at);
    match decimal_of_token(token_at(toks, to.current).token) {
        Some(val) => (number_listed(value, signed_decimal(minus, val)), to),
        None => (value, to),
    }
}

/// A string field after its current token was read as a member of its
/// enumeration. Any other token than a string is passed over.
pub open spec fn string_member_read(value: StringTypeView, toks: Seq<TokenInfoView>, at: Cursor)
    -> (StringTypeView, Cursor) {
    match token_at(toks, at.current).token {
        TokenView::String(val) => (string_listed(value, val), at),
        _ => (value, at),
    }
}

/// Takes the next token if a value of the type `T` may start with it.
pub open spec fn accept_value<T: ValueReadCheck>(toks: Seq<TokenInfoView>, at: Cursor) -> (
    bool,
    Cursor,
) {
    accept(toks, at, |token: TokenView| T::accepts(token))
}

/// The start of a type: the suffix `[` `]` makes the field an array field.
#[verifier::opaque]
pub open spec fn begin_read<T: ObjectBase>(value: T::V, toks: Seq<TokenInfoView>, at: Cursor)
    -> Outcome<T::V> {
    let (opened, inside) = accept_special(toks, at, SpecialToken::LBracket);
    if opened {
        let (closed, behind) = accept_special(toks, inside, SpecialToken::RBracket);
        if closed {
            Ok((T::emptied(value), behind))
        } else {
            Err(unexpected(toks, inside, "]"@))
        }
    } else {
        Ok((value, at))
    }
}

/// The upper bound of an interval, which may follow `..`: the field with
/// the bound if a number stands there.
pub open spec fn upper_bound_read<T: ValueReadCheck + WithInterval>(
    value: T::V,
    toks: Seq<TokenInfoView>,
    at: Cursor,
) -> (T::V, Cursor) {
    let (found, to) = accept_value::<T>(toks, at);
    if found {
        T::bound_read(value, toks, to, true)
    } else {
        (value, at)
    }
}

/// An interval, if one stands at the cursor: a number, `..` and optionally a
/// number, or `..` and optionally a number. Whether there was one, the field
/// with the bounds, and the cursor behind the interval.
#[verifier::opaque]
pub open spec fn interval_read<T: ValueReadCheck + WithInterval>(
    value: T::V,
    toks: Seq<TokenInfoView>,
    at: Cursor,
) -> Result<(bool, T::V, Cursor), ParserErrorView> {
    let (first, at_lower) = accept_value::<T>(toks, at);
    if first {
        let (with_lower, behind_lower) = T::bound_read(value, toks, at_lower, false);
        let (dots, behind_dots) = accept_special(toks, behind_lower, SpecialToken::Interval);
        if dots {
            let (with_upper, behind) = upper_bound_read::<T>(with_lower, toks, behind_dots);
            Ok((true, with_upper, behind))
        } else {
            Err(unexpected(toks, behind_lower, ".."@))
        }
    } else {
        let (dots, behind_dots) = accept_special(toks, at, SpecialToken::Interval);
        if dots {
            let (with_upper, behind) = upper_bound_read::<T>(value, toks, behind_dots);
            Ok((true, with_upper, behind))
        } else {
            Ok((false, value, at))
        }
    }
}

/// The members of an enumeration: values of the type, each optionally
/// followed by a comma. The field with the members listed and the cursor
/// behind the last of them.
pub open spec fn members_read<T: ValueReadCheck + WithEnum>(
    value: T::V,
    toks: Seq<TokenInfoView>,
    at: Cursor,
) -> (T::V, Cursor)
    decreases toks.len() - at.next,
{
    let (found, at_member) = accept_value::<T>(toks, at);
    if found {
        let (listed, behind_member) = T::member_read(value, toks, at_member);
        let behind = skip_special(toks, behind_member, SpecialToken::Comma);
        if at.next < behind.next <= toks.len() {
            members_read::<T>(listed, toks, behind)
        } else {
            (listed, behind)
        }
    } else {
        (value, at)
    }
}

/// An enumeration, if one stands at the cursor: `enum`, `{`, the members
/// and `}`. Whether there was one, the field with the members listed, and the
/// cursor behind the enumeration.
#[verifier::opaque]
pub open spec fn enum_read<T: ValueReadCheck + WithEnum>(
    value: T::V,
    toks: Seq<TokenInfoView>,
    at: Cursor,
) -> Result<(bool, T::V, Cursor), ParserErrorView> {
    let (found, behind_word) = accept_special(toks, at, SpecialToken::Enum);
    if found {
        let (opened, inside) = accept_special(toks, behind_word, SpecialToken::LBrace);
        if opened {
            let (listed, behind_members) = members_read::<T>(value, toks, inside);
            let (closed, behind) = accept_special(toks, behind_members, SpecialToken::RBrace);
            if closed {
                Ok((true, listed, behind))
            } else {
                Err(unexpected(toks, behind_members, "} or "@ + T::expected_text()))
            }
        } else {
            Err(unexpected(toks, behind_word, "{"@))
        }
    } else {
        Ok((false, value, at))
    }
}

/// The items of an array literal behind its `[`: values of the type, each
/// optionally followed by a comma, and `]`.
pub open spec fn array_read<T: ValueReadCheck>(value: T::V, toks: Seq<TokenInfoView>, at: Cursor)
    -> Outcome<T::V>
    decreases toks.len() - at.next,
{
    let (found, at_item) = accept_value::<T>(toks, at);
    if found {
        match T::value_read(value, toks, at_item) {
            Ok((with_item, behind_item)) => {
                let behind = skip_special(toks, behind_item, SpecialToken::Comma);
                if at.next < behind.next <= toks.len() {
                    array_read::<T>(with_item, toks, behind)
                } else {
                    Ok((with_item, behind))
                }
            },
            Err(error) => Err(error),
        }
    } else {
        let (closed, behind) = accept_special(toks, at, SpecialToken::RBracket);
        if closed {
            Ok((value, behind))
        } else {
            Err(unexpected(toks, at, "] or "@ + T::expected_text()))
        }
    }
}

/// A literal of the type: one value for a plain field, and for an array
/// field `[`, the items and `]`.
#[verifier::opaque]
pub open spec fn literal_read<T: ValueReadCheck + ObjectBase>(
    value: T::V,
    toks: Seq<TokenInfoView>,
    at: Cursor,
) -> Outcome<T::V> {
    if !T::holds_array(value) {
        let (found, at_value) = accept_value::<T>(toks, at);
        if found {
            T::value_read(value, toks, at_value)
        } else {
            Err(unexpected(toks, at, T::expected_text()))
        }
    } else {
        let (opened, inside) = accept_special(toks, at, SpecialToken::LBracket);
        if opened {
            array_read::<T>(value, toks, inside)
        } else {
            Err(unexpected(toks, at, "["@))
        }
    }
}

/// The value of a field, if one is given: `=` or `:` and a literal.
#[verifier::opaque]
pub open spec fn assigned_read<T: ValueReadCheck + ObjectBase>(
    value: T::V,
    toks: Seq<TokenInfoView>,
    at: Cursor,
) -> Outcome<T::V> {
    let (found, behind) = accept_assign(toks, at);
    if found {
        literal_read::<T>(value, toks, behind)
    } else {
        Ok((value, at))
    }
}

/// The intervals and enumerations of a number field, read in turn until
/// neither stands at the cursor.
pub open spec fn constraints_read<T: ValueReadCheck + WithInterval + WithEnum>(
    value: T::V,
    toks: Seq<TokenInfoView>,
    at: Cursor,
) -> Outcome<T::V>
    decreases toks.len() - at.next,
{
    match interval_read::<T>(value, toks, at) {
        Ok((had_interval, with_interval, behind_interval)) => match enum_read::<T>(
            with_interval,
            toks,
            behind_interval,
        ) {
            Ok((had_enum, with_enum, behind)) => {
                if (had_interval || had_enum) && at.next < behind.next <= toks.len() {
                    constraints_read::<T>(with_enum, toks, behind)
                } else {
                    Ok((with_enum, behind))
                }
            },
            Err(error) => Err(error),
        },
        Err(error) => Err(error),
    }
}

/// A number field behind its type name: the array suffix, intervals and
/// enumerations, and a value.
#[verifier::opaque]
pub open spec fn number_parse<T: ValueReadCheck + ObjectBase + WithInterval + WithEnum>(
    toks: Seq<TokenInfoView>,
    at: Cursor,
) -> Outcome<T::V> {
    match begin_read::<T>(T::fresh(), toks, at) {
        Ok((begun, behind_begin)) => match constraints_read::<T>(begun, toks, behind_begin) {
            Ok((constrained, behind)) => assigned_read::<T>(constrained, toks, behind),
            Err(error) => Err(error),
        },
        Err(error) => Err(error),
    }
}

/// A string field behind its type name: the array suffix, an enumeration
/// and a value.
#[verifier::opaque]
pub open spec fn string_parse(toks: Seq<TokenInfoView>, at: Cursor) -> Outcome<StringTypeView> {
    match begin_read::<StringType>(StringType::fresh(), toks, at) {
        Ok((begun, behind_begin)) => match enum_read::<StringType>(begun, toks, behind_begin) {
            Ok((_, listed, behind)) => assigned_read::<StringType>(listed, toks, behind),
            Err(error) => Err(error),
        },
        Err(error) => Err(error),
    }
}

/// A boolean field behind its type name: the array suffix and a value.
#[verifier::opaque]
pub open spec fn boolean_parse(toks: Seq<TokenInfoView>, at: Cursor) -> Outcome<BooleanTypeView> {
    match begin_read::<BooleanType>(BooleanType::fresh(), toks, at) {
        Ok((begun, behind)) => assigned_read::<BooleanType>(begun, toks, behind),
        Err(error) => Err(error),
    }
}

/// A fresh field of the kind of `value`: an array field if `value` is one.
pub open spec fn same_kind<T: ObjectBase>(value: T::V) -> T::V {
    if T::holds_array(value) {
        T::emptied(T::fresh())
    } else {
        T::fresh()
    }
}

/// The outcome `outcome` with its value wrapped by `wrap`.
pub open spec fn lifted<V, W>(outcome: Outcome<V>, wrap: spec_fn(V) -> W) -> Outcome<W> {
    match outcome {
        Ok((value, at)) => Ok((wrap(value), at)),
        Err(error) => Err(error),
    }
}

/// The error for a place that the parser never comes to.
pub open spec fn stuck() -> ParserErrorView {
    ParserErrorView { kind: ErrorKind::Other, msg: Seq::<char>::empty() }
}

/// A number with a sign in front of it, whose type is taken from the token
/// behind the sign.
pub open spec fn number_guess(toks: Seq<TokenInfoView>, at: Cursor) -> Outcome<ElementView> {
    let behind_sign = step(toks, at);
    match token_at(toks, behind_sign.next).token {
        TokenView::Integer(_) => lifted(
            literal_read::<IntegerType>(IntegerType::fresh(), toks, at),
            |value: NumberTypeView<i64>| ElementView::Integer(value),
        ),
        TokenView::Floating(_) => lifted(
            literal_read::<FloatingType>(FloatingType::fresh(), toks, at),
            |value: NumberTypeView<Decimal>| ElementView::Floating(value),
        ),
        _ => Err(unexpected(toks, behind_sign, "number value"@)),
    }
}

/// An object with the field `name` holding `value` among its declared
/// fields, without options.
pub open spec fn with_field(object: ObjectTypeView, name: Seq<char>, value: ElementView)
    -> ObjectTypeView {
    ObjectTypeView {
        fields: put_field(
            object.fields,
            FieldTypeView { value, name, opts: Seq::<OptionView>::empty() },
        ),
        ..object
    }
}

/// A value whose type is taken from the value itself: a number, a boolean or
/// a string make a field of their type, `{` starts an object, `[` a list, a
/// sign a number, and `null` is a field of any type that holds nothing.
pub open spec fn element_guess(toks: Seq<TokenInfoView>, at: Cursor) -> Outcome<ElementView>
    decreases toks.len() - at.next, 1int,
{
    match token_at(toks, at.next).token {
        TokenView::Integer(_) => lifted(
            literal_read::<IntegerType>(IntegerType::fresh(), toks, at),
            |value: NumberTypeView<i64>| ElementView::Integer(value),
        ),
        TokenView::Floating(_) => lifted(
            literal_read::<FloatingType>(FloatingType::fresh(), toks, at),
            |value: NumberTypeView<Decimal>| ElementView::Floating(value),
        ),
        TokenView::Boolean(_) => lifted(
            literal_read::<BooleanType>(BooleanType::fresh(), toks, at),
            |value: BooleanTypeView| ElementView::Boolean(value),
        ),
        TokenView::String(_) => lifted(
            literal_read::<StringType>(StringType::fresh(), toks, at),
            |value: StringTypeView| ElementView::String(value),
        ),
        TokenView::Special(SpecialToken::LBrace) => lifted(
            object_guess(ObjectType::fresh(), toks, step(toks, at)),
            |value: ObjectTypeView| ElementView::Object(value),
        ),
        TokenView::Special(SpecialToken::LBracket) => lifted(
            list_guess(AnyType::emptied(AnyType::fresh()), toks, step(toks, at)),
            |value: AnyTypeView| ElementView::Any(value),
        ),
        TokenView::Special(SpecialToken::Minus) => number_guess(toks, at),
        TokenView::Special(SpecialToken::Plus) => number_guess(toks, at),
        TokenView::Special(SpecialToken::Null) => Ok(
            (ElementView::Any(AnyType::fresh()), step(toks, at)),
        ),
        _ => Err(unexpected(toks, at, "valid data"@)),
    }
}

/// The fields of an object whose types are taken from their values, behind
/// the `{` and up to the `}`: a name, optionally `=` or `:`, a value, and
/// optionally a comma. The fields become the declared fields of `object`.
pub open spec fn object_guess(object: ObjectTypeView, toks: Seq<TokenInfoView>, at: Cursor)
    -> Outcome<ObjectTypeView>
    decreases toks.len() - at.next, 2int,
{
    let (closed, behind_brace) = accept_special(toks, at, SpecialToken::RBrace);
    if closed {
        Ok((object, behind_brace))
    } else {
        let (found, name, at_name) = name_read(toks, at);
        if !found {
            Err(unexpected(toks, at, "ident, string or }"@))
        } else {
            let at_value = accept_assign(toks, at_name).1;
            match element_guess(toks, at_value) {
                Ok((element, behind_value)) => {
                    let behind = skip_special(toks, behind_value, SpecialToken::Comma);
                    if at.next < behind.next <= toks.len() {
                        object_guess(with_field(object, name, element), toks, behind)
                    } else {
                        Err(stuck())
                    }
                },
                Err(error) => Err(error),
            }
        }
    }
}

/// The items of a list whose types are taken from the items themselves,
/// behind the `[` and up to the `]`, each optionally followed by a comma.
pub open spec fn list_guess(list: AnyTypeView, toks: Seq<TokenInfoView>, at: Cursor) -> Outcome<
    AnyTypeView,
>
    decreases toks.len() - at.next, 2int,
{
    let (closed, behind_bracket) = accept_special(toks, at, SpecialToken::RBracket);
    if closed {
        Ok((list, behind_bracket))
    } else {
        match element_guess(toks, at) {
            Ok((element, behind_item)) => {
                let behind = skip_special(toks, behind_item, SpecialToken::Comma);
                if at.next < behind.next <= toks.len() {
                    list_guess(
                        AnyTypeView { value: list.value.with(Box::new(Some(element))) },
                        toks,
                        behind,
                    )
                } else {
                    Err(stuck())
                }
            },
            Err(error) => Err(error),
        }
    }
}

/// The boolean field that holds `true`: the value of an option that is
/// given without one.
pub open spec fn switched_on() -> ElementView {
    ElementView::Boolean(BooleanTypeView { value: PossibleSeq::Value(true) })
}

/// The options behind the `(` and up to the `)`: a name, optionally `=` or
/// `:` and a value whose type is taken from the value, and optionally a
/// comma. An option without a value is switched on.
pub open spec fn option_items(options: Seq<OptionView>, toks: Seq<TokenInfoView>, at: Cursor)
    -> Outcome<Seq<OptionView>>
    decreases toks.len() - at.next,
{
    let (closed, behind_paren) = accept_special(toks, at, SpecialToken::RParen);
    if closed {
        Ok((options, behind_paren))
    } else {
        let (found, name, at_name) = name_read(toks, at);
        if !found {
            Err(unexpected(toks, at, "ident or string"@))
        } else {
            let (assigned, at_value) = accept_assign(toks, at_name);
            if assigned {
                match element_guess(toks, at_value) {
                    Ok((element, behind_value)) => {
                        let value = if element is Nil {
                            switched_on()
                        } else {
                            element
                        };
                        let behind = skip_special(toks, behind_value, SpecialToken::Comma);
                        if at.next < behind.next <= toks.len() {
                            option_items(
                                put_option(options, OptionView { name, value }),
                                toks,
                                behind,
                            )
                        } else {
                            Err(stuck())
                        }
                    },
                    Err(error) => Err(error),
                }
            } else {
                let behind = skip_special(toks, at_name, SpecialToken::Comma);
                if at.next < behind.next <= toks.len() {
                    option_items(
                        put_option(options, OptionView { name, value: switched_on() }),
                        toks,
                        behind,
                    )
                } else {
                    Err(stuck())
                }
            }
        }
    }
}

/// The options of a field, if any are given: `(`, the options and `)`.
#[verifier::opaque]
pub open spec fn options_parse(toks: Seq<TokenInfoView>, at: Cursor) -> Outcome<Seq<OptionView>> {
    let (opened, inside) = accept_special(toks, at, SpecialToken::LParen);
    if opened {
        option_items(Seq::<OptionView>::empty(), toks, inside)
    } else {
        Ok((Seq::<OptionView>::empty(), at))
    }
}

/// A field of any type behind its type name: `=` or `:` and a value whose
/// type is taken from the value.
#[verifier::opaque]
pub open spec fn any_parse(toks: Seq<TokenInfoView>, at: Cursor) -> Outcome<AnyTypeView> {
    let (assigned, at_value) = accept_assign(toks, at);
    if assigned {
        lifted(
            element_guess(toks, at_value),
            |element: ElementView|
                AnyTypeView { value: AnyType::fresh().value.with(Box::new(Some(element))) },
        )
    } else {
        Err(unexpected(toks, at, "= or :"@))
    }
}

/// The object that a literal starts from: it declares the fields `declared`
/// and holds nothing.
pub open spec fn blank_object(declared: Seq<FieldTypeView>) -> ObjectTypeView {
    ObjectTypeView { value: PossibleSeq::Value(Box::new(None)), fields: declared }
}

/// A fresh object field of the kind of `object` that declares the same
/// fields.
pub open spec fn same_object(object: ObjectTypeView) -> ObjectTypeView {
    ObjectTypeView { fields: object.fields, ..same_kind::<ObjectType>(object) }
}

/// The value of an object field, if one is given: `=` or `:` and a literal.
pub open spec fn object_assigned(object: ObjectTypeView, toks: Seq<TokenInfoView>, at: Cursor)
    -> Outcome<ObjectTypeView>
    decreases toks.len() - at.next, 3int,
{
    let (found, behind) = accept_assign(toks, at);
    if found {
        object_literal_read(object, toks, behind)
    } else {
        Ok((object, at))
    }
}

/// A literal for an object field: `{` and an object for a plain field, and
/// for an array field `[`, objects and `]`.
pub open spec fn object_literal_read(object: ObjectTypeView, toks: Seq<TokenInfoView>, at: Cursor)
    -> Outcome<ObjectTypeView>
    decreases toks.len() - at.next, 3int,
{
    if !ObjectType::holds_array(object) {
        let (opened, inside) = accept_special(toks, at, SpecialToken::LBrace);
        if opened {
            object_value_read(object, toks, inside)
        } else {
            Err(unexpected(toks, at, "{"@))
        }
    } else {
        let (opened, inside) = accept_special(toks, at, SpecialToken::LBracket);
        if opened {
            object_array_read(object, toks, inside)
        } else {
            Err(unexpected(toks, at, "["@))
        }
    }
}

/// The objects of an array literal behind its `[`: objects, each optionally
/// followed by a comma, and `]`.
pub open spec fn object_array_read(object: ObjectTypeView, toks: Seq<TokenInfoView>, at: Cursor)
    -> Outcome<ObjectTypeView>
    decreases toks.len() - at.next, 3int,
{
    let (opened, inside) = accept_special(toks, at, SpecialToken::LBrace);
    if opened {
        match object_value_read(object, toks, inside) {
            Ok((with_item, behind_item)) => {
                let behind = skip_special(toks, behind_item, SpecialToken::Comma);
                if at.next < behind.next <= toks.len() {
                    object_array_read(with_item, toks, behind)
                } else {
                    Err(stuck())
                }
            },
            Err(error) => Err(error),
        }
    } else {
        let (closed, behind) = accept_special(toks, at, SpecialToken::RBracket);
        if closed {
            Ok((object, behind))
        } else {
            Err(unexpected(toks, at, "] or {"@))
        }
    }
}

/// An object literal behind its `{`, read against the fields that `object`
/// declares. The object of the literal starts with the declared fields and
/// gets the fields of the literal; it becomes the value of `object`, or the
/// last of its values if `object` is an array field.
pub open spec fn object_value_read(object: ObjectTypeView, toks: Seq<TokenInfoView>, at: Cursor)
    -> Outcome<ObjectTypeView>
    decreases toks.len() - at.next, 2int,
{
    match literal_fields(object.fields, blank_object(object.fields), toks, at) {
        Ok((literal, behind)) => Ok(
            (
                ObjectTypeView { value: object.value.with(Box::new(Some(literal))), ..object },
                behind,
            ),
        ),
        Err(error) => Err(error),
    }
}

/// The value of a field that is declared with a type from which values
/// are read token by token: a fresh field of the kind of the declaration,
/// with the value that is given.
pub open spec fn same_read<T: ValueReadCheck + ObjectBase>(
    declaration: T::V,
    toks: Seq<TokenInfoView>,
    at: Cursor,
) -> Outcome<T::V> {
    assigned_read::<T>(same_kind::<T>(declaration), toks, at)
}

/// The value of a declared field of an object literal, behind the name: read
/// as the declaration says where it has a type, and passed over where it has
/// none or any type.
pub open spec fn declared_read(declaration: ElementView, toks: Seq<TokenInfoView>, at: Cursor)
    -> Outcome<Option<ElementView>>
    decreases toks.len() - at.next, 4int,
{
    match declaration {
        ElementView::Nil => Ok((None, at)),
        ElementView::String(declared) => lifted(
            same_read::<StringType>(declared, toks, at),
            |value: StringTypeView| Some(ElementView::String(value)),
        ),
        ElementView::Integer(declared) => lifted(
            same_read::<IntegerType>(declared, toks, at),
            |value: NumberTypeView<i64>| Some(ElementView::Integer(value)),
        ),
        ElementView::Floating(declared) => lifted(
            same_read::<FloatingType>(declared, toks, at),
            |value: NumberTypeView<Decimal>| Some(ElementView::Floating(value)),
        ),
        ElementView::Boolean(declared) => lifted(
            same_read::<BooleanType>(declared, toks, at),
            |value: BooleanTypeView| Some(ElementView::Boolean(value)),
        ),
        ElementView::Object(declared) => lifted(
            object_assigned(same_object(declared), toks, at),
            |value: ObjectTypeView| Some(ElementView::Object(value)),
        ),
        ElementView::Any(_) => Ok((None, at)),
    }
}

/// The value of the field `name` of an object literal, behind the name: read
/// as the declaration says where the field is declared, and taken from the
/// value itself, which must follow `=` or `:`, where it is not.
pub open spec fn literal_field(
    declared: Seq<FieldTypeView>,
    name: Seq<char>,
    toks: Seq<TokenInfoView>,
    at: Cursor,
) -> Outcome<Option<ElementView>>
    decreases toks.len() - at.next, 5int,
{
    let place = field_index(declared, name);
    if 0 <= place < declared.len() {
        declared_read(declared[place].value, toks, at)
    } else {
        let (assigned, at_value) = accept_assign(toks, at);
        if assigned {
            lifted(element_guess(toks, at_value), |value: ElementView| Some(value))
        } else {
            Err(
                mistaken(
                    toks,
                    at,
                    ErrorKind::UnresolvedField,
                    "Object doesn't contain field with name '"@ + name
                        + "' and it's type cannot be detected"@,
                ),
            )
        }
    }
}

/// The fields of an object literal, up to its `}`: a name, a value, and
/// optionally a comma. `literal` is the object of the literal so far.
pub open spec fn literal_fields(
    declared: Seq<FieldTypeView>,
    literal: ObjectTypeView,
    toks: Seq<TokenInfoView>,
    at: Cursor,
) -> Outcome<ObjectTypeView>
    decreases toks.len() - at.next, 1int,
{
    let (closed, behind_brace) = accept_special(toks, at, SpecialToken::RBrace);
    if closed {
        Ok((literal, behind_brace))
    } else {
        let (found, name, at_name) = name_read(toks, at);
        if !found {
            Err(unexpected(toks, at, "ident, string or }"@))
        } else if !(at.next < at_name.next) {
            Err(stuck())
        } else {
            match literal_field(declared, name, toks, at_name) {
                Ok((read, behind_value)) => {
                    let with_value = match read {
                        Some(value) => with_field(literal, name, value),
                        None => literal,
                    };
                    let behind = skip_special(toks, behind_value, SpecialToken::Comma);
                    if at.next < behind.next <= toks.len() {
                        literal_fields(declared, with_value, toks, behind)
                    } else {
                        Err(stuck())
                    }
                },
                Err(error) => Err(error),
            }
        }
    }
}

/// Takes the next token if it is `;` or `,`.
pub open spec fn skip_separator(toks: Seq<TokenInfoView>, at: Cursor) -> Cursor {
    if accept_special(toks, at, SpecialToken::Semicolon).0 {
        accept_special(toks, at, SpecialToken::Semicolon).1
    } else {
        accept_special(toks, at, SpecialToken::Comma).1
    }
}

/// The element of a field whose type name is the current token.
pub open spec fn typed_parse(toks: Seq<TokenInfoView>, at: Cursor) -> Outcome<ElementView>
    decreases toks.len() - at.next, 8int,
{
    match token_at(toks, at.current).token {
        TokenView::Type(TypeName::TypeString) => lifted(
            string_parse(toks, at),
            |value: StringTypeView| ElementView::String(value),
        ),
        TokenView::Type(TypeName::TypeInteger) => lifted(
            number_parse::<IntegerType>(toks, at),
            |value: NumberTypeView<i64>| ElementView::Integer(value),
        ),
        TokenView::Type(TypeName::TypeFloating) => lifted(
            number_parse::<FloatingType>(toks, at),
            |value: NumberTypeView<Decimal>| ElementView::Floating(value),
        ),
        TokenView::Type(TypeName::TypeBoolean) => lifted(
            boolean_parse(toks, at),
            |value: BooleanTypeView| ElementView::Boolean(value),
        ),
        TokenView::Type(TypeName::TypeObject) => lifted(
            object_parse(toks, at),
            |value: ObjectTypeView| ElementView::Object(value),
        ),
        TokenView::Type(TypeName::TypeAny) => lifted(
            any_parse(toks, at),
            |value: AnyTypeView| ElementView::Any(value),
        ),
        _ => Err(mistaken(toks, at, ErrorKind::MissingType, "typename"@)),
    }
}

/// A field: optionally a name, optionally options, `:` if there is a name,
/// the type name and what belongs to the type.
pub open spec fn field_parse(toks: Seq<TokenInfoView>, at: Cursor) -> Outcome<FieldTypeView>
    decreases toks.len() - at.next, 5int,
{
    let (_, name, at_name) = name_read(toks, at);
    match options_parse(toks, at_name) {
        Ok((opts, at_opts)) => {
            let (colon, at_colon) = if name.len() > 0 {
                accept_special(toks, at_opts, SpecialToken::Colon)
            } else {
                (true, at_opts)
            };
            if !colon {
                Err(unexpected(toks, at_opts, ":"@))
            } else if !(at.next <= at_colon.next < toks.len()) {
                Err(mistaken(toks, step(toks, at_colon), ErrorKind::MissingType, "typename"@))
            } else {
                lifted(
                    typed_parse(toks, step(toks, at_colon)),
                    |value: ElementView| FieldTypeView { value, name, opts },
                )
            }
        },
        Err(error) => Err(error),
    }
}

/// An object field behind its type name: the array suffix, and optionally
/// `{`, the declared fields and `}`, and a value.
pub open spec fn object_parse(toks: Seq<TokenInfoView>, at: Cursor) -> Outcome<ObjectTypeView>
    decreases toks.len() - at.next, 7int,
{
    match begin_read::<ObjectType>(ObjectType::fresh(), toks, at) {
        Ok((begun, at_begin)) => {
            let (opened, inside) = accept_special(toks, at_begin, SpecialToken::LBrace);
            if opened {
                proof {
                    reveal(begin_read);
                }
                match declared_fields(begun, toks, inside) {
                    Ok((declared, behind_fields)) => object_assigned(
                        declared,
                        toks,
                        behind_fields,
                    ),
                    Err(error) => Err(error),
                }
            } else {
                Ok((begun, at_begin))
            }
        },
        Err(error) => Err(error),
    }
}

/// The declared fields of an object, behind the `{` and up to the `}`:
/// fields, each optionally followed by `;` or `,`. A name may be declared
/// once.
pub open spec fn declared_fields(object: ObjectTypeView, toks: Seq<TokenInfoView>, at: Cursor)
    -> Outcome<ObjectTypeView>
    decreases toks.len() - at.next, 6int,
{
    let (closed, behind_brace) = accept_special(toks, at, SpecialToken::RBrace);
    if closed {
        Ok((object, behind_brace))
    } else {
        match field_parse(toks, at) {
            Ok((field, behind_field)) => {
                if field_index(object.fields, field.name) < object.fields.len() {
                    Err(
                        mistaken(
                            toks,
                            behind_field,
                            ErrorKind::DuplicateField,
                            "Field '"@ + field.name + "' is already defined in object."@,
                        ),
                    )
                } else {
                    let behind = skip_separator(toks, behind_field);
                    if at.next < behind.next <= toks.len() {
                        declared_fields(
                            ObjectTypeView {
                                fields: put_field(object.fields, field),
                                ..object
                            },
                            toks,
                            behind,
                        )
                    } else {
                        Err(stuck())
                    }
                }
            },
            Err(error) => Err(error),
        }
    }
}

} // verus!
