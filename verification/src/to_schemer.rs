//! Rendering of fields in the schema language itself.

use vstd::prelude::*;
use vstd::string::*;
use crate::decimal::Decimal;
use crate::formatting::{bracketed, convert_all, layout, lemma_any_parts, lemma_element_parts,
    lemma_object_parts, lines, rendered, value_texts, Formatting, FormattingView, ValueToString};
use crate::helpers::{Enum, Interval, Literal, Numeric, PossibleArray, PossibleSeq};
use crate::lexer::{is_ident, is_ident_part, str_head_tail};
use crate::chars::is_digit;
use crate::object_base::ObjectBase;
use crate::objects::{element_view, field_views, object_view, option_views, AnyType, AnyTypeView,
    BooleanType, Element, ElementView, FieldType, FieldTypeView, FloatingType, IntegerType,
    NumberType, NumberTypeView, ObjectType, ObjectTypeView, OptionView, Options, StringType};
use crate::text::{append_quoted, quoted, texts};

verus! {

/// Whether `val` holds nothing but letters, digits and underscores.
pub open spec fn spec_is_ident_string(val: Seq<char>) -> bool {
    forall|i: int| 0 <= i < val.len() ==> is_ident_part(#[trigger] val[i])
}

/// Whether `val` holds nothing but letters, digits and underscores.
pub fn is_ident_string(val: &str) -> (r: bool)
    ensures
        r == spec_is_ident_string(val@),
{
    let mut rest = val;
    let ghost mut n: int = 0;
    proof {
        assert(val@.skip(0) =~= val@);
    }
    while !rest.is_empty()
        invariant
            0 <= n <= val@.len(),
            rest@ == val@.skip(n),
            forall|i: int| 0 <= i < n ==> is_ident_part(#[trigger] val@[i]),
        decreases val@.len() - n,
    {
        let (head, tail) = str_head_tail(rest);
        if !(is_ident(head) || is_digit(head)) {
            proof {
                assert(val@[n] == head);
            }
            return false;
        }
        proof {
            assert(val@.skip(n).drop_first() =~= val@.skip(n + 1));
            assert(val@[n] == head);
            n = n + 1;
        }
        rest = tail;
    }
    true
}

/// A name as it is written in a schema: as it is if it holds nothing but
/// letters, digits and underscores, and between double quotes if not.
pub open spec fn name_text(val: Seq<char>) -> Seq<char> {
    if spec_is_ident_string(val) {
        val
    } else {
        quoted(val)
    }
}

/// A name as it is written in a schema.
pub fn quote(val: &str) -> (r: String)
    ensures
        r@ == name_text(val@),
{
    if !is_ident_string(val) {
        let mut out = String::new();
        append_quoted(&mut out, val);
        proof {
            assert(Seq::<char>::empty() + quoted(val@) =~= quoted(val@));
        }
        out
    } else {
        String::from_str(val)
    }
}

/// The suffix of an array field.
pub open spec fn array_suffix(array: bool) -> Seq<char> {
    if array {
        "[]"@
    } else {
        ""@
    }
}

/// An enumeration as it is written in a schema: nothing if there is none.
pub open spec fn enum_text(format: FormattingView, members: Option<Seq<Seq<char>>>, indent: Seq<char>)
    -> Seq<char> {
    match members {
        Some(values) => " enum {"@ + lines(format, values, indent) + seq!['}'],
        None => Seq::<char>::empty(),
    }
}

/// An interval as it is written in a schema: nothing if it has no bound.
pub open spec fn interval_text(bounds: (Option<Seq<char>>, Option<Seq<char>>)) -> Seq<char> {
    if bounds.0 is Some || bounds.1 is Some {
        seq![' '] + (match bounds.0 {
            Some(low) => low,
            None => Seq::<char>::empty(),
        }) + ".."@ + (match bounds.1 {
            Some(high) => high,
            None => Seq::<char>::empty(),
        })
    } else {
        Seq::<char>::empty()
    }
}

/// The text of a bound that may be missing.
pub open spec fn bound_text<T: ValueToString>(bound: Option<T>) -> Option<Seq<char>> {
    match bound {
        Some(val) => Some(val.text()),
        None => None,
    }
}

/// The texts of the members of an enumeration that may be missing.
pub open spec fn member_texts<T: ValueToString>(members: Option<Seq<T>>) -> Option<Seq<Seq<char>>> {
    match members {
        Some(values) => Some(value_texts(values)),
        None => None,
    }
}

/// The quoted texts of the members of an enumeration of strings.
pub open spec fn quoted_members(members: Option<Seq<Seq<char>>>) -> Option<Seq<Seq<char>>> {
    match members {
        Some(values) => Some(Seq::new(values.len(), |i: int| quoted(values[i]))),
        None => None,
    }
}

/// The type of a number field as it is written in a schema: the type name,
/// the array suffix, the interval and the enumeration.
pub open spec fn number_type_text<T: Numeric + ValueToString>(
    format: FormattingView,
    number: NumberTypeView<T>,
    indent: Seq<char>,
) -> Seq<char> {
    T::spec_name() + array_suffix(number.value is Array) + interval_text(
        (bound_text(number.bounds.0), bound_text(number.bounds.1)),
    ) + enum_text(format, member_texts(number.enum_values), indent)
}

/// The type of a field as it is written in a schema.
pub open spec fn type_text(format: FormattingView, element: ElementView, indent: Seq<char>) -> Seq<
    char,
>
    decreases element, 0int,
{
    match element {
        ElementView::Boolean(v) => "boolean"@ + array_suffix(v.value is Array),
        ElementView::String(v) => "string"@ + array_suffix(v.value is Array) + enum_text(
            format,
            quoted_members(v.enum_values),
            indent,
        ),
        ElementView::Integer(v) => number_type_text(format, v, indent),
        ElementView::Floating(v) => number_type_text(format, v, indent),
        ElementView::Object(v) => "object"@ + array_suffix(v.value is Array) + " {"@ + lines(
            format,
            fields_text(format, v.fields, indent + format.shift),
            indent,
        ) + seq!['}'],
        ElementView::Any(_) => "any"@,
        ElementView::Nil => Seq::<char>::empty(),
    }
}

/// The declared fields of an object as they are written in a schema.
pub open spec fn fields_text(format: FormattingView, fields: Seq<FieldTypeView>, indent: Seq<char>)
    -> Seq<Seq<char>>
    decreases fields, 2int,
{
    Seq::new(
        fields.len(),
        |i: int|
            if 0 <= i < fields.len() {
                field_text(format, fields[i], indent)
            } else {
                Seq::<char>::empty()
            },
    )
}

/// The value of a scalar field as it is written in a schema: the value, or
/// the values of an array field between square brackets.
pub open spec fn scalar_text(format: FormattingView, slot: PossibleSeq<Seq<char>>, indent: Seq<char>)
    -> Seq<char> {
    match slot {
        PossibleSeq::Value(val) => val,
        PossibleSeq::Array(items) => seq!['['] + lines(format, items, indent + format.shift)
            + seq![']'],
    }
}

/// What a field holds as it is written in a schema.
pub open spec fn value_text(format: FormattingView, element: ElementView, indent: Seq<char>) -> Seq<
    char,
>
    decreases element, 0int,
{
    match element {
        ElementView::Boolean(v) => scalar_text(
            format,
            rendered(v.value, |val: bool| val.text()),
            indent,
        ),
        ElementView::String(v) => scalar_text(
            format,
            rendered(v.value, |val: Seq<char>| quoted(val)),
            indent,
        ),
        ElementView::Integer(v) => scalar_text(
            format,
            rendered(v.value, |val: i64| val.text()),
            indent,
        ),
        ElementView::Floating(v) => scalar_text(
            format,
            rendered(v.value, |val: Decimal| val.text()),
            indent,
        ),
        ElementView::Object(v) => object_value_text(format, v, indent),
        ElementView::Any(v) => any_value_text(format, v, indent),
        ElementView::Nil => "null"@,
    }
}

/// A field of an object value as it is written in a schema: the name, a
/// colon, a blank and the value.
pub open spec fn member_text(format: FormattingView, field: FieldTypeView, indent: Seq<char>)
    -> Seq<char>
    decreases field, 1int,
{
    name_text(field.name) + seq![':', ' '] + value_text(format, field.value, indent)
}

/// The fields of an object value as they are written in a schema.
pub open spec fn members_text(format: FormattingView, fields: Seq<FieldTypeView>, indent: Seq<char>)
    -> Seq<Seq<char>>
    decreases fields, 2int,
{
    Seq::new(
        fields.len(),
        |i: int|
            if 0 <= i < fields.len() {
                member_text(format, fields[i], indent)
            } else {
                Seq::<char>::empty()
            },
    )
}

/// The objects of an array field as they are written in a schema; nothing
/// for a missing object.
pub open spec fn object_values_text(
    format: FormattingView,
    items: Seq<Box<Option<ObjectTypeView>>>,
    indent: Seq<char>,
) -> Seq<Seq<char>>
    decreases items, 2int,
{
    Seq::new(
        items.len(),
        |i: int|
            if 0 <= i < items.len() {
                match *items[i] {
                    Some(held) => object_value_text(format, held, indent),
                    None => Seq::<char>::empty(),
                }
            } else {
                Seq::<char>::empty()
            },
    )
}

/// What an object field holds as it is written in a schema: the fields of
/// the object that it holds, or the declared fields if it holds none, between
/// braces; for an array field the objects between square brackets.
pub open spec fn object_value_text(format: FormattingView, object: ObjectTypeView, indent: Seq<
    char,
>) -> Seq<char>
    decreases object, 3int,
{
    match object.value {
        PossibleSeq::Array(items) => seq!['['] + lines(
            format,
            object_values_text(format, items, indent + format.shift),
            indent,
        ) + seq![']'],
        PossibleSeq::Value(inner) => {
            let fields = match *inner {
                Some(held) => held.fields,
                None => object.fields,
            };
            seq!['{'] + lines(format, members_text(format, fields, indent + format.shift), indent)
                + seq!['}']
        },
    }
}

/// The items of a list as they are written in a schema; `null` for a missing
/// item.
pub open spec fn any_values_text(
    format: FormattingView,
    items: Seq<Box<Option<ElementView>>>,
    indent: Seq<char>,
) -> Seq<Seq<char>>
    decreases items, 2int,
{
    Seq::new(
        items.len(),
        |i: int|
            if 0 <= i < items.len() {
                match *items[i] {
                    Some(held) => value_text(format, held, indent),
                    None => "null"@,
                }
            } else {
                Seq::<char>::empty()
            },
    )
}

/// What a field of any type holds as it is written in a schema.
pub open spec fn any_value_text(format: FormattingView, any: AnyTypeView, indent: Seq<char>) -> Seq<
    char,
>
    decreases any, 3int,
{
    match any.value {
        PossibleSeq::Array(items) => seq!['['] + lines(
            format,
            any_values_text(format, items, indent + format.shift),
            indent,
        ) + seq![']'],
        PossibleSeq::Value(inner) => match *inner {
            Some(held) => value_text(format, held, indent),
            None => "null"@,
        },
    }
}

/// Whether a field holds what a fresh field of its type holds, so that its
/// value is left out of the schema.
pub open spec fn holds_default(element: ElementView) -> bool {
    match element {
        ElementView::Boolean(v) => BooleanType::holds_default(v),
        ElementView::String(v) => StringType::holds_default(v),
        ElementView::Integer(v) => IntegerType::holds_default(v),
        ElementView::Floating(v) => FloatingType::holds_default(v),
        ElementView::Object(v) => ObjectType::holds_default(v),
        ElementView::Any(v) => AnyType::holds_default(v),
        ElementView::Nil => true,
    }
}

/// The options of a field as they are written in a schema: nothing if there
/// are none.
pub open spec fn options_text(format: FormattingView, opts: Seq<OptionView>, indent: Seq<char>)
    -> Seq<char>
    decreases opts, 3int,
{
    if opts.len() == 0 {
        Seq::<char>::empty()
    } else {
        seq!['('] + lines(
            format,
            option_texts(format, opts, indent + format.shift),
            indent + format.shift,
        ) + seq![')']
    }
}

/// The options `opts` as they are written in a schema, each a name, a colon,
/// a blank and the value.
pub open spec fn option_texts(format: FormattingView, opts: Seq<OptionView>, indent: Seq<char>)
    -> Seq<Seq<char>>
    decreases opts, 2int,
{
    Seq::new(
        opts.len(),
        |i: int|
            if 0 <= i < opts.len() {
                opts[i].name + seq![':', ' '] + value_text(format, opts[i].value, indent)
            } else {
                Seq::<char>::empty()
            },
    )
}

/// A field as it is written in a schema: the name, the options, a colon, a
/// blank, the type, and the value behind ` = ` unless the field holds what a
/// fresh one holds.
pub open spec fn field_text(format: FormattingView, field: FieldTypeView, indent: Seq<char>) -> Seq<
    char,
>
    decreases field, 4int,
{
    name_text(field.name) + options_text(format, field.opts, indent) + seq![':', ' '] + (
    if field.value is Nil {
        Seq::<char>::empty()
    } else {
        typed_value_text(format, field.value, indent, false)
    })
}

/// The type of a field and what it holds, as they are written in a schema:
/// the type alone if the field holds what a fresh one holds, unless
/// `ignore_default` asks for the value in any case.
pub open spec fn typed_value_text(
    format: FormattingView,
    element: ElementView,
    indent: Seq<char>,
    ignore_default: bool,
) -> Seq<char>
    decreases element, 1int,
{
    if holds_default(element) && !ignore_default {
        type_text(format, element, indent)
    } else {
        type_text(format, element, indent) + " = "@ + value_text(format, element, indent)
    }
}

/// The suffix of an array field.
fn suffix(array: bool) -> (r: &'static str)
    ensures
        r@ == array_suffix(array),
{
    if array {
        "[]"
    } else {
        ""
    }
}

/// An enumeration as it is written in a schema.
fn enum_string<T: Literal + ValueToString>(
    values: &Option<Enum<T>>,
    format: &Formatting,
    indent: &str,
) -> (r: String)
    ensures
        r@ == enum_text(
            format@,
            match *values {
                Some(members) => Some(value_texts(members@)),
                None => None,
            },
            indent@,
        ),
{
    match values {
        Some(members) => {
            let items = convert_all(members.values());
            let mut out = String::from_str(" enum {");
            out.append(format.format_lines(&items, indent).as_str());
            out.push('}');
            out
        },
        None => String::new(),
    }
}

/// An interval as it is written in a schema.
fn interval_string<T: Numeric + ValueToString>(ival: &Interval<T>) -> (r: String)
    ensures
        r@ == interval_text((bound_text(ival@.0), bound_text(ival@.1))),
{
    if ival.has_minmax() {
        let mut out = String::from_str(" ");
        if ival.has_min() {
            out.append(ival.min(T::zero()).convert().as_str());
        }
        out.append("..");
        if ival.has_max() {
            out.append(ival.max(T::zero()).convert().as_str());
        }
        proof {
            reveal_strlit(" ");
            assert(out@ =~= interval_text((bound_text(ival@.0), bound_text(ival@.1))));
        }
        out
    } else {
        String::new()
    }
}

/// The type of a number field as it is written in a schema.
fn number_field_to<T: Numeric + ValueToString>(
    number: &NumberType<T>,
    format: &Formatting,
    indent: &str,
) -> (r: String)
    ensures
        r@ == number_type_text(format@, number@, indent@),
{
    let mut out = String::from_str(T::name());
    out.append(suffix(number.is_array()));
    out.append(interval_string(number.interval()).as_str());
    out.append(enum_string(number.enum_values(), format, indent).as_str());
    out
}

/// The value of a scalar field as it is written in a schema.
fn scalar_value_to<T: ValueToString>(value: &PossibleArray<T>, format: &Formatting, indent: &str)
    -> (r: String)
    ensures
        r@ == scalar_text(format@, rendered(value@, |val: T| val.text()), indent@),
{
    match value {
        PossibleArray::Value(val) => val.convert(),
        PossibleArray::Array(arr) => {
            let items = convert_all(arr);
            let inside = format.deeper(indent);
            proof {
                assert(texts(items@) =~= rendered(value@, |val: T| val.text())->Array_0);
            }
            bracketed('[', format.format_lines(&items, inside.as_str()), ']')
        },
    }
}

/// Whether a field holds what a fresh field of its type holds.
fn element_is_default(element: &Element) -> (r: bool)
    ensures
        r == holds_default(element@),
{
    match element {
        Element::Boolean(v) => v.is_default(),
        Element::String(v) => v.is_default(),
        Element::Integer(v) => v.is_default(),
        Element::Floating(v) => v.is_default(),
        Element::Object(v) => v.is_default(),
        Element::Any(v) => v.is_default(),
        Element::Nil => true,
    }
}

/// The declared fields `fields` as they are written in a schema.
fn fields_to(fields: &Vec<FieldType>, format: &Formatting, indent: &str) -> (r: Vec<String>)
    ensures
        texts(r@) == fields_text(format@, field_views(fields@), indent@),
    decreases field_views(fields@), 2int,
{
    let mut items: Vec<String> = Vec::new();
    let mut i: usize = 0;
    let ghost views = field_views(fields@);
    while i < fields.len()
        invariant
            i <= fields.len(),
            items@.len() == i,
            views == field_views(fields@),
            forall|k: int|
                0 <= k < i ==> (#[trigger] items@[k])@ == field_text(format@, views[k], indent@),
        decreases fields.len() - i,
    {
        proof {
            assert(views[i as int] == fields@[i as int]@);
            assert(decreases_to!(views => views[i as int]));
        }
        items.push(field_to_string_impl(&fields[i], format, indent));
        i += 1;
    }
    proof {
        assert(texts(items@) =~= fields_text(format@, views, indent@));
    }
    items
}

/// The type of a field as it is written in a schema.
fn field_to(element: &Element, format: &Formatting, indent: &str) -> (r: String)
    ensures
        r@ == type_text(format@, element@, indent@),
    decreases element@, 0int,
{
    proof {
        lemma_element_parts(element@, arbitrary());
    }
    match element {
        Element::Boolean(v) => {
            let mut out = String::from_str("boolean");
            out.append(suffix(v.is_array()));
            out
        },
        Element::String(v) => {
            let mut out = String::from_str("string");
            out.append(suffix(v.is_array()));
            let members = v.enum_values();
            proof {
                if members is Some {
                    assert(value_texts(members->Some_0@) =~= quoted_members(
                        v@.enum_values,
                    )->Some_0);
                }
            }
            out.append(enum_string(members, format, indent).as_str());
            out
        },
        Element::Integer(v) => number_field_to(v, format, indent),
        Element::Floating(v) => number_field_to(v, format, indent),
        Element::Object(v) => {
            proof {
                lemma_object_parts(v@);
            }
            let inside = format.deeper(indent);
            let fields = fields_to(v.fields(), format, inside.as_str());
            let mut out = String::from_str("object");
            out.append(suffix(v.is_array()));
            out.append(" {");
            out.append(format.format_lines(&fields, indent).as_str());
            out.push('}');
            out
        },
        Element::Any(_) => String::from_str("any"),
        Element::Nil => String::new(),
    }
}

/// The fields `fields` of an object value as they are written in a schema.
fn members_to(fields: &Vec<FieldType>, format: &Formatting, indent: &str) -> (r: Vec<String>)
    ensures
        texts(r@) == members_text(format@, field_views(fields@), indent@),
    decreases field_views(fields@), 2int,
{
    let mut items: Vec<String> = Vec::new();
    let mut i: usize = 0;
    let ghost views = field_views(fields@);
    while i < fields.len()
        invariant
            i <= fields.len(),
            items@.len() == i,
            views == field_views(fields@),
            forall|k: int|
                0 <= k < i ==> (#[trigger] items@[k])@ == member_text(format@, views[k], indent@),
        decreases fields.len() - i,
    {
        proof {
            assert(views[i as int] == fields@[i as int]@);
            assert(decreases_to!(views => views[i as int]));
        }
        items.push(values_to_string(&fields[i], format, indent));
        i += 1;
    }
    proof {
        assert(texts(items@) =~= members_text(format@, views, indent@));
    }
    items
}

/// A field of an object value as it is written in a schema.
fn values_to_string(val: &FieldType, format: &Formatting, indent: &str) -> (r: String)
    ensures
        r@ == member_text(format@, val@, indent@),
    decreases val@, 1int,
{
    proof {
        lemma_element_parts(ElementView::Nil, val@);
    }
    let mut out = quote(val.name());
    out.append(": ");
    out.append(value_to(val.value(), format, indent).as_str());
    proof {
        reveal_strlit(": ");
        assert(out@ =~= member_text(format@, val@, indent@));
    }
    out
}

/// What an object field holds as it is written in a schema.
fn object_value_to(obj: &ObjectType, format: &Formatting, indent: &str) -> (r: String)
    ensures
        r@ == object_value_text(format@, obj@, indent@),
    decreases obj@, 3int,
{
    let inside = format.deeper(indent);
    proof {
        lemma_object_parts(obj@);
    }
    match obj.value() {
        PossibleArray::Array(arr) => {
            let mut values: Vec<String> = Vec::new();
            let mut i: usize = 0;
            let ghost items = obj@.value->Array_0;
            while i < arr.len()
                invariant
                    i <= arr.len(),
                    values@.len() == i,
                    obj@.value == PossibleSeq::Array(items),
                    items.len() == arr@.len(),
                    forall|k: int|
                        0 <= k < items.len() ==> ((*#[trigger] items[k]) matches Some(held)
                            ==> decreases_to!(obj@ => held)),
                    forall|k: int| 0 <= k < arr@.len() ==> object_view(arr@[k]) == items[k],
                    forall|k: int|
                        0 <= k < i ==> (#[trigger] values@[k])@ == (match *items[k] {
                            Some(held) => object_value_text(format@, held, inside@),
                            None => Seq::<char>::empty(),
                        }),
                decreases arr.len() - i,
            {
                let item: &Option<ObjectType> = &arr[i];
                proof {
                    assert(object_view(arr@[i as int]) == items[i as int]);
                }
                let text = match item {
                    Some(field) => {
                        proof {
                            assert(*items[i as int] == Some(field@));
                        }
                        object_value_to(field, format, inside.as_str())
                    },
                    None => String::new(),
                };
                values.push(text);
                i += 1;
            }
            proof {
                assert(texts(values@) =~= object_values_text(format@, items, inside@));
            }
            bracketed('[', format.format_lines(&values, indent), ']')
        },
        PossibleArray::Value(val) => {
            let fields = match &**val {
                Some(unboxed) => unboxed.fields(),
                None => obj.fields(),
            };
            proof {
                assert(obj@.value == PossibleSeq::Value(object_view(*val)));
                assert(field_views(fields@) == (match *obj@.value->Value_0 {
                    Some(held) => held.fields,
                    None => obj@.fields,
                }));
            }
            let str_value = members_to(fields, format, inside.as_str());
            bracketed('{', format.format_lines(&str_value, indent), '}')
        },
    }
}

/// What a field of any type holds as it is written in a schema.
fn any_value_to(any: &AnyType, format: &Formatting, indent: &str) -> (r: String)
    ensures
        r@ == any_value_text(format@, any@, indent@),
    decreases any@, 3int,
{
    let inside = format.deeper(indent);
    proof {
        lemma_any_parts(any@);
    }
    match any.value() {
        PossibleArray::Array(arr) => {
            let mut values: Vec<String> = Vec::new();
            let mut i: usize = 0;
            let ghost items = any@.value->Array_0;
            while i < arr.len()
                invariant
                    i <= arr.len(),
                    values@.len() == i,
                    any@.value == PossibleSeq::Array(items),
                    items.len() == arr@.len(),
                    forall|k: int|
                        0 <= k < items.len() ==> ((*#[trigger] items[k]) matches Some(held)
                            ==> decreases_to!(any@ => held)),
                    forall|k: int| 0 <= k < arr@.len() ==> element_view(arr@[k]) == items[k],
                    forall|k: int|
                        0 <= k < i ==> (#[trigger] values@[k])@ == (match *items[k] {
                            Some(held) => value_text(format@, held, inside@),
                            None => "null"@,
                        }),
                decreases arr.len() - i,
            {
                let item: &Option<Element> = &arr[i];
                proof {
                    assert(element_view(arr@[i as int]) == items[i as int]);
                }
                let text = match item {
                    Some(field) => {
                        proof {
                            assert(*items[i as int] == Some(field@));
                        }
                        value_to(field, format, inside.as_str())
                    },
                    None => String::from_str("null"),
                };
                values.push(text);
                i += 1;
            }
            proof {
                assert(texts(values@) =~= any_values_text(format@, items, inside@));
            }
            bracketed('[', format.format_lines(&values, indent), ']')
        },
        PossibleArray::Value(val) => {
            proof {
                assert(any@.value == PossibleSeq::Value(element_view(*val)));
            }
            match &**val {
                Some(unboxed) => value_to(unboxed, format, indent),
                None => String::from_str("null"),
            }
        },
    }
}

/// What a field holds as it is written in a schema.
fn value_to(element: &Element, format: &Formatting, indent: &str) -> (r: String)
    ensures
        r@ == value_text(format@, element@, indent@),
    decreases element@, 0int,
{
    proof {
        lemma_element_parts(element@, arbitrary());
    }
    match element {
        Element::Boolean(v) => scalar_value_to(v.value(), format, indent),
        Element::String(v) => {
            let value = v.value();
            proof {
                let exec_slot = rendered(value@, |val: String| val.text());
                let view_slot = rendered(v@.value, |val: Seq<char>| quoted(val));
                match value@ {
                    PossibleSeq::Array(items) => {
                        assert(exec_slot->Array_0 =~= view_slot->Array_0);
                    },
                    _ => {},
                }
                assert(exec_slot == view_slot);
            }
            scalar_value_to(value, format, indent)
        },
        Element::Integer(v) => scalar_value_to(v.value(), format, indent),
        Element::Floating(v) => scalar_value_to(v.value(), format, indent),
        Element::Object(v) => object_value_to(v, format, indent),
        Element::Any(v) => any_value_to(v, format, indent),
        Element::Nil => String::from_str("null"),
    }
}

/// The options of a field as they are written in a schema.
fn options_to_string(opts: &Options, format: &Formatting, indent: &str) -> (r: String)
    ensures
        r@ == options_text(format@, opts@, indent@),
    decreases opts@, 3int,
{
    if opts.empty() {
        String::new()
    } else {
        let inside = format.deeper(indent);
        let all = opts.all();
        let mut vals: Vec<String> = Vec::new();
        let mut i: usize = 0;
        let ghost views = opts@;
        while i < all.len()
            invariant
                i <= all.len(),
                vals@.len() == i,
                views == opts@,
                views == option_views(all@),
                forall|k: int|
                    0 <= k < i ==> (#[trigger] vals@[k])@ == views[k].name + seq![':', ' ']
                        + value_text(format@, views[k].value, inside@),
            decreases all.len() - i,
        {
            let item = &all[i];
            proof {
                assert(views[i as int] == item@);
                assert(decreases_to!(views => views[i as int]));
                assert(decreases_to!(views[i as int] => views[i as int].value));
            }
            let mut text = String::from_str(item.name());
            text.append(": ");
            text.append(value_to(item.value(), format, inside.as_str()).as_str());
            proof {
                reveal_strlit(": ");
                assert(text@ =~= views[i as int].name + seq![':', ' '] + value_text(
                    format@,
                    views[i as int].value,
                    inside@,
                ));
            }
            vals.push(text);
            i += 1;
        }
        proof {
            assert(texts(vals@) =~= option_texts(format@, views, inside@));
        }
        bracketed('(', format.format_lines(&vals, inside.as_str()), ')')
    }
}

/// The type of a field and what it holds, as they are written in a schema.
fn field_values_to_string(
    val: &Element,
    format: &Formatting,
    indent: &str,
    ignore_default: bool,
) -> (r: String)
    ensures
        r@ == typed_value_text(format@, val@, indent@, ignore_default),
    decreases val@, 1int,
{
    let mut out = field_to(val, format, indent);
    if !(element_is_default(val) && !ignore_default) {
        out.append(" = ");
        out.append(value_to(val, format, indent).as_str());
    }
    out
}

/// A field as it is written in a schema, at the indentation `indent`.
fn field_to_string_impl(val: &FieldType, format: &Formatting, indent: &str) -> (r: String)
    ensures
        r@ == field_text(format@, val@, indent@),
    decreases val@, 4int,
{
    proof {
        lemma_element_parts(ElementView::Nil, val@);
        assert(decreases_to!(val@ => val@.opts));
    }
    let mut out = quote(val.name());
    out.append(options_to_string(val.options(), format, indent).as_str());
    out.append(": ");
    let ghost head = out@;
    let element = val.value();
    let nothing = match element {
        Element::Nil => true,
        _ => false,
    };
    if !nothing {
        out.append(field_values_to_string(element, format, indent, false).as_str());
    }
    proof {
        reveal_strlit(": ");
        assert(out@ =~= field_text(format@, val@, indent@));
    }
    out
}

/// The field `val` as it is written in a schema, indented by `shift` spaces
/// for each level.
pub fn field_to_string(val: &FieldType, shift: usize) -> (r: String)
    ensures
        r@ == field_text(layout(shift as nat), val@, Seq::<char>::empty()),
{
    let format = Formatting::new(shift);
    proof {
        reveal_strlit("");
        assert(""@ =~= Seq::<char>::empty());
    }
    field_to_string_impl(val, &format, "")
}

} // verus!
