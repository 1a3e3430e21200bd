//! Rendering of fields as JSON values and as JSON Schema.

use vstd::prelude::*;
use vstd::string::*;
use crate::decimal::Decimal;
use crate::formatting::{element_format, element_json, layout, lemma_any_parts,
    lemma_element_parts, lemma_object_parts};
use crate::grammar::{blank_object, with_field};
use crate::helpers::{copy_items, Numeric, PossibleArray, PossibleSeq};
use crate::object_base::ObjectBase;
use crate::objects::{element_view, field_views, option_switched, AnyType, BooleanType,
    BooleanTypeView, Element, ElementView, FieldType, FieldTypeView, FloatingType, IntegerType,
    NumberType, NumberTypeView, ObjectType, ObjectTypeView, OptionView, Options, StringType,
    StringTypeView};
use crate::text::texts;

verus! {

/// The field `val` as a JSON value, indented by two spaces for each level.
pub fn to_json_values(val: &FieldType) -> (r: String)
    ensures
        r@ == element_json(layout(2), val@.value, Seq::<char>::empty()),
{
    element_format(val.value(), 2)
}

/// A string field that holds `text`.
pub open spec fn text_element(text: Seq<char>) -> ElementView {
    ElementView::String(StringTypeView { value: PossibleSeq::Value(text), enum_values: None })
}

/// An array field of strings that holds `items`.
pub open spec fn texts_element(items: Seq<Seq<char>>) -> ElementView {
    ElementView::String(StringTypeView { value: PossibleSeq::Array(items), enum_values: None })
}

/// A number field that holds `slot`.
pub open spec fn number_element<T>(slot: PossibleSeq<T>) -> NumberTypeView<T> {
    NumberTypeView { value: slot, bounds: (None, None), enum_values: None }
}

/// A boolean field that holds `val`.
pub open spec fn boolean_element(val: bool) -> ElementView {
    ElementView::Boolean(BooleanTypeView { value: PossibleSeq::Value(val) })
}

/// The schema `object` with the keywords that the options `opts` ask for:
/// `readonly` if the option of that name is switched on.
pub open spec fn with_common(object: ObjectTypeView, opts: Seq<OptionView>) -> ObjectTypeView {
    if option_switched(opts, "readonly"@) {
        with_field(object, "readonly"@, boolean_element(true))
    } else {
        object
    }
}

/// The schema of an array whose items have the schema `items`.
pub open spec fn array_schema(outer: ObjectTypeView, items: ObjectTypeView) -> ObjectTypeView {
    with_field(
        with_field(outer, "type"@, text_element("array"@)),
        "items"@,
        ElementView::Object(items),
    )
}

/// The schema `inner` as it stands for a field, or the schema of an array of
/// it for an array field, with the keywords that the options ask for.
pub open spec fn finished(inner: ObjectTypeView, array: bool, opts: Seq<OptionView>) -> ElementView {
    if array {
        ElementView::Object(array_schema(with_common(blank_object(Seq::empty()), opts), inner))
    } else {
        ElementView::Object(with_common(inner, opts))
    }
}

/// The schema of a bare type: an object with the keyword `type`.
pub open spec fn typed(name: Seq<char>) -> ObjectTypeView {
    with_field(blank_object(Seq::empty()), "type"@, text_element(name))
}

/// The schema `object` with the keyword `name` holding `value`, if there is
/// a value.
pub open spec fn with_optional(object: ObjectTypeView, name: Seq<char>, value: Option<ElementView>)
    -> ObjectTypeView {
    match value {
        Some(held) => with_field(object, name, held),
        None => object,
    }
}

/// The schema of the values of an integer field: the type, the enumeration
/// and the bounds.
pub open spec fn integer_schema(number: NumberTypeView<i64>) -> ObjectTypeView {
    with_optional(
        with_optional(
            with_optional(
                typed("integer"@),
                "enum"@,
                match number.enum_values {
                    Some(vals) => Some(
                        ElementView::Integer(number_element(PossibleSeq::Array(vals))),
                    ),
                    None => None,
                },
            ),
            "minimum"@,
            match number.bounds.0 {
                Some(low) => Some(ElementView::Integer(number_element(PossibleSeq::Value(low)))),
                None => None,
            },
        ),
        "maximum"@,
        match number.bounds.1 {
            Some(high) => Some(ElementView::Integer(number_element(PossibleSeq::Value(high)))),
            None => None,
        },
    )
}

/// The schema of the values of a floating field: the type, the enumeration
/// and the bounds.
pub open spec fn floating_schema(number: NumberTypeView<Decimal>) -> ObjectTypeView {
    with_optional(
        with_optional(
            with_optional(
                typed("number"@),
                "enum"@,
                match number.enum_values {
                    Some(vals) => Some(
                        ElementView::Floating(number_element(PossibleSeq::Array(vals))),
                    ),
                    None => None,
                },
            ),
            "minimum"@,
            match number.bounds.0 {
                Some(low) => Some(ElementView::Floating(number_element(PossibleSeq::Value(low)))),
                None => None,
            },
        ),
        "maximum"@,
        match number.bounds.1 {
            Some(high) => Some(ElementView::Floating(number_element(PossibleSeq::Value(high)))),
            None => None,
        },
    )
}

/// The schema of the values of a string field: the type and the
/// enumeration.
pub open spec fn string_schema(string: StringTypeView) -> ObjectTypeView {
    with_optional(
        typed("string"@),
        "enum"@,
        match string.enum_values {
            Some(vals) => Some(texts_element(vals)),
            None => None,
        },
    )
}

/// The schemas of the first `n` of the fields `fields`, as the properties of
/// an object schema.
pub open spec fn properties(fields: Seq<FieldTypeView>, n: int) -> ObjectTypeView
    decreases fields, n,
{
    if n <= 0 || n > fields.len() {
        blank_object(Seq::empty())
    } else {
        with_field(
            properties(fields, n - 1),
            fields[n - 1].name,
            json_schema(fields[n - 1].value, fields[n - 1].opts),
        )
    }
}

/// The names of those of the first `n` of the fields `fields` whose option
/// `required` is switched on.
pub open spec fn required_names(fields: Seq<FieldTypeView>, n: int) -> Seq<Seq<char>>
    decreases n,
{
    if n <= 0 || n > fields.len() {
        Seq::empty()
    } else if option_switched(fields[n - 1].opts, "required"@) {
        required_names(fields, n - 1).push(fields[n - 1].name)
    } else {
        required_names(fields, n - 1)
    }
}

/// The schema of the values of an object field: the type, the names of the
/// required fields if there are any, and the schemas of the fields.
pub open spec fn object_schema(object: ObjectTypeView) -> ObjectTypeView
    decreases object, 0int,
{
    let required = required_names(object.fields, object.fields.len() as int);
    with_field(
        with_optional(
            typed("object"@),
            "required"@,
            if required.len() > 0 {
                Some(texts_element(required))
            } else {
                None
            },
        ),
        "properties"@,
        ElementView::Object(properties(object.fields, object.fields.len() as int)),
    )
}

/// The JSON Schema of a field that holds `element` and has the options
/// `opts`, as an element. A field without type has no schema.
pub open spec fn json_schema(element: ElementView, opts: Seq<OptionView>) -> ElementView
    decreases element, 1int,
{
    match element {
        ElementView::Boolean(v) => finished(typed("boolean"@), v.value is Array, opts),
        ElementView::String(v) => if v.value is Array {
            ElementView::Object(
                array_schema(blank_object(Seq::empty()), with_common(string_schema(v), opts)),
            )
        } else {
            ElementView::Object(with_common(string_schema(v), opts))
        },
        ElementView::Integer(v) => finished(integer_schema(v), v.value is Array, opts),
        ElementView::Floating(v) => finished(floating_schema(v), v.value is Array, opts),
        ElementView::Object(v) => finished(object_schema(v), v.value is Array, opts),
        ElementView::Any(v) => match v.value {
            PossibleSeq::Value(inner) => match *inner {
                Some(held) => json_schema(held, opts),
                None => ElementView::Object(with_common(blank_object(Seq::empty()), opts)),
            },
            PossibleSeq::Array(_) => ElementView::Object(
                with_field(
                    with_common(blank_object(Seq::empty()), opts),
                    "type"@,
                    text_element("array"@),
                ),
            ),
        },
        ElementView::Nil => ElementView::Nil,
    }
}

/// The field `name` that holds `value`, without options.
fn field(name: &str, value: Element) -> (r: FieldType)
    ensures
        r@ == (FieldTypeView { value: value@, name: name@, opts: Seq::<OptionView>::empty() }),
{
    FieldType::new(String::from_str(name), value, Options::new())
}

/// Puts the keyword `name` with `value` into the schema `obj`.
fn put(obj: &mut ObjectType, name: &str, value: Element)
    ensures
        final(obj)@ == with_field(old(obj)@, name@, value@),
{
    obj.add_field(field(name, value));
}

/// An array field of strings that holds the texts of `items`.
fn texts_value(items: &Vec<String>) -> (r: Element)
    ensures
        r@ == texts_element(texts(items@)),
{
    let mut arr = StringType::new_array();
    let mut i: usize = 0;
    proof {
        assert(texts(items@).take(0) =~= Seq::<Seq<char>>::empty());
    }
    while i < items.len()
        invariant
            i <= items.len(),
            arr@ == (StringTypeView {
                value: PossibleSeq::Array(texts(items@).take(i as int)),
                enum_values: None,
            }),
        decreases items.len() - i,
    {
        arr.add_value(items[i].as_str());
        proof {
            assert(texts(items@).take(i + 1) =~= texts(items@).take(i as int).push(
                items@[i as int]@,
            ));
        }
        i += 1;
    }
    proof {
        assert(texts(items@).take(items@.len() as int) =~= texts(items@));
    }
    Element::String(arr)
}

/// An array field of numbers that holds `items`.
fn numbers_value<T: Numeric>(items: &Vec<T>) -> (r: NumberType<T>)
    ensures
        r@ == number_element(PossibleSeq::Array(items@)),
{
    let mut arr = NumberType::new_array();
    arr.set_value(PossibleArray::Array(copy_items(items)));
    arr
}

/// Puts the keywords that the options `opts` ask for into the schema `obj`.
fn set_common_schema_options(obj: &mut ObjectType, opts: &Options)
    ensures
        final(obj)@ == with_common(old(obj)@, opts@),
{
    if opts.has_bool("readonly") {
        put(obj, "readonly", Element::Boolean(BooleanType::from(true)));
    }
}

/// The schema `obj` as it stands for a field, or the schema of an array of
/// it for an array field, with the keywords that the options ask for.
fn finish(obj: ObjectType, array: bool, opts: &Options) -> (r: Element)
    ensures
        r@ == finished(obj@, array, opts@),
{
    if array {
        let mut arr = ObjectType::new();
        set_common_schema_options(&mut arr, opts);
        put(&mut arr, "type", Element::String(StringType::from("array")));
        put(&mut arr, "items", Element::Object(obj));
        Element::Object(arr)
    } else {
        let mut obj = obj;
        set_common_schema_options(&mut obj, opts);
        Element::Object(obj)
    }
}

/// The schema of a bare type.
fn typed_schema(name: &str) -> (r: ObjectType)
    ensures
        r@ == typed(name@),
{
    let mut obj = ObjectType::new();
    put(&mut obj, "type", Element::String(StringType::from(name)));
    obj
}

/// The schema of a boolean field.
fn boolean_to_schema(val: &BooleanType, opts: &Options) -> (r: Element)
    ensures
        r@ == json_schema(ElementView::Boolean(val@), opts@),
{
    finish(typed_schema("boolean"), val.is_array(), opts)
}

/// The schema of an integer field.
fn integer_to_schema(val: &IntegerType, opts: &Options) -> (r: Element)
    ensures
        r@ == json_schema(ElementView::Integer(val@), opts@),
{
    let mut obj = typed_schema("integer");
    match val.enum_values() {
        Some(vals) => put(&mut obj, "enum", Element::Integer(numbers_value(vals.values()))),
        None => {},
    }
    if val.interval().has_min() {
        put(&mut obj, "minimum", Element::Integer(IntegerType::from(val.interval().min(0))));
    }
    if val.interval().has_max() {
        put(&mut obj, "maximum", Element::Integer(IntegerType::from(val.interval().max(0))));
    }
    finish(obj, val.is_array(), opts)
}

/// The schema of a floating field.
fn floating_to_schema(val: &FloatingType, opts: &Options) -> (r: Element)
    ensures
        r@ == json_schema(ElementView::Floating(val@), opts@),
{
    let mut obj = typed_schema("number");
    match val.enum_values() {
        Some(vals) => put(&mut obj, "enum", Element::Floating(numbers_value(vals.values()))),
        None => {},
    }
    if val.interval().has_min() {
        put(
            &mut obj,
            "minimum",
            Element::Floating(FloatingType::from(val.interval().min(Decimal::zero()))),
        );
    }
    if val.interval().has_max() {
        put(
            &mut obj,
            "maximum",
            Element::Floating(FloatingType::from(val.interval().max(Decimal::zero()))),
        );
    }
    finish(obj, val.is_array(), opts)
}

/// The schema of a string field.
fn string_to_schema(val: &StringType, opts: &Options) -> (r: Element)
    ensures
        r@ == json_schema(ElementView::String(val@), opts@),
{
    let mut obj = typed_schema("string");
    match val.enum_values() {
        Some(vals) => put(&mut obj, "enum", texts_value(vals.values())),
        None => {},
    }
    if val.is_array() {
        let mut arr = ObjectType::new();
        set_common_schema_options(&mut obj, opts);
        put(&mut arr, "type", Element::String(StringType::from("array")));
        put(&mut arr, "items", Element::Object(obj));
        Element::Object(arr)
    } else {
        set_common_schema_options(&mut obj, opts);
        Element::Object(obj)
    }
}

/// The schema of an object field.
fn object_to_schema(val: &ObjectType, opts: &Options) -> (r: Element)
    ensures
        r@ == json_schema(ElementView::Object(val@), opts@),
    decreases val@, 0int,
{
    let mut obj = typed_schema("object");
    let mut props = ObjectType::new();
    let mut required: Vec<String> = Vec::new();
    let fields = val.fields();
    let ghost views = val@.fields;
    let mut i: usize = 0;
    proof {
        lemma_object_parts(val@);
    }
    while i < fields.len()
        invariant
            i <= fields.len(),
            views == val@.fields,
            views == field_views(fields@),
            forall|k: int|
                0 <= k < views.len() ==> decreases_to!(val@ => #[trigger] views[k]),
            props@ == properties(views, i as int),
            texts(required@) == required_names(views, i as int),
        decreases fields.len() - i,
    {
        let item = &fields[i];
        proof {
            assert(views[i as int] == item@);
            lemma_element_parts(ElementView::Nil, item@);
        }
        put(&mut props, item.name(), to_json_schema_impl(item.value(), item.options()));
        if item.options().has_bool("required") {
            let ghost before = required@;
            required.push(String::from_str(item.name()));
            proof {
                assert(texts(required@) =~= texts(before).push(item@.name));
            }
        }
        i += 1;
    }
    if required.len() > 0 {
        put(&mut obj, "required", texts_value(&required));
    }
    put(&mut obj, "properties", Element::Object(props));
    proof {
        assert(texts(required@).len() == required@.len());
        assert(obj@ == object_schema(val@));
    }
    finish(obj, val.is_array(), opts)
}

/// The schema of a field of any type.
fn any_to_schema(val: &AnyType, opts: &Options) -> (r: Element)
    ensures
        r@ == json_schema(ElementView::Any(val@), opts@),
    decreases val@, 0int,
{
    proof {
        lemma_any_parts(val@);
    }
    match val.value() {
        PossibleArray::Value(opt_val) => {
            proof {
                assert(val@.value == PossibleSeq::Value(element_view(*opt_val)));
            }
            match &**opt_val {
                Some(held) => to_json_schema_impl(held, opts),
                None => {
                    let mut obj = ObjectType::new();
                    set_common_schema_options(&mut obj, opts);
                    Element::Object(obj)
                },
            }
        },
        PossibleArray::Array(_) => {
            let mut obj = ObjectType::new();
            set_common_schema_options(&mut obj, opts);
            put(&mut obj, "type", Element::String(StringType::from("array")));
            Element::Object(obj)
        },
    }
}

/// The JSON Schema of a field that holds `element` and has the options
/// `opts`, as an element.
pub fn to_json_schema_impl(element: &Element, opts: &Options) -> (r: Element)
    ensures
        r@ == json_schema(element@, opts@),
    decreases element@, 1int,
{
    proof {
        lemma_element_parts(element@, arbitrary());
    }
    match element {
        Element::Boolean(v) => boolean_to_schema(v, opts),
        Element::String(v) => string_to_schema(v, opts),
        Element::Integer(v) => integer_to_schema(v, opts),
        Element::Floating(v) => floating_to_schema(v, opts),
        Element::Object(v) => object_to_schema(v, opts),
        Element::Any(v) => any_to_schema(v, opts),
        Element::Nil => Element::Nil,
    }
}

/// The JSON Schema of the field `val`, indented by two spaces for each
/// level.
pub fn to_json_schema(val: &FieldType) -> (r: String)
    ensures
        r@ == element_json(
            layout(2),
            json_schema(val@.value, val@.opts),
            Seq::<char>::empty(),
        ),
{
    let schema_obj = to_json_schema_impl(val.value(), val.options());
    element_format(&schema_obj, 2)
}

} // verus!
