//! Layout of rendered text, and the rendering of values as JSON.

use vstd::prelude::*;
use vstd::string::*;
use crate::decimal::Decimal;
use crate::helpers::{PossibleArray, PossibleSeq};
use crate::objects::{AnyType, AnyTypeView, Element, ElementView, FieldType, FieldTypeView,
    ObjectType, ObjectTypeView};
use crate::text::{append_decimal, append_integer, append_quoted, decimal_text, integer_text,
    join_texts, joined, quoted, repeat_text, repeated, texts};

verus! {

/// A layout as a plain value.
pub struct FormattingView {
    /// What ends a line: a line feed, or nothing for text on one line.
    pub new_line: Seq<char>,
    /// The indentation of one level.
    pub shift: Seq<char>,
}

/// A layout: how lists are broken into lines and indented.
pub struct Formatting {
    new_line: &'static str,
    shift: String,
}

impl View for Formatting {
    type V = FormattingView;

    closed spec fn view(&self) -> FormattingView {
        FormattingView { new_line: self.new_line@, shift: self.shift@ }
    }
}

/// The layout that indents each level by `shift` spaces; with no spaces the
/// text stays on one line.
pub open spec fn layout(shift: nat) -> FormattingView {
    FormattingView {
        new_line: if shift == 0 {
            ""@
        } else {
            "\n"@
        },
        shift: repeated(seq![' '], shift),
    }
}

/// What separates two items of a list at the indentation `indent`: a comma,
/// the end of the line, and the indentation.
pub open spec fn separator(format: FormattingView, indent: Seq<char>) -> Seq<char> {
    seq![','] + format.new_line + indent
}

/// The items of a list laid out inside brackets that stand at the
/// indentation `indent`: each item on a line of its own, one level deeper,
/// with commas between them. Nothing for no items.
pub open spec fn lines(format: FormattingView, items: Seq<Seq<char>>, indent: Seq<char>) -> Seq<
    char,
> {
    if items.len() > 0 {
        format.new_line + (indent + format.shift) + joined(
            items,
            separator(format, indent + format.shift),
        ) + format.new_line + indent
    } else {
        Seq::<char>::empty()
    }
}

/// A value that can be written as text.
pub trait ValueToString {
    /// The text of the value.
    spec fn text(&self) -> Seq<char>;

    /// The text of the value.
    fn convert(&self) -> (r: String)
        ensures
            r@ == self.text(),
    ;
}

impl ValueToString for bool {
    open spec fn text(&self) -> Seq<char> {
        if *self {
            "true"@
        } else {
            "false"@
        }
    }

    fn convert(&self) -> (r: String) {
        String::from_str(
            if *self {
                "true"
            } else {
                "false"
            },
        )
    }
}

impl ValueToString for i64 {
    open spec fn text(&self) -> Seq<char> {
        integer_text(*self as int)
    }

    fn convert(&self) -> (r: String) {
        let mut out = String::new();
        append_integer(&mut out, *self);
        proof {
            assert(Seq::<char>::empty() + integer_text(*self as int) =~= integer_text(
                *self as int,
            ));
        }
        out
    }
}

impl ValueToString for Decimal {
    open spec fn text(&self) -> Seq<char> {
        decimal_text(*self)
    }

    fn convert(&self) -> (r: String) {
        let mut out = String::new();
        append_decimal(&mut out, self);
        proof {
            assert(Seq::<char>::empty() + decimal_text(*self) =~= decimal_text(*self));
        }
        out
    }
}

impl ValueToString for String {
    open spec fn text(&self) -> Seq<char> {
        quoted(self@)
    }

    fn convert(&self) -> (r: String) {
        let mut out = String::new();
        append_quoted(&mut out, self.as_str());
        proof {
            assert(Seq::<char>::empty() + quoted(self@) =~= quoted(self@));
        }
        out
    }
}

/// The texts of a sequence of values.
pub open spec fn value_texts<T: ValueToString>(items: Seq<T>) -> Seq<Seq<char>> {
    Seq::new(items.len(), |i: int| items[i].text())
}

/// The values `arr` as texts.
pub fn convert_all<T: ValueToString>(arr: &Vec<T>) -> (r: Vec<String>)
    ensures
        texts(r@) == value_texts(arr@),
{
    let mut r: Vec<String> = Vec::new();
    let mut i: usize = 0;
    while i < arr.len()
        invariant
            i <= arr.len(),
            r@.len() == i,
            forall|k: int| 0 <= k < i ==> (#[trigger] r@[k])@ == arr@[k].text(),
        decreases arr.len() - i,
    {
        r.push(arr[i].convert());
        i += 1;
    }
    proof {
        assert(texts(r@) =~= value_texts(arr@));
    }
    r
}

impl Formatting {
    /// The layout that indents each level by `shift` spaces; with no spaces
    /// the text stays on one line.
    pub fn new(shift: usize) -> (r: Formatting)
        ensures
            r@ == layout(shift as nat),
    {
        proof {
            reveal_strlit(" ");
            assert(" "@ =~= seq![' ']);
            assert(repeated(seq![' '], 0) =~= ""@) by {
                reveal_strlit("");
            }
        }
        Formatting {
            new_line: if shift == 0 {
                ""
            } else {
                "\n"
            },
            shift: if shift == 0 {
                String::new()
            } else {
                repeat_text(" ", shift)
            },
        }
    }

    /// The indentation of the level `shift`.
    pub fn sh(&self, shift: usize) -> (r: String)
        ensures
            r@ == repeated(self@.shift, shift as nat),
    {
        repeat_text(self.shift.as_str(), shift)
    }

    /// What separates two items of a list on the level `shift`.
    pub fn nl_sh(&self, shift: usize) -> (r: String)
        ensures
            r@ == separator(self@, repeated(self@.shift, shift as nat)),
    {
        let mut out = String::from_str(",");
        out.append(self.new_line);
        out.append(self.sh(shift).as_str());
        proof {
            reveal_strlit(",");
            assert(out@ =~= separator(self@, repeated(self@.shift, shift as nat)));
        }
        out
    }

    /// The indentation `indent` one level deeper.
    pub fn deeper(&self, indent: &str) -> (r: String)
        ensures
            r@ == indent@ + self@.shift,
    {
        let mut out = String::from_str(indent);
        out.append(self.shift.as_str());
        out
    }

    /// Lays out the items `arr` of a list inside brackets that stand at the
    /// indentation `indent`.
    pub fn format_lines(&self, arr: &Vec<String>, indent: &str) -> (r: String)
        ensures
            r@ == lines(self@, texts(arr@), indent@),
    {
        if arr.len() > 0 {
            let deeper = self.deeper(indent);
            let mut between = String::from_str(",");
            between.append(self.new_line);
            between.append(deeper.as_str());
            let mut out = String::from_str(self.new_line);
            out.append(deeper.as_str());
            out.append(join_texts(arr, between.as_str()).as_str());
            out.append(self.new_line);
            out.append(indent);
            proof {
                reveal_strlit(",");
                assert(between@ =~= separator(self@, indent@ + self@.shift));
                assert(out@ =~= lines(self@, texts(arr@), indent@));
            }
            out
        } else {
            String::new()
        }
    }

    /// Lays out the items `arr` of a list inside brackets that stand on the
    /// level `shift`.
    pub fn format_array(&self, arr: &Vec<String>, shift: usize) -> (r: String)
        ensures
            r@ == lines(self@, texts(arr@), repeated(self@.shift, shift as nat)),
    {
        let indent = self.sh(shift);
        self.format_lines(arr, indent.as_str())
    }

    /// Lays out the values `arr` of a list inside brackets that stand on the
    /// level `shift`.
    pub fn format_t_array<T: ValueToString>(&self, arr: &Vec<T>, shift: usize) -> (r: String)
        ensures
            r@ == lines(self@, value_texts(arr@), repeated(self@.shift, shift as nat)),
    {
        let items = convert_all(arr);
        self.format_array(&items, shift)
    }

    /// The text of the value `val`.
    pub fn format_value<T: ValueToString>(&self, val: &T) -> (r: String)
        ensures
            r@ == val.text(),
    {
        val.convert()
    }
}

/// A value or the values of a list, each rendered by `render`.
pub open spec fn rendered<T>(slot: PossibleSeq<T>, render: spec_fn(T) -> Seq<char>) -> PossibleSeq<
    Seq<char>,
> {
    match slot {
        PossibleSeq::Value(val) => PossibleSeq::Value(render(val)),
        PossibleSeq::Array(items) => PossibleSeq::Array(
            Seq::new(items.len(), |i: int| render(items[i])),
        ),
    }
}

/// The text of a value, or of a list of values between square brackets.
pub open spec fn slot_text(format: FormattingView, slot: PossibleSeq<Seq<char>>, indent: Seq<char>)
    -> Seq<char> {
    match slot {
        PossibleSeq::Value(val) => val,
        PossibleSeq::Array(items) => seq!['['] + lines(format, items, indent) + seq![']'],
    }
}

/// A member of a JSON object: the name between double quotes, a colon, a
/// blank and the value.
pub open spec fn member_json(format: FormattingView, field: FieldTypeView, indent: Seq<char>)
    -> Seq<char>
    decreases field,
{
    quoted(field.name) + seq![':', ' '] + element_json(format, field.value, indent)
}

/// What a field holds, as JSON. A field without type gives no text.
pub open spec fn element_json(format: FormattingView, element: ElementView, indent: Seq<char>)
    -> Seq<char>
    decreases element,
{
    match element {
        ElementView::Boolean(v) => slot_text(
            format,
            rendered(v.value, |val: bool| val.text()),
            indent,
        ),
        ElementView::String(v) => slot_text(
            format,
            rendered(v.value, |val: Seq<char>| quoted(val)),
            indent,
        ),
        ElementView::Integer(v) => slot_text(
            format,
            rendered(v.value, |val: i64| val.text()),
            indent,
        ),
        ElementView::Floating(v) => slot_text(
            format,
            rendered(v.value, |val: Decimal| val.text()),
            indent,
        ),
        ElementView::Object(v) => object_json(format, v, indent),
        ElementView::Any(v) => any_json(format, v, indent),
        ElementView::Nil => Seq::<char>::empty(),
    }
}

/// The members of a JSON object for the fields `fields`.
pub open spec fn members_json(format: FormattingView, fields: Seq<FieldTypeView>, indent: Seq<char>)
    -> Seq<Seq<char>>
    decreases fields,
{
    Seq::new(
        fields.len(),
        |i: int|
            if 0 <= i < fields.len() {
                member_json(format, fields[i], indent)
            } else {
                Seq::<char>::empty()
            },
    )
}

/// An object field as JSON: the object that it holds with its fields as
/// members, or the declared fields if it holds none; an array field as a list
/// of such objects.
pub open spec fn object_json(format: FormattingView, object: ObjectTypeView, indent: Seq<char>)
    -> Seq<char>
    decreases object,
{
    match object.value {
        PossibleSeq::Value(inner) => {
            let fields = match *inner {
                Some(held) => held.fields,
                None => object.fields,
            };
            seq!['{'] + lines(format, members_json(format, fields, indent + format.shift), indent)
                + seq!['}']
        },
        PossibleSeq::Array(items) => seq!['['] + lines(
            format,
            objects_json(format, items, indent + format.shift),
            indent,
        ) + seq![']'],
    }
}

/// The objects of an array field as JSON; nothing for a missing object.
pub open spec fn objects_json(
    format: FormattingView,
    items: Seq<Box<Option<ObjectTypeView>>>,
    indent: Seq<char>,
) -> Seq<Seq<char>>
    decreases items,
{
    Seq::new(
        items.len(),
        |i: int|
            if 0 <= i < items.len() {
                match *items[i] {
                    Some(held) => object_json(format, held, indent),
                    None => Seq::<char>::empty(),
                }
            } else {
                Seq::<char>::empty()
            },
    )
}

/// The items of a list as JSON; `null` for a missing item.
pub open spec fn items_json(
    format: FormattingView,
    items: Seq<Box<Option<ElementView>>>,
    indent: Seq<char>,
) -> Seq<Seq<char>>
    decreases items,
{
    Seq::new(
        items.len(),
        |i: int|
            if 0 <= i < items.len() {
                match *items[i] {
                    Some(held) => element_json(format, held, indent),
                    None => "null"@,
                }
            } else {
                Seq::<char>::empty()
            },
    )
}

/// A field of any type as JSON: what it holds, `null` if it holds nothing,
/// and a list for a list.
pub open spec fn any_json(format: FormattingView, any: AnyTypeView, indent: Seq<char>) -> Seq<char>
    decreases any,
{
    match any.value {
        PossibleSeq::Array(items) => seq!['['] + lines(
            format,
            items_json(format, items, indent + format.shift),
            indent,
        ) + seq![']'],
        PossibleSeq::Value(inner) => match *inner {
            Some(held) => element_json(format, held, indent + format.shift),
            None => "null"@,
        },
    }
}

/// The parts of an object field are smaller than the field.
pub proof fn lemma_object_parts(object: ObjectTypeView)
    ensures
        decreases_to!(object => object.fields),
        forall|i: int|
            0 <= i < object.fields.len() ==> decreases_to!(object => #[trigger] object.fields[i]),
        object.value matches PossibleSeq::Value(inner) ==> (*inner matches Some(held)
            ==> decreases_to!(object => held) && decreases_to!(object => held.fields)),
        object.value matches PossibleSeq::Array(items) ==> forall|i: int|
            0 <= i < items.len() ==> ((*#[trigger] items[i]) matches Some(held)
                ==> decreases_to!(object => held)),
{
    assert(decreases_to!(object => object.fields));
    assert(decreases_to!(object => object.value));
    match object.value {
        PossibleSeq::Value(inner) => {
            assert(decreases_to!(object.value => object.value->Value_0));
            match *inner {
                Some(held) => {
                    assert(decreases_to!(object.value->Value_0 => (*object.value->Value_0)->Some_0));
                    assert(decreases_to!(held => held.fields));
                },
                None => {},
            }
        },
        PossibleSeq::Array(items) => {
            assert(decreases_to!(object.value => object.value->Array_0));
            assert forall|i: int| 0 <= i < items.len() implies ((*#[trigger] items[i]) matches Some(
                held,
            ) ==> decreases_to!(object => held)) by {
                assert(decreases_to!(items => items[i]));
                if *items[i] is Some {
                    assert(decreases_to!(items[i] => (*items[i])->Some_0));
                }
            }
        },
    }
}

/// The parts of a field of any type are smaller than the field.
pub proof fn lemma_any_parts(any: AnyTypeView)
    ensures
        any.value matches PossibleSeq::Value(inner) ==> (*inner matches Some(held)
            ==> decreases_to!(any => held)),
        any.value matches PossibleSeq::Array(items) ==> forall|i: int|
            0 <= i < items.len() ==> ((*#[trigger] items[i]) matches Some(held)
                ==> decreases_to!(any => held)),
{
    assert(decreases_to!(any => any.value));
    match any.value {
        PossibleSeq::Value(inner) => {
            assert(decreases_to!(any.value => any.value->Value_0));
            match *inner {
                Some(held) => {
                    assert(decreases_to!(any.value->Value_0 => (*any.value->Value_0)->Some_0));
                },
                None => {},
            }
        },
        PossibleSeq::Array(items) => {
            assert(decreases_to!(any.value => any.value->Array_0));
            assert forall|i: int| 0 <= i < items.len() implies ((*#[trigger] items[i]) matches Some(
                held,
            ) ==> decreases_to!(any => held)) by {
                assert(decreases_to!(items => items[i]));
                if *items[i] is Some {
                    assert(decreases_to!(items[i] => (*items[i])->Some_0));
                }
            }
        },
    }
}

/// What an element holds is smaller than the element, and what a field
/// holds is smaller than the field.
pub proof fn lemma_element_parts(element: ElementView, field: FieldTypeView)
    ensures
        element matches ElementView::Object(held) ==> decreases_to!(element => held),
        element matches ElementView::Any(held) ==> decreases_to!(element => held),
        decreases_to!(field => field.value),
{
    if element is Object {
        assert(decreases_to!(element => element->Object_0));
    }
    if element is Any {
        assert(decreases_to!(element => element->Any_0));
    }
}

/// The text `text` between the brackets `open` and `close`.
pub fn bracketed(open: char, text: String, close: char) -> (r: String)
    ensures
        r@ == seq![open] + text@ + seq![close],
{
    let mut out = String::new();
    out.push(open);
    out.append(text.as_str());
    out.push(close);
    proof {
        assert(out@ =~= seq![open] + text@ + seq![close]);
    }
    out
}

/// The text of a value, or of a list of values between square brackets.
pub fn value_format<T: ValueToString>(value: &PossibleArray<T>, format: &Formatting, indent: &str)
    -> (r: String)
    ensures
        r@ == slot_text(format@, rendered(value@, |val: T| val.text()), indent@),
{
    match value {
        PossibleArray::Value(val) => val.convert(),
        PossibleArray::Array(arr) => {
            let items = convert_all(arr);
            proof {
                assert(texts(items@) =~= rendered(value@, |val: T| val.text())->Array_0);
            }
            bracketed('[', format.format_lines(&items, indent), ']')
        },
    }
}

/// The members of a JSON object for the fields `fields`.
fn members_format(fields: &Vec<FieldType>, format: &Formatting, indent: &str) -> (r: Vec<String>)
    ensures
        texts(r@) == members_json(format@, crate::objects::field_views(fields@), indent@),
    decreases crate::objects::field_views(fields@),
{
    let mut items: Vec<String> = Vec::new();
    let mut i: usize = 0;
    let ghost views = crate::objects::field_views(fields@);
    while i < fields.len()
        invariant
            i <= fields.len(),
            items@.len() == i,
            views == crate::objects::field_views(fields@),
            forall|k: int|
                0 <= k < i ==> (#[trigger] items@[k])@ == member_json(format@, views[k], indent@),
        decreases fields.len() - i,
    {
        let field = &fields[i];
        let mut item = String::new();
        append_quoted(&mut item, field.name());
        item.append(": ");
        proof {
            assert(views[i as int] == field@);
            assert(decreases_to!(views => views[i as int]));
            lemma_element_parts(ElementView::Nil, field@);
        }
        item.append(element_format_impl(field.value(), format, indent).as_str());
        proof {
            reveal_strlit(": ");
            assert(item@ =~= member_json(format@, views[i as int], indent@));
        }
        items.push(item);
        i += 1;
    }
    proof {
        assert(texts(items@) =~= members_json(format@, views, indent@));
    }
    items
}

/// An object field as JSON.
fn object_format(obj: &ObjectType, format: &Formatting, indent: &str) -> (r: String)
    ensures
        r@ == object_json(format@, obj@, indent@),
    decreases obj@,
{
    let inside = format.deeper(indent);
    proof {
        lemma_object_parts(obj@);
    }
    match obj.value() {
        PossibleArray::Value(val) => {
            let fields = match &**val {
                Some(unboxed) => unboxed.fields(),
                None => obj.fields(),
            };
            proof {
                assert(obj@.value == PossibleSeq::Value(crate::objects::object_view(*val)));
                assert(crate::objects::field_views(fields@) == (match *obj@.value->Value_0 {
                    Some(held) => held.fields,
                    None => obj@.fields,
                }));
            }
            let str_value = members_format(fields, format, inside.as_str());
            bracketed('{', format.format_lines(&str_value, indent), '}')
        },
        PossibleArray::Array(arr) => {
            let mut str_value: Vec<String> = Vec::new();
            let mut i: usize = 0;
            let ghost items = obj@.value->Array_0;
            while i < arr.len()
                invariant
                    i <= arr.len(),
                    str_value@.len() == i,
                    obj@.value == PossibleSeq::Array(items),
                    items.len() == arr@.len(),
                    forall|k: int|
                        0 <= k < items.len() ==> ((*#[trigger] items[k]) matches Some(held)
                            ==> decreases_to!(obj@ => held)),
                    inside@ == indent@ + format@.shift,
                    forall|k: int|
                        0 <= k < arr@.len() ==> crate::objects::object_view(arr@[k]) == items[k],
                    forall|k: int|
                        0 <= k < i ==> (#[trigger] str_value@[k])@ == (match *items[k] {
                            Some(held) => object_json(format@, held, inside@),
                            None => Seq::<char>::empty(),
                        }),
                decreases arr.len() - i,
            {
                let item: &Option<ObjectType> = &arr[i];
                proof {
                    assert(crate::objects::object_view(arr@[i as int]) == items[i as int]);
                }
                let rendered = match item {
                    Some(field) => {
                        proof {
                            assert(*items[i as int] == Some(field@));
                        }
                        object_format(field, format, inside.as_str())
                    },
                    None => String::new(),
                };
                str_value.push(rendered);
                i += 1;
            }
            proof {
                assert(texts(str_value@) =~= objects_json(format@, items, inside@));
            }
            bracketed('[', format.format_lines(&str_value, indent), ']')
        },
    }
}

/// A field of any type as JSON.
fn any_format(any: &AnyType, format: &Formatting, indent: &str) -> (r: String)
    ensures
        r@ == any_json(format@, any@, indent@),
    decreases any@,
{
    let inside = format.deeper(indent);
    proof {
        lemma_any_parts(any@);
    }
    match any.value() {
        PossibleArray::Array(arr) => {
            let mut str_values: Vec<String> = Vec::new();
            let mut i: usize = 0;
            let ghost items = any@.value->Array_0;
            while i < arr.len()
                invariant
                    i <= arr.len(),
                    str_values@.len() == i,
                    any@.value == PossibleSeq::Array(items),
                    items.len() == arr@.len(),
                    forall|k: int|
                        0 <= k < items.len() ==> ((*#[trigger] items[k]) matches Some(held)
                            ==> decreases_to!(any@ => held)),
                    inside@ == indent@ + format@.shift,
                    forall|k: int|
                        0 <= k < arr@.len() ==> crate::objects::element_view(arr@[k]) == items[k],
                    forall|k: int|
                        0 <= k < i ==> (#[trigger] str_values@[k])@ == (match *items[k] {
                            Some(held) => element_json(format@, held, inside@),
                            None => "null"@,
                        }),
                decreases arr.len() - i,
            {
                let item: &Option<Element> = &arr[i];
                proof {
                    assert(crate::objects::element_view(arr@[i as int]) == items[i as int]);
                }
                let rendered = match item {
                    Some(field) => {
                        proof {
                            assert(*items[i as int] == Some(field@));
                        }
                        element_format_impl(field, format, inside.as_str())
                    },
                    None => String::from_str("null"),
                };
                str_values.push(rendered);
                i += 1;
            }
            proof {
                assert(texts(str_values@) =~= items_json(format@, items, inside@));
            }
            bracketed('[', format.format_lines(&str_values, indent), ']')
        },
        PossibleArray::Value(val) => {
            proof {
                assert(any@.value == PossibleSeq::Value(crate::objects::element_view(*val)));
            }
            match &**val {
                Some(unboxed) => element_format_impl(unboxed, format, inside.as_str()),
                None => String::from_str("null"),
            }
        },
    }
}

/// What a field holds, as JSON, inside brackets that stand at the
/// indentation `indent`.
pub fn element_format_impl(element: &Element, format: &Formatting, indent: &str) -> (r: String)
    ensures
        r@ == element_json(format@, element@, indent@),
    decreases element@,
{
    proof {
        lemma_element_parts(element@, arbitrary());
    }
    match element {
        Element::Boolean(v) => value_format(v.value(), format, indent),
        Element::String(v) => {
            let value = v.value();
            proof {
                let exec_slot = rendered(value@, |val: String| val.text());
                let view_slot = rendered(v@.value, |val: Seq<char>| quoted(val));
                match value@ {
                    PossibleSeq::Array(items) => {
                        assert(exec_slot->Array_0 =~= view_slot->Array_0);
                    },
                    _ => {},
                }
                assert(exec_slot == view_slot);
            }
            value_format(value, format, indent)
        },
        Element::Integer(v) => value_format(v.value(), format, indent),
        Element::Floating(v) => value_format(v.value(), format, indent),
        Element::Object(v) => object_format(v, format, indent),
        Element::Any(v) => any_format(v, format, indent),
        Element::Nil => String::new(),
    }
}

/// What a field holds, as JSON, indented by `shift` spaces for each level.
pub fn element_format(element: &Element, shift: usize) -> (r: String)
    ensures
        r@ == element_json(layout(shift as nat), element@, Seq::<char>::empty()),
{
    let format = Formatting::new(shift);
    proof {
        reveal_strlit("");
        assert(""@ =~= Seq::<char>::empty());
    }
    element_format_impl(element, &format, "")
}

} // verus!
