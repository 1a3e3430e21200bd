//! What holds of everything that the parser returns: within every object the
//! names of the fields are unique.

use vstd::prelude::*;
use crate::grammar::{accept_assign, accept_special, any_parse, begin_read, blank_object,
    declared_fields, declared_read, element_guess, field_parse, list_guess, literal_field,
    literal_fields, name_read, object_array_read, object_assigned, object_guess,
    object_literal_read, object_parse, object_value_read, options_parse, same_object,
    skip_separator, skip_special, step, token_at, typed_parse, with_field, Cursor};
use crate::helpers::PossibleSeq;
use crate::object_base::ObjectBase;
use crate::objects::{field_index, lemma_field_index_finds, lemma_put_field_keeps_names_unique,
    names_unique, put_field, AnyType, AnyTypeView, ElementView, FieldTypeView, ObjectType,
    ObjectTypeView, OptionView};
use crate::tokens::{SpecialToken, TokenInfoView, TokenView, TypeName};

verus! {

/// Whether the names of the fields are unique within every object of the
/// element.
pub open spec fn well_named(element: ElementView) -> bool
    decreases element, 0int,
{
    match element {
        ElementView::Object(object) => object_well_named(object),
        ElementView::Any(any) => any_well_named(any),
        _ => true,
    }
}

/// Whether the names of the fields are unique within the object field and
/// within every object that it declares or holds.
pub open spec fn object_well_named(object: ObjectTypeView) -> bool
    decreases object, 2int,
{
    &&& names_unique(object.fields)
    &&& fields_well_named(object.fields)
    &&& match object.value {
        PossibleSeq::Value(inner) => match *inner {
            Some(held) => object_well_named(held),
            None => true,
        },
        PossibleSeq::Array(items) => forall|i: int|
            0 <= i < items.len() ==> (match *#[trigger] items[i] {
                Some(held) => object_well_named(held),
                None => true,
            }),
    }
}

/// Whether the names of the fields are unique within every object that the
/// fields hold.
pub open spec fn fields_well_named(fields: Seq<FieldTypeView>) -> bool
    decreases fields, 1int,
{
    forall|i: int| 0 <= i < fields.len() ==> well_named((#[trigger] fields[i]).value)
}

/// Whether the names of the fields are unique within every object that the
/// field of any type holds.
pub open spec fn any_well_named(any: AnyTypeView) -> bool
    decreases any, 2int,
{
    match any.value {
        PossibleSeq::Value(inner) => match *inner {
            Some(held) => well_named(held),
            None => true,
        },
        PossibleSeq::Array(items) => forall|i: int|
            0 <= i < items.len() ==> (match *#[trigger] items[i] {
                Some(held) => well_named(held),
                None => true,
            }),
    }
}

/// An object stays well named when a well named field is put into it.
pub proof fn lemma_put_well_named(object: ObjectTypeView, field: FieldTypeView)
    requires
        object_well_named(object),
        well_named(field.value),
    ensures
        object_well_named(ObjectTypeView { fields: put_field(object.fields, field), ..object }),
{
    let name = field.name;
    lemma_put_field_keeps_names_unique(object.fields, field);
    lemma_field_index_finds(object.fields, name);
    let after = put_field(object.fields, field);
    assert(fields_well_named(object.fields));
    assert forall|i: int| 0 <= i < after.len() implies well_named((#[trigger] after[i]).value) by {
        if i < object.fields.len() && i != field_index(object.fields, name) {
            assert(after[i] == object.fields[i]);
            assert(well_named(object.fields[i].value));
        } else {
            assert(after[i] == field);
        }
    }
    assert(fields_well_named(after));
}

/// An object stays well named when a well named value is put into it under
/// a name.
pub proof fn lemma_with_field_well_named(object: ObjectTypeView, name: Seq<char>, value: ElementView)
    requires
        object_well_named(object),
        well_named(value),
    ensures
        object_well_named(with_field(object, name, value)),
{
    lemma_put_well_named(object, FieldTypeView { value, name, opts: Seq::<OptionView>::empty() });
}

/// An object without fields and value is well named, and so is a list
/// without items.
pub proof fn lemma_blank_well_named()
    ensures
        object_well_named(blank_object(Seq::empty())),
        object_well_named(ObjectType::fresh()),
        any_well_named(AnyType::fresh()),
        any_well_named(AnyType::emptied(AnyType::fresh())),
{
    let blank = blank_object(Seq::empty());
    assert(blank.fields.len() == 0);
    assert(names_unique(blank.fields));
    assert(fields_well_named(blank.fields));
    assert(ObjectType::fresh() == blank);
}

/// An object stays well named when it gets a well named object as its value.
pub proof fn lemma_with_value_well_named(object: ObjectTypeView, held: ObjectTypeView)
    requires
        object_well_named(object),
        object_well_named(held),
    ensures
        object_well_named(
            ObjectTypeView { value: object.value.with(Box::new(Some(held))), ..object },
        ),
{
    let after = ObjectTypeView { value: object.value.with(Box::new(Some(held))), ..object };
    match object.value {
        PossibleSeq::Array(items) => {
            let longer = items.push(Box::new(Some(held)));
            assert(after.value == PossibleSeq::Array(longer));
            assert forall|i: int| 0 <= i < longer.len() implies (match *#[trigger] longer[i] {
                Some(inner) => object_well_named(inner),
                None => true,
            }) by {
                if i < items.len() {
                    assert(longer[i] == items[i]);
                }
            }
        },
        PossibleSeq::Value(_) => {},
    }
}

/// A list stays well named when it gets a well named item.
pub proof fn lemma_with_item_well_named(list: AnyTypeView, item: ElementView)
    requires
        any_well_named(list),
        well_named(item),
    ensures
        any_well_named(AnyTypeView { value: list.value.with(Box::new(Some(item))) }),
{
    match list.value {
        PossibleSeq::Array(items) => {
            let longer = items.push(Box::new(Some(item)));
            assert forall|i: int| 0 <= i < longer.len() implies (match *#[trigger] longer[i] {
                Some(inner) => well_named(inner),
                None => true,
            }) by {
                if i < items.len() {
                    assert(longer[i] == items[i]);
                }
            }
        },
        PossibleSeq::Value(_) => {},
    }
}

/// A value whose type is taken from the value itself is well named.
pub proof fn lemma_element_guess_well_named(toks: Seq<TokenInfoView>, at: Cursor)
    ensures
        element_guess(toks, at) matches Ok((element, _)) ==> well_named(element),
    decreases toks.len() - at.next, 1int,
{
    match token_at(toks, at.next).token {
        TokenView::Special(SpecialToken::LBrace) => {
            lemma_blank_well_named();
            lemma_object_guess_well_named(ObjectType::fresh(), toks, step(toks, at));
        },
        TokenView::Special(SpecialToken::LBracket) => {
            lemma_blank_well_named();
            lemma_list_guess_well_named(AnyType::emptied(AnyType::fresh()), toks, step(toks, at));
        },
        TokenView::Special(SpecialToken::Null) => {
            lemma_blank_well_named();
        },
        _ => {},
    }
}

/// An object whose fields are taken from their values is well named.
pub proof fn lemma_object_guess_well_named(
    object: ObjectTypeView,
    toks: Seq<TokenInfoView>,
    at: Cursor,
)
    requires
        object_well_named(object),
    ensures
        object_guess(object, toks, at) matches Ok((guessed, _)) ==> object_well_named(guessed),
    decreases toks.len() - at.next, 2int,
{
    let (closed, behind_brace) = accept_special(toks, at, SpecialToken::RBrace);
    if !closed {
        let (found, name, at_name) = name_read(toks, at);
        if found {
            let at_value = accept_assign(toks, at_name).1;
            lemma_element_guess_well_named(toks, at_value);
            match element_guess(toks, at_value) {
                Ok((element, behind_value)) => {
                    let behind = skip_special(toks, behind_value, SpecialToken::Comma);
                    if at.next < behind.next <= toks.len() {
                        lemma_with_field_well_named(object, name, element);
                        lemma_object_guess_well_named(
                            with_field(object, name, element),
                            toks,
                            behind,
                        );
                    }
                },
                Err(_) => {},
            }
        }
    }
}

/// A list whose items are taken from the items themselves is well named.
pub proof fn lemma_list_guess_well_named(list: AnyTypeView, toks: Seq<TokenInfoView>, at: Cursor)
    requires
        any_well_named(list),
    ensures
        list_guess(list, toks, at) matches Ok((guessed, _)) ==> any_well_named(guessed),
    decreases toks.len() - at.next, 2int,
{
    let (closed, behind_bracket) = accept_special(toks, at, SpecialToken::RBracket);
    if !closed {
        lemma_element_guess_well_named(toks, at);
        match element_guess(toks, at) {
            Ok((element, behind_item)) => {
                let behind = skip_special(toks, behind_item, SpecialToken::Comma);
                if at.next < behind.next <= toks.len() {
                    lemma_with_item_well_named(list, element);
                    lemma_list_guess_well_named(
                        AnyTypeView { value: list.value.with(Box::new(Some(element))) },
                        toks,
                        behind,
                    );
                }
            },
            Err(_) => {},
        }
    }
}

/// The value that is read for an object field leaves the field well named.
pub proof fn lemma_object_assigned_well_named(
    object: ObjectTypeView,
    toks: Seq<TokenInfoView>,
    at: Cursor,
)
    requires
        object_well_named(object),
    ensures
        object_assigned(object, toks, at) matches Ok((read, _)) ==> object_well_named(read),
    decreases toks.len() - at.next, 3int,
{
    let (found, behind) = accept_assign(toks, at);
    if found {
        lemma_object_literal_read_well_named(object, toks, behind);
    }
}

/// The literal that is read for an object field leaves the field well
/// named.
pub proof fn lemma_object_literal_read_well_named(
    object: ObjectTypeView,
    toks: Seq<TokenInfoView>,
    at: Cursor,
)
    requires
        object_well_named(object),
    ensures
        object_literal_read(object, toks, at) matches Ok((read, _)) ==> object_well_named(read),
    decreases toks.len() - at.next, 3int,
{
    if !ObjectType::holds_array(object) {
        let (opened, inside) = accept_special(toks, at, SpecialToken::LBrace);
        if opened {
            lemma_object_value_read_well_named(object, toks, inside);
        }
    } else {
        let (opened, inside) = accept_special(toks, at, SpecialToken::LBracket);
        if opened {
            lemma_object_array_read_well_named(object, toks, inside);
        }
    }
}

/// The objects that are read for an array field leave the field well named.
pub proof fn lemma_object_array_read_well_named(
    object: ObjectTypeView,
    toks: Seq<TokenInfoView>,
    at: Cursor,
)
    requires
        object_well_named(object),
    ensures
        object_array_read(object, toks, at) matches Ok((read, _)) ==> object_well_named(read),
    decreases toks.len() - at.next, 3int,
{
    let (opened, inside) = accept_special(toks, at, SpecialToken::LBrace);
    if opened {
        lemma_object_value_read_well_named(object, toks, inside);
        match object_value_read(object, toks, inside) {
            Ok((with_item, behind_item)) => {
                let behind = skip_special(toks, behind_item, SpecialToken::Comma);
                if at.next < behind.next <= toks.len() {
                    lemma_object_array_read_well_named(with_item, toks, behind);
                }
            },
            Err(_) => {},
        }
    }
}

/// The object of a literal is well named, and leaves the field that it is
/// read for well named.
pub proof fn lemma_object_value_read_well_named(
    object: ObjectTypeView,
    toks: Seq<TokenInfoView>,
    at: Cursor,
)
    requires
        object_well_named(object),
    ensures
        object_value_read(object, toks, at) matches Ok((read, _)) ==> object_well_named(read),
    decreases toks.len() - at.next, 2int,
{
    let blank = blank_object(object.fields);
    assert(object_well_named(blank));
    lemma_literal_fields_well_named(object.fields, blank, toks, at);
    match literal_fields(object.fields, blank, toks, at) {
        Ok((literal, _)) => {
            lemma_with_value_well_named(object, literal);
        },
        Err(_) => {},
    }
}

/// The value that is read for a declared field of a literal is well named.
pub proof fn lemma_declared_read_well_named(
    declaration: ElementView,
    toks: Seq<TokenInfoView>,
    at: Cursor,
)
    requires
        well_named(declaration),
    ensures
        declared_read(declaration, toks, at) matches Ok((Some(read), _)) ==> well_named(read),
    decreases toks.len() - at.next, 4int,
{
    match declaration {
        ElementView::Object(declared) => {
            let same = same_object(declared);
            assert(same.value == PossibleSeq::<Box<Option<ObjectTypeView>>>::Value(Box::new(None))
                || same.value == PossibleSeq::<Box<Option<ObjectTypeView>>>::Array(Seq::empty()));
            assert(object_well_named(same));
            lemma_object_assigned_well_named(same, toks, at);
        },
        _ => {},
    }
}

/// The value that is read for a field of a literal is well named.
pub proof fn lemma_literal_field_well_named(
    declared: Seq<FieldTypeView>,
    name: Seq<char>,
    toks: Seq<TokenInfoView>,
    at: Cursor,
)
    requires
        fields_well_named(declared),
    ensures
        literal_field(declared, name, toks, at) matches Ok((Some(read), _)) ==> well_named(read),
    decreases toks.len() - at.next, 5int,
{
    let place = field_index(declared, name);
    if 0 <= place < declared.len() {
        assert(well_named(declared[place].value));
        lemma_declared_read_well_named(declared[place].value, toks, at);
    } else {
        let (assigned, at_value) = accept_assign(toks, at);
        if assigned {
            lemma_element_guess_well_named(toks, at_value);
        }
    }
}

/// The fields that are read for a literal leave its object well named.
pub proof fn lemma_literal_fields_well_named(
    declared: Seq<FieldTypeView>,
    literal: ObjectTypeView,
    toks: Seq<TokenInfoView>,
    at: Cursor,
)
    requires
        fields_well_named(declared),
        object_well_named(literal),
    ensures
        literal_fields(declared, literal, toks, at) matches Ok((read, _)) ==> object_well_named(
            read,
        ),
    decreases toks.len() - at.next, 1int,
{
    let (closed, behind_brace) = accept_special(toks, at, SpecialToken::RBrace);
    if !closed {
        let (found, name, at_name) = name_read(toks, at);
        if found && at.next < at_name.next {
            lemma_literal_field_well_named(declared, name, toks, at_name);
            match literal_field(declared, name, toks, at_name) {
                Ok((read, behind_value)) => {
                    let with_value = match read {
                        Some(value) => with_field(literal, name, value),
                        None => literal,
                    };
                    if read is Some {
                        lemma_with_field_well_named(literal, name, read->Some_0);
                    }
                    let behind = skip_special(toks, behind_value, SpecialToken::Comma);
                    if at.next < behind.next <= toks.len() {
                        lemma_literal_fields_well_named(declared, with_value, toks, behind);
                    }
                },
                Err(_) => {},
            }
        }
    }
}

/// The element of a field with a type name is well named.
pub proof fn lemma_typed_parse_well_named(toks: Seq<TokenInfoView>, at: Cursor)
    ensures
        typed_parse(toks, at) matches Ok((element, _)) ==> well_named(element),
    decreases toks.len() - at.next, 8int,
{
    match token_at(toks, at.current).token {
        TokenView::Type(TypeName::TypeObject) => {
            lemma_object_parse_well_named(toks, at);
        },
        TokenView::Type(TypeName::TypeAny) => {
            reveal(any_parse);
            let (assigned, at_value) = accept_assign(toks, at);
            if assigned {
                lemma_element_guess_well_named(toks, at_value);
            }
        },
        _ => {},
    }
}

/// Names are unique in what the parser returns: within every object of a
/// parsed field, declared or held, no two fields have the same name.
pub proof fn lemma_field_parse_well_named(toks: Seq<TokenInfoView>, at: Cursor)
    ensures
        field_parse(toks, at) matches Ok((field, _)) ==> well_named(field.value),
    decreases toks.len() - at.next, 5int,
{
    let (_, name, at_name) = name_read(toks, at);
    match options_parse(toks, at_name) {
        Ok((opts, at_opts)) => {
            let (colon, at_colon) = if name.len() > 0 {
                accept_special(toks, at_opts, SpecialToken::Colon)
            } else {
                (true, at_opts)
            };
            if colon && at.next <= at_colon.next < toks.len() {
                lemma_typed_parse_well_named(toks, step(toks, at_colon));
            }
        },
        Err(_) => {},
    }
}

/// An object field that the parser returns is well named.
pub proof fn lemma_object_parse_well_named(toks: Seq<TokenInfoView>, at: Cursor)
    ensures
        object_parse(toks, at) matches Ok((object, _)) ==> object_well_named(object),
    decreases toks.len() - at.next, 7int,
{
    reveal(begin_read);
    lemma_blank_well_named();
    match begin_read::<ObjectType>(ObjectType::fresh(), toks, at) {
        Ok((begun, at_begin)) => {
            assert(begun.fields.len() == 0);
            assert(object_well_named(begun));
            let (opened, inside) = accept_special(toks, at_begin, SpecialToken::LBrace);
            if opened {
                lemma_declared_fields_well_named(begun, toks, inside);
                match declared_fields(begun, toks, inside) {
                    Ok((declared, behind_fields)) => {
                        lemma_object_assigned_well_named(declared, toks, behind_fields);
                    },
                    Err(_) => {},
                }
            }
        },
        Err(_) => {},
    }
}

/// The fields that are declared for an object leave it well named.
pub proof fn lemma_declared_fields_well_named(
    object: ObjectTypeView,
    toks: Seq<TokenInfoView>,
    at: Cursor,
)
    requires
        object_well_named(object),
    ensures
        declared_fields(object, toks, at) matches Ok((declared, _)) ==> object_well_named(
            declared,
        ),
    decreases toks.len() - at.next, 6int,
{
    let (closed, behind_brace) = accept_special(toks, at, SpecialToken::RBrace);
    if !closed {
        lemma_field_parse_well_named(toks, at);
        match field_parse(toks, at) {
            Ok((field, behind_field)) => {
                if !(field_index(object.fields, field.name) < object.fields.len()) {
                    let behind = skip_separator(toks, behind_field);
                    if at.next < behind.next <= toks.len() {
                        lemma_put_well_named(object, field);
                        lemma_declared_fields_well_named(
                            ObjectTypeView { fields: put_field(object.fields, field), ..object },
                            toks,
                            behind,
                        );
                    }
                }
            },
            Err(_) => {},
        }
    }
}

} // verus!
