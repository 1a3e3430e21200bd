//! What the fields of every type have in common: a fresh value, and the
//! switch between a single value and an array.

use vstd::prelude::*;
use crate::helpers::{Literal, Numeric, PossibleArray, PossibleSeq};
use crate::objects::{AnyType, AnyTypeView, BooleanType, BooleanTypeView, NumberType, NumberTypeView,
    ObjectType, ObjectTypeView, StringType, StringTypeView};

verus! {

/// A field type of the language.
pub trait ObjectBase: View + Sized {
    /// The field as it is right after its declaration.
    spec fn fresh() -> Self::V;

    /// Whether the field is an array field.
    spec fn holds_array(value: Self::V) -> bool;

    /// Whether the field holds what a fresh field holds: an empty text, zero,
    /// `false`, or no item.
    spec fn holds_default(value: Self::V) -> bool;

    /// The field as an array field without items.
    spec fn emptied(value: Self::V) -> Self::V;

    /// A field as it is right after its declaration.
    fn create() -> (r: Self)
        ensures
            r@ == Self::fresh(),
    ;

    /// Whether the field is an array field.
    fn is_array(&self) -> (r: bool)
        ensures
            r == Self::holds_array(self@),
    ;

    /// Whether the field holds what a fresh field holds.
    fn is_default(&self) -> (r: bool)
        ensures
            r == Self::holds_default(self@),
    ;

    /// Makes the field an array field without items.
    fn make_array(&mut self)
        ensures
            final(self)@ == Self::emptied(old(self)@),
    ;
}

impl ObjectBase for StringType {
    open spec fn fresh() -> StringTypeView {
        StringTypeView { value: PossibleSeq::Value(Seq::<char>::empty()), enum_values: None }
    }

    open spec fn holds_array(value: StringTypeView) -> bool {
        value.value is Array
    }

    open spec fn holds_default(value: StringTypeView) -> bool {
        match value.value {
            PossibleSeq::Value(v) => v.len() == 0,
            PossibleSeq::Array(v) => v.len() == 0,
        }
    }

    open spec fn emptied(value: StringTypeView) -> StringTypeView {
        StringTypeView { value: PossibleSeq::Array(Seq::<Seq<char>>::empty()), ..value }
    }

    fn create() -> (r: Self) {
        StringType::new()
    }

    fn is_array(&self) -> (r: bool) {
        match self.value() {
            PossibleArray::Array(_) => true,
            _ => false,
        }
    }

    fn is_default(&self) -> (r: bool) {
        match self.value() {
            PossibleArray::Value(v) => v.as_str().is_empty(),
            PossibleArray::Array(v) => v.len() == 0,
        }
    }

    fn make_array(&mut self) {
        self.set_value(PossibleArray::Array(Vec::new()));
        proof {
            assert(crate::text::texts(Seq::<String>::empty()) =~= Seq::<Seq<char>>::empty());
        }
    }
}

impl ObjectBase for BooleanType {
    open spec fn fresh() -> BooleanTypeView {
        BooleanTypeView { value: PossibleSeq::Value(false) }
    }

    open spec fn holds_array(value: BooleanTypeView) -> bool {
        value.value is Array
    }

    open spec fn holds_default(value: BooleanTypeView) -> bool {
        match value.value {
            PossibleSeq::Value(v) => !v,
            PossibleSeq::Array(v) => v.len() == 0,
        }
    }

    open spec fn emptied(value: BooleanTypeView) -> BooleanTypeView {
        BooleanTypeView { value: PossibleSeq::Array(Seq::<bool>::empty()) }
    }

    fn create() -> (r: Self) {
        BooleanType::new()
    }

    fn is_array(&self) -> (r: bool) {
        self.value().is_array()
    }

    fn make_array(&mut self) {
        self.set_value(PossibleArray::Array(Vec::new()));
    }

    fn is_default(&self) -> (r: bool) {
        match self.value() {
            PossibleArray::Value(v) => !*v,
            PossibleArray::Array(v) => v.len() == 0,
        }
    }
}

impl ObjectBase for ObjectType {
    open spec fn fresh() -> ObjectTypeView {
        ObjectTypeView { value: PossibleSeq::Value(Box::new(None)), fields: Seq::empty() }
    }

    open spec fn holds_array(value: ObjectTypeView) -> bool {
        value.value is Array
    }

    /// An object field counts as default when it holds an object, or is an
    /// array without items.
    open spec fn holds_default(value: ObjectTypeView) -> bool {
        match value.value {
            PossibleSeq::Value(v) => *v is Some,
            PossibleSeq::Array(v) => v.len() == 0,
        }
    }

    open spec fn emptied(value: ObjectTypeView) -> ObjectTypeView {
        ObjectTypeView { value: PossibleSeq::Array(Seq::empty()), ..value }
    }

    fn create() -> (r: Self) {
        ObjectType::new()
    }

    fn is_array(&self) -> (r: bool) {
        self.value().is_array()
    }

    fn is_default(&self) -> (r: bool) {
        match self.value() {
            PossibleArray::Value(v) => !v.is_none(),
            PossibleArray::Array(v) => v.len() == 0,
        }
    }

    fn make_array(&mut self) {
        self.set_value(PossibleArray::Array(Vec::new()));
        proof {
            assert(self@.value->Array_0 =~= Seq::empty());
        }
    }
}

impl<T: Numeric> ObjectBase for NumberType<T> {
    open spec fn fresh() -> NumberTypeView<T> {
        NumberTypeView {
            value: PossibleSeq::Value(T::spec_zero()),
            bounds: (None, None),
            enum_values: None,
        }
    }

    open spec fn holds_array(value: NumberTypeView<T>) -> bool {
        value.value is Array
    }

    open spec fn holds_default(value: NumberTypeView<T>) -> bool {
        match value.value {
            PossibleSeq::Value(v) => v.spec_same(&T::spec_zero()),
            PossibleSeq::Array(v) => v.len() == 0,
        }
    }

    open spec fn emptied(value: NumberTypeView<T>) -> NumberTypeView<T> {
        NumberTypeView { value: PossibleSeq::Array(Seq::<T>::empty()), ..value }
    }

    fn create() -> (r: NumberType<T>) {
        NumberType::new()
    }

    fn is_array(&self) -> (r: bool) {
        self.value().is_array()
    }

    fn is_default(&self) -> (r: bool) {
        match self.value() {
            PossibleArray::Value(v) => v.same(&T::zero()),
            PossibleArray::Array(v) => v.len() == 0,
        }
    }

    fn make_array(&mut self) {
        self.set_value(PossibleArray::Array(Vec::new()));
    }
}

impl ObjectBase for AnyType {
    open spec fn fresh() -> AnyTypeView {
        AnyTypeView { value: PossibleSeq::Value(Box::new(None)) }
    }

    open spec fn holds_array(value: AnyTypeView) -> bool {
        value.value is Array
    }

    /// A field of any type counts as default when it holds something, or is
    /// a list without items.
    open spec fn holds_default(value: AnyTypeView) -> bool {
        match value.value {
            PossibleSeq::Value(v) => *v is Some,
            PossibleSeq::Array(v) => v.len() == 0,
        }
    }

    open spec fn emptied(value: AnyTypeView) -> AnyTypeView {
        AnyTypeView { value: PossibleSeq::Array(Seq::empty()) }
    }

    fn create() -> (r: Self) {
        AnyType::new()
    }

    fn is_array(&self) -> (r: bool) {
        self.value().is_array()
    }

    fn is_default(&self) -> (r: bool) {
        match self.value() {
            PossibleArray::Value(v) => !v.is_none(),
            PossibleArray::Array(v) => v.len() == 0,
        }
    }

    fn make_array(&mut self) {
        self.set_value(PossibleArray::Array(Vec::new()));
        proof {
            assert(self@.value->Array_0 =~= Seq::empty());
        }
    }
}

} // verus!
