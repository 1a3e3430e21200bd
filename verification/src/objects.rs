//! The value model: what a field of a schema can hold.

use vstd::prelude::*;
use vstd::string::*;
use crate::decimal::Decimal;
use crate::text::{same_text, texts};
use crate::helpers::{copy_items, interval_admits, listed, Enum, Interval, Literal, Numeric,
    PossibleArray, PossibleSeq};

verus! {

/// The text or the texts of a container of strings.
pub open spec fn text_slot(slot: PossibleSeq<String>) -> PossibleSeq<Seq<char>> {
    match slot {
        PossibleSeq::Value(val) => PossibleSeq::Value(val@),
        PossibleSeq::Array(items) => PossibleSeq::Array(texts(items)),
    }
}

/// A string is listed among strings when its text is among their texts.
pub proof fn lemma_listed_texts(items: Seq<String>, val: String)
    ensures
        listed(items, val) == texts(items).contains(val@),
{
    if listed(items, val) {
        let i = choose|i: int| 0 <= i < items.len() && (#[trigger] items[i]).spec_same(&val);
        assert(texts(items)[i] == val@);
    }
    if texts(items).contains(val@) {
        let i = choose|i: int| 0 <= i < texts(items).len() && texts(items)[i] == val@;
        assert(items[i].spec_same(&val));
    }
}

/// A string field as a plain value.
pub struct StringTypeView {
    /// The text, or the texts of an array field.
    pub value: PossibleSeq<Seq<char>>,
    /// The texts that the field may hold, if they are limited.
    pub enum_values: Option<Seq<Seq<char>>>,
}

/// A string field: its value and the values that it may take.
pub struct StringType {
    value: PossibleArray<String>,
    enum_values: Option<Enum<String>>,
}

impl View for StringType {
    type V = StringTypeView;

    closed spec fn view(&self) -> StringTypeView {
        StringTypeView {
            value: text_slot(self.value@),
            enum_values: match self.enum_values {
                Some(vals) => Some(texts(vals@)),
                None => None,
            },
        }
    }
}

impl Clone for StringType {
    fn clone(&self) -> (r: Self)
        ensures
            r@ == self@,
    {
        let value = self.value.clone();
        let enum_values = match &self.enum_values {
            Some(vals) => {
                let copy = vals.clone();
                proof {
                    assert(texts(copy@) =~= texts(vals@));
                }
                Some(copy)
            },
            None => None,
        };
        proof {
            match (self.value@, value@) {
                (PossibleSeq::Array(old), PossibleSeq::Array(new)) => {
                    assert(texts(old) =~= texts(new));
                },
                _ => {},
            }
        }
        StringType { value, enum_values }
    }
}

impl StringType {
    /// A string field with the empty text and no enumeration.
    pub fn new() -> (r: StringType)
        ensures
            r@ == (StringTypeView {
                value: PossibleSeq::Value(Seq::<char>::empty()),
                enum_values: None,
            }),
    {
        StringType { value: PossibleArray::Value(String::new()), enum_values: None }
    }

    /// An array field of strings, empty and without enumeration.
    pub fn new_array() -> (r: StringType)
        ensures
            r@ == (StringTypeView {
                value: PossibleSeq::Array(Seq::<Seq<char>>::empty()),
                enum_values: None,
            }),
    {
        let r = StringType { value: PossibleArray::Array(Vec::new()), enum_values: None };
        proof {
            assert(texts(Seq::<String>::empty()) =~= Seq::<Seq<char>>::empty());
        }
        r
    }

    /// A string field with the text `val`.
    pub fn from(val: &str) -> (r: StringType)
        ensures
            r@ == (StringTypeView { value: PossibleSeq::Value(val@), enum_values: None }),
    {
        StringType { value: PossibleArray::Value(String::from_str(val)), enum_values: None }
    }

    /// Whether the field may hold `val`: it may hold anything unless it has
    /// an enumeration, and then only what is listed.
    pub fn check_enum(&self, val: &String) -> (r: bool)
        ensures
            r == (match self@.enum_values {
                Some(vals) => vals.contains(val@),
                None => true,
            }),
    {
        match &self.enum_values {
            Some(vals) => {
                proof {
                    lemma_listed_texts(vals@, *val);
                }
                vals.check(val)
            },
            None => true,
        }
    }

    pub fn value(&self) -> (r: &PossibleArray<String>)
        ensures
            text_slot(r@) == self@.value,
    {
        &self.value
    }

    pub fn set_value(&mut self, val: PossibleArray<String>)
        ensures
            final(self)@ == (StringTypeView { value: text_slot(val@), ..old(self)@ }),
    {
        self.value = val;
    }

    /// Sets the text, or appends it to the texts of an array field.
    pub fn add_value(&mut self, value: &str)
        ensures
            final(self)@ == (StringTypeView { value: old(self)@.value.with(value@), ..old(self)@ }),
    {
        let ghost before = self.value@;
        let text = String::from_str(value);
        self.value.add_value(text);
        proof {
            match before {
                PossibleSeq::Array(items) => {
                    assert(texts(items.push(text)) =~= texts(items).push(value@));
                },
                _ => {},
            }
        }
    }

    pub fn enum_values(&self) -> (r: &Option<Enum<String>>)
        ensures
            match *r {
                Some(vals) => self@.enum_values == Some(texts(vals@)),
                None => self@.enum_values is None,
            },
    {
        &self.enum_values
    }

    /// Lists `val` among the texts that the field may hold and says whether
    /// it was new. The first text that is listed becomes the value of the
    /// field as well.
    pub fn add_enum_value(&mut self, val: &str) -> (r: bool)
        ensures
            match old(self)@.enum_values {
                Some(vals) => r == !vals.contains(val@) && final(self)@ == (StringTypeView {
                    enum_values: Some(
                        if r {
                            vals.push(val@)
                        } else {
                            vals
                        },
                    ),
                    ..old(self)@
                }),
                None => r && final(self)@ == (StringTypeView {
                    value: old(self)@.value.with(val@),
                    enum_values: Some(seq![val@]),
                }),
            },
    {
        match &mut self.enum_values {
            Some(values) => {
                let text = String::from_str(val);
                let ghost before = values@;
                proof {
                    lemma_listed_texts(before, text);
                }
                let added = values.try_add(text);
                proof {
                    if added {
                        assert(texts(before.push(text)) =~= texts(before).push(val@));
                    }
                }
                added
            },
            None => {
                self.add_value(val);
                let listed = Enum::create_with(String::from_str(val));
                proof {
                    assert(texts(listed@) =~= seq![val@]);
                }
                self.enum_values = Some(listed);
                true
            },
        }
    }
}

/// A number field as a plain value.
pub struct NumberTypeView<T> {
    /// The number, or the numbers of an array field.
    pub value: PossibleSeq<T>,
    /// The lower and the upper bound.
    pub bounds: (Option<T>, Option<T>),
    /// The numbers that the field may hold, if they are limited.
    pub enum_values: Option<Seq<T>>,
}

/// A number field: its value, its bounds and the values that it may take.
pub struct NumberType<T: Numeric> {
    value: PossibleArray<T>,
    min_max: Interval<T>,
    enum_values: Option<Enum<T>>,
}

impl<T: Numeric> View for NumberType<T> {
    type V = NumberTypeView<T>;

    closed spec fn view(&self) -> NumberTypeView<T> {
        NumberTypeView {
            value: self.value@,
            bounds: self.min_max@,
            enum_values: match self.enum_values {
                Some(vals) => Some(vals@),
                None => None,
            },
        }
    }
}

impl<T: Numeric> Clone for NumberType<T> {
    fn clone(&self) -> (r: Self)
        ensures
            r@ == self@,
    {
        let value = match &self.value {
            PossibleArray::Value(val) => PossibleArray::Value(*val),
            PossibleArray::Array(items) => PossibleArray::Array(copy_items(items)),
        };
        let enum_values = match &self.enum_values {
            Some(vals) => Some(vals.duplicate()),
            None => None,
        };
        NumberType { value, min_max: self.min_max.clone(), enum_values }
    }
}

impl<T: Numeric> NumberType<T> {
    /// A number field with the value zero, no bounds and no enumeration.
    pub fn new() -> (r: NumberType<T>)
        ensures
            r@ == (NumberTypeView {
                value: PossibleSeq::Value(T::spec_zero()),
                bounds: (None, None),
                enum_values: None,
            }),
    {
        NumberType {
            value: PossibleArray::Value(T::zero()),
            min_max: Interval::none(),
            enum_values: None,
        }
    }

    /// An array field of numbers, empty, without bounds and enumeration.
    pub fn new_array() -> (r: NumberType<T>)
        ensures
            r@ == (NumberTypeView {
                value: PossibleSeq::Array(Seq::<T>::empty()),
                bounds: (None, None),
                enum_values: None,
            }),
    {
        NumberType {
            value: PossibleArray::Array(Vec::new()),
            min_max: Interval::none(),
            enum_values: None,
        }
    }

    /// A number field with the value `val`.
    pub fn from(val: T) -> (r: Self)
        ensures
            r@ == (NumberTypeView {
                value: PossibleSeq::Value(val),
                bounds: (None, None),
                enum_values: None,
            }),
    {
        NumberType {
            value: PossibleArray::Value(val),
            min_max: Interval::none(),
            enum_values: None,
        }
    }

    /// Sets the number, or appends it to the numbers of an array field.
    pub fn add_value(&mut self, value: T)
        ensures
            final(self)@ == (NumberTypeView { value: old(self)@.value.with(value), ..old(self)@ }),
    {
        self.value.add_value(value);
    }

    /// Whether the field may hold `val`: it may hold anything unless it has
    /// an enumeration, and then only what is listed.
    pub fn check_enum(&self, val: T) -> (r: bool)
        ensures
            r == (match self@.enum_values {
                Some(vals) => listed(vals, val),
                None => true,
            }),
    {
        match &self.enum_values {
            Some(vals) => vals.check(&val),
            None => true,
        }
    }

    pub fn value(&self) -> (r: &PossibleArray<T>)
        ensures
            r@ == self@.value,
    {
        &self.value
    }

    pub fn set_value(&mut self, val: PossibleArray<T>)
        ensures
            final(self)@ == (NumberTypeView { value: val@, ..old(self)@ }),
    {
        self.value = val;
    }

    pub fn interval(&self) -> (r: &Interval<T>)
        ensures
            r@ == self@.bounds,
    {
        &self.min_max
    }

    /// Whether `val` lies within the bounds of the field.
    pub fn check_minmax(&self, val: T) -> (r: bool)
        ensures
            r == interval_admits(self@.bounds, val),
    {
        self.min_max.check(val)
    }

    /// Sets the lower bound.
    pub fn set_min(&mut self, val: T)
        ensures
            final(self)@ == (NumberTypeView {
                bounds: (Some(val), old(self)@.bounds.1),
                ..old(self)@
            }),
    {
        self.min_max.set_min(val);
    }

    /// Sets the upper bound.
    pub fn set_max(&mut self, val: T)
        ensures
            final(self)@ == (NumberTypeView {
                bounds: (old(self)@.bounds.0, Some(val)),
                ..old(self)@
            }),
    {
        self.min_max.set_max(val);
    }

    pub fn enum_values(&self) -> (r: &Option<Enum<T>>)
        ensures
            match *r {
                Some(vals) => self@.enum_values == Some(vals@),
                None => self@.enum_values is None,
            },
    {
        &self.enum_values
    }

    /// Lists `val` among the numbers that the field may hold and says
    /// whether it was new. The first number that is listed becomes the value
    /// of the field as well.
    pub fn add_enum_value(&mut self, val: T) -> (r: bool)
        ensures
            match old(self)@.enum_values {
                Some(vals) => r == !listed(vals, val) && final(self)@ == (NumberTypeView {
                    enum_values: Some(
                        if r {
                            vals.push(val)
                        } else {
                            vals
                        },
                    ),
                    ..old(self)@
                }),
                None => r && final(self)@ == (NumberTypeView {
                    value: old(self)@.value.with(val),
                    enum_values: Some(seq![val]),
                    ..old(self)@
                }),
            },
    {
        match &mut self.enum_values {
            Some(values) => values.try_add(val),
            None => {
                self.add_value(val);
                self.enum_values = Some(Enum::create_with(val));
                true
            },
        }
    }
}

/// A field of whole numbers.
pub type IntegerType = NumberType<i64>;

/// A field of decimal numbers.
pub type FloatingType = NumberType<Decimal>;

/// A boolean field as a plain value.
pub struct BooleanTypeView {
    /// The value, or the values of an array field.
    pub value: PossibleSeq<bool>,
}

/// A boolean field.
pub struct BooleanType {
    value: PossibleArray<bool>,
}

impl View for BooleanType {
    type V = BooleanTypeView;

    closed spec fn view(&self) -> BooleanTypeView {
        BooleanTypeView { value: self.value@ }
    }
}

impl Clone for BooleanType {
    fn clone(&self) -> (r: Self)
        ensures
            r@ == self@,
    {
        let value = match &self.value {
            PossibleArray::Value(val) => PossibleArray::Value(*val),
            PossibleArray::Array(items) => PossibleArray::Array(copy_items(items)),
        };
        BooleanType { value }
    }
}

impl BooleanType {
    /// A boolean field that holds `false`.
    pub fn new() -> (r: BooleanType)
        ensures
            r@ == (BooleanTypeView { value: PossibleSeq::Value(false) }),
    {
        BooleanType { value: PossibleArray::Value(false) }
    }

    /// A boolean field that holds `val`.
    pub fn from(val: bool) -> (r: BooleanType)
        ensures
            r@ == (BooleanTypeView { value: PossibleSeq::Value(val) }),
    {
        BooleanType { value: PossibleArray::Value(val) }
    }

    /// Sets the value, or appends it to the values of an array field.
    pub fn add_value(&mut self, value: bool)
        ensures
            final(self)@ == (BooleanTypeView { value: old(self)@.value.with(value) }),
    {
        self.value.add_value(value);
    }

    pub fn value(&self) -> (r: &PossibleArray<bool>)
        ensures
            r@ == self@.value,
    {
        &self.value
    }

    /// The value; of an array field the first value, and `false` if it has
    /// none.
    pub fn get_value(&self) -> (r: bool)
        ensures
            r == (match self@.value {
                PossibleSeq::Value(val) => val,
                PossibleSeq::Array(arr) => arr.len() > 0 && arr[0],
            }),
    {
        match &self.value {
            PossibleArray::Value(val) => *val,
            PossibleArray::Array(arr) => if arr.len() > 0 {
                arr[0]
            } else {
                false
            },
        }
    }

    pub fn set_value(&mut self, val: PossibleArray<bool>)
        ensures
            final(self)@ == (BooleanTypeView { value: val@ }),
    {
        self.value = val;
    }
}

/// An object field as a plain value.
pub struct ObjectTypeView {
    /// The object that the field holds, if it holds one, or the objects of
    /// an array field.
    pub value: PossibleSeq<Box<Option<ObjectTypeView>>>,
    /// The declared fields, in the order of their declaration.
    pub fields: Seq<FieldTypeView>,
}

/// A field of any type as a plain value.
pub struct AnyTypeView {
    /// What the field holds, if it holds anything, or the items of a list.
    pub value: PossibleSeq<Box<Option<ElementView>>>,
}

/// What a field holds, as a plain value.
pub enum ElementView {
    Nil,
    String(StringTypeView),
    Integer(NumberTypeView<i64>),
    Floating(NumberTypeView<Decimal>),
    Boolean(BooleanTypeView),
    Object(ObjectTypeView),
    Any(AnyTypeView),
}

/// An option of a field as a plain value.
pub struct OptionView {
    pub name: Seq<char>,
    pub value: ElementView,
}

/// A declared field as a plain value.
pub struct FieldTypeView {
    pub value: ElementView,
    pub name: Seq<char>,
    /// The options, in the order in which they were first given.
    pub opts: Seq<OptionView>,
}

/// An object field: the fields that it declares, and the object or objects
/// that it holds.
pub struct ObjectType {
    value: PossibleArray<Box<Option<ObjectType>>>,
    fields: Vec<FieldType>,
}

/// A field of any type.
pub struct AnyType {
    value: PossibleArray<Box<Option<Element>>>,
}

/// What a field holds: a value of one of the types of the language.
pub enum Element {
    Nil,
    String(StringType),
    Integer(IntegerType),
    Floating(FloatingType),
    Boolean(BooleanType),
    Object(ObjectType),
    Any(AnyType),
}

/// An option of a field: a name and a value.
pub struct OptionItem {
    name: String,
    value: Element,
}

/// The options of a field, each name once.
pub struct Options {
    values: Vec<OptionItem>,
}

/// A declared field: a name, what it holds, and options.
pub struct FieldType {
    value: Element,
    name: String,
    opts: Options,
}

/// The plain values of a sequence of fields.
pub open spec fn field_views(fields: Seq<FieldType>) -> Seq<FieldTypeView> {
    Seq::new(fields.len(), |i: int| fields[i]@)
}

/// The plain values of a sequence of options.
pub open spec fn option_views(items: Seq<OptionItem>) -> Seq<OptionView> {
    Seq::new(items.len(), |i: int| items[i]@)
}

/// The plain value of an object that may be absent.
pub open spec fn object_view(inner: Box<Option<ObjectType>>) -> Box<Option<ObjectTypeView>> {
    Box::new(
        match *inner {
            Some(object) => Some(object@),
            None => None,
        },
    )
}

/// The plain value of a container of objects.
pub open spec fn object_slot(slot: PossibleSeq<Box<Option<ObjectType>>>) -> PossibleSeq<
    Box<Option<ObjectTypeView>>,
> {
    match slot {
        PossibleSeq::Value(inner) => PossibleSeq::Value(object_view(inner)),
        PossibleSeq::Array(items) => PossibleSeq::Array(
            Seq::new(items.len(), |i: int| object_view(items[i])),
        ),
    }
}

/// The plain value of an element that may be absent.
pub open spec fn element_view(inner: Box<Option<Element>>) -> Box<Option<ElementView>> {
    Box::new(
        match *inner {
            Some(element) => Some(element@),
            None => None,
        },
    )
}

/// The plain value of a container of elements.
pub open spec fn element_slot(slot: PossibleSeq<Box<Option<Element>>>) -> PossibleSeq<
    Box<Option<ElementView>>,
> {
    match slot {
        PossibleSeq::Value(inner) => PossibleSeq::Value(element_view(inner)),
        PossibleSeq::Array(items) => PossibleSeq::Array(
            Seq::new(items.len(), |i: int| element_view(items[i])),
        ),
    }
}

impl ObjectType {
    /// The plain value of the field.
    pub closed spec fn model(&self) -> ObjectTypeView
        decreases self,
    {
        ObjectTypeView {
            value: match self.value {
                PossibleArray::Value(inner) => PossibleSeq::Value(
                    Box::new(
                        match *inner {
                            Some(object) => Some(object.model()),
                            None => None,
                        },
                    ),
                ),
                PossibleArray::Array(items) => PossibleSeq::Array(
                    Seq::new(
                        items@.len(),
                        |i: int|
                            Box::new(
                                if 0 <= i < items@.len() {
                                    match *items[i] {
                                        Some(object) => Some(object.model()),
                                        None => None,
                                    }
                                } else {
                                    None
                                },
                            ),
                    ),
                ),
            },
            fields: Seq::new(
                self.fields@.len(),
                |i: int|
                    if 0 <= i < self.fields@.len() {
                        self.fields[i].model()
                    } else {
                        arbitrary()
                    },
            ),
        }
    }
}

impl AnyType {
    /// The plain value of the field.
    pub closed spec fn model(&self) -> AnyTypeView
        decreases self,
    {
        AnyTypeView {
            value: match self.value {
                PossibleArray::Value(inner) => PossibleSeq::Value(
                    Box::new(
                        match *inner {
                            Some(element) => Some(element.model()),
                            None => None,
                        },
                    ),
                ),
                PossibleArray::Array(items) => PossibleSeq::Array(
                    Seq::new(
                        items@.len(),
                        |i: int|
                            Box::new(
                                if 0 <= i < items@.len() {
                                    match *items[i] {
                                        Some(element) => Some(element.model()),
                                        None => None,
                                    }
                                } else {
                                    None
                                },
                            ),
                    ),
                ),
            },
        }
    }
}

impl Element {
    /// The plain value of the element.
    pub open spec fn model(&self) -> ElementView
        decreases self,
    {
        match self {
            Element::Nil => ElementView::Nil,
            Element::String(val) => ElementView::String(val@),
            Element::Integer(val) => ElementView::Integer(val@),
            Element::Floating(val) => ElementView::Floating(val@),
            Element::Boolean(val) => ElementView::Boolean(val@),
            Element::Object(val) => ElementView::Object(val.model()),
            Element::Any(val) => ElementView::Any(val.model()),
        }
    }
}

impl OptionItem {
    /// The plain value of the option.
    pub closed spec fn model(&self) -> OptionView
        decreases self,
    {
        OptionView { name: self.name@, value: self.value.model() }
    }
}

impl Options {
    /// The plain values of the options.
    pub closed spec fn model(&self) -> Seq<OptionView>
        decreases self,
    {
        Seq::new(
            self.values@.len(),
            |i: int|
                if 0 <= i < self.values@.len() {
                    self.values[i].model()
                } else {
                    arbitrary()
                },
        )
    }
}

impl FieldType {
    /// The plain value of the field.
    pub closed spec fn model(&self) -> FieldTypeView
        decreases self,
    {
        FieldTypeView { value: self.value.model(), name: self.name@, opts: self.opts.model() }
    }
}

impl View for ObjectType {
    type V = ObjectTypeView;

    open spec fn view(&self) -> ObjectTypeView {
        self.model()
    }
}

impl View for AnyType {
    type V = AnyTypeView;

    open spec fn view(&self) -> AnyTypeView {
        self.model()
    }
}

impl View for Element {
    type V = ElementView;

    open spec fn view(&self) -> ElementView {
        self.model()
    }
}

impl View for OptionItem {
    type V = OptionView;

    open spec fn view(&self) -> OptionView {
        self.model()
    }
}

impl View for Options {
    type V = Seq<OptionView>;

    open spec fn view(&self) -> Seq<OptionView> {
        self.model()
    }
}

impl View for FieldType {
    type V = FieldTypeView;

    open spec fn view(&self) -> FieldTypeView {
        self.model()
    }
}

/// The place of the first of `fields` that has the name `name`, or the
/// number of fields if none has it.
pub open spec fn field_index(fields: Seq<FieldTypeView>, name: Seq<char>) -> int
    decreases fields.len(),
{
    if fields.len() == 0 {
        0
    } else if fields[0].name == name {
        0
    } else {
        1 + field_index(fields.drop_first(), name)
    }
}

/// The first field with a name stands where the fields before it have other
/// names.
pub proof fn lemma_field_index(fields: Seq<FieldTypeView>, name: Seq<char>, i: int)
    requires
        0 <= i <= fields.len(),
        forall|k: int| 0 <= k < i ==> (#[trigger] fields[k]).name != name,
        i < fields.len() ==> fields[i].name == name,
    ensures
        field_index(fields, name) == i,
    decreases fields.len(),
{
    if fields.len() > 0 && i > 0 {
        let rest = fields.drop_first();
        assert(fields[0].name != name);
        assert forall|k: int| 0 <= k < i - 1 implies (#[trigger] rest[k]).name != name by {
            assert(rest[k] == fields[k + 1]);
        }
        lemma_field_index(rest, name, i - 1);
    }
}

/// The fields with `field` put in: in the place of the first field of that
/// name, or behind the others if there is none.
pub open spec fn put_field(fields: Seq<FieldTypeView>, field: FieldTypeView) -> Seq<FieldTypeView> {
    let i = field_index(fields, field.name);
    if i < fields.len() {
        fields.update(i, field)
    } else {
        fields.push(field)
    }
}

/// Whether no two of `fields` have the same name.
pub open spec fn names_unique(fields: Seq<FieldTypeView>) -> bool {
    forall|i: int, j: int|
        0 <= i < j < fields.len() ==> (#[trigger] fields[i]).name != (#[trigger] fields[j]).name
}

/// The place of the first field with a name is within the fields, no field
/// before it has the name, and the field at it has the name.
pub proof fn lemma_field_index_finds(fields: Seq<FieldTypeView>, name: Seq<char>)
    ensures
        0 <= field_index(fields, name) <= fields.len(),
        forall|k: int| 0 <= k < field_index(fields, name) ==> (#[trigger] fields[k]).name != name,
        field_index(fields, name) < fields.len() ==> fields[field_index(fields, name)].name
            == name,
    decreases fields.len(),
{
    if fields.len() > 0 && fields[0].name != name {
        let rest = fields.drop_first();
        lemma_field_index_finds(rest, name);
        assert forall|k: int| 0 <= k < field_index(fields, name) implies (
        #[trigger] fields[k]).name != name by {
            if k > 0 {
                assert(fields[k] == rest[k - 1]);
            }
        }
    }
}

/// Names stay unique: putting a field into fields with unique names gives
/// fields with unique names, and the field is found under its name.
pub proof fn lemma_put_field_keeps_names_unique(fields: Seq<FieldTypeView>, field: FieldTypeView)
    requires
        names_unique(fields),
    ensures
        names_unique(put_field(fields, field)),
        field_index(put_field(fields, field), field.name) < put_field(fields, field).len(),
        put_field(fields, field)[field_index(put_field(fields, field), field.name)] == field,
{
    lemma_field_index_finds(fields, field.name);
    let place = field_index(fields, field.name);
    let after = put_field(fields, field);
    assert forall|i: int, j: int| 0 <= i < j < after.len() implies (#[trigger] after[i]).name != (
    #[trigger] after[j]).name by {
        if place < fields.len() {
            if i == place {
                assert(fields[place].name != fields[j].name);
            } else if j == place {
                assert(fields[i].name != fields[place].name);
            } else {
                assert(fields[i].name != fields[j].name);
            }
        } else {
            if j < fields.len() {
                assert(fields[i].name != fields[j].name);
            } else {
                assert(fields[i].name != field.name);
            }
        }
    }
    assert forall|k: int| 0 <= k < place implies (#[trigger] after[k]).name != field.name by {
        assert(after[k] == fields[k]);
    }
    lemma_field_index(after, field.name, place);
}

/// The place of the first of `items` that has the name `name`, or the number
/// of items if none has it.
pub open spec fn option_index(items: Seq<OptionView>, name: Seq<char>) -> int
    decreases items.len(),
{
    if items.len() == 0 {
        0
    } else if items[0].name == name {
        0
    } else {
        1 + option_index(items.drop_first(), name)
    }
}

/// The first option with a name stands where the options before it have
/// other names.
pub proof fn lemma_option_index(items: Seq<OptionView>, name: Seq<char>, i: int)
    requires
        0 <= i <= items.len(),
        forall|k: int| 0 <= k < i ==> (#[trigger] items[k]).name != name,
        i < items.len() ==> items[i].name == name,
    ensures
        option_index(items, name) == i,
    decreases items.len(),
{
    if items.len() > 0 && i > 0 {
        let rest = items.drop_first();
        assert(items[0].name != name);
        assert forall|k: int| 0 <= k < i - 1 implies (#[trigger] rest[k]).name != name by {
            assert(rest[k] == items[k + 1]);
        }
        lemma_option_index(rest, name, i - 1);
    }
}

/// The options with `item` put in: in the place of the option of that name,
/// or behind the others if there is none.
pub open spec fn put_option(items: Seq<OptionView>, item: OptionView) -> Seq<OptionView> {
    let i = option_index(items, item.name);
    if i < items.len() {
        items.update(i, item)
    } else {
        items.push(item)
    }
}

/// Whether the option `key` is switched on among `opts`: it is given, it is
/// boolean, and its value, or the first of its values, is `true`.
pub open spec fn option_switched(opts: Seq<OptionView>, key: Seq<char>) -> bool {
    option_index(opts, key) < opts.len() && match opts[option_index(opts, key)].value {
        ElementView::Boolean(BooleanTypeView { value: PossibleSeq::Value(v) }) => v,
        ElementView::Boolean(BooleanTypeView { value: PossibleSeq::Array(arr) }) => arr.len() > 0
            && arr[0],
        _ => false,
    }
}

impl ObjectType {
    /// An object field that declares no field and holds no object.
    pub fn new() -> (r: ObjectType)
        ensures
            r@ == (ObjectTypeView {
                value: PossibleSeq::Value(Box::new(None)),
                fields: Seq::<FieldTypeView>::empty(),
            }),
    {
        let r = ObjectType { value: PossibleArray::Value(Box::new(None)), fields: Vec::new() };
        proof {
            assert(r@.fields =~= Seq::<FieldTypeView>::empty());
        }
        r
    }

    /// Where the first declared field of the name `key` stands, or the
    /// number of fields.
    fn find_field(&self, key: &str) -> (r: usize)
        ensures
            r == field_index(self@.fields, key@),
            r <= self.fields@.len(),
            self@.fields == field_views(self.fields@),
    {
        let mut i: usize = 0;
        proof {
            assert(self@.fields =~= field_views(self.fields@));
        }
        while i < self.fields.len()
            invariant
                i <= self.fields.len(),
                self@.fields == field_views(self.fields@),
                forall|k: int| 0 <= k < i ==> (#[trigger] self@.fields[k]).name != key@,
            decreases self.fields.len() - i,
        {
            if same_text(self.fields[i].name.as_str(), key) {
                proof {
                    assert(self@.fields[i as int].name == key@);
                    lemma_field_index(self@.fields, key@, i as int);
                }
                return i;
            }
            proof {
                assert(self@.fields[i as int].name != key@);
            }
            i += 1;
        }
        proof {
            lemma_field_index(self@.fields, key@, i as int);
        }
        i
    }

    /// Whether a field of the name `val` is declared.
    pub fn has_field(&self, val: &str) -> (r: bool)
        ensures
            r == (field_index(self@.fields, val@) < self@.fields.len()),
            0 <= field_index(self@.fields, val@) <= self@.fields.len(),
    {
        self.find_field(val) < self.fields.len()
    }

    /// Declares the field `val`: in the place of the declared field of the
    /// same name, or behind the others if there is none.
    pub fn add_field(&mut self, val: FieldType)
        ensures
            final(self)@ == (ObjectTypeView {
                fields: put_field(old(self)@.fields, val@),
                ..old(self)@
            }),
    {
        let i = self.find_field(val.name.as_str());
        let ghost before = *self;
        if i < self.fields.len() {
            self.fields[i] = val;
        } else {
            self.fields.push(val);
        }
        proof {
            assert(self@.fields =~= put_field(before@.fields, val@));
            assert(self@.value == before@.value);
        }
    }

    /// Puts the object `value` into the field: in place of the one it holds,
    /// or behind the objects of an array field.
    pub fn add_value(&mut self, value: ObjectType)
        ensures
            final(self)@ == (ObjectTypeView {
                value: old(self)@.value.with(Box::new(Some(value@))),
                ..old(self)@
            }),
    {
        let ghost before = *self;
        self.value.add_value(Box::new(Some(value)));
        proof {
            assert(self@.fields =~= before@.fields);
            match before@.value {
                PossibleSeq::Array(items) => {
                    assert(self@.value->Array_0 =~= items.push(Box::new(Some(value@))));
                },
                _ => {},
            }
        }
    }

    /// The declared fields, in the order of their declaration.
    pub fn fields(&self) -> (r: &Vec<FieldType>)
        ensures
            field_views(r@) == self@.fields,
    {
        proof {
            assert(self@.fields =~= field_views(self.fields@));
        }
        &self.fields
    }

    pub fn value(&self) -> (r: &PossibleArray<Box<Option<ObjectType>>>)
        ensures
            object_slot(r@) == self@.value,
    {
        proof {
            match self.value@ {
                PossibleSeq::Array(items) => {
                    assert(object_slot(self.value@)->Array_0 =~= self@.value->Array_0);
                },
                _ => {},
            }
        }
        &self.value
    }

    pub fn set_value(&mut self, val: PossibleArray<Box<Option<ObjectType>>>)
        ensures
            final(self)@ == (ObjectTypeView { value: object_slot(val@), ..old(self)@ }),
    {
        let ghost before = *self;
        self.value = val;
        proof {
            assert(self@.fields =~= before@.fields);
            match val@ {
                PossibleSeq::Array(items) => {
                    assert(object_slot(val@)->Array_0 =~= self@.value->Array_0);
                },
                _ => {},
            }
        }
    }

    /// The declared field of the name `key`, if there is one.
    pub fn get_field(&self, key: &str) -> (r: Option<&FieldType>)
        ensures
            0 <= field_index(self@.fields, key@) <= self@.fields.len(),
            match r {
                Some(field) => field_index(self@.fields, key@) < self@.fields.len() && field@
                    == self@.fields[field_index(self@.fields, key@)],
                None => field_index(self@.fields, key@) == self@.fields.len(),
            },
    {
        let i = self.find_field(key);
        if i < self.fields.len() {
            Some(&self.fields[i])
        } else {
            None
        }
    }

    /// Replaces the declared fields.
    pub fn set_fields(&mut self, new_values: Vec<FieldType>)
        ensures
            final(self)@ == (ObjectTypeView { fields: field_views(new_values@), ..old(self)@ }),
    {
        let ghost before = *self;
        self.fields = new_values;
        proof {
            assert(self@.fields =~= field_views(new_values@));
            assert(self@.value == before@.value);
        }
    }
}

/// A copy of the fields `fields`.
fn copy_fields(fields: &Vec<FieldType>) -> (r: Vec<FieldType>)
    ensures
        field_views(r@) == field_views(fields@),
    decreases fields,
{
    let mut r: Vec<FieldType> = Vec::new();
    let mut i: usize = 0;
    while i < fields.len()
        invariant
            i <= fields.len(),
            r@.len() == i,
            forall|k: int| 0 <= k < i ==> (#[trigger] r@[k])@ == fields@[k]@,
        decreases fields.len() - i,
    {
        r.push(fields[i].duplicate());
        i += 1;
    }
    proof {
        assert(field_views(r@) =~= field_views(fields@));
    }
    r
}

/// A copy of the objects `items`.
fn copy_objects(items: &Vec<Box<Option<ObjectType>>>) -> (r: Vec<Box<Option<ObjectType>>>)
    ensures
        r@.len() == items@.len(),
        forall|k: int|
            0 <= k < items@.len() ==> object_view(#[trigger] r@[k]) == object_view(items@[k]),
    decreases items,
{
    let mut copies: Vec<Box<Option<ObjectType>>> = Vec::new();
    let mut i: usize = 0;
    while i < items.len()
        invariant
            i <= items.len(),
            copies@.len() == i,
            forall|k: int|
                0 <= k < i ==> object_view(#[trigger] copies@[k]) == object_view(items@[k]),
        decreases items.len() - i,
    {
        let inner: &Option<ObjectType> = &items[i];
        let copy = match inner {
            Some(object) => Some(object.duplicate()),
            None => None,
        };
        copies.push(Box::new(copy));
        i += 1;
    }
    copies
}

/// A copy of the elements `items`.
fn copy_elements(items: &Vec<Box<Option<Element>>>) -> (r: Vec<Box<Option<Element>>>)
    ensures
        r@.len() == items@.len(),
        forall|k: int|
            0 <= k < items@.len() ==> element_view(#[trigger] r@[k]) == element_view(items@[k]),
    decreases items,
{
    let mut copies: Vec<Box<Option<Element>>> = Vec::new();
    let mut i: usize = 0;
    while i < items.len()
        invariant
            i <= items.len(),
            copies@.len() == i,
            forall|k: int|
                0 <= k < i ==> element_view(#[trigger] copies@[k]) == element_view(items@[k]),
        decreases items.len() - i,
    {
        let inner: &Option<Element> = &items[i];
        let copy = match inner {
            Some(element) => Some(element.duplicate()),
            None => None,
        };
        copies.push(Box::new(copy));
        i += 1;
    }
    copies
}

impl ObjectType {
    /// A copy of the declared fields.
    pub fn clone_fields(&self) -> (r: Vec<FieldType>)
        ensures
            field_views(r@) == self@.fields,
    {
        proof {
            assert(self@.fields =~= field_views(self.fields@));
        }
        copy_fields(&self.fields)
    }

    /// A copy of the field with all that it holds.
    pub fn duplicate(&self) -> (r: ObjectType)
        ensures
            r@ == self@,
        decreases self,
    {
        let value = match &self.value {
            PossibleArray::Value(inner) => PossibleArray::Value(
                Box::new(
                    match &**inner {
                        Some(object) => Some(object.duplicate()),
                        None => None,
                    },
                ),
            ),
            PossibleArray::Array(items) => PossibleArray::Array(copy_objects(items)),
        };
        let fields = copy_fields(&self.fields);
        let r = ObjectType { value, fields };
        proof {
            assert(self@.fields =~= field_views(self.fields@));
            assert(r@.fields =~= field_views(r.fields@));
            match (self.value@, r.value@) {
                (PossibleSeq::Array(old), PossibleSeq::Array(new)) => {
                    assert forall|k: int| 0 <= k < old.len() implies r@.value->Array_0[k]
                        == self@.value->Array_0[k] by {
                        assert(object_view(new[k]) == object_view(old[k]));
                    }
                    assert(r@.value->Array_0 =~= self@.value->Array_0);
                },
                _ => {},
            }
        }
        r
    }
}

impl Clone for ObjectType {
    fn clone(&self) -> (r: Self)
        ensures
            r@ == self@,
    {
        self.duplicate()
    }
}

impl AnyType {
    /// A field of any type that holds nothing.
    pub fn new() -> (r: AnyType)
        ensures
            r@ == (AnyTypeView { value: PossibleSeq::Value(Box::new(None)) }),
    {
        AnyType { value: PossibleArray::Value(Box::new(None)) }
    }

    /// An empty list of elements of any type.
    pub fn new_array() -> (r: AnyType)
        ensures
            r@ == (AnyTypeView { value: PossibleSeq::Array(Seq::empty()) }),
    {
        let r = AnyType { value: PossibleArray::new_array() };
        proof {
            assert(r@.value->Array_0 =~= Seq::empty());
        }
        r
    }

    /// Puts `value` into the field: in place of what it holds, or behind the
    /// items of a list.
    pub fn add_value(&mut self, value: Element)
        ensures
            final(self)@ == (AnyTypeView { value: old(self)@.value.with(Box::new(Some(value@))) }),
    {
        let ghost before = *self;
        self.value.add_value(Box::new(Some(value)));
        proof {
            match before@.value {
                PossibleSeq::Array(items) => {
                    assert(self@.value->Array_0 =~= items.push(Box::new(Some(value@))));
                },
                _ => {},
            }
        }
    }

    pub fn value(&self) -> (r: &PossibleArray<Box<Option<Element>>>)
        ensures
            element_slot(r@) == self@.value,
    {
        proof {
            match self.value@ {
                PossibleSeq::Array(items) => {
                    assert(element_slot(self.value@)->Array_0 =~= self@.value->Array_0);
                },
                _ => {},
            }
        }
        &self.value
    }

    pub fn set_value(&mut self, val: PossibleArray<Box<Option<Element>>>)
        ensures
            final(self)@ == (AnyTypeView { value: element_slot(val@) }),
    {
        self.value = val;
        proof {
            match val@ {
                PossibleSeq::Array(items) => {
                    assert(element_slot(val@)->Array_0 =~= self@.value->Array_0);
                },
                _ => {},
            }
        }
    }

    /// A copy of the field with all that it holds.
    pub fn duplicate(&self) -> (r: AnyType)
        ensures
            r@ == self@,
        decreases self,
    {
        let value = match &self.value {
            PossibleArray::Value(inner) => PossibleArray::Value(
                Box::new(
                    match &**inner {
                        Some(element) => Some(element.duplicate()),
                        None => None,
                    },
                ),
            ),
            PossibleArray::Array(items) => PossibleArray::Array(copy_elements(items)),
        };
        let r = AnyType { value };
        proof {
            match (self.value@, r.value@) {
                (PossibleSeq::Array(old), PossibleSeq::Array(new)) => {
                    assert forall|k: int| 0 <= k < old.len() implies r@.value->Array_0[k]
                        == self@.value->Array_0[k] by {
                        assert(element_view(new[k]) == element_view(old[k]));
                    }
                    assert(r@.value->Array_0 =~= self@.value->Array_0);
                },
                _ => {},
            }
        }
        r
    }
}

impl Clone for AnyType {
    fn clone(&self) -> (r: Self)
        ensures
            r@ == self@,
    {
        self.duplicate()
    }
}

impl Element {
    /// A copy of the element with all that it holds.
    pub fn duplicate(&self) -> (r: Element)
        ensures
            r@ == self@,
        decreases self,
    {
        match self {
            Element::Nil => Element::Nil,
            Element::String(val) => Element::String(val.clone()),
            Element::Integer(val) => Element::Integer(val.clone()),
            Element::Floating(val) => Element::Floating(val.clone()),
            Element::Boolean(val) => Element::Boolean(val.clone()),
            Element::Object(val) => Element::Object(val.duplicate()),
            Element::Any(val) => Element::Any(val.duplicate()),
        }
    }

    /// The text of a string field that is no array.
    pub fn as_string(&self) -> (r: Option<&str>)
        ensures
            match self@ {
                ElementView::String(StringTypeView { value: PossibleSeq::Value(text), .. }) => r
                    is Some && r->0@ == text,
                _ => r is None,
            },
    {
        match &self {
            Element::String(val) => match val.value().as_value() {
                Some(v) => Some(v.as_str()),
                None => None,
            },
            _ => None,
        }
    }

    /// The number of an integer field that is no array, or the whole part of
    /// the number of such a floating field.
    pub fn as_integer(&self) -> (r: Option<i64>)
        ensures
            r == (match self@ {
                ElementView::Integer(NumberTypeView { value: PossibleSeq::Value(v), .. }) => Some(v),
                ElementView::Floating(NumberTypeView { value: PossibleSeq::Value(v), .. }) => Some(
                    if v.whole_part() > i64::MAX {
                        i64::MAX
                    } else if v.whole_part() < i64::MIN {
                        i64::MIN
                    } else {
                        v.whole_part() as i64
                    },
                ),
                _ => None,
            }),
    {
        match self {
            Element::Integer(val) => match val.value().as_value() {
                Some(v) => Some(*v),
                None => None,
            },
            Element::Floating(val) => match val.value().as_value() {
                Some(v) => Some(v.truncate()),
                None => None,
            },
            _ => None,
        }
    }

    /// The number of a floating field that is no array, or the number of
    /// such an integer field as a decimal.
    pub fn as_floating(&self) -> (r: Option<Decimal>)
        ensures
            match self@ {
                ElementView::Integer(NumberTypeView { value: PossibleSeq::Value(v), .. }) => r
                    is Some && r->0.signed_mantissa() == v && r->0.exponent == 0 && r->0.negative
                    == (v < 0),
                ElementView::Floating(NumberTypeView { value: PossibleSeq::Value(v), .. }) => r
                    == Some(v),
                _ => r is None,
            },
    {
        match self {
            Element::Integer(val) => match val.value().as_value() {
                Some(v) => Some(Decimal::from_integer(*v)),
                None => None,
            },
            Element::Floating(val) => match val.value().as_value() {
                Some(v) => Some(*v),
                None => None,
            },
            _ => None,
        }
    }

    /// The value of a boolean field that is no array.
    pub fn as_boolean(&self) -> (r: Option<bool>)
        ensures
            r == (match self@ {
                ElementView::Boolean(BooleanTypeView { value: PossibleSeq::Value(v) }) => Some(v),
                _ => None,
            }),
    {
        match self {
            Element::Boolean(val) => match val.value().as_value() {
                Some(v) => Some(*v),
                None => None,
            },
            _ => None,
        }
    }

    /// The object that an object field holds, if it is no array and holds
    /// one.
    pub fn as_object(&self) -> (r: Option<&ObjectType>)
        ensures
            match self@ {
                ElementView::Object(ObjectTypeView { value: PossibleSeq::Value(inner), .. }) => (
                match *inner {
                    Some(object) => r is Some && r->0@ == object,
                    None => r is None,
                }),
                _ => r is None,
            },
    {
        match self {
            Element::Object(val) => match val.value().as_value() {
                Some(v) => match &**v {
                    Some(unboxed) => Some(unboxed),
                    None => None,
                },
                None => None,
            },
            _ => None,
        }
    }
}

impl Clone for Element {
    fn clone(&self) -> (r: Self)
        ensures
            r@ == self@,
    {
        self.duplicate()
    }
}

impl OptionItem {
    pub fn name(&self) -> (r: &str)
        ensures
            r@ == self@.name,
    {
        self.name.as_str()
    }

    pub fn value(&self) -> (r: &Element)
        ensures
            r@ == self@.value,
    {
        &self.value
    }
}

impl Options {
    /// No options.
    pub fn new() -> (r: Options)
        ensures
            r@ == Seq::<OptionView>::empty(),
    {
        let r = Options { values: Vec::new() };
        proof {
            assert(r@ =~= Seq::<OptionView>::empty());
        }
        r
    }

    /// Where the option of the name `key` stands, or the number of options.
    fn find(&self, key: &str) -> (r: usize)
        ensures
            r == option_index(self@, key@),
            r <= self.values@.len(),
            self@ == option_views(self.values@),
    {
        let mut i: usize = 0;
        proof {
            assert(self@ =~= option_views(self.values@));
        }
        while i < self.values.len()
            invariant
                i <= self.values.len(),
                self@ == option_views(self.values@),
                forall|k: int| 0 <= k < i ==> (#[trigger] self@[k]).name != key@,
            decreases self.values.len() - i,
        {
            if same_text(self.values[i].name.as_str(), key) {
                proof {
                    assert(self@[i as int].name == key@);
                    lemma_option_index(self@, key@, i as int);
                }
                return i;
            }
            proof {
                assert(self@[i as int].name != key@);
            }
            i += 1;
        }
        proof {
            lemma_option_index(self@, key@, i as int);
        }
        i
    }

    /// Whether the option `key` is switched on: it is given, it is boolean,
    /// and its value, or the first of its values, is `true`.
    pub fn has_bool(&self, key: &str) -> (r: bool)
        ensures
            r == option_switched(self@, key@),
    {
        let i = self.find(key);
        if i < self.values.len() {
            match &self.values[i].value {
                Element::Boolean(opt) => opt.get_value(),
                _ => false,
            }
        } else {
            false
        }
    }

    /// Whether there is no option.
    pub fn empty(&self) -> (r: bool)
        ensures
            r == (self@.len() == 0),
    {
        self.values.len() == 0
    }

    /// Gives the option `key` the value `value`: in place of the value it
    /// had, or as a new option behind the others.
    pub fn add(&mut self, key: &str, value: Element)
        ensures
            final(self)@ == put_option(old(self)@, OptionView { name: key@, value: value@ }),
    {
        let i = self.find(key);
        let ghost before = *self;
        let item = OptionItem { name: String::from_str(key), value };
        if i < self.values.len() {
            self.values[i] = item;
        } else {
            self.values.push(item);
        }
        proof {
            assert(self@ =~= put_option(before@, item@));
        }
    }

    /// The options, in the order in which their names were first given.
    pub fn all(&self) -> (r: &Vec<OptionItem>)
        ensures
            option_views(r@) == self@,
    {
        proof {
            assert(self@ =~= option_views(self.values@));
        }
        &self.values
    }

    /// A copy of the options.
    pub fn duplicate(&self) -> (r: Options)
        ensures
            r@ == self@,
        decreases self,
    {
        let mut values: Vec<OptionItem> = Vec::new();
        let mut i: usize = 0;
        while i < self.values.len()
            invariant
                i <= self.values.len(),
                values@.len() == i,
                forall|k: int| 0 <= k < i ==> (#[trigger] values@[k])@ == self.values@[k]@,
            decreases self.values.len() - i,
        {
            let item = &self.values[i];
            values.push(OptionItem { name: item.name.clone(), value: item.value.duplicate() });
            i += 1;
        }
        let r = Options { values };
        proof {
            assert(r@ =~= self@);
        }
        r
    }
}

impl Clone for Options {
    fn clone(&self) -> (r: Self)
        ensures
            r@ == self@,
    {
        self.duplicate()
    }
}

impl FieldType {
    /// The field `name` that holds `value` and has the options `opts`.
    pub fn new(name: String, value: Element, opts: Options) -> (r: FieldType)
        ensures
            r@ == (FieldTypeView { value: value@, name: name@, opts: opts@ }),
    {
        FieldType { value, name, opts }
    }

    pub fn value(&self) -> (r: &Element)
        ensures
            r@ == self@.value,
    {
        &self.value
    }

    pub fn name(&self) -> (r: &str)
        ensures
            r@ == self@.name,
    {
        self.name.as_str()
    }

    pub fn options(&self) -> (r: &Options)
        ensures
            r@ == self@.opts,
    {
        &self.opts
    }

    /// A copy of the field with all that it holds.
    pub fn duplicate(&self) -> (r: FieldType)
        ensures
            r@ == self@,
        decreases self,
    {
        FieldType {
            value: self.value.duplicate(),
            name: self.name.clone(),
            opts: self.opts.duplicate(),
        }
    }
}

impl Clone for FieldType {
    fn clone(&self) -> (r: Self)
        ensures
            r@ == self@,
    {
        self.duplicate()
    }
}

/// A module as a plain value.
pub struct ModuleView {
    pub name: Seq<char>,
    pub fields: Seq<FieldTypeView>,
}

/// A named list of fields.
pub struct Module {
    name: String,
    fields: Vec<FieldType>,
}

impl View for Module {
    type V = ModuleView;

    closed spec fn view(&self) -> ModuleView {
        ModuleView { name: self.name@, fields: field_views(self.fields@) }
    }
}

impl Clone for Module {
    fn clone(&self) -> (r: Self)
        ensures
            r@ == self@,
    {
        Module { name: self.name.clone(), fields: copy_fields(&self.fields) }
    }
}

impl Module {
    /// The module without name and fields.
    pub fn new() -> (r: Module)
        ensures
            r@ == (ModuleView { name: Seq::<char>::empty(), fields: Seq::<FieldTypeView>::empty() }),
    {
        let r = Module { name: String::new(), fields: Vec::new() };
        proof {
            assert(r@.fields =~= Seq::<FieldTypeView>::empty());
        }
        r
    }

    pub fn set_name(&mut self, name: String)
        ensures
            final(self)@ == (ModuleView { name: name@, ..old(self)@ }),
    {
        self.name = name;
    }

    pub fn name(&self) -> (r: &str)
        ensures
            r@ == self@.name,
    {
        self.name.as_str()
    }

    /// Puts the field `fld` behind the others.
    pub fn add_field(&mut self, fld: FieldType)
        ensures
            final(self)@ == (ModuleView { fields: old(self)@.fields.push(fld@), ..old(self)@ }),
    {
        let ghost before = self.fields@;
        self.fields.push(fld);
        proof {
            assert(field_views(self.fields@) =~= field_views(before).push(fld@));
        }
    }

    /// The fields, in the order in which they were added.
    pub fn fields(&self) -> (r: &Vec<FieldType>)
        ensures
            field_views(r@) == self@.fields,
    {
        &self.fields
    }

    /// The first field of the name `name`, if there is one.
    pub fn get_field(&self, name: &str) -> (r: Option<&FieldType>)
        ensures
            match r {
                Some(field) => field_index(self@.fields, name@) < self@.fields.len() && field@
                    == self@.fields[field_index(self@.fields, name@)],
                None => field_index(self@.fields, name@) == self@.fields.len(),
            },
    {
        let mut i: usize = 0;
        while i < self.fields.len()
            invariant
                i <= self.fields.len(),
                forall|k: int| 0 <= k < i ==> (#[trigger] self@.fields[k]).name != name@,
            decreases self.fields.len() - i,
        {
            if same_text(self.fields[i].name(), name) {
                proof {
                    assert(self@.fields[i as int].name == name@);
                    lemma_field_index(self@.fields, name@, i as int);
                }
                return Some(&self.fields[i]);
            }
            proof {
                assert(self@.fields[i as int].name != name@);
            }
            i += 1;
        }
        proof {
            lemma_field_index(self@.fields, name@, i as int);
        }
        None
    }
}

} // verus!
