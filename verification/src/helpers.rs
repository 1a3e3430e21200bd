//! Building blocks of the value model: intervals, enumerations and the
//! container that holds either one value or a list of them.

use vstd::prelude::*;

verus! {

/// A value that may be listed in an enumeration: two of them can be told
/// apart or found to be the same.
pub trait Literal: Sized {
    /// Whether the two stand for the same value.
    spec fn spec_same(&self, other: &Self) -> bool;

    /// Whether the two stand for the same value.
    fn same(&self, other: &Self) -> (r: bool)
        ensures
            r == self.spec_same(other),
    ;
}

/// A number kind of the schema language.
pub trait Numeric: Literal + Copy {
    /// The value that a freshly declared field of this kind holds.
    spec fn spec_zero() -> Self;

    /// The value that a freshly declared field of this kind holds.
    fn zero() -> (r: Self)
        ensures
            r == Self::spec_zero(),
    ;

    /// The keyword of this kind.
    spec fn spec_name() -> Seq<char>;

    /// The keyword of this kind.
    fn name() -> (r: &'static str)
        ensures
            r@ == Self::spec_name(),
    ;

    /// The order of the values: `self` is not above `other`.
    spec fn spec_le(&self, other: &Self) -> bool;

    /// The order of the values: `self` is not above `other`.
    fn le(&self, other: &Self) -> (r: bool)
        ensures
            r == self.spec_le(other),
    ;
}

impl Literal for i64 {
    open spec fn spec_same(&self, other: &Self) -> bool {
        *self == *other
    }

    fn same(&self, other: &Self) -> (r: bool) {
        *self == *other
    }
}

impl Literal for String {
    open spec fn spec_same(&self, other: &Self) -> bool {
        self@ == other@
    }

    fn same(&self, other: &Self) -> (r: bool) {
        *self == *other
    }
}

impl Numeric for i64 {
    open spec fn spec_zero() -> Self {
        0i64
    }

    fn zero() -> (r: Self) {
        0i64
    }

    open spec fn spec_name() -> Seq<char> {
        "integer"@
    }

    fn name() -> (r: &'static str) {
        "integer"
    }

    open spec fn spec_le(&self, other: &Self) -> bool {
        *self <= *other
    }

    fn le(&self, other: &Self) -> (r: bool) {
        *self <= *other
    }
}

/// An inclusive range with an optional bound on either side.
pub struct Interval<T> {
    low: Option<T>,
    high: Option<T>,
}

impl<T> View for Interval<T> {
    type V = (Option<T>, Option<T>);

    /// The lower and the upper bound.
    closed spec fn view(&self) -> (Option<T>, Option<T>) {
        (self.low, self.high)
    }
}

impl<T: Copy> Clone for Interval<T> {
    fn clone(&self) -> (r: Self)
        ensures
            r@ == self@,
    {
        Interval { low: self.low, high: self.high }
    }
}

/// Whether `val` lies within the bounds; a missing bound admits everything
/// on its side.
pub open spec fn interval_admits<T: Numeric>(bounds: (Option<T>, Option<T>), val: T) -> bool {
    &&& bounds.0 matches Some(low) ==> low.spec_le(&val)
    &&& bounds.1 matches Some(high) ==> val.spec_le(&high)
}

impl<T: Numeric> Interval<T> {
    /// The interval without bounds.
    pub fn none() -> (r: Interval<T>)
        ensures
            r@ == (None::<T>, None::<T>),
    {
        Interval { low: None, high: None }
    }

    /// Whether `val` lies within the bounds.
    pub fn check(&self, val: T) -> (r: bool)
        ensures
            r == interval_admits(self@, val),
    {
        let low_ok = match &self.low {
            Some(min_val) => min_val.le(&val),
            None => true,
        };
        let high_ok = match &self.high {
            Some(max_val) => val.le(max_val),
            None => true,
        };
        low_ok && high_ok
    }

    /// Sets the lower bound and leaves the upper one.
    pub fn set_min(&mut self, val: T)
        ensures
            final(self)@ == (Some(val), old(self)@.1),
    {
        self.low = Some(val);
    }

    /// Sets the upper bound and leaves the lower one.
    pub fn set_max(&mut self, val: T)
        ensures
            final(self)@ == (old(self)@.0, Some(val)),
    {
        self.high = Some(val);
    }

    /// Whether there is a lower bound.
    pub fn has_min(&self) -> (r: bool)
        ensures
            r == self@.0.is_some(),
    {
        self.low.is_some()
    }

    /// Whether there is an upper bound.
    pub fn has_max(&self) -> (r: bool)
        ensures
            r == self@.1.is_some(),
    {
        self.high.is_some()
    }

    /// Whether there is a bound on either side.
    pub fn has_minmax(&self) -> (r: bool)
        ensures
            r == (self@.0.is_some() || self@.1.is_some()),
    {
        self.has_min() || self.has_max()
    }

    /// The lower bound, or `default` where there is none.
    pub fn min(&self, default: T) -> (r: T)
        ensures
            r == (match self@.0 {
                Some(val) => val,
                None => default,
            }),
    {
        match &self.low {
            Some(val) => *val,
            None => default,
        }
    }

    /// The upper bound, or `default` where there is none.
    pub fn max(&self, default: T) -> (r: T)
        ensures
            r == (match self@.1 {
                Some(val) => val,
                None => default,
            }),
    {
        match &self.high {
            Some(val) => *val,
            None => default,
        }
    }
}

/// Whether `val` is the same as one of `items`.
pub open spec fn listed<T: Literal>(items: Seq<T>, val: T) -> bool {
    exists|i: int| 0 <= i < items.len() && (#[trigger] items[i]).spec_same(&val)
}

/// Whether no two of `items` are the same.
pub open spec fn distinct<T: Literal>(items: Seq<T>) -> bool {
    forall|i: int, j: int|
        0 <= i < j < items.len() ==> !(#[trigger] items[i]).spec_same(#[trigger] &items[j])
}

/// The values that a field may take, in the order in which they were listed.
/// One that is built by `create_with` and `try_add` lists no value twice.
pub struct Enum<T: Literal> {
    values: Vec<T>,
}

impl<T: Literal> View for Enum<T> {
    type V = Seq<T>;

    /// The listed values, first listed first.
    closed spec fn view(&self) -> Seq<T> {
        self.values@
    }
}

impl<T: Literal + Clone> Clone for Enum<T> {
    fn clone(&self) -> (r: Self)
        ensures
            r@.len() == self@.len(),
            forall|i: int| 0 <= i < self@.len() ==> cloned::<T>(#[trigger] self@[i], r@[i]),
    {
        Enum { values: self.values.clone() }
    }
}

/// A copy of `items`.
pub fn copy_items<T: Copy>(items: &Vec<T>) -> (r: Vec<T>)
    ensures
        r@ == items@,
{
    let mut r: Vec<T> = Vec::new();
    let mut i: usize = 0;
    while i < items.len()
        invariant
            i <= items.len(),
            r@ == items@.take(i as int),
        decreases items.len() - i,
    {
        r.push(items[i]);
        proof {
            assert(items@.take(i + 1) =~= items@.take(i as int).push(items@[i as int]));
        }
        i += 1;
    }
    proof {
        assert(items@.take(items@.len() as int) =~= items@);
    }
    r
}

impl<T: Literal + Copy> Enum<T> {
    /// A copy of the enumeration.
    pub fn duplicate(&self) -> (r: Enum<T>)
        ensures
            r@ == self@,
    {
        Enum { values: copy_items(&self.values) }
    }
}

impl<T: Literal> Enum<T> {
    /// The enumeration of the single value `val`.
    pub fn create_with(val: T) -> (r: Enum<T>)
        ensures
            r@ == seq![val],
            distinct(r@),
    {
        let mut values: Vec<T> = Vec::new();
        values.push(val);
        Enum { values }
    }

    /// Whether `val` is listed.
    pub fn check(&self, val: &T) -> (r: bool)
        ensures
            r == listed(self@, *val),
    {
        let mut i: usize = 0;
        while i < self.values.len()
            invariant
                i <= self.values.len(),
                forall|k: int| 0 <= k < i ==> !(#[trigger] self.values@[k]).spec_same(val),
            decreases self.values.len() - i,
        {
            if self.values[i].same(val) {
                return true;
            }
            i += 1;
        }
        false
    }

    /// Lists `val` after the others unless it is listed already, and says
    /// whether it was added.
    pub fn try_add(&mut self, val: T) -> (r: bool)
        ensures
            r == !listed(old(self)@, val),
            final(self)@ == (if r {
                old(self)@.push(val)
            } else {
                old(self)@
            }),
            distinct(old(self)@) ==> distinct(final(self)@),
    {
        if self.check(&val) {
            false
        } else {
            let ghost before = self.values@;
            self.values.push(val);
            proof {
                let after = self.values@;
                if distinct(before) {
                    assert forall|i: int, j: int| 0 <= i < j < after.len() implies !(
                    #[trigger] after[i]).spec_same(#[trigger] &after[j]) by {
                        if j < before.len() {
                            assert(after[i] == before[i] && after[j] == before[j]);
                        } else {
                            assert(after[i] == before[i]);
                            assert(!listed(before, val));
                        }
                    }
                }
            }
            true
        }
    }

    /// The listed values, first listed first.
    pub fn values(&self) -> (r: &Vec<T>)
        ensures
            r@ == self@,
    {
        &self.values
    }
}

/// The view of a [`PossibleArray`]: one value, or a sequence of values.
pub enum PossibleSeq<T> {
    Value(T),
    Array(Seq<T>),
}

impl<T> PossibleSeq<T> {
    /// The container after `value` was added: in place of the single value,
    /// or behind the values of the list.
    pub open spec fn with(self, value: T) -> PossibleSeq<T> {
        match self {
            PossibleSeq::Value(_) => PossibleSeq::Value(value),
            PossibleSeq::Array(items) => PossibleSeq::Array(items.push(value)),
        }
    }
}

/// Either one value or a list of values.
pub enum PossibleArray<T> {
    Value(T),
    Array(Vec<T>),
}

impl<T> View for PossibleArray<T> {
    type V = PossibleSeq<T>;

    open spec fn view(&self) -> PossibleSeq<T> {
        match self {
            PossibleArray::Value(val) => PossibleSeq::Value(*val),
            PossibleArray::Array(vec) => PossibleSeq::Array(vec@),
        }
    }
}

impl<T: Clone> Clone for PossibleArray<T> {
    fn clone(&self) -> (r: Self)
        ensures
            match (self@, r@) {
                (PossibleSeq::Value(old), PossibleSeq::Value(new)) => cloned::<T>(old, new),
                (PossibleSeq::Array(old), PossibleSeq::Array(new)) => old.len() == new.len()
                    && forall|i: int| 0 <= i < old.len() ==> cloned::<T>(#[trigger] old[i], new[i]),
                _ => false,
            },
    {
        match self {
            PossibleArray::Value(val) => PossibleArray::Value(val.clone()),
            PossibleArray::Array(vec) => PossibleArray::Array(vec.clone()),
        }
    }
}

impl<T> PossibleArray<T> {
    /// The empty list.
    pub fn new_array() -> (r: Self)
        ensures
            r@ == PossibleSeq::Array(Seq::<T>::empty()),
    {
        PossibleArray::Array(Vec::new())
    }

    /// Replaces the single value, or appends to the list.
    pub fn add_value(&mut self, value: T)
        ensures
            final(self)@ == old(self)@.with(value),
    {
        match self {
            PossibleArray::Value(val) => {
                *val = value;
            },
            PossibleArray::Array(vec) => {
                vec.push(value);
            },
        }
    }

    /// Whether this is a list.
    pub fn is_array(&self) -> (r: bool)
        ensures
            r == (self@ is Array),
    {
        match self {
            PossibleArray::Value(_) => false,
            PossibleArray::Array(_) => true,
        }
    }

    /// The single value, if this is one.
    pub fn as_value(&self) -> (r: Option<&T>)
        ensures
            r == (match self@ {
                PossibleSeq::Value(val) => Some(&val),
                PossibleSeq::Array(_) => None,
            }),
    {
        match &self {
            PossibleArray::Value(val) => Some(val),
            PossibleArray::Array(_) => None,
        }
    }

    /// The list, if this is one.
    pub fn as_array(&self) -> (r: Option<&Vec<T>>)
        ensures
            match self@ {
                PossibleSeq::Value(_) => r is None,
                PossibleSeq::Array(items) => r is Some && r->0@ == items,
            },
    {
        match &self {
            PossibleArray::Value(_) => None,
            PossibleArray::Array(arr) => Some(arr),
        }
    }
}

} // verus!
