//! Ranges of values: a lower and an upper limit, each with its kind.

use std::ops::{Range, RangeFrom, RangeFull, RangeInclusive, RangeTo, RangeToInclusive};
use vstd::prelude::*;
use vstd::std_specs::cmp::{PartialOrdIs, PartialOrdSpec};
use vstd::std_specs::convert::FromSpecImpl;

verus! {

/// One end of an interval.
pub enum Limit<T> {
    /// The interval reaches the value and holds it.
    Included(T),
    /// The interval reaches the value and does not hold it.
    Excluded(T),
    /// The interval has no end on this side.
    Unbounded,
}

/// The values between a lower and an upper limit.
pub struct Interval<T> {
    pub start: Limit<T>,
    pub end: Limit<T>,
}

/// Whether `value` lies on the inner side of the lower limit `limit`.
pub open spec fn above<T: PartialOrd>(limit: Limit<T>, value: T) -> bool {
    match limit {
        Limit::Included(low) => low.is_le(&value),
        Limit::Excluded(low) => low.is_lt(&value),
        Limit::Unbounded => true,
    }
}

/// Whether `value` lies on the inner side of the upper limit `limit`.
pub open spec fn below<T: PartialOrd>(limit: Limit<T>, value: T) -> bool {
    match limit {
        Limit::Included(high) => value.is_le(&high),
        Limit::Excluded(high) => value.is_lt(&high),
        Limit::Unbounded => true,
    }
}

/// Whether the order of `T` is a lawful one: comparisons answer as the
/// order's own description says.
pub open spec fn lawful<T: PartialOrd>() -> bool {
    T::obeys_partial_cmp_spec()
}

/// What `Interval::contains` may answer for `value`: where the order of `T`
/// is a lawful one, whether `value` lies in the interval.
pub open spec fn within<T: PartialOrd>(interval: Interval<T>, value: T, inside: bool) -> bool {
    lawful::<T>() ==> inside == interval.holds(value)
}

impl<T: PartialOrd> Interval<T> {
    /// Whether `value` lies in the interval.
    pub open spec fn holds(&self, value: T) -> bool {
        above(self.start, value) && below(self.end, value)
    }

    /// The interval from `start` to `end`.
    pub fn new(start: Limit<T>, end: Limit<T>) -> (r: Self)
        ensures
            r.start == start,
            r.end == end,
    {
        Interval { start, end }
    }

    /// Whether `value` lies in the interval. The answer is that of `holds`
    /// where the order of `T` is a lawful one.
    pub fn contains(&self, value: &T) -> (r: bool)
        ensures
            within(*self, *value, r),
    {
        let over = match &self.start {
            Limit::Included(low) => *low <= *value,
            Limit::Excluded(low) => *low < *value,
            Limit::Unbounded => true,
        };
        let under = match &self.end {
            Limit::Included(high) => *value <= *high,
            Limit::Excluded(high) => *value < *high,
            Limit::Unbounded => true,
        };
        over && under
    }
}

impl<T> From<Range<T>> for Interval<T> {
    /// The interval of a half-open range: from its start, included, to its
    /// end, excluded.
    fn from(range: Range<T>) -> (r: Interval<T>) {
        Interval { start: Limit::Included(range.start), end: Limit::Excluded(range.end) }
    }
}

impl<T> FromSpecImpl<Range<T>> for Interval<T> {
    open spec fn obeys_from_spec() -> bool {
        true
    }

    open spec fn from_spec(range: Range<T>) -> Interval<T> {
        Interval { start: Limit::Included(range.start), end: Limit::Excluded(range.end) }
    }
}

/// `RangeInclusive::into_inner` hands out the two bounds of the range, the
/// lower one first.
pub assume_specification<Idx>[ RangeInclusive::<Idx>::into_inner ](
    range: RangeInclusive<Idx>,
) -> (ret: (Idx, Idx))
    ensures
        ret.0 == range@.start,
        ret.1 == range@.end,
;

impl<T> From<RangeInclusive<T>> for Interval<T> {
    /// The interval of a closed range: from its start to its end, both
    /// included.
    fn from(range: RangeInclusive<T>) -> (r: Interval<T>) {
        let (start, end) = range.into_inner();
        Interval { start: Limit::Included(start), end: Limit::Included(end) }
    }
}

impl<T> FromSpecImpl<RangeInclusive<T>> for Interval<T> {
    open spec fn obeys_from_spec() -> bool {
        true
    }

    open spec fn from_spec(range: RangeInclusive<T>) -> Interval<T> {
        Interval { start: Limit::Included(range@.start), end: Limit::Included(range@.end) }
    }
}

/// The range `a..` of std, with its one field, the start.
#[verifier::external_type_specification]
#[verifier::reject_recursive_types(Idx)]
pub struct ExRangeFrom<Idx>(RangeFrom<Idx>);

/// The range `..b` of std, with its one field, the end.
#[verifier::external_type_specification]
#[verifier::reject_recursive_types(Idx)]
pub struct ExRangeTo<Idx>(RangeTo<Idx>);

/// The range `..=b` of std, with its one field, the end.
#[verifier::external_type_specification]
#[verifier::reject_recursive_types(Idx)]
pub struct ExRangeToInclusive<Idx>(RangeToInclusive<Idx>);

/// The range `..` of std, which has no field.
#[verifier::external_type_specification]
pub struct ExRangeFull(RangeFull);

impl<T> From<RangeFrom<T>> for Interval<T> {
    /// The interval of a range without an end: from its start, included.
    fn from(range: RangeFrom<T>) -> (r: Interval<T>) {
        Interval { start: Limit::Included(range.start), end: Limit::Unbounded }
    }
}

impl<T> FromSpecImpl<RangeFrom<T>> for Interval<T> {
    open spec fn obeys_from_spec() -> bool {
        true
    }

    open spec fn from_spec(range: RangeFrom<T>) -> Interval<T> {
        Interval { start: Limit::Included(range.start), end: Limit::Unbounded }
    }
}

impl<T> From<RangeTo<T>> for Interval<T> {
    /// The interval of a range without a start: up to its end, excluded.
    fn from(range: RangeTo<T>) -> (r: Interval<T>) {
        Interval { start: Limit::Unbounded, end: Limit::Excluded(range.end) }
    }
}

impl<T> FromSpecImpl<RangeTo<T>> for Interval<T> {
    open spec fn obeys_from_spec() -> bool {
        true
    }

    open spec fn from_spec(range: RangeTo<T>) -> Interval<T> {
        Interval { start: Limit::Unbounded, end: Limit::Excluded(range.end) }
    }
}

impl<T> From<RangeToInclusive<T>> for Interval<T> {
    /// The interval of a range without a start: up to its end, included.
    fn from(range: RangeToInclusive<T>) -> (r: Interval<T>) {
        Interval { start: Limit::Unbounded, end: Limit::Included(range.end) }
    }
}

impl<T> FromSpecImpl<RangeToInclusive<T>> for Interval<T> {
    open spec fn obeys_from_spec() -> bool {
        true
    }

    open spec fn from_spec(range: RangeToInclusive<T>) -> Interval<T> {
        Interval { start: Limit::Unbounded, end: Limit::Included(range.end) }
    }
}

impl<T> From<RangeFull> for Interval<T> {
    /// The interval of the full range: every value.
    fn from(range: RangeFull) -> (r: Interval<T>) {
        Interval { start: Limit::Unbounded, end: Limit::Unbounded }
    }
}

impl<T> FromSpecImpl<RangeFull> for Interval<T> {
    open spec fn obeys_from_spec() -> bool {
        true
    }

    open spec fn from_spec(range: RangeFull) -> Interval<T> {
        Interval { start: Limit::Unbounded, end: Limit::Unbounded }
    }
}

} // verus!
