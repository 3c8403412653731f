//! Values that carry their difference to a baseline.

use vstd::prelude::*;

use crate::text::{signed_decimal, signed_text, unsigned_text, decimal};

verus! {

/// `i` kept within `lo..=hi`.
pub open spec fn clamp(i: int, lo: int, hi: int) -> int {
    if i < lo {
        lo
    } else if i > hi {
        hi
    } else {
        i
    }
}

/// A value that can be used to provide a delta.
///
/// As the actual value can be an unsigned type, an associated type defines the
/// type of the delta.
pub trait DeltaValue: Copy + Sized {
    type Delta: Copy;

    /// The delta between `self` and `value`.
    spec fn delta_of(self, value: Self) -> Self::Delta;

    /// Whether a delta is positive: neither negative nor zero.
    spec fn positive(value: Self::Delta) -> bool;

    /// The text of a value.
    spec fn text_of(self) -> Seq<char>;

    /// The text of a delta.
    spec fn delta_text_of(value: Self::Delta) -> Seq<char>;

    /// Generate the delta between this and the provided value.
    fn delta(self, value: Self) -> (d: Self::Delta)
        ensures
            d == self.delta_of(value),
    ;

    /// It's positive if it's not negative or zero.
    fn is_delta_positive(value: Self::Delta) -> (b: bool)
        ensures
            b == Self::positive(value),
    ;

    /// The text of this value, as `Display` writes it.
    fn value_text(self) -> (s: String)
        ensures
            s@ == self.text_of(),
    ;

    /// The text of a delta, as `Display` writes it.
    fn delta_text(value: Self::Delta) -> (s: String)
        ensures
            s@ == Self::delta_text_of(value),
    ;
}

impl DeltaValue for usize {
    type Delta = isize;

    open spec fn delta_of(self, value: Self) -> isize {
        clamp(self - value, isize::MIN as int, isize::MAX as int) as isize
    }

    open spec fn positive(value: isize) -> bool {
        value > 0
    }

    open spec fn text_of(self) -> Seq<char> {
        decimal(self as nat)
    }

    open spec fn delta_text_of(value: isize) -> Seq<char> {
        signed_decimal(value as int)
    }

    fn delta(self, value: Self) -> (d: isize) {
        let delta = (self as i128) - (value as i128);
        if delta < isize::MIN as i128 {
            isize::MIN
        } else if delta > isize::MAX as i128 {
            isize::MAX
        } else {
            delta as isize
        }
    }

    fn is_delta_positive(value: isize) -> (b: bool) {
        value > 0
    }

    fn value_text(self) -> (s: String) {
        unsigned_text(self as u128)
    }

    fn delta_text(value: isize) -> (s: String) {
        signed_text(value as i128)
    }
}

impl DeltaValue for u64 {
    type Delta = i64;

    open spec fn delta_of(self, value: Self) -> i64 {
        clamp(self - value, i64::MIN as int, i64::MAX as int) as i64
    }

    open spec fn positive(value: i64) -> bool {
        value > 0
    }

    open spec fn text_of(self) -> Seq<char> {
        decimal(self as nat)
    }

    open spec fn delta_text_of(value: i64) -> Seq<char> {
        signed_decimal(value as int)
    }

    fn delta(self, value: Self) -> (d: i64) {
        let delta = (self as i128) - (value as i128);
        if delta < i64::MIN as i128 {
            i64::MIN
        } else if delta > i64::MAX as i128 {
            i64::MAX
        } else {
            delta as i64
        }
    }

    fn is_delta_positive(value: i64) -> (b: bool) {
        value > 0
    }

    fn value_text(self) -> (s: String) {
        unsigned_text(self as u128)
    }

    fn delta_text(value: i64) -> (s: String) {
        signed_text(value as i128)
    }
}

impl DeltaValue for u16 {
    type Delta = i16;

    open spec fn delta_of(self, value: Self) -> i16 {
        clamp(self - value, i16::MIN as int, i16::MAX as int) as i16
    }

    open spec fn positive(value: i16) -> bool {
        value > 0
    }

    open spec fn text_of(self) -> Seq<char> {
        decimal(self as nat)
    }

    open spec fn delta_text_of(value: i16) -> Seq<char> {
        signed_decimal(value as int)
    }

    fn delta(self, value: Self) -> (d: i16) {
        let delta = self as i32 - value as i32;
        if delta < i16::MIN as i32 {
            i16::MIN
        } else if delta > i16::MAX as i32 {
            i16::MAX
        } else {
            delta as i16
        }
    }

    fn is_delta_positive(value: i16) -> (b: bool) {
        value > 0
    }

    fn value_text(self) -> (s: String) {
        unsigned_text(self as u128)
    }

    fn delta_text(value: i16) -> (s: String) {
        signed_text(value as i128)
    }
}

/// A value, being either a plain value or a value with delta to a baseline.
#[derive(Clone, Copy, Debug, PartialEq, Eq)]
pub enum Value<T: DeltaValue> {
    Plain(T),
    Delta { value: T, delta: T::Delta },
}

/// The value itself, with or without a delta.
pub open spec fn value_of<T: DeltaValue>(v: Value<T>) -> T {
    match v {
        Value::Plain(value) => value,
        Value::Delta { value, .. } => value,
    }
}

/// The text of a value: a value with a delta shows the delta in brackets, with a
/// plus sign when the delta is positive, as in `1000 (+1000)` or `0 (-1000)`.
pub open spec fn value_text_of<T: DeltaValue>(v: Value<T>) -> Seq<char> {
    match v {
        Value::Plain(value) => value.text_of(),
        Value::Delta { value, delta } => value.text_of() + seq![' ', '('] + (if T::positive(delta) {
            seq!['+']
        } else {
            Seq::empty()
        }) + T::delta_text_of(delta) + seq![')'],
    }
}

impl<T: DeltaValue> Value<T> {
    /// A plain value.
    pub fn from(value: T) -> (v: Self)
        ensures
            v == Value::<T>::Plain(value),
    {
        Value::Plain(value)
    }

    /// The value itself, with or without a delta.
    pub fn value(&self) -> (v: T)
        ensures
            v == value_of(*self),
    {
        match self {
            Value::Plain(value) => *value,
            Value::Delta { value, .. } => *value,
        }
    }

    /// Turn this into the value with its delta to `other`.
    pub fn diff(&mut self, other: T)
        ensures
            *final(self) == (Value::<T>::Delta {
                value: value_of(*old(self)),
                delta: value_of(*old(self)).delta_of(other),
            }),
    {
        let value = self.value();
        *self = Value::Delta { value, delta: value.delta(other) };
    }

    /// The text of this value, as `Display` writes it.
    pub fn to_text(&self) -> (s: String)
        ensures
            s@ == value_text_of(*self),
    {
        match self {
            Value::Plain(value) => value.value_text(),
            Value::Delta { value, delta } => {
                let mut s = value.value_text();
                s.append(" (");
                if T::is_delta_positive(*delta) {
                    s.append("+");
                }
                let d = T::delta_text(*delta);
                s.append(d.as_str());
                s.append(")");
                proof {
                    reveal_strlit(" (");
                    reveal_strlit("+");
                    reveal_strlit(")");
                    assert(s@ =~= value_text_of(*self));
                }
                s
            },
        }
    }
}

/// Values that take their deltas to a baseline.
pub trait ApplyBaseline<T: DeltaValue>: Sized {
    /// The value after its delta to `other` was applied.
    spec fn evaluated(self, other: Self) -> Self;

    /// Apply the delta to `other`.
    fn eval(&mut self, other: Self)
        ensures
            *final(self) == old(self).evaluated(other),
    ;
}

impl<T: DeltaValue> ApplyBaseline<T> for Value<T> {
    open spec fn evaluated(self, other: Self) -> Self {
        Value::Delta { value: value_of(self), delta: value_of(self).delta_of(value_of(other)) }
    }

    fn eval(&mut self, other: Self) {
        self.diff(other.value())
    }
}

impl<T: DeltaValue> ApplyBaseline<T> for Option<Value<T>> {
    open spec fn evaluated(self, other: Self) -> Self {
        match (self, other) {
            (Some(value), Some(other)) => Some(value.evaluated(other)),
            _ => self,
        }
    }

    fn eval(&mut self, other: Self) {
        match self {
            Some(value) => match other {
                Some(other) => value.eval(other),
                None => {},
            },
            None => {},
        }
    }
}

/// Types that can have baseline deltas applied to them.
///
/// This is implemented by metric structs to allow correlating current metrics
/// with baseline metrics and computing deltas.
pub trait DeltaTo: Sized {
    /// The metric after the deltas to `other` were applied.
    spec fn delta_applied(self, other: Self) -> Self;

    /// Apply the deltas to `other`.
    fn delta_to(&mut self, other: &Self)
        ensures
            *final(self) == old(self).delta_applied(*other),
    ;
}

/// Law: the delta of a value to itself is zero, for every width of value.
pub proof fn lemma_delta_to_itself_is_zero(a: usize, b: u64, c: u16)
    ensures
        a.delta_of(a) == 0,
        b.delta_of(b) == 0,
        c.delta_of(c) == 0,
{
}

/// Law: applying a baseline keeps the value itself; only the delta is added.
pub proof fn lemma_baseline_keeps_value<T: DeltaValue>(v: Value<T>, baseline: Value<T>)
    ensures
        value_of(v.evaluated(baseline)) == value_of(v),
        v.evaluated(baseline) == (Value::<T>::Delta { value: value_of(v), delta: value_of(v).delta_of(value_of(baseline)) }),
{
}

} // verus!
