//! Host value types for attribute mappings.
//!
//! The comparator works for any type carrying the [`ValueEq`] capability;
//! these two are the ones the crate ships. [`PlainValue`] is an ordinary
//! tagged value whose equality test always succeeds; [`Incomparable`]
//! stands for a host object whose own equality operation fails, the case
//! the comparator must propagate rather than mask.

use vstd::prelude::*;

use crate::state_compare::ComparisonError;
use crate::state_compare::ValueEq;

verus! {

/// A plain attribute value: absence, a truth value, an integer, or text.
pub enum PlainValue {
    Absent,
    Truth(bool),
    Number(i64),
    Text(String),
}

/// What equality of two plain values means: the same variant holding the
/// same content.
pub open spec fn plain_eq(a: PlainValue, b: PlainValue) -> bool {
    match (a, b) {
        (PlainValue::Absent, PlainValue::Absent) => true,
        (PlainValue::Truth(x), PlainValue::Truth(y)) => x == y,
        (PlainValue::Number(x), PlainValue::Number(y)) => x == y,
        (PlainValue::Text(x), PlainValue::Text(y)) => x@ == y@,
        _ => false,
    }
}

impl ValueEq for PlainValue {
    /// Plain values can always be compared.
    open spec fn eq_defined(&self, other: &Self) -> bool {
        true
    }

    open spec fn eq_value(&self, other: &Self) -> bool {
        plain_eq(*self, *other)
    }

    /// A plain value's test never fails, so it owns no failure.
    open spec fn eq_err(&self, other: &Self, e: ComparisonError) -> bool {
        false
    }

    fn value_eq(&self, other: &Self) -> (r: Result<bool, ComparisonError>) {
        let eq = match (self, other) {
            (PlainValue::Absent, PlainValue::Absent) => true,
            (PlainValue::Truth(x), PlainValue::Truth(y)) => *x == *y,
            (PlainValue::Number(x), PlainValue::Number(y)) => *x == *y,
            (PlainValue::Text(x), PlainValue::Text(y)) => *x == *y,
            _ => false,
        };
        Ok(eq)
    }
}

/// A value whose own equality test always fails, as a host object whose
/// equality operation raises would. Only the identity short-circuit can
/// ever find two of these equal.
pub struct Incomparable {
    pub detail: String,
}

impl ValueEq for Incomparable {
    open spec fn eq_defined(&self, other: &Self) -> bool {
        false
    }

    open spec fn eq_value(&self, other: &Self) -> bool {
        false
    }

    /// The failure this value reports always carries its own detail text.
    open spec fn eq_err(&self, other: &Self, e: ComparisonError) -> bool {
        e.detail == self.detail
    }

    fn value_eq(&self, other: &Self) -> (r: Result<bool, ComparisonError>) {
        Err(ComparisonError { detail: self.detail.clone() })
    }
}

} // verus!
