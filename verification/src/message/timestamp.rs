//! Message timestamps

use crate::ieee::{double_eq, double_lt, eq_double, lt_double};
use core::cmp::Ordering;
use vstd::prelude::*;

verus! {

/// Message timestamps: milliseconds as an IEEE-754 double-precision bit
/// pattern, relative to the start of the engine.
#[derive(Copy, Clone, Debug)]
pub struct Timestamp(pub u64);

impl Timestamp {
    /// Is `self` strictly earlier than `other`?
    pub open spec fn precedes(self, other: Timestamp) -> bool {
        double_lt(self.0, other.0)
    }

    /// Do `self` and `other` name the same moment?
    pub open spec fn same_moment(self, other: Timestamp) -> bool {
        double_eq(self.0, other.0)
    }

    /// The timestamp with the given bit pattern
    pub fn from_bits(bits: u64) -> (ts: Timestamp)
        ensures
            ts == Timestamp(bits),
    {
        Timestamp(bits)
    }

    /// The bit pattern of this timestamp
    pub fn to_bits(self) -> (bits: u64)
        ensures
            bits == self.0,
    {
        self.0
    }

    /// Is `self` strictly earlier than `other`?
    pub fn is_before(self, other: Timestamp) -> (r: bool)
        ensures
            r == self.precedes(other),
    {
        lt_double(self.0, other.0)
    }

    /// Is `self` at or after `other`? False when either is a NaN.
    pub fn is_at_or_after(self, other: Timestamp) -> (r: bool)
        ensures
            r == (other.precedes(self) || self.same_moment(other)),
    {
        lt_double(other.0, self.0) || eq_double(self.0, other.0)
    }
}

impl Default for Timestamp {
    fn default() -> (ts: Timestamp)
        ensures
            ts == Timestamp(0),
    {
        Timestamp(0)
    }
}

impl PartialEq for Timestamp {
    fn eq(&self, other: &Timestamp) -> (r: bool)
    {
        eq_double(self.0, other.0)
    }
}

impl vstd::std_specs::cmp::PartialEqSpecImpl for Timestamp {
    open spec fn obeys_eq_spec() -> bool {
        true
    }

    open spec fn eq_spec(&self, other: &Timestamp) -> bool {
        double_eq(self.0, other.0)
    }
}

impl PartialOrd for Timestamp {
    fn partial_cmp(&self, other: &Timestamp) -> (r: Option<Ordering>)
    {
        if lt_double(self.0, other.0) {
            Some(Ordering::Less)
        } else if lt_double(other.0, self.0) {
            Some(Ordering::Greater)
        } else if eq_double(self.0, other.0) {
            Some(Ordering::Equal)
        } else {
            None
        }
    }
}

impl vstd::std_specs::cmp::PartialOrdSpecImpl for Timestamp {
    open spec fn obeys_partial_cmp_spec() -> bool {
        true
    }

    open spec fn partial_cmp_spec(&self, other: &Timestamp) -> Option<Ordering> {
        if double_lt(self.0, other.0) {
            Some(Ordering::Less)
        } else if double_lt(other.0, self.0) {
            Some(Ordering::Greater)
        } else if double_eq(self.0, other.0) {
            Some(Ordering::Equal)
        } else {
            None
        }
    }
}

} // verus!
