//! Double-precision numbers, carried as bit patterns and compared exactly.
use vstd::prelude::*;

verus! {

/// An IEEE double-precision number, held as its bit pattern.
#[derive(Clone, Copy, PartialEq, Eq, Structural, Debug)]
pub struct Real {
    pub bits: u64,
}

impl DeepView for Real {
    type V = Real;

    open spec fn deep_view(&self) -> Real {
        *self
    }
}

impl Real {
    /// Whether the pattern stands for no number.
    pub open spec fn nan(self) -> bool {
        self.key() > 0x7ff0_0000_0000_0000 || self.key() < -0x7ff0_0000_0000_0000
    }

    /// An integer that orders patterns as the numbers they stand for are
    /// ordered; both zeros have key 0.
    pub open spec fn key(self) -> int {
        if self.bits < 0x8000_0000_0000_0000 {
            self.bits as int
        } else {
            0x8000_0000_0000_0000 - self.bits
        }
    }

    /// The key by which numbers are ordered.
    pub fn order_key(self) -> (r: i64)
        ensures
            r == self.key(),
            r > i64::MIN,
    {
        if self.bits < 0x8000_0000_0000_0000 {
            self.bits as i64
        } else {
            -((self.bits - 0x8000_0000_0000_0000) as i64)
        }
    }

    /// Whether the pattern stands for no number.
    pub fn is_nan(self) -> (r: bool)
        ensures
            r == self.nan(),
    {
        let k: i64 = self.order_key();
        k > 0x7ff0_0000_0000_0000 || k < -0x7ff0_0000_0000_0000
    }

    /// Whether both are numbers and `self` is at most `other`.
    pub open spec fn at_most_spec(self, other: Real) -> bool {
        !self.nan() && !other.nan() && self.key() <= other.key()
    }

    /// Whether both are numbers and `self` is at most `other`.
    pub fn at_most(self, other: Real) -> (r: bool)
        ensures
            r == self.at_most_spec(other),
    {
        !self.is_nan() && !other.is_nan() && self.order_key() <= other.order_key()
    }

    /// Whether both are numbers and `self` is less than `other`.
    pub open spec fn below_spec(self, other: Real) -> bool {
        !self.nan() && !other.nan() && self.key() < other.key()
    }

    /// Whether both are numbers and `self` is less than `other`.
    pub fn below(self, other: Real) -> (r: bool)
        ensures
            r == self.below_spec(other),
    {
        !self.is_nan() && !other.is_nan() && self.order_key() < other.order_key()
    }
}

} // verus!
