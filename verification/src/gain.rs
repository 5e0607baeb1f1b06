//! Gains, as the bits of floating point numbers.
use vstd::prelude::*;

verus! {

/// A gain in decibels, given by the bits of a 32-bit floating point number.
#[derive(Debug, Clone, Copy)]
pub struct GainDb {
    pub bits: u32,
}

impl PartialEq for GainDb {
    fn eq(&self, other: &Self) -> (same: bool) {
        self.same_gain(*other)
    }
}

impl vstd::std_specs::cmp::PartialEqSpecImpl for GainDb {
    open spec fn obeys_eq_spec() -> bool {
        true
    }

    open spec fn eq_spec(&self, other: &Self) -> bool {
        self.equals(*other)
    }
}

impl GainDb {
    /// Whether the bits stand for no number.
    pub open spec fn is_nan(self) -> bool {
        self.bits % 0x8000_0000 > 0x7f80_0000
    }

    /// Whether the bits stand for zero, of either sign.
    pub open spec fn is_zero(self) -> bool {
        self.bits % 0x8000_0000 == 0
    }

    /// Whether two gains are equal as numbers: the two zeros are equal, and what is
    /// no number equals nothing.
    pub open spec fn equals(self, other: GainDb) -> bool {
        &&& !self.is_nan()
        &&& !other.is_nan()
        &&& self.bits == other.bits || (self.is_zero() && other.is_zero())
    }

    /// A gain of zero decibels.
    pub fn zero() -> (gain: Self)
        ensures
            gain.bits == 0,
    {
        GainDb { bits: 0 }
    }

    /// Whether two gains are equal as numbers.
    pub fn same_gain(self, other: GainDb) -> (same: bool)
        ensures
            same == self.equals(other),
    {
        let left: u32 = self.bits % 0x8000_0000;
        let right: u32 = other.bits % 0x8000_0000;
        if left > 0x7f80_0000 || right > 0x7f80_0000 {
            return false;
        }
        self.bits == other.bits || (left == 0 && right == 0)
    }
}

/// A volume equals another where both are numbers and the same one; the two zeros are the same.
pub proof fn law_volumes_are_compared_as_numbers(left: GainDb, right: GainDb)
    ensures
        left.equals(right) <==> right.equals(left),
        left.equals(left) <==> (left.bits <= 0x7f80_0000 || 0x8000_0000 <= left.bits
            <= 0xff80_0000),
        left.bits == 0 && right.bits == 0x8000_0000 ==> left.equals(right),
        left.bits != right.bits && left.bits != 0 && left.bits != 0x8000_0000 ==> !left.equals(
            right,
        ),
{
}

} // verus!
