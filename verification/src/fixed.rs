//! Fixed-point scalars.
//!
//! Every coordinate, size and depth of the compositor is a [`Fixed`]: a signed
//! 64-bit count of sixty-fourths of a unit. Sums and differences saturate at
//! the ends of the range instead of wrapping.

use vstd::prelude::*;

verus! {

/// Raw steps in one whole unit.
pub const STEPS_PER_UNIT: i64 = 64;

/// A fixed-point number with six fractional bits.
#[derive(Clone, Copy, Debug, PartialEq, Eq, Structural)]
pub struct Fixed {
    pub raw: i64,
}

/// The `i64` nearest to `v`.
pub open spec fn saturate(v: int) -> i64 {
    if v < i64::MIN {
        i64::MIN
    } else if v > i64::MAX {
        i64::MAX
    } else {
        v as i64
    }
}

fn saturate_wide(v: i128) -> (r: i64)
    ensures
        r == saturate(v as int),
{
    if v < i64::MIN as i128 {
        i64::MIN
    } else if v > i64::MAX as i128 {
        i64::MAX
    } else {
        v as i64
    }
}

impl Fixed {
    /// The number of whole units `units`.
    pub open spec fn of_int(units: int) -> Fixed {
        Fixed { raw: saturate(units * 64) }
    }

    /// The saturating sum.
    pub open spec fn plus(self, rhs: Fixed) -> Fixed {
        Fixed { raw: saturate(self.raw + rhs.raw) }
    }

    /// The saturating difference.
    pub open spec fn minus(self, rhs: Fixed) -> Fixed {
        Fixed { raw: saturate(self.raw - rhs.raw) }
    }

    /// The largest whole number that is not above `self`.
    pub open spec fn floored(self) -> Fixed {
        Fixed { raw: ((self.raw as int / 64) * 64) as i64 }
    }

    /// The nearest whole number, halves going away from zero.
    pub open spec fn rounded(self) -> Fixed {
        if self.raw >= 0 {
            Fixed { raw: saturate(((self.raw + 32) / 64) * 64) }
        } else {
            Fixed { raw: saturate(-(((32 - self.raw) / 64) * 64)) }
        }
    }

    /// The part of `self` above its floor, in raw steps: `0..64`.
    pub open spec fn fraction(self) -> int {
        self.raw as int % 64
    }

    /// The larger of the two.
    pub open spec fn at_least(self, floor: Fixed) -> Fixed {
        if self.raw < floor.raw {
            floor
        } else {
            self
        }
    }

    pub fn zero() -> (r: Fixed)
        ensures
            r.raw == 0,
    {
        Fixed { raw: 0 }
    }

    pub fn one() -> (r: Fixed)
        ensures
            r.raw == 64,
            r == Fixed::of_int(1),
    {
        Fixed { raw: 64 }
    }

    pub fn from_raw(raw: i64) -> (r: Fixed)
        ensures
            r.raw == raw,
    {
        Fixed { raw }
    }

    pub fn from_int(units: i32) -> (r: Fixed)
        ensures
            r == Fixed::of_int(units as int),
            r.raw == units * 64,
    {
        Fixed { raw: units as i64 * 64 }
    }

    pub fn saturating_add(self, rhs: Fixed) -> (r: Fixed)
        ensures
            r == self.plus(rhs),
    {
        Fixed { raw: saturate_wide(self.raw as i128 + rhs.raw as i128) }
    }

    pub fn saturating_sub(self, rhs: Fixed) -> (r: Fixed)
        ensures
            r == self.minus(rhs),
    {
        Fixed { raw: saturate_wide(self.raw as i128 - rhs.raw as i128) }
    }

    pub fn floor(self) -> (r: Fixed)
        ensures
            r == self.floored(),
    {
        Fixed { raw: self.raw - self.fract() as i64 }
    }

    pub fn round(self) -> (r: Fixed)
        ensures
            r == self.rounded(),
    {
        if self.raw >= 0 {
            let wide: i128 = self.raw as i128 + 32;
            Fixed { raw: saturate_wide(wide - wide % 64) }
        } else {
            let wide: i128 = 32 - self.raw as i128;
            Fixed { raw: saturate_wide(-(wide - wide % 64)) }
        }
    }

    pub fn fract(self) -> (r: u8)
        ensures
            r == self.fraction(),
            r < 64,
    {
        if self.raw >= 0 {
            (self.raw % 64) as u8
        } else {
            let below: i64 = (-(self.raw + 1)) % 64;
            (63 - below) as u8
        }
    }

    pub fn max(self, floor: Fixed) -> (r: Fixed)
        ensures
            r == self.at_least(floor),
    {
        if self.raw < floor.raw {
            floor
        } else {
            self
        }
    }

    pub fn lt(self, rhs: Fixed) -> (r: bool)
        ensures
            r == (self.raw < rhs.raw),
    {
        self.raw < rhs.raw
    }
}

} // verus!
