//! Units of angle.

use vstd::prelude::*;
use crate::math::round_div;

verus! {

/// Nanoseconds of arc in one millisecond of arc.
pub const NANOS_PER_MILLI: i64 = 1_000_000;

/// An angle in nanoseconds of arc: 3,600,000,000,000 to the degree.
#[derive(Debug, Clone, Copy, PartialEq, Eq, Structural)]
pub struct NanoSecond(pub i64);

/// An angle in milliseconds of arc: 3,600,000 to the degree.
#[derive(Debug, Clone, Copy, PartialEq, Eq, Structural)]
pub struct MilliSecond(pub i32);

impl MilliSecond {
    /// The same angle in nanoseconds of arc.
    pub fn to_nano_second(self) -> (r: NanoSecond)
        ensures
            r.0 == self.0 * NANOS_PER_MILLI,
    {
        NanoSecond((self.0 as i64) * NANOS_PER_MILLI)
    }
}

impl NanoSecond {
    /// The nearest whole millisecond of arc as a mathematical integer.
    pub open spec fn spec_milli(self) -> int {
        round_div(self.0 as int, NANOS_PER_MILLI as int)
    }

    /// The angle rounded to the nearest millisecond of arc, or `None` where
    /// that does not fit in 32 bits.
    pub fn to_milli_second(self) -> (r: Option<MilliSecond>)
        ensures
            r == (if i32::MIN <= self.spec_milli() <= i32::MAX {
                Some(MilliSecond(self.spec_milli() as i32))
            } else {
                None
            }),
    {
        let q: i128 = crate::math::round_div_i128(self.0 as i128, NANOS_PER_MILLI as i128);
        if q < -0x8000_0000 || q > 0x7fff_ffff {
            None
        } else {
            Some(MilliSecond(q as i32))
        }
    }
}

} // verus!
