//! Real-valued quantities (weights, scores, averages) as the library carries
//! them: the bit pattern of an IEEE 754 double. The library stores, orders
//! and selects them; arithmetic on them is the caller's.

use vstd::prelude::*;

verus! {

/// A double that is not a NaN, by its bit pattern.
#[derive(Debug, Clone, Copy, PartialEq, Eq, Structural)]
pub struct Quantity {
    pub bits: u64,
}

/// The sign bit of a double.
pub const SIGN_BIT: u64 = 0x8000_0000_0000_0000;

/// The bit pattern of 0.
pub const ZERO: u64 = 0x0000_0000_0000_0000;

/// The bit pattern of 0.02.
pub const POINT_02: u64 = 0x3F94_7AE1_47AE_147B;

/// The bit pattern of 0.1.
pub const POINT_1: u64 = 0x3FB9_9999_9999_999A;

/// The bit pattern of 0.15.
pub const POINT_15: u64 = 0x3FC3_3333_3333_3333;

/// The bit pattern of 0.2.
pub const POINT_2: u64 = 0x3FC9_9999_9999_999A;

/// The bit pattern of 0.25.
pub const POINT_25: u64 = 0x3FD0_0000_0000_0000;

/// The bit pattern of 0.3.
pub const POINT_3: u64 = 0x3FD3_3333_3333_3333;

/// The bit pattern of 0.35.
pub const POINT_35: u64 = 0x3FD6_6666_6666_6666;

/// The bit pattern of 0.4.
pub const POINT_4: u64 = 0x3FD9_9999_9999_999A;

/// The bit pattern of 0.5.
pub const POINT_5: u64 = 0x3FE0_0000_0000_0000;

/// The bit pattern of 0.6.
pub const POINT_6: u64 = 0x3FE3_3333_3333_3333;

/// The bit pattern of 0.7.
pub const POINT_7: u64 = 0x3FE6_6666_6666_6666;

/// The bit pattern of 0.75.
pub const POINT_75: u64 = 0x3FE8_0000_0000_0000;

/// The bit pattern of 0.8.
pub const POINT_8: u64 = 0x3FE9_9999_9999_999A;

/// The bit pattern of 0.95.
pub const POINT_95: u64 = 0x3FEE_6666_6666_6666;

/// The bit pattern of 1.
pub const ONE: u64 = 0x3FF0_0000_0000_0000;

/// The bit pattern of 4.
pub const FOUR: u64 = 0x4010_0000_0000_0000;

/// The bit pattern of 10.
pub const TEN: u64 = 0x4024_0000_0000_0000;

/// The bit pattern of 15.
pub const FIFTEEN: u64 = 0x402E_0000_0000_0000;

/// The bit pattern of 20.
pub const TWENTY: u64 = 0x4034_0000_0000_0000;

/// The bit pattern of 25.
pub const TWENTY_FIVE: u64 = 0x4039_0000_0000_0000;

/// The bit pattern of 28.
pub const TWENTY_EIGHT: u64 = 0x403C_0000_0000_0000;

/// The bit pattern of 30.
pub const THIRTY: u64 = 0x403E_0000_0000_0000;

/// The bit pattern of 45.
pub const FORTY_FIVE: u64 = 0x4046_8000_0000_0000;

/// The bit pattern of 60.
pub const SIXTY: u64 = 0x404E_0000_0000_0000;

/// The bit pattern of 100.
pub const HUNDRED: u64 = 0x4059_0000_0000_0000;

/// The bit pattern of 600.
pub const SIX_HUNDRED: u64 = 0x4082_C000_0000_0000;

/// The bit pattern of infinity.
pub const INFINITY: u64 = 0x7FF0_0000_0000_0000;

impl Quantity {
    /// Where the number stands among the doubles: the bit pattern without
    /// the sign counts up from zero, and the sign bit mirrors it. Two doubles
    /// compare as their ranks do; both zeros have rank zero.
    pub open spec fn rank(self) -> int {
        if self.bits < SIGN_BIT {
            self.bits as int
        } else {
            SIGN_BIT - self.bits
        }
    }

    /// The rank as a machine integer.
    pub fn order(self) -> (r: i64)
        ensures
            r == self.rank(),
    {
        if self.bits < SIGN_BIT {
            self.bits as i64
        } else {
            -((self.bits - SIGN_BIT) as i64)
        }
    }

    /// Whether `self` is less than `other`.
    pub fn less(self, other: Quantity) -> (r: bool)
        ensures
            r == (self.rank() < other.rank()),
    {
        self.order() < other.order()
    }
}

} // verus!
