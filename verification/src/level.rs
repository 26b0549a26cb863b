//! Signal levels and thresholds, held as the bit patterns of single-precision
//! IEEE 754 values and ordered as those values are.
use vstd::prelude::*;

verus! {

/// A single-precision value by its bit pattern.
#[derive(Debug, Clone, Copy, PartialEq, Eq, Structural)]
pub struct Level {
    pub bits: u32,
}

/// The bit pattern of one.
pub const ONE_BITS: u32 = 0x3f80_0000;

/// The bit pattern of positive infinity; larger magnitudes are not numbers.
pub const INFINITY_BITS: u32 = 0x7f80_0000;

/// The sign bit.
pub const SIGN_BIT: u32 = 0x8000_0000;

impl Level {
    /// The pattern without its sign bit.
    pub open spec fn magnitude(self) -> int {
        if self.bits >= SIGN_BIT {
            self.bits - SIGN_BIT
        } else {
            self.bits as int
        }
    }

    /// The pattern stands for no number.
    pub open spec fn is_nan(self) -> bool {
        self.magnitude() > INFINITY_BITS
    }

    /// A number that grows as the value grows; both zeros share it.
    pub open spec fn rank(self) -> int {
        if self.bits >= SIGN_BIT {
            -self.magnitude()
        } else {
            self.magnitude()
        }
    }

    /// The value is at least the value of `other`; not so if either is no number.
    pub open spec fn reaches(self, other: Level) -> bool {
        !self.is_nan() && !other.is_nan() && self.rank() >= other.rank()
    }

    /// The value lies between zero and one, both included.
    pub open spec fn in_unit_range(self) -> bool {
        !self.is_nan() && 0 <= self.rank() <= ONE_BITS
    }

    /// The level with the given bit pattern.
    pub fn from_bits(bits: u32) -> (level: Level)
        ensures
            level.bits == bits,
    {
        Level { bits }
    }

    fn exec_magnitude(self) -> (m: u32)
        ensures
            m == self.magnitude(),
    {
        if self.bits >= SIGN_BIT {
            self.bits - SIGN_BIT
        } else {
            self.bits
        }
    }

    /// Whether the value is at least the value of `other`.
    pub fn at_least(self, other: Level) -> (r: bool)
        ensures
            r == self.reaches(other),
    {
        let a = self.exec_magnitude();
        let b = other.exec_magnitude();
        if a > INFINITY_BITS || b > INFINITY_BITS {
            return false;
        }
        if self.bits >= SIGN_BIT {
            if other.bits >= SIGN_BIT {
                a <= b
            } else {
                a == 0 && b == 0
            }
        } else if other.bits >= SIGN_BIT {
            true
        } else {
            a >= b
        }
    }

    /// Whether the value lies between zero and one, both included.
    pub fn within_unit(self) -> (r: bool)
        ensures
            r == self.in_unit_range(),
    {
        self.bits <= ONE_BITS || self.bits == SIGN_BIT
    }
}

// ---------------------------------------------------------------------------
// Laws
// ---------------------------------------------------------------------------
/// The value of a pattern without sign, in units of the smallest value there is. Below
/// the first normal exponent and with it, patterns count units; each further exponent
/// doubles the value.
pub open spec fn units(magnitude: int) -> int
    decreases magnitude,
{
    if magnitude < 0x100_0000 {
        magnitude
    } else {
        2 * units(magnitude - 0x80_0000)
    }
}

/// The value of a level, in units of the smallest value there is.
pub open spec fn value_in_units(level: Level) -> int {
    if level.bits >= 0x8000_0000 {
        -units(level.bits - 0x8000_0000)
    } else {
        units(level.bits as int)
    }
}

proof fn lemma_units_grow(a: int, b: int)
    requires
        0 <= a < b,
    ensures
        0 <= units(a) < units(b),
    decreases b,
{
    if b >= 0x100_0000 {
        if a < 0x100_0000 {
            if b - 0x80_0000 > 0x80_0000 {
                lemma_units_grow(0x80_0000, b - 0x80_0000);
            }
        } else {
            lemma_units_grow(a - 0x80_0000, b - 0x80_0000);
        }
    }
}

proof fn lemma_units_compare(a: int, b: int)
    requires
        0 <= a,
        0 <= b,
    ensures
        a <= b <==> units(a) <= units(b),
        units(a) == 0 <==> a == 0,
        units(a) >= 0,
{
    if a < b {
        lemma_units_grow(a, b);
    }
    if b < a {
        lemma_units_grow(b, a);
    }
    if a > 0 {
        lemma_units_grow(0, a);
    }
}

/// A level reaches another exactly if its value is at least the other's, and a pattern
/// that stands for no number neither reaches nor is reached. Those are the patterns
/// behind infinity.
pub proof fn levels_compare_by_value(a: Level, b: Level)
    ensures
        ({
            let a_is_number = a.bits % 0x8000_0000 <= 0x7f80_0000;
            let b_is_number = b.bits % 0x8000_0000 <= 0x7f80_0000;
            a.reaches(b) <==> a_is_number && b_is_number && value_in_units(a) >= value_in_units(b)
        }),
{
    lemma_units_compare(a.magnitude(), b.magnitude());
    lemma_units_compare(b.magnitude(), a.magnitude());
}

/// A level lies between zero and one exactly if its value does; one is the pattern with
/// the exponent zero and no fraction.
pub proof fn unit_range_is_by_value(level: Level)
    ensures
        level.in_unit_range() <==> level.bits % 0x8000_0000 <= 0x7f80_0000 && 0 <= value_in_units(
            level,
        ) <= units(127int * 0x80_0000),
{
    lemma_units_compare(level.magnitude(), 127int * 0x80_0000);
}

} // verus!
