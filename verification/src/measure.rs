//! Distances and health as binary floating-point numbers, held by their bits and ordered as
//! IEEE 754 orders them.

use vstd::prelude::*;

verus! {

/// A 64-bit IEEE 754 number, by its bits: the sign in the highest bit, then the exponent, then
/// the fraction.
#[derive(Clone, Copy, Debug, PartialEq, Eq, Structural)]
pub struct Measure {
    pub bits: u64,
}

/// The sign bit.
pub const SIGN: u64 = 0x8000_0000_0000_0000;

/// The magnitude of infinity; greater magnitudes are no numbers.
pub const INFINITY: u64 = 0x7FF0_0000_0000_0000;

/// The bits of the number 0.
pub const ZERO: u64 = 0;

/// The bits of the number 1.5.
pub const ONE_AND_A_HALF: u64 = 0x3FF8_0000_0000_0000;

/// The bits of the number 4.
pub const FOUR: u64 = 0x4010_0000_0000_0000;

/// The bits of the number 8.
pub const EIGHT: u64 = 0x4020_0000_0000_0000;

/// The bits of the number 16.
pub const SIXTEEN: u64 = 0x4030_0000_0000_0000;

/// The bits of the number 20.
pub const TWENTY: u64 = 0x4034_0000_0000_0000;

impl Measure {
    /// The bits without the sign.
    pub open spec fn magnitude(self) -> int {
        if self.bits < SIGN {
            self.bits as int
        } else {
            self.bits - SIGN
        }
    }

    /// Whether the bits are those of a number, infinities included.
    pub open spec fn is_number(self) -> bool {
        self.magnitude() <= INFINITY
    }

    /// The place of a number in the order of numbers. Both zeros have place 0, and of two numbers
    /// of one sign the one with the greater magnitude lies farther from zero.
    pub open spec fn place(self) -> int {
        if self.bits < SIGN {
            self.magnitude()
        } else {
            -self.magnitude()
        }
    }

    /// `self < other`: false where one of them is no number.
    pub open spec fn less_spec(self, other: Measure) -> bool {
        self.is_number() && other.is_number() && self.place() < other.place()
    }

    /// `self <= other`: false where one of them is no number.
    pub open spec fn at_most_spec(self, other: Measure) -> bool {
        self.is_number() && other.is_number() && self.place() <= other.place()
    }

    pub fn from_bits(bits: u64) -> (measure: Measure)
        ensures
            measure.bits == bits,
    {
        Measure { bits }
    }

    /// The place of a number in the order of numbers; `None` for what is no number.
    pub fn number(self) -> (place: Option<i64>)
        ensures
            place is Some <==> self.is_number(),
            place matches Some(p) ==> p == self.place(),
    {
        if self.bits <= INFINITY {
            Some(self.bits as i64)
        } else if self.bits >= SIGN && self.bits - SIGN <= INFINITY {
            Some(-((self.bits - SIGN) as i64))
        } else {
            None
        }
    }

    /// Whether `self < other`.
    pub fn less(self, other: Measure) -> (r: bool)
        ensures
            r == self.less_spec(other),
    {
        match (self.number(), other.number()) {
            (Some(a), Some(b)) => a < b,
            _ => false,
        }
    }

    /// Whether `self <= other`.
    pub fn at_most(self, other: Measure) -> (r: bool)
        ensures
            r == self.at_most_spec(other),
    {
        match (self.number(), other.number()) {
            (Some(a), Some(b)) => a <= b,
            _ => false,
        }
    }
}

/// Of two numbers, one is less than the other or each is at most the other.
pub proof fn numbers_are_ordered(a: Measure, b: Measure)
    requires
        a.is_number(),
        b.is_number(),
    ensures
        a.less_spec(b) <==> !b.at_most_spec(a),
        a.at_most_spec(b) || b.at_most_spec(a),
{
}

/// Numbers that are not negative are ordered as their bits are, and negative ones the other way
/// round. A negative number is less than one that is not, unless both are zero.
pub proof fn numbers_are_ordered_by_their_bits(a: u64, b: u64)
    requires
        a <= 0x7FF0_0000_0000_0000,
        b <= 0x7FF0_0000_0000_0000,
    ensures
        ({
            let minus_a = Measure { bits: (a + 0x8000_0000_0000_0000) as u64 };
            let minus_b = Measure { bits: (b + 0x8000_0000_0000_0000) as u64 };
            let plus_a = Measure { bits: a };
            let plus_b = Measure { bits: b };
            &&& plus_a.less_spec(plus_b) <==> a < b
            &&& plus_a.at_most_spec(plus_b) <==> a <= b
            &&& minus_a.less_spec(minus_b) <==> b < a
            &&& minus_a.at_most_spec(minus_b) <==> b <= a
            &&& minus_a.less_spec(plus_b) <==> a > 0 || b > 0
            &&& minus_a.at_most_spec(plus_b)
            &&& !plus_a.less_spec(minus_b)
            &&& plus_a.at_most_spec(minus_b) <==> a == 0 && b == 0
        }),
{
}

/// What is no number is neither less than anything nor at most anything, nor the other way round.
pub proof fn what_is_no_number_compares_with_nothing(a: Measure, b: Measure)
    requires
        0x7FF0_0000_0000_0000 < a.bits < 0x8000_0000_0000_0000 || 0xFFF0_0000_0000_0000 < a.bits,
    ensures
        !a.less_spec(b),
        !b.less_spec(a),
        !a.at_most_spec(b),
        !b.at_most_spec(a),
{
}

} // verus!
