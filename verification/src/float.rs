//! Floating-point numbers as bit patterns, with the comparisons that the rest of
//! the library decides by.
//!
//! A number is a plain integer here, so every comparison is an integer
//! comparison that is proved. Sums, products and roots are not computed in this
//! module: see [`crate::numerics`].

use vstd::prelude::*;

verus! {

/// A single-precision floating-point number, held as its IEEE 754 bit pattern.
///
/// `==` compares bit patterns. The numeric comparisons are the methods below.
#[derive(Clone, Copy, Debug, PartialEq, Eq, Structural)]
pub struct Float32 {
    pub bits: u32,
}

/// The bit that holds the sign of a [`Float32`].
pub const F32_SIGN: u32 = 0x8000_0000;

/// The bit pattern of 1.
pub const F32_ONE: u32 = 0x3f80_0000;

/// The bit pattern of one half.
pub const F32_HALF: u32 = 0x3f00_0000;

/// The bit pattern of 2.
pub const F32_TWO: u32 = 0x4000_0000;

/// The bit pattern of the gap between 1 and the next number.
pub const F32_EPSILON: u32 = 0x3400_0000;

/// The bit pattern of 1.
pub const F64_ONE: u64 = 0x3ff0_0000_0000_0000;

/// The bit pattern of one half.
pub const F64_HALF: u64 = 0x3fe0_0000_0000_0000;

/// The bit pattern of positive infinity.
pub const F32_INFINITY: u32 = 0x7f80_0000;

impl Float32 {
    /// The bit pattern with the sign cleared.
    pub open spec fn magnitude_spec(self) -> int {
        if self.bits >= F32_SIGN {
            self.bits - F32_SIGN
        } else {
            self.bits as int
        }
    }

    pub open spec fn is_nan_spec(self) -> bool {
        self.magnitude_spec() > F32_INFINITY
    }

    pub open spec fn is_finite_spec(self) -> bool {
        self.magnitude_spec() < F32_INFINITY
    }

    /// An integer that orders the numbers as their values do: for two numbers
    /// that are not NaN, one value is below another exactly when its rank is.
    pub open spec fn rank_spec(self) -> int {
        if self.bits >= F32_SIGN {
            -self.magnitude_spec()
        } else {
            self.magnitude_spec()
        }
    }

    /// An integer that orders all bit patterns, negative zero below positive
    /// zero, negative NaNs lowest and positive NaNs highest.
    pub open spec fn total_rank_spec(self) -> int {
        if self.bits >= F32_SIGN {
            -self.magnitude_spec() - 1
        } else {
            self.magnitude_spec()
        }
    }

    pub open spec fn lt_spec(self, other: Float32) -> bool {
        !self.is_nan_spec() && !other.is_nan_spec() && self.rank_spec() < other.rank_spec()
    }

    pub open spec fn le_spec(self, other: Float32) -> bool {
        !self.is_nan_spec() && !other.is_nan_spec() && self.rank_spec() <= other.rank_spec()
    }

    /// Equality of values: NaN equals nothing, the two zeros are equal.
    pub open spec fn equals_spec(self, other: Float32) -> bool {
        !self.is_nan_spec() && !other.is_nan_spec() && self.rank_spec() == other.rank_spec()
    }

    pub open spec fn abs_spec(self) -> Float32 {
        Float32 { bits: self.magnitude_spec() as u32 }
    }

    pub open spec fn neg_spec(self) -> Float32 {
        if self.bits >= F32_SIGN {
            Float32 { bits: (self.bits - F32_SIGN) as u32 }
        } else {
            Float32 { bits: (self.bits + F32_SIGN) as u32 }
        }
    }

    /// The smaller value; a NaN gives way to the other operand.
    pub open spec fn min_spec(self, other: Float32) -> Float32 {
        if self.is_nan_spec() || other.lt_spec(self) {
            other
        } else {
            self
        }
    }

    /// The larger value; a NaN gives way to the other operand.
    pub open spec fn max_spec(self, other: Float32) -> Float32 {
        if self.is_nan_spec() || self.lt_spec(other) {
            other
        } else {
            self
        }
    }

    /// The value moved into `[low, high]`; a NaN stays.
    pub open spec fn clamp_spec(self, low: Float32, high: Float32) -> Float32 {
        let raised = if self.lt_spec(low) { low } else { self };
        if high.lt_spec(raised) { high } else { raised }
    }

    #[verifier::when_used_as_spec(zero_spec)]
    pub fn zero() -> (r: Float32)
        ensures
            r == Float32::zero_spec(),
    {
        Float32 { bits: 0 }
    }

    pub open spec fn zero_spec() -> Float32 {
        Float32 { bits: 0 }
    }

    #[verifier::when_used_as_spec(infinity_spec)]
    pub fn infinity() -> (r: Float32)
        ensures
            r == Float32::infinity_spec(),
    {
        Float32 { bits: F32_INFINITY }
    }

    pub open spec fn infinity_spec() -> Float32 {
        Float32 { bits: F32_INFINITY }
    }

    fn magnitude(self) -> (r: u32)
        ensures
            r == self.magnitude_spec(),
    {
        if self.bits >= F32_SIGN {
            self.bits - F32_SIGN
        } else {
            self.bits
        }
    }

    pub fn rank(self) -> (r: i64)
        ensures
            r == self.rank_spec(),
    {
        if self.bits >= F32_SIGN {
            -((self.bits - F32_SIGN) as i64)
        } else {
            self.bits as i64
        }
    }

    #[verifier::when_used_as_spec(is_nan_spec)]
    pub fn is_nan(self) -> (r: bool)
        ensures
            r == self.is_nan_spec(),
    {
        self.magnitude() > F32_INFINITY
    }

    #[verifier::when_used_as_spec(is_finite_spec)]
    pub fn is_finite(self) -> (r: bool)
        ensures
            r == self.is_finite_spec(),
    {
        self.magnitude() < F32_INFINITY
    }

    #[verifier::when_used_as_spec(lt_spec)]
    pub fn lt(self, other: Float32) -> (r: bool)
        ensures
            r == self.lt_spec(other),
    {
        !self.is_nan() && !other.is_nan() && self.rank() < other.rank()
    }

    #[verifier::when_used_as_spec(le_spec)]
    pub fn le(self, other: Float32) -> (r: bool)
        ensures
            r == self.le_spec(other),
    {
        !self.is_nan() && !other.is_nan() && self.rank() <= other.rank()
    }

    #[verifier::when_used_as_spec(equals_spec)]
    pub fn equals(self, other: Float32) -> (r: bool)
        ensures
            r == self.equals_spec(other),
    {
        !self.is_nan() && !other.is_nan() && self.rank() == other.rank()
    }

    pub fn total_rank(self) -> (r: i64)
        ensures
            r == self.total_rank_spec(),
    {
        if self.bits >= F32_SIGN {
            -((self.bits - F32_SIGN) as i64) - 1
        } else {
            self.bits as i64
        }
    }

    /// Whether this bit pattern comes no later than `other` in the total order.
    pub fn total_le(self, other: Float32) -> (r: bool)
        ensures
            r == (self.total_rank_spec() <= other.total_rank_spec()),
    {
        if self.bits >= F32_SIGN {
            other.bits < F32_SIGN || other.bits <= self.bits
        } else {
            other.bits < F32_SIGN && self.bits <= other.bits
        }
    }

    #[verifier::when_used_as_spec(abs_spec)]
    pub fn abs(self) -> (r: Float32)
        ensures
            r == self.abs_spec(),
    {
        Float32 { bits: self.magnitude() }
    }

    #[verifier::when_used_as_spec(neg_spec)]
    pub fn neg(self) -> (r: Float32)
        ensures
            r == self.neg_spec(),
    {
        if self.bits >= F32_SIGN {
            Float32 { bits: self.bits - F32_SIGN }
        } else {
            Float32 { bits: self.bits + F32_SIGN }
        }
    }

    #[verifier::when_used_as_spec(min_spec)]
    pub fn min(self, other: Float32) -> (r: Float32)
        ensures
            r == self.min_spec(other),
    {
        if self.is_nan() || other.lt(self) {
            other
        } else {
            self
        }
    }

    #[verifier::when_used_as_spec(max_spec)]
    pub fn max(self, other: Float32) -> (r: Float32)
        ensures
            r == self.max_spec(other),
    {
        if self.is_nan() || self.lt(other) {
            other
        } else {
            self
        }
    }

    #[verifier::when_used_as_spec(clamp_spec)]
    pub fn clamp(self, low: Float32, high: Float32) -> (r: Float32)
        ensures
            r == self.clamp_spec(low, high),
    {
        let raised = if self.lt(low) { low } else { self };
        if high.lt(raised) { high } else { raised }
    }
}

/// A double-precision floating-point number, held as its IEEE 754 bit pattern.
///
/// `==` compares bit patterns. The numeric comparisons are the methods below.
#[derive(Clone, Copy, Debug, PartialEq, Eq, Structural)]
pub struct Float64 {
    pub bits: u64,
}

/// The bit that holds the sign of a [`Float64`].
pub const F64_SIGN: u64 = 0x8000_0000_0000_0000;

/// The bit pattern of positive infinity.
pub const F64_INFINITY: u64 = 0x7ff0_0000_0000_0000;

impl Float64 {
    /// The bit pattern with the sign cleared.
    pub open spec fn magnitude_spec(self) -> int {
        if self.bits >= F64_SIGN {
            self.bits - F64_SIGN
        } else {
            self.bits as int
        }
    }

    pub open spec fn is_nan_spec(self) -> bool {
        self.magnitude_spec() > F64_INFINITY
    }

    pub open spec fn is_finite_spec(self) -> bool {
        self.magnitude_spec() < F64_INFINITY
    }

    /// An integer that orders the numbers as their values do: for two numbers
    /// that are not NaN, one value is below another exactly when its rank is.
    pub open spec fn rank_spec(self) -> int {
        if self.bits >= F64_SIGN {
            -self.magnitude_spec()
        } else {
            self.magnitude_spec()
        }
    }

    /// An integer that orders all bit patterns, negative zero below positive
    /// zero, negative NaNs lowest and positive NaNs highest.
    pub open spec fn total_rank_spec(self) -> int {
        if self.bits >= F64_SIGN {
            -self.magnitude_spec() - 1
        } else {
            self.magnitude_spec()
        }
    }

    pub open spec fn lt_spec(self, other: Float64) -> bool {
        !self.is_nan_spec() && !other.is_nan_spec() && self.rank_spec() < other.rank_spec()
    }

    pub open spec fn le_spec(self, other: Float64) -> bool {
        !self.is_nan_spec() && !other.is_nan_spec() && self.rank_spec() <= other.rank_spec()
    }

    /// Equality of values: NaN equals nothing, the two zeros are equal.
    pub open spec fn equals_spec(self, other: Float64) -> bool {
        !self.is_nan_spec() && !other.is_nan_spec() && self.rank_spec() == other.rank_spec()
    }

    pub open spec fn abs_spec(self) -> Float64 {
        Float64 { bits: self.magnitude_spec() as u64 }
    }

    pub open spec fn neg_spec(self) -> Float64 {
        if self.bits >= F64_SIGN {
            Float64 { bits: (self.bits - F64_SIGN) as u64 }
        } else {
            Float64 { bits: (self.bits + F64_SIGN) as u64 }
        }
    }

    /// The smaller value; a NaN gives way to the other operand.
    pub open spec fn min_spec(self, other: Float64) -> Float64 {
        if self.is_nan_spec() || other.lt_spec(self) {
            other
        } else {
            self
        }
    }

    /// The larger value; a NaN gives way to the other operand.
    pub open spec fn max_spec(self, other: Float64) -> Float64 {
        if self.is_nan_spec() || self.lt_spec(other) {
            other
        } else {
            self
        }
    }

    /// The value moved into `[low, high]`; a NaN stays.
    pub open spec fn clamp_spec(self, low: Float64, high: Float64) -> Float64 {
        let raised = if self.lt_spec(low) { low } else { self };
        if high.lt_spec(raised) { high } else { raised }
    }

    #[verifier::when_used_as_spec(zero_spec)]
    pub fn zero() -> (r: Float64)
        ensures
            r == Float64::zero_spec(),
    {
        Float64 { bits: 0 }
    }

    pub open spec fn zero_spec() -> Float64 {
        Float64 { bits: 0 }
    }

    #[verifier::when_used_as_spec(infinity_spec)]
    pub fn infinity() -> (r: Float64)
        ensures
            r == Float64::infinity_spec(),
    {
        Float64 { bits: F64_INFINITY }
    }

    pub open spec fn infinity_spec() -> Float64 {
        Float64 { bits: F64_INFINITY }
    }

    fn magnitude(self) -> (r: u64)
        ensures
            r == self.magnitude_spec(),
    {
        if self.bits >= F64_SIGN {
            self.bits - F64_SIGN
        } else {
            self.bits
        }
    }

    pub fn rank(self) -> (r: i64)
        ensures
            r == self.rank_spec(),
    {
        if self.bits >= F64_SIGN {
            -((self.bits - F64_SIGN) as i64)
        } else {
            self.bits as i64
        }
    }

    #[verifier::when_used_as_spec(is_nan_spec)]
    pub fn is_nan(self) -> (r: bool)
        ensures
            r == self.is_nan_spec(),
    {
        self.magnitude() > F64_INFINITY
    }

    #[verifier::when_used_as_spec(is_finite_spec)]
    pub fn is_finite(self) -> (r: bool)
        ensures
            r == self.is_finite_spec(),
    {
        self.magnitude() < F64_INFINITY
    }

    #[verifier::when_used_as_spec(lt_spec)]
    pub fn lt(self, other: Float64) -> (r: bool)
        ensures
            r == self.lt_spec(other),
    {
        !self.is_nan() && !other.is_nan() && self.rank() < other.rank()
    }

    #[verifier::when_used_as_spec(le_spec)]
    pub fn le(self, other: Float64) -> (r: bool)
        ensures
            r == self.le_spec(other),
    {
        !self.is_nan() && !other.is_nan() && self.rank() <= other.rank()
    }

    #[verifier::when_used_as_spec(equals_spec)]
    pub fn equals(self, other: Float64) -> (r: bool)
        ensures
            r == self.equals_spec(other),
    {
        !self.is_nan() && !other.is_nan() && self.rank() == other.rank()
    }

    pub fn total_rank(self) -> (r: i64)
        ensures
            r == self.total_rank_spec(),
    {
        if self.bits >= F64_SIGN {
            -((self.bits - F64_SIGN) as i64) - 1
        } else {
            self.bits as i64
        }
    }

    /// Whether this bit pattern comes no later than `other` in the total order.
    pub fn total_le(self, other: Float64) -> (r: bool)
        ensures
            r == (self.total_rank_spec() <= other.total_rank_spec()),
    {
        if self.bits >= F64_SIGN {
            other.bits < F64_SIGN || other.bits <= self.bits
        } else {
            other.bits < F64_SIGN && self.bits <= other.bits
        }
    }

    #[verifier::when_used_as_spec(abs_spec)]
    pub fn abs(self) -> (r: Float64)
        ensures
            r == self.abs_spec(),
    {
        Float64 { bits: self.magnitude() }
    }

    #[verifier::when_used_as_spec(neg_spec)]
    pub fn neg(self) -> (r: Float64)
        ensures
            r == self.neg_spec(),
    {
        if self.bits >= F64_SIGN {
            Float64 { bits: self.bits - F64_SIGN }
        } else {
            Float64 { bits: self.bits + F64_SIGN }
        }
    }

    #[verifier::when_used_as_spec(min_spec)]
    pub fn min(self, other: Float64) -> (r: Float64)
        ensures
            r == self.min_spec(other),
    {
        if self.is_nan() || other.lt(self) {
            other
        } else {
            self
        }
    }

    #[verifier::when_used_as_spec(max_spec)]
    pub fn max(self, other: Float64) -> (r: Float64)
        ensures
            r == self.max_spec(other),
    {
        if self.is_nan() || self.lt(other) {
            other
        } else {
            self
        }
    }

    #[verifier::when_used_as_spec(clamp_spec)]
    pub fn clamp(self, low: Float64, high: Float64) -> (r: Float64)
        ensures
            r == self.clamp_spec(low, high),
    {
        let raised = if self.lt(low) { low } else { self };
        if high.lt(raised) { high } else { raised }
    }
}

// ---------------------------------------------------------------------------
// What the comparisons are
// ---------------------------------------------------------------------------

/// Positive numbers are ordered as their bits are, and a number with the sign bit is below
/// every positive one. The infinities are the ends of the order.
pub proof fn single_numbers_are_ordered_by_value(a: Float32, b: Float32)
    ensures
        a.bits <= 0x7f80_0000 && b.bits <= 0x7f80_0000 ==> (a.lt_spec(b) <==> a.bits < b.bits),
        0x8000_0000 <= a.bits <= 0x8000_0000 + 0x7f80_0000 && 0x8000_0000 <= b.bits <= 0x8000_0000 + 0x7f80_0000 ==> (a.lt_spec(
            b,
        ) <==> b.bits < a.bits),
        0x8000_0000 < a.bits <= 0x8000_0000 + 0x7f80_0000 && b.bits <= 0x7f80_0000 ==> a.lt_spec(b),
        a.bits == 0x8000_0000 && b.bits == 0 ==> a.equals_spec(b),
        a.is_finite_spec() ==> a.lt_spec(Float32::infinity_spec()) && Float32::infinity_spec().neg_spec().lt_spec(
            a,
        ),
        a.bits == 0x7f80_0000 || a.bits == 0x8000_0000 + 0x7f80_0000 ==> !a.is_finite_spec() && !a.is_nan_spec(),
{
}

/// Of two numbers exactly one relation holds; nothing holds of what is no number.
pub proof fn single_numbers_compare_in_one_way(a: Float32, b: Float32, c: Float32)
    ensures
        a.is_nan_spec() || b.is_nan_spec() ==> !a.lt_spec(b) && !a.le_spec(b) && !a.equals_spec(b),
        !a.is_nan_spec() && !b.is_nan_spec() ==> {
            &&& a.lt_spec(b) || b.lt_spec(a) || a.equals_spec(b)
            &&& !(a.lt_spec(b) && b.lt_spec(a))
            &&& !(a.lt_spec(b) && a.equals_spec(b))
            &&& a.le_spec(b) <==> !b.lt_spec(a)
        },
        a.le_spec(b) && b.le_spec(c) ==> a.le_spec(c),
        a.is_finite_spec() ==> !a.is_nan_spec(),
{
}

/// Changing the sign reverses the order and undoes itself; what is left without a sign is
/// not negative, and is the number or its opposite.
pub proof fn single_signs_reverse_the_order(a: Float32, b: Float32)
    ensures
        a.neg_spec() != a,
        a.neg_spec().neg_spec() == a,
        a.lt_spec(b) <==> b.neg_spec().lt_spec(a.neg_spec()),
        !a.is_nan_spec() ==> Float32::zero_spec().le_spec(a.abs_spec()),
        a.abs_spec() == a || a.abs_spec() == a.neg_spec(),
        a.neg_spec().abs_spec() == a.abs_spec(),
{
}

/// The smaller and the larger of two numbers are one of them each and bound both, and
/// what is no number is passed over. A number between the limits stays, and any other
/// goes to the limit that it is beyond.
pub proof fn single_numbers_have_a_smaller_and_a_larger(a: Float32, b: Float32, c: Float32)
    ensures
        !a.is_nan_spec() && !b.is_nan_spec() ==> {
            &&& a.min_spec(b).le_spec(a) && a.min_spec(b).le_spec(b)
            &&& a.le_spec(a.max_spec(b)) && b.le_spec(a.max_spec(b))
        },
        a.min_spec(b) == a || a.min_spec(b) == b,
        a.max_spec(b) == a || a.max_spec(b) == b,
        a.is_nan_spec() ==> a.min_spec(b) == b && a.max_spec(b) == b,
        b.is_nan_spec() && !a.is_nan_spec() ==> a.min_spec(b) == a && a.max_spec(b) == a,
        b.le_spec(a) && a.le_spec(c) ==> a.clamp_spec(b, c) == a,
        b.le_spec(c) && a.lt_spec(b) ==> a.clamp_spec(b, c) == b,
        b.le_spec(c) && c.lt_spec(a) ==> a.clamp_spec(b, c) == c,
{
}

/// The order of all bit patterns agrees with that of the numbers, puts the negative zero
/// before the other, and tells any two patterns apart.
pub proof fn single_patterns_are_in_a_total_order(a: Float32, b: Float32)
    ensures
        a.lt_spec(b) ==> a.total_rank_spec() < b.total_rank_spec(),
        a.total_rank_spec() == b.total_rank_spec() ==> a == b,
        a.bits == 0x8000_0000 && b.bits == 0 ==> a.total_rank_spec() < b.total_rank_spec(),
{
}

/// Positive numbers are ordered as their bits are, and a number with the sign bit is below
/// every positive one. The infinities are the ends of the order.
pub proof fn double_numbers_are_ordered_by_value(a: Float64, b: Float64)
    ensures
        a.bits <= 0x7ff0_0000_0000_0000 && b.bits <= 0x7ff0_0000_0000_0000 ==> (a.lt_spec(b) <==> a.bits < b.bits),
        0x8000_0000_0000_0000 <= a.bits <= 0x8000_0000_0000_0000 + 0x7ff0_0000_0000_0000 && 0x8000_0000_0000_0000 <= b.bits <= 0x8000_0000_0000_0000 + 0x7ff0_0000_0000_0000 ==> (a.lt_spec(
            b,
        ) <==> b.bits < a.bits),
        0x8000_0000_0000_0000 < a.bits <= 0x8000_0000_0000_0000 + 0x7ff0_0000_0000_0000 && b.bits <= 0x7ff0_0000_0000_0000 ==> a.lt_spec(b),
        a.bits == 0x8000_0000_0000_0000 && b.bits == 0 ==> a.equals_spec(b),
        a.is_finite_spec() ==> a.lt_spec(Float64::infinity_spec()) && Float64::infinity_spec().neg_spec().lt_spec(
            a,
        ),
        a.bits == 0x7ff0_0000_0000_0000 || a.bits == 0x8000_0000_0000_0000 + 0x7ff0_0000_0000_0000 ==> !a.is_finite_spec() && !a.is_nan_spec(),
{
}

/// Of two numbers exactly one relation holds; nothing holds of what is no number.
pub proof fn double_numbers_compare_in_one_way(a: Float64, b: Float64, c: Float64)
    ensures
        a.is_nan_spec() || b.is_nan_spec() ==> !a.lt_spec(b) && !a.le_spec(b) && !a.equals_spec(b),
        !a.is_nan_spec() && !b.is_nan_spec() ==> {
            &&& a.lt_spec(b) || b.lt_spec(a) || a.equals_spec(b)
            &&& !(a.lt_spec(b) && b.lt_spec(a))
            &&& !(a.lt_spec(b) && a.equals_spec(b))
            &&& a.le_spec(b) <==> !b.lt_spec(a)
        },
        a.le_spec(b) && b.le_spec(c) ==> a.le_spec(c),
        a.is_finite_spec() ==> !a.is_nan_spec(),
{
}

/// Changing the sign reverses the order and undoes itself; what is left without a sign is
/// not negative, and is the number or its opposite.
pub proof fn double_signs_reverse_the_order(a: Float64, b: Float64)
    ensures
        a.neg_spec() != a,
        a.neg_spec().neg_spec() == a,
        a.lt_spec(b) <==> b.neg_spec().lt_spec(a.neg_spec()),
        !a.is_nan_spec() ==> Float64::zero_spec().le_spec(a.abs_spec()),
        a.abs_spec() == a || a.abs_spec() == a.neg_spec(),
        a.neg_spec().abs_spec() == a.abs_spec(),
{
}

/// The smaller and the larger of two numbers are one of them each and bound both, and
/// what is no number is passed over. A number between the limits stays, and any other
/// goes to the limit that it is beyond.
pub proof fn double_numbers_have_a_smaller_and_a_larger(a: Float64, b: Float64, c: Float64)
    ensures
        !a.is_nan_spec() && !b.is_nan_spec() ==> {
            &&& a.min_spec(b).le_spec(a) && a.min_spec(b).le_spec(b)
            &&& a.le_spec(a.max_spec(b)) && b.le_spec(a.max_spec(b))
        },
        a.min_spec(b) == a || a.min_spec(b) == b,
        a.max_spec(b) == a || a.max_spec(b) == b,
        a.is_nan_spec() ==> a.min_spec(b) == b && a.max_spec(b) == b,
        b.is_nan_spec() && !a.is_nan_spec() ==> a.min_spec(b) == a && a.max_spec(b) == a,
        b.le_spec(a) && a.le_spec(c) ==> a.clamp_spec(b, c) == a,
        b.le_spec(c) && a.lt_spec(b) ==> a.clamp_spec(b, c) == b,
        b.le_spec(c) && c.lt_spec(a) ==> a.clamp_spec(b, c) == c,
{
}

/// The order of all bit patterns agrees with that of the numbers, puts the negative zero
/// before the other, and tells any two patterns apart.
pub proof fn double_patterns_are_in_a_total_order(a: Float64, b: Float64)
    ensures
        a.lt_spec(b) ==> a.total_rank_spec() < b.total_rank_spec(),
        a.total_rank_spec() == b.total_rank_spec() ==> a == b,
        a.bits == 0x8000_0000_0000_0000 && b.bits == 0 ==> a.total_rank_spec() < b.total_rank_spec(),
{
}

} // verus!
