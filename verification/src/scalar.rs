//! The arithmetic that coordinates, opacities and colours are computed with.
use vstd::prelude::*;

verus! {

/// A number that measures lengths, positions, opacities and phases.
///
/// The library never looks inside such a number: it combines numbers with the
/// operations below, and its contracts name the same operations through their
/// specification functions. All that is asked of an implementation is that
/// each operation is a function of its operands, the one that its specification
/// function is. Rounding, overflow and values
/// that compare unequal to themselves are the implementation's own affair.
pub trait Scalar: Sized + Copy {
    /// A curve from linear progress to eased progress.
    type Easing: Copy;

    spec fn spec_ratio(numerator: u32, denominator: u32) -> Self;

    spec fn spec_plus(self, other: Self) -> Self;

    spec fn spec_minus(self, other: Self) -> Self;

    spec fn spec_times(self, other: Self) -> Self;

    spec fn spec_over(self, other: Self) -> Self;

    spec fn spec_negated(self) -> Self;

    spec fn spec_abs(self) -> Self;

    spec fn spec_ceil(self) -> Self;

    spec fn spec_floor(self) -> Self;

    spec fn spec_copysign(self, sign: Self) -> Self;

    spec fn spec_wrap_unit(self) -> Self;

    spec fn spec_least(self, other: Self) -> Self;

    spec fn spec_greatest(self, other: Self) -> Self;

    spec fn spec_lt(self, other: Self) -> bool;

    spec fn spec_le(self, other: Self) -> bool;

    spec fn spec_same(self, other: Self) -> bool;

    spec fn spec_seconds(nanos: u64) -> Self;

    spec fn spec_cycle_fraction(elapsed: u64, period: u64) -> Self;

    spec fn spec_linear() -> Self::Easing;

    spec fn spec_ease(easing: Self::Easing, progress: Self) -> Self;

    /// The number `numerator / denominator`.
    fn ratio(numerator: u32, denominator: u32) -> (result: Self)
        requires
            denominator > 0,
        ensures
            result == Self::spec_ratio(numerator, denominator),
    ;

    /// The sum.
    fn plus(self, other: Self) -> (result: Self)
        ensures
            result == self.spec_plus(other),
    ;

    /// The difference.
    fn minus(self, other: Self) -> (result: Self)
        ensures
            result == self.spec_minus(other),
    ;

    /// The product.
    fn times(self, other: Self) -> (result: Self)
        ensures
            result == self.spec_times(other),
    ;

    /// The quotient.
    fn over(self, other: Self) -> (result: Self)
        ensures
            result == self.spec_over(other),
    ;

    /// The number of the opposite sign.
    fn negated(self) -> (result: Self)
        ensures
            result == self.spec_negated(),
    ;

    /// The magnitude.
    fn abs(self) -> (result: Self)
        ensures
            result == self.spec_abs(),
    ;

    /// The least whole number that is not below this one.
    fn ceil(self) -> (result: Self)
        ensures
            result == self.spec_ceil(),
    ;

    /// The greatest whole number that is not above this one.
    fn floor(self) -> (result: Self)
        ensures
            result == self.spec_floor(),
    ;

    /// This number's magnitude with the sign of `sign`.
    fn copysign(self, sign: Self) -> (result: Self)
        ensures
            result == self.spec_copysign(sign),
    ;

    /// The distance above the next whole number below, in `0..1`.
    fn wrap_unit(self) -> (result: Self)
        ensures
            result == self.spec_wrap_unit(),
    ;

    /// The smaller of the two.
    fn least(self, other: Self) -> (result: Self)
        ensures
            result == self.spec_least(other),
    ;

    /// The larger of the two.
    fn greatest(self, other: Self) -> (result: Self)
        ensures
            result == self.spec_greatest(other),
    ;

    /// Whether this number is below `other`.
    fn lt(self, other: Self) -> (result: bool)
        ensures
            result == self.spec_lt(other),
    ;

    /// Whether this number is below `other` or equal to it.
    fn le(self, other: Self) -> (result: bool)
        ensures
            result == self.spec_le(other),
    ;

    /// Whether the two numbers are equal.
    fn same(self, other: Self) -> (result: bool)
        ensures
            result == self.spec_same(other),
    ;

    /// A duration in seconds.
    fn seconds(nanos: u64) -> (result: Self)
        ensures
            result == Self::spec_seconds(nanos),
    ;

    /// How far through a cycle of `period` nanoseconds a clock that has run for
    /// `elapsed` nanoseconds is, in `0..1`.
    fn cycle_fraction(elapsed: u64, period: u64) -> (result: Self)
        requires
            period > 0,
        ensures
            result == Self::spec_cycle_fraction(elapsed, period),
    ;

    /// The curve that leaves progress as it is.
    fn linear() -> (result: Self::Easing)
        ensures
            result == Self::spec_linear(),
    ;

    /// Follows `easing` at `progress`.
    fn ease(easing: Self::Easing, progress: Self) -> (result: Self)
        ensures
            result == Self::spec_ease(easing, progress),
    ;
}

/// Zero, in the arithmetic of `F`.
pub open spec fn spec_zero<F: Scalar>() -> F {
    F::spec_ratio(0, 1)
}

/// One, in the arithmetic of `F`.
pub open spec fn spec_one<F: Scalar>() -> F {
    F::spec_ratio(1, 1)
}

/// One half, in the arithmetic of `F`.
pub open spec fn spec_one_half<F: Scalar>() -> F {
    F::spec_ratio(1, 2)
}

/// Two, in the arithmetic of `F`.
pub open spec fn spec_two<F: Scalar>() -> F {
    F::spec_ratio(2, 1)
}

/// `value` held between `low` and `high`.
pub open spec fn spec_clamp<F: Scalar>(value: F, low: F, high: F) -> F {
    if value.spec_lt(low) {
        low
    } else if high.spec_lt(value) {
        high
    } else {
        value
    }
}

/// Zero.
pub fn zero<F: Scalar>() -> (result: F)
    ensures
        result == spec_zero::<F>(),
{
    F::ratio(0, 1)
}

/// One.
pub fn one<F: Scalar>() -> (result: F)
    ensures
        result == spec_one::<F>(),
{
    F::ratio(1, 1)
}

/// One half.
pub fn one_half<F: Scalar>() -> (result: F)
    ensures
        result == spec_one_half::<F>(),
{
    F::ratio(1, 2)
}

/// Two.
pub fn two<F: Scalar>() -> (result: F)
    ensures
        result == spec_two::<F>(),
{
    F::ratio(2, 1)
}

/// Holds `value` between `low` and `high`; a value that compares with neither
/// stays as it is.
pub fn clamp<F: Scalar>(value: F, low: F, high: F) -> (result: F)
    ensures
        result == spec_clamp(value, low, high),
{
    if value.lt(low) {
        low
    } else if high.lt(value) {
        high
    } else {
        value
    }
}

} // verus!
