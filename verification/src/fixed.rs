//! Fixed-point arithmetic: a [`Scalar`] whose every operation is spelled out.
use vstd::prelude::*;

use crate::animation::TimeTransition;
use crate::batches::spec_quad_depth;
use crate::line_laws::{offsets_add_up, subtraction_is_undone};
use crate::number_laws::{depth_step, depths_grow, exact_around, whole_number};
use crate::scalar::{spec_one, spec_zero, Scalar};
use crate::scene_model::MAX_DEPTH_PARTITIONED_QUADS;
use crate::text_paint::comparisons_chain;
use crate::transform::units_are_neutral;
use crate::util::spec_round_half_toward_zero;

verus! {

/// A multiple of 1/65536.
#[derive(Clone, Copy, Debug, PartialEq, Eq, Structural, PartialOrd, Ord)]
pub struct Fixed {
    /// How many 65536ths.
    pub raw: i64,
}

/// The curves that fixed-point progress can follow.
#[derive(Clone, Copy, Debug, PartialEq, Eq, Structural)]
pub enum FixedEasing {
    /// Progress as it is.
    Linear,
    /// The square of progress.
    Quadratic,
}

/// The nearest number that a 64-bit counter can hold.
pub open spec fn saturated(value: int) -> i64 {
    if value > i64::MAX {
        i64::MAX
    } else if value < i64::MIN {
        i64::MIN
    } else {
        value as i64
    }
}

/// The number that a 64-bit counter which wraps around shows.
pub open spec fn wrapped_around(value: int) -> i64 {
    if value > i64::MAX {
        (value - 0x1_0000_0000_0000_0000) as i64
    } else if value < i64::MIN {
        (value + 0x1_0000_0000_0000_0000) as i64
    } else {
        value as i64
    }
}

/// A quotient without its fraction.
pub open spec fn quotient(numerator: int, denominator: int) -> int {
    let n = magnitude(numerator);
    let d = magnitude(denominator);
    if (numerator < 0) == (denominator < 0) {
        n / d
    } else {
        -(n / d)
    }
}

/// A number without its sign.
pub open spec fn magnitude(value: int) -> int {
    if value < 0 {
        -value
    } else {
        value
    }
}

fn magnitude_of(value: i64) -> (result: u128)
    ensures
        result == magnitude(value as int),
        result <= 0x8000_0000_0000_0000,
{
    if value < 0 {
        (-(value as i128)) as u128
    } else {
        value as u128
    }
}

fn saturate(negative: bool, magnitude: u128) -> (result: i64)
    ensures
        result == saturated(
            if negative {
                -(magnitude as int)
            } else {
                magnitude as int
            },
        ),
{
    if negative {
        if magnitude >= 0x8000_0000_0000_0000 {
            i64::MIN
        } else {
            -(magnitude as i64)
        }
    } else if magnitude > 0x7fff_ffff_ffff_ffff {
        i64::MAX
    } else {
        magnitude as i64
    }
}

fn wrap_around(value: i128) -> (result: i64)
    requires
        -0x1_0000_0000_0000_0000 <= value <= 0x1_0000_0000_0000_0000 - 1,
    ensures
        result == wrapped_around(value as int),
{
    if value > 0x7fff_ffff_ffff_ffff {
        (value - 0x1_0000_0000_0000_0000) as i64
    } else if value < -0x8000_0000_0000_0000 {
        (value + 0x1_0000_0000_0000_0000) as i64
    } else {
        value as i64
    }
}

/// How far a number is above the next whole one below.
fn fraction_of(raw: i64) -> (result: i64)
    ensures
        result == raw as int % 65536,
        0 <= result < 65536,
{
    if raw >= 0 {
        raw % 65536
    } else {
        let rest: u128 = magnitude_of(raw) % 65536;
        if rest == 0 {
            0
        } else {
            65536 - rest as i64
        }
    }
}

impl Fixed {
    /// The number of these 65536ths.
    pub fn new(raw: i64) -> (result: Self)
        ensures
            result.raw == raw,
    {
        Fixed { raw }
    }
}

impl Scalar for Fixed {
    type Easing = FixedEasing;

    open spec fn spec_ratio(numerator: u32, denominator: u32) -> Self {
        Fixed { raw: saturated(quotient(numerator * 65536, denominator as int)) }
    }

    open spec fn spec_plus(self, other: Self) -> Self {
        Fixed { raw: wrapped_around(self.raw + other.raw) }
    }

    open spec fn spec_minus(self, other: Self) -> Self {
        Fixed { raw: wrapped_around(self.raw - other.raw) }
    }

    open spec fn spec_times(self, other: Self) -> Self {
        Fixed { raw: saturated(quotient(self.raw * other.raw, 65536)) }
    }

    open spec fn spec_over(self, other: Self) -> Self {
        if other.raw == 0 {
            Fixed { raw: 0 }
        } else {
            Fixed { raw: saturated(quotient(self.raw * 65536, other.raw as int)) }
        }
    }

    open spec fn spec_negated(self) -> Self {
        Fixed { raw: wrapped_around(-self.raw) }
    }

    open spec fn spec_abs(self) -> Self {
        Fixed { raw: saturated(magnitude(self.raw as int)) }
    }

    open spec fn spec_ceil(self) -> Self {
        Fixed { raw: saturated((self.raw + 65535) / 65536 * 65536) }
    }

    open spec fn spec_floor(self) -> Self {
        Fixed { raw: saturated(self.raw as int / 65536 * 65536) }
    }

    open spec fn spec_copysign(self, sign: Self) -> Self {
        Fixed {
            raw: saturated(
                if sign.raw < 0 {
                    -magnitude(self.raw as int)
                } else {
                    magnitude(self.raw as int)
                },
            ),
        }
    }

    open spec fn spec_wrap_unit(self) -> Self {
        Fixed { raw: (self.raw as int % 65536) as i64 }
    }

    open spec fn spec_least(self, other: Self) -> Self {
        if other.raw < self.raw {
            other
        } else {
            self
        }
    }

    open spec fn spec_greatest(self, other: Self) -> Self {
        if other.raw > self.raw {
            other
        } else {
            self
        }
    }

    open spec fn spec_lt(self, other: Self) -> bool {
        self.raw < other.raw
    }

    open spec fn spec_le(self, other: Self) -> bool {
        self.raw <= other.raw
    }

    open spec fn spec_same(self, other: Self) -> bool {
        self.raw == other.raw
    }

    open spec fn spec_seconds(nanos: u64) -> Self {
        Fixed { raw: (nanos * 65536 / 1_000_000_000) as i64 }
    }

    open spec fn spec_cycle_fraction(elapsed: u64, period: u64) -> Self {
        Fixed { raw: ((elapsed as int % period as int) * 65536 / period as int) as i64 }
    }

    open spec fn spec_linear() -> FixedEasing {
        FixedEasing::Linear
    }

    open spec fn spec_ease(easing: FixedEasing, progress: Self) -> Self {
        match easing {
            FixedEasing::Linear => progress,
            FixedEasing::Quadratic => progress.spec_times(progress),
        }
    }

    fn ratio(numerator: u32, denominator: u32) -> (result: Self) {
        let raw: u128 = numerator as u128 * 65536 / denominator as u128;
        Fixed { raw: saturate(false, raw) }
    }

    fn plus(self, other: Self) -> (result: Self) {
        Fixed { raw: wrap_around(self.raw as i128 + other.raw as i128) }
    }

    fn minus(self, other: Self) -> (result: Self) {
        Fixed { raw: wrap_around(self.raw as i128 - other.raw as i128) }
    }

    fn times(self, other: Self) -> (result: Self) {
        let a: u128 = magnitude_of(self.raw);
        let b: u128 = magnitude_of(other.raw);
        proof {
            lemma_product(self.raw as int, other.raw as int);
        }
        let product: u128 = a * b / 65536;
        let negative: bool = (self.raw < 0) != (other.raw < 0) && self.raw != 0 && other.raw != 0;
        Fixed { raw: saturate(negative, product) }
    }

    fn over(self, other: Self) -> (result: Self) {
        if other.raw == 0 {
            return Fixed { raw: 0 };
        }
        let a: u128 = magnitude_of(self.raw) * 65536;
        let b: u128 = magnitude_of(other.raw);
        let negative: bool = (self.raw < 0) != (other.raw < 0);
        Fixed { raw: saturate(negative, a / b) }
    }

    fn negated(self) -> (result: Self) {
        Fixed { raw: wrap_around(-(self.raw as i128)) }
    }

    fn abs(self) -> (result: Self) {
        Fixed { raw: saturate(false, magnitude_of(self.raw)) }
    }

    fn ceil(self) -> (result: Self) {
        let fraction: i64 = fraction_of(self.raw);
        if fraction == 0 {
            self
        } else if self.raw > i64::MAX - 65536 {
            Fixed {
                raw: if self.raw - fraction > i64::MAX - 65536 {
                    i64::MAX
                } else {
                    self.raw - fraction + 65536
                },
            }
        } else {
            Fixed { raw: self.raw - fraction + 65536 }
        }
    }

    fn floor(self) -> (result: Self) {
        Fixed { raw: self.raw - fraction_of(self.raw) }
    }

    fn copysign(self, sign: Self) -> (result: Self) {
        Fixed { raw: saturate(sign.raw < 0, magnitude_of(self.raw)) }
    }

    fn wrap_unit(self) -> (result: Self) {
        Fixed { raw: fraction_of(self.raw) }
    }

    fn least(self, other: Self) -> (result: Self) {
        if other.raw < self.raw {
            other
        } else {
            self
        }
    }

    fn greatest(self, other: Self) -> (result: Self) {
        if other.raw > self.raw {
            other
        } else {
            self
        }
    }

    fn lt(self, other: Self) -> (result: bool) {
        self.raw < other.raw
    }

    fn le(self, other: Self) -> (result: bool) {
        self.raw <= other.raw
    }

    fn same(self, other: Self) -> (result: bool) {
        self.raw == other.raw
    }

    fn seconds(nanos: u64) -> (result: Self) {
        Fixed { raw: (nanos as u128 * 65536 / 1_000_000_000) as i64 }
    }

    fn cycle_fraction(elapsed: u64, period: u64) -> (result: Self) {
        let into: u64 = elapsed % period;
        let scaled: u128 = into as u128 * 65536;
        proof {
            assert(scaled / (period as u128) < 65536) by (nonlinear_arith)
                requires
                    scaled == into * 65536,
                    into < period,
                    period > 0,
            ;
        }
        Fixed { raw: (scaled / period as u128) as i64 }
    }

    fn linear() -> (result: FixedEasing) {
        FixedEasing::Linear
    }

    fn ease(easing: FixedEasing, progress: Self) -> (result: Self) {
        match easing {
            FixedEasing::Linear => progress,
            FixedEasing::Quadratic => progress.times(progress),
        }
    }
}

proof fn lemma_product(a: int, b: int)
    requires
        i64::MIN <= a <= i64::MAX,
        i64::MIN <= b <= i64::MAX,
    ensures
        magnitude(a) * magnitude(b) <= 0x4000_0000_0000_0000_0000_0000_0000_0000,
        magnitude(a) * magnitude(b) == magnitude(a * b),
        (a * b < 0) == ((a < 0) != (b < 0) && a != 0 && b != 0),
        0 <= magnitude(a) * magnitude(b),
{
    let m = magnitude(a);
    let n = magnitude(b);
    assert(m * n <= 0x8000_0000_0000_0000 * 0x8000_0000_0000_0000) by (nonlinear_arith)
        requires
            0 <= m <= 0x8000_0000_0000_0000,
            0 <= n <= 0x8000_0000_0000_0000,
    ;
    assert(0 <= m * n) by (nonlinear_arith)
        requires
            0 <= m,
            0 <= n,
    ;
    assert(m * n == magnitude(a * b) && ((a * b < 0) == ((a < 0) != (b < 0) && a != 0 && b != 0)))
        by (nonlinear_arith)
        requires
            m == (if a < 0 {
                -a
            } else {
                a
            }),
            n == (if b < 0 {
                -b
            } else {
                b
            }),
    ;
}

/// Fixed-point numbers come back when what was taken away is added.
pub proof fn law_fixed_subtraction_is_undone()
    ensures
        subtraction_is_undone::<Fixed>(),
{
}

/// Offsets of fixed-point numbers add up.
pub proof fn law_fixed_offsets_add_up()
    ensures
        offsets_add_up::<Fixed>(),
{
    lemma_ratios();
    assert forall|x: Fixed, a: Fixed, b: Fixed| #[trigger]
        x.spec_minus(a).spec_minus(b.spec_minus(a)) == x.spec_minus(b) by {}
}

/// Zero and one are neutral among fixed-point numbers.
pub proof fn law_fixed_units_are_neutral()
    ensures
        units_are_neutral::<Fixed>(),
{
    lemma_ratios();
    assert forall|a: Fixed| #[trigger] spec_one::<Fixed>().spec_times(a) == a by {
        let product = 65536 * a.raw;
        assert(magnitude(product) == 65536 * magnitude(a.raw as int));
        assert(magnitude(product) / magnitude(65536) == magnitude(a.raw as int));
    }
    assert forall|a: Fixed| #[trigger]
        spec_zero::<Fixed>().spec_times(a) == spec_zero::<Fixed>() by {
        assert(0 * a.raw == 0);
        assert(magnitude(0) / magnitude(65536) == 0);
    }
}

/// Comparisons of fixed-point numbers chain.
pub proof fn law_fixed_comparisons_chain()
    ensures
        comparisons_chain::<Fixed>(),
{
}

/// Every quad that a frame can partition has a depth of its own, above zero and not
/// above one, and a later quad is closer: its depth is as many of the smallest steps as
/// there are quads up to it, which is a number of 16 bits other than zero.
pub proof fn law_fixed_quad_depths_are_distinct(a: u32, b: u32)
    requires
        a < b <= MAX_DEPTH_PARTITIONED_QUADS,
    ensures
        spec_zero::<Fixed>().spec_lt(spec_quad_depth::<Fixed>(a)),
        spec_quad_depth::<Fixed>(a).spec_lt(spec_quad_depth::<Fixed>(b)),
        spec_quad_depth::<Fixed>(b).spec_le(spec_one::<Fixed>()),
        spec_quad_depth::<Fixed>(a).raw == a + 1,
        0 < spec_quad_depth::<Fixed>(b).raw <= u16::MAX,
{
    lemma_fixed_depth(a);
    lemma_fixed_depth(b);
}

/// The ratios that lengths and depths are made of.
proof fn lemma_ratios()
    ensures
        Fixed::spec_ratio(0, 1).raw == 0,
        Fixed::spec_ratio(1, 1).raw == 65536,
        Fixed::spec_ratio(1, 2).raw == 32768,
        Fixed::spec_ratio(1, 65535).raw == 1,
{
    assert(quotient(0, 1) == 0) by {
        assert(0int / 1 == 0);
    }
    assert(quotient(65536, 1) == 65536) by {
        assert(65536int / 1 == 65536);
    }
    assert(quotient(65536, 2) == 32768) by {
        assert(65536int / 2 == 32768);
    }
    assert(quotient(65536, 65535) == 1) by {
        assert(65536int / 65535 == 1);
    }
}

proof fn lemma_fixed_depth(quad_id: u32)
    requires
        quad_id <= MAX_DEPTH_PARTITIONED_QUADS,
    ensures
        spec_quad_depth::<Fixed>(quad_id).raw == quad_id + 1,
{
    lemma_ratios();
    let scaled = (quad_id + 1) * 65536;
    assert(quotient(scaled, 1) == scaled) by {
        assert(scaled / 1 == scaled);
    }
    assert(quotient(scaled * 1, 65536) == quad_id + 1) by {
        assert(scaled / 65536 == quad_id + 1);
    }
}

/// Whole fixed-point numbers can be scaled to depths.
pub proof fn law_fixed_depths_grow()
    ensures
        depths_grow::<Fixed>(),
{
    lemma_ratios();
    assert forall|a: int| 0 <= a <= 65535 implies (#[trigger] whole_number::<Fixed>(a).spec_times(
        depth_step(),
    )).raw == a by {
        let scaled = a * 65536;
        assert(quotient(scaled, 1) == scaled) by {
            assert(scaled / 1 == scaled);
        }
        assert(quotient(scaled * 1, 65536) == a) by {
            assert(scaled / 65536 == a);
        }
    }
}

/// Fixed-point arithmetic is exact around every number that is not too large.
pub proof fn law_fixed_exact_around(value: Fixed)
    requires
        -0x7fff_ffff_0000_0000 <= value.raw <= 0x7fff_ffff_0000_0000,
    ensures
        exact_around(value),
{
    lemma_ratios();
    let m = magnitude(value.raw as int);
    let whole = m / 65536 * 65536;
    assert(value.spec_abs().raw == m);
    assert(value.spec_abs().spec_floor().raw == whole);
    assert(whole / 65536 * 65536 == whole);
    assert((whole + 65536) / 65536 * 65536 == whole + 65536);
}

/// A transition has landed when its time is over: from then on its progress is
/// complete.
pub proof fn law_fixed_transitions_land(transition: TimeTransition<Fixed>, now: u64)
    requires
        now >= transition.spec_ends_at(),
    ensures
        transition.spec_progress_at(now) == spec_one::<Fixed>(),
{
    lemma_ratios();
    let duration = Fixed::spec_seconds(transition.duration);
    let elapsed = Fixed::spec_seconds(transition.spec_elapsed(now));
    if duration.raw > 0 {
        let e = elapsed.raw as int;
        let d = duration.raw as int;
        assert(e >= d);
        assert(quotient(e * 65536, d) >= 65536) by {
            assert(e * 65536 / d >= 65536) by (nonlinear_arith)
                requires
                    e >= d,
                    d > 0,
            ;
        }
    }
}

/// Rounding gives a whole number that is at most one half away, and of two whole
/// numbers that are just as near, the one nearer to zero.
pub proof fn law_fixed_rounding(value: Fixed)
    requires
        -0x7fff_ffff_0000_0000 <= value.raw <= 0x7fff_ffff_0000_0000,
    ensures
        ({
            let rounded = spec_round_half_toward_zero(value).raw as int;
            let distance = magnitude(rounded - value.raw);
            &&& rounded % 65536 == 0
            &&& distance <= 32768
            &&& distance == 32768 ==> magnitude(rounded) < magnitude(value.raw as int)
        }),
{
    lemma_ratios();
    let m = magnitude(value.raw as int);
    let whole = m / 65536 * 65536;
    assert(whole % 65536 == 0);
    assert(value.spec_abs().raw == m);
    assert(value.spec_abs().spec_floor().raw == whole);
}

} // verus!
