//! What holds of rounding and of depths in any arithmetic that meets stated premises.
use vstd::prelude::*;

use crate::batches::spec_quad_depth;
use crate::scalar::{spec_one, spec_one_half, spec_zero, Scalar};
use crate::scene_model::MAX_DEPTH_PARTITIONED_QUADS;
use crate::util::spec_round_half_toward_zero;

verus! {

/// The magnitude of a rounded number.
pub open spec fn rounded_magnitude<F: Scalar>(value: F) -> F {
    let whole = value.spec_abs().spec_floor();
    if spec_one_half::<F>().spec_lt(value.spec_abs().spec_minus(whole)) {
        whole.spec_plus(spec_one())
    } else {
        whole
    }
}

/// Whether the arithmetic around `value` is exact: the whole numbers next to it are whole,
/// and what is left over compares with a half and adds up to one with what is missing.
pub open spec fn exact_around<F: Scalar>(value: F) -> bool {
    let half = spec_one_half::<F>();
    let magnitude = value.spec_abs();
    let whole = magnitude.spec_floor();
    let next = whole.spec_plus(spec_one());
    let left_over = magnitude.spec_minus(whole);
    let missing = next.spec_minus(magnitude);
    &&& whole.spec_floor() == whole
    &&& next.spec_floor() == next
    &&& half.spec_lt(left_over) || left_over.spec_le(half)
    &&& half.spec_lt(left_over) ==> missing.spec_lt(half)
    &&& !half.spec_lt(half)
}

/// Rounding gives a whole number, of the sign of what is rounded, that is at most one half
/// away; and of two whole numbers that are just as near, the one nearer to zero.
pub proof fn law_rounding_is_to_the_nearest<F: Scalar>(value: F)
    requires
        exact_around(value),
    ensures
        ({
            let half = spec_one_half::<F>();
            let magnitude = value.spec_abs();
            let whole = magnitude.spec_floor();
            let rounded = rounded_magnitude(value);
            &&& spec_round_half_toward_zero(value) == rounded.spec_copysign(value)
            &&& rounded.spec_floor() == rounded
            &&& rounded == whole && magnitude.spec_minus(rounded).spec_le(half) || rounded
                == whole.spec_plus(spec_one()) && rounded.spec_minus(magnitude).spec_lt(half)
            &&& magnitude.spec_minus(whole) == half ==> rounded == whole
        }),
{
}

/// Rounding leaves whole numbers as they are, where nothing is left over of them and a
/// number has its own sign.
pub proof fn law_whole_numbers_stay<F: Scalar>(value: F)
    requires
        value.spec_abs().spec_floor() == value.spec_abs(),
        !spec_one_half::<F>().spec_lt(value.spec_abs().spec_minus(value.spec_abs())),
        value.spec_abs().spec_copysign(value) == value,
    ensures
        spec_round_half_toward_zero(value) == value,
{
}

/// Rounding a number of the opposite sign gives the opposite, where magnitudes have no
/// sign and signs are opposite.
pub proof fn law_rounding_ignores_signs<F: Scalar>(value: F)
    requires
        value.spec_negated().spec_abs() == value.spec_abs(),
        rounded_magnitude(value).spec_copysign(value.spec_negated())
            == rounded_magnitude(value).spec_copysign(value).spec_negated(),
    ensures
        spec_round_half_toward_zero(value.spec_negated()) == spec_round_half_toward_zero(
            value,
        ).spec_negated(),
{
}

/// The whole number `count`.
pub open spec fn whole_number<F: Scalar>(count: int) -> F {
    F::spec_ratio(count as u32, 1)
}

/// The distance between the depths of two quads.
pub open spec fn depth_step<F: Scalar>() -> F {
    F::spec_ratio(1, 65535)
}

/// Whether whole numbers can be scaled to depths: they grow, scaling keeps them in order,
/// zero stays zero, none gets above one, and the smaller of a number and a larger one is
/// the first.
pub open spec fn depths_grow<F: Scalar>() -> bool {
    &&& forall|a: int, b: int|
        0 <= a < b <= 65535 ==> (#[trigger] whole_number::<F>(a).spec_times(
            depth_step(),
        )).spec_lt(#[trigger] whole_number::<F>(b).spec_times(depth_step()))
    &&& whole_number::<F>(0).spec_times(depth_step()) == spec_zero::<F>()
    &&& forall|a: int|
        0 <= a <= 65535 ==> (#[trigger] whole_number::<F>(a).spec_times(
            depth_step(),
        )).spec_le(spec_one())
    &&& forall|a: F| #[trigger]
        a.spec_le(spec_one()) ==> a.spec_least(spec_one()) == a
}

/// Whether scaling a depth back gives nearly `count`: what is in between is less than a
/// half, above or below.
pub open spec fn scales_back<F: Scalar>(count: int) -> bool {
    let half = spec_one_half::<F>();
    let back = whole_number::<F>(count).spec_times(depth_step()).spec_times(whole_number(65535));
    let before = whole_number::<F>(count - 1);
    &&& back.spec_abs() == back
    &&& whole_number::<F>(count).spec_copysign(back) == whole_number::<F>(count)
    &&& before.spec_plus(spec_one()) == whole_number::<F>(count)
    &&& {
        ||| back.spec_floor() == whole_number::<F>(count) && !half.spec_lt(
            back.spec_minus(whole_number(count)),
        )
        ||| back.spec_floor() == before && half.spec_lt(back.spec_minus(before))
    }
}

/// Every quad that a frame can partition has a depth of its own, above zero and not above
/// one, and a later quad is closer.
pub proof fn law_quad_depths_are_distinct<F: Scalar>(a: u32, b: u32)
    requires
        depths_grow::<F>(),
        a < b <= MAX_DEPTH_PARTITIONED_QUADS,
    ensures
        spec_zero::<F>().spec_lt(spec_quad_depth::<F>(a)),
        spec_quad_depth::<F>(a).spec_lt(spec_quad_depth::<F>(b)),
        spec_quad_depth::<F>(b).spec_le(spec_one::<F>()),
{
    let x = whole_number::<F>(a + 1).spec_times(depth_step());
    let y = whole_number::<F>(b + 1).spec_times(depth_step());
    assert(whole_number::<F>(0).spec_times(depth_step()).spec_lt(x));
    assert(x.spec_le(spec_one()) && y.spec_le(spec_one()));
    assert(x.spec_lt(y));
}

/// A depth attachment of 16 bits stores for each quad that a frame can partition the number
/// of quads up to it, which is its own and not zero.
pub proof fn law_quad_depths_round_to_their_places<F: Scalar>(quad_id: u32)
    requires
        depths_grow::<F>(),
        scales_back::<F>(quad_id + 1),
        quad_id <= MAX_DEPTH_PARTITIONED_QUADS,
    ensures
        spec_round_half_toward_zero(
            spec_quad_depth::<F>(quad_id).spec_times(whole_number(65535)),
        ) == whole_number::<F>(quad_id + 1),
{
    let x = whole_number::<F>(quad_id + 1).spec_times(depth_step());
    assert(x.spec_le(spec_one()));
}

} // verus!
