//! Small helpers.
use vstd::prelude::*;
use vstd::string::*;

use crate::scalar::{one, one_half, spec_one, spec_one_half, spec_zero, zero, Scalar};

verus! {

/// A helper trait for building complex objects with imperative conditionals in a fluent style.
pub trait FluentBuilder: Sized {
    /// Imperatively modify self with the given closure.
    fn map<U, M: FnOnce(Self) -> U>(self, modify: M) -> (result: U)
        requires
            call_requires(modify, (self,)),
        ensures
            call_ensures(modify, (self,), result),
    {
        modify(self)
    }

    /// Conditionally modify self with the given closure.
    fn when<M: FnOnce(Self) -> Self>(self, condition: bool, modify: M) -> (result: Self)
        requires
            condition ==> call_requires(modify, (self,)),
        ensures
            condition ==> call_ensures(modify, (self,), result),
            !condition ==> result == self,
    {
        if condition {
            modify(self)
        } else {
            self
        }
    }

    /// Conditionally modify self with the given closure.
    fn when_else<M: FnOnce(Self) -> Self, N: FnOnce(Self) -> Self>(
        self,
        condition: bool,
        modify: M,
        otherwise: N,
    ) -> (result: Self)
        requires
            condition ==> call_requires(modify, (self,)),
            !condition ==> call_requires(otherwise, (self,)),
        ensures
            condition ==> call_ensures(modify, (self,), result),
            !condition ==> call_ensures(otherwise, (self,), result),
    {
        if condition {
            modify(self)
        } else {
            otherwise(self)
        }
    }

    /// Conditionally unwrap and modify self with the given closure, if the given option is Some.
    fn when_some<T, M: FnOnce(Self, T) -> Self>(self, option: Option<T>, modify: M) -> (result:
        Self)
        requires
            option is Some ==> call_requires(modify, (self, option->Some_0)),
        ensures
            option is Some ==> call_ensures(modify, (self, option->Some_0), result),
            option is None ==> result == self,
    {
        match option {
            Some(value) => modify(self, value),
            None => self,
        }
    }

    /// Conditionally unwrap and modify self with the given closure, if the given option is None.
    fn when_none<T, M: FnOnce(Self) -> Self>(self, option: &Option<T>, modify: M) -> (result: Self)
        requires
            option is None ==> call_requires(modify, (self,)),
        ensures
            option is None ==> call_ensures(modify, (self,), result),
            option is Some ==> result == self,
    {
        match option {
            Some(_) => self,
            None => modify(self),
        }
    }
}

/// Error returned when a timeout elapsed before a future resolved
#[derive(Clone, Copy, Debug, PartialEq, Eq, Structural)]
pub struct Timeout;

impl Timeout {
    /// What happened, in words.
    pub fn message(&self) -> (result: String)
        ensures
            result@ == "Timed out before future resolved"@,
    {
        "Timed out before future resolved".to_owned()
    }
}

/// What waiting for a future with a timeout gives now: what the future resolved
/// to, if it has; else the timeout, if its timer has run out; else nothing yet. A
/// future that resolves as its timer runs out has resolved.
pub fn resolve_with_timeout<T>(output: Option<T>, timer_ran_out: bool) -> (result: Option<
    Result<T, Timeout>,
>)
    ensures
        result == (match output {
            Some(output) => Some(Ok::<T, Timeout>(output)),
            None => if timer_ran_out {
                Some(Err::<T, Timeout>(Timeout))
            } else {
                None
            },
        }),
{
    match output {
        Some(output) => Some(Ok(output)),
        None => if timer_ran_out {
            Some(Err(Timeout))
        } else {
            None
        },
    }
}

/// What a counter that holds `loaded` is to be set to where it is incremented
/// unless it is zero: nothing, where it is.
pub fn incremented_if_not_zero(loaded: usize) -> (result: Option<usize>)
    requires
        loaded < usize::MAX,
    ensures
        result == (if loaded == 0 {
            None
        } else {
            Some((loaded + 1) as usize)
        }),
{
    if loaded == 0 {
        None
    } else {
        Some(loaded + 1)
    }
}

/// A number rounded to the nearest whole one, halves toward zero: of its magnitude, the
/// whole part, or one more where more than a half is left over.
pub open spec fn spec_round_half_toward_zero<F: Scalar>(value: F) -> F {
    let whole = value.spec_abs().spec_floor();
    let left_over = value.spec_abs().spec_minus(whole);
    (if spec_one_half::<F>().spec_lt(left_over) {
        whole.spec_plus(spec_one())
    } else {
        whole
    }).spec_copysign(value)
}

/// Rounds to the nearest integer with 0.5 ties toward zero.
pub fn round_half_toward_zero<F: Scalar>(value: F) -> (result: F)
    ensures
        result == spec_round_half_toward_zero(value),
{
    let magnitude = value.abs();
    let whole = magnitude.floor();
    let rounded = if one_half::<F>().lt(magnitude.minus(whole)) {
        whole.plus(one())
    } else {
        whole
    };
    rounded.copysign(value)
}

/// Rounds a length to whole device pixels.
pub fn round_to_device_pixel<F: Scalar>(logical: F, scale_factor: F) -> (result: F)
    ensures
        result == spec_round_half_toward_zero(logical.spec_times(scale_factor)),
{
    round_half_toward_zero(logical.times(scale_factor))
}

/// Rounds the width of a stroke to whole device pixels, to one at least unless it
/// is zero.
pub fn round_stroke_to_device_pixel<F: Scalar>(logical: F, scale_factor: F) -> (result: F)
    ensures
        result == (if logical.spec_same(spec_zero()) {
            spec_zero::<F>()
        } else {
            spec_round_half_toward_zero(
                logical.spec_greatest(spec_zero()).spec_times(scale_factor),
            ).spec_greatest(spec_one())
        }),
{
    if logical.same(zero()) {
        zero()
    } else {
        round_to_device_pixel(logical.greatest(zero()), scale_factor).greatest(one())
    }
}

/// The last whole device pixel that is not behind a position.
pub fn floor_to_device_pixel<F: Scalar>(logical: F, scale_factor: F) -> (result: F)
    ensures
        result == logical.spec_times(scale_factor).spec_floor(),
{
    logical.times(scale_factor).floor()
}

/// The first whole device pixel that is not before a position.
pub fn ceil_to_device_pixel<F: Scalar>(logical: F, scale_factor: F) -> (result: F)
    ensures
        result == logical.spec_times(scale_factor).spec_ceil(),
{
    logical.times(scale_factor).ceil()
}

} // verus!
