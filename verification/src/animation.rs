//! Opacity, position and shimmer as functions of time.
//!
//! Times are nanoseconds on a clock that never runs backwards.
use vstd::prelude::*;

use crate::color::{Background, Hsla};
use crate::geometry::Point;
use crate::scalar::{clamp, one, spec_clamp, spec_one, spec_zero, zero, Scalar};

verus! {

/// How a sweeping shimmer band moves with time, kept beside the scene rather
/// than in each sprite so every glyph in the window does not pay for it.
///
/// The band's trailing edge is `band_start + travel * sweep(t)`, where the
/// sweep runs from 0 to 1 over `period`, then holds past the end for the
/// `hold` fraction of the cycle.
#[derive(Clone, Copy, Debug, PartialEq)]
pub struct ShimmerAnimation<F> {
    /// Trailing edge at the start of a sweep, in device pixels along the
    /// effect's `direction`.
    pub band_start: F,
    /// Distance the trailing edge covers in one sweep, in device pixels.
    pub travel: F,
    /// How long a sweep takes, in nanoseconds.
    pub period: u64,
    /// The fraction of the cycle for which the band waits past the end.
    pub hold: F,
}

impl<F: Scalar> ShimmerAnimation<F> {
    /// The trailing edge at `sweep` through the cycle.
    pub open spec fn spec_band_origin(self, sweep: F) -> F {
        self.band_start.spec_plus(self.travel.spec_times(sweep))
    }

    /// The trailing edge at `sweep` through the cycle.
    pub fn band_origin(&self, sweep: F) -> (result: F)
        ensures
            result == self.spec_band_origin(sweep),
    {
        self.band_start.plus(self.travel.times(sweep))
    }
}

/// A repeating opacity curve for quads, evaluated by the scene before every
/// present so the quads animate without their view drawing again.
///
/// `keyframes` are `(phase, opacity)` points over one cycle, in increasing
/// phase from zero to one; opacity is interpolated linearly between them.
#[derive(Clone, Copy, Debug, PartialEq)]
pub struct OpacityCycle<F> {
    /// How long a cycle takes, in nanoseconds.
    pub period: u64,
    /// By how much of a cycle this one is ahead.
    pub phase: F,
    /// The curve.
    pub keyframes: [(F, F); 4],
}

/// How far `value` is from `start` to `end`, held in `0..=1`.
pub open spec fn spec_fraction<F: Scalar>(value: F, start: F, end: F) -> F {
    spec_clamp(
        value.spec_minus(start).spec_over(end.spec_minus(start)),
        spec_zero(),
        spec_one(),
    )
}

/// The number that lies at `progress` on the way from `from` to `to`.
pub open spec fn spec_between<F: Scalar>(from: F, to: F, progress: F) -> F {
    from.spec_plus(to.spec_minus(from).spec_times(progress))
}

fn fraction<F: Scalar>(value: F, start: F, end: F) -> (result: F)
    ensures
        result == spec_fraction(value, start, end),
{
    clamp(value.minus(start).over(end.minus(start)), zero(), one())
}

fn between<F: Scalar>(from: F, to: F, progress: F) -> (result: F)
    ensures
        result == spec_between(from, to, progress),
{
    from.plus(to.minus(from).times(progress))
}

/// How far through a cycle of `period` a clock that has run for `elapsed` is,
/// in `0..1`; a cycle of no length is always at its start.
pub open spec fn spec_time_animation_phase<F: Scalar>(elapsed: u64, period: u64) -> F {
    if period == 0 {
        spec_zero()
    } else {
        F::spec_cycle_fraction(elapsed, period)
    }
}

/// How far through a cycle of `period` a clock that has run for `elapsed` is,
/// in `0..1`.
pub fn time_animation_phase<F: Scalar>(elapsed: u64, period: u64) -> (result: F)
    ensures
        result == spec_time_animation_phase::<F>(elapsed, period),
{
    if period == 0 {
        return zero();
    }
    F::cycle_fraction(elapsed, period)
}

impl<F: Scalar> OpacityCycle<F> {
    /// The opacity at `phase` on the first stretch of the curve, from keyframe
    /// `from` on, that reaches it; that of the last keyframe past them all.
    pub open spec fn opacity_from(self, phase: F, from: int) -> F
        decreases 3 - from,
    {
        if from >= 3 {
            self.keyframes@[3].1
        } else {
            let (start, before) = self.keyframes@[from];
            let (end, after) = self.keyframes@[from + 1];
            if phase.spec_le(end) {
                spec_between(
                    before,
                    after,
                    if start.spec_lt(end) {
                        spec_fraction(phase, start, end)
                    } else {
                        spec_one()
                    },
                )
            } else {
                self.opacity_from(phase, from + 1)
            }
        }
    }

    /// Opacity at `phase` through the cycle (wrapped into `0..1`).
    pub open spec fn spec_opacity_at(self, phase: F) -> F {
        self.opacity_from(phase.spec_wrap_unit(), 0)
    }

    /// Opacity once the shared clock has run for `elapsed`.
    pub open spec fn spec_current_opacity(self, elapsed: u64) -> F {
        self.spec_opacity_at(
            spec_time_animation_phase::<F>(elapsed, self.period).spec_plus(self.phase),
        )
    }

    /// A cycle of `period` through four `(phase, opacity)` keyframes.
    pub fn new(period: u64, keyframes: [(F, F); 4]) -> (result: Self)
        ensures
            result == (OpacityCycle { period, phase: spec_zero(), keyframes }),
    {
        OpacityCycle { period, phase: zero(), keyframes }
    }

    /// Offsets this cycle by a fraction of its period, so several quads can
    /// run the same curve out of step.
    pub fn phase(self, phase: F) -> (result: Self)
        ensures
            result == (OpacityCycle { phase, ..self }),
    {
        OpacityCycle { period: self.period, phase, keyframes: self.keyframes }
    }

    /// Opacity at `phase` through the cycle (wrapped into `0..1`).
    pub fn opacity_at(&self, phase: F) -> (result: F)
        ensures
            result == self.spec_opacity_at(phase),
    {
        let wrapped = phase.wrap_unit();
        let mut i: usize = 0;
        while i < 3
            invariant
                i <= 3,
                self.spec_opacity_at(phase) == self.opacity_from(wrapped, i as int),
            decreases 3 - i,
        {
            let (start, before) = self.keyframes[i];
            let (end, after) = self.keyframes[i + 1];
            if wrapped.le(end) {
                let progress = if start.lt(end) {
                    fraction(wrapped, start, end)
                } else {
                    one()
                };
                return between(before, after, progress);
            }
            i = i + 1;
        }
        self.keyframes[3].1
    }

    /// Opacity once the clock every time-animated primitive shares has run for
    /// `elapsed`.
    pub fn current_opacity(&self, elapsed: u64) -> (result: F)
        ensures
            result == self.spec_current_opacity(elapsed),
    {
        self.opacity_at(time_animation_phase::<F>(elapsed, self.period).plus(self.phase))
    }
}

/// A one-shot move and fade, evaluated by the scene before every present so
/// what it applies to animates without its view drawing again.
///
/// Everything painted inside a transition is laid out and painted at rest; the
/// transition offsets it from there by `from_offset` to `to_offset` and scales
/// its opacity `from_opacity` to `to_opacity`, both along `easing` over
/// `duration` from `started_at`. The fade can run over a sub-span of that
/// progress (see [`Self::opacity_span`]). Clipping stays where the element was
/// painted, so content can travel into or out of a clipped slot.
#[derive(Clone, Copy)]
pub struct TimeTransition<F: Scalar> {
    /// When the transition starts.
    pub started_at: u64,
    /// How long it takes.
    pub duration: u64,
    /// Where it starts, relative to where the content was painted.
    pub from_offset: Point<F>,
    /// Where it lands, relative to where the content was painted.
    pub to_offset: Point<F>,
    /// The opacity factor at its start.
    pub from_opacity: F,
    /// The opacity factor where it lands.
    pub to_opacity: F,
    /// The progress at which the fade starts.
    pub fade_start: F,
    /// The progress at which the fade ends.
    pub fade_end: F,
    /// The curve that both follow.
    pub easing: F::Easing,
}

impl<F: Scalar> TimeTransition<F> {
    /// A transition that neither moves nor fades anything.
    pub open spec fn spec_new(started_at: u64, duration: u64) -> Self {
        TimeTransition {
            started_at,
            duration,
            from_offset: Point::spec_origin(),
            to_offset: Point::spec_origin(),
            from_opacity: spec_one(),
            to_opacity: spec_one(),
            fade_start: spec_zero(),
            fade_end: spec_one(),
            easing: F::spec_linear(),
        }
    }

    /// When the transition lands.
    pub open spec fn spec_ends_at(self) -> int {
        self.started_at + self.duration
    }

    /// How long the transition has run at `now`.
    pub open spec fn spec_elapsed(self, now: u64) -> u64 {
        if now > self.started_at {
            (now - self.started_at) as u64
        } else {
            0
        }
    }

    /// Linear progress at `now`, in `0..=1`.
    pub open spec fn spec_progress_at(self, now: u64) -> F {
        let duration = F::spec_seconds(self.duration);
        if duration.spec_le(spec_zero()) {
            spec_one()
        } else {
            spec_clamp(
                F::spec_seconds(self.spec_elapsed(now)).spec_over(duration),
                spec_zero(),
                spec_one(),
            )
        }
    }

    /// Offset from the painted position at `now`.
    pub open spec fn spec_offset_at(self, now: u64) -> Point<F> {
        let eased = F::spec_ease(self.easing, self.spec_progress_at(now));
        self.from_offset.spec_plus(self.to_offset.spec_minus(self.from_offset).spec_scale(eased))
    }

    /// The part of the fade's span that has passed at `now`.
    pub open spec fn spec_span_progress_at(self, now: u64) -> F {
        let start = self.fade_start;
        let end = self.fade_end;
        let progress = self.spec_progress_at(now);
        if start.spec_lt(end) {
            spec_fraction(progress, start, end)
        } else if end.spec_le(progress) {
            spec_one()
        } else {
            spec_zero()
        }
    }

    /// Opacity factor at `now`.
    pub open spec fn spec_opacity_at(self, now: u64) -> F {
        spec_between(
            self.from_opacity,
            self.to_opacity,
            F::spec_ease(self.easing, self.spec_span_progress_at(now)),
        )
    }

    /// A transition of `duration` from `started_at` that, until configured,
    /// neither moves nor fades anything.
    pub fn new(started_at: u64, duration: u64) -> (result: Self)
        ensures
            result == Self::spec_new(started_at, duration),
    {
        TimeTransition {
            started_at,
            duration,
            from_offset: Point::zero(),
            to_offset: Point::zero(),
            from_opacity: one(),
            to_opacity: one(),
            fade_start: zero(),
            fade_end: one(),
            easing: F::linear(),
        }
    }

    /// Travel from `from` to `to`, relative to where the content was painted.
    pub fn offset(self, from: Point<F>, to: Point<F>) -> (result: Self)
        ensures
            result == (TimeTransition { from_offset: from, to_offset: to, ..self }),
    {
        let mut result = self;
        result.from_offset = from;
        result.to_offset = to;
        result
    }

    /// Fade from `from` to `to`, multiplied into the painted opacity.
    pub fn opacity(self, from: F, to: F) -> (result: Self)
        ensures
            result == (TimeTransition { from_opacity: from, to_opacity: to, ..self }),
    {
        let mut result = self;
        result.from_opacity = from;
        result.to_opacity = to;
        result
    }

    /// Run the fade over this fraction of the transition's progress rather
    /// than all of it, so an outgoing copy can be gone before an incoming one
    /// arrives.
    pub fn opacity_span(self, start: F, end: F) -> (result: Self)
        ensures
            result == (TimeTransition { fade_start: start, fade_end: end, ..self }),
    {
        let mut result = self;
        result.fade_start = start;
        result.fade_end = end;
        result
    }

    /// The curve both the offset and the fade follow, from linear progress in
    /// `0..=1` to eased progress.
    pub fn easing(self, easing: F::Easing) -> (result: Self)
        ensures
            result == (TimeTransition { easing, ..self }),
    {
        let mut result = self;
        result.easing = easing;
        result
    }

    /// When the transition lands.
    pub fn ends_at(&self) -> (result: u64)
        requires
            self.spec_ends_at() <= u64::MAX,
        ensures
            result == self.spec_ends_at(),
    {
        self.started_at + self.duration
    }

    /// Linear progress at `now`, in `0..=1`.
    pub fn progress_at(&self, now: u64) -> (result: F)
        ensures
            result == self.spec_progress_at(now),
    {
        let duration = F::seconds(self.duration);
        if duration.le(zero()) {
            return one();
        }
        let elapsed: u64 = if now > self.started_at {
            now - self.started_at
        } else {
            0
        };
        clamp(F::seconds(elapsed).over(duration), zero(), one())
    }

    /// Offset from the painted position at `now`.
    pub fn offset_at(&self, now: u64) -> (result: Point<F>)
        ensures
            result == self.spec_offset_at(now),
    {
        let eased = F::ease(self.easing, self.progress_at(now));
        self.from_offset.plus(self.to_offset.minus(self.from_offset).scale(eased))
    }

    /// Opacity factor at `now`.
    pub fn opacity_at(&self, now: u64) -> (result: F)
        ensures
            result == self.spec_opacity_at(now),
    {
        let start = self.fade_start;
        let end = self.fade_end;
        let progress = self.progress_at(now);
        let span_progress = if start.lt(end) {
            fraction(progress, start, end)
        } else if end.le(progress) {
            one()
        } else {
            zero()
        };
        between(self.from_opacity, self.to_opacity, F::ease(self.easing, span_progress))
    }
}

/// A [`TimeTransition`] as the scene applies it: offsets in device pixels.
#[derive(Clone, Copy)]
pub struct SceneTransition<F: Scalar> {
    /// The transition.
    pub transition: TimeTransition<F>,
    /// Device pixels per logical pixel.
    pub scale_factor: F,
    /// The transition this one was pushed inside, or `0`. Its offset adds to
    /// this one's and its opacity multiplies in, so a label rolling inside a
    /// row that slides moves with both.
    pub parent: u32,
}

impl<F: Scalar> SceneTransition<F> {
    /// Offset from the painted position at `now`, in device pixels.
    pub open spec fn spec_offset_at(self, now: u64) -> Point<F> {
        self.transition.spec_offset_at(now).spec_scale(self.scale_factor)
    }

    /// Offset from the painted position at `now`, in device pixels.
    pub fn offset_at(&self, now: u64) -> (result: Point<F>)
        ensures
            result == self.spec_offset_at(now),
    {
        self.transition.offset_at(now).scale(self.scale_factor)
    }
}

/// A quad whose background and border fade with an [`OpacityCycle`]; the
/// colors are the ones it was painted with at full cycle opacity.
#[derive(Clone, Copy, Debug)]
pub struct QuadOpacityAnimation<F> {
    /// The cycle.
    pub cycle: OpacityCycle<F>,
    /// The background at full opacity.
    pub background: Background<F>,
    /// The border color at full opacity.
    pub border_color: Hsla<F>,
}

/// A transition that has landed stays put: at no later time do its offset and
/// its opacity differ from those at any other time at which its progress is
/// complete.
pub proof fn law_a_landed_transition_is_still<F: Scalar>(
    transition: TimeTransition<F>,
    now: u64,
    later: u64,
)
    requires
        transition.spec_progress_at(now) == spec_one::<F>(),
        transition.spec_progress_at(later) == spec_one::<F>(),
    ensures
        transition.spec_offset_at(now) == transition.spec_offset_at(later),
        transition.spec_opacity_at(now) == transition.spec_opacity_at(later),
{
}

/// Before it starts, a transition shows its first state: time that has not
/// reached the start counts as none.
pub proof fn law_a_transition_waits_for_its_start<F: Scalar>(
    transition: TimeTransition<F>,
    now: u64,
)
    requires
        now <= transition.started_at,
    ensures
        transition.spec_offset_at(now) == transition.spec_offset_at(transition.started_at),
        transition.spec_opacity_at(now) == transition.spec_opacity_at(transition.started_at),
{
}

} // verus!
