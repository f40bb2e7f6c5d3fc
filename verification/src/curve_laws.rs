//! The curves that transitions, opacity cycles and sweeps follow.
use vstd::prelude::*;

use crate::animation::{OpacityCycle, SceneTransition, ShimmerAnimation, TimeTransition};
use crate::color::{Background, BackgroundTag, Hsla};
use crate::primitives::{Quad, SpriteEffect};
use crate::scalar::{spec_one, spec_zero, Scalar};

verus! {

/// Whether `held` is `value`, or the end of the span from zero to one that `value` lies
/// beyond.
pub open spec fn held_in_unit<F: Scalar>(value: F, held: F) -> bool {
    if value.spec_lt(spec_zero()) {
        held == spec_zero::<F>()
    } else if spec_one::<F>().spec_lt(value) {
        held == spec_one::<F>()
    } else {
        held == value
    }
}

/// The time that a transition has run for at `now`, none before it starts.
pub open spec fn time_run<F: Scalar>(transition: TimeTransition<F>, now: u64) -> u64 {
    if now <= transition.started_at {
        0
    } else {
        (now - transition.started_at) as u64
    }
}

/// The progress of a transition is the share of its duration that has passed, held between
/// zero and one; one that takes no time is complete at once.
pub proof fn law_progress_is_the_share_that_has_passed<F: Scalar>(
    transition: TimeTransition<F>,
    now: u64,
)
    ensures
        ({
            let duration = F::spec_seconds(transition.duration);
            let progress = transition.spec_progress_at(now);
            if duration.spec_le(spec_zero()) {
                progress == spec_one::<F>()
            } else {
                held_in_unit(
                    F::spec_seconds(time_run(transition, now)).spec_over(duration),
                    progress,
                )
            }
        }),
{
}

/// A transition moves along the straight line from its first offset to its last, and is as
/// far along it as its easing says: the distance covered is that share of the whole one, in
/// either direction.
pub proof fn law_transitions_move_along_a_line<F: Scalar>(transition: TimeTransition<F>, now: u64)
    ensures
        ({
            let (from, to) = (transition.from_offset, transition.to_offset);
            let share = F::spec_ease(transition.easing, transition.spec_progress_at(now));
            let offset = transition.spec_offset_at(now);
            &&& offset.x == from.x.spec_plus(to.x.spec_minus(from.x).spec_times(share))
            &&& offset.y == from.y.spec_plus(to.y.spec_minus(from.y).spec_times(share))
        }),
{
}

/// A transition is where it starts while its easing gives zero, and where it lands once that
/// gives one, where arithmetic is exact at the ends.
pub proof fn law_transitions_go_from_end_to_end<F: Scalar>(
    transition: TimeTransition<F>,
    now: u64,
)
    requires
        forall|a: F, b: F| #[trigger] a.spec_plus(b.spec_times(spec_zero())) == a,
        forall|a: F, b: F| #[trigger] a.spec_plus(b.spec_minus(a).spec_times(spec_one())) == b,
    ensures
        F::spec_ease(transition.easing, transition.spec_progress_at(now)) == spec_zero::<F>()
            ==> transition.spec_offset_at(now) == transition.from_offset,
        F::spec_ease(transition.easing, transition.spec_progress_at(now)) == spec_one::<F>()
            ==> transition.spec_offset_at(now) == transition.to_offset,
        F::spec_ease(transition.easing, transition.spec_span_progress_at(now)) == spec_zero::<F>()
            ==> transition.spec_opacity_at(now) == transition.from_opacity,
        F::spec_ease(transition.easing, transition.spec_span_progress_at(now)) == spec_one::<F>()
            ==> transition.spec_opacity_at(now) == transition.to_opacity,
{
    let t = transition;
    assert(t.from_offset.x.spec_plus(
        t.to_offset.x.spec_minus(t.from_offset.x).spec_times(spec_one()),
    ) == t.to_offset.x);
    assert(t.from_offset.y.spec_plus(
        t.to_offset.y.spec_minus(t.from_offset.y).spec_times(spec_one()),
    ) == t.to_offset.y);
}

/// The opacity of a transition goes from its first factor to its last over the span of
/// progress that the fade runs over: it follows the easing of the share of that span which
/// has passed, none before the span and all behind it. A span of no length is passed at once.
pub proof fn law_fades_run_over_their_span<F: Scalar>(transition: TimeTransition<F>, now: u64)
    ensures
        ({
            let (start, end) = (transition.fade_start, transition.fade_end);
            let progress = transition.spec_progress_at(now);
            let passed = transition.spec_span_progress_at(now);
            let share = F::spec_ease(transition.easing, passed);
            let (from, to) = (transition.from_opacity, transition.to_opacity);
            &&& start.spec_lt(end) ==> held_in_unit(
                progress.spec_minus(start).spec_over(end.spec_minus(start)),
                passed,
            )
            &&& !start.spec_lt(end) && end.spec_le(progress) ==> passed == spec_one::<F>()
            &&& !start.spec_lt(end) && !end.spec_le(progress) ==> passed == spec_zero::<F>()
            &&& transition.spec_opacity_at(now) == from.spec_plus(
                to.spec_minus(from).spec_times(share),
            )
        }),
{
}

/// A transition in a scene moves by device pixels: by its offset times those per logical
/// pixel.
pub proof fn law_scene_offsets_are_scaled<F: Scalar>(transition: SceneTransition<F>, now: u64)
    ensures
        ({
            let offset = transition.transition.spec_offset_at(now);
            let scaled = transition.spec_offset_at(now);
            &&& scaled.x == offset.x.spec_times(transition.scale_factor)
            &&& scaled.y == offset.y.spec_times(transition.scale_factor)
        }),
{
}

/// A transition lands when its duration has passed since its start.
pub proof fn law_transitions_land_after_their_duration<F: Scalar>(transition: TimeTransition<F>)
    ensures
        transition.spec_ends_at() - transition.started_at == transition.duration,
{
}

/// The curve of an opacity cycle is made of straight stretches between its keyframes: at a
/// phase behind the ends of all stretches before the one at `k`, and not behind its end, the
/// opacity lies between those of the stretch's keyframes, at the share of the stretch that
/// the phase has passed. A stretch of no length shows its end.
pub proof fn law_cycles_are_straight_between_keyframes<F: Scalar>(
    cycle: OpacityCycle<F>,
    phase: F,
    k: int,
)
    requires
        0 <= k < 3,
        forall|j: int|
            1 <= j <= k ==> !phase.spec_wrap_unit().spec_le((#[trigger] cycle.keyframes@[j]).0),
        phase.spec_wrap_unit().spec_le(cycle.keyframes@[k + 1].0),
    ensures
        ({
            let (start, before) = cycle.keyframes@[k];
            let (end, after) = cycle.keyframes@[k + 1];
            let wrapped = phase.spec_wrap_unit();
            exists|share: F|
                cycle.spec_opacity_at(phase) == before.spec_plus(
                    #[trigger] after.spec_minus(before).spec_times(share),
                ) && if start.spec_lt(end) {
                    held_in_unit(
                        wrapped.spec_minus(start).spec_over(end.spec_minus(start)),
                        share,
                    )
                } else {
                    share == spec_one::<F>()
                }
        }),
{
    reveal_with_fuel(OpacityCycle::opacity_from, 4);
    let (start, before) = cycle.keyframes@[k];
    let (end, after) = cycle.keyframes@[k + 1];
    let wrapped = phase.spec_wrap_unit();
    let share = if start.spec_lt(end) {
        crate::animation::spec_fraction(wrapped, start, end)
    } else {
        spec_one()
    };
    if k >= 1 {
        assert(!wrapped.spec_le(cycle.keyframes@[1].0));
    }
    if k >= 2 {
        assert(!wrapped.spec_le(cycle.keyframes@[2].0));
    }
    assert(cycle.spec_opacity_at(phase) == before.spec_plus(
        after.spec_minus(before).spec_times(share),
    ));
}

/// Behind all keyframes a cycle shows the opacity of the last one.
pub proof fn law_cycles_end_with_their_last_keyframe<F: Scalar>(cycle: OpacityCycle<F>, phase: F)
    requires
        forall|j: int|
            1 <= j <= 3 ==> !phase.spec_wrap_unit().spec_le((#[trigger] cycle.keyframes@[j]).0),
    ensures
        cycle.spec_opacity_at(phase) == cycle.keyframes@[3].1,
{
    reveal_with_fuel(OpacityCycle::opacity_from, 4);
    assert(!phase.spec_wrap_unit().spec_le(cycle.keyframes@[1].0));
    assert(!phase.spec_wrap_unit().spec_le(cycle.keyframes@[2].0));
    assert(!phase.spec_wrap_unit().spec_le(cycle.keyframes@[3].0));
}

/// Cycles repeat: phases that a whole number of cycles lies between show the same opacity.
/// Now, a cycle shows the opacity at the phase of the shared clock and its own together; a
/// cycle that takes no time stays at its own phase.
pub proof fn law_cycles_follow_the_clock<F: Scalar>(
    cycle: OpacityCycle<F>,
    a: F,
    b: F,
    elapsed: u64,
)
    requires
        a.spec_wrap_unit() == b.spec_wrap_unit(),
    ensures
        cycle.spec_opacity_at(a) == cycle.spec_opacity_at(b),
        cycle.period == 0 ==> cycle.spec_current_opacity(elapsed) == cycle.spec_opacity_at(
            spec_zero::<F>().spec_plus(cycle.phase),
        ),
        cycle.period > 0 ==> cycle.spec_current_opacity(elapsed) == cycle.spec_opacity_at(
            F::spec_cycle_fraction(elapsed, cycle.period).spec_plus(cycle.phase),
        ),
{
}

/// The trailing edge of a sweep lies at the start of the band, and the share of the travel
/// that the sweep has covered beyond.
pub proof fn law_sweeps_travel_from_their_start<F: Scalar>(sweep: ShimmerAnimation<F>, share: F)
    ensures
        sweep.spec_band_origin(share) == sweep.band_start.spec_plus(
            sweep.travel.spec_times(share),
        ),
{
}

/// Fading a color multiplies its opacity by a factor held between zero and one, and changes
/// nothing else about it; fading a background does so to each of its colors.
pub proof fn law_fading_multiplies_opacities<F: Scalar>(
    color: Hsla<F>,
    background: Background<F>,
    factor: F,
)
    ensures
        exists|held: F|
            held_in_unit(factor, held) && {
                let faded = color.spec_opacity(factor);
                let filled = background.spec_opacity(factor);
                &&& faded.a == #[trigger] color.a.spec_times(held)
                &&& faded.h == color.h && faded.s == color.s && faded.l == color.l
                &&& filled.solid.a == background.solid.a.spec_times(held)
                &&& filled.first_stop.color.a == background.first_stop.color.a.spec_times(held)
                &&& filled.last_stop.color.a == background.last_stop.color.a.spec_times(held)
                &&& filled.solid.h == background.solid.h && filled.solid.s == background.solid.s
                    && filled.solid.l == background.solid.l
                &&& filled.first_stop.percentage == background.first_stop.percentage
                &&& filled.last_stop.percentage == background.last_stop.percentage
                &&& filled.first_stop.color.h == background.first_stop.color.h
                &&& filled.first_stop.color.s == background.first_stop.color.s
                &&& filled.first_stop.color.l == background.first_stop.color.l
                &&& filled.last_stop.color.h == background.last_stop.color.h
                &&& filled.last_stop.color.s == background.last_stop.color.s
                &&& filled.last_stop.color.l == background.last_stop.color.l
                &&& filled.tag == background.tag
                &&& filled.angle_or_height == background.angle_or_height
                &&& filled.glass == background.glass
                &&& filled.animation == background.animation
                &&& filled.transition == background.transition
            },
{
    let held = crate::scalar::spec_clamp(factor, spec_zero(), spec_one());
    assert(held_in_unit(factor, held));
    assert(color.spec_opacity(factor).a == color.a.spec_times(held));
}

/// The three marks of a background are apart: setting one leaves the others and every color
/// alone. A transition that cannot be named is not set.
pub proof fn law_background_marks_are_apart<F: Scalar>(
    background: Background<F>,
    animation: u32,
    transition: u32,
)
    ensures
        ({
            let animated = background.spec_with_time_animation(animation);
            let moved = background.spec_with_time_transition(transition);
            &&& animated.animation == animation
            &&& animated == Background { animation: animated.animation, ..background }
            &&& moved == Background { transition: moved.transition, ..background }
            &&& moved.transition == if transition <= 0xfff {
                transition
            } else {
                background.transition
            }
        }),
{
}

/// A transition that nothing more is said of takes the time that it is given, and neither
/// moves nor fades anything while it runs, where nothing is a share of no difference.
pub proof fn law_fresh_transitions_change_nothing<F: Scalar>(
    started_at: u64,
    duration: u64,
    now: u64,
)
    requires
        forall|a: F, share: F| #[trigger] a.spec_plus(a.spec_minus(a).spec_times(share)) == a,
    ensures
        ({
            let transition = TimeTransition::<F>::spec_new(started_at, duration);
            &&& transition.started_at == started_at
            &&& transition.duration == duration
            &&& transition.spec_offset_at(now).x == spec_zero::<F>()
            &&& transition.spec_offset_at(now).y == spec_zero::<F>()
            &&& transition.spec_opacity_at(now) == spec_one::<F>()
            &&& transition.fade_start == spec_zero::<F>()
            &&& transition.fade_end == spec_one::<F>()
            &&& transition.easing == F::spec_linear()
        }),
{
    let (zero, one) = (spec_zero::<F>(), spec_one::<F>());
    let transition = TimeTransition::<F>::spec_new(started_at, duration);
    let share = F::spec_ease(transition.easing, transition.spec_progress_at(now));
    let faded = F::spec_ease(transition.easing, transition.spec_span_progress_at(now));
    assert(zero.spec_plus(zero.spec_minus(zero).spec_times(share)) == zero);
    assert(one.spec_plus(one.spec_minus(one).spec_times(faded)) == one);
}

/// A quad that nothing is said of is empty, at the origin, and cannot be seen: it has no
/// color, no border and no round corner, and nothing moves it. A highlight that nothing is
/// said of does not move either.
pub proof fn law_defaults_cannot_be_seen<F: Scalar>()
    ensures
        ({
            let zero = spec_zero::<F>();
            let quad = Quad::<F>::spec_default();
            let effect = SpriteEffect::<F>::spec_default();
            &&& quad.order == 0
            &&& quad.bounds.size.width == zero && quad.bounds.size.height == zero
            &&& quad.bounds.origin.x == zero && quad.bounds.origin.y == zero
            &&& quad.content_mask.bounds == quad.bounds
            &&& quad.background.tag == BackgroundTag::Solid
            &&& quad.background.solid.a == zero && quad.border_color.a == zero
            &&& !quad.background.glass
            &&& quad.background.animation == 0 && quad.background.transition == 0
            &&& quad.border_widths.top == zero && quad.border_widths.right == zero
            &&& quad.border_widths.bottom == zero && quad.border_widths.left == zero
            &&& quad.corner_radii.top_left == zero && quad.corner_radii.top_right == zero
            &&& quad.corner_radii.bottom_left == zero && quad.corner_radii.bottom_right == zero
            &&& effect.kind == 0 && effect.animation == 0
            &&& effect.band_width == zero && effect.highlight_color.a == zero
        }),
{
}

} // verus!
