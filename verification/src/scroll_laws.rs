//! Which axis a scroll gesture locks to, and what it lets through.
use vstd::prelude::*;

use crate::geometry::Point;
use crate::gestures::{Axis, OngoingScroll, ScrollAxisLock, TouchPhase};
use crate::scalar::{spec_zero, Scalar};

verus! {

/// Whether an event moves at all.
pub open spec fn moves<F: Scalar>(delta: Point<F>) -> bool {
    !(delta.x.spec_abs().spec_same(spec_zero()) && delta.y.spec_abs().spec_same(spec_zero()))
}

/// Whether an event goes on with a touch.
pub open spec fn goes_on(touch_phase: TouchPhase) -> bool {
    touch_phase == TouchPhase::Started || touch_phase == TouchPhase::Moved
}

/// Whether taking the magnitude of a magnitude changes nothing.
pub open spec fn magnitudes_stay<F: Scalar>() -> bool {
    forall|a: F| #[trigger] a.spec_abs().spec_abs() == a.spec_abs()
}

/// A moving event that begins a gesture, because it starts a touch, is the first one or
/// comes after a long enough gap, locks the gesture: to the horizontal axis exactly if the
/// horizontal distance reaches the lower bound and the vertical distance stays below the
/// bound or, times the starting percentage, does not exceed the horizontal one; and else to
/// the vertical axis. Whatever the gesture was locked to before does not count.
pub proof fn law_a_new_gesture_locks_to_its_dominant_axis<F: Scalar>(
    scroll: OngoingScroll,
    tuning: ScrollAxisLock<F>,
    delta: Point<F>,
    touch_phase: TouchPhase,
    now: u64,
)
    requires
        magnitudes_stay::<F>(),
        goes_on(touch_phase),
        moves(delta),
        touch_phase == TouchPhase::Started || scroll.last_event is None || (now
            >= scroll.last_event->Some_0 && now - scroll.last_event->Some_0
            >= tuning.gesture_separation),
    ensures
        ({
            let (after, moved) = scroll.spec_filter(tuning, delta, touch_phase, now);
            let (x, y) = (delta.x.spec_abs(), delta.y.spec_abs());
            let bound = tuning.unlock_lower_bound;
            let sideways = bound.spec_le(x) && (y.spec_lt(bound) || y.spec_times(
                tuning.start_percent,
            ).spec_le(x));
            &&& after.last_event == Some(now)
            &&& sideways ==> after.axis == Some(Axis::Horizontal) && moved == Point {
                x: delta.x,
                y: spec_zero(),
            }
            &&& !sideways ==> after.axis == Some(Axis::Vertical) && moved == Point {
                x: spec_zero(),
                y: delta.y,
            }
        }),
{
    assert(delta.x.spec_abs().spec_abs() == delta.x.spec_abs());
    assert(delta.y.spec_abs().spec_abs() == delta.y.spec_abs());
}

/// A moving event that goes on with a gesture frees it from its axis exactly if the larger of
/// the two distances reaches the lower bound, that across the axis reaches it, and that along
/// the axis stays below the bound or, times the unlocking percentage, does not exceed the one
/// across; else the gesture stays locked as it is, and one that is free stays free. What
/// comes through is the motion along the axis, or all of it where the gesture is free.
pub proof fn law_a_lock_yields_to_the_other_axis<F: Scalar>(
    scroll: OngoingScroll,
    tuning: ScrollAxisLock<F>,
    delta: Point<F>,
    last_event: u64,
    now: u64,
)
    requires
        magnitudes_stay::<F>(),
        moves(delta),
        scroll.last_event == Some(last_event),
        now < last_event + tuning.gesture_separation,
        tuning.gesture_separation > 0,
    ensures
        ({
            let (after, moved) = scroll.spec_filter(tuning, delta, TouchPhase::Moved, now);
            let (x, y) = (delta.x.spec_abs(), delta.y.spec_abs());
            let bound = tuning.unlock_lower_bound;
            let beats = |across: F, along: F|
                bound.spec_le(x.spec_greatest(y)) && bound.spec_le(across) && (along.spec_lt(bound)
                    || along.spec_times(tuning.unlock_percent).spec_le(across));
            &&& after.last_event == Some(now)
            &&& match scroll.axis {
                Some(Axis::Vertical) => if beats(x, y) {
                    after.axis is None && moved == delta
                } else {
                    after.axis == scroll.axis && moved == Point { x: spec_zero(), y: delta.y }
                },
                Some(Axis::Horizontal) => if beats(y, x) {
                    after.axis is None && moved == delta
                } else {
                    after.axis == scroll.axis && moved == Point { x: delta.x, y: spec_zero() }
                },
                None => after.axis is None && moved == delta,
            }
        }),
{
    assert(delta.x.spec_abs().spec_abs() == delta.x.spec_abs());
    assert(delta.y.spec_abs().spec_abs() == delta.y.spec_abs());
}

/// An event that does not move changes nothing while a touch goes on, not even when the last
/// event came; as the start of a touch it ends the gesture before it.
pub proof fn law_still_events_do_not_count<F: Scalar>(
    scroll: OngoingScroll,
    tuning: ScrollAxisLock<F>,
    delta: Point<F>,
    now: u64,
)
    requires
        !moves(delta),
    ensures
        scroll.spec_filter(tuning, delta, TouchPhase::Moved, now).0 == scroll,
        scroll.spec_filter(tuning, delta, TouchPhase::Moved, now).1 == delta,
        scroll.spec_filter(tuning, delta, TouchPhase::Started, now).0.axis is None,
        scroll.spec_filter(tuning, delta, TouchPhase::Started, now).0.last_event is None,
        scroll.spec_filter(tuning, delta, TouchPhase::Started, now).1 == delta,
{
}

/// The end of a touch, and its being taken away, leave no axis and no time behind, and let
/// the event through as it is.
pub proof fn law_nothing_outlives_a_touch<F: Scalar>(
    scroll: OngoingScroll,
    tuning: ScrollAxisLock<F>,
    delta: Point<F>,
    touch_phase: TouchPhase,
    now: u64,
)
    requires
        !goes_on(touch_phase),
    ensures
        ({
            let (after, moved) = scroll.spec_filter(tuning, delta, touch_phase, now);
            after.axis is None && after.last_event is None && moved == delta
        }),
{
}

/// How the two tunings lock: the balanced one wants six pixels to tell an axis, and to leave
/// one for the other nearly twice the travel; the eager one tells from three pixels, takes a
/// slanted start for a horizontal one, and lets go at about the same travel. Either takes an
/// event that comes as late as the other does for a new gesture.
pub proof fn law_tunings_differ_in_eagerness<F: Scalar>()
    ensures
        ({
            let balanced = ScrollAxisLock::<F>::spec_balanced();
            let eager = ScrollAxisLock::<F>::spec_eager_horizontal();
            &&& balanced.gesture_separation == eager.gesture_separation
            &&& balanced.unlock_lower_bound == F::spec_ratio(6, 1)
            &&& balanced.start_percent == F::spec_ratio(1, 1)
            &&& balanced.unlock_percent == F::spec_ratio(19, 10)
            &&& eager.unlock_lower_bound == F::spec_ratio(3, 1)
            &&& eager.start_percent == F::spec_ratio(85, 100)
            &&& eager.unlock_percent == F::spec_ratio(105, 100)
        }),
{
}

} // verus!
