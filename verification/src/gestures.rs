//! Touch gesture recognition vocabulary.
//!
//! Gestures are recognized from raw touch events in a single, portable arena:
//! recognizers compete for in-flight touches, winners claim them, and losers are
//! cancelled. Recognized gestures are surfaced through existing semantic events
//! wherever possible, so components written against clicks and scroll containers
//! work untouched on mobile.
use vstd::prelude::*;

use crate::geometry::Point;
use crate::scalar::{one, spec_one, spec_zero, zero, Scalar};

verus! {

/// One of the two directions of scrolling.
#[derive(Clone, Copy, Debug, PartialEq, Eq, Structural)]
pub enum Axis {
    /// Up and down.
    Vertical,
    /// Left and right.
    Horizontal,
}

/// Where a touch is in its course.
#[derive(Clone, Copy, Debug, PartialEq, Eq, Structural)]
pub enum TouchPhase {
    /// It begins.
    Started,
    /// It moves.
    Moved,
    /// It ends.
    Ended,
    /// It is taken away.
    Cancelled,
}

/// How eagerly a scroll gesture commits to one axis, and how hard the user has to push to
/// get it back off that axis.
///
/// Surfaces differ enough here that one set of numbers does not serve all of them. A small
/// horizontally-scrolling region embedded in a long vertical document has to pick up sideways
/// intent almost immediately or it feels stuck, while a viewer that fills the pane must not let
/// an incidental sideways drift derail vertical reading. Users notice changes to these numbers,
/// so prefer a named tuning over an inline literal.
#[derive(Clone, Copy, Debug, PartialEq)]
pub struct ScrollAxisLock<F> {
    /// Gap, in nanoseconds, after which an event begins a new gesture instead of continuing the
    /// current one.
    ///
    /// Only a fallback: platforms that report [`TouchPhase`] delimit gestures exactly.
    pub gesture_separation: u64,
    /// Deltas below this on both axes are noise: too small to pick an axis or to reconsider
    /// the one already picked.
    pub unlock_lower_bound: F,
    /// How much the horizontal component must dominate the vertical one for a *new* gesture to
    /// start out horizontal. Below one a gesture claims the horizontal axis while still
    /// drifting slightly downward, which is what a real sideways trackpad swipe looks like.
    pub start_percent: F,
    /// How much the other axis must dominate for an *in-flight* gesture to break its lock.
    /// Larger values make the lock stickier.
    pub unlock_percent: F,
}

/// The gap after which an event begins a new gesture: 28 milliseconds.
pub const GESTURE_SEPARATION: u64 = 28_000_000;

impl<F: Scalar> ScrollAxisLock<F> {
    /// Sticky enough that vertical reading is never derailed by sideways drift.
    pub open spec fn spec_balanced() -> Self {
        ScrollAxisLock {
            gesture_separation: GESTURE_SEPARATION,
            unlock_lower_bound: F::spec_ratio(6, 1),
            start_percent: spec_one(),
            unlock_percent: F::spec_ratio(19, 10),
        }
    }

    /// Picks up sideways intent eagerly.
    pub open spec fn spec_eager_horizontal() -> Self {
        ScrollAxisLock {
            gesture_separation: GESTURE_SEPARATION,
            unlock_lower_bound: F::spec_ratio(3, 1),
            start_percent: F::spec_ratio(85, 100),
            unlock_percent: F::spec_ratio(105, 100),
        }
    }

    /// Whether `major` beats `minor` by enough to claim the gesture, whichever way
    /// the two point.
    pub open spec fn spec_dominates(self, major: F, minor: F, percent: F) -> bool {
        let major = major.spec_abs();
        let minor = minor.spec_abs();
        &&& self.unlock_lower_bound.spec_le(major)
        &&& minor.spec_lt(self.unlock_lower_bound) || minor.spec_times(percent).spec_le(major)
    }

    /// Sticky enough that vertical reading is never derailed by sideways drift. The right
    /// default for a scroll container that fills its pane.
    pub fn balanced() -> (result: Self)
        ensures
            result == Self::spec_balanced(),
    {
        ScrollAxisLock {
            gesture_separation: GESTURE_SEPARATION,
            unlock_lower_bound: F::ratio(6, 1),
            start_percent: one(),
            unlock_percent: F::ratio(19, 10),
        }
    }

    /// Picks up sideways intent eagerly. For a small horizontally-scrollable region embedded in
    /// a vertically scrolling document, where the horizontal axis is the whole point and a
    /// hard-to-reach lock reads as the region being stuck.
    pub fn eager_horizontal() -> (result: Self)
        ensures
            result == Self::spec_eager_horizontal(),
    {
        ScrollAxisLock {
            gesture_separation: GESTURE_SEPARATION,
            unlock_lower_bound: F::ratio(3, 1),
            start_percent: F::ratio(85, 100),
            unlock_percent: F::ratio(105, 100),
        }
    }

    /// Whether `major` beats `minor` by enough to claim the gesture.
    ///
    /// Takes magnitudes: folding the absolute value in here is what stops a hard leftward flick
    /// (a large *negative* delta) reporting "no intent".
    pub fn dominates(&self, major: F, minor: F, percent: F) -> (result: bool)
        ensures
            result == self.spec_dominates(major, minor, percent),
    {
        let major = major.abs();
        let minor = minor.abs();
        self.unlock_lower_bound.le(major) && (minor.lt(self.unlock_lower_bound) || minor.times(
            percent,
        ).le(major))
    }
}

impl<F: Scalar> Default for ScrollAxisLock<F> {
    fn default() -> (result: Self)
        ensures
            result == Self::spec_balanced(),
    {
        ScrollAxisLock::balanced()
    }
}

/// Tracks the dominant axis across the events in a scroll gesture.
#[derive(Clone, Copy, Debug, PartialEq, Eq, Structural)]
pub struct OngoingScroll {
    /// When the last event came, on a clock of nanoseconds.
    pub last_event: Option<u64>,
    /// The axis that the gesture is locked to.
    pub axis: Option<Axis>,
}

/// The displacement with what an axis does not let through taken out.
pub open spec fn along<F: Scalar>(axis: Option<Axis>, delta: Point<F>) -> Point<F> {
    match axis {
        Some(Axis::Vertical) => Point { x: spec_zero(), ..delta },
        Some(Axis::Horizontal) => Point { y: spec_zero(), ..delta },
        None => delta,
    }
}

impl OngoingScroll {
    /// No gesture.
    pub open spec fn spec_none() -> Self {
        OngoingScroll { last_event: None, axis: None }
    }

    /// Whether an event at `now` begins a new gesture.
    pub open spec fn starts_new_gesture(
        self,
        gesture_separation: u64,
        touch_phase: TouchPhase,
        now: u64,
    ) -> bool {
        touch_phase == TouchPhase::Started || match self.last_event {
            Some(last_event) => (if now > last_event {
                now - last_event
            } else {
                0
            }) >= gesture_separation,
            None => true,
        }
    }

    /// The axis of the gesture after an event that moves by `delta`.
    pub open spec fn next_axis<F: Scalar>(
        self,
        tuning: ScrollAxisLock<F>,
        delta: Point<F>,
        touch_phase: TouchPhase,
        now: u64,
    ) -> Option<Axis> {
        let x = delta.x.spec_abs();
        let y = delta.y.spec_abs();
        if self.starts_new_gesture(tuning.gesture_separation, touch_phase, now) {
            if tuning.spec_dominates(x, y, tuning.start_percent) {
                Some(Axis::Horizontal)
            } else {
                Some(Axis::Vertical)
            }
        } else if tuning.unlock_lower_bound.spec_le(x.spec_greatest(y)) && match self.axis {
            Some(Axis::Vertical) => tuning.spec_dominates(x, y, tuning.unlock_percent),
            Some(Axis::Horizontal) => tuning.spec_dominates(y, x, tuning.unlock_percent),
            None => false,
        } {
            None
        } else {
            self.axis
        }
    }

    /// The gesture after an event, and what the event moves by.
    pub open spec fn spec_filter<F: Scalar>(
        self,
        tuning: ScrollAxisLock<F>,
        delta: Point<F>,
        touch_phase: TouchPhase,
        now: u64,
    ) -> (Self, Point<F>) {
        let zero = spec_zero::<F>();
        let still = delta.x.spec_abs().spec_same(zero) && delta.y.spec_abs().spec_same(zero);
        if touch_phase == TouchPhase::Ended || touch_phase == TouchPhase::Cancelled {
            (Self::spec_none(), delta)
        } else if still && touch_phase == TouchPhase::Started {
            (Self::spec_none(), delta)
        } else if still {
            (self, delta)
        } else {
            let axis = self.next_axis(tuning, delta, touch_phase, now);
            (OngoingScroll { last_event: Some(now), axis }, along(axis, delta))
        }
    }

    /// No gesture.
    pub fn new() -> (result: Self)
        ensures
            result == Self::spec_none(),
    {
        OngoingScroll { last_event: None, axis: None }
    }

    /// The axis this gesture is currently locked to, if it has committed to one.
    pub fn axis(&self) -> (result: Option<Axis>)
        ensures
            result == self.axis,
    {
        self.axis
    }

    /// Pin the gesture to `axis` for the rest of its duration, bypassing the usual dominance
    /// test. Used for input that names its axis outright, such as a Shift-modified wheel.
    pub fn lock_to(&mut self, axis: Axis, now: u64)
        ensures
            *final(self) == (OngoingScroll { last_event: Some(now), axis: Some(axis) }),
    {
        self.last_event = Some(now);
        self.axis = Some(axis);
    }

    /// Filters the given delta to the dominant axis of the current scroll gesture.
    ///
    /// Gestures are delimited by their touch phase when available, with a timeout
    /// fallback for platforms that only emit [`TouchPhase::Moved`].
    pub fn filter<F: Scalar>(
        &mut self,
        tuning: &ScrollAxisLock<F>,
        delta: &mut Point<F>,
        touch_phase: TouchPhase,
        now: u64,
    )
        ensures
            (*final(self), *final(delta)) == old(self).spec_filter(
                *tuning,
                *old(delta),
                touch_phase,
                now,
            ),
    {
        if touch_phase == TouchPhase::Ended || touch_phase == TouchPhase::Cancelled {
            self.last_event = None;
            self.axis = None;
            return;
        }
        let x = delta.x.abs();
        let y = delta.y.abs();
        if x.same(zero()) && y.same(zero()) {
            if touch_phase == TouchPhase::Started {
                self.last_event = None;
                self.axis = None;
            }
            return;
        }
        let starts_new_gesture: bool = touch_phase == TouchPhase::Started || match self.last_event {
            Some(last_event) => {
                let gap: u64 = if now > last_event {
                    now - last_event
                } else {
                    0
                };
                gap >= tuning.gesture_separation
            },
            None => true,
        };
        let mut axis = self.axis;
        if starts_new_gesture {
            axis =
            if tuning.dominates(x, y, tuning.start_percent) {
                Some(Axis::Horizontal)
            } else {
                Some(Axis::Vertical)
            };
        } else if tuning.unlock_lower_bound.le(x.greatest(y)) {
            let breaks: bool = match axis {
                Some(Axis::Vertical) => tuning.dominates(x, y, tuning.unlock_percent),
                Some(Axis::Horizontal) => tuning.dominates(y, x, tuning.unlock_percent),
                None => false,
            };
            if breaks {
                axis = None;
            }
        }
        self.last_event = Some(now);
        self.axis = axis;
        match axis {
            Some(Axis::Vertical) => {
                delta.x = zero();
            },
            Some(Axis::Horizontal) => {
                delta.y = zero();
            },
            None => {},
        }
    }
}

impl Default for OngoingScroll {
    fn default() -> (result: Self)
        ensures
            result == Self::spec_none(),
    {
        OngoingScroll::new()
    }
}

/// What a gesture lets through lies along the axis that it is locked to: the other
/// component is zero.
pub proof fn law_a_locked_gesture_moves_along_its_axis<F: Scalar>(
    scroll: OngoingScroll,
    tuning: ScrollAxisLock<F>,
    delta: Point<F>,
    now: u64,
)
    requires
        !(delta.x.spec_abs().spec_same(spec_zero()) && delta.y.spec_abs().spec_same(spec_zero())),
    ensures
        ({
            let (after, moved) = scroll.spec_filter(tuning, delta, TouchPhase::Moved, now);
            &&& after.axis == Some(Axis::Vertical) ==> moved.x == spec_zero::<F>() && moved.y
                == delta.y
            &&& after.axis == Some(Axis::Horizontal) ==> moved.y == spec_zero::<F>() && moved.x
                == delta.x
            &&& after.axis is None ==> moved == delta
        }),
{
}

/// An event within a gesture never moves it from one axis to the other: it keeps
/// its axis or loses it, and loses it only where the other axis dominates. A
/// gesture that has lost its axis does not find one again.
pub proof fn law_an_axis_is_kept_or_lost<F: Scalar>(
    scroll: OngoingScroll,
    tuning: ScrollAxisLock<F>,
    delta: Point<F>,
    now: u64,
)
    requires
        !scroll.starts_new_gesture(tuning.gesture_separation, TouchPhase::Moved, now),
    ensures
        ({
            let after = scroll.spec_filter(tuning, delta, TouchPhase::Moved, now).0;
            let x = delta.x.spec_abs();
            let y = delta.y.spec_abs();
            &&& after.axis == scroll.axis || after.axis is None
            &&& scroll.axis == Some(Axis::Vertical) && after.axis is None ==> tuning.spec_dominates(
                x,
                y,
                tuning.unlock_percent,
            )
            &&& scroll.axis == Some(Axis::Horizontal) && after.axis is None
                ==> tuning.spec_dominates(y, x, tuning.unlock_percent)
        }),
{
}

/// An event that ends a touch, or takes it away, ends the gesture and moves by what
/// it says.
pub proof fn law_ending_a_touch_ends_the_gesture<F: Scalar>(
    scroll: OngoingScroll,
    tuning: ScrollAxisLock<F>,
    delta: Point<F>,
    now: u64,
)
    ensures
        scroll.spec_filter(tuning, delta, TouchPhase::Ended, now) == (
            OngoingScroll::spec_none(),
            delta,
        ),
        scroll.spec_filter(tuning, delta, TouchPhase::Cancelled, now) == (
            OngoingScroll::spec_none(),
            delta,
        ),
{
}

/// Dominance goes by magnitudes: turning either component around changes nothing,
/// where turning a number around leaves its magnitude.
pub proof fn law_dominance_ignores_signs<F: Scalar>(
    tuning: ScrollAxisLock<F>,
    major: F,
    minor: F,
    percent: F,
)
    requires
        major.spec_negated().spec_abs() == major.spec_abs(),
        minor.spec_negated().spec_abs() == minor.spec_abs(),
    ensures
        tuning.spec_dominates(major.spec_negated(), minor, percent) == tuning.spec_dominates(
            major,
            minor,
            percent,
        ),
        tuning.spec_dominates(major, minor.spec_negated(), percent) == tuning.spec_dominates(
            major,
            minor,
            percent,
        ),
{
}

/// Feel constants consumed by gesture recognizers. Provided on a best-effort
/// basis, depending on each platform's support.
#[derive(Clone, Copy, Debug, PartialEq)]
pub struct GestureTuning<F> {
    /// Distance a touch may travel before it stops being a potential tap and
    /// becomes a pan/drag.
    pub touch_slop: F,
    /// Maximum interval between taps, in nanoseconds, for them to accumulate a tap
    /// count.
    pub multi_tap_interval: u64,
    /// Maximum distance between taps for them to accumulate a tap count.
    pub multi_tap_slop: F,
    /// How long, in nanoseconds, a touch must remain within [`Self::touch_slop`] to
    /// be recognized as a long press.
    pub long_press_duration: u64,
    /// Per-millisecond decay factor applied to scroll momentum after a fling.
    pub momentum_decay_per_ms: F,
    /// Minimum release velocity, in pixels per second, required to start
    /// scroll momentum.
    pub min_fling_velocity: F,
}

impl<F: Scalar> GestureTuning<F> {
    /// The tuning of a platform that has none of its own.
    pub open spec fn spec_default() -> Self {
        GestureTuning {
            touch_slop: F::spec_ratio(8, 1),
            multi_tap_interval: 400_000_000,
            multi_tap_slop: F::spec_ratio(16, 1),
            long_press_duration: 500_000_000,
            momentum_decay_per_ms: F::spec_ratio(998, 1000),
            min_fling_velocity: F::spec_ratio(50, 1),
        }
    }
}

impl<F: Scalar> Default for GestureTuning<F> {
    fn default() -> (result: Self)
        ensures
            result == Self::spec_default(),
    {
        GestureTuning {
            touch_slop: F::ratio(8, 1),
            multi_tap_interval: 400_000_000,
            multi_tap_slop: F::ratio(16, 1),
            long_press_duration: 500_000_000,
            momentum_decay_per_ms: F::ratio(998, 1000),
            min_fling_velocity: F::ratio(50, 1),
        }
    }
}

/// The set of gesture kinds that participate in recognition.
///
/// Used by [`PlatformGestures::native_recognizers`] to declare which gestures
/// the platform recognizes natively rather than leaving to the portable
/// recognizers.
#[derive(Clone, Copy, Debug, PartialEq, Eq, Structural, Default)]
pub struct GestureKinds {
    /// Tap (and multi-tap), surfaced as a click.
    pub tap: bool,
    /// Long press, surfaced as [`LongPressEvent`].
    pub long_press: bool,
    /// Pan/scroll (including fling momentum), surfaced as scroll events.
    pub pan: bool,
    /// Pinch to zoom, surfaced as pinch events.
    pub pinch: bool,
}

impl GestureKinds {
    /// No gestures; the portable recognizers handle everything.
    pub fn none() -> (result: Self)
        ensures
            result == (GestureKinds { tap: false, long_press: false, pan: false, pinch: false }),
    {
        GestureKinds { tap: false, long_press: false, pan: false, pinch: false }
    }

    /// All gesture kinds.
    pub fn all() -> (result: Self)
        ensures
            result == (GestureKinds { tap: true, long_press: true, pan: true, pinch: true }),
    {
        GestureKinds { tap: true, long_press: true, pan: true, pinch: true }
    }
}

/// A long-press gesture, mobile's context-menu trigger.
///
/// A bare long press is surfaced as a click, delivered to aux-click listeners
/// alongside right clicks. This event is the raw hook for elements that need the
/// gesture itself (e.g. long-press to start a drag).
#[derive(Clone, Copy, Debug)]
pub struct LongPressEvent<F> {
    /// The position of the touch that was recognized as a long press.
    pub position: Point<F>,
}

impl<F: Scalar> Default for LongPressEvent<F> {
    fn default() -> (result: Self)
        ensures
            result == (LongPressEvent { position: Point::<F>::spec_origin() }),
    {
        LongPressEvent { position: Point::zero() }
    }
}

/// Platform gesture recognition services.
///
/// If your mobile platform supports native gesture recognition, use this
/// to share it.
pub trait PlatformGestures {
    /// Feel constants for the portable recognizers on this platform. A platform that
    /// says nothing has the default ones.
    fn tuning<F: Scalar>(&self) -> (result: GestureTuning<F>)
        default_ensures
            result == GestureTuning::<F>::spec_default(),
    {
        GestureTuning::default()
    }

    /// The gesture kinds this platform recognizes natively. A platform that says
    /// nothing recognizes none.
    fn native_recognizers(&self) -> (result: GestureKinds)
        default_ensures
            result == (GestureKinds { tap: false, long_press: false, pan: false, pinch: false }),
    {
        GestureKinds::none()
    }
}

/// A no-op [`PlatformGestures`] implementation: no native recognizers and
/// default tuning. Suitable for desktop platforms and tests.
#[derive(Clone, Copy, Debug)]
pub struct NullPlatformGestures;

impl PlatformGestures for NullPlatformGestures {
    fn tuning<F: Scalar>(&self) -> (result: GestureTuning<F>)
        ensures
            result == GestureTuning::<F>::spec_default(),
    {
        GestureTuning::default()
    }

    fn native_recognizers(&self) -> (result: GestureKinds)
        ensures
            result == (GestureKinds { tap: false, long_press: false, pan: false, pinch: false }),
    {
        GestureKinds::none()
    }
}

} // verus!
