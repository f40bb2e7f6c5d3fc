use std::collections::HashMap;

use gpui::capacity::{CapacityShrink, MIN_RETAINED_CAPACITY, SHRINK_AFTER_FRAMES};
use gpui::deferred::{deferred, DeferredPlane};
use gpui::fixed::{Fixed, FixedEasing};
use gpui::geometry::{point, Point};
use gpui::gestures::{
    Axis, GestureKinds, GestureTuning, LongPressEvent, NullPlatformGestures, OngoingScroll,
    PlatformGestures, ScrollAxisLock, TouchPhase,
};
use gpui::manifest_resource::resource_script;
use gpui::render_memory::{
    GaugeChange, RenderMemoryGauge, RenderMemoryGauges, RenderMemoryLedger,
};
use gpui::scalar::Scalar;
use gpui::stable_sort::{reverse, sort_by_key, ReadSortKey, SortKey};
use gpui::thread_park::{
    main_thread_idle, park, set_main_thread_idle_hook, set_thread_park_hooks, ParkHooks,
};
use gpui::util::{
    ceil_to_device_pixel, floor_to_device_pixel, incremented_if_not_zero, resolve_with_timeout,
    round_half_toward_zero, round_stroke_to_device_pixel, round_to_device_pixel, FluentBuilder,
    Timeout,
};
use gpui::window_appearance::{
    window_appearance_from_native, window_appearance_to_native, AppearanceName, WindowAppearance,
};

/// Single-precision lengths.
#[derive(Clone, Copy, Debug, PartialEq, PartialOrd)]
struct Px(f32);

impl Scalar for Px {
    type Easing = fn(f32) -> f32;

    fn ratio(numerator: u32, denominator: u32) -> Self {
        Px(numerator as f32 / denominator as f32)
    }

    fn plus(self, other: Self) -> Self {
        Px(self.0 + other.0)
    }

    fn minus(self, other: Self) -> Self {
        Px(self.0 - other.0)
    }

    fn times(self, other: Self) -> Self {
        Px(self.0 * other.0)
    }

    fn over(self, other: Self) -> Self {
        Px(self.0 / other.0)
    }

    fn negated(self) -> Self {
        Px(-self.0)
    }

    fn abs(self) -> Self {
        Px(self.0.abs())
    }

    fn ceil(self) -> Self {
        Px(self.0.ceil())
    }

    fn floor(self) -> Self {
        Px(self.0.floor())
    }

    fn copysign(self, sign: Self) -> Self {
        Px(self.0.copysign(sign.0))
    }

    fn wrap_unit(self) -> Self {
        Px(self.0.rem_euclid(1.0))
    }

    fn least(self, other: Self) -> Self {
        Px(self.0.min(other.0))
    }

    fn greatest(self, other: Self) -> Self {
        Px(self.0.max(other.0))
    }

    fn lt(self, other: Self) -> bool {
        self.0 < other.0
    }

    fn le(self, other: Self) -> bool {
        self.0 <= other.0
    }

    fn same(self, other: Self) -> bool {
        self.0 == other.0
    }

    fn seconds(nanos: u64) -> Self {
        Px(std::time::Duration::from_nanos(nanos).as_secs_f32())
    }

    fn cycle_fraction(elapsed: u64, period: u64) -> Self {
        let elapsed = std::time::Duration::from_nanos(elapsed).as_secs_f64();
        let period = std::time::Duration::from_nanos(period).as_secs_f64();
        Px((elapsed / period).rem_euclid(1.0) as f32)
    }

    fn linear() -> Self::Easing {
        |progress| progress
    }

    fn ease(easing: Self::Easing, progress: Self) -> Self {
        Px(easing(progress.0))
    }

    fn spec_ratio(numerator: u32, denominator: u32) -> Self {
        Self::ratio(numerator, denominator)
    }

    fn spec_plus(self, other: Self) -> Self {
        self.plus(other)
    }

    fn spec_minus(self, other: Self) -> Self {
        self.minus(other)
    }

    fn spec_times(self, other: Self) -> Self {
        self.times(other)
    }

    fn spec_over(self, other: Self) -> Self {
        self.over(other)
    }

    fn spec_negated(self) -> Self {
        self.negated()
    }

    fn spec_abs(self) -> Self {
        Scalar::abs(self)
    }

    fn spec_ceil(self) -> Self {
        Scalar::ceil(self)
    }

    fn spec_floor(self) -> Self {
        Scalar::floor(self)
    }

    fn spec_copysign(self, sign: Self) -> Self {
        Scalar::copysign(self, sign)
    }

    fn spec_wrap_unit(self) -> Self {
        self.wrap_unit()
    }

    fn spec_least(self, other: Self) -> Self {
        self.least(other)
    }

    fn spec_greatest(self, other: Self) -> Self {
        self.greatest(other)
    }

    fn spec_lt(self, other: Self) -> bool {
        Scalar::lt(self, other)
    }

    fn spec_le(self, other: Self) -> bool {
        Scalar::le(self, other)
    }

    fn spec_same(self, other: Self) -> bool {
        self.same(other)
    }

    fn spec_seconds(nanos: u64) -> Self {
        Self::seconds(nanos)
    }

    fn spec_cycle_fraction(elapsed: u64, period: u64) -> Self {
        Self::cycle_fraction(elapsed, period)
    }

    fn spec_linear() -> Self::Easing {
        Self::linear()
    }

    fn spec_ease(easing: Self::Easing, progress: Self) -> Self {
        Self::ease(easing, progress)
    }
}

/// Double-precision lengths.
#[derive(Clone, Copy, Debug, PartialEq, PartialOrd)]
struct Double(f64);

impl Scalar for Double {
    type Easing = fn(f64) -> f64;

    fn ratio(numerator: u32, denominator: u32) -> Self {
        Double(numerator as f64 / denominator as f64)
    }

    fn plus(self, other: Self) -> Self {
        Double(self.0 + other.0)
    }

    fn minus(self, other: Self) -> Self {
        Double(self.0 - other.0)
    }

    fn times(self, other: Self) -> Self {
        Double(self.0 * other.0)
    }

    fn over(self, other: Self) -> Self {
        Double(self.0 / other.0)
    }

    fn negated(self) -> Self {
        Double(-self.0)
    }

    fn abs(self) -> Self {
        Double(self.0.abs())
    }

    fn ceil(self) -> Self {
        Double(self.0.ceil())
    }

    fn floor(self) -> Self {
        Double(self.0.floor())
    }

    fn copysign(self, sign: Self) -> Self {
        Double(self.0.copysign(sign.0))
    }

    fn wrap_unit(self) -> Self {
        Double(self.0.rem_euclid(1.0))
    }

    fn least(self, other: Self) -> Self {
        Double(self.0.min(other.0))
    }

    fn greatest(self, other: Self) -> Self {
        Double(self.0.max(other.0))
    }

    fn lt(self, other: Self) -> bool {
        self.0 < other.0
    }

    fn le(self, other: Self) -> bool {
        self.0 <= other.0
    }

    fn same(self, other: Self) -> bool {
        self.0 == other.0
    }

    fn seconds(nanos: u64) -> Self {
        Double(std::time::Duration::from_nanos(nanos).as_secs_f64())
    }

    fn cycle_fraction(elapsed: u64, period: u64) -> Self {
        let elapsed = std::time::Duration::from_nanos(elapsed).as_secs_f64();
        let period = std::time::Duration::from_nanos(period).as_secs_f64();
        Double((elapsed / period).rem_euclid(1.0) as f64)
    }

    fn linear() -> Self::Easing {
        |progress| progress
    }

    fn ease(easing: Self::Easing, progress: Self) -> Self {
        Double(easing(progress.0))
    }

    fn spec_ratio(numerator: u32, denominator: u32) -> Self {
        Self::ratio(numerator, denominator)
    }

    fn spec_plus(self, other: Self) -> Self {
        self.plus(other)
    }

    fn spec_minus(self, other: Self) -> Self {
        self.minus(other)
    }

    fn spec_times(self, other: Self) -> Self {
        self.times(other)
    }

    fn spec_over(self, other: Self) -> Self {
        self.over(other)
    }

    fn spec_negated(self) -> Self {
        self.negated()
    }

    fn spec_abs(self) -> Self {
        Scalar::abs(self)
    }

    fn spec_ceil(self) -> Self {
        Scalar::ceil(self)
    }

    fn spec_floor(self) -> Self {
        Scalar::floor(self)
    }

    fn spec_copysign(self, sign: Self) -> Self {
        Scalar::copysign(self, sign)
    }

    fn spec_wrap_unit(self) -> Self {
        self.wrap_unit()
    }

    fn spec_least(self, other: Self) -> Self {
        self.least(other)
    }

    fn spec_greatest(self, other: Self) -> Self {
        self.greatest(other)
    }

    fn spec_lt(self, other: Self) -> bool {
        Scalar::lt(self, other)
    }

    fn spec_le(self, other: Self) -> bool {
        Scalar::le(self, other)
    }

    fn spec_same(self, other: Self) -> bool {
        self.same(other)
    }

    fn spec_seconds(nanos: u64) -> Self {
        Self::seconds(nanos)
    }

    fn spec_cycle_fraction(elapsed: u64, period: u64) -> Self {
        Self::cycle_fraction(elapsed, period)
    }

    fn spec_linear() -> Self::Easing {
        Self::linear()
    }

    fn spec_ease(easing: Self::Easing, progress: Self) -> Self {
        Self::ease(easing, progress)
    }
}

const MILLIS: u64 = 1_000_000;
const NOW: u64 = 1_000_000 * MILLIS;

#[test]
fn test_round_half_toward_zero() {
    let round = |value: f32| round_half_toward_zero(Px(value)).0;
    // Midpoint ties go toward zero
    assert_eq!(round(0.5), 0.0);
    assert_eq!(round(1.5), 1.0);
    assert_eq!(round(2.5), 2.0);
    assert_eq!(round(-0.5), 0.0);
    assert_eq!(round(-1.5), -1.0);
    assert_eq!(round(-2.5), -2.0);

    // Non-midpoint values round to nearest
    assert_eq!(round(1.5001), 2.0);
    assert_eq!(round(1.4999), 1.0);
    assert_eq!(round(-1.5001), -2.0);
    assert_eq!(round(-1.4999), -1.0);

    // Integers are unchanged
    assert_eq!(round(0.0), 0.0);
    assert_eq!(round(3.0), 3.0);
    assert_eq!(round(-3.0), -3.0);
}

#[test]
fn test_device_pixel_helpers() {
    let round = |logical: f32, scale: f32| round_to_device_pixel(Px(logical), Px(scale)).0;
    let stroke = |logical: f32, scale: f32| round_stroke_to_device_pixel(Px(logical), Px(scale)).0;
    let floor = |logical: f32, scale: f32| floor_to_device_pixel(Px(logical), Px(scale)).0;
    let ceil = |logical: f32, scale: f32| ceil_to_device_pixel(Px(logical), Px(scale)).0;

    // Snap uses half-toward-zero: 1.0 * 1.5 = 1.5 ties toward 1.0.
    assert_eq!(round(1.0, 1.5), 1.0);
    // Below the tie rounds down, above rounds up.
    assert_eq!(round(0.3, 2.0), 1.0);
    assert_eq!(round(1.4, 1.0), 1.0);
    assert_eq!(round(1.6, 1.0), 2.0);

    // Stroke uses snap, but clamps non-zero input up to at least 1dp.
    assert_eq!(stroke(0.0, 1.0), 0.0);
    assert_eq!(stroke(0.4, 1.0), 1.0);
    assert_eq!(stroke(0.5, 1.0), 1.0);
    assert_eq!(stroke(1.0, 1.5), 1.0);
    assert_eq!(stroke(1.6, 1.0), 2.0);

    // Cover's near edge floors, far edge ceils. Together they form a strict superset.
    assert_eq!(floor(0.3, 2.0), 0.0);
    assert_eq!(ceil(0.3, 2.0), 1.0);
    assert_eq!(floor(2.1, 1.0), 2.0);
    assert_eq!(ceil(2.1, 1.0), 3.0);

    // Integer device-pixel inputs are stable under all three.
    assert_eq!(round(2.0, 2.0), 4.0);
    assert_eq!(floor(2.0, 2.0), 4.0);
    assert_eq!(ceil(2.0, 2.0), 4.0);
}

#[test]
fn test_round_half_toward_zero_f64() {
    let round = |value: f64| round_half_toward_zero(Double(value)).0;
    assert_eq!(round(0.5), 0.0);
    assert_eq!(round(-0.5), 0.0);
    assert_eq!(round(1.5), 1.0);
    assert_eq!(round(-1.5), -1.0);
    assert_eq!(round(2.5001), 3.0);
}

#[test]
fn shrinks_after_a_full_window_of_low_use_frames() {
    let mut vec: Vec<u64> = Vec::with_capacity(10_000);
    let mut shrink = CapacityShrink::default();
    for _ in 0..SHRINK_AFTER_FRAMES - 1 {
        vec.extend(0..10);
        shrink.clear_vec(&mut vec);
        assert_eq!(vec.capacity(), 10_000);
    }
    vec.extend(0..10);
    shrink.clear_vec(&mut vec);
    assert!(vec.capacity() <= MIN_RETAINED_CAPACITY.max(20));
}

#[test]
fn a_busy_frame_resets_the_window() {
    let mut vec: Vec<u64> = Vec::with_capacity(10_000);
    let mut shrink = CapacityShrink::default();
    for frame in 0..SHRINK_AFTER_FRAMES * 4 {
        let fill = if frame % 100 == 0 { 6_000 } else { 10 };
        vec.extend(0..fill);
        shrink.clear_vec(&mut vec);
        assert_eq!(vec.capacity(), 10_000);
    }
}

#[test]
fn never_shrinks_below_the_floor() {
    let mut shrink = CapacityShrink::default();
    for _ in 0..SHRINK_AFTER_FRAMES * 2 {
        assert_eq!(shrink.record(0, MIN_RETAINED_CAPACITY), None);
    }
    for _ in 0..SHRINK_AFTER_FRAMES - 1 {
        assert_eq!(shrink.record(1, 1_000), None);
    }
    assert_eq!(shrink.record(1, 1_000), Some(MIN_RETAINED_CAPACITY));
}

#[test]
fn idle_shrinks_before_the_frame_window_completes() {
    let mut vec: Vec<u64> = Vec::with_capacity(10_000);
    let mut shrink = CapacityShrink::default();
    for _ in 0..5 {
        vec.extend(0..10);
        shrink.clear_vec(&mut vec);
    }
    assert_eq!(vec.capacity(), 10_000);
    shrink.shrink_vec_idle(&mut vec, 10);
    assert!(vec.capacity() <= MIN_RETAINED_CAPACITY.max(20));
}

#[test]
fn idle_keeps_what_the_frame_on_screen_fills() {
    let mut shrink = CapacityShrink::default();
    assert_eq!(shrink.record(10, 1_000), None);
    assert_eq!(shrink.idle_target(600, 1_000), None);
    assert_eq!(
        shrink.idle_target(10, 1_000),
        Some(MIN_RETAINED_CAPACITY)
    );
}

#[test]
fn idle_target_covers_the_largest_recent_fill() {
    let mut shrink = CapacityShrink::default();
    assert_eq!(shrink.record(300, 10_000), None);
    assert_eq!(shrink.record(10, 10_000), None);
    assert_eq!(shrink.idle_target(10, 10_000), Some(600));
    // The run is consumed: the next idle sizes against the frame on screen
    // alone, where the stale 300 would have called 600 a fit.
    assert_eq!(shrink.idle_target(10, 600), Some(MIN_RETAINED_CAPACITY));
}

#[test]
fn low_use_frames_count_whatever_the_capacity() {
    let mut shrink = CapacityShrink::default();
    // The capacity differs from frame to frame, and so does the fill.
    for frame in 1..=3 * SHRINK_AFTER_FRAMES {
        let fill = frame as usize % 7;
        let expected = if frame % SHRINK_AFTER_FRAMES == 0 {
            Some(MIN_RETAINED_CAPACITY)
        } else {
            None
        };
        assert_eq!(shrink.record(fill, 100 + frame as usize), expected);
    }
    for _ in 1..SHRINK_AFTER_FRAMES {
        assert_eq!(shrink.record(40, 80), None);
    }
    assert_eq!(shrink.record(41, 80), None);
    assert_eq!(shrink, CapacityShrink::default());
}

#[test]
fn large_whole_numbers_are_their_own_rounding() {
    let round = |value: f32| round_half_toward_zero(Px(value)).0;
    assert_eq!(round(8_388_609.0), 8_388_609.0);
    assert_eq!(round(-8_388_611.0), -8_388_611.0);
    assert_eq!(round(4_194_304.5), 4_194_304.0);
    assert_eq!(round(f32::INFINITY), f32::INFINITY);
}

#[test]
fn maps_are_cleared_and_shrunk_like_vectors() {
    let mut map: HashMap<u32, u32> = HashMap::with_capacity(10_000);
    let mut shrink = CapacityShrink::default();
    for _ in 0..SHRINK_AFTER_FRAMES {
        assert!(map.capacity() >= 10_000);
        for i in 0..10 {
            map.insert(i, i);
        }
        shrink.clear_map(&mut map);
        assert!(map.is_empty());
    }
    assert!(map.capacity() < 1_000);
    let mut map: HashMap<u32, u32> = HashMap::with_capacity(10_000);
    map.insert(1, 2);
    shrink.shrink_map_idle(&mut map, 10);
    assert!(map.capacity() < 1_000);
    assert_eq!(map[&1], 2);
}

#[test]
fn ongoing_scroll_locks_to_dominant_axis() {
    let tuning = ScrollAxisLock::balanced();
    let now = NOW;
    let mut ongoing_scroll = OngoingScroll::default();
    let mut horizontal_delta = point(Px(10.), Px(2.));
    ongoing_scroll.filter(&tuning, &mut horizontal_delta, TouchPhase::Started, now);
    assert_eq!(ongoing_scroll.axis, Some(Axis::Horizontal));
    assert_eq!(horizontal_delta, point(Px(10.), Px(0.)));

    let mut continued_delta = point(Px(3.), Px(2.));
    ongoing_scroll.filter(
        &tuning,
        &mut continued_delta,
        TouchPhase::Moved,
        now + MILLIS,
    );
    assert_eq!(ongoing_scroll.axis, Some(Axis::Horizontal));
    assert_eq!(continued_delta, point(Px(3.), Px(0.)));
}

#[test]
fn ongoing_scroll_unlocks_when_direction_changes() {
    let tuning = ScrollAxisLock::balanced();
    let now = NOW;
    let mut ongoing_scroll = OngoingScroll::default();
    let mut horizontal_delta = point(Px(10.), Px(2.));
    ongoing_scroll.filter(&tuning, &mut horizontal_delta, TouchPhase::Started, now);

    let mut vertical_delta = point(Px(2.), Px(10.));
    ongoing_scroll.filter(&tuning, &mut vertical_delta, TouchPhase::Moved, now + MILLIS);
    assert_eq!(ongoing_scroll.axis, None);
    assert_eq!(vertical_delta, point(Px(2.), Px(10.)));
}

#[test]
fn ongoing_scroll_starts_new_gesture_at_timeout_boundary() {
    let tuning = ScrollAxisLock::balanced();
    let now = NOW;
    let mut ongoing_scroll = OngoingScroll::default();
    let mut horizontal_delta = point(Px(10.), Px(2.));
    ongoing_scroll.filter(&tuning, &mut horizontal_delta, TouchPhase::Moved, now);

    let mut vertical_delta = point(Px(2.), Px(10.));
    ongoing_scroll.filter(
        &tuning,
        &mut vertical_delta,
        TouchPhase::Moved,
        now + tuning.gesture_separation,
    );
    assert_eq!(ongoing_scroll.axis, Some(Axis::Vertical));
    assert_eq!(vertical_delta, point(Px(0.), Px(10.)));
}

#[test]
fn ongoing_scroll_ignores_zero_delta_and_resets_when_ended() {
    let tuning = ScrollAxisLock::balanced();
    let now = NOW;
    let mut ongoing_scroll = OngoingScroll::default();
    let mut horizontal_delta = point(Px(10.), Px(2.));
    ongoing_scroll.filter(&tuning, &mut horizontal_delta, TouchPhase::Started, now);

    let mut zero_delta: Point<Px> = Point::zero();
    ongoing_scroll.filter(&tuning, &mut zero_delta, TouchPhase::Ended, now + MILLIS);
    assert_eq!(ongoing_scroll.axis, None);

    let mut vertical_delta = point(Px(2.), Px(3.));
    ongoing_scroll.filter(
        &tuning,
        &mut vertical_delta,
        TouchPhase::Moved,
        now + 2 * MILLIS,
    );
    assert_eq!(ongoing_scroll.axis, Some(Axis::Vertical));
    assert_eq!(vertical_delta, point(Px(0.), Px(3.)));
}

#[test]
fn ongoing_scroll_ignores_zero_delta_movement() {
    let tuning = ScrollAxisLock::balanced();
    let now = NOW;
    let mut ongoing_scroll = OngoingScroll::default();
    let mut horizontal_delta = point(Px(10.), Px(2.));
    ongoing_scroll.filter(&tuning, &mut horizontal_delta, TouchPhase::Started, now);

    let mut zero_delta: Point<Px> = Point::zero();
    ongoing_scroll.filter(
        &tuning,
        &mut zero_delta,
        TouchPhase::Moved,
        now + tuning.gesture_separation,
    );

    let mut vertical_delta = point(Px(2.), Px(10.));
    ongoing_scroll.filter(
        &tuning,
        &mut vertical_delta,
        TouchPhase::Moved,
        now + tuning.gesture_separation,
    );
    assert_eq!(ongoing_scroll.axis, Some(Axis::Vertical));
    assert_eq!(vertical_delta, point(Px(0.), Px(10.)));
}

#[test]
fn ongoing_scroll_supports_moved_only_platforms() {
    let tuning = ScrollAxisLock::balanced();
    let now = NOW;
    let mut ongoing_scroll = OngoingScroll::default();
    let mut horizontal_delta = point(Px(10.), Px(2.));
    ongoing_scroll.filter(&tuning, &mut horizontal_delta, TouchPhase::Moved, now);
    assert_eq!(ongoing_scroll.axis, Some(Axis::Horizontal));
    assert_eq!(horizontal_delta, point(Px(10.), Px(0.)));
}

/// The balanced tuning treats sub-`unlock_lower_bound` movement as noise and reads it as
/// vertical, rather than committing to horizontal on a 1px sideways wobble.
#[test]
fn balanced_tuning_reads_tiny_deltas_as_vertical() {
    let tuning = ScrollAxisLock::balanced();
    let now = NOW;
    let mut ongoing_scroll = OngoingScroll::default();
    let mut jitter = point(Px(2.), Px(1.));

    ongoing_scroll.filter(&tuning, &mut jitter, TouchPhase::Started, now);

    assert_eq!(ongoing_scroll.axis, Some(Axis::Vertical));
}

/// The eager tuning is the one a small embedded horizontal region wants: it claims a gesture
/// that is still drifting downward, which the balanced tuning reads as vertical.
#[test]
fn eager_tuning_claims_a_downward_drifting_sideways_swipe() {
    let tuning = ScrollAxisLock::default();
    let now = NOW;
    let mut balanced = OngoingScroll::default();
    let mut balanced_delta = point(Px(8.), Px(9.));
    balanced.filter(&tuning, &mut balanced_delta, TouchPhase::Started, now);
    assert_eq!(balanced.axis, Some(Axis::Vertical));

    let mut eager = OngoingScroll::default();
    let mut eager_delta = point(Px(8.), Px(9.));
    eager.filter(
        &ScrollAxisLock::eager_horizontal(),
        &mut eager_delta,
        TouchPhase::Started,
        now,
    );
    assert_eq!(eager.axis, Some(Axis::Horizontal));
    assert_eq!(eager_delta, point(Px(8.), Px(0.)));
}

/// The eager tuning also breaks a vertical lock on much weaker sideways intent.
#[test]
fn eager_tuning_unlocks_a_vertical_gesture_sooner() {
    let tuning = ScrollAxisLock::balanced();
    let now = NOW;
    let mut vertical = point(Px(0.), Px(30.));
    let later = now + MILLIS;

    let mut balanced = OngoingScroll::default();
    balanced.filter(&tuning, &mut vertical.clone(), TouchPhase::Started, now);
    balanced.filter(
        &tuning,
        &mut point(Px(9.), Px(8.)),
        TouchPhase::Moved,
        later,
    );
    assert_eq!(
        balanced.axis,
        Some(Axis::Vertical),
        "9 vs 8 is well under the balanced 1.9x unlock ratio"
    );

    let eager_tuning = ScrollAxisLock::eager_horizontal();
    let mut eager = OngoingScroll::default();
    eager.filter(&eager_tuning, &mut vertical, TouchPhase::Started, now);
    eager.filter(
        &eager_tuning,
        &mut point(Px(9.), Px(8.)),
        TouchPhase::Moved,
        later,
    );
    assert_eq!(eager.axis, None, "the eager 1.05x ratio releases the lock");
}

/// Signs must not decide intent: a hard flick left/up is as much intent as right/down.
#[test]
fn dominance_uses_magnitudes_not_signs() {
    let tuning = ScrollAxisLock::balanced();
    let now = NOW;
    let mut ongoing_scroll = OngoingScroll::default();
    let mut leftward = point(Px(-24.), Px(-6.));

    ongoing_scroll.filter(&tuning, &mut leftward, TouchPhase::Started, now);

    assert_eq!(ongoing_scroll.axis, Some(Axis::Horizontal));
    assert_eq!(leftward, point(Px(-24.), Px(0.)));
}

/// `lock_to` names the axis outright, bypassing the dominance test, and counts as an event
/// so the following delta continues the same gesture rather than starting a new one.
#[test]
fn lock_to_pins_the_axis_without_a_dominant_delta() {
    let tuning = ScrollAxisLock::balanced();
    let mut ongoing_scroll = OngoingScroll::default();
    ongoing_scroll.lock_to(Axis::Horizontal, NOW);
    assert_eq!(ongoing_scroll.axis(), Some(Axis::Horizontal));

    // Vertically dominant, but under the noise floor, so the lock stands and the vertical
    // component is filtered out. A fresh gesture would have read this as vertical.
    let mut drifting_delta = point(Px(3.), Px(4.));
    ongoing_scroll.filter(&tuning, &mut drifting_delta, TouchPhase::Moved, NOW);

    assert_eq!(ongoing_scroll.axis(), Some(Axis::Horizontal));
    assert_eq!(drifting_delta, point(Px(3.), Px(0.)));
}

/// ...but the lock is not permanent: clear intent on the other axis still releases it, which
/// is what lets a Shift-locked gesture hand control back once Shift is no longer driving it.
#[test]
fn lock_to_still_releases_on_clear_opposing_intent() {
    let tuning = ScrollAxisLock::balanced();
    let mut ongoing_scroll = OngoingScroll::default();
    ongoing_scroll.lock_to(Axis::Horizontal, NOW);

    let mut vertical_delta = point(Px(1.), Px(9.));
    ongoing_scroll.filter(&tuning, &mut vertical_delta, TouchPhase::Moved, NOW);

    assert_eq!(ongoing_scroll.axis(), None);
    assert_eq!(vertical_delta, point(Px(1.), Px(9.)));
}

#[test]
fn a_cancelled_touch_ends_its_gesture() {
    let tuning = ScrollAxisLock::balanced();
    let mut ongoing_scroll = OngoingScroll::new();
    ongoing_scroll.lock_to(Axis::Vertical, NOW);
    let mut delta = point(Px(5.), Px(7.));
    ongoing_scroll.filter(&tuning, &mut delta, TouchPhase::Cancelled, NOW);
    assert_eq!(ongoing_scroll, OngoingScroll::default());
    assert_eq!(delta, point(Px(5.), Px(7.)));
    ongoing_scroll.lock_to(Axis::Vertical, NOW);
    let mut still: Point<Px> = Point::zero();
    ongoing_scroll.filter(&tuning, &mut still, TouchPhase::Started, NOW);
    assert_eq!(ongoing_scroll, OngoingScroll::default());
}

struct SilentPlatform;

impl PlatformGestures for SilentPlatform {}

#[test]
fn platforms_that_say_nothing_have_the_defaults() {
    let tuning: GestureTuning<Px> = SilentPlatform.tuning();
    assert_eq!(tuning, GestureTuning::default());
    assert_eq!(SilentPlatform.native_recognizers(), GestureKinds::none());
}

#[test]
fn platforms_without_recognizers_use_the_portable_ones() {
    let gestures = NullPlatformGestures;
    let tuning: GestureTuning<Px> = gestures.tuning();
    assert_eq!(tuning, GestureTuning::default());
    assert_eq!(tuning.touch_slop, Px(8.));
    assert_eq!(tuning.multi_tap_interval, 400 * MILLIS);
    assert_eq!(tuning.multi_tap_slop, Px(16.));
    assert_eq!(tuning.long_press_duration, 500 * MILLIS);
    assert_eq!(tuning.momentum_decay_per_ms, Px(0.998));
    assert_eq!(tuning.min_fling_velocity, Px(50.));
    assert_eq!(gestures.native_recognizers(), GestureKinds::none());
    assert_eq!(GestureKinds::none(), GestureKinds::default());
    assert!(GestureKinds::all().pinch && GestureKinds::all().tap);
    let press: LongPressEvent<Px> = LongPressEvent::default();
    assert_eq!(press.position, point(Px(0.), Px(0.)));
}

const MIB: u64 = 1024 * 1024;

#[test]
fn ledgers_sum_into_the_gauges_and_leave_when_dropped() {
    let mut gauges = RenderMemoryGauges::default();
    let before = gauges;

    let mut atlas = RenderMemoryLedger::default();
    let mut renderer = RenderMemoryLedger::default();
    atlas.publish(&mut gauges, RenderMemoryGauge::AtlasPolychrome, 4 * MIB);
    renderer.publish(&mut gauges, RenderMemoryGauge::DepthTextures, 15 * MIB);
    // A smaller re-report takes the difference back out.
    renderer.publish(&mut gauges, RenderMemoryGauge::DepthTextures, 10 * MIB);
    assert_eq!(
        atlas.published(RenderMemoryGauge::AtlasPolychrome),
        4 * MIB
    );
    assert_eq!(
        renderer.published(RenderMemoryGauge::DepthTextures),
        10 * MIB
    );

    let during = gauges;
    assert_eq!(
        during.atlas_polychrome_bytes - before.atlas_polychrome_bytes,
        4 * MIB
    );
    assert_eq!(
        during.depth_texture_bytes - before.depth_texture_bytes,
        10 * MIB
    );
    assert_eq!(during.atlas_monochrome_bytes, before.atlas_monochrome_bytes);
    assert_eq!(during.instance_buffer_bytes, before.instance_buffer_bytes);

    renderer.retire(&mut gauges);
    let without_renderer = gauges;
    assert_eq!(
        without_renderer.depth_texture_bytes,
        before.depth_texture_bytes
    );
    assert_eq!(
        without_renderer.atlas_polychrome_bytes - before.atlas_polychrome_bytes,
        4 * MIB
    );

    atlas.retire(&mut gauges);
    assert_eq!(gauges, before);
}

#[test]
fn gauges_wrap_around_like_counters() {
    let mut ledger = RenderMemoryLedger::new();
    assert_eq!(
        ledger.note(RenderMemoryGauge::InstanceBuffers, 10),
        GaugeChange::Rise(10)
    );
    assert_eq!(
        ledger.note(RenderMemoryGauge::InstanceBuffers, 4),
        GaugeChange::Fall(6)
    );
    let mut gauges = RenderMemoryGauges::new();
    // The gauge has not seen what the ledger noted.
    ledger.publish(&mut gauges, RenderMemoryGauge::InstanceBuffers, 0);
    assert_eq!(
        gauges.read(RenderMemoryGauge::InstanceBuffers),
        u64::MAX - 3
    );
}

#[test]
fn park_hooks_are_installed_once_and_pair() {
    let mut hooks: ParkHooks<&str> = ParkHooks::new();
    let (now, parked) = park(&hooks);
    assert_eq!(now, None);
    assert_eq!(parked.on_unpark, None);
    assert_eq!(main_thread_idle(&hooks), None);

    assert!(set_thread_park_hooks(&mut hooks, "park", "unpark"));
    assert!(!set_thread_park_hooks(&mut hooks, "other", "pair"));
    let (now, parked) = park(&hooks);
    assert_eq!(now, Some("park"));
    assert_eq!(parked.on_unpark, Some("unpark"));

    assert!(set_main_thread_idle_hook(&mut hooks, "idle"));
    assert!(!set_main_thread_idle_hook(&mut hooks, "again"));
    assert_eq!(main_thread_idle(&hooks), Some("idle"));
}

#[test]
fn deferred_children_are_handed_on_once() {
    let mut popup = deferred("menu").with_priority(3);
    let draw = popup.take_draw();
    assert_eq!(draw.child, "menu");
    assert_eq!(draw.priority, 3);
    assert_eq!(draw.plane, DeferredPlane::Overlay);
    assert!(popup.child.is_none());

    let mut page = deferred("page").priority(1).beneath_native_surfaces();
    let draw = page.take_draw();
    assert_eq!(draw.priority, 1);
    assert_eq!(draw.plane, DeferredPlane::Base);
}

#[test]
fn builders_are_modified_on_conditions() {
    let raised = |element: gpui::deferred::Deferred<&'static str>| element.with_priority(7);
    assert_eq!(deferred("a").map(|element| element.priority), 0);
    assert_eq!(deferred("a").when(true, raised).priority, 7);
    assert_eq!(deferred("a").when(false, raised).priority, 0);
    assert_eq!(
        deferred("a")
            .when_else(false, raised, |element| element.with_priority(2))
            .priority,
        2
    );
    assert_eq!(
        deferred("a")
            .when_some(Some(5), |element, priority| element.with_priority(priority))
            .priority,
        5
    );
    assert_eq!(
        deferred("a")
            .when_some(None, |element, priority| element.with_priority(priority))
            .priority,
        0
    );
    assert_eq!(deferred("a").when_none(&None::<u8>, raised).priority, 7);
    assert_eq!(deferred("a").when_none(&Some(1), raised).priority, 0);
}

#[test]
fn timeouts_lose_to_results() {
    assert_eq!(resolve_with_timeout(Some(3), true), Some(Ok(3)));
    assert_eq!(resolve_with_timeout(Some(3), false), Some(Ok(3)));
    assert_eq!(resolve_with_timeout::<u8>(None, true), Some(Err(Timeout)));
    assert_eq!(resolve_with_timeout::<u8>(None, false), None);
    assert_eq!(Timeout.message(), "Timed out before future resolved");
}

#[test]
fn counters_at_zero_stay_there() {
    assert_eq!(incremented_if_not_zero(0), None);
    assert_eq!(incremented_if_not_zero(1), Some(2));
}

#[test]
fn appearances_round_trip_through_their_names() {
    for appearance in [
        WindowAppearance::Light,
        WindowAppearance::VibrantLight,
        WindowAppearance::Dark,
        WindowAppearance::VibrantDark,
    ] {
        assert_eq!(
            window_appearance_from_native(window_appearance_to_native(appearance)),
            appearance
        );
    }
    assert_eq!(
        window_appearance_from_native(AppearanceName::Unknown),
        WindowAppearance::Light
    );
    assert_eq!(
        window_appearance_to_native(WindowAppearance::Light),
        AppearanceName::Aqua
    );
}

#[test]
fn resource_scripts_escape_paths() {
    let script = String::from_utf8(resource_script("C:\\gpui\\é.xml")).unwrap();
    assert_eq!(
        script,
        "#define RT_MANIFEST 24\n1 RT_MANIFEST \"C:\\\\gpui\\\\é.xml\"\n"
    );
}

#[derive(Debug, PartialEq, Clone)]
struct Card(u64, char);

impl SortKey for Card {
    fn sort_key(self) -> u64 {
        self.0
    }
}

impl ReadSortKey for Card {
    fn read_sort_key(&self) -> u64 {
        self.0
    }
}

#[test]
fn sorting_is_stable() {
    let mut cards = vec![
        Card(3, 'a'),
        Card(1, 'b'),
        Card(3, 'c'),
        Card(2, 'd'),
        Card(1, 'e'),
        Card(3, 'f'),
    ];
    sort_by_key(&mut cards);
    let order: String = cards.iter().map(|card| card.1).collect();
    assert_eq!(order, "bedacf");
    reverse(&mut cards);
    assert_eq!(cards[0], Card(3, 'f'));

    // A pseudo-random shuffle, against the sort of the standard library.
    let mut state = 12345u64;
    let mut many: Vec<Card> = (0..2000u32)
        .map(|index| {
            state = state.wrapping_mul(6364136223846793005).wrapping_add(1);
            Card(state >> 59, char::from_u32(0x4e00 + index).unwrap())
        })
        .collect();
    let mut expected = many.clone();
    expected.sort_by_key(|card| card.0);
    sort_by_key(&mut many);
    assert_eq!(many, expected);
}

#[test]
fn fixed_point_numbers_calculate() {
    let half = Fixed::ratio(1, 2);
    let three = Fixed::ratio(3, 1);
    assert_eq!(half.raw, 32768);
    assert_eq!(three.times(half), Fixed::ratio(3, 2));
    assert_eq!(three.over(Fixed::ratio(2, 1)), Fixed::ratio(3, 2));
    assert_eq!(three.over(Fixed::new(0)), Fixed::new(0));
    assert_eq!(half.minus(three), Fixed::ratio(5, 2).negated());
    assert_eq!(Scalar::abs(Fixed::ratio(5, 2).negated()), Fixed::ratio(5, 2));
    assert_eq!(Scalar::ceil(half), Fixed::ratio(1, 1));
    assert_eq!(Scalar::ceil(half.negated()), Fixed::new(0));
    assert_eq!(Scalar::floor(half.negated()), Fixed::ratio(1, 1).negated());
    assert_eq!(half.negated().wrap_unit(), half);
    assert_eq!(
        Scalar::copysign(three, half.negated()),
        three.negated()
    );
    assert_eq!(Fixed::seconds(1_500_000_000), Fixed::ratio(3, 2));
    assert_eq!(Fixed::cycle_fraction(7, 4), Fixed::ratio(3, 4));
    assert_eq!(Fixed::ease(FixedEasing::Quadratic, half), Fixed::ratio(1, 4));
    assert_eq!(Fixed::new(i64::MAX).plus(Fixed::new(1)), Fixed::new(i64::MIN));
    assert_eq!(
        Fixed::new(i64::MAX).times(Fixed::ratio(2, 1)),
        Fixed::new(i64::MAX)
    );
    assert_eq!(Scalar::abs(Fixed::new(i64::MIN)), Fixed::new(i64::MAX));
    for (value, rounded) in [(3, 1), (5, 2), (7, 3), (-3, -1), (-5, -2), (6, 3)] {
        // Halves go toward zero.
        assert_eq!(
            round_half_toward_zero(Fixed::new(value * 32768)),
            Fixed::new(rounded * 65536)
        );
    }
}
