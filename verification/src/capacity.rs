//! When a collection that is refilled every frame gives its memory back.
use std::collections::HashMap;
use std::hash::{BuildHasher, Hash};

use vstd::prelude::*;
use vstd::std_specs::hash::{builds_valid_hashers, obeys_key_model};

verus! {

/// How many low-use frames in a row it takes to shrink a per-frame collection.
/// Two seconds at 60 frames a second: long enough that a burst of complex
/// frames with brief pauses never thrashes, short enough that one elaborate
/// frame does not set the allocation for the rest of the session.
pub const SHRINK_AFTER_FRAMES: u32 = 120;

/// A per-frame collection is never shrunk below this many elements.
pub const MIN_RETAINED_CAPACITY: usize = 32;

/// Hysteresis for a collection that is refilled every frame and cleared with
/// its capacity kept.
///
/// Clearing keeps the high-water capacity, so one elaborate frame would pin
/// that memory for the life of the window. This notes each frame's fill against
/// the capacity and, after [`SHRINK_AFTER_FRAMES`] frames in a row that filled
/// at most half of it, shrinks to twice the largest fill of that run. Any frame
/// that needs more than half starts the count anew, so a workload that
/// alternates between big and small frames never shrinks at all.
#[derive(Clone, Copy, Debug, PartialEq, Eq)]
pub struct CapacityShrink {
    /// How many low-use frames have passed in a row.
    pub low_use_frames: u32,
    /// The largest fill among them.
    pub max_recent_len: usize,
}

/// The larger of two numbers.
pub open spec fn larger(a: int, b: int) -> int {
    if a > b {
        a
    } else {
        b
    }
}

/// Twice `len`, within what the machine can count.
pub open spec fn twice(len: int) -> int {
    if 2 * len > usize::MAX {
        usize::MAX as int
    } else {
        2 * len
    }
}

/// The capacity for a collection whose fill peaks at `len`: twice that, and no
/// less than [`MIN_RETAINED_CAPACITY`].
pub open spec fn roomy(len: int) -> usize {
    larger(twice(len), MIN_RETAINED_CAPACITY as int) as usize
}

impl CapacityShrink {
    /// Whether the run is not complete yet.
    pub open spec fn wf(self) -> bool {
        self.low_use_frames < SHRINK_AFTER_FRAMES
    }

    /// A tracker that has seen no frame.
    pub open spec fn spec_fresh() -> Self {
        CapacityShrink { low_use_frames: 0, max_recent_len: 0 }
    }

    /// The tracker after a frame of `len` elements in a collection of `capacity`,
    /// and the capacity to shrink to where that frame completes the run.
    pub open spec fn spec_record(self, len: usize, capacity: usize) -> (Self, Option<usize>) {
        let peak = larger(self.max_recent_len as int, len as int);
        if capacity <= MIN_RETAINED_CAPACITY || twice(len as int) > capacity {
            (Self::spec_fresh(), None)
        } else if self.low_use_frames + 1 < SHRINK_AFTER_FRAMES {
            (
                CapacityShrink {
                    low_use_frames: (self.low_use_frames + 1) as u32,
                    max_recent_len: peak as usize,
                },
                None,
            )
        } else {
            (Self::spec_fresh(), Some(roomy(peak)))
        }
    }

    /// The tracker after an idle window whose frame on screen holds `last_len`
    /// elements, and the capacity to shrink to where `capacity` is more.
    pub open spec fn spec_idle_target(self, last_len: usize, capacity: usize) -> (
        Self,
        Option<usize>,
    ) {
        let target = roomy(larger(self.max_recent_len as int, last_len as int));
        if target >= capacity {
            (self, None)
        } else {
            (Self::spec_fresh(), Some(target))
        }
    }

    /// Whether a frame that filled `before` leaves the tracker `after` and the vector
    /// `vec`: the frame is recorded against the capacity that `before` has, and `vec` is
    /// `before` cleared and, where that frame completes the run, shrunk.
    pub open spec fn recorded<T>(self, before: Vec<T>, after: Self, vec: Vec<T>) -> bool {
        exists|capacity: usize| #[trigger]
            has_capacity(before, capacity) && {
                let (tracker, target) = self.spec_record(before@.len() as usize, capacity);
                &&& after == tracker
                &&& match target {
                    Some(target) => exists|emptied: Vec<T>| #[trigger]
                        cleared(before, emptied) && shrunk(emptied, target, vec),
                    None => cleared(before, vec),
                }
            }
    }

    /// Whether an idle window whose frame on screen holds `last_len` elements leaves the
    /// tracker `after` and the vector `vec`: `last_len` is held against the capacity that
    /// `before` has, and `vec` is `before`, shrunk where that is more than needed.
    pub open spec fn idled<T>(
        self,
        before: Vec<T>,
        last_len: usize,
        after: Self,
        vec: Vec<T>,
    ) -> bool {
        exists|capacity: usize| #[trigger]
            has_capacity(before, capacity) && {
                let (tracker, target) = self.spec_idle_target(last_len, capacity);
                &&& after == tracker
                &&& match target {
                    Some(target) => shrunk(before, target, vec),
                    None => vec == before,
                }
            }
    }

    /// A tracker that has seen no frame.
    pub fn new() -> (result: Self)
        ensures
            result == Self::spec_fresh(),
            result.wf(),
    {
        CapacityShrink { low_use_frames: 0, max_recent_len: 0 }
    }

    /// Notes one frame's `len` against `capacity` and returns the capacity to
    /// shrink to, if this frame completes the low-use run.
    pub fn record(&mut self, len: usize, capacity: usize) -> (target: Option<usize>)
        requires
            old(self).wf(),
        ensures
            (*final(self), target) == old(self).spec_record(len, capacity),
            final(self).wf(),
    {
        if capacity <= MIN_RETAINED_CAPACITY || doubled(len) > capacity {
            self.low_use_frames = 0;
            self.max_recent_len = 0;
            return None;
        }
        if len > self.max_recent_len {
            self.max_recent_len = len;
        }
        self.low_use_frames = self.low_use_frames + 1;
        if self.low_use_frames < SHRINK_AFTER_FRAMES {
            return None;
        }
        self.low_use_frames = 0;
        let target: usize = roomy_capacity(self.max_recent_len);
        self.max_recent_len = 0;
        Some(target)
    }

    /// The capacity to shrink to once the window has stopped drawing, given the
    /// fill of the frame still on screen.
    ///
    /// [`Self::record`] only advances on draws, so a heavy scene followed by a
    /// quiet or hidden window would keep its high-water capacity for as long as
    /// it stays quiet. Here the low-use run is taken to be complete now.
    pub fn idle_target(&mut self, last_len: usize, capacity: usize) -> (target: Option<usize>)
        requires
            old(self).wf(),
        ensures
            (*final(self), target) == old(self).spec_idle_target(last_len, capacity),
            final(self).wf(),
    {
        let peak: usize = if self.max_recent_len > last_len {
            self.max_recent_len
        } else {
            last_len
        };
        let target: usize = roomy_capacity(peak);
        if target >= capacity {
            return None;
        }
        self.low_use_frames = 0;
        self.max_recent_len = 0;
        Some(target)
    }

    /// Clears `vec` for the next frame, shrinking it once it has been
    /// over-provisioned for long enough.
    pub fn clear_vec<T>(&mut self, vec: &mut Vec<T>)
        requires
            old(self).wf(),
        ensures
            final(vec)@ == Seq::<T>::empty(),
            old(self).recorded(*old(vec), *final(self), *final(vec)),
            final(self).wf(),
    {
        let capacity: usize = vec_capacity(vec);
        let target = self.record(vec.len(), capacity);
        let mut kept: Vec<T> = Vec::new();
        core::mem::swap(vec, &mut kept);
        let emptied = clear_kept(kept);
        *vec =
        match target {
            Some(target) => shrink_vec(emptied, target),
            None => emptied,
        };
        proof {
            assert(has_capacity(*old(vec), capacity));
            assert(cleared(*old(vec), emptied));
        }
    }

    /// Clears `map` for the next frame, shrinking it once it has been
    /// over-provisioned for long enough.
    pub fn clear_map<K, V, S>(&mut self, map: &mut HashMap<K, V, S>) where
        K: Eq + Hash,
        S: BuildHasher,

        requires
            old(self).wf(),
        ensures
            final(map)@ == Map::<K, V>::empty(),
            obeys_key_model::<K>() && builds_valid_hashers::<S>() ==> exists|capacity: usize|
                #[trigger]
                has_map_capacity(*old(map), capacity) && {
                    let (tracker, target) = old(self).spec_record(
                        old(map)@.len() as usize,
                        capacity,
                    );
                    &&& *final(self) == tracker
                    &&& target is Some ==> exists|kept: &mut HashMap<K, V, S>| #[trigger]
                        shrinks_map(kept, target->Some_0) && kept@ == Map::<K, V>::empty()
                            && *final(kept) == *final(map)
                },
            final(self).wf(),
    {
        let capacity: usize = map_capacity(map);
        let len: usize = map.len();
        let target = self.record(len, capacity);
        map.clear();
        if let Some(target) = target {
            shrink_map(map, target);
        }
        proof {
            assert(has_map_capacity(*old(map), capacity));
            assert forall|kept: &mut HashMap<K, V, S>, target: usize| #[trigger]
                call_ensures(shrink_map::<K, V, S>, (kept, target), ()) implies shrinks_map(
                kept,
                target,
            ) by {}
        }
    }

    /// Shrinks the cleared `vec` to twice `last_len`, the fill of its
    /// counterpart in the frame still on screen, if it holds more than that.
    pub fn shrink_vec_idle<T>(&mut self, vec: &mut Vec<T>, last_len: usize)
        requires
            old(self).wf(),
        ensures
            final(vec)@ == old(vec)@,
            old(self).idled(*old(vec), last_len, *final(self), *final(vec)),
            final(self).wf(),
    {
        let capacity: usize = vec_capacity(vec);
        if let Some(target) = self.idle_target(last_len, capacity) {
            let mut kept: Vec<T> = Vec::new();
            core::mem::swap(vec, &mut kept);
            *vec = shrink_vec(kept, target);
        }
        proof {
            assert(has_capacity(*old(vec), capacity));
        }
    }

    /// Shrinks the cleared `map` to twice `last_len`, the fill of its
    /// counterpart in the frame still on screen, if it holds more than that.
    pub fn shrink_map_idle<K, V, S>(&mut self, map: &mut HashMap<K, V, S>, last_len: usize) where
        K: Eq + Hash,
        S: BuildHasher,

        requires
            old(self).wf(),
        ensures
            final(map)@ == old(map)@,
            exists|capacity: usize| #[trigger]
                has_map_capacity(*old(map), capacity) && {
                    let (tracker, target) = old(self).spec_idle_target(last_len, capacity);
                    &&& *final(self) == tracker
                    &&& match target {
                        Some(target) => exists|kept: &mut HashMap<K, V, S>| #[trigger]
                            shrinks_map(kept, target) && *kept == *old(map) && *final(kept)
                                == *final(map),
                        None => *final(map) == *old(map),
                    }
                },
            final(self).wf(),
    {
        let capacity: usize = map_capacity(map);
        if let Some(target) = self.idle_target(last_len, capacity) {
            shrink_map(map, target);
        }
        proof {
            assert(has_map_capacity(*old(map), capacity));
            assert forall|kept: &mut HashMap<K, V, S>, target: usize| #[trigger]
                call_ensures(shrink_map::<K, V, S>, (kept, target), ()) implies shrinks_map(
                kept,
                target,
            ) by {}
        }
    }
}

impl Default for CapacityShrink {
    fn default() -> (result: Self)
        ensures
            result == Self::spec_fresh(),
            result.wf(),
    {
        CapacityShrink::new()
    }
}

fn doubled(len: usize) -> (result: usize)
    ensures
        result == twice(len as int),
{
    if len > usize::MAX / 2 {
        usize::MAX
    } else {
        len * 2
    }
}

fn roomy_capacity(len: usize) -> (result: usize)
    ensures
        result == roomy(len as int),
{
    let doubled: usize = doubled(len);
    if doubled > MIN_RETAINED_CAPACITY {
        doubled
    } else {
        MIN_RETAINED_CAPACITY
    }
}

/// Whether asking for the capacity of `vec` gives `capacity`.
pub closed spec fn has_capacity<T>(vec: Vec<T>, capacity: usize) -> bool {
    call_ensures(vec_capacity::<T>, (&vec,), capacity)
}

/// Whether every capacity that `vec` can be found to have is enough for `len`
/// elements.
pub open spec fn has_room_for<T>(vec: Vec<T>, len: int) -> bool {
    forall|capacity: usize| #[trigger] has_capacity(vec, capacity) ==> len <= capacity
}

/// Whether clearing `before` gives `after`.
pub closed spec fn cleared<T>(before: Vec<T>, after: Vec<T>) -> bool {
    call_ensures(clear_kept::<T>, (before,), after)
}

/// Whether shrinking `before` to `target` gives `after`.
pub closed spec fn shrunk<T>(before: Vec<T>, target: usize, after: Vec<T>) -> bool {
    call_ensures(shrink_vec::<T>, (before, target), after)
}

/// Clears a vector and keeps its memory.
fn clear_kept<T>(vec: Vec<T>) -> (result: Vec<T>)
    ensures
        result@ == Seq::<T>::empty(),
{
    let mut result = vec;
    result.clear();
    proof {
        assert(result@ =~= Seq::<T>::empty());
    }
    result
}

/// Whether asking for the capacity of `map` gives `capacity`.
pub closed spec fn has_map_capacity<K, V, S>(map: HashMap<K, V, S>, capacity: usize) -> bool {
    call_ensures(map_capacity::<K, V, S>, (&map,), capacity)
}

/// Whether `map` was asked to shrink to `target`.
pub closed spec fn shrinks_map<K: Eq + Hash, V, S: BuildHasher>(
    map: &mut HashMap<K, V, S>,
    target: usize,
) -> bool {
    call_ensures(shrink_map::<K, V, S>, (map, target), ())
}

/// A capacity is never less than what the vector holds.
pub proof fn law_a_capacity_holds_the_elements<T>(vec: Vec<T>, capacity: usize)
    requires
        has_capacity(vec, capacity),
    ensures
        vec@.len() <= capacity,
{
}

/// A shrunk vector holds what it held, in no more memory than it had, and keeps the room
/// that it was asked to keep.
pub proof fn law_shrinking_never_grows<T>(
    before: Vec<T>,
    target: usize,
    after: Vec<T>,
    capacity_before: usize,
    capacity_after: usize,
)
    requires
        shrunk(before, target, after),
        has_capacity(before, capacity_before),
        has_capacity(after, capacity_after),
    ensures
        after@ == before@,
        capacity_after <= capacity_before,
        target <= capacity_before ==> target <= capacity_after,
{
}

/// A vector that [`CapacityShrink::shrink_vec_idle`] changes has no larger capacity
/// afterwards; any other it leaves as it is.
pub proof fn law_idle_vectors_never_grow<T>(
    tracker: CapacityShrink,
    before: Vec<T>,
    last_len: usize,
    tracker_after: CapacityShrink,
    after: Vec<T>,
    capacity_before: usize,
    capacity_after: usize,
)
    requires
        tracker.idled(before, last_len, tracker_after, after),
        after != before,
        has_capacity(before, capacity_before),
        has_capacity(after, capacity_after),
    ensures
        capacity_after <= capacity_before,
{
}

/// Asks for the capacity of `vec`.
pub(crate) fn read_capacity<T>(vec: &Vec<T>) -> (capacity: usize)
    ensures
        has_capacity(*vec, capacity),
        vec@.len() <= capacity,
{
    vec_capacity(vec)
}

/// `Vec::capacity`: how many elements the vector holds without another
/// allocation, which is never less than it holds now.
#[verifier::external_body]
fn vec_capacity<T>(vec: &Vec<T>) -> (capacity: usize)
    ensures
        capacity >= vec@.len(),
{
    vec.capacity()
}

/// `Vec::shrink_to`: gives memory back and keeps every element. The capacity does not
/// grow, and does not fall below `target` unless it is there already. How far it falls
/// is up to the allocator.
#[verifier::external_body]
fn shrink_vec<T>(vec: Vec<T>, target: usize) -> (result: Vec<T>)
    ensures
        result@ == vec@,
        forall|before: usize, after: usize|
            #![trigger has_capacity(vec, before), has_capacity(result, after)]
            has_capacity(vec, before) && has_capacity(result, after) ==> after <= before && (
            target <= before ==> target <= after),
{
    let mut vec = vec;
    vec.shrink_to(target);
    vec
}

/// `HashMap::capacity`: how many entries the map holds without another
/// allocation, which is never less than it holds now.
#[verifier::external_body]
fn map_capacity<K, V, S>(map: &HashMap<K, V, S>) -> (capacity: usize)
    ensures
        obeys_key_model::<K>() && builds_valid_hashers::<S>() ==> capacity >= map@.len(),
{
    map.capacity()
}

/// `HashMap::shrink_to`: gives memory back and keeps every entry.
#[verifier::external_body]
fn shrink_map<K: Eq + Hash, V, S: BuildHasher>(map: &mut HashMap<K, V, S>, target: usize)
    ensures
        final(map)@ == old(map)@,
{
    map.shrink_to(target)
}

/// One frame that fills more than half of a collection restarts the count: it
/// takes a whole run of low-use frames after it to shrink anything.
pub proof fn law_a_busy_frame_restarts_the_run(
    tracker: CapacityShrink,
    len: usize,
    capacity: usize,
)
    requires
        twice(len as int) > capacity,
    ensures
        tracker.spec_record(len, capacity) == (
            CapacityShrink::spec_fresh(),
            None::<usize>,
        ),
{
}

/// A frame: how many elements it filled a collection with, and the capacity that the
/// collection had.
pub type Fill = (usize, usize);

/// Whether a frame filled at most half of a collection that can be shrunk.
pub open spec fn is_low_use(frame: Fill) -> bool {
    frame.1 > MIN_RETAINED_CAPACITY && twice(frame.0 as int) <= frame.1
}

/// The tracker after some frames, and what the last of them shrinks to.
pub open spec fn record_all(tracker: CapacityShrink, frames: Seq<Fill>) -> (
    CapacityShrink,
    Option<usize>,
)
    decreases frames.len(),
{
    if frames.len() == 0 {
        (tracker, None)
    } else {
        record_all(tracker, frames.drop_last()).0.spec_record(frames.last().0, frames.last().1)
    }
}

/// How many low-use frames in a row the last of some frames are.
pub open spec fn low_use_run(frames: Seq<Fill>) -> nat
    decreases frames.len(),
{
    if frames.len() > 0 && is_low_use(frames.last()) {
        low_use_run(frames.drop_last()) + 1
    } else {
        0
    }
}

/// The largest fill among the last `count` of some frames.
pub open spec fn peak_of_last(frames: Seq<Fill>, count: nat) -> int
    decreases count,
{
    if count == 0 || frames.len() == 0 {
        0
    } else {
        larger(
            peak_of_last(frames.drop_last(), (count - 1) as nat),
            frames.last().0 as int,
        )
    }
}

proof fn lemma_peak_of_last(frames: Seq<Fill>, count: nat)
    ensures
        0 <= peak_of_last(frames, count) <= usize::MAX,
    decreases count,
{
    if count > 0 && frames.len() > 0 {
        lemma_peak_of_last(frames.drop_last(), (count - 1) as nat);
    }
}

proof fn lemma_tracker(frames: Seq<Fill>)
    ensures
        ({
            let count = low_use_run(frames) % (SHRINK_AFTER_FRAMES as nat);
            record_all(CapacityShrink::spec_fresh(), frames).0 == CapacityShrink {
                low_use_frames: count as u32,
                max_recent_len: peak_of_last(frames, count) as usize,
            }
        }),
    decreases frames.len(),
{
    if frames.len() > 0 {
        let rest = frames.drop_last();
        lemma_tracker(rest);
        let before = low_use_run(rest) % (SHRINK_AFTER_FRAMES as nat);
        lemma_peak_of_last(rest, before);
        if is_low_use(frames.last()) {
            if before + 1 < SHRINK_AFTER_FRAMES {
                assert(low_use_run(frames) % (SHRINK_AFTER_FRAMES as nat) == before + 1);
            } else {
                assert(low_use_run(frames) % (SHRINK_AFTER_FRAMES as nat) == 0);
            }
        }
    }
}

/// A collection is shrunk on every [`SHRINK_AFTER_FRAMES`]th low-use frame in a row,
/// and on no other, whatever its capacity is from frame to frame; and then to twice the
/// largest fill among those frames.
pub proof fn law_a_full_low_use_run_shrinks(frames: Seq<Fill>)
    ensures
        record_all(CapacityShrink::spec_fresh(), frames).1 == if low_use_run(frames) > 0
            && low_use_run(frames) % (SHRINK_AFTER_FRAMES as nat) == 0 {
            Some(roomy(peak_of_last(frames, SHRINK_AFTER_FRAMES as nat)))
        } else {
            None
        },
{
    if frames.len() > 0 {
        let rest = frames.drop_last();
        lemma_tracker(rest);
        let before = low_use_run(rest) % (SHRINK_AFTER_FRAMES as nat);
        lemma_peak_of_last(rest, before);
        if is_low_use(frames.last()) {
            if before + 1 < SHRINK_AFTER_FRAMES {
                assert(low_use_run(frames) % (SHRINK_AFTER_FRAMES as nat) == before + 1);
            } else {
                assert(low_use_run(frames) % (SHRINK_AFTER_FRAMES as nat) == 0);
            }
        }
    }
}

} // verus!
