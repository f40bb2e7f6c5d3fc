//! What transitions, cycles and sweeps do to what a finished scene holds.
use vstd::prelude::*;

use crate::animation::SceneTransition;
use crate::color::Background;
use crate::finish_laws::{
    law_a_finished_scene_is_presentable, lemma_in_all_targets, lemma_indices_where, lemma_targets,
};
use crate::geometry::Point;
use crate::primitives::{MonochromeSprite, Quad, SubpixelSprite};
use crate::scalar::{spec_clamp, spec_one, spec_zero, Scalar};
use crate::scene_laws::names_resolve;
use crate::scene_model::{
    composed_state, lists, monochrome_sweeps, parents_come_first, quad_cycles, subpixel_sweeps,
    targets, SceneModel, TransitionTarget, Transitioned, TransitionedPrimitive,
};
use crate::stable_sort::{law_stable_sort, lemma_stable_sort_elements};

verus! {

/// The opacity of the transition `id` at `now`: its own, times that of the transition that it
/// lies inside of, times that of the next one around, and so on.
pub open spec fn joint_opacity<F: Scalar>(
    transitions: Seq<SceneTransition<F>>,
    id: int,
    now: u64,
) -> F
    decreases id,
{
    let transition = transitions[id - 1];
    let own = transition.transition.spec_opacity_at(now);
    if 0 < transition.parent < id {
        own.spec_times(joint_opacity(transitions, transition.parent as int, now))
    } else {
        own
    }
}

/// The horizontal offset of the transition `id` at `now`, in device pixels: its own, plus
/// those of all transitions around it.
pub open spec fn joint_x<F: Scalar>(transitions: Seq<SceneTransition<F>>, id: int, now: u64) -> F
    decreases id,
{
    let transition = transitions[id - 1];
    let own = transition.transition.spec_offset_at(now).x.spec_times(transition.scale_factor);
    if 0 < transition.parent < id {
        own.spec_plus(joint_x(transitions, transition.parent as int, now))
    } else {
        own
    }
}

/// The vertical offset of the transition `id` at `now`, in device pixels: its own, plus those
/// of all transitions around it.
pub open spec fn joint_y<F: Scalar>(transitions: Seq<SceneTransition<F>>, id: int, now: u64) -> F
    decreases id,
{
    let transition = transitions[id - 1];
    let own = transition.transition.spec_offset_at(now).y.spec_times(transition.scale_factor);
    if 0 < transition.parent < id {
        own.spec_plus(joint_y(transitions, transition.parent as int, now))
    } else {
        own
    }
}

proof fn lemma_joint<F: Scalar>(transitions: Seq<SceneTransition<F>>, id: int, now: u64)
    requires
        parents_come_first(transitions),
        1 <= id <= transitions.len(),
    ensures
        composed_state(transitions, id - 1, now).0 == (Point {
            x: joint_x(transitions, id, now),
            y: joint_y(transitions, id, now),
        }),
        composed_state(transitions, id - 1, now).1 == joint_opacity(transitions, id, now),
    decreases id,
{
    assert(transitions[id - 1].parent <= id - 1);
    if transitions[id - 1].parent != 0 {
        lemma_joint(transitions, transitions[id - 1].parent as int, now);
    }
}

/// Inside a transition that does not fade, a transition fades as it would alone; and inside
/// one that does not move, it moves as it would alone: where one is neutral for products, and
/// zero for sums.
pub proof fn law_a_still_parent_changes_nothing<F: Scalar>(
    transitions: Seq<SceneTransition<F>>,
    id: int,
    now: u64,
)
    requires
        parents_come_first(transitions),
        1 <= id <= transitions.len(),
        forall|a: F| #[trigger] a.spec_times(spec_one()) == a,
        forall|a: F| #[trigger] a.spec_plus(spec_zero()) == a,
    ensures
        ({
            let own = transitions[id - 1];
            let (offset, opacity) = composed_state(transitions, id - 1, now);
            let around = composed_state(transitions, own.parent - 1, now);
            &&& own.parent == 0 || around.1 == spec_one::<F>() ==> opacity
                == own.transition.spec_opacity_at(now)
            &&& own.parent == 0 || around.0.x == spec_zero::<F>() ==> offset.x
                == own.transition.spec_offset_at(now).x.spec_times(own.scale_factor)
            &&& own.parent == 0 || around.0.y == spec_zero::<F>() ==> offset.y
                == own.transition.spec_offset_at(now).y.spec_times(own.scale_factor)
        }),
{
    assert(transitions[id - 1].parent <= id - 1);
    lemma_joint(transitions, id, now);
    if transitions[id - 1].parent != 0 {
        lemma_joint(transitions, transitions[id - 1].parent as int, now);
    }
}

/// Whether a point was moved from rest by the transition `id`.
pub open spec fn moved_from<F: Scalar>(
    rest: Point<F>,
    after: Point<F>,
    transitions: Seq<SceneTransition<F>>,
    id: u32,
    now: u64,
) -> bool {
    &&& after.x == rest.x.spec_plus(joint_x(transitions, id as int, now))
    &&& after.y == rest.y.spec_plus(joint_y(transitions, id as int, now))
}

/// Whether an opacity was faded from rest by the transition `id`.
pub open spec fn faded_from<F: Scalar>(
    rest: F,
    after: F,
    transitions: Seq<SceneTransition<F>>,
    id: u32,
    now: u64,
) -> bool {
    after == rest.spec_times(joint_opacity(transitions, id as int, now))
}

/// Whether each color of a background was faded from rest by the transition `id`, held between
/// nothing and all.
pub open spec fn background_faded_from<F: Scalar>(
    rest: Background<F>,
    after: Background<F>,
    transitions: Seq<SceneTransition<F>>,
    id: u32,
    now: u64,
) -> bool {
    let factor = spec_clamp(
        joint_opacity(transitions, id as int, now),
        spec_zero(),
        spec_one(),
    );
    &&& after.solid.a == rest.solid.a.spec_times(factor)
    &&& after.first_stop.color.a == rest.first_stop.color.a.spec_times(factor)
    &&& after.last_stop.color.a == rest.last_stop.color.a.spec_times(factor)
    &&& after.tag == rest.tag
}

/// What transitions do to each kind of primitive: what carries one is moved and faded by it
/// from how it is at rest, and what carries none is as it is at rest.
pub open spec fn put_from_rest<F: Scalar>(
    rest: SceneModel<F>,
    after: SceneModel<F>,
    now: u64,
    i: int,
) -> bool {
    let all = rest.transitions;
    &&& 0 <= i < rest.monochrome_sprites.len() ==> {
        let (a, b) = (rest.monochrome_sprites[i], after.monochrome_sprites[i]);
        if a.pad != 0 {
            &&& moved_from(a.bounds.origin, b.bounds.origin, all, a.pad, now)
            &&& faded_from(a.color.a, b.color.a, all, a.pad, now)
            &&& b.bounds.size == a.bounds.size && b.tile == a.tile && b.color.h == a.color.h
        } else {
            b == a
        }
    }
    &&& 0 <= i < rest.subpixel_sprites.len() ==> {
        let (a, b) = (rest.subpixel_sprites[i], after.subpixel_sprites[i]);
        if a.pad != 0 {
            &&& moved_from(a.bounds.origin, b.bounds.origin, all, a.pad, now)
            &&& faded_from(a.color.a, b.color.a, all, a.pad, now)
            &&& b.bounds.size == a.bounds.size && b.tile == a.tile && b.color.h == a.color.h
        } else {
            b == a
        }
    }
    &&& 0 <= i < rest.polychrome_sprites.len() ==> {
        let (a, b) = (rest.polychrome_sprites[i], after.polychrome_sprites[i]);
        if a.pad != 0 {
            &&& moved_from(a.bounds.origin, b.bounds.origin, all, a.pad, now)
            &&& faded_from(a.opacity, b.opacity, all, a.pad, now)
            &&& b.bounds.size == a.bounds.size && b.tile == a.tile
        } else {
            b == a
        }
    }
    &&& 0 <= i < rest.underlines.len() ==> {
        let (a, b) = (rest.underlines[i], after.underlines[i]);
        if a.pad != 0 {
            &&& moved_from(a.bounds.origin, b.bounds.origin, all, a.pad, now)
            &&& faded_from(a.color.a, b.color.a, all, a.pad, now)
            &&& b.bounds.size == a.bounds.size && b.color.h == a.color.h
        } else {
            b == a
        }
    }
    &&& 0 <= i < rest.shadows.len() ==> {
        let (a, b) = (rest.shadows[i], after.shadows[i]);
        if a.pad != 0 {
            &&& moved_from(a.bounds.origin, b.bounds.origin, all, a.pad, now)
            &&& moved_from(a.element_bounds.origin, b.element_bounds.origin, all, a.pad, now)
            &&& faded_from(a.color.a, b.color.a, all, a.pad, now)
            &&& b.bounds.size == a.bounds.size && b.element_bounds.size == a.element_bounds.size
        } else {
            b == a
        }
    }
    &&& 0 <= i < rest.quads.len() && rest.quads[i].background.animation == 0 ==> {
        let (a, b) = (rest.quads[i], after.quads[i]);
        let id = a.background.transition;
        if id != 0 {
            &&& moved_from(a.bounds.origin, b.bounds.origin, all, id, now)
            &&& background_faded_from(a.background, b.background, all, id, now)
            &&& b.border_color.a == a.border_color.a.spec_times(
                spec_clamp(joint_opacity(all, id as int, now), spec_zero(), spec_one()),
            )
            &&& b.bounds.size == a.bounds.size && b.background.transition == id
        } else {
            b == a
        }
    }
}

/// Whether what a target says of rest is so in `rest`.
spec fn target_at_rest<F: Scalar>(rest: SceneModel<F>, p: TransitionedPrimitive<F>) -> bool {
    match p.target {
        TransitionTarget::MonochromeSprite { index, .. } => index < rest.monochrome_sprites.len()
            && p == rest.monochrome_sprites[index as int].spec_transitioned(index),
        TransitionTarget::SubpixelSprite { index, .. } => index < rest.subpixel_sprites.len() && p
            == rest.subpixel_sprites[index as int].spec_transitioned(index),
        TransitionTarget::PolychromeSprite { index, .. } => index < rest.polychrome_sprites.len()
            && p == rest.polychrome_sprites[index as int].spec_transitioned(index),
        TransitionTarget::Underline { index, .. } => index < rest.underlines.len() && p
            == rest.underlines[index as int].spec_transitioned(index),
        TransitionTarget::Shadow { index, .. } => index < rest.shadows.len() && p
            == rest.shadows[index as int].spec_transitioned(index),
        TransitionTarget::Quad { index, .. } => index < rest.quads.len() && p
            == rest.quads[index as int].spec_transitioned(index),
    }
}

/// Whether the first `count` targets hold the primitive at `i` of the kind at `place`.
spec fn reached<F: Scalar>(
    found: Seq<TransitionedPrimitive<F>>,
    count: int,
    place: int,
    i: int,
) -> bool {
    exists|j: int|
        0 <= j < count && match (#[trigger] found[j]).target {
            TransitionTarget::MonochromeSprite { index, .. } => place == 0 && index == i,
            TransitionTarget::SubpixelSprite { index, .. } => place == 1 && index == i,
            TransitionTarget::PolychromeSprite { index, .. } => place == 2 && index == i,
            TransitionTarget::Underline { index, .. } => place == 3 && index == i,
            TransitionTarget::Shadow { index, .. } => place == 4 && index == i,
            TransitionTarget::Quad { index, .. } => place == 5 && index == i,
        }
}

/// `put_from_rest`, for those primitives that the first `count` targets hold, the others being
/// as they are at rest.
spec fn put_so_far<F: Scalar>(
    rest: SceneModel<F>,
    after: SceneModel<F>,
    found: Seq<TransitionedPrimitive<F>>,
    count: int,
    now: u64,
    i: int,
) -> bool {
    let all = rest.transitions;
    &&& 0 <= i < rest.monochrome_sprites.len() ==> {
        let (a, b) = (rest.monochrome_sprites[i], after.monochrome_sprites[i]);
        if reached(found, count, 0, i) {
            &&& moved_from(a.bounds.origin, b.bounds.origin, all, a.pad, now)
            &&& faded_from(a.color.a, b.color.a, all, a.pad, now)
            &&& b.bounds.size == a.bounds.size && b.tile == a.tile && b.color.h == a.color.h
        } else {
            b == a
        }
    }
    &&& 0 <= i < rest.subpixel_sprites.len() ==> {
        let (a, b) = (rest.subpixel_sprites[i], after.subpixel_sprites[i]);
        if reached(found, count, 1, i) {
            &&& moved_from(a.bounds.origin, b.bounds.origin, all, a.pad, now)
            &&& faded_from(a.color.a, b.color.a, all, a.pad, now)
            &&& b.bounds.size == a.bounds.size && b.tile == a.tile && b.color.h == a.color.h
        } else {
            b == a
        }
    }
    &&& 0 <= i < rest.polychrome_sprites.len() ==> {
        let (a, b) = (rest.polychrome_sprites[i], after.polychrome_sprites[i]);
        if reached(found, count, 2, i) {
            &&& moved_from(a.bounds.origin, b.bounds.origin, all, a.pad, now)
            &&& faded_from(a.opacity, b.opacity, all, a.pad, now)
            &&& b.bounds.size == a.bounds.size && b.tile == a.tile
        } else {
            b == a
        }
    }
    &&& 0 <= i < rest.underlines.len() ==> {
        let (a, b) = (rest.underlines[i], after.underlines[i]);
        if reached(found, count, 3, i) {
            &&& moved_from(a.bounds.origin, b.bounds.origin, all, a.pad, now)
            &&& faded_from(a.color.a, b.color.a, all, a.pad, now)
            &&& b.bounds.size == a.bounds.size && b.color.h == a.color.h
        } else {
            b == a
        }
    }
    &&& 0 <= i < rest.shadows.len() ==> {
        let (a, b) = (rest.shadows[i], after.shadows[i]);
        if reached(found, count, 4, i) {
            &&& moved_from(a.bounds.origin, b.bounds.origin, all, a.pad, now)
            &&& moved_from(a.element_bounds.origin, b.element_bounds.origin, all, a.pad, now)
            &&& faded_from(a.color.a, b.color.a, all, a.pad, now)
            &&& b.bounds.size == a.bounds.size && b.element_bounds.size == a.element_bounds.size
        } else {
            b == a
        }
    }
    &&& 0 <= i < rest.quads.len() && rest.quads[i].background.animation == 0 ==> {
        let (a, b) = (rest.quads[i], after.quads[i]);
        let id = a.background.transition;
        &&& b.background.animation == 0
        &&& if reached(found, count, 5, i) {
            &&& moved_from(a.bounds.origin, b.bounds.origin, all, id, now)
            &&& background_faded_from(a.background, b.background, all, id, now)
            &&& b.border_color.a == a.border_color.a.spec_times(
                spec_clamp(joint_opacity(all, id as int, now), spec_zero(), spec_one()),
            )
            &&& b.bounds.size == a.bounds.size && b.background.transition == id
        } else {
            b == a
        }
    }
}

proof fn lemma_reached_step<F: Scalar>(
    found: Seq<TransitionedPrimitive<F>>,
    count: int,
    place: int,
    i: int,
)
    requires
        0 < count <= found.len(),
    ensures
        reached(found, count, place, i) <==> reached(found, count - 1, place, i) || match found[
        count - 1].target {
            TransitionTarget::MonochromeSprite { index, .. } => place == 0 && index == i,
            TransitionTarget::SubpixelSprite { index, .. } => place == 1 && index == i,
            TransitionTarget::PolychromeSprite { index, .. } => place == 2 && index == i,
            TransitionTarget::Underline { index, .. } => place == 3 && index == i,
            TransitionTarget::Shadow { index, .. } => place == 4 && index == i,
            TransitionTarget::Quad { index, .. } => place == 5 && index == i,
        },
{
    let last = found[count - 1];
    if reached(found, count - 1, place, i) {
        let j = choose|j: int|
            0 <= j < count - 1 && match (#[trigger] found[j]).target {
                TransitionTarget::MonochromeSprite { index, .. } => place == 0 && index == i,
                TransitionTarget::SubpixelSprite { index, .. } => place == 1 && index == i,
                TransitionTarget::PolychromeSprite { index, .. } => place == 2 && index == i,
                TransitionTarget::Underline { index, .. } => place == 3 && index == i,
                TransitionTarget::Shadow { index, .. } => place == 4 && index == i,
                TransitionTarget::Quad { index, .. } => place == 5 && index == i,
            };
        assert(0 <= j < count);
        assert(found[j] == found[j]);
    }
}

proof fn lemma_put_so_far<F: Scalar>(rest: SceneModel<F>, now: u64, count: nat, i: int)
    requires
        parents_come_first(rest.transitions),
        rest.transitions.len() <= crate::color::MAX_TIME_TRANSITION,
        count <= rest.transitioned.len(),
        forall|j: int|
            0 <= j < rest.transitioned.len() ==> target_at_rest(
                rest,
                #[trigger] rest.transitioned[j],
            ) && 1 <= rest.transitioned[j].transition <= rest.transitions.len(),
    ensures
        ({
            let after = rest.with_moved(now, count);
            &&& put_so_far(rest, after, rest.transitioned, count as int, now, i)
            &&& after.monochrome_sprites.len() == rest.monochrome_sprites.len()
            &&& after.subpixel_sprites.len() == rest.subpixel_sprites.len()
            &&& after.polychrome_sprites.len() == rest.polychrome_sprites.len()
            &&& after.underlines.len() == rest.underlines.len()
            &&& after.shadows.len() == rest.shadows.len()
            &&& after.quads.len() == rest.quads.len()
        }),
    decreases count,
{
    let found = rest.transitioned;
    if count > 0 {
        let k = (count - 1) as nat;
        lemma_put_so_far(rest, now, k, i);
        let p = found[k as int];
        assert(target_at_rest(rest, p));
        lemma_joint(rest.transitions, p.transition as int, now);
        lemma_reached_step(found, count as int, 0, i);
        lemma_reached_step(found, count as int, 1, i);
        lemma_reached_step(found, count as int, 2, i);
        lemma_reached_step(found, count as int, 3, i);
        lemma_reached_step(found, count as int, 4, i);
        lemma_reached_step(found, count as int, 5, i);
    }
}

/// Every item that carries a transition is among the targets.
proof fn lemma_targets_complete<F: Scalar, T: Transitioned<F>>(items: Seq<T>, count: nat, i: int)
    requires
        count <= items.len(),
        0 <= i < count,
        items[i].spec_transitioned(i as u32).transition != 0,
    ensures
        exists|k: int|
            0 <= k < targets::<F, T>(items, count).len() && #[trigger] targets::<F, T>(
                items,
                count,
            )[k] == items[i].spec_transitioned(i as u32),
    decreases count,
{
    let all = targets::<F, T>(items, count);
    let before = targets::<F, T>(items, (count - 1) as nat);
    if i < count - 1 {
        lemma_targets_complete::<F, T>(items, (count - 1) as nat, i);
        let k = choose|k: int|
            0 <= k < before.len() && #[trigger] before[k] == items[i].spec_transitioned(i as u32);
        assert(all[k] == before[k]);
    } else {
        assert(all[all.len() - 1] == items[i].spec_transitioned(i as u32));
    }
}

/// In what was gathered of a scene, everything is that carries a transition.
proof fn lemma_all_reached<F: Scalar>(scene: SceneModel<F>, i: int)
    requires
        scene.countable(),
    ensures
        ({
            let found = scene.all_targets();
            let n = found.len() as int;
            &&& 0 <= i < scene.monochrome_sprites.len() && scene.monochrome_sprites[i].pad != 0
                ==> reached(found, n, 0, i)
            &&& 0 <= i < scene.subpixel_sprites.len() && scene.subpixel_sprites[i].pad != 0
                ==> reached(found, n, 1, i)
            &&& 0 <= i < scene.polychrome_sprites.len() && scene.polychrome_sprites[i].pad != 0
                ==> reached(found, n, 2, i)
            &&& 0 <= i < scene.underlines.len() && scene.underlines[i].pad != 0 ==> reached(
                found,
                n,
                3,
                i,
            )
            &&& 0 <= i < scene.shadows.len() && scene.shadows[i].pad != 0 ==> reached(
                found,
                n,
                4,
                i,
            )
            &&& 0 <= i < scene.quads.len() && scene.quads[i].background.transition != 0
                ==> reached(found, n, 5, i)
        }),
{
    let found = scene.all_targets();
    let a = targets(scene.monochrome_sprites, scene.monochrome_sprites.len());
    let b = targets(scene.subpixel_sprites, scene.subpixel_sprites.len());
    let c = targets(scene.polychrome_sprites, scene.polychrome_sprites.len());
    let d = targets(scene.underlines, scene.underlines.len());
    let e = targets(scene.shadows, scene.shadows.len());
    let f = targets(scene.quads, scene.quads.len());
    let ab = (a.len() + b.len()) as int;
    let abc = ab + c.len();
    let abcd = abc + d.len();
    let abcde = abcd + e.len();
    if 0 <= i < scene.monochrome_sprites.len() && scene.monochrome_sprites[i].pad != 0 {
        lemma_targets_complete(scene.monochrome_sprites, scene.monochrome_sprites.len(), i);
        let k = choose|k: int|
            0 <= k < a.len() && #[trigger] a[k] == scene.monochrome_sprites[i].spec_transitioned(
                i as u32,
            );
        assert(found[k] == a[k]);
    }
    if 0 <= i < scene.subpixel_sprites.len() && scene.subpixel_sprites[i].pad != 0 {
        lemma_targets_complete(scene.subpixel_sprites, scene.subpixel_sprites.len(), i);
        let k = choose|k: int|
            0 <= k < b.len() && #[trigger] b[k] == scene.subpixel_sprites[i].spec_transitioned(
                i as u32,
            );
        assert(found[a.len() + k] == b[k]);
    }
    if 0 <= i < scene.polychrome_sprites.len() && scene.polychrome_sprites[i].pad != 0 {
        lemma_targets_complete(scene.polychrome_sprites, scene.polychrome_sprites.len(), i);
        let k = choose|k: int|
            0 <= k < c.len() && #[trigger] c[k] == scene.polychrome_sprites[i].spec_transitioned(
                i as u32,
            );
        assert(found[ab + k] == c[k]);
    }
    if 0 <= i < scene.underlines.len() && scene.underlines[i].pad != 0 {
        lemma_targets_complete(scene.underlines, scene.underlines.len(), i);
        let k = choose|k: int|
            0 <= k < d.len() && #[trigger] d[k] == scene.underlines[i].spec_transitioned(i as u32);
        assert(found[abc + k] == d[k]);
    }
    if 0 <= i < scene.shadows.len() && scene.shadows[i].pad != 0 {
        lemma_targets_complete(scene.shadows, scene.shadows.len(), i);
        let k = choose|k: int|
            0 <= k < e.len() && #[trigger] e[k] == scene.shadows[i].spec_transitioned(i as u32);
        assert(found[abcd + k] == e[k]);
    }
    if 0 <= i < scene.quads.len() && scene.quads[i].background.transition != 0 {
        lemma_targets_complete(scene.quads, scene.quads.len(), i);
        let k = choose|k: int|
            0 <= k < f.len() && #[trigger] f[k] == scene.quads[i].spec_transitioned(i as u32);
        assert(found[abcde + k] == f[k]);
    }
}

proof fn lemma_found_at_rest<F: Scalar>(rest: SceneModel<F>, j: int)
    requires
        rest.countable(),
        0 <= j < rest.all_targets().len(),
    ensures
        target_at_rest(rest, rest.all_targets()[j]),
        rest.all_targets()[j].transition != 0,
{
    lemma_in_all_targets(rest, j);
}

/// Nothing without a transition is among what was found.
proof fn lemma_reached_carries<F: Scalar>(rest: SceneModel<F>, place: int, i: int)
    requires
        rest.countable(),
        0 <= i,
        reached(rest.all_targets(), rest.all_targets().len() as int, place, i),
    ensures
        place == 0 ==> rest.monochrome_sprites[i].pad != 0,
        place == 1 ==> rest.subpixel_sprites[i].pad != 0,
        place == 2 ==> rest.polychrome_sprites[i].pad != 0,
        place == 3 ==> rest.underlines[i].pad != 0,
        place == 4 ==> rest.shadows[i].pad != 0,
        place == 5 ==> rest.quads[i].background.transition != 0,
{
    let found = rest.all_targets();
    let j = choose|j: int|
        0 <= j < found.len() && match (#[trigger] found[j]).target {
            TransitionTarget::MonochromeSprite { index, .. } => place == 0 && index == i,
            TransitionTarget::SubpixelSprite { index, .. } => place == 1 && index == i,
            TransitionTarget::PolychromeSprite { index, .. } => place == 2 && index == i,
            TransitionTarget::Underline { index, .. } => place == 3 && index == i,
            TransitionTarget::Shadow { index, .. } => place == 4 && index == i,
            TransitionTarget::Quad { index, .. } => place == 5 && index == i,
        };
    lemma_found_at_rest(rest, j);
}

/// Transitions move and fade a finished scene from rest: every sprite, underline, shadow and
/// quad that carries a transition is put where it was painted plus the offsets of that
/// transition and of all transitions around it, and its opacity is that which it was painted
/// with times the opacities of them all. What carries none stays as it was painted. (Quads
/// that an opacity cycle drives as well are another matter.)
pub proof fn law_transitions_put_everything_from_rest<F: Scalar>(
    scene: SceneModel<F>,
    partitioned: bool,
    now: u64,
    i: int,
)
    requires
        names_resolve(scene),
        scene.countable(),
    ensures
        ({
            let rest = scene.spec_finish(partitioned);
            put_from_rest(rest, rest.spec_advance_transitions(now), now, i)
        }),
{
    let rest = scene.spec_finish(partitioned);
    let after = rest.spec_advance_transitions(now);
    law_a_finished_scene_is_presentable(scene, partitioned);
    law_stable_sort(scene.shadows);
    law_stable_sort(scene.quads);
    law_stable_sort(scene.underlines);
    law_stable_sort(scene.monochrome_sprites);
    law_stable_sort(scene.subpixel_sprites);
    law_stable_sort(scene.polychrome_sprites);
    if scene.transitions.len() > 0 {
        assert(rest.transitioned == rest.all_targets());
        assert forall|j: int| 0 <= j < rest.transitioned.len() implies target_at_rest(
            rest,
            #[trigger] rest.transitioned[j],
        ) && 1 <= rest.transitioned[j].transition <= rest.transitions.len() by {
            lemma_found_at_rest(rest, j);
            assert(rest.target_exists(rest.transitioned[j]));
        }
        lemma_put_so_far(rest, now, rest.transitioned.len(), i);
        lemma_all_reached(rest, i);
        if 0 <= i {
            assert forall|place: int|
                0 <= place < 6 && #[trigger] reached(
                    rest.all_targets(),
                    rest.all_targets().len() as int,
                    place,
                    i,
                ) implies (place == 0 ==> rest.monochrome_sprites[i].pad != 0) && (place == 1
                ==> rest.subpixel_sprites[i].pad != 0) && (place == 2
                ==> rest.polychrome_sprites[i].pad != 0) && (place == 3
                ==> rest.underlines[i].pad != 0) && (place == 4 ==> rest.shadows[i].pad != 0) && (
            place == 5 ==> rest.quads[i].background.transition != 0) by {
                lemma_reached_carries(rest, place, i);
            }
        }
    } else {
        lemma_stable_sort_elements(scene.shadows);
        lemma_stable_sort_elements(scene.quads);
        lemma_stable_sort_elements(scene.underlines);
        lemma_stable_sort_elements(scene.monochrome_sprites);
        lemma_stable_sort_elements(scene.subpixel_sprites);
        lemma_stable_sort_elements(scene.polychrome_sprites);
        assert(after == rest);
        if 0 <= i < rest.monochrome_sprites.len() {
            assert(scene.monochrome_sprites.contains(rest.monochrome_sprites[i]));
        }
        if 0 <= i < rest.subpixel_sprites.len() {
            assert(scene.subpixel_sprites.contains(rest.subpixel_sprites[i]));
        }
        if 0 <= i < rest.polychrome_sprites.len() {
            assert(scene.polychrome_sprites.contains(rest.polychrome_sprites[i]));
        }
        if 0 <= i < rest.underlines.len() {
            assert(scene.underlines.contains(rest.underlines[i]));
        }
        if 0 <= i < rest.shadows.len() {
            assert(scene.shadows.contains(rest.shadows[i]));
        }
        if 0 <= i < rest.quads.len() {
            assert(scene.quads.contains(rest.quads[i]));
        }
    }
}

/// No quad is among the targets twice.
proof fn lemma_quad_targets_apart<F: Scalar>(quads: Seq<Quad<F>>, count: nat, a: int, b: int)
    requires
        count <= quads.len() <= u32::MAX,
        0 <= a < b < targets::<F, Quad<F>>(quads, count).len(),
    ensures
        ({
            let found = targets::<F, Quad<F>>(quads, count);
            &&& found[a].target is Quad && found[b].target is Quad
            &&& found[a].target->Quad_index < found[b].target->Quad_index < count
        }),
    decreases count,
{
    let all = targets::<F, Quad<F>>(quads, count);
    let before = targets::<F, Quad<F>>(quads, (count - 1) as nat);
    lemma_targets::<F, Quad<F>>(quads, (count - 1) as nat);
    if b < before.len() {
        lemma_quad_targets_apart(quads, (count - 1) as nat, a, b);
        assert(all[a] == before[a] && all[b] == before[b]);
    } else {
        assert(all[a] == before[a]);
        let i = choose|i: int|
            0 <= i < count - 1 && before[a] == (#[trigger] quads[i]).spec_transitioned(i as u32);
        assert(all[b] == quads[count - 1].spec_transitioned((count - 1) as u32));
    }
}

proof fn lemma_all_targets_apart<F: Scalar>(scene: SceneModel<F>, a: int, b: int)
    requires
        scene.countable(),
        0 <= a < b < scene.all_targets().len(),
        scene.all_targets()[a].target is Quad,
        scene.all_targets()[b].target is Quad,
    ensures
        scene.all_targets()[a].target->Quad_index != scene.all_targets()[b].target->Quad_index,
{
    let found = scene.all_targets();
    let m = targets(scene.monochrome_sprites, scene.monochrome_sprites.len());
    let s = targets(scene.subpixel_sprites, scene.subpixel_sprites.len());
    let c = targets(scene.polychrome_sprites, scene.polychrome_sprites.len());
    let d = targets(scene.underlines, scene.underlines.len());
    let e = targets(scene.shadows, scene.shadows.len());
    let f = targets(scene.quads, scene.quads.len());
    let skip = (m.len() + s.len() + c.len() + d.len() + e.len()) as int;
    lemma_targets(scene.monochrome_sprites, scene.monochrome_sprites.len());
    lemma_targets(scene.subpixel_sprites, scene.subpixel_sprites.len());
    lemma_targets(scene.polychrome_sprites, scene.polychrome_sprites.len());
    lemma_targets(scene.underlines, scene.underlines.len());
    lemma_targets(scene.shadows, scene.shadows.len());
    assert forall|k: int| 0 <= k < skip implies !((#[trigger] found[k]).target is Quad) by {
        if k < m.len() {
            assert(found[k] == m[k]);
        } else if k < m.len() + s.len() {
            assert(found[k] == s[k - m.len()]);
        } else if k < m.len() + s.len() + c.len() {
            assert(found[k] == c[k - m.len() - s.len()]);
        } else if k < m.len() + s.len() + c.len() + d.len() {
            assert(found[k] == d[k - m.len() - s.len() - c.len()]);
        } else {
            assert(found[k] == e[k - m.len() - s.len() - c.len() - d.len()]);
        }
    }
    assert(found[a] == f[a - skip] && found[b] == f[b - skip]);
    lemma_quad_targets_apart(scene.quads, scene.quads.len(), a - skip, b - skip);
}

/// Moving what was swept and cycled moves what moving alone moves.
proof fn lemma_cycled_moves<F: Scalar>(
    rest: SceneModel<F>,
    cycled: SceneModel<F>,
    now: u64,
    count: nat,
    i: int,
)
    requires
        count <= rest.transitioned.len(),
        forall|j: int|
            0 <= j < rest.transitioned.len() ==> target_at_rest(
                rest,
                #[trigger] rest.transitioned[j],
            ),
        cycled == (SceneModel {
            monochrome_sprites: cycled.monochrome_sprites,
            subpixel_sprites: cycled.subpixel_sprites,
            quads: cycled.quads,
            ..rest
        }),
        cycled.monochrome_sprites.len() == rest.monochrome_sprites.len(),
        cycled.subpixel_sprites.len() == rest.subpixel_sprites.len(),
        cycled.quads.len() == rest.quads.len(),
        0 <= i < rest.monochrome_sprites.len() ==> cycled.monochrome_sprites[i]
            == (MonochromeSprite {
            effect: cycled.monochrome_sprites[i].effect,
            ..rest.monochrome_sprites[i]
        }),
        0 <= i < rest.subpixel_sprites.len() ==> cycled.subpixel_sprites[i] == (SubpixelSprite {
            effect: cycled.subpixel_sprites[i].effect,
            ..rest.subpixel_sprites[i]
        }),
        0 <= i < rest.quads.len() && rest.quads[i].background.animation == 0 ==> cycled.quads[i]
            == rest.quads[i],
    ensures
        ({
            let a = rest.with_moved(now, count);
            let b = cycled.with_moved(now, count);
            &&& b.monochrome_sprites.len() == rest.monochrome_sprites.len()
            &&& b.subpixel_sprites.len() == rest.subpixel_sprites.len()
            &&& b.quads.len() == rest.quads.len()
            &&& a.monochrome_sprites.len() == rest.monochrome_sprites.len()
            &&& a.subpixel_sprites.len() == rest.subpixel_sprites.len()
            &&& a.quads.len() == rest.quads.len()
            &&& b.polychrome_sprites == a.polychrome_sprites
            &&& b.underlines == a.underlines
            &&& b.shadows == a.shadows
            &&& 0 <= i < rest.monochrome_sprites.len() ==> b.monochrome_sprites[i]
                == (MonochromeSprite {
                effect: cycled.monochrome_sprites[i].effect,
                ..a.monochrome_sprites[i]
            })
            &&& 0 <= i < rest.subpixel_sprites.len() ==> b.subpixel_sprites[i]
                == (SubpixelSprite {
                effect: cycled.subpixel_sprites[i].effect,
                ..a.subpixel_sprites[i]
            })
            &&& 0 <= i < rest.quads.len() && rest.quads[i].background.animation == 0
                ==> b.quads[i] == a.quads[i] && a.quads[i].background.animation == 0
        }),
    decreases count,
{
    if count > 0 {
        lemma_cycled_moves(rest, cycled, now, (count - 1) as nat, i);
        assert(target_at_rest(rest, rest.transitioned[count - 1]));
    }
}

/// What becomes of a quad that an opacity cycle drives, and perhaps a transition too.
proof fn lemma_cycled_quad<F: Scalar>(
    rest: SceneModel<F>,
    cycled: SceneModel<F>,
    now: u64,
    count: nat,
    i: int,
)
    requires
        parents_come_first(rest.transitions),
        rest.transitions.len() <= crate::color::MAX_TIME_TRANSITION,
        count <= rest.transitioned.len(),
        rest.countable(),
        rest.transitioned == rest.all_targets(),
        forall|j: int|
            0 <= j < rest.transitioned.len() ==> target_at_rest(
                rest,
                #[trigger] rest.transitioned[j],
            ) && 1 <= rest.transitioned[j].transition <= rest.transitions.len(),
        cycled.transitions == rest.transitions,
        cycled.transitioned == rest.transitioned,
        cycled.quads.len() == rest.quads.len(),
        0 <= i < rest.quads.len(),
        rest.quads[i].background.animation != 0,
        cycled.quads[i].background.animation == rest.quads[i].background.animation,
        cycled.quads[i].bounds == rest.quads[i].bounds,
    ensures
        ({
            let quad = cycled.quads[i];
            let after = cycled.with_moved(now, count).quads[i];
            let id = rest.quads[i].background.transition;
            &&& cycled.with_moved(now, count).quads.len() == rest.quads.len()
            &&& after.background.animation == rest.quads[i].background.animation
            &&& after.bounds.size == rest.quads[i].bounds.size
            &&& if reached(rest.transitioned, count as int, 5, i) {
                &&& moved_from(
                    rest.quads[i].bounds.origin,
                    after.bounds.origin,
                    rest.transitions,
                    id,
                    now,
                )
                &&& background_faded_from(
                    quad.background,
                    after.background,
                    rest.transitions,
                    id,
                    now,
                )
                &&& after.border_color.a == quad.border_color.a.spec_times(
                    spec_clamp(
                        joint_opacity(rest.transitions, id as int, now),
                        spec_zero(),
                        spec_one(),
                    ),
                )
            } else {
                after == quad
            }
        }),
    decreases count,
{
    if count > 0 {
        let found = rest.transitioned;
        let k = (count - 1) as nat;
        lemma_cycled_quad(rest, cycled, now, k, i);
        let p = found[k as int];
        assert(target_at_rest(rest, p));
        lemma_joint(rest.transitions, p.transition as int, now);
        lemma_reached_step(found, count as int, 5, i);
        if p.target is Quad && p.target->Quad_index == i && reached(found, k as int, 5, i) {
            let j = choose|j: int|
                0 <= j < k && match (#[trigger] found[j]).target {
                    TransitionTarget::MonochromeSprite { index, .. } => false,
                    TransitionTarget::SubpixelSprite { index, .. } => false,
                    TransitionTarget::PolychromeSprite { index, .. } => false,
                    TransitionTarget::Underline { index, .. } => false,
                    TransitionTarget::Shadow { index, .. } => false,
                    TransitionTarget::Quad { index, .. } => index == i,
                };
            lemma_all_targets_apart(rest, j, k as int);
        }
    }
}

/// Whether a background shows `painted` at the opacity that a cycle has got to.
pub open spec fn background_at<F: Scalar>(
    painted: Background<F>,
    shown: Background<F>,
    opacity: F,
) -> bool {
    let factor = spec_clamp(opacity, spec_zero(), spec_one());
    &&& shown.solid.a == painted.solid.a.spec_times(factor)
    &&& shown.first_stop.color.a == painted.first_stop.color.a.spec_times(factor)
    &&& shown.last_stop.color.a == painted.last_stop.color.a.spec_times(factor)
    &&& shown.tag == painted.tag
    &&& shown.solid.h == painted.solid.h
}

/// Advancing a finished scene does everything that moves with time. Each sprite whose
/// highlight sweeps has the band where its sweep has got to, and no other sprite's highlight
/// changes. Each quad that an opacity cycle drives, and no transition, shows what it was
/// painted with, at the opacity that its cycle has got to. And transitions move what they
/// cover just as they do alone.
pub proof fn law_advancing_sweeps_cycles_and_moves<F: Scalar>(
    scene: SceneModel<F>,
    partitioned: bool,
    now: u64,
    elapsed: u64,
    sweeps: Seq<F>,
    i: int,
)
    requires
        names_resolve(scene),
        scene.countable(),
        sweeps.len() == scene.shimmer_animations.len(),
    ensures
        ({
            let rest = scene.spec_finish(partitioned);
            let moved = rest.spec_advance_transitions(now);
            let after = rest.spec_advance_time_animations(now, elapsed, sweeps);
            &&& 0 <= i < rest.monochrome_sprites.len() ==> {
                let (a, b) = (rest.monochrome_sprites[i], after.monochrome_sprites[i]);
                let sweep = a.effect.animation - 1;
                &&& b.bounds == moved.monochrome_sprites[i].bounds
                &&& b.color == moved.monochrome_sprites[i].color
                &&& a.effect.animation == 0 ==> b.effect == a.effect
                &&& a.effect.animation != 0 ==> b.effect.band_origin
                    == scene.shimmer_animations[sweep].band_start.spec_plus(
                    scene.shimmer_animations[sweep].travel.spec_times(sweeps[sweep]),
                ) && b.effect.animation == a.effect.animation && b.effect.band_width
                    == a.effect.band_width
            }
            &&& 0 <= i < rest.subpixel_sprites.len() ==> {
                let (a, b) = (rest.subpixel_sprites[i], after.subpixel_sprites[i]);
                let sweep = a.effect.animation - 1;
                &&& b.bounds == moved.subpixel_sprites[i].bounds
                &&& b.color == moved.subpixel_sprites[i].color
                &&& a.effect.animation == 0 ==> b.effect == a.effect
                &&& a.effect.animation != 0 ==> b.effect.band_origin
                    == scene.shimmer_animations[sweep].band_start.spec_plus(
                    scene.shimmer_animations[sweep].travel.spec_times(sweeps[sweep]),
                ) && b.effect.animation == a.effect.animation && b.effect.band_width
                    == a.effect.band_width
            }
            &&& after.polychrome_sprites == moved.polychrome_sprites
            &&& after.underlines == moved.underlines
            &&& after.shadows == moved.shadows
            &&& 0 <= i < rest.quads.len() && rest.quads[i].background.animation == 0
                ==> after.quads[i] == moved.quads[i]
            &&& 0 <= i < rest.quads.len() && rest.quads[i].background.animation != 0 ==> {
                let (a, b) = (rest.quads[i], after.quads[i]);
                let animation = scene.quad_animations[a.background.animation - 1];
                let opacity = animation.cycle.spec_current_opacity(elapsed);
                &&& b.background.animation == a.background.animation
                &&& b.bounds.size == a.bounds.size
                &&& a.background.transition == 0 ==> {
                    &&& background_at(animation.background, b.background, opacity)
                    &&& b.border_color.a == animation.border_color.a.spec_times(
                        spec_clamp(opacity, spec_zero(), spec_one()),
                    )
                    &&& b.bounds == a.bounds
                }
                &&& a.background.transition != 0 ==> {
                    let id = a.background.transition;
                    let shown = animation.background.solid.a.spec_times(
                        spec_clamp(opacity, spec_zero(), spec_one()),
                    );
                    &&& moved_from(a.bounds.origin, b.bounds.origin, rest.transitions, id, now)
                    &&& b.background.solid.a == shown.spec_times(
                        spec_clamp(
                            joint_opacity(rest.transitions, id as int, now),
                            spec_zero(),
                            spec_one(),
                        ),
                    )
                }
            }
        }),
{
    let rest = scene.spec_finish(partitioned);
    let moved = rest.spec_advance_transitions(now);
    let after = rest.spec_advance_time_animations(now, elapsed, sweeps);
    let cycled = rest.with_cycles(elapsed, sweeps);
    law_a_finished_scene_is_presentable(scene, partitioned);
    law_stable_sort(scene.shadows);
    law_stable_sort(scene.quads);
    law_stable_sort(scene.underlines);
    law_stable_sort(scene.monochrome_sprites);
    law_stable_sort(scene.subpixel_sprites);
    law_stable_sort(scene.polychrome_sprites);
    lemma_stable_sort_elements(scene.quads);
    lemma_indices_where(
        rest.monochrome_sprites.len(),
        monochrome_sweeps(rest.monochrome_sprites),
    );
    lemma_indices_where(rest.subpixel_sprites.len(), subpixel_sweeps(rest.subpixel_sprites));
    lemma_indices_where(rest.quads.len(), quad_cycles(rest.quads));
    if 0 <= i < rest.monochrome_sprites.len() {
        assert(lists(rest.animated_monochrome_sprites, i) <==> monochrome_sweeps(
            rest.monochrome_sprites,
        )(i));
    }
    if 0 <= i < rest.subpixel_sprites.len() {
        assert(lists(rest.animated_subpixel_sprites, i) <==> subpixel_sweeps(
            rest.subpixel_sprites,
        )(i));
    }
    if 0 <= i < rest.quads.len() {
        assert(lists(rest.animated_quads, i) <==> quad_cycles(rest.quads)(i));
    }
    assert forall|j: int| 0 <= j < rest.transitioned.len() implies target_at_rest(
        rest,
        #[trigger] rest.transitioned[j],
    ) && 1 <= rest.transitioned[j].transition <= rest.transitions.len() by {
        assert(rest.transitioned == rest.all_targets());
        lemma_found_at_rest(rest, j);
        assert(rest.target_exists(rest.transitioned[j]));
    }
    if !rest.spec_has_time_animations(now) && rest.transitioned.len() == 0 {
        assert(rest.animated_monochrome_sprites.len() == 0);
        assert(rest.animated_subpixel_sprites.len() == 0);
        assert(rest.animated_quads.len() == 0);
    } else {
        lemma_cycled_moves(rest, cycled, now, rest.transitioned.len(), i);
        if 0 <= i < rest.quads.len() && rest.quads[i].background.animation != 0 {
            if scene.transitions.len() > 0 {
                lemma_cycled_quad(rest, cycled, now, rest.transitioned.len(), i);
                lemma_all_reached(rest, i);
                if reached(rest.transitioned, rest.transitioned.len() as int, 5, i) {
                    lemma_reached_carries(rest, 5, i);
                }
            } else {
                assert(scene.quads.contains(rest.quads[i]));
            }
        }
    }
}

} // verus!
