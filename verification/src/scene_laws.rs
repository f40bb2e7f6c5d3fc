//! What every operation on a scene keeps.
use vstd::prelude::*;

use crate::animation::{QuadOpacityAnimation, SceneTransition, ShimmerAnimation};
use crate::color::MAX_TIME_TRANSITION;
use crate::geometry::Bounds;
use crate::primitives::{PrimitiveModel, Quad};
use crate::scalar::Scalar;
use crate::scene_model::{
    composed_state, lookup, parents_come_first, push_transition, remap_transition,
    PaintOperationModel, ReplayModel, SceneModel,
};
use crate::stable_sort::stable_sort;

verus! {

/// Whether every id that a scene carries names one of its entries, there are no
/// more transitions than a quad's background can name, and every transition lies
/// inside one that comes before it, or inside none.
pub open spec fn names_resolve<F: Scalar>(scene: SceneModel<F>) -> bool {
    &&& parents_come_first(scene.transitions)
    &&& scene.transitions.len() <= MAX_TIME_TRANSITION
    &&& scene.current_transition <= scene.transitions.len()
    &&& forall|i: int|
        0 <= i < scene.paint_operations.len() ==> scene.step_names_entries(
            #[trigger] scene.paint_operations[i],
        )
    &&& forall|i: int|
        0 <= i < scene.shadows.len() ==> (#[trigger] scene.shadows[i]).pad
            <= scene.transitions.len()
    &&& forall|i: int|
        0 <= i < scene.underlines.len() ==> (#[trigger] scene.underlines[i]).pad
            <= scene.transitions.len()
    &&& forall|i: int|
        0 <= i < scene.polychrome_sprites.len() ==> (#[trigger] scene.polychrome_sprites[i]).pad
            <= scene.transitions.len()
    &&& forall|i: int|
        0 <= i < scene.quads.len() ==> scene.names_entries(
            PrimitiveModel::Quad(#[trigger] scene.quads[i]),
        )
    &&& forall|i: int|
        0 <= i < scene.monochrome_sprites.len() ==> scene.names_entries(
            PrimitiveModel::MonochromeSprite(#[trigger] scene.monochrome_sprites[i]),
        )
    &&& forall|i: int|
        0 <= i < scene.subpixel_sprites.len() ==> scene.names_entries(
            PrimitiveModel::SubpixelSprite(#[trigger] scene.subpixel_sprites[i]),
        )
}

/// Whether `b` has every entry that `a` has, and perhaps more behind them.
spec fn extends<F: Scalar>(a: SceneModel<F>, b: SceneModel<F>) -> bool {
    &&& a.transitions.len() <= b.transitions.len()
    &&& a.quad_animations.len() <= b.quad_animations.len()
    &&& a.shimmer_animations.len() <= b.shimmer_animations.len()
    &&& b == SceneModel {
        transitions: b.transitions,
        quad_animations: b.quad_animations,
        shimmer_animations: b.shimmer_animations,
        ..a
    }
}

proof fn lemma_extension_keeps_names<F: Scalar>(a: SceneModel<F>, b: SceneModel<F>)
    requires
        names_resolve(a),
        extends(a, b),
        parents_come_first(b.transitions),
        b.transitions.len() <= MAX_TIME_TRANSITION,
    ensures
        names_resolve(b),
{
    assert forall|i: int| 0 <= i < b.paint_operations.len() implies b.step_names_entries(
        #[trigger] b.paint_operations[i],
    ) by {
        assert(a.step_names_entries(a.paint_operations[i]));
    }
    assert forall|i: int| 0 <= i < b.quads.len() implies b.names_entries(
        PrimitiveModel::Quad(#[trigger] b.quads[i]),
    ) by {
        assert(a.names_entries(PrimitiveModel::Quad(a.quads[i])));
    }
    assert forall|i: int| 0 <= i < b.monochrome_sprites.len() implies b.names_entries(
        PrimitiveModel::MonochromeSprite(#[trigger] b.monochrome_sprites[i]),
    ) by {
        assert(a.names_entries(PrimitiveModel::MonochromeSprite(a.monochrome_sprites[i])));
    }
    assert forall|i: int| 0 <= i < b.subpixel_sprites.len() implies b.names_entries(
        PrimitiveModel::SubpixelSprite(#[trigger] b.subpixel_sprites[i]),
    ) by {
        assert(a.names_entries(PrimitiveModel::SubpixelSprite(a.subpixel_sprites[i])));
    }
}

/// Painting a primitive whose ids name entries keeps every id naming an entry.
pub proof fn law_painting_keeps_names<F: Scalar>(
    scene: SceneModel<F>,
    primitive: PrimitiveModel<F>,
)
    requires
        names_resolve(scene),
        scene.names_entries(primitive),
    ensures
        names_resolve(scene.spec_insert_primitive(primitive)),
{
    let after = scene.spec_insert_primitive(primitive);
    let placed = scene.stamped(primitive).with_order(
        scene.order_for(primitive.clipped_bounds()),
        scene.paths.len() as usize,
    );
    assert(scene.names_entries(placed));
    assert forall|i: int| 0 <= i < after.paint_operations.len() implies after.step_names_entries(
        #[trigger] after.paint_operations[i],
    ) by {
        if i < scene.paint_operations.len() {
            assert(scene.step_names_entries(scene.paint_operations[i]));
        }
    }
    assert forall|i: int| 0 <= i < after.quads.len() implies after.names_entries(
        PrimitiveModel::Quad(#[trigger] after.quads[i]),
    ) by {
        if i < scene.quads.len() {
            assert(scene.names_entries(PrimitiveModel::Quad(scene.quads[i])));
        }
    }
    assert forall|i: int| 0 <= i < after.monochrome_sprites.len() implies after.names_entries(
        PrimitiveModel::MonochromeSprite(#[trigger] after.monochrome_sprites[i]),
    ) by {
        if i < scene.monochrome_sprites.len() {
            assert(scene.names_entries(
                PrimitiveModel::MonochromeSprite(scene.monochrome_sprites[i]),
            ));
        }
    }
    assert forall|i: int| 0 <= i < after.subpixel_sprites.len() implies after.names_entries(
        PrimitiveModel::SubpixelSprite(#[trigger] after.subpixel_sprites[i]),
    ) by {
        if i < scene.subpixel_sprites.len() {
            assert(scene.names_entries(
                PrimitiveModel::SubpixelSprite(scene.subpixel_sprites[i]),
            ));
        }
    }
}

/// Opening and closing layers keeps every id naming an entry.
pub proof fn law_layers_keep_names<F: Scalar>(scene: SceneModel<F>, bounds: Bounds<F>)
    requires
        names_resolve(scene),
    ensures
        names_resolve(scene.spec_push_layer(bounds)),
        names_resolve(scene.spec_pop_layer()),
{
    let opened = scene.spec_push_layer(bounds);
    let closed = scene.spec_pop_layer();
    assert forall|i: int| 0 <= i < opened.paint_operations.len() implies opened.step_names_entries(
        #[trigger] opened.paint_operations[i],
    ) by {
        if i < scene.paint_operations.len() {
            assert(scene.step_names_entries(scene.paint_operations[i]));
        }
    }
    assert forall|i: int| 0 <= i < closed.paint_operations.len() implies closed.step_names_entries(
        #[trigger] closed.paint_operations[i],
    ) by {
        if i < scene.paint_operations.len() {
            assert(scene.step_names_entries(scene.paint_operations[i]));
        }
    }
    assert forall|i: int| 0 <= i < scene.quads.len() implies opened.names_entries(
        PrimitiveModel::Quad(#[trigger] opened.quads[i]),
    ) && closed.names_entries(PrimitiveModel::Quad(#[trigger] closed.quads[i])) by {
        assert(scene.names_entries(PrimitiveModel::Quad(scene.quads[i])));
    }
    assert forall|i: int| 0 <= i < scene.monochrome_sprites.len() implies opened.names_entries(
        PrimitiveModel::MonochromeSprite(#[trigger] opened.monochrome_sprites[i]),
    ) && closed.names_entries(
        PrimitiveModel::MonochromeSprite(#[trigger] closed.monochrome_sprites[i]),
    ) by {
        assert(scene.names_entries(
            PrimitiveModel::MonochromeSprite(scene.monochrome_sprites[i]),
        ));
    }
    assert forall|i: int| 0 <= i < scene.subpixel_sprites.len() implies opened.names_entries(
        PrimitiveModel::SubpixelSprite(#[trigger] opened.subpixel_sprites[i]),
    ) && closed.names_entries(
        PrimitiveModel::SubpixelSprite(#[trigger] closed.subpixel_sprites[i]),
    ) by {
        assert(scene.names_entries(PrimitiveModel::SubpixelSprite(scene.subpixel_sprites[i])));
    }
}

/// Registering sweeps, cycles and transitions keeps every id naming an entry,
/// and the id that is handed out names the new one.
pub proof fn law_registering_keeps_names<F: Scalar>(
    scene: SceneModel<F>,
    sweep: ShimmerAnimation<F>,
    cycle: QuadOpacityAnimation<F>,
    transition: SceneTransition<F>,
)
    requires
        names_resolve(scene),
        transition.parent <= scene.transitions.len(),
        scene.shimmer_animations.len() < u32::MAX,
        scene.quad_animations.len() < u32::MAX,
    ensures
        ({
            let (after, id) = scene.spec_push_shimmer_animation(sweep);
            names_resolve(after) && after.shimmer_animations[id - 1] == sweep
        }),
        ({
            let (after, id) = scene.spec_push_quad_animation(cycle);
            names_resolve(after) && after.quad_animations[id - 1] == cycle
        }),
        ({
            let (transitions, id) = push_transition(scene.transitions, transition);
            &&& names_resolve(SceneModel { transitions, ..scene })
            &&& id is Some ==> transitions[id->Some_0 - 1] == transition
        }),
{
    lemma_extension_keeps_names(scene, scene.spec_push_shimmer_animation(sweep).0);
    lemma_extension_keeps_names(scene, scene.spec_push_quad_animation(cycle).0);
    let transitions = push_transition(scene.transitions, transition).0;
    assert(parents_come_first(transitions)) by {
        assert forall|i: int| 0 <= i < transitions.len() implies (
        #[trigger] transitions[i]).parent <= i by {
            if i < scene.transitions.len() {
                assert(scene.transitions[i].parent <= i);
            }
        }
    }
    lemma_extension_keeps_names(scene, SceneModel { transitions, ..scene });
}

/// Whether the copies that a replay has made are there.
pub open spec fn copies_exist<F: Scalar>(
    transitions: Seq<SceneTransition<F>>,
    remapped: Seq<(u32, u32)>,
) -> bool {
    forall|i: int| 0 <= i < remapped.len() ==> (#[trigger] remapped[i]).1 <= transitions.len()
}

proof fn lemma_lookup<F: Scalar>(
    transitions: Seq<SceneTransition<F>>,
    remapped: Seq<(u32, u32)>,
    transition: u32,
    from: int,
)
    requires
        copies_exist(transitions, remapped),
        0 <= from,
    ensures
        match lookup(remapped, transition, from) {
            Some(id) => id <= transitions.len(),
            None => true,
        },
    decreases remapped.len() - from,
{
    if from < remapped.len() && remapped[from].0 != transition {
        lemma_lookup(transitions, remapped, transition, from + 1);
    }
}

/// A transition copied from another scene is given an id that names it, behind
/// the copies of all the transitions that it lies inside of; where there is no
/// room, it is given none. There are never more than a quad's background can name.
pub proof fn law_copied_transitions_follow_their_parents<F: Scalar>(
    transitions: Seq<SceneTransition<F>>,
    remapped: Seq<(u32, u32)>,
    sources: Seq<SceneTransition<F>>,
    transition: u32,
)
    requires
        parents_come_first(transitions),
        transitions.len() <= MAX_TIME_TRANSITION,
        parents_come_first(sources),
        forall|i: int| 0 <= i < remapped.len() ==> (#[trigger] remapped[i]).1 <= transitions.len(),
        1 <= transition <= sources.len(),
    ensures
        ({
            let (copied, table, id) = remap_transition(transitions, remapped, sources, transition);
            &&& parents_come_first(copied)
            &&& transitions.len() <= copied.len() <= MAX_TIME_TRANSITION
            &&& id <= copied.len()
            &&& forall|i: int| 0 <= i < table.len() ==> (#[trigger] table[i]).1 <= copied.len()
        }),
    decreases transition,
{
    lemma_lookup(transitions, remapped, transition, 0);
    if lookup(remapped, transition, 0) is None {
        let entry = sources[transition - 1];
        assert(entry.parent <= transition - 1);
        if entry.parent != 0 {
            law_copied_transitions_follow_their_parents(
                transitions,
                remapped,
                sources,
                entry.parent,
            );
        }
        let (outer, outer_table, parent) = if entry.parent != 0 {
            remap_transition(transitions, remapped, sources, entry.parent)
        } else {
            (transitions, remapped, 0u32)
        };
        let (copied, table, id) = remap_transition(transitions, remapped, sources, transition);
        assert forall|i: int| 0 <= i < copied.len() implies (#[trigger] copied[i]).parent <= i by {
            if i < outer.len() {
                assert(copied[i] == outer[i]);
            }
        }
        assert forall|i: int| 0 <= i < table.len() implies (#[trigger] table[i]).1
            <= copied.len() by {
            if i < outer_table.len() {
                assert(table[i] == outer_table[i]);
            }
        }
    }
}

/// Another transition behind the others does not change how those move.
pub proof fn lemma_composed_state_prefix<F: Scalar>(
    transitions: Seq<SceneTransition<F>>,
    more: Seq<SceneTransition<F>>,
    index: int,
    now: u64,
)
    requires
        parents_come_first(transitions),
        transitions.len() <= more.len(),
        forall|i: int| 0 <= i < transitions.len() ==> #[trigger] more[i] == transitions[i],
        0 <= index < transitions.len(),
    ensures
        composed_state(more, index, now) == composed_state(transitions, index, now),
    decreases index,
{
    assert(more[index] == transitions[index]);
    assert(transitions[index].parent <= index);
    if transitions[index].parent != 0 {
        lemma_composed_state_prefix(transitions, more, transitions[index].parent - 1, now);
    }
}

/// Whether every copy that was made moves as what it was copied from, and one
/// that was not made was left out for want of room.
pub open spec fn copies_move_alike<F: Scalar>(
    transitions: Seq<SceneTransition<F>>,
    remapped: Seq<(u32, u32)>,
    sources: Seq<SceneTransition<F>>,
    now: u64,
) -> bool {
    forall|i: int|
        0 <= i < remapped.len() ==> moves_alike(
            transitions,
            (#[trigger] remapped[i]).1,
            sources,
            remapped[i].0,
            now,
        )
}

/// Whether `copy` is `source`, inside a copy of what that lies inside of, and moves as
/// it does; or was not made for want of room.
pub open spec fn moves_alike<F: Scalar>(
    transitions: Seq<SceneTransition<F>>,
    copy: u32,
    sources: Seq<SceneTransition<F>>,
    source: u32,
    now: u64,
) -> bool {
    if copy == 0 {
        transitions.len() >= MAX_TIME_TRANSITION
    } else {
        &&& copy <= transitions.len()
        &&& SceneTransition { parent: 0, ..transitions[copy - 1] } == SceneTransition {
            parent: 0,
            ..sources[source - 1]
        }
        &&& composed_state(transitions, copy - 1, now) == composed_state(sources, source - 1, now)
    }
}

proof fn lemma_lookup_moves_alike<F: Scalar>(
    transitions: Seq<SceneTransition<F>>,
    remapped: Seq<(u32, u32)>,
    sources: Seq<SceneTransition<F>>,
    transition: u32,
    from: int,
    now: u64,
)
    requires
        copies_move_alike(transitions, remapped, sources, now),
        0 <= from,
    ensures
        match lookup(remapped, transition, from) {
            Some(id) => moves_alike(transitions, id, sources, transition, now),
            None => true,
        },
    decreases remapped.len() - from,
{
    if from < remapped.len() && remapped[from].0 != transition {
        lemma_lookup_moves_alike(transitions, remapped, sources, transition, from + 1, now);
    }
}

/// A transition copied from another scene moves and fades what it covers exactly
/// as that one does, with all that it lies inside of, at every time; it is left
/// out only where there is no room; and the transitions that were there before
/// stay as they were.
pub proof fn law_copied_transitions_move_alike<F: Scalar>(
    transitions: Seq<SceneTransition<F>>,
    remapped: Seq<(u32, u32)>,
    sources: Seq<SceneTransition<F>>,
    transition: u32,
    now: u64,
)
    requires
        parents_come_first(transitions),
        transitions.len() <= MAX_TIME_TRANSITION,
        parents_come_first(sources),
        forall|i: int| 0 <= i < remapped.len() ==> (#[trigger] remapped[i]).1 <= transitions.len(),
        copies_move_alike(transitions, remapped, sources, now),
        1 <= transition <= sources.len(),
    ensures
        ({
            let (copied, table, id) = remap_transition(transitions, remapped, sources, transition);
            &&& moves_alike(copied, id, sources, transition, now)
            &&& copies_move_alike(copied, table, sources, now)
            &&& transitions.len() <= copied.len()
            &&& forall|i: int| 0 <= i < transitions.len() ==> #[trigger] copied[i] == transitions[i]
        }),
    decreases transition,
{
    lemma_lookup_moves_alike(transitions, remapped, sources, transition, 0, now);
    law_copied_transitions_follow_their_parents(transitions, remapped, sources, transition);
    if lookup(remapped, transition, 0) is None {
        let entry = sources[transition - 1];
        assert(entry.parent <= transition - 1);
        if entry.parent != 0 {
            law_copied_transitions_follow_their_parents(
                transitions,
                remapped,
                sources,
                entry.parent,
            );
            law_copied_transitions_move_alike(
                transitions,
                remapped,
                sources,
                entry.parent,
                now,
            );
        }
        let (outer, outer_table, parent) = if entry.parent != 0 {
            remap_transition(transitions, remapped, sources, entry.parent)
        } else {
            (transitions, remapped, 0u32)
        };
        let (copied, table, id) = remap_transition(transitions, remapped, sources, transition);
        if id != 0 {
            assert(copied.last() == (SceneTransition { parent, ..entry }));
            if entry.parent != 0 {
                lemma_composed_state_prefix(outer, copied, parent - 1, now);
            }
        }
        assert forall|i: int| 0 <= i < table.len() implies moves_alike(
            copied,
            (#[trigger] table[i]).1,
            sources,
            table[i].0,
            now,
        ) by {
            if i < outer_table.len() {
                assert(table[i] == outer_table[i]);
                assert(moves_alike(outer, outer_table[i].1, sources, outer_table[i].0, now));
                if table[i].1 != 0 {
                    lemma_composed_state_prefix(outer, copied, table[i].1 - 1, now);
                }
            }
        }
    }
}

/// What holds of a replay at every step.
pub open spec fn replay_in_order<F: Scalar>(state: ReplayModel<F>) -> bool {
    &&& names_resolve(state.scene)
    &&& copies_exist(state.scene.transitions, state.remapped)
    &&& state.sweep.1 <= state.scene.shimmer_animations.len()
}

pub proof fn lemma_replay_step<F: Scalar>(
    state: ReplayModel<F>,
    prev: SceneModel<F>,
    operation: PaintOperationModel<F>,
)
    requires
        replay_in_order(state),
        parents_come_first(prev.transitions),
        prev.step_names_entries(operation),
        state.scene.shimmer_animations.len() < u32::MAX,
        state.scene.quad_animations.len() < u32::MAX,
    ensures
        replay_in_order(state.replay_step(prev, operation)),
        state.replay_step(prev, operation).scene.shimmer_animations.len()
            <= state.scene.shimmer_animations.len() + 1,
        state.replay_step(prev, operation).scene.quad_animations.len()
            <= state.scene.quad_animations.len() + 1,
{
    match operation {
        PaintOperationModel::Primitive(primitive) => {
            let (state_1, primitive_1) = state.copy_transition(prev, primitive);
            if primitive.transition() != 0 {
                law_copied_transitions_follow_their_parents(
                    state.scene.transitions,
                    state.remapped,
                    prev.transitions,
                    primitive.transition(),
                );
            }
            lemma_extension_keeps_names(state.scene, state_1.scene);
            let (state_2, primitive_2) = state_1.copy_quad_animation(prev, primitive_1);
            lemma_extension_keeps_names(state_1.scene, state_2.scene);
            let (state_3, primitive_3) = state_2.copy_shimmer_animation(prev, primitive_2);
            lemma_extension_keeps_names(state_2.scene, state_3.scene);
            law_painting_keeps_names(state_3.scene, primitive_3);
        },
        PaintOperationModel::StartLayer(bounds) => {
            law_layers_keep_names(state.scene, bounds);
        },
        PaintOperationModel::EndLayer => {
            law_layers_keep_names(state.scene, Bounds::spec_origin());
        },
    }
}

proof fn lemma_replay_steps<F: Scalar>(
    state: ReplayModel<F>,
    prev: SceneModel<F>,
    operations: Seq<PaintOperationModel<F>>,
)
    requires
        replay_in_order(state),
        parents_come_first(prev.transitions),
        forall|i: int|
            0 <= i < operations.len() ==> prev.step_names_entries(#[trigger] operations[i]),
        state.scene.shimmer_animations.len() + operations.len() <= u32::MAX,
        state.scene.quad_animations.len() + operations.len() <= u32::MAX,
    ensures
        replay_in_order(state.replay_steps(prev, operations)),
        state.replay_steps(prev, operations).scene.shimmer_animations.len()
            <= state.scene.shimmer_animations.len() + operations.len(),
        state.replay_steps(prev, operations).scene.quad_animations.len()
            <= state.scene.quad_animations.len() + operations.len(),
    decreases operations.len(),
{
    if operations.len() > 0 {
        let rest = operations.drop_last();
        assert forall|i: int| 0 <= i < rest.len() implies prev.step_names_entries(
            #[trigger] rest[i],
        ) by {
            assert(rest[i] == operations[i]);
        }
        lemma_replay_steps(state, prev, rest);
        assert(operations.last() == operations[operations.len() - 1]);
        lemma_replay_step(state.replay_steps(prev, rest), prev, operations.last());
    }
}

/// Whatever part of a scene is replayed, everything it names comes along: every
/// id in the scene that is painted still names an entry, and every transition
/// comes behind the one that it lies inside of.
pub proof fn law_replay_brings_everything_along<F: Scalar>(
    scene: SceneModel<F>,
    prev: SceneModel<F>,
    operations: Seq<PaintOperationModel<F>>,
)
    requires
        names_resolve(scene),
        parents_come_first(prev.transitions),
        forall|i: int|
            0 <= i < operations.len() ==> prev.step_names_entries(#[trigger] operations[i]),
        scene.shimmer_animations.len() + operations.len() <= u32::MAX,
        scene.quad_animations.len() + operations.len() <= u32::MAX,
    ensures
        names_resolve(ReplayModel::spec_start(scene).replay_steps(prev, operations).scene),
{
    lemma_replay_steps(ReplayModel::spec_start(scene), prev, operations);
}

/// How many primitives a scene draws.
pub open spec fn drawn_count<F: Scalar>(scene: SceneModel<F>) -> nat {
    scene.shadows.len() + scene.quads.len() + scene.paths.len() + scene.underlines.len()
        + scene.monochrome_sprites.len() + scene.subpixel_sprites.len()
        + scene.polychrome_sprites.len() + scene.surfaces.len()
}

/// How many of some steps paint a primitive.
pub open spec fn painted_count<F: Scalar>(operations: Seq<PaintOperationModel<F>>) -> nat
    decreases operations.len(),
{
    if operations.len() == 0 {
        0
    } else {
        painted_count(operations.drop_last()) + match operations.last() {
            PaintOperationModel::Primitive(_) => 1nat,
            _ => 0nat,
        }
    }
}

/// Whether a step paints nothing that its mask hides.
pub open spec fn shows<F: Scalar>(operation: PaintOperationModel<F>) -> bool {
    match operation {
        PaintOperationModel::Primitive(primitive) => !primitive.clipped_bounds().spec_is_empty(),
        _ => true,
    }
}

/// Whether a scene draws exactly what its steps painted, none of it hidden.
pub open spec fn steps_account_for_scene<F: Scalar>(scene: SceneModel<F>) -> bool {
    &&& drawn_count(scene) == painted_count(scene.paint_operations)
    &&& forall|i: int|
        0 <= i < scene.paint_operations.len() ==> shows(#[trigger] scene.paint_operations[i])
}

/// However a scene is painted, its steps account for all that it draws.
pub proof fn law_steps_account_for_scene<F: Scalar>(
    scene: SceneModel<F>,
    primitive: PrimitiveModel<F>,
    bounds: Bounds<F>,
)
    requires
        steps_account_for_scene(scene),
    ensures
        steps_account_for_scene(SceneModel::<F>::spec_empty()),
        steps_account_for_scene(scene.spec_insert_primitive(primitive)),
        steps_account_for_scene(scene.spec_push_layer(bounds)),
        steps_account_for_scene(scene.spec_pop_layer()),
{
    let painted = scene.spec_insert_primitive(primitive);
    let opened = scene.spec_push_layer(bounds);
    let closed = scene.spec_pop_layer();
    let steps = scene.paint_operations;
    assert(opened.paint_operations.drop_last() =~= steps);
    assert(closed.paint_operations.drop_last() =~= steps);
    assert forall|i: int| 0 <= i < opened.paint_operations.len() implies shows(
        #[trigger] opened.paint_operations[i],
    ) by {
        if i < steps.len() {
            assert(shows(steps[i]));
        }
    }
    assert forall|i: int| 0 <= i < closed.paint_operations.len() implies shows(
        #[trigger] closed.paint_operations[i],
    ) by {
        if i < steps.len() {
            assert(shows(steps[i]));
        }
    }
    if !primitive.clipped_bounds().spec_is_empty() {
        assert(painted.paint_operations.drop_last() =~= steps);
        assert forall|i: int| 0 <= i < painted.paint_operations.len() implies shows(
            #[trigger] painted.paint_operations[i],
        ) by {
            if i < steps.len() {
                assert(shows(steps[i]));
            }
        }
    }
}

/// Replaying steps draws one primitive for each that they painted.
pub proof fn law_replay_draws_what_was_painted<F: Scalar>(
    state: ReplayModel<F>,
    prev: SceneModel<F>,
    operations: Seq<PaintOperationModel<F>>,
)
    requires
        forall|i: int| 0 <= i < operations.len() ==> shows(#[trigger] operations[i]),
    ensures
        drawn_count(state.replay_steps(prev, operations).scene) == drawn_count(state.scene)
            + painted_count(operations),
    decreases operations.len(),
{
    if operations.len() > 0 {
        let rest = operations.drop_last();
        assert forall|i: int| 0 <= i < rest.len() implies shows(#[trigger] rest[i]) by {
            assert(rest[i] == operations[i]);
        }
        law_replay_draws_what_was_painted(state, prev, rest);
        assert(shows(operations[operations.len() - 1]));
        let before = state.replay_steps(prev, rest);
        if let PaintOperationModel::Primitive(primitive) = operations.last() {
            let (state_1, primitive_1) = before.copy_transition(prev, primitive);
            let (state_2, primitive_2) = state_1.copy_quad_animation(prev, primitive_1);
            let (state_3, primitive_3) = state_2.copy_shimmer_animation(prev, primitive_2);
            assert(primitive_3.clipped_bounds() == primitive.clipped_bounds());
            assert(drawn_count(state_3.scene) == drawn_count(before.scene));
        }
    }
}

/// A replay of a whole scene into an empty one draws nothing exactly if the
/// scene draws nothing.
pub proof fn law_replay_preserves_emptiness<F: Scalar>(scene: SceneModel<F>)
    requires
        steps_account_for_scene(scene),
    ensures
        ReplayModel::spec_start(SceneModel::<F>::spec_empty()).replay_steps(
            scene,
            scene.paint_operations,
        ).scene.spec_is_empty() == scene.spec_is_empty(),
{
    law_replay_draws_what_was_painted(
        ReplayModel::spec_start(SceneModel::<F>::spec_empty()),
        scene,
        scene.paint_operations,
    );
}

} // verus!
