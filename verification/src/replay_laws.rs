//! What a replay paints: what was painted, in the order that it was painted in.
use vstd::prelude::*;

use crate::batches::PrimitiveKind;
use crate::geometry::Bounds;
use crate::primitives::PrimitiveModel;
use crate::scalar::Scalar;
use crate::scene_laws::{
    copies_move_alike, law_copied_transitions_follow_their_parents,
    law_copied_transitions_move_alike, lemma_composed_state_prefix, lemma_replay_step, moves_alike,
    names_resolve, replay_in_order, shows,
};
use crate::scene_model::{parents_come_first, PaintOperationModel, ReplayModel, SceneModel};

verus! {

impl<F: Scalar> PrimitiveModel<F> {
    /// The kind of the primitive.
    pub open spec fn kind(self) -> PrimitiveKind {
        match self {
            PrimitiveModel::Shadow(_) => PrimitiveKind::Shadow,
            PrimitiveModel::Quad(_) => PrimitiveKind::Quad,
            PrimitiveModel::Path(_) => PrimitiveKind::Path,
            PrimitiveModel::Underline(_) => PrimitiveKind::Underline,
            PrimitiveModel::MonochromeSprite(_) => PrimitiveKind::MonochromeSprite,
            PrimitiveModel::SubpixelSprite(_) => PrimitiveKind::SubpixelSprite,
            PrimitiveModel::PolychromeSprite(_) => PrimitiveKind::PolychromeSprite,
            PrimitiveModel::Surface(_) => PrimitiveKind::Surface,
        }
    }

    /// The primitive without its order and the ids that it carries: where it is, what it
    /// is clipped to and all that it looks like.
    pub open spec fn unnamed(self) -> Self {
        self.with_transition(0).with_quad_animation(0).with_shimmer_animation(0).with_order(0, 0)
    }
}

/// The primitives of a kind that some steps painted, in the order that they did.
pub open spec fn painted<F: Scalar>(
    operations: Seq<PaintOperationModel<F>>,
    kind: PrimitiveKind,
) -> Seq<PrimitiveModel<F>>
    decreases operations.len(),
{
    if operations.len() == 0 {
        Seq::empty()
    } else {
        let rest = painted(operations.drop_last(), kind);
        match operations.last() {
            PaintOperationModel::Primitive(primitive) => if primitive.kind() == kind {
                rest.push(primitive)
            } else {
                rest
            },
            _ => rest,
        }
    }
}

/// The primitives of a kind that a scene holds.
pub open spec fn held<F: Scalar>(scene: SceneModel<F>, kind: PrimitiveKind) -> Seq<
    PrimitiveModel<F>,
> {
    match kind {
        PrimitiveKind::Shadow => scene.shadows.map_values(|shadow| PrimitiveModel::Shadow(shadow)),
        PrimitiveKind::Quad => scene.quads.map_values(|quad| PrimitiveModel::Quad(quad)),
        PrimitiveKind::Path => scene.paths.map_values(|path| PrimitiveModel::Path(path)),
        PrimitiveKind::Underline => scene.underlines.map_values(
            |underline| PrimitiveModel::Underline(underline),
        ),
        PrimitiveKind::MonochromeSprite => scene.monochrome_sprites.map_values(
            |sprite| PrimitiveModel::MonochromeSprite(sprite),
        ),
        PrimitiveKind::SubpixelSprite => scene.subpixel_sprites.map_values(
            |sprite| PrimitiveModel::SubpixelSprite(sprite),
        ),
        PrimitiveKind::PolychromeSprite => scene.polychrome_sprites.map_values(
            |sprite| PrimitiveModel::PolychromeSprite(sprite),
        ),
        PrimitiveKind::Surface => scene.surfaces.map_values(
            |surface| PrimitiveModel::Surface(surface),
        ),
    }
}

/// Whether a scene holds what its steps painted: each primitive once, in the order that
/// it was painted in.
pub open spec fn holds_what_was_painted<F: Scalar>(scene: SceneModel<F>) -> bool {
    forall|kind: PrimitiveKind| #[trigger] held(scene, kind) == painted(scene.paint_operations, kind)
}

/// However a scene is painted, until it is finished it holds each primitive that its
/// steps painted once, in the order that they did.
pub proof fn law_scenes_hold_what_was_painted<F: Scalar>(
    scene: SceneModel<F>,
    primitive: PrimitiveModel<F>,
    bounds: Bounds<F>,
)
    requires
        holds_what_was_painted(scene),
    ensures
        holds_what_was_painted(SceneModel::<F>::spec_empty()),
        holds_what_was_painted(scene.spec_insert_primitive(primitive)),
        holds_what_was_painted(scene.spec_push_layer(bounds)),
        holds_what_was_painted(scene.spec_pop_layer()),
{
    let empty = SceneModel::<F>::spec_empty();
    let after = scene.spec_insert_primitive(primitive);
    let opened = scene.spec_push_layer(bounds);
    let closed = scene.spec_pop_layer();
    let steps = scene.paint_operations;
    assert(opened.paint_operations.drop_last() =~= steps);
    assert(closed.paint_operations.drop_last() =~= steps);
    assert forall|kind: PrimitiveKind| #[trigger]
        held(empty, kind) == painted(empty.paint_operations, kind) by {
        assert(held(empty, kind) =~= painted(empty.paint_operations, kind));
    }
    assert forall|kind: PrimitiveKind| #[trigger]
        held(opened, kind) == painted(opened.paint_operations, kind) by {
        assert(held(opened, kind) == held(scene, kind));
    }
    assert forall|kind: PrimitiveKind| #[trigger]
        held(closed, kind) == painted(closed.paint_operations, kind) by {
        assert(held(closed, kind) == held(scene, kind));
    }
    if !primitive.clipped_bounds().spec_is_empty() {
        assert(after.paint_operations.drop_last() =~= steps);
        let placed = after.paint_operations.last()->Primitive_0;
        assert forall|kind: PrimitiveKind| #[trigger]
            held(after, kind) == painted(after.paint_operations, kind) by {
            assert(held(scene, kind) == painted(steps, kind));
            if kind == placed.kind() {
                assert(held(after, kind) =~= held(scene, kind).push(placed));
            } else {
                assert(held(after, kind) =~= held(scene, kind));
            }
        }
    }
}

/// Whether the ids that `copy` carries name entries of `scene` like those that the ids
/// of `source` name in `prev`: the same opacity cycle, the same sweep, and a transition
/// that moves alike at `now`, unless there was no room for it.
pub open spec fn names_alike<F: Scalar>(
    scene: SceneModel<F>,
    copy: PrimitiveModel<F>,
    prev: SceneModel<F>,
    source: PrimitiveModel<F>,
    now: u64,
) -> bool {
    &&& if source.quad_animation() == 0 {
        copy.quad_animation() == 0
    } else {
        &&& 1 <= copy.quad_animation() <= scene.quad_animations.len()
        &&& scene.quad_animations[copy.quad_animation() - 1] == prev.quad_animations[
            source.quad_animation() - 1]
    }
    &&& if source.shimmer_animation() == 0 {
        copy.shimmer_animation() == 0
    } else {
        &&& 1 <= copy.shimmer_animation() <= scene.shimmer_animations.len()
        &&& scene.shimmer_animations[copy.shimmer_animation() - 1] == prev.shimmer_animations[
            source.shimmer_animation() - 1]
    }
    &&& if source.transition() == 0 {
        copy.transition() == 0
    } else {
        moves_alike(
            scene.transitions,
            copy.transition(),
            prev.transitions,
            source.transition(),
            now,
        )
    }
}

/// Whether a step of painting `scene` does what a step of painting `prev` did.
pub open spec fn step_alike<F: Scalar>(
    scene: SceneModel<F>,
    copy: PaintOperationModel<F>,
    prev: SceneModel<F>,
    source: PaintOperationModel<F>,
    now: u64,
) -> bool {
    match (copy, source) {
        (PaintOperationModel::Primitive(copy), PaintOperationModel::Primitive(source)) => {
            &&& copy.unnamed() == source.unnamed()
            &&& names_alike(scene, copy, prev, source, now)
        },
        (PaintOperationModel::StartLayer(copy), PaintOperationModel::StartLayer(source)) => copy
            == source,
        (PaintOperationModel::EndLayer, PaintOperationModel::EndLayer) => true,
        _ => false,
    }
}

/// Whether `more` has the entries that `scene` has, and perhaps more behind them.
spec fn entries_kept<F: Scalar>(scene: SceneModel<F>, more: SceneModel<F>) -> bool {
    &&& scene.transitions.len() <= more.transitions.len()
    &&& forall|i: int|
        0 <= i < scene.transitions.len() ==> #[trigger] more.transitions[i] == scene.transitions[i]
    &&& scene.quad_animations.len() <= more.quad_animations.len()
    &&& forall|i: int|
        0 <= i < scene.quad_animations.len() ==> #[trigger] more.quad_animations[i]
            == scene.quad_animations[i]
    &&& scene.shimmer_animations.len() <= more.shimmer_animations.len()
    &&& forall|i: int|
        0 <= i < scene.shimmer_animations.len() ==> #[trigger] more.shimmer_animations[i]
            == scene.shimmer_animations[i]
}

proof fn lemma_step_stays_alike<F: Scalar>(
    scene: SceneModel<F>,
    more: SceneModel<F>,
    copy: PaintOperationModel<F>,
    prev: SceneModel<F>,
    source: PaintOperationModel<F>,
    now: u64,
)
    requires
        parents_come_first(scene.transitions),
        entries_kept(scene, more),
        step_alike(scene, copy, prev, source, now),
    ensures
        step_alike(more, copy, prev, source, now),
{
    if let PaintOperationModel::Primitive(primitive) = copy {
        let id = primitive.transition();
        if source->Primitive_0.transition() != 0 && id != 0 {
            lemma_composed_state_prefix(scene.transitions, more.transitions, id - 1, now);
            assert(more.transitions[id - 1] == scene.transitions[id - 1]);
        }
        let cycle = primitive.quad_animation();
        if cycle != 0 {
            assert(more.quad_animations[cycle - 1] == scene.quad_animations[cycle - 1]);
        }
        let sweep = primitive.shimmer_animation();
        if sweep != 0 {
            assert(more.shimmer_animations[sweep - 1] == scene.shimmer_animations[sweep - 1]);
        }
    }
}

/// Whether `state` is that of a replay that has painted what `operations` painted on top
/// of what `base` had painted.
spec fn replays<F: Scalar>(
    state: ReplayModel<F>,
    prev: SceneModel<F>,
    base: Seq<PaintOperationModel<F>>,
    operations: Seq<PaintOperationModel<F>>,
    now: u64,
) -> bool {
    let steps = state.scene.paint_operations;
    &&& replay_in_order(state)
    &&& state.scene.current_transition == 0
    &&& copies_move_alike(state.scene.transitions, state.remapped, prev.transitions, now)
    &&& state.sweep.0 != 0 ==> 1 <= state.sweep.1 <= state.scene.shimmer_animations.len()
        && state.scene.shimmer_animations[state.sweep.1 - 1] == prev.shimmer_animations[
        state.sweep.0 - 1]
    &&& steps.len() == base.len() + operations.len()
    &&& forall|i: int| 0 <= i < base.len() ==> #[trigger] steps[i] == base[i]
    &&& forall|i: int|
        #![trigger operations[i]]
        0 <= i < operations.len() ==> step_alike(
            state.scene,
            steps[base.len() + i],
            prev,
            operations[i],
            now,
        )
}

/// What becomes of a primitive that is replayed.
proof fn lemma_replay_primitive<F: Scalar>(
    state: ReplayModel<F>,
    prev: SceneModel<F>,
    primitive: PrimitiveModel<F>,
    now: u64,
)
    requires
        replay_in_order(state),
        state.scene.current_transition == 0,
        copies_move_alike(state.scene.transitions, state.remapped, prev.transitions, now),
        state.sweep.0 != 0 ==> 1 <= state.sweep.1 <= state.scene.shimmer_animations.len()
            && state.scene.shimmer_animations[state.sweep.1 - 1] == prev.shimmer_animations[
            state.sweep.0 - 1],
        parents_come_first(prev.transitions),
        prev.names_entries(primitive),
        !primitive.clipped_bounds().spec_is_empty(),
        state.scene.shimmer_animations.len() < u32::MAX,
        state.scene.quad_animations.len() < u32::MAX,
    ensures
        ({
            let after = state.replay_primitive(prev, primitive);
            let steps = after.scene.paint_operations;
            &&& after.scene.current_transition == 0
            &&& copies_move_alike(after.scene.transitions, after.remapped, prev.transitions, now)
            &&& after.sweep.0 != 0 ==> 1 <= after.sweep.1 <= after.scene.shimmer_animations.len()
                && after.scene.shimmer_animations[after.sweep.1 - 1] == prev.shimmer_animations[
                after.sweep.0 - 1]
            &&& entries_kept(state.scene, after.scene)
            &&& steps.len() == state.scene.paint_operations.len() + 1
            &&& steps.drop_last() == state.scene.paint_operations
            &&& step_alike(
                after.scene,
                steps.last(),
                prev,
                PaintOperationModel::Primitive(primitive),
                now,
            )
        }),
{
    let (state_1, primitive_1) = state.copy_transition(prev, primitive);
    if primitive.transition() != 0 {
        law_copied_transitions_follow_their_parents(
            state.scene.transitions,
            state.remapped,
            prev.transitions,
            primitive.transition(),
        );
        law_copied_transitions_move_alike(
            state.scene.transitions,
            state.remapped,
            prev.transitions,
            primitive.transition(),
            now,
        );
    }
    let (state_2, primitive_2) = state_1.copy_quad_animation(prev, primitive_1);
    let (state_3, primitive_3) = state_2.copy_shimmer_animation(prev, primitive_2);
    let after = state.replay_primitive(prev, primitive);
    assert(primitive_3.clipped_bounds() == primitive.clipped_bounds());
    assert(after.scene.paint_operations.drop_last() =~= state.scene.paint_operations);
    let placed = after.scene.paint_operations.last()->Primitive_0;
    assert(placed.unnamed() == primitive.unnamed());
    assert(placed.transition() == primitive_1.transition());
    assert(placed.quad_animation() == primitive_2.quad_animation());
    assert(placed.shimmer_animation() == primitive_3.shimmer_animation());
    assert(after.scene.transitions == state_1.scene.transitions);
    assert(after.scene.quad_animations == state_2.scene.quad_animations);
    assert(after.scene.shimmer_animations == state_3.scene.shimmer_animations);
}

proof fn lemma_replays<F: Scalar>(
    scene: SceneModel<F>,
    prev: SceneModel<F>,
    operations: Seq<PaintOperationModel<F>>,
    now: u64,
)
    requires
        names_resolve(scene),
        scene.current_transition == 0,
        parents_come_first(prev.transitions),
        forall|i: int|
            0 <= i < operations.len() ==> prev.step_names_entries(#[trigger] operations[i]),
        forall|i: int| 0 <= i < operations.len() ==> shows(#[trigger] operations[i]),
        scene.shimmer_animations.len() + operations.len() <= u32::MAX,
        scene.quad_animations.len() + operations.len() <= u32::MAX,
    ensures
        ({
            let state = ReplayModel::spec_start(scene).replay_steps(prev, operations);
            &&& replays(state, prev, scene.paint_operations, operations, now)
            &&& state.scene.shimmer_animations.len() <= scene.shimmer_animations.len()
                + operations.len()
            &&& state.scene.quad_animations.len() <= scene.quad_animations.len() + operations.len()
        }),
    decreases operations.len(),
{
    let start = ReplayModel::spec_start(scene);
    let base = scene.paint_operations;
    if operations.len() > 0 {
        let rest = operations.drop_last();
        let last = operations.last();
        assert forall|i: int| 0 <= i < rest.len() implies prev.step_names_entries(
            #[trigger] rest[i],
        ) && shows(rest[i]) by {
            assert(rest[i] == operations[i]);
        }
        lemma_replays(scene, prev, rest, now);
        let before = start.replay_steps(prev, rest);
        let after = start.replay_steps(prev, operations);
        assert(last == operations[operations.len() - 1]);
        lemma_replay_step(before, prev, last);
        if let PaintOperationModel::Primitive(primitive) = last {
            lemma_replay_primitive(before, prev, primitive, now);
        }
        let steps = after.scene.paint_operations;
        assert(steps.drop_last() =~= before.scene.paint_operations);
        assert(entries_kept(before.scene, after.scene));
        assert forall|i: int| 0 <= i < base.len() implies #[trigger] steps[i] == base[i] by {
            assert(steps.drop_last()[i] == before.scene.paint_operations[i]);
        }
        assert forall|i: int|
            #![trigger operations[i]]
            0 <= i < operations.len() implies step_alike(
            after.scene,
            steps[base.len() + i],
            prev,
            operations[i],
            now,
        ) by {
            if i < rest.len() {
                assert(rest[i] == operations[i]);
                assert(steps.drop_last()[base.len() + i] == before.scene.paint_operations[
                    base.len() + i]);
                lemma_step_stays_alike(
                    before.scene,
                    after.scene,
                    steps[base.len() + i],
                    prev,
                    operations[i],
                    now,
                );
            }
        }
    }
}

/// Replaying steps of another scene paints what they painted, step by step and in their
/// order: the same layers and the same primitives, at the same places and with the same
/// masks and colors, whose ids name entries like those that they named there. What was
/// painted before stays.
pub proof fn law_replay_repeats_the_steps<F: Scalar>(
    scene: SceneModel<F>,
    prev: SceneModel<F>,
    operations: Seq<PaintOperationModel<F>>,
    now: u64,
)
    requires
        names_resolve(scene),
        scene.current_transition == 0,
        parents_come_first(prev.transitions),
        forall|i: int|
            0 <= i < operations.len() ==> prev.step_names_entries(#[trigger] operations[i]),
        forall|i: int| 0 <= i < operations.len() ==> shows(#[trigger] operations[i]),
        scene.shimmer_animations.len() + operations.len() <= u32::MAX,
        scene.quad_animations.len() + operations.len() <= u32::MAX,
    ensures
        ({
            let after = ReplayModel::spec_start(scene).replay_steps(prev, operations).scene;
            let (base, steps) = (scene.paint_operations, after.paint_operations);
            &&& steps.len() == base.len() + operations.len()
            &&& forall|i: int| 0 <= i < base.len() ==> #[trigger] steps[i] == base[i]
            &&& forall|i: int|
                #![trigger operations[i]]
                0 <= i < operations.len() ==> step_alike(
                    after,
                    steps[base.len() + i],
                    prev,
                    operations[i],
                    now,
                )
        }),
{
    lemma_replays(scene, prev, operations, now);
}

proof fn lemma_replay_holds<F: Scalar>(
    state: ReplayModel<F>,
    prev: SceneModel<F>,
    operations: Seq<PaintOperationModel<F>>,
)
    requires
        holds_what_was_painted(state.scene),
    ensures
        holds_what_was_painted(state.replay_steps(prev, operations).scene),
    decreases operations.len(),
{
    if operations.len() > 0 {
        let before = state.replay_steps(prev, operations.drop_last());
        lemma_replay_holds(state, prev, operations.drop_last());
        match operations.last() {
            PaintOperationModel::Primitive(primitive) => {
                let (state_1, primitive_1) = before.copy_transition(prev, primitive);
                let (state_2, primitive_2) = state_1.copy_quad_animation(prev, primitive_1);
                let (state_3, primitive_3) = state_2.copy_shimmer_animation(prev, primitive_2);
                assert forall|kind: PrimitiveKind| #[trigger]
                    held(state_3.scene, kind) == painted(
                        state_3.scene.paint_operations,
                        kind,
                    ) by {
                    assert(held(before.scene, kind) == painted(
                        before.scene.paint_operations,
                        kind,
                    ));
                }
                law_scenes_hold_what_was_painted(
                    state_3.scene,
                    primitive_3,
                    Bounds::spec_origin(),
                );
            },
            PaintOperationModel::StartLayer(bounds) => {
                law_scenes_hold_what_was_painted(
                    before.scene,
                    arbitrary(),
                    bounds,
                );
            },
            PaintOperationModel::EndLayer => {
                law_scenes_hold_what_was_painted(
                    before.scene,
                    arbitrary(),
                    Bounds::spec_origin(),
                );
            },
        }
    }
}

/// Primitives without their orders and ids.
pub open spec fn all_unnamed<F: Scalar>(primitives: Seq<PrimitiveModel<F>>) -> Seq<
    PrimitiveModel<F>,
> {
    primitives.map_values(|primitive: PrimitiveModel<F>| primitive.unnamed())
}

proof fn lemma_painted_alike<F: Scalar>(
    scene: SceneModel<F>,
    copies: Seq<PaintOperationModel<F>>,
    prev: SceneModel<F>,
    sources: Seq<PaintOperationModel<F>>,
    kind: PrimitiveKind,
    now: u64,
)
    requires
        copies.len() == sources.len(),
        forall|i: int|
            0 <= i < copies.len() ==> step_alike(
                scene,
                copies[i],
                prev,
                #[trigger] sources[i],
                now,
            ),
    ensures
        all_unnamed(painted(copies, kind)) == all_unnamed(painted(sources, kind)),
    decreases copies.len(),
{
    let (left, right) = (painted(copies, kind), painted(sources, kind));
    if copies.len() > 0 {
        let (copies_rest, sources_rest) = (copies.drop_last(), sources.drop_last());
        assert forall|i: int| 0 <= i < copies_rest.len() implies step_alike(
            scene,
            copies_rest[i],
            prev,
            #[trigger] sources_rest[i],
            now,
        ) by {
            assert(sources_rest[i] == sources[i]);
        }
        lemma_painted_alike(scene, copies_rest, prev, sources_rest, kind, now);
        assert(sources.last() == sources[sources.len() - 1]);
        if let PaintOperationModel::Primitive(copy) = copies.last() {
            let source = sources.last()->Primitive_0;
            assert(copy.unnamed().kind() == copy.kind());
            assert(source.unnamed().kind() == source.kind());
            if copy.kind() == kind {
                assert(all_unnamed(left) =~= all_unnamed(painted(copies_rest, kind)).push(
                    copy.unnamed(),
                ));
                assert(all_unnamed(right) =~= all_unnamed(painted(sources_rest, kind)).push(
                    source.unnamed(),
                ));
            }
        }
    }
    assert(all_unnamed(left) =~= all_unnamed(right));
}

/// Replaying a whole scene into an empty one brings every primitive that the scene
/// recorded exactly once, kind by kind and in the order of recording, at the same place
/// and with the same mask and colors.
pub proof fn law_replay_holds_what_was_recorded<F: Scalar>(
    prev: SceneModel<F>,
    kind: PrimitiveKind,
)
    requires
        names_resolve(prev),
        forall|i: int|
            0 <= i < prev.paint_operations.len() ==> shows(#[trigger] prev.paint_operations[i]),
        prev.paint_operations.len() <= u32::MAX,
    ensures
        ({
            let after = ReplayModel::spec_start(SceneModel::<F>::spec_empty()).replay_steps(
                prev,
                prev.paint_operations,
            ).scene;
            &&& after.paint_operations.len() == prev.paint_operations.len()
            &&& all_unnamed(held(after, kind)) == all_unnamed(
                painted(prev.paint_operations, kind),
            )
        }),
{
    let empty = SceneModel::<F>::spec_empty();
    let start = ReplayModel::spec_start(empty);
    let after = start.replay_steps(prev, prev.paint_operations).scene;
    assert(names_resolve(empty));
    law_replay_repeats_the_steps(empty, prev, prev.paint_operations, 0);
    assert forall|kind: PrimitiveKind| #[trigger]
        held(empty, kind) == painted(empty.paint_operations, kind) by {
        assert(held(empty, kind) =~= painted(empty.paint_operations, kind));
    }
    lemma_replay_holds(start, prev, prev.paint_operations);
    assert(held(after, kind) == painted(after.paint_operations, kind));
    lemma_painted_alike(
        after,
        after.paint_operations,
        prev,
        prev.paint_operations,
        kind,
        0,
    );
}

} // verus!
