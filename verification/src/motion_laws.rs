//! What transitions leave as it is.
use vstd::prelude::*;

use crate::batches::PrimitiveKind;
use crate::color::MAX_TIME_TRANSITION;
use crate::finish_laws::{law_a_finished_scene_is_presentable, lemma_in_all_targets};
use crate::geometry::Point;
use crate::primitives::PrimitiveModel;
use crate::replay_laws::held;
use crate::scalar::Scalar;
use crate::scene_laws::names_resolve;
use crate::scene_model::{composed_state, SceneModel, TransitionTarget, TransitionedPrimitive};
use crate::stable_sort::law_stable_sort;

verus! {

impl<F: Scalar> PrimitiveModel<F> {
    /// The order that the primitive is drawn at.
    pub open spec fn order(self) -> u32 {
        match self {
            PrimitiveModel::Shadow(shadow) => shadow.order,
            PrimitiveModel::Quad(quad) => quad.order,
            PrimitiveModel::Path(path) => path.order,
            PrimitiveModel::Underline(underline) => underline.order,
            PrimitiveModel::MonochromeSprite(sprite) => sprite.order,
            PrimitiveModel::SubpixelSprite(sprite) => sprite.order,
            PrimitiveModel::PolychromeSprite(sprite) => sprite.order,
            PrimitiveModel::Surface(surface) => surface.order,
        }
    }
}

/// Whether `after` is `before`, moved and faded at most: nothing changes about what has
/// no transition, and no mask, size, order or id changes at all.
pub open spec fn only_moved<F: Scalar>(
    before: PrimitiveModel<F>,
    after: PrimitiveModel<F>,
) -> bool {
    &&& before.transition() == 0 ==> after == before
    &&& after.kind() == before.kind()
    &&& after.content_mask() == before.content_mask()
    &&& after.bounds().size == before.bounds().size
    &&& after.order() == before.order()
    &&& after.transition() == before.transition()
    &&& after.quad_animation() == before.quad_animation()
    &&& after.shimmer_animation() == before.shimmer_animation()
}

/// The primitive that a transition moves.
pub open spec fn target_primitive<F: Scalar>(
    scene: SceneModel<F>,
    target: TransitionTarget<F>,
) -> PrimitiveModel<F> {
    match target {
        TransitionTarget::MonochromeSprite { index, .. } => PrimitiveModel::MonochromeSprite(
            scene.monochrome_sprites[index as int],
        ),
        TransitionTarget::SubpixelSprite { index, .. } => PrimitiveModel::SubpixelSprite(
            scene.subpixel_sprites[index as int],
        ),
        TransitionTarget::PolychromeSprite { index, .. } => PrimitiveModel::PolychromeSprite(
            scene.polychrome_sprites[index as int],
        ),
        TransitionTarget::Underline { index, .. } => PrimitiveModel::Underline(
            scene.underlines[index as int],
        ),
        TransitionTarget::Shadow { index, .. } => PrimitiveModel::Shadow(
            scene.shadows[index as int],
        ),
        TransitionTarget::Quad { index, .. } => PrimitiveModel::Quad(scene.quads[index as int]),
    }
}

/// Whether what was gathered to be moved is what carries the transition that moves it.
pub open spec fn target_matches<F: Scalar>(
    scene: SceneModel<F>,
    primitive: TransitionedPrimitive<F>,
) -> bool {
    &&& scene.target_exists(primitive)
    &&& target_primitive(scene, primitive.target).transition() == primitive.transition
    &&& match primitive.target {
        TransitionTarget::Quad { index, background, .. } => background.animation
            == scene.quads[index as int].background.animation,
        _ => true,
    }
}

/// Whether everything that was gathered to be moved carries the transition that moves
/// it, and every transition has an id that a quad's background can carry.
pub open spec fn targets_match<F: Scalar>(scene: SceneModel<F>) -> bool {
    &&& scene.transitions.len() <= MAX_TIME_TRANSITION
    &&& forall|j: int|
        0 <= j < scene.transitioned.len() ==> target_matches(
            scene,
            #[trigger] scene.transitioned[j],
        )
}

/// Whether `after` holds what `before` holds, moved and faded at most.
pub open spec fn all_only_moved<F: Scalar>(before: SceneModel<F>, after: SceneModel<F>) -> bool {
    &&& forall|kind: PrimitiveKind| #[trigger] held(after, kind).len() == held(before, kind).len()
    &&& forall|kind: PrimitiveKind, i: int|
        0 <= i < held(before, kind).len() ==> only_moved(
            #[trigger] held(before, kind)[i],
            held(after, kind)[i],
        )
    &&& after == SceneModel {
        shadows: after.shadows,
        quads: after.quads,
        underlines: after.underlines,
        monochrome_sprites: after.monochrome_sprites,
        subpixel_sprites: after.subpixel_sprites,
        polychrome_sprites: after.polychrome_sprites,
        ..before
    }
}

proof fn lemma_moved_step<F: Scalar>(
    scene: SceneModel<F>,
    primitive: TransitionedPrimitive<F>,
    offset: Point<F>,
    opacity: F,
)
    requires
        scene.transitions.len() <= MAX_TIME_TRANSITION,
        target_matches(scene, primitive),
    ensures
        all_only_moved(scene, scene.moved(primitive, offset, opacity)),
{
    let after = scene.moved(primitive, offset, opacity);
    assert forall|kind: PrimitiveKind, i: int| 0 <= i < held(scene, kind).len() implies only_moved(
        #[trigger] held(scene, kind)[i],
        held(after, kind)[i],
    ) by {}
}

proof fn lemma_target_still_matches<F: Scalar>(
    before: SceneModel<F>,
    after: SceneModel<F>,
    primitive: TransitionedPrimitive<F>,
)
    requires
        all_only_moved(before, after),
        target_matches(before, primitive),
    ensures
        target_matches(after, primitive),
{
    let kind = target_primitive(before, primitive.target).kind();
    let index = match primitive.target {
        TransitionTarget::MonochromeSprite { index, .. } => index as int,
        TransitionTarget::SubpixelSprite { index, .. } => index as int,
        TransitionTarget::PolychromeSprite { index, .. } => index as int,
        TransitionTarget::Underline { index, .. } => index as int,
        TransitionTarget::Shadow { index, .. } => index as int,
        TransitionTarget::Quad { index, .. } => index as int,
    };
    assert(held(after, kind).len() == held(before, kind).len());
    assert(held(before, kind)[index] == target_primitive(before, primitive.target));
    assert(only_moved(held(before, kind)[index], held(after, kind)[index]));
    assert(held(after, kind)[index] == target_primitive(after, primitive.target));
}

proof fn lemma_only_moved<F: Scalar>(scene: SceneModel<F>, now: u64, count: nat)
    requires
        targets_match(scene),
        count <= scene.transitioned.len(),
    ensures
        all_only_moved(scene, scene.with_moved(now, count)),
    decreases count,
{
    if count > 0 {
        let k = (count - 1) as nat;
        lemma_only_moved(scene, now, k);
        let before = scene.with_moved(now, k);
        let after = scene.with_moved(now, count);
        let primitive = scene.transitioned[k as int];
        let (offset, opacity) = composed_state(scene.transitions, primitive.transition - 1, now);
        assert(target_matches(scene, primitive));
        lemma_target_still_matches(scene, before, primitive);
        lemma_moved_step(before, primitive, offset, opacity);
        assert forall|kind: PrimitiveKind| #[trigger]
            held(after, kind).len() == held(scene, kind).len() by {
            assert(held(before, kind).len() == held(scene, kind).len());
        }
        assert forall|kind: PrimitiveKind, i: int|
            0 <= i < held(scene, kind).len() implies only_moved(
            #[trigger] held(scene, kind)[i],
            held(after, kind)[i],
        ) by {
            assert(held(before, kind).len() == held(scene, kind).len());
            assert(only_moved(held(before, kind)[i], held(after, kind)[i]));
        }
    } else {
        assert forall|kind: PrimitiveKind, i: int|
            0 <= i < held(scene, kind).len() implies only_moved(
            #[trigger] held(scene, kind)[i],
            held(scene, kind)[i],
        ) by {}
    }
}

/// Moving what transitions cover never changes what has no transition, and changes no
/// mask, size, order or id of anything; and it keeps what the next move needs.
pub proof fn law_transitions_only_move_and_fade<F: Scalar>(scene: SceneModel<F>, now: u64)
    requires
        targets_match(scene),
    ensures
        all_only_moved(scene, scene.spec_advance_transitions(now)),
        targets_match(scene.spec_advance_transitions(now)),
{
    let after = scene.spec_advance_transitions(now);
    lemma_only_moved(scene, now, scene.transitioned.len());
    assert forall|j: int| 0 <= j < after.transitioned.len() implies target_matches(
        after,
        #[trigger] after.transitioned[j],
    ) by {
        assert(target_matches(scene, scene.transitioned[j]));
        lemma_target_still_matches(scene, after, scene.transitioned[j]);
    }
}

/// In a finished scene whose ids all name entries, what was gathered to be moved is
/// exactly what carries the transition that moves it.
pub proof fn law_a_finished_scene_matches_its_targets<F: Scalar>(
    scene: SceneModel<F>,
    partitioned: bool,
)
    requires
        names_resolve(scene),
        scene.countable(),
    ensures
        targets_match(scene.spec_finish(partitioned)),
{
    let after = scene.spec_finish(partitioned);
    law_a_finished_scene_is_presentable(scene, partitioned);
    law_stable_sort(scene.shadows);
    law_stable_sort(scene.quads);
    law_stable_sort(scene.underlines);
    law_stable_sort(scene.monochrome_sprites);
    law_stable_sort(scene.subpixel_sprites);
    law_stable_sort(scene.polychrome_sprites);
    assert forall|j: int| 0 <= j < after.transitioned.len() implies target_matches(
        after,
        #[trigger] after.transitioned[j],
    ) by {
        assert(after.transitioned == after.all_targets());
        assert(after.target_exists(after.transitioned[j]));
        lemma_in_all_targets(after, j);
    }
}

} // verus!
