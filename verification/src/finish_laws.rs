//! What holds of a finished scene.
use vstd::prelude::*;

use crate::batch_laws::{blended_in_order, in_draw_order, orders_below_last};
use crate::batches::{drawn_of_kind, PrimitiveKind};
use crate::bounds_tree::{law_orders_stay_in_range, lemma_topmost_bounds, orders_in_range};
use crate::geometry::Bounds;
use crate::present_laws::quads_gathered;
use crate::primitives::{PrimitiveModel, Quad};
use crate::scalar::Scalar;
use crate::scene_laws::names_resolve;
use crate::scene_model::{
    indices_where, lists, monochrome_sweeps, quad_cycles, subpixel_sweeps, takes_blended_pass,
    takes_opaque_pass, targets, SceneModel, TransitionTarget, Transitioned,
    MAX_DEPTH_PARTITIONED_QUADS,
};
use crate::stable_sort::{law_stable_sort, lemma_stable_sort_elements, stable_sort, SortKey};

verus! {

pub proof fn lemma_indices_where(count: nat, holds: spec_fn(int) -> bool)
    requires
        count <= u32::MAX,
    ensures
        forall|k: int|
            0 <= k < indices_where(count, holds).len() ==> (#[trigger] indices_where(
                count,
                holds,
            )[k]) < count && holds(indices_where(count, holds)[k] as int),
        forall|j: int, k: int|
            0 <= j < k < indices_where(count, holds).len() ==> (#[trigger] indices_where(
                count,
                holds,
            )[j]) < (#[trigger] indices_where(count, holds)[k]),
        forall|i: int|
            0 <= i < count && #[trigger] holds(i) ==> lists(indices_where(count, holds), i),
    decreases count,
{
    if count > 0 {
        let rest = indices_where((count - 1) as nat, holds);
        let all = indices_where(count, holds);
        lemma_indices_where((count - 1) as nat, holds);
        assert forall|i: int| 0 <= i < count && #[trigger] holds(i) implies lists(all, i) by {
            if i < count - 1 {
                let k = choose|k: int| 0 <= k < rest.len() && rest[k] == i;
                assert(all[k] == i);
            } else {
                assert(all[rest.len() as int] == i);
            }
        }
    }
}

pub proof fn lemma_targets<F: Scalar, T: Transitioned<F>>(items: Seq<T>, count: nat)
    requires
        count <= items.len(),
    ensures
        forall|k: int|
            0 <= k < targets::<F, T>(items, count).len() ==> (#[trigger] targets::<F, T>(
                items,
                count,
            )[k]).transition != 0 && exists|i: int|
                0 <= i < count && targets::<F, T>(items, count)[k] == (
                #[trigger] items[i]).spec_transitioned(i as u32),
    decreases count,
{
    if count > 0 {
        let rest = targets::<F, T>(items, (count - 1) as nat);
        let all = targets::<F, T>(items, count);
        lemma_targets::<F, T>(items, (count - 1) as nat);
        assert forall|k: int| 0 <= k < all.len() implies (#[trigger] all[k]).transition != 0
            && exists|i: int|
            0 <= i < count && all[k] == (#[trigger] items[i]).spec_transitioned(i as u32) by {
            if k < rest.len() {
                assert(all[k] == rest[k]);
                let i = choose|i: int|
                    0 <= i < count - 1 && rest[k] == (#[trigger] items[i]).spec_transitioned(
                        i as u32,
                    );
                assert(all[k] == items[i].spec_transitioned(i as u32));
            } else {
                assert(all[k] == items[count - 1].spec_transitioned((count - 1) as u32));
            }
        }
    }
}

/// Finishing leaves the primitives of every kind, and the blended quads, in the
/// order that they are drawn in.
pub proof fn law_finishing_puts_everything_in_draw_order<F: Scalar>(
    scene: SceneModel<F>,
    partitioned: bool,
)
    requires
        scene.countable(),
    ensures
        in_draw_order(scene.spec_finish(partitioned)),
        blended_in_order(scene.spec_finish(partitioned)),
{
    let after = scene.spec_finish(partitioned);
    law_stable_sort(scene.shadows);
    law_stable_sort(scene.quads);
    law_stable_sort(scene.paths);
    law_stable_sort(scene.underlines);
    law_stable_sort(scene.monochrome_sprites);
    law_stable_sort(scene.subpixel_sprites);
    law_stable_sort(scene.polychrome_sprites);
    law_stable_sort(scene.surfaces);
    assert forall|kind: PrimitiveKind, i: int, j: int|
        0 <= i <= j < drawn_of_kind(after, kind).len() implies (#[trigger] drawn_of_kind(
        after,
        kind,
    )[i]).order <= (#[trigger] drawn_of_kind(after, kind)[j]).order by {
        match kind {
            PrimitiveKind::Shadow => {
                assert(after.shadows[i].sort_key() <= after.shadows[j].sort_key());
            },
            PrimitiveKind::Quad => {
                assert(after.quads[i].sort_key() <= after.quads[j].sort_key());
            },
            PrimitiveKind::Path => {
                assert(after.paths[i].sort_key() <= after.paths[j].sort_key());
            },
            PrimitiveKind::Underline => {
                assert(after.underlines[i].sort_key() <= after.underlines[j].sort_key());
            },
            PrimitiveKind::MonochromeSprite => {
                assert(after.monochrome_sprites[i].sort_key()
                    <= after.monochrome_sprites[j].sort_key());
            },
            PrimitiveKind::SubpixelSprite => {
                assert(after.subpixel_sprites[i].sort_key()
                    <= after.subpixel_sprites[j].sort_key());
            },
            PrimitiveKind::PolychromeSprite => {
                assert(after.polychrome_sprites[i].sort_key()
                    <= after.polychrome_sprites[j].sort_key());
            },
            PrimitiveKind::Surface => {
                assert(after.surfaces[i].sort_key() <= after.surfaces[j].sort_key());
            },
        }
    }
    lemma_indices_where(after.quads.len(), takes_blended_pass(after.quads, partitioned));
}

/// Every quad is drawn: by the opaque pass, or by the blended pass, and by both
/// where its corners are round. The opaque pass goes front to back and the
/// blended pass back to front. Quads that move with time, and all quads of a
/// frame that has too many of them, take the blended pass alone.
pub proof fn law_every_quad_is_drawn<F: Scalar>(
    scene: SceneModel<F>,
    partitioned: bool,
    i: int,
)
    requires
        scene.countable(),
        0 <= i < scene.quads.len(),
    ensures
        ({
            let after = scene.spec_finish(partitioned);
            let quad = after.quads[i];
            &&& lists(after.opaque_quad_indices, i) || lists(after.blended_quad_indices, i)
            &&& lists(after.opaque_quad_indices, i) && lists(after.blended_quad_indices, i)
                ==> quad.spec_has_rounded_corners()
            &&& quad.background.animation != 0 || quad.background.transition != 0 || !partitioned
                || scene.quads.len() > MAX_DEPTH_PARTITIONED_QUADS ==> !lists(
                after.opaque_quad_indices,
                i,
            )
            &&& forall|j: int, k: int|
                0 <= j < k < after.opaque_quad_indices.len() ==> (
                #[trigger] after.opaque_quad_indices[j]) > (
                #[trigger] after.opaque_quad_indices[k])
            &&& forall|j: int, k: int|
                0 <= j < k < after.blended_quad_indices.len() ==> (
                #[trigger] after.blended_quad_indices[j]) < (
                #[trigger] after.blended_quad_indices[k])
        }),
{
    let after = scene.spec_finish(partitioned);
    law_stable_sort(scene.quads);
    let opaque = takes_opaque_pass(after.quads, partitioned);
    let blended = takes_blended_pass(after.quads, partitioned);
    lemma_indices_where(after.quads.len(), opaque);
    lemma_indices_where(after.quads.len(), blended);
    let forward = indices_where(after.quads.len(), opaque);
    let backward = after.opaque_quad_indices;
    assert(backward == forward.reverse());
    if opaque(i) {
        let k = choose|k: int| 0 <= k < forward.len() && forward[k] == i;
        assert(backward[forward.len() - 1 - k] == i);
    } else {
        assert(blended(i));
    }
    if lists(backward, i) {
        let k = choose|k: int| 0 <= k < backward.len() && backward[k] == i;
        assert(forward[forward.len() - 1 - k] == i);
        assert(opaque(i));
    }
    if lists(after.blended_quad_indices, i) {
        let k = choose|k: int|
            0 <= k < after.blended_quad_indices.len() && after.blended_quad_indices[k] == i;
        assert(blended(i));
    }
    assert forall|j: int, k: int| 0 <= j < k < backward.len() implies (#[trigger] backward[j]) > (
    #[trigger] backward[k]) by {
        assert(forward[forward.len() - 1 - k] < forward[forward.len() - 1 - j]);
    }
}

pub proof fn lemma_in_all_targets<F: Scalar>(scene: SceneModel<F>, k: int)
    requires
        0 <= k < scene.all_targets().len(),
    ensures
        ({
            let found = scene.all_targets()[k];
            ||| exists|i: int|
                #![trigger scene.monochrome_sprites[i]]
                0 <= i < scene.monochrome_sprites.len() && found
                    == scene.monochrome_sprites[i].spec_transitioned(i as u32)
            ||| exists|i: int|
                #![trigger scene.subpixel_sprites[i]]
                0 <= i < scene.subpixel_sprites.len() && found
                    == scene.subpixel_sprites[i].spec_transitioned(i as u32)
            ||| exists|i: int|
                #![trigger scene.polychrome_sprites[i]]
                0 <= i < scene.polychrome_sprites.len() && found
                    == scene.polychrome_sprites[i].spec_transitioned(i as u32)
            ||| exists|i: int|
                #![trigger scene.underlines[i]]
                0 <= i < scene.underlines.len() && found
                    == scene.underlines[i].spec_transitioned(i as u32)
            ||| exists|i: int|
                #![trigger scene.shadows[i]]
                0 <= i < scene.shadows.len() && found == scene.shadows[i].spec_transitioned(
                    i as u32,
                )
            ||| exists|i: int|
                #![trigger scene.quads[i]]
                0 <= i < scene.quads.len() && found == scene.quads[i].spec_transitioned(i as u32)
        }),
        scene.all_targets()[k].transition != 0,
{
    let found = scene.all_targets()[k];
    let a = targets(scene.monochrome_sprites, scene.monochrome_sprites.len());
    let b = targets(scene.subpixel_sprites, scene.subpixel_sprites.len());
    let c = targets(scene.polychrome_sprites, scene.polychrome_sprites.len());
    let d = targets(scene.underlines, scene.underlines.len());
    let e = targets(scene.shadows, scene.shadows.len());
    let f = targets(scene.quads, scene.quads.len());
    lemma_targets(scene.monochrome_sprites, scene.monochrome_sprites.len());
    lemma_targets(scene.subpixel_sprites, scene.subpixel_sprites.len());
    lemma_targets(scene.polychrome_sprites, scene.polychrome_sprites.len());
    lemma_targets(scene.underlines, scene.underlines.len());
    lemma_targets(scene.shadows, scene.shadows.len());
    lemma_targets(scene.quads, scene.quads.len());
    let ab = (a.len() + b.len()) as int;
    let abc = ab + c.len();
    let abcd = abc + d.len();
    let abcde = abcd + e.len();
    if k < a.len() {
        assert(found == a[k]);
    } else if k < ab {
        assert(found == b[k - a.len()]);
    } else if k < abc {
        assert(found == c[k - ab]);
    } else if k < abcd {
        assert(found == d[k - abc]);
    } else if k < abcde {
        assert(found == e[k - abcd]);
    } else {
        assert(found == f[k - abcde]);
    }
}

/// A scene whose ids all name entries can be presented once it is finished:
/// everything that was found to move exists, with what moves it.
pub proof fn law_a_finished_scene_is_presentable<F: Scalar>(
    scene: SceneModel<F>,
    partitioned: bool,
)
    requires
        names_resolve(scene),
        scene.countable(),
    ensures
        scene.spec_finish(partitioned).presentable(),
        quads_gathered(scene.spec_finish(partitioned)),
{
    let after = scene.spec_finish(partitioned);
    law_stable_sort(scene.shadows);
    law_stable_sort(scene.quads);
    law_stable_sort(scene.underlines);
    law_stable_sort(scene.monochrome_sprites);
    law_stable_sort(scene.subpixel_sprites);
    law_stable_sort(scene.polychrome_sprites);
    lemma_stable_sort_elements(scene.shadows);
    lemma_stable_sort_elements(scene.quads);
    lemma_stable_sort_elements(scene.underlines);
    lemma_stable_sort_elements(scene.monochrome_sprites);
    lemma_stable_sort_elements(scene.subpixel_sprites);
    lemma_stable_sort_elements(scene.polychrome_sprites);
    assert forall|i: int| 0 <= i < after.quads.len() implies scene.names_entries(
        PrimitiveModel::Quad(#[trigger] after.quads[i]),
    ) by {
        assert(scene.quads.contains(stable_sort(scene.quads)[i]));
    }
    assert forall|i: int| 0 <= i < after.monochrome_sprites.len() implies scene.names_entries(
        PrimitiveModel::MonochromeSprite(#[trigger] after.monochrome_sprites[i]),
    ) by {
        assert(scene.monochrome_sprites.contains(stable_sort(scene.monochrome_sprites)[i]));
    }
    assert forall|i: int| 0 <= i < after.subpixel_sprites.len() implies scene.names_entries(
        PrimitiveModel::SubpixelSprite(#[trigger] after.subpixel_sprites[i]),
    ) by {
        assert(scene.subpixel_sprites.contains(stable_sort(scene.subpixel_sprites)[i]));
    }
    assert forall|i: int| 0 <= i < after.polychrome_sprites.len() implies (
    #[trigger] after.polychrome_sprites[i]).pad <= scene.transitions.len() by {
        assert(scene.polychrome_sprites.contains(stable_sort(scene.polychrome_sprites)[i]));
    }
    assert forall|i: int| 0 <= i < after.underlines.len() implies (
    #[trigger] after.underlines[i]).pad <= scene.transitions.len() by {
        assert(scene.underlines.contains(stable_sort(scene.underlines)[i]));
    }
    assert forall|i: int| 0 <= i < after.shadows.len() implies (#[trigger] after.shadows[i]).pad
        <= scene.transitions.len() by {
        assert(scene.shadows.contains(stable_sort(scene.shadows)[i]));
    }
    lemma_indices_where(
        after.monochrome_sprites.len(),
        monochrome_sweeps(after.monochrome_sprites),
    );
    lemma_indices_where(after.subpixel_sprites.len(), subpixel_sweeps(after.subpixel_sprites));
    lemma_indices_where(after.quads.len(), quad_cycles(after.quads));
    assert forall|i: int|
        #![trigger after.animated_monochrome_sprites[i]]
        0 <= i < after.animated_monochrome_sprites.len() implies {
        let index = after.animated_monochrome_sprites[i] as int;
        &&& index < after.monochrome_sprites.len()
        &&& 1 <= after.monochrome_sprites[index].effect.animation
            <= after.shimmer_animations.len()
    } by {
        let index = after.animated_monochrome_sprites[i] as int;
        assert(monochrome_sweeps(after.monochrome_sprites)(index));
        assert(scene.names_entries(
            PrimitiveModel::MonochromeSprite(after.monochrome_sprites[index]),
        ));
    }
    assert forall|i: int|
        #![trigger after.animated_subpixel_sprites[i]]
        0 <= i < after.animated_subpixel_sprites.len() implies {
        let index = after.animated_subpixel_sprites[i] as int;
        &&& index < after.subpixel_sprites.len()
        &&& 1 <= after.subpixel_sprites[index].effect.animation <= after.shimmer_animations.len()
    } by {
        let index = after.animated_subpixel_sprites[i] as int;
        assert(subpixel_sweeps(after.subpixel_sprites)(index));
        assert(scene.names_entries(
            PrimitiveModel::SubpixelSprite(after.subpixel_sprites[index]),
        ));
    }
    assert forall|i: int|
        #![trigger after.animated_quads[i]]
        0 <= i < after.animated_quads.len() implies {
        let index = after.animated_quads[i] as int;
        &&& index < after.quads.len()
        &&& 1 <= after.quads[index].background.animation <= after.quad_animations.len()
    } by {
        let index = after.animated_quads[i] as int;
        assert(quad_cycles(after.quads)(index));
        assert(scene.names_entries(PrimitiveModel::Quad(after.quads[index])));
    }
    assert forall|i: int|
        0 <= i < after.quads.len() && (#[trigger] after.quads[i]).background.animation
            != 0 implies lists(after.animated_quads, i) by {
        assert(quad_cycles(after.quads)(i));
    }
    if scene.transitions.len() > 0 {
        assert(after.transitioned == after.all_targets());
        assert forall|k: int| 0 <= k < after.transitioned.len() implies after.target_exists(
            #[trigger] after.transitioned[k],
        ) && match after.transitioned[k].target {
            TransitionTarget::Quad { index, background, .. } => background.animation
                == after.quads[index as int].background.animation,
            _ => true,
        } by {
            lemma_in_all_targets(after, k);
            let found = after.transitioned[k];
            match found.target {
                TransitionTarget::MonochromeSprite { index, .. } => {
                    assert(scene.names_entries(
                        PrimitiveModel::MonochromeSprite(
                            after.monochrome_sprites[index as int],
                        ),
                    ));
                },
                TransitionTarget::SubpixelSprite { index, .. } => {
                    assert(scene.names_entries(
                        PrimitiveModel::SubpixelSprite(after.subpixel_sprites[index as int]),
                    ));
                },
                TransitionTarget::Quad { index, .. } => {
                    assert(scene.names_entries(
                        PrimitiveModel::Quad(after.quads[index as int]),
                    ));
                },
                TransitionTarget::PolychromeSprite { index, .. } => {
                    assert(after.polychrome_sprites[index as int].pad <= scene.transitions.len());
                },
                TransitionTarget::Underline { index, .. } => {
                    assert(after.underlines[index as int].pad <= scene.transitions.len());
                },
                TransitionTarget::Shadow { index, .. } => {
                    assert(after.shadows[index as int].pad <= scene.transitions.len());
                },
            }
        }
    }
}

/// Whether every order that a scene has given is at most the number of
/// rectangles that it has given orders to.
pub open spec fn orders_bounded<F: Scalar>(scene: SceneModel<F>) -> bool {
    &&& orders_in_range(scene.primitive_bounds)
    &&& forall|i: int|
        0 <= i < scene.layer_stack.len() ==> (#[trigger] scene.layer_stack[i])
            <= scene.primitive_bounds.len()
    &&& forall|kind: PrimitiveKind, i: int|
        0 <= i < drawn_of_kind(scene, kind).len() ==> (
        #[trigger] drawn_of_kind(scene, kind)[i]).order <= scene.primitive_bounds.len()
}

/// However a scene is painted, its orders stay bounded by the number of
/// rectangles that were given one.
pub proof fn law_painting_keeps_orders_bounded<F: Scalar>(
    scene: SceneModel<F>,
    primitive: PrimitiveModel<F>,
    bounds: Bounds<F>,
)
    requires
        orders_bounded(scene),
        scene.primitive_bounds.len() < u32::MAX,
    ensures
        orders_bounded(scene.spec_insert_primitive(primitive)),
        orders_bounded(scene.spec_push_layer(bounds)),
        orders_bounded(scene.spec_pop_layer()),
{
    let opened = scene.spec_push_layer(bounds);
    let closed = scene.spec_pop_layer();
    law_orders_stay_in_range(scene.primitive_bounds, bounds);
    lemma_topmost_bounds(
        scene.primitive_bounds,
        bounds,
        scene.primitive_bounds.len() as int,
    );
    assert forall|kind: PrimitiveKind, i: int|
        0 <= i < drawn_of_kind(opened, kind).len() implies (#[trigger] drawn_of_kind(
        opened,
        kind,
    )[i]).order <= opened.primitive_bounds.len() by {
        assert(drawn_of_kind(opened, kind)[i] == drawn_of_kind(scene, kind)[i]);
    }
    assert forall|kind: PrimitiveKind, i: int|
        0 <= i < drawn_of_kind(closed, kind).len() implies (#[trigger] drawn_of_kind(
        closed,
        kind,
    )[i]).order <= closed.primitive_bounds.len() by {
        assert(drawn_of_kind(closed, kind)[i] == drawn_of_kind(scene, kind)[i]);
    }
    let clipped = primitive.clipped_bounds();
    let painted = scene.spec_insert_primitive(primitive);
    if !clipped.spec_is_empty() {
        law_orders_stay_in_range(scene.primitive_bounds, clipped);
        lemma_topmost_bounds(
            scene.primitive_bounds,
            clipped,
            scene.primitive_bounds.len() as int,
        );
        assert(scene.order_for(clipped) <= painted.primitive_bounds.len());
        assert forall|kind: PrimitiveKind, i: int|
            0 <= i < drawn_of_kind(painted, kind).len() implies (#[trigger] drawn_of_kind(
            painted,
            kind,
        )[i]).order <= painted.primitive_bounds.len() by {
            if i < drawn_of_kind(scene, kind).len() {
                assert(drawn_of_kind(painted, kind)[i] == drawn_of_kind(scene, kind)[i]);
            }
        }
    }
}

/// Finishing keeps the orders bounded, so that the batches of a scene that holds
/// fewer than 2^32 - 1 ordered rectangles cover it.
pub proof fn law_finishing_keeps_orders_bounded<F: Scalar>(
    scene: SceneModel<F>,
    partitioned: bool,
)
    requires
        orders_bounded(scene),
        scene.primitive_bounds.len() < u32::MAX,
    ensures
        orders_bounded(scene.spec_finish(partitioned)),
        orders_below_last(scene.spec_finish(partitioned)),
{
    let after = scene.spec_finish(partitioned);
    lemma_stable_sort_elements(scene.shadows);
    lemma_stable_sort_elements(scene.quads);
    lemma_stable_sort_elements(scene.paths);
    lemma_stable_sort_elements(scene.underlines);
    lemma_stable_sort_elements(scene.monochrome_sprites);
    lemma_stable_sort_elements(scene.subpixel_sprites);
    lemma_stable_sort_elements(scene.polychrome_sprites);
    lemma_stable_sort_elements(scene.surfaces);
    assert forall|kind: PrimitiveKind, i: int|
        0 <= i < drawn_of_kind(after, kind).len() implies (#[trigger] drawn_of_kind(
        after,
        kind,
    )[i]).order <= scene.primitive_bounds.len() by {
        match kind {
            PrimitiveKind::Shadow => {
                let k = choose|k: int|
                    0 <= k < scene.shadows.len() && scene.shadows[k] == after.shadows[i];
                assert(scene.shadows.contains(stable_sort(scene.shadows)[i]));
                assert(drawn_of_kind(scene, kind)[k].order <= scene.primitive_bounds.len());
            },
            PrimitiveKind::Quad => {
                let k = choose|k: int|
                    0 <= k < scene.quads.len() && scene.quads[k] == after.quads[i];
                assert(scene.quads.contains(stable_sort(scene.quads)[i]));
                assert(drawn_of_kind(scene, kind)[k].order <= scene.primitive_bounds.len());
            },
            PrimitiveKind::Path => {
                let k = choose|k: int|
                    0 <= k < scene.paths.len() && scene.paths[k] == after.paths[i];
                assert(scene.paths.contains(stable_sort(scene.paths)[i]));
                assert(drawn_of_kind(scene, kind)[k].order <= scene.primitive_bounds.len());
            },
            PrimitiveKind::Underline => {
                let k = choose|k: int|
                    0 <= k < scene.underlines.len() && scene.underlines[k] == after.underlines[i];
                assert(scene.underlines.contains(stable_sort(scene.underlines)[i]));
                assert(drawn_of_kind(scene, kind)[k].order <= scene.primitive_bounds.len());
            },
            PrimitiveKind::MonochromeSprite => {
                let k = choose|k: int|
                    0 <= k < scene.monochrome_sprites.len() && scene.monochrome_sprites[k]
                        == after.monochrome_sprites[i];
                assert(scene.monochrome_sprites.contains(
                    stable_sort(scene.monochrome_sprites)[i],
                ));
                assert(drawn_of_kind(scene, kind)[k].order <= scene.primitive_bounds.len());
            },
            PrimitiveKind::SubpixelSprite => {
                let k = choose|k: int|
                    0 <= k < scene.subpixel_sprites.len() && scene.subpixel_sprites[k]
                        == after.subpixel_sprites[i];
                assert(scene.subpixel_sprites.contains(stable_sort(scene.subpixel_sprites)[i]));
                assert(drawn_of_kind(scene, kind)[k].order <= scene.primitive_bounds.len());
            },
            PrimitiveKind::PolychromeSprite => {
                let k = choose|k: int|
                    0 <= k < scene.polychrome_sprites.len() && scene.polychrome_sprites[k]
                        == after.polychrome_sprites[i];
                assert(scene.polychrome_sprites.contains(
                    stable_sort(scene.polychrome_sprites)[i],
                ));
                assert(drawn_of_kind(scene, kind)[k].order <= scene.primitive_bounds.len());
            },
            PrimitiveKind::Surface => {
                let k = choose|k: int|
                    0 <= k < scene.surfaces.len() && scene.surfaces[k] == after.surfaces[i];
                assert(scene.surfaces.contains(stable_sort(scene.surfaces)[i]));
                assert(drawn_of_kind(scene, kind)[k].order <= scene.primitive_bounds.len());
            },
        }
    }
}

} // verus!
