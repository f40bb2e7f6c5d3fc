//! What painting and finishing a scene mean for what is drawn, and when.
use vstd::prelude::*;

use crate::animation::{QuadOpacityAnimation, SceneTransition, ShimmerAnimation};
use crate::batches::{drawn_of_kind, PrimitiveKind};
use crate::bounds_tree::{
    lemma_topmost_bounds, order_on_top, orders_in_range, topmost_below, OrderedBounds,
};
use crate::color::{Background, BackgroundTag};
use crate::finish_laws::lemma_indices_where;
use crate::geometry::Bounds;
use crate::path::PathModel;
use crate::primitives::{
    MonochromeSprite, PaintSurface, PolychromeSprite, PrimitiveModel, Quad, Shadow, SpriteEffect,
    SubpixelSprite, Underline,
};
use crate::replay_laws::held;
use crate::scalar::{spec_one, spec_zero, Scalar};
use crate::scene_model::{
    indices_where, last_end, lists, monochrome_sweeps, push_transition, quad_cycles,
    subpixel_sweeps, takes_blended_pass, takes_opaque_pass, PaintOperationModel, SceneModel,
};
use crate::stable_sort::{law_stable_sort, of_key, stable_sort, SortKey};

verus! {

/// The part of a primitive that its mask leaves.
pub open spec fn visible_part<F: Scalar>(primitive: PrimitiveModel<F>) -> Bounds<F> {
    primitive.bounds().spec_intersect(primitive.content_mask().bounds)
}

/// Whether a primitive is another one, but for its order, its path id and its transition.
pub open spec fn repeats<F: Scalar>(
    painted: PrimitiveModel<F>,
    primitive: PrimitiveModel<F>,
) -> bool {
    match (painted, primitive) {
        (PrimitiveModel::Shadow(a), PrimitiveModel::Shadow(b)) => a == Shadow {
            order: a.order,
            pad: a.pad,
            ..b
        },
        (PrimitiveModel::Quad(a), PrimitiveModel::Quad(b)) => a == Quad {
            order: a.order,
            background: Background {
                transition: a.background.transition,
                ..b.background
            },
            ..b
        },
        (PrimitiveModel::Path(a), PrimitiveModel::Path(b)) => a == PathModel {
            order: a.order,
            id: a.id,
            ..b
        },
        (PrimitiveModel::Underline(a), PrimitiveModel::Underline(b)) => a
            == Underline { order: a.order, pad: a.pad, ..b },
        (PrimitiveModel::MonochromeSprite(a), PrimitiveModel::MonochromeSprite(b)) => a
            == MonochromeSprite { order: a.order, pad: a.pad, ..b },
        (PrimitiveModel::SubpixelSprite(a), PrimitiveModel::SubpixelSprite(b)) => a
            == SubpixelSprite { order: a.order, pad: a.pad, ..b },
        (PrimitiveModel::PolychromeSprite(a), PrimitiveModel::PolychromeSprite(b)) => a
            == PolychromeSprite { order: a.order, pad: a.pad, ..b },
        (PrimitiveModel::Surface(a), PrimitiveModel::Surface(b)) => a
            == PaintSurface { order: a.order, ..b },
        _ => false,
    }
}

/// The transition that a primitive carries, `0` for none.
pub open spec fn moved_by<F: Scalar>(primitive: PrimitiveModel<F>) -> u32 {
    match primitive {
        PrimitiveModel::Shadow(shadow) => shadow.pad,
        PrimitiveModel::Quad(quad) => quad.background.transition,
        PrimitiveModel::Path(_) => 0,
        PrimitiveModel::Underline(underline) => underline.pad,
        PrimitiveModel::MonochromeSprite(sprite) => sprite.pad,
        PrimitiveModel::SubpixelSprite(sprite) => sprite.pad,
        PrimitiveModel::PolychromeSprite(sprite) => sprite.pad,
        PrimitiveModel::Surface(_) => 0,
    }
}

/// What a primitive's mask leaves nothing of is not painted at all.
pub proof fn law_hidden_primitives_are_dropped<F: Scalar>(
    scene: SceneModel<F>,
    primitive: PrimitiveModel<F>,
)
    requires
        visible_part(primitive).spec_is_empty(),
    ensures
        scene.spec_insert_primitive(primitive) == scene,
{
}

/// Whether an order puts a rectangle right on top of what it overlaps: above all of it, and
/// above nothing else, so that the order is the first one or the one behind that of something
/// it overlaps.
pub open spec fn right_on_top<F: Scalar>(
    entries: Seq<OrderedBounds<F>>,
    bounds: Bounds<F>,
    order: u32,
) -> bool {
    &&& forall|i: int|
        0 <= i < entries.len() && bounds.spec_intersects((#[trigger] entries[i]).bounds)
            ==> entries[i].order < order
    &&& order == 1 || exists|i: int|
        0 <= i < entries.len() && bounds.spec_intersects((#[trigger] entries[i]).bounds)
            && entries[i].order + 1 == order
}

proof fn lemma_right_on_top<F: Scalar>(entries: Seq<OrderedBounds<F>>, bounds: Bounds<F>)
    requires
        orders_in_range(entries),
        entries.len() < u32::MAX,
    ensures
        right_on_top(entries, bounds, order_on_top(entries, bounds)),
{
    lemma_topmost_bounds(entries, bounds, entries.len() as int);
    lemma_topmost(entries, bounds);
}

proof fn lemma_topmost<F: Scalar>(entries: Seq<OrderedBounds<F>>, bounds: Bounds<F>)
    ensures
        forall|i: int|
            0 <= i < entries.len() && bounds.spec_intersects((#[trigger] entries[i]).bounds)
                ==> entries[i].order <= topmost_below(entries, bounds),
        topmost_below(entries, bounds) == 0 || exists|i: int|
            0 <= i < entries.len() && bounds.spec_intersects((#[trigger] entries[i]).bounds)
                && entries[i].order == topmost_below(entries, bounds),
    decreases entries.len(),
{
    if entries.len() > 0 {
        let rest = entries.drop_last();
        lemma_topmost(rest, bounds);
        assert forall|i: int|
            0 <= i < entries.len() && bounds.spec_intersects(
                (#[trigger] entries[i]).bounds,
            ) implies entries[i].order <= topmost_below(entries, bounds) by {
            if i < rest.len() {
                assert(rest[i] == entries[i]);
            }
        }
        if topmost_below(entries, bounds) != 0 {
            if topmost_below(entries, bounds) == topmost_below(rest, bounds) {
                let i = choose|i: int|
                    0 <= i < rest.len() && bounds.spec_intersects((#[trigger] rest[i]).bounds)
                        && rest[i].order == topmost_below(rest, bounds);
                assert(entries[i] == rest[i]);
            } else {
                assert(entries[entries.len() - 1] == entries.last());
            }
        }
    }
}

/// Painting a primitive that shows, outside of all layers, puts it right on top of everything
/// that it overlaps and that was painted before; from then on its visible part counts as
/// painted, at its order. It comes behind all primitives of its kind, and its painting behind
/// all steps of painting. Nothing of what was there changes.
pub proof fn law_painting_puts_on_top<F: Scalar>(
    scene: SceneModel<F>,
    primitive: PrimitiveModel<F>,
    kind: PrimitiveKind,
)
    requires
        !visible_part(primitive).spec_is_empty(),
        scene.layer_stack.len() == 0,
        orders_in_range(scene.primitive_bounds),
        scene.primitive_bounds.len() < u32::MAX,
    ensures
        ({
            let after = scene.spec_insert_primitive(primitive);
            let steps = after.paint_operations;
            let painted = steps.last()->Primitive_0;
            let entries = after.primitive_bounds;
            &&& steps.len() == scene.paint_operations.len() + 1
            &&& steps.drop_last() == scene.paint_operations
            &&& steps.last() is Primitive
            &&& repeats(painted, primitive)
            &&& right_on_top(scene.primitive_bounds, visible_part(primitive), painted.order())
            &&& entries.len() == scene.primitive_bounds.len() + 1
            &&& entries.drop_last() == scene.primitive_bounds
            &&& entries.last().order == painted.order()
            &&& entries.last().bounds == visible_part(primitive)
            &&& after.layer_stack == scene.layer_stack
            &&& kind == primitive.kind() ==> held(after, kind) == held(scene, kind).push(painted)
            &&& kind != primitive.kind() ==> held(after, kind) == held(scene, kind)
            &&& primitive is Path && scene.paths.len() <= usize::MAX ==> painted->Path_0.id.0
                == scene.paths.len()
        }),
{
    let after = scene.spec_insert_primitive(primitive);
    let painted = after.paint_operations.last()->Primitive_0;
    lemma_right_on_top(scene.primitive_bounds, visible_part(primitive));
    assert(after.paint_operations.drop_last() =~= scene.paint_operations);
    assert(after.primitive_bounds.drop_last() =~= scene.primitive_bounds);
    if kind == primitive.kind() {
        assert(held(after, kind) =~= held(scene, kind).push(painted));
    } else {
        assert(held(after, kind) =~= held(scene, kind));
    }
}

/// Painting a primitive that shows, inside a layer, puts it at the order of the innermost one,
/// so that nothing else comes in between.
pub proof fn law_layers_share_an_order<F: Scalar>(
    scene: SceneModel<F>,
    primitive: PrimitiveModel<F>,
    kind: PrimitiveKind,
)
    requires
        !visible_part(primitive).spec_is_empty(),
        scene.layer_stack.len() > 0,
    ensures
        ({
            let after = scene.spec_insert_primitive(primitive);
            let painted = after.paint_operations.last()->Primitive_0;
            &&& after.paint_operations.len() == scene.paint_operations.len() + 1
            &&& after.paint_operations.last() is Primitive
            &&& repeats(painted, primitive)
            &&& painted.order() == scene.layer_stack[scene.layer_stack.len() - 1]
            &&& after.primitive_bounds == scene.primitive_bounds
            &&& after.layer_stack == scene.layer_stack
            &&& kind == primitive.kind() ==> held(after, kind) == held(scene, kind).push(painted)
            &&& kind != primitive.kind() ==> held(after, kind) == held(scene, kind)
        }),
{
    let after = scene.spec_insert_primitive(primitive);
    let painted = after.paint_operations.last()->Primitive_0;
    if kind == primitive.kind() {
        assert(held(after, kind) =~= held(scene, kind).push(painted));
    } else {
        assert(held(after, kind) =~= held(scene, kind));
    }
}

/// A layer is put right on top of everything that its bounds overlap; what is painted in it
/// gets its order, and closing it gives back the layer around it. Neither draws anything.
pub proof fn law_layers_open_on_top<F: Scalar>(
    scene: SceneModel<F>,
    bounds: Bounds<F>,
    kind: PrimitiveKind,
)
    requires
        orders_in_range(scene.primitive_bounds),
        scene.primitive_bounds.len() < u32::MAX,
    ensures
        ({
            let opened = scene.spec_push_layer(bounds);
            let closed = opened.spec_pop_layer();
            let order = opened.layer_stack.last();
            &&& opened.layer_stack.len() == scene.layer_stack.len() + 1
            &&& opened.layer_stack.drop_last() == scene.layer_stack
            &&& right_on_top(scene.primitive_bounds, bounds, order)
            &&& opened.primitive_bounds == scene.primitive_bounds.push(
                OrderedBounds { bounds, order },
            )
            &&& opened.paint_operations == scene.paint_operations.push(
                PaintOperationModel::StartLayer(bounds),
            )
            &&& closed.layer_stack == scene.layer_stack
            &&& closed.primitive_bounds == opened.primitive_bounds
            &&& closed.paint_operations == opened.paint_operations.push(
                PaintOperationModel::EndLayer,
            )
            &&& held(opened, kind) == held(scene, kind)
            &&& held(closed, kind) == held(scene, kind)
            &&& closed.current_transition == scene.current_transition
        }),
{
    let opened = scene.spec_push_layer(bounds);
    let closed = opened.spec_pop_layer();
    lemma_right_on_top(scene.primitive_bounds, bounds);
    assert(opened.layer_stack.drop_last() =~= scene.layer_stack);
    assert(closed.layer_stack =~= scene.layer_stack);
    assert(held(opened, kind) =~= held(scene, kind));
    assert(held(closed, kind) =~= held(scene, kind));
}

/// A primitive that carries a transition keeps it; one that carries none is stamped with the
/// one that is current, unless it can carry none at all, as paths and surfaces. A quad cannot
/// carry an id above 0xfff.
pub proof fn law_primitives_are_stamped_once<F: Scalar>(
    scene: SceneModel<F>,
    primitive: PrimitiveModel<F>,
)
    requires
        !visible_part(primitive).spec_is_empty(),
        scene.current_transition <= 0xfff,
    ensures
        ({
            let painted = scene.spec_insert_primitive(
                primitive,
            ).paint_operations.last()->Primitive_0;
            let carries = !(primitive is Path || primitive is Surface);
            &&& moved_by(painted) == if carries && moved_by(primitive) == 0 {
                scene.current_transition
            } else {
                moved_by(primitive)
            }
            &&& painted.transition() == moved_by(painted)
            &&& painted.quad_animation() == primitive.quad_animation()
            &&& painted.shimmer_animation() == primitive.shimmer_animation()
        }),
{
}

/// Marking a primitive changes its mark alone: the transition of what can be moved, the
/// opacity cycle of a quad, and the sweep of a sprite of one color.
pub proof fn law_marks_are_apart<F: Scalar>(primitive: PrimitiveModel<F>, id: u32)
    requires
        id <= 0xfff,
    ensures
        ({
            let moved = primitive.with_transition(id);
            let cycled = primitive.with_quad_animation(id);
            let swept = primitive.with_shimmer_animation(id);
            &&& repeats(moved, primitive)
            &&& moved.order() == primitive.order()
            &&& moved_by(moved) == if primitive is Path || primitive is Surface {
                0
            } else {
                id
            }
            &&& match primitive {
                PrimitiveModel::Quad(quad) => cycled == PrimitiveModel::Quad(
                    Quad {
                        background: Background { animation: id, ..quad.background },
                        ..quad
                    },
                ),
                _ => cycled == primitive,
            }
            &&& match primitive {
                PrimitiveModel::MonochromeSprite(sprite) => swept
                    == PrimitiveModel::MonochromeSprite(
                    MonochromeSprite {
                        effect: SpriteEffect { animation: id, ..sprite.effect },
                        ..sprite
                    },
                ),
                PrimitiveModel::SubpixelSprite(sprite) => swept == PrimitiveModel::SubpixelSprite(
                    SubpixelSprite {
                        effect: SpriteEffect { animation: id, ..sprite.effect },
                        ..sprite
                    },
                ),
                _ => swept == primitive,
            }
            &&& cycled.quad_animation() == if primitive is Quad {
                id
            } else {
                0
            }
            &&& swept.shimmer_animation() == if primitive is MonochromeSprite
                || primitive is SubpixelSprite {
                id
            } else {
                0
            }
        }),
{
}

/// Registering an opacity cycle, a sweep or a transition gives it the next id, counted from
/// one, and leaves every other id to what it names. There is room for 0xfff transitions.
pub proof fn law_ids_count_from_one<F: Scalar>(
    scene: SceneModel<F>,
    cycle: QuadOpacityAnimation<F>,
    sweep: ShimmerAnimation<F>,
    transition: SceneTransition<F>,
    i: int,
)
    requires
        scene.quad_animations.len() < u32::MAX,
        scene.shimmer_animations.len() < u32::MAX,
    ensures
        ({
            let (after, id) = scene.spec_push_quad_animation(cycle);
            &&& id == scene.quad_animations.len() + 1
            &&& after.quad_animations.len() == id
            &&& after.quad_animations[id - 1] == cycle
            &&& 0 <= i < id - 1 ==> after.quad_animations[i] == scene.quad_animations[i]
            &&& after == SceneModel { quad_animations: after.quad_animations, ..scene }
        }),
        ({
            let (after, id) = scene.spec_push_shimmer_animation(sweep);
            &&& id == scene.shimmer_animations.len() + 1
            &&& after.shimmer_animations.len() == id
            &&& after.shimmer_animations[id - 1] == sweep
            &&& 0 <= i < id - 1 ==> after.shimmer_animations[i] == scene.shimmer_animations[i]
            &&& after == SceneModel { shimmer_animations: after.shimmer_animations, ..scene }
        }),
        ({
            let (after, id) = push_transition(scene.transitions, transition);
            &&& id is Some <==> scene.transitions.len() < 0xfff
            &&& id is None ==> after == scene.transitions
            &&& id is Some ==> {
                &&& id->Some_0 == scene.transitions.len() + 1
                &&& after.len() == id->Some_0
                &&& after[id->Some_0 - 1] == transition
                &&& 0 <= i < id->Some_0 - 1 ==> after[i] == scene.transitions[i]
            }
        }),
{
}

/// A scene that was cleared remembers nothing of what was painted.
pub proof fn law_cleared_scenes_are_blank<F: Scalar>(kind: PrimitiveKind)
    ensures
        ({
            let scene = SceneModel::<F>::spec_empty();
            &&& held(scene, kind).len() == 0
            &&& scene.paint_operations.len() == 0
            &&& scene.primitive_bounds.len() == 0
            &&& scene.layer_stack.len() == 0
            &&& scene.blended_quad_indices.len() == 0
            &&& scene.opaque_quad_indices.len() == 0
            &&& scene.quad_animations.len() == 0
            &&& scene.shimmer_animations.len() == 0
            &&& scene.transitions.len() == 0
            &&& scene.current_transition == 0
            &&& scene.transitioned.len() == 0
            &&& scene.animated_quads.len() == 0
            &&& scene.animated_monochrome_sprites.len() == 0
            &&& scene.animated_subpixel_sprites.len() == 0
            &&& scene.transitions_end_at is None
        }),
{
}

/// Whether a quad hides what is below it: it is filled with one color of full opacity, has no
/// border, and is not on glass.
pub open spec fn hides<F: Scalar>(quad: Quad<F>) -> bool {
    let zero = spec_zero::<F>();
    let widths = quad.border_widths;
    &&& quad.background.tag == BackgroundTag::Solid
    &&& spec_one::<F>().spec_le(quad.background.solid.a)
    &&& !quad.background.glass
    &&& widths.top.spec_same(zero) && widths.right.spec_same(zero)
    &&& widths.bottom.spec_same(zero) && widths.left.spec_same(zero)
}

/// Whether some corner of a quad is round.
pub open spec fn is_rounded<F: Scalar>(quad: Quad<F>) -> bool {
    let zero = spec_zero::<F>();
    let radii = quad.corner_radii;
    !(radii.top_left.spec_same(zero) && radii.top_right.spec_same(zero)
        && radii.bottom_right.spec_same(zero) && radii.bottom_left.spec_same(zero))
}

/// The opaque pass draws exactly the quads that hide what is below them and stay as they are,
/// where quads are partitioned and there are no more of them than depths; the blended pass
/// draws all others, and the corners of those that are round.
pub proof fn law_opaque_quads_hide_and_stay<F: Scalar>(
    scene: SceneModel<F>,
    partitioned: bool,
    i: int,
)
    requires
        scene.countable(),
        0 <= i < scene.quads.len(),
    ensures
        ({
            let after = scene.spec_finish(partitioned);
            let quad = after.quads[i];
            let opaque = partitioned && scene.quads.len() <= 65534 && hides(quad)
                && quad.background.animation == 0 && quad.background.transition == 0;
            &&& lists(after.opaque_quad_indices, i) <==> opaque
            &&& lists(after.blended_quad_indices, i) <==> !opaque || is_rounded(quad)
        }),
{
    let after = scene.spec_finish(partitioned);
    law_stable_sort(scene.quads);
    let opaque = takes_opaque_pass(after.quads, partitioned);
    let blended = takes_blended_pass(after.quads, partitioned);
    lemma_indices_where(after.quads.len(), opaque);
    lemma_indices_where(after.quads.len(), blended);
    let forward = indices_where(after.quads.len(), opaque);
    let backward = after.opaque_quad_indices;
    assert(backward == forward.reverse());
    if opaque(i) {
        let k = choose|k: int| 0 <= k < forward.len() && forward[k] == i;
        assert(backward[forward.len() - 1 - k] == i);
    }
    if lists(backward, i) {
        let k = choose|k: int| 0 <= k < backward.len() && backward[k] == i;
        assert(forward[forward.len() - 1 - k] == i);
    }
    if blended(i) {
        assert(lists(after.blended_quad_indices, i));
    }
    if lists(after.blended_quad_indices, i) {
        let k = choose|k: int|
            0 <= k < after.blended_quad_indices.len() && after.blended_quad_indices[k] == i;
        assert(blended(i));
    }
}

/// The items that have a key, in their order.
pub open spec fn sharing<T>(items: Seq<T>, key: spec_fn(T) -> int, k: int) -> Seq<T> {
    items.filter(|item: T| key(item) == k)
}

/// Whether `after` holds what `before` held, put in order: the keys never fall, and what
/// shares a key is as it was, in the order that it was in.
pub open spec fn rearranges<T>(
    before: Seq<T>,
    after: Seq<T>,
    key: spec_fn(T) -> int,
) -> bool {
    &&& after.len() == before.len()
    &&& forall|i: int, j: int|
        #![trigger after[i], after[j]]
        0 <= i <= j < after.len() ==> key(after[i]) <= key(after[j])
    &&& forall|k: int| #[trigger] sharing(after, key, k) == sharing(before, key, k)
}

proof fn lemma_sharing<T: SortKey>(items: Seq<T>, key: spec_fn(T) -> int, k: int)
    requires
        forall|item: T| #[trigger] item.sort_key() == key(item),
    ensures
        0 <= k <= u64::MAX ==> sharing(items, key, k) == of_key(items, k as u64),
        !(0 <= k <= u64::MAX) ==> sharing(items, key, k).len() == 0,
    decreases items.len(),
{
    reveal(Seq::filter);
    if items.len() > 0 {
        lemma_sharing(items.drop_last(), key, k);
        assert(items.last().sort_key() == key(items.last()));
    }
}

proof fn lemma_rearranges<T: SortKey>(before: Seq<T>, key: spec_fn(T) -> int)
    requires
        forall|item: T| #[trigger] item.sort_key() == key(item),
    ensures
        rearranges(before, stable_sort(before), key),
{
    let after = stable_sort(before);
    law_stable_sort(before);
    assert forall|i: int, j: int|
        #![trigger after[i], after[j]]
        0 <= i <= j < after.len() implies key(after[i]) <= key(after[j]) by {
        assert(after[i].sort_key() <= after[j].sort_key());
    }
    assert forall|k: int| #[trigger] sharing(after, key, k) == sharing(before, key, k) by {
        lemma_sharing(after, key, k);
        lemma_sharing(before, key, k);
        if 0 <= k <= u64::MAX {
            assert(of_key(after, k as u64) == of_key(before, k as u64));
        } else {
            assert(sharing(after, key, k) =~= sharing(before, key, k));
        }
    }
}

/// Finishing a scene neither adds nor drops a primitive: it puts those of each kind in the
/// order of their orders, sprites of one order in that of their tiles, and leaves what shares
/// its place in the order that it was painted in.
pub proof fn law_finishing_only_rearranges<F: Scalar>(scene: SceneModel<F>, partitioned: bool)
    ensures
        ({
            let after = scene.spec_finish(partitioned);
            &&& rearranges(scene.shadows, after.shadows, |s: Shadow<F>| s.order as int)
            &&& rearranges(scene.quads, after.quads, |q: Quad<F>| q.order as int)
            &&& rearranges(scene.paths, after.paths, |p: PathModel<F>| p.order as int)
            &&& rearranges(scene.underlines, after.underlines, |u: Underline<F>| u.order as int)
            &&& rearranges(
                scene.monochrome_sprites,
                after.monochrome_sprites,
                |s: MonochromeSprite<F>| s.order * 0x1_0000_0000 + s.tile.tile_id.0,
            )
            &&& rearranges(
                scene.subpixel_sprites,
                after.subpixel_sprites,
                |s: SubpixelSprite<F>| s.order * 0x1_0000_0000 + s.tile.tile_id.0,
            )
            &&& rearranges(
                scene.polychrome_sprites,
                after.polychrome_sprites,
                |s: PolychromeSprite<F>| s.order * 0x1_0000_0000 + s.tile.tile_id.0,
            )
            &&& rearranges(scene.surfaces, after.surfaces, |s: PaintSurface<F>| s.order as int)
            &&& after.paint_operations == scene.paint_operations
            &&& after.transitions == scene.transitions
            &&& after.quad_animations == scene.quad_animations
            &&& after.shimmer_animations == scene.shimmer_animations
        }),
{
    lemma_rearranges(scene.shadows, |s: Shadow<F>| s.order as int);
    lemma_rearranges(scene.quads, |q: Quad<F>| q.order as int);
    lemma_rearranges(scene.paths, |p: PathModel<F>| p.order as int);
    lemma_rearranges(scene.underlines, |u: Underline<F>| u.order as int);
    lemma_rearranges(
        scene.monochrome_sprites,
        |s: MonochromeSprite<F>| s.order * 0x1_0000_0000 + s.tile.tile_id.0,
    );
    lemma_rearranges(scene.subpixel_sprites, |s: SubpixelSprite<F>| s.order * 0x1_0000_0000 + s.tile.tile_id.0);
    lemma_rearranges(
        scene.polychrome_sprites,
        |s: PolychromeSprite<F>| s.order * 0x1_0000_0000 + s.tile.tile_id.0,
    );
    lemma_rearranges(scene.surfaces, |s: PaintSurface<F>| s.order as int);
}

/// What is drawn at one order is stacked by kind: shadows at the bottom, then quads, paths,
/// underlines, sprites of one color, sprites with a coverage value per channel, sprites of
/// their own colors, and surfaces on top. What has a lower order lies below all of that.
pub proof fn law_kinds_stack_within_an_order(
    a: PrimitiveKind,
    b: PrimitiveKind,
    order: u32,
    higher: u32,
)
    requires
        order < higher,
    ensures
        a.rank(order) < b.rank(higher),
        a.rank(order) == b.rank(order) ==> a == b,
        PrimitiveKind::Shadow.rank(order) < PrimitiveKind::Quad.rank(order),
        PrimitiveKind::Quad.rank(order) < PrimitiveKind::Path.rank(order),
        PrimitiveKind::Path.rank(order) < PrimitiveKind::Underline.rank(order),
        PrimitiveKind::Underline.rank(order) < PrimitiveKind::MonochromeSprite.rank(order),
        PrimitiveKind::MonochromeSprite.rank(order) < PrimitiveKind::SubpixelSprite.rank(order),
        PrimitiveKind::SubpixelSprite.rank(order) < PrimitiveKind::PolychromeSprite.rank(order),
        PrimitiveKind::PolychromeSprite.rank(order) < PrimitiveKind::Surface.rank(order),
{
}

/// What decides the batches of a scene is what its primitives say: their orders, and of
/// sprites the textures that their tiles lie in.
pub proof fn law_batches_go_by_orders_and_textures<F: Scalar>(scene: SceneModel<F>, i: int)
    ensures
        ({
            let of = |kind: PrimitiveKind| drawn_of_kind(scene, kind);
            &&& of(PrimitiveKind::Shadow).len() == scene.shadows.len()
            &&& of(PrimitiveKind::Quad).len() == scene.quads.len()
            &&& of(PrimitiveKind::Path).len() == scene.paths.len()
            &&& of(PrimitiveKind::Underline).len() == scene.underlines.len()
            &&& of(PrimitiveKind::MonochromeSprite).len() == scene.monochrome_sprites.len()
            &&& of(PrimitiveKind::SubpixelSprite).len() == scene.subpixel_sprites.len()
            &&& of(PrimitiveKind::PolychromeSprite).len() == scene.polychrome_sprites.len()
            &&& of(PrimitiveKind::Surface).len() == scene.surfaces.len()
            &&& 0 <= i < scene.shadows.len() ==> of(PrimitiveKind::Shadow)[i].order
                == scene.shadows[i].order && of(PrimitiveKind::Shadow)[i].texture is None
            &&& 0 <= i < scene.quads.len() ==> of(PrimitiveKind::Quad)[i].order
                == scene.quads[i].order && of(PrimitiveKind::Quad)[i].texture is None
            &&& 0 <= i < scene.paths.len() ==> of(PrimitiveKind::Path)[i].order
                == scene.paths[i].order && of(PrimitiveKind::Path)[i].texture is None
            &&& 0 <= i < scene.underlines.len() ==> of(PrimitiveKind::Underline)[i].order
                == scene.underlines[i].order && of(PrimitiveKind::Underline)[i].texture is None
            &&& 0 <= i < scene.surfaces.len() ==> of(PrimitiveKind::Surface)[i].order
                == scene.surfaces[i].order && of(PrimitiveKind::Surface)[i].texture is None
            &&& 0 <= i < scene.monochrome_sprites.len() ==> {
                let (drawn, sprite) = (
                    of(PrimitiveKind::MonochromeSprite)[i],
                    scene.monochrome_sprites[i],
                );
                drawn.order == sprite.order && drawn.texture == Some(sprite.tile.texture_id)
            }
            &&& 0 <= i < scene.subpixel_sprites.len() ==> {
                let (drawn, sprite) = (
                    of(PrimitiveKind::SubpixelSprite)[i],
                    scene.subpixel_sprites[i],
                );
                drawn.order == sprite.order && drawn.texture == Some(sprite.tile.texture_id)
            }
            &&& 0 <= i < scene.polychrome_sprites.len() ==> {
                let (drawn, sprite) = (
                    of(PrimitiveKind::PolychromeSprite)[i],
                    scene.polychrome_sprites[i],
                );
                drawn.order == sprite.order && drawn.texture == Some(sprite.tile.texture_id)
            }
        }),
{
}

/// A scene draws nothing exactly if it holds no primitive of any kind.
pub proof fn law_empty_scenes_hold_nothing<F: Scalar>(scene: SceneModel<F>)
    ensures
        scene.spec_is_empty() <==> forall|kind: PrimitiveKind| #[trigger]
            held(scene, kind).len() == 0,
{
    if forall|kind: PrimitiveKind| #[trigger] held(scene, kind).len() == 0 {
        assert(held(scene, PrimitiveKind::Shadow).len() == 0);
        assert(held(scene, PrimitiveKind::Quad).len() == 0);
        assert(held(scene, PrimitiveKind::Path).len() == 0);
        assert(held(scene, PrimitiveKind::Underline).len() == 0);
        assert(held(scene, PrimitiveKind::MonochromeSprite).len() == 0);
        assert(held(scene, PrimitiveKind::SubpixelSprite).len() == 0);
        assert(held(scene, PrimitiveKind::PolychromeSprite).len() == 0);
        assert(held(scene, PrimitiveKind::Surface).len() == 0);
    }
}

/// A finished scene has yet to show something new exactly if a sprite's highlight sweeps, an
/// opacity cycle drives a quad, or some primitive carries a transition and a transition has
/// not landed yet.
pub proof fn law_scenes_move_while_something_does<F: Scalar>(
    scene: SceneModel<F>,
    partitioned: bool,
    now: u64,
    i: int,
    t: int,
)
    requires
        scene.countable(),
        scene.transitions_end(),
    ensures
        ({
            let after = scene.spec_finish(partitioned);
            let lands = |t: int|
                scene.transitions[t].transition.started_at
                    + scene.transitions[t].transition.duration;
            &&& 0 <= i < after.monochrome_sprites.len()
                && after.monochrome_sprites[i].effect.animation != 0
                ==> after.spec_has_time_animations(now)
            &&& 0 <= i < after.subpixel_sprites.len()
                && after.subpixel_sprites[i].effect.animation != 0
                ==> after.spec_has_time_animations(now)
            &&& 0 <= i < after.quads.len() && after.quads[i].background.animation != 0
                ==> after.spec_has_time_animations(now)
            &&& after.spec_transitions_in_flight(now) ==> after.spec_has_time_animations(now)
                && after.transitioned.len() > 0 && exists|t: int|
                0 <= t < scene.transitions.len() && now < #[trigger] lands(t)
            &&& 0 <= t < scene.transitions.len() && now < lands(t) && after.transitioned.len() > 0
                ==> after.spec_transitions_in_flight(now)
        }),
{
    let after = scene.spec_finish(partitioned);
    law_stable_sort(scene.quads);
    law_stable_sort(scene.monochrome_sprites);
    law_stable_sort(scene.subpixel_sprites);
    lemma_indices_where(
        after.monochrome_sprites.len(),
        monochrome_sweeps(after.monochrome_sprites),
    );
    lemma_indices_where(
        after.subpixel_sprites.len(),
        subpixel_sweeps(after.subpixel_sprites),
    );
    lemma_indices_where(after.quads.len(), quad_cycles(after.quads));
    if 0 <= i < after.monochrome_sprites.len() {
        assert(monochrome_sweeps(after.monochrome_sprites)(i) ==> lists(
            after.animated_monochrome_sprites,
            i,
        ));
    }
    if 0 <= i < after.subpixel_sprites.len() {
        assert(subpixel_sweeps(after.subpixel_sprites)(i) ==> lists(
            after.animated_subpixel_sprites,
            i,
        ));
    }
    if 0 <= i < after.quads.len() {
        assert(quad_cycles(after.quads)(i) ==> lists(
            after.animated_quads,
            i,
        ));
    }
    let lands = |t: int|
        scene.transitions[t].transition.started_at + scene.transitions[t].transition.duration;
    if scene.transitions.len() > 0 {
        lemma_last_end(scene, scene.transitions.len(), now, t);
        if after.spec_transitions_in_flight(now) {
            let k = choose|k: int|
                0 <= k < scene.transitions.len() && (
                #[trigger] scene.transitions[k]).transition.started_at
                    + scene.transitions[k].transition.duration > now;
            assert(now < lands(k));
        }
    }
}

proof fn lemma_last_end<F: Scalar>(scene: SceneModel<F>, count: nat, now: u64, t: int)
    requires
        scene.transitions_end(),
        count <= scene.transitions.len(),
    ensures
        ({
            let end = last_end(scene.transitions, count);
            &&& end is Some <==> count > 0
            &&& end is Some && now < end->Some_0 ==> exists|k: int|
                0 <= k < count && (#[trigger] scene.transitions[k]).transition.started_at
                    + scene.transitions[k].transition.duration > now
            &&& 0 <= t < count && scene.transitions[t].transition.started_at
                + scene.transitions[t].transition.duration > now ==> end is Some && now
                < end->Some_0
        }),
    decreases count,
{
    if count > 0 {
        lemma_last_end(scene, (count - 1) as nat, now, t);
        let last = scene.transitions[count - 1].transition;
        assert(last.spec_ends_at() <= u64::MAX);
        if last.started_at + last.duration > now {
            assert(scene.transitions[count - 1].transition.started_at
                + scene.transitions[count - 1].transition.duration > now);
        }
    }
}

} // verus!
