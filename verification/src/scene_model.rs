//! What a scene holds, and what each operation makes of it.
use vstd::prelude::*;

use crate::atlas_tile::AtlasTile;
use crate::animation::{QuadOpacityAnimation, SceneTransition, ShimmerAnimation};
use crate::bounds_tree::{order_on_top, with_bounds, OrderedBounds};
use crate::color::{Background, Hsla, MAX_TIME_TRANSITION};
use crate::geometry::{Bounds, Point};
use crate::path::PathModel;
use crate::primitives::{
    MonochromeSprite, PaintSurface, PolychromeSprite, PrimitiveModel, Quad, Shadow, SpriteEffect,
    SubpixelSprite, Underline,
};
use crate::scalar::Scalar;
use crate::stable_sort::{stable_sort, SortKey};

verus! {

/// One step of painting a scene.
pub enum PaintOperationModel<F> {
    /// A primitive was drawn.
    Primitive(PrimitiveModel<F>),
    /// A layer was opened.
    StartLayer(Bounds<F>),
    /// The innermost layer was closed.
    EndLayer,
}

/// What a transition moves, with how it was painted.
#[derive(Clone, Copy, Debug)]
pub enum TransitionTarget<F> {
    /// A sprite of one color.
    MonochromeSprite {
        /// Its place among those sprites.
        index: u32,
        /// Where it was painted.
        origin: Point<F>,
        /// How opaque it was painted.
        alpha: F,
    },
    /// A sprite of one color with a coverage value per color channel.
    SubpixelSprite {
        /// Its place among those sprites.
        index: u32,
        /// Where it was painted.
        origin: Point<F>,
        /// How opaque it was painted.
        alpha: F,
    },
    /// A sprite with its own colors.
    PolychromeSprite {
        /// Its place among those sprites.
        index: u32,
        /// Where it was painted.
        origin: Point<F>,
        /// How opaque it was painted.
        opacity: F,
    },
    /// An underline.
    Underline {
        /// Its place among the underlines.
        index: u32,
        /// Where it was painted.
        origin: Point<F>,
        /// How opaque it was painted.
        alpha: F,
    },
    /// A shadow.
    Shadow {
        /// Its place among the shadows.
        index: u32,
        /// Where it was painted.
        origin: Point<F>,
        /// Where the rectangle was that casts it.
        element_origin: Point<F>,
        /// How opaque it was painted.
        alpha: F,
    },
    /// A quad.
    Quad {
        /// Its place among the quads.
        index: u32,
        /// Where it was painted.
        origin: Point<F>,
        /// What it was filled with.
        background: Background<F>,
        /// The color that its border was painted in.
        border_color: Hsla<F>,
    },
}

/// A primitive moved by a transition, with what it was painted as so every
/// present computes its state from rest rather than from the last present.
#[derive(Clone, Copy, Debug)]
pub struct TransitionedPrimitive<F> {
    /// The transition.
    pub transition: u32,
    /// The primitive.
    pub target: TransitionTarget<F>,
}

/// A kind of primitive that a transition can move.
pub trait Transitioned<F: Scalar>: Copy {
    /// The transition of the primitive at `index`, and how it is painted now.
    spec fn spec_transitioned(self, index: u32) -> TransitionedPrimitive<F>;

    /// The transition of the primitive at `index`, and how it is painted now.
    fn transitioned(&self, index: u32) -> (result: TransitionedPrimitive<F>)
        ensures
            result == self.spec_transitioned(index),
    ;
}

/// What a scene holds.
#[verifier::ext_equal]
pub struct SceneModel<F: Scalar> {
    /// How the scene was painted, step by step.
    pub paint_operations: Seq<PaintOperationModel<F>>,
    /// The rectangles that orders were given to.
    pub primitive_bounds: Seq<OrderedBounds<F>>,
    /// The orders of the open layers.
    pub layer_stack: Seq<u32>,
    /// The shadows.
    pub shadows: Seq<Shadow<F>>,
    /// The quads.
    pub quads: Seq<Quad<F>>,
    /// The paths.
    pub paths: Seq<PathModel<F>>,
    /// The underlines.
    pub underlines: Seq<Underline<F>>,
    /// The sprites of one color.
    pub monochrome_sprites: Seq<MonochromeSprite<F>>,
    /// The sprites of one color with a coverage value per color channel.
    pub subpixel_sprites: Seq<SubpixelSprite<F>>,
    /// The sprites with their own colors.
    pub polychrome_sprites: Seq<PolychromeSprite<F>>,
    /// The pictures that something else renders.
    pub surfaces: Seq<PaintSurface<F>>,
    /// The quads of the blended pass, back to front.
    pub blended_quad_indices: Seq<u32>,
    /// The quads of the opaque pass, front to back.
    pub opaque_quad_indices: Seq<u32>,
    /// Sweeps that sprites refer to.
    pub shimmer_animations: Seq<ShimmerAnimation<F>>,
    /// The sprites of one color whose highlight moves.
    pub animated_monochrome_sprites: Seq<u32>,
    /// The sprites with a coverage value per channel whose highlight moves.
    pub animated_subpixel_sprites: Seq<u32>,
    /// Opacity cycles that quads refer to.
    pub quad_animations: Seq<QuadOpacityAnimation<F>>,
    /// The quads that an opacity cycle drives.
    pub animated_quads: Seq<u32>,
    /// Moves that primitives refer to.
    pub transitions: Seq<SceneTransition<F>>,
    /// The transition that primitives inserted now are stamped with.
    pub current_transition: u32,
    /// What transitions move.
    pub transitioned: Seq<TransitionedPrimitive<F>>,
    /// When the last transition lands.
    pub transitions_end_at: Option<u64>,
}

/// Where replaying a part of another scene has got to.
#[verifier::ext_equal]
pub struct ReplayModel<F: Scalar> {
    /// The scene that is painted.
    pub scene: SceneModel<F>,
    /// The sweep met last in the other scene, and its copy here.
    pub sweep: (u32, u32),
    /// The transitions met in the other scene, and their copies here.
    pub remapped: Seq<(u32, u32)>,
}

/// The id that `transition` was given, looking from the entry `from` on.
pub open spec fn lookup(remapped: Seq<(u32, u32)>, transition: u32, from: int) -> Option<u32>
    decreases remapped.len() - from,
{
    if from < 0 || from >= remapped.len() {
        None
    } else if remapped[from].0 == transition {
        Some(remapped[from].1)
    } else {
        lookup(remapped, transition, from + 1)
    }
}

/// The transitions with one more, and its id; as they were, and no id, where
/// they hold as many as a quad's background can name.
pub open spec fn push_transition<F: Scalar>(
    transitions: Seq<SceneTransition<F>>,
    transition: SceneTransition<F>,
) -> (Seq<SceneTransition<F>>, Option<u32>) {
    if transitions.len() + 1 > MAX_TIME_TRANSITION {
        (transitions, None)
    } else {
        (transitions.push(transition), Some((transitions.len() + 1) as u32))
    }
}

/// The transitions with a copy of `transition` of the scene that holds
/// `sources`, its parents first; the table of copies; and the copy's id, `0`
/// where there is no room.
pub open spec fn remap_transition<F: Scalar>(
    transitions: Seq<SceneTransition<F>>,
    remapped: Seq<(u32, u32)>,
    sources: Seq<SceneTransition<F>>,
    transition: u32,
) -> (Seq<SceneTransition<F>>, Seq<(u32, u32)>, u32)
    decreases transition,
{
    match lookup(remapped, transition, 0) {
        Some(id) => (transitions, remapped, id),
        None => {
            let entry = sources[transition - 1];
            let (transitions, remapped, parent) = if entry.parent != 0 && entry.parent
                < transition {
                remap_transition(transitions, remapped, sources, entry.parent)
            } else {
                (transitions, remapped, entry.parent)
            };
            let (transitions, pushed) = push_transition(
                transitions,
                SceneTransition { parent, ..entry },
            );
            let id = match pushed {
                Some(id) => id,
                None => 0,
            };
            (transitions, remapped.push((transition, id)), id)
        },
    }
}

/// The numbers below `count` that `holds` picks, in order.
pub open spec fn indices_where(count: nat, holds: spec_fn(int) -> bool) -> Seq<u32>
    decreases count,
{
    if count == 0 {
        Seq::empty()
    } else {
        let rest = indices_where((count - 1) as nat, holds);
        if holds(count - 1) {
            rest.push((count - 1) as u32)
        } else {
            rest
        }
    }
}

/// Whether `index` is one of `indices`.
pub open spec fn lists(indices: Seq<u32>, index: int) -> bool {
    exists|k: int| 0 <= k < indices.len() && #[trigger] indices[k] == index
}

/// What transitions move among the first `count` of `items`.
pub open spec fn targets<F: Scalar, T: Transitioned<F>>(items: Seq<T>, count: nat) -> Seq<
    TransitionedPrimitive<F>,
>
    decreases count,
{
    if count == 0 {
        Seq::empty()
    } else {
        let rest = targets(items, (count - 1) as nat);
        let last = items[count - 1].spec_transitioned((count - 1) as u32);
        if last.transition != 0 {
            rest.push(last)
        } else {
            rest
        }
    }
}

/// When the last of the first `count` transitions lands.
pub open spec fn last_end<F: Scalar>(transitions: Seq<SceneTransition<F>>, count: nat) -> Option<
    u64,
>
    decreases count,
{
    if count == 0 {
        None
    } else {
        let end = transitions[count - 1].transition.spec_ends_at() as u64;
        match last_end(transitions, (count - 1) as nat) {
            Some(rest) => Some(
                if rest > end {
                    rest
                } else {
                    end
                },
            ),
            None => Some(end),
        }
    }
}

/// The offset and the opacity of the transition at `index` at `now`, with those
/// of the transitions that it is inside of.
pub open spec fn composed_state<F: Scalar>(
    transitions: Seq<SceneTransition<F>>,
    index: int,
    now: u64,
) -> (Point<F>, F)
    decreases index,
{
    let transition = transitions[index];
    let offset = transition.spec_offset_at(now);
    let opacity = transition.transition.spec_opacity_at(now);
    if transition.parent == 0 || transition.parent - 1 >= index || index < 0 {
        (offset, opacity)
    } else {
        let outer = composed_state(transitions, transition.parent - 1, now);
        (offset.spec_plus(outer.0), opacity.spec_times(outer.1))
    }
}

/// Whether every transition lies inside one that comes before it, or inside none.
pub open spec fn parents_come_first<F: Scalar>(transitions: Seq<SceneTransition<F>>) -> bool {
    forall|i: int| 0 <= i < transitions.len() ==> (#[trigger] transitions[i]).parent <= i
}

/// The most quads a frame can partition into the depth prepass: the depth
/// mapping gives each of them its own 16-bit depth value, so a 16-bit depth
/// attachment (half the memory of a 32-bit one) loses nothing. A frame with
/// more quads than this skips partitioning and paints everything blended in
/// painter's order, which needs no distinct depths at all.
pub const MAX_DEPTH_PARTITIONED_QUADS: usize = 65534;

impl<F: Scalar> SceneModel<F> {
    /// Nothing at all.
    pub open spec fn spec_empty() -> Self {
        SceneModel {
            paint_operations: Seq::empty(),
            primitive_bounds: Seq::empty(),
            layer_stack: Seq::empty(),
            shadows: Seq::empty(),
            quads: Seq::empty(),
            paths: Seq::empty(),
            underlines: Seq::empty(),
            monochrome_sprites: Seq::empty(),
            subpixel_sprites: Seq::empty(),
            polychrome_sprites: Seq::empty(),
            surfaces: Seq::empty(),
            blended_quad_indices: Seq::empty(),
            opaque_quad_indices: Seq::empty(),
            shimmer_animations: Seq::empty(),
            animated_monochrome_sprites: Seq::empty(),
            animated_subpixel_sprites: Seq::empty(),
            quad_animations: Seq::empty(),
            animated_quads: Seq::empty(),
            transitions: Seq::empty(),
            current_transition: 0,
            transitioned: Seq::empty(),
            transitions_end_at: None,
        }
    }

    /// Whether nothing is drawn.
    pub open spec fn spec_is_empty(self) -> bool {
        &&& self.shadows.len() == 0
        &&& self.quads.len() == 0
        &&& self.paths.len() == 0
        &&& self.underlines.len() == 0
        &&& self.monochrome_sprites.len() == 0
        &&& self.subpixel_sprites.len() == 0
        &&& self.polychrome_sprites.len() == 0
        &&& self.surfaces.len() == 0
    }

    /// The scene with a layer opened.
    pub open spec fn spec_push_layer(self, bounds: Bounds<F>) -> Self {
        SceneModel {
            primitive_bounds: with_bounds(self.primitive_bounds, bounds),
            layer_stack: self.layer_stack.push(order_on_top(self.primitive_bounds, bounds)),
            paint_operations: self.paint_operations.push(PaintOperationModel::StartLayer(bounds)),
            ..self
        }
    }

    /// The scene with the innermost layer closed.
    pub open spec fn spec_pop_layer(self) -> Self {
        SceneModel {
            layer_stack: if self.layer_stack.len() == 0 {
                self.layer_stack
            } else {
                self.layer_stack.drop_last()
            },
            paint_operations: self.paint_operations.push(PaintOperationModel::EndLayer),
            ..self
        }
    }

    /// The primitive stamped with the current transition, unless it has one.
    pub open spec fn stamped(self, primitive: PrimitiveModel<F>) -> PrimitiveModel<F> {
        if self.current_transition != 0 && primitive.transition() == 0 {
            primitive.with_transition(self.current_transition)
        } else {
            primitive
        }
    }

    /// The scene with `primitive` added to the ones of its kind.
    pub open spec fn with_primitive(self, primitive: PrimitiveModel<F>) -> Self {
        match primitive {
            PrimitiveModel::Shadow(shadow) => SceneModel {
                shadows: self.shadows.push(shadow),
                ..self
            },
            PrimitiveModel::Quad(quad) => SceneModel { quads: self.quads.push(quad), ..self },
            PrimitiveModel::Path(path) => SceneModel { paths: self.paths.push(path), ..self },
            PrimitiveModel::Underline(underline) => SceneModel {
                underlines: self.underlines.push(underline),
                ..self
            },
            PrimitiveModel::MonochromeSprite(sprite) => SceneModel {
                monochrome_sprites: self.monochrome_sprites.push(sprite),
                ..self
            },
            PrimitiveModel::SubpixelSprite(sprite) => SceneModel {
                subpixel_sprites: self.subpixel_sprites.push(sprite),
                ..self
            },
            PrimitiveModel::PolychromeSprite(sprite) => SceneModel {
                polychrome_sprites: self.polychrome_sprites.push(sprite),
                ..self
            },
            PrimitiveModel::Surface(surface) => SceneModel {
                surfaces: self.surfaces.push(surface),
                ..self
            },
        }
    }

    /// The order that a primitive of these bounds is drawn at: that of the
    /// innermost layer, and outside of all layers one above what it overlaps.
    pub open spec fn order_for(self, bounds: Bounds<F>) -> u32 {
        if self.layer_stack.len() > 0 {
            self.layer_stack.last()
        } else {
            order_on_top(self.primitive_bounds, bounds)
        }
    }

    /// The scene with `primitive` painted; as it was where the primitive's mask
    /// leaves nothing of it.
    pub open spec fn spec_insert_primitive(self, primitive: PrimitiveModel<F>) -> Self {
        let clipped = primitive.clipped_bounds();
        if clipped.spec_is_empty() {
            self
        } else {
            let placed = self.stamped(primitive).with_order(
                self.order_for(clipped),
                self.paths.len() as usize,
            );
            let scene = self.with_primitive(placed);
            SceneModel {
                primitive_bounds: if self.layer_stack.len() > 0 {
                    self.primitive_bounds
                } else {
                    with_bounds(self.primitive_bounds, clipped)
                },
                paint_operations: self.paint_operations.push(
                    PaintOperationModel::Primitive(placed),
                ),
                ..scene
            }
        }
    }

    /// Whether the ids that `primitive` carries name entries of the scene.
    pub open spec fn names_entries(self, primitive: PrimitiveModel<F>) -> bool {
        &&& primitive.transition() <= self.transitions.len()
        &&& primitive.quad_animation() <= self.quad_animations.len()
        &&& primitive.shimmer_animation() <= self.shimmer_animations.len()
    }

    /// Whether the ids that a step of painting carries name entries of the scene.
    pub open spec fn step_names_entries(self, operation: PaintOperationModel<F>) -> bool {
        match operation {
            PaintOperationModel::Primitive(primitive) => self.names_entries(primitive),
            _ => true,
        }
    }

    /// The scene and its next id after another opacity cycle.
    pub open spec fn spec_push_quad_animation(self, animation: QuadOpacityAnimation<F>) -> (
        Self,
        u32,
    ) {
        (
            SceneModel { quad_animations: self.quad_animations.push(animation), ..self },
            (self.quad_animations.len() + 1) as u32,
        )
    }

    /// The scene and its next id after another sweep.
    pub open spec fn spec_push_shimmer_animation(self, animation: ShimmerAnimation<F>) -> (
        Self,
        u32,
    ) {
        (
            SceneModel { shimmer_animations: self.shimmer_animations.push(animation), ..self },
            (self.shimmer_animations.len() + 1) as u32,
        )
    }
}

/// Which quads the opaque pass draws where quads are `partitioned` at all. A quad
/// whose opacity animates may be solid in this frame and translucent in the next
/// without the scene being rebuilt, so it always takes the blended pass; so does
/// one a transition moves or fades.
pub open spec fn takes_opaque_pass<F: Scalar>(
    quads: Seq<Quad<F>>,
    partitioned: bool,
) -> spec_fn(int) -> bool {
    |i: int|
        {
            &&& partitioned
            &&& quads.len() <= MAX_DEPTH_PARTITIONED_QUADS
            &&& quads[i].background.animation == 0
            &&& quads[i].background.transition == 0
            &&& quads[i].spec_has_opaque_core()
        }
}

/// Which quads the blended pass draws: those that the opaque pass does not, and
/// the corners of those it does.
pub open spec fn takes_blended_pass<F: Scalar>(
    quads: Seq<Quad<F>>,
    partitioned: bool,
) -> spec_fn(int) -> bool {
    |i: int|
        !takes_opaque_pass(quads, partitioned)(i) || quads[i].spec_has_rounded_corners()
}

/// Which sprites of one color have a highlight that moves.
pub open spec fn monochrome_sweeps<F: Scalar>(sprites: Seq<MonochromeSprite<F>>) -> spec_fn(
    int,
) -> bool {
    |i: int| sprites[i].effect.animation != 0
}

/// Which sprites with a coverage value per channel have a highlight that moves.
pub open spec fn subpixel_sweeps<F: Scalar>(sprites: Seq<SubpixelSprite<F>>) -> spec_fn(
    int,
) -> bool {
    |i: int| sprites[i].effect.animation != 0
}

/// Which quads an opacity cycle drives.
pub open spec fn quad_cycles<F: Scalar>(quads: Seq<Quad<F>>) -> spec_fn(int) -> bool {
    |i: int| quads[i].background.animation != 0
}

impl<F: Scalar> SceneModel<F> {
    /// The scene with the primitives of each kind in the order that they are
    /// drawn in, sprites of one order by their tiles.
    pub open spec fn sorted(self) -> Self {
        SceneModel {
            shadows: stable_sort(self.shadows),
            quads: stable_sort(self.quads),
            paths: stable_sort(self.paths),
            underlines: stable_sort(self.underlines),
            monochrome_sprites: stable_sort(self.monochrome_sprites),
            subpixel_sprites: stable_sort(self.subpixel_sprites),
            polychrome_sprites: stable_sort(self.polychrome_sprites),
            surfaces: stable_sort(self.surfaces),
            ..self
        }
    }

    /// The scene with its quads assigned to the two passes.
    pub open spec fn spec_partition_quads(self, partitioned: bool) -> Self {
        SceneModel {
            blended_quad_indices: indices_where(
                self.quads.len(),
                takes_blended_pass(self.quads, partitioned),
            ),
            opaque_quad_indices: indices_where(
                self.quads.len(),
                takes_opaque_pass(self.quads, partitioned),
            ).reverse(),
            ..self
        }
    }

    /// The scene with everything found that moves on its own.
    pub open spec fn with_animated(self) -> Self {
        SceneModel {
            animated_monochrome_sprites: indices_where(
                self.monochrome_sprites.len(),
                monochrome_sweeps(self.monochrome_sprites),
            ),
            animated_subpixel_sprites: indices_where(
                self.subpixel_sprites.len(),
                subpixel_sweeps(self.subpixel_sprites),
            ),
            animated_quads: indices_where(self.quads.len(), quad_cycles(self.quads)),
            ..self
        }
    }

    /// Everything that transitions move, with how it is painted.
    pub open spec fn all_targets(self) -> Seq<TransitionedPrimitive<F>> {
        targets(self.monochrome_sprites, self.monochrome_sprites.len()) + targets(
            self.subpixel_sprites,
            self.subpixel_sprites.len(),
        ) + targets(self.polychrome_sprites, self.polychrome_sprites.len()) + targets(
            self.underlines,
            self.underlines.len(),
        ) + targets(self.shadows, self.shadows.len()) + targets(self.quads, self.quads.len())
    }

    /// The scene with everything found that transitions move, and when the last
    /// of them lands.
    pub open spec fn spec_gather_transitioned(self) -> Self {
        if self.transitions.len() == 0 {
            SceneModel { transitioned: Seq::empty(), transitions_end_at: None, ..self }
        } else {
            SceneModel {
                transitioned: self.all_targets(),
                transitions_end_at: last_end(self.transitions, self.transitions.len()),
                ..self
            }
        }
    }

    /// The scene ready to be drawn.
    pub open spec fn spec_finish(self, partitioned: bool) -> Self {
        self.sorted().spec_partition_quads(partitioned).with_animated().spec_gather_transitioned()
    }

    /// Whether every transition lands at a time that can be told.
    pub open spec fn transitions_end(self) -> bool {
        forall|i: int|
            0 <= i < self.transitions.len() ==> (
            #[trigger] self.transitions[i]).transition.spec_ends_at() <= u64::MAX
    }

    /// Whether the primitives of each kind can be counted in 32 bits.
    pub open spec fn countable(self) -> bool {
        &&& self.shadows.len() <= u32::MAX
        &&& self.quads.len() <= u32::MAX
        &&& self.underlines.len() <= u32::MAX
        &&& self.monochrome_sprites.len() <= u32::MAX
        &&& self.subpixel_sprites.len() <= u32::MAX
        &&& self.polychrome_sprites.len() <= u32::MAX
    }
}

impl<F: Scalar> SceneModel<F> {
    /// Whether a transition has yet to land at `now`.
    pub open spec fn spec_transitions_in_flight(self, now: u64) -> bool {
        &&& self.transitioned.len() > 0
        &&& match self.transitions_end_at {
            Some(end) => now < end,
            None => false,
        }
    }

    /// Whether anything moves with time on its own at `now`.
    pub open spec fn spec_has_time_animations(self, now: u64) -> bool {
        ||| self.animated_monochrome_sprites.len() > 0
        ||| self.animated_subpixel_sprites.len() > 0
        ||| self.animated_quads.len() > 0
        ||| self.spec_transitions_in_flight(now)
    }

    /// The highlight with its band where its sweep has got to.
    pub open spec fn swept(self, effect: SpriteEffect<F>, sweeps: Seq<F>) -> SpriteEffect<F> {
        let sweep = effect.animation - 1;
        SpriteEffect {
            band_origin: self.shimmer_animations[sweep].spec_band_origin(sweeps[sweep]),
            ..effect
        }
    }

    /// The quad with the opacity that its cycle has got to.
    pub open spec fn cycled(self, quad: Quad<F>, elapsed: u64) -> Quad<F> {
        let animation = self.quad_animations[quad.background.animation - 1];
        let opacity = animation.cycle.spec_current_opacity(elapsed);
        Quad {
            background: animation.background.spec_opacity(opacity).spec_with_time_animation(
                quad.background.animation,
            ),
            border_color: animation.border_color.spec_opacity(opacity),
            ..quad
        }
    }

    /// The sprites of one color, those that `animated` lists with their
    /// highlights moved.
    pub open spec fn swept_monochrome(self, animated: Seq<u32>, sweeps: Seq<F>) -> Seq<
        MonochromeSprite<F>,
    > {
        Seq::new(
            self.monochrome_sprites.len(),
            |i: int|
                {
                    let sprite = self.monochrome_sprites[i];
                    if lists(animated, i) {
                        MonochromeSprite { effect: self.swept(sprite.effect, sweeps), ..sprite }
                    } else {
                        sprite
                    }
                },
        )
    }

    /// The sprites with a coverage value per channel, those that `animated`
    /// lists with their highlights moved.
    pub open spec fn swept_subpixel(self, animated: Seq<u32>, sweeps: Seq<F>) -> Seq<
        SubpixelSprite<F>,
    > {
        Seq::new(
            self.subpixel_sprites.len(),
            |i: int|
                {
                    let sprite = self.subpixel_sprites[i];
                    if lists(animated, i) {
                        SubpixelSprite { effect: self.swept(sprite.effect, sweeps), ..sprite }
                    } else {
                        sprite
                    }
                },
        )
    }

    /// The quads, those that `animated` lists with their opacities moved.
    pub open spec fn cycled_quads(self, animated: Seq<u32>, elapsed: u64) -> Seq<Quad<F>> {
        Seq::new(
            self.quads.len(),
            |i: int|
                if lists(animated, i) {
                    self.cycled(self.quads[i], elapsed)
                } else {
                    self.quads[i]
                },
        )
    }

    /// The scene with every sweep and every opacity cycle moved on.
    pub open spec fn with_cycles(self, elapsed: u64, sweeps: Seq<F>) -> Self {
        SceneModel {
            monochrome_sprites: self.swept_monochrome(self.animated_monochrome_sprites, sweeps),
            subpixel_sprites: self.swept_subpixel(self.animated_subpixel_sprites, sweeps),
            quads: self.cycled_quads(self.animated_quads, elapsed),
            ..self
        }
    }

    /// The scene with one primitive moved and faded from how it was painted. A
    /// quad that an opacity cycle drives fades from where its cycle has put it.
    pub open spec fn moved(
        self,
        primitive: TransitionedPrimitive<F>,
        offset: Point<F>,
        opacity: F,
    ) -> Self {
        match primitive.target {
            TransitionTarget::MonochromeSprite { index, origin, alpha } => {
                let sprite = self.monochrome_sprites[index as int];
                let sprite = MonochromeSprite {
                    bounds: Bounds { origin: origin.spec_plus(offset), ..sprite.bounds },
                    color: Hsla { a: alpha.spec_times(opacity), ..sprite.color },
                    ..sprite
                };
                SceneModel {
                    monochrome_sprites: self.monochrome_sprites.update(index as int, sprite),
                    ..self
                }
            },
            TransitionTarget::SubpixelSprite { index, origin, alpha } => {
                let sprite = self.subpixel_sprites[index as int];
                let sprite = SubpixelSprite {
                    bounds: Bounds { origin: origin.spec_plus(offset), ..sprite.bounds },
                    color: Hsla { a: alpha.spec_times(opacity), ..sprite.color },
                    ..sprite
                };
                SceneModel {
                    subpixel_sprites: self.subpixel_sprites.update(index as int, sprite),
                    ..self
                }
            },
            TransitionTarget::PolychromeSprite { index, origin, opacity: painted } => {
                let sprite = self.polychrome_sprites[index as int];
                let sprite = PolychromeSprite {
                    bounds: Bounds { origin: origin.spec_plus(offset), ..sprite.bounds },
                    opacity: painted.spec_times(opacity),
                    ..sprite
                };
                SceneModel {
                    polychrome_sprites: self.polychrome_sprites.update(index as int, sprite),
                    ..self
                }
            },
            TransitionTarget::Underline { index, origin, alpha } => {
                let underline = self.underlines[index as int];
                let underline = Underline {
                    bounds: Bounds { origin: origin.spec_plus(offset), ..underline.bounds },
                    color: Hsla { a: alpha.spec_times(opacity), ..underline.color },
                    ..underline
                };
                SceneModel { underlines: self.underlines.update(index as int, underline), ..self }
            },
            TransitionTarget::Shadow { index, origin, element_origin, alpha } => {
                let shadow = self.shadows[index as int];
                let shadow = Shadow {
                    bounds: Bounds { origin: origin.spec_plus(offset), ..shadow.bounds },
                    element_bounds: Bounds {
                        origin: element_origin.spec_plus(offset),
                        ..shadow.element_bounds
                    },
                    color: Hsla { a: alpha.spec_times(opacity), ..shadow.color },
                    ..shadow
                };
                SceneModel { shadows: self.shadows.update(index as int, shadow), ..self }
            },
            TransitionTarget::Quad { index, origin, background, border_color } => {
                let quad = self.quads[index as int];
                let (background, border_color) = if quad.background.animation != 0 {
                    (quad.background, quad.border_color)
                } else {
                    (background, border_color)
                };
                let quad = Quad {
                    bounds: Bounds { origin: origin.spec_plus(offset), ..quad.bounds },
                    background: background.spec_opacity(opacity).spec_with_time_transition(
                        primitive.transition,
                    ),
                    border_color: border_color.spec_opacity(opacity),
                    ..quad
                };
                SceneModel { quads: self.quads.update(index as int, quad), ..self }
            },
        }
    }

    /// The scene with the first `count` of what transitions move put where it
    /// is at `now`.
    pub open spec fn with_moved(self, now: u64, count: nat) -> Self
        decreases count,
    {
        if count == 0 {
            self
        } else {
            let primitive = self.transitioned[count - 1];
            let (offset, opacity) = composed_state(
                self.transitions,
                primitive.transition - 1,
                now,
            );
            self.with_moved(now, (count - 1) as nat).moved(primitive, offset, opacity)
        }
    }

    /// The scene with everything that transitions move put where it is at `now`.
    pub open spec fn spec_advance_transitions(self, now: u64) -> Self {
        self.with_moved(now, self.transitioned.len())
    }

    /// The scene with everything that moves with time put where it is at `now`.
    pub open spec fn spec_advance_time_animations(
        self,
        now: u64,
        elapsed: u64,
        sweeps: Seq<F>,
    ) -> Self {
        if !self.spec_has_time_animations(now) && self.transitioned.len() == 0 {
            self
        } else {
            self.with_cycles(elapsed, sweeps).spec_advance_transitions(now)
        }
    }

    /// Whether a primitive that a transition moves, and its transition, exist.
    pub open spec fn target_exists(self, primitive: TransitionedPrimitive<F>) -> bool {
        &&& 1 <= primitive.transition <= self.transitions.len()
        &&& match primitive.target {
            TransitionTarget::MonochromeSprite { index, .. } => index
                < self.monochrome_sprites.len(),
            TransitionTarget::SubpixelSprite { index, .. } => index < self.subpixel_sprites.len(),
            TransitionTarget::PolychromeSprite { index, .. } => index
                < self.polychrome_sprites.len(),
            TransitionTarget::Underline { index, .. } => index < self.underlines.len(),
            TransitionTarget::Shadow { index, .. } => index < self.shadows.len(),
            TransitionTarget::Quad { index, .. } => index < self.quads.len(),
        }
    }

    /// Whether everything that was found to move with time exists, together with
    /// the sweep, the cycle or the transition that moves it.
    pub open spec fn presentable(self) -> bool {
        &&& parents_come_first(self.transitions)
        &&& forall|i: int|
            0 <= i < self.transitioned.len() ==> self.target_exists(
                #[trigger] self.transitioned[i],
            )
        &&& forall|i: int|
            #![trigger self.animated_monochrome_sprites[i]]
            0 <= i < self.animated_monochrome_sprites.len() ==> {
                let index = self.animated_monochrome_sprites[i] as int;
                &&& index < self.monochrome_sprites.len()
                &&& 1 <= self.monochrome_sprites[index].effect.animation
                    <= self.shimmer_animations.len()
            }
        &&& forall|i: int|
            #![trigger self.animated_subpixel_sprites[i]]
            0 <= i < self.animated_subpixel_sprites.len() ==> {
                let index = self.animated_subpixel_sprites[i] as int;
                &&& index < self.subpixel_sprites.len()
                &&& 1 <= self.subpixel_sprites[index].effect.animation
                    <= self.shimmer_animations.len()
            }
        &&& forall|i: int|
            #![trigger self.animated_quads[i]]
            0 <= i < self.animated_quads.len() ==> {
                let index = self.animated_quads[i] as int;
                &&& index < self.quads.len()
                &&& 1 <= self.quads[index].background.animation <= self.quad_animations.len()
            }
    }
}

impl<F: Scalar> SortKey for Shadow<F> {
    open spec fn sort_key(self) -> u64 {
        self.order as u64
    }
}

impl<F: Scalar> SortKey for Quad<F> {
    open spec fn sort_key(self) -> u64 {
        self.order as u64
    }
}

impl<F: Scalar> SortKey for PathModel<F> {
    open spec fn sort_key(self) -> u64 {
        self.order as u64
    }
}

impl<F: Scalar> SortKey for Underline<F> {
    open spec fn sort_key(self) -> u64 {
        self.order as u64
    }
}

/// The key that sorts by order and then by tile.
pub open spec fn tile_key(order: u32, tile: AtlasTile) -> u64 {
    (order * 0x1_0000_0000 + tile.tile_id.0) as u64
}

impl<F: Scalar> SortKey for MonochromeSprite<F> {
    open spec fn sort_key(self) -> u64 {
        tile_key(self.order, self.tile)
    }
}

impl<F: Scalar> SortKey for SubpixelSprite<F> {
    open spec fn sort_key(self) -> u64 {
        tile_key(self.order, self.tile)
    }
}

impl<F: Scalar> SortKey for PolychromeSprite<F> {
    open spec fn sort_key(self) -> u64 {
        tile_key(self.order, self.tile)
    }
}

impl<F: Scalar> SortKey for PaintSurface<F> {
    open spec fn sort_key(self) -> u64 {
        self.order as u64
    }
}

impl<F: Scalar> Transitioned<F> for MonochromeSprite<F> {
    open spec fn spec_transitioned(self, index: u32) -> TransitionedPrimitive<F> {
        TransitionedPrimitive {
            transition: self.pad,
            target: TransitionTarget::MonochromeSprite {
                index,
                origin: self.bounds.origin,
                alpha: self.color.a,
            },
        }
    }

    fn transitioned(&self, index: u32) -> (result: TransitionedPrimitive<F>) {
        TransitionedPrimitive {
            transition: self.pad,
            target: TransitionTarget::MonochromeSprite {
                index,
                origin: self.bounds.origin,
                alpha: self.color.a,
            },
        }
    }
}

impl<F: Scalar> Transitioned<F> for SubpixelSprite<F> {
    open spec fn spec_transitioned(self, index: u32) -> TransitionedPrimitive<F> {
        TransitionedPrimitive {
            transition: self.pad,
            target: TransitionTarget::SubpixelSprite {
                index,
                origin: self.bounds.origin,
                alpha: self.color.a,
            },
        }
    }

    fn transitioned(&self, index: u32) -> (result: TransitionedPrimitive<F>) {
        TransitionedPrimitive {
            transition: self.pad,
            target: TransitionTarget::SubpixelSprite {
                index,
                origin: self.bounds.origin,
                alpha: self.color.a,
            },
        }
    }
}

impl<F: Scalar> Transitioned<F> for PolychromeSprite<F> {
    open spec fn spec_transitioned(self, index: u32) -> TransitionedPrimitive<F> {
        TransitionedPrimitive {
            transition: self.pad,
            target: TransitionTarget::PolychromeSprite {
                index,
                origin: self.bounds.origin,
                opacity: self.opacity,
            },
        }
    }

    fn transitioned(&self, index: u32) -> (result: TransitionedPrimitive<F>) {
        TransitionedPrimitive {
            transition: self.pad,
            target: TransitionTarget::PolychromeSprite {
                index,
                origin: self.bounds.origin,
                opacity: self.opacity,
            },
        }
    }
}

impl<F: Scalar> Transitioned<F> for Underline<F> {
    open spec fn spec_transitioned(self, index: u32) -> TransitionedPrimitive<F> {
        TransitionedPrimitive {
            transition: self.pad,
            target: TransitionTarget::Underline {
                index,
                origin: self.bounds.origin,
                alpha: self.color.a,
            },
        }
    }

    fn transitioned(&self, index: u32) -> (result: TransitionedPrimitive<F>) {
        TransitionedPrimitive {
            transition: self.pad,
            target: TransitionTarget::Underline {
                index,
                origin: self.bounds.origin,
                alpha: self.color.a,
            },
        }
    }
}

impl<F: Scalar> Transitioned<F> for Shadow<F> {
    open spec fn spec_transitioned(self, index: u32) -> TransitionedPrimitive<F> {
        TransitionedPrimitive {
            transition: self.pad,
            target: TransitionTarget::Shadow {
                index,
                origin: self.bounds.origin,
                element_origin: self.element_bounds.origin,
                alpha: self.color.a,
            },
        }
    }

    fn transitioned(&self, index: u32) -> (result: TransitionedPrimitive<F>) {
        TransitionedPrimitive {
            transition: self.pad,
            target: TransitionTarget::Shadow {
                index,
                origin: self.bounds.origin,
                element_origin: self.element_bounds.origin,
                alpha: self.color.a,
            },
        }
    }
}

impl<F: Scalar> Transitioned<F> for Quad<F> {
    open spec fn spec_transitioned(self, index: u32) -> TransitionedPrimitive<F> {
        TransitionedPrimitive {
            transition: self.background.transition,
            target: TransitionTarget::Quad {
                index,
                origin: self.bounds.origin,
                background: self.background,
                border_color: self.border_color,
            },
        }
    }

    fn transitioned(&self, index: u32) -> (result: TransitionedPrimitive<F>) {
        TransitionedPrimitive {
            transition: self.background.transition,
            target: TransitionTarget::Quad {
                index,
                origin: self.bounds.origin,
                background: self.background,
                border_color: self.border_color,
            },
        }
    }
}

impl<F: Scalar> ReplayModel<F> {
    /// Nothing of another scene replayed into `scene` yet.
    pub open spec fn spec_start(scene: SceneModel<F>) -> Self {
        ReplayModel { scene, sweep: (0, 0), remapped: Seq::empty() }
    }

    /// With the transition of a primitive copied from `prev`; and the primitive
    /// that names the copy.
    pub open spec fn copy_transition(self, prev: SceneModel<F>, primitive: PrimitiveModel<F>) -> (
        Self,
        PrimitiveModel<F>,
    ) {
        if primitive.transition() == 0 {
            (self, primitive)
        } else {
            let (transitions, remapped, id) = remap_transition(
                self.scene.transitions,
                self.remapped,
                prev.transitions,
                primitive.transition(),
            );
            (
                ReplayModel {
                    scene: SceneModel { transitions, ..self.scene },
                    remapped,
                    ..self
                },
                primitive.with_transition(id),
            )
        }
    }

    /// With the opacity cycle of a primitive copied from `prev`; and the
    /// primitive that names the copy.
    pub open spec fn copy_quad_animation(
        self,
        prev: SceneModel<F>,
        primitive: PrimitiveModel<F>,
    ) -> (Self, PrimitiveModel<F>) {
        let animation = primitive.quad_animation();
        if animation == 0 {
            (self, primitive)
        } else {
            let (scene, id) = self.scene.spec_push_quad_animation(
                prev.quad_animations[animation - 1],
            );
            (ReplayModel { scene, ..self }, primitive.with_quad_animation(id))
        }
    }

    /// With the sweep of a primitive copied from `prev`, unless it is the one
    /// met last; and the primitive that names the copy.
    pub open spec fn copy_shimmer_animation(
        self,
        prev: SceneModel<F>,
        primitive: PrimitiveModel<F>,
    ) -> (Self, PrimitiveModel<F>) {
        let animation = primitive.shimmer_animation();
        if animation == 0 {
            (self, primitive)
        } else if self.sweep.0 == animation {
            (self, primitive.with_shimmer_animation(self.sweep.1))
        } else {
            let (scene, id) = self.scene.spec_push_shimmer_animation(
                prev.shimmer_animations[animation - 1],
            );
            (
                ReplayModel { scene, sweep: (animation, id), ..self },
                primitive.with_shimmer_animation(id),
            )
        }
    }

    /// With one more primitive of `prev` replayed.
    pub open spec fn replay_primitive(
        self,
        prev: SceneModel<F>,
        primitive: PrimitiveModel<F>,
    ) -> Self {
        let (state, primitive) = self.copy_transition(prev, primitive);
        let (state, primitive) = state.copy_quad_animation(prev, primitive);
        let (state, primitive) = state.copy_shimmer_animation(prev, primitive);
        ReplayModel { scene: state.scene.spec_insert_primitive(primitive), ..state }
    }

    /// With one more step of painting `prev` replayed.
    pub open spec fn replay_step(
        self,
        prev: SceneModel<F>,
        operation: PaintOperationModel<F>,
    ) -> Self {
        match operation {
            PaintOperationModel::Primitive(primitive) => self.replay_primitive(prev, primitive),
            PaintOperationModel::StartLayer(bounds) => ReplayModel {
                scene: self.scene.spec_push_layer(bounds),
                ..self
            },
            PaintOperationModel::EndLayer => ReplayModel {
                scene: self.scene.spec_pop_layer(),
                ..self
            },
        }
    }

    /// With these steps of painting `prev` replayed one after the other.
    pub open spec fn replay_steps(
        self,
        prev: SceneModel<F>,
        operations: Seq<PaintOperationModel<F>>,
    ) -> Self
        decreases operations.len(),
    {
        if operations.len() == 0 {
            self
        } else {
            self.replay_steps(prev, operations.drop_last()).replay_step(prev, operations.last())
        }
    }
}

} // verus!
