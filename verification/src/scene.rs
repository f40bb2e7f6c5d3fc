//! The scene: everything that one frame draws.
use core::ops::Range;

use vstd::prelude::*;

use crate::animation::{QuadOpacityAnimation, SceneTransition, ShimmerAnimation};
use crate::bounds_tree::BoundsTree;
use crate::capacity::CapacityShrink;
use crate::color::MAX_TIME_TRANSITION;
use crate::geometry::{Bounds, Point};
use crate::path::{Path, PathId};
use crate::primitives::{
    DrawOrder, MonochromeSprite, PaintSurface, PolychromeSprite, Primitive, Quad, Shadow,
    SubpixelSprite, Underline,
};
use crate::scalar::Scalar;
use crate::scene_model::{
    composed_state, indices_where, last_end, lists, lookup, monochrome_sweeps, parents_come_first, push_transition,
    quad_cycles, remap_transition, subpixel_sweeps, takes_blended_pass, takes_opaque_pass,
    targets, PaintOperationModel, ReplayModel, SceneModel, TransitionTarget, Transitioned,
    TransitionedPrimitive, MAX_DEPTH_PARTITIONED_QUADS,
};
use crate::stable_sort::{
    law_stable_sort, lemma_stable_sort_map, reverse, sort_by_key, ReadSortKey, SortKey,
};

verus! {

/// One step of painting a scene.
pub enum PaintOperation<F> {
    /// A primitive was drawn.
    Primitive(Primitive<F>),
    /// A layer was opened.
    StartLayer(Bounds<F>),
    /// The innermost layer was closed.
    EndLayer,
}

impl<F> View for PaintOperation<F> {
    type V = PaintOperationModel<F>;

    open spec fn view(&self) -> PaintOperationModel<F> {
        match *self {
            PaintOperation::Primitive(primitive) => PaintOperationModel::Primitive(primitive@),
            PaintOperation::StartLayer(bounds) => PaintOperationModel::StartLayer(bounds),
            PaintOperation::EndLayer => PaintOperationModel::EndLayer,
        }
    }
}

/// One capacity tracker for each vector that a scene refills every frame.
#[derive(Clone, Copy, Debug)]
pub struct SceneShrink {
    /// The tracker of the paint operations.
    pub paint_operations: CapacityShrink,
    /// The tracker of the open layers.
    pub layer_stack: CapacityShrink,
    /// The tracker of the paths.
    pub paths: CapacityShrink,
    /// The tracker of the shadows.
    pub shadows: CapacityShrink,
    /// The tracker of the quads.
    pub quads: CapacityShrink,
    /// The tracker of the underlines.
    pub underlines: CapacityShrink,
    /// The tracker of the sprites of one color.
    pub monochrome_sprites: CapacityShrink,
    /// The tracker of the sprites with a coverage value per color channel.
    pub subpixel_sprites: CapacityShrink,
    /// The tracker of the sprites with their own colors.
    pub polychrome_sprites: CapacityShrink,
    /// The tracker of the surfaces.
    pub surfaces: CapacityShrink,
    /// The tracker of the blended quads.
    pub blended_quad_indices: CapacityShrink,
    /// The tracker of the opaque quads.
    pub opaque_quad_indices: CapacityShrink,
}

impl SceneShrink {
    /// Whether no tracker has completed its run.
    pub open spec fn wf(self) -> bool {
        &&& self.paint_operations.wf()
        &&& self.layer_stack.wf()
        &&& self.paths.wf()
        &&& self.shadows.wf()
        &&& self.quads.wf()
        &&& self.underlines.wf()
        &&& self.monochrome_sprites.wf()
        &&& self.subpixel_sprites.wf()
        &&& self.polychrome_sprites.wf()
        &&& self.surfaces.wf()
        &&& self.blended_quad_indices.wf()
        &&& self.opaque_quad_indices.wf()
    }

    /// Trackers that have seen no frame.
    pub open spec fn spec_fresh() -> Self {
        SceneShrink {
            paint_operations: CapacityShrink::spec_fresh(),
            layer_stack: CapacityShrink::spec_fresh(),
            paths: CapacityShrink::spec_fresh(),
            shadows: CapacityShrink::spec_fresh(),
            quads: CapacityShrink::spec_fresh(),
            underlines: CapacityShrink::spec_fresh(),
            monochrome_sprites: CapacityShrink::spec_fresh(),
            subpixel_sprites: CapacityShrink::spec_fresh(),
            polychrome_sprites: CapacityShrink::spec_fresh(),
            surfaces: CapacityShrink::spec_fresh(),
            blended_quad_indices: CapacityShrink::spec_fresh(),
            opaque_quad_indices: CapacityShrink::spec_fresh(),
        }
    }

    /// Trackers that have seen no frame.
    fn new() -> (result: Self)
        ensures
            result == Self::spec_fresh(),
            result.wf(),
    {
        let fresh = CapacityShrink::new();
        SceneShrink {
            paint_operations: fresh,
            layer_stack: fresh,
            paths: fresh,
            shadows: fresh,
            quads: fresh,
            underlines: fresh,
            monochrome_sprites: fresh,
            subpixel_sprites: fresh,
            polychrome_sprites: fresh,
            surfaces: fresh,
            blended_quad_indices: fresh,
            opaque_quad_indices: fresh,
        }
    }
}

/// Everything that one frame draws, and how it moves with time.
pub struct Scene<F: Scalar> {
    /// How the scene was painted, step by step.
    pub paint_operations: Vec<PaintOperation<F>>,
    /// The rectangles that orders were given to.
    pub primitive_bounds: BoundsTree<F>,
    /// The orders of the open layers.
    pub layer_stack: Vec<DrawOrder>,
    /// The shadows.
    pub shadows: Vec<Shadow<F>>,
    /// The quads.
    pub quads: Vec<Quad<F>>,
    /// The paths.
    pub paths: Vec<Path<F>>,
    /// The underlines.
    pub underlines: Vec<Underline<F>>,
    /// The sprites of one color.
    pub monochrome_sprites: Vec<MonochromeSprite<F>>,
    /// The sprites of one color with a coverage value per color channel.
    pub subpixel_sprites: Vec<SubpixelSprite<F>>,
    /// The sprites with their own colors.
    pub polychrome_sprites: Vec<PolychromeSprite<F>>,
    /// The pictures that something else renders.
    pub surfaces: Vec<PaintSurface<F>>,
    /// The quads of the blended pass, back to front.
    pub blended_quad_indices: Vec<u32>,
    /// The quads of the opaque pass, front to back.
    pub opaque_quad_indices: Vec<u32>,
    /// Sweeps that sprites refer to.
    pub shimmer_animations: Vec<ShimmerAnimation<F>>,
    /// The sprites of one color whose highlight moves, gathered by
    /// [`Self::finish`] (sorting moves sprites, so they cannot be recorded on
    /// insertion).
    pub animated_monochrome_sprites: Vec<u32>,
    /// The sprites with a coverage value per channel whose highlight moves.
    pub animated_subpixel_sprites: Vec<u32>,
    /// Opacity cycles that quads refer to.
    pub quad_animations: Vec<QuadOpacityAnimation<F>>,
    /// The quads that an opacity cycle drives.
    pub animated_quads: Vec<u32>,
    /// Moves that primitives refer to.
    pub transitions: Vec<SceneTransition<F>>,
    /// The transition that primitives inserted now are stamped with.
    pub current_transition: u32,
    /// What transitions move, gathered by [`Self::finish`].
    pub transitioned: Vec<TransitionedPrimitive<F>>,
    /// When the last transition this scene carries lands.
    pub transitions_end_at: Option<u64>,
    /// Each transition's composed offset and opacity for the present being
    /// prepared, reused across presents.
    pub transition_states: Vec<(Point<F>, F)>,
    /// The capacity trackers.
    pub shrink: SceneShrink,
}

impl<F: Scalar> View for Scene<F> {
    type V = SceneModel<F>;

    open spec fn view(&self) -> SceneModel<F> {
        SceneModel {
            paint_operations: self.paint_operations@.map_values(
                |operation: PaintOperation<F>| operation@,
            ),
            primitive_bounds: self.primitive_bounds.entries@,
            layer_stack: self.layer_stack@,
            shadows: self.shadows@,
            quads: self.quads@,
            paths: self.paths@.map_values(|path: Path<F>| path@),
            underlines: self.underlines@,
            monochrome_sprites: self.monochrome_sprites@,
            subpixel_sprites: self.subpixel_sprites@,
            polychrome_sprites: self.polychrome_sprites@,
            surfaces: self.surfaces@,
            blended_quad_indices: self.blended_quad_indices@,
            opaque_quad_indices: self.opaque_quad_indices@,
            shimmer_animations: self.shimmer_animations@,
            animated_monochrome_sprites: self.animated_monochrome_sprites@,
            animated_subpixel_sprites: self.animated_subpixel_sprites@,
            quad_animations: self.quad_animations@,
            animated_quads: self.animated_quads@,
            transitions: self.transitions@,
            current_transition: self.current_transition,
            transitioned: self.transitioned@,
            transitions_end_at: self.transitions_end_at,
        }
    }
}

impl<F: Scalar> Scene<F> {
    /// Whether the orders and the capacity trackers are in order.
    pub open spec fn wf(self) -> bool {
        &&& self.primitive_bounds.wf()
        &&& self.shrink.wf()
    }

    /// A scene that draws nothing.
    pub fn new() -> (result: Self)
        ensures
            result.wf(),
            result@ == SceneModel::<F>::spec_empty(),
            result.shrink == SceneShrink::spec_fresh(),
    {
        let result = Scene {
            paint_operations: Vec::new(),
            primitive_bounds: BoundsTree::new(),
            layer_stack: Vec::new(),
            shadows: Vec::new(),
            quads: Vec::new(),
            paths: Vec::new(),
            underlines: Vec::new(),
            monochrome_sprites: Vec::new(),
            subpixel_sprites: Vec::new(),
            polychrome_sprites: Vec::new(),
            surfaces: Vec::new(),
            blended_quad_indices: Vec::new(),
            opaque_quad_indices: Vec::new(),
            shimmer_animations: Vec::new(),
            animated_monochrome_sprites: Vec::new(),
            animated_subpixel_sprites: Vec::new(),
            quad_animations: Vec::new(),
            animated_quads: Vec::new(),
            transitions: Vec::new(),
            current_transition: 0,
            transitioned: Vec::new(),
            transitions_end_at: None,
            transition_states: Vec::new(),
            shrink: SceneShrink::new(),
        };
        proof {
            assert(result@ =~= SceneModel::<F>::spec_empty());
        }
        result
    }

    /// Empties the scene for the next frame, giving back memory that a run of
    /// frames has not needed.
    pub fn clear(&mut self)
        requires
            old(self).wf(),
        ensures
            final(self).wf(),
            final(self)@ == SceneModel::<F>::spec_empty(),
            old(self).shrink.paint_operations.recorded(
                old(self).paint_operations,
                final(self).shrink.paint_operations,
                final(self).paint_operations,
            ),
            old(self).primitive_bounds.shrink.recorded(
                old(self).primitive_bounds.entries,
                final(self).primitive_bounds.shrink,
                final(self).primitive_bounds.entries,
            ),
            old(self).shrink.layer_stack.recorded(
                old(self).layer_stack,
                final(self).shrink.layer_stack,
                final(self).layer_stack,
            ),
            old(self).shrink.paths.recorded(
                old(self).paths,
                final(self).shrink.paths,
                final(self).paths,
            ),
            old(self).shrink.shadows.recorded(
                old(self).shadows,
                final(self).shrink.shadows,
                final(self).shadows,
            ),
            old(self).shrink.quads.recorded(
                old(self).quads,
                final(self).shrink.quads,
                final(self).quads,
            ),
            old(self).shrink.underlines.recorded(
                old(self).underlines,
                final(self).shrink.underlines,
                final(self).underlines,
            ),
            old(self).shrink.monochrome_sprites.recorded(
                old(self).monochrome_sprites,
                final(self).shrink.monochrome_sprites,
                final(self).monochrome_sprites,
            ),
            old(self).shrink.subpixel_sprites.recorded(
                old(self).subpixel_sprites,
                final(self).shrink.subpixel_sprites,
                final(self).subpixel_sprites,
            ),
            old(self).shrink.polychrome_sprites.recorded(
                old(self).polychrome_sprites,
                final(self).shrink.polychrome_sprites,
                final(self).polychrome_sprites,
            ),
            old(self).shrink.surfaces.recorded(
                old(self).surfaces,
                final(self).shrink.surfaces,
                final(self).surfaces,
            ),
            old(self).shrink.blended_quad_indices.recorded(
                old(self).blended_quad_indices,
                final(self).shrink.blended_quad_indices,
                final(self).blended_quad_indices,
            ),
            old(self).shrink.opaque_quad_indices.recorded(
                old(self).opaque_quad_indices,
                final(self).shrink.opaque_quad_indices,
                final(self).opaque_quad_indices,
            ),
    {
        self.shrink.paint_operations.clear_vec(&mut self.paint_operations);
        self.primitive_bounds.clear();
        self.shrink.layer_stack.clear_vec(&mut self.layer_stack);
        self.shrink.paths.clear_vec(&mut self.paths);
        self.shrink.shadows.clear_vec(&mut self.shadows);
        self.shrink.quads.clear_vec(&mut self.quads);
        self.shrink.underlines.clear_vec(&mut self.underlines);
        self.shrink.monochrome_sprites.clear_vec(&mut self.monochrome_sprites);
        self.shrink.subpixel_sprites.clear_vec(&mut self.subpixel_sprites);
        self.shrink.polychrome_sprites.clear_vec(&mut self.polychrome_sprites);
        self.shrink.surfaces.clear_vec(&mut self.surfaces);
        self.shrink.blended_quad_indices.clear_vec(&mut self.blended_quad_indices);
        self.shrink.opaque_quad_indices.clear_vec(&mut self.opaque_quad_indices);
        self.shimmer_animations.clear();
        self.animated_monochrome_sprites.clear();
        self.animated_subpixel_sprites.clear();
        self.quad_animations.clear();
        self.animated_quads.clear();
        self.transitions.clear();
        self.current_transition = 0;
        self.transitioned.clear();
        self.transitions_end_at = None;
        proof {
            assert(self@ =~= SceneModel::<F>::spec_empty());
        }
    }

    /// Shrinks this cleared scene's vectors to twice the fill of `rendered`,
    /// the scene still on screen, once the window has stopped drawing.
    pub fn shrink_idle(&mut self, rendered: &Scene<F>)
        requires
            old(self).wf(),
        ensures
            final(self).wf(),
            final(self)@ == old(self)@,
            final(self).transition_states@ == old(self).transition_states@,
            old(self).shrink.paint_operations.idled(
                old(self).paint_operations,
                rendered@.paint_operations.len() as usize,
                final(self).shrink.paint_operations,
                final(self).paint_operations,
            ),
            old(self).primitive_bounds.shrink.idled(
                old(self).primitive_bounds.entries,
                rendered@.primitive_bounds.len() as usize,
                final(self).primitive_bounds.shrink,
                final(self).primitive_bounds.entries,
            ),
            old(self).shrink.layer_stack.idled(
                old(self).layer_stack,
                rendered@.layer_stack.len() as usize,
                final(self).shrink.layer_stack,
                final(self).layer_stack,
            ),
            old(self).shrink.paths.idled(
                old(self).paths,
                rendered@.paths.len() as usize,
                final(self).shrink.paths,
                final(self).paths,
            ),
            old(self).shrink.shadows.idled(
                old(self).shadows,
                rendered@.shadows.len() as usize,
                final(self).shrink.shadows,
                final(self).shadows,
            ),
            old(self).shrink.quads.idled(
                old(self).quads,
                rendered@.quads.len() as usize,
                final(self).shrink.quads,
                final(self).quads,
            ),
            old(self).shrink.underlines.idled(
                old(self).underlines,
                rendered@.underlines.len() as usize,
                final(self).shrink.underlines,
                final(self).underlines,
            ),
            old(self).shrink.monochrome_sprites.idled(
                old(self).monochrome_sprites,
                rendered@.monochrome_sprites.len() as usize,
                final(self).shrink.monochrome_sprites,
                final(self).monochrome_sprites,
            ),
            old(self).shrink.subpixel_sprites.idled(
                old(self).subpixel_sprites,
                rendered@.subpixel_sprites.len() as usize,
                final(self).shrink.subpixel_sprites,
                final(self).subpixel_sprites,
            ),
            old(self).shrink.polychrome_sprites.idled(
                old(self).polychrome_sprites,
                rendered@.polychrome_sprites.len() as usize,
                final(self).shrink.polychrome_sprites,
                final(self).polychrome_sprites,
            ),
            old(self).shrink.surfaces.idled(
                old(self).surfaces,
                rendered@.surfaces.len() as usize,
                final(self).shrink.surfaces,
                final(self).surfaces,
            ),
            old(self).shrink.blended_quad_indices.idled(
                old(self).blended_quad_indices,
                rendered@.blended_quad_indices.len() as usize,
                final(self).shrink.blended_quad_indices,
                final(self).blended_quad_indices,
            ),
            old(self).shrink.opaque_quad_indices.idled(
                old(self).opaque_quad_indices,
                rendered@.opaque_quad_indices.len() as usize,
                final(self).shrink.opaque_quad_indices,
                final(self).opaque_quad_indices,
            ),
    {
        self.shrink.paint_operations.shrink_vec_idle(
            &mut self.paint_operations,
            rendered.paint_operations.len(),
        );
        self.primitive_bounds.shrink_idle(&rendered.primitive_bounds);
        self.shrink.layer_stack.shrink_vec_idle(
            &mut self.layer_stack,
            rendered.layer_stack.len(),
        );
        self.shrink.paths.shrink_vec_idle(&mut self.paths, rendered.paths.len());
        self.shrink.shadows.shrink_vec_idle(&mut self.shadows, rendered.shadows.len());
        self.shrink.quads.shrink_vec_idle(&mut self.quads, rendered.quads.len());
        self.shrink.underlines.shrink_vec_idle(&mut self.underlines, rendered.underlines.len());
        self.shrink.monochrome_sprites.shrink_vec_idle(
            &mut self.monochrome_sprites,
            rendered.monochrome_sprites.len(),
        );
        self.shrink.subpixel_sprites.shrink_vec_idle(
            &mut self.subpixel_sprites,
            rendered.subpixel_sprites.len(),
        );
        self.shrink.polychrome_sprites.shrink_vec_idle(
            &mut self.polychrome_sprites,
            rendered.polychrome_sprites.len(),
        );
        self.shrink.surfaces.shrink_vec_idle(&mut self.surfaces, rendered.surfaces.len());
        self.shrink.blended_quad_indices.shrink_vec_idle(
            &mut self.blended_quad_indices,
            rendered.blended_quad_indices.len(),
        );
        self.shrink.opaque_quad_indices.shrink_vec_idle(
            &mut self.opaque_quad_indices,
            rendered.opaque_quad_indices.len(),
        );
    }

    /// How many steps painted the scene.
    pub fn len(&self) -> (result: usize)
        ensures
            result == self@.paint_operations.len(),
    {
        self.paint_operations.len()
    }

    /// Returns whether the scene contains no drawable primitives.
    ///
    /// A scene may have paint operations that only open and close empty layers,
    /// so `len() == 0` is not equivalent to having no visible/input-relevant
    /// overlay content.
    pub fn is_empty(&self) -> (result: bool)
        ensures
            result == self@.spec_is_empty(),
    {
        self.shadows.len() == 0 && self.quads.len() == 0 && self.paths.len() == 0
            && self.underlines.len() == 0 && self.monochrome_sprites.len() == 0
            && self.subpixel_sprites.len() == 0 && self.polychrome_sprites.len() == 0
            && self.surfaces.len() == 0
    }

    /// Opens a layer: what is painted until it is closed is drawn at its order.
    pub fn push_layer(&mut self, bounds: Bounds<F>)
        requires
            old(self).wf(),
            old(self)@.primitive_bounds.len() < u32::MAX,
        ensures
            final(self).wf(),
            final(self)@ == old(self)@.spec_push_layer(bounds),
    {
        let order: u32 = self.primitive_bounds.insert(bounds);
        self.layer_stack.push(order);
        self.paint_operations.push(PaintOperation::StartLayer(bounds));
        proof {
            assert(self@ =~= old(self)@.spec_push_layer(bounds));
        }
    }

    /// Closes the innermost layer.
    pub fn pop_layer(&mut self)
        requires
            old(self).wf(),
        ensures
            final(self).wf(),
            final(self)@ == old(self)@.spec_pop_layer(),
    {
        self.layer_stack.pop();
        self.paint_operations.push(PaintOperation::EndLayer);
        proof {
            assert(self@ =~= old(self)@.spec_pop_layer());
        }
    }

    /// Paints one primitive. What its mask leaves nothing of is dropped; the
    /// rest is stamped with the current transition unless it has one of its
    /// own, and drawn at the innermost layer's order or, outside of all layers,
    /// above everything that it overlaps.
    pub fn insert_primitive<P: Into<Primitive<F>>>(&mut self, primitive: P)
        requires
            old(self).wf(),
            old(self)@.primitive_bounds.len() < u32::MAX,
            call_requires(P::into, (primitive,)),
        ensures
            final(self).wf(),
            exists|converted: Primitive<F>| #[trigger]
                call_ensures(P::into, (primitive,), converted) && final(self)@ == old(
                    self,
                )@.spec_insert_primitive(converted@),
    {
        let primitive: Primitive<F> = primitive.into();
        self.insert(primitive);
    }

    /// Paints one primitive, as [`Self::insert_primitive`] does.
    pub fn insert(&mut self, primitive: Primitive<F>)
        requires
            old(self).wf(),
            old(self)@.primitive_bounds.len() < u32::MAX,
        ensures
            final(self).wf(),
            final(self)@ == old(self)@.spec_insert_primitive(primitive@),
    {
        let ghost old_primitive = primitive@;
        let mut primitive = primitive;
        let clipped_bounds = primitive.bounds().intersect(&primitive.content_mask().bounds);
        if clipped_bounds.is_empty() {
            return;
        }
        if self.current_transition != 0 && primitive.transition() == 0 {
            primitive.set_transition(self.current_transition);
        }
        let order: u32 = if self.layer_stack.len() > 0 {
            self.layer_stack[self.layer_stack.len() - 1]
        } else {
            self.primitive_bounds.insert(clipped_bounds)
        };
        match &mut primitive {
            Primitive::Shadow(shadow) => {
                shadow.order = order;
                self.shadows.push(*shadow);
            },
            Primitive::Quad(quad) => {
                quad.order = order;
                self.quads.push(*quad);
            },
            Primitive::Path(path) => {
                path.order = order;
                path.id = PathId(self.paths.len());
                self.paths.push(path.duplicate());
            },
            Primitive::Underline(underline) => {
                underline.order = order;
                self.underlines.push(*underline);
            },
            Primitive::MonochromeSprite(sprite) => {
                sprite.order = order;
                self.monochrome_sprites.push(*sprite);
            },
            Primitive::SubpixelSprite(sprite) => {
                sprite.order = order;
                self.subpixel_sprites.push(*sprite);
            },
            Primitive::PolychromeSprite(sprite) => {
                sprite.order = order;
                self.polychrome_sprites.push(*sprite);
            },
            Primitive::Surface(surface) => {
                surface.order = order;
                self.surfaces.push(*surface);
            },
        }
        self.paint_operations.push(PaintOperation::Primitive(primitive));
        proof {
            assert(self@ =~= old(self)@.spec_insert_primitive(old_primitive));
        }
    }

    /// Registers an opacity cycle for one quad, returning the value its
    /// background's time animation should carry.
    pub fn push_quad_animation(&mut self, animation: QuadOpacityAnimation<F>) -> (id: u32)
        requires
            old(self).wf(),
            old(self)@.quad_animations.len() < u32::MAX,
        ensures
            final(self).wf(),
            (final(self)@, id) == old(self)@.spec_push_quad_animation(animation),
    {
        self.quad_animations.push(animation);
        self.quad_animations.len() as u32
    }

    /// Registers a sweep for sprites painted after this call, returning the
    /// value their effect's animation should carry.
    pub fn push_shimmer_animation(&mut self, animation: ShimmerAnimation<F>) -> (id: u32)
        requires
            old(self).wf(),
            old(self)@.shimmer_animations.len() < u32::MAX,
        ensures
            final(self).wf(),
            (final(self)@, id) == old(self)@.spec_push_shimmer_animation(animation),
    {
        self.shimmer_animations.push(animation);
        self.shimmer_animations.len() as u32
    }

    /// Registers a transition for primitives inserted until the next
    /// [`Self::set_current_transition`], returning its id, or `None` once the
    /// scene holds more than a quad's background can name.
    pub fn push_transition(&mut self, transition: SceneTransition<F>) -> (id: Option<u32>)
        requires
            old(self).wf(),
        ensures
            final(self).wf(),
            (final(self)@.transitions, id) == push_transition(old(self)@.transitions, transition),
            final(self)@ == (SceneModel { transitions: final(self)@.transitions, ..old(self)@ }),
    {
        if self.transitions.len() >= MAX_TIME_TRANSITION as usize {
            return None;
        }
        self.transitions.push(transition);
        Some(self.transitions.len() as u32)
    }

    /// Copies `transition` and the transitions it was pushed inside from
    /// `prev_scene`, parents first, so a replayed id always names a later
    /// entry than its parent's. `0` when the scene has run out of ids.
    pub fn remap_transition(
        &mut self,
        prev_scene: &Scene<F>,
        transition: u32,
        remapped: &mut Vec<(u32, u32)>,
    ) -> (id: u32)
        requires
            old(self).wf(),
            1 <= transition <= prev_scene@.transitions.len(),
            parents_come_first(prev_scene@.transitions),
        ensures
            final(self).wf(),
            (final(self)@.transitions, final(remapped)@, id) == remap_transition(
                old(self)@.transitions,
                old(remapped)@,
                prev_scene@.transitions,
                transition,
            ),
            final(self)@ == (SceneModel { transitions: final(self)@.transitions, ..old(self)@ }),
        decreases transition,
    {
        let mut i: usize = 0;
        while i < remapped.len()
            invariant
                i <= remapped@.len(),
                *remapped == *old(remapped),
                *self == *old(self),
                self.wf(),
                lookup(remapped@, transition, 0) == lookup(remapped@, transition, i as int),
            decreases remapped@.len() - i,
        {
            if remapped[i].0 == transition {
                return remapped[i].1;
            }
            i = i + 1;
        }
        let mut entry = prev_scene.transitions[transition as usize - 1];
        proof {
            assert(prev_scene@.transitions[transition - 1].parent <= transition - 1);
        }
        if entry.parent != 0 {
            entry.parent = self.remap_transition(prev_scene, entry.parent, remapped);
        }
        let id: u32 = match self.push_transition(entry) {
            Some(id) => id,
            None => 0,
        };
        remapped.push((transition, id));
        id
    }

    /// The transition primitives are being stamped with, `0` for none.
    pub fn current_transition(&self) -> (result: u32)
        ensures
            result == self@.current_transition,
    {
        self.current_transition
    }

    /// Stamps primitives inserted from now on with `transition` (`0` for
    /// none), returning the one that was current.
    pub fn set_current_transition(&mut self, transition: u32) -> (previous: u32)
        requires
            old(self).wf(),
        ensures
            final(self).wf(),
            previous == old(self)@.current_transition,
            final(self)@ == (SceneModel { current_transition: transition, ..old(self)@ }),
    {
        let previous: u32 = self.current_transition;
        self.current_transition = transition;
        previous
    }

    /// Paints a part of another scene again, with its sweeps, opacity cycles
    /// and transitions. Every glyph of one shimmering label names the same
    /// sweep, so the label's glyphs share one copied entry rather than one each.
    #[verifier::rlimit(40)]
    pub fn replay(&mut self, range: Range<usize>, prev_scene: &Scene<F>)
        requires
            old(self).wf(),
            range.start <= range.end <= prev_scene@.paint_operations.len(),
            parents_come_first(prev_scene@.transitions),
            forall|i: int|
                range.start <= i < range.end ==> prev_scene@.step_names_entries(
                    #[trigger] prev_scene@.paint_operations[i],
                ),
            old(self)@.primitive_bounds.len() + (range.end - range.start) <= u32::MAX,
            old(self)@.quad_animations.len() + (range.end - range.start) <= u32::MAX,
            old(self)@.shimmer_animations.len() + (range.end - range.start) <= u32::MAX,
        ensures
            final(self).wf(),
            final(self)@ == ReplayModel::spec_start(old(self)@).replay_steps(
                prev_scene@,
                prev_scene@.paint_operations.subrange(range.start as int, range.end as int),
            ).scene,
    {
        let ghost prev = prev_scene@;
        let ghost start = ReplayModel::spec_start(self@);
        let ghost operations = prev.paint_operations.subrange(
            range.start as int,
            range.end as int,
        );
        let mut sweep: (u32, u32) = (0, 0);
        let mut remapped: Vec<(u32, u32)> = Vec::new();
        let mut i: usize = range.start;
        proof {
            assert(remapped@ =~= Seq::<(u32, u32)>::empty());
            assert(operations.take(0) =~= Seq::<PaintOperationModel<F>>::empty());
        }
        while i < range.end
            invariant
                range.start <= i <= range.end,
                range.end <= prev.paint_operations.len(),
                prev == prev_scene@,
                self.wf(),
                operations == prev.paint_operations.subrange(
                    range.start as int,
                    range.end as int,
                ),
                parents_come_first(prev.transitions),
                forall|i: int|
                    range.start <= i < range.end ==> prev.step_names_entries(
                        #[trigger] prev.paint_operations[i],
                    ),
                self@.primitive_bounds.len() + (range.end - i) <= u32::MAX,
                self@.quad_animations.len() + (range.end - i) <= u32::MAX,
                self@.shimmer_animations.len() + (range.end - i) <= u32::MAX,
                (ReplayModel { scene: self@, sweep, remapped: remapped@ }) == start.replay_steps(
                    prev,
                    operations.take(i - range.start),
                ),
            decreases range.end - i,
        {
            let ghost before = ReplayModel { scene: self@, sweep, remapped: remapped@ };
            let ghost step = prev.paint_operations[i as int];
            proof {
                let done = operations.take(i - range.start);
                let next = operations.take(i + 1 - range.start);
                assert(next.drop_last() =~= done);
                assert(next.last() == step);
                assert(prev.step_names_entries(step));
            }
            match &prev_scene.paint_operations[i] {
                PaintOperation::Primitive(primitive) => {
                    let mut primitive = primitive.duplicate();
                    let ghost primitive_0 = primitive@;
                    let transition: u32 = primitive.transition();
                    if transition != 0 {
                        let id: u32 = self.remap_transition(prev_scene, transition, &mut remapped);
                        primitive.set_transition(id);
                    }
                    let ghost state_1 = ReplayModel { scene: self@, sweep, remapped: remapped@ };
                    proof {
                        assert(before.copy_transition(prev, primitive_0) == (
                            state_1,
                            primitive@,
                        ));
                    }
                    let ghost primitive_1 = primitive@;
                    let cycle: u32 = primitive.quad_animation();
                    if cycle != 0 {
                        let id: u32 = self.push_quad_animation(
                            prev_scene.quad_animations[cycle as usize - 1],
                        );
                        primitive.set_quad_animation(id);
                    }
                    let ghost state_2 = ReplayModel { scene: self@, sweep, remapped: remapped@ };
                    proof {
                        assert(state_1.copy_quad_animation(prev, primitive_1) == (
                            state_2,
                            primitive@,
                        ));
                    }
                    let ghost primitive_2 = primitive@;
                    let animation: u32 = primitive.shimmer_animation();
                    if animation != 0 {
                        if sweep.0 != animation {
                            let id: u32 = self.push_shimmer_animation(
                                prev_scene.shimmer_animations[animation as usize - 1],
                            );
                            sweep = (animation, id);
                        }
                        primitive.set_shimmer_animation(sweep.1);
                    }
                    let ghost state_3 = ReplayModel { scene: self@, sweep, remapped: remapped@ };
                    proof {
                        assert(state_2.copy_shimmer_animation(prev, primitive_2) == (
                            state_3,
                            primitive@,
                        ));
                    }
                    self.insert(primitive);
                },
                PaintOperation::StartLayer(bounds) => self.push_layer(*bounds),
                PaintOperation::EndLayer => self.pop_layer(),
            }
            proof {
                assert((ReplayModel { scene: self@, sweep, remapped: remapped@ })
                    == before.replay_step(prev, step));
            }
            i = i + 1;
        }
        proof {
            assert(operations.take(range.end - range.start) =~= operations);
        }
    }

    /// Puts the primitives of each kind in draw order, assigns the quads to the
    /// opaque and the blended pass, and finds everything that moves with time.
    pub fn finish(&mut self, partitioning: &QuadPartitioning)
        requires
            old(self).wf(),
            old(self)@.countable(),
            old(self)@.transitions_end(),
        ensures
            final(self).wf(),
            final(self)@ == old(self)@.spec_finish(partitioning.enabled),
    {
        let ghost paths_0 = self.paths@;
        sort_by_key(&mut self.shadows);
        sort_by_key(&mut self.quads);
        sort_by_key(&mut self.paths);
        sort_by_key(&mut self.underlines);
        sort_by_key(&mut self.monochrome_sprites);
        sort_by_key(&mut self.subpixel_sprites);
        sort_by_key(&mut self.polychrome_sprites);
        sort_by_key(&mut self.surfaces);
        proof {
            lemma_stable_sort_map(paths_0, |path: Path<F>| path@);
            law_stable_sort(old(self).shadows@);
            law_stable_sort(old(self).quads@);
            law_stable_sort(old(self).underlines@);
            law_stable_sort(old(self).monochrome_sprites@);
            law_stable_sort(old(self).subpixel_sprites@);
            law_stable_sort(old(self).polychrome_sprites@);
            assert(self@ =~= old(self)@.sorted());
        }
        self.partition_quads(partitioning);
        self.find_animated();
        self.gather_transitioned();
    }

    fn partition_quads(&mut self, partitioning: &QuadPartitioning)
        requires
            old(self).wf(),
            old(self)@.quads.len() <= u32::MAX,
        ensures
            final(self).wf(),
            final(self)@ == old(self)@.spec_partition_quads(partitioning.enabled),
    {
        self.blended_quad_indices.clear();
        self.opaque_quad_indices.clear();
        let enabled: bool = partitioning.enabled && self.quads.len()
            <= MAX_DEPTH_PARTITIONED_QUADS;
        let mut i: usize = 0;
        while i < self.quads.len()
            invariant
                self.wf(),
                i <= self.quads@.len() <= u32::MAX,
                enabled == (partitioning.enabled && self.quads@.len()
                    <= MAX_DEPTH_PARTITIONED_QUADS),
                self.blended_quad_indices@ == indices_where(
                    i as nat,
                    takes_blended_pass(self.quads@, partitioning.enabled),
                ),
                self.opaque_quad_indices@ == indices_where(
                    i as nat,
                    takes_opaque_pass(self.quads@, partitioning.enabled),
                ),
                self@ == (SceneModel {
                    blended_quad_indices: self.blended_quad_indices@,
                    opaque_quad_indices: self.opaque_quad_indices@,
                    ..old(self)@
                }),
            decreases self.quads@.len() - i,
        {
            let quad = &self.quads[i];
            let has_opaque_core: bool = enabled && quad.background.time_animation() == 0
                && quad.background.time_transition() == 0 && quad.has_opaque_core();
            let blended: bool = !has_opaque_core || quad.has_rounded_corners();
            if has_opaque_core {
                self.opaque_quad_indices.push(i as u32);
            }
            if blended {
                self.blended_quad_indices.push(i as u32);
            }
            i = i + 1;
        }
        // Opaque quads are drawn front-to-back in the depth-writing pass.
        reverse(&mut self.opaque_quad_indices);
    }

    fn find_animated(&mut self)
        requires
            old(self).wf(),
            old(self)@.countable(),
        ensures
            final(self).wf(),
            final(self)@ == old(self)@.with_animated(),
    {
        self.animated_monochrome_sprites.clear();
        let mut i: usize = 0;
        while i < self.monochrome_sprites.len()
            invariant
                self.wf(),
                i <= self.monochrome_sprites@.len() <= u32::MAX,
                self.animated_monochrome_sprites@ == indices_where(
                    i as nat,
                    monochrome_sweeps(self.monochrome_sprites@),
                ),
                self@ == (SceneModel {
                    animated_monochrome_sprites: self.animated_monochrome_sprites@,
                    ..old(self)@
                }),
            decreases self.monochrome_sprites@.len() - i,
        {
            if self.monochrome_sprites[i].effect.animation != 0 {
                self.animated_monochrome_sprites.push(i as u32);
            }
            i = i + 1;
        }
        self.animated_subpixel_sprites.clear();
        let ghost middle = self@;
        i = 0;
        while i < self.subpixel_sprites.len()
            invariant
                self.wf(),
                i <= self.subpixel_sprites@.len() <= u32::MAX,
                self.animated_subpixel_sprites@ == indices_where(
                    i as nat,
                    subpixel_sweeps(self.subpixel_sprites@),
                ),
                self@ == (SceneModel {
                    animated_subpixel_sprites: self.animated_subpixel_sprites@,
                    ..middle
                }),
            decreases self.subpixel_sprites@.len() - i,
        {
            if self.subpixel_sprites[i].effect.animation != 0 {
                self.animated_subpixel_sprites.push(i as u32);
            }
            i = i + 1;
        }
        self.animated_quads.clear();
        let ghost late = self@;
        i = 0;
        while i < self.quads.len()
            invariant
                self.wf(),
                i <= self.quads@.len() <= u32::MAX,
                self.animated_quads@ == indices_where(i as nat, quad_cycles(self.quads@)),
                self@ == (SceneModel { animated_quads: self.animated_quads@, ..late }),
            decreases self.quads@.len() - i,
        {
            if self.quads[i].background.time_animation() != 0 {
                self.animated_quads.push(i as u32);
            }
            i = i + 1;
        }
    }

    fn gather_transitioned(&mut self)
        requires
            old(self).wf(),
            old(self)@.countable(),
            old(self)@.transitions_end(),
        ensures
            final(self).wf(),
            final(self)@ == old(self)@.spec_gather_transitioned(),
    {
        self.transitioned.clear();
        self.transitions_end_at = None;
        if self.transitions.len() == 0 {
            return;
        }
        gather(&self.monochrome_sprites, &mut self.transitioned);
        gather(&self.subpixel_sprites, &mut self.transitioned);
        gather(&self.polychrome_sprites, &mut self.transitioned);
        gather(&self.underlines, &mut self.transitioned);
        gather(&self.shadows, &mut self.transitioned);
        gather(&self.quads, &mut self.transitioned);
        proof {
            assert(self.transitioned@ =~= old(self)@.all_targets());
        }
        let ghost gathered = self@;
        let mut i: usize = 0;
        while i < self.transitions.len()
            invariant
                self.wf(),
                i <= self.transitions@.len(),
                self@.transitions_end(),
                self.transitions_end_at == last_end(self.transitions@, i as nat),
                self@ == (SceneModel { transitions_end_at: self.transitions_end_at, ..gathered }),
            decreases self.transitions@.len() - i,
        {
            proof {
                assert(self@.transitions[i as int].transition.spec_ends_at() <= u64::MAX);
            }
            let end: u64 = self.transitions[i].transition.ends_at();
            self.transitions_end_at = Some(
                match self.transitions_end_at {
                    Some(rest) => if rest > end {
                        rest
                    } else {
                        end
                    },
                    None => end,
                },
            );
            i = i + 1;
        }
    }
}

impl<F: Scalar> Scene<F> {
    /// Whether a transition this scene carries has yet to land at `now`, so
    /// presenting it again shows something new every frame rather than at the
    /// slower time-animation rate.
    pub fn transitions_in_flight(&self, now: u64) -> (result: bool)
        ensures
            result == self@.spec_transitions_in_flight(now),
    {
        self.transitioned.len() > 0 && match self.transitions_end_at {
            Some(end) => now < end,
            None => false,
        }
    }

    /// Whether anything in this finished scene moves with time on its own, so
    /// presenting it again after `now` shows something new.
    pub fn has_time_animations(&self, now: u64) -> (result: bool)
        ensures
            result == self@.spec_has_time_animations(now),
    {
        self.animated_monochrome_sprites.len() > 0 || self.animated_subpixel_sprites.len() > 0
            || self.animated_quads.len() > 0 || self.transitions_in_flight(now)
    }

    /// Moves every time-driven primitive of this finished scene to where it is
    /// at `now`. Called before each present, so a frame replayed from a cached
    /// view shows the current phase rather than the one it was painted at.
    ///
    /// `elapsed` is how long the clock that opacity cycles share has run, and
    /// `sweeps` how far each of the scene's shimmer animations has got.
    pub fn advance_time_animations(&mut self, now: u64, elapsed: u64, sweeps: &Vec<F>)
        requires
            old(self).wf(),
            old(self)@.presentable(),
            sweeps@.len() == old(self)@.shimmer_animations.len(),
        ensures
            final(self).wf(),
            final(self)@ == old(self)@.spec_advance_time_animations(now, elapsed, sweeps@),
    {
        if !self.has_time_animations(now) && self.transitioned.len() == 0 {
            return;
        }
        self.sweep_monochrome_sprites(sweeps);
        self.sweep_subpixel_sprites(sweeps);
        self.cycle_quads(elapsed);
        proof {
            let before = old(self)@;
            assert(self@ =~= before.with_cycles(elapsed, sweeps@));
            assert forall|i: int| 0 <= i < self@.transitioned.len() implies self@.target_exists(
                #[trigger] self@.transitioned[i],
            ) by {
                assert(before.target_exists(before.transitioned[i]));
            }
        }
        self.advance_transitions(now);
    }

    fn sweep_monochrome_sprites(&mut self, sweeps: &Vec<F>)
        requires
            old(self).wf(),
            old(self)@.presentable(),
            sweeps@.len() == old(self)@.shimmer_animations.len(),
        ensures
            final(self).wf(),
            final(self)@ == (SceneModel {
                monochrome_sprites: old(self)@.swept_monochrome(
                    old(self)@.animated_monochrome_sprites,
                    sweeps@,
                ),
                ..old(self)@
            }),
    {
        let ghost before = self@;
        let mut i: usize = 0;
        proof {
            let none = before.animated_monochrome_sprites.take(0);
            assert(self.monochrome_sprites@ =~= before.swept_monochrome(none, sweeps@));
        }
        while i < self.animated_monochrome_sprites.len()
            invariant
                self.wf(),
                before.presentable(),
                sweeps@.len() == before.shimmer_animations.len(),
                i <= before.animated_monochrome_sprites.len(),
                self@ == (SceneModel {
                    monochrome_sprites: before.swept_monochrome(
                        before.animated_monochrome_sprites.take(i as int),
                        sweeps@,
                    ),
                    ..before
                }),
            decreases before.animated_monochrome_sprites.len() - i,
        {
            let index: usize = self.animated_monochrome_sprites[i] as usize;
            let ghost done = before.animated_monochrome_sprites.take(i as int);
            let ghost next = before.animated_monochrome_sprites.take(i + 1);
            proof {
                assert(before.animated_monochrome_sprites[i as int] == index);
                assert(self@.monochrome_sprites[index as int].effect.animation
                    == before.monochrome_sprites[index as int].effect.animation);
            }
            let mut sprite = self.monochrome_sprites[index];
            let sweep: usize = sprite.effect.animation as usize - 1;
            sprite.effect.band_origin = self.shimmer_animations[sweep].band_origin(sweeps[sweep]);
            self.monochrome_sprites[index] = sprite;
            proof {
                assert(next =~= done.push(index as u32));
                lemma_lists_push(done, index as u32);
                assert(self.monochrome_sprites@ =~= before.swept_monochrome(next, sweeps@));
            }
            i = i + 1;
        }
        proof {
            assert(before.animated_monochrome_sprites.take(i as int)
                =~= before.animated_monochrome_sprites);
        }
    }

    fn sweep_subpixel_sprites(&mut self, sweeps: &Vec<F>)
        requires
            old(self).wf(),
            old(self)@.presentable(),
            sweeps@.len() == old(self)@.shimmer_animations.len(),
        ensures
            final(self).wf(),
            final(self)@ == (SceneModel {
                subpixel_sprites: old(self)@.swept_subpixel(
                    old(self)@.animated_subpixel_sprites,
                    sweeps@,
                ),
                ..old(self)@
            }),
    {
        let ghost before = self@;
        let mut i: usize = 0;
        proof {
            let none = before.animated_subpixel_sprites.take(0);
            assert(self.subpixel_sprites@ =~= before.swept_subpixel(none, sweeps@));
        }
        while i < self.animated_subpixel_sprites.len()
            invariant
                self.wf(),
                before.presentable(),
                sweeps@.len() == before.shimmer_animations.len(),
                i <= before.animated_subpixel_sprites.len(),
                self@ == (SceneModel {
                    subpixel_sprites: before.swept_subpixel(
                        before.animated_subpixel_sprites.take(i as int),
                        sweeps@,
                    ),
                    ..before
                }),
            decreases before.animated_subpixel_sprites.len() - i,
        {
            let index: usize = self.animated_subpixel_sprites[i] as usize;
            let ghost done = before.animated_subpixel_sprites.take(i as int);
            let ghost next = before.animated_subpixel_sprites.take(i + 1);
            proof {
                assert(before.animated_subpixel_sprites[i as int] == index);
                assert(self@.subpixel_sprites[index as int].effect.animation
                    == before.subpixel_sprites[index as int].effect.animation);
            }
            let mut sprite = self.subpixel_sprites[index];
            let sweep: usize = sprite.effect.animation as usize - 1;
            sprite.effect.band_origin = self.shimmer_animations[sweep].band_origin(sweeps[sweep]);
            self.subpixel_sprites[index] = sprite;
            proof {
                assert(next =~= done.push(index as u32));
                lemma_lists_push(done, index as u32);
                assert(self.subpixel_sprites@ =~= before.swept_subpixel(next, sweeps@));
            }
            i = i + 1;
        }
        proof {
            assert(before.animated_subpixel_sprites.take(i as int)
                =~= before.animated_subpixel_sprites);
        }
    }

    fn cycle_quads(&mut self, elapsed: u64)
        requires
            old(self).wf(),
            forall|i: int|
                #![trigger old(self)@.animated_quads[i]]
                0 <= i < old(self)@.animated_quads.len() ==> {
                    let index = old(self)@.animated_quads[i] as int;
                    &&& index < old(self)@.quads.len()
                    &&& 1 <= old(self)@.quads[index].background.animation
                        <= old(self)@.quad_animations.len()
                },
        ensures
            final(self).wf(),
            final(self)@ == (SceneModel {
                quads: old(self)@.cycled_quads(old(self)@.animated_quads, elapsed),
                ..old(self)@
            }),
    {
        let ghost before = self@;
        let mut i: usize = 0;
        proof {
            let none = before.animated_quads.take(0);
            assert(self.quads@ =~= before.cycled_quads(none, elapsed));
        }
        while i < self.animated_quads.len()
            invariant
                self.wf(),
                forall|i: int|
                    #![trigger before.animated_quads[i]]
                    0 <= i < before.animated_quads.len() ==> {
                        let index = before.animated_quads[i] as int;
                        &&& index < before.quads.len()
                        &&& 1 <= before.quads[index].background.animation
                            <= before.quad_animations.len()
                    },
                i <= before.animated_quads.len(),
                self@ == (SceneModel {
                    quads: before.cycled_quads(before.animated_quads.take(i as int), elapsed),
                    ..before
                }),
            decreases before.animated_quads.len() - i,
        {
            let index: usize = self.animated_quads[i] as usize;
            let ghost done = before.animated_quads.take(i as int);
            let ghost next = before.animated_quads.take(i + 1);
            proof {
                assert(before.animated_quads[i as int] == index);
                assert(self@.quads[index as int].background.animation
                    == before.quads[index as int].background.animation);
            }
            let mut quad = self.quads[index];
            let id: u32 = quad.background.time_animation();
            let animation = &self.quad_animations[id as usize - 1];
            let opacity = animation.cycle.current_opacity(elapsed);
            quad.background = animation.background.opacity(opacity).with_time_animation(id);
            quad.border_color = animation.border_color.opacity(opacity);
            self.quads[index] = quad;
            proof {
                assert(next =~= done.push(index as u32));
                lemma_lists_push(done, index as u32);
                assert(self.quads@ =~= before.cycled_quads(next, elapsed));
            }
            i = i + 1;
        }
        proof {
            assert(before.animated_quads.take(i as int) =~= before.animated_quads);
        }
    }

    /// Moves and fades everything that transitions cover to where it is at
    /// `now`. Parents are always pushed before the transitions inside them, so
    /// one pass in order composes every chain.
    pub fn advance_transitions(&mut self, now: u64)
        requires
            old(self).wf(),
            parents_come_first(old(self)@.transitions),
            forall|i: int|
                0 <= i < old(self)@.transitioned.len() ==> old(self)@.target_exists(
                    #[trigger] old(self)@.transitioned[i],
                ),
        ensures
            final(self).wf(),
            final(self)@ == old(self)@.spec_advance_transitions(now),
    {
        if self.transitioned.len() == 0 {
            return;
        }
        let ghost before = self@;
        self.transition_states.clear();
        let mut i: usize = 0;
        while i < self.transitions.len()
            invariant
                self.wf(),
                self@ == before,
                parents_come_first(before.transitions),
                i <= before.transitions.len(),
                self.transition_states@.len() == i,
                forall|k: int|
                    0 <= k < i ==> (#[trigger] self.transition_states@[k]) == composed_state(
                        before.transitions,
                        k,
                        now,
                    ),
            decreases before.transitions.len() - i,
        {
            let transition = self.transitions[i];
            proof {
                assert(before.transitions[i as int].parent <= i);
            }
            let offset = transition.offset_at(now);
            let opacity = transition.transition.opacity_at(now);
            let composed = if transition.parent == 0 {
                (offset, opacity)
            } else {
                let (outer_offset, outer_opacity) =
                    self.transition_states[transition.parent as usize - 1];
                (offset.plus(outer_offset), opacity.times(outer_opacity))
            };
            self.transition_states.push(composed);
            i = i + 1;
        }
        i = 0;
        while i < self.transitioned.len()
            invariant
                self.wf(),
                i <= before.transitioned.len(),
                self@ == before.with_moved(now, i as nat),
                self@.transitioned == before.transitioned,
                self@.transitions == before.transitions,
                same_counts(self@, before),
                forall|i: int|
                    0 <= i < before.transitioned.len() ==> before.target_exists(
                        #[trigger] before.transitioned[i],
                    ),
                self.transition_states@.len() == before.transitions.len(),
                forall|k: int|
                    0 <= k < before.transitions.len() ==> (#[trigger] self.transition_states@[k])
                        == composed_state(before.transitions, k, now),
            decreases before.transitioned.len() - i,
        {
            let primitive = self.transitioned[i];
            proof {
                assert(before.target_exists(before.transitioned[i as int]));
            }
            let (offset, opacity) = self.transition_states[primitive.transition as usize - 1];
            self.move_primitive(primitive, offset, opacity);
            i = i + 1;
        }
    }

    fn move_primitive(&mut self, primitive: TransitionedPrimitive<F>, offset: Point<F>, opacity: F)
        requires
            old(self).wf(),
            old(self)@.target_exists(primitive),
        ensures
            final(self).wf(),
            final(self)@ == old(self)@.moved(primitive, offset, opacity),
            final(self).transition_states == old(self).transition_states,
    {
        match primitive.target {
            TransitionTarget::MonochromeSprite { index, origin, alpha } => {
                let mut sprite = self.monochrome_sprites[index as usize];
                sprite.bounds.origin = origin.plus(offset);
                sprite.color.a = alpha.times(opacity);
                self.monochrome_sprites[index as usize] = sprite;
            },
            TransitionTarget::SubpixelSprite { index, origin, alpha } => {
                let mut sprite = self.subpixel_sprites[index as usize];
                sprite.bounds.origin = origin.plus(offset);
                sprite.color.a = alpha.times(opacity);
                self.subpixel_sprites[index as usize] = sprite;
            },
            TransitionTarget::PolychromeSprite { index, origin, opacity: painted } => {
                let mut sprite = self.polychrome_sprites[index as usize];
                sprite.bounds.origin = origin.plus(offset);
                sprite.opacity = painted.times(opacity);
                self.polychrome_sprites[index as usize] = sprite;
            },
            TransitionTarget::Underline { index, origin, alpha } => {
                let mut underline = self.underlines[index as usize];
                underline.bounds.origin = origin.plus(offset);
                underline.color.a = alpha.times(opacity);
                self.underlines[index as usize] = underline;
            },
            TransitionTarget::Shadow { index, origin, element_origin, alpha } => {
                let mut shadow = self.shadows[index as usize];
                shadow.bounds.origin = origin.plus(offset);
                shadow.element_bounds.origin = element_origin.plus(offset);
                shadow.color.a = alpha.times(opacity);
                self.shadows[index as usize] = shadow;
            },
            TransitionTarget::Quad { index, origin, background, border_color } => {
                let mut quad = self.quads[index as usize];
                quad.bounds.origin = origin.plus(offset);
                // An opacity cycle has just reset this quad's colors from its
                // own rest state; anything else starts from the colors it was
                // painted with, so neither compounds per present.
                let (background, border_color) = if quad.background.time_animation() != 0 {
                    (quad.background, quad.border_color)
                } else {
                    (background, border_color)
                };
                quad.background = background.opacity(opacity).with_time_transition(
                    primitive.transition,
                );
                quad.border_color = border_color.opacity(opacity);
                self.quads[index as usize] = quad;
            },
        }
    }
}

/// Whether two scenes hold as many primitives of each kind that transitions move.
pub open spec fn same_counts<F: Scalar>(a: SceneModel<F>, b: SceneModel<F>) -> bool {
    &&& a.shadows.len() == b.shadows.len()
    &&& a.quads.len() == b.quads.len()
    &&& a.underlines.len() == b.underlines.len()
    &&& a.monochrome_sprites.len() == b.monochrome_sprites.len()
    &&& a.subpixel_sprites.len() == b.subpixel_sprites.len()
    &&& a.polychrome_sprites.len() == b.polychrome_sprites.len()
}

proof fn lemma_lists_push(indices: Seq<u32>, index: u32)
    ensures
        forall|i: int| #[trigger]
            lists(indices.push(index), i) <==> lists(indices, i) || i == index,
{
    let pushed = indices.push(index);
    assert forall|i: int| #[trigger] lists(pushed, i) <==> lists(indices, i) || i == index by {
        if lists(indices, i) {
            let k = choose|k: int| 0 <= k < indices.len() && indices[k] == i;
            assert(pushed[k] == i);
        }
        if i == index {
            assert(pushed[indices.len() as int] == i);
        }
        if lists(pushed, i) {
            let k = choose|k: int| 0 <= k < pushed.len() && pushed[k] == i;
            if k < indices.len() {
                assert(indices[k] == i);
            }
        }
    }
}

/// Appends everything among `items` that a transition moves.
fn gather<F: Scalar, T: Transitioned<F>>(
    items: &Vec<T>,
    transitioned: &mut Vec<TransitionedPrimitive<F>>,
)
    requires
        items@.len() <= u32::MAX,
    ensures
        final(transitioned)@ == old(transitioned)@ + targets(items@, items@.len()),
{
    let mut i: usize = 0;
    proof {
        assert(transitioned@ =~= old(transitioned)@ + targets::<F, T>(items@, 0));
    }
    while i < items.len()
        invariant
            i <= items@.len() <= u32::MAX,
            transitioned@ == old(transitioned)@ + targets(items@, i as nat),
        decreases items@.len() - i,
    {
        let item = items[i].transitioned(i as u32);
        if item.transition != 0 {
            transitioned.push(item);
        }
        i = i + 1;
        proof {
            assert(transitioned@ =~= old(transitioned)@ + targets(items@, i as nat));
        }
    }
}

/// Whether quads may take the opaque pass.
///
/// Renderers whose instance transport cannot express the quad index
/// indirection (the WebGL2 texture path) disable it at startup; with the depth
/// buffer cleared to zero and a strict greater-than test, the blended-only walk
/// paints in painter's order and renders identically to the partitioned scheme.
#[derive(Clone, Copy, Debug, PartialEq, Eq, Structural)]
pub struct QuadPartitioning {
    /// Whether quads may take the opaque pass.
    pub enabled: bool,
}

impl QuadPartitioning {
    /// Quads may take the opaque pass.
    pub fn new() -> (result: Self)
        ensures
            result.enabled,
    {
        QuadPartitioning { enabled: true }
    }
}

impl<F: Scalar> Default for Scene<F> {
    fn default() -> (result: Self)
        ensures
            result.wf(),
            result@ == SceneModel::<F>::spec_empty(),
    {
        Scene::new()
    }
}

impl Default for QuadPartitioning {
    fn default() -> (result: Self)
        ensures
            result.enabled,
    {
        QuadPartitioning::new()
    }
}

/// Routes every quad through the blended back-to-front pass, leaving the
/// opaque front-to-back depth prepass empty.
pub fn disable_opaque_quad_partitioning(partitioning: &mut QuadPartitioning)
    ensures
        !final(partitioning).enabled,
{
    partitioning.enabled = false;
}

impl<F: Scalar> ReadSortKey for Shadow<F> {
    fn read_sort_key(&self) -> (result: u64) {
        self.order as u64
    }
}

impl<F: Scalar> ReadSortKey for Quad<F> {
    fn read_sort_key(&self) -> (result: u64) {
        self.order as u64
    }
}

impl<F: Scalar> SortKey for Path<F> {
    open spec fn sort_key(self) -> u64 {
        self.order as u64
    }
}

impl<F: Scalar> ReadSortKey for Path<F> {
    fn read_sort_key(&self) -> (result: u64) {
        self.order as u64
    }
}

impl<F: Scalar> ReadSortKey for Underline<F> {
    fn read_sort_key(&self) -> (result: u64) {
        self.order as u64
    }
}

impl<F: Scalar> ReadSortKey for MonochromeSprite<F> {
    fn read_sort_key(&self) -> (result: u64) {
        self.order as u64 * 0x1_0000_0000 + self.tile.tile_id.0 as u64
    }
}

impl<F: Scalar> ReadSortKey for SubpixelSprite<F> {
    fn read_sort_key(&self) -> (result: u64) {
        self.order as u64 * 0x1_0000_0000 + self.tile.tile_id.0 as u64
    }
}

impl<F: Scalar> ReadSortKey for PolychromeSprite<F> {
    fn read_sort_key(&self) -> (result: u64) {
        self.order as u64 * 0x1_0000_0000 + self.tile.tile_id.0 as u64
    }
}

impl<F: Scalar> ReadSortKey for PaintSurface<F> {
    fn read_sort_key(&self) -> (result: u64) {
        self.order as u64
    }
}

} // verus!
