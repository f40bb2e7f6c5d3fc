//! Telling whether a scene can be presented.
use vstd::prelude::*;

use crate::scalar::Scalar;
use crate::scene::Scene;
use crate::scene_model::{parents_come_first, TransitionTarget, TransitionedPrimitive};

verus! {

impl<F: Scalar> Scene<F> {
    fn has_target(&self, primitive: &TransitionedPrimitive<F>) -> (result: bool)
        ensures
            result == self@.target_exists(*primitive),
    {
        1 <= primitive.transition && primitive.transition as usize <= self.transitions.len()
            && match primitive.target {
            TransitionTarget::MonochromeSprite { index, .. } => (index as usize)
                < self.monochrome_sprites.len(),
            TransitionTarget::SubpixelSprite { index, .. } => (index as usize)
                < self.subpixel_sprites.len(),
            TransitionTarget::PolychromeSprite { index, .. } => (index as usize)
                < self.polychrome_sprites.len(),
            TransitionTarget::Underline { index, .. } => (index as usize) < self.underlines.len(),
            TransitionTarget::Shadow { index, .. } => (index as usize) < self.shadows.len(),
            TransitionTarget::Quad { index, .. } => (index as usize) < self.quads.len(),
        }
    }

    /// Whether everything that was found to move with time exists, together with what
    /// moves it. A scene that was painted with ids of its own and finished always can be
    /// presented.
    pub fn is_presentable(&self) -> (result: bool)
        ensures
            result == self@.presentable(),
    {
        let mut i: usize = 0;
        while i < self.transitions.len()
            invariant
                i <= self.transitions@.len(),
                forall|k: int| 0 <= k < i ==> (#[trigger] self.transitions@[k]).parent <= k,
            decreases self.transitions@.len() - i,
        {
            if self.transitions[i].parent as usize > i {
                proof {
                    assert(self@.transitions[i as int].parent > i);
                }
                return false;
            }
            i = i + 1;
        }
        i = 0;
        while i < self.transitioned.len()
            invariant
                parents_come_first(self.transitions@),
                i <= self.transitioned@.len(),
                forall|k: int|
                    0 <= k < i ==> self@.target_exists(#[trigger] self.transitioned@[k]),
            decreases self.transitioned@.len() - i,
        {
            if !self.has_target(&self.transitioned[i]) {
                proof {
                    assert(!self@.target_exists(self@.transitioned[i as int]));
                }
                return false;
            }
            i = i + 1;
        }
        i = 0;
        while i < self.animated_monochrome_sprites.len()
            invariant
                i <= self.animated_monochrome_sprites@.len(),
                forall|k: int|
                    #![trigger self.animated_monochrome_sprites@[k]]
                    0 <= k < i ==> {
                        let index = self.animated_monochrome_sprites@[k] as int;
                        &&& index < self.monochrome_sprites@.len()
                        &&& 1 <= self.monochrome_sprites@[index].effect.animation
                            <= self.shimmer_animations@.len()
                    },
            decreases self.animated_monochrome_sprites@.len() - i,
        {
            let index: usize = self.animated_monochrome_sprites[i] as usize;
            if index >= self.monochrome_sprites.len()
                || self.monochrome_sprites[index].effect.animation < 1
                || self.monochrome_sprites[index].effect.animation as usize
                > self.shimmer_animations.len() {
                proof {
                    assert(self@.animated_monochrome_sprites[i as int] == index);
                }
                return false;
            }
            i = i + 1;
        }
        i = 0;
        while i < self.animated_subpixel_sprites.len()
            invariant
                i <= self.animated_subpixel_sprites@.len(),
                forall|k: int|
                    #![trigger self.animated_subpixel_sprites@[k]]
                    0 <= k < i ==> {
                        let index = self.animated_subpixel_sprites@[k] as int;
                        &&& index < self.subpixel_sprites@.len()
                        &&& 1 <= self.subpixel_sprites@[index].effect.animation
                            <= self.shimmer_animations@.len()
                    },
            decreases self.animated_subpixel_sprites@.len() - i,
        {
            let index: usize = self.animated_subpixel_sprites[i] as usize;
            if index >= self.subpixel_sprites.len()
                || self.subpixel_sprites[index].effect.animation < 1
                || self.subpixel_sprites[index].effect.animation as usize
                > self.shimmer_animations.len() {
                proof {
                    assert(self@.animated_subpixel_sprites[i as int] == index);
                }
                return false;
            }
            i = i + 1;
        }
        i = 0;
        while i < self.animated_quads.len()
            invariant
                i <= self.animated_quads@.len(),
                forall|k: int|
                    #![trigger self.animated_quads@[k]]
                    0 <= k < i ==> {
                        let index = self.animated_quads@[k] as int;
                        &&& index < self.quads@.len()
                        &&& 1 <= self.quads@[index].background.animation
                            <= self.quad_animations@.len()
                    },
            decreases self.animated_quads@.len() - i,
        {
            let index: usize = self.animated_quads[i] as usize;
            if index >= self.quads.len() || self.quads[index].background.animation < 1
                || self.quads[index].background.animation as usize > self.quad_animations.len() {
                proof {
                    assert(self@.animated_quads[i as int] == index);
                }
                return false;
            }
            i = i + 1;
        }
        true
    }
}

} // verus!
