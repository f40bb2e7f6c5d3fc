//! Presenting a scene again and again starts from rest every time.
use vstd::prelude::*;

use crate::color::Hsla;
use crate::geometry::{Bounds, Point};
use crate::primitives::{
    MonochromeSprite, PolychromeSprite, Quad, Shadow, SubpixelSprite, Underline,
};
use crate::scalar::Scalar;
use crate::scene_model::{
    composed_state, lists, SceneModel, TransitionTarget, TransitionedPrimitive,
};

verus! {

/// Whether two sprites differ at most in what a transition changes.
pub open spec fn monochrome_alike<F: Scalar>(
    a: MonochromeSprite<F>,
    b: MonochromeSprite<F>,
) -> bool {
    a == MonochromeSprite {
        bounds: Bounds { origin: a.bounds.origin, ..b.bounds },
        color: Hsla { a: a.color.a, ..b.color },
        ..b
    }
}

/// Whether two sprites differ at most in what a transition changes.
pub open spec fn subpixel_alike<F: Scalar>(a: SubpixelSprite<F>, b: SubpixelSprite<F>) -> bool {
    a == SubpixelSprite {
        bounds: Bounds { origin: a.bounds.origin, ..b.bounds },
        color: Hsla { a: a.color.a, ..b.color },
        ..b
    }
}

/// Whether two sprites differ at most in what a transition changes.
pub open spec fn polychrome_alike<F: Scalar>(
    a: PolychromeSprite<F>,
    b: PolychromeSprite<F>,
) -> bool {
    a == PolychromeSprite {
        bounds: Bounds { origin: a.bounds.origin, ..b.bounds },
        opacity: a.opacity,
        ..b
    }
}

/// Whether two underlines differ at most in what a transition changes.
pub open spec fn underline_alike<F: Scalar>(a: Underline<F>, b: Underline<F>) -> bool {
    a == Underline {
        bounds: Bounds { origin: a.bounds.origin, ..b.bounds },
        color: Hsla { a: a.color.a, ..b.color },
        ..b
    }
}

/// Whether two shadows differ at most in what a transition changes.
pub open spec fn shadow_alike<F: Scalar>(a: Shadow<F>, b: Shadow<F>) -> bool {
    a == Shadow {
        bounds: Bounds { origin: a.bounds.origin, ..b.bounds },
        element_bounds: Bounds { origin: a.element_bounds.origin, ..b.element_bounds },
        color: Hsla { a: a.color.a, ..b.color },
        ..b
    }
}

/// Whether two quads differ at most in what a transition changes; quads that an
/// opacity cycle drives, in where they are alone.
pub open spec fn quad_alike<F: Scalar>(a: Quad<F>, b: Quad<F>) -> bool {
    &&& quad_roughly_alike(a, b)
    &&& a.background.animation != 0 ==> a.background == b.background && a.border_color
        == b.border_color
}

/// Whether two quads that one opacity cycle drives, or none, differ at most in
/// where they are and in their colors.
pub open spec fn quad_roughly_alike<F: Scalar>(a: Quad<F>, b: Quad<F>) -> bool {
    &&& a == Quad {
        bounds: Bounds { origin: a.bounds.origin, ..b.bounds },
        background: a.background,
        border_color: a.border_color,
        ..b
    }
    &&& a.background.animation == b.background.animation
}

/// Whether one of the primitives that transitions move, from the one at `from`
/// on, is the sprite of one color at `index`.
pub open spec fn moves_monochrome<F: Scalar>(
    moved: Seq<TransitionedPrimitive<F>>,
    from: int,
    index: int,
) -> bool {
    exists|j: int|
        from <= j < moved.len() && match (#[trigger] moved[j]).target {
            TransitionTarget::MonochromeSprite { index: at, .. } => at == index,
            _ => false,
        }
}

/// Whether one of the primitives that transitions move, from the one at `from`
/// on, is the sprite with a coverage value per channel at `index`.
pub open spec fn moves_subpixel<F: Scalar>(
    moved: Seq<TransitionedPrimitive<F>>,
    from: int,
    index: int,
) -> bool {
    exists|j: int|
        from <= j < moved.len() && match (#[trigger] moved[j]).target {
            TransitionTarget::SubpixelSprite { index: at, .. } => at == index,
            _ => false,
        }
}

/// Whether one of the primitives that transitions move, from the one at `from`
/// on, is the sprite with its own colors at `index`.
pub open spec fn moves_polychrome<F: Scalar>(
    moved: Seq<TransitionedPrimitive<F>>,
    from: int,
    index: int,
) -> bool {
    exists|j: int|
        from <= j < moved.len() && match (#[trigger] moved[j]).target {
            TransitionTarget::PolychromeSprite { index: at, .. } => at == index,
            _ => false,
        }
}

/// Whether one of the primitives that transitions move, from the one at `from`
/// on, is the underline at `index`.
pub open spec fn moves_underline<F: Scalar>(
    moved: Seq<TransitionedPrimitive<F>>,
    from: int,
    index: int,
) -> bool {
    exists|j: int|
        from <= j < moved.len() && match (#[trigger] moved[j]).target {
            TransitionTarget::Underline { index: at, .. } => at == index,
            _ => false,
        }
}

/// Whether one of the primitives that transitions move, from the one at `from`
/// on, is the shadow at `index`.
pub open spec fn moves_shadow<F: Scalar>(
    moved: Seq<TransitionedPrimitive<F>>,
    from: int,
    index: int,
) -> bool {
    exists|j: int|
        from <= j < moved.len() && match (#[trigger] moved[j]).target {
            TransitionTarget::Shadow { index: at, .. } => at == index,
            _ => false,
        }
}

/// Whether one of the primitives that transitions move, from the one at `from`
/// on, is the quad at `index`.
pub open spec fn moves_quad<F: Scalar>(
    moved: Seq<TransitionedPrimitive<F>>,
    from: int,
    index: int,
) -> bool {
    exists|j: int|
        from <= j < moved.len() && match (#[trigger] moved[j]).target {
            TransitionTarget::Quad { index: at, .. } => at == index,
            _ => false,
        }
}

/// Whether two scenes agree but for what the transitions from `from` on are yet
/// to set, quads compared by `quads_alike`.
spec fn agree_up_to<F: Scalar>(a: SceneModel<F>, b: SceneModel<F>, from: int, exact: bool) -> bool {
    let moved = b.transitioned;
    &&& a == SceneModel {
        monochrome_sprites: a.monochrome_sprites,
        subpixel_sprites: a.subpixel_sprites,
        polychrome_sprites: a.polychrome_sprites,
        underlines: a.underlines,
        shadows: a.shadows,
        quads: a.quads,
        ..b
    }
    &&& a.monochrome_sprites.len() == b.monochrome_sprites.len()
    &&& a.subpixel_sprites.len() == b.subpixel_sprites.len()
    &&& a.polychrome_sprites.len() == b.polychrome_sprites.len()
    &&& a.underlines.len() == b.underlines.len()
    &&& a.shadows.len() == b.shadows.len()
    &&& a.quads.len() == b.quads.len()
    &&& forall|i: int|
        #![trigger a.monochrome_sprites[i]]
        #![trigger b.monochrome_sprites[i]]
        0 <= i < a.monochrome_sprites.len() ==> {
            &&& monochrome_alike(a.monochrome_sprites[i], b.monochrome_sprites[i])
            &&& moves_monochrome(moved, from, i) || a.monochrome_sprites[i]
                == b.monochrome_sprites[i]
        }
    &&& forall|i: int|
        #![trigger a.subpixel_sprites[i]]
        #![trigger b.subpixel_sprites[i]]
        0 <= i < a.subpixel_sprites.len() ==> {
            &&& subpixel_alike(a.subpixel_sprites[i], b.subpixel_sprites[i])
            &&& moves_subpixel(moved, from, i) || a.subpixel_sprites[i] == b.subpixel_sprites[i]
        }
    &&& forall|i: int|
        #![trigger a.polychrome_sprites[i]]
        #![trigger b.polychrome_sprites[i]]
        0 <= i < a.polychrome_sprites.len() ==> {
            &&& polychrome_alike(a.polychrome_sprites[i], b.polychrome_sprites[i])
            &&& moves_polychrome(moved, from, i) || a.polychrome_sprites[i]
                == b.polychrome_sprites[i]
        }
    &&& forall|i: int|
        #![trigger a.underlines[i]]
        #![trigger b.underlines[i]]
        0 <= i < a.underlines.len() ==> {
            &&& underline_alike(a.underlines[i], b.underlines[i])
            &&& moves_underline(moved, from, i) || a.underlines[i] == b.underlines[i]
        }
    &&& forall|i: int|
        #![trigger a.shadows[i]]
        #![trigger b.shadows[i]]
        0 <= i < a.shadows.len() ==> {
            &&& shadow_alike(a.shadows[i], b.shadows[i])
            &&& moves_shadow(moved, from, i) || a.shadows[i] == b.shadows[i]
        }
    &&& forall|i: int|
        #![trigger a.quads[i]]
        #![trigger b.quads[i]]
        0 <= i < a.quads.len() ==> {
            &&& if exact {
                quad_alike(a.quads[i], b.quads[i])
            } else {
                quad_roughly_alike(a.quads[i], b.quads[i])
            }
            &&& moves_quad(moved, from, i) || a.quads[i] == b.quads[i]
        }
}

/// Whether everything that transitions move is there.
spec fn targets_exist<F: Scalar>(scene: SceneModel<F>) -> bool {
    forall|i: int|
        0 <= i < scene.transitioned.len() ==> scene.target_exists(
            #[trigger] scene.transitioned[i],
        )
}

/// Moving one more primitive to one place makes two scenes agree on it.
proof fn lemma_agree_step<F: Scalar>(
    a: SceneModel<F>,
    b: SceneModel<F>,
    from: int,
    offset: Point<F>,
    opacity: F,
)
    requires
        agree_up_to(a, b, from, true),
        0 <= from < b.transitioned.len(),
        b.target_exists(b.transitioned[from]),
    ensures
        agree_up_to(
            a.moved(b.transitioned[from], offset, opacity),
            b.moved(b.transitioned[from], offset, opacity),
            from + 1,
            true,
        ),
{
    let moved = b.transitioned;
    let primitive = moved[from];
    let a_next = a.moved(primitive, offset, opacity);
    let b_next = b.moved(primitive, offset, opacity);
    assert forall|i: int|
        #![trigger a_next.monochrome_sprites[i]]
        #![trigger b_next.monochrome_sprites[i]]
        0 <= i < a_next.monochrome_sprites.len() implies {
        &&& monochrome_alike(a_next.monochrome_sprites[i], b_next.monochrome_sprites[i])
        &&& moves_monochrome(moved, from + 1, i) || a_next.monochrome_sprites[i]
            == b_next.monochrome_sprites[i]
    } by {
        assert(monochrome_alike(a.monochrome_sprites[i], b.monochrome_sprites[i]));
        if moves_monochrome(moved, from, i) && !moves_monochrome(moved, from + 1, i) {
            let j = choose|j: int|
                from <= j < moved.len() && match (#[trigger] moved[j]).target {
                    TransitionTarget::MonochromeSprite { index: at, .. } => at == i,
                    _ => false,
                };
            assert(j == from);
        }
    }
    assert forall|i: int|
        #![trigger a_next.subpixel_sprites[i]]
        #![trigger b_next.subpixel_sprites[i]]
        0 <= i < a_next.subpixel_sprites.len() implies {
        &&& subpixel_alike(a_next.subpixel_sprites[i], b_next.subpixel_sprites[i])
        &&& moves_subpixel(moved, from + 1, i) || a_next.subpixel_sprites[i]
            == b_next.subpixel_sprites[i]
    } by {
        assert(subpixel_alike(a.subpixel_sprites[i], b.subpixel_sprites[i]));
        if moves_subpixel(moved, from, i) && !moves_subpixel(moved, from + 1, i) {
            let j = choose|j: int|
                from <= j < moved.len() && match (#[trigger] moved[j]).target {
                    TransitionTarget::SubpixelSprite { index: at, .. } => at == i,
                    _ => false,
                };
            assert(j == from);
        }
    }
    assert forall|i: int|
        #![trigger a_next.polychrome_sprites[i]]
        #![trigger b_next.polychrome_sprites[i]]
        0 <= i < a_next.polychrome_sprites.len() implies {
        &&& polychrome_alike(a_next.polychrome_sprites[i], b_next.polychrome_sprites[i])
        &&& moves_polychrome(moved, from + 1, i) || a_next.polychrome_sprites[i]
            == b_next.polychrome_sprites[i]
    } by {
        assert(polychrome_alike(a.polychrome_sprites[i], b.polychrome_sprites[i]));
        if moves_polychrome(moved, from, i) && !moves_polychrome(moved, from + 1, i) {
            let j = choose|j: int|
                from <= j < moved.len() && match (#[trigger] moved[j]).target {
                    TransitionTarget::PolychromeSprite { index: at, .. } => at == i,
                    _ => false,
                };
            assert(j == from);
        }
    }
    assert forall|i: int|
        #![trigger a_next.underlines[i]]
        #![trigger b_next.underlines[i]]
        0 <= i < a_next.underlines.len() implies {
        &&& underline_alike(a_next.underlines[i], b_next.underlines[i])
        &&& moves_underline(moved, from + 1, i) || a_next.underlines[i] == b_next.underlines[i]
    } by {
        assert(underline_alike(a.underlines[i], b.underlines[i]));
        if moves_underline(moved, from, i) && !moves_underline(moved, from + 1, i) {
            let j = choose|j: int|
                from <= j < moved.len() && match (#[trigger] moved[j]).target {
                    TransitionTarget::Underline { index: at, .. } => at == i,
                    _ => false,
                };
            assert(j == from);
        }
    }
    assert forall|i: int|
        #![trigger a_next.shadows[i]]
        #![trigger b_next.shadows[i]]
        0 <= i < a_next.shadows.len() implies {
        &&& shadow_alike(a_next.shadows[i], b_next.shadows[i])
        &&& moves_shadow(moved, from + 1, i) || a_next.shadows[i] == b_next.shadows[i]
    } by {
        assert(shadow_alike(a.shadows[i], b.shadows[i]));
        if moves_shadow(moved, from, i) && !moves_shadow(moved, from + 1, i) {
            let j = choose|j: int|
                from <= j < moved.len() && match (#[trigger] moved[j]).target {
                    TransitionTarget::Shadow { index: at, .. } => at == i,
                    _ => false,
                };
            assert(j == from);
        }
    }
    assert forall|i: int|
        #![trigger a_next.quads[i]]
        #![trigger b_next.quads[i]]
        0 <= i < a_next.quads.len() implies {
        &&& quad_alike(a_next.quads[i], b_next.quads[i])
        &&& moves_quad(moved, from + 1, i) || a_next.quads[i] == b_next.quads[i]
    } by {
        assert(quad_alike(a.quads[i], b.quads[i]));
        if moves_quad(moved, from, i) && !moves_quad(moved, from + 1, i) {
            let j = choose|j: int|
                from <= j < moved.len() && match (#[trigger] moved[j]).target {
                    TransitionTarget::Quad { index: at, .. } => at == i,
                    _ => false,
                };
            assert(j == from);
        }
    }
}

/// Whether the quads that move with time were found as they are: every quad that
/// an opacity cycle drives is listed, and every quad that a transition moves was
/// driven by the cycle that drives it now.
pub open spec fn quads_gathered<F: Scalar>(scene: SceneModel<F>) -> bool {
    &&& forall|i: int|
        0 <= i < scene.quads.len() && (#[trigger] scene.quads[i]).background.animation != 0
            ==> lists(scene.animated_quads, i)
    &&& forall|j: int|
        0 <= j < scene.transitioned.len() ==> match (#[trigger] scene.transitioned[j]).target {
            TransitionTarget::Quad { index, background, .. } => background.animation
                == scene.quads[index as int].background.animation,
            _ => true,
        }
}

/// Moving primitives changes only those, and only where they are and how opaque.
proof fn lemma_moved_agrees<F: Scalar>(scene: SceneModel<F>, now: u64, count: nat)
    requires
        targets_exist(scene),
        quads_gathered(scene),
        count <= scene.transitioned.len(),
    ensures
        agree_up_to(scene.with_moved(now, count), scene, 0, false),
    decreases count,
{
    if count > 0 {
        let k = (count - 1) as nat;
        lemma_moved_agrees(scene, now, k);
        let before = scene.with_moved(now, k);
        let after = scene.with_moved(now, count);
        let moved = scene.transitioned;
        let primitive = moved[k as int];
        assert(scene.target_exists(primitive));
        assert forall|i: int|
            #![trigger after.monochrome_sprites[i]]
            #![trigger scene.monochrome_sprites[i]]
            0 <= i < after.monochrome_sprites.len() implies {
            &&& monochrome_alike(after.monochrome_sprites[i], scene.monochrome_sprites[i])
            &&& moves_monochrome(moved, 0, i) || after.monochrome_sprites[i]
                == scene.monochrome_sprites[i]
        } by {
            assert(monochrome_alike(before.monochrome_sprites[i], scene.monochrome_sprites[i]));
        }
        assert forall|i: int|
            #![trigger after.subpixel_sprites[i]]
            #![trigger scene.subpixel_sprites[i]]
            0 <= i < after.subpixel_sprites.len() implies {
            &&& subpixel_alike(after.subpixel_sprites[i], scene.subpixel_sprites[i])
            &&& moves_subpixel(moved, 0, i) || after.subpixel_sprites[i]
                == scene.subpixel_sprites[i]
        } by {
            assert(subpixel_alike(before.subpixel_sprites[i], scene.subpixel_sprites[i]));
        }
        assert forall|i: int|
            #![trigger after.polychrome_sprites[i]]
            #![trigger scene.polychrome_sprites[i]]
            0 <= i < after.polychrome_sprites.len() implies {
            &&& polychrome_alike(after.polychrome_sprites[i], scene.polychrome_sprites[i])
            &&& moves_polychrome(moved, 0, i) || after.polychrome_sprites[i]
                == scene.polychrome_sprites[i]
        } by {
            assert(polychrome_alike(before.polychrome_sprites[i], scene.polychrome_sprites[i]));
        }
        assert forall|i: int|
            #![trigger after.underlines[i]]
            #![trigger scene.underlines[i]]
            0 <= i < after.underlines.len() implies {
            &&& underline_alike(after.underlines[i], scene.underlines[i])
            &&& moves_underline(moved, 0, i) || after.underlines[i] == scene.underlines[i]
        } by {
            assert(underline_alike(before.underlines[i], scene.underlines[i]));
        }
        assert forall|i: int|
            #![trigger after.shadows[i]]
            #![trigger scene.shadows[i]]
            0 <= i < after.shadows.len() implies {
            &&& shadow_alike(after.shadows[i], scene.shadows[i])
            &&& moves_shadow(moved, 0, i) || after.shadows[i] == scene.shadows[i]
        } by {
            assert(shadow_alike(before.shadows[i], scene.shadows[i]));
        }
        assert forall|i: int|
            #![trigger after.quads[i]]
            #![trigger scene.quads[i]]
            0 <= i < after.quads.len() implies {
            &&& quad_roughly_alike(after.quads[i], scene.quads[i])
            &&& moves_quad(moved, 0, i) || after.quads[i] == scene.quads[i]
        } by {
            assert(quad_roughly_alike(before.quads[i], scene.quads[i]));
        }
    }
}

/// Two scenes that agree but for what transitions are yet to set agree when all
/// of it is set.
proof fn lemma_agree_all<F: Scalar>(a: SceneModel<F>, b: SceneModel<F>, now: u64, count: nat)
    requires
        agree_up_to(a, b, 0, true),
        targets_exist(b),
        quads_gathered(b),
        count <= b.transitioned.len(),
    ensures
        agree_up_to(a.with_moved(now, count), b.with_moved(now, count), count as int, true),
    decreases count,
{
    if count > 0 {
        let k = (count - 1) as nat;
        lemma_agree_all(a, b, now, k);
        lemma_moved_agrees(b, now, k);
        let primitive = b.transitioned[k as int];
        assert(b.target_exists(primitive));
        let (offset, opacity) = composed_state(b.transitions, primitive.transition - 1, now);
        assert(b.with_moved(now, k).transitioned == b.transitioned);
        assert(b.with_moved(now, k).target_exists(primitive));
        lemma_agree_step(
            a.with_moved(now, k),
            b.with_moved(now, k),
            k as int,
            offset,
            opacity,
        );
    }
}

proof fn lemma_agree_is_equal<F: Scalar>(a: SceneModel<F>, b: SceneModel<F>)
    requires
        agree_up_to(a, b, b.transitioned.len() as int, true),
    ensures
        a == b,
{
    let moved = b.transitioned;
    let end = moved.len() as int;
    assert(a.monochrome_sprites =~= b.monochrome_sprites) by {
        assert forall|i: int| 0 <= i < a.monochrome_sprites.len() implies (
        #[trigger] a.monochrome_sprites[i]) == b.monochrome_sprites[i] by {
            assert(!moves_monochrome(moved, end, i));
        }
    }
    assert(a.subpixel_sprites =~= b.subpixel_sprites) by {
        assert forall|i: int| 0 <= i < a.subpixel_sprites.len() implies (
        #[trigger] a.subpixel_sprites[i]) == b.subpixel_sprites[i] by {
            assert(!moves_subpixel(moved, end, i));
        }
    }
    assert(a.polychrome_sprites =~= b.polychrome_sprites) by {
        assert forall|i: int| 0 <= i < a.polychrome_sprites.len() implies (
        #[trigger] a.polychrome_sprites[i]) == b.polychrome_sprites[i] by {
            assert(!moves_polychrome(moved, end, i));
        }
    }
    assert(a.underlines =~= b.underlines) by {
        assert forall|i: int| 0 <= i < a.underlines.len() implies (#[trigger] a.underlines[i])
            == b.underlines[i] by {
            assert(!moves_underline(moved, end, i));
        }
    }
    assert(a.shadows =~= b.shadows) by {
        assert forall|i: int| 0 <= i < a.shadows.len() implies (#[trigger] a.shadows[i])
            == b.shadows[i] by {
            assert(!moves_shadow(moved, end, i));
        }
    }
    assert(a.quads =~= b.quads) by {
        assert forall|i: int| 0 <= i < a.quads.len() implies (#[trigger] a.quads[i])
            == b.quads[i] by {
            assert(!moves_quad(moved, end, i));
        }
    }
}

/// Moving on the sweeps and the cycles of two scenes that agree, but for what
/// transitions set and for the colors of quads, makes them agree on those colors.
proof fn lemma_cycles_agree<F: Scalar>(
    a: SceneModel<F>,
    b: SceneModel<F>,
    elapsed: u64,
    sweeps: Seq<F>,
)
    requires
        agree_up_to(a, b, 0, false),
        quads_gathered(b),
    ensures
        agree_up_to(a.with_cycles(elapsed, sweeps), b.with_cycles(elapsed, sweeps), 0, true),
{
    let x = a.with_cycles(elapsed, sweeps);
    let y = b.with_cycles(elapsed, sweeps);
    let moved = b.transitioned;
    assert forall|i: int|
        #![trigger x.monochrome_sprites[i]]
        #![trigger y.monochrome_sprites[i]]
        0 <= i < x.monochrome_sprites.len() implies {
        &&& monochrome_alike(x.monochrome_sprites[i], y.monochrome_sprites[i])
        &&& moves_monochrome(moved, 0, i) || x.monochrome_sprites[i] == y.monochrome_sprites[i]
    } by {
        assert(monochrome_alike(a.monochrome_sprites[i], b.monochrome_sprites[i]));
    }
    assert forall|i: int|
        #![trigger x.subpixel_sprites[i]]
        #![trigger y.subpixel_sprites[i]]
        0 <= i < x.subpixel_sprites.len() implies {
        &&& subpixel_alike(x.subpixel_sprites[i], y.subpixel_sprites[i])
        &&& moves_subpixel(moved, 0, i) || x.subpixel_sprites[i] == y.subpixel_sprites[i]
    } by {
        assert(subpixel_alike(a.subpixel_sprites[i], b.subpixel_sprites[i]));
    }
    assert forall|i: int|
        #![trigger x.quads[i]]
        #![trigger y.quads[i]]
        0 <= i < x.quads.len() implies {
        &&& quad_alike(x.quads[i], y.quads[i])
        &&& moves_quad(moved, 0, i) || x.quads[i] == y.quads[i]
    } by {
        assert(quad_roughly_alike(a.quads[i], b.quads[i]));
        if b.quads[i].background.animation != 0 {
            assert(lists(b.animated_quads, i));
        }
    }
}

/// The sweeps and the cycles of a scene change only what moves with time.
proof fn lemma_with_cycles<F: Scalar>(scene: SceneModel<F>, elapsed: u64, sweeps: Seq<F>)
    requires
        targets_exist(scene),
        quads_gathered(scene),
    ensures
        targets_exist(scene.with_cycles(elapsed, sweeps)),
        quads_gathered(scene.with_cycles(elapsed, sweeps)),
{
    let after = scene.with_cycles(elapsed, sweeps);
    assert forall|i: int| 0 <= i < after.transitioned.len() implies after.target_exists(
        #[trigger] after.transitioned[i],
    ) by {
        assert(scene.target_exists(scene.transitioned[i]));
    }
    assert forall|i: int|
        0 <= i < after.quads.len() && (#[trigger] after.quads[i]).background.animation
            != 0 implies lists(after.animated_quads, i) by {
        assert(scene.quads[i].background.animation == after.quads[i].background.animation);
    }
    assert forall|j: int| 0 <= j < after.transitioned.len() implies match (
    #[trigger] after.transitioned[j]).target {
        TransitionTarget::Quad { index, background, .. } => background.animation
            == after.quads[index as int].background.animation,
        _ => true,
    } by {
        assert(scene.target_exists(scene.transitioned[j]));
    }
}

/// Every present starts from rest: however often a scene was advanced before, to
/// whatever times, advancing it shows what advancing it for the first time shows.
pub proof fn law_presents_start_from_rest<F: Scalar>(
    scene: SceneModel<F>,
    earlier: (u64, u64, Seq<F>),
    later: (u64, u64, Seq<F>),
)
    requires
        scene.presentable(),
        quads_gathered(scene),
    ensures
        scene.spec_advance_time_animations(
            earlier.0,
            earlier.1,
            earlier.2,
        ).spec_advance_time_animations(later.0, later.1, later.2)
            == scene.spec_advance_time_animations(later.0, later.1, later.2),
{
    let once = scene.spec_advance_time_animations(earlier.0, earlier.1, earlier.2);
    if scene.transitioned.len() == 0 && !scene.spec_has_time_animations(earlier.0) {
        assert(once == scene);
    } else {
        let count = scene.transitioned.len();
        let cycled = scene.with_cycles(earlier.1, earlier.2);
        lemma_with_cycles(scene, earlier.1, earlier.2);
        lemma_moved_agrees(cycled, earlier.0, count);
        assert(once == cycled.with_moved(earlier.0, count));
        let a = once.with_cycles(later.1, later.2);
        let again = cycled.with_cycles(later.1, later.2);
        let b = scene.with_cycles(later.1, later.2);
        lemma_cycles_agree(once, cycled, later.1, later.2);
        assert(again =~= b) by {
            assert forall|i: int| 0 <= i < b.quads.len() implies (#[trigger] again.quads[i])
                == b.quads[i] by {
                assert(scene.quads[i].background.animation == cycled.quads[i].background.animation);
            }
            assert(again.quads =~= b.quads);
            assert(again.monochrome_sprites =~= b.monochrome_sprites);
            assert(again.subpixel_sprites =~= b.subpixel_sprites);
        }
        lemma_with_cycles(scene, later.1, later.2);
        lemma_agree_all(a, b, later.0, count);
        lemma_moved_agrees(b, later.0, count);
        lemma_agree_is_equal(a.with_moved(later.0, count), b.with_moved(later.0, count));
    }
}

/// Moving what transitions cover starts from rest too, as long as no quad among
/// it is driven by an opacity cycle as well.
pub proof fn law_transitions_start_from_rest<F: Scalar>(
    scene: SceneModel<F>,
    earlier: u64,
    later: u64,
)
    requires
        scene.presentable(),
        quads_gathered(scene),
        forall|j: int|
            0 <= j < scene.transitioned.len() ==> match (#[trigger] scene.transitioned[j]).target {
                TransitionTarget::Quad { background, .. } => background.animation == 0,
                _ => true,
            },
    ensures
        scene.spec_advance_transitions(earlier).spec_advance_transitions(later)
            == scene.spec_advance_transitions(later),
{
    let count = scene.transitioned.len();
    let once = scene.with_moved(earlier, count);
    lemma_moved_agrees(scene, earlier, count);
    assert forall|i: int|
        #![trigger once.quads[i]]
        #![trigger scene.quads[i]]
        0 <= i < once.quads.len() implies quad_alike(once.quads[i], scene.quads[i]) by {
        assert(quad_roughly_alike(once.quads[i], scene.quads[i]));
        if moves_quad(scene.transitioned, 0, i) {
            let j = choose|j: int|
                0 <= j < scene.transitioned.len() && match (
                #[trigger] scene.transitioned[j]).target {
                    TransitionTarget::Quad { index: at, .. } => at == i,
                    _ => false,
                };
            assert(scene.transitioned[j].target is Quad);
        }
    }
    assert(agree_up_to(once, scene, 0, true));
    lemma_agree_all(once, scene, later, count);
    lemma_moved_agrees(scene, later, count);
    lemma_agree_is_equal(once.with_moved(later, count), scene.with_moved(later, count));
}

/// Advancing a scene keeps what the next advance needs.
pub proof fn law_advancing_keeps_a_scene_presentable<F: Scalar>(
    scene: SceneModel<F>,
    now: u64,
    elapsed: u64,
    sweeps: Seq<F>,
)
    requires
        scene.presentable(),
        quads_gathered(scene),
    ensures
        scene.spec_advance_time_animations(now, elapsed, sweeps).presentable(),
        quads_gathered(scene.spec_advance_time_animations(now, elapsed, sweeps)),
{
    let after = scene.spec_advance_time_animations(now, elapsed, sweeps);
    if scene.transitioned.len() == 0 && !scene.spec_has_time_animations(now) {
    } else {
        let cycled = scene.with_cycles(elapsed, sweeps);
        lemma_with_cycles(scene, elapsed, sweeps);
        lemma_moved_agrees(cycled, now, scene.transitioned.len());
        assert forall|i: int| 0 <= i < after.transitioned.len() implies after.target_exists(
            #[trigger] after.transitioned[i],
        ) by {
            assert(cycled.target_exists(cycled.transitioned[i]));
        }
        assert forall|i: int|
            #![trigger after.animated_monochrome_sprites[i]]
            0 <= i < after.animated_monochrome_sprites.len() implies {
            let index = after.animated_monochrome_sprites[i] as int;
            &&& index < after.monochrome_sprites.len()
            &&& 1 <= after.monochrome_sprites[index].effect.animation
                <= after.shimmer_animations.len()
        } by {
            let index = scene.animated_monochrome_sprites[i] as int;
            assert(monochrome_alike(
                after.monochrome_sprites[index],
                cycled.monochrome_sprites[index],
            ));
        }
        assert forall|i: int|
            #![trigger after.animated_subpixel_sprites[i]]
            0 <= i < after.animated_subpixel_sprites.len() implies {
            let index = after.animated_subpixel_sprites[i] as int;
            &&& index < after.subpixel_sprites.len()
            &&& 1 <= after.subpixel_sprites[index].effect.animation
                <= after.shimmer_animations.len()
        } by {
            let index = scene.animated_subpixel_sprites[i] as int;
            assert(subpixel_alike(after.subpixel_sprites[index], cycled.subpixel_sprites[index]));
        }
        assert forall|i: int|
            #![trigger after.animated_quads[i]]
            0 <= i < after.animated_quads.len() implies {
            let index = after.animated_quads[i] as int;
            &&& index < after.quads.len()
            &&& 1 <= after.quads[index].background.animation <= after.quad_animations.len()
        } by {
            let index = scene.animated_quads[i] as int;
            assert(quad_roughly_alike(after.quads[index], cycled.quads[index]));
        }
        assert forall|i: int|
            0 <= i < after.quads.len() && (#[trigger] after.quads[i]).background.animation
                != 0 implies lists(after.animated_quads, i) by {
            assert(quad_roughly_alike(after.quads[i], cycled.quads[i]));
            assert(cycled.quads[i].background.animation != 0);
        }
        assert forall|j: int| 0 <= j < after.transitioned.len() implies match (
        #[trigger] after.transitioned[j]).target {
            TransitionTarget::Quad { index, background, .. } => background.animation
                == after.quads[index as int].background.animation,
            _ => true,
        } by {
            assert(cycled.target_exists(cycled.transitioned[j]));
            if let TransitionTarget::Quad { index, .. } = after.transitioned[j].target {
                assert(quad_roughly_alike(
                    after.quads[index as int],
                    cycled.quads[index as int],
                ));
            }
        }
    }
}

} // verus!
