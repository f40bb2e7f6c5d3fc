//! What holds of the batches of a finished scene, taken together.
use core::ops::Range;

use vstd::prelude::*;

use crate::atlas_tile::AtlasTextureId;
use crate::batches::{
    batches_from, blended_end, cursor_in_range, drawn_of_kind, fits_memory, kind_at,
    law_batches_make_progress, least_rank, left, lemma_blended_end, lemma_run_end, next_batch,
    next_end, next_kind, next_rank, BatchCursor, PrimitiveBatch, PrimitiveKind,
};
use crate::scalar::Scalar;
use crate::scene_model::SceneModel;

verus! {

impl PrimitiveBatch {
    /// The kind of primitive in the batch.
    pub open spec fn kind(self) -> PrimitiveKind {
        match self {
            PrimitiveBatch::Shadows(_) => PrimitiveKind::Shadow,
            PrimitiveBatch::Quads { .. } => PrimitiveKind::Quad,
            PrimitiveBatch::Paths(_) => PrimitiveKind::Path,
            PrimitiveBatch::Underlines(_) => PrimitiveKind::Underline,
            PrimitiveBatch::MonochromeSprites { .. } => PrimitiveKind::MonochromeSprite,
            PrimitiveBatch::SubpixelSprites { .. } => PrimitiveKind::SubpixelSprite,
            PrimitiveBatch::PolychromeSprites { .. } => PrimitiveKind::PolychromeSprite,
            PrimitiveBatch::Surfaces(_) => PrimitiveKind::Surface,
        }
    }

    /// The primitives in the batch.
    pub open spec fn range(self) -> Range<usize> {
        match self {
            PrimitiveBatch::Shadows(range) => range,
            PrimitiveBatch::Quads { range, .. } => range,
            PrimitiveBatch::Paths(range) => range,
            PrimitiveBatch::Underlines(range) => range,
            PrimitiveBatch::MonochromeSprites { range, .. } => range,
            PrimitiveBatch::SubpixelSprites { range, .. } => range,
            PrimitiveBatch::PolychromeSprites { range, .. } => range,
            PrimitiveBatch::Surfaces(range) => range,
        }
    }

    /// The texture of a batch of sprites.
    pub open spec fn texture(self) -> Option<AtlasTextureId> {
        match self {
            PrimitiveBatch::MonochromeSprites { texture_id, .. } => Some(texture_id),
            PrimitiveBatch::SubpixelSprites { texture_id, .. } => Some(texture_id),
            PrimitiveBatch::PolychromeSprites { texture_id, .. } => Some(texture_id),
            _ => None,
        }
    }
}

/// Whether the batches of `kind` follow each other without a gap or an overlap,
/// from `from` to `to`, and none of them is empty.
pub open spec fn chains(
    batches: Seq<PrimitiveBatch>,
    kind: PrimitiveKind,
    from: int,
    to: int,
) -> bool
    decreases batches.len(),
{
    if batches.len() == 0 {
        from == to
    } else if batches.first().kind() == kind {
        &&& batches.first().range().start == from
        &&& from < batches.first().range().end
        &&& chains(batches.drop_first(), kind, batches.first().range().end as int, to)
    } else {
        chains(batches.drop_first(), kind, from, to)
    }
}

/// Whether every primitive has an order below the last one there is.
pub open spec fn orders_below_last<F: Scalar>(scene: SceneModel<F>) -> bool {
    forall|kind: PrimitiveKind, i: int|
        0 <= i < drawn_of_kind(scene, kind).len() ==> (
        #[trigger] drawn_of_kind(scene, kind)[i]).order < u32::MAX
}

/// Whether the primitives of each kind are in the order of their orders.
pub open spec fn in_draw_order<F: Scalar>(scene: SceneModel<F>) -> bool {
    forall|kind: PrimitiveKind, i: int, j: int|
        0 <= i <= j < drawn_of_kind(scene, kind).len() ==> (
        #[trigger] drawn_of_kind(scene, kind)[i]).order <= (
        #[trigger] drawn_of_kind(scene, kind)[j]).order
}

proof fn lemma_least_rank<F: Scalar>(
    scene: SceneModel<F>,
    cursor: BatchCursor,
    skip: int,
    count: nat,
)
    requires
        count <= 8,
    ensures
        forall|place: int|
            0 <= place < count && place != skip ==> least_rank(scene, cursor, skip, count)
                <= #[trigger] next_rank(scene, cursor, place),
        least_rank(scene, cursor, skip, count) < 0x8_0000_0000 ==> exists|place: int|
            0 <= place < count && place != skip && least_rank(scene, cursor, skip, count)
                == #[trigger] next_rank(scene, cursor, place),
        least_rank(scene, cursor, skip, count) <= 0x8_0000_0000,
    decreases count,
{
    if count > 0 {
        lemma_least_rank(scene, cursor, skip, (count - 1) as nat);
        let last = next_rank(scene, cursor, count - 1);
        assert(last < 0x8_0000_0000);
    }
}

/// The kind of the next batch is that of a primitive of the smallest rank.
proof fn lemma_next_kind<F: Scalar>(scene: SceneModel<F>, cursor: BatchCursor)
    ensures
        ({
            let least = least_rank(scene, cursor, -1, 8);
            let kind = kind_at(least % 8);
            &&& kind.place() == least % 8
            &&& least == next_rank(scene, cursor, kind.place())
            &&& kind_at(kind.place()) == kind
        }),
{
    let least = least_rank(scene, cursor, -1, 8);
    lemma_least_rank(scene, cursor, -1, 8);
    assert(least <= next_rank(scene, cursor, 0));
    assert(next_rank(scene, cursor, 0) < 0x8_0000_0000);
    let place = choose|place: int|
        0 <= place < 8 && place != -1 && least == #[trigger] next_rank(scene, cursor, place);
    assert(kind_at(place).place() == place);
    assert(least % 8 == place);
}

proof fn lemma_place(kind: PrimitiveKind)
    ensures
        0 <= kind.place() < 8,
        kind_at(kind.place()) == kind,
{
}

proof fn lemma_nothing_left<F: Scalar>(
    scene: SceneModel<F>,
    cursor: BatchCursor,
    kind: PrimitiveKind,
)
    requires
        cursor_in_range(scene, cursor),
        orders_below_last(scene),
        next_batch(scene, cursor) is None,
    ensures
        cursor.at(kind) == drawn_of_kind(scene, kind).len(),
{
    lemma_next_kind(scene, cursor);
    lemma_least_rank(scene, cursor, -1, 8);
    lemma_place(kind);
    assert(cursor.at(kind) <= drawn_of_kind(scene, kind).len());
    if cursor.at(kind) < drawn_of_kind(scene, kind).len() {
        let drawn = drawn_of_kind(scene, kind);
        assert(drawn[cursor.at(kind) as int].order < u32::MAX);
        assert(next_rank(scene, cursor, kind.place()) < u32::MAX * 8);
        assert(least_rank(scene, cursor, -1, 8) <= next_rank(scene, cursor, kind.place()));
    }
}

/// What holds of the next batch: it lies where the cursor is, within the
/// primitives of its kind, and all its sprites lie on its texture.
proof fn lemma_batch<F: Scalar>(scene: SceneModel<F>, cursor: BatchCursor)
    requires
        cursor_in_range(scene, cursor),
        next_batch(scene, cursor) is Some,
    ensures
        ({
            let (batch, after) = next_batch(scene, cursor)->Some_0;
            let kind = batch.kind();
            let drawn = drawn_of_kind(scene, kind);
            &&& next_kind(scene, cursor) == Some(kind)
            &&& batch.range().start == cursor.at(kind)
            &&& batch.range().end == after.at(kind)
            &&& after.at(kind) == next_end(scene, cursor, kind)
            &&& batch.range().start < batch.range().end <= drawn.len()
            &&& forall|other: PrimitiveKind|
                other != kind ==> #[trigger] after.at(other) == cursor.at(other)
            &&& forall|i: int|
                batch.range().start <= i < batch.range().end ==> (
                #[trigger] drawn[i]).texture == batch.texture()
            &&& forall|i: int|
                batch.range().start < i < batch.range().end ==> kind.rank(
                    (#[trigger] drawn[i]).order,
                ) < least_rank(scene, cursor, kind.place(), 8)
        }),
{
    let kind = next_kind(scene, cursor)->Some_0;
    let drawn = drawn_of_kind(scene, kind);
    let start = cursor.at(kind) as int;
    assert(drawn.len() <= usize::MAX);
    lemma_run_end(
        drawn,
        kind,
        least_rank(scene, cursor, kind.place(), 8),
        drawn[start].texture,
        start + 1,
    );
}

proof fn lemma_batches_cover<F: Scalar>(
    scene: SceneModel<F>,
    cursor: BatchCursor,
    kind: PrimitiveKind,
)
    requires
        cursor_in_range(scene, cursor),
        orders_below_last(scene),
    ensures
        chains(
            batches_from(scene, cursor),
            kind,
            cursor.at(kind) as int,
            drawn_of_kind(scene, kind).len() as int,
        ),
    decreases left(scene, cursor),
{
    law_batches_make_progress(scene, cursor);
    match next_batch(scene, cursor) {
        None => {
            lemma_nothing_left(scene, cursor, kind);
        },
        Some((batch, after)) => {
            lemma_batch(scene, cursor);
            lemma_batches_cover(scene, after, kind);
            assert(batches_from(scene, cursor).drop_first() =~= batches_from(scene, after));
        },
    }
}

/// The batches of a scene draw every primitive of every kind exactly once, in
/// the order that the scene holds them.
pub proof fn law_batches_cover_the_scene<F: Scalar>(scene: SceneModel<F>, kind: PrimitiveKind)
    requires
        fits_memory(scene),
        orders_below_last(scene),
    ensures
        chains(
            batches_from(scene, BatchCursor::spec_start()),
            kind,
            0,
            drawn_of_kind(scene, kind).len() as int,
        ),
{
    lemma_batches_cover(scene, BatchCursor::spec_start(), kind);
}

proof fn lemma_batches_lie_ahead<F: Scalar>(scene: SceneModel<F>, cursor: BatchCursor, i: int)
    requires
        cursor_in_range(scene, cursor),
        0 <= i < batches_from(scene, cursor).len(),
    ensures
        ({
            let batch = batches_from(scene, cursor)[i];
            let drawn = drawn_of_kind(scene, batch.kind());
            &&& cursor.at(batch.kind()) <= batch.range().start < batch.range().end <= drawn.len()
            &&& forall|k: int|
                batch.range().start <= k < batch.range().end ==> (
                #[trigger] drawn[k]).texture == batch.texture()
        }),
    decreases left(scene, cursor),
{
    law_batches_make_progress(scene, cursor);
    if let Some((batch, after)) = next_batch(scene, cursor) {
        lemma_batch(scene, cursor);
        if i > 0 {
            assert(batches_from(scene, cursor)[i] == batches_from(scene, after)[i - 1]);
            lemma_batches_lie_ahead(scene, after, i - 1);
            let later = batches_from(scene, after)[i - 1];
            assert(cursor.at(later.kind()) <= after.at(later.kind()));
        }
    }
}

/// All sprites of a batch lie on the batch's texture, and no batch is empty.
pub proof fn law_a_batch_has_one_texture<F: Scalar>(scene: SceneModel<F>, i: int)
    requires
        fits_memory(scene),
        0 <= i < batches_from(scene, BatchCursor::spec_start()).len(),
    ensures
        ({
            let batch = batches_from(scene, BatchCursor::spec_start())[i];
            let drawn = drawn_of_kind(scene, batch.kind());
            &&& batch.range().start < batch.range().end <= drawn.len()
            &&& forall|k: int|
                batch.range().start <= k < batch.range().end ==> (
                #[trigger] drawn[k]).texture == batch.texture()
        }),
{
    lemma_batches_lie_ahead(scene, BatchCursor::spec_start(), i);
}

proof fn lemma_rank_of_place<F: Scalar>(scene: SceneModel<F>, cursor: BatchCursor, place: int)
    requires
        0 <= place < 8,
    ensures
        next_rank(scene, cursor, place) % 8 == place,
        kind_at(place).place() == place,
        0 <= next_rank(scene, cursor, place) < 0x8_0000_0000,
{
}

/// The place of the kind, other than that at `skip`, that is due first.
proof fn lemma_least_place<F: Scalar>(
    scene: SceneModel<F>,
    cursor: BatchCursor,
    skip: int,
) -> (place: int)
    requires
        0 <= skip < 8,
    ensures
        0 <= place < 8,
        place != skip,
        least_rank(scene, cursor, skip, 8) == next_rank(scene, cursor, place),
{
    let other = if skip == 0 {
        1int
    } else {
        0
    };
    lemma_least_rank(scene, cursor, skip, 8);
    lemma_rank_of_place(scene, cursor, other);
    assert(least_rank(scene, cursor, skip, 8) <= next_rank(scene, cursor, other));
    choose|place: int|
        0 <= place < 8 && place != skip && least_rank(scene, cursor, skip, 8)
            == #[trigger] next_rank(scene, cursor, place)
}

/// Something of another kind is due before a primitive whose rank is not below those
/// of all others.
proof fn lemma_other_kind_is_due<F: Scalar>(
    scene: SceneModel<F>,
    cursor: BatchCursor,
    after: BatchCursor,
    kind: PrimitiveKind,
)
    requires
        forall|other: PrimitiveKind|
            other != kind ==> #[trigger] after.at(other) == cursor.at(other),
        after.at(kind) < drawn_of_kind(scene, kind).len(),
        least_rank(scene, cursor, kind.place(), 8) <= kind.rank(
            drawn_of_kind(scene, kind)[after.at(kind) as int].order,
        ),
    ensures
        next_kind(scene, after) != Some(kind),
{
    let rank = next_rank(scene, after, kind.place());
    let limit = least_rank(scene, cursor, kind.place(), 8);
    let least = least_rank(scene, after, -1, 8);
    lemma_place(kind);
    lemma_rank_of_place(scene, after, kind.place());
    let place = lemma_least_place(scene, cursor, kind.place());
    lemma_rank_of_place(scene, cursor, place);
    assert(next_rank(scene, after, place) == limit) by {
        assert(kind_at(place) != kind);
        assert(after.at(kind_at(place)) == cursor.at(kind_at(place)));
    }
    assert(least <= limit) by {
        lemma_least_rank(scene, after, -1, 8);
    }
    lemma_next_kind(scene, after);
    if next_kind(scene, after) == Some(kind) {
        assert(least == rank);
        assert(limit == rank);
    }
}

/// Where two batches of one kind follow each other, the second has another texture.
proof fn lemma_next_texture<F: Scalar>(
    scene: SceneModel<F>,
    cursor: BatchCursor,
    batch: PrimitiveBatch,
    after: BatchCursor,
    next: PrimitiveBatch,
)
    requires
        cursor_in_range(scene, cursor),
        cursor_in_range(scene, after),
        next_batch(scene, cursor) == Some((batch, after)),
        next_batch(scene, after) is Some,
        next == next_batch(scene, after)->Some_0.0,
        next.kind() == batch.kind(),
    ensures
        next.texture() != batch.texture(),
{
    lemma_batch(scene, cursor);
    lemma_batch(scene, after);
    let kind = batch.kind();
    let drawn = drawn_of_kind(scene, kind);
    let stop = after.at(kind) as int;
    let limit = least_rank(scene, cursor, kind.place(), 8);
    assert(drawn[stop].texture == next.texture());
    assert(drawn[cursor.at(kind) as int].texture == batch.texture());
    lemma_run_end(
        drawn,
        kind,
        limit,
        drawn[cursor.at(kind) as int].texture,
        cursor.at(kind) + 1,
    );
    if next.texture() == batch.texture() {
        lemma_other_kind_is_due(scene, cursor, after, kind);
    }
}

proof fn lemma_adjacent_batches<F: Scalar>(scene: SceneModel<F>, cursor: BatchCursor, i: int)
    requires
        cursor_in_range(scene, cursor),
        0 <= i,
        i + 1 < batches_from(scene, cursor).len(),
    ensures
        ({
            let batches = batches_from(scene, cursor);
            batches[i].kind() == batches[i + 1].kind() ==> batches[i].texture()
                != batches[i + 1].texture()
        }),
    decreases left(scene, cursor),
{
    law_batches_make_progress(scene, cursor);
    if let Some((batch, after)) = next_batch(scene, cursor) {
        assert(batches_from(scene, cursor)[i + 1] == batches_from(scene, after)[i]);
        if i > 0 {
            assert(batches_from(scene, cursor)[i] == batches_from(scene, after)[i - 1]);
            lemma_adjacent_batches(scene, after, i - 1);
        } else {
            law_batches_make_progress(scene, after);
            let next = batches_from(scene, cursor)[1];
            if next.kind() == batch.kind() {
                lemma_next_texture(scene, cursor, batch, after, next);
            }
        }
    }
}

/// Two batches of one kind that follow each other have different textures: a batch
/// goes on for as long as it can, and kinds without textures never come twice in a row.
pub proof fn law_adjacent_batches_differ<F: Scalar>(scene: SceneModel<F>, i: int)
    requires
        fits_memory(scene),
        0 <= i,
        i + 1 < batches_from(scene, BatchCursor::spec_start()).len(),
    ensures
        ({
            let batches = batches_from(scene, BatchCursor::spec_start());
            batches[i].kind() == batches[i + 1].kind() ==> batches[i].texture()
                != batches[i + 1].texture()
        }),
{
    lemma_adjacent_batches(scene, BatchCursor::spec_start(), i);
}

/// Nothing behind the next batch is drawn before anything in it.
proof fn lemma_batch_is_due<F: Scalar>(
    scene: SceneModel<F>,
    cursor: BatchCursor,
    x: int,
    kind: PrimitiveKind,
    y: int,
)
    requires
        cursor_in_range(scene, cursor),
        in_draw_order(scene),
        next_batch(scene, cursor) is Some,
        ({
            let (batch, after) = next_batch(scene, cursor)->Some_0;
            &&& batch.range().start <= x < batch.range().end
            &&& after.at(kind) <= y < drawn_of_kind(scene, kind).len()
        }),
    ensures
        ({
            let batch = next_batch(scene, cursor)->Some_0.0;
            batch.kind().rank(drawn_of_kind(scene, batch.kind())[x].order) <= kind.rank(
                drawn_of_kind(scene, kind)[y].order,
            )
        }),
{
    lemma_batch(scene, cursor);
    let (batch, after) = next_batch(scene, cursor)->Some_0;
    let own = batch.kind();
    let own_drawn = drawn_of_kind(scene, own);
    let drawn = drawn_of_kind(scene, kind);
    if kind == own {
        assert(own_drawn[x].order <= own_drawn[y].order);
    } else {
        lemma_place(kind);
        lemma_place(own);
        assert(after.at(kind) == cursor.at(kind));
        assert(drawn[cursor.at(kind) as int].order <= drawn[y].order);
        assert(next_rank(scene, cursor, kind.place()) <= kind.rank(drawn[y].order));
        if x == batch.range().start {
            lemma_next_kind(scene, cursor);
            lemma_least_rank(scene, cursor, -1, 8);
            assert(own.rank(own_drawn[x].order) == next_rank(scene, cursor, own.place()));
        } else {
            lemma_least_rank(scene, cursor, own.place(), 8);
            assert(own.rank(own_drawn[x].order) < least_rank(scene, cursor, own.place(), 8));
        }
        assert(own.rank(own_drawn[x].order) <= next_rank(scene, cursor, kind.place()));
    }
}

proof fn lemma_batches_in_order<F: Scalar>(
    scene: SceneModel<F>,
    cursor: BatchCursor,
    i: int,
    j: int,
    x: int,
    y: int,
)
    requires
        cursor_in_range(scene, cursor),
        in_draw_order(scene),
        0 <= i < j < batches_from(scene, cursor).len(),
        batches_from(scene, cursor)[i].range().start <= x < batches_from(
            scene,
            cursor,
        )[i].range().end,
        batches_from(scene, cursor)[j].range().start <= y < batches_from(
            scene,
            cursor,
        )[j].range().end,
    ensures
        ({
            let earlier = batches_from(scene, cursor)[i].kind();
            let later = batches_from(scene, cursor)[j].kind();
            earlier.rank(drawn_of_kind(scene, earlier)[x].order) <= later.rank(
                drawn_of_kind(scene, later)[y].order,
            )
        }),
    decreases left(scene, cursor),
{
    law_batches_make_progress(scene, cursor);
    if let Some((batch, after)) = next_batch(scene, cursor) {
        assert(batches_from(scene, cursor)[j] == batches_from(scene, after)[j - 1]);
        if i == 0 {
            lemma_batches_lie_ahead(scene, after, j - 1);
            lemma_batch_is_due(scene, cursor, x, batches_from(scene, after)[j - 1].kind(), y);
        } else {
            assert(batches_from(scene, cursor)[i] == batches_from(scene, after)[i - 1]);
            lemma_batches_in_order(scene, after, i - 1, j - 1, x, y);
        }
    }
}

/// Batches come in draw order: what an earlier batch draws never ranks behind
/// what a later batch draws, by order first and then by kind.
pub proof fn law_batches_come_in_draw_order<F: Scalar>(
    scene: SceneModel<F>,
    i: int,
    j: int,
    x: int,
    y: int,
)
    requires
        fits_memory(scene),
        in_draw_order(scene),
        0 <= i < j < batches_from(scene, BatchCursor::spec_start()).len(),
        batches_from(scene, BatchCursor::spec_start())[i].range().start <= x < batches_from(
            scene,
            BatchCursor::spec_start(),
        )[i].range().end,
        batches_from(scene, BatchCursor::spec_start())[j].range().start <= y < batches_from(
            scene,
            BatchCursor::spec_start(),
        )[j].range().end,
    ensures
        ({
            let earlier = batches_from(scene, BatchCursor::spec_start())[i].kind();
            let later = batches_from(scene, BatchCursor::spec_start())[j].kind();
            earlier.rank(drawn_of_kind(scene, earlier)[x].order) <= later.rank(
                drawn_of_kind(scene, later)[y].order,
            )
        }),
{
    lemma_batches_in_order(scene, BatchCursor::spec_start(), i, j, x, y);
}

/// Whether the quad batches take the blended quads one after the other, from
/// `from` to `to`, each of them together with the quad that it names.
pub open spec fn blended_chain(
    batches: Seq<PrimitiveBatch>,
    blended: Seq<u32>,
    from: int,
    to: int,
) -> bool
    decreases batches.len(),
{
    if batches.len() == 0 {
        from == to
    } else {
        match batches.first() {
            PrimitiveBatch::Quads { range, blended_range } => {
                &&& blended_range.start == from
                &&& from <= blended_range.end <= blended.len()
                &&& forall|i: int|
                    blended_range.start <= i < blended_range.end ==> range.start <= (
                    #[trigger] blended[i]) < range.end
                &&& blended_chain(batches.drop_first(), blended, blended_range.end as int, to)
            },
            _ => blended_chain(batches.drop_first(), blended, from, to),
        }
    }
}

/// Whether the blended quads are listed in order and exist.
pub open spec fn blended_in_order<F: Scalar>(scene: SceneModel<F>) -> bool {
    let blended = scene.blended_quad_indices;
    &&& forall|i: int, j: int|
        0 <= i <= j < blended.len() ==> (#[trigger] blended[i]) <= (#[trigger] blended[j])
    &&& forall|i: int| 0 <= i < blended.len() ==> (#[trigger] blended[i]) < scene.quads.len()
}

proof fn lemma_blended_chain<F: Scalar>(scene: SceneModel<F>, cursor: BatchCursor)
    requires
        cursor_in_range(scene, cursor),
        orders_below_last(scene),
        blended_in_order(scene),
        forall|i: int|
            cursor.blended <= i < scene.blended_quad_indices.len() ==> cursor.quads <= (
            #[trigger] scene.blended_quad_indices[i]),
    ensures
        blended_chain(
            batches_from(scene, cursor),
            scene.blended_quad_indices,
            cursor.blended as int,
            scene.blended_quad_indices.len() as int,
        ),
    decreases left(scene, cursor),
{
    law_batches_make_progress(scene, cursor);
    let blended = scene.blended_quad_indices;
    match next_batch(scene, cursor) {
        None => {
            lemma_nothing_left(scene, cursor, PrimitiveKind::Quad);
            if cursor.blended < blended.len() {
                assert(cursor.quads <= blended[cursor.blended as int]);
            }
        },
        Some((batch, after)) => {
            lemma_batch(scene, cursor);
            let end = next_end(scene, cursor, batch.kind());
            lemma_blended_end(blended, end, cursor.blended as int);
            if batch.kind() == PrimitiveKind::Quad {
                assert(after.quads == end);
                assert(after.blended == blended_end(blended, end, cursor.blended as int));
                assert forall|i: int| after.blended <= i < blended.len() implies after.quads <= (
                #[trigger] blended[i]) by {
                    assert(blended[after.blended as int] <= blended[i]);
                }
            } else {
                assert(after.at(PrimitiveKind::Quad) == cursor.at(PrimitiveKind::Quad));
            }
            lemma_blended_chain(scene, after);
            assert(batches_from(scene, cursor).drop_first() =~= batches_from(scene, after));
        },
    }
}

/// Every blended quad is drawn exactly once, with the batch of quads that it is
/// one of.
pub proof fn law_blended_quads_follow_their_batches<F: Scalar>(scene: SceneModel<F>)
    requires
        fits_memory(scene),
        orders_below_last(scene),
        blended_in_order(scene),
    ensures
        blended_chain(
            batches_from(scene, BatchCursor::spec_start()),
            scene.blended_quad_indices,
            0,
            scene.blended_quad_indices.len() as int,
        ),
{
    lemma_blended_chain(scene, BatchCursor::spec_start());
}

} // verus!
