//! The order in which a finished scene is handed to the renderer.
use core::ops::Range;

use vstd::prelude::*;
use vstd::string::*;

use crate::atlas_tile::AtlasTextureId;
use crate::decimal::{decimal, spec_decimal};
use crate::path::{Path, PathModel};
use crate::primitives::{
    MonochromeSprite, PaintSurface, PolychromeSprite, Quad, Shadow, SubpixelSprite, Underline,
};
use crate::scalar::{one, spec_one, Scalar};
use crate::scene::Scene;
use crate::scene_model::SceneModel;

verus! {

/// A kind of primitive. Among primitives of one order those of an earlier kind
/// are drawn first.
#[derive(Clone, Copy, Debug, PartialEq, Eq, Structural, PartialOrd, Ord, Default)]
pub enum PrimitiveKind {
    /// Shadows.
    Shadow,
    /// Quads.
    #[default]
    Quad,
    /// Paths.
    Path,
    /// Underlines.
    Underline,
    /// Sprites of one color.
    MonochromeSprite,
    /// Sprites of one color with a coverage value per color channel.
    SubpixelSprite,
    /// Sprites with their own colors.
    PolychromeSprite,
    /// Pictures that something else renders.
    Surface,
}

/// A run of primitives of one kind that are drawn together.
#[derive(Debug)]
pub enum PrimitiveBatch {
    /// Shadows.
    Shadows(Range<usize>),
    /// Quads.
    Quads {
        /// The quads.
        range: Range<usize>,
        /// Which of the blended quads are among them.
        blended_range: Range<usize>,
    },
    /// Paths.
    Paths(Range<usize>),
    /// Underlines.
    Underlines(Range<usize>),
    /// Sprites of one color.
    MonochromeSprites {
        /// The texture that holds their images.
        texture_id: AtlasTextureId,
        /// The sprites.
        range: Range<usize>,
    },
    /// Sprites of one color with a coverage value per color channel.
    SubpixelSprites {
        /// The texture that holds their images.
        texture_id: AtlasTextureId,
        /// The sprites.
        range: Range<usize>,
    },
    /// Sprites with their own colors.
    PolychromeSprites {
        /// The texture that holds their images.
        texture_id: AtlasTextureId,
        /// The sprites.
        range: Range<usize>,
    },
    /// Pictures that something else renders.
    Surfaces(Range<usize>),
}

/// What decides the batch that a primitive goes into.
pub struct DrawnModel {
    /// When it is drawn.
    pub order: u32,
    /// The texture that holds its image, if it has one.
    pub texture: Option<AtlasTextureId>,
}

/// Something that goes into a batch.
pub trait Drawn: Sized {
    /// What decides the batch.
    spec fn drawn(self) -> DrawnModel;

    /// When it is drawn.
    fn draw_order(&self) -> (result: u32)
        ensures
            result == self.drawn().order,
    ;

    /// The texture that holds its image, if it has one.
    fn draw_texture(&self) -> (result: Option<AtlasTextureId>)
        ensures
            result == self.drawn().texture,
    ;
}

/// How far the batches have got through the primitives of each kind.
#[derive(Clone, Copy, Debug)]
pub struct BatchCursor {
    /// The first shadow that is left.
    pub shadows: usize,
    /// The first quad that is left.
    pub quads: usize,
    /// The first of the blended quads that is left.
    pub blended: usize,
    /// The first path that is left.
    pub paths: usize,
    /// The first underline that is left.
    pub underlines: usize,
    /// The first sprite of one color that is left.
    pub monochrome_sprites: usize,
    /// The first sprite with a coverage value per channel that is left.
    pub subpixel_sprites: usize,
    /// The first sprite with its own colors that is left.
    pub polychrome_sprites: usize,
    /// The first surface that is left.
    pub surfaces: usize,
}

/// The kinds in the order that primitives of one order are drawn in.
pub open spec fn kind_at(place: int) -> PrimitiveKind {
    if place == 0 {
        PrimitiveKind::Shadow
    } else if place == 1 {
        PrimitiveKind::Quad
    } else if place == 2 {
        PrimitiveKind::Path
    } else if place == 3 {
        PrimitiveKind::Underline
    } else if place == 4 {
        PrimitiveKind::MonochromeSprite
    } else if place == 5 {
        PrimitiveKind::SubpixelSprite
    } else if place == 6 {
        PrimitiveKind::PolychromeSprite
    } else {
        PrimitiveKind::Surface
    }
}

impl PrimitiveKind {
    /// The kind's place among the kinds.
    pub open spec fn place(self) -> int {
        match self {
            PrimitiveKind::Shadow => 0,
            PrimitiveKind::Quad => 1,
            PrimitiveKind::Path => 2,
            PrimitiveKind::Underline => 3,
            PrimitiveKind::MonochromeSprite => 4,
            PrimitiveKind::SubpixelSprite => 5,
            PrimitiveKind::PolychromeSprite => 6,
            PrimitiveKind::Surface => 7,
        }
    }

    /// When a primitive of this kind and this order is drawn: by order first,
    /// then by kind.
    pub open spec fn rank(self, order: u32) -> int {
        order * 8 + self.place()
    }
}

impl BatchCursor {
    /// Before everything.
    pub open spec fn spec_start() -> Self {
        BatchCursor {
            shadows: 0,
            quads: 0,
            blended: 0,
            paths: 0,
            underlines: 0,
            monochrome_sprites: 0,
            subpixel_sprites: 0,
            polychrome_sprites: 0,
            surfaces: 0,
        }
    }

    /// The first primitive of `kind` that is left.
    pub open spec fn at(self, kind: PrimitiveKind) -> usize {
        match kind {
            PrimitiveKind::Shadow => self.shadows,
            PrimitiveKind::Quad => self.quads,
            PrimitiveKind::Path => self.paths,
            PrimitiveKind::Underline => self.underlines,
            PrimitiveKind::MonochromeSprite => self.monochrome_sprites,
            PrimitiveKind::SubpixelSprite => self.subpixel_sprites,
            PrimitiveKind::PolychromeSprite => self.polychrome_sprites,
            PrimitiveKind::Surface => self.surfaces,
        }
    }

    /// The cursor with everything of `kind` before `end` done, and everything
    /// among the blended quads before `blended`.
    pub open spec fn advanced(self, kind: PrimitiveKind, end: usize, blended: usize) -> Self {
        match kind {
            PrimitiveKind::Shadow => BatchCursor { shadows: end, ..self },
            PrimitiveKind::Quad => BatchCursor { quads: end, blended, ..self },
            PrimitiveKind::Path => BatchCursor { paths: end, ..self },
            PrimitiveKind::Underline => BatchCursor { underlines: end, ..self },
            PrimitiveKind::MonochromeSprite => BatchCursor { monochrome_sprites: end, ..self },
            PrimitiveKind::SubpixelSprite => BatchCursor { subpixel_sprites: end, ..self },
            PrimitiveKind::PolychromeSprite => BatchCursor { polychrome_sprites: end, ..self },
            PrimitiveKind::Surface => BatchCursor { surfaces: end, ..self },
        }
    }
}

/// What decides the batches of `items`.
pub open spec fn all_drawn<T: Drawn>(items: Seq<T>) -> Seq<DrawnModel> {
    Seq::new(items.len(), |i: int| items[i].drawn())
}

/// What decides the batches of paths.
pub open spec fn paths_drawn<F: Scalar>(paths: Seq<PathModel<F>>) -> Seq<DrawnModel> {
    Seq::new(paths.len(), |i: int| DrawnModel { order: paths[i].order, texture: None })
}

/// What decides the batches of the primitives of `kind`.
pub open spec fn drawn_of_kind<F: Scalar>(scene: SceneModel<F>, kind: PrimitiveKind) -> Seq<
    DrawnModel,
> {
    match kind {
        PrimitiveKind::Shadow => all_drawn(scene.shadows),
        PrimitiveKind::Quad => all_drawn(scene.quads),
        PrimitiveKind::Path => paths_drawn(scene.paths),
        PrimitiveKind::Underline => all_drawn(scene.underlines),
        PrimitiveKind::MonochromeSprite => all_drawn(scene.monochrome_sprites),
        PrimitiveKind::SubpixelSprite => all_drawn(scene.subpixel_sprites),
        PrimitiveKind::PolychromeSprite => all_drawn(scene.polychrome_sprites),
        PrimitiveKind::Surface => all_drawn(scene.surfaces),
    }
}

/// The rank of the next primitive of the kind at `place`; a kind of which
/// nothing is left counts as if it went on with the last order there is.
pub open spec fn next_rank<F: Scalar>(
    scene: SceneModel<F>,
    cursor: BatchCursor,
    place: int,
) -> int {
    let kind = kind_at(place);
    let drawn = drawn_of_kind(scene, kind);
    if cursor.at(kind) < drawn.len() {
        kind.rank(drawn[cursor.at(kind) as int].order)
    } else {
        kind.rank(u32::MAX)
    }
}

/// The smallest rank among those of the first `count` kinds, but for the kind at
/// `skip`.
pub open spec fn least_rank<F: Scalar>(
    scene: SceneModel<F>,
    cursor: BatchCursor,
    skip: int,
    count: nat,
) -> int
    decreases count,
{
    if count == 0 {
        0x8_0000_0000
    } else {
        let rest = least_rank(scene, cursor, skip, (count - 1) as nat);
        let last = next_rank(scene, cursor, count - 1);
        if count - 1 != skip && last < rest {
            last
        } else {
            rest
        }
    }
}

/// Where a run ends that has got to `end`: before the first primitive that is
/// not drawn before `limit`, or whose texture is another.
pub open spec fn run_end(
    drawn: Seq<DrawnModel>,
    kind: PrimitiveKind,
    limit: int,
    texture: Option<AtlasTextureId>,
    end: int,
) -> int
    decreases drawn.len() - end,
{
    if 0 <= end < drawn.len() && kind.rank(drawn[end].order) < limit && drawn[end].texture
        == texture {
        run_end(drawn, kind, limit, texture, end + 1)
    } else {
        end
    }
}

/// Where the blended quads before `quads_end` end, from `end` on.
pub open spec fn blended_end(blended: Seq<u32>, quads_end: int, end: int) -> int
    decreases blended.len() - end,
{
    if 0 <= end < blended.len() && blended[end] < quads_end {
        blended_end(blended, quads_end, end + 1)
    } else {
        end
    }
}

/// The batch of these primitives.
pub open spec fn batch_of(
    kind: PrimitiveKind,
    texture: Option<AtlasTextureId>,
    range: Range<usize>,
    blended_range: Range<usize>,
) -> PrimitiveBatch {
    match kind {
        PrimitiveKind::Shadow => PrimitiveBatch::Shadows(range),
        PrimitiveKind::Quad => PrimitiveBatch::Quads { range, blended_range },
        PrimitiveKind::Path => PrimitiveBatch::Paths(range),
        PrimitiveKind::Underline => PrimitiveBatch::Underlines(range),
        PrimitiveKind::MonochromeSprite => PrimitiveBatch::MonochromeSprites {
            texture_id: texture->Some_0,
            range,
        },
        PrimitiveKind::SubpixelSprite => PrimitiveBatch::SubpixelSprites {
            texture_id: texture->Some_0,
            range,
        },
        PrimitiveKind::PolychromeSprite => PrimitiveBatch::PolychromeSprites {
            texture_id: texture->Some_0,
            range,
        },
        PrimitiveKind::Surface => PrimitiveBatch::Surfaces(range),
    }
}

/// The kind of the next batch: that of the primitive that is drawn next. None
/// where nothing is left.
pub open spec fn next_kind<F: Scalar>(scene: SceneModel<F>, cursor: BatchCursor) -> Option<
    PrimitiveKind,
> {
    let kind = kind_at(least_rank(scene, cursor, -1, 8) % 8);
    if cursor.at(kind) < drawn_of_kind(scene, kind).len() {
        Some(kind)
    } else {
        None
    }
}

/// Where the run of `kind` at the cursor ends: before anything of another kind
/// is due, and before another texture.
pub open spec fn next_end<F: Scalar>(
    scene: SceneModel<F>,
    cursor: BatchCursor,
    kind: PrimitiveKind,
) -> int {
    let drawn = drawn_of_kind(scene, kind);
    let start = cursor.at(kind) as int;
    run_end(
        drawn,
        kind,
        least_rank(scene, cursor, kind.place(), 8),
        drawn[start].texture,
        start + 1,
    )
}

/// The next batch, and the cursor behind it.
pub open spec fn next_batch<F: Scalar>(scene: SceneModel<F>, cursor: BatchCursor) -> Option<
    (PrimitiveBatch, BatchCursor),
> {
    match next_kind(scene, cursor) {
        None => None,
        Some(kind) => {
            let start = cursor.at(kind);
            let end = next_end(scene, cursor, kind);
            let blended = blended_end(
                scene.blended_quad_indices,
                end,
                cursor.blended as int,
            ) as usize;
            Some(
                (
                    batch_of(
                        kind,
                        drawn_of_kind(scene, kind)[start as int].texture,
                        Range { start, end: end as usize },
                        Range { start: cursor.blended, end: blended },
                    ),
                    cursor.advanced(kind, end as usize, blended),
                ),
            )
        },
    }
}

/// Whether the cursor is not past the primitives of any kind.
pub open spec fn cursor_in_range<F: Scalar>(scene: SceneModel<F>, cursor: BatchCursor) -> bool {
    &&& forall|kind: PrimitiveKind| #[trigger]
        cursor.at(kind) <= drawn_of_kind(scene, kind).len()
    &&& cursor.blended <= scene.blended_quad_indices.len()
    &&& fits_memory(scene)
}

/// Whether the primitives of each kind can be counted.
pub open spec fn fits_memory<F: Scalar>(scene: SceneModel<F>) -> bool {
    &&& forall|kind: PrimitiveKind| (#[trigger] drawn_of_kind(scene, kind)).len() <= usize::MAX
    &&& scene.blended_quad_indices.len() <= usize::MAX
}

/// How many primitives are left.
pub open spec fn left<F: Scalar>(scene: SceneModel<F>, cursor: BatchCursor) -> nat {
    (scene.shadows.len() - cursor.shadows + scene.quads.len() - cursor.quads + scene.paths.len()
        - cursor.paths + scene.underlines.len() - cursor.underlines
        + scene.monochrome_sprites.len() - cursor.monochrome_sprites
        + scene.subpixel_sprites.len() - cursor.subpixel_sprites
        + scene.polychrome_sprites.len() - cursor.polychrome_sprites + scene.surfaces.len()
        - cursor.surfaces) as nat
}

/// All batches from the cursor on.
pub open spec fn batches_from<F: Scalar>(scene: SceneModel<F>, cursor: BatchCursor) -> Seq<
    PrimitiveBatch,
>
    decreases left(scene, cursor),
    when cursor_in_range(scene, cursor)
{
    proof {
        law_batches_make_progress(scene, cursor);
    }
    match next_batch(scene, cursor) {
        None => Seq::empty(),
        Some((batch, cursor)) => seq![batch] + batches_from(scene, cursor),
    }
}

pub proof fn lemma_run_end(
    drawn: Seq<DrawnModel>,
    kind: PrimitiveKind,
    limit: int,
    texture: Option<AtlasTextureId>,
    end: int,
)
    requires
        0 <= end <= drawn.len(),
    ensures
        end <= run_end(drawn, kind, limit, texture, end) <= drawn.len(),
        forall|i: int|
            end <= i < run_end(drawn, kind, limit, texture, end) ==> kind.rank(
                (#[trigger] drawn[i]).order,
            ) < limit && drawn[i].texture == texture,
        ({
            let stop = run_end(drawn, kind, limit, texture, end);
            stop < drawn.len() ==> !(kind.rank(drawn[stop].order) < limit && drawn[stop].texture
                == texture)
        }),
    decreases drawn.len() - end,
{
    if end < drawn.len() && kind.rank(drawn[end].order) < limit && drawn[end].texture == texture {
        lemma_run_end(drawn, kind, limit, texture, end + 1);
    }
}

pub proof fn lemma_blended_end(blended: Seq<u32>, quads_end: int, end: int)
    requires
        0 <= end <= blended.len(),
    ensures
        end <= blended_end(blended, quads_end, end) <= blended.len(),
        forall|i: int|
            end <= i < blended_end(blended, quads_end, end) ==> (#[trigger] blended[i])
                < quads_end,
        blended_end(blended, quads_end, end) < blended.len() ==> blended[blended_end(
            blended,
            quads_end,
            end,
        )] >= quads_end,
    decreases blended.len() - end,
{
    if end < blended.len() && blended[end] < quads_end {
        lemma_blended_end(blended, quads_end, end + 1);
    }
}

/// A batch takes at least one primitive and never goes past the last one.
pub proof fn law_batches_make_progress<F: Scalar>(scene: SceneModel<F>, cursor: BatchCursor)
    requires
        cursor_in_range(scene, cursor),
    ensures
        match next_batch(scene, cursor) {
            None => true,
            Some((batch, after)) => cursor_in_range(scene, after) && left(scene, after) < left(
                scene,
                cursor,
            ),
        },
{
    if let Some(kind) = next_kind(scene, cursor) {
        let drawn = drawn_of_kind(scene, kind);
        let start = cursor.at(kind) as int;
        lemma_run_end(
            drawn,
            kind,
            least_rank(scene, cursor, kind.place(), 8),
            drawn[start].texture,
            start + 1,
        );
        let end = next_end(scene, cursor, kind);
        lemma_blended_end(scene.blended_quad_indices, end, cursor.blended as int);
        let after = next_batch(scene, cursor)->Some_0.1;
        assert forall|other: PrimitiveKind| #[trigger]
            after.at(other) <= drawn_of_kind(scene, other).len() by {
            assert(cursor.at(other) <= drawn_of_kind(scene, other).len());
        }
        assert(cursor.at(PrimitiveKind::Shadow) <= scene.shadows.len());
        assert(cursor.at(PrimitiveKind::Quad) <= scene.quads.len());
        assert(cursor.at(PrimitiveKind::Path) <= scene.paths.len());
        assert(cursor.at(PrimitiveKind::Underline) <= scene.underlines.len());
        assert(cursor.at(PrimitiveKind::MonochromeSprite) <= scene.monochrome_sprites.len());
        assert(cursor.at(PrimitiveKind::SubpixelSprite) <= scene.subpixel_sprites.len());
        assert(cursor.at(PrimitiveKind::PolychromeSprite) <= scene.polychrome_sprites.len());
        assert(cursor.at(PrimitiveKind::Surface) <= scene.surfaces.len());
    }
}

impl<F: Scalar> Drawn for Shadow<F> {
    open spec fn drawn(self) -> DrawnModel {
        DrawnModel { order: self.order, texture: None }
    }

    fn draw_order(&self) -> (result: u32) {
        self.order
    }

    fn draw_texture(&self) -> (result: Option<AtlasTextureId>) {
        None
    }
}

impl<F: Scalar> Drawn for Quad<F> {
    open spec fn drawn(self) -> DrawnModel {
        DrawnModel { order: self.order, texture: None }
    }

    fn draw_order(&self) -> (result: u32) {
        self.order
    }

    fn draw_texture(&self) -> (result: Option<AtlasTextureId>) {
        None
    }
}

impl<F: Scalar> Drawn for Underline<F> {
    open spec fn drawn(self) -> DrawnModel {
        DrawnModel { order: self.order, texture: None }
    }

    fn draw_order(&self) -> (result: u32) {
        self.order
    }

    fn draw_texture(&self) -> (result: Option<AtlasTextureId>) {
        None
    }
}

impl<F: Scalar> Drawn for MonochromeSprite<F> {
    open spec fn drawn(self) -> DrawnModel {
        DrawnModel { order: self.order, texture: Some(self.tile.texture_id) }
    }

    fn draw_order(&self) -> (result: u32) {
        self.order
    }

    fn draw_texture(&self) -> (result: Option<AtlasTextureId>) {
        Some(self.tile.texture_id)
    }
}

impl<F: Scalar> Drawn for SubpixelSprite<F> {
    open spec fn drawn(self) -> DrawnModel {
        DrawnModel { order: self.order, texture: Some(self.tile.texture_id) }
    }

    fn draw_order(&self) -> (result: u32) {
        self.order
    }

    fn draw_texture(&self) -> (result: Option<AtlasTextureId>) {
        Some(self.tile.texture_id)
    }
}

impl<F: Scalar> Drawn for PolychromeSprite<F> {
    open spec fn drawn(self) -> DrawnModel {
        DrawnModel { order: self.order, texture: Some(self.tile.texture_id) }
    }

    fn draw_order(&self) -> (result: u32) {
        self.order
    }

    fn draw_texture(&self) -> (result: Option<AtlasTextureId>) {
        Some(self.tile.texture_id)
    }
}

impl<F: Scalar> Drawn for PaintSurface<F> {
    open spec fn drawn(self) -> DrawnModel {
        DrawnModel { order: self.order, texture: None }
    }

    fn draw_order(&self) -> (result: u32) {
        self.order
    }

    fn draw_texture(&self) -> (result: Option<AtlasTextureId>) {
        None
    }
}

impl<F: Scalar> Drawn for Path<F> {
    open spec fn drawn(self) -> DrawnModel {
        DrawnModel { order: self.order, texture: None }
    }

    fn draw_order(&self) -> (result: u32) {
        self.order
    }

    fn draw_texture(&self) -> (result: Option<AtlasTextureId>) {
        None
    }
}

/// How many primitives a range holds.
pub open spec fn range_len(range: Range<usize>) -> nat {
    if range.start < range.end {
        (range.end - range.start) as nat
    } else {
        0
    }
}

fn len_of_range(range: &Range<usize>) -> (result: usize)
    ensures
        result == range_len(*range),
{
    if range.start < range.end {
        range.end - range.start
    } else {
        0
    }
}

/// `name (count)`.
pub open spec fn counted_label(name: Seq<char>, range: Range<usize>) -> Seq<char> {
    name + " ("@ + spec_decimal(range_len(range)) + ")"@
}

fn counted(name: &str, range: &Range<usize>) -> (result: String)
    ensures
        result@ == counted_label(name@, *range),
{
    let mut result = String::from_str(name);
    result.append(" (");
    result.append(decimal(len_of_range(range)).as_str());
    result.append(")");
    result
}

fn counted_on_atlas(name: &str, range: &Range<usize>, texture_id: &AtlasTextureId) -> (result:
    String)
    ensures
        result@ == counted_label(name@, *range) + " on atlas "@ + spec_decimal(
            texture_id.index as nat,
        ),
{
    let mut result = counted(name, range);
    result.append(" on atlas ");
    result.append(decimal(texture_id.index as usize).as_str());
    result
}

impl PrimitiveBatch {
    /// The batch in words.
    pub open spec fn spec_label(self) -> Seq<char> {
        match self {
            PrimitiveBatch::Shadows(range) => counted_label("shadows"@, range),
            PrimitiveBatch::Quads { range, .. } => counted_label("quads"@, range),
            PrimitiveBatch::Paths(range) => counted_label("paths"@, range),
            PrimitiveBatch::Underlines(range) => counted_label("underlines"@, range),
            PrimitiveBatch::MonochromeSprites { texture_id, range } => counted_label(
                "monochrome sprites"@,
                range,
            ) + " on atlas "@ + spec_decimal(texture_id.index as nat),
            PrimitiveBatch::SubpixelSprites { texture_id, range } => counted_label(
                "subpixel sprites"@,
                range,
            ) + " on atlas "@ + spec_decimal(texture_id.index as nat),
            PrimitiveBatch::PolychromeSprites { texture_id, range } => counted_label(
                "polychrome sprites"@,
                range,
            ) + " on atlas "@ + spec_decimal(texture_id.index as nat),
            PrimitiveBatch::Surfaces(range) => counted_label("surfaces"@, range),
        }
    }

    /// The batch in words: what it draws, how many of them, and from which atlas.
    pub fn label(&self) -> (result: String)
        ensures
            result@ == self.spec_label(),
    {
        match self {
            PrimitiveBatch::Shadows(range) => counted("shadows", range),
            PrimitiveBatch::Quads { range, .. } => counted("quads", range),
            PrimitiveBatch::Paths(range) => counted("paths", range),
            PrimitiveBatch::Underlines(range) => counted("underlines", range),
            PrimitiveBatch::MonochromeSprites { texture_id, range } => counted_on_atlas(
                "monochrome sprites",
                range,
                texture_id,
            ),
            PrimitiveBatch::SubpixelSprites { texture_id, range } => counted_on_atlas(
                "subpixel sprites",
                range,
                texture_id,
            ),
            PrimitiveBatch::PolychromeSprites { texture_id, range } => counted_on_atlas(
                "polychrome sprites",
                range,
                texture_id,
            ),
            PrimitiveBatch::Surfaces(range) => counted("surfaces", range),
        }
    }
}

/// Maps a quad's index to depth, with greater values closer: steps of 1/65535,
/// and nothing above one.
pub open spec fn spec_quad_depth<F: Scalar>(quad_id: u32) -> F {
    F::spec_ratio((quad_id + 1) as u32, 1).spec_times(F::spec_ratio(1, 65535)).spec_least(spec_one())
}

/// Maps a quad's index in [`Scene::quads`] to depth, with greater values closer.
///
/// Zero is reserved for the cleared depth buffer. `quad_depth(n)` also
/// represents the cursor after the first `n` quads: with a strict greater-than
/// test, it is above quads before the cursor and ties with the quad after it.
/// Depth-based renderers must use this mapping in both CPU and shader code.
///
/// Steps are 1/65535 so that every partitioned quad lands on its own value of a
/// 16-bit unorm depth attachment as well as a 32-bit float one.
pub fn quad_depth<F: Scalar>(quad_id: u32) -> (result: F)
    requires
        quad_id < u32::MAX,
    ensures
        result == spec_quad_depth::<F>(quad_id),
{
    F::ratio(quad_id + 1, 1).times(F::ratio(1, 65535)).least(one())
}

/// Walks through a finished scene's batches in draw order.
pub struct BatchIterator<'a, F: Scalar> {
    /// The scene.
    pub scene: &'a Scene<F>,
    /// How far the walk has got.
    pub cursor: BatchCursor,
}

fn rank_of_next<T: Drawn>(items: &Vec<T>, at: usize, place: u64) -> (result: u64)
    requires
        place < 8,
    ensures
        result == (if at < items@.len() {
            items@[at as int].drawn().order
        } else {
            u32::MAX
        }) * 8 + place,
{
    let order: u32 = if at < items.len() {
        items[at].draw_order()
    } else {
        u32::MAX
    };
    order as u64 * 8 + place
}

fn end_of_run<T: Drawn>(items: &Vec<T>, kind: PrimitiveKind, place: u64, limit: u64, at: usize) -> (
    end: usize)
    requires
        at < items@.len(),
        place == kind.place(),
    ensures
        end == run_end(
            all_drawn(items@),
            kind,
            limit as int,
            items@[at as int].drawn().texture,
            at + 1,
        ),
        at < end <= items@.len(),
{
    let texture = items[at].draw_texture();
    let count: usize = items.len();
    let mut end: usize = at + 1;
    while end < count
        invariant
            at < end <= count,
            count == items@.len(),
            place == kind.place(),
            texture == items@[at as int].drawn().texture,
            run_end(all_drawn(items@), kind, limit as int, texture, at + 1) == run_end(
                all_drawn(items@),
                kind,
                limit as int,
                texture,
                end as int,
            ),
        ensures
            at < end <= items@.len(),
            end == run_end(all_drawn(items@), kind, limit as int, texture, at + 1),
        decreases items@.len() - end,
    {
        let goes_on: bool = items[end].draw_order() as u64 * 8 + place < limit
            && same_texture(items[end].draw_texture(), texture);
        if !goes_on {
            break;
        }
        end = end + 1;
    }
    end
}

fn same_texture(a: Option<AtlasTextureId>, b: Option<AtlasTextureId>) -> (result: bool)
    ensures
        result == (a == b),
{
    match (a, b) {
        (Some(a), Some(b)) => a == b,
        (None, None) => true,
        _ => false,
    }
}

impl<'a, F: Scalar> BatchIterator<'a, F> {
    /// Whether the walk has not gone past the primitives of any kind.
    pub open spec fn wf(self) -> bool {
        cursor_in_range(self.scene@, self.cursor)
    }

    /// A walk from the first batch on.
    pub fn new(scene: &'a Scene<F>) -> (result: Self)
        ensures
            result.wf(),
            result.scene == scene,
            result.cursor == BatchCursor::spec_start(),
    {
        let result = BatchIterator {
            scene,
            cursor: BatchCursor {
                shadows: 0,
                quads: 0,
                blended: 0,
                paths: 0,
                underlines: 0,
                monochrome_sprites: 0,
                subpixel_sprites: 0,
                polychrome_sprites: 0,
                surfaces: 0,
            },
        };
        proof {
            lemma_scene_fits_memory(scene);
        }
        result
    }

    fn rank_at(&self, place: usize) -> (result: u64)
        requires
            self.wf(),
            place < 8,
        ensures
            result == next_rank(self.scene@, self.cursor, place as int),
    {
        let scene = self.scene;
        match place {
            0 => rank_of_next(&scene.shadows, self.cursor.shadows, 0),
            1 => rank_of_next(&scene.quads, self.cursor.quads, 1),
            2 => rank_of_next(&scene.paths, self.cursor.paths, 2),
            3 => rank_of_next(&scene.underlines, self.cursor.underlines, 3),
            4 => rank_of_next(&scene.monochrome_sprites, self.cursor.monochrome_sprites, 4),
            5 => rank_of_next(&scene.subpixel_sprites, self.cursor.subpixel_sprites, 5),
            6 => rank_of_next(&scene.polychrome_sprites, self.cursor.polychrome_sprites, 6),
            _ => rank_of_next(&scene.surfaces, self.cursor.surfaces, 7),
        }
    }

    fn least_rank_but(&self, skip: usize) -> (result: u64)
        requires
            self.wf(),
        ensures
            result == least_rank(self.scene@, self.cursor, skip as int, 8),
    {
        let mut least: u64 = 0x8_0000_0000;
        let mut place: usize = 0;
        while place < 8
            invariant
                self.wf(),
                place <= 8,
                least == least_rank(self.scene@, self.cursor, skip as int, place as nat),
            decreases 8 - place,
        {
            let rank: u64 = self.rank_at(place);
            if place != skip && rank < least {
                least = rank;
            }
            place = place + 1;
        }
        least
    }

    /// The next batch, if anything is left to draw.
    pub fn next(&mut self) -> (result: Option<PrimitiveBatch>)
        requires
            old(self).wf(),
        ensures
            final(self).wf(),
            final(self).scene == old(self).scene,
            match result {
                None => {
                    &&& next_batch(old(self).scene@, old(self).cursor) is None
                    &&& final(self).cursor == old(self).cursor
                },
                Some(batch) => next_batch(old(self).scene@, old(self).cursor) == Some(
                    (batch, final(self).cursor),
                ),
            },
    {
        let ghost model = self.scene@;
        let ghost before = self.cursor;
        proof {
            law_batches_make_progress(model, before);
            lemma_least_rank_of_none(model, before, 8);
        }
        let scene = self.scene;
        // No kind stands at this place, so nothing is skipped.
        let first: u64 = self.least_rank_but(8);
        let place: u64 = first % 8;
        let limit: u64 = self.least_rank_but(place as usize);
        if place == 0 {
            let start: usize = self.cursor.shadows;
            if start >= scene.shadows.len() {
                return None;
            }
            let end: usize = end_of_run(&scene.shadows, PrimitiveKind::Shadow, 0, limit, start);
            self.cursor.shadows = end;
            Some(PrimitiveBatch::Shadows(start..end))
        } else if place == 1 {
            let start: usize = self.cursor.quads;
            if start >= scene.quads.len() {
                return None;
            }
            let end: usize = end_of_run(&scene.quads, PrimitiveKind::Quad, 1, limit, start);
            self.cursor.quads = end;
            let blended_start: usize = self.cursor.blended;
            let mut blended: usize = blended_start;
            while blended < scene.blended_quad_indices.len()
                && (scene.blended_quad_indices[blended] as usize) < end
                invariant
                    blended_start <= blended <= scene.blended_quad_indices@.len(),
                    blended_end(
                        scene.blended_quad_indices@,
                        end as int,
                        blended_start as int,
                    ) == blended_end(scene.blended_quad_indices@, end as int, blended as int),
                decreases scene.blended_quad_indices@.len() - blended,
            {
                blended = blended + 1;
            }
            self.cursor.blended = blended;
            Some(
                PrimitiveBatch::Quads { range: start..end, blended_range: blended_start..blended },
            )
        } else if place == 2 {
            let start: usize = self.cursor.paths;
            if start >= scene.paths.len() {
                return None;
            }
            proof {
                assert(all_drawn(scene.paths@) =~= paths_drawn(model.paths));
            }
            let end: usize = end_of_run(&scene.paths, PrimitiveKind::Path, 2, limit, start);
            self.cursor.paths = end;
            Some(PrimitiveBatch::Paths(start..end))
        } else if place == 3 {
            let start: usize = self.cursor.underlines;
            if start >= scene.underlines.len() {
                return None;
            }
            let end: usize = end_of_run(
                &scene.underlines,
                PrimitiveKind::Underline,
                3,
                limit,
                start,
            );
            self.cursor.underlines = end;
            Some(PrimitiveBatch::Underlines(start..end))
        } else if place == 4 {
            let start: usize = self.cursor.monochrome_sprites;
            if start >= scene.monochrome_sprites.len() {
                return None;
            }
            let texture_id = scene.monochrome_sprites[start].tile.texture_id;
            let end: usize = end_of_run(
                &scene.monochrome_sprites,
                PrimitiveKind::MonochromeSprite,
                4,
                limit,
                start,
            );
            self.cursor.monochrome_sprites = end;
            Some(PrimitiveBatch::MonochromeSprites { texture_id, range: start..end })
        } else if place == 5 {
            let start: usize = self.cursor.subpixel_sprites;
            if start >= scene.subpixel_sprites.len() {
                return None;
            }
            let texture_id = scene.subpixel_sprites[start].tile.texture_id;
            let end: usize = end_of_run(
                &scene.subpixel_sprites,
                PrimitiveKind::SubpixelSprite,
                5,
                limit,
                start,
            );
            self.cursor.subpixel_sprites = end;
            Some(PrimitiveBatch::SubpixelSprites { texture_id, range: start..end })
        } else if place == 6 {
            let start: usize = self.cursor.polychrome_sprites;
            if start >= scene.polychrome_sprites.len() {
                return None;
            }
            let texture_id = scene.polychrome_sprites[start].tile.texture_id;
            let end: usize = end_of_run(
                &scene.polychrome_sprites,
                PrimitiveKind::PolychromeSprite,
                6,
                limit,
                start,
            );
            self.cursor.polychrome_sprites = end;
            Some(PrimitiveBatch::PolychromeSprites { texture_id, range: start..end })
        } else {
            let start: usize = self.cursor.surfaces;
            if start >= scene.surfaces.len() {
                return None;
            }
            let end: usize = end_of_run(&scene.surfaces, PrimitiveKind::Surface, 7, limit, start);
            self.cursor.surfaces = end;
            Some(PrimitiveBatch::Surfaces(start..end))
        }
    }
}

proof fn lemma_scene_fits_memory<F: Scalar>(scene: &Scene<F>)
    ensures
        fits_memory(scene@),
{
    assert forall|kind: PrimitiveKind| (#[trigger] drawn_of_kind(scene@, kind)).len()
        <= usize::MAX by {
        assert(scene.shadows.len() <= usize::MAX);
        assert(scene.quads.len() <= usize::MAX);
        assert(scene.paths.len() <= usize::MAX);
        assert(scene.underlines.len() <= usize::MAX);
        assert(scene.monochrome_sprites.len() <= usize::MAX);
        assert(scene.subpixel_sprites.len() <= usize::MAX);
        assert(scene.polychrome_sprites.len() <= usize::MAX);
        assert(scene.surfaces.len() <= usize::MAX);
    }
    assert(scene.blended_quad_indices.len() <= usize::MAX);
}

/// To skip the place behind the last kind is to skip nothing.
proof fn lemma_least_rank_of_none<F: Scalar>(
    scene: SceneModel<F>,
    cursor: BatchCursor,
    count: nat,
)
    requires
        count <= 8,
    ensures
        least_rank(scene, cursor, 8, count) == least_rank(scene, cursor, -1, count),
        0 <= least_rank(scene, cursor, -1, count),
    decreases count,
{
    if count > 0 {
        lemma_least_rank_of_none(scene, cursor, (count - 1) as nat);
    }
}

impl<F: Scalar> Scene<F> {
    /// The frame's batches in draw order. Only valid after [`Self::finish`].
    pub fn batches(&self) -> (result: Vec<PrimitiveBatch>)
        ensures
            result@ == batches_from(self@, BatchCursor::spec_start()),
    {
        let mut walk = BatchIterator::new(self);
        let mut result: Vec<PrimitiveBatch> = Vec::new();
        let ghost all = batches_from(self@, BatchCursor::spec_start());
        proof {
            assert(result@ + all =~= all);
        }
        loop
            invariant
                walk.wf(),
                walk.scene == self,
                all == batches_from(self@, BatchCursor::spec_start()),
                result@ + batches_from(self@, walk.cursor) == all,
            decreases left(self@, walk.cursor),
        {
            let ghost before = walk.cursor;
            let ghost result_0 = result@;
            proof {
                law_batches_make_progress(self@, before);
            }
            match walk.next() {
                Some(batch) => {
                    result.push(batch);
                    proof {
                        assert(batches_from(self@, before) == seq![batch] + batches_from(
                            self@,
                            walk.cursor,
                        ));
                        assert(result@ + batches_from(self@, walk.cursor) =~= result_0 + (
                        seq![batch] + batches_from(self@, walk.cursor)));
                    }
                },
                None => {
                    proof {
                        assert(batches_from(self@, before) =~= Seq::<PrimitiveBatch>::empty());
                        assert(result@ =~= all);
                    }
                    return result;
                },
            }
        }
    }
}

} // verus!
