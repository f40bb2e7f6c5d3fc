//! The texture atlas: tiles for glyphs and images, packed into pages.
use vstd::prelude::*;

use crate::atlas_key::{AtlasKey, AtlasKeyModel};
use crate::atlas_page::{lies_where_packed, packed};
use crate::atlas_tile::{AtlasTextureId, AtlasTextureKind, AtlasTile, TileId};
use crate::geometry::{DevicePixels, Size};
use crate::key_table::KeyTable;
use crate::primitives::{MonochromeSprite, PolychromeSprite, SubpixelSprite};
use crate::scalar::Scalar;
use crate::scene::Scene;
use crate::scene_model::SceneModel;
use crate::texture_list::{fits_atlas, page_size, spec_page_size, AtlasTextureList, ListModel};
use crate::tile_table::{is_idle, is_idle_key, names, TileRecordModel};

verus! {

/// How a texel is stored.
#[derive(Clone, Copy, Debug, PartialEq, Eq, Structural)]
pub enum PixelFormat {
    /// One byte of coverage.
    A8Unorm,
    /// A byte each of blue, green, red and opacity.
    Bgra8Unorm,
}

/// Which memory a texture lies in.
#[derive(Clone, Copy, Debug, PartialEq, Eq, Structural)]
pub enum StorageMode {
    /// Memory that the processor and an Apple GPU share.
    Shared,
    /// Memory that is copied to other GPUs.
    Managed,
}

/// The texture that a page needs.
#[derive(Clone, Copy, Debug)]
pub struct TextureDescriptor {
    /// How large the texture is.
    pub size: Size<DevicePixels>,
    /// How its texels are stored.
    pub pixel_format: PixelFormat,
    /// Which memory it lies in.
    pub storage_mode: StorageMode,
}

impl PixelFormat {
    /// How texels of this kind are stored.
    pub open spec fn spec_of(kind: AtlasTextureKind) -> Self {
        if kind == AtlasTextureKind::Monochrome {
            PixelFormat::A8Unorm
        } else {
            PixelFormat::Bgra8Unorm
        }
    }

    /// How many bytes a texel takes.
    pub open spec fn spec_bytes_per_pixel(self) -> u8 {
        match self {
            PixelFormat::A8Unorm => 1,
            PixelFormat::Bgra8Unorm => 4,
        }
    }

    /// How many bytes a texel takes.
    pub fn bytes_per_pixel(self) -> (result: u8)
        ensures
            result == self.spec_bytes_per_pixel(),
    {
        match self {
            PixelFormat::A8Unorm => 1,
            PixelFormat::Bgra8Unorm => 4,
        }
    }
}

/// The texture of a page that is made for a tile of this size.
pub open spec fn spec_texture_descriptor(
    min_size: Size<DevicePixels>,
    kind: AtlasTextureKind,
    is_apple_gpu: bool,
) -> TextureDescriptor {
    TextureDescriptor {
        size: spec_page_size(min_size),
        pixel_format: PixelFormat::spec_of(kind),
        storage_mode: if is_apple_gpu {
            StorageMode::Shared
        } else {
            StorageMode::Managed
        },
    }
}

/// What an atlas holds.
#[verifier::ext_equal]
pub struct AtlasModel {
    /// The pages of one coverage value per texel.
    pub monochrome: ListModel,
    /// The pages of a color per texel.
    pub polychrome: ListModel,
    /// The tile of each key.
    pub keys: Map<AtlasKeyModel, AtlasTile>,
    /// How many frames were drawn.
    pub frame: u64,
    /// Which page is looked at next for tiles to retire.
    pub retire_cursor: usize,
}

impl AtlasModel {
    /// An atlas that holds nothing.
    pub open spec fn spec_empty() -> Self {
        AtlasModel {
            monochrome: ListModel::spec_empty(),
            polychrome: ListModel::spec_empty(),
            keys: Map::empty(),
            frame: 0,
            retire_cursor: 0,
        }
    }

    /// The pages of a kind.
    pub open spec fn list(self, kind: AtlasTextureKind) -> ListModel {
        if kind == AtlasTextureKind::Monochrome {
            self.monochrome
        } else {
            self.polychrome
        }
    }

    /// With other pages of a kind.
    pub open spec fn with_list(self, kind: AtlasTextureKind, list: ListModel) -> Self {
        if kind == AtlasTextureKind::Monochrome {
            AtlasModel { monochrome: list, ..self }
        } else {
            AtlasModel { polychrome: list, ..self }
        }
    }

    /// Whether the atlas holds a tile.
    pub open spec fn has_tile(self, tile: AtlasTile) -> bool {
        self.list(tile.texture_id.kind).has_tile(
            tile.texture_id.index as int,
            tile.tile_id.0,
        )
    }

    /// What is known of a tile.
    pub open spec fn tile(self, tile: AtlasTile) -> TileRecordModel {
        self.list(tile.texture_id.kind).tile(tile.texture_id.index as int, tile.tile_id.0)
    }

    /// Whether the tile of `key` is there and holds what `key` names.
    pub open spec fn key_in_order(self, key: AtlasKeyModel) -> bool {
        let tile = self.keys[key];
        &&& tile.texture_id.kind == key.spec_texture_kind()
        &&& tile.texture_id.kind != AtlasTextureKind::Subpixel
        &&& self.has_tile(tile)
        &&& self.tile(tile).key == key
    }

    /// Whether a tile on a page is that of the key that it holds.
    pub open spec fn tile_in_order(self, kind: AtlasTextureKind, index: int, id: u32) -> bool {
        let key = self.list(kind).tile(index, id).key;
        &&& self.keys.contains_key(key)
        &&& self.keys[key].texture_id == AtlasTextureId { index: index as u32, kind }
        &&& self.keys[key].tile_id == TileId(id)
    }

    /// Whether keys and tiles belong together, one by one.
    pub open spec fn in_order(self) -> bool {
        &&& forall|key: AtlasKeyModel| #[trigger]
            self.keys.contains_key(key) ==> self.key_in_order(key)
        &&& forall|kind: AtlasTextureKind, index: int, id: u32|
            kind != AtlasTextureKind::Subpixel && #[trigger] self.list(kind).has_tile(index, id)
                ==> self.tile_in_order(kind, index, id)
        &&& self.monochrome.pages.len() <= u32::MAX
        &&& self.polychrome.pages.len() <= u32::MAX
    }

    /// With a tile noted as drawn by the current frame, if it is there.
    pub open spec fn touched(self, tile: AtlasTile) -> Self {
        let kind = tile.texture_id.kind;
        self.with_list(
            kind,
            self.list(kind).touched(
                tile.texture_id.index as int,
                tile.tile_id.0,
                self.frame,
            ),
        )
    }

    /// With the first `count` of some tiles noted as drawn by the current frame.
    pub open spec fn marked(self, tiles: Seq<AtlasTile>, count: nat) -> Self
        decreases count,
    {
        if count == 0 {
            self
        } else {
            self.marked(tiles, (count - 1) as nat).touched(tiles[count - 1])
        }
    }

    /// With the tile of `key` taken away, if it has one.
    pub open spec fn removed(self, key: AtlasKeyModel) -> Self {
        if self.keys.contains_key(key) {
            let tile = self.keys[key];
            let kind = tile.texture_id.kind;
            AtlasModel {
                keys: self.keys.remove(key),
                ..self.with_list(
                    kind,
                    self.list(kind).released(tile.texture_id.index as int, tile.tile_id.0),
                )
            }
        } else {
            self
        }
    }

    /// With the tiles of some keys taken away, one after the other.
    pub open spec fn removed_all(self, keys: Seq<AtlasKeyModel>) -> Self
        decreases keys.len(),
    {
        if keys.len() == 0 {
            self
        } else {
            self.removed_all(keys.drop_last()).removed(keys.last())
        }
    }

    /// With a page for a tile of this size.
    pub open spec fn with_new_page(self, kind: AtlasTextureKind, size: Size<DevicePixels>) -> Self {
        self.with_list(kind, self.list(kind).with_new_page(size))
    }

    /// With a tile for `key`.
    pub open spec fn with_tile(self, key: AtlasKeyModel, tile: AtlasTile) -> Self {
        let kind = tile.texture_id.kind;
        AtlasModel {
            keys: self.keys.insert(key, tile),
            ..self.with_list(
                kind,
                self.list(kind).with_tile(
                    tile.texture_id.index as int,
                    tile.tile_id.0,
                    TileRecordModel { key, last_used_frame: self.frame },
                ),
            )
        }
    }

    /// How many pages there are, dropped ones included.
    pub open spec fn page_count(self) -> int {
        (self.monochrome.pages.len() + self.polychrome.pages.len()) as int
    }

    /// The place of the page that is looked at next for tiles to retire, among all
    /// pages.
    pub open spec fn retire_place(self) -> int {
        self.retire_cursor as int % self.page_count()
    }

    /// The kind of the page that is looked at next.
    pub open spec fn retire_kind(self) -> AtlasTextureKind {
        if self.retire_place() < self.monochrome.pages.len() {
            AtlasTextureKind::Monochrome
        } else {
            AtlasTextureKind::Polychrome
        }
    }

    /// The index of the page that is looked at next.
    pub open spec fn retire_index(self) -> int {
        if self.retire_place() < self.monochrome.pages.len() {
            self.retire_place()
        } else {
            self.retire_place() - self.monochrome.pages.len()
        }
    }

    /// Whether `after` is the atlas with the tiles taken away that nothing has
    /// drawn for `max_idle_frames`, of those on one page that may be retired, and
    /// the next page looked at next. Dropping tiles in another order changes
    /// nothing else.
    pub open spec fn retires_to(self, max_idle_frames: u64, after: Self) -> bool {
        if self.page_count() == 0 {
            after == self
        } else {
            let moved_on = AtlasModel {
                retire_cursor: (self.retire_place() + 1) as usize,
                ..self
            };
            let list = self.list(self.retire_kind());
            if !list.has_page(self.retire_index()) {
                after == moved_on
            } else {
                exists|keys: Seq<AtlasKeyModel>|
                    (forall|key: AtlasKeyModel| #[trigger]
                        keys.contains(key) <==> is_idle_key(
                            list.page(self.retire_index()).tiles,
                            key,
                            self.frame,
                            max_idle_frames,
                        )) && after == #[trigger] moved_on.removed_all(keys)
            }
        }
    }
}

/// The tiles of sprites of one color.
pub open spec fn monochrome_tiles<F: Scalar>(sprites: Seq<MonochromeSprite<F>>) -> Seq<AtlasTile> {
    sprites.map_values(|sprite: MonochromeSprite<F>| sprite.tile)
}

/// The tiles of sprites with a coverage value per channel.
pub open spec fn subpixel_tiles<F: Scalar>(sprites: Seq<SubpixelSprite<F>>) -> Seq<AtlasTile> {
    sprites.map_values(|sprite: SubpixelSprite<F>| sprite.tile)
}

/// The tiles of sprites with their own colors.
pub open spec fn polychrome_tiles<F: Scalar>(sprites: Seq<PolychromeSprite<F>>) -> Seq<AtlasTile> {
    sprites.map_values(|sprite: PolychromeSprite<F>| sprite.tile)
}

/// The tiles that a scene draws.
pub open spec fn scene_tiles<F: Scalar>(scene: SceneModel<F>) -> Seq<AtlasTile> {
    monochrome_tiles(scene.monochrome_sprites) + subpixel_tiles(scene.subpixel_sprites)
        + polychrome_tiles(scene.polychrome_sprites)
}

/// Whether no tile that a scene draws lies in a texture with a coverage value per
/// color channel, which this atlas has none of.
pub open spec fn no_subpixel_tiles(tiles: Seq<AtlasTile>) -> bool {
    forall|i: int|
        0 <= i < tiles.len() ==> (#[trigger] tiles[i]).texture_id.kind
            != AtlasTextureKind::Subpixel
}

/// The texture atlas.
pub struct MetalAtlas {
    /// Whether the GPU shares memory with the processor.
    pub is_apple_gpu: bool,
    /// The pages of one coverage value per texel.
    pub monochrome_textures: AtlasTextureList,
    /// The pages of a color per texel.
    pub polychrome_textures: AtlasTextureList,
    /// The tile of each key.
    pub tiles_by_key: KeyTable,
    /// How many frames were drawn. Shared across every window drawing with this
    /// atlas, which is why a window compares against it before replaying a
    /// retained scene.
    pub frame: u64,
    /// Position in the concatenated (monochrome, polychrome) page list that the
    /// next [`Self::retire_unused`] examines.
    pub retire_cursor: usize,
}

impl View for MetalAtlas {
    type V = AtlasModel;

    open spec fn view(&self) -> AtlasModel {
        AtlasModel {
            monochrome: self.monochrome_textures@,
            polychrome: self.polychrome_textures@,
            keys: self.tiles_by_key@,
            frame: self.frame,
            retire_cursor: self.retire_cursor,
        }
    }
}

impl MetalAtlas {
    /// The pages of a kind.
    pub open spec fn textures(self, kind: AtlasTextureKind) -> AtlasTextureList {
        if kind == AtlasTextureKind::Monochrome {
            self.monochrome_textures
        } else {
            self.polychrome_textures
        }
    }

    /// Whether a tile lies where its page has put it.
    pub open spec fn lies_in_place(self, tile: AtlasTile) -> bool {
        let textures = self.textures(tile.texture_id.kind).textures@;
        let index = tile.texture_id.index as int;
        &&& index < textures.len()
        &&& textures[index] is Some
        &&& lies_where_packed(textures[index]->Some_0.allocator, tile)
    }

    /// Whether keys and tiles belong together, and tiles lie where their pages
    /// have put them.
    pub open spec fn wf(self) -> bool {
        &&& self.monochrome_textures.wf(AtlasTextureKind::Monochrome)
        &&& self.polychrome_textures.wf(AtlasTextureKind::Polychrome)
        &&& self.tiles_by_key.wf()
        &&& self@.in_order()
        &&& forall|key: AtlasKeyModel| #[trigger]
            self@.keys.contains_key(key) ==> self.lies_in_place(self@.keys[key])
    }

    /// An atlas that holds nothing.
    pub fn new(is_apple_gpu: bool) -> (result: Self)
        ensures
            result.wf(),
            result@ == AtlasModel::spec_empty(),
            result.is_apple_gpu == is_apple_gpu,
    {
        MetalAtlas {
            is_apple_gpu,
            monochrome_textures: AtlasTextureList::new(AtlasTextureKind::Monochrome),
            polychrome_textures: AtlasTextureList::new(AtlasTextureKind::Polychrome),
            tiles_by_key: KeyTable::new(),
            frame: 0,
            retire_cursor: 0,
        }
    }

    /// How many frames were drawn.
    pub fn frame_index(&self) -> (result: u64)
        ensures
            result == self@.frame,
    {
        self.frame
    }

    /// Whether `key` has a tile.
    pub fn contains_key(&self, key: &AtlasKey) -> (result: bool)
        ensures
            result == self@.keys.contains_key(key@),
    {
        self.tiles_by_key.get(key).is_some()
    }

    /// Whether there is such a page.
    pub fn texture_is_live(&self, id: AtlasTextureId) -> (result: bool)
        requires
            id.kind != AtlasTextureKind::Subpixel,
        ensures
            result == self@.list(id.kind).has_page(id.index as int),
    {
        let index: usize = id.index as usize;
        match id.kind {
            AtlasTextureKind::Monochrome => index < self.monochrome_textures.textures.len()
                && self.monochrome_textures.textures[index].is_some(),
            _ => index < self.polychrome_textures.textures.len()
                && self.polychrome_textures.textures[index].is_some(),
        }
    }

    fn touch(&mut self, tile: AtlasTile)
        requires
            old(self).wf(),
            tile.texture_id.kind != AtlasTextureKind::Subpixel,
        ensures
            final(self).wf(),
            final(self)@ == old(self)@.touched(tile),
            final(self).is_apple_gpu == old(self).is_apple_gpu,
    {
        let ghost before = *self;
        let id = tile.texture_id;
        let frame: u64 = self.frame;
        match id.kind {
            AtlasTextureKind::Monochrome => self.monochrome_textures.touch(
                AtlasTextureKind::Monochrome,
                id.index as usize,
                tile.tile_id.0,
                frame,
            ),
            _ => self.polychrome_textures.touch(
                AtlasTextureKind::Polychrome,
                id.index as usize,
                tile.tile_id.0,
                frame,
            ),
        }
        proof {
            assert(self@ =~= before@.touched(tile));
            lemma_touched_in_order(before@, tile);
            assert forall|key: AtlasKeyModel| #[trigger]
                self@.keys.contains_key(key) implies self.lies_in_place(self@.keys[key]) by {
                assert(before@.keys.contains_key(key));
                assert(before.lies_in_place(before@.keys[key]));
            }
        }
    }
}

pub proof fn lemma_touched_in_order(atlas: AtlasModel, tile: AtlasTile)
    requires
        atlas.in_order(),
        tile.texture_id.kind != AtlasTextureKind::Subpixel,
    ensures
        atlas.touched(tile).in_order(),
        atlas.touched(tile).keys == atlas.keys,
        atlas.touched(tile).frame == atlas.frame,
        atlas.touched(tile).retire_cursor == atlas.retire_cursor,
        forall|kind: AtlasTextureKind, index: int, id: u32|
            kind != AtlasTextureKind::Subpixel ==> (#[trigger] atlas.touched(tile).list(
                kind,
            ).has_tile(index, id) <==> atlas.list(kind).has_tile(index, id)),
        forall|kind: AtlasTextureKind, index: int, id: u32|
            kind != AtlasTextureKind::Subpixel && atlas.list(kind).has_tile(index, id) ==> (
            #[trigger] atlas.touched(tile).list(kind).tile(index, id)).key == atlas.list(
                kind,
            ).tile(index, id).key,
{
    let after = atlas.touched(tile);
    assert forall|kind: AtlasTextureKind, index: int, id: u32|
        kind != AtlasTextureKind::Subpixel implies (#[trigger] after.list(kind).has_tile(
        index,
        id,
    ) <==> atlas.list(kind).has_tile(index, id)) by {}
    assert forall|kind: AtlasTextureKind, index: int, id: u32|
        kind != AtlasTextureKind::Subpixel && atlas.list(kind).has_tile(index, id) implies (
    #[trigger] after.list(kind).tile(index, id)).key == atlas.list(kind).tile(index, id).key by {}
    assert forall|key: AtlasKeyModel| #[trigger]
        after.keys.contains_key(key) implies after.key_in_order(key) by {
        assert(atlas.key_in_order(key));
        let own = atlas.keys[key];
        assert(after.list(own.texture_id.kind).has_tile(
            own.texture_id.index as int,
            own.tile_id.0,
        ));
        assert(after.list(own.texture_id.kind).tile(
            own.texture_id.index as int,
            own.tile_id.0,
        ).key == key);
    }
    assert forall|kind: AtlasTextureKind, index: int, id: u32|
        kind != AtlasTextureKind::Subpixel && #[trigger] after.list(kind).has_tile(
            index,
            id,
        ) implies after.tile_in_order(kind, index, id) by {
        assert(atlas.list(kind).has_tile(index, id));
        assert(atlas.tile_in_order(kind, index, id));
        assert(after.list(kind).tile(index, id).key == atlas.list(kind).tile(index, id).key);
    }
}

proof fn lemma_removed_in_order(atlas: AtlasModel, key: AtlasKeyModel)
    requires
        atlas.in_order(),
    ensures
        atlas.removed(key).in_order(),
        atlas.removed(key).keys == atlas.keys.remove(key),
        atlas.removed(key).frame == atlas.frame,
        atlas.removed(key).retire_cursor == atlas.retire_cursor,
        forall|kind: AtlasTextureKind, index: int, id: u32|
            kind != AtlasTextureKind::Subpixel ==> (#[trigger] atlas.removed(key).list(
                kind,
            ).has_tile(index, id) <==> atlas.list(kind).has_tile(index, id) && atlas.list(
                kind,
            ).tile(index, id).key != key),
        forall|kind: AtlasTextureKind, index: int, id: u32|
            kind != AtlasTextureKind::Subpixel && #[trigger] atlas.removed(key).list(
                kind,
            ).has_tile(index, id) ==> atlas.removed(key).list(kind).tile(index, id) == atlas.list(
                kind,
            ).tile(index, id),
{
    let after = atlas.removed(key);
    if !atlas.keys.contains_key(key) {
        assert(atlas.keys.remove(key) =~= atlas.keys);
        assert forall|kind: AtlasTextureKind, index: int, id: u32|
            kind != AtlasTextureKind::Subpixel implies (#[trigger] after.list(kind).has_tile(
            index,
            id,
        ) <==> atlas.list(kind).has_tile(index, id) && atlas.list(kind).tile(index, id).key
            != key) by {
            if atlas.list(kind).has_tile(index, id) {
                assert(atlas.tile_in_order(kind, index, id));
            }
        }
    } else {
        let tile = atlas.keys[key];
        let own = tile.texture_id.kind;
        let own_index = tile.texture_id.index as int;
        let own_id = tile.tile_id.0;
        assert(atlas.key_in_order(key));
        let list = atlas.list(own);
        let released = list.released(own_index, own_id);
        assert forall|kind: AtlasTextureKind, index: int, id: u32|
            kind != AtlasTextureKind::Subpixel implies (#[trigger] after.list(kind).has_tile(
            index,
            id,
        ) <==> atlas.list(kind).has_tile(index, id) && atlas.list(kind).tile(index, id).key
            != key) && (after.list(kind).has_tile(index, id) ==> after.list(kind).tile(index, id)
            == atlas.list(kind).tile(index, id)) by {
            if atlas.list(kind).has_tile(index, id) {
                assert(atlas.tile_in_order(kind, index, id));
            }
            if kind == own && index == own_index {
                let tiles = list.page(own_index).tiles.remove(own_id);
                if tiles == Map::<u32, TileRecordModel>::empty() {
                    assert(!tiles.contains_key(id));
                }
            }
        }
        assert forall|other: AtlasKeyModel| #[trigger]
            after.keys.contains_key(other) implies after.key_in_order(other) by {
            assert(atlas.key_in_order(other));
            let place = atlas.keys[other];
            assert(after.list(place.texture_id.kind).has_tile(
                place.texture_id.index as int,
                place.tile_id.0,
            ));
        }
        assert forall|kind: AtlasTextureKind, index: int, id: u32|
            kind != AtlasTextureKind::Subpixel && #[trigger] after.list(kind).has_tile(
                index,
                id,
            ) implies after.tile_in_order(kind, index, id) by {
            assert(atlas.list(kind).has_tile(index, id));
            assert(atlas.tile_in_order(kind, index, id));
        }
    }
}

/// Touching a tile twice is touching it once.
proof fn lemma_touched_twice(atlas: AtlasModel, a: AtlasTile, b: AtlasTile)
    requires
        a.texture_id == b.texture_id,
        a.tile_id == b.tile_id,
    ensures
        atlas.touched(a).touched(b) == atlas.touched(a),
{
    let kind = a.texture_id.kind;
    let index = a.texture_id.index as int;
    let id = a.tile_id.0;
    let list = atlas.list(kind);
    if list.has_page(index) {
        let page = list.page(index);
        assert(page.touched(id, atlas.frame).touched(id, atlas.frame) =~= page.touched(
            id,
            atlas.frame,
        ));
        assert(list.touched(index, id, atlas.frame).touched(index, id, atlas.frame)
            =~= list.touched(index, id, atlas.frame));
    }
    assert(atlas.touched(a).touched(b) =~= atlas.touched(a));
}

impl MetalAtlas {
    /// Marks `tiles[i]` if it is not the tile that was marked last.
    fn mark(&mut self, tile: AtlasTile, previous: Option<AtlasTile>)
        requires
            old(self).wf(),
            tile.texture_id.kind != AtlasTextureKind::Subpixel,
            match previous {
                Some(previous) => old(self)@.touched(previous) == old(self)@,
                None => true,
            },
        ensures
            final(self).wf(),
            final(self)@ == old(self)@.touched(tile),
            final(self)@.touched(tile) == final(self)@,
            final(self).is_apple_gpu == old(self).is_apple_gpu,
    {
        if let Some(previous) = previous {
            if previous.texture_id == tile.texture_id && previous.tile_id == tile.tile_id {
                proof {
                    lemma_touched_twice(self@, previous, tile);
                }
                return;
            }
        }
        proof {
            lemma_touched_twice(self@, tile, tile);
        }
        self.touch(tile);
    }

    /// Records every tile that `scene` draws as used in the current frame, without
    /// advancing it. Finishing a scene sorts each sprite list by tile within a draw
    /// order, so a glyph repeated across a line of text collapses to one lookup
    /// here.
    pub fn note_scene_tiles<F: Scalar>(&mut self, scene: &Scene<F>)
        requires
            old(self).wf(),
            no_subpixel_tiles(scene_tiles(scene@)),
        ensures
            final(self).wf(),
            final(self)@ == old(self)@.marked(
                scene_tiles(scene@),
                scene_tiles(scene@).len(),
            ),
            final(self).is_apple_gpu == old(self).is_apple_gpu,
    {
        let ghost before = self@;
        let ghost gpu = self.is_apple_gpu;
        let ghost tiles = scene_tiles(scene@);
        let ghost first = monochrome_tiles(scene@.monochrome_sprites).len();
        let ghost second = subpixel_tiles(scene@.subpixel_sprites).len();
        let mut previous: Option<AtlasTile> = None;
        let mut i: usize = 0;
        while i < scene.monochrome_sprites.len()
            invariant
                self.wf(),
                tiles == scene_tiles(scene@),
                no_subpixel_tiles(tiles),
                first == scene.monochrome_sprites@.len(),
                i <= first,
                self@ == before.marked(tiles, i as nat),
                self.is_apple_gpu == gpu,
                match previous {
                    Some(previous) => self@.touched(previous) == self@,
                    None => true,
                },
            decreases first - i,
        {
            let tile = scene.monochrome_sprites[i].tile;
            proof {
                assert(tiles[i as int] == tile);
            }
            self.mark(tile, previous);
            previous = Some(tile);
            i = i + 1;
        }
        i = 0;
        while i < scene.subpixel_sprites.len()
            invariant
                self.wf(),
                tiles == scene_tiles(scene@),
                no_subpixel_tiles(tiles),
                first == scene.monochrome_sprites@.len(),
                second == scene.subpixel_sprites@.len(),
                i <= second,
                self@ == before.marked(tiles, (first + i) as nat),
                self.is_apple_gpu == gpu,
                match previous {
                    Some(previous) => self@.touched(previous) == self@,
                    None => true,
                },
            decreases second - i,
        {
            let tile = scene.subpixel_sprites[i].tile;
            proof {
                assert(tiles[first + i] == tile);
            }
            self.mark(tile, previous);
            previous = Some(tile);
            i = i + 1;
        }
        i = 0;
        while i < scene.polychrome_sprites.len()
            invariant
                self.wf(),
                tiles == scene_tiles(scene@),
                no_subpixel_tiles(tiles),
                first == scene.monochrome_sprites@.len(),
                second == scene.subpixel_sprites@.len(),
                i <= scene.polychrome_sprites@.len(),
                self@ == before.marked(tiles, (first + second + i) as nat),
                self.is_apple_gpu == gpu,
                match previous {
                    Some(previous) => self@.touched(previous) == self@,
                    None => true,
                },
            decreases scene.polychrome_sprites@.len() - i,
        {
            let tile = scene.polychrome_sprites[i].tile;
            proof {
                assert(tiles[first + second + i] == tile);
            }
            self.mark(tile, previous);
            previous = Some(tile);
            i = i + 1;
        }
    }

    /// Counts a frame, and marks every tile that `scene` draws as used in it.
    pub fn note_frame_drawn<F: Scalar>(&mut self, scene: &Scene<F>)
        requires
            old(self).wf(),
            old(self)@.frame < u64::MAX,
            no_subpixel_tiles(scene_tiles(scene@)),
        ensures
            final(self).wf(),
            final(self)@ == old(self)@.drawn(scene_tiles(scene@)),
            final(self).is_apple_gpu == old(self).is_apple_gpu,
    {
        let ghost before = *self;
        self.frame = self.frame + 1;
        proof {
            lemma_other_fields_in_order(before@, self@);
            assert forall|key: AtlasKeyModel| #[trigger]
                self@.keys.contains_key(key) implies self.lies_in_place(self@.keys[key]) by {
                assert(before.lies_in_place(before@.keys[key]));
            }
        }
        self.note_scene_tiles(scene);
    }

    /// Takes the tile of `key` away, if it has one, and drops its page once that
    /// holds nothing.
    pub fn remove(&mut self, key: &AtlasKey)
        requires
            old(self).wf(),
        ensures
            final(self).wf(),
            final(self)@ == old(self)@.removed(key@),
            final(self).is_apple_gpu == old(self).is_apple_gpu,
    {
        let ghost before = *self;
        match self.tiles_by_key.remove(key) {
            Some(tile) => {
                let id = tile.texture_id;
                proof {
                    assert(before@.key_in_order(key@));
                }
                match id.kind {
                    AtlasTextureKind::Monochrome => self.monochrome_textures.release(
                        AtlasTextureKind::Monochrome,
                        id.index as usize,
                        tile.tile_id.0,
                    ),
                    _ => self.polychrome_textures.release(
                        AtlasTextureKind::Polychrome,
                        id.index as usize,
                        tile.tile_id.0,
                    ),
                }
                proof {
                    assert(self@ =~= before@.removed(key@));
                    lemma_removed_in_order(before@, key@);
                    assert forall|other: AtlasKeyModel| #[trigger]
                        self@.keys.contains_key(other) implies self.lies_in_place(
                        self@.keys[other],
                    ) by {
                        assert(before@.key_in_order(other));
                        assert(before.lies_in_place(before@.keys[other]));
                        assert(self@.key_in_order(other));
                        lemma_kept_in_place(before, *self, tile, before@.keys[other]);
                    }
                }
            },
            None => {
                proof {
                    assert(self.tiles_by_key@ =~= before.tiles_by_key@);
                    assert(self@ =~= before@);
                    assert forall|other: AtlasKeyModel| #[trigger]
                        self@.keys.contains_key(other) implies self.lies_in_place(
                        self@.keys[other],
                    ) by {
                        assert(before.lies_in_place(before@.keys[other]));
                    }
                }
            },
        }
    }
}

/// A tile lies where it lay while another one comes or goes.
proof fn lemma_kept_in_place(
    before: MetalAtlas,
    after: MetalAtlas,
    changed: AtlasTile,
    tile: AtlasTile,
)
    requires
        before.lies_in_place(tile),
        after@.has_tile(tile),
        tile.texture_id.kind != AtlasTextureKind::Subpixel,
        ({
            let kind = changed.texture_id.kind;
            let other = if kind == AtlasTextureKind::Monochrome {
                AtlasTextureKind::Polychrome
            } else {
                AtlasTextureKind::Monochrome
            };
            &&& kind != AtlasTextureKind::Subpixel
            &&& after.textures(kind).packing_kept(
                before.textures(kind),
                changed.texture_id.index as int,
                changed.tile_id.0,
            ) || after.textures(kind).packing_kept(before.textures(kind), -1, 0)
            &&& after.textures(other) == before.textures(other)
        }),
        tile.texture_id != changed.texture_id || tile.tile_id != changed.tile_id,
    ensures
        after.lies_in_place(tile),
{
    let kind = tile.texture_id.kind;
    let index = tile.texture_id.index as int;
    if kind == changed.texture_id.kind {
        let slot = before.textures(kind).textures@[index];
        assert(packed(slot->Some_0.allocator).contains_key(tile.tile_id.0));
    }
}

pub proof fn lemma_other_fields_in_order(before: AtlasModel, after: AtlasModel)
    requires
        before.in_order(),
        after.monochrome == before.monochrome,
        after.polychrome == before.polychrome,
        after.keys == before.keys,
    ensures
        after.in_order(),
{
    assert forall|key: AtlasKeyModel| #[trigger]
        after.keys.contains_key(key) implies after.key_in_order(key) by {
        assert(before.key_in_order(key));
    }
    assert forall|kind: AtlasTextureKind, index: int, id: u32|
        kind != AtlasTextureKind::Subpixel && #[trigger] after.list(kind).has_tile(
            index,
            id,
        ) implies after.tile_in_order(kind, index, id) by {
        assert(before.list(kind).has_tile(index, id));
        assert(before.tile_in_order(kind, index, id));
    }
}

impl AtlasModel {
    /// With one more frame, which draws `tiles`.
    pub open spec fn drawn(self, tiles: Seq<AtlasTile>) -> Self {
        AtlasModel { frame: (self.frame + 1) as u64, ..self }.marked(tiles, tiles.len())
    }
}

/// A tile that was made, and what is left to be done for it.
#[derive(Clone, Copy, Debug)]
pub struct NewTile {
    /// The tile.
    pub tile: AtlasTile,
    /// The texture that its page needs, where the page is new.
    pub texture: Option<TextureDescriptor>,
}

/// A page that was made, and the texture that it needs.
#[derive(Clone, Copy, Debug)]
pub struct NewPage {
    /// The page.
    pub id: AtlasTextureId,
    /// The texture that it needs.
    pub texture: TextureDescriptor,
}

impl MetalAtlas {
    /// Whether a tile of this size is put where it belongs: on the newest page with
    /// room for it, and on a new page only if there is none.
    pub open spec fn picks_page(
        self,
        kind: AtlasTextureKind,
        size: Size<DevicePixels>,
        index: u32,
        on_new_page: bool,
    ) -> bool {
        if on_new_page {
            !self.textures(kind).has_room(size)
        } else {
            self.textures(kind).newest_with_room(index as int, size)
        }
    }
}

/// The page that is made next for a tile of this size.
pub open spec fn spec_new_page(
    atlas: AtlasModel,
    kind: AtlasTextureKind,
    size: Size<DevicePixels>,
    is_apple_gpu: bool,
) -> NewPage {
    NewPage {
        id: AtlasTextureId { index: atlas.list(kind).next_index() as u32, kind },
        texture: spec_texture_descriptor(size, kind, is_apple_gpu),
    }
}

impl AtlasModel {
    /// Whether making a tile of this size for `key` has led to `after`: the tile is
    /// one that one of the pages did not hold, or one on a new page, which needs a
    /// texture.
    pub open spec fn allocates_to(
        self,
        key: AtlasKeyModel,
        size: Size<DevicePixels>,
        is_apple_gpu: bool,
        made: NewTile,
        after: Self,
    ) -> bool {
        let kind = key.spec_texture_kind();
        let tile = made.tile;
        &&& tile.texture_id.kind == kind
        &&& tile.padding == 0
        &&& tile.bounds.size == size
        &&& match made.texture {
            None => {
                &&& self.list(kind).has_page(tile.texture_id.index as int)
                &&& !self.has_tile(tile)
                &&& after == self.with_tile(key, tile)
            },
            Some(texture) => {
                &&& texture == spec_texture_descriptor(size, kind, is_apple_gpu)
                &&& tile.texture_id.index == self.list(kind).next_index()
                &&& after == self.with_new_page(kind, size).with_tile(key, tile)
            },
        }
    }
}

proof fn lemma_with_tile_in_order(
    before: AtlasModel,
    paged: AtlasModel,
    key: AtlasKeyModel,
    tile: AtlasTile,
)
    requires
        before.in_order(),
        !before.keys.contains_key(key),
        key.spec_texture_kind() == tile.texture_id.kind,
        tile.texture_id.kind != AtlasTextureKind::Subpixel,
        paged.keys == before.keys,
        paged.monochrome.pages.len() <= u32::MAX,
        paged.polychrome.pages.len() <= u32::MAX,
        forall|kind: AtlasTextureKind, index: int, id: u32|
            kind != AtlasTextureKind::Subpixel ==> (#[trigger] paged.list(kind).has_tile(index, id)
                <==> before.list(kind).has_tile(index, id)) && (before.list(kind).has_tile(
                index,
                id,
            ) ==> paged.list(kind).tile(index, id) == before.list(kind).tile(index, id)),
        paged.list(tile.texture_id.kind).has_page(tile.texture_id.index as int),
        !paged.has_tile(tile),
    ensures
        paged.with_tile(key, tile).in_order(),
        forall|other: AtlasKeyModel| #[trigger]
            before.keys.contains_key(other) ==> paged.with_tile(key, tile).has_tile(
                before.keys[other],
            ) && before.keys[other].texture_id.kind != AtlasTextureKind::Subpixel && (
            before.keys[other].texture_id != tile.texture_id || before.keys[other].tile_id
                != tile.tile_id),
{
    let after = paged.with_tile(key, tile);
    let own = tile.texture_id.kind;
    let own_index = tile.texture_id.index as int;
    let own_id = tile.tile_id.0;
    assert forall|kind: AtlasTextureKind, index: int, id: u32|
        kind != AtlasTextureKind::Subpixel implies (#[trigger] after.list(kind).has_tile(
        index,
        id,
    ) <==> before.list(kind).has_tile(index, id) || (kind == own && index == own_index && id
        == own_id)) && (before.list(kind).has_tile(index, id) ==> after.list(kind).tile(index, id)
        == before.list(kind).tile(index, id)) by {
        assert(paged.list(kind).has_tile(index, id) <==> before.list(kind).has_tile(index, id));
        assert(paged.list(own).has_tile(own_index, own_id) <==> before.list(own).has_tile(
            own_index,
            own_id,
        ));
    }
    assert forall|other: AtlasKeyModel| #[trigger]
        before.keys.contains_key(other) implies after.has_tile(before.keys[other])
        && before.keys[other].texture_id.kind != AtlasTextureKind::Subpixel && (
    before.keys[other].texture_id != tile.texture_id || before.keys[other].tile_id
        != tile.tile_id) && after.tile(before.keys[other]).key == other by {
        assert(before.key_in_order(other));
        let place = before.keys[other];
        assert(after.list(place.texture_id.kind).has_tile(
            place.texture_id.index as int,
            place.tile_id.0,
        ));
        assert(paged.list(own).has_tile(own_index, own_id) <==> before.list(own).has_tile(
            own_index,
            own_id,
        ));
    }
    assert forall|other: AtlasKeyModel| #[trigger]
        after.keys.contains_key(other) implies after.key_in_order(other) by {
        if other == key {
            assert(after.list(own).has_tile(own_index, own_id));
        } else {
            assert(before.keys.contains_key(other));
            assert(before.key_in_order(other));
        }
    }
    assert forall|kind: AtlasTextureKind, index: int, id: u32|
        kind != AtlasTextureKind::Subpixel && #[trigger] after.list(kind).has_tile(
            index,
            id,
        ) implies after.tile_in_order(kind, index, id) by {
        if kind == own && index == own_index && id == own_id {
        } else {
            assert(before.list(kind).has_tile(index, id));
            assert(before.tile_in_order(kind, index, id));
        }
    }
}

/// A new page changes nothing about the tiles that are there.
proof fn lemma_new_page(atlas: AtlasModel, kind: AtlasTextureKind, size: Size<DevicePixels>)
    requires
        atlas.in_order(),
        kind != AtlasTextureKind::Subpixel,
        atlas.list(kind).free_in_order(),
        atlas.list(kind).pages.len() < u32::MAX,
    ensures
        ({
            let paged = atlas.with_new_page(kind, size);
            let index = atlas.list(kind).next_index();
            &&& paged.in_order()
            &&& paged.keys == atlas.keys
            &&& paged.list(kind).has_page(index)
            &&& paged.list(kind).page(index).tiles == Map::<u32, TileRecordModel>::empty()
            &&& paged.monochrome.pages.len() <= u32::MAX
            &&& paged.polychrome.pages.len() <= u32::MAX
            &&& forall|other: AtlasTextureKind, index: int, id: u32|
                other != AtlasTextureKind::Subpixel ==> (#[trigger] paged.list(other).has_tile(
                    index,
                    id,
                ) <==> atlas.list(other).has_tile(index, id)) && (atlas.list(other).has_tile(
                    index,
                    id,
                ) ==> paged.list(other).tile(index, id) == atlas.list(other).tile(index, id))
        }),
{
    let paged = atlas.with_new_page(kind, size);
    let place = atlas.list(kind).next_index();
    if atlas.list(kind).free.len() > 0 {
        assert(atlas.list(kind).pages[atlas.list(kind).free.last() as int] is None);
    }
    assert forall|other: AtlasTextureKind, index: int, id: u32|
        other != AtlasTextureKind::Subpixel implies (#[trigger] paged.list(other).has_tile(
        index,
        id,
    ) <==> atlas.list(other).has_tile(index, id)) && (atlas.list(other).has_tile(index, id)
        ==> paged.list(other).tile(index, id) == atlas.list(other).tile(index, id)) by {}
    assert forall|key: AtlasKeyModel| #[trigger]
        paged.keys.contains_key(key) implies paged.key_in_order(key) by {
        assert(atlas.key_in_order(key));
        let tile = atlas.keys[key];
        assert(paged.list(tile.texture_id.kind).has_tile(
            tile.texture_id.index as int,
            tile.tile_id.0,
        ));
    }
    assert forall|other: AtlasTextureKind, index: int, id: u32|
        other != AtlasTextureKind::Subpixel && #[trigger] paged.list(other).has_tile(
            index,
            id,
        ) implies paged.tile_in_order(other, index, id) by {
        assert(atlas.list(other).has_tile(index, id));
        assert(atlas.tile_in_order(other, index, id));
    }
}

impl MetalAtlas {
    fn texture_descriptor(&self, min_size: Size<DevicePixels>, kind: AtlasTextureKind) -> (result:
        TextureDescriptor)
        ensures
            result == spec_texture_descriptor(min_size, kind, self.is_apple_gpu),
    {
        TextureDescriptor {
            size: page_size(min_size),
            pixel_format: match kind {
                AtlasTextureKind::Monochrome => PixelFormat::A8Unorm,
                _ => PixelFormat::Bgra8Unorm,
            },
            storage_mode: if self.is_apple_gpu {
                StorageMode::Shared
            } else {
                StorageMode::Managed
            },
        }
    }

    /// The tile of `key`, if it has one, noted as drawn by the current frame.
    pub fn get(&mut self, key: &AtlasKey) -> (result: Option<AtlasTile>)
        requires
            old(self).wf(),
        ensures
            final(self).wf(),
            final(self).is_apple_gpu == old(self).is_apple_gpu,
            match result {
                Some(tile) => {
                    &&& old(self)@.keys.contains_key(key@)
                    &&& tile == old(self)@.keys[key@]
                    &&& final(self)@ == old(self)@.touched(tile)
                },
                None => {
                    &&& !old(self)@.keys.contains_key(key@)
                    &&& *final(self) == *old(self)
                },
            },
    {
        match self.tiles_by_key.get(key) {
            Some(tile) => {
                proof {
                    assert(self@.key_in_order(key@));
                }
                self.touch(tile);
                Some(tile)
            },
            None => None,
        }
    }

    /// Makes a tile of this size for `key`, which has none: on one of the pages if
    /// there is room, the newest first, and else on a new page. A size that is
    /// empty or fits no page gets no tile; the new page stays.
    pub fn allocate(&mut self, key: &AtlasKey, size: Size<DevicePixels>) -> (result: Result<
        NewTile,
        NewPage,
    >)
        requires
            old(self).wf(),
            !old(self)@.keys.contains_key(key@),
            key@.spec_texture_kind() != AtlasTextureKind::Subpixel,
            old(self)@.list(key@.spec_texture_kind()).pages.len() < u32::MAX,
        ensures
            final(self).wf(),
            final(self).is_apple_gpu == old(self).is_apple_gpu,
            result is Ok <==> fits_atlas(size),
            match result {
                Ok(made) => {
                    &&& old(self)@.allocates_to(
                        key@,
                        size,
                        old(self).is_apple_gpu,
                        made,
                        final(self)@,
                    )
                    &&& old(self).picks_page(
                        key@.spec_texture_kind(),
                        size,
                        made.tile.texture_id.index,
                        made.texture is Some,
                    )
                },
                Err(page) => {
                    &&& page == spec_new_page(
                        old(self)@,
                        key@.spec_texture_kind(),
                        size,
                        old(self).is_apple_gpu,
                    )
                    &&& final(self)@ == old(self)@.with_new_page(key@.spec_texture_kind(), size)
                },
            },
    {
        let ghost before = *self;
        let kind = key.texture_kind();
        let frame: u64 = self.frame;
        let existing = match kind {
            AtlasTextureKind::Monochrome => self.monochrome_textures.allocate(
                AtlasTextureKind::Monochrome,
                size,
                key,
                frame,
            ),
            _ => self.polychrome_textures.allocate(
                AtlasTextureKind::Polychrome,
                size,
                key,
                frame,
            ),
        };
        if let Some(tile) = existing {
            self.tiles_by_key.insert(key.duplicate(), tile);
            proof {
                lemma_with_tile_in_order(before@, before@, key@, tile);
                assert(self@ =~= before@.with_tile(key@, tile));
                assert forall|other: AtlasKeyModel| #[trigger]
                    self@.keys.contains_key(other) implies self.lies_in_place(
                    self@.keys[other],
                ) by {
                    if other != key@ {
                        assert(before@.keys.contains_key(other));
                        assert(before.lies_in_place(before@.keys[other]));
                        lemma_kept_in_place(before, *self, tile, before@.keys[other]);
                    }
                }
            }
            return Ok(NewTile { tile, texture: None });
        }
        let ghost tried = *self;
        proof {
            assert(tried@ =~= before@);
        }
        let index: u32 = match kind {
            AtlasTextureKind::Monochrome => self.monochrome_textures.next_index(),
            _ => self.polychrome_textures.next_index(),
        };
        let made = match kind {
            AtlasTextureKind::Monochrome => self.monochrome_textures.allocate_on_new_page(
                AtlasTextureKind::Monochrome,
                size,
                key,
                frame,
            ),
            _ => self.polychrome_textures.allocate_on_new_page(
                AtlasTextureKind::Polychrome,
                size,
                key,
                frame,
            ),
        };
        proof {
            lemma_new_page(before@, kind, size);
        }
        let ghost paged = before@.with_new_page(kind, size);
        match made {
            Some(tile) => {
                self.tiles_by_key.insert(key.duplicate(), tile);
                proof {
                    lemma_with_tile_in_order(before@, paged, key@, tile);
                    assert(self@ =~= paged.with_tile(key@, tile));
                    assert forall|other: AtlasKeyModel| #[trigger]
                        self@.keys.contains_key(other) implies self.lies_in_place(
                        self@.keys[other],
                    ) by {
                        if other != key@ {
                            assert(before@.keys.contains_key(other));
                            assert(before.lies_in_place(before@.keys[other]));
                            assert(before@.key_in_order(other));
                            lemma_kept_in_place(before, tried, tile, before@.keys[other]);
                            lemma_kept_in_place(tried, *self, tile, before@.keys[other]);
                        }
                    }
                }
                let texture = self.texture_descriptor(size, kind);
                Ok(NewTile { tile, texture: Some(texture) })
            },
            None => {
                proof {
                    assert(self@ =~= paged);
                    assert forall|other: AtlasKeyModel| #[trigger]
                        self@.keys.contains_key(other) implies self.lies_in_place(
                        self@.keys[other],
                    ) by {
                        assert(before.lies_in_place(before@.keys[other]));
                        assert(before@.key_in_order(other));
                        assert(paged.key_in_order(other));
                        let unlike = AtlasTile {
                            texture_id: AtlasTextureId {
                                index: before@.keys[other].texture_id.index,
                                kind,
                            },
                            tile_id: TileId(
                                if before@.keys[other].tile_id.0 == 0 {
                                    1
                                } else {
                                    0
                                },
                            ),
                            ..before@.keys[other]
                        };
                        lemma_kept_in_place(before, tried, unlike, before@.keys[other]);
                        lemma_kept_in_place(tried, *self, unlike, before@.keys[other]);
                    }
                }
                let texture = self.texture_descriptor(size, kind);
                Err(NewPage { id: AtlasTextureId { index, kind }, texture })
            },
        }
    }
}

/// Why a tile could not be made.
#[derive(Debug)]
pub enum AtlasError<E> {
    /// What the tile holds could not be rasterized.
    Build(E),
    /// No page can hold a tile of this size. The page that was made for it stays.
    FailedToAllocate(NewPage),
}

/// A tile, and what is left to be done where it was made just now.
#[derive(Debug)]
pub struct FoundTile {
    /// The tile.
    pub tile: AtlasTile,
    /// The texture that the tile's page needs, where the page is new.
    pub texture: Option<TextureDescriptor>,
    /// What is to be written to the tile, where the tile is new.
    pub upload: Option<Vec<u8>>,
}

impl AtlasModel {
    /// What becomes of the atlas, and what is returned, when `key` has no tile and
    /// rasterizing it has given `built`.
    pub open spec fn inserts_to<E>(
        self,
        key: AtlasKeyModel,
        is_apple_gpu: bool,
        built: Result<Option<(Size<DevicePixels>, Vec<u8>)>, E>,
        result: Result<Option<FoundTile>, AtlasError<E>>,
        after: Self,
    ) -> bool {
        match built {
            Err(error) => {
                &&& result == Err::<Option<FoundTile>, AtlasError<E>>(AtlasError::Build(error))
                &&& after == self
            },
            Ok(None) => {
                &&& result == Ok::<Option<FoundTile>, AtlasError<E>>(None)
                &&& after == self
            },
            Ok(Some((size, bytes))) => if fits_atlas(size) {
                &&& result is Ok
                &&& result->Ok_0 is Some
                &&& result->Ok_0->Some_0.upload == Some(bytes)
                &&& self.allocates_to(
                    key,
                    size,
                    is_apple_gpu,
                    NewTile {
                        tile: result->Ok_0->Some_0.tile,
                        texture: result->Ok_0->Some_0.texture,
                    },
                    after,
                )
            } else {
                &&& result == Err::<Option<FoundTile>, AtlasError<E>>(
                    AtlasError::FailedToAllocate(
                        spec_new_page(self, key.spec_texture_kind(), size, is_apple_gpu),
                    ),
                )
                &&& after == self.with_new_page(key.spec_texture_kind(), size)
            },
        }
    }
}

impl MetalAtlas {
    /// Whether the tile that was made, if one was, is put where it belongs.
    pub open spec fn puts_in_place<E>(
        self,
        kind: AtlasTextureKind,
        result: Result<Option<FoundTile>, AtlasError<E>>,
    ) -> bool {
        match result {
            Ok(Some(found)) => self.picks_page(
                kind,
                found.tile.bounds.size,
                found.tile.texture_id.index,
                found.texture is Some,
            ),
            _ => true,
        }
    }

    /// Makes a tile for `key`, which has none, from what rasterizing it has given.
    pub fn insert_built<E>(
        &mut self,
        key: &AtlasKey,
        built: Result<Option<(Size<DevicePixels>, Vec<u8>)>, E>,
    ) -> (result: Result<Option<FoundTile>, AtlasError<E>>)
        requires
            old(self).wf(),
            !old(self)@.keys.contains_key(key@),
            key@.spec_texture_kind() != AtlasTextureKind::Subpixel,
            old(self)@.list(key@.spec_texture_kind()).pages.len() < u32::MAX,
        ensures
            final(self).wf(),
            final(self).is_apple_gpu == old(self).is_apple_gpu,
            old(self)@.inserts_to(key@, old(self).is_apple_gpu, built, result, final(self)@),
            old(self).puts_in_place(key@.spec_texture_kind(), result),
    {
        match built {
            Err(error) => Err(AtlasError::Build(error)),
            Ok(None) => Ok(None),
            Ok(Some((size, bytes))) => match self.allocate(key, size) {
                Ok(made) => Ok(
                    Some(
                        FoundTile { tile: made.tile, texture: made.texture, upload: Some(bytes) },
                    ),
                ),
                Err(page) => Err(AtlasError::FailedToAllocate(page)),
            },
        }
    }

    /// The tile of `key`. One that has none is rasterized by `build`, which gives
    /// the tile's size and texels, or nothing where there is nothing to draw.
    pub fn get_or_insert_with<E, B>(&mut self, key: &AtlasKey, build: B) -> (result: Result<
        Option<FoundTile>,
        AtlasError<E>,
    >) where B: FnOnce() -> Result<Option<(Size<DevicePixels>, Vec<u8>)>, E>
        requires
            old(self).wf(),
            key@.spec_texture_kind() != AtlasTextureKind::Subpixel,
            old(self)@.list(key@.spec_texture_kind()).pages.len() < u32::MAX,
            call_requires(build, ()),
        ensures
            final(self).wf(),
            final(self).is_apple_gpu == old(self).is_apple_gpu,
            if old(self)@.keys.contains_key(key@) {
                let tile = old(self)@.keys[key@];
                &&& result == Ok::<Option<FoundTile>, AtlasError<E>>(
                    Some(FoundTile { tile, texture: None, upload: None }),
                )
                &&& final(self)@ == old(self)@.touched(tile)
            } else {
                &&& exists|built: Result<Option<(Size<DevicePixels>, Vec<u8>)>, E>| #[trigger]
                    call_ensures(build, (), built) && old(self)@.inserts_to(
                        key@,
                        old(self).is_apple_gpu,
                        built,
                        result,
                        final(self)@,
                    )
                &&& old(self).puts_in_place(key@.spec_texture_kind(), result)
            },
    {
        if let Some(tile) = self.get(key) {
            return Ok(Some(FoundTile { tile, texture: None, upload: None }));
        }
        let built = build();
        self.insert_built(key, built)
    }

    /// Looks at one page for glyph and SVG tiles that nothing has drawn for
    /// `max_idle_frames`, and lets them go; the next call looks at the next page.
    pub fn retire_unused(&mut self, max_idle_frames: u64)
        requires
            old(self).wf(),
            old(self)@.page_count() <= usize::MAX,
        ensures
            final(self).wf(),
            final(self).is_apple_gpu == old(self).is_apple_gpu,
            old(self)@.retires_to(max_idle_frames, final(self)@),
    {
        let ghost before = *self;
        let monochrome_count: usize = self.monochrome_textures.textures.len();
        let page_count: usize = monochrome_count + self.polychrome_textures.textures.len();
        if page_count == 0 {
            return;
        }
        let cursor: usize = self.retire_cursor % page_count;
        self.retire_cursor = cursor + 1;
        let ghost moved_on = self@;
        proof {
            lemma_other_fields_in_order(before@, self@);
            assert forall|key: AtlasKeyModel| #[trigger]
                self@.keys.contains_key(key) implies self.lies_in_place(self@.keys[key]) by {
                assert(before.lies_in_place(before@.keys[key]));
            }
        }
        let frame: u64 = self.frame;
        let monochrome: bool = cursor < monochrome_count;
        let index: usize = if monochrome {
            cursor
        } else {
            cursor - monochrome_count
        };
        let keys: Vec<AtlasKey> = if monochrome {
            match &self.monochrome_textures.textures[index] {
                Some(page) => page.tiles.idle_keys(frame, max_idle_frames),
                None => {
                    return;
                },
            }
        } else {
            match &self.polychrome_textures.textures[index] {
                Some(page) => page.tiles.idle_keys(frame, max_idle_frames),
                None => {
                    return;
                },
            }
        };
        let ghost models = keys@.map_values(|key: AtlasKey| key@);
        let mut i: usize = 0;
        proof {
            assert(models.take(0) =~= Seq::<AtlasKeyModel>::empty());
        }
        while i < keys.len()
            invariant
                self.wf(),
                self.is_apple_gpu == before.is_apple_gpu,
                i <= keys@.len(),
                models == keys@.map_values(|key: AtlasKey| key@),
                self@ == moved_on.removed_all(models.take(i as int)),
            decreases keys@.len() - i,
        {
            self.remove(&keys[i]);
            proof {
                assert(models.take(i + 1).drop_last() =~= models.take(i as int));
                assert(models.take(i + 1).last() == keys@[i as int]@);
            }
            i = i + 1;
        }
        proof {
            assert(models.take(i as int) =~= models);
            assert forall|key: AtlasKeyModel| #[trigger]
                models.contains(key) <==> names(keys@, key) by {
                if names(keys@, key) {
                    let k = choose|k: int| 0 <= k < keys@.len() && (#[trigger] keys@[k])@ == key;
                    assert(models[k] == key);
                }
                if models.contains(key) {
                    let k = choose|k: int| 0 <= k < models.len() && models[k] == key;
                    assert(keys@[k]@ == key);
                }
            }
            assert(self@ == moved_on.removed_all(models));
        }
    }

    /// The renderer's once-per-frame hook: marks every tile `scene` draws as used
    /// this frame, then lets one page's idle glyph and SVG tiles go. Marking must
    /// come first so a tile drawn this very frame can never be the one retired.
    pub fn on_frame_drawn<F: Scalar>(&mut self, scene: &Scene<F>, max_idle_frames: u64)
        requires
            old(self).wf(),
            old(self)@.frame < u64::MAX,
            old(self)@.page_count() <= usize::MAX,
            no_subpixel_tiles(scene_tiles(scene@)),
        ensures
            final(self).wf(),
            final(self).is_apple_gpu == old(self).is_apple_gpu,
            old(self)@.drawn(scene_tiles(scene@)).retires_to(max_idle_frames, final(self)@),
    {
        let ghost before = self@;
        self.note_frame_drawn(scene);
        proof {
            let tiles = scene_tiles(scene@);
            let counted = AtlasModel { frame: (before.frame + 1) as u64, ..before };
            lemma_other_fields_in_order(before, counted);
            lemma_marked(counted, tiles, tiles.len());
        }
        self.retire_unused(max_idle_frames);
    }
}

/// Marking tiles changes nothing but when they were drawn last.
pub proof fn lemma_marked(atlas: AtlasModel, tiles: Seq<AtlasTile>, count: nat)
    requires
        atlas.in_order(),
        no_subpixel_tiles(tiles),
        count <= tiles.len(),
    ensures
        ({
            let after = atlas.marked(tiles, count);
            &&& after.in_order()
            &&& after.keys == atlas.keys
            &&& after.frame == atlas.frame
            &&& after.retire_cursor == atlas.retire_cursor
            &&& after.monochrome.pages.len() == atlas.monochrome.pages.len()
            &&& after.polychrome.pages.len() == atlas.polychrome.pages.len()
            &&& forall|kind: AtlasTextureKind, index: int, id: u32|
                kind != AtlasTextureKind::Subpixel ==> (#[trigger] after.list(kind).has_tile(
                    index,
                    id,
                ) <==> atlas.list(kind).has_tile(index, id)) && (atlas.list(kind).has_tile(
                    index,
                    id,
                ) ==> after.list(kind).tile(index, id).key == atlas.list(kind).tile(index, id).key)
        }),
    decreases count,
{
    if count > 0 {
        let rest = atlas.marked(tiles, (count - 1) as nat);
        lemma_marked(atlas, tiles, (count - 1) as nat);
        assert(tiles[count - 1].texture_id.kind != AtlasTextureKind::Subpixel);
        lemma_touched_in_order(rest, tiles[count - 1]);
        let after = atlas.marked(tiles, count);
        assert forall|kind: AtlasTextureKind, index: int, id: u32|
            kind != AtlasTextureKind::Subpixel implies (#[trigger] after.list(kind).has_tile(
            index,
            id,
        ) <==> atlas.list(kind).has_tile(index, id)) && (atlas.list(kind).has_tile(index, id)
            ==> after.list(kind).tile(index, id).key == atlas.list(kind).tile(index, id).key) by {
            assert(rest.touched(tiles[count - 1]).list(kind).has_tile(index, id) <==> rest.list(
                kind,
            ).has_tile(index, id));
            assert(rest.list(kind).has_tile(index, id) <==> atlas.list(kind).has_tile(index, id));
        }
    }
}

/// A tile that was marked was drawn last by the current frame.
pub proof fn lemma_marked_tile(atlas: AtlasModel, tiles: Seq<AtlasTile>, count: nat, i: int)
    requires
        atlas.in_order(),
        no_subpixel_tiles(tiles),
        0 <= i < count <= tiles.len(),
        atlas.has_tile(tiles[i]),
    ensures
        atlas.marked(tiles, count).tile(tiles[i]).last_used_frame == atlas.frame,
    decreases count,
{
    let k = (count - 1) as nat;
    let rest = atlas.marked(tiles, k);
    lemma_marked(atlas, tiles, k);
    assert(tiles[i].texture_id.kind != AtlasTextureKind::Subpixel);
    assert(rest.list(tiles[i].texture_id.kind).has_tile(
        tiles[i].texture_id.index as int,
        tiles[i].tile_id.0,
    ));
    if i < k {
        lemma_marked_tile(atlas, tiles, k, i);
    }
}

proof fn lemma_removed_all(atlas: AtlasModel, keys: Seq<AtlasKeyModel>)
    requires
        atlas.in_order(),
    ensures
        atlas.removed_all(keys).in_order(),
        forall|key: AtlasKeyModel| #[trigger]
            atlas.removed_all(keys).keys.contains_key(key) <==> atlas.keys.contains_key(key)
                && !keys.contains(key),
        forall|key: AtlasKeyModel| #[trigger]
            atlas.removed_all(keys).keys.contains_key(key) ==> atlas.removed_all(keys).keys[key]
                == atlas.keys[key],
    decreases keys.len(),
{
    if keys.len() > 0 {
        let rest = keys.drop_last();
        lemma_removed_all(atlas, rest);
        lemma_removed_in_order(atlas.removed_all(rest), keys.last());
        assert forall|key: AtlasKeyModel| #[trigger]
            atlas.removed_all(keys).keys.contains_key(key) <==> atlas.keys.contains_key(key)
                && !keys.contains(key) by {
            if keys.contains(key) {
                let k = choose|k: int| 0 <= k < keys.len() && keys[k] == key;
                if k < rest.len() {
                    assert(rest[k] == key);
                }
            } else {
                if rest.contains(key) {
                    let k = choose|k: int| 0 <= k < rest.len() && rest[k] == key;
                    assert(keys[k] == key);
                }
                if key == keys.last() {
                    assert(keys[keys.len() - 1] == key);
                }
            }
        }
    }
}

/// Retiring lets go exactly of the keys whose tiles lie on the page that is looked
/// at, may be retired, and were not drawn for `max_idle_frames`; every other key
/// keeps its tile.
pub proof fn law_retiring_lets_go_of_idle_tiles_only(
    atlas: AtlasModel,
    max_idle_frames: u64,
    after: AtlasModel,
    key: AtlasKeyModel,
)
    requires
        atlas.in_order(),
        atlas.retires_to(max_idle_frames, after),
        atlas.keys.contains_key(key),
    ensures
        ({
            let tile = atlas.keys[key];
            let looked_at = atlas.page_count() > 0 && tile.texture_id.kind == atlas.retire_kind()
                && tile.texture_id.index == atlas.retire_index();
            after.keys.contains_key(key) <==> !(looked_at && is_idle(
                atlas.tile(tile),
                atlas.frame,
                max_idle_frames,
            ))
        }),
        after.keys.contains_key(key) ==> after.keys[key] == atlas.keys[key],
        after.in_order(),
{
    let tile = atlas.keys[key];
    assert(atlas.key_in_order(key));
    if atlas.page_count() > 0 {
        let moved_on = AtlasModel { retire_cursor: (atlas.retire_place() + 1) as usize, ..atlas };
        lemma_other_fields_in_order(atlas, moved_on);
        let kind = atlas.retire_kind();
        let list = atlas.list(kind);
        let index = atlas.retire_index();
        if list.has_page(index) {
            let tiles = list.page(index).tiles;
            let keys = choose|keys: Seq<AtlasKeyModel>|
                (forall|key: AtlasKeyModel| #[trigger]
                    keys.contains(key) <==> is_idle_key(
                        tiles,
                        key,
                        atlas.frame,
                        max_idle_frames,
                    )) && after == #[trigger] moved_on.removed_all(keys);
            lemma_removed_all(moved_on, keys);
            if keys.contains(key) {
                let id = choose|id: u32|
                    tiles.contains_key(id) && (#[trigger] tiles[id]).key == key && is_idle(
                        tiles[id],
                        atlas.frame,
                        max_idle_frames,
                    );
                assert(list.has_tile(index, id));
                assert(atlas.tile_in_order(kind, index, id));
            } else if tile.texture_id.kind == kind && tile.texture_id.index == index {
                assert(tiles.contains_key(tile.tile_id.0));
                assert(tiles[tile.tile_id.0].key == key);
            }
        }
    }
}

/// Image tiles are never retired, however long nothing draws them.
pub proof fn law_image_tiles_are_never_retired(
    atlas: AtlasModel,
    max_idle_frames: u64,
    after: AtlasModel,
    key: AtlasKeyModel,
)
    requires
        atlas.in_order(),
        atlas.retires_to(max_idle_frames, after),
        atlas.keys.contains_key(key),
        key is Image,
    ensures
        after.keys.contains_key(key),
        after.keys[key] == atlas.keys[key],
{
    assert(atlas.key_in_order(key));
    law_retiring_lets_go_of_idle_tiles_only(atlas, max_idle_frames, after, key);
}

/// A tile that a frame draws is not retired by it.
pub proof fn law_a_tile_drawn_this_frame_is_not_retired(
    atlas: AtlasModel,
    tiles: Seq<AtlasTile>,
    i: int,
    max_idle_frames: u64,
    after: AtlasModel,
    key: AtlasKeyModel,
)
    requires
        atlas.in_order(),
        atlas.frame < u64::MAX,
        no_subpixel_tiles(tiles),
        max_idle_frames > 0,
        atlas.drawn(tiles).retires_to(max_idle_frames, after),
        atlas.keys.contains_key(key),
        0 <= i < tiles.len(),
        tiles[i].texture_id == atlas.keys[key].texture_id,
        tiles[i].tile_id == atlas.keys[key].tile_id,
    ensures
        after.keys.contains_key(key),
        after.keys[key] == atlas.keys[key],
{
    let counted = AtlasModel { frame: (atlas.frame + 1) as u64, ..atlas };
    lemma_other_fields_in_order(atlas, counted);
    lemma_marked(counted, tiles, tiles.len());
    assert(counted.key_in_order(key));
    lemma_marked_tile(counted, tiles, tiles.len(), i);
    law_retiring_lets_go_of_idle_tiles_only(atlas.drawn(tiles), max_idle_frames, after, key);
}

/// What was made for a key is found again under it, and nothing else changes its
/// key.
pub proof fn law_a_made_tile_is_found_again(
    atlas: AtlasModel,
    key: AtlasKeyModel,
    size: Size<DevicePixels>,
    is_apple_gpu: bool,
    made: NewTile,
    after: AtlasModel,
    other: AtlasKeyModel,
)
    requires
        atlas.allocates_to(key, size, is_apple_gpu, made, after),
        other != key,
    ensures
        after.keys.contains_key(key),
        after.keys[key] == made.tile,
        after.keys.contains_key(other) <==> atlas.keys.contains_key(other),
        after.keys.contains_key(other) ==> after.keys[other] == atlas.keys[other],
{
}

/// A key that was removed has no tile, and no page holds anything for it; every
/// other key keeps its tile.
pub proof fn law_a_removed_key_is_gone(
    atlas: AtlasModel,
    key: AtlasKeyModel,
    other: AtlasKeyModel,
    kind: AtlasTextureKind,
    index: int,
    id: u32,
)
    requires
        atlas.in_order(),
        other != key,
        kind != AtlasTextureKind::Subpixel,
    ensures
        !atlas.removed(key).keys.contains_key(key),
        atlas.removed(key).keys.contains_key(other) <==> atlas.keys.contains_key(other),
        atlas.keys.contains_key(other) ==> atlas.removed(key).keys[other] == atlas.keys[other],
        atlas.removed(key).list(kind).has_tile(index, id) ==> atlas.removed(key).list(kind).tile(
            index,
            id,
        ).key != key,
{
    lemma_removed_in_order(atlas, key);
}

/// A page is dropped with its last tile, and its place is the next to be used.
pub proof fn law_an_empty_page_is_dropped(atlas: AtlasModel, key: AtlasKeyModel)
    requires
        atlas.in_order(),
        atlas.keys.contains_key(key),
        ({
            let tile = atlas.keys[key];
            forall|id: u32| #[trigger]
                atlas.list(tile.texture_id.kind).page(
                    tile.texture_id.index as int,
                ).tiles.contains_key(id) ==> id == tile.tile_id.0
        }),
    ensures
        ({
            let tile = atlas.keys[key];
            let index = tile.texture_id.index as int;
            let list = atlas.removed(key).list(tile.texture_id.kind);
            !list.has_page(index) && list.next_index() == index
        }),
{
    assert(atlas.key_in_order(key));
    let tile = atlas.keys[key];
    let page = atlas.list(tile.texture_id.kind).page(tile.texture_id.index as int);
    assert(page.tiles.remove(tile.tile_id.0) =~= Map::<u32, TileRecordModel>::empty());
}

/// Two tiles of one page never overlap, and no tile reaches out of its page.
pub proof fn law_tiles_lie_apart(atlas: &MetalAtlas, a: AtlasKeyModel, b: AtlasKeyModel)
    requires
        atlas.wf(),
        a != b,
        atlas@.keys.contains_key(a),
        atlas@.keys.contains_key(b),
        atlas@.keys[a].texture_id == atlas@.keys[b].texture_id,
    ensures
        ({
            let (p, q) = (atlas@.keys[a].bounds, atlas@.keys[b].bounds);
            ||| p.origin.x.0 + p.size.width.0 <= q.origin.x.0
            ||| q.origin.x.0 + q.size.width.0 <= p.origin.x.0
            ||| p.origin.y.0 + p.size.height.0 <= q.origin.y.0
            ||| q.origin.y.0 + q.size.height.0 <= p.origin.y.0
        }),
        ({
            let tile = atlas@.keys[a];
            let page = atlas@.list(tile.texture_id.kind).page(tile.texture_id.index as int);
            &&& 0 <= tile.bounds.origin.x.0
            &&& 0 <= tile.bounds.origin.y.0
            &&& tile.bounds.origin.x.0 + tile.bounds.size.width.0 <= page.size.width.0
            &&& tile.bounds.origin.y.0 + tile.bounds.size.height.0 <= page.size.height.0
        }),
{
    assert(atlas@.key_in_order(a) && atlas@.key_in_order(b));
    assert(atlas.lies_in_place(atlas@.keys[a]) && atlas.lies_in_place(atlas@.keys[b]));
    let id = atlas@.keys[a].texture_id;
    let textures = atlas.textures(id.kind);
    let page = textures.textures@[id.index as int]->Some_0;
    assert(page.wf());
    assert(packed(page.allocator).contains_key(atlas@.keys[a].tile_id.0));
    assert(packed(page.allocator).contains_key(atlas@.keys[b].tile_id.0));
    assert(atlas@.keys[a].tile_id != atlas@.keys[b].tile_id);
}

} // verus!
