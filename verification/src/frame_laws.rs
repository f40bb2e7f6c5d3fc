//! What drawing a frame means for the tiles of an atlas.
use vstd::prelude::*;

use crate::atlas_key::AtlasKeyModel;
use crate::atlas_page::AtlasPage;
use crate::atlas_tile::{AtlasTextureKind, AtlasTile};
use crate::metal_atlas::{
    law_retiring_lets_go_of_idle_tiles_only, lemma_marked, lemma_marked_tile,
    lemma_other_fields_in_order, no_subpixel_tiles, scene_tiles, spec_texture_descriptor,
    AtlasError, AtlasModel, FoundTile, MetalAtlas, PixelFormat, StorageMode,
};
use crate::geometry::{DevicePixels, Size};
use crate::scalar::Scalar;
use crate::scene_model::SceneModel;
use crate::texture_list::spec_page_size;
use crate::tile_table::TileRecordModel;

verus! {

/// What an atlas knows of a tile, if it holds it.
pub open spec fn record_of(atlas: AtlasModel, tile: AtlasTile) -> Option<TileRecordModel> {
    let pages = if tile.texture_id.kind == AtlasTextureKind::Monochrome {
        atlas.monochrome.pages
    } else {
        atlas.polychrome.pages
    };
    let index = tile.texture_id.index as int;
    if index < pages.len() && pages[index] is Some && pages[index]->Some_0.tiles.contains_key(
        tile.tile_id.0,
    ) {
        Some(pages[index]->Some_0.tiles[tile.tile_id.0])
    } else {
        None
    }
}

/// Whether two tiles are the same part of the same texture.
pub open spec fn same_place(a: AtlasTile, b: AtlasTile) -> bool {
    a.texture_id == b.texture_id && a.tile_id == b.tile_id
}

/// Whether some sprite of a scene draws a tile, whatever its kind.
pub open spec fn scene_draws<F: Scalar>(scene: SceneModel<F>, tile: AtlasTile) -> bool {
    ||| exists|i: int|
        0 <= i < scene.monochrome_sprites.len() && same_place(
            (#[trigger] scene.monochrome_sprites[i]).tile,
            tile,
        )
    ||| exists|i: int|
        0 <= i < scene.subpixel_sprites.len() && same_place(
            (#[trigger] scene.subpixel_sprites[i]).tile,
            tile,
        )
    ||| exists|i: int|
        0 <= i < scene.polychrome_sprites.len() && same_place(
            (#[trigger] scene.polychrome_sprites[i]).tile,
            tile,
        )
}

/// Whether no sprite of a scene lies in a texture with a coverage value per color channel.
pub open spec fn draws_no_subpixel_tiles<F: Scalar>(scene: SceneModel<F>) -> bool {
    &&& forall|i: int|
        0 <= i < scene.monochrome_sprites.len() ==> (
        #[trigger] scene.monochrome_sprites[i]).tile.texture_id.kind
            != AtlasTextureKind::Subpixel
    &&& forall|i: int|
        0 <= i < scene.subpixel_sprites.len() ==> (
        #[trigger] scene.subpixel_sprites[i]).tile.texture_id.kind != AtlasTextureKind::Subpixel
    &&& forall|i: int|
        0 <= i < scene.polychrome_sprites.len() ==> (
        #[trigger] scene.polychrome_sprites[i]).tile.texture_id.kind
            != AtlasTextureKind::Subpixel
}

proof fn lemma_scene_tiles<F: Scalar>(scene: SceneModel<F>, tile: AtlasTile)
    ensures
        scene_draws(scene, tile) <==> exists|i: int|
            0 <= i < scene_tiles(scene).len() && same_place(
                #[trigger] scene_tiles(scene)[i],
                tile,
            ),
        draws_no_subpixel_tiles(scene) ==> no_subpixel_tiles(scene_tiles(scene)),
{
    let tiles = scene_tiles(scene);
    let (m, s) = (scene.monochrome_sprites.len() as int, scene.subpixel_sprites.len() as int);
    assert forall|i: int| 0 <= i < tiles.len() implies (#[trigger] tiles[i]) == if i < m {
        scene.monochrome_sprites[i].tile
    } else if i < m + s {
        scene.subpixel_sprites[i - m].tile
    } else {
        scene.polychrome_sprites[i - m - s].tile
    } by {}
    if exists|i: int| 0 <= i < tiles.len() && same_place(#[trigger] tiles[i], tile) {
        let i = choose|i: int| 0 <= i < tiles.len() && same_place(#[trigger] tiles[i], tile);
        if i < m {
            assert(same_place(scene.monochrome_sprites[i].tile, tile));
        } else if i < m + s {
            assert(same_place(scene.subpixel_sprites[i - m].tile, tile));
        } else {
            assert(same_place(scene.polychrome_sprites[i - m - s].tile, tile));
        }
    }
    if scene_draws(scene, tile) {
        if exists|i: int|
            0 <= i < m && same_place((#[trigger] scene.monochrome_sprites[i]).tile, tile) {
            let i = choose|i: int|
                0 <= i < m && same_place((#[trigger] scene.monochrome_sprites[i]).tile, tile);
            assert(same_place(tiles[i], tile));
        } else if exists|i: int|
            0 <= i < s && same_place((#[trigger] scene.subpixel_sprites[i]).tile, tile) {
            let i = choose|i: int|
                0 <= i < s && same_place((#[trigger] scene.subpixel_sprites[i]).tile, tile);
            assert(same_place(tiles[m + i], tile));
        } else {
            let i = choose|i: int|
                0 <= i < scene.polychrome_sprites.len() && same_place(
                    (#[trigger] scene.polychrome_sprites[i]).tile,
                    tile,
                );
            assert(same_place(tiles[m + s + i], tile));
        }
    }
}

proof fn lemma_undrawn_tiles(
    atlas: AtlasModel,
    tiles: Seq<AtlasTile>,
    count: nat,
    tile: AtlasTile,
)
    requires
        count <= tiles.len(),
        no_subpixel_tiles(tiles),
        tile.texture_id.kind != AtlasTextureKind::Subpixel,
        forall|i: int| 0 <= i < tiles.len() ==> !same_place(#[trigger] tiles[i], tile),
    ensures
        record_of(atlas.marked(tiles, count), tile) == record_of(atlas, tile),
    decreases count,
{
    if count > 0 {
        lemma_undrawn_tiles(atlas, tiles, (count - 1) as nat, tile);
        assert(!same_place(tiles[count - 1], tile));
        assert(tiles[count - 1].texture_id.kind != AtlasTextureKind::Subpixel);
    }
}

/// Noting a scene marks exactly the tiles that its sprites draw, those of every kind of
/// sprite: of a tile that some sprite draws, and that the atlas holds, the current frame is
/// the last one that used it; any other tile stays as it was. No tile comes or goes, no key
/// changes, and no frame is counted.
pub proof fn law_noting_a_scene_marks_what_it_draws<F: Scalar>(
    atlas: AtlasModel,
    scene: SceneModel<F>,
    tile: AtlasTile,
)
    requires
        atlas.in_order(),
        draws_no_subpixel_tiles(scene),
        tile.texture_id.kind != AtlasTextureKind::Subpixel,
    ensures
        ({
            let after = atlas.marked(scene_tiles(scene), scene_tiles(scene).len());
            let (before, now) = (record_of(atlas, tile), record_of(after, tile));
            &&& before is Some <==> now is Some
            &&& before is Some ==> now->Some_0.key == before->Some_0.key
            &&& before is Some && scene_draws(scene, tile) ==> now->Some_0.last_used_frame
                == atlas.frame
            &&& !scene_draws(scene, tile) ==> now == before
            &&& after.keys == atlas.keys
            &&& after.frame == atlas.frame
        }),
{
    let tiles = scene_tiles(scene);
    let after = atlas.marked(tiles, tiles.len());
    lemma_scene_tiles(scene, tile);
    lemma_marked(atlas, tiles, tiles.len());
    let kind = tile.texture_id.kind;
    let (index, id) = (tile.texture_id.index as int, tile.tile_id.0);
    assert(after.list(kind).has_tile(index, id) <==> atlas.list(kind).has_tile(index, id));
    if scene_draws(scene, tile) {
        let i = choose|i: int| 0 <= i < tiles.len() && same_place(#[trigger] tiles[i], tile);
        if record_of(atlas, tile) is Some {
            assert(atlas.has_tile(tiles[i]));
            lemma_marked_tile(atlas, tiles, tiles.len(), i);
        }
    } else {
        lemma_undrawn_tiles(atlas, tiles, tiles.len(), tile);
    }
}

/// Drawing a frame counts it, and marks exactly the tiles that the sprites of its scene draw
/// as used by that very frame.
pub proof fn law_a_frame_marks_what_its_scene_draws<F: Scalar>(
    atlas: AtlasModel,
    scene: SceneModel<F>,
    tile: AtlasTile,
)
    requires
        atlas.in_order(),
        atlas.frame < u64::MAX,
        draws_no_subpixel_tiles(scene),
        tile.texture_id.kind != AtlasTextureKind::Subpixel,
    ensures
        ({
            let after = atlas.drawn(scene_tiles(scene));
            let (before, now) = (record_of(atlas, tile), record_of(after, tile));
            &&& after.frame == atlas.frame + 1
            &&& after.keys == atlas.keys
            &&& before is Some <==> now is Some
            &&& before is Some ==> now->Some_0.key == before->Some_0.key
            &&& before is Some && scene_draws(scene, tile) ==> now->Some_0.last_used_frame
                == atlas.frame + 1
            &&& !scene_draws(scene, tile) ==> now == before
        }),
{
    let counted = AtlasModel { frame: (atlas.frame + 1) as u64, ..atlas };
    lemma_other_fields_in_order(atlas, counted);
    law_noting_a_scene_marks_what_it_draws(counted, scene, tile);
}

/// A frame never retires what is on screen: the key of a tile that any sprite of the frame's
/// scene draws, of whatever kind, keeps its tile.
pub proof fn law_a_frame_keeps_what_its_scene_draws<F: Scalar>(
    atlas: AtlasModel,
    scene: SceneModel<F>,
    max_idle_frames: u64,
    after: AtlasModel,
    key: AtlasKeyModel,
)
    requires
        atlas.in_order(),
        atlas.frame < u64::MAX,
        draws_no_subpixel_tiles(scene),
        max_idle_frames > 0,
        atlas.drawn(scene_tiles(scene)).retires_to(max_idle_frames, after),
        atlas.keys.contains_key(key),
        scene_draws(scene, atlas.keys[key]),
    ensures
        after.keys.contains_key(key),
        after.keys[key] == atlas.keys[key],
{
    let tile = atlas.keys[key];
    let drawn = atlas.drawn(scene_tiles(scene));
    let counted = AtlasModel { frame: (atlas.frame + 1) as u64, ..atlas };
    assert(atlas.key_in_order(key));
    lemma_other_fields_in_order(atlas, counted);
    lemma_scene_tiles(scene, tile);
    lemma_marked(counted, scene_tiles(scene), scene_tiles(scene).len());
    law_a_frame_marks_what_its_scene_draws(atlas, scene, tile);
    law_retiring_lets_go_of_idle_tiles_only(drawn, max_idle_frames, after, key);
}

/// Retiring lets go of a key exactly if the page that is looked at holds its tile, the key is
/// that of a glyph or a vector image, and the last frame that used the tile lies at least
/// `max_idle_frames` back. Images stay, however long nothing draws them.
pub proof fn law_retiring_goes_by_age_and_kind(
    atlas: AtlasModel,
    max_idle_frames: u64,
    after: AtlasModel,
    key: AtlasKeyModel,
)
    requires
        atlas.in_order(),
        atlas.retires_to(max_idle_frames, after),
        atlas.keys.contains_key(key),
        0 < atlas.monochrome.pages.len() + atlas.polychrome.pages.len() <= usize::MAX,
    ensures
        ({
            let tile = atlas.keys[key];
            let record = record_of(atlas, tile)->Some_0;
            let count = (atlas.monochrome.pages.len() + atlas.polychrome.pages.len()) as int;
            let place = atlas.retire_cursor as int % count;
            let tile_place = if tile.texture_id.kind == AtlasTextureKind::Monochrome {
                tile.texture_id.index as int
            } else {
                tile.texture_id.index + atlas.monochrome.pages.len()
            };
            let old_enough = max_idle_frames == 0 || record.last_used_frame + max_idle_frames
                <= atlas.frame;
            &&& record_of(atlas, tile) is Some
            &&& after.keys.contains_key(key) <==> !(tile_place == place && !(key is Image)
                && old_enough)
            &&& after.keys.contains_key(key) ==> after.keys[key] == tile
        }),
{
    assert(atlas.key_in_order(key));
    law_retiring_lets_go_of_idle_tiles_only(atlas, max_idle_frames, after, key);
    let count = (atlas.monochrome.pages.len() + atlas.polychrome.pages.len()) as int;
    assert(0 <= atlas.retire_cursor as int % count < count);
}

/// Looking a key up marks its tile as used by the current frame, so that it is as young as
/// one that was just drawn.
pub proof fn law_looking_up_marks_the_tile(atlas: AtlasModel, key: AtlasKeyModel, other: AtlasTile)
    requires
        atlas.in_order(),
        atlas.keys.contains_key(key),
        !same_place(atlas.keys[key], other),
        other.texture_id.kind != AtlasTextureKind::Subpixel,
    ensures
        ({
            let tile = atlas.keys[key];
            let after = atlas.touched(tile);
            &&& record_of(after, tile) is Some
            &&& record_of(after, tile)->Some_0.last_used_frame == atlas.frame
            &&& record_of(after, tile)->Some_0.key == key
            &&& record_of(after, other) == record_of(atlas, other)
            &&& after.keys == atlas.keys
            &&& after.frame == atlas.frame
            &&& after.retire_cursor == atlas.retire_cursor
        }),
{
    assert(atlas.key_in_order(key));
}

/// Glyphs in color and images lie in textures of color, glyphs with a coverage value per
/// channel in textures of their own kind, and all else in textures of coverage.
pub proof fn law_tiles_lie_in_textures_of_their_kind(key: AtlasKeyModel)
    ensures
        key.spec_texture_kind() == AtlasTextureKind::Polychrome <==> key is Image || (key is Glyph
            && key->Glyph_0.is_emoji),
        key.spec_texture_kind() == AtlasTextureKind::Subpixel <==> key is Glyph
            && !key->Glyph_0.is_emoji && key->Glyph_0.subpixel_rendering,
{
}

/// A page is as large as the tile that it is made for, but never smaller than 1024 texels
/// and never larger than 16384, in either direction.
pub proof fn law_pages_have_room_for_their_first_tile(size: Size<DevicePixels>)
    ensures
        ({
            let page = spec_page_size(size);
            &&& 1024 <= page.width.0 <= 16384
            &&& 1024 <= page.height.0 <= 16384
            &&& size.width.0 <= 16384 ==> size.width.0 <= page.width.0
            &&& size.height.0 <= 16384 ==> size.height.0 <= page.height.0
            &&& page.width.0 > 1024 && size.width.0 <= 16384 ==> page.width.0 == size.width.0
            &&& page.height.0 > 1024 && size.height.0 <= 16384 ==> page.height.0 == size.height.0
            &&& size.width.0 > 16384 ==> page.width.0 == 16384
            &&& size.height.0 > 16384 ==> page.height.0 == 16384
        }),
{
}

/// The texture of a page has the page's size; one of coverage takes a byte per texel, one of
/// color four; and it lies in memory that is shared exactly if the GPU shares memory.
pub proof fn law_textures_suit_their_pages(
    size: Size<DevicePixels>,
    kind: AtlasTextureKind,
    is_apple_gpu: bool,
)
    requires
        kind != AtlasTextureKind::Subpixel,
    ensures
        ({
            let texture = spec_texture_descriptor(size, kind, is_apple_gpu);
            &&& texture.size == spec_page_size(size)
            &&& texture.pixel_format == PixelFormat::A8Unorm <==> kind
                == AtlasTextureKind::Monochrome
            &&& texture.pixel_format.spec_bytes_per_pixel() == if kind
                == AtlasTextureKind::Monochrome {
                1u8
            } else {
                4u8
            }
            &&& texture.storage_mode == StorageMode::Shared <==> is_apple_gpu
        }),
{
}

/// A new tile is marked as used by the frame that it is made in, under its key, and leaves
/// every other tile as it was.
pub proof fn law_new_tiles_are_young(
    atlas: AtlasModel,
    key: AtlasKeyModel,
    tile: AtlasTile,
    other: AtlasTile,
)
    requires
        tile.texture_id.kind != AtlasTextureKind::Subpixel,
        other.texture_id.kind != AtlasTextureKind::Subpixel,
        atlas.list(tile.texture_id.kind).has_page(tile.texture_id.index as int),
        !same_place(tile, other),
    ensures
        ({
            let after = atlas.with_tile(key, tile);
            &&& record_of(after, tile) is Some
            &&& record_of(after, tile)->Some_0.key == key
            &&& record_of(after, tile)->Some_0.last_used_frame == atlas.frame
            &&& record_of(after, other) == record_of(atlas, other)
            &&& after.keys == atlas.keys.insert(key, tile)
        }),
{
}

/// Whether there is a page at an index that has room for a tile of this size.
pub open spec fn takes_in(
    pages: Seq<Option<AtlasPage>>,
    index: int,
    size: Size<DevicePixels>,
) -> bool {
    0 <= index < pages.len() && pages[index] is Some && pages[index]->Some_0.has_room(size)
}

/// A tile goes on the newest page that has room for it: on no page without room, on none that
/// a newer page with room comes behind, and on a new page only where no page has room.
pub proof fn law_tiles_go_on_the_newest_page_with_room(
    atlas: MetalAtlas,
    kind: AtlasTextureKind,
    size: Size<DevicePixels>,
    index: u32,
    newer: int,
)
    requires
        newer > index,
    ensures
        ({
            let pages = if kind == AtlasTextureKind::Monochrome {
                atlas.monochrome_textures.textures@
            } else {
                atlas.polychrome_textures.textures@
            };
            &&& atlas.picks_page(kind, size, index, false) ==> takes_in(pages, index as int, size)
            &&& atlas.picks_page(kind, size, index, false) ==> !takes_in(pages, newer, size)
            &&& atlas.picks_page(kind, size, index, true) ==> !takes_in(pages, newer, size)
                && !takes_in(pages, index as int, size)
        }),
{
    let textures = atlas.textures(kind);
    assert(textures.room_at(newer, size) == takes_in(textures.textures@, newer, size));
    assert(textures.room_at(index as int, size) == takes_in(
        textures.textures@,
        index as int,
        size,
    ));
}

/// What rasterizing a key gave decides what becomes of it: a failure and an empty image change
/// nothing; an image of a size that a page can have is uploaded whole to a tile of that size,
/// which is the key's from then on; any other image gets the key no tile.
pub proof fn law_built_images_are_uploaded<E>(
    atlas: AtlasModel,
    key: AtlasKeyModel,
    is_apple_gpu: bool,
    built: Result<Option<(Size<DevicePixels>, Vec<u8>)>, E>,
    result: Result<Option<FoundTile>, AtlasError<E>>,
    after: AtlasModel,
    other: AtlasKeyModel,
)
    requires
        atlas.inserts_to(key, is_apple_gpu, built, result, after),
        !atlas.keys.contains_key(key),
    ensures
        match built {
            Err(error) => after == atlas && result == Err::<Option<FoundTile>, AtlasError<E>>(
                AtlasError::Build(error),
            ),
            Ok(None) => after == atlas && result == Ok::<Option<FoundTile>, AtlasError<E>>(None),
            Ok(Some((size, bytes))) => {
                let fits = 0 < size.width.0 <= 16384 && 0 < size.height.0 <= 16384;
                &&& fits <==> result is Ok
                &&& fits ==> {
                    &&& result->Ok_0 is Some
                    &&& result->Ok_0->Some_0.upload == Some(bytes)
                    &&& result->Ok_0->Some_0.tile.bounds.size == size
                    &&& after.keys.contains_key(key)
                    &&& after.keys[key] == result->Ok_0->Some_0.tile
                }
                &&& !fits ==> result->Err_0 is FailedToAllocate && !after.keys.contains_key(key)
            },
        },
        other != key ==> (after.keys.contains_key(other) <==> atlas.keys.contains_key(other)),
        other != key && atlas.keys.contains_key(other) ==> after.keys[other] == atlas.keys[other],
{
}

} // verus!
