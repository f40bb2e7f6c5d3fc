use gpui::atlas_key::{AtlasKey, RenderGlyphParams, RenderImageParams, RenderSvgParams};
use gpui::atlas_tile::{AtlasTextureId, AtlasTextureKind, AtlasTile};
use gpui::color::Hsla;
use gpui::geometry::{Bounds, ContentMask, DevicePixels, Size};
use gpui::line_layout::{FontId, GlyphId};
use gpui::metal_atlas::{AtlasError, FoundTile, MetalAtlas, PixelFormat, StorageMode};
use gpui::primitives::{MonochromeSprite, SpriteEffect};
use gpui::scalar::Scalar;
use gpui::scene::Scene;
use gpui::transform::TransformationMatrix;

/// Single-precision lengths.
#[derive(Clone, Copy, Debug, PartialEq, PartialOrd)]
struct Px(f32);

impl Scalar for Px {
    type Easing = fn(f32) -> f32;

    fn ratio(numerator: u32, denominator: u32) -> Self {
        Px(numerator as f32 / denominator as f32)
    }

    fn plus(self, other: Self) -> Self {
        Px(self.0 + other.0)
    }

    fn minus(self, other: Self) -> Self {
        Px(self.0 - other.0)
    }

    fn times(self, other: Self) -> Self {
        Px(self.0 * other.0)
    }

    fn over(self, other: Self) -> Self {
        Px(self.0 / other.0)
    }

    fn negated(self) -> Self {
        Px(-self.0)
    }

    fn abs(self) -> Self {
        Px(self.0.abs())
    }

    fn ceil(self) -> Self {
        Px(self.0.ceil())
    }

    fn floor(self) -> Self {
        Px(self.0.floor())
    }

    fn copysign(self, sign: Self) -> Self {
        Px(self.0.copysign(sign.0))
    }

    fn wrap_unit(self) -> Self {
        Px(self.0.rem_euclid(1.0))
    }

    fn least(self, other: Self) -> Self {
        Px(self.0.min(other.0))
    }

    fn greatest(self, other: Self) -> Self {
        Px(self.0.max(other.0))
    }

    fn lt(self, other: Self) -> bool {
        self.0 < other.0
    }

    fn le(self, other: Self) -> bool {
        self.0 <= other.0
    }

    fn same(self, other: Self) -> bool {
        self.0 == other.0
    }

    fn seconds(nanos: u64) -> Self {
        Px(std::time::Duration::from_nanos(nanos).as_secs_f32())
    }

    fn cycle_fraction(elapsed: u64, period: u64) -> Self {
        let elapsed = std::time::Duration::from_nanos(elapsed).as_secs_f64();
        let period = std::time::Duration::from_nanos(period).as_secs_f64();
        Px((elapsed / period).rem_euclid(1.0) as f32)
    }

    fn linear() -> Self::Easing {
        |progress| progress
    }

    fn ease(easing: Self::Easing, progress: Self) -> Self {
        Px(easing(progress.0))
    }

    fn spec_ratio(numerator: u32, denominator: u32) -> Self {
        Self::ratio(numerator, denominator)
    }

    fn spec_plus(self, other: Self) -> Self {
        self.plus(other)
    }

    fn spec_minus(self, other: Self) -> Self {
        self.minus(other)
    }

    fn spec_times(self, other: Self) -> Self {
        self.times(other)
    }

    fn spec_over(self, other: Self) -> Self {
        self.over(other)
    }

    fn spec_negated(self) -> Self {
        self.negated()
    }

    fn spec_abs(self) -> Self {
        Scalar::abs(self)
    }

    fn spec_ceil(self) -> Self {
        Scalar::ceil(self)
    }

    fn spec_floor(self) -> Self {
        Scalar::floor(self)
    }

    fn spec_copysign(self, sign: Self) -> Self {
        Scalar::copysign(self, sign)
    }

    fn spec_wrap_unit(self) -> Self {
        self.wrap_unit()
    }

    fn spec_least(self, other: Self) -> Self {
        self.least(other)
    }

    fn spec_greatest(self, other: Self) -> Self {
        self.greatest(other)
    }

    fn spec_lt(self, other: Self) -> bool {
        Scalar::lt(self, other)
    }

    fn spec_le(self, other: Self) -> bool {
        Scalar::le(self, other)
    }

    fn spec_same(self, other: Self) -> bool {
        self.same(other)
    }

    fn spec_seconds(nanos: u64) -> Self {
        Self::seconds(nanos)
    }

    fn spec_cycle_fraction(elapsed: u64, period: u64) -> Self {
        Self::cycle_fraction(elapsed, period)
    }

    fn spec_linear() -> Self::Easing {
        Self::linear()
    }

    fn spec_ease(easing: Self::Easing, progress: Self) -> Self {
        Self::ease(easing, progress)
    }
}

type Built = Result<Option<(Size<DevicePixels>, Vec<u8>)>, String>;

fn create_atlas() -> MetalAtlas {
    MetalAtlas::new(true)
}

fn make_image_key(image_id: usize, frame_index: usize) -> AtlasKey {
    AtlasKey::Image(RenderImageParams {
        image_id,
        frame_index,
    })
}

fn pixels(width: i32, height: i32) -> Size<DevicePixels> {
    Size {
        width: DevicePixels(width),
        height: DevicePixels(height),
    }
}

fn found(atlas: &mut MetalAtlas, key: &AtlasKey, size: Size<DevicePixels>) -> FoundTile {
    atlas
        .get_or_insert_with(key, || -> Built {
            let byte_count = (size.width.0 as usize) * (size.height.0 as usize) * 4;
            Ok(Some((size, vec![0u8; byte_count])))
        })
        .expect("allocation should succeed")
        .expect("callback returns Some")
}

fn insert_tile(atlas: &mut MetalAtlas, key: &AtlasKey, size: Size<DevicePixels>) -> AtlasTile {
    found(atlas, key, size).tile
}

#[test]
fn test_remove_clears_stale_keys_from_tiles_by_key() {
    let mut atlas = create_atlas();

    let small = pixels(64, 64);

    let key_a = make_image_key(1, 0);
    let key_b = make_image_key(2, 0);
    let key_c = make_image_key(3, 0);

    let tile_a = insert_tile(&mut atlas, &key_a, small);
    let tile_b = insert_tile(&mut atlas, &key_b, small);
    let tile_c = insert_tile(&mut atlas, &key_c, small);

    assert_eq!(tile_a.texture_id, tile_b.texture_id);
    assert_eq!(tile_b.texture_id, tile_c.texture_id);

    // Remove A: texture still has B and C, so it stays.
    // The key for A must be removed from tiles_by_key.
    atlas.remove(&key_a);

    // Remove B: texture still has C.
    atlas.remove(&key_b);

    // Remove C: texture becomes unreferenced and is deleted.
    atlas.remove(&key_c);

    // Re-inserting A must allocate a fresh tile on a new texture,
    // NOT return a stale tile referencing the deleted texture.
    let tile_a2 = insert_tile(&mut atlas, &key_a, small);

    // The texture must actually exist.
    assert!(atlas.texture_is_live(tile_a2.texture_id));
}

#[test]
fn test_remove_deallocates_tile_space_for_reuse() {
    let mut atlas = create_atlas();

    let small = pixels(64, 64);
    let big = pixels(700, 700);

    let keeper_key = make_image_key(1, 0);
    let big_key_a = make_image_key(2, 0);
    let big_key_b = make_image_key(3, 0);

    let keeper_tile = insert_tile(&mut atlas, &keeper_key, small);
    let tile_a = insert_tile(&mut atlas, &big_key_a, big);
    assert_eq!(keeper_tile.texture_id, tile_a.texture_id);

    atlas.remove(&big_key_a);
    let tile_b = insert_tile(&mut atlas, &big_key_b, big);
    assert_eq!(tile_b.texture_id, keeper_tile.texture_id);
}

#[test]
fn test_remove_nonexistent_key_is_noop() {
    let mut atlas = create_atlas();
    let key = make_image_key(999, 0);
    atlas.remove(&key);
}

fn make_glyph_key(glyph_id: u32) -> AtlasKey {
    AtlasKey::Glyph(RenderGlyphParams {
        font_id: FontId(0),
        glyph_id: GlyphId(glyph_id),
        font_size_bits: 14.0f32.to_bits(),
        subpixel_x: 0,
        subpixel_y: 0,
        scale_factor_bits: 2.0f32.to_bits(),
        is_emoji: false,
        subpixel_rendering: false,
        dilation: 0,
    })
}

fn scene_drawing(tiles: &[AtlasTile]) -> Scene<Px> {
    let mut scene = Scene::new();
    for tile in tiles {
        scene.monochrome_sprites.push(MonochromeSprite {
            order: 0,
            pad: 0,
            bounds: Bounds::zero(),
            content_mask: ContentMask {
                bounds: Bounds::zero(),
            },
            color: Hsla::transparent(),
            effect: SpriteEffect::default(),
            tile: *tile,
            transformation: TransformationMatrix::unit(),
        });
    }
    scene
}

/// Runs `frames` frames drawing `drawn`, retiring after each like the renderer.
fn run_frames(atlas: &mut MetalAtlas, frames: u64, drawn: &[AtlasTile]) {
    let scene = scene_drawing(drawn);
    for _ in 0..frames {
        atlas.on_frame_drawn(&scene, IDLE);
    }
}

const IDLE: u64 = 600;

#[test]
fn test_tile_drawn_this_frame_is_not_retired() {
    let mut atlas = create_atlas();
    let small = pixels(16, 16);
    let hot_key = make_glyph_key(1);
    let hot = insert_tile(&mut atlas, &hot_key, small);

    // Well past the idle window, but the scene names the tile every frame.
    run_frames(&mut atlas, IDLE * 3, &[hot]);

    assert!(atlas.contains_key(&hot_key));
    assert!(atlas.texture_is_live(hot.texture_id));
    let mut rebuilt = false;
    let again = atlas
        .get_or_insert_with(&hot_key, || -> Built {
            rebuilt = true;
            Ok(None)
        })
        .expect("lookup succeeds");
    assert!(!rebuilt, "a hot tile must be served from the atlas");
    assert_eq!(again.map(|found| found.tile), Some(hot));
}

#[test]
fn test_idle_glyph_tile_is_retired_and_empty_page_freed() {
    let mut atlas = create_atlas();
    let small = pixels(16, 16);
    let hot_key = make_glyph_key(1);
    let cold_key = make_glyph_key(2);
    let hot = insert_tile(&mut atlas, &hot_key, small);
    let cold = insert_tile(&mut atlas, &cold_key, small);
    assert_eq!(hot.texture_id, cold.texture_id);

    // One frame short of the window: the cold tile survives.
    run_frames(&mut atlas, IDLE - 1, &[hot]);
    assert!(atlas.contains_key(&cold_key));

    // The page holds a live tile, so it stays even once `cold` goes.
    run_frames(&mut atlas, 2, &[hot]);
    assert!(!atlas.contains_key(&cold_key));
    assert!(atlas.contains_key(&hot_key));
    assert!(atlas.texture_is_live(hot.texture_id));

    // Stop drawing the hot tile too: it retires and the page is released.
    run_frames(&mut atlas, IDLE + 1, &[]);
    assert!(!atlas.contains_key(&hot_key));
    assert!(!atlas.texture_is_live(hot.texture_id));

    // The next glyph gets a fresh page rather than a stale tile.
    let reinserted = insert_tile(&mut atlas, &cold_key, small);
    assert!(atlas.texture_is_live(reinserted.texture_id));
}

#[test]
fn test_image_tiles_are_never_retired() {
    let mut atlas = create_atlas();
    let small = pixels(16, 16);
    let image_key = make_image_key(7, 0);
    let image = insert_tile(&mut atlas, &image_key, small);
    let glyph_key = make_glyph_key(3);
    let glyph = insert_tile(&mut atlas, &glyph_key, small);

    run_frames(&mut atlas, IDLE * 3, &[]);

    assert!(atlas.contains_key(&image_key));
    assert!(atlas.texture_is_live(image.texture_id));
    assert!(!atlas.contains_key(&glyph_key));
    assert!(!atlas.texture_is_live(glyph.texture_id));

    // Only removing it releases it.
    atlas.remove(&image_key);
    assert!(!atlas.contains_key(&image_key));
    assert!(!atlas.texture_is_live(image.texture_id));
}

#[test]
fn pages_have_the_texture_that_their_tiles_need() {
    let mut atlas = create_atlas();
    let glyph = found(&mut atlas, &make_glyph_key(1), pixels(16, 20));
    let texture = glyph.texture.unwrap();
    assert_eq!(texture.size, pixels(1024, 1024));
    assert_eq!(texture.pixel_format, PixelFormat::A8Unorm);
    assert_eq!(texture.storage_mode, StorageMode::Shared);
    assert_eq!(texture.pixel_format.bytes_per_pixel(), 1);
    assert_eq!(glyph.upload.unwrap().len(), 16 * 20 * 4);
    assert_eq!(glyph.tile.bounds.size, pixels(16, 20));
    assert_eq!(
        glyph.tile.texture_id,
        AtlasTextureId {
            index: 0,
            kind: AtlasTextureKind::Monochrome
        }
    );

    // The second glyph shares the page.
    let next = found(&mut atlas, &make_glyph_key(2), pixels(16, 20));
    assert!(next.texture.is_none());
    assert_eq!(next.tile.texture_id, glyph.tile.texture_id);
    assert_ne!(next.tile.tile_id, glyph.tile.tile_id);
    assert_ne!(next.tile.bounds.origin, glyph.tile.bounds.origin);

    // Found again: nothing to make, nothing to upload.
    let again = found(&mut atlas, &make_glyph_key(2), pixels(16, 20));
    assert_eq!(again.tile, next.tile);
    assert!(again.upload.is_none());

    let mut discrete = MetalAtlas::new(false);
    let image = found(&mut discrete, &make_image_key(1, 0), pixels(2000, 10));
    let texture = image.texture.unwrap();
    assert_eq!(texture.size, pixels(2000, 1024));
    assert_eq!(texture.pixel_format, PixelFormat::Bgra8Unorm);
    assert_eq!(texture.storage_mode, StorageMode::Managed);
    assert_eq!(texture.pixel_format.bytes_per_pixel(), 4);
}

#[test]
fn tiles_of_one_page_lie_apart() {
    let mut atlas = create_atlas();
    let mut tiles = Vec::new();
    for glyph in 0..300 {
        let size = pixels(5 + (glyph as i32 * 7) % 40, 5 + (glyph as i32 * 13) % 30);
        tiles.push(insert_tile(&mut atlas, &make_glyph_key(glyph), size));
    }
    for (i, a) in tiles.iter().enumerate() {
        for b in &tiles[i + 1..] {
            let (p, q) = (a.bounds, b.bounds);
            let apart = p.origin.x.0 + p.size.width.0 <= q.origin.x.0
                || q.origin.x.0 + q.size.width.0 <= p.origin.x.0
                || p.origin.y.0 + p.size.height.0 <= q.origin.y.0
                || q.origin.y.0 + q.size.height.0 <= p.origin.y.0;
            assert!(a.texture_id != b.texture_id || apart);
        }
    }
}

#[test]
fn tiles_that_fit_no_page_fail() {
    let mut atlas = create_atlas();
    let key = make_image_key(1, 0);
    for size in [
        pixels(0, 10),
        pixels(10, -1),
        pixels(16385, 10),
        pixels(10, 20000),
    ] {
        let result = atlas.get_or_insert_with(&key, || -> Built { Ok(Some((size, vec![]))) });
        assert!(matches!(
            result,
            Err(AtlasError::FailedToAllocate(page))
                if page.id.kind == AtlasTextureKind::Polychrome
                    && page.texture.size.width.0 == size.width.0.clamp(1024, 16384)
                    && atlas.texture_is_live(page.id)
        ));
        assert!(!atlas.contains_key(&key));
    }
    let result = atlas.get_or_insert_with(&key, || -> Built { Err("no such image".to_string()) });
    assert!(matches!(result, Err(AtlasError::Build(error)) if error == "no such image"));
    let result = atlas.get_or_insert_with(&key, || -> Built { Ok(None) });
    assert!(matches!(result, Ok(None)));
    let largest = insert_tile(&mut atlas, &key, pixels(16384, 16384));
    assert!(atlas.texture_is_live(largest.texture_id));
}

#[test]
fn dropped_pages_are_used_again() {
    let mut atlas = create_atlas();
    let full = pixels(1024, 1024);
    let first = insert_tile(&mut atlas, &make_image_key(1, 0), full);
    let second = insert_tile(&mut atlas, &make_image_key(2, 0), full);
    assert_eq!((first.texture_id.index, second.texture_id.index), (0, 1));
    atlas.remove(&make_image_key(1, 0));
    assert!(!atlas.texture_is_live(first.texture_id));
    let third = found(&mut atlas, &make_image_key(3, 0), full);
    assert_eq!(third.tile.texture_id.index, 0);
    assert!(third.texture.is_some());
}

#[test]
fn keys_are_told_apart() {
    let svg = |path: &str, width: i32| {
        AtlasKey::Svg(RenderSvgParams {
            path: path.to_string(),
            size: pixels(width, 16),
        })
    };
    assert!(svg("icons/a.svg", 16).same(&svg("icons/a.svg", 16)));
    assert!(!svg("icons/a.svg", 16).same(&svg("icons/b.svg", 16)));
    // Icons of one path and different sizes share a digest, and nothing else.
    assert_eq!(
        svg("icons/a.svg", 16).digest(),
        svg("icons/a.svg", 32).digest()
    );
    let mut atlas = create_atlas();
    let small = insert_tile(&mut atlas, &svg("icons/a.svg", 16), pixels(16, 16));
    let large = insert_tile(&mut atlas, &svg("icons/a.svg", 32), pixels(32, 16));
    assert_ne!(small.tile_id, large.tile_id);
    assert_eq!(
        insert_tile(&mut atlas, &svg("icons/a.svg", 16), pixels(16, 16)),
        small
    );
    atlas.remove(&svg("icons/a.svg", 16));
    assert!(!atlas.contains_key(&svg("icons/a.svg", 16)));
    assert!(atlas.contains_key(&svg("icons/a.svg", 32)));
    assert_eq!(
        svg("icons/a.svg", 16).texture_kind(),
        AtlasTextureKind::Monochrome
    );
    assert_eq!(
        make_image_key(1, 0).texture_kind(),
        AtlasTextureKind::Polychrome
    );
}

#[test]
fn noting_tiles_does_not_count_a_frame() {
    let mut atlas = create_atlas();
    let key = make_glyph_key(1);
    let tile = insert_tile(&mut atlas, &key, pixels(16, 16));
    assert_eq!(atlas.frame_index(), 0);
    let empty = scene_drawing(&[]);
    for _ in 0..IDLE {
        atlas.note_frame_drawn(&empty);
    }
    assert_eq!(atlas.frame_index(), IDLE);
    // Noted as drawn just in time.
    atlas.note_scene_tiles(&scene_drawing(&[tile]));
    assert_eq!(atlas.frame_index(), IDLE);
    atlas.retire_unused(IDLE);
    assert!(atlas.contains_key(&key));
    for _ in 0..IDLE {
        atlas.note_frame_drawn(&empty);
    }
    atlas.retire_unused(IDLE);
    assert!(!atlas.contains_key(&key));
}

#[test]
fn tiles_go_to_the_newest_page_with_room() {
    let mut atlas = create_atlas();
    let half = found(&mut atlas, &make_image_key(1, 0), pixels(1024, 512));
    assert_eq!(half.tile.texture_id.index, 0);
    assert!(half.texture.is_some());
    let full = found(&mut atlas, &make_image_key(2, 0), pixels(1024, 1024));
    assert_eq!(full.tile.texture_id.index, 1);
    // Too high for what is left of the first page.
    let high = found(&mut atlas, &make_image_key(3, 0), pixels(1024, 768));
    assert_eq!(high.tile.texture_id.index, 2);
    assert!(high.texture.is_some());
    // There is room on the first page and on the last one.
    let small = found(&mut atlas, &make_image_key(4, 0), pixels(16, 16));
    assert_eq!(small.tile.texture_id.index, 2);
    assert!(small.texture.is_none());
    assert!(small.upload.is_some());
}

#[test]
fn worn_out_pages_serve_no_more_tiles() {
    let mut atlas = create_atlas();
    let size = pixels(300, 256);
    let mut lowest = Vec::new();
    for image in 0..12 {
        let key = make_image_key(image, 0);
        let tile = atlas.allocate(&key, size).expect("the page has room").tile;
        assert_eq!(tile.texture_id.index, 0);
        if tile.bounds.origin.y.0 < 512 {
            lowest.push(key);
        }
    }
    for key in &lowest {
        atlas.remove(key);
    }
    // Space comes back for as long as the page serves tiles.
    let key = make_image_key(100, 0);
    for round in 12..70_000 {
        let made = atlas.allocate(&key, size).expect("some page has room");
        assert_eq!(made.tile.texture_id.index, u32::from(round >= 65_535));
        assert_eq!(made.texture.is_some(), round >= 65_535);
        atlas.remove(&key);
    }
    let page = atlas.polychrome_textures.textures[0].as_ref();
    assert_eq!(page.map(|page| page.tiles_served), Some(65_535));
}

#[test]
fn every_page_gets_its_turn() {
    let mut atlas = create_atlas();
    let empty = scene_drawing(&[]);
    // Three pages of glyphs, each of them full.
    let keys: Vec<AtlasKey> = (0..3).map(make_glyph_key).collect();
    for (index, key) in keys.iter().enumerate() {
        let tile = insert_tile(&mut atlas, key, pixels(1024, 1024));
        assert_eq!(tile.texture_id.index as usize, index);
    }
    for _ in 0..IDLE {
        atlas.note_frame_drawn(&empty);
    }
    atlas.retire_cursor = 2;
    for gone in [2, 0, 1] {
        assert!(atlas.contains_key(&keys[gone]));
        atlas.retire_unused(IDLE);
        assert!(!atlas.contains_key(&keys[gone]));
    }
}
