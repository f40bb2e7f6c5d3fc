use gpui::animation::{
    OpacityCycle, QuadOpacityAnimation, SceneTransition, ShimmerAnimation, TimeTransition,
};
use gpui::atlas_tile::{AtlasTextureId, AtlasTextureKind, AtlasTile, TileId};
use gpui::batches::{quad_depth, BatchIterator, PrimitiveBatch};
use gpui::bounds_tree::BoundsTree;
use gpui::capacity::{MIN_RETAINED_CAPACITY, SHRINK_AFTER_FRAMES};
use gpui::color::{Background, Hsla};
use gpui::geometry::{
    point, size, Bounds, ContentMask, Corners, DevicePixels, Edges, Point, Size,
};
use gpui::glyph_drops::{
    glyph_drop, glyph_near_miss_pixels, mask_miss_distances, GlyphDropReporting,
};
use gpui::path::Path;
use gpui::primitives::{
    MonochromeSprite, PaddedBool32, PaintSurface, PolychromeSprite, Primitive, Quad, Shadow,
    SpriteEffect, SubpixelSprite, Underline,
};
use gpui::scalar::Scalar;
use gpui::scene::{disable_opaque_quad_partitioning, QuadPartitioning, Scene};
use gpui::scene_model::MAX_DEPTH_PARTITIONED_QUADS;
use gpui::transform::TransformationMatrix;

/// Single-precision lengths.
#[derive(Clone, Copy, Debug, PartialEq, PartialOrd)]
struct Px(f32);

impl Scalar for Px {
    type Easing = fn(f32) -> f32;

    fn ratio(numerator: u32, denominator: u32) -> Self {
        Px(numerator as f32 / denominator as f32)
    }

    fn plus(self, other: Self) -> Self {
        Px(self.0 + other.0)
    }

    fn minus(self, other: Self) -> Self {
        Px(self.0 - other.0)
    }

    fn times(self, other: Self) -> Self {
        Px(self.0 * other.0)
    }

    fn over(self, other: Self) -> Self {
        Px(self.0 / other.0)
    }

    fn negated(self) -> Self {
        Px(-self.0)
    }

    fn abs(self) -> Self {
        Px(self.0.abs())
    }

    fn ceil(self) -> Self {
        Px(self.0.ceil())
    }

    fn floor(self) -> Self {
        Px(self.0.floor())
    }

    fn copysign(self, sign: Self) -> Self {
        Px(self.0.copysign(sign.0))
    }

    fn wrap_unit(self) -> Self {
        Px(self.0.rem_euclid(1.0))
    }

    fn least(self, other: Self) -> Self {
        Px(self.0.min(other.0))
    }

    fn greatest(self, other: Self) -> Self {
        Px(self.0.max(other.0))
    }

    fn lt(self, other: Self) -> bool {
        self.0 < other.0
    }

    fn le(self, other: Self) -> bool {
        self.0 <= other.0
    }

    fn same(self, other: Self) -> bool {
        self.0 == other.0
    }

    fn seconds(nanos: u64) -> Self {
        Px(std::time::Duration::from_nanos(nanos).as_secs_f32())
    }

    fn cycle_fraction(elapsed: u64, period: u64) -> Self {
        let elapsed = std::time::Duration::from_nanos(elapsed).as_secs_f64();
        let period = std::time::Duration::from_nanos(period).as_secs_f64();
        Px((elapsed / period).rem_euclid(1.0) as f32)
    }

    fn linear() -> Self::Easing {
        |progress| progress
    }

    fn ease(easing: Self::Easing, progress: Self) -> Self {
        Px(easing(progress.0))
    }

    fn spec_ratio(numerator: u32, denominator: u32) -> Self {
        Self::ratio(numerator, denominator)
    }

    fn spec_plus(self, other: Self) -> Self {
        self.plus(other)
    }

    fn spec_minus(self, other: Self) -> Self {
        self.minus(other)
    }

    fn spec_times(self, other: Self) -> Self {
        self.times(other)
    }

    fn spec_over(self, other: Self) -> Self {
        self.over(other)
    }

    fn spec_negated(self) -> Self {
        self.negated()
    }

    fn spec_abs(self) -> Self {
        Scalar::abs(self)
    }

    fn spec_ceil(self) -> Self {
        Scalar::ceil(self)
    }

    fn spec_floor(self) -> Self {
        Scalar::floor(self)
    }

    fn spec_copysign(self, sign: Self) -> Self {
        Scalar::copysign(self, sign)
    }

    fn spec_wrap_unit(self) -> Self {
        self.wrap_unit()
    }

    fn spec_least(self, other: Self) -> Self {
        self.least(other)
    }

    fn spec_greatest(self, other: Self) -> Self {
        self.greatest(other)
    }

    fn spec_lt(self, other: Self) -> bool {
        Scalar::lt(self, other)
    }

    fn spec_le(self, other: Self) -> bool {
        Scalar::le(self, other)
    }

    fn spec_same(self, other: Self) -> bool {
        self.same(other)
    }

    fn spec_seconds(nanos: u64) -> Self {
        Self::seconds(nanos)
    }

    fn spec_cycle_fraction(elapsed: u64, period: u64) -> Self {
        Self::cycle_fraction(elapsed, period)
    }

    fn spec_linear() -> Self::Easing {
        Self::linear()
    }

    fn spec_ease(easing: Self::Easing, progress: Self) -> Self {
        Self::ease(easing, progress)
    }
}

const MILLIS: u64 = 1_000_000;
const SECONDS: u64 = 1_000_000_000;
const NOW: u64 = 1_000 * SECONDS;

fn finish(scene: &mut Scene<Px>) {
    scene.finish(&QuadPartitioning::default());
}

fn square(side: f32) -> Bounds<Px> {
    Bounds {
        origin: point(Px(0.), Px(0.)),
        size: size(Px(side), Px(side)),
    }
}

fn rect(x: f32, y: f32, width: f32, height: f32) -> Bounds<Px> {
    Bounds {
        origin: point(Px(x), Px(y)),
        size: size(Px(width), Px(height)),
    }
}

/// `quad_depth` is mirrored in every backend's shader by hand; the step they all
/// share is one over the number of partitioned quads and one.
#[test]
fn quad_depth_step_matches_every_shader() {
    let step = format!("1.0 / {}.0", MAX_DEPTH_PARTITIONED_QUADS + 1);
    assert_eq!(step, "1.0 / 65535.0");
    assert_eq!(quad_depth::<Px>(0), Px(1.0 / 65535.0));
}

fn paint_frame(scene: &mut Scene<Px>, quads: usize) {
    let bounds = square(100.);
    scene.push_layer(bounds);
    for _ in 0..quads {
        scene.insert_primitive(Quad {
            bounds,
            content_mask: ContentMask { bounds },
            ..Default::default()
        });
    }
    scene.pop_layer();
    finish(scene);
}

#[test]
fn one_huge_frame_followed_by_small_ones_releases_its_capacity() {
    let mut scene = Scene::new();
    paint_frame(&mut scene, 10_000);
    scene.clear();
    let high_water = scene.quads.capacity();
    let operations_high_water = scene.paint_operations.capacity();
    assert!(high_water >= 10_000);

    for _ in 0..SHRINK_AFTER_FRAMES - 1 {
        paint_frame(&mut scene, 5);
        scene.clear();
        assert_eq!(scene.quads.capacity(), high_water);
        assert_eq!(scene.paint_operations.capacity(), operations_high_water);
    }
    paint_frame(&mut scene, 5);
    scene.clear();
    assert!(scene.quads.capacity() <= MIN_RETAINED_CAPACITY);
    assert!(scene.paint_operations.capacity() <= MIN_RETAINED_CAPACITY);
    assert!(scene.opaque_quad_indices.capacity() <= MIN_RETAINED_CAPACITY);
}

#[test]
fn a_workload_that_alternates_big_and_small_frames_never_shrinks() {
    let mut scene = Scene::new();
    paint_frame(&mut scene, 10_000);
    scene.clear();
    let high_water = scene.quads.capacity();

    for frame in 0..SHRINK_AFTER_FRAMES * 5 {
        // Over half the high-water capacity, so every recurrence resets
        // the low-use count.
        let quads = if frame % 30 == 0 { 10_000 } else { 5 };
        paint_frame(&mut scene, quads);
        scene.clear();
        assert_eq!(scene.quads.capacity(), high_water);
    }
}

#[test]
fn an_idle_window_shrinks_to_what_is_on_screen() {
    let mut rendered = Scene::new();
    paint_frame(&mut rendered, 5);
    let mut scene = Scene::new();
    paint_frame(&mut scene, 10_000);
    scene.clear();
    assert!(scene.quads.capacity() >= 10_000);
    scene.shrink_idle(&rendered);
    assert!(scene.quads.capacity() <= MIN_RETAINED_CAPACITY);
    assert!(scene.is_empty());
}

#[test]
fn empty_layers_do_not_make_a_scene_drawable() {
    let mut scene: Scene<Px> = Scene::new();
    scene.push_layer(square(100.));
    scene.pop_layer();

    assert_ne!(scene.len(), 0);
    assert!(scene.is_empty());
}

#[test]
fn drawable_primitives_make_a_scene_non_empty() {
    let mut scene = Scene::new();
    let bounds = square(100.);
    scene.insert_primitive(Quad {
        bounds,
        content_mask: ContentMask { bounds },
        ..Default::default()
    });

    assert!(!scene.is_empty());
}

/// A 16-bit unorm depth attachment stores `round(z * 65535)`; every quad
/// the prepass can partition must land on its own value there, and the
/// cleared buffer's zero must stay reserved.
#[test]
fn quad_depths_stay_distinct_in_a_16_bit_depth_attachment() {
    let mut previous = 0u32;
    for quad_id in 0..=MAX_DEPTH_PARTITIONED_QUADS as u32 {
        let quantized = (quad_depth::<Px>(quad_id).0 * 65535.0).round() as u32;
        assert!(
            quantized > previous,
            "quad {quad_id} quantizes to {quantized}, not above {previous}"
        );
        previous = quantized;
    }
    assert_eq!(quad_depth::<Px>(u32::MAX - 1), Px(1.0));
}

#[test]
fn frames_with_too_many_quads_for_the_depth_mapping_skip_partitioning() {
    let bounds = square(100.);
    let opaque_quad = || Quad {
        bounds,
        content_mask: ContentMask { bounds },
        background: Background::from(Hsla::black()),
        ..Default::default()
    };

    let mut scene = Scene::new();
    scene.insert_primitive(opaque_quad());
    finish(&mut scene);
    assert_eq!(scene.opaque_quad_indices.len(), 1);

    let mut scene = Scene::new();
    for _ in 0..=MAX_DEPTH_PARTITIONED_QUADS {
        scene.insert_primitive(opaque_quad());
    }
    finish(&mut scene);
    assert!(scene.opaque_quad_indices.is_empty());
    assert_eq!(
        scene.blended_quad_indices.len(),
        MAX_DEPTH_PARTITIONED_QUADS + 1
    );
}

#[test]
fn a_renderer_can_disable_the_opaque_pass() {
    let mut partitioning = QuadPartitioning::default();
    disable_opaque_quad_partitioning(&mut partitioning);
    let mut scene = Scene::new();
    scene.insert_primitive(opaque_quad());
    scene.finish(&partitioning);
    assert!(scene.opaque_quad_indices.is_empty());
    assert_eq!(scene.blended_quad_indices, vec![0]);
}

#[test]
fn replay_preserves_scene_emptiness() {
    let mut source: Scene<Px> = Scene::new();
    source.push_layer(square(100.));
    source.pop_layer();

    let mut replayed = Scene::new();
    replayed.replay(0..source.len(), &source);

    assert!(replayed.is_empty());
}

fn unit_bounds() -> Bounds<Px> {
    square(10.)
}

fn opaque_quad() -> Quad<Px> {
    Quad {
        bounds: unit_bounds(),
        content_mask: ContentMask {
            bounds: unit_bounds(),
        },
        background: Background::from(Hsla::black()),
        ..Default::default()
    }
}

fn tile(index: u32, id: u32) -> AtlasTile {
    AtlasTile {
        texture_id: AtlasTextureId {
            index,
            kind: AtlasTextureKind::Monochrome,
        },
        tile_id: TileId(id),
        padding: 0,
        bounds: Bounds {
            origin: point(DevicePixels(0), DevicePixels(0)),
            size: size(DevicePixels(0), DevicePixels(0)),
        },
    }
}

fn shimmering_glyph(animation: u32) -> MonochromeSprite<Px> {
    MonochromeSprite {
        order: 0,
        pad: 0,
        bounds: unit_bounds(),
        content_mask: ContentMask {
            bounds: unit_bounds(),
        },
        color: Hsla::white(),
        effect: SpriteEffect {
            kind: SpriteEffect::<Px>::SHIMMER_KIND,
            animation,
            ..SpriteEffect::default()
        },
        tile: tile(0, 0),
        transformation: TransformationMatrix::unit(),
    }
}

/// A shimmer's band is moved by the scene before each present; a view
/// cached around it replays its glyphs into the next frame, and they must
/// still name a sweep there, or the band freezes at the phase it was
/// painted with.
#[test]
fn replayed_shimmer_glyphs_keep_their_sweep() {
    let mut source = Scene::new();
    let animation = source.push_shimmer_animation(ShimmerAnimation {
        band_start: Px(-40.0),
        travel: Px(1000.0),
        period: 1000 * MILLIS,
        hold: Px(0.0),
    });
    source.insert_primitive(shimmering_glyph(animation));
    source.insert_primitive(shimmering_glyph(animation));
    source.insert_primitive(shimmering_glyph(0));
    finish(&mut source);
    assert!(source.has_time_animations(NOW));

    let mut replayed = Scene::new();
    // An unrelated sweep first, so the replayed index has to be remapped.
    replayed.push_shimmer_animation(ShimmerAnimation {
        band_start: Px(0.0),
        travel: Px(0.0),
        period: MILLIS,
        hold: Px(0.0),
    });
    replayed.replay(0..source.len(), &source);
    finish(&mut replayed);
    assert!(replayed.has_time_animations(NOW));
    assert_eq!(replayed.shimmer_animations.len(), 2, "one entry per label");

    replayed.advance_time_animations(NOW, NOW, &vec![Px(0.0), Px(0.25)]);
    let animated: Vec<_> = replayed
        .monochrome_sprites
        .iter()
        .filter(|sprite| sprite.effect.animation != 0)
        .collect();
    assert_eq!(animated.len(), 2);
    for sprite in animated {
        assert_eq!(sprite.effect.animation, 2);
        assert!((-40.0..=960.0).contains(&sprite.effect.band_origin.0));
        assert_eq!(sprite.effect.band_origin, Px(210.0));
    }
}

fn rolling_in(started_at: u64) -> SceneTransition<Px> {
    SceneTransition {
        transition: TimeTransition::new(started_at, 100 * MILLIS)
            .offset(point(Px(0.), Px(10.)), Point::zero())
            .opacity(Px(0.0), Px(1.0)),
        scale_factor: Px(2.0),
        parent: 0,
    }
}

/// A slide along x with no fade, pushed inside `parent`.
fn sliding(started_at: u64, parent: u32) -> SceneTransition<Px> {
    SceneTransition {
        transition: TimeTransition::new(started_at, 100 * MILLIS)
            .offset(point(Px(-6.), Px(0.)), Point::zero()),
        scale_factor: Px(2.0),
        parent,
    }
}

#[test]
fn a_nested_transition_moves_with_the_one_around_it() {
    let started_at = NOW;
    let mut scene = Scene::new();
    let Some(outer) = scene.push_transition(rolling_in(started_at)) else {
        panic!("a first transition always fits");
    };
    let Some(inner) = scene.push_transition(sliding(started_at, outer)) else {
        panic!("a second transition always fits");
    };
    scene.set_current_transition(inner);
    scene.insert_primitive(shimmering_glyph(0));
    scene.set_current_transition(0);
    finish(&mut scene);

    scene.advance_transitions(started_at + 50 * MILLIS);
    let sprite = &scene.monochrome_sprites[0];
    // Halfway through both: the outer's 5 logical pixels down, the
    // inner's 3 left, at scale factor 2; only the outer fades.
    assert_eq!(sprite.bounds.origin.y, Px(10.));
    assert_eq!(sprite.bounds.origin.x, Px(-6.));
    assert!((sprite.color.a.0 - 0.5).abs() < 1e-6);
}

#[test]
fn replaying_a_nested_transition_brings_its_parent_along() {
    let started_at = NOW;
    let mut source = Scene::new();
    let Some(outer) = source.push_transition(rolling_in(started_at)) else {
        panic!("a first transition always fits");
    };
    let Some(inner) = source.push_transition(sliding(started_at, outer)) else {
        panic!("a second transition always fits");
    };
    source.set_current_transition(inner);
    source.insert_primitive(shimmering_glyph(0));
    source.set_current_transition(0);
    finish(&mut source);

    let mut replayed = Scene::new();
    replayed.push_transition(rolling_in(started_at - 5 * SECONDS));
    replayed.replay(0..source.len(), &source);
    finish(&mut replayed);
    assert_eq!(replayed.transitions.len(), 3);
    let stamped = replayed.monochrome_sprites[0].pad;
    let parent = replayed.transitions[stamped as usize - 1].parent;
    assert!(
        parent != 0 && parent < stamped,
        "the parent is copied first"
    );
    replayed.advance_transitions(started_at + 50 * MILLIS);
    assert_eq!(replayed.monochrome_sprites[0].bounds.origin.x, Px(-6.));
    assert_eq!(replayed.monochrome_sprites[0].bounds.origin.y, Px(10.));
}

#[test]
fn a_transition_moves_and_fades_what_it_covers_from_rest() {
    let started_at = NOW;
    let mut scene = Scene::new();
    let transition = scene.push_transition(rolling_in(started_at));
    let Some(transition) = transition else {
        panic!("a first transition always fits");
    };
    scene.set_current_transition(transition);
    scene.insert_primitive(shimmering_glyph(0));
    scene.insert_primitive(opaque_quad());
    scene.set_current_transition(0);
    scene.insert_primitive(shimmering_glyph(0));
    finish(&mut scene);
    assert!(scene.transitions_in_flight(NOW));
    assert!(scene.has_time_animations(NOW));
    assert_eq!(
        scene.transitioned.len(),
        2,
        "only what was painted inside it"
    );
    // Moved content never takes the opaque depth pass.
    assert!(scene.opaque_quad_indices.is_empty());

    scene.advance_transitions(started_at + 50 * MILLIS);
    let moved: Vec<_> = scene
        .monochrome_sprites
        .iter()
        .filter(|sprite| sprite.pad != 0)
        .collect();
    assert_eq!(moved.len(), 1);
    // Halfway, linear: half of 10 logical pixels at scale factor 2.
    assert_eq!(moved[0].bounds.origin.y, Px(10.));
    assert!((moved[0].color.a.0 - 0.5).abs() < 1e-6);
    let still = scene
        .monochrome_sprites
        .iter()
        .find(|sprite| sprite.pad == 0);
    assert!(still
        .is_some_and(|sprite| sprite.bounds.origin.y == Px(0.) && sprite.color.a == Px(1.0)));
    assert_eq!(scene.quads[0].bounds.origin.y, Px(10.));
    assert!(scene.quads[0]
        .background
        .as_solid()
        .is_some_and(|color| (color.a.0 - 0.5).abs() < 1e-6));
    assert_eq!(scene.quads[0].background.time_transition(), transition);

    // Every present starts from rest, so advancing twice lands the same.
    for _ in 0..2 {
        scene.advance_transitions(started_at + 100 * MILLIS);
    }
    assert_eq!(moved_origin(&scene), Px(0.));
    assert!(scene.quads[0]
        .background
        .as_solid()
        .is_some_and(|color| color.a == Px(1.0)));
}

#[test]
fn transitions_leave_everything_else_alone() {
    let mut scene = Scene::new();
    let Some(transition) = scene.push_transition(rolling_in(NOW)) else {
        panic!("a first transition always fits");
    };
    scene.insert_primitive(shimmering_glyph(0));
    scene.set_current_transition(transition);
    scene.insert_primitive(opaque_quad());
    finish(&mut scene);
    assert!(scene.is_presentable());
    let glyph = scene.monochrome_sprites[0];
    let quad = scene.quads[0];
    scene.advance_transitions(NOW + 50 * MILLIS);
    assert_eq!(scene.monochrome_sprites[0].bounds, glyph.bounds);
    assert_eq!(scene.monochrome_sprites[0].color, glyph.color);
    assert_ne!(scene.quads[0].bounds.origin, quad.bounds.origin);
    assert_eq!(scene.quads[0].bounds.size, quad.bounds.size);
    assert_eq!(scene.quads[0].content_mask.bounds, quad.content_mask.bounds);
    assert_eq!(scene.quads[0].order, quad.order);
    assert_eq!(scene.quads[0].background.time_transition(), transition);
    scene.transitions.clear();
    assert!(!scene.is_presentable());
}

#[test]
fn replays_keep_the_order_of_painting() {
    let mut source = Scene::new();
    let corner = |x: f32| Quad {
        bounds: rect(x, 0., 10., 10.),
        content_mask: ContentMask {
            bounds: rect(x, 0., 5., 5.),
        },
        background: Background::from(Hsla::black()),
        ..Default::default()
    };
    source.push_layer(square(100.));
    for x in [30., 10., 20.] {
        source.insert_primitive(corner(x));
        source.insert_primitive(shimmering_glyph(0));
    }
    source.pop_layer();
    let mut replayed = Scene::new();
    replayed.replay(0..source.len(), &source);
    assert_eq!(replayed.len(), source.len());
    assert_eq!(replayed.monochrome_sprites.len(), 3);
    let places: Vec<f32> = replayed.quads.iter().map(|q| q.bounds.origin.x.0).collect();
    assert_eq!(places, [30., 10., 20.]);
    for (copy, quad) in replayed.quads.iter().zip(&source.quads) {
        assert_eq!(copy.content_mask.bounds, quad.content_mask.bounds);
        assert_eq!(copy.background, quad.background);
    }
}

fn moved_origin(scene: &Scene<Px>) -> Px {
    scene
        .monochrome_sprites
        .iter()
        .find(|sprite| sprite.pad != 0)
        .map_or(Px(-1.), |sprite| sprite.bounds.origin.y)
}

#[test]
fn a_landed_transition_stops_asking_for_frames() {
    let started_at = NOW - SECONDS;
    let mut scene = Scene::new();
    let Some(transition) = scene.push_transition(rolling_in(started_at)) else {
        panic!("a first transition always fits");
    };
    scene.set_current_transition(transition);
    scene.insert_primitive(shimmering_glyph(0));
    finish(&mut scene);
    assert!(!scene.transitions_in_flight(NOW));
    assert!(!scene.has_time_animations(NOW));
    scene.advance_time_animations(NOW, NOW, &vec![]);
    assert_eq!(moved_origin(&scene), Px(0.), "painted where it landed");
}

#[test]
fn replayed_transitions_are_remapped_into_the_new_scene() {
    let started_at = NOW;
    let mut source = Scene::new();
    let Some(transition) = source.push_transition(rolling_in(started_at)) else {
        panic!("a first transition always fits");
    };
    source.set_current_transition(transition);
    source.insert_primitive(shimmering_glyph(0));
    source.insert_primitive(shimmering_glyph(0));
    source.set_current_transition(0);
    finish(&mut source);

    let mut replayed = Scene::new();
    // An unrelated transition first, so the replayed id has to be remapped.
    replayed.push_transition(rolling_in(started_at - 5 * SECONDS));
    replayed.replay(0..source.len(), &source);
    finish(&mut replayed);
    assert_eq!(
        replayed.transitions.len(),
        2,
        "one entry per transition, not per glyph"
    );
    assert!(replayed
        .monochrome_sprites
        .iter()
        .all(|sprite| sprite.pad == 2));
    assert!(replayed.transitions_in_flight(NOW));
}

#[test]
fn a_background_keeps_glass_animation_and_transition_apart() {
    let background: Background<Px> = Background::from(Hsla::black())
        .glass_content()
        .with_time_animation(0x1234)
        .with_time_transition(0x456);
    assert!(background.is_glass_content());
    assert_eq!(background.time_animation(), 0x1234);
    assert_eq!(background.time_transition(), 0x456);
    let background = background.with_time_animation(7);
    assert_eq!(background.time_transition(), 0x456);
    let background = background.with_time_transition(Background::<Px>::MAX_TIME_TRANSITION + 1);
    assert_eq!(
        background.time_transition(),
        0x456,
        "an id that does not fit is not stored"
    );
    assert_eq!(background.with_time_transition(0).time_animation(), 7);
}

#[test]
fn a_fade_can_run_over_part_of_the_transition() {
    let started_at = NOW;
    let transition: TimeTransition<Px> = TimeTransition::new(started_at, 100 * MILLIS)
        .opacity(Px(0.0), Px(1.0))
        .opacity_span(Px(0.5), Px(1.0));
    let at = |millis: u64| started_at + millis * MILLIS;
    assert_eq!(transition.opacity_at(at(25)), Px(0.0));
    assert!((transition.opacity_at(at(75)).0 - 0.5).abs() < 1e-6);
    assert_eq!(transition.opacity_at(at(100)), Px(1.0));
}

#[test]
fn a_scene_without_moving_parts_does_not_animate() {
    let mut scene = Scene::new();
    scene.insert_primitive(shimmering_glyph(0));
    scene.insert_primitive(opaque_quad());
    finish(&mut scene);
    assert!(!scene.has_time_animations(NOW));
}

fn keyframes(frames: [(f32, f32); 4]) -> [(Px, Px); 4] {
    frames.map(|(phase, opacity)| (Px(phase), Px(opacity)))
}

#[test]
fn opacity_cycle_interpolates_between_keyframes_and_wraps() {
    let cycle = OpacityCycle::new(
        750 * MILLIS,
        keyframes([(0.0, 1.0), (0.5, 0.2), (0.75, 0.2), (1.0, 1.0)]),
    );
    assert!((cycle.opacity_at(Px(0.0)).0 - 1.0).abs() < 1e-6);
    assert!((cycle.opacity_at(Px(0.25)).0 - 0.6).abs() < 1e-6);
    assert!((cycle.opacity_at(Px(0.6)).0 - 0.2).abs() < 1e-6);
    assert!((cycle.opacity_at(Px(0.875)).0 - 0.6).abs() < 1e-6);
    assert!((cycle.opacity_at(Px(1.25)).0 - 0.6).abs() < 1e-6);
    // A clock a quarter of the way through, and a cycle a quarter ahead.
    assert!((cycle.current_opacity(750 * MILLIS / 4).0 - 0.6).abs() < 1e-6);
    assert!((cycle.phase(Px(0.25)).current_opacity(0).0 - 0.6).abs() < 1e-6);
    let instant = OpacityCycle { period: 0, ..cycle };
    assert_eq!(instant.current_opacity(12345), Px(1.0));
}

/// An animated quad may be solid now and translucent at the next present,
/// which the opaque depth pass would paint as solid.
#[test]
fn opacity_cycled_quads_take_the_blended_pass() {
    let mut scene = Scene::new();
    let quad = opaque_quad();
    let animation = scene.push_quad_animation(QuadOpacityAnimation {
        cycle: OpacityCycle::new(
            750 * MILLIS,
            keyframes([(0.0, 0.5), (0.5, 0.5), (0.75, 0.5), (1.0, 0.5)]),
        ),
        background: quad.background,
        border_color: quad.border_color,
    });
    scene.insert_primitive(Quad {
        background: quad.background.with_time_animation(animation),
        ..quad
    });
    finish(&mut scene);
    assert!(scene.opaque_quad_indices.is_empty());
    assert_eq!(scene.blended_quad_indices, vec![0]);

    scene.advance_time_animations(NOW, 12345, &vec![]);
    let background = scene.quads[0].background;
    assert_eq!(background.time_animation(), animation);
    assert!((background.solid.a.0 - quad.background.solid.a.0 * 0.5).abs() < 1e-6);
}

#[test]
fn presenting_again_starts_from_rest() {
    let mut scene = Scene::new();
    let transition = scene.push_transition(rolling_in(NOW)).unwrap();
    let animation = scene.push_quad_animation(QuadOpacityAnimation {
        cycle: OpacityCycle::new(
            1000 * MILLIS,
            keyframes([(0.0, 0.0), (0.25, 0.5), (0.5, 0.5), (1.0, 0.0)]),
        ),
        background: opaque_quad().background,
        border_color: opaque_quad().border_color,
    });
    scene.set_current_transition(transition);
    scene.insert_primitive(Quad {
        background: opaque_quad().background.with_time_animation(animation),
        ..opaque_quad()
    });
    scene.set_current_transition(0);
    finish(&mut scene);
    for millis in [10, 30, 50] {
        scene.advance_time_animations(NOW + millis * MILLIS, 300 * MILLIS, &vec![]);
    }
    // Half of the cycle's half, and five logical pixels from rest.
    assert!((scene.quads[0].background.solid.a.0 - 0.25).abs() < 1e-6);
    assert_eq!(scene.quads[0].bounds.origin.y, Px(10.));
    assert_eq!(scene.quads[0].background.time_animation(), animation);
    assert_eq!(scene.quads[0].background.time_transition(), transition);
}

#[test]
fn replayed_quads_keep_their_cycles() {
    let mut source = Scene::new();
    let animation = source.push_quad_animation(QuadOpacityAnimation {
        cycle: OpacityCycle::new(
            750 * MILLIS,
            keyframes([(0.0, 0.5), (0.5, 0.5), (0.75, 0.5), (1.0, 0.5)]),
        ),
        background: opaque_quad().background,
        border_color: opaque_quad().border_color,
    });
    for _ in 0..2 {
        source.insert_primitive(Quad {
            background: opaque_quad().background.with_time_animation(animation),
            ..opaque_quad()
        });
    }
    finish(&mut source);
    let mut replayed = Scene::new();
    replayed.replay(0..source.len(), &source);
    finish(&mut replayed);
    assert_eq!(replayed.quad_animations.len(), 2);
    assert_eq!(replayed.quads[0].background.time_animation(), 1);
    assert_eq!(replayed.quads[1].background.time_animation(), 2);
}

#[test]
fn transitions_run_out_of_ids() {
    let mut scene = Scene::new();
    for id in 1..=Background::<Px>::MAX_TIME_TRANSITION {
        assert_eq!(scene.push_transition(rolling_in(NOW)), Some(id));
    }
    assert_eq!(scene.push_transition(rolling_in(NOW)), None);
    assert_eq!(scene.current_transition(), 0);
    assert_eq!(scene.set_current_transition(3), 0);
    assert_eq!(scene.set_current_transition(0), 3);

    // A scene without room stamps what it replays with nothing.
    let mut source = Scene::new();
    let transition = source.push_transition(rolling_in(NOW)).unwrap();
    source.set_current_transition(transition);
    source.insert_primitive(shimmering_glyph(0));
    scene.replay(0..source.len(), &source);
    assert_eq!(scene.monochrome_sprites[0].pad, 0);
}

#[test]
fn horizontal_near_misses_are_distinguished_from_scroll_edges() {
    let bounds = rect;
    let near_miss = glyph_near_miss_pixels::<Px>().0;
    let mask = bounds(100., 100., 400., 200.);

    // A clip edge landing inside a line of text: overlaps vertically, misses horizontally
    // by a hair. This is the case worth waking someone up for.
    for glyph in [bounds(99.4, 150., 0.5, 10.), bounds(500.1, 150., 8., 10.)] {
        let (horizontal, vertical) = mask_miss_distances(&glyph, &mask);
        assert!(
            horizontal.0 > 0.0 && horizontal.0 < near_miss && vertical.0 == 0.0,
            "{glyph:?} should read as a horizontal near miss, got {horizontal:?}x / {vertical:?}y"
        );
    }

    // The line just above or below a scroll viewport. Misses by a hair too, but vertically,
    // and is supposed to be invisible. A transcript emits hundreds of these per second, so
    // reporting them would bury the case above.
    for glyph in [bounds(150., 90., 8., 9.), bounds(150., 300.5, 8., 10.)] {
        let (horizontal, vertical) = mask_miss_distances(&glyph, &mask);
        assert_eq!(
            horizontal,
            Px(0.0),
            "{glyph:?} does not miss horizontally at all"
        );
        assert!(vertical.0 > 0.0, "{glyph:?} is a scroll-edge cull");
    }

    // The commonest shape in a real transcript: the line above the viewport ends exactly
    // on the mask's top edge, so the intersection is empty and it is dropped while missing
    // by zero on both axes. It must NOT read as horizontal, or every scrolling frame
    // reports hundreds of false positives.
    let (horizontal, vertical) = mask_miss_distances(&bounds(150., 91., 8., 9.), &mask);
    assert_eq!((horizontal, vertical), (Px(0.0), Px(0.0)));

    // Scrolled well out of the viewport: correctly culled, far away on both counts.
    let (_, vertical) = mask_miss_distances(&bounds(150., -400., 8., 10.), &mask);
    assert!(vertical.0 >= near_miss);

    // Exactly touching an edge yields an empty intersection and so is dropped, with a zero
    // miss. That is the most suspicious geometry of all and must not read as "far away".
    assert_eq!(
        mask_miss_distances(&bounds(92., 150., 8., 10.), &mask).0,
        Px(0.0)
    );
    assert_eq!(
        mask_miss_distances(&bounds(150., 150., 8., 10.), &mask),
        (Px(0.0), Px(0.0))
    );
}

#[test]
fn dropped_glyphs_are_reported_as_asked() {
    let reporting = |setting: &str| GlyphDropReporting::from_setting(&Some(setting.to_string()));
    assert_eq!(
        GlyphDropReporting::from_setting(&None),
        GlyphDropReporting::Off
    );
    assert_eq!(reporting("1"), GlyphDropReporting::NearMisses);
    assert_eq!(reporting("true"), GlyphDropReporting::NearMisses);
    assert_eq!(reporting("all"), GlyphDropReporting::All);
    assert_eq!(reporting("0"), GlyphDropReporting::Off);

    let glyph = |bounds: Bounds<Px>| {
        Primitive::from(MonochromeSprite {
            bounds,
            content_mask: ContentMask {
                bounds: rect(100., 100., 400., 200.),
            },
            ..shimmering_glyph(0)
        })
    };
    let near = glyph(rect(500.5, 150., 8., 10.));
    let above = glyph(rect(150., 90., 8., 9.));
    let seen = glyph(rect(150., 150., 8., 10.));
    assert!(glyph_drop(GlyphDropReporting::Off, &near).is_none());
    let report = glyph_drop(GlyphDropReporting::NearMisses, &near).unwrap();
    assert!(report.suspicious);
    assert_eq!((report.horizontal, report.vertical), (Px(0.5), Px(0.0)));
    assert!(glyph_drop(GlyphDropReporting::NearMisses, &above).is_none());
    assert!(!glyph_drop(GlyphDropReporting::All, &above).unwrap().suspicious);
    assert!(glyph_drop(GlyphDropReporting::All, &seen).is_none());
    let quad = Primitive::from(Quad {
        bounds: rect(500.5, 150., 8., 10.),
        content_mask: ContentMask {
            bounds: rect(100., 100., 400., 200.),
        },
        ..Quad::default()
    });
    assert!(glyph_drop(GlyphDropReporting::All, &quad).is_none());
}

#[test]
fn what_a_mask_hides_is_not_painted() {
    let mut scene = Scene::new();
    scene.insert_primitive(Quad {
        bounds: rect(0., 0., 10., 10.),
        content_mask: ContentMask {
            bounds: rect(10., 0., 10., 10.),
        },
        ..opaque_quad()
    });
    assert!(scene.is_empty());
    assert_eq!(scene.len(), 0);
}

#[test]
fn orders_stack_what_overlaps() {
    let mut tree: BoundsTree<Px> = BoundsTree::new();
    assert_eq!(tree.insert(rect(0., 0., 10., 10.)), 1);
    assert_eq!(tree.insert(rect(20., 0., 10., 10.)), 1);
    assert_eq!(tree.insert(rect(5., 5., 20., 10.)), 2);
    assert_eq!(tree.insert(rect(100., 0., 10., 10.)), 1);
    assert_eq!(tree.insert(rect(0., 0., 200., 200.)), 3);
    tree.clear();
    assert_eq!(tree.insert(rect(0., 0., 10., 10.)), 1);
}

fn shadow() -> Shadow<Px> {
    let corners = Corners {
        top_left: Px(0.),
        top_right: Px(0.),
        bottom_right: Px(0.),
        bottom_left: Px(0.),
    };
    Shadow {
        order: 0,
        blur_radius: Px(1.),
        bounds: unit_bounds(),
        corner_radii: corners,
        content_mask: ContentMask {
            bounds: unit_bounds(),
        },
        color: Hsla::black(),
        element_bounds: rect(1., 1., 8., 8.),
        element_corner_radii: corners,
        inset: 0,
        pad: 0,
    }
}

fn underline() -> Underline<Px> {
    Underline {
        order: 0,
        pad: 0,
        bounds: unit_bounds(),
        content_mask: ContentMask {
            bounds: unit_bounds(),
        },
        color: Hsla::black(),
        thickness: Px(1.),
        wavy: PaddedBool32::from(true),
    }
}

fn subpixel(texture: u32, id: u32) -> SubpixelSprite<Px> {
    let glyph = shimmering_glyph(0);
    SubpixelSprite {
        order: 0,
        pad: 0,
        bounds: glyph.bounds,
        content_mask: glyph.content_mask,
        color: glyph.color,
        effect: glyph.effect,
        tile: tile(texture, id),
        transformation: glyph.transformation,
    }
}

fn polychrome(texture: u32, id: u32) -> PolychromeSprite<Px> {
    PolychromeSprite {
        order: 0,
        pad: 0,
        grayscale: PaddedBool32::from(false),
        opacity: Px(1.),
        bounds: unit_bounds(),
        content_mask: ContentMask {
            bounds: unit_bounds(),
        },
        corner_radii: shadow().corner_radii,
        tile: tile(texture, id),
    }
}

#[test]
fn batches_follow_order_kind_and_texture() {
    let mut scene = Scene::new();
    scene.push_layer(square(100.));
    scene.insert_primitive(polychrome(0, 2));
    scene.insert_primitive(shadow());
    scene.insert_primitive(opaque_quad());
    scene.insert_primitive(underline());
    scene.insert_primitive(polychrome(1, 1));
    scene.insert_primitive(subpixel(3, 7));
    scene.insert_primitive(MonochromeSprite {
        tile: tile(5, 1),
        ..shimmering_glyph(0)
    });
    let mut path = Path::new(point(Px(0.), Px(0.)));
    path.line_to(point(Px(10.), Px(0.)));
    path.line_to(point(Px(10.), Px(10.)));
    path.content_mask = ContentMask {
        bounds: unit_bounds(),
    };
    scene.insert_primitive(path);
    scene.insert_primitive(PaintSurface {
        order: 0,
        bounds: unit_bounds(),
        content_mask: ContentMask {
            bounds: unit_bounds(),
        },
        image_buffer: 42,
    });
    scene.pop_layer();
    // On top of the layer.
    scene.insert_primitive(Quad {
        corner_radii: Corners {
            top_left: Px(2.),
            ..opaque_quad().corner_radii
        },
        ..opaque_quad()
    });
    finish(&mut scene);
    let labels: Vec<String> = scene.batches().iter().map(|batch| batch.label()).collect();
    assert_eq!(
        labels,
        [
            "shadows (1)",
            "quads (1)",
            "paths (1)",
            "underlines (1)",
            "monochrome sprites (1) on atlas 5",
            "subpixel sprites (1) on atlas 3",
            "polychrome sprites (1) on atlas 1",
            "polychrome sprites (1) on atlas 0",
            "surfaces (1)",
            "quads (1)",
        ]
    );
    // The later quad is solid but round: both passes draw it.
    assert_eq!(scene.opaque_quad_indices, vec![1, 0]);
    assert_eq!(scene.blended_quad_indices, vec![1]);
    let ranges: Vec<_> = scene
        .batches()
        .into_iter()
        .filter_map(|batch| match batch {
            PrimitiveBatch::Quads {
                range,
                blended_range,
            } => Some((range, blended_range)),
            _ => None,
        })
        .collect();
    assert_eq!(ranges, [(0..1, 0..0), (1..2, 0..1)]);
    assert_eq!(scene.paths[0].id.0, 0);
    assert_eq!(scene.surfaces[0].image_buffer, 42);

    let mut walk = BatchIterator::new(&scene);
    let mut count = 0;
    while walk.next().is_some() {
        count += 1;
    }
    assert_eq!(count, 10);
}

#[test]
fn runs_of_one_kind_make_one_batch() {
    let mut scene = Scene::new();
    for x in 0..12 {
        scene.insert_primitive(Quad {
            bounds: rect(x as f32 * 10., 0., 10., 10.),
            content_mask: ContentMask {
                bounds: rect(0., 0., 1000., 1000.),
            },
            ..opaque_quad()
        });
    }
    finish(&mut scene);
    let batches = scene.batches();
    assert_eq!(batches.len(), 1);
    assert_eq!(batches[0].label(), "quads (12)");
    assert_eq!(
        scene.opaque_quad_indices,
        (0..12).rev().collect::<Vec<u32>>()
    );
}

#[test]
fn sprites_of_one_order_are_sorted_by_tile() {
    let mut scene = Scene::new();
    scene.push_layer(square(100.));
    for (position, id) in [(0, 5), (1, 2), (2, 5), (3, 2), (4, 9)] {
        scene.insert_primitive(MonochromeSprite {
            tile: tile(0, id),
            bounds: rect(position as f32, 0., 1., 1.),
            content_mask: ContentMask {
                bounds: square(100.),
            },
            ..shimmering_glyph(0)
        });
    }
    scene.pop_layer();
    finish(&mut scene);
    let sorted: Vec<(u32, f32)> = scene
        .monochrome_sprites
        .iter()
        .map(|sprite| (sprite.tile.tile_id.0, sprite.bounds.origin.x.0))
        .collect();
    assert_eq!(sorted, [(2, 1.), (2, 3.), (5, 0.), (5, 2.), (9, 4.)]);
}

#[test]
fn borders_glass_and_translucency_keep_quads_out_of_the_opaque_pass() {
    let bordered = Quad {
        border_widths: Edges {
            top: Px(1.),
            right: Px(0.),
            bottom: Px(0.),
            left: Px(0.),
        },
        ..opaque_quad()
    };
    assert!(opaque_quad().has_opaque_core());
    assert!(!bordered.has_opaque_core());
    assert!(!Quad {
        background: opaque_quad().background.glass_content(),
        ..opaque_quad()
    }
    .has_opaque_core());
    assert!(!Quad {
        background: opaque_quad().background.opacity(Px(0.5)),
        ..opaque_quad()
    }
    .has_opaque_core());
    assert!(!opaque_quad().has_rounded_corners());
}

#[test]
fn paths_collect_triangles() {
    let mut path = Path::new(point(Px(0.), Px(0.)));
    path.line_to(point(Px(10.), Px(0.)));
    assert_eq!(path.vertices.len(), 0);
    path.line_to(point(Px(10.), Px(20.)));
    assert_eq!(path.vertices.len(), 3);
    assert_eq!(path.bounds, rect(0., 0., 10., 20.));
    path.curve_to(point(Px(0.), Px(20.)), point(Px(5.), Px(30.)));
    assert_eq!(path.vertices.len(), 9);
    assert_eq!(path.vertices[7].st_position, point(Px(0.5), Px(0.)));
    assert_eq!(path.bounds, rect(0., 0., 10., 30.));
    path.move_to(point(Px(1.), Px(1.)));
    assert_eq!(path.contour_count, 4);
    path.content_mask = ContentMask {
        bounds: rect(5., 5., 100., 10.),
    };
    assert_eq!(path.clipped_bounds(), rect(5., 5., 5., 10.));
    let scaled = path.scale(Px(2.));
    assert_eq!(scaled.bounds, rect(0., 0., 20., 60.));
    assert_eq!(scaled.vertices[2].xy_position, point(Px(20.), Px(40.)));
    assert_eq!(scaled.vertices[7].st_position, point(Px(0.5), Px(0.)));
}

#[test]
fn transformations_compose() {
    let unit: TransformationMatrix<Px> = TransformationMatrix::unit();
    let moved = unit.translate(point(Px(3.), Px(4.)));
    assert_eq!(moved.apply(point(Px(1.), Px(1.))), point(Px(4.), Px(5.)));
    let scaled = unit.scale(Size {
        width: Px(2.),
        height: Px(3.),
    });
    assert_eq!(scaled.apply(point(Px(1.), Px(1.))), point(Px(2.), Px(3.)));
    // First the scaling, then the move.
    let both = moved.compose(scaled);
    assert_eq!(both.apply(point(Px(1.), Px(1.))), point(Px(5.), Px(7.)));
    assert_eq!(both.compose(unit), both);
    assert_eq!(unit.compose(both), both);
    // A quarter turn.
    let turned = unit.rotate(Px(0.), Px(1.));
    assert_eq!(turned.apply(point(Px(1.), Px(0.))), point(Px(0.), Px(1.)));
}

#[test]
fn padded_booleans_are_zero_or_one() {
    assert_eq!(PaddedBool32::from(true).to_u32(), 1);
    assert_eq!(PaddedBool32::from(false).to_u32(), 0);
}
