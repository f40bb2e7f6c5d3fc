//! What a scene draws.
use vstd::prelude::*;
use vstd::std_specs::convert::FromSpecImpl;

use crate::atlas_tile::AtlasTile;
use crate::color::{Background, Hsla};
use crate::geometry::{Bounds, ContentMask, Corners, Edges, Point};
use crate::path::{Path, PathModel};
use crate::scalar::{one, one_half, spec_one, spec_one_half, spec_zero, zero, Scalar};
use crate::transform::TransformationMatrix;

verus! {

/// When something is drawn: what has a greater order is drawn later.
pub type DrawOrder = u32;

/// A boolean stored as a `u32`, `0` or `1`, as the shaders read it.
#[derive(Clone, Copy, Debug, PartialEq, Eq)]
pub struct PaddedBool32(u32);

impl PaddedBool32 {
    /// The stored number.
    pub closed spec fn bit(self) -> u32 {
        self.0
    }

    /// The number that stands for `value`.
    pub closed spec fn spec_of(value: bool) -> Self {
        PaddedBool32(
            if value {
                1
            } else {
                0
            },
        )
    }

    /// The stored number.
    pub fn to_u32(self) -> (result: u32)
        ensures
            result == self.bit(),
    {
        self.0
    }
}

impl From<bool> for PaddedBool32 {
    fn from(value: bool) -> (result: Self) {
        PaddedBool32(
            if value {
                1
            } else {
                0
            },
        )
    }
}

impl Default for PaddedBool32 {
    fn default() -> (result: Self)
        ensures
            result == Self::spec_of(false),
    {
        PaddedBool32(0)
    }
}

impl FromSpecImpl<bool> for PaddedBool32 {
    open spec fn obeys_from_spec() -> bool {
        true
    }

    open spec fn from_spec(value: bool) -> Self {
        PaddedBool32::spec_of(value)
    }
}

/// A boolean is stored as one where it holds and as zero where it does not.
pub proof fn law_padded_bool_is_zero_or_one(value: bool)
    ensures
        PaddedBool32::spec_of(value).bit() == if value {
            1u32
        } else {
            0u32
        },
{
}

/// The style of a border.
#[derive(Clone, Copy, Debug, PartialEq, Eq, Structural, Hash, Default)]
pub enum BorderStyle {
    /// A solid border.
    #[default]
    Solid,
    /// A dashed border.
    Dashed,
}

/// A rectangle with a border and rounded corners.
#[derive(Clone, Copy, Debug)]
pub struct Quad<F> {
    /// When the quad is drawn.
    pub order: DrawOrder,
    /// How its border is drawn.
    pub border_style: BorderStyle,
    /// Where it is.
    pub bounds: Bounds<F>,
    /// The region that it is clipped to.
    pub content_mask: ContentMask<F>,
    /// What it is filled with.
    pub background: Background<F>,
    /// The color of its border.
    pub border_color: Hsla<F>,
    /// How round its corners are.
    pub corner_radii: Corners<F>,
    /// How wide its border is.
    pub border_widths: Edges<F>,
}

impl<F: Scalar> Quad<F> {
    /// A quad of no extent and no color.
    pub open spec fn spec_default() -> Self {
        let zero = spec_zero::<F>();
        Quad {
            order: 0,
            border_style: BorderStyle::Solid,
            bounds: Bounds::spec_origin(),
            content_mask: ContentMask { bounds: Bounds::spec_origin() },
            background: Background::spec_solid(Hsla::spec_transparent()),
            border_color: Hsla::spec_transparent(),
            corner_radii: Corners {
                top_left: zero,
                top_right: zero,
                bottom_right: zero,
                bottom_left: zero,
            },
            border_widths: Edges { top: zero, right: zero, bottom: zero, left: zero },
        }
    }

    /// Whether the inside hides everything below it: solid, without a border,
    /// and not on glass.
    pub open spec fn spec_has_opaque_core(self) -> bool {
        let zero = spec_zero::<F>();
        &&& !self.background.glass
        &&& self.background.spec_as_solid() is Some
        &&& spec_one::<F>().spec_le(self.background.solid.a)
        &&& self.border_widths.top.spec_same(zero)
        &&& self.border_widths.right.spec_same(zero)
        &&& self.border_widths.bottom.spec_same(zero)
        &&& self.border_widths.left.spec_same(zero)
    }

    /// Whether any corner is round.
    pub open spec fn spec_has_rounded_corners(self) -> bool {
        let zero = spec_zero::<F>();
        ||| !self.corner_radii.top_left.spec_same(zero)
        ||| !self.corner_radii.top_right.spec_same(zero)
        ||| !self.corner_radii.bottom_right.spec_same(zero)
        ||| !self.corner_radii.bottom_left.spec_same(zero)
    }

    /// Whether the inside hides everything below it.
    ///
    /// Glass content deliberately leaves the destination alpha of the
    /// translucent surface beneath it untouched. The opaque pass blends nothing
    /// and so would write alpha 1 over that surface, so glass quads never take
    /// it, however solid their color is.
    pub fn has_opaque_core(&self) -> (result: bool)
        ensures
            result == self.spec_has_opaque_core(),
    {
        let solid = match self.background.as_solid() {
            Some(color) => one::<F>().le(color.a),
            None => false,
        };
        !self.background.is_glass_content() && solid && self.border_widths.top.same(zero())
            && self.border_widths.right.same(zero()) && self.border_widths.bottom.same(zero())
            && self.border_widths.left.same(zero())
    }

    /// Whether any corner is round.
    pub fn has_rounded_corners(&self) -> (result: bool)
        ensures
            result == self.spec_has_rounded_corners(),
    {
        !self.corner_radii.top_left.same(zero()) || !self.corner_radii.top_right.same(zero())
            || !self.corner_radii.bottom_right.same(zero())
            || !self.corner_radii.bottom_left.same(zero())
    }
}

impl<F: Scalar> Default for Quad<F> {
    fn default() -> (result: Self)
        ensures
            result == Self::spec_default(),
    {
        Quad {
            order: 0,
            border_style: BorderStyle::Solid,
            bounds: Bounds::zero(),
            content_mask: ContentMask { bounds: Bounds::zero() },
            background: Background::solid_color(Hsla::transparent()),
            border_color: Hsla::transparent(),
            corner_radii: Corners {
                top_left: zero(),
                top_right: zero(),
                bottom_right: zero(),
                bottom_left: zero(),
            },
            border_widths: Edges { top: zero(), right: zero(), bottom: zero(), left: zero() },
        }
    }
}

/// A line below text.
#[derive(Clone, Copy, Debug)]
pub struct Underline<F> {
    /// When the underline is drawn.
    pub order: DrawOrder,
    /// The transition that moves it, `0` for none.
    pub pad: u32,
    /// Where it is.
    pub bounds: Bounds<F>,
    /// The region that it is clipped to.
    pub content_mask: ContentMask<F>,
    /// Its color.
    pub color: Hsla<F>,
    /// How thick it is.
    pub thickness: F,
    /// Whether it is wavy.
    pub wavy: PaddedBool32,
}

/// The blurred shadow of a rectangle.
#[derive(Clone, Copy, Debug)]
pub struct Shadow<F> {
    /// When the shadow is drawn.
    pub order: DrawOrder,
    /// How far it is blurred.
    pub blur_radius: F,
    /// Where it is.
    pub bounds: Bounds<F>,
    /// How round its corners are.
    pub corner_radii: Corners<F>,
    /// The region that it is clipped to.
    pub content_mask: ContentMask<F>,
    /// Its color.
    pub color: Hsla<F>,
    /// Where the rectangle is that casts it.
    pub element_bounds: Bounds<F>,
    /// How round the corners are of the rectangle that casts it.
    pub element_corner_radii: Corners<F>,
    /// 0 = drop shadow (rendered outside the element), 1 = inset shadow (rendered inside).
    pub inset: u32,
    /// The transition that moves it, `0` for none.
    pub pad: u32,
}

/// Per-sprite highlight the text fragment shaders apply on top of the glyph
/// color. It is part of every [`MonochromeSprite`] and [`SubpixelSprite`], and
/// the shaders leave early on `kind == 0` before reading it.
#[derive(Clone, Copy, Debug)]
pub struct SpriteEffect<F> {
    /// `0` for plain text, [`SHIMMER_KIND`] for the shimmer band.
    pub kind: u32,
    /// Where the band reaches full strength, as a fraction of `band_width`
    /// measured from the trailing edge. One half is a symmetric band; values
    /// above it push the peak towards the leading edge, leaving a longer tail
    /// behind the sweep.
    pub peak: F,
    /// Exponent applied to each side's smoothstep ramp. One is the plain
    /// smoothstep; larger values pull the highlight in towards the peak.
    pub falloff: F,
    /// Fraction of the highlight withheld from the band's shoulders, so only
    /// the core reaches the full highlight color. Zero lights the whole band
    /// evenly.
    pub core_gain: F,
    /// Point band offsets are measured from, in device pixels.
    pub origin: Point<F>,
    /// Half-width of the core, as a fraction of `band_width`.
    pub core_spread: F,
    /// One more than the index of the shimmer animation in the owning scene
    /// that moves `band_origin` with time, or `0` for a still band. The shaders
    /// never read it; the scene rewrites `band_origin` from it before every
    /// present, so a sweeping shimmer animates without its view drawing again.
    pub animation: u32,
    /// Color the band blends towards at full intensity.
    pub highlight_color: Hsla<F>,
    /// Trailing edge of the highlight band, measured along `direction` from
    /// `origin`. Sweeping this past the projected extent of the text animates
    /// the shimmer.
    pub band_origin: F,
    /// Width of the highlight band along `direction`.
    pub band_width: F,
    /// Unit vector the band sweeps along, in y-down screen space. A CSS
    /// `linear-gradient(<angle>, ...)` maps to `(sin angle, -cos angle)`.
    pub direction: Point<F>,
}

/// The kind of a [`SpriteEffect`] that draws the shimmer band.
pub const SHIMMER_KIND: u32 = 1;

impl<F: Scalar> SpriteEffect<F> {
    /// The kind of an effect that draws the shimmer band.
    pub const SHIMMER_KIND: u32 = SHIMMER_KIND;

    /// Plain text.
    pub open spec fn spec_default() -> Self {
        SpriteEffect {
            kind: 0,
            peak: spec_one_half(),
            falloff: spec_one(),
            core_gain: spec_zero(),
            origin: Point::spec_origin(),
            core_spread: spec_one_half(),
            animation: 0,
            highlight_color: Hsla::spec_transparent(),
            band_origin: spec_zero(),
            band_width: spec_zero(),
            direction: Point { x: spec_one(), y: spec_zero() },
        }
    }
}

impl<F: Scalar> Default for SpriteEffect<F> {
    fn default() -> (result: Self)
        ensures
            result == Self::spec_default(),
    {
        SpriteEffect {
            kind: 0,
            peak: one_half(),
            falloff: one(),
            core_gain: zero(),
            origin: Point::zero(),
            core_spread: one_half(),
            animation: 0,
            highlight_color: Hsla::transparent(),
            band_origin: zero(),
            band_width: zero(),
            direction: Point { x: one(), y: zero() },
        }
    }
}

/// A glyph or an icon of one color.
#[derive(Clone, Copy, Debug)]
pub struct MonochromeSprite<F> {
    /// When the sprite is drawn.
    pub order: DrawOrder,
    /// The transition that moves it, `0` for none.
    pub pad: u32,
    /// Where it is.
    pub bounds: Bounds<F>,
    /// The region that it is clipped to.
    pub content_mask: ContentMask<F>,
    /// Its color.
    pub color: Hsla<F>,
    /// The highlight on top of its color.
    pub effect: SpriteEffect<F>,
    /// Its image.
    pub tile: AtlasTile,
    /// How it is transformed.
    pub transformation: TransformationMatrix<F>,
}

/// A glyph of one color with a coverage value per color channel.
#[derive(Clone, Copy, Debug)]
pub struct SubpixelSprite<F> {
    /// When the sprite is drawn.
    pub order: DrawOrder,
    /// The transition that moves it, `0` for none.
    pub pad: u32,
    /// Where it is.
    pub bounds: Bounds<F>,
    /// The region that it is clipped to.
    pub content_mask: ContentMask<F>,
    /// Its color.
    pub color: Hsla<F>,
    /// The highlight on top of its color.
    pub effect: SpriteEffect<F>,
    /// Its image.
    pub tile: AtlasTile,
    /// How it is transformed.
    pub transformation: TransformationMatrix<F>,
}

/// An image with its own colors.
#[derive(Clone, Copy, Debug)]
pub struct PolychromeSprite<F> {
    /// When the sprite is drawn.
    pub order: DrawOrder,
    /// The transition that moves it, `0` for none.
    pub pad: u32,
    /// Whether it is drawn without its colors.
    pub grayscale: PaddedBool32,
    /// How opaque it is.
    pub opacity: F,
    /// Where it is.
    pub bounds: Bounds<F>,
    /// The region that it is clipped to.
    pub content_mask: ContentMask<F>,
    /// How round its corners are.
    pub corner_radii: Corners<F>,
    /// Its image.
    pub tile: AtlasTile,
}

/// A picture that something else renders.
#[derive(Clone, Copy, Debug)]
pub struct PaintSurface<F> {
    /// When the surface is drawn.
    pub order: DrawOrder,
    /// Where it is.
    pub bounds: Bounds<F>,
    /// The region that it is clipped to.
    pub content_mask: ContentMask<F>,
    /// The handle of the buffer that holds the picture.
    pub image_buffer: u64,
}

/// One thing that a scene draws.
#[derive(Debug)]
pub enum Primitive<F> {
    /// A shadow.
    Shadow(Shadow<F>),
    /// A quad.
    Quad(Quad<F>),
    /// A path.
    Path(Path<F>),
    /// An underline.
    Underline(Underline<F>),
    /// A sprite of one color.
    MonochromeSprite(MonochromeSprite<F>),
    /// A sprite of one color with a coverage value per color channel.
    SubpixelSprite(SubpixelSprite<F>),
    /// A sprite with its own colors.
    PolychromeSprite(PolychromeSprite<F>),
    /// A picture that something else renders.
    Surface(PaintSurface<F>),
}

/// What a [`Primitive`] holds.
pub enum PrimitiveModel<F> {
    /// A shadow.
    Shadow(Shadow<F>),
    /// A quad.
    Quad(Quad<F>),
    /// A path.
    Path(PathModel<F>),
    /// An underline.
    Underline(Underline<F>),
    /// A sprite of one color.
    MonochromeSprite(MonochromeSprite<F>),
    /// A sprite of one color with a coverage value per color channel.
    SubpixelSprite(SubpixelSprite<F>),
    /// A sprite with its own colors.
    PolychromeSprite(PolychromeSprite<F>),
    /// A picture that something else renders.
    Surface(PaintSurface<F>),
}

impl<F> View for Primitive<F> {
    type V = PrimitiveModel<F>;

    open spec fn view(&self) -> PrimitiveModel<F> {
        match *self {
            Primitive::Shadow(shadow) => PrimitiveModel::Shadow(shadow),
            Primitive::Quad(quad) => PrimitiveModel::Quad(quad),
            Primitive::Path(path) => PrimitiveModel::Path(path@),
            Primitive::Underline(underline) => PrimitiveModel::Underline(underline),
            Primitive::MonochromeSprite(sprite) => PrimitiveModel::MonochromeSprite(sprite),
            Primitive::SubpixelSprite(sprite) => PrimitiveModel::SubpixelSprite(sprite),
            Primitive::PolychromeSprite(sprite) => PrimitiveModel::PolychromeSprite(sprite),
            Primitive::Surface(surface) => PrimitiveModel::Surface(surface),
        }
    }
}

impl<F: Scalar> PrimitiveModel<F> {
    /// Where the primitive is.
    pub open spec fn bounds(self) -> Bounds<F> {
        match self {
            PrimitiveModel::Shadow(shadow) => shadow.bounds,
            PrimitiveModel::Quad(quad) => quad.bounds,
            PrimitiveModel::Path(path) => path.bounds,
            PrimitiveModel::Underline(underline) => underline.bounds,
            PrimitiveModel::MonochromeSprite(sprite) => sprite.bounds,
            PrimitiveModel::SubpixelSprite(sprite) => sprite.bounds,
            PrimitiveModel::PolychromeSprite(sprite) => sprite.bounds,
            PrimitiveModel::Surface(surface) => surface.bounds,
        }
    }

    /// The region that the primitive is clipped to.
    pub open spec fn content_mask(self) -> ContentMask<F> {
        match self {
            PrimitiveModel::Shadow(shadow) => shadow.content_mask,
            PrimitiveModel::Quad(quad) => quad.content_mask,
            PrimitiveModel::Path(path) => path.content_mask,
            PrimitiveModel::Underline(underline) => underline.content_mask,
            PrimitiveModel::MonochromeSprite(sprite) => sprite.content_mask,
            PrimitiveModel::SubpixelSprite(sprite) => sprite.content_mask,
            PrimitiveModel::PolychromeSprite(sprite) => sprite.content_mask,
            PrimitiveModel::Surface(surface) => surface.content_mask,
        }
    }

    /// The part of the primitive that its mask leaves.
    pub open spec fn clipped_bounds(self) -> Bounds<F> {
        self.bounds().spec_intersect(self.content_mask().bounds)
    }

    /// The transition id the primitive carries, or `0`.
    pub open spec fn transition(self) -> u32 {
        match self {
            PrimitiveModel::Shadow(shadow) => shadow.pad,
            PrimitiveModel::Quad(quad) => quad.background.transition,
            PrimitiveModel::Underline(underline) => underline.pad,
            PrimitiveModel::MonochromeSprite(sprite) => sprite.pad,
            PrimitiveModel::SubpixelSprite(sprite) => sprite.pad,
            PrimitiveModel::PolychromeSprite(sprite) => sprite.pad,
            PrimitiveModel::Path(_) | PrimitiveModel::Surface(_) => 0,
        }
    }

    /// The primitive with its transition id set; a path and a surface carry
    /// none, and a quad none above what its background can name.
    pub open spec fn with_transition(self, transition: u32) -> Self {
        match self {
            PrimitiveModel::Shadow(shadow) => PrimitiveModel::Shadow(
                Shadow { pad: transition, ..shadow },
            ),
            PrimitiveModel::Quad(quad) => PrimitiveModel::Quad(
                Quad {
                    background: quad.background.spec_with_time_transition(transition),
                    ..quad
                },
            ),
            PrimitiveModel::Underline(underline) => PrimitiveModel::Underline(
                Underline { pad: transition, ..underline },
            ),
            PrimitiveModel::MonochromeSprite(sprite) => PrimitiveModel::MonochromeSprite(
                MonochromeSprite { pad: transition, ..sprite },
            ),
            PrimitiveModel::SubpixelSprite(sprite) => PrimitiveModel::SubpixelSprite(
                SubpixelSprite { pad: transition, ..sprite },
            ),
            PrimitiveModel::PolychromeSprite(sprite) => PrimitiveModel::PolychromeSprite(
                PolychromeSprite { pad: transition, ..sprite },
            ),
            PrimitiveModel::Path(_) | PrimitiveModel::Surface(_) => self,
        }
    }

    /// The opacity cycle that drives the primitive, or `0`.
    pub open spec fn quad_animation(self) -> u32 {
        match self {
            PrimitiveModel::Quad(quad) => quad.background.animation,
            _ => 0,
        }
    }

    /// The primitive driven by the opacity cycle `animation`.
    pub open spec fn with_quad_animation(self, animation: u32) -> Self {
        match self {
            PrimitiveModel::Quad(quad) => PrimitiveModel::Quad(
                Quad { background: quad.background.spec_with_time_animation(animation), ..quad },
            ),
            _ => self,
        }
    }

    /// The sweep that moves the primitive's highlight, or `0`.
    pub open spec fn shimmer_animation(self) -> u32 {
        match self {
            PrimitiveModel::MonochromeSprite(sprite) => sprite.effect.animation,
            PrimitiveModel::SubpixelSprite(sprite) => sprite.effect.animation,
            _ => 0,
        }
    }

    /// The primitive with its highlight moved by the sweep `animation`.
    pub open spec fn with_shimmer_animation(self, animation: u32) -> Self {
        match self {
            PrimitiveModel::MonochromeSprite(sprite) => PrimitiveModel::MonochromeSprite(
                MonochromeSprite { effect: SpriteEffect { animation, ..sprite.effect }, ..sprite },
            ),
            PrimitiveModel::SubpixelSprite(sprite) => PrimitiveModel::SubpixelSprite(
                SubpixelSprite { effect: SpriteEffect { animation, ..sprite.effect }, ..sprite },
            ),
            _ => self,
        }
    }

    /// The primitive with its order set, and, if it is a path, with its id.
    pub open spec fn with_order(self, order: u32, path_id: usize) -> Self {
        match self {
            PrimitiveModel::Shadow(shadow) => PrimitiveModel::Shadow(Shadow { order, ..shadow }),
            PrimitiveModel::Quad(quad) => PrimitiveModel::Quad(Quad { order, ..quad }),
            PrimitiveModel::Path(path) => PrimitiveModel::Path(
                PathModel { order, id: crate::path::PathId(path_id), ..path },
            ),
            PrimitiveModel::Underline(underline) => PrimitiveModel::Underline(
                Underline { order, ..underline },
            ),
            PrimitiveModel::MonochromeSprite(sprite) => PrimitiveModel::MonochromeSprite(
                MonochromeSprite { order, ..sprite },
            ),
            PrimitiveModel::SubpixelSprite(sprite) => PrimitiveModel::SubpixelSprite(
                SubpixelSprite { order, ..sprite },
            ),
            PrimitiveModel::PolychromeSprite(sprite) => PrimitiveModel::PolychromeSprite(
                PolychromeSprite { order, ..sprite },
            ),
            PrimitiveModel::Surface(surface) => PrimitiveModel::Surface(
                PaintSurface { order, ..surface },
            ),
        }
    }
}

impl<F: Scalar> Primitive<F> {
    /// Where the primitive is.
    pub fn bounds(&self) -> (result: &Bounds<F>)
        ensures
            *result == self@.bounds(),
    {
        match self {
            Primitive::Shadow(shadow) => &shadow.bounds,
            Primitive::Quad(quad) => &quad.bounds,
            Primitive::Path(path) => &path.bounds,
            Primitive::Underline(underline) => &underline.bounds,
            Primitive::MonochromeSprite(sprite) => &sprite.bounds,
            Primitive::SubpixelSprite(sprite) => &sprite.bounds,
            Primitive::PolychromeSprite(sprite) => &sprite.bounds,
            Primitive::Surface(surface) => &surface.bounds,
        }
    }

    /// The region that the primitive is clipped to.
    pub fn content_mask(&self) -> (result: &ContentMask<F>)
        ensures
            *result == self@.content_mask(),
    {
        match self {
            Primitive::Shadow(shadow) => &shadow.content_mask,
            Primitive::Quad(quad) => &quad.content_mask,
            Primitive::Path(path) => &path.content_mask,
            Primitive::Underline(underline) => &underline.content_mask,
            Primitive::MonochromeSprite(sprite) => &sprite.content_mask,
            Primitive::SubpixelSprite(sprite) => &sprite.content_mask,
            Primitive::PolychromeSprite(sprite) => &sprite.content_mask,
            Primitive::Surface(surface) => &surface.content_mask,
        }
    }

    /// The transition id the primitive carries, or `0`.
    pub fn transition(&self) -> (result: u32)
        ensures
            result == self@.transition(),
    {
        match self {
            Primitive::Shadow(shadow) => shadow.pad,
            Primitive::Quad(quad) => quad.background.time_transition(),
            Primitive::Underline(underline) => underline.pad,
            Primitive::MonochromeSprite(sprite) => sprite.pad,
            Primitive::SubpixelSprite(sprite) => sprite.pad,
            Primitive::PolychromeSprite(sprite) => sprite.pad,
            Primitive::Path(_) => 0,
            Primitive::Surface(_) => 0,
        }
    }

    /// Sets the transition id.
    pub fn set_transition(&mut self, transition: u32)
        ensures
            final(self)@ == old(self)@.with_transition(transition),
    {
        match self {
            Primitive::Shadow(shadow) => {
                shadow.pad = transition;
            },
            Primitive::Quad(quad) => {
                quad.background = quad.background.with_time_transition(transition);
            },
            Primitive::Underline(underline) => {
                underline.pad = transition;
            },
            Primitive::MonochromeSprite(sprite) => {
                sprite.pad = transition;
            },
            Primitive::SubpixelSprite(sprite) => {
                sprite.pad = transition;
            },
            Primitive::PolychromeSprite(sprite) => {
                sprite.pad = transition;
            },
            Primitive::Path(_) => {},
            Primitive::Surface(_) => {},
        }
    }

    /// The opacity cycle that drives the primitive, or `0`.
    pub fn quad_animation(&self) -> (result: u32)
        ensures
            result == self@.quad_animation(),
    {
        match self {
            Primitive::Quad(quad) => quad.background.time_animation(),
            _ => 0,
        }
    }

    /// Has the opacity cycle `animation` drive the primitive.
    pub fn set_quad_animation(&mut self, animation: u32)
        ensures
            final(self)@ == old(self)@.with_quad_animation(animation),
    {
        match self {
            Primitive::Quad(quad) => {
                quad.background = quad.background.with_time_animation(animation);
            },
            _ => {},
        }
    }

    /// The sweep that moves the primitive's highlight, or `0`.
    pub fn shimmer_animation(&self) -> (result: u32)
        ensures
            result == self@.shimmer_animation(),
    {
        match self {
            Primitive::MonochromeSprite(sprite) => sprite.effect.animation,
            Primitive::SubpixelSprite(sprite) => sprite.effect.animation,
            _ => 0,
        }
    }

    /// Has the sweep `animation` move the primitive's highlight.
    pub fn set_shimmer_animation(&mut self, animation: u32)
        ensures
            final(self)@ == old(self)@.with_shimmer_animation(animation),
    {
        match self {
            Primitive::MonochromeSprite(sprite) => {
                sprite.effect.animation = animation;
            },
            Primitive::SubpixelSprite(sprite) => {
                sprite.effect.animation = animation;
            },
            _ => {},
        }
    }

    /// A primitive that holds the same.
    pub fn duplicate(&self) -> (result: Self)
        ensures
            result@ == self@,
    {
        match self {
            Primitive::Shadow(shadow) => Primitive::Shadow(*shadow),
            Primitive::Quad(quad) => Primitive::Quad(*quad),
            Primitive::Path(path) => Primitive::Path(path.duplicate()),
            Primitive::Underline(underline) => Primitive::Underline(*underline),
            Primitive::MonochromeSprite(sprite) => Primitive::MonochromeSprite(*sprite),
            Primitive::SubpixelSprite(sprite) => Primitive::SubpixelSprite(*sprite),
            Primitive::PolychromeSprite(sprite) => Primitive::PolychromeSprite(*sprite),
            Primitive::Surface(surface) => Primitive::Surface(*surface),
        }
    }
}

impl<F: Scalar> From<Quad<F>> for Primitive<F> {
    fn from(quad: Quad<F>) -> (result: Self) {
        Primitive::Quad(quad)
    }
}

impl<F: Scalar> FromSpecImpl<Quad<F>> for Primitive<F> {
    open spec fn obeys_from_spec() -> bool {
        true
    }

    open spec fn from_spec(quad: Quad<F>) -> Self {
        Primitive::Quad(quad)
    }
}

impl<F: Scalar> From<Underline<F>> for Primitive<F> {
    fn from(underline: Underline<F>) -> (result: Self) {
        Primitive::Underline(underline)
    }
}

impl<F: Scalar> FromSpecImpl<Underline<F>> for Primitive<F> {
    open spec fn obeys_from_spec() -> bool {
        true
    }

    open spec fn from_spec(underline: Underline<F>) -> Self {
        Primitive::Underline(underline)
    }
}

impl<F: Scalar> From<Shadow<F>> for Primitive<F> {
    fn from(shadow: Shadow<F>) -> (result: Self) {
        Primitive::Shadow(shadow)
    }
}

impl<F: Scalar> FromSpecImpl<Shadow<F>> for Primitive<F> {
    open spec fn obeys_from_spec() -> bool {
        true
    }

    open spec fn from_spec(shadow: Shadow<F>) -> Self {
        Primitive::Shadow(shadow)
    }
}

impl<F: Scalar> From<MonochromeSprite<F>> for Primitive<F> {
    fn from(sprite: MonochromeSprite<F>) -> (result: Self) {
        Primitive::MonochromeSprite(sprite)
    }
}

impl<F: Scalar> FromSpecImpl<MonochromeSprite<F>> for Primitive<F> {
    open spec fn obeys_from_spec() -> bool {
        true
    }

    open spec fn from_spec(sprite: MonochromeSprite<F>) -> Self {
        Primitive::MonochromeSprite(sprite)
    }
}

impl<F: Scalar> From<SubpixelSprite<F>> for Primitive<F> {
    fn from(sprite: SubpixelSprite<F>) -> (result: Self) {
        Primitive::SubpixelSprite(sprite)
    }
}

impl<F: Scalar> FromSpecImpl<SubpixelSprite<F>> for Primitive<F> {
    open spec fn obeys_from_spec() -> bool {
        true
    }

    open spec fn from_spec(sprite: SubpixelSprite<F>) -> Self {
        Primitive::SubpixelSprite(sprite)
    }
}

impl<F: Scalar> From<PolychromeSprite<F>> for Primitive<F> {
    fn from(sprite: PolychromeSprite<F>) -> (result: Self) {
        Primitive::PolychromeSprite(sprite)
    }
}

impl<F: Scalar> FromSpecImpl<PolychromeSprite<F>> for Primitive<F> {
    open spec fn obeys_from_spec() -> bool {
        true
    }

    open spec fn from_spec(sprite: PolychromeSprite<F>) -> Self {
        Primitive::PolychromeSprite(sprite)
    }
}

impl<F: Scalar> From<PaintSurface<F>> for Primitive<F> {
    fn from(surface: PaintSurface<F>) -> (result: Self) {
        Primitive::Surface(surface)
    }
}

impl<F: Scalar> FromSpecImpl<PaintSurface<F>> for Primitive<F> {
    open spec fn obeys_from_spec() -> bool {
        true
    }

    open spec fn from_spec(surface: PaintSurface<F>) -> Self {
        Primitive::Surface(surface)
    }
}

impl<F: Scalar> From<Path<F>> for Primitive<F> {
    fn from(path: Path<F>) -> (result: Self) {
        Primitive::Path(path)
    }
}

impl<F: Scalar> FromSpecImpl<Path<F>> for Primitive<F> {
    open spec fn obeys_from_spec() -> bool {
        true
    }

    open spec fn from_spec(path: Path<F>) -> Self {
        Primitive::Path(path)
    }
}

} // verus!
