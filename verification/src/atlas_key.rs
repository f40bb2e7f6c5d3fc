//! What an atlas holds tiles for.
use vstd::prelude::*;
use vstd::string::*;
use vstd::utf8::encode_utf8;

use crate::atlas_tile::AtlasTextureKind;
use crate::geometry::{DevicePixels, Size};
use crate::line_layout::{FontId, GlyphId};

verus! {

/// A glyph as it is rasterized. Numbers that are no integers stand here by their
/// bits, so that keys compare exactly.
#[derive(Clone, Copy, Debug, PartialEq, Eq, Structural, Hash)]
pub struct RenderGlyphParams {
    /// The font.
    pub font_id: FontId,
    /// The glyph.
    pub glyph_id: GlyphId,
    /// The bits of the font's size.
    pub font_size_bits: u32,
    /// Which fraction of a pixel the glyph is shifted right by.
    pub subpixel_x: u8,
    /// Which fraction of a pixel the glyph is shifted down by.
    pub subpixel_y: u8,
    /// The bits of the number of device pixels per logical pixel.
    pub scale_factor_bits: u32,
    /// Whether the glyph is an emoji.
    pub is_emoji: bool,
    /// Whether there is a coverage value per color channel.
    pub subpixel_rendering: bool,
    /// How far the glyph's outline is thickened.
    pub dilation: u8,
}

/// A vector image as it is rasterized.
#[derive(Debug)]
pub struct RenderSvgParams {
    /// Where the image is.
    pub path: String,
    /// How large it is rasterized.
    pub size: Size<DevicePixels>,
}

/// A frame of an image.
#[derive(Clone, Copy, Debug, PartialEq, Eq, Structural, Hash)]
pub struct RenderImageParams {
    /// The image.
    pub image_id: usize,
    /// The frame.
    pub frame_index: usize,
}

/// What an atlas holds a tile for.
#[derive(Debug)]
pub enum AtlasKey {
    /// A glyph.
    Glyph(RenderGlyphParams),
    /// A vector image.
    Svg(RenderSvgParams),
    /// A frame of an image.
    Image(RenderImageParams),
}

/// What an [`AtlasKey`] names.
pub enum AtlasKeyModel {
    /// A glyph.
    Glyph(RenderGlyphParams),
    /// A vector image.
    Svg {
        /// Where the image is.
        path: Seq<char>,
        /// How large it is rasterized.
        size: Size<DevicePixels>,
    },
    /// A frame of an image.
    Image(RenderImageParams),
}

impl View for AtlasKey {
    type V = AtlasKeyModel;

    open spec fn view(&self) -> AtlasKeyModel {
        match *self {
            AtlasKey::Glyph(params) => AtlasKeyModel::Glyph(params),
            AtlasKey::Svg(params) => AtlasKeyModel::Svg { path: params.path@, size: params.size },
            AtlasKey::Image(params) => AtlasKeyModel::Image(params),
        }
    }
}

/// One number mixed into another.
pub open spec fn spec_mix(seed: u64, value: u64) -> u64 {
    ((seed * 31 + value) as nat % 0x1_0000_0000_0000_0000) as u64
}

/// The first `count` bytes mixed into a number.
pub open spec fn mix_bytes(seed: u64, bytes: Seq<u8>, count: nat) -> u64
    decreases count,
{
    if count == 0 {
        seed
    } else {
        spec_mix(mix_bytes(seed, bytes, (count - 1) as nat), bytes[count - 1] as u64)
    }
}

impl AtlasKeyModel {
    /// What the texels hold that the key's tile lies in.
    pub open spec fn spec_texture_kind(self) -> AtlasTextureKind {
        match self {
            AtlasKeyModel::Glyph(params) => if params.is_emoji {
                AtlasTextureKind::Polychrome
            } else if params.subpixel_rendering {
                AtlasTextureKind::Subpixel
            } else {
                AtlasTextureKind::Monochrome
            },
            AtlasKeyModel::Svg { .. } => AtlasTextureKind::Monochrome,
            AtlasKeyModel::Image(_) => AtlasTextureKind::Polychrome,
        }
    }

    /// Whether the key's tile may be retired when nothing draws it.
    pub open spec fn spec_is_retirable(self) -> bool {
        self is Glyph || self is Svg
    }

    /// A number that equal keys share.
    pub open spec fn spec_digest(self) -> u64 {
        match self {
            AtlasKeyModel::Glyph(params) => spec_mix(
                spec_mix(
                    spec_mix(
                        spec_mix(params.font_id.0 as u64, params.glyph_id.0 as u64),
                        params.font_size_bits as u64,
                    ),
                    params.scale_factor_bits as u64,
                ),
                (params.subpixel_x as u64 * 256 + params.subpixel_y as u64) as u64,
            ),
            AtlasKeyModel::Svg { path, size } => mix_bytes(
                1,
                encode_utf8(path),
                encode_utf8(path).len(),
            ),
            AtlasKeyModel::Image(params) => spec_mix(
                params.image_id as u64,
                params.frame_index as u64,
            ),
        }
    }
}

fn mix(seed: u64, value: u64) -> (result: u64)
    ensures
        result == spec_mix(seed, value),
{
    let mixed: u128 = seed as u128 * 31 + value as u128;
    (mixed % 0x1_0000_0000_0000_0000) as u64
}

impl AtlasKey {
    /// What the texels hold that the key's tile lies in.
    pub fn texture_kind(&self) -> (result: AtlasTextureKind)
        ensures
            result == self@.spec_texture_kind(),
    {
        match self {
            AtlasKey::Glyph(params) => if params.is_emoji {
                AtlasTextureKind::Polychrome
            } else if params.subpixel_rendering {
                AtlasTextureKind::Subpixel
            } else {
                AtlasTextureKind::Monochrome
            },
            AtlasKey::Svg(_) => AtlasTextureKind::Monochrome,
            AtlasKey::Image(_) => AtlasTextureKind::Polychrome,
        }
    }

    /// Whether the key's tile may be retired when nothing draws it: glyphs and
    /// vector images are rasterized anew when they are drawn again, images are
    /// not.
    pub fn is_retirable(&self) -> (result: bool)
        ensures
            result == self@.spec_is_retirable(),
    {
        match self {
            AtlasKey::Glyph(_) => true,
            AtlasKey::Svg(_) => true,
            AtlasKey::Image(_) => false,
        }
    }

    /// Whether two keys name the same.
    pub fn same(&self, other: &AtlasKey) -> (result: bool)
        ensures
            result == (self@ == other@),
    {
        match (self, other) {
            (AtlasKey::Glyph(a), AtlasKey::Glyph(b)) => *a == *b,
            (AtlasKey::Svg(a), AtlasKey::Svg(b)) => a.path == b.path && a.size.width
                == b.size.width && a.size.height == b.size.height,
            (AtlasKey::Image(a), AtlasKey::Image(b)) => *a == *b,
            _ => false,
        }
    }

    /// A number that equal keys share.
    pub fn digest(&self) -> (result: u64)
        ensures
            result == self@.spec_digest(),
    {
        match self {
            AtlasKey::Glyph(params) => mix(
                mix(
                    mix(
                        mix(params.font_id.0 as u64, params.glyph_id.0 as u64),
                        params.font_size_bits as u64,
                    ),
                    params.scale_factor_bits as u64,
                ),
                params.subpixel_x as u64 * 256 + params.subpixel_y as u64,
            ),
            AtlasKey::Svg(params) => {
                let bytes = params.path.as_str().as_bytes();
                let mut result: u64 = 1;
                let mut i: usize = 0;
                while i < bytes.len()
                    invariant
                        i <= bytes@.len(),
                        result == mix_bytes(1, bytes@, i as nat),
                    decreases bytes@.len() - i,
                {
                    result = mix(result, bytes[i] as u64);
                    i = i + 1;
                }
                result
            },
            AtlasKey::Image(params) => mix(params.image_id as u64, params.frame_index as u64),
        }
    }

    /// A key that names the same.
    pub fn duplicate(&self) -> (result: Self)
        ensures
            result@ == self@,
    {
        match self {
            AtlasKey::Glyph(params) => AtlasKey::Glyph(*params),
            AtlasKey::Svg(params) => AtlasKey::Svg(
                RenderSvgParams { path: params.path.clone(), size: params.size },
            ),
            AtlasKey::Image(params) => AtlasKey::Image(*params),
        }
    }
}

} // verus!
