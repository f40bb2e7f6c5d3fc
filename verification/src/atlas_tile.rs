//! Where a rasterized image lies among the atlas textures.
use vstd::prelude::*;

use crate::geometry::{Bounds, DevicePixels};

verus! {

/// What the texels of an atlas texture hold.
#[derive(Clone, Copy, Debug, PartialEq, Eq, Structural, Hash)]
pub enum AtlasTextureKind {
    /// One coverage value per texel.
    Monochrome,
    /// A color per texel.
    Polychrome,
    /// One coverage value per texel and color channel.
    Subpixel,
}

/// An atlas texture.
#[derive(Clone, Copy, Debug, PartialEq, Eq, Structural, Hash)]
pub struct AtlasTextureId {
    /// Its index among the textures of its kind.
    pub index: u32,
    /// Its kind.
    pub kind: AtlasTextureKind,
}

/// A tile within its texture.
#[derive(Clone, Copy, Debug, PartialEq, Eq, Structural, Hash, PartialOrd, Ord)]
pub struct TileId(pub u32);

/// A rectangle of an atlas texture.
#[derive(Clone, Copy, Debug, PartialEq)]
pub struct AtlasTile {
    /// The texture.
    pub texture_id: AtlasTextureId,
    /// The tile within it.
    pub tile_id: TileId,
    /// How many texels around the image are left blank.
    pub padding: u32,
    /// The rectangle.
    pub bounds: Bounds<DevicePixels>,
}

} // verus!
