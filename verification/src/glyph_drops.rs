//! Telling glyphs that were clipped by accident from glyphs that were scrolled
//! away.
use vstd::prelude::*;

use crate::geometry::Bounds;
use crate::primitives::{Primitive, PrimitiveModel};
use crate::scalar::{spec_two, spec_zero, two, zero, Scalar};

verus! {

/// Which glyphs are reported that their content mask drops.
///
/// Off by default: dropping is a hot path and legitimately discards offscreen
/// glyphs by the thousand while scrolling.
#[derive(Clone, Copy, Debug, PartialEq, Eq, Structural)]
pub enum GlyphDropReporting {
    /// None.
    Off,
    /// Only glyphs that missed their content mask by a hair.
    NearMisses,
    /// Every dropped glyph, including ones legitimately scrolled offscreen.
    All,
}

impl GlyphDropReporting {
    /// What a setting asks for: near misses, everything, or nothing.
    pub open spec fn spec_from_setting(setting: Option<Seq<char>>) -> Self {
        match setting {
            Some(text) => if text == "1"@ || text == "true"@ {
                GlyphDropReporting::NearMisses
            } else if text == "all"@ {
                GlyphDropReporting::All
            } else {
                GlyphDropReporting::Off
            },
            None => GlyphDropReporting::Off,
        }
    }

    /// What a setting asks for: `1` and `true` report near misses, which is what
    /// one wants when diagnosing characters going missing from the middle of a
    /// word; `all` reports every drop and is extremely noisy.
    pub fn from_setting(setting: &Option<String>) -> (result: Self)
        ensures
            result == Self::spec_from_setting(
                match *setting {
                    Some(text) => Some(text@),
                    None => None,
                },
            ),
    {
        match setting {
            Some(text) => if *text == "1".to_owned() || *text == "true".to_owned() {
                GlyphDropReporting::NearMisses
            } else if *text == "all".to_owned() {
                GlyphDropReporting::All
            } else {
                GlyphDropReporting::Off
            },
            None => GlyphDropReporting::Off,
        }
    }
}

/// How far `bounds` misses `mask` along one axis; zero where they touch or
/// overlap.
pub open spec fn spec_miss<F: Scalar>(
    start: F,
    extent: F,
    mask_start: F,
    mask_extent: F,
) -> F {
    mask_start.spec_minus(start.spec_plus(extent)).spec_greatest(
        start.spec_minus(mask_start.spec_plus(mask_extent)),
    ).spec_greatest(spec_zero())
}

fn miss<F: Scalar>(start: F, extent: F, mask_start: F, mask_extent: F) -> (result: F)
    ensures
        result == spec_miss(start, extent, mask_start, mask_extent),
{
    mask_start.minus(start.plus(extent)).greatest(
        start.minus(mask_start.plus(mask_extent)),
    ).greatest(zero())
}

/// How far `bounds` misses `mask` horizontally.
pub open spec fn spec_horizontal_miss<F: Scalar>(bounds: Bounds<F>, mask: Bounds<F>) -> F {
    spec_miss(bounds.origin.x, bounds.size.width, mask.origin.x, mask.size.width)
}

/// How far `bounds` misses `mask` vertically.
pub open spec fn spec_vertical_miss<F: Scalar>(bounds: Bounds<F>, mask: Bounds<F>) -> F {
    spec_miss(bounds.origin.y, bounds.size.height, mask.origin.y, mask.size.height)
}

/// Scaled pixels by which `bounds` misses `mask` on each axis; zero where they
/// touch or overlap.
///
/// The magnitude separates the two reasons a glyph is culled: content scrolled
/// out of a viewport misses by tens or thousands of pixels, while a glyph
/// rounded off a clip edge misses by well under one.
///
/// The axis then separates the two reasons a glyph can miss by a hair. A
/// vertical near miss is the ordinary case: the line above a scroll viewport
/// sits a few pixels above its mask and is supposed to be invisible. A
/// horizontal near miss is not ordinary: text is not scrolled sideways, so a
/// glyph a fraction of a pixel past the left or right edge means a clip edge
/// landed inside a label.
pub fn mask_miss_distances<F: Scalar>(bounds: &Bounds<F>, mask: &Bounds<F>) -> (result: (F, F))
    ensures
        result.0 == spec_horizontal_miss(*bounds, *mask),
        result.1 == spec_vertical_miss(*bounds, *mask),
{
    (
        miss(bounds.origin.x, bounds.size.width, mask.origin.x, mask.size.width),
        miss(bounds.origin.y, bounds.size.height, mask.origin.y, mask.size.height),
    )
}

/// A glyph that missed its mask by less than this many scaled pixels is very
/// unlikely to have been scrolled away and very likely to have been rounded away.
pub fn glyph_near_miss_pixels<F: Scalar>() -> (result: F)
    ensures
        result == spec_two::<F>(),
{
    two()
}

/// A dropped glyph that is worth a report.
#[derive(Clone, Copy, Debug)]
pub struct GlyphDrop<F> {
    /// Whether a clip edge cut into a line of text.
    pub suspicious: bool,
    /// How far the glyph missed its mask horizontally.
    pub horizontal: F,
    /// How far the glyph missed its mask vertically.
    pub vertical: F,
}

/// Whether a miss means that a clip edge cut into a line of text: it is by a
/// hair, and horizontal only.
pub open spec fn is_suspicious<F: Scalar>(horizontal: F, vertical: F) -> bool {
    &&& spec_zero::<F>().spec_lt(horizontal)
    &&& horizontal.spec_lt(spec_two())
    &&& vertical.spec_same(spec_zero())
}

/// Whether a primitive is a glyph, or an icon that is drawn like one.
pub open spec fn is_glyph<F>(primitive: PrimitiveModel<F>) -> bool {
    primitive is MonochromeSprite || primitive is SubpixelSprite
}

/// The report on painting `primitive`.
pub open spec fn spec_glyph_drop<F: Scalar>(
    reporting: GlyphDropReporting,
    primitive: PrimitiveModel<F>,
) -> Option<GlyphDrop<F>> {
    let mask = primitive.content_mask().bounds;
    let horizontal = spec_horizontal_miss(primitive.bounds(), mask);
    let vertical = spec_vertical_miss(primitive.bounds(), mask);
    let suspicious = is_suspicious(horizontal, vertical);
    if !primitive.clipped_bounds().spec_is_empty() || !is_glyph(primitive) || reporting
        == GlyphDropReporting::Off {
        None
    } else if reporting == GlyphDropReporting::All || suspicious {
        Some(GlyphDrop { suspicious, horizontal, vertical })
    } else {
        None
    }
}

/// The report on painting `primitive`: none where its mask leaves something of
/// it, where it is no glyph, or where what happened to it is not asked for.
pub fn glyph_drop<F: Scalar>(
    reporting: GlyphDropReporting,
    primitive: &Primitive<F>,
) -> (result: Option<GlyphDrop<F>>)
    ensures
        result == spec_glyph_drop(reporting, primitive@),
{
    let bounds = primitive.bounds();
    let mask = &primitive.content_mask().bounds;
    if !bounds.intersect(mask).is_empty() {
        return None;
    }
    let glyph: bool = match primitive {
        Primitive::MonochromeSprite(_) => true,
        Primitive::SubpixelSprite(_) => true,
        _ => false,
    };
    if !glyph || reporting == GlyphDropReporting::Off {
        return None;
    }
    let (horizontal, vertical) = mask_miss_distances(bounds, mask);
    let suspicious: bool = zero::<F>().lt(horizontal) && horizontal.lt(glyph_near_miss_pixels())
        && vertical.same(zero());
    if reporting == GlyphDropReporting::All || suspicious {
        Some(GlyphDrop { suspicious, horizontal, vertical })
    } else {
        None
    }
}

} // verus!
