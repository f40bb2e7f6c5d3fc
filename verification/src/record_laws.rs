//! What gauges, trackers, names and numbers show of what is recorded in them.
use vstd::prelude::*;
use vstd::string::*;
use vstd::utf8::encode_utf8;

use crate::capacity::{roomy, CapacityShrink};
use crate::color::{Background, BackgroundTag, Hsla};
use crate::decimal::spec_decimal;
use crate::glyph_drops::{
    spec_glyph_drop, spec_horizontal_miss, spec_vertical_miss, GlyphDropReporting,
};
use crate::geometry::Bounds;
use crate::manifest_resource::{escaped, spec_resource_script};
use crate::primitives::PrimitiveModel;
use crate::render_memory::{RenderMemoryGauge, RenderMemoryGauges};
use crate::scalar::{spec_clamp, spec_one, spec_two, spec_zero, Scalar};
use crate::transform::{units_are_neutral, TransformationMatrix};
use crate::window_appearance::{spec_from_native, spec_to_native, AppearanceName, WindowAppearance};

verus! {

/// A report into one gauge is what that gauge shows, and no other gauge shows anything of it.
pub proof fn law_gauges_are_apart(
    gauges: RenderMemoryGauges,
    gauge: RenderMemoryGauge,
    other: RenderMemoryGauge,
    bytes: u64,
)
    ensures
        gauges.with_reading(gauge, bytes).reading(gauge) == bytes,
        other != gauge ==> gauges.with_reading(gauge, bytes).reading(other) == gauges.reading(
            other,
        ),
        gauges.reading(RenderMemoryGauge::AtlasMonochrome) == gauges.atlas_monochrome_bytes,
        gauges.reading(RenderMemoryGauge::AtlasPolychrome) == gauges.atlas_polychrome_bytes,
        gauges.reading(RenderMemoryGauge::InstanceBuffers) == gauges.instance_buffer_bytes,
        gauges.reading(RenderMemoryGauge::DepthTextures) == gauges.depth_texture_bytes,
        RenderMemoryGauges::spec_zero().reading(gauge) == 0,
{
}

/// A name tells the appearance whether it is dark, and whether it lets through what is
/// behind; a name that is not known tells of neither.
pub proof fn law_names_tell_appearances(name: AppearanceName, appearance: WindowAppearance)
    ensures
        spec_from_native(AppearanceName::Aqua) == WindowAppearance::Light,
        spec_from_native(AppearanceName::DarkAqua) == WindowAppearance::Dark,
        spec_from_native(AppearanceName::VibrantLight) == WindowAppearance::VibrantLight,
        spec_from_native(AppearanceName::VibrantDark) == WindowAppearance::VibrantDark,
        name == AppearanceName::Unknown ==> spec_from_native(name) == WindowAppearance::Light,
        spec_to_native(appearance) == name ==> spec_from_native(name) == appearance,
        name != AppearanceName::Unknown ==> spec_to_native(spec_from_native(name)) == name,
{
}

/// The number that decimal digits tell.
pub open spec fn number_told(digits: Seq<char>) -> int
    decreases digits.len(),
{
    if digits.len() == 0 {
        0
    } else {
        10 * number_told(digits.drop_last()) + (digits.last() as int - '0' as int)
    }
}

/// Digits tell the number that was written, begin with a zero only where that is all of it,
/// and are decimal digits.
pub proof fn law_digits_tell_their_number(number: nat, i: int)
    ensures
        number_told(spec_decimal(number)) == number,
        spec_decimal(number).len() > 0,
        spec_decimal(number)[0] == '0' ==> number == 0,
        0 <= i < spec_decimal(number).len() ==> '0' as int <= spec_decimal(number)[i] as int
            <= '9' as int,
    decreases number,
{
    if number < 10 {
        let digits = spec_decimal(number);
        assert(digits.drop_last() =~= Seq::empty());
        assert(number_told(digits.drop_last()) == 0);
    } else {
        law_digits_tell_their_number(number / 10, i);
        law_digits_tell_their_number(number / 10, 0);
        assert(spec_decimal(number).drop_last() =~= spec_decimal(number / 10));
    }
}

/// What a string literal of a resource script says: of two backslashes in a row the second
/// one, and every other byte.
pub open spec fn said(literal: Seq<u8>) -> Seq<u8>
    decreases literal.len(),
{
    if literal.len() == 0 {
        Seq::empty()
    } else if literal.last() == 92 && literal.len() > 1 {
        said(literal.drop_last().drop_last()).push(92)
    } else {
        said(literal.drop_last()).push(literal.last())
    }
}

proof fn lemma_escaped_is_said(bytes: Seq<u8>)
    ensures
        said(escaped(bytes)) == bytes,
    decreases bytes.len(),
{
    if bytes.len() > 0 {
        let rest = escaped(bytes.drop_last());
        lemma_escaped_is_said(bytes.drop_last());
        if bytes.last() == 92 {
            assert(rest.push(92).push(92).drop_last() =~= rest.push(92));
            assert(rest.push(92).drop_last() =~= rest);
        } else {
            assert(rest.push(bytes.last()).drop_last() =~= rest);
        }
        assert(bytes.drop_last().push(bytes.last()) =~= bytes);
    } else {
        assert(said(escaped(bytes)) =~= bytes);
    }
}

/// The literal of a resource script says the path of the manifest, whatever the path, and
/// stands in quotes behind the number that marks a manifest.
pub proof fn law_scripts_say_their_path(path: Seq<u8>)
    ensures
        exists|literal: Seq<u8>|
            said(literal) == path && #[trigger] spec_resource_script(path) == encode_utf8(
                "#define RT_MANIFEST 24\n1 RT_MANIFEST \""@,
            ) + literal + encode_utf8("\"\n"@),
{
    lemma_escaped_is_said(path);
    let literal = escaped(path);
    assert(said(literal) == path);
}

/// A run of low-use frames is kept in mind by its length and its largest fill, and where the
/// hundred-and-twentieth ends it, the collection keeps room for twice that fill, and for 32
/// at least; a frame that needs more than half of the room ends it at once.
pub proof fn law_room_is_kept_for_twice_the_largest_fill(
    tracker: CapacityShrink,
    len: usize,
    capacity: usize,
    last_len: usize,
)
    requires
        tracker.low_use_frames < 120,
        2 * tracker.max_recent_len <= usize::MAX,
        2 * len <= usize::MAX,
        2 * last_len <= usize::MAX,
    ensures
        ({
            let (after, target) = tracker.spec_record(len, capacity);
            let low_use = capacity > 32 && 2 * len <= capacity;
            &&& !low_use ==> after.low_use_frames == 0 && after.max_recent_len == 0
                && target is None
            &&& low_use && tracker.low_use_frames < 119 ==> {
                &&& target is None
                &&& after.low_use_frames == tracker.low_use_frames + 1
                &&& after.max_recent_len >= tracker.max_recent_len && after.max_recent_len >= len
                &&& after.max_recent_len == tracker.max_recent_len || after.max_recent_len == len
            }
            &&& low_use && tracker.low_use_frames == 119 ==> {
                &&& after.low_use_frames == 0 && after.max_recent_len == 0
                &&& target is Some
                &&& target->Some_0 >= 32 && target->Some_0 >= 2 * len && target->Some_0 >= 2
                    * tracker.max_recent_len
                &&& target->Some_0 == 32 || target->Some_0 == 2 * len || target->Some_0 == 2
                    * tracker.max_recent_len
            }
        }),
        ({
            let (after, target) = tracker.spec_idle_target(last_len, capacity);
            let (kept, held) = (2 * tracker.max_recent_len, 2 * last_len);
            let enough = capacity <= 32 || capacity <= kept || capacity <= held;
            &&& enough ==> target is None && after == tracker
            &&& !enough ==> {
                &&& after.low_use_frames == 0 && after.max_recent_len == 0
                &&& target is Some
                &&& target->Some_0 >= 32 && target->Some_0 >= kept && target->Some_0 >= held
                &&& target->Some_0 == 32 || target->Some_0 == kept || target->Some_0 == held
            }
        }),
        roomy(len as int) >= 32,
{
}

/// A background of one color is told as that color, carries no mark, and is the only kind of
/// which a color is told.
pub proof fn law_solid_backgrounds_tell_their_color<F: Scalar>(
    color: Hsla<F>,
    background: Background<F>,
)
    ensures
        ({
            let solid = Background::spec_solid(color);
            &&& solid.spec_as_solid() == Some(color)
            &&& solid.tag == BackgroundTag::Solid
            &&& !solid.glass && solid.animation == 0 && solid.transition == 0
        }),
        background.spec_as_solid() is Some <==> background.tag == BackgroundTag::Solid,
        background.spec_as_solid() is Some ==> background.spec_as_solid()->Some_0
            == background.solid,
        Hsla::<F>::spec_transparent().a == spec_zero::<F>(),
{
}

/// A number held between two others is itself where it lies between them, and else the one
/// that it lies beyond.
pub proof fn law_held_numbers_stay_between<F: Scalar>(value: F, low: F, high: F)
    ensures
        value.spec_lt(low) ==> spec_clamp(value, low, high) == low,
        !value.spec_lt(low) && high.spec_lt(value) ==> spec_clamp(value, low, high) == high,
        !value.spec_lt(low) && !high.spec_lt(value) ==> spec_clamp(value, low, high) == value,
{
}

/// Whether one number is the greater of two others.
pub open spec fn is_greater_of<F: Scalar>(greater: F, a: F, b: F) -> bool {
    (greater == a || greater == b) && a.spec_le(greater) && b.spec_le(greater)
}

/// Whether numbers are compared as numbers are, and differences tell which of two is larger.
pub open spec fn differences_tell<F: Scalar>() -> bool {
    &&& forall|a: F, b: F| #[trigger] is_greater_of(a.spec_greatest(b), a, b)
    &&& forall|a: F, b: F| a.spec_le(b) && b.spec_le(a) ==> a == b
    &&& forall|a: F, b: F| #[trigger] a.spec_le(b) || b.spec_le(a)
    &&& forall|a: F, b: F, c: F|
        #![trigger a.spec_le(b), b.spec_le(c)]
        a.spec_le(b) && b.spec_le(c) ==> a.spec_le(c)
    &&& forall|a: F, b: F| #[trigger] a.spec_minus(b).spec_le(spec_zero()) <==> a.spec_le(b)
}

/// How far a rectangle misses a mask: not at all where they touch or overlap, else the
/// distance between the ends that face each other.
pub proof fn law_misses_are_distances<F: Scalar>(bounds: Bounds<F>, mask: Bounds<F>)
    requires
        differences_tell::<F>(),
        mask.origin.x.spec_le(mask.origin.x.spec_plus(mask.size.width)),
        mask.origin.y.spec_le(mask.origin.y.spec_plus(mask.size.height)),
        bounds.origin.x.spec_le(bounds.origin.x.spec_plus(bounds.size.width)),
        bounds.origin.y.spec_le(bounds.origin.y.spec_plus(bounds.size.height)),
    ensures
        ({
            let (left, right) = (bounds.origin.x, bounds.origin.x.spec_plus(bounds.size.width));
            let (mask_left, mask_right) = (
                mask.origin.x,
                mask.origin.x.spec_plus(mask.size.width),
            );
            let miss = spec_horizontal_miss(bounds, mask);
            &&& mask_left.spec_le(right) && left.spec_le(mask_right) ==> miss == spec_zero::<F>()
            &&& !mask_left.spec_le(right) ==> miss == mask_left.spec_minus(right)
            &&& !left.spec_le(mask_right) ==> miss == left.spec_minus(mask_right)
        }),
        ({
            let (top, bottom) = (bounds.origin.y, bounds.origin.y.spec_plus(bounds.size.height));
            let (mask_top, mask_bottom) = (
                mask.origin.y,
                mask.origin.y.spec_plus(mask.size.height),
            );
            let miss = spec_vertical_miss(bounds, mask);
            &&& mask_top.spec_le(bottom) && top.spec_le(mask_bottom) ==> miss == spec_zero::<F>()
            &&& !mask_top.spec_le(bottom) ==> miss == mask_top.spec_minus(bottom)
            &&& !top.spec_le(mask_bottom) ==> miss == top.spec_minus(mask_bottom)
        }),
{
    lemma_miss(
        bounds.origin.x,
        bounds.origin.x.spec_plus(bounds.size.width),
        mask.origin.x,
        mask.origin.x.spec_plus(mask.size.width),
    );
    lemma_miss(
        bounds.origin.y,
        bounds.origin.y.spec_plus(bounds.size.height),
        mask.origin.y,
        mask.origin.y.spec_plus(mask.size.height),
    );
}

proof fn lemma_miss<F: Scalar>(start: F, end: F, mask_start: F, mask_end: F)
    requires
        differences_tell::<F>(),
        start.spec_le(end),
        mask_start.spec_le(mask_end),
    ensures
        ({
            let miss = mask_start.spec_minus(end).spec_greatest(
                start.spec_minus(mask_end),
            ).spec_greatest(spec_zero());
            &&& mask_start.spec_le(end) && start.spec_le(mask_end) ==> miss == spec_zero::<F>()
            &&& !mask_start.spec_le(end) ==> miss == mask_start.spec_minus(end)
            &&& !start.spec_le(mask_end) ==> miss == start.spec_minus(mask_end)
        }),
{
    let zero = spec_zero::<F>();
    let (before, behind) = (mask_start.spec_minus(end), start.spec_minus(mask_end));
    let farther = before.spec_greatest(behind);
    let miss = farther.spec_greatest(zero);
    assert(is_greater_of(farther, before, behind));
    assert(is_greater_of(miss, farther, zero));
    assert(before.spec_le(zero) <==> mask_start.spec_le(end));
    assert(behind.spec_le(zero) <==> start.spec_le(mask_end));
    if !mask_start.spec_le(end) {
        // The mask begins behind the end, so the start is not behind the mask.
        assert(end.spec_le(mask_start));
        assert(start.spec_le(mask_start));
        assert(start.spec_le(mask_end));
        assert(behind.spec_le(zero));
        assert(!before.spec_le(zero));
        if farther == behind {
            assert(before.spec_le(behind));
            assert(before.spec_le(zero));
        }
        assert(farther == before);
        if miss == zero {
            assert(farther.spec_le(zero));
        }
    } else if !start.spec_le(mask_end) {
        assert(before.spec_le(zero));
        if farther == before {
            assert(behind.spec_le(before));
            assert(behind.spec_le(zero));
        }
        assert(farther == behind);
        if miss == zero {
            assert(farther.spec_le(zero));
        }
    } else {
        assert(farther.spec_le(zero));
        assert(zero.spec_le(miss));
        if miss == farther {
            assert(miss.spec_le(zero));
        }
    }
}

/// What is dropped is reported only of glyphs, and only where it is asked for: either every
/// drop, or those that miss their mask sideways by less than two pixels and not in height.
pub proof fn law_drops_are_reported_as_asked<F: Scalar>(
    reporting: GlyphDropReporting,
    primitive: PrimitiveModel<F>,
)
    ensures
        ({
            let report = spec_glyph_drop(reporting, primitive);
            let mask = primitive.content_mask().bounds;
            let dropped = primitive.bounds().spec_intersect(mask).spec_is_empty();
            let glyph = primitive is MonochromeSprite || primitive is SubpixelSprite;
            let sideways = spec_horizontal_miss(primitive.bounds(), mask);
            let upright = spec_vertical_miss(primitive.bounds(), mask);
            let by_a_hair = spec_zero::<F>().spec_lt(sideways) && sideways.spec_lt(spec_two())
                && upright.spec_same(spec_zero());
            &&& report is Some <==> dropped && glyph && (reporting == GlyphDropReporting::All
                || reporting == GlyphDropReporting::NearMisses && by_a_hair)
            &&& report is Some ==> {
                &&& report->Some_0.suspicious == by_a_hair
                &&& report->Some_0.horizontal == sideways
                &&& report->Some_0.vertical == upright
            }
        }),
{
}

/// The settings that report something are `1`, `true` and `all`.
pub proof fn law_settings_are_told_apart(text: Seq<char>)
    ensures
        ({
            let asked = GlyphDropReporting::spec_from_setting(Some(text));
            &&& asked == GlyphDropReporting::NearMisses <==> text == "1"@ || text == "true"@
            &&& asked == GlyphDropReporting::All <==> text == "all"@
            &&& GlyphDropReporting::spec_from_setting(None) == GlyphDropReporting::Off
        }),
{
    reveal_strlit("1");
    reveal_strlit("true");
    reveal_strlit("all");
    assert("all"@.len() == 3);
    assert("true"@.len() == 4);
    assert("1"@.len() == 1);
}

/// Where zero and one are neutral, a matrix that reads as the unit but for its translation
/// moves a point by that; one that scales along the axes multiplies its coordinates; and the
/// columns of a matrix are where it takes the points at a distance of one on the axes.
pub proof fn law_matrices_move_and_scale<F: Scalar>(
    matrix: TransformationMatrix<F>,
    x: F,
    y: F,
    row: int,
)
    requires
        units_are_neutral::<F>(),
        forall|a: F| #[trigger] a.spec_times(spec_zero()) == spec_zero::<F>(),
        forall|a: F| #[trigger] a.spec_times(spec_one()) == a,
        row == 0 || row == 1,
    ensures
        ({
            let (zero, one) = (spec_zero::<F>(), spec_one::<F>());
            let moved = matrix.translation@[row];
            let cells = (
                (matrix.cell(0, 0), matrix.cell(0, 1)),
                (matrix.cell(1, 0), matrix.cell(1, 1)),
            );
            &&& cells == ((one, zero), (zero, one)) ==> matrix.image(x, y, 0)
                == matrix.translation@[0].spec_plus(x) && matrix.image(x, y, 1)
                == matrix.translation@[1].spec_plus(y)
            &&& cells.0.1 == zero && cells.1.0 == zero && matrix.translation@[0] == zero
                && matrix.translation@[1] == zero ==> matrix.image(x, y, 0)
                == cells.0.0.spec_times(x) && matrix.image(x, y, 1) == cells.1.1.spec_times(y)
            &&& matrix.image(zero, zero, row) == moved
            &&& matrix.image(one, zero, row) == moved.spec_plus(matrix.cell(row, 0))
            &&& matrix.image(zero, one, row) == moved.spec_plus(matrix.cell(row, 1))
        }),
{
}

} // verus!
