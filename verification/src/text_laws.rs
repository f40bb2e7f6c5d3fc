//! What admitting text means: what is charged, what is refused, and where a line stands.
use std::sync::Arc;

use vstd::layout::size_of;
use vstd::prelude::*;
use vstd::utf8::is_char_boundary;

use crate::geometry::{Bounds, Point};
use crate::line_layout::LineLayout;
use crate::line_paint::TextAlign;
use crate::scalar::{spec_two, spec_zero, Scalar};
use crate::shared::one_allocation;
use crate::text_allocation::{
    admitted, buffers_bytes, element_bytes, resized, source_bytes, spec_admitted_line_origin,
    spec_growth, spec_layout_bytes, styled, AdmittedLineLayout, AdmittedStyledText,
    AdmittedTextLayout, AdmittedTextSource, AdmittedTextSourceInner, AdmittedTextStyle, Growth,
    TextAllocationAdmission, TextAllocationClass, TextAllocationError, TextAllocationReservation,
    TextPlatformCoverage,
};
use crate::text_paint::{TextSurroundings, WrappedLine};

verus! {

/// A buffer is grown only where it lacks room, and only where the old and the new buffer can
/// be live at once beside everything else: what is reserved covers all of them.
pub proof fn law_growing_is_covered(
    len: usize,
    capacity: usize,
    additional: usize,
    size: usize,
    other_live_bytes: usize,
    reserved: usize,
    bound: bool,
)
    ensures
        ({
            let growth = spec_growth(
                len,
                capacity,
                additional,
                size,
                other_live_bytes,
                reserved,
                bound,
            );
            let needed = len + additional;
            let live = (capacity + needed) * size + other_live_bytes;
            let countable = capacity + needed <= usize::MAX && (capacity + needed) * size
                <= usize::MAX && live <= usize::MAX;
            &&& growth == Growth::Fits <==> needed <= capacity
            &&& growth == Growth::Grows <==> needed > capacity && countable && bound && live
                <= reserved
            &&& growth == Growth::Fails(TextAllocationError::Denied) <==> needed > capacity
                && countable && (!bound || live > reserved)
            &&& growth == Growth::Fails(TextAllocationError::Overflow) <==> needed > capacity
                && !countable
        }),
{
}

/// Reserving more never gets a buffer refused that was grown before.
pub proof fn law_larger_reservations_cover_more(
    len: usize,
    capacity: usize,
    additional: usize,
    size: usize,
    other_live_bytes: usize,
    reserved: usize,
    more: usize,
)
    requires
        reserved <= more,
        spec_growth(len, capacity, additional, size, other_live_bytes, reserved, true)
            == Growth::Grows,
    ensures
        spec_growth(len, capacity, additional, size, other_live_bytes, more, true)
            == Growth::Grows,
{
}

/// A line begins at the top of its bounds: at their left, or with the space that it leaves
/// halved on either side, or so that it ends at their right.
pub proof fn law_lines_are_aligned_in_their_bounds<F: Scalar>(
    bounds: Bounds<F>,
    width: F,
    align: TextAlign,
)
    requires
        forall|a: F| #[trigger] a.spec_plus(spec_zero()) == a,
        forall|a: F, b: F, c: F|
            #[trigger] a.spec_plus(b.spec_minus(c)).spec_plus(c) == a.spec_plus(b),
    ensures
        ({
            let origin = spec_admitted_line_origin(bounds, width, align);
            let space = bounds.size.width.spec_minus(width);
            &&& origin.y == bounds.origin.y
            &&& align == TextAlign::Left ==> origin.x == bounds.origin.x
            &&& align == TextAlign::Center ==> origin.x == bounds.origin.x.spec_plus(
                space.spec_over(spec_two()),
            )
            &&& align == TextAlign::Right ==> origin.x.spec_plus(width)
                == bounds.origin.x.spec_plus(bounds.size.width)
        }),
{
}

/// A source is charged for every byte of its text, for its own record and for four words;
/// one more byte of text is one more byte charged.
pub proof fn law_sources_are_charged_by_the_byte<A: TextAllocationAdmission>(len: int)
    ensures
        source_bytes::<A>(len + 1) == source_bytes::<A>(len) + 1,
        source_bytes::<A>(0) == size_of::<AdmittedTextSourceInner<A>>() + 4 * size_of::<usize>(),
{
}

proof fn lemma_buffers(capacities: Seq<usize>, other: Seq<usize>, size: int, count: nat)
    requires
        count <= capacities.len(),
        count <= other.len(),
        forall|i: int| 0 <= i < count ==> capacities[i] == other[i],
    ensures
        buffers_bytes(capacities, size, count) == buffers_bytes(other, size, count),
    decreases count,
{
    if count > 0 {
        lemma_buffers(capacities, other, size, (count - 1) as nat);
    }
}

/// A layout is charged for its record, for the room of its runs, and for the room of every
/// run's glyphs: another run's buffer adds what it has room for.
pub proof fn law_layouts_are_charged_by_their_room(
    base: int,
    run_capacity: usize,
    run_size: int,
    glyph_capacities: Seq<usize>,
    glyph_size: int,
    capacity: usize,
)
    ensures
        spec_layout_bytes(base, run_capacity, run_size, Seq::empty(), glyph_size) == base
            + run_capacity * run_size,
        spec_layout_bytes(
            base,
            run_capacity,
            run_size,
            glyph_capacities.push(capacity),
            glyph_size,
        ) == spec_layout_bytes(base, run_capacity, run_size, glyph_capacities, glyph_size)
            + capacity * glyph_size,
{
    lemma_buffers(
        glyph_capacities.push(capacity),
        glyph_capacities,
        glyph_size,
        glyph_capacities.len(),
    );
}

/// Whether settling what was reserved for a source as `bytes` leads to `result`, as far as
/// its charge goes.
spec fn settles<A: TextAllocationAdmission>(
    token: A::Token,
    bytes: usize,
    result: Result<AdmittedTextSource<A>, TextAllocationError>,
) -> bool {
    exists|settled: Result<(), TextAllocationError>, charge: A::Token| #[trigger]
        resized(token, bytes, settled, charge) && match settled {
            Err(error) => result == Err::<AdmittedTextSource<A>, TextAllocationError>(error),
            Ok(_) => result is Ok && result->Ok_0.inner.allocation.token == charge,
        }
}

/// An admitted source holds the text that it was made of, in one line, under the policy that
/// admitted it; and that policy was asked for no more and no less than the source is charged.
pub proof fn law_admitted_sources_hold_their_text<A: TextAllocationAdmission>(
    text: Seq<u8>,
    admission: Arc<A>,
    coverage: TextPlatformCoverage,
    result: Result<AdmittedTextSource<A>, TextAllocationError>,
    i: int,
)
    requires
        admitted(text, admission, coverage, result),
    ensures
        0 <= i < text.len() && text[i] == 10 ==> result == Err::<
            AdmittedTextSource<A>,
            TextAllocationError,
        >(TextAllocationError::UnsupportedTransform),
        (forall|j: int| 0 <= j < text.len() ==> #[trigger] text[j] != 10) && (text.len()
            > u32::MAX || source_bytes::<A>(text.len() as int) > usize::MAX) ==> result == Err::<
            AdmittedTextSource<A>,
            TextAllocationError,
        >(TextAllocationError::Overflow),
        result is Ok ==> {
            let source = result->Ok_0;
            &&& source.bytes() == text
            &&& source.inner.platform_coverage == coverage
            &&& source.policy() == admission
            &&& text.len() <= u32::MAX
            &&& 0 <= i < text.len() ==> text[i] != 10
            &&& exists|token: A::Token, settled: Result<(), TextAllocationError>|
                settled is Ok && call_ensures(
                    A::reserve,
                    (
                        &*admission,
                        TextAllocationClass::Source,
                        source_bytes::<A>(text.len() as int) as usize,
                    ),
                    Ok::<A::Token, TextAllocationError>(token),
                ) && #[trigger] resized(
                    token,
                    source_bytes::<A>(text.len() as int) as usize,
                    settled,
                    source.inner.allocation.token,
                )
        },
{
    if result is Ok {
        let source = result->Ok_0;
        let bytes = source_bytes::<A>(text.len() as int) as usize;
        let answer = choose|answer: Result<A::Token, TextAllocationError>| #[trigger]
            call_ensures(
                A::reserve,
                (&*admission, TextAllocationClass::Source, bytes),
                answer,
            ) && match answer {
                Err(error) => result == Err::<AdmittedTextSource<A>, TextAllocationError>(error),
                Ok(token) => settles(token, bytes, result),
            };
        let token = answer->Ok_0;
        assert(settles(token, bytes, result));
        let (settled, charge) = choose|
            settled: Result<(), TextAllocationError>,
            charge: A::Token,
        | #[trigger]
            resized(token, bytes, settled, charge) && match settled {
                Err(error) => result == Err::<AdmittedTextSource<A>, TextAllocationError>(error),
                Ok(_) => result is Ok && result->Ok_0.inner.allocation.token == charge,
            };
        assert(resized(token, bytes, settled, source.inner.allocation.token));
    }
}

/// A shaped line is made only of the layout of its own source, and keeps both.
pub proof fn law_lines_are_made_of_their_source<A: TextAllocationAdmission, F: Scalar>(
    certified: bool,
    source: AdmittedTextSource<A>,
    layout: LineLayout<F>,
    allocation: TextAllocationReservation<A>,
    result: Result<AdmittedLineLayout<A, F>, TextAllocationError>,
)
    requires
        AdmittedLineLayout::completes(certified, source, layout, allocation, result),
    ensures
        result is Ok ==> {
            &&& certified
            &&& layout.len == source.bytes().len()
            &&& *result->Ok_0.layout == layout
            &&& result->Ok_0.source == source
            &&& result->Ok_0.allocation.admission == allocation.admission
        },
        !certified || layout.len != source.bytes().len() ==> result == Err::<
            AdmittedLineLayout<A, F>,
            TextAllocationError,
        >(TextAllocationError::MismatchedSource),
{
}

/// A line is painted in one style throughout, in one row, at the place that its alignment
/// gives it, and under the mask around it.
pub proof fn law_lines_are_painted_in_one_style<A: TextAllocationAdmission, F: Scalar>(
    line: AdmittedLineLayout<A, F>,
    bounds: Bounds<F>,
    line_height: F,
    style: AdmittedTextStyle<F>,
    surroundings: &TextSurroundings<F>,
)
    requires
        (*line.layout)@.len <= u32::MAX,
    ensures
        ({
            let painted = line.text_line(bounds, line_height, style, surroundings);
            &&& painted.layout == (*line.layout)@
            &&& painted.line_height == line_height
            &&& painted.origin == spec_admitted_line_origin(
                bounds,
                (*line.layout)@.width,
                style.text_align,
            )
            &&& painted.align == TextAlign::Left
            &&& painted.align_width is None
            &&& painted.wrap_boundaries.len() == 0
            &&& painted.content_mask == surroundings.content_mask
            &&& painted.underline_y_offset == surroundings.underline_y_offset
            &&& painted.glyph_boxes == surroundings.glyph_boxes@
            &&& painted.decoration_runs.len() == 1
            &&& painted.decoration_runs[0].len == (*line.layout)@.len
            &&& painted.decoration_runs[0].color == style.color
            &&& painted.decoration_runs[0].background_color == style.background_color
            &&& painted.decoration_runs[0].underline == style.underline
            &&& painted.decoration_runs[0].strikethrough == style.strikethrough
        }),
{
}

/// Where a byte of a laid out text is: on the text's only line, at the top of its bounds, as
/// far from the line's start as the byte stands on the line. A byte inside a character is
/// nowhere, and so is every byte of a text that has no bounds yet. A place is told the byte
/// that stands closest to it on the line.
pub proof fn law_positions_lie_on_the_line<A: TextAllocationAdmission, F: Scalar>(
    text: AdmittedTextLayout<A, F>,
    position: Point<F>,
    index: usize,
)
    ensures
        text.spec_position_for_index(index) is Some <==> text.bounds is Some && is_char_boundary(
            text.line.source.bytes(),
            index as int,
        ),
        text.bounds is Some <==> text.spec_closest_index_for_position(position) is Some,
        text.bounds is Some ==> {
            let bounds = text.bounds->Some_0;
            let layout = (*text.line.layout)@;
            let start = spec_admitted_line_origin(bounds, layout.width, text.text_align);
            let place = text.spec_position_for_index(index);
            &&& place is Some ==> place->Some_0 == Point {
                x: start.x.spec_plus(layout.spec_x_for_index(index)),
                y: bounds.origin.y,
            }
            &&& text.spec_closest_index_for_position(position)->Some_0
                == layout.spec_closest_index_for_x(position.x.spec_minus(start.x))
        },
{
}

/// A reservation certifies a source only where it is bound to that source and both are under
/// one policy; one that is bound to none certifies none.
pub proof fn law_certified_sources_are_bound<A: TextAllocationAdmission>(
    allocation: TextAllocationReservation<A>,
    source: AdmittedTextSource<A>,
    answer: bool,
)
    requires
        allocation.certified_as(source, answer),
    ensures
        answer ==> allocation.source is Some && one_allocation(
            allocation.admission,
            source.policy(),
            true,
        ) && one_allocation(allocation.source->Some_0.inner, source.inner, true),
        !answer && allocation.source is Some ==> one_allocation(
            allocation.admission,
            source.policy(),
            false,
        ) || one_allocation(allocation.source->Some_0.inner, source.inner, false),
{
}

/// A wrapped line is painted with its own glyphs, rows and decorations, from where it is put,
/// and aligned in the width of the bounds that it is given, or else in the width that it was
/// broken for.
pub proof fn law_wrapped_lines_are_aligned_in_their_width<F: Scalar>(
    line: WrappedLine<F>,
    origin: Point<F>,
    line_height: F,
    align: TextAlign,
    bounds: Option<Bounds<F>>,
    surroundings: &TextSurroundings<F>,
)
    ensures
        ({
            let painted = line.text_line(origin, line_height, align, bounds, surroundings);
            &&& painted.origin == origin
            &&& painted.layout == (*line.layout.unwrapped_layout)@
            &&& painted.line_height == line_height
            &&& painted.align == align
            &&& bounds is Some ==> painted.align_width == Some(bounds->Some_0.size.width)
            &&& bounds is None ==> painted.align_width == line.layout.wrap_width
            &&& painted.decoration_runs == line.decoration_runs@
            &&& painted.wrap_boundaries == line.layout.wrap_boundaries@
            &&& painted.glyph_boxes == surroundings.glyph_boxes@
            &&& painted.underline_y_offset == surroundings.underline_y_offset
            &&& painted.content_mask == surroundings.content_mask
        }),
{
}

/// Styled text is charged once, as an element: for its layout and two words. It keeps the style
/// that it is given and the line that shaping its own source gave, is aligned as the style
/// says, and has no bounds before it is laid out.
pub proof fn law_styled_text_keeps_its_style<A: TextAllocationAdmission, F: Scalar, S>(
    source: AdmittedTextSource<A>,
    style: AdmittedTextStyle<F>,
    shape: S,
    result: Result<AdmittedStyledText<A, F>, TextAllocationError>,
) where
    S: FnOnce(AdmittedTextSource<A>) -> Result<Arc<AdmittedLineLayout<A, F>>, TextAllocationError>,

    requires
        styled(source, style, shape, result),
    ensures
        element_bytes::<A, F>() == size_of::<AdmittedTextLayout<A, F>>() + 2 * size_of::<usize>(),
        element_bytes::<A, F>() > usize::MAX ==> result == Err::<
            AdmittedStyledText<A, F>,
            TextAllocationError,
        >(TextAllocationError::Overflow),
        result is Ok ==> {
            let text = result->Ok_0;
            &&& text.style == style
            &&& text.layout.text_align == style.text_align
            &&& text.layout.bounds is None
            &&& text.layout.allocation.admission == source.policy()
            &&& call_ensures(
                shape,
                (source,),
                Ok::<Arc<AdmittedLineLayout<A, F>>, TextAllocationError>(text.layout.line),
            )
            &&& call_ensures(
                A::reserve,
                (
                    &*source.policy(),
                    TextAllocationClass::Element,
                    element_bytes::<A, F>() as usize,
                ),
                Ok::<A::Token, TextAllocationError>(text.layout.allocation.token),
            )
        },
{
}

} // verus!
