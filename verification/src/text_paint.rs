//! Painting lines of text, wrapped or not.
use std::sync::Arc;

use vstd::prelude::*;

use crate::atlas_key::RenderGlyphParams;
use crate::geometry::{Bounds, DevicePixels, Point};
use crate::line::{DecorationRun, ShapedLine};
use crate::line_background::paint_line_background;
use crate::line_layout::{LineLayout, LineLayoutModel, ShapedGlyph};
use crate::line_paint::{
    paint_line, LinePlan, LineState, TextAlign, TextLine, TextLineModel,
    WrapBoundary,
};
use crate::scalar::Scalar;

verus! {

/// Pre-computed glyph data for efficient painting without per-glyph cache lookups.
#[derive(Debug)]
pub struct GlyphRasterData {
    /// The raster bounds for each glyph, in paint order.
    pub bounds: Vec<Bounds<DevicePixels>>,
    /// The render params for each glyph (needed for sprite atlas lookup).
    pub params: Vec<RenderGlyphParams>,
}

/// What a window and its fonts say about painting a line.
pub struct TextSurroundings<'a, F> {
    /// For each run of the line, a box around every glyph of its font, from the
    /// baseline up.
    pub glyph_boxes: &'a Vec<Bounds<F>>,
    /// How far underlines are below the top of a row.
    pub underline_y_offset: F,
    /// The region that painting is clipped to.
    pub content_mask: Bounds<F>,
}

/// A layout as it is painted.
pub open spec fn text_line<F>(
    layout: LineLayoutModel<F>,
    decoration_runs: Seq<DecorationRun<F>>,
    wrap_boundaries: Seq<WrapBoundary>,
    origin: Point<F>,
    line_height: F,
    align: TextAlign,
    align_width: Option<F>,
    surroundings: &TextSurroundings<F>,
) -> TextLineModel<F> {
    TextLineModel {
        origin,
        layout,
        line_height,
        align,
        align_width,
        decoration_runs,
        wrap_boundaries,
        glyph_boxes: surroundings.glyph_boxes@,
        underline_y_offset: surroundings.underline_y_offset,
        content_mask: surroundings.content_mask,
    }
}

impl<F: Scalar> LineLayout<F> {
    /// What painting this layout paints, using the given decoration runs to color
    /// glyphs and draw underlines and strikethroughs.
    ///
    /// This is a lower-level alternative to [`ShapedLine::paint`] for callers that
    /// hold a bare layout and track decorations themselves.
    pub fn paint(
        &self,
        origin: Point<F>,
        line_height: F,
        align: TextAlign,
        align_width: Option<F>,
        decoration_runs: &Vec<DecorationRun<F>>,
        surroundings: &TextSurroundings<F>,
    ) -> (result: LinePlan<F>)
        requires
            text_line(
                self@,
                decoration_runs@,
                Seq::empty(),
                origin,
                line_height,
                align,
                align_width,
                surroundings,
            ).wf(),
        ensures
            ({
                let line = text_line(
                    self@,
                    decoration_runs@,
                    Seq::empty(),
                    origin,
                    line_height,
                    align,
                    align_width,
                    surroundings,
                );
                result.layer == line.layer() && result.commands@ == line.commands()
            }),
    {
        let wrap_boundaries: Vec<WrapBoundary> = Vec::new();
        proof {
            assert(wrap_boundaries@ =~= Seq::empty());
        }
        paint_line(
            &TextLine {
                origin,
                layout: self,
                line_height,
                align,
                align_width,
                decoration_runs,
                wrap_boundaries: &wrap_boundaries,
                glyph_boxes: surroundings.glyph_boxes,
                underline_y_offset: surroundings.underline_y_offset,
                content_mask: surroundings.content_mask,
            },
        )
    }

    /// What painting the background of this layout paints, using the given
    /// decoration runs to determine background colors.
    ///
    /// This is a lower-level alternative to [`ShapedLine::paint_background`] for
    /// callers that hold a bare layout and track decorations themselves.
    pub fn paint_background(
        &self,
        origin: Point<F>,
        line_height: F,
        align: TextAlign,
        align_width: Option<F>,
        decoration_runs: &Vec<DecorationRun<F>>,
        surroundings: &TextSurroundings<F>,
    ) -> (result: LinePlan<F>)
        requires
            text_line(
                self@,
                decoration_runs@,
                Seq::empty(),
                origin,
                line_height,
                align,
                align_width,
                surroundings,
            ).wf(),
        ensures
            ({
                let line = text_line(
                    self@,
                    decoration_runs@,
                    Seq::empty(),
                    origin,
                    line_height,
                    align,
                    align_width,
                    surroundings,
                );
                result.layer == line.layer() && result.commands@ == line.background_commands()
            }),
    {
        let wrap_boundaries: Vec<WrapBoundary> = Vec::new();
        proof {
            assert(wrap_boundaries@ =~= Seq::empty());
        }
        paint_line_background(
            &TextLine {
                origin,
                layout: self,
                line_height,
                align,
                align_width,
                decoration_runs,
                wrap_boundaries: &wrap_boundaries,
                glyph_boxes: surroundings.glyph_boxes,
                underline_y_offset: surroundings.underline_y_offset,
                content_mask: surroundings.content_mask,
            },
        )
    }
}

impl<F: Scalar> ShapedLine<F> {
    /// What painting the line of text paints.
    pub fn paint(
        &self,
        origin: Point<F>,
        line_height: F,
        align: TextAlign,
        align_width: Option<F>,
        surroundings: &TextSurroundings<F>,
    ) -> (result: LinePlan<F>)
        requires
            text_line(
                self@.layout,
                self@.decoration_runs,
                Seq::empty(),
                origin,
                line_height,
                align,
                align_width,
                surroundings,
            ).wf(),
        ensures
            ({
                let line = text_line(
                    self@.layout,
                    self@.decoration_runs,
                    Seq::empty(),
                    origin,
                    line_height,
                    align,
                    align_width,
                    surroundings,
                );
                result.layer == line.layer() && result.commands@ == line.commands()
            }),
    {
        self.layout.paint(
            origin,
            line_height,
            align,
            align_width,
            &self.decoration_runs,
            surroundings,
        )
    }

    /// What painting the background of the line paints.
    pub fn paint_background(
        &self,
        origin: Point<F>,
        line_height: F,
        align: TextAlign,
        align_width: Option<F>,
        surroundings: &TextSurroundings<F>,
    ) -> (result: LinePlan<F>)
        requires
            text_line(
                self@.layout,
                self@.decoration_runs,
                Seq::empty(),
                origin,
                line_height,
                align,
                align_width,
                surroundings,
            ).wf(),
        ensures
            ({
                let line = text_line(
                    self@.layout,
                    self@.decoration_runs,
                    Seq::empty(),
                    origin,
                    line_height,
                    align,
                    align_width,
                    surroundings,
                );
                result.layer == line.layer() && result.commands@ == line.background_commands()
            }),
    {
        self.layout.paint_background(
            origin,
            line_height,
            align,
            align_width,
            &self.decoration_runs,
            surroundings,
        )
    }
}

/// A line of text that has been shaped and broken into rows.
#[derive(Debug)]
pub struct WrappedLineLayout<F> {
    /// The glyphs.
    pub unwrapped_layout: Arc<LineLayout<F>>,
    /// Where the rows break.
    pub wrap_boundaries: Vec<WrapBoundary>,
    /// The width that it was broken for.
    pub wrap_width: Option<F>,
}

impl<F: Scalar> WrappedLineLayout<F> {
    /// The length of the unwrapped layout, in utf-8 bytes.
    pub fn len(&self) -> (result: usize)
        ensures
            result == (*self.unwrapped_layout)@.len,
    {
        self.unwrapped_layout.len
    }
}

/// A line of text that has been shaped, decorated, and wrapped by the text layout system.
#[derive(Debug)]
pub struct WrappedLine<F> {
    /// The glyphs and the rows.
    pub layout: Arc<WrappedLineLayout<F>>,
    /// The text that was shaped for this line.
    pub text: String,
    /// The decorations, one after the other.
    pub decoration_runs: Vec<DecorationRun<F>>,
}

impl<F: Scalar> WrappedLine<F> {
    /// The line as it is painted: aligned in the given bounds, or else in the width
    /// that it was broken for.
    pub open spec fn text_line(
        self,
        origin: Point<F>,
        line_height: F,
        align: TextAlign,
        bounds: Option<Bounds<F>>,
        surroundings: &TextSurroundings<F>,
    ) -> TextLineModel<F> {
        text_line(
            (*self.layout.unwrapped_layout)@,
            self.decoration_runs@,
            self.layout.wrap_boundaries@,
            origin,
            line_height,
            align,
            match bounds {
                Some(bounds) => Some(bounds.size.width),
                None => self.layout.wrap_width,
            },
            surroundings,
        )
    }

    /// The length of the underlying, unwrapped layout, in utf-8 bytes.
    pub fn len(&self) -> (result: usize)
        ensures
            result == (*self.layout.unwrapped_layout)@.len,
    {
        self.layout.len()
    }

    /// What painting this line of text paints.
    pub fn paint(
        &self,
        origin: Point<F>,
        line_height: F,
        align: TextAlign,
        bounds: Option<Bounds<F>>,
        surroundings: &TextSurroundings<F>,
    ) -> (result: LinePlan<F>)
        requires
            self.text_line(origin, line_height, align, bounds, surroundings).wf(),
        ensures
            ({
                let line = self.text_line(origin, line_height, align, bounds, surroundings);
                result.layer == line.layer() && result.commands@ == line.commands()
            }),
    {
        let align_width = match bounds {
            Some(bounds) => Some(bounds.size.width),
            None => self.layout.wrap_width,
        };
        paint_line(
            &TextLine {
                origin,
                layout: &self.layout.unwrapped_layout,
                line_height,
                align,
                align_width,
                decoration_runs: &self.decoration_runs,
                wrap_boundaries: &self.layout.wrap_boundaries,
                glyph_boxes: surroundings.glyph_boxes,
                underline_y_offset: surroundings.underline_y_offset,
                content_mask: surroundings.content_mask,
            },
        )
    }

    /// What painting the background of this line of text paints.
    pub fn paint_background(
        &self,
        origin: Point<F>,
        line_height: F,
        align: TextAlign,
        bounds: Option<Bounds<F>>,
        surroundings: &TextSurroundings<F>,
    ) -> (result: LinePlan<F>)
        requires
            self.text_line(origin, line_height, align, bounds, surroundings).wf(),
        ensures
            ({
                let line = self.text_line(origin, line_height, align, bounds, surroundings);
                result.layer == line.layer() && result.commands@ == line.background_commands()
            }),
    {
        let align_width = match bounds {
            Some(bounds) => Some(bounds.size.width),
            None => self.layout.wrap_width,
        };
        paint_line_background(
            &TextLine {
                origin,
                layout: &self.layout.unwrapped_layout,
                line_height,
                align,
                align_width,
                decoration_runs: &self.decoration_runs,
                wrap_boundaries: &self.layout.wrap_boundaries,
                glyph_boxes: surroundings.glyph_boxes,
                underline_y_offset: surroundings.underline_y_offset,
                content_mask: surroundings.content_mask,
            },
        )
    }
}

/// Whether comparisons chain: a number not above one that is below a third is
/// below the third.
pub open spec fn comparisons_chain<F: Scalar>() -> bool {
    &&& forall|a: F, b: F, c: F| #[trigger]
        a.spec_le(b) && #[trigger] b.spec_lt(c) ==> a.spec_lt(c)
    &&& forall|a: F, b: F, c: F| #[trigger]
        a.spec_lt(b) && #[trigger] b.spec_le(c) ==> a.spec_lt(c)
}

/// A glyph that can be seen is painted: wherever its ink lies in the box that it is
/// culled by, if any of the ink is inside the content mask, the glyph is among what
/// is painted. Culling a line only ever drops what clipping would drop too.
pub proof fn law_visible_glyphs_are_painted<F: Scalar>(
    line: TextLineModel<F>,
    state: LineState<F>,
    run_ix: int,
    glyph: ShapedGlyph<F>,
    ink: Bounds<F>,
)
    requires
        comparisons_chain::<F>(),
        ({
            let cull_box = line.cull_box(state, glyph);
            &&& cull_box.origin.x.spec_le(ink.origin.x)
            &&& cull_box.origin.y.spec_le(ink.origin.y)
            &&& ink.spec_bottom_right().x.spec_le(cull_box.spec_bottom_right().x)
            &&& ink.spec_bottom_right().y.spec_le(cull_box.spec_bottom_right().y)
        }),
        ink.spec_intersects(line.content_mask),
    ensures
        line.glyph_commands(state, line.layout.runs[run_ix].font_id, glyph).len() == 1,
{
}

} // verus!
