//! Painting a line of text: where every glyph, underline and strikethrough goes.
use core::ops::Range;

use vstd::prelude::*;

use crate::color::Hsla;
use crate::geometry::{Bounds, Point, Size};
use crate::line::{
    lemma_offset_monotone, offset_of, DecorationRun, StrikethroughStyle, UnderlineStyle,
};
use crate::line_layout::{FontId, GlyphId, LineLayout, LineLayoutModel, ShapedGlyph};
use crate::scalar::{
    one, one_half, spec_one, spec_one_half, spec_two, spec_zero, two, zero, Scalar,
};

verus! {

/// How the rows of a text are placed in the width that they have.
#[derive(Clone, Copy, Debug, PartialEq, Eq, Structural, Hash)]
pub enum TextAlign {
    /// At its left.
    Left,
    /// In its middle.
    Center,
    /// At its right.
    Right,
}

/// The glyph that a row starts with, for every row but the first.
#[derive(Clone, Copy, Debug, PartialEq, Eq, Structural)]
pub struct WrapBoundary {
    /// The run of the glyph.
    pub run_ix: usize,
    /// The glyph's place in its run.
    pub glyph_ix: usize,
}

/// Something to paint.
#[derive(Debug)]
pub enum PaintCommand<F> {
    /// An underline.
    Underline {
        /// The bytes of the text that are underlined.
        range: Range<usize>,
        /// Where the underline starts.
        origin: Point<F>,
        /// How long it is.
        width: F,
        /// How it looks.
        style: UnderlineStyle<F>,
    },
    /// A strikethrough.
    Strikethrough {
        /// Where the strikethrough starts.
        origin: Point<F>,
        /// How long it is.
        width: F,
        /// How it looks.
        style: StrikethroughStyle<F>,
    },
    /// A glyph of one color.
    Glyph {
        /// Where the glyph's baseline starts.
        origin: Point<F>,
        /// Its font.
        font_id: FontId,
        /// The glyph.
        glyph_id: GlyphId,
        /// The size of the font.
        font_size: F,
        /// Its color.
        color: Hsla<F>,
    },
    /// A glyph with its own colors.
    Emoji {
        /// Where the glyph's baseline starts.
        origin: Point<F>,
        /// Its font.
        font_id: FontId,
        /// The glyph.
        glyph_id: GlyphId,
        /// The size of the font.
        font_size: F,
    },
    /// A rectangle of one color.
    Quad {
        /// The rectangle.
        bounds: Bounds<F>,
        /// Its color.
        color: Hsla<F>,
    },
}

/// What a line paints: a layer, and in it some things one after the other.
#[derive(Debug)]
pub struct LinePlan<F> {
    /// The layer.
    pub layer: Bounds<F>,
    /// What is painted in it.
    pub commands: Vec<PaintCommand<F>>,
}

/// A line of text, and where and how it is painted.
pub struct TextLine<'a, F> {
    /// Where the first row starts.
    pub origin: Point<F>,
    /// The glyphs.
    pub layout: &'a LineLayout<F>,
    /// The height of a row.
    pub line_height: F,
    /// How the rows are aligned.
    pub align: TextAlign,
    /// The width that they are aligned in; that of the line where there is none.
    pub align_width: Option<F>,
    /// The decorations.
    pub decoration_runs: &'a Vec<DecorationRun<F>>,
    /// Where the rows break.
    pub wrap_boundaries: &'a Vec<WrapBoundary>,
    /// For each run, a box around every glyph of its font, from the baseline up.
    pub glyph_boxes: &'a Vec<Bounds<F>>,
    /// How far underlines are below the top of a row.
    pub underline_y_offset: F,
    /// The region that painting is clipped to.
    pub content_mask: Bounds<F>,
}

/// What a [`TextLine`] holds.
pub struct TextLineModel<F> {
    /// Where the first row starts.
    pub origin: Point<F>,
    /// The glyphs.
    pub layout: LineLayoutModel<F>,
    /// The height of a row.
    pub line_height: F,
    /// How the rows are aligned.
    pub align: TextAlign,
    /// The width that they are aligned in; that of the line where there is none.
    pub align_width: Option<F>,
    /// The decorations.
    pub decoration_runs: Seq<DecorationRun<F>>,
    /// Where the rows break.
    pub wrap_boundaries: Seq<WrapBoundary>,
    /// For each run, a box around every glyph of its font, from the baseline up.
    pub glyph_boxes: Seq<Bounds<F>>,
    /// How far underlines are below the top of a row.
    pub underline_y_offset: F,
    /// The region that painting is clipped to.
    pub content_mask: Bounds<F>,
}

impl<'a, F> View for TextLine<'a, F> {
    type V = TextLineModel<F>;

    open spec fn view(&self) -> TextLineModel<F> {
        TextLineModel {
            origin: self.origin,
            layout: self.layout@,
            line_height: self.line_height,
            align: self.align,
            align_width: self.align_width,
            decoration_runs: self.decoration_runs@,
            wrap_boundaries: self.wrap_boundaries@,
            glyph_boxes: self.glyph_boxes@,
            underline_y_offset: self.underline_y_offset,
            content_mask: self.content_mask,
        }
    }
}

/// An underline that has not ended yet.
#[derive(Clone, Copy, Debug)]
pub struct OpenUnderline<F> {
    /// Where it starts.
    pub origin: Point<F>,
    /// How it looks.
    pub style: UnderlineStyle<F>,
    /// The first byte that is underlined.
    pub start: usize,
    /// The byte behind the last that is underlined.
    pub end: usize,
}

/// A strikethrough that has not ended yet.
#[derive(Clone, Copy, Debug)]
pub struct OpenStrikethrough<F> {
    /// Where it starts.
    pub origin: Point<F>,
    /// How it looks.
    pub style: StrikethroughStyle<F>,
}

/// How far painting a line has got.
#[derive(Clone, Copy, Debug)]
pub struct LineState<F> {
    /// How many rows have ended.
    pub wraps_done: usize,
    /// How many decorations have begun.
    pub decorations_done: usize,
    /// The byte where the current decoration ends.
    pub run_end: usize,
    /// The color of the text.
    pub color: Hsla<F>,
    /// The underline that has not ended yet.
    pub underline: Option<OpenUnderline<F>>,
    /// The strikethrough that has not ended yet.
    pub strikethrough: Option<OpenStrikethrough<F>>,
    /// Where the glyph is, at the top of its row.
    pub glyph_origin: Point<F>,
    /// Where the previous glyph was on the unwrapped line.
    pub prev_x: F,
    /// A box around every glyph of the current font.
    pub glyph_box: Bounds<F>,
    /// Where the first glyph is.
    pub first_glyph_x: F,
}

/// Whether two colors compare equal.
pub open spec fn same_color<F: Scalar>(a: Hsla<F>, b: Hsla<F>) -> bool {
    &&& a.h.spec_same(b.h)
    &&& a.s.spec_same(b.s)
    &&& a.l.spec_same(b.l)
    &&& a.a.spec_same(b.a)
}

/// Whether two colors compare equal, or both are missing.
pub open spec fn same_optional_color<F: Scalar>(a: Option<Hsla<F>>, b: Option<Hsla<F>>) -> bool {
    match (a, b) {
        (Some(a), Some(b)) => same_color(a, b),
        (None, None) => true,
        _ => false,
    }
}

/// Whether a decoration goes on with an underline of this style.
pub open spec fn continues_underline<F: Scalar>(
    decoration: Option<UnderlineStyle<F>>,
    style: UnderlineStyle<F>,
) -> bool {
    match decoration {
        Some(own) => {
            &&& own.thickness.spec_same(style.thickness)
            &&& same_optional_color(own.color, style.color)
            &&& own.wavy == style.wavy
        },
        None => false,
    }
}

/// Whether a decoration goes on with a strikethrough of this style.
pub open spec fn continues_strikethrough<F: Scalar>(
    decoration: Option<StrikethroughStyle<F>>,
    style: StrikethroughStyle<F>,
) -> bool {
    match decoration {
        Some(own) => {
            &&& own.thickness.spec_same(style.thickness)
            &&& same_optional_color(own.color, style.color)
        },
        None => false,
    }
}

/// The color, or `fallback` where there is none.
pub open spec fn color_or<F>(color: Option<Hsla<F>>, fallback: Hsla<F>) -> Hsla<F> {
    match color {
        Some(color) => color,
        None => fallback,
    }
}

/// Where a stroke starts: half a glyph to the left where it would have no length.
pub open spec fn nudged<F: Scalar>(origin: Point<F>, empty: bool, glyph_width: F) -> Point<F> {
    if empty {
        Point { x: origin.x.spec_minus(glyph_width.spec_over(spec_two())), ..origin }
    } else {
        origin
    }
}

/// An underline that ends at `end_x`.
pub open spec fn underline_command<F: Scalar>(
    underline: OpenUnderline<F>,
    end_x: F,
    empty: bool,
    glyph_width: F,
) -> PaintCommand<F> {
    let origin = nudged(underline.origin, empty, glyph_width);
    PaintCommand::Underline {
        range: Range { start: underline.start, end: underline.end },
        origin,
        width: end_x.spec_minus(origin.x),
        style: underline.style,
    }
}

/// A strikethrough that ends at `end_x`.
pub open spec fn strikethrough_command<F: Scalar>(
    strikethrough: OpenStrikethrough<F>,
    end_x: F,
    empty: bool,
    glyph_width: F,
) -> PaintCommand<F> {
    let origin = nudged(strikethrough.origin, empty, glyph_width);
    PaintCommand::Strikethrough {
        origin,
        width: end_x.spec_minus(origin.x),
        style: strikethrough.style,
    }
}

/// Looks for the decoration of the text at byte `index`, from the one at `next`
/// on, which starts at `run_end`; decorations that lie before that byte are
/// passed over. Gives how many decorations have begun then, where the one that
/// was found starts, and the decoration.
pub open spec fn find_decoration<F>(
    decorations: Seq<DecorationRun<F>>,
    next: int,
    run_end: int,
    index: int,
) -> (int, int, Option<DecorationRun<F>>)
    decreases decorations.len() - next,
{
    if next < 0 || next >= decorations.len() {
        (next, run_end, None)
    } else {
        let run = decorations[next];
        if index < run_end + run.len {
            (next + 1, run_end, Some(run))
        } else {
            find_decoration(decorations, next + 1, run_end + run.len, index)
        }
    }
}

impl<F: Scalar> TextLineModel<F> {
    /// The width that rows are aligned in.
    pub open spec fn aligned_width(self) -> F {
        match self.align_width {
            Some(width) => width,
            None => self.layout.width,
        }
    }

    /// The glyph that a row starts with.
    pub open spec fn boundary_glyph(self, boundary: WrapBoundary) -> ShapedGlyph<F> {
        self.layout.runs[boundary.run_ix as int].glyphs[boundary.glyph_ix as int]
    }

    /// Where a row starts that is preceded by `wraps_done` rows and whose first
    /// glyph is at `start_x` on the unwrapped line.
    pub open spec fn row_x(self, start_x: F, wraps_done: int) -> F {
        let end = if wraps_done < self.wrap_boundaries.len() {
            self.boundary_glyph(self.wrap_boundaries[wraps_done]).position.x
        } else {
            self.layout.width
        };
        spec_aligned_origin_x(
            self.origin,
            self.aligned_width(),
            self.align,
            end.spec_minus(start_x),
        )
    }

    /// How far the baseline is below the top of a row.
    pub open spec fn baseline(self) -> F {
        self.line_height.spec_minus(self.layout.ascent).spec_minus(self.layout.descent).spec_over(
            spec_two(),
        ).spec_plus(self.layout.ascent)
    }

    /// How far strikethroughs are below the top of a row.
    pub open spec fn strikethrough_y_offset(self) -> F {
        self.layout.ascent.spec_times(spec_one_half()).spec_plus(self.baseline()).spec_times(
            spec_one_half(),
        )
    }

    /// The layer that the line is painted in: as wide as the line, and as high as
    /// all its rows.
    pub open spec fn layer(self) -> Bounds<F> {
        Bounds {
            origin: self.origin,
            size: Size {
                width: self.layout.width,
                height: self.line_height.spec_times(
                    F::spec_ratio(self.wrap_boundaries.len() as u32, 1).spec_plus(spec_one()),
                ),
            },
        }
    }

    /// Whether a row starts with this glyph.
    pub open spec fn wraps_at(self, wraps_done: int, run_ix: int, glyph_ix: int) -> bool {
        &&& wraps_done < self.wrap_boundaries.len()
        &&& self.wrap_boundaries[wraps_done].run_ix == run_ix
        &&& self.wrap_boundaries[wraps_done].glyph_ix == glyph_ix
    }

    /// Before the first glyph.
    pub open spec fn start(self) -> LineState<F> {
        LineState {
            wraps_done: 0,
            decorations_done: 0,
            run_end: 0,
            color: Hsla { a: spec_one(), ..Hsla::spec_transparent() },
            underline: None,
            strikethrough: None,
            glyph_origin: Point { x: self.row_x(spec_zero(), 0), y: self.origin.y },
            prev_x: spec_zero(),
            glyph_box: Bounds::spec_origin(),
            first_glyph_x: self.origin.x,
        }
    }

    /// With the pen moved on to a glyph.
    pub open spec fn pen_moved(
        self,
        state: LineState<F>,
        glyph: ShapedGlyph<F>,
        first: bool,
    ) -> LineState<F> {
        let x = state.glyph_origin.x.spec_plus(glyph.position.x.spec_minus(state.prev_x));
        LineState {
            glyph_origin: Point { x, ..state.glyph_origin },
            first_glyph_x: if first {
                x
            } else {
                state.first_glyph_x
            },
            ..state
        }
    }

    /// What ends with a row: the underline and the strikethrough, up to the end of
    /// the row.
    pub open spec fn row_end_commands(self, state: LineState<F>) -> Seq<PaintCommand<F>> {
        let x = state.glyph_origin.x;
        let width = state.glyph_box.size.width;
        (match state.underline {
            Some(underline) => seq![
                underline_command(underline, x, x.spec_same(underline.origin.x), width),
            ],
            None => Seq::empty(),
        }) + (match state.strikethrough {
            Some(strikethrough) => seq![
                strikethrough_command(
                    strikethrough,
                    x,
                    x.spec_same(strikethrough.origin.x),
                    width,
                ),
            ],
            None => Seq::empty(),
        })
    }

    /// With the pen at the start of the next row. What goes on behind the glyph
    /// that starts it goes on at the left of the line.
    pub open spec fn row_started(self, state: LineState<F>, glyph: ShapedGlyph<F>) -> LineState<F> {
        let goes_on = glyph.index < state.run_end;
        LineState {
            wraps_done: (state.wraps_done + 1) as usize,
            underline: match state.underline {
                Some(underline) => if goes_on {
                    Some(
                        OpenUnderline {
                            origin: Point {
                                x: self.origin.x,
                                y: underline.origin.y.spec_plus(self.line_height),
                            },
                            ..underline
                        },
                    )
                } else {
                    None
                },
                None => None,
            },
            strikethrough: match state.strikethrough {
                Some(strikethrough) => if goes_on {
                    Some(
                        OpenStrikethrough {
                            origin: Point {
                                x: self.origin.x,
                                y: strikethrough.origin.y.spec_plus(self.line_height),
                            },
                            ..strikethrough
                        },
                    )
                } else {
                    None
                },
                None => None,
            },
            glyph_origin: Point {
                x: self.row_x(glyph.position.x, state.wraps_done + 1),
                y: state.glyph_origin.y.spec_plus(self.line_height),
            },
            ..state
        }
    }

    /// The underline that goes on, or begins, with a decoration that starts at
    /// byte `start`.
    pub open spec fn underline_in(
        self,
        state: LineState<F>,
        run: DecorationRun<F>,
        start: usize,
    ) -> Option<OpenUnderline<F>> {
        let end = (start + run.len) as usize;
        let kept = match state.underline {
            Some(underline) => if continues_underline(run.underline, underline.style) {
                Some(OpenUnderline { end, ..underline })
            } else {
                None
            },
            None => None,
        };
        match (kept, run.underline) {
            (None, Some(style)) => Some(
                OpenUnderline {
                    origin: Point {
                        x: state.glyph_origin.x,
                        y: state.glyph_origin.y.spec_plus(self.underline_y_offset),
                    },
                    style: UnderlineStyle {
                        color: Some(color_or(style.color, run.color)),
                        ..style
                    },
                    start,
                    end,
                },
            ),
            _ => kept,
        }
    }

    /// The strikethrough that goes on, or begins, with a decoration.
    pub open spec fn strikethrough_in(
        self,
        state: LineState<F>,
        run: DecorationRun<F>,
    ) -> Option<OpenStrikethrough<F>> {
        let kept = match state.strikethrough {
            Some(strikethrough) => if continues_strikethrough(
                run.strikethrough,
                strikethrough.style,
            ) {
                Some(strikethrough)
            } else {
                None
            },
            None => None,
        };
        match (kept, run.strikethrough) {
            (None, Some(style)) => Some(
                OpenStrikethrough {
                    origin: Point {
                        x: state.glyph_origin.x,
                        y: state.glyph_origin.y.spec_plus(self.strikethrough_y_offset()),
                    },
                    style: StrikethroughStyle {
                        color: Some(color_or(style.color, run.color)),
                        ..style
                    },
                },
            ),
            _ => kept,
        }
    }

    /// With the decoration of the text at byte `index`. Behind the last
    /// decoration the text keeps its color, without any stroke.
    pub open spec fn restyled(self, state: LineState<F>, index: usize) -> LineState<F> {
        let (next, start, found) = find_decoration(
            self.decoration_runs,
            state.decorations_done as int,
            state.run_end as int,
            index as int,
        );
        match found {
            Some(run) => LineState {
                decorations_done: next as usize,
                run_end: (start + run.len) as usize,
                color: run.color,
                underline: self.underline_in(state, run, start as usize),
                strikethrough: self.strikethrough_in(state, run),
                ..state
            },
            None => LineState {
                decorations_done: next as usize,
                run_end: self.layout.len,
                underline: None,
                strikethrough: None,
                ..state
            },
        }
    }

    /// What ends before a glyph with the decoration: the underline and the
    /// strikethrough that the next decoration does not go on with.
    pub open spec fn restyle_commands(
        self,
        state: LineState<F>,
        index: usize,
    ) -> Seq<PaintCommand<F>> {
        let found = find_decoration(
            self.decoration_runs,
            state.decorations_done as int,
            state.run_end as int,
            index as int,
        ).2;
        let x = state.glyph_origin.x;
        let width = state.glyph_box.size.width;
        (match state.underline {
            Some(underline) => if found is Some && continues_underline(
                found->Some_0.underline,
                underline.style,
            ) {
                Seq::empty()
            } else {
                seq![underline_command(underline, x, underline.origin.x.spec_same(x), width)]
            },
            None => Seq::empty(),
        }) + (match state.strikethrough {
            Some(strikethrough) => if found is Some && continues_strikethrough(
                found->Some_0.strikethrough,
                strikethrough.style,
            ) {
                Seq::empty()
            } else {
                seq![
                    strikethrough_command(
                        strikethrough,
                        x,
                        strikethrough.origin.x.spec_same(x),
                        width,
                    ),
                ]
            },
            None => Seq::empty(),
        })
    }

    /// A box that no ink of a glyph lies outside of: the box of its font, put on
    /// its baseline, stretched to the height of the row, with the width of a
    /// glyph to spare on either side.
    pub open spec fn cull_box(self, state: LineState<F>, glyph: ShapedGlyph<F>) -> Bounds<F> {
        let top = state.glyph_origin.y;
        let baseline_y = top.spec_plus(self.baseline()).spec_plus(glyph.position.y);
        let ink_top = baseline_y.spec_minus(
            state.glyph_box.origin.y.spec_plus(state.glyph_box.size.height),
        );
        let ink_bottom = baseline_y.spec_minus(state.glyph_box.origin.y);
        let cull_top = ink_top.spec_least(top);
        let cull_bottom = ink_bottom.spec_greatest(top.spec_plus(self.line_height));
        let width = state.glyph_box.size.width;
        Bounds {
            origin: Point { x: state.glyph_origin.x.spec_minus(width), y: cull_top },
            size: Size {
                width: width.spec_times(F::spec_ratio(3, 1)),
                height: cull_bottom.spec_minus(cull_top),
            },
        }
    }

    /// Where a glyph is painted.
    pub open spec fn glyph_position(self, state: LineState<F>, glyph: ShapedGlyph<F>) -> Point<F> {
        state.glyph_origin.spec_plus(
            Point { x: spec_zero(), y: self.baseline() },
        ).spec_plus(Point { x: spec_zero(), y: glyph.position.y })
    }

    /// A glyph, if any of it can be seen.
    pub open spec fn glyph_commands(
        self,
        state: LineState<F>,
        font_id: FontId,
        glyph: ShapedGlyph<F>,
    ) -> Seq<PaintCommand<F>> {
        let origin = self.glyph_position(state, glyph);
        if !self.cull_box(state, glyph).spec_intersects(self.content_mask) {
            Seq::empty()
        } else if glyph.is_emoji {
            seq![
                PaintCommand::Emoji {
                    origin,
                    font_id,
                    glyph_id: glyph.id,
                    font_size: self.layout.font_size,
                },
            ]
        } else {
            seq![
                PaintCommand::Glyph {
                    origin,
                    font_id,
                    glyph_id: glyph.id,
                    font_size: self.layout.font_size,
                    color: state.color,
                },
            ]
        }
    }

    /// With the pen at a glyph, on the row that it is on.
    pub open spec fn at_glyph(self, state: LineState<F>, run_ix: int, glyph_ix: int) -> LineState<
        F,
    > {
        let glyph = self.layout.runs[run_ix].glyphs[glyph_ix];
        let moved = self.pen_moved(state, glyph, run_ix == 0 && glyph_ix == 0);
        let placed = if self.wraps_at(moved.wraps_done as int, run_ix, glyph_ix) {
            self.row_started(moved, glyph)
        } else {
            moved
        };
        LineState { prev_x: glyph.position.x, ..placed }
    }

    /// Behind a glyph: how far painting has got, and what was painted.
    pub open spec fn glyph_step(self, state: LineState<F>, run_ix: int, glyph_ix: int) -> (
        LineState<F>,
        Seq<PaintCommand<F>>,
    ) {
        let run = self.layout.runs[run_ix];
        let glyph = run.glyphs[glyph_ix];
        let moved = self.pen_moved(state, glyph, run_ix == 0 && glyph_ix == 0);
        let row_end = if self.wraps_at(moved.wraps_done as int, run_ix, glyph_ix) {
            self.row_end_commands(moved)
        } else {
            Seq::empty()
        };
        let placed = self.at_glyph(state, run_ix, glyph_ix);
        let (styled, style_end) = if glyph.index >= placed.run_end {
            (self.restyled(placed, glyph.index), self.restyle_commands(placed, glyph.index))
        } else {
            (placed, Seq::empty())
        };
        (styled, row_end + style_end + self.glyph_commands(styled, run.font_id, glyph))
    }

    /// Behind the first `count` glyphs of a run.
    pub open spec fn run_step(self, state: LineState<F>, run_ix: int, count: nat) -> (
        LineState<F>,
        Seq<PaintCommand<F>>,
    )
        decreases count,
    {
        if count == 0 {
            (LineState { glyph_box: self.glyph_boxes[run_ix], ..state }, Seq::empty())
        } else {
            let (before, painted) = self.run_step(state, run_ix, (count - 1) as nat);
            let (after, commands) = self.glyph_step(before, run_ix, count - 1);
            (after, painted + commands)
        }
    }

    /// Behind the first `count` runs.
    pub open spec fn line_step(self, count: nat) -> (LineState<F>, Seq<PaintCommand<F>>)
        decreases count,
    {
        if count == 0 {
            (self.start(), Seq::empty())
        } else {
            let (before, painted) = self.line_step((count - 1) as nat);
            let (after, commands) = self.run_step(
                before,
                count - 1,
                self.layout.runs[count - 1].glyphs.len(),
            );
            (after, painted + commands)
        }
    }

    /// Where the last row ends, if it starts at `start_x`.
    pub open spec fn last_row_end(self, start_x: F) -> F {
        let end = start_x.spec_plus(self.layout.width);
        if self.wrap_boundaries.len() == 0 {
            end
        } else {
            end.spec_minus(self.boundary_glyph(self.wrap_boundaries.last()).position.x)
        }
    }

    /// What ends with the line.
    pub open spec fn line_end_commands(self, state: LineState<F>) -> Seq<PaintCommand<F>> {
        let x = self.last_row_end(state.first_glyph_x);
        let width = state.glyph_box.size.width;
        (match state.underline {
            Some(underline) => seq![
                underline_command(underline, x, x.spec_same(underline.origin.x), width),
            ],
            None => Seq::empty(),
        }) + (match state.strikethrough {
            Some(strikethrough) => seq![
                strikethrough_command(
                    strikethrough,
                    x,
                    x.spec_same(strikethrough.origin.x),
                    width,
                ),
            ],
            None => Seq::empty(),
        })
    }

    /// Everything that the line paints, in order.
    pub open spec fn commands(self) -> Seq<PaintCommand<F>> {
        let (state, painted) = self.line_step(self.layout.runs.len());
        painted + self.line_end_commands(state)
    }

    /// Whether every row starts with a glyph that exists, every run has the box of
    /// its font, and rows and decorations can be counted.
    pub open spec fn wf(self) -> bool {
        &&& self.glyph_boxes.len() == self.layout.runs.len()
        &&& self.wrap_boundaries.len() <= u32::MAX
        &&& offset_of(self.decoration_runs, self.decoration_runs.len() as int) <= usize::MAX
        &&& forall|i: int|
            0 <= i < self.wrap_boundaries.len() ==> self.boundary_exists(
                #[trigger] self.wrap_boundaries[i],
            )
    }

    /// Whether the glyph that a row starts with exists.
    pub open spec fn boundary_exists(self, boundary: WrapBoundary) -> bool {
        &&& boundary.run_ix < self.layout.runs.len()
        &&& boundary.glyph_ix < self.layout.runs[boundary.run_ix as int].glyphs.len()
    }

    /// Whether a state is one that painting this line can be in.
    pub open spec fn reaches(self, state: LineState<F>) -> bool {
        &&& state.wraps_done <= self.wrap_boundaries.len()
        &&& state.decorations_done <= self.decoration_runs.len()
        &&& state.decorations_done < self.decoration_runs.len() ==> state.run_end == offset_of(
            self.decoration_runs,
            state.decorations_done as int,
        )
    }
}

/// Where a row of `line_width` starts.
pub open spec fn spec_aligned_origin_x<F: Scalar>(
    origin: Point<F>,
    align_width: F,
    align: TextAlign,
    line_width: F,
) -> F {
    match align {
        TextAlign::Left => origin.x,
        TextAlign::Center => origin.x.spec_times(spec_two()).spec_plus(align_width).spec_minus(
            line_width,
        ).spec_over(spec_two()),
        TextAlign::Right => origin.x.spec_plus(align_width).spec_minus(line_width),
    }
}

/// Where a row of `line_width` starts.
pub fn aligned_origin_x<F: Scalar>(
    origin: Point<F>,
    align_width: F,
    align: TextAlign,
    line_width: F,
) -> (result: F)
    ensures
        result == spec_aligned_origin_x(origin, align_width, align, line_width),
{
    match align {
        TextAlign::Left => origin.x,
        TextAlign::Center => origin.x.times(two()).plus(align_width).minus(line_width).over(two()),
        TextAlign::Right => origin.x.plus(align_width).minus(line_width),
    }
}

fn colors_match<F: Scalar>(a: Option<Hsla<F>>, b: Option<Hsla<F>>) -> (result: bool)
    ensures
        result == same_optional_color(a, b),
{
    match (a, b) {
        (Some(a), Some(b)) => a.h.same(b.h) && a.s.same(b.s) && a.l.same(b.l) && a.a.same(b.a),
        (None, None) => true,
        _ => false,
    }
}

fn underline_goes_on<F: Scalar>(
    decoration: Option<UnderlineStyle<F>>,
    style: UnderlineStyle<F>,
) -> (result: bool)
    ensures
        result == continues_underline(decoration, style),
{
    match decoration {
        Some(own) => own.thickness.same(style.thickness) && colors_match(own.color, style.color)
            && own.wavy == style.wavy,
        None => false,
    }
}

fn strikethrough_goes_on<F: Scalar>(
    decoration: Option<StrikethroughStyle<F>>,
    style: StrikethroughStyle<F>,
) -> (result: bool)
    ensures
        result == continues_strikethrough(decoration, style),
{
    match decoration {
        Some(own) => own.thickness.same(style.thickness) && colors_match(own.color, style.color),
        None => false,
    }
}

pub(crate) fn nudge<F: Scalar>(origin: Point<F>, empty: bool, glyph_width: F) -> (result: Point<F>)
    ensures
        result == nudged(origin, empty, glyph_width),
{
    if empty {
        Point { x: origin.x.minus(glyph_width.over(two())), y: origin.y }
    } else {
        origin
    }
}

fn paint_underline<F: Scalar>(
    underline: OpenUnderline<F>,
    end_x: F,
    empty: bool,
    glyph_width: F,
    commands: &mut Vec<PaintCommand<F>>,
)
    ensures
        final(commands)@ == old(commands)@.push(
            underline_command(underline, end_x, empty, glyph_width),
        ),
{
    let origin = nudge(underline.origin, empty, glyph_width);
    commands.push(
        PaintCommand::Underline {
            range: underline.start..underline.end,
            origin,
            width: end_x.minus(origin.x),
            style: underline.style,
        },
    );
}

fn paint_strikethrough<F: Scalar>(
    strikethrough: OpenStrikethrough<F>,
    end_x: F,
    empty: bool,
    glyph_width: F,
    commands: &mut Vec<PaintCommand<F>>,
)
    ensures
        final(commands)@ == old(commands)@.push(
            strikethrough_command(strikethrough, end_x, empty, glyph_width),
        ),
{
    let origin = nudge(strikethrough.origin, empty, glyph_width);
    commands.push(
        PaintCommand::Strikethrough {
            origin,
            width: end_x.minus(origin.x),
            style: strikethrough.style,
        },
    );
}

/// The search passes over whole decorations.
pub proof fn lemma_find_decoration<F>(
    decorations: Seq<DecorationRun<F>>,
    next: int,
    run_end: int,
    index: int,
)
    requires
        0 <= next <= decorations.len(),
        next < decorations.len() ==> run_end == offset_of(decorations, next),
        0 <= run_end,
    ensures
        ({
            let (after, start, found) = find_decoration(decorations, next, run_end, index);
            &&& next <= after <= decorations.len()
            &&& found is Some ==> next < after && start == offset_of(decorations, after - 1)
                && found->Some_0 == decorations[after - 1]
            &&& found is None ==> after == decorations.len()
        }),
    decreases decorations.len() - next,
{
    if next < decorations.len() && index >= run_end + decorations[next].len {
        lemma_find_decoration(decorations, next + 1, run_end + decorations[next].len, index);
    }
}

/// Finds the decoration of the text at byte `index`; see [`find_decoration`].
pub(crate) fn next_decoration<F: Scalar>(
    decorations: &Vec<DecorationRun<F>>,
    next: usize,
    run_end: usize,
    index: usize,
) -> (result: (usize, usize, Option<DecorationRun<F>>))
    requires
        next <= decorations@.len(),
        next < decorations@.len() ==> run_end == offset_of(decorations@, next as int),
        offset_of(decorations@, decorations@.len() as int) <= usize::MAX,
    ensures
        ({
            let found = find_decoration(decorations@, next as int, run_end as int, index as int);
            &&& result.0 == found.0
            &&& result.1 == found.1
            &&& result.2 == found.2
            &&& result.2 is Some ==> result.1 + result.2->Some_0.len == offset_of(
                decorations@,
                result.0 as int,
            ) && offset_of(decorations@, result.0 as int) <= usize::MAX
            &&& result.0 <= decorations@.len()
        }),
{
    let mut i: usize = next;
    let mut start: usize = run_end;
    proof {
        lemma_find_decoration(decorations@, next as int, run_end as int, index as int);
    }
    while i < decorations.len()
        invariant
            next <= i <= decorations@.len(),
            i < decorations@.len() ==> start == offset_of(decorations@, i as int),
            offset_of(decorations@, decorations@.len() as int) <= usize::MAX,
            find_decoration(decorations@, next as int, run_end as int, index as int)
                == find_decoration(decorations@, i as int, start as int, index as int),
        decreases decorations@.len() - i,
    {
        let run = decorations[i];
        proof {
            lemma_offset_monotone(decorations@, i + 1, decorations@.len() as int);
        }
        if index < start + run.len as usize {
            return (i + 1, start, Some(run));
        }
        start = start + run.len as usize;
        i = i + 1;
    }
    (i, start, None)
}

impl<'a, F: Scalar> TextLine<'a, F> {
    pub(crate) fn row_start(&self, start_x: F, wraps_done: usize) -> (result: F)
        requires
            self@.wf(),
        ensures
            result == self@.row_x(start_x, wraps_done as int),
    {
        let end = if wraps_done < self.wrap_boundaries.len() {
            let boundary = self.wrap_boundaries[wraps_done];
            proof {
                assert(self@.boundary_exists(self@.wrap_boundaries[wraps_done as int]));
            }
            self.layout.runs[boundary.run_ix].glyphs[boundary.glyph_ix].position.x
        } else {
            self.layout.width
        };
        let width = match self.align_width {
            Some(width) => width,
            None => self.layout.width,
        };
        aligned_origin_x(self.origin, width, self.align, end.minus(start_x))
    }

    fn baseline_offset(&self) -> (result: F)
        ensures
            result == self@.baseline(),
    {
        self.line_height.minus(self.layout.ascent).minus(self.layout.descent).over(two()).plus(
            self.layout.ascent,
        )
    }

    pub(crate) fn starts_row(&self, wraps_done: usize, run_ix: usize, glyph_ix: usize) -> (result: bool)
        ensures
            result == self@.wraps_at(wraps_done as int, run_ix as int, glyph_ix as int),
    {
        wraps_done < self.wrap_boundaries.len() && self.wrap_boundaries[wraps_done].run_ix
            == run_ix && self.wrap_boundaries[wraps_done].glyph_ix == glyph_ix
    }

    fn start_row(
        &self,
        state: &mut LineState<F>,
        glyph: &ShapedGlyph<F>,
        commands: &mut Vec<PaintCommand<F>>,
    )
        requires
            self@.wf(),
            old(state).wraps_done < self@.wrap_boundaries.len(),
        ensures
            *final(state) == self@.row_started(*old(state), *glyph),
            final(commands)@ == old(commands)@ + self@.row_end_commands(*old(state)),
    {
        let x = state.glyph_origin.x;
        let width = state.glyph_box.size.width;
        let goes_on: bool = glyph.index < state.run_end;
        if let Some(underline) = state.underline {
            paint_underline(underline, x, x.same(underline.origin.x), width, commands);
            if goes_on {
                let mut moved = underline;
                moved.origin.x = self.origin.x;
                moved.origin.y = underline.origin.y.plus(self.line_height);
                state.underline = Some(moved);
            } else {
                state.underline = None;
            }
        }
        if let Some(strikethrough) = state.strikethrough {
            paint_strikethrough(
                strikethrough,
                x,
                x.same(strikethrough.origin.x),
                width,
                commands,
            );
            if goes_on {
                let mut moved = strikethrough;
                moved.origin.x = self.origin.x;
                moved.origin.y = strikethrough.origin.y.plus(self.line_height);
                state.strikethrough = Some(moved);
            } else {
                state.strikethrough = None;
            }
        }
        state.wraps_done = state.wraps_done + 1;
        state.glyph_origin.x = self.row_start(glyph.position.x, state.wraps_done);
        state.glyph_origin.y = state.glyph_origin.y.plus(self.line_height);
        proof {
            assert(commands@ =~= old(commands)@ + self@.row_end_commands(*old(state)));
        }
    }

    fn restyle(
        &self,
        state: &mut LineState<F>,
        index: usize,
        commands: &mut Vec<PaintCommand<F>>,
    )
        requires
            self@.wf(),
            self@.reaches(*old(state)),
        ensures
            *final(state) == self@.restyled(*old(state), index),
            self@.reaches(*final(state)),
            final(commands)@ == old(commands)@ + self@.restyle_commands(*old(state), index),
    {
        let (next, start, found) = next_decoration(
            self.decoration_runs,
            state.decorations_done,
            state.run_end,
            index,
        );
        let x = state.glyph_origin.x;
        let width = state.glyph_box.size.width;
        let before = *state;
        state.decorations_done = next;
        match found {
            Some(run) => {
                let end: usize = start + run.len as usize;
                let mut finished_underline: Option<OpenUnderline<F>> = None;
                if let Some(underline) = before.underline {
                    if underline_goes_on(run.underline, underline.style) {
                        let mut longer = underline;
                        longer.end = end;
                        state.underline = Some(longer);
                    } else {
                        finished_underline = Some(underline);
                        state.underline = None;
                    }
                }
                if let Some(style) = run.underline {
                    if state.underline.is_none() {
                        let color = match style.color {
                            Some(color) => color,
                            None => run.color,
                        };
                        state.underline = Some(
                            OpenUnderline {
                                origin: Point {
                                    x,
                                    y: state.glyph_origin.y.plus(self.underline_y_offset),
                                },
                                style: UnderlineStyle {
                                    thickness: style.thickness,
                                    color: Some(color),
                                    wavy: style.wavy,
                                },
                                start,
                                end,
                            },
                        );
                    }
                }
                let mut finished_strikethrough: Option<OpenStrikethrough<F>> = None;
                if let Some(strikethrough) = before.strikethrough {
                    if !strikethrough_goes_on(run.strikethrough, strikethrough.style) {
                        finished_strikethrough = Some(strikethrough);
                        state.strikethrough = None;
                    }
                }
                if let Some(style) = run.strikethrough {
                    if state.strikethrough.is_none() {
                        let color = match style.color {
                            Some(color) => color,
                            None => run.color,
                        };
                        let offset = self.layout.ascent.times(one_half()).plus(
                            self.baseline_offset(),
                        ).times(one_half());
                        state.strikethrough = Some(
                            OpenStrikethrough {
                                origin: Point { x, y: state.glyph_origin.y.plus(offset) },
                                style: StrikethroughStyle {
                                    thickness: style.thickness,
                                    color: Some(color),
                                },
                            },
                        );
                    }
                }
                state.run_end = end;
                state.color = run.color;
                if let Some(underline) = finished_underline {
                    paint_underline(underline, x, underline.origin.x.same(x), width, commands);
                }
                if let Some(strikethrough) = finished_strikethrough {
                    paint_strikethrough(
                        strikethrough,
                        x,
                        strikethrough.origin.x.same(x),
                        width,
                        commands,
                    );
                }
            },
            None => {
                proof {
                    lemma_find_decoration(
                        self@.decoration_runs,
                        before.decorations_done as int,
                        before.run_end as int,
                        index as int,
                    );
                }
                state.run_end = self.layout.len;
                state.underline = None;
                state.strikethrough = None;
                if let Some(underline) = before.underline {
                    paint_underline(underline, x, underline.origin.x.same(x), width, commands);
                }
                if let Some(strikethrough) = before.strikethrough {
                    paint_strikethrough(
                        strikethrough,
                        x,
                        strikethrough.origin.x.same(x),
                        width,
                        commands,
                    );
                }
            },
        }
        proof {
            assert(commands@ =~= old(commands)@ + self@.restyle_commands(*old(state), index));
        }
    }

    /// Paints a glyph unless it is obviously out of sight.
    ///
    /// This exists only to skip rasterizing glyphs that are obviously offscreen,
    /// and the exact cull happens later against the glyph's real quad. So it must
    /// never discard a glyph that would have been visible. The font's box is
    /// relative to the baseline with y pointing up, so it is flipped onto the
    /// baseline that the glyph is painted on, which gives a span that contains the
    /// ink, descenders included; the box is never smaller than the row, with a
    /// glyph's width of horizontal overhang for negative side bearings.
    fn paint_glyph(
        &self,
        state: &LineState<F>,
        font_id: FontId,
        glyph: &ShapedGlyph<F>,
        commands: &mut Vec<PaintCommand<F>>,
    )
        ensures
            final(commands)@ == old(commands)@ + self@.glyph_commands(*state, font_id, *glyph),
    {
        let top = state.glyph_origin.y;
        let baseline = self.baseline_offset();
        let baseline_y = top.plus(baseline).plus(glyph.position.y);
        let ink_top = baseline_y.minus(
            state.glyph_box.origin.y.plus(state.glyph_box.size.height),
        );
        let ink_bottom = baseline_y.minus(state.glyph_box.origin.y);
        let cull_top = ink_top.least(top);
        let cull_bottom = ink_bottom.greatest(top.plus(self.line_height));
        let width = state.glyph_box.size.width;
        let cull_box = Bounds {
            origin: Point { x: state.glyph_origin.x.minus(width), y: cull_top },
            size: Size { width: width.times(F::ratio(3, 1)), height: cull_bottom.minus(cull_top) },
        };
        if cull_box.intersects(&self.content_mask) {
            let origin = state.glyph_origin.plus(Point { x: zero(), y: baseline }).plus(
                Point { x: zero(), y: glyph.position.y },
            );
            if glyph.is_emoji {
                commands.push(
                    PaintCommand::Emoji {
                        origin,
                        font_id,
                        glyph_id: glyph.id,
                        font_size: self.layout.font_size,
                    },
                );
            } else {
                commands.push(
                    PaintCommand::Glyph {
                        origin,
                        font_id,
                        glyph_id: glyph.id,
                        font_size: self.layout.font_size,
                        color: state.color,
                    },
                );
            }
        }
        proof {
            assert(commands@ =~= old(commands)@ + self@.glyph_commands(*state, font_id, *glyph));
        }
    }

    fn step(
        &self,
        state: &mut LineState<F>,
        run_ix: usize,
        glyph_ix: usize,
        commands: &mut Vec<PaintCommand<F>>,
    )
        requires
            self@.wf(),
            self@.reaches(*old(state)),
            run_ix < self@.layout.runs.len(),
            glyph_ix < self@.layout.runs[run_ix as int].glyphs.len(),
        ensures
            self@.reaches(*final(state)),
            (*final(state), final(commands)@) == ({
                let (after, painted) = self@.glyph_step(
                    *old(state),
                    run_ix as int,
                    glyph_ix as int,
                );
                (after, old(commands)@ + painted)
            }),
    {
        let run = &self.layout.runs[run_ix];
        let glyph = run.glyphs[glyph_ix];
        let x = state.glyph_origin.x.plus(glyph.position.x.minus(state.prev_x));
        state.glyph_origin.x = x;
        if glyph_ix == 0 && run_ix == 0 {
            state.first_glyph_x = x;
        }
        if self.starts_row(state.wraps_done, run_ix, glyph_ix) {
            self.start_row(state, &glyph, commands);
        }
        state.prev_x = glyph.position.x;
        if glyph.index >= state.run_end {
            self.restyle(state, glyph.index, commands);
        }
        self.paint_glyph(state, run.font_id, &glyph, commands);
        proof {
            let (after, painted) = self@.glyph_step(*old(state), run_ix as int, glyph_ix as int);
            assert(*state == after);
            assert(commands@ =~= old(commands)@ + painted);
        }
    }

    /// Where the last row ends, if it starts at `start_x`.
    pub(crate) fn end_of_last_row(&self, start_x: F) -> (result: F)
        requires
            self@.wf(),
        ensures
            result == self@.last_row_end(start_x),
    {
        let end = start_x.plus(self.layout.width);
        let rows: usize = self.wrap_boundaries.len();
        if rows == 0 {
            end
        } else {
            let boundary = self.wrap_boundaries[rows - 1];
            proof {
                assert(self@.boundary_exists(self@.wrap_boundaries[rows - 1]));
            }
            end.minus(self.layout.runs[boundary.run_ix].glyphs[boundary.glyph_ix].position.x)
        }
    }

    pub(crate) fn layer_bounds(&self) -> (result: Bounds<F>)
        requires
            self@.wf(),
        ensures
            result == self@.layer(),
    {
        let rows = F::ratio(self.wrap_boundaries.len() as u32, 1).plus(one());
        Bounds {
            origin: self.origin,
            size: Size { width: self.layout.width, height: self.line_height.times(rows) },
        }
    }
}

/// Paints a line of text: its glyphs, and the underlines and strikethroughs that
/// its decorations ask for, row by row.
pub fn paint_line<F: Scalar>(line: &TextLine<F>) -> (result: LinePlan<F>)
    requires
        line@.wf(),
    ensures
        result.layer == line@.layer(),
        result.commands@ == line@.commands(),
{
    let mut commands: Vec<PaintCommand<F>> = Vec::new();
    let mut state = LineState {
        wraps_done: 0,
        decorations_done: 0,
        run_end: 0,
        color: Hsla::black(),
        underline: None,
        strikethrough: None,
        glyph_origin: Point { x: line.row_start(zero(), 0), y: line.origin.y },
        prev_x: zero(),
        glyph_box: Bounds::zero(),
        first_glyph_x: line.origin.x,
    };
    let mut run_ix: usize = 0;
    proof {
        assert(commands@ =~= Seq::empty());
    }
    while run_ix < line.layout.runs.len()
        invariant
            line@.wf(),
            run_ix <= line@.layout.runs.len(),
            line@.reaches(state),
            (state, commands@) == line@.line_step(run_ix as nat),
        decreases line@.layout.runs.len() - run_ix,
    {
        let ghost before = state;
        let ghost painted = commands@;
        state.glyph_box = line.glyph_boxes[run_ix];
        let run = &line.layout.runs[run_ix];
        let ghost count = line@.layout.runs[run_ix as int].glyphs.len();
        let mut glyph_ix: usize = 0;
        proof {
            assert(commands@ =~= painted + Seq::<PaintCommand<F>>::empty());
        }
        while glyph_ix < run.glyphs.len()
            invariant
                line@.wf(),
                run_ix < line@.layout.runs.len(),
                run@ == line@.layout.runs[run_ix as int],
                glyph_ix <= run.glyphs@.len(),
                line@.reaches(state),
                ({
                    let (after, added) = line@.run_step(before, run_ix as int, glyph_ix as nat);
                    (state, commands@) == (after, painted + added)
                }),
            decreases run.glyphs@.len() - glyph_ix,
        {
            let ghost middle = commands@;
            line.step(&mut state, run_ix, glyph_ix, &mut commands);
            proof {
                let (previous, added_0) = line@.run_step(before, run_ix as int, glyph_ix as nat);
                let (after, added) = line@.run_step(before, run_ix as int, (glyph_ix + 1) as nat);
                let step = line@.glyph_step(previous, run_ix as int, glyph_ix as int).1;
                assert(added == added_0 + step);
                assert(painted + added_0 + step =~= painted + (added_0 + step));
            }
            glyph_ix = glyph_ix + 1;
        }
        run_ix = run_ix + 1;
    }
    let end = line.end_of_last_row(state.first_glyph_x);
    let width = state.glyph_box.size.width;
    let ghost painted = commands@;
    if let Some(underline) = state.underline {
        paint_underline(underline, end, end.same(underline.origin.x), width, &mut commands);
    }
    if let Some(strikethrough) = state.strikethrough {
        paint_strikethrough(
            strikethrough,
            end,
            end.same(strikethrough.origin.x),
            width,
            &mut commands,
        );
    }
    proof {
        assert(commands@ =~= painted + line@.line_end_commands(state));
    }
    LinePlan { layer: line.layer_bounds(), commands }
}

} // verus!
