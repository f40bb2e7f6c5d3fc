//! Painting what is behind a line of text.
use vstd::prelude::*;

use crate::color::Hsla;
use crate::geometry::{Bounds, Point, Size};
use crate::line_layout::ShapedGlyph;
use crate::line_paint::{
    find_decoration, lemma_find_decoration, next_decoration, nudge, nudged, same_color, LinePlan,
    PaintCommand, TextLine, TextLineModel,
};
use crate::scalar::{spec_zero, zero, Scalar};

verus! {

/// A background that has not ended yet.
#[derive(Clone, Copy, Debug)]
pub struct OpenBackground<F> {
    /// Where it starts.
    pub origin: Point<F>,
    /// Its color.
    pub color: Hsla<F>,
}

/// How far painting the background of a line has got.
#[derive(Clone, Copy, Debug)]
pub struct BackgroundState<F> {
    /// How many rows have ended.
    pub wraps_done: usize,
    /// How many decorations have begun.
    pub decorations_done: usize,
    /// The byte where the current decoration ends.
    pub run_end: usize,
    /// The background that has not ended yet.
    pub background: Option<OpenBackground<F>>,
    /// Where the glyph is, at the top of its row.
    pub glyph_origin: Point<F>,
    /// Where the previous glyph was on the unwrapped line.
    pub prev_x: F,
    /// The width of the widest glyph of the current font.
    pub glyph_width: F,
}

/// Whether a decoration goes on with a background of this color.
pub open spec fn continues_background<F: Scalar>(
    decoration: Option<Hsla<F>>,
    color: Hsla<F>,
) -> bool {
    match decoration {
        Some(own) => same_color(own, color),
        None => false,
    }
}

fn background_goes_on<F: Scalar>(decoration: Option<Hsla<F>>, color: Hsla<F>) -> (result: bool)
    ensures
        result == continues_background(decoration, color),
{
    match decoration {
        Some(own) => own.h.same(color.h) && own.s.same(color.s) && own.l.same(color.l)
            && own.a.same(color.a),
        None => false,
    }
}

impl<F: Scalar> TextLineModel<F> {
    /// A background of this width and the height of a row.
    pub open spec fn background_command(
        self,
        origin: Point<F>,
        width: F,
        color: Hsla<F>,
    ) -> PaintCommand<F> {
        PaintCommand::Quad {
            bounds: Bounds { origin, size: Size { width, height: self.line_height } },
            color,
        }
    }

    /// A background that ends at `end_x` with its row.
    pub open spec fn ended_background(
        self,
        background: OpenBackground<F>,
        end_x: F,
        glyph_width: F,
    ) -> PaintCommand<F> {
        let origin = nudged(
            background.origin,
            end_x.spec_same(background.origin.x),
            glyph_width,
        );
        self.background_command(origin, end_x.spec_minus(origin.x), background.color)
    }

    /// Before the first glyph.
    pub open spec fn background_start(self) -> BackgroundState<F> {
        BackgroundState {
            wraps_done: 0,
            decorations_done: 0,
            run_end: 0,
            background: None,
            glyph_origin: Point { x: self.row_x(spec_zero(), 0), y: self.origin.y },
            prev_x: spec_zero(),
            glyph_width: spec_zero(),
        }
    }

    /// With the pen moved on to a glyph.
    pub open spec fn background_pen_moved(
        self,
        state: BackgroundState<F>,
        glyph: ShapedGlyph<F>,
    ) -> BackgroundState<F> {
        let x = state.glyph_origin.x.spec_plus(glyph.position.x.spec_minus(state.prev_x));
        BackgroundState { glyph_origin: Point { x, ..state.glyph_origin }, ..state }
    }

    /// What ends with a row.
    pub open spec fn background_row_end(self, state: BackgroundState<F>) -> Seq<PaintCommand<F>> {
        match state.background {
            Some(background) => seq![
                self.ended_background(background, state.glyph_origin.x, state.glyph_width),
            ],
            None => Seq::empty(),
        }
    }

    /// With the pen at the start of the next row.
    pub open spec fn background_row_started(
        self,
        state: BackgroundState<F>,
        glyph: ShapedGlyph<F>,
    ) -> BackgroundState<F> {
        BackgroundState {
            wraps_done: (state.wraps_done + 1) as usize,
            background: match state.background {
                Some(background) => if glyph.index < state.run_end {
                    Some(
                        OpenBackground {
                            origin: Point {
                                x: self.origin.x,
                                y: background.origin.y.spec_plus(self.line_height),
                            },
                            ..background
                        },
                    )
                } else {
                    None
                },
                None => None,
            },
            glyph_origin: Point {
                x: self.row_x(glyph.position.x, state.wraps_done + 1),
                y: state.glyph_origin.y.spec_plus(self.line_height),
            },
            ..state
        }
    }

    /// With the decoration of the text at byte `index`.
    pub open spec fn background_restyled(
        self,
        state: BackgroundState<F>,
        index: usize,
    ) -> BackgroundState<F> {
        let (next, start, found) = find_decoration(
            self.decoration_runs,
            state.decorations_done as int,
            state.run_end as int,
            index as int,
        );
        match found {
            Some(run) => {
                let kept = match state.background {
                    Some(background) => if continues_background(
                        run.background_color,
                        background.color,
                    ) {
                        Some(background)
                    } else {
                        None
                    },
                    None => None,
                };
                BackgroundState {
                    decorations_done: next as usize,
                    run_end: (start + run.len) as usize,
                    background: match (kept, run.background_color) {
                        (None, Some(color)) => Some(
                            OpenBackground { origin: state.glyph_origin, color },
                        ),
                        _ => kept,
                    },
                    ..state
                }
            },
            None => BackgroundState {
                decorations_done: next as usize,
                run_end: self.layout.len,
                background: None,
                ..state
            },
        }
    }

    /// What ends before a glyph with the decoration. Where the background has no
    /// width, it starts half a glyph to the left, with no width still.
    pub open spec fn background_restyle_commands(
        self,
        state: BackgroundState<F>,
        index: usize,
    ) -> Seq<PaintCommand<F>> {
        let found = find_decoration(
            self.decoration_runs,
            state.decorations_done as int,
            state.run_end as int,
            index as int,
        ).2;
        let x = state.glyph_origin.x;
        match state.background {
            Some(background) => if found is Some && continues_background(
                found->Some_0.background_color,
                background.color,
            ) {
                Seq::empty()
            } else {
                seq![
                    self.background_command(
                        nudged(
                            background.origin,
                            background.origin.x.spec_same(x),
                            state.glyph_width,
                        ),
                        x.spec_minus(background.origin.x),
                        background.color,
                    ),
                ]
            },
            None => Seq::empty(),
        }
    }

    /// Behind a glyph: how far painting has got, and what was painted.
    pub open spec fn background_glyph_step(
        self,
        state: BackgroundState<F>,
        run_ix: int,
        glyph_ix: int,
    ) -> (BackgroundState<F>, Seq<PaintCommand<F>>) {
        let glyph = self.layout.runs[run_ix].glyphs[glyph_ix];
        let moved = self.background_pen_moved(state, glyph);
        let (rowed, row_end) = if self.wraps_at(moved.wraps_done as int, run_ix, glyph_ix) {
            (self.background_row_started(moved, glyph), self.background_row_end(moved))
        } else {
            (moved, Seq::empty())
        };
        let placed = BackgroundState { prev_x: glyph.position.x, ..rowed };
        if glyph.index >= placed.run_end {
            (
                self.background_restyled(placed, glyph.index),
                row_end + self.background_restyle_commands(placed, glyph.index),
            )
        } else {
            (placed, row_end)
        }
    }

    /// Behind the first `count` glyphs of a run.
    pub open spec fn background_run_step(
        self,
        state: BackgroundState<F>,
        run_ix: int,
        count: nat,
    ) -> (BackgroundState<F>, Seq<PaintCommand<F>>)
        decreases count,
    {
        if count == 0 {
            (
                BackgroundState { glyph_width: self.glyph_boxes[run_ix].size.width, ..state },
                Seq::empty(),
            )
        } else {
            let (before, painted) = self.background_run_step(state, run_ix, (count - 1) as nat);
            let (after, commands) = self.background_glyph_step(before, run_ix, count - 1);
            (after, painted + commands)
        }
    }

    /// Behind the first `count` runs.
    pub open spec fn background_line_step(self, count: nat) -> (
        BackgroundState<F>,
        Seq<PaintCommand<F>>,
    )
        decreases count,
    {
        if count == 0 {
            (self.background_start(), Seq::empty())
        } else {
            let (before, painted) = self.background_line_step((count - 1) as nat);
            let (after, commands) = self.background_run_step(
                before,
                count - 1,
                self.layout.runs[count - 1].glyphs.len(),
            );
            (after, painted + commands)
        }
    }

    /// Everything behind the line, in order.
    pub open spec fn background_commands(self) -> Seq<PaintCommand<F>> {
        let (state, painted) = self.background_line_step(self.layout.runs.len());
        painted + match state.background {
            Some(background) => seq![
                self.ended_background(
                    background,
                    self.last_row_end(self.origin.x),
                    state.glyph_width,
                ),
            ],
            None => Seq::empty(),
        }
    }

    /// Whether a state is one that painting the background of this line can be in.
    pub open spec fn background_reaches(self, state: BackgroundState<F>) -> bool {
        &&& state.wraps_done <= self.wrap_boundaries.len()
        &&& state.decorations_done <= self.decoration_runs.len()
        &&& state.decorations_done < self.decoration_runs.len() ==> state.run_end
            == crate::line::offset_of(self.decoration_runs, state.decorations_done as int)
    }
}

impl<'a, F: Scalar> TextLine<'a, F> {
    fn end_background(
        &self,
        background: OpenBackground<F>,
        end_x: F,
        glyph_width: F,
        commands: &mut Vec<PaintCommand<F>>,
    )
        ensures
            final(commands)@ == old(commands)@.push(
                self@.ended_background(background, end_x, glyph_width),
            ),
    {
        let origin = nudge(background.origin, end_x.same(background.origin.x), glyph_width);
        commands.push(
            PaintCommand::Quad {
                bounds: Bounds {
                    origin,
                    size: Size { width: end_x.minus(origin.x), height: self.line_height },
                },
                color: background.color,
            },
        );
    }

    fn restyle_background(
        &self,
        state: &mut BackgroundState<F>,
        index: usize,
        commands: &mut Vec<PaintCommand<F>>,
    )
        requires
            self@.wf(),
            self@.background_reaches(*old(state)),
        ensures
            *final(state) == self@.background_restyled(*old(state), index),
            self@.background_reaches(*final(state)),
            final(commands)@ == old(commands)@ + self@.background_restyle_commands(
                *old(state),
                index,
            ),
    {
        let (next, start, found) = next_decoration(
            self.decoration_runs,
            state.decorations_done,
            state.run_end,
            index,
        );
        let x = state.glyph_origin.x;
        let before = *state;
        let mut finished: Option<OpenBackground<F>> = None;
        state.decorations_done = next;
        match found {
            Some(run) => {
                if let Some(background) = before.background {
                    if !background_goes_on(run.background_color, background.color) {
                        finished = Some(background);
                        state.background = None;
                    }
                }
                if let Some(color) = run.background_color {
                    if state.background.is_none() {
                        state.background = Some(
                            OpenBackground { origin: state.glyph_origin, color },
                        );
                    }
                }
                state.run_end = start + run.len as usize;
            },
            None => {
                proof {
                    lemma_find_decoration(
                        self@.decoration_runs,
                        before.decorations_done as int,
                        before.run_end as int,
                        index as int,
                    );
                }
                state.run_end = self.layout.len;
                state.background = None;
                finished = before.background;
            },
        }
        if let Some(background) = finished {
            let width = x.minus(background.origin.x);
            let origin = nudge(
                background.origin,
                background.origin.x.same(x),
                before.glyph_width,
            );
            commands.push(
                PaintCommand::Quad {
                    bounds: Bounds { origin, size: Size { width, height: self.line_height } },
                    color: background.color,
                },
            );
        }
        proof {
            assert(commands@ =~= old(commands)@ + self@.background_restyle_commands(
                *old(state),
                index,
            ));
        }
    }

    fn background_step(
        &self,
        state: &mut BackgroundState<F>,
        run_ix: usize,
        glyph_ix: usize,
        commands: &mut Vec<PaintCommand<F>>,
    )
        requires
            self@.wf(),
            self@.background_reaches(*old(state)),
            run_ix < self@.layout.runs.len(),
            glyph_ix < self@.layout.runs[run_ix as int].glyphs.len(),
        ensures
            self@.background_reaches(*final(state)),
            (*final(state), final(commands)@) == ({
                let (after, painted) = self@.background_glyph_step(
                    *old(state),
                    run_ix as int,
                    glyph_ix as int,
                );
                (after, old(commands)@ + painted)
            }),
    {
        let glyph = self.layout.runs[run_ix].glyphs[glyph_ix];
        let x = state.glyph_origin.x.plus(glyph.position.x.minus(state.prev_x));
        state.glyph_origin.x = x;
        if self.starts_row(state.wraps_done, run_ix, glyph_ix) {
            if let Some(background) = state.background {
                self.end_background(background, x, state.glyph_width, commands);
                if glyph.index < state.run_end {
                    let mut moved = background;
                    moved.origin.x = self.origin.x;
                    moved.origin.y = background.origin.y.plus(self.line_height);
                    state.background = Some(moved);
                } else {
                    state.background = None;
                }
            }
            state.wraps_done = state.wraps_done + 1;
            state.glyph_origin.x = self.row_start(glyph.position.x, state.wraps_done);
            state.glyph_origin.y = state.glyph_origin.y.plus(self.line_height);
        }
        state.prev_x = glyph.position.x;
        if glyph.index >= state.run_end {
            self.restyle_background(state, glyph.index, commands);
        }
        proof {
            let (after, painted) = self@.background_glyph_step(
                *old(state),
                run_ix as int,
                glyph_ix as int,
            );
            assert(*state == after);
            assert(commands@ =~= old(commands)@ + painted);
        }
    }
}

/// Paints what is behind a line of text: the background colors that its
/// decorations ask for, row by row.
pub fn paint_line_background<F: Scalar>(line: &TextLine<F>) -> (result: LinePlan<F>)
    requires
        line@.wf(),
    ensures
        result.layer == line@.layer(),
        result.commands@ == line@.background_commands(),
{
    let mut commands: Vec<PaintCommand<F>> = Vec::new();
    let mut state = BackgroundState {
        wraps_done: 0,
        decorations_done: 0,
        run_end: 0,
        background: None,
        glyph_origin: Point { x: line.row_start(zero(), 0), y: line.origin.y },
        prev_x: zero(),
        glyph_width: zero(),
    };
    let mut run_ix: usize = 0;
    proof {
        assert(commands@ =~= Seq::empty());
    }
    while run_ix < line.layout.runs.len()
        invariant
            line@.wf(),
            run_ix <= line@.layout.runs.len(),
            line@.background_reaches(state),
            (state, commands@) == line@.background_line_step(run_ix as nat),
        decreases line@.layout.runs.len() - run_ix,
    {
        let ghost before = state;
        let ghost painted = commands@;
        state.glyph_width = line.glyph_boxes[run_ix].size.width;
        let run = &line.layout.runs[run_ix];
        let mut glyph_ix: usize = 0;
        proof {
            assert(commands@ =~= painted + Seq::<PaintCommand<F>>::empty());
        }
        while glyph_ix < run.glyphs.len()
            invariant
                line@.wf(),
                run_ix < line@.layout.runs.len(),
                run@ == line@.layout.runs[run_ix as int],
                glyph_ix <= run.glyphs@.len(),
                line@.background_reaches(state),
                ({
                    let (after, added) = line@.background_run_step(
                        before,
                        run_ix as int,
                        glyph_ix as nat,
                    );
                    (state, commands@) == (after, painted + added)
                }),
            decreases run.glyphs@.len() - glyph_ix,
        {
            line.background_step(&mut state, run_ix, glyph_ix, &mut commands);
            proof {
                let (previous, added_0) = line@.background_run_step(
                    before,
                    run_ix as int,
                    glyph_ix as nat,
                );
                let step = line@.background_glyph_step(
                    previous,
                    run_ix as int,
                    glyph_ix as int,
                ).1;
                assert(painted + added_0 + step =~= painted + (added_0 + step));
            }
            glyph_ix = glyph_ix + 1;
        }
        run_ix = run_ix + 1;
    }
    let ghost painted = commands@;
    if let Some(background) = state.background {
        let end = line.end_of_last_row(line.origin.x);
        line.end_background(background, end, state.glyph_width, &mut commands);
    }
    proof {
        assert(commands@ =~= line@.background_commands());
    }
    LinePlan { layer: line.layer_bounds(), commands }
}

} // verus!
