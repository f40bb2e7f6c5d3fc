//! What underlines and strikethroughs run under and through.
use vstd::prelude::*;

use crate::color::Hsla;
use crate::geometry::Point;
use crate::line::{DecorationRun, StrikethroughStyle, UnderlineStyle};
use crate::line_paint::{
    color_or, continues_strikethrough, continues_underline, find_decoration, nudged,
    strikethrough_command, underline_command, LineState, OpenStrikethrough, OpenUnderline,
    PaintCommand, TextLineModel,
};
use crate::row_laws::{
    bytes_before, bytes_follow, bytes_in_order, covers, glyph_at, glyph_x, has_glyph,
    in_reading_order, lemma_bytes_before, lemma_find, lemma_one_cover, lemma_pen_next_run,
    lemma_pen_start, lemma_pen_step, pen_ready, reads_before, row_of, row_top, steps_add_up,
    x_on_row,
};
use crate::scalar::{spec_one_half, spec_two, Scalar};

verus! {

/// Whether it makes no difference which of two numbers is added first.
pub open spec fn sums_commute<F: Scalar>() -> bool {
    forall|a: F, b: F, c: F| #[trigger] a.spec_plus(b).spec_plus(c) == a.spec_plus(c).spec_plus(b)
}

/// Whether a stroke that starts at `x` has started before a glyph: at a glyph of this row that
/// comes before it, or, where the stroke goes on from the row above, at the left of the line.
pub open spec fn opened_by<F: Scalar>(
    line: TextLineModel<F>,
    x: F,
    row: int,
    run_ix: int,
    glyph_ix: int,
) -> bool {
    ||| row >= 1 && x == line.origin.x
    ||| exists|run: int, glyph: int| #[trigger]
        has_glyph(line, run, glyph) && reads_before(run, glyph, run_ix, glyph_ix) && row_of(
            line,
            run,
            glyph,
        ) == row && x == glyph_x(line, run, glyph)
}

/// Where the first glyph of a line is.
pub open spec fn line_first_x<F: Scalar>(line: TextLineModel<F>) -> F {
    if has_glyph(line, 0, 0) {
        x_on_row(line, glyph_at(line, 0, 0).position.x, 0)
    } else {
        line.origin.x
    }
}

/// Where the last row of a line ends, counted from `first`.
pub open spec fn line_last_x<F: Scalar>(line: TextLineModel<F>, first: F) -> F {
    let end = first.spec_plus(line.layout.width);
    if line.wrap_boundaries.len() == 0 {
        end
    } else {
        let boundary = line.wrap_boundaries[line.wrap_boundaries.len() - 1];
        end.spec_minus(
            glyph_at(line, boundary.run_ix as int, boundary.glyph_ix as int).position.x,
        )
    }
}

/// Whether a stroke that ends at `x` ends behind a glyph: where a later glyph is, or would be
/// on this row, or where the line ends.
pub open spec fn closed_behind<F: Scalar>(
    line: TextLineModel<F>,
    x: F,
    row: int,
    run_ix: int,
    glyph_ix: int,
    first: F,
) -> bool {
    ||| x == line_last_x(line, first)
    ||| exists|run: int, glyph: int| #[trigger]
        has_glyph(line, run, glyph) && reads_before(run_ix, glyph_ix, run, glyph) && x == x_on_row(
            line,
            glyph_at(line, run, glyph).position.x,
            row,
        )
}

/// Whether a stroke of some origin and width runs past a glyph on its row: it starts at or
/// before the glyph and ends behind it. One that would have no length is moved left.
pub open spec fn runs_past<F: Scalar>(
    line: TextLineModel<F>,
    left: F,
    width: F,
    run_ix: int,
    glyph_ix: int,
    first: F,
) -> bool {
    let row = row_of(line, run_ix, glyph_ix);
    exists|start: F, end: F| #[trigger]
        opened_by(line, start, row, run_ix, glyph_ix + 1) && #[trigger] closed_behind(
            line,
            end,
            row,
            run_ix,
            glyph_ix,
            first,
        ) && width == end.spec_minus(left) && (left == start || start.spec_same(end)
            || end.spec_same(start))
}

/// Whether two colors compare equal, or neither is there.
pub open spec fn colors_alike<F: Scalar>(a: Option<Hsla<F>>, b: Option<Hsla<F>>) -> bool {
    match (a, b) {
        (Some(a), Some(b)) => a.h.spec_same(b.h) && a.s.spec_same(b.s) && a.l.spec_same(b.l)
            && a.a.spec_same(b.a),
        (None, None) => true,
        _ => false,
    }
}

/// The color of a stroke: its own, or that of the text.
pub open spec fn stroke_color<F>(own: Option<Hsla<F>>, text: Hsla<F>) -> Option<Hsla<F>> {
    match own {
        Some(color) => Some(color),
        None => Some(text),
    }
}

/// How far strikethroughs are below the top of a row.
pub open spec fn strike_offset<F: Scalar>(line: TextLineModel<F>) -> F {
    let layout = line.layout;
    let spare = line.line_height.spec_minus(layout.ascent).spec_minus(layout.descent);
    layout.ascent.spec_times(spec_one_half()).spec_plus(
        spare.spec_over(spec_two()).spec_plus(layout.ascent),
    ).spec_times(spec_one_half())
}

/// Whether a style is that of the decoration at `d`: taken from it, or from an earlier one
/// whose underline it goes on with.
pub open spec fn underline_style_of<F: Scalar>(
    line: TextLineModel<F>,
    style: UnderlineStyle<F>,
    d: int,
) -> bool {
    let runs = line.decoration_runs;
    exists|e: int|
        0 <= e <= d && (#[trigger] runs[e]).underline is Some && {
            let own = runs[e].underline->Some_0;
            &&& style.thickness == own.thickness
            &&& style.wavy == own.wavy
            &&& style.color == stroke_color(own.color, runs[e].color)
            &&& e == d || runs[d].underline is Some && {
                let goes_on = runs[d].underline->Some_0;
                &&& goes_on.thickness.spec_same(style.thickness)
                &&& goes_on.wavy == style.wavy
                &&& colors_alike(goes_on.color, style.color)
            }
        }
}

/// Whether a style is that of the decoration at `d`: taken from it, or from an earlier one
/// whose strikethrough it goes on with.
pub open spec fn strike_style_of<F: Scalar>(
    line: TextLineModel<F>,
    style: StrikethroughStyle<F>,
    d: int,
) -> bool {
    let runs = line.decoration_runs;
    exists|e: int|
        0 <= e <= d && (#[trigger] runs[e]).strikethrough is Some && {
            let own = runs[e].strikethrough->Some_0;
            &&& style.thickness == own.thickness
            &&& style.color == stroke_color(own.color, runs[e].color)
            &&& e == d || runs[d].strikethrough is Some && {
                let goes_on = runs[d].strikethrough->Some_0;
                &&& goes_on.thickness.spec_same(style.thickness)
                &&& colors_alike(goes_on.color, style.color)
            }
        }
}

/// Whether a command underlines a glyph that the decoration at `d` covers.
pub open spec fn underlines<F: Scalar>(
    line: TextLineModel<F>,
    command: PaintCommand<F>,
    run_ix: int,
    glyph_ix: int,
    d: int,
) -> bool {
    match command {
        PaintCommand::Underline { range, origin, width, style } => {
            &&& range.start <= glyph_at(line, run_ix, glyph_ix).index < range.end
            &&& origin.y == row_top(line, row_of(line, run_ix, glyph_ix)).spec_plus(
                line.underline_y_offset,
            )
            &&& runs_past(line, origin.x, width, run_ix, glyph_ix, line_first_x(line))
            &&& underline_style_of(line, style, d)
        },
        _ => false,
    }
}

/// Whether a command strikes through a glyph that the decoration at `d` covers.
pub open spec fn strikes<F: Scalar>(
    line: TextLineModel<F>,
    command: PaintCommand<F>,
    run_ix: int,
    glyph_ix: int,
    d: int,
) -> bool {
    match command {
        PaintCommand::Strikethrough { origin, width, style } => {
            &&& origin.y == row_top(line, row_of(line, run_ix, glyph_ix)).spec_plus(
                strike_offset(line),
            )
            &&& runs_past(line, origin.x, width, run_ix, glyph_ix, line_first_x(line))
            &&& strike_style_of(line, style, d)
        },
        _ => false,
    }
}

/// Whether an open underline runs past a glyph.
spec fn open_underlines<F: Scalar>(
    line: TextLineModel<F>,
    open: OpenUnderline<F>,
    run_ix: int,
    glyph_ix: int,
    d: int,
) -> bool {
    let row = row_of(line, run_ix, glyph_ix);
    &&& open.start <= glyph_at(line, run_ix, glyph_ix).index < open.end
    &&& open.origin.y == row_top(line, row).spec_plus(line.underline_y_offset)
    &&& opened_by(line, open.origin.x, row, run_ix, glyph_ix + 1)
    &&& underline_style_of(line, open.style, d)
}

/// Whether an open strikethrough runs past a glyph.
spec fn open_strikes<F: Scalar>(
    line: TextLineModel<F>,
    open: OpenStrikethrough<F>,
    run_ix: int,
    glyph_ix: int,
    d: int,
) -> bool {
    let row = row_of(line, run_ix, glyph_ix);
    &&& open.origin.y == row_top(line, row).spec_plus(strike_offset(line))
    &&& opened_by(line, open.origin.x, row, run_ix, glyph_ix + 1)
    &&& strike_style_of(line, open.style, d)
}

/// Which decoration is in force behind a glyph that stands for byte `last`: the one that
/// covers it, none yet, or none any more.
spec fn in_force<F: Scalar>(
    line: TextLineModel<F>,
    decorations_done: int,
    run_end: int,
    last: int,
) -> bool {
    let runs = line.decoration_runs;
    &&& 0 <= decorations_done <= runs.len()
    &&& 0 <= last
    &&& {
        ||| decorations_done == 0 && run_end == 0
        ||| run_end == bytes_before(runs, decorations_done) && covers(
            runs,
            decorations_done - 1,
            last,
        )
        ||| decorations_done == runs.len() && bytes_before(runs, runs.len() as int) <= last
    }
}

/// Whether what is open is what the decoration in force asks for, on the row of the pen.
spec fn strokes_ready<F: Scalar>(
    line: TextLineModel<F>,
    state: LineState<F>,
    last: int,
    run_ix: int,
    glyph_ix: int,
) -> bool {
    let runs = line.decoration_runs;
    let done = state.decorations_done as int;
    let row = state.wraps_done as int;
    &&& in_force(line, done, state.run_end as int, last)
    &&& state.underline is Some ==> {
        let open = state.underline->Some_0;
        &&& state.run_end == bytes_before(runs, done)
        &&& covers(runs, done - 1, last)
        &&& open.start <= bytes_before(runs, done - 1)
        &&& open.end == bytes_before(runs, done)
        &&& open.origin.y == row_top(line, row).spec_plus(line.underline_y_offset)
        &&& opened_by(line, open.origin.x, row, run_ix, glyph_ix)
        &&& underline_style_of(line, open.style, done - 1)
        &&& runs[done - 1].underline is Some
    }
    &&& state.strikethrough is Some ==> {
        let open = state.strikethrough->Some_0;
        &&& state.run_end == bytes_before(runs, done)
        &&& covers(runs, done - 1, last)
        &&& open.origin.y == row_top(line, row).spec_plus(strike_offset(line))
        &&& opened_by(line, open.origin.x, row, run_ix, glyph_ix)
        &&& strike_style_of(line, open.style, done - 1)
        &&& runs[done - 1].strikethrough is Some
    }
    &&& covers(runs, done - 1, last) && state.run_end == bytes_before(runs, done) ==> (runs[done
        - 1].underline is Some ==> state.underline is Some) && (runs[done - 1].strikethrough is Some
        ==> state.strikethrough is Some)
}

/// Whether the underline that is open runs past a glyph of the row of the pen.
spec fn open_past_underline<F: Scalar>(
    line: TextLineModel<F>,
    state: LineState<F>,
    run_ix: int,
    glyph_ix: int,
    d: int,
) -> bool {
    &&& state.underline is Some
    &&& state.wraps_done == row_of(line, run_ix, glyph_ix)
    &&& open_underlines(line, state.underline->Some_0, run_ix, glyph_ix, d)
}

/// Whether the strikethrough that is open runs past a glyph of the row of the pen.
spec fn open_past_strike<F: Scalar>(
    line: TextLineModel<F>,
    state: LineState<F>,
    run_ix: int,
    glyph_ix: int,
    d: int,
) -> bool {
    &&& state.strikethrough is Some
    &&& state.wraps_done == row_of(line, run_ix, glyph_ix)
    &&& open_strikes(line, state.strikethrough->Some_0, run_ix, glyph_ix, d)
}

/// Whether the strokes that the decoration at `d` asks for run past a glyph: they were
/// painted, or are open.
spec fn served<F: Scalar>(
    line: TextLineModel<F>,
    state: LineState<F>,
    painted: Seq<PaintCommand<F>>,
    run_ix: int,
    glyph_ix: int,
    d: int,
) -> bool {
    &&& line.decoration_runs[d].underline is Some ==> {
        ||| exists|i: int|
            0 <= i < painted.len() && underlines(
                line,
                #[trigger] painted[i],
                run_ix,
                glyph_ix,
                d,
            )
        ||| open_past_underline(line, state, run_ix, glyph_ix, d)
    }
    &&& line.decoration_runs[d].strikethrough is Some ==> {
        ||| exists|i: int|
            0 <= i < painted.len() && strikes(line, #[trigger] painted[i], run_ix, glyph_ix, d)
        ||| open_past_strike(line, state, run_ix, glyph_ix, d)
    }
}

/// The glyph whose strokes are watched, and the decoration that covers it.
spec fn watched<F: Scalar>(line: TextLineModel<F>, target: (int, int, int)) -> bool {
    &&& has_glyph(line, target.0, target.1)
    &&& covers(line.decoration_runs, target.2, glyph_at(line, target.0, target.1).index as int)
}

/// What holds of painting before a glyph.
spec fn painting_strokes<F: Scalar>(
    line: TextLineModel<F>,
    state: LineState<F>,
    painted: Seq<PaintCommand<F>>,
    run_ix: int,
    glyph_ix: int,
    last: int,
    target: (int, int, int),
) -> bool {
    &&& pen_ready(
        line,
        state.wraps_done as int,
        state.glyph_origin,
        state.prev_x,
        run_ix,
        glyph_ix,
    )
    &&& bytes_follow(line, run_ix, glyph_ix, last)
    &&& strokes_ready(line, state, last, run_ix, glyph_ix)
    &&& state.first_glyph_x == if has_glyph(line, 0, 0) && reads_before(0, 0, run_ix, glyph_ix) {
        line_first_x(line)
    } else {
        line.origin.x
    }
    &&& watched(line, target) && reads_before(target.0, target.1, run_ix, glyph_ix) ==> served(
        line,
        state,
        painted,
        target.0,
        target.1,
        target.2,
    )
}

proof fn lemma_opened_later<F: Scalar>(
    line: TextLineModel<F>,
    x: F,
    row: int,
    run_a: int,
    glyph_a: int,
    run_b: int,
    glyph_b: int,
)
    requires
        opened_by(line, x, row, run_a, glyph_a),
        !reads_before(run_b, glyph_b, run_a, glyph_a),
    ensures
        opened_by(line, x, row, run_b, glyph_b),
{
    if !(row >= 1 && x == line.origin.x) {
        let (run, glyph) = choose|run: int, glyph: int| #[trigger]
            has_glyph(line, run, glyph) && reads_before(run, glyph, run_a, glyph_a) && row_of(
                line,
                run,
                glyph,
            ) == row && x == glyph_x(line, run, glyph);
        assert(has_glyph(line, run, glyph) && reads_before(run, glyph, run_b, glyph_b));
    }
}

/// Ending the open strokes paints those of a glyph that they run past.
proof fn lemma_ended_underline<F: Scalar>(
    line: TextLineModel<F>,
    open: OpenUnderline<F>,
    end: F,
    empty: bool,
    width: F,
    target: (int, int, int),
)
    requires
        open_underlines(line, open, target.0, target.1, target.2),
        closed_behind(
            line,
            end,
            row_of(line, target.0, target.1),
            target.0,
            target.1,
            line_first_x(line),
        ),
        empty ==> open.origin.x.spec_same(end) || end.spec_same(open.origin.x),
    ensures
        underlines(
            line,
            underline_command(open, end, empty, width),
            target.0,
            target.1,
            target.2,
        ),
{
    let row = row_of(line, target.0, target.1);
    assert(opened_by(line, open.origin.x, row, target.0, target.1 + 1));
}

proof fn lemma_ended_strike<F: Scalar>(
    line: TextLineModel<F>,
    open: OpenStrikethrough<F>,
    end: F,
    empty: bool,
    width: F,
    target: (int, int, int),
)
    requires
        open_strikes(line, open, target.0, target.1, target.2),
        closed_behind(
            line,
            end,
            row_of(line, target.0, target.1),
            target.0,
            target.1,
            line_first_x(line),
        ),
        empty ==> open.origin.x.spec_same(end) || end.spec_same(open.origin.x),
    ensures
        strikes(
            line,
            strikethrough_command(open, end, empty, width),
            target.0,
            target.1,
            target.2,
        ),
{
    let row = row_of(line, target.0, target.1);
    assert(opened_by(line, open.origin.x, row, target.0, target.1 + 1));
}

/// A glyph is served however more is painted, as long as nothing open ends unpainted.
proof fn lemma_served_kept<F: Scalar>(
    line: TextLineModel<F>,
    before: LineState<F>,
    after: LineState<F>,
    painted: Seq<PaintCommand<F>>,
    more: Seq<PaintCommand<F>>,
    target: (int, int, int),
)
    requires
        served(line, before, painted, target.0, target.1, target.2),
        open_past_underline(line, before, target.0, target.1, target.2) ==> open_past_underline(
            line,
            after,
            target.0,
            target.1,
            target.2,
        ) || exists|i: int|
            0 <= i < more.len() && underlines(
                line,
                #[trigger] more[i],
                target.0,
                target.1,
                target.2,
            ),
        open_past_strike(line, before, target.0, target.1, target.2) ==> open_past_strike(
            line,
            after,
            target.0,
            target.1,
            target.2,
        ) || exists|i: int|
            0 <= i < more.len() && strikes(line, #[trigger] more[i], target.0, target.1, target.2),
    ensures
        served(line, after, painted + more, target.0, target.1, target.2),
{
    let all = painted + more;
    let (r, g, d) = target;
    if line.decoration_runs[d].underline is Some {
        if exists|i: int|
            0 <= i < painted.len() && underlines(line, #[trigger] painted[i], r, g, d) {
            let i = choose|i: int|
                0 <= i < painted.len() && underlines(line, #[trigger] painted[i], r, g, d);
            assert(all[i] == painted[i]);
        } else if !open_past_underline(line, after, r, g, d) {
            let i = choose|i: int|
                0 <= i < more.len() && underlines(line, #[trigger] more[i], r, g, d);
            assert(all[painted.len() + i] == more[i]);
        }
    }
    if line.decoration_runs[d].strikethrough is Some {
        if exists|i: int| 0 <= i < painted.len() && strikes(line, #[trigger] painted[i], r, g, d) {
            let i = choose|i: int|
                0 <= i < painted.len() && strikes(line, #[trigger] painted[i], r, g, d);
            assert(all[i] == painted[i]);
        } else if !open_past_strike(line, after, r, g, d) {
            let i = choose|i: int|
                0 <= i < more.len() && strikes(line, #[trigger] more[i], r, g, d);
            assert(all[painted.len() + i] == more[i]);
        }
    }
}

/// What ends with a row, or with the line, at `end`.
spec fn stroke_ends<F: Scalar>(state: LineState<F>, end: F, more: Seq<PaintCommand<F>>) -> bool {
    let width = state.glyph_box.size.width;
    &&& state.underline is Some ==> more.len() >= 1 && exists|empty: bool|
        more[0] == #[trigger] underline_command(state.underline->Some_0, end, empty, width) && (
        empty ==> state.underline->Some_0.origin.x.spec_same(end) || end.spec_same(
            state.underline->Some_0.origin.x,
        ))
    &&& state.strikethrough is Some ==> more.len() >= 1 && exists|empty: bool|
        more[more.len() - 1] == #[trigger] strikethrough_command(
            state.strikethrough->Some_0,
            end,
            empty,
            width,
        ) && (empty ==> state.strikethrough->Some_0.origin.x.spec_same(end) || end.spec_same(
            state.strikethrough->Some_0.origin.x,
        ))
}

/// Where everything open ends behind a glyph, the glyph is served.
proof fn lemma_served_by_ends<F: Scalar>(
    line: TextLineModel<F>,
    before: LineState<F>,
    after: LineState<F>,
    painted: Seq<PaintCommand<F>>,
    more: Seq<PaintCommand<F>>,
    end: F,
    target: (int, int, int),
)
    requires
        served(line, before, painted, target.0, target.1, target.2),
        stroke_ends(before, end, more),
        closed_behind(
            line,
            end,
            before.wraps_done as int,
            target.0,
            target.1,
            line_first_x(line),
        ),
    ensures
        served(line, after, painted + more, target.0, target.1, target.2),
{
    let (r, g, d) = target;
    let width = before.glyph_box.size.width;
    if open_past_underline(line, before, r, g, d) {
        let open = before.underline->Some_0;
        let empty = choose|empty: bool|
            more[0] == #[trigger] underline_command(open, end, empty, width) && (empty
                ==> open.origin.x.spec_same(end) || end.spec_same(open.origin.x));
        lemma_ended_underline(line, open, end, empty, width, target);
        assert(underlines(line, more[0], r, g, d));
    }
    if open_past_strike(line, before, r, g, d) {
        let open = before.strikethrough->Some_0;
        let empty = choose|empty: bool|
            more[more.len() - 1] == #[trigger] strikethrough_command(open, end, empty, width) && (
            empty ==> open.origin.x.spec_same(end) || end.spec_same(open.origin.x));
        lemma_ended_strike(line, open, end, empty, width, target);
        assert(strikes(line, more[more.len() - 1], r, g, d));
    }
    lemma_served_kept(line, before, after, painted, more, target);
}

/// What is open at the start of a row, if the decoration goes on there.
proof fn lemma_row_started<F: Scalar>(
    line: TextLineModel<F>,
    state: LineState<F>,
    run_ix: int,
    glyph_ix: int,
    last: int,
)
    requires
        line.wf(),
        sums_commute::<F>(),
        has_glyph(line, run_ix, glyph_ix),
        strokes_ready(line, state, last, run_ix, glyph_ix),
        state.wraps_done < line.wrap_boundaries.len(),
    ensures
        ({
            let glyph = glyph_at(line, run_ix, glyph_ix);
            let started = line.row_started(state, glyph);
            &&& glyph.index < state.run_end ==> strokes_ready(line, started, last, run_ix, glyph_ix)
            &&& glyph.index >= state.run_end ==> started.underline is None
                && started.strikethrough is None
        }),
{
    let row = state.wraps_done as int;
    let top = row_top(line, row);
    assert(row_top(line, row + 1) == top.spec_plus(line.line_height));
    assert(top.spec_plus(line.underline_y_offset).spec_plus(line.line_height) == top.spec_plus(
        line.line_height,
    ).spec_plus(line.underline_y_offset));
    assert(top.spec_plus(strike_offset(line)).spec_plus(line.line_height) == top.spec_plus(
        line.line_height,
    ).spec_plus(strike_offset(line)));
}

/// Moving on to a glyph: what is open ends with its row, and goes on with the next one.
proof fn lemma_strokes_placed<F: Scalar>(
    line: TextLineModel<F>,
    state: LineState<F>,
    painted: Seq<PaintCommand<F>>,
    run_ix: int,
    glyph_ix: int,
    last: int,
    target: (int, int, int),
)
    requires
        line.wf(),
        in_reading_order(line.wrap_boundaries),
        steps_add_up::<F>(),
        sums_commute::<F>(),
        has_glyph(line, run_ix, glyph_ix),
        painting_strokes(line, state, painted, run_ix, glyph_ix, last, target),
    ensures
        ({
            let glyph = glyph_at(line, run_ix, glyph_ix);
            let moved = line.pen_moved(state, glyph, run_ix == 0 && glyph_ix == 0);
            let wraps = line.wraps_at(moved.wraps_done as int, run_ix, glyph_ix);
            let row_end = if wraps {
                line.row_end_commands(moved)
            } else {
                Seq::empty()
            };
            let placed = line.at_glyph(state, run_ix, glyph_ix);
            &&& watched(line, target) && reads_before(
                target.0,
                target.1,
                run_ix,
                glyph_ix,
            ) ==> served(
                line,
                placed,
                painted + row_end,
                target.0,
                target.1,
                target.2,
            )
            &&& (!wraps || glyph.index < placed.run_end) ==> strokes_ready(
                line,
                placed,
                last,
                run_ix,
                glyph_ix,
            )
            &&& wraps && glyph.index >= placed.run_end ==> placed.underline is None
                && placed.strikethrough is None
            &&& in_force(line, placed.decorations_done as int, placed.run_end as int, last)
            &&& placed.first_glyph_x == if has_glyph(line, 0, 0) {
                line_first_x(line)
            } else {
                line.origin.x
            }
            &&& placed.wraps_done == row_of(line, run_ix, glyph_ix)
            &&& placed.glyph_origin.x == glyph_x(line, run_ix, glyph_ix)
            &&& placed.glyph_origin.y == row_top(line, row_of(line, run_ix, glyph_ix))
            &&& pen_ready(
                line,
                placed.wraps_done as int,
                placed.glyph_origin,
                placed.prev_x,
                run_ix,
                glyph_ix + 1,
            )
        }),
{
    let glyph = glyph_at(line, run_ix, glyph_ix);
    let moved = line.pen_moved(state, glyph, run_ix == 0 && glyph_ix == 0);
    let placed = line.at_glyph(state, run_ix, glyph_ix);
    let row = state.wraps_done as int;
    lemma_pen_step(line, row, state.glyph_origin, state.prev_x, run_ix, glyph_ix);
    if run_ix == 0 && glyph_ix == 0 {
        assert(row == 0) by {
            if row > 0 {
                assert(crate::row_laws::comes_before(line.wrap_boundaries[0], 0, 0));
            }
        }
    }
    let x = moved.glyph_origin.x;
    if line.wraps_at(row, run_ix, glyph_ix) {
        let row_end = line.row_end_commands(moved);
        if watched(line, target) && reads_before(target.0, target.1, run_ix, glyph_ix) {
            let width = moved.glyph_box.size.width;
            if moved.underline is Some {
                let open = moved.underline->Some_0;
                assert(row_end[0] == underline_command(open, x, x.spec_same(open.origin.x), width));
            }
            if moved.strikethrough is Some {
                let open = moved.strikethrough->Some_0;
                assert(row_end[row_end.len() - 1] == strikethrough_command(
                    open,
                    x,
                    x.spec_same(open.origin.x),
                    width,
                ));
            }
            assert(stroke_ends(moved, x, row_end));
            assert(closed_behind(line, x, row, target.0, target.1, line_first_x(line))) by {
                assert(has_glyph(line, run_ix, glyph_ix));
            }
            assert(served(line, moved, painted, target.0, target.1, target.2));
            lemma_served_by_ends(line, moved, placed, painted, row_end, x, target);
        }
        assert(strokes_ready(line, moved, last, run_ix, glyph_ix));
        lemma_row_started(line, moved, run_ix, glyph_ix, last);
        let started = line.row_started(moved, glyph);
        if glyph.index < moved.run_end {
            assert(strokes_ready(line, placed, last, run_ix, glyph_ix));
        }
    } else {
        let none = Seq::<PaintCommand<F>>::empty();
        assert(painted + none =~= painted);
        assert(strokes_ready(line, placed, last, run_ix, glyph_ix));
        if watched(line, target) && reads_before(target.0, target.1, run_ix, glyph_ix) {
            lemma_served_kept(line, state, placed, painted, none, target);
        }
    }
}

/// Restyling at a glyph: what the next decoration does not go on with ends there, and what it
/// asks for is open from there on.
proof fn lemma_strokes_restyled<F: Scalar>(
    line: TextLineModel<F>,
    placed: LineState<F>,
    painted: Seq<PaintCommand<F>>,
    run_ix: int,
    glyph_ix: int,
    last: int,
    target: (int, int, int),
)
    requires
        line.wf(),
        line.decoration_runs.len() <= usize::MAX,
        has_glyph(line, run_ix, glyph_ix),
        placed.wraps_done == row_of(line, run_ix, glyph_ix),
        placed.glyph_origin.x == glyph_x(line, run_ix, glyph_ix),
        placed.glyph_origin.y == row_top(line, row_of(line, run_ix, glyph_ix)),
        in_force(line, placed.decorations_done as int, placed.run_end as int, last),
        strokes_ready(line, placed, last, run_ix, glyph_ix) || placed.underline is None
            && placed.strikethrough is None,
        glyph_at(line, run_ix, glyph_ix).index >= placed.run_end,
        last <= glyph_at(line, run_ix, glyph_ix).index,
        watched(line, target) && reads_before(target.0, target.1, run_ix, glyph_ix) ==> served(
            line,
            placed,
            painted,
            target.0,
            target.1,
            target.2,
        ),
    ensures
        ({
            let index = glyph_at(line, run_ix, glyph_ix).index;
            let styled = line.restyled(placed, index);
            let style_end = line.restyle_commands(placed, index);
            &&& strokes_ready(line, styled, index as int, run_ix, glyph_ix + 1)
            &&& line.decoration_runs.len() > 0 ==> styled.decorations_done > 0
            &&& watched(line, target) && reads_before(
                target.0,
                target.1,
                run_ix,
                glyph_ix,
            ) ==> served(
                line,
                styled,
                painted + style_end,
                target.0,
                target.1,
                target.2,
            )
        }),
{
    let runs = line.decoration_runs;
    let glyph = glyph_at(line, run_ix, glyph_ix);
    let index = glyph.index;
    let styled = line.restyled(placed, index);
    let more = line.restyle_commands(placed, index);
    let done = placed.decorations_done as int;
    let row = placed.wraps_done as int;
    let x = placed.glyph_origin.x;
    lemma_bytes_before(runs, 0, runs.len() as int);
    lemma_bytes_before(runs, done, runs.len() as int);
    assert(bytes_before(runs, 0) == 0);
    lemma_find(runs, done, placed.run_end as int, index as int);
    let (next, start, found) = find_decoration(runs, done, placed.run_end as int, index as int);
    if found is Some {
        lemma_bytes_before(runs, next, runs.len() as int);
        lemma_bytes_before(runs, done, next);
        lemma_bytes_before(runs, next - 1, next);
        if done > 0 {
            lemma_bytes_before(runs, done - 1, next - 1);
        }
    }
    assert(opened_by(line, x, row, run_ix, glyph_ix + 1)) by {
        assert(has_glyph(line, run_ix, glyph_ix) && reads_before(
            run_ix,
            glyph_ix,
            run_ix,
            glyph_ix + 1,
        ));
    }
    // What is kept.
    if placed.underline is Some {
        let open = placed.underline->Some_0;
        lemma_opened_later(line, open.origin.x, row, run_ix, glyph_ix, run_ix, glyph_ix + 1);
        if found is Some && continues_underline(found->Some_0.underline, open.style) {
            lemma_underline_goes_on(line, open.style, done - 1, next - 1);
        }
    }
    if placed.strikethrough is Some {
        let open = placed.strikethrough->Some_0;
        lemma_opened_later(line, open.origin.x, row, run_ix, glyph_ix, run_ix, glyph_ix + 1);
        if found is Some && continues_strikethrough(found->Some_0.strikethrough, open.style) {
            lemma_strike_goes_on(line, open.style, done - 1, next - 1);
        }
    }
    if found is Some {
        let run = found->Some_0;
        if run.underline is Some {
            assert(runs[next - 1].underline is Some);
            let own = UnderlineStyle {
                color: Some(color_or(run.underline->Some_0.color, run.color)),
                ..run.underline->Some_0
            };
            assert(underline_style_of(line, own, next - 1));
        }
        if run.strikethrough is Some {
            assert(runs[next - 1].strikethrough is Some);
            let own = StrikethroughStyle {
                color: Some(color_or(run.strikethrough->Some_0.color, run.color)),
                ..run.strikethrough->Some_0
            };
            assert(strike_style_of(line, own, next - 1));
        }
    } else {
        assert(!covers(runs, styled.decorations_done - 1, index as int)) by {
            if styled.decorations_done > 0 {
                assert(styled.decorations_done == runs.len());
            }
        }
    }
    assert(strokes_ready(line, styled, index as int, run_ix, glyph_ix + 1));
    // What ends.
    if watched(line, target) && reads_before(target.0, target.1, run_ix, glyph_ix) {
        let (r, g, d) = target;
        let width = placed.glyph_box.size.width;
        assert(closed_behind(line, x, row, r, g, line_first_x(line))) by {
            assert(has_glyph(line, run_ix, glyph_ix) && reads_before(r, g, run_ix, glyph_ix));
            assert(x == x_on_row(line, glyph.position.x, row));
        }
        if open_past_underline(line, placed, r, g, d) {
            let open = placed.underline->Some_0;
            if found is Some && continues_underline(found->Some_0.underline, open.style) {
                assert(open_past_underline(line, styled, r, g, d));
            } else {
                let empty = open.origin.x.spec_same(x);
                lemma_ended_underline(line, open, x, empty, width, target);
                assert(more[0] == underline_command(open, x, empty, width));
                assert(underlines(line, more[0], r, g, d));
            }
        }
        if open_past_strike(line, placed, r, g, d) {
            let open = placed.strikethrough->Some_0;
            if found is Some && continues_strikethrough(found->Some_0.strikethrough, open.style) {
                assert(open_past_strike(line, styled, r, g, d));
            } else {
                let empty = open.origin.x.spec_same(x);
                lemma_ended_strike(line, open, x, empty, width, target);
                assert(more[more.len() - 1] == strikethrough_command(open, x, empty, width));
                assert(strikes(line, more[more.len() - 1], r, g, d));
            }
        }
        lemma_served_kept(line, placed, styled, painted, more, target);
    }
}

/// A style that a later decoration goes on with is that decoration's too.
proof fn lemma_underline_goes_on<F: Scalar>(
    line: TextLineModel<F>,
    style: UnderlineStyle<F>,
    a: int,
    b: int,
)
    requires
        underline_style_of(line, style, a),
        a <= b,
        continues_underline(line.decoration_runs[b].underline, style),
    ensures
        underline_style_of(line, style, b),
{
}

/// A style that a later decoration goes on with is that decoration's too.
proof fn lemma_strike_goes_on<F: Scalar>(
    line: TextLineModel<F>,
    style: StrikethroughStyle<F>,
    a: int,
    b: int,
)
    requires
        strike_style_of(line, style, a),
        a <= b,
        continues_strikethrough(line.decoration_runs[b].strikethrough, style),
    ensures
        strike_style_of(line, style, b),
{
}

/// A glyph that the decoration in force covers is served by what is open.
proof fn lemma_served_by_open<F: Scalar>(
    line: TextLineModel<F>,
    state: LineState<F>,
    painted: Seq<PaintCommand<F>>,
    run_ix: int,
    glyph_ix: int,
    target: (int, int, int),
)
    requires
        watched(line, target),
        target.0 == run_ix,
        target.1 == glyph_ix,
        state.decorations_done > 0,
        state.wraps_done == row_of(line, run_ix, glyph_ix),
        strokes_ready(
            line,
            state,
            glyph_at(line, run_ix, glyph_ix).index as int,
            run_ix,
            glyph_ix + 1,
        ),
    ensures
        served(line, state, painted, target.0, target.1, target.2),
{
    let runs = line.decoration_runs;
    let index = glyph_at(line, run_ix, glyph_ix).index as int;
    let done = state.decorations_done as int;
    lemma_bytes_before(runs, target.2 + 1, runs.len() as int);
    lemma_bytes_before(runs, 0, target.2);
    if !(state.run_end == bytes_before(runs, done) && covers(runs, done - 1, index)) {
        assert(bytes_before(runs, runs.len() as int) <= index);
    } else {
        lemma_one_cover(runs, done - 1, target.2, index);
    }
}

proof fn lemma_strokes_step<F: Scalar>(
    line: TextLineModel<F>,
    state: LineState<F>,
    painted: Seq<PaintCommand<F>>,
    run_ix: int,
    glyph_ix: int,
    last: int,
    target: (int, int, int),
)
    requires
        line.wf(),
        line.decoration_runs.len() <= usize::MAX,
        in_reading_order(line.wrap_boundaries),
        bytes_in_order(line),
        steps_add_up::<F>(),
        sums_commute::<F>(),
        has_glyph(line, run_ix, glyph_ix),
        painting_strokes(line, state, painted, run_ix, glyph_ix, last, target),
    ensures
        ({
            let (after, commands) = line.glyph_step(state, run_ix, glyph_ix);
            painting_strokes(
                line,
                after,
                painted + commands,
                run_ix,
                glyph_ix + 1,
                glyph_at(line, run_ix, glyph_ix).index as int,
                target,
            )
        }),
{
    let glyph = glyph_at(line, run_ix, glyph_ix);
    let index = glyph.index as int;
    let (after, commands) = line.glyph_step(state, run_ix, glyph_ix);
    let moved = line.pen_moved(state, glyph, run_ix == 0 && glyph_ix == 0);
    let placed = line.at_glyph(state, run_ix, glyph_ix);
    let none = Seq::<PaintCommand<F>>::empty();
    let row_end = if line.wraps_at(moved.wraps_done as int, run_ix, glyph_ix) {
        line.row_end_commands(moved)
    } else {
        none
    };
    let style_end = if glyph.index >= placed.run_end {
        line.restyle_commands(placed, glyph.index)
    } else {
        none
    };
    let own = line.glyph_commands(after, line.layout.runs[run_ix].font_id, glyph);
    lemma_strokes_placed(line, state, painted, run_ix, glyph_ix, last, target);
    assert(last <= index) by {
        assert(!reads_before(run_ix, glyph_ix, run_ix, glyph_ix));
    }
    let earlier = watched(line, target) && reads_before(target.0, target.1, run_ix, glyph_ix);
    if glyph.index >= placed.run_end {
        lemma_strokes_restyled(
            line,
            placed,
            painted + row_end,
            run_ix,
            glyph_ix,
            last,
            target,
        );
    } else {
        assert(after == placed);
        assert(strokes_ready(line, placed, last, run_ix, glyph_ix));
        lemma_ready_later(line, placed, last, index, run_ix, glyph_ix);
        assert(painted + row_end + none =~= painted + row_end);
    }
    let so_far = painted + row_end + style_end;
    assert(painted + commands =~= so_far + own);
    if earlier {
        assert(served(line, after, so_far, target.0, target.1, target.2));
        lemma_served_kept(line, after, after, so_far, own, target);
    } else if watched(line, target) && reads_before(target.0, target.1, run_ix, glyph_ix + 1) {
        assert(target.0 == run_ix && target.1 == glyph_ix);
        lemma_served_by_open(line, after, painted + commands, run_ix, glyph_ix, target);
    }
    assert forall|run: int, g: int|
        has_glyph(line, run, g) && !reads_before(run, g, run_ix, glyph_ix + 1) implies index <= (
    #[trigger] glyph_at(line, run, g)).index by {
        assert(reads_before(run_ix, glyph_ix, run, g));
        assert(has_glyph(line, run_ix, glyph_ix));
        assert(glyph_at(line, run_ix, glyph_ix).index == index);
    }
}

/// The decoration in force at a byte is so at a later byte before its end.
proof fn lemma_ready_later<F: Scalar>(
    line: TextLineModel<F>,
    state: LineState<F>,
    last: int,
    index: int,
    run_ix: int,
    glyph_ix: int,
)
    requires
        strokes_ready(line, state, last, run_ix, glyph_ix),
        last <= index < state.run_end,
    ensures
        strokes_ready(line, state, index, run_ix, glyph_ix + 1),
        line.decoration_runs.len() > 0 ==> state.decorations_done > 0,
{
    let row = state.wraps_done as int;
    let runs = line.decoration_runs;
    let done = state.decorations_done as int;
    lemma_bytes_before(runs, done, runs.len() as int);
    if done > 0 {
        lemma_bytes_before(runs, done - 1, runs.len() as int);
    }
    if state.underline is Some {
        lemma_opened_later(
            line,
            state.underline->Some_0.origin.x,
            row,
            run_ix,
            glyph_ix,
            run_ix,
            glyph_ix + 1,
        );
    }
    if state.strikethrough is Some {
        lemma_opened_later(
            line,
            state.strikethrough->Some_0.origin.x,
            row,
            run_ix,
            glyph_ix,
            run_ix,
            glyph_ix + 1,
        );
    }
}

proof fn lemma_strokes_run<F: Scalar>(
    line: TextLineModel<F>,
    state: LineState<F>,
    painted: Seq<PaintCommand<F>>,
    run_ix: int,
    count: nat,
    last: int,
    target: (int, int, int),
) -> (next: int)
    requires
        line.wf(),
        line.decoration_runs.len() <= usize::MAX,
        in_reading_order(line.wrap_boundaries),
        bytes_in_order(line),
        steps_add_up::<F>(),
        sums_commute::<F>(),
        0 <= run_ix < line.layout.runs.len(),
        count <= line.layout.runs[run_ix].glyphs.len(),
        painting_strokes(line, state, painted, run_ix, 0, last, target),
    ensures
        ({
            let (after, commands) = line.run_step(state, run_ix, count);
            painting_strokes(line, after, painted + commands, run_ix, count as int, next, target)
        }),
    decreases count,
{
    if count > 0 {
        let k = (count - 1) as nat;
        let middle = lemma_strokes_run(line, state, painted, run_ix, k, last, target);
        let (before, done) = line.run_step(state, run_ix, k);
        lemma_strokes_step(line, before, painted + done, run_ix, k as int, middle, target);
        let (after, commands) = line.glyph_step(before, run_ix, k as int);
        assert(painted + done + commands =~= painted + (done + commands));
        glyph_at(line, run_ix, k as int).index as int
    } else {
        let none = Seq::<PaintCommand<F>>::empty();
        assert(painted + none =~= painted);
        let boxed = line.run_step(state, run_ix, 0).0;
        if watched(line, target) && reads_before(target.0, target.1, run_ix, 0) {
            lemma_served_kept(line, state, boxed, painted, none, target);
        }
        assert(strokes_ready(line, boxed, last, run_ix, 0));
        last
    }
}

proof fn lemma_strokes_line<F: Scalar>(
    line: TextLineModel<F>,
    count: nat,
    target: (int, int, int),
) -> (last: int)
    requires
        line.wf(),
        line.decoration_runs.len() <= usize::MAX,
        in_reading_order(line.wrap_boundaries),
        bytes_in_order(line),
        steps_add_up::<F>(),
        sums_commute::<F>(),
        count <= line.layout.runs.len(),
    ensures
        ({
            let (after, painted) = line.line_step(count);
            painting_strokes(line, after, painted, count as int, 0, last, target)
        }),
    decreases count,
{
    if count > 0 {
        let k = (count - 1) as nat;
        let first = lemma_strokes_line(line, k, target);
        let (before, painted) = line.line_step(k);
        let n = line.layout.runs[k as int].glyphs.len();
        let last = lemma_strokes_run(line, before, painted, k as int, n, first, target);
        let (after, commands) = line.run_step(before, k as int, n);
        lemma_pen_next_run(
            line,
            after.wraps_done as int,
            after.glyph_origin,
            after.prev_x,
            k as int,
        );
        assert forall|run: int, g: int|
            has_glyph(line, run, g) && !reads_before(run, g, count as int, 0) implies last <= (
        #[trigger] glyph_at(line, run, g)).index by {
            assert(!reads_before(run, g, k as int, n as int));
        }
        if after.underline is Some {
            lemma_opened_later(
                line,
                after.underline->Some_0.origin.x,
                after.wraps_done as int,
                k as int,
                n as int,
                count as int,
                0,
            );
        }
        if after.strikethrough is Some {
            lemma_opened_later(
                line,
                after.strikethrough->Some_0.origin.x,
                after.wraps_done as int,
                k as int,
                n as int,
                count as int,
                0,
            );
        }
        assert(strokes_ready(line, after, last, count as int, 0));
        last
    } else {
        lemma_pen_start(line);
        assert(bytes_follow(line, 0, 0, 0));
        assert(strokes_ready(line, line.start(), 0, 0, 0));
        0
    }
}

/// Every stroke that a decoration asks for runs past every glyph whose byte the decoration
/// covers: among the commands there is an underline, or a strikethrough, of the decoration's
/// style, on the glyph's row and at the height that strokes have there, which starts at the
/// glyph or before it and ends behind it. An underline names the bytes that it underlines, and
/// the glyph's is one of them.
pub proof fn law_decorated_glyphs_have_their_strokes<F: Scalar>(
    line: TextLineModel<F>,
    run_ix: int,
    glyph_ix: int,
    d: int,
)
    requires
        line.wf(),
        line.decoration_runs.len() <= usize::MAX,
        in_reading_order(line.wrap_boundaries),
        bytes_in_order(line),
        steps_add_up::<F>(),
        sums_commute::<F>(),
        has_glyph(line, run_ix, glyph_ix),
        covers(line.decoration_runs, d, glyph_at(line, run_ix, glyph_ix).index as int),
    ensures
        line.decoration_runs[d].underline is Some ==> exists|i: int|
            0 <= i < line.commands().len() && underlines(
                line,
                #[trigger] line.commands()[i],
                run_ix,
                glyph_ix,
                d,
            ),
        line.decoration_runs[d].strikethrough is Some ==> exists|i: int|
            0 <= i < line.commands().len() && strikes(
                line,
                #[trigger] line.commands()[i],
                run_ix,
                glyph_ix,
                d,
            ),
{
    let target = (run_ix, glyph_ix, d);
    let n = line.layout.runs.len();
    let last = lemma_strokes_line(line, n, target);
    let (state, painted) = line.line_step(n);
    let end = line.line_end_commands(state);
    assert(reads_before(run_ix, glyph_ix, n as int, 0));
    let x = line.last_row_end(state.first_glyph_x);
    let width = state.glyph_box.size.width;
    assert(has_glyph(line, 0, 0) ==> reads_before(0, 0, n as int, 0));
    assert(x == line_last_x(line, line_first_x(line)));
    if state.underline is Some {
        let open = state.underline->Some_0;
        assert(end[0] == underline_command(open, x, x.spec_same(open.origin.x), width));
    }
    if state.strikethrough is Some {
        let open = state.strikethrough->Some_0;
        assert(end[end.len() - 1] == strikethrough_command(
            open,
            x,
            x.spec_same(open.origin.x),
            width,
        ));
    }
    assert(stroke_ends(state, x, end));
    let closed = LineState { underline: None, strikethrough: None, ..state };
    lemma_served_by_ends(line, state, closed, painted, end, x, target);
    assert(line.commands() == painted + end);
}

/// Which decorations ask for an underline.
pub open spec fn asks_underline<F>() -> spec_fn(DecorationRun<F>) -> bool {
    |run: DecorationRun<F>| run.underline is Some
}

/// Which decorations ask for a strikethrough.
pub open spec fn asks_strike<F>() -> spec_fn(DecorationRun<F>) -> bool {
    |run: DecorationRun<F>| run.strikethrough is Some
}

/// Whether the decoration that covers a glyph's byte asks for a stroke.
pub open spec fn is_asked<F: Scalar>(
    line: TextLineModel<F>,
    run_ix: int,
    glyph_ix: int,
    asks: spec_fn(DecorationRun<F>) -> bool,
) -> bool {
    exists|d: int| #[trigger]
        covers(line.decoration_runs, d, glyph_at(line, run_ix, glyph_ix).index as int) && asks(
            line.decoration_runs[d],
        )
}

/// Whether every glyph from glyph `ag` of run `ar` on, up to glyph `eg` of run `er` and
/// without it, is on one row and asked for.
pub open spec fn asked_between<F: Scalar>(
    line: TextLineModel<F>,
    ar: int,
    ag: int,
    er: int,
    eg: int,
    row: int,
    asks: spec_fn(DecorationRun<F>) -> bool,
) -> bool {
    &&& has_glyph(line, ar, ag)
    &&& reads_before(ar, ag, er, eg)
    &&& forall|r: int, g: int|
        #[trigger] has_glyph(line, r, g) && !reads_before(r, g, ar, ag) && reads_before(
            r,
            g,
            er,
            eg,
        ) ==> row_of(line, r, g) == row && is_asked(line, r, g, asks)
}

/// Whether a stroke begins at `x` for a glyph on `row`: at the glyph, or, where it goes on
/// from the row above, at the line's left.
pub open spec fn begins_at<F: Scalar>(
    line: TextLineModel<F>,
    x: F,
    row: int,
    ar: int,
    ag: int,
) -> bool {
    x == glyph_x(line, ar, ag) || row >= 1 && x == line.origin.x
}

/// Whether a stroke on `row` ends at `x` before a glyph: where the glyph would be on the row,
/// or, where there is none left, at the end of the line, whose first glyph is at `first`.
pub open spec fn ends_at<F: Scalar>(
    line: TextLineModel<F>,
    x: F,
    row: int,
    er: int,
    eg: int,
    first: F,
) -> bool {
    ||| has_glyph(line, er, eg) && x == x_on_row(line, glyph_at(line, er, eg).position.x, row)
    ||| er == line.layout.runs.len() && eg == 0 && x == line_last_x(line, first)
}

/// How wide a glyph is at most of the run that a stroke ends in.
pub open spec fn box_width<F: Scalar>(line: TextLineModel<F>, er: int) -> F {
    let runs = line.layout.runs.len() as int;
    line.glyph_boxes[if er < runs {
        er
    } else {
        runs - 1
    }].size.width
}

/// Whether a stroke from `start` to `end` is drawn from `x`: from its start, or, where it
/// would have no width, from half a glyph before that.
pub open spec fn drawn_from<F: Scalar>(
    line: TextLineModel<F>,
    x: F,
    start: F,
    end: F,
    er: int,
) -> bool {
    &&& !start.spec_same(end) && !end.spec_same(start) ==> x == start
    &&& start.spec_same(end) && end.spec_same(start) ==> x == start.spec_minus(
        box_width(line, er).spec_over(spec_two()),
    )
}

/// Which decorations go on with an underline of this style.
pub open spec fn goes_on_under<F: Scalar>(style: UnderlineStyle<F>) -> spec_fn(
    DecorationRun<F>,
) -> bool {
    |run: DecorationRun<F>|
        run.underline is Some && run.underline->Some_0.thickness.spec_same(style.thickness)
            && run.underline->Some_0.wavy == style.wavy && colors_alike(
            run.underline->Some_0.color,
            style.color,
        )
}

/// Which decorations go on with a strikethrough of this style.
pub open spec fn goes_on_through<F: Scalar>(style: StrikethroughStyle<F>) -> spec_fn(
    DecorationRun<F>,
) -> bool {
    |run: DecorationRun<F>|
        run.strikethrough is Some && run.strikethrough->Some_0.thickness.spec_same(
            style.thickness,
        ) && colors_alike(run.strikethrough->Some_0.color, style.color)
}

/// Whether there is a reason for what runs on `row` to end before a glyph: the glyph is on
/// another row, or no decoration that covers it goes on.
pub open spec fn stops_before<F: Scalar>(
    line: TextLineModel<F>,
    row: int,
    er: int,
    eg: int,
    goes_on: spec_fn(DecorationRun<F>) -> bool,
) -> bool {
    has_glyph(line, er, eg) && row_of(line, er, eg) == row ==> forall|d: int| #[trigger]
        covers(line.decoration_runs, d, glyph_at(line, er, eg).index as int) ==> !goes_on(
            line.decoration_runs[d],
        )
}

/// Whether a stroke runs past glyphs of one row that ask for it, and past no others, and ends
/// where it does not go on.
pub open spec fn spans_asked<F: Scalar>(
    line: TextLineModel<F>,
    origin: Point<F>,
    width: F,
    offset: F,
    asks: spec_fn(DecorationRun<F>) -> bool,
    goes_on: spec_fn(DecorationRun<F>) -> bool,
) -> bool {
    exists|row: int, ar: int, ag: int, er: int, eg: int, start: F, end: F|
        asked_between(line, ar, ag, er, eg, row, asks) && #[trigger] begins_at(
            line,
            start,
            row,
            ar,
            ag,
        ) && #[trigger] ends_at(
            line,
            end,
            row,
            er,
            eg,
            line_first_x(line),
        ) && origin.y == row_top(line, row).spec_plus(offset) && width == end.spec_minus(
            origin.x,
        ) && drawn_from(line, origin.x, start, end, er) && stops_before(line, row, er, eg, goes_on)
}

/// Whether a command that paints a stroke paints one that was asked for.
pub open spec fn is_asked_stroke<F: Scalar>(
    line: TextLineModel<F>,
    command: PaintCommand<F>,
) -> bool {
    match command {
        PaintCommand::Underline { range, origin, width, style } => {
            &&& spans_asked(
                line,
                origin,
                width,
                line.underline_y_offset,
                asks_underline(),
                goes_on_under(style),
            )
            &&& exists|d: int| #[trigger] underline_style_of(line, style, d)
        },
        PaintCommand::Strikethrough { origin, width, style } => {
            &&& spans_asked(
                line,
                origin,
                width,
                strike_offset(line),
                asks_strike(),
                goes_on_through(style),
            )
            &&& exists|d: int| #[trigger] strike_style_of(line, style, d)
        },
        _ => true,
    }
}

spec fn all_asked<F: Scalar>(line: TextLineModel<F>, painted: Seq<PaintCommand<F>>) -> bool {
    forall|i: int| 0 <= i < painted.len() ==> is_asked_stroke(line, #[trigger] painted[i])
}

/// Whether what begins at `x` runs past glyphs of one row that ask for it, and past no others,
/// up to a glyph.
pub open spec fn open_span<F: Scalar>(
    line: TextLineModel<F>,
    x: F,
    row: int,
    run_ix: int,
    glyph_ix: int,
    asks: spec_fn(DecorationRun<F>) -> bool,
) -> bool {
    exists|ar: int, ag: int| #[trigger]
        begins_at(line, x, row, ar, ag) && asked_between(
            line,
            ar,
            ag,
            run_ix,
            glyph_ix,
            row,
            asks,
        )
}

spec fn opens_asked<F: Scalar>(
    line: TextLineModel<F>,
    state: LineState<F>,
    run_ix: int,
    glyph_ix: int,
) -> bool {
    let row = state.wraps_done as int;
    &&& state.underline is Some ==> open_span(
        line,
        state.underline->Some_0.origin.x,
        row,
        run_ix,
        glyph_ix,
        asks_underline(),
    )
    &&& state.strikethrough is Some ==> open_span(
        line,
        state.strikethrough->Some_0.origin.x,
        row,
        run_ix,
        glyph_ix,
        asks_strike(),
    )
}

/// Ending an open stroke paints one that was asked for.
proof fn lemma_span_ended<F: Scalar>(
    line: TextLineModel<F>,
    start: Point<F>,
    end: F,
    empty: bool,
    glyph_width: F,
    offset: F,
    row: int,
    er: int,
    eg: int,
    asks: spec_fn(DecorationRun<F>) -> bool,
    goes_on: spec_fn(DecorationRun<F>) -> bool,
)
    requires
        open_span(line, start.x, row, er, eg, asks),
        stops_before(line, row, er, eg, goes_on),
        ends_at(line, end, row, er, eg, line_first_x(line)),
        glyph_width == box_width(line, er),
        start.y == row_top(line, row).spec_plus(offset),
        empty ==> start.x.spec_same(end) || end.spec_same(start.x),
        start.x.spec_same(end) && end.spec_same(start.x) ==> empty,
    ensures
        ({
            let origin = nudged(start, empty, glyph_width);
            spans_asked(line, origin, end.spec_minus(origin.x), offset, asks, goes_on)
        }),
{
    let (ar, ag) = choose|ar: int, ag: int| #[trigger]
        begins_at(line, start.x, row, ar, ag) && asked_between(line, ar, ag, er, eg, row, asks);
    assert(begins_at(line, start.x, row, ar, ag) && ends_at(
        line,
        end,
        row,
        er,
        eg,
        line_first_x(line),
    ));
}

proof fn lemma_span_has_glyphs<F: Scalar>(
    line: TextLineModel<F>,
    x: F,
    row: int,
    er: int,
    eg: int,
    asks: spec_fn(DecorationRun<F>) -> bool,
)
    requires
        open_span(line, x, row, er, eg, asks),
    ensures
        line.layout.runs.len() > 0,
{
    let (ar, ag) = choose|ar: int, ag: int| #[trigger]
        begins_at(line, x, row, ar, ag) && asked_between(line, ar, ag, er, eg, row, asks);
    assert(has_glyph(line, ar, ag));
}

/// Everything that ends at `end` was asked for.
proof fn lemma_ends_asked<F: Scalar>(
    line: TextLineModel<F>,
    state: LineState<F>,
    end: F,
    ends: (bool, bool),
    empties: (bool, bool),
    last: int,
    er: int,
    eg: int,
)
    requires
        state.underline is Some && ends.0 ==> stops_before(
            line,
            state.wraps_done as int,
            er,
            eg,
            goes_on_under(state.underline->Some_0.style),
        ),
        state.strikethrough is Some && ends.1 ==> stops_before(
            line,
            state.wraps_done as int,
            er,
            eg,
            goes_on_through(state.strikethrough->Some_0.style),
        ),
        opens_asked(line, state, er, eg),
        strokes_ready(line, state, last, er, eg),
        ends_at(line, end, state.wraps_done as int, er, eg, line_first_x(line)),
        line.layout.runs.len() > 0 ==> state.glyph_box.size.width == box_width(line, er),
        state.underline is Some ==> {
            let x = state.underline->Some_0.origin.x;
            x.spec_same(end) && end.spec_same(x) ==> empties.0
        },
        state.strikethrough is Some ==> {
            let x = state.strikethrough->Some_0.origin.x;
            x.spec_same(end) && end.spec_same(x) ==> empties.1
        },
        state.underline is Some && empties.0 ==> state.underline->Some_0.origin.x.spec_same(end)
            || end.spec_same(state.underline->Some_0.origin.x),
        state.strikethrough is Some && empties.1
            ==> state.strikethrough->Some_0.origin.x.spec_same(end) || end.spec_same(
            state.strikethrough->Some_0.origin.x,
        ),
    ensures
        ({
            let width = state.glyph_box.size.width;
            &&& state.underline is Some && ends.0 ==> is_asked_stroke(
                line,
                underline_command(state.underline->Some_0, end, empties.0, width),
            )
            &&& state.strikethrough is Some && ends.1 ==> is_asked_stroke(
                line,
                strikethrough_command(state.strikethrough->Some_0, end, empties.1, width),
            )
        }),
{
    let width = state.glyph_box.size.width;
    let row = state.wraps_done as int;
    if state.underline is Some && ends.0 {
        let open = state.underline->Some_0;
        lemma_span_has_glyphs(line, open.origin.x, row, er, eg, asks_underline());
        lemma_span_ended(
            line,
            open.origin,
            end,
            empties.0,
            width,
            line.underline_y_offset,
            row,
            er,
            eg,
            asks_underline(),
            goes_on_under(open.style),
        );
        assert(underline_style_of(line, open.style, state.decorations_done - 1));
    }
    if state.strikethrough is Some && ends.1 {
        let open = state.strikethrough->Some_0;
        lemma_span_has_glyphs(line, open.origin.x, row, er, eg, asks_strike());
        lemma_span_ended(
            line,
            open.origin,
            end,
            empties.1,
            width,
            strike_offset(line),
            row,
            er,
            eg,
            asks_strike(),
            goes_on_through(open.style),
        );
        assert(strike_style_of(line, open.style, state.decorations_done - 1));
    }
}

/// A stroke that is open before a glyph that asks for it is open behind it.
pub proof fn lemma_span_goes_on<F: Scalar>(
    line: TextLineModel<F>,
    x: F,
    row: int,
    run_ix: int,
    glyph_ix: int,
    asks: spec_fn(DecorationRun<F>) -> bool,
)
    requires
        has_glyph(line, run_ix, glyph_ix),
        row == row_of(line, run_ix, glyph_ix),
        is_asked(line, run_ix, glyph_ix, asks),
        open_span(line, x, row, run_ix, glyph_ix, asks) || begins_at(
            line,
            x,
            row,
            run_ix,
            glyph_ix,
        ),
    ensures
        open_span(line, x, row, run_ix, glyph_ix + 1, asks),
{
    if open_span(line, x, row, run_ix, glyph_ix, asks) {
        let (ar, ag) = choose|ar: int, ag: int| #[trigger]
            begins_at(line, x, row, ar, ag) && asked_between(
                line,
                ar,
                ag,
                run_ix,
                glyph_ix,
                row,
                asks,
            );
        assert forall|r: int, g: int|
            #[trigger] has_glyph(line, r, g) && !reads_before(r, g, ar, ag) && reads_before(
                r,
                g,
                run_ix,
                glyph_ix + 1,
            ) implies row_of(line, r, g) == row && is_asked(line, r, g, asks) by {
            if !reads_before(r, g, run_ix, glyph_ix) {
                assert(r == run_ix && g == glyph_ix);
            }
        }
        assert(asked_between(line, ar, ag, run_ix, glyph_ix + 1, row, asks));
        assert(begins_at(line, x, row, ar, ag));
    } else {
        assert forall|r: int, g: int|
            #[trigger] has_glyph(line, r, g) && !reads_before(
                r,
                g,
                run_ix,
                glyph_ix,
            ) && reads_before(r, g, run_ix, glyph_ix + 1) implies row_of(line, r, g) == row
            && is_asked(line, r, g, asks) by {
            assert(r == run_ix && g == glyph_ix);
        }
        assert(asked_between(line, run_ix, glyph_ix, run_ix, glyph_ix + 1, row, asks));
        assert(begins_at(line, x, row, run_ix, glyph_ix));
    }
}

proof fn lemma_asked_step<F: Scalar>(
    line: TextLineModel<F>,
    state: LineState<F>,
    painted: Seq<PaintCommand<F>>,
    run_ix: int,
    glyph_ix: int,
    last: int,
)
    requires
        line.wf(),
        line.decoration_runs.len() <= usize::MAX,
        in_reading_order(line.wrap_boundaries),
        bytes_in_order(line),
        steps_add_up::<F>(),
        sums_commute::<F>(),
        has_glyph(line, run_ix, glyph_ix),
        painting_strokes(line, state, painted, run_ix, glyph_ix, last, (0, 0, -1)),
        state.glyph_box == line.glyph_boxes[run_ix],
        opens_asked(line, state, run_ix, glyph_ix),
        all_asked(line, painted),
    ensures
        ({
            let (after, commands) = line.glyph_step(state, run_ix, glyph_ix);
            &&& opens_asked(line, after, run_ix, glyph_ix + 1)
            &&& all_asked(line, painted + commands)
            &&& after.glyph_box == line.glyph_boxes[run_ix]
        }),
{
    let target = (0int, 0int, -1int);
    let glyph = glyph_at(line, run_ix, glyph_ix);
    let index = glyph.index as int;
    let runs = line.decoration_runs;
    let (after, commands) = line.glyph_step(state, run_ix, glyph_ix);
    let moved = line.pen_moved(state, glyph, run_ix == 0 && glyph_ix == 0);
    let placed = line.at_glyph(state, run_ix, glyph_ix);
    let row = state.wraps_done as int;
    let wraps = line.wraps_at(row, run_ix, glyph_ix);
    lemma_strokes_placed(line, state, painted, run_ix, glyph_ix, last, target);
    lemma_strokes_step(line, state, painted, run_ix, glyph_ix, last, target);
    lemma_pen_step(line, row, state.glyph_origin, state.prev_x, run_ix, glyph_ix);
    assert(last <= index) by {
        assert(!reads_before(run_ix, glyph_ix, run_ix, glyph_ix));
    }
    // What ends with the row.
    let x = moved.glyph_origin.x;
    assert(opens_asked(line, moved, run_ix, glyph_ix));
    assert(strokes_ready(line, moved, last, run_ix, glyph_ix));
    assert(ends_at(line, x, row, run_ix, glyph_ix, line_first_x(line)));
    let row_end = if wraps {
        line.row_end_commands(moved)
    } else {
        Seq::empty()
    };
    let row_empties = (
        moved.underline is Some && x.spec_same(moved.underline->Some_0.origin.x),
        moved.strikethrough is Some && x.spec_same(moved.strikethrough->Some_0.origin.x),
    );
    lemma_ends_asked(line, moved, x, (wraps, wraps), row_empties, last, run_ix, glyph_ix);
    assert(all_asked(line, row_end));
    // What ends with the style.
    let style_end = if glyph.index >= placed.run_end {
        line.restyle_commands(placed, glyph.index)
    } else {
        Seq::empty()
    };
    let here = placed.glyph_origin.x;
    let empties = (
        placed.underline is Some && placed.underline->Some_0.origin.x.spec_same(here),
        placed.strikethrough is Some && placed.strikethrough->Some_0.origin.x.spec_same(here),
    );
    if !wraps {
        assert(placed.wraps_done == row);
        assert(opens_asked(line, placed, run_ix, glyph_ix));
        assert(strokes_ready(line, placed, last, run_ix, glyph_ix));
        assert(ends_at(line, here, row, run_ix, glyph_ix, line_first_x(line)));
        let done = placed.decorations_done as int;
        let (next, start, found) = find_decoration(runs, done, placed.run_end as int, index);
        let restyles = glyph.index >= placed.run_end;
        let ends = (
            restyles && placed.underline is Some && !(found is Some && continues_underline(
                found->Some_0.underline,
                placed.underline->Some_0.style,
            )),
            restyles && placed.strikethrough is Some && !(found is Some
                && continues_strikethrough(
                found->Some_0.strikethrough,
                placed.strikethrough->Some_0.style,
            )),
        );
        if ends.0 || ends.1 {
            lemma_bytes_before(runs, 0, runs.len() as int);
            lemma_bytes_before(runs, done, runs.len() as int);
            assert(bytes_before(runs, 0) == 0);
            lemma_find(runs, done, placed.run_end as int, index);
            assert forall|d: int| #[trigger] covers(runs, d, index) implies found is Some
                && found->Some_0 == runs[d] by {
                lemma_bytes_before(runs, d + 1, runs.len() as int);
                if found is Some {
                    lemma_one_cover(runs, next - 1, d, index);
                }
            }
        }
        lemma_ends_asked(line, placed, here, ends, empties, last, run_ix, glyph_ix);
    }
    assert(all_asked(line, style_end));
    // What is open behind the glyph.
    let done = after.decorations_done as int;
    assert(strokes_ready(line, after, index, run_ix, glyph_ix + 1));
    assert(after.wraps_done == placed.wraps_done);
    let new_row = placed.wraps_done as int;
    if after.underline is Some {
        assert(covers(runs, done - 1, index));
        assert(asks_underline::<F>()(runs[done - 1]));
        assert(is_asked(line, run_ix, glyph_ix, asks_underline()));
        lemma_span_goes_on(
            line,
            after.underline->Some_0.origin.x,
            new_row,
            run_ix,
            glyph_ix,
            asks_underline(),
        );
    }
    if after.strikethrough is Some {
        assert(covers(runs, done - 1, index));
        assert(asks_strike::<F>()(runs[done - 1]));
        assert(is_asked(line, run_ix, glyph_ix, asks_strike()));
        lemma_span_goes_on(
            line,
            after.strikethrough->Some_0.origin.x,
            new_row,
            run_ix,
            glyph_ix,
            asks_strike(),
        );
    }
    let own = line.glyph_commands(after, line.layout.runs[run_ix].font_id, glyph);
    assert(all_asked(line, own));
    assert(commands == row_end + style_end + own);
    let all = painted + commands;
    assert forall|i: int| 0 <= i < all.len() implies is_asked_stroke(line, #[trigger] all[i]) by {
        let n = painted.len() as int;
        let m = n + row_end.len();
        let k = m + style_end.len();
        if i < n {
            assert(all[i] == painted[i]);
        } else if i < m {
            assert(all[i] == row_end[i - n]);
        } else if i < k {
            assert(all[i] == style_end[i - m]);
        } else {
            assert(all[i] == own[i - k]);
        }
    }
}

proof fn lemma_asked_run<F: Scalar>(
    line: TextLineModel<F>,
    state: LineState<F>,
    painted: Seq<PaintCommand<F>>,
    run_ix: int,
    count: nat,
    last: int,
)
    requires
        line.wf(),
        line.decoration_runs.len() <= usize::MAX,
        in_reading_order(line.wrap_boundaries),
        bytes_in_order(line),
        steps_add_up::<F>(),
        sums_commute::<F>(),
        0 <= run_ix < line.layout.runs.len(),
        count <= line.layout.runs[run_ix].glyphs.len(),
        painting_strokes(line, state, painted, run_ix, 0, last, (0, 0, -1)),
        opens_asked(line, state, run_ix, 0),
        all_asked(line, painted),
    ensures
        ({
            let (after, commands) = line.run_step(state, run_ix, count);
            &&& opens_asked(line, after, run_ix, count as int)
            &&& all_asked(line, painted + commands)
            &&& after.glyph_box == line.glyph_boxes[run_ix]
        }),
    decreases count,
{
    if count > 0 {
        let k = (count - 1) as nat;
        lemma_asked_run(line, state, painted, run_ix, k, last);
        let middle = lemma_strokes_run(line, state, painted, run_ix, k, last, (0, 0, -1));
        let (before, done) = line.run_step(state, run_ix, k);
        lemma_asked_step(line, before, painted + done, run_ix, k as int, middle);
        let (after, commands) = line.glyph_step(before, run_ix, k as int);
        assert(painted + done + commands =~= painted + (done + commands));
    } else {
        assert(painted + Seq::<PaintCommand<F>>::empty() =~= painted);
    }
}

/// A stroke that is open behind the last glyph of a run is open before the next run.
pub proof fn lemma_span_next_run<F: Scalar>(
    line: TextLineModel<F>,
    x: F,
    row: int,
    run_ix: int,
    asks: spec_fn(DecorationRun<F>) -> bool,
)
    requires
        0 <= run_ix < line.layout.runs.len(),
        open_span(
            line,
            x,
            row,
            run_ix,
            line.layout.runs[run_ix].glyphs.len() as int,
            asks,
        ),
    ensures
        open_span(line, x, row, run_ix + 1, 0, asks),
{
    let n = line.layout.runs[run_ix].glyphs.len() as int;
    let (ar, ag) = choose|ar: int, ag: int| #[trigger]
        begins_at(line, x, row, ar, ag) && asked_between(line, ar, ag, run_ix, n, row, asks);
    assert forall|r: int, g: int|
        #[trigger] has_glyph(line, r, g) && !reads_before(r, g, ar, ag) && reads_before(
            r,
            g,
            run_ix + 1,
            0,
        ) implies row_of(line, r, g) == row && is_asked(line, r, g, asks) by {
        assert(reads_before(r, g, run_ix, n));
    }
    assert(asked_between(line, ar, ag, run_ix + 1, 0, row, asks));
    assert(begins_at(line, x, row, ar, ag));
}

proof fn lemma_asked_line<F: Scalar>(line: TextLineModel<F>, count: nat)
    requires
        line.wf(),
        line.decoration_runs.len() <= usize::MAX,
        in_reading_order(line.wrap_boundaries),
        bytes_in_order(line),
        steps_add_up::<F>(),
        sums_commute::<F>(),
        count <= line.layout.runs.len(),
    ensures
        ({
            let (after, painted) = line.line_step(count);
            &&& opens_asked(line, after, count as int, 0)
            &&& all_asked(line, painted)
            &&& count > 0 ==> after.glyph_box == line.glyph_boxes[count - 1]
        }),
    decreases count,
{
    if count > 0 {
        let k = (count - 1) as nat;
        lemma_asked_line(line, k);
        let first = lemma_strokes_line(line, k, (0, 0, -1));
        let (before, painted) = line.line_step(k);
        let n = line.layout.runs[k as int].glyphs.len();
        lemma_asked_run(line, before, painted, k as int, n, first);
        let (after, commands) = line.run_step(before, k as int, n);
        let row = after.wraps_done as int;
        if after.underline is Some {
            lemma_span_next_run(
                line,
                after.underline->Some_0.origin.x,
                row,
                k as int,
                asks_underline(),
            );
        }
        if after.strikethrough is Some {
            lemma_span_next_run(
                line,
                after.strikethrough->Some_0.origin.x,
                row,
                k as int,
                asks_strike(),
            );
        }
    }
}

/// Every stroke that is painted was asked for: it runs past glyphs of one row, each covered
/// by a decoration that asks for such a stroke, at the height that strokes have on the row;
/// it begins at the first of them, or at the line's left where it goes on from the row above,
/// and ends where the glyph behind them would be on the row, or with the line; one that would
/// have no width is drawn from half a glyph before its start. Its style is that of a
/// decoration, and where the glyph behind it is on the same row, no decoration of that one
/// goes on with the style.
pub proof fn law_strokes_are_asked_for<F: Scalar>(line: TextLineModel<F>, i: int)
    requires
        line.wf(),
        line.decoration_runs.len() <= usize::MAX,
        in_reading_order(line.wrap_boundaries),
        bytes_in_order(line),
        steps_add_up::<F>(),
        sums_commute::<F>(),
        0 <= i < line.commands().len(),
    ensures
        is_asked_stroke(line, line.commands()[i]),
{
    let n = line.layout.runs.len();
    lemma_asked_line(line, n);
    let last = lemma_strokes_line(line, n, (0, 0, -1));
    let (state, painted) = line.line_step(n);
    let end = line.line_end_commands(state);
    let x = line.last_row_end(state.first_glyph_x);
    assert(has_glyph(line, 0, 0) ==> reads_before(0, 0, n as int, 0));
    assert(x == line_last_x(line, line_first_x(line)));
    let row = state.wraps_done as int;
    assert(ends_at(line, x, row, n as int, 0, line_first_x(line)));
    let empties = (
        state.underline is Some && x.spec_same(state.underline->Some_0.origin.x),
        state.strikethrough is Some && x.spec_same(state.strikethrough->Some_0.origin.x),
    );
    lemma_ends_asked(line, state, x, (true, true), empties, last, n as int, 0);
    assert(line.commands() == painted + end);
    if i < painted.len() {
        assert(line.commands()[i] == painted[i]);
    } else {
        assert(line.commands()[i] == end[i - painted.len()]);
    }
}

/// The underlines among some commands: where each begins, and how wide it is.
pub open spec fn underlines_of<F>(commands: Seq<PaintCommand<F>>) -> Seq<(Point<F>, F)>
    decreases commands.len(),
{
    if commands.len() == 0 {
        Seq::empty()
    } else {
        let rest = underlines_of(commands.drop_last());
        match commands.last() {
            PaintCommand::Underline { range, origin, width, style } => rest.push((origin, width)),
            _ => rest,
        }
    }
}

/// The strikethroughs among some commands: where each begins, and how wide it is.
pub open spec fn strikes_of<F>(commands: Seq<PaintCommand<F>>) -> Seq<(Point<F>, F)>
    decreases commands.len(),
{
    if commands.len() == 0 {
        Seq::empty()
    } else {
        let rest = strikes_of(commands.drop_last());
        match commands.last() {
            PaintCommand::Strikethrough { origin, width, style } => rest.push((origin, width)),
            _ => rest,
        }
    }
}

proof fn lemma_strokes_of_sum<F>(a: Seq<PaintCommand<F>>, b: Seq<PaintCommand<F>>)
    ensures
        underlines_of(a + b) == underlines_of(a) + underlines_of(b),
        strikes_of(a + b) == strikes_of(a) + strikes_of(b),
    decreases b.len(),
{
    if b.len() == 0 {
        assert(a + b =~= a);
        assert(underlines_of(a) + underlines_of(b) =~= underlines_of(a));
        assert(strikes_of(a) + strikes_of(b) =~= strikes_of(a));
    } else {
        lemma_strokes_of_sum(a, b.drop_last());
        assert((a + b).drop_last() =~= a + b.drop_last());
        assert((a + b).last() == b.last());
        assert(underlines_of(a + b) =~= underlines_of(a) + underlines_of(b));
        assert(strikes_of(a + b) =~= strikes_of(a) + strikes_of(b));
    }
}

proof fn lemma_strokes_of_one<F>(command: PaintCommand<F>)
    ensures
        underlines_of(seq![command]) == match command {
            PaintCommand::Underline { range, origin, width, style } => seq![(origin, width)],
            _ => Seq::empty(),
        },
        strikes_of(seq![command]) == match command {
            PaintCommand::Strikethrough { origin, width, style } => seq![(origin, width)],
            _ => Seq::empty(),
        },
{
    let one = seq![command];
    assert(one.drop_last() =~= Seq::empty());
    assert(one.last() == command);
    assert(underlines_of(one.drop_last()) == Seq::<(Point<F>, F)>::empty());
    assert(strikes_of(one.drop_last()) == Seq::<(Point<F>, F)>::empty());
    assert(Seq::<(Point<F>, F)>::empty().push(underlines_of(one)[0]) =~= seq![
        underlines_of(one)[0],
    ]);
    assert(Seq::<(Point<F>, F)>::empty().push(strikes_of(one)[0]) =~= seq![strikes_of(one)[0]]);
}

/// Whether a stroke runs past the glyphs of `span`, which all ask for it, and past no others:
/// from its first glyph up to its second one and without that.
pub open spec fn runs_over<F: Scalar>(
    line: TextLineModel<F>,
    stroke: (Point<F>, F),
    span: (int, int, int, int),
    offset: F,
    asks: spec_fn(DecorationRun<F>) -> bool,
) -> bool {
    exists|row: int, start: F, end: F|
        asked_between(line, span.0, span.1, span.2, span.3, row, asks) && #[trigger] begins_at(
            line,
            start,
            row,
            span.0,
            span.1,
        ) && #[trigger] ends_at(
            line,
            end,
            row,
            span.2,
            span.3,
            line_first_x(line),
        ) && stroke.0.y == row_top(line, row).spec_plus(offset) && stroke.1 == end.spec_minus(
            stroke.0.x,
        ) && drawn_from(line, stroke.0.x, start, end, span.2)
}

/// Whether strokes run over spans of the line that lie one behind the other, none of them
/// reaching past a glyph.
pub open spec fn lie_apart<F: Scalar>(
    line: TextLineModel<F>,
    strokes: Seq<(Point<F>, F)>,
    spans: Seq<(int, int, int, int)>,
    offset: F,
    asks: spec_fn(DecorationRun<F>) -> bool,
    run_ix: int,
    glyph_ix: int,
) -> bool {
    &&& spans.len() == strokes.len()
    &&& forall|i: int|
        #![trigger spans[i]]
        0 <= i < spans.len() ==> runs_over(line, strokes[i], spans[i], offset, asks)
            && !reads_before(run_ix, glyph_ix, spans[i].2, spans[i].3)
    &&& forall|i: int, j: int|
        #![trigger spans[i], spans[j]]
        0 <= i < j < spans.len() ==> !reads_before(
            spans[j].0,
            spans[j].1,
            spans[i].2,
            spans[i].3,
        )
}

/// Whether what was painted lies apart, and apart from what is open.
spec fn kept_apart<F: Scalar>(
    line: TextLineModel<F>,
    strokes: Seq<(Point<F>, F)>,
    open: Option<F>,
    row: int,
    run_ix: int,
    glyph_ix: int,
    offset: F,
    asks: spec_fn(DecorationRun<F>) -> bool,
) -> bool {
    match open {
        Some(x) => exists|spans: Seq<(int, int, int, int)>, ar: int, ag: int| #[trigger]
            lie_apart(line, strokes, spans, offset, asks, ar, ag) && begins_at(
                line,
                x,
                row,
                ar,
                ag,
            ) && asked_between(line, ar, ag, run_ix, glyph_ix, row, asks),
        None => exists|spans: Seq<(int, int, int, int)>| #[trigger]
            lie_apart(line, strokes, spans, offset, asks, run_ix, glyph_ix),
    }
}

proof fn lemma_apart_closed<F: Scalar>(
    line: TextLineModel<F>,
    strokes: Seq<(Point<F>, F)>,
    start: Point<F>,
    end: F,
    empty: bool,
    glyph_width: F,
    row: int,
    run_ix: int,
    glyph_ix: int,
    offset: F,
    asks: spec_fn(DecorationRun<F>) -> bool,
)
    requires
        kept_apart(line, strokes, Some(start.x), row, run_ix, glyph_ix, offset, asks),
        ends_at(line, end, row, run_ix, glyph_ix, line_first_x(line)),
        line.layout.runs.len() > 0 ==> glyph_width == box_width(line, run_ix),
        start.y == row_top(line, row).spec_plus(offset),
        empty ==> start.x.spec_same(end) || end.spec_same(start.x),
        start.x.spec_same(end) && end.spec_same(start.x) ==> empty,
    ensures
        ({
            let origin = nudged(start, empty, glyph_width);
            kept_apart(
                line,
                strokes.push((origin, end.spec_minus(origin.x))),
                None,
                row,
                run_ix,
                glyph_ix,
                offset,
                asks,
            )
        }),
{
    let (spans, ar, ag) = choose|spans: Seq<(int, int, int, int)>, ar: int, ag: int| #[trigger]
        lie_apart(line, strokes, spans, offset, asks, ar, ag) && begins_at(
            line,
            start.x,
            row,
            ar,
            ag,
        ) && asked_between(line, ar, ag, run_ix, glyph_ix, row, asks);
    assert(has_glyph(line, ar, ag));
    let origin = nudged(start, empty, glyph_width);
    let stroke = (origin, end.spec_minus(origin.x));
    let span = (ar, ag, run_ix, glyph_ix);
    let all = spans.push(span);
    assert(runs_over(line, stroke, span, offset, asks)) by {
        assert(begins_at(line, start.x, row, span.0, span.1));
        assert(ends_at(line, end, row, span.2, span.3, line_first_x(line)));
    }
    assert forall|i: int|
        #![trigger all[i]]
        0 <= i < all.len() implies runs_over(line, strokes.push(stroke)[i], all[i], offset, asks)
        && !reads_before(run_ix, glyph_ix, all[i].2, all[i].3) by {
        if i < spans.len() {
            assert(all[i] == spans[i]);
        }
    }
    assert forall|i: int, j: int|
        #![trigger all[i], all[j]]
        0 <= i < j < all.len() implies !reads_before(
        all[j].0,
        all[j].1,
        all[i].2,
        all[i].3,
    ) by {
        assert(all[i] == spans[i]);
        if j < spans.len() {
            assert(all[j] == spans[j]);
        }
    }
    assert(lie_apart(line, strokes.push(stroke), all, offset, asks, run_ix, glyph_ix));
}

proof fn lemma_apart_moved<F: Scalar>(
    line: TextLineModel<F>,
    strokes: Seq<(Point<F>, F)>,
    spans: Seq<(int, int, int, int)>,
    run_a: int,
    glyph_a: int,
    run_b: int,
    glyph_b: int,
    offset: F,
    asks: spec_fn(DecorationRun<F>) -> bool,
)
    requires
        lie_apart(line, strokes, spans, offset, asks, run_a, glyph_a),
        !reads_before(run_b, glyph_b, run_a, glyph_a),
    ensures
        lie_apart(line, strokes, spans, offset, asks, run_b, glyph_b),
{
    assert forall|i: int|
        #![trigger spans[i]]
        0 <= i < spans.len() implies runs_over(line, strokes[i], spans[i], offset, asks)
        && !reads_before(run_b, glyph_b, spans[i].2, spans[i].3) by {}
}

/// Moving on behind a glyph: what is open goes on, if the glyph asks for it, or begins there.
proof fn lemma_apart_step<F: Scalar>(
    line: TextLineModel<F>,
    strokes: Seq<(Point<F>, F)>,
    before: Option<F>,
    after: Option<F>,
    row: int,
    run_ix: int,
    glyph_ix: int,
    offset: F,
    asks: spec_fn(DecorationRun<F>) -> bool,
)
    requires
        has_glyph(line, run_ix, glyph_ix),
        row == row_of(line, run_ix, glyph_ix),
        kept_apart(line, strokes, before, row, run_ix, glyph_ix, offset, asks),
        after is Some ==> is_asked(line, run_ix, glyph_ix, asks),
        after is Some && before is Some ==> after == before,
        after is Some && before is None ==> begins_at(line, after->Some_0, row, run_ix, glyph_ix),
        after is None ==> before is None,
    ensures
        kept_apart(line, strokes, after, row, run_ix, glyph_ix + 1, offset, asks),
{
    if after is Some {
        let x = after->Some_0;
        if before is Some {
            let (spans, ar, ag) = choose|spans: Seq<(int, int, int, int)>, ar: int, ag: int|
                #[trigger]
                lie_apart(line, strokes, spans, offset, asks, ar, ag) && begins_at(
                    line,
                    x,
                    row,
                    ar,
                    ag,
                ) && asked_between(line, ar, ag, run_ix, glyph_ix, row, asks);
            assert forall|r: int, g: int|
                #[trigger] has_glyph(line, r, g) && !reads_before(r, g, ar, ag) && reads_before(
                    r,
                    g,
                    run_ix,
                    glyph_ix + 1,
                ) implies row_of(line, r, g) == row && is_asked(line, r, g, asks) by {
                if !reads_before(r, g, run_ix, glyph_ix) {
                    assert(r == run_ix && g == glyph_ix);
                }
            }
            assert(lie_apart(line, strokes, spans, offset, asks, ar, ag));
        } else {
            let spans = choose|spans: Seq<(int, int, int, int)>| #[trigger]
                lie_apart(line, strokes, spans, offset, asks, run_ix, glyph_ix);
            assert forall|r: int, g: int|
                #[trigger] has_glyph(line, r, g) && !reads_before(
                    r,
                    g,
                    run_ix,
                    glyph_ix,
                ) && reads_before(r, g, run_ix, glyph_ix + 1) implies row_of(line, r, g) == row
                && is_asked(line, r, g, asks) by {
                assert(r == run_ix && g == glyph_ix);
            }
            assert(lie_apart(line, strokes, spans, offset, asks, run_ix, glyph_ix));
        }
    } else {
        let spans = choose|spans: Seq<(int, int, int, int)>| #[trigger]
            lie_apart(line, strokes, spans, offset, asks, run_ix, glyph_ix);
        lemma_apart_moved(
            line,
            strokes,
            spans,
            run_ix,
            glyph_ix,
            run_ix,
            glyph_ix + 1,
            offset,
            asks,
        );
    }
}

proof fn lemma_apart_next_run<F: Scalar>(
    line: TextLineModel<F>,
    strokes: Seq<(Point<F>, F)>,
    open: Option<F>,
    row: int,
    run_ix: int,
    offset: F,
    asks: spec_fn(DecorationRun<F>) -> bool,
)
    requires
        0 <= run_ix < line.layout.runs.len(),
        kept_apart(
            line,
            strokes,
            open,
            row,
            run_ix,
            line.layout.runs[run_ix].glyphs.len() as int,
            offset,
            asks,
        ),
    ensures
        kept_apart(line, strokes, open, row, run_ix + 1, 0, offset, asks),
{
    let n = line.layout.runs[run_ix].glyphs.len() as int;
    if open is Some {
        let x = open->Some_0;
        let (spans, ar, ag) = choose|spans: Seq<(int, int, int, int)>, ar: int, ag: int| #[trigger]
            lie_apart(line, strokes, spans, offset, asks, ar, ag) && begins_at(
                line,
                x,
                row,
                ar,
                ag,
            ) && asked_between(line, ar, ag, run_ix, n, row, asks);
        assert forall|r: int, g: int|
            #[trigger] has_glyph(line, r, g) && !reads_before(r, g, ar, ag) && reads_before(
                r,
                g,
                run_ix + 1,
                0,
            ) implies row_of(line, r, g) == row && is_asked(line, r, g, asks) by {
            assert(reads_before(r, g, run_ix, n));
        }
        assert(lie_apart(line, strokes, spans, offset, asks, ar, ag));
    } else {
        let spans = choose|spans: Seq<(int, int, int, int)>| #[trigger]
            lie_apart(line, strokes, spans, offset, asks, run_ix, n);
        lemma_apart_moved(line, strokes, spans, run_ix, n, run_ix + 1, 0, offset, asks);
    }
}

spec fn underline_x<F: Scalar>(state: LineState<F>) -> Option<F> {
    match state.underline {
        Some(open) => Some(open.origin.x),
        None => None,
    }
}

spec fn strike_x<F: Scalar>(state: LineState<F>) -> Option<F> {
    match state.strikethrough {
        Some(open) => Some(open.origin.x),
        None => None,
    }
}

spec fn all_apart<F: Scalar>(
    line: TextLineModel<F>,
    state: LineState<F>,
    painted: Seq<PaintCommand<F>>,
    run_ix: int,
    glyph_ix: int,
) -> bool {
    let row = state.wraps_done as int;
    &&& kept_apart(
        line,
        underlines_of(painted),
        underline_x(state),
        row,
        run_ix,
        glyph_ix,
        line.underline_y_offset,
        asks_underline(),
    )
    &&& kept_apart(
        line,
        strikes_of(painted),
        strike_x(state),
        row,
        run_ix,
        glyph_ix,
        strike_offset(line),
        asks_strike(),
    )
}

/// What ends at `end`, of what is open: the underline where the first flag is set, and the
/// strikethrough where the second one is.
spec fn closed<F: Scalar>(state: LineState<F>, ends: (bool, bool)) -> LineState<F> {
    LineState {
        underline: if ends.0 {
            None
        } else {
            state.underline
        },
        strikethrough: if ends.1 {
            None
        } else {
            state.strikethrough
        },
        ..state
    }
}

proof fn lemma_ends_apart<F: Scalar>(
    line: TextLineModel<F>,
    state: LineState<F>,
    painted: Seq<PaintCommand<F>>,
    end: F,
    ends: (bool, bool),
    empties: (bool, bool),
    last: int,
    er: int,
    eg: int,
    more: Seq<PaintCommand<F>>,
)
    requires
        all_apart(line, state, painted, er, eg),
        strokes_ready(line, state, last, er, eg),
        ends_at(line, end, state.wraps_done as int, er, eg, line_first_x(line)),
        line.layout.runs.len() > 0 ==> state.glyph_box.size.width == box_width(line, er),
        state.underline is Some ==> {
            let x = state.underline->Some_0.origin.x;
            &&& x.spec_same(end) && end.spec_same(x) ==> empties.0
            &&& empties.0 ==> x.spec_same(end) || end.spec_same(x)
        },
        state.strikethrough is Some ==> {
            let x = state.strikethrough->Some_0.origin.x;
            &&& x.spec_same(end) && end.spec_same(x) ==> empties.1
            &&& empties.1 ==> x.spec_same(end) || end.spec_same(x)
        },
        more == (if state.underline is Some && ends.0 {
            seq![
                underline_command(
                    state.underline->Some_0,
                    end,
                    empties.0,
                    state.glyph_box.size.width,
                ),
            ]
        } else {
            Seq::empty()
        }) + (if state.strikethrough is Some && ends.1 {
            seq![
                strikethrough_command(
                    state.strikethrough->Some_0,
                    end,
                    empties.1,
                    state.glyph_box.size.width,
                ),
            ]
        } else {
            Seq::empty()
        }),
    ensures
        all_apart(line, closed(state, ends), painted + more, er, eg),
{
    let width = state.glyph_box.size.width;
    let row = state.wraps_done as int;
    let none = Seq::<PaintCommand<F>>::empty();
    let first = if state.underline is Some && ends.0 {
        seq![underline_command(state.underline->Some_0, end, empties.0, width)]
    } else {
        none
    };
    let second = if state.strikethrough is Some && ends.1 {
        seq![strikethrough_command(state.strikethrough->Some_0, end, empties.1, width)]
    } else {
        none
    };
    lemma_strokes_of_sum(painted, more);
    lemma_strokes_of_sum(first, second);
    if state.underline is Some && ends.0 {
        let open = state.underline->Some_0;
        lemma_strokes_of_one(underline_command(open, end, empties.0, width));
        lemma_apart_closed(
            line,
            underlines_of(painted),
            open.origin,
            end,
            empties.0,
            width,
            row,
            er,
            eg,
            line.underline_y_offset,
            asks_underline(),
        );
        let origin = nudged(open.origin, empties.0, width);
        assert(underlines_of(first) == seq![(origin, end.spec_minus(origin.x))]);
        assert(strikes_of(first) == Seq::<(Point<F>, F)>::empty());
    }
    if state.strikethrough is Some && ends.1 {
        let open = state.strikethrough->Some_0;
        lemma_strokes_of_one(strikethrough_command(open, end, empties.1, width));
        lemma_apart_closed(
            line,
            strikes_of(painted),
            open.origin,
            end,
            empties.1,
            width,
            row,
            er,
            eg,
            strike_offset(line),
            asks_strike(),
        );
        let origin = nudged(open.origin, empties.1, width);
        assert(strikes_of(second) == seq![(origin, end.spec_minus(origin.x))]);
        assert(underlines_of(second) == Seq::<(Point<F>, F)>::empty());
    }
    let under = underlines_of(painted);
    let struck = strikes_of(painted);
    assert(underlines_of(painted + more) =~= if state.underline is Some && ends.0 {
        let origin = nudged(state.underline->Some_0.origin, empties.0, width);
        under.push((origin, end.spec_minus(origin.x)))
    } else {
        under
    });
    assert(strikes_of(painted + more) =~= if state.strikethrough is Some && ends.1 {
        let origin = nudged(state.strikethrough->Some_0.origin, empties.1, width);
        struck.push((origin, end.spec_minus(origin.x)))
    } else {
        struck
    });
}

proof fn lemma_apart_glyph<F: Scalar>(
    line: TextLineModel<F>,
    state: LineState<F>,
    painted: Seq<PaintCommand<F>>,
    run_ix: int,
    glyph_ix: int,
    last: int,
)
    requires
        line.wf(),
        line.decoration_runs.len() <= usize::MAX,
        in_reading_order(line.wrap_boundaries),
        bytes_in_order(line),
        steps_add_up::<F>(),
        sums_commute::<F>(),
        has_glyph(line, run_ix, glyph_ix),
        painting_strokes(line, state, painted, run_ix, glyph_ix, last, (0, 0, -1)),
        state.glyph_box == line.glyph_boxes[run_ix],
        all_apart(line, state, painted, run_ix, glyph_ix),
    ensures
        ({
            let (after, commands) = line.glyph_step(state, run_ix, glyph_ix);
            &&& all_apart(line, after, painted + commands, run_ix, glyph_ix + 1)
            &&& after.glyph_box == line.glyph_boxes[run_ix]
        }),
{
    let target = (0int, 0int, -1int);
    let glyph = glyph_at(line, run_ix, glyph_ix);
    let index = glyph.index as int;
    let runs = line.decoration_runs;
    let none = Seq::<PaintCommand<F>>::empty();
    let (after, commands) = line.glyph_step(state, run_ix, glyph_ix);
    let moved = line.pen_moved(state, glyph, run_ix == 0 && glyph_ix == 0);
    let placed = line.at_glyph(state, run_ix, glyph_ix);
    let row = state.wraps_done as int;
    let wraps = line.wraps_at(row, run_ix, glyph_ix);
    lemma_strokes_placed(line, state, painted, run_ix, glyph_ix, last, target);
    lemma_strokes_step(line, state, painted, run_ix, glyph_ix, last, target);
    lemma_pen_step(line, row, state.glyph_origin, state.prev_x, run_ix, glyph_ix);
    // What ends with the row.
    let x = moved.glyph_origin.x;
    let row_end = if wraps {
        line.row_end_commands(moved)
    } else {
        none
    };
    let row_empties = (
        moved.underline is Some && x.spec_same(moved.underline->Some_0.origin.x),
        moved.strikethrough is Some && x.spec_same(moved.strikethrough->Some_0.origin.x),
    );
    assert(all_apart(line, moved, painted, run_ix, glyph_ix));
    assert(strokes_ready(line, moved, last, run_ix, glyph_ix));
    assert(ends_at(line, x, row, run_ix, glyph_ix, line_first_x(line)));
    assert(none + none =~= none);
    lemma_ends_apart(
        line,
        moved,
        painted,
        x,
        (wraps, wraps),
        row_empties,
        last,
        run_ix,
        glyph_ix,
        row_end,
    );
    let rowed = closed(moved, (wraps, wraps));
    // What ends with the style.
    let restyles = glyph.index >= placed.run_end;
    let style_end = if restyles {
        line.restyle_commands(placed, glyph.index)
    } else {
        none
    };
    let found = find_decoration(
        runs,
        placed.decorations_done as int,
        placed.run_end as int,
        index,
    ).2;
    let here = placed.glyph_origin.x;
    let new_row = placed.wraps_done as int;
    let empties = (
        placed.underline is Some && placed.underline->Some_0.origin.x.spec_same(here),
        placed.strikethrough is Some && placed.strikethrough->Some_0.origin.x.spec_same(here),
    );
    let ends = (
        restyles && placed.underline is Some && !(found is Some && continues_underline(
            found->Some_0.underline,
            placed.underline->Some_0.style,
        )),
        restyles && placed.strikethrough is Some && !(found is Some && continues_strikethrough(
            found->Some_0.strikethrough,
            placed.strikethrough->Some_0.style,
        )),
    );
    let so_far = painted + row_end + style_end;
    if wraps {
        if restyles {
            assert(style_end =~= none);
        }
        assert(so_far =~= painted + row_end);
        assert(!ends.0 && !ends.1);
    } else {
        assert(painted + row_end =~= painted);
        assert(so_far =~= painted + style_end);
        assert(strokes_ready(line, placed, last, run_ix, glyph_ix));
        assert(all_apart(line, placed, painted, run_ix, glyph_ix));
        assert(ends_at(line, here, row, run_ix, glyph_ix, line_first_x(line)));
        lemma_ends_apart(
            line,
            placed,
            painted,
            here,
            ends,
            empties,
            last,
            run_ix,
            glyph_ix,
            style_end,
        );
    }
    let ended = if wraps {
        rowed
    } else {
        closed(placed, ends)
    };
    // What is open behind the glyph.
    let done = after.decorations_done as int;
    assert(strokes_ready(line, after, index, run_ix, glyph_ix + 1));
    if after.underline is Some {
        assert(covers(runs, done - 1, index));
        assert(asks_underline::<F>()(runs[done - 1]));
        assert(is_asked(line, run_ix, glyph_ix, asks_underline()));
    }
    if after.strikethrough is Some {
        assert(covers(runs, done - 1, index));
        assert(asks_strike::<F>()(runs[done - 1]));
        assert(is_asked(line, run_ix, glyph_ix, asks_strike()));
    }
    let own = line.glyph_commands(after, line.layout.runs[run_ix].font_id, glyph);
    assert(painted + commands =~= so_far + own);
    lemma_strokes_of_sum(so_far, own);
    if own.len() > 0 {
        lemma_strokes_of_one(own[0]);
        assert(own =~= seq![own[0]]);
    }
    assert(underlines_of(so_far + own) =~= underlines_of(so_far));
    assert(strikes_of(so_far + own) =~= strikes_of(so_far));
    assert(kept_apart(
        line,
        underlines_of(so_far),
        underline_x(ended),
        new_row,
        run_ix,
        glyph_ix,
        line.underline_y_offset,
        asks_underline(),
    ));
    assert(kept_apart(
        line,
        strikes_of(so_far),
        strike_x(ended),
        new_row,
        run_ix,
        glyph_ix,
        strike_offset(line),
        asks_strike(),
    ));
    lemma_apart_step(
        line,
        underlines_of(so_far),
        underline_x(ended),
        underline_x(after),
        new_row,
        run_ix,
        glyph_ix,
        line.underline_y_offset,
        asks_underline(),
    );
    lemma_apart_step(
        line,
        strikes_of(so_far),
        strike_x(ended),
        strike_x(after),
        new_row,
        run_ix,
        glyph_ix,
        strike_offset(line),
        asks_strike(),
    );
}

proof fn lemma_apart_run<F: Scalar>(
    line: TextLineModel<F>,
    state: LineState<F>,
    painted: Seq<PaintCommand<F>>,
    run_ix: int,
    count: nat,
    last: int,
)
    requires
        line.wf(),
        line.decoration_runs.len() <= usize::MAX,
        in_reading_order(line.wrap_boundaries),
        bytes_in_order(line),
        steps_add_up::<F>(),
        sums_commute::<F>(),
        0 <= run_ix < line.layout.runs.len(),
        count <= line.layout.runs[run_ix].glyphs.len(),
        painting_strokes(line, state, painted, run_ix, 0, last, (0, 0, -1)),
        all_apart(line, state, painted, run_ix, 0),
    ensures
        ({
            let (after, commands) = line.run_step(state, run_ix, count);
            &&& all_apart(line, after, painted + commands, run_ix, count as int)
            &&& after.glyph_box == line.glyph_boxes[run_ix]
        }),
    decreases count,
{
    if count > 0 {
        let k = (count - 1) as nat;
        lemma_apart_run(line, state, painted, run_ix, k, last);
        let middle = lemma_strokes_run(line, state, painted, run_ix, k, last, (0, 0, -1));
        let (before, done) = line.run_step(state, run_ix, k);
        lemma_apart_glyph(line, before, painted + done, run_ix, k as int, middle);
        let (after, commands) = line.glyph_step(before, run_ix, k as int);
        assert(painted + done + commands =~= painted + (done + commands));
    } else {
        assert(painted + Seq::<PaintCommand<F>>::empty() =~= painted);
    }
}

proof fn lemma_apart_line<F: Scalar>(line: TextLineModel<F>, count: nat)
    requires
        line.wf(),
        line.decoration_runs.len() <= usize::MAX,
        in_reading_order(line.wrap_boundaries),
        bytes_in_order(line),
        steps_add_up::<F>(),
        sums_commute::<F>(),
        count <= line.layout.runs.len(),
    ensures
        ({
            let (after, painted) = line.line_step(count);
            &&& all_apart(line, after, painted, count as int, 0)
            &&& count > 0 ==> after.glyph_box == line.glyph_boxes[count - 1]
        }),
    decreases count,
{
    if count > 0 {
        let k = (count - 1) as nat;
        lemma_apart_line(line, k);
        let first = lemma_strokes_line(line, k, (0, 0, -1));
        let (before, painted) = line.line_step(k);
        let n = line.layout.runs[k as int].glyphs.len();
        lemma_apart_run(line, before, painted, k as int, n, first);
        let (after, commands) = line.run_step(before, k as int, n);
        let row = after.wraps_done as int;
        lemma_apart_next_run(
            line,
            underlines_of(painted + commands),
            underline_x(after),
            row,
            k as int,
            line.underline_y_offset,
            asks_underline(),
        );
        lemma_apart_next_run(
            line,
            strikes_of(painted + commands),
            strike_x(after),
            row,
            k as int,
            strike_offset(line),
            asks_strike(),
        );
    } else {
        let none = Seq::<(int, int, int, int)>::empty();
        let strokes = Seq::<(Point<F>, F)>::empty();
        assert(lie_apart(
            line,
            strokes,
            none,
            line.underline_y_offset,
            asks_underline(),
            0,
            0,
        ));
        assert(lie_apart(line, strokes, none, strike_offset(line), asks_strike(), 0, 0));
    }
}

/// No two underlines run past one glyph, and no two strikethroughs do: those that are painted
/// run over spans of the line that lie one behind the other.
pub proof fn law_strokes_lie_apart<F: Scalar>(line: TextLineModel<F>)
    requires
        line.wf(),
        line.decoration_runs.len() <= usize::MAX,
        in_reading_order(line.wrap_boundaries),
        bytes_in_order(line),
        steps_add_up::<F>(),
        sums_commute::<F>(),
    ensures
        exists|spans: Seq<(int, int, int, int)>| #[trigger]
            lie_apart(
                line,
                underlines_of(line.commands()),
                spans,
                line.underline_y_offset,
                asks_underline(),
                line.layout.runs.len() as int,
                0,
            ),
        exists|spans: Seq<(int, int, int, int)>| #[trigger]
            lie_apart(
                line,
                strikes_of(line.commands()),
                spans,
                strike_offset(line),
                asks_strike(),
                line.layout.runs.len() as int,
                0,
            ),
{
    let n = line.layout.runs.len();
    lemma_apart_line(line, n);
    let last = lemma_strokes_line(line, n, (0, 0, -1));
    let (state, painted) = line.line_step(n);
    let end = line.line_end_commands(state);
    let x = line.last_row_end(state.first_glyph_x);
    assert(has_glyph(line, 0, 0) ==> reads_before(0, 0, n as int, 0));
    assert(x == line_last_x(line, line_first_x(line)));
    assert(ends_at(line, x, state.wraps_done as int, n as int, 0, line_first_x(line)));
    let empties = (
        state.underline is Some && x.spec_same(state.underline->Some_0.origin.x),
        state.strikethrough is Some && x.spec_same(state.strikethrough->Some_0.origin.x),
    );
    lemma_ends_apart(line, state, painted, x, (true, true), empties, last, n as int, 0, end);
    assert(line.commands() == painted + end);
    assert(closed(state, (true, true)).underline is None);
    assert(closed(state, (true, true)).strikethrough is None);
}

} // verus!
