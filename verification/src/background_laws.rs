//! What backgrounds of text lie behind.
use vstd::prelude::*;

use crate::color::Hsla;
use crate::geometry::{Bounds, Size};
use crate::line::DecorationRun;
use crate::line_background::{continues_background, BackgroundState, OpenBackground};
use crate::line_paint::{find_decoration, nudged, PaintCommand, TextLineModel};
use crate::row_laws::{
    bytes_before, bytes_follow, bytes_in_order, covers, glyph_at, glyph_x, has_glyph,
    in_reading_order, lemma_bytes_before, lemma_find, lemma_one_cover, lemma_pen_next_run,
    lemma_pen_start, lemma_pen_step, pen_ready, reads_before, row_of, row_top, steps_add_up,
    x_on_row,
};
use crate::scalar::Scalar;
use crate::stroke_laws::{
    asked_between, begins_at, box_width, closed_behind, colors_alike, drawn_from, ends_at, is_asked,
    lemma_span_goes_on, lemma_span_next_run, line_last_x, open_span, opened_by, stops_before,
};

verus! {

/// Whether a color is that of the decoration at `d`: its own, or one that compares equal to it.
pub open spec fn background_of<F: Scalar>(line: TextLineModel<F>, color: Hsla<F>, d: int) -> bool {
    &&& line.decoration_runs[d].background_color is Some
    &&& {
        let own = line.decoration_runs[d].background_color->Some_0;
        ||| color == own
        ||| own.h.spec_same(color.h) && own.s.spec_same(color.s) && own.l.spec_same(color.l)
            && own.a.spec_same(color.a)
    }
}

/// Whether a command fills the row of a glyph behind it, in the color of the decoration at `d`:
/// from the glyph or before it to behind it, over the whole height of the row.
pub open spec fn fills_behind<F: Scalar>(
    line: TextLineModel<F>,
    command: PaintCommand<F>,
    run_ix: int,
    glyph_ix: int,
    d: int,
) -> bool {
    match command {
        PaintCommand::Quad { bounds, color } => {
            let row = row_of(line, run_ix, glyph_ix);
            &&& bounds.origin.y == row_top(line, row)
            &&& bounds.size.height == line.line_height
            &&& background_of(line, color, d)
            &&& exists|start: F, end: F| #[trigger]
                opened_by(line, start, row, run_ix, glyph_ix + 1) && #[trigger] closed_behind(
                    line,
                    end,
                    row,
                    run_ix,
                    glyph_ix,
                    line.origin.x,
                ) && (bounds.size.width == end.spec_minus(bounds.origin.x) && bounds.origin.x
                    == start || start.spec_same(end) || end.spec_same(start))
        },
        _ => false,
    }
}

/// Whether the background that is open lies behind a glyph of the row of the pen.
spec fn open_behind<F: Scalar>(
    line: TextLineModel<F>,
    state: BackgroundState<F>,
    run_ix: int,
    glyph_ix: int,
    d: int,
) -> bool {
    let row = row_of(line, run_ix, glyph_ix);
    &&& state.background is Some
    &&& state.wraps_done == row
    &&& state.background->Some_0.origin.y == row_top(line, row)
    &&& opened_by(line, state.background->Some_0.origin.x, row, run_ix, glyph_ix + 1)
    &&& background_of(line, state.background->Some_0.color, d)
}

/// Which decoration is in force behind a glyph that stands for byte `last`: the one that
/// covers it, none yet, or none any more.
spec fn in_force<F: Scalar>(
    line: TextLineModel<F>,
    decorations_done: int,
    run_end: int,
    last: int,
) -> bool {
    let runs = line.decoration_runs;
    &&& 0 <= decorations_done <= runs.len()
    &&& 0 <= last
    &&& {
        ||| decorations_done == 0 && run_end == 0
        ||| run_end == bytes_before(runs, decorations_done) && covers(
            runs,
            decorations_done - 1,
            last,
        )
        ||| decorations_done == runs.len() && bytes_before(runs, runs.len() as int) <= last
    }
}

/// Whether what is open is what the decoration in force asks for, on the row of the pen.
spec fn background_ready<F: Scalar>(
    line: TextLineModel<F>,
    state: BackgroundState<F>,
    last: int,
    run_ix: int,
    glyph_ix: int,
) -> bool {
    let runs = line.decoration_runs;
    let done = state.decorations_done as int;
    let row = state.wraps_done as int;
    &&& in_force(line, done, state.run_end as int, last)
    &&& state.background is Some ==> {
        let open = state.background->Some_0;
        &&& state.run_end == bytes_before(runs, done)
        &&& covers(runs, done - 1, last)
        &&& open.origin.y == row_top(line, row)
        &&& opened_by(line, open.origin.x, row, run_ix, glyph_ix)
        &&& background_of(line, open.color, done - 1)
    }
    &&& covers(runs, done - 1, last) && state.run_end == bytes_before(runs, done) && runs[done
        - 1].background_color is Some ==> state.background is Some
}

/// Whether a glyph has its background: it was painted, or is open.
spec fn backed<F: Scalar>(
    line: TextLineModel<F>,
    state: BackgroundState<F>,
    painted: Seq<PaintCommand<F>>,
    target: (int, int, int),
) -> bool {
    line.decoration_runs[target.2].background_color is Some ==> {
        ||| exists|i: int|
            0 <= i < painted.len() && fills_behind(
                line,
                #[trigger] painted[i],
                target.0,
                target.1,
                target.2,
            )
        ||| open_behind(line, state, target.0, target.1, target.2)
    }
}

spec fn watched<F: Scalar>(line: TextLineModel<F>, target: (int, int, int)) -> bool {
    &&& has_glyph(line, target.0, target.1)
    &&& covers(line.decoration_runs, target.2, glyph_at(line, target.0, target.1).index as int)
}

/// What holds of painting before a glyph.
spec fn painting_backgrounds<F: Scalar>(
    line: TextLineModel<F>,
    state: BackgroundState<F>,
    painted: Seq<PaintCommand<F>>,
    run_ix: int,
    glyph_ix: int,
    last: int,
    target: (int, int, int),
) -> bool {
    &&& pen_ready(
        line,
        state.wraps_done as int,
        state.glyph_origin,
        state.prev_x,
        run_ix,
        glyph_ix,
    )
    &&& bytes_follow(line, run_ix, glyph_ix, last)
    &&& background_ready(line, state, last, run_ix, glyph_ix)
    &&& watched(line, target) && reads_before(target.0, target.1, run_ix, glyph_ix) ==> backed(
        line,
        state,
        painted,
        target,
    )
}

proof fn lemma_opened_later<F: Scalar>(
    line: TextLineModel<F>,
    x: F,
    row: int,
    run_a: int,
    glyph_a: int,
    run_b: int,
    glyph_b: int,
)
    requires
        opened_by(line, x, row, run_a, glyph_a),
        !reads_before(run_b, glyph_b, run_a, glyph_a),
    ensures
        opened_by(line, x, row, run_b, glyph_b),
{
    if !(row >= 1 && x == line.origin.x) {
        let (run, glyph) = choose|run: int, glyph: int| #[trigger]
            has_glyph(line, run, glyph) && reads_before(run, glyph, run_a, glyph_a) && row_of(
                line,
                run,
                glyph,
            ) == row && x == glyph_x(line, run, glyph);
        assert(has_glyph(line, run, glyph) && reads_before(run, glyph, run_b, glyph_b));
    }
}

/// A glyph has its background however more is painted, as long as it does not end unpainted.
proof fn lemma_backed_kept<F: Scalar>(
    line: TextLineModel<F>,
    before: BackgroundState<F>,
    after: BackgroundState<F>,
    painted: Seq<PaintCommand<F>>,
    more: Seq<PaintCommand<F>>,
    target: (int, int, int),
)
    requires
        backed(line, before, painted, target),
        open_behind(line, before, target.0, target.1, target.2) ==> open_behind(
            line,
            after,
            target.0,
            target.1,
            target.2,
        ) || exists|i: int|
            0 <= i < more.len() && fills_behind(
                line,
                #[trigger] more[i],
                target.0,
                target.1,
                target.2,
            ),
    ensures
        backed(line, after, painted + more, target),
{
    let all = painted + more;
    let (r, g, d) = target;
    if line.decoration_runs[d].background_color is Some {
        if exists|i: int|
            0 <= i < painted.len() && fills_behind(line, #[trigger] painted[i], r, g, d) {
            let i = choose|i: int|
                0 <= i < painted.len() && fills_behind(line, #[trigger] painted[i], r, g, d);
            assert(all[i] == painted[i]);
        } else if !open_behind(line, after, r, g, d) {
            let i = choose|i: int|
                0 <= i < more.len() && fills_behind(line, #[trigger] more[i], r, g, d);
            assert(all[painted.len() + i] == more[i]);
        }
    }
}

/// Ending an open background paints it behind the glyphs that it lies behind.
proof fn lemma_ended<F: Scalar>(
    line: TextLineModel<F>,
    state: BackgroundState<F>,
    end: F,
    width: F,
    target: (int, int, int),
)
    requires
        open_behind(line, state, target.0, target.1, target.2),
        closed_behind(
            line,
            end,
            row_of(line, target.0, target.1),
            target.0,
            target.1,
            line.origin.x,
        ),
    ensures
        fills_behind(
            line,
            line.ended_background(state.background->Some_0, end, width),
            target.0,
            target.1,
            target.2,
        ),
{
    let row = row_of(line, target.0, target.1);
    assert(opened_by(
        line,
        state.background->Some_0.origin.x,
        row,
        target.0,
        target.1 + 1,
    ));
}

proof fn lemma_background_step<F: Scalar>(
    line: TextLineModel<F>,
    state: BackgroundState<F>,
    painted: Seq<PaintCommand<F>>,
    run_ix: int,
    glyph_ix: int,
    last: int,
    target: (int, int, int),
)
    requires
        line.wf(),
        line.decoration_runs.len() <= usize::MAX,
        in_reading_order(line.wrap_boundaries),
        bytes_in_order(line),
        steps_add_up::<F>(),
        has_glyph(line, run_ix, glyph_ix),
        painting_backgrounds(line, state, painted, run_ix, glyph_ix, last, target),
    ensures
        ({
            let (after, commands) = line.background_glyph_step(state, run_ix, glyph_ix);
            painting_backgrounds(
                line,
                after,
                painted + commands,
                run_ix,
                glyph_ix + 1,
                glyph_at(line, run_ix, glyph_ix).index as int,
                target,
            )
        }),
{
    let runs = line.decoration_runs;
    let (r, g, d) = target;
    let glyph = glyph_at(line, run_ix, glyph_ix);
    let index = glyph.index as int;
    let (after, commands) = line.background_glyph_step(state, run_ix, glyph_ix);
    let moved = line.background_pen_moved(state, glyph);
    let wraps = line.wraps_at(moved.wraps_done as int, run_ix, glyph_ix);
    let none = Seq::<PaintCommand<F>>::empty();
    let (rowed, row_end) = if wraps {
        (line.background_row_started(moved, glyph), line.background_row_end(moved))
    } else {
        (moved, none)
    };
    let placed = BackgroundState { prev_x: glyph.position.x, ..rowed };
    let style_end = if glyph.index >= placed.run_end {
        line.background_restyle_commands(placed, glyph.index)
    } else {
        none
    };
    let old_row = state.wraps_done as int;
    lemma_pen_step(line, old_row, state.glyph_origin, state.prev_x, run_ix, glyph_ix);
    assert(last <= index) by {
        assert(!reads_before(run_ix, glyph_ix, run_ix, glyph_ix));
    }
    let earlier = watched(line, target) && reads_before(r, g, run_ix, glyph_ix);
    let row = placed.wraps_done as int;
    assert(row == row_of(line, run_ix, glyph_ix));
    // The row.
    if wraps {
        if earlier {
            let x = moved.glyph_origin.x;
            assert(closed_behind(line, x, old_row, r, g, line.origin.x)) by {
                assert(has_glyph(line, run_ix, glyph_ix) && reads_before(r, g, run_ix, glyph_ix));
            }
            if open_behind(line, moved, r, g, d) {
                lemma_ended(line, moved, x, moved.glyph_width, target);
                assert(row_end[0] == line.ended_background(
                    moved.background->Some_0,
                    x,
                    moved.glyph_width,
                ));
                assert(fills_behind(line, row_end[0], r, g, d));
            }
            assert(backed(line, moved, painted, target));
            lemma_backed_kept(line, moved, placed, painted, row_end, target);
        }
        assert(row_top(line, old_row + 1) == row_top(line, old_row).spec_plus(line.line_height));
    } else {
        assert(painted + none =~= painted);
        if earlier {
            lemma_backed_kept(line, state, placed, painted, none, target);
        }
    }
    let ready = !wraps || glyph.index < placed.run_end;
    assert(ready ==> background_ready(line, placed, last, run_ix, glyph_ix));
    assert(!ready ==> placed.background is None);
    assert(in_force(line, placed.decorations_done as int, placed.run_end as int, last));
    // The decoration.
    let x = placed.glyph_origin.x;
    let done = placed.decorations_done as int;
    lemma_bytes_before(runs, 0, runs.len() as int);
    lemma_bytes_before(runs, done, runs.len() as int);
    if done > 0 {
        lemma_bytes_before(runs, done - 1, runs.len() as int);
    }
    assert(bytes_before(runs, 0) == 0);
    assert(opened_by(line, x, row, run_ix, glyph_ix + 1)) by {
        assert(has_glyph(line, run_ix, glyph_ix) && reads_before(
            run_ix,
            glyph_ix,
            run_ix,
            glyph_ix + 1,
        ));
    }
    if placed.background is Some {
        lemma_opened_later(
            line,
            placed.background->Some_0.origin.x,
            row,
            run_ix,
            glyph_ix,
            run_ix,
            glyph_ix + 1,
        );
    }
    if glyph.index >= placed.run_end {
        lemma_find(runs, done, placed.run_end as int, index);
        let (next, start, found) = find_decoration(runs, done, placed.run_end as int, index);
        if found is Some {
            lemma_bytes_before(runs, next, runs.len() as int);
        } else {
            assert(!covers(runs, after.decorations_done - 1, index));
        }
        assert(background_ready(line, after, index, run_ix, glyph_ix + 1));
        assert(runs.len() > 0 ==> after.decorations_done > 0);
        if earlier {
            assert(closed_behind(line, x, row, r, g, line.origin.x)) by {
                assert(has_glyph(line, run_ix, glyph_ix) && reads_before(r, g, run_ix, glyph_ix));
                assert(x == x_on_row(line, glyph.position.x, row));
            }
            if open_behind(line, placed, r, g, d) {
                let open = placed.background->Some_0;
                if found is Some && continues_background(
                    found->Some_0.background_color,
                    open.color,
                ) {
                    assert(open_behind(line, after, r, g, d));
                } else {
                    assert(opened_by(line, open.origin.x, row, r, g + 1));
                    assert(fills_behind(line, style_end[0], r, g, d));
                }
            }
            lemma_backed_kept(line, placed, after, painted + row_end, style_end, target);
        }
        assert(painted + row_end + style_end =~= painted + commands);
    } else {
        assert(after == placed);
        assert(background_ready(line, after, index, run_ix, glyph_ix + 1));
        assert(painted + commands =~= painted + row_end);
    }
    if !earlier && watched(line, target) && reads_before(r, g, run_ix, glyph_ix + 1) {
        assert(r == run_ix && g == glyph_ix);
        lemma_bytes_before(runs, d + 1, runs.len() as int);
        lemma_bytes_before(runs, 0, d);
        let now = after.decorations_done as int;
        if after.run_end == bytes_before(runs, now) && covers(runs, now - 1, index) {
            lemma_one_cover(runs, now - 1, d, index);
        } else {
            assert(now > 0);
            assert(bytes_before(runs, runs.len() as int) <= index);
        }
    }
    assert forall|run: int, h: int|
        has_glyph(line, run, h) && !reads_before(run, h, run_ix, glyph_ix + 1) implies index <= (
    #[trigger] glyph_at(line, run, h)).index by {
        assert(reads_before(run_ix, glyph_ix, run, h));
        assert(glyph_at(line, run_ix, glyph_ix).index == index);
    }
}

proof fn lemma_background_run<F: Scalar>(
    line: TextLineModel<F>,
    state: BackgroundState<F>,
    painted: Seq<PaintCommand<F>>,
    run_ix: int,
    count: nat,
    last: int,
    target: (int, int, int),
) -> (next: int)
    requires
        line.wf(),
        line.decoration_runs.len() <= usize::MAX,
        in_reading_order(line.wrap_boundaries),
        bytes_in_order(line),
        steps_add_up::<F>(),
        0 <= run_ix < line.layout.runs.len(),
        count <= line.layout.runs[run_ix].glyphs.len(),
        painting_backgrounds(line, state, painted, run_ix, 0, last, target),
    ensures
        ({
            let (after, commands) = line.background_run_step(state, run_ix, count);
            painting_backgrounds(
                line,
                after,
                painted + commands,
                run_ix,
                count as int,
                next,
                target,
            )
        }),
    decreases count,
{
    if count > 0 {
        let k = (count - 1) as nat;
        let middle = lemma_background_run(line, state, painted, run_ix, k, last, target);
        let (before, done) = line.background_run_step(state, run_ix, k);
        lemma_background_step(line, before, painted + done, run_ix, k as int, middle, target);
        let (after, commands) = line.background_glyph_step(before, run_ix, k as int);
        assert(painted + done + commands =~= painted + (done + commands));
        glyph_at(line, run_ix, k as int).index as int
    } else {
        let none = Seq::<PaintCommand<F>>::empty();
        assert(painted + none =~= painted);
        let boxed = line.background_run_step(state, run_ix, 0).0;
        if watched(line, target) && reads_before(target.0, target.1, run_ix, 0) {
            lemma_backed_kept(line, state, boxed, painted, none, target);
        }
        assert(background_ready(line, boxed, last, run_ix, 0));
        last
    }
}

proof fn lemma_background_line<F: Scalar>(
    line: TextLineModel<F>,
    count: nat,
    target: (int, int, int),
) -> (last: int)
    requires
        line.wf(),
        line.decoration_runs.len() <= usize::MAX,
        in_reading_order(line.wrap_boundaries),
        bytes_in_order(line),
        steps_add_up::<F>(),
        count <= line.layout.runs.len(),
    ensures
        ({
            let (after, painted) = line.background_line_step(count);
            painting_backgrounds(line, after, painted, count as int, 0, last, target)
        }),
    decreases count,
{
    if count > 0 {
        let k = (count - 1) as nat;
        let first = lemma_background_line(line, k, target);
        let (before, painted) = line.background_line_step(k);
        let n = line.layout.runs[k as int].glyphs.len();
        let last = lemma_background_run(line, before, painted, k as int, n, first, target);
        let (after, commands) = line.background_run_step(before, k as int, n);
        lemma_pen_next_run(
            line,
            after.wraps_done as int,
            after.glyph_origin,
            after.prev_x,
            k as int,
        );
        assert forall|run: int, g: int|
            has_glyph(line, run, g) && !reads_before(run, g, count as int, 0) implies last <= (
        #[trigger] glyph_at(line, run, g)).index by {
            assert(!reads_before(run, g, k as int, n as int));
        }
        if after.background is Some {
            lemma_opened_later(
                line,
                after.background->Some_0.origin.x,
                after.wraps_done as int,
                k as int,
                n as int,
                count as int,
                0,
            );
        }
        assert(background_ready(line, after, last, count as int, 0));
        last
    } else {
        lemma_pen_start(line);
        assert(bytes_follow(line, 0, 0, 0));
        assert(background_ready(line, line.background_start(), 0, 0, 0));
        0
    }
}

/// Every glyph whose byte a decoration with a background covers has that background behind it:
/// among the commands there is a rectangle of the decoration's color over the whole height of
/// the glyph's row, which starts at the glyph or before it and ends behind it.
pub proof fn law_decorated_glyphs_have_their_backgrounds<F: Scalar>(
    line: TextLineModel<F>,
    run_ix: int,
    glyph_ix: int,
    d: int,
)
    requires
        line.wf(),
        line.decoration_runs.len() <= usize::MAX,
        in_reading_order(line.wrap_boundaries),
        bytes_in_order(line),
        steps_add_up::<F>(),
        has_glyph(line, run_ix, glyph_ix),
        covers(line.decoration_runs, d, glyph_at(line, run_ix, glyph_ix).index as int),
        line.decoration_runs[d].background_color is Some,
    ensures
        exists|i: int|
            0 <= i < line.background_commands().len() && fills_behind(
                line,
                #[trigger] line.background_commands()[i],
                run_ix,
                glyph_ix,
                d,
            ),
{
    let target = (run_ix, glyph_ix, d);
    let n = line.layout.runs.len();
    let last = lemma_background_line(line, n, target);
    let (state, painted) = line.background_line_step(n);
    assert(reads_before(run_ix, glyph_ix, n as int, 0));
    let x = line.last_row_end(line.origin.x);
    assert(x == line_last_x(line, line.origin.x));
    let all = line.background_commands();
    if exists|i: int|
        0 <= i < painted.len() && fills_behind(line, #[trigger] painted[i], run_ix, glyph_ix, d) {
        let i = choose|i: int|
            0 <= i < painted.len() && fills_behind(
                line,
                #[trigger] painted[i],
                run_ix,
                glyph_ix,
                d,
            );
        assert(all[i] == painted[i]);
    } else {
        lemma_ended(line, state, x, state.glyph_width, target);
        assert(all[painted.len() as int] == line.ended_background(
            state.background->Some_0,
            x,
            state.glyph_width,
        ));
    }
}

/// Which decorations ask for a background.
pub open spec fn asks_background<F>() -> spec_fn(DecorationRun<F>) -> bool {
    |run: DecorationRun<F>| run.background_color is Some
}

/// Which decorations go on with a background of this color.
pub open spec fn goes_on_behind<F: Scalar>(color: Hsla<F>) -> spec_fn(DecorationRun<F>) -> bool {
    |run: DecorationRun<F>| colors_alike(run.background_color, Some(color))
}

/// Whether a rectangle lies behind glyphs of one row that ask for it, and behind no others, and
/// ends where its color does not go on. One that would have no width is drawn from half a
/// glyph before its start.
pub open spec fn lies_behind_asked<F: Scalar>(
    line: TextLineModel<F>,
    bounds: Bounds<F>,
    color: Hsla<F>,
) -> bool {
    exists|row: int, ar: int, ag: int, er: int, eg: int, start: F, end: F|
        asked_between(line, ar, ag, er, eg, row, asks_background()) && #[trigger] begins_at(
            line,
            start,
            row,
            ar,
            ag,
        ) && #[trigger] ends_at(line, end, row, er, eg, line.origin.x) && bounds.origin.y
            == row_top(line, row) && drawn_from(line, bounds.origin.x, start, end, er) && (
        bounds.size.width == end.spec_minus(bounds.origin.x) || bounds.size.width
            == end.spec_minus(start) && (start.spec_same(end) || end.spec_same(start)))
            && stops_before(line, row, er, eg, goes_on_behind(color))
}

/// Whether a command fills the whole height of a row behind glyphs that ask for it, in the
/// color of a decoration.
pub open spec fn is_asked_background<F: Scalar>(
    line: TextLineModel<F>,
    command: PaintCommand<F>,
) -> bool {
    match command {
        PaintCommand::Quad { bounds, color } => {
            &&& lies_behind_asked(line, bounds, color)
            &&& bounds.size.height == line.line_height
            &&& exists|d: int| #[trigger] background_of(line, color, d)
        },
        _ => false,
    }
}

spec fn all_asked<F: Scalar>(line: TextLineModel<F>, painted: Seq<PaintCommand<F>>) -> bool {
    forall|i: int| 0 <= i < painted.len() ==> is_asked_background(line, #[trigger] painted[i])
}

spec fn opens_asked<F: Scalar>(
    line: TextLineModel<F>,
    state: BackgroundState<F>,
    run_ix: int,
    glyph_ix: int,
) -> bool {
    state.background is Some ==> open_span(
        line,
        state.background->Some_0.origin.x,
        state.wraps_done as int,
        run_ix,
        glyph_ix,
        asks_background(),
    )
}

/// Ending an open background paints one that was asked for.
proof fn lemma_end_asked<F: Scalar>(
    line: TextLineModel<F>,
    state: BackgroundState<F>,
    end: F,
    empty: bool,
    width: F,
    last: int,
    er: int,
    eg: int,
)
    requires
        state.background is Some,
        stops_before(
            line,
            state.wraps_done as int,
            er,
            eg,
            goes_on_behind(state.background->Some_0.color),
        ),
        opens_asked(line, state, er, eg),
        background_ready(line, state, last, er, eg),
        ends_at(line, end, state.wraps_done as int, er, eg, line.origin.x),
        line.layout.runs.len() > 0 ==> state.glyph_width == box_width(line, er),
        ({
            let x = state.background->Some_0.origin.x;
            &&& empty ==> x.spec_same(end) || end.spec_same(x)
            &&& x.spec_same(end) && end.spec_same(x) ==> empty
        }),
        ({
            let open = state.background->Some_0;
            let origin = nudged(open.origin, empty, state.glyph_width);
            width == end.spec_minus(origin.x) || width == end.spec_minus(open.origin.x)
        }),
    ensures
        ({
            let open = state.background->Some_0;
            is_asked_background(
                line,
                line.background_command(
                    nudged(open.origin, empty, state.glyph_width),
                    width,
                    open.color,
                ),
            )
        }),
{
    let open = state.background->Some_0;
    let row = state.wraps_done as int;
    let (ar, ag) = choose|ar: int, ag: int| #[trigger]
        begins_at(line, open.origin.x, row, ar, ag) && asked_between(
            line,
            ar,
            ag,
            er,
            eg,
            row,
            asks_background(),
        );
    assert(has_glyph(line, ar, ag));
    assert(begins_at(line, open.origin.x, row, ar, ag) && ends_at(
        line,
        end,
        row,
        er,
        eg,
        line.origin.x,
    ));
    let origin = nudged(open.origin, empty, state.glyph_width);
    let bounds = Bounds { origin, size: Size { width, height: line.line_height } };
    assert(asked_between(line, ar, ag, er, eg, row, asks_background()));
    assert(bounds.origin.y == row_top(line, row));
    assert(drawn_from(line, bounds.origin.x, open.origin.x, end, er));
    assert(lies_behind_asked(line, bounds, open.color));
    assert(background_of(line, open.color, state.decorations_done - 1));
    let d = state.decorations_done - 1;
    assert(exists|d: int| #[trigger] background_of(line, open.color, d)) by {
        assert(background_of(line, open.color, d));
    }
    let command = line.background_command(origin, width, open.color);
    match command {
        PaintCommand::Quad { bounds: painted, color } => {
            assert(painted == bounds);
            assert(color == open.color);
            assert(lies_behind_asked(line, painted, color));
            assert(painted.size.height == line.line_height);
            assert(exists|d: int| #[trigger] background_of(line, color, d));
            assert(is_asked_background(line, command));
        },
        _ => {
            assert(false);
        },
    }
}

proof fn lemma_asked_step<F: Scalar>(
    line: TextLineModel<F>,
    state: BackgroundState<F>,
    painted: Seq<PaintCommand<F>>,
    run_ix: int,
    glyph_ix: int,
    last: int,
)
    requires
        line.wf(),
        line.decoration_runs.len() <= usize::MAX,
        in_reading_order(line.wrap_boundaries),
        bytes_in_order(line),
        steps_add_up::<F>(),
        has_glyph(line, run_ix, glyph_ix),
        painting_backgrounds(line, state, painted, run_ix, glyph_ix, last, (0, 0, -1)),
        state.glyph_width == line.glyph_boxes[run_ix].size.width,
        opens_asked(line, state, run_ix, glyph_ix),
        all_asked(line, painted),
    ensures
        ({
            let (after, commands) = line.background_glyph_step(state, run_ix, glyph_ix);
            &&& opens_asked(line, after, run_ix, glyph_ix + 1)
            &&& all_asked(line, painted + commands)
            &&& after.glyph_width == line.glyph_boxes[run_ix].size.width
        }),
{
    let runs = line.decoration_runs;
    let glyph = glyph_at(line, run_ix, glyph_ix);
    let index = glyph.index as int;
    let (after, commands) = line.background_glyph_step(state, run_ix, glyph_ix);
    let moved = line.background_pen_moved(state, glyph);
    let old_row = state.wraps_done as int;
    let wraps = line.wraps_at(old_row, run_ix, glyph_ix);
    let none = Seq::<PaintCommand<F>>::empty();
    let (rowed, row_end) = if wraps {
        (line.background_row_started(moved, glyph), line.background_row_end(moved))
    } else {
        (moved, none)
    };
    let placed = BackgroundState { prev_x: glyph.position.x, ..rowed };
    let style_end = if glyph.index >= placed.run_end {
        line.background_restyle_commands(placed, glyph.index)
    } else {
        none
    };
    lemma_background_step(line, state, painted, run_ix, glyph_ix, last, (0, 0, -1));
    lemma_pen_step(line, old_row, state.glyph_origin, state.prev_x, run_ix, glyph_ix);
    let row = placed.wraps_done as int;
    assert(row == row_of(line, run_ix, glyph_ix));
    let x = moved.glyph_origin.x;
    assert(ends_at(line, x, old_row, run_ix, glyph_ix, line.origin.x));
    if wraps && moved.background is Some {
        let open = moved.background->Some_0;
        let empty = x.spec_same(open.origin.x);
        assert(background_ready(line, moved, last, run_ix, glyph_ix));
        assert(opens_asked(line, moved, run_ix, glyph_ix));
        lemma_end_asked(
            line,
            moved,
            x,
            empty,
            x.spec_minus(nudged(open.origin, empty, moved.glyph_width).x),
            last,
            run_ix,
            glyph_ix,
        );
    }
    assert(all_asked(line, row_end));
    let here = placed.glyph_origin.x;
    let (next, start, found) = find_decoration(
        runs,
        placed.decorations_done as int,
        placed.run_end as int,
        index,
    );
    if !wraps && placed.background is Some && glyph.index >= placed.run_end && !(found is Some
        && continues_background(
        found->Some_0.background_color,
        placed.background->Some_0.color,
    )) {
        let open = placed.background->Some_0;
        let done = placed.decorations_done as int;
        lemma_bytes_before(runs, 0, runs.len() as int);
        lemma_bytes_before(runs, done, runs.len() as int);
        assert(bytes_before(runs, 0) == 0);
        lemma_find(runs, done, placed.run_end as int, index);
        assert forall|d: int| #[trigger] covers(runs, d, index) implies !goes_on_behind(
            open.color,
        )(runs[d]) by {
            lemma_bytes_before(runs, d + 1, runs.len() as int);
            if found is Some {
                lemma_one_cover(runs, next - 1, d, index);
            }
        }
        assert(background_ready(line, placed, last, run_ix, glyph_ix));
        assert(opens_asked(line, placed, run_ix, glyph_ix));
        assert(ends_at(line, here, row, run_ix, glyph_ix, line.origin.x));
        lemma_end_asked(
            line,
            placed,
            here,
            open.origin.x.spec_same(here),
            here.spec_minus(open.origin.x),
            last,
            run_ix,
            glyph_ix,
        );
    }
    assert(all_asked(line, style_end));
    let done = after.decorations_done as int;
    if after.background is Some {
        assert(covers(runs, done - 1, index));
        assert(asks_background::<F>()(runs[done - 1]));
        assert(is_asked(line, run_ix, glyph_ix, asks_background()));
        lemma_span_goes_on(
            line,
            after.background->Some_0.origin.x,
            row,
            run_ix,
            glyph_ix,
            asks_background(),
        );
    }
    assert(commands =~= row_end + style_end);
    let all = painted + commands;
    assert forall|i: int| 0 <= i < all.len() implies is_asked_background(
        line,
        #[trigger] all[i],
    ) by {
        let n = painted.len() as int;
        let m = n + row_end.len();
        if i < n {
            assert(all[i] == painted[i]);
        } else if i < m {
            assert(all[i] == row_end[i - n]);
        } else {
            assert(all[i] == style_end[i - m]);
        }
    }
}

proof fn lemma_asked_run<F: Scalar>(
    line: TextLineModel<F>,
    state: BackgroundState<F>,
    painted: Seq<PaintCommand<F>>,
    run_ix: int,
    count: nat,
    last: int,
)
    requires
        line.wf(),
        line.decoration_runs.len() <= usize::MAX,
        in_reading_order(line.wrap_boundaries),
        bytes_in_order(line),
        steps_add_up::<F>(),
        0 <= run_ix < line.layout.runs.len(),
        count <= line.layout.runs[run_ix].glyphs.len(),
        painting_backgrounds(line, state, painted, run_ix, 0, last, (0, 0, -1)),
        opens_asked(line, state, run_ix, 0),
        all_asked(line, painted),
    ensures
        ({
            let (after, commands) = line.background_run_step(state, run_ix, count);
            &&& opens_asked(line, after, run_ix, count as int)
            &&& all_asked(line, painted + commands)
            &&& after.glyph_width == line.glyph_boxes[run_ix].size.width
        }),
    decreases count,
{
    if count > 0 {
        let k = (count - 1) as nat;
        lemma_asked_run(line, state, painted, run_ix, k, last);
        let middle = lemma_background_run(line, state, painted, run_ix, k, last, (0, 0, -1));
        let (before, done) = line.background_run_step(state, run_ix, k);
        lemma_asked_step(line, before, painted + done, run_ix, k as int, middle);
        let (after, commands) = line.background_glyph_step(before, run_ix, k as int);
        assert(painted + done + commands =~= painted + (done + commands));
    } else {
        assert(painted + Seq::<PaintCommand<F>>::empty() =~= painted);
    }
}

proof fn lemma_asked_line<F: Scalar>(line: TextLineModel<F>, count: nat)
    requires
        line.wf(),
        line.decoration_runs.len() <= usize::MAX,
        in_reading_order(line.wrap_boundaries),
        bytes_in_order(line),
        steps_add_up::<F>(),
        count <= line.layout.runs.len(),
    ensures
        ({
            let (after, painted) = line.background_line_step(count);
            &&& opens_asked(line, after, count as int, 0)
            &&& all_asked(line, painted)
            &&& count > 0 ==> after.glyph_width == line.glyph_boxes[count - 1].size.width
        }),
    decreases count,
{
    if count > 0 {
        let k = (count - 1) as nat;
        lemma_asked_line(line, k);
        let first = lemma_background_line(line, k, (0, 0, -1));
        let (before, painted) = line.background_line_step(k);
        let n = line.layout.runs[k as int].glyphs.len();
        lemma_asked_run(line, before, painted, k as int, n, first);
        let (after, commands) = line.background_run_step(before, k as int, n);
        if after.background is Some {
            lemma_span_next_run(
                line,
                after.background->Some_0.origin.x,
                after.wraps_done as int,
                k as int,
                asks_background(),
            );
        }
    }
}

/// Every background that is painted was asked for: it lies over the whole height of a row
/// behind glyphs of it, each covered by a decoration with a background, begins at the first of
/// them, or at the line's left where it goes on from the row above, and ends where the glyph
/// behind them would be on the row, or with the line. Its color is that of a decoration, and
/// where the glyph behind it is on the same row, no decoration of that one goes on with it.
pub proof fn law_backgrounds_are_asked_for<F: Scalar>(line: TextLineModel<F>, i: int)
    requires
        line.wf(),
        line.decoration_runs.len() <= usize::MAX,
        in_reading_order(line.wrap_boundaries),
        bytes_in_order(line),
        steps_add_up::<F>(),
        0 <= i < line.background_commands().len(),
    ensures
        is_asked_background(line, line.background_commands()[i]),
{
    let n = line.layout.runs.len();
    lemma_asked_line(line, n);
    let last = lemma_background_line(line, n, (0, 0, -1));
    let (state, painted) = line.background_line_step(n);
    let x = line.last_row_end(line.origin.x);
    assert(x == line_last_x(line, line.origin.x));
    let row = state.wraps_done as int;
    assert(ends_at(line, x, row, n as int, 0, line.origin.x));
    if i < painted.len() {
        assert(line.background_commands()[i] == painted[i]);
    } else {
        let open = state.background->Some_0;
        let empty = x.spec_same(open.origin.x);
        lemma_end_asked(
            line,
            state,
            x,
            empty,
            x.spec_minus(nudged(open.origin, empty, state.glyph_width).x),
            last,
            n as int,
            0,
        );
        assert(line.background_commands()[i] == line.ended_background(open, x, state.glyph_width));
    }
}

/// Whether a command fills behind the glyphs of `span`, which all ask for it, and behind no
/// others: from its first glyph up to its second one and without that.
pub open spec fn fills_over<F: Scalar>(
    line: TextLineModel<F>,
    command: PaintCommand<F>,
    span: (int, int, int, int),
) -> bool {
    match command {
        PaintCommand::Quad { bounds, color } => exists|row: int, start: F, end: F|
            asked_between(
                line,
                span.0,
                span.1,
                span.2,
                span.3,
                row,
                asks_background(),
            ) && #[trigger] begins_at(line, start, row, span.0, span.1) && #[trigger] ends_at(
                line,
                end,
                row,
                span.2,
                span.3,
                line.origin.x,
            ) && bounds.origin.y == row_top(line, row) && drawn_from(
                line,
                bounds.origin.x,
                start,
                end,
                span.2,
            ),
        _ => false,
    }
}

/// Whether commands fill behind spans of the line that lie one behind the other, none of them
/// reaching past a glyph.
pub open spec fn fill_apart<F: Scalar>(
    line: TextLineModel<F>,
    commands: Seq<PaintCommand<F>>,
    spans: Seq<(int, int, int, int)>,
    run_ix: int,
    glyph_ix: int,
) -> bool {
    &&& spans.len() == commands.len()
    &&& forall|i: int|
        #![trigger spans[i]]
        0 <= i < spans.len() ==> fills_over(line, commands[i], spans[i]) && !reads_before(
            run_ix,
            glyph_ix,
            spans[i].2,
            spans[i].3,
        )
    &&& forall|i: int, j: int|
        #![trigger spans[i], spans[j]]
        0 <= i < j < spans.len() ==> !reads_before(
            spans[j].0,
            spans[j].1,
            spans[i].2,
            spans[i].3,
        )
}

/// Whether what was painted lies apart, and apart from what is open.
spec fn kept_apart<F: Scalar>(
    line: TextLineModel<F>,
    painted: Seq<PaintCommand<F>>,
    open: Option<OpenBackground<F>>,
    row: int,
    run_ix: int,
    glyph_ix: int,
) -> bool {
    match open {
        Some(open) => exists|spans: Seq<(int, int, int, int)>, ar: int, ag: int| #[trigger]
            fill_apart(line, painted, spans, ar, ag) && begins_at(
                line,
                open.origin.x,
                row,
                ar,
                ag,
            ) && asked_between(line, ar, ag, run_ix, glyph_ix, row, asks_background()),
        None => exists|spans: Seq<(int, int, int, int)>| #[trigger]
            fill_apart(line, painted, spans, run_ix, glyph_ix),
    }
}

proof fn lemma_apart_closed<F: Scalar>(
    line: TextLineModel<F>,
    painted: Seq<PaintCommand<F>>,
    open: OpenBackground<F>,
    end: F,
    empty: bool,
    glyph_width: F,
    width: F,
    row: int,
    run_ix: int,
    glyph_ix: int,
)
    requires
        kept_apart(line, painted, Some(open), row, run_ix, glyph_ix),
        ends_at(line, end, row, run_ix, glyph_ix, line.origin.x),
        line.layout.runs.len() > 0 ==> glyph_width == box_width(line, run_ix),
        open.origin.y == row_top(line, row),
        empty ==> open.origin.x.spec_same(end) || end.spec_same(open.origin.x),
        open.origin.x.spec_same(end) && end.spec_same(open.origin.x) ==> empty,
    ensures
        kept_apart(
            line,
            painted.push(
                line.background_command(
                    nudged(open.origin, empty, glyph_width),
                    width,
                    open.color,
                ),
            ),
            None,
            row,
            run_ix,
            glyph_ix,
        ),
{
    let (spans, ar, ag) = choose|spans: Seq<(int, int, int, int)>, ar: int, ag: int| #[trigger]
        fill_apart(line, painted, spans, ar, ag) && begins_at(
            line,
            open.origin.x,
            row,
            ar,
            ag,
        ) && asked_between(line, ar, ag, run_ix, glyph_ix, row, asks_background());
    assert(has_glyph(line, ar, ag));
    let command = line.background_command(
        nudged(open.origin, empty, glyph_width),
        width,
        open.color,
    );
    let span = (ar, ag, run_ix, glyph_ix);
    let all = spans.push(span);
    assert(fills_over(line, command, span)) by {
        assert(begins_at(line, open.origin.x, row, span.0, span.1));
        assert(ends_at(line, end, row, span.2, span.3, line.origin.x));
        assert(drawn_from(
            line,
            nudged(open.origin, empty, glyph_width).x,
            open.origin.x,
            end,
            span.2,
        ));
    }
    assert forall|i: int|
        #![trigger all[i]]
        0 <= i < all.len() implies fills_over(line, painted.push(command)[i], all[i])
        && !reads_before(run_ix, glyph_ix, all[i].2, all[i].3) by {
        if i < spans.len() {
            assert(all[i] == spans[i]);
        }
    }
    assert forall|i: int, j: int|
        #![trigger all[i], all[j]]
        0 <= i < j < all.len() implies !reads_before(
        all[j].0,
        all[j].1,
        all[i].2,
        all[i].3,
    ) by {
        assert(all[i] == spans[i]);
        if j < spans.len() {
            assert(all[j] == spans[j]);
        }
    }
    assert(fill_apart(line, painted.push(command), all, run_ix, glyph_ix));
}

/// Moving on behind a glyph: what is open goes on, if the glyph asks for it, or begins there.
proof fn lemma_apart_step<F: Scalar>(
    line: TextLineModel<F>,
    painted: Seq<PaintCommand<F>>,
    before: Option<OpenBackground<F>>,
    after: Option<OpenBackground<F>>,
    row: int,
    run_ix: int,
    glyph_ix: int,
)
    requires
        has_glyph(line, run_ix, glyph_ix),
        row == row_of(line, run_ix, glyph_ix),
        kept_apart(line, painted, before, row, run_ix, glyph_ix),
        after is Some ==> is_asked(line, run_ix, glyph_ix, asks_background()),
        after is Some && before is Some ==> after->Some_0.origin.x == before->Some_0.origin.x,
        after is Some && before is None ==> begins_at(
            line,
            after->Some_0.origin.x,
            row,
            run_ix,
            glyph_ix,
        ),
        after is None ==> before is None,
    ensures
        kept_apart(line, painted, after, row, run_ix, glyph_ix + 1),
{
    let asks = asks_background::<F>();
    if after is Some && before is Some {
        let x = after->Some_0.origin.x;
        let (spans, ar, ag) = choose|spans: Seq<(int, int, int, int)>, ar: int, ag: int| #[trigger]
            fill_apart(line, painted, spans, ar, ag) && begins_at(line, x, row, ar, ag)
                && asked_between(line, ar, ag, run_ix, glyph_ix, row, asks);
        assert forall|r: int, g: int|
            #[trigger] has_glyph(line, r, g) && !reads_before(r, g, ar, ag) && reads_before(
                r,
                g,
                run_ix,
                glyph_ix + 1,
            ) implies row_of(line, r, g) == row && is_asked(line, r, g, asks) by {
            if !reads_before(r, g, run_ix, glyph_ix) {
                assert(r == run_ix && g == glyph_ix);
            }
        }
        assert(fill_apart(line, painted, spans, ar, ag));
    } else {
        let spans = choose|spans: Seq<(int, int, int, int)>| #[trigger]
            fill_apart(line, painted, spans, run_ix, glyph_ix);
        if after is Some {
            assert forall|r: int, g: int|
                #[trigger] has_glyph(line, r, g) && !reads_before(
                    r,
                    g,
                    run_ix,
                    glyph_ix,
                ) && reads_before(r, g, run_ix, glyph_ix + 1) implies row_of(line, r, g) == row
                && is_asked(line, r, g, asks) by {
                assert(r == run_ix && g == glyph_ix);
            }
            assert(fill_apart(line, painted, spans, run_ix, glyph_ix));
        } else {
            assert(fill_apart(line, painted, spans, run_ix, glyph_ix + 1));
        }
    }
}

proof fn lemma_apart_glyph<F: Scalar>(
    line: TextLineModel<F>,
    state: BackgroundState<F>,
    painted: Seq<PaintCommand<F>>,
    run_ix: int,
    glyph_ix: int,
    last: int,
)
    requires
        line.wf(),
        line.decoration_runs.len() <= usize::MAX,
        in_reading_order(line.wrap_boundaries),
        bytes_in_order(line),
        steps_add_up::<F>(),
        has_glyph(line, run_ix, glyph_ix),
        painting_backgrounds(line, state, painted, run_ix, glyph_ix, last, (0, 0, -1)),
        state.glyph_width == line.glyph_boxes[run_ix].size.width,
        kept_apart(
            line,
            painted,
            state.background,
            state.wraps_done as int,
            run_ix,
            glyph_ix,
        ),
    ensures
        ({
            let (after, commands) = line.background_glyph_step(state, run_ix, glyph_ix);
            &&& kept_apart(
                line,
                painted + commands,
                after.background,
                after.wraps_done as int,
                run_ix,
                glyph_ix + 1,
            )
            &&& after.glyph_width == line.glyph_boxes[run_ix].size.width
        }),
{
    let runs = line.decoration_runs;
    let glyph = glyph_at(line, run_ix, glyph_ix);
    let index = glyph.index as int;
    let (after, commands) = line.background_glyph_step(state, run_ix, glyph_ix);
    let moved = line.background_pen_moved(state, glyph);
    let old_row = state.wraps_done as int;
    let wraps = line.wraps_at(old_row, run_ix, glyph_ix);
    let none = Seq::<PaintCommand<F>>::empty();
    let (rowed, row_end) = if wraps {
        (line.background_row_started(moved, glyph), line.background_row_end(moved))
    } else {
        (moved, none)
    };
    let placed = BackgroundState { prev_x: glyph.position.x, ..rowed };
    let restyles = glyph.index >= placed.run_end;
    let style_end = if restyles {
        line.background_restyle_commands(placed, glyph.index)
    } else {
        none
    };
    lemma_background_step(line, state, painted, run_ix, glyph_ix, last, (0, 0, -1));
    lemma_pen_step(line, old_row, state.glyph_origin, state.prev_x, run_ix, glyph_ix);
    let row = placed.wraps_done as int;
    assert(row == row_of(line, run_ix, glyph_ix));
    let x = moved.glyph_origin.x;
    let here = placed.glyph_origin.x;
    let found = find_decoration(
        runs,
        placed.decorations_done as int,
        placed.run_end as int,
        index,
    ).2;
    let ends = !wraps && restyles && placed.background is Some && !(found is Some
        && continues_background(found->Some_0.background_color, placed.background->Some_0.color));
    let so_far = painted + row_end + style_end;
    assert(painted + commands =~= so_far);
    let left: Option<OpenBackground<F>> = if wraps || ends {
        None
    } else {
        placed.background
    };
    if wraps {
        assert(style_end =~= none);
        if moved.background is Some {
            let open = moved.background->Some_0;
            let empty = x.spec_same(open.origin.x);
            assert(ends_at(line, x, old_row, run_ix, glyph_ix, line.origin.x));
            lemma_apart_closed(
                line,
                painted,
                open,
                x,
                empty,
                moved.glyph_width,
                x.spec_minus(nudged(open.origin, empty, moved.glyph_width).x),
                old_row,
                run_ix,
                glyph_ix,
            );
            assert(so_far =~= painted.push(
                line.ended_background(open, x, moved.glyph_width),
            ));
        } else {
            assert(so_far =~= painted);
        }
        assert(kept_apart(line, so_far, None, row, run_ix, glyph_ix));
    } else if ends {
        let open = placed.background->Some_0;
        assert(ends_at(line, here, row, run_ix, glyph_ix, line.origin.x));
        lemma_apart_closed(
            line,
            painted,
            open,
            here,
            open.origin.x.spec_same(here),
            placed.glyph_width,
            here.spec_minus(open.origin.x),
            row,
            run_ix,
            glyph_ix,
        );
        assert(so_far =~= painted.push(style_end[0]));
    } else {
        assert(so_far =~= painted);
    }
    assert(kept_apart(line, so_far, left, row, run_ix, glyph_ix));
    let done = after.decorations_done as int;
    if after.background is Some {
        assert(covers(runs, done - 1, index));
        assert(asks_background::<F>()(runs[done - 1]));
        assert(is_asked(line, run_ix, glyph_ix, asks_background()));
    }
    lemma_apart_step(line, so_far, left, after.background, row, run_ix, glyph_ix);
}

proof fn lemma_apart_run<F: Scalar>(
    line: TextLineModel<F>,
    state: BackgroundState<F>,
    painted: Seq<PaintCommand<F>>,
    run_ix: int,
    count: nat,
    last: int,
)
    requires
        line.wf(),
        line.decoration_runs.len() <= usize::MAX,
        in_reading_order(line.wrap_boundaries),
        bytes_in_order(line),
        steps_add_up::<F>(),
        0 <= run_ix < line.layout.runs.len(),
        count <= line.layout.runs[run_ix].glyphs.len(),
        painting_backgrounds(line, state, painted, run_ix, 0, last, (0, 0, -1)),
        kept_apart(line, painted, state.background, state.wraps_done as int, run_ix, 0),
    ensures
        ({
            let (after, commands) = line.background_run_step(state, run_ix, count);
            &&& kept_apart(
                line,
                painted + commands,
                after.background,
                after.wraps_done as int,
                run_ix,
                count as int,
            )
            &&& after.glyph_width == line.glyph_boxes[run_ix].size.width
        }),
    decreases count,
{
    if count > 0 {
        let k = (count - 1) as nat;
        lemma_apart_run(line, state, painted, run_ix, k, last);
        let middle = lemma_background_run(line, state, painted, run_ix, k, last, (0, 0, -1));
        let (before, done) = line.background_run_step(state, run_ix, k);
        lemma_apart_glyph(line, before, painted + done, run_ix, k as int, middle);
        let (after, commands) = line.background_glyph_step(before, run_ix, k as int);
        assert(painted + done + commands =~= painted + (done + commands));
    } else {
        assert(painted + Seq::<PaintCommand<F>>::empty() =~= painted);
    }
}

proof fn lemma_apart_line<F: Scalar>(line: TextLineModel<F>, count: nat)
    requires
        line.wf(),
        line.decoration_runs.len() <= usize::MAX,
        in_reading_order(line.wrap_boundaries),
        bytes_in_order(line),
        steps_add_up::<F>(),
        count <= line.layout.runs.len(),
    ensures
        ({
            let (after, painted) = line.background_line_step(count);
            &&& kept_apart(
                line,
                painted,
                after.background,
                after.wraps_done as int,
                count as int,
                0,
            )
            &&& count > 0 ==> after.glyph_width == line.glyph_boxes[count - 1].size.width
        }),
    decreases count,
{
    if count > 0 {
        let k = count - 1;
        lemma_apart_line(line, k as nat);
        let first = lemma_background_line(line, k as nat, (0, 0, -1));
        let (before, painted) = line.background_line_step(k as nat);
        let n = line.layout.runs[k].glyphs.len();
        lemma_apart_run(line, before, painted, k, n, first);
        let (after, commands) = line.background_run_step(before, k, n);
        let row = after.wraps_done as int;
        let asks = asks_background::<F>();
        let all = painted + commands;
        if after.background is Some {
            let x = after.background->Some_0.origin.x;
            let (spans, ar, ag) = choose|spans: Seq<(int, int, int, int)>, ar: int, ag: int|
                #[trigger]
                fill_apart(line, all, spans, ar, ag) && begins_at(line, x, row, ar, ag)
                    && asked_between(line, ar, ag, k, n as int, row, asks);
            assert forall|r: int, g: int|
                #[trigger] has_glyph(line, r, g) && !reads_before(r, g, ar, ag) && reads_before(
                    r,
                    g,
                    k + 1,
                    0,
                ) implies row_of(line, r, g) == row && is_asked(line, r, g, asks) by {
                assert(reads_before(r, g, k, n as int));
            }
            assert(fill_apart(line, all, spans, ar, ag));
        } else {
            let spans = choose|spans: Seq<(int, int, int, int)>| #[trigger]
                fill_apart(line, all, spans, k, n as int);
            assert(fill_apart(line, all, spans, k + 1, 0));
        }
    } else {
        let none = Seq::<(int, int, int, int)>::empty();
        assert(fill_apart(line, Seq::<PaintCommand<F>>::empty(), none, 0, 0));
    }
}

/// No two backgrounds lie behind one glyph: those that are painted lie behind spans of the line
/// that lie one behind the other.
pub proof fn law_backgrounds_lie_apart<F: Scalar>(line: TextLineModel<F>)
    requires
        line.wf(),
        line.decoration_runs.len() <= usize::MAX,
        in_reading_order(line.wrap_boundaries),
        bytes_in_order(line),
        steps_add_up::<F>(),
    ensures
        exists|spans: Seq<(int, int, int, int)>| #[trigger]
            fill_apart(
                line,
                line.background_commands(),
                spans,
                line.layout.runs.len() as int,
                0,
            ),
{
    let n = line.layout.runs.len();
    lemma_apart_line(line, n);
    let last = lemma_background_line(line, n, (0, 0, -1));
    let (state, painted) = line.background_line_step(n);
    let x = line.last_row_end(line.origin.x);
    let row = state.wraps_done as int;
    assert(x == line_last_x(line, line.origin.x));
    assert(ends_at(line, x, row, n as int, 0, line.origin.x));
    if state.background is Some {
        let open = state.background->Some_0;
        let empty = x.spec_same(open.origin.x);
        lemma_apart_closed(
            line,
            painted,
            open,
            x,
            empty,
            state.glyph_width,
            x.spec_minus(nudged(open.origin, empty, state.glyph_width).x),
            row,
            n as int,
            0,
        );
        assert(line.background_commands() =~= painted.push(
            line.ended_background(open, x, state.glyph_width),
        ));
    } else {
        assert(line.background_commands() =~= painted);
    }
}

} // verus!
