//! Where the glyphs of a line of text are painted, row by row.
use vstd::prelude::*;

use crate::geometry::{Bounds, Point};
use crate::line::{offset_of, DecorationRun};
use crate::line_layout::ShapedGlyph;
use crate::line_paint::{
    find_decoration, LineState, PaintCommand, TextAlign, TextLineModel, WrapBoundary,
};
use crate::scalar::{spec_two, spec_zero, Scalar};

verus! {

/// Whether a row starts with a glyph before the one at `glyph_ix` of the run at `run_ix`, in
/// reading order.
pub open spec fn comes_before(boundary: WrapBoundary, run_ix: int, glyph_ix: int) -> bool {
    boundary.run_ix < run_ix || boundary.run_ix == run_ix && boundary.glyph_ix < glyph_ix
}

/// Whether rows start one behind the other.
pub open spec fn in_reading_order(boundaries: Seq<WrapBoundary>) -> bool {
    forall|i: int, j: int|
        0 <= i < j < boundaries.len() ==> comes_before(
            #[trigger] boundaries[i],
            (#[trigger] boundaries[j]).run_ix as int,
            boundaries[j].glyph_ix as int,
        )
}

/// How many of the first `count` boundaries lie at or before a glyph.
pub open spec fn boundaries_up_to(
    boundaries: Seq<WrapBoundary>,
    run_ix: int,
    glyph_ix: int,
    count: nat,
) -> int
    decreases count,
{
    if count == 0 {
        0
    } else {
        boundaries_up_to(boundaries, run_ix, glyph_ix, (count - 1) as nat) + if comes_before(
            boundaries[count - 1],
            run_ix,
            glyph_ix + 1,
        ) {
            1int
        } else {
            0
        }
    }
}

/// The row that a glyph is on: as many rows lie above it as boundaries lie at or before it.
pub open spec fn row_of<F: Scalar>(line: TextLineModel<F>, run_ix: int, glyph_ix: int) -> int {
    boundaries_up_to(line.wrap_boundaries, run_ix, glyph_ix, line.wrap_boundaries.len())
}

/// A glyph of a line.
pub open spec fn glyph_at<F: Scalar>(
    line: TextLineModel<F>,
    run_ix: int,
    glyph_ix: int,
) -> ShapedGlyph<F> {
    line.layout.runs[run_ix].glyphs[glyph_ix]
}

/// Whether a line has such a glyph.
pub open spec fn has_glyph<F: Scalar>(line: TextLineModel<F>, run_ix: int, glyph_ix: int) -> bool {
    0 <= run_ix < line.layout.runs.len() && 0 <= glyph_ix < line.layout.runs[run_ix].glyphs.len()
}

/// Whether a glyph comes before another one in reading order.
pub open spec fn reads_before(run_a: int, glyph_a: int, run_b: int, glyph_b: int) -> bool {
    run_a < run_b || run_a == run_b && glyph_a < glyph_b
}

/// The top of a row: that of the line, a line height lower for every row above.
pub open spec fn row_top<F: Scalar>(line: TextLineModel<F>, row: int) -> F
    decreases row,
{
    if row <= 0 {
        line.origin.y
    } else {
        row_top(line, row - 1).spec_plus(line.line_height)
    }
}

/// Where a row begins on the unwrapped line.
pub open spec fn row_first_x<F: Scalar>(line: TextLineModel<F>, row: int) -> F {
    if row <= 0 {
        spec_zero()
    } else {
        let boundary = line.wrap_boundaries[row - 1];
        glyph_at(line, boundary.run_ix as int, boundary.glyph_ix as int).position.x
    }
}

/// Where a row ends on the unwrapped line: where the next one begins, or the line ends.
pub open spec fn row_last_x<F: Scalar>(line: TextLineModel<F>, row: int) -> F {
    if row < line.wrap_boundaries.len() {
        let boundary = line.wrap_boundaries[row];
        glyph_at(line, boundary.run_ix as int, boundary.glyph_ix as int).position.x
    } else {
        line.layout.width
    }
}

/// Where a row starts: at the left of the line, or so far from it that the row lies in the
/// middle, or at the right, of the width that it is aligned in.
pub open spec fn row_left<F: Scalar>(line: TextLineModel<F>, row: int) -> F {
    let width = match line.align_width {
        Some(width) => width,
        None => line.layout.width,
    };
    let taken = row_last_x(line, row).spec_minus(row_first_x(line, row));
    match line.align {
        TextAlign::Left => line.origin.x,
        TextAlign::Center => line.origin.x.spec_times(spec_two()).spec_plus(width).spec_minus(
            taken,
        ).spec_over(spec_two()),
        TextAlign::Right => line.origin.x.spec_plus(width).spec_minus(taken),
    }
}

/// Where a glyph would be on a row: as far behind the row's start as it is behind the row's
/// first glyph on the unwrapped line.
pub open spec fn x_on_row<F: Scalar>(line: TextLineModel<F>, x: F, row: int) -> F {
    row_left(line, row).spec_plus(x.spec_minus(row_first_x(line, row)))
}

/// Where a glyph is.
pub open spec fn glyph_x<F: Scalar>(line: TextLineModel<F>, run_ix: int, glyph_ix: int) -> F {
    x_on_row(line, glyph_at(line, run_ix, glyph_ix).position.x, row_of(line, run_ix, glyph_ix))
}

/// Where the baseline of a glyph is: below the top of its row by the ascent, and by half of
/// what the line height leaves over, and by the glyph's own height.
pub open spec fn glyph_y<F: Scalar>(line: TextLineModel<F>, run_ix: int, glyph_ix: int) -> F {
    let layout = line.layout;
    let spare = line.line_height.spec_minus(layout.ascent).spec_minus(layout.descent);
    row_top(line, row_of(line, run_ix, glyph_ix)).spec_plus(
        spare.spec_over(spec_two()).spec_plus(layout.ascent),
    ).spec_plus(glyph_at(line, run_ix, glyph_ix).position.y)
}

/// Whether steps from one place to the next add up, and no step changes nothing.
pub open spec fn steps_add_up<F: Scalar>() -> bool {
    &&& forall|x: F, a: F, b: F, c: F| #[trigger]
        x.spec_plus(b.spec_minus(a)).spec_plus(c.spec_minus(b)) == x.spec_plus(c.spec_minus(a))
    &&& forall|x: F, a: F| #[trigger] x.spec_plus(a.spec_minus(a)) == x
    &&& forall|x: F| #[trigger] x.spec_plus(spec_zero()) == x
}

/// Whether the pen is before a glyph: on the row that the boundaries before it have led to,
/// and as far along that row as the glyph before.
pub open spec fn pen_ready<F: Scalar>(
    line: TextLineModel<F>,
    wraps_done: int,
    pen: Point<F>,
    prev_x: F,
    run_ix: int,
    glyph_ix: int,
) -> bool {
    &&& 0 <= wraps_done <= line.wrap_boundaries.len()
    &&& forall|k: int|
        0 <= k < wraps_done ==> comes_before(#[trigger] line.wrap_boundaries[k], run_ix, glyph_ix)
    &&& forall|k: int|
        wraps_done <= k < line.wrap_boundaries.len() ==> !comes_before(
            #[trigger] line.wrap_boundaries[k],
            run_ix,
            glyph_ix,
        )
    &&& pen.y == row_top(line, wraps_done)
    &&& forall|c: F| #[trigger] pen.x.spec_plus(c.spec_minus(prev_x)) == x_on_row(line, c, wraps_done)
}

pub proof fn lemma_boundaries_up_to(
    boundaries: Seq<WrapBoundary>,
    run_ix: int,
    glyph_ix: int,
    split: int,
    count: nat,
)
    requires
        0 <= split <= boundaries.len(),
        count <= boundaries.len(),
        forall|k: int|
            0 <= k < split ==> comes_before(#[trigger] boundaries[k], run_ix, glyph_ix + 1),
        forall|k: int|
            split <= k < boundaries.len() ==> !comes_before(
                #[trigger] boundaries[k],
                run_ix,
                glyph_ix + 1,
            ),
    ensures
        boundaries_up_to(boundaries, run_ix, glyph_ix, count) == if count < split {
            count as int
        } else {
            split
        },
    decreases count,
{
    if count > 0 {
        lemma_boundaries_up_to(boundaries, run_ix, glyph_ix, split, (count - 1) as nat);
    }
}

/// The pen before any glyph.
pub proof fn lemma_pen_start<F: Scalar>(line: TextLineModel<F>)
    ensures
        pen_ready(
            line,
            0,
            Point { x: line.row_x(spec_zero(), 0), y: line.origin.y },
            spec_zero(),
            0,
            0,
        ),
{
    assert(line.row_x(spec_zero(), 0) == row_left(line, 0));
}

/// How the pen moves on to a glyph: first along its row; and where a row starts with the
/// glyph, to the next row.
pub proof fn lemma_pen_step<F: Scalar>(
    line: TextLineModel<F>,
    wraps_done: int,
    pen: Point<F>,
    prev_x: F,
    run_ix: int,
    glyph_ix: int,
)
    requires
        line.wf(),
        in_reading_order(line.wrap_boundaries),
        steps_add_up::<F>(),
        has_glyph(line, run_ix, glyph_ix),
        pen_ready(line, wraps_done, pen, prev_x, run_ix, glyph_ix),
    ensures
        ({
            let x = glyph_at(line, run_ix, glyph_ix).position.x;
            let moved = pen.x.spec_plus(x.spec_minus(prev_x));
            &&& moved == x_on_row(line, x, wraps_done)
            &&& if line.wraps_at(wraps_done, run_ix, glyph_ix) {
                let next = Point {
                    x: line.row_x(x, wraps_done + 1),
                    y: pen.y.spec_plus(line.line_height),
                };
                &&& pen_ready(line, wraps_done + 1, next, x, run_ix, glyph_ix + 1)
                &&& row_of(line, run_ix, glyph_ix) == wraps_done + 1
                &&& next.x == glyph_x(line, run_ix, glyph_ix)
                &&& next.y == row_top(line, wraps_done + 1)
            } else {
                &&& pen_ready(
                    line,
                    wraps_done,
                    Point { x: moved, ..pen },
                    x,
                    run_ix,
                    glyph_ix + 1,
                )
                &&& row_of(line, run_ix, glyph_ix) == wraps_done
                &&& moved == glyph_x(line, run_ix, glyph_ix)
            }
        }),
{
    let boundaries = line.wrap_boundaries;
    let x = glyph_at(line, run_ix, glyph_ix).position.x;
    let moved = pen.x.spec_plus(x.spec_minus(prev_x));
    assert(moved == x_on_row(line, x, wraps_done));
    if line.wraps_at(wraps_done, run_ix, glyph_ix) {
        assert forall|k: int| 0 <= k < wraps_done + 1 implies comes_before(
            #[trigger] boundaries[k],
            run_ix,
            glyph_ix + 1,
        ) by {
            if k < wraps_done {
                assert(comes_before(boundaries[k], run_ix, glyph_ix));
            }
        }
        assert forall|k: int| wraps_done + 1 <= k < boundaries.len() implies !comes_before(
            #[trigger] boundaries[k],
            run_ix,
            glyph_ix + 1,
        ) by {
            assert(comes_before(
                boundaries[wraps_done],
                boundaries[k].run_ix as int,
                boundaries[k].glyph_ix as int,
            ));
        }
        lemma_boundaries_up_to(boundaries, run_ix, glyph_ix, wraps_done + 1, boundaries.len());
        assert(row_first_x(line, wraps_done + 1) == x);
        assert(line.row_x(x, wraps_done + 1) == row_left(line, wraps_done + 1));
        let left = row_left(line, wraps_done + 1);
        assert(left.spec_plus(x.spec_minus(x)) == left);
    } else {
        assert forall|k: int| 0 <= k < wraps_done implies comes_before(
            #[trigger] boundaries[k],
            run_ix,
            glyph_ix + 1,
        ) by {
            assert(comes_before(boundaries[k], run_ix, glyph_ix));
        }
        assert forall|k: int| wraps_done <= k < boundaries.len() implies !comes_before(
            #[trigger] boundaries[k],
            run_ix,
            glyph_ix + 1,
        ) by {
            assert(!comes_before(boundaries[k], run_ix, glyph_ix));
            if k > wraps_done {
                assert(!comes_before(boundaries[wraps_done], run_ix, glyph_ix));
                assert(comes_before(
                    boundaries[wraps_done],
                    boundaries[k].run_ix as int,
                    boundaries[k].glyph_ix as int,
                ));
            }
        }
        lemma_boundaries_up_to(boundaries, run_ix, glyph_ix, wraps_done, boundaries.len());
        assert forall|c: F| #[trigger] moved.spec_plus(c.spec_minus(x)) == x_on_row(
            line,
            c,
            wraps_done,
        ) by {
            assert(pen.x.spec_plus(x.spec_minus(prev_x)).spec_plus(c.spec_minus(x))
                == pen.x.spec_plus(c.spec_minus(prev_x)));
        }
    }
}

/// Behind the last glyph of a run, the pen is before the next run.
pub proof fn lemma_pen_next_run<F: Scalar>(
    line: TextLineModel<F>,
    wraps_done: int,
    pen: Point<F>,
    prev_x: F,
    run_ix: int,
)
    requires
        line.wf(),
        0 <= run_ix < line.layout.runs.len(),
        pen_ready(
            line,
            wraps_done,
            pen,
            prev_x,
            run_ix,
            line.layout.runs[run_ix].glyphs.len() as int,
        ),
    ensures
        pen_ready(line, wraps_done, pen, prev_x, run_ix + 1, 0),
{
    let n = line.layout.runs[run_ix].glyphs.len() as int;
    assert forall|k: int| 0 <= k < line.wrap_boundaries.len() implies (comes_before(
        #[trigger] line.wrap_boundaries[k],
        run_ix,
        n,
    ) <==> comes_before(line.wrap_boundaries[k], run_ix + 1, 0)) by {
        assert(line.boundary_exists(line.wrap_boundaries[k]));
    }
}

/// How many bytes the first `count` decorations cover.
pub open spec fn bytes_before<F>(runs: Seq<DecorationRun<F>>, count: int) -> int
    decreases count,
{
    if count <= 0 {
        0
    } else {
        bytes_before(runs, count - 1) + runs[count - 1].len
    }
}

/// Whether the decoration at `d` covers a byte.
pub open spec fn covers<F>(runs: Seq<DecorationRun<F>>, d: int, byte: int) -> bool {
    &&& 0 <= d < runs.len()
    &&& bytes_before(runs, d) <= byte < bytes_before(runs, d + 1)
}

pub proof fn lemma_bytes_before<F>(runs: Seq<DecorationRun<F>>, a: int, b: int)
    requires
        0 <= a <= b,
    ensures
        0 <= bytes_before(runs, a) <= bytes_before(runs, b),
        bytes_before(runs, b) == offset_of(runs, b),
    decreases b,
{
    if b > 0 {
        if a < b {
            lemma_bytes_before(runs, a, b - 1);
        } else {
            lemma_bytes_before(runs, a - 1, b - 1);
        }
    }
}

/// Whether the decoration that is in force is the one that covers the text at byte `last`, if
/// any has covered it.
pub open spec fn decoration_ready<F: Scalar>(
    line: TextLineModel<F>,
    decorations_done: int,
    run_end: int,
    last: int,
) -> bool {
    let runs = line.decoration_runs;
    &&& 0 <= decorations_done <= runs.len()
    &&& 0 <= last
    &&& {
        ||| run_end == bytes_before(runs, decorations_done) && (decorations_done == 0
            || bytes_before(runs, decorations_done - 1) <= last)
        ||| decorations_done == runs.len() && bytes_before(runs, runs.len() as int) <= last
    }
}

/// What looking for the decoration of a byte finds.
pub proof fn lemma_find<F>(runs: Seq<DecorationRun<F>>, next: int, run_end: int, index: int)
    requires
        0 <= next <= runs.len(),
        next < runs.len() ==> run_end == bytes_before(runs, next),
        next < runs.len() ==> run_end <= index,
        next == runs.len() ==> bytes_before(runs, runs.len() as int) <= index,
    ensures
        ({
            let (done, start, found) = find_decoration(runs, next, run_end, index);
            &&& next <= done <= runs.len()
            &&& match found {
                Some(run) => {
                    &&& done >= 1
                    &&& run == runs[done - 1]
                    &&& start == bytes_before(runs, done - 1)
                    &&& start + run.len == bytes_before(runs, done)
                    &&& covers(runs, done - 1, index)
                },
                None => done == runs.len() && bytes_before(runs, runs.len() as int) <= index,
            }
        }),
    decreases runs.len() - next,
{
    if next < runs.len() {
        let run = runs[next];
        assert(bytes_before(runs, next + 1) == run_end + run.len);
        if index >= run_end + run.len {
            lemma_find(runs, next + 1, run_end + run.len, index);
        }
    }
}

/// A byte has one decoration at most.
pub proof fn lemma_one_cover<F>(runs: Seq<DecorationRun<F>>, a: int, b: int, byte: int)
    requires
        covers(runs, a, byte),
        covers(runs, b, byte),
    ensures
        a == b,
{
    if a < b {
        lemma_bytes_before(runs, a + 1, b);
    } else if b < a {
        lemma_bytes_before(runs, b + 1, a);
    }
}

/// Whether glyphs stand for bytes in reading order.
pub open spec fn bytes_in_order<F: Scalar>(line: TextLineModel<F>) -> bool {
    forall|run_a: int, glyph_a: int, run_b: int, glyph_b: int|
        #![trigger glyph_at(line, run_a, glyph_a), glyph_at(line, run_b, glyph_b)]
        has_glyph(line, run_a, glyph_a) && has_glyph(line, run_b, glyph_b) && reads_before(
            run_a,
            glyph_a,
            run_b,
            glyph_b,
        ) ==> glyph_at(line, run_a, glyph_a).index <= glyph_at(line, run_b, glyph_b).index
}

/// Whether every glyph from this one on stands for a byte at or behind `last`.
pub open spec fn bytes_follow<F: Scalar>(
    line: TextLineModel<F>,
    run_ix: int,
    glyph_ix: int,
    last: int,
) -> bool {
    forall|run: int, glyph: int|
        has_glyph(line, run, glyph) && !reads_before(run, glyph, run_ix, glyph_ix) ==> last <= (
        #[trigger] glyph_at(line, run, glyph)).index
}

/// Whether a command paints a glyph of the line where it belongs: at its place on its row, in
/// its font, at the font's size and, unless it has its own colors, in the color of the
/// decoration that covers its byte.
pub open spec fn paints_glyph<F: Scalar>(
    line: TextLineModel<F>,
    command: PaintCommand<F>,
    run_ix: int,
    glyph_ix: int,
) -> bool {
    let glyph = glyph_at(line, run_ix, glyph_ix);
    &&& has_glyph(line, run_ix, glyph_ix)
    &&& match command {
        PaintCommand::Glyph { origin, font_id, glyph_id, font_size, color } => {
            &&& !glyph.is_emoji
            &&& origin.x == glyph_x(line, run_ix, glyph_ix)
            &&& origin.y == glyph_y(line, run_ix, glyph_ix)
            &&& font_id == line.layout.runs[run_ix].font_id
            &&& glyph_id == glyph.id
            &&& font_size == line.layout.font_size
            &&& bytes_in_order(line) ==> forall|d: int| #[trigger]
                covers(line.decoration_runs, d, glyph.index as int) ==> color
                    == line.decoration_runs[d].color
        },
        PaintCommand::Emoji { origin, font_id, glyph_id, font_size } => {
            &&& glyph.is_emoji
            &&& origin.x == glyph_x(line, run_ix, glyph_ix)
            &&& origin.y == glyph_y(line, run_ix, glyph_ix)
            &&& font_id == line.layout.runs[run_ix].font_id
            &&& glyph_id == glyph.id
            &&& font_size == line.layout.font_size
        },
        _ => false,
    }
}

/// Whether a command paints a glyph at all.
pub open spec fn is_glyph_command<F>(command: PaintCommand<F>) -> bool {
    command is Glyph || command is Emoji
}

/// The commands that paint glyphs, in order.
pub open spec fn glyph_commands_of<F>(commands: Seq<PaintCommand<F>>) -> Seq<PaintCommand<F>>
    decreases commands.len(),
{
    if commands.len() == 0 {
        Seq::empty()
    } else {
        let rest = glyph_commands_of(commands.drop_last());
        if is_glyph_command(commands.last()) {
            rest.push(commands.last())
        } else {
            rest
        }
    }
}

pub proof fn lemma_glyph_commands_join<F>(a: Seq<PaintCommand<F>>, b: Seq<PaintCommand<F>>)
    ensures
        glyph_commands_of(a + b) == glyph_commands_of(a) + glyph_commands_of(b),
    decreases b.len(),
{
    if b.len() > 0 {
        lemma_glyph_commands_join(a, b.drop_last());
        assert((a + b).drop_last() =~= a + b.drop_last());
        assert((a + b).last() == b.last());
    } else {
        assert(a + b =~= a);
    }
    assert(glyph_commands_of(a + b) =~= glyph_commands_of(a) + glyph_commands_of(b));
}

/// Whether `places` are glyphs in reading order, all before this one, and each command paints
/// the glyph at its place.
pub open spec fn paints_in_order<F: Scalar>(
    line: TextLineModel<F>,
    commands: Seq<PaintCommand<F>>,
    places: Seq<(int, int)>,
    run_ix: int,
    glyph_ix: int,
) -> bool {
    &&& places.len() == commands.len()
    &&& forall|i: int|
        0 <= i < commands.len() ==> paints_glyph(
            line,
            #[trigger] commands[i],
            places[i].0,
            places[i].1,
        )
    &&& forall|i: int|
        #![trigger places[i]]
        0 <= i < places.len() ==> reads_before(places[i].0, places[i].1, run_ix, glyph_ix)
    &&& forall|i: int, j: int|
        #![trigger places[i], places[j]]
        0 <= i < j < places.len() ==> reads_before(
            places[i].0,
            places[i].1,
            places[j].0,
            places[j].1,
        )
}

/// A rectangle that the ink of a glyph cannot leave: the box of its font put on its baseline,
/// with the width of a glyph to spare on either side.
pub open spec fn holds_ink<F: Scalar>(
    line: TextLineModel<F>,
    ink: Bounds<F>,
    run_ix: int,
    glyph_ix: int,
) -> bool {
    let font = line.glyph_boxes[run_ix];
    let left = glyph_x(line, run_ix, glyph_ix).spec_minus(font.size.width);
    let baseline = glyph_y(line, run_ix, glyph_ix);
    &&& left.spec_le(ink.origin.x)
    &&& ink.origin.x.spec_plus(ink.size.width).spec_le(
        left.spec_plus(font.size.width.spec_times(F::spec_ratio(3, 1))),
    )
    &&& baseline.spec_minus(font.origin.y.spec_plus(font.size.height)).spec_le(ink.origin.y)
    &&& ink.origin.y.spec_plus(ink.size.height).spec_le(baseline.spec_minus(font.origin.y))
}

/// Whether some of a rectangle lies in the content mask.
pub open spec fn shows_in_mask<F: Scalar>(line: TextLineModel<F>, ink: Bounds<F>) -> bool {
    let mask = line.content_mask;
    &&& ink.origin.x.spec_lt(mask.origin.x.spec_plus(mask.size.width))
    &&& mask.origin.x.spec_lt(ink.origin.x.spec_plus(ink.size.width))
    &&& ink.origin.y.spec_lt(mask.origin.y.spec_plus(mask.size.height))
    &&& mask.origin.y.spec_lt(ink.origin.y.spec_plus(ink.size.height))
}

/// Whether comparisons chain, the smaller and the larger of two numbers compare with both, and
/// what is taken away can be added back.
pub open spec fn boxes_compare<F: Scalar>() -> bool {
    &&& forall|a: F, b: F, c: F|
        #![trigger a.spec_le(b), b.spec_le(c)]
        a.spec_le(b) && b.spec_le(c) ==> a.spec_le(c)
    &&& forall|a: F, b: F, c: F|
        #![trigger a.spec_le(b), b.spec_lt(c)]
        a.spec_le(b) && b.spec_lt(c) ==> a.spec_lt(c)
    &&& forall|a: F, b: F, c: F|
        #![trigger a.spec_lt(b), b.spec_le(c)]
        a.spec_lt(b) && b.spec_le(c) ==> a.spec_lt(c)
    &&& forall|a: F, b: F| (#[trigger] a.spec_least(b)).spec_le(a)
    &&& forall|a: F, b: F| a.spec_le(#[trigger] a.spec_greatest(b))
    &&& forall|a: F, b: F| #[trigger] a.spec_plus(b.spec_minus(a)) == b
}

/// Whether a glyph that can be seen has been painted.
pub open spec fn painted_if_seen<F: Scalar>(
    line: TextLineModel<F>,
    commands: Seq<PaintCommand<F>>,
    run_ix: int,
    glyph_ix: int,
    ink: Bounds<F>,
) -> bool {
    holds_ink(line, ink, run_ix, glyph_ix) && shows_in_mask(line, ink) ==> exists|i: int|
        0 <= i < commands.len() && paints_glyph(line, #[trigger] commands[i], run_ix, glyph_ix)
}

/// What holds of painting before a glyph.
spec fn painting_ready<F: Scalar>(
    line: TextLineModel<F>,
    state: LineState<F>,
    painted: Seq<PaintCommand<F>>,
    run_ix: int,
    glyph_ix: int,
    seen: (int, int, Bounds<F>),
) -> bool {
    &&& pen_ready(
        line,
        state.wraps_done as int,
        state.glyph_origin,
        state.prev_x,
        run_ix,
        glyph_ix,
    )
    &&& exists|last: int| #[trigger]
        bytes_follow(line, run_ix, glyph_ix, last) && (bytes_in_order(line) ==> color_ready(
            line,
            state,
            last,
        ))
    &&& state.decorations_done <= line.decoration_runs.len()
    &&& exists|places: Seq<(int, int)>| #[trigger]
        paints_in_order(line, glyph_commands_of(painted), places, run_ix, glyph_ix)
    &&& has_glyph(line, seen.0, seen.1) && reads_before(seen.0, seen.1, run_ix, glyph_ix)
        && boxes_compare::<F>() ==> painted_if_seen(line, painted, seen.0, seen.1, seen.2)
}

/// Whether the color is that of the decoration in force.
spec fn color_ready<F: Scalar>(line: TextLineModel<F>, state: LineState<F>, last: int) -> bool {
    let done = state.decorations_done as int;
    &&& decoration_ready(line, done, state.run_end as int, last)
    &&& state.run_end == bytes_before(line.decoration_runs, done) && done > 0 ==> state.color
        == line.decoration_runs[done - 1].color || bytes_before(
        line.decoration_runs,
        line.decoration_runs.len() as int,
    ) <= last
}

/// What restyling does to the color.
proof fn lemma_color_step<F: Scalar>(
    line: TextLineModel<F>,
    placed: LineState<F>,
    last: int,
    index: usize,
)
    requires
        line.wf(),
        line.decoration_runs.len() <= usize::MAX,
        color_ready(line, placed, last),
        last <= index,
    ensures
        ({
            let styled = if index >= placed.run_end {
                line.restyled(placed, index)
            } else {
                placed
            };
            &&& color_ready(line, styled, index as int)
            &&& forall|d: int| #[trigger]
                covers(line.decoration_runs, d, index as int) ==> styled.color
                    == line.decoration_runs[d].color
        }),
{
    let runs = line.decoration_runs;
    let done = placed.decorations_done as int;
    lemma_bytes_before(runs, 0, runs.len() as int);
    lemma_bytes_before(runs, done, runs.len() as int);
    let total = bytes_before(runs, runs.len() as int);
    if index >= placed.run_end {
        lemma_find(runs, done, placed.run_end as int, index as int);
        let (next, start, found) = find_decoration(
            runs,
            done,
            placed.run_end as int,
            index as int,
        );
        if found is Some {
            lemma_bytes_before(runs, next, runs.len() as int);
        }
        assert forall|d: int| #[trigger] covers(runs, d, index as int) implies line.restyled(
            placed,
            index,
        ).color == runs[d].color by {
            lemma_bytes_before(runs, d + 1, runs.len() as int);
            if found is Some {
                lemma_one_cover(runs, d, next - 1, index as int);
            }
        }
    } else {
        assert forall|d: int| #[trigger] covers(runs, d, index as int) implies placed.color
            == runs[d].color by {
            lemma_bytes_before(runs, d + 1, runs.len() as int);
            if done > 0 && placed.run_end == bytes_before(runs, done) && bytes_before(
                runs,
                done - 1,
            ) <= last {
                assert(covers(runs, done - 1, index as int));
                lemma_one_cover(runs, d, done - 1, index as int);
            }
        }
    }
}

/// A glyph whose ink can be seen is not culled.
proof fn lemma_seen_is_painted<F: Scalar>(
    line: TextLineModel<F>,
    styled: LineState<F>,
    run_ix: int,
    glyph_ix: int,
    ink: Bounds<F>,
)
    requires
        boxes_compare::<F>(),
        steps_add_up::<F>(),
        has_glyph(line, run_ix, glyph_ix),
        styled.glyph_box == line.glyph_boxes[run_ix],
        styled.glyph_origin.x == glyph_x(line, run_ix, glyph_ix),
        styled.glyph_origin.y == row_top(line, row_of(line, run_ix, glyph_ix)),
        holds_ink(line, ink, run_ix, glyph_ix),
        shows_in_mask(line, ink),
    ensures
        line.cull_box(styled, glyph_at(line, run_ix, glyph_ix)).spec_intersects(line.content_mask),
{
    let glyph = glyph_at(line, run_ix, glyph_ix);
    let cull = line.cull_box(styled, glyph);
    let mask = line.content_mask;
    let font = line.glyph_boxes[run_ix];
    let top = styled.glyph_origin.y;
    let baseline = glyph_y(line, run_ix, glyph_ix);
    assert(top.spec_plus(line.baseline()).spec_plus(glyph.position.y) == baseline);
    let ink_top = baseline.spec_minus(font.origin.y.spec_plus(font.size.height));
    let ink_bottom = baseline.spec_minus(font.origin.y);
    let cull_top = ink_top.spec_least(top);
    let cull_bottom = ink_bottom.spec_greatest(top.spec_plus(line.line_height));
    assert(cull.origin.y == cull_top);
    assert(cull_top.spec_plus(cull_bottom.spec_minus(cull_top)) == cull_bottom);
    assert(cull_top.spec_le(ink_top) && ink_bottom.spec_le(cull_bottom));
    let (ink_r, ink_b) = (
        ink.origin.x.spec_plus(ink.size.width),
        ink.origin.y.spec_plus(ink.size.height),
    );
    assert(cull_top.spec_le(ink.origin.y));
    assert(ink_b.spec_le(cull_bottom));
}

proof fn lemma_painting_step<F: Scalar>(
    line: TextLineModel<F>,
    state: LineState<F>,
    painted: Seq<PaintCommand<F>>,
    run_ix: int,
    glyph_ix: int,
    seen: (int, int, Bounds<F>),
)
    requires
        line.wf(),
        line.decoration_runs.len() <= usize::MAX,
        in_reading_order(line.wrap_boundaries),
        steps_add_up::<F>(),
        has_glyph(line, run_ix, glyph_ix),
        state.glyph_box == line.glyph_boxes[run_ix],
        painting_ready(line, state, painted, run_ix, glyph_ix, seen),
    ensures
        ({
            let (after, commands) = line.glyph_step(state, run_ix, glyph_ix);
            &&& painting_ready(line, after, painted + commands, run_ix, glyph_ix + 1, seen)
            &&& after.glyph_box == line.glyph_boxes[run_ix]
        }),
{
    let glyph = glyph_at(line, run_ix, glyph_ix);
    let font_id = line.layout.runs[run_ix].font_id;
    let (after, commands) = line.glyph_step(state, run_ix, glyph_ix);
    let placed = line.at_glyph(state, run_ix, glyph_ix);
    lemma_pen_step(
        line,
        state.wraps_done as int,
        state.glyph_origin,
        state.prev_x,
        run_ix,
        glyph_ix,
    );
    assert(placed.wraps_done == row_of(line, run_ix, glyph_ix));
    assert(placed.glyph_origin.x == glyph_x(line, run_ix, glyph_ix));
    assert(placed.glyph_origin.y == row_top(line, row_of(line, run_ix, glyph_ix)));
    assert(after.glyph_origin == placed.glyph_origin && after.prev_x == placed.prev_x
        && after.wraps_done == placed.wraps_done);
    // The color.
    let last = choose|last: int| #[trigger]
        bytes_follow(line, run_ix, glyph_ix, last) && (bytes_in_order(line) ==> color_ready(
            line,
            state,
            last,
        ));
    assert(last <= glyph.index) by {
        assert(!reads_before(run_ix, glyph_ix, run_ix, glyph_ix));
    }
    if bytes_in_order(line) {
        assert(color_ready(line, placed, last));
        lemma_color_step(line, placed, last, glyph.index);
        assert forall|run: int, g: int|
            has_glyph(line, run, g) && !reads_before(run, g, run_ix, glyph_ix + 1) implies
            glyph.index as int <= (#[trigger] glyph_at(line, run, g)).index by {
            assert(reads_before(run_ix, glyph_ix, run, g));
        }
        assert(bytes_follow(line, run_ix, glyph_ix + 1, glyph.index as int));
    } else {
        assert(bytes_follow(line, run_ix, glyph_ix + 1, last)) by {
            assert forall|run: int, g: int|
                has_glyph(line, run, g) && !reads_before(run, g, run_ix, glyph_ix + 1) implies last
                <= (#[trigger] glyph_at(line, run, g)).index by {
                assert(!reads_before(run, g, run_ix, glyph_ix));
            }
        }
    }
    lemma_decorations_counted(line, placed, glyph.index);
    // The commands.
    let moved = line.pen_moved(state, glyph, run_ix == 0 && glyph_ix == 0);
    let row_end = if line.wraps_at(moved.wraps_done as int, run_ix, glyph_ix) {
        line.row_end_commands(moved)
    } else {
        Seq::empty()
    };
    let style_end = if glyph.index >= placed.run_end {
        line.restyle_commands(placed, glyph.index)
    } else {
        Seq::empty()
    };
    let own = line.glyph_commands(after, font_id, glyph);
    assert(commands == row_end + style_end + own);
    assert forall|i: int| 0 <= i < row_end.len() implies !is_glyph_command(
        #[trigger] row_end[i],
    ) by {}
    assert forall|i: int| 0 <= i < style_end.len() implies !is_glyph_command(
        #[trigger] style_end[i],
    ) by {}
    lemma_no_glyph_commands(row_end);
    lemma_no_glyph_commands(style_end);
    lemma_glyph_commands_join(row_end, style_end);
    lemma_glyph_commands_join(row_end + style_end, own);
    lemma_glyph_commands_join(painted, commands);
    let baseline = line.baseline();
    let x = after.glyph_origin.x;
    assert(x.spec_plus(spec_zero()).spec_plus(spec_zero()) == x);
    assert(own.len() == 1 ==> paints_glyph(line, own[0], run_ix, glyph_ix));
    assert(glyph_commands_of(own) =~= own) by {
        if own.len() == 1 {
            assert(own.drop_last() =~= Seq::empty());
            assert(own.last() == own[0]);
        }
    }
    let before = glyph_commands_of(painted);
    let all = glyph_commands_of(painted + commands);
    assert(all =~= before + own);
    let places = choose|places: Seq<(int, int)>| #[trigger]
        paints_in_order(line, before, places, run_ix, glyph_ix);
    if own.len() == 1 {
        let next = places.push((run_ix, glyph_ix));
        assert forall|i: int| 0 <= i < all.len() implies paints_glyph(
            line,
            #[trigger] all[i],
            next[i].0,
            next[i].1,
        ) by {
            if i < before.len() {
                assert(all[i] == before[i]);
            }
        }
        assert forall|i: int|
            #![trigger next[i]]
            0 <= i < next.len() implies reads_before(
            next[i].0,
            next[i].1,
            run_ix,
            glyph_ix + 1,
        ) by {
            if i < places.len() {
                assert(next[i] == places[i]);
            }
        }
        assert forall|i: int, j: int|
            #![trigger next[i], next[j]]
            0 <= i < j < next.len() implies reads_before(
            next[i].0,
            next[i].1,
            next[j].0,
            next[j].1,
        ) by {
            assert(next[i] == places[i]);
            if j < places.len() {
                assert(next[j] == places[j]);
            }
        }
        assert(paints_in_order(line, all, next, run_ix, glyph_ix + 1));
    } else {
        assert(all =~= before);
        assert forall|i: int|
            #![trigger places[i]]
            0 <= i < places.len() implies reads_before(
            places[i].0,
            places[i].1,
            run_ix,
            glyph_ix + 1,
        ) by {}
        assert(paints_in_order(line, all, places, run_ix, glyph_ix + 1));
    }
    // What can be seen.
    if has_glyph(line, seen.0, seen.1) && reads_before(seen.0, seen.1, run_ix, glyph_ix + 1)
        && boxes_compare::<F>() && holds_ink(line, seen.2, seen.0, seen.1) && shows_in_mask(
        line,
        seen.2,
    ) {
        let total = painted + commands;
        if reads_before(seen.0, seen.1, run_ix, glyph_ix) {
            let i = choose|i: int|
                0 <= i < painted.len() && paints_glyph(
                    line,
                    #[trigger] painted[i],
                    seen.0,
                    seen.1,
                );
            assert(total[i] == painted[i]);
        } else {
            assert(seen.0 == run_ix && seen.1 == glyph_ix);
            lemma_seen_is_painted(line, after, run_ix, glyph_ix, seen.2);
            assert(own.len() == 1);
            let i = painted.len() + row_end.len() + style_end.len();
            assert(total[i as int] == own[0]);
        }
    }
}

proof fn lemma_no_glyph_commands<F>(commands: Seq<PaintCommand<F>>)
    requires
        forall|i: int| 0 <= i < commands.len() ==> !is_glyph_command(#[trigger] commands[i]),
    ensures
        glyph_commands_of(commands) == Seq::<PaintCommand<F>>::empty(),
    decreases commands.len(),
{
    if commands.len() > 0 {
        lemma_no_glyph_commands(commands.drop_last());
    }
}

proof fn lemma_decorations_counted<F: Scalar>(
    line: TextLineModel<F>,
    placed: LineState<F>,
    index: usize,
)
    requires
        placed.decorations_done <= line.decoration_runs.len() <= usize::MAX,
    ensures
        line.restyled(placed, index).decorations_done <= line.decoration_runs.len(),
{
    lemma_find_bounds(
        line.decoration_runs,
        placed.decorations_done as int,
        placed.run_end as int,
        index as int,
    );
}

proof fn lemma_find_bounds<F>(runs: Seq<DecorationRun<F>>, next: int, run_end: int, index: int)
    requires
        0 <= next <= runs.len() <= usize::MAX,
    ensures
        next <= find_decoration(runs, next, run_end, index).0 <= runs.len(),
    decreases runs.len() - next,
{
    if next < runs.len() && index >= run_end + runs[next].len {
        lemma_find_bounds(runs, next + 1, run_end + runs[next].len, index);
    }
}

proof fn lemma_painting_run<F: Scalar>(
    line: TextLineModel<F>,
    state: LineState<F>,
    painted: Seq<PaintCommand<F>>,
    run_ix: int,
    count: nat,
    seen: (int, int, Bounds<F>),
)
    requires
        line.wf(),
        line.decoration_runs.len() <= usize::MAX,
        in_reading_order(line.wrap_boundaries),
        steps_add_up::<F>(),
        0 <= run_ix < line.layout.runs.len(),
        count <= line.layout.runs[run_ix].glyphs.len(),
        painting_ready(line, state, painted, run_ix, 0, seen),
    ensures
        ({
            let (after, commands) = line.run_step(state, run_ix, count);
            &&& painting_ready(line, after, painted + commands, run_ix, count as int, seen)
            &&& after.glyph_box == line.glyph_boxes[run_ix]
        }),
    decreases count,
{
    if count > 0 {
        let k = (count - 1) as nat;
        lemma_painting_run(line, state, painted, run_ix, k, seen);
        let (before, done) = line.run_step(state, run_ix, k);
        lemma_painting_step(line, before, painted + done, run_ix, k as int, seen);
        let (after, commands) = line.glyph_step(before, run_ix, k as int);
        assert(painted + done + commands =~= painted + (done + commands));
    } else {
        assert(painted + Seq::<PaintCommand<F>>::empty() =~= painted);
        let boxed = line.run_step(state, run_ix, 0).0;
        let last = choose|last: int| #[trigger]
            bytes_follow(line, run_ix, 0, last) && (bytes_in_order(line) ==> color_ready(
                line,
                state,
                last,
            ));
        assert(bytes_follow(line, run_ix, 0, last) && (bytes_in_order(line) ==> color_ready(
            line,
            boxed,
            last,
        )));
    }
}

proof fn lemma_painting_line<F: Scalar>(
    line: TextLineModel<F>,
    count: nat,
    seen: (int, int, Bounds<F>),
)
    requires
        line.wf(),
        line.decoration_runs.len() <= usize::MAX,
        in_reading_order(line.wrap_boundaries),
        steps_add_up::<F>(),
        count <= line.layout.runs.len(),
    ensures
        ({
            let (after, painted) = line.line_step(count);
            painting_ready(line, after, painted, count as int, 0, seen)
        }),
    decreases count,
{
    if count > 0 {
        let k = (count - 1) as nat;
        lemma_painting_line(line, k, seen);
        let (before, painted) = line.line_step(k);
        let n = line.layout.runs[k as int].glyphs.len();
        lemma_painting_run(line, before, painted, k as int, n, seen);
        let (after, commands) = line.run_step(before, k as int, n);
        lemma_pen_next_run(
            line,
            after.wraps_done as int,
            after.glyph_origin,
            after.prev_x,
            k as int,
        );
        let last = choose|last: int| #[trigger]
            bytes_follow(line, k as int, n as int, last) && (bytes_in_order(line) ==> color_ready(
                line,
                after,
                last,
            ));
        assert(bytes_follow(line, count as int, 0, last)) by {
            assert forall|run: int, g: int|
                has_glyph(line, run, g) && !reads_before(run, g, count as int, 0) implies last <= (
            #[trigger] glyph_at(line, run, g)).index by {
                assert(!reads_before(run, g, k as int, n as int));
            }
        }
        let all = glyph_commands_of(painted + commands);
        let places = choose|places: Seq<(int, int)>| #[trigger]
            paints_in_order(line, all, places, k as int, n as int);
        assert(paints_in_order(line, all, places, count as int, 0)) by {
            assert forall|i: int|
                #![trigger places[i]]
                0 <= i < places.len() implies reads_before(
                places[i].0,
                places[i].1,
                count as int,
                0,
            ) by {
                assert(reads_before(places[i].0, places[i].1, k as int, n as int));
            }
        }
        if has_glyph(line, seen.0, seen.1) && reads_before(seen.0, seen.1, count as int, 0) {
            assert(reads_before(seen.0, seen.1, k as int, n as int));
        }
    } else {
        lemma_pen_start(line);
        assert(bytes_follow(line, 0, 0, 0));
        lemma_bytes_before(line.decoration_runs, 0, 0);
        assert(color_ready(line, line.start(), 0));
        assert(paints_in_order(
            line,
            glyph_commands_of(Seq::<PaintCommand<F>>::empty()),
            Seq::<(int, int)>::empty(),
            0,
            0,
        ));
    }
}

proof fn lemma_line_end_paints_no_glyphs<F: Scalar>(line: TextLineModel<F>)
    ensures
        glyph_commands_of(line.commands()) == glyph_commands_of(
            line.line_step(line.layout.runs.len()).1,
        ),
{
    let (state, painted) = line.line_step(line.layout.runs.len());
    let end = line.line_end_commands(state);
    assert forall|i: int| 0 <= i < end.len() implies !is_glyph_command(#[trigger] end[i]) by {}
    lemma_no_glyph_commands(end);
    lemma_glyph_commands_join(painted, end);
    assert(glyph_commands_of(line.commands()) =~= glyph_commands_of(painted));
}

/// A line paints glyphs of its own only, in reading order and none of them twice, and each one
/// where it belongs: a row lower for every boundary at or before it, as far behind the start
/// of its row as it is behind the row's first glyph, on the baseline of its row, in its font,
/// and in the color of the decoration that covers its byte.
pub proof fn law_glyphs_are_painted_in_their_places<F: Scalar>(line: TextLineModel<F>)
    requires
        line.wf(),
        line.decoration_runs.len() <= usize::MAX,
        in_reading_order(line.wrap_boundaries),
        steps_add_up::<F>(),
    ensures
        exists|places: Seq<(int, int)>| #[trigger]
            paints_in_order(
                line,
                glyph_commands_of(line.commands()),
                places,
                line.layout.runs.len() as int,
                0,
            ),
{
    let seen = (-1int, 0int, line.content_mask);
    lemma_painting_line(line, line.layout.runs.len(), seen);
    lemma_line_end_paints_no_glyphs(line);
}

/// Every glyph that can be seen is painted: wherever its ink lies in the box of its font, put
/// on the glyph's baseline at its place, if some of the ink is inside the content mask, one of
/// the commands paints the glyph.
pub proof fn law_what_can_be_seen_is_painted<F: Scalar>(
    line: TextLineModel<F>,
    run_ix: int,
    glyph_ix: int,
    ink: Bounds<F>,
)
    requires
        line.wf(),
        line.decoration_runs.len() <= usize::MAX,
        in_reading_order(line.wrap_boundaries),
        steps_add_up::<F>(),
        boxes_compare::<F>(),
        has_glyph(line, run_ix, glyph_ix),
        holds_ink(line, ink, run_ix, glyph_ix),
        shows_in_mask(line, ink),
    ensures
        exists|i: int|
            0 <= i < line.commands().len() && paints_glyph(
                line,
                #[trigger] line.commands()[i],
                run_ix,
                glyph_ix,
            ),
{
    lemma_painting_line(line, line.layout.runs.len(), (run_ix, glyph_ix, ink));
    let (state, painted) = line.line_step(line.layout.runs.len());
    assert(reads_before(run_ix, glyph_ix, line.layout.runs.len() as int, 0));
    assert(painted_if_seen(line, painted, run_ix, glyph_ix, ink));
    let i = choose|i: int|
        0 <= i < painted.len() && paints_glyph(line, #[trigger] painted[i], run_ix, glyph_ix);
    assert(line.commands()[i] == painted[i]);
}

/// A glyph of the next row lies one line height below where it would lie on the row before;
/// and the first row starts at the top of the line.
pub proof fn law_rows_are_a_line_height_apart<F: Scalar>(line: TextLineModel<F>, row: int)
    requires
        row >= 0,
    ensures
        row_top(line, 0) == line.origin.y,
        row_top(line, row + 1) == row_top(line, row).spec_plus(line.line_height),
{
}

/// Alignment divides the space that a row leaves: at the left there is none before the row, at
/// the right none behind it, and in the middle as much before it as behind it, where
/// arithmetic is exact.
pub proof fn law_alignment_divides_the_space<F: Scalar>(
    origin: Point<F>,
    width: F,
    taken: F,
    align: TextAlign,
)
    requires
        forall|a: F, b: F| #[trigger] a.spec_minus(b).spec_plus(b) == a,
        forall|a: F| #[trigger] a.spec_over(spec_two()).spec_times(spec_two()) == a,
    ensures
        ({
            let left = crate::line_paint::spec_aligned_origin_x(origin, width, align, taken);
            match align {
                TextAlign::Left => left == origin.x,
                TextAlign::Right => left.spec_plus(taken) == origin.x.spec_plus(width),
                TextAlign::Center => left.spec_times(spec_two()).spec_plus(taken)
                    == origin.x.spec_times(spec_two()).spec_plus(width),
            }
        }),
{
    let right = origin.x.spec_plus(width);
    assert(right.spec_minus(taken).spec_plus(taken) == right);
    let both = origin.x.spec_times(spec_two()).spec_plus(width);
    assert(both.spec_minus(taken).spec_plus(taken) == both);
    assert(both.spec_minus(taken).spec_over(spec_two()).spec_times(spec_two())
        == both.spec_minus(taken));
}

/// The layer of a line starts where the line does, is as wide as the line, and as high as all
/// its rows: one more than there are boundaries.
pub proof fn law_the_layer_holds_every_row<F: Scalar>(line: TextLineModel<F>)
    ensures
        line.layer().origin == line.origin,
        line.layer().size.width == line.layout.width,
        line.layer().size.height == line.line_height.spec_times(
            F::spec_ratio(line.wrap_boundaries.len() as u32, 1).spec_plus(F::spec_ratio(1, 1)),
        ),
{
}

} // verus!
