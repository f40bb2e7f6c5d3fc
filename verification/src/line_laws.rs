//! What holds of lines and their pieces.
use vstd::prelude::*;

use crate::line::{
    decorations_after, decorations_before, lemma_offset_monotone, offset_of, DecorationRun,
    ShapedLineModel,
};
use crate::line_cursor::{
    decoration_begins, decorations_between, decorations_done, lemma_decorations_after_sum,
    lemma_offset_prefix,
};
use crate::geometry::Point;
use crate::line_layout::{
    glyphs_between, rebased, runs_between, x_in_run, x_in_runs, LineLayoutModel, ShapedGlyph,
    ShapedRunModel,
};
use crate::scalar::{spec_zero, Scalar};

verus! {

/// How many glyphs the first `count` runs hold.
pub open spec fn glyph_count<F>(runs: Seq<ShapedRunModel<F>>, count: nat) -> nat
    decreases count,
{
    if count == 0 {
        0
    } else {
        glyph_count(runs, (count - 1) as nat) + runs[count - 1].glyphs.len()
    }
}

proof fn lemma_glyph_count_prefix<F>(
    a: Seq<ShapedRunModel<F>>,
    b: Seq<ShapedRunModel<F>>,
    count: nat,
)
    requires
        count <= a.len(),
        count <= b.len(),
        forall|i: int| 0 <= i < count ==> a[i] == b[i],
    ensures
        glyph_count(a, count) == glyph_count(b, count),
    decreases count,
{
    if count > 0 {
        lemma_glyph_count_prefix(a, b, (count - 1) as nat);
    }
}

proof fn lemma_glyphs_partition<F: Scalar>(
    glyphs: Seq<ShapedGlyph<F>>,
    split: usize,
    shift: F,
    count: nat,
)
    requires
        count <= glyphs.len(),
    ensures
        glyphs_between(glyphs, 0, split as int, None, count).len() + glyphs_between(
            glyphs,
            split,
            usize::MAX + 1,
            Some(shift),
            count,
        ).len() == count,
    decreases count,
{
    if count > 0 {
        lemma_glyphs_partition(glyphs, split, shift, (count - 1) as nat);
    }
}

proof fn lemma_runs_partition<F: Scalar>(
    runs: Seq<ShapedRunModel<F>>,
    split: usize,
    shift: F,
    count: nat,
)
    requires
        count <= runs.len(),
    ensures
        ({
            let left = runs_between(runs, 0, split as int, None, count);
            let right = runs_between(runs, split, usize::MAX + 1, Some(shift), count);
            glyph_count(left, left.len()) + glyph_count(right, right.len()) == glyph_count(
                runs,
                count,
            )
        }),
    decreases count,
{
    if count > 0 {
        let k = (count - 1) as nat;
        lemma_runs_partition(runs, split, shift, k);
        lemma_glyphs_partition(runs[k as int].glyphs, split, shift, runs[k as int].glyphs.len());
        let left = runs_between(runs, 0, split as int, None, count);
        let right = runs_between(runs, split, usize::MAX + 1, Some(shift), count);
        let left_k = runs_between(runs, 0, split as int, None, k);
        let right_k = runs_between(runs, split, usize::MAX + 1, Some(shift), k);
        if left.len() > left_k.len() {
            lemma_glyph_count_prefix(left, left_k, left_k.len());
        }
        if right.len() > right_k.len() {
            lemma_glyph_count_prefix(right, right_k, right_k.len());
        }
    }
}

/// How many bytes the first `count` decorations cover before a split.
pub proof fn lemma_decorations_before_sum<F>(runs: Seq<DecorationRun<F>>, split: int, count: nat)
    requires
        count <= runs.len(),
        offset_of(runs, runs.len() as int) <= u32::MAX,
        0 <= split,
    ensures
        ({
            let before = decorations_before(runs, split, count);
            offset_of(before, before.len() as int) == if offset_of(runs, count as int) < split {
                offset_of(runs, count as int)
            } else {
                split
            }
        }),
    decreases count,
{
    if count > 0 {
        lemma_decorations_before_sum(runs, split, (count - 1) as nat);
        lemma_offset_monotone(runs, count as int, runs.len() as int);
        lemma_offset_monotone(runs, count - 1, count as int);
        let rest = decorations_before(runs, split, (count - 1) as nat);
        let before = decorations_before(runs, split, count);
        if before.len() > rest.len() {
            lemma_offset_prefix(before, rest, rest.len() as int);
        }
    }
}

/// Splitting loses nothing and adds nothing: the lengths of the two parts sum to
/// the length of the line, their texts make up its text, every glyph is in one of
/// them, and what their decorations cover sums to what the line's cover, the left
/// part's ending at the split. The font's size and extents are those of the line.
pub proof fn law_split_partitions_the_line<F: Scalar>(line: ShapedLineModel<F>, index: usize)
    requires
        index <= line.layout.len,
        line.layout.len == line.text.len(),
        line.layout.len <= u32::MAX,
        line.decorations_fit(),
    ensures
        ({
            let left = line.spec_before(index);
            let right = line.spec_after(index);
            let covered = offset_of(line.decoration_runs, line.decoration_runs.len() as int);
            let left_covered = offset_of(left.decoration_runs, left.decoration_runs.len() as int);
            let right_covered = offset_of(
                right.decoration_runs,
                right.decoration_runs.len() as int,
            );
            &&& left.layout.len + right.layout.len == line.layout.len
            &&& left.layout.len == left.text.len()
            &&& right.layout.len == right.text.len()
            &&& left.text + right.text == line.text
            &&& glyph_count(left.layout.runs, left.layout.runs.len()) + glyph_count(
                right.layout.runs,
                right.layout.runs.len(),
            ) == glyph_count(line.layout.runs, line.layout.runs.len())
            &&& left_covered + right_covered == covered
            &&& left_covered == if covered < index {
                covered
            } else {
                index as int
            }
            &&& left.layout.font_size == line.layout.font_size
            &&& left.layout.ascent == line.layout.ascent
            &&& left.layout.descent == line.layout.descent
            &&& right.layout.font_size == line.layout.font_size
            &&& right.layout.ascent == line.layout.ascent
            &&& right.layout.descent == line.layout.descent
        }),
{
    let left = line.spec_before(index);
    let right = line.spec_after(index);
    assert(left.text + right.text =~= line.text);
    lemma_runs_partition(
        line.layout.runs,
        index,
        line.layout.spec_x_for_index(index),
        line.layout.runs.len(),
    );
    lemma_decorations_before_sum(line.decoration_runs, index as int, line.decoration_runs.len());
    lemma_decorations_after_sum(line.decoration_runs, index as int, line.decoration_runs.len());
    lemma_offset_monotone(line.decoration_runs, 0, line.decoration_runs.len() as int);
}

/// Whether what is taken away can be added back: no rounding, no overflow.
pub open spec fn subtraction_is_undone<F: Scalar>() -> bool {
    forall|a: F, b: F| (#[trigger] a.spec_plus(b.spec_minus(a))) == b
}

/// Where arithmetic is exact, the widths of the two parts of a line sum to its
/// width.
pub proof fn law_split_widths_sum<F: Scalar>(line: ShapedLineModel<F>, index: usize)
    requires
        subtraction_is_undone::<F>(),
    ensures
        line.spec_before(index).layout.width.spec_plus(line.spec_after(index).layout.width)
            == line.layout.width,
{
    let x = line.layout.spec_x_for_index(index);
    assert(x.spec_plus(line.layout.width.spec_minus(x)) == line.layout.width);
}

proof fn lemma_glyphs_prefix<F: Scalar>(
    a: Seq<ShapedGlyph<F>>,
    b: Seq<ShapedGlyph<F>>,
    start: usize,
    end: int,
    shift: Option<F>,
    count: nat,
)
    requires
        count <= a.len(),
        count <= b.len(),
        forall|i: int| 0 <= i < count ==> a[i] == b[i],
    ensures
        glyphs_between(a, start, end, shift, count) == glyphs_between(
            b,
            start,
            end,
            shift,
            count,
        ),
    decreases count,
{
    if count > 0 {
        lemma_glyphs_prefix(a, b, start, end, shift, (count - 1) as nat);
    }
}

/// The glyphs between two bytes are those of the rest behind the first that lie
/// before the second.
proof fn lemma_glyphs_nested<F: Scalar>(
    glyphs: Seq<ShapedGlyph<F>>,
    start: usize,
    end: usize,
    shift: Option<F>,
    count: nat,
)
    requires
        start <= end,
        count <= glyphs.len(),
    ensures
        ({
            let rest = glyphs_between(glyphs, start, usize::MAX + 1, shift, count);
            glyphs_between(rest, 0, end - start, None, rest.len()) == glyphs_between(
                glyphs,
                start,
                end as int,
                shift,
                count,
            )
        }),
    decreases count,
{
    if count > 0 {
        let k = (count - 1) as nat;
        lemma_glyphs_nested(glyphs, start, end, shift, k);
        let rest = glyphs_between(glyphs, start, usize::MAX + 1, shift, count);
        let rest_k = glyphs_between(glyphs, start, usize::MAX + 1, shift, k);
        if rest.len() > rest_k.len() {
            lemma_glyphs_prefix(rest, rest_k, 0, end - start, None, rest_k.len());
            let last = rest.last();
            assert(rebased(last, 0, None) == last);
        }
    }
}

proof fn lemma_runs_prefix<F: Scalar>(
    a: Seq<ShapedRunModel<F>>,
    b: Seq<ShapedRunModel<F>>,
    start: usize,
    end: int,
    shift: Option<F>,
    count: nat,
)
    requires
        count <= a.len(),
        count <= b.len(),
        forall|i: int| 0 <= i < count ==> a[i] == b[i],
    ensures
        runs_between(a, start, end, shift, count) == runs_between(b, start, end, shift, count),
    decreases count,
{
    if count > 0 {
        lemma_runs_prefix(a, b, start, end, shift, (count - 1) as nat);
    }
}

proof fn lemma_runs_nested<F: Scalar>(
    runs: Seq<ShapedRunModel<F>>,
    start: usize,
    end: usize,
    shift: Option<F>,
    count: nat,
)
    requires
        start <= end,
        count <= runs.len(),
    ensures
        ({
            let rest = runs_between(runs, start, usize::MAX + 1, shift, count);
            runs_between(rest, 0, end - start, None, rest.len()) == runs_between(
                runs,
                start,
                end as int,
                shift,
                count,
            )
        }),
    decreases count,
{
    if count > 0 {
        let k = (count - 1) as nat;
        lemma_runs_nested(runs, start, end, shift, k);
        let rest = runs_between(runs, start, usize::MAX + 1, shift, count);
        let rest_k = runs_between(runs, start, usize::MAX + 1, shift, k);
        let glyphs = runs[k as int].glyphs;
        lemma_glyphs_nested(glyphs, start, end, shift, glyphs.len());
        if rest.len() > rest_k.len() {
            lemma_runs_prefix(rest, rest_k, 0, end - start, None, rest_k.len());
        }
    }
}

/// The first glyph of a run at or behind a byte is found again behind an earlier
/// split, moved.
proof fn lemma_x_in_rest_of_run<F: Scalar>(
    glyphs: Seq<ShapedGlyph<F>>,
    start: usize,
    end: usize,
    shift: F,
    from: nat,
)
    requires
        start <= end,
        from <= glyphs.len(),
    ensures
        ({
            let done = glyphs_between(glyphs, start, usize::MAX + 1, Some(shift), from);
            let rest = glyphs_between(glyphs, start, usize::MAX + 1, Some(shift), glyphs.len());
            x_in_run(rest, done.len() as int, (end - start) as usize) == match x_in_run(
                glyphs,
                from as int,
                end,
            ) {
                Some(x) => Some(x.spec_minus(shift)),
                None => None,
            }
        }),
        ({
            let done = glyphs_between(glyphs, start, usize::MAX + 1, Some(shift), from);
            let rest = glyphs_between(glyphs, start, usize::MAX + 1, Some(shift), glyphs.len());
            done.len() <= rest.len() && done =~= rest.take(done.len() as int)
        }),
    decreases glyphs.len() - from,
{
    if from < glyphs.len() {
        lemma_x_in_rest_of_run(glyphs, start, end, shift, from + 1);
        let done = glyphs_between(glyphs, start, usize::MAX + 1, Some(shift), from);
        let next = glyphs_between(glyphs, start, usize::MAX + 1, Some(shift), from + 1);
        let rest = glyphs_between(glyphs, start, usize::MAX + 1, Some(shift), glyphs.len());
        assert(next =~= rest.take(next.len() as int));
        if glyphs[from as int].index >= start {
            assert(next.last() == rest[done.len() as int]);
        }
        assert(done =~= rest.take(done.len() as int)) by {
            assert forall|i: int| 0 <= i < done.len() implies done[i] == rest[i] by {
                assert(next[i] == done[i]);
            }
        }
    }
}

proof fn lemma_x_in_rest<F: Scalar>(
    runs: Seq<ShapedRunModel<F>>,
    start: usize,
    end: usize,
    shift: F,
    from: nat,
)
    requires
        start <= end,
        from <= runs.len(),
    ensures
        ({
            let done = runs_between(runs, start, usize::MAX + 1, Some(shift), from);
            let rest = runs_between(runs, start, usize::MAX + 1, Some(shift), runs.len());
            &&& x_in_runs(rest, done.len() as int, (end - start) as usize) == match x_in_runs(
                runs,
                from as int,
                end,
            ) {
                Some(x) => Some(x.spec_minus(shift)),
                None => None,
            }
            &&& done.len() <= rest.len()
            &&& done =~= rest.take(done.len() as int)
        }),
    decreases runs.len() - from,
{
    if from < runs.len() {
        lemma_x_in_rest(runs, start, end, shift, from + 1);
        let done = runs_between(runs, start, usize::MAX + 1, Some(shift), from);
        let next = runs_between(runs, start, usize::MAX + 1, Some(shift), from + 1);
        let rest = runs_between(runs, start, usize::MAX + 1, Some(shift), runs.len());
        let glyphs = runs[from as int].glyphs;
        lemma_x_in_rest_of_run(glyphs, start, end, shift, 0);
        assert(next =~= rest.take(next.len() as int));
        if next.len() > done.len() {
            assert(next.last() == rest[done.len() as int]);
        }
        assert(done =~= rest.take(done.len() as int)) by {
            assert forall|i: int| 0 <= i < done.len() implies done[i] == rest[i] by {
                assert(next[i] == done[i]);
            }
        }
    }
}

proof fn lemma_decorations_before_prefix<F>(
    a: Seq<DecorationRun<F>>,
    b: Seq<DecorationRun<F>>,
    split: int,
    count: nat,
)
    requires
        count <= a.len(),
        count <= b.len(),
        forall|i: int| 0 <= i < count ==> a[i] == b[i],
    ensures
        decorations_before(a, split, count) == decorations_before(b, split, count),
    decreases count,
{
    if count > 0 {
        lemma_decorations_before_prefix(a, b, split, (count - 1) as nat);
        lemma_offset_prefix(a, b, count - 1);
    }
}

/// A decoration is done with at a byte exactly if it ends there or before.
proof fn lemma_done<F>(runs: Seq<DecorationRun<F>>, from: int, end: int, i: int)
    requires
        0 <= from <= i < runs.len(),
        0 <= end,
    ensures
        from <= decorations_done(runs, from, end) <= runs.len(),
        i < decorations_done(runs, from, end) <==> offset_of(runs, i + 1) <= end,
    decreases runs.len() - from,
{
    lemma_offset_monotone(runs, from + 1, i + 1);
    if decoration_begins(runs, from, end) && offset_of(runs, from + 1) <= end {
        if from < i {
            lemma_done(runs, from + 1, end, i);
        } else if from + 1 < runs.len() {
            lemma_done(runs, from + 1, end, from + 1);
        }
    }
}

/// The decorations between two bytes are those of the rest behind the first that
/// lie before the second.
proof fn lemma_decorations_nested<F>(
    runs: Seq<DecorationRun<F>>,
    start: int,
    end: int,
    count: nat,
)
    requires
        0 <= start <= end,
        count <= runs.len(),
        offset_of(runs, runs.len() as int) <= u32::MAX,
    ensures
        ({
            let rest = decorations_after(runs, start, count);
            decorations_before(rest, end - start, rest.len()) == decorations_between(
                runs,
                decorations_done(runs, 0, start),
                start,
                end,
                count,
            )
        }),
    decreases count,
{
    if count > 0 {
        let k = (count - 1) as nat;
        lemma_decorations_nested(runs, start, end, k);
        lemma_done(runs, 0, start, k as int);
        lemma_decorations_after_sum(runs, start, k);
        lemma_offset_monotone(runs, count as int, runs.len() as int);
        let rest = decorations_after(runs, start, count);
        let rest_k = decorations_after(runs, start, k);
        if rest.len() > rest_k.len() {
            lemma_decorations_before_prefix(rest, rest_k, end - start, rest_k.len());
            lemma_offset_prefix(rest, rest_k, rest_k.len() as int);
        }
    }
}

/// A piece that a cursor takes of a byte-ordered line is what splitting the line
/// at the piece's start, and the rest at its end, gives: the same glyphs at the
/// same places, the same width, text and decorations.
pub proof fn law_cursor_pieces_match_splits<F: Scalar>(
    line: ShapedLineModel<F>,
    start: usize,
    end: usize,
)
    requires
        start <= end <= line.layout.len,
        line.layout.len == line.text.len(),
        line.layout.len <= u32::MAX,
        line.decorations_fit(),
    ensures
        line.piece(
            start,
            line.layout.spec_x_for_index(start),
            end,
            decorations_done(line.decoration_runs, 0, start as int),
        ) == line.spec_after(start).spec_before((end - start) as usize),
{
    let x = line.layout.spec_x_for_index(start);
    let piece = line.piece(
        start,
        x,
        end,
        decorations_done(line.decoration_runs, 0, start as int),
    );
    let split = line.spec_after(start).spec_before((end - start) as usize);
    let runs = line.layout.runs;
    lemma_runs_nested(runs, start, end, Some(x), runs.len());
    lemma_x_in_rest(runs, start, end, x, 0);
    assert(runs_between(runs, start, usize::MAX + 1, Some(x), 0) =~= Seq::empty());
    assert(piece.layout.width == split.layout.width);
    assert(piece.layout == split.layout);
    assert(piece.text =~= split.text);
    lemma_decorations_nested(
        line.decoration_runs,
        start as int,
        end as int,
        line.decoration_runs.len(),
    );
}

/// Going on from where a cursor has got to, it is done with the decorations that
/// it would be done with, had it gone there at once.
pub proof fn law_cursor_steps_compose<F>(runs: Seq<DecorationRun<F>>, start: int, end: int)
    requires
        0 <= start <= end,
    ensures
        decorations_done(runs, decorations_done(runs, 0, start), end) == decorations_done(
            runs,
            0,
            end,
        ),
{
    if runs.len() > 0 {
        lemma_done(runs, 0, start, 0);
        lemma_done(runs, 0, end, 0);
        let first = decorations_done(runs, 0, start);
        let whole = decorations_done(runs, 0, end);
        if first < runs.len() {
            lemma_done(runs, first, end, first);
            let both = decorations_done(runs, first, end);
            if both < whole {
                lemma_done(runs, 0, end, both);
                lemma_done(runs, first, end, both);
            }
            if whole < both {
                if whole < first {
                    lemma_done(runs, 0, end, whole);
                    lemma_done(runs, 0, start, whole);
                } else {
                    lemma_done(runs, 0, end, whole);
                    lemma_done(runs, first, end, whole);
                }
            }
        } else {
            lemma_done(runs, 0, start, runs.len() - 1);
            lemma_done(runs, 0, end, runs.len() - 1);
        }
    }
}

/// Whether moving by one offset, and then by what is left to another, is moving by the
/// other, and moving by nothing changes nothing.
pub open spec fn offsets_add_up<F: Scalar>() -> bool {
    &&& forall|x: F, a: F, b: F| #[trigger]
        x.spec_minus(a).spec_minus(b.spec_minus(a)) == x.spec_minus(b)
    &&& forall|x: F| #[trigger] x.spec_minus(spec_zero()) == x
}

proof fn lemma_glyphs_behind<F: Scalar>(
    glyphs: Seq<ShapedGlyph<F>>,
    start: usize,
    end: usize,
    a: F,
    b: F,
    count: nat,
)
    requires
        start <= end,
        count <= glyphs.len(),
        offsets_add_up::<F>(),
    ensures
        ({
            let rest = glyphs_between(glyphs, start, usize::MAX + 1, Some(a), count);
            glyphs_between(
                rest,
                (end - start) as usize,
                usize::MAX + 1,
                Some(b.spec_minus(a)),
                rest.len(),
            ) == glyphs_between(glyphs, end, usize::MAX + 1, Some(b), count)
        }),
    decreases count,
{
    if count > 0 {
        let k = (count - 1) as nat;
        lemma_glyphs_behind(glyphs, start, end, a, b, k);
        let rest = glyphs_between(glyphs, start, usize::MAX + 1, Some(a), count);
        let rest_k = glyphs_between(glyphs, start, usize::MAX + 1, Some(a), k);
        if rest.len() > rest_k.len() {
            lemma_glyphs_prefix(
                rest,
                rest_k,
                (end - start) as usize,
                usize::MAX + 1,
                Some(b.spec_minus(a)),
                rest_k.len(),
            );
        }
    }
}

proof fn lemma_runs_behind<F: Scalar>(
    runs: Seq<ShapedRunModel<F>>,
    start: usize,
    end: usize,
    a: F,
    b: F,
    count: nat,
)
    requires
        start <= end,
        count <= runs.len(),
        offsets_add_up::<F>(),
    ensures
        ({
            let rest = runs_between(runs, start, usize::MAX + 1, Some(a), count);
            runs_between(
                rest,
                (end - start) as usize,
                usize::MAX + 1,
                Some(b.spec_minus(a)),
                rest.len(),
            ) == runs_between(runs, end, usize::MAX + 1, Some(b), count)
        }),
    decreases count,
{
    if count > 0 {
        let k = (count - 1) as nat;
        lemma_runs_behind(runs, start, end, a, b, k);
        let rest = runs_between(runs, start, usize::MAX + 1, Some(a), count);
        let rest_k = runs_between(runs, start, usize::MAX + 1, Some(a), k);
        let glyphs = runs[k as int].glyphs;
        lemma_glyphs_behind(glyphs, start, end, a, b, glyphs.len());
        if rest.len() > rest_k.len() {
            lemma_runs_prefix(
                rest,
                rest_k,
                (end - start) as usize,
                usize::MAX + 1,
                Some(b.spec_minus(a)),
                rest_k.len(),
            );
        }
    }
}

proof fn lemma_decorations_after_prefix<F>(
    a: Seq<DecorationRun<F>>,
    b: Seq<DecorationRun<F>>,
    split: int,
    count: nat,
)
    requires
        count <= a.len(),
        count <= b.len(),
        forall|i: int| 0 <= i < count ==> a[i] == b[i],
    ensures
        decorations_after(a, split, count) == decorations_after(b, split, count),
    decreases count,
{
    if count > 0 {
        lemma_decorations_after_prefix(a, b, split, (count - 1) as nat);
        lemma_offset_prefix(a, b, count - 1);
    }
}

proof fn lemma_decorations_behind<F>(
    runs: Seq<DecorationRun<F>>,
    start: int,
    end: int,
    count: nat,
)
    requires
        0 <= start <= end,
        count <= runs.len(),
        offset_of(runs, runs.len() as int) <= u32::MAX,
    ensures
        ({
            let rest = decorations_after(runs, start, count);
            decorations_after(rest, end - start, rest.len()) == decorations_after(runs, end, count)
        }),
    decreases count,
{
    if count > 0 {
        let k = (count - 1) as nat;
        lemma_decorations_behind(runs, start, end, k);
        lemma_decorations_after_sum(runs, start, k);
        lemma_offset_monotone(runs, 0, k as int);
        lemma_offset_monotone(runs, count as int, runs.len() as int);
        let rest = decorations_after(runs, start, count);
        let rest_k = decorations_after(runs, start, k);
        if rest.len() > rest_k.len() {
            lemma_decorations_after_prefix(rest, rest_k, end - start, rest_k.len());
            lemma_offset_prefix(rest, rest_k, rest_k.len() as int);
        }
    }
}

/// Splitting a line and then the rest leaves what splitting the line once, at the
/// second boundary, leaves.
pub proof fn law_splits_of_the_rest_compose<F: Scalar>(
    line: ShapedLineModel<F>,
    start: usize,
    end: usize,
)
    requires
        start <= end <= line.layout.len,
        line.splittable(),
        offsets_add_up::<F>(),
    ensures
        line.spec_after(start).spec_after((end - start) as usize) == line.spec_after(end),
{
    let a = line.layout.spec_x_for_index(start);
    let b = line.layout.spec_x_for_index(end);
    let runs = line.layout.runs;
    let rest = line.spec_after(start);
    lemma_x_in_rest(runs, start, end, a, 0);
    assert(runs_between(runs, start, usize::MAX + 1, Some(a), 0) =~= Seq::empty());
    assert(rest.layout.spec_x_for_index((end - start) as usize) == b.spec_minus(a));
    lemma_runs_behind(runs, start, end, a, b, runs.len());
    lemma_decorations_behind(
        line.decoration_runs,
        start as int,
        end as int,
        line.decoration_runs.len(),
    );
    let twice = rest.spec_after((end - start) as usize);
    let once = line.spec_after(end);
    assert(twice.text =~= once.text);
    assert(twice.layout == once.layout);
}

/// The boundary before the one at `i`; the start of the line before the first.
pub open spec fn boundary_before(boundaries: Seq<usize>, i: int) -> usize {
    if i == 0 {
        0
    } else {
        boundaries[i - 1]
    }
}

/// What is left of a line that is split at the first `i` boundaries, one after the
/// other, each time in what the split before has left.
pub open spec fn rest_of_splits<F: Scalar>(
    line: ShapedLineModel<F>,
    boundaries: Seq<usize>,
    i: nat,
) -> ShapedLineModel<F>
    decreases i,
{
    if i == 0 {
        line
    } else {
        rest_of_splits(line, boundaries, (i - 1) as nat).spec_after(
            (boundaries[i - 1] - boundary_before(boundaries, i - 1)) as usize,
        )
    }
}

/// The decoration that a cursor is at when it has got to the first `i` boundaries.
pub open spec fn cursor_decoration<F>(
    runs: Seq<DecorationRun<F>>,
    boundaries: Seq<usize>,
    i: nat,
) -> int
    decreases i,
{
    if i == 0 {
        0
    } else {
        decorations_done(
            runs,
            cursor_decoration(runs, boundaries, (i - 1) as nat),
            boundaries[i - 1] as int,
        )
    }
}

/// The piece that a cursor takes of a byte-ordered line on its way to the boundary at
/// `i`.
pub open spec fn cursor_piece<F: Scalar>(
    line: ShapedLineModel<F>,
    boundaries: Seq<usize>,
    i: nat,
) -> ShapedLineModel<F> {
    let start = boundary_before(boundaries, i as int);
    line.piece(
        start,
        if i == 0 {
            spec_zero()
        } else {
            line.layout.spec_x_for_index(start)
        },
        boundaries[i as int],
        cursor_decoration(line.decoration_runs, boundaries, i),
    )
}

/// Whether boundaries never go back, and lie in a text of `len` bytes.
pub open spec fn in_order(boundaries: Seq<usize>, len: int) -> bool {
    forall|i: int|
        0 <= i < boundaries.len() ==> boundary_before(boundaries, i) <= (
        #[trigger] boundaries[i]) <= len
}

proof fn lemma_cursor_decoration<F>(
    runs: Seq<DecorationRun<F>>,
    boundaries: Seq<usize>,
    i: nat,
    len: int,
)
    requires
        0 < i <= boundaries.len(),
        in_order(boundaries, len),
    ensures
        cursor_decoration(runs, boundaries, i) == decorations_done(
            runs,
            0,
            boundaries[i - 1] as int,
        ),
    decreases i,
{
    assert(boundary_before(boundaries, i - 1) <= boundaries[i - 1]);
    if i > 1 {
        lemma_cursor_decoration(runs, boundaries, (i - 1) as nat, len);
        law_cursor_steps_compose(runs, boundaries[i - 2] as int, boundaries[i - 1] as int);
    } else {
        assert(cursor_decoration(runs, boundaries, 0) == 0);
    }
}

proof fn lemma_rest_of_splits<F: Scalar>(
    line: ShapedLineModel<F>,
    boundaries: Seq<usize>,
    i: nat,
)
    requires
        0 < i <= boundaries.len(),
        in_order(boundaries, line.layout.len as int),
        line.splittable(),
        offsets_add_up::<F>(),
    ensures
        rest_of_splits(line, boundaries, i) == line.spec_after(boundaries[i - 1]),
    decreases i,
{
    assert(boundary_before(boundaries, i - 1) <= boundaries[i - 1]);
    if i > 1 {
        lemma_rest_of_splits(line, boundaries, (i - 1) as nat);
        law_splits_of_the_rest_compose(line, boundaries[i - 2], boundaries[i - 1]);
    } else {
        assert(rest_of_splits(line, boundaries, 0) == line);
    }
}

/// A glyph without its horizontal place.
pub open spec fn unplaced_glyph<F: Scalar>(glyph: ShapedGlyph<F>) -> ShapedGlyph<F> {
    ShapedGlyph { position: Point { x: spec_zero(), ..glyph.position }, ..glyph }
}

/// Glyphs without their horizontal places.
pub open spec fn unplaced_glyphs<F: Scalar>(glyphs: Seq<ShapedGlyph<F>>) -> Seq<ShapedGlyph<F>> {
    glyphs.map_values(|glyph: ShapedGlyph<F>| unplaced_glyph(glyph))
}

/// Runs without the horizontal places of their glyphs.
pub open spec fn unplaced_runs<F: Scalar>(runs: Seq<ShapedRunModel<F>>) -> Seq<
    ShapedRunModel<F>,
> {
    runs.map_values(
        |run: ShapedRunModel<F>|
            ShapedRunModel { font_id: run.font_id, glyphs: unplaced_glyphs(run.glyphs) },
    )
}

/// A line without its width and the horizontal places of its glyphs: all of it that no
/// rounding can change.
pub open spec fn unplaced<F: Scalar>(line: ShapedLineModel<F>) -> ShapedLineModel<F> {
    ShapedLineModel {
        layout: LineLayoutModel {
            width: spec_zero(),
            runs: unplaced_runs(line.layout.runs),
            ..line.layout
        },
        ..line
    }
}

proof fn lemma_unplaced_glyphs_between<F: Scalar>(
    a: Seq<ShapedGlyph<F>>,
    b: Seq<ShapedGlyph<F>>,
    start: usize,
    end: int,
    a_shift: Option<F>,
    b_shift: Option<F>,
    count: nat,
)
    requires
        count <= a.len(),
        unplaced_glyphs(a) == unplaced_glyphs(b),
    ensures
        unplaced_glyphs(glyphs_between(a, start, end, a_shift, count)) == unplaced_glyphs(
            glyphs_between(b, start, end, b_shift, count),
        ),
    decreases count,
{
    let left = glyphs_between(a, start, end, a_shift, count);
    let right = glyphs_between(b, start, end, b_shift, count);
    if count > 0 {
        lemma_unplaced_glyphs_between(a, b, start, end, a_shift, b_shift, (count - 1) as nat);
        let left_rest = glyphs_between(a, start, end, a_shift, (count - 1) as nat);
        let right_rest = glyphs_between(b, start, end, b_shift, (count - 1) as nat);
        assert(unplaced_glyphs(a).len() == a.len());
        assert(unplaced_glyphs(b).len() == b.len());
        assert(unplaced_glyphs(a)[count - 1] == unplaced_glyph(a[count - 1]));
        assert(unplaced_glyphs(b)[count - 1] == unplaced_glyph(b[count - 1]));
        assert(a[count - 1].index == b[count - 1].index);
        assert(unplaced_glyphs(left_rest).len() == left_rest.len());
        assert(unplaced_glyphs(right_rest).len() == right_rest.len());
        assert(unplaced_glyphs(left) =~= unplaced_glyphs(right)) by {
            assert forall|i: int| 0 <= i < left.len() implies unplaced_glyph(left[i])
                == unplaced_glyph(right[i]) by {
                if i < left_rest.len() {
                    assert(unplaced_glyphs(left_rest)[i] == unplaced_glyph(left[i]));
                    assert(unplaced_glyphs(right_rest)[i] == unplaced_glyph(right[i]));
                }
            }
        }
    } else {
        assert(unplaced_glyphs(left) =~= unplaced_glyphs(right));
    }
}

proof fn lemma_unplaced_runs_between<F: Scalar>(
    a: Seq<ShapedRunModel<F>>,
    b: Seq<ShapedRunModel<F>>,
    start: usize,
    end: int,
    a_shift: Option<F>,
    b_shift: Option<F>,
    count: nat,
)
    requires
        count <= a.len(),
        unplaced_runs(a) == unplaced_runs(b),
    ensures
        unplaced_runs(runs_between(a, start, end, a_shift, count)) == unplaced_runs(
            runs_between(b, start, end, b_shift, count),
        ),
    decreases count,
{
    let left = runs_between(a, start, end, a_shift, count);
    let right = runs_between(b, start, end, b_shift, count);
    if count > 0 {
        lemma_unplaced_runs_between(a, b, start, end, a_shift, b_shift, (count - 1) as nat);
        let left_rest = runs_between(a, start, end, a_shift, (count - 1) as nat);
        let right_rest = runs_between(b, start, end, b_shift, (count - 1) as nat);
        let (run_a, run_b) = (a[count - 1], b[count - 1]);
        assert(unplaced_runs(a).len() == a.len());
        assert(unplaced_runs(b).len() == b.len());
        assert(unplaced_runs(a)[count - 1].glyphs == unplaced_glyphs(run_a.glyphs));
        assert(unplaced_runs(b)[count - 1].glyphs == unplaced_glyphs(run_b.glyphs));
        assert(unplaced_runs(a)[count - 1].font_id == run_a.font_id);
        assert(unplaced_runs(b)[count - 1].font_id == run_b.font_id);
        assert(unplaced_glyphs(run_a.glyphs).len() == run_a.glyphs.len());
        assert(unplaced_glyphs(run_b.glyphs).len() == run_b.glyphs.len());
        lemma_unplaced_glyphs_between(
            run_a.glyphs,
            run_b.glyphs,
            start,
            end,
            a_shift,
            b_shift,
            run_a.glyphs.len(),
        );
        let glyphs_a = glyphs_between(run_a.glyphs, start, end, a_shift, run_a.glyphs.len());
        let glyphs_b = glyphs_between(run_b.glyphs, start, end, b_shift, run_b.glyphs.len());
        assert(unplaced_glyphs(glyphs_a).len() == glyphs_a.len());
        assert(unplaced_glyphs(glyphs_b).len() == glyphs_b.len());
        assert(unplaced_runs(left_rest).len() == left_rest.len());
        assert(unplaced_runs(right_rest).len() == right_rest.len());
        assert(unplaced_runs(left) =~= unplaced_runs(right)) by {
            assert forall|i: int| 0 <= i < left.len() implies #[trigger] unplaced_runs(left)[i]
                == unplaced_runs(right)[i] by {
                if i < left_rest.len() {
                    assert(unplaced_runs(left_rest)[i] == unplaced_runs(left)[i]);
                    assert(unplaced_runs(right_rest)[i] == unplaced_runs(right)[i]);
                }
            }
        }
    } else {
        assert(unplaced_runs(left) =~= unplaced_runs(right));
    }
}

/// What splits of two lines that differ in places alone give differs in places alone.
proof fn lemma_unplaced_splits<F: Scalar>(
    a: ShapedLineModel<F>,
    b: ShapedLineModel<F>,
    index: usize,
)
    requires
        unplaced(a) == unplaced(b),
    ensures
        unplaced(a.spec_before(index)) == unplaced(b.spec_before(index)),
        unplaced(a.spec_after(index)) == unplaced(b.spec_after(index)),
{
    let (runs_a, runs_b) = (a.layout.runs, b.layout.runs);
    assert(unplaced(a).layout.runs == unplaced(b).layout.runs);
    assert(unplaced_runs(runs_a).len() == runs_a.len());
    assert(unplaced_runs(runs_b).len() == runs_b.len());
    lemma_unplaced_runs_between(runs_a, runs_b, 0, index as int, None, None, runs_a.len());
    lemma_unplaced_runs_between(
        runs_a,
        runs_b,
        index,
        usize::MAX + 1,
        Some(a.layout.spec_x_for_index(index)),
        Some(b.layout.spec_x_for_index(index)),
        runs_a.len(),
    );
    assert(unplaced(a).text == a.text && unplaced(b).text == b.text);
    assert(unplaced(a).decoration_runs == a.decoration_runs);
    assert(unplaced(b).decoration_runs == b.decoration_runs);
    assert(unplaced(a).layout.len == a.layout.len && unplaced(b).layout.len == b.layout.len);
    assert(unplaced(a).layout.font_size == a.layout.font_size);
    assert(unplaced(b).layout.font_size == b.layout.font_size);
    assert(unplaced(a).layout.ascent == a.layout.ascent);
    assert(unplaced(b).layout.ascent == b.layout.ascent);
    assert(unplaced(a).layout.descent == a.layout.descent);
    assert(unplaced(b).layout.descent == b.layout.descent);
}

proof fn lemma_unplaced_glyphs_behind<F: Scalar>(
    glyphs: Seq<ShapedGlyph<F>>,
    start: usize,
    end: usize,
    a: Option<F>,
    shift: Option<F>,
    b: Option<F>,
    count: nat,
)
    requires
        start <= end,
        count <= glyphs.len(),
    ensures
        ({
            let rest = glyphs_between(glyphs, start, usize::MAX + 1, a, count);
            unplaced_glyphs(
                glyphs_between(rest, (end - start) as usize, usize::MAX + 1, shift, rest.len()),
            ) == unplaced_glyphs(glyphs_between(glyphs, end, usize::MAX + 1, b, count))
        }),
    decreases count,
{
    let behind = (end - start) as usize;
    let rest = glyphs_between(glyphs, start, usize::MAX + 1, a, count);
    let left = glyphs_between(rest, behind, usize::MAX + 1, shift, rest.len());
    let right = glyphs_between(glyphs, end, usize::MAX + 1, b, count);
    if count > 0 {
        let k = (count - 1) as nat;
        lemma_unplaced_glyphs_behind(glyphs, start, end, a, shift, b, k);
        let rest_k = glyphs_between(glyphs, start, usize::MAX + 1, a, k);
        let left_k = glyphs_between(rest_k, behind, usize::MAX + 1, shift, rest_k.len());
        let right_k = glyphs_between(glyphs, end, usize::MAX + 1, b, k);
        if rest.len() > rest_k.len() {
            lemma_glyphs_prefix(rest, rest_k, behind, usize::MAX + 1, shift, rest_k.len());
        }
        assert(unplaced_glyphs(left_k).len() == left_k.len());
        assert(unplaced_glyphs(right_k).len() == right_k.len());
        assert(unplaced_glyphs(left) =~= unplaced_glyphs(right)) by {
            assert forall|i: int| 0 <= i < left.len() implies unplaced_glyph(left[i])
                == unplaced_glyph(right[i]) by {
                if i < left_k.len() {
                    assert(unplaced_glyphs(left_k)[i] == unplaced_glyph(left[i]));
                    assert(unplaced_glyphs(right_k)[i] == unplaced_glyph(right[i]));
                }
            }
        }
    } else {
        assert(unplaced_glyphs(left) =~= unplaced_glyphs(right));
    }
}

proof fn lemma_unplaced_runs_behind<F: Scalar>(
    runs: Seq<ShapedRunModel<F>>,
    start: usize,
    end: usize,
    a: Option<F>,
    shift: Option<F>,
    b: Option<F>,
    count: nat,
)
    requires
        start <= end,
        count <= runs.len(),
    ensures
        ({
            let rest = runs_between(runs, start, usize::MAX + 1, a, count);
            unplaced_runs(
                runs_between(rest, (end - start) as usize, usize::MAX + 1, shift, rest.len()),
            ) == unplaced_runs(runs_between(runs, end, usize::MAX + 1, b, count))
        }),
    decreases count,
{
    let behind = (end - start) as usize;
    let rest = runs_between(runs, start, usize::MAX + 1, a, count);
    let left = runs_between(rest, behind, usize::MAX + 1, shift, rest.len());
    let right = runs_between(runs, end, usize::MAX + 1, b, count);
    if count > 0 {
        let k = (count - 1) as nat;
        lemma_unplaced_runs_behind(runs, start, end, a, shift, b, k);
        let rest_k = runs_between(runs, start, usize::MAX + 1, a, k);
        let left_k = runs_between(rest_k, behind, usize::MAX + 1, shift, rest_k.len());
        let right_k = runs_between(runs, end, usize::MAX + 1, b, k);
        let glyphs = runs[k as int].glyphs;
        let own = glyphs_between(glyphs, start, usize::MAX + 1, a, glyphs.len());
        let own_left = glyphs_between(own, behind, usize::MAX + 1, shift, own.len());
        let own_right = glyphs_between(glyphs, end, usize::MAX + 1, b, glyphs.len());
        lemma_unplaced_glyphs_behind(glyphs, start, end, a, shift, b, glyphs.len());
        assert(unplaced_glyphs(own_left).len() == own_left.len());
        assert(unplaced_glyphs(own_right).len() == own_right.len());
        if rest.len() > rest_k.len() {
            lemma_runs_prefix(rest, rest_k, behind, usize::MAX + 1, shift, rest_k.len());
        } else {
            assert(own_left.len() == 0);
        }
        assert(unplaced_runs(left_k).len() == left_k.len());
        assert(unplaced_runs(right_k).len() == right_k.len());
        assert(unplaced_runs(left) =~= unplaced_runs(right)) by {
            assert forall|i: int| 0 <= i < left.len() implies #[trigger] unplaced_runs(left)[i]
                == unplaced_runs(right)[i] by {
                if i < left_k.len() {
                    assert(unplaced_runs(left_k)[i] == unplaced_runs(left)[i]);
                    assert(unplaced_runs(right_k)[i] == unplaced_runs(right)[i]);
                }
            }
        }
    } else {
        assert(unplaced_runs(left) =~= unplaced_runs(right));
    }
}

proof fn lemma_unplaced_rest_of_splits<F: Scalar>(
    line: ShapedLineModel<F>,
    boundaries: Seq<usize>,
    i: nat,
)
    requires
        0 < i <= boundaries.len(),
        in_order(boundaries, line.layout.len as int),
        line.splittable(),
    ensures
        unplaced(rest_of_splits(line, boundaries, i)) == unplaced(
            line.spec_after(boundaries[i - 1]),
        ),
    decreases i,
{
    assert(boundary_before(boundaries, i - 1) <= boundaries[i - 1]);
    if i > 1 {
        let (start, end) = (boundaries[i - 2], boundaries[i - 1]);
        assert(boundaries[i - 2] <= line.layout.len);
        lemma_unplaced_rest_of_splits(line, boundaries, (i - 1) as nat);
        let rest = rest_of_splits(line, boundaries, (i - 1) as nat);
        let at_once = line.spec_after(start);
        lemma_unplaced_splits(rest, at_once, (end - start) as usize);
        lemma_unplaced_runs_behind(
            line.layout.runs,
            start,
            end,
            Some(line.layout.spec_x_for_index(start)),
            Some(at_once.layout.spec_x_for_index((end - start) as usize)),
            Some(line.layout.spec_x_for_index(end)),
            line.layout.runs.len(),
        );
        lemma_decorations_behind(
            line.decoration_runs,
            start as int,
            end as int,
            line.decoration_runs.len(),
        );
        assert(at_once.spec_after((end - start) as usize).text =~= line.spec_after(end).text);
        assert(unplaced(at_once.spec_after((end - start) as usize)).layout == unplaced(
            line.spec_after(end),
        ).layout);
    } else {
        assert(rest_of_splits(line, boundaries, 0) == line);
    }
}

/// From the start of a line on, the decorations between two bytes are those before the
/// second.
proof fn lemma_decorations_from_start<F>(
    runs: Seq<DecorationRun<F>>,
    end: int,
    count: nat,
)
    requires
        0 <= end,
        count <= runs.len(),
    ensures
        decorations_between(runs, 0, 0, end, count) == decorations_before(runs, end, count),
    decreases count,
{
    if count > 0 {
        lemma_decorations_from_start(runs, end, (count - 1) as nat);
        lemma_offset_monotone(runs, 0, count - 1);
        let run = runs[count - 1];
        assert(DecorationRun { len: run.len, ..run } == run);
    }
}

proof fn lemma_glyphs_not_moved<F: Scalar>(
    glyphs: Seq<ShapedGlyph<F>>,
    end: int,
    count: nat,
)
    requires
        count <= glyphs.len(),
        offsets_add_up::<F>(),
    ensures
        glyphs_between(glyphs, 0, end, Some(spec_zero()), count) == glyphs_between(
            glyphs,
            0,
            end,
            None,
            count,
        ),
    decreases count,
{
    if count > 0 {
        lemma_glyphs_not_moved(glyphs, end, (count - 1) as nat);
    }
}

proof fn lemma_runs_not_moved<F: Scalar>(
    runs: Seq<ShapedRunModel<F>>,
    end: int,
    count: nat,
)
    requires
        count <= runs.len(),
        offsets_add_up::<F>(),
    ensures
        runs_between(runs, 0, end, Some(spec_zero()), count) == runs_between(
            runs,
            0,
            end,
            None,
            count,
        ),
    decreases count,
{
    if count > 0 {
        let glyphs = runs[count - 1].glyphs;
        lemma_runs_not_moved(runs, end, (count - 1) as nat);
        lemma_glyphs_not_moved(glyphs, end, glyphs.len());
    }
}

/// The pieces that a cursor takes of a byte-ordered line at ordered boundaries are what
/// splitting the line there gives, one boundary after the other, each time in what the
/// split before has left: the same text, glyphs and decorations; and, where offsets add
/// up without rounding, the same width and the same places too.
pub proof fn law_cursor_matches_successive_splits<F: Scalar>(
    line: ShapedLineModel<F>,
    boundaries: Seq<usize>,
    i: nat,
)
    requires
        i < boundaries.len(),
        in_order(boundaries, line.layout.len as int),
        line.splittable(),
    ensures
        ({
            let taken = (boundaries[i as int] - boundary_before(
                boundaries,
                i as int,
            )) as usize;
            let piece = cursor_piece(line, boundaries, i);
            let split = rest_of_splits(line, boundaries, i).spec_before(taken);
            &&& unplaced(piece) == unplaced(split)
            &&& offsets_add_up::<F>() ==> piece == split
        }),
{
    let start = boundary_before(boundaries, i as int);
    let end = boundaries[i as int];
    let taken = (end - start) as usize;
    let piece = cursor_piece(line, boundaries, i);
    let rest = rest_of_splits(line, boundaries, i);
    let runs = line.layout.runs;
    assert(start <= end);
    if i == 0 {
        assert(rest == line);
        assert(cursor_decoration(line.decoration_runs, boundaries, 0) == 0);
        lemma_decorations_from_start(
            line.decoration_runs,
            end as int,
            line.decoration_runs.len(),
        );
        lemma_unplaced_runs_between(
            runs,
            runs,
            0,
            end as int,
            Some(spec_zero()),
            None,
            runs.len(),
        );
        assert(piece.text =~= line.spec_before(taken).text);
        assert(unplaced(piece).layout == unplaced(line.spec_before(taken)).layout);
        if offsets_add_up::<F>() {
            lemma_runs_not_moved(runs, end as int, runs.len());
            assert(piece.layout == line.spec_before(taken).layout);
        }
    } else {
        assert(boundaries[i - 1] <= line.layout.len);
        lemma_cursor_decoration(
            line.decoration_runs,
            boundaries,
            i,
            line.layout.len as int,
        );
        law_cursor_pieces_match_splits(line, start, end);
        lemma_unplaced_rest_of_splits(line, boundaries, i);
        lemma_unplaced_splits(rest, line.spec_after(start), taken);
        if offsets_add_up::<F>() {
            lemma_rest_of_splits(line, boundaries, i);
        }
    }
}

/// The texts of the first `count` pieces that a cursor takes, one after the other.
pub open spec fn cursor_text<F: Scalar>(
    line: ShapedLineModel<F>,
    boundaries: Seq<usize>,
    count: nat,
) -> Seq<u8>
    decreases count,
{
    if count == 0 {
        Seq::empty()
    } else {
        cursor_text(line, boundaries, (count - 1) as nat) + cursor_piece(
            line,
            boundaries,
            (count - 1) as nat,
        ).text
    }
}

/// The lengths of the first `count` pieces that a cursor takes, taken together.
pub open spec fn cursor_len<F: Scalar>(
    line: ShapedLineModel<F>,
    boundaries: Seq<usize>,
    count: nat,
) -> int
    decreases count,
{
    if count == 0 {
        0
    } else {
        cursor_len(line, boundaries, (count - 1) as nat) + cursor_piece(
            line,
            boundaries,
            (count - 1) as nat,
        ).layout.len
    }
}

/// The widths of the first `count` pieces that a cursor takes, taken together.
pub open spec fn cursor_width<F: Scalar>(
    line: ShapedLineModel<F>,
    boundaries: Seq<usize>,
    count: nat,
) -> F
    decreases count,
{
    if count == 0 {
        spec_zero()
    } else {
        cursor_width(line, boundaries, (count - 1) as nat).spec_plus(
            cursor_piece(line, boundaries, (count - 1) as nat).layout.width,
        )
    }
}

/// The pieces that a cursor has taken make up the line as far as it has got: their
/// texts are its text, their lengths its length and, where arithmetic is exact, their
/// widths its width.
pub proof fn law_cursor_pieces_make_up_the_line<F: Scalar>(
    line: ShapedLineModel<F>,
    boundaries: Seq<usize>,
    count: nat,
)
    requires
        count <= boundaries.len(),
        in_order(boundaries, line.layout.len as int),
        line.splittable(),
    ensures
        cursor_text(line, boundaries, count) == line.text.take(
            boundary_before(boundaries, count as int) as int,
        ),
        cursor_len(line, boundaries, count) == boundary_before(boundaries, count as int),
        count > 0 && subtraction_is_undone::<F>() ==> cursor_width(line, boundaries, count)
            == line.layout.spec_x_for_index(boundary_before(boundaries, count as int)),
    decreases count,
{
    if count > 0 {
        let before = (count - 1) as nat;
        law_cursor_pieces_make_up_the_line(line, boundaries, before);
        let start = boundary_before(boundaries, before as int);
        let end = boundaries[before as int];
        assert(start <= end <= line.layout.len);
        assert(line.text.take(start as int) + line.text.subrange(start as int, end as int)
            =~= line.text.take(end as int));
        if subtraction_is_undone::<F>() {
            let x = if before == 0 {
                spec_zero::<F>()
            } else {
                line.layout.spec_x_for_index(start)
            };
            let next = line.layout.spec_x_for_index(end);
            assert(cursor_width(line, boundaries, before) == x);
            assert(x.spec_plus(next.spec_minus(x)) == next);
        }
    } else {
        assert(line.text.take(0) =~= Seq::empty());
    }
}

} // verus!
