//! Where glyphs and decorations go when a line is split, and where bytes stand on a line.
use vstd::prelude::*;

use crate::geometry::Point;
use crate::line::{
    decorations_after, decorations_before, lemma_offset_monotone, offset_of, DecorationRun,
    ShapedLineModel,
};
use crate::line_cursor::{lemma_decorations_after_sum, lemma_offset_prefix};
use crate::line_laws::lemma_decorations_before_sum;
use crate::line_layout::{
    closest_in_run, closest_in_runs, glyphs_between, rebased, runs_between, x_in_run, x_in_runs,
    FontId, LineLayoutModel, ShapedGlyph, ShapedRunModel,
};
use crate::scalar::{spec_two, spec_zero, Scalar};

verus! {

/// The glyphs of a run, each with its font.
pub open spec fn run_glyphs<F>(font: FontId, glyphs: Seq<ShapedGlyph<F>>) -> Seq<
    (FontId, ShapedGlyph<F>),
> {
    Seq::new(glyphs.len(), |i: int| (font, glyphs[i]))
}

/// The glyphs of all runs in their order, each with its font.
pub open spec fn line_glyphs<F>(runs: Seq<ShapedRunModel<F>>) -> Seq<(FontId, ShapedGlyph<F>)>
    decreases runs.len(),
{
    if runs.len() == 0 {
        Seq::empty()
    } else {
        line_glyphs(runs.drop_last()) + run_glyphs(runs.last().font_id, runs.last().glyphs)
    }
}

/// Which glyphs stand for bytes from `start` on, but not from `end` on.
pub open spec fn stands_between<F>(start: int, end: int) -> spec_fn(
    (FontId, ShapedGlyph<F>),
) -> bool {
    |glyph: (FontId, ShapedGlyph<F>)| start <= glyph.1.index < end
}

/// A glyph as it stands on what is left of a line behind `bytes` bytes and a width of `x`.
pub open spec fn moved_back<F: Scalar>(bytes: usize, x: F) -> spec_fn(
    (FontId, ShapedGlyph<F>),
) -> (FontId, ShapedGlyph<F>) {
    |glyph: (FontId, ShapedGlyph<F>)|
        (
            glyph.0,
            ShapedGlyph {
                id: glyph.1.id,
                position: Point {
                    x: glyph.1.position.x.spec_minus(x),
                    y: glyph.1.position.y,
                },
                index: (glyph.1.index - bytes) as usize,
                is_emoji: glyph.1.is_emoji,
            },
        )
}

spec fn rebasing<F: Scalar>(start: usize, shift: Option<F>) -> spec_fn(
    (FontId, ShapedGlyph<F>),
) -> (FontId, ShapedGlyph<F>) {
    |glyph: (FontId, ShapedGlyph<F>)| (glyph.0, rebased(glyph.1, start, shift))
}

proof fn lemma_filter_push<T>(items: Seq<T>, item: T, keep: spec_fn(T) -> bool)
    ensures
        items.push(item).filter(keep) == if keep(item) {
            items.filter(keep).push(item)
        } else {
            items.filter(keep)
        },
{
    reveal(Seq::filter);
    assert(items.push(item).drop_last() =~= items);
}

proof fn lemma_filter_sum<T>(a: Seq<T>, b: Seq<T>, keep: spec_fn(T) -> bool)
    ensures
        (a + b).filter(keep) == a.filter(keep) + b.filter(keep),
    decreases b.len(),
{
    if b.len() == 0 {
        reveal(Seq::filter);
        assert(a + b =~= a);
        assert(a.filter(keep) + b.filter(keep) =~= a.filter(keep));
    } else {
        let rest = b.drop_last();
        lemma_filter_sum(a, rest, keep);
        lemma_filter_push(a + rest, b.last(), keep);
        lemma_filter_push(rest, b.last(), keep);
        assert((a + rest).push(b.last()) =~= a + b);
        assert(rest.push(b.last()) =~= b);
        assert((a + b).filter(keep) =~= a.filter(keep) + b.filter(keep));
    }
}

proof fn lemma_run_dealt<F: Scalar>(
    font: FontId,
    glyphs: Seq<ShapedGlyph<F>>,
    start: usize,
    end: int,
    shift: Option<F>,
    count: nat,
)
    requires
        count <= glyphs.len(),
    ensures
        run_glyphs(font, glyphs_between(glyphs, start, end, shift, count)) == run_glyphs(
            font,
            glyphs.take(count as int),
        ).filter(stands_between(start as int, end)).map_values(rebasing(start, shift)),
    decreases count,
{
    let keep = stands_between::<F>(start as int, end);
    let rebase = rebasing::<F>(start, shift);
    let all = run_glyphs(font, glyphs.take(count as int));
    let taken = glyphs_between(glyphs, start, end, shift, count);
    if count == 0 {
        reveal(Seq::filter);
        assert(run_glyphs(font, taken) =~= all.filter(keep).map_values(rebase));
    } else {
        let rest = run_glyphs(font, glyphs.take(count - 1));
        let last = (font, glyphs[count - 1]);
        lemma_run_dealt(font, glyphs, start, end, shift, (count - 1) as nat);
        assert(all =~= rest.push(last));
        lemma_filter_push(rest, last, keep);
        let kept = rest.filter(keep);
        let before = glyphs_between(glyphs, start, end, shift, (count - 1) as nat);
        assert(run_glyphs(font, before) == kept.map_values(rebase));
        if keep(last) {
            assert(taken == before.push(rebased(glyphs[count - 1], start, shift)));
            assert(run_glyphs(font, taken) =~= run_glyphs(font, before).push(rebase(last)));
            assert(kept.push(last).map_values(rebase) =~= kept.map_values(rebase).push(
                rebase(last),
            ));
        } else {
            assert(taken == before);
        }
    }
}

proof fn lemma_runs_dealt<F: Scalar>(
    runs: Seq<ShapedRunModel<F>>,
    start: usize,
    end: int,
    shift: Option<F>,
    count: nat,
)
    requires
        count <= runs.len(),
    ensures
        line_glyphs(runs_between(runs, start, end, shift, count)) == line_glyphs(
            runs.take(count as int),
        ).filter(stands_between(start as int, end)).map_values(rebasing(start, shift)),
        forall|r: int|
            0 <= r < runs_between(runs, start, end, shift, count).len() ==> (
            #[trigger] runs_between(runs, start, end, shift, count)[r]).glyphs.len() > 0,
    decreases count,
{
    let keep = stands_between::<F>(start as int, end);
    let rebase = rebasing::<F>(start, shift);
    let all = line_glyphs(runs.take(count as int));
    let taken = runs_between(runs, start, end, shift, count);
    if count == 0 {
        reveal(Seq::filter);
        assert(line_glyphs(taken) =~= all.filter(keep).map_values(rebase));
    } else {
        let last = runs[count - 1];
        let before = line_glyphs(runs.take(count - 1));
        let here = run_glyphs(last.font_id, last.glyphs);
        let rest = runs_between(runs, start, end, shift, (count - 1) as nat);
        let glyphs = glyphs_between(last.glyphs, start, end, shift, last.glyphs.len());
        lemma_runs_dealt(runs, start, end, shift, (count - 1) as nat);
        lemma_run_dealt(last.font_id, last.glyphs, start, end, shift, last.glyphs.len());
        assert(last.glyphs.take(last.glyphs.len() as int) =~= last.glyphs);
        assert(runs.take(count as int).drop_last() =~= runs.take(count - 1));
        assert(all == before + here);
        lemma_filter_sum(before, here, keep);
        assert(all.filter(keep).map_values(rebase) =~= before.filter(keep).map_values(rebase)
            + here.filter(keep).map_values(rebase));
        assert(line_glyphs(rest) == before.filter(keep).map_values(rebase));
        assert(run_glyphs(last.font_id, glyphs) == here.filter(keep).map_values(rebase));
        if glyphs.len() == 0 {
            assert(line_glyphs(taken) =~= line_glyphs(rest) + run_glyphs(last.font_id, glyphs));
        } else {
            assert(taken.drop_last() =~= rest);
            assert(taken.last().glyphs == glyphs);
        }
    }
}

/// Splitting a line deals out its glyphs, which keep their order and their fonts: those of
/// bytes before the split stay as they are; the others stand on the right part as far from
/// its start, in bytes and in width, as they stood behind the split. No run is left empty.
pub proof fn law_splitting_deals_out_the_glyphs<F: Scalar>(
    layout: LineLayoutModel<F>,
    index: usize,
    r: int,
)
    ensures
        ({
            let (left, right) = (layout.spec_before(index), layout.spec_after(index));
            let glyphs = line_glyphs(layout.runs);
            let x = layout.spec_x_for_index(index);
            &&& line_glyphs(left.runs) == glyphs.filter(stands_between(0, index as int))
            &&& line_glyphs(right.runs) == glyphs.filter(
                stands_between(index as int, usize::MAX + 1),
            ).map_values(moved_back(index, x))
            &&& 0 <= r < left.runs.len() ==> left.runs[r].glyphs.len() > 0
            &&& 0 <= r < right.runs.len() ==> right.runs[r].glyphs.len() > 0
            &&& left.width == x
            &&& right.width == layout.width.spec_minus(x)
            &&& left.len == index
            &&& index <= layout.len ==> right.len == layout.len - index
        }),
{
    let x = layout.spec_x_for_index(index);
    let glyphs = line_glyphs(layout.runs);
    assert(layout.runs.take(layout.runs.len() as int) =~= layout.runs);
    lemma_runs_dealt(layout.runs, 0, index as int, None, layout.runs.len());
    lemma_runs_dealt(layout.runs, index, usize::MAX + 1, Some(x), layout.runs.len());
    let left = glyphs.filter(stands_between(0, index as int));
    let right = glyphs.filter(stands_between(index as int, usize::MAX + 1));
    assert(left.map_values(rebasing::<F>(0, None)) =~= left);
    assert(right.map_values(rebasing(index, Some(x))) =~= right.map_values(moved_back(index, x)));
}

/// Whether a decoration covers a byte.
pub open spec fn dresses<F>(runs: Seq<DecorationRun<F>>, k: int, byte: int) -> bool {
    &&& 0 <= k < runs.len()
    &&& offset_of(runs, k) <= byte < offset_of(runs, k) + runs[k].len
}

/// Whether two decorations look alike, whatever they cover.
pub open spec fn look_alike<F>(a: DecorationRun<F>, b: DecorationRun<F>) -> bool {
    &&& a.color == b.color
    &&& a.background_color == b.background_color
    &&& a.underline == b.underline
    &&& a.strikethrough == b.strikethrough
}

/// Whether a byte is covered by a decoration that looks like another one.
pub open spec fn is_dressed<F>(
    runs: Seq<DecorationRun<F>>,
    byte: int,
    decoration: DecorationRun<F>,
) -> bool {
    exists|j: int| #[trigger] dresses(runs, j, byte) && look_alike(runs[j], decoration)
}

proof fn lemma_dressed_before<F>(
    runs: Seq<DecorationRun<F>>,
    split: int,
    count: nat,
    k: int,
    byte: int,
) -> (j: int)
    requires
        count <= runs.len(),
        offset_of(runs, runs.len() as int) <= u32::MAX,
        0 <= k < count,
        dresses(runs, k, byte),
        0 <= byte < split,
    ensures
        dresses(decorations_before(runs, split, count), j, byte),
        look_alike(decorations_before(runs, split, count)[j], runs[k]),
    decreases count,
{
    let rest = decorations_before(runs, split, (count - 1) as nat);
    let before = decorations_before(runs, split, count);
    lemma_offset_monotone(runs, 0, count - 1);
    lemma_offset_monotone(runs, count as int, runs.len() as int);
    if k == count - 1 {
        lemma_decorations_before_sum(runs, split, (count - 1) as nat);
        lemma_offset_prefix(before, rest, rest.len() as int);
        rest.len() as int
    } else {
        let j = lemma_dressed_before(runs, split, (count - 1) as nat, k, byte);
        lemma_offset_prefix(before, rest, j);
        j
    }
}

proof fn lemma_dressed_after<F>(
    runs: Seq<DecorationRun<F>>,
    split: int,
    count: nat,
    k: int,
    byte: int,
) -> (j: int)
    requires
        count <= runs.len(),
        offset_of(runs, runs.len() as int) <= u32::MAX,
        0 <= k < count,
        dresses(runs, k, byte),
        0 <= split <= byte,
    ensures
        dresses(decorations_after(runs, split, count), j, byte - split),
        look_alike(decorations_after(runs, split, count)[j], runs[k]),
    decreases count,
{
    let rest = decorations_after(runs, split, (count - 1) as nat);
    let after = decorations_after(runs, split, count);
    lemma_offset_monotone(runs, 0, count - 1);
    lemma_offset_monotone(runs, count as int, runs.len() as int);
    if k == count - 1 {
        lemma_decorations_after_sum(runs, split, (count - 1) as nat);
        lemma_offset_prefix(after, rest, rest.len() as int);
        rest.len() as int
    } else {
        let j = lemma_dressed_after(runs, split, (count - 1) as nat, k, byte);
        lemma_offset_prefix(after, rest, j);
        j
    }
}

/// Splitting a line leaves every byte its decoration: what covers a byte of the line covers
/// the same byte of the part that it falls in, and looks as it did.
pub proof fn law_bytes_keep_their_decorations<F: Scalar>(
    line: ShapedLineModel<F>,
    index: usize,
    k: int,
    byte: int,
)
    requires
        index <= u32::MAX,
        line.decorations_fit(),
        dresses(line.decoration_runs, k, byte),
    ensures
        ({
            let (left, right) = (line.spec_before(index), line.spec_after(index));
            let decoration = line.decoration_runs[k];
            &&& byte < index ==> is_dressed(left.decoration_runs, byte, decoration)
            &&& byte >= index ==> is_dressed(right.decoration_runs, byte - index, decoration)
        }),
{
    let runs = line.decoration_runs;
    lemma_offset_monotone(runs, 0, k);
    if byte < index {
        let j = lemma_dressed_before(runs, index as int, runs.len(), k, byte);
        assert(dresses(line.spec_before(index).decoration_runs, j, byte));
    } else {
        let j = lemma_dressed_after(runs, index as int, runs.len(), k, byte);
        assert(dresses(line.spec_after(index).decoration_runs, j, byte - index));
    }
}

/// Whether every glyph before glyph `g` of run `r` meets a condition.
pub open spec fn up_to<F>(
    runs: Seq<ShapedRunModel<F>>,
    r: int,
    g: int,
    meets: spec_fn(ShapedGlyph<F>) -> bool,
) -> bool {
    forall|s: int, h: int|
        0 <= s <= r && 0 <= h < runs[s].glyphs.len() && (s < r || h < g) ==> meets(
            #[trigger] runs[s].glyphs[h],
        )
}

/// Which glyphs stand for bytes before `index`.
pub open spec fn stands_before<F>(index: usize) -> spec_fn(ShapedGlyph<F>) -> bool {
    |glyph: ShapedGlyph<F>| glyph.index < index
}

/// Which glyphs begin left of `x`.
pub open spec fn begins_left_of<F: Scalar>(x: F) -> spec_fn(ShapedGlyph<F>) -> bool {
    |glyph: ShapedGlyph<F>| !x.spec_le(glyph.position.x)
}

proof fn lemma_x_in_run<F>(glyphs: Seq<ShapedGlyph<F>>, from: int, index: usize, g: int)
    requires
        0 <= from <= g <= glyphs.len(),
        forall|h: int| from <= h < g ==> (#[trigger] glyphs[h]).index < index,
        g < glyphs.len() ==> glyphs[g].index >= index,
    ensures
        x_in_run(glyphs, from, index) == if g < glyphs.len() {
            Some(glyphs[g].position.x)
        } else {
            None
        },
    decreases g - from,
{
    if from < g {
        assert(glyphs[from].index < index);
        lemma_x_in_run(glyphs, from + 1, index, g);
    }
}

proof fn lemma_x_in_runs<F>(
    runs: Seq<ShapedRunModel<F>>,
    from: int,
    index: usize,
    r: int,
    g: int,
)
    requires
        0 <= from <= r <= runs.len(),
        forall|s: int, h: int|
            0 <= s < r && 0 <= h < runs[s].glyphs.len() ==> (
            #[trigger] runs[s].glyphs[h]).index < index,
        r < runs.len() ==> {
            &&& 0 <= g < runs[r].glyphs.len()
            &&& forall|h: int| 0 <= h < g ==> (#[trigger] runs[r].glyphs[h]).index < index
            &&& runs[r].glyphs[g].index >= index
        },
    ensures
        x_in_runs(runs, from, index) == if r < runs.len() {
            Some(runs[r].glyphs[g].position.x)
        } else {
            None
        },
    decreases r - from,
{
    if from < r {
        let glyphs = runs[from].glyphs;
        assert forall|h: int| 0 <= h < glyphs.len() implies (#[trigger] glyphs[h]).index
            < index by {
            assert(runs[from].glyphs[h].index < index);
        }
        lemma_x_in_run(glyphs, 0, index, glyphs.len() as int);
        lemma_x_in_runs(runs, from + 1, index, r, g);
    } else if r < runs.len() {
        lemma_x_in_run(runs[r].glyphs, 0, index, g);
    }
}

/// A byte stands where the first glyph begins that stands for it or for a later one.
pub proof fn law_bytes_stand_at_their_glyphs<F: Scalar>(
    layout: LineLayoutModel<F>,
    index: usize,
    r: int,
    g: int,
)
    requires
        0 <= r < layout.runs.len(),
        0 <= g < layout.runs[r].glyphs.len(),
        layout.runs[r].glyphs[g].index >= index,
        up_to(layout.runs, r, g, stands_before(index)),
    ensures
        layout.spec_x_for_index(index) == layout.runs[r].glyphs[g].position.x,
{
    let meets = stands_before::<F>(index);
    assert forall|s: int, h: int| 0 <= s < r && 0 <= h < layout.runs[s].glyphs.len() implies (
    #[trigger] layout.runs[s].glyphs[h]).index < index by {
        assert(meets(layout.runs[s].glyphs[h]));
    }
    assert forall|h: int| 0 <= h < g implies (#[trigger] layout.runs[r].glyphs[h]).index
        < index by {
        assert(meets(layout.runs[r].glyphs[h]));
    }
    lemma_x_in_runs(layout.runs, 0, index, r, g);
}

/// A byte behind those that glyphs stand for stands at the end of the line.
pub proof fn law_later_bytes_stand_at_the_end<F: Scalar>(layout: LineLayoutModel<F>, index: usize)
    requires
        forall|s: int, h: int|
            0 <= s < layout.runs.len() && 0 <= h < layout.runs[s].glyphs.len() ==> (
            #[trigger] layout.runs[s].glyphs[h]).index < index,
    ensures
        layout.spec_x_for_index(index) == layout.width,
{
    lemma_x_in_runs(layout.runs, 0, index, layout.runs.len() as int, 0);
}

/// What stands right before glyph `g` of run `r`: the byte and the place of the glyph before
/// it, or the start of the line.
pub open spec fn place_before<F: Scalar>(
    runs: Seq<ShapedRunModel<F>>,
    r: int,
    g: int,
) -> (usize, F)
    decreases r,
{
    if g > 0 {
        (runs[r].glyphs[g - 1].index, runs[r].glyphs[g - 1].position.x)
    } else if r <= 0 {
        (0, spec_zero())
    } else {
        place_before(runs, r - 1, runs[r - 1].glyphs.len() as int)
    }
}

proof fn lemma_closest_in_run<F: Scalar>(
    runs: Seq<ShapedRunModel<F>>,
    r: int,
    from: int,
    x: F,
    g: int,
)
    requires
        0 <= r < runs.len(),
        0 <= from <= g <= runs[r].glyphs.len(),
        forall|h: int|
            from <= h < g ==> !x.spec_le((#[trigger] runs[r].glyphs[h]).position.x),
        g < runs[r].glyphs.len() ==> x.spec_le(runs[r].glyphs[g].position.x),
    ensures
        ({
            let (before, before_x) = place_before(runs, r, from);
            let (last, last_x) = place_before(runs, r, g);
            let found = closest_in_run(runs[r].glyphs, from, x, before, before_x);
            if g < runs[r].glyphs.len() {
                let glyph = runs[r].glyphs[g];
                found.0 == if glyph.position.x.spec_minus(x).spec_lt(x.spec_minus(last_x)) {
                    Some(glyph.index)
                } else {
                    Some(last)
                }
            } else {
                found == (None::<usize>, last, last_x)
            }
        }),
    decreases g - from,
{
    if from < g {
        assert(!x.spec_le(runs[r].glyphs[from].position.x));
        lemma_closest_in_run(runs, r, from + 1, x, g);
    }
}

proof fn lemma_closest_in_runs<F: Scalar>(
    runs: Seq<ShapedRunModel<F>>,
    from: int,
    x: F,
    r: int,
    g: int,
)
    requires
        0 <= from <= r <= runs.len(),
        forall|s: int, h: int|
            0 <= s < r && 0 <= h < runs[s].glyphs.len() ==> !x.spec_le(
                (#[trigger] runs[s].glyphs[h]).position.x,
            ),
        r < runs.len() ==> {
            &&& 0 <= g < runs[r].glyphs.len()
            &&& forall|h: int|
                0 <= h < g ==> !x.spec_le((#[trigger] runs[r].glyphs[h]).position.x)
            &&& x.spec_le(runs[r].glyphs[g].position.x)
        },
    ensures
        ({
            let (before, before_x) = place_before(runs, from, 0);
            let (last, last_x) = place_before(runs, r, g);
            closest_in_runs(runs, from, x, before, before_x) == if r < runs.len() {
                let glyph = runs[r].glyphs[g];
                if glyph.position.x.spec_minus(x).spec_lt(x.spec_minus(last_x)) {
                    Some(glyph.index)
                } else {
                    Some(last)
                }
            } else {
                None
            }
        }),
    decreases r - from,
{
    if from < r {
        lemma_closest_in_run(runs, from, 0, x, runs[from].glyphs.len() as int);
        lemma_closest_in_runs(runs, from + 1, x, r, g);
    } else if r < runs.len() {
        lemma_closest_in_run(runs, r, 0, x, g);
    }
}

/// The byte closest to a place is decided between the first glyph that does not begin left of
/// it and the one before that, or the start of the line: it is that of the first one where
/// that is strictly nearer.
pub proof fn law_the_nearer_glyph_is_hit<F: Scalar>(
    layout: LineLayoutModel<F>,
    x: F,
    r: int,
    g: int,
)
    requires
        0 <= r < layout.runs.len(),
        0 <= g < layout.runs[r].glyphs.len(),
        x.spec_le(layout.runs[r].glyphs[g].position.x),
        up_to(layout.runs, r, g, begins_left_of(x)),
    ensures
        ({
            let glyph = layout.runs[r].glyphs[g];
            let (before, before_x) = place_before(layout.runs, r, g);
            let nearer = glyph.position.x.spec_minus(x).spec_lt(x.spec_minus(before_x));
            let hit = layout.spec_closest_index_for_x(x);
            &&& nearer ==> hit == glyph.index
            &&& !nearer ==> hit == before
        }),
{
    let meets = begins_left_of::<F>(x);
    assert forall|s: int, h: int|
        0 <= s < r && 0 <= h < layout.runs[s].glyphs.len() implies !x.spec_le(
        (#[trigger] layout.runs[s].glyphs[h]).position.x,
    ) by {
        assert(meets(layout.runs[s].glyphs[h]));
    }
    assert forall|h: int| 0 <= h < g implies !x.spec_le(
        (#[trigger] layout.runs[r].glyphs[h]).position.x,
    ) by {
        assert(meets(layout.runs[r].glyphs[h]));
    }
    lemma_closest_in_runs(layout.runs, 0, x, r, g);
}

/// The byte closest to a place behind the start of the last glyph is the end of the line; on
/// a line of one byte it is the start unless the place is in the line's second half.
pub proof fn law_the_end_is_hit_behind_the_glyphs<F: Scalar>(layout: LineLayoutModel<F>, x: F)
    requires
        forall|s: int, h: int|
            0 <= s < layout.runs.len() && 0 <= h < layout.runs[s].glyphs.len() ==> !x.spec_le(
                (#[trigger] layout.runs[s].glyphs[h]).position.x,
            ),
    ensures
        layout.len != 1 ==> layout.spec_closest_index_for_x(x) == layout.len,
        layout.len == 1 && layout.width.spec_over(spec_two()).spec_lt(x)
            ==> layout.spec_closest_index_for_x(x) == 1,
        layout.len == 1 && !layout.width.spec_over(spec_two()).spec_lt(x)
            ==> layout.spec_closest_index_for_x(x) == 0,
{
    lemma_closest_in_runs(layout.runs, 0, x, layout.runs.len() as int, 0);
}

} // verus!
