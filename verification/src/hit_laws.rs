//! Finding the text at a place, and the place of a text.
use vstd::prelude::*;

use crate::geometry::Point;
use crate::line_layout::{
    closest_in_run, closest_in_runs, x_in_run, x_in_runs, LineLayoutModel, ShapedGlyph,
    ShapedRunModel,
};
use crate::scalar::{spec_two, spec_zero, Scalar};
use crate::text_allocation::{AdmittedTextLayout, TextAllocationAdmission};

verus! {

/// The glyphs of the runs from the one at `from` on, one after the other.
pub open spec fn glyphs_from<F>(runs: Seq<ShapedRunModel<F>>, from: int) -> Seq<ShapedGlyph<F>>
    decreases runs.len() - from,
{
    if from < 0 || from >= runs.len() {
        Seq::empty()
    } else {
        runs[from].glyphs + glyphs_from(runs, from + 1)
    }
}

/// Whether glyphs stand for ever later bytes, from the first byte on, at places that lie
/// ever farther right.
pub open spec fn strictly_increasing<F: Scalar>(glyphs: Seq<ShapedGlyph<F>>) -> bool {
    &&& glyphs.len() > 0 ==> glyphs[0].index == 0
    &&& forall|i: int, j: int|
        0 <= i < j < glyphs.len() ==> (#[trigger] glyphs[i]).index < (
        #[trigger] glyphs[j]).index && !glyphs[j].position.x.spec_le(glyphs[i].position.x)
    &&& forall|i: int|
        0 <= i < glyphs.len() ==> {
            let x = (#[trigger] glyphs[i]).position.x;
            &&& x.spec_le(x)
            &&& i > 0 ==> x.spec_minus(x).spec_lt(x.spec_minus(glyphs[i - 1].position.x))
        }
}

/// Whether the glyphs of a line are strictly increasing, and lie before its end.
pub open spec fn increases<F: Scalar>(layout: LineLayoutModel<F>) -> bool {
    let glyphs = glyphs_from(layout.runs, 0);
    &&& strictly_increasing(glyphs)
    &&& forall|i: int|
        0 <= i < glyphs.len() ==> (#[trigger] glyphs[i]).index < layout.len
            && !layout.width.spec_le(glyphs[i].position.x)
    &&& layout.len == 1 ==> layout.width.spec_over(spec_two()).spec_lt(layout.width)
}

/// Whether a glyph stands for the byte, or the text ends there.
pub open spec fn is_glyph_boundary<F: Scalar>(layout: LineLayoutModel<F>, index: usize) -> bool {
    ||| index == layout.len
    ||| exists|k: int|
        0 <= k < glyphs_from(layout.runs, 0).len() && (#[trigger] glyphs_from(
            layout.runs,
            0,
        )[k]).index == index
}

proof fn lemma_x_in_both<F>(
    a: Seq<ShapedGlyph<F>>,
    b: Seq<ShapedGlyph<F>>,
    from: int,
    index: usize,
)
    requires
        0 <= from <= a.len() + b.len(),
    ensures
        from >= a.len() ==> x_in_run(a + b, from, index) == x_in_run(b, from - a.len(), index),
        from <= a.len() ==> x_in_run(a + b, from, index) == match x_in_run(a, from, index) {
            Some(x) => Some(x),
            None => x_in_run(b, 0, index),
        },
    decreases a.len() + b.len() - from,
{
    if from < a.len() + b.len() {
        lemma_x_in_both(a, b, from + 1, index);
    }
}

proof fn lemma_x_in_runs<F>(runs: Seq<ShapedRunModel<F>>, from: int, index: usize)
    requires
        0 <= from <= runs.len(),
    ensures
        x_in_runs(runs, from, index) == x_in_run(glyphs_from(runs, from), 0, index),
    decreases runs.len() - from,
{
    if from < runs.len() {
        lemma_x_in_runs(runs, from + 1, index);
        lemma_x_in_both(runs[from].glyphs, glyphs_from(runs, from + 1), 0, index);
    }
}

proof fn lemma_closest_in_both<F: Scalar>(
    a: Seq<ShapedGlyph<F>>,
    b: Seq<ShapedGlyph<F>>,
    from: int,
    x: F,
    before: usize,
    before_x: F,
)
    requires
        0 <= from <= a.len() + b.len(),
    ensures
        from >= a.len() ==> closest_in_run(a + b, from, x, before, before_x) == closest_in_run(
            b,
            from - a.len(),
            x,
            before,
            before_x,
        ),
        from <= a.len() ==> closest_in_run(a + b, from, x, before, before_x) == ({
            let first = closest_in_run(a, from, x, before, before_x);
            match first.0 {
                Some(_) => first,
                None => closest_in_run(b, 0, x, first.1, first.2),
            }
        }),
    decreases a.len() + b.len() - from,
{
    if from < a.len() + b.len() {
        let glyph = (a + b)[from];
        lemma_closest_in_both(a, b, from + 1, x, glyph.index, glyph.position.x);
    }
}

proof fn lemma_closest_in_runs<F: Scalar>(
    runs: Seq<ShapedRunModel<F>>,
    from: int,
    x: F,
    before: usize,
    before_x: F,
)
    requires
        0 <= from <= runs.len(),
    ensures
        closest_in_runs(runs, from, x, before, before_x) == closest_in_run(
            glyphs_from(runs, from),
            0,
            x,
            before,
            before_x,
        ).0,
    decreases runs.len() - from,
{
    if from < runs.len() {
        let first = closest_in_run(runs[from].glyphs, 0, x, before, before_x);
        lemma_closest_in_runs(runs, from + 1, x, first.1, first.2);
        lemma_closest_in_both(
            runs[from].glyphs,
            glyphs_from(runs, from + 1),
            0,
            x,
            before,
            before_x,
        );
    }
}

proof fn lemma_x_of_glyph<F: Scalar>(glyphs: Seq<ShapedGlyph<F>>, k: int, from: int)
    requires
        strictly_increasing(glyphs),
        0 <= from <= k < glyphs.len(),
    ensures
        x_in_run(glyphs, from, glyphs[k].index) == Some(glyphs[k].position.x),
    decreases k - from,
{
    if from < k {
        assert(glyphs[from].index < glyphs[k].index);
        lemma_x_of_glyph(glyphs, k, from + 1);
    }
}

proof fn lemma_x_behind<F: Scalar>(glyphs: Seq<ShapedGlyph<F>>, index: usize, from: int)
    requires
        forall|i: int| 0 <= i < glyphs.len() ==> (#[trigger] glyphs[i]).index < index,
        0 <= from <= glyphs.len(),
    ensures
        x_in_run(glyphs, from, index) is None,
    decreases glyphs.len() - from,
{
    if from < glyphs.len() {
        lemma_x_behind(glyphs, index, from + 1);
    }
}

proof fn lemma_closest_to_glyph<F: Scalar>(
    glyphs: Seq<ShapedGlyph<F>>,
    k: int,
    from: int,
    before: usize,
    before_x: F,
)
    requires
        strictly_increasing(glyphs),
        0 <= from <= k < glyphs.len(),
        from == 0 ==> before == 0,
        from > 0 ==> before == glyphs[from - 1].index && before_x == glyphs[from - 1].position.x,
    ensures
        closest_in_run(glyphs, from, glyphs[k].position.x, before, before_x).0 == Some(
            glyphs[k].index,
        ),
    decreases k - from,
{
    assert(glyphs[k].position.x.spec_le(glyphs[k].position.x));
    if from < k {
        assert(!glyphs[k].position.x.spec_le(glyphs[from].position.x));
        lemma_closest_to_glyph(
            glyphs,
            k,
            from + 1,
            glyphs[from].index,
            glyphs[from].position.x,
        );
    }
}

proof fn lemma_closest_behind<F: Scalar>(
    glyphs: Seq<ShapedGlyph<F>>,
    x: F,
    from: int,
    before: usize,
    before_x: F,
)
    requires
        forall|i: int|
            0 <= i < glyphs.len() ==> !x.spec_le((#[trigger] glyphs[i]).position.x),
        0 <= from <= glyphs.len(),
    ensures
        closest_in_run(glyphs, from, x, before, before_x).0 is None,
    decreases glyphs.len() - from,
{
    if from < glyphs.len() {
        lemma_closest_behind(
            glyphs,
            x,
            from + 1,
            glyphs[from].index,
            glyphs[from].position.x,
        );
    }
}

/// On a line whose glyphs are strictly increasing, the byte that is closest to the place
/// of a glyph, or of the end, is the glyph's byte, or the end.
pub proof fn law_the_closest_byte_to_its_place<F: Scalar>(
    layout: LineLayoutModel<F>,
    index: usize,
)
    requires
        increases(layout),
        is_glyph_boundary(layout, index),
    ensures
        layout.spec_closest_index_for_x(layout.spec_x_for_index(index)) == index,
{
    let glyphs = glyphs_from(layout.runs, 0);
    let x = layout.spec_x_for_index(index);
    lemma_x_in_runs(layout.runs, 0, index);
    lemma_closest_in_runs(layout.runs, 0, x, 0, spec_zero());
    if index == layout.len {
        lemma_x_behind(glyphs, index, 0);
        lemma_closest_behind(glyphs, x, 0, 0, spec_zero());
    } else {
        let k = choose|k: int|
            0 <= k < glyphs_from(layout.runs, 0).len() && (#[trigger] glyphs_from(
                layout.runs,
                0,
            )[k]).index == index;
        lemma_x_of_glyph(glyphs, k, 0);
        lemma_closest_to_glyph(glyphs, k, 0, 0, spec_zero());
    }
}

/// On a line whose glyphs are strictly increasing, finding the byte at a position undoes
/// finding the position of a byte, as long as the line's origin can be taken away again
/// without rounding.
pub proof fn law_the_closest_byte_to_its_position<A: TextAllocationAdmission, F: Scalar>(
    text: AdmittedTextLayout<A, F>,
    index: usize,
)
    requires
        increases((*text.line.layout)@),
        is_glyph_boundary((*text.line.layout)@, index),
        text.spec_position_for_index(index) is Some,
        ({
            let origin = text.line_origin(text.bounds->Some_0).x;
            let x = (*text.line.layout)@.spec_x_for_index(index);
            origin.spec_plus(x).spec_minus(origin) == x
        }),
    ensures
        text.spec_closest_index_for_position(text.spec_position_for_index(index)->Some_0) == Some(
            index,
        ),
{
    law_the_closest_byte_to_its_place((*text.line.layout)@, index);
}

/// How high a position is makes no difference to the byte that is closest to it; and a
/// line that was put nowhere yet has neither bytes nor positions to be found.
pub proof fn law_only_the_horizontal_place_counts<A: TextAllocationAdmission, F: Scalar>(
    text: AdmittedTextLayout<A, F>,
    position: Point<F>,
    y: F,
    index: usize,
)
    ensures
        text.spec_closest_index_for_position(Point { y, ..position })
            == text.spec_closest_index_for_position(position),
        text.bounds is None ==> text.spec_closest_index_for_position(position) is None
            && text.spec_position_for_index(index) is None,
{
}

} // verus!
