//! Shaped text: glyphs with their places on a line.
use vstd::prelude::*;

use crate::geometry::Point;
use crate::scalar::{spec_two, spec_zero, two, zero, Scalar};

verus! {

/// A font.
#[derive(Clone, Copy, Debug, PartialEq, Eq, Structural, Hash)]
pub struct FontId(pub usize);

/// A glyph of a font.
#[derive(Clone, Copy, Debug, PartialEq, Eq, Structural, Hash)]
pub struct GlyphId(pub u32);

/// A glyph at its place on a line.
#[derive(Clone, Copy, Debug)]
pub struct ShapedGlyph<F> {
    /// The glyph.
    pub id: GlyphId,
    /// Where the glyph is, from the start of the line.
    pub position: Point<F>,
    /// The first byte of the text that the glyph stands for.
    pub index: usize,
    /// Whether the glyph is an emoji.
    pub is_emoji: bool,
}

/// Glyphs of one font, side by side.
#[derive(Debug)]
pub struct ShapedRun<F> {
    /// The font.
    pub font_id: FontId,
    /// The glyphs, from left to right.
    pub glyphs: Vec<ShapedGlyph<F>>,
}

/// What a [`ShapedRun`] holds.
#[verifier::ext_equal]
pub struct ShapedRunModel<F> {
    /// The font.
    pub font_id: FontId,
    /// The glyphs, from left to right.
    pub glyphs: Seq<ShapedGlyph<F>>,
}

impl<F> View for ShapedRun<F> {
    type V = ShapedRunModel<F>;

    open spec fn view(&self) -> ShapedRunModel<F> {
        ShapedRunModel { font_id: self.font_id, glyphs: self.glyphs@ }
    }
}

/// A shaped line of text.
#[derive(Debug)]
pub struct LineLayout<F> {
    /// The size of the font.
    pub font_size: F,
    /// How far the line advances.
    pub width: F,
    /// How far the font reaches above the baseline.
    pub ascent: F,
    /// How far the font reaches below the baseline.
    pub descent: F,
    /// The glyphs.
    pub runs: Vec<ShapedRun<F>>,
    /// The length of the text in bytes.
    pub len: usize,
}

/// What a [`LineLayout`] holds.
#[verifier::ext_equal]
pub struct LineLayoutModel<F> {
    /// The size of the font.
    pub font_size: F,
    /// How far the line advances.
    pub width: F,
    /// How far the font reaches above the baseline.
    pub ascent: F,
    /// How far the font reaches below the baseline.
    pub descent: F,
    /// The glyphs.
    pub runs: Seq<ShapedRunModel<F>>,
    /// The length of the text in bytes.
    pub len: usize,
}

impl<F> View for LineLayout<F> {
    type V = LineLayoutModel<F>;

    open spec fn view(&self) -> LineLayoutModel<F> {
        LineLayoutModel {
            font_size: self.font_size,
            width: self.width,
            ascent: self.ascent,
            descent: self.descent,
            runs: self.runs@.map_values(|run: ShapedRun<F>| run@),
            len: self.len,
        }
    }
}

/// The place of the first of some glyphs, from `from` on, that stands for bytes
/// at or behind `index`.
pub open spec fn x_in_run<F>(glyphs: Seq<ShapedGlyph<F>>, from: int, index: usize) -> Option<F>
    decreases glyphs.len() - from,
{
    if from < 0 || from >= glyphs.len() {
        None
    } else if glyphs[from].index >= index {
        Some(glyphs[from].position.x)
    } else {
        x_in_run(glyphs, from + 1, index)
    }
}

/// The place of the first glyph in some runs, from the one at `from` on, that
/// stands for bytes at or behind `index`.
pub open spec fn x_in_runs<F>(runs: Seq<ShapedRunModel<F>>, from: int, index: usize) -> Option<F>
    decreases runs.len() - from,
{
    if from < 0 || from >= runs.len() {
        None
    } else {
        match x_in_run(runs[from].glyphs, 0, index) {
            Some(x) => Some(x),
            None => x_in_runs(runs, from + 1, index),
        }
    }
}

/// A glyph of a piece of a line that starts at byte `start`, moved left by
/// `shift` where the piece does not start where the line does.
pub open spec fn rebased<F: Scalar>(
    glyph: ShapedGlyph<F>,
    start: usize,
    shift: Option<F>,
) -> ShapedGlyph<F> {
    ShapedGlyph {
        index: (glyph.index - start) as usize,
        position: match shift {
            Some(shift) => Point { x: glyph.position.x.spec_minus(shift), ..glyph.position },
            None => glyph.position,
        },
        ..glyph
    }
}

/// The glyphs among the first `count` that stand for the bytes from `start` to
/// `end`, rebased to `start`.
pub open spec fn glyphs_between<F: Scalar>(
    glyphs: Seq<ShapedGlyph<F>>,
    start: usize,
    end: int,
    shift: Option<F>,
    count: nat,
) -> Seq<ShapedGlyph<F>>
    decreases count,
{
    if count == 0 {
        Seq::empty()
    } else {
        let rest = glyphs_between(glyphs, start, end, shift, (count - 1) as nat);
        let last = glyphs[count - 1];
        if start <= last.index < end {
            rest.push(rebased(last, start, shift))
        } else {
            rest
        }
    }
}

/// The first `count` runs with the glyphs alone that stand for the bytes from
/// `start` to `end`, rebased to `start`; without the runs that have none.
pub open spec fn runs_between<F: Scalar>(
    runs: Seq<ShapedRunModel<F>>,
    start: usize,
    end: int,
    shift: Option<F>,
    count: nat,
) -> Seq<ShapedRunModel<F>>
    decreases count,
{
    if count == 0 {
        Seq::empty()
    } else {
        let rest = runs_between(runs, start, end, shift, (count - 1) as nat);
        let last = runs[count - 1];
        let glyphs = glyphs_between(last.glyphs, start, end, shift, last.glyphs.len());
        if glyphs.len() == 0 {
            rest
        } else {
            rest.push(ShapedRunModel { font_id: last.font_id, glyphs })
        }
    }
}

/// The byte among some glyphs, from the one at `from` on, that is nearest to `x`,
/// if one of them is at or behind `x`; and the byte and the place of the last glyph
/// before. The glyph before them stands for `before`, at `before_x`.
pub open spec fn closest_in_run<F: Scalar>(
    glyphs: Seq<ShapedGlyph<F>>,
    from: int,
    x: F,
    before: usize,
    before_x: F,
) -> (Option<usize>, usize, F)
    decreases glyphs.len() - from,
{
    if from < 0 || from >= glyphs.len() {
        (None, before, before_x)
    } else {
        let glyph = glyphs[from];
        if x.spec_le(glyph.position.x) {
            if glyph.position.x.spec_minus(x).spec_lt(x.spec_minus(before_x)) {
                (Some(glyph.index), before, before_x)
            } else {
                (Some(before), before, before_x)
            }
        } else {
            closest_in_run(glyphs, from + 1, x, glyph.index, glyph.position.x)
        }
    }
}

/// The byte among some runs, from the one at `from` on, that is nearest to `x`, if
/// one of their glyphs is at or behind `x`.
pub open spec fn closest_in_runs<F: Scalar>(
    runs: Seq<ShapedRunModel<F>>,
    from: int,
    x: F,
    before: usize,
    before_x: F,
) -> Option<usize>
    decreases runs.len() - from,
{
    if from < 0 || from >= runs.len() {
        None
    } else {
        let (found, before, before_x) = closest_in_run(runs[from].glyphs, 0, x, before, before_x);
        match found {
            Some(index) => Some(index),
            None => closest_in_runs(runs, from + 1, x, before, before_x),
        }
    }
}

impl<F: Scalar> LineLayoutModel<F> {
    /// The byte that is nearest to `x`: that of the nearer of the two glyphs around
    /// it, or the end of the text behind them all. Of a text of one byte the middle
    /// decides.
    pub open spec fn spec_closest_index_for_x(self, x: F) -> usize {
        match closest_in_runs(self.runs, 0, x, 0, spec_zero()) {
            Some(index) => index,
            None => if self.len == 1 {
                if self.width.spec_over(spec_two()).spec_lt(x) {
                    1
                } else {
                    0
                }
            } else {
                self.len
            },
        }
    }

    /// Where the text from byte `index` on starts: the place of the first glyph
    /// that stands for it, or the end of the line.
    pub open spec fn spec_x_for_index(self, index: usize) -> F {
        match x_in_runs(self.runs, 0, index) {
            Some(x) => x,
            None => self.width,
        }
    }

    /// The part of the line before byte `index`.
    pub open spec fn spec_before(self, index: usize) -> Self {
        LineLayoutModel {
            width: self.spec_x_for_index(index),
            runs: runs_between(self.runs, 0, index as int, None, self.runs.len()),
            len: index,
            ..self
        }
    }

    /// The part of the line from byte `index` on, moved to start at zero.
    pub open spec fn spec_after(self, index: usize) -> Self {
        let x = self.spec_x_for_index(index);
        LineLayoutModel {
            width: self.width.spec_minus(x),
            runs: runs_between(self.runs, index, usize::MAX + 1, Some(x), self.runs.len()),
            len: (self.len - index) as usize,
            ..self
        }
    }
}

fn x_among_glyphs<F: Scalar>(glyphs: &Vec<ShapedGlyph<F>>, index: usize) -> (result: Option<F>)
    ensures
        result == x_in_run(glyphs@, 0, index),
{
    let mut i: usize = 0;
    while i < glyphs.len()
        invariant
            i <= glyphs@.len(),
            x_in_run(glyphs@, 0, index) == x_in_run(glyphs@, i as int, index),
        decreases glyphs@.len() - i,
    {
        if glyphs[i].index >= index {
            return Some(glyphs[i].position.x);
        }
        i = i + 1;
    }
    None
}

/// The glyphs that stand for the bytes from `start` to `end`, or to the end of
/// the line where there is no `end`, rebased to `start`.
pub(crate) fn pick_glyphs<F: Scalar>(
    glyphs: &Vec<ShapedGlyph<F>>,
    start: usize,
    end: Option<usize>,
    shift: Option<F>,
) -> (result: Vec<ShapedGlyph<F>>)
    ensures
        result@ == glyphs_between(
            glyphs@,
            start,
            match end {
                Some(end) => end as int,
                None => usize::MAX + 1,
            },
            shift,
            glyphs@.len(),
        ),
{
    let ghost bound = match end {
        Some(end) => end as int,
        None => usize::MAX + 1,
    };
    let mut result: Vec<ShapedGlyph<F>> = Vec::new();
    let mut i: usize = 0;
    while i < glyphs.len()
        invariant
            i <= glyphs@.len(),
            bound == match end {
                Some(end) => end as int,
                None => usize::MAX + 1,
            },
            result@ == glyphs_between(glyphs@, start, bound, shift, i as nat),
        decreases glyphs@.len() - i,
    {
        let mut glyph = glyphs[i];
        let before_end: bool = match end {
            Some(end) => glyph.index < end,
            None => true,
        };
        if start <= glyph.index && before_end {
            glyph.index = glyph.index - start;
            if let Some(shift) = shift {
                glyph.position.x = glyph.position.x.minus(shift);
            }
            result.push(glyph);
        }
        i = i + 1;
    }
    result
}

fn pick_runs<F: Scalar>(
    runs: &Vec<ShapedRun<F>>,
    start: usize,
    end: Option<usize>,
    shift: Option<F>,
) -> (result: Vec<ShapedRun<F>>)
    ensures
        result@.map_values(|run: ShapedRun<F>| run@) == runs_between(
            runs@.map_values(|run: ShapedRun<F>| run@),
            start,
            match end {
                Some(end) => end as int,
                None => usize::MAX + 1,
            },
            shift,
            runs@.len(),
        ),
{
    let ghost bound = match end {
        Some(end) => end as int,
        None => usize::MAX + 1,
    };
    let ghost views = runs@.map_values(|run: ShapedRun<F>| run@);
    let mut result: Vec<ShapedRun<F>> = Vec::new();
    let mut i: usize = 0;
    proof {
        assert(result@.map_values(|run: ShapedRun<F>| run@) =~= runs_between(
            views,
            start,
            bound,
            shift,
            0,
        ));
    }
    while i < runs.len()
        invariant
            i <= runs@.len(),
            bound == match end {
                Some(end) => end as int,
                None => usize::MAX + 1,
            },
            views == runs@.map_values(|run: ShapedRun<F>| run@),
            result@.map_values(|run: ShapedRun<F>| run@) == runs_between(
                views,
                start,
                bound,
                shift,
                i as nat,
            ),
        decreases runs@.len() - i,
    {
        let glyphs = pick_glyphs(&runs[i].glyphs, start, end, shift);
        let ghost before = result@;
        if glyphs.len() > 0 {
            result.push(ShapedRun { font_id: runs[i].font_id, glyphs });
            proof {
                assert(result@.map_values(|run: ShapedRun<F>| run@) =~= before.map_values(
                    |run: ShapedRun<F>| run@,
                ).push(result@.last()@));
            }
        }
        i = i + 1;
    }
    result
}

impl<F: Scalar> LineLayout<F> {
    /// Where the text from byte `index` on starts: the place of the first glyph
    /// that stands for it, or the end of the line.
    pub fn x_for_index(&self, index: usize) -> (result: F)
        ensures
            result == self@.spec_x_for_index(index),
    {
        let mut i: usize = 0;
        while i < self.runs.len()
            invariant
                i <= self.runs@.len(),
                x_in_runs(self@.runs, 0, index) == x_in_runs(self@.runs, i as int, index),
            decreases self.runs@.len() - i,
        {
            if let Some(x) = x_among_glyphs(&self.runs[i].glyphs, index) {
                return x;
            }
            i = i + 1;
        }
        self.width
    }

    /// The byte that is nearest to `x`: that of the nearer of the two glyphs around
    /// it, or the end of the text behind them all. Of a text of one byte the middle
    /// decides.
    pub fn closest_index_for_x(&self, x: F) -> (result: usize)
        ensures
            result == self@.spec_closest_index_for_x(x),
    {
        let mut before: usize = 0;
        let mut before_x = zero::<F>();
        let mut i: usize = 0;
        while i < self.runs.len()
            invariant
                i <= self.runs@.len(),
                closest_in_runs(self@.runs, 0, x, 0, spec_zero()) == closest_in_runs(
                    self@.runs,
                    i as int,
                    x,
                    before,
                    before_x,
                ),
            decreases self.runs@.len() - i,
        {
            let glyphs = &self.runs[i].glyphs;
            let ghost start = before;
            let ghost start_x = before_x;
            let mut k: usize = 0;
            while k < glyphs.len()
                invariant
                    i < self.runs@.len(),
                    glyphs@ == self@.runs[i as int].glyphs,
                    k <= glyphs@.len(),
                    closest_in_run(glyphs@, 0, x, start, start_x) == closest_in_run(
                        glyphs@,
                        k as int,
                        x,
                        before,
                        before_x,
                    ),
                    closest_in_runs(self@.runs, 0, x, 0, spec_zero()) == closest_in_runs(
                        self@.runs,
                        i as int,
                        x,
                        start,
                        start_x,
                    ),
                decreases glyphs@.len() - k,
            {
                let glyph = glyphs[k];
                if x.le(glyph.position.x) {
                    if glyph.position.x.minus(x).lt(x.minus(before_x)) {
                        return glyph.index;
                    } else {
                        return before;
                    }
                }
                before = glyph.index;
                before_x = glyph.position.x;
                k = k + 1;
            }
            i = i + 1;
        }
        if self.len == 1 {
            if self.width.over(two()).lt(x) {
                1
            } else {
                0
            }
        } else {
            self.len
        }
    }

    /// Splits the line at byte `index`: the glyphs before it where they are, and
    /// the others moved to start at zero.
    pub fn split_at(&self, index: usize) -> (result: (LineLayout<F>, LineLayout<F>))
        requires
            index <= self.len,
        ensures
            result.0@ == self@.spec_before(index),
            result.1@ == self@.spec_after(index),
    {
        let x = self.x_for_index(index);
        let left = LineLayout {
            font_size: self.font_size,
            width: x,
            ascent: self.ascent,
            descent: self.descent,
            runs: pick_runs(&self.runs, 0, Some(index), None),
            len: index,
        };
        let right = LineLayout {
            font_size: self.font_size,
            width: self.width.minus(x),
            ascent: self.ascent,
            descent: self.descent,
            runs: pick_runs(&self.runs, index, None, Some(x)),
            len: self.len - index,
        };
        (left, right)
    }

    /// A layout that holds the same, but for its length in bytes.
    pub fn with_len(&self, len: usize) -> (result: LineLayout<F>)
        ensures
            result@ == (LineLayoutModel { len, ..self@ }),
    {
        let mut runs: Vec<ShapedRun<F>> = Vec::with_capacity(self.runs.len());
        let mut i: usize = 0;
        while i < self.runs.len()
            invariant
                i <= self.runs@.len(),
                runs@.len() == i,
                forall|k: int| 0 <= k < i ==> (#[trigger] runs@[k])@ == self.runs@[k]@,
            decreases self.runs@.len() - i,
        {
            runs.push(self.runs[i].duplicate());
            i = i + 1;
        }
        let result = LineLayout {
            font_size: self.font_size,
            width: self.width,
            ascent: self.ascent,
            descent: self.descent,
            runs,
            len,
        };
        proof {
            assert(result@.runs =~= self@.runs);
        }
        result
    }
}

impl<F: Scalar> ShapedRun<F> {
    /// A run that holds the same.
    pub fn duplicate(&self) -> (result: Self)
        ensures
            result@ == self@,
    {
        let mut glyphs: Vec<ShapedGlyph<F>> = Vec::with_capacity(self.glyphs.len());
        let mut i: usize = 0;
        while i < self.glyphs.len()
            invariant
                i <= self.glyphs@.len(),
                glyphs@ == self.glyphs@.take(i as int),
            decreases self.glyphs@.len() - i,
        {
            glyphs.push(self.glyphs[i]);
            i = i + 1;
            proof {
                assert(glyphs@ =~= self.glyphs@.take(i as int));
            }
        }
        proof {
            assert(glyphs@ =~= self.glyphs@);
        }
        ShapedRun { font_id: self.font_id, glyphs }
    }
}

} // verus!
