//! Taking a line apart from left to right.
use std::sync::Arc;

use vstd::prelude::*;
use vstd::string::*;
use vstd::utf8::{encode_utf8_valid_utf8, is_char_boundary, is_char_boundary_start_end_of_seq};

use crate::line::{
    decorations_after, lemma_boundary_in_suffix, lemma_offset_monotone, offset_of, text_between,
    DecorationRun, ShapedLine, ShapedLineModel,
};
use crate::line_layout::{
    glyphs_between, rebased, runs_between, x_in_run, x_in_runs, LineLayout, LineLayoutModel,
    ShapedGlyph, ShapedRun, ShapedRunModel,
};
use crate::scalar::{spec_zero, zero, Scalar};

verus! {

/// Whether no glyph stands for text before that of a glyph to its left.
pub open spec fn byte_ordered<F>(runs: Seq<ShapedRunModel<F>>) -> bool {
    forall|r: int, g: int, s: int, h: int|
        0 <= r <= s < runs.len() && 0 <= g < runs[r].glyphs.len() && 0 <= h
            < runs[s].glyphs.len() && (r < s || g <= h) ==> (
        #[trigger] runs[r].glyphs[g]).index <= (#[trigger] runs[s].glyphs[h]).index
}

/// The decorations from the one at `from` to the one before `count`, as far as
/// they lie between the bytes `start` and `end`. An empty decoration lies where
/// it is, up to `end`.
pub open spec fn decorations_between<F>(
    runs: Seq<DecorationRun<F>>,
    from: int,
    start: int,
    end: int,
    count: nat,
) -> Seq<DecorationRun<F>>
    decreases count,
{
    if count <= from || count == 0 {
        Seq::empty()
    } else {
        let run = runs[count - 1];
        let rest = decorations_between(runs, from, start, end, (count - 1) as nat);
        let part = overlap(runs, count - 1, start, end);
        if decoration_begins(runs, count - 1, end) && (part > 0 || run.len == 0) {
            rest.push(DecorationRun { len: part as u32, ..run })
        } else {
            rest
        }
    }
}

/// Whether the decoration at `index` begins before byte `end`, or is empty and
/// lies there.
pub open spec fn decoration_begins<F>(
    runs: Seq<DecorationRun<F>>,
    index: int,
    end: int,
) -> bool {
    let start = offset_of(runs, index);
    start < end || (runs[index].len == 0 && start == end)
}

/// How many bytes of the decoration at `index` lie between `start` and `end`.
pub open spec fn overlap<F>(
    runs: Seq<DecorationRun<F>>,
    index: int,
    start: int,
    end: int,
) -> int {
    let run_start = offset_of(runs, index);
    let run_end = run_start + runs[index].len;
    (if run_end < end {
        run_end
    } else {
        end
    }) - (if run_start > start {
        run_start
    } else {
        start
    })
}

/// The first decoration, from the one at `from` on, that goes on behind `end`.
pub open spec fn decorations_done<F>(runs: Seq<DecorationRun<F>>, from: int, end: int) -> int
    decreases runs.len() - from,
{
    if 0 <= from < runs.len() && decoration_begins(runs, from, end) && offset_of(runs, from + 1)
        <= end {
        decorations_done(runs, from + 1, end)
    } else {
        from
    }
}

/// Incrementally splits a [`ShapedLine`] at increasing UTF-8 byte boundaries.
///
/// Each piece preserves the original glyphs and decorations, rebased as in
/// [`ShapedLine::split_at`]. Byte-ordered glyphs are advanced in linear time,
/// copying each glyph and byte at most once; visually reordered glyphs fall
/// back to the existing split operation.
pub struct ShapedLineCursor<'a, F> {
    /// The line.
    pub line: &'a ShapedLine<F>,
    /// What is left of a line whose glyphs are out of byte order, as
    /// bidirectional shaping can put them.
    pub unordered_remainder: Option<ShapedLine<F>>,
    /// The boundary that the cursor is at.
    pub byte_index: usize,
    /// The run of the first glyph behind the boundary.
    pub run_index: usize,
    /// The place of that glyph in its run.
    pub glyph_index: usize,
    /// The first decoration that goes on behind the boundary.
    pub decoration_index: usize,
    /// Where that decoration starts.
    pub decoration_offset: u32,
    /// The line's x position at the boundary.
    pub x_offset: F,
}

/// Whether every glyph before the one at `glyph` in the run at `run` stands for
/// text before byte `index`.
pub open spec fn all_before<F>(
    runs: Seq<ShapedRunModel<F>>,
    run: int,
    glyph: int,
    index: int,
) -> bool {
    forall|r: int, g: int|
        0 <= r < runs.len() && 0 <= g < runs[r].glyphs.len() && (r < run || r == run && g < glyph)
            ==> (#[trigger] runs[r].glyphs[g]).index < index
}

/// Whether every glyph from the one at `glyph` in the run at `run` on stands for
/// text at or behind byte `index`.
pub open spec fn none_before<F>(
    runs: Seq<ShapedRunModel<F>>,
    run: int,
    glyph: int,
    index: int,
) -> bool {
    forall|r: int, g: int|
        0 <= r < runs.len() && 0 <= g < runs[r].glyphs.len() && (r > run || r == run && g >= glyph)
            ==> (#[trigger] runs[r].glyphs[g]).index >= index
}

impl<F: Scalar> ShapedLineModel<F> {
    /// Whether the line can be split: its length is that of its text, and the
    /// decorations can be counted in 32 bits.
    pub open spec fn splittable(self) -> bool {
        &&& self.layout.len == self.text.len()
        &&& self.layout.len <= u32::MAX
        &&& self.decorations_fit()
    }

    /// The piece of a byte-ordered line from byte `start`, at `x`, to byte `end`,
    /// with the decorations from the one at `decoration` on.
    pub open spec fn piece(self, start: usize, x: F, end: usize, decoration: int) -> Self {
        ShapedLineModel {
            layout: LineLayoutModel {
                width: self.layout.spec_x_for_index(end).spec_minus(x),
                runs: runs_between(
                    self.layout.runs,
                    start,
                    end as int,
                    Some(x),
                    self.layout.runs.len(),
                ),
                len: (end - start) as usize,
                ..self.layout
            },
            text: self.text.subrange(start as int, end as int),
            decoration_runs: decorations_between(
                self.decoration_runs,
                decoration,
                start as int,
                end as int,
                self.decoration_runs.len(),
            ),
        }
    }
}

impl<'a, F: Scalar> ShapedLineCursor<'a, F> {
    /// Whether the cursor is at a boundary of its line, with everything before
    /// it taken and everything behind it left.
    pub open spec fn wf(self) -> bool {
        let line = self.line@;
        &&& line.splittable()
        &&& self.byte_index <= line.layout.len
        &&& is_char_boundary(line.text, self.byte_index as int)
        &&& match self.unordered_remainder {
            Some(remainder) => {
                &&& !byte_ordered(line.layout.runs)
                &&& remainder@.layout.len == line.layout.len - self.byte_index
                &&& remainder@.text == line.text.skip(self.byte_index as int)
                &&& remainder@.decorations_fit()
            },
            None => {
                &&& byte_ordered(line.layout.runs)
                &&& self.run_index <= line.layout.runs.len()
                &&& self.run_index < line.layout.runs.len() ==> self.glyph_index
                    <= line.layout.runs[self.run_index as int].glyphs.len()
                &&& self.run_index == line.layout.runs.len() ==> self.glyph_index == 0
                &&& all_before(
                    line.layout.runs,
                    self.run_index as int,
                    self.glyph_index as int,
                    self.byte_index as int,
                )
                &&& none_before(
                    line.layout.runs,
                    self.run_index as int,
                    self.glyph_index as int,
                    self.byte_index as int,
                )
                &&& self.decoration_index <= line.decoration_runs.len()
                &&& self.decoration_offset == offset_of(
                    line.decoration_runs,
                    self.decoration_index as int,
                )
                &&& self.decoration_index < line.decoration_runs.len() ==> self.byte_index
                    <= offset_of(line.decoration_runs, self.decoration_index + 1)
            },
        }
    }

    /// Takes the bytes since the previous boundary.
    ///
    /// The boundary must not precede the previous one, exceed the line's length,
    /// or fall inside a UTF-8 character.
    #[verifier::rlimit(60)]
    pub fn take_until(&mut self, byte_index: usize) -> (result: ShapedLine<F>)
        requires
            old(self).wf(),
            old(self).byte_index <= byte_index <= old(self).line@.layout.len,
            is_char_boundary(old(self).line@.text, byte_index as int),
        ensures
            final(self).wf(),
            final(self).line == old(self).line,
            final(self).byte_index == byte_index,
            final(self).x_offset == old(self).line@.layout.spec_x_for_index(byte_index),
            match old(self).unordered_remainder {
                Some(remainder) => {
                    let taken = (byte_index - old(self).byte_index) as usize;
                    &&& result@ == remainder@.spec_before(taken)
                    &&& final(self).unordered_remainder is Some
                    &&& final(self).unordered_remainder->Some_0@ == remainder@.spec_after(taken)
                },
                None => {
                    &&& result@ == old(self).line@.piece(
                        old(self).byte_index,
                        old(self).x_offset,
                        byte_index,
                        old(self).decoration_index as int,
                    )
                    &&& final(self).unordered_remainder is None
                    &&& final(self).decoration_index == decorations_done(
                        old(self).line@.decoration_runs,
                        old(self).decoration_index as int,
                        byte_index as int,
                    )
                },
            },
    {
        let previous_index: usize = self.byte_index;
        let previous_x = self.x_offset;
        let line = self.line;
        let ghost model = line@;
        proof {
            encode_utf8_valid_utf8(line.text@);
        }
        if let Some(remainder) = &self.unordered_remainder {
            proof {
                lemma_boundary_in_suffix(model.text, previous_index as int, byte_index as int);
            }
            let (piece, rest) = remainder.split_at(byte_index - previous_index);
            proof {
                assert(model.text.skip(previous_index as int).skip(byte_index - previous_index)
                    =~= model.text.skip(byte_index as int));
                lemma_decorations_after_fit(
                    remainder@.decoration_runs,
                    (byte_index - previous_index) as int,
                );
            }
            self.unordered_remainder = Some(rest);
            self.byte_index = byte_index;
            self.x_offset = line.layout.x_for_index(byte_index);
            return piece;
        }
        let ghost runs_model = model.layout.runs;
        let mut runs: Vec<ShapedRun<F>> = Vec::new();
        let mut next_x = line.layout.width;
        let mut run_index: usize = self.run_index;
        let mut glyph_index: usize = self.glyph_index;
        proof {
            lemma_runs_done(
                runs_model,
                previous_index,
                byte_index as int,
                Some(previous_x),
                run_index as nat,
            );
            lemma_x_skips(runs_model, byte_index, run_index as int);
            assert(runs@.map_values(|run: ShapedRun<F>| run@) =~= Seq::empty());
        }
        while run_index < line.layout.runs.len()
            invariant_except_break
                self.run_index < run_index || (self.run_index == run_index && self.glyph_index
                    == glyph_index),
                self.run_index < run_index ==> glyph_index == 0,
                next_x == model.layout.width,
                runs@.map_values(|run: ShapedRun<F>| run@) == runs_between(
                    runs_model,
                    previous_index,
                    byte_index as int,
                    Some(previous_x),
                    run_index as nat,
                ),
            invariant
                line@ == model,
                runs_model == model.layout.runs,
                byte_ordered(runs_model),
                previous_index <= byte_index,
                run_index <= runs_model.len(),
                run_index < runs_model.len() ==> glyph_index
                    <= runs_model[run_index as int].glyphs.len(),
                run_index == runs_model.len() ==> glyph_index == 0,
                all_before(runs_model, run_index as int, glyph_index as int, byte_index as int),
                all_before(
                    runs_model,
                    self.run_index as int,
                    self.glyph_index as int,
                    previous_index as int,
                ),
                none_before(
                    runs_model,
                    self.run_index as int,
                    self.glyph_index as int,
                    previous_index as int,
                ),
                x_in_runs(runs_model, 0, byte_index) == x_in_runs(
                    runs_model,
                    run_index as int,
                    byte_index,
                ),
            ensures
                run_index <= runs_model.len(),
                run_index < runs_model.len() ==> glyph_index
                    <= runs_model[run_index as int].glyphs.len(),
                run_index == runs_model.len() ==> glyph_index == 0,
                all_before(runs_model, run_index as int, glyph_index as int, byte_index as int),
                none_before(runs_model, run_index as int, glyph_index as int, byte_index as int),
                next_x == model.layout.spec_x_for_index(byte_index),
                runs@.map_values(|run: ShapedRun<F>| run@) == runs_between(
                    runs_model,
                    previous_index,
                    byte_index as int,
                    Some(previous_x),
                    runs_model.len(),
                ),
            decreases runs_model.len() - run_index,
        {
            let run = &line.layout.runs[run_index];
            let ghost glyphs_model = runs_model[run_index as int].glyphs;
            let mut glyphs: Vec<ShapedGlyph<F>> = Vec::new();
            let ghost first_glyph = glyph_index;
            proof {
                assert(glyphs_model == run.glyphs@);
                assert forall|g: int| 0 <= g < glyph_index implies (
                #[trigger] glyphs_model[g]).index < previous_index by {
                    assert(runs_model[run_index as int].glyphs[g].index < previous_index);
                }
                lemma_glyphs_done(
                    glyphs_model,
                    previous_index,
                    byte_index as int,
                    Some(previous_x),
                    glyph_index as nat,
                );
            }
            while glyph_index < run.glyphs.len() && run.glyphs[glyph_index].index < byte_index
                invariant
                    first_glyph <= glyph_index <= glyphs_model.len(),
                    glyphs_model == run.glyphs@,
                    forall|g: int|
                        first_glyph <= g < glyphs_model.len() ==> (
                        #[trigger] glyphs_model[g]).index >= previous_index,
                    forall|g: int|
                        0 <= g < glyph_index ==> (#[trigger] glyphs_model[g]).index < byte_index,
                    glyphs@ == glyphs_between(
                        glyphs_model,
                        previous_index,
                        byte_index as int,
                        Some(previous_x),
                        glyph_index as nat,
                    ),
                decreases glyphs_model.len() - glyph_index,
            {
                let mut glyph = run.glyphs[glyph_index];
                glyph.position.x = glyph.position.x.minus(previous_x);
                glyph.index = glyph.index - previous_index;
                glyphs.push(glyph);
                glyph_index = glyph_index + 1;
            }
            let ghost runs_0 = runs@;
            proof {
                assert forall|g: int| glyph_index <= g < glyphs_model.len() implies (
                #[trigger] glyphs_model[g]).index >= byte_index by {
                    assert(runs_model[run_index as int].glyphs[glyph_index as int].index
                        <= runs_model[run_index as int].glyphs[g].index);
                }
                lemma_glyphs_end(
                    glyphs_model,
                    previous_index,
                    byte_index as int,
                    Some(previous_x),
                    glyph_index as nat,
                    glyphs_model.len(),
                );
            }
            if glyphs.len() > 0 {
                runs.push(ShapedRun { font_id: run.font_id, glyphs });
                proof {
                    assert(runs@.map_values(|run: ShapedRun<F>| run@) =~= runs_0.map_values(
                        |run: ShapedRun<F>| run@,
                    ).push(runs@.last()@));
                }
            }
            if glyph_index < run.glyphs.len() {
                next_x = run.glyphs[glyph_index].position.x;
                proof {
                    lemma_x_found(glyphs_model, byte_index, 0, glyph_index as int);
                    assert forall|r: int, g: int|
                        0 <= r < runs_model.len() && 0 <= g < runs_model[r].glyphs.len() && (r
                            > run_index || r == run_index && g >= glyph_index) implies (
                    #[trigger] runs_model[r].glyphs[g]).index >= byte_index by {
                        assert(runs_model[run_index as int].glyphs[glyph_index as int].index
                            <= runs_model[r].glyphs[g].index);
                    }
                    lemma_runs_end(
                        runs_model,
                        previous_index,
                        byte_index as int,
                        Some(previous_x),
                        (run_index + 1) as nat,
                        runs_model.len(),
                    );
                }
                break;
            }
            proof {
                lemma_x_missing(glyphs_model, byte_index, 0);
            }
            run_index = run_index + 1;
            glyph_index = 0;
        }
        let mut decorations: Vec<DecorationRun<F>> = Vec::new();
        let mut decoration_index: usize = self.decoration_index;
        let mut decoration_offset: u32 = self.decoration_offset;
        let end_index: u32 = byte_index as u32;
        let start_index: u32 = previous_index as u32;
        let ghost all_decorations = model.decoration_runs;
        let ghost first_decoration = decoration_index as int;
        let ghost done = decorations_done(all_decorations, first_decoration, byte_index as int);
        loop
            invariant_except_break
                decoration_index < all_decorations.len() ==> start_index <= offset_of(
                    all_decorations,
                    decoration_index + 1,
                ),
                decorations@ == decorations_between(
                    all_decorations,
                    first_decoration,
                    previous_index as int,
                    byte_index as int,
                    decoration_index as nat,
                ),
                done == decorations_done(
                    all_decorations,
                    decoration_index as int,
                    byte_index as int,
                ),
            invariant
                line@ == model,
                all_decorations == model.decoration_runs,
                model.decorations_fit(),
                start_index == previous_index,
                end_index == byte_index,
                start_index <= end_index,
                0 <= first_decoration <= decoration_index <= all_decorations.len(),
                decoration_offset == offset_of(all_decorations, decoration_index as int),
            ensures
                decorations@ == decorations_between(
                    all_decorations,
                    first_decoration,
                    previous_index as int,
                    byte_index as int,
                    all_decorations.len(),
                ),
                decoration_index == done,
                decoration_index < all_decorations.len() ==> end_index <= offset_of(
                    all_decorations,
                    decoration_index + 1,
                ),
            decreases all_decorations.len() - decoration_index,
        {
            let begins: bool = decoration_index < line.decoration_runs.len() && (decoration_offset
                < end_index || (line.decoration_runs[decoration_index].len == 0
                && decoration_offset == end_index));
            if !begins {
                proof {
                    lemma_decorations_stop(
                        all_decorations,
                        first_decoration,
                        previous_index as int,
                        byte_index as int,
                        decoration_index as nat,
                        all_decorations.len(),
                    );
                }
                break;
            }
            let decoration = line.decoration_runs[decoration_index];
            proof {
                lemma_offset_monotone(
                    all_decorations,
                    decoration_index + 1,
                    all_decorations.len() as int,
                );
                if decoration_index + 1 < all_decorations.len() {
                    lemma_offset_monotone(
                        all_decorations,
                        decoration_index + 1,
                        decoration_index + 2,
                    );
                }
            }
            let end: u32 = decoration_offset + decoration.len;
            let start: u32 = if decoration_offset > start_index {
                decoration_offset
            } else {
                start_index
            };
            let stop: u32 = if end < end_index {
                end
            } else {
                end_index
            };
            let len: u32 = stop - start;
            if len > 0 || decoration.len == 0 {
                let mut part = decoration;
                part.len = len;
                decorations.push(part);
            }
            if end > end_index {
                proof {
                    lemma_decorations_stop(
                        all_decorations,
                        first_decoration,
                        previous_index as int,
                        byte_index as int,
                        (decoration_index + 1) as nat,
                        all_decorations.len(),
                    );
                }
                break;
            }
            decoration_index = decoration_index + 1;
            decoration_offset = end;
        }
        proof {
            is_char_boundary_start_end_of_seq(model.text);
        }
        let text = text_between(line.text.as_str(), previous_index, byte_index);
        self.run_index = run_index;
        self.glyph_index = glyph_index;
        self.decoration_index = decoration_index;
        self.decoration_offset = decoration_offset;
        self.byte_index = byte_index;
        self.x_offset = next_x;
        ShapedLine {
            layout: Arc::new(
                LineLayout {
                    font_size: line.layout.font_size,
                    width: next_x.minus(previous_x),
                    ascent: line.layout.ascent,
                    descent: line.layout.descent,
                    runs,
                    len: byte_index - previous_index,
                },
            ),
            text,
            decoration_runs: decorations,
        }
    }

    /// Returns the original line's x position at the current boundary.
    pub fn x_offset(&self) -> (result: F)
        ensures
            result == self.x_offset,
    {
        self.x_offset
    }
}

/// Whether the glyph at `g` in the run at `r` comes before the one at `glyph` in
/// the run at `run`.
spec fn comes_before(r: int, g: int, run: int, glyph: int) -> bool {
    r < run || r == run && g < glyph
}

/// Whether no glyph before the one at `glyph` in the run at `run` stands for text
/// before that of a glyph to its left.
spec fn ordered_up_to<F>(runs: Seq<ShapedRunModel<F>>, run: int, glyph: int) -> bool {
    forall|r: int, g: int, s: int, h: int|
        0 <= r <= s < runs.len() && 0 <= g < runs[r].glyphs.len() && 0 <= h
            < runs[s].glyphs.len() && (r < s || g <= h) && comes_before(s, h, run, glyph) ==> (
        #[trigger] runs[r].glyphs[g]).index <= (#[trigger] runs[s].glyphs[h]).index
}

/// Whether `last` is the greatest index before the glyph at `glyph` in the run at
/// `run`, and the index of one of the glyphs there.
spec fn is_last_index<F>(
    runs: Seq<ShapedRunModel<F>>,
    run: int,
    glyph: int,
    last: Option<usize>,
) -> bool {
    match last {
        None => forall|r: int, g: int|
            0 <= r < runs.len() && 0 <= g < (#[trigger] runs[r]).glyphs.len() ==> !(
            #[trigger] comes_before(r, g, run, glyph)),
        Some(last) => {
            &&& forall|r: int, g: int|
                0 <= r < runs.len() && 0 <= g < runs[r].glyphs.len() && comes_before(
                    r,
                    g,
                    run,
                    glyph,
                ) ==> (#[trigger] runs[r].glyphs[g]).index <= last
            &&& exists|r: int, g: int|
                0 <= r < runs.len() && 0 <= g < runs[r].glyphs.len() && comes_before(
                    r,
                    g,
                    run,
                    glyph,
                ) && (#[trigger] runs[r].glyphs[g]).index == last
        },
    }
}

fn is_byte_ordered<F: Scalar>(layout: &LineLayout<F>) -> (result: bool)
    ensures
        result == byte_ordered(layout@.runs),
{
    let ghost runs = layout@.runs;
    let mut last: Option<usize> = None;
    let mut run: usize = 0;
    while run < layout.runs.len()
        invariant
            runs == layout@.runs,
            run <= runs.len(),
            ordered_up_to(runs, run as int, 0),
            is_last_index(runs, run as int, 0, last),
        decreases runs.len() - run,
    {
        let glyphs = &layout.runs[run].glyphs;
        let mut glyph: usize = 0;
        while glyph < glyphs.len()
            invariant
                runs == layout@.runs,
                run < runs.len(),
                glyphs@ == runs[run as int].glyphs,
                glyph <= glyphs@.len(),
                ordered_up_to(runs, run as int, glyph as int),
                is_last_index(runs, run as int, glyph as int, last),
            decreases glyphs@.len() - glyph,
        {
            let index: usize = glyphs[glyph].index;
            if let Some(last) = last {
                if index < last {
                    proof {
                        let (r, g) = choose|r: int, g: int|
                            0 <= r < runs.len() && 0 <= g < runs[r].glyphs.len() && comes_before(
                                r,
                                g,
                                run as int,
                                glyph as int,
                            ) && (#[trigger] runs[r].glyphs[g]).index == last;
                        assert(runs[r].glyphs[g].index
                            > runs[run as int].glyphs[glyph as int].index);
                    }
                    return false;
                }
            }
            proof {
                assert(runs[run as int].glyphs[glyph as int].index == index);
                assert forall|r: int, g: int, s: int, h: int|
                    0 <= r <= s < runs.len() && 0 <= g < runs[r].glyphs.len() && 0 <= h
                        < runs[s].glyphs.len() && (r < s || g <= h) && comes_before(
                        s,
                        h,
                        run as int,
                        glyph + 1,
                    ) implies (#[trigger] runs[r].glyphs[g]).index <= (
                #[trigger] runs[s].glyphs[h]).index by {
                    if s == run && h == glyph {
                        if r == s && g == h {
                        } else {
                            assert(comes_before(r, g, run as int, glyph as int));
                            assert(runs[r].glyphs.len() > 0);
                        }
                    }
                }
            }
            last = Some(index);
            glyph = glyph + 1;
        }
        run = run + 1;
        proof {
            assert forall|r: int, g: int, s: int, h: int|
                0 <= r <= s < runs.len() && 0 <= g < runs[r].glyphs.len() && 0 <= h
                    < runs[s].glyphs.len() && (r < s || g <= h) && comes_before(
                    s,
                    h,
                    run as int,
                    0,
                ) implies (#[trigger] runs[r].glyphs[g]).index <= (
            #[trigger] runs[s].glyphs[h]).index by {
                assert(comes_before(s, h, run - 1, glyph as int));
            }
            if let Some(last) = last {
                let (r, g) = choose|r: int, g: int|
                    0 <= r < runs.len() && 0 <= g < runs[r].glyphs.len() && comes_before(
                        r,
                        g,
                        run - 1,
                        glyph as int,
                    ) && (#[trigger] runs[r].glyphs[g]).index == last;
                assert(comes_before(r, g, run as int, 0));
                assert(runs[r].glyphs[g].index == last);
            } else {
                assert forall|r: int, g: int|
                    0 <= r < runs.len() && 0 <= g < (#[trigger] runs[r]).glyphs.len() implies !(
                #[trigger] comes_before(r, g, run as int, 0)) by {
                    assert(!comes_before(r, g, run - 1, glyph as int));
                }
            }
        }
    }
    proof {
        assert forall|r: int, g: int, s: int, h: int|
            0 <= r <= s < runs.len() && 0 <= g < runs[r].glyphs.len() && 0 <= h
                < runs[s].glyphs.len() && (r < s || g <= h) implies (
        #[trigger] runs[r].glyphs[g]).index <= (#[trigger] runs[s].glyphs[h]).index by {
            assert(comes_before(s, h, run as int, 0));
        }
    }
    true
}

impl<F: Scalar> ShapedLine<F> {
    /// Returns a forward-only cursor for this shaped line, whose length must not
    /// have been overridden.
    pub fn cursor(&self) -> (result: ShapedLineCursor<'_, F>)
        requires
            self@.splittable(),
        ensures
            result.wf(),
            result.line == self,
            result.byte_index == 0,
            result.x_offset == spec_zero::<F>(),
            result.decoration_index == 0,
            result.unordered_remainder is None <==> byte_ordered(self@.layout.runs),
            result.unordered_remainder is Some ==> result.unordered_remainder->Some_0@ == self@,
    {
        let ordered: bool = is_byte_ordered(&self.layout);
        let unordered_remainder = if ordered {
            None
        } else {
            Some(self.duplicate())
        };
        proof {
            lemma_offset_monotone(self@.decoration_runs, 0, 1);
            encode_utf8_valid_utf8(self.text@);
            is_char_boundary_start_end_of_seq(self@.text);
            assert(self@.text.skip(0) =~= self@.text);
        }
        ShapedLineCursor {
            line: self,
            unordered_remainder,
            byte_index: 0,
            run_index: 0,
            glyph_index: 0,
            decoration_index: 0,
            decoration_offset: 0,
            x_offset: zero(),
        }
    }
}

/// Glyphs before the piece are no part of it.
proof fn lemma_glyphs_done<F: Scalar>(
    glyphs: Seq<ShapedGlyph<F>>,
    start: usize,
    end: int,
    shift: Option<F>,
    count: nat,
)
    requires
        count <= glyphs.len(),
        forall|g: int| 0 <= g < count ==> (#[trigger] glyphs[g]).index < start,
    ensures
        glyphs_between(glyphs, start, end, shift, count) == Seq::<ShapedGlyph<F>>::empty(),
    decreases count,
{
    if count > 0 {
        lemma_glyphs_done(glyphs, start, end, shift, (count - 1) as nat);
        assert(glyphs[count - 1].index < start);
    }
}

/// Glyphs behind the piece are no part of it.
proof fn lemma_glyphs_end<F: Scalar>(
    glyphs: Seq<ShapedGlyph<F>>,
    start: usize,
    end: int,
    shift: Option<F>,
    from: nat,
    count: nat,
)
    requires
        from <= count <= glyphs.len(),
        forall|g: int| from <= g < count ==> (#[trigger] glyphs[g]).index >= end,
    ensures
        glyphs_between(glyphs, start, end, shift, count) == glyphs_between(
            glyphs,
            start,
            end,
            shift,
            from,
        ),
    decreases count,
{
    if from < count {
        lemma_glyphs_end(glyphs, start, end, shift, from, (count - 1) as nat);
        assert(glyphs[count - 1].index >= end);
    }
}

/// Runs before the piece are no part of it.
proof fn lemma_runs_done<F: Scalar>(
    runs: Seq<ShapedRunModel<F>>,
    start: usize,
    end: int,
    shift: Option<F>,
    count: nat,
)
    requires
        count <= runs.len(),
        all_before(runs, count as int, 0, start as int),
    ensures
        runs_between(runs, start, end, shift, count) == Seq::<ShapedRunModel<F>>::empty(),
    decreases count,
{
    if count > 0 {
        let glyphs = runs[count - 1].glyphs;
        assert forall|r: int, g: int|
            0 <= r < runs.len() && 0 <= g < runs[r].glyphs.len() && (r < count - 1 || r == count
                - 1 && g < 0) implies (#[trigger] runs[r].glyphs[g]).index < start by {}
        lemma_runs_done(runs, start, end, shift, (count - 1) as nat);
        assert forall|g: int| 0 <= g < glyphs.len() implies (#[trigger] glyphs[g]).index < start by {
            assert(runs[count - 1].glyphs[g].index < start);
        }
        lemma_glyphs_done(glyphs, start, end, shift, glyphs.len());
    }
}

/// Runs behind the piece are no part of it.
proof fn lemma_runs_end<F: Scalar>(
    runs: Seq<ShapedRunModel<F>>,
    start: usize,
    end: int,
    shift: Option<F>,
    from: nat,
    count: nat,
)
    requires
        from <= count <= runs.len(),
        none_before(runs, from as int, 0, end),
    ensures
        runs_between(runs, start, end, shift, count) == runs_between(
            runs,
            start,
            end,
            shift,
            from,
        ),
    decreases count,
{
    if from < count {
        lemma_runs_end(runs, start, end, shift, from, (count - 1) as nat);
        let glyphs = runs[count - 1].glyphs;
        assert forall|g: int| 0 <= g < glyphs.len() implies (#[trigger] glyphs[g]).index >= end by {
            assert(runs[count - 1].glyphs[g].index >= end);
        }
        lemma_glyphs_end(glyphs, start, end, shift, 0, glyphs.len());
    }
}

proof fn lemma_x_missing<F>(glyphs: Seq<ShapedGlyph<F>>, index: usize, from: int)
    requires
        0 <= from,
        forall|g: int| from <= g < glyphs.len() ==> (#[trigger] glyphs[g]).index < index,
    ensures
        x_in_run(glyphs, from, index) is None,
    decreases glyphs.len() - from,
{
    if from < glyphs.len() {
        assert(glyphs[from].index < index);
        lemma_x_missing(glyphs, index, from + 1);
    }
}

proof fn lemma_x_found<F>(glyphs: Seq<ShapedGlyph<F>>, index: usize, from: int, at: int)
    requires
        0 <= from <= at < glyphs.len(),
        forall|g: int| from <= g < at ==> (#[trigger] glyphs[g]).index < index,
        glyphs[at].index >= index,
    ensures
        x_in_run(glyphs, from, index) == Some(glyphs[at].position.x),
    decreases at - from,
{
    if from < at {
        assert(glyphs[from].index < index);
        lemma_x_found(glyphs, index, from + 1, at);
    }
}

proof fn lemma_x_skips<F>(runs: Seq<ShapedRunModel<F>>, index: usize, count: int)
    requires
        0 <= count <= runs.len(),
        all_before(runs, count, 0, index as int),
    ensures
        x_in_runs(runs, 0, index) == x_in_runs(runs, count, index),
    decreases count,
{
    if count > 0 {
        assert forall|r: int, g: int|
            0 <= r < runs.len() && 0 <= g < runs[r].glyphs.len() && (r < count - 1 || r == count
                - 1 && g < 0) implies (#[trigger] runs[r].glyphs[g]).index < index by {}
        lemma_x_skips(runs, index, count - 1);
        let glyphs = runs[count - 1].glyphs;
        assert forall|g: int| 0 <= g < glyphs.len() implies (#[trigger] glyphs[g]).index < index by {
            assert(runs[count - 1].glyphs[g].index < index);
        }
        lemma_x_missing(glyphs, index, 0);
    }
}

/// Where no decoration begins in the piece, none that follows does.
proof fn lemma_decorations_stop<F>(
    runs: Seq<DecorationRun<F>>,
    from: int,
    start: int,
    end: int,
    stop: nat,
    count: nat,
)
    requires
        0 <= from <= stop <= count <= runs.len(),
        stop < runs.len() ==> !decoration_begins(runs, stop as int, end),
    ensures
        decorations_between(runs, from, start, end, count) == decorations_between(
            runs,
            from,
            start,
            end,
            stop,
        ),
        stop < runs.len() ==> end <= offset_of(runs, stop as int + 1),
        decorations_done(runs, stop as int, end) == stop,
    decreases count,
{
    if stop < count {
        lemma_decorations_stop(runs, from, start, end, stop, (count - 1) as nat);
        if stop < count - 1 {
            lemma_offset_monotone(runs, stop as int + 1, count - 1);
        }
    }
}

/// How many bytes the first `count` decorations cover behind a split.
pub proof fn lemma_decorations_after_sum<F>(runs: Seq<DecorationRun<F>>, split: int, count: nat)
    requires
        count <= runs.len(),
        offset_of(runs, runs.len() as int) <= u32::MAX,
        0 <= split,
    ensures
        ({
            let after = decorations_after(runs, split, count);
            offset_of(after, after.len() as int) == if offset_of(runs, count as int) > split {
                offset_of(runs, count as int) - split
            } else {
                0
            }
        }),
    decreases count,
{
    if count > 0 {
        lemma_decorations_after_sum(runs, split, (count - 1) as nat);
        lemma_offset_monotone(runs, count as int, runs.len() as int);
        let rest = decorations_after(runs, split, (count - 1) as nat);
        let after = decorations_after(runs, split, count);
        if after.len() > rest.len() {
            lemma_offset_prefix(after, rest, rest.len() as int);
        }
    }
}

/// Where a decoration starts depends on those before it alone.
pub proof fn lemma_offset_prefix<F>(a: Seq<DecorationRun<F>>, b: Seq<DecorationRun<F>>, index: int)
    requires
        0 <= index <= a.len(),
        index <= b.len(),
        forall|i: int| 0 <= i < index ==> a[i] == b[i],
    ensures
        offset_of(a, index) == offset_of(b, index),
    decreases index,
{
    if index > 0 {
        lemma_offset_prefix(a, b, index - 1);
    }
}

/// What is left of decorations behind a split covers no more than they did.
proof fn lemma_decorations_after_fit<F>(runs: Seq<DecorationRun<F>>, split: int)
    requires
        offset_of(runs, runs.len() as int) <= u32::MAX,
        0 <= split,
    ensures
        ({
            let after = decorations_after(runs, split, runs.len());
            offset_of(after, after.len() as int) <= offset_of(runs, runs.len() as int)
        }),
{
    lemma_decorations_after_sum(runs, split, runs.len());
    lemma_offset_monotone(runs, 0, runs.len() as int);
}

} // verus!
