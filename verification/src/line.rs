//! Decorated lines of text, and taking them apart.
use std::sync::Arc;

use vstd::prelude::*;
use vstd::string::*;
use vstd::utf8::{
    encode_utf8, encode_utf8_valid_utf8, is_char_boundary,
    is_char_boundary_iff_not_is_continuation_byte, is_char_boundary_start_end_of_seq, valid_utf8,
    valid_utf8_split,
};

use crate::color::Hsla;
use crate::line_layout::{rebased, LineLayout, LineLayoutModel};
use crate::scalar::{zero, Scalar};
use crate::shared::share;

verus! {

/// How text is underlined.
#[derive(Clone, Copy, Debug)]
pub struct UnderlineStyle<F> {
    /// How thick the line is.
    pub thickness: F,
    /// Its color; that of the text where there is none.
    pub color: Option<Hsla<F>>,
    /// Whether it is wavy.
    pub wavy: bool,
}

/// How text is struck through.
#[derive(Clone, Copy, Debug)]
pub struct StrikethroughStyle<F> {
    /// How thick the line is.
    pub thickness: F,
    /// Its color; that of the text where there is none.
    pub color: Option<Hsla<F>>,
}

/// Set the text decoration for a run of text.
#[derive(Clone, Copy, Debug)]
pub struct DecorationRun<F> {
    /// The length of the run in utf-8 bytes.
    pub len: u32,
    /// The color for this run
    pub color: Hsla<F>,
    /// The background color for this run
    pub background_color: Option<Hsla<F>>,
    /// The underline style for this run
    pub underline: Option<UnderlineStyle<F>>,
    /// The strikethrough style for this run
    pub strikethrough: Option<StrikethroughStyle<F>>,
}

/// A line of text that has been shaped and decorated.
#[derive(Debug)]
pub struct ShapedLine<F> {
    /// The glyphs.
    pub layout: Arc<LineLayout<F>>,
    /// The text that was shaped for this line.
    pub text: String,
    /// The decorations, one after the other.
    pub decoration_runs: Vec<DecorationRun<F>>,
}

/// What a [`ShapedLine`] holds.
#[verifier::ext_equal]
pub struct ShapedLineModel<F> {
    /// The glyphs.
    pub layout: LineLayoutModel<F>,
    /// The text in utf-8 bytes.
    pub text: Seq<u8>,
    /// The decorations, one after the other.
    pub decoration_runs: Seq<DecorationRun<F>>,
}

impl<F> View for ShapedLine<F> {
    type V = ShapedLineModel<F>;

    open spec fn view(&self) -> ShapedLineModel<F> {
        ShapedLineModel {
            layout: (*self.layout)@,
            text: encode_utf8(self.text@),
            decoration_runs: self.decoration_runs@,
        }
    }
}

/// Where the decoration at `index` starts: how many bytes those before it cover.
pub open spec fn offset_of<F>(runs: Seq<DecorationRun<F>>, index: int) -> int
    decreases index,
{
    if index <= 0 {
        0
    } else {
        offset_of(runs, index - 1) + runs[index - 1].len
    }
}

/// The first `count` decorations as far as they lie before byte `split`.
pub open spec fn decorations_before<F>(
    runs: Seq<DecorationRun<F>>,
    split: int,
    count: nat,
) -> Seq<DecorationRun<F>>
    decreases count,
{
    if count == 0 {
        Seq::empty()
    } else {
        let rest = decorations_before(runs, split, (count - 1) as nat);
        let run = runs[count - 1];
        let start = offset_of(runs, count - 1);
        if start + run.len <= split {
            rest.push(run)
        } else if start >= split {
            rest
        } else {
            rest.push(DecorationRun { len: (split - start) as u32, ..run })
        }
    }
}

/// The first `count` decorations as far as they lie at or behind byte `split`.
pub open spec fn decorations_after<F>(
    runs: Seq<DecorationRun<F>>,
    split: int,
    count: nat,
) -> Seq<DecorationRun<F>>
    decreases count,
{
    if count == 0 {
        Seq::empty()
    } else {
        let rest = decorations_after(runs, split, (count - 1) as nat);
        let run = runs[count - 1];
        let start = offset_of(runs, count - 1);
        if start + run.len <= split {
            rest
        } else if start >= split {
            rest.push(run)
        } else {
            rest.push(DecorationRun { len: (start + run.len - split) as u32, ..run })
        }
    }
}

impl<F: Scalar> ShapedLineModel<F> {
    /// The part of the line before byte `index`.
    pub open spec fn spec_before(self, index: usize) -> Self {
        ShapedLineModel {
            layout: self.layout.spec_before(index),
            text: self.text.take(index as int),
            decoration_runs: decorations_before(
                self.decoration_runs,
                index as u32 as int,
                self.decoration_runs.len(),
            ),
        }
    }

    /// The part of the line from byte `index` on, moved to start at zero.
    pub open spec fn spec_after(self, index: usize) -> Self {
        ShapedLineModel {
            layout: self.layout.spec_after(index),
            text: self.text.skip(index as int),
            decoration_runs: decorations_after(
                self.decoration_runs,
                index as u32 as int,
                self.decoration_runs.len(),
            ),
        }
    }

    /// Whether the decorations' lengths can be summed in 32 bits.
    pub open spec fn decorations_fit(self) -> bool {
        offset_of(self.decoration_runs, self.decoration_runs.len() as int) <= u32::MAX
    }
}

/// Decorations never start before the ones before them.
pub proof fn lemma_offset_monotone<F>(runs: Seq<DecorationRun<F>>, i: int, j: int)
    requires
        0 <= i <= j,
    ensures
        0 <= offset_of(runs, i) <= offset_of(runs, j),
    decreases j,
{
    if i < j {
        lemma_offset_monotone(runs, i, j - 1);
    } else if i > 0 {
        lemma_offset_monotone(runs, i - 1, j - 1);
    }
}

/// The text from byte `from` to byte `to`.
pub(crate) fn text_between(text: &str, from: usize, to: usize) -> (result: String)
    requires
        from <= to <= text.spec_bytes().len(),
        is_char_boundary(text.spec_bytes(), from as int),
        is_char_boundary(text.spec_bytes(), to as int),
    ensures
        encode_utf8(result@) == text.spec_bytes().subrange(from as int, to as int),
{
    proof {
        encode_utf8_valid_utf8(text@);
    }
    let (before_end, _) = text.split_at(to);
    proof {
        lemma_boundary_in_prefix(text.spec_bytes(), from as int, to as int);
    }
    let (_, middle) = before_end.split_at(from);
    proof {
        assert(text.spec_bytes().subrange(0, to as int).subrange(from as int, to as int)
            =~= text.spec_bytes().subrange(from as int, to as int));
    }
    middle.to_owned()
}

proof fn lemma_boundary_in_prefix(bytes: Seq<u8>, from: int, to: int)
    requires
        valid_utf8(bytes),
        0 <= from <= to <= bytes.len(),
        is_char_boundary(bytes, from),
        is_char_boundary(bytes, to),
    ensures
        valid_utf8(bytes.subrange(0, to)),
        is_char_boundary(bytes.subrange(0, to), from),
{
    let prefix = bytes.subrange(0, to);
    valid_utf8_split(bytes, to);
    if from < to {
        assert(prefix[from] == bytes[from]);
        is_char_boundary_iff_not_is_continuation_byte(bytes, from);
        is_char_boundary_iff_not_is_continuation_byte(prefix, from);
    } else {
        is_char_boundary_start_end_of_seq(prefix);
    }
}

/// A boundary of a text is one of what is left behind an earlier boundary.
pub proof fn lemma_boundary_in_suffix(bytes: Seq<u8>, from: int, to: int)
    requires
        valid_utf8(bytes),
        0 <= from <= to <= bytes.len(),
        is_char_boundary(bytes, from),
        is_char_boundary(bytes, to),
    ensures
        valid_utf8(bytes.skip(from)),
        is_char_boundary(bytes.skip(from), to - from),
{
    let suffix = bytes.skip(from);
    valid_utf8_split(bytes, from);
    assert(suffix =~= bytes.subrange(from, bytes.len() as int));
    if to < bytes.len() {
        assert(suffix[to - from] == bytes[to]);
        is_char_boundary_iff_not_is_continuation_byte(bytes, to);
        is_char_boundary_iff_not_is_continuation_byte(suffix, to - from);
    } else {
        is_char_boundary_start_end_of_seq(suffix);
    }
}

impl<F: Scalar> ShapedLine<F> {
    /// The length of the line in utf-8 bytes.
    pub fn len(&self) -> (result: usize)
        ensures
            result == self@.layout.len,
    {
        self.layout.len
    }

    /// The width of the shaped line in pixels.
    ///
    /// This is the glyph advance width computed by the text shaping system and is useful for
    /// incrementally advancing a "pen" when painting multiple fragments on the same row.
    pub fn width(&self) -> (result: F)
        ensures
            result == self@.layout.width,
    {
        self.layout.width
    }

    /// Override the len, useful if you're rendering text a
    /// as text b (e.g. rendering invisibles).
    pub fn with_len(self, len: usize) -> (result: Self)
        ensures
            result@ == (ShapedLineModel {
                layout: LineLayoutModel { len, ..self@.layout },
                ..self@
            }),
    {
        let layout = Arc::new(self.layout.with_len(len));
        ShapedLine { layout, text: self.text, decoration_runs: self.decoration_runs }
    }

    /// A line that holds the same.
    pub fn duplicate(&self) -> (result: Self)
        ensures
            result@ == self@,
    {
        let mut decoration_runs: Vec<DecorationRun<F>> = Vec::with_capacity(
            self.decoration_runs.len(),
        );
        let mut i: usize = 0;
        while i < self.decoration_runs.len()
            invariant
                i <= self.decoration_runs@.len(),
                decoration_runs@ == self.decoration_runs@.take(i as int),
            decreases self.decoration_runs@.len() - i,
        {
            decoration_runs.push(self.decoration_runs[i]);
            i = i + 1;
            proof {
                assert(decoration_runs@ =~= self.decoration_runs@.take(i as int));
            }
        }
        proof {
            assert(decoration_runs@ =~= self.decoration_runs@);
        }
        ShapedLine { layout: share(&self.layout), text: self.text.clone(), decoration_runs }
    }

    /// Split this shaped line at a byte index, returning `(prefix, suffix)`.
    ///
    /// - `prefix` contains glyphs for bytes `[0, byte_index)` with original positions.
    ///   Its width equals the x-advance up to the split point.
    /// - `suffix` contains glyphs for bytes `[byte_index, len)` with positions
    ///   shifted left so the first glyph starts at x=0, and byte indices rebased to 0.
    /// - Decoration runs are partitioned at the boundary; a run that straddles it is
    ///   split into two with adjusted lengths.
    /// - `font_size`, `ascent`, and `descent` are copied to both halves.
    pub fn split_at(&self, byte_index: usize) -> (result: (ShapedLine<F>, ShapedLine<F>))
        requires
            byte_index <= self@.layout.len,
            is_char_boundary(self@.text, byte_index as int),
            self@.decorations_fit(),
        ensures
            result.0@ == self@.spec_before(byte_index),
            result.1@ == self@.spec_after(byte_index),
    {
        let (left_layout, right_layout) = self.layout.split_at(byte_index);
        let mut left_decorations: Vec<DecorationRun<F>> = Vec::new();
        let mut right_decorations: Vec<DecorationRun<F>> = Vec::new();
        let mut decoration_offset: u32 = 0;
        let split_point: u32 = byte_index as u32;
        let mut i: usize = 0;
        while i < self.decoration_runs.len()
            invariant
                i <= self.decoration_runs@.len(),
                self@.decorations_fit(),
                decoration_offset == offset_of(self.decoration_runs@, i as int),
                left_decorations@ == decorations_before(
                    self.decoration_runs@,
                    split_point as int,
                    i as nat,
                ),
                right_decorations@ == decorations_after(
                    self.decoration_runs@,
                    split_point as int,
                    i as nat,
                ),
            decreases self.decoration_runs@.len() - i,
        {
            let decoration = self.decoration_runs[i];
            proof {
                lemma_offset_monotone(
                    self.decoration_runs@,
                    i + 1,
                    self.decoration_runs@.len() as int,
                );
            }
            let run_end: u32 = decoration_offset + decoration.len;
            if run_end <= split_point {
                left_decorations.push(decoration);
            } else if decoration_offset >= split_point {
                right_decorations.push(decoration);
            } else {
                let mut left_part = decoration;
                left_part.len = split_point - decoration_offset;
                left_decorations.push(left_part);
                let mut right_part = decoration;
                right_part.len = run_end - split_point;
                right_decorations.push(right_part);
            }
            decoration_offset = run_end;
            i = i + 1;
        }
        proof {
            encode_utf8_valid_utf8(self.text@);
        }
        let (left_text, right_text) = self.text.as_str().split_at(byte_index);
        proof {
            assert(self@.text.take(byte_index as int) =~= self@.text.subrange(
                0,
                byte_index as int,
            ));
            assert(self@.text.skip(byte_index as int) =~= self@.text.subrange(
                byte_index as int,
                self@.text.len() as int,
            ));
        }
        let left = ShapedLine {
            layout: Arc::new(left_layout),
            text: left_text.to_owned(),
            decoration_runs: left_decorations,
        };
        let right = ShapedLine {
            layout: Arc::new(right_layout),
            text: right_text.to_owned(),
            decoration_runs: right_decorations,
        };
        (left, right)
    }
}

} // verus!
