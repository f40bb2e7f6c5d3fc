use std::sync::atomic::{AtomicUsize, Ordering};
use std::sync::Arc;

use gpui::atlas_tile::{AtlasTextureId, AtlasTextureKind, AtlasTile, TileId};
use gpui::color::Hsla;
use gpui::geometry::{point, size, Bounds, ContentMask, DevicePixels, Point};
use gpui::line::{DecorationRun, ShapedLine, StrikethroughStyle, UnderlineStyle};
use gpui::line_layout::{FontId, GlyphId, LineLayout, ShapedGlyph, ShapedRun};
use gpui::line_paint::{
    aligned_origin_x, paint_line, PaintCommand, TextAlign, TextLine, WrapBoundary,
};
use gpui::primitives::{MonochromeSprite, SpriteEffect};
use gpui::scalar::Scalar;
use gpui::scene::{QuadPartitioning, Scene};
use gpui::text_allocation::{
    admitted_line_origin, growth, layout_bytes, AdmittedLineLayout, AdmittedStyledText,
    AdmittedTextLayout, AdmittedTextSource, AdmittedTextStyle, Growth, TextAllocationAdmission,
    TextAllocationClass, TextAllocationError, TextAllocationReservation, TextAllocationToken,
    TextConstructionEvent, TextPlatformCoverage, TextShapingInput,
};
use gpui::text_paint::{TextSurroundings, WrappedLine, WrappedLineLayout};
use gpui::transform::TransformationMatrix;

/// Single-precision lengths.
#[derive(Clone, Copy, Debug, PartialEq, PartialOrd)]
struct Px(f32);

impl Scalar for Px {
    type Easing = fn(f32) -> f32;

    fn ratio(numerator: u32, denominator: u32) -> Self {
        Px(numerator as f32 / denominator as f32)
    }

    fn plus(self, other: Self) -> Self {
        Px(self.0 + other.0)
    }

    fn minus(self, other: Self) -> Self {
        Px(self.0 - other.0)
    }

    fn times(self, other: Self) -> Self {
        Px(self.0 * other.0)
    }

    fn over(self, other: Self) -> Self {
        Px(self.0 / other.0)
    }

    fn negated(self) -> Self {
        Px(-self.0)
    }

    fn abs(self) -> Self {
        Px(self.0.abs())
    }

    fn ceil(self) -> Self {
        Px(self.0.ceil())
    }

    fn floor(self) -> Self {
        Px(self.0.floor())
    }

    fn copysign(self, sign: Self) -> Self {
        Px(self.0.copysign(sign.0))
    }

    fn wrap_unit(self) -> Self {
        Px(self.0.rem_euclid(1.0))
    }

    fn least(self, other: Self) -> Self {
        Px(self.0.min(other.0))
    }

    fn greatest(self, other: Self) -> Self {
        Px(self.0.max(other.0))
    }

    fn lt(self, other: Self) -> bool {
        self.0 < other.0
    }

    fn le(self, other: Self) -> bool {
        self.0 <= other.0
    }

    fn same(self, other: Self) -> bool {
        self.0 == other.0
    }

    fn seconds(nanos: u64) -> Self {
        Px(std::time::Duration::from_nanos(nanos).as_secs_f32())
    }

    fn cycle_fraction(elapsed: u64, period: u64) -> Self {
        let elapsed = std::time::Duration::from_nanos(elapsed).as_secs_f64();
        let period = std::time::Duration::from_nanos(period).as_secs_f64();
        Px((elapsed / period).rem_euclid(1.0) as f32)
    }

    fn linear() -> Self::Easing {
        |progress| progress
    }

    fn ease(easing: Self::Easing, progress: Self) -> Self {
        Px(easing(progress.0))
    }

    fn spec_ratio(numerator: u32, denominator: u32) -> Self {
        Self::ratio(numerator, denominator)
    }

    fn spec_plus(self, other: Self) -> Self {
        self.plus(other)
    }

    fn spec_minus(self, other: Self) -> Self {
        self.minus(other)
    }

    fn spec_times(self, other: Self) -> Self {
        self.times(other)
    }

    fn spec_over(self, other: Self) -> Self {
        self.over(other)
    }

    fn spec_negated(self) -> Self {
        self.negated()
    }

    fn spec_abs(self) -> Self {
        Scalar::abs(self)
    }

    fn spec_ceil(self) -> Self {
        Scalar::ceil(self)
    }

    fn spec_floor(self) -> Self {
        Scalar::floor(self)
    }

    fn spec_copysign(self, sign: Self) -> Self {
        Scalar::copysign(self, sign)
    }

    fn spec_wrap_unit(self) -> Self {
        self.wrap_unit()
    }

    fn spec_least(self, other: Self) -> Self {
        self.least(other)
    }

    fn spec_greatest(self, other: Self) -> Self {
        self.greatest(other)
    }

    fn spec_lt(self, other: Self) -> bool {
        Scalar::lt(self, other)
    }

    fn spec_le(self, other: Self) -> bool {
        Scalar::le(self, other)
    }

    fn spec_same(self, other: Self) -> bool {
        self.same(other)
    }

    fn spec_seconds(nanos: u64) -> Self {
        Self::seconds(nanos)
    }

    fn spec_cycle_fraction(elapsed: u64, period: u64) -> Self {
        Self::cycle_fraction(elapsed, period)
    }

    fn spec_linear() -> Self::Easing {
        Self::linear()
    }

    fn spec_ease(easing: Self::Easing, progress: Self) -> Self {
        Self::ease(easing, progress)
    }
}

fn glyph(id: u32, x: f32, y: f32, index: usize, is_emoji: bool) -> ShapedGlyph<Px> {
    ShapedGlyph {
        id: GlyphId(id),
        position: point(Px(x), Px(y)),
        index,
        is_emoji,
    }
}

fn layout(width: f32, runs: Vec<ShapedRun<Px>>, len: usize) -> LineLayout<Px> {
    LineLayout {
        font_size: Px(16.0),
        width: Px(width),
        ascent: Px(12.0),
        descent: Px(4.0),
        runs,
        len,
    }
}

/// Helper: build a ShapedLine from glyph descriptors without the platform text system.
/// Each glyph is described as (byte_index, x_position).
fn make_shaped_line(
    text: &str,
    glyphs: &[(usize, f32)],
    width: f32,
    decorations: &[DecorationRun<Px>],
) -> ShapedLine<Px> {
    let shaped_glyphs: Vec<ShapedGlyph<Px>> = glyphs
        .iter()
        .map(|&(index, x)| glyph(0, x, 0.0, index, false))
        .collect();
    ShapedLine {
        layout: Arc::new(layout(
            width,
            vec![ShapedRun {
                font_id: FontId(0),
                glyphs: shaped_glyphs,
            }],
            text.len(),
        )),
        text: text.to_string(),
        decoration_runs: decorations.to_vec(),
    }
}

fn hsla(h: f32, s: f32, l: f32, a: f32) -> Hsla<Px> {
    Hsla {
        h: Px(h),
        s: Px(s),
        l: Px(l),
        a: Px(a),
    }
}

fn black() -> Hsla<Px> {
    Hsla::black()
}

fn decoration(len: u32, color: Hsla<Px>) -> DecorationRun<Px> {
    DecorationRun {
        len,
        color,
        background_color: None,
        underline: None,
        strikethrough: None,
    }
}

fn six_glyphs(decorations: &[DecorationRun<Px>]) -> ShapedLine<Px> {
    make_shaped_line(
        "abcdef",
        &[
            (0, 0.0),
            (1, 10.0),
            (2, 20.0),
            (3, 30.0),
            (4, 40.0),
            (5, 50.0),
        ],
        60.0,
        decorations,
    )
}

#[test]
fn test_split_at_invariants() {
    // Split "abcdef" at every possible byte index and verify structural invariants.
    let line = six_glyphs(&[]);

    for i in 0..=6 {
        let (left, right) = line.split_at(i);

        assert_eq!(
            left.width().plus(right.width()),
            line.width(),
            "widths must sum at split={i}"
        );
        assert_eq!(
            left.len() + right.len(),
            line.len(),
            "lengths must sum at split={i}"
        );
        assert_eq!(
            format!("{}{}", left.text, right.text),
            "abcdef",
            "text must concatenate at split={i}"
        );
        assert_eq!(
            left.layout.font_size, line.layout.font_size,
            "font_size at split={i}"
        );
        assert_eq!(
            right.layout.ascent, line.layout.ascent,
            "ascent at split={i}"
        );
        assert_eq!(
            right.layout.descent, line.layout.descent,
            "descent at split={i}"
        );
    }

    // Edge: split at 0 produces no left runs, full content on right
    let (left, right) = line.split_at(0);
    assert_eq!(left.layout.runs.len(), 0);
    assert_eq!(right.layout.runs[0].glyphs.len(), 6);

    // Edge: split at end produces full content on left, no right runs
    let (left, right) = line.split_at(6);
    assert_eq!(left.layout.runs[0].glyphs.len(), 6);
    assert_eq!(right.layout.runs.len(), 0);
}

#[test]
fn test_split_at_glyph_rebasing() {
    // Two font runs (simulating a font fallback boundary at byte 3):
    //   run A (FontId 0): glyphs at bytes 0,1,2  positions 0,10,20
    //   run B (FontId 1): glyphs at bytes 3,4,5  positions 30,40,50
    // Successive splits simulate the incremental splitting done during wrap.
    let line = ShapedLine {
        layout: Arc::new(layout(
            60.0,
            vec![
                ShapedRun {
                    font_id: FontId(0),
                    glyphs: vec![
                        glyph(0, 0.0, 0.0, 0, false),
                        glyph(0, 10.0, 0.0, 1, false),
                        glyph(0, 20.0, 0.0, 2, false),
                    ],
                },
                ShapedRun {
                    font_id: FontId(1),
                    glyphs: vec![
                        glyph(0, 30.0, 0.0, 3, false),
                        glyph(0, 40.0, 0.0, 4, false),
                        glyph(0, 50.0, 0.0, 5, false),
                    ],
                },
            ],
            6,
        )),
        text: "abcdef".to_string(),
        decoration_runs: Vec::new(),
    };

    // First split at byte 2, mid-run in run A
    let (first, remainder) = line.split_at(2);
    assert_eq!(first.text, "ab");
    assert_eq!(first.layout.runs.len(), 1);
    assert_eq!(first.layout.runs[0].font_id, FontId(0));

    // Remainder "cdef" should have two runs: tail of A (1 glyph) + all of B (3 glyphs)
    assert_eq!(remainder.text, "cdef");
    assert_eq!(remainder.layout.runs.len(), 2);
    assert_eq!(remainder.layout.runs[0].font_id, FontId(0));
    assert_eq!(remainder.layout.runs[0].glyphs.len(), 1);
    assert_eq!(remainder.layout.runs[0].glyphs[0].index, 0);
    assert_eq!(remainder.layout.runs[0].glyphs[0].position.x, Px(0.0));
    assert_eq!(remainder.layout.runs[1].font_id, FontId(1));
    assert_eq!(remainder.layout.runs[1].glyphs[0].index, 1);
    assert_eq!(remainder.layout.runs[1].glyphs[0].position.x, Px(10.0));

    // Second split at byte 2 within remainder, crosses the run boundary
    let (second, final_part) = remainder.split_at(2);
    assert_eq!(second.text, "cd");
    assert_eq!(final_part.text, "ef");
    assert_eq!(final_part.layout.runs[0].glyphs[0].index, 0);
    assert_eq!(final_part.layout.runs[0].glyphs[0].position.x, Px(0.0));

    // Widths must sum across all three pieces
    assert_eq!(
        first.width().plus(second.width()).plus(final_part.width()),
        line.width()
    );
}

#[test]
fn test_split_at_decorations() {
    // Three decoration runs: red [0..2), green [2..5), blue [5..6).
    // Split at byte 3: red goes entirely left, green straddles, blue goes entirely right.
    let red = hsla(0.0, 1.0, 0.5, 1.0);
    let green = hsla(0.3, 1.0, 0.5, 1.0);
    let blue = hsla(0.6, 1.0, 0.5, 1.0);

    let line = six_glyphs(&[
        decoration(2, red),
        decoration(3, green),
        decoration(1, blue),
    ]);

    let (left, right) = line.split_at(3);

    // Left: red(2) + green(1): green straddled, left portion has len 1
    assert_eq!(left.decoration_runs.len(), 2);
    assert_eq!(left.decoration_runs[0].len, 2);
    assert_eq!(left.decoration_runs[0].color, red);
    assert_eq!(left.decoration_runs[1].len, 1);
    assert_eq!(left.decoration_runs[1].color, green);

    // Right: green(2) + blue(1): green straddled, right portion has len 2
    assert_eq!(right.decoration_runs.len(), 2);
    assert_eq!(right.decoration_runs[0].len, 2);
    assert_eq!(right.decoration_runs[0].color, green);
    assert_eq!(right.decoration_runs[1].len, 1);
    assert_eq!(right.decoration_runs[1].color, blue);
}

#[test]
fn test_cursor_preserves_shaping_metadata_across_runs() {
    let line = ShapedLine {
        layout: Arc::new(layout(
            50.0,
            vec![
                ShapedRun {
                    font_id: FontId(3),
                    glyphs: vec![
                        glyph(11, 0.0, 1.0, 0, true),
                        glyph(12, 17.0, 1.0, 1, false),
                        glyph(13, 19.0, -1.0, 1, false),
                    ],
                },
                ShapedRun {
                    font_id: FontId(8),
                    glyphs: vec![
                        glyph(21, 25.0, 1.0, 5, true),
                        glyph(22, 41.0, 1.0, 7, false),
                    ],
                },
            ],
            10,
        )),
        text: "a😀bcdef".to_string(),
        decoration_runs: Vec::new(),
    };
    let mut cursor = line.cursor();
    let first = cursor.take_until(5);
    assert_eq!(first.text, "a😀");
    assert_eq!(first.layout.runs[0].font_id, FontId(3));
    assert_eq!(first.layout.runs[0].glyphs[0].id, GlyphId(11));
    assert!(first.layout.runs[0].glyphs[0].is_emoji);
    assert_eq!(first.layout.runs[0].glyphs[1].index, 1);
    assert_eq!(
        first.layout.runs[0].glyphs[1].position,
        point(Px(17.0), Px(1.0))
    );
    assert_eq!(first.layout.runs[0].glyphs.len(), 3);
    assert_eq!(first.layout.runs[0].glyphs[2].index, 1);
    assert_eq!(
        first.layout.runs[0].glyphs[2].position,
        point(Px(19.0), Px(-1.0))
    );
    assert_eq!(cursor.x_offset(), Px(25.0));

    let second = cursor.take_until(7);
    assert_eq!(second.text, "bc");
    assert_eq!(second.layout.runs[0].font_id, FontId(8));
    assert_eq!(second.layout.runs[0].glyphs[0].id, GlyphId(21));
    assert_eq!(second.layout.runs[0].glyphs[0].index, 0);
    assert_eq!(
        second.layout.runs[0].glyphs[0].position,
        point(Px(0.0), Px(1.0))
    );
    assert_eq!(cursor.x_offset(), Px(41.0));

    let final_part = cursor.take_until(10);
    assert_eq!(final_part.text, "def");
    assert_eq!(final_part.layout.runs[0].font_id, FontId(8));
    assert_eq!(final_part.layout.runs[0].glyphs[0].id, GlyphId(22));
    assert_eq!(final_part.layout.runs[0].glyphs[0].index, 0);
    assert_eq!(
        final_part.layout.runs[0].glyphs[0].position,
        point(Px(0.0), Px(1.0))
    );
}

fn assert_same_glyphs(actual: &ShapedLine<Px>, expected: &ShapedLine<Px>) {
    assert_eq!(actual.layout.runs.len(), expected.layout.runs.len());
    for (actual, expected) in actual.layout.runs.iter().zip(&expected.layout.runs) {
        assert_eq!(actual.font_id, expected.font_id);
        assert_eq!(actual.glyphs.len(), expected.glyphs.len());
        for (actual, expected) in actual.glyphs.iter().zip(&expected.glyphs) {
            assert_eq!(actual.id, expected.id);
            assert_eq!(actual.index, expected.index);
            assert_eq!(actual.position, expected.position);
        }
    }
}

#[test]
fn test_cursor_preserves_existing_visual_order_splitting() {
    let line = make_shaped_line("abc", &[(0, 0.0), (2, 10.0), (1, 20.0)], 30.0, &[]);
    let mut cursor = line.cursor();
    let mut remainder = line.duplicate();
    let mut previous_boundary = 0;
    for boundary in [0, 1, 2, 3] {
        let (expected, rest) = remainder.split_at(boundary - previous_boundary);
        let actual = cursor.take_until(boundary);
        assert_eq!(actual.text, expected.text);
        assert_eq!(actual.width(), expected.width());
        assert_same_glyphs(&actual, &expected);
        assert_eq!(cursor.x_offset(), line.layout.x_for_index(boundary));
        remainder = rest;
        previous_boundary = boundary;
    }
}

#[test]
fn test_cursor_partitions_one_decoration_across_three_chunks() {
    let line = six_glyphs(&[decoration(6, hsla(0.2, 0.4, 0.6, 1.0))]);
    let mut cursor = line.cursor();
    assert_eq!(cursor.take_until(2).decoration_runs[0].len, 2);
    assert_eq!(cursor.take_until(4).decoration_runs[0].len, 2);
    assert_eq!(cursor.take_until(6).decoration_runs[0].len, 2);
}

#[test]
fn test_cursor_matches_successive_splits_at_ordered_boundaries() {
    let decorations: Vec<_> = [2, 0, 3, 1]
        .into_iter()
        .map(|len| DecorationRun {
            background_color: Some(black()),
            ..decoration(len, hsla(len as f32 / 10.0, 0.5, 0.5, 1.0))
        })
        .collect();
    let line = make_shaped_line(
        "abcdef",
        &[(0, 5.0), (0, 5.0), (2, 15.0), (4, 25.0), (5, 35.0)],
        45.0,
        &decorations,
    );
    for first in 0..=line.len() {
        for second in first..=line.len() {
            let mut cursor = line.cursor();
            let mut remainder = line.duplicate();
            let mut previous_boundary = 0;
            let mut total_width = Px(0.0);
            let mut text = String::new();
            for boundary in [first, second, line.len(), line.len()] {
                let (expected, rest) = remainder.split_at(boundary - previous_boundary);
                let actual = cursor.take_until(boundary);
                assert_eq!(actual.text, expected.text);
                assert_eq!(actual.len(), expected.len());
                assert_eq!(actual.width(), expected.width());
                assert_same_glyphs(&actual, &expected);
                assert_eq!(
                    actual.decoration_runs.len(),
                    expected.decoration_runs.len()
                );
                for (actual, expected) in
                    actual.decoration_runs.iter().zip(&expected.decoration_runs)
                {
                    assert_eq!(actual.len, expected.len);
                    assert_eq!(actual.color, expected.color);
                    assert_eq!(actual.background_color, expected.background_color);
                }
                total_width = total_width.plus(actual.width());
                text.push_str(&actual.text);
                remainder = rest;
                previous_boundary = boundary;
            }
            assert_eq!(total_width, line.width());
            assert_eq!(text, line.text);
        }
    }
}

#[test]
fn test_cursor_empty_chunks_and_repeated_boundaries() {
    let line = make_shaped_line("ab", &[(0, 5.0), (1, 15.0)], 20.0, &[]);
    let mut cursor = line.cursor();
    assert_eq!(cursor.take_until(0).text, "");
    assert_eq!(cursor.take_until(0).text, "");
    assert_eq!(cursor.take_until(1).text, "a");
    assert_eq!(cursor.take_until(2).text, "b");
    assert_eq!(cursor.take_until(2).text, "");
    let empty = make_shaped_line("", &[], 0.0, &[]);
    let piece = empty.cursor().take_until(0);
    assert!(piece.text.is_empty());
    assert!(piece.layout.runs.is_empty());
    assert_eq!(piece.width(), Px(0.0));
}

#[test]
fn lengths_can_be_overridden() {
    let line = six_glyphs(&[]).with_len(9);
    assert_eq!(line.len(), 9);
    assert_eq!(line.text, "abcdef");
    assert_eq!(line.layout.runs[0].glyphs.len(), 6);
}

#[test]
fn positions_and_bytes_correspond() {
    let line = six_glyphs(&[]);
    assert_eq!(line.layout.x_for_index(3), Px(30.0));
    assert_eq!(line.layout.x_for_index(6), Px(60.0));
    assert_eq!(line.layout.closest_index_for_x(Px(34.0)), 3);
    assert_eq!(line.layout.closest_index_for_x(Px(36.0)), 4);
    assert_eq!(line.layout.closest_index_for_x(Px(51.0)), 6);
    let one = make_shaped_line("a", &[(0, 0.0)], 10.0, &[]);
    assert_eq!(one.layout.closest_index_for_x(Px(4.0)), 0);
    assert_eq!(one.layout.closest_index_for_x(Px(6.0)), 1);
}

const LINE_HEIGHT: f32 = 20.;
const UNDERLINE_OFFSET: f32 = 16.5;

type Stroke = (std::ops::Range<usize>, Point<Px>, Px, Px, Option<Hsla<Px>>, bool);

fn stroke(
    range: std::ops::Range<usize>,
    x: f32,
    y: f32,
    width: f32,
    style: UnderlineStyle<Px>,
) -> Stroke {
    (
        range,
        point(Px(x), Px(y)),
        Px(width),
        style.thickness,
        style.color,
        style.wavy,
    )
}

fn strokes(commands: &[PaintCommand<Px>]) -> Vec<Stroke> {
    commands
        .iter()
        .filter_map(|command| match command {
            PaintCommand::Underline {
                range,
                origin,
                width,
                style,
            } => Some((
                range.clone(),
                *origin,
                *width,
                style.thickness,
                style.color,
                style.wavy,
            )),
            _ => None,
        })
        .collect()
}

fn everywhere() -> Bounds<Px> {
    Bounds {
        origin: point(Px(-10_000.), Px(-10_000.)),
        size: size(Px(20_000.), Px(20_000.)),
    }
}

fn font_box() -> Bounds<Px> {
    Bounds {
        origin: point(Px(-4.), Px(-4.)),
        size: size(Px(24.), Px(22.)),
    }
}

/// A line with one glyph per character, each advancing by `advance`.
fn underline_test_line(
    text: &str,
    decorations: &[DecorationRun<Px>],
    zero_advance: bool,
) -> ShapedLine<Px> {
    let advance = if zero_advance { 0. } else { 8. };
    let glyphs: Vec<(usize, f32)> = text
        .char_indices()
        .enumerate()
        .map(|(position, (index, _))| (index, position as f32 * advance))
        .collect();
    let width = glyphs.len() as f32 * advance;
    make_shaped_line(text, &glyphs, width, decorations)
}

#[test]
fn test_underline_handler_matches_default_paint() {
    let first_style = UnderlineStyle {
        thickness: Px(1.),
        color: Some(hsla(0., 1., 0.5, 1.)),
        wavy: true,
    };
    let last_style = UnderlineStyle {
        color: Some(hsla(0.5, 1., 0.5, 1.)),
        wavy: false,
        ..first_style
    };
    let fallback_style = UnderlineStyle {
        color: Some(black()),
        ..first_style
    };
    let underlined = DecorationRun {
        underline: Some(first_style),
        ..decoration(1, black())
    };
    let line = underline_test_line(
        "aébcde",
        &[
            underlined,
            DecorationRun {
                len: 2,
                ..underlined
            },
            DecorationRun {
                underline: None,
                ..underlined
            },
            DecorationRun {
                underline: Some(UnderlineStyle {
                    color: None,
                    ..first_style
                }),
                ..underlined
            },
            DecorationRun {
                underline: Some(last_style),
                ..underlined
            },
            DecorationRun {
                underline: Some(last_style),
                ..underlined
            },
        ],
        false,
    );
    assert_eq!(line.width(), Px(48.));
    let boxes = vec![font_box()];
    let surroundings = TextSurroundings {
        glyph_boxes: &boxes,
        underline_y_offset: Px(UNDERLINE_OFFSET),
        content_mask: everywhere(),
    };
    for origin_x in [-3.25, 0., 4.25] {
        for (align, align_width, offset) in [
            (TextAlign::Left, None, 0.),
            (TextAlign::Center, None, 0.),
            (TextAlign::Right, None, 0.),
            (TextAlign::Left, Some(Px(96.)), 0.),
            (TextAlign::Center, Some(Px(96.)), 24.),
            (TextAlign::Right, Some(Px(96.)), 48.),
        ] {
            let origin = point(Px(origin_x), Px(12.25));
            let plan = line.paint(origin, Px(LINE_HEIGHT), align, align_width, &surroundings);
            let start = origin_x + offset;
            let y = 12.25 + UNDERLINE_OFFSET;
            assert_eq!(
                strokes(&plan.commands),
                [
                    stroke(0..3, start, y, 16., first_style),
                    stroke(4..5, start + 24., y, 8., fallback_style),
                    stroke(5..7, start + 32., y, 16., last_style),
                ]
            );
            assert_eq!(plan.layer.origin, origin);
            assert_eq!(plan.layer.size, size(Px(48.), Px(20.)));
            let bare = line.layout.paint(
                origin,
                Px(LINE_HEIGHT),
                align,
                align_width,
                &line.decoration_runs,
                &surroundings,
            );
            assert_eq!(strokes(&bare.commands), strokes(&plan.commands));
        }
    }
    for text in ["", "abc"] {
        let line = underline_test_line(text, &[], false);
        let plan = line.paint(
            point(Px(4.), Px(10.)),
            Px(20.),
            TextAlign::Left,
            None,
            &surroundings,
        );
        assert_eq!(strokes(&plan.commands).len(), 0);
        assert_eq!(plan.commands.len(), text.len());
    }
}

#[test]
fn test_underline_handler_reports_zero_advance_geometry() {
    let first_style = UnderlineStyle {
        thickness: Px(1.),
        color: Some(black()),
        wavy: true,
    };
    let last_style = UnderlineStyle {
        wavy: false,
        ..first_style
    };
    let underlined = DecorationRun {
        underline: Some(first_style),
        ..decoration(1, black())
    };
    let line = underline_test_line(
        "ab",
        &[
            underlined,
            DecorationRun {
                underline: Some(last_style),
                ..underlined
            },
        ],
        true,
    );
    let boxes = vec![font_box()];
    let surroundings = TextSurroundings {
        glyph_boxes: &boxes,
        underline_y_offset: Px(UNDERLINE_OFFSET),
        content_mask: everywhere(),
    };
    let half_width = 12.;
    let y = 10.25 + UNDERLINE_OFFSET;
    for (align, offset) in [
        (TextAlign::Left, 0.),
        (TextAlign::Center, 16.),
        (TextAlign::Right, 32.),
    ] {
        let plan = line.paint(
            point(Px(40.25), Px(10.25)),
            Px(20.),
            align,
            Some(Px(32.)),
            &surroundings,
        );
        let end = 40.25 + offset;
        let start = end - half_width;
        assert_eq!(
            strokes(&plan.commands),
            [
                stroke(0..1, start, y, end - start, first_style),
                stroke(1..2, start, y, end - start, last_style),
            ]
        );
    }
}

#[test]
fn test_underline_handler_matches_wrapped_paint() {
    let style = UnderlineStyle {
        thickness: Px(1.),
        color: Some(black()),
        wavy: true,
    };
    for zero_advance in [false, true] {
        let line = underline_test_line(
            "abcd",
            &[DecorationRun {
                underline: Some(style),
                ..decoration(4, black())
            }],
            zero_advance,
        );
        let boxes = vec![font_box()];
        let surroundings = TextSurroundings {
            glyph_boxes: &boxes,
            underline_y_offset: Px(UNDERLINE_OFFSET),
            content_mask: everywhere(),
        };
        let half_width = 12.;
        let origin = point(Px(40.25), Px(10.25));
        let y = 10.25 + UNDERLINE_OFFSET;
        let wrapped = WrappedLine {
            layout: Arc::new(WrappedLineLayout {
                unwrapped_layout: line.layout,
                wrap_boundaries: vec![WrapBoundary {
                    run_ix: 0,
                    glyph_ix: 2,
                }],
                wrap_width: Some(Px(16.)),
            }),
            text: line.text,
            decoration_runs: line.decoration_runs,
        };
        assert_eq!(wrapped.len(), 4);
        let plan = wrapped.paint(origin, Px(20.), TextAlign::Left, None, &surroundings);
        let (start, width) = if zero_advance {
            let start = 40.25 - half_width;
            (start, 40.25 - start)
        } else {
            (40.25, 16.)
        };
        let expected = [
            stroke(0..4, start, y, width, style),
            stroke(0..4, start, y + 20., width, style),
        ];
        assert_eq!(strokes(&plan.commands), expected);
        assert_eq!(plan.layer.size.height, Px(40.));
        let direct = paint_line(&TextLine {
            origin,
            layout: &wrapped.layout.unwrapped_layout,
            line_height: Px(20.),
            align: TextAlign::Left,
            align_width: Some(Px(16.)),
            decoration_runs: &wrapped.decoration_runs,
            wrap_boundaries: &wrapped.layout.wrap_boundaries,
            glyph_boxes: &boxes,
            underline_y_offset: Px(UNDERLINE_OFFSET),
            content_mask: everywhere(),
        });
        assert_eq!(strokes(&direct.commands), expected);
    }
}

#[test]
fn strikethroughs_and_backgrounds_follow_their_decorations() {
    let red = hsla(0., 1., 0.5, 1.);
    let struck = StrikethroughStyle {
        thickness: Px(2.),
        color: None,
    };
    let line = underline_test_line(
        "abcd",
        &[
            DecorationRun {
                strikethrough: Some(struck),
                background_color: Some(red),
                ..decoration(2, black())
            },
            decoration(1, red),
        ],
        false,
    );
    let boxes = vec![font_box()];
    let surroundings = TextSurroundings {
        glyph_boxes: &boxes,
        underline_y_offset: Px(UNDERLINE_OFFSET),
        content_mask: everywhere(),
    };
    let origin = point(Px(0.), Px(0.));
    let plan = line.paint(origin, Px(20.), TextAlign::Left, None, &surroundings);
    let struck_through: Vec<_> = plan
        .commands
        .iter()
        .filter_map(|command| match command {
            PaintCommand::Strikethrough {
                origin,
                width,
                style,
            } => Some((*origin, *width, style.color)),
            _ => None,
        })
        .collect();
    // The baseline is at (20 - 12 - 4) / 2 + 12 = 14.
    assert_eq!(
        struck_through,
        [(point(Px(0.), Px(10.)), Px(16.), Some(black()))]
    );
    let glyphs: Vec<_> = plan
        .commands
        .iter()
        .filter_map(|command| match command {
            PaintCommand::Glyph { origin, color, .. } => Some((*origin, *color)),
            _ => None,
        })
        .collect();
    assert_eq!(
        glyphs,
        [
            (point(Px(0.), Px(14.)), black()),
            (point(Px(8.), Px(14.)), black()),
            (point(Px(16.), Px(14.)), red),
            (point(Px(24.), Px(14.)), red),
        ]
    );
    let background = line.paint_background(origin, Px(20.), TextAlign::Left, None, &surroundings);
    let quads: Vec<_> = background
        .commands
        .iter()
        .map(|command| match command {
            PaintCommand::Quad { bounds, color } => (*bounds, *color),
            _ => panic!("a background is made of quads"),
        })
        .collect();
    assert_eq!(
        quads,
        [(
            Bounds {
                origin,
                size: size(Px(16.), Px(20.))
            },
            red
        )]
    );
}

#[test]
fn backgrounds_wrap_with_their_rows() {
    let red = hsla(0., 1., 0.5, 1.);
    let line = underline_test_line(
        "abcd",
        &[DecorationRun {
            background_color: Some(red),
            ..decoration(4, black())
        }],
        false,
    );
    let boxes = vec![font_box()];
    let surroundings = TextSurroundings {
        glyph_boxes: &boxes,
        underline_y_offset: Px(UNDERLINE_OFFSET),
        content_mask: everywhere(),
    };
    let wrapped = WrappedLine {
        layout: Arc::new(WrappedLineLayout {
            unwrapped_layout: line.layout,
            wrap_boundaries: vec![WrapBoundary {
                run_ix: 0,
                glyph_ix: 3,
            }],
            wrap_width: None,
        }),
        text: line.text,
        decoration_runs: line.decoration_runs,
    };
    let bounds = Bounds {
        origin: point(Px(0.), Px(0.)),
        size: size(Px(24.), Px(40.)),
    };
    let plan = wrapped.paint_background(
        bounds.origin,
        Px(20.),
        TextAlign::Left,
        Some(bounds),
        &surroundings,
    );
    let rows: Vec<_> = plan
        .commands
        .iter()
        .map(|command| match command {
            PaintCommand::Quad { bounds, .. } => (
                bounds.origin.x.0,
                bounds.origin.y.0,
                bounds.size.width.0,
            ),
            _ => panic!("a background is made of quads"),
        })
        .collect();
    assert_eq!(rows, [(0., 0., 24.), (0., 20., 8.)]);
}

#[test]
fn rows_are_aligned() {
    let origin = point(Px(10.), Px(0.));
    assert_eq!(
        aligned_origin_x(origin, Px(100.), TextAlign::Left, Px(40.)),
        Px(10.)
    );
    assert_eq!(
        aligned_origin_x(origin, Px(100.), TextAlign::Center, Px(40.)),
        Px(40.)
    );
    assert_eq!(
        aligned_origin_x(origin, Px(100.), TextAlign::Right, Px(40.)),
        Px(70.)
    );
}

const TEXT: &str = "Changes in this project";
const FONT_SIZE: f32 = 16.;
/// Roomy leading. This is what pushes the baseline far below the pen position and
/// separates the ink from a box around the top of the line.
const ROOMY_LINE_HEIGHT: f32 = 64.;
const ASCENT: f32 = FONT_SIZE * 1.025;
const DESCENT: f32 = FONT_SIZE * -0.275;

/// Ink height in device pixels, varied per glyph so the line is not one uniform box.
fn ink_height(glyph_id: GlyphId) -> i32 {
    (FONT_SIZE * 0.62).round() as i32 + (glyph_id.0 % 3) as i32
}

fn ink_width() -> f32 {
    (FONT_SIZE * 0.5).round()
}

/// The font's box, from the baseline up.
fn metrics_box() -> Bounds<Px> {
    Bounds {
        origin: point(Px(FONT_SIZE * -0.26), Px(FONT_SIZE * -0.245)),
        size: size(Px(FONT_SIZE * 1.501), Px(FONT_SIZE * 1.364)),
    }
}

fn inked_line() -> ShapedLine<Px> {
    let glyphs: Vec<ShapedGlyph<Px>> = TEXT
        .char_indices()
        .enumerate()
        .map(|(position, (index, character))| {
            glyph(
                character as u32,
                position as f32 * FONT_SIZE * 0.6,
                0.,
                index,
                false,
            )
        })
        .collect();
    ShapedLine {
        layout: Arc::new(LineLayout {
            font_size: Px(FONT_SIZE),
            width: Px(glyphs.len() as f32 * FONT_SIZE * 0.6),
            ascent: Px(ASCENT),
            descent: Px(DESCENT),
            runs: vec![ShapedRun {
                font_id: FontId(0),
                glyphs,
            }],
            len: TEXT.len(),
        }),
        text: TEXT.to_string(),
        decoration_runs: vec![decoration(TEXT.len() as u32, black())],
    }
}

/// Paints the line under `mask` into a scene: every glyph that the line paints
/// becomes a sprite with its ink directly above the baseline.
fn paint_into(scene: &mut Scene<Px>, line_height: f32, origin: Point<Px>, mask: Bounds<Px>) {
    let boxes = vec![metrics_box()];
    let surroundings = TextSurroundings {
        glyph_boxes: &boxes,
        underline_y_offset: Px(0.),
        content_mask: mask,
    };
    let plan = inked_line().paint(
        origin,
        Px(line_height),
        TextAlign::Left,
        None,
        &surroundings,
    );
    for command in plan.commands {
        if let PaintCommand::Glyph {
            origin,
            glyph_id,
            color,
            ..
        } = command
        {
            let height = ink_height(glyph_id) as f32;
            scene.insert_primitive(MonochromeSprite {
                order: 0,
                pad: 0,
                bounds: Bounds {
                    origin: point(origin.x, Px(origin.y.0 - height)),
                    size: size(Px(ink_width()), Px(height)),
                },
                content_mask: ContentMask { bounds: mask },
                color,
                effect: SpriteEffect::default(),
                tile: AtlasTile {
                    texture_id: AtlasTextureId {
                        index: 0,
                        kind: AtlasTextureKind::Monochrome,
                    },
                    tile_id: TileId(glyph_id.0),
                    padding: 0,
                    bounds: Bounds {
                        origin: point(DevicePixels(0), DevicePixels(0)),
                        size: size(DevicePixels(0), DevicePixels(0)),
                    },
                },
                transformation: TransformationMatrix::unit(),
            });
        }
    }
    scene.finish(&QuadPartitioning::default());
}

/// Every glyph whose ink lands inside the content mask has to reach the scene. The mask here
/// is a band that contains the painted ink but sits entirely below a box around the top of the
/// line.
#[test]
fn glyphs_inside_the_content_mask_are_not_dropped_by_the_pre_cull() {
    let origin = point(Px(0.), Px(0.));
    let baseline = (ROOMY_LINE_HEIGHT - ASCENT - DESCENT) / 2. + ASCENT;
    let top_box_bottom = metrics_box().size.height.0;

    // A band that covers the ink (which spans about `baseline - ink_height ..= baseline`)
    // while starting below `origin.y .. origin.y + font_box`.
    let mask_top = baseline - 14.;
    let mask = Bounds {
        origin: point(Px(-10.), Px(mask_top)),
        size: size(Px(1000.), Px(60.)),
    };
    assert!(mask_top > top_box_bottom);

    let mut scene = Scene::new();
    paint_into(&mut scene, ROOMY_LINE_HEIGHT, origin, mask);
    let expected = inked_line().layout.runs[0].glyphs.len();
    assert!(
        expected > 0,
        "the line shaped no glyphs, so this proved nothing"
    );
    assert_eq!(scene.monochrome_sprites.len(), expected);
}

/// The correctness property the whole cull chain has to satisfy: a glyph is painted if and
/// only if its ink intersects the content mask. Glyphs straddling the mask edge are excluded
/// from both bounds, so boundary rounding is never disputed.
#[test]
fn painted_glyphs_match_the_content_mask_across_configurations() {
    let mut configurations = 0;
    for line_height in [16., 20., 24., 32., 48., 64.] {
        for origin_y in [0., 0.25, 0.5, 7.3] {
            let origin = point(Px(0.), Px(origin_y));
            // Slide a band down through the line so its edges cut the text everywhere.
            for mask_top in [-20., -5., 0., 4., 8., 12., 16., 20., 24., 30., 40., 60.] {
                for mask_height in [6., 12., 24., 60.] {
                    let mask = Bounds {
                        origin: point(Px(-50.), Px(mask_top)),
                        size: size(Px(2000.), Px(mask_height)),
                    };
                    configurations += 1;
                    let mut scene = Scene::new();
                    paint_into(&mut scene, line_height, origin, mask);
                    let painted = scene.monochrome_sprites.len();

                    let baseline = (line_height - ASCENT - DESCENT) / 2. + ASCENT;
                    let mut must_paint = 0;
                    let mut may_paint = 0;
                    for glyph in &inked_line().layout.runs[0].glyphs {
                        let height = ink_height(glyph.id) as f32;
                        let ink_top = origin_y + baseline - height;
                        let inside = ink_top >= mask_top + 1.
                            && ink_top + height <= mask_top + mask_height - 1.;
                        let outside = ink_top + height <= mask_top - 1.
                            || ink_top >= mask_top + mask_height + 1.;
                        if inside {
                            must_paint += 1;
                        }
                        if !outside {
                            may_paint += 1;
                        }
                    }
                    assert!(
                        must_paint <= painted && painted <= may_paint,
                        "line-height {line_height} origin.y {origin_y} mask {mask_top}+{mask_height}: \
                         {painted} painted, {must_paint} inside, {may_paint} touching"
                    );
                }
            }
        }
    }
    assert_eq!(configurations, 6 * 4 * 12 * 4);
}

/// A view that did not change is replayed into the next frame. If a replayed range were ever
/// stale or misaligned, the replay would drop or duplicate arbitrary primitives, so every
/// redraw has to paint exactly what the first one did.
#[test]
fn cached_replay_paints_the_same_glyphs_every_frame() {
    let origin = point(Px(0.), Px(0.));
    let mask = Bounds {
        origin: point(Px(-50.), Px(-50.)),
        size: size(Px(2000.), Px(400.)),
    };
    let mut rendered = Scene::new();
    paint_into(&mut rendered, 24., origin, mask);
    let first = rendered.monochrome_sprites.len();
    let shaped = inked_line().layout.runs[0].glyphs.len();
    assert!(shaped > 0, "the line shaped no glyphs");
    assert_eq!(first, shaped);

    for redraws in [2usize, 3, 5, 8] {
        let mut rendered = Scene::new();
        paint_into(&mut rendered, 24., origin, mask);
        for _ in 1..redraws {
            let mut next = Scene::new();
            next.replay(0..rendered.len(), &rendered);
            next.finish(&QuadPartitioning::default());
            rendered = next;
        }
        assert_eq!(rendered.monochrome_sprites.len(), first);
    }
}

#[derive(Debug, Default)]
struct Counter(Arc<AtomicUsize>);

/// A policy that admits everything, and counts what is constructed.
#[derive(Default)]
struct Observer {
    sources: AtomicUsize,
    glyph_buffers: AtomicUsize,
}

struct Token {
    counter: Arc<AtomicUsize>,
    bytes: usize,
    largest: usize,
}

impl Drop for Token {
    fn drop(&mut self) {
        self.counter.fetch_sub(self.bytes, Ordering::Relaxed);
    }
}

impl TextAllocationToken for Token {
    fn resize(&mut self, bytes: usize) -> Result<(), TextAllocationError> {
        if bytes > self.largest {
            return Err(TextAllocationError::Denied);
        }
        if bytes > self.bytes {
            self.counter.fetch_add(bytes - self.bytes, Ordering::Relaxed);
        } else {
            self.counter.fetch_sub(self.bytes - bytes, Ordering::Relaxed);
        }
        self.bytes = bytes;
        Ok(())
    }
}

impl TextAllocationAdmission for Counter {
    type Token = Token;

    fn reserve(
        &self,
        _: TextAllocationClass,
        bytes: usize,
    ) -> Result<Token, TextAllocationError> {
        self.0.fetch_add(bytes, Ordering::Relaxed);
        Ok(Token {
            counter: Arc::clone(&self.0),
            bytes,
            largest: usize::MAX,
        })
    }

    fn native_scratch<F: Scalar>(
        &self,
        _: TextShapingInput<F>,
    ) -> Result<Token, TextAllocationError> {
        Err(TextAllocationError::MissingNativeMeasurement)
    }
}

/// A policy that refuses what is above its budget, and never lets a charge grow.
struct Budget(usize);

impl TextAllocationAdmission for Budget {
    type Token = Token;

    fn reserve(
        &self,
        _: TextAllocationClass,
        bytes: usize,
    ) -> Result<Token, TextAllocationError> {
        if bytes > self.0 {
            return Err(TextAllocationError::Denied);
        }
        Ok(Token {
            counter: Arc::new(AtomicUsize::new(bytes)),
            bytes,
            largest: bytes,
        })
    }

    fn native_scratch<F: Scalar>(
        &self,
        _: TextShapingInput<F>,
    ) -> Result<Token, TextAllocationError> {
        Err(TextAllocationError::UnsupportedBackend)
    }
}

fn charged(admission: &Arc<Counter>) -> usize {
    admission.0.load(Ordering::Relaxed)
}

fn raw_layout(len: usize) -> LineLayout<Px> {
    layout(0., Vec::new(), len)
}

#[test]
fn admitted_single_line_alignment_preserves_utf8_geometry() {
    for width in [20.0, 80.0] {
        for align in [TextAlign::Left, TextAlign::Center, TextAlign::Right] {
            let admission = Arc::new(Counter::default());
            let source = AdmittedTextSource::new("aβc", admission.clone())
                .ok()
                .expect("source");
            let allocation = TextAllocationReservation::for_line(&source, 1024)
                .ok()
                .expect("glyph reservation");
            let raw = layout(
                30.0,
                vec![ShapedRun {
                    font_id: FontId(0),
                    glyphs: [0, 1, 3]
                        .into_iter()
                        .enumerate()
                        .map(|(index, byte)| {
                            glyph(index as u32, index as f32 * 10.0, 0.0, byte, false)
                        })
                        .collect(),
                }],
                4,
            );
            let line = Arc::new(
                AdmittedLineLayout::from_native(source, raw, allocation)
                    .ok()
                    .expect("line"),
            );
            let element = TextAllocationReservation::reserve(
                line.source().admission(),
                TextAllocationClass::Element,
                64,
            )
            .ok()
            .expect("geometry reservation");
            let bounds = Bounds {
                origin: point(Px(10.0), Px(30.0)),
                size: size(Px(width), Px(20.0)),
            };
            let mut text_layout = AdmittedTextLayout {
                text_align: align,
                line,
                bounds: None,
                allocation: element.publish(),
            };
            assert_eq!(text_layout.position_for_index(0), None);
            assert_eq!(
                text_layout.closest_index_for_position(point(Px(0.), Px(0.))),
                None
            );
            text_layout.prepaint(bounds);
            assert_eq!(text_layout.bounds(), Some(bounds));
            let offset = match align {
                TextAlign::Left => 0.0,
                TextAlign::Center => (width - 30.0) / 2.0,
                TextAlign::Right => width - 30.0,
            };
            let expected_origin = point(Px(10.0 + offset), Px(30.0));
            assert_eq!(
                admitted_line_origin(bounds, Px(30.0), align),
                expected_origin
            );
            for (byte, x) in [(0, 0.0), (1, 10.0), (3, 20.0), (4, 30.0)] {
                let point = point(expected_origin.x.plus(Px(x)), expected_origin.y);
                assert_eq!(text_layout.position_for_index(byte), Some(point));
                assert_eq!(text_layout.closest_index_for_position(point), Some(byte));
            }
            assert_eq!(text_layout.position_for_index(2), None);
            assert_eq!(
                text_layout.platform_coverage(),
                TextPlatformCoverage::StrictAdmission
            );
            drop(text_layout);
            assert_eq!(charged(&admission), 0);
        }
    }
}

#[test]
fn admitted_text_source_clones_share_backing_and_charge() {
    let admission = Arc::new(Counter::default());
    let source = AdmittedTextSource::new(&"x".repeat(4096), admission.clone())
        .ok()
        .expect("source admission");
    let charge = charged(&admission);
    assert!(charge >= 4096);
    let alias = source.share();
    assert_eq!(source.as_str().as_ptr(), alias.as_str().as_ptr());
    assert!(source.same_allocation(&alias));
    assert_eq!(charged(&admission), charge);
    drop(source);
    assert_eq!(charged(&admission), charge);
    drop(alias);
    assert_eq!(charged(&admission), 0);
}

#[test]
fn admitted_line_rejects_another_source_under_the_same_policy() {
    let admission = Arc::new(Counter::default());
    let expected = AdmittedTextSource::new("first", admission.clone())
        .ok()
        .expect("expected source");
    let other = AdmittedTextSource::new("other", admission.clone())
        .ok()
        .expect("other source");
    let raw = raw_layout(5);
    let reservation = TextAllocationReservation::for_line(
        &expected,
        AdmittedLineLayout::<Counter, Px>::allocation_bytes(&raw).expect("capacity"),
    )
    .ok()
    .expect("reservation");
    assert!(matches!(
        AdmittedLineLayout::from_native(other, raw, reservation),
        Err(TextAllocationError::MismatchedSource)
    ));
    drop(expected);
    assert_eq!(charged(&admission), 0);
}

#[test]
fn admitted_line_published_owner_has_no_builder_alias() {
    let admission = Arc::new(Counter::default());
    let source = AdmittedTextSource::new("owned", admission.clone())
        .ok()
        .expect("source");
    let raw = raw_layout(5);
    let reservation = TextAllocationReservation::for_line(
        &source,
        AdmittedLineLayout::<Counter, Px>::allocation_bytes(&raw).expect("capacity"),
    )
    .ok()
    .expect("reservation");
    let line = Arc::new(
        AdmittedLineLayout::from_native(source, raw, reservation)
            .ok()
            .expect("publish"),
    );
    assert_eq!(line.len(), 5);
    assert!(!line.is_empty());
    assert!(matches!(
        line.try_split_at(2),
        Err(TextAllocationError::UnsupportedTransform)
    ));
    let charge = charged(&admission);
    let alias = Arc::clone(&line);
    drop(line);
    assert_eq!(charged(&admission), charge);
    drop(alias);
    assert_eq!(charged(&admission), 0);
}

#[test]
fn admitted_text_source_rejects_multiline_before_allocation() {
    let admission = Arc::new(Counter::default());
    assert!(matches!(
        AdmittedTextSource::new("a\nb", admission.clone()),
        Err(TextAllocationError::UnsupportedTransform)
    ));
    assert_eq!(charged(&admission), 0);
}

#[test]
fn layouts_of_another_length_are_refused() {
    let admission = Arc::new(Counter::default());
    let source = AdmittedTextSource::new_tracked_platform("owned", admission.clone())
        .ok()
        .unwrap();
    assert_eq!(
        source.platform_coverage(),
        TextPlatformCoverage::ObservedUnbounded
    );
    let reservation = TextAllocationReservation::for_line(&source, 4096).ok().unwrap();
    assert!(reservation.certifies(&source));
    assert!(matches!(
        AdmittedLineLayout::from_native(source, raw_layout(4), reservation),
        Err(TextAllocationError::MismatchedSource)
    ));
    assert_eq!(charged(&admission), 0);
}

#[test]
fn reservations_are_certified_for_one_source_under_its_policy() {
    type Reservation = TextAllocationReservation<Counter>;
    assert!(Reservation::certified(true, Some(true)));
    assert!(!Reservation::certified(false, Some(true)));
    assert!(!Reservation::certified(true, Some(false)));
    assert!(!Reservation::certified(true, None));
    let admission = Arc::new(Counter::default());
    let source = AdmittedTextSource::new("same", admission.clone()).ok().unwrap();
    let twin = AdmittedTextSource::new("same", admission.clone()).ok().unwrap();
    assert!(!source.same_allocation(&twin));
    let reservation = TextAllocationReservation::for_line(&source, 100).ok().unwrap();
    assert!(reservation.certifies(&source.share()));
    assert!(!reservation.certifies(&twin));
    let unbound =
        TextAllocationReservation::reserve(&admission, TextAllocationClass::Glyphs, 100)
            .ok()
            .unwrap();
    assert!(!unbound.certifies(&source));
}

#[test]
fn policies_can_refuse() {
    assert!(matches!(
        AdmittedTextSource::new("abc", Arc::new(Budget(10))),
        Err(TextAllocationError::Denied)
    ));
    let source = AdmittedTextSource::new("abc", Arc::new(Budget(10_000)))
        .ok()
        .unwrap();
    let mut reservation = TextAllocationReservation::for_line(&source, 100).ok().unwrap();
    assert_eq!(reservation.reconcile(80), Ok(()));
    assert_eq!(reservation.bytes, 80);
    assert_eq!(reservation.reconcile(200), Err(TextAllocationError::Denied));
    assert_eq!(reservation.bytes, 80);

    let mut glyphs: Vec<ShapedGlyph<Px>> = Vec::new();
    assert_eq!(
        reservation.grow_glyph_buffer(&mut glyphs, 100, 0),
        Err(TextAllocationError::Denied)
    );
    assert_eq!(
        reservation.grow_glyph_buffer(&mut glyphs, usize::MAX, 1),
        Err(TextAllocationError::Overflow)
    );
    let reservation = TextAllocationReservation::for_line(&source, 10_000).ok().unwrap();
    assert_eq!(reservation.grow_glyph_buffer(&mut glyphs, 10, 0), Ok(()));
    assert!(glyphs.capacity() >= 10);
}

impl TextAllocationAdmission for Observer {
    type Token = Token;

    fn construction(&self, event: TextConstructionEvent) {
        match event {
            TextConstructionEvent::Source => self.sources.fetch_add(1, Ordering::Relaxed),
            TextConstructionEvent::GlyphBuffer => {
                self.glyph_buffers.fetch_add(1, Ordering::Relaxed)
            }
            TextConstructionEvent::NativeEntry | TextConstructionEvent::RunBuffer => {
                panic!("the platform reports these")
            }
        };
    }

    fn reserve(
        &self,
        _: TextAllocationClass,
        bytes: usize,
    ) -> Result<Token, TextAllocationError> {
        Ok(Token {
            counter: Arc::new(AtomicUsize::new(bytes)),
            bytes,
            largest: usize::MAX,
        })
    }

    fn native_scratch<F: Scalar>(
        &self,
        _: TextShapingInput<F>,
    ) -> Result<Token, TextAllocationError> {
        Err(TextAllocationError::UnsupportedBackend)
    }
}

#[test]
fn construction_can_be_observed() {
    let observer = Arc::new(Observer::default());
    assert!(AdmittedTextSource::new("a\nb", observer.clone()).is_err());
    assert_eq!(observer.sources.load(Ordering::Relaxed), 0);
    let source = AdmittedTextSource::new("abc", observer.clone()).ok().unwrap();
    assert_eq!(observer.sources.load(Ordering::Relaxed), 1);
    let reservation = TextAllocationReservation::for_line(&source, 10_000)
        .ok()
        .unwrap();
    let mut glyphs: Vec<ShapedGlyph<Px>> = Vec::new();
    assert_eq!(reservation.grow_glyph_buffer(&mut glyphs, 10, 0), Ok(()));
    assert_eq!(reservation.grow_glyph_buffer(&mut glyphs, 10, 0), Ok(()));
    assert_eq!(observer.glyph_buffers.load(Ordering::Relaxed), 1);
}

#[test]
fn growth_is_decided_by_its_peak() {
    // Room for ten, five more asked for: fifteen elements of eight bytes at once.
    let decide = |reserved, bound| growth(10, 10, 5, 8, 16, reserved, bound);
    assert_eq!(decide(25 * 8 + 16, true), Growth::Grows);
    assert_eq!(
        decide(25 * 8 + 15, true),
        Growth::Fails(TextAllocationError::Denied)
    );
    assert_eq!(
        decide(25 * 8 + 16, false),
        Growth::Fails(TextAllocationError::Denied)
    );
    assert_eq!(growth(5, 10, 5, 8, 0, 0, false), Growth::Fits);
    assert_eq!(
        growth(usize::MAX, 0, 1, 8, 0, 0, true),
        Growth::Fails(TextAllocationError::Overflow)
    );
    assert_eq!(
        growth(0, 1, usize::MAX / 4, 8, 0, 0, true),
        Growth::Fails(TextAllocationError::Overflow)
    );
    assert_eq!(layout_bytes(100, 3, 40, &vec![5, 0, 7], 24), Ok(508));
    assert_eq!(
        layout_bytes(100, usize::MAX, 2, &vec![], 24),
        Err(TextAllocationError::Overflow)
    );
    assert_eq!(
        layout_bytes(100, 0, 0, &vec![usize::MAX / 24, 100], 24),
        Err(TextAllocationError::Overflow)
    );
}

fn plain_style() -> AdmittedTextStyle<Px> {
    AdmittedTextStyle {
        font_id: FontId(0),
        font_size: Px(16.),
        line_height: Px(20.),
        color: black(),
        background_color: Some(hsla(0.5, 1., 0.5, 1.)),
        underline: None,
        strikethrough: None,
        text_align: TextAlign::Right,
    }
}

#[test]
fn admitted_text_is_shaped_measured_and_painted() {
    let admission = Arc::new(Counter::default());
    let source = AdmittedTextSource::new("ab", admission.clone()).ok().unwrap();
    let text = AdmittedStyledText::from_admitted_source(source, plain_style(), |source| {
        let reservation = match TextAllocationReservation::for_line(&source, 4096) {
            Ok(reservation) => reservation,
            Err(error) => return Err(error),
        };
        let raw = layout(
            16.0,
            vec![ShapedRun {
                font_id: FontId(0),
                glyphs: vec![glyph(1, 0., 0., 0, false), glyph(2, 8., 0., 1, true)],
            }],
            2,
        );
        AdmittedLineLayout::from_native(source, raw, reservation).map(Arc::new)
    })
    .ok()
    .unwrap();
    assert_eq!(text.measure(None, None), size(Px(16.), Px(20.)));
    assert_eq!(
        text.measure(Some(Px(5.)), Some(Px(6.))),
        size(Px(5.), Px(6.))
    );
    let boxes = vec![font_box()];
    let surroundings = TextSurroundings {
        glyph_boxes: &boxes,
        underline_y_offset: Px(UNDERLINE_OFFSET),
        content_mask: everywhere(),
    };
    let bounds = Bounds {
        origin: point(Px(100.), Px(0.)),
        size: size(Px(50.), Px(20.)),
    };
    let (background, glyphs) = text
        .layout()
        .line
        .paint(bounds, Px(20.), &plain_style(), &surroundings)
        .ok()
        .unwrap();
    assert_eq!(background.commands.len(), 1);
    assert!(matches!(
        &background.commands[0],
        PaintCommand::Quad { bounds, .. } if bounds.origin.x == Px(134.) && bounds.size.width == Px(16.)
    ));
    assert!(matches!(
        &glyphs.commands[0],
        PaintCommand::Glyph { origin, .. } if origin.x == Px(134.)
    ));
    assert!(matches!(
        &glyphs.commands[1],
        PaintCommand::Emoji { origin, .. } if origin.x == Px(142.)
    ));
    drop(text);
    assert_eq!(charged(&admission), 0);

    let source = AdmittedTextSource::new("ab", admission.clone()).ok().unwrap();
    let refused: Result<AdmittedStyledText<Counter, Px>, _> =
        AdmittedStyledText::from_admitted_source(source, plain_style(), |_| {
            Err(TextAllocationError::UnsupportedBackend)
        });
    assert!(matches!(
        refused,
        Err(TextAllocationError::UnsupportedBackend)
    ));
    assert_eq!(charged(&admission), 0);
}

fn shape_plainly(
    source: AdmittedTextSource<Counter>,
) -> Result<Arc<AdmittedLineLayout<Counter, Px>>, TextAllocationError> {
    let len = source.as_str().len();
    let reservation = match TextAllocationReservation::for_line(&source, 4096) {
        Ok(reservation) => reservation,
        Err(error) => return Err(error),
    };
    AdmittedLineLayout::from_native(source, raw_layout(len), reservation).map(Arc::new)
}

#[test]
fn published_owners_keep_the_charge_that_was_resized() {
    let admission = Arc::new(Counter::default());
    let source = AdmittedTextSource::new("owned", admission.clone())
        .ok()
        .unwrap();
    let source_charge = charged(&admission);
    assert_eq!(
        source.inner.allocation.token.bytes, source_charge,
        "the source owns its whole charge"
    );
    let raw = raw_layout(5);
    let taken = AdmittedLineLayout::<Counter, Px>::allocation_bytes(&raw).unwrap();
    let mut reservation = TextAllocationReservation::for_line(&source, 1 << 20)
        .ok()
        .unwrap();
    assert_eq!(charged(&admission), source_charge + (1 << 20));
    assert_eq!(reservation.reconcile(1 << 16), Ok(()));
    assert_eq!(reservation.token.bytes, 1 << 16);
    let line = AdmittedLineLayout::from_native(source, raw, reservation)
        .ok()
        .unwrap();
    assert_eq!(line.allocation.token.bytes, taken);
    assert_eq!(charged(&admission), source_charge + taken);
    drop(line);
    assert_eq!(charged(&admission), 0);
}

#[test]
fn coverage_changes_nothing_else() {
    let strict = Arc::new(Counter::default());
    let observed = Arc::new(Counter::default());
    let a = AdmittedTextSource::new("same", strict.clone()).ok().unwrap();
    let b = AdmittedTextSource::new_tracked_platform("same", observed.clone())
        .ok()
        .unwrap();
    assert_eq!(a.as_str(), b.as_str());
    assert_eq!(charged(&strict), charged(&observed));
    assert_eq!(a.platform_coverage(), TextPlatformCoverage::StrictAdmission);
    assert_eq!(b.platform_coverage(), TextPlatformCoverage::ObservedUnbounded);
    for text in ["two\nlines", "\n"] {
        assert!(matches!(
            AdmittedTextSource::new(text, strict.clone()),
            Err(TextAllocationError::UnsupportedTransform)
        ));
        assert!(matches!(
            AdmittedTextSource::new_tracked_platform(text, observed.clone()),
            Err(TextAllocationError::UnsupportedTransform)
        ));
    }
}

#[test]
fn texts_are_admitted_before_they_are_shaped() {
    let admission = Arc::new(Counter::default());
    let strict = AdmittedStyledText::try_new_admitted(
        "abc",
        admission.clone(),
        plain_style(),
        shape_plainly,
    )
    .ok()
    .unwrap();
    assert_eq!(strict.layout().line.len(), 3);
    assert_eq!(
        strict.layout().platform_coverage(),
        TextPlatformCoverage::StrictAdmission
    );
    let observed = AdmittedStyledText::try_new_tracked_platform(
        "abcd",
        admission.clone(),
        plain_style(),
        shape_plainly,
    )
    .ok()
    .unwrap();
    assert_eq!(observed.layout().line.len(), 4);
    assert_eq!(
        observed.layout().platform_coverage(),
        TextPlatformCoverage::ObservedUnbounded
    );
    let refused = AdmittedStyledText::try_new_admitted(
        "two\nlines",
        admission.clone(),
        plain_style(),
        shape_plainly,
    );
    assert!(matches!(
        refused,
        Err(TextAllocationError::UnsupportedTransform)
    ));
    drop((strict, observed));
    assert_eq!(charged(&admission), 0);
}

#[test]
fn allocation_errors_have_words() {
    for (error, words) in [
        (
            TextAllocationError::Denied,
            "Text allocation admission was denied",
        ),
        (
            TextAllocationError::Overflow,
            "Text allocation size overflowed",
        ),
        (
            TextAllocationError::UnsupportedBackend,
            "The text backend does not support admitted shaping",
        ),
        (
            TextAllocationError::UnsupportedTransform,
            "This text transform does not support admitted shaping",
        ),
        (
            TextAllocationError::MissingNativeMeasurement,
            "No native shaping measurement covers this input",
        ),
        (
            TextAllocationError::MismatchedSource,
            "Text allocation reservation belongs to another source",
        ),
    ] {
        assert_eq!(error.message(), words);
    }
}
