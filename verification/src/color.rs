//! Colors, and what the inside of a shape is filled with.
use vstd::prelude::*;

use crate::scalar::{clamp, one, spec_clamp, spec_one, spec_zero, zero, Scalar};

verus! {

/// A color as hue, saturation, lightness and opacity, each in `0..=1`.
#[derive(Clone, Copy, Debug, PartialEq)]
pub struct Hsla<F> {
    /// The hue.
    pub h: F,
    /// The saturation.
    pub s: F,
    /// The lightness.
    pub l: F,
    /// The opacity.
    pub a: F,
}

impl<F: Scalar> Hsla<F> {
    /// Black at no opacity.
    pub open spec fn spec_transparent() -> Self {
        Hsla { h: spec_zero(), s: spec_zero(), l: spec_zero(), a: spec_zero() }
    }

    /// The color with its opacity multiplied by `factor`, held in `0..=1`.
    pub open spec fn spec_opacity(self, factor: F) -> Self {
        Hsla { a: self.a.spec_times(spec_clamp(factor, spec_zero(), spec_one())), ..self }
    }

    /// Black at no opacity.
    pub fn transparent() -> (result: Self)
        ensures
            result == Self::spec_transparent(),
    {
        Hsla { h: zero(), s: zero(), l: zero(), a: zero() }
    }

    /// Solid black.
    pub fn black() -> (result: Self)
        ensures
            result == (Hsla { a: spec_one(), ..Self::spec_transparent() }),
    {
        Hsla { h: zero(), s: zero(), l: zero(), a: one() }
    }

    /// Solid white.
    pub fn white() -> (result: Self)
        ensures
            result == (Hsla { l: spec_one(), a: spec_one(), ..Self::spec_transparent() }),
    {
        Hsla { h: zero(), s: zero(), l: one(), a: one() }
    }

    /// Multiplies the opacity by `factor`, held in `0..=1`.
    pub fn opacity(&self, factor: F) -> (result: Self)
        ensures
            result == self.spec_opacity(factor),
    {
        Hsla { h: self.h, s: self.s, l: self.l, a: self.a.times(clamp(factor, zero(), one())) }
    }
}

/// What a [`Background`] draws.
#[derive(Clone, Copy, Debug, PartialEq, Eq, Structural)]
pub enum BackgroundTag {
    /// One color everywhere.
    Solid,
    /// A gradient along a line between two colors.
    LinearGradient,
    /// Slanted stripes.
    PatternSlash,
}

/// A color and its place along a gradient.
#[derive(Clone, Copy, Debug, PartialEq)]
pub struct LinearColorStop<F> {
    /// The color.
    pub color: Hsla<F>,
    /// The place, as a fraction of the gradient's length.
    pub percentage: F,
}

impl<F: Scalar> LinearColorStop<F> {
    /// The stop with its color's opacity multiplied by `factor`.
    pub open spec fn spec_opacity(self, factor: F) -> Self {
        LinearColorStop { color: self.color.spec_opacity(factor), ..self }
    }

    /// Multiplies the color's opacity by `factor`.
    pub fn opacity(&self, factor: F) -> (result: Self)
        ensures
            result == self.spec_opacity(factor),
    {
        LinearColorStop { color: self.color.opacity(factor), percentage: self.percentage }
    }
}

/// What the inside of a shape is filled with, and what moves it with time.
///
/// Beside the colors a background carries three independent marks: that it is
/// drawn on glass, the opacity cycle that drives it, and the transition that
/// moves it.
#[derive(Clone, Copy, Debug, PartialEq)]
pub struct Background<F> {
    /// What is drawn.
    pub tag: BackgroundTag,
    /// The color of a solid background and of stripes.
    pub solid: Hsla<F>,
    /// The angle of a gradient, or the height of a stripe.
    pub angle_or_height: F,
    /// Where a gradient starts.
    pub first_stop: LinearColorStop<F>,
    /// Where a gradient ends.
    pub last_stop: LinearColorStop<F>,
    /// Whether the background is drawn on glass.
    pub glass: bool,
    /// The opacity cycle that drives the background, `0` for none.
    pub animation: u32,
    /// The transition that moves the background, `0` for none.
    pub transition: u32,
}

/// The greatest transition id that a [`Background`] can carry.
pub const MAX_TIME_TRANSITION: u32 = 0xfff;

impl<F: Scalar> Background<F> {
    /// The greatest transition id that a background can carry.
    pub const MAX_TIME_TRANSITION: u32 = MAX_TIME_TRANSITION;

    /// One color everywhere, on no glass and moved by nothing.
    pub open spec fn spec_solid(color: Hsla<F>) -> Self {
        let stop = LinearColorStop { color: Hsla::spec_transparent(), percentage: spec_zero() };
        Background {
            tag: BackgroundTag::Solid,
            solid: color,
            angle_or_height: spec_zero(),
            first_stop: stop,
            last_stop: stop,
            glass: false,
            animation: 0,
            transition: 0,
        }
    }

    /// The color of a background that is one color everywhere.
    pub open spec fn spec_as_solid(self) -> Option<Hsla<F>> {
        if self.tag == BackgroundTag::Solid {
            Some(self.solid)
        } else {
            None
        }
    }

    /// The background with the opacity of every color multiplied by `factor`.
    pub open spec fn spec_opacity(self, factor: F) -> Self {
        Background {
            solid: self.solid.spec_opacity(factor),
            first_stop: self.first_stop.spec_opacity(factor),
            last_stop: self.last_stop.spec_opacity(factor),
            ..self
        }
    }

    /// The background driven by the opacity cycle `animation`.
    pub open spec fn spec_with_time_animation(self, animation: u32) -> Self {
        Background { animation, ..self }
    }

    /// The background moved by `transition`; itself where the id does not fit.
    pub open spec fn spec_with_time_transition(self, transition: u32) -> Self {
        if transition <= MAX_TIME_TRANSITION {
            Background { transition, ..self }
        } else {
            self
        }
    }

    /// One color everywhere.
    pub fn solid_color(color: Hsla<F>) -> (result: Self)
        ensures
            result == Self::spec_solid(color),
    {
        let stop = LinearColorStop { color: Hsla::transparent(), percentage: zero() };
        Background {
            tag: BackgroundTag::Solid,
            solid: color,
            angle_or_height: zero(),
            first_stop: stop,
            last_stop: stop,
            glass: false,
            animation: 0,
            transition: 0,
        }
    }

    /// The color of a background that is one color everywhere.
    pub fn as_solid(&self) -> (result: Option<Hsla<F>>)
        ensures
            result == self.spec_as_solid(),
    {
        match self.tag {
            BackgroundTag::Solid => Some(self.solid),
            _ => None,
        }
    }

    /// Multiplies the opacity of every color by `factor`.
    pub fn opacity(&self, factor: F) -> (result: Self)
        ensures
            result == self.spec_opacity(factor),
    {
        let mut result = *self;
        result.solid = self.solid.opacity(factor);
        result.first_stop = self.first_stop.opacity(factor);
        result.last_stop = self.last_stop.opacity(factor);
        result
    }

    /// Marks the background as drawn on glass.
    pub fn glass_content(self) -> (result: Self)
        ensures
            result == (Background { glass: true, ..self }),
    {
        let mut result = self;
        result.glass = true;
        result
    }

    /// Whether the background is drawn on glass.
    pub fn is_glass_content(&self) -> (result: bool)
        ensures
            result == self.glass,
    {
        self.glass
    }

    /// Has the opacity cycle `animation` drive the background.
    pub fn with_time_animation(self, animation: u32) -> (result: Self)
        ensures
            result == self.spec_with_time_animation(animation),
    {
        let mut result = self;
        result.animation = animation;
        result
    }

    /// The opacity cycle that drives the background, `0` for none.
    pub fn time_animation(&self) -> (result: u32)
        ensures
            result == self.animation,
    {
        self.animation
    }

    /// Has `transition` move the background. An id above
    /// [`MAX_TIME_TRANSITION`] is not stored.
    pub fn with_time_transition(self, transition: u32) -> (result: Self)
        ensures
            result == self.spec_with_time_transition(transition),
    {
        let mut result = self;
        if transition <= MAX_TIME_TRANSITION {
            result.transition = transition;
        }
        result
    }

    /// The transition that moves the background, `0` for none.
    pub fn time_transition(&self) -> (result: u32)
        ensures
            result == self.transition,
    {
        self.transition
    }
}

impl<F: Scalar> From<Hsla<F>> for Background<F> {
    fn from(color: Hsla<F>) -> (result: Self) {
        Background::solid_color(color)
    }
}

impl<F: Scalar> vstd::std_specs::convert::FromSpecImpl<Hsla<F>> for Background<F> {
    open spec fn obeys_from_spec() -> bool {
        true
    }

    open spec fn from_spec(color: Hsla<F>) -> Self {
        Background::spec_solid(color)
    }
}

} // verus!
