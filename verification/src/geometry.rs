//! Points, sizes and rectangles.
use vstd::prelude::*;

use crate::scalar::{spec_zero, zero, Scalar};

verus! {

/// A whole number of physical pixels.
#[derive(Clone, Copy, Debug, PartialEq, Eq, Structural, Hash, PartialOrd, Ord)]
pub struct DevicePixels(pub i32);

/// A position or a displacement in the plane, with `y` pointing down.
#[derive(Clone, Copy, Debug, PartialEq)]
pub struct Point<T> {
    /// The horizontal component.
    pub x: T,
    /// The vertical component.
    pub y: T,
}

/// The extent of a rectangle.
#[derive(Clone, Copy, Debug, PartialEq)]
pub struct Size<T> {
    /// The horizontal extent.
    pub width: T,
    /// The vertical extent.
    pub height: T,
}

/// A rectangle.
#[derive(Clone, Copy, Debug, PartialEq)]
pub struct Bounds<T> {
    /// The upper left corner.
    pub origin: Point<T>,
    /// The extent.
    pub size: Size<T>,
}

/// One value for each corner of a rectangle.
#[derive(Clone, Copy, Debug, PartialEq)]
pub struct Corners<T> {
    /// The value of the upper left corner.
    pub top_left: T,
    /// The value of the upper right corner.
    pub top_right: T,
    /// The value of the lower right corner.
    pub bottom_right: T,
    /// The value of the lower left corner.
    pub bottom_left: T,
}

/// One value for each edge of a rectangle.
#[derive(Clone, Copy, Debug, PartialEq)]
pub struct Edges<T> {
    /// The value of the upper edge.
    pub top: T,
    /// The value of the right edge.
    pub right: T,
    /// The value of the lower edge.
    pub bottom: T,
    /// The value of the left edge.
    pub left: T,
}

/// The region that painting is clipped to.
#[derive(Clone, Copy, Debug, PartialEq)]
pub struct ContentMask<T> {
    /// The region.
    pub bounds: Bounds<T>,
}

/// The larger of two numbers: the second unless the first is above it.
pub open spec fn spec_upper<F: Scalar>(a: F, b: F) -> F {
    if b.spec_lt(a) {
        a
    } else {
        b
    }
}

/// The smaller of two numbers: the first unless the second is below it.
pub open spec fn spec_lower<F: Scalar>(a: F, b: F) -> F {
    if a.spec_le(b) {
        a
    } else {
        b
    }
}

fn upper<F: Scalar>(a: F, b: F) -> (result: F)
    ensures
        result == spec_upper(a, b),
{
    if b.lt(a) {
        a
    } else {
        b
    }
}

fn lower<F: Scalar>(a: F, b: F) -> (result: F)
    ensures
        result == spec_lower(a, b),
{
    if a.le(b) {
        a
    } else {
        b
    }
}

/// The point at `(x, y)`.
pub fn point<T>(x: T, y: T) -> (result: Point<T>)
    ensures
        result == (Point { x, y }),
{
    Point { x, y }
}

/// The size of `width` by `height`.
pub fn size<T>(width: T, height: T) -> (result: Size<T>)
    ensures
        result == (Size { width, height }),
{
    Size { width, height }
}

impl<F: Scalar> Point<F> {
    /// The point with both components zero.
    pub open spec fn spec_origin() -> Self {
        Point { x: spec_zero(), y: spec_zero() }
    }

    /// Both components multiplied by `factor`.
    pub open spec fn spec_scale(self, factor: F) -> Self {
        Point { x: self.x.spec_times(factor), y: self.y.spec_times(factor) }
    }

    /// The sum, component by component.
    pub open spec fn spec_plus(self, other: Self) -> Self {
        Point { x: self.x.spec_plus(other.x), y: self.y.spec_plus(other.y) }
    }

    /// The difference, component by component.
    pub open spec fn spec_minus(self, other: Self) -> Self {
        Point { x: self.x.spec_minus(other.x), y: self.y.spec_minus(other.y) }
    }

    /// The larger of each pair of components.
    pub open spec fn spec_upper(self, other: Self) -> Self {
        Point { x: spec_upper(self.x, other.x), y: spec_upper(self.y, other.y) }
    }

    /// The smaller of each pair of components.
    pub open spec fn spec_lower(self, other: Self) -> Self {
        Point { x: spec_lower(self.x, other.x), y: spec_lower(self.y, other.y) }
    }

    /// The point with both components zero.
    pub fn zero() -> (result: Self)
        ensures
            result == Self::spec_origin(),
    {
        Point { x: zero(), y: zero() }
    }

    /// Multiplies both components by `factor`.
    pub fn scale(self, factor: F) -> (result: Self)
        ensures
            result == self.spec_scale(factor),
    {
        Point { x: self.x.times(factor), y: self.y.times(factor) }
    }

    /// Adds component by component.
    pub fn plus(self, other: Self) -> (result: Self)
        ensures
            result == self.spec_plus(other),
    {
        Point { x: self.x.plus(other.x), y: self.y.plus(other.y) }
    }

    /// Subtracts component by component.
    pub fn minus(self, other: Self) -> (result: Self)
        ensures
            result == self.spec_minus(other),
    {
        Point { x: self.x.minus(other.x), y: self.y.minus(other.y) }
    }

    /// Takes the larger of each pair of components.
    pub fn max(self, other: Self) -> (result: Self)
        ensures
            result == self.spec_upper(other),
    {
        Point { x: upper(self.x, other.x), y: upper(self.y, other.y) }
    }

    /// Takes the smaller of each pair of components.
    pub fn min(self, other: Self) -> (result: Self)
        ensures
            result == self.spec_lower(other),
    {
        Point { x: lower(self.x, other.x), y: lower(self.y, other.y) }
    }
}

impl<F: Scalar> Size<F> {
    /// The size with both extents zero.
    pub open spec fn spec_origin() -> Self {
        Size { width: spec_zero(), height: spec_zero() }
    }

    /// Both extents multiplied by `factor`.
    pub open spec fn spec_scale(self, factor: F) -> Self {
        Size { width: self.width.spec_times(factor), height: self.height.spec_times(factor) }
    }

    /// The size with both extents zero.
    pub fn zero() -> (result: Self)
        ensures
            result == Self::spec_origin(),
    {
        Size { width: zero(), height: zero() }
    }

    /// Multiplies both extents by `factor`.
    pub fn scale(self, factor: F) -> (result: Self)
        ensures
            result == self.spec_scale(factor),
    {
        Size { width: self.width.times(factor), height: self.height.times(factor) }
    }
}

impl<F: Scalar> Bounds<F> {
    /// The empty rectangle at the origin.
    pub open spec fn spec_origin() -> Self {
        Bounds { origin: Point::spec_origin(), size: Size::spec_origin() }
    }

    /// The lower right corner.
    pub open spec fn spec_bottom_right(self) -> Point<F> {
        Point {
            x: self.origin.x.spec_plus(self.size.width),
            y: self.origin.y.spec_plus(self.size.height),
        }
    }

    /// The rectangle between two corners.
    pub open spec fn spec_from_corners(top_left: Point<F>, bottom_right: Point<F>) -> Self {
        Bounds {
            origin: top_left,
            size: Size {
                width: bottom_right.x.spec_minus(top_left.x),
                height: bottom_right.y.spec_minus(top_left.y),
            },
        }
    }

    /// What two rectangles share; of no extent where they share nothing.
    pub open spec fn spec_intersect(self, other: Self) -> Self {
        let top_left = self.origin.spec_upper(other.origin);
        let bottom_right = self.spec_bottom_right().spec_lower(
            other.spec_bottom_right(),
        ).spec_upper(top_left);
        Self::spec_from_corners(top_left, bottom_right)
    }

    /// The smallest rectangle around both.
    pub open spec fn spec_union(self, other: Self) -> Self {
        Self::spec_from_corners(
            self.origin.spec_lower(other.origin),
            self.spec_bottom_right().spec_upper(other.spec_bottom_right()),
        )
    }

    /// Whether two rectangles overlap.
    pub open spec fn spec_intersects(self, other: Self) -> bool {
        let mine = self.spec_bottom_right();
        let theirs = other.spec_bottom_right();
        &&& self.origin.x.spec_lt(theirs.x)
        &&& other.origin.x.spec_lt(mine.x)
        &&& self.origin.y.spec_lt(theirs.y)
        &&& other.origin.y.spec_lt(mine.y)
    }

    /// Whether the rectangle holds nothing.
    pub open spec fn spec_is_empty(self) -> bool {
        self.size.width.spec_le(spec_zero()) || self.size.height.spec_le(spec_zero())
    }

    /// The rectangle with its origin and its extent multiplied by `factor`.
    pub open spec fn spec_scale(self, factor: F) -> Self {
        Bounds { origin: self.origin.spec_scale(factor), size: self.size.spec_scale(factor) }
    }

    /// The empty rectangle at the origin.
    pub fn zero() -> (result: Self)
        ensures
            result == Self::spec_origin(),
    {
        Bounds { origin: Point::zero(), size: Size::zero() }
    }

    /// The lower right corner.
    pub fn bottom_right(self) -> (result: Point<F>)
        ensures
            result == self.spec_bottom_right(),
    {
        Point {
            x: self.origin.x.plus(self.size.width),
            y: self.origin.y.plus(self.size.height),
        }
    }

    /// The rectangle between two corners.
    pub fn from_corners(top_left: Point<F>, bottom_right: Point<F>) -> (result: Self)
        ensures
            result == Self::spec_from_corners(top_left, bottom_right),
    {
        Bounds {
            origin: top_left,
            size: Size {
                width: bottom_right.x.minus(top_left.x),
                height: bottom_right.y.minus(top_left.y),
            },
        }
    }

    /// What two rectangles share.
    pub fn intersect(&self, other: &Self) -> (result: Self)
        ensures
            result == self.spec_intersect(*other),
    {
        let top_left = self.origin.max(other.origin);
        let bottom_right = self.bottom_right().min(other.bottom_right()).max(top_left);
        Self::from_corners(top_left, bottom_right)
    }

    /// The smallest rectangle around both.
    pub fn union(&self, other: &Self) -> (result: Self)
        ensures
            result == self.spec_union(*other),
    {
        Self::from_corners(
            self.origin.min(other.origin),
            self.bottom_right().max(other.bottom_right()),
        )
    }

    /// Whether two rectangles overlap.
    pub fn intersects(&self, other: &Self) -> (result: bool)
        ensures
            result == self.spec_intersects(*other),
    {
        let mine = self.bottom_right();
        let theirs = other.bottom_right();
        self.origin.x.lt(theirs.x) && other.origin.x.lt(mine.x) && self.origin.y.lt(theirs.y)
            && other.origin.y.lt(mine.y)
    }

    /// Whether the rectangle holds nothing.
    pub fn is_empty(&self) -> (result: bool)
        ensures
            result == self.spec_is_empty(),
    {
        self.size.width.le(zero()) || self.size.height.le(zero())
    }

    /// Multiplies the origin and the extent by `factor`.
    pub fn scale(self, factor: F) -> (result: Self)
        ensures
            result == self.spec_scale(factor),
    {
        Bounds { origin: self.origin.scale(factor), size: self.size.scale(factor) }
    }
}

impl<F: Scalar> ContentMask<F> {
    /// The region with its origin and its extent multiplied by `factor`.
    pub open spec fn spec_scale(self, factor: F) -> Self {
        ContentMask { bounds: self.bounds.spec_scale(factor) }
    }

    /// Multiplies the region's origin and extent by `factor`.
    pub fn scale(self, factor: F) -> (result: Self)
        ensures
            result == self.spec_scale(factor),
    {
        ContentMask { bounds: self.bounds.scale(factor) }
    }
}

} // verus!
