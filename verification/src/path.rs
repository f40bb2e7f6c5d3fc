//! Paths made of triangles.
use vstd::prelude::*;

use crate::color::{Background, Hsla};
use crate::geometry::{Bounds, ContentMask, Point, Size};
use crate::scalar::{one, one_half, spec_one, spec_one_half, spec_zero, zero, Scalar};

verus! {

/// The place of a path among the paths of its scene.
#[derive(Clone, Copy, Debug, PartialEq, Eq, Structural, Hash)]
pub struct PathId(pub usize);

/// A corner of a triangle.
#[derive(Clone, Copy, Debug)]
pub struct PathVertex<P> {
    /// Where the corner is.
    pub xy_position: Point<P>,
    /// Where the corner is on the curve that bounds the triangle.
    pub st_position: Point<P>,
    /// The region that the triangle is clipped to.
    pub content_mask: ContentMask<P>,
}

/// A corner in physical pixels.
#[allow(non_camel_case_types)]
pub type PathVertex_ScaledPixels<F> = PathVertex<F>;

/// A line made up of a series of vertices and control points.
#[derive(Debug)]
pub struct Path<P> {
    /// The path's place among the paths of its scene.
    pub id: PathId,
    /// When it is drawn.
    pub order: u32,
    /// A rectangle around all of it.
    pub bounds: Bounds<P>,
    /// The region that it is clipped to.
    pub content_mask: ContentMask<P>,
    /// The triangles, three corners each.
    pub vertices: Vec<PathVertex<P>>,
    /// What it is filled with.
    pub color: Background<P>,
    /// Where the contour starts.
    pub start: Point<P>,
    /// Where the contour has got to.
    pub current: Point<P>,
    /// How many moves and segments the contour has.
    pub contour_count: usize,
}

/// What a [`Path`] holds.
pub struct PathModel<P> {
    /// The path's place among the paths of its scene.
    pub id: PathId,
    /// When it is drawn.
    pub order: u32,
    /// A rectangle around all of it.
    pub bounds: Bounds<P>,
    /// The region that it is clipped to.
    pub content_mask: ContentMask<P>,
    /// The triangles, three corners each.
    pub vertices: Seq<PathVertex<P>>,
    /// What it is filled with.
    pub color: Background<P>,
    /// Where the contour starts.
    pub start: Point<P>,
    /// Where the contour has got to.
    pub current: Point<P>,
    /// How many moves and segments the contour has.
    pub contour_count: usize,
}

impl<P> View for Path<P> {
    type V = PathModel<P>;

    open spec fn view(&self) -> PathModel<P> {
        PathModel {
            id: self.id,
            order: self.order,
            bounds: self.bounds,
            content_mask: self.content_mask,
            vertices: self.vertices@,
            color: self.color,
            start: self.start,
            current: self.current,
            contour_count: self.contour_count,
        }
    }
}

impl<F: Scalar> PathVertex<F> {
    /// The corner with its position and its mask multiplied by `factor`.
    pub open spec fn spec_scale(self, factor: F) -> Self {
        PathVertex {
            xy_position: self.xy_position.spec_scale(factor),
            st_position: self.st_position,
            content_mask: self.content_mask.spec_scale(factor),
        }
    }

    /// Multiplies the position and the mask by `factor`.
    pub fn scale(&self, factor: F) -> (result: PathVertex<F>)
        ensures
            result == self.spec_scale(factor),
    {
        PathVertex {
            xy_position: self.xy_position.scale(factor),
            st_position: self.st_position,
            content_mask: self.content_mask.scale(factor),
        }
    }
}

/// Three points.
pub type Triangle<F> = (Point<F>, Point<F>, Point<F>);

impl<F: Scalar> PathModel<F> {
    /// A path that has not left `start`.
    pub open spec fn spec_new(start: Point<F>) -> Self {
        PathModel {
            id: PathId(0),
            order: 0,
            bounds: Bounds { origin: start, size: Size::spec_origin() },
            content_mask: ContentMask { bounds: Bounds::spec_origin() },
            vertices: Seq::empty(),
            color: Background::spec_solid(Hsla::spec_transparent()),
            start,
            current: start,
            contour_count: 0,
        }
    }

    /// The path with every position multiplied by `factor`.
    pub open spec fn spec_scale(self, factor: F) -> Self {
        PathModel {
            bounds: self.bounds.spec_scale(factor),
            content_mask: self.content_mask.spec_scale(factor),
            vertices: self.vertices.map_values(|vertex: PathVertex<F>| vertex.spec_scale(factor)),
            start: self.start.spec_scale(factor),
            current: self.current.spec_scale(factor),
            ..self
        }
    }

    /// The corner at `xy` of a triangle, at `st` on its curve.
    pub open spec fn corner(xy: Point<F>, st: Point<F>) -> PathVertex<F> {
        PathVertex {
            xy_position: xy,
            st_position: st,
            content_mask: ContentMask { bounds: Bounds::spec_origin() },
        }
    }

    /// `bounds` stretched to take in `point`.
    pub open spec fn stretched(bounds: Bounds<F>, point: Point<F>) -> Bounds<F> {
        bounds.spec_union(Bounds { origin: point, size: Size::spec_origin() })
    }

    /// The path with one more triangle.
    pub open spec fn spec_push_triangle(self, xy: Triangle<F>, st: Triangle<F>) -> Self {
        PathModel {
            bounds: Self::stretched(
                Self::stretched(Self::stretched(self.bounds, xy.0), xy.1),
                xy.2,
            ),
            vertices: self.vertices.push(Self::corner(xy.0, st.0)).push(
                Self::corner(xy.1, st.1),
            ).push(Self::corner(xy.2, st.2)),
            ..self
        }
    }

    /// The path with the contour moved to start at `to`.
    pub open spec fn spec_move_to(self, to: Point<F>) -> Self {
        PathModel {
            contour_count: (self.contour_count + 1) as usize,
            start: to,
            current: to,
            ..self
        }
    }

    /// The place on its curve of every corner of a triangle that no curve bounds.
    pub open spec fn spec_straight() -> Triangle<F> {
        let inside = Point { x: spec_zero(), y: spec_one() };
        (inside, inside, inside)
    }

    /// The places on its curve of the corners of a triangle that a curve bounds.
    pub open spec fn spec_curved() -> Triangle<F> {
        (
            Point { x: spec_zero(), y: spec_zero() },
            Point { x: spec_one_half(), y: spec_zero() },
            Point { x: spec_one(), y: spec_one() },
        )
    }

    /// The path with a segment begun: from the second one on, with the triangle
    /// that joins it to the start of the contour.
    pub open spec fn spec_begin_segment(self, to: Point<F>) -> Self {
        let counted = PathModel { contour_count: (self.contour_count + 1) as usize, ..self };
        if counted.contour_count > 1 {
            counted.spec_push_triangle((self.start, self.current, to), Self::spec_straight())
        } else {
            counted
        }
    }

    /// The path with a straight line to `to`.
    pub open spec fn spec_line_to(self, to: Point<F>) -> Self {
        PathModel { current: to, ..self.spec_begin_segment(to) }
    }

    /// The path with a curve to `to`, bent towards `ctrl`.
    pub open spec fn spec_curve_to(self, to: Point<F>, ctrl: Point<F>) -> Self {
        PathModel {
            current: to,
            ..self.spec_begin_segment(to).spec_push_triangle(
                (self.current, ctrl, to),
                Self::spec_curved(),
            )
        }
    }
}

impl<F: Scalar> Path<F> {
    /// Create a new path with the given starting point.
    pub fn new(start: Point<F>) -> (result: Self)
        ensures
            result@ == PathModel::spec_new(start),
    {
        let result = Path {
            id: PathId(0),
            order: 0,
            vertices: Vec::new(),
            start,
            current: start,
            bounds: Bounds { origin: start, size: Size::zero() },
            content_mask: ContentMask { bounds: Bounds::zero() },
            color: Background::solid_color(Hsla::transparent()),
            contour_count: 0,
        };
        proof {
            assert(result.vertices@ =~= Seq::<PathVertex<F>>::empty());
        }
        result
    }

    /// Scale this path by the given factor.
    pub fn scale(&self, factor: F) -> (result: Path<F>)
        ensures
            result@ == self@.spec_scale(factor),
    {
        let mut vertices: Vec<PathVertex<F>> = Vec::with_capacity(self.vertices.len());
        let mut i: usize = 0;
        while i < self.vertices.len()
            invariant
                i <= self.vertices@.len(),
                vertices@.len() == i,
                forall|k: int|
                    0 <= k < i ==> (#[trigger] vertices@[k]) == self.vertices@[k].spec_scale(
                        factor,
                    ),
            decreases self.vertices@.len() - i,
        {
            vertices.push(self.vertices[i].scale(factor));
            i = i + 1;
        }
        proof {
            assert(vertices@ =~= self@.spec_scale(factor).vertices);
        }
        Path {
            id: self.id,
            order: self.order,
            bounds: self.bounds.scale(factor),
            content_mask: self.content_mask.scale(factor),
            vertices,
            start: self.start.scale(factor),
            current: self.current.scale(factor),
            contour_count: self.contour_count,
            color: self.color,
        }
    }

    /// Move the start, current point to the given point.
    pub fn move_to(&mut self, to: Point<F>)
        requires
            old(self).contour_count < usize::MAX,
        ensures
            final(self)@ == old(self)@.spec_move_to(to),
    {
        self.contour_count = self.contour_count + 1;
        self.start = to;
        self.current = to;
    }

    /// Draw a straight line from the current point to the given point.
    pub fn line_to(&mut self, to: Point<F>)
        requires
            old(self).contour_count < usize::MAX,
        ensures
            final(self)@ == old(self)@.spec_line_to(to),
    {
        self.contour_count = self.contour_count + 1;
        if self.contour_count > 1 {
            self.push_triangle((self.start, self.current, to), straight());
        }
        self.current = to;
    }

    /// Draw a curve from the current point to the given point, using the given control point.
    pub fn curve_to(&mut self, to: Point<F>, ctrl: Point<F>)
        requires
            old(self).contour_count < usize::MAX,
        ensures
            final(self)@ == old(self)@.spec_curve_to(to, ctrl),
    {
        self.contour_count = self.contour_count + 1;
        if self.contour_count > 1 {
            self.push_triangle((self.start, self.current, to), straight());
        }
        self.push_triangle((self.current, ctrl, to), curved());
        self.current = to;
    }

    /// Push a triangle to the Path.
    pub fn push_triangle(&mut self, xy: Triangle<F>, st: Triangle<F>)
        ensures
            final(self)@ == old(self)@.spec_push_triangle(xy, st),
    {
        let first = Bounds { origin: xy.0, size: Size::zero() };
        let second = Bounds { origin: xy.1, size: Size::zero() };
        let third = Bounds { origin: xy.2, size: Size::zero() };
        self.bounds = self.bounds.union(&first).union(&second).union(&third);
        let content_mask = ContentMask { bounds: Bounds::zero() };
        self.vertices.push(PathVertex { xy_position: xy.0, st_position: st.0, content_mask });
        self.vertices.push(PathVertex { xy_position: xy.1, st_position: st.1, content_mask });
        self.vertices.push(PathVertex { xy_position: xy.2, st_position: st.2, content_mask });
    }

    /// The part of the path's bounds that its mask leaves.
    pub fn clipped_bounds(&self) -> (result: Bounds<F>)
        ensures
            result == self.bounds.spec_intersect(self.content_mask.bounds),
    {
        self.bounds.intersect(&self.content_mask.bounds)
    }

    /// A path that holds the same.
    pub fn duplicate(&self) -> (result: Self)
        ensures
            result@ == self@,
    {
        let mut vertices: Vec<PathVertex<F>> = Vec::with_capacity(self.vertices.len());
        let mut i: usize = 0;
        while i < self.vertices.len()
            invariant
                i <= self.vertices@.len(),
                vertices@ == self.vertices@.take(i as int),
            decreases self.vertices@.len() - i,
        {
            vertices.push(self.vertices[i]);
            i = i + 1;
            proof {
                assert(vertices@ =~= self.vertices@.take(i as int));
            }
        }
        proof {
            assert(vertices@ =~= self.vertices@);
        }
        Path {
            id: self.id,
            order: self.order,
            bounds: self.bounds,
            content_mask: self.content_mask,
            vertices,
            color: self.color,
            start: self.start,
            current: self.current,
            contour_count: self.contour_count,
        }
    }
}

fn straight<F: Scalar>() -> (result: Triangle<F>)
    ensures
        result == PathModel::<F>::spec_straight(),
{
    let inside = Point { x: zero(), y: one() };
    (inside, inside, inside)
}

fn curved<F: Scalar>() -> (result: Triangle<F>)
    ensures
        result == PathModel::<F>::spec_curved(),
{
    (
        Point { x: zero(), y: zero() },
        Point { x: one_half(), y: zero() },
        Point { x: one(), y: one() },
    )
}

/// A path holds whole triangles: whatever is drawn, the number of corners stays
/// a multiple of three.
pub proof fn law_paths_hold_whole_triangles<F: Scalar>(
    path: PathModel<F>,
    to: Point<F>,
    ctrl: Point<F>,
)
    requires
        path.vertices.len() % 3 == 0,
    ensures
        PathModel::spec_new(to).vertices.len() % 3 == 0,
        path.spec_move_to(to).vertices.len() % 3 == 0,
        path.spec_line_to(to).vertices.len() % 3 == 0,
        path.spec_curve_to(to, ctrl).vertices.len() % 3 == 0,
{
}

} // verus!
