//! What paths made of lines and curves cover.
use vstd::prelude::*;

use crate::geometry::{Bounds, Point, Size};
use crate::geometry_laws::{law_the_union_reaches_both, ordered_exactly, reaches};
use crate::path::{PathModel, PathVertex};
use crate::scalar::{spec_one, spec_one_half, spec_zero, Scalar};

verus! {

/// A path with straight lines to some points, one after the other.
pub open spec fn lines_to<F: Scalar>(path: PathModel<F>, points: Seq<Point<F>>) -> PathModel<F>
    decreases points.len(),
{
    if points.len() == 0 {
        path
    } else {
        lines_to(path, points.drop_last()).spec_line_to(points.last())
    }
}

/// Whether a corner lies at `position`, on no curve: inside of all that a curve bounds.
pub open spec fn is_straight_corner<F: Scalar>(vertex: PathVertex<F>, position: Point<F>) -> bool {
    &&& vertex.xy_position == position
    &&& vertex.st_position.x == spec_zero::<F>()
    &&& vertex.st_position.y == spec_one::<F>()
}

/// Whether the triangle at `k` of a path has these corners, and no curve bounds it.
pub open spec fn is_triangle<F: Scalar>(
    path: PathModel<F>,
    k: int,
    a: Point<F>,
    b: Point<F>,
    c: Point<F>,
) -> bool {
    &&& is_straight_corner(path.vertices[3 * k], a)
    &&& is_straight_corner(path.vertices[3 * k + 1], b)
    &&& is_straight_corner(path.vertices[3 * k + 2], c)
}

/// A polygon is filled by the fan of triangles from its first point: after straight lines
/// from the start through `points`, there is one triangle for every line but the first, and
/// the one of the line from a point to the next has these two points and the start as its
/// corners. The path has got to the last point, and its contour starts where it started.
pub proof fn law_polygons_are_fans<F: Scalar>(start: Point<F>, points: Seq<Point<F>>)
    requires
        points.len() <= usize::MAX,
    ensures
        ({
            let path = lines_to(PathModel::spec_new(start), points);
            &&& path.start == start
            &&& path.current == if points.len() == 0 {
                start
            } else {
                points.last()
            }
            &&& path.contour_count == points.len()
            &&& path.vertices.len() == if points.len() == 0 {
                0
            } else {
                3 * (points.len() - 1)
            }
            &&& forall|k: int|
                0 <= k < points.len() - 1 ==> #[trigger] is_triangle(
                    path,
                    k,
                    start,
                    points[k],
                    points[k + 1],
                )
        }),
    decreases points.len(),
{
    if points.len() > 0 {
        let rest = points.drop_last();
        law_polygons_are_fans(start, rest);
        let before = lines_to(PathModel::spec_new(start), rest);
        let after = lines_to(PathModel::spec_new(start), points);
        assert(after == before.spec_line_to(points.last()));
        assert(before.contour_count == rest.len());
        assert(after.contour_count == points.len());
        assert(after.vertices.len() == 3 * (points.len() - 1));
        assert forall|k: int| 0 <= k < points.len() - 1 implies #[trigger] is_triangle(
            after,
            k,
            start,
            points[k],
            points[k + 1],
        ) by {
            if k < rest.len() - 1 {
                assert(is_triangle(before, k, start, rest[k], rest[k + 1]));
            } else {
                assert(rest.len() > 0);
                assert(before.current == points[k]);
                assert(before.vertices.len() == 3 * k);
            }
        }
        assert(after.current == points.last());
    }
}

/// What a path has drawn stays: another line, curve, triangle or move adds corners behind
/// those that are there, and changes none of them.
pub proof fn law_drawing_only_adds<F: Scalar>(
    path: PathModel<F>,
    to: Point<F>,
    ctrl: Point<F>,
    i: int,
)
    requires
        path.contour_count < usize::MAX,
        0 <= i < path.vertices.len(),
    ensures
        path.spec_move_to(to).vertices == path.vertices,
        path.spec_line_to(to).vertices[i] == path.vertices[i],
        path.spec_curve_to(to, ctrl).vertices[i] == path.vertices[i],
        path.spec_line_to(to).vertices.len() == path.vertices.len() + if path.contour_count > 0 {
            3int
        } else {
            0
        },
        path.spec_curve_to(to, ctrl).vertices.len() == path.vertices.len()
            + if path.contour_count > 0 {
            6int
        } else {
            3
        },
{
}

/// A line or a curve goes from where the path has got to; it ends at `to` and leaves the
/// start of the contour, the mask and the color alone. A move starts a contour at `to`.
pub proof fn law_segments_end_where_they_are_drawn_to<F: Scalar>(
    path: PathModel<F>,
    to: Point<F>,
    ctrl: Point<F>,
)
    requires
        path.contour_count < usize::MAX,
    ensures
        path.spec_line_to(to).current == to,
        path.spec_line_to(to).start == path.start,
        path.spec_curve_to(to, ctrl).current == to,
        path.spec_curve_to(to, ctrl).start == path.start,
        path.spec_move_to(to).current == to,
        path.spec_move_to(to).start == to,
        path.spec_move_to(to).bounds == path.bounds,
        path.spec_line_to(to).contour_count == path.contour_count + 1,
        path.spec_curve_to(to, ctrl).contour_count == path.contour_count + 1,
        path.spec_move_to(to).contour_count == path.contour_count + 1,
        path.spec_line_to(to).color == path.color,
        path.spec_curve_to(to, ctrl).color == path.color,
        path.spec_move_to(to).color == path.color,
        path.spec_line_to(to).content_mask == path.content_mask,
        path.spec_curve_to(to, ctrl).content_mask == path.content_mask,
        path.spec_move_to(to).content_mask == path.content_mask,
{
}

/// A curve is filled as the line to its end is, and by one more triangle, between its two
/// ends and its control point, which the curve from the first corner to the last bounds.
pub proof fn law_a_curve_is_a_line_and_its_bulge<F: Scalar>(
    path: PathModel<F>,
    to: Point<F>,
    ctrl: Point<F>,
)
    requires
        path.contour_count < usize::MAX,
    ensures
        ({
            let curve = path.spec_curve_to(to, ctrl).vertices;
            let line = path.spec_line_to(to).vertices;
            let n = line.len() as int;
            &&& curve.len() == n + 3
            &&& forall|i: int| 0 <= i < n ==> #[trigger] curve[i] == line[i]
            &&& curve[n].xy_position == path.current
            &&& curve[n + 1].xy_position == ctrl
            &&& curve[n + 2].xy_position == to
            &&& curve[n].st_position.x == spec_zero::<F>()
            &&& curve[n].st_position.y == spec_zero::<F>()
            &&& curve[n + 1].st_position.x == spec_one_half::<F>()
            &&& curve[n + 1].st_position.y == spec_zero::<F>()
            &&& curve[n + 2].st_position.x == spec_one::<F>()
            &&& curve[n + 2].st_position.y == spec_one::<F>()
        }),
{
}

/// A triangle's corners lie in the path's bounds from then on, and so does every point that
/// lay in them before.
pub proof fn law_bounds_take_in_every_corner<F: Scalar>(
    path: PathModel<F>,
    xy: (Point<F>, Point<F>, Point<F>),
    st: (Point<F>, Point<F>, Point<F>),
    point: Point<F>,
)
    requires
        ordered_exactly::<F>(),
    ensures
        reaches(path.bounds, point) ==> reaches(path.spec_push_triangle(xy, st).bounds, point),
        reaches(path.spec_push_triangle(xy, st).bounds, xy.0),
        reaches(path.spec_push_triangle(xy, st).bounds, xy.1),
        reaches(path.spec_push_triangle(xy, st).bounds, xy.2),
{
    let dot = |at: Point<F>| Bounds { origin: at, size: Size::<F>::spec_origin() };
    let first = path.bounds.spec_union(dot(xy.0));
    let second = first.spec_union(dot(xy.1));
    law_the_union_reaches_both(path.bounds, dot(xy.0), point);
    law_the_union_reaches_both(path.bounds, dot(xy.0), xy.0);
    law_the_union_reaches_both(first, dot(xy.1), point);
    law_the_union_reaches_both(first, dot(xy.1), xy.0);
    law_the_union_reaches_both(first, dot(xy.1), xy.1);
    law_the_union_reaches_both(second, dot(xy.2), point);
    law_the_union_reaches_both(second, dot(xy.2), xy.0);
    law_the_union_reaches_both(second, dot(xy.2), xy.1);
    law_the_union_reaches_both(second, dot(xy.2), xy.2);
    lemma_dot(xy.0);
    lemma_dot(xy.1);
    lemma_dot(xy.2);
}

proof fn lemma_dot<F: Scalar>(at: Point<F>)
    requires
        ordered_exactly::<F>(),
    ensures
        reaches(Bounds { origin: at, size: Size::<F>::spec_origin() }, at),
{
    assert(at.x.spec_plus(spec_zero()) == at.x);
    assert(at.y.spec_plus(spec_zero()) == at.y);
    assert(at.x.spec_le(at.x) && at.y.spec_le(at.y));
}

/// Scaling a path scales where its corners, its ends, its bounds and its mask are, and
/// nothing else about it.
pub proof fn law_scaling_scales_every_place<F: Scalar>(path: PathModel<F>, factor: F, i: int)
    requires
        0 <= i < path.vertices.len(),
    ensures
        ({
            let scaled = path.spec_scale(factor);
            let (before, after) = (path.vertices[i], scaled.vertices[i]);
            &&& scaled.vertices.len() == path.vertices.len()
            &&& after.xy_position.x == before.xy_position.x.spec_times(factor)
            &&& after.xy_position.y == before.xy_position.y.spec_times(factor)
            &&& after.st_position == before.st_position
            &&& after.content_mask.bounds.origin.x
                == before.content_mask.bounds.origin.x.spec_times(factor)
            &&& after.content_mask.bounds.origin.y
                == before.content_mask.bounds.origin.y.spec_times(factor)
            &&& after.content_mask.bounds.size.width
                == before.content_mask.bounds.size.width.spec_times(factor)
            &&& after.content_mask.bounds.size.height
                == before.content_mask.bounds.size.height.spec_times(factor)
            &&& scaled.start.x == path.start.x.spec_times(factor)
            &&& scaled.start.y == path.start.y.spec_times(factor)
            &&& scaled.current.x == path.current.x.spec_times(factor)
            &&& scaled.current.y == path.current.y.spec_times(factor)
            &&& scaled.bounds.origin.x == path.bounds.origin.x.spec_times(factor)
            &&& scaled.bounds.origin.y == path.bounds.origin.y.spec_times(factor)
            &&& scaled.bounds.size.width == path.bounds.size.width.spec_times(factor)
            &&& scaled.bounds.size.height == path.bounds.size.height.spec_times(factor)
            &&& scaled.content_mask.bounds.origin.x
                == path.content_mask.bounds.origin.x.spec_times(factor)
            &&& scaled.content_mask.bounds.origin.y
                == path.content_mask.bounds.origin.y.spec_times(factor)
            &&& scaled.content_mask.bounds.size.width
                == path.content_mask.bounds.size.width.spec_times(factor)
            &&& scaled.content_mask.bounds.size.height
                == path.content_mask.bounds.size.height.spec_times(factor)
            &&& scaled.contour_count == path.contour_count
            &&& scaled.order == path.order
            &&& scaled.id == path.id
            &&& scaled.color == path.color
        }),
{
}

} // verus!
