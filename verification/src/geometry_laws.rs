//! What rectangles share and cover, point by point.
use vstd::prelude::*;

use crate::geometry::{Bounds, ContentMask, Point};
use crate::scalar::{spec_zero, Scalar};

verus! {

/// Whether numbers are ordered as numbers are, and what is taken away can be added back.
pub open spec fn ordered_exactly<F: Scalar>() -> bool {
    &&& forall|a: F| #[trigger] a.spec_le(a)
    &&& forall|a: F, b: F, c: F|
        #![trigger a.spec_le(b), b.spec_le(c)]
        a.spec_le(b) && b.spec_le(c) ==> a.spec_le(c)
    &&& forall|a: F, b: F| #[trigger] a.spec_le(b) || b.spec_le(a)
    &&& forall|a: F, b: F| #[trigger] a.spec_lt(b) <==> !b.spec_le(a)
    &&& forall|a: F, b: F| #[trigger] a.spec_plus(b.spec_minus(a)) == b
    &&& forall|a: F, b: F| #[trigger] b.spec_minus(a).spec_le(spec_zero()) <==> b.spec_le(a)
    &&& forall|a: F, b: F|
        #[trigger] b.spec_le(spec_zero()) <==> #[trigger] a.spec_plus(b).spec_le(a)
    &&& forall|a: F| #[trigger] a.spec_plus(spec_zero()) == a
}

/// Whether a rectangle holds a point: its left and top edges belong to it, the others do not.
pub open spec fn holds<F: Scalar>(bounds: Bounds<F>, point: Point<F>) -> bool {
    &&& bounds.origin.x.spec_le(point.x)
    &&& point.x.spec_lt(bounds.origin.x.spec_plus(bounds.size.width))
    &&& bounds.origin.y.spec_le(point.y)
    &&& point.y.spec_lt(bounds.origin.y.spec_plus(bounds.size.height))
}

/// What two rectangles share holds exactly the points that both hold.
pub proof fn law_the_intersection_is_what_both_hold<F: Scalar>(
    a: Bounds<F>,
    b: Bounds<F>,
    point: Point<F>,
)
    requires
        ordered_exactly::<F>(),
    ensures
        holds(a.spec_intersect(b), point) <==> holds(a, point) && holds(b, point),
{
    let c = a.spec_intersect(b);
    lemma_shared_span(a.origin.x, a.size.width, b.origin.x, b.size.width, c.origin.x, c.size.width, point.x);
    lemma_shared_span(a.origin.y, a.size.height, b.origin.y, b.size.height, c.origin.y, c.size.height, point.y);
}

proof fn lemma_shared_span<F: Scalar>(a: F, wa: F, b: F, wb: F, c: F, wc: F, x: F)
    requires
        ordered_exactly::<F>(),
        c == crate::geometry::spec_upper(a, b),
        wc == crate::geometry::spec_upper(
            crate::geometry::spec_lower(a.spec_plus(wa), b.spec_plus(wb)),
            c,
        ).spec_minus(c),
    ensures
        c.spec_le(x) && x.spec_lt(c.spec_plus(wc)) <==> a.spec_le(x) && x.spec_lt(a.spec_plus(wa))
            && b.spec_le(x) && x.spec_lt(b.spec_plus(wb)),
{
    let low = crate::geometry::spec_lower(a.spec_plus(wa), b.spec_plus(wb));
    let end = crate::geometry::spec_upper(low, c);
    assert(c.spec_plus(end.spec_minus(c)) == end);
    let (ea, eb) = (a.spec_plus(wa), b.spec_plus(wb));
    assert(ea.spec_le(eb) || eb.spec_le(ea));
    assert(a.spec_le(b) || b.spec_le(a));
    assert(low.spec_le(c) || c.spec_le(low));
    assert(a.spec_le(c) && b.spec_le(c));
    assert(low.spec_le(ea) && low.spec_le(eb));
    assert(low.spec_le(x) || x.spec_le(low));
    assert(x.spec_lt(low) <==> !low.spec_le(x));
    assert(x.spec_lt(ea) <==> !ea.spec_le(x));
    assert(x.spec_lt(eb) <==> !eb.spec_le(x));
    assert(x.spec_lt(end) <==> !end.spec_le(x));
    assert(end.spec_le(end) && c.spec_le(end) && low.spec_le(end));
}

/// A rectangle is empty exactly if it holds no point; else it holds its corner.
pub proof fn law_empty_rectangles_hold_nothing<F: Scalar>(a: Bounds<F>, point: Point<F>)
    requires
        ordered_exactly::<F>(),
    ensures
        a.spec_is_empty() ==> !holds(a, point),
        !a.spec_is_empty() ==> holds(a, a.origin),
{
    let (right, bottom) = (a.origin.x.spec_plus(a.size.width), a.origin.y.spec_plus(a.size.height));
    assert(a.origin.x.spec_le(a.origin.x) && a.origin.y.spec_le(a.origin.y));
    assert(a.size.width.spec_le(spec_zero()) <==> right.spec_le(a.origin.x));
    assert(a.size.height.spec_le(spec_zero()) <==> bottom.spec_le(a.origin.y));
    assert(point.x.spec_lt(right) <==> !right.spec_le(point.x));
    assert(point.y.spec_lt(bottom) <==> !bottom.spec_le(point.y));
    assert(a.origin.x.spec_lt(right) <==> !right.spec_le(a.origin.x));
    assert(a.origin.y.spec_lt(bottom) <==> !bottom.spec_le(a.origin.y));
}

/// Two rectangles overlap exactly if both hold some point, where neither is empty: the corner
/// of what they share is one, and rectangles that hold a common point overlap.
pub proof fn law_rectangles_overlap_where_both_hold_a_point<F: Scalar>(
    a: Bounds<F>,
    b: Bounds<F>,
    point: Point<F>,
)
    requires
        ordered_exactly::<F>(),
    ensures
        holds(a, point) && holds(b, point) ==> a.spec_intersects(b),
        a.spec_intersects(b) && !a.spec_is_empty() && !b.spec_is_empty() ==> {
            let corner = Point {
                x: if a.origin.x.spec_le(b.origin.x) {
                    b.origin.x
                } else {
                    a.origin.x
                },
                y: if a.origin.y.spec_le(b.origin.y) {
                    b.origin.y
                } else {
                    a.origin.y
                },
            };
            holds(a, corner) && holds(b, corner)
        },
        a.spec_intersects(b) == b.spec_intersects(a),
{
    let (ar, ab) = (a.origin.x.spec_plus(a.size.width), a.origin.y.spec_plus(a.size.height));
    let (br, bb) = (b.origin.x.spec_plus(b.size.width), b.origin.y.spec_plus(b.size.height));
    law_empty_rectangles_hold_nothing(a, a.origin);
    law_empty_rectangles_hold_nothing(b, b.origin);
    assert(a.origin.x.spec_lt(br) <==> !br.spec_le(a.origin.x));
    assert(b.origin.x.spec_lt(ar) <==> !ar.spec_le(b.origin.x));
    assert(a.origin.y.spec_lt(bb) <==> !bb.spec_le(a.origin.y));
    assert(b.origin.y.spec_lt(ab) <==> !ab.spec_le(b.origin.y));
    assert(point.x.spec_lt(ar) <==> !ar.spec_le(point.x));
    assert(point.x.spec_lt(br) <==> !br.spec_le(point.x));
    assert(point.y.spec_lt(ab) <==> !ab.spec_le(point.y));
    assert(point.y.spec_lt(bb) <==> !bb.spec_le(point.y));
    assert(a.origin.x.spec_le(b.origin.x) || b.origin.x.spec_le(a.origin.x));
    assert(a.origin.y.spec_le(b.origin.y) || b.origin.y.spec_le(a.origin.y));
    assert(a.origin.x.spec_le(a.origin.x) && b.origin.x.spec_le(b.origin.x));
    assert(a.origin.y.spec_le(a.origin.y) && b.origin.y.spec_le(b.origin.y));
}

/// Whether a point lies within a rectangle, its edges included.
pub open spec fn reaches<F: Scalar>(bounds: Bounds<F>, point: Point<F>) -> bool {
    &&& bounds.origin.x.spec_le(point.x)
    &&& point.x.spec_le(bounds.origin.x.spec_plus(bounds.size.width))
    &&& bounds.origin.y.spec_le(point.y)
    &&& point.y.spec_le(bounds.origin.y.spec_plus(bounds.size.height))
}

/// The rectangle around two reaches every point that one of them reaches, and its edges are
/// edges of theirs, so that none is smaller.
pub proof fn law_the_union_reaches_both<F: Scalar>(a: Bounds<F>, b: Bounds<F>, point: Point<F>)
    requires
        ordered_exactly::<F>(),
    ensures
        reaches(a, point) || reaches(b, point) ==> reaches(a.spec_union(b), point),
        ({
            let c = a.spec_union(b);
            let (ar, br) = (
                a.origin.x.spec_plus(a.size.width),
                b.origin.x.spec_plus(b.size.width),
            );
            let (ab, bb) = (
                a.origin.y.spec_plus(a.size.height),
                b.origin.y.spec_plus(b.size.height),
            );
            let (cr, cb) = (
                c.origin.x.spec_plus(c.size.width),
                c.origin.y.spec_plus(c.size.height),
            );
            &&& c.origin.x == a.origin.x || c.origin.x == b.origin.x
            &&& c.origin.y == a.origin.y || c.origin.y == b.origin.y
            &&& cr == ar || cr == br
            &&& cb == ab || cb == bb
        }),
{
    let c = a.spec_union(b);
    lemma_joint_span(a.origin.x, a.size.width, b.origin.x, b.size.width, c.origin.x, c.size.width, point.x);
    lemma_joint_span(a.origin.y, a.size.height, b.origin.y, b.size.height, c.origin.y, c.size.height, point.y);
}

proof fn lemma_joint_span<F: Scalar>(a: F, wa: F, b: F, wb: F, c: F, wc: F, x: F)
    requires
        ordered_exactly::<F>(),
        c == crate::geometry::spec_lower(a, b),
        wc == crate::geometry::spec_upper(a.spec_plus(wa), b.spec_plus(wb)).spec_minus(c),
    ensures
        a.spec_le(x) && x.spec_le(a.spec_plus(wa)) ==> c.spec_le(x) && x.spec_le(c.spec_plus(wc)),
        b.spec_le(x) && x.spec_le(b.spec_plus(wb)) ==> c.spec_le(x) && x.spec_le(c.spec_plus(wc)),
        c == a || c == b,
        c.spec_plus(wc) == a.spec_plus(wa) || c.spec_plus(wc) == b.spec_plus(wb),
{
    let (ea, eb) = (a.spec_plus(wa), b.spec_plus(wb));
    let end = crate::geometry::spec_upper(ea, eb);
    assert(c.spec_plus(end.spec_minus(c)) == end);
    assert(ea.spec_le(eb) || eb.spec_le(ea));
    assert(a.spec_le(b) || b.spec_le(a));
    assert(c.spec_le(a) && c.spec_le(b));
    assert(ea.spec_le(end) && eb.spec_le(end));
}

/// Scaling a rectangle scales its corner and its extents alike, so that, where multiplying
/// can be spread over a sum, every corner lands where scaling takes it.
pub proof fn law_scaling_moves_every_corner<F: Scalar>(bounds: Bounds<F>, factor: F)
    ensures
        ({
            let scaled = bounds.spec_scale(factor);
            &&& scaled.origin.x == bounds.origin.x.spec_times(factor)
            &&& scaled.origin.y == bounds.origin.y.spec_times(factor)
            &&& scaled.size.width == bounds.size.width.spec_times(factor)
            &&& scaled.size.height == bounds.size.height.spec_times(factor)
            &&& (ContentMask { bounds }).spec_scale(factor).bounds == scaled
            &&& (forall|a: F, b: F|
                #[trigger] a.spec_plus(b).spec_times(factor) == a.spec_times(factor).spec_plus(
                    b.spec_times(factor),
                )) ==> scaled.spec_bottom_right().x == bounds.origin.x.spec_plus(
                bounds.size.width,
            ).spec_times(factor) && scaled.spec_bottom_right().y == bounds.origin.y.spec_plus(
                bounds.size.height,
            ).spec_times(factor)
        }),
{
}

/// A rectangle reaches from the one corner that it is made of to the other.
pub proof fn law_rectangles_span_their_corners<F: Scalar>(
    top_left: Point<F>,
    bottom_right: Point<F>,
)
    requires
        ordered_exactly::<F>(),
    ensures
        ({
            let bounds = Bounds::spec_from_corners(top_left, bottom_right);
            &&& bounds.origin == top_left
            &&& bounds.spec_bottom_right() == bottom_right
            &&& bounds.origin.x.spec_plus(bounds.size.width) == bottom_right.x
            &&& bounds.origin.y.spec_plus(bounds.size.height) == bottom_right.y
        }),
{
}

/// Points add, subtract, scale and compare coordinate by coordinate.
pub proof fn law_coordinates_are_apart<F: Scalar>(a: Point<F>, b: Point<F>, factor: F)
    requires
        ordered_exactly::<F>(),
    ensures
        a.spec_plus(b.spec_minus(a)) == b,
        a.spec_plus(Point { y: spec_zero(), ..b }) == (Point { x: a.x.spec_plus(b.x), ..a }),
        a.spec_plus(Point { x: spec_zero(), ..b }) == (Point { y: a.y.spec_plus(b.y), ..a }),
        a.spec_scale(factor).x == a.x.spec_times(factor),
        a.spec_scale(factor).y == a.y.spec_times(factor),
        a.x.spec_le(a.spec_upper(b).x) && b.x.spec_le(a.spec_upper(b).x),
        a.y.spec_le(a.spec_upper(b).y) && b.y.spec_le(a.spec_upper(b).y),
        a.spec_lower(b).x.spec_le(a.x) && a.spec_lower(b).x.spec_le(b.x),
        a.spec_lower(b).y.spec_le(a.y) && a.spec_lower(b).y.spec_le(b.y),
        a.spec_upper(b).x == a.x || a.spec_upper(b).x == b.x,
        a.spec_upper(b).y == a.y || a.spec_upper(b).y == b.y,
        a.spec_lower(b).x == a.x || a.spec_lower(b).x == b.x,
        a.spec_lower(b).y == a.y || a.spec_lower(b).y == b.y,
{
}

} // verus!
