//! Transformations of the plane.
use vstd::prelude::*;

use crate::geometry::{Point, Size};
use crate::scalar::{one, spec_one, spec_zero, zero, Scalar};

verus! {

/// A data type representing a 2 dimensional transformation that can be applied to an element.
#[derive(Debug, Clone, Copy, PartialEq)]
pub struct TransformationMatrix<F> {
    /// 2x2 matrix containing rotation and scale,
    /// stored row-major
    pub rotation_scale: [[F; 2]; 2],
    /// translation vector
    pub translation: [F; 2],
}

impl<F: Scalar> TransformationMatrix<F> {
    /// The entry of the 2x2 matrix in `row` and `column`.
    pub open spec fn cell(self, row: int, column: int) -> F {
        self.rotation_scale@[row]@[column]
    }

    /// Whether the matrix has these entries.
    pub open spec fn reads(self, a: F, b: F, c: F, d: F, x: F, y: F) -> bool {
        &&& self.cell(0, 0) == a
        &&& self.cell(0, 1) == b
        &&& self.cell(1, 0) == c
        &&& self.cell(1, 1) == d
        &&& self.translation@[0] == x
        &&& self.translation@[1] == y
    }

    /// Whether the matrix compares equal to the unit matrix.
    pub open spec fn spec_is_unit(self) -> bool {
        &&& self.cell(0, 0).spec_same(spec_one())
        &&& self.cell(0, 1).spec_same(spec_zero())
        &&& self.cell(1, 0).spec_same(spec_zero())
        &&& self.cell(1, 1).spec_same(spec_one())
        &&& self.translation@[0].spec_same(spec_zero())
        &&& self.translation@[1].spec_same(spec_zero())
    }

    /// The entry of the matrix product of `self` and `other` in `row` and
    /// `column`.
    pub open spec fn product_cell(self, other: Self, row: int, column: int) -> F {
        self.cell(row, 0).spec_times(other.cell(0, column)).spec_plus(
            self.cell(row, 1).spec_times(other.cell(1, column)),
        )
    }

    /// Where the point `(x, y)` lands, in `row`.
    pub open spec fn image(self, x: F, y: F, row: int) -> F {
        self.translation@[row].spec_plus(self.cell(row, 0).spec_times(x)).spec_plus(
            self.cell(row, 1).spec_times(y),
        )
    }

    /// Whether `result` is the transformation that applies `other` and then `self`.
    pub open spec fn composes(self, other: Self, result: Self) -> bool {
        if other.spec_is_unit() {
            result == self
        } else {
            result.reads(
                self.product_cell(other, 0, 0),
                self.product_cell(other, 0, 1),
                self.product_cell(other, 1, 0),
                self.product_cell(other, 1, 1),
                self.image(other.translation@[0], other.translation@[1], 0),
                self.image(other.translation@[0], other.translation@[1], 1),
            )
        }
    }

    /// The unit matrix, has no effect.
    pub fn unit() -> (result: Self)
        ensures
            result.reads(
                spec_one(),
                spec_zero(),
                spec_zero(),
                spec_one(),
                spec_zero(),
                spec_zero(),
            ),
    {
        Self { rotation_scale: [[one(), zero()], [zero(), one()]], translation: [zero(), zero()] }
    }

    /// Move the origin by a given point
    pub fn translate(self, point: Point<F>) -> (result: Self)
        ensures
            exists|other: Self| #[trigger]
                self.composes(other, result) && other.reads(
                    spec_one(),
                    spec_zero(),
                    spec_zero(),
                    spec_one(),
                    point.x,
                    point.y,
                ),
    {
        self.compose(
            Self {
                rotation_scale: [[one(), zero()], [zero(), one()]],
                translation: [point.x, point.y],
            },
        )
    }

    /// Clockwise rotation around the origin, by the angle of this cosine and sine
    pub fn rotate(self, cosine: F, sine: F) -> (result: Self)
        ensures
            exists|other: Self| #[trigger]
                self.composes(other, result) && other.reads(
                    cosine,
                    sine.spec_negated(),
                    sine,
                    cosine,
                    spec_zero(),
                    spec_zero(),
                ),
    {
        self.compose(
            Self {
                rotation_scale: [[cosine, sine.negated()], [sine, cosine]],
                translation: [zero(), zero()],
            },
        )
    }

    /// Scale around the origin
    pub fn scale(self, size: Size<F>) -> (result: Self)
        ensures
            exists|other: Self| #[trigger]
                self.composes(other, result) && other.reads(
                    size.width,
                    spec_zero(),
                    spec_zero(),
                    size.height,
                    spec_zero(),
                    spec_zero(),
                ),
    {
        self.compose(
            Self {
                rotation_scale: [[size.width, zero()], [zero(), size.height]],
                translation: [zero(), zero()],
            },
        )
    }

    fn is_unit(&self) -> (result: bool)
        ensures
            result == self.spec_is_unit(),
    {
        self.rotation_scale[0][0].same(one()) && self.rotation_scale[0][1].same(zero())
            && self.rotation_scale[1][0].same(zero()) && self.rotation_scale[1][1].same(one())
            && self.translation[0].same(zero()) && self.translation[1].same(zero())
    }

    fn multiplied_cell(&self, other: &Self, row: usize, column: usize) -> (result: F)
        requires
            row < 2,
            column < 2,
        ensures
            result == self.product_cell(*other, row as int, column as int),
    {
        self.rotation_scale[row][0].times(other.rotation_scale[0][column]).plus(
            self.rotation_scale[row][1].times(other.rotation_scale[1][column]),
        )
    }

    fn image_of(&self, x: F, y: F, row: usize) -> (result: F)
        requires
            row < 2,
        ensures
            result == self.image(x, y, row as int),
    {
        self.translation[row].plus(self.rotation_scale[row][0].times(x)).plus(
            self.rotation_scale[row][1].times(y),
        )
    }

    /// Perform matrix multiplication with another transformation
    /// to produce a new transformation that is the result of
    /// applying both transformations: first, `other`, then `self`.
    pub fn compose(self, other: TransformationMatrix<F>) -> (result: TransformationMatrix<F>)
        ensures
            self.composes(other, result),
    {
        if other.is_unit() {
            return self;
        }
        let x = other.translation[0];
        let y = other.translation[1];
        TransformationMatrix {
            rotation_scale: [
                [self.multiplied_cell(&other, 0, 0), self.multiplied_cell(&other, 0, 1)],
                [self.multiplied_cell(&other, 1, 0), self.multiplied_cell(&other, 1, 1)],
            ],
            translation: [self.image_of(x, y, 0), self.image_of(x, y, 1)],
        }
    }

    /// Apply transformation to a point, mainly useful for debugging
    pub fn apply(&self, point: Point<F>) -> (result: Point<F>)
        ensures
            result.x == self.image(point.x, point.y, 0),
            result.y == self.image(point.x, point.y, 1),
    {
        Point {
            x: self.image_of(point.x, point.y, 0),
            y: self.image_of(point.x, point.y, 1),
        }
    }
}

impl<F: Scalar> Default for TransformationMatrix<F> {
    fn default() -> (result: Self)
        ensures
            result.reads(
                spec_one(),
                spec_zero(),
                spec_zero(),
                spec_one(),
                spec_zero(),
                spec_zero(),
            ),
    {
        Self::unit()
    }
}

/// Whether numbers are added and multiplied without rounding or overflow.
pub open spec fn arithmetic_is_exact<F: Scalar>() -> bool {
    &&& forall|a: F, b: F| #[trigger] a.spec_plus(b) == b.spec_plus(a)
    &&& forall|a: F, b: F, c: F| #[trigger]
        a.spec_plus(b).spec_plus(c) == a.spec_plus(b.spec_plus(c))
    &&& forall|a: F, b: F, c: F| #[trigger]
        a.spec_times(b).spec_times(c) == a.spec_times(b.spec_times(c))
    &&& forall|a: F, b: F, c: F| #[trigger]
        a.spec_times(b.spec_plus(c)) == a.spec_times(b).spec_plus(a.spec_times(c))
    &&& forall|a: F, b: F, c: F| #[trigger]
        a.spec_plus(b).spec_times(c) == a.spec_times(c).spec_plus(b.spec_times(c))
    &&& forall|a: F, b: F| #[trigger] a.spec_same(b) ==> a == b
    &&& forall|a: F| #[trigger] spec_one::<F>().spec_times(a) == a
    &&& forall|a: F| #[trigger] spec_zero::<F>().spec_times(a) == spec_zero::<F>()
    &&& forall|a: F| #[trigger] a.spec_plus(spec_zero()) == a
    &&& forall|a: F| #[trigger] spec_zero::<F>().spec_plus(a) == a
}

/// Two ways to add up the same numbers.
proof fn lemma_sums<F: Scalar>(t: F, a: F, b: F, c: F, d: F, e: F, f: F)
    requires
        arithmetic_is_exact::<F>(),
    ensures
        t.spec_plus(a).spec_plus(b).spec_plus(c.spec_plus(d)).spec_plus(e.spec_plus(f))
            == t.spec_plus(a.spec_plus(c).spec_plus(e)).spec_plus(
            b.spec_plus(d).spec_plus(f),
        ),
{
    let ta = t.spec_plus(a);
    // t + a + b + (c + d) = t + a + c + (b + d)
    assert(ta.spec_plus(b).spec_plus(c.spec_plus(d)) == ta.spec_plus(
        b.spec_plus(c.spec_plus(d)),
    ));
    assert(b.spec_plus(c.spec_plus(d)) == b.spec_plus(c).spec_plus(d));
    assert(b.spec_plus(c) == c.spec_plus(b));
    assert(c.spec_plus(b).spec_plus(d) == c.spec_plus(b.spec_plus(d)));
    let tac = ta.spec_plus(c);
    let bd = b.spec_plus(d);
    assert(ta.spec_plus(c.spec_plus(bd)) == tac.spec_plus(bd));
    // t + a + c + (b + d) + (e + f) = t + a + c + e + (b + d + f)
    assert(tac.spec_plus(bd).spec_plus(e.spec_plus(f)) == tac.spec_plus(
        bd.spec_plus(e.spec_plus(f)),
    ));
    assert(bd.spec_plus(e.spec_plus(f)) == bd.spec_plus(e).spec_plus(f));
    assert(bd.spec_plus(e) == e.spec_plus(bd));
    assert(e.spec_plus(bd).spec_plus(f) == e.spec_plus(bd.spec_plus(f)));
    assert(tac.spec_plus(e.spec_plus(bd.spec_plus(f))) == tac.spec_plus(e).spec_plus(
        bd.spec_plus(f),
    ));
    // t + a + c + e = t + (a + c + e)
    assert(ta.spec_plus(c) == t.spec_plus(a.spec_plus(c)));
    assert(tac.spec_plus(e) == t.spec_plus(a.spec_plus(c).spec_plus(e)));
}

/// Where arithmetic is exact, composing two transformations and applying the result
/// is applying first the second, then the first.
pub proof fn law_composing_applies_both<F: Scalar>(
    matrix: TransformationMatrix<F>,
    other: TransformationMatrix<F>,
    result: TransformationMatrix<F>,
    x: F,
    y: F,
    row: int,
)
    requires
        arithmetic_is_exact::<F>(),
        matrix.composes(other, result),
        row == 0 || row == 1,
    ensures
        result.image(x, y, row) == matrix.image(
            other.image(x, y, 0),
            other.image(x, y, 1),
            row,
        ),
{
    if other.spec_is_unit() {
        let zero = spec_zero::<F>();
        let one = spec_one::<F>();
        assert(other.image(x, y, 0) == zero.spec_plus(one.spec_times(x)).spec_plus(
            zero.spec_times(y),
        ));
        assert(other.image(x, y, 1) == zero.spec_plus(zero.spec_times(x)).spec_plus(
            one.spec_times(y),
        ));
        assert(zero.spec_plus(x) == x);
        assert(x.spec_plus(zero) == x);
        assert(zero.spec_plus(zero) == zero);
        assert(zero.spec_plus(y) == y);
    } else {
        let p = matrix.cell(row, 0);
        let q = matrix.cell(row, 1);
        let t0 = other.translation@[0];
        let t1 = other.translation@[1];
        let (b00, b01) = (other.cell(0, 0), other.cell(0, 1));
        let (b10, b11) = (other.cell(1, 0), other.cell(1, 1));
        let a = p.spec_times(t0);
        let b = q.spec_times(t1);
        let c = p.spec_times(b00.spec_times(x));
        let d = q.spec_times(b10.spec_times(x));
        let e = p.spec_times(b01.spec_times(y));
        let f = q.spec_times(b11.spec_times(y));
        // The columns of the product.
        assert(result.cell(row, 0) == p.spec_times(b00).spec_plus(q.spec_times(b10)));
        assert(result.cell(row, 1) == p.spec_times(b01).spec_plus(q.spec_times(b11)));
        assert(result.cell(row, 0).spec_times(x) == p.spec_times(b00).spec_times(x).spec_plus(
            q.spec_times(b10).spec_times(x),
        ));
        assert(result.cell(row, 1).spec_times(y) == p.spec_times(b01).spec_times(y).spec_plus(
            q.spec_times(b11).spec_times(y),
        ));
        assert(result.cell(row, 0).spec_times(x) == c.spec_plus(d));
        assert(result.cell(row, 1).spec_times(y) == e.spec_plus(f));
        assert(result.translation@[row] == matrix.translation@[row].spec_plus(a).spec_plus(b));
        // The image of the image.
        let inner_0 = t0.spec_plus(b00.spec_times(x));
        let inner_1 = t1.spec_plus(b10.spec_times(x));
        assert(p.spec_times(inner_0.spec_plus(b01.spec_times(y))) == p.spec_times(
            inner_0,
        ).spec_plus(e));
        assert(p.spec_times(inner_0) == a.spec_plus(c));
        assert(q.spec_times(inner_1.spec_plus(b11.spec_times(y))) == q.spec_times(
            inner_1,
        ).spec_plus(f));
        assert(q.spec_times(inner_1) == b.spec_plus(d));
        lemma_sums(matrix.translation@[row], a, b, c, d, e, f);
    }
}

/// Whether adding zero and multiplying by one change nothing, zero times anything is
/// zero, and zero and one compare equal to themselves alone.
pub open spec fn units_are_neutral<F: Scalar>() -> bool {
    &&& forall|a: F| #[trigger] spec_one::<F>().spec_times(a) == a
    &&& forall|a: F| #[trigger] spec_zero::<F>().spec_times(a) == spec_zero::<F>()
    &&& forall|a: F| #[trigger] a.spec_plus(spec_zero()) == a
    &&& forall|a: F| #[trigger] spec_zero::<F>().spec_plus(a) == a
    &&& forall|a: F| #[trigger] a.spec_same(spec_one()) <==> a == spec_one::<F>()
    &&& forall|a: F| #[trigger] a.spec_same(spec_zero()) <==> a == spec_zero::<F>()
}

/// Composing a transformation with the unit, on either side, gives the transformation.
pub proof fn law_the_unit_changes_nothing<F: Scalar>(
    unit: TransformationMatrix<F>,
    matrix: TransformationMatrix<F>,
    right: TransformationMatrix<F>,
    left: TransformationMatrix<F>,
)
    requires
        units_are_neutral::<F>(),
        unit.reads(spec_one(), spec_zero(), spec_zero(), spec_one(), spec_zero(), spec_zero()),
        matrix.composes(unit, right),
        unit.composes(matrix, left),
    ensures
        right == matrix,
        left.reads(
            matrix.cell(0, 0),
            matrix.cell(0, 1),
            matrix.cell(1, 0),
            matrix.cell(1, 1),
            matrix.translation@[0],
            matrix.translation@[1],
        ),
{
    assert(unit.spec_is_unit());
}

} // verus!
