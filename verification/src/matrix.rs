use p3_baby_bear::BabyBear;
use p3_field::PrimeField32;
use p3_matrix::dense::RowMajorMatrix;
use p3_matrix::Matrix;
use vstd::prelude::*;

use crate::field::base::{reduce, ORDER};

verus! {

/// A dense row-major matrix over the base field.
#[verifier::external_body]
pub struct BaseMatrix {
    inner: RowMajorMatrix<BabyBear>,
}

/// The entries of a matrix, row after row, each by its canonical
/// representative.
pub uninterp spec fn matrix_values(m: BaseMatrix) -> Seq<u32>;

/// The number of columns of a matrix.
pub uninterp spec fn matrix_width(m: BaseMatrix) -> nat;

/// Whether `len` entries can be laid out in rows of `width` columns.
pub open spec fn fits_rows(len: nat, width: nat) -> bool {
    if width == 0 {
        len == 0
    } else {
        len % width == 0
    }
}

/// `RowMajorMatrix::new` on the field elements that `values` stand for:
/// the matrix holds them in order, each reduced, in rows of `width`.
#[verifier::external_body]
fn matrix_new(values: Vec<u32>, width: usize) -> (m: BaseMatrix)
    requires
        fits_rows(values@.len(), width as nat),
    ensures
        matrix_width(m) == width,
        matrix_values(m).len() == values@.len(),
        forall|i: int| 0 <= i < values@.len() ==> matrix_values(m)[i] == reduce(values@[i] as int),
{
    BaseMatrix { inner: RowMajorMatrix::new(values.into_iter().map(BabyBear::new).collect(), width) }
}

/// `Matrix::width` of a `RowMajorMatrix`.
#[verifier::external_body]
fn matrix_get_width(m: &BaseMatrix) -> (w: usize)
    ensures
        w == matrix_width(*m),
{
    m.inner.width()
}

/// `Matrix::height` of a `RowMajorMatrix`: the number of entries divided
/// by the width, and zero for a matrix without columns.
#[verifier::external_body]
fn matrix_get_height(m: &BaseMatrix) -> (h: usize)
    ensures
        h == spec_height(*m),
{
    m.inner.height()
}

/// `Matrix::get` of a `RowMajorMatrix` at a position inside the matrix:
/// the canonical representative of the entry in row `r` and column `c`.
#[verifier::external_body]
pub(crate) fn matrix_get(m: &BaseMatrix, r: usize, c: usize) -> (x: u32)
    requires
        r < spec_height(*m),
        c < matrix_width(*m),
    ensures
        x == spec_entry(*m, r as int, c as int),
        x < ORDER,
{
    m.inner.get(r, c).unwrap().as_canonical_u32()
}

/// The number of rows of a matrix.
pub open spec fn spec_height(m: BaseMatrix) -> nat {
    if matrix_width(m) == 0 {
        0
    } else {
        matrix_values(m).len() / matrix_width(m)
    }
}

/// The entry in row `r` and column `c`.
pub open spec fn spec_entry(m: BaseMatrix, r: int, c: int) -> u32 {
    matrix_values(m)[r * matrix_width(m) + c]
}

/// What has a number of rows and a number of columns.
pub trait MatrixDimensions {
    fn height(&self) -> usize;

    fn width(&self) -> usize;
}

impl MatrixDimensions for BaseMatrix {
    fn height(&self) -> (h: usize)
        ensures
            h == spec_height(*self),
    {
        matrix_get_height(self)
    }

    fn width(&self) -> (w: usize)
        ensures
            w == matrix_width(*self),
    {
        matrix_get_width(self)
    }
}

impl BaseMatrix {
    /// The matrix with the given entries, row after row, in rows of
    /// `width` columns.
    pub fn new(values: Vec<u32>, width: usize) -> (m: BaseMatrix)
        requires
            fits_rows(values@.len(), width as nat),
        ensures
            matrix_width(m) == width,
            matrix_values(m).len() == values@.len(),
            forall|i: int|
                0 <= i < values@.len() ==> #[trigger] matrix_values(m)[i] == reduce(
                    values@[i] as int,
                ),
    {
        matrix_new(values, width)
    }

    pub fn width(&self) -> (w: usize)
        ensures
            w == matrix_width(*self),
    {
        matrix_get_width(self)
    }

    pub fn height(&self) -> (h: usize)
        ensures
            h == spec_height(*self),
    {
        matrix_get_height(self)
    }

    /// The entries of the matrix, row after row.
    pub fn to_values(&self) -> (values: Vec<u32>)
        requires
            fits_rows(matrix_values(*self).len(), matrix_width(*self)),
            matrix_values(*self).len() <= usize::MAX,
        ensures
            values@ == matrix_values(*self),
    {
        let width = self.width();
        let height = self.height();
        let mut values: Vec<u32> = Vec::new();
        if width == 0 {
            assert(values@ =~= matrix_values(*self));
            return values;
        }
        assert(height * width == matrix_values(*self).len()) by (nonlinear_arith)
            requires
                width > 0,
                height == matrix_values(*self).len() / (width as nat),
                matrix_values(*self).len() % (width as nat) == 0,
        ;
        let mut r: usize = 0;
        while r < height
            invariant
                width == matrix_width(*self),
                width > 0,
                height == spec_height(*self),
                height * width == matrix_values(*self).len(),
                r <= height,
                values@.len() == r * width,
                forall|i: int| 0 <= i < values@.len() ==> values@[i] == matrix_values(*self)[i],
            decreases height - r,
        {
            let mut c: usize = 0;
            assert((r + 1) * width == r * width + width) by (nonlinear_arith);
            assert((r + 1) * width <= height * width) by (nonlinear_arith)
                requires
                    r + 1 <= height,
                    width > 0,
            ;
            while c < width
                invariant
                    width == matrix_width(*self),
                    height == spec_height(*self),
                    r < height,
                    c <= width,
                    r * width + width <= matrix_values(*self).len(),
                    values@.len() == r * width + c,
                    forall|i: int|
                        0 <= i < values@.len() ==> values@[i] == matrix_values(*self)[i],
                decreases width - c,
            {
                values.push(matrix_get(self, r, c));
                c += 1;
            }
            r += 1;
        }
        assert(values@ =~= matrix_values(*self));
        values
    }

    /// The entry in row `r` and column `c`, or `None` outside the matrix.
    pub fn get(&self, r: usize, c: usize) -> (x: Option<u32>)
        ensures
            x == (if r < spec_height(*self) && c < matrix_width(*self) {
                Some(spec_entry(*self, r as int, c as int))
            } else {
                None
            }),
    {
        if r < self.height() && c < self.width() {
            Some(matrix_get(self, r, c))
        } else {
            None
        }
    }
}

} // verus!
