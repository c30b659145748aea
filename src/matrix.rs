//! The matrix container and its elementwise operations.
use crate::ring::{cell_add, cell_sub, wrap};
use vstd::prelude::*;

verus! {

/// Why a matrix operation refused its operands.
#[derive(Debug, Clone, Copy, PartialEq, Eq, Structural)]
pub enum MatrixError {
    /// The operands' shapes do not fit the operation.
    DimensionMismatch,
    /// A quadrant split was asked of a matrix with an odd dimension.
    OddDimension,
    /// A padding target is smaller than the matrix.
    SizeTooSmall,
    /// Four quadrants whose shapes do not fit together.
    IncompatibleQuadrants,
    /// A quadrant number outside 1 to 4.
    InvalidQuadrant,
    /// A unit of parallel work failed.
    ParallelTaskFailure,
}

/// A dense row-major matrix of `i64` cells.
#[derive(Debug, Clone)]
pub struct Matrix {
    pub rows: usize,
    pub cols: usize,
    pub vals: Vec<Vec<i64>>,
}

impl View for Matrix {
    type V = Seq<Seq<i64>>;

    open spec fn view(&self) -> Seq<Seq<i64>> {
        self.vals@.map_values(|r: Vec<i64>| r@)
    }
}

impl Matrix {
    /// `vals` holds `rows` rows of `cols` cells each.
    pub open spec fn wf(&self) -> bool {
        &&& self.vals@.len() == self.rows
        &&& forall|i: int| 0 <= i < self.rows ==> #[trigger] self.vals@[i]@.len() == self.cols
    }

    /// The cell at row `i`, column `j`.
    pub open spec fn cell(&self, i: int, j: int) -> int {
        self.vals@[i]@[j] as int
    }

    /// Same shape and same cells.
    pub open spec fn same(&self, other: &Matrix) -> bool {
        &&& self.rows == other.rows
        &&& self.cols == other.cols
        &&& forall|i: int, j: int|
            0 <= i < self.rows && 0 <= j < self.cols ==> #[trigger] self.cell(i, j) == other.cell(i, j)
    }

    /// Two well-formed matrices with the same shape and cells have the same view.
    pub proof fn lemma_same_view(&self, other: &Matrix)
        requires
            self.wf(),
            other.wf(),
            self.same(other),
        ensures
            self@ == other@,
    {
        assert forall|i: int| 0 <= i < self.rows implies #[trigger] self@[i] == other@[i] by {
            assert forall|j: int| 0 <= j < self.cols implies self@[i][j] == other@[i][j] by {
                assert(self.cell(i, j) == other.cell(i, j));
            }
            assert(self@[i] =~= other@[i]);
        }
        assert(self@ =~= other@);
    }
}

/// `c` is the cellwise wrapped sum of `a` and `b`.
pub open spec fn is_sum(c: Matrix, a: Matrix, b: Matrix) -> bool {
    &&& c.wf()
    &&& c.rows == a.rows
    &&& c.cols == a.cols
    &&& forall|i: int, j: int|
        0 <= i < a.rows && 0 <= j < a.cols ==> #[trigger] c.cell(i, j) == wrap(a.cell(i, j) + b.cell(i, j))
}

/// `c` is the cellwise wrapped difference of `a` and `b`.
pub open spec fn is_difference(c: Matrix, a: Matrix, b: Matrix) -> bool {
    &&& c.wf()
    &&& c.rows == a.rows
    &&& c.cols == a.cols
    &&& forall|i: int, j: int|
        0 <= i < a.rows && 0 <= j < a.cols ==> #[trigger] c.cell(i, j) == wrap(a.cell(i, j) - b.cell(i, j))
}

/// `c` is the cellwise wrapped negation of `a`.
pub open spec fn is_negation(c: Matrix, a: Matrix) -> bool {
    &&& c.wf()
    &&& c.rows == a.rows
    &&& c.cols == a.cols
    &&& forall|i: int, j: int|
        0 <= i < a.rows && 0 <= j < a.cols ==> #[trigger] c.cell(i, j) == wrap(-a.cell(i, j))
}

impl Matrix {
    /// The cellwise sum of two matrices of one shape.
    pub fn add(&self, other: &Matrix) -> (r: Result<Matrix, MatrixError>)
        requires
            self.wf(),
            other.wf(),
        ensures
            r is Ok <==> (self.rows == other.rows && self.cols == other.cols),
            r is Err ==> r == Err::<Matrix, MatrixError>(MatrixError::DimensionMismatch),
            r is Ok ==> is_sum(r->Ok_0, *self, *other),
    {
        if self.rows != other.rows || self.cols != other.cols {
            return Err(MatrixError::DimensionMismatch);
        }
        let mut vals: Vec<Vec<i64>> = Vec::new();
        let mut i: usize = 0;
        while i < self.rows
            invariant
                self.wf(),
                other.wf(),
                self.rows == other.rows,
                self.cols == other.cols,
                i <= self.rows,
                vals@.len() == i,
                forall|r: int| 0 <= r < i ==> #[trigger] vals@[r]@.len() == self.cols,
                forall|r: int, c: int|
                    0 <= r < i && 0 <= c < self.cols ==> #[trigger] vals@[r]@[c] as int == wrap(
                        self.cell(r, c) + other.cell(r, c),
                    ),
            decreases self.rows - i,
        {
            let mut row: Vec<i64> = Vec::new();
            let mut j: usize = 0;
            while j < self.cols
                invariant
                    self.wf(),
                    other.wf(),
                    self.rows == other.rows,
                    self.cols == other.cols,
                    i < self.rows,
                    j <= self.cols,
                    row@.len() == j,
                    forall|c: int|
                        0 <= c < j ==> #[trigger] row@[c] as int == wrap(
                            self.cell(i as int, c) + other.cell(i as int, c),
                        ),
                decreases self.cols - j,
            {
                row.push(cell_add(self.vals[i][j], other.vals[i][j]));
                j += 1;
            }
            vals.push(row);
            i += 1;
        }
        Ok(Matrix { rows: self.rows, cols: self.cols, vals })
    }

    /// The cellwise difference of two matrices of one shape.
    pub fn sub(&self, other: &Matrix) -> (r: Result<Matrix, MatrixError>)
        requires
            self.wf(),
            other.wf(),
        ensures
            r is Ok <==> (self.rows == other.rows && self.cols == other.cols),
            r is Err ==> r == Err::<Matrix, MatrixError>(MatrixError::DimensionMismatch),
            r is Ok ==> is_difference(r->Ok_0, *self, *other),
    {
        if self.rows != other.rows || self.cols != other.cols {
            return Err(MatrixError::DimensionMismatch);
        }
        let mut vals: Vec<Vec<i64>> = Vec::new();
        let mut i: usize = 0;
        while i < self.rows
            invariant
                self.wf(),
                other.wf(),
                self.rows == other.rows,
                self.cols == other.cols,
                i <= self.rows,
                vals@.len() == i,
                forall|r: int| 0 <= r < i ==> #[trigger] vals@[r]@.len() == self.cols,
                forall|r: int, c: int|
                    0 <= r < i && 0 <= c < self.cols ==> #[trigger] vals@[r]@[c] as int == wrap(
                        self.cell(r, c) - other.cell(r, c),
                    ),
            decreases self.rows - i,
        {
            let mut row: Vec<i64> = Vec::new();
            let mut j: usize = 0;
            while j < self.cols
                invariant
                    self.wf(),
                    other.wf(),
                    self.rows == other.rows,
                    self.cols == other.cols,
                    i < self.rows,
                    j <= self.cols,
                    row@.len() == j,
                    forall|c: int|
                        0 <= c < j ==> #[trigger] row@[c] as int == wrap(
                            self.cell(i as int, c) - other.cell(i as int, c),
                        ),
                decreases self.cols - j,
            {
                row.push(cell_sub(self.vals[i][j], other.vals[i][j]));
                j += 1;
            }
            vals.push(row);
            i += 1;
        }
        Ok(Matrix { rows: self.rows, cols: self.cols, vals })
    }

    /// A matrix of `rows` rows and `cols` columns holding `vals`, refused
    /// when `vals` does not have that shape.
    pub fn from_vals(rows: usize, cols: usize, vals: Vec<Vec<i64>>) -> (r: Result<Matrix, MatrixError>)
        ensures
            r is Ok <==> (vals@.len() == rows && forall|i: int| 0 <= i < rows ==> #[trigger] vals@[i]@.len() == cols),
            r is Err ==> r == Err::<Matrix, MatrixError>(MatrixError::DimensionMismatch),
            r is Ok ==> r->Ok_0.wf() && r->Ok_0.rows == rows && r->Ok_0.cols == cols && r->Ok_0.vals@ == vals@,
    {
        if vals.len() != rows {
            return Err(MatrixError::DimensionMismatch);
        }
        let mut i: usize = 0;
        while i < rows
            invariant
                vals@.len() == rows,
                i <= rows,
                forall|x: int| 0 <= x < i ==> #[trigger] vals@[x]@.len() == cols,
            decreases rows - i,
        {
            if vals[i].len() != cols {
                return Err(MatrixError::DimensionMismatch);
            }
            i += 1;
        }
        Ok(Matrix { rows, cols, vals })
    }

    /// The cell at row `i`, column `j`.
    pub fn get(&self, i: usize, j: usize) -> (r: i64)
        requires
            self.wf(),
            i < self.rows,
            j < self.cols,
        ensures
            r as int == self.cell(i as int, j as int),
    {
        self.vals[i][j]
    }

    /// Overwrites the cell at row `i`, column `j` with `v`.
    pub fn set(&mut self, i: usize, j: usize, v: i64)
        requires
            old(self).wf(),
            i < old(self).rows,
            j < old(self).cols,
        ensures
            final(self).wf(),
            final(self).rows == old(self).rows,
            final(self).cols == old(self).cols,
            final(self)@ == old(self)@.update(i as int, old(self)@[i as int].update(j as int, v)),
    {
        let mut row = self.vals[i].clone();
        row.set(j, v);
        self.vals.set(i, row);
        assert(final(self)@ =~= old(self)@.update(i as int, old(self)@[i as int].update(j as int, v)));
    }

    /// The cellwise negation.
    pub fn negate(&self) -> (r: Matrix)
        requires
            self.wf(),
        ensures
            is_negation(r, *self),
    {
        let mut vals: Vec<Vec<i64>> = Vec::new();
        let mut i: usize = 0;
        while i < self.rows
            invariant
                self.wf(),
                i <= self.rows,
                vals@.len() == i,
                forall|r: int| 0 <= r < i ==> #[trigger] vals@[r]@.len() == self.cols,
                forall|r: int, c: int|
                    0 <= r < i && 0 <= c < self.cols ==> #[trigger] vals@[r]@[c] as int == wrap(
                        -self.cell(r, c),
                    ),
            decreases self.rows - i,
        {
            let mut row: Vec<i64> = Vec::new();
            let mut j: usize = 0;
            while j < self.cols
                invariant
                    self.wf(),
                    i < self.rows,
                    j <= self.cols,
                    row@.len() == j,
                    forall|c: int| 0 <= c < j ==> #[trigger] row@[c] as int == wrap(-self.cell(i as int, c)),
                decreases self.cols - j,
            {
                row.push(cell_sub(0, self.vals[i][j]));
                j += 1;
            }
            vals.push(row);
            i += 1;
        }
        Matrix { rows: self.rows, cols: self.cols, vals }
    }

    /// Whether two matrices have the same shape and the same cells.
    pub fn isequal(&self, other: &Matrix) -> (r: bool)
        requires
            self.wf(),
            other.wf(),
        ensures
            r == (self.rows == other.rows && self.cols == other.cols && self@ == other@),
    {
        if self.rows != other.rows || self.cols != other.cols {
            return false;
        }
        let mut i: usize = 0;
        while i < self.rows
            invariant
                self.wf(),
                other.wf(),
                self.rows == other.rows,
                self.cols == other.cols,
                i <= self.rows,
                forall|r: int, c: int|
                    0 <= r < i && 0 <= c < self.cols ==> #[trigger] self.cell(r, c) == other.cell(r, c),
            decreases self.rows - i,
        {
            let mut j: usize = 0;
            while j < self.cols
                invariant
                    self.wf(),
                    other.wf(),
                    self.rows == other.rows,
                    self.cols == other.cols,
                    i < self.rows,
                    j <= self.cols,
                    forall|r: int, c: int|
                        0 <= r < i && 0 <= c < self.cols ==> #[trigger] self.cell(r, c) == other.cell(r, c),
                    forall|c: int| 0 <= c < j ==> #[trigger] self.cell(i as int, c) == other.cell(i as int, c),
                decreases self.cols - j,
            {
                if self.vals[i][j] != other.vals[i][j] {
                    assert(self@[i as int][j as int] != other@[i as int][j as int]);
                    return false;
                }
                j += 1;
            }
            i += 1;
        }
        proof {
            self.lemma_same_view(other);
        }
        true
    }
}

} // verus!
