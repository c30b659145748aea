//! Quadrants, padding and cropping: the geometry that Strassen's method needs.
use crate::matrix::{Matrix, MatrixError};
use vstd::prelude::*;

verus! {

/// The first row of quadrant `k` in a matrix of `rows` rows.
pub open spec fn quad_row_start(k: int, rows: int) -> int {
    if k == 3 || k == 4 {
        rows / 2
    } else {
        0
    }
}

/// The first column of quadrant `k` in a matrix of `cols` columns.
pub open spec fn quad_col_start(k: int, cols: int) -> int {
    if k == 2 || k == 4 {
        cols / 2
    } else {
        0
    }
}

/// `q` is quadrant `k` of `m`: 1 top-left, 2 top-right, 3 bottom-left, 4 bottom-right.
pub open spec fn is_quadrant(q: Matrix, m: Matrix, k: int) -> bool {
    &&& q.wf()
    &&& q.rows == m.rows / 2
    &&& q.cols == m.cols / 2
    &&& forall|i: int, j: int|
        0 <= i < q.rows && 0 <= j < q.cols ==> #[trigger] q.cell(i, j) == m.cell(
            i + quad_row_start(k, m.rows as int),
            j + quad_col_start(k, m.cols as int),
        )
}

/// `c` lays `a | b` above `x | d`.
pub open spec fn is_combination(c: Matrix, a: Matrix, b: Matrix, x: Matrix, d: Matrix) -> bool {
    &&& c.wf()
    &&& c.rows == a.rows + x.rows
    &&& c.cols == a.cols + b.cols
    &&& forall|i: int, j: int|
        0 <= i < c.rows && 0 <= j < c.cols ==> #[trigger] c.cell(i, j) == if i < a.rows {
            if j < a.cols {
                a.cell(i, j)
            } else {
                b.cell(i, j - a.cols)
            }
        } else {
            if j < a.cols {
                x.cell(i - a.rows, j)
            } else {
                d.cell(i - a.rows, j - a.cols)
            }
        }
}

/// `p` is `m` extended with zero cells to `n` rows and `n` columns.
pub open spec fn is_padding(p: Matrix, m: Matrix, n: int) -> bool {
    &&& p.wf()
    &&& p.rows == n
    &&& p.cols == n
    &&& forall|i: int, j: int|
        0 <= i < n && 0 <= j < n ==> #[trigger] p.cell(i, j) == if i < m.rows && j < m.cols {
            m.cell(i, j)
        } else {
            0
        }
}

/// `t` is the top-left `rows` by `cols` region of `m`.
pub open spec fn is_crop(t: Matrix, m: Matrix, rows: int, cols: int) -> bool {
    &&& t.wf()
    &&& t.rows == rows
    &&& t.cols == cols
    &&& forall|i: int, j: int|
        0 <= i < rows && 0 <= j < cols ==> #[trigger] t.cell(i, j) == m.cell(i, j)
}

impl Matrix {
    /// The cells of rows `r1..r2` and columns `c1..c2`, as rows.
    pub fn get_vec_part(&self, r1: usize, r2: usize, c1: usize, c2: usize) -> (r: Vec<Vec<i64>>)
        requires
            self.wf(),
            r1 <= r2 <= self.rows,
            c1 <= c2 <= self.cols,
        ensures
            r@.len() == r2 - r1,
            forall|i: int| 0 <= i < r2 - r1 ==> #[trigger] r@[i]@.len() == c2 - c1,
            forall|i: int, j: int|
                0 <= i < r2 - r1 && 0 <= j < c2 - c1 ==> #[trigger] r@[i]@[j] == self.vals@[i
                    + r1]@[j + c1],
    {
        let mut vec: Vec<Vec<i64>> = Vec::new();
        let mut i: usize = 0;
        while i < r2 - r1
            invariant
                self.wf(),
                r1 <= r2 <= self.rows,
                c1 <= c2 <= self.cols,
                i <= r2 - r1,
                vec@.len() == i,
                forall|a: int| 0 <= a < i ==> #[trigger] vec@[a]@.len() == c2 - c1,
                forall|a: int, b: int|
                    0 <= a < i && 0 <= b < c2 - c1 ==> #[trigger] vec@[a]@[b] == self.vals@[a
                        + r1]@[b + c1],
            decreases r2 - r1 - i,
        {
            let mut row: Vec<i64> = Vec::new();
            let mut j: usize = 0;
            while j < c2 - c1
                invariant
                    self.wf(),
                    r1 <= r2 <= self.rows,
                    c1 <= c2 <= self.cols,
                    i < r2 - r1,
                    j <= c2 - c1,
                    row@.len() == j,
                    forall|b: int| 0 <= b < j ==> #[trigger] row@[b] == self.vals@[i + r1]@[b + c1],
                decreases c2 - c1 - j,
            {
                row.push(self.vals[i + r1][j + c1]);
                j += 1;
            }
            vec.push(row);
            i += 1;
        }
        vec
    }

    /// Crops the matrix in place to its top-left `rows` by `cols` region.
    pub fn trim(&mut self, rows: usize, cols: usize)
        requires
            old(self).wf(),
            rows <= old(self).rows,
            cols <= old(self).cols,
        ensures
            is_crop(*final(self), *old(self), rows as int, cols as int),
    {
        let vals = self.get_vec_part(0, rows, 0, cols);
        self.rows = rows;
        self.cols = cols;
        self.vals = vals;
    }

    /// Pads the matrix in place with zero cells to `n` rows and `n` columns.
    pub fn fill_zeroes(&mut self, n: usize) -> (r: Result<(), MatrixError>)
        requires
            old(self).wf(),
        ensures
            r is Ok <==> (n >= old(self).rows && n >= old(self).cols),
            r is Err ==> r == Err::<(), MatrixError>(MatrixError::SizeTooSmall) && *final(self)
                == *old(self),
            r is Ok ==> is_padding(*final(self), *old(self), n as int),
    {
        if n < self.cols || n < self.rows {
            return Err(MatrixError::SizeTooSmall);
        }
        let ghost orig = *self;
        let mut vals: Vec<Vec<i64>> = Vec::new();
        let mut i: usize = 0;
        while i < n
            invariant
                orig.wf(),
                orig == *old(self),
                *self == orig,
                n >= orig.rows,
                n >= orig.cols,
                i <= n,
                vals@.len() == i,
                forall|a: int| 0 <= a < i ==> #[trigger] vals@[a]@.len() == n,
                forall|a: int, b: int|
                    0 <= a < i && 0 <= b < n ==> #[trigger] vals@[a]@[b] as int == if a
                        < orig.rows && b < orig.cols {
                        orig.cell(a, b)
                    } else {
                        0
                    },
            decreases n - i,
        {
            let mut row: Vec<i64> = Vec::new();
            let mut j: usize = 0;
            while j < n
                invariant
                    orig.wf(),
                    *self == orig,
                    n >= orig.rows,
                    n >= orig.cols,
                    i < n,
                    j <= n,
                    row@.len() == j,
                    forall|b: int|
                        0 <= b < j ==> #[trigger] row@[b] as int == if i < orig.rows && b
                            < orig.cols {
                            orig.cell(i as int, b)
                        } else {
                            0
                        },
                decreases n - j,
            {
                if i < self.rows && j < self.cols {
                    row.push(self.vals[i][j]);
                } else {
                    row.push(0);
                }
                j += 1;
            }
            vals.push(row);
            i += 1;
        }
        self.rows = n;
        self.cols = n;
        self.vals = vals;
        Ok(())
    }

    /// Quadrant `k` of a matrix with even dimensions: 1 top-left, 2 top-right,
    /// 3 bottom-left, 4 bottom-right. Any other `k` is refused.
    pub fn quad(&self, k: usize) -> (r: Result<Matrix, MatrixError>)
        requires
            self.wf(),
        ensures
            r is Ok <==> (self.rows % 2 == 0 && self.cols % 2 == 0 && 1 <= k <= 4),
            (self.rows % 2 == 1 || self.cols % 2 == 1) ==> r == Err::<Matrix, MatrixError>(
                MatrixError::OddDimension,
            ),
            (self.rows % 2 == 0 && self.cols % 2 == 0 && !(1 <= k <= 4)) ==> r == Err::<
                Matrix,
                MatrixError,
            >(MatrixError::InvalidQuadrant),
            r is Ok ==> is_quadrant(r->Ok_0, *self, k as int),
    {
        if self.cols % 2 == 1 || self.rows % 2 == 1 {
            return Err(MatrixError::OddDimension);
        }
        let (rows, cols) = (self.rows / 2, self.cols / 2);
        let vals = if k == 1 {
            self.get_vec_part(0, rows, 0, cols)
        } else if k == 2 {
            self.get_vec_part(0, rows, cols, self.cols)
        } else if k == 3 {
            self.get_vec_part(rows, self.rows, 0, cols)
        } else if k == 4 {
            self.get_vec_part(rows, self.rows, cols, self.cols)
        } else {
            return Err(MatrixError::InvalidQuadrant);
        };
        Ok(Matrix { rows, cols, vals })
    }
}

/// The cells of `a` followed by those of `b`.
pub fn combine_vecs(a: Vec<i64>, b: Vec<i64>) -> (r: Vec<i64>)
    requires
        a@.len() + b@.len() <= usize::MAX,
    ensures
        r@ == a@ + b@,
{
    let mut vec = a;
    let mut i: usize = 0;
    while i < b.len()
        invariant
            i <= b@.len(),
            vec@ == a@ + b@.subrange(0, i as int),
        decreases b@.len() - i,
    {
        vec.push(b[i]);
        i += 1;
        assert(b@.subrange(0, i as int) == b@.subrange(0, i - 1) + seq![b@[i - 1]]);
    }
    assert(b@.subrange(0, b@.len() as int) == b@);
    vec
}

/// Lays `a | b` above `c | d`, the inverse of the quadrant split.
pub fn combine_quad(a: &Matrix, b: &Matrix, c: &Matrix, d: &Matrix) -> (r: Result<
    Matrix,
    MatrixError,
>)
    requires
        a.wf(),
        b.wf(),
        c.wf(),
        d.wf(),
        a.rows + c.rows <= usize::MAX,
        a.cols + b.cols <= usize::MAX,
    ensures
        r is Ok <==> (a.rows == b.rows && a.cols == c.cols && b.cols == d.cols && c.rows
            == d.rows),
        r is Err ==> r == Err::<Matrix, MatrixError>(MatrixError::IncompatibleQuadrants),
        r is Ok ==> is_combination(r->Ok_0, *a, *b, *c, *d),
{
    if a.rows != b.rows || a.cols != c.cols || b.cols != d.cols || c.rows != d.rows {
        return Err(MatrixError::IncompatibleQuadrants);
    }
    let (rows, cols) = (a.rows + c.rows, a.cols + b.cols);
    let mut vals: Vec<Vec<i64>> = Vec::new();
    let mut i: usize = 0;
    while i < a.rows
        invariant
            a.wf(),
            b.wf(),
            a.rows == b.rows,
            a.cols + b.cols <= usize::MAX,
            i <= a.rows,
            vals@.len() == i,
            forall|x: int| 0 <= x < i ==> #[trigger] vals@[x]@ == a@[x] + b@[x],
        decreases a.rows - i,
    {
        vals.push(combine_vecs(a.vals[i].clone(), b.vals[i].clone()));
        i += 1;
    }
    let mut i: usize = 0;
    while i < c.rows
        invariant
            a.wf(),
            b.wf(),
            c.wf(),
            d.wf(),
            a.rows == b.rows,
            c.rows == d.rows,
            a.cols == c.cols,
            b.cols == d.cols,
            c.cols + d.cols <= usize::MAX,
            i <= c.rows,
            vals@.len() == a.rows + i,
            forall|x: int| 0 <= x < a.rows ==> #[trigger] vals@[x]@ == a@[x] + b@[x],
            forall|x: int| 0 <= x < i ==> #[trigger] vals@[a.rows + x]@ == c@[x] + d@[x],
        decreases c.rows - i,
    {
        vals.push(combine_vecs(c.vals[i].clone(), d.vals[i].clone()));
        i += 1;
    }
    let r = Matrix { rows, cols, vals };
    assert forall|x: int| 0 <= x < r.rows implies #[trigger] r.vals@[x]@.len() == r.cols by {
        if x >= a.rows {
            assert(vals@[a.rows + (x - a.rows)]@ == c@[x - a.rows] + d@[x - a.rows]);
        }
    }
    assert forall|x: int, y: int| 0 <= x < r.rows && 0 <= y < r.cols implies #[trigger] r.cell(x, y) == if x < a.rows {
            if y < a.cols { a.cell(x, y) } else { b.cell(x, y - a.cols) }
        } else {
            if y < a.cols { c.cell(x - a.rows, y) } else { d.cell(x - a.rows, y - a.cols) }
        } by {
        if x >= a.rows {
            assert(vals@[a.rows + (x - a.rows)]@ == c@[x - a.rows] + d@[x - a.rows]);
        } else {
            assert(vals@[x]@ == a@[x] + b@[x]);
        }
    }
    Ok(r)
}

} // verus!
