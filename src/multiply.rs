//! Choosing a multiplication strategy, and the per-term units of the
//! fan-out strategy with their reduction.
use crate::matrix::{Matrix, MatrixError};
use crate::product::{col_of, dot, is_product, multiplication_normal, row_of};
use crate::ring::{cell_add, cell_mul, lemma_wrap_add, lemma_wrap_small, wrap};
use crate::strassen::{greatest_dim, strassen_wrapper};
use vstd::prelude::*;

verus! {

/// The default size above which the dispatcher multiplies naively.
pub const NAIVE_THRESHOLD: usize = 700;

/// Which strategy the dispatcher uses.
///
/// When both dimensions of the left operand exceed `naive_above` the naive
/// product is taken, otherwise Strassen's. Both strategies give the same
/// product on every input, so the policy decides running time only. The
/// default, 700, sends only very large operands to the naive product, whose
/// cache-friendly loops avoid the padding and copying of Strassen's method;
/// `usize::MAX` sends everything to Strassen, `0` almost everything to the
/// naive product.
pub struct MulPolicy {
    pub naive_above: usize,
}

impl MulPolicy {
    /// The default policy: naive when both dimensions exceed 700.
    pub fn new() -> (r: MulPolicy)
        ensures
            r.naive_above == NAIVE_THRESHOLD,
    {
        MulPolicy { naive_above: NAIVE_THRESHOLD }
    }

    /// Whether the policy sends a product with left operand `a` to the naive strategy.
    pub open spec fn picks_naive(&self, a: Matrix) -> bool {
        a.rows > self.naive_above && a.cols > self.naive_above
    }
}

/// The product of `a` and `b` by the strategy that `policy` picks.
pub fn multiply(a: Matrix, b: Matrix, policy: &MulPolicy) -> (r: Result<Matrix, MatrixError>)
    requires
        a.wf(),
        b.wf(),
        greatest_dim(a, b) <= usize::MAX / 2 + 1,
    ensures
        r is Ok <==> a.cols == b.rows,
        r is Err ==> r == Err::<Matrix, MatrixError>(MatrixError::DimensionMismatch),
        r is Ok ==> is_product(r->Ok_0, a, b),
{
    let mut a = a;
    let mut b = b;
    if a.rows > policy.naive_above && a.cols > policy.naive_above {
        multiplication_normal(&a, &b)
    } else {
        strassen_wrapper(&mut a, &mut b)
    }
}

impl Matrix {
    /// The product of `self` and `other` under the default policy.
    pub fn mul(self, other: Matrix) -> (r: Result<Matrix, MatrixError>)
        requires
            self.wf(),
            other.wf(),
            greatest_dim(self, other) <= usize::MAX / 2 + 1,
        ensures
            r is Ok <==> self.cols == other.rows,
            r is Err ==> r == Err::<Matrix, MatrixError>(MatrixError::DimensionMismatch),
            r is Ok ==> is_product(r->Ok_0, self, other),
    {
        let policy = MulPolicy::new();
        multiply(self, other, &policy)
    }
}

/// The sum of the first `n` terms of `s`.
pub open spec fn sum_of(s: Seq<i64>, n: nat) -> int
    decreases n,
{
    if n == 0 {
        0
    } else {
        sum_of(s, (n - 1) as nat) + s[n - 1] as int
    }
}

/// `terms` holds `inner` terms for each of `rows` by `cols` cells.
pub open spec fn terms_complete(terms: Seq<Vec<Vec<i64>>>, rows: int, cols: int, inner: int) -> bool {
    &&& terms.len() == rows
    &&& forall|i: int| 0 <= i < rows ==> #[trigger] terms[i]@.len() == cols
    &&& forall|i: int, j: int|
        0 <= i < rows && 0 <= j < cols ==> #[trigger] terms[i]@[j]@.len() == inner
}

/// Each term is the unit product `a[i][k] * b[k][j]`.
pub open spec fn terms_are_units(terms: Seq<Vec<Vec<i64>>>, a: Matrix, b: Matrix) -> bool {
    forall|i: int, j: int, k: int|
        0 <= i < a.rows && 0 <= j < b.cols && 0 <= k < a.cols ==> #[trigger] terms[i]@[j]@[k] as int
            == wrap(a.cell(i, k) * b.cell(k, j))
}

/// One unit of fan-out work: the term `a[i][k] * b[k][j]` of cell `(i, j)`.
pub fn unit_term(a: &Matrix, b: &Matrix, i: usize, j: usize, k: usize) -> (r: i64)
    requires
        a.wf(),
        b.wf(),
        a.cols == b.rows,
        i < a.rows,
        j < b.cols,
        k < a.cols,
    ensures
        r as int == wrap(a.cell(i as int, k as int) * b.cell(k as int, j as int)),
{
    cell_mul(a.vals[i][k], b.vals[k][j])
}

/// Units summed in any grouping give the wrapped sum of products.
pub proof fn lemma_units_sum(s: Seq<i64>, u: Seq<int>, v: Seq<int>, n: nat)
    requires
        forall|k: int| 0 <= k < n ==> #[trigger] s[k] as int == wrap(u[k] * v[k]),
    ensures
        wrap(sum_of(s, n)) == wrap(dot(u, v, n)),
    decreases n,
{
    if n > 0 {
        let m = (n - 1) as nat;
        lemma_units_sum(s, u, v, m);
        lemma_wrap_add(sum_of(s, m), s[m as int] as int);
        lemma_wrap_add(dot(u, v, m), u[m as int] * v[m as int]);
    }
}

/// The reduction step of the fan-out strategy: each cell `(i, j)` of the
/// result is the wrapped sum of `terms[i][j]`. A missing unit is a failed task.
pub fn reduce_partials(a: &Matrix, b: &Matrix, terms: &Vec<Vec<Vec<i64>>>) -> (r: Result<
    Matrix,
    MatrixError,
>)
    requires
        a.wf(),
        b.wf(),
    ensures
        r is Ok <==> (a.cols == b.rows && terms_complete(terms@, a.rows as int, b.cols as int, a.cols as int)),
        a.cols != b.rows ==> r == Err::<Matrix, MatrixError>(MatrixError::DimensionMismatch),
        (a.cols == b.rows && !terms_complete(terms@, a.rows as int, b.cols as int, a.cols as int))
            ==> r == Err::<Matrix, MatrixError>(MatrixError::ParallelTaskFailure),
        r is Ok ==> {
            let c = r->Ok_0;
            &&& c.wf()
            &&& c.rows == a.rows
            &&& c.cols == b.cols
            &&& forall|i: int, j: int|
                0 <= i < a.rows && 0 <= j < b.cols ==> #[trigger] c.cell(i, j) == wrap(
                    sum_of(terms@[i]@[j]@, a.cols as nat),
                )
            &&& terms_are_units(terms@, *a, *b) ==> is_product(c, *a, *b)
        },
{
    if a.cols != b.rows {
        return Err(MatrixError::DimensionMismatch);
    }
    if terms.len() != a.rows {
        return Err(MatrixError::ParallelTaskFailure);
    }
    let mut x: usize = 0;
    while x < a.rows
        invariant
            a.cols == b.rows,
            terms@.len() == a.rows,
            x <= a.rows,
            forall|i: int| 0 <= i < x ==> #[trigger] terms@[i]@.len() == b.cols,
            forall|i: int, j: int|
                0 <= i < x && 0 <= j < b.cols ==> #[trigger] terms@[i]@[j]@.len() == a.cols,
        decreases a.rows - x,
    {
        if terms[x].len() != b.cols {
            return Err(MatrixError::ParallelTaskFailure);
        }
        let mut y: usize = 0;
        while y < b.cols
            invariant
                a.cols == b.rows,
                terms@.len() == a.rows,
                x < a.rows,
                terms@[x as int]@.len() == b.cols,
                y <= b.cols,
                forall|j: int| 0 <= j < y ==> #[trigger] terms@[x as int]@[j]@.len() == a.cols,
            decreases b.cols - y,
        {
            if terms[x][y].len() != a.cols {
                return Err(MatrixError::ParallelTaskFailure);
            }
            y += 1;
        }
        x += 1;
    }
    let mut vals: Vec<Vec<i64>> = Vec::new();
    let mut i: usize = 0;
    while i < a.rows
        invariant
            a.wf(),
            b.wf(),
            terms_complete(terms@, a.rows as int, b.cols as int, a.cols as int),
            i <= a.rows,
            vals@.len() == i,
            forall|x: int| 0 <= x < i ==> #[trigger] vals@[x]@.len() == b.cols,
            forall|x: int, y: int|
                0 <= x < i && 0 <= y < b.cols ==> #[trigger] vals@[x]@[y] as int == wrap(
                    sum_of(terms@[x]@[y]@, a.cols as nat),
                ),
        decreases a.rows - i,
    {
        let mut row: Vec<i64> = Vec::new();
        let mut j: usize = 0;
        while j < b.cols
            invariant
                a.wf(),
                b.wf(),
                terms_complete(terms@, a.rows as int, b.cols as int, a.cols as int),
                i < a.rows,
                j <= b.cols,
                row@.len() == j,
                forall|y: int|
                    0 <= y < j ==> #[trigger] row@[y] as int == wrap(
                        sum_of(terms@[i as int]@[y]@, a.cols as nat),
                    ),
            decreases b.cols - j,
        {
            let ghost s = terms@[i as int]@[j as int]@;
            let mut acc: i64 = 0;
            let mut k: usize = 0;
            proof {
                lemma_wrap_small(0);
            }
            while k < a.cols
                invariant
                    terms_complete(terms@, a.rows as int, b.cols as int, a.cols as int),
                    i < a.rows,
                    j < b.cols,
                    s == terms@[i as int]@[j as int]@,
                    k <= a.cols,
                    acc as int == wrap(sum_of(s, k as nat)),
                decreases a.cols - k,
            {
                proof {
                    lemma_wrap_add(sum_of(s, k as nat), s[k as int] as int);
                }
                acc = cell_add(acc, terms[i][j][k]);
                k += 1;
            }
            row.push(acc);
            j += 1;
        }
        vals.push(row);
        i += 1;
    }
    let c = Matrix { rows: a.rows, cols: b.cols, vals };
    proof {
        if terms_are_units(terms@, *a, *b) {
            assert forall|i: int, j: int| 0 <= i < a.rows && 0 <= j < b.cols implies #[trigger] c.cell(i, j)
                == wrap(dot(row_of(*a, i), col_of(*b, j), a.cols as nat)) by {
                let s = terms@[i]@[j]@;
                assert forall|k: int| 0 <= k < a.cols implies #[trigger] s[k] as int == wrap(
                    row_of(*a, i)[k] * col_of(*b, j)[k],
                ) by {
                    assert(terms@[i]@[j]@[k] as int == wrap(a.cell(i, k) * b.cell(k, j)));
                }
                lemma_units_sum(s, row_of(*a, i), col_of(*b, j), a.cols as nat);
            }
        }
    }
    Ok(c)
}

} // verus!
