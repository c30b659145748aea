//! The matrix product as a mathematical object, and the naive multiplier.
use crate::matrix::{is_difference, is_sum, Matrix, MatrixError};
use crate::ring::{cell_add, cell_mul, lemma_wrap_add, lemma_wrap_idempotent, lemma_wrap_mul, lemma_wrap_small, wrap};
use vstd::arithmetic::mul::{lemma_mul_is_associative, lemma_mul_is_commutative, lemma_mul_is_distributive_add, lemma_mul_is_distributive_add_other_way};
use vstd::prelude::*;

verus! {

/// The sum of `u[k] * v[k]` over `k < n`.
pub open spec fn dot(u: Seq<int>, v: Seq<int>, n: nat) -> int
    decreases n,
{
    if n == 0 {
        0
    } else {
        dot(u, v, (n - 1) as nat) + u[n - 1] * v[n - 1]
    }
}

/// Row `i` of `m`.
pub open spec fn row_of(m: Matrix, i: int) -> Seq<int> {
    Seq::new(m.cols as nat, |k: int| m.cell(i, k))
}

/// Column `j` of `m`.
pub open spec fn col_of(m: Matrix, j: int) -> Seq<int> {
    Seq::new(m.rows as nat, |k: int| m.cell(k, j))
}

/// Cell `(i, j)` of the product of `a` and `b`, wrapped to a cell.
pub open spec fn product_cell(a: Matrix, b: Matrix, i: int, j: int) -> int {
    wrap(dot(row_of(a, i), col_of(b, j), a.cols as nat))
}

/// `c` is the product of `a` and `b`.
pub open spec fn is_product(c: Matrix, a: Matrix, b: Matrix) -> bool {
    &&& c.wf()
    &&& c.rows == a.rows
    &&& c.cols == b.cols
    &&& forall|i: int, j: int|
        0 <= i < a.rows && 0 <= j < b.cols ==> #[trigger] c.cell(i, j) == product_cell(a, b, i, j)
}

/// Cellwise, `w` agrees with `x + s * y` once wrapped.
pub open spec fn agrees_with(w: Seq<int>, x: Seq<int>, y: Seq<int>, s: int, n: nat) -> bool {
    forall|k: int| 0 <= k < n ==> #[trigger] wrap(w[k]) == wrap(x[k] + s * y[k])
}

pub proof fn lemma_dot_ext(u: Seq<int>, v: Seq<int>, u2: Seq<int>, v2: Seq<int>, n: nat)
    requires
        forall|k: int| 0 <= k < n ==> u[k] == u2[k] && v[k] == v2[k],
    ensures
        dot(u, v, n) == dot(u2, v2, n),
    decreases n,
{
    if n > 0 {
        lemma_dot_ext(u, v, u2, v2, (n - 1) as nat);
    }
}

/// Replacing factors by congruent ones keeps the wrapped sum of products.
pub proof fn lemma_dot_congruent(u: Seq<int>, v: Seq<int>, u2: Seq<int>, v2: Seq<int>, n: nat)
    requires
        forall|k: int| 0 <= k < n ==> wrap(u[k]) == wrap(u2[k]) && wrap(v[k]) == wrap(v2[k]),
    ensures
        wrap(dot(u, v, n)) == wrap(dot(u2, v2, n)),
    decreases n,
{
    if n > 0 {
        let m = (n - 1) as nat;
        lemma_dot_congruent(u, v, u2, v2, m);
        let (d, d2) = (dot(u, v, m), dot(u2, v2, m));
        let (p, p2) = (u[m as int] * v[m as int], u2[m as int] * v2[m as int]);
        lemma_wrap_mul(u[m as int], v[m as int]);
        lemma_wrap_mul(u2[m as int], v2[m as int]);
        lemma_wrap_add(d, p);
        lemma_wrap_add(d2, p2);
    }
}

/// Bilinearity: `(x + s * y) . (z + t * w)` expands into four sums of products.
pub proof fn lemma_dot_bilinear(
    u: Seq<int>,
    x: Seq<int>,
    y: Seq<int>,
    s: int,
    v: Seq<int>,
    z: Seq<int>,
    w: Seq<int>,
    t: int,
    n: nat,
)
    requires
        forall|k: int| 0 <= k < n ==> u[k] == x[k] + s * y[k] && v[k] == z[k] + t * w[k],
    ensures
        dot(u, v, n) == dot(x, z, n) + t * dot(x, w, n) + s * dot(y, z, n) + s * t * dot(y, w, n),
    decreases n,
{
    if n > 0 {
        let m = (n - 1) as nat;
        lemma_dot_bilinear(u, x, y, s, v, z, w, t, m);
        let k = m as int;
        let (xk, yk, zk, wk) = (x[k], y[k], z[k], w[k]);
        let (dxz, dxw, dyz, dyw) = (dot(x, z, m), dot(x, w, m), dot(y, z, m), dot(y, w, m));
        let (syk, twk) = (s * yk, t * wk);
        lemma_mul_is_distributive_add_other_way(zk + twk, xk, syk);
        lemma_mul_is_distributive_add(xk, zk, twk);
        lemma_mul_is_distributive_add(syk, zk, twk);
        lemma_mul_is_associative(xk, t, wk);
        lemma_mul_is_commutative(xk, t);
        lemma_mul_is_associative(t, xk, wk);
        lemma_mul_is_associative(s, yk, zk);
        assert(syk * twk == s * t * (yk * wk)) by (nonlinear_arith)
            requires
                syk == s * yk,
                twk == t * wk,
        ;
        assert(t * (dxw + xk * wk) == t * dxw + t * (xk * wk)) by (nonlinear_arith);
        assert(s * (dyz + yk * zk) == s * dyz + s * (yk * zk)) by (nonlinear_arith);
        assert(s * t * (dyw + yk * wk) == s * t * dyw + s * t * (yk * wk)) by (nonlinear_arith);
    }
}

/// The wrapped sum of products of two operands that agree with combinations
/// of other rows and columns.
pub proof fn lemma_dot_combination(
    u: Seq<int>,
    x: Seq<int>,
    y: Seq<int>,
    s: int,
    v: Seq<int>,
    z: Seq<int>,
    w: Seq<int>,
    t: int,
    n: nat,
)
    requires
        agrees_with(u, x, y, s, n),
        agrees_with(v, z, w, t, n),
    ensures
        wrap(dot(u, v, n)) == wrap(
            dot(x, z, n) + t * dot(x, w, n) + s * dot(y, z, n) + s * t * dot(y, w, n),
        ),
{
    let uu = Seq::new(n, |k: int| x[k] + s * y[k]);
    let vv = Seq::new(n, |k: int| z[k] + t * w[k]);
    assert forall|k: int| 0 <= k < n implies wrap(u[k]) == wrap(uu[k]) && wrap(v[k]) == wrap(
        vv[k],
    ) by {
        assert(wrap(u[k]) == wrap(x[k] + s * y[k]));
        assert(wrap(v[k]) == wrap(z[k] + t * w[k]));
    }
    lemma_dot_congruent(u, v, uu, vv, n);
    lemma_dot_bilinear(uu, x, y, s, vv, z, w, t, n);
}

/// A sum of products over `n1 + n2` terms is the sum over its first `n1` and
/// its last `n2` terms.
pub proof fn lemma_dot_split(
    u: Seq<int>,
    v: Seq<int>,
    u1: Seq<int>,
    v1: Seq<int>,
    u2: Seq<int>,
    v2: Seq<int>,
    n1: nat,
    n2: nat,
)
    requires
        forall|k: int| 0 <= k < n1 ==> u1[k] == u[k] && v1[k] == v[k],
        forall|k: int| 0 <= k < n2 ==> u2[k] == u[n1 + k] && v2[k] == v[n1 + k],
    ensures
        dot(u, v, n1 + n2) == dot(u1, v1, n1) + dot(u2, v2, n2),
    decreases n2,
{
    if n2 == 0 {
        lemma_dot_ext(u, v, u1, v1, n1);
    } else {
        lemma_dot_split(u, v, u1, v1, u2, v2, n1, (n2 - 1) as nat);
        assert((n1 + n2 - 1) as nat == n1 + (n2 - 1) as nat);
    }
}

/// Terms past `m` whose left factor is zero add nothing.
pub proof fn lemma_dot_zero_tail(u: Seq<int>, v: Seq<int>, m: nat, n: nat)
    requires
        m <= n,
        forall|k: int| m <= k < n ==> u[k] == 0,
    ensures
        dot(u, v, n) == dot(u, v, m),
    decreases n - m,
{
    if n > m {
        lemma_dot_zero_tail(u, v, m, (n - 1) as nat);
        assert(u[n - 1] * v[n - 1] == 0) by (nonlinear_arith)
            requires
                u[n - 1] == 0,
        ;
    }
}

/// Each row of `l` agrees with the same row of `x + s * y`.
pub open spec fn rows_agree(l: Matrix, x: Matrix, y: Matrix, s: int) -> bool {
    forall|i: int| 0 <= i < l.rows ==> #[trigger] agrees_with(row_of(l, i), row_of(x, i), row_of(y, i), s, l.cols as nat)
}

/// Each column of `l` agrees with the same column of `x + s * y`.
pub open spec fn cols_agree(l: Matrix, x: Matrix, y: Matrix, s: int) -> bool {
    forall|j: int| 0 <= j < l.cols ==> #[trigger] agrees_with(col_of(l, j), col_of(x, j), col_of(y, j), s, l.rows as nat)
}

pub proof fn lemma_agree_sum(l: Matrix, x: Matrix, y: Matrix)
    requires
        is_sum(l, x, y),
        y.rows == l.rows,
        y.cols == l.cols,
    ensures
        rows_agree(l, x, y, 1),
        cols_agree(l, x, y, 1),
{
    assert forall|i: int| 0 <= i < l.rows implies #[trigger] agrees_with(row_of(l, i), row_of(x, i), row_of(y, i), 1, l.cols as nat) by {
        assert forall|k: int| 0 <= k < l.cols implies #[trigger] wrap(row_of(l, i)[k]) == wrap(row_of(x, i)[k] + 1 * row_of(y, i)[k]) by {
            lemma_wrap_idempotent(x.cell(i, k) + y.cell(i, k));
        }
    }
    assert forall|j: int| 0 <= j < l.cols implies #[trigger] agrees_with(col_of(l, j), col_of(x, j), col_of(y, j), 1, l.rows as nat) by {
        assert forall|k: int| 0 <= k < l.rows implies #[trigger] wrap(col_of(l, j)[k]) == wrap(col_of(x, j)[k] + 1 * col_of(y, j)[k]) by {
            lemma_wrap_idempotent(x.cell(k, j) + y.cell(k, j));
        }
    }
}

pub proof fn lemma_agree_difference(l: Matrix, x: Matrix, y: Matrix)
    requires
        is_difference(l, x, y),
        y.rows == l.rows,
        y.cols == l.cols,
    ensures
        rows_agree(l, x, y, -1),
        cols_agree(l, x, y, -1),
{
    assert forall|i: int| 0 <= i < l.rows implies #[trigger] agrees_with(row_of(l, i), row_of(x, i), row_of(y, i), -1, l.cols as nat) by {
        assert forall|k: int| 0 <= k < l.cols implies #[trigger] wrap(row_of(l, i)[k]) == wrap(row_of(x, i)[k] + -1 * row_of(y, i)[k]) by {
            lemma_wrap_idempotent(x.cell(i, k) - y.cell(i, k));
        }
    }
    assert forall|j: int| 0 <= j < l.cols implies #[trigger] agrees_with(col_of(l, j), col_of(x, j), col_of(y, j), -1, l.rows as nat) by {
        assert forall|k: int| 0 <= k < l.rows implies #[trigger] wrap(col_of(l, j)[k]) == wrap(col_of(x, j)[k] + -1 * col_of(y, j)[k]) by {
            lemma_wrap_idempotent(x.cell(k, j) - y.cell(k, j));
        }
    }
}

pub proof fn lemma_agree_self(l: Matrix)
    ensures
        rows_agree(l, l, l, 0),
        cols_agree(l, l, l, 0),
{
}

/// The product of two matrices with as many columns in the first as rows in the second.
pub fn multiplication_normal(a: &Matrix, b: &Matrix) -> (r: Result<Matrix, MatrixError>)
    requires
        a.wf(),
        b.wf(),
    ensures
        r is Ok <==> a.cols == b.rows,
        r is Err ==> r == Err::<Matrix, MatrixError>(MatrixError::DimensionMismatch),
        r is Ok ==> is_product(r->Ok_0, *a, *b),
{
    if a.cols != b.rows {
        return Err(MatrixError::DimensionMismatch);
    }
    let mut vals: Vec<Vec<i64>> = Vec::new();
    let mut i: usize = 0;
    while i < a.rows
        invariant
            a.wf(),
            b.wf(),
            a.cols == b.rows,
            i <= a.rows,
            vals@.len() == i,
            forall|x: int| 0 <= x < i ==> #[trigger] vals@[x]@.len() == b.cols,
            forall|x: int, y: int|
                0 <= x < i && 0 <= y < b.cols ==> #[trigger] vals@[x]@[y] as int == product_cell(
                    *a,
                    *b,
                    x,
                    y,
                ),
        decreases a.rows - i,
    {
        let mut row: Vec<i64> = Vec::new();
        let mut j: usize = 0;
        while j < b.cols
            invariant
                a.wf(),
                b.wf(),
                a.cols == b.rows,
                i < a.rows,
                j <= b.cols,
                row@.len() == j,
                forall|y: int| 0 <= y < j ==> #[trigger] row@[y] as int == product_cell(*a, *b, i as int, y),
            decreases b.cols - j,
        {
            let ghost u = row_of(*a, i as int);
            let ghost v = col_of(*b, j as int);
            let mut acc: i64 = 0;
            let mut k: usize = 0;
            proof {
                lemma_wrap_small(0);
            }
            while k < a.cols
                invariant
                    a.wf(),
                    b.wf(),
                    a.cols == b.rows,
                    i < a.rows,
                    j < b.cols,
                    u == row_of(*a, i as int),
                    v == col_of(*b, j as int),
                    k <= a.cols,
                    acc as int == wrap(dot(u, v, k as nat)),
                decreases a.cols - k,
            {
                let p = cell_mul(a.vals[i][k], b.vals[k][j]);
                proof {
                    lemma_wrap_add(dot(u, v, k as nat), u[k as int] * v[k as int]);
                }
                acc = cell_add(acc, p);
                k += 1;
            }
            row.push(acc);
            j += 1;
        }
        vals.push(row);
        i += 1;
    }
    Ok(Matrix { rows: a.rows, cols: b.cols, vals })
}

} // verus!
