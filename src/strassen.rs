//! Strassen's seven-product multiplication of square power-of-two matrices.
use crate::matrix::{Matrix, MatrixError};
use crate::product::{
    agrees_with, cols_agree, col_of, dot, is_product, lemma_agree_difference, lemma_agree_self,
    lemma_agree_sum, lemma_dot_combination, lemma_dot_ext, lemma_dot_zero_tail, lemma_dot_split, product_cell, row_of, rows_agree,
};
use crate::quadrant::{combine_quad, is_padding};
use crate::ring::{cell_mul, lemma_wrap_add, lemma_wrap_sub, wrap};
use vstd::prelude::*;

verus! {

/// `n` is a power of two.
pub open spec fn is_pow2(n: int) -> bool
    decreases n,
{
    if n <= 0 {
        false
    } else if n == 1 {
        true
    } else {
        n % 2 == 0 && is_pow2(n / 2)
    }
}

/// The sum of products of row `i` of `x` and column `j` of `y` over `h` terms.
pub open spec fn block_dot(x: Matrix, y: Matrix, i: int, j: int, h: int) -> int {
    dot(row_of(x, i), col_of(y, j), h as nat)
}

/// A product of operands that agree with `x + s * y` and `z + t * w` expands
/// into the four sums of products of the quadrants involved.
proof fn lemma_product_expansion(
    p: Matrix,
    l: Matrix,
    x: Matrix,
    y: Matrix,
    s: int,
    r: Matrix,
    z: Matrix,
    w: Matrix,
    t: int,
    h: int,
    i: int,
    j: int,
)
    requires
        is_product(p, l, r),
        l.rows == h,
        l.cols == h,
        r.rows == h,
        r.cols == h,
        rows_agree(l, x, y, s),
        cols_agree(r, z, w, t),
        0 <= i < h,
        0 <= j < h,
    ensures
        p.cell(i, j) == wrap(
            block_dot(x, z, i, j, h) + t * block_dot(x, w, i, j, h) + s * block_dot(y, z, i, j, h)
                + s * t * block_dot(y, w, i, j, h),
        ),
{
    assert(agrees_with(row_of(l, i), row_of(x, i), row_of(y, i), s, h as nat));
    assert(agrees_with(col_of(r, j), col_of(z, j), col_of(w, j), t, h as nat));
    lemma_dot_combination(
        row_of(l, i),
        row_of(x, i),
        row_of(y, i),
        s,
        col_of(r, j),
        col_of(z, j),
        col_of(w, j),
        t,
        h as nat,
    );
}

/// Strassen's recombination of the seven products, on one cell of each
/// result quadrant.
proof fn lemma_strassen_identity(
    x11: int,
    x12: int,
    x14: int,
    x23: int,
    x24: int,
    x31: int,
    x32: int,
    x41: int,
    x43: int,
    x44: int,
    p1: int,
    p2: int,
    p3: int,
    p4: int,
    p5: int,
    p6: int,
    p7: int,
)
    requires
        p1 == wrap(x12 - x14),
        p2 == wrap(x14 + x24),
        p3 == wrap(x31 + x41),
        p4 == wrap(x43 - x41),
        p5 == wrap(x11 + x14 + x41 + x44),
        p6 == wrap(x23 + x24 - x43 - x44),
        p7 == wrap(x11 + x12 - x31 - x32),
    ensures
        wrap(wrap(wrap(p5 + p4) - p2) + p6) == wrap(x11 + x23),
        wrap(p1 + p2) == wrap(x12 + x24),
        wrap(p3 + p4) == wrap(x31 + x43),
        wrap(wrap(wrap(p1 + p5) - p3) - p7) == wrap(x32 + x44),
{
    let e1 = x12 - x14;
    let e2 = x14 + x24;
    let e3 = x31 + x41;
    let e4 = x43 - x41;
    let e5 = x11 + x14 + x41 + x44;
    let e6 = x23 + x24 - x43 - x44;
    let e7 = x11 + x12 - x31 - x32;
    lemma_wrap_add(e5, e4);
    lemma_wrap_sub(e5 + e4, e2);
    lemma_wrap_add(e5 + e4 - e2, e6);
    lemma_wrap_add(e1, e2);
    lemma_wrap_add(e3, e4);
    lemma_wrap_add(e1, e5);
    lemma_wrap_sub(e1 + e5, e3);
    lemma_wrap_sub(e1 + e5 - e3, e7);
}

/// A sum of products over `2h` terms splits over the two halves of a row of
/// `a` and a column of `b`.
proof fn lemma_split_halves(
    a: Matrix,
    b: Matrix,
    ai: int,
    bj: int,
    l1: Matrix,
    l2: Matrix,
    li: int,
    r1: Matrix,
    r2: Matrix,
    rj: int,
    h: int,
)
    requires
        h >= 0,
        a.cols == 2 * h,
        b.rows == 2 * h,
        l1.cols == h,
        l2.cols == h,
        r1.rows == h,
        r2.rows == h,
        forall|k: int| 0 <= k < h ==> l1.cell(li, k) == a.cell(ai, k) && l2.cell(li, k) == a.cell(ai, k + h),
        forall|k: int| 0 <= k < h ==> r1.cell(k, rj) == b.cell(k, bj) && r2.cell(k, rj) == b.cell(k + h, bj),
    ensures
        dot(row_of(a, ai), col_of(b, bj), (2 * h) as nat) == block_dot(l1, r1, li, rj, h) + block_dot(l2, r2, li, rj, h),
{
    lemma_dot_split(
        row_of(a, ai),
        col_of(b, bj),
        row_of(l1, li),
        col_of(r1, rj),
        row_of(l2, li),
        col_of(r2, rj),
        h as nat,
        h as nat,
    );
    assert((h as nat + h as nat) as nat == (2 * h) as nat);
}

/// The product of two `n` by `n` matrices, `n` a power of two, by Strassen's
/// seven recursive half-size products.
pub fn strassen(a: &Matrix, b: &Matrix, n: usize) -> (c: Matrix)
    requires
        a.wf(),
        b.wf(),
        a.rows == n,
        a.cols == n,
        b.rows == n,
        b.cols == n,
        is_pow2(n as int),
    ensures
        is_product(c, *a, *b),
    decreases n,
{
    if n == 1 {
        let v = cell_mul(a.vals[0][0], b.vals[0][0]);
        let mut row: Vec<i64> = Vec::new();
        row.push(v);
        let mut vals: Vec<Vec<i64>> = Vec::new();
        vals.push(row);
        let c = Matrix { rows: 1, cols: 1, vals };
        assert(dot(row_of(*a, 0), col_of(*b, 0), 0) == 0);
        assert(dot(row_of(*a, 0), col_of(*b, 0), 1) == a.cell(0, 0) * b.cell(0, 0));
        return c;
    }
    let h = n / 2;
    let a1 = a.quad(1).unwrap();
    let a2 = a.quad(2).unwrap();
    let a3 = a.quad(3).unwrap();
    let a4 = a.quad(4).unwrap();
    let b1 = b.quad(1).unwrap();
    let b2 = b.quad(2).unwrap();
    let b3 = b.quad(3).unwrap();
    let b4 = b.quad(4).unwrap();

    let s1 = b2.sub(&b4).unwrap();
    let p1 = strassen(&a1, &s1, h);
    let s2 = a1.add(&a2).unwrap();
    let p2 = strassen(&s2, &b4, h);
    let s3 = a3.add(&a4).unwrap();
    let p3 = strassen(&s3, &b1, h);
    let s4 = b3.sub(&b1).unwrap();
    let p4 = strassen(&a4, &s4, h);
    let s5 = a1.add(&a4).unwrap();
    let s6 = b1.add(&b4).unwrap();
    let p5 = strassen(&s5, &s6, h);
    let s7 = a2.sub(&a4).unwrap();
    let s8 = b3.add(&b4).unwrap();
    let p6 = strassen(&s7, &s8, h);
    let s9 = a1.sub(&a3).unwrap();
    let s10 = b1.add(&b2).unwrap();
    let p7 = strassen(&s9, &s10, h);

    let c11 = p5.add(&p4).unwrap().sub(&p2).unwrap().add(&p6).unwrap();
    let c12 = p1.add(&p2).unwrap();
    let c21 = p3.add(&p4).unwrap();
    let c22 = p1.add(&p5).unwrap().sub(&p3).unwrap().sub(&p7).unwrap();
    let c = combine_quad(&c11, &c12, &c21, &c22).unwrap();
    proof {
        let hh = h as int;
        lemma_agree_self(a1);
        lemma_agree_self(a4);
        lemma_agree_self(b1);
        lemma_agree_self(b4);
        lemma_agree_difference(s1, b2, b4);
        lemma_agree_sum(s2, a1, a2);
        lemma_agree_sum(s3, a3, a4);
        lemma_agree_difference(s4, b3, b1);
        lemma_agree_sum(s5, a1, a4);
        lemma_agree_sum(s6, b1, b4);
        lemma_agree_difference(s7, a2, a4);
        lemma_agree_sum(s8, b3, b4);
        lemma_agree_difference(s9, a1, a3);
        lemma_agree_sum(s10, b1, b2);
        assert forall|i: int, j: int| 0 <= i < n && 0 <= j < n implies #[trigger] c.cell(i, j)
            == product_cell(*a, *b, i, j) by {
            let ii = if i < hh { i } else { i - hh };
            let jj = if j < hh { j } else { j - hh };
            lemma_product_expansion(p1, a1, a1, a1, 0, s1, b2, b4, -1, hh, ii, jj);
            lemma_product_expansion(p2, s2, a1, a2, 1, b4, b4, b4, 0, hh, ii, jj);
            lemma_product_expansion(p3, s3, a3, a4, 1, b1, b1, b1, 0, hh, ii, jj);
            lemma_product_expansion(p4, a4, a4, a4, 0, s4, b3, b1, -1, hh, ii, jj);
            lemma_product_expansion(p5, s5, a1, a4, 1, s6, b1, b4, 1, hh, ii, jj);
            lemma_product_expansion(p6, s7, a2, a4, -1, s8, b3, b4, 1, hh, ii, jj);
            lemma_product_expansion(p7, s9, a1, a3, -1, s10, b1, b2, 1, hh, ii, jj);
            lemma_strassen_identity(
                block_dot(a1, b1, ii, jj, hh),
                block_dot(a1, b2, ii, jj, hh),
                block_dot(a1, b4, ii, jj, hh),
                block_dot(a2, b3, ii, jj, hh),
                block_dot(a2, b4, ii, jj, hh),
                block_dot(a3, b1, ii, jj, hh),
                block_dot(a3, b2, ii, jj, hh),
                block_dot(a4, b1, ii, jj, hh),
                block_dot(a4, b3, ii, jj, hh),
                block_dot(a4, b4, ii, jj, hh),
                p1.cell(ii, jj),
                p2.cell(ii, jj),
                p3.cell(ii, jj),
                p4.cell(ii, jj),
                p5.cell(ii, jj),
                p6.cell(ii, jj),
                p7.cell(ii, jj),
            );
            if i < hh {
                if j < hh {
                    lemma_split_halves(*a, *b, i, j, a1, a2, ii, b1, b3, jj, hh);
                } else {
                    lemma_split_halves(*a, *b, i, j, a1, a2, ii, b2, b4, jj, hh);
                }
            } else {
                if j < hh {
                    lemma_split_halves(*a, *b, i, j, a3, a4, ii, b1, b3, jj, hh);
                } else {
                    lemma_split_halves(*a, *b, i, j, a3, a4, ii, b2, b4, jj, hh);
                }
            }
        }
    }
    c
}

/// The largest of the four dimensions of two matrices.
pub open spec fn greatest_dim(a: Matrix, b: Matrix) -> int {
    vstd::math::max(vstd::math::max(a.rows as int, a.cols as int), vstd::math::max(b.rows as int, b.cols as int))
}

/// The largest of the four dimensions of two matrices.
pub fn find_greatest_dim(a: &Matrix, b: &Matrix) -> (n: usize)
    ensures
        n == greatest_dim(*a, *b),
{
    let mut n: usize = a.rows;
    if n < a.cols {
        n = a.cols;
    }
    if n < b.cols {
        n = b.cols;
    }
    if n < b.rows {
        n = b.rows;
    }
    n
}

/// The product of `a` and `b` by Strassen's method, for operands of any shape:
/// both are padded in place with zeros to the smallest power-of-two square
/// that holds them, and the product is cropped back to `a.rows` by `b.cols`.
pub fn strassen_wrapper(a: &mut Matrix, b: &mut Matrix) -> (r: Result<Matrix, MatrixError>)
    requires
        old(a).wf(),
        old(b).wf(),
        greatest_dim(*old(a), *old(b)) <= usize::MAX / 2 + 1,
    ensures
        r is Ok <==> old(a).cols == old(b).rows,
        r is Err ==> r == Err::<Matrix, MatrixError>(MatrixError::DimensionMismatch) && *final(a)
            == *old(a) && *final(b) == *old(b),
        r is Ok ==> {
            &&& is_product(r->Ok_0, *old(a), *old(b))
            &&& is_pow2(final(a).rows as int)
            &&& final(a).rows >= greatest_dim(*old(a), *old(b))
            &&& (final(a).rows == 1 || final(a).rows / 2 < greatest_dim(*old(a), *old(b)))
            &&& is_padding(*final(a), *old(a), final(a).rows as int)
            &&& is_padding(*final(b), *old(b), final(a).rows as int)
        },
{
    if a.cols != b.rows {
        return Err(MatrixError::DimensionMismatch);
    }
    let ghost (a0, b0) = (*a, *b);
    let max_n = find_greatest_dim(a, b);
    let mut fill_n: usize = 1;
    while fill_n < max_n
        invariant
            max_n == greatest_dim(a0, b0),
            max_n <= usize::MAX / 2 + 1,
            fill_n >= 1,
            is_pow2(fill_n as int),
            fill_n == 1 || fill_n / 2 < max_n,
        decreases usize::MAX - fill_n,
    {
        fill_n = fill_n * 2;
    }
    let (rows, cols) = (a.rows, b.cols);
    let ra = a.fill_zeroes(fill_n);
    let rb = b.fill_zeroes(fill_n);
    let mut c = strassen(a, b, fill_n);
    c.trim(rows, cols);
    proof {
        let n = fill_n as nat;
        assert forall|i: int, j: int| 0 <= i < rows && 0 <= j < cols implies #[trigger] c.cell(i, j)
            == product_cell(a0, b0, i, j) by {
            let u = row_of(*a, i);
            let v = col_of(*b, j);
            lemma_dot_zero_tail(u, v, a0.cols as nat, n);
            lemma_dot_ext(u, v, row_of(a0, i), col_of(b0, j), a0.cols as nat);
        }
    }
    Ok(c)
}

} // verus!
