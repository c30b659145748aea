//! Algebraic laws that relate the operations of this library.
use crate::matrix::{is_difference, is_negation, is_sum, Matrix};
use crate::multiply::{lemma_units_sum, sum_of, terms_are_units};
use crate::product::{col_of, is_product, row_of};
use crate::quadrant::{is_combination, is_crop, is_padding, is_quadrant, quad_col_start, quad_row_start};
use crate::ring::{lemma_wrap_add, wrap};
use vstd::prelude::*;

verus! {

/// Two products of the same operands are the same matrix, so the naive,
/// Strassen and fan-out strategies agree on every pair of conformant operands.
pub proof fn lemma_strategies_agree(
    a: Matrix,
    b: Matrix,
    naive: Matrix,
    fast: Matrix,
    fanned: Matrix,
    terms: Seq<Vec<Vec<i64>>>,
)
    requires
        a.wf(),
        b.wf(),
        a.cols == b.rows,
        is_product(naive, a, b),
        is_product(fast, a, b),
        fanned.wf(),
        fanned.rows == a.rows,
        fanned.cols == b.cols,
        forall|i: int, j: int|
            0 <= i < a.rows && 0 <= j < b.cols ==> #[trigger] fanned.cell(i, j) == wrap(
                sum_of(terms[i]@[j]@, a.cols as nat),
            ),
        terms_are_units(terms, a, b),
    ensures
        naive@ == fast@,
        fast@ == fanned@,
{
    assert forall|i: int, j: int| 0 <= i < a.rows && 0 <= j < b.cols implies #[trigger] fanned.cell(i, j)
        == fast.cell(i, j) by {
        let s = terms[i]@[j]@;
        assert forall|k: int| 0 <= k < a.cols implies #[trigger] s[k] as int == wrap(
            row_of(a, i)[k] * col_of(b, j)[k],
        ) by {
            assert(terms[i]@[j]@[k] as int == wrap(a.cell(i, k) * b.cell(k, j)));
        }
        lemma_units_sum(s, row_of(a, i), col_of(b, j), a.cols as nat);
    }
    naive.lemma_same_view(&fast);
    fast.lemma_same_view(&fanned);
}

/// Combining the four quadrants of a matrix with even dimensions gives the
/// matrix back.
pub proof fn lemma_quad_combine(m: Matrix, q1: Matrix, q2: Matrix, q3: Matrix, q4: Matrix, c: Matrix)
    requires
        m.wf(),
        m.rows % 2 == 0,
        m.cols % 2 == 0,
        is_quadrant(q1, m, 1),
        is_quadrant(q2, m, 2),
        is_quadrant(q3, m, 3),
        is_quadrant(q4, m, 4),
        is_combination(c, q1, q2, q3, q4),
    ensures
        c.rows == m.rows,
        c.cols == m.cols,
        c@ == m@,
{
    let (h, w) = (m.rows / 2, m.cols / 2);
    assert forall|i: int, j: int| 0 <= i < m.rows && 0 <= j < m.cols implies #[trigger] c.cell(i, j)
        == m.cell(i, j) by {
        if i < h {
            if j < w {
                assert(q1.cell(i, j) == m.cell(i + quad_row_start(1, m.rows as int), j + quad_col_start(1, m.cols as int)));
            } else {
                assert(q2.cell(i, j - w) == m.cell(i + quad_row_start(2, m.rows as int), j - w + quad_col_start(2, m.cols as int)));
            }
        } else {
            if j < w {
                assert(q3.cell(i - h, j) == m.cell(i - h + quad_row_start(3, m.rows as int), j + quad_col_start(3, m.cols as int)));
            } else {
                assert(q4.cell(i - h, j - w) == m.cell(i - h + quad_row_start(4, m.rows as int), j - w + quad_col_start(4, m.cols as int)));
            }
        }
    }
    c.lemma_same_view(&m);
}

/// Padding a matrix with zeros and cropping it back to its own shape gives
/// the matrix back.
pub proof fn lemma_pad_then_trim(m: Matrix, p: Matrix, t: Matrix, n: int)
    requires
        m.wf(),
        n >= m.rows,
        n >= m.cols,
        is_padding(p, m, n),
        is_crop(t, p, m.rows as int, m.cols as int),
    ensures
        t.rows == m.rows,
        t.cols == m.cols,
        t@ == m@,
{
    assert forall|i: int, j: int| 0 <= i < m.rows && 0 <= j < m.cols implies #[trigger] t.cell(i, j)
        == m.cell(i, j) by {
        assert(p.cell(i, j) == m.cell(i, j));
    }
    t.lemma_same_view(&m);
}

/// Addition is commutative.
pub proof fn lemma_add_commutative(a: Matrix, b: Matrix, ab: Matrix, ba: Matrix)
    requires
        a.wf(),
        b.wf(),
        a.rows == b.rows,
        a.cols == b.cols,
        is_sum(ab, a, b),
        is_sum(ba, b, a),
    ensures
        ab@ == ba@,
{
    assert forall|i: int, j: int| 0 <= i < a.rows && 0 <= j < a.cols implies #[trigger] ab.cell(i, j)
        == ba.cell(i, j) by {
        assert(a.cell(i, j) + b.cell(i, j) == b.cell(i, j) + a.cell(i, j));
    }
    ab.lemma_same_view(&ba);
}

/// Addition is associative.
pub proof fn lemma_add_associative(
    a: Matrix,
    b: Matrix,
    c: Matrix,
    ab: Matrix,
    ab_c: Matrix,
    bc: Matrix,
    a_bc: Matrix,
)
    requires
        a.wf(),
        b.wf(),
        c.wf(),
        a.rows == b.rows,
        a.cols == b.cols,
        b.rows == c.rows,
        b.cols == c.cols,
        is_sum(ab, a, b),
        is_sum(ab_c, ab, c),
        is_sum(bc, b, c),
        is_sum(a_bc, a, bc),
    ensures
        ab_c@ == a_bc@,
{
    assert forall|i: int, j: int| 0 <= i < a.rows && 0 <= j < a.cols implies #[trigger] ab_c.cell(i, j)
        == a_bc.cell(i, j) by {
        let (x, y, z) = (a.cell(i, j), b.cell(i, j), c.cell(i, j));
        lemma_wrap_add(x + y, z);
        lemma_wrap_add(x, y + z);
        assert(x + y + z == x + (y + z));
    }
    ab_c.lemma_same_view(&a_bc);
}

/// Subtracting `b` is adding the negation of `b`.
pub proof fn lemma_sub_is_add_negation(a: Matrix, b: Matrix, d: Matrix, nb: Matrix, s: Matrix)
    requires
        a.wf(),
        b.wf(),
        a.rows == b.rows,
        a.cols == b.cols,
        is_difference(d, a, b),
        is_negation(nb, b),
        is_sum(s, a, nb),
    ensures
        d@ == s@,
{
    assert forall|i: int, j: int| 0 <= i < a.rows && 0 <= j < a.cols implies #[trigger] d.cell(i, j)
        == s.cell(i, j) by {
        let (x, y) = (a.cell(i, j), b.cell(i, j));
        lemma_wrap_add(x, -y);
        assert(x + -y == x - y);
    }
    d.lemma_same_view(&s);
}

} // verus!
