use matrix_mult::multiply::{multiply, reduce_partials, unit_term, MulPolicy};
use matrix_mult::product::multiplication_normal;
use matrix_mult::quadrant::{combine_quad, combine_vecs};
use matrix_mult::strassen::{find_greatest_dim, strassen, strassen_wrapper};
use matrix_mult::{Matrix, MatrixError};

fn mat(rows: &[&[i64]]) -> Matrix {
    let cols = if rows.is_empty() { 0 } else { rows[0].len() };
    Matrix {
        rows: rows.len(),
        cols,
        vals: rows.iter().map(|r| r.to_vec()).collect(),
    }
}

fn fanned(a: &Matrix, b: &Matrix) -> Result<Matrix, MatrixError> {
    let mut terms: Vec<Vec<Vec<i64>>> = Vec::new();
    if a.cols != b.rows {
        return reduce_partials(a, b, &terms);
    }
    for i in 0..a.rows {
        let mut row = Vec::new();
        for j in 0..b.cols {
            let mut cell = Vec::new();
            for k in 0..a.cols {
                cell.push(unit_term(a, b, i, j, k));
            }
            row.push(cell);
        }
        terms.push(row);
    }
    reduce_partials(a, b, &terms)
}

fn by_strassen(a: &Matrix, b: &Matrix) -> Result<Matrix, MatrixError> {
    let mut a = a.clone();
    let mut b = b.clone();
    strassen_wrapper(&mut a, &mut b)
}

fn patterned(rows: usize, cols: usize, seed: i64) -> Matrix {
    let mut vals = Vec::new();
    for i in 0..rows {
        let mut row = Vec::new();
        for j in 0..cols {
            row.push(((i as i64 * 7 + j as i64 * 13 + seed) % 23) - 11);
        }
        vals.push(row);
    }
    Matrix { rows, cols, vals }
}

#[test]
fn two_by_two_product_all_strategies() {
    let a = mat(&[&[1, 2], &[3, 4]]);
    let b = mat(&[&[5, 6], &[7, 8]]);
    let expected = mat(&[&[19, 22], &[43, 50]]);
    assert!(multiplication_normal(&a, &b).unwrap().isequal(&expected));
    assert!(by_strassen(&a, &b).unwrap().isequal(&expected));
    assert!(fanned(&a, &b).unwrap().isequal(&expected));
    assert!(a.clone().mul(b.clone()).unwrap().isequal(&expected));
}

#[test]
fn identity_times_matrix_all_strategies() {
    let id = mat(&[&[1, 0, 0], &[0, 1, 0], &[0, 0, 1]]);
    let b = mat(&[&[4, -2, 9], &[0, 17, -5], &[3, 8, 1]]);
    assert!(multiplication_normal(&id, &b).unwrap().isequal(&b));
    assert!(by_strassen(&id, &b).unwrap().isequal(&b));
    assert!(fanned(&id, &b).unwrap().isequal(&b));
    assert!(id.clone().mul(b.clone()).unwrap().isequal(&b));
}

#[test]
fn mismatched_operands_are_refused() {
    let a = patterned(2, 3, 1);
    let b = patterned(2, 2, 2);
    assert_eq!(multiplication_normal(&a, &b).unwrap_err(), MatrixError::DimensionMismatch);
    assert_eq!(fanned(&a, &b).unwrap_err(), MatrixError::DimensionMismatch);
    assert_eq!(a.clone().mul(b.clone()).unwrap_err(), MatrixError::DimensionMismatch);
    let (mut a2, mut b2) = (a.clone(), b.clone());
    assert_eq!(strassen_wrapper(&mut a2, &mut b2).unwrap_err(), MatrixError::DimensionMismatch);
    assert!(a2.isequal(&a));
    assert!(b2.isequal(&b));
}

#[test]
fn quad_of_odd_matrix_is_refused() {
    let m = patterned(3, 3, 0);
    for k in 1..=4 {
        assert_eq!(m.quad(k).unwrap_err(), MatrixError::OddDimension);
    }
    assert_eq!(patterned(4, 3, 0).quad(1).unwrap_err(), MatrixError::OddDimension);
}

#[test]
fn quad_number_out_of_range_is_refused() {
    let m = patterned(4, 4, 0);
    assert_eq!(m.quad(0).unwrap_err(), MatrixError::InvalidQuadrant);
    assert_eq!(m.quad(5).unwrap_err(), MatrixError::InvalidQuadrant);
}

#[test]
fn strassen_on_rectangular_operands() {
    let a = mat(&[&[1, 2, 3, 4, 5], &[0, -1, 2, -3, 4], &[7, 0, 0, 1, 2]]);
    let b = mat(&[&[1, 0], &[2, 1], &[0, 3], &[-1, 2], &[4, -2]]);
    let expected = mat(&[&[21, 9], &[17, -9], &[14, -2]]);
    let (mut a2, mut b2) = (a.clone(), b.clone());
    let c = strassen_wrapper(&mut a2, &mut b2).unwrap();
    assert!(c.isequal(&expected));
    assert_eq!((a2.rows, a2.cols, b2.rows, b2.cols), (8, 8, 8, 8));
    assert_eq!(a2.vals[0][4], 5);
    assert_eq!(a2.vals[0][5], 0);
    assert_eq!(a2.vals[7][7], 0);
    assert!(multiplication_normal(&a, &b).unwrap().isequal(&expected));
}

#[test]
fn strategies_agree_on_larger_operands() {
    let a = patterned(7, 5, 3);
    let b = patterned(5, 9, 8);
    let naive = multiplication_normal(&a, &b).unwrap();
    assert!(by_strassen(&a, &b).unwrap().isequal(&naive));
    assert!(fanned(&a, &b).unwrap().isequal(&naive));
    let all_naive = MulPolicy { naive_above: 0 };
    let all_strassen = MulPolicy { naive_above: usize::MAX };
    assert!(multiply(a.clone(), b.clone(), &all_naive).unwrap().isequal(&naive));
    assert!(multiply(a.clone(), b.clone(), &all_strassen).unwrap().isequal(&naive));
}

#[test]
fn strategies_agree_when_cells_wrap() {
    let a = mat(&[&[i64::MAX, 3], &[-7, i64::MIN]]);
    let b = mat(&[&[2, i64::MAX], &[i64::MIN, 5]]);
    let naive = multiplication_normal(&a, &b).unwrap();
    let expected00 = i64::MAX.wrapping_mul(2).wrapping_add(3i64.wrapping_mul(i64::MIN));
    assert_eq!(naive.vals[0][0], expected00);
    assert!(by_strassen(&a, &b).unwrap().isequal(&naive));
    assert!(fanned(&a, &b).unwrap().isequal(&naive));
}

#[test]
fn strassen_core_on_four_by_four() {
    let a = patterned(4, 4, 1);
    let b = patterned(4, 4, 5);
    let c = strassen(&a, &b, 4);
    assert!(c.isequal(&multiplication_normal(&a, &b).unwrap()));
}

#[test]
fn empty_and_single_cell_products() {
    let e = Matrix { rows: 0, cols: 0, vals: vec![] };
    let c = multiplication_normal(&e, &e).unwrap();
    assert_eq!((c.rows, c.cols), (0, 0));
    let c = by_strassen(&e, &e).unwrap();
    assert_eq!((c.rows, c.cols), (0, 0));
    let a = mat(&[&[6]]);
    let b = mat(&[&[-7]]);
    assert!(by_strassen(&a, &b).unwrap().isequal(&mat(&[&[-42]])));
    assert!(multiplication_normal(&a, &b).unwrap().isequal(&mat(&[&[-42]])));
    let row = mat(&[&[1, 2, 3]]);
    let col = mat(&[&[4], &[5], &[6]]);
    assert!(by_strassen(&row, &col).unwrap().isequal(&mat(&[&[32]])));
    let outer = by_strassen(&col, &row).unwrap();
    assert!(outer.isequal(&mat(&[&[4, 8, 12], &[5, 10, 15], &[6, 12, 18]])));
}

#[test]
fn inner_dimension_zero_gives_zero_matrix() {
    let a = Matrix { rows: 2, cols: 0, vals: vec![vec![], vec![]] };
    let b = Matrix { rows: 0, cols: 3, vals: vec![] };
    let zero = mat(&[&[0, 0, 0], &[0, 0, 0]]);
    assert!(multiplication_normal(&a, &b).unwrap().isequal(&zero));
    assert!(by_strassen(&a, &b).unwrap().isequal(&zero));
    assert!(fanned(&a, &b).unwrap().isequal(&zero));
}

#[test]
fn quadrants_of_a_matrix() {
    let m = mat(&[&[1, 2, 3, 4], &[5, 6, 7, 8], &[9, 10, 11, 12], &[13, 14, 15, 16]]);
    assert!(m.quad(1).unwrap().isequal(&mat(&[&[1, 2], &[5, 6]])));
    assert!(m.quad(2).unwrap().isequal(&mat(&[&[3, 4], &[7, 8]])));
    assert!(m.quad(3).unwrap().isequal(&mat(&[&[9, 10], &[13, 14]])));
    assert!(m.quad(4).unwrap().isequal(&mat(&[&[11, 12], &[15, 16]])));
}

#[test]
fn quad_then_combine_gives_matrix_back() {
    let m = patterned(4, 6, 2);
    let c = combine_quad(
        &m.quad(1).unwrap(),
        &m.quad(2).unwrap(),
        &m.quad(3).unwrap(),
        &m.quad(4).unwrap(),
    )
    .unwrap();
    assert!(c.isequal(&m));
}

#[test]
fn combine_of_mismatched_quadrants_is_refused() {
    let a = patterned(2, 2, 0);
    let b = patterned(3, 2, 0);
    assert_eq!(
        combine_quad(&a, &b, &a, &a).unwrap_err(),
        MatrixError::IncompatibleQuadrants
    );
    let c = patterned(2, 3, 0);
    assert_eq!(
        combine_quad(&a, &a, &c, &a).unwrap_err(),
        MatrixError::IncompatibleQuadrants
    );
}

#[test]
fn combine_of_unequal_blocks() {
    let a = mat(&[&[1]]);
    let b = mat(&[&[2, 3]]);
    let c = mat(&[&[4], &[5]]);
    let d = mat(&[&[6, 7], &[8, 9]]);
    let r = combine_quad(&a, &b, &c, &d).unwrap();
    assert!(r.isequal(&mat(&[&[1, 2, 3], &[4, 6, 7], &[5, 8, 9]])));
}

#[test]
fn combine_vecs_appends() {
    assert_eq!(combine_vecs(vec![1, 2], vec![3]), vec![1, 2, 3]);
    assert_eq!(combine_vecs(vec![], vec![4, 5]), vec![4, 5]);
}

#[test]
fn fill_then_trim_gives_matrix_back() {
    let m = patterned(3, 5, 4);
    let mut p = m.clone();
    p.fill_zeroes(6).unwrap();
    assert_eq!((p.rows, p.cols), (6, 6));
    assert_eq!(p.vals[2][5], 0);
    assert_eq!(p.vals[5][0], 0);
    assert_eq!(p.vals[2][4], m.vals[2][4]);
    p.trim(3, 5);
    assert!(p.isequal(&m));
}

#[test]
fn fill_zeroes_to_own_size_keeps_square() {
    let m = patterned(4, 4, 1);
    let mut p = m.clone();
    p.fill_zeroes(4).unwrap();
    assert!(p.isequal(&m));
}

#[test]
fn fill_zeroes_below_size_is_refused() {
    let m = patterned(3, 5, 4);
    let mut p = m.clone();
    assert_eq!(p.fill_zeroes(4).unwrap_err(), MatrixError::SizeTooSmall);
    assert!(p.isequal(&m));
}

#[test]
fn trim_and_vec_part() {
    let m = mat(&[&[1, 2, 3], &[4, 5, 6], &[7, 8, 9]]);
    assert_eq!(m.get_vec_part(1, 3, 0, 2), vec![vec![4, 5], vec![7, 8]]);
    let mut t = m.clone();
    t.trim(2, 1);
    assert!(t.isequal(&mat(&[&[1], &[4]])));
}

#[test]
fn add_sub_values() {
    let a = mat(&[&[1, 2], &[3, 4]]);
    let b = mat(&[&[10, -20], &[30, 0]]);
    assert!(a.add(&b).unwrap().isequal(&mat(&[&[11, -18], &[33, 4]])));
    assert!(a.sub(&b).unwrap().isequal(&mat(&[&[-9, 22], &[-27, 4]])));
    let big = mat(&[&[i64::MAX]]);
    let one = mat(&[&[1]]);
    assert!(big.add(&one).unwrap().isequal(&mat(&[&[i64::MIN]])));
}

#[test]
fn add_is_commutative_and_associative() {
    let a = patterned(3, 4, 1);
    let b = patterned(3, 4, 6);
    let c = patterned(3, 4, 11);
    assert!(a.add(&b).unwrap().isequal(&b.add(&a).unwrap()));
    let left = a.add(&b).unwrap().add(&c).unwrap();
    let right = a.add(&b.add(&c).unwrap()).unwrap();
    assert!(left.isequal(&right));
}

#[test]
fn sub_is_add_of_negation() {
    let a = patterned(3, 4, 1);
    let b = patterned(3, 4, 6);
    assert!(a.sub(&b).unwrap().isequal(&a.add(&b.negate()).unwrap()));
    assert!(mat(&[&[5, -3]]).negate().isequal(&mat(&[&[-5, 3]])));
}

#[test]
fn add_sub_shape_mismatch_is_refused() {
    let a = patterned(2, 3, 0);
    let b = patterned(3, 2, 0);
    assert_eq!(a.add(&b).unwrap_err(), MatrixError::DimensionMismatch);
    assert_eq!(a.sub(&b).unwrap_err(), MatrixError::DimensionMismatch);
}

#[test]
fn isequal_checks_shape_and_cells() {
    let a = mat(&[&[1, 2], &[3, 4]]);
    assert!(a.isequal(&a.clone()));
    assert!(!a.isequal(&mat(&[&[1, 2], &[3, 5]])));
    assert!(!a.isequal(&mat(&[&[1, 2]])));
}

#[test]
fn missing_unit_is_a_failed_task() {
    let a = patterned(2, 2, 0);
    let b = patterned(2, 2, 1);
    let terms = vec![vec![vec![1, 2], vec![3]], vec![vec![0, 0], vec![0, 0]]];
    assert_eq!(reduce_partials(&a, &b, &terms).unwrap_err(), MatrixError::ParallelTaskFailure);
    let terms = vec![vec![vec![1, 2], vec![3, 4]], vec![vec![5, 6], vec![7, 8]]];
    let r = reduce_partials(&a, &b, &terms).unwrap();
    assert!(r.isequal(&mat(&[&[3, 7], &[11, 15]])));
}

#[test]
fn unit_term_value() {
    let a = mat(&[&[1, 2], &[3, 4]]);
    let b = mat(&[&[5, 6], &[7, 8]]);
    assert_eq!(unit_term(&a, &b, 1, 0, 1), 28);
}

#[test]
fn default_policy_and_greatest_dim() {
    assert_eq!(MulPolicy::new().naive_above, 700);
    assert_eq!(find_greatest_dim(&patterned(3, 5, 0), &patterned(5, 2, 0)), 5);
    assert_eq!(find_greatest_dim(&patterned(1, 2, 0), &patterned(2, 9, 0)), 9);
}

#[test]
fn construct_get_set() {
    assert_eq!(
        Matrix::from_vals(2, 2, vec![vec![1, 2], vec![3]]).unwrap_err(),
        MatrixError::DimensionMismatch
    );
    assert_eq!(
        Matrix::from_vals(3, 1, vec![vec![1]]).unwrap_err(),
        MatrixError::DimensionMismatch
    );
    let mut m = Matrix::from_vals(2, 2, vec![vec![1, 2], vec![3, 4]]).unwrap();
    assert_eq!(m.get(1, 0), 3);
    m.set(1, 0, 9);
    assert!(m.isequal(&mat(&[&[1, 2], &[9, 4]])));
}
