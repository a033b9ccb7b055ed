use sublinear::error::AlgorithmError;
use sublinear::matrix::Matrix;

fn matrix_of(rows: &[&[i64]]) -> Matrix<i64> {
    let m = rows.len();
    let n = if m == 0 { 0 } else { rows[0].len() };
    let mut matrix = Matrix::new(n, m);
    for (i, row) in rows.iter().enumerate() {
        for (j, value) in row.iter().enumerate() {
            matrix.set(i, j, *value);
        }
    }
    matrix
}

fn rows_of(matrix: &Matrix<i64>) -> Vec<Vec<i64>> {
    (0..matrix.row_count())
        .map(|i| (0..matrix.column_count()).map(|j| matrix.get(i, j)).collect())
        .collect()
}

#[test]
fn multiply_two_by_two() {
    let a = matrix_of(&[&[1, 2], &[3, 4]]);
    let b = matrix_of(&[&[5, 6], &[7, 8]]);
    let c = a.multiply(&b).unwrap();
    assert_eq!(rows_of(&c), vec![vec![19, 22], vec![43, 50]]);
}

#[test]
fn multiply_mismatched_inner_dimension() {
    let a = matrix_of(&[&[1, 2, 3], &[4, 5, 6]]);
    let b = matrix_of(&[&[1, 2], &[3, 4]]);
    assert_eq!(a.multiply(&b).unwrap_err(), AlgorithmError::DimensionMismatch);
}

#[test]
fn multiply_uses_shared_dimension() {
    // 1×3 times 3×2: the shared dimension (3) differs from the row count (1).
    let a = matrix_of(&[&[1, 2, 3]]);
    let b = matrix_of(&[&[1, 0], &[0, 1], &[2, 2]]);
    let c = a.multiply(&b).unwrap();
    assert_eq!(c.row_count(), 1);
    assert_eq!(c.column_count(), 2);
    assert_eq!(rows_of(&c), vec![vec![7, 8]]);
}

#[test]
fn new_matrix_is_zero() {
    let m: Matrix<i64> = Matrix::new(3, 2);
    assert_eq!(m.row_count(), 2);
    assert_eq!(m.column_count(), 3);
    assert_eq!(rows_of(&m), vec![vec![0, 0, 0], vec![0, 0, 0]]);
}

#[test]
fn scalar_multiplication_keeps_shape() {
    let a = matrix_of(&[&[1, -2, 3], &[0, 5, 6]]);
    let c = a.multiply_scalar(-3);
    assert_eq!(rows_of(&c), vec![vec![-3, 6, -9], vec![0, -15, -18]]);
}

#[test]
fn column_round_trip() {
    let v = vec![4i64, -1, 9];
    let m = Matrix::from_column(v.clone());
    assert_eq!(m.row_count(), 3);
    assert_eq!(m.column_count(), 1);
    assert_eq!(m.into_column().unwrap(), v);
}

#[test]
fn into_column_rejects_wide_rows() {
    let m = matrix_of(&[&[1, 2], &[3, 4]]);
    assert_eq!(m.into_column().unwrap_err(), AlgorithmError::MultipleElements);
}

#[test]
fn into_column_rejects_empty_rows() {
    let m: Matrix<i64> = Matrix::new(0, 2);
    assert_eq!(m.into_column().unwrap_err(), AlgorithmError::EmptyInput);
}

#[test]
fn multiply_vector_by_matrix() {
    let a = matrix_of(&[&[1, 2, 3], &[4, 5, 6]]);
    assert_eq!(a.multiply_vector(vec![1, 0, -1]).unwrap(), vec![-2, -2]);
    assert_eq!(a.multiply_vector(vec![1, 0]).unwrap_err(), AlgorithmError::DimensionMismatch);
}

#[test]
fn filled_matrix() {
    let m = Matrix::filled(2, 3, 7i64);
    assert_eq!(rows_of(&m), vec![vec![7, 7], vec![7, 7], vec![7, 7]]);
}

#[test]
fn table_rendering() {
    let m = matrix_of(&[&[1, -20], &[300, 4]]);
    assert_eq!(m.to_table_string().unwrap(), " ------ \n|1, -20|\n|300, 4|\n ------ \n");
    let empty: Matrix<i64> = Matrix::new(3, 0);
    assert_eq!(empty.to_table_string().unwrap_err(), AlgorithmError::EmptyInput);
    let extremes = matrix_of(&[&[i64::MIN, i64::MAX]]);
    assert_eq!(
        extremes.to_table_string().unwrap(),
        format!(" {} \n|{}, {}|\n {} \n", "-".repeat(41), i64::MIN, i64::MAX, "-".repeat(41))
    );
}
