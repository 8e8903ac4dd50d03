use dynamic_data::byte_data::Data;
use dynamic_data::field_matrix::Matrix;
use dynamic_data::params::{DataError, Params};
use dynamic_data::traits::DataMatrix;

#[test]
fn new_random_has_shape_and_zero_parity() {
    let params = Params { k: 3, n: 5, m: 4 };
    let d = Data::new_random(params);
    assert_eq!(d.matrix.len(), 5);
    for row in &d.matrix {
        assert_eq!(row.len(), 4);
    }
    for i in 3..5 {
        assert_eq!(d.matrix[i], vec![0u8; 4]);
    }
    let f = Matrix::new_random(params);
    assert_eq!(f.elms.len(), 5);
    let zero = Matrix::from_data(&d).elms[4][0];
    assert_eq!(f.elms[4], vec![zero; 4]);
}

#[test]
fn get_and_set_check_bounds() {
    let params = Params { k: 2, n: 3, m: 2 };
    let mut d = Data { params, matrix: vec![vec![1, 2], vec![3, 4], vec![5, 6]] };
    assert_eq!(d.get(1, 1), Ok(4));
    assert_eq!(d.get(3, 0), Err(DataError::RowOutOfBounds { row: 3, n: 3 }));
    assert_eq!(d.get(0, 2), Err(DataError::ColOutOfBounds { col: 2, m: 2 }));
    assert_eq!(d.set(2, 0, 9), Ok(()));
    assert_eq!(d.matrix[2][0], 9);
    assert_eq!(d.set(5, 0, 9), Err(DataError::RowOutOfBounds { row: 5, n: 3 }));
    assert_eq!(d.set(0, 5, 9), Err(DataError::ColOutOfBounds { col: 5, m: 2 }));
    assert_eq!(d.matrix, vec![vec![1, 2], vec![3, 4], vec![9, 6]]);
}

#[test]
fn rows_and_columns() {
    let params = Params { k: 2, n: 3, m: 2 };
    let d = Data { params, matrix: vec![vec![1, 2], vec![3, 4], vec![5, 6]] };
    assert_eq!(d.get_row(1), Ok(vec![3, 4]));
    assert_eq!(d.get_col(1), Ok(vec![2, 4, 6]));
    assert_eq!(d.get_row(3), Err(DataError::RowOutOfBounds { row: 3, n: 3 }));
    assert_eq!(d.get_col(2), Err(DataError::ColOutOfBounds { col: 2, m: 2 }));
}

#[test]
fn update_col_writes_only_data_rows() {
    let params = Params { k: 2, n: 3, m: 2 };
    let mut d = Data { params, matrix: vec![vec![1, 2], vec![3, 4], vec![5, 6]] };
    d.update_col(0, &[7, 8]).expect("update");
    assert_eq!(d.matrix, vec![vec![7, 2], vec![8, 4], vec![5, 6]]);
}

#[test]
fn update_col_rejects_wrong_length_and_column() {
    let params = Params { k: 2, n: 3, m: 2 };
    let mut d = Data { params, matrix: vec![vec![1, 2], vec![3, 4], vec![5, 6]] };
    assert_eq!(d.update_col(0, &[7]), Err(DataError::LengthMismatch { expected: 2, found: 1 }));
    assert_eq!(d.update_col(2, &[7, 8]), Err(DataError::ColOutOfBounds { col: 2, m: 2 }));
    assert_eq!(d.matrix, vec![vec![1, 2], vec![3, 4], vec![5, 6]]);
}

#[test]
fn params_checks() {
    let p = Params { k: 1, n: 2, m: 3 };
    assert_eq!(p.check_bounds(1, 2), Ok(()));
    assert_eq!(p.check_bounds(2, 0), Err(DataError::RowOutOfBounds { row: 2, n: 2 }));
    assert_eq!(p.check_rows(1), Ok(()));
    assert_eq!(p.check_cols(3), Err(DataError::ColOutOfBounds { col: 3, m: 3 }));
}

#[test]
fn row_mut_writes_through() {
    let params = Params { k: 1, n: 2, m: 2 };
    let mut d = Data { params, matrix: vec![vec![1, 2], vec![3, 4]] };
    d.get_row_mut(1)[0] = 30;
    assert_eq!(d.matrix[1], vec![30, 4]);
    let mut f = Matrix::from_data(&d);
    let first = f.elms[0][0];
    f.get_row_mut(1).expect("row")[1] = first;
    assert_eq!(f.elms[1][1], first);
    assert!(f.get_row_mut(2).is_err());
}

#[test]
fn from_data_embeds_bytes() {
    let params = Params { k: 1, n: 2, m: 2 };
    let d = Data { params, matrix: vec![vec![0, 255], vec![7, 1]] };
    let f = Matrix::from_data(&d);
    assert_eq!(f.elms[0][1].limbs(), [255, 0, 0, 0]);
    assert_eq!(f.elms[1][0].limbs(), [7, 0, 0, 0]);
    assert_eq!(f.get(1, 1).map(|s| s.limbs()), Ok([1, 0, 0, 0]));
}
