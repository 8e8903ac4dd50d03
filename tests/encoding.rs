use dynamic_data::byte_data::Data;
use dynamic_data::encoder::G8Encoder;
use dynamic_data::field_encoder::{BLSEncoder, BLSFieldEncoder};
use dynamic_data::field_matrix::Matrix;
use dynamic_data::params::{DataError, Params};
use dynamic_data::traits::{DataMatrix, Encoder};

#[test]
fn test_encode_columns() {
    let k = 4;
    let p = 4;
    let n = k + p;
    let m = 8;
    let params = Params { k, n, m };
    let mut data = Data::new_random(params);
    println!("data #row ={}", data.matrix.len());
    println!("data #col ={}", data.matrix[0].len());
    let original: Vec<Vec<u8>> = data.matrix[..k].to_vec();

    G8Encoder::encode(&mut data).expect("encode failed");

    // the data rows are unchanged
    assert_eq!(data.matrix[..k], original[..]);

    // lose one data row and one parity row
    let mut matrix_opts: Vec<_> = data.matrix.iter().cloned().map(Some).collect();
    matrix_opts[1] = None;
    matrix_opts[k] = None;

    G8Encoder::reconstruct(data.params.clone(), &mut matrix_opts).expect("reconstruction should succeed");

    for i in 0..k {
        let recovered = matrix_opts[i].clone().unwrap();
        assert_eq!(recovered, &original[i][..]);
    }
}

#[test]
fn test_bls_encoder() {
    let k = 4;
    let p = 4;
    let n = k + p;
    let m = 8;
    let params = Params { k, n, m };
    let mut data = Data::new_random(params);
    let original: Vec<Vec<u8>> = data.matrix[..k].to_vec();

    BLSEncoder::encode(&mut data).expect("encode failed");

    assert_eq!(data.matrix[..k], original[..]);
}

#[test]
fn test_bls_field_encoder() {
    let k = 4;
    let p = 4;
    let n = k + p;
    let m = 8;
    let params = Params { k, n, m };
    let data = Data::new_random(params);
    let mut original = Matrix::from_data(&data);
    let original_copy = Matrix::from_data(&data);

    BLSFieldEncoder::encode(&mut original).expect("encode failed");

    assert_eq!(original.elms[..k], original_copy.elms[..k]);
}

#[test]
fn test_update_col() {
    let n = 8;
    let k = 4;
    let m = 8;
    let params = Params { k, n, m };
    let mut data = Data::new_random(params);
    G8Encoder::encode(&mut data).expect("encode failed");

    let c = 5;
    let new_col: Vec<u8> = (0..k).map(|i| i as u8).collect();

    data.update_col(c, &new_col).expect("update col");

    for i in 0..k {
        assert_eq!(data.matrix[i][c], new_col[i], "data matrix {} at row {} should be updated", i, c);
    }

    G8Encoder::encode_col(&mut data, c).expect("encode col");
}

#[test]
fn encode_is_a_pure_function_of_the_data_rows() {
    let params = Params { k: 3, n: 6, m: 5 };
    let mut a = Data::new_random(params);
    G8Encoder::encode(&mut a).expect("encode");
    let snapshot = a.matrix.clone();
    // stale parity must not matter
    for i in 3..6 {
        for j in 0..5 {
            a.matrix[i][j] = 0xAA;
        }
    }
    G8Encoder::encode(&mut a).expect("encode again");
    assert_eq!(a.matrix, snapshot);
}

#[test]
fn encode_col_agrees_with_whole_matrix_encode() {
    let params = Params { k: 4, n: 8, m: 6 };
    let mut a = Data::new_random(params);
    let mut b = a.clone();
    G8Encoder::encode(&mut a).expect("encode");
    for c in 0..6 {
        G8Encoder::encode_col(&mut b, c).expect("encode col");
    }
    assert_eq!(a.matrix, b.matrix);
}

#[test]
fn byte_parity_is_nontrivial() {
    // one data row of ones: parity must differ from handing the zero rows back
    let params = Params { k: 2, n: 4, m: 1 };
    let mut d = Data { params, matrix: vec![vec![1], vec![2], vec![0], vec![0]] };
    G8Encoder::encode(&mut d).expect("encode");
    assert_eq!(d.matrix[0], vec![1]);
    assert_eq!(d.matrix[1], vec![2]);
    assert!(d.matrix[2] != vec![0] || d.matrix[3] != vec![0]);
}

#[test]
fn reconstruct_every_erasure_pattern_up_to_parity() {
    let params = Params { k: 3, n: 5, m: 4 };
    let mut data = Data::new_random(params);
    G8Encoder::encode(&mut data).expect("encode");
    for a in 0..5 {
        for b in a..5 {
            let mut opts: Vec<_> = data.matrix.iter().cloned().map(Some).collect();
            opts[a] = None;
            opts[b] = None;
            G8Encoder::reconstruct(params, &mut opts).expect("two holes of two parity rows");
            let back: Vec<Vec<u8>> = opts.into_iter().map(|o| o.unwrap()).collect();
            assert_eq!(back, data.matrix);
        }
    }
}

#[test]
fn reconstruct_refuses_too_many_holes() {
    let params = Params { k: 4, n: 6, m: 3 };
    let mut data = Data::new_random(params);
    G8Encoder::encode(&mut data).expect("encode");
    let mut opts: Vec<_> = data.matrix.iter().cloned().map(Some).collect();
    opts[0] = None;
    opts[2] = None;
    opts[5] = None;
    let before = opts.clone();
    assert_eq!(G8Encoder::reconstruct(params, &mut opts), Err(DataError::Unrecoverable));
    assert_eq!(opts, before);
}

#[test]
fn encode_refuses_more_than_256_rows() {
    let params = Params { k: 200, n: 300, m: 1 };
    let mut data = Data::new_random(params);
    let before = data.matrix.clone();
    assert_eq!(G8Encoder::encode(&mut data), Err(DataError::InvalidParams));
    assert_eq!(data.matrix, before);
}

#[test]
fn encode_col_out_of_range_column() {
    let params = Params { k: 2, n: 4, m: 3 };
    let mut data = Data::new_random(params);
    assert_eq!(G8Encoder::encode_col(&mut data, 3), Err(DataError::ColOutOfBounds { col: 3, m: 3 }));
    let mut f = Matrix::from_data(&data);
    assert_eq!(BLSFieldEncoder::encode_col(&mut f, 7), Err(DataError::ColOutOfBounds { col: 7, m: 3 }));
}

#[test]
fn field_encoder_parity_of_constant_column_is_constant() {
    // data all equal to 5: the interpolating polynomial is the constant 5
    let params = Params { k: 3, n: 8, m: 2 };
    let mut d = Data { params, matrix: vec![vec![5u8, 7u8]; 8] };
    for i in 3..8 {
        d.matrix[i] = vec![0, 0];
    }
    let mut f = Matrix::from_data(&d);
    BLSFieldEncoder::encode(&mut f).expect("encode");
    let five = Matrix::from_data(&Data { params, matrix: vec![vec![5u8, 7u8]; 8] });
    assert_eq!(f.elms, five.elms);
    // the byte strategy gives the same low bytes
    BLSEncoder::encode(&mut d).expect("encode");
    assert_eq!(d.matrix, vec![vec![5u8, 7u8]; 8]);
}

#[test]
fn field_encoder_parity_of_linear_column() {
    // values 1, 2 at the first two points; parity is the line through them
    let params = Params { k: 2, n: 4, m: 1 };
    let d = Data { params, matrix: vec![vec![1], vec![2], vec![0], vec![0]] };
    let mut f = Matrix::from_data(&d);
    BLSFieldEncoder::encode(&mut f).expect("encode");
    assert_eq!(f.elms[0], Matrix::from_data(&d).elms[0]);
    assert!(f.elms[2] != Matrix::from_data(&d).elms[2]);
}

#[test]
fn bls_encoder_restores_only_whole_columns() {
    let params = Params { k: 2, n: 4, m: 2 };
    let mut data = Data::new_random(params);
    BLSEncoder::encode(&mut data).expect("encode");
    let mut full: Vec<_> = data.matrix.iter().cloned().map(Some).collect();
    BLSEncoder::reconstruct(params, &mut full).expect("nothing to restore");
    let mut holed = full.clone();
    holed[0] = None;
    assert_eq!(BLSEncoder::reconstruct(params, &mut holed), Err(DataError::Unrecoverable));
}

#[test]
fn field_reconstruct_recovers_erased_rows() {
    let (k, p, m) = (4, 4, 8);
    let n = k + p;
    let params = Params { k, n, m };
    let data = Data::new_random(params);
    let mut matrix = Matrix::from_data(&data);
    BLSFieldEncoder::encode(&mut matrix).expect("encode");
    let mut opts: Vec<_> = matrix.elms.iter().cloned().map(Some).collect();
    opts[1] = None;
    opts[k] = None;
    BLSFieldEncoder::reconstruct(params, &mut opts).expect("reconstruct");
    let back: Vec<_> = opts.into_iter().map(|o| o.unwrap()).collect();
    assert_eq!(back, matrix.elms);
}

#[test]
fn field_reconstruct_with_only_data_rows_missing() {
    let params = Params { k: 3, n: 6, m: 2 };
    let data = Data::new_random(params);
    let mut matrix = Matrix::from_data(&data);
    BLSFieldEncoder::encode(&mut matrix).expect("encode");
    let mut opts: Vec<_> = matrix.elms.iter().cloned().map(Some).collect();
    opts[0] = None;
    opts[1] = None;
    opts[2] = None;
    BLSFieldEncoder::reconstruct(params, &mut opts).expect("reconstruct");
    let back: Vec<_> = opts.into_iter().map(|o| o.unwrap()).collect();
    assert_eq!(back, matrix.elms);
}

#[test]
fn field_reconstruct_errors() {
    let params = Params { k: 3, n: 5, m: 2 };
    let data = Data::new_random(params);
    let mut matrix = Matrix::from_data(&data);
    BLSFieldEncoder::encode(&mut matrix).expect("encode");
    let mut opts: Vec<_> = matrix.elms.iter().cloned().map(Some).collect();
    opts[0] = None;
    opts[1] = None;
    opts[4] = None;
    let before = opts.clone();
    assert_eq!(BLSFieldEncoder::reconstruct(params, &mut opts), Err(DataError::Unrecoverable));
    assert_eq!(opts, before);
    let mut short: Vec<_> = matrix.elms.iter().cloned().map(Some).collect();
    short[2] = Some(vec![matrix.elms[2][0]]);
    assert_eq!(
        BLSFieldEncoder::reconstruct(params, &mut short),
        Err(DataError::LengthMismatch { expected: 2, found: 1 })
    );
    let mut four: Vec<_> = matrix.elms[..4].iter().cloned().map(Some).collect();
    assert_eq!(
        BLSFieldEncoder::reconstruct(params, &mut four),
        Err(DataError::LengthMismatch { expected: 5, found: 4 })
    );
}

#[test]
fn encoders_refuse_parameters_without_parity() {
    let params = Params { k: 3, n: 3, m: 2 };
    let mut d = Data { params, matrix: vec![vec![1, 2]; 3] };
    assert_eq!(G8Encoder::encode(&mut d), Err(DataError::InvalidParams));
    assert_eq!(G8Encoder::encode_col(&mut d, 0), Err(DataError::InvalidParams));
    assert_eq!(BLSEncoder::encode(&mut d), Err(DataError::InvalidParams));
    let mut f = Matrix::from_data(&d);
    assert_eq!(BLSFieldEncoder::encode(&mut f), Err(DataError::InvalidParams));
    let mut opts: Vec<_> = d.matrix.iter().cloned().map(Some).collect();
    assert_eq!(G8Encoder::reconstruct(params, &mut opts), Err(DataError::InvalidParams));
    let mut fopts: Vec<_> = f.elms.iter().cloned().map(Some).collect();
    assert_eq!(BLSFieldEncoder::reconstruct(params, &mut fopts), Err(DataError::InvalidParams));
    assert_eq!(d.matrix, vec![vec![1, 2]; 3]);
}

#[test]
fn field_encoders_succeed_on_small_codes() {
    for (k, n) in [(1usize, 2usize), (4, 8), (3, 7), (5, 6)] {
        let params = Params { k, n, m: 2 };
        let d = Data::new_random(params);
        let mut f = Matrix::from_data(&d);
        assert_eq!(BLSFieldEncoder::encode(&mut f), Ok(()));
        let mut b = d.clone();
        assert_eq!(BLSEncoder::encode(&mut b), Ok(()));
    }
}
