use ark_bls12_381::Fr;
use ark_ff::{BigInt, PrimeField};
use dynamic_data::byte_data::Data;
use dynamic_data::encoder::G8Encoder;
use dynamic_data::field_encoder::BLSFieldEncoder;
use dynamic_data::field_matrix::Matrix;
use dynamic_data::kzg10::{get_vk, KZG10PolyComm};
use dynamic_data::matrix_commit::MatrixPolyComm;
use dynamic_data::params::{DataError, Params};
use dynamic_data::scalar::Scalar;
use dynamic_data::traits::{CommitOutputTrait, DataMatrix, Encoder};

fn to_fr(s: Scalar) -> Fr {
    Fr::from_bigint(BigInt::new(s.limbs())).unwrap()
}

fn to_scalar(f: Fr) -> Scalar {
    Scalar::from_limbs(f.into_bigint().0).unwrap()
}

fn plus(a: Scalar, b: u64) -> Scalar {
    to_scalar(to_fr(a) + Fr::from(b))
}

#[test]
fn test_commit_rows() {
    let n = 8;
    let k = 4;
    let m = 8;
    let params = Params { k, n, m };
    let mut data = Data::new_random(params.clone());
    G8Encoder::encode(&mut data).expect("encode failed");
    let matrix = Matrix::from_data(&data);

    let degree = m;
    let srs = MatrixPolyComm::setup(degree).expect("setup should succeed");
    let kzg_comm = MatrixPolyComm::commit(&srs, &matrix).expect("commit_rows should succeed");

    assert_eq!(kzg_comm.comm_output.len(), m);

    // each polynomial takes the row's values at the domain points
    for i in 0..m {
        let row = matrix.get_row(i).unwrap();
        let evals: Vec<_> = (0..m).map(|j| kzg_comm.get_poly(i).evaluate(srs.get_domain_element(j).unwrap())).collect();
        assert_eq!(evals, row);
    }
}

#[test]
fn test_kzg10_update_commitments() {
    let n = 8;
    let k = 4;
    let m = 8;
    let params = Params { k, n, m };
    let mut data = Data::new_random(params.clone());
    G8Encoder::encode(&mut data).expect("encode failed");
    let matrix = Matrix::from_data(&data);

    let degree = m;
    let srs = KZG10PolyComm::setup(degree).expect("setup should succeed");
    let mut row = matrix.get_row(0).expect("get row");
    let mut com = KZG10PolyComm::commit(&srs, row.clone()).expect("commit");

    for i in 0..m {
        let row_elem = row[i].clone();
        let eval = com.poly.evaluate(srs.get_domain_element(i).unwrap());
        assert_eq!(eval, row_elem);
    }

    let cell = row[0].clone();
    let new_cell = plus(cell, 10);

    KZG10PolyComm::update_commitment(&srs, &mut com, cell, new_cell.clone(), 0).expect("update comm");

    let eval = com.poly.evaluate(srs.get_domain_element(0).unwrap());
    assert_eq!(eval, new_cell);

    row[0] = new_cell;

    let new_com = KZG10PolyComm::commit(&srs, row.clone()).expect("commit");

    assert_eq!(com.comm, new_com.comm);
}

#[test]
fn test_update_commitments() {
    let n = 8;
    let k = 4;
    let m = 8;
    let params = Params { k, n, m };
    let mut data = Data::new_random(params.clone());
    G8Encoder::encode(&mut data).expect("encode failed");
    let mut matrix = Matrix::from_data(&data);

    let degree = m;
    let srs = MatrixPolyComm::setup(degree).expect("setup should succeed");
    let mut kzg_comm = MatrixPolyComm::commit(&srs, &matrix).expect("commit_rows should succeed");

    let col_idx = 1;
    let old_col = matrix.get_col(col_idx).expect("get old col");
    let new_col_data: Vec<_> = old_col.iter().take(k).map(|v| plus(*v, 10)).collect();

    matrix.update_col(col_idx, &new_col_data).expect("update col");
    let encoded_new_col = matrix.get_col(col_idx).expect("get old col");

    MatrixPolyComm::update_commitments(&srs, &mut kzg_comm, col_idx, &old_col, &encoded_new_col).expect("update comm");

    for i in 0..m {
        let row = matrix.get_row(i).unwrap();
        let evals: Vec<_> = (0..m).map(|j| kzg_comm.get_poly(i).evaluate(srs.get_domain_element(j).unwrap())).collect();
        assert_eq!(evals, row);
    }

    let kzg_comm_fresh = MatrixPolyComm::commit(&srs, &matrix).expect("commit updated matrix");
    for (i, old_lbl_comm) in kzg_comm.comm_output.iter().enumerate() {
        let updated_comm = old_lbl_comm.get_comm();
        let fresh_comm = kzg_comm_fresh.get_comm(i);
        assert_eq!(updated_comm, fresh_comm, "Row commitment mismatch at row {}", i);
    }
}

#[test]
fn column_five_update_matches_fresh_commit() {
    let (k, n, m) = (4, 8, 8);
    let params = Params { k, n, m };
    let data = Data::new_random(params);
    let mut matrix = Matrix::from_data(&data);
    BLSFieldEncoder::encode(&mut matrix).expect("encode");
    let srs = MatrixPolyComm::setup(m).expect("setup");
    let mut comm = MatrixPolyComm::commit(&srs, &matrix).expect("commit");

    let old_col = matrix.get_col(5).expect("old col");
    let new_vals: Vec<Scalar> = (0..4u64).map(Scalar::from_u64).collect();
    matrix.update_col(5, &new_vals).expect("update col");
    BLSFieldEncoder::encode_col(&mut matrix, 5).expect("encode col");
    let new_col = matrix.get_col(5).expect("new col");
    assert_eq!(new_col[..4], new_vals[..]);

    MatrixPolyComm::update_commitments(&srs, &mut comm, 5, &old_col, &new_col).expect("update");
    let fresh = MatrixPolyComm::commit(&srs, &matrix).expect("fresh");
    for r in 0..n {
        assert_eq!(comm.get_poly(r), fresh.get_poly(r));
        assert_eq!(comm.get_comm(r), fresh.get_comm(r));
    }
}

#[test]
fn noop_update_leaves_commitment_unchanged() {
    let srs = KZG10PolyComm::setup(4).expect("setup");
    let row: Vec<Scalar> = (1..5u64).map(Scalar::from_u64).collect();
    let mut com = KZG10PolyComm::commit(&srs, row.clone()).expect("commit");
    let before = com.clone();
    KZG10PolyComm::update_commitment(&srs, &mut com, row[2], row[2], 2).expect("no-op");
    assert_eq!(com.poly, before.poly);
    assert_eq!(com.comm, before.comm);
    // a no-op column update too
    let params = Params { k: 1, n: 2, m: 4 };
    let matrix = Matrix { params, elms: vec![row.clone(), row.clone()] };
    let mut mc = MatrixPolyComm::commit(&srs, &matrix).expect("commit");
    let col = matrix.get_col(3).expect("col");
    MatrixPolyComm::update_commitments(&srs, &mut mc, 3, &col, &col).expect("no-op column");
    assert_eq!(mc.get_comm(0), &before.comm);
}

#[test]
fn update_commitment_out_of_range_index() {
    let srs = KZG10PolyComm::setup(3).expect("setup");
    let row: Vec<Scalar> = (1..4u64).map(Scalar::from_u64).collect();
    let mut com = KZG10PolyComm::commit(&srs, row.clone()).expect("commit");
    let before = com.clone();
    let r = KZG10PolyComm::update_commitment(&srs, &mut com, Scalar::from_u64(0), Scalar::from_u64(1), 3);
    assert_eq!(r, Err(DataError::ColOutOfBounds { col: 3, m: 3 }));
    assert_eq!(com.poly, before.poly);
    assert_eq!(com.comm, before.comm);
}

#[test]
fn commitment_differs_from_other_row() {
    let srs = KZG10PolyComm::setup(2).expect("setup");
    let a = KZG10PolyComm::commit(&srs, vec![Scalar::from_u64(1), Scalar::from_u64(2)]).expect("a");
    let b = KZG10PolyComm::commit(&srs, vec![Scalar::from_u64(2), Scalar::from_u64(1)]).expect("b");
    assert!(a.comm != b.comm);
    assert_eq!(a.comm.0.len(), 48);
}

#[test]
fn setup_and_commit_errors() {
    assert_eq!(KZG10PolyComm::setup(0).err(), Some(DataError::Setup));
    let srs = KZG10PolyComm::setup(2).expect("setup");
    assert_eq!(srs.pp.powers_of_g.len(), 3);
    let too_long: Vec<Scalar> = (0..4u64).map(Scalar::from_u64).collect();
    assert_eq!(
        KZG10PolyComm::commit(&srs, too_long).err(),
        Some(DataError::LengthMismatch { expected: 2, found: 4 })
    );
    // five cells interpolate over eight points
    let wide = KZG10PolyComm::setup(5).expect("setup");
    assert_eq!(wide.pp.powers_of_g.len(), 9);
}

#[test]
fn open_verify_accepts_true_value_and_rejects_others() {
    let m = 4;
    let srs = KZG10PolyComm::setup(m).expect("setup");
    let vk = get_vk(&srs.pp);
    let row: Vec<Scalar> = vec![3, 1, 4, 1].into_iter().map(Scalar::from_u64).collect();
    let com = KZG10PolyComm::commit(&srs, row.clone()).expect("commit");
    for col in 0..m {
        let proof = KZG10PolyComm::open(&com, &srs, col).expect("open");
        let point = srs.get_domain_element(col).expect("point");
        let value = row[col];
        assert_eq!(com.get_poly().evaluate(point), value);
        assert!(KZG10PolyComm::verify(&vk, com.get_comm(), point, value, &proof));
        assert!(!KZG10PolyComm::verify(&vk, com.get_comm(), point, plus(value, 1), &proof));
        let mut bad = proof.clone();
        bad.w[3] ^= 1;
        assert!(!KZG10PolyComm::verify(&vk, com.get_comm(), point, value, &bad));
    }
    assert_eq!(KZG10PolyComm::open(&com, &srs, m).err(), Some(DataError::ColOutOfBounds { col: m, m }));
}

#[test]
fn matrix_open_checks_bounds() {
    let srs = MatrixPolyComm::setup(2).expect("setup");
    let params = Params { k: 1, n: 2, m: 2 };
    let matrix = Matrix { params, elms: vec![vec![Scalar::from_u64(1); 2]; 2] };
    let mc = MatrixPolyComm::commit(&srs, &matrix).expect("commit");
    assert_eq!(MatrixPolyComm::open(&mc, &srs, 2, 0).err(), Some(DataError::RowOutOfBounds { row: 2, n: 2 }));
    assert_eq!(MatrixPolyComm::open(&mc, &srs, 0, 2).err(), Some(DataError::ColOutOfBounds { col: 2, m: 2 }));
    assert!(MatrixPolyComm::open(&mc, &srs, 1, 1).is_ok());
}

#[test]
fn update_commitments_length_errors() {
    let srs = MatrixPolyComm::setup(2).expect("setup");
    let params = Params { k: 1, n: 2, m: 2 };
    let matrix = Matrix { params, elms: vec![vec![Scalar::from_u64(1); 2]; 2] };
    let mut mc = MatrixPolyComm::commit(&srs, &matrix).expect("commit");
    let one = vec![Scalar::from_u64(1)];
    let two = vec![Scalar::from_u64(1); 2];
    assert_eq!(
        MatrixPolyComm::update_commitments(&srs, &mut mc, 0, &one, &two),
        Err(DataError::LengthMismatch { expected: 1, found: 2 })
    );
    assert_eq!(
        MatrixPolyComm::update_commitments(&srs, &mut mc, 0, &one, &one),
        Err(DataError::LengthMismatch { expected: 2, found: 1 })
    );
    assert_eq!(
        MatrixPolyComm::update_commitments(&srs, &mut mc, 2, &two, &two),
        Err(DataError::ColOutOfBounds { col: 2, m: 2 })
    );
}

#[test]
fn test_open_commitments() {
    let n = 8;
    let k = 4;
    let m = 8;
    let params = Params { k, n, m };
    let mut data = Data::new_random(params.clone());
    G8Encoder::encode(&mut data).expect("encode failed");
    let matrix = Matrix::from_data(&data);

    let degree = m;
    let srs = MatrixPolyComm::setup(degree).expect("setup should succeed");
    let kzg_comm = MatrixPolyComm::commit(&srs, &matrix).expect("commit_rows should succeed");

    // verifier part
    let vk = get_vk(&srs.pp);
    let verifier_comms: Vec<_> = kzg_comm.comm_output.iter().map(|c| c.get_comm().clone()).collect();

    for row in 0..n {
        for col in 0..m {
            let proof = MatrixPolyComm::open(&kzg_comm, &srs, row, col).expect("open should succeed");
            let expected: Scalar = matrix.elms[row][col].clone();
            let point = srs.get_domain_element(col).expect("point");
            assert!(
                MatrixPolyComm::verify(&vk, &verifier_comms[row], point, expected, &proof),
                "KZG open/verify failed for row={}, col={}",
                row,
                col
            );
        }
    }
}
