use ark_bls12_381::Fr;
use ark_ff::{BigInt, PrimeField};
use dynamic_data::byte_data::Data;
use dynamic_data::encoder::G8Encoder;
use dynamic_data::field_matrix::Matrix;
use dynamic_data::kzg::KZGPolyComm;
use dynamic_data::params::{DataError, Params};
use dynamic_data::scalar::Scalar;
use dynamic_data::traits::{DataMatrix, Encoder};

fn to_fr(s: Scalar) -> Fr {
    Fr::from_bigint(BigInt::new(s.limbs())).unwrap()
}

fn to_scalar(f: Fr) -> Scalar {
    Scalar::from_limbs(f.into_bigint().0).unwrap()
}

fn plus(a: Scalar, b: u64) -> Scalar {
    to_scalar(to_fr(a) + Fr::from(b))
}

#[test]
fn evaluation_form_opens_every_cell() {
    let n = 8;
    let k = 4;
    let m = 8;
    let params = Params { k, n, m };
    let mut data = Data::new_random(params.clone());
    G8Encoder::encode(&mut data).expect("encode failed");
    let matrix = Matrix::from_data(&data);

    let scheme = KZGPolyComm::new(params);
    let srs = scheme.setup().expect("setup should succeed");
    let kzg_comm = scheme.commit(&srs, &matrix).expect("commit_rows should succeed");

    for row in 0..n {
        for col in 0..m {
            let proof = KZGPolyComm::open(&kzg_comm, &srs, row, col).expect("open should succeed");
            let expected: Scalar = matrix.elms[row][col].clone();
            assert!(
                KZGPolyComm::verify(&kzg_comm, &srs, row, col, expected, &proof).expect("verify should succeed"),
                "KZG open/verify failed for row={}, col={}",
                row,
                col
            );
        }
    }
}

#[test]
fn committed_polynomial_reproduces_each_row() {
    let params = Params { k: 3, n: 5, m: 6 };
    let matrix = Matrix::new_random(params);
    let scheme = KZGPolyComm::new(params);
    let srs = scheme.setup().expect("setup");
    let comms = scheme.commit(&srs, &matrix).expect("commit");
    let (polys, cs) = comms.get_refs();
    assert_eq!(polys.len(), 5);
    assert_eq!(cs.len(), 5);
    for r in 0..5 {
        // six cells interpolate over the domain of eight points
        assert_eq!(polys[r].coeffs.len(), 8);
        for c in 0..6 {
            let x = srs.get_domain_element(c).expect("point");
            assert_eq!(polys[r].evaluate(x), matrix.elms[r][c]);
        }
    }
}

#[test]
fn verify_rejects_a_changed_value_or_column() {
    let params = Params { k: 1, n: 2, m: 4 };
    let matrix = Matrix::new_random(params);
    let scheme = KZGPolyComm::new(params);
    let srs = scheme.setup().expect("setup");
    let comms = scheme.commit(&srs, &matrix).expect("commit");
    let proof = KZGPolyComm::open(&comms, &srs, 0, 1).expect("open");
    let v = matrix.elms[0][1];
    assert_eq!(KZGPolyComm::verify(&comms, &srs, 0, 1, v, &proof), Ok(true));
    assert_eq!(KZGPolyComm::verify(&comms, &srs, 0, 1, plus(v, 1), &proof), Ok(false));
    assert_eq!(KZGPolyComm::verify(&comms, &srs, 0, 2, v, &proof), Ok(false));
    assert_eq!(KZGPolyComm::verify(&comms, &srs, 1, 1, v, &proof), Ok(false));
    assert_eq!(KZGPolyComm::verify(&comms, &srs, 2, 1, v, &proof), Err(DataError::RowOutOfBounds { row: 2, n: 2 }));
    assert_eq!(KZGPolyComm::verify(&comms, &srs, 0, 4, v, &proof), Err(DataError::ColOutOfBounds { col: 4, m: 4 }));
}

#[test]
fn open_checks_bounds() {
    let params = Params { k: 1, n: 2, m: 4 };
    let matrix = Matrix::new_random(params);
    let scheme = KZGPolyComm::new(params);
    let srs = scheme.setup().expect("setup");
    let comms = scheme.commit(&srs, &matrix).expect("commit");
    assert_eq!(KZGPolyComm::open(&comms, &srs, 2, 0).err(), Some(DataError::RowOutOfBounds { row: 2, n: 2 }));
    assert_eq!(KZGPolyComm::open(&comms, &srs, 0, 4).err(), Some(DataError::ColOutOfBounds { col: 4, m: 4 }));
}

#[test]
fn whole_row_update_matches_fresh_commit() {
    let params = Params { k: 2, n: 3, m: 5 };
    let mut matrix = Matrix::new_random(params);
    let scheme = KZGPolyComm::new(params);
    let srs = scheme.setup().expect("setup");
    let mut comms = scheme.commit(&srs, &matrix).expect("commit");
    let old_row = matrix.get_row(1).expect("row");
    let new_row: Vec<Scalar> = old_row.iter().enumerate().map(|(i, v)| plus(*v, i as u64 * 3 + 1)).collect();
    for c in 0..5 {
        matrix.set(1, c, new_row[c]).expect("set");
    }
    KZGPolyComm::update_commitments(&srs, &mut comms, 1, &old_row, &new_row).expect("update");
    let fresh = scheme.commit(&srs, &matrix).expect("fresh");
    assert_eq!(comms.poly, fresh.poly);
    assert_eq!(comms.comm, fresh.comm);
    let proof = KZGPolyComm::open(&comms, &srs, 1, 4).expect("open");
    assert_eq!(KZGPolyComm::verify(&comms, &srs, 1, 4, new_row[4], &proof), Ok(true));
}

#[test]
fn whole_row_update_errors() {
    let params = Params { k: 1, n: 2, m: 2 };
    let matrix = Matrix::new_random(params);
    let scheme = KZGPolyComm::new(params);
    let srs = scheme.setup().expect("setup");
    let mut comms = scheme.commit(&srs, &matrix).expect("commit");
    let row = matrix.get_row(0).expect("row");
    assert_eq!(
        KZGPolyComm::update_commitments(&srs, &mut comms, 2, &row, &row),
        Err(DataError::RowOutOfBounds { row: 2, n: 2 })
    );
    assert_eq!(
        KZGPolyComm::update_commitments(&srs, &mut comms, 0, &row[..1], &row),
        Err(DataError::LengthMismatch { expected: 2, found: 1 })
    );
    assert_eq!(KZGPolyComm::new(Params { k: 0, n: 1, m: 0 }).setup().err(), Some(DataError::Setup));
}

#[test]
fn whole_row_noop_update_leaves_row_unchanged() {
    let params = Params { k: 1, n: 2, m: 3 };
    let matrix = Matrix::new_random(params);
    let scheme = KZGPolyComm::new(params);
    let srs = scheme.setup().expect("setup");
    let mut comms = scheme.commit(&srs, &matrix).expect("commit");
    let before = comms.clone();
    let row = matrix.get_row(1).expect("row");
    KZGPolyComm::update_commitments(&srs, &mut comms, 1, &row, &row).expect("no-op");
    assert_eq!(comms.poly, before.poly);
    assert_eq!(comms.comm, before.comm);
}

#[test]
fn test_commit_columns_roundtrip() {
    let n = 8;
    let k = 4;
    let m = 8;

    let dd = dynamic_data::dynamic_data::DynamicData::setup(n, k, m).expect("setup should succeed");
    let matrix = Matrix::new_random(Params { k, n, m });

    let cols = dd.commit_columns(&matrix).expect("commit_columns should succeed");

    // one polynomial and one commitment per column
    assert_eq!(cols.len(), m);

    // each polynomial interpolates its column
    for (i, c) in cols.iter().enumerate() {
        let col = matrix.get_col(i).unwrap();
        let evals: Vec<_> = (0..n).map(|j| c.poly.evaluate(dd.srs.get_domain_element(j).unwrap())).collect();
        assert_eq!(evals, col);
    }
}

#[test]
fn commit_refuses_a_matrix_of_another_width() {
    let params = Params { k: 1, n: 2, m: 3 };
    let srs = KZGPolyComm::new(params).setup().expect("setup");
    let other = Matrix::new_random(Params { k: 1, n: 2, m: 4 });
    assert_eq!(
        KZGPolyComm::new(params).commit(&srs, &other).err(),
        Some(DataError::LengthMismatch { expected: 3, found: 4 })
    );
    let dd = dynamic_data::dynamic_data::DynamicData::setup(3, 1, 4).expect("setup");
    assert_eq!(dd.commit_columns(&other).err(), Some(DataError::LengthMismatch { expected: 3, found: 2 }));
}
