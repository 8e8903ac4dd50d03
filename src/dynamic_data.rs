use vstd::prelude::*;
use crate::field_matrix::Matrix;
use crate::grid::column_of;
use crate::kzg::{setup_srs, KZGSRS};
use crate::kzg10::{KZG10CommitOutput, KZG10PolyComm};
use crate::params::{DataError, Params};
use crate::poly::{all_wf, vals};
use crate::traits::DataMatrix;

verus! {

/// Commitments to the columns of a matrix: each column of `n` cells is
/// interpolated over the domain for `n` points and committed.
pub struct DynamicData {
    pub params: Params,
    pub srs: KZGSRS,
}

impl DynamicData {
    /// Parameters and a reference string for columns of `n` cells.
    pub fn setup(n: usize, k: usize, m: usize) -> (res: Result<Self, DataError>)
        ensures
            res is Ok ==> res.unwrap().srs.wf() && res.unwrap().srs.width == n
                && res.unwrap().params == (Params { k, n, m }),
            !(1 <= n <= 0x4000_0000) ==> res is Err,
    {
        let srs = setup_srs(n)?;
        Ok(DynamicData { params: Params { k, n, m }, srs })
    }

    /// Commits to every column of `matrix`, in column order.
    pub fn commit_columns(&self, matrix: &Matrix) -> (res: Result<Vec<KZG10CommitOutput>, DataError>)
        requires
            self.srs.wf(),
            matrix.wf(),
        ensures
            res is Ok <==> matrix.params.n == self.srs.width,
            res is Err ==> res == Err::<Vec<KZG10CommitOutput>, DataError>(
                DataError::LengthMismatch { expected: self.srs.width, found: matrix.params.n },
            ),
            res is Ok ==> res.unwrap()@.len() == matrix.params.m && forall|c: int|
                0 <= c < matrix.params.m ==> (#[trigger] res.unwrap()@[c]).is_commitment_of(
                    &self.srs,
                    vals(column_of(matrix.cells(), c)),
                ),
    {
        if matrix.params.n != self.srs.width {
            return Err(DataError::LengthMismatch { expected: self.srs.width, found: matrix.params.n });
        }
        let m = matrix.params.m;
        let mut out: Vec<KZG10CommitOutput> = Vec::new();
        let mut c: usize = 0;
        while c < m
            invariant
                self.srs.wf(),
                matrix.wf(),
                matrix.params.n == self.srs.width,
                m == matrix.params.m,
                c <= m,
                out@.len() == c,
                forall|a: int|
                    0 <= a < c ==> (#[trigger] out@[a]).is_commitment_of(
                        &self.srs,
                        vals(column_of(matrix.cells(), a)),
                    ),
            decreases m - c,
        {
            let col = match matrix.get_col(c) {
                Ok(col) => col,
                Err(e) => return Err(e),
            };
            assert(all_wf(col@)) by {
                assert forall|i: int| 0 <= i < col@.len() implies (#[trigger] col@[i]).wf() by {
                    assert(col@[i] == matrix.cells()[i][c as int]);
                }
            }
            let out_c = match KZG10PolyComm::commit(&self.srs, col) {
                Ok(o) => o,
                Err(e) => return Err(e),
            };
            out.push(out_c);
            c += 1;
        }
        Ok(out)
    }
}

} // verus!
