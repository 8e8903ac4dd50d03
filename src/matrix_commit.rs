use vstd::prelude::*;
use crate::field_matrix::Matrix;
use crate::kzg::KZGSRS;
use crate::kzg10::{
    all_g1, is_g1, is_g1_identity, is_g2_identity, kzg_accepts, kzg_commitment, kzg_witness, one_setup, reduced, Commitment,
    KZG10CommitOutput, KZG10PolyComm, Poly, Proof, VerifierKey,
};
use crate::params::DataError;
use crate::poly::{all_wf, domain_point, poly_eval, vals};
use crate::scalar::Scalar;
use crate::traits::DataMatrix;

verus! {

/// The integers of a grid of scalars.
pub open spec fn grid_vals(g: Seq<Seq<Scalar>>) -> Seq<Seq<int>> {
    g.map_values(|r: Seq<Scalar>| vals(r))
}

/// `g` with column `c` replaced by `col`.
pub open spec fn with_column(g: Seq<Seq<int>>, c: int, col: Seq<int>) -> Seq<Seq<int>> {
    Seq::new(g.len(), |r: int| g[r].update(c, col[r]))
}

/// Column `c` of an integer grid.
pub open spec fn int_column(g: Seq<Seq<int>>, c: int) -> Seq<int> {
    Seq::new(g.len(), |r: int| g[r][c])
}

/// One commitment per row of a matrix, index-aligned with the rows.
#[derive(Clone, Debug)]
pub struct MatrixCommitOutput {
    pub comm_output: Vec<KZG10CommitOutput>,
}

impl MatrixCommitOutput {
    pub fn new(comm_output: Vec<KZG10CommitOutput>) -> (r: Self)
        ensures
            r.comm_output@ == comm_output@,
    {
        MatrixCommitOutput { comm_output }
    }

    /// Every row commitment fits the reference string.
    pub open spec fn wf(&self, srs: &KZGSRS) -> bool {
        forall|r: int| 0 <= r < self.comm_output@.len() ==> (#[trigger] self.comm_output@[r]).wf(srs)
    }

    /// Row `r` of the set is the commitment to row `r` of `rows`, for every row.
    pub open spec fn commits_rows(&self, srs: &KZGSRS, rows: Seq<Seq<int>>) -> bool {
        &&& self.comm_output@.len() == rows.len()
        &&& forall|r: int|
            0 <= r < rows.len() ==> (#[trigger] self.comm_output@[r]).is_commitment_of(srs, rows[r])
    }

    /// The polynomial of row `idx`.
    pub fn get_poly(&self, idx: usize) -> (r: &Poly)
        requires
            idx < self.comm_output@.len(),
        ensures
            *r == self.comm_output@[idx as int].poly,
    {
        &self.comm_output[idx].poly
    }

    /// The commitment of row `idx`.
    pub fn get_comm(&self, idx: usize) -> (r: &Commitment)
        requires
            idx < self.comm_output@.len(),
        ensures
            *r == self.comm_output@[idx as int].comm,
    {
        &self.comm_output[idx].comm
    }
}

/// Commits to every row of a field matrix and keeps the row commitments in
/// step with column updates.
pub struct MatrixPolyComm;

impl MatrixPolyComm {
    /// The reference string for rows of `m` cells, `1 <= m <= 2^30`.
    pub fn setup(m: usize) -> (res: Result<KZGSRS, DataError>)
        ensures
            res is Ok ==> 1 <= m <= 0x4000_0000,
            !(1 <= m <= 0x4000_0000) ==> res == Err::<KZGSRS, DataError>(DataError::Setup),
            res is Ok ==> res.unwrap().wf() && res.unwrap().width == m,
    {
        KZG10PolyComm::setup(m)
    }

    /// Commits to each row, in row order.
    pub fn commit(srs: &KZGSRS, matrix: &Matrix) -> (res: Result<MatrixCommitOutput, DataError>)
        requires
            srs.wf(),
            matrix.wf(),
        ensures
            res is Ok <==> matrix.params.n == 0 || matrix.params.m == srs.width,
            res is Err ==> res == Err::<MatrixCommitOutput, DataError>(
                DataError::LengthMismatch { expected: srs.width, found: matrix.params.m },
            ),
            res is Ok ==> res.unwrap().wf(srs) && res.unwrap().commits_rows(srs, grid_vals(matrix.cells())),
    {
        let n = matrix.params.n;
        let ghost g = matrix.cells();
        let mut out: Vec<KZG10CommitOutput> = Vec::new();
        let mut i: usize = 0;
        while i < n
            invariant
                srs.wf(),
                matrix.wf(),
                g == matrix.cells(),
                n == matrix.params.n,
                i <= n,
                out@.len() == i,
                i > 0 ==> matrix.params.m == srs.width,
                forall|r: int| 0 <= r < i ==> (#[trigger] out@[r]).is_commitment_of(srs, vals(g[r])),
            decreases n - i,
        {
            let row = match matrix.get_row(i) {
                Ok(row) => row,
                Err(e) => return Err(e),
            };
            assert(all_wf(row@)) by {
                assert forall|j: int| 0 <= j < row@.len() implies (#[trigger] row@[j]).wf() by {
                    assert(g[i as int][j] == row@[j]);
                }
            }
            assert(row@.len() == matrix.params.m);
            let c = match KZG10PolyComm::commit(srs, row) {
                Ok(c) => c,
                Err(e) => return Err(e),
            };
            out.push(c);
            i += 1;
        }
        let res = MatrixCommitOutput::new(out);
        assert(grid_vals(g).len() == n);
        assert(res.commits_rows(srs, grid_vals(g)));
        Ok(res)
    }

    /// Reflects a change of column `col_idx` from `old_col` to `new_col` (one
    /// value per row, parity already re-encoded) in every row commitment,
    /// one cell per row, without committing any row afresh.
    pub fn update_commitments(
        srs: &KZGSRS,
        comm: &mut MatrixCommitOutput,
        col_idx: usize,
        old_col: &[Scalar],
        new_col: &[Scalar],
    ) -> (res: Result<(), DataError>)
        requires
            srs.wf(),
            old(comm).wf(srs),
            all_wf(old_col@),
            all_wf(new_col@),
        ensures
            final(comm).wf(srs),
            res is Ok <==> old_col@.len() == new_col@.len() && new_col@.len() == old(comm).comm_output@.len()
                && col_idx < srs.width,
            old_col@.len() != new_col@.len() ==> res == Err::<(), DataError>(
                DataError::LengthMismatch { expected: old_col@.len() as usize, found: new_col@.len() as usize },
            ),
            res is Err ==> *final(comm) == *old(comm),
            res is Ok && old_col@ == new_col@ ==> final(comm).comm_output@ == old(comm).comm_output@,
            forall|rows: Seq<Seq<int>>|
                #[trigger] old(comm).commits_rows(srs, rows) && res is Ok && int_column(rows, col_idx as int)
                    == vals(old_col@) ==> final(comm).commits_rows(
                    srs,
                    with_column(rows, col_idx as int, vals(new_col@)),
                ),
    {
        if old_col.len() != new_col.len() {
            return Err(DataError::LengthMismatch { expected: old_col.len(), found: new_col.len() });
        }
        let n = comm.comm_output.len();
        if new_col.len() != n {
            return Err(DataError::LengthMismatch { expected: n, found: new_col.len() });
        }
        if col_idx >= srs.width {
            return Err(DataError::ColOutOfBounds { col: col_idx, m: srs.width });
        }
        let ghost before = comm.comm_output@;
        let mut r: usize = 0;
        while r < n
            invariant
                srs.wf(),
                n == comm.comm_output@.len(),
                n == before.len(),
                old_col@.len() == n,
                new_col@.len() == n,
                all_wf(old_col@),
                all_wf(new_col@),
                col_idx < srs.width,
                before == old(comm).comm_output@,
                old(comm).wf(srs),
                r <= n,
                forall|t: int| 0 <= t < n ==> (#[trigger] comm.comm_output@[t]).wf(srs),
                forall|t: int| r <= t < n ==> #[trigger] comm.comm_output@[t] == before[t],
                forall|t: int|
                    0 <= t < r && old_col@[t] == new_col@[t] ==> #[trigger] comm.comm_output@[t] == before[t],
                forall|t: int, row: Seq<int>|
                    0 <= t < r && #[trigger] before[t].is_commitment_of(srs, row) && col_idx < row.len()
                        && row[col_idx as int] == old_col@[t].val() ==> comm.comm_output@[t].is_commitment_of(
                        srs,
                        row.update(col_idx as int, new_col@[t].val()),
                    ),
            decreases n - r,
        {
            let ghost prev = comm.comm_output@;
            assert(comm.comm_output@[r as int].wf(srs));
            let res = KZG10PolyComm::update_commitment(
                srs,
                &mut comm.comm_output[r],
                old_col[r],
                new_col[r],
                col_idx,
            );
            assert(res is Ok);
            assert forall|t: int| 0 <= t < n && t != r implies #[trigger] comm.comm_output@[t] == prev[t] by {
            }
            r += 1;
        }
        proof {
            if old_col@ == new_col@ {
                assert(comm.comm_output@ =~= before);
            }
            assert forall|rows: Seq<Seq<int>>|
                #[trigger] old(comm).commits_rows(srs, rows) && int_column(rows, col_idx as int) == vals(
                    old_col@,
                ) implies comm.commits_rows(srs, with_column(rows, col_idx as int, vals(new_col@))) by {
                let nr = with_column(rows, col_idx as int, vals(new_col@));
                assert forall|t: int| 0 <= t < nr.len() implies (#[trigger] comm.comm_output@[t]).is_commitment_of(
                    srs,
                    nr[t],
                ) by {
                    assert(before[t].is_commitment_of(srs, rows[t]));
                    assert(rows[t][col_idx as int] == int_column(rows, col_idx as int)[t]);
                    assert(rows[t].len() == srs.width);
                }
            }
        }
        Ok(())
    }

    /// Opens row `row` at the domain point of column `col`.
    pub fn open(comm: &MatrixCommitOutput, srs: &KZGSRS, row: usize, col: usize) -> (res: Result<Proof, DataError>)
        requires
            srs.wf(),
            comm.wf(srs),
        ensures
            row >= comm.comm_output@.len() ==> res == Err::<Proof, DataError>(
                DataError::RowOutOfBounds { row, n: comm.comm_output@.len() as usize },
            ),
            row < comm.comm_output@.len() && col >= srs.width ==> res == Err::<Proof, DataError>(
                DataError::ColOutOfBounds { col, m: srs.width },
            ),
            res is Ok <==> row < comm.comm_output@.len() && col < srs.width,
            res is Ok ==> is_g1(res.unwrap().w@) && res.unwrap().w@ == kzg_witness(
                srs.pp.powers(),
                comm.comm_output@[row as int].coeffs(),
                domain_point(srs.width as nat, col as nat),
            ),
    {
        if row >= comm.comm_output.len() {
            return Err(DataError::RowOutOfBounds { row, n: comm.comm_output.len() });
        }
        KZG10PolyComm::open(&comm.comm_output[row], srs, col)
    }

    /// Checks a proof against a row commitment alone; an honest opening of
    /// the true value is accepted.
    pub fn verify(vk: &VerifierKey, comm: &Commitment, point: Scalar, value: Scalar, proof: &Proof) -> (r: bool)
        requires
            vk.wf(),
            point.wf(),
            value.wf(),
        ensures
            r == (is_g1(comm.0@) && is_g1(proof.w@) && kzg_accepts(
                vk.g@,
                vk.h@,
                vk.beta_h@,
                comm.0@,
                point.val(),
                value.val(),
                proof.w@,
            )),
            forall|powers: Seq<Seq<u8>>, c: Seq<int>|
                one_setup(powers, vk.h@, vk.beta_h@) && 1 <= powers.len() && powers[0] == vk.g@
                    && all_g1(powers) && is_g1(comm.0@) && is_g1(proof.w@) && c.len() <= powers.len()
                    && reduced(c) && comm.0@ == kzg_commitment(powers, c) && proof.w@ == kzg_witness(
                    powers,
                    c,
                    point.val(),
                ) && value.val() == poly_eval(c, point.val()) ==> r,
            forall|powers: Seq<Seq<u8>>, c: Seq<int>|
                one_setup(powers, vk.h@, vk.beta_h@) && 1 <= powers.len() && powers[0] == vk.g@
                    && all_g1(powers) && !is_g1_identity(vk.g@) && !is_g2_identity(vk.h@)
                    && c.len() <= powers.len() && reduced(c) && comm.0@ == kzg_commitment(powers, c)
                    && proof.w@ == kzg_witness(powers, c, point.val()) && value.val() != poly_eval(
                    c,
                    point.val(),
                ) ==> !r,
    {
        KZG10PolyComm::verify(vk, comm, point, value, proof)
    }
}

/// Row commitments kept in step through column updates equal, row by row,
/// those of the updated matrix committed afresh: both commit to its rows.
pub proof fn lemma_matrix_update_matches_fresh(
    srs: &KZGSRS,
    updated: MatrixCommitOutput,
    fresh: MatrixCommitOutput,
    rows: Seq<Seq<int>>,
)
    requires
        updated.commits_rows(srs, rows),
        fresh.commits_rows(srs, rows),
    ensures
        forall|r: int|
            0 <= r < rows.len() ==> (#[trigger] updated.comm_output@[r]).poly.coeffs@
                == fresh.comm_output@[r].poly.coeffs@ && updated.comm_output@[r].comm.0@
                == fresh.comm_output@[r].comm.0@,
{
    assert forall|r: int| 0 <= r < rows.len() implies (#[trigger] updated.comm_output@[r]).poly.coeffs@
        == fresh.comm_output@[r].poly.coeffs@ && updated.comm_output@[r].comm.0@
        == fresh.comm_output@[r].comm.0@ by {
        crate::kzg10::lemma_update_matches_fresh(
            srs,
            updated.comm_output@[r],
            fresh.comm_output@[r],
            rows[r],
        );
    }
}

} // verus!
