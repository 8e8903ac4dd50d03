use vstd::prelude::*;
use crate::field_matrix::Matrix;
use crate::kzg10::{
    g1_add, g1_is_identity, g2_is_identity, get_vk, is_g1, kzg_accepts, views, kzg_commit, kzg_commitment, kzg_open, kzg_setup,
    kzg_witness, Commitment, KZG10PolyComm, KZG10SRS, Poly, Proof,
};
use crate::matrix_commit::grid_vals;
use crate::params::{DataError, Params};
use crate::poly::{
    all_wf, coeff_sum, domain_point, domain_size, fr_domain_point, fr_interpolate,
    inverse_fft, lemma_eval_padded, lemma_eval_sum, poly_eval, pow2_from, scale, vals, zeros,
};
use crate::scalar::{add_mod, fr_add, fr_sub, lemma_add_sub_mod, modulus, sub_mod, Scalar};
use crate::traits::DataMatrix;

verus! {

/// The polynomial with coefficients `c` takes the values `row` at the first
/// points of the domain for `width` points.
pub open spec fn interpolates(c: Seq<int>, width: nat, row: Seq<int>) -> bool {
    forall|j: int|
        0 <= j < row.len() ==> poly_eval(c, domain_point(width, j as nat)) == #[trigger] row[j]
}

/// `p` is the polynomial through `row` and `c` the commitment to it.
pub open spec fn row_holds(srs: &KZGSRS, p: Poly, c: Commitment, row: Seq<int>) -> bool {
    &&& row.len() == srs.width
    &&& vals(p.coeffs@) == inverse_fft(srs.width as nat, row)
    &&& interpolates(vals(p.coeffs@), srs.width as nat, row)
    &&& c.0@ == kzg_commitment(srs.pp.powers(), vals(p.coeffs@))
}

/// The reference string of the evaluation-form scheme: rows of `width`
/// cells are interpolated over the domain for `width` points and committed
/// under powers that cover that domain. `basis[i]` is the Lagrange basis
/// polynomial of cell `i` (one at its point, zero at the others), and
/// `basis_comm[i]` its commitment.
#[derive(Clone, Debug)]
pub struct KZGSRS {
    pub width: usize,
    pub pp: KZG10SRS,
    pub basis: Vec<Poly>,
    pub basis_comm: Vec<Commitment>,
}

/// The values of the Lagrange basis polynomial of cell `idx`: one there,
/// zero at the other `width - 1` cells.
pub open spec fn unit(width: nat, idx: int) -> Seq<int> {
    Seq::new(width, |t: int| if t == idx { 1int } else { 0int })
}

/// The inverse FFT for `n` points takes `e` to `l` linearly: adding `s e`
/// to any values adds `s l` to their transform.
pub open spec fn linear_at(n: nat, e: Seq<int>, l: Seq<int>) -> bool {
    forall|a: Seq<int>, c: int|
        a.len() == e.len() && (forall|i: int| 0 <= i < a.len() ==> 0 <= #[trigger] a[i] < modulus()) && 0 <= c
            < modulus() ==> #[trigger] inverse_fft(n, coeff_sum(a, scale(e, c))) == coeff_sum(
            inverse_fft(n, a),
            scale(l, c),
        )
}

impl KZGSRS {
    /// The domain and the powers fit the width.
    pub open spec fn domain_ok(&self) -> bool {
        &&& 1 <= self.width <= 0x1_0000_0000
        &&& self.pp.wf()
        &&& self.pp.powers_of_g@.len() == domain_size(self.width as nat) + 1
    }

    /// The basis polynomials and their commitments are those of the domain.
    pub open spec fn basis_ok(&self) -> bool {
        &&& self.basis@.len() == self.width
        &&& self.basis_comm@.len() == self.width
        &&& forall|i: int|
            0 <= i < self.width ==> {
                let l = vals((#[trigger] self.basis@[i]).coeffs@);
                &&& all_wf(self.basis@[i].coeffs@)
                &&& self.basis@[i].coeffs@.len() == self.padded_len()
                &&& l == inverse_fft(self.width as nat, unit(self.width as nat, i))
                &&& interpolates(l, self.width as nat, unit(self.width as nat, i))
                &&& linear_at(self.width as nat, unit(self.width as nat, i), l)
                &&& self.basis_comm@[i].0@ == kzg_commitment(self.pp.powers(), l)
                &&& is_g1(self.basis_comm@[i].0@)
            }
    }

    pub open spec fn wf(&self) -> bool {
        self.domain_ok() && self.basis_ok()
    }

    /// The domain point of column `col`.
    pub fn get_domain_element(&self, col: usize) -> (r: Option<Scalar>)
        requires
            self.wf(),
        ensures
            r is Some,
            r.unwrap().wf() && r.unwrap().val() == domain_point(self.width as nat, col as nat),
    {
        fr_domain_point(self.width, col)
    }

    /// The number of coefficients every committed polynomial is kept at.
    pub open spec fn padded_len(&self) -> nat {
        domain_size(self.width as nat)
    }
}

/// One interpolated polynomial and one commitment per row.
#[derive(Clone, Debug)]
pub struct KZGCommitments {
    pub poly: Vec<Poly>,
    pub comm: Vec<Commitment>,
}

impl KZGCommitments {
    pub fn new(poly: Vec<Poly>, comm: Vec<Commitment>) -> (r: Self)
        ensures
            r.poly@ == poly@,
            r.comm@ == comm@,
    {
        KZGCommitments { poly, comm }
    }

    pub fn get_refs(&self) -> (r: (&Vec<Poly>, &Vec<Commitment>))
        ensures
            r.0@ == self.poly@,
            r.1@ == self.comm@,
    {
        (&self.poly, &self.comm)
    }

    /// Every row holds a polynomial of the padded length and a point.
    pub open spec fn wf(&self, srs: &KZGSRS) -> bool {
        &&& self.poly@.len() == self.comm@.len()
        &&& forall|r: int|
            0 <= r < self.poly@.len() ==> all_wf((#[trigger] self.poly@[r]).coeffs@)
                && self.poly@[r].coeffs@.len() == srs.padded_len() && is_g1(self.comm@[r].0@)
    }

    /// Row `r` holds the polynomial through `row` and the commitment to it.
    pub open spec fn row_ok(&self, srs: &KZGSRS, r: int, row: Seq<int>) -> bool {
        row_holds(srs, self.poly@[r], self.comm@[r], row)
    }

    /// The set stands for the rows `rows`, row by row.
    pub open spec fn represents(&self, srs: &KZGSRS, rows: Seq<Seq<int>>) -> bool {
        &&& self.wf(srs)
        &&& self.poly@.len() == rows.len()
        &&& forall|r: int| 0 <= r < rows.len() ==> #[trigger] self.row_ok(srs, r, rows[r])
    }
}

/// The polynomial through `row` over the domain, its coefficients padded
/// with zeros to the domain's size.
pub(crate) fn interpolate_padded(srs: &KZGSRS, row: &Vec<Scalar>) -> (r: Vec<Scalar>)
    requires
        srs.domain_ok(),
        row@.len() == srs.width,
        all_wf(row@),
    ensures
        all_wf(r@),
        r@.len() == srs.padded_len(),
        vals(r@) == inverse_fft(srs.width as nat, vals(row@)),
        interpolates(vals(r@), srs.width as nat, vals(row@)),
        forall|a: Seq<int>|
            a.len() == row@.len() && (forall|i: int| 0 <= i < a.len() ==> 0 <= #[trigger] a[i] < modulus())
                ==> #[trigger] inverse_fft(srs.width as nat, coeff_sum(a, vals(row@))) == coeff_sum(
                inverse_fft(srs.width as nat, a),
                vals(r@),
            ),
        linear_at(srs.width as nat, vals(row@), vals(r@)),
{
    let size = srs.pp.powers_of_g.len() - 1;
    let mut c = match fr_interpolate(srs.width, row) {
        Some(c) => c,
        None => {
            assert(false);
            Vec::new()
        },
    };
    let ghost base = vals(c@);
    let ghost start = c@.len();
    while c.len() < size
        invariant
            size == srs.padded_len(),
            start <= c@.len() <= size,
            all_wf(c@),
            vals(c@) == base + zeros((c@.len() - start) as nat),
        decreases size - c.len(),
    {
        let ghost prev = vals(c@);
        c.push(Scalar::zero());
        assert(vals(c@) =~= prev.push(0));
        assert(base + zeros((c@.len() - start) as nat) =~= (base + zeros((c@.len() - 1 - start) as nat)).push(0));
    }
    proof {
        lemma_eval_padded(base, (c@.len() - start) as nat, 0);
        assert forall|j: int| 0 <= j < vals(row@).len() implies poly_eval(
            vals(c@),
            domain_point(srs.width as nat, j as nat),
        ) == #[trigger] vals(row@)[j] by {
            lemma_eval_padded(base, (c@.len() - start) as nat, domain_point(srs.width as nat, j as nat));
        }
    }
    c
}

/// The reference string with the Lagrange basis of its domain and the
/// commitments to it.
fn with_basis(srs: KZGSRS) -> (r: KZGSRS)
    requires
        srs.domain_ok(),
    ensures
        r.wf(),
        r.width == srs.width,
        r.pp == srs.pp,
{
    let width = srs.width;
    let mut basis: Vec<Poly> = Vec::new();
    let mut basis_comm: Vec<Commitment> = Vec::new();
    let mut i: usize = 0;
    while i < width
        invariant
            srs.domain_ok(),
            width == srs.width,
            i <= width,
            basis@.len() == i,
            basis_comm@.len() == i,
            forall|j: int|
                0 <= j < i ==> {
                    let l = vals((#[trigger] basis@[j]).coeffs@);
                    &&& all_wf(basis@[j].coeffs@)
                    &&& basis@[j].coeffs@.len() == srs.padded_len()
                    &&& l == inverse_fft(width as nat, unit(width as nat, j))
                    &&& interpolates(l, width as nat, unit(width as nat, j))
                    &&& linear_at(width as nat, unit(width as nat, j), l)
                    &&& basis_comm@[j].0@ == kzg_commitment(srs.pp.powers(), l)
                    &&& is_g1(basis_comm@[j].0@)
                },
        decreases width - i,
    {
        let mut e: Vec<Scalar> = Vec::new();
        let mut t: usize = 0;
        while t < width
            invariant
                t <= width,
                i < width,
                e@.len() == t,
                all_wf(e@),
                forall|a: int| 0 <= a < t ==> (#[trigger] e@[a]).val() == if a == i { 1int } else { 0int },
            decreases width - t,
        {
            if t == i {
                e.push(Scalar::from_u64(1));
            } else {
                e.push(Scalar::zero());
            }
            t += 1;
        }
        assert(vals(e@) =~= unit(width as nat, i as int));
        let l = interpolate_padded(&srs, &e);
        assert(srs.pp.powers_of_g@.len() == srs.padded_len() + 1);
        let c = kzg_commit(&srs.pp.powers_of_g, &l);
        basis.push(Poly { coeffs: l });
        basis_comm.push(Commitment(c));
        i += 1;
    }
    KZGSRS { width, pp: srs.pp, basis, basis_comm }
}

/// A reference string for rows of `m` cells, `1 <= m <= 2^30`, drawn from a
/// fresh random seed. A draw whose `g` or `h` is the identity point is
/// drawn again, up to four times; after that the setup fails. The basis
/// commitments make a later single-cell update one scalar multiplication.
pub fn setup_srs(m: usize) -> (res: Result<KZGSRS, DataError>)
    ensures
        res is Ok ==> 1 <= m <= 0x4000_0000,
        !(1 <= m <= 0x4000_0000) ==> res is Err,
        res is Err ==> res == Err::<KZGSRS, DataError>(DataError::Setup),
        res is Ok ==> res.unwrap().wf() && res.unwrap().width == m,
{
    if m == 0 || m > 0x4000_0000 {
        return Err(DataError::Setup);
    }
    let mut size: usize = 1;
    while size < m
        invariant
            1 <= size < 0x8000_0000,
            1 <= m <= 0x4000_0000,
            pow2_from(size as nat, m as nat) == domain_size(m as nat),
        decreases 0x8000_0000 - size,
    {
        size = size + size;
    }
    assert(size as nat == domain_size(m as nat));
    let mut tries: usize = 0;
    while tries < 4
        invariant
            1 <= size < 0x8000_0000,
            1 <= m <= 0x4000_0000,
            size as nat == domain_size(m as nat),
        decreases 4 - tries,
    {
        let seed = rand::random::<[u8; 32]>();
        let pp = match kzg_setup(size, seed) {
            Some(pp) => pp,
            None => return Err(DataError::Setup),
        };
        assert(is_g1(views(pp.powers_of_g@)[0]));
        assert(views(pp.powers_of_g@)[0] == pp.powers_of_g@[0]@);
        if !g1_is_identity(&pp.powers_of_g[0]) && !g2_is_identity(&pp.h) {
            return Ok(with_basis(KZGSRS { width: m, pp, basis: Vec::new(), basis_comm: Vec::new() }));
        }
        tries += 1;
    }
    Err(DataError::Setup)
}

/// KZG over BLS12-381 in evaluation form: each row is interpolated over the
/// domain, so that opening at the point of column `c` proves the row's
/// `c`-th value; a row changes by committing to the polynomial through the
/// differences.
pub struct KZGPolyComm {
    params: Params,
}

impl KZGPolyComm {
    pub fn new(params: Params) -> (r: Self)
        ensures
            r.params() == params,
    {
        KZGPolyComm { params }
    }

    pub closed spec fn params(&self) -> Params {
        self.params
    }

    /// The reference string for rows of `m` cells, `1 <= m <= 2^30`.
    pub fn setup(&self) -> (res: Result<KZGSRS, DataError>)
        ensures
            res is Ok ==> 1 <= self.params().m <= 0x4000_0000,
            !(1 <= self.params().m <= 0x4000_0000) ==> res is Err,
            res is Err ==> res == Err::<KZGSRS, DataError>(DataError::Setup),
            res is Ok ==> res.unwrap().wf() && res.unwrap().width == self.params().m,
    {
        setup_srs(self.params.m)
    }

    /// Interpolates and commits to each row, in row order.
    pub fn commit(&self, srs: &KZGSRS, matrix: &Matrix) -> (res: Result<KZGCommitments, DataError>)
        requires
            srs.wf(),
            matrix.wf(),
        ensures
            res is Ok <==> matrix.params.m == srs.width,
            res is Err ==> res == Err::<KZGCommitments, DataError>(
                DataError::LengthMismatch { expected: srs.width, found: matrix.params.m },
            ),
            res is Ok ==> res.unwrap().represents(srs, grid_vals(matrix.cells())),
    {
        if matrix.params.m != srs.width {
            return Err(DataError::LengthMismatch { expected: srs.width, found: matrix.params.m });
        }
        let n = matrix.params.n;
        let ghost g = grid_vals(matrix.cells());
        let mut polys: Vec<Poly> = Vec::new();
        let mut comms: Vec<Commitment> = Vec::new();
        let mut i: usize = 0;
        while i < n
            invariant
                srs.wf(),
                matrix.wf(),
                matrix.params.m == srs.width,
                n == matrix.params.n,
                g == grid_vals(matrix.cells()),
                i <= n,
                polys@.len() == i,
                comms@.len() == i,
                forall|r: int|
                    0 <= r < i ==> all_wf((#[trigger] polys@[r]).coeffs@) && polys@[r].coeffs@.len()
                        == srs.padded_len() && is_g1(comms@[r].0@),
                forall|r: int| 0 <= r < i ==> #[trigger] row_holds(srs, polys@[r], comms@[r], g[r]),
            decreases n - i,
        {
            let row = match matrix.get_row(i) {
                Ok(row) => row,
                Err(e) => return Err(e),
            };
            assert(all_wf(row@)) by {
                assert forall|j: int| 0 <= j < row@.len() implies (#[trigger] row@[j]).wf() by {
                    assert(matrix.cells()[i as int][j] == row@[j]);
                }
            }
            assert(vals(row@) == g[i as int]);
            let c = interpolate_padded(srs, &row);
            let cm = kzg_commit(&srs.pp.powers_of_g, &c);
            polys.push(Poly { coeffs: c });
            comms.push(Commitment(cm));
            assert(row_holds(srs, polys@[i as int], comms@[i as int], g[i as int]));
            i += 1;
        }
        let res = KZGCommitments { poly: polys, comm: comms };
        assert forall|r: int| 0 <= r < g.len() implies #[trigger] res.row_ok(srs, r, g[r]) by {
            assert(row_holds(srs, polys@[r], comms@[r], g[r]));
        }
        Ok(res)
    }

    /// Proves the value of row `row` at column `col`.
    pub fn open(comms: &KZGCommitments, srs: &KZGSRS, row: usize, col: usize) -> (res: Result<Proof, DataError>)
        requires
            srs.wf(),
            comms.wf(srs),
        ensures
            res is Ok <==> row < comms.poly@.len() && col < srs.width,
            row >= comms.poly@.len() ==> res == Err::<Proof, DataError>(
                DataError::RowOutOfBounds { row, n: comms.poly@.len() as usize },
            ),
            row < comms.poly@.len() && col >= srs.width ==> res == Err::<Proof, DataError>(
                DataError::ColOutOfBounds { col, m: srs.width },
            ),
            res is Ok ==> is_g1(res.unwrap().w@) && res.unwrap().w@ == kzg_witness(
                srs.pp.powers(),
                vals(comms.poly@[row as int].coeffs@),
                domain_point(srs.width as nat, col as nat),
            ),
    {
        if row >= comms.poly.len() {
            return Err(DataError::RowOutOfBounds { row, n: comms.poly.len() });
        }
        if col >= srs.width {
            return Err(DataError::ColOutOfBounds { col, m: srs.width });
        }
        let point = match fr_domain_point(srs.width, col) {
            Some(x) => x,
            None => return Err(DataError::Setup),
        };
        assert(comms.poly@[row as int].coeffs@.len() == srs.padded_len());
        let w = kzg_open(&srs.pp.powers_of_g, &comms.poly[row].coeffs, point);
        Ok(Proof { w })
    }

    /// Checks that `value` is the cell `(row, col)` of the committed rows,
    /// against the commitment of that row alone. A wrong value, column or
    /// proof gives `Ok(false)`; only indices out of range are errors.
    pub fn verify(
        comms: &KZGCommitments,
        srs: &KZGSRS,
        row: usize,
        col: usize,
        value: Scalar,
        proof: &Proof,
    ) -> (res: Result<bool, DataError>)
        requires
            srs.wf(),
            comms.wf(srs),
            value.wf(),
        ensures
            res is Ok <==> row < comms.poly@.len() && col < srs.width,
            row >= comms.poly@.len() ==> res == Err::<bool, DataError>(
                DataError::RowOutOfBounds { row, n: comms.poly@.len() as usize },
            ),
            row < comms.poly@.len() && col >= srs.width ==> res == Err::<bool, DataError>(
                DataError::ColOutOfBounds { col, m: srs.width },
            ),
            res is Ok ==> res.unwrap() == (is_g1(proof.w@) && kzg_accepts(
                srs.pp.powers_of_g@[0]@,
                srs.pp.h@,
                srs.pp.beta_h@,
                comms.comm@[row as int].0@,
                domain_point(srs.width as nat, col as nat),
                value.val(),
                proof.w@,
            )),
            forall|cells: Seq<int>|
                res is Ok && #[trigger] comms.row_ok(srs, row as int, cells) && is_g1(proof.w@)
                    && proof.w@ == kzg_witness(
                    srs.pp.powers(),
                    vals(comms.poly@[row as int].coeffs@),
                    domain_point(srs.width as nat, col as nat),
                ) && value.val() == cells[col as int] ==> res == Ok::<bool, DataError>(true),
            forall|cells: Seq<int>|
                res is Ok && #[trigger] comms.row_ok(srs, row as int, cells) && is_g1(proof.w@)
                    && proof.w@ == kzg_witness(
                    srs.pp.powers(),
                    vals(comms.poly@[row as int].coeffs@),
                    domain_point(srs.width as nat, col as nat),
                ) && value.val() != cells[col as int] ==> res == Ok::<bool, DataError>(false),
    {
        if row >= comms.poly.len() {
            return Err(DataError::RowOutOfBounds { row, n: comms.poly.len() });
        }
        if col >= srs.width {
            return Err(DataError::ColOutOfBounds { col, m: srs.width });
        }
        let point = match fr_domain_point(srs.width, col) {
            Some(x) => x,
            None => return Err(DataError::Setup),
        };
        let vk = get_vk(&srs.pp);
        assert(comms.poly@[row as int].coeffs@.len() == srs.padded_len());
        let ok = KZG10PolyComm::verify(&vk, &comms.comm[row], point, value, proof);
        proof {
            let c = vals(comms.poly@[row as int].coeffs@);
            assert(srs.pp.powers()[0] == vk.g@);
            assert(crate::kzg10::reduced(c));
            crate::poly::lemma_pow2_from_pos(1, srs.width as nat);
        }
        Ok(ok)
    }

    /// Replaces row `row_idx`, whose values were `old_row`, by `new_row`: the
    /// polynomial through the differences is committed and added to the
    /// row's commitment, and added to its polynomial.
    pub fn update_commitments(
        srs: &KZGSRS,
        comm: &mut KZGCommitments,
        row_idx: usize,
        old_row: &[Scalar],
        new_row: &[Scalar],
    ) -> (res: Result<(), DataError>)
        requires
            srs.wf(),
            old(comm).wf(srs),
            all_wf(old_row@),
            all_wf(new_row@),
        ensures
            final(comm).wf(srs),
            res is Ok <==> row_idx < old(comm).poly@.len() && old_row@.len() == srs.width
                && new_row@.len() == srs.width,
            res is Err ==> final(comm).poly@ == old(comm).poly@ && final(comm).comm@ == old(comm).comm@,
            row_idx >= old(comm).poly@.len() ==> res == Err::<(), DataError>(
                DataError::RowOutOfBounds { row: row_idx, n: old(comm).poly@.len() as usize },
            ),
            final(comm).poly@.len() == old(comm).poly@.len(),
            final(comm).comm@.len() == old(comm).comm@.len(),
            forall|r: int|
                0 <= r < old(comm).poly@.len() && r != row_idx ==> #[trigger] final(comm).poly@[r]
                    == old(comm).poly@[r] && final(comm).comm@[r] == old(comm).comm@[r],
            res is Ok && old_row@ == new_row@ ==> final(comm).poly@ == old(comm).poly@
                && final(comm).comm@ == old(comm).comm@,
            res is Ok && old(comm).row_ok(srs, row_idx as int, vals(old_row@)) ==> final(comm).row_ok(
                srs,
                row_idx as int,
                vals(new_row@),
            ),
            forall|rows: Seq<Seq<int>>|
                #[trigger] old(comm).represents(srs, rows) && res is Ok && rows[row_idx as int]
                    == vals(old_row@) ==> final(comm).represents(
                    srs,
                    rows.update(row_idx as int, vals(new_row@)),
                ),
    {
        if row_idx >= comm.poly.len() {
            return Err(DataError::RowOutOfBounds { row: row_idx, n: comm.poly.len() });
        }
        if old_row.len() != srs.width {
            return Err(DataError::LengthMismatch { expected: srs.width, found: old_row.len() });
        }
        if new_row.len() != srs.width {
            return Err(DataError::LengthMismatch { expected: srs.width, found: new_row.len() });
        }
        let width = srs.width;
        // nothing to do when the row does not change
        let mut same = true;
        let mut j: usize = 0;
        while j < width
            invariant
                j <= width,
                old_row@.len() == width,
                new_row@.len() == width,
                same <==> forall|t: int| 0 <= t < j ==> old_row@[t] == new_row@[t],
            decreases width - j,
        {
            if old_row[j] != new_row[j] {
                same = false;
            }
            j += 1;
        }
        if same {
            assert(old_row@ =~= new_row@);
            return Ok(());
        }
        let mut deltas: Vec<Scalar> = Vec::new();
        let mut j: usize = 0;
        while j < width
            invariant
                j <= width,
                old_row@.len() == width,
                new_row@.len() == width,
                all_wf(old_row@),
                all_wf(new_row@),
                deltas@.len() == j,
                all_wf(deltas@),
                forall|t: int|
                    0 <= t < j ==> (#[trigger] deltas@[t]).val() == sub_mod(
                        new_row@[t].val(),
                        old_row@[t].val(),
                    ),
            decreases width - j,
        {
            deltas.push(fr_sub(new_row[j], old_row[j]));
            j += 1;
        }
        let dp = interpolate_padded(srs, &deltas);
        let dc = kzg_commit(&srs.pp.powers_of_g, &dp);
        let ghost before = comm.poly@[row_idx as int].coeffs@;
        assert(comm.poly@[row_idx as int].coeffs@.len() == srs.padded_len());
        let nc = g1_add(&comm.comm[row_idx].0, &dc);
        let size = dp.len();
        let mut np: Vec<Scalar> = Vec::new();
        let mut t: usize = 0;
        while t < size
            invariant
                t <= size,
                size == dp@.len(),
                row_idx < comm.poly@.len(),
                before == comm.poly@[row_idx as int].coeffs@,
                before.len() == size,
                all_wf(before),
                all_wf(dp@),
                np@.len() == t,
                all_wf(np@),
                forall|a: int| 0 <= a < t ==> (#[trigger] np@[a]).val() == add_mod(before[a].val(), dp@[a].val()),
            decreases size - t,
        {
            np.push(fr_add(comm.poly[row_idx].coeffs[t], dp[t]));
            t += 1;
        }
        let ghost old_p = comm.poly@;
        let ghost old_c = comm.comm@;
        assert(vals(np@) =~= coeff_sum(vals(before), vals(dp@)));
        comm.poly.set(row_idx, Poly { coeffs: np });
        comm.comm.set(row_idx, Commitment(nc));
        assert forall|r: int| 0 <= r < comm.poly@.len() implies all_wf((#[trigger] comm.poly@[r]).coeffs@)
            && comm.poly@[r].coeffs@.len() == srs.padded_len() && is_g1(comm.comm@[r].0@) by {
            if r != row_idx {
                assert(comm.poly@[r] == old_p[r]);
                assert(comm.comm@[r] == old_c[r]);
            }
        }
        assert(comm.wf(srs));
        proof {
            if old(comm).row_ok(srs, row_idx as int, vals(old_row@)) {
                let x = vals(before);
                let y = vals(dp@);
                let ov = vals(old_row@);
                let nv = vals(new_row@);
                assert forall|q: int| 0 <= q < nv.len() implies poly_eval(
                    vals(np@),
                    domain_point(srs.width as nat, q as nat),
                ) == #[trigger] nv[q] by {
                    let pt = domain_point(srs.width as nat, q as nat);
                    lemma_eval_sum(x, y, pt);
                    assert(poly_eval(x, pt) == ov[q]);
                    assert(poly_eval(y, pt) == vals(deltas@)[q]);
                    lemma_add_sub_mod(old_row@[q].val(), new_row@[q].val());
                }
                assert(crate::kzg10::reduced(x));
                assert(crate::kzg10::reduced(y));
                assert(crate::kzg10::reduced(ov));
                assert(coeff_sum(ov, vals(deltas@)) =~= nv) by {
                    assert forall|q: int| 0 <= q < nv.len() implies coeff_sum(ov, vals(deltas@))[q] == nv[q] by {
                        lemma_add_sub_mod(old_row@[q].val(), new_row@[q].val());
                    }
                }
                assert(inverse_fft(srs.width as nat, coeff_sum(ov, vals(deltas@))) == coeff_sum(
                    inverse_fft(srs.width as nat, ov),
                    y,
                ));
                assert(comm.row_ok(srs, row_idx as int, nv));
            }
            assert forall|rows: Seq<Seq<int>>|
                #[trigger] old(comm).represents(srs, rows) && rows[row_idx as int] == vals(old_row@)
                    implies comm.represents(srs, rows.update(row_idx as int, vals(new_row@))) by {
                let nr = rows.update(row_idx as int, vals(new_row@));
                assert forall|r: int| 0 <= r < nr.len() implies #[trigger] comm.row_ok(srs, r, nr[r]) by {
                    if r == row_idx {
                        assert(old(comm).row_ok(srs, r, rows[r]));
                    } else {
                        assert(old(comm).row_ok(srs, r, rows[r]));
                        assert(comm.poly@[r] == old_p[r]);
                        assert(comm.comm@[r] == old_c[r]);
                    }
                }
            }
        }
        Ok(())
    }
}

} // verus!
