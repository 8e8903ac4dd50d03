use vstd::prelude::*;
use ark_bls12_381::{Bls12_381, Fr, G1Affine, G2Affine};
use ark_ec::{AffineRepr, CurveGroup};
use ark_ff::{BigInt, PrimeField};
use ark_poly::univariate::DensePolynomial;
use ark_poly::DenseUVPolynomial;
use ark_poly_commit::kzg10::{Commitment as ArkComm, Powers, Proof as ArkProof, Randomness, VerifierKey as ArkVk, KZG10};
use ark_poly_commit::PCCommitmentState;
use ark_serialize::{CanonicalDeserialize, CanonicalSerialize};
use ark_std::rand::rngs::StdRng;
use ark_std::rand::SeedableRng;
use crate::params::DataError;
use crate::poly::{all_wf, coeff_sum, domain_point, fr_domain_point, lemma_eval_scale, lemma_eval_sum, poly_eval, scale, vals};
use crate::kzg::{interpolate_padded, interpolates, linear_at, row_holds, unit, KZGSRS};
use crate::scalar::{add_mod, fr_add, fr_mul, fr_sub, mul_mod, lemma_add_sub_mod, lemma_sub_mod_zero, modulus, sub_mod, Scalar};
use crate::traits::CommitOutputTrait;

verus! {

/// KZG over BLS12-381 with dense polynomials.
type Kzg = KZG10<Bls12_381, DensePolynomial<Fr>>;

/// The bytes decode, compressed and checked, to a point of G1 of BLS12-381.
pub uninterp spec fn is_g1(b: Seq<u8>) -> bool;

/// The bytes decode, compressed and checked, to a point of G2 of BLS12-381.
pub uninterp spec fn is_g2(b: Seq<u8>) -> bool;

/// The KZG commitment, compressed, to the polynomial with coefficients
/// `coeffs` under the powers `powers` of the reference string: the sum of
/// `coeffs[i]` times `powers[i]`.
pub uninterp spec fn kzg_commitment(powers: Seq<Seq<u8>>, coeffs: Seq<int>) -> Seq<u8>;

/// The witness point, compressed, of the opening of that polynomial at `point`.
pub uninterp spec fn kzg_witness(powers: Seq<Seq<u8>>, coeffs: Seq<int>, point: int) -> Seq<u8>;

/// Whether the pairing check of KZG accepts `value` at `point` for the
/// commitment `comm` and the witness `w`, under the verifier key
/// `(g, h, beta_h)`.
pub uninterp spec fn kzg_accepts(
    g: Seq<u8>,
    h: Seq<u8>,
    beta_h: Seq<u8>,
    comm: Seq<u8>,
    point: int,
    value: int,
    w: Seq<u8>,
) -> bool;

/// The powers and the two G2 points come from one setup: for some secret
/// `beta` and points `g`, `h`, `powers[i]` is `beta^i g` and `beta_h` is
/// `beta h`.
pub uninterp spec fn one_setup(powers: Seq<Seq<u8>>, h: Seq<u8>, beta_h: Seq<u8>) -> bool;

/// The bytes decode to the identity point of G1.
pub uninterp spec fn is_g1_identity(b: Seq<u8>) -> bool;

/// The bytes decode to the identity point of G2.
pub uninterp spec fn is_g2_identity(b: Seq<u8>) -> bool;

/// The byte views of a sequence of encodings.
pub open spec fn views(v: Seq<Vec<u8>>) -> Seq<Seq<u8>> {
    v.map_values(|b: Vec<u8>| b@)
}

/// Every element is a G1 encoding.
pub open spec fn all_g1(v: Seq<Seq<u8>>) -> bool {
    forall|i: int| 0 <= i < v.len() ==> is_g1(#[trigger] v[i])
}

/// Every integer is reduced modulo the field order.
pub open spec fn reduced(x: Seq<int>) -> bool {
    forall|i: int| 0 <= i < x.len() ==> 0 <= #[trigger] x[i] < modulus()
}

/// Relies on `KZG10::setup` of ark-poly-commit, fed from ark-std's `StdRng`
/// seeded with `seed`: it refuses degree zero and otherwise gives the
/// `max_degree + 1` powers `beta^i g` and the points `h`, `beta h` of one
/// setup.
#[verifier::external_body]
pub(crate) fn kzg_setup(max_degree: usize, seed: [u8; 32]) -> (r: Option<KZG10SRS>)
    requires
        max_degree < usize::MAX,
    ensures
        r is Some <==> max_degree >= 1,
        r is Some ==> r.unwrap().powers_of_g@.len() == max_degree + 1,
        r is Some ==> all_g1(views(r.unwrap().powers_of_g@)) && is_g1(r.unwrap().gamma_g@),
        r is Some ==> is_g2(r.unwrap().h@) && is_g2(r.unwrap().beta_h@),
        r is Some ==> one_setup(views(r.unwrap().powers_of_g@), r.unwrap().h@, r.unwrap().beta_h@),
{
    let pp = Kzg::setup(max_degree, false, &mut StdRng::from_seed(seed)).ok()?;
    let g1 = |p: &G1Affine| { let mut b = Vec::new(); p.serialize_compressed(&mut b).unwrap(); b };
    let g2 = |p: &G2Affine| { let mut b = Vec::new(); p.serialize_compressed(&mut b).unwrap(); b };
    let powers_of_g = pp.powers_of_g.iter().map(g1).collect();
    Some(KZG10SRS { powers_of_g, gamma_g: g1(&pp.powers_of_gamma_g[&0]), h: g2(&pp.h), beta_h: g2(&pp.beta_h) })
}

/// Relies on `KZG10::commit` of ark-poly-commit without hiding: the sum of
/// the coefficients times the powers, which exists when there are no more
/// coefficients than powers.
#[verifier::external_body]
pub(crate) fn kzg_commit(powers: &Vec<Vec<u8>>, coeffs: &Vec<Scalar>) -> (r: Vec<u8>)
    requires
        all_g1(views(powers@)),
        all_wf(coeffs@),
        1 <= powers@.len(),
        coeffs@.len() <= powers@.len(),
    ensures
        is_g1(r@),
        r@ == kzg_commitment(views(powers@), vals(coeffs@)),
{
    let g: Vec<G1Affine> = powers.iter().map(|b| G1Affine::deserialize_compressed(&b[..]).unwrap()).collect();
    let c: Vec<Fr> = coeffs.iter().map(|s| Fr::from_bigint(BigInt([s.l0, s.l1, s.l2, s.l3])).unwrap()).collect();
    let pw = Powers { powers_of_g: g.into(), powers_of_gamma_g: Vec::new().into() };
    let (cm, _) = Kzg::commit(&pw, &DensePolynomial::from_coefficients_vec(c), None, None).unwrap();
    let mut out = Vec::new();
    cm.0.serialize_compressed(&mut out).unwrap();
    out
}

/// Relies on the addition of G1 points of ark-ec. Since a commitment is the
/// sum of coefficients times powers, the sum of the commitments to two
/// polynomials is the commitment to their sum.
#[verifier::external_body]
pub(crate) fn g1_add(a: &Vec<u8>, b: &Vec<u8>) -> (r: Vec<u8>)
    requires
        is_g1(a@),
        is_g1(b@),
    ensures
        is_g1(r@),
        forall|powers: Seq<Seq<u8>>, x: Seq<int>, y: Seq<int>|
            1 <= powers.len() && all_g1(powers) && x.len() == y.len() && x.len() <= powers.len()
                && reduced(x) && reduced(y) && a@
                == kzg_commitment(powers, x) && b@ == kzg_commitment(powers, y) ==> r@
                == kzg_commitment(powers, coeff_sum(x, y)),
{
    let p = G1Affine::deserialize_compressed(&a[..]).unwrap();
    let q = G1Affine::deserialize_compressed(&b[..]).unwrap();
    let mut out = Vec::new();
    (p + q).into_affine().serialize_compressed(&mut out).unwrap();
    out
}

/// Relies on the multiplication of a G1 point by a scalar of ark-ec. Since a
/// commitment is the sum of coefficients times powers, `s` times the
/// commitment to a polynomial is the commitment to `s` times it.
#[verifier::external_body]
pub(crate) fn g1_scale(a: &Vec<u8>, s: Scalar) -> (r: Vec<u8>)
    requires
        is_g1(a@),
        s.wf(),
    ensures
        is_g1(r@),
        forall|powers: Seq<Seq<u8>>, x: Seq<int>|
            1 <= powers.len() && all_g1(powers) && x.len() <= powers.len() && reduced(x) && a@
                == kzg_commitment(powers, x) ==> r@ == kzg_commitment(powers, scale(x, s.val())),
{
    let p = G1Affine::deserialize_compressed(&a[..]).unwrap();
    let f = Fr::from_bigint(BigInt([s.l0, s.l1, s.l2, s.l3])).unwrap();
    let mut out = Vec::new();
    (p * f).into_affine().serialize_compressed(&mut out).unwrap();
    out
}

/// Relies on `G1Affine::deserialize_compressed` of ark-ec: whether the bytes
/// encode a point of G1.
#[verifier::external_body]
fn g1_decodes(b: &Vec<u8>) -> (r: bool)
    ensures
        r == is_g1(b@),
{
    G1Affine::deserialize_compressed(&b[..]).is_ok()
}

/// Relies on `AffineRepr::is_zero` of ark-ec for G1: whether the point is
/// the identity.
#[verifier::external_body]
pub(crate) fn g1_is_identity(b: &Vec<u8>) -> (r: bool)
    requires
        is_g1(b@),
    ensures
        r == is_g1_identity(b@),
{
    G1Affine::deserialize_compressed(&b[..]).unwrap().is_zero()
}

/// Relies on `AffineRepr::is_zero` of ark-ec for G2: whether the point is
/// the identity.
#[verifier::external_body]
pub(crate) fn g2_is_identity(b: &Vec<u8>) -> (r: bool)
    requires
        is_g2(b@),
    ensures
        r == is_g2_identity(b@),
{
    G2Affine::deserialize_compressed(&b[..]).unwrap().is_zero()
}

/// Relies on `KZG10::open` of ark-poly-commit without hiding: the witness
/// exists when there are no more coefficients than powers.
#[verifier::external_body]
pub(crate) fn kzg_open(powers: &Vec<Vec<u8>>, coeffs: &Vec<Scalar>, point: Scalar) -> (r: Vec<u8>)
    requires
        all_g1(views(powers@)),
        all_wf(coeffs@),
        point.wf(),
        1 <= powers@.len(),
        coeffs@.len() <= powers@.len(),
    ensures
        is_g1(r@),
        r@ == kzg_witness(views(powers@), vals(coeffs@), point.val()),
{
    let g: Vec<G1Affine> = powers.iter().map(|b| G1Affine::deserialize_compressed(&b[..]).unwrap()).collect();
    let f = |s: &Scalar| Fr::from_bigint(BigInt([s.l0, s.l1, s.l2, s.l3])).unwrap();
    let pw = Powers { powers_of_g: g.into(), powers_of_gamma_g: Vec::new().into() };
    let p = DensePolynomial::from_coefficients_vec(coeffs.iter().map(f).collect());
    let pf = Kzg::open(&pw, &p, f(&point), &Randomness::empty()).unwrap();
    let mut out = Vec::new();
    pf.w.serialize_compressed(&mut out).unwrap();
    out
}

/// Relies on `KZG10::check` of ark-poly-commit: the pairing check of a
/// witness without hiding. It depends on its arguments alone. It accepts an
/// honest opening: with `powers[i] = beta^i g` and `beta_h = beta h`, the
/// commitment is `p(beta) g` and the witness `q(beta) g` where
/// `q(x) (x - z) = p(x) - p(z)`, so the two pairings are `e(g, h)^(p(beta) - v)`
/// and `e(g, h)^(p(beta) - p(z))` for the value `v`. They agree when
/// `v = p(z)`; when neither `g` nor `h` is the identity, `e(g, h)` has the
/// order of the field and they agree only then.
#[verifier::external_body]
fn kzg_check(vk: &VerifierKey, comm: &Vec<u8>, point: Scalar, value: Scalar, w: &Vec<u8>) -> (r: bool)
    requires
        vk.wf(),
        is_g1(comm@),
        is_g1(w@),
        point.wf(),
        value.wf(),
    ensures
        r == kzg_accepts(vk.g@, vk.h@, vk.beta_h@, comm@, point.val(), value.val(), w@),
        forall|powers: Seq<Seq<u8>>, c: Seq<int>|
            one_setup(powers, vk.h@, vk.beta_h@) && 1 <= powers.len() && powers[0] == vk.g@
                && all_g1(powers) && c.len() <= powers.len() && reduced(c) && comm@
                == kzg_commitment(powers, c) && w@ == kzg_witness(powers, c, point.val())
                && value.val() == poly_eval(c, point.val()) ==> r,
        forall|powers: Seq<Seq<u8>>, c: Seq<int>|
            one_setup(powers, vk.h@, vk.beta_h@) && 1 <= powers.len() && powers[0] == vk.g@
                && all_g1(powers) && !is_g1_identity(vk.g@) && !is_g2_identity(vk.h@) && c.len()
                <= powers.len() && reduced(c) && comm@ == kzg_commitment(powers, c) && w@
                == kzg_witness(powers, c, point.val()) && value.val() != poly_eval(c, point.val())
                ==> !r,
{
    let g1 = |b: &[u8]| G1Affine::deserialize_compressed(b).unwrap();
    let g2 = |b: &[u8]| G2Affine::deserialize_compressed(b).unwrap();
    let f = |s: Scalar| Fr::from_bigint(BigInt([s.l0, s.l1, s.l2, s.l3])).unwrap();
    let (h, beta_h) = (g2(&vk.h), g2(&vk.beta_h));
    let key = ArkVk { g: g1(&vk.g), gamma_g: g1(&vk.gamma_g), h, beta_h, prepared_h: h.into(), prepared_beta_h: beta_h.into() };
    Kzg::check(&key, &ArkComm(g1(comm)), f(point), f(value), &ArkProof { w: g1(w), random_v: None }).unwrap()
}

/// The public parameters of KZG over BLS12-381: the powers of a secret
/// point in G1, and what the verifier needs (compressed encodings).
#[derive(Clone, Debug)]
pub struct KZG10SRS {
    pub powers_of_g: Vec<Vec<u8>>,
    pub gamma_g: Vec<u8>,
    pub h: Vec<u8>,
    pub beta_h: Vec<u8>,
}

impl KZG10SRS {
    pub open spec fn wf(&self) -> bool {
        &&& self.powers_of_g@.len() >= 1
        &&& all_g1(views(self.powers_of_g@))
        &&& is_g1(self.gamma_g@)
        &&& is_g2(self.h@)
        &&& is_g2(self.beta_h@)
        &&& one_setup(self.powers(), self.h@, self.beta_h@)
        &&& !is_g1_identity(self.powers()[0])
        &&& !is_g2_identity(self.h@)
    }

    pub open spec fn powers(&self) -> Seq<Seq<u8>> {
        views(self.powers_of_g@)
    }
}

/// What a verifier holds: no powers beyond the first.
#[derive(Clone, Debug)]
pub struct VerifierKey {
    pub g: Vec<u8>,
    pub gamma_g: Vec<u8>,
    pub h: Vec<u8>,
    pub beta_h: Vec<u8>,
}

impl VerifierKey {
    pub open spec fn wf(&self) -> bool {
        is_g1(self.g@) && is_g1(self.gamma_g@) && is_g2(self.h@) && is_g2(self.beta_h@)
    }
}

/// The verifier key of a reference string.
pub fn get_vk(pp: &KZG10SRS) -> (r: VerifierKey)
    requires
        pp.wf(),
    ensures
        r.wf(),
        r.g@ == pp.powers_of_g@[0]@,
        r.gamma_g@ == pp.gamma_g@,
        r.h@ == pp.h@,
        r.beta_h@ == pp.beta_h@,
{
    assert(is_g1(views(pp.powers_of_g@)[0]));
    VerifierKey {
        g: pp.powers_of_g[0].clone(),
        gamma_g: pp.gamma_g.clone(),
        h: pp.h.clone(),
        beta_h: pp.beta_h.clone(),
    }
}

/// A commitment: a compressed point of G1.
#[derive(Clone, Debug, PartialEq, Eq)]
pub struct Commitment(pub Vec<u8>);

/// An opening proof: the compressed witness point.
#[derive(Clone, Debug, PartialEq, Eq)]
pub struct Proof {
    pub w: Vec<u8>,
}

/// A polynomial by its coefficients, lowest degree first.
#[derive(Clone, Debug, PartialEq, Eq)]
pub struct Poly {
    pub coeffs: Vec<Scalar>,
}

impl Poly {
    /// The value of the polynomial at `x`.
    pub fn evaluate(&self, x: Scalar) -> (r: Scalar)
        requires
            all_wf(self.coeffs@),
            x.wf(),
        ensures
            r.wf(),
            r.val() == crate::poly::poly_eval(vals(self.coeffs@), x.val()),
    {
        crate::poly::fr_evaluate(&self.coeffs, x)
    }
}

/// A row committed in evaluation form: the polynomial through the row's
/// values at the domain points, and the commitment to it.
#[derive(Clone, Debug)]
pub struct KZG10CommitOutput {
    pub poly: Poly,
    pub comm: Commitment,
}

impl KZG10CommitOutput {
    pub fn new(poly: Poly, comm: Commitment) -> (r: Self)
        ensures
            r.poly == poly,
            r.comm == comm,
    {
        KZG10CommitOutput { poly, comm }
    }

    /// The integers of the stored coefficients.
    pub open spec fn coeffs(&self) -> Seq<int> {
        vals(self.poly.coeffs@)
    }

    /// The stored polynomial has the domain's size of coefficients and the
    /// stored commitment is a point.
    pub open spec fn wf(&self, srs: &KZGSRS) -> bool {
        &&& all_wf(self.poly.coeffs@)
        &&& self.poly.coeffs@.len() == srs.padded_len()
        &&& is_g1(self.comm.0@)
    }

    /// The output is the commitment to `row`: its polynomial takes `row[j]`
    /// at the `j`-th domain point and its commitment is to that polynomial.
    pub open spec fn is_commitment_of(&self, srs: &KZGSRS, row: Seq<int>) -> bool {
        &&& self.wf(srs)
        &&& row_holds(srs, self.poly, self.comm, row)
    }
}

impl CommitOutputTrait for KZG10CommitOutput {
    type Poly = Poly;
    type Comm = Commitment;

    fn get_poly(&self) -> (r: &Poly)
        ensures
            *r == self.poly,
    {
        &self.poly
    }

    fn get_comm(&self) -> (r: &Commitment)
        ensures
            *r == self.comm,
    {
        &self.comm
    }
}

/// Adds `d` times `y` to `x` coefficient by coefficient.
fn add_scaled(x: &Vec<Scalar>, y: &Vec<Scalar>, d: Scalar) -> (r: Vec<Scalar>)
    requires
        x@.len() == y@.len(),
        all_wf(x@),
        all_wf(y@),
        d.wf(),
    ensures
        all_wf(r@),
        vals(r@) == coeff_sum(vals(x@), scale(vals(y@), d.val())),
{
    let mut out: Vec<Scalar> = Vec::new();
    let mut t: usize = 0;
    while t < x.len()
        invariant
            t <= x@.len(),
            x@.len() == y@.len(),
            all_wf(x@),
            all_wf(y@),
            d.wf(),
            out@.len() == t,
            all_wf(out@),
            forall|a: int| 0 <= a < t ==> (#[trigger] out@[a]).val() == add_mod(
                x@[a].val(),
                mul_mod(y@[a].val(), d.val()),
            ),
        decreases x.len() - t,
    {
        out.push(fr_add(x[t], fr_mul(y[t], d)));
        t += 1;
    }
    assert(vals(out@) =~= coeff_sum(vals(x@), scale(vals(y@), d.val())));
    out
}

/// KZG over BLS12-381 in evaluation form, with the commitment updated one
/// cell at a time.
pub struct KZG10PolyComm;

impl KZG10PolyComm {
    /// The reference string for rows of `degree` cells, `1 <= degree <= 2^30`.
    pub fn setup(degree: usize) -> (res: Result<KZGSRS, DataError>)
        ensures
            res is Ok ==> 1 <= degree <= 0x4000_0000,
            !(1 <= degree <= 0x4000_0000) ==> res is Err,
            res is Err ==> res == Err::<KZGSRS, DataError>(DataError::Setup),
            res is Ok ==> res.unwrap().wf() && res.unwrap().width == degree,
    {
        crate::kzg::setup_srs(degree)
    }

    /// Commits to `input`: interpolates it over the domain and commits to
    /// the polynomial.
    pub fn commit(srs: &KZGSRS, input: Vec<Scalar>) -> (res: Result<KZG10CommitOutput, DataError>)
        requires
            srs.wf(),
            all_wf(input@),
        ensures
            res is Ok <==> input@.len() == srs.width,
            res is Err ==> res == Err::<KZG10CommitOutput, DataError>(
                DataError::LengthMismatch { expected: srs.width, found: input@.len() as usize },
            ),
            res is Ok ==> res.unwrap().is_commitment_of(srs, vals(input@)),
    {
        if input.len() != srs.width {
            return Err(DataError::LengthMismatch { expected: srs.width, found: input.len() });
        }
        let c = interpolate_padded(srs, &input);
        let comm = kzg_commit(&srs.pp.powers_of_g, &c);
        Ok(KZG10CommitOutput::new(Poly { coeffs: c }, Commitment(comm)))
    }

    /// Reflects the change of cell `index` from `original_cell` to
    /// `new_cell`: `(new - old)` times the stored commitment to the Lagrange
    /// basis polynomial `L_index` of that cell is added to the stored
    /// commitment (one scalar multiplication and one addition, no
    /// interpolation), and `(new - old) L_index` to the stored polynomial.
    /// A change by zero leaves everything as it is.
    pub fn update_commitment(
        srs: &KZGSRS,
        original_comm: &mut KZG10CommitOutput,
        original_cell: Scalar,
        new_cell: Scalar,
        index: usize,
    ) -> (res: Result<(), DataError>)
        requires
            srs.wf(),
            old(original_comm).wf(srs),
            original_cell.wf(),
            new_cell.wf(),
        ensures
            final(original_comm).wf(srs),
            new_cell == original_cell ==> res is Ok && *final(original_comm) == *old(original_comm),
            new_cell != original_cell ==> (res is Ok <==> index < srs.width),
            res is Err ==> *final(original_comm) == *old(original_comm) && res == Err::<(), DataError>(
                DataError::ColOutOfBounds { col: index, m: srs.width },
            ),
            forall|row: Seq<int>|
                #[trigger] old(original_comm).is_commitment_of(srs, row) && index < row.len()
                    && row[index as int] == original_cell.val() ==> final(original_comm).is_commitment_of(
                    srs,
                    row.update(index as int, new_cell.val()),
                ),
    {
        let delta = fr_sub(new_cell, original_cell);
        if delta == Scalar::zero() {
            proof {
                lemma_sub_mod_zero(new_cell.val(), original_cell.val());
                crate::scalar::lemma_scalar_of_val(new_cell);
                crate::scalar::lemma_scalar_of_val(original_cell);
                assert forall|row: Seq<int>|
                    #[trigger] old(original_comm).is_commitment_of(srs, row) && index < row.len()
                        && row[index as int] == original_cell.val() implies original_comm.is_commitment_of(
                        srs,
                        row.update(index as int, new_cell.val()),
                    ) by {
                    assert(row.update(index as int, new_cell.val()) =~= row);
                }
            }
            return Ok(());
        }
        proof {
            if new_cell == original_cell {
                vstd::arithmetic::div_mod::lemma_small_mod(0, modulus() as nat);
                assert(sub_mod(new_cell.val(), original_cell.val()) == 0);
                crate::scalar::lemma_scalar_of_val(delta);
                assert(delta == Scalar::zero_spec());
            }
        }
        let width = srs.width;
        if index >= width {
            return Err(DataError::ColOutOfBounds { col: index, m: width });
        }
        // add `delta` times the basis polynomial of the cell and its commitment
        let ghost x = original_comm.coeffs();
        let ghost l = vals(srs.basis@[index as int].coeffs@);
        let ghost d = delta.val();
        let ghost powers = srs.pp.powers();
        assert(srs.basis@[index as int].coeffs@.len() == srs.padded_len());
        assert(crate::kzg10::reduced(l));
        let dc = g1_scale(&srs.basis_comm[index].0, delta);
        let nc = g1_add(&original_comm.comm.0, &dc);
        let np = add_scaled(&original_comm.poly.coeffs, &srs.basis[index].coeffs, delta);
        proof {
            assert(dc@ == kzg_commitment(powers, scale(l, d)));
            if original_comm.comm.0@ == kzg_commitment(powers, x) {
                assert(crate::kzg10::reduced(x));
                assert(crate::kzg10::reduced(scale(l, d)));
                assert(nc@ == kzg_commitment(powers, coeff_sum(x, scale(l, d))));
            }
        }
        assert(np@.len() == vals(np@).len());
        original_comm.comm = Commitment(nc);
        original_comm.poly = Poly { coeffs: np };
        proof {
            lemma_add_sub_mod(original_cell.val(), new_cell.val());
            let e = unit(srs.width as nat, index as int);
            assert forall|row: Seq<int>|
                #[trigger] old(original_comm).is_commitment_of(srs, row) && index < row.len()
                    && row[index as int] == original_cell.val() implies original_comm.is_commitment_of(
                    srs,
                    row.update(index as int, new_cell.val()),
                ) by {
                let nr = row.update(index as int, new_cell.val());
                crate::poly::lemma_pow2_from_pos(1, srs.width as nat);
                assert forall|j: int| 0 <= j < row.len() implies 0 <= #[trigger] row[j] < modulus() by {
                    assert(poly_eval(x, domain_point(srs.width as nat, j as nat)) == row[j]);
                    assert(x.len() > 0);
                }
                assert(coeff_sum(row, scale(e, d)) =~= nr) by {
                    assert forall|j: int| 0 <= j < nr.len() implies coeff_sum(row, scale(e, d))[j] == nr[j] by {
                        vstd::arithmetic::div_mod::lemma_small_mod(0, modulus() as nat);
                        vstd::arithmetic::div_mod::lemma_small_mod(d as nat, modulus() as nat);
                        assert(scale(e, d)[j] == mul_mod(e[j], d));
                        if j != index {
                            assert(e[j] == 0);
                            vstd::arithmetic::mul::lemma_mul_basics(d);
                            assert(e[j] * d == 0);
                            assert(mul_mod(e[j], d) == 0);
                            vstd::arithmetic::div_mod::lemma_small_mod(row[j] as nat, modulus() as nat);
                        } else {
                            assert(e[j] == 1);
                            vstd::arithmetic::mul::lemma_mul_basics(d);
                            assert(e[j] * d == d);
                            assert(mul_mod(e[j], d) == d);
                            assert(d == sub_mod(new_cell.val(), original_cell.val()));
                        }
                    }
                }
                assert(linear_at(srs.width as nat, e, l));
                assert(crate::poly::inverse_fft(srs.width as nat, coeff_sum(row, scale(e, d))) == coeff_sum(
                    crate::poly::inverse_fft(srs.width as nat, row),
                    scale(l, d),
                ));
                assert forall|j: int| 0 <= j < nr.len() implies poly_eval(
                    vals(original_comm.poly.coeffs@),
                    domain_point(srs.width as nat, j as nat),
                ) == #[trigger] nr[j] by {
                    let pt = domain_point(srs.width as nat, j as nat);
                    lemma_eval_sum(x, scale(l, d), pt);
                    lemma_eval_scale(l, d, pt);
                    assert(poly_eval(x, pt) == row[j]);
                    assert(poly_eval(l, pt) == e[j]);
                    assert(coeff_sum(row, scale(e, d))[j] == nr[j]);
                }
            }
        }
        Ok(())
    }

    /// Proves the value of the committed row at the domain point of column
    /// `col`.
    pub fn open(comm: &KZG10CommitOutput, srs: &KZGSRS, col: usize) -> (res: Result<Proof, DataError>)
        requires
            srs.wf(),
            comm.wf(srs),
        ensures
            res is Ok <==> col < srs.width,
            col >= srs.width ==> res == Err::<Proof, DataError>(
                DataError::ColOutOfBounds { col, m: srs.width },
            ),
            res is Ok ==> is_g1(res.unwrap().w@) && res.unwrap().w@ == kzg_witness(
                srs.pp.powers(),
                comm.coeffs(),
                domain_point(srs.width as nat, col as nat),
            ),
    {
        if col >= srs.width {
            return Err(DataError::ColOutOfBounds { col, m: srs.width });
        }
        let point = match fr_domain_point(srs.width, col) {
            Some(x) => x,
            None => return Err(DataError::Setup),
        };
        let w = kzg_open(&srs.pp.powers_of_g, &comm.poly.coeffs, point);
        Ok(Proof { w })
    }

    /// Checks a proof against the commitment alone. A proof or commitment
    /// that is no point is refused; an honest opening of the true value is
    /// accepted.
    pub fn verify(vk: &VerifierKey, comm: &Commitment, point: Scalar, value: Scalar, proof: &Proof) -> (r: bool)
        requires
            vk.wf(),
            point.wf(),
            value.wf(),
        ensures
            r == (is_g1(comm.0@) && is_g1(proof.w@) && kzg_accepts(
                vk.g@,
                vk.h@,
                vk.beta_h@,
                comm.0@,
                point.val(),
                value.val(),
                proof.w@,
            )),
            forall|powers: Seq<Seq<u8>>, c: Seq<int>|
                one_setup(powers, vk.h@, vk.beta_h@) && 1 <= powers.len() && powers[0] == vk.g@
                    && all_g1(powers) && is_g1(comm.0@) && is_g1(proof.w@) && c.len() <= powers.len() && reduced(c) && comm.0@
                    == kzg_commitment(powers, c) && proof.w@ == kzg_witness(powers, c, point.val())
                    && value.val() == poly_eval(c, point.val()) ==> r,
            forall|powers: Seq<Seq<u8>>, c: Seq<int>|
                one_setup(powers, vk.h@, vk.beta_h@) && 1 <= powers.len() && powers[0] == vk.g@
                    && all_g1(powers) && !is_g1_identity(vk.g@) && !is_g2_identity(vk.h@)
                    && c.len() <= powers.len() && reduced(c) && comm.0@ == kzg_commitment(powers, c)
                    && proof.w@ == kzg_witness(powers, c, point.val()) && value.val() != poly_eval(
                    c,
                    point.val(),
                ) ==> !r,
    {
        if !g1_decodes(&comm.0) || !g1_decodes(&proof.w) {
            return false;
        }
        kzg_check(vk, &comm.0, point, value, &proof.w)
    }
}

/// A row kept up to date through single-cell updates holds the same
/// coefficients and the same commitment as the row committed afresh: both
/// are the commitment to that row.
pub proof fn lemma_update_matches_fresh(
    srs: &KZGSRS,
    updated: KZG10CommitOutput,
    fresh: KZG10CommitOutput,
    row: Seq<int>,
)
    requires
        updated.is_commitment_of(srs, row),
        fresh.is_commitment_of(srs, row),
    ensures
        updated.poly.coeffs@ == fresh.poly.coeffs@,
        updated.comm.0@ == fresh.comm.0@,
{
    let a = updated.poly.coeffs@;
    let b = fresh.poly.coeffs@;
    assert(a.len() == vals(a).len() && b.len() == vals(b).len());
    assert forall|i: int| 0 <= i < a.len() implies a[i] == b[i] by {
        assert(vals(a)[i] == vals(b)[i]);
        crate::scalar::lemma_scalar_of_val(a[i]);
        crate::scalar::lemma_scalar_of_val(b[i]);
    }
    assert(a =~= b);
}

} // verus!
