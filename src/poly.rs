use vstd::prelude::*;
use ark_bls12_381::Fr;
use ark_ff::{BigInt, PrimeField};
use ark_poly::univariate::DensePolynomial;
use ark_poly::{DenseUVPolynomial, EvaluationDomain, Evaluations, GeneralEvaluationDomain, Polynomial};
use crate::scalar::{fr_inverse, fr_mul, fr_sub, fr_add, add_mod, modulus, mul_mod, sub_mod, Scalar};

verus! {

/// The integers of a sequence of scalars.
pub open spec fn vals(s: Seq<Scalar>) -> Seq<int> {
    s.map_values(|x: Scalar| x.val())
}

/// Every element names a field element.
pub open spec fn all_wf(s: Seq<Scalar>) -> bool {
    forall|i: int| 0 <= i < s.len() ==> (#[trigger] s[i]).wf()
}

/// `c[0] + c[1] x + c[2] x^2 + ...` modulo the field order.
pub open spec fn poly_eval(c: Seq<int>, x: int) -> int
    decreases c.len(),
{
    if c.len() == 0 {
        0
    } else {
        (c[0] + x * poly_eval(c.drop_first(), x)) % modulus()
    }
}

/// The `i`-th point of the evaluation domain that ark-poly builds for `size`
/// points: the `i`-th power of a root of unity whose order is the least
/// power of two at or above `size`.
pub uninterp spec fn domain_point(size: nat, i: nat) -> int;

/// The number of points of that domain: the least power of two at or above
/// `n`, found by doubling from `s`.
pub open spec fn pow2_from(s: nat, n: nat) -> nat
    decreases (if s >= n { 0 } else { n - s }),
{
    if s == 0 {
        1
    } else if s >= n {
        s
    } else {
        pow2_from(s + s, n)
    }
}

pub open spec fn domain_size(n: nat) -> nat {
    pow2_from(1, n)
}

/// Doubling from a positive size stays positive and reaches `n`.
pub proof fn lemma_pow2_from_pos(s: nat, n: nat)
    requires
        s >= 1,
    ensures
        pow2_from(s, n) >= 1,
        pow2_from(s, n) >= n,
    decreases (if s >= n { 0 } else { n - s }),
{
    if s < n {
        lemma_pow2_from_pos(s + s, n);
    }
}

/// The first `count` points of the domain for `size` points.
pub open spec fn domain_points(size: nat, count: nat) -> Seq<int> {
    Seq::new(count, |i: int| domain_point(size, i as nat))
}

/// Relies on `GeneralEvaluationDomain::new` and `EvaluationDomain::element`
/// of ark-poly: a radix-2 domain exists up to `2^32` points (the two-adicity
/// of the field), and its `i`-th element depends on `n` and `i` alone. Its
/// generator is a root of unity of the domain's order, so the points below
/// that order are distinct.
#[verifier::external_body]
pub(crate) fn fr_domain_point(n: usize, i: usize) -> (r: Option<Scalar>)
    ensures
        n <= 0x1_0000_0000 ==> r is Some,
        r is Some ==> r.unwrap().wf() && r.unwrap().val() == domain_point(n as nat, i as nat),
        r is Some && n <= 0x1_0000_0000 && i < domain_size(n as nat) ==> forall|j: nat|
            j < domain_size(n as nat) && j != i ==> r.unwrap().val() != #[trigger] domain_point(
                n as nat,
                j,
            ),
{
    GeneralEvaluationDomain::<Fr>::new(n).map(|d| {
        let z = d.element(i).into_bigint().0;
        Scalar { l0: z[0], l1: z[1], l2: z[2], l3: z[3] }
    })
}

/// Relies on `Polynomial::evaluate` of ark-poly's dense polynomials: the sum
/// of the coefficients times the powers of the point.
#[verifier::external_body]
pub(crate) fn fr_evaluate(coeffs: &Vec<Scalar>, x: Scalar) -> (r: Scalar)
    requires
        all_wf(coeffs@),
        x.wf(),
    ensures
        r.wf(),
        r.val() == poly_eval(vals(coeffs@), x.val()),
{
    let c: Vec<Fr> = coeffs.iter().map(|s| Fr::from_bigint(BigInt([s.l0, s.l1, s.l2, s.l3])).unwrap()).collect();
    let p = Fr::from_bigint(BigInt([x.l0, x.l1, x.l2, x.l3])).unwrap();
    let z = DensePolynomial::from_coefficients_vec(c).evaluate(&p).into_bigint().0;
    Scalar { l0: z[0], l1: z[1], l2: z[2], l3: z[3] }
}

/// The coefficients, as many as the domain has points, of the inverse FFT
/// that ark-poly computes over the radix-2 domain for `n` points, the values
/// padded with zeros.
pub uninterp spec fn inverse_fft(n: nat, evals: Seq<int>) -> Seq<int>;

/// Relies on `GeneralEvaluationDomain::new` and `Evaluations::interpolate`
/// of ark-poly (an inverse FFT over the radix-2 domain for `n` points, the
/// values padded with zeros): the coefficients, trailing zeros dropped, of
/// the polynomial of degree below the domain's size that takes `evals[i]`
/// at its `i`-th point. The inverse FFT is a linear map, so the transform of
/// a sum of value vectors, one of them scaled, is the matching sum of the
/// transforms.
#[verifier::external_body]
pub(crate) fn fr_interpolate(n: usize, evals: &Vec<Scalar>) -> (r: Option<Vec<Scalar>>)
    requires
        evals@.len() <= n,
        n <= 0x1_0000_0000,
        all_wf(evals@),
    ensures
        n <= 0x1_0000_0000 ==> r is Some,
        r is Some ==> all_wf(r.unwrap()@),
        r is Some ==> r.unwrap()@.len() <= domain_size(n as nat),
        r is Some ==> forall|i: int|
            0 <= i < evals@.len() ==> poly_eval(vals(r.unwrap()@), domain_point(n as nat, i as nat))
                == #[trigger] evals@[i].val(),
        r is Some ==> vals(r.unwrap()@) + zeros((domain_size(n as nat) - r.unwrap()@.len()) as nat)
            == inverse_fft(n as nat, vals(evals@)),
        r is Some ==> forall|a: Seq<int>|
            a.len() == evals@.len() && (forall|i: int| 0 <= i < a.len() ==> 0 <= #[trigger] a[i] < modulus())
                ==> #[trigger] inverse_fft(n as nat, coeff_sum(a, vals(evals@))) == coeff_sum(
                inverse_fft(n as nat, a),
                vals(r.unwrap()@) + zeros((domain_size(n as nat) - r.unwrap()@.len()) as nat),
            ),
        r is Some ==> forall|a: Seq<int>, c: int|
            a.len() == evals@.len() && (forall|i: int| 0 <= i < a.len() ==> 0 <= #[trigger] a[i] < modulus())
                && 0 <= c < modulus() ==> #[trigger] inverse_fft(
                n as nat,
                coeff_sum(a, scale(vals(evals@), c)),
            ) == coeff_sum(
                inverse_fft(n as nat, a),
                scale(vals(r.unwrap()@) + zeros((domain_size(n as nat) - r.unwrap()@.len()) as nat), c),
            ),
{
    let e: Vec<Fr> = evals.iter().map(|s| Fr::from_bigint(BigInt([s.l0, s.l1, s.l2, s.l3])).unwrap()).collect();
    GeneralEvaluationDomain::<Fr>::new(n).map(|d| {
        let p = Evaluations::from_vec_and_domain(e, d).interpolate();
        p.coeffs.iter().map(|f| { let z = f.into_bigint().0; Scalar { l0: z[0], l1: z[1], l2: z[2], l3: z[3] } }).collect()
    })
}

/// Every coefficient times `s`, modulo the field order.
pub open spec fn scale(x: Seq<int>, s: int) -> Seq<int> {
    Seq::new(x.len(), |i: int| mul_mod(x[i], s))
}

/// `n` zero coefficients.
pub open spec fn zeros(n: nat) -> Seq<int> {
    Seq::new(n, |i: int| 0int)
}

/// The coefficient-wise sum of two polynomials of one length.
pub open spec fn coeff_sum(x: Seq<int>, y: Seq<int>) -> Seq<int> {
    Seq::new(x.len(), |i: int| add_mod(x[i], y[i]))
}

/// The zero polynomial is zero everywhere.
pub proof fn lemma_eval_zeros(n: nat, x: int)
    ensures
        poly_eval(zeros(n), x) == 0,
    decreases n,
{
    if n > 0 {
        assert(zeros(n).drop_first() =~= zeros((n - 1) as nat));
        lemma_eval_zeros((n - 1) as nat, x);
        vstd::arithmetic::div_mod::lemma_small_mod(0, modulus() as nat);
    }
}

/// Trailing zero coefficients do not change a value.
pub proof fn lemma_eval_padded(c: Seq<int>, n: nat, x: int)
    ensures
        poly_eval(c + zeros(n), x) == poly_eval(c, x),
    decreases c.len(),
{
    if c.len() == 0 {
        assert(c + zeros(n) =~= zeros(n));
        lemma_eval_zeros(n, x);
    } else {
        assert((c + zeros(n)).drop_first() =~= c.drop_first() + zeros(n));
        lemma_eval_padded(c.drop_first(), n, x);
    }
}

/// Evaluation is additive in the coefficients.
pub proof fn lemma_eval_sum(a: Seq<int>, b: Seq<int>, x: int)
    requires
        a.len() == b.len(),
    ensures
        poly_eval(coeff_sum(a, b), x) == add_mod(poly_eval(a, x), poly_eval(b, x)),
    decreases a.len(),
{
    let m = modulus();
    if a.len() == 0 {
        vstd::arithmetic::div_mod::lemma_small_mod(0, m as nat);
    } else {
        let s = coeff_sum(a, b);
        assert(s.drop_first() =~= coeff_sum(a.drop_first(), b.drop_first()));
        lemma_eval_sum(a.drop_first(), b.drop_first(), x);
        let p = a[0] + b[0];
        let ea = poly_eval(a.drop_first(), x);
        let eb = poly_eval(b.drop_first(), x);
        let q = ea + eb;
        // the sum's value: ((p % m) + x * (q % m)) % m
        vstd::arithmetic::div_mod::lemma_mul_mod_noop_right(x, q, m);
        vstd::arithmetic::div_mod::lemma_add_mod_noop(p % m, x * (q % m), m);
        vstd::arithmetic::div_mod::lemma_mod_twice(p, m);
        vstd::arithmetic::div_mod::lemma_add_mod_noop(p, x * q, m);
        // the two values: ((a0 + x ea) % m + (b0 + x eb) % m) % m
        vstd::arithmetic::div_mod::lemma_add_mod_noop(a[0] + x * ea, b[0] + x * eb, m);
        vstd::arithmetic::mul::lemma_mul_is_distributive_add(x, ea, eb);
        assert(a[0] + x * ea + (b[0] + x * eb) == p + x * q);
    }
}

/// Evaluation commutes with scaling the coefficients.
pub proof fn lemma_eval_scale(c: Seq<int>, s: int, x: int)
    ensures
        poly_eval(scale(c, s), x) == mul_mod(poly_eval(c, x), s),
    decreases c.len(),
{
    let m = modulus();
    if c.len() == 0 {
        vstd::arithmetic::div_mod::lemma_small_mod(0, m as nat);
    } else {
        let sc = scale(c, s);
        assert(sc.drop_first() =~= scale(c.drop_first(), s));
        lemma_eval_scale(c.drop_first(), s, x);
        let e = poly_eval(c.drop_first(), x);
        // ((c0 s) % m + x ((e s) % m)) % m
        vstd::arithmetic::div_mod::lemma_mul_mod_noop_right(x, e * s, m);
        vstd::arithmetic::div_mod::lemma_add_mod_noop(c[0] * s, x * ((e * s) % m), m);
        vstd::arithmetic::div_mod::lemma_mod_twice(c[0] * s, m);
        vstd::arithmetic::div_mod::lemma_add_mod_noop(c[0] * s, x * (e * s), m);
        // ((c0 + x e) % m * s) % m
        vstd::arithmetic::div_mod::lemma_mul_mod_noop_left(c[0] + x * e, s, m);
        assert((c[0] + x * e) * s == c[0] * s + x * (e * s)) by (nonlinear_arith);
        assert(sc[0] == (c[0] * s) % m);
        assert(poly_eval(sc.drop_first(), x) == (e * s) % m);
        assert(poly_eval(sc, x) == ((c[0] * s) % m + x * ((e * s) % m)) % m);
        assert(poly_eval(c, x) == (c[0] + x * e) % m);
        let a0 = c[0] * s;
        let b1 = x * ((e * s) % m);
        let b2 = x * (e * s);
        assert(b1 % m == b2 % m);
        assert((a0 % m) % m == a0 % m);
        vstd::arithmetic::div_mod::lemma_add_mod_noop(a0 % m, b1, m);
        vstd::arithmetic::div_mod::lemma_add_mod_noop(a0, b2, m);
        assert(((a0 % m) % m + b1 % m) % m == (a0 % m + b1) % m);
        assert((a0 % m + b2 % m) % m == (a0 + b2) % m);
        assert((a0 % m + b1) % m == (a0 + b2) % m);
        assert((((c[0] + x * e) % m) * s) % m == ((c[0] + x * e) * s) % m);
    }
}

/// The inverse of `a` modulo the field order.
pub open spec fn inv_mod(a: int) -> int {
    choose|b: int| 0 <= b < modulus() && mul_mod(a, b) == 1
}

/// An inverse is unique.
pub proof fn lemma_inverse_unique(a: int, b: int)
    requires
        0 <= b < modulus(),
        mul_mod(a, b) == 1,
    ensures
        inv_mod(a) == b,
{
    let m = modulus();
    let c = inv_mod(a);
    assert(0 <= c < m && mul_mod(a, c) == 1);
    vstd::arithmetic::div_mod::lemma_mul_mod_noop_right(c, a * b, m);
    vstd::arithmetic::mul::lemma_mul_is_associative(c, a, b);
    vstd::arithmetic::div_mod::lemma_mul_mod_noop_left(c * a, b, m);
    assert(c * a == a * c) by (nonlinear_arith);
    vstd::arithmetic::div_mod::lemma_small_mod(c as nat, m as nat);
    vstd::arithmetic::div_mod::lemma_small_mod(b as nat, m as nat);
}

/// `prod over l < end, l != j, of (x - xs[l])`, modulo the field order.
pub open spec fn basis_num(xs: Seq<int>, j: int, x: int, end: int) -> int
    decreases end,
{
    if end <= 0 {
        1
    } else if end - 1 == j {
        basis_num(xs, j, x, end - 1)
    } else {
        mul_mod(basis_num(xs, j, x, end - 1), sub_mod(x, xs[end - 1]))
    }
}

/// The denominator of the `j`-th Lagrange basis polynomial on the nodes `xs`.
pub open spec fn basis_den(xs: Seq<int>, j: int) -> int {
    basis_num(xs, j, xs[j], xs.len() as int)
}

/// The nodes admit Lagrange interpolation: no basis denominator vanishes.
pub open spec fn nodes_ok(xs: Seq<int>) -> bool {
    forall|j: int| 0 <= j < xs.len() ==> #[trigger] basis_den(xs, j) != 0
}

/// The first `end` terms of the Lagrange form through `(xs[j], ys[j])`,
/// evaluated at `x`.
pub open spec fn lagrange_sum(xs: Seq<int>, ys: Seq<int>, x: int, end: int) -> int
    decreases end,
{
    if end <= 0 {
        0
    } else {
        add_mod(
            lagrange_sum(xs, ys, x, end - 1),
            mul_mod(
                mul_mod(ys[end - 1], basis_num(xs, end - 1, x, xs.len() as int)),
                inv_mod(basis_den(xs, end - 1)),
            ),
        )
    }
}

/// The value at `x` of the polynomial of degree below `xs.len()` through the
/// points `(xs[j], ys[j])`.
pub open spec fn lagrange_at(xs: Seq<int>, ys: Seq<int>, x: int) -> int {
    lagrange_sum(xs, ys, x, xs.len() as int)
}

/// `prod over l != j of (x - xs[l])`.
fn basis_product(xs: &Vec<Scalar>, j: usize, x: Scalar) -> (r: Scalar)
    requires
        all_wf(xs@),
        x.wf(),
    ensures
        r.wf(),
        r.val() == basis_num(vals(xs@), j as int, x.val(), xs@.len() as int),
        (forall|l: int| 0 <= l < xs@.len() && l != j ==> (#[trigger] xs@[l]).val() != x.val()) ==> r.val()
            != 0,
{
    let ghost apart = forall|l: int| 0 <= l < xs@.len() && l != j ==> (#[trigger] xs@[l]).val() != x.val();
    let mut acc = Scalar::from_u64(1);
    let mut l: usize = 0;
    while l < xs.len()
        invariant
            all_wf(xs@),
            x.wf(),
            l <= xs@.len(),
            acc.wf(),
            acc.val() == basis_num(vals(xs@), j as int, x.val(), l as int),
            apart == forall|t: int| 0 <= t < xs@.len() && t != j ==> (#[trigger] xs@[t]).val() != x.val(),
            apart ==> acc.val() != 0,
        decreases xs.len() - l,
    {
        if l != j {
            let d = fr_sub(x, xs[l]);
            proof {
                if apart && d.val() == 0 {
                    crate::scalar::lemma_sub_mod_zero(x.val(), xs@[l as int].val());
                }
            }
            acc = fr_mul(acc, d);
        }
        l += 1;
    }
    acc
}

/// The value at `x` of the polynomial through `(xs[j], ys[j])`, or `None`
/// where two nodes make a basis denominator vanish.
pub fn lagrange_eval(xs: &Vec<Scalar>, ys: &Vec<Scalar>, x: Scalar) -> (r: Option<Scalar>)
    requires
        xs@.len() == ys@.len(),
        all_wf(xs@),
        all_wf(ys@),
        x.wf(),
    ensures
        r is Some <==> nodes_ok(vals(xs@)),
        (forall|a: int, b: int| 0 <= a < b < xs@.len() ==> (#[trigger] xs@[a]).val() != (#[trigger] xs@[b]).val())
            ==> r is Some,
        r is Some ==> r.unwrap().wf() && r.unwrap().val() == lagrange_at(vals(xs@), vals(ys@), x.val()),
{
    let mut acc = Scalar::zero();
    let mut j: usize = 0;
    while j < xs.len()
        invariant
            xs@.len() == ys@.len(),
            all_wf(xs@),
            all_wf(ys@),
            x.wf(),
            j <= xs@.len(),
            acc.wf(),
            acc.val() == lagrange_sum(vals(xs@), vals(ys@), x.val(), j as int),
            forall|a: int| 0 <= a < j ==> #[trigger] basis_den(vals(xs@), a) != 0,
        decreases xs.len() - j,
    {
        let num = basis_product(xs, j, x);
        let den = basis_product(xs, j, xs[j]);
        proof {
            if forall|a: int, b: int| 0 <= a < b < xs@.len() ==> (#[trigger] xs@[a]).val() != (#[trigger] xs@[b]).val() {
                assert forall|l: int| 0 <= l < xs@.len() && l != j implies (#[trigger] xs@[l]).val() != xs@[j as int].val() by {
                    if l < j {
                        assert(xs@[l].val() != xs@[j as int].val());
                    } else {
                        assert(xs@[j as int].val() != xs@[l].val());
                    }
                }
            }
        }
        assert(den.val() == basis_den(vals(xs@), j as int));
        let inv = match fr_inverse(den) {
            Some(v) => v,
            None => return None,
        };
        proof {
            lemma_inverse_unique(den.val(), inv.val());
        }
        let term = fr_mul(fr_mul(ys[j], num), inv);
        acc = fr_add(acc, term);
        j += 1;
    }
    Some(acc)
}

} // verus!
