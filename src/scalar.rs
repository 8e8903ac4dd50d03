use vstd::prelude::*;
use ark_bls12_381::Fr;
use ark_ff::{BigInt, Field, PrimeField};

verus! {

/// Order of the scalar field of BLS12-381.
pub open spec fn modulus() -> int {
    limb_value(0xffffffff00000001, 0x53bda402fffe5bfe, 0x3339d80809a1d805, 0x73eda753299d7d48)
}

pub open spec fn limb_value(l0: u64, l1: u64, l2: u64, l3: u64) -> int {
    l0 as int + 0x1_0000_0000_0000_0000 * (l1 as int + 0x1_0000_0000_0000_0000 * (l2 as int
        + 0x1_0000_0000_0000_0000 * l3 as int))
}

/// The modulus lies above every 64-bit integer.
pub proof fn lemma_modulus_bounds()
    ensures
        0x1_0000_0000_0000_0000 < modulus(),
{
}

/// The scalar whose canonical integer is `v`.
pub open spec fn scalar_of(v: int) -> Scalar {
    let b: int = 0x1_0000_0000_0000_0000;
    Scalar {
        l0: (v % b) as u64,
        l1: ((v / b) % b) as u64,
        l2: ((v / b / b) % b) as u64,
        l3: (v / b / b / b) as u64,
    }
}

/// A scalar is determined by its integer.
pub proof fn lemma_scalar_of_val(s: Scalar)
    ensures
        scalar_of(s.val()) == s,
{
    let b: int = 0x1_0000_0000_0000_0000;
    let r3 = s.l3 as int;
    let r2 = s.l2 as int + b * r3;
    let r1 = s.l1 as int + b * r2;
    let v = s.l0 as int + b * r1;
    assert(v == s.val());
    assert(r1 >= 0 && r2 >= 0) by (nonlinear_arith)
        requires
            r2 == s.l2 as int + b * r3,
            r1 == s.l1 as int + b * r2,
            r3 >= 0,
            b > 0,
    ;
    vstd::arithmetic::div_mod::lemma_fundamental_div_mod_converse(v, b, r1, s.l0 as int);
    vstd::arithmetic::div_mod::lemma_fundamental_div_mod_converse(r1, b, r2, s.l1 as int);
    vstd::arithmetic::div_mod::lemma_fundamental_div_mod_converse(r2, b, r3, s.l2 as int);
}

/// `(a + b) mod r`
pub open spec fn add_mod(a: int, b: int) -> int {
    (a + b) % modulus()
}

/// `(a - b) mod r`, in `[0, r)`
pub open spec fn sub_mod(a: int, b: int) -> int {
    (a - b) % modulus()
}

/// Two reduced integers with a difference of zero modulo the order are equal.
pub proof fn lemma_sub_mod_zero(a: int, b: int)
    requires
        0 <= a < modulus(),
        0 <= b < modulus(),
        sub_mod(a, b) == 0,
    ensures
        a == b,
{
    let m = modulus();
    vstd::arithmetic::div_mod::lemma_fundamental_div_mod(a - b, m);
    let q = (a - b) / m;
    assert(a - b == m * q);
    assert(q == 0) by (nonlinear_arith)
        requires
            a - b == m * q,
            -m < a - b < m,
            m > 0,
    ;
}

/// Adding back a difference modulo the order gives the reduced minuend.
pub proof fn lemma_add_sub_mod(o: int, n: int)
    requires
        0 <= n < modulus(),
    ensures
        add_mod(o, sub_mod(n, o)) == n,
{
    let m = modulus();
    vstd::arithmetic::div_mod::lemma_add_mod_noop_right(o, n - o, m);
    vstd::arithmetic::div_mod::lemma_small_mod(n as nat, m as nat);
}

/// `(a * b) mod r`
pub open spec fn mul_mod(a: int, b: int) -> int {
    (a * b) % modulus()
}

/// An element of the scalar field of BLS12-381, held as its canonical
/// integer in four little-endian 64-bit limbs. Only a value below the
/// modulus (`wf`) names a field element.
#[derive(Clone, Copy, Debug, PartialEq, Eq, Structural)]
pub struct Scalar {
    pub l0: u64,
    pub l1: u64,
    pub l2: u64,
    pub l3: u64,
}

impl Scalar {
    /// The integer that the limbs spell.
    pub open spec fn val(&self) -> int {
        limb_value(self.l0, self.l1, self.l2, self.l3)
    }

    /// The integer is reduced: it names one field element.
    pub open spec fn wf(&self) -> bool {
        self.val() < modulus()
    }

    pub open spec fn zero_spec() -> Scalar {
        Scalar { l0: 0, l1: 0, l2: 0, l3: 0 }
    }

    pub fn zero() -> (r: Scalar)
        ensures
            r.wf(),
            r.val() == 0,
            r == Self::zero_spec(),
    {
        Scalar { l0: 0, l1: 0, l2: 0, l3: 0 }
    }

    pub fn from_u64(v: u64) -> (r: Scalar)
        ensures
            r.wf(),
            r.val() == v,
    {
        Scalar { l0: v, l1: 0, l2: 0, l3: 0 }
    }

    /// The field element that embeds a byte.
    pub fn from_u8(b: u8) -> (r: Scalar)
        ensures
            r.wf(),
            r.val() == b,
    {
        Scalar { l0: b as u64, l1: 0, l2: 0, l3: 0 }
    }

    /// The field element whose canonical integer has these limbs, if it is
    /// below the modulus.
    pub fn from_limbs(limbs: [u64; 4]) -> (r: Option<Scalar>)
        ensures
            r is Some <==> limb_value(limbs[0], limbs[1], limbs[2], limbs[3]) < modulus(),
            r is Some ==> r.unwrap().wf() && r.unwrap().val() == limb_value(
                limbs[0],
                limbs[1],
                limbs[2],
                limbs[3],
            ),
    {
        let s = Scalar { l0: limbs[0], l1: limbs[1], l2: limbs[2], l3: limbs[3] };
        if fr_is_canonical(s) {
            Some(s)
        } else {
            None
        }
    }

    /// The four limbs, least significant first.
    pub fn limbs(&self) -> (r: [u64; 4])
        ensures
            limb_value(r[0], r[1], r[2], r[3]) == self.val(),
    {
        [self.l0, self.l1, self.l2, self.l3]
    }

    /// The least significant byte of the canonical integer.
    pub fn low_byte(&self) -> (r: u8)
        ensures
            r as int == self.val() % 256,
    {
        let l0 = self.l0;
        proof {
            let rest: int = self.l1 as int + 0x1_0000_0000_0000_0000 * (self.l2 as int
                + 0x1_0000_0000_0000_0000 * self.l3 as int);
            assert(0x1_0000_0000_0000_0000int == 256 * 0x100_0000_0000_0000int);
            vstd::arithmetic::div_mod::lemma_mod_multiples_vanish(
                0x100_0000_0000_0000int * rest,
                l0 as int,
                256,
            );
            vstd::arithmetic::mul::lemma_mul_is_associative(256, 0x100_0000_0000_0000int, rest);
        }
        (l0 % 256) as u8
    }
}

/// Two-digit numbers in base `2^64` compare by their high digits first.
proof fn lemma_digits(lo1: int, hi1: int, lo2: int, hi2: int)
    requires
        0 <= lo1 < 0x1_0000_0000_0000_0000,
        0 <= lo2 < 0x1_0000_0000_0000_0000,
        hi1 >= 0,
        hi2 >= 0,
    ensures
        (lo1 + 0x1_0000_0000_0000_0000 * hi1 < lo2 + 0x1_0000_0000_0000_0000 * hi2) <==> (hi1 < hi2
            || (hi1 == hi2 && lo1 < lo2)),
        (lo1 + 0x1_0000_0000_0000_0000 * hi1 == lo2 + 0x1_0000_0000_0000_0000 * hi2) <==> (hi1
            == hi2 && lo1 == lo2),
{
    let b: int = 0x1_0000_0000_0000_0000;
    if hi1 < hi2 {
        assert(b * hi1 + b <= b * hi2) by (nonlinear_arith)
            requires
                hi1 < hi2,
                b > 0,
        ;
    } else if hi2 < hi1 {
        assert(b * hi2 + b <= b * hi1) by (nonlinear_arith)
            requires
                hi2 < hi1,
                b > 0,
        ;
    }
}

/// Whether the limbs spell an integer below the modulus, compared limb by
/// limb from the most significant.
fn fr_is_canonical(s: Scalar) -> (r: bool)
    ensures
        r <==> s.wf(),
{
    let (m0, m1, m2, m3) = (0xffffffff00000001u64, 0x53bda402fffe5bfeu64, 0x3339d80809a1d805u64, 0x73eda753299d7d48u64);
    let r = s.l3 < m3 || (s.l3 == m3 && (s.l2 < m2 || (s.l2 == m2 && (s.l1 < m1 || (s.l1 == m1
        && s.l0 < m0)))));
    proof {
        let b: int = 0x1_0000_0000_0000_0000;
        let a3 = s.l2 as int + b * s.l3 as int;
        let n3 = m2 as int + b * m3 as int;
        let a2 = s.l1 as int + b * a3;
        let n2 = m1 as int + b * n3;
        lemma_digits(s.l2 as int, s.l3 as int, m2 as int, m3 as int);
        assert(a3 >= 0 && n3 >= 0) by (nonlinear_arith)
            requires
                a3 == s.l2 as int + b * s.l3 as int,
                n3 == m2 as int + b * m3 as int,
                b > 0,
                s.l2 >= 0,
                s.l3 >= 0,
        ;
        lemma_digits(s.l1 as int, a3, m1 as int, n3);
        assert(a2 >= 0 && n2 >= 0) by (nonlinear_arith)
            requires
                a2 == s.l1 as int + b * a3,
                n2 == m1 as int + b * n3,
                a3 >= 0,
                n3 >= 0,
                b > 0,
                s.l1 >= 0,
        ;
        lemma_digits(s.l0 as int, a2, m0 as int, n2);
    }
    r
}

/// Relies on `Fr + Fr` of ark-ff: addition modulo the field order.
#[verifier::external_body]
pub(crate) fn fr_add(a: Scalar, b: Scalar) -> (r: Scalar)
    requires
        a.wf(),
        b.wf(),
    ensures
        r.wf(),
        r.val() == add_mod(a.val(), b.val()),
{
    let x = Fr::from_bigint(BigInt([a.l0, a.l1, a.l2, a.l3])).unwrap();
    let y = Fr::from_bigint(BigInt([b.l0, b.l1, b.l2, b.l3])).unwrap();
    let z = (x + y).into_bigint().0;
    Scalar { l0: z[0], l1: z[1], l2: z[2], l3: z[3] }
}

/// Relies on `Fr - Fr` of ark-ff: subtraction modulo the field order.
#[verifier::external_body]
pub(crate) fn fr_sub(a: Scalar, b: Scalar) -> (r: Scalar)
    requires
        a.wf(),
        b.wf(),
    ensures
        r.wf(),
        r.val() == sub_mod(a.val(), b.val()),
{
    let x = Fr::from_bigint(BigInt([a.l0, a.l1, a.l2, a.l3])).unwrap();
    let y = Fr::from_bigint(BigInt([b.l0, b.l1, b.l2, b.l3])).unwrap();
    let z = (x - y).into_bigint().0;
    Scalar { l0: z[0], l1: z[1], l2: z[2], l3: z[3] }
}

/// Relies on `Fr * Fr` of ark-ff: multiplication modulo the field order, a
/// prime, so that no two non-zero elements multiply to zero.
#[verifier::external_body]
pub(crate) fn fr_mul(a: Scalar, b: Scalar) -> (r: Scalar)
    requires
        a.wf(),
        b.wf(),
    ensures
        r.wf(),
        r.val() == mul_mod(a.val(), b.val()),
        a.val() != 0 && b.val() != 0 ==> r.val() != 0,
{
    let x = Fr::from_bigint(BigInt([a.l0, a.l1, a.l2, a.l3])).unwrap();
    let y = Fr::from_bigint(BigInt([b.l0, b.l1, b.l2, b.l3])).unwrap();
    let z = (x * y).into_bigint().0;
    Scalar { l0: z[0], l1: z[1], l2: z[2], l3: z[3] }
}

/// Relies on `Field::inverse` of ark-ff: `None` for zero, else the element
/// whose product with `a` is one.
#[verifier::external_body]
pub(crate) fn fr_inverse(a: Scalar) -> (r: Option<Scalar>)
    requires
        a.wf(),
    ensures
        r is Some <==> a.val() != 0,
        r is Some ==> r.unwrap().wf() && mul_mod(a.val(), r.unwrap().val()) == 1,
{
    let x = Fr::from_bigint(BigInt([a.l0, a.l1, a.l2, a.l3])).unwrap();
    x.inverse().map(|y| {
        let z = y.into_bigint().0;
        Scalar { l0: z[0], l1: z[1], l2: z[2], l3: z[3] }
    })
}

} // verus!
