//! The scalar field of Pallas, which is the base field of Vesta.
//!
//! An element is held as the four little-endian 64-bit limbs of its canonical
//! representative. The arithmetic itself is done by `ark-ff`, through the private
//! functions at the end of the file; their contracts are stated over the functions
//! of [`crate::arith`] and are not proved here. Each of them rebuilds the `ark-ff`
//! element from the limbs, which succeeds because the limbs of every value of the
//! type spell a number below the modulus.

use crate::arith::{
    fadd, finv, fmul, fpow, fsub, is_residue, lemma_limbs4, lemma_limbs4_injective, limbs4_nat,
    limbs_nat,
};
use crate::field::{root_of_unity, LegendreSymbol, PrimeField};
use crate::poly::poly_eval;
use vstd::arithmetic::power2::pow2;
use vstd::prelude::*;

verus! {

/// The modulus of the scalar field of Pallas, which is the base field of Vesta.
pub open spec fn fq_modulus() -> nat {
    0x40000000000000000000000000000000224698fc0994a8dd8c46eb2100000001nat
}

/// The root that `sqrt` of `ark_pallas::Fr` returns for a square of value `a`.
pub uninterp spec fn fq_sqrt(a: nat) -> nat;

/// An element of the scalar field of Pallas (the base field of Vesta).
#[derive(Clone, Copy, Debug, PartialEq, Eq)]
pub struct Fq {
    pub(crate) limbs: [u64; 4],
}

impl Fq {
    #[verifier::type_invariant]
    spec fn reduced(self) -> bool {
        limbs4_nat(self.limbs[0], self.limbs[1], self.limbs[2], self.limbs[3]) < fq_modulus()
    }

    /// Whether four limbs spell a number below the modulus.
    fn below_modulus(limbs: &[u64; 4]) -> (b: bool)
        ensures
            b == (limbs4_nat(limbs[0], limbs[1], limbs[2], limbs[3]) < fq_modulus()),
    {
        if limbs[3] != 0x4000000000000000 {
            limbs[3] < 0x4000000000000000
        } else if limbs[2] != 0 {
            false
        } else if limbs[1] != 0x224698fc0994a8dd {
            limbs[1] < 0x224698fc0994a8dd
        } else {
            limbs[0] < 0x8c46eb2100000001
        }
    }
}

impl PrimeField for Fq {
    open spec fn modulus() -> nat {
        fq_modulus()
    }

    closed spec fn val(&self) -> nat {
        limbs4_nat(self.limbs[0], self.limbs[1], self.limbs[2], self.limbs[3])
    }

    open spec fn sqrt_of(a: nat) -> nat {
        fq_sqrt(a)
    }

    open spec fn generator_value() -> nat {
        5
    }

    open spec fn nonresidue_value() -> nat {
        7
    }

    proof fn lemma_modulus() {
    }

    proof fn lemma_modulus_size() {
    }

    fn canonical(&self) {
        proof {
            use_type_invariant(self);
        }
    }

    fn zero() -> (r: Self) {
        Fq { limbs: [0, 0, 0, 0] }
    }

    fn one() -> (r: Self) {
        Fq { limbs: [1, 0, 0, 0] }
    }

    fn from_u64(x: u64) -> (r: Self) {
        Fq { limbs: [x, 0, 0, 0] }
    }

    fn from_repr(limbs: [u64; 4]) -> (r: Self) {
        proof {
            lemma_limbs4(limbs@);
        }
        if Fq::below_modulus(&limbs) {
            Fq { limbs }
        } else {
            Fq { limbs: [0, 0, 0, 0] }
        }
    }

    fn into_repr(&self) -> (r: [u64; 4]) {
        proof {
            lemma_limbs4(self.limbs@);
        }
        self.limbs
    }

    fn is_eq(&self, rhs: &Self) -> (b: bool) {
        proof {
            if self.val() == rhs.val() {
                lemma_limbs4_injective(
                    self.limbs[0],
                    self.limbs[1],
                    self.limbs[2],
                    self.limbs[3],
                    rhs.limbs[0],
                    rhs.limbs[1],
                    rhs.limbs[2],
                    rhs.limbs[3],
                );
            }
        }
        self.limbs[0] == rhs.limbs[0] && self.limbs[1] == rhs.limbs[1] && self.limbs[2]
            == rhs.limbs[2] && self.limbs[3] == rhs.limbs[3]
    }

    fn is_zero(&self) -> (b: bool) {
        self.limbs[0] == 0 && self.limbs[1] == 0 && self.limbs[2] == 0 && self.limbs[3] == 0
    }

    fn add(&self, rhs: &Self) -> (r: Self) {
        fq_add(self, rhs)
    }

    fn sub(&self, rhs: &Self) -> (r: Self) {
        fq_sub(self, rhs)
    }

    fn mul(&self, rhs: &Self) -> (r: Self) {
        fq_mul(self, rhs)
    }

    fn neg(&self) -> (r: Self) {
        let zero = Fq::zero();
        fq_sub(&zero, self)
    }

    fn double(&self) -> (r: Self) {
        fq_add(self, self)
    }

    fn square(&self) -> (r: Self) {
        fq_mul(self, self)
    }

    fn pow(&self, exp: &[u64]) -> (r: Self) {
        fq_pow(self, exp)
    }

    fn inverse(&self) -> (r: Option<Self>) {
        fq_inverse(self)
    }

    fn batch_inversion(v: &mut Vec<Self>) {
        fq_batch_inversion(v)
    }

    fn legendre(&self) -> (r: LegendreSymbol) {
        fq_legendre(self)
    }

    fn sqrt(&self) -> (r: Option<Self>) {
        fq_sqrt_exec(self)
    }

    fn rand() -> (r: Self) {
        let r = fq_rand();
        proof {
            use_type_invariant(&r);
        }
        r
    }

    fn size_in_bits() -> (n: usize) {
        255
    }

    fn multiplicative_generator() -> (r: Self) {
        Fq { limbs: [5, 0, 0, 0] }
    }

    fn nonresidue() -> (r: Self) {
        Fq { limbs: [7, 0, 0, 0] }
    }

    fn modulus_repr() -> (r: [u64; 4]) {
        let r: [u64; 4] = [0x8c46eb2100000001, 0x224698fc0994a8dd, 0, 0x4000000000000000];
        proof {
            lemma_limbs4(r@);
        }
        r
    }

    fn trace_repr() -> (r: [u64; 4]) {
        let r: [u64; 4] = [0x0994a8dd8c46eb21, 0x224698fc, 0, 0x40000000];
        proof {
            lemma_limbs4(r@);
        }
        r
    }

    fn fft(coeffs: &Vec<Self>, size: usize, log_size: u32) -> (r: Vec<Self>) {
        assert(Seq::new(coeffs@.len(), |j: int| coeffs@[j].val()) =~= fq_vals(coeffs@));
        fq_fft(coeffs, size, log_size)
    }

    fn ifft(evals: &Vec<Self>, size: usize, log_size: u32) -> (r: Vec<Self>) {
        assert(Seq::new(evals@.len(), |j: int| evals@[j].val()) =~= fq_vals(evals@));
        fq_ifft(evals, size, log_size)
    }
}

/// `+` of `ark_pallas::Fr`: the sum modulo the modulus.
#[verifier::external_body]
fn fq_add(a: &Fq, b: &Fq) -> (r: Fq)
    ensures
        r.val() == fadd(fq_modulus(), a.val(), b.val()),
{
    let x: ark_pallas::Fr = ark_ff::BigInt(a.limbs).into();
    let y: ark_pallas::Fr = ark_ff::BigInt(b.limbs).into();
    Fq { limbs: ark_ff::BigInt::from(x + y).0 }
}

/// `-` of `ark_pallas::Fr`: the difference modulo the modulus.
#[verifier::external_body]
fn fq_sub(a: &Fq, b: &Fq) -> (r: Fq)
    ensures
        r.val() == fsub(fq_modulus(), a.val(), b.val()),
{
    let x: ark_pallas::Fr = ark_ff::BigInt(a.limbs).into();
    let y: ark_pallas::Fr = ark_ff::BigInt(b.limbs).into();
    Fq { limbs: ark_ff::BigInt::from(x - y).0 }
}

/// `*` of `ark_pallas::Fr`: the product modulo the modulus.
#[verifier::external_body]
fn fq_mul(a: &Fq, b: &Fq) -> (r: Fq)
    ensures
        r.val() == fmul(fq_modulus(), a.val(), b.val()),
{
    let x: ark_pallas::Fr = ark_ff::BigInt(a.limbs).into();
    let y: ark_pallas::Fr = ark_ff::BigInt(b.limbs).into();
    Fq { limbs: ark_ff::BigInt::from(x * y).0 }
}

/// `Field::pow` of `ark_pallas::Fr`: square-and-multiply over the bits of the
/// exponent, whose limbs are given least significant first.
#[verifier::external_body]
fn fq_pow(a: &Fq, exp: &[u64]) -> (r: Fq)
    ensures
        r.val() == fpow(fq_modulus(), a.val(), limbs_nat(exp@)),
{
    let x: ark_pallas::Fr = ark_ff::BigInt(a.limbs).into();
    Fq { limbs: ark_ff::BigInt::from(ark_ff::Field::pow(&x, exp)).0 }
}

/// `Field::inverse` of `ark_pallas::Fr`: `None` for zero, else the element whose
/// product with the argument is one. The modulus is prime, so that element is the
/// `(p-2)`-th power.
#[verifier::external_body]
fn fq_inverse(a: &Fq) -> (r: Option<Fq>)
    ensures
        r is None <==> a.val() == 0,
        r matches Some(x) ==> x.val() == finv(fq_modulus(), a.val()) && fmul(
            fq_modulus(),
            x.val(),
            a.val(),
        ) == 1,
{
    let x: ark_pallas::Fr = ark_ff::BigInt(a.limbs).into();
    ark_ff::Field::inverse(&x).map(|y| Fq { limbs: ark_ff::BigInt::from(y).0 })
}

/// `batch_inversion` of `ark-ff` on `ark_pallas::Fr`: every non-zero element is
/// replaced by its inverse, whose product with the element is one, and every zero
/// is left where it is.
#[verifier::external_body]
fn fq_batch_inversion(v: &mut Vec<Fq>)
    ensures
        final(v)@.len() == old(v)@.len(),
        forall|i: int|
            0 <= i < old(v)@.len() ==> (#[trigger] final(v)@[i]).val() == finv(
                fq_modulus(),
                old(v)@[i].val(),
            ),
        forall|i: int|
            0 <= i < old(v)@.len() && old(v)@[i].val() != 0 ==> fmul(
                fq_modulus(),
                old(v)@[i].val(),
                (#[trigger] final(v)@[i]).val(),
            ) == 1,
{
    let mut xs: Vec<ark_pallas::Fr> = v.iter().map(|a| ark_ff::BigInt(a.limbs).into()).collect();
    ark_ff::batch_inversion(&mut xs);
    *v = xs.into_iter().map(|y| Fq { limbs: ark_ff::BigInt::from(y).0 }).collect();
}

/// `Field::legendre` of `ark_pallas::Fr`: the `(p-1)/2`-th power, read as zero,
/// one, or anything else.
#[verifier::external_body]
fn fq_legendre(a: &Fq) -> (r: LegendreSymbol)
    ensures
        r == LegendreSymbol::Zero <==> a.val() == 0,
        r == LegendreSymbol::QuadraticResidue <==> is_residue(fq_modulus(), a.val()),
{
    let x: ark_pallas::Fr = ark_ff::BigInt(a.limbs).into();
    match ark_ff::Field::legendre(&x) {
        ark_ff::LegendreSymbol::Zero => LegendreSymbol::Zero,
        ark_ff::LegendreSymbol::QuadraticResidue => LegendreSymbol::QuadraticResidue,
        ark_ff::LegendreSymbol::QuadraticNonResidue => LegendreSymbol::QuadraticNonResidue,
    }
}

/// `Field::sqrt` of `ark_pallas::Fr` (Tonelli-Shanks): a root for zero and for
/// every square, `None` otherwise. Which of the two roots comes back is fixed by
/// the algorithm and named by [`fq_sqrt`].
#[verifier::external_body]
fn fq_sqrt_exec(a: &Fq) -> (r: Option<Fq>)
    ensures
        r is Some <==> (a.val() == 0 || is_residue(fq_modulus(), a.val())),
        r matches Some(x) ==> x.val() == fq_sqrt(a.val()) && fmul(fq_modulus(), x.val(), x.val())
            == a.val(),
{
    let x: ark_pallas::Fr = ark_ff::BigInt(a.limbs).into();
    ark_ff::Field::sqrt(&x).map(|y| Fq { limbs: ark_ff::BigInt::from(y).0 })
}

/// The values of a sequence of elements.
pub open spec fn fq_vals(s: Seq<Fq>) -> Seq<nat> {
    Seq::new(s.len(), |i: int| s[i].val())
}

/// `EvaluationDomain::fft` of `ark-poly` on the radix-2 domain of the given size over
/// `ark_pallas::Fr`: the values of the polynomial at the powers of the domain's
/// generator, which is the root of unity of that order that `ark-ff` derives from the
/// generator of the field.
#[verifier::external_body]
fn fq_fft(coeffs: &Vec<Fq>, size: usize, log_size: u32) -> (r: Vec<Fq>)
    requires
        log_size <= 32,
        size == pow2(log_size as nat),
        coeffs@.len() <= size,
    ensures
        r@.len() == size,
        forall|i: int|
            0 <= i < size ==> (#[trigger] r@[i]).val() == poly_eval(
                fq_modulus(),
                fq_vals(coeffs@),
                fpow(fq_modulus(), root_of_unity(fq_modulus(), 5, log_size as nat), i as nat),
            ),
{
    let d: ark_poly::Radix2EvaluationDomain<ark_pallas::Fr> = ark_poly::EvaluationDomain::new(size).unwrap();
    let xs: Vec<ark_pallas::Fr> = coeffs.iter().map(|a| ark_ff::BigInt(a.limbs).into()).collect();
    let ys: Vec<ark_pallas::Fr> = ark_poly::EvaluationDomain::fft(&d, &xs);
    ys.into_iter().map(|y| Fq { limbs: ark_ff::BigInt::from(y).0 }).collect()
}

/// `EvaluationDomain::ifft` of `ark-poly` on the radix-2 domain of the given size over
/// `ark_pallas::Fr`: the inverse discrete Fourier transform of the values.
#[verifier::external_body]
fn fq_ifft(evals: &Vec<Fq>, size: usize, log_size: u32) -> (r: Vec<Fq>)
    requires
        log_size <= 32,
        size == pow2(log_size as nat),
        evals@.len() <= size,
    ensures
        r@.len() == size,
        forall|k: int|
            0 <= k < size ==> (#[trigger] r@[k]).val() == fmul(
                fq_modulus(),
                finv(fq_modulus(), size as nat % fq_modulus()),
                poly_eval(
                    fq_modulus(),
                    fq_vals(evals@),
                    fpow(
                        fq_modulus(),
                        finv(fq_modulus(), root_of_unity(fq_modulus(), 5, log_size as nat)),
                        k as nat,
                    ),
                ),
            ),
{
    let d: ark_poly::Radix2EvaluationDomain<ark_pallas::Fr> = ark_poly::EvaluationDomain::new(size).unwrap();
    let xs: Vec<ark_pallas::Fr> = evals.iter().map(|a| ark_ff::BigInt(a.limbs).into()).collect();
    let ys: Vec<ark_pallas::Fr> = ark_poly::EvaluationDomain::ifft(&d, &xs);
    ys.into_iter().map(|y| Fq { limbs: ark_ff::BigInt::from(y).0 }).collect()
}

/// `UniformRand::rand` of `ark_pallas::Fr` on the operating system's generator.
/// Nothing is promised of the element drawn.
#[verifier::external_body]
fn fq_rand() -> Fq {
    let x = <ark_pallas::Fr as ark_ff::UniformRand>::rand(&mut rand::rngs::OsRng);
    Fq { limbs: ark_ff::BigInt::from(x).0 }
}

} // verus!
