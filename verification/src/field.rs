//! Prime fields: the interface that the rest of the crate computes through.
//!
//! The two implementations, [`crate::fp::Fp`] and [`crate::fq::Fq`], are the fields
//! of the Pallas and Vesta curves.

use crate::arith::{fadd, finv, fmul, fneg, fpow, fsub, is_residue, limb_radix, limbs_nat};
use crate::poly::poly_eval;
use vstd::arithmetic::power2::pow2;
use vstd::prelude::*;

verus! {

/// The outcome of Euler's criterion on a field element.
#[derive(Clone, Copy, Debug, PartialEq, Eq)]
pub enum LegendreSymbol {
    Zero,
    QuadraticResidue,
    QuadraticNonResidue,
}

/// A prime field of at most 256 bits.
pub trait PrimeField: Sized + Copy {
    /// The prime that the field is taken modulo.
    spec fn modulus() -> nat;

    /// The canonical representative of the element, below the modulus.
    spec fn val(&self) -> nat;

    /// The square root that [`PrimeField::sqrt`] picks for a square `a`.
    spec fn sqrt_of(a: nat) -> nat;

    proof fn lemma_modulus()
        ensures
            Self::modulus() > limb_radix(),
    ;

    /// The modulus has 255 bits.
    proof fn lemma_modulus_size()
        ensures
            0x4000000000000000000000000000000000000000000000000000000000000000
                < Self::modulus()
                < 0x8000000000000000000000000000000000000000000000000000000000000000,
    ;

    /// Brings the bound on the representative into the caller's context.
    fn canonical(&self)
        ensures
            self.val() < Self::modulus(),
    ;

    fn zero() -> (r: Self)
        ensures
            r.val() == 0,
    ;

    fn one() -> (r: Self)
        ensures
            r.val() == 1,
    ;

    fn from_u64(x: u64) -> (r: Self)
        ensures
            r.val() == x,
    ;

    /// The element whose representative the limbs spell, or zero where they spell a
    /// number that is not below the modulus.
    fn from_repr(limbs: [u64; 4]) -> (r: Self)
        ensures
            r.val() == if limbs_nat(limbs@) < Self::modulus() {
                limbs_nat(limbs@)
            } else {
                0
            },
    ;

    /// The limbs of the canonical representative, least significant first.
    fn into_repr(&self) -> (r: [u64; 4])
        ensures
            limbs_nat(r@) == self.val(),
    ;

    fn is_eq(&self, rhs: &Self) -> (b: bool)
        ensures
            b == (self.val() == rhs.val()),
    ;

    fn is_zero(&self) -> (b: bool)
        ensures
            b == (self.val() == 0),
    ;

    fn add(&self, rhs: &Self) -> (r: Self)
        ensures
            r.val() == fadd(Self::modulus(), self.val(), rhs.val()),
    ;

    fn sub(&self, rhs: &Self) -> (r: Self)
        ensures
            r.val() == fsub(Self::modulus(), self.val(), rhs.val()),
    ;

    fn mul(&self, rhs: &Self) -> (r: Self)
        ensures
            r.val() == fmul(Self::modulus(), self.val(), rhs.val()),
    ;

    fn neg(&self) -> (r: Self)
        ensures
            r.val() == fneg(Self::modulus(), self.val()),
    ;

    fn double(&self) -> (r: Self)
        ensures
            r.val() == fadd(Self::modulus(), self.val(), self.val()),
    ;

    fn square(&self) -> (r: Self)
        ensures
            r.val() == fmul(Self::modulus(), self.val(), self.val()),
    ;

    /// `self^e`, where the limbs of `exp` spell `e`.
    fn pow(&self, exp: &[u64]) -> (r: Self)
        ensures
            r.val() == fpow(Self::modulus(), self.val(), limbs_nat(exp@)),
    ;

    fn inverse(&self) -> (r: Option<Self>)
        ensures
            r is None <==> self.val() == 0,
            r matches Some(x) ==> x.val() == finv(Self::modulus(), self.val()) && fmul(
                Self::modulus(),
                x.val(),
                self.val(),
            ) == 1,
    ;

    /// Replaces every non-zero element by its inverse, whose product with the element
    /// is one, and leaves the zeros.
    fn batch_inversion(v: &mut Vec<Self>)
        ensures
            final(v)@.len() == old(v)@.len(),
            forall|i: int|
                0 <= i < old(v)@.len() ==> (#[trigger] final(v)@[i]).val() == finv(
                    Self::modulus(),
                    old(v)@[i].val(),
                ),
            forall|i: int|
                0 <= i < old(v)@.len() && old(v)@[i].val() != 0 ==> fmul(
                    Self::modulus(),
                    old(v)@[i].val(),
                    (#[trigger] final(v)@[i]).val(),
                ) == 1,
    ;

    fn legendre(&self) -> (r: LegendreSymbol)
        ensures
            r == LegendreSymbol::Zero <==> self.val() == 0,
            r == LegendreSymbol::QuadraticResidue <==> is_residue(Self::modulus(), self.val()),
    ;

    fn sqrt(&self) -> (r: Option<Self>)
        ensures
            r is Some <==> (self.val() == 0 || is_residue(Self::modulus(), self.val())),
            r matches Some(x) ==> x.val() == Self::sqrt_of(self.val()) && fmul(
                Self::modulus(),
                x.val(),
                x.val(),
            ) == self.val(),
    ;

    /// A field element drawn from the operating system's randomness. Which element
    /// comes is open; whichever comes is an element of the field, with its
    /// representative below the modulus.
    fn rand() -> (r: Self)
        ensures
            r.val() < Self::modulus(),
    ;

    /// The number of bits of the modulus.
    fn size_in_bits() -> (n: usize)
        ensures
            n == 255,
    ;

    /// The value of the generator that [`PrimeField::multiplicative_generator`] gives.
    spec fn generator_value() -> nat;

    /// A generator of the multiplicative group.
    fn multiplicative_generator() -> (r: Self)
        ensures
            r.val() == Self::generator_value(),
    ;

    /// The value of the non-residue that [`PrimeField::nonresidue`] gives: the field
    /// chooses it.
    spec fn nonresidue_value() -> nat;

    /// The element by which a non-square challenge is multiplied to make it a square.
    fn nonresidue() -> (r: Self)
        ensures
            r.val() == Self::nonresidue_value(),
    ;

    /// The limbs of the modulus, least significant first.
    fn modulus_repr() -> (r: [u64; 4])
        ensures
            limbs_nat(r@) == Self::modulus(),
    ;

    /// The limbs of the odd part `(p - 1) / 2^32` of the order of the multiplicative
    /// group.
    fn trace_repr() -> (r: [u64; 4])
        ensures
            limbs_nat(r@) * 0x1_0000_0000 + 1 == Self::modulus(),
    ;

    /// The values of the polynomial with the coefficients `coeffs` on the subgroup of
    /// order `size = 2^log_size`: entry `i` is the value at the `i`-th power of the
    /// root of unity of that order.
    fn fft(coeffs: &Vec<Self>, size: usize, log_size: u32) -> (r: Vec<Self>)
        requires
            log_size <= 32,
            size == pow2(log_size as nat),
            coeffs@.len() <= size,
        ensures
            r@.len() == size,
            forall|i: int|
                0 <= i < size ==> (#[trigger] r@[i]).val() == poly_eval(
                    Self::modulus(),
                    Seq::new(coeffs@.len(), |j: int| coeffs@[j].val()),
                    fpow(
                        Self::modulus(),
                        root_of_unity(Self::modulus(), Self::generator_value(), log_size as nat),
                        i as nat,
                    ),
                ),
    ;

    /// The coefficients of the polynomial of degree below `size = 2^log_size` that
    /// takes the values `evals` on the subgroup of that order: coefficient `k` is the
    /// value of the polynomial with the coefficients `evals` at the `k`-th power of
    /// the inverse of the root of unity, divided by `size`.
    fn ifft(evals: &Vec<Self>, size: usize, log_size: u32) -> (r: Vec<Self>)
        requires
            log_size <= 32,
            size == pow2(log_size as nat),
            evals@.len() <= size,
        ensures
            r@.len() == size,
            forall|k: int|
                0 <= k < size ==> (#[trigger] r@[k]).val() == fmul(
                    Self::modulus(),
                    finv(Self::modulus(), size as nat % Self::modulus()),
                    poly_eval(
                        Self::modulus(),
                        Seq::new(evals@.len(), |j: int| evals@[j].val()),
                        fpow(
                            Self::modulus(),
                            finv(
                                Self::modulus(),
                                root_of_unity(
                                    Self::modulus(),
                                    Self::generator_value(),
                                    log_size as nat,
                                ),
                            ),
                            k as nat,
                        ),
                    ),
                ),
    ;
}

/// The root of unity of order `2^k` that the evaluation domains use: the generator
/// raised to the odd part of `p - 1`, squared `32 - k` times.
pub open spec fn root_of_unity(p: nat, generator: nat, k: nat) -> nat {
    fpow(p, fpow(p, generator, ((p - 1) / 0x1_0000_0000) as nat), pow2((32 - k) as nat))
}

/// The values of a sequence of field elements.
pub open spec fn vals<F: PrimeField>(s: Seq<F>) -> Seq<nat> {
    Seq::new(s.len(), |i: int| s[i].val())
}

} // verus!
