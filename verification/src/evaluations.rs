//! Evaluation domains, which are the subgroups of order a power of two of the
//! multiplicative group, and polynomials given by their values on such a domain.

use crate::arith::{fadd, finv, fmul, fpow, fsub, lemma_fpow_add, lemma_fpow_one};
use crate::error::ProofError;
use crate::field::{root_of_unity, vals, PrimeField};
use crate::poly::{poly_eval, DensePolynomial};
use vstd::arithmetic::power2::{lemma2_to64, lemma_pow2_strictly_increases, lemma_pow2_unfold, pow2};
use vstd::prelude::*;

verus! {

/// The subgroup of order `size = 2^log_size`, with its generator and the inverse of
/// its order.
pub struct Domain<F: PrimeField> {
    pub size: usize,
    pub log_size: u32,
    pub group_gen: F,
    pub size_inv: F,
}

/// The values of the polynomial with the coefficients `coeffs` at the first `n` powers
/// of `w`.
pub open spec fn dft_spec(p: nat, w: nat, n: nat, coeffs: Seq<nat>) -> Seq<nat> {
    Seq::new(n, |i: int| poly_eval(p, coeffs, fpow(p, w, i as nat)))
}

/// The `n` coefficients of the polynomial that takes the values `evals` at the powers
/// of `w`, an `n`-th root of unity: the inverse discrete Fourier transform.
pub open spec fn idft_spec(p: nat, w: nat, n: nat, evals: Seq<nat>) -> Seq<nat> {
    Seq::new(
        n,
        |k: int| fmul(p, finv(p, n % p), poly_eval(p, evals, fpow(p, finv(p, w), k as nat))),
    )
}

impl<F: PrimeField> Domain<F> {
    /// The generator is the root of unity of the order, and the inverse is the one of
    /// the size.
    pub open spec fn wf(&self) -> bool {
        &&& self.log_size <= 32
        &&& self.size == pow2(self.log_size as nat)
        &&& self.group_gen.val() == root_of_unity(
            F::modulus(),
            F::generator_value(),
            self.log_size as nat,
        )
        &&& self.size_inv.val() == finv(F::modulus(), self.size as nat % F::modulus())
    }

    /// The domain of order `2^log_size`. There is none of an order beyond `2^32`, nor
    /// of one that the machine word cannot hold.
    pub fn new(log_size: u32) -> (r: Result<Self, ProofError>)
        ensures
            r is Ok <==> (log_size <= 32 && pow2(log_size as nat) <= usize::MAX),
            r matches Ok(d) ==> d.wf() && d.log_size == log_size,
            r matches Err(e) ==> e == ProofError::DomainCreation,
    {
        proof {
            lemma2_to64();
            vstd::arithmetic::power2::lemma2_to64_rest();
        }
        if log_size > 32 || (log_size == 32 && usize::BITS <= 32) {
            proof {
                if log_size <= 32 {
                    assert(pow2(32) > usize::MAX);
                }
            }
            return Err(ProofError::DomainCreation);
        }
        proof {
            if log_size < 32 {
                lemma_pow2_strictly_increases(log_size as nat, 32);
            }
        }
        let size: usize = crate::commitment::pow2_usize(log_size as usize);
        let trace: [u64; 4] = F::trace_repr();
        let g: F = F::multiplicative_generator();
        let ghost p = F::modulus();
        let ghost root = fpow(p, F::generator_value(), ((p - 1) / 0x1_0000_0000) as nat);
        let mut omega: F = g.pow(trace.as_slice());
        proof {
            F::lemma_modulus();
            crate::arith::lemma_fpow_bound(
                p,
                F::generator_value(),
                ((p - 1) / 0x1_0000_0000) as nat,
            );
            lemma_fpow_one(p, root);
        }
        let mut k: u32 = 32;
        while k > log_size
            invariant
                log_size <= k <= 32,
                p == F::modulus(),
                p > 1,
                omega.val() == fpow(p, root, pow2((32 - k) as nat)),
            decreases k - log_size,
        {
            proof {
                lemma_pow2_unfold((32 - k + 1) as nat);
                lemma_fpow_add(p, root, pow2((32 - k) as nat), pow2((32 - k) as nat));
            }
            omega = omega.square();
            k = k - 1;
        }
        let size_inv: F = match F::from_u64(size as u64).inverse() {
            Some(x) => x,
            None => F::zero(),
        };
        proof {
            vstd::arithmetic::power2::lemma_pow2_pos(log_size as nat);
            vstd::arithmetic::div_mod::lemma_small_mod(size as nat, p);
        }
        Ok(Domain { size, log_size, group_gen: omega, size_inv })
    }

    /// The elements of the domain: the powers of the generator, in order.
    pub fn elements(&self) -> (r: Vec<F>)
        ensures
            r@.len() == self.size,
            forall|i: int|
                0 <= i < self.size ==> (#[trigger] r@[i]).val() == fpow(
                    F::modulus(),
                    self.group_gen.val(),
                    i as nat,
                ),
    {
        let r = crate::commitment::pows(self.size, self.group_gen);
        assert forall|i: int| 0 <= i < self.size implies (#[trigger] r@[i]).val() == fpow(
            F::modulus(),
            self.group_gen.val(),
            i as nat,
        ) by {
            assert(vals(r@)[i] == r@[i].val());
        }
        r
    }
}

/// A polynomial by its values on a domain, in the order of the domain's elements.
pub struct Evaluations<F: PrimeField> {
    pub evals: Vec<F>,
}

/// The sums of two sequences, position by position.
pub open spec fn ev_add(p: nat, a: Seq<nat>, b: Seq<nat>) -> Seq<nat> {
    Seq::new(a.len(), |i: int| fadd(p, a[i], b[i]))
}

/// The differences of two sequences, position by position.
pub open spec fn ev_sub(p: nat, a: Seq<nat>, b: Seq<nat>) -> Seq<nat> {
    Seq::new(a.len(), |i: int| fsub(p, a[i], b[i]))
}

/// The products of two sequences, position by position.
pub open spec fn ev_mul(p: nat, a: Seq<nat>, b: Seq<nat>) -> Seq<nat> {
    Seq::new(a.len(), |i: int| fmul(p, a[i], b[i]))
}

/// The sequence with every entry multiplied by `k`.
pub open spec fn ev_scale(p: nat, a: Seq<nat>, k: nat) -> Seq<nat> {
    Seq::new(a.len(), |i: int| fmul(p, a[i], k))
}

/// The sequence turned left by `k` positions: entry `i` is entry `i + k` of `a`,
/// counted around the end.
pub open spec fn ev_shift(a: Seq<nat>, k: nat) -> Seq<nat> {
    Seq::new(a.len(), |i: int| a[(i + k) % (a.len() as int)])
}

impl<F: PrimeField> Evaluations<F> {
    /// The values.
    pub open spec fn view(&self) -> Seq<nat> {
        vals(self.evals@)
    }

    /// A copy of the values.
    pub fn duplicate(&self) -> (r: Self)
        ensures
            r@ == self@,
            r.evals@ == self.evals@,
    {
        let v: Vec<F> = crate::poly::copy_range(self.evals.as_slice(), 0, self.evals.len());
        assert(v@ =~= self.evals@);
        Evaluations { evals: v }
    }

    /// Whether every value is zero.
    pub fn is_zero(&self) -> (b: bool)
        ensures
            b == (forall|i: int| 0 <= i < self@.len() ==> self@[i] == 0),
    {
        let mut i: usize = 0;
        while i < self.evals.len()
            invariant
                i <= self.evals@.len(),
                forall|j: int| 0 <= j < i ==> self@[j] == 0,
            decreases self.evals@.len() - i,
        {
            if !self.evals[i].is_zero() {
                assert(self@[i as int] != 0);
                return false;
            }
            i = i + 1;
        }
        true
    }

    /// The sum of two polynomials on the same domain.
    pub fn add(&self, other: &Self) -> (r: Self)
        requires
            self@.len() == other@.len(),
        ensures
            r@ == ev_add(F::modulus(), self@, other@),
    {
        let n: usize = self.evals.len();
        let mut out: Vec<F> = Vec::new();
        let mut i: usize = 0;
        while i < n
            invariant
                i <= n,
                n == self.evals@.len(),
                n == other.evals@.len(),
                out@.len() == i,
                forall|j: int|
                    0 <= j < i ==> (#[trigger] out@[j]).val() == fadd(
                        F::modulus(),
                        self.evals@[j].val(),
                        other.evals@[j].val(),
                    ),
            decreases n - i,
        {
            out.push(self.evals[i].add(&other.evals[i]));
            i = i + 1;
        }
        assert(vals(out@) =~= ev_add(F::modulus(), self@, other@));
        Evaluations { evals: out }
    }

    /// The difference of two polynomials on the same domain.
    pub fn sub(&self, other: &Self) -> (r: Self)
        requires
            self@.len() == other@.len(),
        ensures
            r@ == ev_sub(F::modulus(), self@, other@),
    {
        let n: usize = self.evals.len();
        let mut out: Vec<F> = Vec::new();
        let mut i: usize = 0;
        while i < n
            invariant
                i <= n,
                n == self.evals@.len(),
                n == other.evals@.len(),
                out@.len() == i,
                forall|j: int|
                    0 <= j < i ==> (#[trigger] out@[j]).val() == fsub(
                        F::modulus(),
                        self.evals@[j].val(),
                        other.evals@[j].val(),
                    ),
            decreases n - i,
        {
            out.push(self.evals[i].sub(&other.evals[i]));
            i = i + 1;
        }
        assert(vals(out@) =~= ev_sub(F::modulus(), self@, other@));
        Evaluations { evals: out }
    }

    /// The product of two polynomials on the same domain, as far as the domain holds
    /// its degree.
    pub fn mul(&self, other: &Self) -> (r: Self)
        requires
            self@.len() == other@.len(),
        ensures
            r@ == ev_mul(F::modulus(), self@, other@),
    {
        let n: usize = self.evals.len();
        let mut out: Vec<F> = Vec::new();
        let mut i: usize = 0;
        while i < n
            invariant
                i <= n,
                n == self.evals@.len(),
                n == other.evals@.len(),
                out@.len() == i,
                forall|j: int|
                    0 <= j < i ==> (#[trigger] out@[j]).val() == fmul(
                        F::modulus(),
                        self.evals@[j].val(),
                        other.evals@[j].val(),
                    ),
            decreases n - i,
        {
            out.push(self.evals[i].mul(&other.evals[i]));
            i = i + 1;
        }
        assert(vals(out@) =~= ev_mul(F::modulus(), self@, other@));
        Evaluations { evals: out }
    }

    /// The polynomial times the constant `k`.
    pub fn scale(&self, k: F) -> (r: Self)
        ensures
            r@ == ev_scale(F::modulus(), self@, k.val()),
    {
        let n: usize = self.evals.len();
        let mut out: Vec<F> = Vec::new();
        let mut i: usize = 0;
        while i < n
            invariant
                i <= n,
                n == self.evals@.len(),
                out@.len() == i,
                forall|j: int|
                    0 <= j < i ==> (#[trigger] out@[j]).val() == fmul(
                        F::modulus(),
                        self.evals@[j].val(),
                        k.val(),
                    ),
            decreases n - i,
        {
            out.push(self.evals[i].mul(&k));
            i = i + 1;
        }
        assert(vals(out@) =~= ev_scale(F::modulus(), self@, k.val()));
        Evaluations { evals: out }
    }

    /// The values turned left by `k` positions: the polynomial with its argument
    /// multiplied by the `k`-th power of the domain's generator.
    pub fn shift(&self, k: usize) -> (r: Self)
        ensures
            r@ == ev_shift(self@, k as nat),
    {
        let n: usize = self.evals.len();
        let mut out: Vec<F> = Vec::new();
        if n == 0 {
            assert(vals(out@) =~= ev_shift(self@, k as nat));
            return Evaluations { evals: out };
        }
        let step: usize = k % n;
        let mut i: usize = 0;
        while i < n
            invariant
                i <= n,
                n > 0,
                n == self.evals@.len(),
                step == k % n,
                out@.len() == i,
                forall|j: int|
                    0 <= j < i ==> (#[trigger] out@[j]) == self.evals@[(j + k) % (n as int)],
            decreases n - i,
        {
            let src: usize = if step >= n - i {
                step - (n - i)
            } else {
                i + step
            };
            proof {
                vstd::arithmetic::div_mod::lemma_fundamental_div_mod(k as int, n as int);
                let q = (k / n) as int;
                assert((n as int) * q == q * (n as int)) by (nonlinear_arith);
                if step >= n - i {
                    assert((q + 1) * (n as int) == q * (n as int) + n) by (nonlinear_arith);
                    vstd::arithmetic::div_mod::lemma_fundamental_div_mod_converse(
                        i + k,
                        n as int,
                        q + 1,
                        src as int,
                    );
                } else {
                    vstd::arithmetic::div_mod::lemma_fundamental_div_mod_converse(
                        i + k,
                        n as int,
                        q,
                        src as int,
                    );
                }
            }
            out.push(self.evals[src]);
            i = i + 1;
        }
        assert(vals(out@) =~= ev_shift(self@, k as nat));
        Evaluations { evals: out }
    }

    /// The polynomial of degree below the size of the domain that takes the values.
    pub fn interpolate(&self, domain: &Domain<F>) -> (r: DensePolynomial<F>)
        requires
            domain.wf(),
            self@.len() <= domain.size,
        ensures
            r.coeffs@.len() == domain.size,
            r@ == idft_spec(F::modulus(), domain.group_gen.val(), domain.size as nat, self@),
    {
        let c: Vec<F> = F::ifft(&self.evals, domain.size, domain.log_size);
        proof {
            assert(Seq::new(self.evals@.len(), |j: int| self.evals@[j].val()) =~= self@);
            assert(vals(c@) =~= idft_spec(
                F::modulus(),
                domain.group_gen.val(),
                domain.size as nat,
                self@,
            ));
        }
        DensePolynomial { coeffs: c }
    }
}

impl<F: PrimeField> DensePolynomial<F> {
    /// The values of the polynomial on the domain, which must be as large as the
    /// polynomial has coefficients.
    pub fn evaluate_over_domain(&self, domain: &Domain<F>) -> (r: Evaluations<F>)
        requires
            domain.wf(),
            self@.len() <= domain.size,
        ensures
            r.evals@.len() == domain.size,
            r@ == dft_spec(F::modulus(), domain.group_gen.val(), domain.size as nat, self@),
    {
        let e: Vec<F> = F::fft(&self.coeffs, domain.size, domain.log_size);
        proof {
            assert(Seq::new(self.coeffs@.len(), |j: int| self.coeffs@[j].val()) =~= self@);
            assert(vals(e@) =~= dft_spec(
                F::modulus(),
                domain.group_gen.val(),
                domain.size as nat,
                self@,
            ));
        }
        Evaluations { evals: e }
    }
}

} // verus!
