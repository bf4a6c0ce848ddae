//! The polynomial commitment scheme over a curve whose discrete logarithm is hard:
//! committing to a polynomial, opening a batch of commitments at several points with
//! one inner-product argument, and verifying a batch of such openings with one
//! multi-scalar multiplication.

use crate::arith::{fadd, fmul, fpow, is_residue, lemma_fpow_add, lemma_fpow_one, seq_prod};
use crate::curve::{models, msm, CommitmentCurve};
use crate::error::ProofError;
use crate::field::{vals, LegendreSymbol, PrimeField};
use crate::groupmap::has_root;
use crate::poly::{chunk, chunk_count, lemma_chunk_bounds, DensePolynomial};
use crate::sponge::{
    absorb_elements_spec, coordinates, has_infinity, pack_spec, repr_value, squeeze_limbs_spec,
    to_field_spec, DefaultFqSponge, LimbSpongeModel, ScalarChallenge,
};
use crate::srs::SRS;
use vstd::arithmetic::power2::{
    lemma_pow2_pos, lemma_pow2_strictly_increases, lemma_pow2_unfold, pow2,
};
use vstd::prelude::*;

verus! {

/// Whether `k` is the least exponent with `2^k >= d`.
pub open spec fn is_ceil_log2(d: nat, k: nat) -> bool {
    pow2(k) >= d && (k > 0 ==> pow2((k - 1) as nat) < d)
}

/// The least `k` with `2^k >= d`.
pub open spec fn ceil_log2_spec(d: nat) -> nat {
    choose|k: nat| is_ceil_log2(d, k)
}

/// The least `k` with `2^k >= d`.
pub fn ceil_log2(d: usize) -> (r: usize)
    ensures
        pow2(r as nat) >= d,
        r > 0 ==> pow2((r - 1) as nat) < d,
        r == ceil_log2_spec(d as nat),
        r <= usize::BITS,
{
    let mut pow: usize = 1;
    let mut k: usize = 0;
    proof {
        vstd::arithmetic::power2::lemma2_to64();
    }
    while d > pow && pow <= usize::MAX / 2
        invariant
            pow >= 1,
            pow == pow2(k as nat),
            k > 0 ==> pow2((k - 1) as nat) < d,
            k < usize::BITS,
        decreases usize::MAX - pow,
    {
        proof {
            lemma_pow2_unfold((k + 1) as nat);
            lemma_pow2_bits((k + 1) as nat);
        }
        k = k + 1;
        pow = pow * 2;
    }
    let r: usize = if d > pow {
        proof {
            lemma_pow2_unfold((k + 1) as nat);
        }
        k + 1
    } else {
        k
    };
    proof {
        lemma_ceil_log2_unique(d as nat, r as nat);
    }
    r
}

/// A power of two that fits the machine word has an exponent below the word size.
pub proof fn lemma_pow2_bits(k: nat)
    requires
        pow2(k) <= usize::MAX,
    ensures
        k < usize::BITS,
{
    vstd::arithmetic::power2::lemma2_to64();
    vstd::arithmetic::power2::lemma2_to64_rest();
    if k >= usize::BITS {
        if usize::BITS == 32 {
            if k > 32 {
                lemma_pow2_strictly_increases(32, k);
            }
        } else {
            if k > 64 {
                lemma_pow2_strictly_increases(64, k);
            }
        }
    }
}

/// There is one `k` with `2^(k-1) < d <= 2^k`.
pub proof fn lemma_ceil_log2_unique(d: nat, k: nat)
    requires
        pow2(k) >= d,
        k > 0 ==> pow2((k - 1) as nat) < d,
    ensures
        k == ceil_log2_spec(d),
{
    assert(is_ceil_log2(d, k));
    let c = ceil_log2_spec(d);
    if c < k {
        if c < k - 1 {
            lemma_pow2_strictly_increases(c, (k - 1) as nat);
        }
    } else if k < c {
        if k < c - 1 {
            lemma_pow2_strictly_increases(k, (c - 1) as nat);
        }
    }
}

/// `2^k` as a machine word.
pub fn pow2_usize(k: usize) -> (r: usize)
    requires
        pow2(k as nat) <= usize::MAX,
    ensures
        r == pow2(k as nat),
{
    let mut r: usize = 1;
    let mut i: usize = 0;
    proof {
        vstd::arithmetic::power2::lemma2_to64();
    }
    while i < k
        invariant
            i <= k,
            r == pow2(i as nat),
            pow2(k as nat) <= usize::MAX,
        decreases k - i,
    {
        proof {
            lemma_pow2_unfold((i + 1) as nat);
            if i + 1 < k {
                lemma_pow2_strictly_increases((i + 1) as nat, k as nat);
            }
        }
        r = r * 2;
        i = i + 1;
    }
    r
}

/// The product of the elements.
pub fn product<F: PrimeField>(xs: &[F]) -> (r: F)
    ensures
        r.val() == seq_prod(F::modulus(), vals(xs@)),
{
    let mut res: F = F::one();
    let mut i: usize = 0;
    assert(vals(xs@).take(0).len() == 0);
    while i < xs.len()
        invariant
            i <= xs@.len(),
            res.val() == seq_prod(F::modulus(), vals(xs@).take(i as int)),
        decreases xs@.len() - i,
    {
        res = res.mul(&xs[i]);
        proof {
            let t = vals(xs@).take(i + 1);
            assert(t.drop_last() =~= vals(xs@).take(i as int));
            assert(t.last() == xs@[i as int].val());
        }
        i = i + 1;
    }
    assert(vals(xs@).take(xs@.len() as int) =~= vals(xs@));
    res
}

/// The powers `x^0, ..., x^(d-1)`.
pub open spec fn pows_spec(p: nat, d: nat, x: nat) -> Seq<nat> {
    Seq::new(d, |i: int| fpow(p, x, i as nat))
}

/// The powers `x^0, ..., x^(d-1)`.
pub fn pows<F: PrimeField>(d: usize, x: F) -> (r: Vec<F>)
    ensures
        r@.len() == d,
        vals(r@) == pows_spec(F::modulus(), d as nat, x.val()),
{
    let mut out: Vec<F> = Vec::new();
    let mut acc: F = F::one();
    let mut i: usize = 0;
    proof {
        F::lemma_modulus();
        vstd::arithmetic::div_mod::lemma_small_mod(1, F::modulus());
    }
    while i < d
        invariant
            i <= d,
            out@.len() == i,
            acc.val() == fpow(F::modulus(), x.val(), i as nat),
            forall|j: int|
                0 <= j < i ==> (#[trigger] out@[j]).val() == fpow(F::modulus(), x.val(), j as nat),
        decreases d - i,
    {
        out.push(acc);
        acc = x.mul(&acc);
        i = i + 1;
    }
    assert(vals(out@) =~= pows_spec(F::modulus(), d as nat, x.val()));
    out
}

/// The sum of `xs[i] * ys[i]` over the first `n` positions.
pub open spec fn inner_prod_spec(p: nat, xs: Seq<nat>, ys: Seq<nat>, n: nat) -> nat
    decreases n,
{
    if n == 0 {
        0
    } else {
        fadd(p, inner_prod_spec(p, xs, ys, (n - 1) as nat), fmul(p, xs[n - 1], ys[n - 1]))
    }
}

/// The shorter of two lengths.
pub open spec fn min_len(a: nat, b: nat) -> nat {
    if a <= b {
        a
    } else {
        b
    }
}

/// The inner product of two vectors, over the length of the shorter one.
pub fn inner_prod<F: PrimeField>(xs: &[F], ys: &[F]) -> (r: F)
    ensures
        r.val() == inner_prod_spec(
            F::modulus(),
            vals(xs@),
            vals(ys@),
            min_len(xs@.len(), ys@.len()),
        ),
{
    let n: usize = if xs.len() <= ys.len() {
        xs.len()
    } else {
        ys.len()
    };
    let mut res: F = F::zero();
    let mut i: usize = 0;
    while i < n
        invariant
            i <= n,
            n <= xs@.len(),
            n <= ys@.len(),
            res.val() == inner_prod_spec(F::modulus(), vals(xs@), vals(ys@), i as nat),
        decreases n - i,
    {
        res = res.add(&xs[i].mul(&ys[i]));
        i = i + 1;
    }
    res
}

/// The factors of the succinct form of the challenge polynomial at `x`: factor `i` is
/// `chal_invs[i] + chals[i] * x^(2^(k-1-i))`, with `k` the number of challenges.
pub open spec fn b_poly_factors(p: nat, chals: Seq<nat>, chal_invs: Seq<nat>, x: nat) -> Seq<nat> {
    Seq::new(
        chals.len(),
        |i: int|
            fadd(
                p,
                chal_invs[i],
                fmul(p, chals[i], fpow(p, x, pow2((chals.len() - 1 - i) as nat))),
            ),
    )
}

/// The value at `x` of the challenge polynomial, as the product of its factors.
pub open spec fn b_poly_spec(p: nat, chals: Seq<nat>, chal_invs: Seq<nat>, x: nat) -> nat {
    seq_prod(p, b_poly_factors(p, chals, chal_invs, x))
}

/// The value at `x` of the polynomial whose coefficients are the tensor product of the
/// round challenges, computed from its `k` factors.
pub fn b_poly<F: PrimeField>(chals: &Vec<F>, chal_invs: &Vec<F>, x: F) -> (r: F)
    requires
        chals@.len() <= chal_invs@.len(),
    ensures
        r.val() == b_poly_spec(F::modulus(), vals(chals@), vals(chal_invs@), x.val()),
{
    let k: usize = chals.len();
    let mut pow_twos: Vec<F> = Vec::new();
    pow_twos.push(x);
    x.canonical();
    proof {
        F::lemma_modulus();
        lemma_fpow_one(F::modulus(), x.val());
        vstd::arithmetic::power2::lemma2_to64();
    }
    let mut i: usize = 1;
    while i < k
        invariant
            1 <= i,
            pow_twos@.len() == i,
            F::modulus() > 1,
            forall|j: int|
                0 <= j < i ==> (#[trigger] pow_twos@[j]).val() == fpow(
                    F::modulus(),
                    x.val(),
                    pow2(j as nat),
                ),
        decreases k - i,
    {
        let prev: F = pow_twos[i - 1];
        proof {
            lemma_pow2_unfold(i as nat);
            lemma_fpow_add(F::modulus(), x.val(), pow2((i - 1) as nat), pow2((i - 1) as nat));
        }
        pow_twos.push(prev.square());
        i = i + 1;
    }
    let mut terms: Vec<F> = Vec::new();
    let mut i: usize = 0;
    while i < k
        invariant
            i <= k,
            k == chals@.len(),
            k <= chal_invs@.len(),
            k <= pow_twos@.len(),
            terms@.len() == i,
            forall|j: int|
                0 <= j < pow_twos@.len() ==> (#[trigger] pow_twos@[j]).val() == fpow(
                    F::modulus(),
                    x.val(),
                    pow2(j as nat),
                ),
            forall|j: int|
                0 <= j < i ==> (#[trigger] terms@[j]).val() == b_poly_factors(
                    F::modulus(),
                    vals(chals@),
                    vals(chal_invs@),
                    x.val(),
                )[j],
        decreases k - i,
    {
        let t: F = chal_invs[i].add(&chals[i].mul(&pow_twos[k - 1 - i]));
        terms.push(t);
        i = i + 1;
    }
    assert(vals(terms@) =~= b_poly_factors(
        F::modulus(),
        vals(chals@),
        vals(chal_invs@),
        x.val(),
    ));
    product(terms.as_slice())
}

/// The number of binary digits of `i`.
pub open spec fn bit_length(i: nat) -> nat
    decreases i,
{
    if i == 0 {
        0
    } else {
        1 + bit_length(i / 2)
    }
}

/// Coefficient `i` of the challenge polynomial: `s0` for `i = 0`, and else the
/// coefficient with the top bit of `i` cleared, times the squared challenge of the
/// round that this bit belongs to.
pub open spec fn b_poly_coefficient(p: nat, s0: nat, chal_squareds: Seq<nat>, i: nat) -> nat
    decreases i,
{
    if i == 0 {
        s0
    } else {
        let k = bit_length(i);
        let top = pow2((k - 1) as nat);
        if 0 < top <= i {
            fmul(
                p,
                b_poly_coefficient(p, s0, chal_squareds, (i - top) as nat),
                chal_squareds[chal_squareds.len() - k],
            )
        } else {
            0
        }
    }
}

/// The `2^k` coefficients of the challenge polynomial of `k` rounds.
pub open spec fn b_poly_coefficients_spec(p: nat, s0: nat, chal_squareds: Seq<nat>) -> Seq<nat> {
    Seq::new(
        pow2(chal_squareds.len()),
        |i: int| b_poly_coefficient(p, s0, chal_squareds, i as nat),
    )
}

/// A number between `2^(k-1)` and `2^k` has `k` binary digits.
pub proof fn lemma_bit_length(i: nat, k: nat)
    requires
        k >= 1,
        pow2((k - 1) as nat) <= i < pow2(k),
    ensures
        bit_length(i) == k,
    decreases k,
{
    vstd::arithmetic::power2::lemma2_to64();
    lemma_pow2_unfold(k);
    if k == 1 {
        assert(i == 1);
        assert(bit_length(1) == 1 + bit_length(0));
    } else {
        lemma_pow2_unfold((k - 1) as nat);
        lemma_bit_length(i / 2, (k - 1) as nat);
    }
}

/// The coefficients of the polynomial whose value [`b_poly`] computes, scaled so that
/// the constant one is `s0`.
pub fn b_poly_coefficients<F: PrimeField>(s0: F, chal_squareds: &Vec<F>) -> (s: Vec<F>)
    requires
        pow2(chal_squareds@.len()) <= usize::MAX,
    ensures
        vals(s@) == b_poly_coefficients_spec(F::modulus(), s0.val(), vals(chal_squareds@)),
{
    let rounds: usize = chal_squareds.len();
    let s_length: usize = pow2_usize(rounds);
    let mut s: Vec<F> = crate::poly::filled(F::one(), s_length);
    proof {
        lemma_pow2_pos(rounds as nat);
        vstd::arithmetic::power2::lemma2_to64();
    }
    s.set(0, s0);
    let mut k: usize = 0;
    let mut pow: usize = 1;
    let mut i: usize = 1;
    while i < s_length
        invariant
            1 <= i <= s_length,
            s_length == pow2(rounds as nat),
            rounds == chal_squareds@.len(),
            s@.len() == s_length,
            pow == pow2(k as nat),
            k <= rounds,
            i <= pow,
            k >= 1 ==> pow2((k - 1) as nat) <= i,
            k == 0 ==> i == 1,
            forall|j: int|
                0 <= j < i ==> (#[trigger] s@[j]).val() == b_poly_coefficient(
                    F::modulus(),
                    s0.val(),
                    vals(chal_squareds@),
                    j as nat,
                ),
        decreases s_length - i,
    {
        proof {
            vstd::arithmetic::power2::lemma2_to64();
        }
        if i == pow {
            proof {
                lemma_pow2_unfold((k + 1) as nat);
                if k >= rounds {
                    assert(false);
                }
                if k + 1 < rounds {
                    lemma_pow2_strictly_increases((k + 1) as nat, rounds as nat);
                }
            }
            k = k + 1;
            pow = pow * 2;
        }
        proof {
            lemma_pow2_unfold(k as nat);
            lemma_pow2_pos((k - 1) as nat);
            lemma_bit_length(i as nat, k as nat);
        }
        let v: F = s[i - pow / 2].mul(&chal_squareds[rounds - 1 - (k - 1)]);
        s.set(i, v);
        i = i + 1;
    }
    assert(vals(s@) =~= b_poly_coefficients_spec(
        F::modulus(),
        s0.val(),
        vals(chal_squareds@),
    ));
    s
}

/// An opening proof as the contracts see it.
pub ghost struct ProofModel {
    pub lr: Seq<((nat, nat, bool), (nat, nat, bool))>,
    pub delta: (nat, nat, bool),
    pub z1: nat,
    pub z2: nat,
    pub sg: (nat, nat, bool),
}

/// The proof that a batch of committed polynomials takes given values at given
/// points.
pub struct OpeningProof<G: CommitmentCurve> {
    /// The two cross terms of every round.
    pub lr: Vec<(G, G)>,
    pub delta: G,
    pub z1: G::ScalarField,
    pub z2: G::ScalarField,
    /// The reference string folded with the challenges of all rounds.
    pub sg: G,
}

/// The models of a sequence of pairs of points.
pub open spec fn pair_models<G: CommitmentCurve>(s: Seq<(G, G)>) -> Seq<
    ((nat, nat, bool), (nat, nat, bool)),
> {
    Seq::new(s.len(), |i: int| (s[i].0.model(), s[i].1.model()))
}

impl<G: CommitmentCurve> OpeningProof<G> {
    /// The points and scalars of the proof.
    pub open spec fn view(&self) -> ProofModel {
        ProofModel {
            lr: pair_models(self.lr@),
            delta: self.delta.model(),
            z1: self.z1.val(),
            z2: self.z2.val(),
            sg: self.sg.model(),
        }
    }
}

/// The challenges of the rounds of an opening, their inverses, their squares and the
/// inverses of the squares.
pub struct Challenges<F: PrimeField> {
    pub chal: Vec<F>,
    pub chal_inv: Vec<F>,
    pub chal_squared: Vec<F>,
    pub chal_squared_inv: Vec<F>,
}

/// The scalar and the transcript that squeezing a challenge gives.
pub open spec fn challenge_spec<G: CommitmentCurve>(
    rcs: Seq<Seq<nat>>,
    mds: Seq<Seq<nat>>,
    m: LimbSpongeModel,
) -> (nat, LimbSpongeModel) {
    let s = squeeze_limbs_spec(G::BaseField::modulus(), rcs, mds, m, 2);
    (repr_value(G::ScalarField::modulus(), pack_spec(s.0)), s.1)
}

/// The element of the base field and the transcript that squeezing a challenge for
/// the group map gives.
pub open spec fn challenge_fq_spec<G: CommitmentCurve>(
    rcs: Seq<Seq<nat>>,
    mds: Seq<Seq<nat>>,
    m: LimbSpongeModel,
) -> (nat, LimbSpongeModel) {
    let s = squeeze_limbs_spec(G::BaseField::modulus(), rcs, mds, m, 2);
    (repr_value(G::BaseField::modulus(), pack_spec(s.0)), s.1)
}

/// The challenge of a round before its root is taken: the squeezed challenge read as
/// a scalar, multiplied by the non-residue of the scalar field where it is no square.
pub open spec fn square_challenge_spec<G: CommitmentCurve>(
    rcs: Seq<Seq<nat>>,
    mds: Seq<Seq<nat>>,
    m: LimbSpongeModel,
    endo: nat,
) -> (nat, LimbSpongeModel) {
    let r = G::ScalarField::modulus();
    let c = challenge_spec::<G>(rcs, mds, m);
    let pre = to_field_spec(r, c.0, endo);
    (
        if pre != 0 && !is_residue(r, pre) {
            fmul(r, pre, G::ScalarField::nonresidue_value())
        } else {
            pre
        },
        c.1,
    )
}

/// The transcript after it has taken in the point `pt`.
pub open spec fn absorb_point_spec<G: CommitmentCurve>(
    rcs: Seq<Seq<nat>>,
    mds: Seq<Seq<nat>>,
    m: LimbSpongeModel,
    pt: (nat, nat, bool),
) -> LimbSpongeModel {
    absorb_elements_spec(G::BaseField::modulus(), rcs, mds, m, seq![pt.0, pt.1])
}

/// Takes one point into the transcript. The point at infinity is refused.
pub fn absorb_point<G: CommitmentCurve>(sponge: &mut DefaultFqSponge<G>, pt: G) -> (r: Result<
    (),
    ProofError,
>)
    requires
        old(sponge).wf(),
    ensures
        final(sponge).wf(),
        final(sponge).params == old(sponge).params,
        r is Err <==> pt.model().2,
        r matches Err(e) ==> e == ProofError::OracleCommit,
        r is Ok ==> final(sponge)@ == absorb_point_spec::<G>(
            old(sponge).params.rcs(),
            old(sponge).params.matrix(),
            old(sponge)@,
            pt.model(),
        ),
{
    let one: [G; 1] = [pt];
    proof {
        let ms = models(one@);
        assert(ms.len() == 1);
        assert(ms[0] == pt.model());
        reveal_with_fuel(coordinates, 2);
        assert(coordinates(ms, 1) =~= seq![pt.model().0, pt.model().1]);
        if pt.model().2 {
            assert(has_infinity(ms));
        }
    }
    sponge.absorb_g(one.as_slice())
}

/// Squeezes a short challenge.
pub fn squeeze_prechallenge<G: CommitmentCurve>(sponge: &mut DefaultFqSponge<G>) -> (r:
    ScalarChallenge<G::ScalarField>)
    requires
        old(sponge).wf(),
    ensures
        final(sponge).wf(),
        final(sponge).params == old(sponge).params,
        (r.0.val(), final(sponge)@) == challenge_spec::<G>(
            old(sponge).params.rcs(),
            old(sponge).params.matrix(),
            old(sponge)@,
        ),
{
    ScalarChallenge(sponge.challenge())
}

/// Squeezes a challenge that has a square root: the short challenge read as a scalar,
/// times the non-residue where that is no square.
pub fn squeeze_square_challenge<G: CommitmentCurve>(
    sponge: &mut DefaultFqSponge<G>,
    endo_r: &G::ScalarField,
) -> (r: G::ScalarField)
    requires
        old(sponge).wf(),
    ensures
        final(sponge).wf(),
        final(sponge).params == old(sponge).params,
        (r.val(), final(sponge)@) == square_challenge_spec::<G>(
            old(sponge).params.rcs(),
            old(sponge).params.matrix(),
            old(sponge)@,
            endo_r.val(),
        ),
{
    let nonresidue: G::ScalarField = G::ScalarField::nonresidue();
    let pre: G::ScalarField = squeeze_prechallenge(sponge).to_field(endo_r);
    match pre.legendre() {
        LegendreSymbol::Zero => pre,
        LegendreSymbol::QuadraticResidue => pre,
        LegendreSymbol::QuadraticNonResidue => pre.mul(&nonresidue),
    }
}

/// Squeezes the challenge of a round: a root of the square challenge, where there is
/// one.
pub fn squeeze_sqrt_challenge<G: CommitmentCurve>(
    sponge: &mut DefaultFqSponge<G>,
    endo_r: &G::ScalarField,
) -> (r: Option<G::ScalarField>)
    requires
        old(sponge).wf(),
    ensures
        final(sponge).wf(),
        final(sponge).params == old(sponge).params,
        final(sponge)@ == square_challenge_spec::<G>(
            old(sponge).params.rcs(),
            old(sponge).params.matrix(),
            old(sponge)@,
            endo_r.val(),
        ).1,
        r is Some <==> has_root(
            G::ScalarField::modulus(),
            square_challenge_spec::<G>(
                old(sponge).params.rcs(),
                old(sponge).params.matrix(),
                old(sponge)@,
                endo_r.val(),
            ).0,
        ),
        r matches Some(x) ==> x.val() == G::ScalarField::sqrt_of(
            square_challenge_spec::<G>(
                old(sponge).params.rcs(),
                old(sponge).params.matrix(),
                old(sponge)@,
                endo_r.val(),
            ).0,
        ),
{
    squeeze_square_challenge(sponge, endo_r).sqrt()
}

/// A commitment as the contracts see it.
pub ghost struct PolyCommModel {
    pub unshifted: Seq<(nat, nat, bool)>,
    pub shifted: Option<(nat, nat, bool)>,
}

/// A commitment to a polynomial: one point for each chunk of coefficients, and, where
/// the degree is bounded, one more for the last chunk moved to the right edge of the
/// reference string.
pub struct PolyComm<C: CommitmentCurve> {
    pub unshifted: Vec<C>,
    pub shifted: Option<C>,
}

impl<C: CommitmentCurve> PolyComm<C> {
    /// The points of the commitment.
    pub open spec fn view(&self) -> PolyCommModel {
        PolyCommModel {
            unshifted: models(self.unshifted@),
            shifted: match self.shifted {
                Some(c) => Some(c.model()),
                None => None,
            },
        }
    }

    /// A copy of the commitment.
    pub fn duplicate(&self) -> (r: Self)
        ensures
            r@ == self@,
            r.unshifted@ == self.unshifted@,
            r.shifted == self.shifted,
    {
        let u: Vec<C> = crate::poly::copy_range(self.unshifted.as_slice(), 0, self.unshifted.len());
        assert(self.unshifted@.subrange(0, self.unshifted@.len() as int) =~= self.unshifted@);
        PolyComm { unshifted: u, shifted: self.shifted }
    }
}

/// A degree bound as a natural number.
pub open spec fn bound_nat(max: Option<usize>) -> Option<nat> {
    match max {
        Some(m) => Some(m as nat),
        None => None,
    }
}

/// The commitment to the coefficients `coeffs` against the `n` points `g`. Chunk `i`,
/// which holds the coefficients from `i * n` up to `(i + 1) * n` or to the last one,
/// is committed as the multi-scalar multiplication of `g` with its coefficients. A
/// bound `m` that is no multiple of `n` adds the commitment of the coefficients from
/// `m - m % n` up to `m`, or to the last one, against the last `m % n` points.
pub open spec fn commit_spec<G: CommitmentCurve>(
    g: Seq<(nat, nat, bool)>,
    coeffs: Seq<nat>,
    max: Option<nat>,
) -> PolyCommModel {
    let n = g.len();
    let p = coeffs.len();
    PolyCommModel {
        unshifted: Seq::new(
            chunk_count(p, n),
            |i: int| G::msm_spec(g, chunk(coeffs, n, i as nat)),
        ),
        shifted: match max {
            None => None,
            Some(m) => if m % n == 0 {
                None
            } else {
                Some(
                    G::msm_spec(
                        g.subrange(n - m % n, n as int),
                        coeffs.subrange(
                            m - m % n,
                            if p <= m {
                                p as int
                            } else {
                                m as int
                            },
                        ),
                    ),
                )
            },
        },
    }
}

/// Whether a polynomial of `p` coefficients can be committed with the bound `max`
/// against `n` points: there are points, and the chunk that the bound moves starts
/// inside the coefficients.
pub open spec fn committable(n: nat, p: nat, max: Option<nat>) -> bool {
    n > 0 && (max matches Some(m) ==> (m % n != 0 ==> m - m % n <= p))
}

impl<G: CommitmentCurve> SRS<G> {
    /// Commits to a polynomial, with an optional bound on its degree.
    pub fn commit(&self, plnm: &DensePolynomial<G::ScalarField>, max: Option<usize>) -> (r: PolyComm<
        G,
    >)
        requires
            committable(self.g@.len(), plnm@.len(), bound_nat(max)),
        ensures
            r@ == commit_spec::<G>(models(self.g@), plnm@, bound_nat(max)),
            r.unshifted@.len() == chunk_count(plnm@.len(), self.g@.len()),
            max is None ==> r.shifted is None,
            max matches Some(m) ==> (r.shifted is None <==> m as nat % self.g@.len() == 0),
    {
        let n: usize = self.g.len();
        let p: usize = plnm.coeffs.len();
        proof {
            lemma_chunk_count(p as nat, n as nat);
            vstd::arithmetic::div_mod::lemma_fundamental_div_mod(p as int, n as int);
            assert((p / n) as int <= (n as int) * ((p / n) as int)) by (nonlinear_arith)
                requires
                    n >= 1,
            ;
        }
        let chunks: usize = p / n + if p % n != 0 {
            1
        } else {
            0
        };
        let mut unshifted: Vec<G> = Vec::new();
        let mut i: usize = 0;
        while i < chunks
            invariant
                i <= chunks,
                n == self.g@.len(),
                n > 0,
                p == plnm.coeffs@.len(),
                chunks == chunk_count(p as nat, n as nat),
                unshifted@.len() == i,
                forall|j: int|
                    0 <= j < i ==> (#[trigger] unshifted@[j]).model() == G::msm_spec(
                        models(self.g@),
                        chunk(plnm@, n as nat, j as nat),
                    ),
            decreases chunks - i,
        {
            proof {
                lemma_chunk_bounds(p as nat, n as nat, i as nat);
            }
            let lo: usize = i * n;
            let hi: usize = if p - lo <= n {
                p
            } else {
                lo + n
            };
            let scalars: Vec<G::ScalarField> = crate::poly::copy_range(
                plnm.coeffs.as_slice(),
                lo,
                hi,
            );
            assert(vals(scalars@) =~= chunk(plnm@, n as nat, i as nat));
            unshifted.push(msm(self.g.as_slice(), scalars.as_slice()));
            i = i + 1;
        }
        let shifted: Option<G> = match max {
            None => None,
            Some(m) => {
                if m % n == 0 {
                    None
                } else {
                    proof {
                        vstd::arithmetic::div_mod::lemma_mod_decreases(m as nat, n as nat);
                    }
                    let points: Vec<G> = crate::poly::copy_range(self.g.as_slice(), n - m % n, n);
                    let hi: usize = if p <= m {
                        p
                    } else {
                        m
                    };
                    let scalars: Vec<G::ScalarField> = crate::poly::copy_range(
                        plnm.coeffs.as_slice(),
                        m - m % n,
                        hi,
                    );
                    assert(vals(scalars@) =~= plnm@.subrange(m - m % n, hi as int));
                    assert(models(points@) =~= models(self.g@).subrange(n - m % n, n as int));
                    Some(msm(points.as_slice(), scalars.as_slice()))
                }
            },
        };
        let r = PolyComm { unshifted, shifted };
        assert(r@.unshifted =~= commit_spec::<G>(
            models(self.g@),
            plnm@,
            bound_nat(max),
        ).unshifted);
        r
    }
}

/// The number of chunks is the quotient, and one more where there is a remainder.
pub proof fn lemma_chunk_count(len: nat, size: nat)
    requires
        size > 0,
    ensures
        chunk_count(len, size) == len / size + if len % size != 0 {
            1nat
        } else {
            0nat
        },
{
    let q = len / size;
    let r = len % size;
    vstd::arithmetic::div_mod::lemma_fundamental_div_mod(len as int, size as int);
    vstd::arithmetic::div_mod::lemma_mod_bound(len as int, size as int);
    assert(size * q == q * size) by (nonlinear_arith);
    if r == 0 {
        vstd::arithmetic::div_mod::lemma_fundamental_div_mod_converse(
            (len + size - 1) as int,
            size as int,
            q as int,
            (size - 1) as int,
        );
    } else {
        assert((q + 1) * size == q * size + size) by (nonlinear_arith);
        vstd::arithmetic::div_mod::lemma_fundamental_div_mod_converse(
            (len + size - 1) as int,
            size as int,
            (q + 1) as int,
            (r - 1) as int,
        );
    }
}

/// A polynomial that fits one chunk is committed as one point: the multi-scalar
/// multiplication of the reference string with all of its coefficients. Without a
/// bound, and with a bound that is a multiple of the size of the reference string,
/// there is no shifted point; with any other bound there is one.
pub proof fn lemma_commit_single_chunk<G: CommitmentCurve>(
    g: Seq<(nat, nat, bool)>,
    coeffs: Seq<nat>,
    max: Option<nat>,
)
    requires
        0 < coeffs.len() <= g.len(),
    ensures
        commit_spec::<G>(g, coeffs, max).unshifted == seq![G::msm_spec(g, coeffs)],
        max is None ==> commit_spec::<G>(g, coeffs, max).shifted is None,
        max matches Some(m) ==> (commit_spec::<G>(g, coeffs, max).shifted is None <==> m % g.len()
            == 0),
{
    lemma_chunk_bounds(coeffs.len(), g.len(), 0);
    lemma_chunk_bounds(coeffs.len(), g.len(), 1);
    assert(1 * g.len() == g.len()) by (nonlinear_arith);
    assert(0 * g.len() == 0) by (nonlinear_arith);
    assert(chunk_count(coeffs.len(), g.len()) == 1);
    assert(coeffs.subrange(0 * (g.len() as int), coeffs.len() as int) =~= coeffs);
    assert(commit_spec::<G>(g, coeffs, max).unshifted =~= seq![G::msm_spec(g, coeffs)]);
}

/// A bound that is a multiple of the size of the reference string gives no shifted
/// point, whatever the polynomial.
pub proof fn lemma_commit_bound_multiple<G: CommitmentCurve>(
    g: Seq<(nat, nat, bool)>,
    coeffs: Seq<nat>,
    m: nat,
)
    requires
        g.len() > 0,
        m % g.len() == 0,
    ensures
        commit_spec::<G>(g, coeffs, Some(m)).shifted is None,
{
}

} // verus!
