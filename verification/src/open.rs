//! Opening a batch of commitments: the polynomials are folded into one, and an
//! inner-product argument of logarithmically many rounds shows what it evaluates to.

use crate::arith::{fadd, finv, fmul, fpow};
use crate::commitment::{
    absorb_point, absorb_point_spec, bound_nat, ceil_log2, ceil_log2_spec, challenge_fq_spec,
    challenge_spec, inner_prod, inner_prod_spec, pair_models, pow2_usize, pows, pows_spec,
    square_challenge_spec, squeeze_prechallenge, squeeze_sqrt_challenge, OpeningProof, ProofModel,
};
use crate::curve::{models, msm, CommitmentCurve};
use crate::error::ProofError;
use crate::field::{vals, PrimeField};
use crate::groupmap::{has_root, to_group_spec, BWModel, BWParameters};
use crate::poly::{copy_range, filled, poly_add, poly_scale, poly_shiftr, DensePolynomial, Utils};
use crate::shamir::{window_shamir, window_shamir_spec};
use crate::sponge::{to_field_spec, DefaultFqSponge, LimbSpongeModel};
use crate::srs::SRS;
use vstd::arithmetic::power2::{lemma_pow2_pos, lemma_pow2_unfold, pow2};
use vstd::prelude::*;

verus! {

/// The accumulated polynomial and the next power of the scaling factor after the
/// chunks of `coeffs` from `offset` on have been mixed in. Every chunk is added with
/// its own power. Where the polynomial has a bound and its last chunk is not full,
/// that chunk is added once more, moved right to where the bound puts it.
pub open spec fn mix_chunks(
    p: nat,
    acc: (Seq<nat>, nat),
    coeffs: Seq<nat>,
    bound: Option<nat>,
    polyscale: nat,
    n: nat,
    offset: nat,
) -> (Seq<nat>, nat)
    decreases coeffs.len() - offset,
{
    if offset >= coeffs.len() || n == 0 {
        acc
    } else {
        let last = offset + n > coeffs.len();
        let hi = if last {
            coeffs.len()
        } else {
            offset + n
        };
        let segment = coeffs.subrange(offset as int, hi as int);
        let acc1 = (poly_add(p, acc.0, poly_scale(p, segment, acc.1)), fmul(p, acc.1, polyscale));
        let acc2 = if last && bound is Some {
            (
                poly_add(
                    p,
                    acc1.0,
                    poly_scale(
                        p,
                        poly_shiftr(segment, (n - bound->0 % n) as nat),
                        acc1.1,
                    ),
                ),
                fmul(p, acc1.1, polyscale),
            )
        } else {
            acc1
        };
        if last {
            acc2
        } else {
            mix_chunks(p, acc2, coeffs, bound, polyscale, n, offset + n)
        }
    }
}

/// The accumulated polynomial and the next power of the scaling factor after the
/// first `k` polynomials have been mixed in.
pub open spec fn mix_polys(
    p: nat,
    plnms: Seq<(Seq<nat>, Option<nat>)>,
    polyscale: nat,
    n: nat,
    k: nat,
) -> (Seq<nat>, nat)
    decreases k,
{
    if k == 0 {
        (Seq::empty(), 1)
    } else {
        mix_chunks(
            p,
            mix_polys(p, plnms, polyscale, n, (k - 1) as nat),
            plnms[k - 1].0,
            plnms[k - 1].1,
            polyscale,
            n,
            0,
        )
    }
}

/// The polynomials of a batch with their bounds, as the contracts see them.
pub open spec fn batch_models<F: PrimeField>(plnms: Seq<(&DensePolynomial<F>, Option<usize>)>) -> Seq<
    (Seq<nat>, Option<nat>),
> {
    Seq::new(plnms.len(), |i: int| (plnms[i].0@, bound_nat(plnms[i].1)))
}

/// Folds the polynomials of a batch into one with the powers of `polyscale`.
pub fn combine_polynomials<F: PrimeField>(
    plnms: &Vec<(&DensePolynomial<F>, Option<usize>)>,
    polyscale: F,
    n: usize,
) -> (r: DensePolynomial<F>)
    requires
        0 < n <= usize::MAX / 2,
    ensures
        r@ == mix_polys(F::modulus(), batch_models(plnms@), polyscale.val(), n as nat, plnms@.len()).0,
{
    let mut p: DensePolynomial<F> = DensePolynomial::zero();
    let mut scale: F = F::one();
    let ghost bm = batch_models(plnms@);
    let mut k: usize = 0;
    assert(p@ =~= Seq::<nat>::empty());
    while k < plnms.len()
        invariant
            k <= plnms@.len(),
            0 < n <= usize::MAX / 2,
            bm == batch_models(plnms@),
            (p@, scale.val()) == mix_polys(F::modulus(), bm, polyscale.val(), n as nat, k as nat),
        decreases plnms@.len() - k,
    {
        let p_i: &DensePolynomial<F> = plnms[k].0;
        let degree_bound: Option<usize> = plnms[k].1;
        let len: usize = p_i.coeffs.len();
        let ghost start = (p@, scale.val());
        let ghost target = mix_chunks(
            F::modulus(),
            start,
            bm[k as int].0,
            bm[k as int].1,
            polyscale.val(),
            n as nat,
            0,
        );
        assert(bm[k as int].0 == p_i@);
        assert(bm[k as int].1 == bound_nat(degree_bound));
        let mut offset: usize = 0;
        let mut done: bool = len == 0;
        while !done
            invariant
                0 < n <= usize::MAX / 2,
                len == p_i.coeffs@.len(),
                offset <= len,
                !done ==> offset < len,
                !done ==> mix_chunks(
                    F::modulus(),
                    (p@, scale.val()),
                    p_i@,
                    bound_nat(degree_bound),
                    polyscale.val(),
                    n as nat,
                    offset as nat,
                ) == target,
                done ==> (p@, scale.val()) == target,
            decreases len - offset + (if done { 0nat } else { 1nat }),
        {
            let last: bool = n > len - offset;
            let hi: usize = if last {
                len
            } else {
                offset + n
            };
            let piece: Vec<F> = copy_range(p_i.coeffs.as_slice(), offset, hi);
            let segment: DensePolynomial<F> = DensePolynomial::from_coefficients_vec(piece);
            assert(segment@ =~= p_i@.subrange(offset as int, hi as int));
            p.add_assign(&segment.scale(scale));
            scale = scale.mul(&polyscale);
            if last {
                match degree_bound {
                    Some(m) => {
                        let shifted: DensePolynomial<F> = segment.shiftr(n - m % n);
                        p.add_assign(&shifted.scale(scale));
                        scale = scale.mul(&polyscale);
                    },
                    None => {},
                }
                done = true;
            } else {
                offset = offset + n;
                if offset >= len {
                    done = true;
                }
            }
        }
        k = k + 1;
    }
    p
}

/// Entry `k` of the evaluation vector after the first `j` points: the sum of
/// `evalscale^i * elm[i]^k`.
pub open spec fn eval_vector_entry(p: nat, elm: Seq<nat>, evalscale: nat, k: nat, j: nat) -> nat
    decreases j,
{
    if j == 0 {
        0
    } else {
        fadd(
            p,
            eval_vector_entry(p, elm, evalscale, k, (j - 1) as nat),
            fmul(p, fpow(p, evalscale, (j - 1) as nat), fpow(p, elm[j - 1], k)),
        )
    }
}

/// The vector against which the folded polynomial is opened: entry `k` is the sum
/// over the points of their `k`-th powers, each point with its power of `evalscale`.
pub open spec fn eval_vector_spec(p: nat, elm: Seq<nat>, evalscale: nat, len: nat) -> Seq<nat> {
    Seq::new(len, |k: int| eval_vector_entry(p, elm, evalscale, k as nat, elm.len()))
}

/// The vector of the scaled sums of the powers of the evaluation points.
pub fn eval_vector<F: PrimeField>(elm: &Vec<F>, evalscale: F, len: usize) -> (r: Vec<F>)
    ensures
        r@.len() == len,
        vals(r@) == eval_vector_spec(F::modulus(), vals(elm@), evalscale.val(), len as nat),
{
    let mut scale: F = F::one();
    let mut res: Vec<F> = filled(F::zero(), len);
    proof {
        F::lemma_modulus();
        vstd::arithmetic::div_mod::lemma_small_mod(1, F::modulus());
    }
    let mut j: usize = 0;
    while j < elm.len()
        invariant
            j <= elm@.len(),
            res@.len() == len,
            scale.val() == fpow(F::modulus(), evalscale.val(), j as nat),
            forall|k: int|
                0 <= k < len ==> (#[trigger] res@[k]).val() == eval_vector_entry(
                    F::modulus(),
                    vals(elm@),
                    evalscale.val(),
                    k as nat,
                    j as nat,
                ),
        decreases elm@.len() - j,
    {
        let powers: Vec<F> = pows(len, elm[j]);
        let ghost before = res@;
        let mut i: usize = 0;
        while i < len
            invariant
                i <= len,
                j < elm@.len(),
                res@.len() == len,
                before.len() == len,
                powers@.len() == len,
                vals(powers@) == pows_spec(F::modulus(), len as nat, elm@[j as int].val()),
                forall|k: int|
                    0 <= k < len ==> (#[trigger] res@[k]).val() == if k < i {
                        fadd(
                            F::modulus(),
                            before[k].val(),
                            fmul(F::modulus(), scale.val(), powers@[k].val()),
                        )
                    } else {
                        before[k].val()
                    },
            decreases len - i,
        {
            let v: F = res[i].add(&scale.mul(&powers[i]));
            res.set(i, v);
            i = i + 1;
        }
        proof {
            assert forall|k: int| 0 <= k < len implies (#[trigger] res@[k]).val()
                == eval_vector_entry(
                F::modulus(),
                vals(elm@),
                evalscale.val(),
                k as nat,
                (j + 1) as nat,
            ) by {
                assert(vals(powers@)[k] == fpow(F::modulus(), elm@[j as int].val(), k as nat));
            }
        }
        scale = evalscale.mul(&scale);
        j = j + 1;
    }
    assert(vals(res@) =~= eval_vector_spec(
        F::modulus(),
        vals(elm@),
        evalscale.val(),
        len as nat,
    ));
    res
}

/// `x[i] * cx + y[i] * cy` for every position of the shorter sequence.
pub open spec fn fold_scalars_spec(p: nat, x: Seq<nat>, y: Seq<nat>, cx: nat, cy: nat) -> Seq<nat> {
    Seq::new(
        if x.len() <= y.len() {
            x.len()
        } else {
            y.len()
        },
        |i: int| fadd(p, fmul(p, x[i], cx), fmul(p, y[i], cy)),
    )
}

/// Folds two halves of a vector of scalars with a challenge and its inverse.
pub fn fold_scalars<F: PrimeField>(x: &[F], y: &[F], cx: F, cy: F) -> (r: Vec<F>)
    ensures
        r@.len() == crate::commitment::min_len(x@.len(), y@.len()),
        vals(r@) == fold_scalars_spec(F::modulus(), vals(x@), vals(y@), cx.val(), cy.val()),
{
    let n: usize = if x.len() <= y.len() {
        x.len()
    } else {
        y.len()
    };
    let mut out: Vec<F> = Vec::new();
    let mut i: usize = 0;
    while i < n
        invariant
            i <= n,
            n <= x@.len(),
            n <= y@.len(),
            out@.len() == i,
            forall|k: int|
                0 <= k < i ==> (#[trigger] out@[k]).val() == fadd(
                    F::modulus(),
                    fmul(F::modulus(), x@[k].val(), cx.val()),
                    fmul(F::modulus(), y@[k].val(), cy.val()),
                ),
        decreases n - i,
    {
        out.push(x[i].mul(&cx).add(&y[i].mul(&cy)));
        i = i + 1;
    }
    assert(vals(out@) =~= fold_scalars_spec(
        F::modulus(),
        vals(x@),
        vals(y@),
        cx.val(),
        cy.val(),
    ));
    out
}

/// `cx * x[i] + cy * y[i]` on the curve, for every position of the shorter sequence.
pub open spec fn fold_points_spec<G: CommitmentCurve>(
    x: Seq<(nat, nat, bool)>,
    y: Seq<(nat, nat, bool)>,
    cx: nat,
    cy: nat,
) -> Seq<(nat, nat, bool)> {
    Seq::new(
        if x.len() <= y.len() {
            x.len()
        } else {
            y.len()
        },
        |i: int| window_shamir_spec::<G>(cx, x[i], cy, y[i]),
    )
}

/// Folds two halves of a vector of points with a challenge and its inverse.
pub fn fold_points<G: CommitmentCurve>(x: &[G], y: &[G], cx: G::ScalarField, cy: G::ScalarField) -> (r:
    Vec<G>)
    ensures
        r@.len() == crate::commitment::min_len(x@.len(), y@.len()),
        models(r@) == fold_points_spec::<G>(models(x@), models(y@), cx.val(), cy.val()),
{
    let n: usize = if x.len() <= y.len() {
        x.len()
    } else {
        y.len()
    };
    let mut out: Vec<G> = Vec::new();
    let mut i: usize = 0;
    while i < n
        invariant
            i <= n,
            n <= x@.len(),
            n <= y@.len(),
            out@.len() == i,
            forall|k: int|
                0 <= k < i ==> (#[trigger] out@[k]).model() == window_shamir_spec::<G>(
                    cx.val(),
                    x@[k].model(),
                    cy.val(),
                    y@[k].model(),
                ),
        decreases n - i,
    {
        out.push(window_shamir(cx, x[i], cy, y[i]));
        i = i + 1;
    }
    assert(models(out@) =~= fold_points_spec::<G>(models(x@), models(y@), cx.val(), cy.val()));
    out
}

/// The vectors and the transcript that a round of the argument works on.
pub ghost struct RoundModel {
    pub a: Seq<nat>,
    pub b: Seq<nat>,
    pub g: Seq<(nat, nat, bool)>,
    pub sponge: LimbSpongeModel,
}

/// What a round of the argument gives: its two cross terms, its challenge with the
/// inverse, and the halved vectors with the transcript.
pub ghost struct RoundOutcome {
    pub l: (nat, nat, bool),
    pub r: (nat, nat, bool),
    pub chal: nat,
    pub chal_inv: nat,
    pub next: RoundModel,
}

/// The cross terms of a round. `L` commits to the low half of `a` against the high
/// half of `g`, blinded with `rand_l` on `h` and with the inner product of the low
/// half of `a` and the high half of `b` on `u`; `R` does the same with the halves
/// exchanged.
pub open spec fn round_lr<G: CommitmentCurve>(
    h: (nat, nat, bool),
    u: (nat, nat, bool),
    st: RoundModel,
    rand_l: nat,
    rand_r: nat,
) -> ((nat, nat, bool), (nat, nat, bool)) {
    let p = G::ScalarField::modulus();
    let len = st.g.len() as int;
    let n = len / 2;
    let a_lo = st.a.subrange(0, n);
    let a_hi = st.a.subrange(n, len);
    let b_lo = st.b.subrange(0, n);
    let b_hi = st.b.subrange(n, len);
    let g_lo = st.g.subrange(0, n);
    let g_hi = st.g.subrange(n, len);
    (
        G::msm_spec(
            g_hi + seq![h, u],
            a_lo + seq![
                rand_l,
                inner_prod_spec(p, a_lo, b_hi, crate::commitment::min_len(a_lo.len(), b_hi.len())),
            ],
        ),
        G::msm_spec(
            g_lo + seq![h, u],
            a_hi + seq![
                rand_r,
                inner_prod_spec(p, a_hi, b_lo, crate::commitment::min_len(a_hi.len(), b_lo.len())),
            ],
        ),
    )
}

/// One round of the argument. The cross terms go into the transcript, which refuses
/// the point at infinity; the challenge is the root of what comes out, and the round
/// fails where there is no root or the root is zero. The vectors are folded with the
/// challenge and its inverse.
#[verifier::opaque]
pub open spec fn round_spec<G: CommitmentCurve>(
    rcs: Seq<Seq<nat>>,
    mds: Seq<Seq<nat>>,
    endo: nat,
    h: (nat, nat, bool),
    u: (nat, nat, bool),
    st: RoundModel,
    rand_l: nat,
    rand_r: nat,
) -> Result<RoundOutcome, ProofError> {
    let p = G::ScalarField::modulus();
    let len = st.g.len() as int;
    let n = len / 2;
    let lr = round_lr::<G>(h, u, st, rand_l, rand_r);
    if lr.0.2 || lr.1.2 {
        Err(ProofError::OracleCommit)
    } else {
        let s1 = absorb_point_spec::<G>(rcs, mds, st.sponge, lr.0);
        let s2 = absorb_point_spec::<G>(rcs, mds, s1, lr.1);
        let sq = square_challenge_spec::<G>(rcs, mds, s2, endo);
        if !has_root(p, sq.0) || G::ScalarField::sqrt_of(sq.0) == 0 {
            Err(ProofError::ProofCreation)
        } else {
            let c = G::ScalarField::sqrt_of(sq.0);
            let ci = finv(p, c);
            Ok(
                RoundOutcome {
                    l: lr.0,
                    r: lr.1,
                    chal: c,
                    chal_inv: ci,
                    next: RoundModel {
                        a: fold_scalars_spec(
                            p,
                            st.a.subrange(n, len),
                            st.a.subrange(0, n),
                            ci,
                            c,
                        ),
                        b: fold_scalars_spec(
                            p,
                            st.b.subrange(0, n),
                            st.b.subrange(n, len),
                            ci,
                            c,
                        ),
                        g: fold_points_spec::<G>(
                            st.g.subrange(0, n),
                            st.g.subrange(n, len),
                            ci,
                            c,
                        ),
                        sponge: sq.1,
                    },
                },
            )
        }
    }
}

/// What a round hands on: the cross terms, the challenge with its inverse, and the
/// halved vectors.
pub struct RoundResult<G: CommitmentCurve> {
    pub l: G,
    pub r: G,
    pub chal: G::ScalarField,
    pub chal_inv: G::ScalarField,
    pub a: Vec<G::ScalarField>,
    pub b: Vec<G::ScalarField>,
    pub g: Vec<G>,
}

/// A vector with two more entries behind it.
pub fn with_two<T: Copy>(v: Vec<T>, x: T, y: T) -> (r: Vec<T>)
    ensures
        r@ == v@ + seq![x, y],
{
    let mut out = v;
    out.push(x);
    out.push(y);
    assert(out@ =~= v@ + seq![x, y]);
    out
}

/// One round of the argument on the vectors `a`, `b` and `g`, with the blinders
/// `rand_l` and `rand_r`.
#[verifier::rlimit(30)]
pub fn fold_round<G: CommitmentCurve>(
    h: G,
    endo_r: &G::ScalarField,
    u: G,
    a: &Vec<G::ScalarField>,
    b: &Vec<G::ScalarField>,
    g: &Vec<G>,
    sponge: &mut DefaultFqSponge<G>,
    rand_l: G::ScalarField,
    rand_r: G::ScalarField,
) -> (r: Result<RoundResult<G>, ProofError>)
    requires
        old(sponge).wf(),
        a@.len() == g@.len(),
        b@.len() == g@.len(),
    ensures
        final(sponge).wf(),
        final(sponge).params == old(sponge).params,
        r matches Err(e) ==> e == ProofError::OracleCommit || e == ProofError::ProofCreation,
        r matches Ok(o) ==> o.a@.len() == g@.len() / 2 && o.b@.len() == g@.len() / 2 && o.g@.len()
            == g@.len() / 2,
        match r {
            Ok(o) => round_spec::<G>(
                old(sponge).params.rcs(),
                old(sponge).params.matrix(),
                endo_r.val(),
                h.model(),
                u.model(),
                RoundModel { a: vals(a@), b: vals(b@), g: models(g@), sponge: old(sponge)@ },
                rand_l.val(),
                rand_r.val(),
            ) == Ok::<RoundOutcome, ProofError>(
                RoundOutcome {
                    l: o.l.model(),
                    r: o.r.model(),
                    chal: o.chal.val(),
                    chal_inv: o.chal_inv.val(),
                    next: RoundModel {
                        a: vals(o.a@),
                        b: vals(o.b@),
                        g: models(o.g@),
                        sponge: final(sponge)@,
                    },
                },
            ),
            Err(e) => round_spec::<G>(
                old(sponge).params.rcs(),
                old(sponge).params.matrix(),
                endo_r.val(),
                h.model(),
                u.model(),
                RoundModel { a: vals(a@), b: vals(b@), g: models(g@), sponge: old(sponge)@ },
                rand_l.val(),
                rand_r.val(),
            ) == Err::<RoundOutcome, ProofError>(e),
        },
{
    reveal(round_spec);
    let len: usize = g.len();
    let n: usize = len / 2;
    let ghost st = RoundModel { a: vals(a@), b: vals(b@), g: models(g@), sponge: sponge@ };
    let g_lo: Vec<G> = copy_range(g.as_slice(), 0, n);
    let g_hi: Vec<G> = copy_range(g.as_slice(), n, len);
    let a_lo: Vec<G::ScalarField> = copy_range(a.as_slice(), 0, n);
    let a_hi: Vec<G::ScalarField> = copy_range(a.as_slice(), n, len);
    let b_lo: Vec<G::ScalarField> = copy_range(b.as_slice(), 0, n);
    let b_hi: Vec<G::ScalarField> = copy_range(b.as_slice(), n, len);
    proof {
        assert(models(g_lo@) =~= st.g.subrange(0, n as int));
        assert(models(g_hi@) =~= st.g.subrange(n as int, len as int));
        assert(vals(a_lo@) =~= st.a.subrange(0, n as int));
        assert(vals(a_hi@) =~= st.a.subrange(n as int, len as int));
        assert(vals(b_lo@) =~= st.b.subrange(0, n as int));
        assert(vals(b_hi@) =~= st.b.subrange(n as int, len as int));
    }
    let l_points: Vec<G> = with_two(copy_range(g.as_slice(), n, len), h, u);
    let l_scalars: Vec<G::ScalarField> = with_two(
        copy_range(a.as_slice(), 0, n),
        rand_l,
        inner_prod(a_lo.as_slice(), b_hi.as_slice()),
    );
    let r_points: Vec<G> = with_two(copy_range(g.as_slice(), 0, n), h, u);
    let r_scalars: Vec<G::ScalarField> = with_two(
        copy_range(a.as_slice(), n, len),
        rand_r,
        inner_prod(a_hi.as_slice(), b_lo.as_slice()),
    );
    proof {
        assert(models(l_points@) =~= st.g.subrange(n as int, len as int) + seq![
            h.model(),
            u.model(),
        ]);
        assert(models(r_points@) =~= st.g.subrange(0, n as int) + seq![h.model(), u.model()]);
        let p = G::ScalarField::modulus();
        let alo = st.a.subrange(0, n as int);
        let ahi = st.a.subrange(n as int, len as int);
        let blo = st.b.subrange(0, n as int);
        let bhi = st.b.subrange(n as int, len as int);
        assert(vals(l_scalars@) =~= alo + seq![
            rand_l.val(),
            inner_prod_spec(p, alo, bhi, crate::commitment::min_len(alo.len(), bhi.len())),
        ]);
        assert(vals(r_scalars@) =~= ahi + seq![
            rand_r.val(),
            inner_prod_spec(p, ahi, blo, crate::commitment::min_len(ahi.len(), blo.len())),
        ]);
    }
    let l: G = msm(l_points.as_slice(), l_scalars.as_slice());
    let r: G = msm(r_points.as_slice(), r_scalars.as_slice());
    assert((l.model(), r.model()) == round_lr::<G>(
        h.model(),
        u.model(),
        st,
        rand_l.val(),
        rand_r.val(),
    ));
    if l.is_zero() || r.is_zero() {
        return Err(ProofError::OracleCommit);
    }
    match absorb_point(sponge, l) {
        Ok(()) => {},
        Err(e) => {
            return Err(e);
        },
    }
    match absorb_point(sponge, r) {
        Ok(()) => {},
        Err(e) => {
            return Err(e);
        },
    }
    let chal: G::ScalarField = match squeeze_sqrt_challenge(sponge, endo_r) {
        Some(c) => c,
        None => {
            return Err(ProofError::ProofCreation);
        },
    };
    let chal_inv: G::ScalarField = match chal.inverse() {
        Some(c) => c,
        None => {
            return Err(ProofError::ProofCreation);
        },
    };
    let a_new: Vec<G::ScalarField> = fold_scalars(
        a_hi.as_slice(),
        a_lo.as_slice(),
        chal_inv,
        chal,
    );
    let b_new: Vec<G::ScalarField> = fold_scalars(
        b_lo.as_slice(),
        b_hi.as_slice(),
        chal_inv,
        chal,
    );
    let g_new: Vec<G> = fold_points(g_lo.as_slice(), g_hi.as_slice(), chal_inv, chal);
    Ok(RoundResult { l, r, chal, chal_inv, a: a_new, b: b_new, g: g_new })
}

/// What the rounds of the argument give together.
pub ghost struct RoundsOutcome {
    pub lr: Seq<((nat, nat, bool), (nat, nat, bool))>,
    pub chals: Seq<nat>,
    pub chal_invs: Seq<nat>,
    pub last: RoundModel,
}

/// The first `k` rounds of the argument, round `i` with the pair `blinders[i]`. The
/// first round that fails ends the argument with its error.
pub open spec fn rounds_spec<G: CommitmentCurve>(
    rcs: Seq<Seq<nat>>,
    mds: Seq<Seq<nat>>,
    endo: nat,
    h: (nat, nat, bool),
    u: (nat, nat, bool),
    st: RoundModel,
    blinders: Seq<(nat, nat)>,
    k: nat,
) -> Result<RoundsOutcome, ProofError>
    decreases k,
{
    if k == 0 {
        Ok(RoundsOutcome { lr: Seq::empty(), chals: Seq::empty(), chal_invs: Seq::empty(), last: st })
    } else {
        match rounds_spec::<G>(rcs, mds, endo, h, u, st, blinders, (k - 1) as nat) {
            Err(e) => Err(e),
            Ok(prev) => match round_spec::<G>(
                rcs,
                mds,
                endo,
                h,
                u,
                prev.last,
                blinders[k - 1].0,
                blinders[k - 1].1,
            ) {
                Err(e) => Err(e),
                Ok(o) => Ok(
                    RoundsOutcome {
                        lr: prev.lr.push((o.l, o.r)),
                        chals: prev.chals.push(o.chal),
                        chal_invs: prev.chal_invs.push(o.chal_inv),
                        last: o.next,
                    },
                ),
            },
        }
    }
}

/// A failure of the first `k` rounds is the failure of any longer run.
pub proof fn lemma_rounds_fail<G: CommitmentCurve>(
    rcs: Seq<Seq<nat>>,
    mds: Seq<Seq<nat>>,
    endo: nat,
    h: (nat, nat, bool),
    u: (nat, nat, bool),
    st: RoundModel,
    blinders: Seq<(nat, nat)>,
    k: nat,
    n: nat,
)
    requires
        k <= n,
        rounds_spec::<G>(rcs, mds, endo, h, u, st, blinders, k) is Err,
    ensures
        rounds_spec::<G>(rcs, mds, endo, h, u, st, blinders, n) == rounds_spec::<G>(
            rcs,
            mds,
            endo,
            h,
            u,
            st,
            blinders,
            k,
        ),
    decreases n,
{
    if k < n {
        lemma_rounds_fail::<G>(rcs, mds, endo, h, u, st, blinders, k, (n - 1) as nat);
    }
}

/// The sum over the first `k` rounds of `l * u^2 + r * u^-2`, for the blinders `l`
/// and `r` and the challenge `u` of each round.
pub open spec fn blinding_sum(
    p: nat,
    blinders: Seq<(nat, nat)>,
    chals: Seq<nat>,
    chal_invs: Seq<nat>,
    k: nat,
) -> nat
    decreases k,
{
    if k == 0 {
        0
    } else {
        fadd(
            p,
            blinding_sum(p, blinders, chals, chal_invs, (k - 1) as nat),
            fadd(
                p,
                fmul(p, blinders[k - 1].0, fmul(p, chals[k - 1], chals[k - 1])),
                fmul(p, blinders[k - 1].1, fmul(p, chal_invs[k - 1], chal_invs[k - 1])),
            ),
        )
    }
}

/// The random scalars of an opening, as the contracts see them.
pub ghost struct RandomnessModel {
    pub blinders: Seq<(nat, nat)>,
    pub d: nat,
    pub r_delta: nat,
}

/// The random scalars of an opening: a pair of blinders for every round, and the two
/// scalars of the last step.
pub struct OpeningRandomness<F: PrimeField> {
    pub blinders: Vec<(F, F)>,
    pub d: F,
    pub r_delta: F,
}

/// The values of a sequence of pairs of scalars.
pub open spec fn pair_vals<F: PrimeField>(s: Seq<(F, F)>) -> Seq<(nat, nat)> {
    Seq::new(s.len(), |i: int| (s[i].0.val(), s[i].1.val()))
}

impl<F: PrimeField> OpeningRandomness<F> {
    /// The values of the scalars.
    pub open spec fn view(&self) -> RandomnessModel {
        RandomnessModel {
            blinders: pair_vals(self.blinders@),
            d: self.d.val(),
            r_delta: self.r_delta.val(),
        }
    }

    /// Draws the scalars for an opening of `rounds` rounds.
    pub fn sample(rounds: usize) -> (r: Self)
        ensures
            r.blinders@.len() == rounds,
    {
        let mut blinders: Vec<(F, F)> = Vec::new();
        let mut i: usize = 0;
        while i < rounds
            invariant
                i <= rounds,
                blinders@.len() == i,
            decreases rounds - i,
        {
            let l: F = F::rand();
            let r: F = F::rand();
            blinders.push((l, r));
            i = i + 1;
        }
        OpeningRandomness { blinders, d: F::rand(), r_delta: F::rand() }
    }
}

/// A reference string as the contracts see it.
pub ghost struct SrsModel {
    pub g: Seq<(nat, nat, bool)>,
    pub h: (nat, nat, bool),
    pub endo_r: nat,
}

/// `n` points at infinity.
pub open spec fn infinities(n: nat) -> Seq<(nat, nat, bool)> {
    Seq::new(n, |i: int| (0nat, 0nat, true))
}

/// `n` zeros.
pub open spec fn zeros(n: nat) -> Seq<nat> {
    Seq::new(n, |i: int| 0nat)
}

/// The length that the argument folds over: the least power of two that is not below
/// `n`. It is `n` itself where `n` is a power of two.
pub open spec fn padded_length(n: nat) -> nat {
    pow2(ceil_log2_spec(n))
}

/// The last step of an opening, after the rounds: the commitment `delta` to the
/// scalars `d` and `r_delta`, the challenge `c` that follows it in the transcript, and
/// the two responses.
pub open spec fn finish_spec<G: CommitmentCurve>(
    rcs: Seq<Seq<nat>>,
    mds: Seq<Seq<nat>>,
    srs: SrsModel,
    u: (nat, nat, bool),
    ro: RoundsOutcome,
    rnd: RandomnessModel,
) -> Result<ProofModel, ProofError> {
    let p = G::ScalarField::modulus();
    let a0 = ro.last.a[0];
    let b0 = ro.last.b[0];
    let g0 = ro.last.g[0];
    let r_prime = blinding_sum(p, rnd.blinders, ro.chals, ro.chal_invs, ro.chals.len());
    let delta = G::add_spec(
        G::mul_spec(G::add_spec(g0, G::mul_spec(u, b0)), rnd.d),
        G::mul_spec(srs.h, rnd.r_delta),
    );
    if delta.2 {
        Err(ProofError::OracleCommit)
    } else {
        let s = absorb_point_spec::<G>(rcs, mds, ro.last.sponge, delta);
        let c = to_field_spec(p, challenge_spec::<G>(rcs, mds, s).0, srs.endo_r);
        Ok(
            ProofModel {
                lr: ro.lr,
                delta,
                z1: fadd(p, fmul(p, a0, c), rnd.d),
                z2: fadd(p, fmul(p, c, r_prime), rnd.r_delta),
                sg: g0,
            },
        )
    }
}

/// The opening proof for the polynomials `plnms` at the points `elm`, from the
/// transcript `sponge` and with the random scalars `rnd`.
///
/// The first challenge of the transcript is mapped to the point `u`. The polynomials
/// are folded into one with the powers of `polyscale`, which must fit the padded
/// length; the evaluation vector is built with the powers of `evalscale`. Then come
/// the rounds and the last step.
#[verifier::opaque]
pub open spec fn open_spec<G: CommitmentCurve>(
    srs: SrsModel,
    group_map: BWModel,
    b: nat,
    plnms: Seq<(Seq<nat>, Option<nat>)>,
    elm: Seq<nat>,
    polyscale: nat,
    evalscale: nat,
    rcs: Seq<Seq<nat>>,
    mds: Seq<Seq<nat>>,
    sponge: LimbSpongeModel,
    rnd: RandomnessModel,
) -> Result<ProofModel, ProofError> {
    let p = G::ScalarField::modulus();
    let t = challenge_fq_spec::<G>(rcs, mds, sponge);
    match to_group_spec::<G::BaseField>(group_map, b, t.0) {
        None => Err(ProofError::ProofCreation),
        Some(c) => {
            let u = (c.0, c.1, false);
            let rounds = ceil_log2_spec(srs.g.len());
            let padded = padded_length(srs.g.len());
            let folded = mix_polys(p, plnms, polyscale, srs.g.len(), plnms.len()).0;
            if folded.len() > padded {
                Err(ProofError::ProofCreation)
            } else {
                let st = RoundModel {
                    a: folded + zeros((padded - folded.len()) as nat),
                    b: eval_vector_spec(p, elm, evalscale, padded),
                    g: srs.g + infinities((padded - srs.g.len()) as nat),
                    sponge: t.1,
                };
                match rounds_spec::<G>(rcs, mds, srs.endo_r, srs.h, u, st, rnd.blinders, rounds) {
                    Err(e) => Err(e),
                    Ok(ro) => finish_spec::<G>(rcs, mds, srs, u, ro, rnd),
                }
            }
        },
    }
}

/// A vector with `n` copies of `x` behind it.
pub fn extended<T: Copy>(v: Vec<T>, x: T, n: usize) -> (r: Vec<T>)
    requires
        v@.len() + n <= usize::MAX,
    ensures
        r@ == v@ + Seq::new(n as nat, |i: int| x),
{
    let mut out = v;
    let mut i: usize = 0;
    while i < n
        invariant
            i <= n,
            out@ == v@ + Seq::new(i as nat, |j: int| x),
        decreases n - i,
    {
        out.push(x);
        i = i + 1;
        assert(out@ =~= v@ + Seq::new(i as nat, |j: int| x));
    }
    out
}

impl<G: CommitmentCurve> SRS<G> {
    /// What the contracts see of the reference string.
    pub open spec fn view(&self) -> SrsModel {
        SrsModel { g: models(self.g@), h: self.h.model(), endo_r: self.endo_r.val() }
    }

    /// Opens the commitments to the polynomials `plnms` at the points `elm` with the
    /// random scalars `rnd`: the proof is a function of the arguments.
    pub fn open_with(
        &self,
        group_map: &BWParameters<G::BaseField>,
        plnms: &Vec<(&DensePolynomial<G::ScalarField>, Option<usize>)>,
        elm: &Vec<G::ScalarField>,
        polyscale: G::ScalarField,
        evalscale: G::ScalarField,
        sponge: DefaultFqSponge<G>,
        rnd: &OpeningRandomness<G::ScalarField>,
    ) -> (r: Result<OpeningProof<G>, ProofError>)
        requires
            sponge.wf(),
            0 < self.g@.len() <= usize::MAX / 2,
            rnd.blinders@.len() >= ceil_log2_spec(self.g@.len()),
        ensures
            match r {
                Ok(proof) => open_spec::<G>(
                    self@,
                    group_map@,
                    group_map.b.val(),
                    batch_models(plnms@),
                    vals(elm@),
                    polyscale.val(),
                    evalscale.val(),
                    sponge.params.rcs(),
                    sponge.params.matrix(),
                    sponge@,
                    rnd@,
                ) == Ok::<ProofModel, ProofError>(proof@),
                Err(e) => open_spec::<G>(
                    self@,
                    group_map@,
                    group_map.b.val(),
                    batch_models(plnms@),
                    vals(elm@),
                    polyscale.val(),
                    evalscale.val(),
                    sponge.params.rcs(),
                    sponge.params.matrix(),
                    sponge@,
                    rnd@,
                ) == Err::<ProofModel, ProofError>(e),
            },
            r matches Ok(proof) ==> proof.lr@.len() == ceil_log2_spec(self.g@.len()),
            r matches Err(e) ==> e == ProofError::OracleCommit || e == ProofError::ProofCreation,
    {
        reveal(open_spec);
        let mut tr = sponge;
        let ghost rcs = tr.params.rcs();
        let ghost mds = tr.params.matrix();
        let ghost params = tr.params;
        let ghost s0 = tr@;
        let t: G::BaseField = tr.challenge_fq();
        let u: G = match group_map.to_group(t) {
            Some(c) => G::of_coordinates(c.0, c.1),
            None => {
                return Err(ProofError::ProofCreation);
            },
        };
        let n: usize = self.g.len();
        let rounds: usize = ceil_log2(n);
        proof {
            if rounds > 0 {
                lemma_pow2_unfold(rounds as nat);
            } else {
                vstd::arithmetic::power2::lemma2_to64();
            }
        }
        let padded: usize = pow2_usize(rounds);
        let g0: Vec<G> = copy_range(self.g.as_slice(), 0, n);
        assert(g0@ =~= self.g@);
        let zero_point: G = G::zero();
        let mut g: Vec<G> = extended(g0, zero_point, padded - n);
        let p: DensePolynomial<G::ScalarField> = combine_polynomials(plnms, polyscale, n);
        if p.coeffs.len() > padded {
            return Err(ProofError::ProofCreation);
        }
        let zero: G::ScalarField = G::ScalarField::zero();
        let ghost folded = p@;
        let missing: usize = padded - p.coeffs.len();
        let mut a: Vec<G::ScalarField> = extended(p.coeffs, zero, missing);
        let mut b: Vec<G::ScalarField> = eval_vector(elm, evalscale, padded);
        let ghost st0 = RoundModel { a: vals(a@), b: vals(b@), g: models(g@), sponge: tr@ };
        proof {
            assert(vals(a@) =~= folded + zeros((padded - folded.len()) as nat));
            assert(models(g@) =~= self@.g + infinities((padded - n) as nat));
        }
        let mut lr: Vec<(G, G)> = Vec::new();
        let mut chals: Vec<G::ScalarField> = Vec::new();
        let mut chal_invs: Vec<G::ScalarField> = Vec::new();
        let ghost hm = self.h.model();
        let ghost um = u.model();
        let ghost endo = self.endo_r.val();
        let ghost bl = rnd@.blinders;
        let mut i: usize = 0;
        assert(pair_models(lr@) =~= Seq::empty());
        assert(vals(chals@) =~= Seq::<nat>::empty());
        assert(vals(chal_invs@) =~= Seq::<nat>::empty());
        let ghost target = open_spec::<G>(
            self@,
            group_map@,
            group_map.b.val(),
            batch_models(plnms@),
            vals(elm@),
            polyscale.val(),
            evalscale.val(),
            rcs,
            mds,
            s0,
            rnd@,
        );
        let ghost srs_model = self@;
        let ghost rnd_model = rnd@;
        assert(target == match rounds_spec::<G>(rcs, mds, endo, hm, um, st0, bl, rounds as nat) {
            Err(e) => Err::<ProofModel, ProofError>(e),
            Ok(ro) => finish_spec::<G>(rcs, mds, srs_model, um, ro, rnd_model),
        });
        while i < rounds
            invariant
                i <= rounds,
                target == match rounds_spec::<G>(rcs, mds, endo, hm, um, st0, bl, rounds as nat) {
                    Err(e) => Err::<ProofModel, ProofError>(e),
                    Ok(ro) => finish_spec::<G>(rcs, mds, srs_model, um, ro, rnd_model),
                },
                target == open_spec::<G>(
                    self@,
                    group_map@,
                    group_map.b.val(),
                    batch_models(plnms@),
                    vals(elm@),
                    polyscale.val(),
                    evalscale.val(),
                    sponge.params.rcs(),
                    sponge.params.matrix(),
                    s0,
                    rnd@,
                ),
                rounds <= rnd.blinders@.len(),
                bl == pair_vals(rnd.blinders@),
                hm == self.h.model(),
                um == u.model(),
                endo == self.endo_r.val(),
                tr.wf(),
                tr.params == params,
                sponge.params == params,
                s0 == sponge@,
                rcs == params.rcs(),
                mds == params.matrix(),
                a@.len() == pow2((rounds - i) as nat),
                b@.len() == a@.len(),
                g@.len() == a@.len(),
                lr@.len() == i,
                chals@.len() == i,
                chal_invs@.len() == i,
                rounds_spec::<G>(rcs, mds, endo, hm, um, st0, bl, i as nat) == Ok::<
                    RoundsOutcome,
                    ProofError,
                >(
                    RoundsOutcome {
                        lr: pair_models(lr@),
                        chals: vals(chals@),
                        chal_invs: vals(chal_invs@),
                        last: RoundModel {
                            a: vals(a@),
                            b: vals(b@),
                            g: models(g@),
                            sponge: tr@,
                        },
                    },
                ),
            decreases rounds - i,
        {
            let rand_l: G::ScalarField = rnd.blinders[i].0;
            let rand_r: G::ScalarField = rnd.blinders[i].1;
            let ghost prev_lr = pair_models(lr@);
            let ghost prev_chals = vals(chals@);
            let ghost prev_invs = vals(chal_invs@);
            assert(bl[i as int] == (rand_l.val(), rand_r.val()));
            match fold_round(self.h, &self.endo_r, u, &a, &b, &g, &mut tr, rand_l, rand_r) {
                Err(e) => {
                    proof {
                        assert(rounds_spec::<G>(rcs, mds, endo, hm, um, st0, bl, (i + 1) as nat)
                            == Err::<RoundsOutcome, ProofError>(e));
                        lemma_rounds_fail::<G>(
                            rcs,
                            mds,
                            endo,
                            hm,
                            um,
                            st0,
                            bl,
                            (i + 1) as nat,
                            rounds as nat,
                        );
                    }
                    return Err(e);
                },
                Ok(o) => {
                    proof {
                        lemma_pow2_unfold((rounds - i) as nat);
                    }
                    lr.push((o.l, o.r));
                    chals.push(o.chal);
                    chal_invs.push(o.chal_inv);
                    a = o.a;
                    b = o.b;
                    g = o.g;
                    proof {
                        assert(pair_models(lr@) =~= prev_lr.push((o.l.model(), o.r.model())));
                        assert(vals(chals@) =~= prev_chals.push(o.chal.val()));
                        assert(vals(chal_invs@) =~= prev_invs.push(o.chal_inv.val()));
                    }
                },
            }
            i = i + 1;
        }
        proof {
            vstd::arithmetic::power2::lemma2_to64();
        }
        let a0: G::ScalarField = a[0];
        let b0: G::ScalarField = b[0];
        let g_last: G = g[0];
        let mut r_prime: G::ScalarField = G::ScalarField::zero();
        let mut k: usize = 0;
        while k < rounds
            invariant
                k <= rounds,
                rounds <= rnd.blinders@.len(),
                chals@.len() == rounds,
                chal_invs@.len() == rounds,
                bl == pair_vals(rnd.blinders@),
                r_prime.val() == blinding_sum(
                    G::ScalarField::modulus(),
                    bl,
                    vals(chals@),
                    vals(chal_invs@),
                    k as nat,
                ),
            decreases rounds - k,
        {
            let l: G::ScalarField = rnd.blinders[k].0;
            let r: G::ScalarField = rnd.blinders[k].1;
            assert(bl[k as int] == (l.val(), r.val()));
            let x: G::ScalarField = l.mul(&chals[k].square()).add(&r.mul(&chal_invs[k].square()));
            r_prime = r_prime.add(&x);
            k = k + 1;
        }
        let delta: G = g_last.add(&u.mul(&b0)).mul(&rnd.d).add(&self.h.mul(&rnd.r_delta));
        match absorb_point(&mut tr, delta) {
            Ok(()) => {},
            Err(e) => {
                return Err(e);
            },
        }
        let c: G::ScalarField = squeeze_prechallenge(&mut tr).to_field(&self.endo_r);
        let z1: G::ScalarField = a0.mul(&c).add(&rnd.d);
        let z2: G::ScalarField = c.mul(&r_prime).add(&rnd.r_delta);
        Ok(OpeningProof { delta, lr, z1, z2, sg: g_last })
    }

    /// Opens the commitments to the polynomials `plnms` at the points `elm`, with
    /// random scalars drawn for the occasion. The proof is the one that
    /// [`SRS::open_with`] gives for some choice of the random scalars.
    pub fn open(
        &self,
        group_map: &BWParameters<G::BaseField>,
        plnms: &Vec<(&DensePolynomial<G::ScalarField>, Option<usize>)>,
        elm: &Vec<G::ScalarField>,
        polyscale: G::ScalarField,
        evalscale: G::ScalarField,
        sponge: DefaultFqSponge<G>,
    ) -> (r: Result<OpeningProof<G>, ProofError>)
        requires
            sponge.wf(),
            0 < self.g@.len() <= usize::MAX / 2,
        ensures
            exists|rnd: RandomnessModel|
                rnd.blinders.len() == ceil_log2_spec(self.g@.len()) && match r {
                    Ok(proof) => #[trigger] open_spec::<G>(
                        self@,
                        group_map@,
                        group_map.b.val(),
                        batch_models(plnms@),
                        vals(elm@),
                        polyscale.val(),
                        evalscale.val(),
                        sponge.params.rcs(),
                        sponge.params.matrix(),
                        sponge@,
                        rnd,
                    ) == Ok::<ProofModel, ProofError>(proof@),
                    Err(e) => open_spec::<G>(
                        self@,
                        group_map@,
                        group_map.b.val(),
                        batch_models(plnms@),
                        vals(elm@),
                        polyscale.val(),
                        evalscale.val(),
                        sponge.params.rcs(),
                        sponge.params.matrix(),
                        sponge@,
                        rnd,
                    ) == Err::<ProofModel, ProofError>(e),
                },
            r matches Ok(proof) ==> proof.lr@.len() == ceil_log2_spec(self.g@.len()),
            r matches Err(e) ==> e == ProofError::OracleCommit || e == ProofError::ProofCreation,
    {
        let rounds: usize = ceil_log2(self.g.len());
        let rnd: OpeningRandomness<G::ScalarField> = OpeningRandomness::sample(rounds);
        let ghost rcs = sponge.params.rcs();
        let ghost mds = sponge.params.matrix();
        let ghost s0 = sponge@;
        let r = self.open_with(group_map, plnms, elm, polyscale, evalscale, sponge, &rnd);
        proof {
            let m = rnd@;
            assert(m.blinders.len() == ceil_log2_spec(self.g@.len()));
            assert(match r {
                Ok(proof) => open_spec::<G>(
                    self@,
                    group_map@,
                    group_map.b.val(),
                    batch_models(plnms@),
                    vals(elm@),
                    polyscale.val(),
                    evalscale.val(),
                    rcs,
                    mds,
                    s0,
                    m,
                ) == Ok::<ProofModel, ProofError>(proof@),
                Err(e) => open_spec::<G>(
                    self@,
                    group_map@,
                    group_map.b.val(),
                    batch_models(plnms@),
                    vals(elm@),
                    polyscale.val(),
                    evalscale.val(),
                    rcs,
                    mds,
                    s0,
                    m,
                ) == Err::<ProofModel, ProofError>(e),
            });
        }
        r
    }
}

/// The rounds that succeed give one pair of cross terms and one challenge each.
pub proof fn lemma_rounds_count<G: CommitmentCurve>(
    rcs: Seq<Seq<nat>>,
    mds: Seq<Seq<nat>>,
    endo: nat,
    h: (nat, nat, bool),
    u: (nat, nat, bool),
    st: RoundModel,
    blinders: Seq<(nat, nat)>,
    k: nat,
)
    ensures
        rounds_spec::<G>(rcs, mds, endo, h, u, st, blinders, k) matches Ok(ro) ==> ro.lr.len() == k
            && ro.chals.len() == k && ro.chal_invs.len() == k,
    decreases k,
{
    if k > 0 {
        lemma_rounds_count::<G>(rcs, mds, endo, h, u, st, blinders, (k - 1) as nat);
    }
}

/// Whatever the size `n` of the reference string, an opening that succeeds has
/// `ceil(log2 n)` pairs of cross terms, one for each halving of the padded length.
/// Over a string of `2^k` points it has `k`, and nothing is padded.
pub proof fn lemma_open_rounds<G: CommitmentCurve>(
    srs: SrsModel,
    group_map: BWModel,
    b: nat,
    plnms: Seq<(Seq<nat>, Option<nat>)>,
    elm: Seq<nat>,
    polyscale: nat,
    evalscale: nat,
    rcs: Seq<Seq<nat>>,
    mds: Seq<Seq<nat>>,
    sponge: LimbSpongeModel,
    rnd: RandomnessModel,
    k: nat,
)
    ensures
        open_spec::<G>(
            srs,
            group_map,
            b,
            plnms,
            elm,
            polyscale,
            evalscale,
            rcs,
            mds,
            sponge,
            rnd,
        ) matches Ok(proof) ==> proof.lr.len() == ceil_log2_spec(srs.g.len()),
        srs.g.len() == pow2(k) ==> ceil_log2_spec(srs.g.len()) == k && padded_length(srs.g.len())
            == srs.g.len(),
{
    reveal(open_spec);
    let t = challenge_fq_spec::<G>(rcs, mds, sponge);
    if let Some(c) = to_group_spec::<G::BaseField>(group_map, b, t.0) {
        let u = (c.0, c.1, false);
        let rounds = ceil_log2_spec(srs.g.len());
        let padded = padded_length(srs.g.len());
        let p = G::ScalarField::modulus();
        let folded = mix_polys(p, plnms, polyscale, srs.g.len(), plnms.len()).0;
        let st = RoundModel {
            a: folded + zeros((padded - folded.len()) as nat),
            b: eval_vector_spec(p, elm, evalscale, padded),
            g: srs.g + infinities((padded - srs.g.len()) as nat),
            sponge: t.1,
        };
        lemma_rounds_count::<G>(rcs, mds, srs.endo_r, srs.h, u, st, rnd.blinders, rounds);
    }
    if srs.g.len() == pow2(k) {
        lemma_no_padding(k);
        lemma_pow2_pos(k);
        if k > 0 {
            vstd::arithmetic::power2::lemma_pow2_strictly_increases((k - 1) as nat, k);
        }
        crate::commitment::lemma_ceil_log2_unique(pow2(k), k);
    }
}

/// A reference string whose size is a power of two is not padded: the argument folds
/// over exactly its points.
pub proof fn lemma_no_padding(k: nat)
    ensures
        padded_length(pow2(k)) == pow2(k),
{
    lemma_pow2_pos(k);
    if k > 0 {
        vstd::arithmetic::power2::lemma_pow2_strictly_increases((k - 1) as nat, k);
    }
    crate::commitment::lemma_ceil_log2_unique(pow2(k), k);
}

/// A reference string of any other size is padded to the next power of two, which is
/// below twice its size.
pub proof fn lemma_padding(n: nat)
    requires
        n > 0,
    ensures
        n <= padded_length(n) < 2 * n,
{
    let k = ceil_log2_spec(n);
    lemma_ceil_log2_exists(n);
    if k > 0 {
        lemma_pow2_unfold(k);
    } else {
        vstd::arithmetic::power2::lemma2_to64();
    }
}

/// Every number has a least power of two that is not below it.
pub proof fn lemma_ceil_log2_exists(n: nat)
    ensures
        crate::commitment::is_ceil_log2(n, ceil_log2_spec(n)),
{
    lemma_ceil_log2_search(n, 0);
}

/// The search for the least exponent from `k` on ends.
pub proof fn lemma_ceil_log2_search(n: nat, k: nat)
    requires
        k > 0 ==> pow2((k - 1) as nat) < n,
    ensures
        exists|j: nat| crate::commitment::is_ceil_log2(n, j),
        crate::commitment::is_ceil_log2(n, ceil_log2_spec(n)),
    decreases
        (if n > pow2(k) {
            n - pow2(k)
        } else {
            0
        }),
{
    lemma_pow2_pos(k);
    if pow2(k) >= n {
        assert(crate::commitment::is_ceil_log2(n, k));
    } else {
        lemma_pow2_unfold(k + 1);
        lemma_ceil_log2_search(n, k + 1);
    }
}

} // verus!
