//! Verifying a batch of opening proofs: every proof contributes its terms to one
//! multi-scalar multiplication over the reference string, which must give the point
//! at infinity.

use crate::arith::{fadd, finv, fmul, fneg, fpow, fsub, limbs_nat, seq_prod};
use crate::commitment::{
    absorb_point, absorb_point_spec, b_poly, b_poly_coefficients, b_poly_coefficients_spec,
    b_poly_spec, bound_nat, ceil_log2, ceil_log2_spec, challenge_fq_spec, challenge_spec,
    pow2_usize, product, square_challenge_spec, squeeze_prechallenge, squeeze_square_challenge,
    Challenges, OpeningProof, PolyComm, PolyCommModel, ProofModel,
};
use crate::curve::{models, msm, CommitmentCurve};
use crate::error::ProofError;
use crate::field::{vals, PrimeField};
use crate::groupmap::{has_root, to_group_spec, BWModel, BWParameters};
use crate::open::{extended, infinities, padded_length, zeros, SrsModel};
use crate::poly::{copy_range, eval_polynomial, filled, poly_eval};
use crate::sponge::{to_field_spec, DefaultFqSponge, LimbSpongeModel, ScalarChallenge};
use crate::srs::SRS;
use vstd::arithmetic::power2::pow2;
use vstd::prelude::*;

verus! {

/// The short challenges of the first `k` rounds of a proof, and the transcript after
/// them. The cross terms of a round go into the transcript before its challenge comes
/// out; a cross term at infinity is refused.
pub open spec fn prechallenges_spec<G: CommitmentCurve>(
    rcs: Seq<Seq<nat>>,
    mds: Seq<Seq<nat>>,
    m: LimbSpongeModel,
    lr: Seq<((nat, nat, bool), (nat, nat, bool))>,
    k: nat,
) -> Result<(Seq<nat>, LimbSpongeModel), ProofError>
    decreases k,
{
    if k == 0 {
        Ok((Seq::empty(), m))
    } else {
        match prechallenges_spec::<G>(rcs, mds, m, lr, (k - 1) as nat) {
            Err(e) => Err(e),
            Ok(pv) => {
                let l = lr[k - 1].0;
                let r = lr[k - 1].1;
                if l.2 || r.2 {
                    Err(ProofError::OracleCommit)
                } else {
                    let s1 = absorb_point_spec::<G>(rcs, mds, pv.1, l);
                    let s2 = absorb_point_spec::<G>(rcs, mds, s1, r);
                    let c = challenge_spec::<G>(rcs, mds, s2);
                    Ok((pv.0.push(c.0), c.1))
                }
            },
        }
    }
}

/// The squares of the challenges of the first `k` rounds of a proof, and the
/// transcript after them.
pub open spec fn square_challenges_spec<G: CommitmentCurve>(
    rcs: Seq<Seq<nat>>,
    mds: Seq<Seq<nat>>,
    endo: nat,
    m: LimbSpongeModel,
    lr: Seq<((nat, nat, bool), (nat, nat, bool))>,
    k: nat,
) -> Result<(Seq<nat>, LimbSpongeModel), ProofError>
    decreases k,
{
    if k == 0 {
        Ok((Seq::empty(), m))
    } else {
        match square_challenges_spec::<G>(rcs, mds, endo, m, lr, (k - 1) as nat) {
            Err(e) => Err(e),
            Ok(pv) => {
                let l = lr[k - 1].0;
                let r = lr[k - 1].1;
                if l.2 || r.2 {
                    Err(ProofError::OracleCommit)
                } else {
                    let s1 = absorb_point_spec::<G>(rcs, mds, pv.1, l);
                    let s2 = absorb_point_spec::<G>(rcs, mds, s1, r);
                    let c = square_challenge_spec::<G>(rcs, mds, s2, endo);
                    Ok((pv.0.push(c.0), c.1))
                }
            },
        }
    }
}

/// A failure in the first `k` rounds is the failure of any longer run.
pub proof fn lemma_square_challenges_fail<G: CommitmentCurve>(
    rcs: Seq<Seq<nat>>,
    mds: Seq<Seq<nat>>,
    endo: nat,
    m: LimbSpongeModel,
    lr: Seq<((nat, nat, bool), (nat, nat, bool))>,
    k: nat,
    n: nat,
)
    requires
        k <= n,
        square_challenges_spec::<G>(rcs, mds, endo, m, lr, k) is Err,
    ensures
        square_challenges_spec::<G>(rcs, mds, endo, m, lr, n) == square_challenges_spec::<G>(
            rcs,
            mds,
            endo,
            m,
            lr,
            k,
        ),
    decreases n,
{
    if k < n {
        lemma_square_challenges_fail::<G>(rcs, mds, endo, m, lr, k, (n - 1) as nat);
    }
}

/// A failure in the first `k` rounds is the failure of any longer run.
pub proof fn lemma_prechallenges_fail<G: CommitmentCurve>(
    rcs: Seq<Seq<nat>>,
    mds: Seq<Seq<nat>>,
    m: LimbSpongeModel,
    lr: Seq<((nat, nat, bool), (nat, nat, bool))>,
    k: nat,
    n: nat,
)
    requires
        k <= n,
        prechallenges_spec::<G>(rcs, mds, m, lr, k) is Err,
    ensures
        prechallenges_spec::<G>(rcs, mds, m, lr, n) == prechallenges_spec::<G>(rcs, mds, m, lr, k),
    decreases n,
{
    if k < n {
        lemma_prechallenges_fail::<G>(rcs, mds, m, lr, k, (n - 1) as nat);
    }
}

/// The challenges of a proof as the contracts see them.
pub ghost struct ChallengesModel {
    pub chal: Seq<nat>,
    pub chal_inv: Seq<nat>,
    pub chal_squared: Seq<nat>,
    pub chal_squared_inv: Seq<nat>,
}

/// Whether every one of the squares has a root.
pub open spec fn all_have_roots(p: nat, squares: Seq<nat>) -> bool {
    forall|i: int| 0 <= i < squares.len() ==> #[trigger] has_root(p, squares[i])
}

/// The challenges that belong to the squares `squares`: the roots that the field
/// picks, their inverses, the squares and the inverses of the squares.
pub open spec fn challenges_of<F: PrimeField>(squares: Seq<nat>) -> ChallengesModel {
    let p = F::modulus();
    ChallengesModel {
        chal: Seq::new(squares.len(), |i: int| F::sqrt_of(squares[i])),
        chal_inv: Seq::new(squares.len(), |i: int| finv(p, F::sqrt_of(squares[i]))),
        chal_squared: squares,
        chal_squared_inv: Seq::new(squares.len(), |i: int| finv(p, squares[i])),
    }
}

/// The challenges of a proof and the transcript after them. A square challenge
/// without a root makes the proof fail.
pub open spec fn challenges_spec<G: CommitmentCurve>(
    rcs: Seq<Seq<nat>>,
    mds: Seq<Seq<nat>>,
    endo: nat,
    m: LimbSpongeModel,
    lr: Seq<((nat, nat, bool), (nat, nat, bool))>,
) -> Result<(ChallengesModel, LimbSpongeModel), ProofError> {
    match square_challenges_spec::<G>(rcs, mds, endo, m, lr, lr.len()) {
        Err(e) => Err(e),
        Ok(sq) => if all_have_roots(G::ScalarField::modulus(), sq.0) {
            Ok((challenges_of::<G::ScalarField>(sq.0), sq.1))
        } else {
            Err(ProofError::OpenProof)
        },
    }
}

impl<F: PrimeField> Challenges<F> {
    /// The values of the challenges.
    pub open spec fn view(&self) -> ChallengesModel {
        ChallengesModel {
            chal: vals(self.chal@),
            chal_inv: vals(self.chal_inv@),
            chal_squared: vals(self.chal_squared@),
            chal_squared_inv: vals(self.chal_squared_inv@),
        }
    }
}

/// The values of a sequence of short challenges.
pub open spec fn challenge_vals<F: PrimeField>(s: Seq<ScalarChallenge<F>>) -> Seq<nat> {
    Seq::new(s.len(), |i: int| s[i].0.val())
}

/// How the four forms of a challenge belong together: the square is the square of
/// the challenge, and, unless the challenge is zero, the two inverses are the inverses
/// of the challenge and of its square.
pub open spec fn related(
    p: nat,
    chal: nat,
    chal_inv: nat,
    chal_squared: nat,
    chal_squared_inv: nat,
) -> bool {
    &&& fmul(p, chal, chal) == chal_squared
    &&& chal_squared != 0 ==> fmul(p, chal, chal_inv) == 1 && fmul(
        p,
        chal_squared,
        chal_squared_inv,
    ) == 1
}

impl<G: CommitmentCurve> OpeningProof<G> {
    /// The short challenges of the rounds, replayed from the transcript.
    pub fn prechallenges(&self, sponge: &mut DefaultFqSponge<G>) -> (r: Result<
        Vec<ScalarChallenge<G::ScalarField>>,
        ProofError,
    >)
        requires
            old(sponge).wf(),
        ensures
            final(sponge).wf(),
            final(sponge).params == old(sponge).params,
            match r {
                Ok(c) => prechallenges_spec::<G>(
                    old(sponge).params.rcs(),
                    old(sponge).params.matrix(),
                    old(sponge)@,
                    self@.lr,
                    self@.lr.len(),
                ) == Ok::<(Seq<nat>, LimbSpongeModel), ProofError>(
                    (challenge_vals(c@), final(sponge)@),
                ),
                Err(e) => prechallenges_spec::<G>(
                    old(sponge).params.rcs(),
                    old(sponge).params.matrix(),
                    old(sponge)@,
                    self@.lr,
                    self@.lr.len(),
                ) == Err::<(Seq<nat>, LimbSpongeModel), ProofError>(e),
            },
    {
        let ghost rcs = sponge.params.rcs();
        let ghost mds = sponge.params.matrix();
        let ghost s0 = sponge@;
        let ghost lr = self@.lr;
        let mut out: Vec<ScalarChallenge<G::ScalarField>> = Vec::new();
        let mut i: usize = 0;
        assert(challenge_vals(out@) =~= Seq::<nat>::empty());
        while i < self.lr.len()
            invariant
                i <= self.lr@.len(),
                lr == self@.lr,
                lr.len() == self.lr@.len(),
                sponge.wf(),
                sponge.params == old(sponge).params,
                rcs == old(sponge).params.rcs(),
                mds == old(sponge).params.matrix(),
                s0 == old(sponge)@,
                prechallenges_spec::<G>(rcs, mds, s0, lr, i as nat) == Ok::<
                    (Seq<nat>, LimbSpongeModel),
                    ProofError,
                >((challenge_vals(out@), sponge@)),
            decreases self.lr@.len() - i,
        {
            let l: G = self.lr[i].0;
            let r: G = self.lr[i].1;
            let ghost prev = challenge_vals(out@);
            assert(lr[i as int] == (l.model(), r.model()));
            if l.is_zero() || r.is_zero() {
                proof {
                    lemma_prechallenges_fail::<G>(rcs, mds, s0, lr, (i + 1) as nat, lr.len());
                }
                return Err(ProofError::OracleCommit);
            }
            match absorb_point(sponge, l) {
                Ok(()) => {},
                Err(e) => {
                    return Err(e);
                },
            }
            match absorb_point(sponge, r) {
                Ok(()) => {},
                Err(e) => {
                    return Err(e);
                },
            }
            let c = squeeze_prechallenge(sponge);
            out.push(c);
            assert(challenge_vals(out@) =~= prev.push(c.0.val()));
            i = i + 1;
        }
        Ok(out)
    }

    /// The challenges of the rounds, replayed from the transcript, with their
    /// inverses, their squares and the inverses of the squares.
    pub fn challenges(&self, sponge: &mut DefaultFqSponge<G>, endo_r: &G::ScalarField) -> (r: Result<
        Challenges<G::ScalarField>,
        ProofError,
    >)
        requires
            old(sponge).wf(),
        ensures
            final(sponge).wf(),
            final(sponge).params == old(sponge).params,
            r matches Ok(c) ==> c.chal@.len() == self.lr@.len() && c.chal_inv@.len()
                == self.lr@.len() && c.chal_squared@.len() == self.lr@.len()
                && c.chal_squared_inv@.len() == self.lr@.len(),
            r matches Ok(c) ==> forall|i: int|
                0 <= i < self.lr@.len() ==> #[trigger] related(
                    G::ScalarField::modulus(),
                    c.chal@[i].val(),
                    c.chal_inv@[i].val(),
                    c.chal_squared@[i].val(),
                    c.chal_squared_inv@[i].val(),
                ),
            match r {
                Ok(c) => challenges_spec::<G>(
                    old(sponge).params.rcs(),
                    old(sponge).params.matrix(),
                    endo_r.val(),
                    old(sponge)@,
                    self@.lr,
                ) == Ok::<(ChallengesModel, LimbSpongeModel), ProofError>((c@, final(sponge)@)),
                Err(e) => challenges_spec::<G>(
                    old(sponge).params.rcs(),
                    old(sponge).params.matrix(),
                    endo_r.val(),
                    old(sponge)@,
                    self@.lr,
                ) == Err::<(ChallengesModel, LimbSpongeModel), ProofError>(e),
            },
    {
        let ghost rcs = sponge.params.rcs();
        let ghost mds = sponge.params.matrix();
        let ghost s0 = sponge@;
        let ghost lr = self@.lr;
        let ghost endo = endo_r.val();
        let ghost p = G::ScalarField::modulus();
        let mut chal_squared: Vec<G::ScalarField> = Vec::new();
        let mut i: usize = 0;
        assert(vals(chal_squared@) =~= Seq::<nat>::empty());
        while i < self.lr.len()
            invariant
                i <= self.lr@.len(),
                lr == self@.lr,
                lr.len() == self.lr@.len(),
                endo == endo_r.val(),
                sponge.wf(),
                sponge.params == old(sponge).params,
                rcs == old(sponge).params.rcs(),
                mds == old(sponge).params.matrix(),
                s0 == old(sponge)@,
                chal_squared@.len() == i,
                square_challenges_spec::<G>(rcs, mds, endo, s0, lr, i as nat) == Ok::<
                    (Seq<nat>, LimbSpongeModel),
                    ProofError,
                >((vals(chal_squared@), sponge@)),
            decreases self.lr@.len() - i,
        {
            let l: G = self.lr[i].0;
            let r: G = self.lr[i].1;
            let ghost prev = vals(chal_squared@);
            assert(lr[i as int] == (l.model(), r.model()));
            if l.is_zero() || r.is_zero() {
                proof {
                    lemma_square_challenges_fail::<G>(
                        rcs,
                        mds,
                        endo,
                        s0,
                        lr,
                        (i + 1) as nat,
                        lr.len(),
                    );
                }
                return Err(ProofError::OracleCommit);
            }
            match absorb_point(sponge, l) {
                Ok(()) => {},
                Err(e) => {
                    return Err(e);
                },
            }
            match absorb_point(sponge, r) {
                Ok(()) => {},
                Err(e) => {
                    return Err(e);
                },
            }
            let c = squeeze_square_challenge(sponge, endo_r);
            chal_squared.push(c);
            assert(vals(chal_squared@) =~= prev.push(c.val()));
            i = i + 1;
        }
        let ghost squares = vals(chal_squared@);
        let n: usize = chal_squared.len();
        let mut chal_squared_inv: Vec<G::ScalarField> = copy_range(chal_squared.as_slice(), 0, n);
        assert(chal_squared_inv@ =~= chal_squared@);
        G::ScalarField::batch_inversion(&mut chal_squared_inv);
        let mut chal: Vec<G::ScalarField> = Vec::new();
        let mut k: usize = 0;
        while k < n
            invariant
                k <= n,
                n == chal_squared@.len(),
                squares == vals(chal_squared@),
                p == G::ScalarField::modulus(),
                sponge.wf(),
                sponge.params == old(sponge).params,
                challenges_spec::<G>(
                    old(sponge).params.rcs(),
                    old(sponge).params.matrix(),
                    endo_r.val(),
                    old(sponge)@,
                    self@.lr,
                ) == if all_have_roots(p, squares) {
                    Ok::<(ChallengesModel, LimbSpongeModel), ProofError>(
                        (challenges_of::<G::ScalarField>(squares), sponge@),
                    )
                } else {
                    Err::<(ChallengesModel, LimbSpongeModel), ProofError>(ProofError::OpenProof)
                },
                chal@.len() == k,
                forall|j: int| 0 <= j < k ==> #[trigger] has_root(p, squares[j]),
                forall|j: int|
                    0 <= j < k ==> (#[trigger] chal@[j]).val() == G::ScalarField::sqrt_of(
                        squares[j],
                    ),
                forall|j: int|
                    0 <= j < k ==> fmul(p, (#[trigger] chal@[j]).val(), chal@[j].val())
                        == squares[j],
                chal_squared_inv@.len() == n,
                forall|j: int|
                    0 <= j < n && squares[j] != 0 ==> fmul(
                        p,
                        squares[j],
                        (#[trigger] chal_squared_inv@[j]).val(),
                    ) == 1,
            decreases n - k,
        {
            match chal_squared[k].sqrt() {
                Some(c) => {
                    chal.push(c);
                },
                None => {
                    assert(!has_root(p, squares[k as int]));
                    return Err(ProofError::OpenProof);
                },
            }
            k = k + 1;
        }
        let mut chal_inv: Vec<G::ScalarField> = copy_range(chal.as_slice(), 0, n);
        assert(chal_inv@ =~= chal@);
        G::ScalarField::batch_inversion(&mut chal_inv);
        let c = Challenges { chal, chal_inv, chal_squared, chal_squared_inv };
        proof {
            let want = challenges_of::<G::ScalarField>(squares);
            assert(c@.chal =~= want.chal);
            assert(c@.chal_inv =~= want.chal_inv);
            assert(c@.chal_squared_inv =~= want.chal_squared_inv);
            assert forall|i: int| 0 <= i < self.lr@.len() implies #[trigger] related(
                p,
                c.chal@[i].val(),
                c.chal_inv@[i].val(),
                c.chal_squared@[i].val(),
                c.chal_squared_inv@[i].val(),
            ) by {
                let x = c.chal@[i].val();
                assert(squares[i] == c.chal_squared@[i].val());
                assert(fmul(p, x, x) == squares[i]);
                if squares[i] != 0 {
                    if x == 0 {
                        assert(0 * 0 == 0) by (nonlinear_arith);
                        G::ScalarField::lemma_modulus();
                        vstd::arithmetic::div_mod::lemma_small_mod(0, p);
                    }
                    assert(fmul(p, x, c.chal_inv@[i].val()) == 1);
                }
            }
        }
        Ok(c)
    }
}

/// A commitment with what it is claimed to evaluate to, as the contracts see it:
/// `evals[j][i]` is the value of chunk `i` at point `j`.
pub ghost struct EvaluationModel {
    pub comm: PolyCommModel,
    pub evals: Seq<Seq<nat>>,
    pub bound: Option<nat>,
}

/// One proof of a batch with what it is about, as the contracts see it.
pub ghost struct ItemModel {
    pub rcs: Seq<Seq<nat>>,
    pub mds: Seq<Seq<nat>>,
    pub sponge: LimbSpongeModel,
    pub points: Seq<nat>,
    pub xi: nat,
    pub r: nat,
    pub polys: Seq<EvaluationModel>,
    pub proof: ProofModel,
}

/// The values of a list of evaluation vectors.
pub open spec fn eval_lists<F: PrimeField>(s: Seq<&Vec<F>>) -> Seq<Seq<nat>> {
    Seq::new(s.len(), |j: int| vals(s[j]@))
}

/// The models of the commitments of a proof with their evaluations.
pub open spec fn evaluation_models<G: CommitmentCurve>(
    s: Seq<(&PolyComm<G>, Vec<&Vec<G::ScalarField>>, Option<usize>)>,
) -> Seq<EvaluationModel> {
    Seq::new(
        s.len(),
        |i: int|
            EvaluationModel { comm: s[i].0@, evals: eval_lists(s[i].1@), bound: bound_nat(s[i].2) },
    )
}

/// The model of one proof of a batch.
pub open spec fn item_model<G: CommitmentCurve>(
    item: (
        DefaultFqSponge<G>,
        Vec<G::ScalarField>,
        G::ScalarField,
        G::ScalarField,
        Vec<(&PolyComm<G>, Vec<&Vec<G::ScalarField>>, Option<usize>)>,
        &OpeningProof<G>,
    ),
) -> ItemModel {
    ItemModel {
        rcs: item.0.params.rcs(),
        mds: item.0.params.matrix(),
        sponge: item.0@,
        points: vals(item.1@),
        xi: item.2.val(),
        r: item.3.val(),
        polys: evaluation_models::<G>(item.4@),
        proof: item.5@,
    }
}

/// The models of the proofs of a batch.
pub open spec fn item_models<G: CommitmentCurve>(
    batch: Seq<
        (
            DefaultFqSponge<G>,
            Vec<G::ScalarField>,
            G::ScalarField,
            G::ScalarField,
            Vec<(&PolyComm<G>, Vec<&Vec<G::ScalarField>>, Option<usize>)>,
            &OpeningProof<G>,
        ),
    >,
) -> Seq<ItemModel> {
    Seq::new(batch.len(), |i: int| item_model::<G>(batch[i]))
}

/// Whether the evaluations fit the commitment, against a reference string of `n`
/// points: there is a vector for some point, no vector is shorter than the first, the
/// first has one value for each chunk, a bounded commitment with a shifted point has
/// a chunk, and a commitment whose bound is no multiple of `n` has its shifted point.
pub open spec fn well_formed(e: EvaluationModel, n: nat) -> bool {
    &&& e.evals.len() > 0
    &&& forall|j: int| 0 <= j < e.evals.len() ==> (#[trigger] e.evals[j]).len() >= e.evals[0].len()
    &&& e.comm.unshifted.len() == e.evals[0].len()
    &&& (e.bound is Some && e.comm.shifted is Some ==> e.evals[0].len() > 0)
    &&& (e.bound matches Some(m) ==> m % n != 0 ==> e.comm.shifted is Some)
}

/// The values of chunk `i` at the points, in the order of the points.
pub open spec fn chunk_values(e: EvaluationModel, i: int) -> Seq<nat> {
    Seq::new(e.evals.len(), |j: int| e.evals[j][i])
}

/// What the commitments of a proof have contributed so far: the combined inner
/// product, the next power of `xi`, and the points with their scalars.
pub ghost struct CombineAcc {
    pub res: nat,
    pub xi_i: nat,
    pub points: Seq<(nat, nat, bool)>,
    pub scalars: Seq<nat>,
}

/// The contribution after the first `k` chunks of one commitment. Each chunk adds its
/// point with the scalar `rbc * xi^i`, and `xi^i` times the value at `r` of the
/// polynomial whose coefficients are its evaluations.
pub open spec fn add_chunks(
    p: nat,
    acc: CombineAcc,
    e: EvaluationModel,
    r: nat,
    xi: nat,
    rbc: nat,
    k: nat,
) -> CombineAcc
    decreases k,
{
    if k == 0 {
        acc
    } else {
        let pv = add_chunks(p, acc, e, r, xi, rbc, (k - 1) as nat);
        CombineAcc {
            res: fadd(p, pv.res, fmul(p, pv.xi_i, poly_eval(p, chunk_values(e, k - 1), r))),
            xi_i: fmul(p, pv.xi_i, xi),
            points: pv.points.push(e.comm.unshifted[k - 1]),
            scalars: pv.scalars.push(fmul(p, rbc, pv.xi_i)),
        }
    }
}

/// The evaluations of the last chunk, each multiplied by the power of its point that
/// moves the chunk to where the bound `m` puts it.
pub open spec fn shifted_values(p: nat, e: EvaluationModel, points: Seq<nat>, n: nat) -> Seq<nat> {
    let last = chunk_values(e, e.evals[0].len() - 1);
    Seq::new(
        if points.len() <= last.len() {
            points.len()
        } else {
            last.len()
        },
        |j: int| fmul(p, fpow(p, points[j], (n - e.bound->0 % n) as nat), last[j]),
    )
}

/// The contribution after the shifted point of a commitment, where it has a bound
/// and a shifted point.
pub open spec fn add_shifted(
    p: nat,
    acc: CombineAcc,
    e: EvaluationModel,
    points: Seq<nat>,
    r: nat,
    xi: nat,
    rbc: nat,
    n: nat,
) -> CombineAcc {
    if e.bound is Some && e.comm.shifted is Some {
        CombineAcc {
            res: fadd(
                p,
                acc.res,
                fmul(p, acc.xi_i, poly_eval(p, shifted_values(p, e, points, n), r)),
            ),
            xi_i: fmul(p, acc.xi_i, xi),
            points: acc.points.push(e.comm.shifted->0),
            scalars: acc.scalars.push(fmul(p, rbc, acc.xi_i)),
        }
    } else {
        acc
    }
}

/// The contribution of the first `k` commitments of a proof, or nothing where the
/// evaluations of one of them do not fit it.
pub open spec fn combine_evals(
    p: nat,
    evs: Seq<EvaluationModel>,
    points: Seq<nat>,
    r: nat,
    xi: nat,
    rbc: nat,
    n: nat,
    k: nat,
) -> Option<CombineAcc>
    decreases k,
{
    if k == 0 {
        Some(CombineAcc { res: 0, xi_i: 1, points: Seq::empty(), scalars: Seq::empty() })
    } else {
        match combine_evals(p, evs, points, r, xi, rbc, n, (k - 1) as nat) {
            None => None,
            Some(pv) => if well_formed(evs[k - 1], n) {
                Some(
                    add_shifted(
                        p,
                        add_chunks(p, pv, evs[k - 1], r, xi, rbc, evs[k - 1].evals[0].len()),
                        evs[k - 1],
                        points,
                        r,
                        xi,
                        rbc,
                        n,
                    ),
                )
            } else {
                None
            },
        }
    }
}

/// Nothing comes of a longer run where nothing came of a shorter one.
pub proof fn lemma_combine_fail(
    p: nat,
    evs: Seq<EvaluationModel>,
    points: Seq<nat>,
    r: nat,
    xi: nat,
    rbc: nat,
    n: nat,
    k: nat,
    m: nat,
)
    requires
        k <= m,
        combine_evals(p, evs, points, r, xi, rbc, n, k) is None,
    ensures
        combine_evals(p, evs, points, r, xi, rbc, n, m) is None,
    decreases m,
{
    if k < m {
        lemma_combine_fail(p, evs, points, r, xi, rbc, n, k, (m - 1) as nat);
    }
}

/// What the commitments of a proof contribute to the equation of the batch.
pub struct Combined<G: CommitmentCurve> {
    pub res: G::ScalarField,
    pub xi_i: G::ScalarField,
    pub points: Vec<G>,
    pub scalars: Vec<G::ScalarField>,
}

impl<G: CommitmentCurve> Combined<G> {
    /// The values of the contribution.
    pub open spec fn view(&self) -> CombineAcc {
        CombineAcc {
            res: self.res.val(),
            xi_i: self.xi_i.val(),
            points: models(self.points@),
            scalars: vals(self.scalars@),
        }
    }
}

/// Whether the evaluations fit the commitment.
pub fn check_shape<G: CommitmentCurve>(
    comm: &PolyComm<G>,
    evals_tr: &Vec<&Vec<G::ScalarField>>,
    shifted: Option<usize>,
    n: usize,
) -> (b: bool)
    requires
        n > 0,
    ensures
        b == well_formed(
            EvaluationModel { comm: comm@, evals: eval_lists(evals_tr@), bound: bound_nat(shifted) },
            n as nat,
        ),
{
    let ghost e = EvaluationModel {
        comm: comm@,
        evals: eval_lists(evals_tr@),
        bound: bound_nat(shifted),
    };
    if evals_tr.len() == 0 {
        return false;
    }
    let chunks: usize = evals_tr[0].len();
    assert(e.evals[0].len() == chunks);
    let mut j: usize = 0;
    while j < evals_tr.len()
        invariant
            j <= evals_tr@.len(),
            evals_tr@.len() > 0,
            chunks == evals_tr@[0]@.len(),
            e.evals == eval_lists(evals_tr@),
            forall|i: int| 0 <= i < j ==> (#[trigger] e.evals[i]).len() >= chunks,
        decreases evals_tr@.len() - j,
    {
        if evals_tr[j].len() < chunks {
            assert(e.evals[j as int].len() < e.evals[0].len());
            return false;
        }
        j = j + 1;
    }
    if comm.unshifted.len() != chunks {
        return false;
    }
    match shifted {
        Some(m) => match comm.shifted {
            Some(_c) => chunks > 0,
            None => m % n == 0,
        },
        None => true,
    }
}

/// The values of chunk `i` at the points.
pub fn read_chunk<F: PrimeField>(evals_tr: &Vec<&Vec<F>>, i: usize) -> (r: Vec<F>)
    requires
        forall|j: int| 0 <= j < evals_tr@.len() ==> i < (#[trigger] evals_tr@[j])@.len(),
    ensures
        r@.len() == evals_tr@.len(),
        forall|j: int| 0 <= j < evals_tr@.len() ==> (#[trigger] r@[j]) == evals_tr@[j]@[i as int],
{
    let mut out: Vec<F> = Vec::new();
    let mut j: usize = 0;
    while j < evals_tr.len()
        invariant
            j <= evals_tr@.len(),
            forall|k: int| 0 <= k < evals_tr@.len() ==> i < (#[trigger] evals_tr@[k])@.len(),
            out@.len() == j,
            forall|k: int| 0 <= k < j ==> (#[trigger] out@[k]) == evals_tr@[k]@[i as int],
        decreases evals_tr@.len() - j,
    {
        let v: &Vec<F> = evals_tr[j];
        out.push(v[i]);
        j = j + 1;
    }
    out
}

/// Adds what one commitment contributes to the equation of the batch.
pub fn combine_one<G: CommitmentCurve>(
    acc: Combined<G>,
    comm: &PolyComm<G>,
    evals_tr: &Vec<&Vec<G::ScalarField>>,
    shifted: Option<usize>,
    evaluation_points: &Vec<G::ScalarField>,
    r: G::ScalarField,
    xi: G::ScalarField,
    rbc: G::ScalarField,
    n: usize,
) -> (out: Combined<G>)
    requires
        n > 0,
        well_formed(
            EvaluationModel { comm: comm@, evals: eval_lists(evals_tr@), bound: bound_nat(shifted) },
            n as nat,
        ),
    ensures
        out@ == add_shifted(
            G::ScalarField::modulus(),
            add_chunks(
                G::ScalarField::modulus(),
                acc@,
                EvaluationModel {
                    comm: comm@,
                    evals: eval_lists(evals_tr@),
                    bound: bound_nat(shifted),
                },
                r.val(),
                xi.val(),
                rbc.val(),
                evals_tr@[0]@.len(),
            ),
            EvaluationModel { comm: comm@, evals: eval_lists(evals_tr@), bound: bound_nat(shifted) },
            vals(evaluation_points@),
            r.val(),
            xi.val(),
            rbc.val(),
            n as nat,
        ),
{
    let ghost p = G::ScalarField::modulus();
    let ghost e = EvaluationModel {
        comm: comm@,
        evals: eval_lists(evals_tr@),
        bound: bound_nat(shifted),
    };
    let ghost acc0 = acc@;
    let chunks: usize = evals_tr[0].len();
    assert(e.evals[0].len() == chunks);
    assert forall|j: int| 0 <= j < evals_tr@.len() implies chunks <= (
    #[trigger] evals_tr@[j])@.len() by {
        assert(e.evals[j].len() >= e.evals[0].len());
    }
    let mut res: G::ScalarField = acc.res;
    let mut xi_i: G::ScalarField = acc.xi_i;
    let mut points: Vec<G> = acc.points;
    let mut scalars: Vec<G::ScalarField> = acc.scalars;
    let mut k: usize = 0;
    while k < chunks
        invariant
            k <= chunks,
            chunks == comm.unshifted@.len(),
            p == G::ScalarField::modulus(),
            e == (EvaluationModel {
                comm: comm@,
                evals: eval_lists(evals_tr@),
                bound: bound_nat(shifted),
            }),
            forall|j: int| 0 <= j < evals_tr@.len() ==> chunks <= (#[trigger] evals_tr@[j])@.len(),
            (CombineAcc {
                res: res.val(),
                xi_i: xi_i.val(),
                points: models(points@),
                scalars: vals(scalars@),
            }) == add_chunks(p, acc0, e, r.val(), xi.val(), rbc.val(), k as nat),
        decreases chunks - k,
    {
        let eval: Vec<G::ScalarField> = read_chunk(evals_tr, k);
        let ghost prev_points = models(points@);
        let ghost prev_scalars = vals(scalars@);
        proof {
            assert(vals(eval@) =~= chunk_values(e, k as int));
            assert(e.comm.unshifted[k as int] == comm.unshifted@[k as int].model());
        }
        let term: G::ScalarField = eval_polynomial(eval.as_slice(), r);
        res = res.add(&xi_i.mul(&term));
        scalars.push(rbc.mul(&xi_i));
        points.push(comm.unshifted[k]);
        xi_i = xi_i.mul(&xi);
        proof {
            assert(models(points@) =~= prev_points.push(comm.unshifted@[k as int].model()));
            assert(vals(scalars@) =~= prev_scalars.push(vals(scalars@).last()));
        }
        k = k + 1;
    }
    match (shifted, comm.shifted) {
        (Some(m), Some(comm_ch)) => {
            let last: Vec<G::ScalarField> = read_chunk(evals_tr, chunks - 1);
            let count: usize = if evaluation_points.len() <= last.len() {
                evaluation_points.len()
            } else {
                last.len()
            };
            let exponent: [u64; 1] = [(n - m % n) as u64];
            proof {
                assert(exponent@.skip(1).len() == 0);
                assert(limbs_nat(exponent@.skip(1)) == 0);
                assert(limbs_nat(exponent@) == (n - m % n) as nat);
                assert(vals(last@) =~= chunk_values(e, chunks - 1));
            }
            let mut shifted_evals: Vec<G::ScalarField> = Vec::new();
            let mut j: usize = 0;
            while j < count
                invariant
                    j <= count,
                    count <= evaluation_points@.len(),
                    count <= last@.len(),
                    p == G::ScalarField::modulus(),
                    limbs_nat(exponent@) == (n - m % n) as nat,
                    shifted_evals@.len() == j,
                    forall|i: int|
                        0 <= i < j ==> (#[trigger] shifted_evals@[i]).val() == fmul(
                            p,
                            fpow(p, evaluation_points@[i].val(), (n - m % n) as nat),
                            last@[i].val(),
                        ),
                decreases count - j,
            {
                shifted_evals.push(evaluation_points[j].pow(exponent.as_slice()).mul(&last[j]));
                j = j + 1;
            }
            let ghost prev_points = models(points@);
            let ghost prev_scalars = vals(scalars@);
            proof {
                assert(vals(shifted_evals@) =~= shifted_values(
                    p,
                    e,
                    vals(evaluation_points@),
                    n as nat,
                ));
            }
            scalars.push(rbc.mul(&xi_i));
            points.push(comm_ch);
            res = res.add(&xi_i.mul(&eval_polynomial(shifted_evals.as_slice(), r)));
            xi_i = xi_i.mul(&xi);
            proof {
                assert(models(points@) =~= prev_points.push(comm_ch.model()));
                assert(vals(scalars@) =~= prev_scalars.push(vals(scalars@).last()));
            }
        },
        _ => {},
    }
    Combined { res, xi_i, points, scalars }
}

/// What the commitments of a proof contribute to the equation of the batch: their
/// points with the powers of `xi` as scalars, and the combined inner product of their
/// evaluations. There is no contribution where the evaluations of a commitment do not
/// fit it.
pub fn combine_evaluations<G: CommitmentCurve>(
    polys: &Vec<(&PolyComm<G>, Vec<&Vec<G::ScalarField>>, Option<usize>)>,
    evaluation_points: &Vec<G::ScalarField>,
    r: G::ScalarField,
    xi: G::ScalarField,
    rbc: G::ScalarField,
    n: usize,
) -> (out: Option<Combined<G>>)
    requires
        n > 0,
    ensures
        match out {
            Some(c) => combine_evals(
                G::ScalarField::modulus(),
                evaluation_models::<G>(polys@),
                vals(evaluation_points@),
                r.val(),
                xi.val(),
                rbc.val(),
                n as nat,
                polys@.len(),
            ) == Some(c@),
            None => combine_evals(
                G::ScalarField::modulus(),
                evaluation_models::<G>(polys@),
                vals(evaluation_points@),
                r.val(),
                xi.val(),
                rbc.val(),
                n as nat,
                polys@.len(),
            ) is None,
        },
{
    let ghost p = G::ScalarField::modulus();
    let ghost evs = evaluation_models::<G>(polys@);
    let mut acc: Combined<G> = Combined {
        res: G::ScalarField::zero(),
        xi_i: G::ScalarField::one(),
        points: Vec::new(),
        scalars: Vec::new(),
    };
    proof {
        assert(acc@.points =~= Seq::empty());
        assert(acc@.scalars =~= Seq::<nat>::empty());
    }
    let mut k: usize = 0;
    while k < polys.len()
        invariant
            k <= polys@.len(),
            n > 0,
            p == G::ScalarField::modulus(),
            evs == evaluation_models::<G>(polys@),
            combine_evals(
                p,
                evs,
                vals(evaluation_points@),
                r.val(),
                xi.val(),
                rbc.val(),
                n as nat,
                k as nat,
            ) == Some(acc@),
        decreases polys@.len() - k,
    {
        let comm: &PolyComm<G> = polys[k].0;
        let evals_tr: &Vec<&Vec<G::ScalarField>> = &polys[k].1;
        let shifted: Option<usize> = polys[k].2;
        proof {
            assert(evs[k as int] == (EvaluationModel {
                comm: comm@,
                evals: eval_lists(evals_tr@),
                bound: bound_nat(shifted),
            }));
        }
        if !check_shape(comm, evals_tr, shifted, n) {
            proof {
                lemma_combine_fail(
                    p,
                    evs,
                    vals(evaluation_points@),
                    r.val(),
                    xi.val(),
                    rbc.val(),
                    n as nat,
                    (k + 1) as nat,
                    polys@.len(),
                );
            }
            return None;
        }
        assert(evs[k as int].evals[0].len() == evals_tr@[0]@.len());
        acc = combine_one(acc, comm, evals_tr, shifted, evaluation_points, r, xi, rbc, n);
        k = k + 1;
    }
    Some(acc)
}

/// `x^j`, multiplied up from the left.
pub open spec fn scale_pow(p: nat, x: nat, j: nat) -> nat
    decreases j,
{
    if j == 0 {
        1
    } else {
        fmul(p, scale_pow(p, x, (j - 1) as nat), x)
    }
}

/// The value of the challenge polynomial at the first `j` points, point `i` with the
/// scalar `r^i`.
pub open spec fn b0_spec(
    p: nat,
    chal: Seq<nat>,
    chal_inv: Seq<nat>,
    points: Seq<nat>,
    r: nat,
    j: nat,
) -> nat
    decreases j,
{
    if j == 0 {
        0
    } else {
        fadd(
            p,
            b0_spec(p, chal, chal_inv, points, r, (j - 1) as nat),
            fmul(p, scale_pow(p, r, (j - 1) as nat), b_poly_spec(p, chal, chal_inv, points[j - 1])),
        )
    }
}

/// The cross terms of the rounds, `L` before `R`, round by round.
pub open spec fn round_points(lr: Seq<((nat, nat, bool), (nat, nat, bool))>) -> Seq<
    (nat, nat, bool),
> {
    Seq::new(
        2 * lr.len(),
        |i: int|
            if i % 2 == 0 {
                lr[i / 2].0
            } else {
                lr[i / 2].1
            },
    )
}

/// The scalars of the cross terms: `rbc` times the square of the challenge of the
/// round for `L`, and times the inverse of the square for `R`.
pub open spec fn round_scalars(p: nat, rbc: nat, ch: ChallengesModel) -> Seq<nat> {
    Seq::new(
        2 * ch.chal_squared.len(),
        |i: int|
            if i % 2 == 0 {
                fmul(p, rbc, ch.chal_squared[i / 2])
            } else {
                fmul(p, rbc, ch.chal_squared_inv[i / 2])
            },
    )
}

/// What one proof contributes to the equation of the batch: the scalars that go onto
/// the points of the reference string, the scalar that is taken off the blinding
/// point, and its own points with their scalars.
pub ghost struct ProofTerms {
    pub s_scaled: Seq<nat>,
    pub h_term: nat,
    pub points: Seq<(nat, nat, bool)>,
    pub scalars: Seq<nat>,
}

/// The contribution of one proof, scaled with the powers `rand_i` and `sg_rand_i` of
/// the two random scalars of the batch. The proof contributes nothing, and the batch
/// is rejected, where it has not one round for every halving of the reference string,
/// where the transcript cannot be replayed, or where evaluations do not fit their
/// commitment.
///
/// The transcript gives the point `u`, the challenges of the rounds and the
/// challenge `c`. The terms are: `-rand_i * z1 - sg_rand_i` on `sg`;
/// `sg_rand_i * s[k]` on point `k` of the reference string, for the coefficients `s`
/// of the challenge polynomial; `-rand_i * z2` on the blinding point;
/// `-rand_i * z1 * b0` on `u`; `rand_i * c` times the square of the challenge on
/// every `L`, and times its inverse on every `R`; `rand_i * c * xi^i` on the chunks
/// of the commitments; `rand_i * c` times the combined inner product on `u`; and
/// `rand_i` on `delta`.
#[verifier::opaque]
pub open spec fn proof_terms_spec<G: CommitmentCurve>(
    srs: SrsModel,
    gm: BWModel,
    b: nat,
    item: ItemModel,
    rand_i: nat,
    sg_rand_i: nat,
) -> Option<ProofTerms> {
    let p = G::ScalarField::modulus();
    if item.proof.lr.len() != ceil_log2_spec(srs.g.len()) {
        None
    } else {
        let t = challenge_fq_spec::<G>(item.rcs, item.mds, item.sponge);
        match to_group_spec::<G::BaseField>(gm, b, t.0) {
            None => None,
            Some(cu) => {
                let u = (cu.0, cu.1, false);
                match challenges_spec::<G>(item.rcs, item.mds, srs.endo_r, t.1, item.proof.lr) {
                    Err(_e) => None,
                    Ok(cs) => {
                        let ch = cs.0;
                        if item.proof.delta.2 {
                            None
                        } else {
                            let s3 = absorb_point_spec::<G>(
                                item.rcs,
                                item.mds,
                                cs.1,
                                item.proof.delta,
                            );
                            let c = to_field_spec(
                                p,
                                challenge_spec::<G>(item.rcs, item.mds, s3).0,
                                srs.endo_r,
                            );
                            let b0 = b0_spec(
                                p,
                                ch.chal,
                                ch.chal_inv,
                                item.points,
                                item.r,
                                item.points.len(),
                            );
                            let s = b_poly_coefficients_spec(
                                p,
                                seq_prod(p, ch.chal_inv),
                                ch.chal_squared,
                            );
                            let neg = fneg(p, rand_i);
                            let rbc = fmul(p, c, rand_i);
                            match combine_evals(
                                p,
                                item.polys,
                                item.points,
                                item.r,
                                item.xi,
                                rbc,
                                srs.g.len(),
                                item.polys.len(),
                            ) {
                                None => None,
                                Some(ci) => Some(
                                    ProofTerms {
                                        s_scaled: Seq::new(
                                            s.len(),
                                            |i: int| fmul(p, sg_rand_i, s[i]),
                                        ),
                                        h_term: fmul(p, rand_i, item.proof.z2),
                                        points: seq![item.proof.sg, u] + round_points(
                                            item.proof.lr,
                                        ) + ci.points + seq![u, item.proof.delta],
                                        scalars: seq![
                                            fsub(p, fmul(p, neg, item.proof.z1), sg_rand_i),
                                            fmul(p, neg, fmul(p, item.proof.z1, b0)),
                                        ] + round_scalars(p, rbc, ch) + ci.scalars + seq![
                                            fmul(p, rbc, ci.res),
                                            rand_i,
                                        ],
                                    },
                                ),
                            }
                        }
                    },
                }
            },
        }
    }
}

/// What one proof contributes to the equation of the batch.
pub struct Terms<G: CommitmentCurve> {
    pub s_scaled: Vec<G::ScalarField>,
    pub h_term: G::ScalarField,
    pub points: Vec<G>,
    pub scalars: Vec<G::ScalarField>,
}

impl<G: CommitmentCurve> Terms<G> {
    /// The values of the contribution.
    pub open spec fn view(&self) -> ProofTerms {
        ProofTerms {
            s_scaled: vals(self.s_scaled@),
            h_term: self.h_term.val(),
            points: models(self.points@),
            scalars: vals(self.scalars@),
        }
    }
}

/// The vector `a` with the vector `b` behind it.
pub fn append<T: Copy>(a: Vec<T>, b: &Vec<T>) -> (r: Vec<T>)
    ensures
        r@ == a@ + b@,
{
    let mut out = a;
    let mut i: usize = 0;
    while i < b.len()
        invariant
            i <= b@.len(),
            out@ == a@ + b@.subrange(0, i as int),
        decreases b@.len() - i,
    {
        out.push(b[i]);
        i = i + 1;
        assert(out@ =~= a@ + b@.subrange(0, i as int));
    }
    assert(b@.subrange(0, b@.len() as int) =~= b@);
    out
}

impl<G: CommitmentCurve> SRS<G> {
    /// The contribution of one proof to the equation of its batch.
    #[verifier::rlimit(60)]
    pub fn proof_terms(
        &self,
        group_map: &BWParameters<G::BaseField>,
        sponge: &DefaultFqSponge<G>,
        evaluation_points: &Vec<G::ScalarField>,
        xi: G::ScalarField,
        r: G::ScalarField,
        polys: &Vec<(&PolyComm<G>, Vec<&Vec<G::ScalarField>>, Option<usize>)>,
        opening: &OpeningProof<G>,
        rand_i: G::ScalarField,
        sg_rand_i: G::ScalarField,
    ) -> (out: Option<Terms<G>>)
        requires
            sponge.wf(),
            0 < self.g@.len() <= usize::MAX / 2,
        ensures
            match out {
                Some(t) => proof_terms_spec::<G>(
                    self@,
                    group_map@,
                    group_map.b.val(),
                    ItemModel {
                        rcs: sponge.params.rcs(),
                        mds: sponge.params.matrix(),
                        sponge: sponge@,
                        points: vals(evaluation_points@),
                        xi: xi.val(),
                        r: r.val(),
                        polys: evaluation_models::<G>(polys@),
                        proof: opening@,
                    },
                    rand_i.val(),
                    sg_rand_i.val(),
                ) == Some(t@),
                None => proof_terms_spec::<G>(
                    self@,
                    group_map@,
                    group_map.b.val(),
                    ItemModel {
                        rcs: sponge.params.rcs(),
                        mds: sponge.params.matrix(),
                        sponge: sponge@,
                        points: vals(evaluation_points@),
                        xi: xi.val(),
                        r: r.val(),
                        polys: evaluation_models::<G>(polys@),
                        proof: opening@,
                    },
                    rand_i.val(),
                    sg_rand_i.val(),
                ) is None,
            },
            out matches Some(t) ==> t.s_scaled@.len() == padded_length(self.g@.len()),
    {
        reveal(proof_terms_spec);
        let ghost p = G::ScalarField::modulus();
        let n: usize = self.g.len();
        let rounds: usize = ceil_log2(n);
        if opening.lr.len() != rounds {
            return None;
        }
        let mut tr: DefaultFqSponge<G> = sponge.duplicate();
        let t: G::BaseField = tr.challenge_fq();
        let u: G = match group_map.to_group(t) {
            Some(c) => G::of_coordinates(c.0, c.1),
            None => {
                return None;
            },
        };
        let ch: Challenges<G::ScalarField> = match opening.challenges(&mut tr, &self.endo_r) {
            Ok(c) => c,
            Err(_e) => {
                return None;
            },
        };
        match absorb_point(&mut tr, opening.delta) {
            Ok(()) => {},
            Err(_e) => {
                return None;
            },
        }
        let c: G::ScalarField = squeeze_prechallenge(&mut tr).to_field(&self.endo_r);
        let mut scale: G::ScalarField = G::ScalarField::one();
        let mut b0: G::ScalarField = G::ScalarField::zero();
        let mut j: usize = 0;
        while j < evaluation_points.len()
            invariant
                j <= evaluation_points@.len(),
                p == G::ScalarField::modulus(),
                ch.chal@.len() == ch.chal_inv@.len(),
                scale.val() == scale_pow(p, r.val(), j as nat),
                b0.val() == b0_spec(
                    p,
                    vals(ch.chal@),
                    vals(ch.chal_inv@),
                    vals(evaluation_points@),
                    r.val(),
                    j as nat,
                ),
            decreases evaluation_points@.len() - j,
        {
            let e: G::ScalarField = evaluation_points[j];
            b0 = b0.add(&scale.mul(&b_poly(&ch.chal, &ch.chal_inv, e)));
            scale = scale.mul(&r);
            j = j + 1;
        }
        proof {
            if rounds > 0 {
                vstd::arithmetic::power2::lemma_pow2_unfold(rounds as nat);
            } else {
                vstd::arithmetic::power2::lemma2_to64();
            }
        }
        let s0: G::ScalarField = product(ch.chal_inv.as_slice());
        let s: Vec<G::ScalarField> = b_poly_coefficients(s0, &ch.chal_squared);
        let mut s_scaled: Vec<G::ScalarField> = Vec::new();
        let mut i: usize = 0;
        while i < s.len()
            invariant
                i <= s@.len(),
                p == G::ScalarField::modulus(),
                s_scaled@.len() == i,
                forall|k: int|
                    0 <= k < i ==> (#[trigger] s_scaled@[k]).val() == fmul(
                        p,
                        sg_rand_i.val(),
                        s@[k].val(),
                    ),
            decreases s@.len() - i,
        {
            s_scaled.push(sg_rand_i.mul(&s[i]));
            i = i + 1;
        }
        let neg_rand: G::ScalarField = rand_i.neg();
        let rbc: G::ScalarField = c.mul(&rand_i);
        let mut points: Vec<G> = Vec::new();
        let mut scalars: Vec<G::ScalarField> = Vec::new();
        points.push(opening.sg);
        scalars.push(neg_rand.mul(&opening.z1).sub(&sg_rand_i));
        scalars.push(neg_rand.mul(&opening.z1.mul(&b0)));
        points.push(u);
        let ghost head_points = models(points@);
        let ghost head_scalars = vals(scalars@);
        let ghost lr = opening@.lr;
        proof {
            assert(models(points@).subrange(0, 2) =~= head_points);
            assert(vals(scalars@).subrange(0, 2) =~= head_scalars);
        }
        let mut k: usize = 0;
        while k < rounds
            invariant
                k <= rounds,
                rounds == opening.lr@.len(),
                rounds == ch.chal_squared@.len(),
                rounds == ch.chal_squared_inv@.len(),
                lr == opening@.lr,
                p == G::ScalarField::modulus(),
                points@.len() == 2 + 2 * k,
                scalars@.len() == 2 + 2 * k,
                models(points@).subrange(0, 2) == head_points,
                vals(scalars@).subrange(0, 2) == head_scalars,
                forall|i: int|
                    0 <= i < 2 * k ==> (#[trigger] points@[2 + i]).model() == round_points(lr)[i],
                forall|i: int|
                    0 <= i < 2 * k ==> (#[trigger] scalars@[2 + i]).val() == round_scalars(
                        p,
                        rbc.val(),
                        ch@,
                    )[i],
            decreases rounds - k,
        {
            let ghost old_points = points@;
            let ghost old_scalars = scalars@;
            points.push(opening.lr[k].0);
            scalars.push(rbc.mul(&ch.chal_squared[k]));
            points.push(opening.lr[k].1);
            scalars.push(rbc.mul(&ch.chal_squared_inv[k]));
            proof {
                assert(lr[k as int] == (opening.lr@[k as int].0.model(), opening.lr@[k as int].1.model()));
                assert(models(points@).subrange(0, 2) =~= models(old_points).subrange(0, 2));
                assert(vals(scalars@).subrange(0, 2) =~= vals(old_scalars).subrange(0, 2));
                assert forall|i: int| 0 <= i < 2 * (k + 1) implies (#[trigger] points@[2
                    + i]).model() == round_points(lr)[i] by {
                    if i < 2 * k {
                        assert(points@[2 + i] == old_points[2 + i]);
                    }
                }
                assert forall|i: int| 0 <= i < 2 * (k + 1) implies (#[trigger] scalars@[2
                    + i]).val() == round_scalars(p, rbc.val(), ch@)[i] by {
                    if i < 2 * k {
                        assert(scalars@[2 + i] == old_scalars[2 + i]);
                    }
                }
            }
            k = k + 1;
        }
        let ci: Combined<G> = match combine_evaluations(polys, evaluation_points, r, xi, rbc, n) {
            Some(ci) => ci,
            None => {
                return None;
            },
        };
        let ghost mid_points = models(points@);
        let ghost mid_scalars = vals(scalars@);
        proof {
            assert(head_points.len() == 2);
            assert(head_scalars.len() == 2);
            assert forall|i: int| 0 <= i < mid_points.len() implies mid_points[i] == (head_points
                + round_points(lr))[i] by {
                if i < 2 {
                    assert(models(points@).subrange(0, 2)[i] == mid_points[i]);
                } else {
                    let j = i - 2;
                    assert(points@[2 + j].model() == round_points(lr)[j]);
                }
            }
            assert forall|i: int| 0 <= i < mid_scalars.len() implies mid_scalars[i] == (head_scalars
                + round_scalars(p, rbc.val(), ch@))[i] by {
                if i < 2 {
                    assert(vals(scalars@).subrange(0, 2)[i] == mid_scalars[i]);
                } else {
                    let j = i - 2;
                    assert(scalars@[2 + j].val() == round_scalars(p, rbc.val(), ch@)[j]);
                }
            }
            assert(mid_points =~= head_points + round_points(lr));
            assert(mid_scalars =~= head_scalars + round_scalars(p, rbc.val(), ch@));
            assert(head_points =~= seq![opening@.sg, u.model()]);
        }
        let mut points: Vec<G> = append(points, &ci.points);
        let mut scalars: Vec<G::ScalarField> = append(scalars, &ci.scalars);
        let ghost body_points = models(points@);
        let ghost body_scalars = vals(scalars@);
        proof {
            assert(body_points =~= mid_points + models(ci.points@));
            assert(body_scalars =~= mid_scalars + vals(ci.scalars@));
        }
        scalars.push(rbc.mul(&ci.res));
        points.push(u);
        scalars.push(rand_i);
        points.push(opening.delta);
        let h_term: G::ScalarField = rand_i.mul(&opening.z2);
        let out = Terms { s_scaled, h_term, points, scalars };
        proof {
            assert(out@.points =~= body_points + seq![u.model(), opening@.delta]);
            assert(out@.scalars =~= body_scalars + seq![
                fmul(p, rbc.val(), ci.res.val()),
                rand_i.val(),
            ]);
            let sp = b_poly_coefficients_spec(p, seq_prod(p, vals(ch.chal_inv@)), vals(ch.chal_squared@));
            assert(out@.s_scaled =~= Seq::new(
                sp.len(),
                |i: int| fmul(p, sg_rand_i.val(), sp[i]),
            ));
            let item = ItemModel {
                rcs: sponge.params.rcs(),
                mds: sponge.params.matrix(),
                sponge: sponge@,
                points: vals(evaluation_points@),
                xi: xi.val(),
                r: r.val(),
                polys: evaluation_models::<G>(polys@),
                proof: opening@,
            };
            let want = proof_terms_spec::<G>(
                self@,
                group_map@,
                group_map.b.val(),
                item,
                rand_i.val(),
                sg_rand_i.val(),
            );
            assert(want is Some);
            assert(want->0.h_term == out@.h_term);
            assert(want->0.s_scaled =~= out@.s_scaled);
            assert(want->0.points =~= out@.points);
            assert(want->0.scalars =~= out@.scalars);
            assert(sp.len() == pow2(rounds as nat));
        }
        Some(out)
    }
}

/// What the proofs of a batch have contributed so far: the scalars on the points of
/// the reference string and on the blinding point, the points of the proofs with
/// their scalars, and the next powers of the two random scalars.
pub ghost struct BatchAcc {
    pub head: Seq<nat>,
    pub points: Seq<(nat, nat, bool)>,
    pub scalars: Seq<nat>,
    pub rand_i: nat,
    pub sg_rand_i: nat,
}

/// The contributions of the first `k` proofs of a batch, proof `i` scaled with the
/// `i`-th powers of `rand_base` and `sg_rand_base`; nothing where one of them
/// contributes nothing.
pub open spec fn batch_spec<G: CommitmentCurve>(
    srs: SrsModel,
    gm: BWModel,
    b: nat,
    items: Seq<ItemModel>,
    rand_base: nat,
    sg_rand_base: nat,
    k: nat,
) -> Option<BatchAcc>
    decreases k,
{
    let p = G::ScalarField::modulus();
    let padded = padded_length(srs.g.len());
    if k == 0 {
        Some(
            BatchAcc {
                head: zeros(padded + 1),
                points: Seq::empty(),
                scalars: Seq::empty(),
                rand_i: 1,
                sg_rand_i: 1,
            },
        )
    } else {
        match batch_spec::<G>(srs, gm, b, items, rand_base, sg_rand_base, (k - 1) as nat) {
            None => None,
            Some(pv) => match proof_terms_spec::<G>(
                srs,
                gm,
                b,
                items[k - 1],
                pv.rand_i,
                pv.sg_rand_i,
            ) {
                None => None,
                Some(t) => Some(
                    BatchAcc {
                        head: Seq::new(
                            padded + 1,
                            |i: int|
                                if i < padded {
                                    fadd(p, pv.head[i], t.s_scaled[i])
                                } else {
                                    fsub(p, pv.head[i], t.h_term)
                                },
                        ),
                        points: pv.points + t.points,
                        scalars: pv.scalars + t.scalars,
                        rand_i: fmul(p, pv.rand_i, rand_base),
                        sg_rand_i: fmul(p, pv.sg_rand_i, sg_rand_base),
                    },
                ),
            },
        }
    }
}

/// Nothing comes of a longer batch where nothing came of its beginning.
pub proof fn lemma_batch_fail<G: CommitmentCurve>(
    srs: SrsModel,
    gm: BWModel,
    b: nat,
    items: Seq<ItemModel>,
    rand_base: nat,
    sg_rand_base: nat,
    k: nat,
    n: nat,
)
    requires
        k <= n,
        batch_spec::<G>(srs, gm, b, items, rand_base, sg_rand_base, k) is None,
    ensures
        batch_spec::<G>(srs, gm, b, items, rand_base, sg_rand_base, n) is None,
    decreases n,
{
    if k < n {
        lemma_batch_fail::<G>(srs, gm, b, items, rand_base, sg_rand_base, k, (n - 1) as nat);
    }
}

/// Whether the batch is accepted with the random scalars `rand_base` and
/// `sg_rand_base`: every proof contributes, and the multi-scalar multiplication of
/// the padded reference string, the blinding point and the points of the proofs with
/// the accumulated scalars is the point at infinity.
pub open spec fn verify_spec<G: CommitmentCurve>(
    srs: SrsModel,
    gm: BWModel,
    b: nat,
    items: Seq<ItemModel>,
    rand_base: nat,
    sg_rand_base: nat,
) -> bool {
    match batch_spec::<G>(srs, gm, b, items, rand_base, sg_rand_base, items.len()) {
        None => false,
        Some(acc) => G::msm_spec(
            srs.g + infinities((padded_length(srs.g.len()) - srs.g.len()) as nat) + seq![srs.h]
                + acc.points,
            acc.head + acc.scalars,
        ).2,
    }
}

impl<G: CommitmentCurve> SRS<G> {
    /// Verifies a batch of opening proofs with the two random scalars given: the
    /// verdict is a function of the arguments.
    ///
    /// Each entry of the batch holds the transcript from which the proof was made, the
    /// evaluation points, the scalars `xi` and `r` that fold polynomials and points,
    /// the commitments with their evaluations and bounds, and the proof. A commitment
    /// whose evaluations do not fit it, or whose bound is no multiple of the size of
    /// the reference string while its shifted point is missing, makes the verdict
    /// false.
    pub fn verify_with(
        &self,
        group_map: &BWParameters<G::BaseField>,
        batch: &Vec<
            (
                DefaultFqSponge<G>,
                Vec<G::ScalarField>,
                G::ScalarField,
                G::ScalarField,
                Vec<(&PolyComm<G>, Vec<&Vec<G::ScalarField>>, Option<usize>)>,
                &OpeningProof<G>,
            ),
        >,
        rand_base: G::ScalarField,
        sg_rand_base: G::ScalarField,
    ) -> (ok: bool)
        requires
            0 < self.g@.len() <= usize::MAX / 2,
            forall|i: int| 0 <= i < batch@.len() ==> (#[trigger] batch@[i]).0.wf(),
        ensures
            ok == verify_spec::<G>(
                self@,
                group_map@,
                group_map.b.val(),
                item_models::<G>(batch@),
                rand_base.val(),
                sg_rand_base.val(),
            ),
    {
        let ghost p = G::ScalarField::modulus();
        let ghost items = item_models::<G>(batch@);
        let ghost srs = self@;
        let ghost gm = group_map@;
        let ghost b = group_map.b.val();
        let n: usize = self.g.len();
        let max_rounds: usize = ceil_log2(n);
        proof {
            if max_rounds > 0 {
                vstd::arithmetic::power2::lemma_pow2_unfold(max_rounds as nat);
            } else {
                vstd::arithmetic::power2::lemma2_to64();
            }
        }
        let padded: usize = pow2_usize(max_rounds);
        let g0: Vec<G> = copy_range(self.g.as_slice(), 0, n);
        assert(g0@ =~= self.g@);
        let mut points: Vec<G> = extended(g0, G::zero(), padded - n);
        points.push(self.h);
        let ghost base_points = models(points@);
        proof {
            assert(base_points =~= srs.g + infinities((padded - n) as nat) + seq![srs.h]);
        }
        let mut head: Vec<G::ScalarField> = filled(G::ScalarField::zero(), padded + 1);
        let mut tail_points: Vec<G> = Vec::new();
        let mut tail_scalars: Vec<G::ScalarField> = Vec::new();
        let mut rand_base_i: G::ScalarField = G::ScalarField::one();
        let mut sg_rand_base_i: G::ScalarField = G::ScalarField::one();
        proof {
            assert(vals(head@) =~= zeros((padded + 1) as nat));
            assert(models(tail_points@) =~= Seq::empty());
            assert(vals(tail_scalars@) =~= Seq::<nat>::empty());
        }
        let mut k: usize = 0;
        while k < batch.len()
            invariant
                k <= batch@.len(),
                0 < self.g@.len() <= usize::MAX / 2,
                forall|i: int| 0 <= i < batch@.len() ==> (#[trigger] batch@[i]).0.wf(),
                p == G::ScalarField::modulus(),
                items == item_models::<G>(batch@),
                srs == self@,
                gm == group_map@,
                b == group_map.b.val(),
                padded == padded_length(self.g@.len()),
                padded < usize::MAX,
                head@.len() == padded + 1,
                batch_spec::<G>(srs, gm, b, items, rand_base.val(), sg_rand_base.val(), k as nat)
                    == Some(
                    BatchAcc {
                        head: vals(head@),
                        points: models(tail_points@),
                        scalars: vals(tail_scalars@),
                        rand_i: rand_base_i.val(),
                        sg_rand_i: sg_rand_base_i.val(),
                    },
                ),
            decreases batch@.len() - k,
        {
            assert(batch@[k as int].0.wf());
            let item = &batch[k];
            assert(items[k as int] == item_model::<G>(*item));
            let terms: Terms<G> = match self.proof_terms(
                group_map,
                &item.0,
                &item.1,
                item.2,
                item.3,
                &item.4,
                item.5,
                rand_base_i,
                sg_rand_base_i,
            ) {
                Some(t) => t,
                None => {
                    proof {
                        lemma_batch_fail::<G>(
                            srs,
                            gm,
                            b,
                            items,
                            rand_base.val(),
                            sg_rand_base.val(),
                            (k + 1) as nat,
                            batch@.len(),
                        );
                    }
                    return false;
                },
            };
            let ghost old_head = vals(head@);
            let ghost old_points = models(tail_points@);
            let ghost old_scalars = vals(tail_scalars@);
            let mut i: usize = 0;
            while i < padded
                invariant
                    i <= padded,
                    p == G::ScalarField::modulus(),
                    head@.len() == padded + 1,
                    old_head.len() == padded + 1,
                    terms.s_scaled@.len() == padded,
                    forall|j: int|
                        0 <= j < padded + 1 ==> (#[trigger] head@[j]).val() == if j < i {
                            fadd(p, old_head[j], terms.s_scaled@[j].val())
                        } else {
                            old_head[j]
                        },
                decreases padded - i,
            {
                let v: G::ScalarField = head[i].add(&terms.s_scaled[i]);
                head.set(i, v);
                i = i + 1;
            }
            let last: G::ScalarField = head[padded].sub(&terms.h_term);
            head.set(padded, last);
            tail_points = append(tail_points, &terms.points);
            tail_scalars = append(tail_scalars, &terms.scalars);
            rand_base_i = rand_base_i.mul(&rand_base);
            sg_rand_base_i = sg_rand_base_i.mul(&sg_rand_base);
            proof {
                let t = terms@;
                assert(vals(head@) =~= Seq::new(
                    (padded + 1) as nat,
                    |j: int|
                        if j < padded {
                            fadd(p, old_head[j], t.s_scaled[j])
                        } else {
                            fsub(p, old_head[j], t.h_term)
                        },
                ));
                assert(models(tail_points@) =~= old_points + t.points);
                assert(vals(tail_scalars@) =~= old_scalars + t.scalars);
            }
            k = k + 1;
        }
        let all_points: Vec<G> = append(points, &tail_points);
        let all_scalars: Vec<G::ScalarField> = append(head, &tail_scalars);
        proof {
            assert(models(all_points@) =~= srs.g + infinities((padded - n) as nat) + seq![srs.h]
                + models(tail_points@));
            assert(vals(all_scalars@) =~= vals(head@) + vals(tail_scalars@));
        }
        msm(all_points.as_slice(), all_scalars.as_slice()).is_zero()
    }

    /// Verifies a batch of opening proofs, with the two random scalars drawn for the
    /// occasion. The verdict is the one that [`SRS::verify_with`] gives for some
    /// choice of the two.
    pub fn verify(
        &self,
        group_map: &BWParameters<G::BaseField>,
        batch: &Vec<
            (
                DefaultFqSponge<G>,
                Vec<G::ScalarField>,
                G::ScalarField,
                G::ScalarField,
                Vec<(&PolyComm<G>, Vec<&Vec<G::ScalarField>>, Option<usize>)>,
                &OpeningProof<G>,
            ),
        >,
    ) -> (ok: bool)
        requires
            0 < self.g@.len() <= usize::MAX / 2,
            forall|i: int| 0 <= i < batch@.len() ==> (#[trigger] batch@[i]).0.wf(),
        ensures
            exists|rand_base: nat, sg_rand_base: nat|
                ok == #[trigger] verify_spec::<G>(
                    self@,
                    group_map@,
                    group_map.b.val(),
                    item_models::<G>(batch@),
                    rand_base,
                    sg_rand_base,
                ),
    {
        let rand_base: G::ScalarField = G::ScalarField::rand();
        let sg_rand_base: G::ScalarField = G::ScalarField::rand();
        let ok = self.verify_with(group_map, batch, rand_base, sg_rand_base);
        proof {
            assert(ok == verify_spec::<G>(
                self@,
                group_map@,
                group_map.b.val(),
                item_models::<G>(batch@),
                rand_base.val(),
                sg_rand_base.val(),
            ));
        }
        ok
    }
}

} // verus!
