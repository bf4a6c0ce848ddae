//! The order in which the commitments and evaluations of a proof go into the two
//! sponges and the challenges come out of them. The prover and the verifier both
//! follow it, which is why they arrive at the same challenges.

use crate::commitment::{challenge_spec, PolyComm, PolyCommModel};
use crate::curve::{models, CommitmentCurve};
use crate::field::{vals, PrimeField};
use crate::poseidon::{
    absorb_one_spec, ArithmeticSpongeParams, SpongeModel, SpongeState, SPONGE_WIDTH,
};
use crate::scalars::{lists_vals, EvalsModel, ProofEvaluations};
use crate::sponge::{
    absorb_elements_spec, coordinates, has_infinity, pack_spec, repr_value, squeeze_limbs_spec,
    to_field_spec, DefaultFqSponge, DefaultFrSponge, LimbSpongeModel, ScalarChallenge,
    CHALLENGE_LENGTH_IN_LIMBS, DIGEST_LENGTH_IN_LIMBS,
};
use vstd::prelude::*;

verus! {

/// The points of a commitment as the transcript takes them: the point `(0, 0)` stands
/// for the point at infinity.
pub open spec fn transcript_points(s: Seq<(nat, nat, bool)>) -> Seq<(nat, nat, bool)> {
    Seq::new(
        s.len(),
        |i: int|
            if s[i].2 {
                (0nat, 0nat, false)
            } else {
                s[i]
            },
    )
}

/// The points of a commitment, the unshifted ones before the shifted one.
pub open spec fn all_points(comm: PolyCommModel) -> Seq<(nat, nat, bool)> {
    match comm.shifted {
        Some(c) => comm.unshifted.push(c),
        None => comm.unshifted,
    }
}

/// The transcript after it has taken in a commitment.
pub open spec fn absorb_comm_spec<G: CommitmentCurve>(
    rcs: Seq<Seq<nat>>,
    mds: Seq<Seq<nat>>,
    m: LimbSpongeModel,
    comm: PolyCommModel,
) -> LimbSpongeModel {
    absorb_elements_spec(
        G::BaseField::modulus(),
        rcs,
        mds,
        m,
        coordinates(transcript_points(all_points(comm)), all_points(comm).len()),
    )
}

/// The transcript after it has taken in the first `k` of the commitments.
pub open spec fn absorb_comms_spec<G: CommitmentCurve>(
    rcs: Seq<Seq<nat>>,
    mds: Seq<Seq<nat>>,
    m: LimbSpongeModel,
    comms: Seq<PolyCommModel>,
    k: nat,
) -> LimbSpongeModel
    decreases k,
{
    if k == 0 {
        m
    } else {
        absorb_comm_spec::<G>(
            rcs,
            mds,
            absorb_comms_spec::<G>(rcs, mds, m, comms, (k - 1) as nat),
            comms[k - 1],
        )
    }
}

/// The transcript that has taken nothing in yet.
pub open spec fn fresh_sponge() -> LimbSpongeModel {
    LimbSpongeModel {
        sponge: SpongeModel {
            mode: SpongeState::Absorbed(0),
            state: Seq::new(SPONGE_WIDTH as nat, |i: int| 0nat),
        },
        last_squeezed: Seq::empty(),
    }
}

/// The models of a list of commitments.
pub open spec fn commitment_models<G: CommitmentCurve>(s: Seq<PolyComm<G>>) -> Seq<PolyCommModel> {
    Seq::new(s.len(), |i: int| s[i]@)
}

/// Takes the points of a commitment into the transcript, the unshifted ones before
/// the shifted one. The point `(0, 0)` goes in for a point at infinity.
pub fn absorb_commitment<G: CommitmentCurve>(sponge: &mut DefaultFqSponge<G>, comm: &PolyComm<G>)
    requires
        old(sponge).wf(),
    ensures
        final(sponge).wf(),
        final(sponge).params == old(sponge).params,
        final(sponge)@ == absorb_comm_spec::<G>(
            old(sponge).params.rcs(),
            old(sponge).params.matrix(),
            old(sponge)@,
            comm@,
        ),
{
    let dummy: G = G::of_coordinates(G::BaseField::zero(), G::BaseField::zero());
    let mut points: Vec<G> = Vec::new();
    let ghost all = all_points(comm@);
    let mut i: usize = 0;
    while i < comm.unshifted.len()
        invariant
            i <= comm.unshifted@.len(),
            dummy.model() == (0nat, 0nat, false),
            points@.len() == i,
            forall|k: int|
                0 <= k < i ==> (#[trigger] points@[k]).model() == transcript_points(
                    comm@.unshifted,
                )[k],
        decreases comm.unshifted@.len() - i,
    {
        let pt: G = comm.unshifted[i];
        assert(comm@.unshifted[i as int] == pt.model());
        if pt.is_zero() {
            points.push(dummy);
        } else {
            points.push(pt);
        }
        i = i + 1;
    }
    match comm.shifted {
        Some(pt) => {
            if pt.is_zero() {
                points.push(dummy);
            } else {
                points.push(pt);
            }
        },
        None => {},
    }
    proof {
        assert(models(points@) =~= transcript_points(all));
        assert forall|k: int| 0 <= k < points@.len() implies !(#[trigger] models(points@)[k]).2 by {}
        assert(!has_infinity(models(points@)));
    }
    let r = sponge.absorb_g(points.as_slice());
    assert(r is Ok);
}

/// Takes a list of commitments into the transcript, in order.
pub fn absorb_commitments<G: CommitmentCurve>(
    sponge: &mut DefaultFqSponge<G>,
    comms: &Vec<PolyComm<G>>,
)
    requires
        old(sponge).wf(),
    ensures
        final(sponge).wf(),
        final(sponge).params == old(sponge).params,
        final(sponge)@ == absorb_comms_spec::<G>(
            old(sponge).params.rcs(),
            old(sponge).params.matrix(),
            old(sponge)@,
            commitment_models(comms@),
            comms@.len(),
        ),
{
    let mut c: usize = 0;
    while c < comms.len()
        invariant
            c <= comms@.len(),
            sponge.wf(),
            sponge.params == old(sponge).params,
            sponge@ == absorb_comms_spec::<G>(
                old(sponge).params.rcs(),
                old(sponge).params.matrix(),
                old(sponge)@,
                commitment_models(comms@),
                c as nat,
            ),
        decreases comms@.len() - c,
    {
        assert(commitment_models(comms@)[c as int] == comms@[c as int]@);
        absorb_commitment(sponge, &comms[c]);
        c = c + 1;
    }
}

/// The scalar that a short challenge squeezed from the transcript stands for, with
/// the short challenge and the transcript afterwards.
pub open spec fn scalar_challenge_spec<G: CommitmentCurve>(
    rcs: Seq<Seq<nat>>,
    mds: Seq<Seq<nat>>,
    m: LimbSpongeModel,
    endo: nat,
) -> (nat, nat, LimbSpongeModel) {
    let c = challenge_spec::<G>(rcs, mds, m);
    (c.0, to_field_spec(G::ScalarField::modulus(), c.0, endo), c.1)
}

/// Squeezes a short challenge from the transcript and reads it as a scalar.
pub fn scalar_challenge<G: CommitmentCurve>(
    sponge: &mut DefaultFqSponge<G>,
    endo_r: &G::ScalarField,
) -> (r: (ScalarChallenge<G::ScalarField>, G::ScalarField))
    requires
        old(sponge).wf(),
    ensures
        final(sponge).wf(),
        final(sponge).params == old(sponge).params,
        (r.0.0.val(), r.1.val(), final(sponge)@) == scalar_challenge_spec::<G>(
            old(sponge).params.rcs(),
            old(sponge).params.matrix(),
            old(sponge)@,
            endo_r.val(),
        ),
{
    let c: ScalarChallenge<G::ScalarField> = ScalarChallenge(sponge.challenge());
    let v: G::ScalarField = c.to_field(endo_r);
    (c, v)
}

/// The digest of the transcript: the scalar that its next four limbs spell.
pub open spec fn digest_spec<G: CommitmentCurve>(
    rcs: Seq<Seq<nat>>,
    mds: Seq<Seq<nat>>,
    m: LimbSpongeModel,
) -> nat {
    repr_value(
        G::ScalarField::modulus(),
        pack_spec(
            squeeze_limbs_spec(G::BaseField::modulus(), rcs, mds, m, DIGEST_LENGTH_IN_LIMBS as nat).0,
        ),
    )
}

/// The sponge after it has taken in the elements of a list; an empty list leaves it
/// as it is.
pub open spec fn absorb_list_spec(
    p: nat,
    rcs: Seq<Seq<nat>>,
    mds: Seq<Seq<nat>>,
    m: LimbSpongeModel,
    xs: Seq<nat>,
) -> LimbSpongeModel {
    if xs.len() == 0 {
        m
    } else {
        absorb_elements_spec(p, rcs, mds, m, xs)
    }
}

/// The sponge after it has taken in the first `k` of the lists.
pub open spec fn absorb_lists_spec(
    p: nat,
    rcs: Seq<Seq<nat>>,
    mds: Seq<Seq<nat>>,
    m: LimbSpongeModel,
    lists: Seq<Seq<nat>>,
    k: nat,
) -> LimbSpongeModel
    decreases k,
{
    if k == 0 {
        m
    } else {
        absorb_list_spec(
            p,
            rcs,
            mds,
            absorb_lists_spec(p, rcs, mds, m, lists, (k - 1) as nat),
            lists[k - 1],
        )
    }
}

/// The evaluations at one point in the order in which the sponge takes them: those
/// of the polynomial of the public inputs, of the witness columns, of `z`, `t` and
/// `f`, and of the polynomials of the wiring.
pub open spec fn evaluation_lists(p: Seq<nat>, e: EvalsModel) -> Seq<Seq<nat>> {
    seq![p] + e.w + seq![e.z, e.t, e.f] + e.s
}

/// The values of a list of references to lists.
pub open spec fn ref_lists_vals<F: PrimeField>(s: Seq<&Vec<F>>) -> Seq<Seq<nat>> {
    Seq::new(s.len(), |i: int| vals(s[i]@))
}

impl<F: PrimeField> DefaultFrSponge<F> {
    /// Squeezes a short challenge.
    pub fn challenge(&mut self) -> (r: ScalarChallenge<F>)
        requires
            old(self).wf(),
        ensures
            final(self).wf(),
            final(self).params == old(self).params,
            final(self)@ == squeeze_limbs_spec(
                F::modulus(),
                old(self).params.rcs(),
                old(self).params.matrix(),
                old(self)@,
                CHALLENGE_LENGTH_IN_LIMBS as nat,
            ).1,
            r.0.val() == repr_value(
                F::modulus(),
                pack_spec(
                    squeeze_limbs_spec(
                        F::modulus(),
                        old(self).params.rcs(),
                        old(self).params.matrix(),
                        old(self)@,
                        CHALLENGE_LENGTH_IN_LIMBS as nat,
                    ).0,
                ),
            ),
    {
        ScalarChallenge(self.squeeze(CHALLENGE_LENGTH_IN_LIMBS))
    }

    /// Takes the elements of a list in, in order.
    pub fn absorb_list(&mut self, xs: &Vec<F>)
        requires
            old(self).wf(),
        ensures
            final(self).wf(),
            final(self).params == old(self).params,
            final(self)@ == absorb_list_spec(
                F::modulus(),
                old(self).params.rcs(),
                old(self).params.matrix(),
                old(self)@,
                vals(xs@),
            ),
    {
        if xs.len() == 0 {
            return ;
        }
        self.last_squeezed = Vec::new();
        crate::poseidon::Sponge::absorb(&mut self.sponge, &self.params, xs.as_slice());
        assert(self@.last_squeezed =~= Seq::<u64>::empty());
    }

    /// Takes in the evaluations of the polynomial of the public inputs and of the
    /// polynomials of a proof at one point: the witness columns, `z`, `t`, `f` and the
    /// polynomials of the wiring, chunk by chunk.
    pub fn absorb_evaluations(&mut self, p: &Vec<F>, e: &ProofEvaluations<Vec<F>>)
        requires
            old(self).wf(),
        ensures
            final(self).wf(),
            final(self).params == old(self).params,
            final(self)@ == absorb_lists_spec(
                F::modulus(),
                old(self).params.rcs(),
                old(self).params.matrix(),
                old(self)@,
                evaluation_lists(vals(p@), e@),
                evaluation_lists(vals(p@), e@).len(),
            ),
    {
        let mut lists: Vec<&Vec<F>> = Vec::new();
        lists.push(p);
        let mut c: usize = 0;
        while c < e.w.len()
            invariant
                c <= e.w@.len(),
                ref_lists_vals(lists@) == seq![vals(p@)] + lists_vals(e.w@).subrange(0, c as int),
            decreases e.w@.len() - c,
        {
            let ghost prev = ref_lists_vals(lists@);
            lists.push(&e.w[c]);
            assert(ref_lists_vals(lists@) =~= prev.push(vals(e.w@[c as int]@)));
            assert(lists_vals(e.w@).subrange(0, c + 1) =~= lists_vals(e.w@).subrange(
                0,
                c as int,
            ).push(vals(e.w@[c as int]@)));
            c = c + 1;
        }
        let ghost a = ref_lists_vals(lists@);
        assert(lists_vals(e.w@).subrange(0, e.w@.len() as int) =~= lists_vals(e.w@));
        lists.push(&e.z);
        lists.push(&e.t);
        lists.push(&e.f);
        let ghost b = ref_lists_vals(lists@);
        assert(b =~= a + seq![vals(e.z@), vals(e.t@), vals(e.f@)]);
        let mut c: usize = 0;
        while c < e.s.len()
            invariant
                c <= e.s@.len(),
                ref_lists_vals(lists@) == b + lists_vals(e.s@).subrange(0, c as int),
            decreases e.s@.len() - c,
        {
            let ghost prev = ref_lists_vals(lists@);
            lists.push(&e.s[c]);
            assert(ref_lists_vals(lists@) =~= prev.push(vals(e.s@[c as int]@)));
            assert(lists_vals(e.s@).subrange(0, c + 1) =~= lists_vals(e.s@).subrange(
                0,
                c as int,
            ).push(vals(e.s@[c as int]@)));
            c = c + 1;
        }
        assert(lists_vals(e.s@).subrange(0, e.s@.len() as int) =~= lists_vals(e.s@));
        let ghost all = ref_lists_vals(lists@);
        assert(all =~= evaluation_lists(vals(p@), e@));
        let mut k: usize = 0;
        while k < lists.len()
            invariant
                k <= lists@.len(),
                self.wf(),
                self.params == old(self).params,
                all == ref_lists_vals(lists@),
                self@ == absorb_lists_spec(
                    F::modulus(),
                    old(self).params.rcs(),
                    old(self).params.matrix(),
                    old(self)@,
                    all,
                    k as nat,
                ),
            decreases lists@.len() - k,
        {
            assert(all[k as int] == vals(lists@[k as int]@));
            self.absorb_list(lists[k]);
            k = k + 1;
        }
    }
}

/// The two scalars that scale the polynomials and the points of the opening, each
/// with the short challenge that it is read from: the sponge over the scalar field
/// takes in the digest of the transcript and the evaluations at the two points, and
/// two challenges come out.
#[verifier::opaque]
pub open spec fn opening_scalars_spec<F: PrimeField>(
    rcs: Seq<Seq<nat>>,
    mds: Seq<Seq<nat>>,
    digest: nat,
    lists0: Seq<Seq<nat>>,
    lists1: Seq<Seq<nat>>,
    endo: nat,
) -> (nat, nat, nat, nat) {
    let p = F::modulus();
    let m0 = fresh_sponge();
    let m1 = LimbSpongeModel {
        sponge: absorb_one_spec(p, rcs, mds, m0.sponge, digest),
        last_squeezed: Seq::empty(),
    };
    let m2 = absorb_lists_spec(p, rcs, mds, m1, lists0, lists0.len());
    let m3 = absorb_lists_spec(p, rcs, mds, m2, lists1, lists1.len());
    let s1 = squeeze_limbs_spec(p, rcs, mds, m3, CHALLENGE_LENGTH_IN_LIMBS as nat);
    let v_chal = repr_value(p, pack_spec(s1.0));
    let s2 = squeeze_limbs_spec(p, rcs, mds, s1.1, CHALLENGE_LENGTH_IN_LIMBS as nat);
    let u_chal = repr_value(p, pack_spec(s2.0));
    (v_chal, to_field_spec(p, v_chal, endo), u_chal, to_field_spec(p, u_chal, endo))
}

/// The scalars that scale the polynomials and the points of the opening.
pub fn opening_scalars<F: PrimeField>(
    params: &ArithmeticSpongeParams<F>,
    digest: F,
    p_eval0: &Vec<F>,
    e0: &ProofEvaluations<Vec<F>>,
    p_eval1: &Vec<F>,
    e1: &ProofEvaluations<Vec<F>>,
    endo_r: &F,
) -> (r: (ScalarChallenge<F>, F, ScalarChallenge<F>, F))
    requires
        params.wf(),
    ensures
        (r.0.0.val(), r.1.val(), r.2.0.val(), r.3.val()) == opening_scalars_spec::<F>(
            params.rcs(),
            params.matrix(),
            digest.val(),
            evaluation_lists(vals(p_eval0@), e0@),
            evaluation_lists(vals(p_eval1@), e1@),
            endo_r.val(),
        ),
{
    reveal(opening_scalars_spec);
    let mut fr_sponge: DefaultFrSponge<F> = DefaultFrSponge::new(params.duplicate());
    assert(fr_sponge@.last_squeezed =~= Seq::<u64>::empty());
    assert(fr_sponge@ == fresh_sponge());
    fr_sponge.absorb(&digest);
    fr_sponge.absorb_evaluations(p_eval0, e0);
    fr_sponge.absorb_evaluations(p_eval1, e1);
    let v_chal: ScalarChallenge<F> = fr_sponge.challenge();
    let v: F = v_chal.to_field(endo_r);
    let u_chal: ScalarChallenge<F> = fr_sponge.challenge();
    let u: F = u_chal.to_field(endo_r);
    (v_chal, v, u_chal, u)
}

/// The number of powers of `alpha` that the constraints take.
pub const ALPHAS: usize = 31;

/// Where the powers of `alpha` of the boundary conditions of the permutation begin.
pub const ALPHA_PERM: usize = 0;

/// Where the powers of `alpha` of the rounds of the permutation of the hash begin.
pub const ALPHA_PSDN: usize = 2;

/// Where the powers of `alpha` of the additions begin.
pub const ALPHA_ADD: usize = 5;

/// Where the powers of `alpha` of the scalar multiplications begin.
pub const ALPHA_MUL: usize = 8;

/// Power `i + 2` of `a`.
pub open spec fn alpha_power(p: nat, a: nat, i: nat) -> nat
    decreases i,
{
    if i == 0 {
        crate::arith::fmul(p, a, a)
    } else {
        crate::arith::fmul(p, alpha_power(p, a, (i - 1) as nat), a)
    }
}

/// The powers of `alpha` from the second one on.
pub open spec fn alpha_powers_spec(p: nat, alpha: nat, count: nat) -> Seq<nat> {
    Seq::new(count, |i: int| alpha_power(p, alpha, i as nat))
}

/// The powers of `alpha` from the second one on.
pub fn alpha_powers<F: PrimeField>(alpha: F, count: usize) -> (r: Vec<F>)
    ensures
        r@.len() == count,
        vals(r@) == alpha_powers_spec(F::modulus(), alpha.val(), count as nat),
{
    let mut out: Vec<F> = Vec::new();
    let mut a: F = alpha;
    let mut i: usize = 0;
    while i < count
        invariant
            i <= count,
            out@.len() == i,
            i == 0 ==> a.val() == alpha.val(),
            i > 0 ==> a.val() == alpha_power(F::modulus(), alpha.val(), (i - 1) as nat),
            forall|k: int|
                0 <= k < i ==> (#[trigger] out@[k]).val() == alpha_power(
                    F::modulus(),
                    alpha.val(),
                    k as nat,
                ),
        decreases count - i,
    {
        a = a.mul(&alpha);
        out.push(a);
        i = i + 1;
    }
    assert(vals(out@) =~= alpha_powers_spec(F::modulus(), alpha.val(), count as nat));
    out
}

} // verus!
