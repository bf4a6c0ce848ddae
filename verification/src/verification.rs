//! The verifier: from a batch of proofs and the index of their circuit to a verdict.

use crate::arith::{fadd, fmul, fneg, fpow, fsub, limbs_nat};
use crate::commitment::{
    b_poly_coefficients, b_poly_coefficients_spec, ceil_log2, ceil_log2_spec, challenge_spec,
    OpeningProof, PolyComm, PolyCommModel,
};
use crate::constraints::{weighted_sum, ConstraintSystem, PERMUTS, WIRES};
use crate::curve::CommitmentCurve;
use crate::error::ProofError;
use crate::field::{vals, PrimeField};
use crate::groupmap::BWParameters;
use crate::index::{combination_spec, comm_models, VerifierIndex, SELECTORS};
use crate::permutation::{perm_scalars_spec, shift_product, sigma_product};
use crate::poly::{chunk_evals, copy_range, poly_eval, DensePolynomial, Utils};
use crate::polynomials::{ecad_constraints, psdn_constraints};
use crate::prover::ProverProof;
use crate::scalars::{combined_of, lists_vals, CombinedModel, ProofEvaluations, RandomOracles};
use crate::sponge::{DefaultFqSponge, LimbSpongeModel};
use crate::transcript::{
    absorb_comm_spec, absorb_commitment, absorb_commitments, absorb_comms_spec, alpha_powers,
    alpha_powers_spec, commitment_models, digest_spec, evaluation_lists, fresh_sponge,
    opening_scalars, opening_scalars_spec, scalar_challenge, scalar_challenge_spec, ALPHAS,
    ALPHA_ADD, ALPHA_MUL, ALPHA_PERM, ALPHA_PSDN,
};
use crate::varbasemul::{vbmul_constraints, VBMUL_CONSTRAINTS};
use crate::verify::{
    eval_lists, evaluation_models, item_model, item_models, verify_spec, EvaluationModel, ItemModel,
};
use vstd::arithmetic::power2::pow2;
use vstd::prelude::*;

verus! {

/// The left side of the identity that ties the evaluations of a proof together, before
/// it is multiplied by `(zeta - 1) (zeta - w)`:
/// `f + p + alpha zkp z prod(w_c + gamma + beta shift_c zeta)
///        - alpha zkp z_next prod(w_c + gamma + beta s_c) (w_last + gamma)`.
pub open spec fn identity_left(
    p: nat,
    w: Seq<nat>,
    s: Seq<nat>,
    shift: Seq<nat>,
    f: nat,
    z: nat,
    z_next: nat,
    p_eval: nat,
    beta: nat,
    gamma: nat,
    alpha: nat,
    zeta: nat,
    zkp: nat,
) -> nat {
    let scale = fmul(p, alpha, zkp);
    fsub(
        p,
        fadd(
            p,
            fadd(p, f, p_eval),
            shift_product(p, fmul(p, scale, z), w, zeta, shift, beta, gamma, PERMUTS as nat),
        ),
        fmul(
            p,
            sigma_product(p, fmul(p, scale, z_next), w, s, beta, gamma, (PERMUTS - 1) as nat),
            fadd(p, w[PERMUTS - 1], gamma),
        ),
    )
}

/// The right side of the identity:
/// `(zeta^n - 1) (t (zeta - 1) (zeta - w) - a0 (z - 1) (zeta - w) - a1 (z - 1) (zeta - 1))`.
pub open spec fn identity_right(
    p: nat,
    t: nat,
    z: nat,
    zeta: nat,
    zeta1: nat,
    last: nat,
    a0: nat,
    a1: nat,
) -> nat {
    let zm1 = fsub(p, zeta, 1);
    let zmw = fsub(p, zeta, last);
    let zz = fsub(p, z, 1);
    fmul(
        p,
        fsub(p, zeta1, 1),
        fsub(
            p,
            fsub(p, fmul(p, fmul(p, t, zm1), zmw), fmul(p, fmul(p, a0, zz), zmw)),
            fmul(p, fmul(p, a1, zz), zm1),
        ),
    )
}

/// Whether the evaluations of a proof satisfy the identity of the quotient at
/// `zeta`.
pub open spec fn identity_holds(
    p: nat,
    w: Seq<nat>,
    s: Seq<nat>,
    shift: Seq<nat>,
    f: nat,
    z: nat,
    z_next: nat,
    t: nat,
    p_eval: nat,
    beta: nat,
    gamma: nat,
    alpha: nat,
    a0: nat,
    a1: nat,
    zeta: nat,
    zeta1: nat,
    last: nat,
    zkp: nat,
) -> bool {
    fmul(
        p,
        fmul(
            p,
            identity_left(p, w, s, shift, f, z, z_next, p_eval, beta, gamma, alpha, zeta, zkp),
            fsub(p, zeta, 1),
        ),
        fsub(p, zeta, last),
    ) == identity_right(p, t, z, zeta, zeta1, last, a0, a1)
}

/// Whether the combined evaluations `e` at the two points satisfy the identity of the
/// quotient.
pub fn check_identity<F: PrimeField>(
    e: &Vec<ProofEvaluations<F>>,
    shift: &Vec<F>,
    p_eval: F,
    oracles: &RandomOracles<F>,
    a0: F,
    a1: F,
    zeta1: F,
    last: F,
    zkp: F,
) -> (b: bool)
    requires
        e@.len() == 2,
        e@[0].w@.len() >= PERMUTS,
        e@[0].s@.len() >= PERMUTS - 1,
        shift@.len() >= PERMUTS,
    ensures
        b == identity_holds(
            F::modulus(),
            vals(e@[0].w@),
            vals(e@[0].s@),
            vals(shift@),
            e@[0].f.val(),
            e@[0].z.val(),
            e@[1].z.val(),
            e@[0].t.val(),
            p_eval.val(),
            oracles.beta.val(),
            oracles.gamma.val(),
            oracles.alpha.val(),
            a0.val(),
            a1.val(),
            oracles.zeta.val(),
            zeta1.val(),
            last.val(),
            zkp.val(),
        ),
{
    let ghost p = F::modulus();
    let one: F = F::one();
    let w = &e[0].w;
    let s = &e[0].s;
    let beta: F = oracles.beta;
    let gamma: F = oracles.gamma;
    let zeta: F = oracles.zeta;
    let scale: F = oracles.alpha.mul(&zkp);
    let mut a: F = scale.mul(&e[0].z);
    let ghost a_init = a.val();
    let mut c: usize = 0;
    while c < PERMUTS
        invariant
            c <= PERMUTS,
            w@.len() >= PERMUTS,
            shift@.len() >= PERMUTS,
            p == F::modulus(),
            a.val() == shift_product(
                p,
                a_init,
                vals(w@),
                zeta.val(),
                vals(shift@),
                beta.val(),
                gamma.val(),
                c as nat,
            ),
        decreases PERMUTS - c,
    {
        a = a.mul(&w[c].add(&zeta.mul(&beta).mul(&shift[c])).add(&gamma));
        c = c + 1;
    }
    let mut b: F = scale.mul(&e[1].z);
    let ghost b_init = b.val();
    let mut c: usize = 0;
    while c < PERMUTS - 1
        invariant
            c <= PERMUTS - 1,
            w@.len() >= PERMUTS,
            s@.len() >= PERMUTS - 1,
            p == F::modulus(),
            b.val() == sigma_product(
                p,
                b_init,
                vals(w@),
                vals(s@),
                beta.val(),
                gamma.val(),
                c as nat,
            ),
        decreases PERMUTS - 1 - c,
    {
        b = b.mul(&gamma.add(&beta.mul(&s[c])).add(&w[c]));
        c = c + 1;
    }
    let left: F = e[0].f.add(&p_eval).add(&a).sub(&b.mul(&w[PERMUTS - 1].add(&gamma)));
    let zm1: F = zeta.sub(&one);
    let zmw: F = zeta.sub(&last);
    let zz: F = e[0].z.sub(&one);
    let right: F = zeta1.sub(&one).mul(
        &e[0].t.mul(&zm1).mul(&zmw).sub(&a0.mul(&zz).mul(&zmw)).sub(&a1.mul(&zz).mul(&zm1)),
    );
    left.mul(&zm1).mul(&zmw).is_eq(&right)
}

/// The value at `zeta` of the polynomial that is minus the public inputs on the first
/// rows and zero on the others, after the first `k` inputs: the sum of
/// `-public[i] * w^i / (zeta - w^i)`, times `(zeta^n - 1) / n`.
pub open spec fn public_sum(p: nat, public: Seq<nat>, w: nat, zeta: nat, k: nat) -> nat
    decreases k,
{
    if k == 0 {
        0
    } else {
        fadd(
            p,
            public_sum(p, public, w, zeta, (k - 1) as nat),
            fmul(
                p,
                fmul(
                    p,
                    fneg(p, crate::arith::finv(p, fsub(p, zeta, fpow(p, w, (k - 1) as nat)))),
                    public[k - 1],
                ),
                fpow(p, w, (k - 1) as nat),
            ),
        )
    }
}

/// The value at `zeta` of the polynomial of the public inputs.
pub open spec fn public_eval_spec(
    p: nat,
    public: Seq<nat>,
    w: nat,
    zeta: nat,
    zeta1: nat,
    size_inv: nat,
) -> nat {
    fmul(p, fmul(p, public_sum(p, public, w, zeta, public.len()), fsub(p, zeta1, 1)), size_inv)
}

/// The value at `zeta` of the polynomial of the public inputs, from the inputs.
pub fn public_eval<F: PrimeField>(public: &Vec<F>, w: F, zeta: F, zeta1: F, size_inv: F) -> (r: F)
    ensures
        r.val() == public_eval_spec(
            F::modulus(),
            vals(public@),
            w.val(),
            zeta.val(),
            zeta1.val(),
            size_inv.val(),
        ),
{
    let elements: Vec<F> = crate::commitment::pows(public.len(), w);
    let mut den: Vec<F> = Vec::new();
    let mut i: usize = 0;
    while i < public.len()
        invariant
            i <= public@.len(),
            elements@.len() == public@.len(),
            vals(elements@) == crate::commitment::pows_spec(
                F::modulus(),
                public@.len(),
                w.val(),
            ),
            den@.len() == i,
            forall|k: int|
                0 <= k < i ==> (#[trigger] den@[k]).val() == fsub(
                    F::modulus(),
                    zeta.val(),
                    fpow(F::modulus(), w.val(), k as nat),
                ),
        decreases public@.len() - i,
    {
        assert(vals(elements@)[i as int] == elements@[i as int].val());
        den.push(zeta.sub(&elements[i]));
        i = i + 1;
    }
    let ghost dens = vals(den@);
    F::batch_inversion(&mut den);
    let mut acc: F = F::zero();
    let mut i: usize = 0;
    while i < public.len()
        invariant
            i <= public@.len(),
            elements@.len() == public@.len(),
            vals(elements@) == crate::commitment::pows_spec(
                F::modulus(),
                public@.len(),
                w.val(),
            ),
            den@.len() == public@.len(),
            dens.len() == public@.len(),
            forall|k: int|
                0 <= k < public@.len() ==> (#[trigger] den@[k]).val() == crate::arith::finv(
                    F::modulus(),
                    dens[k],
                ),
            forall|k: int|
                0 <= k < public@.len() ==> #[trigger] dens[k] == fsub(
                    F::modulus(),
                    zeta.val(),
                    fpow(F::modulus(), w.val(), k as nat),
                ),
            acc.val() == public_sum(F::modulus(), vals(public@), w.val(), zeta.val(), i as nat),
        decreases public@.len() - i,
    {
        assert(vals(elements@)[i as int] == elements@[i as int].val());
        assert(dens[i as int] == fsub(
            F::modulus(),
            zeta.val(),
            fpow(F::modulus(), w.val(), i as nat),
        ));
        acc = acc.add(&den[i].neg().mul(&public[i]).mul(&elements[i]));
        i = i + 1;
    }
    acc.mul(&zeta1.sub(&F::one())).mul(&size_inv)
}

/// What the verifier has made of one proof before the openings are checked.
pub struct Prepared<G: CommitmentCurve> {
    /// The commitment to the polynomial of the public inputs.
    pub p_comm: PolyComm<G>,
    /// The commitment to the linearization polynomial.
    pub f_comm: PolyComm<G>,
    /// The evaluations of the polynomial of the public inputs at the two points.
    pub p_eval: Vec<Vec<G::ScalarField>>,
    /// The transcript before the evaluations went in.
    pub sponge: DefaultFqSponge<G>,
    /// The two evaluation points.
    pub points: Vec<G::ScalarField>,
    pub v: G::ScalarField,
    pub u: G::ScalarField,
}

/// What the verifier has made of one proof, as the contracts see it.
pub ghost struct PreparedModel {
    pub p_comm: PolyCommModel,
    pub f_comm: PolyCommModel,
    pub p_eval: Seq<Seq<nat>>,
    pub sponge: LimbSpongeModel,
    pub points: Seq<nat>,
    pub v: nat,
    pub u: nat,
}

impl<G: CommitmentCurve> Prepared<G> {
    /// The parts have the sizes that the batch takes them with.
    pub open spec fn wf(&self) -> bool {
        &&& self.sponge.wf()
        &&& self.p_eval@.len() == 2
        &&& self.points@.len() == 2
    }

    /// The values of the parts.
    pub open spec fn view(&self) -> PreparedModel {
        PreparedModel {
            p_comm: self.p_comm@,
            f_comm: self.f_comm@,
            p_eval: lists_vals(self.p_eval@),
            sponge: self.sponge@,
            points: vals(self.points@),
            v: self.v.val(),
            u: self.u.val(),
        }
    }
}

/// The challenges of a proof as the transcript gives them, with the transcript
/// before the evaluations go in.
pub ghost struct OraclesModel {
    pub beta: nat,
    pub gamma: nat,
    pub alpha_chal: nat,
    pub alpha: nat,
    pub zeta_chal: nat,
    pub zeta: nat,
    pub sponge: LimbSpongeModel,
}

/// The challenges that the commitments of a proof lead to. The transcript takes in
/// the commitment to the polynomial of the public inputs and those to the witness
/// columns, and gives `beta` and `gamma`; it takes in the commitment to `z` and gives
/// `alpha`; it takes in the commitment to `t` and gives `zeta`.
pub open spec fn oracles_spec<G: CommitmentCurve>(
    rcs: Seq<Seq<nat>>,
    mds: Seq<Seq<nat>>,
    endo: nat,
    p_comm: PolyCommModel,
    w_comm: Seq<PolyCommModel>,
    z_comm: PolyCommModel,
    t_comm: PolyCommModel,
) -> OraclesModel {
    let m1 = absorb_comm_spec::<G>(rcs, mds, fresh_sponge(), p_comm);
    let m2 = absorb_comms_spec::<G>(rcs, mds, m1, w_comm, w_comm.len());
    let b = challenge_spec::<G>(rcs, mds, m2);
    let g = challenge_spec::<G>(rcs, mds, b.1);
    let m5 = absorb_comm_spec::<G>(rcs, mds, g.1, z_comm);
    let a = scalar_challenge_spec::<G>(rcs, mds, m5, endo);
    let m7 = absorb_comm_spec::<G>(rcs, mds, a.2, t_comm);
    let z = scalar_challenge_spec::<G>(rcs, mds, m7, endo);
    OraclesModel {
        beta: b.0,
        gamma: g.0,
        alpha_chal: a.0,
        alpha: a.1,
        zeta_chal: z.0,
        zeta: z.1,
        sponge: z.2,
    }
}

/// The commitment to the polynomial of the public inputs as the verifier rebuilds it:
/// the combination of the commitments to the polynomials of the single rows with the
/// negated inputs, or the commitment to the zero polynomial where there is no input.
pub open spec fn public_comm_spec<G: CommitmentCurve>(
    lgr_comm: Seq<PolyCommModel>,
    public: Seq<nat>,
) -> PolyCommModel {
    if public.len() == 0 {
        PolyCommModel { unshifted: seq![(0nat, 0nat, true)], shifted: None }
    } else {
        combination_spec::<G>(
            lgr_comm,
            Seq::new(public.len(), |i: int| fneg(G::ScalarField::modulus(), public[i])),
        )
    }
}

/// The scalars with which the last polynomial of the wiring and the selectors go into
/// the linearization, in the order of the commitments of the index.
pub open spec fn linearization_scalars(
    p: nat,
    mds: Seq<Seq<nat>>,
    e0: CombinedModel,
    e1: CombinedModel,
    beta: nat,
    gamma: nat,
    alpha: nat,
    alphas: Seq<nat>,
    zkp: nat,
) -> Seq<nat> {
    let a_psdn = alphas.subrange(ALPHA_PSDN as int, ALPHA_ADD as int);
    let a_add = alphas.subrange(ALPHA_ADD as int, ALPHA_MUL as int);
    let a_mul = alphas.subrange(ALPHA_MUL as int, ALPHAS as int);
    seq![
        perm_scalars_spec(p, e0.w, e0.s, e1.z, beta, gamma, alpha, zkp),
        e0.w[0],
        e0.w[1],
        e0.w[2],
        fmul(p, e0.w[0], e0.w[1]),
        1nat,
        weighted_sum(p, psdn_constraints(p, mds, e0.w, e1.w), a_psdn, 0, 3),
        a_psdn[0],
        a_psdn[1],
        a_psdn[2],
        weighted_sum(p, ecad_constraints(p, e0.w), a_add, 0, 3),
        weighted_sum(p, vbmul_constraints(p, e0.w, e1.w), a_mul, 0, VBMUL_CONSTRAINTS as nat),
    ]
}

/// What the verifier makes of a proof before the openings are checked, or nothing
/// where the proof has not the shape that the circuit asks for or its evaluations do
/// not satisfy the identity of the quotient.
///
/// The challenges come from the transcript of the commitments. The evaluations of the
/// polynomial of the public inputs come from the inputs; the scalars of the opening
/// from the sponge over the scalar field. The commitment to the linearization
/// polynomial is the combination of the commitments of the index with the scalars
/// that the evaluations give.
#[verifier::opaque]
pub open spec fn prepare_spec<G: CommitmentCurve>(proof: &ProverProof<G>, index: &VerifierIndex<G>) -> Option<
    PreparedModel,
> {
    let p = G::ScalarField::modulus();
    if !(proof.shaped() && proof.public@.len() == index.public) {
        None
    } else {
        let n = index.domain.size as nat;
        let w = index.domain.group_gen.val();
        let endo = index.srs.endo_r.val();
        let p_comm = public_comm_spec::<G>(commitment_models(index.lgr_comm@), vals(proof.public@));
        let o = oracles_spec::<G>(
            index.fq_sponge_params.rcs(),
            index.fq_sponge_params.matrix(),
            endo,
            p_comm,
            commitment_models(proof.w_comm@),
            proof.z_comm@,
            proof.t_comm@,
        );
        let zeta1 = fpow(p, o.zeta, n);
        let zetaw = fmul(p, o.zeta, w);
        let zetaw1 = fpow(p, zetaw, n);
        let alphas = alpha_powers_spec(p, o.alpha, ALPHAS as nat);
        let p0 = public_eval_spec(
            p,
            vals(proof.public@),
            w,
            o.zeta,
            zeta1,
            index.domain.size_inv.val(),
        );
        let p1 = public_eval_spec(
            p,
            vals(proof.public@),
            w,
            zetaw,
            zetaw1,
            index.domain.size_inv.val(),
        );
        let vu = opening_scalars_spec::<G::ScalarField>(
            index.fr_sponge_params.rcs(),
            index.fr_sponge_params.matrix(),
            digest_spec::<G>(
                index.fq_sponge_params.rcs(),
                index.fq_sponge_params.matrix(),
                o.sponge,
            ),
            evaluation_lists(seq![p0], proof.evals@[0]@),
            evaluation_lists(seq![p1], proof.evals@[1]@),
            endo,
        );
        let e0 = combined_of(p, proof.evals@[0]@, fpow(p, o.zeta, index.max_poly_size as nat));
        let e1 = combined_of(p, proof.evals@[1]@, fpow(p, zetaw, index.max_poly_size as nat));
        let zkp = poly_eval(p, index.zkpm@, o.zeta);
        let f_comm = combination_spec::<G>(
            seq![index.sigma_comm@[PERMUTS - 1]@] + commitment_models(index.selector_comm@),
            linearization_scalars(
                p,
                index.fr_sponge_params.matrix(),
                e0,
                e1,
                o.beta,
                o.gamma,
                o.alpha,
                alphas,
                zkp,
            ),
        );
        if identity_holds(
            p,
            e0.w,
            e0.s,
            vals(index.shift@),
            e0.f,
            e0.z,
            e1.z,
            e0.t,
            p0,
            o.beta,
            o.gamma,
            o.alpha,
            alphas[ALPHA_PERM as int],
            alphas[ALPHA_PERM + 1],
            o.zeta,
            zeta1,
            index.w.val(),
            zkp,
        ) {
            Some(
                PreparedModel {
                    p_comm,
                    f_comm,
                    p_eval: seq![seq![p0], seq![p1]],
                    sponge: o.sponge,
                    points: seq![o.zeta, zetaw],
                    v: vu.1,
                    u: vu.3,
                },
            )
        } else {
            None
        }
    }
}

/// The commitments that a proof hands on with the values of their challenge
/// polynomials at the points, chunk by chunk. The verifier computes the values from
/// the challenges; the opening shows that the commitments are to these polynomials.
pub open spec fn prev_entries<G: CommitmentCurve>(
    proof: &ProverProof<G>,
    index: &VerifierIndex<G>,
    points: Seq<nat>,
) -> Seq<EvaluationModel> {
    let p = G::ScalarField::modulus();
    Seq::new(
        proof.prev_challenges@.len(),
        |i: int|
            EvaluationModel {
                comm: proof.prev_challenges@[i].1@,
                evals: Seq::new(
                    points.len(),
                    |j: int|
                        chunk_evals(
                            p,
                            b_poly_coefficients_spec(p, 1, vals(proof.prev_challenges@[i].0@)),
                            points[j],
                            index.max_poly_size as nat,
                        ),
                ),
                bound: None,
            },
    )
}

/// The commitments of a proof with their evaluations at the two points, in the order
/// in which they are opened: those that the proof hands on, and then its own.
pub open spec fn batch_polys<G: CommitmentCurve>(
    proof: &ProverProof<G>,
    index: &VerifierIndex<G>,
    q: PreparedModel,
) -> Seq<EvaluationModel> {
    prev_entries(proof, index, q.points) + own_polys(proof, index, q)
}

/// What the verifier makes of a proof before the openings are checked: nothing
/// where a list of challenges that the proof hands on has not the length of an
/// opening against the reference string, or where the checks of the proof fail.
pub open spec fn accepts_spec<G: CommitmentCurve>(proof: &ProverProof<G>, index: &VerifierIndex<G>) -> Option<
    PreparedModel,
> {
    if proof.prev_shaped(index) {
        prepare_spec(proof, index)
    } else {
        None
    }
}

/// The own commitments of a proof with their evaluations at the two points, in the
/// order in which they are opened: the polynomial of the public inputs, the witness
/// columns, `z`, the linearization, all but the last polynomial of the wiring, and
/// the quotient with its bound.
pub open spec fn own_polys<G: CommitmentCurve>(
    proof: &ProverProof<G>,
    index: &VerifierIndex<G>,
    q: PreparedModel,
) -> Seq<EvaluationModel> {
    let e0 = proof.evals@[0];
    let e1 = proof.evals@[1];
    seq![EvaluationModel { comm: q.p_comm, evals: q.p_eval, bound: None }] + Seq::new(
        WIRES as nat,
        |c: int|
            EvaluationModel {
                comm: proof.w_comm@[c]@,
                evals: seq![vals(e0.w@[c]@), vals(e1.w@[c]@)],
                bound: None,
            },
    ) + seq![
        EvaluationModel { comm: proof.z_comm@, evals: seq![vals(e0.z@), vals(e1.z@)], bound: None },
        EvaluationModel { comm: q.f_comm, evals: seq![vals(e0.f@), vals(e1.f@)], bound: None },
    ] + Seq::new(
        (PERMUTS - 1) as nat,
        |c: int|
            EvaluationModel {
                comm: index.sigma_comm@[c]@,
                evals: seq![vals(e0.s@[c]@), vals(e1.s@[c]@)],
                bound: None,
            },
    ) + seq![
        EvaluationModel {
            comm: proof.t_comm@,
            evals: seq![vals(e0.t@), vals(e1.t@)],
            bound: Some(index.max_quot_size as nat),
        },
    ]
}

/// The entry of the batch of openings that belongs to a proof.
pub open spec fn batch_item<G: CommitmentCurve>(
    proof: &ProverProof<G>,
    index: &VerifierIndex<G>,
    q: PreparedModel,
) -> ItemModel {
    ItemModel {
        rcs: index.fq_sponge_params.rcs(),
        mds: index.fq_sponge_params.matrix(),
        sponge: q.sponge,
        points: q.points,
        xi: q.v,
        r: q.u,
        polys: batch_polys(proof, index, q),
        proof: proof.proof@,
    }
}

/// The batch of openings that belongs to a list of proofs that all pass the checks
/// of the verifier.
pub open spec fn batch_items<G: CommitmentCurve>(proofs: Seq<ProverProof<G>>, index: &VerifierIndex<G>) -> Seq<
    ItemModel,
> {
    Seq::new(
        proofs.len(),
        |i: int| batch_item(&proofs[i], index, accepts_spec(&proofs[i], index)->0),
    )
}

impl<G: CommitmentCurve> ProverProof<G> {
    /// Every list of challenges that the proof hands on has as many challenges as an
    /// opening against the reference string of the index has rounds.
    pub open spec fn prev_shaped(&self, index: &VerifierIndex<G>) -> bool {
        forall|i: int|
            0 <= i < self.prev_challenges@.len() ==> (#[trigger] self.prev_challenges@[i]).0@.len()
                == ceil_log2_spec(index.max_poly_size as nat)
    }

    /// Whether the lists of challenges that the proof hands on have the length of an
    /// opening against the reference string of the index.
    pub fn check_prev(&self, index: &VerifierIndex<G>) -> (b: bool)
        ensures
            b == self.prev_shaped(index),
    {
        let rounds: usize = ceil_log2(index.max_poly_size);
        let mut i: usize = 0;
        while i < self.prev_challenges.len()
            invariant
                i <= self.prev_challenges@.len(),
                rounds == ceil_log2_spec(index.max_poly_size as nat),
                forall|k: int| 0 <= k < i ==> (#[trigger] self.prev_challenges@[k]).0@.len() == rounds,
            decreases self.prev_challenges@.len() - i,
        {
            if self.prev_challenges[i].0.len() != rounds {
                return false;
            }
            i = i + 1;
        }
        true
    }

    /// The values at the points of the challenge polynomials that the proof hands
    /// on, chunk by chunk.
    pub fn challenge_evaluations(&self, index: &VerifierIndex<G>, points: &Vec<G::ScalarField>) -> (r:
        Vec<Vec<Vec<G::ScalarField>>>)
        requires
            index.wf(),
            self.prev_shaped(index),
        ensures
            r@.len() == self.prev_challenges@.len(),
            forall|i: int|
                0 <= i < r@.len() ==> lists_vals((#[trigger] r@[i])@) == prev_entries(
                    self,
                    index,
                    vals(points@),
                )[i].evals,
    {
        let ghost p = G::ScalarField::modulus();
        let ghost want = prev_entries(self, index, vals(points@));
        proof {
            crate::open::lemma_padding(index.max_poly_size as nat);
        }
        let mut out: Vec<Vec<Vec<G::ScalarField>>> = Vec::new();
        let mut i: usize = 0;
        while i < self.prev_challenges.len()
            invariant
                i <= self.prev_challenges@.len(),
                index.wf(),
                self.prev_shaped(index),
                p == G::ScalarField::modulus(),
                want == prev_entries(self, index, vals(points@)),
                pow2(ceil_log2_spec(index.max_poly_size as nat)) <= usize::MAX,
                out@.len() == i,
                forall|k: int| 0 <= k < i ==> lists_vals((#[trigger] out@[k])@) == want[k].evals,
            decreases self.prev_challenges@.len() - i,
        {
            proof {
                G::ScalarField::lemma_modulus();
            }
            let b = DensePolynomial::from_coefficients_vec(
                b_poly_coefficients(G::ScalarField::one(), &self.prev_challenges[i].0),
            );
            let mut at: Vec<Vec<G::ScalarField>> = Vec::new();
            let mut j: usize = 0;
            while j < points.len()
                invariant
                    j <= points@.len(),
                    index.wf(),
                    p == G::ScalarField::modulus(),
                    at@.len() == j,
                    forall|k: int|
                        0 <= k < j ==> vals((#[trigger] at@[k])@) == chunk_evals(
                            p,
                            b@,
                            points@[k].val(),
                            index.max_poly_size as nat,
                        ),
                decreases points@.len() - j,
            {
                at.push(b.eval(points[j], index.max_poly_size));
                j = j + 1;
            }
            proof {
                assert(lists_vals(at@) =~= want[i as int].evals);
            }
            out.push(at);
            i = i + 1;
        }
        out
    }

    /// Whether the proof has the shape of a proof for the circuit of the index.
    pub fn check_shape(&self, index: &VerifierIndex<G>) -> (b: bool)
        ensures
            b == (self.shaped() && self.public@.len() == index.public),
    {
        if self.w_comm.len() != WIRES || self.evals.len() != 2 || self.public.len()
            != index.public {
            return false;
        }
        let mut i: usize = 0;
        while i < 2
            invariant
                i <= 2,
                self.evals@.len() == 2,
                forall|k: int|
                    0 <= k < i ==> (#[trigger] self.evals@[k]).w@.len() == WIRES && self.evals@[k].s@.len()
                        == PERMUTS - 1,
            decreases 2 - i,
        {
            if self.evals[i].w.len() != WIRES || self.evals[i].s.len() != PERMUTS - 1 {
                return false;
            }
            i = i + 1;
        }
        true
    }

    /// The commitment to the polynomial of the public inputs, rebuilt from the inputs.
    pub fn public_commitment(&self, index: &VerifierIndex<G>) -> (r: PolyComm<G>)
        requires
            index.wf(),
            self.public@.len() == index.public,
        ensures
            r@ == public_comm_spec::<G>(commitment_models(index.lgr_comm@), vals(self.public@)),
    {
        if index.public == 0 {
            let mut u: Vec<G> = Vec::new();
            u.push(G::zero());
            let r = PolyComm { unshifted: u, shifted: None };
            assert(r@.unshifted =~= seq![(0nat, 0nat, true)]);
            r
        } else {
            let mut comms: Vec<&PolyComm<G>> = Vec::new();
            let mut scalars: Vec<G::ScalarField> = Vec::new();
            let mut i: usize = 0;
            while i < index.public
                invariant
                    i <= index.public,
                    index.wf(),
                    self.public@.len() == index.public,
                    comms@.len() == i,
                    scalars@.len() == i,
                    forall|k: int| 0 <= k < i ==> (#[trigger] comms@[k])@ == index.lgr_comm@[k]@,
                    forall|k: int|
                        0 <= k < i ==> (#[trigger] scalars@[k]).val() == fneg(
                            G::ScalarField::modulus(),
                            self.public@[k].val(),
                        ),
                decreases index.public - i,
            {
                comms.push(&index.lgr_comm[i]);
                scalars.push(self.public[i].neg());
                i = i + 1;
            }
            proof {
                assert(comm_models(comms@) =~= commitment_models(index.lgr_comm@));
                assert(vals(scalars@) =~= Seq::new(
                    vals(self.public@).len(),
                    |i: int| fneg(G::ScalarField::modulus(), vals(self.public@)[i]),
                ));
            }
            PolyComm::multi_scalar_mul(&comms, &scalars)
        }
    }

    /// The challenges of the proof, replayed from its commitments, and the transcript
    /// before the evaluations go in.
    pub fn oracles(&self, index: &VerifierIndex<G>, p_comm: &PolyComm<G>) -> (r: (
        RandomOracles<G::ScalarField>,
        DefaultFqSponge<G>,
    ))
        requires
            index.wf(),
        ensures
            r.1.wf(),
            r.1.params.rcs() == index.fq_sponge_params.rcs(),
            r.1.params.matrix() == index.fq_sponge_params.matrix(),
            (OraclesModel {
                beta: r.0.beta.val(),
                gamma: r.0.gamma.val(),
                alpha_chal: r.0.alpha_chal.0.val(),
                alpha: r.0.alpha.val(),
                zeta_chal: r.0.zeta_chal.0.val(),
                zeta: r.0.zeta.val(),
                sponge: r.1@,
            }) == oracles_spec::<G>(
                index.fq_sponge_params.rcs(),
                index.fq_sponge_params.matrix(),
                index.srs.endo_r.val(),
                p_comm@,
                commitment_models(self.w_comm@),
                self.z_comm@,
                self.t_comm@,
            ),
    {
        let mut oracles: RandomOracles<G::ScalarField> = RandomOracles::zero();
        let mut fq_sponge: DefaultFqSponge<G> = DefaultFqSponge::new(
            index.fq_sponge_params.duplicate(),
        );
        assert(fq_sponge@.last_squeezed =~= Seq::<u64>::empty());
        assert(fq_sponge@ == fresh_sponge());
        absorb_commitment(&mut fq_sponge, p_comm);
        absorb_commitments(&mut fq_sponge, &self.w_comm);
        oracles.beta = fq_sponge.challenge();
        oracles.gamma = fq_sponge.challenge();
        absorb_commitment(&mut fq_sponge, &self.z_comm);
        let a = scalar_challenge(&mut fq_sponge, &index.srs.endo_r);
        oracles.alpha_chal = a.0;
        oracles.alpha = a.1;
        absorb_commitment(&mut fq_sponge, &self.t_comm);
        let z = scalar_challenge(&mut fq_sponge, &index.srs.endo_r);
        oracles.zeta_chal = z.0;
        oracles.zeta = z.1;
        (oracles, fq_sponge)
    }

    /// Replays the transcript of a proof, rebuilds the commitments to the polynomial
    /// of the public inputs and to the linearization polynomial, and checks the
    /// identity of the quotient at the evaluation point.
    #[verifier::rlimit(100)]
    pub fn prepare(&self, index: &VerifierIndex<G>) -> (r: Result<Prepared<G>, ProofError>)
        requires
            index.wf(),
        ensures
            r matches Ok(q) ==> q.wf() && q.sponge.params.rcs() == index.fq_sponge_params.rcs()
                && q.sponge.params.matrix() == index.fq_sponge_params.matrix() && prepare_spec(
                self,
                index,
            ) == Some(q@),
            r matches Err(e) ==> e == ProofError::ProofVerification && prepare_spec(self, index)
                is None,
    {
        reveal(prepare_spec);
        if !self.check_shape(index) {
            return Err(ProofError::ProofVerification);
        }
        let ghost p = G::ScalarField::modulus();
        let n: usize = index.domain.size;
        let p_comm: PolyComm<G> = self.public_commitment(index);
        let (mut oracles, mut fq_sponge) = self.oracles(index, &p_comm);
        let sponge: DefaultFqSponge<G> = fq_sponge.duplicate();
        let digest: G::ScalarField = fq_sponge.digest();

        // values that are used more than once
        let order: [u64; 1] = [n as u64];
        let size: [u64; 1] = [index.max_poly_size as u64];
        proof {
            assert(order@.skip(1).len() == 0);
            assert(limbs_nat(order@.skip(1)) == 0);
            assert(limbs_nat(order@) == n);
            assert(size@.skip(1).len() == 0);
            assert(limbs_nat(size@.skip(1)) == 0);
            assert(limbs_nat(size@) == index.max_poly_size);
        }
        let zeta1: G::ScalarField = oracles.zeta.pow(order.as_slice());
        let zetaw: G::ScalarField = oracles.zeta.mul(&index.domain.group_gen);
        let zetaw1: G::ScalarField = zetaw.pow(order.as_slice());
        let alpha: Vec<G::ScalarField> = alpha_powers(oracles.alpha, ALPHAS);
        let alpha_psdn: Vec<G::ScalarField> = copy_range(alpha.as_slice(), ALPHA_PSDN, ALPHA_ADD);
        let alpha_add: Vec<G::ScalarField> = copy_range(alpha.as_slice(), ALPHA_ADD, ALPHA_MUL);
        let alpha_mul: Vec<G::ScalarField> = copy_range(alpha.as_slice(), ALPHA_MUL, ALPHAS);
        let ghost alphas = alpha_powers_spec(p, oracles.alpha.val(), ALPHAS as nat);
        proof {
            assert(vals(alpha_psdn@) =~= alphas.subrange(ALPHA_PSDN as int, ALPHA_ADD as int));
            assert(vals(alpha_add@) =~= alphas.subrange(ALPHA_ADD as int, ALPHA_MUL as int));
            assert(vals(alpha_mul@) =~= alphas.subrange(ALPHA_MUL as int, ALPHAS as int));
        }

        // the evaluations of the polynomial of the public inputs
        let p0: G::ScalarField = public_eval(
            &self.public,
            index.domain.group_gen,
            oracles.zeta,
            zeta1,
            index.domain.size_inv,
        );
        let p1: G::ScalarField = public_eval(
            &self.public,
            index.domain.group_gen,
            zetaw,
            zetaw1,
            index.domain.size_inv,
        );
        let mut p_eval0: Vec<G::ScalarField> = Vec::new();
        p_eval0.push(p0);
        let mut p_eval1: Vec<G::ScalarField> = Vec::new();
        p_eval1.push(p1);
        proof {
            assert(vals(p_eval0@) =~= seq![p0.val()]);
            assert(vals(p_eval1@) =~= seq![p1.val()]);
        }
        let vu = opening_scalars(
            &index.fr_sponge_params,
            digest,
            &p_eval0,
            &self.evals[0],
            &p_eval1,
            &self.evals[1],
            &index.srs.endo_r,
        );
        oracles.v_chal = vu.0;
        oracles.v = vu.1;
        oracles.u_chal = vu.2;
        oracles.u = vu.3;

        // the evaluations of the polynomials, put together from those of their chunks
        let mut e: Vec<ProofEvaluations<G::ScalarField>> = Vec::new();
        let c0 = self.evals[0].combine(oracles.zeta.pow(size.as_slice()));
        let c1 = self.evals[1].combine(zetaw.pow(size.as_slice()));
        e.push(c0);
        e.push(c1);
        let ghost e0m = combined_of(
            p,
            self.evals@[0]@,
            fpow(p, oracles.zeta.val(), index.max_poly_size as nat),
        );
        let ghost e1m = combined_of(
            p,
            self.evals@[1]@,
            fpow(p, zetaw.val(), index.max_poly_size as nat),
        );
        assert(e@[0]@ == e0m);
        assert(e@[1]@ == e1m);

        // the commitment to the linearization polynomial
        let zkp: G::ScalarField = index.zkpm.evaluate(oracles.zeta);
        let mut comms: Vec<&PolyComm<G>> = Vec::new();
        comms.push(&index.sigma_comm[PERMUTS - 1]);
        let mut k: usize = 0;
        while k < SELECTORS
            invariant
                k <= SELECTORS,
                index.wf(),
                comms@.len() == k + 1,
                comms@[0]@ == index.sigma_comm@[PERMUTS - 1]@,
                forall|j: int| 0 <= j < k ==> (#[trigger] comms@[j + 1])@ == index.selector_comm@[j]@,
            decreases SELECTORS - k,
        {
            comms.push(&index.selector_comm[k]);
            k = k + 1;
        }
        proof {
            let want = seq![index.sigma_comm@[PERMUTS - 1]@] + commitment_models(
                index.selector_comm@,
            );
            assert forall|j: int| 0 <= j < want.len() implies comm_models(comms@)[j] == want[j] by {
                if j > 0 {
                    assert(comms@[(j - 1) + 1]@ == index.selector_comm@[j - 1]@);
                }
            }
            assert(comm_models(comms@) =~= want);
        }
        let mut s: Vec<G::ScalarField> = Vec::new();
        s.push(ConstraintSystem::perm_scalars(&e, &oracles, zkp));
        s.push(e[0].w[0]);
        s.push(e[0].w[1]);
        s.push(e[0].w[2]);
        s.push(e[0].w[0].mul(&e[0].w[1]));
        s.push(G::ScalarField::one());
        s.push(ConstraintSystem::psdn_scalars(&e, &index.fr_sponge_params, alpha_psdn.as_slice()));
        s.push(alpha_psdn[0]);
        s.push(alpha_psdn[1]);
        s.push(alpha_psdn[2]);
        s.push(ConstraintSystem::ecad_scalars(&e, alpha_add.as_slice()));
        s.push(ConstraintSystem::vbmul_scalars(&e, alpha_mul.as_slice()));
        proof {
            assert(vals(s@) =~= linearization_scalars(
                p,
                index.fr_sponge_params.matrix(),
                e0m,
                e1m,
                oracles.beta.val(),
                oracles.gamma.val(),
                oracles.alpha.val(),
                alphas,
                zkp.val(),
            ));
        }
        let f_comm: PolyComm<G> = PolyComm::multi_scalar_mul(&comms, &s);

        // the identity of the quotient
        assert(alphas[ALPHA_PERM as int] == alpha@[ALPHA_PERM as int].val());
        assert(alphas[ALPHA_PERM + 1] == alpha@[ALPHA_PERM + 1].val());
        if !check_identity(
            &e,
            &index.shift,
            p0,
            &oracles,
            alpha[ALPHA_PERM],
            alpha[ALPHA_PERM + 1],
            zeta1,
            index.w,
            zkp,
        ) {
            return Err(ProofError::ProofVerification);
        }
        let mut p_eval: Vec<Vec<G::ScalarField>> = Vec::new();
        p_eval.push(p_eval0);
        p_eval.push(p_eval1);
        let mut points: Vec<G::ScalarField> = Vec::new();
        points.push(oracles.zeta);
        points.push(zetaw);
        let q = Prepared { p_comm, f_comm, p_eval, sponge, points, v: oracles.v, u: oracles.u };
        proof {
            assert(q@.p_eval =~= seq![seq![p0.val()], seq![p1.val()]]);
            assert(q@.points =~= seq![oracles.zeta.val(), zetaw.val()]);
        }
        Ok(q)
    }

    /// The commitments of the proof with their evaluations, as the verifier of
    /// openings takes them: those that the proof hands on, with the values
    /// `handed` that the verifier has computed for them, and then its own.
    pub fn batch_entries<'a>(
        &'a self,
        index: &'a VerifierIndex<G>,
        q: &'a Prepared<G>,
        handed: &'a Vec<Vec<Vec<G::ScalarField>>>,
    ) -> (polys: Vec<(&'a PolyComm<G>, Vec<&'a Vec<G::ScalarField>>, Option<usize>)>)
        requires
            index.wf(),
            self.shaped(),
            q.wf(),
            handed@.len() == self.prev_challenges@.len(),
            forall|i: int|
                0 <= i < handed@.len() ==> lists_vals((#[trigger] handed@[i])@) == prev_entries(
                    self,
                    index,
                    q@.points,
                )[i].evals,
        ensures
            evaluation_models::<G>(polys@) == batch_polys(self, index, q@),
    {
        let ghost front = prev_entries(self, index, q@.points);
        let mut polys: Vec<(&PolyComm<G>, Vec<&Vec<G::ScalarField>>, Option<usize>)> = Vec::new();
        let mut i: usize = 0;
        while i < handed.len()
            invariant
                i <= handed@.len(),
                handed@.len() == self.prev_challenges@.len(),
                front == prev_entries(self, index, q@.points),
                forall|k: int|
                    0 <= k < handed@.len() ==> lists_vals((#[trigger] handed@[k])@) == front[k].evals,
                polys@.len() == i,
                forall|k: int| 0 <= k < i ==> #[trigger] evaluation_models::<G>(polys@)[k] == front[k],
            decreases handed@.len() - i,
        {
            let ghost before = evaluation_models::<G>(polys@);
            let mut ev: Vec<&Vec<G::ScalarField>> = Vec::new();
            let mut j: usize = 0;
            while j < handed[i].len()
                invariant
                    i < handed@.len(),
                    j <= handed@[i as int]@.len(),
                    ev@.len() == j,
                    forall|k: int| 0 <= k < j ==> #[trigger] ev@[k] == &handed@[i as int]@[k],
                decreases handed@[i as int]@.len() - j,
            {
                ev.push(&handed[i][j]);
                j = j + 1;
            }
            proof {
                assert(eval_lists(ev@) =~= lists_vals(handed@[i as int]@));
            }
            polys.push((&self.prev_challenges[i].1, ev, None));
            proof {
                assert forall|k: int| 0 <= k < i + 1 implies #[trigger] evaluation_models::<G>(
                    polys@,
                )[k] == front[k] by {
                    if k < i {
                        assert(evaluation_models::<G>(polys@)[k] == before[k]);
                    }
                }
            }
            i = i + 1;
        }
        let ghost first = polys@;
        let mut own = self.own_entries(index, q);
        let ghost second = own@;
        polys.append(&mut own);
        proof {
            assert(evaluation_models::<G>(first) =~= front);
            assert(evaluation_models::<G>(polys@) =~= evaluation_models::<G>(first)
                + evaluation_models::<G>(second));
        }
        polys
    }

    /// The own commitments of the proof with their evaluations, as the verifier of
    /// openings takes them.
    pub fn own_entries<'a>(
        &'a self,
        index: &'a VerifierIndex<G>,
        q: &'a Prepared<G>,
    ) -> (polys: Vec<(&'a PolyComm<G>, Vec<&'a Vec<G::ScalarField>>, Option<usize>)>)
        requires
            index.wf(),
            self.shaped(),
            q.wf(),
        ensures
            evaluation_models::<G>(polys@) == own_polys(self, index, q@),
    {
        let e0 = &self.evals[0];
        let e1 = &self.evals[1];
        let ghost want = own_polys(self, index, q@);
        let mut polys: Vec<(&PolyComm<G>, Vec<&Vec<G::ScalarField>>, Option<usize>)> = Vec::new();
        let mut ev: Vec<&Vec<G::ScalarField>> = Vec::new();
        ev.push(&q.p_eval[0]);
        ev.push(&q.p_eval[1]);
        proof {
            assert(eval_lists(ev@) =~= q@.p_eval);
        }
        polys.push((&q.p_comm, ev, None));
        let mut c: usize = 0;
        while c < WIRES
            invariant
                c <= WIRES,
                self.shaped(),
                e0 == &self.evals@[0],
                e1 == &self.evals@[1],
                want == own_polys(self, index, q@),
                polys@.len() == 1 + c,
                forall|j: int|
                    0 <= j < 1 + c ==> #[trigger] evaluation_models::<G>(polys@)[j] == want[j],
            decreases WIRES - c,
        {
            let ghost before = evaluation_models::<G>(polys@);
            let mut ev: Vec<&Vec<G::ScalarField>> = Vec::new();
            ev.push(&e0.w[c]);
            ev.push(&e1.w[c]);
            proof {
                assert(eval_lists(ev@) =~= seq![vals(e0.w@[c as int]@), vals(e1.w@[c as int]@)]);
            }
            polys.push((&self.w_comm[c], ev, None));
            proof {
                assert forall|j: int| 0 <= j < 2 + c implies #[trigger] evaluation_models::<G>(
                    polys@,
                )[j] == want[j] by {
                    if j < 1 + c {
                        assert(evaluation_models::<G>(polys@)[j] == before[j]);
                    }
                }
            }
            c = c + 1;
        }
        let ghost before = evaluation_models::<G>(polys@);
        let mut ev: Vec<&Vec<G::ScalarField>> = Vec::new();
        ev.push(&e0.z);
        ev.push(&e1.z);
        proof {
            assert(eval_lists(ev@) =~= seq![vals(e0.z@), vals(e1.z@)]);
        }
        polys.push((&self.z_comm, ev, None));
        let mut ev: Vec<&Vec<G::ScalarField>> = Vec::new();
        ev.push(&e0.f);
        ev.push(&e1.f);
        proof {
            assert(eval_lists(ev@) =~= seq![vals(e0.f@), vals(e1.f@)]);
        }
        polys.push((&q.f_comm, ev, None));
        proof {
            assert forall|j: int| 0 <= j < 3 + WIRES implies #[trigger] evaluation_models::<G>(
                polys@,
            )[j] == want[j] by {
                if j < 1 + WIRES {
                    assert(evaluation_models::<G>(polys@)[j] == before[j]);
                }
            }
        }
        let mut c: usize = 0;
        while c < PERMUTS - 1
            invariant
                c <= PERMUTS - 1,
                index.wf(),
                self.shaped(),
                e0 == &self.evals@[0],
                e1 == &self.evals@[1],
                want == own_polys(self, index, q@),
                polys@.len() == 3 + WIRES + c,
                forall|j: int|
                    0 <= j < 3 + WIRES + c ==> #[trigger] evaluation_models::<G>(polys@)[j]
                        == want[j],
            decreases PERMUTS - 1 - c,
        {
            let ghost before = evaluation_models::<G>(polys@);
            let mut ev: Vec<&Vec<G::ScalarField>> = Vec::new();
            ev.push(&e0.s[c]);
            ev.push(&e1.s[c]);
            proof {
                assert(eval_lists(ev@) =~= seq![vals(e0.s@[c as int]@), vals(e1.s@[c as int]@)]);
            }
            polys.push((&index.sigma_comm[c], ev, None));
            proof {
                assert forall|j: int| 0 <= j < 4 + WIRES + c implies #[trigger] evaluation_models::<
                    G,
                >(polys@)[j] == want[j] by {
                    if j < 3 + WIRES + c {
                        assert(evaluation_models::<G>(polys@)[j] == before[j]);
                    }
                }
            }
            c = c + 1;
        }
        let ghost before = evaluation_models::<G>(polys@);
        let mut ev: Vec<&Vec<G::ScalarField>> = Vec::new();
        ev.push(&e0.t);
        ev.push(&e1.t);
        proof {
            assert(eval_lists(ev@) =~= seq![vals(e0.t@), vals(e1.t@)]);
        }
        polys.push((&self.t_comm, ev, Some(index.max_quot_size)));
        proof {
            assert forall|j: int| 0 <= j < 3 + WIRES + PERMUTS implies #[trigger] evaluation_models::<
                G,
            >(polys@)[j] == want[j] by {
                if j < 2 + WIRES + PERMUTS {
                    assert(evaluation_models::<G>(polys@)[j] == before[j]);
                }
            }
            assert(evaluation_models::<G>(polys@) =~= want);
        }
        polys
    }

    /// Verifies a batch of proofs for the circuit of the index.
    ///
    /// Every proof must have the shape that the circuit and the reference string ask
    /// for and satisfy the identity of the quotient at its evaluation point, or the
    /// batch fails with `ProofVerification`. Then the openings of all proofs are
    /// checked together, those of the commitments handed on among them, with
    /// two random scalars drawn for the occasion: the batch passes where that check
    /// passes, and fails with `OpenProof` where it does not.
    pub fn verify(
        group_map: &BWParameters<G::BaseField>,
        proofs: &Vec<ProverProof<G>>,
        index: &VerifierIndex<G>,
    ) -> (r: Result<bool, ProofError>)
        requires
            index.wf(),
        ensures
            (exists|i: int| 0 <= i < proofs@.len() && #[trigger] accepts_spec(&proofs@[i], index) is None)
                ==> r == Err::<bool, ProofError>(ProofError::ProofVerification),
            (forall|i: int| 0 <= i < proofs@.len() ==> #[trigger] accepts_spec(&proofs@[i], index) is Some)
                ==> exists|rand_base: nat, sg_rand_base: nat|
                r == if #[trigger] verify_spec::<G>(
                    index.srs@,
                    group_map@,
                    group_map.b.val(),
                    batch_items(proofs@, index),
                    rand_base,
                    sg_rand_base,
                ) {
                    Ok::<bool, ProofError>(true)
                } else {
                    Err::<bool, ProofError>(ProofError::OpenProof)
                },
    {
        let mut prepared: Vec<Prepared<G>> = Vec::new();
        let mut handed: Vec<Vec<Vec<Vec<G::ScalarField>>>> = Vec::new();
        let mut i: usize = 0;
        while i < proofs.len()
            invariant
                i <= proofs@.len(),
                index.wf(),
                prepared@.len() == i,
                handed@.len() == i,
                forall|k: int|
                    0 <= k < i ==> (#[trigger] prepared@[k]).wf() && prepared@[k].sponge.params.rcs()
                        == index.fq_sponge_params.rcs() && prepared@[k].sponge.params.matrix()
                        == index.fq_sponge_params.matrix(),
                forall|k: int|
                    0 <= k < i ==> #[trigger] accepts_spec(&proofs@[k], index) == Some(prepared@[k]@),
                forall|k: int|
                    0 <= k < i ==> (#[trigger] handed@[k])@.len() == proofs@[k].prev_challenges@.len(),
                forall|k: int, j: int|
                    0 <= k < i && 0 <= j < handed@[k]@.len() ==> lists_vals(
                        (#[trigger] handed@[k]@[j])@,
                    ) == prev_entries(&proofs@[k], index, prepared@[k]@.points)[j].evals,
            decreases proofs@.len() - i,
        {
            if !proofs[i].check_prev(index) {
                assert(accepts_spec(&proofs@[i as int], index) is None);
                return Err(ProofError::ProofVerification);
            }
            match proofs[i].prepare(index) {
                Ok(q) => {
                    let at = proofs[i].challenge_evaluations(index, &q.points);
                    let ghost before = handed@;
                    let ghost qs = prepared@;
                    handed.push(at);
                    prepared.push(q);
                    proof {
                        assert forall|k: int, j: int|
                            0 <= k < i + 1 && 0 <= j < handed@[k]@.len() implies lists_vals(
                            (#[trigger] handed@[k]@[j])@,
                        ) == prev_entries(&proofs@[k], index, prepared@[k]@.points)[j].evals by {
                            if k < i {
                                assert(handed@[k] == before[k]);
                                assert(prepared@[k] == qs[k]);
                            }
                        }
                    }
                },
                Err(e) => {
                    assert(accepts_spec(&proofs@[i as int], index) is None);
                    return Err(e);
                },
            }
            i = i + 1;
        }
        let ghost items = batch_items(proofs@, index);
        let mut batch: Vec<
            (
                DefaultFqSponge<G>,
                Vec<G::ScalarField>,
                G::ScalarField,
                G::ScalarField,
                Vec<(&PolyComm<G>, Vec<&Vec<G::ScalarField>>, Option<usize>)>,
                &OpeningProof<G>,
            ),
        > = Vec::new();
        let mut i: usize = 0;
        while i < proofs.len()
            invariant
                i <= proofs@.len(),
                index.wf(),
                prepared@.len() == proofs@.len(),
                items == batch_items(proofs@, index),
                forall|k: int|
                    0 <= k < prepared@.len() ==> (#[trigger] prepared@[k]).wf()
                        && prepared@[k].sponge.params.rcs() == index.fq_sponge_params.rcs()
                        && prepared@[k].sponge.params.matrix() == index.fq_sponge_params.matrix(),
                forall|k: int|
                    0 <= k < proofs@.len() ==> #[trigger] accepts_spec(&proofs@[k], index) == Some(
                        prepared@[k]@,
                    ),
                handed@.len() == proofs@.len(),
                forall|k: int|
                    0 <= k < proofs@.len() ==> (#[trigger] handed@[k])@.len()
                        == proofs@[k].prev_challenges@.len(),
                forall|k: int, j: int|
                    0 <= k < proofs@.len() && 0 <= j < handed@[k]@.len() ==> lists_vals(
                        (#[trigger] handed@[k]@[j])@,
                    ) == prev_entries(&proofs@[k], index, prepared@[k]@.points)[j].evals,
                batch@.len() == i,
                forall|k: int| 0 <= k < i ==> (#[trigger] batch@[k]).0.wf(),
                forall|k: int| 0 <= k < i ==> #[trigger] item_model::<G>(batch@[k]) == items[k],
            decreases proofs@.len() - i,
        {
            let proof = &proofs[i];
            let q = &prepared[i];
            proof {
                assert(q.wf());
                assert(accepts_spec(&proofs@[i as int], index) == Some(q@));
                assert(prepare_spec(&proofs@[i as int], index) == Some(q@));
                reveal(prepare_spec);
                assert(proof.shaped());
                assert(handed@[i as int]@.len() == proof.prev_challenges@.len());
            }
            let polys = proof.batch_entries(index, q, &handed[i]);
            let points: Vec<G::ScalarField> = copy_range(q.points.as_slice(), 0, 2);
            assert(points@ =~= q.points@);
            let ghost before = batch@;
            batch.push((q.sponge.duplicate(), points, q.v, q.u, polys, &proof.proof));
            proof {
                assert(item_model::<G>(batch@[i as int]) == items[i as int]);
                assert forall|k: int| 0 <= k < i + 1 implies #[trigger] item_model::<G>(batch@[k])
                    == items[k] by {
                    if k < i {
                        assert(batch@[k] == before[k]);
                    }
                }
            }
            i = i + 1;
        }
        assert(item_models::<G>(batch@) =~= items);
        if index.srs.verify(group_map, &batch) {
            Ok(true)
        } else {
            Err(ProofError::OpenProof)
        }
    }
}

} // verus!
