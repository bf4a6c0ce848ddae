//! The prover: from a witness and the index of a circuit to a proof.

use crate::arith::{fmul, fneg, fpow, limbs_nat};
use crate::commitment::{
    b_poly_coefficients, b_poly_coefficients_spec, ceil_log2_spec, challenge_spec, commit_spec,
    OpeningProof, PolyComm, PolyCommModel, ProofModel,
};
use crate::constraints::{
    weighted_sum, ConstraintSystem, WitnessEvals, WitnessOverDomains, WitnessShifts, PERMUTS, WIRES,
};
use crate::curve::{models, CommitmentCurve};
use crate::error::ProofError;
use crate::evaluations::{dft_spec, ev_shift, idft_spec, Evaluations};
use crate::field::{vals, PrimeField};
use crate::groupmap::{BWModel, BWParameters};
use crate::index::Index;
use crate::open::{batch_models, open_spec, OpeningRandomness, RandomnessModel};
use crate::permutation::{
    aggregation, aggregation_rows, perm_scalars_spec, table_vals, witness_fits,
};
use crate::poly::{chunk_evals, copy_range, poly_add, poly_eval, poly_scale, DensePolynomial, Utils};
use crate::polynomials::{
    constants_poly, ecad_constraints, generic_lnrz_spec, psdn_constraints, rc_polys,
};
use crate::quotient::quotient_spec;
use crate::scalars::{combined_of, CombinedModel, EvalsModel, ProofEvaluations, RandomOracles};
use crate::sponge::{DefaultFqSponge, LimbSpongeModel};
use crate::transcript::{
    absorb_comm_spec, absorb_commitment, absorb_commitments, absorb_comms_spec, alpha_powers,
    alpha_powers_spec, commitment_models, digest_spec, evaluation_lists, fresh_sponge,
    opening_scalars, opening_scalars_spec, scalar_challenge, scalar_challenge_spec, ALPHAS,
    ALPHA_ADD, ALPHA_MUL, ALPHA_PSDN,
};
use crate::varbasemul::{vbmul_constraints, VBMUL_CONSTRAINTS};
use vstd::arithmetic::power2::pow2;
use vstd::prelude::*;

verus! {

/// A proof that a witness satisfies a circuit.
pub struct ProverProof<G: CommitmentCurve> {
    /// The commitments to the witness columns.
    pub w_comm: Vec<PolyComm<G>>,
    /// The commitment to the aggregation of the permutation.
    pub z_comm: PolyComm<G>,
    /// The commitment to the quotient.
    pub t_comm: PolyComm<G>,
    /// The opening of all commitments at the two evaluation points.
    pub proof: OpeningProof<G>,
    /// The evaluations at the two points, chunk by chunk.
    pub evals: Vec<ProofEvaluations<Vec<G::ScalarField>>>,
    /// The public inputs.
    pub public: Vec<G::ScalarField>,
    /// The lists of challenges that earlier openings hand on, each with the
    /// commitment to its challenge polynomial: the proof opens these commitments
    /// with its own.
    pub prev_challenges: Vec<(Vec<G::ScalarField>, PolyComm<G>)>,
}

/// The lists of challenges that earlier openings hand on with their commitments, as
/// the contracts see them.
pub open spec fn prev_models<G: CommitmentCurve>(prev: Seq<(Vec<G::ScalarField>, PolyComm<G>)>) -> Seq<
    (Seq<nat>, PolyCommModel),
> {
    Seq::new(prev.len(), |i: int| (vals(prev[i].0@), prev[i].1@))
}

/// The challenge polynomials of the lists of challenges, each with the constant
/// coefficient one.
pub open spec fn challenge_polys_spec(p: nat, prev: Seq<(Seq<nat>, PolyCommModel)>) -> Seq<Seq<nat>> {
    Seq::new(prev.len(), |i: int| b_poly_coefficients_spec(p, 1, prev[i].0))
}

/// Every list of challenges is short enough for its polynomial to be written out.
pub open spec fn prev_fit<G: CommitmentCurve>(prev: Seq<(Vec<G::ScalarField>, PolyComm<G>)>) -> bool {
    forall|i: int| 0 <= i < prev.len() ==> pow2((#[trigger] prev[i]).0@.len()) <= usize::MAX
}

/// The polynomials that a proof opens: the challenge polynomials that were handed
/// on, and then its own.
pub open spec fn full_batch_spec(prev: Seq<Seq<nat>>, own: Seq<(Seq<nat>, Option<nat>)>) -> Seq<
    (Seq<nat>, Option<nat>),
> {
    Seq::new(prev.len(), |i: int| (prev[i], None::<nat>)) + own
}

/// The challenge polynomials of the lists of challenges.
pub fn challenge_polys<G: CommitmentCurve>(prev: &Vec<(Vec<G::ScalarField>, PolyComm<G>)>) -> (r: Vec<
    DensePolynomial<G::ScalarField>,
>)
    requires
        prev_fit(prev@),
    ensures
        poly_views(r@) == challenge_polys_spec(G::ScalarField::modulus(), prev_models(prev@)),
{
    let ghost p = G::ScalarField::modulus();
    let mut out: Vec<DensePolynomial<G::ScalarField>> = Vec::new();
    let mut i: usize = 0;
    while i < prev.len()
        invariant
            i <= prev@.len(),
            prev_fit(prev@),
            p == G::ScalarField::modulus(),
            out@.len() == i,
            forall|k: int|
                0 <= k < i ==> (#[trigger] out@[k])@ == b_poly_coefficients_spec(
                    p,
                    1,
                    vals(prev@[k].0@),
                ),
        decreases prev@.len() - i,
    {
        proof {
            G::ScalarField::lemma_modulus();
        }
        let b = DensePolynomial::from_coefficients_vec(
            b_poly_coefficients(G::ScalarField::one(), &prev[i].0),
        );
        out.push(b);
        i = i + 1;
    }
    assert(poly_views(out@) =~= challenge_polys_spec(p, prev_models(prev@)));
    out
}

/// The polynomials that a proof opens: the challenge polynomials that were handed
/// on, and then its own.
pub fn with_challenge_polys<'a, F: PrimeField>(
    prev: &'a Vec<DensePolynomial<F>>,
    own: Vec<(&'a DensePolynomial<F>, Option<usize>)>,
) -> (r: Vec<(&'a DensePolynomial<F>, Option<usize>)>)
    ensures
        batch_models(r@) == full_batch_spec(poly_views(prev@), batch_models(own@)),
{
    let ghost want = full_batch_spec(poly_views(prev@), batch_models(own@));
    let mut out: Vec<(&DensePolynomial<F>, Option<usize>)> = Vec::new();
    let mut i: usize = 0;
    while i < prev.len()
        invariant
            i <= prev@.len(),
            out@.len() == i,
            forall|k: int| 0 <= k < i ==> #[trigger] out@[k] == (&prev@[k], None::<usize>),
        decreases prev@.len() - i,
    {
        out.push((&prev[i], None));
        i = i + 1;
    }
    let mut j: usize = 0;
    while j < own.len()
        invariant
            j <= own@.len(),
            out@.len() == prev@.len() + j,
            forall|k: int| 0 <= k < prev@.len() ==> #[trigger] out@[k] == (&prev@[k], None::<usize>),
            forall|k: int| 0 <= k < j ==> #[trigger] out@[prev@.len() + k] == own@[k],
        decreases own@.len() - j,
    {
        out.push(own[j]);
        j = j + 1;
    }
    proof {
        assert forall|k: int| 0 <= k < want.len() implies #[trigger] batch_models(out@)[k]
            == want[k] by {
            if k >= prev@.len() {
                assert(out@[prev@.len() + (k - prev@.len())] == own@[k - prev@.len()]);
            }
        }
        assert(batch_models(out@) =~= want);
    }
    out
}

/// The values of a list of polynomials given by their values.
pub open spec fn evals_views<F: PrimeField>(w: Seq<Evaluations<F>>) -> Seq<Seq<nat>> {
    Seq::new(w.len(), |c: int| w[c]@)
}

/// The coefficients of a list of polynomials.
pub open spec fn poly_views<F: PrimeField>(w: Seq<DensePolynomial<F>>) -> Seq<Seq<nat>> {
    Seq::new(w.len(), |c: int| w[c]@)
}

/// The values at position `x` of polynomials given by their values.
pub open spec fn columns_at(w: Seq<Seq<nat>>, x: int) -> Seq<nat> {
    Seq::new(w.len(), |c: int| w[c][x])
}

/// The witness on the two larger domains, as the contracts see it: the values of the
/// columns and of the aggregation on the domains of four and eight times the size,
/// for the rows and for the rows that follow them.
pub ghost struct LagrangeModel {
    pub w4: Seq<Seq<nat>>,
    pub w4n: Seq<Seq<nat>>,
    pub w8: Seq<Seq<nat>>,
    pub w8n: Seq<Seq<nat>>,
    pub z4: Seq<nat>,
    pub z4n: Seq<nat>,
    pub z8: Seq<nat>,
    pub z8n: Seq<nat>,
}

impl<F: PrimeField> WitnessOverDomains<F> {
    /// The values.
    pub open spec fn view(&self) -> LagrangeModel {
        LagrangeModel {
            w4: evals_views(self.d4.this.w@),
            w4n: evals_views(self.d4.next.w@),
            w8: evals_views(self.d8.this.w@),
            w8n: evals_views(self.d8.next.w@),
            z4: self.d4.this.z@,
            z4n: self.d4.next.z@,
            z8: self.d8.this.z@,
            z8n: self.d8.next.z@,
        }
    }
}

/// The values of the polynomials `w` and `z` on the two larger domains. The values
/// for the rows that follow are those for the rows, turned by one row.
pub open spec fn lagrange_spec<F: PrimeField>(cs: &ConstraintSystem<F>, w: Seq<Seq<nat>>, z: Seq<nat>) -> LagrangeModel {
    let p = F::modulus();
    let g4 = cs.domain.d4.group_gen.val();
    let g8 = cs.domain.d8.group_gen.val();
    let n4 = cs.domain.d4.size as nat;
    let n8 = cs.domain.d8.size as nat;
    LagrangeModel {
        w4: Seq::new(w.len(), |c: int| dft_spec(p, g4, n4, w[c])),
        w4n: Seq::new(w.len(), |c: int| ev_shift(dft_spec(p, g4, n4, w[c]), 4)),
        w8: Seq::new(w.len(), |c: int| dft_spec(p, g8, n8, w[c])),
        w8n: Seq::new(w.len(), |c: int| ev_shift(dft_spec(p, g8, n8, w[c]), 8)),
        z4: dft_spec(p, g4, n4, z),
        z4n: ev_shift(dft_spec(p, g4, n4, z), 4),
        z8: dft_spec(p, g8, n8, z),
        z8n: ev_shift(dft_spec(p, g8, n8, z), 8),
    }
}

impl<F: PrimeField> ConstraintSystem<F> {
    /// The values of the witness polynomials and of the aggregation on the two larger
    /// domains, for the rows and for the rows that follow them.
    pub fn evaluate(&self, w: &Vec<DensePolynomial<F>>, z: &DensePolynomial<F>) -> (r:
        WitnessOverDomains<F>)
        requires
            self.wf(),
            w@.len() == WIRES,
            forall|c: int| 0 <= c < WIRES ==> (#[trigger] w@[c])@.len() <= self.domain.d1.size,
            z@.len() <= self.domain.d1.size,
        ensures
            r.fits(self.domain.d1.size as nat),
            r@ == lagrange_spec(self, poly_views(w@), z@),
    {
        let mut t4: Vec<Evaluations<F>> = Vec::new();
        let mut n4: Vec<Evaluations<F>> = Vec::new();
        let mut t8: Vec<Evaluations<F>> = Vec::new();
        let mut n8: Vec<Evaluations<F>> = Vec::new();
        let mut c: usize = 0;
        while c < WIRES
            invariant
                c <= WIRES,
                self.wf(),
                w@.len() == WIRES,
                forall|d: int| 0 <= d < WIRES ==> (#[trigger] w@[d])@.len() <= self.domain.d1.size,
                t4@.len() == c,
                n4@.len() == c,
                t8@.len() == c,
                n8@.len() == c,
                forall|d: int|
                    0 <= d < c ==> (#[trigger] t8@[d])@ == dft_spec(
                        F::modulus(),
                        self.domain.d8.group_gen.val(),
                        self.domain.d8.size as nat,
                        w@[d]@,
                    ),
                forall|d: int| 0 <= d < c ==> (#[trigger] n8@[d])@ == ev_shift(t8@[d]@, 8),
                forall|d: int|
                    0 <= d < c ==> (#[trigger] t4@[d])@ == dft_spec(
                        F::modulus(),
                        self.domain.d4.group_gen.val(),
                        self.domain.d4.size as nat,
                        w@[d]@,
                    ),
                forall|d: int| 0 <= d < c ==> (#[trigger] n4@[d])@ == ev_shift(t4@[d]@, 4),
            decreases WIRES - c,
        {
            assert(w@[c as int]@.len() <= self.domain.d1.size);
            let e8: Evaluations<F> = w[c].evaluate_over_domain(&self.domain.d8);
            let e4: Evaluations<F> = w[c].evaluate_over_domain(&self.domain.d4);
            n8.push(e8.shift(8));
            n4.push(e4.shift(4));
            t8.push(e8);
            t4.push(e4);
            c = c + 1;
        }
        let z8: Evaluations<F> = z.evaluate_over_domain(&self.domain.d8);
        let z4: Evaluations<F> = z.evaluate_over_domain(&self.domain.d4);
        let zn8: Evaluations<F> = z8.shift(8);
        let zn4: Evaluations<F> = z4.shift(4);
        let r = WitnessOverDomains {
            d4: WitnessShifts {
                this: WitnessEvals { w: t4, z: z4 },
                next: WitnessEvals { w: n4, z: zn4 },
            },
            d8: WitnessShifts {
                this: WitnessEvals { w: t8, z: z8 },
                next: WitnessEvals { w: n8, z: zn8 },
            },
        };
        proof {
            let want = lagrange_spec(self, poly_views(w@), z@);
            assert(r@.w4 =~= want.w4);
            assert(r@.w4n =~= want.w4n);
            assert(r@.w8 =~= want.w8);
            assert(r@.w8n =~= want.w8n);
        }
        r
    }
}

/// The polynomial cut or filled with zeros to `len` coefficients, where it has no
/// other coefficient beyond them than zero.
pub fn resize_exact<F: PrimeField>(poly: &DensePolynomial<F>, len: usize) -> (r: Option<
    DensePolynomial<F>,
>)
    ensures
        r is Some <==> (forall|i: int| len <= i < poly@.len() ==> poly@[i] == 0),
        r matches Some(q) ==> q@.len() == len && forall|i: int|
            0 <= i < len ==> #[trigger] q@[i] == if i < poly@.len() {
                poly@[i]
            } else {
                0
            },
{
    let n: usize = poly.coeffs.len();
    let mut i: usize = len;
    while i < n
        invariant
            n == poly.coeffs@.len(),
            len <= i,
            forall|k: int| len <= k < i && k < n ==> poly@[k] == 0,
        decreases n - i,
    {
        if !poly.coeffs[i].is_zero() {
            assert(poly@[i as int] != 0);
            return None;
        }
        i = i + 1;
    }
    let zero: F = F::zero();
    let mut out: Vec<F> = Vec::new();
    let mut k: usize = 0;
    while k < len
        invariant
            k <= len,
            n == poly.coeffs@.len(),
            zero.val() == 0,
            out@.len() == k,
            forall|j: int|
                0 <= j < k ==> (#[trigger] out@[j]).val() == if j < n {
                    poly@[j]
                } else {
                    0
                },
        decreases len - k,
    {
        if k < n {
            out.push(poly.coeffs[k]);
        } else {
            out.push(zero);
        }
        k = k + 1;
    }
    let q = DensePolynomial { coeffs: out };
    assert forall|j: int| 0 <= j < len implies #[trigger] q@[j] == if j < poly@.len() {
        poly@[j]
    } else {
        0
    } by {
        assert(q@[j] == q.coeffs@[j].val());
    }
    Some(q)
}

/// Column `c` of a witness that is given column after column.
pub open spec fn column_of(witness: Seq<nat>, n: nat, c: int) -> Seq<nat> {
    witness.subrange(c * n, (c + 1) * n)
}

/// The columns of a witness that is given column after column.
pub open spec fn witness_table(witness: Seq<nat>, n: nat) -> Seq<Seq<nat>> {
    Seq::new(WIRES as nat, |c: int| column_of(witness, n, c))
}

/// The polynomials of the witness columns: each takes the values of its column on the
/// rows.
pub open spec fn witness_polys_spec(p: nat, w: nat, n: nat, witness: Seq<nat>) -> Seq<Seq<nat>> {
    Seq::new(WIRES as nat, |c: int| idft_spec(p, w, n, column_of(witness, n, c)))
}

/// The commitments without bound to a list of polynomials.
pub open spec fn commitments_spec<G: CommitmentCurve>(g: Seq<(nat, nat, bool)>, polys: Seq<Seq<nat>>) -> Seq<
    PolyCommModel,
> {
    Seq::new(polys.len(), |c: int| commit_spec::<G>(g, polys[c], None))
}

/// The polynomial of the public inputs: minus the polynomial that takes the inputs on
/// the first rows and zero on the others.
pub open spec fn public_poly_spec(p: nat, w: nat, n: nat, public: Seq<nat>) -> Seq<nat> {
    poly_scale(p, idft_spec(p, w, n, public), fneg(p, 1))
}

/// The first polynomials of the wiring, which the proof evaluates.
pub open spec fn sigma_polys<F: PrimeField>(cs: &ConstraintSystem<F>) -> Seq<Seq<nat>> {
    Seq::new((PERMUTS - 1) as nat, |c: int| cs.sigma@[c].m@)
}

/// The evaluations of the polynomials at `pt`, chunk by chunk of `size` coefficients.
#[verifier::opaque]
pub open spec fn chunked_spec(
    p: nat,
    w: Seq<Seq<nat>>,
    z: Seq<nat>,
    t: Seq<nat>,
    f: Seq<nat>,
    sigma: Seq<Seq<nat>>,
    pt: nat,
    size: nat,
) -> EvalsModel {
    EvalsModel {
        w: Seq::new(w.len(), |c: int| chunk_evals(p, w[c], pt, size)),
        z: chunk_evals(p, z, pt, size),
        t: chunk_evals(p, t, pt, size),
        f: chunk_evals(p, f, pt, size),
        s: Seq::new(sigma.len(), |c: int| chunk_evals(p, sigma[c], pt, size)),
    }
}

/// The linearization polynomial: the selectors of the gates and the last polynomial of
/// the wiring, each times the scalar that the evaluations give it.
#[verifier::opaque]
pub open spec fn linearization_spec<F: PrimeField>(
    cs: &ConstraintSystem<F>,
    e0: CombinedModel,
    e1: CombinedModel,
    beta: nat,
    gamma: nat,
    alpha: nat,
    zeta: nat,
    alphas: Seq<nat>,
) -> Seq<nat> {
    let p = F::modulus();
    let a_psdn = alphas.subrange(ALPHA_PSDN as int, ALPHA_ADD as int);
    let a_add = alphas.subrange(ALPHA_ADD as int, ALPHA_MUL as int);
    let a_mul = alphas.subrange(ALPHA_MUL as int, ALPHAS as int);
    poly_add(
        p,
        poly_add(
            p,
            poly_add(
                p,
                poly_add(
                    p,
                    generic_lnrz_spec(p, cs.ql.m@, cs.qr.m@, cs.qo.m@, cs.qm.m@, cs.qc.m@, e0.w),
                    poly_add(
                        p,
                        poly_scale(
                            p,
                            cs.ps.m@,
                            weighted_sum(
                                p,
                                psdn_constraints(p, cs.fr_sponge_params.matrix(), e0.w, e1.w),
                                a_psdn,
                                0,
                                3,
                            ),
                        ),
                        constants_poly(p, rc_polys(cs), a_psdn),
                    ),
                ),
                poly_scale(p, cs.add.m@, weighted_sum(p, ecad_constraints(p, e0.w), a_add, 0, 3)),
            ),
            poly_scale(
                p,
                cs.mul.m@,
                weighted_sum(p, vbmul_constraints(p, e0.w, e1.w), a_mul, 0, VBMUL_CONSTRAINTS as nat),
            ),
        ),
        poly_scale(
            p,
            cs.sigma@[PERMUTS - 1].m@,
            perm_scalars_spec(
                p,
                e0.w,
                e0.s,
                e1.z,
                beta,
                gamma,
                alpha,
                poly_eval(p, cs.zkp.m@, zeta),
            ),
        ),
    )
}

/// The polynomials that a proof opens, in order, the quotient with its bound.
#[verifier::opaque]
pub open spec fn opening_batch_spec(
    pp: Seq<nat>,
    w: Seq<Seq<nat>>,
    z: Seq<nat>,
    f: Seq<nat>,
    sigma: Seq<Seq<nat>>,
    t: Seq<nat>,
    bound: nat,
) -> Seq<(Seq<nat>, Option<nat>)> {
    seq![(pp, None::<nat>)] + Seq::new(w.len(), |c: int| (w[c], None::<nat>)) + seq![
        (z, None::<nat>),
        (f, None::<nat>),
    ] + Seq::new(sigma.len(), |c: int| (sigma[c], None::<nat>)) + seq![(t, Some(bound))]
}

/// The random scalars of a proof, as the contracts see them.
pub ghost struct ProverRandomnessModel {
    pub r1: nat,
    pub r2: nat,
    pub opening: RandomnessModel,
}

/// The random scalars of a proof: the values of the aggregation on the last two rows,
/// and the scalars of the opening.
pub struct ProverRandomness<F: PrimeField> {
    pub r1: F,
    pub r2: F,
    pub opening: OpeningRandomness<F>,
}

impl<F: PrimeField> ProverRandomness<F> {
    /// The values of the scalars.
    pub open spec fn view(&self) -> ProverRandomnessModel {
        ProverRandomnessModel { r1: self.r1.val(), r2: self.r2.val(), opening: self.opening@ }
    }

    /// Draws the scalars for a proof whose opening has `rounds` rounds.
    pub fn sample(rounds: usize) -> (r: Self)
        ensures
            r.opening.blinders@.len() == rounds,
    {
        ProverRandomness { r1: F::rand(), r2: F::rand(), opening: OpeningRandomness::sample(rounds) }
    }
}

/// A proof as the contracts see it.
pub ghost struct ProofPartsModel {
    pub w_comm: Seq<PolyCommModel>,
    pub z_comm: PolyCommModel,
    pub t_comm: PolyCommModel,
    pub proof: ProofModel,
    pub evals: Seq<EvalsModel>,
    pub public: Seq<nat>,
    pub prev: Seq<(Seq<nat>, PolyCommModel)>,
}

/// The models of the evaluations at the points of a proof.
pub open spec fn evals_models<F: PrimeField>(s: Seq<ProofEvaluations<Vec<F>>>) -> Seq<EvalsModel> {
    Seq::new(s.len(), |i: int| s[i]@)
}

/// What the prover has after the commitments to the witness: the columns and their
/// polynomials with the commitments, the public inputs with their polynomial, the
/// first two challenges and the transcript.
pub ghost struct BeginModel {
    pub table: Seq<Seq<nat>>,
    pub w: Seq<Seq<nat>>,
    pub w_comm: Seq<PolyCommModel>,
    pub public: Seq<nat>,
    pub pp: Seq<nat>,
    pub beta: nat,
    pub gamma: nat,
    pub sponge: LimbSpongeModel,
}

/// The first part of a proof: the witness polynomials and the polynomial of the
/// public inputs are committed and go into the transcript, which gives `beta` and
/// `gamma`.
pub open spec fn begin_spec<G: CommitmentCurve>(index: &Index<G>, witness: Seq<nat>) -> BeginModel {
    let p = G::ScalarField::modulus();
    let n = index.cs.domain.d1.size as nat;
    let om = index.cs.domain.d1.group_gen.val();
    let g = models(index.srs.g@);
    let rcs = index.fq_sponge_params.rcs();
    let mds = index.fq_sponge_params.matrix();
    let w = witness_polys_spec(p, om, n, witness);
    let public = witness.subrange(0, index.cs.public as int);
    let pp = public_poly_spec(p, om, n, public);
    let w_comm = commitments_spec::<G>(g, w);
    let m1 = absorb_comm_spec::<G>(rcs, mds, fresh_sponge(), commit_spec::<G>(g, pp, None));
    let m2 = absorb_comms_spec::<G>(rcs, mds, m1, w_comm, w_comm.len());
    let bt = challenge_spec::<G>(rcs, mds, m2);
    let gm = challenge_spec::<G>(rcs, mds, bt.1);
    BeginModel {
        table: witness_table(witness, n),
        w,
        w_comm,
        public,
        pp,
        beta: bt.0,
        gamma: gm.0,
        sponge: gm.1,
    }
}

/// What the prover has after the commitment to the quotient: the aggregation and the
/// quotient with their commitments, `alpha` with its powers, `zeta`, and the
/// transcript.
pub ghost struct MiddleModel {
    pub z: Seq<nat>,
    pub z_comm: PolyCommModel,
    pub alpha: nat,
    pub alphas: Seq<nat>,
    pub t: Seq<nat>,
    pub t_comm: PolyCommModel,
    pub zeta: nat,
    pub sponge: LimbSpongeModel,
}

/// The second part of a proof. The aggregation of the permutation must come back to
/// one, or the proof fails with `ProofCreation`; its commitment gives `alpha`. The
/// quotient must exist, or the proof fails with `PolyDivision`; its commitment gives
/// `zeta`.
pub open spec fn middle_spec<G: CommitmentCurve>(index: &Index<G>, s: BeginModel, r1: nat, r2: nat) -> Result<
    MiddleModel,
    ProofError,
> {
    let p = G::ScalarField::modulus();
    let cs = &index.cs;
    let n = cs.domain.d1.size as nat;
    let om = cs.domain.d1.group_gen.val();
    let g = models(index.srs.g@);
    let endo = index.srs.endo_r.val();
    let rcs = index.fq_sponge_params.rcs();
    let mds = index.fq_sponge_params.matrix();
    if aggregation(
        p,
        s.table,
        table_vals(cs.sigmal1@),
        vals(cs.sid@),
        vals(cs.shift@),
        s.beta,
        s.gamma,
        (n - 3) as nat,
    ) != 1 {
        Err(ProofError::ProofCreation)
    } else {
        let z = idft_spec(
            p,
            om,
            n,
            aggregation_rows(
                p,
                s.table,
                table_vals(cs.sigmal1@),
                vals(cs.sid@),
                vals(cs.shift@),
                s.beta,
                s.gamma,
                n,
                r1,
                r2,
            ),
        );
        let z_comm = commit_spec::<G>(g, z, None);
        let a = scalar_challenge_spec::<G>(
            rcs,
            mds,
            absorb_comm_spec::<G>(rcs, mds, s.sponge, z_comm),
            endo,
        );
        let alphas = alpha_powers_spec(p, a.1, ALPHAS as nat);
        match quotient_spec(
            cs,
            s.w,
            z,
            s.pp,
            s.beta,
            s.gamma,
            a.1,
            alphas,
            index.max_quot_size as nat,
        ) {
            Err(e) => Err(e),
            Ok(t) => {
                let t_comm = commit_spec::<G>(g, t, Some(index.max_quot_size as nat));
                let zt = scalar_challenge_spec::<G>(
                    rcs,
                    mds,
                    absorb_comm_spec::<G>(rcs, mds, a.2, t_comm),
                    endo,
                );
                Ok(
                    MiddleModel {
                        z,
                        z_comm,
                        alpha: a.1,
                        alphas,
                        t,
                        t_comm,
                        zeta: zt.1,
                        sponge: zt.2,
                    },
                )
            },
        }
    }
}

/// The last part of a proof. All polynomials are evaluated at `zeta` and at `zeta`
/// times the generator of the domain, the linearization is formed from the
/// evaluations, and everything is opened at the two points with the scalars that the
/// sponge over the scalar field gives, after the challenge polynomials of `prev`.
pub open spec fn finish_spec<G: CommitmentCurve>(
    index: &Index<G>,
    gm: BWModel,
    b: nat,
    s: BeginModel,
    m: MiddleModel,
    prev: Seq<(Seq<nat>, PolyCommModel)>,
    rnd: RandomnessModel,
) -> Result<ProofPartsModel, ProofError> {
    let p = G::ScalarField::modulus();
    let cs = &index.cs;
    let om = cs.domain.d1.group_gen.val();
    let endo = index.srs.endo_r.val();
    let rcs = index.fq_sponge_params.rcs();
    let mds = index.fq_sponge_params.matrix();
    let size = index.max_poly_size as nat;
    let zetaw = fmul(p, m.zeta, om);
    let sg = sigma_polys(cs);
    let none: Seq<nat> = Seq::empty();
    let e0 = combined_of(p, chunked_spec(p, s.w, m.z, m.t, none, sg, m.zeta, size), fpow(p, m.zeta, size));
    let e1 = combined_of(p, chunked_spec(p, s.w, m.z, m.t, none, sg, zetaw, size), fpow(p, zetaw, size));
    let f = linearization_spec(cs, e0, e1, s.beta, s.gamma, m.alpha, m.zeta, m.alphas);
    let ev0 = chunked_spec(p, s.w, m.z, m.t, f, sg, m.zeta, size);
    let ev1 = chunked_spec(p, s.w, m.z, m.t, f, sg, zetaw, size);
    let vu = opening_scalars_spec::<G::ScalarField>(
        cs.fr_sponge_params.rcs(),
        cs.fr_sponge_params.matrix(),
        digest_spec::<G>(rcs, mds, m.sponge),
        evaluation_lists(seq![poly_eval(p, s.pp, m.zeta)], ev0),
        evaluation_lists(seq![poly_eval(p, s.pp, zetaw)], ev1),
        endo,
    );
    match open_spec::<G>(
        index.srs@,
        gm,
        b,
        full_batch_spec(
            challenge_polys_spec(p, prev),
            opening_batch_spec(s.pp, s.w, m.z, f, sg, m.t, index.max_quot_size as nat),
        ),
        seq![m.zeta, zetaw],
        vu.1,
        vu.3,
        rcs,
        mds,
        m.sponge,
        rnd,
    ) {
        Err(e) => Err(e),
        Ok(proof) => Ok(
            ProofPartsModel {
                w_comm: s.w_comm,
                z_comm: m.z_comm,
                t_comm: m.t_comm,
                proof,
                evals: seq![ev0, ev1],
                public: s.public,
                prev,
            },
        ),
    }
}

/// The proof for the witness with the random scalars `rnd`, which hands on the lists
/// of challenges `prev`. A witness that has not one value for each cell is refused
/// with `WitnessCsInconsistent`; the three parts of the proof follow, each of which
/// may fail.
pub open spec fn prove_spec<G: CommitmentCurve>(
    index: &Index<G>,
    gm: BWModel,
    b: nat,
    witness: Seq<nat>,
    prev: Seq<(Seq<nat>, PolyCommModel)>,
    rnd: ProverRandomnessModel,
) -> Result<ProofPartsModel, ProofError> {
    if witness.len() != WIRES * index.cs.domain.d1.size {
        Err(ProofError::WitnessCsInconsistent)
    } else {
        let s = begin_spec(index, witness);
        match middle_spec(index, s, rnd.r1, rnd.r2) {
            Err(e) => Err(e),
            Ok(m) => finish_spec(index, gm, b, s, m, prev, rnd.opening),
        }
    }
}

/// The witness as a list of its columns, with the polynomials of the columns and
/// their commitments.
pub fn witness_columns<G: CommitmentCurve>(index: &Index<G>, witness: &Vec<G::ScalarField>) -> (r: (
    Vec<Vec<G::ScalarField>>,
    Vec<DensePolynomial<G::ScalarField>>,
    Vec<PolyComm<G>>,
))
    requires
        index.wf(),
        witness@.len() == WIRES * index.cs.domain.d1.size,
    ensures
        r.0@.len() == WIRES,
        witness_fits(r.0@, index.cs.domain.d1.size as nat),
        table_vals(r.0@) == witness_table(vals(witness@), index.cs.domain.d1.size as nat),
        r.1@.len() == WIRES,
        forall|c: int| 0 <= c < WIRES ==> (#[trigger] r.1@[c])@.len() == index.cs.domain.d1.size,
        poly_views(r.1@) == witness_polys_spec(
            G::ScalarField::modulus(),
            index.cs.domain.d1.group_gen.val(),
            index.cs.domain.d1.size as nat,
            vals(witness@),
        ),
        r.2@.len() == WIRES,
        commitment_models(r.2@) == commitments_spec::<G>(models(index.srs.g@), poly_views(r.1@)),
{
    let n: usize = index.cs.domain.d1.size;
    let ghost p = G::ScalarField::modulus();
    let ghost om = index.cs.domain.d1.group_gen.val();
    let ghost wv = vals(witness@);
    let mut cols: Vec<Vec<G::ScalarField>> = Vec::new();
    let mut w: Vec<DensePolynomial<G::ScalarField>> = Vec::new();
    let mut w_comm: Vec<PolyComm<G>> = Vec::new();
    let total: usize = witness.len();
    let mut c: usize = 0;
    let mut lo: usize = 0;
    while c < WIRES
        invariant
            c <= WIRES,
            index.wf(),
            n == index.cs.domain.d1.size,
            p == G::ScalarField::modulus(),
            om == index.cs.domain.d1.group_gen.val(),
            wv == vals(witness@),
            total == witness@.len(),
            witness@.len() == WIRES * n,
            lo == c * n,
            cols@.len() == c,
            w@.len() == c,
            w_comm@.len() == c,
            forall|d: int| 0 <= d < c ==> (#[trigger] cols@[d])@.len() == n,
            forall|d: int| 0 <= d < c ==> vals((#[trigger] cols@[d])@) == column_of(wv, n as nat, d),
            forall|d: int| 0 <= d < c ==> (#[trigger] w@[d])@.len() == n,
            forall|d: int|
                0 <= d < c ==> (#[trigger] w@[d])@ == idft_spec(p, om, n as nat, column_of(wv, n as nat, d)),
            forall|d: int|
                0 <= d < c ==> (#[trigger] w_comm@[d])@ == commit_spec::<G>(
                    models(index.srs.g@),
                    w@[d]@,
                    None,
                ),
        decreases WIRES - c,
    {
        proof {
            assert((c + 1) * n <= 15 * n) by (nonlinear_arith)
                requires
                    c + 1 <= 15,
                    n >= 0,
            ;
            assert((c + 1) * n == c * n + n) by (nonlinear_arith);
            assert(WIRES * n == 15 * n) by (nonlinear_arith)
                requires
                    WIRES == 15,
            ;
        }
        let col: Vec<G::ScalarField> = copy_range(witness.as_slice(), lo, lo + n);
        let rows: Vec<G::ScalarField> = copy_range(witness.as_slice(), lo, lo + n);
        proof {
            assert(vals(col@) =~= column_of(wv, n as nat, c as int));
        }
        let poly: DensePolynomial<G::ScalarField> = (Evaluations { evals: rows }).interpolate(
            &index.cs.domain.d1,
        );
        assert(poly@.len() == poly.coeffs@.len());
        w_comm.push(index.commit_rows(&poly));
        w.push(poly);
        cols.push(col);
        lo = lo + n;
        c = c + 1;
    }
    proof {
        assert(table_vals(cols@) =~= witness_table(wv, n as nat));
        assert(poly_views(w@) =~= witness_polys_spec(p, om, n as nat, wv));
        assert(commitment_models(w_comm@) =~= commitments_spec::<G>(
            models(index.srs.g@),
            poly_views(w@),
        ));
    }
    (cols, w, w_comm)
}

/// The evaluations of the polynomials at `pt`, chunk by chunk, without those of the
/// linearization.
pub fn chunked_evaluations<G: CommitmentCurve>(
    index: &Index<G>,
    w: &Vec<DensePolynomial<G::ScalarField>>,
    z: &DensePolynomial<G::ScalarField>,
    t: &DensePolynomial<G::ScalarField>,
    pt: G::ScalarField,
) -> (r: ProofEvaluations<Vec<G::ScalarField>>)
    requires
        index.wf(),
        w@.len() == WIRES,
    ensures
        r.w@.len() == WIRES,
        r.s@.len() == PERMUTS - 1,
        r.f@.len() == 0,
        r@ == chunked_spec(
            G::ScalarField::modulus(),
            poly_views(w@),
            z@,
            t@,
            Seq::empty(),
            sigma_polys(&index.cs),
            pt.val(),
            index.max_poly_size as nat,
        ),
{
    reveal(chunked_spec);
    let ghost p = G::ScalarField::modulus();
    let size: usize = index.max_poly_size;
    let mut we: Vec<Vec<G::ScalarField>> = Vec::new();
    let mut c: usize = 0;
    while c < WIRES
        invariant
            c <= WIRES,
            index.wf(),
            size == index.max_poly_size,
            p == G::ScalarField::modulus(),
            w@.len() == WIRES,
            we@.len() == c,
            forall|d: int|
                0 <= d < c ==> vals((#[trigger] we@[d])@) == chunk_evals(
                    p,
                    w@[d]@,
                    pt.val(),
                    size as nat,
                ),
        decreases WIRES - c,
    {
        we.push(w[c].eval(pt, size));
        c = c + 1;
    }
    let mut se: Vec<Vec<G::ScalarField>> = Vec::new();
    let mut c: usize = 0;
    while c < PERMUTS - 1
        invariant
            c <= PERMUTS - 1,
            index.wf(),
            size == index.max_poly_size,
            p == G::ScalarField::modulus(),
            se@.len() == c,
            forall|d: int|
                0 <= d < c ==> vals((#[trigger] se@[d])@) == chunk_evals(
                    p,
                    index.cs.sigma@[d].m@,
                    pt.val(),
                    size as nat,
                ),
        decreases PERMUTS - 1 - c,
    {
        se.push(index.cs.sigma[c].m.eval(pt, size));
        c = c + 1;
    }
    let r = ProofEvaluations {
        w: we,
        z: z.eval(pt, size),
        t: t.eval(pt, size),
        f: Vec::new(),
        s: se,
    };
    proof {
        let want = chunked_spec(
            p,
            poly_views(w@),
            z@,
            t@,
            Seq::empty(),
            sigma_polys(&index.cs),
            pt.val(),
            size as nat,
        );
        assert(r@.w =~= want.w);
        assert(r@.s =~= want.s);
        crate::poly::lemma_chunk_bounds(0, size as nat, 0);
        assert(r@.f =~= want.f);
    }
    r
}

/// The linearization polynomial for the evaluations `e` at the two points.
pub fn linearize<F: PrimeField>(
    cs: &ConstraintSystem<F>,
    e: &Vec<ProofEvaluations<F>>,
    oracles: &RandomOracles<F>,
    alpha: &Vec<F>,
) -> (r: DensePolynomial<F>)
    requires
        cs.wf(),
        e@.len() == 2,
        e@[0].w@.len() == WIRES,
        e@[1].w@.len() == WIRES,
        alpha@.len() == ALPHAS,
    ensures
        r@ == linearization_spec(
            cs,
            e@[0]@,
            e@[1]@,
            oracles.beta.val(),
            oracles.gamma.val(),
            oracles.alpha.val(),
            oracles.zeta.val(),
            vals(alpha@),
        ),
{
    reveal(linearization_spec);
    let alpha_psdn: Vec<F> = copy_range(alpha.as_slice(), ALPHA_PSDN, ALPHA_ADD);
    let alpha_add: Vec<F> = copy_range(alpha.as_slice(), ALPHA_ADD, ALPHA_MUL);
    let alpha_mul: Vec<F> = copy_range(alpha.as_slice(), ALPHA_MUL, ALPHAS);
    proof {
        assert(vals(alpha_psdn@) =~= vals(alpha@).subrange(ALPHA_PSDN as int, ALPHA_ADD as int));
        assert(vals(alpha_add@) =~= vals(alpha@).subrange(ALPHA_ADD as int, ALPHA_MUL as int));
        assert(vals(alpha_mul@) =~= vals(alpha@).subrange(ALPHA_MUL as int, ALPHAS as int));
    }
    cs.gnrc_lnrz(&e[0]).plus(&cs.psdn_lnrz(e, alpha_psdn.as_slice())).plus(
        &cs.ecad_lnrz(e, alpha_add.as_slice()),
    ).plus(&cs.vbmul_lnrz(e, alpha_mul.as_slice())).plus(&cs.perm_lnrz(e, oracles))
}

/// The polynomials that a proof opens, in order.
pub fn opening_batch<'a, G: CommitmentCurve>(
    index: &'a Index<G>,
    p: &'a DensePolynomial<G::ScalarField>,
    w: &'a Vec<DensePolynomial<G::ScalarField>>,
    z: &'a DensePolynomial<G::ScalarField>,
    f: &'a DensePolynomial<G::ScalarField>,
    t: &'a DensePolynomial<G::ScalarField>,
) -> (r: Vec<(&'a DensePolynomial<G::ScalarField>, Option<usize>)>)
    requires
        index.wf(),
        w@.len() == WIRES,
    ensures
        batch_models(r@) == opening_batch_spec(
            p@,
            poly_views(w@),
            z@,
            f@,
            sigma_polys(&index.cs),
            t@,
            index.max_quot_size as nat,
        ),
{
    reveal(opening_batch_spec);
    let ghost want = opening_batch_spec(
        p@,
        poly_views(w@),
        z@,
        f@,
        sigma_polys(&index.cs),
        t@,
        index.max_quot_size as nat,
    );
    let mut polynoms: Vec<(&DensePolynomial<G::ScalarField>, Option<usize>)> = Vec::new();
    polynoms.push((p, None));
    let mut c: usize = 0;
    while c < w.len()
        invariant
            c <= w@.len(),
            polynoms@.len() == 1 + c,
            batch_models(polynoms@)[0] == (p@, None::<nat>),
            forall|d: int|
                0 <= d < c ==> #[trigger] batch_models(polynoms@)[1 + d] == (w@[d]@, None::<nat>),
        decreases w@.len() - c,
    {
        let ghost before = batch_models(polynoms@);
        polynoms.push((&w[c], None));
        proof {
            assert(batch_models(polynoms@)[0] == before[0]);
            assert forall|d: int| 0 <= d < c + 1 implies #[trigger] batch_models(polynoms@)[1 + d]
                == (w@[d]@, None::<nat>) by {
                if d < c {
                    assert(batch_models(polynoms@)[1 + d] == before[1 + d]);
                }
            }
        }
        c = c + 1;
    }
    let wl: usize = w.len();
    let ghost before = batch_models(polynoms@);
    polynoms.push((z, None));
    polynoms.push((f, None));
    proof {
        assert forall|j: int| 0 <= j < 3 + wl implies #[trigger] batch_models(polynoms@)[j]
            == want[j] by {
            if j == 0 {
                assert(batch_models(polynoms@)[0] == before[0]);
            } else if j < 1 + wl {
                assert(batch_models(polynoms@)[1 + (j - 1)] == before[1 + (j - 1)]);
            }
        }
    }
    let mut c: usize = 0;
    while c < PERMUTS - 1
        invariant
            c <= PERMUTS - 1,
            index.wf(),
            wl == w@.len(),
            wl == WIRES,
            want == opening_batch_spec(
                p@,
                poly_views(w@),
                z@,
                f@,
                sigma_polys(&index.cs),
                t@,
                index.max_quot_size as nat,
            ),
            polynoms@.len() == 3 + wl + c,
            forall|j: int| 0 <= j < 3 + wl + c ==> #[trigger] batch_models(polynoms@)[j] == want[j],
        decreases PERMUTS - 1 - c,
    {
        let ghost before = batch_models(polynoms@);
        polynoms.push((&index.cs.sigma[c].m, None));
        proof {
            reveal(opening_batch_spec);
            assert forall|j: int| 0 <= j < 4 + wl + c implies #[trigger] batch_models(
                polynoms@,
            )[j] == want[j] by {
                if j < 3 + wl + c {
                    assert(batch_models(polynoms@)[j] == before[j]);
                }
            }
        }
        c = c + 1;
    }
    let ghost before = batch_models(polynoms@);
    polynoms.push((t, Some(index.max_quot_size)));
    proof {
        assert forall|j: int| 0 <= j < 3 + wl + PERMUTS implies #[trigger] batch_models(
            polynoms@,
        )[j] == want[j] by {
            if j < 2 + wl + PERMUTS {
                assert(batch_models(polynoms@)[j] == before[j]);
            }
        }
        assert(batch_models(polynoms@) =~= want);
    }
    polynoms
}

impl<G: CommitmentCurve> ProverProof<G> {
    /// The proof has a commitment for every witness column and the evaluations at two
    /// points, each of every witness column and of all but the last polynomial of the
    /// wiring.
    pub open spec fn shaped(&self) -> bool {
        &&& self.w_comm@.len() == WIRES
        &&& self.evals@.len() == 2
        &&& forall|i: int|
            0 <= i < 2 ==> (#[trigger] self.evals@[i]).w@.len() == WIRES && self.evals@[i].s@.len()
                == PERMUTS - 1
    }

    /// The parts of the proof.
    pub open spec fn view(&self) -> ProofPartsModel {
        ProofPartsModel {
            w_comm: commitment_models(self.w_comm@),
            z_comm: self.z_comm@,
            t_comm: self.t_comm@,
            proof: self.proof@,
            evals: evals_models(self.evals@),
            public: vals(self.public@),
            prev: prev_models(self.prev_challenges@),
        }
    }

    /// Proves that the witness satisfies the circuit of the index, with the random
    /// scalars given: the proof is a function of the arguments.
    ///
    /// The witness holds the `WIRES` columns one after the other, and the first cells
    /// of the first column are the public inputs. Each entry of `prev_challenges` is
    /// the list of challenges of an earlier opening with the commitment to its
    /// challenge polynomial; the proof opens these with its own commitments and
    /// hands them on.
    pub fn create_with(
        group_map: &BWParameters<G::BaseField>,
        witness: &Vec<G::ScalarField>,
        index: &Index<G>,
        prev_challenges: Vec<(Vec<G::ScalarField>, PolyComm<G>)>,
        rnd: &ProverRandomness<G::ScalarField>,
    ) -> (r: Result<Self, ProofError>)
        requires
            index.wf(),
            prev_fit(prev_challenges@),
            rnd.opening.blinders@.len() >= ceil_log2_spec(index.srs.g@.len()),
        ensures
            match r {
                Ok(proof) => prove_spec::<G>(
                    index,
                    group_map@,
                    group_map.b.val(),
                    vals(witness@),
                    prev_models(prev_challenges@),
                    rnd@,
                ) == Ok::<ProofPartsModel, ProofError>(proof@),
                Err(e) => prove_spec::<G>(
                    index,
                    group_map@,
                    group_map.b.val(),
                    vals(witness@),
                    prev_models(prev_challenges@),
                    rnd@,
                ) == Err::<ProofPartsModel, ProofError>(e),
            },
            witness@.len() != WIRES * index.cs.domain.d1.size <==> r matches Err(
                ProofError::WitnessCsInconsistent,
            ),
            r matches Ok(proof) ==> proof.shaped(),
    {
        let n: usize = index.cs.domain.d1.size;
        let total: usize = witness.len();
        if n > usize::MAX / WIRES || total != WIRES * n {
            proof {
                let q = (usize::MAX as int) / 15;
                vstd::arithmetic::div_mod::lemma_fundamental_div_mod(usize::MAX as int, 15);
                vstd::arithmetic::div_mod::lemma_mod_bound(usize::MAX as int, 15);
                if n > usize::MAX / WIRES {
                    assert(n >= q + 1);
                    assert(15 * n > usize::MAX);
                    assert(WIRES * n == 15 * n) by (nonlinear_arith)
                        requires
                            WIRES == 15,
                    ;
                    assert(witness@.len() != WIRES * n);
                }
            }
            return Err(ProofError::WitnessCsInconsistent);
        }
        let s: Begun<G> = begin(index, witness);
        let m: Halfway<G> = match middle(index, &s, rnd.r1, rnd.r2) {
            Ok(m) => m,
            Err(e) => {
                return Err(e);
            },
        };
        finish(group_map, index, s, m, prev_challenges, &rnd.opening)
    }

    /// Proves that the witness satisfies the circuit of the index, with random scalars
    /// drawn for the occasion. The proof is the one that
    /// [`ProverProof::create_with`] gives for some choice of the random scalars.
    pub fn create(
        group_map: &BWParameters<G::BaseField>,
        witness: &Vec<G::ScalarField>,
        index: &Index<G>,
        prev_challenges: Vec<(Vec<G::ScalarField>, PolyComm<G>)>,
    ) -> (r: Result<Self, ProofError>)
        requires
            index.wf(),
            prev_fit(prev_challenges@),
        ensures
            exists|rnd: ProverRandomnessModel|
                match r {
                    Ok(proof) => #[trigger] prove_spec::<G>(
                        index,
                        group_map@,
                        group_map.b.val(),
                        vals(witness@),
                        prev_models(prev_challenges@),
                        rnd,
                    ) == Ok::<ProofPartsModel, ProofError>(proof@),
                    Err(e) => prove_spec::<G>(
                        index,
                        group_map@,
                        group_map.b.val(),
                        vals(witness@),
                        prev_models(prev_challenges@),
                        rnd,
                    ) == Err::<ProofPartsModel, ProofError>(e),
                },
            witness@.len() != WIRES * index.cs.domain.d1.size <==> r matches Err(
                ProofError::WitnessCsInconsistent,
            ),
            r matches Ok(proof) ==> proof.shaped(),
    {
        let rounds: usize = crate::commitment::ceil_log2(index.srs.g.len());
        let rnd: ProverRandomness<G::ScalarField> = ProverRandomness::sample(rounds);
        let ghost prev = prev_models(prev_challenges@);
        let r = Self::create_with(group_map, witness, index, prev_challenges, &rnd);
        proof {
            let m = rnd@;
            let want = prove_spec::<G>(
                index,
                group_map@,
                group_map.b.val(),
                vals(witness@),
                prev,
                m,
            );
            assert(match r {
                Ok(proof) => want == Ok::<ProofPartsModel, ProofError>(proof@),
                Err(e) => want == Err::<ProofPartsModel, ProofError>(e),
            });
        }
        r
    }
}

/// What the prover holds after the first part of a proof.
pub struct Begun<G: CommitmentCurve> {
    pub columns: Vec<Vec<G::ScalarField>>,
    pub w: Vec<DensePolynomial<G::ScalarField>>,
    pub w_comm: Vec<PolyComm<G>>,
    pub public: Vec<G::ScalarField>,
    pub pp: DensePolynomial<G::ScalarField>,
    pub oracles: RandomOracles<G::ScalarField>,
    pub sponge: DefaultFqSponge<G>,
}

impl<G: CommitmentCurve> Begun<G> {
    /// The values of the parts.
    pub open spec fn view(&self) -> BeginModel {
        BeginModel {
            table: table_vals(self.columns@),
            w: poly_views(self.w@),
            w_comm: commitment_models(self.w_comm@),
            public: vals(self.public@),
            pp: self.pp@,
            beta: self.oracles.beta.val(),
            gamma: self.oracles.gamma.val(),
            sponge: self.sponge@,
        }
    }

    /// The sizes fit the circuit of the index, and the transcript is the one of the
    /// index.
    pub open spec fn fits(&self, index: &Index<G>) -> bool {
        &&& self.columns@.len() == WIRES
        &&& witness_fits(self.columns@, index.cs.domain.d1.size as nat)
        &&& self.w@.len() == WIRES
        &&& forall|c: int| 0 <= c < WIRES ==> (#[trigger] self.w@[c])@.len() == index.cs.domain.d1.size
        &&& self.w_comm@.len() == WIRES
        &&& self.sponge.wf()
        &&& self.sponge.params.rcs() == index.fq_sponge_params.rcs()
        &&& self.sponge.params.matrix() == index.fq_sponge_params.matrix()
    }
}

/// The first part of a proof.
pub fn begin<G: CommitmentCurve>(index: &Index<G>, witness: &Vec<G::ScalarField>) -> (r: Begun<G>)
    requires
        index.wf(),
        witness@.len() == WIRES * index.cs.domain.d1.size,
    ensures
        r.fits(index),
        r@ == begin_spec(index, vals(witness@)),
{
    let cs = &index.cs;
    let (columns, w, w_comm) = witness_columns(index, witness);
    let mut oracles: RandomOracles<G::ScalarField> = RandomOracles::zero();
    let mut fq_sponge: DefaultFqSponge<G> = DefaultFqSponge::new(index.fq_sponge_params.duplicate());
    assert(fq_sponge@.last_squeezed =~= Seq::<u64>::empty());
    assert(fq_sponge@ == fresh_sponge());
    let public: Vec<G::ScalarField> = copy_range(witness.as_slice(), 0, cs.public);
    let public_rows: Vec<G::ScalarField> = copy_range(witness.as_slice(), 0, cs.public);
    proof {
        assert(vals(public@) =~= vals(witness@).subrange(0, cs.public as int));
    }
    let pp: DensePolynomial<G::ScalarField> = (Evaluations { evals: public_rows }).interpolate(
        &cs.domain.d1,
    ).scale(G::ScalarField::one().neg());
    let p_comm: PolyComm<G> = index.commit_rows(&pp);
    absorb_commitment(&mut fq_sponge, &p_comm);
    absorb_commitments(&mut fq_sponge, &w_comm);
    oracles.beta = fq_sponge.challenge();
    oracles.gamma = fq_sponge.challenge();
    Begun { columns, w, w_comm, public, pp, oracles, sponge: fq_sponge }
}

/// What the prover holds after the second part of a proof.
pub struct Halfway<G: CommitmentCurve> {
    pub z: DensePolynomial<G::ScalarField>,
    pub z_comm: PolyComm<G>,
    pub alpha: Vec<G::ScalarField>,
    pub t: DensePolynomial<G::ScalarField>,
    pub t_comm: PolyComm<G>,
    pub oracles: RandomOracles<G::ScalarField>,
    pub sponge: DefaultFqSponge<G>,
}

impl<G: CommitmentCurve> Halfway<G> {
    /// The values of the parts.
    pub open spec fn view(&self) -> MiddleModel {
        MiddleModel {
            z: self.z@,
            z_comm: self.z_comm@,
            alpha: self.oracles.alpha.val(),
            alphas: vals(self.alpha@),
            t: self.t@,
            t_comm: self.t_comm@,
            zeta: self.oracles.zeta.val(),
            sponge: self.sponge@,
        }
    }

    /// The challenges carry on those of the first part, and the transcript is the one
    /// of the index.
    pub open spec fn fits(&self, index: &Index<G>, s: &Begun<G>) -> bool {
        &&& self.alpha@.len() == ALPHAS
        &&& self.oracles.beta == s.oracles.beta
        &&& self.oracles.gamma == s.oracles.gamma
        &&& self.sponge.wf()
        &&& self.sponge.params.rcs() == index.fq_sponge_params.rcs()
        &&& self.sponge.params.matrix() == index.fq_sponge_params.matrix()
    }
}

/// The second part of a proof, with the values `r1` and `r2` of the aggregation on the
/// last two rows.
pub fn middle<G: CommitmentCurve>(
    index: &Index<G>,
    s: &Begun<G>,
    r1: G::ScalarField,
    r2: G::ScalarField,
) -> (r: Result<Halfway<G>, ProofError>)
    requires
        index.wf(),
        s.fits(index),
    ensures
        match r {
            Ok(m) => middle_spec(index, s@, r1.val(), r2.val()) == Ok::<MiddleModel, ProofError>(m@),
            Err(e) => middle_spec(index, s@, r1.val(), r2.val()) == Err::<MiddleModel, ProofError>(
                e,
            ),
        },
        r matches Ok(m) ==> m.fits(index, s),
        r matches Err(e) ==> e == ProofError::ProofCreation || e == ProofError::PolyDivision,
{
    let cs = &index.cs;
    let mut oracles: RandomOracles<G::ScalarField> = RandomOracles::zero();
    oracles.beta = s.oracles.beta;
    oracles.gamma = s.oracles.gamma;
    let mut fq_sponge: DefaultFqSponge<G> = s.sponge.duplicate();
    let rows: Vec<G::ScalarField> = match cs.perm_aggreg_rows(&s.columns, &oracles, r1, r2) {
        Ok(z) => z,
        Err(e) => {
            return Err(e);
        },
    };
    let z: DensePolynomial<G::ScalarField> = (Evaluations { evals: rows }).interpolate(
        &cs.domain.d1,
    );
    assert(z@.len() == z.coeffs@.len());
    let z_comm: PolyComm<G> = index.commit_rows(&z);
    absorb_commitment(&mut fq_sponge, &z_comm);
    let a = scalar_challenge(&mut fq_sponge, &index.srs.endo_r);
    oracles.alpha_chal = a.0;
    oracles.alpha = a.1;
    let alpha: Vec<G::ScalarField> = alpha_powers(oracles.alpha, ALPHAS);
    let t: DensePolynomial<G::ScalarField> = match cs.quotient(
        &s.w,
        &z,
        &s.pp,
        &oracles,
        &alpha,
        index.max_quot_size,
    ) {
        Ok(t) => t,
        Err(e) => {
            return Err(ProofError::PolyDivision);
        },
    };
    proof {
        vstd::arithmetic::div_mod::lemma_mod_decreases(
            index.max_quot_size as nat,
            index.max_poly_size as nat,
        );
    }
    let t_comm: PolyComm<G> = index.srs.commit(&t, Some(index.max_quot_size));
    absorb_commitment(&mut fq_sponge, &t_comm);
    let zt = scalar_challenge(&mut fq_sponge, &index.srs.endo_r);
    oracles.zeta_chal = zt.0;
    oracles.zeta = zt.1;
    Ok(Halfway { z, z_comm, alpha, t, t_comm, oracles, sponge: fq_sponge })
}

/// The last part of a proof, with the random scalars of the opening.
#[verifier::rlimit(100)]
pub fn finish<G: CommitmentCurve>(
    group_map: &BWParameters<G::BaseField>,
    index: &Index<G>,
    s: Begun<G>,
    m: Halfway<G>,
    prev: Vec<(Vec<G::ScalarField>, PolyComm<G>)>,
    rnd: &OpeningRandomness<G::ScalarField>,
) -> (r: Result<ProverProof<G>, ProofError>)
    requires
        index.wf(),
        s.fits(index),
        m.fits(index, &s),
        prev_fit(prev@),
        rnd.blinders@.len() >= ceil_log2_spec(index.srs.g@.len()),
    ensures
        match r {
            Ok(proof) => finish_spec(
                index,
                group_map@,
                group_map.b.val(),
                s@,
                m@,
                prev_models(prev@),
                rnd@,
            ) == Ok::<ProofPartsModel, ProofError>(proof@),
            Err(e) => finish_spec(
                index,
                group_map@,
                group_map.b.val(),
                s@,
                m@,
                prev_models(prev@),
                rnd@,
            ) == Err::<ProofPartsModel, ProofError>(e),
        },
        r matches Ok(proof) ==> proof.shaped(),
        r matches Err(e) ==> e == ProofError::OracleCommit || e == ProofError::ProofCreation,
{
    let ghost p = G::ScalarField::modulus();
    let ghost sm = s@;
    let ghost mm = m@;
    let cs = &index.cs;
    let zeta: G::ScalarField = m.oracles.zeta;
    let zetaw: G::ScalarField = zeta.mul(&cs.domain.d1.group_gen);
    let size: [u64; 1] = [index.max_poly_size as u64];
    proof {
        assert(size@.skip(1).len() == 0);
        assert(limbs_nat(size@.skip(1)) == 0);
        assert(limbs_nat(size@) == index.max_poly_size);
    }
    let mut first: ProofEvaluations<Vec<G::ScalarField>> = chunked_evaluations(
        index,
        &s.w,
        &m.z,
        &m.t,
        zeta,
    );
    let mut second: ProofEvaluations<Vec<G::ScalarField>> = chunked_evaluations(
        index,
        &s.w,
        &m.z,
        &m.t,
        zetaw,
    );
    let mut e: Vec<ProofEvaluations<G::ScalarField>> = Vec::new();
    e.push(first.combine(zeta.pow(size.as_slice())));
    e.push(second.combine(zetaw.pow(size.as_slice())));
    let f: DensePolynomial<G::ScalarField> = linearize(cs, &e, &m.oracles, &m.alpha);
    first.f = f.eval(zeta, index.max_poly_size);
    second.f = f.eval(zetaw, index.max_poly_size);
    proof {
        let sg = sigma_polys(cs);
        let sz = index.max_poly_size as nat;
        assert(first@ == chunked_spec(p, sm.w, mm.z, mm.t, f@, sg, zeta.val(), sz)) by {
            reveal(chunked_spec);
        }
        assert(second@ == chunked_spec(p, sm.w, mm.z, mm.t, f@, sg, zetaw.val(), sz)) by {
            reveal(chunked_spec);
        }
    }
    let sponge_before_evaluations: DefaultFqSponge<G> = m.sponge.duplicate();
    let digest: G::ScalarField = m.sponge.digest();
    let mut p_eval0: Vec<G::ScalarField> = Vec::new();
    p_eval0.push(s.pp.evaluate(zeta));
    let mut p_eval1: Vec<G::ScalarField> = Vec::new();
    p_eval1.push(s.pp.evaluate(zetaw));
    proof {
        assert(vals(p_eval0@) =~= seq![poly_eval(p, sm.pp, zeta.val())]);
        assert(vals(p_eval1@) =~= seq![poly_eval(p, sm.pp, zetaw.val())]);
    }
    let vu = opening_scalars(
        &index.cs.fr_sponge_params,
        digest,
        &p_eval0,
        &first,
        &p_eval1,
        &second,
        &index.srs.endo_r,
    );
    let mut evlp: Vec<G::ScalarField> = Vec::new();
    evlp.push(zeta);
    evlp.push(zetaw);
    proof {
        assert(vals(evlp@) =~= seq![zeta.val(), zetaw.val()]);
    }
    let handed: Vec<DensePolynomial<G::ScalarField>> = challenge_polys::<G>(&prev);
    let opened = {
        let polynoms = with_challenge_polys(
            &handed,
            opening_batch(index, &s.pp, &s.w, &m.z, &f, &m.t),
        );
        index.srs.open_with(
            group_map,
            &polynoms,
            &evlp,
            vu.1,
            vu.3,
            sponge_before_evaluations,
            rnd,
        )
    };
    let proof: OpeningProof<G> = match opened {
        Ok(proof) => proof,
        Err(e) => {
            return Err(e);
        },
    };
    let mut both: Vec<ProofEvaluations<Vec<G::ScalarField>>> = Vec::new();
    both.push(first);
    both.push(second);
    let r = ProverProof {
        w_comm: s.w_comm,
        z_comm: m.z_comm,
        t_comm: m.t_comm,
        proof,
        evals: both,
        public: s.public,
        prev_challenges: prev,
    };
    proof {
        assert(r@.evals =~= seq![r.evals@[0]@, r.evals@[1]@]);
    }
    Ok(r)
}

} // verus!
