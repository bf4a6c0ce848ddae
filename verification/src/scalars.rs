//! What a proof says of the polynomials at the evaluation points, the challenges of
//! the argument, and the same two records in the shape that the bindings to other
//! languages take.

use crate::constraints::{PERMUTS, WIRES};
use crate::field::{vals, PrimeField};
use crate::gate::COLUMNS;
use crate::poly::{eval_polynomial, filled, poly_eval};
use crate::sponge::ScalarChallenge;
use vstd::prelude::*;

verus! {

/// The evaluations of the polynomials of a proof at one point: the witness columns,
/// the permutation aggregation `z`, the quotient `t`, the linearization `f`, and all
/// but the last of the permutation polynomials.
pub struct ProofEvaluations<Fs> {
    pub w: Vec<Fs>,
    pub z: Fs,
    pub t: Fs,
    pub f: Fs,
    pub s: Vec<Fs>,
}

/// The values of the polynomials with the given chunk evaluations at `pt`, chunk by
/// chunk of a list.
pub open spec fn combine_all<F: PrimeField>(chunks: Seq<Vec<F>>, pt: nat) -> Seq<nat> {
    Seq::new(chunks.len(), |i: int| poly_eval(F::modulus(), vals(chunks[i]@), pt))
}

/// Each entry of a list of chunk evaluations, read as a polynomial and evaluated.
pub fn combine_list<F: PrimeField>(chunks: &Vec<Vec<F>>, pt: F) -> (r: Vec<F>)
    ensures
        r@.len() == chunks@.len(),
        vals(r@) == combine_all(chunks@, pt.val()),
{
    let mut out: Vec<F> = Vec::new();
    let mut i: usize = 0;
    while i < chunks.len()
        invariant
            i <= chunks@.len(),
            out@.len() == i,
            forall|k: int|
                0 <= k < i ==> (#[trigger] out@[k]).val() == poly_eval(
                    F::modulus(),
                    vals(chunks@[k]@),
                    pt.val(),
                ),
        decreases chunks@.len() - i,
    {
        out.push(eval_polynomial(chunks[i].as_slice(), pt));
        i = i + 1;
    }
    assert(vals(out@) =~= combine_all(chunks@, pt.val()));
    out
}

/// The evaluations of the polynomials of a proof at one point, chunk by chunk, as the
/// contracts see them.
pub ghost struct EvalsModel {
    pub w: Seq<Seq<nat>>,
    pub z: Seq<nat>,
    pub t: Seq<nat>,
    pub f: Seq<nat>,
    pub s: Seq<Seq<nat>>,
}

/// The evaluations of the polynomials of a proof at one point, each put together from
/// the evaluations of its chunks.
pub ghost struct CombinedModel {
    pub w: Seq<nat>,
    pub s: Seq<nat>,
    pub z: nat,
    pub t: nat,
    pub f: nat,
}

/// The values of a list of lists of scalars.
pub open spec fn lists_vals<F: PrimeField>(s: Seq<Vec<F>>) -> Seq<Seq<nat>> {
    Seq::new(s.len(), |i: int| vals(s[i]@))
}

/// The values of the polynomials with the given chunk evaluations at `pt`.
pub open spec fn combine_lists(p: nat, chunks: Seq<Seq<nat>>, pt: nat) -> Seq<nat> {
    Seq::new(chunks.len(), |i: int| poly_eval(p, chunks[i], pt))
}

/// The evaluations put together from those of the chunks with the powers of `pt`.
pub open spec fn combined_of(p: nat, e: EvalsModel, pt: nat) -> CombinedModel {
    CombinedModel {
        w: combine_lists(p, e.w, pt),
        s: combine_lists(p, e.s, pt),
        z: poly_eval(p, e.z, pt),
        t: poly_eval(p, e.t, pt),
        f: poly_eval(p, e.f, pt),
    }
}

impl<F: PrimeField> ProofEvaluations<Vec<F>> {
    /// The values of the evaluations.
    pub open spec fn view(&self) -> EvalsModel {
        EvalsModel {
            w: lists_vals(self.w@),
            z: vals(self.z@),
            t: vals(self.t@),
            f: vals(self.f@),
            s: lists_vals(self.s@),
        }
    }
}

impl<F: PrimeField> ProofEvaluations<F> {
    /// The values of the evaluations.
    pub open spec fn view(&self) -> CombinedModel {
        CombinedModel {
            w: vals(self.w@),
            s: vals(self.s@),
            z: self.z.val(),
            t: self.t.val(),
            f: self.f.val(),
        }
    }
}

impl<F: PrimeField> ProofEvaluations<F> {
    /// The evaluations that are all zero: one for each witness column, and one for
    /// each but the last of the permutation polynomials.
    pub fn zero() -> (r: Self)
        ensures
            r.w@.len() == WIRES,
            r.s@.len() == PERMUTS - 1,
            r@ == (CombinedModel {
                w: Seq::new(WIRES as nat, |i: int| 0nat),
                s: Seq::new((PERMUTS - 1) as nat, |i: int| 0nat),
                z: 0,
                t: 0,
                f: 0,
            }),
    {
        let z: F = F::zero();
        let r = ProofEvaluations {
            w: filled(z, WIRES),
            z,
            t: z,
            f: z,
            s: filled(z, PERMUTS - 1),
        };
        proof {
            assert(vals(r.w@) =~= Seq::new(WIRES as nat, |i: int| 0nat));
            assert(vals(r.s@) =~= Seq::new((PERMUTS - 1) as nat, |i: int| 0nat));
        }
        r
    }
}

impl<F: PrimeField> ProofEvaluations<Vec<F>> {
    /// Puts the chunk evaluations of every polynomial together: each list of chunk
    /// evaluations is read as the coefficients of a polynomial in `pt`.
    pub fn combine(&self, pt: F) -> (r: ProofEvaluations<F>)
        ensures
            r@ == combined_of(F::modulus(), self@, pt.val()),
            r.w@.len() == self.w@.len(),
            r.s@.len() == self.s@.len(),
    {
        let r = ProofEvaluations {
            s: combine_list(&self.s, pt),
            w: combine_list(&self.w, pt),
            z: eval_polynomial(self.z.as_slice(), pt),
            t: eval_polynomial(self.t.as_slice(), pt),
            f: eval_polynomial(self.f.as_slice(), pt),
        };
        proof {
            assert(combine_all(self.s@, pt.val()) =~= combine_lists(
                F::modulus(),
                lists_vals(self.s@),
                pt.val(),
            ));
            assert(combine_all(self.w@, pt.val()) =~= combine_lists(
                F::modulus(),
                lists_vals(self.w@),
                pt.val(),
            ));
            assert(vals(r.w@).len() == r.w@.len());
            assert(vals(r.s@).len() == r.s@.len());
        }
        r
    }
}

/// The challenges of the argument, and the short challenges that four of them were
/// read from.
pub struct RandomOracles<F: PrimeField> {
    pub beta: F,
    pub gamma: F,
    pub alpha_chal: ScalarChallenge<F>,
    pub alpha: F,
    pub zeta: F,
    pub v: F,
    pub u: F,
    pub zeta_chal: ScalarChallenge<F>,
    pub v_chal: ScalarChallenge<F>,
    pub u_chal: ScalarChallenge<F>,
}

impl<F: PrimeField> RandomOracles<F> {
    /// Whether every challenge is zero.
    pub open spec fn is_zero(&self) -> bool {
        &&& self.beta.val() == 0
        &&& self.gamma.val() == 0
        &&& self.alpha.val() == 0
        &&& self.zeta.val() == 0
        &&& self.v.val() == 0
        &&& self.u.val() == 0
        &&& self.alpha_chal.0.val() == 0
        &&& self.zeta_chal.0.val() == 0
        &&& self.v_chal.0.val() == 0
        &&& self.u_chal.0.val() == 0
    }

    /// The record with every challenge zero.
    pub fn zero() -> (r: Self)
        ensures
            r.is_zero(),
    {
        let c: ScalarChallenge<F> = ScalarChallenge(F::zero());
        RandomOracles {
            beta: F::zero(),
            gamma: F::zero(),
            alpha: F::zero(),
            zeta: F::zero(),
            v: F::zero(),
            u: F::zero(),
            alpha_chal: c,
            zeta_chal: c,
            v_chal: c,
            u_chal: c,
        }
    }
}

/// The evaluations of a proof with the witness columns and the permutation
/// polynomials as tuples.
pub struct CamlProofEvaluations<F> {
    pub w: (Vec<F>, Vec<F>, Vec<F>, Vec<F>, Vec<F>),
    pub z: Vec<F>,
    pub t: Vec<F>,
    pub f: Vec<F>,
    pub s: (Vec<F>, Vec<F>, Vec<F>, Vec<F>),
}

impl<F> CamlProofEvaluations<F> {
    /// The columns of the record, in order.
    pub open spec fn columns(&self) -> Seq<Seq<F>> {
        seq![self.w.0@, self.w.1@, self.w.2@, self.w.3@, self.w.4@]
    }

    /// The permutation evaluations of the record, in order.
    pub open spec fn sigmas(&self) -> Seq<Seq<F>> {
        seq![self.s.0@, self.s.1@, self.s.2@, self.s.3@]
    }

    /// The record with the same evaluations. The lists of more than `COLUMNS` columns
    /// or `COLUMNS - 1` permutation polynomials lose what is beyond.
    pub fn from(pe: ProofEvaluations<Vec<F>>) -> (r: Self)
        requires
            pe.w@.len() >= COLUMNS,
            pe.s@.len() >= COLUMNS - 1,
        ensures
            forall|i: int| 0 <= i < COLUMNS ==> #[trigger] r.columns()[i] == pe.w@[i]@,
            forall|i: int| 0 <= i < COLUMNS - 1 ==> #[trigger] r.sigmas()[i] == pe.s@[i]@,
            r.z@ == pe.z@,
            r.t@ == pe.t@,
            r.f@ == pe.f@,
    {
        let mut pe = pe;
        let mut w = pe.w;
        let mut s = pe.s;
        let ghost w0 = w@;
        let ghost s0 = s@;
        w.truncate(COLUMNS);
        s.truncate(COLUMNS - 1);
        let w4 = w.pop().unwrap();
        let w3 = w.pop().unwrap();
        let w2 = w.pop().unwrap();
        let w1 = w.pop().unwrap();
        let w0v = w.pop().unwrap();
        let s3 = s.pop().unwrap();
        let s2 = s.pop().unwrap();
        let s1 = s.pop().unwrap();
        let s0v = s.pop().unwrap();
        CamlProofEvaluations {
            w: (w0v, w1, w2, w3, w4),
            z: pe.z,
            t: pe.t,
            f: pe.f,
            s: (s0v, s1, s2, s3),
        }
    }

    /// The record with the same evaluations and the columns as lists.
    pub fn into(self) -> (r: ProofEvaluations<Vec<F>>)
        ensures
            r.w@.len() == COLUMNS,
            r.s@.len() == COLUMNS - 1,
            forall|i: int| 0 <= i < COLUMNS ==> (#[trigger] r.w@[i])@ == self.columns()[i],
            forall|i: int| 0 <= i < COLUMNS - 1 ==> (#[trigger] r.s@[i])@ == self.sigmas()[i],
            r.z@ == self.z@,
            r.t@ == self.t@,
            r.f@ == self.f@,
    {
        let mut w: Vec<Vec<F>> = Vec::new();
        w.push(self.w.0);
        w.push(self.w.1);
        w.push(self.w.2);
        w.push(self.w.3);
        w.push(self.w.4);
        let mut s: Vec<Vec<F>> = Vec::new();
        s.push(self.s.0);
        s.push(self.s.1);
        s.push(self.s.2);
        s.push(self.s.3);
        ProofEvaluations { w, z: self.z, t: self.t, f: self.f, s }
    }
}

/// The challenges of the argument in the shape that the bindings take.
pub struct CamlRandomOracles<F: PrimeField> {
    pub beta: F,
    pub gamma: F,
    pub alpha_chal: ScalarChallenge<F>,
    pub alpha: F,
    pub zeta: F,
    pub v: F,
    pub u: F,
    pub zeta_chal: ScalarChallenge<F>,
    pub v_chal: ScalarChallenge<F>,
    pub u_chal: ScalarChallenge<F>,
}

impl<F: PrimeField> CamlRandomOracles<F> {
    /// The record with the same challenges.
    pub fn from(ro: RandomOracles<F>) -> (r: Self)
        ensures
            r.beta == ro.beta,
            r.gamma == ro.gamma,
            r.alpha_chal == ro.alpha_chal,
            r.alpha == ro.alpha,
            r.zeta == ro.zeta,
            r.v == ro.v,
            r.u == ro.u,
            r.zeta_chal == ro.zeta_chal,
            r.v_chal == ro.v_chal,
            r.u_chal == ro.u_chal,
    {
        CamlRandomOracles {
            beta: ro.beta,
            gamma: ro.gamma,
            alpha_chal: ro.alpha_chal,
            alpha: ro.alpha,
            zeta: ro.zeta,
            v: ro.v,
            u: ro.u,
            zeta_chal: ro.zeta_chal,
            v_chal: ro.v_chal,
            u_chal: ro.u_chal,
        }
    }

    /// The record with the same challenges.
    pub fn into(self) -> (r: RandomOracles<F>)
        ensures
            r.beta == self.beta,
            r.gamma == self.gamma,
            r.alpha_chal == self.alpha_chal,
            r.alpha == self.alpha,
            r.zeta == self.zeta,
            r.v == self.v,
            r.u == self.u,
            r.zeta_chal == self.zeta_chal,
            r.v_chal == self.v_chal,
            r.u_chal == self.u_chal,
    {
        RandomOracles {
            beta: self.beta,
            gamma: self.gamma,
            alpha_chal: self.alpha_chal,
            alpha: self.alpha,
            zeta: self.zeta,
            v: self.v,
            u: self.u,
            zeta_chal: self.zeta_chal,
            v_chal: self.v_chal,
            u_chal: self.u_chal,
        }
    }
}

} // verus!
