//! The constraints of the generic gate, of the round of the Poseidon permutation and
//! of the addition of two curve points, with what each contributes to the quotient
//! and to the linearization.

use crate::arith::{fadd, fmul, fsub};
use crate::constraints::{
    column_values, read_columns, weighted, weighted_sum, ConstraintSystem, WitnessOverDomains,
};
use crate::evaluations::Evaluations;
use crate::field::{vals, PrimeField};
use crate::poly::{poly_add, poly_scale, DensePolynomial, Utils};
use crate::poseidon::{dot, sbox, sbox_spec, ArithmeticSpongeParams, SPONGE_WIDTH};
use crate::scalars::ProofEvaluations;
use vstd::prelude::*;

verus! {

/// The value of the generic gate without its constant: `ql w0 + qr w1 + qo w2 + qm w0 w1`.
pub open spec fn generic_value(p: nat, w: Seq<nat>, ql: nat, qr: nat, qo: nat, qm: nat) -> nat {
    fadd(
        p,
        fadd(p, fadd(p, fmul(p, ql, w[0]), fmul(p, qr, w[1])), fmul(p, qo, w[2])),
        fmul(p, qm, fmul(p, w[0], w[1])),
    )
}

/// The values that must be zero between a row and the next one of a round of the
/// permutation of the hash: for each of the three cells `k` of the state, row `k` of
/// the matrix times the fifth powers of the cells, plus the round constant, minus
/// cell `k` of the next row. The round constant is left to the selector of the
/// constants.
pub open spec fn psdn_constraints(p: nat, mds: Seq<Seq<nat>>, this: Seq<nat>, next: Seq<nat>) -> Seq<
    nat,
> {
    let boxed = Seq::new(SPONGE_WIDTH as nat, |j: int| sbox_spec(p, this[j]));
    Seq::new(SPONGE_WIDTH as nat, |k: int| fsub(p, dot(p, mds[k], boxed, SPONGE_WIDTH as nat), next[k]))
}

/// The values that must be zero on the row of an addition of the points `P` and `Q`
/// to `S` with the slope `s`, the cells being `xP, yP, xQ, yQ, xS, yS, s`:
/// `(xQ - xP) s - (yQ - yP)`, `s^2 - (xP + xQ + xS)` and `s (xP - xS) - (yS + yP)`.
pub open spec fn ecad_constraints(p: nat, w: Seq<nat>) -> Seq<nat> {
    seq![
        fsub(p, fmul(p, fsub(p, w[2], w[0]), w[6]), fsub(p, w[3], w[1])),
        fsub(p, fmul(p, w[6], w[6]), fadd(p, fadd(p, w[0], w[2]), w[4])),
        fsub(p, fmul(p, w[6], fsub(p, w[0], w[4])), fadd(p, w[5], w[1])),
    ]
}

/// The values that must be zero between two rows of a round of the permutation.
pub fn psdn_values<F: PrimeField>(params: &ArithmeticSpongeParams<F>, this: &[F], next: &[F]) -> (r:
    Vec<F>)
    requires
        params.wf(),
        this@.len() >= SPONGE_WIDTH,
        next@.len() >= SPONGE_WIDTH,
    ensures
        r@.len() == SPONGE_WIDTH,
        vals(r@) == psdn_constraints(F::modulus(), params.matrix(), vals(this@), vals(next@)),
{
    let mut boxed: Vec<F> = Vec::new();
    boxed.push(sbox(this[0]));
    boxed.push(sbox(this[1]));
    boxed.push(sbox(this[2]));
    let ghost bx = Seq::new(
        SPONGE_WIDTH as nat,
        |j: int| sbox_spec(F::modulus(), vals(this@)[j]),
    );
    assert(vals(boxed@) =~= bx);
    let mut out: Vec<F> = Vec::new();
    let mut k: usize = 0;
    while k < SPONGE_WIDTH
        invariant
            k <= SPONGE_WIDTH,
            params.wf(),
            next@.len() >= SPONGE_WIDTH,
            boxed@.len() == SPONGE_WIDTH,
            vals(boxed@) == bx,
            out@.len() == k,
            forall|i: int|
                0 <= i < k ==> (#[trigger] out@[i]).val() == fsub(
                    F::modulus(),
                    dot(F::modulus(), params.matrix()[i], bx, SPONGE_WIDTH as nat),
                    next@[i].val(),
                ),
        decreases SPONGE_WIDTH - k,
    {
        let row = &params.mds[k];
        let mut acc: F = F::zero();
        let mut j: usize = 0;
        while j < SPONGE_WIDTH
            invariant
                j <= SPONGE_WIDTH,
                row@.len() == SPONGE_WIDTH,
                boxed@.len() == SPONGE_WIDTH,
                vals(boxed@) == bx,
                acc.val() == dot(F::modulus(), vals(row@), bx, j as nat),
            decreases SPONGE_WIDTH - j,
        {
            acc = row[j].mul(&boxed[j]).add(&acc);
            j = j + 1;
        }
        out.push(acc.sub(&next[k]));
        k = k + 1;
    }
    assert(vals(out@) =~= psdn_constraints(
        F::modulus(),
        params.matrix(),
        vals(this@),
        vals(next@),
    ));
    out
}

/// The values that must be zero on the row of an addition of points.
pub fn ecad_values<F: PrimeField>(w: &[F]) -> (r: Vec<F>)
    requires
        w@.len() >= 7,
    ensures
        r@.len() == 3,
        vals(r@) == ecad_constraints(F::modulus(), vals(w@)),
{
    let mut out: Vec<F> = Vec::new();
    out.push(w[2].sub(&w[0]).mul(&w[6]).sub(&w[3].sub(&w[1])));
    out.push(w[6].mul(&w[6]).sub(&w[0].add(&w[2]).add(&w[4])));
    out.push(w[6].mul(&w[0].sub(&w[4])).sub(&w[5].add(&w[1])));
    assert(vals(out@) =~= ecad_constraints(F::modulus(), vals(w@)));
    out
}

/// The three selectors of the round constants, each times its power of `alpha`,
/// summed.
pub open spec fn constants_poly(p: nat, rc: Seq<Seq<nat>>, alpha: Seq<nat>) -> Seq<nat> {
    poly_add(
        p,
        poly_add(p, poly_scale(p, rc[0], alpha[0]), poly_scale(p, rc[1], alpha[1])),
        poly_scale(p, rc[2], alpha[2]),
    )
}

/// The coefficients of the selectors of the round constants.
pub open spec fn rc_polys<F: PrimeField>(cs: &ConstraintSystem<F>) -> Seq<Seq<nat>> {
    Seq::new(cs.rc@.len(), |k: int| cs.rc@[k].m@)
}

/// The linearization of the generic gate: the five selectors, each times its scalar.
pub open spec fn generic_lnrz_spec(
    p: nat,
    ql: Seq<nat>,
    qr: Seq<nat>,
    qo: Seq<nat>,
    qm: Seq<nat>,
    qc: Seq<nat>,
    w: Seq<nat>,
) -> Seq<nat> {
    poly_add(
        p,
        poly_add(
            p,
            poly_add(
                p,
                poly_add(p, poly_scale(p, ql, w[0]), poly_scale(p, qr, w[1])),
                poly_scale(p, qo, w[2]),
            ),
            poly_scale(p, qm, fmul(p, w[0], w[1])),
        ),
        qc,
    )
}

impl<F: PrimeField> ConstraintSystem<F> {
    /// The contribution of the generic gates to the quotient polynomial: by values on
    /// the domain of four times the size the part that depends on the witness, and by
    /// coefficients the constants with the polynomial `p` of the public inputs.
    pub fn gnrc_quot(&self, polys: &WitnessOverDomains<F>, p: &DensePolynomial<F>) -> (r: (
        Evaluations<F>,
        DensePolynomial<F>,
    ))
        requires
            self.wf(),
            polys.fits(self.domain.d1.size as nat),
        ensures
            r.0@.len() == self.domain.d4.size,
            forall|x: int|
                0 <= x < self.domain.d4.size ==> #[trigger] r.0@[x] == generic_value(
                    F::modulus(),
                    column_values(polys.d4.this.w@, x),
                    self.ql.l4@[x],
                    self.qr.l4@[x],
                    self.qo.l4@[x],
                    self.qm.l4@[x],
                ),
            r.1@ == poly_add(F::modulus(), self.qc.m@, p@),
    {
        let n4: usize = self.domain.d4.size;
        let mut out: Vec<F> = Vec::new();
        let mut x: usize = 0;
        while x < n4
            invariant
                x <= n4,
                n4 == self.domain.d4.size,
                n4 == 4 * self.domain.d1.size,
                self.wf(),
                polys.fits(self.domain.d1.size as nat),
                out@.len() == x,
                forall|y: int|
                    0 <= y < x ==> (#[trigger] out@[y]).val() == generic_value(
                        F::modulus(),
                        column_values(polys.d4.this.w@, y),
                        self.ql.l4@[y],
                        self.qr.l4@[y],
                        self.qo.l4@[y],
                        self.qm.l4@[y],
                    ),
            decreases n4 - x,
        {
            let w: Vec<F> = read_columns(&polys.d4.this.w, x);
            let v: F = self.ql.l4.evals[x].mul(&w[0]).add(&self.qr.l4.evals[x].mul(&w[1])).add(
                &self.qo.l4.evals[x].mul(&w[2]),
            ).add(&self.qm.l4.evals[x].mul(&w[0].mul(&w[1])));
            out.push(v);
            x = x + 1;
        }
        let e = Evaluations { evals: out };
        assert forall|y: int| 0 <= y < n4 implies #[trigger] e@[y] == generic_value(
            F::modulus(),
            column_values(polys.d4.this.w@, y),
            self.ql.l4@[y],
            self.qr.l4@[y],
            self.qo.l4@[y],
            self.qm.l4@[y],
        ) by {
            assert(e@[y] == e.evals@[y].val());
        }
        (e, self.qc.m.plus(p))
    }

    /// The linearization of the generic gates at the evaluations `e` of the witness.
    pub fn gnrc_lnrz(&self, e: &ProofEvaluations<F>) -> (r: DensePolynomial<F>)
        requires
            e.w@.len() >= 3,
        ensures
            r@ == generic_lnrz_spec(
                F::modulus(),
                self.ql.m@,
                self.qr.m@,
                self.qo.m@,
                self.qm.m@,
                self.qc.m@,
                vals(e.w@),
            ),
    {
        self.ql.m.scale(e.w[0]).plus(&self.qr.m.scale(e.w[1])).plus(&self.qo.m.scale(e.w[2])).plus(
            &self.qm.m.scale(e.w[0].mul(&e.w[1])),
        ).plus(&self.qc.m)
    }

    /// The contribution of the rounds of the permutation of the hash to the quotient
    /// polynomial: by values on the domain of eight times the size the constraints
    /// weighted with their powers of `alpha` on the rows of that gate, and by
    /// coefficients the round constants with the same powers.
    pub fn psdn_quot(&self, polys: &WitnessOverDomains<F>, alpha: &[F]) -> (r: (
        Evaluations<F>,
        DensePolynomial<F>,
    ))
        requires
            self.wf(),
            polys.fits(self.domain.d1.size as nat),
            alpha@.len() >= SPONGE_WIDTH,
        ensures
            r.0@.len() == self.domain.d8.size,
            forall|x: int|
                0 <= x < self.domain.d8.size ==> #[trigger] r.0@[x] == fmul(
                    F::modulus(),
                    weighted_sum(
                        F::modulus(),
                        psdn_constraints(
                            F::modulus(),
                            self.fr_sponge_params.matrix(),
                            column_values(polys.d8.this.w@, x),
                            column_values(polys.d8.next.w@, x),
                        ),
                        vals(alpha@),
                        0,
                        SPONGE_WIDTH as nat,
                    ),
                    self.ps.l8@[x],
                ),
            r.1@ == constants_poly(F::modulus(), rc_polys(self), vals(alpha@)),
    {
        let n8: usize = self.domain.d8.size;
        let mut out: Vec<F> = Vec::new();
        let mut x: usize = 0;
        while x < n8
            invariant
                x <= n8,
                n8 == self.domain.d8.size,
                n8 == 8 * self.domain.d1.size,
                self.wf(),
                polys.fits(self.domain.d1.size as nat),
                alpha@.len() >= SPONGE_WIDTH,
                out@.len() == x,
                forall|y: int|
                    0 <= y < x ==> (#[trigger] out@[y]).val() == fmul(
                        F::modulus(),
                        weighted_sum(
                            F::modulus(),
                            psdn_constraints(
                                F::modulus(),
                                self.fr_sponge_params.matrix(),
                                column_values(polys.d8.this.w@, y),
                                column_values(polys.d8.next.w@, y),
                            ),
                            vals(alpha@),
                            0,
                            SPONGE_WIDTH as nat,
                        ),
                        self.ps.l8@[y],
                    ),
            decreases n8 - x,
        {
            let this: Vec<F> = read_columns(&polys.d8.this.w, x);
            let next: Vec<F> = read_columns(&polys.d8.next.w, x);
            let c: Vec<F> = psdn_values(&self.fr_sponge_params, this.as_slice(), next.as_slice());
            out.push(weighted(c.as_slice(), alpha, 0, SPONGE_WIDTH).mul(&self.ps.l8.evals[x]));
            x = x + 1;
        }
        let e = Evaluations { evals: out };
        assert forall|y: int| 0 <= y < n8 implies #[trigger] e@[y] == fmul(
            F::modulus(),
            weighted_sum(
                F::modulus(),
                psdn_constraints(
                    F::modulus(),
                    self.fr_sponge_params.matrix(),
                    column_values(polys.d8.this.w@, y),
                    column_values(polys.d8.next.w@, y),
                ),
                vals(alpha@),
                0,
                SPONGE_WIDTH as nat,
            ),
            self.ps.l8@[y],
        ) by {
            assert(e@[y] == e.evals@[y].val());
        }
        let posp: DensePolynomial<F> = self.rc[0].m.scale(alpha[0]).plus(
            &self.rc[1].m.scale(alpha[1]),
        ).plus(&self.rc[2].m.scale(alpha[2]));
        (e, posp)
    }

    /// The scalar by which the selector of the rounds of the permutation goes into
    /// the linearization.
    pub fn psdn_scalars(
        evals: &Vec<ProofEvaluations<F>>,
        params: &ArithmeticSpongeParams<F>,
        alpha: &[F],
    ) -> (r: F)
        requires
            params.wf(),
            evals@.len() >= 2,
            evals@[0].w@.len() >= SPONGE_WIDTH,
            evals@[1].w@.len() >= SPONGE_WIDTH,
            alpha@.len() >= SPONGE_WIDTH,
        ensures
            r.val() == weighted_sum(
                F::modulus(),
                psdn_constraints(
                    F::modulus(),
                    params.matrix(),
                    vals(evals@[0].w@),
                    vals(evals@[1].w@),
                ),
                vals(alpha@),
                0,
                SPONGE_WIDTH as nat,
            ),
    {
        let c: Vec<F> = psdn_values(params, evals[0].w.as_slice(), evals[1].w.as_slice());
        weighted(c.as_slice(), alpha, 0, SPONGE_WIDTH)
    }

    /// The linearization of the rounds of the permutation: the selector of that gate
    /// times its scalar, and the selectors of the round constants times their powers
    /// of `alpha`.
    pub fn psdn_lnrz(&self, evals: &Vec<ProofEvaluations<F>>, alpha: &[F]) -> (r: DensePolynomial<
        F,
    >)
        requires
            self.wf(),
            evals@.len() >= 2,
            evals@[0].w@.len() >= SPONGE_WIDTH,
            evals@[1].w@.len() >= SPONGE_WIDTH,
            alpha@.len() >= SPONGE_WIDTH,
        ensures
            r@ == poly_add(
                F::modulus(),
                poly_scale(
                    F::modulus(),
                    self.ps.m@,
                    weighted_sum(
                        F::modulus(),
                        psdn_constraints(
                            F::modulus(),
                            self.fr_sponge_params.matrix(),
                            vals(evals@[0].w@),
                            vals(evals@[1].w@),
                        ),
                        vals(alpha@),
                        0,
                        SPONGE_WIDTH as nat,
                    ),
                ),
                constants_poly(F::modulus(), rc_polys(self), vals(alpha@)),
            ),
    {
        let s: F = Self::psdn_scalars(evals, &self.fr_sponge_params, alpha);
        let posp: DensePolynomial<F> = self.rc[0].m.scale(alpha[0]).plus(
            &self.rc[1].m.scale(alpha[1]),
        ).plus(&self.rc[2].m.scale(alpha[2]));
        self.ps.m.scale(s).plus(&posp)
    }

    /// The contribution of the additions of points to the quotient polynomial, by
    /// values on the domain of four times the size.
    pub fn ecad_quot(&self, polys: &WitnessOverDomains<F>, alpha: &[F]) -> (r: Evaluations<F>)
        requires
            self.wf(),
            polys.fits(self.domain.d1.size as nat),
            alpha@.len() >= 3,
        ensures
            r@.len() == self.domain.d4.size,
            forall|x: int|
                0 <= x < self.domain.d4.size ==> #[trigger] r@[x] == fmul(
                    F::modulus(),
                    weighted_sum(
                        F::modulus(),
                        ecad_constraints(F::modulus(), column_values(polys.d4.this.w@, x)),
                        vals(alpha@),
                        0,
                        3,
                    ),
                    self.add.l4@[x],
                ),
    {
        let n4: usize = self.domain.d4.size;
        let mut out: Vec<F> = Vec::new();
        let mut x: usize = 0;
        while x < n4
            invariant
                x <= n4,
                n4 == self.domain.d4.size,
                n4 == 4 * self.domain.d1.size,
                self.wf(),
                polys.fits(self.domain.d1.size as nat),
                alpha@.len() >= 3,
                out@.len() == x,
                forall|y: int|
                    0 <= y < x ==> (#[trigger] out@[y]).val() == fmul(
                        F::modulus(),
                        weighted_sum(
                            F::modulus(),
                            ecad_constraints(F::modulus(), column_values(polys.d4.this.w@, y)),
                            vals(alpha@),
                            0,
                            3,
                        ),
                        self.add.l4@[y],
                    ),
            decreases n4 - x,
        {
            let w: Vec<F> = read_columns(&polys.d4.this.w, x);
            let c: Vec<F> = ecad_values(w.as_slice());
            out.push(weighted(c.as_slice(), alpha, 0, 3).mul(&self.add.l4.evals[x]));
            x = x + 1;
        }
        let e = Evaluations { evals: out };
        assert forall|y: int| 0 <= y < n4 implies #[trigger] e@[y] == fmul(
            F::modulus(),
            weighted_sum(
                F::modulus(),
                ecad_constraints(F::modulus(), column_values(polys.d4.this.w@, y)),
                vals(alpha@),
                0,
                3,
            ),
            self.add.l4@[y],
        ) by {
            assert(e@[y] == e.evals@[y].val());
        }
        e
    }

    /// The scalar by which the selector of the additions goes into the linearization.
    pub fn ecad_scalars(evals: &Vec<ProofEvaluations<F>>, alpha: &[F]) -> (r: F)
        requires
            evals@.len() >= 1,
            evals@[0].w@.len() >= 7,
            alpha@.len() >= 3,
        ensures
            r.val() == weighted_sum(
                F::modulus(),
                ecad_constraints(F::modulus(), vals(evals@[0].w@)),
                vals(alpha@),
                0,
                3,
            ),
    {
        let c: Vec<F> = ecad_values(evals[0].w.as_slice());
        weighted(c.as_slice(), alpha, 0, 3)
    }

    /// The linearization of the additions: their selector times the scalar.
    pub fn ecad_lnrz(&self, evals: &Vec<ProofEvaluations<F>>, alpha: &[F]) -> (r: DensePolynomial<
        F,
    >)
        requires
            evals@.len() >= 1,
            evals@[0].w@.len() >= 7,
            alpha@.len() >= 3,
        ensures
            r@ == poly_scale(
                F::modulus(),
                self.add.m@,
                weighted_sum(
                    F::modulus(),
                    ecad_constraints(F::modulus(), vals(evals@[0].w@)),
                    vals(alpha@),
                    0,
                    3,
                ),
            ),
    {
        self.add.m.scale(Self::ecad_scalars(evals, alpha))
    }
}

} // verus!
