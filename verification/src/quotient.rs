//! The quotient polynomial: what all gates and the permutation contribute, divided by
//! the polynomial that vanishes on the rows.

use crate::arith::fmul;
use crate::constraints::{column_values, weighted_sum, ConstraintSystem, WitnessOverDomains, WIRES};
use crate::error::ProofError;
use crate::evaluations::{ev_add, idft_spec, Evaluations};
use crate::field::{vals, PrimeField};
use crate::permutation::{boundary_spec, minus_one, perm_quot_at, sigma_values};
use crate::poly::{poly_add, poly_eval, vanishing_quotient, vanishing_remainder, DensePolynomial};
use crate::polynomials::{
    constants_poly, ecad_constraints, generic_value, psdn_constraints, rc_polys,
};
use crate::prover::{columns_at, lagrange_spec, poly_views, resize_exact, LagrangeModel};
use crate::satisfy::all_zero;
use crate::scalars::RandomOracles;
use crate::transcript::{ALPHAS, ALPHA_ADD, ALPHA_MUL, ALPHA_PERM, ALPHA_PSDN};
use crate::varbasemul::{vbmul_quot_at, VBMUL_CONSTRAINTS, VBMUL_LOW};
use vstd::prelude::*;

verus! {

/// The contribution of the generic gates on the domain of four times the size.
#[verifier::opaque]
pub open spec fn gen4_spec<F: PrimeField>(cs: &ConstraintSystem<F>, l: LagrangeModel) -> Seq<nat> {
    Seq::new(
        cs.domain.d4.size as nat,
        |x: int|
            generic_value(
                F::modulus(),
                columns_at(l.w4, x),
                cs.ql.l4@[x],
                cs.qr.l4@[x],
                cs.qo.l4@[x],
                cs.qm.l4@[x],
            ),
    )
}

/// The contribution of the additions of points on the domain of four times the size.
#[verifier::opaque]
pub open spec fn eca4_spec<F: PrimeField>(cs: &ConstraintSystem<F>, l: LagrangeModel, a: Seq<nat>) -> Seq<
    nat,
> {
    Seq::new(
        cs.domain.d4.size as nat,
        |x: int|
            fmul(
                F::modulus(),
                weighted_sum(
                    F::modulus(),
                    ecad_constraints(F::modulus(), columns_at(l.w4, x)),
                    a,
                    0,
                    3,
                ),
                cs.add.l4@[x],
            ),
    )
}

/// Whether the circuit has no scalar multiplication.
pub open spec fn no_multiplication<F: PrimeField>(cs: &ConstraintSystem<F>) -> bool {
    cs.mul.m@ =~= crate::open::zeros(cs.mul.m@.len())
}

/// The contribution of the scalar multiplications on the domain of four times the
/// size.
#[verifier::opaque]
pub open spec fn mul4_spec<F: PrimeField>(cs: &ConstraintSystem<F>, l: LagrangeModel, a: Seq<nat>) -> Seq<
    nat,
> {
    Seq::new(
        cs.domain.d4.size as nat,
        |x: int|
            if no_multiplication(cs) {
                0
            } else {
                vbmul_quot_at(
                    F::modulus(),
                    columns_at(l.w4, x),
                    columns_at(l.w4n, x),
                    a,
                    cs.mul.l4@[x],
                    0,
                    VBMUL_LOW as nat,
                )
            },
    )
}

/// The contribution of the scalar multiplications on the domain of eight times the
/// size.
#[verifier::opaque]
pub open spec fn mul8_spec<F: PrimeField>(cs: &ConstraintSystem<F>, l: LagrangeModel, a: Seq<nat>) -> Seq<
    nat,
> {
    Seq::new(
        cs.domain.d8.size as nat,
        |x: int|
            if no_multiplication(cs) {
                0
            } else {
                vbmul_quot_at(
                    F::modulus(),
                    columns_at(l.w8, x),
                    columns_at(l.w8n, x),
                    a,
                    cs.mul.l8@[x],
                    VBMUL_LOW as nat,
                    VBMUL_CONSTRAINTS as nat,
                )
            },
    )
}

/// The contribution of the rounds of the permutation of the hash on the domain of
/// eight times the size.
#[verifier::opaque]
pub open spec fn pos8_spec<F: PrimeField>(cs: &ConstraintSystem<F>, l: LagrangeModel, a: Seq<nat>) -> Seq<
    nat,
> {
    Seq::new(
        cs.domain.d8.size as nat,
        |x: int|
            fmul(
                F::modulus(),
                weighted_sum(
                    F::modulus(),
                    psdn_constraints(
                        F::modulus(),
                        cs.fr_sponge_params.matrix(),
                        columns_at(l.w8, x),
                        columns_at(l.w8n, x),
                    ),
                    a,
                    0,
                    3,
                ),
                cs.ps.l8@[x],
            ),
    )
}

/// The contribution of the permutation on the domain of eight times the size.
#[verifier::opaque]
pub open spec fn perm8_spec<F: PrimeField>(
    cs: &ConstraintSystem<F>,
    l: LagrangeModel,
    beta: nat,
    gamma: nat,
    alpha: nat,
) -> Seq<nat> {
    Seq::new(
        cs.domain.d8.size as nat,
        |x: int|
            perm_quot_at(
                F::modulus(),
                columns_at(l.w8, x),
                l.z8[x],
                l.z8n[x],
                cs.one.l8@[x],
                cs.id.l8@[x],
                sigma_values(cs, x),
                vals(cs.shift@),
                cs.zkp.l8@[x],
                beta,
                gamma,
                alpha,
            ),
    )
}

/// The polynomial cut or filled with zeros to `len` coefficients.
pub open spec fn resized(c: Seq<nat>, len: nat) -> Seq<nat> {
    Seq::new(
        len,
        |i: int|
            if i < c.len() {
                c[i]
            } else {
                0
            },
    )
}

/// The sum of all contributions before it is divided: the two sums of values,
/// brought back to coefficients, with the constants of the generic gates, the
/// polynomial of the public inputs and the round constants.
pub open spec fn numerator_spec<F: PrimeField>(
    cs: &ConstraintSystem<F>,
    l: LagrangeModel,
    pp: Seq<nat>,
    beta: nat,
    gamma: nat,
    alpha: nat,
    alphas: Seq<nat>,
) -> Seq<nat> {
    let p = F::modulus();
    let a_psdn = alphas.subrange(ALPHA_PSDN as int, ALPHA_ADD as int);
    let a_add = alphas.subrange(ALPHA_ADD as int, ALPHA_MUL as int);
    let a_mul = alphas.subrange(ALPHA_MUL as int, ALPHAS as int);
    let t4 = ev_add(p, ev_add(p, gen4_spec(cs, l), eca4_spec(cs, l, a_add)), mul4_spec(cs, l, a_mul));
    let t8 = ev_add(
        p,
        ev_add(p, pos8_spec(cs, l, a_psdn), mul8_spec(cs, l, a_mul)),
        perm8_spec(cs, l, beta, gamma, alpha),
    );
    poly_add(
        p,
        poly_add(
            p,
            idft_spec(p, cs.domain.d4.group_gen.val(), cs.domain.d4.size as nat, t4),
            idft_spec(p, cs.domain.d8.group_gen.val(), cs.domain.d8.size as nat, t8),
        ),
        poly_add(p, poly_add(p, cs.qc.m@, pp), constants_poly(p, rc_polys(cs), a_psdn)),
    )
}

/// The quotient polynomial for the witness polynomials `w`, the aggregation `z` and
/// the polynomial `pp` of the public inputs, with `len` coefficients.
///
/// There is none where `z - 1` does not vanish on the first row and on the third row
/// from the end, where the sum of the contributions leaves a remainder on division by
/// the polynomial that vanishes on the rows, or where the quotient with the boundary
/// quotients has a coefficient beyond `len`.
pub open spec fn quotient_spec<F: PrimeField>(
    cs: &ConstraintSystem<F>,
    w: Seq<Seq<nat>>,
    z: Seq<nat>,
    pp: Seq<nat>,
    beta: nat,
    gamma: nat,
    alpha: nat,
    alphas: Seq<nat>,
    len: nat,
) -> Result<Seq<nat>, ProofError> {
    let p = F::modulus();
    let n = cs.domain.d1.size as nat;
    let last = cs.sid@[n - 3].val();
    let zm1 = minus_one(p, z);
    let sum = numerator_spec(cs, lagrange_spec(cs, w, z), pp, beta, gamma, alpha, alphas);
    let full = poly_add(
        p,
        vanishing_quotient(p, sum, n),
        boundary_spec(p, z, last, alphas[ALPHA_PERM as int], alphas[ALPHA_PERM + 1]),
    );
    if poly_eval(p, zm1, 1) == 0 && poly_eval(p, zm1, last) == 0 && all_zero(
        vanishing_remainder(p, sum, n),
    ) && (forall|i: int| len <= i < full.len() ==> full[i] == 0) {
        Ok(resized(full, len))
    } else {
        Err(ProofError::PolyDivision)
    }
}

/// The values of the columns at a position are those of their views.
pub proof fn lemma_columns<F: PrimeField>(polys: &WitnessOverDomains<F>, x: int)
    ensures
        column_values(polys.d4.this.w@, x) == columns_at(polys@.w4, x),
        column_values(polys.d4.next.w@, x) == columns_at(polys@.w4n, x),
        column_values(polys.d8.this.w@, x) == columns_at(polys@.w8, x),
        column_values(polys.d8.next.w@, x) == columns_at(polys@.w8n, x),
{
    assert(column_values(polys.d4.this.w@, x) =~= columns_at(polys@.w4, x));
    assert(column_values(polys.d4.next.w@, x) =~= columns_at(polys@.w4n, x));
    assert(column_values(polys.d8.this.w@, x) =~= columns_at(polys@.w8, x));
    assert(column_values(polys.d8.next.w@, x) =~= columns_at(polys@.w8n, x));
}

impl<F: PrimeField> ConstraintSystem<F> {
    /// The contribution of the generic gates by values.
    pub fn gnrc_part(&self, polys: &WitnessOverDomains<F>, p: &DensePolynomial<F>) -> (r: (
        Evaluations<F>,
        DensePolynomial<F>,
    ))
        requires
            self.wf(),
            polys.fits(self.domain.d1.size as nat),
        ensures
            r.0@.len() == self.domain.d4.size,
            r.0@ == gen4_spec(self, polys@),
            r.1@ == poly_add(F::modulus(), self.qc.m@, p@),
    {
        let r = self.gnrc_quot(polys, p);
        proof {
            reveal(gen4_spec);
            assert forall|x: int| 0 <= x < self.domain.d4.size implies r.0@[x] == gen4_spec(
                self,
                polys@,
            )[x] by {
                lemma_columns(polys, x);
            }
            assert(r.0@ =~= gen4_spec(self, polys@));
        }
        r
    }

    /// The contribution of the additions of points by values.
    pub fn ecad_part(&self, polys: &WitnessOverDomains<F>, alpha: &[F]) -> (r: Evaluations<F>)
        requires
            self.wf(),
            polys.fits(self.domain.d1.size as nat),
            alpha@.len() >= 3,
        ensures
            r@.len() == self.domain.d4.size,
            r@ == eca4_spec(self, polys@, vals(alpha@)),
    {
        let r = self.ecad_quot(polys, alpha);
        proof {
            reveal(eca4_spec);
            assert forall|x: int| 0 <= x < self.domain.d4.size implies r@[x] == eca4_spec(
                self,
                polys@,
                vals(alpha@),
            )[x] by {
                lemma_columns(polys, x);
            }
            assert(r@ =~= eca4_spec(self, polys@, vals(alpha@)));
        }
        r
    }

    /// The contribution of the scalar multiplications by values.
    pub fn vbmul_part(&self, polys: &WitnessOverDomains<F>, alpha: &[F]) -> (r: (
        Evaluations<F>,
        Evaluations<F>,
    ))
        requires
            self.wf(),
            polys.fits(self.domain.d1.size as nat),
            !no_multiplication(self) ==> alpha@.len() >= VBMUL_CONSTRAINTS,
        ensures
            r.0@.len() == self.domain.d4.size,
            r.1@.len() == self.domain.d8.size,
            r.0@ == mul4_spec(self, polys@, vals(alpha@)),
            r.1@ == mul8_spec(self, polys@, vals(alpha@)),
    {
        let r = self.vbmul_quot(polys, alpha);
        proof {
            reveal(mul4_spec);
            reveal(mul8_spec);
            assert forall|x: int| 0 <= x < self.domain.d4.size implies r.0@[x] == mul4_spec(
                self,
                polys@,
                vals(alpha@),
            )[x] by {
                lemma_columns(polys, x);
            }
            assert(r.0@ =~= mul4_spec(self, polys@, vals(alpha@)));
            assert forall|x: int| 0 <= x < self.domain.d8.size implies r.1@[x] == mul8_spec(
                self,
                polys@,
                vals(alpha@),
            )[x] by {
                lemma_columns(polys, x);
            }
            assert(r.1@ =~= mul8_spec(self, polys@, vals(alpha@)));
        }
        r
    }

    /// The contribution of the rounds of the permutation of the hash by values, and
    /// the round constants.
    pub fn psdn_part(&self, polys: &WitnessOverDomains<F>, alpha: &[F]) -> (r: (
        Evaluations<F>,
        DensePolynomial<F>,
    ))
        requires
            self.wf(),
            polys.fits(self.domain.d1.size as nat),
            alpha@.len() >= 3,
        ensures
            r.0@.len() == self.domain.d8.size,
            r.0@ == pos8_spec(self, polys@, vals(alpha@)),
            r.1@ == constants_poly(F::modulus(), rc_polys(self), vals(alpha@)),
    {
        let r = self.psdn_quot(polys, alpha);
        proof {
            reveal(pos8_spec);
            assert forall|x: int| 0 <= x < self.domain.d8.size implies r.0@[x] == pos8_spec(
                self,
                polys@,
                vals(alpha@),
            )[x] by {
                lemma_columns(polys, x);
            }
            assert(r.0@ =~= pos8_spec(self, polys@, vals(alpha@)));
        }
        r
    }

    /// The contribution of the permutation by values, and its boundary quotients.
    pub fn perm_part(
        &self,
        polys: &WitnessOverDomains<F>,
        oracles: &RandomOracles<F>,
        z: &DensePolynomial<F>,
        alpha: &[F],
    ) -> (r: Result<(Evaluations<F>, DensePolynomial<F>), ProofError>)
        requires
            self.wf(),
            polys.fits(self.domain.d1.size as nat),
            alpha@.len() >= 2,
        ensures
            r is Ok <==> poly_eval(F::modulus(), minus_one(F::modulus(), z@), 1) == 0 && poly_eval(
                F::modulus(),
                minus_one(F::modulus(), z@),
                self.sid@[self.domain.d1.size - 3].val(),
            ) == 0,
            r matches Err(e) ==> e == ProofError::PolyDivision,
            r matches Ok(q) ==> q.0@.len() == self.domain.d8.size,
            r matches Ok(q) ==> q.0@ == perm8_spec(
                self,
                polys@,
                oracles.beta.val(),
                oracles.gamma.val(),
                oracles.alpha.val(),
            ) && q.1@ == boundary_spec(
                F::modulus(),
                z@,
                self.sid@[self.domain.d1.size - 3].val(),
                alpha@[0].val(),
                alpha@[1].val(),
            ),
    {
        match self.perm_quot(polys, oracles, z, alpha) {
            Ok(q) => {
                proof {
                    reveal(perm8_spec);
                    let want = perm8_spec(
                        self,
                        polys@,
                        oracles.beta.val(),
                        oracles.gamma.val(),
                        oracles.alpha.val(),
                    );
                    assert forall|x: int| 0 <= x < self.domain.d8.size implies q.0@[x]
                        == want[x] by {
                        lemma_columns(polys, x);
                    }
                    assert(q.0@ =~= want);
                }
                Ok(q)
            },
            Err(e) => Err(e),
        }
    }

    /// The sum of what all gates and the permutation contribute to the quotient, and
    /// the boundary quotients of the permutation.
    #[verifier::rlimit(50)]
    pub fn numerator(
        &self,
        polys: &WitnessOverDomains<F>,
        z: &DensePolynomial<F>,
        p: &DensePolynomial<F>,
        oracles: &RandomOracles<F>,
        alpha: &Vec<F>,
    ) -> (r: Result<(DensePolynomial<F>, DensePolynomial<F>), ProofError>)
        requires
            self.wf(),
            polys.fits(self.domain.d1.size as nat),
            alpha@.len() == ALPHAS,
        ensures
            r is Ok <==> poly_eval(F::modulus(), minus_one(F::modulus(), z@), 1) == 0 && poly_eval(
                F::modulus(),
                minus_one(F::modulus(), z@),
                self.sid@[self.domain.d1.size - 3].val(),
            ) == 0,
            r matches Err(e) ==> e == ProofError::PolyDivision,
            r matches Ok(q) ==> q.0@ == numerator_spec(
                self,
                polys@,
                p@,
                oracles.beta.val(),
                oracles.gamma.val(),
                oracles.alpha.val(),
                vals(alpha@),
            ) && q.1@ == boundary_spec(
                F::modulus(),
                z@,
                self.sid@[self.domain.d1.size - 3].val(),
                alpha@[ALPHA_PERM as int].val(),
                alpha@[ALPHA_PERM + 1].val(),
            ),
    {
        let alpha_perm: Vec<F> = crate::poly::copy_range(alpha.as_slice(), ALPHA_PERM, ALPHA_PSDN);
        let alpha_psdn: Vec<F> = crate::poly::copy_range(alpha.as_slice(), ALPHA_PSDN, ALPHA_ADD);
        let alpha_add: Vec<F> = crate::poly::copy_range(alpha.as_slice(), ALPHA_ADD, ALPHA_MUL);
        let alpha_mul: Vec<F> = crate::poly::copy_range(alpha.as_slice(), ALPHA_MUL, ALPHAS);
        proof {
            assert(vals(alpha_psdn@) =~= vals(alpha@).subrange(ALPHA_PSDN as int, ALPHA_ADD as int));
            assert(vals(alpha_add@) =~= vals(alpha@).subrange(ALPHA_ADD as int, ALPHA_MUL as int));
            assert(vals(alpha_mul@) =~= vals(alpha@).subrange(ALPHA_MUL as int, ALPHAS as int));
            assert(alpha_perm@[0] == alpha@[ALPHA_PERM as int]);
            assert(alpha_perm@[1] == alpha@[ALPHA_PERM + 1]);
        }
        let (perm, bnd) = match self.perm_part(polys, oracles, z, alpha_perm.as_slice()) {
            Ok(q) => q,
            Err(e) => {
                return Err(e);
            },
        };
        let (gen4, genp) = self.gnrc_part(polys, p);
        let (pos8, posp) = self.psdn_part(polys, alpha_psdn.as_slice());
        let (mul4, mul8) = self.vbmul_part(polys, alpha_mul.as_slice());
        let eca4 = self.ecad_part(polys, alpha_add.as_slice());
        let t4: Evaluations<F> = gen4.add(&eca4).add(&mul4);
        let t8: Evaluations<F> = pos8.add(&mul8).add(&perm);
        let sum: DensePolynomial<F> = t4.interpolate(&self.domain.d4).plus(
            &t8.interpolate(&self.domain.d8),
        ).plus(&genp.plus(&posp));
        Ok((sum, bnd))
    }

    /// The quotient polynomial, with `len` coefficients.
    pub fn quotient(
        &self,
        w: &Vec<DensePolynomial<F>>,
        z: &DensePolynomial<F>,
        p: &DensePolynomial<F>,
        oracles: &RandomOracles<F>,
        alpha: &Vec<F>,
        len: usize,
    ) -> (r: Result<DensePolynomial<F>, ProofError>)
        requires
            self.wf(),
            w@.len() == WIRES,
            forall|c: int| 0 <= c < WIRES ==> (#[trigger] w@[c])@.len() <= self.domain.d1.size,
            z@.len() <= self.domain.d1.size,
            alpha@.len() == ALPHAS,
        ensures
            match r {
                Ok(t) => quotient_spec(
                    self,
                    poly_views(w@),
                    z@,
                    p@,
                    oracles.beta.val(),
                    oracles.gamma.val(),
                    oracles.alpha.val(),
                    vals(alpha@),
                    len as nat,
                ) == Ok::<Seq<nat>, ProofError>(t@),
                Err(e) => quotient_spec(
                    self,
                    poly_views(w@),
                    z@,
                    p@,
                    oracles.beta.val(),
                    oracles.gamma.val(),
                    oracles.alpha.val(),
                    vals(alpha@),
                    len as nat,
                ) == Err::<Seq<nat>, ProofError>(e),
            },
            r matches Ok(t) ==> t@.len() == len,
    {
        let n: usize = self.domain.d1.size;
        let lagrange: WitnessOverDomains<F> = self.evaluate(w, z);
        let (sum, bnd) = match self.numerator(&lagrange, z, p, oracles, alpha) {
            Ok(q) => q,
            Err(e) => {
                return Err(e);
            },
        };
        let (quotient, res) = sum.divide_by_vanishing_poly(n);
        if !res.is_zero() {
            assert(!all_zero(res@));
            return Err(ProofError::PolyDivision);
        }
        assert(all_zero(res@));
        let full: DensePolynomial<F> = quotient.plus(&bnd);
        match resize_exact(&full, len) {
            Some(t) => {
                assert(t@ =~= resized(full@, len as nat));
                Ok(t)
            },
            None => Err(ProofError::PolyDivision),
        }
    }
}

} // verus!
