//! The permutation argument, which shows that the witness respects the wiring: the
//! aggregation polynomial `z`, its contribution to the quotient, and its part of the
//! linearization.

use crate::arith::{fadd, finv, fmul, fneg, fsub};
use crate::constraints::{column_values, ConstraintSystem, WitnessOverDomains, PERMUTS};
use crate::error::ProofError;
use crate::evaluations::{idft_spec, Evaluations};
use crate::field::{vals, PrimeField};
use crate::poly::{
    linear_quotient, poly_add, poly_eval, poly_scale, poly_sub, DensePolynomial, Utils,
};
use crate::scalars::{ProofEvaluations, RandomOracles};
use vstd::prelude::*;

verus! {

/// `init` times `gamma + beta * s[k] + w[k]` for the first `n` positions `k`.
pub open spec fn sigma_product(
    p: nat,
    init: nat,
    w: Seq<nat>,
    s: Seq<nat>,
    beta: nat,
    gamma: nat,
    n: nat,
) -> nat
    decreases n,
{
    if n == 0 {
        init
    } else {
        fmul(
            p,
            sigma_product(p, init, w, s, beta, gamma, (n - 1) as nat),
            fadd(p, fadd(p, gamma, fmul(p, beta, s[n - 1])), w[n - 1]),
        )
    }
}

/// The scalar by which the last permutation polynomial goes into the linearization:
/// minus the product of `z(zeta * omega) * beta * alpha * zkp(zeta)` with
/// `gamma + beta * s_k(zeta) + w_k(zeta)` for the permutation polynomials that the
/// proof evaluates.
pub open spec fn perm_scalars_spec(
    p: nat,
    w: Seq<nat>,
    s: Seq<nat>,
    z_next: nat,
    beta: nat,
    gamma: nat,
    alpha: nat,
    zkp: nat,
) -> nat {
    fneg(
        p,
        sigma_product(
            p,
            fmul(p, fmul(p, fmul(p, z_next, beta), alpha), zkp),
            w,
            s,
            beta,
            gamma,
            if w.len() <= s.len() {
                w.len()
            } else {
                s.len()
            },
        ),
    )
}

/// The numerator of the step of the aggregation at a row: `x` times
/// `w_c + id * beta * shift_c + gamma` for the first `n` wired columns `c`.
pub open spec fn shift_product(
    p: nat,
    x: nat,
    w: Seq<nat>,
    id: nat,
    shift: Seq<nat>,
    beta: nat,
    gamma: nat,
    n: nat,
) -> nat
    decreases n,
{
    if n == 0 {
        x
    } else {
        fmul(
            p,
            shift_product(p, x, w, id, shift, beta, gamma, (n - 1) as nat),
            fadd(p, fadd(p, w[n - 1], fmul(p, fmul(p, id, beta), shift[n - 1])), gamma),
        )
    }
}

/// The denominator of the step of the aggregation at a row: the product of
/// `w_c + sigma_c * beta + gamma` for the first `n` wired columns `c`.
pub open spec fn wiring_product(
    p: nat,
    w: Seq<nat>,
    sigma: Seq<nat>,
    beta: nat,
    gamma: nat,
    n: nat,
) -> nat
    decreases n,
{
    if n == 0 {
        1
    } else {
        fmul(
            p,
            wiring_product(p, w, sigma, beta, gamma, (n - 1) as nat),
            fadd(p, fadd(p, w[n - 1], fmul(p, sigma[n - 1], beta)), gamma),
        )
    }
}

/// Row `row` of a table given by its columns.
pub open spec fn table_row<F: PrimeField>(t: Seq<Vec<F>>, row: int) -> Seq<nat> {
    Seq::new(t.len(), |c: int| t[c]@[row].val())
}

/// Row `row` of a table of values given by its columns.
pub open spec fn value_row(t: Seq<Seq<nat>>, row: int) -> Seq<nat> {
    Seq::new(t.len(), |c: int| t[c][row])
}

/// The values of a table given by its columns.
pub open spec fn table_vals<F: PrimeField>(t: Seq<Vec<F>>) -> Seq<Seq<nat>> {
    Seq::new(t.len(), |c: int| vals(t[c]@))
}

/// The aggregation at row `j`: one at the first row, and from each row to the next
/// the ratio of the product over the cells of the row with their own identifiers to
/// the product with the identifiers that the wiring gives them.
pub open spec fn aggregation(
    p: nat,
    witness: Seq<Seq<nat>>,
    sigmal1: Seq<Seq<nat>>,
    sid: Seq<nat>,
    shift: Seq<nat>,
    beta: nat,
    gamma: nat,
    j: nat,
) -> nat
    decreases j,
{
    if j == 0 {
        1
    } else {
        let i = (j - 1) as int;
        fmul(
            p,
            finv(p, wiring_product(p, value_row(witness, i), value_row(sigmal1, i), beta, gamma, PERMUTS as nat)),
            shift_product(
                p,
                aggregation(p, witness, sigmal1, sid, shift, beta, gamma, (j - 1) as nat),
                value_row(witness, i),
                sid[i],
                shift,
                beta,
                gamma,
                PERMUTS as nat,
            ),
        )
    }
}

/// The values of the aggregation polynomial on the rows: the aggregation up to the
/// third row from the end, and the two random values `r1` and `r2` after it.
pub open spec fn aggregation_rows(
    p: nat,
    witness: Seq<Seq<nat>>,
    sigmal1: Seq<Seq<nat>>,
    sid: Seq<nat>,
    shift: Seq<nat>,
    beta: nat,
    gamma: nat,
    n: nat,
    r1: nat,
    r2: nat,
) -> Seq<nat> {
    Seq::new(
        n,
        |j: int|
            if j + 3 <= n {
                aggregation(p, witness, sigmal1, sid, shift, beta, gamma, j as nat)
            } else if j + 2 == n {
                r1
            } else {
                r2
            },
    )
}

/// Whether the witness has at least the wired columns, each with a value for every
/// row.
pub open spec fn witness_fits<F: PrimeField>(witness: Seq<Vec<F>>, n: nat) -> bool {
    witness.len() >= PERMUTS && forall|c: int|
        0 <= c < witness.len() ==> (#[trigger] witness[c])@.len() == n
}

/// The contribution of the permutation to the quotient at one position of the domain
/// of eight times the size:
/// `(z * prod(w_c + gamma + beta * shift_c * id) - z_next * prod(w_c + gamma + beta * sigma_c)) * alpha * zkp`.
pub open spec fn perm_quot_at(
    p: nat,
    w: Seq<nat>,
    z: nat,
    z_next: nat,
    one: nat,
    id: nat,
    sigma: Seq<nat>,
    shift: Seq<nat>,
    zkp: nat,
    beta: nat,
    gamma: nat,
    alpha: nat,
) -> nat {
    fmul(
        p,
        fmul(
            p,
            fsub(
                p,
                identity_side(p, z, w, one, id, shift, beta, gamma, PERMUTS as nat),
                wiring_side(p, z_next, w, one, sigma, beta, gamma, PERMUTS as nat),
            ),
            alpha,
        ),
        zkp,
    )
}

/// `z` times `w_c + (gamma * one + id * (beta * shift_c))` for the first `n` columns.
pub open spec fn identity_side(
    p: nat,
    z: nat,
    w: Seq<nat>,
    one: nat,
    id: nat,
    shift: Seq<nat>,
    beta: nat,
    gamma: nat,
    n: nat,
) -> nat
    decreases n,
{
    if n == 0 {
        z
    } else {
        fmul(
            p,
            identity_side(p, z, w, one, id, shift, beta, gamma, (n - 1) as nat),
            fadd(
                p,
                w[n - 1],
                fadd(p, fmul(p, one, gamma), fmul(p, id, fmul(p, beta, shift[n - 1]))),
            ),
        )
    }
}

/// `z_next` times `w_c + (gamma * one + sigma_c * beta)` for the first `n` columns.
pub open spec fn wiring_side(
    p: nat,
    z_next: nat,
    w: Seq<nat>,
    one: nat,
    sigma: Seq<nat>,
    beta: nat,
    gamma: nat,
    n: nat,
) -> nat
    decreases n,
{
    if n == 0 {
        z_next
    } else {
        fmul(
            p,
            wiring_side(p, z_next, w, one, sigma, beta, gamma, (n - 1) as nat),
            fadd(p, w[n - 1], fadd(p, fmul(p, one, gamma), fmul(p, sigma[n - 1], beta))),
        )
    }
}

/// The values of the selectors of the wiring at position `x` of the domain of eight
/// times the size.
pub open spec fn sigma_values<F: PrimeField>(cs: &ConstraintSystem<F>, x: int) -> Seq<nat> {
    Seq::new(cs.sigma@.len(), |c: int| cs.sigma@[c].l8@[x])
}

/// `z - 1`.
pub open spec fn minus_one(p: nat, z: Seq<nat>) -> Seq<nat> {
    poly_sub(p, z, seq![1nat])
}

/// The two boundary quotients `(z - 1) / (X - 1)` and `(z - 1) / (X - last)`, weighted
/// with `a0` and `a1` and added.
pub open spec fn boundary_spec(p: nat, z: Seq<nat>, last: nat, a0: nat, a1: nat) -> Seq<nat> {
    poly_add(
        p,
        poly_scale(p, linear_quotient(p, minus_one(p, z), 1), a0),
        poly_scale(p, linear_quotient(p, minus_one(p, z), last), a1),
    )
}

impl<F: PrimeField> ConstraintSystem<F> {
    /// The scalar of the permutation in the linearization.
    pub fn perm_scalars(e: &Vec<ProofEvaluations<F>>, oracles: &RandomOracles<F>, z: F) -> (r: F)
        requires
            e@.len() >= 2,
        ensures
            r.val() == perm_scalars_spec(
                F::modulus(),
                vals(e@[0].w@),
                vals(e@[0].s@),
                e@[1].z.val(),
                oracles.beta.val(),
                oracles.gamma.val(),
                oracles.alpha.val(),
                z.val(),
            ),
    {
        let w = &e[0].w;
        let s = &e[0].s;
        let n: usize = if w.len() <= s.len() {
            w.len()
        } else {
            s.len()
        };
        let mut acc: F = e[1].z.mul(&oracles.beta).mul(&oracles.alpha).mul(&z);
        let ghost init = acc.val();
        let mut k: usize = 0;
        while k < n
            invariant
                k <= n,
                n <= w@.len(),
                n <= s@.len(),
                acc.val() == sigma_product(
                    F::modulus(),
                    init,
                    vals(w@),
                    vals(s@),
                    oracles.beta.val(),
                    oracles.gamma.val(),
                    k as nat,
                ),
            decreases n - k,
        {
            acc = acc.mul(&oracles.gamma.add(&oracles.beta.mul(&s[k])).add(&w[k]));
            k = k + 1;
        }
        acc.neg()
    }

    /// The part of the permutation in the linearization polynomial: the last
    /// polynomial of the wiring times its scalar.
    pub fn perm_lnrz(&self, e: &Vec<ProofEvaluations<F>>, oracles: &RandomOracles<F>) -> (r:
        DensePolynomial<F>)
        requires
            self.wf(),
            e@.len() >= 2,
        ensures
            r@ == poly_scale(
                F::modulus(),
                self.sigma@[PERMUTS - 1].m@,
                perm_scalars_spec(
                    F::modulus(),
                    vals(e@[0].w@),
                    vals(e@[0].s@),
                    e@[1].z.val(),
                    oracles.beta.val(),
                    oracles.gamma.val(),
                    oracles.alpha.val(),
                    poly_eval(F::modulus(), self.zkp.m@, oracles.zeta.val()),
                ),
            ),
    {
        let z: F = self.zkp.m.evaluate(oracles.zeta);
        self.sigma[PERMUTS - 1].m.scale(Self::perm_scalars(e, oracles, z))
    }

    /// The values of the aggregation on the rows, with `r1` and `r2` on the last two.
    /// There are none where the wiring is not respected: the aggregation does not
    /// come back to one on the third row from the end.
    pub fn perm_aggreg_rows(
        &self,
        witness: &Vec<Vec<F>>,
        oracles: &RandomOracles<F>,
        r1: F,
        r2: F,
    ) -> (r: Result<Vec<F>, ProofError>)
        requires
            self.wf(),
            witness_fits(witness@, self.domain.d1.size as nat),
        ensures
            r is Ok <==> aggregation(
                F::modulus(),
                table_vals(witness@),
                table_vals(self.sigmal1@),
                vals(self.sid@),
                vals(self.shift@),
                oracles.beta.val(),
                oracles.gamma.val(),
                (self.domain.d1.size - 3) as nat,
            ) == 1,
            r matches Err(e) ==> e == ProofError::ProofCreation,
            r matches Ok(z) ==> z@[0].val() == 1 && z@[self.domain.d1.size - 3].val() == 1,
            r matches Ok(z) ==> z@.len() == self.domain.d1.size && vals(z@) == aggregation_rows(
                F::modulus(),
                table_vals(witness@),
                table_vals(self.sigmal1@),
                vals(self.sid@),
                vals(self.shift@),
                oracles.beta.val(),
                oracles.gamma.val(),
                self.domain.d1.size as nat,
                r1.val(),
                r2.val(),
            ),
    {
        let n: usize = self.domain.d1.size;
        let ghost p = F::modulus();
        let beta: F = oracles.beta;
        let gamma: F = oracles.gamma;
        let mut den: Vec<F> = Vec::new();
        let mut j: usize = 0;
        while j < n - 3
            invariant
                j <= n - 3,
                n >= 4,
                n == self.domain.d1.size,
                self.wf(),
                witness_fits(witness@, n as nat),
                p == F::modulus(),
                den@.len() == j,
                forall|i: int|
                    0 <= i < j ==> (#[trigger] den@[i]).val() == wiring_product(
                        p,
                        value_row(table_vals(witness@), i),
                        value_row(table_vals(self.sigmal1@), i),
                        beta.val(),
                        gamma.val(),
                        PERMUTS as nat,
                    ),
            decreases n - 3 - j,
        {
            let mut acc: F = F::one();
            let mut c: usize = 0;
            while c < PERMUTS
                invariant
                    c <= PERMUTS,
                    j < n - 3,
                    n == self.domain.d1.size,
                    self.wf(),
                    witness_fits(witness@, n as nat),
                    p == F::modulus(),
                    acc.val() == wiring_product(
                        p,
                        value_row(table_vals(witness@), j as int),
                        value_row(table_vals(self.sigmal1@), j as int),
                        beta.val(),
                        gamma.val(),
                        c as nat,
                    ),
                decreases PERMUTS - c,
            {
                assert(witness@[c as int]@.len() == n);
                assert(self.sigmal1@[c as int]@.len() == n);
                acc = acc.mul(&witness[c][j].add(&self.sigmal1[c][j].mul(&beta)).add(&gamma));
                c = c + 1;
            }
            den.push(acc);
            j = j + 1;
        }
        let ghost dens = vals(den@);
        F::batch_inversion(&mut den);
        let mut z: Vec<F> = Vec::new();
        z.push(F::one());
        let mut j: usize = 0;
        while j < n - 3
            invariant
                j <= n - 3,
                n >= 4,
                n == self.domain.d1.size,
                self.wf(),
                witness_fits(witness@, n as nat),
                p == F::modulus(),
                den@.len() == n - 3,
                dens.len() == n - 3,
                forall|i: int| 0 <= i < n - 3 ==> (#[trigger] den@[i]).val() == finv(p, dens[i]),
                forall|i: int|
                    0 <= i < n - 3 ==> #[trigger] dens[i] == wiring_product(
                        p,
                        value_row(table_vals(witness@), i),
                        value_row(table_vals(self.sigmal1@), i),
                        beta.val(),
                        gamma.val(),
                        PERMUTS as nat,
                    ),
                z@.len() == j + 1,
                forall|i: int|
                    0 <= i <= j ==> (#[trigger] z@[i]).val() == aggregation(
                        p,
                        table_vals(witness@),
                        table_vals(self.sigmal1@),
                        vals(self.sid@),
                        vals(self.shift@),
                        beta.val(),
                        gamma.val(),
                        i as nat,
                    ),
            decreases n - 3 - j,
        {
            let mut acc: F = z[j];
            let ghost start = acc.val();
            let mut c: usize = 0;
            while c < PERMUTS
                invariant
                    c <= PERMUTS,
                    j < n - 3,
                    n == self.domain.d1.size,
                    self.wf(),
                    witness_fits(witness@, n as nat),
                    p == F::modulus(),
                    acc.val() == shift_product(
                        p,
                        start,
                        value_row(table_vals(witness@), j as int),
                        self.sid@[j as int].val(),
                        vals(self.shift@),
                        beta.val(),
                        gamma.val(),
                        c as nat,
                    ),
                decreases PERMUTS - c,
            {
                assert(witness@[c as int]@.len() == n);
                acc = acc.mul(
                    &witness[c][j].add(&self.sid[j].mul(&beta).mul(&self.shift[c])).add(&gamma),
                );
                c = c + 1;
            }
            assert(dens[j as int] == wiring_product(
                p,
                value_row(table_vals(witness@), j as int),
                value_row(table_vals(self.sigmal1@), j as int),
                beta.val(),
                gamma.val(),
                PERMUTS as nat,
            ));
            z.push(den[j].mul(&acc));
            j = j + 1;
        }
        if !z[n - 3].is_eq(&F::one()) {
            return Err(ProofError::ProofCreation);
        }
        z.push(r1);
        z.push(r2);
        proof {
            assert(vals(z@) =~= aggregation_rows(
                F::modulus(),
                table_vals(witness@),
                table_vals(self.sigmal1@),
                vals(self.sid@),
                vals(self.shift@),
                beta.val(),
                gamma.val(),
                n as nat,
                r1.val(),
                r2.val(),
            ));
        }
        Ok(z)
    }

    /// The aggregation polynomial of the permutation argument, with random values on
    /// the last two rows. It is the one that [`ConstraintSystem::perm_aggreg_rows`]
    /// gives for some choice of the two values.
    pub fn perm_aggreg(&self, witness: &Vec<Vec<F>>, oracles: &RandomOracles<F>) -> (r: Result<
        DensePolynomial<F>,
        ProofError,
    >)
        requires
            self.wf(),
            witness_fits(witness@, self.domain.d1.size as nat),
        ensures
            r is Ok <==> aggregation(
                F::modulus(),
                table_vals(witness@),
                table_vals(self.sigmal1@),
                vals(self.sid@),
                vals(self.shift@),
                oracles.beta.val(),
                oracles.gamma.val(),
                (self.domain.d1.size - 3) as nat,
            ) == 1,
            r matches Err(e) ==> e == ProofError::ProofCreation,
            r matches Ok(z) ==> z.coeffs@.len() == self.domain.d1.size && exists|r1: nat, r2: nat|
                z@ == idft_spec(
                    F::modulus(),
                    self.domain.d1.group_gen.val(),
                    self.domain.d1.size as nat,
                    #[trigger] aggregation_rows(
                        F::modulus(),
                        table_vals(witness@),
                        table_vals(self.sigmal1@),
                        vals(self.sid@),
                        vals(self.shift@),
                        oracles.beta.val(),
                        oracles.gamma.val(),
                        self.domain.d1.size as nat,
                        r1,
                        r2,
                    ),
                ),
    {
        let r1: F = F::rand();
        let r2: F = F::rand();
        match self.perm_aggreg_rows(witness, oracles, r1, r2) {
            Err(e) => Err(e),
            Ok(rows) => {
                let z = (Evaluations { evals: rows }).interpolate(&self.domain.d1);
                proof {
                    assert(z@ == idft_spec(
                        F::modulus(),
                        self.domain.d1.group_gen.val(),
                        self.domain.d1.size as nat,
                        aggregation_rows(
                            F::modulus(),
                            table_vals(witness@),
                            table_vals(self.sigmal1@),
                            vals(self.sid@),
                            vals(self.shift@),
                            oracles.beta.val(),
                            oracles.gamma.val(),
                            self.domain.d1.size as nat,
                            r1.val(),
                            r2.val(),
                        ),
                    ));
                }
                Ok(z)
            },
        }
    }

    /// The contribution of the permutation to the quotient polynomial: by values on
    /// the domain of eight times the size, the difference of the two sides of the
    /// product argument, masked on the last three rows; and by coefficients, the two
    /// boundary quotients, which exist where `z` is one at the first row and at the
    /// third row from the end.
    pub fn perm_quot(
        &self,
        lagrange: &WitnessOverDomains<F>,
        oracles: &RandomOracles<F>,
        z: &DensePolynomial<F>,
        alpha: &[F],
    ) -> (r: Result<(Evaluations<F>, DensePolynomial<F>), ProofError>)
        requires
            self.wf(),
            lagrange.fits(self.domain.d1.size as nat),
            alpha@.len() >= 2,
        ensures
            r is Ok <==> poly_eval(F::modulus(), minus_one(F::modulus(), z@), 1) == 0 && poly_eval(
                F::modulus(),
                minus_one(F::modulus(), z@),
                self.sid@[self.domain.d1.size - 3].val(),
            ) == 0,
            r matches Err(e) ==> e == ProofError::PolyDivision,
            r matches Ok(q) ==> q.0@.len() == self.domain.d8.size && q.1@ == boundary_spec(
                F::modulus(),
                z@,
                self.sid@[self.domain.d1.size - 3].val(),
                alpha@[0].val(),
                alpha@[1].val(),
            ) && forall|x: int|
                0 <= x < self.domain.d8.size ==> #[trigger] q.0@[x] == perm_quot_at(
                    F::modulus(),
                    column_values(lagrange.d8.this.w@, x),
                    lagrange.d8.this.z@[x],
                    lagrange.d8.next.z@[x],
                    self.one.l8@[x],
                    self.id.l8@[x],
                    sigma_values(self, x),
                    vals(self.shift@),
                    self.zkp.l8@[x],
                    oracles.beta.val(),
                    oracles.gamma.val(),
                    oracles.alpha.val(),
                ),
    {
        let ghost p = F::modulus();
        let n: usize = self.domain.d1.size;
        let n8: usize = self.domain.d8.size;
        let mut unit: Vec<F> = Vec::new();
        unit.push(F::one());
        let unit_poly: DensePolynomial<F> = DensePolynomial { coeffs: unit };
        assert(unit_poly@ =~= seq![1nat]);
        let zm1: DensePolynomial<F> = z.minus(&unit_poly);
        let (bnd1, res1) = zm1.divide_by_linear(F::one());
        if !res1.is_zero() {
            return Err(ProofError::PolyDivision);
        }
        let (bnd2, res2) = zm1.divide_by_linear(self.sid[n - 3]);
        if !res2.is_zero() {
            return Err(ProofError::PolyDivision);
        }
        let beta: F = oracles.beta;
        let gamma: F = oracles.gamma;
        let mut out: Vec<F> = Vec::new();
        let mut x: usize = 0;
        while x < n8
            invariant
                x <= n8,
                n8 == self.domain.d8.size,
                n8 == 8 * self.domain.d1.size,
                self.wf(),
                lagrange.fits(self.domain.d1.size as nat),
                p == F::modulus(),
                out@.len() == x,
                forall|y: int|
                    0 <= y < x ==> (#[trigger] out@[y]).val() == perm_quot_at(
                        p,
                        column_values(lagrange.d8.this.w@, y),
                        lagrange.d8.this.z@[y],
                        lagrange.d8.next.z@[y],
                        self.one.l8@[y],
                        self.id.l8@[y],
                        sigma_values(self, y),
                        vals(self.shift@),
                        self.zkp.l8@[y],
                        beta.val(),
                        gamma.val(),
                        oracles.alpha.val(),
                    ),
            decreases n8 - x,
        {
            let l0: F = self.one.l8.evals[x].mul(&gamma);
            let idx: F = self.id.l8.evals[x];
            let mut a: F = lagrange.d8.this.z.evals[x];
            let mut b: F = lagrange.d8.next.z.evals[x];
            let ghost w = column_values(lagrange.d8.this.w@, x as int);
            let ghost sg = sigma_values(self, x as int);
            let mut c: usize = 0;
            while c < PERMUTS
                invariant
                    c <= PERMUTS,
                    x < n8,
                    n8 == self.domain.d8.size,
                    self.wf(),
                    lagrange.fits(self.domain.d1.size as nat),
                    p == F::modulus(),
                    w == column_values(lagrange.d8.this.w@, x as int),
                    sg == sigma_values(self, x as int),
                    l0.val() == fmul(p, self.one.l8@[x as int], gamma.val()),
                    idx.val() == self.id.l8@[x as int],
                    a.val() == identity_side(
                        p,
                        lagrange.d8.this.z@[x as int],
                        w,
                        self.one.l8@[x as int],
                        self.id.l8@[x as int],
                        vals(self.shift@),
                        beta.val(),
                        gamma.val(),
                        c as nat,
                    ),
                    b.val() == wiring_side(
                        p,
                        lagrange.d8.next.z@[x as int],
                        w,
                        self.one.l8@[x as int],
                        sg,
                        beta.val(),
                        gamma.val(),
                        c as nat,
                    ),
                decreases PERMUTS - c,
            {
                assert(lagrange.d8.this.w@[c as int]@.len() == n8);
                assert(self.sigma@[c as int].fits(&self.domain));
                let wv: F = lagrange.d8.this.w[c].evals[x];
                assert(w[c as int] == wv.val());
                let sv: F = self.sigma[c].l8.evals[x];
                assert(sg[c as int] == sv.val());
                a = a.mul(&wv.add(&l0.add(&idx.mul(&beta.mul(&self.shift[c])))));
                b = b.mul(&wv.add(&l0.add(&sv.mul(&beta))));
                c = c + 1;
            }
            out.push(a.sub(&b).mul(&oracles.alpha).mul(&self.zkp.l8.evals[x]));
            x = x + 1;
        }
        let bnd: DensePolynomial<F> = bnd1.scale(alpha[0]).plus(&bnd2.scale(alpha[1]));
        let e = Evaluations { evals: out };
        assert forall|y: int| 0 <= y < n8 implies #[trigger] e@[y] == perm_quot_at(
            p,
            column_values(lagrange.d8.this.w@, y),
            lagrange.d8.this.z@[y],
            lagrange.d8.next.z@[y],
            self.one.l8@[y],
            self.id.l8@[y],
            sigma_values(self, y),
            vals(self.shift@),
            self.zkp.l8@[y],
            beta.val(),
            gamma.val(),
            oracles.alpha.val(),
        ) by {
            assert(e@[y] == e.evals@[y].val());
        }
        Ok((e, bnd))
    }
}

} // verus!
