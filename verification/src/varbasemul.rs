//! The constraints of variable-base scalar multiplication on a short Weierstrass
//! curve.
//!
//! Two rows process five bits of the scalar. With `T` the base point, every bit `b`
//! adds `(2b - 1) T` to the accumulator and the accumulator to the sum. The first row
//! holds the first two additions with both of their slopes; the second row holds
//! three additions with one slope each, the other one eliminated.
//!
//! The cells of the two rows:
//!
//! ```text
//! cell    0   1   2   3   4   5   6   7   8   9   10  11  12  13  14
//! first   xT  yT  xS  yS  xP  yP  n   xR  yR  s1  s2  b1  s3  s4  b2
//! second  s5  b3  xS  yS  xP  yP  n   xR  yR  xV  yV  s1  b1  s3  b2
//! ```
//!
//! With `n` the scalar of the first row, `m` the one of the second and the bits of
//! the second row marked by a dash, the scalars are tied by
//! `n = 32 m + 16 b2 + 8 b1 + 4 b3' + 2 b2' + b1'`.

use crate::arith::{fadd, fmul, fsub};
use crate::constraints::{
    column_values, read_columns, weighted, weighted_sum, ConstraintSystem, WitnessOverDomains,
    WIRES,
};
use crate::evaluations::Evaluations;
use crate::field::{vals, PrimeField};
use crate::poly::{filled, poly_scale, DensePolynomial, Utils};
use crate::scalars::ProofEvaluations;
use vstd::prelude::*;

verus! {

/// The number of constraints of this gate.
pub const VBMUL_CONSTRAINTS: usize = 23;

/// The number of the constraints that are formed on the domain of four times the
/// size: those of degree three at most.
pub const VBMUL_LOW: usize = 14;

/// `x - x^2`, which is zero for a bit.
pub open spec fn bit_check(p: nat, x: nat) -> nat {
    fsub(p, x, fmul(p, x, x))
}

/// `2 * x`.
pub open spec fn dbl(p: nat, x: nat) -> nat {
    fadd(p, x, x)
}

/// `x^2`.
pub open spec fn sq(p: nat, x: nat) -> nat {
    fmul(p, x, x)
}

/// The first of the three relations of an addition of `(2b - 1) T` with the slope
/// `s` at the accumulator `(xp, yp)`: `(xt - xp) s - (2b - 1) yt + yp`.
pub open spec fn slope_check(p: nat, xt: nat, yt: nat, xp: nat, yp: nat, s: nat, b: nat) -> nat {
    fadd(
        p,
        fsub(p, fmul(p, fsub(p, xt, xp), s), fmul(p, fsub(p, dbl(p, b), 1), yt)),
        yp,
    )
}

/// The second relation, with the next accumulator `(xr, yr)`:
/// `(2 xp - s^2 + xt) ((xp - xr) s + yr + yp) - (xp - xr) 2 yp`.
pub open spec fn chord_check(p: nat, xt: nat, xp: nat, yp: nat, xr: nat, yr: nat, s: nat) -> nat {
    let d = fsub(p, xp, xr);
    fsub(
        p,
        fmul(
            p,
            fadd(p, fsub(p, dbl(p, xp), sq(p, s)), xt),
            fadd(p, fadd(p, fmul(p, d, s), yr), yp),
        ),
        fmul(p, d, dbl(p, yp)),
    )
}

/// The third relation: `(yr + yp)^2 - (xp - xr)^2 (s^2 - xt + xr)`.
pub open spec fn ordinate_check(p: nat, xt: nat, xp: nat, yp: nat, xr: nat, yr: nat, s: nat) -> nat {
    let d = fsub(p, xp, xr);
    fsub(p, sq(p, fadd(p, yr, yp)), fmul(p, sq(p, d), fadd(p, fsub(p, sq(p, s), xt), xr)))
}

/// `2 * acc + b`: the bit `b` shifted in behind the bits of `acc`.
pub open spec fn shift_in(p: nat, acc: nat, b: nat) -> nat {
    fadd(p, dbl(p, acc), b)
}

/// The relation that ties the scalar `n` of the first row to the scalar `m` of the
/// second row and the five bits of the two rows, the highest first:
/// `32 m + 16 b2 + 8 b1 + 4 c3 + 2 c2 + c1 - n`.
pub open spec fn scalar_check(
    p: nat,
    n: nat,
    m: nat,
    b2: nat,
    b1: nat,
    c3: nat,
    c2: nat,
    c1: nat,
) -> nat {
    let high = shift_in(p, shift_in(p, m, b2), b1);
    fsub(p, shift_in(p, shift_in(p, shift_in(p, high, c3), c2), c1), n)
}

/// The values that must be zero on two rows of a scalar multiplication, for the cells
/// of the first row `this` and of the second row `next`: that the five bits are bits,
/// the relation of the scalars, the two additions of the first row with both of their
/// slopes, and the three additions of the second row.
pub open spec fn vbmul_constraints(p: nat, this: Seq<nat>, next: Seq<nat>) -> Seq<nat> {
    seq![
        bit_check(p, this[11]),
        bit_check(p, this[14]),
        bit_check(p, next[12]),
        bit_check(p, next[14]),
        bit_check(p, next[1]),
        scalar_check(
            p,
            this[6],
            next[6],
            this[14],
            this[11],
            next[1],
            next[14],
            next[12],
        ),
        fadd(
            p,
            fsub(p, fmul(p, fsub(p, this[4], this[0]), this[9]), this[5]),
            fmul(p, this[1], fsub(p, dbl(p, this[11]), 1)),
        ),
        fadd(p, fsub(p, fsub(p, sq(p, this[9]), sq(p, this[10])), this[0]), this[7]),
        fsub(
            p,
            fmul(
                p,
                fsub(p, fadd(p, dbl(p, this[4]), this[0]), sq(p, this[9])),
                fadd(p, this[9], this[10]),
            ),
            dbl(p, this[5]),
        ),
        fsub(p, fsub(p, fmul(p, fsub(p, this[4], this[7]), this[10]), this[8]), this[5]),
        fadd(
            p,
            fsub(p, fmul(p, fsub(p, this[7], this[0]), this[12]), this[8]),
            fmul(p, this[1], fsub(p, dbl(p, this[14]), 1)),
        ),
        fadd(p, fsub(p, fsub(p, sq(p, this[12]), sq(p, this[13])), this[0]), this[2]),
        fsub(
            p,
            fmul(
                p,
                fsub(p, fadd(p, dbl(p, this[7]), this[0]), sq(p, this[12])),
                fadd(p, this[12], this[13]),
            ),
            dbl(p, this[8]),
        ),
        fsub(p, fsub(p, fmul(p, fsub(p, this[7], this[2]), this[13]), this[3]), this[8]),
        slope_check(p, this[0], this[1], next[4], next[5], next[11], next[12]),
        chord_check(p, this[0], next[4], next[5], next[7], next[8], next[11]),
        ordinate_check(p, this[0], next[4], next[5], next[7], next[8], next[11]),
        slope_check(p, this[0], this[1], next[7], next[8], next[13], next[14]),
        chord_check(p, this[0], next[7], next[8], next[9], next[10], next[13]),
        ordinate_check(p, this[0], next[7], next[8], next[9], next[10], next[13]),
        slope_check(p, this[0], this[1], next[9], next[10], next[0], next[1]),
        chord_check(p, this[0], next[9], next[10], next[2], next[3], next[0]),
        ordinate_check(p, this[0], next[9], next[10], next[2], next[3], next[0]),
    ]
}

/// `x - x^2`.
fn bit<F: PrimeField>(x: F) -> (r: F)
    ensures
        r.val() == bit_check(F::modulus(), x.val()),
{
    x.sub(&x.square())
}

/// The first relation of an addition.
fn slope<F: PrimeField>(xt: F, yt: F, xp: F, yp: F, s: F, b: F) -> (r: F)
    ensures
        r.val() == slope_check(
            F::modulus(),
            xt.val(),
            yt.val(),
            xp.val(),
            yp.val(),
            s.val(),
            b.val(),
        ),
{
    xt.sub(&xp).mul(&s).sub(&b.double().sub(&F::one()).mul(&yt)).add(&yp)
}

/// The second relation of an addition.
fn chord<F: PrimeField>(xt: F, xp: F, yp: F, xr: F, yr: F, s: F) -> (r: F)
    ensures
        r.val() == chord_check(
            F::modulus(),
            xt.val(),
            xp.val(),
            yp.val(),
            xr.val(),
            yr.val(),
            s.val(),
        ),
{
    let d: F = xp.sub(&xr);
    xp.double().sub(&s.square()).add(&xt).mul(&d.mul(&s).add(&yr).add(&yp)).sub(
        &d.mul(&yp.double()),
    )
}

/// The third relation of an addition.
fn ordinate<F: PrimeField>(xt: F, xp: F, yp: F, xr: F, yr: F, s: F) -> (r: F)
    ensures
        r.val() == ordinate_check(
            F::modulus(),
            xt.val(),
            xp.val(),
            yp.val(),
            xr.val(),
            yr.val(),
            s.val(),
        ),
{
    let d: F = xp.sub(&xr);
    yr.add(&yp).square().sub(&d.square().mul(&s.square().sub(&xt).add(&xr)))
}

/// The values that must be zero on two rows of a scalar multiplication.
pub fn vbmul_values<F: PrimeField>(this: &[F], next: &[F]) -> (r: Vec<F>)
    requires
        this@.len() >= WIRES,
        next@.len() >= WIRES,
    ensures
        r@.len() == VBMUL_CONSTRAINTS,
        vals(r@) == vbmul_constraints(F::modulus(), vals(this@), vals(next@)),
{
    let one: F = F::one();
    let mut s: Vec<F> = Vec::new();
    s.push(bit(this[11]));
    s.push(bit(this[14]));
    s.push(bit(next[12]));
    s.push(bit(next[14]));
    s.push(bit(next[1]));
    s.push(
        next[6].double().add(&this[14]).double().add(&this[11]).double().add(&next[1]).double().add(
            &next[14],
        ).double().add(&next[12]).sub(&this[6]),
    );
    s.push(
        this[4].sub(&this[0]).mul(&this[9]).sub(&this[5]).add(
            &this[1].mul(&this[11].double().sub(&one)),
        ),
    );
    s.push(this[9].square().sub(&this[10].square()).sub(&this[0]).add(&this[7]));
    s.push(
        this[4].double().add(&this[0]).sub(&this[9].square()).mul(&this[9].add(&this[10])).sub(
            &this[5].double(),
        ),
    );
    s.push(this[4].sub(&this[7]).mul(&this[10]).sub(&this[8]).sub(&this[5]));
    s.push(
        this[7].sub(&this[0]).mul(&this[12]).sub(&this[8]).add(
            &this[1].mul(&this[14].double().sub(&one)),
        ),
    );
    s.push(this[12].square().sub(&this[13].square()).sub(&this[0]).add(&this[2]));
    s.push(
        this[7].double().add(&this[0]).sub(&this[12].square()).mul(&this[12].add(&this[13])).sub(
            &this[8].double(),
        ),
    );
    s.push(this[7].sub(&this[2]).mul(&this[13]).sub(&this[3]).sub(&this[8]));
    s.push(slope(this[0], this[1], next[4], next[5], next[11], next[12]));
    s.push(chord(this[0], next[4], next[5], next[7], next[8], next[11]));
    s.push(ordinate(this[0], next[4], next[5], next[7], next[8], next[11]));
    s.push(slope(this[0], this[1], next[7], next[8], next[13], next[14]));
    s.push(chord(this[0], next[7], next[8], next[9], next[10], next[13]));
    s.push(ordinate(this[0], next[7], next[8], next[9], next[10], next[13]));
    s.push(slope(this[0], this[1], next[9], next[10], next[0], next[1]));
    s.push(chord(this[0], next[9], next[10], next[2], next[3], next[0]));
    s.push(ordinate(this[0], next[9], next[10], next[2], next[3], next[0]));
    assert(vals(s@) =~= vbmul_constraints(F::modulus(), vals(this@), vals(next@)));
    s
}

/// The contribution of the scalar multiplications to the quotient at one position of
/// a domain: the constraints `lo..hi` weighted with their powers of `alpha`, times
/// the selector.
pub open spec fn vbmul_quot_at(
    p: nat,
    this: Seq<nat>,
    next: Seq<nat>,
    alpha: Seq<nat>,
    selector: nat,
    lo: nat,
    hi: nat,
) -> nat {
    fmul(p, weighted_sum(p, vbmul_constraints(p, this, next), alpha, lo, hi), selector)
}

impl<F: PrimeField> ConstraintSystem<F> {
    /// The contribution of the scalar multiplications to the quotient polynomial, by
    /// values on the domains of four and eight times the size. It is zero where the
    /// circuit has no such gate, and the powers of alpha are not read then.
    pub fn vbmul_quot(&self, polys: &WitnessOverDomains<F>, alpha: &[F]) -> (r: (
        Evaluations<F>,
        Evaluations<F>,
    ))
        requires
            self.wf(),
            polys.fits(self.domain.d1.size as nat),
            !(self.mul.m@ =~= crate::open::zeros(self.mul.m@.len())) ==> alpha@.len()
                >= VBMUL_CONSTRAINTS,
        ensures
            r.0@.len() == self.domain.d4.size,
            r.1@.len() == self.domain.d8.size,
            forall|x: int|
                0 <= x < self.domain.d4.size ==> #[trigger] r.0@[x] == if self.mul.m@
                    =~= crate::open::zeros(self.mul.m@.len()) {
                    0
                } else {
                    vbmul_quot_at(
                        F::modulus(),
                        column_values(polys.d4.this.w@, x),
                        column_values(polys.d4.next.w@, x),
                        vals(alpha@),
                        self.mul.l4@[x],
                        0,
                        VBMUL_LOW as nat,
                    )
                },
            forall|x: int|
                0 <= x < self.domain.d8.size ==> #[trigger] r.1@[x] == if self.mul.m@
                    =~= crate::open::zeros(self.mul.m@.len()) {
                    0
                } else {
                    vbmul_quot_at(
                        F::modulus(),
                        column_values(polys.d8.this.w@, x),
                        column_values(polys.d8.next.w@, x),
                        vals(alpha@),
                        self.mul.l8@[x],
                        VBMUL_LOW as nat,
                        VBMUL_CONSTRAINTS as nat,
                    )
                },
    {
        let n4: usize = self.domain.d4.size;
        let n8: usize = self.domain.d8.size;
        let zero: F = F::zero();
        if self.mul.is_zero() {
            assert(self.mul.m@ =~= crate::open::zeros(self.mul.m@.len()));
            let z4: Vec<F> = filled(zero, n4);
            let z8: Vec<F> = filled(zero, n8);
            return (Evaluations { evals: z4 }, Evaluations { evals: z8 });
        }
        assert(!(self.mul.m@ =~= crate::open::zeros(self.mul.m@.len())));
        assert(alpha@.len() >= VBMUL_CONSTRAINTS);
        let ghost p = F::modulus();
        let mut r4: Vec<F> = Vec::new();
        let mut x: usize = 0;
        while x < n4
            invariant
                x <= n4,
                n4 == self.domain.d4.size,
                n4 == 4 * self.domain.d1.size,
                self.mul.l4@.len() == n4,
                polys.fits(self.domain.d1.size as nat),
                alpha@.len() >= VBMUL_CONSTRAINTS,
                p == F::modulus(),
                r4@.len() == x,
                forall|y: int|
                    0 <= y < x ==> (#[trigger] r4@[y]).val() == vbmul_quot_at(
                        p,
                        column_values(polys.d4.this.w@, y),
                        column_values(polys.d4.next.w@, y),
                        vals(alpha@),
                        self.mul.l4@[y],
                        0,
                        VBMUL_LOW as nat,
                    ),
            decreases n4 - x,
        {
            let this: Vec<F> = read_columns(&polys.d4.this.w, x);
            let next: Vec<F> = read_columns(&polys.d4.next.w, x);
            let c: Vec<F> = vbmul_values(this.as_slice(), next.as_slice());
            let v: F = weighted(c.as_slice(), alpha, 0, VBMUL_LOW).mul(&self.mul.l4.evals[x]);
            r4.push(v);
            x = x + 1;
        }
        let mut r8: Vec<F> = Vec::new();
        let mut x: usize = 0;
        while x < n8
            invariant
                x <= n8,
                n8 == self.domain.d8.size,
                n8 == 8 * self.domain.d1.size,
                self.mul.l8@.len() == n8,
                polys.fits(self.domain.d1.size as nat),
                alpha@.len() >= VBMUL_CONSTRAINTS,
                p == F::modulus(),
                r8@.len() == x,
                forall|y: int|
                    0 <= y < x ==> (#[trigger] r8@[y]).val() == vbmul_quot_at(
                        p,
                        column_values(polys.d8.this.w@, y),
                        column_values(polys.d8.next.w@, y),
                        vals(alpha@),
                        self.mul.l8@[y],
                        VBMUL_LOW as nat,
                        VBMUL_CONSTRAINTS as nat,
                    ),
            decreases n8 - x,
        {
            let this: Vec<F> = read_columns(&polys.d8.this.w, x);
            let next: Vec<F> = read_columns(&polys.d8.next.w, x);
            let c: Vec<F> = vbmul_values(this.as_slice(), next.as_slice());
            let v: F = weighted(c.as_slice(), alpha, VBMUL_LOW, VBMUL_CONSTRAINTS).mul(
                &self.mul.l8.evals[x],
            );
            r8.push(v);
            x = x + 1;
        }
        let e4 = Evaluations { evals: r4 };
        let e8 = Evaluations { evals: r8 };
        assert forall|y: int| 0 <= y < n4 implies #[trigger] e4@[y] == vbmul_quot_at(
            p,
            column_values(polys.d4.this.w@, y),
            column_values(polys.d4.next.w@, y),
            vals(alpha@),
            self.mul.l4@[y],
            0,
            VBMUL_LOW as nat,
        ) by {
            assert(e4@[y] == e4.evals@[y].val());
        }
        assert forall|y: int| 0 <= y < n8 implies #[trigger] e8@[y] == vbmul_quot_at(
            p,
            column_values(polys.d8.this.w@, y),
            column_values(polys.d8.next.w@, y),
            vals(alpha@),
            self.mul.l8@[y],
            VBMUL_LOW as nat,
            VBMUL_CONSTRAINTS as nat,
        ) by {
            assert(e8@[y] == e8.evals@[y].val());
        }
        (e4, e8)
    }

    /// The scalar by which the selector of the scalar multiplications goes into the
    /// linearization: the constraints at the evaluations of the witness, weighted with
    /// their powers of `alpha`.
    pub fn vbmul_scalars(evals: &Vec<ProofEvaluations<F>>, alpha: &[F]) -> (r: F)
        requires
            evals@.len() >= 2,
            evals@[0].w@.len() >= WIRES,
            evals@[1].w@.len() >= WIRES,
            alpha@.len() >= VBMUL_CONSTRAINTS,
        ensures
            r.val() == weighted_sum(
                F::modulus(),
                vbmul_constraints(F::modulus(), vals(evals@[0].w@), vals(evals@[1].w@)),
                vals(alpha@),
                0,
                VBMUL_CONSTRAINTS as nat,
            ),
    {
        let s: Vec<F> = vbmul_values(evals[0].w.as_slice(), evals[1].w.as_slice());
        weighted(s.as_slice(), alpha, 0, VBMUL_CONSTRAINTS)
    }

    /// The contribution of the scalar multiplications to the linearization
    /// polynomial: their selector times the scalar.
    pub fn vbmul_lnrz(&self, evals: &Vec<ProofEvaluations<F>>, alpha: &[F]) -> (r: DensePolynomial<
        F,
    >)
        requires
            evals@.len() >= 2,
            evals@[0].w@.len() >= WIRES,
            evals@[1].w@.len() >= WIRES,
            alpha@.len() >= VBMUL_CONSTRAINTS,
        ensures
            r@ == poly_scale(
                F::modulus(),
                self.mul.m@,
                weighted_sum(
                    F::modulus(),
                    vbmul_constraints(F::modulus(), vals(evals@[0].w@), vals(evals@[1].w@)),
                    vals(alpha@),
                    0,
                    VBMUL_CONSTRAINTS as nat,
                ),
            ),
    {
        self.mul.m.scale(Self::vbmul_scalars(evals, alpha))
    }
}

} // verus!
