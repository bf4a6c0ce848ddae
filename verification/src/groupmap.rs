//! The deterministic map from the base field onto a curve `y^2 = x^3 + b`, after
//! Shallue and van de Woestijne in the form of Brier and others.
//!
//! An element `t` gives three candidates for the abscissa; the first one at which the
//! curve equation has a root is taken, with the root that the field's `sqrt` picks.

use crate::arith::{fadd, finv, fmul, fneg, fsub, is_residue};
use crate::field::PrimeField;
use vstd::prelude::*;

verus! {

/// The right-hand side `x^3 + b` of the curve equation.
pub open spec fn curve_eqn_spec(p: nat, b: nat, x: nat) -> nat {
    fadd(p, fmul(p, fmul(p, x, x), x), b)
}

/// The constants of the map, as the contracts see them.
pub ghost struct BWModel {
    pub u: nat,
    pub fu: nat,
    pub sqrt_neg_three_u_squared_minus_u_over_2: nat,
    pub sqrt_neg_three_u_squared: nat,
    pub inv_three_u_squared: nat,
}

/// The first `u` from `start` on, below `2^64 - 1`, at which the curve equation is not
/// zero.
pub open spec fn first_u(p: nat, b: nat, start: nat) -> Option<nat>
    decreases 0xffff_ffff_ffff_ffff - start,
{
    if start >= 0xffff_ffff_ffff_ffff {
        None
    } else if curve_eqn_spec(p, b, start) != 0 {
        Some(start)
    } else {
        first_u(p, b, start + 1)
    }
}

/// Whether `a` has a square root in the field.
pub open spec fn has_root(p: nat, a: nat) -> bool {
    a == 0 || is_residue(p, a)
}

/// The constants of the map for the field `F` and the coefficient `b`, where they
/// exist.
#[verifier::opaque]
pub open spec fn setup_spec<F: PrimeField>(b: nat) -> Option<BWModel> {
    let p = F::modulus();
    match first_u(p, b, 1) {
        None => None,
        Some(u) => {
            let three_u_squared = fmul(p, fmul(p, u, u), 3);
            let neg = fneg(p, three_u_squared);
            if three_u_squared == 0 || !has_root(p, neg) {
                None
            } else {
                Some(
                    BWModel {
                        u,
                        fu: curve_eqn_spec(p, b, u),
                        sqrt_neg_three_u_squared_minus_u_over_2: fmul(
                            p,
                            fsub(p, F::sqrt_of(neg), u),
                            finv(p, 2),
                        ),
                        sqrt_neg_three_u_squared: F::sqrt_of(neg),
                        inv_three_u_squared: finv(p, three_u_squared),
                    },
                )
            }
        },
    }
}

/// The three candidates for the abscissa of the image of `t`.
#[verifier::opaque]
pub open spec fn potential_xs_spec(p: nat, m: BWModel, t: nat) -> (nat, nat, nat) {
    let t2 = fmul(p, t, t);
    let alpha_inv = fmul(p, fadd(p, t2, m.fu), t2);
    let alpha = finv(p, alpha_inv);
    let x1 = fsub(
        p,
        m.sqrt_neg_three_u_squared_minus_u_over_2,
        fmul(p, fmul(p, fmul(p, t2, t2), alpha), m.sqrt_neg_three_u_squared),
    );
    let x2 = fsub(p, fneg(p, m.u), x1);
    let t2_plus_fu = fadd(p, t2, m.fu);
    let t2_inv = fmul(p, alpha, t2_plus_fu);
    let x3 = fsub(
        p,
        m.u,
        fmul(p, fmul(p, fmul(p, t2_plus_fu, t2_plus_fu), t2_inv), m.inv_three_u_squared),
    );
    (x1, x2, x3)
}

/// The image of `t`: the first candidate at which the curve equation has a root, and
/// that root.
#[verifier::opaque]
pub open spec fn to_group_spec<F: PrimeField>(m: BWModel, b: nat, t: nat) -> Option<(nat, nat)> {
    let p = F::modulus();
    let xs = potential_xs_spec(p, m, t);
    if has_root(p, curve_eqn_spec(p, b, xs.0)) {
        Some((xs.0, F::sqrt_of(curve_eqn_spec(p, b, xs.0))))
    } else if has_root(p, curve_eqn_spec(p, b, xs.1)) {
        Some((xs.1, F::sqrt_of(curve_eqn_spec(p, b, xs.1))))
    } else if has_root(p, curve_eqn_spec(p, b, xs.2)) {
        Some((xs.2, F::sqrt_of(curve_eqn_spec(p, b, xs.2))))
    } else {
        None
    }
}

/// The right-hand side `x^3 + b` of the curve equation.
pub fn curve_eqn<F: PrimeField>(b: &F, x: &F) -> (r: F)
    ensures
        r.val() == curve_eqn_spec(F::modulus(), b.val(), x.val()),
{
    x.mul(x).mul(x).add(b)
}

/// The constants of the map onto the curve with coefficient `b` over the field `F`.
pub struct BWParameters<F: PrimeField> {
    pub u: F,
    pub fu: F,
    pub sqrt_neg_three_u_squared_minus_u_over_2: F,
    pub sqrt_neg_three_u_squared: F,
    pub inv_three_u_squared: F,
    pub b: F,
}

impl<F: PrimeField> BWParameters<F> {
    /// The values of the constants.
    pub open spec fn view(&self) -> BWModel {
        BWModel {
            u: self.u.val(),
            fu: self.fu.val(),
            sqrt_neg_three_u_squared_minus_u_over_2: self.sqrt_neg_three_u_squared_minus_u_over_2.val(),
            sqrt_neg_three_u_squared: self.sqrt_neg_three_u_squared.val(),
            inv_three_u_squared: self.inv_three_u_squared.val(),
        }
    }

    /// Computes the constants. There are none where no small `u` keeps the curve
    /// equation away from zero, or `-3u^2` has no root.
    pub fn setup(b: F) -> (r: Option<Self>)
        ensures
            r is Some <==> setup_spec::<F>(b.val()) is Some,
            r matches Some(m) ==> Some(m@) == setup_spec::<F>(b.val()) && m.b.val() == b.val(),
    {
        reveal(setup_spec);
        let mut i: u64 = 1;
        let mut found: Option<(F, F)> = None;
        while i < 0xffff_ffff_ffff_ffff && found.is_none()
            invariant
                1 <= i <= 0xffff_ffff_ffff_ffff,
                found is None ==> first_u(F::modulus(), b.val(), 1) == first_u(
                    F::modulus(),
                    b.val(),
                    i as nat,
                ),
                found matches Some(c) ==> first_u(F::modulus(), b.val(), 1) == Some(c.0.val())
                    && c.1.val() == curve_eqn_spec(F::modulus(), b.val(), c.0.val()),
            decreases 0xffff_ffff_ffff_ffff - i + (if found is None { 1nat } else { 0nat }),
        {
            let u: F = F::from_u64(i);
            let fu: F = curve_eqn(&b, &u);
            if !fu.is_zero() {
                found = Some((u, fu));
            } else {
                i = i + 1;
            }
        }
        match found {
            None => None,
            Some(c) => {
                let u: F = c.0;
                let three_u_squared: F = u.mul(&u).mul(&F::from_u64(3));
                let inv: Option<F> = three_u_squared.inverse();
                let root: Option<F> = three_u_squared.neg().sqrt();
                let two_inv: Option<F> = F::from_u64(2).inverse();
                match (inv, root, two_inv) {
                    (Some(inv_three_u_squared), Some(sqrt_neg_three_u_squared), Some(half)) => Some(
                        BWParameters {
                            u,
                            fu: c.1,
                            sqrt_neg_three_u_squared_minus_u_over_2: sqrt_neg_three_u_squared.sub(
                                &u,
                            ).mul(&half),
                            sqrt_neg_three_u_squared,
                            inv_three_u_squared,
                            b,
                        },
                    ),
                    _ => None,
                }
            },
        }
    }

    /// The three candidates for the abscissa of the image of `t`.
    pub fn potential_xs(&self, t: F) -> (r: (F, F, F))
        ensures
            (r.0.val(), r.1.val(), r.2.val()) == potential_xs_spec(F::modulus(), self@, t.val()),
    {
        reveal(potential_xs_spec);
        let t2: F = t.mul(&t);
        let alpha_inv: F = t2.add(&self.fu).mul(&t2);
        let alpha: F = match alpha_inv.inverse() {
            Some(x) => x,
            None => F::zero(),
        };
        proof {
            if alpha_inv.val() == 0 {
                F::lemma_modulus();
                lemma_finv_zero(F::modulus());
            }
        }
        let x1: F = self.sqrt_neg_three_u_squared_minus_u_over_2.sub(
            &t2.mul(&t2).mul(&alpha).mul(&self.sqrt_neg_three_u_squared),
        );
        let x2: F = self.u.neg().sub(&x1);
        let t2_plus_fu: F = t2.add(&self.fu);
        let t2_inv: F = alpha.mul(&t2_plus_fu);
        let x3: F = self.u.sub(
            &t2_plus_fu.mul(&t2_plus_fu).mul(&t2_inv).mul(&self.inv_three_u_squared),
        );
        (x1, x2, x3)
    }

    /// The coordinates of the image of `t`, where a candidate has a root: a point of
    /// the curve.
    pub fn to_group(&self, t: F) -> (r: Option<(F, F)>)
        ensures
            r is Some <==> to_group_spec::<F>(self@, self.b.val(), t.val()) is Some,
            r matches Some(c) ==> Some((c.0.val(), c.1.val())) == to_group_spec::<F>(
                self@,
                self.b.val(),
                t.val(),
            ),
            r matches Some(c) ==> fmul(F::modulus(), c.1.val(), c.1.val()) == curve_eqn_spec(
                F::modulus(),
                self.b.val(),
                c.0.val(),
            ),
    {
        reveal(to_group_spec);
        let xs = self.potential_xs(t);
        match curve_eqn(&self.b, &xs.0).sqrt() {
            Some(y) => Some((xs.0, y)),
            None => match curve_eqn(&self.b, &xs.1).sqrt() {
                Some(y) => Some((xs.1, y)),
                None => match curve_eqn(&self.b, &xs.2).sqrt() {
                    Some(y) => Some((xs.2, y)),
                    None => None,
                },
            },
        }
    }
}

/// Zero has the inverse zero.
pub proof fn lemma_finv_zero(p: nat)
    requires
        p > 2,
    ensures
        finv(p, 0) == 0,
{
    let y = crate::arith::fpow(p, 0, (p - 3) as nat);
    assert(crate::arith::fpow(p, 0, (p - 2) as nat) == fmul(p, 0, y));
    assert(0 * y == 0) by (nonlinear_arith);
    vstd::arithmetic::div_mod::lemma_small_mod(0, p);
}

} // verus!
