//! The two forms of the challenge polynomial agree: the product of its factors, which
//! the verifier evaluates in as many steps as there are rounds, and the list of its
//! coefficients, against which the reference string is folded.

use crate::arith::{
    fadd, fmul, fpow, lemma_factor_inverse, lemma_factor_out, lemma_fmul_assoc, lemma_fmul_comm,
    lemma_seq_prod_front, lemma_seq_prod_pairs, seq_prod,
};
use crate::commitment::{
    b_poly_coefficient, b_poly_coefficients_spec, b_poly_factors, b_poly_spec, bit_length,
    lemma_bit_length,
};
use crate::poly::{lemma_poly_eval_concat, lemma_poly_eval_scale, poly_eval, poly_scale};
use vstd::arithmetic::div_mod::lemma_small_mod;
use vstd::arithmetic::power2::{
    lemma_pow2_pos, lemma_pow2_strictly_increases, lemma_pow2_unfold, pow2,
};
use vstd::prelude::*;

verus! {

/// A number that is not zero lies between two powers of two that its number of
/// binary digits gives.
pub proof fn lemma_bit_length_bounds(i: nat)
    requires
        i > 0,
    ensures
        bit_length(i) >= 1,
        pow2((bit_length(i) - 1) as nat) <= i < pow2(bit_length(i)),
    decreases i,
{
    vstd::arithmetic::power2::lemma2_to64();
    if i == 1 {
        assert(bit_length(1) == 1 + bit_length(0));
    } else {
        lemma_bit_length_bounds(i / 2);
        let k = bit_length(i / 2);
        lemma_pow2_unfold(k);
        lemma_pow2_unfold((k + 1) as nat);
    }
}

/// The coefficients of the lower half do not depend on the first challenge.
pub proof fn lemma_coefficient_low(p: nat, s0: nat, sq: Seq<nat>, i: nat)
    requires
        sq.len() >= 1,
        i < pow2((sq.len() - 1) as nat),
    ensures
        b_poly_coefficient(p, s0, sq, i) == b_poly_coefficient(p, s0, sq.skip(1), i),
    decreases i,
{
    if i > 0 {
        let k = bit_length(i);
        lemma_bit_length_bounds(i);
        let top = pow2((k - 1) as nat);
        lemma_pow2_pos((k - 1) as nat);
        if k - 1 > sq.len() - 1 {
            lemma_pow2_strictly_increases((sq.len() - 1) as nat, (k - 1) as nat);
        }
        assert(k < sq.len());
        lemma_coefficient_low(p, s0, sq, (i - top) as nat);
        assert(sq.skip(1)[sq.len() - 1 - k] == sq[sq.len() - k]);
    }
}

/// A coefficient of the upper half is the one of the lower half at the same place,
/// times the first challenge.
pub proof fn lemma_coefficient_high(p: nat, s0: nat, sq: Seq<nat>, i: nat)
    requires
        sq.len() >= 1,
        pow2((sq.len() - 1) as nat) <= i < pow2(sq.len()),
    ensures
        b_poly_coefficient(p, s0, sq, i) == fmul(
            p,
            b_poly_coefficient(p, s0, sq, (i - pow2((sq.len() - 1) as nat)) as nat),
            sq[0],
        ),
{
    lemma_bit_length(i, sq.len());
    lemma_pow2_pos((sq.len() - 1) as nat);
}

/// The factors of the succinct form, each without the inverse of its challenge:
/// factor `i` is `1 + sq[i] x^(2^(k-1-i))`.
pub open spec fn tensor_factors(p: nat, sq: Seq<nat>, x: nat) -> Seq<nat> {
    Seq::new(
        sq.len(),
        |i: int| fadd(p, 1, fmul(p, sq[i], fpow(p, x, pow2((sq.len() - 1 - i) as nat)))),
    )
}

/// The polynomial with the coefficients that the squared challenges `sq` give, from
/// the constant coefficient `s0` on, is `s0` times the product of the factors
/// `1 + sq[i] x^(2^(k-1-i))`.
pub proof fn lemma_coefficients_product(p: nat, s0: nat, sq: Seq<nat>, x: nat)
    requires
        p > 1,
    ensures
        poly_eval(p, b_poly_coefficients_spec(p, s0, sq), x) == fmul(
            p,
            s0,
            seq_prod(p, tensor_factors(p, sq, x)),
        ),
    decreases sq.len(),
{
    let all = b_poly_coefficients_spec(p, s0, sq);
    if sq.len() == 0 {
        vstd::arithmetic::power2::lemma2_to64();
        assert(all.len() == 1);
        assert(all.skip(1).len() == 0);
        assert(all[0] == s0);
        assert(poly_eval(p, all.skip(1), x) == 0);
        assert(0 * x == 0) by (nonlinear_arith);
        lemma_small_mod(0, p);
        assert(s0 * 1 == s0) by (nonlinear_arith);
        assert(tensor_factors(p, sq, x).len() == 0);
    } else {
        let rest = sq.skip(1);
        let h = pow2((sq.len() - 1) as nat);
        let low = b_poly_coefficients_spec(p, s0, rest);
        let high = poly_scale(p, low, sq[0]);
        lemma_pow2_unfold(sq.len());
        assert(low.len() == h);
        assert forall|i: int| 0 <= i < all.len() implies #[trigger] all[i] == (low + high)[i] by {
            if i < h {
                lemma_coefficient_low(p, s0, sq, i as nat);
            } else {
                lemma_coefficient_high(p, s0, sq, i as nat);
                lemma_coefficient_low(p, s0, sq, (i - h) as nat);
            }
        }
        assert(all =~= low + high);
        lemma_poly_eval_concat(p, low, high, x);
        lemma_poly_eval_scale(p, low, sq[0], x);
        lemma_coefficients_product(p, s0, rest, x);
        let e = poly_eval(p, low, x);
        let t = tensor_factors(p, sq, x);
        let tr = tensor_factors(p, rest, x);
        lemma_factor_out(p, e, fpow(p, x, h), sq[0]);
        assert(t.skip(1) =~= tr);
        lemma_seq_prod_front(p, t);
        assert(t[0] == fadd(p, 1, fmul(p, sq[0], fpow(p, x, h))));
        // e t0 = (s0 T') t0 = s0 (t0 T')
        lemma_fmul_assoc(p, s0, seq_prod(p, tr), t[0]);
        lemma_fmul_comm(p, seq_prod(p, tr), t[0]);
    }
}

/// The two forms of the challenge polynomial agree at every point: with the inverses
/// of the challenges, the polynomial whose coefficients are built from the squared
/// challenges and from the product of the inverses has the value that the product of
/// the factors gives.
pub proof fn lemma_b_poly_consistent(p: nat, chals: Seq<nat>, chal_invs: Seq<nat>, x: nat)
    requires
        p > 1,
        chals.len() == chal_invs.len(),
        forall|i: int| 0 <= i < chals.len() ==> fmul(p, #[trigger] chals[i], chal_invs[i]) == 1,
    ensures
        poly_eval(
            p,
            b_poly_coefficients_spec(
                p,
                seq_prod(p, chal_invs),
                Seq::new(chals.len(), |i: int| fmul(p, chals[i], chals[i])),
            ),
            x,
        ) == b_poly_spec(p, chals, chal_invs, x),
{
    let sq = Seq::new(chals.len(), |i: int| fmul(p, chals[i], chals[i]));
    let t = tensor_factors(p, sq, x);
    let f = b_poly_factors(p, chals, chal_invs, x);
    lemma_coefficients_product(p, seq_prod(p, chal_invs), sq, x);
    assert forall|i: int| 0 <= i < f.len() implies #[trigger] f[i] == fmul(p, chal_invs[i], t[i]) by {
        assert(fmul(p, chals[i], chal_invs[i]) == 1);
        lemma_factor_inverse(
            p,
            chals[i],
            chal_invs[i],
            fpow(p, x, pow2((chals.len() - 1 - i) as nat)),
        );
    }
    lemma_seq_prod_pairs(p, chal_invs, t, f);
}

} // verus!
