//! Arithmetic in a prime field, stated over natural numbers.
//!
//! A field is given by its modulus `p`; an element is a natural number below `p`.
//! Every contract of the crate that speaks of field values does so through the
//! functions of this module.

use vstd::arithmetic::div_mod::{
    lemma_add_mod_noop_right, lemma_div_denominator, lemma_fundamental_div_mod,
    lemma_fundamental_div_mod_converse, lemma_mod_bound, lemma_mul_mod_noop,
    lemma_mul_mod_noop_left, lemma_mul_mod_noop_right, lemma_small_mod,
};
use vstd::arithmetic::power2::{
    lemma2_to64, lemma2_to64_rest, lemma_pow2_adds, lemma_pow2_pos, lemma_pow2_unfold, pow2,
};
use vstd::prelude::*;

verus! {

/// `2^64`, the radix of the limb representation.
pub open spec fn limb_radix() -> nat {
    0x1_0000_0000_0000_0000
}

/// The number that a little-endian sequence of 64-bit limbs stands for.
pub open spec fn limbs_nat(limbs: Seq<u64>) -> nat
    decreases limbs.len(),
{
    if limbs.len() == 0 {
        0
    } else {
        limbs[0] as nat + limb_radix() * limbs_nat(limbs.skip(1))
    }
}

/// The number that four little-endian limbs stand for, written out.
pub open spec fn limbs4_nat(l0: u64, l1: u64, l2: u64, l3: u64) -> nat {
    l0 as nat + limb_radix() * (l1 as nat + limb_radix() * (l2 as nat + limb_radix() * (
    l3 as nat)))
}

pub proof fn lemma_limbs4(limbs: Seq<u64>)
    requires
        limbs.len() == 4,
    ensures
        limbs_nat(limbs) == limbs4_nat(limbs[0], limbs[1], limbs[2], limbs[3]),
{
    let s1 = limbs.skip(1);
    let s2 = s1.skip(1);
    let s3 = s2.skip(1);
    let s4 = s3.skip(1);
    assert(s4.len() == 0);
    assert(limbs_nat(s4) == 0);
    assert(limbs_nat(s3) == s3[0] as nat + limb_radix() * limbs_nat(s4));
    assert(limbs_nat(s2) == s2[0] as nat + limb_radix() * limbs_nat(s3));
    assert(limbs_nat(s1) == s1[0] as nat + limb_radix() * limbs_nat(s2));
    assert(limbs_nat(limbs) == limbs[0] as nat + limb_radix() * limbs_nat(s1));
}

/// Two groups of four limbs stand for the same number only if they are equal.
pub proof fn lemma_limbs4_injective(
    a0: u64,
    a1: u64,
    a2: u64,
    a3: u64,
    b0: u64,
    b1: u64,
    b2: u64,
    b3: u64,
)
    requires
        limbs4_nat(a0, a1, a2, a3) == limbs4_nat(b0, b1, b2, b3),
    ensures
        a0 == b0,
        a1 == b1,
        a2 == b2,
        a3 == b3,
{
    let ta: int = a2 + 0x1_0000_0000_0000_0000 * a3;
    let tb: int = b2 + 0x1_0000_0000_0000_0000 * b3;
    let ua: int = a1 + 0x1_0000_0000_0000_0000 * ta;
    let ub: int = b1 + 0x1_0000_0000_0000_0000 * tb;
    assert(a0 + 0x1_0000_0000_0000_0000 * ua == b0 + 0x1_0000_0000_0000_0000 * ub);
    assert(ua == ub);
    assert(ta == tb);
}

/// Sum of two field elements.
pub open spec fn fadd(p: nat, a: nat, b: nat) -> nat {
    (a + b) % p
}

/// Difference of two field elements.
pub open spec fn fsub(p: nat, a: nat, b: nat) -> nat {
    ((a + p - (b % p)) % (p as int)) as nat
}

/// Additive inverse of a field element.
pub open spec fn fneg(p: nat, a: nat) -> nat {
    fsub(p, 0, a)
}

/// Product of two field elements.
pub open spec fn fmul(p: nat, a: nat, b: nat) -> nat {
    (a * b) % p
}

/// `a^e` in the field.
pub open spec fn fpow(p: nat, a: nat, e: nat) -> nat
    decreases e,
{
    if e == 0 {
        1nat % p
    } else {
        fmul(p, a, fpow(p, a, (e - 1) as nat))
    }
}

/// Multiplicative inverse by Fermat's little theorem: `a^(p-2)`. It is `0` for `a = 0`.
pub open spec fn finv(p: nat, a: nat) -> nat {
    fpow(p, a, (p - 2) as nat)
}

/// Whether `a` is a non-zero square in the field (Euler's criterion).
pub open spec fn is_residue(p: nat, a: nat) -> bool {
    a % p != 0 && fpow(p, a, ((p - 1) / 2) as nat) == 1
}

/// Bit `i` of a natural number, counted from the least significant one.
pub open spec fn nat_bit(x: nat, i: nat) -> nat {
    (x / pow2(i)) % 2
}

/// The four little-endian limbs of a number below `2^256`.
pub open spec fn nat_limbs4(x: nat) -> Seq<u64> {
    Seq::new(
        4,
        |i: int|
            if i == 0 {
                (x % limb_radix()) as u64
            } else if i == 1 {
                ((x / limb_radix()) % limb_radix()) as u64
            } else if i == 2 {
                ((x / limb_radix() / limb_radix()) % limb_radix()) as u64
            } else {
                ((x / limb_radix() / limb_radix() / limb_radix()) % limb_radix()) as u64
            },
    )
}

/// Four limbs are the limbs of the number they stand for.
pub proof fn lemma_limbs4_unique(l: Seq<u64>)
    requires
        l.len() == 4,
    ensures
        l == nat_limbs4(limbs_nat(l)),
{
    lemma_limbs4(l);
    let x = limbs_nat(l);
    let t3: int = l[3] as int;
    let t2: int = l[2] + 0x1_0000_0000_0000_0000 * t3;
    let t1: int = l[1] + 0x1_0000_0000_0000_0000 * t2;
    assert(x == l[0] + 0x1_0000_0000_0000_0000 * t1);
    assert(x / 0x1_0000_0000_0000_0000 == t1);
    assert(t1 / 0x1_0000_0000_0000_0000 == t2);
    assert(t2 / 0x1_0000_0000_0000_0000 == t3);
    assert(l =~= nat_limbs4(x));
}

/// Bit `i` of the number that limbs stand for is bit `i % 64` of limb `i / 64`.
pub proof fn lemma_nat_bit_limbs(l: Seq<u64>, i: nat)
    requires
        i / 64 < l.len(),
    ensures
        nat_bit(limbs_nat(l), i) == (l[(i / 64) as int] as nat / pow2(i % 64)) % 2,
    decreases i,
{
    let rest = limbs_nat(l.skip(1));
    let l0 = l[0] as nat;
    let x = limbs_nat(l);
    lemma2_to64();
    lemma2_to64_rest();
    assert(x == l0 + 0x1_0000_0000_0000_0000 * rest);
    if i < 64 {
        let d = pow2(i);
        let e = pow2((64 - i) as nat);
        let h = pow2((63 - i) as nat);
        lemma_pow2_pos(i);
        lemma_pow2_adds(i, (64 - i) as nat);
        lemma_pow2_unfold((64 - i) as nat);
        assert(e == 2 * h);
        assert(d * e == 0x1_0000_0000_0000_0000);
        assert(0x1_0000_0000_0000_0000 * rest == d * (e * rest)) by (nonlinear_arith)
            requires
                d * e == 0x1_0000_0000_0000_0000,
        ;
        let q = l0 / d;
        let r = l0 % d;
        lemma_fundamental_div_mod(l0 as int, d as int);
        lemma_mod_bound(l0 as int, d as int);
        assert(x == (q + e * rest) * d + r) by (nonlinear_arith)
            requires
                x == l0 + d * (e * rest),
                l0 == d * q + r,
        ;
        lemma_fundamental_div_mod_converse(x as int, d as int, (q + e * rest) as int, r as int);
        assert(x / d == q + e * rest);
        assert(e * rest == 2 * (h * rest)) by (nonlinear_arith)
            requires
                e == 2 * h,
        ;
        assert(i / 64 == 0 && i % 64 == i);
    } else {
        let j = (i - 64) as nat;
        lemma_pow2_adds(64, j);
        lemma_pow2_pos(j);
        assert(pow2(i) == 0x1_0000_0000_0000_0000 * pow2(j));
        lemma_div_denominator(x as int, 0x1_0000_0000_0000_0000, pow2(j) as int);
        assert(x / 0x1_0000_0000_0000_0000 == rest);
        assert(x / pow2(i) == rest / pow2(j));
        lemma_nat_bit_limbs(l.skip(1), j);
        assert(j / 64 == i / 64 - 1 && j % 64 == i % 64);
        assert(l.skip(1)[(j / 64) as int] == l[(i / 64) as int]);
    }
}

/// The sum of the elements of a sequence.
pub open spec fn seq_sum(p: nat, s: Seq<nat>) -> nat
    decreases s.len(),
{
    if s.len() == 0 {
        0
    } else {
        fadd(p, seq_sum(p, s.drop_last()), s.last())
    }
}

/// The product of the elements of a sequence.
pub open spec fn seq_prod(p: nat, s: Seq<nat>) -> nat
    decreases s.len(),
{
    if s.len() == 0 {
        1
    } else {
        fmul(p, seq_prod(p, s.drop_last()), s.last())
    }
}

/// Every power is below the modulus.
pub proof fn lemma_fpow_bound(p: nat, a: nat, e: nat)
    requires
        p > 0,
    ensures
        fpow(p, a, e) < p,
{
    if e == 0 {
        lemma_mod_bound(1, p as int);
    } else {
        lemma_mod_bound((a * fpow(p, a, (e - 1) as nat)) as int, p as int);
    }
}

/// Powers add in the exponent: `a^(m+n) = a^m * a^n`.
pub proof fn lemma_fpow_add(p: nat, a: nat, m: nat, n: nat)
    requires
        p > 1,
    ensures
        fpow(p, a, m + n) == fmul(p, fpow(p, a, m), fpow(p, a, n)),
    decreases m,
{
    let b = fpow(p, a, n);
    lemma_fpow_bound(p, a, n);
    if m == 0 {
        lemma_small_mod(1, p);
        lemma_small_mod(b, p);
        assert(1 * b == b);
    } else {
        let x = fpow(p, a, (m - 1) as nat);
        lemma_fpow_add(p, a, (m - 1) as nat, n);
        assert(fpow(p, a, m + n) == fmul(p, a, fpow(p, a, (m - 1 + n) as nat)));
        assert(fpow(p, a, (m - 1 + n) as nat) == (x * b) % p);
        lemma_mul_mod_noop_right(a as int, (x * b) as int, p as int);
        assert(fpow(p, a, m + n) == (a * (x * b)) % p);
        assert(fpow(p, a, m) == (a * x) % p);
        lemma_mul_mod_noop_left((a * x) as int, b as int, p as int);
        assert(fmul(p, fpow(p, a, m), b) == ((a * x) * b) % p);
        assert(a * (x * b) == (a * x) * b) by (nonlinear_arith);
    }
}

/// The first power of a reduced element is the element.
pub proof fn lemma_fpow_one(p: nat, a: nat)
    requires
        p > 1,
        a < p,
    ensures
        fpow(p, a, 1) == a,
{
    assert(fpow(p, a, 0) == 1nat % p);
    lemma_small_mod(1, p);
    assert(fpow(p, a, 1) == fmul(p, a, fpow(p, a, 0)));
    assert(a * 1 == a);
    lemma_small_mod(a, p);
}

/// `((x mod m) + y) mod m = (x + y) mod m`.
pub proof fn lemma_add_mod_noop_left(x: int, y: int, m: int)
    requires
        0 < m,
    ensures
        ((x % m) + y) % m == (x + y) % m,
{
    lemma_add_mod_noop_right(y, x, m);
}

/// Multiplication in the field is associative.
pub proof fn lemma_fmul_assoc(p: nat, a: nat, b: nat, c: nat)
    requires
        p > 0,
    ensures
        fmul(p, fmul(p, a, b), c) == fmul(p, a, fmul(p, b, c)),
{
    lemma_mul_mod_noop_left((a * b) as int, c as int, p as int);
    lemma_mul_mod_noop_right(a as int, (b * c) as int, p as int);
    assert((a * b) * c == a * (b * c)) by (nonlinear_arith);
}

/// Multiplication in the field is commutative.
pub proof fn lemma_fmul_comm(p: nat, a: nat, b: nat)
    ensures
        fmul(p, a, b) == fmul(p, b, a),
{
    assert(a * b == b * a) by (nonlinear_arith);
}

/// `(a b) (c d) = (a c) (b d)` in the field.
pub proof fn lemma_fmul_pairs(p: nat, a: nat, b: nat, c: nat, d: nat)
    requires
        p > 0,
    ensures
        fmul(p, fmul(p, a, b), fmul(p, c, d)) == fmul(p, fmul(p, a, c), fmul(p, b, d)),
{
    lemma_mul_mod_noop((a * b) as int, (c * d) as int, p as int);
    lemma_mul_mod_noop((a * c) as int, (b * d) as int, p as int);
    assert((a * b) * (c * d) == (a * c) * (b * d)) by (nonlinear_arith);
}

/// `e + x (e q) = e (1 + q x)` in the field.
pub proof fn lemma_factor_out(p: nat, e: nat, x: nat, q: nat)
    requires
        p > 0,
    ensures
        fadd(p, e, fmul(p, x, fmul(p, e, q))) == fmul(p, e, fadd(p, 1, fmul(p, q, x))),
{
    lemma_mul_mod_noop_right(x as int, (e * q) as int, p as int);
    lemma_add_mod_noop_right(e as int, (x * (e * q)) as int, p as int);
    lemma_add_mod_noop_right(1, (q * x) as int, p as int);
    lemma_mul_mod_noop_right(e as int, (1 + q * x) as int, p as int);
    assert(e * (1 + q * x) == e + x * (e * q)) by (nonlinear_arith);
}

/// With `d` the inverse of `c`: `d + c x = d (1 + c^2 x)` in the field.
pub proof fn lemma_factor_inverse(p: nat, c: nat, d: nat, x: nat)
    requires
        p > 1,
        fmul(p, c, d) == 1,
    ensures
        fadd(p, d, fmul(p, c, x)) == fmul(p, d, fadd(p, 1, fmul(p, fmul(p, c, c), x))),
{
    // the right side is d + (d c) (c x)
    lemma_mul_mod_noop_left((c * c) as int, x as int, p as int);
    lemma_add_mod_noop_right(1, ((c * c) * x) as int, p as int);
    lemma_mul_mod_noop_right(d as int, (1 + (c * c) * x) as int, p as int);
    assert(d * (1 + (c * c) * x) == d + (c * d) * (c * x)) by (nonlinear_arith);
    // and d c is one
    lemma_mul_mod_noop_left((c * d) as int, (c * x) as int, p as int);
    lemma_small_mod(1, p);
    assert(1 * (c * x) == c * x) by (nonlinear_arith);
    assert(((c * d) * (c * x)) % p == (c * x) % p);
    lemma_add_mod_noop_right(d as int, ((c * d) * (c * x)) as int, p as int);
    lemma_add_mod_noop_right(d as int, (c * x) as int, p as int);
}

/// The product of a sequence is its first element times the product of the others.
pub proof fn lemma_seq_prod_front(p: nat, s: Seq<nat>)
    requires
        p > 0,
        s.len() > 0,
    ensures
        seq_prod(p, s) == fmul(p, s[0], seq_prod(p, s.skip(1))),
    decreases s.len(),
{
    if s.len() == 1 {
        assert(s.drop_last().len() == 0);
        assert(s.skip(1).len() == 0);
        assert(seq_prod(p, s.drop_last()) == 1);
        assert(seq_prod(p, s.skip(1)) == 1);
        assert(s.last() == s[0]);
        lemma_fmul_comm(p, 1, s[0]);
    } else {
        let front = s.drop_last();
        let back = s.skip(1);
        lemma_seq_prod_front(p, front);
        assert(front.skip(1) =~= back.drop_last());
        assert(back.last() == s.last());
        assert(front[0] == s[0]);
        assert(seq_prod(p, s) == fmul(p, seq_prod(p, front), s.last()));
        assert(seq_prod(p, back) == fmul(p, seq_prod(p, back.drop_last()), back.last()));
        lemma_fmul_assoc(p, s[0], seq_prod(p, front.skip(1)), s.last());
    }
}

/// The product of the products of two sequences is the product of the sequence of
/// the products of their elements.
pub proof fn lemma_seq_prod_pairs(p: nat, a: Seq<nat>, b: Seq<nat>, c: Seq<nat>)
    requires
        p > 1,
        a.len() == b.len(),
        a.len() == c.len(),
        forall|i: int| 0 <= i < c.len() ==> #[trigger] c[i] == fmul(p, a[i], b[i]),
    ensures
        seq_prod(p, c) == fmul(p, seq_prod(p, a), seq_prod(p, b)),
    decreases c.len(),
{
    if c.len() == 0 {
        lemma_small_mod(1, p);
        assert(1 * 1 == 1) by (nonlinear_arith);
    } else {
        let n = c.len() - 1;
        lemma_seq_prod_pairs(p, a.drop_last(), b.drop_last(), c.drop_last());
        assert(c.last() == c[n]);
        lemma_fmul_pairs(p, seq_prod(p, a.drop_last()), seq_prod(p, b.drop_last()), a[n], b[n]);
    }
}

} // verus!
