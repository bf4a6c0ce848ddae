//! Two ways to compute `x1 * g1 + x2 * g2` in one pass over the bits of both scalars:
//! two bits of each at a time with a table of sixteen sums, and bit by bit.

use crate::arith::{limbs_nat, nat_bit};
use crate::curve::CommitmentCurve;
use crate::field::PrimeField;
use crate::sponge::get_bit;
use vstd::prelude::*;

verus! {

/// `base + g + ... + g`, with `k` times `g`, summed from the left.
pub open spec fn add_times<G: CommitmentCurve>(
    base: (nat, nat, bool),
    g: (nat, nat, bool),
    k: nat,
) -> (nat, nat, bool)
    decreases k,
{
    if k == 0 {
        base
    } else {
        G::add_spec(add_times::<G>(base, g, (k - 1) as nat), g)
    }
}

/// The entry of the window table for the digits `w1` of the first scalar and `w2` of
/// the second: `w2 * g2 + w1 * g1`, built up by single additions. The entry for two
/// zero digits is the generator and is never added.
pub open spec fn table_entry<G: CommitmentCurve>(
    g1: (nat, nat, bool),
    g2: (nat, nat, bool),
    w1: nat,
    w2: nat,
) -> (nat, nat, bool) {
    if w2 == 0 {
        if w1 == 0 {
            (crate::arith::fneg(G::BaseField::modulus(), 1), 2nat, false)
        } else {
            add_times::<G>(g1, g1, (w1 - 1) as nat)
        }
    } else {
        add_times::<G>(add_times::<G>(g2, g2, (w2 - 1) as nat), g1, w1)
    }
}

/// The window table: entry `w1 + 4 * w2` belongs to the digits `w1` and `w2`.
pub open spec fn table_spec<G: CommitmentCurve>(g1: (nat, nat, bool), g2: (nat, nat, bool)) -> Seq<
    (nat, nat, bool),
> {
    Seq::new(16, |i: int| table_entry::<G>(g1, g2, (i % 4) as nat, (i / 4) as nat))
}

/// The table index of window `j` of the two scalars, windows counted from the top of
/// 256 bits.
pub open spec fn window_index(x1: nat, x2: nat, j: nat) -> nat {
    2 * nat_bit(x1, (255 - 2 * j) as nat) + nat_bit(x1, (254 - 2 * j) as nat) + 4 * (2 * nat_bit(
        x2,
        (255 - 2 * j) as nat,
    ) + nat_bit(x2, (254 - 2 * j) as nat))
}

/// The accumulator after the first `w` windows: doubled twice per window, and the
/// table entry of the window added where its index is not zero.
pub open spec fn window_acc<G: CommitmentCurve>(
    table: Seq<(nat, nat, bool)>,
    x1: nat,
    x2: nat,
    w: nat,
) -> (nat, nat, bool)
    decreases w,
{
    if w == 0 {
        (0nat, 0nat, true)
    } else {
        let prev = window_acc::<G>(table, x1, x2, (w - 1) as nat);
        let d1 = G::add_spec(prev, prev);
        let d2 = G::add_spec(d1, d1);
        let idx = window_index(x1, x2, (w - 1) as nat);
        if idx == 0 {
            d2
        } else {
            G::add_spec(d2, table[idx as int])
        }
    }
}

/// The result of the windowed method on `x1, g1, x2, g2`.
pub open spec fn window_shamir_spec<G: CommitmentCurve>(
    x1: nat,
    g1: (nat, nat, bool),
    x2: nat,
    g2: (nat, nat, bool),
) -> (nat, nat, bool) {
    window_acc::<G>(table_spec::<G>(g1, g2), x1, x2, 128)
}

/// The accumulator of the bitwise method after the first `w` bits from the top of 256:
/// doubled once per bit, and `g1`, `g2` or their sum added as the two bits say.
pub open spec fn shamir_acc<G: CommitmentCurve>(
    x1: nat,
    g1: (nat, nat, bool),
    x2: nat,
    g2: (nat, nat, bool),
    w: nat,
) -> (nat, nat, bool)
    decreases w,
{
    if w == 0 {
        (0nat, 0nat, true)
    } else {
        let prev = shamir_acc::<G>(x1, g1, x2, g2, (w - 1) as nat);
        let d = G::add_spec(prev, prev);
        let b1 = nat_bit(x1, (256 - w) as nat);
        let b2 = nat_bit(x2, (256 - w) as nat);
        if b1 == 1 && b2 == 1 {
            G::add_spec(d, G::add_spec(g1, g2))
        } else if b2 == 1 {
            G::add_spec(d, g2)
        } else if b1 == 1 {
            G::add_spec(d, g1)
        } else {
            d
        }
    }
}

/// The result of the bitwise method on `x1, g1, x2, g2`.
pub open spec fn shamir_sum_spec<G: CommitmentCurve>(
    x1: nat,
    g1: (nat, nat, bool),
    x2: nat,
    g2: (nat, nat, bool),
) -> (nat, nat, bool) {
    shamir_acc::<G>(x1, g1, x2, g2, 256)
}

/// The models of the entries of a table.
pub open spec fn table_models<G: CommitmentCurve>(t: [G; 16]) -> Seq<(nat, nat, bool)> {
    Seq::new(16, |i: int| t@[i].model())
}

/// The sixteen sums `w2 * g2 + w1 * g1` for two-bit digits `w1` and `w2`, at index
/// `w1 + 4 * w2`.
pub fn shamir_window_table<G: CommitmentCurve>(g1: G, g2: G) -> (r: [G; 16])
    ensures
        table_models(r) == table_spec::<G>(g1.model(), g2.model()),
{
    let g00_00: G = G::prime_subgroup_generator();
    let g01_00: G = g1;
    let g10_00: G = g01_00.add(&g1);
    let g11_00: G = g10_00.add(&g1);
    let g00_01: G = g2;
    let g01_01: G = g00_01.add(&g1);
    let g10_01: G = g01_01.add(&g1);
    let g11_01: G = g10_01.add(&g1);
    let g00_10: G = g00_01.add(&g2);
    let g01_10: G = g00_10.add(&g1);
    let g10_10: G = g01_10.add(&g1);
    let g11_10: G = g10_10.add(&g1);
    let g00_11: G = g00_10.add(&g2);
    let g01_11: G = g00_11.add(&g1);
    let g10_11: G = g01_11.add(&g1);
    let g11_11: G = g10_11.add(&g1);
    let r: [G; 16] = [
        g00_00,
        g01_00,
        g10_00,
        g11_00,
        g00_01,
        g01_01,
        g10_01,
        g11_01,
        g00_10,
        g01_10,
        g10_10,
        g11_10,
        g00_11,
        g01_11,
        g10_11,
        g11_11,
    ];
    proof {
        reveal_with_fuel(add_times, 4);
        let t = table_spec::<G>(g1.model(), g2.model());
        assert forall|i: int| 0 <= i < 16 implies table_models(r)[i] == t[i] by {
            assert(r@[i] == r[i]);
        }
        assert(table_models(r) =~= t);
    }
    r
}

/// `x1 * g1 + x2 * g2`, two bits of each scalar at a time.
pub fn window_shamir<G: CommitmentCurve>(x1: G::ScalarField, g1: G, x2: G::ScalarField, g2: G) -> (r:
    G)
    ensures
        r.model() == window_shamir_spec::<G>(x1.val(), g1.model(), x2.val(), g2.model()),
{
    let table: [G; 16] = shamir_window_table(g1, g2);
    let rep1: [u64; 4] = x1.into_repr();
    let rep2: [u64; 4] = x2.into_repr();
    let mut res: G = G::zero();
    let mut w: u64 = 0;
    while w < 128
        invariant
            w <= 128,
            rep1@.len() == 4,
            rep2@.len() == 4,
            limbs_nat(rep1@) == x1.val(),
            limbs_nat(rep2@) == x2.val(),
            table_models(table) == table_spec::<G>(g1.model(), g2.model()),
            res.model() == window_acc::<G>(
                table_spec::<G>(g1.model(), g2.model()),
                x1.val(),
                x2.val(),
                w as nat,
            ),
        decreases 128 - w,
    {
        res = res.double();
        res = res.double();
        let hi_1: u64 = get_bit(rep1.as_slice(), 255 - 2 * w);
        let lo_1: u64 = get_bit(rep1.as_slice(), 254 - 2 * w);
        let hi_2: u64 = get_bit(rep2.as_slice(), 255 - 2 * w);
        let lo_2: u64 = get_bit(rep2.as_slice(), 254 - 2 * w);
        let idx: u64 = 2 * hi_1 + lo_1 + 4 * (2 * hi_2 + lo_2);
        if idx != 0 {
            assert(table_models(table)[idx as int] == table@[idx as int].model());
            res = res.add(&table[idx as usize]);
        }
        w = w + 1;
    }
    res
}

/// `x1 * g1 + x2 * g2`, one bit of each scalar at a time.
pub fn shamir_sum<G: CommitmentCurve>(x1: G::ScalarField, g1: G, x2: G::ScalarField, g2: G) -> (r: G)
    ensures
        r.model() == shamir_sum_spec::<G>(x1.val(), g1.model(), x2.val(), g2.model()),
{
    let g1g2: G = g1.add(&g2);
    let rep1: [u64; 4] = x1.into_repr();
    let rep2: [u64; 4] = x2.into_repr();
    let mut res: G = G::zero();
    let mut w: u64 = 0;
    while w < 256
        invariant
            w <= 256,
            rep1@.len() == 4,
            rep2@.len() == 4,
            limbs_nat(rep1@) == x1.val(),
            limbs_nat(rep2@) == x2.val(),
            g1g2.model() == G::add_spec(g1.model(), g2.model()),
            res.model() == shamir_acc::<G>(
                x1.val(),
                g1.model(),
                x2.val(),
                g2.model(),
                w as nat,
            ),
        decreases 256 - w,
    {
        res = res.double();
        let b1: u64 = get_bit(rep1.as_slice(), 255 - w);
        let b2: u64 = get_bit(rep2.as_slice(), 255 - w);
        if b1 == 1 && b2 == 1 {
            res = res.add(&g1g2);
        } else if b2 == 1 {
            res = res.add(&g2);
        } else if b1 == 1 {
            res = res.add(&g1);
        }
        w = w + 1;
    }
    res
}

} // verus!
