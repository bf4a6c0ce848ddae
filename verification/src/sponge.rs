//! The transcript: a sponge over the base field of a curve that takes in points and
//! scalars and gives challenges out, a sponge over one field for evaluations, and the
//! reading of a short challenge as a scalar.

use crate::arith::{
    fadd, finv, fmul, fneg, fpow, fsub, lemma_limbs4, lemma_limbs4_unique, lemma_nat_bit_limbs,
    limbs_nat, nat_bit, nat_limbs4,
};
use crate::curve::{models, CommitmentCurve};
use crate::error::ProofError;
use crate::field::PrimeField;
use crate::poseidon::{
    absorb_one_spec, squeeze_next_spec, squeeze_out_spec, ArithmeticSponge, ArithmeticSpongeParams,
    Sponge, SpongeModel,
};
use vstd::arithmetic::div_mod::lemma_fundamental_div_mod_converse;
use vstd::arithmetic::power2::{lemma2_to64, lemma2_to64_rest, pow2};
use vstd::prelude::*;

verus! {

pub const DIGEST_LENGTH_IN_LIMBS: usize = 4;

pub const CHALLENGE_LENGTH_IN_LIMBS: usize = 2;

pub const HIGH_ENTROPY_LIMBS: usize = 4;

/// Bit `i` of a little-endian sequence of limbs.
pub fn get_bit(limbs_lsb: &[u64], i: u64) -> (r: u64)
    requires
        i / 64 < limbs_lsb@.len(),
    ensures
        r == nat_bit(limbs_nat(limbs_lsb@), i as nat),
{
    let limb: u64 = i / 64;
    let j: u64 = i % 64;
    let x: u64 = limbs_lsb[limb as usize];
    proof {
        lemma_nat_bit_limbs(limbs_lsb@, i as nat);
        vstd::bits::lemma_u64_shr_is_div(x, j);
        let y: u64 = x >> j;
        assert(y & 1 == y % 2) by (bit_vector);
    }
    (x >> j) & 1
}

/// The first four limbs of `limbs`, with zeros where there are fewer.
pub open spec fn pack_spec(limbs: Seq<u64>) -> Seq<u64> {
    Seq::new(
        4,
        |i: int|
            if i < limbs.len() {
                limbs[i]
            } else {
                0u64
            },
    )
}

/// The field element that four limbs spell: their number, or zero where it is not
/// below the modulus.
pub open spec fn repr_value(p: nat, limbs: Seq<u64>) -> nat {
    if limbs_nat(limbs) < p {
        limbs_nat(limbs)
    } else {
        0
    }
}

/// Packs little-endian limbs into the four limbs of a 256-bit integer.
pub fn pack(limbs_lsb: &[u64]) -> (r: [u64; 4])
    ensures
        r@ == pack_spec(limbs_lsb@),
{
    let n: usize = limbs_lsb.len();
    let r: [u64; 4] = [
        if 0 < n {
            limbs_lsb[0]
        } else {
            0
        },
        if 1 < n {
            limbs_lsb[1]
        } else {
            0
        },
        if 2 < n {
            limbs_lsb[2]
        } else {
            0
        },
        if 3 < n {
            limbs_lsb[3]
        } else {
            0
        },
    ];
    assert(r@ =~= pack_spec(limbs_lsb@));
    r
}

/// The two accumulators after the bit pair `i` of `x` has been read.
pub open spec fn endo_step(p: nat, ab: (nat, nat), x: nat, i: nat) -> (nat, nat) {
    let a = fadd(p, ab.0, ab.0);
    let b = fadd(p, ab.1, ab.1);
    let s = if nat_bit(x, 2 * i) == 0 {
        fneg(p, 1)
    } else {
        1
    };
    if nat_bit(x, 2 * i + 1) == 0 {
        (a, fadd(p, b, s))
    } else {
        (fadd(p, a, s), b)
    }
}

/// The two accumulators after the bit pairs `63` down to `i` of `x` have been read.
/// Both start at `2`.
pub open spec fn endo_ab(p: nat, x: nat, i: nat) -> (nat, nat)
    decreases 64 - i,
{
    if i >= 64 {
        (2, 2)
    } else {
        endo_step(p, endo_ab(p, x, i + 1), x, i)
    }
}

/// The scalar `a * endo + b` that the 128 low bits of `x` stand for.
pub open spec fn to_field_spec(p: nat, x: nat, endo: nat) -> nat {
    let ab = endo_ab(p, x, 0);
    fadd(p, fmul(p, ab.0, endo), ab.1)
}

/// A challenge that is used as a scalar on a group element in the verifier.
#[derive(Clone, Copy, Debug)]
pub struct ScalarChallenge<F: PrimeField>(pub F);

impl<F: PrimeField> ScalarChallenge<F> {
    /// Reads the challenge as a scalar, pair of bits by pair of bits from the top.
    pub fn to_field(&self, endo_coeff: &F) -> (r: F)
        ensures
            r.val() == to_field_spec(F::modulus(), self.0.val(), endo_coeff.val()),
    {
        let length_in_bits: u64 = 128;
        let rep: [u64; 4] = self.0.into_repr();
        let mut a: F = F::from_u64(2);
        let mut b: F = F::from_u64(2);
        let one: F = F::one();
        let neg_one: F = one.neg();
        let mut i: u64 = length_in_bits / 2;
        while i > 0
            invariant
                i <= 64,
                rep@.len() == 4,
                limbs_nat(rep@) == self.0.val(),
                one.val() == 1,
                neg_one.val() == fneg(F::modulus(), 1),
                (a.val(), b.val()) == endo_ab(F::modulus(), self.0.val(), i as nat),
            decreases i,
        {
            i = i - 1;
            a = a.double();
            b = b.double();
            let r_2i: u64 = get_bit(rep.as_slice(), 2 * i);
            let s: F = if r_2i == 0 {
                neg_one
            } else {
                one
            };
            if get_bit(rep.as_slice(), 2 * i + 1) == 0 {
                b = b.add(&s);
            } else {
                a = a.add(&s);
            }
        }
        a.mul(endo_coeff).add(&b)
    }
}

/// The value of [`endo_coefficient`]: the generator raised to a third of `p - 1`.
pub open spec fn endo_coefficient_spec(p: nat, generator: nat) -> nat {
    fpow(p, generator, fmul(p, fsub(p, 0, 1), finv(p, 3)))
}

/// A primitive cube root of unity of the field: the generator of the multiplicative
/// group raised to the power `(p - 1) / 3`.
pub fn endo_coefficient<F: PrimeField>() -> (r: F)
    ensures
        r.val() == endo_coefficient_spec(F::modulus(), F::generator_value()),
{
    let three: F = F::from_u64(3);
    let third: F = match three.inverse() {
        Some(x) => x,
        None => F::zero(),
    };
    let e: [u64; 4] = F::zero().sub(&F::one()).mul(&third).into_repr();
    let t: F = F::multiplicative_generator();
    t.pow(e.as_slice())
}

/// The first `n` limbs of `v`, which keeps the others.
pub fn take_limbs(v: &mut Vec<u64>, n: usize) -> (r: Vec<u64>)
    requires
        n <= old(v)@.len(),
    ensures
        r@ == old(v)@.take(n as int),
        final(v)@ == old(v)@.skip(n as int),
{
    let mut head: Vec<u64> = Vec::new();
    let mut tail: Vec<u64> = Vec::new();
    let mut i: usize = 0;
    while i < v.len()
        invariant
            i <= v@.len(),
            n <= v@.len(),
            v@ == old(v)@,
            head@ == v@.take(if i <= n {
                i as int
            } else {
                n as int
            }),
            tail@ == v@.subrange(n as int, if i <= n {
                n as int
            } else {
                i as int
            }),
        decreases v@.len() - i,
    {
        if i < n {
            head.push(v[i]);
        } else {
            tail.push(v[i]);
        }
        i = i + 1;
    }
    assert(tail@ =~= v@.skip(n as int));
    *v = tail;
    head
}

/// A Poseidon sponge together with the limbs that were squeezed and not yet used.
pub ghost struct LimbSpongeModel {
    pub sponge: SpongeModel,
    pub last_squeezed: Seq<u64>,
}

/// The limbs that squeezing `num` limbs gives, and the sponge afterwards. Where too few
/// limbs are left, the sponge is squeezed and the four limbs of what comes out are
/// put behind them.
pub open spec fn squeeze_limbs_spec(
    p: nat,
    rcs: Seq<Seq<nat>>,
    mds: Seq<Seq<nat>>,
    m: LimbSpongeModel,
    num: nat,
) -> (Seq<u64>, LimbSpongeModel)
    decreases
        (if num > m.last_squeezed.len() {
            num - m.last_squeezed.len()
        } else {
            0
        }),
{
    if m.last_squeezed.len() >= num {
        (
            m.last_squeezed.take(num as int),
            LimbSpongeModel { sponge: m.sponge, last_squeezed: m.last_squeezed.skip(num as int) },
        )
    } else {
        squeeze_limbs_spec(
            p,
            rcs,
            mds,
            LimbSpongeModel {
                sponge: squeeze_next_spec(p, rcs, mds, m.sponge),
                last_squeezed: m.last_squeezed + nat_limbs4(squeeze_out_spec(p, rcs, mds, m.sponge)),
            },
            num,
        )
    }
}

/// The sponge after it has taken in the first `n` of the elements `xs`. What was
/// squeezed and not used is dropped.
pub open spec fn absorb_elements_spec(
    p: nat,
    rcs: Seq<Seq<nat>>,
    mds: Seq<Seq<nat>>,
    m: LimbSpongeModel,
    xs: Seq<nat>,
) -> LimbSpongeModel {
    LimbSpongeModel {
        sponge: crate::poseidon::absorb_spec(p, rcs, mds, m.sponge, xs, xs.len()),
        last_squeezed: Seq::empty(),
    }
}

/// Squeezes `num_limbs` limbs out of a sponge that keeps unused limbs in `last`.
pub fn squeeze_limbs_from<F: PrimeField>(
    params: &ArithmeticSpongeParams<F>,
    sponge: &mut ArithmeticSponge<F>,
    last: &mut Vec<u64>,
    num_limbs: usize,
) -> (r: Vec<u64>)
    requires
        old(sponge).wf(),
        params.wf(),
    ensures
        final(sponge).wf(),
        (r@, LimbSpongeModel { sponge: final(sponge)@, last_squeezed: final(last)@ })
            == squeeze_limbs_spec(
            F::modulus(),
            params.rcs(),
            params.matrix(),
            LimbSpongeModel { sponge: old(sponge)@, last_squeezed: old(last)@ },
            num_limbs as nat,
        ),
{
    while last.len() < num_limbs
        invariant
            sponge.wf(),
            params.wf(),
            squeeze_limbs_spec(
                F::modulus(),
                params.rcs(),
                params.matrix(),
                LimbSpongeModel { sponge: sponge@, last_squeezed: last@ },
                num_limbs as nat,
            ) == squeeze_limbs_spec(
                F::modulus(),
                params.rcs(),
                params.matrix(),
                LimbSpongeModel { sponge: old(sponge)@, last_squeezed: old(last)@ },
                num_limbs as nat,
            ),
        decreases
            (if num_limbs > last@.len() {
                num_limbs - last@.len()
            } else {
                0
            }),
    {
        let ghost before = last@;
        let x: [u64; 4] = sponge.squeeze(params).into_repr();
        proof {
            lemma_limbs4_unique(x@);
            assert(x@.len() == 4);
        }
        last.push(x[0]);
        last.push(x[1]);
        last.push(x[2]);
        last.push(x[3]);
        assert(last@ =~= before + x@);
    }
    take_limbs(last, num_limbs)
}

/// The transcript sponge over the base field of the curve `G`.
pub struct DefaultFqSponge<G: CommitmentCurve> {
    pub params: ArithmeticSpongeParams<G::BaseField>,
    pub sponge: ArithmeticSponge<G::BaseField>,
    pub last_squeezed: Vec<u64>,
}

/// What the low 254 bits and bit 254 of a scalar are, as the two elements that a
/// sponge over a field no larger than the scalar field takes in for it.
pub open spec fn split_scalar(x: nat) -> Seq<nat> {
    seq![x % pow2(254), (x / pow2(254)) % 2]
}

/// The elements of the base field that stand for the scalar `x` in the transcript:
/// `x` itself where the scalar field is the smaller one, else its low bits and its
/// high bit.
pub open spec fn scalar_elements(r: nat, q: nat, x: nat) -> Seq<nat> {
    if r < q {
        seq![x]
    } else {
        split_scalar(x)
    }
}

/// The coordinates of the first `n` points, `x` before `y`, in order.
pub open spec fn coordinates(points: Seq<(nat, nat, bool)>, n: nat) -> Seq<nat>
    decreases n,
{
    if n == 0 {
        Seq::empty()
    } else {
        coordinates(points, (n - 1) as nat).push(points[n - 1].0).push(points[n - 1].1)
    }
}

/// Whether one of the points is the point at infinity.
pub open spec fn has_infinity(points: Seq<(nat, nat, bool)>) -> bool {
    exists|i: int| 0 <= i < points.len() && (#[trigger] points[i]).2
}

/// Whether four limbs spell a smaller number than four others.
pub fn limbs_lt(a: &[u64; 4], b: &[u64; 4]) -> (r: bool)
    ensures
        r == (limbs_nat(a@) < limbs_nat(b@)),
{
    proof {
        lemma_limbs4(a@);
        lemma_limbs4(b@);
    }
    if a[3] != b[3] {
        a[3] < b[3]
    } else if a[2] != b[2] {
        a[2] < b[2]
    } else if a[1] != b[1] {
        a[1] < b[1]
    } else {
        a[0] < b[0]
    }
}

impl<G: CommitmentCurve> DefaultFqSponge<G> {
    /// What the contracts see of the sponge.
    pub open spec fn view(&self) -> LimbSpongeModel {
        LimbSpongeModel { sponge: self.sponge@, last_squeezed: self.last_squeezed@ }
    }

    /// The parameters and the sponge are well formed.
    pub open spec fn wf(&self) -> bool {
        self.params.wf() && self.sponge.wf()
    }

    /// A fresh transcript with the given parameters.
    pub fn new(params: ArithmeticSpongeParams<G::BaseField>) -> (r: Self)
        requires
            params.wf(),
        ensures
            r.wf(),
            r.params == params,
            r@.sponge.mode == crate::poseidon::SpongeState::Absorbed(0),
            r@.sponge.state == Seq::new(crate::poseidon::SPONGE_WIDTH as nat, |i: int| 0nat),
            r@.last_squeezed.len() == 0,
    {
        DefaultFqSponge { params, sponge: ArithmeticSponge::new(), last_squeezed: Vec::new() }
    }

    /// A copy of the transcript, to go on from the same state twice.
    pub fn duplicate(&self) -> (r: Self)
        ensures
            r@ == self@,
            r.wf() == self.wf(),
            r.params.rcs() == self.params.rcs(),
            r.params.matrix() == self.params.matrix(),
    {
        let mut last: Vec<u64> = Vec::new();
        let mut i: usize = 0;
        while i < self.last_squeezed.len()
            invariant
                i <= self.last_squeezed@.len(),
                last@ == self.last_squeezed@.take(i as int),
            decreases self.last_squeezed@.len() - i,
        {
            last.push(self.last_squeezed[i]);
            i = i + 1;
        }
        assert(last@ =~= self.last_squeezed@);
        DefaultFqSponge {
            params: self.params.duplicate(),
            sponge: self.sponge.duplicate(),
            last_squeezed: last,
        }
    }

    pub fn squeeze_limbs(&mut self, num_limbs: usize) -> (r: Vec<u64>)
        requires
            old(self).wf(),
        ensures
            final(self).wf(),
            final(self).params == old(self).params,
            (r@, final(self)@) == squeeze_limbs_spec(
                G::BaseField::modulus(),
                old(self).params.rcs(),
                old(self).params.matrix(),
                old(self)@,
                num_limbs as nat,
            ),
    {
        squeeze_limbs_from(&self.params, &mut self.sponge, &mut self.last_squeezed, num_limbs)
    }

    /// The scalar that the next `num_limbs` limbs spell.
    pub fn squeeze(&mut self, num_limbs: usize) -> (r: G::ScalarField)
        requires
            old(self).wf(),
        ensures
            final(self).wf(),
            final(self).params == old(self).params,
            final(self)@ == squeeze_limbs_spec(
                G::BaseField::modulus(),
                old(self).params.rcs(),
                old(self).params.matrix(),
                old(self)@,
                num_limbs as nat,
            ).1,
            r.val() == repr_value(
                G::ScalarField::modulus(),
                pack_spec(
                    squeeze_limbs_spec(
                        G::BaseField::modulus(),
                        old(self).params.rcs(),
                        old(self).params.matrix(),
                        old(self)@,
                        num_limbs as nat,
                    ).0,
                ),
            ),
    {
        let limbs = self.squeeze_limbs(num_limbs);
        G::ScalarField::from_repr(pack(limbs.as_slice()))
    }

    /// Takes the coordinates of the points in, `x` before `y`. A point at infinity
    /// among them is refused, and the transcript is then left as it was: none of the
    /// points goes in.
    pub fn absorb_g(&mut self, g: &[G]) -> (r: Result<(), ProofError>)
        requires
            old(self).wf(),
        ensures
            final(self).wf(),
            final(self).params == old(self).params,
            r is Err <==> has_infinity(models(g@)),
            r matches Err(e) ==> e == ProofError::OracleCommit,
            r is Err ==> final(self)@ == old(self)@,
            r is Ok ==> final(self)@ == absorb_elements_spec(
                G::BaseField::modulus(),
                old(self).params.rcs(),
                old(self).params.matrix(),
                old(self)@,
                coordinates(models(g@), g@.len()),
            ),
    {
        let mut k: usize = 0;
        while k < g.len()
            invariant
                k <= g@.len(),
                forall|j: int| 0 <= j < k ==> !(#[trigger] models(g@)[j]).2,
                self.wf(),
                self.params == old(self).params,
                self@ == old(self)@,
            decreases g@.len() - k,
        {
            if g[k].is_zero() {
                assert(models(g@)[k as int].2);
                return Err(ProofError::OracleCommit);
            }
            k = k + 1;
        }
        self.last_squeezed = Vec::new();
        let mut i: usize = 0;
        while i < g.len()
            invariant
                i <= g@.len(),
                forall|j: int| 0 <= j < g@.len() ==> !(#[trigger] models(g@)[j]).2,
                self.wf(),
                self.params == old(self).params,
                self.last_squeezed@.len() == 0,
                self.sponge@ == crate::poseidon::absorb_spec(
                    G::BaseField::modulus(),
                    self.params.rcs(),
                    self.params.matrix(),
                    old(self)@.sponge,
                    coordinates(models(g@), i as nat),
                    2 * i as nat,
                ),
                coordinates(models(g@), i as nat).len() == 2 * i,
            decreases g@.len() - i,
        {
            let ghost before = coordinates(models(g@), i as nat);
            let ghost after = coordinates(models(g@), (i + 1) as nat);
            assert(!models(g@)[i as int].2);
            match g[i].to_coordinates() {
                Some(c) => {
                    proof {
                        lemma_absorb_prefix(
                            G::BaseField::modulus(),
                            self.params.rcs(),
                            self.params.matrix(),
                            old(self)@.sponge,
                            before,
                            after,
                            2 * i as nat,
                        );
                        assert(after[2 * i as int] == c.0.val());
                        assert(after[2 * i + 1] == c.1.val());
                    }
                    let ghost s0 = self.sponge@;
                    self.sponge.absorb_one(&self.params, &c.0);
                    let ghost s1 = self.sponge@;
                    self.sponge.absorb_one(&self.params, &c.1);
                    proof {
                        let p = G::BaseField::modulus();
                        let rcs = self.params.rcs();
                        let mds = self.params.matrix();
                        let start = old(self)@.sponge;
                        assert(crate::poseidon::absorb_spec(p, rcs, mds, start, after, 2 * i as nat)
                            == s0);
                        assert(crate::poseidon::absorb_spec(
                            p,
                            rcs,
                            mds,
                            start,
                            after,
                            (2 * i + 1) as nat,
                        ) == s1);
                        assert(crate::poseidon::absorb_spec(
                            p,
                            rcs,
                            mds,
                            start,
                            after,
                            (2 * i + 2) as nat,
                        ) == self.sponge@);
                        assert(2 * (i + 1) == 2 * i + 2);
                    }
                },
                None => {},
            }
            i = i + 1;
        }
        assert(self@.last_squeezed =~= Seq::<u64>::empty());
        Ok(())
    }

    /// Takes a scalar in: as one element where the scalar field is the smaller of the
    /// two, else as its low 254 bits and its high bit.
    pub fn absorb_fr(&mut self, x: &G::ScalarField)
        requires
            old(self).wf(),
        ensures
            final(self).wf(),
            final(self).params == old(self).params,
            final(self)@ == absorb_elements_spec(
                G::BaseField::modulus(),
                old(self).params.rcs(),
                old(self).params.matrix(),
                old(self)@,
                scalar_elements(G::ScalarField::modulus(), G::BaseField::modulus(), x.val()),
            ),
    {
        self.last_squeezed = Vec::new();
        let repr: [u64; 4] = x.into_repr();
        let r_mod: [u64; 4] = G::ScalarField::modulus_repr();
        let q_mod: [u64; 4] = G::BaseField::modulus_repr();
        let ghost s0 = self.sponge@;
        let ghost p = G::BaseField::modulus();
        let ghost rcs = self.params.rcs();
        let ghost mds = self.params.matrix();
        x.canonical();
        proof {
            lemma_limbs4(repr@);
        }
        if limbs_lt(&r_mod, &q_mod) {
            let e: G::BaseField = G::BaseField::from_repr(repr);
            self.sponge.absorb_one(&self.params, &e);
            proof {
                let xs = seq![x.val()];
                assert(crate::poseidon::absorb_spec(p, rcs, mds, s0, xs, 0) == s0);
                assert(crate::poseidon::absorb_spec(p, rcs, mds, s0, xs, 1) == absorb_one_spec(
                    p,
                    rcs,
                    mds,
                    s0,
                    xs[0],
                ));
            }
        } else {
            let top: u64 = repr[3];
            let low: [u64; 4] = [repr[0], repr[1], repr[2], top & 0x3fff_ffff_ffff_ffff];
            let high: u64 = (top >> 62) & 1;
            proof {
                G::BaseField::lemma_modulus_size();
                G::ScalarField::lemma_modulus_size();
                lemma_limbs4(low@);
                lemma_split_top(top);
                lemma2_to64();
                lemma2_to64_rest();
                lemma_pow2_254();
                let lo = limbs_nat(low@);
                let v = x.val();
                let hb: nat = (top >> 62) as nat;
                assert(v == lo + 0x4000000000000000000000000000000000000000000000000000000000000000
                    * hb);
                assert(lo < 0x4000000000000000000000000000000000000000000000000000000000000000);
                assert(hb <= 1);
                lemma_fundamental_div_mod_converse(v as int, pow2(254) as int, hb as int, lo as int);
                let y: u64 = top >> 62;
                assert(y & 1 == y % 2) by (bit_vector);
                assert(high == hb % 2);
            }
            let e_low: G::BaseField = G::BaseField::from_repr(low);
            let e_high: G::BaseField = G::BaseField::from_u64(high);
            self.sponge.absorb_one(&self.params, &e_low);
            self.sponge.absorb_one(&self.params, &e_high);
            proof {
                let xs = split_scalar(x.val());
                assert(crate::poseidon::absorb_spec(p, rcs, mds, s0, xs, 0) == s0);
                assert(crate::poseidon::absorb_spec(p, rcs, mds, s0, xs, 1) == absorb_one_spec(
                    p,
                    rcs,
                    mds,
                    s0,
                    xs[0],
                ));
                assert(crate::poseidon::absorb_spec(p, rcs, mds, s0, xs, 2) == absorb_one_spec(
                    p,
                    rcs,
                    mds,
                    crate::poseidon::absorb_spec(p, rcs, mds, s0, xs, 1),
                    xs[1],
                ));
            }
        }
        assert(self@.last_squeezed =~= Seq::<u64>::empty());
    }

    /// The scalar that the next four limbs spell. Ends the transcript.
    pub fn digest(self) -> (r: G::ScalarField)
        requires
            self.wf(),
        ensures
            r.val() == repr_value(
                G::ScalarField::modulus(),
                pack_spec(
                    squeeze_limbs_spec(
                        G::BaseField::modulus(),
                        self.params.rcs(),
                        self.params.matrix(),
                        self@,
                        DIGEST_LENGTH_IN_LIMBS as nat,
                    ).0,
                ),
            ),
    {
        let mut s = self;
        s.squeeze(DIGEST_LENGTH_IN_LIMBS)
    }

    /// The scalar that the next two limbs spell.
    pub fn challenge(&mut self) -> (r: G::ScalarField)
        requires
            old(self).wf(),
        ensures
            final(self).wf(),
            final(self).params == old(self).params,
            final(self)@ == squeeze_limbs_spec(
                G::BaseField::modulus(),
                old(self).params.rcs(),
                old(self).params.matrix(),
                old(self)@,
                CHALLENGE_LENGTH_IN_LIMBS as nat,
            ).1,
            r.val() == repr_value(
                G::ScalarField::modulus(),
                pack_spec(
                    squeeze_limbs_spec(
                        G::BaseField::modulus(),
                        old(self).params.rcs(),
                        old(self).params.matrix(),
                        old(self)@,
                        CHALLENGE_LENGTH_IN_LIMBS as nat,
                    ).0,
                ),
            ),
    {
        self.squeeze(CHALLENGE_LENGTH_IN_LIMBS)
    }

    /// The element of the base field that the next two limbs spell.
    pub fn challenge_fq(&mut self) -> (r: G::BaseField)
        requires
            old(self).wf(),
        ensures
            final(self).wf(),
            final(self).params == old(self).params,
            final(self)@ == squeeze_limbs_spec(
                G::BaseField::modulus(),
                old(self).params.rcs(),
                old(self).params.matrix(),
                old(self)@,
                CHALLENGE_LENGTH_IN_LIMBS as nat,
            ).1,
            r.val() == repr_value(
                G::BaseField::modulus(),
                pack_spec(
                    squeeze_limbs_spec(
                        G::BaseField::modulus(),
                        old(self).params.rcs(),
                        old(self).params.matrix(),
                        old(self)@,
                        CHALLENGE_LENGTH_IN_LIMBS as nat,
                    ).0,
                ),
            ),
    {
        let limbs = self.squeeze_limbs(CHALLENGE_LENGTH_IN_LIMBS);
        G::BaseField::from_repr(pack(limbs.as_slice()))
    }
}

/// A limb below `2^63` is its low 62 bits plus `2^62` times its bit 62.
pub proof fn lemma_split_top(top: u64)
    ensures
        top == (top & 0x3fff_ffff_ffff_ffff) + 0x4000_0000_0000_0000 * (top >> 62),
        (top & 0x3fff_ffff_ffff_ffff) < 0x4000_0000_0000_0000,
        top < 0x8000_0000_0000_0000 ==> (top >> 62) <= 1,
{
    assert(top == (top & 0x3fff_ffff_ffff_ffff) + 0x4000_0000_0000_0000 * (top >> 62))
        by (bit_vector);
    assert((top & 0x3fff_ffff_ffff_ffff) < 0x4000_0000_0000_0000) by (bit_vector);
    assert(top < 0x8000_0000_0000_0000 ==> (top >> 62) <= 1) by (bit_vector);
}

/// `2^254`, written out.
pub proof fn lemma_pow2_254()
    ensures
        pow2(254) == 0x4000000000000000000000000000000000000000000000000000000000000000,
{
    lemma2_to64();
    lemma2_to64_rest();
    vstd::arithmetic::power2::lemma_pow2_adds(64, 64);
    vstd::arithmetic::power2::lemma_pow2_adds(128, 64);
    vstd::arithmetic::power2::lemma_pow2_adds(192, 62);
}

/// Absorbing a prefix of a sequence is absorbing the same prefix of a longer one.
pub proof fn lemma_absorb_prefix(
    p: nat,
    rcs: Seq<Seq<nat>>,
    mds: Seq<Seq<nat>>,
    s: SpongeModel,
    xs: Seq<nat>,
    ys: Seq<nat>,
    n: nat,
)
    requires
        n <= xs.len(),
        n <= ys.len(),
        forall|i: int| 0 <= i < n ==> xs[i] == ys[i],
    ensures
        crate::poseidon::absorb_spec(p, rcs, mds, s, xs, n) == crate::poseidon::absorb_spec(
            p,
            rcs,
            mds,
            s,
            ys,
            n,
        ),
    decreases n,
{
    if n > 0 {
        lemma_absorb_prefix(p, rcs, mds, s, xs, ys, (n - 1) as nat);
    }
}

/// The sponge over the scalar field that takes evaluations in.
pub struct DefaultFrSponge<Fr: PrimeField> {
    pub params: ArithmeticSpongeParams<Fr>,
    pub sponge: ArithmeticSponge<Fr>,
    pub last_squeezed: Vec<u64>,
}

impl<Fr: PrimeField> DefaultFrSponge<Fr> {
    /// What the contracts see of the sponge.
    pub open spec fn view(&self) -> LimbSpongeModel {
        LimbSpongeModel { sponge: self.sponge@, last_squeezed: self.last_squeezed@ }
    }

    /// The parameters and the sponge are well formed.
    pub open spec fn wf(&self) -> bool {
        self.params.wf() && self.sponge.wf()
    }

    /// A fresh sponge with the given parameters.
    pub fn new(params: ArithmeticSpongeParams<Fr>) -> (r: Self)
        requires
            params.wf(),
        ensures
            r.wf(),
            r.params == params,
            r@.sponge.mode == crate::poseidon::SpongeState::Absorbed(0),
            r@.sponge.state == Seq::new(crate::poseidon::SPONGE_WIDTH as nat, |i: int| 0nat),
            r@.last_squeezed.len() == 0,
    {
        DefaultFrSponge { params, sponge: ArithmeticSponge::new(), last_squeezed: Vec::new() }
    }

    /// Takes one element in and drops the limbs that were squeezed and not used.
    pub fn absorb(&mut self, x: &Fr)
        requires
            old(self).wf(),
        ensures
            final(self).wf(),
            final(self).params == old(self).params,
            final(self)@ == (LimbSpongeModel {
                sponge: absorb_one_spec(
                    Fr::modulus(),
                    old(self).params.rcs(),
                    old(self).params.matrix(),
                    old(self)@.sponge,
                    x.val(),
                ),
                last_squeezed: Seq::empty(),
            }),
    {
        self.last_squeezed = Vec::new();
        self.sponge.absorb_one(&self.params, x);
        assert(self@.last_squeezed =~= Seq::<u64>::empty());
    }

    /// The element that the next `num_limbs` limbs spell.
    pub fn squeeze(&mut self, num_limbs: usize) -> (r: Fr)
        requires
            old(self).wf(),
        ensures
            final(self).wf(),
            final(self).params == old(self).params,
            final(self)@ == squeeze_limbs_spec(
                Fr::modulus(),
                old(self).params.rcs(),
                old(self).params.matrix(),
                old(self)@,
                num_limbs as nat,
            ).1,
            r.val() == repr_value(
                Fr::modulus(),
                pack_spec(
                    squeeze_limbs_spec(
                        Fr::modulus(),
                        old(self).params.rcs(),
                        old(self).params.matrix(),
                        old(self)@,
                        num_limbs as nat,
                    ).0,
                ),
            ),
    {
        let limbs = squeeze_limbs_from(
            &self.params,
            &mut self.sponge,
            &mut self.last_squeezed,
            num_limbs,
        );
        Fr::from_repr(pack(limbs.as_slice()))
    }
}

} // verus!
