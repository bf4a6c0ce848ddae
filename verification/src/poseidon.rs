//! The Poseidon permutation and the sponge built on it.
//!
//! The permutation has `ROUNDS_FULL` full rounds over a state of `SPONGE_WIDTH` field
//! elements. A round raises every element to the power `SPONGE_BOX`, multiplies the
//! state by the MDS matrix and adds the round's constants.

use crate::arith::{fadd, fmul, fpow, limbs_nat};
use crate::field::{vals, PrimeField};
use crate::poly::filled;
use vstd::prelude::*;

verus! {

pub const ROUNDS_FULL: usize = 63;

pub const SPONGE_CAPACITY: usize = 1;

pub const SPONGE_RATE: usize = 2;

pub const SPONGE_BOX: usize = 5;

pub const SPONGE_WIDTH: usize = 3;

/// The values of a matrix of field elements, row by row.
pub open spec fn vals2<F: PrimeField>(m: Seq<Vec<F>>) -> Seq<Seq<nat>> {
    Seq::new(m.len(), |i: int| vals(m[i]@))
}

/// The S-box: the fifth power.
pub open spec fn sbox_spec(p: nat, x: nat) -> nat {
    fpow(p, x, 5)
}

/// The sum of `m[k] * s[k]` over the first `n` positions.
pub open spec fn dot(p: nat, m: Seq<nat>, s: Seq<nat>, n: nat) -> nat
    decreases n,
{
    if n == 0 {
        0
    } else {
        fadd(p, fmul(p, m[n - 1], s[n - 1]), dot(p, m, s, (n - 1) as nat))
    }
}

/// The product of the matrix `mds` with the column `state`.
pub open spec fn mds_apply(p: nat, mds: Seq<Seq<nat>>, state: Seq<nat>) -> Seq<nat> {
    Seq::new(mds.len(), |i: int| dot(p, mds[i], state, state.len()))
}

/// One full round with the constants `rc`.
pub open spec fn full_round_spec(p: nat, rc: Seq<nat>, mds: Seq<Seq<nat>>, state: Seq<nat>) -> Seq<
    nat,
> {
    let boxed = Seq::new(state.len(), |i: int| sbox_spec(p, state[i]));
    let mixed = mds_apply(p, mds, boxed);
    Seq::new(mixed.len(), |i: int| fadd(p, mixed[i], rc[i]))
}

/// The first `r` rounds of the permutation, with the constants `rcs[0..r]`.
pub open spec fn rounds_spec(
    p: nat,
    rcs: Seq<Seq<nat>>,
    mds: Seq<Seq<nat>>,
    state: Seq<nat>,
    r: nat,
) -> Seq<nat>
    decreases r,
{
    if r == 0 {
        state
    } else {
        full_round_spec(p, rcs[r - 1], mds, rounds_spec(p, rcs, mds, state, (r - 1) as nat))
    }
}

/// The whole permutation.
pub open spec fn permutation_spec(
    p: nat,
    rcs: Seq<Seq<nat>>,
    mds: Seq<Seq<nat>>,
    state: Seq<nat>,
) -> Seq<nat> {
    rounds_spec(p, rcs, mds, state, ROUNDS_FULL as nat)
}

/// What a sponge last did, and how many rate positions that used up.
#[derive(Clone, Copy, Debug, PartialEq, Eq)]
pub enum SpongeState {
    Absorbed(usize),
    Squeezed(usize),
}

/// A sponge as the contracts see it.
pub ghost struct SpongeModel {
    pub mode: SpongeState,
    pub state: Seq<nat>,
}

/// The sponge after it has taken in one element `x`.
pub open spec fn absorb_one_spec(
    p: nat,
    rcs: Seq<Seq<nat>>,
    mds: Seq<Seq<nat>>,
    s: SpongeModel,
    x: nat,
) -> SpongeModel {
    match s.mode {
        SpongeState::Absorbed(n) => {
            if n == SPONGE_RATE {
                let st = permutation_spec(p, rcs, mds, s.state);
                SpongeModel { mode: SpongeState::Absorbed(1), state: st.update(0, fadd(p, st[0], x)) }
            } else {
                SpongeModel {
                    mode: SpongeState::Absorbed((n + 1) as usize),
                    state: s.state.update(n as int, fadd(p, s.state[n as int], x)),
                }
            }
        },
        SpongeState::Squeezed(_n) => SpongeModel {
            mode: SpongeState::Absorbed(1),
            state: s.state.update(0, fadd(p, s.state[0], x)),
        },
    }
}

/// The sponge after it has taken in the first `n` elements of `xs`, in order.
pub open spec fn absorb_spec(
    p: nat,
    rcs: Seq<Seq<nat>>,
    mds: Seq<Seq<nat>>,
    s: SpongeModel,
    xs: Seq<nat>,
    n: nat,
) -> SpongeModel
    decreases n,
{
    if n == 0 {
        s
    } else {
        absorb_one_spec(p, rcs, mds, absorb_spec(p, rcs, mds, s, xs, (n - 1) as nat), xs[n - 1])
    }
}

/// The sponge after one element has been squeezed out of it.
pub open spec fn squeeze_next_spec(
    p: nat,
    rcs: Seq<Seq<nat>>,
    mds: Seq<Seq<nat>>,
    s: SpongeModel,
) -> SpongeModel {
    match s.mode {
        SpongeState::Squeezed(n) => {
            if n == SPONGE_RATE {
                SpongeModel {
                    mode: SpongeState::Squeezed(1),
                    state: permutation_spec(p, rcs, mds, s.state),
                }
            } else {
                SpongeModel { mode: SpongeState::Squeezed((n + 1) as usize), state: s.state }
            }
        },
        SpongeState::Absorbed(_n) => SpongeModel {
            mode: SpongeState::Squeezed(1),
            state: permutation_spec(p, rcs, mds, s.state),
        },
    }
}

/// The element that squeezing the sponge `s` gives.
pub open spec fn squeeze_out_spec(
    p: nat,
    rcs: Seq<Seq<nat>>,
    mds: Seq<Seq<nat>>,
    s: SpongeModel,
) -> nat {
    let next = squeeze_next_spec(p, rcs, mds, s);
    match next.mode {
        SpongeState::Squeezed(n) => next.state[n - 1],
        SpongeState::Absorbed(_n) => 0,
    }
}

/// The S-box: `x^5`.
pub fn sbox<F: PrimeField>(x: F) -> (r: F)
    ensures
        r.val() == sbox_spec(F::modulus(), x.val()),
{
    let e: [u64; 1] = [5];
    proof {
        assert(e@.skip(1).len() == 0);
        assert(limbs_nat(e@.skip(1)) == 0);
        assert(limbs_nat(e@) == 5);
    }
    x.pow(e.as_slice())
}

/// A stateful object that takes inputs in and gives digests out.
pub trait Sponge<Input, Digest>: Sized {
    type Params;

    /// What the contracts see of the sponge.
    spec fn model(&self) -> SpongeModel;

    /// Whether the parameters have the shape that the sponge computes with.
    spec fn admits(params: &Self::Params) -> bool;

    /// Whether the sponge is in a state that absorbing and squeezing keep.
    spec fn ready(&self) -> bool;

    fn new() -> (r: Self)
        ensures
            r.ready(),
    ;

    fn absorb(&mut self, params: &Self::Params, x: &[Input])
        requires
            old(self).ready(),
            Self::admits(params),
        ensures
            final(self).ready(),
    ;

    fn squeeze(&mut self, params: &Self::Params) -> (r: Digest)
        requires
            old(self).ready(),
            Self::admits(params),
        ensures
            final(self).ready(),
    ;
}

/// The round constants, one row per round, and the MDS matrix of a permutation.
pub struct ArithmeticSpongeParams<F: PrimeField> {
    pub round_constants: Vec<Vec<F>>,
    pub mds: Vec<Vec<F>>,
}

impl<F: PrimeField> ArithmeticSpongeParams<F> {
    /// The values of the round constants.
    pub open spec fn rcs(&self) -> Seq<Seq<nat>> {
        vals2(self.round_constants@)
    }

    /// The values of the MDS matrix.
    pub open spec fn matrix(&self) -> Seq<Seq<nat>> {
        vals2(self.mds@)
    }

    /// The matrix is square, of the width of the state.
    pub open spec fn mixes(&self) -> bool {
        &&& self.mds@.len() == SPONGE_WIDTH
        &&& forall|i: int|
            0 <= i < self.mds@.len() ==> (#[trigger] self.mds@[i])@.len() == SPONGE_WIDTH
    }

    /// There is a row `r` of constants, one for each cell of the state.
    pub open spec fn has_round(&self, r: int) -> bool {
        0 <= r < self.round_constants@.len() && self.round_constants@[r]@.len() == SPONGE_WIDTH
    }

    /// At least `ROUNDS_FULL` rows of `SPONGE_WIDTH` constants, and a square matrix of
    /// that width.
    pub open spec fn wf(&self) -> bool {
        &&& self.round_constants@.len() >= ROUNDS_FULL
        &&& forall|r: int|
            0 <= r < self.round_constants@.len() ==> (#[trigger] self.round_constants@[r])@.len()
                == SPONGE_WIDTH
        &&& self.mds@.len() == SPONGE_WIDTH
        &&& forall|i: int|
            0 <= i < self.mds@.len() ==> (#[trigger] self.mds@[i])@.len() == SPONGE_WIDTH
    }

    /// Whether the parameters are well formed.
    pub fn check(&self) -> (b: bool)
        ensures
            b == self.wf(),
    {
        if self.round_constants.len() < ROUNDS_FULL || self.mds.len() != SPONGE_WIDTH {
            return false;
        }
        let mut r: usize = 0;
        while r < self.round_constants.len()
            invariant
                r <= self.round_constants@.len(),
                forall|k: int|
                    0 <= k < r ==> (#[trigger] self.round_constants@[k])@.len() == SPONGE_WIDTH,
            decreases self.round_constants@.len() - r,
        {
            if self.round_constants[r].len() != SPONGE_WIDTH {
                return false;
            }
            r = r + 1;
        }
        let mut i: usize = 0;
        while i < self.mds.len()
            invariant
                i <= self.mds@.len(),
                forall|k: int| 0 <= k < i ==> (#[trigger] self.mds@[k])@.len() == SPONGE_WIDTH,
            decreases self.mds@.len() - i,
        {
            if self.mds[i].len() != SPONGE_WIDTH {
                return false;
            }
            i = i + 1;
        }
        true
    }

    /// A copy of the parameters.
    pub fn duplicate(&self) -> (r: Self)
        ensures
            r.rcs() == self.rcs(),
            r.matrix() == self.matrix(),
            r.wf() == self.wf(),
    {
        let rc = copy_matrix(&self.round_constants);
        let mds = copy_matrix(&self.mds);
        let r = ArithmeticSpongeParams { round_constants: rc, mds };
        proof {
            assert(r.rcs() =~= self.rcs());
            assert(r.matrix() =~= self.matrix());
            assert forall|k: int| 0 <= k < r.round_constants@.len() implies (
            #[trigger] r.round_constants@[k])@.len() == self.round_constants@[k]@.len() by {}
            assert forall|k: int| 0 <= k < r.mds@.len() implies (#[trigger] r.mds@[k])@.len()
                == self.mds@[k]@.len() by {}
            if self.wf() {
                assert(r.wf());
            }
            if r.wf() {
                assert forall|k: int| 0 <= k < self.round_constants@.len() implies (
                #[trigger] self.round_constants@[k])@.len() == SPONGE_WIDTH by {
                    assert(r.round_constants@[k]@.len() == SPONGE_WIDTH);
                }
                assert forall|k: int| 0 <= k < self.mds@.len() implies (#[trigger] self.mds@[k])@.len()
                    == SPONGE_WIDTH by {
                    assert(r.mds@[k]@.len() == SPONGE_WIDTH);
                }
                assert(self.wf());
            }
        }
        r
    }
}

/// A copy of a matrix, row by row.
pub fn copy_matrix<F: PrimeField>(m: &Vec<Vec<F>>) -> (r: Vec<Vec<F>>)
    ensures
        r@.len() == m@.len(),
        forall|i: int| 0 <= i < m@.len() ==> (#[trigger] r@[i])@ == m@[i]@,
{
    let mut out: Vec<Vec<F>> = Vec::new();
    let mut i: usize = 0;
    while i < m.len()
        invariant
            i <= m@.len(),
            out@.len() == i,
            forall|k: int| 0 <= k < i ==> (#[trigger] out@[k])@ == m@[k]@,
        decreases m@.len() - i,
    {
        let row = crate::poly::copy_range(m[i].as_slice(), 0, m[i].len());
        assert(m@[i as int]@.subrange(0, m@[i as int]@.len() as int) =~= m@[i as int]@);
        out.push(row);
        i = i + 1;
    }
    out
}

/// A Poseidon sponge over the field `F`.
pub struct ArithmeticSponge<F: PrimeField> {
    pub sponge_state: SpongeState,
    pub rate: usize,
    pub state: Vec<F>,
}

impl<F: PrimeField> ArithmeticSponge<F> {
    /// What the contracts see of the sponge.
    pub open spec fn view(&self) -> SpongeModel {
        SpongeModel { mode: self.sponge_state, state: vals(self.state@) }
    }

    /// The rate and the width are the fixed ones, and the position is within the rate.
    pub open spec fn wf(&self) -> bool {
        &&& self.rate == SPONGE_RATE
        &&& self.state@.len() == SPONGE_WIDTH
        &&& match self.sponge_state {
            SpongeState::Absorbed(n) => n <= SPONGE_RATE,
            SpongeState::Squeezed(n) => 1 <= n <= SPONGE_RATE,
        }
    }

    /// A copy of the sponge.
    pub fn duplicate(&self) -> (r: Self)
        ensures
            r@ == self@,
            r.rate == self.rate,
            r.state@ == self.state@,
            r.wf() == self.wf(),
    {
        let st = crate::poly::copy_range(self.state.as_slice(), 0, self.state.len());
        assert(self.state@.subrange(0, self.state@.len() as int) =~= self.state@);
        ArithmeticSponge { sponge_state: self.sponge_state, rate: self.rate, state: st }
    }

    fn apply_mds_matrix(&mut self, params: &ArithmeticSpongeParams<F>)
        requires
            old(self).state@.len() == SPONGE_WIDTH,
            params.mixes(),
        ensures
            vals(final(self).state@) == mds_apply(
                F::modulus(),
                params.matrix(),
                vals(old(self).state@),
            ),
            final(self).state@.len() == SPONGE_WIDTH,
            final(self).sponge_state == old(self).sponge_state,
            final(self).rate == old(self).rate,
    {
        let mut out: Vec<F> = Vec::new();
        let ghost st = vals(self.state@);
        let mut i: usize = 0;
        while i < params.mds.len()
            invariant
                i <= params.mds@.len(),
                params.mixes(),
                self.state@.len() == SPONGE_WIDTH,
                st == vals(self.state@),
                out@.len() == i,
                forall|k: int|
                    0 <= k < i ==> (#[trigger] out@[k]).val() == dot(
                        F::modulus(),
                        params.matrix()[k],
                        st,
                        st.len(),
                    ),
            decreases params.mds@.len() - i,
        {
            let row = &params.mds[i];
            let mut acc: F = F::zero();
            let mut j: usize = 0;
            while j < self.state.len()
                invariant
                    j <= self.state@.len(),
                    self.state@.len() == SPONGE_WIDTH,
                    row@.len() == SPONGE_WIDTH,
                    st == vals(self.state@),
                    acc.val() == dot(F::modulus(), vals(row@), st, j as nat),
                decreases self.state@.len() - j,
            {
                acc = row[j].mul(&self.state[j]).add(&acc);
                j = j + 1;
            }
            out.push(acc);
            i = i + 1;
        }
        proof {
            assert(vals(out@) =~= mds_apply(F::modulus(), params.matrix(), st));
        }
        self.state = out;
    }

    /// Round `r` of the permutation on the state: every cell is raised to the fifth
    /// power, the matrix is applied, and the constants of the round are added. Of the
    /// parameters only that row of constants and the matrix are read.
    pub fn full_round(&mut self, r: usize, params: &ArithmeticSpongeParams<F>)
        requires
            old(self).state@.len() == SPONGE_WIDTH,
            params.mixes(),
            params.has_round(r as int),
        ensures
            vals(final(self).state@) == full_round_spec(
                F::modulus(),
                params.rcs()[r as int],
                params.matrix(),
                vals(old(self).state@),
            ),
            final(self).state@.len() == SPONGE_WIDTH,
            final(self).sponge_state == old(self).sponge_state,
            final(self).rate == old(self).rate,
    {
        let ghost st0 = vals(self.state@);
        let mut i: usize = 0;
        while i < self.state.len()
            invariant
                i <= self.state@.len(),
                self.state@.len() == SPONGE_WIDTH,
                st0.len() == SPONGE_WIDTH,
                self.sponge_state == old(self).sponge_state,
                self.rate == old(self).rate,
                forall|k: int|
                    0 <= k < self.state@.len() ==> (#[trigger] self.state@[k]).val() == if k < i {
                        sbox_spec(F::modulus(), st0[k])
                    } else {
                        st0[k]
                    },
            decreases self.state@.len() - i,
        {
            let b = sbox(self.state[i]);
            self.state.set(i, b);
            i = i + 1;
        }
        let ghost boxed = Seq::new(st0.len(), |k: int| sbox_spec(F::modulus(), st0[k]));
        assert(vals(self.state@) =~= boxed);
        self.apply_mds_matrix(params);
        let ghost mixed = mds_apply(F::modulus(), params.matrix(), boxed);
        let rc = &params.round_constants[r];
        let mut i: usize = 0;
        while i < rc.len()
            invariant
                i <= rc@.len(),
                rc@.len() == SPONGE_WIDTH,
                self.state@.len() == SPONGE_WIDTH,
                mixed.len() == SPONGE_WIDTH,
                self.sponge_state == old(self).sponge_state,
                self.rate == old(self).rate,
                forall|k: int|
                    0 <= k < self.state@.len() ==> (#[trigger] self.state@[k]).val() == if k < i {
                        fadd(F::modulus(), mixed[k], rc@[k].val())
                    } else {
                        mixed[k]
                    },
            decreases rc@.len() - i,
        {
            let s = self.state[i].add(&rc[i]);
            self.state.set(i, s);
            i = i + 1;
        }
        assert(vals(self.state@) =~= full_round_spec(
            F::modulus(),
            params.rcs()[r as int],
            params.matrix(),
            st0,
        ));
    }

    fn poseidon_block_cipher(&mut self, params: &ArithmeticSpongeParams<F>)
        requires
            old(self).state@.len() == SPONGE_WIDTH,
            params.wf(),
        ensures
            vals(final(self).state@) == permutation_spec(
                F::modulus(),
                params.rcs(),
                params.matrix(),
                vals(old(self).state@),
            ),
            final(self).state@.len() == SPONGE_WIDTH,
            final(self).sponge_state == old(self).sponge_state,
            final(self).rate == old(self).rate,
    {
        let ghost st0 = vals(self.state@);
        let mut r: usize = 0;
        while r < ROUNDS_FULL
            invariant
                r <= ROUNDS_FULL,
                params.wf(),
                self.state@.len() == SPONGE_WIDTH,
                self.sponge_state == old(self).sponge_state,
                self.rate == old(self).rate,
                vals(self.state@) == rounds_spec(
                    F::modulus(),
                    params.rcs(),
                    params.matrix(),
                    st0,
                    r as nat,
                ),
            decreases ROUNDS_FULL - r,
        {
            self.full_round(r, params);
            r = r + 1;
        }
    }

    /// Takes one element into the sponge.
    pub fn absorb_one(&mut self, params: &ArithmeticSpongeParams<F>, x: &F)
        requires
            old(self).wf(),
            params.wf(),
        ensures
            final(self).wf(),
            final(self)@ == absorb_one_spec(
                F::modulus(),
                params.rcs(),
                params.matrix(),
                old(self)@,
                x.val(),
            ),
    {
        match self.sponge_state {
            SpongeState::Absorbed(n) => {
                if n == self.rate {
                    self.poseidon_block_cipher(params);
                    self.sponge_state = SpongeState::Absorbed(1);
                    let s = self.state[0].add(x);
                    self.state.set(0, s);
                } else {
                    self.sponge_state = SpongeState::Absorbed(n + 1);
                    let s = self.state[n].add(x);
                    self.state.set(n, s);
                }
            },
            SpongeState::Squeezed(_n) => {
                let s = self.state[0].add(x);
                self.state.set(0, s);
                self.sponge_state = SpongeState::Absorbed(1);
            },
        }
        assert(self@.state =~= absorb_one_spec(
            F::modulus(),
            params.rcs(),
            params.matrix(),
            old(self)@,
            x.val(),
        ).state);
    }
}

impl<F: PrimeField> Sponge<F, F> for ArithmeticSponge<F> {
    type Params = ArithmeticSpongeParams<F>;

    open spec fn model(&self) -> SpongeModel {
        self@
    }

    open spec fn admits(params: &ArithmeticSpongeParams<F>) -> bool {
        params.wf()
    }

    open spec fn ready(&self) -> bool {
        self.wf()
    }

    /// The sponge with the all-zero state that has absorbed nothing.
    fn new() -> (r: ArithmeticSponge<F>)
        ensures
            r@.mode == SpongeState::Absorbed(0),
            r@.state == Seq::new(SPONGE_WIDTH as nat, |i: int| 0nat),
    {
        let z: F = F::zero();
        let state = filled(z, SPONGE_CAPACITY + SPONGE_RATE);
        let r = ArithmeticSponge { state, rate: SPONGE_RATE, sponge_state: SpongeState::Absorbed(0) };
        assert(r@.state =~= Seq::new(SPONGE_WIDTH as nat, |i: int| 0nat));
        r
    }

    /// Takes the elements of `x` in, in order. A full rate is permuted away before the
    /// next element goes in.
    fn absorb(&mut self, params: &ArithmeticSpongeParams<F>, x: &[F])
        ensures
            final(self)@ == absorb_spec(
                F::modulus(),
                params.rcs(),
                params.matrix(),
                old(self)@,
                vals(x@),
                x@.len(),
            ),
    {
        let mut i: usize = 0;
        while i < x.len()
            invariant
                i <= x@.len(),
                self.wf(),
                params.wf(),
                self@ == absorb_spec(
                    F::modulus(),
                    params.rcs(),
                    params.matrix(),
                    old(self)@,
                    vals(x@),
                    i as nat,
                ),
            decreases x@.len() - i,
        {
            self.absorb_one(params, &x[i]);
            i = i + 1;
        }
    }

    /// Gives the next element of the rate, after a permutation where the rate is used
    /// up or the sponge has just absorbed.
    fn squeeze(&mut self, params: &ArithmeticSpongeParams<F>) -> (r: F)
        ensures
            final(self)@ == squeeze_next_spec(
                F::modulus(),
                params.rcs(),
                params.matrix(),
                old(self)@,
            ),
            r.val() == squeeze_out_spec(F::modulus(), params.rcs(), params.matrix(), old(self)@),
    {
        match self.sponge_state {
            SpongeState::Squeezed(n) => {
                if n == self.rate {
                    self.poseidon_block_cipher(params);
                    self.sponge_state = SpongeState::Squeezed(1);
                    self.state[0]
                } else {
                    self.sponge_state = SpongeState::Squeezed(n + 1);
                    self.state[n]
                }
            },
            SpongeState::Absorbed(_n) => {
                self.poseidon_block_cipher(params);
                self.sponge_state = SpongeState::Squeezed(1);
                self.state[0]
            },
        }
    }
}

} // verus!
