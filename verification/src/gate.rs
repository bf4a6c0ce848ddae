//! The gates of a circuit: one per row, each of one kind, with the wires that tie its
//! cells to other cells and the constants that its kind needs.

use crate::arith::{fadd, fmul};
use crate::field::{vals, PrimeField};
use crate::poseidon::{dot, sbox, sbox_spec, vals2, ArithmeticSpongeParams};
use vstd::prelude::*;

verus! {

/// The number of witness columns.
pub const COLUMNS: usize = 5;

/// The kinds of gate.
#[derive(Clone, Copy, Debug, PartialEq, Eq)]
pub enum GateType {
    /// No constraint on the row.
    Zero,
    /// The generic arithmetic gate.
    Generic,
    /// One round of the Poseidon permutation.
    Poseidon,
    /// Addition of two curve points.
    Add,
    /// Two rows of a variable-base scalar multiplication.
    Vbmul,
    /// Scalar multiplication with the endomorphism.
    Endomul,
    /// Packing of bits into a scalar.
    Pack,
}

/// A cell of the witness table.
#[derive(Clone, Copy, Debug, PartialEq, Eq)]
pub struct Wire {
    pub row: usize,
    pub col: usize,
}

/// For each column of a row, the cell that the copy constraints send it to.
pub type GateWires = [Wire; 5];

/// A gate of a circuit.
pub struct CircuitGate<F: PrimeField> {
    /// The row of this gate.
    pub row: usize,
    /// The kind of this gate.
    pub typ: GateType,
    /// The wiring of the row.
    pub wires: GateWires,
    /// The constants of this gate.
    pub c: Vec<F>,
}

/// `2 * x` in the field.
pub open spec fn fdouble(p: nat, x: nat) -> nat {
    fadd(p, x, x)
}

/// The scalar that a packing row claims: `n3 + 2 n2 + 4 n1 + 8 n0 + 16 t4`, for the
/// first four cells `n0..n3` of the next row and the fifth cell `t4` of this one.
pub open spec fn pack_sum(p: nat, this: Seq<nat>, next: Seq<nat>) -> nat {
    fadd(
        p,
        fadd(
            p,
            fadd(
                p,
                fadd(p, next[3], fdouble(p, next[2])),
                fdouble(p, fdouble(p, next[1])),
            ),
            fdouble(p, fdouble(p, fdouble(p, next[0]))),
        ),
        fdouble(p, fdouble(p, fdouble(p, fdouble(p, this[4])))),
    )
}

/// Whether the first four cells of the row are bits: each equals its square.
pub open spec fn pack_bits(p: nat, next: Seq<nat>) -> bool {
    forall|i: int| 0 <= i < COLUMNS - 1 ==> #[trigger] next[i] == fmul(p, next[i], next[i])
}

/// Row `row` of a witness given by its columns.
pub open spec fn witness_row<F: PrimeField>(witness: Seq<Vec<F>>, row: int) -> Seq<nat> {
    Seq::new(witness.len(), |i: int| witness[i]@[row].val())
}

/// Whether the witness has `COLUMNS` columns that reach past row `row + 1`.
pub open spec fn witness_covers<F: PrimeField>(witness: Seq<Vec<F>>, row: int) -> bool {
    witness.len() == COLUMNS && forall|i: int|
        0 <= i < witness.len() ==> row + 1 < (#[trigger] witness[i])@.len()
}

/// The values that a Poseidon row must lead to: `rc[i]` plus row `i` of the matrix
/// times the fifth powers of the cells.
pub open spec fn poseidon_next(p: nat, rc: Seq<nat>, mds: Seq<Seq<nat>>, this: Seq<nat>) -> Seq<nat> {
    let boxed = Seq::new(this.len(), |i: int| sbox_spec(p, this[i]));
    Seq::new(mds.len(), |i: int| fadd(p, rc[i], dot(p, mds[i], boxed, boxed.len())))
}

/// One row of a witness, copied out.
pub fn read_row<F: PrimeField>(witness: &Vec<Vec<F>>, row: usize) -> (r: Vec<F>)
    requires
        forall|i: int| 0 <= i < witness@.len() ==> row < (#[trigger] witness@[i])@.len(),
    ensures
        r@.len() == witness@.len(),
        vals(r@) == witness_row(witness@, row as int),
{
    let mut out: Vec<F> = Vec::new();
    let mut i: usize = 0;
    while i < witness.len()
        invariant
            i <= witness@.len(),
            forall|k: int| 0 <= k < witness@.len() ==> row < (#[trigger] witness@[k])@.len(),
            out@.len() == i,
            forall|k: int| 0 <= k < i ==> (#[trigger] out@[k]) == witness@[k]@[row as int],
        decreases witness@.len() - i,
    {
        out.push(witness[i][row]);
        i = i + 1;
    }
    assert(vals(out@) =~= witness_row(witness@, row as int));
    out
}

impl<F: PrimeField> CircuitGate<F> {
    /// The constants of this gate, as values.
    pub open spec fn constants(&self) -> Seq<nat> {
        vals(self.c@)
    }

    /// A packing gate on row `row`.
    pub fn create_pack(row: usize, wires: GateWires) -> (r: Self)
        ensures
            r.row == row,
            r.typ == GateType::Pack,
            r.wires == wires,
            r.c@.len() == 0,
    {
        CircuitGate { row, typ: GateType::Pack, wires, c: Vec::new() }
    }

    /// Whether the witness satisfies the packing gate: the scalar of the next row is
    /// the packed sum, and the cells that it packs are bits.
    pub fn verify_pack(&self, witness: &Vec<Vec<F>>) -> (b: bool)
        requires
            self.row < usize::MAX,
            witness_covers(witness@, self.row as int),
        ensures
            b == (self.typ == GateType::Pack && witness_row(witness@, self.row + 1)[4] == pack_sum(
                F::modulus(),
                witness_row(witness@, self.row as int),
                witness_row(witness@, self.row + 1),
            ) && pack_bits(F::modulus(), witness_row(witness@, self.row + 1))),
    {
        assert forall|i: int| 0 <= i < witness@.len() implies self.row < (
        #[trigger] witness@[i])@.len() by {}
        let this: Vec<F> = read_row(witness, self.row);
        let next: Vec<F> = read_row(witness, self.row + 1);
        let ghost nx = witness_row(witness@, self.row + 1);
        let sum: F = next[3].add(&next[2].double()).add(&next[1].double().double()).add(
            &next[0].double().double().double(),
        ).add(&this[4].double().double().double().double());
        let mut bits: bool = true;
        let mut i: usize = 0;
        while i < COLUMNS - 1
            invariant
                i <= COLUMNS - 1,
                next@.len() == COLUMNS,
                vals(next@) == nx,
                bits == (forall|k: int|
                    0 <= k < i ==> #[trigger] nx[k] == fmul(F::modulus(), nx[k], nx[k])),
            decreases COLUMNS - 1 - i,
        {
            let b: F = next[i];
            if !b.is_eq(&b.square()) {
                assert(nx[i as int] != fmul(F::modulus(), nx[i as int], nx[i as int]));
                bits = false;
            }
            i = i + 1;
        }
        match self.typ {
            GateType::Pack => next[4].is_eq(&sum) && bits,
            _ => false,
        }
    }

    /// The selector of the packing gate on this row: one where this gate is a packing
    /// gate, else zero.
    pub fn pack(&self) -> (r: F)
        ensures
            r.val() == if self.typ == GateType::Pack {
                1nat
            } else {
                0nat
            },
    {
        match self.typ {
            GateType::Pack => F::one(),
            _ => F::zero(),
        }
    }

    /// A Poseidon gate on row `row` with the round constants `c`.
    pub fn create_poseidon(row: usize, wires: GateWires, c: Vec<F>) -> (r: Self)
        ensures
            r.row == row,
            r.typ == GateType::Poseidon,
            r.wires == wires,
            r.c == c,
    {
        CircuitGate { row, typ: GateType::Poseidon, wires, c }
    }

    /// Whether the witness satisfies the Poseidon gate: the next row is the matrix
    /// times the fifth powers of this row, plus the round constants.
    pub fn verify_poseidon(&self, witness: &Vec<Vec<F>>, params: &ArithmeticSpongeParams<F>) -> (b:
        bool)
        requires
            self.row < usize::MAX,
            witness_covers(witness@, self.row as int),
            params.mds@.len() <= COLUMNS,
            forall|i: int| 0 <= i < params.mds@.len() ==> (#[trigger] params.mds@[i])@.len() == COLUMNS,
            self.typ == GateType::Poseidon ==> self.c@.len() >= COLUMNS,
        ensures
            b == (self.typ == GateType::Poseidon && forall|i: int|
                0 <= i < params.mds@.len() ==> #[trigger] poseidon_next(
                    F::modulus(),
                    self.round_constants(),
                    vals2(params.mds@),
                    witness_row(witness@, self.row as int),
                )[i] == witness_row(witness@, self.row + 1)[i]),
    {
        assert forall|i: int| 0 <= i < witness@.len() implies self.row < (
        #[trigger] witness@[i])@.len() by {}
        let raw: Vec<F> = read_row(witness, self.row);
        let next: Vec<F> = read_row(witness, self.row + 1);
        let ghost th = witness_row(witness@, self.row as int);
        let ghost nx = witness_row(witness@, self.row + 1);
        let ghost boxed = Seq::new(th.len(), |i: int| sbox_spec(F::modulus(), th[i]));
        let mut this: Vec<F> = Vec::new();
        let mut i: usize = 0;
        while i < raw.len()
            invariant
                i <= raw@.len(),
                raw@.len() == COLUMNS,
                vals(raw@) == th,
                this@.len() == i,
                forall|k: int| 0 <= k < i ==> (#[trigger] this@[k]).val() == sbox_spec(F::modulus(), th[k]),
            decreases raw@.len() - i,
        {
            this.push(sbox(raw[i]));
            i = i + 1;
        }
        assert(vals(this@) =~= boxed);
        let rc: Vec<F> = self.rc();
        let ghost want = poseidon_next(F::modulus(), self.round_constants(), vals2(params.mds@), th);
        let mut ok: bool = true;
        let mut i: usize = 0;
        while i < params.mds.len()
            invariant
                i <= params.mds@.len(),
                params.mds@.len() <= COLUMNS,
                forall|k: int|
                    0 <= k < params.mds@.len() ==> (#[trigger] params.mds@[k])@.len() == COLUMNS,
                this@.len() == COLUMNS,
                next@.len() == COLUMNS,
                rc@.len() == COLUMNS,
                vals(rc@) == self.round_constants(),
                vals(this@) == boxed,
                vals(next@) == nx,
                want == poseidon_next(F::modulus(), self.round_constants(), vals2(params.mds@), th),
                boxed == Seq::new(th.len(), |i: int| sbox_spec(F::modulus(), th[i])),
                ok == (forall|k: int| 0 <= k < i ==> #[trigger] want[k] == nx[k]),
            decreases params.mds@.len() - i,
        {
            let row = &params.mds[i];
            let mut acc: F = F::zero();
            let mut j: usize = 0;
            while j < this.len()
                invariant
                    j <= this@.len(),
                    this@.len() == COLUMNS,
                    row@.len() == COLUMNS,
                    vals(this@) == boxed,
                    acc.val() == dot(F::modulus(), vals(row@), boxed, j as nat),
                decreases this@.len() - j,
            {
                acc = row[j].mul(&this[j]).add(&acc);
                j = j + 1;
            }
            let perm: F = rc[i].add(&acc);
            assert(perm.val() == want[i as int]);
            if !perm.is_eq(&next[i]) {
                assert(want[i as int] != nx[i as int]);
                ok = false;
            }
            i = i + 1;
        }
        match self.typ {
            GateType::Poseidon => ok,
            _ => false,
        }
    }

    /// The selector of the Poseidon gate on this row: one where this gate is a Poseidon
    /// gate, else zero.
    pub fn ps(&self) -> (r: F)
        ensures
            r.val() == if self.typ == GateType::Poseidon {
                1nat
            } else {
                0nat
            },
    {
        match self.typ {
            GateType::Poseidon => F::one(),
            _ => F::zero(),
        }
    }

    /// The round constants of the row: those of a Poseidon gate, else zeros.
    pub open spec fn round_constants(&self) -> Seq<nat> {
        Seq::new(
            COLUMNS as nat,
            |i: int|
                if self.typ == GateType::Poseidon {
                    self.c@[i].val()
                } else {
                    0nat
                },
        )
    }

    /// The round constants of the row: those of a Poseidon gate, else zeros.
    pub fn rc(&self) -> (r: Vec<F>)
        requires
            self.typ == GateType::Poseidon ==> self.c@.len() >= COLUMNS,
        ensures
            r@.len() == COLUMNS,
            vals(r@) == self.round_constants(),
    {
        let mut out: Vec<F> = Vec::new();
        let mut i: usize = 0;
        while i < COLUMNS
            invariant
                i <= COLUMNS,
                self.typ == GateType::Poseidon ==> self.c@.len() >= COLUMNS,
                out@.len() == i,
                forall|k: int| 0 <= k < i ==> (#[trigger] out@[k]).val() == self.round_constants()[k],
            decreases COLUMNS - i,
        {
            let v: F = match self.typ {
                GateType::Poseidon => self.c[i],
                _ => F::zero(),
            };
            out.push(v);
            i = i + 1;
        }
        assert(vals(out@) =~= self.round_constants());
        out
    }
}

} // verus!
