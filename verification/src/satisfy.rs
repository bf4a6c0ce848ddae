//! Whether a witness satisfies a circuit: every row the constraints of its gate, and
//! every wired cell the cell that it is wired to.

use crate::arith::{fadd, fneg};
use crate::constraints::{gate_constant, ConstraintSystem, PERMUTS, WIRES};
use crate::field::{vals, PrimeField};
use crate::gate::GateType;
use crate::permutation::table_row;
use crate::polynomials::{
    ecad_constraints, ecad_values, generic_value, psdn_constraints, psdn_values,
};
use crate::poseidon::SPONGE_WIDTH;
use crate::varbasemul::{vbmul_constraints, vbmul_values};
use vstd::prelude::*;

verus! {

/// Whether every value of the sequence is zero.
pub open spec fn all_zero(s: Seq<nat>) -> bool {
    forall|k: int| 0 <= k < s.len() ==> #[trigger] s[k] == 0
}

/// Whether every value of the list is zero.
pub fn is_all_zero<F: PrimeField>(v: &Vec<F>) -> (b: bool)
    ensures
        b == all_zero(vals(v@)),
{
    let mut i: usize = 0;
    while i < v.len()
        invariant
            i <= v@.len(),
            forall|k: int| 0 <= k < i ==> #[trigger] vals(v@)[k] == 0,
        decreases v@.len() - i,
    {
        if !v[i].is_zero() {
            assert(vals(v@)[i as int] != 0);
            return false;
        }
        i = i + 1;
    }
    true
}

/// Whether the witness has `WIRES` columns with a value for each of `n` rows.
pub open spec fn witness_shape<F: PrimeField>(witness: Seq<Vec<F>>, n: nat) -> bool {
    witness.len() == WIRES && forall|c: int| 0 <= c < WIRES ==> (#[trigger] witness[c])@.len() == n
}

/// The value that the generic gate of row `i` must bring to zero: its value on the
/// cells of the row, plus its constant, minus the public input of the row where it
/// has one.
pub open spec fn generic_row<F: PrimeField>(cs: &ConstraintSystem<F>, witness: Seq<Vec<F>>, i: int) -> nat {
    let p = F::modulus();
    let g = cs.gates@[i];
    fadd(
        p,
        fadd(
            p,
            generic_value(
                p,
                table_row(witness, i),
                gate_constant(g, GateType::Generic, 0),
                gate_constant(g, GateType::Generic, 1),
                gate_constant(g, GateType::Generic, 2),
                gate_constant(g, GateType::Generic, 3),
            ),
            gate_constant(g, GateType::Generic, 4),
        ),
        if i < cs.public {
            fneg(p, witness[0]@[i].val())
        } else {
            0
        },
    )
}

/// The values that the Poseidon gate of row `i` must bring to zero.
pub open spec fn poseidon_row<F: PrimeField>(
    cs: &ConstraintSystem<F>,
    witness: Seq<Vec<F>>,
    i: int,
    next: int,
) -> Seq<nat> {
    let p = F::modulus();
    let c = psdn_constraints(
        p,
        cs.fr_sponge_params.matrix(),
        table_row(witness, i),
        table_row(witness, next),
    );
    Seq::new(
        SPONGE_WIDTH as nat,
        |k: int| fadd(p, c[k], gate_constant(cs.gates@[i], GateType::Poseidon, k)),
    )
}

/// Whether row `i` satisfies the constraints of its gate, the row after the last one
/// being the first.
pub open spec fn row_satisfied<F: PrimeField>(cs: &ConstraintSystem<F>, witness: Seq<Vec<F>>, i: int) -> bool {
    let p = F::modulus();
    let n = cs.domain.d1.size as int;
    let next = if i + 1 == n {
        0
    } else {
        i + 1
    };
    match cs.gates@[i].typ {
        GateType::Zero => true,
        GateType::Generic => generic_row(cs, witness, i) == 0,
        GateType::Poseidon => all_zero(poseidon_row(cs, witness, i, next)),
        GateType::Add => all_zero(ecad_constraints(p, table_row(witness, i))),
        GateType::Vbmul => all_zero(
            vbmul_constraints(p, table_row(witness, i), table_row(witness, next)),
        ),
        GateType::Endomul => false,
        GateType::Pack => false,
    }
}

/// Whether the wired cells of row `i` hold what the cells hold that they are wired
/// to.
pub open spec fn row_wired<F: PrimeField>(cs: &ConstraintSystem<F>, witness: Seq<Vec<F>>, i: int) -> bool {
    forall|c: int|
        0 <= c < PERMUTS ==> #[trigger] witness[c]@[i].val() == witness[cs.gates@[i].wires[c].col as int]@[cs.gates@[i].wires[c].row as int].val()
}

/// Whether row `i` satisfies the constraints of its gate and respects the wiring.
pub open spec fn row_ok<F: PrimeField>(cs: &ConstraintSystem<F>, witness: Seq<Vec<F>>, i: int) -> bool {
    row_satisfied(cs, witness, i) && row_wired(cs, witness, i)
}

impl<F: PrimeField> ConstraintSystem<F> {
    /// Whether the witness satisfies the circuit.
    pub fn verify(&self, witness: &Vec<Vec<F>>) -> (b: bool)
        requires
            self.wf(),
            witness_shape(witness@, self.domain.d1.size as nat),
        ensures
            b == (forall|i: int| 0 <= i < self.domain.d1.size ==> #[trigger] row_ok(self, witness@, i)),
    {
        let n: usize = self.domain.d1.size;
        let ghost p = F::modulus();
        let mut i: usize = 0;
        while i < n
            invariant
                i <= n,
                n == self.domain.d1.size,
                self.wf(),
                witness_shape(witness@, n as nat),
                p == F::modulus(),
                forall|k: int| 0 <= k < i ==> #[trigger] row_ok(self, witness@, k),
            decreases n - i,
        {
            let next_row: usize = if i + 1 == n {
                0
            } else {
                i + 1
            };
            assert forall|c: int| 0 <= c < witness@.len() implies i < (
            #[trigger] witness@[c])@.len() && next_row < witness@[c]@.len() by {}
            let this: Vec<F> = crate::gate::read_row(witness, i);
            let next: Vec<F> = crate::gate::read_row(witness, next_row);
            proof {
                assert(vals(this@) =~= table_row(witness@, i as int));
                assert(vals(next@) =~= table_row(witness@, next_row as int));
            }
            let g = &self.gates[i];
            let ok: bool = match g.typ {
                GateType::Zero => true,
                GateType::Generic => {
                    let zero: F = F::zero();
                    let c0: F = if 0 < g.c.len() { g.c[0] } else { zero };
                    let c1: F = if 1 < g.c.len() { g.c[1] } else { zero };
                    let c2: F = if 2 < g.c.len() { g.c[2] } else { zero };
                    let c3: F = if 3 < g.c.len() { g.c[3] } else { zero };
                    let c4: F = if 4 < g.c.len() { g.c[4] } else { zero };
                    let public: F = if i < self.public {
                        witness[0][i].neg()
                    } else {
                        zero
                    };
                    c0.mul(&this[0]).add(&c1.mul(&this[1])).add(&c2.mul(&this[2])).add(
                        &c3.mul(&this[0].mul(&this[1])),
                    ).add(&c4).add(&public).is_zero()
                },
                GateType::Poseidon => {
                    let zero: F = F::zero();
                    let c: Vec<F> = psdn_values(
                        &self.fr_sponge_params,
                        this.as_slice(),
                        next.as_slice(),
                    );
                    let mut v: Vec<F> = Vec::new();
                    let mut k: usize = 0;
                    while k < SPONGE_WIDTH
                        invariant
                            k <= SPONGE_WIDTH,
                            c@.len() == SPONGE_WIDTH,
                            zero.val() == 0,
                            g.typ == GateType::Poseidon,
                            v@.len() == k,
                            forall|j: int|
                                0 <= j < k ==> (#[trigger] v@[j]).val() == fadd(
                                    F::modulus(),
                                    c@[j].val(),
                                    gate_constant(*g, GateType::Poseidon, j),
                                ),
                        decreases SPONGE_WIDTH - k,
                    {
                        let rc: F = if k < g.c.len() {
                            g.c[k]
                        } else {
                            zero
                        };
                        v.push(c[k].add(&rc));
                        k = k + 1;
                    }
                    proof {
                        assert(vals(v@) =~= poseidon_row(
                            self,
                            witness@,
                            i as int,
                            next_row as int,
                        ));
                    }
                    is_all_zero(&v)
                },
                GateType::Add => {
                    let c: Vec<F> = ecad_values(this.as_slice());
                    is_all_zero(&c)
                },
                GateType::Vbmul => {
                    let c: Vec<F> = vbmul_values(this.as_slice(), next.as_slice());
                    is_all_zero(&c)
                },
                GateType::Endomul => false,
                GateType::Pack => false,
            };
            assert(ok == row_satisfied(self, witness@, i as int));
            if !ok {
                assert(!row_ok(self, witness@, i as int));
                return false;
            }
            let mut wired: bool = true;
            let mut c: usize = 0;
            while c < PERMUTS
                invariant
                    c <= PERMUTS,
                    i < n,
                    n == self.domain.d1.size,
                    self.wf(),
                    witness_shape(witness@, n as nat),
                    row_satisfied(self, witness@, i as int),
                    wired == (forall|d: int|
                        0 <= d < c ==> #[trigger] witness@[d]@[i as int].val() == witness@[self.gates@[i as int].wires[d].col as int]@[self.gates@[i as int].wires[d].row as int].val()),
                decreases PERMUTS - c,
            {
                let w = self.gates[i].wires[c];
                assert(self.gates@[i as int].wires[c as int].row < n && self.gates@[i as int].wires[c as int].col
                    < PERMUTS);
                assert(witness@[c as int]@.len() == n);
                assert(witness@[w.col as int]@.len() == n);
                if !witness[c][i].is_eq(&witness[w.col][w.row]) {
                    proof {
                        assert(witness@[c as int]@[i as int].val() != witness@[self.gates@[i as int].wires[c as int].col as int]@[self.gates@[i as int].wires[c as int].row as int].val());
                    }
                    wired = false;
                }
                c = c + 1;
            }
            assert(wired == row_wired(self, witness@, i as int));
            if !wired {
                assert(!row_ok(self, witness@, i as int));
                return false;
            }
            assert(row_ok(self, witness@, i as int));
            i = i + 1;
        }
        true
    }
}

} // verus!
