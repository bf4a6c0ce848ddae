use dlog_plonk::commitment::{b_poly_coefficients, ceil_log2, PolyComm};
use dlog_plonk::constraints::{ConstraintSystem, PERMUTS, WIRES};
use dlog_plonk::curve::{CommitmentCurve, Pallas, Vesta};
use dlog_plonk::error::ProofError;
use dlog_plonk::field::{LegendreSymbol, PrimeField};
use dlog_plonk::fp::Fp;
use dlog_plonk::fq::Fq;
use dlog_plonk::gate::{CircuitGate, GateType, GateWires, Wire};
use dlog_plonk::groupmap::BWParameters;
use dlog_plonk::index::{Index, VerifierIndex};
use dlog_plonk::poly::{DensePolynomial, Utils};
use dlog_plonk::poseidon::{ArithmeticSponge, ArithmeticSpongeParams, Sponge, ROUNDS_FULL};
use dlog_plonk::prover::ProverProof;
use dlog_plonk::scalars::RandomOracles;
use dlog_plonk::sponge::DefaultFqSponge;
use dlog_plonk::srs::SRS;

fn params<F: PrimeField>() -> ArithmeticSpongeParams<F> {
    let mut c = F::from_u64(3);
    let mut round_constants = Vec::new();
    for _ in 0..ROUNDS_FULL {
        let mut row = Vec::new();
        for _ in 0..3 {
            c = c.mul(&c).add(&F::from_u64(7));
            row.push(c);
        }
        round_constants.push(row);
    }
    let mut mds = Vec::new();
    for i in 0..3u64 {
        let mut row = Vec::new();
        for j in 0..3u64 {
            row.push(F::from_u64(i + j + 1).inverse().unwrap());
        }
        mds.push(row);
    }
    ArithmeticSpongeParams { round_constants, mds }
}

fn own_wires(row: usize) -> GateWires {
    [
        Wire { row, col: 0 },
        Wire { row, col: 1 },
        Wire { row, col: 2 },
        Wire { row, col: 3 },
        Wire { row, col: 4 },
    ]
}

fn gate(row: usize, typ: GateType, c: Vec<Fp>) -> CircuitGate<Fp> {
    CircuitGate { row, typ, wires: own_wires(row), c }
}

fn zero_gates(n: usize) -> Vec<CircuitGate<Fp>> {
    (0..n).map(|i| gate(i, GateType::Zero, vec![])).collect()
}

fn flatten(columns: &[Vec<Fp>]) -> Vec<Fp> {
    columns.iter().flat_map(|c| c.iter().copied()).collect()
}

fn setup(
    gates: Vec<CircuitGate<Fp>>,
    public: usize,
) -> (Index<Vesta>, VerifierIndex<Vesta>, BWParameters<Fq>) {
    let n = gates.len();
    let cs = ConstraintSystem::<Fp>::create(gates, params::<Fp>(), public).unwrap();
    let srs = SRS::<Vesta>::create(n).unwrap();
    let index = Index::<Vesta>::create(cs, params::<Fq>(), srs).unwrap();
    let verifier_index = index.verifier_index();
    let group_map = BWParameters::<Fq>::setup(Vesta::coeff_b()).unwrap();
    (index, verifier_index, group_map)
}

// One public input x in the first cell, which is wired to the cell below it.
fn identity_circuit(n: usize) -> Vec<CircuitGate<Fp>> {
    let mut gates = zero_gates(n);
    gates[0] = gate(
        0,
        GateType::Generic,
        vec![Fp::one(), Fp::zero(), Fp::zero(), Fp::zero(), Fp::zero()],
    );
    gates[0].wires[0] = Wire { row: 1, col: 0 };
    gates[1].wires[0] = Wire { row: 0, col: 0 };
    gates
}

#[test]
fn identity_circuit_proves_and_verifies() {
    let n = 32;
    let (index, verifier_index, group_map) = setup(identity_circuit(n), 1);
    let x = Fp::from_u64(123456789);
    let columns = vec![vec![x; n]; WIRES];
    assert!(index.cs.verify(&columns));
    let proof = ProverProof::create(&group_map, &flatten(&columns), &index, vec![]).unwrap();
    assert_eq!(proof.public, vec![x]);
    assert_eq!(proof.w_comm.len(), WIRES);
    assert_eq!(proof.evals.len(), 2);
    assert_eq!(proof.evals[0].s.len(), PERMUTS - 1);
    assert_eq!(ProverProof::verify(&group_map, &vec![proof], &verifier_index), Ok(true));
}

#[test]
fn a_changed_proof_is_rejected() {
    let n = 32;
    let (index, verifier_index, group_map) = setup(identity_circuit(n), 1);
    let x = Fp::from_u64(5);
    let witness = flatten(&vec![vec![x; n]; WIRES]);

    let mut proof = ProverProof::create(&group_map, &witness, &index, vec![]).unwrap();
    proof.public[0] = Fp::from_u64(6);
    assert_eq!(
        ProverProof::verify(&group_map, &vec![proof], &verifier_index),
        Err(ProofError::ProofVerification)
    );

    let mut proof = ProverProof::create(&group_map, &witness, &index, vec![]).unwrap();
    let old = proof.evals[0].z[0];
    proof.evals[0].z[0] = old.add(&Fp::one());
    assert_eq!(
        ProverProof::verify(&group_map, &vec![proof], &verifier_index),
        Err(ProofError::ProofVerification)
    );

    let mut proof = ProverProof::create(&group_map, &witness, &index, vec![]).unwrap();
    proof.proof.z1 = proof.proof.z1.add(&Fp::one());
    assert_eq!(
        ProverProof::verify(&group_map, &vec![proof], &verifier_index),
        Err(ProofError::OpenProof)
    );

    let mut proof = ProverProof::create(&group_map, &witness, &index, vec![]).unwrap();
    proof.w_comm.pop();
    assert_eq!(
        ProverProof::verify(&group_map, &vec![proof], &verifier_index),
        Err(ProofError::ProofVerification)
    );
}

#[test]
fn a_witness_of_the_wrong_length_is_refused() {
    let n = 8;
    let (index, _verifier_index, group_map) = setup(identity_circuit(n), 1);
    let witness = vec![Fp::one(); WIRES * n - 1];
    assert!(matches!(
        ProverProof::create(&group_map, &witness, &index, vec![]),
        Err(ProofError::WitnessCsInconsistent)
    ));
}

#[test]
fn a_broken_copy_constraint_is_refused() {
    let n = 8;
    let (index, _verifier_index, group_map) = setup(identity_circuit(n), 1);
    let mut columns = vec![vec![Fp::from_u64(9); n]; WIRES];
    columns[0][1] = Fp::from_u64(10);
    assert!(!index.cs.verify(&columns));
    assert!(matches!(
        ProverProof::create(&group_map, &flatten(&columns), &index, vec![]),
        Err(ProofError::ProofCreation)
    ));
}

#[test]
fn a_broken_gate_is_refused() {
    let n = 8;
    let mut gates = identity_circuit(n);
    // w0 + w1 - w2 = 0 on row 3
    gates[3] = gate(
        3,
        GateType::Generic,
        vec![Fp::one(), Fp::one(), Fp::one().neg(), Fp::zero(), Fp::zero()],
    );
    let (index, verifier_index, group_map) = setup(gates, 1);
    let mut columns = vec![vec![Fp::from_u64(2); n]; WIRES];
    columns[2][3] = Fp::from_u64(4);
    assert!(index.cs.verify(&columns));
    let proof = ProverProof::create(&group_map, &flatten(&columns), &index, vec![]).unwrap();
    assert_eq!(ProverProof::verify(&group_map, &vec![proof], &verifier_index), Ok(true));
    columns[2][3] = Fp::from_u64(5);
    assert!(!index.cs.verify(&columns));
    assert!(matches!(
        ProverProof::create(&group_map, &flatten(&columns), &index, vec![]),
        Err(ProofError::PolyDivision)
    ));
}

// One permutation of the hash: a gate for each round, and a row for the result.
fn poseidon_circuit() -> (Vec<CircuitGate<Fp>>, Vec<Vec<Fp>>) {
    let n = 64;
    let p = params::<Fp>();
    let mut gates = zero_gates(n);
    for j in 0..ROUNDS_FULL {
        gates[j] = gate(j, GateType::Poseidon, p.round_constants[j].clone());
    }
    let mut sponge = ArithmeticSponge::<Fp>::new();
    sponge.state = vec![Fp::from_u64(1), Fp::from_u64(2), Fp::from_u64(3)];
    let mut columns = vec![vec![Fp::zero(); n]; WIRES];
    for j in 0..ROUNDS_FULL {
        for k in 0..3 {
            columns[k][j] = sponge.state[k];
        }
        sponge.full_round(j, &p);
    }
    for k in 0..3 {
        columns[k][ROUNDS_FULL] = sponge.state[k];
    }
    (gates, columns)
}

#[test]
fn poseidon_circuit_proves_and_verifies() {
    let (gates, mut columns) = poseidon_circuit();
    let (index, verifier_index, group_map) = setup(gates, 0);
    assert!(index.cs.verify(&columns));
    let proof = ProverProof::create(&group_map, &flatten(&columns), &index, vec![]).unwrap();
    assert_eq!(ProverProof::verify(&group_map, &vec![proof], &verifier_index), Ok(true));
    // any changed cell of the state breaks a round
    columns[1][17] = columns[1][17].add(&Fp::one());
    assert!(!index.cs.verify(&columns));
    assert!(ProverProof::create(&group_map, &flatten(&columns), &index, vec![]).is_err());
}

#[test]
fn addition_and_multiplication_gates_prove_and_verify() {
    let n = 16;
    let mut gates = zero_gates(n);
    gates[2] = gate(2, GateType::Add, vec![]);
    gates[5] = gate(5, GateType::Vbmul, vec![]);
    let (index, verifier_index, group_map) = setup(gates, 0);
    let mut columns = vec![vec![Fp::zero(); n]; WIRES];
    // P + Q = S on Pallas, whose coordinates are scalars of Vesta
    let g = Pallas::prime_subgroup_generator();
    let p = g.mul(&Fq::from_u64(7));
    let q = g.mul(&Fq::from_u64(11));
    let s = p.add(&q);
    let slope = q.y.sub(&p.y).mul(&q.x.sub(&p.x).inverse().unwrap());
    let cells = [p.x, p.y, q.x, q.y, s.x, s.y, slope];
    for (k, v) in cells.iter().enumerate() {
        columns[k][2] = *v;
    }
    assert!(index.cs.verify(&columns));
    let proof = ProverProof::create(&group_map, &flatten(&columns), &index, vec![]).unwrap();
    assert_eq!(ProverProof::verify(&group_map, &vec![proof], &verifier_index), Ok(true));
    // a wrong sum is caught
    columns[4][2] = columns[4][2].add(&Fp::one());
    assert!(!index.cs.verify(&columns));
    assert!(ProverProof::create(&group_map, &flatten(&columns), &index, vec![]).is_err());
    columns[4][2] = s.x;
    // a cell that is no bit on the rows of the multiplication is caught
    columns[11][5] = Fp::from_u64(2);
    assert!(!index.cs.verify(&columns));
    assert!(ProverProof::create(&group_map, &flatten(&columns), &index, vec![]).is_err());
}

#[test]
fn a_batch_of_proofs_verifies_together() {
    let n = 8;
    let (index, verifier_index, group_map) = setup(identity_circuit(n), 1);
    let proofs = (1..4u64)
        .map(|x| {
            let witness = flatten(&vec![vec![Fp::from_u64(x); n]; WIRES]);
            ProverProof::create(&group_map, &witness, &index, vec![]).unwrap()
        })
        .collect::<Vec<_>>();
    assert_eq!(ProverProof::verify(&group_map, &proofs, &verifier_index), Ok(true));
    assert_eq!(ProverProof::verify(&group_map, &vec![], &verifier_index), Ok(true));
}

#[test]
fn circuits_that_cannot_be_compiled() {
    // three gates are no power of two
    assert!(ConstraintSystem::<Fp>::create(zero_gates(3), params::<Fp>(), 0).is_err());
    assert!(ConstraintSystem::<Fp>::create(zero_gates(2), params::<Fp>(), 0).is_err());
    // more public inputs than rows
    assert!(ConstraintSystem::<Fp>::create(zero_gates(4), params::<Fp>(), 5).is_err());
    // a wire that leaves the table
    let mut gates = zero_gates(4);
    gates[1].wires[2] = Wire { row: 4, col: 0 };
    assert!(ConstraintSystem::<Fp>::create(gates, params::<Fp>(), 0).is_err());
    // a gate without a polynomial
    let mut gates = zero_gates(4);
    gates[1] = CircuitGate::create_pack(1, own_wires(1));
    assert!(ConstraintSystem::<Fp>::create(gates, params::<Fp>(), 0).is_err());
    assert!(ConstraintSystem::<Fp>::create(zero_gates(4), params::<Fp>(), 0).is_ok());
}

// The challenges of an earlier opening with the commitment to their polynomial.
fn handed_on(index: &Index<Vesta>) -> (Vec<Fp>, PolyComm<Vesta>) {
    let k = ceil_log2(index.srs.g.len());
    let chals: Vec<Fp> = (0..k).map(|_| Fp::rand()).collect();
    let b = DensePolynomial::from_coefficients_vec(b_poly_coefficients(Fp::one(), &chals));
    let comm = index.srs.commit(&b, None);
    (chals, comm)
}

fn copies(prev: &[(Vec<Fp>, PolyComm<Vesta>)]) -> Vec<(Vec<Fp>, PolyComm<Vesta>)> {
    prev.iter().map(|(chals, comm)| (chals.clone(), comm.duplicate())).collect()
}

#[test]
fn poseidon_tweedledum() {
    const PERIOD: usize = ROUNDS_FULL + 1;
    const MAX_SIZE: usize = 1250;
    const NUM_POS: usize = 8;
    const N: usize = PERIOD * NUM_POS;
    const PUBLIC: usize = 0;
    let p = params::<Fp>();
    let c = &p.round_constants;

    // every cell of the state is wired to the same cell of the next permutation; the
    // last three rows, which the aggregation leaves out, stay out of the wiring
    let free = |i: usize| i >= N - 3 || i % PERIOD >= PERIOD - 3;
    let wires = |i: usize| -> GateWires {
        let mut w = own_wires(i);
        if !free(i) {
            for (k, cell) in w.iter_mut().enumerate().take(3) {
                *cell = Wire { row: (i + PERIOD) % N, col: k };
            }
        }
        w
    };
    let mut i = 0;
    let mut gates: Vec<CircuitGate<Fp>> = Vec::with_capacity(N);
    for _ in 0..NUM_POS {
        for j in 0..ROUNDS_FULL {
            gates.push(CircuitGate {
                row: i,
                typ: GateType::Poseidon,
                wires: wires(i),
                c: vec![c[j][0], c[j][1], c[j][2]],
            });
            i += 1;
        }
        gates.push(CircuitGate { row: i, typ: GateType::Zero, wires: wires(i), c: vec![] });
        i += 1;
    }

    let srs = SRS::<Vesta>::create(MAX_SIZE).unwrap();
    let cs = ConstraintSystem::<Fp>::create(gates, params::<Fp>(), PUBLIC).unwrap();
    let index = Index::<Vesta>::create(cs, params::<Fq>(), srs).unwrap();
    let group_map = BWParameters::<Fq>::setup(Vesta::coeff_b()).unwrap();

    let mut sponge = ArithmeticSponge::<Fp>::new();
    let mut batch = Vec::new();
    for _ in 0..1 {
        let (x, y, z) = (Fp::rand(), Fp::rand(), Fp::rand());
        let mut columns = vec![Vec::with_capacity(N); 3];
        for _ in 0..NUM_POS {
            sponge.state = vec![x, y, z];
            for k in 0..3 {
                columns[k].push(sponge.state[k]);
            }
            for j in 0..ROUNDS_FULL {
                sponge.full_round(j, &p);
                for k in 0..3 {
                    columns[k].push(sponge.state[k]);
                }
            }
        }
        columns.resize(WIRES, vec![Fp::zero(); N]);

        // verify the circuit satisfiability by the computed witness
        assert_eq!(index.cs.verify(&columns), true);

        let prev = handed_on(&index);

        // add the proof to the batch
        batch.push(
            ProverProof::create(&group_map, &flatten(&columns), &index, vec![prev]).unwrap(),
        );
    }

    let verifier_index = index.verifier_index();
    // verify the proofs in batch
    match ProverProof::verify(&group_map, &batch, &verifier_index) {
        Err(error) => panic!("Failure verifying the prover's proofs in batch: {:?}", error),
        Ok(verdict) => assert!(verdict),
    }
}

#[test]
fn commitments_that_are_handed_on_are_opened_with_the_proof() {
    let n = 8;
    let gates = identity_circuit(n);
    let cs = ConstraintSystem::<Fp>::create(gates, params::<Fp>(), 1).unwrap();
    // eleven points are padded to sixteen: the challenge polynomials have two chunks
    let srs = SRS::<Vesta>::create(11).unwrap();
    let index = Index::<Vesta>::create(cs, params::<Fq>(), srs).unwrap();
    let verifier_index = index.verifier_index();
    let group_map = BWParameters::<Fq>::setup(Vesta::coeff_b()).unwrap();
    let witness = flatten(&vec![vec![Fp::from_u64(5); n]; WIRES]);
    let prev = vec![handed_on(&index), handed_on(&index)];
    assert_eq!(prev[0].0.len(), 4);
    assert_eq!(prev[0].1.unshifted.len(), 2);
    let proof = ProverProof::create(&group_map, &witness, &index, copies(&prev)).unwrap();
    assert_eq!(proof.prev_challenges.len(), 2);
    assert_eq!(proof.prev_challenges[1].0, prev[1].0);
    assert_eq!(proof.prev_challenges[1].1.unshifted, prev[1].1.unshifted);
    assert_eq!(ProverProof::verify(&group_map, &vec![proof], &verifier_index), Ok(true));
    // a challenge that is not the one of the commitment
    let mut proof = ProverProof::create(&group_map, &witness, &index, copies(&prev)).unwrap();
    proof.prev_challenges[1].0[2] = proof.prev_challenges[1].0[2].add(&Fp::one());
    assert_eq!(
        ProverProof::verify(&group_map, &vec![proof], &verifier_index),
        Err(ProofError::OpenProof)
    );
    // a commitment that is not the one of the challenges
    let mut proof = ProverProof::create(&group_map, &witness, &index, copies(&prev)).unwrap();
    proof.prev_challenges[0].1 = prev[1].1.duplicate();
    assert_eq!(
        ProverProof::verify(&group_map, &vec![proof], &verifier_index),
        Err(ProofError::OpenProof)
    );
    // a list that was dropped on the way
    let mut proof = ProverProof::create(&group_map, &witness, &index, copies(&prev)).unwrap();
    proof.prev_challenges.pop();
    assert_eq!(
        ProverProof::verify(&group_map, &vec![proof], &verifier_index),
        Err(ProofError::OpenProof)
    );
    // a list of another length than the rounds of an opening
    let mut proof = ProverProof::create(&group_map, &witness, &index, copies(&prev)).unwrap();
    proof.prev_challenges[0].0.pop();
    assert_eq!(
        ProverProof::verify(&group_map, &vec![proof], &verifier_index),
        Err(ProofError::ProofVerification)
    );
    // the prover takes such a list, and the verifier refuses the proof
    let mut short = copies(&prev);
    short[0].0.truncate(2);
    let proof = ProverProof::create(&group_map, &witness, &index, short).unwrap();
    assert_eq!(
        ProverProof::verify(&group_map, &vec![proof], &verifier_index),
        Err(ProofError::ProofVerification)
    );
}

#[test]
fn the_aggregation_starts_at_one_and_comes_back_to_one() {
    let n = 16;
    let (index, _, _) = setup(identity_circuit(n), 1);
    let cs = &index.cs;
    let mut oracles = RandomOracles::<Fp>::zero();
    oracles.beta = Fp::rand();
    oracles.gamma = Fp::rand();
    let mut columns = vec![(0..n as u64).map(Fp::from_u64).collect::<Vec<_>>(); WIRES];
    // the two wired cells hold the same value
    columns[0][1] = columns[0][0];
    let z = cs.perm_aggreg(&columns, &oracles).unwrap();
    assert_eq!(z.coeffs.len(), n);
    let w = cs.domain.d1.group_gen;
    assert_eq!(z.evaluate(Fp::one()), Fp::one());
    assert_eq!(z.evaluate(w.pow(&[n as u64 - 3])), Fp::one());
    // with given values on the last two rows
    let (r1, r2) = (Fp::from_u64(11), Fp::from_u64(13));
    let z = cs.perm_aggreg_rows(&columns, &oracles, r1, r2).unwrap();
    assert_eq!(z[0], Fp::one());
    assert_eq!(z[n - 3], Fp::one());
    assert_eq!(z[n - 2], r1);
    assert_eq!(z[n - 1], r2);
    // the second value is the quotient of the two products over the first row
    let mut num = Fp::one();
    let mut den = Fp::one();
    for c in 0..PERMUTS {
        let id = cs.sid[0].mul(&cs.shift[c]);
        num = num.mul(&columns[c][0].add(&oracles.beta.mul(&id)).add(&oracles.gamma));
        den = den
            .mul(&columns[c][0].add(&oracles.beta.mul(&cs.sigmal1[c][0])).add(&oracles.gamma));
    }
    assert_eq!(z[1], num.mul(&den.inverse().unwrap()));
    // wired cells that differ
    columns[0][1] = columns[0][0].add(&Fp::one());
    assert!(matches!(cs.perm_aggreg(&columns, &oracles), Err(ProofError::ProofCreation)));
    assert!(matches!(
        cs.perm_aggreg_rows(&columns, &oracles, r1, r2),
        Err(ProofError::ProofCreation)
    ));
}

#[test]
fn the_challenges_of_an_opening_are_replayed() {
    let srs = SRS::<Vesta>::create(20).unwrap();
    let group_map = BWParameters::<Fq>::setup(Vesta::coeff_b()).unwrap();
    let sponge = DefaultFqSponge::<Vesta>::new(params::<Fq>());
    let a = DensePolynomial::from_coefficients_vec((0..20).map(|_| Fp::rand()).collect());
    let x = vec![Fp::rand()];
    let plnms = vec![(&a, None)];
    let proof =
        srs.open(&group_map, &plnms, &x, Fp::rand(), Fp::rand(), sponge.duplicate()).unwrap();
    assert_eq!(proof.lr.len(), 5);
    let mut first = sponge.duplicate();
    let mut second = sponge.duplicate();
    let pre = proof.prechallenges(&mut first).unwrap();
    let chals = proof.challenges(&mut second, &srs.endo_r).unwrap();
    assert_eq!(pre.len(), 5);
    assert_eq!(chals.chal.len(), 5);
    for i in 0..5 {
        // the square of a challenge is the short challenge read as a scalar, times the
        // non-residue where that is no square
        let scalar = pre[i].to_field(&srs.endo_r);
        let square = if scalar.legendre() == LegendreSymbol::QuadraticNonResidue {
            scalar.mul(&Fp::nonresidue())
        } else {
            scalar
        };
        assert_eq!(chals.chal_squared[i], square);
        assert_eq!(chals.chal[i].mul(&chals.chal_inv[i]), Fp::one());
        assert_eq!(chals.chal[i].square(), chals.chal_squared[i]);
        assert_eq!(chals.chal_squared[i].mul(&chals.chal_squared_inv[i]), Fp::one());
        // a short challenge has 128 bits
        assert_eq!(pre[i].0.into_repr()[2..], [0, 0]);
    }
    assert!(pre[0].0 != pre[1].0);
    // both leave the transcript in the same state
    assert_eq!(first.challenge(), second.challenge());
    // another transcript gives other challenges
    let mut other = sponge.duplicate();
    other.absorb_fr(&Fp::one());
    let moved = proof.prechallenges(&mut other).unwrap();
    assert!(moved[0].0 != pre[0].0);
}

#[test]
fn a_proof_for_another_circuit_is_rejected() {
    let n = 8;
    let (index, verifier_index, group_map) = setup(identity_circuit(n), 1);
    let columns = vec![vec![Fp::from_u64(2); n]; WIRES];
    // the same circuit with one more gate: w0 + w1 - w2 = 0 on row 3, which the
    // witness does not satisfy
    let mut gates = identity_circuit(n);
    gates[3] = gate(
        3,
        GateType::Generic,
        vec![Fp::one(), Fp::one(), Fp::one().neg(), Fp::zero(), Fp::zero()],
    );
    let (stricter, stricter_verifier, _) = setup(gates, 1);
    assert!(index.cs.verify(&columns));
    assert!(!stricter.cs.verify(&columns));
    let proof = ProverProof::create(&group_map, &flatten(&columns), &index, vec![]).unwrap();
    assert_eq!(
        ProverProof::verify(&group_map, &vec![proof], &stricter_verifier),
        Err(ProofError::OpenProof)
    );
    // the same circuit with another wiring
    let mut gates = identity_circuit(n);
    gates[1].wires[0] = Wire { row: 2, col: 0 };
    gates[2].wires[0] = Wire { row: 0, col: 0 };
    let (_, rewired_verifier, _) = setup(gates, 1);
    let proof = ProverProof::create(&group_map, &flatten(&columns), &index, vec![]).unwrap();
    assert!(ProverProof::verify(&group_map, &vec![proof], &rewired_verifier).is_err());
    // one bad proof spoils its batch
    let good = ProverProof::create(&group_map, &flatten(&columns), &index, vec![]).unwrap();
    let mut bad = ProverProof::create(&group_map, &flatten(&columns), &index, vec![]).unwrap();
    bad.proof.z2 = bad.proof.z2.add(&Fp::one());
    assert_eq!(
        ProverProof::verify(&group_map, &vec![good, bad], &verifier_index),
        Err(ProofError::OpenProof)
    );
}

#[test]
fn a_circuit_without_scalar_multiplication_reads_no_powers_for_it() {
    let n = 8;
    let (index, _, _) = setup(identity_circuit(n), 1);
    let cs = &index.cs;
    let w: Vec<DensePolynomial<Fp>> = (0..WIRES)
        .map(|_| DensePolynomial::from_coefficients_vec((0..n).map(|_| Fp::rand()).collect()))
        .collect();
    let z = DensePolynomial::from_coefficients_vec(vec![Fp::one(); n]);
    let polys = cs.evaluate(&w, &z);
    let (low, high) = cs.vbmul_quot(&polys, &[]);
    assert_eq!(low.evals, vec![Fp::zero(); 4 * n]);
    assert_eq!(high.evals, vec![Fp::zero(); 8 * n]);
}

// The cells of the rows of a scalar multiplication of the point `t` by the bits,
// five bits to each pair of rows, from the accumulator `2 t` on. The last sum is
// returned with the rows.
fn scalar_multiplication(t: Pallas, bits: &[u64], n: usize) -> (Vec<Vec<Fp>>, Pallas) {
    assert_eq!(bits.len() % 5, 0);
    let slope = |a: &Pallas, b: &Pallas| a.y.sub(&b.y).mul(&a.x.sub(&b.x).inverse().unwrap());
    // one step: the sum of the accumulator with itself and with `t` or its negative,
    // and the two slopes on the way
    let step = |p: &Pallas, bit: u64| {
        let q = if bit == 1 { t } else { Pallas::of_coordinates(t.x, t.y.neg()) };
        let a = p.add(&q);
        let r = a.add(p);
        (r, slope(p, &q), slope(&a, p))
    };
    let mut columns = vec![vec![Fp::zero(); n]; WIRES];
    let mut acc = t.double();
    let mut scalar = Fp::zero();
    for (pair, b) in bits.chunks(5).enumerate() {
        let (first, second) = (2 * pair, 2 * pair + 1);
        let p = acc;
        let (r, s1, s2) = step(&p, b[0]);
        let (s, s3, s4) = step(&r, b[1]);
        let cells = [t.x, t.y, s.x, s.y, p.x, p.y];
        for (k, v) in cells.iter().enumerate() {
            columns[k][first] = *v;
        }
        let cells = [r.x, r.y, s1, s2, Fp::from_u64(b[0]), s3, s4, Fp::from_u64(b[1])];
        for (k, v) in cells.iter().enumerate() {
            columns[7 + k][first] = *v;
        }
        let p = s;
        let (r, s1, _) = step(&p, b[2]);
        let (v, s3, _) = step(&r, b[3]);
        let (s, s5, _) = step(&v, b[4]);
        let cells = [s5, Fp::from_u64(b[4]), s.x, s.y, p.x, p.y];
        for (k, c) in cells.iter().enumerate() {
            columns[k][second] = *c;
        }
        let cells = [r.x, r.y, v.x, v.y, s1, Fp::from_u64(b[2]), s3, Fp::from_u64(b[3])];
        for (k, c) in cells.iter().enumerate() {
            columns[7 + k][second] = *c;
        }
        columns[6][second] = scalar;
        let weights = [8, 16, 1, 2, 4];
        let low: u64 = b.iter().zip(weights.iter()).map(|(bit, w)| bit * w).sum();
        scalar = scalar.mul(&Fp::from_u64(32)).add(&Fp::from_u64(low));
        columns[6][first] = scalar;
        acc = s;
    }
    (columns, acc)
}

#[test]
fn a_scalar_multiplication_proves_and_verifies() {
    let n = 16;
    let r: u64 = 123456789;
    let bits: Vec<u64> = (0..30).rev().map(|i| (r >> i) & 1).collect();
    let t = Pallas::prime_subgroup_generator();
    let (columns, sum) = scalar_multiplication(t, &bits, n);
    // every bit doubles the accumulator and adds the point or takes it off
    let mut e: u64 = 2;
    for b in bits.iter() {
        e = 2 * e + 2 * b - 1;
    }
    assert_eq!(sum, t.mul(&Fq::from_u64(e)));
    let mut gates = zero_gates(n);
    for pair in 0..6 {
        gates[2 * pair] = gate(2 * pair, GateType::Vbmul, vec![]);
    }
    let (index, verifier_index, group_map) = setup(gates, 0);
    assert!(index.cs.verify(&columns));
    let proof = ProverProof::create(&group_map, &flatten(&columns), &index, vec![]).unwrap();
    assert_eq!(ProverProof::verify(&group_map, &vec![proof], &verifier_index), Ok(true));
    // another bit in a cell of the bits: the slopes and the scalar no longer fit
    for (col, row) in [(11, 4), (14, 0), (12, 3), (14, 7), (1, 11)] {
        let mut changed = columns.clone();
        changed[col][row] = Fp::one().sub(&changed[col][row]);
        assert!(!index.cs.verify(&changed));
        assert!(ProverProof::create(&group_map, &flatten(&changed), &index, vec![]).is_err());
    }
    // a scalar that is not the one of the bits
    let mut changed = columns.clone();
    changed[6][2] = changed[6][2].add(&Fp::one());
    assert!(!index.cs.verify(&changed));
    assert!(ProverProof::create(&group_map, &flatten(&changed), &index, vec![]).is_err());
    // a sum that is not on the way
    let mut changed = columns.clone();
    changed[2][5] = changed[2][5].add(&Fp::one());
    assert!(!index.cs.verify(&changed));
    assert!(ProverProof::create(&group_map, &flatten(&changed), &index, vec![]).is_err());
}
