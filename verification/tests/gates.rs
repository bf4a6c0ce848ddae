use dlog_plonk::constraints::{weighted, ConstraintSystem, EvaluationDomains, Selector, WIRES};
use dlog_plonk::error::ProofError;
use dlog_plonk::evaluations::{Domain, Evaluations};
use dlog_plonk::field::PrimeField;
use dlog_plonk::fp::Fp;
use dlog_plonk::fq::Fq;
use dlog_plonk::gate::{read_row, CircuitGate, GateType, GateWires, Wire, COLUMNS};
use dlog_plonk::poly::{DensePolynomial, Utils};
use dlog_plonk::polynomials::{ecad_values, psdn_values};
use dlog_plonk::poseidon::{ArithmeticSpongeParams, ROUNDS_FULL};
use dlog_plonk::scalars::{
    combine_list, CamlProofEvaluations, CamlRandomOracles, ProofEvaluations, RandomOracles,
};
use dlog_plonk::sponge::ScalarChallenge;
use dlog_plonk::transcript::alpha_powers;
use dlog_plonk::varbasemul::{vbmul_values, VBMUL_CONSTRAINTS, VBMUL_LOW};
use dlog_plonk::verification::{check_identity, public_eval};

fn f(x: u64) -> Fp {
    Fp::from_u64(x)
}

fn wires(row: usize) -> GateWires {
    [
        Wire { row, col: 0 },
        Wire { row, col: 1 },
        Wire { row, col: 2 },
        Wire { row, col: 3 },
        Wire { row, col: 4 },
    ]
}

fn params() -> ArithmeticSpongeParams<Fp> {
    let round_constants =
        (0..ROUNDS_FULL as u64).map(|r| (0..3u64).map(|k| f(10 * r + k)).collect()).collect();
    let mds = (0..3u64).map(|i| (0..3u64).map(|j| f(i + j + 1)).collect()).collect();
    ArithmeticSpongeParams { round_constants, mds }
}

#[test]
fn the_packing_gate() {
    assert_eq!(COLUMNS, 5);
    let g = CircuitGate::<Fp>::create_pack(0, wires(0));
    assert_eq!(g.row, 0);
    assert_eq!(g.typ, GateType::Pack);
    assert!(g.c.is_empty());
    assert_eq!(g.wires, wires(0));
    assert_eq!(g.pack(), f(1));
    assert_eq!(g.ps(), f(0));
    // the next scalar is 1 + 2 * 0 + 4 * 1 + 8 * 1 + 16 * 3 = 61
    let row0 = [0, 0, 0, 0, 3];
    let row1 = [1, 1, 0, 1, 61];
    let witness: Vec<Vec<Fp>> = (0..5).map(|c| vec![f(row0[c]), f(row1[c])]).collect();
    assert!(g.verify_pack(&witness));
    assert_eq!(read_row(&witness, 1), vec![f(1), f(1), f(0), f(1), f(61)]);
    let mut wrong = witness.clone();
    wrong[4][1] = f(62);
    assert!(!g.verify_pack(&wrong));
    // a cell that is no bit
    let mut wrong = witness.clone();
    wrong[2][1] = f(2);
    wrong[4][1] = f(65);
    assert!(!g.verify_pack(&wrong));
    let other = CircuitGate::<Fp>::create_poseidon(0, wires(0), vec![f(0); 5]);
    assert!(!other.verify_pack(&witness));
}

#[test]
fn the_poseidon_gate() {
    let c = vec![f(1), f(2), f(3), f(4), f(5)];
    let g = CircuitGate::<Fp>::create_poseidon(0, wires(0), c.clone());
    assert_eq!(g.typ, GateType::Poseidon);
    assert_eq!(g.c, c);
    assert_eq!(g.ps(), f(1));
    assert_eq!(g.pack(), f(0));
    assert_eq!(g.rc(), c);
    let zero = CircuitGate::<Fp> { row: 0, typ: GateType::Zero, wires: wires(0), c: vec![] };
    assert_eq!(zero.rc(), vec![f(0); 5]);
    assert_eq!(zero.ps(), f(0));
    // a matrix of three rows over five cells, the cells 1, 2, 0, 0, 1
    let mds = vec![
        vec![f(1), f(0), f(0), f(0), f(0)],
        vec![f(0), f(1), f(0), f(0), f(1)],
        vec![f(1), f(1), f(1), f(1), f(1)],
    ];
    let p = ArithmeticSpongeParams { round_constants: vec![], mds };
    let row0 = [1, 2, 0, 0, 1];
    // fifth powers 1, 32, 0, 0, 1
    let row1 = [1 + 1, 2 + 33, 3 + 34, 0, 0];
    let witness: Vec<Vec<Fp>> = (0..5).map(|c| vec![f(row0[c]), f(row1[c])]).collect();
    assert!(g.verify_poseidon(&witness, &p));
    let mut wrong = witness.clone();
    wrong[1][1] = f(36);
    assert!(!g.verify_poseidon(&witness.iter().map(|c| vec![c[1], c[0]]).collect(), &p));
    assert!(!g.verify_poseidon(&wrong, &p));
    assert!(!zero.verify_poseidon(&witness, &p));
}

#[test]
fn constraints_of_the_round_of_the_hash() {
    let p = params();
    let this = [f(1), f(2), f(1)];
    // 1 + 2 * 32 + 3, 2 + 3 * 32 + 4, 3 + 4 * 32 + 5
    let next = [f(68), f(102), f(136)];
    assert_eq!(psdn_values(&p, &this, &next), vec![f(0), f(0), f(0)]);
    let next = [f(60), f(102), f(137)];
    assert_eq!(psdn_values(&p, &this, &next), vec![f(8), f(0), f(1).neg()]);
    let e = vec![
        ProofEvaluations { w: this.to_vec(), z: f(0), t: f(0), f: f(0), s: vec![] },
        ProofEvaluations { w: next.to_vec(), z: f(0), t: f(0), f: f(0), s: vec![] },
    ];
    // 8 * 10 + 0 * 100 - 1 * 1000
    assert_eq!(
        ConstraintSystem::psdn_scalars(&e, &p, &[f(10), f(100), f(1000)]),
        f(80).sub(&f(1000))
    );
}

#[test]
fn constraints_of_the_addition() {
    // on y^2 = x^3 + 5 over the rationals there is nothing small: take the relations
    // themselves with xP = 1, yP = 2, xQ = 3, yQ = 8, s = 3: xS = 9 - 4 = 5, yS = 3 (1 - 5) - 2
    let w = [f(1), f(2), f(3), f(8), f(5), f(14).neg(), f(3)];
    assert_eq!(ecad_values(&w), vec![f(0), f(0), f(0)]);
    let w = [f(1), f(2), f(3), f(8), f(6), f(14).neg(), f(3)];
    assert_eq!(ecad_values(&w), vec![f(0), f(1).neg(), f(3).neg()]);
    let e = vec![ProofEvaluations { w: w.to_vec(), z: f(0), t: f(0), f: f(0), s: vec![] }];
    assert_eq!(ConstraintSystem::ecad_scalars(&e, &[f(1), f(10), f(100)]), f(310).neg());
}

#[test]
fn constraints_of_the_scalar_multiplication() {
    assert_eq!(VBMUL_CONSTRAINTS, 23);
    assert_eq!(VBMUL_LOW, 14);
    let zero = vec![f(0); WIRES];
    assert_eq!(vbmul_values(&zero, &zero), vec![f(0); 23]);
    // a cell that should be a bit: 3 - 9 in the first constraint
    let mut this = zero.clone();
    this[11] = f(3);
    let v = vbmul_values(&this, &zero);
    assert_eq!(v[0], f(6).neg());
    // the first bit of the first row has the weight 8 in the scalar
    assert_eq!(v[5], f(24));
    // yt (2 b1 - 1) with yt = 0
    assert_eq!(v[6], f(0));
    let mut this = zero.clone();
    this[1] = f(7);
    let v = vbmul_values(&this, &zero);
    // yt (2 b - 1) = -7 in both additions of the first row
    assert_eq!(v[6], f(7).neg());
    assert_eq!(v[10], f(7).neg());
    // - (2 b - 1) yt = 7 in the three additions of the second row
    assert_eq!(v[14], f(7));
    assert_eq!(v[17], f(7));
    assert_eq!(v[20], f(7));
    // n = 32 m + 16 b2 + 8 b1 + 4 b3' + 2 b2' + b1' with m = 3 and the bits 1 0 1 1 0
    let mut first = zero.clone();
    let mut second = zero.clone();
    second[6] = f(3);
    first[14] = f(1);
    second[1] = f(1);
    second[14] = f(1);
    first[6] = f(96 + 16 + 4 + 2);
    assert_eq!(vbmul_values(&first, &second)[5], f(0));
    first[11] = f(1);
    assert_eq!(vbmul_values(&first, &second)[5], f(8));
    second[12] = f(1);
    first[6] = f(96 + 16 + 8 + 4 + 2 + 1);
    let v = vbmul_values(&first, &second);
    assert_eq!(v[5], f(0));
    assert_eq!(v[..5], [f(0), f(0), f(0), f(0), f(0)]);
    // the abscissas of the points are no part of the scalar
    first[7] = f(9);
    second[7] = f(9);
    second[2] = f(1);
    assert_eq!(vbmul_values(&first, &second)[5], f(0));
    second[6] = f(4);
    assert_eq!(vbmul_values(&first, &second)[5], f(32));
    let alpha: Vec<Fp> = (0..23).map(|i| f(i + 1)).collect();
    let e = vec![
        ProofEvaluations { w: this.clone(), z: f(0), t: f(0), f: f(0), s: vec![] },
        ProofEvaluations { w: zero.clone(), z: f(0), t: f(0), f: f(0), s: vec![] },
    ];
    assert_eq!(
        ConstraintSystem::vbmul_scalars(&e, &alpha),
        f(7 * (15 + 18 + 21)).sub(&f(7 * (7 + 11)))
    );
    assert_eq!(weighted(&[f(1), f(2), f(3)], &[f(10), f(100), f(1000)], 1, 3), f(3200));
}

#[test]
fn the_scalar_of_the_permutation() {
    let e = vec![
        ProofEvaluations { w: vec![f(1), f(2), f(3)], z: f(0), t: f(0), f: f(0), s: vec![f(4), f(5)] },
        ProofEvaluations { w: vec![], z: f(7), t: f(0), f: f(0), s: vec![] },
    ];
    let mut o = RandomOracles::<Fp>::zero();
    o.beta = f(2);
    o.gamma = f(3);
    o.alpha = f(5);
    // - 7 * 2 * 5 * 11 * (3 + 2 * 4 + 1) * (3 + 2 * 5 + 2)
    assert_eq!(ConstraintSystem::perm_scalars(&e, &o, f(11)), f(770 * 12 * 15).neg());
}

#[test]
fn evaluations_are_put_together_from_chunks() {
    let e = ProofEvaluations {
        w: vec![vec![f(1), f(2)], vec![f(3)]],
        z: vec![f(4), f(5), f(6)],
        t: vec![],
        f: vec![f(7)],
        s: vec![vec![f(0), f(1)]],
    };
    let c = e.combine(f(10));
    assert_eq!(c.w, vec![f(21), f(3)]);
    assert_eq!(c.z, f(654));
    assert_eq!(c.t, f(0));
    assert_eq!(c.f, f(7));
    assert_eq!(c.s, vec![f(10)]);
    assert_eq!(combine_list(&vec![vec![f(1), f(1)]], f(2)), vec![f(3)]);
}

#[test]
fn records_for_other_languages() {
    let o = RandomOracles::<Fp>::zero();
    assert_eq!(o.beta, f(0));
    assert_eq!(o.u_chal.0, f(0));
    let mut o = o;
    o.zeta = f(9);
    o.v_chal = ScalarChallenge(f(4));
    let c = CamlRandomOracles::from(o);
    assert_eq!(c.zeta, f(9));
    let back = c.into();
    assert_eq!(back.zeta, f(9));
    assert_eq!(back.v_chal.0, f(4));
    let e = ProofEvaluations {
        w: (0..5).map(|i| vec![f(i)]).collect(),
        z: vec![f(10)],
        t: vec![f(11)],
        f: vec![f(12)],
        s: (0..4).map(|i| vec![f(20 + i)]).collect(),
    };
    let c = CamlProofEvaluations::from(e);
    assert_eq!(c.w.0, vec![f(0)]);
    assert_eq!(c.w.4, vec![f(4)]);
    assert_eq!(c.s.3, vec![f(23)]);
    assert_eq!(c.t, vec![f(11)]);
    let back = c.into();
    assert_eq!(back.w.len(), 5);
    assert_eq!(back.s.len(), 4);
    assert_eq!(back.w[2], vec![f(2)]);
    assert_eq!(back.s[0], vec![f(20)]);
    assert_eq!(back.z, vec![f(10)]);
    assert_eq!(back.f, vec![f(12)]);
}

#[test]
fn domains_and_their_roots_of_unity() {
    let d = Domain::<Fp>::new(3).unwrap();
    assert_eq!(d.size, 8);
    assert_eq!(d.log_size, 3);
    assert_eq!(
        d.group_gen.into_repr(),
        [0x1d15074e708ac5ae, 0xc73bfb511bf223ac, 0xd26301123de65ed9, 0x3f8f1cc60c6da729]
    );
    assert_eq!(d.group_gen.pow(&[8]), f(1));
    assert_eq!(d.group_gen.pow(&[4]), f(1).neg());
    assert_eq!(d.size_inv.mul(&f(8)), f(1));
    let e = d.elements();
    assert_eq!(e.len(), 8);
    assert_eq!(e[0], f(1));
    assert_eq!(e[1], d.group_gen);
    assert_eq!(e[5], d.group_gen.pow(&[5]));
    let q = Domain::<Fq>::new(3).unwrap();
    assert_eq!(
        q.group_gen.into_repr(),
        [0x1ba3a33bc04980a4, 0x7e538bca7c94ad2b, 0xaa5f610ed09c17fe, 0x3a57bee9fb370430]
    );
    assert_eq!(Domain::<Fp>::new(0).unwrap().size, 1);
    assert!(matches!(Domain::<Fp>::new(33), Err(ProofError::DomainCreation)));
    assert!(matches!(EvaluationDomains::<Fp>::create(30), Err(ProofError::DomainCreation)));
    let ds = EvaluationDomains::<Fp>::create(2).unwrap();
    assert_eq!((ds.d1.size, ds.d4.size, ds.d8.size), (4, 16, 32));
    assert_eq!(ds.d8.group_gen.pow(&[8]), ds.d1.group_gen);
}

#[test]
fn values_and_coefficients() {
    let d = Domain::<Fp>::new(2).unwrap();
    let p = DensePolynomial::from_coefficients_vec(vec![f(1), f(2), f(3)]);
    let e = p.evaluate_over_domain(&d);
    assert_eq!(e.evals.len(), 4);
    let xs = d.elements();
    for i in 0..4 {
        assert_eq!(e.evals[i], p.evaluate(xs[i]));
    }
    let back = e.interpolate(&d);
    assert_eq!(back.coeffs, vec![f(1), f(2), f(3), f(0)]);
    let q = Domain::<Fq>::new(1).unwrap();
    let e = Evaluations { evals: vec![Fq::from_u64(5), Fq::from_u64(9)] };
    // (x + 1) * 2 + 5 with x = -+1: 7 - 2 x
    assert_eq!(e.interpolate(&q).coeffs, vec![Fq::from_u64(7), Fq::from_u64(2).neg()]);
    let a = Evaluations { evals: vec![f(1), f(2), f(3), f(4)] };
    let b = Evaluations { evals: vec![f(10), f(20), f(30), f(40)] };
    assert_eq!(a.add(&b).evals, vec![f(11), f(22), f(33), f(44)]);
    assert_eq!(b.sub(&a).evals, vec![f(9), f(18), f(27), f(36)]);
    assert_eq!(a.mul(&b).evals, vec![f(10), f(40), f(90), f(160)]);
    assert_eq!(a.scale(f(3)).evals, vec![f(3), f(6), f(9), f(12)]);
    assert_eq!(a.shift(1).evals, vec![f(2), f(3), f(4), f(1)]);
    assert_eq!(a.shift(6).evals, vec![f(3), f(4), f(1), f(2)]);
    assert_eq!(a.shift(0).evals, a.evals);
    assert!(!a.is_zero());
    assert!(Evaluations { evals: vec![f(0), f(0)] }.is_zero());
    assert_eq!(a.duplicate().evals, a.evals);
    let ds = EvaluationDomains::<Fp>::create(2).unwrap();
    let s = Selector::create(&ds, vec![f(0), f(1), f(0), f(0)]);
    assert!(!s.is_zero());
    assert_eq!(s.m.coeffs.len(), 4);
    assert_eq!(s.l4.evals.len(), 16);
    assert_eq!(s.l8.evals[8], f(1));
    assert_eq!(s.l8.evals[16], f(0));
    assert_eq!(s.l4.evals[4], f(1));
}

#[test]
fn powers_of_alpha_begin_with_the_square() {
    assert_eq!(alpha_powers(f(3), 4), vec![f(9), f(27), f(81), f(243)]);
    assert!(alpha_powers(f(3), 0).is_empty());
}

#[test]
fn the_polynomial_of_the_public_inputs_at_a_point() {
    let d = Domain::<Fp>::new(2).unwrap();
    let public = vec![f(5), f(7)];
    let p = Evaluations { evals: public.clone() }.interpolate(&d).scale(f(1).neg());
    let zeta = f(123456);
    let zeta1 = zeta.pow(&[4]);
    assert_eq!(public_eval(&public, d.group_gen, zeta, zeta1, d.size_inv), p.evaluate(zeta));
    assert_eq!(public_eval(&vec![], d.group_gen, zeta, zeta1, d.size_inv), f(0));
}

#[test]
fn the_identity_of_the_quotient_on_plain_numbers() {
    // with beta = 0 and gamma = 1 both products are z and z_next: the left side is
    // f + p + alpha zkp (z - z_next)
    let e = vec![
        ProofEvaluations { w: vec![f(0); 5], z: f(1), t: f(0), f: f(0), s: vec![f(0); 4] },
        ProofEvaluations { w: vec![f(0); 5], z: f(1), t: f(0), f: f(0), s: vec![f(0); 4] },
    ];
    let mut o = RandomOracles::<Fp>::zero();
    o.gamma = f(1);
    o.alpha = f(3);
    o.zeta = f(10);
    let shift = vec![f(1); 5];
    // z = 1: both sides are zero
    assert!(check_identity(&e, &shift, f(0), &o, f(9), f(27), f(10000), f(7), f(2)));
    // a public value that is not taken up by f
    assert!(!check_identity(&e, &shift, f(1), &o, f(9), f(27), f(10000), f(7), f(2)));
}

#[test]
fn circuits_that_are_refused_say_why() {
    let gates = |n: usize| -> Vec<CircuitGate<Fp>> {
        (0..n)
            .map(|i| CircuitGate { row: i, typ: GateType::Zero, wires: wires(i), c: vec![] })
            .collect()
    };
    let full = || {
        let round_constants = (0..ROUNDS_FULL as u64)
            .map(|r| (0..3u64).map(|k| f(10 * r + k)).collect())
            .collect();
        let mds = (0..3u64).map(|i| (0..3u64).map(|j| f(i + j + 1)).collect()).collect();
        ArithmeticSpongeParams { round_constants, mds }
    };
    assert!(matches!(
        ConstraintSystem::create(gates(6), full(), 0),
        Err(ProofError::DomainCreation)
    ));
    assert!(matches!(
        ConstraintSystem::create(gates(8), full(), 9),
        Err(ProofError::ConstraintInconsist)
    ));
    let mut g = gates(8);
    g[3].wires[4] = Wire { row: 0, col: 5 };
    assert!(matches!(
        ConstraintSystem::create(g, full(), 0),
        Err(ProofError::ConstraintInconsist)
    ));
    let cs = ConstraintSystem::create(gates(8), full(), 2).unwrap();
    assert_eq!(cs.public, 2);
    assert_eq!(cs.sid[1], cs.domain.d1.group_gen);
    assert_eq!(cs.shift, vec![f(1), f(5), f(25), f(125), f(625)]);
    assert_eq!(cs.sigmal1[2][3], cs.sid[3].mul(&f(25)));
    // the masking polynomial vanishes on the last three rows and nowhere else
    for i in 0..8 {
        assert_eq!(cs.zkp.m.evaluate(cs.sid[i]) == f(0), i >= 5);
    }
    assert!(cs.mul.is_zero());
    assert_eq!(cs.one.m.coeffs[0], f(1));
    assert_eq!(cs.id.m.coeffs[1], f(1));
}

#[test]
fn evaluations_that_are_all_zero() {
    let e = ProofEvaluations::<Fp>::zero();
    assert_eq!(e.w, vec![Fp::zero(); WIRES]);
    assert_eq!(e.s, vec![Fp::zero(); 4]);
    assert_eq!((e.z, e.t, e.f), (Fp::zero(), Fp::zero(), Fp::zero()));
}
