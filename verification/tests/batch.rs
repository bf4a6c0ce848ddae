use dlog_plonk::commitment::{OpeningProof, PolyComm};
use dlog_plonk::curve::{CommitmentCurve, Pallas, Vesta};
use dlog_plonk::field::PrimeField;
use dlog_plonk::fp::Fp;
use dlog_plonk::fq::Fq;
use dlog_plonk::groupmap::BWParameters;
use dlog_plonk::poly::{DensePolynomial, Utils};
use dlog_plonk::poseidon::ArithmeticSpongeParams;
use dlog_plonk::sponge::DefaultFqSponge;
use dlog_plonk::srs::SRS;
use dlog_plonk::verify::check_shape;
use rand::Rng;

// Parameters of the permutation over the base field of Vesta, derived from small
// integers: the constants are powers of 3, the matrix is the Cauchy matrix
// 1 / (i + j + 1).
fn sponge_params() -> ArithmeticSpongeParams<Fq> {
    let mut c = Fq::from_u64(3);
    let mut round_constants = Vec::new();
    for _ in 0..63 {
        let mut row = Vec::new();
        for _ in 0..3 {
            c = c.mul(&c).add(&Fq::from_u64(7));
            row.push(c);
        }
        round_constants.push(row);
    }
    let mut mds = Vec::new();
    for i in 0..3u64 {
        let mut row = Vec::new();
        for j in 0..3u64 {
            row.push(Fq::from_u64(i + j + 1).inverse().unwrap());
        }
        mds.push(row);
    }
    ArithmeticSpongeParams { round_constants, mds }
}

fn random_polynomial(len: usize) -> DensePolynomial<Fp> {
    DensePolynomial::from_coefficients_vec((0..len).map(|_| Fp::rand()).collect())
}

struct Opened {
    sponge: DefaultFqSponge<Vesta>,
    points: Vec<Fp>,
    polymask: Fp,
    evalmask: Fp,
    comms: Vec<(PolyComm<Vesta>, Vec<Vec<Fp>>, Option<usize>)>,
    proof: OpeningProof<Vesta>,
}

fn open_one(
    srs: &SRS<Vesta>,
    group_map: &BWParameters<Fq>,
    sponge: &DefaultFqSponge<Vesta>,
    size: usize,
    lengths: &[usize],
    n_points: usize,
) -> Opened {
    let a = lengths.iter().map(|s| random_polynomial(*s)).collect::<Vec<_>>();
    let x = (0..n_points).map(|_| Fp::rand()).collect::<Vec<Fp>>();
    let polymask = Fp::rand();
    let evalmask = Fp::rand();
    let plnms = (0..a.len())
        .map(|i| (&a[i], if i % 2 == 0 { Some(a[i].coeffs.len()) } else { None }))
        .collect::<Vec<_>>();
    let proof = srs.open(group_map, &plnms, &x, polymask, evalmask, sponge.duplicate()).unwrap();
    let comms = (0..a.len())
        .map(|i| {
            let bound = if i % 2 == 0 { Some(a[i].coeffs.len()) } else { None };
            (
                srs.commit(&a[i], bound),
                x.iter().map(|xx| a[i].eval(*xx, size)).collect::<Vec<_>>(),
                bound,
            )
        })
        .collect::<Vec<_>>();
    Opened { sponge: sponge.duplicate(), points: x, polymask, evalmask, comms, proof }
}

fn verify_all(srs: &SRS<Vesta>, group_map: &BWParameters<Fq>, prfs: &[Opened]) -> bool {
    let proofs = prfs
        .iter()
        .map(|o| {
            (
                o.sponge.duplicate(),
                o.points.clone(),
                o.polymask,
                o.evalmask,
                o.comms
                    .iter()
                    .map(|poly| (&poly.0, poly.1.iter().collect::<Vec<_>>(), poly.2))
                    .collect::<Vec<_>>(),
                &o.proof,
            )
        })
        .collect::<Vec<_>>();
    srs.verify(group_map, &proofs)
}

#[test]
fn dlog_commitment_test() {
    let mut random = rand::thread_rng();

    let size = 1 << 7;
    let polysize = 500;
    let srs = SRS::<Vesta>::create(size).unwrap();

    let group_map = BWParameters::<Fq>::setup(Vesta::coeff_b()).unwrap();
    let sponge = DefaultFqSponge::<Vesta>::new(sponge_params());

    let prfs = (0..7)
        .map(|_| {
            let length = (0..11)
                .map(|_| {
                    let len: usize = random.gen();
                    (len % polysize) + 1
                })
                .collect::<Vec<_>>();
            println!("{}{:?}", "sizes: ", length);
            open_one(&srs, &group_map, &sponge, size, &length, 7)
        })
        .collect::<Vec<_>>();

    assert!(verify_all(&srs, &group_map, &prfs));
}

#[test]
fn a_changed_response_is_rejected() {
    let size = 8;
    let srs = SRS::<Vesta>::create(size).unwrap();
    let group_map = BWParameters::<Fq>::setup(Vesta::coeff_b()).unwrap();
    let sponge = DefaultFqSponge::<Vesta>::new(sponge_params());
    let mut prfs = vec![
        open_one(&srs, &group_map, &sponge, size, &[5, 8, 3], 2),
        open_one(&srs, &group_map, &sponge, size, &[1, 7], 2),
    ];
    assert!(verify_all(&srs, &group_map, &prfs));
    prfs[1].proof.z1 = Fp::rand();
    assert!(!verify_all(&srs, &group_map, &prfs));
}

#[test]
fn a_changed_evaluation_is_rejected() {
    let size = 4;
    let srs = SRS::<Vesta>::create(size).unwrap();
    let group_map = BWParameters::<Fq>::setup(Vesta::coeff_b()).unwrap();
    let sponge = DefaultFqSponge::<Vesta>::new(sponge_params());
    let mut prfs = vec![open_one(&srs, &group_map, &sponge, size, &[4, 3], 2)];
    assert!(verify_all(&srs, &group_map, &prfs));
    let old = prfs[0].comms[0].1[0][0];
    prfs[0].comms[0].1[0][0] = old.add(&Fp::one());
    assert!(!verify_all(&srs, &group_map, &prfs));
}

#[test]
fn evaluations_that_do_not_fit_are_rejected() {
    let size = 4;
    let srs = SRS::<Vesta>::create(size).unwrap();
    let group_map = BWParameters::<Fq>::setup(Vesta::coeff_b()).unwrap();
    let sponge = DefaultFqSponge::<Vesta>::new(sponge_params());
    let mut prfs = vec![open_one(&srs, &group_map, &sponge, size, &[7], 2)];
    assert!(verify_all(&srs, &group_map, &prfs));
    // one chunk evaluation too few for the two chunks of the commitment
    prfs[0].comms[0].1[0].pop();
    prfs[0].comms[0].1[1].pop();
    assert!(!verify_all(&srs, &group_map, &prfs));
}

#[test]
fn reference_string_that_is_no_power_of_two_is_padded() {
    let size = 6;
    let srs = SRS::<Vesta>::create(size).unwrap();
    assert_eq!(srs.max_degree(), 6);
    let group_map = BWParameters::<Fq>::setup(Vesta::coeff_b()).unwrap();
    let sponge = DefaultFqSponge::<Vesta>::new(sponge_params());
    let prfs = vec![open_one(&srs, &group_map, &sponge, size, &[6, 5, 13], 3)];
    // three rounds: the argument folds over eight points
    assert_eq!(prfs[0].proof.lr.len(), 3);
    assert!(verify_all(&srs, &group_map, &prfs));
}

#[test]
fn reference_string_of_a_power_of_two_needs_no_padding() {
    let size = 4;
    let srs = SRS::<Vesta>::create(size).unwrap();
    let group_map = BWParameters::<Fq>::setup(Vesta::coeff_b()).unwrap();
    let sponge = DefaultFqSponge::<Vesta>::new(sponge_params());
    let prfs = vec![open_one(&srs, &group_map, &sponge, size, &[4], 1)];
    assert_eq!(prfs[0].proof.lr.len(), 2);
    assert!(verify_all(&srs, &group_map, &prfs));
}

#[test]
fn the_scheme_works_on_the_other_curve() {
    // the same parameters, read over the base field of Pallas
    let mut c = Fp::from_u64(3);
    let mut round_constants = Vec::new();
    for _ in 0..63 {
        let mut row = Vec::new();
        for _ in 0..3 {
            c = c.mul(&c).add(&Fp::from_u64(7));
            row.push(c);
        }
        round_constants.push(row);
    }
    let mds = (0..3u64)
        .map(|i| (0..3u64).map(|j| Fp::from_u64(i + j + 1).inverse().unwrap()).collect())
        .collect();
    let params = ArithmeticSpongeParams { round_constants, mds };
    let size = 12;
    let srs = SRS::<Pallas>::create(size).unwrap();
    let group_map = BWParameters::<Fp>::setup(Pallas::coeff_b()).unwrap();
    let sponge = DefaultFqSponge::<Pallas>::new(params);
    let a = DensePolynomial::from_coefficients_vec((0..30).map(|_| Fq::rand()).collect());
    let b = DensePolynomial::from_coefficients_vec((0..7).map(|_| Fq::rand()).collect());
    let x = vec![Fq::rand(), Fq::rand()];
    let (polymask, evalmask) = (Fq::rand(), Fq::rand());
    let plnms = vec![(&a, Some(30)), (&b, None)];
    let proof = srs.open(&group_map, &plnms, &x, polymask, evalmask, sponge.duplicate()).unwrap();
    let comm_a = srs.commit(&a, Some(30));
    let comm_b = srs.commit(&b, None);
    assert_eq!(comm_a.unshifted.len(), 3);
    assert!(comm_a.shifted.is_some());
    let evals_a = x.iter().map(|xx| a.eval(*xx, size)).collect::<Vec<_>>();
    let mut evals_b = x.iter().map(|xx| b.eval(*xx, size)).collect::<Vec<_>>();
    let batch = vec![(
        sponge.duplicate(),
        x.clone(),
        polymask,
        evalmask,
        vec![
            (&comm_a, evals_a.iter().collect::<Vec<_>>(), Some(30)),
            (&comm_b, evals_b.iter().collect::<Vec<_>>(), None),
        ],
        &proof,
    )];
    assert!(srs.verify(&group_map, &batch));
    drop(batch);
    evals_b[1][0] = evals_b[1][0].add(&Fq::one());
    let batch = vec![(
        sponge.duplicate(),
        x.clone(),
        polymask,
        evalmask,
        vec![
            (&comm_a, evals_a.iter().collect::<Vec<_>>(), Some(30)),
            (&comm_b, evals_b.iter().collect::<Vec<_>>(), None),
        ],
        &proof,
    )];
    assert!(!srs.verify(&group_map, &batch));
}

#[test]
fn a_bounded_commitment_without_its_shifted_point_is_rejected() {
    let size = 4;
    let srs = SRS::<Vesta>::create(size).unwrap();
    let group_map = BWParameters::<Fq>::setup(Vesta::coeff_b()).unwrap();
    let sponge = DefaultFqSponge::<Vesta>::new(sponge_params());
    // three coefficients with the bound three, which is no multiple of four
    let mut prfs = vec![open_one(&srs, &group_map, &sponge, size, &[3], 2)];
    assert!(prfs[0].comms[0].0.shifted.is_some());
    assert!(verify_all(&srs, &group_map, &prfs));
    let evals = prfs[0].comms[0].1.iter().collect::<Vec<_>>();
    assert!(check_shape(&prfs[0].comms[0].0, &evals, Some(3), size));
    let shifted = prfs[0].comms[0].0.shifted.take();
    let evals = prfs[0].comms[0].1.iter().collect::<Vec<_>>();
    assert!(!check_shape(&prfs[0].comms[0].0, &evals, Some(3), size));
    // a bound that is a multiple of the size asks for no shifted point, nor does none
    assert!(check_shape(&prfs[0].comms[0].0, &evals, Some(8), size));
    assert!(check_shape(&prfs[0].comms[0].0, &evals, None, size));
    assert!(!verify_all(&srs, &group_map, &prfs));
    prfs[0].comms[0].0.shifted = shifted;
    assert!(verify_all(&srs, &group_map, &prfs));
}

#[test]
fn every_chunk_is_committed_with_its_own_coefficients() {
    let srs = SRS::<Vesta>::create(3).unwrap();
    let a = random_polynomial(8);
    let c = srs.commit(&a, Some(8));
    assert_eq!(c.unshifted.len(), 3);
    for i in 0..3 {
        let hi = (3 * i + 3).min(8);
        let mut expected = Vesta::zero();
        for j in 3 * i..hi {
            expected = expected.add(&srs.g[j - 3 * i].mul(&a.coeffs[j]));
        }
        assert_eq!(c.unshifted[i], expected);
    }
    // the last two coefficients against the last two points
    let expected = srs.g[1].mul(&a.coeffs[6]).add(&srs.g[2].mul(&a.coeffs[7]));
    assert_eq!(c.shifted, Some(expected));
    // a polynomial that is longer than its bound: the coefficients up to the bound
    let c = srs.commit(&a, Some(5));
    let expected = srs.g[1].mul(&a.coeffs[3]).add(&srs.g[2].mul(&a.coeffs[4]));
    assert_eq!(c.shifted, Some(expected));
}
