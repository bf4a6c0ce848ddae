use dlog_plonk::commitment::{
    b_poly, b_poly_coefficients, ceil_log2, inner_prod, pow2_usize, pows, product, PolyComm,
};
use dlog_plonk::curve::{msm, CommitmentCurve, Pallas, Vesta, POINT_BYTES};
use dlog_plonk::field::PrimeField;
use dlog_plonk::fp::Fp;
use dlog_plonk::fq::Fq;
use dlog_plonk::groupmap::{curve_eqn, BWParameters};
use dlog_plonk::open::{combine_polynomials, eval_vector, fold_scalars};
use dlog_plonk::poly::{eval_polynomial, DensePolynomial, Utils};
use dlog_plonk::srs::{append_bytes, be_bytes, le_bytes, le_value, seed_element, SRS};

fn f(x: u64) -> Fp {
    Fp::from_u64(x)
}

fn poly(c: &[u64]) -> DensePolynomial<Fp> {
    DensePolynomial::from_coefficients_vec(c.iter().map(|x| f(*x)).collect())
}

#[test]
fn least_exponents() {
    assert_eq!(ceil_log2(0), 0);
    assert_eq!(ceil_log2(1), 0);
    assert_eq!(ceil_log2(2), 1);
    assert_eq!(ceil_log2(3), 2);
    assert_eq!(ceil_log2(4), 2);
    assert_eq!(ceil_log2(5), 3);
    assert_eq!(ceil_log2(128), 7);
    assert_eq!(ceil_log2(129), 8);
    assert_eq!(ceil_log2(usize::MAX), usize::BITS as usize);
    assert_eq!(pow2_usize(0), 1);
    assert_eq!(pow2_usize(10), 1024);
}

#[test]
fn products_powers_and_inner_products() {
    assert_eq!(product::<Fp>(&[]), f(1));
    assert_eq!(product(&[f(2), f(3), f(7)]), f(42));
    assert_eq!(pows(4, f(3)), vec![f(1), f(3), f(9), f(27)]);
    assert_eq!(pows(0, f(3)), Vec::<Fp>::new());
    assert_eq!(inner_prod(&[f(1), f(2), f(3)], &[f(4), f(5), f(6)]), f(32));
    assert_eq!(inner_prod(&[f(1), f(2), f(3)], &[f(4), f(5)]), f(14));
    assert_eq!(inner_prod::<Fp>(&[], &[]), f(0));
}

#[test]
fn challenge_polynomial_by_hand() {
    // (5 + 2 x^2) (7 + 3 x) at x = 11
    assert_eq!(b_poly(&vec![f(2), f(3)], &vec![f(5), f(7)], f(11)), f(9880));
    assert_eq!(b_poly(&vec![], &vec![], f(11)), f(1));
    assert_eq!(
        b_poly_coefficients(f(1), &vec![f(2), f(3)]),
        vec![f(1), f(3), f(2), f(6)]
    );
    assert_eq!(b_poly_coefficients(f(5), &vec![]), vec![f(5)]);
    assert_eq!(
        b_poly_coefficients(f(10), &vec![f(2), f(3), f(5)]),
        vec![f(10), f(50), f(30), f(150), f(20), f(100), f(60), f(300)]
    );
}

#[test]
fn challenge_polynomial_and_its_coefficients_agree() {
    for rounds in 0..6 {
        let chals: Vec<Fp> = (0..rounds).map(|_| Fp::rand()).collect();
        let chal_invs: Vec<Fp> = chals.iter().map(|c| c.inverse().unwrap()).collect();
        let chal_squareds: Vec<Fp> = chals.iter().map(|c| c.square()).collect();
        let s0 = product(&chal_invs);
        let s = b_poly_coefficients(s0, &chal_squareds);
        assert_eq!(s.len(), 1 << rounds);
        let x = Fp::rand();
        assert_eq!(eval_polynomial(&s, x), b_poly(&chals, &chal_invs, x));
        // the commitment to the coefficients is the inner product with the points
        let g = Vesta::prime_subgroup_generator();
        let points: Vec<Vesta> = (0..s.len() as u64).map(|i| g.mul(&f(i + 2))).collect();
        let weights: Vec<Fp> = (0..s.len() as u64).map(|i| f(i + 2)).collect();
        assert_eq!(msm(&points, &s), g.mul(&inner_prod(&s, &weights)));
    }
}

#[test]
fn polynomial_utilities() {
    let p = poly(&[1, 2, 3]);
    assert_eq!(p.evaluate(f(10)), f(321));
    assert_eq!(eval_polynomial::<Fp>(&[], f(10)), f(0));
    assert_eq!(p.scale(f(5)).coeffs, vec![f(5), f(10), f(15)]);
    assert_eq!(p.shiftr(2).coeffs, vec![f(0), f(0), f(1), f(2), f(3)]);
    assert_eq!(p.shiftr(0).coeffs, p.coeffs);
    assert_eq!(poly(&[1, 2, 3, 4, 5]).eval(f(10), 2), vec![f(21), f(43), f(5)]);
    assert_eq!(poly(&[1, 2, 3, 4]).eval(f(10), 2), vec![f(21), f(43)]);
    assert_eq!(poly(&[1, 2, 3]).eval(f(10), 5), vec![f(321)]);
    assert_eq!(poly(&[]).eval(f(10), 5), Vec::<Fp>::new());
    assert_eq!(<DensePolynomial<Fp> as Utils<Fp>>::eval_polynomial(&[f(4), f(1)], f(3)), f(7));
    assert_eq!(p.plus(&poly(&[1, 1, 1, 1])).coeffs, vec![f(2), f(3), f(4), f(1)]);
    assert_eq!(poly(&[5, 5]).minus(&poly(&[1, 2, 3])).coeffs, vec![f(4), f(3), f(3).neg()]);
    assert!(poly(&[0, 0]).is_zero());
    assert!(!poly(&[0, 1]).is_zero());
    assert!(DensePolynomial::<Fp>::zero().is_zero());
    assert_eq!(DensePolynomial::from_coefficients_slice(&[f(1), f(2)]).coeffs, vec![f(1), f(2)]);
}

#[test]
fn divisions() {
    // (x^2 + 3 x + 5) (x^3 - 1) + (2 x + 1)
    let p = poly(&[1, 2, 0, 5, 3, 1]).minus(&poly(&[5, 3, 1]));
    let (q, r) = p.divide_by_vanishing_poly(3);
    assert_eq!(q.coeffs, vec![f(5), f(3), f(1)]);
    assert_eq!(r.coeffs, vec![f(1), f(2), f(0)]);
    let (q, r) = poly(&[1, 2]).divide_by_vanishing_poly(3);
    assert!(q.coeffs.is_empty());
    assert_eq!(r.coeffs, vec![f(1), f(2)]);
    // x^2 - 5 x + 6 = (x - 2) (x - 3)
    let p = poly(&[6, 0, 1]).minus(&poly(&[0, 5]));
    let (q, r) = p.divide_by_linear(f(2));
    assert_eq!(q.coeffs, vec![f(3).neg(), f(1)]);
    assert_eq!(r, f(0));
    let (q, r) = poly(&[1, 2, 3]).divide_by_linear(f(10));
    assert_eq!(q.coeffs, vec![f(32), f(3)]);
    assert_eq!(r, f(321));
}

#[test]
fn folding_polynomials_of_a_batch() {
    let a = poly(&[1, 2, 3, 4, 5]);
    let b = poly(&[7, 8]);
    // chunks of 4 with the powers of 10: 1 for the first chunk of a, 10 for its second,
    // 100 for that chunk moved to position 4 - 5 % 4 = 3, and 1000 for b
    let p = combine_polynomials(&vec![(&a, Some(5)), (&b, None)], f(10), 4);
    assert_eq!(p.coeffs, vec![f(1 + 50 + 7000), f(2 + 8000), f(3), f(4 + 500)]);
    let q = combine_polynomials(&vec![(&b, None), (&b, None)], f(10), 4);
    assert_eq!(q.coeffs, vec![f(77), f(88)]);
    let none: Vec<(&DensePolynomial<Fp>, Option<usize>)> = vec![];
    assert!(combine_polynomials(&none, f(10), 4).coeffs.is_empty());
}

#[test]
fn the_evaluation_vector() {
    // b_k = 2^k + 10 * 3^k
    assert_eq!(
        eval_vector(&vec![f(2), f(3)], f(10), 4),
        vec![f(11), f(32), f(94), f(278)]
    );
    assert_eq!(eval_vector(&vec![], f(10), 2), vec![f(0), f(0)]);
    assert_eq!(fold_scalars(&[f(1), f(2)], &[f(3), f(4)], f(10), f(100)), vec![f(310), f(420)]);
}

#[test]
fn a_single_chunk_commits_to_one_point() {
    let srs = SRS::<Vesta>::create(8).unwrap();
    let p = poly(&[1, 2, 3]);
    let c = srs.commit(&p, None);
    assert_eq!(c.unshifted.len(), 1);
    assert_eq!(c.shifted, None);
    assert_eq!(c.unshifted[0], msm(&srs.g, &p.coeffs));
    let want = srs.g[0].add(&srs.g[1].mul(&f(2))).add(&srs.g[2].mul(&f(3)));
    assert_eq!(c.unshifted[0], want);
    // with a bound, the coefficients are also committed against the right end
    let b = srs.commit(&p, Some(3));
    assert_eq!(b.unshifted, c.unshifted);
    let shifted = srs.g[5].add(&srs.g[6].mul(&f(2))).add(&srs.g[7].mul(&f(3)));
    assert_eq!(b.shifted, Some(shifted));
    // a full chunk
    let full = poly(&[1, 1, 1, 1, 1, 1, 1, 1]);
    assert_eq!(srs.commit(&full, None).unshifted.len(), 1);
}

#[test]
fn a_bound_that_is_a_multiple_of_the_size_gives_no_shifted_point() {
    let srs = SRS::<Vesta>::create(4).unwrap();
    let p = poly(&[1, 2, 3, 4, 5, 6, 7, 8]);
    assert_eq!(srs.commit(&p, Some(8)).shifted, None);
    assert_eq!(srs.commit(&p, Some(4)).shifted, None);
    assert_eq!(srs.commit(&p, Some(0)).shifted, None);
    assert!(srs.commit(&p, Some(7)).shifted.is_some());
    assert!(srs.commit(&poly(&[1, 2, 3, 4, 5]), Some(5)).shifted.is_some());
}

#[test]
fn chunks_of_a_commitment() {
    let srs = SRS::<Vesta>::create(4).unwrap();
    let p = poly(&[1, 2, 3, 4, 5, 6, 7, 8, 9]);
    let c = srs.commit(&p, None);
    assert_eq!(c.unshifted.len(), 3);
    assert_eq!(c.unshifted[1], msm(&srs.g, &p.coeffs[4..8]));
    assert_eq!(c.unshifted[2], srs.g[0].mul(&f(9)));
    assert!(srs.commit(&poly(&[]), None).unshifted.is_empty());
    let d = c.duplicate();
    assert_eq!(d.unshifted, c.unshifted);
    // the commitment is linear
    let twice = PolyComm::multi_scalar_mul(&vec![&c, &c], &vec![f(3), f(4)]);
    assert_eq!(twice.unshifted, srs.commit(&p.scale(f(7)), None).unshifted);
    assert_eq!(twice.shifted, None);
    let short = srs.commit(&poly(&[1, 2]), Some(2));
    let mixed = PolyComm::multi_scalar_mul(&vec![&c, &short], &vec![f(1), f(2)]);
    assert_eq!(mixed.unshifted.len(), 3);
    assert_eq!(mixed.unshifted[1], c.unshifted[1]);
    assert_eq!(mixed.shifted, Some(short.shifted.unwrap().double()));
    let none: PolyComm<Vesta> = PolyComm::multi_scalar_mul(&vec![], &vec![]);
    assert!(none.unshifted.is_empty());
}

#[test]
fn the_group_map_lands_on_the_curve() {
    let m = BWParameters::<Fq>::setup(Vesta::coeff_b()).unwrap();
    assert_eq!(m.u, Fq::one());
    assert_eq!(m.fu, Fq::from_u64(6));
    assert_eq!(m.sqrt_neg_three_u_squared.square(), Fq::from_u64(3).neg());
    assert_eq!(m.inv_three_u_squared.mul(&Fq::from_u64(3)), Fq::one());
    for t in 0..20u64 {
        let (x, y) = m.to_group(Fq::from_u64(t)).unwrap();
        assert_eq!(y.square(), curve_eqn(&Fq::from_u64(5), &x));
        let (x1, x2, x3) = m.potential_xs(Fq::from_u64(t));
        assert!(x == x1 || x == x2 || x == x3);
    }
    let n = BWParameters::<Fp>::setup(Fp::from_u64(5)).unwrap();
    let (x, y) = n.to_group(Fp::from_u64(12345)).unwrap();
    assert_eq!(y.square(), x.square().mul(&x).add(&Fp::from_u64(5)));
}

#[test]
fn the_reference_string_is_derived_from_digests() {
    let a = SRS::<Vesta>::create(5).unwrap();
    let b = SRS::<Vesta>::create(9).unwrap();
    assert_eq!(a.max_degree(), 5);
    assert_eq!(a.g.len(), 5);
    // a longer string begins with the shorter one
    assert_eq!(a.g[..], b.g[..5]);
    assert_eq!(a.h, b.h);
    for p in a.g.iter() {
        assert!(!p.infinity);
        assert_eq!(p.y.square(), p.x.square().mul(&p.x).add(&Fq::from_u64(5)));
    }
    assert!(a.g[0] != a.g[1]);
    assert!(a.h != a.g[0]);
    let c = a.duplicate();
    assert_eq!(c.g, a.g);
    assert_eq!(c.endo_r, a.endo_r);
    assert_eq!(be_bytes(0x01020304), vec![1, 2, 3, 4]);
    // the first byte of the seed is the top byte, with its bits in reverse
    let mut bytes = [0u8; 31];
    bytes[30] = 0b1000_0000;
    assert_eq!(seed_element::<Fq>(&bytes), Fq::one());
    bytes[30] = 0b0000_0001;
    assert_eq!(seed_element::<Fq>(&bytes), Fq::from_u64(128));
    bytes[30] = 0;
    bytes[29] = 0b1000_0000;
    assert_eq!(seed_element::<Fq>(&bytes), Fq::from_u64(256));
    // the point that blinds comes from the seed that the digest of zero spells
    let m = BWParameters::<Fq>::setup(Vesta::coeff_b()).unwrap();
    let digest = <blake2::Blake2b512 as blake2::Digest>::digest([0u8, 0, 0, 0]);
    let (x, y) = m.to_group(seed_element::<Fq>(&digest)).unwrap();
    assert_eq!(a.h, Vesta::of_coordinates(x, y));
    let digest = <blake2::Blake2b512 as blake2::Digest>::digest([0u8, 0, 0, 3]);
    let (x, y) = m.to_group(seed_element::<Fq>(&digest)).unwrap();
    assert_eq!(a.g[2], Vesta::of_coordinates(x, y));
}

#[test]
fn numbers_in_eight_bytes() {
    assert_eq!(le_bytes(0x0102030405060708), vec![8, 7, 6, 5, 4, 3, 2, 1]);
    assert_eq!(le_bytes(5), vec![5, 0, 0, 0, 0, 0, 0, 0]);
    assert_eq!(le_value(&[8, 7, 6, 5, 4, 3, 2, 1]), 0x0102030405060708);
    assert_eq!(le_value(&[0xff; 8]), u64::MAX);
    assert_eq!(le_value(&[1, 0, 0, 0, 0, 0, 0, 0, 9, 9]), 1);
    let mut out = vec![1u8, 2];
    append_bytes(&mut out, &[3, 4, 5]);
    assert_eq!(out, vec![1, 2, 3, 4, 5]);
}

#[test]
fn a_point_in_bytes() {
    // the generator of Pallas is (-1, 2)
    let gen = Pallas::prime_subgroup_generator();
    let bytes = gen.to_bytes();
    assert_eq!(bytes.len(), POINT_BYTES);
    let minus_one: [u8; 32] = [
        0x00, 0x00, 0x00, 0x00, 0xed, 0x30, 0x2d, 0x99, 0x1b, 0xf9, 0x4c, 0x09, 0xfc, 0x98, 0x46,
        0x22, 0, 0, 0, 0, 0, 0, 0, 0, 0, 0, 0, 0, 0, 0, 0, 0x40,
    ];
    assert_eq!(bytes[..32], minus_one[..]);
    assert_eq!(bytes[32], 2);
    assert!(bytes[33..].iter().all(|b| *b == 0));
    assert_eq!(Pallas::from_bytes(&bytes), Some(gen));
    // the opposite point has the larger ordinate, which the last byte flags
    let opposite = Pallas::of_coordinates(gen.x, gen.y.neg());
    let other = opposite.to_bytes();
    assert_eq!(other[64], 0x80);
    assert_eq!(Pallas::from_bytes(&other), Some(opposite));
    // the point at infinity is the flag alone
    let zero = Pallas::zero().to_bytes();
    assert!(zero[..64].iter().all(|b| *b == 0));
    assert_eq!(zero[64], 0x40);
    assert!(Pallas::from_bytes(&zero).unwrap().is_zero());
    // (-1, 3) is not on the curve
    let mut off = bytes.clone();
    off[32] = 3;
    assert_eq!(Pallas::from_bytes(&off), None);
    // too few bytes
    assert_eq!(Pallas::from_bytes(&bytes[..64]), None);
    // an abscissa that is no less than the modulus
    let mut large = bytes.clone();
    large[31] = 0x7f;
    assert_eq!(Pallas::from_bytes(&large), None);
}

#[test]
fn the_reference_string_in_bytes() {
    let a = SRS::<Vesta>::create(6).unwrap();
    let mut bytes: Vec<u8> = vec![0xaa];
    a.write(&mut bytes);
    assert_eq!(bytes.len(), 1 + 8 + POINT_BYTES * 7);
    assert_eq!(bytes[0], 0xaa);
    assert_eq!(bytes[1..9], [6, 0, 0, 0, 0, 0, 0, 0]);
    assert_eq!(bytes[9..9 + POINT_BYTES], a.g[0].to_bytes()[..]);
    assert_eq!(bytes[9 + 6 * POINT_BYTES..], a.h.to_bytes()[..]);
    let b = SRS::<Vesta>::read(&bytes[1..]).unwrap();
    assert_eq!(b.g, a.g);
    assert_eq!(b.h, a.h);
    assert_eq!(b.endo_q, a.endo_q);
    assert_eq!(b.endo_r, a.endo_r);
    // what follows the string is not read
    let mut longer = bytes[1..].to_vec();
    longer.extend_from_slice(&[1, 2, 3]);
    let c = SRS::<Vesta>::read(&longer).unwrap();
    assert_eq!(c.g, a.g);
    assert_eq!(c.h, a.h);
    // a byte short
    assert!(SRS::<Vesta>::read(&bytes[1..bytes.len() - 1]).is_none());
    // less than a count
    assert!(SRS::<Vesta>::read(&bytes[1..8]).is_none());
    assert!(SRS::<Vesta>::read(&[]).is_none());
    // a count that the bytes do not hold
    let mut more = bytes[1..].to_vec();
    more[0] = 7;
    assert!(SRS::<Vesta>::read(&more).is_none());
    more[0] = 6;
    more[7] = 0xff;
    assert!(SRS::<Vesta>::read(&more).is_none());
    // a smaller count reads fewer points: the last one read is the one that blinds
    more[7] = 0;
    more[0] = 2;
    let d = SRS::<Vesta>::read(&more).unwrap();
    assert_eq!(d.g[..], a.g[..2]);
    assert_eq!(d.h, a.g[2]);
    // a point that is not on the curve
    let mut bad = bytes[1..].to_vec();
    bad[8 + POINT_BYTES + 32] ^= 1;
    assert!(SRS::<Vesta>::read(&bad).is_none());
    // an empty string still holds the point that blinds
    let mut small: Vec<u8> = vec![0; 8];
    small.extend_from_slice(&a.h.to_bytes());
    let e = SRS::<Vesta>::read(&small).unwrap();
    assert_eq!(e.g.len(), 0);
    assert_eq!(e.h, a.h);
}

#[test]
fn a_polynomial_is_put_together_from_its_chunks() {
    let c = poly(&[3, 1, 4, 1, 5, 9, 2, 6, 5, 3, 5]);
    let x = f(7);
    for size in [1usize, 2, 3, 4, 11, 12, 40] {
        let chunks = c.eval(x, size);
        assert_eq!(chunks.len(), (11 + size - 1) / size);
        assert_eq!(eval_polynomial(&chunks, x.pow(&[size as u64])), c.evaluate(x));
    }
    // 3 + x + 4 x^2 + x^3 at 2 in chunks of two: 3 + 2 and 4 + 2, then 5 + 6 * 4
    assert_eq!(poly(&[3, 1, 4, 1]).eval(f(2), 2), vec![f(5), f(6)]);
    assert_eq!(poly(&[3, 1, 4, 1]).evaluate(f(2)), f(29));
    assert!(poly(&[]).eval(x, 3).is_empty());
}

#[test]
fn what_the_last_byte_of_a_point_says() {
    let gen = Pallas::prime_subgroup_generator();
    let bytes = gen.to_bytes();
    assert_eq!(bytes[64], 0);
    // the flag of the ordinate is not read: the ordinate is there in full
    let mut flagged = bytes.clone();
    flagged[64] = 0x80;
    assert_eq!(Pallas::from_bytes(&flagged), Some(gen));
    // nor are the lower bits
    flagged[64] = 0x3f;
    assert_eq!(Pallas::from_bytes(&flagged), Some(gen));
    flagged[64] = 0xbf;
    assert_eq!(Pallas::from_bytes(&flagged), Some(gen));
    // both flags at once are refused
    flagged[64] = 0xc0;
    assert_eq!(Pallas::from_bytes(&flagged), None);
    flagged[64] = 0xff;
    assert_eq!(Pallas::from_bytes(&flagged), None);
    // with the flag of infinity the coordinates do not count, but for their size
    flagged[64] = 0x40;
    assert_eq!(Pallas::from_bytes(&flagged), Some(Pallas::zero()));
    flagged[64] = 0x7f;
    flagged[32] = 3;
    assert_eq!(Pallas::from_bytes(&flagged), Some(Pallas::zero()));
    flagged[63] = 0x7f;
    assert_eq!(Pallas::from_bytes(&flagged), None);
    flagged[63] = 0;
    flagged[31] = 0x40;
    flagged[0] = 1;
    assert_eq!(Pallas::from_bytes(&flagged), None);
    // what follows the point is not read
    let mut longer = bytes.clone();
    longer.extend_from_slice(&[9, 9, 9]);
    assert_eq!(Pallas::from_bytes(&longer), Some(gen));
    // a point at infinity with other coordinates is written with zeros
    let mut odd = Pallas::zero();
    odd.x = Fp::from_u64(7);
    assert_eq!(odd.to_bytes(), Pallas::zero().to_bytes());
    // on Vesta the generator is the same pair of numbers in the other field
    let v = Vesta::prime_subgroup_generator();
    let vb = v.to_bytes();
    assert_eq!(vb[..4], [0, 0, 0, 0]);
    assert_eq!(vb[4..8], [0x21, 0xeb, 0x46, 0x8c]);
    assert_eq!(vb[32], 2);
    assert_eq!(vb[64], 0);
    assert_eq!(Vesta::from_bytes(&vb), Some(v));
    let twice = v.double();
    assert_eq!(Vesta::from_bytes(&twice.to_bytes()), Some(twice));
    // the flag says whether the ordinate is the larger of the two
    let mut own = twice.y.into_repr();
    let mut other = twice.y.neg().into_repr();
    own.reverse();
    other.reverse();
    assert_eq!(twice.to_bytes()[64], if own > other { 0x80 } else { 0 });
    let opposite = Vesta::of_coordinates(twice.x, twice.y.neg());
    assert_eq!(opposite.to_bytes()[64], if own > other { 0 } else { 0x80 });
}
