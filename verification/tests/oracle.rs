use dlog_plonk::curve::{CommitmentCurve, Pallas, Vesta};
use dlog_plonk::error::ProofError;
use dlog_plonk::field::PrimeField;
use dlog_plonk::fp::Fp;
use dlog_plonk::fq::Fq;
use dlog_plonk::poseidon::{
    sbox, ArithmeticSponge, ArithmeticSpongeParams, Sponge, SpongeState, ROUNDS_FULL,
    SPONGE_BOX, SPONGE_CAPACITY, SPONGE_RATE, SPONGE_WIDTH,
};
use dlog_plonk::sponge::{
    endo_coefficient, get_bit, limbs_lt, pack, take_limbs, DefaultFqSponge, DefaultFrSponge,
    ScalarChallenge, CHALLENGE_LENGTH_IN_LIMBS, DIGEST_LENGTH_IN_LIMBS,
};
use dlog_plonk::srs::endos;

fn params<F: PrimeField>() -> ArithmeticSpongeParams<F> {
    let mut c = F::from_u64(3);
    let mut round_constants = Vec::new();
    for _ in 0..ROUNDS_FULL {
        let mut row = Vec::new();
        for _ in 0..3 {
            c = c.mul(&c).add(&F::from_u64(7));
            row.push(c);
        }
        round_constants.push(row);
    }
    let mut mds = Vec::new();
    for i in 0..3u64 {
        let mut row = Vec::new();
        for j in 0..3u64 {
            row.push(F::from_u64(i + j + 1).inverse().unwrap());
        }
        mds.push(row);
    }
    ArithmeticSpongeParams { round_constants, mds }
}

// Parameters with the identity matrix and small constants, with which a round can be
// followed by hand.
fn plain_params() -> ArithmeticSpongeParams<Fp> {
    let round_constants =
        (0..ROUNDS_FULL as u64).map(|r| (0..3u64).map(|k| Fp::from_u64(10 * r + k)).collect()).collect();
    let mds = (0..3)
        .map(|i| (0..3).map(|j| if i == j { Fp::one() } else { Fp::zero() }).collect())
        .collect();
    ArithmeticSpongeParams { round_constants, mds }
}

#[test]
fn constants_of_the_permutation() {
    assert_eq!(ROUNDS_FULL, 63);
    assert_eq!(SPONGE_CAPACITY, 1);
    assert_eq!(SPONGE_RATE, 2);
    assert_eq!(SPONGE_BOX, 5);
    assert_eq!(SPONGE_WIDTH, 3);
    assert_eq!(CHALLENGE_LENGTH_IN_LIMBS, 2);
    assert_eq!(DIGEST_LENGTH_IN_LIMBS, 4);
}

#[test]
fn sbox_is_the_fifth_power() {
    assert_eq!(sbox(Fp::from_u64(2)), Fp::from_u64(32));
    assert_eq!(sbox(Fp::from_u64(3)), Fp::from_u64(243));
    assert_eq!(sbox(Fp::zero()), Fp::zero());
    assert_eq!(sbox(Fp::one().neg()), Fp::one().neg());
}

#[test]
fn a_full_round_by_hand() {
    let p = plain_params();
    assert!(p.check());
    let mut sponge = ArithmeticSponge::<Fp>::new();
    sponge.state = vec![Fp::from_u64(1), Fp::from_u64(2), Fp::from_u64(3)];
    sponge.full_round(4, &p);
    // x^5 + rc with the identity matrix
    assert_eq!(sponge.state, vec![Fp::from_u64(41), Fp::from_u64(73), Fp::from_u64(285)]);
}

#[test]
fn a_full_round_with_a_matrix() {
    let mut p = plain_params();
    p.mds = vec![
        vec![Fp::from_u64(1), Fp::from_u64(2), Fp::from_u64(3)],
        vec![Fp::from_u64(4), Fp::from_u64(5), Fp::from_u64(6)],
        vec![Fp::from_u64(7), Fp::from_u64(8), Fp::from_u64(9)],
    ];
    let mut sponge = ArithmeticSponge::<Fp>::new();
    sponge.state = vec![Fp::from_u64(1), Fp::from_u64(2), Fp::from_u64(1)];
    sponge.full_round(0, &p);
    // the fifth powers are 1, 32, 1
    assert_eq!(
        sponge.state,
        vec![Fp::from_u64(68), Fp::from_u64(4 + 160 + 6 + 1), Fp::from_u64(7 + 256 + 9 + 2)]
    );
}

#[test]
fn parameters_of_the_wrong_shape_are_recognised() {
    let mut p = params::<Fp>();
    assert!(p.check());
    p.mds[1].pop();
    assert!(!p.check());
    let mut p = params::<Fp>();
    p.round_constants.pop();
    assert!(!p.check());
    let mut p = params::<Fp>();
    p.round_constants[7].push(Fp::one());
    assert!(!p.check());
    let q = params::<Fq>().duplicate();
    assert!(q.check());
    assert_eq!(q.mds[2][2], Fq::from_u64(5).inverse().unwrap());
}

#[test]
fn a_new_sponge_is_empty() {
    let s = ArithmeticSponge::<Fp>::new();
    assert_eq!(s.state, vec![Fp::zero(); 3]);
    assert_eq!(s.rate, 2);
    assert_eq!(s.sponge_state, SpongeState::Absorbed(0));
}

#[test]
fn absorbing_fills_the_rate_and_then_permutes() {
    let p = plain_params();
    let mut s = ArithmeticSponge::<Fp>::new();
    s.absorb(&p, &[Fp::from_u64(5)]);
    assert_eq!(s.sponge_state, SpongeState::Absorbed(1));
    assert_eq!(s.state, vec![Fp::from_u64(5), Fp::zero(), Fp::zero()]);
    s.absorb(&p, &[Fp::from_u64(6)]);
    assert_eq!(s.sponge_state, SpongeState::Absorbed(2));
    assert_eq!(s.state, vec![Fp::from_u64(5), Fp::from_u64(6), Fp::zero()]);

    // the third element finds the rate full: the state is permuted first
    let mut permuted = s.duplicate();
    for r in 0..ROUNDS_FULL {
        permuted.full_round(r, &p);
    }
    s.absorb(&p, &[Fp::from_u64(7)]);
    assert_eq!(s.sponge_state, SpongeState::Absorbed(1));
    assert_eq!(s.state[0], permuted.state[0].add(&Fp::from_u64(7)));
    assert_eq!(s.state[1], permuted.state[1]);
    assert_eq!(s.state[2], permuted.state[2]);
}

#[test]
fn absorbing_a_list_is_absorbing_its_elements() {
    let p = params::<Fp>();
    let xs = [Fp::from_u64(1), Fp::from_u64(2), Fp::from_u64(3), Fp::from_u64(4)];
    let mut a = ArithmeticSponge::<Fp>::new();
    a.absorb(&p, &xs);
    let mut b = ArithmeticSponge::<Fp>::new();
    for x in xs.iter() {
        b.absorb_one(&p, x);
    }
    assert_eq!(a.state, b.state);
    assert_eq!(a.sponge_state, b.sponge_state);
}

#[test]
fn squeezing_goes_through_the_rate() {
    let p = plain_params();
    let mut s = ArithmeticSponge::<Fp>::new();
    s.absorb(&p, &[Fp::from_u64(9)]);
    let mut permuted = s.duplicate();
    for r in 0..ROUNDS_FULL {
        permuted.full_round(r, &p);
    }
    let first = s.squeeze(&p);
    assert_eq!(s.sponge_state, SpongeState::Squeezed(1));
    assert_eq!(first, permuted.state[0]);
    let second = s.squeeze(&p);
    assert_eq!(s.sponge_state, SpongeState::Squeezed(2));
    assert_eq!(second, permuted.state[1]);
    // the rate is used up: the third squeeze permutes again
    for r in 0..ROUNDS_FULL {
        permuted.full_round(r, &p);
    }
    let third = s.squeeze(&p);
    assert_eq!(s.sponge_state, SpongeState::Squeezed(1));
    assert_eq!(third, permuted.state[0]);
    // absorbing after squeezing goes to the first position without a permutation
    s.absorb(&p, &[Fp::from_u64(1)]);
    assert_eq!(s.sponge_state, SpongeState::Absorbed(1));
    assert_eq!(s.state[0], permuted.state[0].add(&Fp::one()));
}

#[test]
fn bits_of_limbs() {
    let limbs = [0b1010u64, 1u64 << 63, 0, 5];
    assert_eq!(get_bit(&limbs, 0), 0);
    assert_eq!(get_bit(&limbs, 1), 1);
    assert_eq!(get_bit(&limbs, 3), 1);
    assert_eq!(get_bit(&limbs, 4), 0);
    assert_eq!(get_bit(&limbs, 127), 1);
    assert_eq!(get_bit(&limbs, 126), 0);
    assert_eq!(get_bit(&limbs, 192), 1);
    assert_eq!(get_bit(&limbs, 193), 0);
    assert_eq!(get_bit(&limbs, 194), 1);
}

#[test]
fn packing_limbs() {
    assert_eq!(pack(&[1, 2]), [1, 2, 0, 0]);
    assert_eq!(pack(&[]), [0, 0, 0, 0]);
    assert_eq!(pack(&[1, 2, 3, 4]), [1, 2, 3, 4]);
    assert_eq!(pack(&[1, 2, 3, 4, 5]), [1, 2, 3, 4]);
    let mut v = vec![1u64, 2, 3];
    assert_eq!(take_limbs(&mut v, 2), vec![1, 2]);
    assert_eq!(v, vec![3]);
    assert!(limbs_lt(&[0, 0, 0, 1], &[0, 0, 0, 2]));
    assert!(limbs_lt(&[9, 0, 0, 1], &[0, 1, 0, 1]));
    assert!(!limbs_lt(&[1, 2, 3, 4], &[1, 2, 3, 4]));
}

#[test]
fn scalar_challenge_known_values() {
    let endo: Fp = endo_coefficient();
    assert_eq!(
        endo.into_repr(),
        [0x7b7fd22f0201b547, 0x5270d29d19fc7d2, 0xd3552a23a8554e50, 0x2d33357cb532458e]
    );
    let value = |limbs: [u64; 4]| ScalarChallenge(Fp::from_repr(limbs)).to_field(&endo).into_repr();
    assert_eq!(
        value([0, 0, 0, 0]),
        [0xdaff0adc566dd38b, 0xdd89253d8e1b956d, 0xd9e3f962e375147b, 0x26aa544750aa9c9f]
    );
    assert_eq!(
        value([1, 0, 0, 0]),
        [0xdaff0adc566dd38d, 0xdd89253d8e1b956d, 0xd9e3f962e375147b, 0x26aa544750aa9c9f]
    );
    assert_eq!(
        value([2, 0, 0, 0]),
        [0xf8ac699a546c1e46, 0xfaa8b10fc5c8c6b6, 0x68ecf3f3b1fc62b, 0x39771eca9b785711]
    );
    assert_eq!(
        value([3, 0, 0, 0]),
        [0xbd51ac1e586f88d2, 0xc069996b566e6424, 0xad3923868bca62cb, 0x13dd89c405dce22e]
    );
    assert_eq!(
        value([0xfedcba9876543210, 0x123456789abcdef0, 0, 0]),
        [0xc14ab4d3d97bee9c, 0x7b864457ddaf8188, 0xf62ad48b2e8b8a21, 0x25b7ba5ec7c9ecac]
    );
    // only the low 128 bits count
    assert_eq!(value([3, 0, 7, 1]), value([3, 0, 0, 0]));
}

#[test]
fn scalar_challenge_without_the_endomorphism() {
    let zero = Fp::zero();
    let value = |limbs: [u64; 4]| ScalarChallenge(Fp::from_repr(limbs)).to_field(&zero).into_repr();
    // every step doubles b and takes one off: 2 * 2^64 - (2^64 - 1)
    assert_eq!(value([0, 0, 0, 0]), [1, 1, 0, 0]);
    assert_eq!(value([3, 0, 0, 0]), [2, 1, 0, 0]);
    assert_eq!(value([u64::MAX, u64::MAX, 0, 0]), [0, 2, 0, 0]);
}

#[test]
fn scalar_challenge_acts_as_the_double_and_add() {
    // the scalar a * endo + b acts on a point as a times the endomorphism plus b
    let (endo_q, endo_r) = endos::<Vesta>();
    let g = Vesta::prime_subgroup_generator();
    let phi = Vesta::of_coordinates(g.x.mul(&endo_q), g.y);
    assert_eq!(g.mul(&endo_r), phi);
    let chal = ScalarChallenge(Fp::from_repr([0x0123456789abcdef, 0xfedcba9876543210, 0, 0]));
    let scalar = chal.to_field(&endo_r);
    let rep = chal.0.into_repr();
    let mut acc = phi.add(&g).double();
    for i in (0..64).rev() {
        acc = acc.double();
        let base = if get_bit(&rep, 2 * i + 1) == 0 { g } else { phi };
        let term = if get_bit(&rep, 2 * i) == 0 {
            Vesta::of_coordinates(base.x, base.y.neg())
        } else {
            base
        };
        acc = acc.add(&term);
    }
    assert_eq!(g.mul(&scalar), acc);
}

#[test]
fn endomorphism_coefficients() {
    let e: Fq = endo_coefficient();
    assert_eq!(
        e.into_repr(),
        [0x2aa9d2e050aa0e4f, 0xfed467d47c033af, 0x511db4d81cf70f5a, 0x6819a58283e528e]
    );
    assert_eq!(e.mul(&e).mul(&e), Fq::one());
    assert!(e != Fq::one());
    let (endo_q, endo_r) = endos::<Pallas>();
    assert_eq!(endo_q.mul(&endo_q).mul(&endo_q), Fp::one());
    assert_eq!(endo_r.mul(&endo_r).mul(&endo_r), Fq::one());
    let g = Pallas::prime_subgroup_generator();
    assert_eq!(g.mul(&endo_r), Pallas::of_coordinates(g.x.mul(&endo_q), g.y));
}

#[test]
fn the_transcript_is_deterministic_and_forks() {
    let mut a = DefaultFqSponge::<Vesta>::new(params::<Fq>());
    let g = Vesta::prime_subgroup_generator();
    assert_eq!(a.absorb_g(&[g, g.double()]), Ok(()));
    a.absorb_fr(&Fp::from_u64(77));
    let mut b = a.duplicate();
    let c1 = a.challenge();
    let c2 = b.challenge();
    assert_eq!(c1, c2);
    // a short challenge has two limbs
    assert_eq!(c1.into_repr()[2], 0);
    assert_eq!(c1.into_repr()[3], 0);
    assert!(c1 != Fp::zero());
    // the second challenge comes from the limbs that were left over
    assert_eq!(a.last_squeezed.len(), 2);
    let d1 = a.challenge();
    assert!(d1 != c1);
    assert_eq!(a.last_squeezed.len(), 0);
    assert_eq!(b.challenge_fq().into_repr(), d1.into_repr());
    // absorbing drops what was left over
    let _ = a.challenge();
    assert_eq!(a.last_squeezed.len(), 2);
    a.absorb_fr(&Fp::one());
    assert_eq!(a.last_squeezed.len(), 0);
}

#[test]
fn the_transcript_refuses_the_point_at_infinity() {
    let mut a = DefaultFqSponge::<Vesta>::new(params::<Fq>());
    let g = Vesta::prime_subgroup_generator();
    let before = a.duplicate();
    assert_eq!(a.absorb_g(&[g, Vesta::zero()]), Err(ProofError::OracleCommit));
    assert_eq!(a.sponge.state, before.sponge.state);
}

#[test]
fn absorbing_points_is_absorbing_their_coordinates() {
    let g = Vesta::prime_subgroup_generator().double();
    let mut a = DefaultFqSponge::<Vesta>::new(params::<Fq>());
    a.absorb_g(&[g]).unwrap();
    let mut s = ArithmeticSponge::<Fq>::new();
    s.absorb(&params::<Fq>(), &[g.x, g.y]);
    assert_eq!(a.sponge.state, s.state);
    assert_eq!(a.squeeze_limbs(3).len(), 3);
    assert_eq!(a.last_squeezed.len(), 1);
}

#[test]
fn a_scalar_goes_in_whole_or_in_two_parts() {
    // the scalar field of Vesta is the smaller field: one element
    let x = Fp::from_repr([1, 2, 3, 0x3000000000000000]);
    let mut a = DefaultFqSponge::<Vesta>::new(params::<Fq>());
    a.absorb_fr(&x);
    let mut s = ArithmeticSponge::<Fq>::new();
    s.absorb(&params::<Fq>(), &[Fq::from_repr(x.into_repr())]);
    assert_eq!(a.sponge.state, s.state);
    // the scalar field of Pallas is the larger field: low bits and high bit
    let y = Fq::one().neg();
    let mut b = DefaultFqSponge::<Pallas>::new(params::<Fp>());
    b.absorb_fr(&y);
    let mut t = ArithmeticSponge::<Fp>::new();
    let mut low = y.into_repr();
    low[3] &= 0x3fff_ffff_ffff_ffff;
    t.absorb(&params::<Fp>(), &[Fp::from_repr(low), Fp::one()]);
    assert_eq!(b.sponge.state, t.state);
}

#[test]
fn the_digest_has_four_limbs_or_is_zero() {
    let mut a = DefaultFqSponge::<Vesta>::new(params::<Fq>());
    a.absorb_fr(&Fp::from_u64(3));
    let mut b = a.duplicate();
    let limbs = b.squeeze_limbs(4);
    let d = a.digest();
    assert_eq!(d, Fp::from_repr([limbs[0], limbs[1], limbs[2], limbs[3]]));
}

#[test]
fn the_sponge_over_the_scalar_field() {
    let mut a = DefaultFrSponge::<Fp>::new(params::<Fp>());
    a.absorb(&Fp::from_u64(12));
    let mut s = ArithmeticSponge::<Fp>::new();
    s.absorb(&params::<Fp>(), &[Fp::from_u64(12)]);
    assert_eq!(a.sponge.state, s.state);
    let x = s.squeeze(&params::<Fp>()).into_repr();
    let c = a.challenge();
    assert_eq!(c.0.into_repr(), [x[0], x[1], 0, 0]);
    assert_eq!(a.squeeze(2).into_repr(), [x[2], x[3], 0, 0]);
    a.absorb_list(&vec![]);
    assert_eq!(a.last_squeezed.len(), 0);
}

#[test]
fn a_round_with_one_row_of_constants() {
    let f = Fp::from_u64;
    let p = ArithmeticSpongeParams {
        round_constants: vec![vec![f(1), f(1), f(1)]],
        mds: vec![vec![f(1), f(1), f(0)], vec![f(0), f(1), f(0)], vec![f(0), f(0), f(1)]],
    };
    // too few rows for the permutation, enough for the one round
    assert!(!p.check());
    let mut sponge = ArithmeticSponge::<Fp>::new();
    sponge.state = vec![f(1), f(2), f(0)];
    sponge.full_round(0, &p);
    // the fifth powers 1, 32, 0; the matrix by rows; the constants
    assert_eq!(sponge.state, vec![f(34), f(33), f(1)]);
}

#[test]
fn a_refused_point_leaves_the_transcript_as_it_was() {
    let g = Vesta::prime_subgroup_generator();
    let mut a = DefaultFqSponge::<Vesta>::new(params::<Fq>());
    a.absorb_g(&[g.double()]).unwrap();
    let _ = a.squeeze_limbs(1);
    let mut untouched = a.duplicate();
    assert_eq!(a.absorb_g(&[g, Vesta::zero(), g]), Err(ProofError::OracleCommit));
    assert_eq!(a.sponge.state, untouched.sponge.state);
    assert_eq!(a.last_squeezed, untouched.last_squeezed);
    assert_eq!(a.challenge(), untouched.challenge());
}
