use dlog_plonk::field::{LegendreSymbol, PrimeField};
use dlog_plonk::fp::Fp;
use dlog_plonk::fq::Fq;

const FP_MODULUS: [u64; 4] = [0x992d30ed00000001, 0x224698fc094cf91b, 0, 0x4000000000000000];
const FQ_MODULUS: [u64; 4] = [0x8c46eb2100000001, 0x224698fc0994a8dd, 0, 0x4000000000000000];

#[test]
fn fp_addition_wraps_at_the_modulus() {
    let minus_one = Fp::from_repr([0x992d30ed00000000, 0x224698fc094cf91b, 0, 0x4000000000000000]);
    assert_eq!(minus_one.add(&Fp::one()), Fp::zero());
    assert_eq!(minus_one.add(&Fp::from_u64(3)), Fp::from_u64(2));
    assert_eq!(Fp::from_u64(5).add(&Fp::from_u64(7)), Fp::from_u64(12));
}

#[test]
fn fq_addition_wraps_at_the_modulus() {
    let minus_one = Fq::from_repr([0x8c46eb2100000000, 0x224698fc0994a8dd, 0, 0x4000000000000000]);
    assert_eq!(minus_one.add(&Fq::one()), Fq::zero());
    assert_eq!(Fq::from_u64(5).add(&Fq::from_u64(7)), Fq::from_u64(12));
}

#[test]
fn subtraction_and_negation() {
    assert_eq!(Fp::from_u64(12).sub(&Fp::from_u64(7)), Fp::from_u64(5));
    assert_eq!(
        Fp::zero().sub(&Fp::one()).into_repr(),
        [0x992d30ed00000000, 0x224698fc094cf91b, 0, 0x4000000000000000]
    );
    assert_eq!(Fp::one().neg(), Fp::zero().sub(&Fp::one()));
    assert_eq!(Fp::zero().neg(), Fp::zero());
    assert_eq!(
        Fq::one().neg().into_repr(),
        [0x8c46eb2100000000, 0x224698fc0994a8dd, 0, 0x4000000000000000]
    );
    assert_eq!(Fq::from_u64(12).sub(&Fq::from_u64(7)), Fq::from_u64(5));
}

#[test]
fn multiplication_squares_and_doubles() {
    assert_eq!(Fp::from_u64(6).mul(&Fp::from_u64(7)), Fp::from_u64(42));
    assert_eq!(Fq::from_u64(6).mul(&Fq::from_u64(7)), Fq::from_u64(42));
    assert_eq!(Fp::from_u64(9).square(), Fp::from_u64(81));
    assert_eq!(Fp::from_u64(9).double(), Fp::from_u64(18));
    let big = Fp::from_u64(u64::MAX);
    assert_eq!(big.mul(&big).into_repr(), [1, 0xffff_ffff_ffff_fffe, 0, 0]);
    assert_eq!(Fp::one().neg().mul(&Fp::one().neg()), Fp::one());
}

#[test]
fn powers() {
    assert_eq!(Fp::from_u64(2).pow(&[10]), Fp::from_u64(1024));
    assert_eq!(Fq::from_u64(3).pow(&[4]), Fq::from_u64(81));
    assert_eq!(Fp::from_u64(7).pow(&[0]), Fp::one());
    assert_eq!(Fp::from_u64(2).pow(&[64]).into_repr(), [0, 1, 0, 0]);
    assert_eq!(Fp::from_u64(2).pow(&[0, 1]), Fp::from_u64(2).pow(&[64]).pow(&[1 << 58]));
    // Fermat: a^(p-1) = 1
    let p_minus_1 = [0x992d30ed00000000, 0x224698fc094cf91b, 0, 0x4000000000000000];
    assert_eq!(Fp::from_u64(12345).pow(&p_minus_1), Fp::one());
}

#[test]
fn inverses() {
    assert!(Fp::zero().inverse().is_none());
    assert!(Fq::zero().inverse().is_none());
    let a = Fp::from_u64(123456789);
    let inv = a.inverse().unwrap();
    assert_eq!(a.mul(&inv), Fp::one());
    let p_minus_2 = [0x992d30ecffffffff, 0x224698fc094cf91b, 0, 0x4000000000000000];
    assert_eq!(inv, a.pow(&p_minus_2));
    let b = Fq::from_u64(987654321);
    assert_eq!(b.mul(&b.inverse().unwrap()), Fq::one());
}

#[test]
fn batch_inversion_leaves_zeros() {
    let mut v = vec![Fp::from_u64(2), Fp::zero(), Fp::from_u64(5)];
    Fp::batch_inversion(&mut v);
    assert_eq!(v.len(), 3);
    assert_eq!(v[0], Fp::from_u64(2).inverse().unwrap());
    assert_eq!(v[1], Fp::zero());
    assert_eq!(v[2], Fp::from_u64(5).inverse().unwrap());
    let mut w = vec![Fq::from_u64(3), Fq::zero()];
    Fq::batch_inversion(&mut w);
    assert_eq!(w[0].mul(&Fq::from_u64(3)), Fq::one());
    assert_eq!(w[1], Fq::zero());
}

#[test]
fn legendre_symbols() {
    assert_eq!(Fp::zero().legendre(), LegendreSymbol::Zero);
    assert_eq!(Fp::from_u64(4).legendre(), LegendreSymbol::QuadraticResidue);
    assert_eq!(Fp::from_u64(5).legendre(), LegendreSymbol::QuadraticNonResidue);
    assert_eq!(Fp::nonresidue().legendre(), LegendreSymbol::QuadraticNonResidue);
    assert_eq!(Fq::zero().legendre(), LegendreSymbol::Zero);
    assert_eq!(Fq::from_u64(9).legendre(), LegendreSymbol::QuadraticResidue);
    assert_eq!(Fq::nonresidue().legendre(), LegendreSymbol::QuadraticNonResidue);
}

#[test]
fn square_roots() {
    assert_eq!(Fp::zero().sqrt(), Some(Fp::zero()));
    let r = Fp::from_u64(49).sqrt().unwrap();
    assert_eq!(r.square(), Fp::from_u64(49));
    assert!(r == Fp::from_u64(7) || r == Fp::from_u64(7).neg());
    assert!(Fp::from_u64(5).sqrt().is_none());
    let s = Fq::from_u64(121).sqrt().unwrap();
    assert_eq!(s.square(), Fq::from_u64(121));
    assert!(Fq::from_u64(7).sqrt().is_none());
}

#[test]
fn representation_round_trip() {
    let limbs = [1, 2, 3, 4];
    assert_eq!(Fp::from_repr(limbs).into_repr(), limbs);
    assert_eq!(Fq::from_repr(limbs).into_repr(), limbs);
    assert_eq!(Fp::from_u64(77).into_repr(), [77, 0, 0, 0]);
}

#[test]
fn representation_at_or_above_the_modulus_is_zero() {
    assert_eq!(Fp::from_repr(FP_MODULUS), Fp::zero());
    assert_eq!(Fq::from_repr(FQ_MODULUS), Fq::zero());
    assert_eq!(Fp::from_repr([u64::MAX; 4]), Fp::zero());
    // the modulus of Fp is below that of Fq
    assert_eq!(Fq::from_repr(FP_MODULUS).into_repr(), FP_MODULUS);
    assert_eq!(Fp::from_repr(FQ_MODULUS), Fp::zero());
    assert_eq!(Fp::modulus_repr(), FP_MODULUS);
    assert_eq!(Fq::modulus_repr(), FQ_MODULUS);
}

#[test]
fn equality_and_zero_tests() {
    assert!(Fp::from_u64(3).is_eq(&Fp::from_u64(3)));
    assert!(!Fp::from_u64(3).is_eq(&Fp::from_u64(4)));
    assert!(Fp::zero().is_zero());
    assert!(!Fp::one().is_zero());
    assert_eq!(Fp::size_in_bits(), 255);
    assert_eq!(Fp::multiplicative_generator(), Fp::from_u64(5));
}

#[test]
fn random_elements_differ() {
    let a = Fp::rand();
    let b = Fp::rand();
    let c = Fq::rand();
    let d = Fq::rand();
    assert!(a != b);
    assert!(c != d);
    assert_eq!(a.sub(&a), Fp::zero());
}

#[test]
fn random_elements_are_below_the_modulus() {
    for _ in 0..64 {
        // a representative at or above the modulus would be read back as zero
        let a = Fp::rand();
        let mut limbs = a.into_repr();
        assert_eq!(Fp::from_repr(limbs), a);
        limbs.reverse();
        let mut top = FP_MODULUS;
        top.reverse();
        assert!(limbs < top);
        let b = Fq::rand();
        let mut limbs = b.into_repr();
        assert_eq!(Fq::from_repr(limbs), b);
        limbs.reverse();
        let mut top = FQ_MODULUS;
        top.reverse();
        assert!(limbs < top);
    }
}
