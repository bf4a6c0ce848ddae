use dlog_plonk::curve::{msm, CommitmentCurve, Pallas, Vesta};
use dlog_plonk::field::PrimeField;
use dlog_plonk::fp::Fp;
use dlog_plonk::fq::Fq;
use dlog_plonk::shamir::{shamir_sum, shamir_window_table, window_shamir};

fn on_pallas(p: &Pallas) -> bool {
    p.infinity || p.y.square() == p.x.square().mul(&p.x).add(&Fp::from_u64(5))
}

fn on_vesta(p: &Vesta) -> bool {
    p.infinity || p.y.square() == p.x.square().mul(&p.x).add(&Fq::from_u64(5))
}

#[test]
fn generators_are_on_their_curves() {
    let g = Pallas::prime_subgroup_generator();
    assert_eq!(g.x, Fp::one().neg());
    assert_eq!(g.y, Fp::from_u64(2));
    assert!(on_pallas(&g));
    let h = Vesta::prime_subgroup_generator();
    assert!(on_vesta(&h));
    assert!(!h.is_zero());
}

#[test]
fn addition_and_doubling_agree_with_multiplication() {
    let g = Pallas::prime_subgroup_generator();
    let two_g = g.add(&g);
    assert!(on_pallas(&two_g));
    assert!(two_g != g);
    assert_eq!(g.double(), two_g);
    assert_eq!(g.mul(&Fq::from_u64(2)), two_g);
    assert_eq!(g.mul(&Fq::from_u64(3)), two_g.add(&g));
    assert_eq!(g.mul(&Fq::zero()), Pallas::zero());
    assert_eq!(g.add(&Pallas::zero()), g);
    let h = Vesta::prime_subgroup_generator();
    assert_eq!(h.mul(&Fp::from_u64(5)), h.double().double().add(&h));
    assert!(on_vesta(&h.mul(&Fp::from_u64(5))));
}

#[test]
fn a_point_and_its_negative_sum_to_infinity() {
    let g = Vesta::prime_subgroup_generator();
    let minus_g = Vesta::of_coordinates(g.x, g.y.neg());
    let sum = g.add(&minus_g);
    assert!(sum.is_zero());
    assert_eq!(sum, Vesta::zero());
    assert_eq!(g.mul(&Fp::one().neg()), minus_g);
}

#[test]
fn multi_scalar_multiplication() {
    let g = Vesta::prime_subgroup_generator();
    let g2 = g.double();
    let g3 = g2.add(&g);
    let r: Vesta = msm(&[g, g2, g3], &[Fp::from_u64(1), Fp::from_u64(2), Fp::from_u64(3)]);
    assert_eq!(r, g.mul(&Fp::from_u64(14)));
    // the longer list is cut to the shorter one
    let cut: Vesta = msm(&[g, g2, g3], &[Fp::from_u64(1), Fp::from_u64(2)]);
    assert_eq!(cut, g.mul(&Fp::from_u64(5)));
    let none: Vesta = msm(&[], &[]);
    assert!(none.is_zero());
    let p = Pallas::prime_subgroup_generator();
    let q: Pallas = msm(&[p, p], &[Fq::from_u64(4), Fq::from_u64(6)]);
    assert_eq!(q, p.mul(&Fq::from_u64(10)));
}

#[test]
fn coordinates() {
    let g = Pallas::prime_subgroup_generator();
    assert_eq!(g.to_coordinates(), Some((g.x, g.y)));
    assert_eq!(Pallas::zero().to_coordinates(), None);
    let p = Pallas::of_coordinates(Fp::from_u64(1), Fp::from_u64(2));
    assert!(!p.infinity);
    assert!(p.is_eq(&p));
    assert!(!p.is_eq(&g));
    assert_eq!(Pallas::coeff_b(), Fp::from_u64(5));
}

#[test]
fn window_table_holds_the_sixteen_sums() {
    let g = Vesta::prime_subgroup_generator();
    let g1 = g.mul(&Fp::from_u64(11));
    let g2 = g.mul(&Fp::from_u64(1000));
    let table = shamir_window_table(g1, g2);
    assert_eq!(table[0], g);
    for w2 in 0..4u64 {
        for w1 in 0..4u64 {
            if w1 + w2 > 0 {
                let want = g.mul(&Fp::from_u64(11 * w1 + 1000 * w2));
                assert_eq!(table[(w1 + 4 * w2) as usize], want);
            }
        }
    }
}

#[test]
fn shamir_small_scalars() {
    let g = Vesta::prime_subgroup_generator();
    let g1 = g.mul(&Fp::from_u64(3));
    let g2 = g.mul(&Fp::from_u64(5));
    let want = g.mul(&Fp::from_u64(3 * 7 + 5 * 9));
    assert_eq!(window_shamir(Fp::from_u64(7), g1, Fp::from_u64(9), g2), want);
    assert_eq!(shamir_sum(Fp::from_u64(7), g1, Fp::from_u64(9), g2), want);
    assert!(window_shamir(Fp::zero(), g1, Fp::zero(), g2).is_zero());
    assert!(shamir_sum(Fp::zero(), g1, Fp::zero(), g2).is_zero());
}

#[test]
fn shamir_equivalence_on_random_inputs() {
    let g = Vesta::prime_subgroup_generator();
    for _ in 0..10 {
        let x1 = Fp::rand();
        let x2 = Fp::rand();
        let g1 = g.mul(&Fp::rand());
        let g2 = g.mul(&Fp::rand());
        let a = window_shamir(x1, g1, x2, g2);
        let b = shamir_sum(x1, g1, x2, g2);
        assert_eq!(a, b);
        assert_eq!(a, g1.mul(&x1).add(&g2.mul(&x2)));
    }
}

#[test]
fn shamir_equivalence_on_pallas() {
    let g = Pallas::prime_subgroup_generator();
    let x1 = Fq::rand();
    let x2 = Fq::rand();
    let g1 = g.mul(&Fq::from_u64(17));
    let g2 = g.mul(&Fq::from_u64(19));
    assert_eq!(window_shamir(x1, g1, x2, g2), shamir_sum(x1, g1, x2, g2));
}
