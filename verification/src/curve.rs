//! The curves that commitments live on: Pallas and Vesta, each other's mirror.
//!
//! A point is held in affine form, by the values of its coordinates. The group law
//! itself is computed by `ark-ec`, through the private functions at the end of the
//! file. Their results are functions of their arguments alone, and the contracts of
//! this crate refer to them by name: [`pallas_add`], [`pallas_mul`], [`pallas_msm`]
//! and the same three for Vesta.

use crate::arith::{fadd, fmul, fneg};
use crate::field::{vals, PrimeField};
use crate::fp::{fp_modulus, Fp};
use crate::fq::{fq_modulus, Fq};
use vstd::prelude::*;

verus! {

/// A curve in short Weierstrass form `y^2 = x^3 + b` whose points carry commitments.
///
/// A point is seen by contracts as the triple of its two coordinates and the flag of
/// the point at infinity.
pub trait CommitmentCurve: Sized + Copy {
    type BaseField: PrimeField;

    type ScalarField: PrimeField;

    /// The coordinates of the point and whether it is the point at infinity.
    spec fn model(&self) -> (nat, nat, bool);

    /// The sum of two points.
    spec fn add_spec(a: (nat, nat, bool), b: (nat, nat, bool)) -> (nat, nat, bool);

    /// The point `a` taken `k` times.
    spec fn mul_spec(a: (nat, nat, bool), k: nat) -> (nat, nat, bool);

    /// The sum of the points, each taken as many times as its scalar says. Points or
    /// scalars beyond the shorter of the two sequences do not count.
    spec fn msm_spec(points: Seq<(nat, nat, bool)>, scalars: Seq<nat>) -> (nat, nat, bool);

    fn of_coordinates(x: Self::BaseField, y: Self::BaseField) -> (r: Self)
        ensures
            r.model() == (x.val(), y.val(), false),
    ;

    /// The coordinates of a point that is not the point at infinity.
    fn to_coordinates(&self) -> (r: Option<(Self::BaseField, Self::BaseField)>)
        ensures
            r is None <==> self.model().2,
            r matches Some(c) ==> c.0.val() == self.model().0 && c.1.val() == self.model().1,
    ;

    /// The point at infinity.
    fn zero() -> (r: Self)
        ensures
            r.model() == (0nat, 0nat, true),
    ;

    fn is_zero(&self) -> (b: bool)
        ensures
            b == self.model().2,
    ;

    fn is_eq(&self, other: &Self) -> (b: bool)
        ensures
            b == (self.model() == other.model()),
    ;

    /// The generator `(-1, 2)` of the group.
    fn prime_subgroup_generator() -> (r: Self)
        ensures
            r.model() == (fneg(Self::BaseField::modulus(), 1), 2nat, false),
    ;

    /// The coefficient `b` of the curve equation.
    fn coeff_b() -> (r: Self::BaseField)
        ensures
            r.val() == 5,
    ;

    fn add(&self, other: &Self) -> (r: Self)
        ensures
            r.model() == Self::add_spec(self.model(), other.model()),
    ;

    fn double(&self) -> (r: Self)
        ensures
            r.model() == Self::add_spec(self.model(), self.model()),
    ;

    fn mul(&self, k: &Self::ScalarField) -> (r: Self)
        ensures
            r.model() == Self::mul_spec(self.model(), k.val()),
    ;

    fn multi_scalar_mul(points: &[Self], scalars: &[Self::ScalarField]) -> (r: Self)
        ensures
            r.model() == Self::msm_spec(
                Seq::new(points@.len(), |i: int| points@[i].model()),
                vals(scalars@),
            ),
            r.model() == Self::msm_spec(
                Seq::new(shorter(points@.len(), scalars@.len()), |i: int| points@[i].model()),
                Seq::new(shorter(points@.len(), scalars@.len()), |i: int| scalars@[i].val()),
            ),
    ;

    /// The point in the uncompressed form of the curve library: `POINT_BYTES` bytes.
    fn to_bytes(&self) -> (r: Vec<u8>)
        ensures
            r@ == point_encoding(Self::BaseField::modulus(), self.model()),
    ;

    /// The point that the bytes begin with in the uncompressed form of the curve
    /// library, where they begin with a point of the curve.
    fn from_bytes(bytes: &[u8]) -> (r: Option<Self>)
        ensures
            match r {
                Some(pt) => point_decoding(Self::BaseField::modulus(), 5, bytes@) == Some(
                    pt.model(),
                ),
                None => point_decoding(Self::BaseField::modulus(), 5, bytes@) is None,
            },
    ;
}

/// The number of bytes of a point in uncompressed form: 32 for the abscissa, 32 for
/// the ordinate, and one for the flags.
pub const POINT_BYTES: usize = 65;

/// The `n` bytes of a number, least significant first.
pub open spec fn le_digits(v: nat, n: nat) -> Seq<u8>
    decreases n,
{
    if n == 0 {
        Seq::empty()
    } else {
        seq![(v % 256) as u8] + le_digits(v / 256, (n - 1) as nat)
    }
}

/// The number that bytes spell, least significant first.
pub open spec fn le_number(bytes: Seq<u8>) -> nat
    decreases bytes.len(),
{
    if bytes.len() == 0 {
        0
    } else {
        bytes[0] as nat + 256 * le_number(bytes.skip(1))
    }
}

/// The flags in the last byte of a point: `0x40` for the point at infinity, and else
/// `0x80` where the ordinate is larger than its negative.
pub open spec fn point_flags(p: nat, a: (nat, nat, bool)) -> u8 {
    if a.2 {
        0x40
    } else if a.1 > fneg(p, a.1) {
        0x80
    } else {
        0
    }
}

/// The uncompressed form of a point over the field of modulus `p`: the abscissa and
/// the ordinate in 32 bytes each, least significant first, and the flags. The point
/// at infinity has zeros for its coordinates.
pub open spec fn point_encoding(p: nat, a: (nat, nat, bool)) -> Seq<u8> {
    if a.2 {
        le_digits(0, 32) + le_digits(0, 32) + seq![point_flags(p, a)]
    } else {
        le_digits(a.0, 32) + le_digits(a.1, 32) + seq![point_flags(p, a)]
    }
}

/// The point that bytes begin with in uncompressed form, on the curve
/// `y^2 = x^3 + b` over the field of modulus `p`. There is none where the bytes are
/// fewer than `POINT_BYTES`, where a coordinate is not below the modulus, or where
/// both flags are set. With the flag of infinity the point is the one at infinity,
/// whatever the coordinates; otherwise it must be on the curve. The flag of the
/// ordinate and the lower bits of the last byte are not read.
pub open spec fn point_decoding(p: nat, b: nat, bytes: Seq<u8>) -> Option<(nat, nat, bool)> {
    if bytes.len() < POINT_BYTES {
        None
    } else {
        let x = le_number(bytes.subrange(0, 32));
        let y = le_number(bytes.subrange(32, 64));
        let flags = bytes[64];
        if x >= p || y >= p || flags >= 0xc0 {
            None
        } else if 0x40 <= flags < 0x80 {
            Some((0nat, 0nat, true))
        } else if fmul(p, y, y) == fadd(p, fmul(p, fmul(p, x, x), x), b) {
            Some((x, y, false))
        } else {
            None
        }
    }
}

/// The shorter of two lengths.
pub open spec fn shorter(a: nat, b: nat) -> nat {
    if a <= b {
        a
    } else {
        b
    }
}

/// The multi-scalar multiplication of the curve, over the shorter of the two lengths:
/// what lies beyond it in the longer sequence does not count.
pub fn msm<G: CommitmentCurve>(points: &[G], scalars: &[G::ScalarField]) -> (r: G)
    ensures
        r.model() == G::msm_spec(models(points@), vals(scalars@)),
        r.model() == G::msm_spec(
            models(points@).take(shorter(points@.len(), scalars@.len()) as int),
            vals(scalars@).take(shorter(points@.len(), scalars@.len()) as int),
        ),
{
    let ghost k = shorter(points@.len(), scalars@.len());
    assert(models(points@) =~= Seq::new(points@.len(), |i: int| points@[i].model()));
    assert(models(points@).take(k as int) =~= Seq::new(k, |i: int| points@[i].model()));
    assert(vals(scalars@).take(k as int) =~= Seq::new(k, |i: int| scalars@[i].val()));
    G::multi_scalar_mul(points, scalars)
}

/// The models of a sequence of points.
pub open spec fn models<G: CommitmentCurve>(s: Seq<G>) -> Seq<(nat, nat, bool)> {
    Seq::new(s.len(), |i: int| s[i].model())
}

/// The affine sum that `ark-ec` computes of two points of Pallas given by their
/// coordinates.
pub uninterp spec fn pallas_add(a: (nat, nat, bool), b: (nat, nat, bool)) -> (nat, nat, bool);

/// The affine point that `ark-ec` computes as `k` times a point of Pallas.
pub uninterp spec fn pallas_mul(a: (nat, nat, bool), k: nat) -> (nat, nat, bool);

/// The affine point that the multi-scalar multiplication of `ark-ec` computes from
/// points of Pallas and scalars.
pub uninterp spec fn pallas_msm(points: Seq<(nat, nat, bool)>, scalars: Seq<nat>) -> (
    nat,
    nat,
    bool,
);

/// The coordinates and flags of a sequence of points of Pallas.
pub open spec fn pallas_points(s: Seq<Pallas>) -> Seq<(nat, nat, bool)> {
    Seq::new(s.len(), |i: int| (s[i].x.val(), s[i].y.val(), s[i].infinity))
}

/// A point of Pallas in affine form.
#[derive(Clone, Copy, Debug, PartialEq, Eq)]
pub struct Pallas {
    pub x: Fp,
    pub y: Fp,
    pub infinity: bool,
}

impl CommitmentCurve for Pallas {
    type BaseField = Fp;

    type ScalarField = Fq;

    open spec fn model(&self) -> (nat, nat, bool) {
        (self.x.val(), self.y.val(), self.infinity)
    }

    open spec fn add_spec(a: (nat, nat, bool), b: (nat, nat, bool)) -> (nat, nat, bool) {
        pallas_add(a, b)
    }

    open spec fn mul_spec(a: (nat, nat, bool), k: nat) -> (nat, nat, bool) {
        pallas_mul(a, k)
    }

    open spec fn msm_spec(points: Seq<(nat, nat, bool)>, scalars: Seq<nat>) -> (nat, nat, bool) {
        pallas_msm(points, scalars)
    }

    fn of_coordinates(x: Fp, y: Fp) -> (r: Self) {
        Pallas { x, y, infinity: false }
    }

    fn to_coordinates(&self) -> (r: Option<(Fp, Fp)>) {
        if self.infinity {
            None
        } else {
            Some((self.x, self.y))
        }
    }

    fn zero() -> (r: Self) {
        Pallas { x: Fp::zero(), y: Fp::zero(), infinity: true }
    }

    fn is_zero(&self) -> (b: bool) {
        self.infinity
    }

    fn is_eq(&self, other: &Self) -> (b: bool) {
        self.x.is_eq(&other.x) && self.y.is_eq(&other.y) && self.infinity == other.infinity
    }

    fn prime_subgroup_generator() -> (r: Self) {
        Pallas { x: Fp::one().neg(), y: Fp::from_u64(2), infinity: false }
    }

    fn coeff_b() -> (r: Fp) {
        Fp::from_u64(5)
    }

    fn add(&self, other: &Self) -> (r: Self) {
        pallas_add_exec(self, other)
    }

    fn double(&self) -> (r: Self) {
        pallas_add_exec(self, self)
    }

    fn mul(&self, k: &Fq) -> (r: Self) {
        pallas_mul_exec(self, k)
    }

    fn multi_scalar_mul(points: &[Self], scalars: &[Fq]) -> (r: Self) {
        let ghost k = shorter(points@.len(), scalars@.len());
        assert(pallas_points(points@) =~= Seq::new(points@.len(), |i: int| points@[i].model()));
        assert(pallas_points(points@).take(k as int) =~= Seq::new(k, |i: int| points@[i].model()));
        assert(vals(scalars@).take(k as int) =~= Seq::new(k, |i: int| scalars@[i].val()));
        pallas_msm_exec(points, scalars)
    }

    fn to_bytes(&self) -> (r: Vec<u8>) {
        pallas_encode(self)
    }

    fn from_bytes(bytes: &[u8]) -> (r: Option<Self>) {
        pallas_decode(bytes)
    }
}

/// `+` of `ark_pallas::Affine`, brought back to affine form. The result is the
/// function [`pallas_add`] of the two arguments.
#[verifier::external_body]
fn pallas_add_exec(a: &Pallas, b: &Pallas) -> (r: Pallas)
    ensures
        r.model() == pallas_add(a.model(), b.model()),
{
    let p = ark_pallas::Affine { x: ark_ff::BigInt(a.x.limbs).into(), y: ark_ff::BigInt(a.y.limbs).into(), infinity: a.infinity };
    let q = ark_pallas::Affine { x: ark_ff::BigInt(b.x.limbs).into(), y: ark_ff::BigInt(b.y.limbs).into(), infinity: b.infinity };
    let s = ark_ec::CurveGroup::into_affine(p + q);
    Pallas {
        x: Fp { limbs: ark_ff::BigInt::from(s.x).0 },
        y: Fp { limbs: ark_ff::BigInt::from(s.y).0 },
        infinity: s.infinity,
    }
}

/// `*` of `ark_pallas::Affine` with a scalar, brought back to affine form. The
/// result is the function [`pallas_mul`] of the two arguments.
#[verifier::external_body]
fn pallas_mul_exec(a: &Pallas, k: &Fq) -> (r: Pallas)
    ensures
        r.model() == pallas_mul(a.model(), k.val()),
{
    let p = ark_pallas::Affine { x: ark_ff::BigInt(a.x.limbs).into(), y: ark_ff::BigInt(a.y.limbs).into(), infinity: a.infinity };
    let e: ark_pallas::Fr = ark_ff::BigInt(k.limbs).into();
    let s = ark_ec::CurveGroup::into_affine(p * e);
    Pallas {
        x: Fp { limbs: ark_ff::BigInt::from(s.x).0 },
        y: Fp { limbs: ark_ff::BigInt::from(s.y).0 },
        infinity: s.infinity,
    }
}

/// `VariableBaseMSM::msm_unchecked` of `ark_pallas::Projective`, brought back to
/// affine form. The result is the function [`pallas_msm`] of the two arguments. Both
/// sequences are cut to the shorter of the two lengths before anything is computed,
/// so that the result is also the one for the two sequences cut to that length.
#[verifier::external_body]
fn pallas_msm_exec(points: &[Pallas], scalars: &[Fq]) -> (r: Pallas)
    ensures
        r.model() == pallas_msm(pallas_points(points@), vals(scalars@)),
        r.model() == pallas_msm(
            pallas_points(points@).take(shorter(points@.len(), scalars@.len()) as int),
            vals(scalars@).take(shorter(points@.len(), scalars@.len()) as int),
        ),
{
    let ps: Vec<ark_pallas::Affine> = points.iter().map(|a| ark_pallas::Affine { x: ark_ff::BigInt(a.x.limbs).into(), y: ark_ff::BigInt(a.y.limbs).into(), infinity: a.infinity }).collect();
    let ks: Vec<ark_pallas::Fr> = scalars.iter().map(|k| ark_ff::BigInt(k.limbs).into()).collect();
    let m: ark_pallas::Projective = ark_ec::VariableBaseMSM::msm_unchecked(&ps, &ks);
    let s = ark_ec::CurveGroup::into_affine(m);
    Pallas {
        x: Fp { limbs: ark_ff::BigInt::from(s.x).0 },
        y: Fp { limbs: ark_ff::BigInt::from(s.y).0 },
        infinity: s.infinity,
    }
}

/// `CanonicalSerialize::serialize_uncompressed` of `ark_pallas::Affine` into a vector:
/// the abscissa in 32 bytes, then the ordinate in 32 bytes and the byte of the flags.
/// A point at infinity is written with zeros for its coordinates. The flag of the
/// ordinate is set where the ordinate, as a number, is larger than its negative.
#[verifier::external_body]
fn pallas_encode(a: &Pallas) -> (r: Vec<u8>)
    ensures
        r@ == point_encoding(fp_modulus(), a.model()),
{
    let p = ark_pallas::Affine { x: ark_ff::BigInt(a.x.limbs).into(), y: ark_ff::BigInt(a.y.limbs).into(), infinity: a.infinity };
    let mut out: Vec<u8> = Vec::new();
    ark_serialize::CanonicalSerialize::serialize_uncompressed(&p, &mut out).unwrap();
    out
}

/// `CanonicalDeserialize::deserialize_uncompressed` of `ark_pallas::Affine` from a slice.
/// It reads 32 bytes for the abscissa and 33 for the ordinate with the flags, and
/// fails where the slice is shorter, where a coordinate is not below the modulus, or
/// where both flags are set. With the flag of infinity it gives the point at infinity.
/// Otherwise it checks the equation of the curve; the group is the whole curve, so
/// that nothing else is checked.
#[verifier::external_body]
fn pallas_decode(bytes: &[u8]) -> (r: Option<Pallas>)
    ensures
        match r {
            Some(pt) => point_decoding(fp_modulus(), 5, bytes@) == Some(pt.model()),
            None => point_decoding(fp_modulus(), 5, bytes@) is None,
        },
{
    let p: Result<ark_pallas::Affine, ark_serialize::SerializationError> = ark_serialize::CanonicalDeserialize::deserialize_uncompressed(bytes);
    p.ok().map(|s| Pallas {
        x: Fp { limbs: ark_ff::BigInt::from(s.x).0 },
        y: Fp { limbs: ark_ff::BigInt::from(s.y).0 },
        infinity: s.infinity,
    })
}

/// The affine sum that `ark-ec` computes of two points of Vesta given by their
/// coordinates.
pub uninterp spec fn vesta_add(a: (nat, nat, bool), b: (nat, nat, bool)) -> (nat, nat, bool);

/// The affine point that `ark-ec` computes as `k` times a point of Vesta.
pub uninterp spec fn vesta_mul(a: (nat, nat, bool), k: nat) -> (nat, nat, bool);

/// The affine point that the multi-scalar multiplication of `ark-ec` computes from
/// points of Vesta and scalars.
pub uninterp spec fn vesta_msm(points: Seq<(nat, nat, bool)>, scalars: Seq<nat>) -> (
    nat,
    nat,
    bool,
);

/// The coordinates and flags of a sequence of points of Vesta.
pub open spec fn vesta_points(s: Seq<Vesta>) -> Seq<(nat, nat, bool)> {
    Seq::new(s.len(), |i: int| (s[i].x.val(), s[i].y.val(), s[i].infinity))
}

/// A point of Vesta in affine form.
#[derive(Clone, Copy, Debug, PartialEq, Eq)]
pub struct Vesta {
    pub x: Fq,
    pub y: Fq,
    pub infinity: bool,
}

impl CommitmentCurve for Vesta {
    type BaseField = Fq;

    type ScalarField = Fp;

    open spec fn model(&self) -> (nat, nat, bool) {
        (self.x.val(), self.y.val(), self.infinity)
    }

    open spec fn add_spec(a: (nat, nat, bool), b: (nat, nat, bool)) -> (nat, nat, bool) {
        vesta_add(a, b)
    }

    open spec fn mul_spec(a: (nat, nat, bool), k: nat) -> (nat, nat, bool) {
        vesta_mul(a, k)
    }

    open spec fn msm_spec(points: Seq<(nat, nat, bool)>, scalars: Seq<nat>) -> (nat, nat, bool) {
        vesta_msm(points, scalars)
    }

    fn of_coordinates(x: Fq, y: Fq) -> (r: Self) {
        Vesta { x, y, infinity: false }
    }

    fn to_coordinates(&self) -> (r: Option<(Fq, Fq)>) {
        if self.infinity {
            None
        } else {
            Some((self.x, self.y))
        }
    }

    fn zero() -> (r: Self) {
        Vesta { x: Fq::zero(), y: Fq::zero(), infinity: true }
    }

    fn is_zero(&self) -> (b: bool) {
        self.infinity
    }

    fn is_eq(&self, other: &Self) -> (b: bool) {
        self.x.is_eq(&other.x) && self.y.is_eq(&other.y) && self.infinity == other.infinity
    }

    fn prime_subgroup_generator() -> (r: Self) {
        Vesta { x: Fq::one().neg(), y: Fq::from_u64(2), infinity: false }
    }

    fn coeff_b() -> (r: Fq) {
        Fq::from_u64(5)
    }

    fn add(&self, other: &Self) -> (r: Self) {
        vesta_add_exec(self, other)
    }

    fn double(&self) -> (r: Self) {
        vesta_add_exec(self, self)
    }

    fn mul(&self, k: &Fp) -> (r: Self) {
        vesta_mul_exec(self, k)
    }

    fn multi_scalar_mul(points: &[Self], scalars: &[Fp]) -> (r: Self) {
        let ghost k = shorter(points@.len(), scalars@.len());
        assert(vesta_points(points@) =~= Seq::new(points@.len(), |i: int| points@[i].model()));
        assert(vesta_points(points@).take(k as int) =~= Seq::new(k, |i: int| points@[i].model()));
        assert(vals(scalars@).take(k as int) =~= Seq::new(k, |i: int| scalars@[i].val()));
        vesta_msm_exec(points, scalars)
    }

    fn to_bytes(&self) -> (r: Vec<u8>) {
        vesta_encode(self)
    }

    fn from_bytes(bytes: &[u8]) -> (r: Option<Self>) {
        vesta_decode(bytes)
    }
}

/// `+` of `ark_vesta::Affine`, brought back to affine form. The result is the
/// function [`vesta_add`] of the two arguments.
#[verifier::external_body]
fn vesta_add_exec(a: &Vesta, b: &Vesta) -> (r: Vesta)
    ensures
        r.model() == vesta_add(a.model(), b.model()),
{
    let p = ark_vesta::Affine { x: ark_ff::BigInt(a.x.limbs).into(), y: ark_ff::BigInt(a.y.limbs).into(), infinity: a.infinity };
    let q = ark_vesta::Affine { x: ark_ff::BigInt(b.x.limbs).into(), y: ark_ff::BigInt(b.y.limbs).into(), infinity: b.infinity };
    let s = ark_ec::CurveGroup::into_affine(p + q);
    Vesta {
        x: Fq { limbs: ark_ff::BigInt::from(s.x).0 },
        y: Fq { limbs: ark_ff::BigInt::from(s.y).0 },
        infinity: s.infinity,
    }
}

/// `*` of `ark_vesta::Affine` with a scalar, brought back to affine form. The
/// result is the function [`vesta_mul`] of the two arguments.
#[verifier::external_body]
fn vesta_mul_exec(a: &Vesta, k: &Fp) -> (r: Vesta)
    ensures
        r.model() == vesta_mul(a.model(), k.val()),
{
    let p = ark_vesta::Affine { x: ark_ff::BigInt(a.x.limbs).into(), y: ark_ff::BigInt(a.y.limbs).into(), infinity: a.infinity };
    let e: ark_vesta::Fr = ark_ff::BigInt(k.limbs).into();
    let s = ark_ec::CurveGroup::into_affine(p * e);
    Vesta {
        x: Fq { limbs: ark_ff::BigInt::from(s.x).0 },
        y: Fq { limbs: ark_ff::BigInt::from(s.y).0 },
        infinity: s.infinity,
    }
}

/// `VariableBaseMSM::msm_unchecked` of `ark_vesta::Projective`, brought back to
/// affine form. The result is the function [`vesta_msm`] of the two arguments. Both
/// sequences are cut to the shorter of the two lengths before anything is computed,
/// so that the result is also the one for the two sequences cut to that length.
#[verifier::external_body]
fn vesta_msm_exec(points: &[Vesta], scalars: &[Fp]) -> (r: Vesta)
    ensures
        r.model() == vesta_msm(vesta_points(points@), vals(scalars@)),
        r.model() == vesta_msm(
            vesta_points(points@).take(shorter(points@.len(), scalars@.len()) as int),
            vals(scalars@).take(shorter(points@.len(), scalars@.len()) as int),
        ),
{
    let ps: Vec<ark_vesta::Affine> = points.iter().map(|a| ark_vesta::Affine { x: ark_ff::BigInt(a.x.limbs).into(), y: ark_ff::BigInt(a.y.limbs).into(), infinity: a.infinity }).collect();
    let ks: Vec<ark_vesta::Fr> = scalars.iter().map(|k| ark_ff::BigInt(k.limbs).into()).collect();
    let m: ark_vesta::Projective = ark_ec::VariableBaseMSM::msm_unchecked(&ps, &ks);
    let s = ark_ec::CurveGroup::into_affine(m);
    Vesta {
        x: Fq { limbs: ark_ff::BigInt::from(s.x).0 },
        y: Fq { limbs: ark_ff::BigInt::from(s.y).0 },
        infinity: s.infinity,
    }
}

/// `CanonicalSerialize::serialize_uncompressed` of `ark_vesta::Affine` into a vector:
/// the abscissa in 32 bytes, then the ordinate in 32 bytes and the byte of the flags.
/// A point at infinity is written with zeros for its coordinates. The flag of the
/// ordinate is set where the ordinate, as a number, is larger than its negative.
#[verifier::external_body]
fn vesta_encode(a: &Vesta) -> (r: Vec<u8>)
    ensures
        r@ == point_encoding(fq_modulus(), a.model()),
{
    let p = ark_vesta::Affine { x: ark_ff::BigInt(a.x.limbs).into(), y: ark_ff::BigInt(a.y.limbs).into(), infinity: a.infinity };
    let mut out: Vec<u8> = Vec::new();
    ark_serialize::CanonicalSerialize::serialize_uncompressed(&p, &mut out).unwrap();
    out
}

/// `CanonicalDeserialize::deserialize_uncompressed` of `ark_vesta::Affine` from a slice.
/// It reads 32 bytes for the abscissa and 33 for the ordinate with the flags, and
/// fails where the slice is shorter, where a coordinate is not below the modulus, or
/// where both flags are set. With the flag of infinity it gives the point at infinity.
/// Otherwise it checks the equation of the curve; the group is the whole curve, so
/// that nothing else is checked.
#[verifier::external_body]
fn vesta_decode(bytes: &[u8]) -> (r: Option<Vesta>)
    ensures
        match r {
            Some(pt) => point_decoding(fq_modulus(), 5, bytes@) == Some(pt.model()),
            None => point_decoding(fq_modulus(), 5, bytes@) is None,
        },
{
    let p: Result<ark_vesta::Affine, ark_serialize::SerializationError> = ark_serialize::CanonicalDeserialize::deserialize_uncompressed(bytes);
    p.ok().map(|s| Vesta {
        x: Fq { limbs: ark_ff::BigInt::from(s.x).0 },
        y: Fq { limbs: ark_ff::BigInt::from(s.y).0 },
        infinity: s.infinity,
    })
}

} // verus!
