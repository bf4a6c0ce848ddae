//! The structured reference string: the points that polynomials are committed
//! against, the point that blinds, and the two coefficients of the curve's
//! endomorphism.

use crate::arith::{fadd, fmul};
use crate::curve::{
    le_digits, le_number, models, point_decoding, point_encoding, point_flags, CommitmentCurve,
    POINT_BYTES,
};
use crate::field::PrimeField;
use crate::groupmap::{setup_spec, to_group_spec, BWModel, BWParameters};
use crate::sponge::{endo_coefficient, endo_coefficient_spec};
use vstd::arithmetic::power2::pow2;
use vstd::prelude::*;

verus! {

/// The digest that `Blake2b512` of the `blake2` crate gives for a message.
pub uninterp spec fn blake2b_digest(input: Seq<u8>) -> Seq<u8>;

/// `Blake2b512::digest` of the `blake2` crate: the 64 bytes of the BLAKE2b hash of the
/// input, which are the function [`blake2b_digest`] of it.
#[verifier::external_body]
fn blake2b(input: &[u8]) -> (r: Vec<u8>)
    ensures
        r@ == blake2b_digest(input@),
        r@.len() == 64,
{
    <blake2::Blake2b512 as blake2::Digest>::digest(input).to_vec()
}

/// A reference string over the curve `G`.
pub struct SRS<G: CommitmentCurve> {
    /// The points that coefficients are committed against.
    pub g: Vec<G>,
    /// The point that blinds.
    pub h: G,
    /// The scalar by which the endomorphism multiplies.
    pub endo_r: G::ScalarField,
    /// The factor that the endomorphism puts on the abscissa.
    pub endo_q: G::BaseField,
}

/// The four bytes of a 32-bit number, most significant first.
pub open spec fn be_bytes_spec(x: u32) -> Seq<u8> {
    seq![
        (x >> 24) as u8,
        ((x >> 16) & 0xff) as u8,
        ((x >> 8) & 0xff) as u8,
        (x & 0xff) as u8,
    ]
}

/// The four bytes of a 32-bit number, most significant first.
pub fn be_bytes(x: u32) -> (r: Vec<u8>)
    ensures
        r@ == be_bytes_spec(x),
{
    let mut r: Vec<u8> = Vec::new();
    let b0: u32 = x >> 24;
    let b1: u32 = (x >> 16) & 0xff;
    let b2: u32 = (x >> 8) & 0xff;
    let b3: u32 = x & 0xff;
    assert(b0 <= 0xff) by (bit_vector)
        requires
            b0 == x >> 24,
    ;
    assert(b1 <= 0xff) by (bit_vector)
        requires
            b1 == (x >> 16) & 0xff,
    ;
    assert(b2 <= 0xff) by (bit_vector)
        requires
            b2 == (x >> 8) & 0xff,
    ;
    assert(b3 <= 0xff) by (bit_vector)
        requires
            b3 == x & 0xff,
    ;
    r.push(b0 as u8);
    r.push(b1 as u8);
    r.push(b2 as u8);
    r.push(b3 as u8);
    assert(r@ =~= be_bytes_spec(x));
    r
}

/// The number of bits of a digest that seed a point.
pub const SEED_BITS: usize = 248;

/// Bit `k` of the seed: bit `k % 8` of byte `k / 8`, counted from the low end.
pub open spec fn seed_bit(bytes: Seq<u8>, k: int) -> nat {
    ((bytes[k / 8] >> ((k % 8) as u8)) & 1) as nat
}

/// The field element that the first `n` seed bits spell, the first bit being the most
/// significant.
pub open spec fn seed_value(p: nat, bytes: Seq<u8>, n: nat) -> nat
    decreases n,
{
    if n == 0 {
        0
    } else {
        let prev = seed_value(p, bytes, (n - 1) as nat);
        fadd(p, fadd(p, prev, prev), seed_bit(bytes, n - 1))
    }
}

/// The field element that the first 31 bytes of a digest spell.
pub fn seed_element<F: PrimeField>(bytes: &[u8]) -> (r: F)
    requires
        bytes@.len() >= 31,
    ensures
        r.val() == seed_value(F::modulus(), bytes@, SEED_BITS as nat),
{
    let mut acc: F = F::zero();
    let mut k: usize = 0;
    while k < SEED_BITS
        invariant
            k <= SEED_BITS,
            bytes@.len() >= 31,
            acc.val() == seed_value(F::modulus(), bytes@, k as nat),
        decreases SEED_BITS - k,
    {
        let byte: u8 = bytes[k / 8];
        let shift: u8 = (k % 8) as u8;
        let bit: u8 = (byte >> shift) & 1;
        acc = acc.double().add(&F::from_u64(bit as u64));
        k = k + 1;
    }
    acc
}

/// The coordinates of point `i` of a reference string: the image under the group map
/// of the seed that the digest of `i` spells.
pub open spec fn srs_point_spec<G: CommitmentCurve>(m: BWModel, i: nat) -> Option<(nat, nat)> {
    to_group_spec::<G::BaseField>(
        m,
        5,
        seed_value(
            G::BaseField::modulus(),
            blake2b_digest(be_bytes_spec((i % 0x1_0000_0000) as u32)),
            SEED_BITS as nat,
        ),
    )
}

/// The two coefficients of the endomorphism: the cube root of unity `endo_q` of the
/// base field, and that cube root of unity of the scalar field, or its square, which
/// multiplies the generator as `(x, y) -> (endo_q * x, y)` moves it.
pub open spec fn endos_spec<G: CommitmentCurve>() -> (nat, nat) {
    let q = G::BaseField::modulus();
    let r = G::ScalarField::modulus();
    let endo_q = endo_coefficient_spec(q, G::BaseField::generator_value());
    let potential = endo_coefficient_spec(r, G::ScalarField::generator_value());
    let t = (crate::arith::fneg(q, 1), 2nat, false);
    let phi_t = (fmul(q, t.0, endo_q), 2nat, false);
    if G::mul_spec(t, potential) == phi_t {
        (endo_q, potential)
    } else {
        (endo_q, fmul(r, potential, potential))
    }
}

/// The coefficients of the endomorphism of the curve.
pub fn endos<G: CommitmentCurve>() -> (r: (G::BaseField, G::ScalarField))
    ensures
        (r.0.val(), r.1.val()) == endos_spec::<G>(),
{
    let endo_q: G::BaseField = endo_coefficient();
    let potential_endo_r: G::ScalarField = endo_coefficient();
    let t: G = G::prime_subgroup_generator();
    let endo_r: G::ScalarField = match t.to_coordinates() {
        Some(c) => {
            let phi_t: G = G::of_coordinates(c.0.mul(&endo_q), c.1);
            if t.mul(&potential_endo_r).is_eq(&phi_t) {
                potential_endo_r
            } else {
                potential_endo_r.mul(&potential_endo_r)
            }
        },
        None => potential_endo_r,
    };
    (endo_q, endo_r)
}

/// Whether `pt` is point `i` of the sequence that the seeds give.
pub open spec fn is_srs_point<G: CommitmentCurve>(m: BWModel, i: int, pt: (nat, nat, bool)) -> bool {
    srs_point_spec::<G>(m, i as nat) == Some((pt.0, pt.1)) && !pt.2
}

/// Whether seed `i` gives a point.
pub open spec fn has_srs_point<G: CommitmentCurve>(m: BWModel, i: int) -> bool {
    srs_point_spec::<G>(m, i as nat) is Some
}

impl<G: CommitmentCurve> SRS<G> {
    /// The number of coefficients that one commitment holds.
    pub fn max_degree(&self) -> (r: usize)
        ensures
            r == self.g@.len(),
    {
        self.g.len()
    }

    /// Whether the string is the one of the given depth: the blinding point comes from
    /// the seed `0`, point `i` from the seed `i + 1`.
    pub open spec fn created(&self, depth: nat) -> bool {
        match setup_spec::<G::BaseField>(5) {
            None => false,
            Some(m) => {
                &&& self.g@.len() == depth
                &&& (self.endo_q.val(), self.endo_r.val()) == endos_spec::<G>()
                &&& is_srs_point::<G>(m, 0, self.h.model())
                &&& forall|i: int|
                    0 <= i < depth ==> #[trigger] is_srs_point::<G>(m, i + 1, self.g@[i].model())
            },
        }
    }

    /// Every point of the string comes back from its encoding.
    pub open spec fn storable(&self) -> bool {
        &&& encodable(G::BaseField::modulus(), 5, self.h.model())
        &&& forall|i: int|
            0 <= i < self.g@.len() ==> encodable(
                G::BaseField::modulus(),
                5,
                #[trigger] self.g@[i].model(),
            )
    }

    /// Whether a reference string of the given depth exists: the group map has its
    /// constants and sends every seed to a point.
    pub open spec fn creatable(depth: nat) -> bool {
        match setup_spec::<G::BaseField>(5) {
            None => false,
            Some(m) => forall|i: int| 0 <= i <= depth ==> #[trigger] has_srs_point::<G>(m, i),
        }
    }

    /// Creates the reference string for polynomials of up to `depth` coefficients. The
    /// points are derived from the digests of their indices, with nothing up any
    /// sleeve.
    pub fn create(depth: usize) -> (r: Option<Self>)
        requires
            depth < usize::MAX,
        ensures
            r is Some <==> Self::creatable(depth as nat),
            r matches Some(s) ==> s.created(depth as nat) && s.storable(),
    {
        let m: BWParameters<G::BaseField> = match BWParameters::setup(G::coeff_b()) {
            Some(m) => m,
            None => {
                return None;
            },
        };
        let ghost mm: BWModel = m@;
        let mut v: Vec<G> = Vec::new();
        let mut i: usize = 0;
        while i < depth + 1
            invariant
                i <= depth + 1,
                depth < usize::MAX,
                Some(mm) == setup_spec::<G::BaseField>(5),
                m@ == mm,
                m.b.val() == 5,
                v@.len() == i,
                forall|j: int| 0 <= j < i ==> #[trigger] is_srs_point::<G>(mm, j, v@[j].model()),
                forall|j: int|
                    0 <= j < i ==> encodable(G::BaseField::modulus(), 5, #[trigger] v@[j].model()),
            decreases depth + 1 - i,
        {
            let x: u32 = ((i as u64) % 0x1_0000_0000) as u32;
            let msg: Vec<u8> = be_bytes(x);
            let digest: Vec<u8> = blake2b(msg.as_slice());
            let t: G::BaseField = seed_element(digest.as_slice());
            assert(x == (i as nat % 0x1_0000_0000) as u32);
            assert(srs_point_spec::<G>(mm, i as nat) == to_group_spec::<G::BaseField>(
                mm,
                5,
                t.val(),
            ));
            match m.to_group(t) {
                Some(c) => {
                    c.0.canonical();
                    c.1.canonical();
                    let pt: G = G::of_coordinates(c.0, c.1);
                    assert(is_srs_point::<G>(mm, i as int, pt.model()));
                    assert(encodable(G::BaseField::modulus(), 5, pt.model()));
                    v.push(pt);
                },
                None => {
                    proof {
                        // seed `i` gives no point, so no string of this depth exists
                        assert(!has_srs_point::<G>(mm, i as int));
                        if Self::creatable(depth as nat) {
                            assert(setup_spec::<G::BaseField>(5) matches Some(m2) && m2 == mm);
                            assert(forall|k: int|
                                0 <= k <= depth ==> #[trigger] has_srs_point::<G>(mm, k));
                            assert(has_srs_point::<G>(mm, i as int));
                        }
                    }
                    return None;
                },
            }
            i = i + 1;
        }
        let e = endos::<G>();
        let g: Vec<G> = crate::poly::copy_range(v.as_slice(), 1, depth + 1);
        let s = SRS { g, h: v[0], endo_r: e.1, endo_q: e.0 };
        proof {
            assert(is_srs_point::<G>(mm, 0, v@[0].model()));
            assert forall|j: int| 0 <= j < depth implies #[trigger] is_srs_point::<G>(
                mm,
                j + 1,
                s.g@[j].model(),
            ) by {
                assert(s.g@[j] == v@[j + 1]);
                assert(is_srs_point::<G>(mm, j + 1, v@[j + 1].model()));
            }
            assert forall|j: int| 0 <= j <= depth implies #[trigger] has_srs_point::<G>(mm, j) by {
                assert(is_srs_point::<G>(mm, j, v@[j].model()));
            }
        }
        Some(s)
    }
}

/// The eight bytes of a 64-bit number, least significant first.
pub fn le_bytes(x: u64) -> (r: Vec<u8>)
    ensures
        r@ == le_digits(x as nat, 8),
{
    let mut r: Vec<u8> = Vec::new();
    let mut rest: u64 = x;
    let mut i: usize = 0;
    while i < 8
        invariant
            i <= 8,
            r@.len() == i,
            r@ + le_digits(rest as nat, (8 - i) as nat) == le_digits(x as nat, 8),
        decreases 8 - i,
    {
        let ghost before = r@;
        r.push((rest % 256) as u8);
        proof {
            assert(r@ + le_digits((rest / 256) as nat, (8 - i - 1) as nat) =~= before + le_digits(
                rest as nat,
                (8 - i) as nat,
            ));
        }
        rest = rest / 256;
        i = i + 1;
    }
    assert(r@ + le_digits(rest as nat, 0) =~= r@);
    r
}

/// The number that the first eight bytes spell, least significant first.
pub fn le_value(bytes: &[u8]) -> (r: u64)
    requires
        bytes@.len() >= 8,
    ensures
        r == le_number(bytes@.subrange(0, 8)),
{
    proof {
        vstd::arithmetic::power2::lemma2_to64();
    }
    let ghost head = bytes@.subrange(0, 8);
    let mut r: u64 = 0;
    let mut i: usize = 8;
    assert(head.subrange(8, 8).len() == 0);
    while i > 0
        invariant
            i <= 8,
            bytes@.len() >= 8,
            head == bytes@.subrange(0, 8),
            r == le_number(head.subrange(i as int, 8)),
            r < pow2((8 * (8 - i)) as nat),
        decreases i,
    {
        proof {
            vstd::arithmetic::power2::lemma_pow2_adds((8 * (8 - i)) as nat, 8);
            vstd::arithmetic::power2::lemma2_to64();
            if i > 1 {
                vstd::arithmetic::power2::lemma_pow2_strictly_increases((8 * (9 - i)) as nat, 64);
            }
            assert(r * 256 + 255 < pow2((8 * (8 - i)) as nat) * 256) by (nonlinear_arith)
                requires
                    r < pow2((8 * (8 - i)) as nat),
            ;
            let longer = head.subrange(i - 1, 8);
            assert(longer.skip(1) =~= head.subrange(i as int, 8));
            assert(longer[0] == bytes@[i - 1]);
        }
        i = i - 1;
        r = bytes[i] as u64 + 256 * r;
    }
    assert(head.subrange(0, 8) =~= head);
    r
}

/// A point that its encoding gives back: its coordinates are below the modulus `p`,
/// and it is the point at infinity with zeros for coordinates or a point of the
/// curve `y^2 = x^3 + b`.
pub open spec fn encodable(p: nat, b: nat, a: (nat, nat, bool)) -> bool {
    if a.2 {
        a.0 == 0 && a.1 == 0
    } else {
        a.0 < p && a.1 < p && fmul(p, a.1, a.1) == fadd(p, fmul(p, fmul(p, a.0, a.0), a.0), b)
    }
}

/// A number has as many bytes as are asked for.
pub proof fn lemma_le_digits_len(v: nat, n: nat)
    ensures
        le_digits(v, n).len() == n,
    decreases n,
{
    if n > 0 {
        lemma_le_digits_len(v / 256, (n - 1) as nat);
    }
}

/// The bytes of a number that fits them spell the number.
pub proof fn lemma_le_number_digits(v: nat, n: nat)
    requires
        v < pow2(8 * n),
    ensures
        le_number(le_digits(v, n)) == v,
    decreases n,
{
    vstd::arithmetic::power2::lemma2_to64();
    lemma_le_digits_len(v, n);
    if n > 0 {
        let d = le_digits(v, n);
        assert(d.skip(1) =~= le_digits(v / 256, (n - 1) as nat));
        vstd::arithmetic::power2::lemma_pow2_adds(8, (8 * (n - 1)) as nat);
        assert(v / 256 < pow2((8 * (n - 1)) as nat)) by (nonlinear_arith)
            requires
                v < 256 * pow2((8 * (n - 1)) as nat),
        ;
        lemma_le_number_digits(v / 256, (n - 1) as nat);
        assert(d[0] == (v % 256) as u8);
    }
}

/// The encoding of a point has `POINT_BYTES` bytes.
pub proof fn lemma_point_encoding_len(p: nat, a: (nat, nat, bool))
    ensures
        point_encoding(p, a).len() == POINT_BYTES,
{
    lemma_le_digits_len(0, 32);
    lemma_le_digits_len(a.0, 32);
    lemma_le_digits_len(a.1, 32);
}

/// A point comes back from its encoding, whatever follows the encoding.
pub proof fn lemma_point_round_trip(p: nat, b: nat, a: (nat, nat, bool), tail: Seq<u8>)
    requires
        0 < p < pow2(256),
        encodable(p, b, a),
    ensures
        point_decoding(p, b, point_encoding(p, a) + tail) == Some(a),
{
    let e = point_encoding(p, a);
    let bytes = e + tail;
    lemma_point_encoding_len(p, a);
    lemma_le_digits_len(a.0, 32);
    lemma_le_digits_len(a.1, 32);
    vstd::arithmetic::power2::lemma_pow2_pos(256);
    assert(bytes.subrange(0, 32) =~= le_digits(a.0, 32));
    assert(bytes.subrange(32, 64) =~= le_digits(a.1, 32));
    assert(bytes[64] == point_flags(p, a));
    lemma_le_number_digits(a.0, 32);
    lemma_le_number_digits(a.1, 32);
}

/// The encodings of the first `k` points, one after the other.
pub open spec fn points_bytes<G: CommitmentCurve>(points: Seq<(nat, nat, bool)>, k: nat) -> Seq<u8>
    decreases k,
{
    if k == 0 {
        Seq::empty()
    } else {
        points_bytes::<G>(points, (k - 1) as nat) + point_encoding(
            G::BaseField::modulus(),
            points[k - 1],
        )
    }
}

/// The reference string as it stands on disk: the number of its points in eight
/// bytes, least significant first, the points in uncompressed form, and the point
/// that blinds.
pub open spec fn srs_bytes_spec<G: CommitmentCurve>(g: Seq<(nat, nat, bool)>, h: (nat, nat, bool)) -> Seq<
    u8,
> {
    le_digits(g.len(), 8) + points_bytes::<G>(g, g.len()) + point_encoding(
        G::BaseField::modulus(),
        h,
    )
}

/// The points that the bytes spell from position `8` on, `k` of them, or nothing
/// where one of them is no point.
pub open spec fn parse_points<G: CommitmentCurve>(bytes: Seq<u8>, k: nat) -> Option<
    Seq<(nat, nat, bool)>,
>
    decreases k,
{
    if k == 0 {
        Some(Seq::empty())
    } else {
        match parse_points::<G>(bytes, (k - 1) as nat) {
            None => None,
            Some(pv) => match point_decoding(
                G::BaseField::modulus(),
                5,
                bytes.subrange(8 + POINT_BYTES * (k - 1), 8 + POINT_BYTES * k),
            ) {
                None => None,
                Some(pt) => Some(pv.push(pt)),
            },
        }
    }
}

/// The points of the reference string that the bytes begin with, the point that
/// blinds being the last: the count, and then as many points and one more. What
/// follows them is not read.
pub open spec fn srs_parse_spec<G: CommitmentCurve>(bytes: Seq<u8>) -> Option<Seq<(nat, nat, bool)>> {
    if bytes.len() < 8 {
        None
    } else {
        let n = le_number(bytes.subrange(0, 8));
        if bytes.len() < 8 + POINT_BYTES * (n + 1) {
            None
        } else {
            parse_points::<G>(bytes, n + 1)
        }
    }
}

/// No points come of a longer run where none came of a shorter one.
pub proof fn lemma_parse_fail<G: CommitmentCurve>(bytes: Seq<u8>, k: nat, n: nat)
    requires
        k <= n,
        parse_points::<G>(bytes, k) is None,
    ensures
        parse_points::<G>(bytes, n) is None,
    decreases n,
{
    if k < n {
        lemma_parse_fail::<G>(bytes, k, (n - 1) as nat);
    }
}

/// The encodings of `k` points take `POINT_BYTES` bytes each, and the encoding of
/// point `j` stands at its place among them.
pub proof fn lemma_points_bytes<G: CommitmentCurve>(points: Seq<(nat, nat, bool)>, k: nat, j: nat)
    requires
        j < k <= points.len(),
    ensures
        points_bytes::<G>(points, k).len() == POINT_BYTES * k,
        points_bytes::<G>(points, k).subrange(65 * j as int, 65 * (j + 1) as int)
            == point_encoding(G::BaseField::modulus(), points[j as int]),
    decreases k,
{
    let p = G::BaseField::modulus();
    let before = points_bytes::<G>(points, (k - 1) as nat);
    let last = point_encoding(p, points[k - 1]);
    lemma_point_encoding_len(p, points[k - 1]);
    lemma_points_bytes_len::<G>(points, (k - 1) as nat);
    if j + 1 < k {
        lemma_points_bytes::<G>(points, (k - 1) as nat, j);
        assert((before + last).subrange(65 * j as int, 65 * (j + 1) as int) =~= before.subrange(
            65 * j as int,
            65 * (j + 1) as int,
        ));
    } else {
        assert((before + last).subrange(65 * j as int, 65 * (j + 1) as int) =~= last);
    }
}

/// The encodings of `k` points take `POINT_BYTES` bytes each.
pub proof fn lemma_points_bytes_len<G: CommitmentCurve>(points: Seq<(nat, nat, bool)>, k: nat)
    requires
        k <= points.len(),
    ensures
        points_bytes::<G>(points, k).len() == POINT_BYTES * k,
    decreases k,
{
    if k > 0 {
        lemma_points_bytes_len::<G>(points, (k - 1) as nat);
        lemma_point_encoding_len(G::BaseField::modulus(), points[k - 1]);
    }
}

/// The first `k` of the points that were written are read back.
pub proof fn lemma_parse_written<G: CommitmentCurve>(
    head: Seq<u8>,
    points: Seq<(nat, nat, bool)>,
    tail: Seq<u8>,
    k: nat,
)
    requires
        head.len() == 8,
        k <= points.len(),
        forall|i: int| 0 <= i < points.len() ==> encodable(G::BaseField::modulus(), 5, #[trigger] points[i]),
    ensures
        parse_points::<G>(head + points_bytes::<G>(points, points.len()) + tail, k) == Some(
            points.take(k as int),
        ),
    decreases k,
{
    let p = G::BaseField::modulus();
    let body = points_bytes::<G>(points, points.len());
    let bytes = head + body + tail;
    if k == 0 {
        assert(points.take(0) =~= Seq::<(nat, nat, bool)>::empty());
    } else {
        lemma_parse_written::<G>(head, points, tail, (k - 1) as nat);
        lemma_points_bytes::<G>(points, points.len(), (k - 1) as nat);
        lemma_points_bytes_len::<G>(points, points.len());
        let piece = bytes.subrange(8 + POINT_BYTES * (k - 1), 8 + POINT_BYTES * k);
        assert(65 * k <= 65 * points.len());
        assert(piece =~= body.subrange(65 * (k - 1), 65 * k as int));
        assert(piece =~= point_encoding(p, points[k - 1]) + Seq::<u8>::empty());
        G::BaseField::lemma_modulus_size();
        vstd::arithmetic::power2::lemma2_to64_rest();
        lemma_pow2_256();
        assert(encodable(p, 5, points[k - 1]));
        lemma_point_round_trip(p, 5, points[k - 1], Seq::<u8>::empty());
        assert(points.take((k - 1) as int).push(points[k - 1]) =~= points.take(k as int));
    }
}

/// `2^256` written out.
pub proof fn lemma_pow2_256()
    ensures
        pow2(256) == 0x1_0000000000000000_0000000000000000_0000000000000000_0000000000000000,
{
    vstd::arithmetic::power2::lemma2_to64_rest();
    vstd::arithmetic::power2::lemma_pow2_adds(64, 64);
    vstd::arithmetic::power2::lemma_pow2_adds(128, 128);
    assert(pow2(128) == 0x1_0000000000000000_0000000000000000) by {
        assert(0x1_0000_0000_0000_0000 * 0x1_0000_0000_0000_0000
            == 0x1_0000000000000000_0000000000000000) by (nonlinear_arith);
    }
    assert(0x1_0000000000000000_0000000000000000 * 0x1_0000000000000000_0000000000000000
        == 0x1_0000000000000000_0000000000000000_0000000000000000_0000000000000000)
        by (nonlinear_arith);
}

/// A reference string is read back from what was written of it, whatever follows:
/// the points of the string and then the point that blinds.
pub proof fn lemma_srs_round_trip<G: CommitmentCurve>(
    g: Seq<(nat, nat, bool)>,
    h: (nat, nat, bool),
    tail: Seq<u8>,
)
    requires
        g.len() <= u64::MAX,
        encodable(G::BaseField::modulus(), 5, h),
        forall|i: int| 0 <= i < g.len() ==> encodable(G::BaseField::modulus(), 5, #[trigger] g[i]),
    ensures
        srs_parse_spec::<G>(srs_bytes_spec::<G>(g, h) + tail) == Some(g.push(h)),
{
    let p = G::BaseField::modulus();
    let all = g.push(h);
    let head = le_digits(g.len(), 8);
    let bytes = srs_bytes_spec::<G>(g, h) + tail;
    lemma_le_digits_len(g.len(), 8);
    vstd::arithmetic::power2::lemma2_to64();
    lemma_le_number_digits(g.len(), 8);
    lemma_same_points_bytes::<G>(g, all, g.len());
    assert(points_bytes::<G>(all, all.len()) == points_bytes::<G>(g, g.len()) + point_encoding(
        p,
        h,
    ));
    assert(bytes =~= head + points_bytes::<G>(all, all.len()) + tail);
    assert(bytes.subrange(0, 8) =~= head);
    lemma_points_bytes_len::<G>(all, all.len());
    assert forall|i: int| 0 <= i < all.len() implies encodable(p, 5, #[trigger] all[i]) by {
        if i < g.len() {
            assert(all[i] == g[i]);
        }
    }
    lemma_parse_written::<G>(head, all, tail, all.len());
    assert(all.take(all.len() as int) =~= all);
}

/// The encodings of the first `k` points are the same for two sequences that begin
/// with the same `k` points.
pub proof fn lemma_same_points_bytes<G: CommitmentCurve>(
    a: Seq<(nat, nat, bool)>,
    b: Seq<(nat, nat, bool)>,
    k: nat,
)
    requires
        k <= a.len(),
        k <= b.len(),
        forall|i: int| 0 <= i < k ==> a[i] == b[i],
    ensures
        points_bytes::<G>(a, k) == points_bytes::<G>(b, k),
    decreases k,
{
    if k > 0 {
        lemma_same_points_bytes::<G>(a, b, (k - 1) as nat);
    }
}

impl<G: CommitmentCurve> SRS<G> {
    /// Appends the reference string to `writer` as it stands on disk.
    pub fn write(&self, writer: &mut Vec<u8>)
        ensures
            final(writer)@ == old(writer)@ + srs_bytes_spec::<G>(models(self.g@), self.h.model()),
    {
        let ghost start = writer@;
        let count: Vec<u8> = le_bytes(self.g.len() as u64);
        append_bytes(writer, count.as_slice());
        let ghost head = writer@;
        let mut i: usize = 0;
        while i < self.g.len()
            invariant
                i <= self.g@.len(),
                writer@ == head + points_bytes::<G>(models(self.g@), i as nat),
            decreases self.g@.len() - i,
        {
            let b: Vec<u8> = self.g[i].to_bytes();
            append_bytes(writer, b.as_slice());
            proof {
                assert(models(self.g@)[i as int] == self.g@[i as int].model());
                assert(writer@ =~= head + (points_bytes::<G>(models(self.g@), i as nat) + b@));
            }
            i = i + 1;
        }
        let b: Vec<u8> = self.h.to_bytes();
        append_bytes(writer, b.as_slice());
        assert(writer@ =~= start + srs_bytes_spec::<G>(models(self.g@), self.h.model()));
    }

    /// The reference string that the bytes begin with, with the coefficients of
    /// the endomorphism of the curve. There is none where the bytes do not begin
    /// with a count, as many points and one more.
    pub fn read(bytes: &[u8]) -> (r: Option<Self>)
        ensures
            match r {
                Some(s) => srs_parse_spec::<G>(bytes@) == Some(models(s.g@).push(s.h.model())) && (
                s.endo_q.val(), s.endo_r.val()) == endos_spec::<G>(),
                None => srs_parse_spec::<G>(bytes@) is None,
            },
    {
        if bytes.len() < 8 {
            return None;
        }
        let total: usize = bytes.len();
        let n: u64 = le_value(bytes);
        let room: usize = (total - 8) / 65;
        if n >= room as u64 {
            return None;
        }
        let count: usize = n as usize + 1;
        let mut points: Vec<G> = Vec::new();
        let mut i: usize = 0;
        assert(models(points@) =~= Seq::empty());
        while i < count
            invariant
                i <= count,
                count >= 1,
                total == bytes@.len(),
                total >= 8 + 65 * count,
                count == le_number(bytes@.subrange(0, 8)) + 1,
                POINT_BYTES == 65,
                points@.len() == i,
                parse_points::<G>(bytes@, i as nat) == Some(models(points@)),
            decreases count - i,
        {
            let lo: usize = 8 + 65 * i;
            let piece: Vec<u8> = crate::poly::copy_range(bytes, lo, lo + POINT_BYTES);
            let ghost prev = models(points@);
            match G::from_bytes(piece.as_slice()) {
                Some(pt) => {
                    points.push(pt);
                    assert(models(points@) =~= prev.push(pt.model()));
                },
                None => {
                    proof {
                        lemma_parse_fail::<G>(bytes@, (i + 1) as nat, count as nat);
                    }
                    return None;
                },
            }
            i = i + 1;
        }
        let g: Vec<G> = crate::poly::copy_range(points.as_slice(), 0, count - 1);
        let h: G = points[count - 1];
        let e = endos::<G>();
        proof {
            assert(models(points@) =~= models(g@).push(h.model()));
        }
        Some(SRS { g, h, endo_r: e.1, endo_q: e.0 })
    }
}

/// Appends bytes to a vector.
pub fn append_bytes(out: &mut Vec<u8>, bytes: &[u8])
    ensures
        final(out)@ == old(out)@ + bytes@,
{
    let ghost before = out@;
    let mut k: usize = 0;
    while k < bytes.len()
        invariant
            k <= bytes@.len(),
            out@ == before + bytes@.subrange(0, k as int),
        decreases bytes@.len() - k,
    {
        out.push(bytes[k]);
        k = k + 1;
        assert(out@ =~= before + bytes@.subrange(0, k as int));
    }
    assert(bytes@.subrange(0, bytes@.len() as int) =~= bytes@);
}

} // verus!
