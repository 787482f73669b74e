//! Points of the groups G1 and G2 of BLS12-381, held as their canonical
//! compressed encodings, with the group operations, hashing to G1 and the
//! pairing check of the `bls12_381` crate.
//!
//! The names below stand for what the crate computes on encodings; the
//! trusted items state, beside each name, the algebraic facts of the
//! prime-order groups that the scheme relies on.

use crate::field::{r, Scalar};
use bls12_381::hash_to_curve::{ExpandMsgXmd, HashToCurve};
use bls12_381::{G1Affine, G1Projective, G2Affine, G2Projective};
use vstd::prelude::*;

verus! {

/// A point of G1, held as its 48-byte compressed encoding. Values are made
/// only in this module, each by `G1Affine::to_compressed` of a hash output
/// or of a sum, multiple or negation of values already held, so every
/// encoding held here decodes and every point lies in G1.
#[derive(Clone, Copy, Debug, PartialEq, Eq)]
pub struct G1Point {
    bytes: [u8; 48],
}

/// A point of G2, held as its 96-byte compressed encoding. Values are made
/// only in this module, each by `G2Affine::to_compressed` of the generator
/// or of a multiple of a value already held, so every encoding held here
/// decodes, and every point is a multiple s·g₂ (s < r) of the generator.
#[derive(Clone, Copy, Debug, PartialEq, Eq)]
pub struct G2Point {
    bytes: [u8; 96],
}

impl View for G1Point {
    type V = Seq<u8>;

    closed spec fn view(&self) -> Seq<u8> {
        self.bytes@
    }
}

impl View for G2Point {
    type V = Seq<u8>;

    closed spec fn view(&self) -> Seq<u8> {
        self.bytes@
    }
}

impl G1Point {
    /// Every G1 point is x·H for a hash output H and some x < r: G1 is cyclic
    /// of prime order r, so any hash output other than the identity
    /// generates it.
    #[verifier::type_invariant]
    pub open spec fn in_g1(self) -> bool {
        exists|m: Seq<u8>, d: Seq<u8>, x: nat|
            x < r() && #[trigger] g1_scaled(g1_hash(m, d), x) == self@
    }

    /// The compressed encoding.
    pub fn to_bytes(&self) -> (b: [u8; 48])
        ensures
            b@ == self@,
    {
        self.bytes
    }
}

impl G2Point {
    /// Every G2 point is s·g₂ for some s < r (G2 is cyclic of prime order r).
    #[verifier::type_invariant]
    pub open spec fn in_g2(self) -> bool {
        exists|s: nat| s < r() && #[trigger] g2_scaled(g2_generator_bytes(), s) == self@
    }

    /// The compressed encoding.
    pub fn to_bytes(&self) -> (b: [u8; 96])
        ensures
            b@ == self@,
    {
        self.bytes
    }
}

#[verifier::external_type_specification]
#[verifier::external_body]
pub struct ExG2Prepared(bls12_381::G2Prepared);

/// A G2 point together with the line coefficients that the Miller loop
/// needs for it (`bls12_381::G2Prepared`), computed once for reuse.
pub struct PreparedG2 {
    point: G2Point,
    lines: bls12_381::G2Prepared,
}

impl PreparedG2 {
    /// The prepared point is a G2 point s·g₂ (s < r), as every `G2Point` is.
    #[verifier::type_invariant]
    pub open spec fn prepared_in_g2(self) -> bool {
        exists|s: nat| s < r() && #[trigger] g2_scaled(g2_generator_bytes(), s) == self@
    }
}

impl View for PreparedG2 {
    type V = Seq<u8>;

    /// The encoding of the point that was prepared.
    closed spec fn view(&self) -> Seq<u8> {
        self.point@
    }
}

/// The compressed encoding of the G1 identity (the point at infinity): the
/// compression and infinity flags set, all else zero.
pub open spec fn g1_identity_bytes() -> Seq<u8> {
    Seq::new(48, |i: int| if i == 0 { 0xc0u8 } else { 0u8 })
}

/// The compressed encoding of the G2 identity (the point at infinity): the
/// compression and infinity flags set, all else zero.
pub open spec fn g2_identity_bytes() -> Seq<u8> {
    Seq::new(96, |i: int| if i == 0 { 0xc0u8 } else { 0u8 })
}

/// The compressed encoding of the fixed generator of G2.
pub open spec fn g2_generator_bytes() -> Seq<u8> {
    seq![0x93, 0xe0, 0x2b, 0x60, 0x52, 0x71, 0x9f, 0x60, 0x7d, 0xac, 0xd3, 0xa0, 0x88, 0x27, 0x4f, 0x65, 0x59, 0x6b, 0xd0, 0xd0, 0x99, 0x20, 0xb6, 0x1a, 0xb5, 0xda, 0x61, 0xbb, 0xdc, 0x7f, 0x50, 0x49, 0x33, 0x4c, 0xf1, 0x12, 0x13, 0x94, 0x5d, 0x57, 0xe5, 0xac, 0x7d, 0x05, 0x5d, 0x04, 0x2b, 0x7e, 0x02, 0x4a, 0xa2, 0xb2, 0xf0, 0x8f, 0x0a, 0x91, 0x26, 0x08, 0x05, 0x27, 0x2d, 0xc5, 0x10, 0x51, 0xc6, 0xe4, 0x7a, 0xd4, 0xfa, 0x40, 0x3b, 0x02, 0xb4, 0x51, 0x0b, 0x64, 0x7a, 0xe3, 0xd1, 0x77, 0x0b, 0xac, 0x03, 0x26, 0xa8, 0x05, 0xbb, 0xef, 0xd4, 0x80, 0x56, 0xc8, 0xc1, 0x21, 0xbd, 0xb8]
}

/// `HashToCurve<ExpandMsgXmd<Sha256>>::hash_to_curve` into G1 (RFC 9380),
/// on a message and a domain-separation tag, as a compressed encoding.
pub uninterp spec fn g1_hash(msg: Seq<u8>, dst: Seq<u8>) -> Seq<u8>;

/// `G1Projective * Scalar`: the k-fold multiple of a G1 point.
pub uninterp spec fn g1_scaled(p: Seq<u8>, k: nat) -> Seq<u8>;

/// `G1Projective + G1Projective`: the sum of two G1 points.
pub uninterp spec fn g1_sum(a: Seq<u8>, b: Seq<u8>) -> Seq<u8>;

/// `-G1Projective`: the negation of a G1 point.
pub uninterp spec fn g1_negated(p: Seq<u8>) -> Seq<u8>;

/// `G2Projective * Scalar`: the k-fold multiple of a G2 point.
pub uninterp spec fn g2_scaled(p: Seq<u8>, k: nat) -> Seq<u8>;

/// `pairing(a, b) == pairing(c, d)`: whether two pairings agree in Gt.
pub uninterp spec fn pairing_equal(a: Seq<u8>, b: Seq<u8>, c: Seq<u8>, d: Seq<u8>) -> bool;

/// `multi_miller_loop(&[(a, p), (c, q)]).final_exponentiation() == Gt::identity()`:
/// whether the product of two pairings is the identity of Gt.
pub uninterp spec fn pairing_product_is_one(
    a: Seq<u8>,
    p: Seq<u8>,
    c: Seq<u8>,
    q: Seq<u8>,
) -> bool;

/// Hashing to G1: `<G1Projective as HashToCurve<ExpandMsgXmd<Sha256>>>::hash_to_curve`
/// (RFC 9380, SSWU map, cofactor cleared), named by `g1_hash`.
#[verifier::external_body]
pub(crate) fn hash_to_curve_g1(msg: &[u8], dst: &[u8]) -> (h: G1Point)
    ensures
        h@ == g1_hash(msg@, dst@),
        h@ == g1_scaled(g1_hash(msg@, dst@), 1),
{
    let p = <G1Projective as HashToCurve<ExpandMsgXmd<sha2::Sha256>>>::hash_to_curve(msg, dst);
    G1Point { bytes: G1Affine::from(&p).to_compressed() }
}

/// `G1Projective * Scalar`, named by `g1_scaled`. Hash outputs lie in the
/// prime-order group G1, so a multiple a·H of one, scaled by k, is the
/// multiple (a·k mod r)·H.
#[verifier::external_body]
pub(crate) fn g1_mul(p: &G1Point, k: &Scalar) -> (q: G1Point)
    ensures
        q@ == g1_scaled(p@, k@),
        forall|msg: Seq<u8>, dst: Seq<u8>, a: nat|
            a < r() && p@ == #[trigger] g1_scaled(g1_hash(msg, dst), a) ==> q@ == g1_scaled(
                g1_hash(msg, dst),
                (a * k@) % r(),
            ),
{
    let x = G1Projective::from(G1Affine::from_compressed_unchecked(&p.bytes).unwrap());
    let y = bls12_381::Scalar::from_bytes(&k.to_bytes()).unwrap();
    G1Point { bytes: G1Affine::from(&(x * y)).to_compressed() }
}

/// `G1Projective + G1Projective`, named by `g1_sum`. For multiples of one
/// hash output H (in the prime-order group G1), x·H + y·H = ((x + y) mod r)·H.
#[verifier::external_body]
pub(crate) fn g1_add(a: &G1Point, b: &G1Point) -> (c: G1Point)
    ensures
        c@ == g1_sum(a@, b@),
        forall|msg: Seq<u8>, dst: Seq<u8>, x: nat, y: nat|
            x < r() && y < r() && a@ == #[trigger] g1_scaled(g1_hash(msg, dst), x) && b@
                == #[trigger] g1_scaled(g1_hash(msg, dst), y) ==> c@ == g1_scaled(
                g1_hash(msg, dst),
                (x + y) % r(),
            ),
{
    let x = G1Projective::from(G1Affine::from_compressed_unchecked(&a.bytes).unwrap());
    let y = G1Projective::from(G1Affine::from_compressed_unchecked(&b.bytes).unwrap());
    G1Point { bytes: G1Affine::from(&(x + y)).to_compressed() }
}

/// `G1Projective::identity()`: the point at infinity, which is the 0-fold
/// multiple of any point.
#[verifier::external_body]
pub(crate) fn g1_identity() -> (o: G1Point)
    ensures
        o@ == g1_identity_bytes(),
        forall|msg: Seq<u8>, dst: Seq<u8>| o@ == #[trigger] g1_scaled(g1_hash(msg, dst), 0),
{
    G1Point { bytes: G1Affine::from(&G1Projective::identity()).to_compressed() }
}

/// `-G1Projective`, named by `g1_negated`.
#[verifier::external_body]
pub(crate) fn g1_neg(p: &G1Point) -> (q: G1Point)
    ensures
        q@ == g1_negated(p@),
{
    let x = G1Projective::from(G1Affine::from_compressed_unchecked(&p.bytes).unwrap());
    G1Point { bytes: G1Affine::from(&(-x)).to_compressed() }
}

/// `G2Projective::generator()`: the fixed generator of G2, which is 1·g₂.
#[verifier::external_body]
pub(crate) fn g2_generator() -> (g: G2Point)
    ensures
        g@ == g2_generator_bytes(),
        g@ == g2_scaled(g2_generator_bytes(), 1),
{
    G2Point { bytes: G2Affine::from(&G2Projective::generator()).to_compressed() }
}

/// `G2Projective * Scalar`, named by `g2_scaled`. G2 is cyclic of prime
/// order r with generator g₂, so k·(a·g₂) = (a·k mod r)·g₂, and the
/// multiples y·g₂ for y < r are pairwise distinct, the identity being 0·g₂.
#[verifier::external_body]
pub(crate) fn g2_mul(p: &G2Point, k: &Scalar) -> (q: G2Point)
    ensures
        q@ == g2_scaled(p@, k@),
        forall|a: nat|
            a < r() && p@ == #[trigger] g2_scaled(g2_generator_bytes(), a) ==> q@ == g2_scaled(
                g2_generator_bytes(),
                (a * k@) % r(),
            ),
        p@ == g2_generator_bytes() ==> forall|y: nat|
            y < r() ==> (q@ == #[trigger] g2_scaled(g2_generator_bytes(), y) <==> y == k@),
        p@ == g2_generator_bytes() ==> (q@ == g2_identity_bytes() <==> k@ == 0),
{
    let x = G2Projective::from(G2Affine::from_compressed_unchecked(&p.bytes).unwrap());
    let y = bls12_381::Scalar::from_bytes(&k.to_bytes()).unwrap();
    G2Point { bytes: G2Affine::from(&(x * y)).to_compressed() }
}

/// `pairing(a, b) == pairing(c, d)`, named by `pairing_equal` (Gt has no
/// encoding in the crate, so the comparison is part of the call).
///
/// The pairing is bilinear and non-degenerate on the prime-order groups G1
/// and G2, so with b = g₂ the map P ↦ e(P, g₂) is injective on G1 and
/// e(H₂, s·g₂) = e(s·H₂, g₂). Hence, for a point a = x·H₁ (H₁ a hash output,
/// in G1) and d = s·g₂ (x, s < r), the check holds exactly when a = s·H₂;
/// when H₁ = H₂ is not the identity, exactly when x = s; and when x = s is
/// nonzero and H₁ ≠ H₂ it fails, as s·H₁ = s·H₂ only for H₁ = H₂.
#[verifier::external_body]
pub(crate) fn pairing_check(a: &G1Point, b: &G2Point, c: &G1Point, d: &G2Point) -> (e: bool)
    ensures
        e == pairing_equal(a@, b@, c@, d@),
        forall|m1: Seq<u8>, d1: Seq<u8>, x: nat, m2: Seq<u8>, d2: Seq<u8>, s: nat|
            #![trigger g1_scaled(g1_hash(m1, d1), x), g1_hash(m2, d2), g2_scaled(g2_generator_bytes(), s)]
            x < r() && s < r() && a@ == g1_scaled(g1_hash(m1, d1), x) && b@
                == g2_generator_bytes() && c@ == g1_hash(m2, d2) && d@ == g2_scaled(
                g2_generator_bytes(),
                s,
            ) ==> (e <==> a@ == g1_scaled(g1_hash(m2, d2), s)),
        forall|msg: Seq<u8>, dst: Seq<u8>, x: nat, s: nat|
            #![trigger g1_scaled(g1_hash(msg, dst), x), g2_scaled(g2_generator_bytes(), s)]
            x < r() && s < r() && a@ == g1_scaled(g1_hash(msg, dst), x) && b@
                == g2_generator_bytes() && c@ == g1_hash(msg, dst) && c@ != g1_identity_bytes()
                && d@ == g2_scaled(g2_generator_bytes(), s) ==> (e <==> x == s),
        forall|m1: Seq<u8>, d1: Seq<u8>, m2: Seq<u8>, d2: Seq<u8>, s: nat|
            #![trigger g1_scaled(g1_hash(m1, d1), s), g1_hash(m2, d2)]
            0 < s < r() && a@ == g1_scaled(g1_hash(m1, d1), s) && b@ == g2_generator_bytes()
                && c@ == g1_hash(m2, d2) && g1_hash(m1, d1) != g1_hash(m2, d2) && d@
                == g2_scaled(g2_generator_bytes(), s) ==> !e,
{
    let a = G1Affine::from_compressed_unchecked(&a.bytes).unwrap();
    let b = G2Affine::from_compressed_unchecked(&b.bytes).unwrap();
    let c = G1Affine::from_compressed_unchecked(&c.bytes).unwrap();
    let d = G2Affine::from_compressed_unchecked(&d.bytes).unwrap();
    bls12_381::pairing(&a, &b) == bls12_381::pairing(&c, &d)
}

/// `G2Prepared::from(G2Affine)`: the Miller-loop line coefficients of a G2
/// point, kept with the point they were computed for.
#[verifier::external_body]
pub(crate) fn prepare_g2(p: &G2Point) -> (q: PreparedG2)
    ensures
        q@ == p@,
{
    let x = G2Affine::from_compressed_unchecked(&p.bytes).unwrap();
    PreparedG2 { point: *p, lines: bls12_381::G2Prepared::from(x) }
}

/// `multi_miller_loop(&[(a, p), (c, q)]).final_exponentiation() == Gt::identity()`,
/// named by `pairing_product_is_one`. The final exponentiation of a product
/// of Miller loops is the product of the pairings, and e(−H, Q) = e(H, Q)⁻¹
/// for a hash output H in G1 and Q in G2, so the product e(a, P)·e(−H, Q)
/// is the identity exactly when e(a, P) = e(H, Q); with P = g₂, a = x·H₁
/// (H₁ a hash output) and Q = s·g₂ (x, s < r) that is exactly a = s·H.
#[verifier::external_body]
pub(crate) fn miller_check(a: &G1Point, p: &PreparedG2, c: &G1Point, q: &PreparedG2) -> (e: bool)
    ensures
        e == pairing_product_is_one(a@, p@, c@, q@),
        forall|msg: Seq<u8>, dst: Seq<u8>, s: nat|
            s < r() && c@ == #[trigger] g1_negated(g1_hash(msg, dst)) && q@ == #[trigger] g2_scaled(
                g2_generator_bytes(),
                s,
            ) ==> e == pairing_equal(a@, p@, g1_hash(msg, dst), q@),
        forall|m1: Seq<u8>, d1: Seq<u8>, x: nat, m2: Seq<u8>, d2: Seq<u8>, s: nat|
            #![trigger g1_scaled(g1_hash(m1, d1), x), g1_negated(g1_hash(m2, d2)), g2_scaled(g2_generator_bytes(), s)]
            x < r() && s < r() && a@ == g1_scaled(g1_hash(m1, d1), x) && p@
                == g2_generator_bytes() && c@ == g1_negated(g1_hash(m2, d2)) && q@ == g2_scaled(
                g2_generator_bytes(),
                s,
            ) ==> (e <==> a@ == g1_scaled(g1_hash(m2, d2), s)),
{
    let a = G1Affine::from_compressed_unchecked(&a.bytes).unwrap();
    let c = G1Affine::from_compressed_unchecked(&c.bytes).unwrap();
    let ml = bls12_381::multi_miller_loop(&[(&a, &p.lines), (&c, &q.lines)]);
    ml.final_exponentiation() == bls12_381::Gt::identity()
}

} // verus!
