//! Elements of the BLS12-381 scalar field, held as canonical little-endian
//! bytes, with the field operations of `bls12_381::Scalar`.
//!
//! The operations decode their operands with `bls12_381::Scalar::from_bytes`,
//! which accepts exactly the canonical encodings (values below r); the type
//! invariant of `Scalar` keeps every value canonical, so decoding succeeds.

use vstd::prelude::*;

verus! {

/// The order r of the scalar field (and of the groups G1, G2, Gt).
pub open spec fn r() -> nat {
    0x73eda753299d7d483339d80809a1d80553bda402fffe5bfeffffffff00000001nat
}

/// The integer that a little-endian byte string encodes.
pub open spec fn le_value(s: Seq<u8>) -> nat
    decreases s.len(),
{
    if s.len() == 0 {
        0
    } else {
        s[0] as nat + 256 * le_value(s.skip(1))
    }
}

/// An element of the scalar field, stored as its canonical 32-byte
/// little-endian encoding (the value is below r).
#[derive(Clone, Copy, Debug, PartialEq, Eq)]
pub struct Scalar {
    bytes: [u8; 32],
}

impl View for Scalar {
    type V = nat;

    /// The field element as an integer in [0, r).
    closed spec fn view(&self) -> nat {
        le_value(self.bytes@)
    }
}

impl Scalar {
    /// Every `Scalar` is canonical: its value is below r.
    #[verifier::type_invariant]
    pub open spec fn canonical(self) -> bool {
        self@ < r()
    }

    /// The additive identity.
    pub fn zero() -> (z: Scalar)
        ensures
            z@ == 0,
    {
        scalar_from_u64(0)
    }

    /// The multiplicative identity.
    pub fn one() -> (o: Scalar)
        ensures
            o@ == 1,
    {
        scalar_from_u64(1)
    }

    /// The field element with the given integer value.
    pub fn from_u64(x: u64) -> (s: Scalar)
        ensures
            s@ == x,
    {
        scalar_from_u64(x)
    }

    /// The canonical little-endian encoding.
    pub fn to_bytes(&self) -> (b: [u8; 32])
        ensures
            le_value(b@) == self@,
    {
        self.bytes
    }

    /// Whether this is the zero element.
    pub fn is_zero(&self) -> (z: bool)
        ensures
            z == (self@ == 0),
    {
        let mut i: usize = 0;
        while i < 32
            invariant
                i <= 32,
                forall|k: int| 0 <= k < i ==> self.bytes@[k] == 0,
            decreases 32 - i,
        {
            if self.bytes[i] != 0 {
                proof {
                    lemma_le_value_zero(self.bytes@);
                }
                return false;
            }
            i = i + 1;
        }
        proof {
            lemma_le_value_zero(self.bytes@);
        }
        true
    }
}

/// A little-endian byte string encodes zero exactly when every byte is zero.
pub proof fn lemma_le_value_zero(s: Seq<u8>)
    ensures
        le_value(s) == 0 <==> (forall|k: int| 0 <= k < s.len() ==> s[k] == 0),
    decreases s.len(),
{
    if s.len() > 0 {
        lemma_le_value_zero(s.skip(1));
        if le_value(s) == 0 {
            assert forall|k: int| 0 <= k < s.len() implies s[k] == 0 by {
                if k > 0 {
                    assert(s.skip(1)[k - 1] == s[k]);
                }
            }
        }
        if forall|k: int| 0 <= k < s.len() ==> s[k] == 0 {
            assert forall|k: int| 0 <= k < s.skip(1).len() implies s.skip(1)[k] == 0 by {
                assert(s.skip(1)[k] == s[k + 1]);
            }
        }
    }
}

/// `bls12_381::Scalar::mul`: the product in the field, (a * b) mod r.
/// As r is prime the field has no zero divisors, so the product of two
/// nonzero elements is nonzero.
#[verifier::external_body]
pub(crate) fn scalar_mul(a: &Scalar, b: &Scalar) -> (c: Scalar)
    ensures
        c@ == (a@ * b@) % r(),
        a@ != 0 && b@ != 0 ==> c@ != 0,
{
    let x = bls12_381::Scalar::from_bytes(&a.bytes).unwrap();
    let y = bls12_381::Scalar::from_bytes(&b.bytes).unwrap();
    Scalar { bytes: x.mul(&y).to_bytes() }
}

/// `bls12_381::Scalar::add`: the sum in the field, (a + b) mod r.
#[verifier::external_body]
pub(crate) fn scalar_add(a: &Scalar, b: &Scalar) -> (c: Scalar)
    ensures
        c@ == (a@ + b@) % r(),
{
    let x = bls12_381::Scalar::from_bytes(&a.bytes).unwrap();
    let y = bls12_381::Scalar::from_bytes(&b.bytes).unwrap();
    Scalar { bytes: x.add(&y).to_bytes() }
}

/// `bls12_381::Scalar::sub`: the difference in the field, (a - b) mod r.
#[verifier::external_body]
pub(crate) fn scalar_sub(a: &Scalar, b: &Scalar) -> (c: Scalar)
    ensures
        c@ == (a@ - b@) % (r() as int),
{
    let x = bls12_381::Scalar::from_bytes(&a.bytes).unwrap();
    let y = bls12_381::Scalar::from_bytes(&b.bytes).unwrap();
    Scalar { bytes: x.sub(&y).to_bytes() }
}

/// `bls12_381::Scalar::invert`: the multiplicative inverse, failing exactly
/// when the element is zero.
#[verifier::external_body]
pub(crate) fn scalar_invert(a: &Scalar) -> (w: Option<Scalar>)
    ensures
        w is None <==> a@ == 0,
        w matches Some(v) ==> (a@ * v@) % r() == 1,
{
    let x = bls12_381::Scalar::from_bytes(&a.bytes).unwrap();
    Option::<bls12_381::Scalar>::from(x.invert()).map(|v| Scalar { bytes: v.to_bytes() })
}

/// `From<u64> for bls12_381::Scalar`: the field element with the given
/// integer value (every u64 is below r).
#[verifier::external_body]
pub(crate) fn scalar_from_u64(x: u64) -> (c: Scalar)
    ensures
        c@ == x,
{
    Scalar { bytes: bls12_381::Scalar::from(x).to_bytes() }
}

/// `ff::Field::random` for `bls12_381::Scalar`, drawing from the operating
/// system's generator (`rand::rngs::OsRng`). The outcome is a field element
/// chosen at random; nothing else is known of it.
#[verifier::external_body]
pub(crate) fn scalar_random() -> (c: Scalar) {
    let x = <bls12_381::Scalar as ff::Field>::random(&mut rand::rngs::OsRng);
    Scalar { bytes: x.to_bytes() }
}

} // verus!
