//! Threshold BLS signatures over BLS12-381: Shamir sharing of a master
//! secret in the scalar field, Lagrange recombination at zero, and BLS
//! signing and verification (min-pk variant: public keys in G2, message
//! hashes and signatures in G1), with the field and curve arithmetic taken
//! from the `bls12_381` crate.

pub mod field;
pub mod group;
pub mod interp;
pub mod lagrange;
pub mod laws;
pub mod poly;
pub mod scheme;

pub use field::Scalar;
pub use group::{G1Point, G2Point, PreparedG2};
pub use lagrange::{lagrange_coefficient, precompute_lagrange};
pub use poly::{poly_eval, rand_scalar};
pub use scheme::{
    aggregate, aggregate_precomp, deal_shares, hash_to_g1, keygen_threshold, partial_sign, plain_keygen,
    plain_sign, precompute_g2, pubkey_from_secret, reconstruct_secret, verify, verify_partial,
    verify_precomp, KeyShare, PartialSignature, ThresholdKey, DST,
};
