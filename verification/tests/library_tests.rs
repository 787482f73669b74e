//! Tests of the field, polynomial, Lagrange and group layers on fixed values.

use threshold_bls::{
    aggregate, aggregate_precomp, deal_shares, hash_to_g1, keygen_threshold, lagrange_coefficient,
    partial_sign, plain_keygen, plain_sign, poly_eval, precompute_g2, precompute_lagrange,
    pubkey_from_secret, rand_scalar, reconstruct_secret, verify, verify_partial, verify_precomp,
    KeyShare, PartialSignature, Scalar,
};

const MSG: &[u8] = b"fixed test message";

const R_MINUS_3: [u8; 32] = [
    254, 255, 255, 255, 254, 255, 255, 255, 254, 91, 254, 255, 2, 164, 189, 83, 5, 216, 161, 9, 8,
    216, 57, 51, 72, 125, 157, 41, 83, 167, 237, 115,
];

const G2_GENERATOR: [u8; 96] = [0x93, 0xe0, 0x2b, 0x60, 0x52, 0x71, 0x9f, 0x60, 0x7d, 0xac, 0xd3, 0xa0, 0x88, 0x27, 0x4f, 0x65, 0x59, 0x6b, 0xd0, 0xd0, 0x99, 0x20, 0xb6, 0x1a, 0xb5, 0xda, 0x61, 0xbb, 0xdc, 0x7f, 0x50, 0x49, 0x33, 0x4c, 0xf1, 0x12, 0x13, 0x94, 0x5d, 0x57, 0xe5, 0xac, 0x7d, 0x05, 0x5d, 0x04, 0x2b, 0x7e, 0x02, 0x4a, 0xa2, 0xb2, 0xf0, 0x8f, 0x0a, 0x91, 0x26, 0x08, 0x05, 0x27, 0x2d, 0xc5, 0x10, 0x51, 0xc6, 0xe4, 0x7a, 0xd4, 0xfa, 0x40, 0x3b, 0x02, 0xb4, 0x51, 0x0b, 0x64, 0x7a, 0xe3, 0xd1, 0x77, 0x0b, 0xac, 0x03, 0x26, 0xa8, 0x05, 0xbb, 0xef, 0xd4, 0x80, 0x56, 0xc8, 0xc1, 0x21, 0xbd, 0xb8];

fn s(x: u64) -> Scalar {
    Scalar::from_u64(x)
}

fn share(index: usize, secret: Scalar) -> KeyShare {
    KeyShare { index, secret, public: pubkey_from_secret(secret) }
}

#[test]
fn scalar_constants_encode_canonically() {
    let mut one = [0u8; 32];
    one[0] = 1;
    assert_eq!(Scalar::zero().to_bytes(), [0u8; 32]);
    assert_eq!(Scalar::one().to_bytes(), one);
    let mut v = [0u8; 32];
    v[0] = 0x34;
    v[1] = 0x12;
    assert_eq!(s(0x1234).to_bytes(), v);
    assert!(Scalar::zero().is_zero());
    assert!(!Scalar::one().is_zero());
}

#[test]
fn poly_eval_horner_values() {
    // 1 + 2x + 3x^2 at x = 2 is 17.
    assert_eq!(poly_eval(&[s(1), s(2), s(3)], s(2)), s(17));
    // The empty polynomial is zero; a constant is itself.
    assert_eq!(poly_eval(&[], s(5)), Scalar::zero());
    assert_eq!(poly_eval(&[s(9)], s(5)), s(9));
    // At zero only the constant term remains.
    assert_eq!(poly_eval(&[s(4), s(7), s(11)], Scalar::zero()), s(4));
}

#[test]
fn lagrange_coefficients_of_one_two_three() {
    // λ1 = 6/2 = 3, λ2 = 3/(-1) = -3, λ3 = 2/2 = 1.
    let idx = [1usize, 2, 3];
    assert_eq!(lagrange_coefficient(1, &idx), s(3));
    assert_eq!(lagrange_coefficient(2, &idx).to_bytes(), R_MINUS_3);
    assert_eq!(lagrange_coefficient(3, &idx), Scalar::one());
    let pre = precompute_lagrange(&idx);
    assert_eq!(pre.len(), 3);
    assert_eq!(pre[0], s(3));
    assert_eq!(pre[1].to_bytes(), R_MINUS_3);
    assert_eq!(pre[2], Scalar::one());
}

#[test]
fn lagrange_coefficient_single_signer_is_one() {
    assert_eq!(lagrange_coefficient(4, &[4]), Scalar::one());
    // Identifiers equal to i are skipped, wherever they stand.
    assert_eq!(lagrange_coefficient(2, &[2, 1]), lagrange_coefficient(2, &[1, 2]));
}

#[test]
fn reconstruct_recovers_constant_term() {
    // p(x) = 5 + 7x: p(1) = 12, p(2) = 19, p(3) = 26.
    let shares = vec![share(1, s(12)), share(2, s(19)), share(3, s(26))];
    assert_eq!(reconstruct_secret(&shares, &[1, 2]), s(5));
    assert_eq!(reconstruct_secret(&shares, &[2, 1]), s(5));
    assert_eq!(reconstruct_secret(&shares, &[1, 3]), s(5));
    assert_eq!(reconstruct_secret(&shares, &[1, 2, 3]), s(5));
    // One share of a degree-1 polynomial is not enough.
    assert_eq!(reconstruct_secret(&shares, &[2]), s(19));
}

#[test]
fn reconstruct_uses_first_share_with_identifier() {
    let shares = vec![share(1, s(12)), share(1, s(99)), share(2, s(19))];
    assert_eq!(reconstruct_secret(&shares, &[1, 2]), s(5));
}

#[test]
fn keygen_deals_indices_and_key() {
    let tk = keygen_threshold(2, 4);
    assert_eq!(tk.t, 2);
    assert_eq!(tk.n, 4);
    assert_eq!(tk.shares.len(), 4);
    for (k, sh) in tk.shares.iter().enumerate() {
        assert_eq!(sh.index, k + 1);
        assert_eq!(sh.public, pubkey_from_secret(sh.secret));
    }
    let sk = reconstruct_secret(&tk.shares, &[3, 4]);
    assert!(!sk.is_zero());
    assert_eq!(pubkey_from_secret(sk), tk.group_public_key);
}

#[test]
fn keygen_one_of_one_share_is_master() {
    let tk = keygen_threshold(1, 1);
    assert_eq!(pubkey_from_secret(tk.shares[0].secret), tk.group_public_key);
}

#[test]
fn random_scalars_are_nonzero_and_differ() {
    let a = rand_scalar();
    let b = rand_scalar();
    assert!(!a.is_zero());
    assert!(!b.is_zero());
    assert_ne!(a, b);
}

#[test]
fn generator_encoding() {
    assert_eq!(pubkey_from_secret(Scalar::one()).to_bytes(), G2_GENERATOR);
    let (g2_prep, pk_prep) = precompute_g2(&pubkey_from_secret(s(7)));
    let _ = (g2_prep, pk_prep);
}

#[test]
fn empty_precomputed_combination_is_identity() {
    let mut id = [0u8; 48];
    id[0] = 0xc0;
    assert_eq!(aggregate_precomp(&[], &[]).to_bytes(), id);
}

#[test]
fn scalar_multiples_of_hash() {
    let h = hash_to_g1(MSG);
    assert_eq!(plain_sign(Scalar::one(), MSG), h);
    assert_ne!(plain_sign(s(2), MSG), h);
    assert_ne!(hash_to_g1(b"another message"), h);
    let mut id = [0u8; 48];
    id[0] = 0xc0;
    assert_eq!(plain_sign(Scalar::zero(), MSG).to_bytes(), id);
}

#[test]
fn precomputed_combination_stops_at_shorter() {
    let p1 = PartialSignature { index: 1, sig: plain_sign(s(3), MSG) };
    let p2 = PartialSignature { index: 2, sig: plain_sign(s(4), MSG) };
    // 1·(3H) + 2·(4H) = 11H; the unmatched third weight is ignored.
    let c = aggregate_precomp(&[p1, p2], &[s(1), s(2), s(5)]);
    assert_eq!(c, plain_sign(s(11), MSG));
    let c2 = aggregate_precomp(&[p1, p2], &[s(2)]);
    assert_eq!(c2, plain_sign(s(6), MSG));
}

#[test]
fn aggregate_error_messages() {
    assert_eq!(aggregate(&[]), Err("need at least one partial signature".to_string()));
    let p = PartialSignature { index: 3, sig: plain_sign(s(3), MSG) };
    let q = PartialSignature { index: 1, sig: plain_sign(s(3), MSG) };
    assert_eq!(aggregate(&[q, p, p]), Err("duplicate signer indices".to_string()));
}

#[test]
fn aggregate_single_partial_is_itself() {
    let p = PartialSignature { index: 5, sig: plain_sign(s(8), MSG) };
    assert_eq!(aggregate(&[p]), Ok(p.sig));
}

#[test]
fn aggregate_of_hand_made_shares() {
    // p(x) = 5 + 7x; partials at 2 and 3 combine to 5·H.
    let ps = [
        PartialSignature { index: 2, sig: plain_sign(s(19), MSG) },
        PartialSignature { index: 3, sig: plain_sign(s(26), MSG) },
    ];
    assert_eq!(aggregate(&ps), Ok(plain_sign(s(5), MSG)));
}

#[test]
fn plain_keys_sign_and_verify() {
    let (sk, pk) = plain_keygen();
    assert!(!sk.is_zero());
    assert_eq!(pk, pubkey_from_secret(sk));
    let sig = plain_sign(sk, MSG);
    assert!(verify(&pk, MSG, &sig));
    let (_, other_pk) = plain_keygen();
    assert!(!verify(&other_pk, MSG, &sig));
}

#[test]
fn partial_of_handmade_share_verifies() {
    let sh = share(4, s(1234));
    let p = partial_sign(&sh, MSG);
    assert_eq!(p.index, 4);
    assert!(verify_partial(&sh.public, MSG, &p));
    assert!(!verify_partial(&sh.public, b"other", &p));
}

#[test]
fn precomputed_verify_agrees_with_verify() {
    let pk = pubkey_from_secret(s(77));
    let (g2_prep, pk_prep) = precompute_g2(&pk);
    let good = plain_sign(s(77), MSG);
    let bad = plain_sign(s(78), MSG);
    assert!(verify_precomp(&good, &pk_prep, &g2_prep, MSG));
    assert!(!verify_precomp(&bad, &pk_prep, &g2_prep, MSG));
    assert!(!verify_precomp(&good, &pk_prep, &g2_prep, b"other"));
    assert_eq!(verify(&pk, MSG, &bad), verify_precomp(&bad, &pk_prep, &g2_prep, MSG));
}

#[test]
fn dealing_fixed_polynomial() {
    // p(x) = 5 + 7x dealt to three signers.
    let tk = deal_shares(&[s(5), s(7)], 3);
    assert_eq!(tk.t, 2);
    assert_eq!(tk.n, 3);
    assert_eq!(tk.shares.len(), 3);
    let expect = [12u64, 19, 26];
    for k in 0..3 {
        assert_eq!(tk.shares[k].index, k + 1);
        assert_eq!(tk.shares[k].secret, s(expect[k]));
        assert_eq!(tk.shares[k].public, pubkey_from_secret(s(expect[k])));
    }
    assert_eq!(tk.group_public_key, pubkey_from_secret(s(5)));
    // Any two partial signatures combine to the plain signature under 5.
    let p1 = partial_sign(&tk.shares[0], MSG);
    let p3 = partial_sign(&tk.shares[2], MSG);
    let sig = aggregate(&[p3, p1]).unwrap();
    assert_eq!(sig, plain_sign(s(5), MSG));
    assert!(verify(&tk.group_public_key, MSG, &sig));
}

#[test]
fn zero_secret_gives_g2_identity() {
    let mut id = [0u8; 96];
    id[0] = 0xc0;
    assert_eq!(pubkey_from_secret(Scalar::zero()).to_bytes(), id);
    assert_ne!(pubkey_from_secret(Scalar::one()).to_bytes(), id);
}

#[test]
fn other_exponent_and_other_message_rejected() {
    let pk = pubkey_from_secret(s(9));
    assert!(verify(&pk, MSG, &plain_sign(s(9), MSG)));
    assert!(!verify(&pk, MSG, &plain_sign(s(10), MSG)));
    assert!(!verify(&pk, b"other", &plain_sign(s(9), MSG)));
}

#[test]
fn one_share_too_few_gives_shifted_signature() {
    // p(x) = 20 + 7x + 2x^2; shares at 1 and 3 give p(0) - 2·(0-1)(0-3) = 14.
    let tk = deal_shares(&[s(20), s(7), s(2)], 3);
    assert_eq!(tk.shares[0].secret, s(29));
    assert_eq!(tk.shares[2].secret, s(59));
    let ps = [partial_sign(&tk.shares[0], MSG), partial_sign(&tk.shares[2], MSG)];
    let sig = aggregate(&ps).unwrap();
    assert_eq!(sig, plain_sign(s(14), MSG));
    assert!(!verify(&tk.group_public_key, MSG, &sig));
}
