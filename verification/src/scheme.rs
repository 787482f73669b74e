//! The (t, n) threshold BLS scheme (min-pk variant): key shares in the
//! scalar field, public keys in G2, message hashes and signatures in G1.
//! A signature σ verifies under a public key pk when e(σ, g₂) = e(H(m), pk).

use crate::field::{r, scalar_add, scalar_mul, Scalar};
use crate::group::{
    g1_add, g1_hash, g1_identity, g1_identity_bytes, g1_mul, g1_neg, g1_negated, g1_scaled, g1_sum,
    g2_generator, g2_generator_bytes, g2_identity_bytes, g2_mul, g2_scaled, hash_to_curve_g1, miller_check,
    pairing_check, pairing_equal, pairing_product_is_one, prepare_g2, G1Point, G2Point, PreparedG2,
};
use crate::interp::{
    lagrange_weighted, lemma_interpolation_at_zero, lemma_interpolation_one_short, prod_all,
};
use crate::lagrange::{
    index_values, invertible, lagrange_at_zero, lagrange_coefficient, lagrange_den,
};
use crate::poly::{poly_eval, poly_value, rand_scalar, scalar_values};
use vstd::arithmetic::div_mod::{lemma_add_mod_noop, lemma_mod_twice};
use vstd::prelude::*;
use vstd::string::StringSliceAdditionalSpecFns;

verus! {

/// Domain-separation tag: min-pk / G1-signature variant (its bytes are the
/// tag that hashing to G1 uses).
pub const DST: &'static str = "BLS_SIG_BLS12381G1_XMD:SHA-256_SSWU_RO_THRESHOLD_REVIEW_";

/// A single signer's key material.
#[derive(Clone, Copy, Debug)]
pub struct KeyShare {
    /// Signer identifier (x-coordinate, 1..=n).
    pub index: usize,
    /// Secret-key share sᵢ ∈ Fᵣ.
    pub secret: Scalar,
    /// Public-key share vkᵢ = g₂^{sᵢ} ∈ G2.
    pub public: G2Point,
}

/// Output of trusted-dealer key generation.
#[derive(Clone, Debug)]
pub struct ThresholdKey {
    pub t: usize,
    pub n: usize,
    /// Group public key pk = g₂^{sk} ∈ G2.
    pub group_public_key: G2Point,
    pub shares: Vec<KeyShare>,
}

/// One signer's contribution to the threshold signature.
#[derive(Clone, Copy, Debug)]
pub struct PartialSignature {
    pub index: usize,
    /// σᵢ = H(m)^{skᵢ} ∈ G1.
    pub sig: G1Point,
}

/// H(m): the hash of a message to G1 under the scheme's tag.
pub open spec fn message_point(msg: Seq<u8>) -> Seq<u8> {
    g1_hash(msg, DST.spec_bytes())
}

/// `tk` is the outcome of dealing the polynomial with coefficients `c`
/// (constant term first): the master secret is the field element c[0], and
/// share k (identifier k + 1) holds c evaluated at k + 1.
pub open spec fn dealt_from(tk: ThresholdKey, c: Seq<int>) -> bool {
    &&& c.len() == tk.t
    &&& 0 <= c[0] < r()
    &&& tk.group_public_key@ == g2_scaled(g2_generator_bytes(), c[0] as nat)
    &&& tk.shares.len() == tk.n
    &&& forall|k: int|
        0 <= k < tk.shares.len() ==> {
            &&& (#[trigger] tk.shares@[k]).index == k + 1
            &&& tk.shares@[k].secret@ == poly_value(c, k + 1) % (r() as int)
            &&& tk.shares@[k].public@ == g2_scaled(g2_generator_bytes(), tk.shares@[k].secret@)
        }
}

/// The signer identifiers of a sequence of partial signatures.
pub open spec fn signer_indices(ps: Seq<PartialSignature>) -> Seq<int> {
    ps.map_values(|p: PartialSignature| p.index as int)
}

/// Σ_{k<m} λ_{xs[k]}(0) · σ_k in G1, summed from the identity in order.
pub open spec fn lagrange_combine(ps: Seq<PartialSignature>, xs: Seq<int>, m: nat) -> Seq<u8>
    decreases m,
{
    if m == 0 {
        g1_identity_bytes()
    } else {
        g1_sum(
            lagrange_combine(ps, xs, (m - 1) as nat),
            g1_scaled(ps[m - 1].sig@, lagrange_at_zero(xs[m - 1], xs)),
        )
    }
}

/// The values p(xs[k]) mod r of the polynomial with coefficients `c`.
pub open spec fn share_values(c: Seq<int>, xs: Seq<int>) -> Seq<int> {
    Seq::new(xs.len(), |k: int| poly_value(c, xs[k]) % (r() as int))
}

/// Every partial signature in `ps` is H(msg)^{p(i)} for its signer
/// identifier i, p being the polynomial with coefficients `c`.
pub open spec fn signed_with_shares(ps: Seq<PartialSignature>, msg: Seq<u8>, c: Seq<int>) -> bool {
    forall|k: int|
        0 <= k < ps.len() ==> (#[trigger] ps[k]).sig@ == g1_scaled(
            g1_hash(msg, DST.spec_bytes()),
            (poly_value(c, ps[k].index as int) % (r() as int)) as nat,
        )
}

/// Σ_{k<m} ls[k] · σ_k in G1 with given weights, summed from the identity.
pub open spec fn weighted_combine(ps: Seq<PartialSignature>, ls: Seq<Scalar>, m: nat) -> Seq<u8>
    decreases m,
{
    if m == 0 {
        g1_identity_bytes()
    } else {
        g1_sum(weighted_combine(ps, ls, (m - 1) as nat), g1_scaled(ps[m - 1].sig@, ls[m - 1]@))
    }
}

/// The position of the first share with identifier i.
pub open spec fn first_share(shares: Seq<KeyShare>, i: int) -> int {
    choose|j: int|
        0 <= j < shares.len() && shares[j].index == i && forall|q: int|
            0 <= q < j ==> shares[q].index != i
}

/// Some share has identifier i.
pub open spec fn has_share(shares: Seq<KeyShare>, i: int) -> bool {
    exists|j: int| 0 <= j < shares.len() && #[trigger] shares[j].index == i
}

/// Every identifier in `xs` belongs to some share.
pub open spec fn shares_cover(shares: Seq<KeyShare>, xs: Seq<int>) -> bool {
    forall|k: int| 0 <= k < xs.len() ==> has_share(shares, #[trigger] xs[k])
}

/// The secrets, as integers, of the first shares with the identifiers `xs`.
pub open spec fn found_secrets(shares: Seq<KeyShare>, xs: Seq<int>) -> Seq<int> {
    Seq::new(xs.len(), |k: int| shares[first_share(shares, xs[k])].secret@ as int)
}

/// Every share holds p(i) mod r for its identifier i, p being the
/// polynomial with coefficients `c`.
pub open spec fn shares_on_polynomial(shares: Seq<KeyShare>, c: Seq<int>) -> bool {
    forall|j: int|
        0 <= j < shares.len() ==> (#[trigger] shares[j]).secret@ == poly_value(
            c,
            shares[j].index as int,
        ) % (r() as int)
}

/// Hash an arbitrary byte string to a point in G1 (IETF SSWU map, RFC 9380).
pub fn hash_to_g1(msg: &[u8]) -> (h: G1Point)
    ensures
        h@ == g1_hash(msg@, DST.spec_bytes()),
{
    hash_to_curve_g1(msg, DST.as_bytes())
}

/// Derive the G2 public key g₂^{sk} from a scalar secret key. The key
/// determines the secret, and only the zero secret gives the identity.
pub fn pubkey_from_secret(sk: Scalar) -> (pk: G2Point)
    ensures
        pk@ == g2_scaled(g2_generator_bytes(), sk@),
        forall|y: nat|
            y < r() ==> (pk@ == #[trigger] g2_scaled(g2_generator_bytes(), y) <==> y == sk@),
        pk@ == g2_identity_bytes() <==> sk@ == 0,
{
    let g2 = g2_generator();
    g2_mul(&g2, &sk)
}

/// A plain (non-threshold) BLS key pair: a random nonzero secret and its
/// public key.
pub fn plain_keygen() -> (kp: (Scalar, G2Point))
    ensures
        kp.0@ != 0,
        kp.1@ == g2_scaled(g2_generator_bytes(), kp.0@),
        kp.1@ != g2_identity_bytes(),
{
    let sk = rand_scalar();
    (sk, pubkey_from_secret(sk))
}

/// A plain BLS signature H(m)^{sk}.
pub fn plain_sign(sk: Scalar, msg: &[u8]) -> (sig: G1Point)
    ensures
        sig@ == g1_scaled(g1_hash(msg@, DST.spec_bytes()), sk@),
{
    let h = hash_to_g1(msg);
    g1_mul(&h, &sk)
}

/// Signer i produces σᵢ = H(m)^{skᵢ}. Non-interactive.
pub fn partial_sign(share: &KeyShare, msg: &[u8]) -> (p: PartialSignature)
    ensures
        p.index == share.index,
        p.sig@ == g1_scaled(g1_hash(msg@, DST.spec_bytes()), share.secret@),
{
    let h = hash_to_g1(msg);
    PartialSignature { index: share.index, sig: g1_mul(&h, &share.secret) }
}

/// Shamir dealing of the polynomial with coefficients `coeffs` (constant
/// term first) to n signers: share i = p(i) for i in 1..=n, with public keys
/// g₂^{p(i)}, and the group public key g₂^{p(0)}; the threshold is the
/// number of coefficients.
pub fn deal_shares(coeffs: &[Scalar], n: usize) -> (tk: ThresholdKey)
    requires
        1 <= coeffs.len() <= n,
    ensures
        tk.t == coeffs.len(),
        tk.n == n,
        dealt_from(tk, scalar_values(coeffs@)),
        coeffs@[0]@ != 0 ==> tk.group_public_key@ != g2_identity_bytes(),
        tk.shares.len() == n,
        tk.group_public_key@ == g2_scaled(g2_generator_bytes(), coeffs@[0]@),
        forall|k: int|
            0 <= k < n ==> {
                &&& (#[trigger] tk.shares@[k]).index == k + 1
                &&& tk.shares@[k].secret@ == poly_value(scalar_values(coeffs@), k + 1) % (
                r() as int)
                &&& tk.shares@[k].public@ == g2_scaled(
                    g2_generator_bytes(),
                    tk.shares@[k].secret@,
                )
            },
{
    let ghost c = scalar_values(coeffs@);
    let master = coeffs[0];
    proof {
        use_type_invariant(&master);
    }
    let g2 = g2_generator();
    let mut shares: Vec<KeyShare> = Vec::new();
    let mut k: usize = 0;
    while k < n
        invariant
            k <= n,
            c == scalar_values(coeffs@),
            g2@ == g2_generator_bytes(),
            shares.len() == k,
            forall|q: int|
                0 <= q < k ==> {
                    &&& (#[trigger] shares@[q]).index == q + 1
                    &&& shares@[q].secret@ == poly_value(c, q + 1) % (r() as int)
                    &&& shares@[q].public@ == g2_scaled(g2_generator_bytes(), shares@[q].secret@)
                },
        decreases n - k,
    {
        let i = k + 1;
        let secret = poly_eval(coeffs, Scalar::from_u64(i as u64));
        let public = g2_mul(&g2, &secret);
        shares.push(KeyShare { index: i, secret, public });
        k = k + 1;
    }
    let group_public_key = g2_mul(&g2, &master);
    let tk = ThresholdKey { t: coeffs.len(), n, group_public_key, shares };
    proof {
        assert(dealt_from(tk, c));
    }
    tk
}

/// (t, n) key generation via Shamir secret sharing of a fresh master secret:
/// t random nonzero coefficients (the constant term being the master
/// secret), dealt to n signers by `deal_shares`.
///
/// This models the output distribution of an ideal distributed key
/// generation; a real deployment would run a DKG protocol so that no single
/// party learns the master secret.
pub fn keygen_threshold(t: usize, n: usize) -> (tk: ThresholdKey)
    requires
        1 <= t <= n,
    ensures
        tk.t == t,
        tk.n == n,
        exists|c: Seq<int>|
            #[trigger] dealt_from(tk, c) && forall|j: int| 0 <= j < c.len() ==> 0 < #[trigger] c[j]
                < r(),
        tk.group_public_key@ != g2_identity_bytes(),
        tk.shares.len() == n,
        forall|k: int|
            0 <= k < n ==> {
                &&& (#[trigger] tk.shares@[k]).index == k + 1
                &&& tk.shares@[k].public@ == g2_scaled(
                    g2_generator_bytes(),
                    tk.shares@[k].secret@,
                )
            },
{
    // Degree-(t−1) polynomial; constant term is the master secret.
    let mut coeffs: Vec<Scalar> = Vec::new();
    let mut j: usize = 0;
    while j < t
        invariant
            j <= t,
            coeffs.len() == j,
            forall|q: int| 0 <= q < j ==> 0 < #[trigger] coeffs@[q]@ < r(),
        decreases t - j,
    {
        let s = rand_scalar();
        proof {
            use_type_invariant(&s);
        }
        coeffs.push(s);
        j = j + 1;
    }
    let tk = deal_shares(&coeffs, n);
    proof {
        let c = scalar_values(coeffs@);
        assert forall|q: int| 0 <= q < c.len() implies 0 < #[trigger] c[q] < r() by {
            assert(c[q] == coeffs@[q]@);
        }
    }
    tk
}

/// Combine partial signatures into the threshold signature σ = H(m)^{sk}
/// by Lagrange interpolation in the exponent: σ = Σᵢ λᵢ(0)·σᵢ.
///
/// Fails when `partials` is empty or holds two partial signatures of the
/// same signer. Any t partial signatures of distinct signers on a message,
/// made with the shares of a polynomial with at most t coefficients,
/// combine to H(m)^{p(0)}: the same signature whichever signers took part.
/// One partial signature too few combines to H(m)^{p(0) − c·∏(−i)}, c being
/// the highest coefficient and i ranging over the signers: a different
/// signature unless c·∏(−i) is 0 modulo r.
pub fn aggregate(partials: &[PartialSignature]) -> (res: Result<G1Point, String>)
    ensures
        match res {
            Ok(sig) => {
                &&& partials.len() > 0
                &&& signer_indices(partials@).no_duplicates()
                &&& sig@ == lagrange_combine(
                    partials@,
                    signer_indices(partials@),
                    partials.len() as nat,
                )
            },
            Err(e) => {
                ||| partials.len() == 0 && e@ == "need at least one partial signature"@
                ||| partials.len() > 0 && !signer_indices(partials@).no_duplicates() && e@
                    == "duplicate signer indices"@
            },
        },
        forall|msg: Seq<u8>, c: Seq<int>|
            #[trigger] signed_with_shares(partials@, msg, c) && partials.len() > 0
                && signer_indices(partials@).no_duplicates() && c.len() <= partials.len()
                ==> (res matches Ok(sig) && sig@ == g1_scaled(
                g1_hash(msg, DST.spec_bytes()),
                (poly_value(c, 0) % (r() as int)) as nat,
            )),
        forall|msg: Seq<u8>, c: Seq<int>|
            #[trigger] signed_with_shares(partials@, msg, c) && partials.len() > 0
                && signer_indices(partials@).no_duplicates() && c.len() == partials.len() + 1
                ==> (res matches Ok(sig) && sig@ == g1_scaled(
                g1_hash(msg, DST.spec_bytes()),
                ((poly_value(c, 0) - c.last() * prod_all(0, signer_indices(partials@))) % (
                r() as int)) as nat,
            )),
{
    if partials.len() == 0 {
        return Err("need at least one partial signature".to_owned());
    }
    let ghost ps = partials@;
    let ghost xs = signer_indices(ps);
    let mut indices: Vec<usize> = Vec::new();
    let mut k: usize = 0;
    while k < partials.len()
        invariant
            k <= partials.len(),
            ps == partials@,
            indices.len() == k,
            forall|q: int| 0 <= q < k ==> #[trigger] indices@[q] == ps[q].index,
        decreases partials.len() - k,
    {
        indices.push(partials[k].index);
        k = k + 1;
    }
    proof {
        assert(index_values(indices@) =~= xs);
    }
    // Duplicate signer identifiers are refused.
    let mut a: usize = 0;
    while a < indices.len()
        invariant
            a <= indices.len(),
            partials.len() > 0,
            xs == signer_indices(partials@),
            index_values(indices@) == xs,
            forall|q: int, w: int| 0 <= q < w < a ==> xs[q] != xs[w],
        decreases indices.len() - a,
    {
        let mut b: usize = 0;
        while b < a
            invariant
                b <= a < indices.len(),
                partials.len() > 0,
                xs == signer_indices(partials@),
                index_values(indices@) == xs,
                forall|q: int| 0 <= q < b ==> xs[q] != xs[a as int],
            decreases a - b,
        {
            if indices[b] == indices[a] {
                proof {
                    assert(xs[b as int] == xs[a as int]);
                    assert(!xs.no_duplicates());
                }
                return Err("duplicate signer indices".to_owned());
            }
            b = b + 1;
        }
        a = a + 1;
    }
    proof {
        assert(xs.no_duplicates()) by {
            assert forall|q: int, w: int|
                0 <= q < xs.len() && 0 <= w < xs.len() && q != w implies xs[q] != xs[w] by {
                if q > w {
                    assert(xs[w] != xs[q]);
                }
            }
        }
    }
    let mut acc = g1_identity();
    let mut k: usize = 0;
    while k < partials.len()
        invariant
            k <= partials.len(),
            ps == partials@,
            xs == signer_indices(ps),
            index_values(indices@) == xs,
            acc@ == lagrange_combine(ps, xs, k as nat),
            forall|q: int| 0 <= q < k ==> invertible(#[trigger] lagrange_den(xs[q], xs)),
            forall|msg: Seq<u8>, c: Seq<int>|
                #[trigger] signed_with_shares(ps, msg, c) ==> acc@ == g1_scaled(
                    g1_hash(msg, DST.spec_bytes()),
                    (lagrange_weighted(xs, share_values(c, xs), k as nat) % (r() as int)) as nat,
                ),
        decreases partials.len() - k,
    {
        let ghost old_acc = acc;
        let l = lagrange_coefficient(partials[k].index, &indices);
        let term = g1_mul(&partials[k].sig, &l);
        acc = g1_add(&acc, &term);
        proof {
            let md = r() as int;
            assert(xs[k as int] == partials[k as int].index);
            assert forall|msg: Seq<u8>, c: Seq<int>| #[trigger]
                signed_with_shares(ps, msg, c) implies acc@ == g1_scaled(
                g1_hash(msg, DST.spec_bytes()),
                (lagrange_weighted(xs, share_values(c, xs), (k + 1) as nat) % md) as nat,
            ) by {
                let h = g1_hash(msg, DST.spec_bytes());
                let vs = share_values(c, xs);
                let v = poly_value(c, xs[k as int]) % md;
                assert(vs[k as int] == v);
                let x = lagrange_weighted(xs, vs, k as nat) % md;
                assert(old_acc@ == g1_scaled(h, x as nat));
                assert(ps[k as int].sig@ == g1_scaled(h, v as nat));
                assert(term@ == g1_scaled(h, ((v as nat) * l@) % r()));
                let y = (v * l@) % md;
                assert(acc@ == g1_scaled(h, ((x + y) % md) as nat));
                lemma_add_mod_noop(lagrange_weighted(xs, vs, k as nat), l@ * v, md);
                assert(l@ * v == v * l@) by (nonlinear_arith);
                lemma_mod_twice(lagrange_weighted(xs, vs, k as nat), md);
                lemma_mod_twice(v * l@, md);
            }
        }
        k = k + 1;
    }
    proof {
        assert forall|msg: Seq<u8>, c: Seq<int>|
            #[trigger] signed_with_shares(partials@, msg, c) && partials.len() > 0
                && c.len() <= partials.len() implies acc@ == g1_scaled(
            g1_hash(msg, DST.spec_bytes()),
            (poly_value(c, 0) % (r() as int)) as nat,
        ) by {
            let vs = share_values(c, xs);
            assert forall|q: int| 0 <= q < xs.len() implies #[trigger] vs[q] % (r() as int)
                == poly_value(c, xs[q]) % (r() as int) by {
                lemma_mod_twice(poly_value(c, xs[q]), r() as int);
            }
            lemma_interpolation_at_zero(c, xs, vs);
        }
        assert forall|msg: Seq<u8>, c: Seq<int>|
            #[trigger] signed_with_shares(partials@, msg, c) && partials.len() > 0 && c.len()
                == partials.len() + 1 implies acc@ == g1_scaled(
            g1_hash(msg, DST.spec_bytes()),
            ((poly_value(c, 0) - c.last() * prod_all(0, xs)) % (r() as int)) as nat,
        ) by {
            let vs = share_values(c, xs);
            assert forall|q: int| 0 <= q < xs.len() implies #[trigger] vs[q] % (r() as int)
                == poly_value(c, xs[q]) % (r() as int) by {
                lemma_mod_twice(poly_value(c, xs[q]), r() as int);
            }
            lemma_interpolation_one_short(c, xs, vs);
        }
    }
    Ok(acc)
}

/// Combine with precomputed Lagrange coefficients (signing set fixed):
/// Σ λₖ·σₖ over the pairs of `partials` and `lambdas`, as far as both go.
pub fn aggregate_precomp(partials: &[PartialSignature], lambdas: &[Scalar]) -> (sig: G1Point)
    ensures
        sig@ == weighted_combine(
            partials@,
            lambdas@,
            if partials.len() <= lambdas.len() {
                partials.len() as nat
            } else {
                lambdas.len() as nat
            },
        ),
{
    let m = if partials.len() <= lambdas.len() {
        partials.len()
    } else {
        lambdas.len()
    };
    let mut acc = g1_identity();
    let mut k: usize = 0;
    while k < m
        invariant
            k <= m,
            m <= partials.len(),
            m <= lambdas.len(),
            acc@ == weighted_combine(partials@, lambdas@, k as nat),
        decreases m - k,
    {
        let term = g1_mul(&partials[k].sig, &lambdas[k]);
        acc = g1_add(&acc, &term);
        k = k + 1;
    }
    acc
}

/// The position of the first share with identifier i (some share has it).
fn find_share(shares: &[KeyShare], i: usize) -> (j: usize)
    requires
        exists|w: int| 0 <= w < shares.len() && #[trigger] shares@[w].index == i,
    ensures
        j == first_share(shares@, i as int),
        0 <= j < shares.len(),
        shares@[j as int].index == i,
{
    let mut j: usize = 0;
    while j < shares.len() && shares[j].index != i
        invariant
            j <= shares.len(),
            exists|w: int| 0 <= w < shares.len() && #[trigger] shares@[w].index == i,
            forall|q: int| 0 <= q < j ==> #[trigger] shares@[q].index != i,
        decreases shares.len() - j,
    {
        j = j + 1;
    }
    proof {
        if j == shares.len() {
            let w = choose|w: int| 0 <= w < shares.len() && #[trigger] shares@[w].index == i;
            assert(shares@[w].index != i);
        }
        let f = first_share(shares@, i as int);
        assert(0 <= f < shares.len() && shares@[f].index == i && forall|q: int|
            0 <= q < f ==> shares@[q].index != i);
        if f < j {
            assert(shares@[f].index != i);
        }
        if j < f {
            assert(shares@[j as int].index != i);
        }
    }
    j
}

/// When some share has identifier i, the first one exists.
proof fn lemma_first_share(shares: Seq<KeyShare>, i: int, j: int)
    requires
        0 <= j <= shares.len(),
        forall|q: int| 0 <= q < j ==> #[trigger] shares[q].index != i,
        exists|w: int| j <= w < shares.len() && #[trigger] shares[w].index == i,
    ensures
        0 <= first_share(shares, i) < shares.len(),
        shares[first_share(shares, i)].index == i,
    decreases shares.len() - j,
{
    if shares[j].index == i {
        assert(0 <= j < shares.len() && shares[j].index == i && forall|q: int|
            0 <= q < j ==> shares[q].index != i);
    } else {
        let w = choose|w: int| j <= w < shares.len() && #[trigger] shares[w].index == i;
        assert(j + 1 <= w);
        lemma_first_share(shares, i, j + 1);
    }
}

/// Shares of a polynomial, recombined at distinct identifiers whose Lagrange
/// denominators are invertible, give back its constant term.
proof fn lemma_reconstruction(shares: Seq<KeyShare>, xs: Seq<int>, c: Seq<int>)
    requires
        shares_cover(shares, xs),
        shares_on_polynomial(shares, c),
        xs.no_duplicates(),
        c.len() <= xs.len(),
        forall|q: int| 0 <= q < xs.len() ==> invertible(#[trigger] lagrange_den(xs[q], xs)),
    ensures
        lagrange_weighted(xs, found_secrets(shares, xs), xs.len()) % (r() as int) == poly_value(
            c,
            0,
        ) % (r() as int),
{
    let md = r() as int;
    let vs = found_secrets(shares, xs);
    assert forall|q: int| 0 <= q < xs.len() implies #[trigger] vs[q] % md == poly_value(
        c,
        xs[q],
    ) % md by {
        let f = first_share(shares, xs[q]);
        assert(exists|w: int| 0 <= w < shares.len() && #[trigger] shares[w].index == xs[q]);
        lemma_first_share(shares, xs[q], 0);
        assert(shares[f].secret@ == poly_value(c, xs[q]) % md);
        lemma_mod_twice(poly_value(c, xs[q]), md);
    }
    lemma_interpolation_at_zero(c, xs, vs);
}

/// Lagrange-interpolate the master secret from secret shares:
/// Σ_{i ∈ indices} sᵢ·λᵢ(0), sᵢ being the secret of the first share with
/// identifier i. With distinct identifiers, at least as many as the
/// polynomial has coefficients, the result is the master secret p(0).
#[verifier::rlimit(40)]
pub fn reconstruct_secret(shares: &[KeyShare], indices: &[usize]) -> (sk: Scalar)
    requires
        shares_cover(shares@, index_values(indices@)),
    ensures
        sk@ == lagrange_weighted(
            index_values(indices@),
            found_secrets(shares@, index_values(indices@)),
            indices.len() as nat,
        ) % (r() as int),
        forall|c: Seq<int>|
            #[trigger] shares_on_polynomial(shares@, c) && index_values(indices@).no_duplicates()
                && c.len() <= indices.len() ==> sk@ == poly_value(c, 0) % (r() as int),
{
    let ghost xs = index_values(indices@);
    let ghost vs = found_secrets(shares@, xs);
    let mut acc = Scalar::zero();
    let mut k: usize = 0;
    while k < indices.len()
        invariant
            k <= indices.len(),
            xs == index_values(indices@),
            vs == found_secrets(shares@, xs),
            shares_cover(shares@, xs),
            acc@ == lagrange_weighted(xs, vs, k as nat) % (r() as int),
            forall|q: int| 0 <= q < k ==> invertible(#[trigger] lagrange_den(xs[q], xs)),
        decreases indices.len() - k,
    {
        let i = indices[k];
        proof {
            assert(xs[k as int] == i);
        }
        let j = find_share(shares, i);
        let share = &shares[j];
        let l = lagrange_coefficient(i, indices);
        let prod = scalar_mul(&share.secret, &l);
        acc = scalar_add(&acc, &prod);
        proof {
            let md = r() as int;
            let v = vs[k as int];
            assert(v == share.secret@);
            lemma_add_mod_noop(lagrange_weighted(xs, vs, k as nat), l@ * v, md);
            assert(l@ * v == v * l@) by (nonlinear_arith);
            lemma_mod_twice(lagrange_weighted(xs, vs, k as nat), md);
            lemma_mod_twice(v * l@, md);
        }
        k = k + 1;
    }
    proof {
        assert forall|c: Seq<int>|
            #[trigger] shares_on_polynomial(shares@, c) && xs.no_duplicates() && c.len()
                <= indices.len() implies acc@ == poly_value(c, 0) % (r() as int) by {
            lemma_reconstruction(shares@, xs, c);
            lemma_mod_twice(lagrange_weighted(xs, vs, indices.len() as nat), r() as int);
        }
    }
    acc
}

/// Precompute the prepared G2 points for fast verification: the generator
/// g₂ and the public key, in that order.
pub fn precompute_g2(pk: &G2Point) -> (prep: (PreparedG2, PreparedG2))
    ensures
        prep.0@ == g2_generator_bytes(),
        prep.1@ == pk@,
{
    let g2 = g2_generator();
    (prepare_g2(&g2), prepare_g2(pk))
}

/// Verify with prepared G2 points through one multi-Miller loop and one
/// final exponentiation: e(σ, g₂)·e(−H(m), pk) =? 1. This decides the
/// equation e(σ, Q) = e(H(m), P) for the prepared points Q (`g2_prep`) and
/// P (`pk_prep`), which is that of `verify` when Q = g₂: with P = s·g₂ it
/// holds exactly when σ = H(m)^s.
pub fn verify_precomp(sig: &G1Point, pk_prep: &PreparedG2, g2_prep: &PreparedG2, msg: &[u8]) -> (ok:
    bool)
    ensures
        ok == pairing_product_is_one(
            sig@,
            g2_prep@,
            g1_negated(g1_hash(msg@, DST.spec_bytes())),
            pk_prep@,
        ),
        ok == pairing_equal(sig@, g2_prep@, g1_hash(msg@, DST.spec_bytes()), pk_prep@),
        forall|s: nat|
            s < r() && g2_prep@ == g2_generator_bytes() && pk_prep@ == #[trigger] g2_scaled(
                g2_generator_bytes(),
                s,
            ) ==> (ok <==> sig@ == g1_scaled(g1_hash(msg@, DST.spec_bytes()), s)),
{
    proof {
        use_type_invariant(pk_prep);
        use_type_invariant(sig);
        let (m1, d1, x) = choose|m: Seq<u8>, d: Seq<u8>, x: nat|
            x < r() && #[trigger] g1_scaled(g1_hash(m, d), x) == sig@;
        assert(g1_scaled(g1_hash(m1, d1), x) == sig@);
    }
    let h = hash_to_g1(msg);
    let h_neg = g1_neg(&h);
    miller_check(sig, g2_prep, &h_neg, pk_prep)
}

/// Verify a (threshold or plain) BLS signature: e(σ, g₂) == e(H(m), pk).
/// Every public key is g₂^s for some s < r, and the check holds exactly
/// when σ = H(m)^s, that is, exactly for `plain_sign(s, m)`. So H(m)^x with
/// x ≠ s is refused when H(m) is not the identity, and a signature H₁^s on
/// a message whose hash H₁ differs from H(m) is refused when s ≠ 0.
pub fn verify(group_public_key: &G2Point, msg: &[u8], sig: &G1Point) -> (ok: bool)
    ensures
        ok == pairing_equal(
            sig@,
            g2_generator_bytes(),
            g1_hash(msg@, DST.spec_bytes()),
            group_public_key@,
        ),
        forall|s: nat|
            s < r() && sig@ == #[trigger] g1_scaled(g1_hash(msg@, DST.spec_bytes()), s)
                && group_public_key@ == g2_scaled(g2_generator_bytes(), s) ==> ok,
        forall|s: nat|
            s < r() && group_public_key@ == #[trigger] g2_scaled(g2_generator_bytes(), s) ==> (ok <==> sig@
                == g1_scaled(g1_hash(msg@, DST.spec_bytes()), s)),
        forall|x: nat, s: nat|
            #![trigger g1_scaled(g1_hash(msg@, DST.spec_bytes()), x), g2_scaled(g2_generator_bytes(), s)]
            x < r() && s < r() && sig@ == g1_scaled(g1_hash(msg@, DST.spec_bytes()), x) && group_public_key@
                == g2_scaled(g2_generator_bytes(), s) && g1_hash(msg@, DST.spec_bytes())
                != g1_identity_bytes() ==> (ok <==> x == s),
        forall|m1: Seq<u8>, d1: Seq<u8>, s: nat|
            #![trigger g1_scaled(g1_hash(m1, d1), s)]
            0 < s < r() && sig@ == g1_scaled(g1_hash(m1, d1), s) && group_public_key@ == g2_scaled(
                g2_generator_bytes(),
                s,
            ) && g1_hash(m1, d1) != g1_hash(msg@, DST.spec_bytes()) ==> !ok,
{
    proof {
        use_type_invariant(sig);
        let (m1, d1, x) = choose|m: Seq<u8>, d: Seq<u8>, x: nat|
            x < r() && #[trigger] g1_scaled(g1_hash(m, d), x) == sig@;
        assert(g1_scaled(g1_hash(m1, d1), x) == sig@);
    }
    let h = hash_to_g1(msg);
    let g2 = g2_generator();
    pairing_check(sig, &g2, &h, group_public_key)
}

/// Check a single partial signature against the signer's public-key share:
/// e(σᵢ, g₂) == e(H(m), vkᵢ). As for `verify`: with vkᵢ = g₂^s the check
/// holds exactly when σᵢ = H(m)^s.
pub fn verify_partial(share_public: &G2Point, msg: &[u8], partial: &PartialSignature) -> (ok: bool)
    ensures
        ok == pairing_equal(
            partial.sig@,
            g2_generator_bytes(),
            g1_hash(msg@, DST.spec_bytes()),
            share_public@,
        ),
        forall|s: nat|
            s < r() && partial.sig@ == #[trigger] g1_scaled(g1_hash(msg@, DST.spec_bytes()), s)
                && share_public@ == g2_scaled(g2_generator_bytes(), s) ==> ok,
        forall|s: nat|
            s < r() && share_public@ == #[trigger] g2_scaled(g2_generator_bytes(), s) ==> (ok <==> partial.sig@
                == g1_scaled(g1_hash(msg@, DST.spec_bytes()), s)),
        forall|x: nat, s: nat|
            #![trigger g1_scaled(g1_hash(msg@, DST.spec_bytes()), x), g2_scaled(g2_generator_bytes(), s)]
            x < r() && s < r() && partial.sig@ == g1_scaled(g1_hash(msg@, DST.spec_bytes()), x) && share_public@
                == g2_scaled(g2_generator_bytes(), s) && g1_hash(msg@, DST.spec_bytes())
                != g1_identity_bytes() ==> (ok <==> x == s),
        forall|m1: Seq<u8>, d1: Seq<u8>, s: nat|
            #![trigger g1_scaled(g1_hash(m1, d1), s)]
            0 < s < r() && partial.sig@ == g1_scaled(g1_hash(m1, d1), s) && share_public@ == g2_scaled(
                g2_generator_bytes(),
                s,
            ) && g1_hash(m1, d1) != g1_hash(msg@, DST.spec_bytes()) ==> !ok,
{
    proof {
        use_type_invariant(&partial.sig);
        let (m1, d1, x) = choose|m: Seq<u8>, d: Seq<u8>, x: nat|
            x < r() && #[trigger] g1_scaled(g1_hash(m, d), x) == partial.sig@;
        assert(g1_scaled(g1_hash(m1, d1), x) == partial.sig@);
    }
    let h = hash_to_g1(msg);
    let g2 = g2_generator();
    pairing_check(&partial.sig, &g2, &h, share_public)
}

} // verus!
