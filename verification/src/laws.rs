//! Properties of the scheme that relate several of its functions.

use crate::field::{r, Scalar};
use crate::group::G2Point;
use crate::group::{g1_scaled, g2_generator_bytes, g2_scaled};
use crate::lagrange::lagrange_at_zero;
use crate::poly::poly_value;
use crate::scheme::{
    dealt_from, has_share, lagrange_combine, message_point, shares_cover, shares_on_polynomial,
    signed_with_shares, signer_indices, weighted_combine, PartialSignature, ThresholdKey, DST,
};
use crate::group::g1_hash;
use vstd::string::StringSliceAdditionalSpecFns;
use vstd::arithmetic::div_mod::lemma_small_mod;
use vstd::prelude::*;

verus! {

/// The point a message is hashed to is the hash to G1 of the whole message
/// under the scheme's tag: messages that differ anywhere are hashed from
/// different inputs.
pub proof fn law_message_point(msg: Seq<u8>)
    ensures
        message_point(msg) == g1_hash(msg, DST.spec_bytes()),
{
}

/// In a dealt key every share's public key is g₂ raised to that share's own
/// secret, so an honest partial signature with the share verifies under it.
pub proof fn law_dealt_public_keys(tk: ThresholdKey, c: Seq<int>)
    requires
        dealt_from(tk, c),
    ensures
        forall|k: int|
            0 <= k < tk.shares@.len() ==> (#[trigger] tk.shares@[k]).public@ == g2_scaled(
                g2_generator_bytes(),
                tk.shares@[k].secret@,
            ),
{
}

/// Combining with precomputed coefficients equals `aggregate`'s combination
/// when the coefficients are the Lagrange coefficients of the signers, in
/// order (as `precompute_lagrange` makes them from the signer identifiers).
pub proof fn law_precomputed_combination(ps: Seq<PartialSignature>, ls: Seq<Scalar>, m: nat)
    requires
        m <= ps.len(),
        ls.len() == ps.len(),
        forall|k: int|
            0 <= k < ps.len() ==> #[trigger] ls[k]@ == lagrange_at_zero(
                signer_indices(ps)[k],
                signer_indices(ps),
            ),
    ensures
        weighted_combine(ps, ls, m) == lagrange_combine(ps, signer_indices(ps), m),
    decreases m,
{
    if m > 0 {
        law_precomputed_combination(ps, ls, (m - 1) as nat);
        assert(ls[m - 1]@ == lagrange_at_zero(signer_indices(ps)[m - 1], signer_indices(ps)));
    }
}

/// The dealt master secret is the constant term of the polynomial, and the
/// group public key is g₂ raised to it: the key that the reconstructed
/// secret yields.
pub proof fn law_master_secret(tk: ThresholdKey, c: Seq<int>)
    requires
        dealt_from(tk, c),
        tk.t >= 1,
    ensures
        poly_value(c, 0) % (r() as int) == c[0],
        tk.group_public_key@ == g2_scaled(
            g2_generator_bytes(),
            (poly_value(c, 0) % (r() as int)) as nat,
        ),
{
    assert(0 * poly_value(c.skip(1), 0) == 0);
    lemma_small_mod(c[0] as nat, r());
}

/// A secret whose public key (as `pubkey_from_secret` gives it, with the
/// secret determined by the key) is the group public key of a dealt key is
/// the dealt master secret p(0): `plain_sign` under it gives the signature
/// H(m)^{p(0)} into which `aggregate` combines t partial signatures.
pub proof fn law_group_key_determines_secret(
    tk: ThresholdKey,
    c: Seq<int>,
    sk: Scalar,
    pk: G2Point,
)
    requires
        dealt_from(tk, c),
        tk.t >= 1,
        pk == tk.group_public_key,
        forall|y: nat|
            y < r() ==> (pk@ == #[trigger] g2_scaled(g2_generator_bytes(), y) <==> y == sk@),
    ensures
        sk@ == poly_value(c, 0) % (r() as int),
{
    law_master_secret(tk, c);
    assert(pk@ == g2_scaled(g2_generator_bytes(), c[0] as nat));
}

/// The shares of a dealt key all lie on the dealt polynomial.
pub proof fn law_dealt_shares_on_polynomial(tk: ThresholdKey, c: Seq<int>)
    requires
        dealt_from(tk, c),
    ensures
        shares_on_polynomial(tk.shares@, c),
{
    assert forall|j: int| 0 <= j < tk.shares@.len() implies (#[trigger] tk.shares@[j]).secret@
        == poly_value(c, tk.shares@[j].index as int) % (r() as int) by {
        assert(tk.shares@[j].index == j + 1);
    }
}

/// The shares of a dealt key cover every identifier in 1..=n, so
/// `reconstruct_secret` accepts any such identifiers.
pub proof fn law_dealt_shares_cover(tk: ThresholdKey, c: Seq<int>, xs: Seq<int>)
    requires
        dealt_from(tk, c),
        forall|k: int| 0 <= k < xs.len() ==> 1 <= #[trigger] xs[k] <= tk.n,
    ensures
        shares_cover(tk.shares@, xs),
{
    let sh = tk.shares@;
    assert forall|k: int| 0 <= k < xs.len() implies has_share(sh, #[trigger] xs[k]) by {
        let j = xs[k] - 1;
        assert(sh[j].index == j + 1);
    }
}

/// Partial signatures made (as `partial_sign` makes them) on one message
/// with shares of a dealt key are signatures with shares of the dealt
/// polynomial, which `aggregate` combines into H(m)^{p(0)}.
pub proof fn law_partials_of_dealt_shares(
    tk: ThresholdKey,
    c: Seq<int>,
    msg: Seq<u8>,
    ps: Seq<PartialSignature>,
)
    requires
        dealt_from(tk, c),
        forall|k: int|
            0 <= k < ps.len() ==> exists|j: int|
                0 <= j < tk.shares@.len() && #[trigger] ps[k].index == (#[trigger] tk.shares@[j]).index
                    && ps[k].sig@ == g1_scaled(g1_hash(msg, DST.spec_bytes()), tk.shares@[j].secret@),
    ensures
        signed_with_shares(ps, msg, c),
{
    assert forall|k: int| 0 <= k < ps.len() implies (#[trigger] ps[k]).sig@ == g1_scaled(
        g1_hash(msg, DST.spec_bytes()),
        (poly_value(c, ps[k].index as int) % (r() as int)) as nat,
    ) by {
        let j = choose|j: int|
            0 <= j < tk.shares@.len() && #[trigger] ps[k].index == (#[trigger] tk.shares@[j]).index
                && ps[k].sig@ == g1_scaled(g1_hash(msg, DST.spec_bytes()), tk.shares@[j].secret@);
        assert(tk.shares@[j].index == j + 1);
    }
}

} // verus!
