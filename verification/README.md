# threshold_bls

Threshold BLS signatures over BLS12-381 (Boldyreva's (t, n) scheme, min-pk
variant), written in Verus. The library deals Shamir shares of a master
secret, signs with shares, recombines partial signatures by Lagrange
interpolation at zero, and verifies with the pairing check
e(σ, g₂) = e(H(m), pk). Field and curve arithmetic come from the
`bls12_381` crate through a small set of trusted wrappers; everything built
on them is verified.

Layout:

- `src/field.rs` — scalar-field elements (canonical bytes, value below r)
  and the field operations.
- `src/poly.rs` — nonzero random scalars, polynomial evaluation (Horner).
- `src/lagrange.rs` — Lagrange coefficients at zero.
- `src/interp.rs` — the interpolation theorem: t values of a polynomial with
  at most t coefficients recombine to its constant term modulo r.
- `src/group.rs` — G1/G2 points as compressed encodings, hashing to G1,
  scalar multiplication, addition, pairing checks.
- `src/scheme.rs` — key generation, signing, aggregation, verification,
  secret reconstruction and the precomputed variants.
- `src/laws.rs` — properties relating several functions.
- `tests/` — scenario and value tests.
- `app/main.rs` — the benchmark program (timing, tables, output files).
