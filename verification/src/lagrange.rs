//! Lagrange basis coefficients at zero, the weights with which shares (or
//! partial signatures) recombine into the shared secret.

use crate::field::{r, scalar_invert, scalar_mul, scalar_sub, Scalar};
use vstd::arithmetic::div_mod::*;
use vstd::prelude::*;

verus! {

/// The signer identifiers of a slice, as integers.
pub open spec fn index_values(s: Seq<usize>) -> Seq<int> {
    s.map_values(|j: usize| j as int)
}

/// ∏_{j ∈ xs, j ≠ i} (x − j), over the integers.
pub open spec fn prod_except(x: int, i: int, xs: Seq<int>) -> int
    decreases xs.len(),
{
    if xs.len() == 0 {
        1
    } else if xs.last() == i {
        prod_except(x, i, xs.drop_last())
    } else {
        prod_except(x, i, xs.drop_last()) * (x - xs.last())
    }
}

/// ∏_{j ∈ xs, j ≠ i} (0 − j), over the integers.
pub open spec fn lagrange_num(i: int, xs: Seq<int>) -> int {
    prod_except(0, i, xs)
}

/// ∏_{j ∈ xs, j ≠ i} (i − j), over the integers.
pub open spec fn lagrange_den(i: int, xs: Seq<int>) -> int {
    prod_except(i, i, xs)
}

/// `d` has a multiplicative inverse modulo r.
pub open spec fn invertible(d: int) -> bool {
    exists|w: int| #[trigger] ((d * w) % (r() as int)) == 1
}

/// The quotient n / d in the field: the element l < r with l·d ≡ n (mod r).
/// It is unique when d is invertible modulo r.
pub open spec fn field_div(n: int, d: int) -> nat {
    choose|l: nat| l < r() && #[trigger] ((l * d) % (r() as int)) == n % (r() as int)
}

/// λᵢ(0) = ∏_{j ≠ i} (0 − j) / (i − j) in the field, j ranging over `xs`.
pub open spec fn lagrange_at_zero(i: int, xs: Seq<int>) -> nat {
    field_div(lagrange_num(i, xs), lagrange_den(i, xs))
}

/// Two distinct integers below 2^64 differ by a nonzero residue modulo r.
proof fn lemma_small_difference_nonzero(i: int, j: int)
    requires
        0 <= i < 0x1_0000_0000_0000_0000,
        0 <= j < 0x1_0000_0000_0000_0000,
        i != j,
    ensures
        (i - j) % (r() as int) != 0,
{
    let m = r() as int;
    let x = i - j;
    lemma_fundamental_div_mod(x, m);
    if x % m == 0 {
        let q = x / m;
        assert(x == m * q);
        assert(q == 0) by (nonlinear_arith)
            requires
                x == m * q,
                -0x1_0000_0000_0000_0000 < x < 0x1_0000_0000_0000_0000,
                m > 0x1_0000_0000_0000_0000,
        ;
    }
}

/// With an inverse of d at hand, the field quotient n / d is the residue of
/// n·w, and it is the only residue l < r with l·d ≡ n.
pub(crate) proof fn lemma_field_div_by_inverse(n: int, d: int, w: int)
    requires
        (d * w) % (r() as int) == 1,
    ensures
        invertible(d),
        field_div(n, d) == (n * w) % (r() as int),
        ((((n * w) % (r() as int)) * d) % (r() as int)) == n % (r() as int),
{
    let m = r() as int;
    let q = (n * w) % m;
    // q·d ≡ n·(w·d) ≡ n
    lemma_mul_mod_noop_left(n * w, d, m);
    assert((n * w) * d == n * (d * w)) by (nonlinear_arith);
    lemma_mul_mod_noop_right(n, d * w, m);
    assert(n * 1 == n);
    assert((q * d) % m == n % m);
    assert(invertible(d)) by {
        assert(((d * w) % m) == 1);
    }
    // any l with l·d ≡ n equals q
    let l = field_div(n, d);
    assert(q < r() && (q as nat * d) % m == n % m);
    assert(l < r() && (l * d) % m == n % m);
    lemma_mul_mod_noop_left(l as int * d, w, m);
    lemma_mul_mod_noop_left(n, w, m);
    assert((l * d) * w == l * (d * w)) by (nonlinear_arith);
    lemma_mul_mod_noop_right(l as int, d * w, m);
    assert(l * 1 == l);
    lemma_small_mod(l, r());
    assert(l == q);
}

/// Lagrange basis coefficient λᵢ(0) for reconstructing at x = 0, where
/// `indices` are the 1-based signer identifiers:
/// λᵢ(0) = ∏_{j≠i} (0 − j) / (i − j) mod r.
pub fn lagrange_coefficient(i: usize, indices: &[usize]) -> (l: Scalar)
    ensures
        l@ == lagrange_at_zero(i as int, index_values(indices@)),
        (l@ * lagrange_den(i as int, index_values(indices@))) % (r() as int)
            == lagrange_num(i as int, index_values(indices@)) % (r() as int),
        invertible(lagrange_den(i as int, index_values(indices@))),
{
    let ghost xs = index_values(indices@);
    let ghost m = r() as int;
    let xi = Scalar::from_u64(i as u64);
    let zero = Scalar::zero();
    let mut num = Scalar::one();
    let mut den = Scalar::one();
    let mut k: usize = 0;
    proof {
        assert(xs.take(0).len() == 0);
        lemma_small_mod(1, r());
    }
    while k < indices.len()
        invariant
            k <= indices.len(),
            xs == index_values(indices@),
            m == r() as int,
            xi@ == i,
            zero@ == 0,
            num@ == lagrange_num(i as int, xs.take(k as int)) % m,
            den@ == lagrange_den(i as int, xs.take(k as int)) % m,
            den@ != 0,
        decreases indices.len() - k,
    {
        let j = indices[k];
        proof {
            assert(xs.take(k + 1).drop_last() =~= xs.take(k as int));
            assert(xs.take(k + 1).last() == j as int);
        }
        if j != i {
            let xj = Scalar::from_u64(j as u64);
            let f_num = scalar_sub(&zero, &xj);
            let f_den = scalar_sub(&xi, &xj);
            proof {
                lemma_small_difference_nonzero(i as int, j as int);
                lemma_mul_mod_noop_general(
                    lagrange_num(i as int, xs.take(k as int)),
                    0 - j,
                    m,
                );
                lemma_mul_mod_noop_general(
                    lagrange_den(i as int, xs.take(k as int)),
                    i - j,
                    m,
                );
            }
            num = scalar_mul(&num, &f_num);
            den = scalar_mul(&den, &f_den);
        }
        k = k + 1;
    }
    proof {
        assert(xs.take(indices.len() as int) =~= xs);
    }
    let inv = scalar_invert(&den);
    let w = inv.unwrap();
    let l = scalar_mul(&num, &w);
    proof {
        let nn = lagrange_num(i as int, xs);
        let dd = lagrange_den(i as int, xs);
        // w inverts dd as well as its residue
        lemma_mul_mod_noop_left(dd, w@ as int, m);
        lemma_field_div_by_inverse(nn, dd, w@ as int);
        lemma_mul_mod_noop_left(nn, w@ as int, m);
    }
    l
}

/// Lagrange coefficients λᵢ(0) for every identifier of a fixed signing set,
/// in the order of `indices`.
pub fn precompute_lagrange(indices: &[usize]) -> (ls: Vec<Scalar>)
    ensures
        ls.len() == indices.len(),
        forall|k: int|
            0 <= k < indices.len() ==> #[trigger] ls@[k]@ == lagrange_at_zero(
                indices@[k] as int,
                index_values(indices@),
            ),
{
    let mut ls: Vec<Scalar> = Vec::new();
    let mut k: usize = 0;
    while k < indices.len()
        invariant
            k <= indices.len(),
            ls.len() == k,
            forall|q: int|
                0 <= q < k ==> #[trigger] ls@[q]@ == lagrange_at_zero(
                    indices@[q] as int,
                    index_values(indices@),
                ),
        decreases indices.len() - k,
    {
        let l = lagrange_coefficient(indices[k], indices);
        ls.push(l);
        k = k + 1;
    }
    ls
}

} // verus!
