//! Polynomials over the scalar field: sampling of nonzero coefficients and
//! evaluation by Horner's rule.

use crate::field::{r, scalar_add, scalar_mul, scalar_random, Scalar};
use vstd::arithmetic::div_mod::*;
use vstd::arithmetic::power::pow;
use vstd::prelude::*;

verus! {

/// The integer values of a sequence of field elements.
pub open spec fn scalar_values(s: Seq<Scalar>) -> Seq<int> {
    s.map_values(|x: Scalar| x@ as int)
}

/// The polynomial with coefficients `c` (constant term first) evaluated at
/// `x`, over the integers: c[0] + c[1]·x + c[2]·x² + …
pub open spec fn poly_value(c: Seq<int>, x: int) -> int
    decreases c.len(),
{
    if c.len() == 0 {
        0
    } else {
        c[0] + x * poly_value(c.skip(1), x)
    }
}

/// Σ_{k<m} c[k]·x^k.
pub open spec fn power_sum(c: Seq<int>, x: int, m: nat) -> int
    decreases m,
{
    if m == 0 {
        0
    } else {
        power_sum(c, x, (m - 1) as nat) + c[m - 1] * pow(x, (m - 1) as nat)
    }
}

proof fn lemma_power_sum_shift(c: Seq<int>, x: int, m: nat)
    requires
        m < c.len(),
    ensures
        c[0] + x * power_sum(c.skip(1), x, m) == power_sum(c, x, m + 1),
    decreases m,
{
    reveal(pow);
    let t = c.skip(1);
    if m == 0 {
        assert(pow(x, 0) == 1);
        assert(x * 0 == 0);
        assert(power_sum(c, x, 1) == power_sum(c, x, 0) + c[0] * pow(x, 0));
        assert(c[0] * 1 == c[0]);
    } else {
        assert(power_sum(c, x, m + 1) == power_sum(c, x, m) + c[m as int] * pow(x, m));
        assert(power_sum(t, x, m) == power_sum(t, x, (m - 1) as nat) + t[m - 1] * pow(
            x,
            (m - 1) as nat,
        ));
        lemma_power_sum_shift(c, x, (m - 1) as nat);
        assert(t[m - 1] == c[m as int]);
        let a = power_sum(t, x, (m - 1) as nat);
        let p = pow(x, (m - 1) as nat);
        assert(pow(x, m) == x * p);
        assert(x * (a + t[m - 1] * p) == x * a + c[m as int] * (x * p)) by (nonlinear_arith)
            requires
                t[m - 1] == c[m as int],
        ;
    }
}

/// `poly_value` is the power sum c[0] + c[1]·x + … + c[n−1]·x^(n−1).
pub proof fn lemma_poly_value_power_sum(c: Seq<int>, x: int)
    ensures
        poly_value(c, x) == power_sum(c, x, c.len()),
    decreases c.len(),
{
    if c.len() > 0 {
        lemma_poly_value_power_sum(c.skip(1), x);
        lemma_power_sum_shift(c, x, (c.len() - 1) as nat);
    }
}

/// A uniformly chosen nonzero field element.
///
/// Draws are repeated while they come out zero (probability 1/r each); the
/// number of draws is bounded by `u64::MAX`, and should every one of them be
/// zero the element one is returned.
pub fn rand_scalar() -> (s: Scalar)
    ensures
        s@ != 0,
{
    let mut tries: u64 = 0;
    while tries < u64::MAX
        decreases u64::MAX - tries,
    {
        let s = scalar_random();
        if !s.is_zero() {
            return s;
        }
        tries = tries + 1;
    }
    Scalar::one()
}

/// Evaluates the polynomial `coeffs[0] + coeffs[1]·x + …` at `x` in the
/// field (Horner's rule).
pub fn poly_eval(coeffs: &[Scalar], x: Scalar) -> (v: Scalar)
    ensures
        v@ == poly_value(scalar_values(coeffs@), x@ as int) % (r() as int),
        v@ == power_sum(scalar_values(coeffs@), x@ as int, coeffs.len() as nat) % (r() as int),
{
    let mut acc = Scalar::zero();
    let mut i: usize = coeffs.len();
    while i > 0
        invariant
            i <= coeffs.len(),
            acc@ == poly_value(scalar_values(coeffs@).skip(i as int), x@ as int) % (r() as int),
        decreases i,
    {
        let ghost old_acc = acc@;
        let ghost c = scalar_values(coeffs@);
        let t = scalar_mul(&acc, &x);
        let ci = &coeffs[i - 1];
        proof {
            use_type_invariant(ci);
        }
        acc = scalar_add(&t, ci);
        proof {
            let m = r() as int;
            let tail = poly_value(c.skip(i as int), x@ as int);
            assert(c.skip(i - 1).skip(1) =~= c.skip(i as int));
            assert(c.skip(i - 1)[0] == coeffs@[i - 1]@);
            assert(poly_value(c.skip(i - 1), x@ as int) == coeffs@[i - 1]@ + x@ * tail);
            lemma_mul_mod_noop_left(tail, x@ as int, m);
            lemma_add_mod_noop(x@ * tail, coeffs@[i - 1]@ as int, m);
            lemma_mod_twice(x@ * tail, m);
            lemma_small_mod(coeffs@[i - 1]@, r());
        }
        i = i - 1;
    }
    proof {
        assert(scalar_values(coeffs@).skip(0) =~= scalar_values(coeffs@));
        lemma_poly_value_power_sum(scalar_values(coeffs@), x@ as int);
    }
    acc
}

} // verus!
