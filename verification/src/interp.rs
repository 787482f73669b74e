//! Lagrange interpolation at zero in the scalar field: for t distinct
//! points and a polynomial with at most t coefficients, the weighted sum
//! Σ λᵢ(0)·p(xᵢ) is p(0) modulo r. Polynomials here are integer coefficient
//! sequences, constant term first, evaluated by `poly_value`.

use crate::field::r;
use crate::lagrange::{
    invertible, lagrange_at_zero, lagrange_den, lagrange_num, lemma_field_div_by_inverse, prod_except,
};
use crate::poly::poly_value;
use vstd::arithmetic::div_mod::*;
use vstd::prelude::*;

verus! {

/// q + c, adding c to the constant term.
spec fn add_const(q: Seq<int>, c: int) -> Seq<int> {
    if q.len() == 0 {
        seq![c]
    } else {
        q.update(0, q[0] + c)
    }
}

/// p · (X − a).
spec fn mul_lin(p: Seq<int>, a: int) -> Seq<int>
    decreases p.len(),
{
    if p.len() == 0 {
        Seq::empty()
    } else {
        seq![-a * p[0]] + add_const(mul_lin(p.skip(1), a), p[0])
    }
}

/// p + q.
spec fn p_add(p: Seq<int>, q: Seq<int>) -> Seq<int>
    decreases p.len() + q.len(),
{
    if p.len() == 0 {
        q
    } else if q.len() == 0 {
        p
    } else {
        seq![p[0] + q[0]] + p_add(p.skip(1), q.skip(1))
    }
}

/// s · p.
spec fn p_scale(s: int, p: Seq<int>) -> Seq<int>
    decreases p.len(),
{
    if p.len() == 0 {
        Seq::empty()
    } else {
        seq![s * p[0]] + p_scale(s, p.skip(1))
    }
}

/// The quotient of p by (X − a) (synthetic division).
spec fn quot_lin(p: Seq<int>, a: int) -> Seq<int>
    decreases p.len(),
{
    if p.len() <= 1 {
        Seq::empty()
    } else {
        seq![poly_value(p.skip(1), a)] + quot_lin(p.skip(1), a)
    }
}

proof fn lemma_cons_skip(a: int, s: Seq<int>)
    ensures
        (seq![a] + s).skip(1) =~= s,
        (seq![a] + s)[0] == a,
        (seq![a] + s).len() == s.len() + 1,
{
}

proof fn lemma_eval_add_const(q: Seq<int>, c: int, x: int)
    ensures
        poly_value(add_const(q, c), x) == poly_value(q, x) + c,
        add_const(q, c).len() == if q.len() == 0 { 1 } else { q.len() },
{
    if q.len() == 0 {
        assert(seq![c].skip(1) =~= Seq::<int>::empty());
        assert(poly_value(Seq::<int>::empty(), x) == 0);
        assert(x * 0 == 0);
    } else {
        let u = q.update(0, q[0] + c);
        assert(u.skip(1) =~= q.skip(1));
        assert(u[0] == q[0] + c);
    }
}

proof fn lemma_eval_mul_lin(p: Seq<int>, a: int, x: int)
    ensures
        poly_value(mul_lin(p, a), x) == (x - a) * poly_value(p, x),
        mul_lin(p, a).len() == if p.len() == 0 { 0 } else { p.len() + 1 },
    decreases p.len(),
{
    if p.len() > 0 {
        let rest = mul_lin(p.skip(1), a);
        lemma_eval_mul_lin(p.skip(1), a, x);
        lemma_eval_add_const(rest, p[0], x);
        lemma_cons_skip(-a * p[0], add_const(rest, p[0]));
        let pt = poly_value(p.skip(1), x);
        assert(-a * p[0] + x * ((x - a) * pt + p[0]) == (x - a) * (p[0] + x * pt))
            by (nonlinear_arith);
    }
}

proof fn lemma_eval_add(p: Seq<int>, q: Seq<int>, x: int)
    ensures
        poly_value(p_add(p, q), x) == poly_value(p, x) + poly_value(q, x),
        p_add(p, q).len() == if p.len() >= q.len() { p.len() } else { q.len() },
    decreases p.len() + q.len(),
{
    if p.len() > 0 && q.len() > 0 {
        lemma_eval_add(p.skip(1), q.skip(1), x);
        lemma_cons_skip(p[0] + q[0], p_add(p.skip(1), q.skip(1)));
        let a = poly_value(p.skip(1), x);
        let b = poly_value(q.skip(1), x);
        assert(x * (a + b) == x * a + x * b) by (nonlinear_arith);
    }
}

proof fn lemma_eval_scale(s: int, p: Seq<int>, x: int)
    ensures
        poly_value(p_scale(s, p), x) == s * poly_value(p, x),
        p_scale(s, p).len() == p.len(),
    decreases p.len(),
{
    if p.len() > 0 {
        lemma_eval_scale(s, p.skip(1), x);
        lemma_cons_skip(s * p[0], p_scale(s, p.skip(1)));
        let a = poly_value(p.skip(1), x);
        assert(s * p[0] + x * (s * a) == s * (p[0] + x * a)) by (nonlinear_arith);
    }
}

/// The remainder theorem: p(x) = (x − a)·(p / (X − a))(x) + p(a).
proof fn lemma_eval_quot_lin(p: Seq<int>, a: int, x: int)
    ensures
        poly_value(p, x) == (x - a) * poly_value(quot_lin(p, a), x) + poly_value(p, a),
        quot_lin(p, a).len() == if p.len() == 0 { 0 } else { p.len() - 1 },
    decreases p.len(),
{
    if p.len() <= 1 {
        assert(poly_value(Seq::<int>::empty(), x) == 0);
        assert(poly_value(Seq::<int>::empty(), a) == 0);
        assert((x - a) * 0 == 0);
        if p.len() == 1 {
            assert(p.skip(1) =~= Seq::<int>::empty());
            assert(x * 0 == 0 && a * 0 == 0);
        }
    } else {
        let t = p.skip(1);
        lemma_eval_quot_lin(t, a, x);
        lemma_cons_skip(poly_value(t, a), quot_lin(t, a));
        let tx = poly_value(t, x);
        let ta = poly_value(t, a);
        let dx = poly_value(quot_lin(t, a), x);
        assert(p[0] + x * tx == (x - a) * (ta + x * dx) + (p[0] + a * ta)) by (nonlinear_arith)
            requires
                tx == (x - a) * dx + ta,
        ;
    }
}

/// Any two distinct positions of `pts` differ by an invertible residue.
pub open spec fn pairwise_invertible(pts: Seq<int>) -> bool {
    forall|k: int, l: int|
        0 <= k < pts.len() && 0 <= l < pts.len() && k != l ==> invertible(
            #[trigger] pts[k] - #[trigger] pts[l],
        )
}

/// A unit cancels: f·y ≡ 0 with f invertible gives y ≡ 0 (mod r).
proof fn lemma_cancel_unit(f: int, y: int, w: int)
    requires
        (f * y) % (r() as int) == 0,
        (f * w) % (r() as int) == 1,
    ensures
        y % (r() as int) == 0,
{
    let m = r() as int;
    lemma_mul_mod_noop_right(y, f * w, m);
    assert(y * 1 == y);
    assert(y * (f * w) == (f * y) * w) by (nonlinear_arith);
    lemma_mul_mod_noop_left(f * y, w, m);
    assert(0 * w == 0);
}

/// A polynomial with at most n coefficients that vanishes modulo r at n
/// points whose differences are all invertible vanishes modulo r at 0.
proof fn lemma_roots_vanish_at_zero(q: Seq<int>, pts: Seq<int>)
    requires
        q.len() <= pts.len(),
        pairwise_invertible(pts),
        forall|k: int| 0 <= k < pts.len() ==> #[trigger] poly_value(q, pts[k]) % (r() as int) == 0,
    ensures
        poly_value(q, 0) % (r() as int) == 0,
    decreases pts.len(),
{
    let m = r() as int;
    if q.len() == 0 {
        assert(poly_value(q, 0) == 0);
    } else {
        let n = pts.len() as int;
        let a = pts[n - 1];
        let q2 = quot_lin(q, a);
        let rest = pts.drop_last();
        lemma_eval_quot_lin(q, a, 0);
        assert(poly_value(q, a) % m == 0);
        assert forall|k: int| 0 <= k < rest.len() implies #[trigger] poly_value(q2, rest[k]) % m
            == 0 by {
            let b = pts[k];
            assert(rest[k] == b);
            lemma_eval_quot_lin(q, a, b);
            assert(poly_value(q, b) % m == 0);
            let y = poly_value(q2, b);
            let z = poly_value(q, a);
            lemma_sub_mod_noop(poly_value(q, b), z, m);
            assert(((b - a) * y) % m == 0);
            assert(invertible(pts[k] - pts[n - 1]));
            let w = choose|w: int| #[trigger] (((b - a) * w) % m) == 1;
            lemma_cancel_unit(b - a, y, w);
        }
        assert forall|k: int, l: int|
            0 <= k < rest.len() && 0 <= l < rest.len() && k != l implies invertible(
            #[trigger] rest[k] - #[trigger] rest[l],
        ) by {
            assert(rest[k] == pts[k] && rest[l] == pts[l]);
            assert(invertible(pts[k] - pts[l]));
        }
        lemma_roots_vanish_at_zero(q2, rest);
        let y0 = poly_value(q2, 0);
        lemma_mul_mod_noop_right(0 - a, y0, m);
        assert((0 - a) * 0 == 0);
        lemma_add_mod_noop((0 - a) * y0, poly_value(q, a), m);
    }
}

/// ∏_{j ∈ xs, j ≠ i} (X − j) as a polynomial.
spec fn basis(i: int, xs: Seq<int>) -> Seq<int>
    decreases xs.len(),
{
    if xs.len() == 0 {
        seq![1]
    } else if xs.last() == i {
        basis(i, xs.drop_last())
    } else {
        mul_lin(basis(i, xs.drop_last()), xs.last())
    }
}

/// The number of entries of `xs` other than `i`.
spec fn count_ne(i: int, xs: Seq<int>) -> nat
    decreases xs.len(),
{
    if xs.len() == 0 {
        0
    } else if xs.last() == i {
        count_ne(i, xs.drop_last())
    } else {
        count_ne(i, xs.drop_last()) + 1
    }
}

proof fn lemma_count_ne(i: int, xs: Seq<int>)
    ensures
        count_ne(i, xs) <= xs.len(),
        xs.contains(i) ==> count_ne(i, xs) < xs.len(),
    decreases xs.len(),
{
    if xs.len() > 0 {
        let d = xs.drop_last();
        lemma_count_ne(i, d);
        if xs.contains(i) && xs.last() != i {
            let k = choose|k: int| 0 <= k < xs.len() && xs[k] == i;
            assert(k < xs.len() - 1);
            assert(d[k] == i);
        }
    }
}

proof fn lemma_eval_basis(i: int, xs: Seq<int>, x: int)
    ensures
        poly_value(basis(i, xs), x) == prod_except(x, i, xs),
        basis(i, xs).len() == 1 + count_ne(i, xs),
    decreases xs.len(),
{
    if xs.len() == 0 {
        assert(seq![1int].skip(1) =~= Seq::<int>::empty());
        assert(poly_value(Seq::<int>::empty(), x) == 0);
        assert(x * 0 == 0);
    } else {
        lemma_eval_basis(i, xs.drop_last(), x);
        if xs.last() != i {
            lemma_eval_mul_lin(basis(i, xs.drop_last()), xs.last(), x);
            assert((x - xs.last()) * prod_except(x, i, xs.drop_last()) == prod_except(
                x,
                i,
                xs.drop_last(),
            ) * (x - xs.last())) by (nonlinear_arith);
        }
    }
}

/// The product vanishes at any other entry of `xs`.
proof fn lemma_prod_except_root(y: int, i: int, xs: Seq<int>)
    requires
        xs.contains(y),
        y != i,
    ensures
        prod_except(y, i, xs) == 0,
    decreases xs.len(),
{
    let d = xs.drop_last();
    if xs.last() == y {
        assert((y - xs.last()) == 0);
        assert(prod_except(y, i, d) * 0 == 0);
    } else {
        let k = choose|k: int| 0 <= k < xs.len() && xs[k] == y;
        assert(d[k] == y);
        lemma_prod_except_root(y, i, d);
        if xs.last() != i {
            assert(0 * (y - xs.last()) == 0);
        }
    }
}

/// Each factor (x − l), l ≠ i an entry of `xs`, divides the product.
proof fn lemma_prod_except_factor(x: int, l: int, i: int, xs: Seq<int>) -> (g: int)
    requires
        xs.contains(l),
        l != i,
    ensures
        prod_except(x, i, xs) == (x - l) * g,
    decreases xs.len(),
{
    let d = xs.drop_last();
    if xs.last() == l {
        assert(prod_except(x, i, xs) == (x - l) * prod_except(x, i, d)) by (nonlinear_arith)
            requires
                prod_except(x, i, xs) == prod_except(x, i, d) * (x - l),
        ;
        prod_except(x, i, d)
    } else {
        let k = choose|k: int| 0 <= k < xs.len() && xs[k] == l;
        assert(d[k] == l);
        let g0 = lemma_prod_except_factor(x, l, i, d);
        if xs.last() == i {
            g0
        } else {
            let f = x - xs.last();
            assert((x - l) * g0 * f == (x - l) * (g0 * f)) by (nonlinear_arith);
            g0 * f
        }
    }
}

/// A divisor of an invertible residue is invertible.
proof fn lemma_invertible_factor(f: int, g: int)
    requires
        invertible(f * g),
    ensures
        invertible(f),
{
    let m = r() as int;
    let w = choose|w: int| #[trigger] (((f * g) * w) % m) == 1;
    assert((f * g) * w == f * (g * w)) by (nonlinear_arith);
    assert(((f * (g * w)) % m) == 1);
}

/// When every Lagrange denominator is invertible, so is every difference of
/// two distinct entries.
proof fn lemma_pairwise_invertible(xs: Seq<int>)
    requires
        xs.no_duplicates(),
        forall|k: int| 0 <= k < xs.len() ==> invertible(#[trigger] lagrange_den(xs[k], xs)),
    ensures
        pairwise_invertible(xs),
{
    assert forall|k: int, l: int|
        0 <= k < xs.len() && 0 <= l < xs.len() && k != l implies invertible(
        #[trigger] xs[k] - #[trigger] xs[l],
    ) by {
        assert(xs.contains(xs[l]));
        assert(invertible(lagrange_den(xs[k], xs)));
        let g = lemma_prod_except_factor(xs[k], xs[l], xs[k], xs);
        lemma_invertible_factor(xs[k] - xs[l], g);
    }
}

/// Σ_{k<m} ss[k] · ∏_{j ≠ xs[k]} (X − j) as a polynomial.
spec fn combo(ss: Seq<int>, xs: Seq<int>, m: nat) -> Seq<int>
    decreases m,
{
    if m == 0 {
        Seq::empty()
    } else {
        p_add(combo(ss, xs, (m - 1) as nat), p_scale(ss[m - 1], basis(xs[m - 1], xs)))
    }
}

/// The value of `combo(ss, xs, m)` at x.
spec fn combo_at(ss: Seq<int>, xs: Seq<int>, m: nat, x: int) -> int
    decreases m,
{
    if m == 0 {
        0
    } else {
        combo_at(ss, xs, (m - 1) as nat, x) + ss[m - 1] * prod_except(x, xs[m - 1], xs)
    }
}

proof fn lemma_eval_combo(ss: Seq<int>, xs: Seq<int>, m: nat, x: int)
    requires
        m <= xs.len(),
    ensures
        poly_value(combo(ss, xs, m), x) == combo_at(ss, xs, m, x),
        combo(ss, xs, m).len() <= xs.len(),
    decreases m,
{
    if m == 0 {
        assert(poly_value(Seq::<int>::empty(), x) == 0);
    } else {
        let k = m - 1;
        lemma_eval_combo(ss, xs, (m - 1) as nat, x);
        let b = basis(xs[k], xs);
        lemma_eval_basis(xs[k], xs, x);
        assert(xs.contains(xs[k]));
        lemma_count_ne(xs[k], xs);
        lemma_eval_scale(ss[k], b, x);
        lemma_eval_add(combo(ss, xs, (m - 1) as nat), p_scale(ss[k], b), x);
    }
}

/// At an entry of `xs` only the term of that entry survives.
proof fn lemma_combo_at_entry(ss: Seq<int>, xs: Seq<int>, m: nat, p: int)
    requires
        xs.no_duplicates(),
        m <= xs.len(),
        0 <= p < xs.len(),
    ensures
        combo_at(ss, xs, m, xs[p]) == if p < m {
            ss[p] * prod_except(xs[p], xs[p], xs)
        } else {
            0
        },
    decreases m,
{
    if m > 0 {
        let k = m - 1;
        lemma_combo_at_entry(ss, xs, (m - 1) as nat, p);
        if k != p {
            assert(xs.contains(xs[p]));
            lemma_prod_except_root(xs[p], xs[k], xs);
            assert(ss[k] * 0 == 0);
        }
    }
}

/// An inverse modulo r of the Lagrange denominator of i (when one exists).
spec fn den_inverse(i: int, xs: Seq<int>) -> int {
    choose|w: int| #[trigger] ((lagrange_den(i, xs) * w) % (r() as int)) == 1
}

/// Σ_{k<m} λ_{xs[k]}(0) · vs[k]: the Lagrange recombination at zero of the
/// values `vs` given at the points `xs`.
pub open spec fn lagrange_weighted(xs: Seq<int>, vs: Seq<int>, m: nat) -> int
    decreases m,
{
    if m == 0 {
        0
    } else {
        lagrange_weighted(xs, vs, (m - 1) as nat) + lagrange_at_zero(xs[m - 1], xs) * vs[m - 1]
    }
}

proof fn lemma_weighted_as_combo(xs: Seq<int>, vs: Seq<int>, ss: Seq<int>, m: nat)
    requires
        m <= xs.len(),
        vs.len() == xs.len(),
        ss.len() == xs.len(),
        forall|k: int|
            0 <= k < xs.len() ==> #[trigger] ss[k] == vs[k] * den_inverse(xs[k], xs),
        forall|k: int| 0 <= k < xs.len() ==> invertible(#[trigger] lagrange_den(xs[k], xs)),
    ensures
        lagrange_weighted(xs, vs, m) % (r() as int) == combo_at(ss, xs, m, 0) % (r() as int),
    decreases m,
{
    let md = r() as int;
    if m > 0 {
        let k = m - 1;
        lemma_weighted_as_combo(xs, vs, ss, (m - 1) as nat);
        let nk = lagrange_num(xs[k], xs);
        let dk = lagrange_den(xs[k], xs);
        assert(invertible(dk));
        let w = den_inverse(xs[k], xs);
        lemma_field_div_by_inverse(nk, dk, w);
        let lam = lagrange_at_zero(xs[k], xs) as int;
        assert(lam == (nk * w) % md);
        lemma_mul_mod_noop_left(nk * w, vs[k], md);
        assert((nk * w) * vs[k] == ss[k] * prod_except(0, xs[k], xs)) by (nonlinear_arith)
            requires
                ss[k] == vs[k] * w,
                nk == prod_except(0, xs[k], xs),
        ;
        let a = lagrange_weighted(xs, vs, (m - 1) as nat);
        let b = combo_at(ss, xs, (m - 1) as nat, 0);
        lemma_add_mod_noop(a, lam * vs[k], md);
        lemma_add_mod_noop(b, ss[k] * prod_except(0, xs[k], xs), md);
    }
}

/// Lagrange interpolation at zero: for distinct points `xs` whose Lagrange
/// denominators are invertible modulo r, and values `vs` of a polynomial `c`
/// with at most `xs.len()` coefficients at those points, the recombination
/// Σ λₖ(0)·vs[k] is c(0) modulo r.
pub proof fn lemma_interpolation_at_zero(c: Seq<int>, xs: Seq<int>, vs: Seq<int>)
    requires
        xs.no_duplicates(),
        c.len() <= xs.len(),
        vs.len() == xs.len(),
        forall|k: int|
            0 <= k < xs.len() ==> #[trigger] vs[k] % (r() as int) == poly_value(c, xs[k]) % (
            r() as int),
        forall|k: int| 0 <= k < xs.len() ==> invertible(#[trigger] lagrange_den(xs[k], xs)),
    ensures
        lagrange_weighted(xs, vs, xs.len()) % (r() as int) == poly_value(c, 0) % (r() as int),
{
    let md = r() as int;
    let n = xs.len();
    let ss = Seq::new(n, |k: int| vs[k] * den_inverse(xs[k], xs));
    let comb = combo(ss, xs, n);
    let neg_c = p_scale(-1, c);
    let q = p_add(comb, neg_c);
    lemma_eval_combo(ss, xs, n, 0);
    lemma_eval_scale(-1, c, 0);
    lemma_eval_add(comb, neg_c, 0);
    lemma_pairwise_invertible(xs);
    assert forall|p: int| 0 <= p < xs.len() implies #[trigger] poly_value(q, xs[p]) % md
        == 0 by {
        let y = xs[p];
        lemma_eval_combo(ss, xs, n, y);
        lemma_eval_scale(-1, c, y);
        lemma_eval_add(comb, neg_c, y);
        lemma_combo_at_entry(ss, xs, n, p);
        let d = lagrange_den(y, xs);
        assert(invertible(d));
        let w = den_inverse(y, xs);
        assert((d * w) % md == 1);
        assert(ss[p] * d == vs[p] * (d * w)) by (nonlinear_arith)
            requires
                ss[p] == vs[p] * w,
        ;
        lemma_mul_mod_noop_right(vs[p], d * w, md);
        assert(vs[p] * 1 == vs[p]);
        let cy = poly_value(c, y);
        lemma_sub_mod_noop(ss[p] * d, cy, md);
        assert(-1 * cy == -cy);
    }
    lemma_roots_vanish_at_zero(q, xs);
    lemma_weighted_as_combo(xs, vs, ss, n);
    let cz = poly_value(c, 0);
    let s0 = combo_at(ss, xs, n, 0);
    assert(-1 * cz == -cz);
    assert((s0 - cz) % md == 0);
    lemma_sub_mod_noop(s0, cz, md);
    lemma_mod_equivalence(s0, cz, md);
}

/// ∏_{j ∈ xs} (x − j), over the integers.
pub open spec fn prod_all(x: int, xs: Seq<int>) -> int
    decreases xs.len(),
{
    if xs.len() == 0 {
        1
    } else {
        prod_all(x, xs.drop_last()) * (x - xs.last())
    }
}

/// ∏_{j ∈ xs} (X − j) as a polynomial.
spec fn vanishing(xs: Seq<int>) -> Seq<int>
    decreases xs.len(),
{
    if xs.len() == 0 {
        seq![1]
    } else {
        mul_lin(vanishing(xs.drop_last()), xs.last())
    }
}

/// The highest coefficient survives multiplication by (X − a).
proof fn lemma_mul_lin_last(p: Seq<int>, a: int)
    requires
        p.len() > 0,
    ensures
        mul_lin(p, a).last() == p.last(),
    decreases p.len(),
{
    let t = p.skip(1);
    let m = mul_lin(t, a);
    lemma_eval_mul_lin(t, a, 0);
    lemma_cons_skip(-a * p[0], add_const(m, p[0]));
    if t.len() == 0 {
        assert(add_const(m, p[0]) =~= seq![p[0]]);
    } else {
        lemma_mul_lin_last(t, a);
        assert(add_const(m, p[0]).last() == m.last());
        assert(t.last() == p.last());
    }
}

proof fn lemma_eval_vanishing(xs: Seq<int>, x: int)
    ensures
        poly_value(vanishing(xs), x) == prod_all(x, xs),
        vanishing(xs).len() == xs.len() + 1,
        vanishing(xs).last() == 1,
    decreases xs.len(),
{
    if xs.len() == 0 {
        assert(seq![1int].skip(1) =~= Seq::<int>::empty());
        assert(poly_value(Seq::<int>::empty(), x) == 0);
        assert(x * 0 == 0);
    } else {
        let v = vanishing(xs.drop_last());
        lemma_eval_vanishing(xs.drop_last(), x);
        lemma_eval_mul_lin(v, xs.last(), x);
        lemma_mul_lin_last(v, xs.last());
        assert((x - xs.last()) * prod_all(x, xs.drop_last()) == prod_all(x, xs.drop_last()) * (x
            - xs.last())) by (nonlinear_arith);
    }
}

/// The product over all entries vanishes at any entry.
proof fn lemma_prod_all_root(y: int, xs: Seq<int>)
    requires
        xs.contains(y),
    ensures
        prod_all(y, xs) == 0,
    decreases xs.len(),
{
    let d = xs.drop_last();
    if xs.last() == y {
        assert(prod_all(y, d) * 0 == 0);
    } else {
        let k = choose|k: int| 0 <= k < xs.len() && xs[k] == y;
        assert(d[k] == y);
        lemma_prod_all_root(y, d);
        assert(0 * (y - xs.last()) == 0);
    }
}

proof fn lemma_add_index(p: Seq<int>, q: Seq<int>, i: int)
    requires
        p.len() == q.len(),
        0 <= i < p.len(),
    ensures
        p_add(p, q)[i] == p[i] + q[i],
    decreases p.len(),
{
    lemma_eval_add(p.skip(1), q.skip(1), 0);
    lemma_cons_skip(p[0] + q[0], p_add(p.skip(1), q.skip(1)));
    if i > 0 {
        lemma_add_index(p.skip(1), q.skip(1), i - 1);
    }
}

proof fn lemma_scale_index(s: int, p: Seq<int>, i: int)
    requires
        0 <= i < p.len(),
    ensures
        p_scale(s, p)[i] == s * p[i],
    decreases p.len(),
{
    lemma_eval_scale(s, p.skip(1), 0);
    lemma_cons_skip(s * p[0], p_scale(s, p.skip(1)));
    if i > 0 {
        lemma_scale_index(s, p.skip(1), i - 1);
    }
}

/// A zero highest coefficient can be dropped.
proof fn lemma_drop_zero_last(q: Seq<int>, x: int)
    requires
        q.len() > 0,
        q.last() == 0,
    ensures
        poly_value(q.drop_last(), x) == poly_value(q, x),
    decreases q.len(),
{
    if q.len() == 1 {
        assert(q.drop_last() =~= Seq::<int>::empty());
        assert(q.skip(1) =~= Seq::<int>::empty());
        assert(poly_value(Seq::<int>::empty(), x) == 0);
        assert(x * 0 == 0);
    } else {
        let t = q.skip(1);
        lemma_drop_zero_last(t, x);
        assert(q.drop_last().skip(1) =~= t.drop_last());
        assert(q.drop_last()[0] == q[0]);
    }
}

/// Lagrange recombination at zero from one point too few: for distinct
/// points `xs` with invertible Lagrange denominators and values `vs` of a
/// polynomial `c` with exactly `xs.len() + 1` coefficients, the recombination
/// Σ λₖ(0)·vs[k] is c(0) − c_top·∏_{j ∈ xs}(0 − j) modulo r, c_top being the
/// highest coefficient.
pub proof fn lemma_interpolation_one_short(c: Seq<int>, xs: Seq<int>, vs: Seq<int>)
    requires
        xs.no_duplicates(),
        c.len() == xs.len() + 1,
        vs.len() == xs.len(),
        forall|k: int|
            0 <= k < xs.len() ==> #[trigger] vs[k] % (r() as int) == poly_value(c, xs[k]) % (
            r() as int),
        forall|k: int| 0 <= k < xs.len() ==> invertible(#[trigger] lagrange_den(xs[k], xs)),
    ensures
        lagrange_weighted(xs, vs, xs.len()) % (r() as int) == (poly_value(c, 0) - c.last()
            * prod_all(0, xs)) % (r() as int),
{
    let v = vanishing(xs);
    let top = c.last();
    let l = p_add(c, p_scale(-top, v));
    lemma_eval_vanishing(xs, 0);
    lemma_eval_scale(-top, v, 0);
    lemma_eval_add(c, p_scale(-top, v), 0);
    let n = xs.len() as int;
    lemma_add_index(c, p_scale(-top, v), n);
    lemma_scale_index(-top, v, n);
    assert(l.last() == 0);
    let l2 = l.drop_last();
    assert forall|x: int| #[trigger] poly_value(l2, x) == poly_value(c, x) - top * prod_all(
        x,
        xs,
    ) by {
        lemma_drop_zero_last(l, x);
        lemma_eval_vanishing(xs, x);
        lemma_eval_scale(-top, v, x);
        lemma_eval_add(c, p_scale(-top, v), x);
        assert(-top * prod_all(x, xs) == -(top * prod_all(x, xs))) by (nonlinear_arith);
    }
    assert forall|k: int| 0 <= k < xs.len() implies #[trigger] vs[k] % (r() as int) == poly_value(
        l2,
        xs[k],
    ) % (r() as int) by {
        assert(xs.contains(xs[k]));
        lemma_prod_all_root(xs[k], xs);
        assert(poly_value(l2, xs[k]) == poly_value(c, xs[k]) - top * prod_all(xs[k], xs));
        assert(top * 0 == 0);
    }
    lemma_interpolation_at_zero(l2, xs, vs);
    assert(poly_value(l2, 0) == poly_value(c, 0) - top * prod_all(0, xs));
}

} // verus!
