//! The laws of the library: the polynomial ring laws, the product rule,
//! the Whitney sum formula, the additivity of the Chern character, the
//! Todd class of a line bundle and the Todd genus of projective spaces.

use crate::bundle::{
    binomial, binomial_row, chern_character_numerator, class_at, graded_classes, graded_prefix_coeff,
    lemma_graded_prefix, pontryagin_classes, sum_polys,
};
use crate::splitting::{todd_factor, todd_roots_product, twelve_pow};
use crate::todd::{
    lemma_todd_graded, newton_partial, power_sums, todd_class_numerator, todd_degree, todd_denominator, todd_falling,
    todd_partial, todd_parts, todd_scale, todd_sum_from,
};
use crate::todd_cp::{cp_coeffs, lemma_cp_graded, lemma_genus_cp};
use crate::poly::{
    coeff, conv_upto, eval_upto, lemma_add_coeff, lemma_coeff_ext, lemma_conv_outside, lemma_conv_past_end,
    lemma_derivative_coeff,
    lemma_mul_coeff, lemma_mul_one, lemma_ops_normalized, lemma_sub_coeff, normalized, poly_add, poly_derivative,
    poly_eval, poly_mul, poly_one, poly_sub,
};
use vstd::prelude::*;

verus! {

// ---------------------------------------------------------------------------
// The polynomial ring.
// ---------------------------------------------------------------------------

/// Addition is commutative: `a + b = b + a`.
pub proof fn law_add_commutative(a: Seq<int>, b: Seq<int>)
    ensures
        poly_add(a, b) == poly_add(b, a),
{
    assert forall|k: int| #[trigger] coeff(poly_add(a, b), k) == coeff(poly_add(b, a), k) by {
        lemma_add_coeff(a, b, k);
        lemma_add_coeff(b, a, k);
    }
    lemma_ops_normalized(a, b, 0);
    lemma_ops_normalized(b, a, 0);
    lemma_coeff_ext(poly_add(a, b), poly_add(b, a));
}

/// Addition is associative: `(a + b) + c = a + (b + c)`.
pub proof fn law_add_associative(a: Seq<int>, b: Seq<int>, c: Seq<int>)
    ensures
        poly_add(poly_add(a, b), c) == poly_add(a, poly_add(b, c)),
{
    let l = poly_add(poly_add(a, b), c);
    let r = poly_add(a, poly_add(b, c));
    assert forall|k: int| #[trigger] coeff(l, k) == coeff(r, k) by {
        lemma_add_coeff(poly_add(a, b), c, k);
        lemma_add_coeff(a, b, k);
        lemma_add_coeff(a, poly_add(b, c), k);
        lemma_add_coeff(b, c, k);
    }
    lemma_ops_normalized(poly_add(a, b), c, 0);
    lemma_ops_normalized(a, poly_add(b, c), 0);
    lemma_coeff_ext(l, r);
}

/// The zero polynomial is neutral for addition: `a + 0 = a`.
pub proof fn law_add_zero(a: Seq<int>)
    requires
        normalized(a),
    ensures
        poly_add(a, Seq::empty()) == a,
{
    assert forall|k: int| #[trigger] coeff(poly_add(a, Seq::empty()), k) == coeff(a, k) by {
        lemma_add_coeff(a, Seq::empty(), k);
    }
    lemma_ops_normalized(a, Seq::empty(), 0);
    lemma_coeff_ext(poly_add(a, Seq::empty()), a);
}

/// Every polynomial cancels itself: `a - a = 0`.
pub proof fn law_sub_self(a: Seq<int>)
    ensures
        poly_sub(a, a) == Seq::<int>::empty(),
{
    assert forall|k: int| #[trigger] coeff(poly_sub(a, a), k) == coeff(Seq::<int>::empty(), k) by {
        lemma_sub_coeff(a, a, k);
    }
    lemma_ops_normalized(a, a, 0);
    lemma_coeff_ext(poly_sub(a, a), Seq::<int>::empty());
}

/// Subtracting and adding back gives the polynomial again: `(a - b) + b = a`.
pub proof fn law_sub_add(a: Seq<int>, b: Seq<int>)
    requires
        normalized(a),
    ensures
        poly_add(poly_sub(a, b), b) == a,
{
    assert forall|k: int| #[trigger] coeff(poly_add(poly_sub(a, b), b), k) == coeff(a, k) by {
        lemma_add_coeff(poly_sub(a, b), b, k);
        lemma_sub_coeff(a, b, k);
    }
    lemma_ops_normalized(poly_sub(a, b), b, 0);
    lemma_coeff_ext(poly_add(poly_sub(a, b), b), a);
}

/// The constant `1` is neutral for multiplication: `1 * a = a * 1 = a`.
pub proof fn law_mul_one(a: Seq<int>)
    requires
        normalized(a),
    ensures
        poly_mul(poly_one(), a) == a,
        poly_mul(a, poly_one()) == a,
{
    assert forall|k: int| #[trigger] coeff(poly_mul(poly_one(), a), k) == coeff(a, k) by {
        lemma_mul_one(a, k);
    }
    assert forall|k: int| #[trigger] coeff(poly_mul(a, poly_one()), k) == coeff(a, k) by {
        lemma_mul_one(a, k);
    }
    lemma_ops_normalized(poly_one(), a, 0);
    lemma_ops_normalized(a, poly_one(), 0);
    lemma_coeff_ext(poly_mul(poly_one(), a), a);
    lemma_coeff_ext(poly_mul(a, poly_one()), a);
}

/// The zero polynomial absorbs multiplication: `0 * a = a * 0 = 0`.
pub proof fn law_mul_zero(a: Seq<int>)
    ensures
        poly_mul(Seq::<int>::empty(), a) == Seq::<int>::empty(),
        poly_mul(a, Seq::<int>::empty()) == Seq::<int>::empty(),
{
}

/// `sum_{lo <= i < hi} a_i * b_{k - i}`.
pub open spec fn conv_range(a: Seq<int>, b: Seq<int>, k: int, lo: int, hi: int) -> int
    decreases hi - lo,
{
    if hi <= lo {
        0
    } else {
        conv_range(a, b, k, lo, hi - 1) + coeff(a, hi - 1) * coeff(b, k - (hi - 1))
    }
}

/// The first `n` terms of a convolution sum are the range `0..n`.
proof fn lemma_conv_range_upto(a: Seq<int>, b: Seq<int>, k: int, n: nat)
    ensures
        conv_upto(a, b, k, n) == conv_range(a, b, k, 0, n as int),
    decreases n,
{
    if n > 0 {
        lemma_conv_range_upto(a, b, k, (n - 1) as nat);
    }
}

/// A convolution range split off at its lowest term.
proof fn lemma_conv_range_bottom(a: Seq<int>, b: Seq<int>, k: int, lo: int, hi: int)
    requires
        lo < hi,
    ensures
        conv_range(a, b, k, lo, hi) == coeff(a, lo) * coeff(b, k - lo) + conv_range(a, b, k, lo + 1, hi),
    decreases hi - lo,
{
    if hi - 1 > lo {
        lemma_conv_range_bottom(a, b, k, lo, hi - 1);
        assert(conv_range(a, b, k, lo + 1, hi) == conv_range(a, b, k, lo + 1, hi - 1) + coeff(a, hi - 1) * coeff(
            b,
            k - (hi - 1),
        ));
    } else {
        assert(conv_range(a, b, k, lo, lo) == 0);
        assert(conv_range(a, b, k, lo + 1, hi) == 0);
    }
}

/// Reading the convolution sum backwards swaps the two factors.
proof fn lemma_conv_range_reverse(a: Seq<int>, b: Seq<int>, k: int, lo: int, hi: int)
    ensures
        conv_range(a, b, k, lo, hi) == conv_range(b, a, k, k - hi + 1, k - lo + 1),
    decreases hi - lo,
{
    if hi > lo {
        lemma_conv_range_reverse(a, b, k, lo, hi - 1);
        lemma_conv_range_bottom(b, a, k, k - hi + 1, k - lo + 1);
        let x = coeff(a, hi - 1);
        let y = coeff(b, k - (hi - 1));
        assert(x * y == y * x) by (nonlinear_arith);
    }
}

/// Terms past `k` add nothing to the convolution sum for coefficient `k`.
proof fn lemma_conv_past_k(a: Seq<int>, b: Seq<int>, k: int, n: nat)
    requires
        k >= 0,
        n >= k + 1,
    ensures
        conv_upto(a, b, k, n) == conv_upto(a, b, k, (k + 1) as nat),
    decreases n,
{
    if n > k + 1 {
        lemma_conv_past_k(a, b, k, (n - 1) as nat);
        assert(coeff(b, k - (n - 1)) == 0);
        let x = coeff(a, n - 1);
        assert(x * 0 == 0) by (nonlinear_arith);
    }
}

/// The convolution sum of coefficient `k >= 0` over all of `a`.
proof fn lemma_conv_full(a: Seq<int>, b: Seq<int>, k: int)
    requires
        k >= 0,
    ensures
        conv_upto(a, b, k, a.len()) == conv_range(a, b, k, 0, k + 1),
{
    let n: nat = if a.len() >= k + 1 { a.len() } else { (k + 1) as nat };
    lemma_conv_past_end(a, b, k, n);
    lemma_conv_past_k(a, b, k, n);
    lemma_conv_range_upto(a, b, k, (k + 1) as nat);
}

/// Multiplication is commutative: `a * b = b * a`.
pub proof fn law_mul_commutative(a: Seq<int>, b: Seq<int>)
    ensures
        poly_mul(a, b) == poly_mul(b, a),
{
    assert forall|k: int| #[trigger] coeff(poly_mul(a, b), k) == coeff(poly_mul(b, a), k) by {
        lemma_mul_coeff(a, b, k);
        lemma_mul_coeff(b, a, k);
        if k >= 0 {
            lemma_conv_full(a, b, k);
            lemma_conv_full(b, a, k);
            lemma_conv_range_reverse(a, b, k, 0, k + 1);
        } else {
            crate::poly::lemma_conv_outside(a, b, k, a.len());
            crate::poly::lemma_conv_outside(b, a, k, b.len());
        }
    }
    lemma_ops_normalized(a, b, 0);
    lemma_ops_normalized(b, a, 0);
    lemma_coeff_ext(poly_mul(a, b), poly_mul(b, a));
}

/// Convolution sums are additive in their second factor.
proof fn lemma_conv_distributes(a: Seq<int>, b: Seq<int>, c: Seq<int>, k: int, n: nat)
    ensures
        conv_upto(a, poly_add(b, c), k, n) == conv_upto(a, b, k, n) + conv_upto(a, c, k, n),
    decreases n,
{
    if n > 0 {
        lemma_conv_distributes(a, b, c, k, (n - 1) as nat);
        let j = k - (n - 1);
        lemma_add_coeff(b, c, j);
        let x = coeff(a, n - 1);
        let y = coeff(b, j);
        let z = coeff(c, j);
        assert(x * (y + z) == x * y + x * z) by (nonlinear_arith);
    }
}

/// Multiplication distributes over addition: `a * (b + c) = a * b + a * c`.
pub proof fn law_mul_distributive(a: Seq<int>, b: Seq<int>, c: Seq<int>)
    ensures
        poly_mul(a, poly_add(b, c)) == poly_add(poly_mul(a, b), poly_mul(a, c)),
{
    let l = poly_mul(a, poly_add(b, c));
    let r = poly_add(poly_mul(a, b), poly_mul(a, c));
    assert forall|k: int| #[trigger] coeff(l, k) == coeff(r, k) by {
        lemma_mul_coeff(a, poly_add(b, c), k);
        lemma_mul_coeff(a, b, k);
        lemma_mul_coeff(a, c, k);
        lemma_add_coeff(poly_mul(a, b), poly_mul(a, c), k);
        lemma_conv_distributes(a, b, c, k, a.len());
    }
    lemma_ops_normalized(a, poly_add(b, c), 0);
    lemma_ops_normalized(poly_mul(a, b), poly_mul(a, c), 0);
    lemma_coeff_ext(l, r);
}

/// Multiplication distributes over addition on the right:
/// `(a + b) * c = a * c + b * c`.
pub proof fn law_mul_distributive_right(a: Seq<int>, b: Seq<int>, c: Seq<int>)
    ensures
        poly_mul(poly_add(a, b), c) == poly_add(poly_mul(a, c), poly_mul(b, c)),
{
    law_mul_commutative(poly_add(a, b), c);
    law_mul_distributive(c, a, b);
    law_mul_commutative(c, a);
    law_mul_commutative(c, b);
}

/// `(x t^i)(y t^j) = xy t^(i+j)`.
pub(crate) proof fn lemma_monomial_product(x: int, i: nat, y: int, j: nat)
    ensures
        poly_mul(crate::poly::poly_monomial(x, i), crate::poly::poly_monomial(y, j))
            == crate::poly::poly_monomial(x * y, i + j),
{
    let l = poly_mul(crate::poly::poly_monomial(x, i), crate::poly::poly_monomial(y, j));
    let r = crate::poly::poly_monomial(x * y, i + j);
    assert forall|k: int| #[trigger] coeff(l, k) == coeff(r, k) by {
        lemma_mul_monomials(x, i, y, j, k);
        crate::poly::lemma_monomial_coeff(x * y, i + j, k);
    }
    lemma_ops_normalized(crate::poly::poly_monomial(x, i), crate::poly::poly_monomial(y, j), 0);
    crate::poly::lemma_monomial_coeff(x * y, i + j, 0);
    lemma_coeff_ext(l, r);
}

/// A nonzero polynomial is its lower terms plus its leading monomial.
proof fn lemma_split_leading(a: Seq<int>)
    requires
        normalized(a),
        a.len() > 0,
    ensures
        a == poly_add(crate::poly::trim(a.drop_last()), crate::poly::poly_monomial(a.last(), (a.len() - 1) as nat)),
        normalized(crate::poly::trim(a.drop_last())),
        crate::poly::trim(a.drop_last()).len() < a.len(),
{
    let lower = crate::poly::trim(a.drop_last());
    let top = crate::poly::poly_monomial(a.last(), (a.len() - 1) as nat);
    crate::poly::lemma_trim(a.drop_last());
    assert forall|k: int| #[trigger] coeff(poly_add(lower, top), k) == coeff(a, k) by {
        lemma_add_coeff(lower, top, k);
        crate::poly::lemma_monomial_coeff(a.last(), (a.len() - 1) as nat, k);
        assert(coeff(lower, k) == coeff(a.drop_last(), k));
    }
    lemma_ops_normalized(lower, top, 0);
    lemma_coeff_ext(poly_add(lower, top), a);
}

/// `(m1 m2) c = m1 (m2 c)` for monomials `m1`, `m2`, by induction on `c`.
proof fn lemma_assoc_monomials(x: int, i: nat, y: int, j: nat, c: Seq<int>)
    requires
        normalized(c),
    ensures
        poly_mul(poly_mul(crate::poly::poly_monomial(x, i), crate::poly::poly_monomial(y, j)), c) == poly_mul(
            crate::poly::poly_monomial(x, i),
            poly_mul(crate::poly::poly_monomial(y, j), c),
        ),
    decreases c.len(),
{
    let m1 = crate::poly::poly_monomial(x, i);
    let m2 = crate::poly::poly_monomial(y, j);
    if c.len() > 0 {
        lemma_split_leading(c);
        let lower = crate::poly::trim(c.drop_last());
        let z = c.last();
        let l = (c.len() - 1) as nat;
        let m3 = crate::poly::poly_monomial(z, l);
        lemma_assoc_monomials(x, i, y, j, lower);
        law_mul_distributive(poly_mul(m1, m2), lower, m3);
        law_mul_distributive(m2, lower, m3);
        law_mul_distributive(m1, poly_mul(m2, lower), poly_mul(m2, m3));
        lemma_monomial_product(x, i, y, j);
        lemma_monomial_product(x * y, i + j, z, l);
        lemma_monomial_product(y, j, z, l);
        lemma_monomial_product(x, i, y * z, j + l);
        assert((x * y) * z == x * (y * z)) by (nonlinear_arith);
        assert(i + j + l == i + (j + l));
    }
}

/// `(m b) c = m (b c)` for a monomial `m`, by induction on `b`.
proof fn lemma_assoc_monomial(x: int, i: nat, b: Seq<int>, c: Seq<int>)
    requires
        normalized(b),
        normalized(c),
    ensures
        poly_mul(poly_mul(crate::poly::poly_monomial(x, i), b), c) == poly_mul(
            crate::poly::poly_monomial(x, i),
            poly_mul(b, c),
        ),
    decreases b.len(),
{
    let m1 = crate::poly::poly_monomial(x, i);
    if b.len() > 0 {
        lemma_split_leading(b);
        let lower = crate::poly::trim(b.drop_last());
        let m2 = crate::poly::poly_monomial(b.last(), (b.len() - 1) as nat);
        lemma_assoc_monomial(x, i, lower, c);
        lemma_assoc_monomials(x, i, b.last(), (b.len() - 1) as nat, c);
        law_mul_distributive(m1, lower, m2);
        law_mul_distributive_right(poly_mul(m1, lower), poly_mul(m1, m2), c);
        law_mul_distributive_right(lower, m2, c);
        law_mul_distributive(m1, poly_mul(lower, c), poly_mul(m2, c));
    }
}

/// Multiplication is associative: `(a * b) * c = a * (b * c)`.
pub proof fn law_mul_associative(a: Seq<int>, b: Seq<int>, c: Seq<int>)
    requires
        normalized(a),
        normalized(b),
        normalized(c),
    ensures
        poly_mul(poly_mul(a, b), c) == poly_mul(a, poly_mul(b, c)),
    decreases a.len(),
{
    if a.len() > 0 {
        lemma_split_leading(a);
        let lower = crate::poly::trim(a.drop_last());
        let m1 = crate::poly::poly_monomial(a.last(), (a.len() - 1) as nat);
        law_mul_associative(lower, b, c);
        lemma_assoc_monomial(a.last(), (a.len() - 1) as nat, b, c);
        law_mul_distributive_right(lower, m1, b);
        law_mul_distributive_right(poly_mul(lower, b), poly_mul(m1, b), c);
        law_mul_distributive_right(lower, m1, poly_mul(b, c));
    }
}

/// Terms past the end of `a` add nothing to its value.
proof fn lemma_eval_past_end(a: Seq<int>, t: int, n: nat)
    requires
        n >= a.len(),
    ensures
        eval_upto(a, t, n) == eval_upto(a, t, a.len()),
    decreases n,
{
    if n > a.len() {
        lemma_eval_past_end(a, t, (n - 1) as nat);
        let p = vstd::arithmetic::power::pow(t, (n - 1) as nat);
        assert(0 * p == 0) by (nonlinear_arith);
    }
}

/// The first `n` terms of the value of a sum.
proof fn lemma_eval_add_upto(a: Seq<int>, b: Seq<int>, t: int, n: nat)
    ensures
        eval_upto(poly_add(a, b), t, n) == eval_upto(a, t, n) + eval_upto(b, t, n),
    decreases n,
{
    if n > 0 {
        lemma_eval_add_upto(a, b, t, (n - 1) as nat);
        lemma_add_coeff(a, b, n - 1);
        let p = vstd::arithmetic::power::pow(t, (n - 1) as nat);
        let x = coeff(a, n - 1);
        let y = coeff(b, n - 1);
        assert((x + y) * p == x * p + y * p) by (nonlinear_arith);
    }
}

/// Evaluation respects addition: `(a + b)(t) = a(t) + b(t)`.
pub proof fn law_eval_add(a: Seq<int>, b: Seq<int>, t: int)
    ensures
        poly_eval(poly_add(a, b), t) == poly_eval(a, t) + poly_eval(b, t),
{
    let s = poly_add(a, b);
    let n: nat = a.len() + b.len();
    lemma_ops_normalized(a, b, 0);
    crate::poly::lemma_trim(Seq::new(crate::poly::max_len(a, b), |k: int| coeff(a, k) + coeff(b, k)));
    lemma_eval_past_end(s, t, n);
    lemma_eval_past_end(a, t, n);
    lemma_eval_past_end(b, t, n);
    lemma_eval_add_upto(a, b, t, n);
}

/// The first `n` terms of the value of a monomial.
proof fn lemma_eval_monomial_upto(c: int, d: nat, t: int, n: nat)
    ensures
        eval_upto(crate::poly::poly_monomial(c, d), t, n) == (if n > d {
            c * vstd::arithmetic::power::pow(t, d)
        } else {
            0
        }),
    decreases n,
{
    if n > 0 {
        lemma_eval_monomial_upto(c, d, t, (n - 1) as nat);
        crate::poly::lemma_monomial_coeff(c, d, n - 1);
        let p = vstd::arithmetic::power::pow(t, (n - 1) as nat);
        assert(0 * p == 0) by (nonlinear_arith);
    }
}

/// The value of `c t^d` at `t` is `c t^d`.
proof fn lemma_eval_monomial(c: int, d: nat, t: int)
    ensures
        poly_eval(crate::poly::poly_monomial(c, d), t) == c * vstd::arithmetic::power::pow(t, d),
{
    let m = crate::poly::poly_monomial(c, d);
    lemma_eval_monomial_upto(c, d, t, m.len());
    if c == 0 {
        let p = vstd::arithmetic::power::pow(t, d);
        assert(0 * p == 0) by (nonlinear_arith);
    }
}

/// `(m b)(t) = m(t) b(t)` for a monomial `m`, by induction on `b`.
proof fn lemma_eval_mul_monomial(x: int, i: nat, b: Seq<int>, t: int)
    requires
        normalized(b),
    ensures
        poly_eval(poly_mul(crate::poly::poly_monomial(x, i), b), t) == poly_eval(
            crate::poly::poly_monomial(x, i),
            t,
        ) * poly_eval(b, t),
    decreases b.len(),
{
    let m = crate::poly::poly_monomial(x, i);
    let em = poly_eval(m, t);
    if b.len() == 0 {
        assert(poly_mul(m, b) == Seq::<int>::empty());
        assert(em * 0 == 0) by (nonlinear_arith);
    } else {
        lemma_split_leading(b);
        let lower = crate::poly::trim(b.drop_last());
        let y = b.last();
        let j = (b.len() - 1) as nat;
        let m2 = crate::poly::poly_monomial(y, j);
        lemma_eval_mul_monomial(x, i, lower, t);
        law_mul_distributive(m, lower, m2);
        law_eval_add(poly_mul(m, lower), poly_mul(m, m2), t);
        lemma_monomial_product(x, i, y, j);
        lemma_eval_monomial(x * y, i + j, t);
        lemma_eval_monomial(x, i, t);
        lemma_eval_monomial(y, j, t);
        law_eval_add(lower, m2, t);
        vstd::arithmetic::power::lemma_pow_adds(t, i, j);
        let pi = vstd::arithmetic::power::pow(t, i);
        let pj = vstd::arithmetic::power::pow(t, j);
        let el = poly_eval(lower, t);
        assert((x * y) * (pi * pj) == (x * pi) * (y * pj)) by (nonlinear_arith);
        assert(em * el + em * (y * pj) == em * (el + y * pj)) by (nonlinear_arith);
    }
}

/// Evaluation respects multiplication: `(a * b)(t) = a(t) * b(t)`.
pub proof fn law_eval_mul(a: Seq<int>, b: Seq<int>, t: int)
    requires
        normalized(a),
        normalized(b),
    ensures
        poly_eval(poly_mul(a, b), t) == poly_eval(a, t) * poly_eval(b, t),
    decreases a.len(),
{
    let eb = poly_eval(b, t);
    if a.len() == 0 {
        assert(eb * 0 == 0) by (nonlinear_arith);
    } else {
        lemma_split_leading(a);
        let lower = crate::poly::trim(a.drop_last());
        let m = crate::poly::poly_monomial(a.last(), (a.len() - 1) as nat);
        law_eval_mul(lower, b, t);
        lemma_eval_mul_monomial(a.last(), (a.len() - 1) as nat, b, t);
        law_mul_distributive_right(lower, m, b);
        law_eval_add(poly_mul(lower, b), poly_mul(m, b), t);
        law_eval_add(lower, m, t);
        let el = poly_eval(lower, t);
        let em = poly_eval(m, t);
        assert(el * eb + em * eb == (el + em) * eb) by (nonlinear_arith);
    }
}

/// The derivative respects addition: `(a + b)' = a' + b'`.
pub proof fn law_derivative_add(a: Seq<int>, b: Seq<int>)
    ensures
        poly_derivative(poly_add(a, b)) == poly_add(poly_derivative(a), poly_derivative(b)),
{
    let l = poly_derivative(poly_add(a, b));
    let r = poly_add(poly_derivative(a), poly_derivative(b));
    assert forall|k: int| #[trigger] coeff(l, k) == coeff(r, k) by {
        lemma_derivative_coeff(poly_add(a, b), k);
        lemma_derivative_coeff(a, k);
        lemma_derivative_coeff(b, k);
        lemma_add_coeff(poly_derivative(a), poly_derivative(b), k);
        lemma_add_coeff(a, b, k + 1);
        let x = coeff(a, k + 1);
        let y = coeff(b, k + 1);
        assert((x + y) * (k + 1) == x * (k + 1) + y * (k + 1)) by (nonlinear_arith);
    }
    lemma_ops_normalized(poly_add(a, b), b, 0);
    lemma_ops_normalized(poly_derivative(a), poly_derivative(b), 0);
    lemma_coeff_ext(l, r);
}

// ---------------------------------------------------------------------------
// Characteristic classes.
// ---------------------------------------------------------------------------

/// The convolution sum for coefficient `0` is `a_0 b_0`.
proof fn lemma_conv_at_zero(a: Seq<int>, b: Seq<int>, n: nat)
    requires
        n >= 1,
    ensures
        conv_upto(a, b, 0, n) == coeff(a, 0) * coeff(b, 0),
    decreases n,
{
    if n > 1 {
        lemma_conv_at_zero(a, b, (n - 1) as nat);
        assert(coeff(b, 0 - (n - 1)) == 0);
        let x = coeff(a, n - 1);
        assert(x * 0 == 0) by (nonlinear_arith);
    } else {
        assert(conv_upto(a, b, 0, 0) == 0);
    }
}

/// Convolution sums vanish past the sum of the degrees.
proof fn lemma_conv_degree(a: Seq<int>, b: Seq<int>, da: int, db: int, k: int, n: nat)
    requires
        forall|i: int| i > da ==> #[trigger] coeff(a, i) == 0,
        forall|i: int| i > db ==> #[trigger] coeff(b, i) == 0,
        k > da + db,
    ensures
        conv_upto(a, b, k, n) == 0,
    decreases n,
{
    if n > 0 {
        lemma_conv_degree(a, b, da, db, k, (n - 1) as nat);
        let x = coeff(a, n - 1);
        let y = coeff(b, k - (n - 1));
        if n - 1 > da {
            assert(x == 0);
        } else {
            assert(y == 0);
        }
        assert(x * y == 0) by (nonlinear_arith)
            requires
                x == 0 || y == 0,
        ;
    }
}

/// The constant term of a product, and its vanishing past the sum of the
/// degrees of the factors.
proof fn lemma_mul_ends(a: Seq<int>, b: Seq<int>, da: nat, db: nat)
    requires
        forall|i: int| i > da ==> #[trigger] coeff(a, i) == 0,
        forall|i: int| i > db ==> #[trigger] coeff(b, i) == 0,
    ensures
        coeff(poly_mul(a, b), 0) == coeff(a, 0) * coeff(b, 0),
        forall|k: int| k > da + db ==> #[trigger] coeff(poly_mul(a, b), k) == 0,
{
    lemma_mul_coeff(a, b, 0);
    if a.len() >= 1 {
        lemma_conv_at_zero(a, b, a.len());
    } else {
        assert(coeff(a, 0) == 0);
        assert(coeff(a, 0) * coeff(b, 0) == 0);
    }
    assert forall|k: int| k > da + db implies #[trigger] coeff(poly_mul(a, b), k) == 0 by {
        lemma_mul_coeff(a, b, k);
        lemma_conv_degree(a, b, da as int, db as int, k, a.len());
    }
}

/// The Whitney sum formula `c(E + F) = c(E) c(F)`: when the total Chern
/// classes `ce` and `cf` of two bundles start with `1` and vanish past the
/// ranks `re` and `rf`, the classes that `whitney_sum` reads off their
/// product up to degree `re + rf` add up to the whole product.
pub proof fn law_whitney_sum_formula(ce: Seq<int>, cf: Seq<int>, re: nat, rf: nat)
    requires
        coeff(ce, 0) == 1,
        coeff(cf, 0) == 1,
        forall|k: int| k > re ==> #[trigger] coeff(ce, k) == 0,
        forall|k: int| k > rf ==> #[trigger] coeff(cf, k) == 0,
    ensures
        sum_polys(graded_classes(poly_mul(ce, cf), re + rf)) == poly_mul(ce, cf),
{
    let p = poly_mul(ce, cf);
    let n = re + rf;
    let cs = graded_classes(p, n);
    lemma_mul_ends(ce, cf, re, rf);
    lemma_graded_prefix(p, n, n + 1 as int);
    assert(cs.take(n + 1 as int) =~= cs);
    assert forall|k: int| #[trigger] coeff(sum_polys(cs), k) == coeff(p, k) by {
        assert(coeff(sum_polys(cs.take(n + 1 as int)), k) == graded_prefix_coeff(p, n + 1 as int, k));
    }
    lemma_ops_normalized(sum_polys(cs.drop_last()), cs.last(), 0);
    lemma_ops_normalized(ce, cf, 0);
    lemma_coeff_ext(sum_polys(cs), p);
}

/// The convolution sums of a product with a monomial on the left.
pub(crate) proof fn lemma_conv_monomial(a: int, da: nat, mb: Seq<int>, k: int, n: nat)
    ensures
        conv_upto(crate::poly::poly_monomial(a, da), mb, k, n) == (if n > da { a * coeff(mb, k - da) } else {
            0
        }),
    decreases n,
{
    let ma = crate::poly::poly_monomial(a, da);
    if n > 0 {
        lemma_conv_monomial(a, da, mb, k, (n - 1) as nat);
        crate::poly::lemma_monomial_coeff(a, da, n - 1);
        let y = coeff(mb, k - (n - 1));
        assert(0 * y == 0) by (nonlinear_arith);
    }
}

/// The product of two monomials: `(a t^da)(b t^db) = ab t^(da+db)`.
proof fn lemma_mul_monomials(a: int, da: nat, b: int, db: nat, k: int)
    ensures
        coeff(poly_mul(crate::poly::poly_monomial(a, da), crate::poly::poly_monomial(b, db)), k) == (if k == da
            + db {
            a * b
        } else {
            0
        }),
{
    let ma = crate::poly::poly_monomial(a, da);
    let mb = crate::poly::poly_monomial(b, db);
    lemma_mul_coeff(ma, mb, k);
    lemma_conv_monomial(a, da, mb, k, ma.len());
    crate::poly::lemma_monomial_coeff(b, db, k - da);
    if a == 0 {
        assert(ma.len() == 0);
        assert(a * b == 0);
    } else {
        assert(ma.len() == da + 1);
    }
    let y = coeff(mb, k - da);
    assert(a * 0 == 0) by (nonlinear_arith);
}



// ---------------------------------------------------------------------------
// The product rule.
// ---------------------------------------------------------------------------

/// Multiplying by the monomial `c t^d` shifts the coefficients up by `d`.
proof fn lemma_mul_monomial_coeff(c: int, d: nat, b: Seq<int>, k: int)
    ensures
        coeff(poly_mul(crate::poly::poly_monomial(c, d), b), k) == c * coeff(b, k - d),
{
    let m = crate::poly::poly_monomial(c, d);
    lemma_mul_coeff(m, b, k);
    lemma_conv_monomial(c, d, b, k, m.len());
    if c == 0 {
        assert(m.len() == 0);
        let y = coeff(b, k - d);
        assert(0 * y == 0) by (nonlinear_arith);
    }
}

/// The derivative of `c t^d` is `c d t^(d-1)` (zero for a constant).
proof fn lemma_derivative_monomial(c: int, d: nat)
    ensures
        d >= 1 ==> poly_derivative(crate::poly::poly_monomial(c, d)) == crate::poly::poly_monomial(
            c * d,
            (d - 1) as nat,
        ),
        d == 0 ==> poly_derivative(crate::poly::poly_monomial(c, d)) == Seq::<int>::empty(),
{
    let m = crate::poly::poly_monomial(c, d);
    let dm = poly_derivative(m);
    lemma_ops_normalized(m, m, 0);
    if d >= 1 {
        let r = crate::poly::poly_monomial(c * d, (d - 1) as nat);
        assert forall|k: int| #[trigger] coeff(dm, k) == coeff(r, k) by {
            lemma_derivative_coeff(m, k);
            crate::poly::lemma_monomial_coeff(c, d, k + 1);
            crate::poly::lemma_monomial_coeff(c * d, (d - 1) as nat, k);
            if k >= 0 && k + 1 != d {
                assert(0 * (k + 1) == 0) by (nonlinear_arith);
            }
        }
        crate::poly::lemma_monomial_coeff(c * d, (d - 1) as nat, 0);
        lemma_coeff_ext(dm, r);
    } else {
        assert forall|k: int| #[trigger] coeff(dm, k) == coeff(Seq::<int>::empty(), k) by {
            lemma_derivative_coeff(m, k);
            crate::poly::lemma_monomial_coeff(c, d, k + 1);
            if k >= 0 {
                assert(0 * (k + 1) == 0) by (nonlinear_arith);
            }
        }
        lemma_coeff_ext(dm, Seq::<int>::empty());
    }
}

/// The product rule for a monomial factor, coefficient by coefficient.
proof fn lemma_product_rule_monomial(c: int, d: nat, q: Seq<int>, k: int)
    ensures
        coeff(poly_derivative(poly_mul(crate::poly::poly_monomial(c, d), q)), k) == coeff(
            poly_mul(poly_derivative(crate::poly::poly_monomial(c, d)), q),
            k,
        ) + coeff(poly_mul(crate::poly::poly_monomial(c, d), poly_derivative(q)), k),
{
    let m = crate::poly::poly_monomial(c, d);
    let dq = poly_derivative(q);
    lemma_derivative_coeff(poly_mul(m, q), k);
    lemma_mul_monomial_coeff(c, d, q, k + 1);
    lemma_mul_monomial_coeff(c, d, dq, k);
    lemma_derivative_coeff(q, k - d);
    lemma_derivative_monomial(c, d);
    if k >= 0 {
        let y = coeff(q, k + 1 - d);
        if d >= 1 {
            lemma_mul_monomial_coeff(c * d, (d - 1) as nat, q, k);
            if k - d >= 0 {
                assert(c * y * (k + 1) == c * d * y + c * (y * (k - d + 1))) by (nonlinear_arith);
            } else {
                if k + 1 - d == 0 {
                    assert(c * y * (k + 1) == c * d * y + c * 0) by (nonlinear_arith)
                        requires
                            k + 1 == d,
                    ;
                } else {
                    assert(y == 0);
                    assert(c * y * (k + 1) == c * d * y + c * 0) by (nonlinear_arith)
                        requires
                            y == 0,
                    ;
                }
            }
        } else {
            lemma_mul_coeff(Seq::<int>::empty(), q, k);
            assert(c * y * (k + 1) == c * (y * (k + 1))) by (nonlinear_arith);
        }
    } else {
        lemma_mul_coeff(poly_derivative(m), q, k);
        lemma_conv_outside(poly_derivative(m), q, k, poly_derivative(m).len());
        let z = coeff(dq, k - d);
        assert(c * z == c * 0) by (nonlinear_arith)
            requires
                z == 0,
        ;
    }
}

/// The product rule `(pq)' = p'q + pq'`.
pub proof fn law_derivative_product(p: Seq<int>, q: Seq<int>)
    requires
        normalized(p),
    ensures
        poly_derivative(poly_mul(p, q)) == poly_add(
            poly_mul(poly_derivative(p), q),
            poly_mul(p, poly_derivative(q)),
        ),
    decreases p.len(),
{
    let l = poly_derivative(poly_mul(p, q));
    let r = poly_add(poly_mul(poly_derivative(p), q), poly_mul(p, poly_derivative(q)));
    let dq = poly_derivative(q);
    if p.len() == 0 {
        assert forall|k: int| #[trigger] coeff(l, k) == coeff(r, k) by {
            lemma_derivative_coeff(poly_mul(p, q), k);
            lemma_add_coeff(poly_mul(poly_derivative(p), q), poly_mul(p, dq), k);
            lemma_derivative_coeff(p, k);
            lemma_mul_coeff(poly_derivative(p), q, k);
            lemma_ops_normalized(p, p, 0);
            assert(poly_derivative(p).len() == 0);
        }
    } else {
        lemma_split_leading(p);
        let lower = crate::poly::trim(p.drop_last());
        let d = (p.len() - 1) as nat;
        let m = crate::poly::poly_monomial(p.last(), d);
        law_derivative_product(lower, q);
        law_mul_distributive_right(lower, m, q);
        law_derivative_add(lower, m);
        law_mul_distributive_right(poly_derivative(lower), poly_derivative(m), q);
        law_mul_distributive_right(lower, m, dq);
        assert forall|k: int| #[trigger] coeff(l, k) == coeff(r, k) by {
            lemma_derivative_coeff(poly_mul(p, q), k);
            lemma_derivative_coeff(poly_mul(lower, q), k);
            lemma_derivative_coeff(poly_mul(m, q), k);
            lemma_add_coeff(poly_mul(lower, q), poly_mul(m, q), k + 1);
            lemma_add_coeff(poly_mul(poly_derivative(p), q), poly_mul(p, dq), k);
            lemma_add_coeff(poly_mul(poly_derivative(lower), q), poly_mul(lower, dq), k);
            lemma_add_coeff(poly_mul(poly_derivative(lower), q), poly_mul(poly_derivative(m), q), k);
            lemma_add_coeff(poly_mul(lower, dq), poly_mul(m, dq), k);
            lemma_product_rule_monomial(p.last(), d, q, k);
            if k >= 0 {
                let x = coeff(poly_mul(lower, q), k + 1);
                let y = coeff(poly_mul(m, q), k + 1);
                assert((x + y) * (k + 1) == x * (k + 1) + y * (k + 1)) by (nonlinear_arith);
            }
        }
    }
    lemma_ops_normalized(poly_mul(p, q), q, 0);
    lemma_ops_normalized(poly_mul(poly_derivative(p), q), poly_mul(p, dq), 0);
    lemma_coeff_ext(l, r);
}


// ---------------------------------------------------------------------------
// Characteristic classes of Whitney sums and of line bundles.
// ---------------------------------------------------------------------------

/// Class `k >= 1` read off `p` up to degree `n` is the monomial of degree
/// `k` with the coefficient of `p` there, or zero past `n`.
proof fn lemma_graded_class(p: Seq<int>, n: nat, k: int)
    requires
        k >= 1,
    ensures
        class_at(graded_classes(p, n), k) == crate::poly::poly_monomial(
            if k <= n { coeff(p, k) } else { 0 },
            k as nat,
        ),
{
}

/// The coefficients of the numerator of `ch` for the classes `u t` and
/// `v t^2`: `2 rank`, `2u`, `u^2 - 2v`.
proof fn lemma_ch_coeffs(r: nat, u: int, v: int, k: int)
    ensures
        coeff(
            chern_character_numerator(r, crate::poly::poly_monomial(u, 1), crate::poly::poly_monomial(v, 2)),
            k,
        ) == (if k == 0 {
            2 * r as int
        } else if k == 1 {
            2 * u
        } else if k == 2 {
            u * u - 2 * v
        } else {
            0
        }),
{
    let c1 = crate::poly::poly_monomial(u, 1);
    let c2 = crate::poly::poly_monomial(v, 2);
    let m = crate::poly::poly_monomial(2 * r as int, 0);
    let s1 = crate::poly::poly_scale(c1, 2);
    let sq = poly_mul(c1, c1);
    let s2 = crate::poly::poly_scale(c2, 2);
    lemma_add_coeff(poly_add(m, s1), poly_sub(sq, s2), k);
    lemma_add_coeff(m, s1, k);
    lemma_sub_coeff(sq, s2, k);
    crate::poly::lemma_scale_coeff(c1, 2, k);
    crate::poly::lemma_scale_coeff(c2, 2, k);
    crate::poly::lemma_monomial_coeff(2 * r as int, 0, k);
    crate::poly::lemma_monomial_coeff(u, 1, k);
    crate::poly::lemma_monomial_coeff(v, 2, k);
    lemma_mul_monomials(u, 1, u, 1, k);
}

/// The coefficients of the total of the classes read off `p` up to
/// degree `n`: `1`, then those of `p` up to degree `n`.
proof fn lemma_total_coeff(p: Seq<int>, n: nat, k: int)
    ensures
        coeff(sum_polys(graded_classes(p, n)), k) == (if k == 0 {
            1
        } else if 1 <= k <= n {
            coeff(p, k)
        } else {
            0
        }),
{
    lemma_graded_prefix(p, n, n + 1 as int);
    assert(graded_classes(p, n).take(n + 1 as int) =~= graded_classes(p, n));
}

/// The Chern character is additive over Whitney sums,
/// `ch(E + F) = ch(E) + ch(F)`: for bundles of ranks `re` and `rf` whose
/// classes are read off `pe` and `pf` degree by degree, the numerator of
/// `ch` (over `2`) of the classes that `whitney_sum` reads off the product
/// of their total Chern classes is the sum of their numerators.
pub proof fn law_chern_character_additive(pe: Seq<int>, re: nat, pf: Seq<int>, rf: nat)
    ensures
        chern_character_numerator(
            re + rf,
            class_at(
                graded_classes(
                    poly_mul(sum_polys(graded_classes(pe, re)), sum_polys(graded_classes(pf, rf))),
                    re + rf,
                ),
                1,
            ),
            class_at(
                graded_classes(
                    poly_mul(sum_polys(graded_classes(pe, re)), sum_polys(graded_classes(pf, rf))),
                    re + rf,
                ),
                2,
            ),
        ) == poly_add(
            chern_character_numerator(
                re,
                class_at(graded_classes(pe, re), 1),
                class_at(graded_classes(pe, re), 2),
            ),
            chern_character_numerator(
                rf,
                class_at(graded_classes(pf, rf), 1),
                class_at(graded_classes(pf, rf), 2),
            ),
        ),
{
    let ta = sum_polys(graded_classes(pe, re));
    let tb = sum_polys(graded_classes(pf, rf));
    let prod = poly_mul(ta, tb);
    let n = re + rf;
    let a1 = coeff(ta, 1);
    let a2 = coeff(ta, 2);
    let b1 = coeff(tb, 1);
    let b2 = coeff(tb, 2);
    lemma_total_coeff(pe, re, 0);
    lemma_total_coeff(pe, re, 1);
    lemma_total_coeff(pe, re, 2);
    lemma_total_coeff(pf, rf, 0);
    lemma_total_coeff(pf, rf, 1);
    lemma_total_coeff(pf, rf, 2);
    let len: nat = if ta.len() >= 3 { ta.len() } else { 3 };
    lemma_mul_coeff(ta, tb, 1);
    lemma_mul_coeff(ta, tb, 2);
    lemma_conv_past_end(ta, tb, 1, len);
    lemma_conv_past_end(ta, tb, 2, len);
    crate::poly::lemma_conv_at_one(ta, tb, len);
    crate::poly::lemma_conv_at_two(ta, tb, len);
    let s1 = a1 + b1;
    let s2 = a2 + a1 * b1 + b2;
    assert(coeff(prod, 1) == s1);
    assert(coeff(prod, 2) == s2);
    // the classes of the three bundles, as monomials
    lemma_graded_class(prod, n, 1);
    lemma_graded_class(prod, n, 2);
    lemma_graded_class(pe, re, 1);
    lemma_graded_class(pe, re, 2);
    lemma_graded_class(pf, rf, 1);
    lemma_graded_class(pf, rf, 2);
    assert(class_at(graded_classes(pe, re), 1) == crate::poly::poly_monomial(a1, 1));
    assert(class_at(graded_classes(pe, re), 2) == crate::poly::poly_monomial(a2, 2));
    assert(class_at(graded_classes(pf, rf), 1) == crate::poly::poly_monomial(b1, 1));
    assert(class_at(graded_classes(pf, rf), 2) == crate::poly::poly_monomial(b2, 2));
    assert(class_at(graded_classes(prod, n), 1) == crate::poly::poly_monomial(s1, 1));
    assert(class_at(graded_classes(prod, n), 2) == crate::poly::poly_monomial(s2, 2)) by {
        if n < 2 {
            assert(a2 == 0 && b2 == 0);
            assert(a1 == 0 || b1 == 0);
            assert(a1 * b1 == 0) by (nonlinear_arith)
                requires
                    a1 == 0 || b1 == 0,
            ;
        }
    }
    let l = chern_character_numerator(
        n,
        crate::poly::poly_monomial(s1, 1),
        crate::poly::poly_monomial(s2, 2),
    );
    let le = chern_character_numerator(re, crate::poly::poly_monomial(a1, 1), crate::poly::poly_monomial(a2, 2));
    let lf = chern_character_numerator(rf, crate::poly::poly_monomial(b1, 1), crate::poly::poly_monomial(b2, 2));
    assert forall|k: int| #[trigger] coeff(l, k) == coeff(poly_add(le, lf), k) by {
        lemma_add_coeff(le, lf, k);
        lemma_ch_coeffs(n, s1, s2, k);
        lemma_ch_coeffs(re, a1, a2, k);
        lemma_ch_coeffs(rf, b1, b2, k);
        assert((a1 + b1) * (a1 + b1) - 2 * (a2 + a1 * b1 + b2) == (a1 * a1 - 2 * a2) + (b1 * b1 - 2 * b2))
            by (nonlinear_arith);
    }
    let m1 = crate::poly::poly_monomial(s1, 1);
    let m2 = crate::poly::poly_monomial(s2, 2);
    lemma_ops_normalized(
        poly_add(crate::poly::poly_monomial(2 * n as int, 0), crate::poly::poly_scale(m1, 2)),
        poly_sub(poly_mul(m1, m1), crate::poly::poly_scale(m2, 2)),
        0,
    );
    lemma_ops_normalized(le, lf, 0);
    lemma_coeff_ext(l, poly_add(le, lf));
}



/// The Todd genus of `CP^n` is `1`: in the Todd class of `T(CP^n)`, whose
/// classes are `c_k = (n+1 choose k) h^k`, the coefficient of `h^n` equals
/// the common denominator, for every `n` that `ToddClass::compute` takes.
pub proof fn law_todd_genus_cp(n: nat)
    requires
        n <= 9,
    ensures
        coeff(todd_class_numerator(graded_classes(binomial_row(n + 1), n), todd_degree(n)), n as int)
            == todd_denominator(todd_degree(n)),
{
    let cs = graded_classes(binomial_row(n + 1), n);
    let a = cp_coeffs(n);
    lemma_cp_graded(n);
    lemma_todd_graded(cs, a, todd_degree(n), n as int);
    lemma_genus_cp(n);
}


/// Scaling the second factor of a convolution sum scales the sum.
proof fn lemma_conv_scale(a: Seq<int>, b: Seq<int>, c: int, k: int, n: nat)
    ensures
        conv_upto(a, crate::poly::poly_scale(b, c), k, n) == conv_upto(a, b, k, n) * c,
    decreases n,
{
    if n > 0 {
        lemma_conv_scale(a, b, c, k, (n - 1) as nat);
        crate::poly::lemma_scale_coeff(b, c, k - (n - 1));
        let x = coeff(a, n - 1);
        let y = coeff(b, k - (n - 1));
        let s = conv_upto(a, b, k, (n - 1) as nat);
        assert(s * c + x * (y * c) == (s + x * y) * c) by (nonlinear_arith);
    }
}

/// `a (c b) = c (a b)`.
proof fn lemma_mul_scale(a: Seq<int>, b: Seq<int>, c: int)
    ensures
        poly_mul(a, crate::poly::poly_scale(b, c)) == crate::poly::poly_scale(poly_mul(a, b), c),
{
    let l = poly_mul(a, crate::poly::poly_scale(b, c));
    let r = crate::poly::poly_scale(poly_mul(a, b), c);
    assert forall|k: int| #[trigger] coeff(l, k) == coeff(r, k) by {
        lemma_mul_coeff(a, crate::poly::poly_scale(b, c), k);
        lemma_mul_coeff(a, b, k);
        lemma_conv_scale(a, b, c, k, a.len());
        crate::poly::lemma_scale_coeff(poly_mul(a, b), c, k);
    }
    lemma_ops_normalized(a, crate::poly::poly_scale(b, c), 0);
    lemma_ops_normalized(poly_mul(a, b), poly_mul(a, b), c);
    lemma_coeff_ext(l, r);
}

/// `v (u a) = (uv) a`, `u a + v a = (u + v) a`, and `1 a = a`.
proof fn lemma_scale_rules(a: Seq<int>, u: int, v: int)
    requires
        normalized(a),
    ensures
        crate::poly::poly_scale(crate::poly::poly_scale(a, u), v) == crate::poly::poly_scale(a, u * v),
        poly_add(crate::poly::poly_scale(a, u), crate::poly::poly_scale(a, v)) == crate::poly::poly_scale(a, u + v),
        crate::poly::poly_scale(a, 1) == a,
{
    let su = crate::poly::poly_scale(a, u);
    let l1 = crate::poly::poly_scale(su, v);
    let r1 = crate::poly::poly_scale(a, u * v);
    let l2 = poly_add(su, crate::poly::poly_scale(a, v));
    let r2 = crate::poly::poly_scale(a, u + v);
    let s1 = crate::poly::poly_scale(a, 1);
    assert forall|k: int| #[trigger] coeff(l1, k) == coeff(r1, k) by {
        crate::poly::lemma_scale_coeff(su, v, k);
        crate::poly::lemma_scale_coeff(a, u, k);
        crate::poly::lemma_scale_coeff(a, u * v, k);
        let x = coeff(a, k);
        assert(x * u * v == x * (u * v)) by (nonlinear_arith);
    }
    assert forall|k: int| #[trigger] coeff(l2, k) == coeff(r2, k) by {
        lemma_add_coeff(su, crate::poly::poly_scale(a, v), k);
        crate::poly::lemma_scale_coeff(a, u, k);
        crate::poly::lemma_scale_coeff(a, v, k);
        crate::poly::lemma_scale_coeff(a, u + v, k);
        let x = coeff(a, k);
        assert(x * u + x * v == x * (u + v)) by (nonlinear_arith);
    }
    assert forall|k: int| #[trigger] coeff(s1, k) == coeff(a, k) by {
        crate::poly::lemma_scale_coeff(a, 1, k);
    }
    lemma_ops_normalized(su, su, v);
    lemma_ops_normalized(a, a, u * v);
    lemma_ops_normalized(su, crate::poly::poly_scale(a, v), 0);
    lemma_ops_normalized(a, a, u + v);
    lemma_ops_normalized(a, a, 1);
    lemma_coeff_ext(l1, r1);
    lemma_coeff_ext(l2, r2);
    lemma_coeff_ext(s1, a);
}

/// Scaling by `0`, or scaling the zero polynomial, gives zero.
proof fn lemma_scale_zero(a: Seq<int>, c: int)
    ensures
        crate::poly::poly_scale(a, 0) == Seq::<int>::empty(),
        crate::poly::poly_scale(Seq::<int>::empty(), c) == Seq::<int>::empty(),
{
    let z = Seq::<int>::empty();
    assert forall|k: int| #[trigger] coeff(crate::poly::poly_scale(a, 0), k) == coeff(z, k) by {
        crate::poly::lemma_scale_coeff(a, 0, k);
    }
    assert forall|k: int| #[trigger] coeff(crate::poly::poly_scale(z, c), k) == coeff(z, k) by {
        crate::poly::lemma_scale_coeff(z, c, k);
    }
    lemma_ops_normalized(a, a, 0);
    lemma_ops_normalized(z, z, c);
    lemma_coeff_ext(crate::poly::poly_scale(a, 0), z);
    lemma_coeff_ext(crate::poly::poly_scale(z, c), z);
}

/// One Chern root `x` gives the Todd class of the line bundle with
/// `c_1 = x`: `todd_from_roots` gives `(12 + 6x + x^2)/12`, and
/// `ToddClass::compute` gives `1 + x/2 + x^2/12` (its degree-3 part
/// `c_1 c_2/24` vanishes) over `3! 210^3 = 12 * 4630500`, the same class.
pub proof fn law_todd_line_bundle(x: Seq<int>)
    requires
        normalized(x),
    ensures
        crate::poly::poly_scale(todd_roots_product(seq![x]), 4630500) == todd_class_numerator(
            seq![poly_one(), x],
            todd_degree(1),
        ),
        twelve_pow(1) * 4630500 == todd_denominator(todd_degree(1)),
{
    let e = Seq::<int>::empty();
    let cs = seq![poly_one(), x];
    let p2 = poly_mul(x, x);
    let p3 = poly_mul(x, p2);
    lemma_ops_normalized(x, x, 0);
    lemma_ops_normalized(x, p2, 0);
    assert(class_at(cs, 1) == x);
    assert(class_at(cs, 2) == e);
    assert(class_at(cs, 3) == e);
    law_mul_zero(x);
    law_mul_zero(p2);
    lemma_scale_zero(x, 1);
    lemma_scale_zero(x, -1);
    lemma_scale_zero(x, -2);
    lemma_scale_zero(x, 3);
    lemma_scale_rules(x, 1, 1);
    lemma_scale_rules(p2, 1, 1);
    lemma_scale_rules(p3, 1, 1);
    law_add_zero(p2);
    law_add_zero(p3);
    law_add_commutative(e, p2);
    law_add_commutative(e, p3);
    law_add_commutative(e, e);
    // the power sums x, x^2, x^3
    let ps0 = power_sums(cs, 0);
    assert(ps0 == Seq::<Seq<int>>::empty());
    assert(newton_partial(cs, ps0, 1, 0) == x);
    let ps1 = seq![x];
    assert(power_sums(cs, 1) =~= ps1);
    assert(newton_partial(cs, ps1, 2, 0) == e);
    assert(newton_partial(cs, ps1, 2, 1) == p2);
    let ps2 = seq![x, p2];
    assert(power_sums(cs, 2) =~= ps2);
    assert(newton_partial(cs, ps2, 3, 0) == e);
    assert(newton_partial(cs, ps2, 3, 1) == p3);
    assert(newton_partial(cs, ps2, 3, 2) == p3);
    let ps = seq![x, p2, p3];
    assert(power_sums(cs, 3) =~= ps);
    // the parts V_0 = 1, V_1 = 105 x, V_2 = 7350 x^2, V_3 = 0
    law_mul_one(x);
    law_mul_one(p2);
    law_mul_one(p3);
    let v1 = crate::poly::poly_scale(x, 105);
    let v2 = crate::poly::poly_scale(p2, 7350);
    assert(todd_falling(1, 1) == 1);
    assert(todd_falling(2, 1) == 1);
    assert(todd_falling(2, 2) == 1);
    assert(todd_falling(3, 1) == 1);
    assert(todd_falling(3, 2) == 2);
    assert(todd_falling(3, 3) == 2);
    let vs0 = seq![poly_one()];
    assert(todd_parts(ps, 0) == vs0);
    assert(todd_partial(ps, vs0, 1, 0) == e);
    assert(todd_partial(ps, vs0, 1, 1) == v1) by {
        law_add_commutative(e, v1);
        lemma_ops_normalized(x, x, 105);
        law_add_zero(v1);
    }
    let vs1 = seq![poly_one(), v1];
    assert(todd_parts(ps, 1) =~= vs1);
    assert(todd_partial(ps, vs1, 2, 0) == e);
    assert(todd_partial(ps, vs1, 2, 1) == crate::poly::poly_scale(p2, 11025)) by {
        lemma_mul_scale(x, x, 105);
        lemma_scale_rules(p2, 105, 105);
        lemma_ops_normalized(p2, p2, 11025);
        law_add_commutative(e, crate::poly::poly_scale(p2, 11025));
        law_add_zero(crate::poly::poly_scale(p2, 11025));
    }
    assert(todd_partial(ps, vs1, 2, 2) == v2) by {
        lemma_scale_rules(p2, 11025, -3675);
    }
    let vs2 = seq![poly_one(), v1, v2];
    assert(todd_parts(ps, 2) =~= vs2);
    assert(todd_partial(ps, vs2, 3, 0) == e);
    assert(todd_partial(ps, vs2, 3, 1) == crate::poly::poly_scale(p3, 771750)) by {
        lemma_mul_scale(x, p2, 7350);
        lemma_scale_rules(p3, 7350, 105);
        lemma_ops_normalized(p3, p3, 771750);
        law_add_commutative(e, crate::poly::poly_scale(p3, 771750));
        law_add_zero(crate::poly::poly_scale(p3, 771750));
    }
    assert(todd_partial(ps, vs2, 3, 2) == e) by {
        lemma_mul_scale(p2, x, 105);
        law_mul_commutative(p2, x);
        lemma_scale_rules(p3, 105, -7350);
        lemma_scale_rules(p3, 771750, -771750);
        lemma_scale_zero(p3, 0);
    }
    assert(todd_partial(ps, vs2, 3, 3) == e) by {
        lemma_scale_zero(p3, 0);
        law_add_zero(e);
    }
    let vs = seq![poly_one(), v1, v2, e];
    assert(todd_parts(ps, 3) =~= vs);
    // the total over 3! 210^3
    assert(todd_scale(3, 3) == 1);
    assert(todd_scale(3, 2) == todd_scale(3, 3) * 3 * 210);
    assert(todd_scale(3, 2) == 630);
    assert(todd_scale(3, 1) == todd_scale(3, 2) * 2 * 210);
    assert(todd_scale(3, 1) == 264600);
    assert(todd_scale(3, 0) == todd_scale(3, 1) * 1 * 210);
    assert(todd_scale(3, 0) == 55566000);
    let s3 = todd_sum_from(vs, 3, 3);
    let s2 = todd_sum_from(vs, 3, 2);
    let s1 = todd_sum_from(vs, 3, 1);
    let s0 = todd_sum_from(vs, 3, 0);
    assert(todd_sum_from(vs, 3, 4) == e);
    let l = crate::poly::poly_scale(poly_mul(poly_one(), todd_factor(x)), 4630500);
    let m12 = crate::poly::poly_monomial(12, 0);
    let sx6 = crate::poly::poly_scale(x, 6);
    assert forall|k: int| #[trigger] coeff(s0, k) == coeff(l, k) by {
        lemma_add_coeff(todd_sum_from(vs, 3, 4), crate::poly::poly_scale(e, 1), k);
        crate::poly::lemma_scale_coeff(e, 1, k);
        lemma_add_coeff(s3, crate::poly::poly_scale(v2, 630), k);
        crate::poly::lemma_scale_coeff(v2, 630, k);
        crate::poly::lemma_scale_coeff(p2, 7350, k);
        lemma_add_coeff(s2, crate::poly::poly_scale(v1, 264600), k);
        crate::poly::lemma_scale_coeff(v1, 264600, k);
        crate::poly::lemma_scale_coeff(x, 105, k);
        lemma_add_coeff(s1, crate::poly::poly_scale(poly_one(), 55566000), k);
        crate::poly::lemma_scale_coeff(poly_one(), 55566000, k);
        crate::poly::lemma_scale_coeff(poly_mul(poly_one(), todd_factor(x)), 4630500, k);
        lemma_mul_one(todd_factor(x), k);
        lemma_add_coeff(poly_add(m12, sx6), p2, k);
        lemma_add_coeff(m12, sx6, k);
        crate::poly::lemma_scale_coeff(x, 6, k);
        crate::poly::lemma_monomial_coeff(12, 0, k);
        let xk = coeff(x, k);
        let qk = coeff(p2, k);
        assert(qk * 7350 * 630 == qk * 4630500);
        assert(xk * 105 * 264600 + qk * 4630500 == (xk * 6 + qk) * 4630500) by (nonlinear_arith);
        assert((12 + xk * 6 + qk) * 4630500 == 55566000 + xk * 105 * 264600 + qk * 4630500) by (nonlinear_arith);
    }
    lemma_ops_normalized(s1, crate::poly::poly_scale(poly_one(), 55566000), 0);
    lemma_ops_normalized(poly_mul(poly_one(), todd_factor(x)), poly_one(), 4630500);
    lemma_coeff_ext(s0, l);
    assert(twelve_pow(0) == 1);
    assert(twelve_pow(1) == 12);
    let one_root = seq![x];
    assert(one_root.drop_last() =~= Seq::<Seq<int>>::empty());
    assert(one_root.last() == x);
    assert(todd_roots_product(Seq::<Seq<int>>::empty()) == poly_one());
    assert(todd_roots_product(one_root) == poly_mul(poly_one(), todd_factor(x)));
}


/// `(-1)^k` is `1` for even `k` and `-1` for odd `k`.
proof fn lemma_minus_one_pow(k: nat)
    ensures
        vstd::arithmetic::power::pow(-1, k) == (if k % 2 == 0 { 1int } else { -1int }),
    decreases k,
{
    reveal(vstd::arithmetic::power::pow);
    if k > 0 {
        lemma_minus_one_pow((k - 1) as nat);
    }
}

/// The Pontryagin classes read off the Chern classes `cs` of a bundle of
/// rank `r`: there are `r/2 + 1` of them, `p_0 = 1`, and
/// `p_k = (-1)^k c_{2k}` for `1 <= k <= r/2`.
pub proof fn law_pontryagin_classes(cs: Seq<Seq<int>>, r: nat)
    ensures
        pontryagin_classes(cs, r).len() == r / 2 + 1,
        pontryagin_classes(cs, r)[0] == poly_one(),
        forall|k: int|
            1 <= k <= r / 2 ==> #[trigger] pontryagin_classes(cs, r)[k] == crate::poly::poly_scale(
                class_at(cs, 2 * k),
                vstd::arithmetic::power::pow(-1, k as nat),
            ),
{
    assert forall|k: int| 1 <= k <= r / 2 implies #[trigger] pontryagin_classes(cs, r)[k] == crate::poly::poly_scale(
        class_at(cs, 2 * k),
        vstd::arithmetic::power::pow(-1, k as nat),
    ) by {
        lemma_minus_one_pow(k as nat);
    }
}

/// Consecutive Pontryagin classes alternate in sign against the Chern
/// classes: `p_k = c_{2k}` for even `k` and `p_k = -c_{2k}` for odd `k`.
pub proof fn law_pontryagin_alternates(cs: Seq<Seq<int>>, r: nat, k: int)
    requires
        1 <= k <= r / 2,
    ensures
        k % 2 == 0 ==> pontryagin_classes(cs, r)[k] == crate::poly::poly_scale(class_at(cs, 2 * k), 1),
        k % 2 == 1 ==> pontryagin_classes(cs, r)[k] == crate::poly::poly_scale(class_at(cs, 2 * k), -1),
{
    law_pontryagin_classes(cs, r);
    lemma_minus_one_pow(k as nat);
}

} // verus!
