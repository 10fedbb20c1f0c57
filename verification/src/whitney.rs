//! What the comparison of `verify_whitney_sum` computes, when it stays in
//! range, and why the two totals it compares agree.

use crate::bundle::{
    graded_classes, graded_fits, graded_prefix_coeff, lemma_graded_sum, lemma_graded_total, sum_ok, sum_polys,
};
use crate::laws::law_whitney_sum_formula;
use crate::poly::{
    add_ok, coeff, conv_upto, fits_int, lemma_coeff_ext, lemma_conv_bound, lemma_len_from_coeffs, lemma_mul_coeff,
    lemma_neg_coeff, max_len, mul_ok, neg_ok, normalized, poly_mul, poly_neg, sub_ok,
};
use crate::roots::{
    fact, lemma_fact_31, lemma_fact_mono, lemma_fact_pos, lemma_fact_product, lemma_roots_concat,
    lemma_roots_product, lemma_roots_spec_bound, linear_roots, root_bound,
};
use crate::splitting::{product_ok, roots_product, roots_spec};
use vstd::prelude::*;

verus! {

/// The total of the classes `1, p_1 t, ..., p_n t^n` read off `p`.
pub open spec fn graded_total(p: Seq<int>, n: nat) -> Seq<int> {
    sum_polys(graded_classes(p, n))
}

/// The total Chern class of the Whitney sum of the bundles with formal
/// roots `t, 2t, ..., e t` and `t, 2t, ..., f t`.
pub open spec fn whitney_got(e: nat, f: nat) -> Seq<int> {
    graded_total(
        poly_mul(
            graded_total(roots_product(roots_spec(e)), e),
            graded_total(roots_product(roots_spec(f)), f),
        ),
        e + f,
    )
}

/// The total Chern class read off all `e + f` roots at once.
pub open spec fn whitney_expected(e: nat, f: nat) -> Seq<int> {
    graded_total(roots_product(roots_spec(e) + roots_spec(f)), e + f)
}

/// The largest rank sum for which the comparison is computed in `i128`.
pub open spec fn max_rank_sum() -> nat {
    30
}

/// Facts about one bundle of rank `r <= 30` built from its roots.
pub proof fn lemma_rank_facts(r: nat)
    requires
        r <= 30,
    ensures
        product_ok(roots_spec(r)),
        forall|k: int| 0 <= #[trigger] coeff(roots_product(roots_spec(r)), k) <= fact(r + 1),
        forall|k: int| k > r ==> #[trigger] coeff(roots_product(roots_spec(r)), k) == 0,
        graded_fits(roots_product(roots_spec(r)), r),
        sum_ok(graded_classes(roots_product(roots_spec(r)), r)),
        normalized(graded_total(roots_product(roots_spec(r)), r)),
        forall|k: int|
            #[trigger] coeff(graded_total(roots_product(roots_spec(r)), r), k) == graded_prefix_coeff(
                roots_product(roots_spec(r)),
                r + 1 as int,
                k,
            ),
        forall|k: int| 0 <= #[trigger] coeff(graded_total(roots_product(roots_spec(r)), r), k) <= fact(r + 1),
        graded_total(roots_product(roots_spec(r)), r).len() <= r + 1,
        fact(r + 1) <= fact(31),
{
    let rs = roots_spec(r);
    lemma_roots_spec_bound(r, 0);
    assert(rs + roots_spec(0) =~= rs);
    lemma_fact_pos(0);
    lemma_fact_pos(r);
    assert(fact(1) == 1);
    assert(fact(r + 1) * fact(1) == fact(r + 1)) by (nonlinear_arith)
        requires
            fact(1) == 1,
    ;
    lemma_fact_mono(r + 1, 31);
    lemma_fact_31();
    lemma_roots_product(rs);
    let t = roots_product(rs);
    assert forall|k: int| 1 <= k <= r implies fits_int(#[trigger] coeff(t, k)) by {}
    lemma_graded_sum(t, r);
    let g = graded_total(t, r);
    assert forall|k: int| 0 <= #[trigger] coeff(g, k) <= fact(r + 1) by {}
    lemma_len_from_coeffs(g, r as int);
}

/// `31!`, the bound on every coefficient of a product of at most 30
/// factors `1 + x_i`.
pub open spec fn big() -> int {
    8222838654177922817725562880000000
}

/// Two polynomials with nonnegative coefficients bounded by `x` and `y`,
/// at most 31 coefficients each and `x * y <= 31!`, multiply without
/// overflow into coefficients in `0..=31 * 31!`.
proof fn lemma_mul_bounded(a: Seq<int>, b: Seq<int>, x: int, y: int)
    requires
        forall|i: int| 0 <= #[trigger] coeff(a, i) <= x,
        forall|i: int| 0 <= #[trigger] coeff(b, i) <= y,
        a.len() <= 31,
        b.len() <= 31,
        x * y <= big(),
    ensures
        mul_ok(a, b),
        forall|k: int| 0 <= #[trigger] coeff(poly_mul(a, b), k) <= 31 * big(),
{
    reveal(mul_ok);
    assert forall|i: int, j: int| 0 <= i < a.len() && 0 <= j < b.len() implies fits_int(#[trigger] (a[i] * b[j])) by {
        assert(coeff(a, i) == a[i]);
        assert(coeff(b, j) == b[j]);
        let u = a[i];
        let v = b[j];
        assert(0 <= u * v <= x * y) by (nonlinear_arith)
            requires
                0 <= u <= x,
                0 <= v <= y,
        ;
    }
    assert forall|k: int, n: nat| 0 <= k < a.len() + b.len() && n <= a.len() implies fits_int(
        #[trigger] conv_upto(a, b, k, n),
    ) by {
        lemma_conv_bound(a, b, x, y, k, n);
        assert(n * (x * y) <= 31 * big()) by (nonlinear_arith)
            requires
                n <= 31,
                x * y <= big(),
                0 <= n * (x * y),
        ;
    }
    assert forall|k: int| 0 <= #[trigger] coeff(poly_mul(a, b), k) <= 31 * big() by {
        lemma_mul_coeff(a, b, k);
        lemma_conv_bound(a, b, x, y, k, a.len());
        assert(a.len() * (x * y) <= 31 * big()) by (nonlinear_arith)
            requires
                a.len() <= 31,
                x * y <= big(),
                0 <= a.len() * (x * y),
        ;
    }
}

/// The product of the two totals has coefficients in `0..=31 * 31!`.
proof fn lemma_whitney_product(e: nat, f: nat)
    requires
        e + f <= max_rank_sum(),
    ensures
        mul_ok(
            graded_total(roots_product(roots_spec(e)), e),
            graded_total(roots_product(roots_spec(f)), f),
        ),
        forall|k: int|
            0 <= #[trigger] coeff(
                poly_mul(
                    graded_total(roots_product(roots_spec(e)), e),
                    graded_total(roots_product(roots_spec(f)), f),
                ),
                k,
            ) <= 31 * big(),
{
    let a = graded_total(roots_product(roots_spec(e)), e);
    let b = graded_total(roots_product(roots_spec(f)), f);
    let x = fact(e + 1) as int;
    let y = fact(f + 1) as int;
    assert(forall|i: int| 0 <= #[trigger] coeff(a, i) <= x) by {
        lemma_rank_facts(e);
    }
    assert(forall|i: int| 0 <= #[trigger] coeff(b, i) <= y) by {
        lemma_rank_facts(f);
    }
    assert(a.len() <= 31 && b.len() <= 31) by {
        lemma_rank_facts(e);
        lemma_rank_facts(f);
    }
    assert(x * y <= big()) by {
        lemma_fact_31();
        lemma_fact_product(e + 1, f + 1);
        lemma_fact_mono(e + f + 1, 31);
    }
    lemma_mul_bounded(a, b, x, y);
}

/// The total of the Whitney sum is computed without overflow and has
/// coefficients in `0..=31 * 31!`.
proof fn lemma_whitney_got_bounds(e: nat, f: nat)
    requires
        e + f <= max_rank_sum(),
    ensures
        sum_ok(
            graded_classes(
                poly_mul(
                    graded_total(roots_product(roots_spec(e)), e),
                    graded_total(roots_product(roots_spec(f)), f),
                ),
                e + f,
            ),
        ),
        forall|k: int| 0 <= #[trigger] coeff(whitney_got(e, f), k) <= 31 * big(),
{
    lemma_whitney_product(e, f);
    let c = poly_mul(
        graded_total(roots_product(roots_spec(e)), e),
        graded_total(roots_product(roots_spec(f)), f),
    );
    assert forall|k: int| 1 <= k <= e + f implies fits_int(#[trigger] coeff(c, k)) by {}
    lemma_graded_sum(c, e + f);
}

/// The total read off all the roots is computed without overflow and has
/// coefficients in `0..=31!`.
proof fn lemma_whitney_expected_bounds(e: nat, f: nat)
    requires
        e + f <= max_rank_sum(),
    ensures
        product_ok(roots_spec(e) + roots_spec(f)),
        sum_ok(graded_classes(roots_product(roots_spec(e) + roots_spec(f)), e + f)),
        forall|k: int| 0 <= #[trigger] coeff(whitney_expected(e, f), k) <= big(),
{
    let all = roots_spec(e) + roots_spec(f);
    assert(linear_roots(all) && root_bound(all) <= big()) by {
        lemma_roots_spec_bound(e, f);
        lemma_fact_31();
        lemma_fact_product(e + 1, f + 1);
        lemma_fact_mono(e + f + 1, 31);
    }
    assert(all.len() == e + f);
    lemma_roots_product(all);
    let u = roots_product(all);
    assert forall|k: int| 1 <= k <= e + f implies fits_int(#[trigger] coeff(u, k)) by {}
    lemma_graded_sum(u, e + f);
}

/// The difference of two polynomials with coefficients in `0..=31 * 31!`
/// and `0..=31!` is computed without overflow.
proof fn lemma_sub_bounded(a: Seq<int>, b: Seq<int>)
    requires
        forall|k: int| 0 <= #[trigger] coeff(a, k) <= 31 * big(),
        forall|k: int| 0 <= #[trigger] coeff(b, k) <= big(),
    ensures
        sub_ok(a, b),
{
    reveal(sub_ok);
    reveal(neg_ok);
    reveal(add_ok);
    assert forall|k: int| 0 <= k < b.len() implies fits_int(-#[trigger] b[k]) by {
        assert(coeff(b, k) == b[k]);
    }
    assert forall|k: int| 0 <= k < max_len(a, poly_neg(b)) implies fits_int(
        #[trigger] coeff(a, k) + coeff(poly_neg(b), k),
    ) by {
        lemma_neg_coeff(b, k);
    }
}

/// Every step of `verify_whitney_sum` for ranks `e` and `f` stays in range:
/// the products over the roots, the totals, their product, and the
/// difference of the two totals compared.
pub open spec fn whitney_in_range(e: nat, f: nat) -> bool {
    &&& e + f < usize::MAX
    &&& product_ok(roots_spec(e))
    &&& product_ok(roots_spec(f))
    &&& product_ok(roots_spec(e) + roots_spec(f))
    &&& sum_ok(graded_classes(roots_product(roots_spec(e)), e))
    &&& sum_ok(graded_classes(roots_product(roots_spec(f)), f))
    &&& mul_ok(graded_total(roots_product(roots_spec(e)), e), graded_total(roots_product(roots_spec(f)), f))
    &&& sum_ok(
        graded_classes(
            poly_mul(
                graded_total(roots_product(roots_spec(e)), e),
                graded_total(roots_product(roots_spec(f)), f),
            ),
            e + f,
        ),
    )
    &&& sum_ok(graded_classes(roots_product(roots_spec(e) + roots_spec(f)), e + f))
    &&& sub_ok(whitney_got(e, f), whitney_expected(e, f))
}

/// Every step of the comparison stays in range when `e + f <= 30`.
pub proof fn lemma_whitney_in_range(e: nat, f: nat)
    requires
        e + f <= max_rank_sum(),
    ensures
        whitney_in_range(e, f),
{
    assert(product_ok(roots_spec(e)) && sum_ok(graded_classes(roots_product(roots_spec(e)), e))) by {
        lemma_rank_facts(e);
    }
    assert(product_ok(roots_spec(f)) && sum_ok(graded_classes(roots_product(roots_spec(f)), f))) by {
        lemma_rank_facts(f);
    }
    lemma_whitney_product(e, f);
    lemma_whitney_got_bounds(e, f);
    lemma_whitney_expected_bounds(e, f);
    lemma_sub_bounded(whitney_got(e, f), whitney_expected(e, f));
}

/// The total of the classes read off the product over the roots of a
/// bundle is that product itself: it starts with `1` and stops at the rank.
proof fn lemma_total_is_product(rs: Seq<Seq<int>>)
    requires
        linear_roots(rs),
    ensures
        graded_total(roots_product(rs), rs.len()) == roots_product(rs),
{
    let t = roots_product(rs);
    let g = graded_total(t, rs.len());
    lemma_roots_product(rs);
    lemma_graded_total(t, rs.len());
    assert forall|k: int| #[trigger] coeff(g, k) == coeff(t, k) by {}
    lemma_coeff_ext(g, t);
}

/// The Whitney sum formula through the splitting principle: the total
/// Chern class of the Whitney sum of the bundles built from the roots
/// `t, ..., e t` and `t, ..., f t` is the one read off all `e + f` roots
/// at once.
pub proof fn lemma_whitney_agreement(e: nat, f: nat)
    ensures
        whitney_got(e, f) == whitney_expected(e, f),
{
    let re = roots_spec(e);
    let rf = roots_spec(f);
    lemma_roots_spec_bound(e, 0);
    lemma_roots_spec_bound(f, 0);
    lemma_roots_spec_bound(e, f);
    assert(re + roots_spec(0) =~= re);
    assert(rf + roots_spec(0) =~= rf);
    lemma_total_is_product(re);
    lemma_total_is_product(rf);
    lemma_total_is_product(re + rf);
    let te = roots_product(re);
    let tf = roots_product(rf);
    lemma_roots_product(re);
    lemma_roots_product(rf);
    law_whitney_sum_formula(te, tf, e, f);
    lemma_roots_concat(re, rf);
}

} // verus!
