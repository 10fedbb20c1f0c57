//! Facts about products of the factors `1 + x_i` built from formal Chern
//! roots `x_i = c_i t` with `c_i >= 1`.

use crate::laws::{law_mul_associative, law_mul_one};
use crate::poly::{
    add_ok, coeff, conv_upto, fits_int, lemma_add_coeff, lemma_coeff_ext, lemma_conv_affine, lemma_mul_affine,
    lemma_ops_normalized, mul_ok, normalized, poly_add, poly_mul, poly_one,
};
use crate::splitting::{product_ok, roots_product, roots_spec};
use vstd::prelude::*;

verus! {

/// `n!`.
pub open spec fn fact(n: nat) -> nat
    decreases n,
{
    if n == 0 {
        1
    } else {
        n * fact((n - 1) as nat)
    }
}

/// Every root is `c t` with `c >= 1`.
pub open spec fn linear_roots(rs: Seq<Seq<int>>) -> bool {
    forall|j: int| 0 <= j < rs.len() ==> (#[trigger] rs[j]).len() == 2 && rs[j][0] == 0 && rs[j][1] >= 1
}

/// `prod_j (c_j + 1)`: the value at `t = 1` of the product of the factors
/// `1 + c_j t`, which bounds its coefficients.
pub open spec fn root_bound(rs: Seq<Seq<int>>) -> int
    decreases rs.len(),
{
    if rs.len() == 0 {
        1
    } else {
        root_bound(rs.drop_last()) * (rs.last()[1] + 1)
    }
}

/// `1 + c t`, as a coefficient sequence.
pub proof fn lemma_factor(c: int)
    requires
        c != 0,
    ensures
        poly_add(poly_one(), seq![0, c]) == seq![1, c],
{
    let x = seq![0, c];
    let y = seq![1, c];
    let s = poly_add(poly_one(), x);
    assert forall|k: int| #[trigger] coeff(s, k) == coeff(y, k) by {
        lemma_add_coeff(poly_one(), x, k);
    }
    lemma_ops_normalized(poly_one(), x, 0);
    lemma_coeff_ext(s, y);
}

/// The product of the factors `1 + x_j` starts with `1`, has coefficients
/// in `0..=root_bound`, vanishing past the number of roots; it is computed
/// without overflow when the bound fits in an `i128`.
pub proof fn lemma_roots_product(rs: Seq<Seq<int>>)
    requires
        linear_roots(rs),
    ensures
        root_bound(rs) >= 1,
        normalized(roots_product(rs)),
        coeff(roots_product(rs), 0) == 1,
        forall|k: int| 0 <= #[trigger] coeff(roots_product(rs), k) <= root_bound(rs),
        forall|k: int| k > rs.len() ==> #[trigger] coeff(roots_product(rs), k) == 0,
        roots_product(rs).len() <= rs.len() + 1,
        root_bound(rs) <= i128::MAX && rs.len() + 3 <= usize::MAX ==> product_ok(rs),
    decreases rs.len(),
{
    reveal(product_ok);
    reveal(add_ok);
    reveal(mul_ok);
    let p = roots_product(rs);
    if rs.len() == 0 {
        assert(normalized(poly_one()));
        assert(product_ok(rs));
    } else {
        let prev = rs.drop_last();
        let q = roots_product(prev);
        let c = rs.last()[1];
        let b = root_bound(prev);
        lemma_roots_product(prev);
        assert(rs.last() =~= seq![0, c]);
        lemma_factor(c);
        let f = seq![1, c];
        assert(p == poly_mul(q, f));
        lemma_ops_normalized(q, f, 0);
        assert(root_bound(rs) == b * (c + 1));
        assert(b * (c + 1) >= b) by (nonlinear_arith)
            requires
                b >= 1,
                c >= 1,
        ;
        assert(coeff(p, 0) == 1) by {
            lemma_mul_affine(q, 1, c, 0);
            let y = coeff(q, -1);
            assert(y * c == 0) by (nonlinear_arith)
                requires
                    y == 0,
            ;
        }
        assert forall|k: int| 0 <= #[trigger] coeff(p, k) <= root_bound(rs) by {
            lemma_mul_affine(q, 1, c, k);
            let x = coeff(q, k);
            let y = coeff(q, k - 1);
            assert(0 <= x * 1 + y * c <= b * (c + 1)) by (nonlinear_arith)
                requires
                    0 <= x <= b,
                    0 <= y <= b,
                    c >= 1,
            ;
        }
        assert forall|k: int| k > rs.len() implies #[trigger] coeff(p, k) == 0 by {
            lemma_mul_affine(q, 1, c, k);
            let x = coeff(q, k);
            let y = coeff(q, k - 1);
            assert(x == 0 && y == 0);
            assert(x * 1 + y * c == 0) by (nonlinear_arith)
                requires
                    x == 0,
                    y == 0,
            ;
        }
        if p.len() > rs.len() + 1 {
            assert(coeff(p, p.len() - 1) == 0);
        }
        if root_bound(rs) <= i128::MAX && rs.len() + 3 <= usize::MAX {
            assert forall|n: int|
                0 <= n < rs.len() implies add_ok(poly_one(), #[trigger] rs[n]) && mul_ok(
                roots_product(rs.take(n)),
                poly_add(poly_one(), rs[n]),
            ) by {
                if n < rs.len() - 1 {
                    assert(prev.take(n) =~= rs.take(n));
                    assert(prev[n] == rs[n]);
                    assert(product_ok(prev));
                } else {
                    assert(rs.take(n) =~= prev);
                    assert(rs[n] =~= seq![0, c]);
                    assert(b * (c + 1) >= c + 1) by (nonlinear_arith)
                        requires
                            b >= 1,
                            c >= 1,
                    ;
                    assert forall|k: int| 0 <= k < 2 implies fits_int(
                        #[trigger] coeff(poly_one(), k) + coeff(rs[n], k),
                    ) by {
                        assert(coeff(rs[n], 0) == 0);
                        assert(coeff(rs[n], 1) == c);
                    }
                    assert forall|i: int, j: int|
                        0 <= i < q.len() && 0 <= j < f.len() implies fits_int(#[trigger] (q[i] * f[j])) by {
                        assert(coeff(q, i) == q[i]);
                        let x = q[i];
                        let y = f[j];
                        assert(0 <= x * y <= b * (c + 1)) by (nonlinear_arith)
                            requires
                                0 <= x <= b,
                                1 <= y <= c,
                        ;
                    }
                    assert forall|k: int, m: nat| 0 <= k < q.len() + f.len() && m <= q.len() implies fits_int(
                        #[trigger] conv_upto(q, f, k, m),
                    ) by {
                        lemma_conv_affine(q, 1, c, k, m);
                        let x = coeff(q, k);
                        let y = coeff(q, k - 1);
                        assert(0 <= x * 1 + y * c <= b * (c + 1)) by (nonlinear_arith)
                            requires
                                0 <= x <= b,
                                0 <= y <= b,
                                c >= 1,
                        ;
                        assert(0 <= x * 1 <= b * (c + 1)) by (nonlinear_arith)
                            requires
                                0 <= x <= b,
                                c >= 1,
                        ;
                        assert(0 <= y * c <= b * (c + 1)) by (nonlinear_arith)
                            requires
                                0 <= y <= b,
                                c >= 1,
                        ;
                    }
                }
            }
        }
    }
}

/// The product over the roots of `a` followed by those of `b` is the
/// product over `a` times the product over `b`.
pub proof fn lemma_roots_concat(a: Seq<Seq<int>>, b: Seq<Seq<int>>)
    requires
        linear_roots(a),
        linear_roots(b),
    ensures
        roots_product(a + b) == poly_mul(roots_product(a), roots_product(b)),
    decreases b.len(),
{
    lemma_roots_product(a);
    if b.len() == 0 {
        assert(a + b =~= a);
        law_mul_one(roots_product(a));
    } else {
        let prev = b.drop_last();
        assert(linear_roots(prev));
        lemma_roots_concat(a, prev);
        lemma_roots_product(prev);
        assert((a + b).drop_last() =~= a + prev);
        assert((a + b).last() == b.last());
        let factor = poly_add(poly_one(), b.last());
        lemma_ops_normalized(poly_one(), b.last(), 0);
        law_mul_associative(roots_product(a), roots_product(prev), factor);
    }
}

/// `n! >= 1`, and `n! >= 2` once `n >= 2`.
pub proof fn lemma_fact_pos(n: nat)
    ensures
        fact(n) >= 1,
        n >= 2 ==> fact(n) >= 2,
        fact(n + 1) == (n + 1) * fact(n),
    decreases n,
{
    if n > 0 {
        lemma_fact_pos((n - 1) as nat);
        assert(n * fact((n - 1) as nat) >= fact((n - 1) as nat)) by (nonlinear_arith)
            requires
                n >= 1,
                fact((n - 1) as nat) >= 1,
        ;
        if n >= 2 {
            assert(n * fact((n - 1) as nat) >= 2) by (nonlinear_arith)
                requires
                    n >= 2,
                    fact((n - 1) as nat) >= 1,
            ;
        }
    }
}

/// The roots `1 t, ..., e t` followed by `1 t, ..., m t` are linear, with
/// bound `(e+1)! (m+1)!`.
pub proof fn lemma_roots_spec_bound(e: nat, m: nat)
    ensures
        linear_roots(roots_spec(e) + roots_spec(m)),
        root_bound(roots_spec(e) + roots_spec(m)) == fact(e + 1) * fact(m + 1),
    decreases e + m,
{
    let rs = roots_spec(e) + roots_spec(m);
    if m == 0 {
        if e == 0 {
            assert(rs =~= Seq::<Seq<int>>::empty());
        } else {
            lemma_roots_spec_bound((e - 1) as nat, 0);
            assert(rs.drop_last() =~= roots_spec((e - 1) as nat) + roots_spec(0));
            assert(rs.last() =~= seq![0, e as int]);
            lemma_fact_pos(e);
            lemma_fact_pos(0);
            assert(fact(e) * fact(1) * (e + 1) == fact(e + 1) * fact(1)) by (nonlinear_arith)
                requires
                    fact(e + 1) == (e + 1) * fact(e),
                    fact(1) == 1,
            ;
        }
    } else {
        lemma_roots_spec_bound(e, (m - 1) as nat);
        assert(rs.drop_last() =~= roots_spec(e) + roots_spec((m - 1) as nat));
        assert(rs.last() =~= seq![0, m as int]);
        lemma_fact_pos(m);
        assert(fact(e + 1) * fact(m) * (m + 1) == fact(e + 1) * fact(m + 1)) by (nonlinear_arith)
            requires
                fact(m + 1) == (m + 1) * fact(m),
        ;
    }
}

/// `a! b! <= (a + b - 1)!` for `a, b >= 1`.
pub proof fn lemma_fact_product(a: nat, b: nat)
    requires
        a >= 1,
        b >= 1,
    ensures
        fact(a) * fact(b) <= fact((a + b - 1) as nat),
    decreases b,
{
    lemma_fact_pos(a);
    lemma_fact_pos(0);
    if b == 1 {
        assert(fact(a) * fact(1) == fact(a));
    } else {
        lemma_fact_product(a, (b - 1) as nat);
        lemma_fact_pos((b - 1) as nat);
        lemma_fact_pos((a + b - 2) as nat);
        let x = fact(a);
        let y = fact((b - 1) as nat);
        let z = fact((a + b - 2) as nat);
        assert(x * (b * y) <= (a + b - 1) * z) by (nonlinear_arith)
            requires
                x * y <= z,
                x >= 1,
                y >= 1,
                a >= 1,
                b >= 1,
        ;
    }
}

/// `n!` grows with `n`.
pub proof fn lemma_fact_mono(a: nat, b: nat)
    requires
        a <= b,
    ensures
        fact(a) <= fact(b),
    decreases b,
{
    if a < b {
        lemma_fact_mono(a, (b - 1) as nat);
        lemma_fact_pos((b - 1) as nat);
        assert(b * fact((b - 1) as nat) >= fact((b - 1) as nat)) by (nonlinear_arith)
            requires
                b >= 1,
                fact((b - 1) as nat) >= 1,
        ;
    }
}

/// `31! = 8222838654177922817725562880000000`.
pub proof fn lemma_fact_31()
    ensures
        fact(31) == 8222838654177922817725562880000000,
{
    assert(fact(0) == 1);
    assert(fact(1) == 1);
    assert(fact(2) == 2);
    assert(fact(3) == 6);
    assert(fact(4) == 24);
    assert(fact(5) == 120);
    assert(fact(6) == 720);
    assert(fact(7) == 5040);
    assert(fact(8) == 40320);
    assert(fact(9) == 362880);
    assert(fact(10) == 3628800);
    assert(fact(11) == 39916800);
    assert(fact(12) == 479001600);
    assert(fact(13) == 6227020800);
    assert(fact(14) == 87178291200);
    assert(fact(15) == 1307674368000);
    assert(fact(16) == 20922789888000);
    assert(fact(17) == 355687428096000);
    assert(fact(18) == 6402373705728000);
    assert(fact(19) == 121645100408832000);
    assert(fact(20) == 2432902008176640000);
    assert(fact(21) == 51090942171709440000);
    assert(fact(22) == 1124000727777607680000);
    assert(fact(23) == 25852016738884976640000);
    assert(fact(24) == 620448401733239439360000);
    assert(fact(25) == 15511210043330985984000000);
    assert(fact(26) == 403291461126605635584000000);
    assert(fact(27) == 10888869450418352160768000000);
    assert(fact(28) == 304888344611713860501504000000);
    assert(fact(29) == 8841761993739701954543616000000);
    assert(fact(30) == 265252859812191058636308480000000);
    assert(fact(31) == 8222838654177922817725562880000000);
}

} // verus!
