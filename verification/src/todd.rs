//! The Todd class as the multiplicative sequence of `x/(1 - e^-x)`,
//! computed from the Chern classes through their power sums and kept exact
//! over a common denominator.
//!
//! With formal roots `x_i`, `td = prod_i x_i/(1 - e^-x_i)`. Writing
//! `y Q'(y)/Q(y) = sum_j sigma_j y^j = y/2 - y^2/12 + y^4/720 - ...` for
//! `Q(y) = y/(1 - e^-y)`, the degree-`k` part `T_k` of `td` satisfies
//! `k T_k = sum_{j=1}^{k} sigma_j p_j T_{k-j}`, where the power sums
//! `p_j = sum_i x_i^j` come from the Chern classes by Newton's identities.
//! Every quantity is scaled so that all of it stays integral:
//! `V_k = k! 210^k T_k` and the weights `s_j = 210^j sigma_j`.

use crate::bundle::{class_at, views, VectorBundle};
use crate::laws::{lemma_conv_monomial, lemma_monomial_product};
use crate::poly::{
    add_ok, coeff, conv_upto, fits_int, lemma_add_coeff, lemma_coeff_ext, lemma_monomial_coeff,
    lemma_ops_normalized, lemma_scale_coeff, max_len, mul_ok, poly_add, poly_monomial, poly_mul, poly_one,
    poly_scale, scale_ok, Polynomial,
};
use crate::rational::RationalPolynomial;
use crate::roots::{fact, lemma_fact_mono, lemma_fact_pos};
use vstd::prelude::*;

verus! {

/// `(-1)^(i-1)`.
pub open spec fn alt_sign(i: int) -> int {
    if i % 2 == 1 {
        1
    } else {
        -1
    }
}

/// Newton's identity for `p_j`, with its first `m` terms:
/// `(-1)^(j-1) j c_j + sum_{i=1}^{m} (-1)^(i-1) c_i p_{j-i}`, where
/// `ps[i-1]` holds `p_i`.
pub open spec fn newton_partial(cs: Seq<Seq<int>>, ps: Seq<Seq<int>>, j: int, m: nat) -> Seq<int>
    decreases m,
{
    if m == 0 {
        poly_scale(class_at(cs, j), alt_sign(j) * j)
    } else {
        poly_add(
            newton_partial(cs, ps, j, (m - 1) as nat),
            poly_scale(poly_mul(class_at(cs, m as int), ps[j - m - 1]), alt_sign(m as int)),
        )
    }
}

/// The power sums `p_1, ..., p_n` of the Chern roots, from the classes.
pub open spec fn power_sums(cs: Seq<Seq<int>>, n: nat) -> Seq<Seq<int>>
    decreases n,
{
    if n == 0 {
        Seq::empty()
    } else {
        let ps = power_sums(cs, (n - 1) as nat);
        ps.push(newton_partial(cs, ps, n as int, (n - 1) as nat))
    }
}

/// The weights `s_j = 210^j sigma_j` for `j <= 9`, where
/// `sigma_j = -B_j / j!` (`B_1 = -1/2`) are the coefficients of
/// `y Q'(y)/Q(y)` for `Q(y) = y/(1 - e^-y)`.
pub open spec fn todd_weight(j: int) -> int {
    if j == 1 {
        105
    } else if j == 2 {
        -3675
    } else if j == 4 {
        2701125
    } else if j == 6 {
        -2836181250
    } else if j == 8 {
        3126889828125
    } else {
        0
    }
}

/// `(k-1)! / (k-m)!`: the product `(k-1)(k-2)...(k-m+1)`.
pub open spec fn todd_falling(k: int, m: nat) -> int
    decreases m,
{
    if m <= 1 {
        1
    } else {
        todd_falling(k, (m - 1) as nat) * (k - (m - 1))
    }
}

/// The first `m` terms of `V_k = sum_{j=1}^{k} (k-1)!/(k-j)! s_j p_j V_{k-j}`.
pub open spec fn todd_partial(ps: Seq<Seq<int>>, vs: Seq<Seq<int>>, k: int, m: nat) -> Seq<int>
    decreases m,
{
    if m == 0 {
        Seq::empty()
    } else {
        poly_add(
            todd_partial(ps, vs, k, (m - 1) as nat),
            poly_scale(poly_mul(ps[m - 1], vs[k - m]), todd_falling(k, m) * todd_weight(m as int)),
        )
    }
}

/// The scaled parts `V_0 = 1, V_1, ..., V_n` of the Todd class.
pub open spec fn todd_parts(ps: Seq<Seq<int>>, n: nat) -> Seq<Seq<int>>
    decreases n,
{
    if n == 0 {
        seq![poly_one()]
    } else {
        let vs = todd_parts(ps, (n - 1) as nat);
        vs.push(todd_partial(ps, vs, n as int, n))
    }
}

/// `d! / k! * 210^(d-k)`, which brings `V_k` over the common denominator.
pub open spec fn todd_scale(d: nat, k: nat) -> int
    decreases d - k,
{
    if k >= d {
        1
    } else {
        todd_scale(d, k + 1) * (k + 1) * 210
    }
}

/// `sum_{i=k}^{d} todd_scale(d, i) V_i`.
pub open spec fn todd_sum_from(vs: Seq<Seq<int>>, d: nat, k: nat) -> Seq<int>
    decreases d + 1 - k,
{
    if k > d {
        Seq::empty()
    } else {
        poly_add(todd_sum_from(vs, d, k + 1), poly_scale(vs[k as int], todd_scale(d, k)))
    }
}

/// The degree to which the Todd class is taken: the rank, and at least 3.
pub open spec fn todd_degree(rank: nat) -> nat {
    if rank < 3 {
        3
    } else {
        rank
    }
}

/// The numerator of `T_0 + T_1 + ... + T_d` over `todd_denominator(d)`.
pub open spec fn todd_class_numerator(cs: Seq<Seq<int>>, d: nat) -> Seq<int> {
    todd_sum_from(todd_parts(power_sums(cs, d), d), d, 0)
}

/// The common denominator `d! 210^d`.
pub open spec fn todd_denominator(d: nat) -> int {
    todd_scale(d, 0)
}

/// Step `m` of Newton's identity for `p_j` stays in range.
pub open spec fn newton_step_ok(cs: Seq<Seq<int>>, ps: Seq<Seq<int>>, j: int, m: int) -> bool {
    &&& mul_ok(class_at(cs, m), ps[j - m - 1])
    &&& scale_ok(poly_mul(class_at(cs, m), ps[j - m - 1]), alt_sign(m))
    &&& add_ok(
        newton_partial(cs, ps, j, (m - 1) as nat),
        poly_scale(poly_mul(class_at(cs, m), ps[j - m - 1]), alt_sign(m)),
    )
}

/// Newton's identity for `p_j` stays in range.
pub open spec fn newton_ok(cs: Seq<Seq<int>>, j: int) -> bool {
    &&& scale_ok(class_at(cs, j), alt_sign(j) * j)
    &&& forall|m: int| 1 <= m < j ==> #[trigger] newton_step_ok(cs, power_sums(cs, (j - 1) as nat), j, m)
}

/// Step `m` of `V_k` stays in range.
pub open spec fn todd_step_ok(ps: Seq<Seq<int>>, vs: Seq<Seq<int>>, k: int, m: int) -> bool {
    &&& mul_ok(ps[m - 1], vs[k - m])
    &&& scale_ok(poly_mul(ps[m - 1], vs[k - m]), todd_falling(k, m as nat) * todd_weight(m))
    &&& add_ok(
        todd_partial(ps, vs, k, (m - 1) as nat),
        poly_scale(poly_mul(ps[m - 1], vs[k - m]), todd_falling(k, m as nat) * todd_weight(m)),
    )
}

/// `V_k` stays in range.
pub open spec fn todd_part_ok(cs: Seq<Seq<int>>, d: nat, k: int) -> bool {
    forall|m: int|
        1 <= m <= k ==> #[trigger] todd_step_ok(
            power_sums(cs, d),
            todd_parts(power_sums(cs, d), (k - 1) as nat),
            k,
            m,
        )
}

/// Adding `todd_scale(d, k) V_k` to the total stays in range.
pub open spec fn todd_sum_ok(cs: Seq<Seq<int>>, d: nat, k: int) -> bool {
    &&& scale_ok(todd_parts(power_sums(cs, d), d)[k], todd_scale(d, k as nat))
    &&& add_ok(
        todd_sum_from(todd_parts(power_sums(cs, d), d), d, (k + 1) as nat),
        poly_scale(todd_parts(power_sums(cs, d), d)[k], todd_scale(d, k as nat)),
    )
}

/// Every step of the Todd class to degree `d` stays in `i128`.
#[verifier::opaque]
pub open spec fn todd_ok(cs: Seq<Seq<int>>, d: nat) -> bool {
    &&& forall|j: int| 1 <= j <= d ==> #[trigger] newton_ok(cs, j)
    &&& forall|k: int| 1 <= k <= d ==> #[trigger] todd_part_ok(cs, d, k)
    &&& forall|k: int| 0 <= k <= d ==> #[trigger] todd_sum_ok(cs, d, k)
}

/// `todd_falling(k, m) (k-m)! = (k-1)!` for `1 <= m <= k`.
proof fn lemma_falling_fact(k: nat, m: nat)
    requires
        1 <= m <= k,
    ensures
        todd_falling(k as int, m) * fact((k - m) as nat) == fact((k - 1) as nat),
    decreases m,
{
    if m > 1 {
        lemma_falling_fact(k, (m - 1) as nat);
        let f = todd_falling(k as int, (m - 1) as nat);
        let r = (k - m) as nat;
        lemma_fact_pos(r);
        assert(fact((r + 1) as nat) == (r + 1) * fact(r));
        assert(f * (k - (m - 1)) * fact(r) == f * fact((r + 1) as nat)) by (nonlinear_arith)
            requires
                fact((r + 1) as nat) == (r + 1) * fact(r),
                k - (m - 1) == r + 1,
        ;
    }
}

/// `todd_falling(k, m) = (k-1)!/(k-m)!` lies in `1..=8!` for `1 <= m <= k <= 9`.
proof fn lemma_falling_bound(k: nat, m: nat)
    requires
        1 <= m <= k <= 9,
    ensures
        1 <= todd_falling(k as int, m) <= 40320,
{
    lemma_falling_fact(k, m);
    lemma_fact_pos((k - m) as nat);
    lemma_fact_pos((k - 1) as nat);
    lemma_fact_mono((k - 1) as nat, 8);
    assert(fact(8) == 40320) by {
        lemma_fact_pos(0);
        lemma_fact_pos(1);
        lemma_fact_pos(2);
        lemma_fact_pos(3);
        lemma_fact_pos(4);
        lemma_fact_pos(5);
        lemma_fact_pos(6);
        lemma_fact_pos(7);
        assert(fact(0) == 1);
    }
    let f = todd_falling(k as int, m);
    let g = fact((k - m) as nat);
    assert(1 <= f <= 40320) by (nonlinear_arith)
        requires
            f * g == fact((k - 1) as nat),
            g >= 1,
            fact((k - 1) as nat) <= 40320,
            fact((k - 1) as nat) >= 1,
    ;
}

/// `todd_scale(d, 0) = d! 210^d` fits comfortably in an `i128` for `d <= 9`.
proof fn lemma_scale_max(d: nat)
    requires
        3 <= d <= 9,
    ensures
        todd_scale(d, 0) <= 288228343303313280000000000,
{
    if d == 3 {
        assert(todd_scale(3, 3) == 1);
        assert(todd_scale(3, 2) == todd_scale(3, 3) * 3 * 210);
        assert(todd_scale(3, 2) == 630);
        assert(todd_scale(3, 1) == todd_scale(3, 2) * 2 * 210);
        assert(todd_scale(3, 1) == 264600);
        assert(todd_scale(3, 0) == todd_scale(3, 1) * 1 * 210);
        assert(todd_scale(3, 0) == 55566000);
    }
    if d == 4 {
        assert(todd_scale(4, 4) == 1);
        assert(todd_scale(4, 3) == todd_scale(4, 4) * 4 * 210);
        assert(todd_scale(4, 3) == 840);
        assert(todd_scale(4, 2) == todd_scale(4, 3) * 3 * 210);
        assert(todd_scale(4, 2) == 529200);
        assert(todd_scale(4, 1) == todd_scale(4, 2) * 2 * 210);
        assert(todd_scale(4, 1) == 222264000);
        assert(todd_scale(4, 0) == todd_scale(4, 1) * 1 * 210);
        assert(todd_scale(4, 0) == 46675440000);
    }
    if d == 5 {
        assert(todd_scale(5, 5) == 1);
        assert(todd_scale(5, 4) == todd_scale(5, 5) * 5 * 210);
        assert(todd_scale(5, 4) == 1050);
        assert(todd_scale(5, 3) == todd_scale(5, 4) * 4 * 210);
        assert(todd_scale(5, 3) == 882000);
        assert(todd_scale(5, 2) == todd_scale(5, 3) * 3 * 210);
        assert(todd_scale(5, 2) == 555660000);
        assert(todd_scale(5, 1) == todd_scale(5, 2) * 2 * 210);
        assert(todd_scale(5, 1) == 233377200000);
        assert(todd_scale(5, 0) == todd_scale(5, 1) * 1 * 210);
        assert(todd_scale(5, 0) == 49009212000000);
    }
    if d == 6 {
        assert(todd_scale(6, 6) == 1);
        assert(todd_scale(6, 5) == todd_scale(6, 6) * 6 * 210);
        assert(todd_scale(6, 5) == 1260);
        assert(todd_scale(6, 4) == todd_scale(6, 5) * 5 * 210);
        assert(todd_scale(6, 4) == 1323000);
        assert(todd_scale(6, 3) == todd_scale(6, 4) * 4 * 210);
        assert(todd_scale(6, 3) == 1111320000);
        assert(todd_scale(6, 2) == todd_scale(6, 3) * 3 * 210);
        assert(todd_scale(6, 2) == 700131600000);
        assert(todd_scale(6, 1) == todd_scale(6, 2) * 2 * 210);
        assert(todd_scale(6, 1) == 294055272000000);
        assert(todd_scale(6, 0) == todd_scale(6, 1) * 1 * 210);
        assert(todd_scale(6, 0) == 61751607120000000);
    }
    if d == 7 {
        assert(todd_scale(7, 7) == 1);
        assert(todd_scale(7, 6) == todd_scale(7, 7) * 7 * 210);
        assert(todd_scale(7, 6) == 1470);
        assert(todd_scale(7, 5) == todd_scale(7, 6) * 6 * 210);
        assert(todd_scale(7, 5) == 1852200);
        assert(todd_scale(7, 4) == todd_scale(7, 5) * 5 * 210);
        assert(todd_scale(7, 4) == 1944810000);
        assert(todd_scale(7, 3) == todd_scale(7, 4) * 4 * 210);
        assert(todd_scale(7, 3) == 1633640400000);
        assert(todd_scale(7, 2) == todd_scale(7, 3) * 3 * 210);
        assert(todd_scale(7, 2) == 1029193452000000);
        assert(todd_scale(7, 1) == todd_scale(7, 2) * 2 * 210);
        assert(todd_scale(7, 1) == 432261249840000000);
        assert(todd_scale(7, 0) == todd_scale(7, 1) * 1 * 210);
        assert(todd_scale(7, 0) == 90774862466400000000);
    }
    if d == 8 {
        assert(todd_scale(8, 8) == 1);
        assert(todd_scale(8, 7) == todd_scale(8, 8) * 8 * 210);
        assert(todd_scale(8, 7) == 1680);
        assert(todd_scale(8, 6) == todd_scale(8, 7) * 7 * 210);
        assert(todd_scale(8, 6) == 2469600);
        assert(todd_scale(8, 5) == todd_scale(8, 6) * 6 * 210);
        assert(todd_scale(8, 5) == 3111696000);
        assert(todd_scale(8, 4) == todd_scale(8, 5) * 5 * 210);
        assert(todd_scale(8, 4) == 3267280800000);
        assert(todd_scale(8, 3) == todd_scale(8, 4) * 4 * 210);
        assert(todd_scale(8, 3) == 2744515872000000);
        assert(todd_scale(8, 2) == todd_scale(8, 3) * 3 * 210);
        assert(todd_scale(8, 2) == 1729044999360000000);
        assert(todd_scale(8, 1) == todd_scale(8, 2) * 2 * 210);
        assert(todd_scale(8, 1) == 726198899731200000000);
        assert(todd_scale(8, 0) == todd_scale(8, 1) * 1 * 210);
        assert(todd_scale(8, 0) == 152501768943552000000000);
    }
    if d == 9 {
        assert(todd_scale(9, 9) == 1);
        assert(todd_scale(9, 8) == todd_scale(9, 9) * 9 * 210);
        assert(todd_scale(9, 8) == 1890);
        assert(todd_scale(9, 7) == todd_scale(9, 8) * 8 * 210);
        assert(todd_scale(9, 7) == 3175200);
        assert(todd_scale(9, 6) == todd_scale(9, 7) * 7 * 210);
        assert(todd_scale(9, 6) == 4667544000);
        assert(todd_scale(9, 5) == todd_scale(9, 6) * 6 * 210);
        assert(todd_scale(9, 5) == 5881105440000);
        assert(todd_scale(9, 4) == todd_scale(9, 5) * 5 * 210);
        assert(todd_scale(9, 4) == 6175160712000000);
        assert(todd_scale(9, 3) == todd_scale(9, 4) * 4 * 210);
        assert(todd_scale(9, 3) == 5187134998080000000);
        assert(todd_scale(9, 2) == todd_scale(9, 3) * 3 * 210);
        assert(todd_scale(9, 2) == 3267895048790400000000);
        assert(todd_scale(9, 1) == todd_scale(9, 2) * 2 * 210);
        assert(todd_scale(9, 1) == 1372515920491968000000000);
        assert(todd_scale(9, 0) == todd_scale(9, 1) * 1 * 210);
        assert(todd_scale(9, 0) == 288228343303313280000000000);
    }
}


/// There are `n` power sums.
proof fn lemma_power_sums_len(cs: Seq<Seq<int>>, n: nat)
    ensures
        power_sums(cs, n).len() == n,
    decreases n,
{
    if n > 0 {
        lemma_power_sums_len(cs, (n - 1) as nat);
    }
}

/// There are `n + 1` scaled parts.
proof fn lemma_todd_parts_len(ps: Seq<Seq<int>>, n: nat)
    ensures
        todd_parts(ps, n).len() == n + 1,
    decreases n,
{
    if n > 0 {
        lemma_todd_parts_len(ps, (n - 1) as nat);
    }
}

/// `todd_scale(d, k) <= todd_scale(d, 0)` for `k <= d`, walking down to `0`.
proof fn lemma_scale_down(d: nat, k: nat)
    requires
        k <= d,
    ensures
        todd_scale(d, k) <= todd_scale(d, 0),
    decreases k,
{
    if k > 0 {
        lemma_scale_down(d, (k - 1) as nat);
        lemma_scale_pos(d, k);
        let s = todd_scale(d, k);
        assert(s * k * 210 >= s) by (nonlinear_arith)
            requires
                s >= 1,
                k >= 1,
        ;
    }
}

/// `todd_scale(d, k) >= 1`.
proof fn lemma_scale_pos(d: nat, k: nat)
    ensures
        todd_scale(d, k) >= 1,
    decreases d - k,
{
    if k < d {
        lemma_scale_pos(d, k + 1);
        let s = todd_scale(d, k + 1);
        assert(s * (k + 1) * 210 >= 1) by (nonlinear_arith)
            requires
                s >= 1,
        ;
    }
}

/// Newton's identity for `p_j` stays in range under `todd_ok`.
proof fn lemma_newton_ok(cs: Seq<Seq<int>>, d: nat, j: int)
    requires
        todd_ok(cs, d),
        1 <= j <= d,
    ensures
        newton_ok(cs, j),
{
    reveal(todd_ok);
}

/// `V_k` stays in range under `todd_ok`.
proof fn lemma_part_ok(cs: Seq<Seq<int>>, d: nat, k: int)
    requires
        todd_ok(cs, d),
        1 <= k <= d,
    ensures
        todd_part_ok(cs, d, k),
{
    reveal(todd_ok);
}

/// The total stays in range under `todd_ok`.
proof fn lemma_sum_ok(cs: Seq<Seq<int>>, d: nat, k: int)
    requires
        todd_ok(cs, d),
        0 <= k <= d,
    ensures
        todd_sum_ok(cs, d, k),
{
    reveal(todd_ok);
}

/// The weight `s_j`.
fn weight(j: usize) -> (w: i128)
    ensures
        w == todd_weight(j as int),
        -3126889828125 <= w <= 3126889828125,
{
    if j == 1 {
        105
    } else if j == 2 {
        -3675
    } else if j == 4 {
        2701125
    } else if j == 6 {
        -2836181250
    } else if j == 8 {
        3126889828125
    } else {
        0
    }
}

/// The power sums `p_1, ..., p_d` of the Chern roots of the bundle.
fn power_sums_vec(bundle: &VectorBundle, d: usize) -> (ps: Vec<Polynomial>)
    requires
        d <= 9,
        todd_ok(bundle@.classes, d as nat),
    ensures
        views(ps@) == power_sums(bundle@.classes, d as nat),
{
    let ghost cs = bundle@.classes;
    let mut ps: Vec<Polynomial> = Vec::new();
    let mut j: usize = 1;
    while j <= d
        invariant
            cs == bundle@.classes,
            d <= 9,
            todd_ok(cs, d as nat),
            1 <= j <= d + 1,
            views(ps@) == power_sums(cs, (j - 1) as nat),
        decreases d + 1 - j,
    {
        proof {
            lemma_newton_ok(cs, d as nat, j as int);
            lemma_power_sums_len(cs, (j - 1) as nat);
        }
        let ghost pv = views(ps@);
        let sj: i128 = if j % 2 == 1 {
            j as i128
        } else {
            -(j as i128)
        };
        assert(sj == alt_sign(j as int) * j);
        let mut acc = bundle.get_chern_class(j).scale(sj);
        let mut m: usize = 1;
        while m < j
            invariant
                cs == bundle@.classes,
                1 <= m <= j,
                j <= 9,
                pv == views(ps@),
                pv == power_sums(cs, (j - 1) as nat),
                pv.len() == j - 1,
                newton_ok(cs, j as int),
                acc@ == newton_partial(cs, pv, j as int, (m - 1) as nat),
            decreases j - m,
        {
            assert(newton_step_ok(cs, power_sums(cs, (j - 1) as nat), j as int, m as int));
            let prod = bundle.get_chern_class(m).mul(&ps[j - m - 1]);
            let sg: i128 = if m % 2 == 1 {
                1
            } else {
                -1
            };
            let term = prod.scale(sg);
            acc = acc.add(&term);
            m += 1;
        }
        let ghost last = acc@;
        ps.push(acc);
        assert(views(ps@) =~= pv.push(last));
        j += 1;
    }
    ps
}

/// The scaled parts `V_0, ..., V_d` of the Todd class.
fn todd_parts_vec(bundle: &VectorBundle, ps: &Vec<Polynomial>, d: usize) -> (vs: Vec<Polynomial>)
    requires
        d <= 9,
        todd_ok(bundle@.classes, d as nat),
        views(ps@) == power_sums(bundle@.classes, d as nat),
    ensures
        views(vs@) == todd_parts(power_sums(bundle@.classes, d as nat), d as nat),
{
    let ghost cs = bundle@.classes;
    let ghost pv = views(ps@);
    proof {
        lemma_power_sums_len(cs, d as nat);
    }
    let mut vs: Vec<Polynomial> = Vec::new();
    vs.push(Polynomial::one());
    assert(views(vs@) =~= todd_parts(pv, 0));
    let mut k: usize = 1;
    while k <= d
        invariant
            cs == bundle@.classes,
            d <= 9,
            todd_ok(cs, d as nat),
            pv == views(ps@),
            pv == power_sums(cs, d as nat),
            pv.len() == d,
            1 <= k <= d + 1,
            views(vs@) == todd_parts(pv, (k - 1) as nat),
        decreases d + 1 - k,
    {
        proof {
            lemma_part_ok(cs, d as nat, k as int);
            lemma_todd_parts_len(pv, (k - 1) as nat);
        }
        let ghost vv = views(vs@);
        let mut acc = Polynomial::zero();
        let mut c: i128 = 1;
        let mut m: usize = 1;
        while m <= k
            invariant
                cs == bundle@.classes,
                1 <= m <= k + 1,
                k <= d,
                d <= 9,
                pv == views(ps@),
                pv == power_sums(cs, d as nat),
                pv.len() == d,
                vv == views(vs@),
                vv == todd_parts(pv, (k - 1) as nat),
                vv.len() == k,
                todd_part_ok(cs, d as nat, k as int),
                m <= k ==> c == todd_falling(k as int, m as nat),
                acc@ == todd_partial(pv, vv, k as int, (m - 1) as nat),
            decreases k + 1 - m,
        {
            assert(todd_step_ok(pv, vv, k as int, m as int));
            proof {
                lemma_falling_bound(k as nat, m as nat);
            }
            let w = weight(m);
            assert(-200000000000000000 <= c * w <= 200000000000000000) by (nonlinear_arith)
                requires
                    1 <= c <= 40320,
                    -3126889828125 <= w <= 3126889828125,
            ;
            let coef = c * w;
            let prod = ps[m - 1].mul(&vs[k - m]);
            let term = prod.scale(coef);
            acc = acc.add(&term);
            if m < k {
                proof {
                    lemma_falling_bound(k as nat, (m + 1) as nat);
                }
                c = c * ((k - m) as i128);
            }
            m += 1;
        }
        let ghost last = acc@;
        vs.push(acc);
        assert(views(vs@) =~= vv.push(last));
        k += 1;
    }
    vs
}

/// The Todd class of the bundle up to degree `d`, over `d! 210^d`.
pub(crate) fn todd_class(bundle: &VectorBundle, d: usize) -> (td: RationalPolynomial)
    requires
        3 <= d <= 9,
        todd_ok(bundle@.classes, d as nat),
    ensures
        td@.numerator == todd_class_numerator(bundle@.classes, d as nat),
        td@.denominator == todd_denominator(d as nat),
{
    let ghost cs = bundle@.classes;
    let ps = power_sums_vec(bundle, d);
    let vs = todd_parts_vec(bundle, &ps, d);
    let ghost vv = views(vs@);
    proof {
        lemma_todd_parts_len(power_sums(cs, d as nat), d as nat);
        lemma_scale_max(d as nat);
    }
    let mut acc = Polynomial::zero();
    let mut f: i128 = 1;
    let mut i: usize = d + 1;
    assert(acc@ =~= todd_sum_from(vv, d as nat, (d + 1) as nat));
    while i > 0
        invariant
            cs == bundle@.classes,
            3 <= d <= 9,
            todd_ok(cs, d as nat),
            vv == views(vs@),
            vv == todd_parts(power_sums(cs, d as nat), d as nat),
            vv.len() == d + 1,
            i <= d + 1,
            acc@ == todd_sum_from(vv, d as nat, i as nat),
            i > 0 ==> f == todd_scale(d as nat, (i - 1) as nat),
            i == 0 ==> f == todd_scale(d as nat, 0),
            todd_scale(d as nat, 0) <= 288228343303313280000000000,
        decreases i,
    {
        let k = i - 1;
        proof {
            lemma_sum_ok(cs, d as nat, k as int);
        }
        let term = vs[k].scale(f);
        acc = acc.add(&term);
        if k > 0 {
            proof {
                lemma_scale_down(d as nat, (k - 1) as nat);
                lemma_scale_pos(d as nat, k as nat);
                let s = todd_scale(d as nat, k as nat);
                assert(s * k <= s * k * 210) by (nonlinear_arith)
                    requires
                        s >= 1,
                        k >= 1,
                ;
            }
            f = f * (k as i128) * 210;
        }
        i -= 1;
    }
    proof {
        lemma_scale_pos(d as nat, 0);
    }
    RationalPolynomial::new(acc, f as u128)
}


// ---------------------------------------------------------------------------
// Graded classes: when every class `c_j` is a monomial `a_j t^j`, so is
// every power sum and every part of the Todd class, with coefficients given
// by the same recurrences on integers.
// ---------------------------------------------------------------------------

/// Every class `c_j`, `j >= 1`, is the monomial `a_j t^j`.
pub open spec fn graded_by(cs: Seq<Seq<int>>, a: Seq<int>) -> bool {
    forall|j: int| j >= 1 ==> #[trigger] class_at(cs, j) == poly_monomial(coeff(a, j), j as nat)
}

/// Newton's identity on the coefficients.
pub open spec fn newton_scalar(a: Seq<int>, ps: Seq<int>, j: int, m: nat) -> int
    decreases m,
{
    if m == 0 {
        coeff(a, j) * (alt_sign(j) * j)
    } else {
        newton_scalar(a, ps, j, (m - 1) as nat) + coeff(a, m as int) * ps[j - m - 1] * alt_sign(m as int)
    }
}

/// The coefficients of the power sums `p_1, ..., p_n`.
pub open spec fn power_sums_scalar(a: Seq<int>, n: nat) -> Seq<int>
    decreases n,
{
    if n == 0 {
        Seq::empty()
    } else {
        let ps = power_sums_scalar(a, (n - 1) as nat);
        ps.push(newton_scalar(a, ps, n as int, (n - 1) as nat))
    }
}

/// The recurrence of `V_k` on the coefficients.
pub open spec fn todd_partial_scalar(ps: Seq<int>, vs: Seq<int>, k: int, m: nat) -> int
    decreases m,
{
    if m == 0 {
        0
    } else {
        todd_partial_scalar(ps, vs, k, (m - 1) as nat) + ps[m - 1] * vs[k - m] * (todd_falling(k, m)
            * todd_weight(m as int))
    }
}

/// The coefficients of `V_0, ..., V_n`.
pub open spec fn todd_parts_scalar(ps: Seq<int>, n: nat) -> Seq<int>
    decreases n,
{
    if n == 0 {
        seq![1int]
    } else {
        let vs = todd_parts_scalar(ps, (n - 1) as nat);
        vs.push(todd_partial_scalar(ps, vs, n as int, n))
    }
}

/// `(x t^d) c = (xc) t^d`.
proof fn lemma_scale_monomial(x: int, d: nat, c: int)
    ensures
        poly_scale(poly_monomial(x, d), c) == poly_monomial(x * c, d),
{
    let l = poly_scale(poly_monomial(x, d), c);
    let r = poly_monomial(x * c, d);
    assert forall|k: int| #[trigger] coeff(l, k) == coeff(r, k) by {
        lemma_scale_coeff(poly_monomial(x, d), c, k);
        lemma_monomial_coeff(x, d, k);
        lemma_monomial_coeff(x * c, d, k);
        assert(0 * c == 0) by (nonlinear_arith);
    }
    lemma_ops_normalized(poly_monomial(x, d), poly_monomial(x, d), c);
    lemma_monomial_coeff(x * c, d, 0);
    lemma_coeff_ext(l, r);
}

/// `x t^d + y t^d = (x + y) t^d`.
proof fn lemma_add_monomials(x: int, y: int, d: nat)
    ensures
        poly_add(poly_monomial(x, d), poly_monomial(y, d)) == poly_monomial(x + y, d),
{
    let l = poly_add(poly_monomial(x, d), poly_monomial(y, d));
    let r = poly_monomial(x + y, d);
    assert forall|k: int| #[trigger] coeff(l, k) == coeff(r, k) by {
        lemma_add_coeff(poly_monomial(x, d), poly_monomial(y, d), k);
        lemma_monomial_coeff(x, d, k);
        lemma_monomial_coeff(y, d, k);
        lemma_monomial_coeff(x + y, d, k);
    }
    lemma_ops_normalized(poly_monomial(x, d), poly_monomial(y, d), 0);
    lemma_monomial_coeff(x + y, d, 0);
    lemma_coeff_ext(l, r);
}

/// Newton's identity on graded classes.
proof fn lemma_newton_graded(cs: Seq<Seq<int>>, a: Seq<int>, ps: Seq<Seq<int>>, psc: Seq<int>, j: int, m: nat)
    requires
        graded_by(cs, a),
        j >= 1,
        m < j,
        ps.len() == j - 1,
        psc.len() == j - 1,
        forall|i: int| 0 <= i < j - 1 ==> #[trigger] ps[i] == poly_monomial(psc[i], (i + 1) as nat),
    ensures
        newton_partial(cs, ps, j, m) == poly_monomial(newton_scalar(a, psc, j, m), j as nat),
    decreases m,
{
    if m == 0 {
        assert(class_at(cs, j) == poly_monomial(coeff(a, j), j as nat));
        lemma_scale_monomial(coeff(a, j), j as nat, alt_sign(j) * j);
    } else {
        lemma_newton_graded(cs, a, ps, psc, j, (m - 1) as nat);
        let am = coeff(a, m as int);
        let p = psc[j - m - 1];
        assert(class_at(cs, m as int) == poly_monomial(am, m));
        assert(ps[j - m - 1] == poly_monomial(p, (j - m) as nat));
        lemma_monomial_product(am, m, p, (j - m) as nat);
        assert(m + (j - m) as nat == j as nat);
        lemma_scale_monomial(am * p, j as nat, alt_sign(m as int));
        lemma_add_monomials(newton_scalar(a, psc, j, (m - 1) as nat), am * p * alt_sign(m as int), j as nat);
    }
}

/// The power sums of graded classes.
proof fn lemma_power_sums_graded(cs: Seq<Seq<int>>, a: Seq<int>, n: nat)
    requires
        graded_by(cs, a),
    ensures
        power_sums(cs, n).len() == n,
        power_sums_scalar(a, n).len() == n,
        forall|i: int|
            0 <= i < n ==> #[trigger] power_sums(cs, n)[i] == poly_monomial(
                power_sums_scalar(a, n)[i],
                (i + 1) as nat,
            ),
    decreases n,
{
    if n > 0 {
        let ps = power_sums(cs, (n - 1) as nat);
        let psc = power_sums_scalar(a, (n - 1) as nat);
        lemma_power_sums_graded(cs, a, (n - 1) as nat);
        lemma_newton_graded(cs, a, ps, psc, n as int, (n - 1) as nat);
    }
}

/// The recurrence of `V_k` on graded power sums and parts.
proof fn lemma_todd_partial_graded(
    ps: Seq<Seq<int>>,
    psc: Seq<int>,
    vs: Seq<Seq<int>>,
    vsc: Seq<int>,
    k: int,
    m: nat,
)
    requires
        m <= k,
        ps.len() >= k,
        psc.len() == ps.len(),
        vs.len() == k,
        vsc.len() == k,
        forall|i: int| 0 <= i < ps.len() ==> #[trigger] ps[i] == poly_monomial(psc[i], (i + 1) as nat),
        forall|i: int| 0 <= i < k ==> #[trigger] vs[i] == poly_monomial(vsc[i], i as nat),
    ensures
        todd_partial(ps, vs, k, m) == poly_monomial(todd_partial_scalar(psc, vsc, k, m), k as nat),
    decreases m,
{
    if m > 0 {
        lemma_todd_partial_graded(ps, psc, vs, vsc, k, (m - 1) as nat);
        let p = psc[m - 1];
        let v = vsc[k - m];
        let c = todd_falling(k, m) * todd_weight(m as int);
        assert(ps[m - 1] == poly_monomial(p, m));
        assert(vs[k - m] == poly_monomial(v, (k - m) as nat));
        lemma_monomial_product(p, m, v, (k - m) as nat);
        assert(m + (k - m) as nat == k as nat);
        lemma_scale_monomial(p * v, k as nat, c);
        lemma_add_monomials(todd_partial_scalar(psc, vsc, k, (m - 1) as nat), p * v * c, k as nat);
    }
}

/// The parts of the Todd class of graded power sums.
proof fn lemma_todd_parts_graded(ps: Seq<Seq<int>>, psc: Seq<int>, n: nat)
    requires
        ps.len() >= n,
        psc.len() == ps.len(),
        forall|i: int| 0 <= i < ps.len() ==> #[trigger] ps[i] == poly_monomial(psc[i], (i + 1) as nat),
    ensures
        todd_parts(ps, n).len() == n + 1,
        todd_parts_scalar(psc, n).len() == n + 1,
        forall|i: int|
            0 <= i <= n ==> #[trigger] todd_parts(ps, n)[i] == poly_monomial(
                todd_parts_scalar(psc, n)[i],
                i as nat,
            ),
    decreases n,
{
    if n == 0 {
        assert(poly_monomial(1, 0) =~= poly_one());
    } else {
        lemma_todd_parts_graded(ps, psc, (n - 1) as nat);
        lemma_todd_partial_graded(
            ps,
            psc,
            todd_parts(ps, (n - 1) as nat),
            todd_parts_scalar(psc, (n - 1) as nat),
            n as int,
            n,
        );
    }
}

/// The coefficients of the total of graded parts.
proof fn lemma_todd_sum_graded(vs: Seq<Seq<int>>, vsc: Seq<int>, d: nat, k: nat, t: int)
    requires
        vs.len() == d + 1,
        vsc.len() == d + 1,
        forall|i: int| 0 <= i <= d ==> #[trigger] vs[i] == poly_monomial(vsc[i], i as nat),
    ensures
        coeff(todd_sum_from(vs, d, k), t) == (if k <= t <= d { vsc[t] * todd_scale(d, t as nat) } else { 0 }),
    decreases d + 1 - k,
{
    if k <= d {
        lemma_todd_sum_graded(vs, vsc, d, k + 1, t);
        let m = poly_monomial(vsc[k as int], k);
        assert(vs[k as int] == m);
        lemma_add_coeff(todd_sum_from(vs, d, k + 1), poly_scale(m, todd_scale(d, k)), t);
        lemma_scale_monomial(vsc[k as int], k, todd_scale(d, k));
        lemma_monomial_coeff(vsc[k as int] * todd_scale(d, k), k, t);
    }
}

/// On graded classes, coefficient `t` of the Todd class numerator is
/// `todd_scale(d, t)` times the coefficient of `V_t`.
pub proof fn lemma_todd_graded(cs: Seq<Seq<int>>, a: Seq<int>, d: nat, t: int)
    requires
        graded_by(cs, a),
    ensures
        coeff(todd_class_numerator(cs, d), t) == (if 0 <= t <= d {
            todd_parts_scalar(power_sums_scalar(a, d), d)[t] * todd_scale(d, t as nat)
        } else {
            0
        }),
{
    lemma_power_sums_graded(cs, a, d);
    let ps = power_sums(cs, d);
    let psc = power_sums_scalar(a, d);
    lemma_todd_parts_graded(ps, psc, d);
    lemma_todd_sum_graded(todd_parts(ps, d), todd_parts_scalar(psc, d), d, 0, t);
}


// ---------------------------------------------------------------------------
// When the classes are graded, every step is a monomial, and the steps stay
// in range exactly when their coefficients do.
// ---------------------------------------------------------------------------

/// `(x t^i)(y t^j)` is computed without overflow when `xy` fits.
proof fn lemma_mono_mul_ok(x: int, i: nat, y: int, j: nat)
    requires
        fits_int(x * y),
        i + j + 2 <= usize::MAX,
    ensures
        mul_ok(poly_monomial(x, i), poly_monomial(y, j)),
{
    reveal(mul_ok);
    let a = poly_monomial(x, i);
    let b = poly_monomial(y, j);
    assert forall|p: int, q: int| 0 <= p < a.len() && 0 <= q < b.len() implies fits_int(#[trigger] (a[p] * b[q])) by {
        let u = a[p];
        let v = b[q];
        assert(u == 0 || u == x);
        assert(v == 0 || v == y);
        assert(u * v == 0 || u * v == x * y) by (nonlinear_arith)
            requires
                u == 0 || u == x,
                v == 0 || v == y,
        ;
    }
    assert forall|k: int, n: nat| 0 <= k < a.len() + b.len() && n <= a.len() implies fits_int(
        #[trigger] conv_upto(a, b, k, n),
    ) by {
        lemma_conv_monomial(x, i, b, k, n);
        lemma_monomial_coeff(y, j, k - i);
        let v = coeff(b, k - i);
        assert(x * v == 0 || x * v == x * y) by (nonlinear_arith)
            requires
                v == 0 || v == y,
        ;
    }
}

/// `c (x t^d)` is computed without overflow when `xc` fits.
proof fn lemma_mono_scale_ok(x: int, d: nat, c: int)
    requires
        fits_int(x * c),
    ensures
        scale_ok(poly_monomial(x, d), c),
{
    reveal(scale_ok);
    let a = poly_monomial(x, d);
    assert forall|k: int| 0 <= k < a.len() implies fits_int(#[trigger] a[k] * c) by {
        let u = a[k];
        assert(u == 0 || u == x);
        assert(u * c == 0 || u * c == x * c) by (nonlinear_arith)
            requires
                u == 0 || u == x,
        ;
    }
}

/// `x t^d + y t^d` is computed without overflow when `x + y` fits.
proof fn lemma_mono_add_ok(x: int, y: int, d: nat)
    requires
        fits_int(x + y),
    ensures
        add_ok(poly_monomial(x, d), poly_monomial(y, d)),
{
    reveal(add_ok);
    assert forall|k: int| 0 <= k < max_len(poly_monomial(x, d), poly_monomial(y, d)) implies fits_int(
        #[trigger] coeff(poly_monomial(x, d), k) + coeff(poly_monomial(y, d), k),
    ) by {
        lemma_monomial_coeff(x, d, k);
        lemma_monomial_coeff(y, d, k);
    }
}

/// Step `m` of Newton's identity for `p_j` fits, on the coefficients.
pub open spec fn newton_step_fits(a: Seq<int>, ps: Seq<int>, j: int, m: int) -> bool {
    &&& fits_int(coeff(a, m) * ps[j - m - 1])
    &&& fits_int(coeff(a, m) * ps[j - m - 1] * alt_sign(m))
    &&& fits_int(newton_scalar(a, ps, j, m as nat))
}

/// Newton's identity for `p_j` fits, on the coefficients.
pub open spec fn newton_fits(a: Seq<int>, j: int) -> bool {
    &&& fits_int(coeff(a, j) * (alt_sign(j) * j))
    &&& forall|m: int| 1 <= m < j ==> #[trigger] newton_step_fits(a, power_sums_scalar(a, (j - 1) as nat), j, m)
}

/// Step `m` of `V_k` fits, on the coefficients.
pub open spec fn todd_step_fits(ps: Seq<int>, vs: Seq<int>, k: int, m: int) -> bool {
    &&& fits_int(ps[m - 1] * vs[k - m])
    &&& fits_int(ps[m - 1] * vs[k - m] * (todd_falling(k, m as nat) * todd_weight(m)))
    &&& fits_int(todd_partial_scalar(ps, vs, k, m as nat))
}

/// `V_k` fits, on the coefficients.
pub open spec fn todd_part_fits(a: Seq<int>, d: nat, k: int) -> bool {
    forall|m: int|
        1 <= m <= k ==> #[trigger] todd_step_fits(
            power_sums_scalar(a, d),
            todd_parts_scalar(power_sums_scalar(a, d), (k - 1) as nat),
            k,
            m,
        )
}

/// Every step of the Todd class to degree `d` fits, on the coefficients
/// `a` of graded classes.
pub open spec fn todd_fits(a: Seq<int>, d: nat) -> bool {
    &&& forall|j: int| 1 <= j <= d ==> #[trigger] newton_fits(a, j)
    &&& forall|k: int| 1 <= k <= d ==> #[trigger] todd_part_fits(a, d, k)
    &&& forall|t: int|
        0 <= t <= d ==> fits_int(
            #[trigger] todd_parts_scalar(power_sums_scalar(a, d), d)[t] * todd_scale(d, t as nat),
        )
}

/// On graded classes, the Todd class is computed without overflow when its
/// coefficients fit.
pub proof fn lemma_todd_ok_graded(cs: Seq<Seq<int>>, a: Seq<int>, d: nat)
    requires
        graded_by(cs, a),
        todd_fits(a, d),
        d <= 9,
    ensures
        todd_ok(cs, d),
{
    reveal(todd_ok);
    assert forall|j: int| 1 <= j <= d implies #[trigger] newton_ok(cs, j) by {
        assert(newton_fits(a, j));
        assert(class_at(cs, j) == poly_monomial(coeff(a, j), j as nat));
        lemma_mono_scale_ok(coeff(a, j), j as nat, alt_sign(j) * j);
        let ps = power_sums(cs, (j - 1) as nat);
        let psc = power_sums_scalar(a, (j - 1) as nat);
        lemma_power_sums_graded(cs, a, (j - 1) as nat);
        assert forall|m: int| 1 <= m < j implies #[trigger] newton_step_ok(cs, ps, j, m) by {
            assert(newton_step_fits(a, psc, j, m));
            let am = coeff(a, m);
            let p = psc[j - m - 1];
            assert(class_at(cs, m) == poly_monomial(am, m as nat));
            assert(ps[j - m - 1] == poly_monomial(p, (j - m) as nat));
            lemma_mono_mul_ok(am, m as nat, p, (j - m) as nat);
            lemma_monomial_product(am, m as nat, p, (j - m) as nat);
            assert(m as nat + (j - m) as nat == j as nat);
            lemma_mono_scale_ok(am * p, j as nat, alt_sign(m));
            lemma_scale_monomial(am * p, j as nat, alt_sign(m));
            lemma_newton_graded(cs, a, ps, psc, j, (m - 1) as nat);
            lemma_mono_add_ok(newton_scalar(a, psc, j, (m - 1) as nat), am * p * alt_sign(m), j as nat);
        }
    }
    let ps = power_sums(cs, d);
    let psc = power_sums_scalar(a, d);
    lemma_power_sums_graded(cs, a, d);
    assert forall|k: int| 1 <= k <= d implies #[trigger] todd_part_ok(cs, d, k) by {
        assert(todd_part_fits(a, d, k));
        let vs = todd_parts(ps, (k - 1) as nat);
        let vsc = todd_parts_scalar(psc, (k - 1) as nat);
        lemma_todd_parts_graded(ps, psc, (k - 1) as nat);
        assert forall|m: int| 1 <= m <= k implies #[trigger] todd_step_ok(ps, vs, k, m) by {
            assert(todd_step_fits(psc, vsc, k, m));
            let p = psc[m - 1];
            let v = vsc[k - m];
            let c = todd_falling(k, m as nat) * todd_weight(m);
            assert(ps[m - 1] == poly_monomial(p, m as nat));
            assert(vs[k - m] == poly_monomial(v, (k - m) as nat));
            lemma_mono_mul_ok(p, m as nat, v, (k - m) as nat);
            lemma_monomial_product(p, m as nat, v, (k - m) as nat);
            assert(m as nat + (k - m) as nat == k as nat);
            lemma_mono_scale_ok(p * v, k as nat, c);
            lemma_scale_monomial(p * v, k as nat, c);
            lemma_todd_partial_graded(ps, psc, vs, vsc, k, (m - 1) as nat);
            lemma_mono_add_ok(todd_partial_scalar(psc, vsc, k, (m - 1) as nat), p * v * c, k as nat);
        }
    }
    let vs = todd_parts(ps, d);
    let vsc = todd_parts_scalar(psc, d);
    lemma_todd_parts_graded(ps, psc, d);
    assert forall|k: int| 0 <= k <= d implies #[trigger] todd_sum_ok(cs, d, k) by {
        let f = todd_scale(d, k as nat);
        let m = poly_monomial(vsc[k], k as nat);
        assert(vs[k] == m);
        assert(fits_int(vsc[k] * f));
        lemma_mono_scale_ok(vsc[k], k as nat, f);
        lemma_scale_monomial(vsc[k], k as nat, f);
        reveal(add_ok);
        let s = todd_sum_from(vs, d, (k + 1) as nat);
        assert forall|t: int| 0 <= t < max_len(s, poly_scale(m, f)) implies fits_int(
            #[trigger] coeff(s, t) + coeff(poly_scale(m, f), t),
        ) by {
            lemma_todd_sum_graded(vs, vsc, d, (k + 1) as nat, t);
            lemma_monomial_coeff(vsc[k] * f, k as nat, t);
            if k <= t <= d {
                assert(fits_int(vsc[t] * todd_scale(d, t as nat)));
            }
        }
    }
}

} // verus!
