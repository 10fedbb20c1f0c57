//! The Todd class of the projective spaces `CP^n`, `n <= 9`, worked out on
//! the coefficients of their Chern classes `c_k = (n+1 choose k) h^k`: its
//! genus is `1`, and every step of its computation fits in an `i128`.

use crate::bundle::binomial;
use crate::poly::{coeff, fits_int};
use crate::bundle::{binomial_row, class_at, graded_classes};
use crate::poly::poly_monomial;
use crate::todd::{
    alt_sign, graded_by, lemma_todd_ok_graded, newton_fits, newton_scalar, newton_step_fits, power_sums_scalar,
    todd_degree, todd_falling, todd_fits, todd_ok, todd_part_fits, todd_partial_scalar, todd_parts_scalar,
    todd_scale, todd_step_fits, todd_weight,
};
use vstd::prelude::*;

verus! {

/// The coefficients `(n+1 choose k)`, `k <= n`, of the Chern classes of
/// `T(CP^n)`.
pub open spec fn cp_coeffs(n: nat) -> Seq<int> {
    Seq::new(n + 1, |k: int| binomial(n + 1, k) as int)
}

/// The Chern classes of `T(CP^n)` are graded by `cp_coeffs(n)`.
pub proof fn lemma_cp_graded(n: nat)
    ensures
        graded_by(graded_classes(binomial_row(n + 1), n), cp_coeffs(n)),
{
    let cs = graded_classes(binomial_row(n + 1), n);
    let a = cp_coeffs(n);
    assert forall|j: int| j >= 1 implies #[trigger] class_at(cs, j) == poly_monomial(coeff(a, j), j as nat) by {
        if j <= n {
            assert(coeff(binomial_row(n + 1), j) == binomial(n + 1, j));
        }
    }
}

/// The tangent bundle of `CP^n`, `n <= 9`, is in range for
/// `ToddClass::compute` and `ToddClass::todd_genus`.
pub proof fn lemma_todd_ok_cp(n: nat)
    requires
        n <= 9,
    ensures
        todd_ok(graded_classes(binomial_row(n + 1), n), todd_degree(n)),
{
    lemma_cp_graded(n);
    lemma_genus_cp(n);
    lemma_todd_ok_graded(graded_classes(binomial_row(n + 1), n), cp_coeffs(n), todd_degree(n));
}

/// On the coefficients of `T(CP^n)`, the part of degree `n` of the Todd
/// class is the whole common denominator, so the Todd genus is `1`; and
/// every step of the Todd class fits in an `i128`.
pub(crate) proof fn lemma_genus_cp(n: nat)
    requires
        n <= 9,
    ensures
        todd_parts_scalar(power_sums_scalar(cp_coeffs(n), todd_degree(n)), todd_degree(n))[n as int] * todd_scale(
            todd_degree(n),
            n,
        ) == todd_scale(todd_degree(n), 0),
        todd_fits(cp_coeffs(n), todd_degree(n)),
{
    if n == 0 {
        lemma_genus_cp0();
    } else if n == 1 {
        lemma_genus_cp1();
    } else if n == 2 {
        lemma_genus_cp2();
    } else if n == 3 {
        lemma_genus_cp3();
    } else if n == 4 {
        lemma_genus_cp4();
    } else if n == 5 {
        lemma_genus_cp5();
    } else if n == 6 {
        lemma_genus_cp6();
    } else if n == 7 {
        lemma_genus_cp7();
    } else if n == 8 {
        lemma_genus_cp8();
    } else if n == 9 {
        lemma_genus_cp9();
    }
}

/// The Todd class of `CP^0` on its coefficients: its genus is `1`, and
/// every step fits.
proof fn lemma_genus_cp0()
    ensures
        todd_parts_scalar(power_sums_scalar(cp_coeffs(0), 3), 3)[0] * todd_scale(3, 0) == todd_scale(3, 0),
        todd_fits(cp_coeffs(0), 3),
{
    assert(binomial(1, 0) == 1);
    assert(binomial(1, 1) == 1);
    let a = cp_coeffs(0);
    assert(a =~= seq![1int]);
    assert(coeff(a, 0) == 1);
    assert(coeff(a, 1) == 0);
    assert(coeff(a, 2) == 0);
    assert(coeff(a, 3) == 0);
    let p0 = Seq::<int>::empty();
    assert(power_sums_scalar(a, 0) =~= p0);
    assert(coeff(a, 1) * (alt_sign(1) * 1) == 0) by (nonlinear_arith)
        requires
            coeff(a, 1) == 0,
            alt_sign(1) == 1,
    ;
    assert(newton_scalar(a, p0, 1, 0) == 0);
    assert(power_sums_scalar(a, 0) == p0);
    assert(newton_fits(a, 1));
    let p1 = seq![0int];
    assert(power_sums_scalar(a, 1) =~= p1);
    assert(coeff(a, 2) * (alt_sign(2) * 2) == 0) by (nonlinear_arith)
        requires
            coeff(a, 2) == 0,
            alt_sign(2) == -1,
    ;
    assert(newton_scalar(a, p1, 2, 0) == 0);
    assert(coeff(a, 1) * p1[0] == 0) by (nonlinear_arith)
        requires
            coeff(a, 1) == 0,
            p1[0] == 0,
    ;
    assert(coeff(a, 1) * p1[0] * alt_sign(1) == 0) by (nonlinear_arith)
        requires
            coeff(a, 1) * p1[0] == 0,
            alt_sign(1) == 1,
    ;
    assert(newton_scalar(a, p1, 2, 1) == 0);
    assert(newton_step_fits(a, p1, 2, 1));
    assert(power_sums_scalar(a, 1) == p1);
    assert forall|m: int| 1 <= m < 2 implies #[trigger] newton_step_fits(a, power_sums_scalar(a, 1), 2, m) by {
        if m == 1 {
        }
    }
    assert(newton_fits(a, 2));
    let p2 = seq![0int, 0];
    assert(power_sums_scalar(a, 2) =~= p2);
    assert(coeff(a, 3) * (alt_sign(3) * 3) == 0) by (nonlinear_arith)
        requires
            coeff(a, 3) == 0,
            alt_sign(3) == 1,
    ;
    assert(newton_scalar(a, p2, 3, 0) == 0);
    assert(coeff(a, 1) * p2[1] == 0) by (nonlinear_arith)
        requires
            coeff(a, 1) == 0,
            p2[1] == 0,
    ;
    assert(coeff(a, 1) * p2[1] * alt_sign(1) == 0) by (nonlinear_arith)
        requires
            coeff(a, 1) * p2[1] == 0,
            alt_sign(1) == 1,
    ;
    assert(newton_scalar(a, p2, 3, 1) == 0);
    assert(newton_step_fits(a, p2, 3, 1));
    assert(coeff(a, 2) * p2[0] == 0) by (nonlinear_arith)
        requires
            coeff(a, 2) == 0,
            p2[0] == 0,
    ;
    assert(coeff(a, 2) * p2[0] * alt_sign(2) == 0) by (nonlinear_arith)
        requires
            coeff(a, 2) * p2[0] == 0,
            alt_sign(2) == -1,
    ;
    assert(newton_scalar(a, p2, 3, 2) == 0);
    assert(newton_step_fits(a, p2, 3, 2));
    assert(power_sums_scalar(a, 2) == p2);
    assert forall|m: int| 1 <= m < 3 implies #[trigger] newton_step_fits(a, power_sums_scalar(a, 2), 3, m) by {
        if m == 1 {
        } else if m == 2 {
        }
    }
    assert(newton_fits(a, 3));
    let p3 = seq![0int, 0, 0];
    assert(power_sums_scalar(a, 3) =~= p3);
    let ps = p3;
    assert(todd_falling(1, 1) == 1);
    assert(todd_falling(2, 1) == 1);
    assert(todd_falling(2, 2) == 1);
    assert(todd_falling(3, 1) == 1);
    assert(todd_falling(3, 2) == 2);
    assert(todd_falling(3, 3) == 2);
    let v0 = seq![1int];
    assert(todd_parts_scalar(ps, 0) =~= v0);
    assert(todd_partial_scalar(ps, v0, 1, 0) == 0);
    assert(ps[0] * v0[0] == 0) by (nonlinear_arith)
        requires
            ps[0] == 0,
            v0[0] == 1,
    ;
    assert(ps[0] * v0[0] * (todd_falling(1, 1) * todd_weight(1)) == 0) by (nonlinear_arith)
        requires
            ps[0] * v0[0] == 0,
            todd_falling(1, 1) == 1,
            todd_weight(1) == 105,
    ;
    assert(todd_partial_scalar(ps, v0, 1, 1) == 0);
    assert(todd_step_fits(ps, v0, 1, 1));
    assert(power_sums_scalar(a, 3) == ps && todd_parts_scalar(ps, 0) == v0);
    assert forall|m: int| 1 <= m <= 1 implies #[trigger] todd_step_fits(power_sums_scalar(a, 3), todd_parts_scalar(power_sums_scalar(a, 3), 0), 1, m) by {
        if m == 1 {
        }
    }
    assert(todd_part_fits(a, 3, 1));
    let v1 = seq![1int, 0];
    assert(todd_parts_scalar(ps, 1) =~= v1);
    assert(todd_partial_scalar(ps, v1, 2, 0) == 0);
    assert(ps[0] * v1[1] == 0) by (nonlinear_arith)
        requires
            ps[0] == 0,
            v1[1] == 0,
    ;
    assert(ps[0] * v1[1] * (todd_falling(2, 1) * todd_weight(1)) == 0) by (nonlinear_arith)
        requires
            ps[0] * v1[1] == 0,
            todd_falling(2, 1) == 1,
            todd_weight(1) == 105,
    ;
    assert(todd_partial_scalar(ps, v1, 2, 1) == 0);
    assert(todd_step_fits(ps, v1, 2, 1));
    assert(ps[1] * v1[0] == 0) by (nonlinear_arith)
        requires
            ps[1] == 0,
            v1[0] == 1,
    ;
    assert(ps[1] * v1[0] * (todd_falling(2, 2) * todd_weight(2)) == 0) by (nonlinear_arith)
        requires
            ps[1] * v1[0] == 0,
            todd_falling(2, 2) == 1,
            todd_weight(2) == -3675,
    ;
    assert(todd_partial_scalar(ps, v1, 2, 2) == 0);
    assert(todd_step_fits(ps, v1, 2, 2));
    assert(power_sums_scalar(a, 3) == ps && todd_parts_scalar(ps, 1) == v1);
    assert forall|m: int| 1 <= m <= 2 implies #[trigger] todd_step_fits(power_sums_scalar(a, 3), todd_parts_scalar(power_sums_scalar(a, 3), 1), 2, m) by {
        if m == 1 {
        } else if m == 2 {
        }
    }
    assert(todd_part_fits(a, 3, 2));
    let v2 = seq![1int, 0, 0];
    assert(todd_parts_scalar(ps, 2) =~= v2);
    assert(todd_partial_scalar(ps, v2, 3, 0) == 0);
    assert(ps[0] * v2[2] == 0) by (nonlinear_arith)
        requires
            ps[0] == 0,
            v2[2] == 0,
    ;
    assert(ps[0] * v2[2] * (todd_falling(3, 1) * todd_weight(1)) == 0) by (nonlinear_arith)
        requires
            ps[0] * v2[2] == 0,
            todd_falling(3, 1) == 1,
            todd_weight(1) == 105,
    ;
    assert(todd_partial_scalar(ps, v2, 3, 1) == 0);
    assert(todd_step_fits(ps, v2, 3, 1));
    assert(ps[1] * v2[1] == 0) by (nonlinear_arith)
        requires
            ps[1] == 0,
            v2[1] == 0,
    ;
    assert(ps[1] * v2[1] * (todd_falling(3, 2) * todd_weight(2)) == 0) by (nonlinear_arith)
        requires
            ps[1] * v2[1] == 0,
            todd_falling(3, 2) == 2,
            todd_weight(2) == -3675,
    ;
    assert(todd_partial_scalar(ps, v2, 3, 2) == 0);
    assert(todd_step_fits(ps, v2, 3, 2));
    assert(ps[2] * v2[0] == 0) by (nonlinear_arith)
        requires
            ps[2] == 0,
            v2[0] == 1,
    ;
    assert(ps[2] * v2[0] * (todd_falling(3, 3) * todd_weight(3)) == 0) by (nonlinear_arith)
        requires
            ps[2] * v2[0] == 0,
            todd_falling(3, 3) == 2,
            todd_weight(3) == 0,
    ;
    assert(todd_partial_scalar(ps, v2, 3, 3) == 0);
    assert(todd_step_fits(ps, v2, 3, 3));
    assert(power_sums_scalar(a, 3) == ps && todd_parts_scalar(ps, 2) == v2);
    assert forall|m: int| 1 <= m <= 3 implies #[trigger] todd_step_fits(power_sums_scalar(a, 3), todd_parts_scalar(power_sums_scalar(a, 3), 2), 3, m) by {
        if m == 1 {
        } else if m == 2 {
        } else if m == 3 {
        }
    }
    assert(todd_part_fits(a, 3, 3));
    let v3 = seq![1int, 0, 0, 0];
    assert(todd_parts_scalar(ps, 3) =~= v3);
    assert(todd_scale(3, 3) == 1);
    assert(todd_scale(3, 2) == todd_scale(3, 3) * 3 * 210);
    assert(todd_scale(3, 2) == 630);
    assert(todd_scale(3, 1) == todd_scale(3, 2) * 2 * 210);
    assert(todd_scale(3, 1) == 264600);
    assert(todd_scale(3, 0) == todd_scale(3, 1) * 1 * 210);
    assert(todd_scale(3, 0) == 55566000);
    assert(v3[0] * todd_scale(3, 0) == 55566000) by (nonlinear_arith)
        requires
            v3[0] == 1,
            todd_scale(3, 0) == 55566000,
    ;
    assert(v3[1] * todd_scale(3, 1) == 0) by (nonlinear_arith)
        requires
            v3[1] == 0,
            todd_scale(3, 1) == 264600,
    ;
    assert(v3[2] * todd_scale(3, 2) == 0) by (nonlinear_arith)
        requires
            v3[2] == 0,
            todd_scale(3, 2) == 630,
    ;
    assert(v3[3] * todd_scale(3, 3) == 0) by (nonlinear_arith)
        requires
            v3[3] == 0,
            todd_scale(3, 3) == 1,
    ;
    assert forall|t: int| 0 <= t <= 3 implies fits_int(#[trigger] todd_parts_scalar(power_sums_scalar(a, 3), 3)[t] * todd_scale(3, t as nat)) by {
        assert(todd_parts_scalar(power_sums_scalar(a, 3), 3) == v3);
        if t == 0 {
        } else if t == 1 {
        } else if t == 2 {
        } else if t == 3 {
        }
    }
    assert forall|j: int| 1 <= j <= 3 implies #[trigger] newton_fits(a, j) by {
        if j == 1 {
        } else if j == 2 {
        } else if j == 3 {
        }
    }
    assert forall|k: int| 1 <= k <= 3 implies #[trigger] todd_part_fits(a, 3, k) by {
        if k == 1 {
        } else if k == 2 {
        } else if k == 3 {
        }
    }
}

/// The Todd class of `CP^1` on its coefficients: its genus is `1`, and
/// every step fits.
proof fn lemma_genus_cp1()
    ensures
        todd_parts_scalar(power_sums_scalar(cp_coeffs(1), 3), 3)[1] * todd_scale(3, 1) == todd_scale(3, 0),
        todd_fits(cp_coeffs(1), 3),
{
    assert(binomial(1, 0) == 1);
    assert(binomial(1, 1) == 1);
    assert(binomial(2, 0) == 1);
    assert(binomial(2, 1) == 2);
    assert(binomial(2, 2) == 1);
    let a = cp_coeffs(1);
    assert(a =~= seq![1int, 2]);
    assert(coeff(a, 0) == 1);
    assert(coeff(a, 1) == 2);
    assert(coeff(a, 2) == 0);
    assert(coeff(a, 3) == 0);
    let p0 = Seq::<int>::empty();
    assert(power_sums_scalar(a, 0) =~= p0);
    assert(coeff(a, 1) * (alt_sign(1) * 1) == 2) by (nonlinear_arith)
        requires
            coeff(a, 1) == 2,
            alt_sign(1) == 1,
    ;
    assert(newton_scalar(a, p0, 1, 0) == 2);
    assert(power_sums_scalar(a, 0) == p0);
    assert(newton_fits(a, 1));
    let p1 = seq![2int];
    assert(power_sums_scalar(a, 1) =~= p1);
    assert(coeff(a, 2) * (alt_sign(2) * 2) == 0) by (nonlinear_arith)
        requires
            coeff(a, 2) == 0,
            alt_sign(2) == -1,
    ;
    assert(newton_scalar(a, p1, 2, 0) == 0);
    assert(coeff(a, 1) * p1[0] == 4) by (nonlinear_arith)
        requires
            coeff(a, 1) == 2,
            p1[0] == 2,
    ;
    assert(coeff(a, 1) * p1[0] * alt_sign(1) == 4) by (nonlinear_arith)
        requires
            coeff(a, 1) * p1[0] == 4,
            alt_sign(1) == 1,
    ;
    assert(newton_scalar(a, p1, 2, 1) == 4);
    assert(newton_step_fits(a, p1, 2, 1));
    assert(power_sums_scalar(a, 1) == p1);
    assert forall|m: int| 1 <= m < 2 implies #[trigger] newton_step_fits(a, power_sums_scalar(a, 1), 2, m) by {
        if m == 1 {
        }
    }
    assert(newton_fits(a, 2));
    let p2 = seq![2int, 4];
    assert(power_sums_scalar(a, 2) =~= p2);
    assert(coeff(a, 3) * (alt_sign(3) * 3) == 0) by (nonlinear_arith)
        requires
            coeff(a, 3) == 0,
            alt_sign(3) == 1,
    ;
    assert(newton_scalar(a, p2, 3, 0) == 0);
    assert(coeff(a, 1) * p2[1] == 8) by (nonlinear_arith)
        requires
            coeff(a, 1) == 2,
            p2[1] == 4,
    ;
    assert(coeff(a, 1) * p2[1] * alt_sign(1) == 8) by (nonlinear_arith)
        requires
            coeff(a, 1) * p2[1] == 8,
            alt_sign(1) == 1,
    ;
    assert(newton_scalar(a, p2, 3, 1) == 8);
    assert(newton_step_fits(a, p2, 3, 1));
    assert(coeff(a, 2) * p2[0] == 0) by (nonlinear_arith)
        requires
            coeff(a, 2) == 0,
            p2[0] == 2,
    ;
    assert(coeff(a, 2) * p2[0] * alt_sign(2) == 0) by (nonlinear_arith)
        requires
            coeff(a, 2) * p2[0] == 0,
            alt_sign(2) == -1,
    ;
    assert(newton_scalar(a, p2, 3, 2) == 8);
    assert(newton_step_fits(a, p2, 3, 2));
    assert(power_sums_scalar(a, 2) == p2);
    assert forall|m: int| 1 <= m < 3 implies #[trigger] newton_step_fits(a, power_sums_scalar(a, 2), 3, m) by {
        if m == 1 {
        } else if m == 2 {
        }
    }
    assert(newton_fits(a, 3));
    let p3 = seq![2int, 4, 8];
    assert(power_sums_scalar(a, 3) =~= p3);
    let ps = p3;
    assert(todd_falling(1, 1) == 1);
    assert(todd_falling(2, 1) == 1);
    assert(todd_falling(2, 2) == 1);
    assert(todd_falling(3, 1) == 1);
    assert(todd_falling(3, 2) == 2);
    assert(todd_falling(3, 3) == 2);
    let v0 = seq![1int];
    assert(todd_parts_scalar(ps, 0) =~= v0);
    assert(todd_partial_scalar(ps, v0, 1, 0) == 0);
    assert(ps[0] * v0[0] == 2) by (nonlinear_arith)
        requires
            ps[0] == 2,
            v0[0] == 1,
    ;
    assert(ps[0] * v0[0] * (todd_falling(1, 1) * todd_weight(1)) == 210) by (nonlinear_arith)
        requires
            ps[0] * v0[0] == 2,
            todd_falling(1, 1) == 1,
            todd_weight(1) == 105,
    ;
    assert(todd_partial_scalar(ps, v0, 1, 1) == 210);
    assert(todd_step_fits(ps, v0, 1, 1));
    assert(power_sums_scalar(a, 3) == ps && todd_parts_scalar(ps, 0) == v0);
    assert forall|m: int| 1 <= m <= 1 implies #[trigger] todd_step_fits(power_sums_scalar(a, 3), todd_parts_scalar(power_sums_scalar(a, 3), 0), 1, m) by {
        if m == 1 {
        }
    }
    assert(todd_part_fits(a, 3, 1));
    let v1 = seq![1int, 210];
    assert(todd_parts_scalar(ps, 1) =~= v1);
    assert(todd_partial_scalar(ps, v1, 2, 0) == 0);
    assert(ps[0] * v1[1] == 420) by (nonlinear_arith)
        requires
            ps[0] == 2,
            v1[1] == 210,
    ;
    assert(ps[0] * v1[1] * (todd_falling(2, 1) * todd_weight(1)) == 44100) by (nonlinear_arith)
        requires
            ps[0] * v1[1] == 420,
            todd_falling(2, 1) == 1,
            todd_weight(1) == 105,
    ;
    assert(todd_partial_scalar(ps, v1, 2, 1) == 44100);
    assert(todd_step_fits(ps, v1, 2, 1));
    assert(ps[1] * v1[0] == 4) by (nonlinear_arith)
        requires
            ps[1] == 4,
            v1[0] == 1,
    ;
    assert(ps[1] * v1[0] * (todd_falling(2, 2) * todd_weight(2)) == -14700) by (nonlinear_arith)
        requires
            ps[1] * v1[0] == 4,
            todd_falling(2, 2) == 1,
            todd_weight(2) == -3675,
    ;
    assert(todd_partial_scalar(ps, v1, 2, 2) == 29400);
    assert(todd_step_fits(ps, v1, 2, 2));
    assert(power_sums_scalar(a, 3) == ps && todd_parts_scalar(ps, 1) == v1);
    assert forall|m: int| 1 <= m <= 2 implies #[trigger] todd_step_fits(power_sums_scalar(a, 3), todd_parts_scalar(power_sums_scalar(a, 3), 1), 2, m) by {
        if m == 1 {
        } else if m == 2 {
        }
    }
    assert(todd_part_fits(a, 3, 2));
    let v2 = seq![1int, 210, 29400];
    assert(todd_parts_scalar(ps, 2) =~= v2);
    assert(todd_partial_scalar(ps, v2, 3, 0) == 0);
    assert(ps[0] * v2[2] == 58800) by (nonlinear_arith)
        requires
            ps[0] == 2,
            v2[2] == 29400,
    ;
    assert(ps[0] * v2[2] * (todd_falling(3, 1) * todd_weight(1)) == 6174000) by (nonlinear_arith)
        requires
            ps[0] * v2[2] == 58800,
            todd_falling(3, 1) == 1,
            todd_weight(1) == 105,
    ;
    assert(todd_partial_scalar(ps, v2, 3, 1) == 6174000);
    assert(todd_step_fits(ps, v2, 3, 1));
    assert(ps[1] * v2[1] == 840) by (nonlinear_arith)
        requires
            ps[1] == 4,
            v2[1] == 210,
    ;
    assert(ps[1] * v2[1] * (todd_falling(3, 2) * todd_weight(2)) == -6174000) by (nonlinear_arith)
        requires
            ps[1] * v2[1] == 840,
            todd_falling(3, 2) == 2,
            todd_weight(2) == -3675,
    ;
    assert(todd_partial_scalar(ps, v2, 3, 2) == 0);
    assert(todd_step_fits(ps, v2, 3, 2));
    assert(ps[2] * v2[0] == 8) by (nonlinear_arith)
        requires
            ps[2] == 8,
            v2[0] == 1,
    ;
    assert(ps[2] * v2[0] * (todd_falling(3, 3) * todd_weight(3)) == 0) by (nonlinear_arith)
        requires
            ps[2] * v2[0] == 8,
            todd_falling(3, 3) == 2,
            todd_weight(3) == 0,
    ;
    assert(todd_partial_scalar(ps, v2, 3, 3) == 0);
    assert(todd_step_fits(ps, v2, 3, 3));
    assert(power_sums_scalar(a, 3) == ps && todd_parts_scalar(ps, 2) == v2);
    assert forall|m: int| 1 <= m <= 3 implies #[trigger] todd_step_fits(power_sums_scalar(a, 3), todd_parts_scalar(power_sums_scalar(a, 3), 2), 3, m) by {
        if m == 1 {
        } else if m == 2 {
        } else if m == 3 {
        }
    }
    assert(todd_part_fits(a, 3, 3));
    let v3 = seq![1int, 210, 29400, 0];
    assert(todd_parts_scalar(ps, 3) =~= v3);
    assert(todd_scale(3, 3) == 1);
    assert(todd_scale(3, 2) == todd_scale(3, 3) * 3 * 210);
    assert(todd_scale(3, 2) == 630);
    assert(todd_scale(3, 1) == todd_scale(3, 2) * 2 * 210);
    assert(todd_scale(3, 1) == 264600);
    assert(todd_scale(3, 0) == todd_scale(3, 1) * 1 * 210);
    assert(todd_scale(3, 0) == 55566000);
    assert(v3[0] * todd_scale(3, 0) == 55566000) by (nonlinear_arith)
        requires
            v3[0] == 1,
            todd_scale(3, 0) == 55566000,
    ;
    assert(v3[1] * todd_scale(3, 1) == 55566000) by (nonlinear_arith)
        requires
            v3[1] == 210,
            todd_scale(3, 1) == 264600,
    ;
    assert(v3[2] * todd_scale(3, 2) == 18522000) by (nonlinear_arith)
        requires
            v3[2] == 29400,
            todd_scale(3, 2) == 630,
    ;
    assert(v3[3] * todd_scale(3, 3) == 0) by (nonlinear_arith)
        requires
            v3[3] == 0,
            todd_scale(3, 3) == 1,
    ;
    assert forall|t: int| 0 <= t <= 3 implies fits_int(#[trigger] todd_parts_scalar(power_sums_scalar(a, 3), 3)[t] * todd_scale(3, t as nat)) by {
        assert(todd_parts_scalar(power_sums_scalar(a, 3), 3) == v3);
        if t == 0 {
        } else if t == 1 {
        } else if t == 2 {
        } else if t == 3 {
        }
    }
    assert forall|j: int| 1 <= j <= 3 implies #[trigger] newton_fits(a, j) by {
        if j == 1 {
        } else if j == 2 {
        } else if j == 3 {
        }
    }
    assert forall|k: int| 1 <= k <= 3 implies #[trigger] todd_part_fits(a, 3, k) by {
        if k == 1 {
        } else if k == 2 {
        } else if k == 3 {
        }
    }
}

/// The Todd class of `CP^2` on its coefficients: its genus is `1`, and
/// every step fits.
proof fn lemma_genus_cp2()
    ensures
        todd_parts_scalar(power_sums_scalar(cp_coeffs(2), 3), 3)[2] * todd_scale(3, 2) == todd_scale(3, 0),
        todd_fits(cp_coeffs(2), 3),
{
    assert(binomial(1, 0) == 1);
    assert(binomial(1, 1) == 1);
    assert(binomial(2, 0) == 1);
    assert(binomial(2, 1) == 2);
    assert(binomial(2, 2) == 1);
    assert(binomial(3, 0) == 1);
    assert(binomial(3, 1) == 3);
    assert(binomial(3, 2) == 3);
    assert(binomial(3, 3) == 1);
    let a = cp_coeffs(2);
    assert(a =~= seq![1int, 3, 3]);
    assert(coeff(a, 0) == 1);
    assert(coeff(a, 1) == 3);
    assert(coeff(a, 2) == 3);
    assert(coeff(a, 3) == 0);
    let p0 = Seq::<int>::empty();
    assert(power_sums_scalar(a, 0) =~= p0);
    assert(coeff(a, 1) * (alt_sign(1) * 1) == 3) by (nonlinear_arith)
        requires
            coeff(a, 1) == 3,
            alt_sign(1) == 1,
    ;
    assert(newton_scalar(a, p0, 1, 0) == 3);
    assert(power_sums_scalar(a, 0) == p0);
    assert(newton_fits(a, 1));
    let p1 = seq![3int];
    assert(power_sums_scalar(a, 1) =~= p1);
    assert(coeff(a, 2) * (alt_sign(2) * 2) == -6) by (nonlinear_arith)
        requires
            coeff(a, 2) == 3,
            alt_sign(2) == -1,
    ;
    assert(newton_scalar(a, p1, 2, 0) == -6);
    assert(coeff(a, 1) * p1[0] == 9) by (nonlinear_arith)
        requires
            coeff(a, 1) == 3,
            p1[0] == 3,
    ;
    assert(coeff(a, 1) * p1[0] * alt_sign(1) == 9) by (nonlinear_arith)
        requires
            coeff(a, 1) * p1[0] == 9,
            alt_sign(1) == 1,
    ;
    assert(newton_scalar(a, p1, 2, 1) == 3);
    assert(newton_step_fits(a, p1, 2, 1));
    assert(power_sums_scalar(a, 1) == p1);
    assert forall|m: int| 1 <= m < 2 implies #[trigger] newton_step_fits(a, power_sums_scalar(a, 1), 2, m) by {
        if m == 1 {
        }
    }
    assert(newton_fits(a, 2));
    let p2 = seq![3int, 3];
    assert(power_sums_scalar(a, 2) =~= p2);
    assert(coeff(a, 3) * (alt_sign(3) * 3) == 0) by (nonlinear_arith)
        requires
            coeff(a, 3) == 0,
            alt_sign(3) == 1,
    ;
    assert(newton_scalar(a, p2, 3, 0) == 0);
    assert(coeff(a, 1) * p2[1] == 9) by (nonlinear_arith)
        requires
            coeff(a, 1) == 3,
            p2[1] == 3,
    ;
    assert(coeff(a, 1) * p2[1] * alt_sign(1) == 9) by (nonlinear_arith)
        requires
            coeff(a, 1) * p2[1] == 9,
            alt_sign(1) == 1,
    ;
    assert(newton_scalar(a, p2, 3, 1) == 9);
    assert(newton_step_fits(a, p2, 3, 1));
    assert(coeff(a, 2) * p2[0] == 9) by (nonlinear_arith)
        requires
            coeff(a, 2) == 3,
            p2[0] == 3,
    ;
    assert(coeff(a, 2) * p2[0] * alt_sign(2) == -9) by (nonlinear_arith)
        requires
            coeff(a, 2) * p2[0] == 9,
            alt_sign(2) == -1,
    ;
    assert(newton_scalar(a, p2, 3, 2) == 0);
    assert(newton_step_fits(a, p2, 3, 2));
    assert(power_sums_scalar(a, 2) == p2);
    assert forall|m: int| 1 <= m < 3 implies #[trigger] newton_step_fits(a, power_sums_scalar(a, 2), 3, m) by {
        if m == 1 {
        } else if m == 2 {
        }
    }
    assert(newton_fits(a, 3));
    let p3 = seq![3int, 3, 0];
    assert(power_sums_scalar(a, 3) =~= p3);
    let ps = p3;
    assert(todd_falling(1, 1) == 1);
    assert(todd_falling(2, 1) == 1);
    assert(todd_falling(2, 2) == 1);
    assert(todd_falling(3, 1) == 1);
    assert(todd_falling(3, 2) == 2);
    assert(todd_falling(3, 3) == 2);
    let v0 = seq![1int];
    assert(todd_parts_scalar(ps, 0) =~= v0);
    assert(todd_partial_scalar(ps, v0, 1, 0) == 0);
    assert(ps[0] * v0[0] == 3) by (nonlinear_arith)
        requires
            ps[0] == 3,
            v0[0] == 1,
    ;
    assert(ps[0] * v0[0] * (todd_falling(1, 1) * todd_weight(1)) == 315) by (nonlinear_arith)
        requires
            ps[0] * v0[0] == 3,
            todd_falling(1, 1) == 1,
            todd_weight(1) == 105,
    ;
    assert(todd_partial_scalar(ps, v0, 1, 1) == 315);
    assert(todd_step_fits(ps, v0, 1, 1));
    assert(power_sums_scalar(a, 3) == ps && todd_parts_scalar(ps, 0) == v0);
    assert forall|m: int| 1 <= m <= 1 implies #[trigger] todd_step_fits(power_sums_scalar(a, 3), todd_parts_scalar(power_sums_scalar(a, 3), 0), 1, m) by {
        if m == 1 {
        }
    }
    assert(todd_part_fits(a, 3, 1));
    let v1 = seq![1int, 315];
    assert(todd_parts_scalar(ps, 1) =~= v1);
    assert(todd_partial_scalar(ps, v1, 2, 0) == 0);
    assert(ps[0] * v1[1] == 945) by (nonlinear_arith)
        requires
            ps[0] == 3,
            v1[1] == 315,
    ;
    assert(ps[0] * v1[1] * (todd_falling(2, 1) * todd_weight(1)) == 99225) by (nonlinear_arith)
        requires
            ps[0] * v1[1] == 945,
            todd_falling(2, 1) == 1,
            todd_weight(1) == 105,
    ;
    assert(todd_partial_scalar(ps, v1, 2, 1) == 99225);
    assert(todd_step_fits(ps, v1, 2, 1));
    assert(ps[1] * v1[0] == 3) by (nonlinear_arith)
        requires
            ps[1] == 3,
            v1[0] == 1,
    ;
    assert(ps[1] * v1[0] * (todd_falling(2, 2) * todd_weight(2)) == -11025) by (nonlinear_arith)
        requires
            ps[1] * v1[0] == 3,
            todd_falling(2, 2) == 1,
            todd_weight(2) == -3675,
    ;
    assert(todd_partial_scalar(ps, v1, 2, 2) == 88200);
    assert(todd_step_fits(ps, v1, 2, 2));
    assert(power_sums_scalar(a, 3) == ps && todd_parts_scalar(ps, 1) == v1);
    assert forall|m: int| 1 <= m <= 2 implies #[trigger] todd_step_fits(power_sums_scalar(a, 3), todd_parts_scalar(power_sums_scalar(a, 3), 1), 2, m) by {
        if m == 1 {
        } else if m == 2 {
        }
    }
    assert(todd_part_fits(a, 3, 2));
    let v2 = seq![1int, 315, 88200];
    assert(todd_parts_scalar(ps, 2) =~= v2);
    assert(todd_partial_scalar(ps, v2, 3, 0) == 0);
    assert(ps[0] * v2[2] == 264600) by (nonlinear_arith)
        requires
            ps[0] == 3,
            v2[2] == 88200,
    ;
    assert(ps[0] * v2[2] * (todd_falling(3, 1) * todd_weight(1)) == 27783000) by (nonlinear_arith)
        requires
            ps[0] * v2[2] == 264600,
            todd_falling(3, 1) == 1,
            todd_weight(1) == 105,
    ;
    assert(todd_partial_scalar(ps, v2, 3, 1) == 27783000);
    assert(todd_step_fits(ps, v2, 3, 1));
    assert(ps[1] * v2[1] == 945) by (nonlinear_arith)
        requires
            ps[1] == 3,
            v2[1] == 315,
    ;
    assert(ps[1] * v2[1] * (todd_falling(3, 2) * todd_weight(2)) == -6945750) by (nonlinear_arith)
        requires
            ps[1] * v2[1] == 945,
            todd_falling(3, 2) == 2,
            todd_weight(2) == -3675,
    ;
    assert(todd_partial_scalar(ps, v2, 3, 2) == 20837250);
    assert(todd_step_fits(ps, v2, 3, 2));
    assert(ps[2] * v2[0] == 0) by (nonlinear_arith)
        requires
            ps[2] == 0,
            v2[0] == 1,
    ;
    assert(ps[2] * v2[0] * (todd_falling(3, 3) * todd_weight(3)) == 0) by (nonlinear_arith)
        requires
            ps[2] * v2[0] == 0,
            todd_falling(3, 3) == 2,
            todd_weight(3) == 0,
    ;
    assert(todd_partial_scalar(ps, v2, 3, 3) == 20837250);
    assert(todd_step_fits(ps, v2, 3, 3));
    assert(power_sums_scalar(a, 3) == ps && todd_parts_scalar(ps, 2) == v2);
    assert forall|m: int| 1 <= m <= 3 implies #[trigger] todd_step_fits(power_sums_scalar(a, 3), todd_parts_scalar(power_sums_scalar(a, 3), 2), 3, m) by {
        if m == 1 {
        } else if m == 2 {
        } else if m == 3 {
        }
    }
    assert(todd_part_fits(a, 3, 3));
    let v3 = seq![1int, 315, 88200, 20837250];
    assert(todd_parts_scalar(ps, 3) =~= v3);
    assert(todd_scale(3, 3) == 1);
    assert(todd_scale(3, 2) == todd_scale(3, 3) * 3 * 210);
    assert(todd_scale(3, 2) == 630);
    assert(todd_scale(3, 1) == todd_scale(3, 2) * 2 * 210);
    assert(todd_scale(3, 1) == 264600);
    assert(todd_scale(3, 0) == todd_scale(3, 1) * 1 * 210);
    assert(todd_scale(3, 0) == 55566000);
    assert(v3[0] * todd_scale(3, 0) == 55566000) by (nonlinear_arith)
        requires
            v3[0] == 1,
            todd_scale(3, 0) == 55566000,
    ;
    assert(v3[1] * todd_scale(3, 1) == 83349000) by (nonlinear_arith)
        requires
            v3[1] == 315,
            todd_scale(3, 1) == 264600,
    ;
    assert(v3[2] * todd_scale(3, 2) == 55566000) by (nonlinear_arith)
        requires
            v3[2] == 88200,
            todd_scale(3, 2) == 630,
    ;
    assert(v3[3] * todd_scale(3, 3) == 20837250) by (nonlinear_arith)
        requires
            v3[3] == 20837250,
            todd_scale(3, 3) == 1,
    ;
    assert forall|t: int| 0 <= t <= 3 implies fits_int(#[trigger] todd_parts_scalar(power_sums_scalar(a, 3), 3)[t] * todd_scale(3, t as nat)) by {
        assert(todd_parts_scalar(power_sums_scalar(a, 3), 3) == v3);
        if t == 0 {
        } else if t == 1 {
        } else if t == 2 {
        } else if t == 3 {
        }
    }
    assert forall|j: int| 1 <= j <= 3 implies #[trigger] newton_fits(a, j) by {
        if j == 1 {
        } else if j == 2 {
        } else if j == 3 {
        }
    }
    assert forall|k: int| 1 <= k <= 3 implies #[trigger] todd_part_fits(a, 3, k) by {
        if k == 1 {
        } else if k == 2 {
        } else if k == 3 {
        }
    }
}

/// The Todd class of `CP^3` on its coefficients: its genus is `1`, and
/// every step fits.
proof fn lemma_genus_cp3()
    ensures
        todd_parts_scalar(power_sums_scalar(cp_coeffs(3), 3), 3)[3] * todd_scale(3, 3) == todd_scale(3, 0),
        todd_fits(cp_coeffs(3), 3),
{
    assert(binomial(1, 0) == 1);
    assert(binomial(1, 1) == 1);
    assert(binomial(2, 0) == 1);
    assert(binomial(2, 1) == 2);
    assert(binomial(2, 2) == 1);
    assert(binomial(3, 0) == 1);
    assert(binomial(3, 1) == 3);
    assert(binomial(3, 2) == 3);
    assert(binomial(3, 3) == 1);
    assert(binomial(4, 0) == 1);
    assert(binomial(4, 1) == 4);
    assert(binomial(4, 2) == 6);
    assert(binomial(4, 3) == 4);
    assert(binomial(4, 4) == 1);
    let a = cp_coeffs(3);
    assert(a =~= seq![1int, 4, 6, 4]);
    assert(coeff(a, 0) == 1);
    assert(coeff(a, 1) == 4);
    assert(coeff(a, 2) == 6);
    assert(coeff(a, 3) == 4);
    let p0 = Seq::<int>::empty();
    assert(power_sums_scalar(a, 0) =~= p0);
    assert(coeff(a, 1) * (alt_sign(1) * 1) == 4) by (nonlinear_arith)
        requires
            coeff(a, 1) == 4,
            alt_sign(1) == 1,
    ;
    assert(newton_scalar(a, p0, 1, 0) == 4);
    assert(power_sums_scalar(a, 0) == p0);
    assert(newton_fits(a, 1));
    let p1 = seq![4int];
    assert(power_sums_scalar(a, 1) =~= p1);
    assert(coeff(a, 2) * (alt_sign(2) * 2) == -12) by (nonlinear_arith)
        requires
            coeff(a, 2) == 6,
            alt_sign(2) == -1,
    ;
    assert(newton_scalar(a, p1, 2, 0) == -12);
    assert(coeff(a, 1) * p1[0] == 16) by (nonlinear_arith)
        requires
            coeff(a, 1) == 4,
            p1[0] == 4,
    ;
    assert(coeff(a, 1) * p1[0] * alt_sign(1) == 16) by (nonlinear_arith)
        requires
            coeff(a, 1) * p1[0] == 16,
            alt_sign(1) == 1,
    ;
    assert(newton_scalar(a, p1, 2, 1) == 4);
    assert(newton_step_fits(a, p1, 2, 1));
    assert(power_sums_scalar(a, 1) == p1);
    assert forall|m: int| 1 <= m < 2 implies #[trigger] newton_step_fits(a, power_sums_scalar(a, 1), 2, m) by {
        if m == 1 {
        }
    }
    assert(newton_fits(a, 2));
    let p2 = seq![4int, 4];
    assert(power_sums_scalar(a, 2) =~= p2);
    assert(coeff(a, 3) * (alt_sign(3) * 3) == 12) by (nonlinear_arith)
        requires
            coeff(a, 3) == 4,
            alt_sign(3) == 1,
    ;
    assert(newton_scalar(a, p2, 3, 0) == 12);
    assert(coeff(a, 1) * p2[1] == 16) by (nonlinear_arith)
        requires
            coeff(a, 1) == 4,
            p2[1] == 4,
    ;
    assert(coeff(a, 1) * p2[1] * alt_sign(1) == 16) by (nonlinear_arith)
        requires
            coeff(a, 1) * p2[1] == 16,
            alt_sign(1) == 1,
    ;
    assert(newton_scalar(a, p2, 3, 1) == 28);
    assert(newton_step_fits(a, p2, 3, 1));
    assert(coeff(a, 2) * p2[0] == 24) by (nonlinear_arith)
        requires
            coeff(a, 2) == 6,
            p2[0] == 4,
    ;
    assert(coeff(a, 2) * p2[0] * alt_sign(2) == -24) by (nonlinear_arith)
        requires
            coeff(a, 2) * p2[0] == 24,
            alt_sign(2) == -1,
    ;
    assert(newton_scalar(a, p2, 3, 2) == 4);
    assert(newton_step_fits(a, p2, 3, 2));
    assert(power_sums_scalar(a, 2) == p2);
    assert forall|m: int| 1 <= m < 3 implies #[trigger] newton_step_fits(a, power_sums_scalar(a, 2), 3, m) by {
        if m == 1 {
        } else if m == 2 {
        }
    }
    assert(newton_fits(a, 3));
    let p3 = seq![4int, 4, 4];
    assert(power_sums_scalar(a, 3) =~= p3);
    let ps = p3;
    assert(todd_falling(1, 1) == 1);
    assert(todd_falling(2, 1) == 1);
    assert(todd_falling(2, 2) == 1);
    assert(todd_falling(3, 1) == 1);
    assert(todd_falling(3, 2) == 2);
    assert(todd_falling(3, 3) == 2);
    let v0 = seq![1int];
    assert(todd_parts_scalar(ps, 0) =~= v0);
    assert(todd_partial_scalar(ps, v0, 1, 0) == 0);
    assert(ps[0] * v0[0] == 4) by (nonlinear_arith)
        requires
            ps[0] == 4,
            v0[0] == 1,
    ;
    assert(ps[0] * v0[0] * (todd_falling(1, 1) * todd_weight(1)) == 420) by (nonlinear_arith)
        requires
            ps[0] * v0[0] == 4,
            todd_falling(1, 1) == 1,
            todd_weight(1) == 105,
    ;
    assert(todd_partial_scalar(ps, v0, 1, 1) == 420);
    assert(todd_step_fits(ps, v0, 1, 1));
    assert(power_sums_scalar(a, 3) == ps && todd_parts_scalar(ps, 0) == v0);
    assert forall|m: int| 1 <= m <= 1 implies #[trigger] todd_step_fits(power_sums_scalar(a, 3), todd_parts_scalar(power_sums_scalar(a, 3), 0), 1, m) by {
        if m == 1 {
        }
    }
    assert(todd_part_fits(a, 3, 1));
    let v1 = seq![1int, 420];
    assert(todd_parts_scalar(ps, 1) =~= v1);
    assert(todd_partial_scalar(ps, v1, 2, 0) == 0);
    assert(ps[0] * v1[1] == 1680) by (nonlinear_arith)
        requires
            ps[0] == 4,
            v1[1] == 420,
    ;
    assert(ps[0] * v1[1] * (todd_falling(2, 1) * todd_weight(1)) == 176400) by (nonlinear_arith)
        requires
            ps[0] * v1[1] == 1680,
            todd_falling(2, 1) == 1,
            todd_weight(1) == 105,
    ;
    assert(todd_partial_scalar(ps, v1, 2, 1) == 176400);
    assert(todd_step_fits(ps, v1, 2, 1));
    assert(ps[1] * v1[0] == 4) by (nonlinear_arith)
        requires
            ps[1] == 4,
            v1[0] == 1,
    ;
    assert(ps[1] * v1[0] * (todd_falling(2, 2) * todd_weight(2)) == -14700) by (nonlinear_arith)
        requires
            ps[1] * v1[0] == 4,
            todd_falling(2, 2) == 1,
            todd_weight(2) == -3675,
    ;
    assert(todd_partial_scalar(ps, v1, 2, 2) == 161700);
    assert(todd_step_fits(ps, v1, 2, 2));
    assert(power_sums_scalar(a, 3) == ps && todd_parts_scalar(ps, 1) == v1);
    assert forall|m: int| 1 <= m <= 2 implies #[trigger] todd_step_fits(power_sums_scalar(a, 3), todd_parts_scalar(power_sums_scalar(a, 3), 1), 2, m) by {
        if m == 1 {
        } else if m == 2 {
        }
    }
    assert(todd_part_fits(a, 3, 2));
    let v2 = seq![1int, 420, 161700];
    assert(todd_parts_scalar(ps, 2) =~= v2);
    assert(todd_partial_scalar(ps, v2, 3, 0) == 0);
    assert(ps[0] * v2[2] == 646800) by (nonlinear_arith)
        requires
            ps[0] == 4,
            v2[2] == 161700,
    ;
    assert(ps[0] * v2[2] * (todd_falling(3, 1) * todd_weight(1)) == 67914000) by (nonlinear_arith)
        requires
            ps[0] * v2[2] == 646800,
            todd_falling(3, 1) == 1,
            todd_weight(1) == 105,
    ;
    assert(todd_partial_scalar(ps, v2, 3, 1) == 67914000);
    assert(todd_step_fits(ps, v2, 3, 1));
    assert(ps[1] * v2[1] == 1680) by (nonlinear_arith)
        requires
            ps[1] == 4,
            v2[1] == 420,
    ;
    assert(ps[1] * v2[1] * (todd_falling(3, 2) * todd_weight(2)) == -12348000) by (nonlinear_arith)
        requires
            ps[1] * v2[1] == 1680,
            todd_falling(3, 2) == 2,
            todd_weight(2) == -3675,
    ;
    assert(todd_partial_scalar(ps, v2, 3, 2) == 55566000);
    assert(todd_step_fits(ps, v2, 3, 2));
    assert(ps[2] * v2[0] == 4) by (nonlinear_arith)
        requires
            ps[2] == 4,
            v2[0] == 1,
    ;
    assert(ps[2] * v2[0] * (todd_falling(3, 3) * todd_weight(3)) == 0) by (nonlinear_arith)
        requires
            ps[2] * v2[0] == 4,
            todd_falling(3, 3) == 2,
            todd_weight(3) == 0,
    ;
    assert(todd_partial_scalar(ps, v2, 3, 3) == 55566000);
    assert(todd_step_fits(ps, v2, 3, 3));
    assert(power_sums_scalar(a, 3) == ps && todd_parts_scalar(ps, 2) == v2);
    assert forall|m: int| 1 <= m <= 3 implies #[trigger] todd_step_fits(power_sums_scalar(a, 3), todd_parts_scalar(power_sums_scalar(a, 3), 2), 3, m) by {
        if m == 1 {
        } else if m == 2 {
        } else if m == 3 {
        }
    }
    assert(todd_part_fits(a, 3, 3));
    let v3 = seq![1int, 420, 161700, 55566000];
    assert(todd_parts_scalar(ps, 3) =~= v3);
    assert(todd_scale(3, 3) == 1);
    assert(todd_scale(3, 2) == todd_scale(3, 3) * 3 * 210);
    assert(todd_scale(3, 2) == 630);
    assert(todd_scale(3, 1) == todd_scale(3, 2) * 2 * 210);
    assert(todd_scale(3, 1) == 264600);
    assert(todd_scale(3, 0) == todd_scale(3, 1) * 1 * 210);
    assert(todd_scale(3, 0) == 55566000);
    assert(v3[0] * todd_scale(3, 0) == 55566000) by (nonlinear_arith)
        requires
            v3[0] == 1,
            todd_scale(3, 0) == 55566000,
    ;
    assert(v3[1] * todd_scale(3, 1) == 111132000) by (nonlinear_arith)
        requires
            v3[1] == 420,
            todd_scale(3, 1) == 264600,
    ;
    assert(v3[2] * todd_scale(3, 2) == 101871000) by (nonlinear_arith)
        requires
            v3[2] == 161700,
            todd_scale(3, 2) == 630,
    ;
    assert(v3[3] * todd_scale(3, 3) == 55566000) by (nonlinear_arith)
        requires
            v3[3] == 55566000,
            todd_scale(3, 3) == 1,
    ;
    assert forall|t: int| 0 <= t <= 3 implies fits_int(#[trigger] todd_parts_scalar(power_sums_scalar(a, 3), 3)[t] * todd_scale(3, t as nat)) by {
        assert(todd_parts_scalar(power_sums_scalar(a, 3), 3) == v3);
        if t == 0 {
        } else if t == 1 {
        } else if t == 2 {
        } else if t == 3 {
        }
    }
    assert forall|j: int| 1 <= j <= 3 implies #[trigger] newton_fits(a, j) by {
        if j == 1 {
        } else if j == 2 {
        } else if j == 3 {
        }
    }
    assert forall|k: int| 1 <= k <= 3 implies #[trigger] todd_part_fits(a, 3, k) by {
        if k == 1 {
        } else if k == 2 {
        } else if k == 3 {
        }
    }
}

/// The Todd class of `CP^4` on its coefficients: its genus is `1`, and
/// every step fits.
proof fn lemma_genus_cp4()
    ensures
        todd_parts_scalar(power_sums_scalar(cp_coeffs(4), 4), 4)[4] * todd_scale(4, 4) == todd_scale(4, 0),
        todd_fits(cp_coeffs(4), 4),
{
    assert(binomial(1, 0) == 1);
    assert(binomial(1, 1) == 1);
    assert(binomial(2, 0) == 1);
    assert(binomial(2, 1) == 2);
    assert(binomial(2, 2) == 1);
    assert(binomial(3, 0) == 1);
    assert(binomial(3, 1) == 3);
    assert(binomial(3, 2) == 3);
    assert(binomial(3, 3) == 1);
    assert(binomial(4, 0) == 1);
    assert(binomial(4, 1) == 4);
    assert(binomial(4, 2) == 6);
    assert(binomial(4, 3) == 4);
    assert(binomial(4, 4) == 1);
    assert(binomial(5, 0) == 1);
    assert(binomial(5, 1) == 5);
    assert(binomial(5, 2) == 10);
    assert(binomial(5, 3) == 10);
    assert(binomial(5, 4) == 5);
    assert(binomial(5, 5) == 1);
    let a = cp_coeffs(4);
    assert(a =~= seq![1int, 5, 10, 10, 5]);
    assert(coeff(a, 0) == 1);
    assert(coeff(a, 1) == 5);
    assert(coeff(a, 2) == 10);
    assert(coeff(a, 3) == 10);
    assert(coeff(a, 4) == 5);
    let p0 = Seq::<int>::empty();
    assert(power_sums_scalar(a, 0) =~= p0);
    assert(coeff(a, 1) * (alt_sign(1) * 1) == 5) by (nonlinear_arith)
        requires
            coeff(a, 1) == 5,
            alt_sign(1) == 1,
    ;
    assert(newton_scalar(a, p0, 1, 0) == 5);
    assert(power_sums_scalar(a, 0) == p0);
    assert(newton_fits(a, 1));
    let p1 = seq![5int];
    assert(power_sums_scalar(a, 1) =~= p1);
    assert(coeff(a, 2) * (alt_sign(2) * 2) == -20) by (nonlinear_arith)
        requires
            coeff(a, 2) == 10,
            alt_sign(2) == -1,
    ;
    assert(newton_scalar(a, p1, 2, 0) == -20);
    assert(coeff(a, 1) * p1[0] == 25) by (nonlinear_arith)
        requires
            coeff(a, 1) == 5,
            p1[0] == 5,
    ;
    assert(coeff(a, 1) * p1[0] * alt_sign(1) == 25) by (nonlinear_arith)
        requires
            coeff(a, 1) * p1[0] == 25,
            alt_sign(1) == 1,
    ;
    assert(newton_scalar(a, p1, 2, 1) == 5);
    assert(newton_step_fits(a, p1, 2, 1));
    assert(power_sums_scalar(a, 1) == p1);
    assert forall|m: int| 1 <= m < 2 implies #[trigger] newton_step_fits(a, power_sums_scalar(a, 1), 2, m) by {
        if m == 1 {
        }
    }
    assert(newton_fits(a, 2));
    let p2 = seq![5int, 5];
    assert(power_sums_scalar(a, 2) =~= p2);
    assert(coeff(a, 3) * (alt_sign(3) * 3) == 30) by (nonlinear_arith)
        requires
            coeff(a, 3) == 10,
            alt_sign(3) == 1,
    ;
    assert(newton_scalar(a, p2, 3, 0) == 30);
    assert(coeff(a, 1) * p2[1] == 25) by (nonlinear_arith)
        requires
            coeff(a, 1) == 5,
            p2[1] == 5,
    ;
    assert(coeff(a, 1) * p2[1] * alt_sign(1) == 25) by (nonlinear_arith)
        requires
            coeff(a, 1) * p2[1] == 25,
            alt_sign(1) == 1,
    ;
    assert(newton_scalar(a, p2, 3, 1) == 55);
    assert(newton_step_fits(a, p2, 3, 1));
    assert(coeff(a, 2) * p2[0] == 50) by (nonlinear_arith)
        requires
            coeff(a, 2) == 10,
            p2[0] == 5,
    ;
    assert(coeff(a, 2) * p2[0] * alt_sign(2) == -50) by (nonlinear_arith)
        requires
            coeff(a, 2) * p2[0] == 50,
            alt_sign(2) == -1,
    ;
    assert(newton_scalar(a, p2, 3, 2) == 5);
    assert(newton_step_fits(a, p2, 3, 2));
    assert(power_sums_scalar(a, 2) == p2);
    assert forall|m: int| 1 <= m < 3 implies #[trigger] newton_step_fits(a, power_sums_scalar(a, 2), 3, m) by {
        if m == 1 {
        } else if m == 2 {
        }
    }
    assert(newton_fits(a, 3));
    let p3 = seq![5int, 5, 5];
    assert(power_sums_scalar(a, 3) =~= p3);
    assert(coeff(a, 4) * (alt_sign(4) * 4) == -20) by (nonlinear_arith)
        requires
            coeff(a, 4) == 5,
            alt_sign(4) == -1,
    ;
    assert(newton_scalar(a, p3, 4, 0) == -20);
    assert(coeff(a, 1) * p3[2] == 25) by (nonlinear_arith)
        requires
            coeff(a, 1) == 5,
            p3[2] == 5,
    ;
    assert(coeff(a, 1) * p3[2] * alt_sign(1) == 25) by (nonlinear_arith)
        requires
            coeff(a, 1) * p3[2] == 25,
            alt_sign(1) == 1,
    ;
    assert(newton_scalar(a, p3, 4, 1) == 5);
    assert(newton_step_fits(a, p3, 4, 1));
    assert(coeff(a, 2) * p3[1] == 50) by (nonlinear_arith)
        requires
            coeff(a, 2) == 10,
            p3[1] == 5,
    ;
    assert(coeff(a, 2) * p3[1] * alt_sign(2) == -50) by (nonlinear_arith)
        requires
            coeff(a, 2) * p3[1] == 50,
            alt_sign(2) == -1,
    ;
    assert(newton_scalar(a, p3, 4, 2) == -45);
    assert(newton_step_fits(a, p3, 4, 2));
    assert(coeff(a, 3) * p3[0] == 50) by (nonlinear_arith)
        requires
            coeff(a, 3) == 10,
            p3[0] == 5,
    ;
    assert(coeff(a, 3) * p3[0] * alt_sign(3) == 50) by (nonlinear_arith)
        requires
            coeff(a, 3) * p3[0] == 50,
            alt_sign(3) == 1,
    ;
    assert(newton_scalar(a, p3, 4, 3) == 5);
    assert(newton_step_fits(a, p3, 4, 3));
    assert(power_sums_scalar(a, 3) == p3);
    assert forall|m: int| 1 <= m < 4 implies #[trigger] newton_step_fits(a, power_sums_scalar(a, 3), 4, m) by {
        if m == 1 {
        } else if m == 2 {
        } else if m == 3 {
        }
    }
    assert(newton_fits(a, 4));
    let p4 = seq![5int, 5, 5, 5];
    assert(power_sums_scalar(a, 4) =~= p4);
    let ps = p4;
    assert(todd_falling(1, 1) == 1);
    assert(todd_falling(2, 1) == 1);
    assert(todd_falling(2, 2) == 1);
    assert(todd_falling(3, 1) == 1);
    assert(todd_falling(3, 2) == 2);
    assert(todd_falling(3, 3) == 2);
    assert(todd_falling(4, 1) == 1);
    assert(todd_falling(4, 2) == 3);
    assert(todd_falling(4, 3) == 6);
    assert(todd_falling(4, 4) == 6);
    let v0 = seq![1int];
    assert(todd_parts_scalar(ps, 0) =~= v0);
    assert(todd_partial_scalar(ps, v0, 1, 0) == 0);
    assert(ps[0] * v0[0] == 5) by (nonlinear_arith)
        requires
            ps[0] == 5,
            v0[0] == 1,
    ;
    assert(ps[0] * v0[0] * (todd_falling(1, 1) * todd_weight(1)) == 525) by (nonlinear_arith)
        requires
            ps[0] * v0[0] == 5,
            todd_falling(1, 1) == 1,
            todd_weight(1) == 105,
    ;
    assert(todd_partial_scalar(ps, v0, 1, 1) == 525);
    assert(todd_step_fits(ps, v0, 1, 1));
    assert(power_sums_scalar(a, 4) == ps && todd_parts_scalar(ps, 0) == v0);
    assert forall|m: int| 1 <= m <= 1 implies #[trigger] todd_step_fits(power_sums_scalar(a, 4), todd_parts_scalar(power_sums_scalar(a, 4), 0), 1, m) by {
        if m == 1 {
        }
    }
    assert(todd_part_fits(a, 4, 1));
    let v1 = seq![1int, 525];
    assert(todd_parts_scalar(ps, 1) =~= v1);
    assert(todd_partial_scalar(ps, v1, 2, 0) == 0);
    assert(ps[0] * v1[1] == 2625) by (nonlinear_arith)
        requires
            ps[0] == 5,
            v1[1] == 525,
    ;
    assert(ps[0] * v1[1] * (todd_falling(2, 1) * todd_weight(1)) == 275625) by (nonlinear_arith)
        requires
            ps[0] * v1[1] == 2625,
            todd_falling(2, 1) == 1,
            todd_weight(1) == 105,
    ;
    assert(todd_partial_scalar(ps, v1, 2, 1) == 275625);
    assert(todd_step_fits(ps, v1, 2, 1));
    assert(ps[1] * v1[0] == 5) by (nonlinear_arith)
        requires
            ps[1] == 5,
            v1[0] == 1,
    ;
    assert(ps[1] * v1[0] * (todd_falling(2, 2) * todd_weight(2)) == -18375) by (nonlinear_arith)
        requires
            ps[1] * v1[0] == 5,
            todd_falling(2, 2) == 1,
            todd_weight(2) == -3675,
    ;
    assert(todd_partial_scalar(ps, v1, 2, 2) == 257250);
    assert(todd_step_fits(ps, v1, 2, 2));
    assert(power_sums_scalar(a, 4) == ps && todd_parts_scalar(ps, 1) == v1);
    assert forall|m: int| 1 <= m <= 2 implies #[trigger] todd_step_fits(power_sums_scalar(a, 4), todd_parts_scalar(power_sums_scalar(a, 4), 1), 2, m) by {
        if m == 1 {
        } else if m == 2 {
        }
    }
    assert(todd_part_fits(a, 4, 2));
    let v2 = seq![1int, 525, 257250];
    assert(todd_parts_scalar(ps, 2) =~= v2);
    assert(todd_partial_scalar(ps, v2, 3, 0) == 0);
    assert(ps[0] * v2[2] == 1286250) by (nonlinear_arith)
        requires
            ps[0] == 5,
            v2[2] == 257250,
    ;
    assert(ps[0] * v2[2] * (todd_falling(3, 1) * todd_weight(1)) == 135056250) by (nonlinear_arith)
        requires
            ps[0] * v2[2] == 1286250,
            todd_falling(3, 1) == 1,
            todd_weight(1) == 105,
    ;
    assert(todd_partial_scalar(ps, v2, 3, 1) == 135056250);
    assert(todd_step_fits(ps, v2, 3, 1));
    assert(ps[1] * v2[1] == 2625) by (nonlinear_arith)
        requires
            ps[1] == 5,
            v2[1] == 525,
    ;
    assert(ps[1] * v2[1] * (todd_falling(3, 2) * todd_weight(2)) == -19293750) by (nonlinear_arith)
        requires
            ps[1] * v2[1] == 2625,
            todd_falling(3, 2) == 2,
            todd_weight(2) == -3675,
    ;
    assert(todd_partial_scalar(ps, v2, 3, 2) == 115762500);
    assert(todd_step_fits(ps, v2, 3, 2));
    assert(ps[2] * v2[0] == 5) by (nonlinear_arith)
        requires
            ps[2] == 5,
            v2[0] == 1,
    ;
    assert(ps[2] * v2[0] * (todd_falling(3, 3) * todd_weight(3)) == 0) by (nonlinear_arith)
        requires
            ps[2] * v2[0] == 5,
            todd_falling(3, 3) == 2,
            todd_weight(3) == 0,
    ;
    assert(todd_partial_scalar(ps, v2, 3, 3) == 115762500);
    assert(todd_step_fits(ps, v2, 3, 3));
    assert(power_sums_scalar(a, 4) == ps && todd_parts_scalar(ps, 2) == v2);
    assert forall|m: int| 1 <= m <= 3 implies #[trigger] todd_step_fits(power_sums_scalar(a, 4), todd_parts_scalar(power_sums_scalar(a, 4), 2), 3, m) by {
        if m == 1 {
        } else if m == 2 {
        } else if m == 3 {
        }
    }
    assert(todd_part_fits(a, 4, 3));
    let v3 = seq![1int, 525, 257250, 115762500];
    assert(todd_parts_scalar(ps, 3) =~= v3);
    assert(todd_partial_scalar(ps, v3, 4, 0) == 0);
    assert(ps[0] * v3[3] == 578812500) by (nonlinear_arith)
        requires
            ps[0] == 5,
            v3[3] == 115762500,
    ;
    assert(ps[0] * v3[3] * (todd_falling(4, 1) * todd_weight(1)) == 60775312500) by (nonlinear_arith)
        requires
            ps[0] * v3[3] == 578812500,
            todd_falling(4, 1) == 1,
            todd_weight(1) == 105,
    ;
    assert(todd_partial_scalar(ps, v3, 4, 1) == 60775312500);
    assert(todd_step_fits(ps, v3, 4, 1));
    assert(ps[1] * v3[2] == 1286250) by (nonlinear_arith)
        requires
            ps[1] == 5,
            v3[2] == 257250,
    ;
    assert(ps[1] * v3[2] * (todd_falling(4, 2) * todd_weight(2)) == -14180906250) by (nonlinear_arith)
        requires
            ps[1] * v3[2] == 1286250,
            todd_falling(4, 2) == 3,
            todd_weight(2) == -3675,
    ;
    assert(todd_partial_scalar(ps, v3, 4, 2) == 46594406250);
    assert(todd_step_fits(ps, v3, 4, 2));
    assert(ps[2] * v3[1] == 2625) by (nonlinear_arith)
        requires
            ps[2] == 5,
            v3[1] == 525,
    ;
    assert(ps[2] * v3[1] * (todd_falling(4, 3) * todd_weight(3)) == 0) by (nonlinear_arith)
        requires
            ps[2] * v3[1] == 2625,
            todd_falling(4, 3) == 6,
            todd_weight(3) == 0,
    ;
    assert(todd_partial_scalar(ps, v3, 4, 3) == 46594406250);
    assert(todd_step_fits(ps, v3, 4, 3));
    assert(ps[3] * v3[0] == 5) by (nonlinear_arith)
        requires
            ps[3] == 5,
            v3[0] == 1,
    ;
    assert(ps[3] * v3[0] * (todd_falling(4, 4) * todd_weight(4)) == 81033750) by (nonlinear_arith)
        requires
            ps[3] * v3[0] == 5,
            todd_falling(4, 4) == 6,
            todd_weight(4) == 2701125,
    ;
    assert(todd_partial_scalar(ps, v3, 4, 4) == 46675440000);
    assert(todd_step_fits(ps, v3, 4, 4));
    assert(power_sums_scalar(a, 4) == ps && todd_parts_scalar(ps, 3) == v3);
    assert forall|m: int| 1 <= m <= 4 implies #[trigger] todd_step_fits(power_sums_scalar(a, 4), todd_parts_scalar(power_sums_scalar(a, 4), 3), 4, m) by {
        if m == 1 {
        } else if m == 2 {
        } else if m == 3 {
        } else if m == 4 {
        }
    }
    assert(todd_part_fits(a, 4, 4));
    let v4 = seq![1int, 525, 257250, 115762500, 46675440000];
    assert(todd_parts_scalar(ps, 4) =~= v4);
    assert(todd_scale(4, 4) == 1);
    assert(todd_scale(4, 3) == todd_scale(4, 4) * 4 * 210);
    assert(todd_scale(4, 3) == 840);
    assert(todd_scale(4, 2) == todd_scale(4, 3) * 3 * 210);
    assert(todd_scale(4, 2) == 529200);
    assert(todd_scale(4, 1) == todd_scale(4, 2) * 2 * 210);
    assert(todd_scale(4, 1) == 222264000);
    assert(todd_scale(4, 0) == todd_scale(4, 1) * 1 * 210);
    assert(todd_scale(4, 0) == 46675440000);
    assert(v4[0] * todd_scale(4, 0) == 46675440000) by (nonlinear_arith)
        requires
            v4[0] == 1,
            todd_scale(4, 0) == 46675440000,
    ;
    assert(v4[1] * todd_scale(4, 1) == 116688600000) by (nonlinear_arith)
        requires
            v4[1] == 525,
            todd_scale(4, 1) == 222264000,
    ;
    assert(v4[2] * todd_scale(4, 2) == 136136700000) by (nonlinear_arith)
        requires
            v4[2] == 257250,
            todd_scale(4, 2) == 529200,
    ;
    assert(v4[3] * todd_scale(4, 3) == 97240500000) by (nonlinear_arith)
        requires
            v4[3] == 115762500,
            todd_scale(4, 3) == 840,
    ;
    assert(v4[4] * todd_scale(4, 4) == 46675440000) by (nonlinear_arith)
        requires
            v4[4] == 46675440000,
            todd_scale(4, 4) == 1,
    ;
    assert forall|t: int| 0 <= t <= 4 implies fits_int(#[trigger] todd_parts_scalar(power_sums_scalar(a, 4), 4)[t] * todd_scale(4, t as nat)) by {
        assert(todd_parts_scalar(power_sums_scalar(a, 4), 4) == v4);
        if t == 0 {
        } else if t == 1 {
        } else if t == 2 {
        } else if t == 3 {
        } else if t == 4 {
        }
    }
    assert forall|j: int| 1 <= j <= 4 implies #[trigger] newton_fits(a, j) by {
        if j == 1 {
        } else if j == 2 {
        } else if j == 3 {
        } else if j == 4 {
        }
    }
    assert forall|k: int| 1 <= k <= 4 implies #[trigger] todd_part_fits(a, 4, k) by {
        if k == 1 {
        } else if k == 2 {
        } else if k == 3 {
        } else if k == 4 {
        }
    }
}

/// The Todd class of `CP^5` on its coefficients: its genus is `1`, and
/// every step fits.
proof fn lemma_genus_cp5()
    ensures
        todd_parts_scalar(power_sums_scalar(cp_coeffs(5), 5), 5)[5] * todd_scale(5, 5) == todd_scale(5, 0),
        todd_fits(cp_coeffs(5), 5),
{
    assert(binomial(1, 0) == 1);
    assert(binomial(1, 1) == 1);
    assert(binomial(2, 0) == 1);
    assert(binomial(2, 1) == 2);
    assert(binomial(2, 2) == 1);
    assert(binomial(3, 0) == 1);
    assert(binomial(3, 1) == 3);
    assert(binomial(3, 2) == 3);
    assert(binomial(3, 3) == 1);
    assert(binomial(4, 0) == 1);
    assert(binomial(4, 1) == 4);
    assert(binomial(4, 2) == 6);
    assert(binomial(4, 3) == 4);
    assert(binomial(4, 4) == 1);
    assert(binomial(5, 0) == 1);
    assert(binomial(5, 1) == 5);
    assert(binomial(5, 2) == 10);
    assert(binomial(5, 3) == 10);
    assert(binomial(5, 4) == 5);
    assert(binomial(5, 5) == 1);
    assert(binomial(6, 0) == 1);
    assert(binomial(6, 1) == 6);
    assert(binomial(6, 2) == 15);
    assert(binomial(6, 3) == 20);
    assert(binomial(6, 4) == 15);
    assert(binomial(6, 5) == 6);
    assert(binomial(6, 6) == 1);
    let a = cp_coeffs(5);
    assert(a =~= seq![1int, 6, 15, 20, 15, 6]);
    assert(coeff(a, 0) == 1);
    assert(coeff(a, 1) == 6);
    assert(coeff(a, 2) == 15);
    assert(coeff(a, 3) == 20);
    assert(coeff(a, 4) == 15);
    assert(coeff(a, 5) == 6);
    let p0 = Seq::<int>::empty();
    assert(power_sums_scalar(a, 0) =~= p0);
    assert(coeff(a, 1) * (alt_sign(1) * 1) == 6) by (nonlinear_arith)
        requires
            coeff(a, 1) == 6,
            alt_sign(1) == 1,
    ;
    assert(newton_scalar(a, p0, 1, 0) == 6);
    assert(power_sums_scalar(a, 0) == p0);
    assert(newton_fits(a, 1));
    let p1 = seq![6int];
    assert(power_sums_scalar(a, 1) =~= p1);
    assert(coeff(a, 2) * (alt_sign(2) * 2) == -30) by (nonlinear_arith)
        requires
            coeff(a, 2) == 15,
            alt_sign(2) == -1,
    ;
    assert(newton_scalar(a, p1, 2, 0) == -30);
    assert(coeff(a, 1) * p1[0] == 36) by (nonlinear_arith)
        requires
            coeff(a, 1) == 6,
            p1[0] == 6,
    ;
    assert(coeff(a, 1) * p1[0] * alt_sign(1) == 36) by (nonlinear_arith)
        requires
            coeff(a, 1) * p1[0] == 36,
            alt_sign(1) == 1,
    ;
    assert(newton_scalar(a, p1, 2, 1) == 6);
    assert(newton_step_fits(a, p1, 2, 1));
    assert(power_sums_scalar(a, 1) == p1);
    assert forall|m: int| 1 <= m < 2 implies #[trigger] newton_step_fits(a, power_sums_scalar(a, 1), 2, m) by {
        if m == 1 {
        }
    }
    assert(newton_fits(a, 2));
    let p2 = seq![6int, 6];
    assert(power_sums_scalar(a, 2) =~= p2);
    assert(coeff(a, 3) * (alt_sign(3) * 3) == 60) by (nonlinear_arith)
        requires
            coeff(a, 3) == 20,
            alt_sign(3) == 1,
    ;
    assert(newton_scalar(a, p2, 3, 0) == 60);
    assert(coeff(a, 1) * p2[1] == 36) by (nonlinear_arith)
        requires
            coeff(a, 1) == 6,
            p2[1] == 6,
    ;
    assert(coeff(a, 1) * p2[1] * alt_sign(1) == 36) by (nonlinear_arith)
        requires
            coeff(a, 1) * p2[1] == 36,
            alt_sign(1) == 1,
    ;
    assert(newton_scalar(a, p2, 3, 1) == 96);
    assert(newton_step_fits(a, p2, 3, 1));
    assert(coeff(a, 2) * p2[0] == 90) by (nonlinear_arith)
        requires
            coeff(a, 2) == 15,
            p2[0] == 6,
    ;
    assert(coeff(a, 2) * p2[0] * alt_sign(2) == -90) by (nonlinear_arith)
        requires
            coeff(a, 2) * p2[0] == 90,
            alt_sign(2) == -1,
    ;
    assert(newton_scalar(a, p2, 3, 2) == 6);
    assert(newton_step_fits(a, p2, 3, 2));
    assert(power_sums_scalar(a, 2) == p2);
    assert forall|m: int| 1 <= m < 3 implies #[trigger] newton_step_fits(a, power_sums_scalar(a, 2), 3, m) by {
        if m == 1 {
        } else if m == 2 {
        }
    }
    assert(newton_fits(a, 3));
    let p3 = seq![6int, 6, 6];
    assert(power_sums_scalar(a, 3) =~= p3);
    assert(coeff(a, 4) * (alt_sign(4) * 4) == -60) by (nonlinear_arith)
        requires
            coeff(a, 4) == 15,
            alt_sign(4) == -1,
    ;
    assert(newton_scalar(a, p3, 4, 0) == -60);
    assert(coeff(a, 1) * p3[2] == 36) by (nonlinear_arith)
        requires
            coeff(a, 1) == 6,
            p3[2] == 6,
    ;
    assert(coeff(a, 1) * p3[2] * alt_sign(1) == 36) by (nonlinear_arith)
        requires
            coeff(a, 1) * p3[2] == 36,
            alt_sign(1) == 1,
    ;
    assert(newton_scalar(a, p3, 4, 1) == -24);
    assert(newton_step_fits(a, p3, 4, 1));
    assert(coeff(a, 2) * p3[1] == 90) by (nonlinear_arith)
        requires
            coeff(a, 2) == 15,
            p3[1] == 6,
    ;
    assert(coeff(a, 2) * p3[1] * alt_sign(2) == -90) by (nonlinear_arith)
        requires
            coeff(a, 2) * p3[1] == 90,
            alt_sign(2) == -1,
    ;
    assert(newton_scalar(a, p3, 4, 2) == -114);
    assert(newton_step_fits(a, p3, 4, 2));
    assert(coeff(a, 3) * p3[0] == 120) by (nonlinear_arith)
        requires
            coeff(a, 3) == 20,
            p3[0] == 6,
    ;
    assert(coeff(a, 3) * p3[0] * alt_sign(3) == 120) by (nonlinear_arith)
        requires
            coeff(a, 3) * p3[0] == 120,
            alt_sign(3) == 1,
    ;
    assert(newton_scalar(a, p3, 4, 3) == 6);
    assert(newton_step_fits(a, p3, 4, 3));
    assert(power_sums_scalar(a, 3) == p3);
    assert forall|m: int| 1 <= m < 4 implies #[trigger] newton_step_fits(a, power_sums_scalar(a, 3), 4, m) by {
        if m == 1 {
        } else if m == 2 {
        } else if m == 3 {
        }
    }
    assert(newton_fits(a, 4));
    let p4 = seq![6int, 6, 6, 6];
    assert(power_sums_scalar(a, 4) =~= p4);
    assert(coeff(a, 5) * (alt_sign(5) * 5) == 30) by (nonlinear_arith)
        requires
            coeff(a, 5) == 6,
            alt_sign(5) == 1,
    ;
    assert(newton_scalar(a, p4, 5, 0) == 30);
    assert(coeff(a, 1) * p4[3] == 36) by (nonlinear_arith)
        requires
            coeff(a, 1) == 6,
            p4[3] == 6,
    ;
    assert(coeff(a, 1) * p4[3] * alt_sign(1) == 36) by (nonlinear_arith)
        requires
            coeff(a, 1) * p4[3] == 36,
            alt_sign(1) == 1,
    ;
    assert(newton_scalar(a, p4, 5, 1) == 66);
    assert(newton_step_fits(a, p4, 5, 1));
    assert(coeff(a, 2) * p4[2] == 90) by (nonlinear_arith)
        requires
            coeff(a, 2) == 15,
            p4[2] == 6,
    ;
    assert(coeff(a, 2) * p4[2] * alt_sign(2) == -90) by (nonlinear_arith)
        requires
            coeff(a, 2) * p4[2] == 90,
            alt_sign(2) == -1,
    ;
    assert(newton_scalar(a, p4, 5, 2) == -24);
    assert(newton_step_fits(a, p4, 5, 2));
    assert(coeff(a, 3) * p4[1] == 120) by (nonlinear_arith)
        requires
            coeff(a, 3) == 20,
            p4[1] == 6,
    ;
    assert(coeff(a, 3) * p4[1] * alt_sign(3) == 120) by (nonlinear_arith)
        requires
            coeff(a, 3) * p4[1] == 120,
            alt_sign(3) == 1,
    ;
    assert(newton_scalar(a, p4, 5, 3) == 96);
    assert(newton_step_fits(a, p4, 5, 3));
    assert(coeff(a, 4) * p4[0] == 90) by (nonlinear_arith)
        requires
            coeff(a, 4) == 15,
            p4[0] == 6,
    ;
    assert(coeff(a, 4) * p4[0] * alt_sign(4) == -90) by (nonlinear_arith)
        requires
            coeff(a, 4) * p4[0] == 90,
            alt_sign(4) == -1,
    ;
    assert(newton_scalar(a, p4, 5, 4) == 6);
    assert(newton_step_fits(a, p4, 5, 4));
    assert(power_sums_scalar(a, 4) == p4);
    assert forall|m: int| 1 <= m < 5 implies #[trigger] newton_step_fits(a, power_sums_scalar(a, 4), 5, m) by {
        if m == 1 {
        } else if m == 2 {
        } else if m == 3 {
        } else if m == 4 {
        }
    }
    assert(newton_fits(a, 5));
    let p5 = seq![6int, 6, 6, 6, 6];
    assert(power_sums_scalar(a, 5) =~= p5);
    let ps = p5;
    assert(todd_falling(1, 1) == 1);
    assert(todd_falling(2, 1) == 1);
    assert(todd_falling(2, 2) == 1);
    assert(todd_falling(3, 1) == 1);
    assert(todd_falling(3, 2) == 2);
    assert(todd_falling(3, 3) == 2);
    assert(todd_falling(4, 1) == 1);
    assert(todd_falling(4, 2) == 3);
    assert(todd_falling(4, 3) == 6);
    assert(todd_falling(4, 4) == 6);
    assert(todd_falling(5, 1) == 1);
    assert(todd_falling(5, 2) == 4);
    assert(todd_falling(5, 3) == 12);
    assert(todd_falling(5, 4) == 24);
    assert(todd_falling(5, 5) == 24);
    let v0 = seq![1int];
    assert(todd_parts_scalar(ps, 0) =~= v0);
    assert(todd_partial_scalar(ps, v0, 1, 0) == 0);
    assert(ps[0] * v0[0] == 6) by (nonlinear_arith)
        requires
            ps[0] == 6,
            v0[0] == 1,
    ;
    assert(ps[0] * v0[0] * (todd_falling(1, 1) * todd_weight(1)) == 630) by (nonlinear_arith)
        requires
            ps[0] * v0[0] == 6,
            todd_falling(1, 1) == 1,
            todd_weight(1) == 105,
    ;
    assert(todd_partial_scalar(ps, v0, 1, 1) == 630);
    assert(todd_step_fits(ps, v0, 1, 1));
    assert(power_sums_scalar(a, 5) == ps && todd_parts_scalar(ps, 0) == v0);
    assert forall|m: int| 1 <= m <= 1 implies #[trigger] todd_step_fits(power_sums_scalar(a, 5), todd_parts_scalar(power_sums_scalar(a, 5), 0), 1, m) by {
        if m == 1 {
        }
    }
    assert(todd_part_fits(a, 5, 1));
    let v1 = seq![1int, 630];
    assert(todd_parts_scalar(ps, 1) =~= v1);
    assert(todd_partial_scalar(ps, v1, 2, 0) == 0);
    assert(ps[0] * v1[1] == 3780) by (nonlinear_arith)
        requires
            ps[0] == 6,
            v1[1] == 630,
    ;
    assert(ps[0] * v1[1] * (todd_falling(2, 1) * todd_weight(1)) == 396900) by (nonlinear_arith)
        requires
            ps[0] * v1[1] == 3780,
            todd_falling(2, 1) == 1,
            todd_weight(1) == 105,
    ;
    assert(todd_partial_scalar(ps, v1, 2, 1) == 396900);
    assert(todd_step_fits(ps, v1, 2, 1));
    assert(ps[1] * v1[0] == 6) by (nonlinear_arith)
        requires
            ps[1] == 6,
            v1[0] == 1,
    ;
    assert(ps[1] * v1[0] * (todd_falling(2, 2) * todd_weight(2)) == -22050) by (nonlinear_arith)
        requires
            ps[1] * v1[0] == 6,
            todd_falling(2, 2) == 1,
            todd_weight(2) == -3675,
    ;
    assert(todd_partial_scalar(ps, v1, 2, 2) == 374850);
    assert(todd_step_fits(ps, v1, 2, 2));
    assert(power_sums_scalar(a, 5) == ps && todd_parts_scalar(ps, 1) == v1);
    assert forall|m: int| 1 <= m <= 2 implies #[trigger] todd_step_fits(power_sums_scalar(a, 5), todd_parts_scalar(power_sums_scalar(a, 5), 1), 2, m) by {
        if m == 1 {
        } else if m == 2 {
        }
    }
    assert(todd_part_fits(a, 5, 2));
    let v2 = seq![1int, 630, 374850];
    assert(todd_parts_scalar(ps, 2) =~= v2);
    assert(todd_partial_scalar(ps, v2, 3, 0) == 0);
    assert(ps[0] * v2[2] == 2249100) by (nonlinear_arith)
        requires
            ps[0] == 6,
            v2[2] == 374850,
    ;
    assert(ps[0] * v2[2] * (todd_falling(3, 1) * todd_weight(1)) == 236155500) by (nonlinear_arith)
        requires
            ps[0] * v2[2] == 2249100,
            todd_falling(3, 1) == 1,
            todd_weight(1) == 105,
    ;
    assert(todd_partial_scalar(ps, v2, 3, 1) == 236155500);
    assert(todd_step_fits(ps, v2, 3, 1));
    assert(ps[1] * v2[1] == 3780) by (nonlinear_arith)
        requires
            ps[1] == 6,
            v2[1] == 630,
    ;
    assert(ps[1] * v2[1] * (todd_falling(3, 2) * todd_weight(2)) == -27783000) by (nonlinear_arith)
        requires
            ps[1] * v2[1] == 3780,
            todd_falling(3, 2) == 2,
            todd_weight(2) == -3675,
    ;
    assert(todd_partial_scalar(ps, v2, 3, 2) == 208372500);
    assert(todd_step_fits(ps, v2, 3, 2));
    assert(ps[2] * v2[0] == 6) by (nonlinear_arith)
        requires
            ps[2] == 6,
            v2[0] == 1,
    ;
    assert(ps[2] * v2[0] * (todd_falling(3, 3) * todd_weight(3)) == 0) by (nonlinear_arith)
        requires
            ps[2] * v2[0] == 6,
            todd_falling(3, 3) == 2,
            todd_weight(3) == 0,
    ;
    assert(todd_partial_scalar(ps, v2, 3, 3) == 208372500);
    assert(todd_step_fits(ps, v2, 3, 3));
    assert(power_sums_scalar(a, 5) == ps && todd_parts_scalar(ps, 2) == v2);
    assert forall|m: int| 1 <= m <= 3 implies #[trigger] todd_step_fits(power_sums_scalar(a, 5), todd_parts_scalar(power_sums_scalar(a, 5), 2), 3, m) by {
        if m == 1 {
        } else if m == 2 {
        } else if m == 3 {
        }
    }
    assert(todd_part_fits(a, 5, 3));
    let v3 = seq![1int, 630, 374850, 208372500];
    assert(todd_parts_scalar(ps, 3) =~= v3);
    assert(todd_partial_scalar(ps, v3, 4, 0) == 0);
    assert(ps[0] * v3[3] == 1250235000) by (nonlinear_arith)
        requires
            ps[0] == 6,
            v3[3] == 208372500,
    ;
    assert(ps[0] * v3[3] * (todd_falling(4, 1) * todd_weight(1)) == 131274675000) by (nonlinear_arith)
        requires
            ps[0] * v3[3] == 1250235000,
            todd_falling(4, 1) == 1,
            todd_weight(1) == 105,
    ;
    assert(todd_partial_scalar(ps, v3, 4, 1) == 131274675000);
    assert(todd_step_fits(ps, v3, 4, 1));
    assert(ps[1] * v3[2] == 2249100) by (nonlinear_arith)
        requires
            ps[1] == 6,
            v3[2] == 374850,
    ;
    assert(ps[1] * v3[2] * (todd_falling(4, 2) * todd_weight(2)) == -24796327500) by (nonlinear_arith)
        requires
            ps[1] * v3[2] == 2249100,
            todd_falling(4, 2) == 3,
            todd_weight(2) == -3675,
    ;
    assert(todd_partial_scalar(ps, v3, 4, 2) == 106478347500);
    assert(todd_step_fits(ps, v3, 4, 2));
    assert(ps[2] * v3[1] == 3780) by (nonlinear_arith)
        requires
            ps[2] == 6,
            v3[1] == 630,
    ;
    assert(ps[2] * v3[1] * (todd_falling(4, 3) * todd_weight(3)) == 0) by (nonlinear_arith)
        requires
            ps[2] * v3[1] == 3780,
            todd_falling(4, 3) == 6,
            todd_weight(3) == 0,
    ;
    assert(todd_partial_scalar(ps, v3, 4, 3) == 106478347500);
    assert(todd_step_fits(ps, v3, 4, 3));
    assert(ps[3] * v3[0] == 6) by (nonlinear_arith)
        requires
            ps[3] == 6,
            v3[0] == 1,
    ;
    assert(ps[3] * v3[0] * (todd_falling(4, 4) * todd_weight(4)) == 97240500) by (nonlinear_arith)
        requires
            ps[3] * v3[0] == 6,
            todd_falling(4, 4) == 6,
            todd_weight(4) == 2701125,
    ;
    assert(todd_partial_scalar(ps, v3, 4, 4) == 106575588000);
    assert(todd_step_fits(ps, v3, 4, 4));
    assert(power_sums_scalar(a, 5) == ps && todd_parts_scalar(ps, 3) == v3);
    assert forall|m: int| 1 <= m <= 4 implies #[trigger] todd_step_fits(power_sums_scalar(a, 5), todd_parts_scalar(power_sums_scalar(a, 5), 3), 4, m) by {
        if m == 1 {
        } else if m == 2 {
        } else if m == 3 {
        } else if m == 4 {
        }
    }
    assert(todd_part_fits(a, 5, 4));
    let v4 = seq![1int, 630, 374850, 208372500, 106575588000];
    assert(todd_parts_scalar(ps, 4) =~= v4);
    assert(todd_partial_scalar(ps, v4, 5, 0) == 0);
    assert(ps[0] * v4[4] == 639453528000) by (nonlinear_arith)
        requires
            ps[0] == 6,
            v4[4] == 106575588000,
    ;
    assert(ps[0] * v4[4] * (todd_falling(5, 1) * todd_weight(1)) == 67142620440000) by (nonlinear_arith)
        requires
            ps[0] * v4[4] == 639453528000,
            todd_falling(5, 1) == 1,
            todd_weight(1) == 105,
    ;
    assert(todd_partial_scalar(ps, v4, 5, 1) == 67142620440000);
    assert(todd_step_fits(ps, v4, 5, 1));
    assert(ps[1] * v4[3] == 1250235000) by (nonlinear_arith)
        requires
            ps[1] == 6,
            v4[3] == 208372500,
    ;
    assert(ps[1] * v4[3] * (todd_falling(5, 2) * todd_weight(2)) == -18378454500000) by (nonlinear_arith)
        requires
            ps[1] * v4[3] == 1250235000,
            todd_falling(5, 2) == 4,
            todd_weight(2) == -3675,
    ;
    assert(todd_partial_scalar(ps, v4, 5, 2) == 48764165940000);
    assert(todd_step_fits(ps, v4, 5, 2));
    assert(ps[2] * v4[2] == 2249100) by (nonlinear_arith)
        requires
            ps[2] == 6,
            v4[2] == 374850,
    ;
    assert(ps[2] * v4[2] * (todd_falling(5, 3) * todd_weight(3)) == 0) by (nonlinear_arith)
        requires
            ps[2] * v4[2] == 2249100,
            todd_falling(5, 3) == 12,
            todd_weight(3) == 0,
    ;
    assert(todd_partial_scalar(ps, v4, 5, 3) == 48764165940000);
    assert(todd_step_fits(ps, v4, 5, 3));
    assert(ps[3] * v4[1] == 3780) by (nonlinear_arith)
        requires
            ps[3] == 6,
            v4[1] == 630,
    ;
    assert(ps[3] * v4[1] * (todd_falling(5, 4) * todd_weight(4)) == 245046060000) by (nonlinear_arith)
        requires
            ps[3] * v4[1] == 3780,
            todd_falling(5, 4) == 24,
            todd_weight(4) == 2701125,
    ;
    assert(todd_partial_scalar(ps, v4, 5, 4) == 49009212000000);
    assert(todd_step_fits(ps, v4, 5, 4));
    assert(ps[4] * v4[0] == 6) by (nonlinear_arith)
        requires
            ps[4] == 6,
            v4[0] == 1,
    ;
    assert(ps[4] * v4[0] * (todd_falling(5, 5) * todd_weight(5)) == 0) by (nonlinear_arith)
        requires
            ps[4] * v4[0] == 6,
            todd_falling(5, 5) == 24,
            todd_weight(5) == 0,
    ;
    assert(todd_partial_scalar(ps, v4, 5, 5) == 49009212000000);
    assert(todd_step_fits(ps, v4, 5, 5));
    assert(power_sums_scalar(a, 5) == ps && todd_parts_scalar(ps, 4) == v4);
    assert forall|m: int| 1 <= m <= 5 implies #[trigger] todd_step_fits(power_sums_scalar(a, 5), todd_parts_scalar(power_sums_scalar(a, 5), 4), 5, m) by {
        if m == 1 {
        } else if m == 2 {
        } else if m == 3 {
        } else if m == 4 {
        } else if m == 5 {
        }
    }
    assert(todd_part_fits(a, 5, 5));
    let v5 = seq![1int, 630, 374850, 208372500, 106575588000, 49009212000000];
    assert(todd_parts_scalar(ps, 5) =~= v5);
    assert(todd_scale(5, 5) == 1);
    assert(todd_scale(5, 4) == todd_scale(5, 5) * 5 * 210);
    assert(todd_scale(5, 4) == 1050);
    assert(todd_scale(5, 3) == todd_scale(5, 4) * 4 * 210);
    assert(todd_scale(5, 3) == 882000);
    assert(todd_scale(5, 2) == todd_scale(5, 3) * 3 * 210);
    assert(todd_scale(5, 2) == 555660000);
    assert(todd_scale(5, 1) == todd_scale(5, 2) * 2 * 210);
    assert(todd_scale(5, 1) == 233377200000);
    assert(todd_scale(5, 0) == todd_scale(5, 1) * 1 * 210);
    assert(todd_scale(5, 0) == 49009212000000);
    assert(v5[0] * todd_scale(5, 0) == 49009212000000) by (nonlinear_arith)
        requires
            v5[0] == 1,
            todd_scale(5, 0) == 49009212000000,
    ;
    assert(v5[1] * todd_scale(5, 1) == 147027636000000) by (nonlinear_arith)
        requires
            v5[1] == 630,
            todd_scale(5, 1) == 233377200000,
    ;
    assert(v5[2] * todd_scale(5, 2) == 208289151000000) by (nonlinear_arith)
        requires
            v5[2] == 374850,
            todd_scale(5, 2) == 555660000,
    ;
    assert(v5[3] * todd_scale(5, 3) == 183784545000000) by (nonlinear_arith)
        requires
            v5[3] == 208372500,
            todd_scale(5, 3) == 882000,
    ;
    assert(v5[4] * todd_scale(5, 4) == 111904367400000) by (nonlinear_arith)
        requires
            v5[4] == 106575588000,
            todd_scale(5, 4) == 1050,
    ;
    assert(v5[5] * todd_scale(5, 5) == 49009212000000) by (nonlinear_arith)
        requires
            v5[5] == 49009212000000,
            todd_scale(5, 5) == 1,
    ;
    assert forall|t: int| 0 <= t <= 5 implies fits_int(#[trigger] todd_parts_scalar(power_sums_scalar(a, 5), 5)[t] * todd_scale(5, t as nat)) by {
        assert(todd_parts_scalar(power_sums_scalar(a, 5), 5) == v5);
        if t == 0 {
        } else if t == 1 {
        } else if t == 2 {
        } else if t == 3 {
        } else if t == 4 {
        } else if t == 5 {
        }
    }
    assert forall|j: int| 1 <= j <= 5 implies #[trigger] newton_fits(a, j) by {
        if j == 1 {
        } else if j == 2 {
        } else if j == 3 {
        } else if j == 4 {
        } else if j == 5 {
        }
    }
    assert forall|k: int| 1 <= k <= 5 implies #[trigger] todd_part_fits(a, 5, k) by {
        if k == 1 {
        } else if k == 2 {
        } else if k == 3 {
        } else if k == 4 {
        } else if k == 5 {
        }
    }
}

/// The Todd class of `CP^6` on its coefficients: its genus is `1`, and
/// every step fits.
proof fn lemma_genus_cp6()
    ensures
        todd_parts_scalar(power_sums_scalar(cp_coeffs(6), 6), 6)[6] * todd_scale(6, 6) == todd_scale(6, 0),
        todd_fits(cp_coeffs(6), 6),
{
    assert(binomial(1, 0) == 1);
    assert(binomial(1, 1) == 1);
    assert(binomial(2, 0) == 1);
    assert(binomial(2, 1) == 2);
    assert(binomial(2, 2) == 1);
    assert(binomial(3, 0) == 1);
    assert(binomial(3, 1) == 3);
    assert(binomial(3, 2) == 3);
    assert(binomial(3, 3) == 1);
    assert(binomial(4, 0) == 1);
    assert(binomial(4, 1) == 4);
    assert(binomial(4, 2) == 6);
    assert(binomial(4, 3) == 4);
    assert(binomial(4, 4) == 1);
    assert(binomial(5, 0) == 1);
    assert(binomial(5, 1) == 5);
    assert(binomial(5, 2) == 10);
    assert(binomial(5, 3) == 10);
    assert(binomial(5, 4) == 5);
    assert(binomial(5, 5) == 1);
    assert(binomial(6, 0) == 1);
    assert(binomial(6, 1) == 6);
    assert(binomial(6, 2) == 15);
    assert(binomial(6, 3) == 20);
    assert(binomial(6, 4) == 15);
    assert(binomial(6, 5) == 6);
    assert(binomial(6, 6) == 1);
    assert(binomial(7, 0) == 1);
    assert(binomial(7, 1) == 7);
    assert(binomial(7, 2) == 21);
    assert(binomial(7, 3) == 35);
    assert(binomial(7, 4) == 35);
    assert(binomial(7, 5) == 21);
    assert(binomial(7, 6) == 7);
    assert(binomial(7, 7) == 1);
    let a = cp_coeffs(6);
    assert(a =~= seq![1int, 7, 21, 35, 35, 21, 7]);
    assert(coeff(a, 0) == 1);
    assert(coeff(a, 1) == 7);
    assert(coeff(a, 2) == 21);
    assert(coeff(a, 3) == 35);
    assert(coeff(a, 4) == 35);
    assert(coeff(a, 5) == 21);
    assert(coeff(a, 6) == 7);
    let p0 = Seq::<int>::empty();
    assert(power_sums_scalar(a, 0) =~= p0);
    assert(coeff(a, 1) * (alt_sign(1) * 1) == 7) by (nonlinear_arith)
        requires
            coeff(a, 1) == 7,
            alt_sign(1) == 1,
    ;
    assert(newton_scalar(a, p0, 1, 0) == 7);
    assert(power_sums_scalar(a, 0) == p0);
    assert(newton_fits(a, 1));
    let p1 = seq![7int];
    assert(power_sums_scalar(a, 1) =~= p1);
    assert(coeff(a, 2) * (alt_sign(2) * 2) == -42) by (nonlinear_arith)
        requires
            coeff(a, 2) == 21,
            alt_sign(2) == -1,
    ;
    assert(newton_scalar(a, p1, 2, 0) == -42);
    assert(coeff(a, 1) * p1[0] == 49) by (nonlinear_arith)
        requires
            coeff(a, 1) == 7,
            p1[0] == 7,
    ;
    assert(coeff(a, 1) * p1[0] * alt_sign(1) == 49) by (nonlinear_arith)
        requires
            coeff(a, 1) * p1[0] == 49,
            alt_sign(1) == 1,
    ;
    assert(newton_scalar(a, p1, 2, 1) == 7);
    assert(newton_step_fits(a, p1, 2, 1));
    assert(power_sums_scalar(a, 1) == p1);
    assert forall|m: int| 1 <= m < 2 implies #[trigger] newton_step_fits(a, power_sums_scalar(a, 1), 2, m) by {
        if m == 1 {
        }
    }
    assert(newton_fits(a, 2));
    let p2 = seq![7int, 7];
    assert(power_sums_scalar(a, 2) =~= p2);
    assert(coeff(a, 3) * (alt_sign(3) * 3) == 105) by (nonlinear_arith)
        requires
            coeff(a, 3) == 35,
            alt_sign(3) == 1,
    ;
    assert(newton_scalar(a, p2, 3, 0) == 105);
    assert(coeff(a, 1) * p2[1] == 49) by (nonlinear_arith)
        requires
            coeff(a, 1) == 7,
            p2[1] == 7,
    ;
    assert(coeff(a, 1) * p2[1] * alt_sign(1) == 49) by (nonlinear_arith)
        requires
            coeff(a, 1) * p2[1] == 49,
            alt_sign(1) == 1,
    ;
    assert(newton_scalar(a, p2, 3, 1) == 154);
    assert(newton_step_fits(a, p2, 3, 1));
    assert(coeff(a, 2) * p2[0] == 147) by (nonlinear_arith)
        requires
            coeff(a, 2) == 21,
            p2[0] == 7,
    ;
    assert(coeff(a, 2) * p2[0] * alt_sign(2) == -147) by (nonlinear_arith)
        requires
            coeff(a, 2) * p2[0] == 147,
            alt_sign(2) == -1,
    ;
    assert(newton_scalar(a, p2, 3, 2) == 7);
    assert(newton_step_fits(a, p2, 3, 2));
    assert(power_sums_scalar(a, 2) == p2);
    assert forall|m: int| 1 <= m < 3 implies #[trigger] newton_step_fits(a, power_sums_scalar(a, 2), 3, m) by {
        if m == 1 {
        } else if m == 2 {
        }
    }
    assert(newton_fits(a, 3));
    let p3 = seq![7int, 7, 7];
    assert(power_sums_scalar(a, 3) =~= p3);
    assert(coeff(a, 4) * (alt_sign(4) * 4) == -140) by (nonlinear_arith)
        requires
            coeff(a, 4) == 35,
            alt_sign(4) == -1,
    ;
    assert(newton_scalar(a, p3, 4, 0) == -140);
    assert(coeff(a, 1) * p3[2] == 49) by (nonlinear_arith)
        requires
            coeff(a, 1) == 7,
            p3[2] == 7,
    ;
    assert(coeff(a, 1) * p3[2] * alt_sign(1) == 49) by (nonlinear_arith)
        requires
            coeff(a, 1) * p3[2] == 49,
            alt_sign(1) == 1,
    ;
    assert(newton_scalar(a, p3, 4, 1) == -91);
    assert(newton_step_fits(a, p3, 4, 1));
    assert(coeff(a, 2) * p3[1] == 147) by (nonlinear_arith)
        requires
            coeff(a, 2) == 21,
            p3[1] == 7,
    ;
    assert(coeff(a, 2) * p3[1] * alt_sign(2) == -147) by (nonlinear_arith)
        requires
            coeff(a, 2) * p3[1] == 147,
            alt_sign(2) == -1,
    ;
    assert(newton_scalar(a, p3, 4, 2) == -238);
    assert(newton_step_fits(a, p3, 4, 2));
    assert(coeff(a, 3) * p3[0] == 245) by (nonlinear_arith)
        requires
            coeff(a, 3) == 35,
            p3[0] == 7,
    ;
    assert(coeff(a, 3) * p3[0] * alt_sign(3) == 245) by (nonlinear_arith)
        requires
            coeff(a, 3) * p3[0] == 245,
            alt_sign(3) == 1,
    ;
    assert(newton_scalar(a, p3, 4, 3) == 7);
    assert(newton_step_fits(a, p3, 4, 3));
    assert(power_sums_scalar(a, 3) == p3);
    assert forall|m: int| 1 <= m < 4 implies #[trigger] newton_step_fits(a, power_sums_scalar(a, 3), 4, m) by {
        if m == 1 {
        } else if m == 2 {
        } else if m == 3 {
        }
    }
    assert(newton_fits(a, 4));
    let p4 = seq![7int, 7, 7, 7];
    assert(power_sums_scalar(a, 4) =~= p4);
    assert(coeff(a, 5) * (alt_sign(5) * 5) == 105) by (nonlinear_arith)
        requires
            coeff(a, 5) == 21,
            alt_sign(5) == 1,
    ;
    assert(newton_scalar(a, p4, 5, 0) == 105);
    assert(coeff(a, 1) * p4[3] == 49) by (nonlinear_arith)
        requires
            coeff(a, 1) == 7,
            p4[3] == 7,
    ;
    assert(coeff(a, 1) * p4[3] * alt_sign(1) == 49) by (nonlinear_arith)
        requires
            coeff(a, 1) * p4[3] == 49,
            alt_sign(1) == 1,
    ;
    assert(newton_scalar(a, p4, 5, 1) == 154);
    assert(newton_step_fits(a, p4, 5, 1));
    assert(coeff(a, 2) * p4[2] == 147) by (nonlinear_arith)
        requires
            coeff(a, 2) == 21,
            p4[2] == 7,
    ;
    assert(coeff(a, 2) * p4[2] * alt_sign(2) == -147) by (nonlinear_arith)
        requires
            coeff(a, 2) * p4[2] == 147,
            alt_sign(2) == -1,
    ;
    assert(newton_scalar(a, p4, 5, 2) == 7);
    assert(newton_step_fits(a, p4, 5, 2));
    assert(coeff(a, 3) * p4[1] == 245) by (nonlinear_arith)
        requires
            coeff(a, 3) == 35,
            p4[1] == 7,
    ;
    assert(coeff(a, 3) * p4[1] * alt_sign(3) == 245) by (nonlinear_arith)
        requires
            coeff(a, 3) * p4[1] == 245,
            alt_sign(3) == 1,
    ;
    assert(newton_scalar(a, p4, 5, 3) == 252);
    assert(newton_step_fits(a, p4, 5, 3));
    assert(coeff(a, 4) * p4[0] == 245) by (nonlinear_arith)
        requires
            coeff(a, 4) == 35,
            p4[0] == 7,
    ;
    assert(coeff(a, 4) * p4[0] * alt_sign(4) == -245) by (nonlinear_arith)
        requires
            coeff(a, 4) * p4[0] == 245,
            alt_sign(4) == -1,
    ;
    assert(newton_scalar(a, p4, 5, 4) == 7);
    assert(newton_step_fits(a, p4, 5, 4));
    assert(power_sums_scalar(a, 4) == p4);
    assert forall|m: int| 1 <= m < 5 implies #[trigger] newton_step_fits(a, power_sums_scalar(a, 4), 5, m) by {
        if m == 1 {
        } else if m == 2 {
        } else if m == 3 {
        } else if m == 4 {
        }
    }
    assert(newton_fits(a, 5));
    let p5 = seq![7int, 7, 7, 7, 7];
    assert(power_sums_scalar(a, 5) =~= p5);
    assert(coeff(a, 6) * (alt_sign(6) * 6) == -42) by (nonlinear_arith)
        requires
            coeff(a, 6) == 7,
            alt_sign(6) == -1,
    ;
    assert(newton_scalar(a, p5, 6, 0) == -42);
    assert(coeff(a, 1) * p5[4] == 49) by (nonlinear_arith)
        requires
            coeff(a, 1) == 7,
            p5[4] == 7,
    ;
    assert(coeff(a, 1) * p5[4] * alt_sign(1) == 49) by (nonlinear_arith)
        requires
            coeff(a, 1) * p5[4] == 49,
            alt_sign(1) == 1,
    ;
    assert(newton_scalar(a, p5, 6, 1) == 7);
    assert(newton_step_fits(a, p5, 6, 1));
    assert(coeff(a, 2) * p5[3] == 147) by (nonlinear_arith)
        requires
            coeff(a, 2) == 21,
            p5[3] == 7,
    ;
    assert(coeff(a, 2) * p5[3] * alt_sign(2) == -147) by (nonlinear_arith)
        requires
            coeff(a, 2) * p5[3] == 147,
            alt_sign(2) == -1,
    ;
    assert(newton_scalar(a, p5, 6, 2) == -140);
    assert(newton_step_fits(a, p5, 6, 2));
    assert(coeff(a, 3) * p5[2] == 245) by (nonlinear_arith)
        requires
            coeff(a, 3) == 35,
            p5[2] == 7,
    ;
    assert(coeff(a, 3) * p5[2] * alt_sign(3) == 245) by (nonlinear_arith)
        requires
            coeff(a, 3) * p5[2] == 245,
            alt_sign(3) == 1,
    ;
    assert(newton_scalar(a, p5, 6, 3) == 105);
    assert(newton_step_fits(a, p5, 6, 3));
    assert(coeff(a, 4) * p5[1] == 245) by (nonlinear_arith)
        requires
            coeff(a, 4) == 35,
            p5[1] == 7,
    ;
    assert(coeff(a, 4) * p5[1] * alt_sign(4) == -245) by (nonlinear_arith)
        requires
            coeff(a, 4) * p5[1] == 245,
            alt_sign(4) == -1,
    ;
    assert(newton_scalar(a, p5, 6, 4) == -140);
    assert(newton_step_fits(a, p5, 6, 4));
    assert(coeff(a, 5) * p5[0] == 147) by (nonlinear_arith)
        requires
            coeff(a, 5) == 21,
            p5[0] == 7,
    ;
    assert(coeff(a, 5) * p5[0] * alt_sign(5) == 147) by (nonlinear_arith)
        requires
            coeff(a, 5) * p5[0] == 147,
            alt_sign(5) == 1,
    ;
    assert(newton_scalar(a, p5, 6, 5) == 7);
    assert(newton_step_fits(a, p5, 6, 5));
    assert(power_sums_scalar(a, 5) == p5);
    assert forall|m: int| 1 <= m < 6 implies #[trigger] newton_step_fits(a, power_sums_scalar(a, 5), 6, m) by {
        if m == 1 {
        } else if m == 2 {
        } else if m == 3 {
        } else if m == 4 {
        } else if m == 5 {
        }
    }
    assert(newton_fits(a, 6));
    let p6 = seq![7int, 7, 7, 7, 7, 7];
    assert(power_sums_scalar(a, 6) =~= p6);
    let ps = p6;
    assert(todd_falling(1, 1) == 1);
    assert(todd_falling(2, 1) == 1);
    assert(todd_falling(2, 2) == 1);
    assert(todd_falling(3, 1) == 1);
    assert(todd_falling(3, 2) == 2);
    assert(todd_falling(3, 3) == 2);
    assert(todd_falling(4, 1) == 1);
    assert(todd_falling(4, 2) == 3);
    assert(todd_falling(4, 3) == 6);
    assert(todd_falling(4, 4) == 6);
    assert(todd_falling(5, 1) == 1);
    assert(todd_falling(5, 2) == 4);
    assert(todd_falling(5, 3) == 12);
    assert(todd_falling(5, 4) == 24);
    assert(todd_falling(5, 5) == 24);
    assert(todd_falling(6, 1) == 1);
    assert(todd_falling(6, 2) == 5);
    assert(todd_falling(6, 3) == 20);
    assert(todd_falling(6, 4) == 60);
    assert(todd_falling(6, 5) == 120);
    assert(todd_falling(6, 6) == 120);
    let v0 = seq![1int];
    assert(todd_parts_scalar(ps, 0) =~= v0);
    assert(todd_partial_scalar(ps, v0, 1, 0) == 0);
    assert(ps[0] * v0[0] == 7) by (nonlinear_arith)
        requires
            ps[0] == 7,
            v0[0] == 1,
    ;
    assert(ps[0] * v0[0] * (todd_falling(1, 1) * todd_weight(1)) == 735) by (nonlinear_arith)
        requires
            ps[0] * v0[0] == 7,
            todd_falling(1, 1) == 1,
            todd_weight(1) == 105,
    ;
    assert(todd_partial_scalar(ps, v0, 1, 1) == 735);
    assert(todd_step_fits(ps, v0, 1, 1));
    assert(power_sums_scalar(a, 6) == ps && todd_parts_scalar(ps, 0) == v0);
    assert forall|m: int| 1 <= m <= 1 implies #[trigger] todd_step_fits(power_sums_scalar(a, 6), todd_parts_scalar(power_sums_scalar(a, 6), 0), 1, m) by {
        if m == 1 {
        }
    }
    assert(todd_part_fits(a, 6, 1));
    let v1 = seq![1int, 735];
    assert(todd_parts_scalar(ps, 1) =~= v1);
    assert(todd_partial_scalar(ps, v1, 2, 0) == 0);
    assert(ps[0] * v1[1] == 5145) by (nonlinear_arith)
        requires
            ps[0] == 7,
            v1[1] == 735,
    ;
    assert(ps[0] * v1[1] * (todd_falling(2, 1) * todd_weight(1)) == 540225) by (nonlinear_arith)
        requires
            ps[0] * v1[1] == 5145,
            todd_falling(2, 1) == 1,
            todd_weight(1) == 105,
    ;
    assert(todd_partial_scalar(ps, v1, 2, 1) == 540225);
    assert(todd_step_fits(ps, v1, 2, 1));
    assert(ps[1] * v1[0] == 7) by (nonlinear_arith)
        requires
            ps[1] == 7,
            v1[0] == 1,
    ;
    assert(ps[1] * v1[0] * (todd_falling(2, 2) * todd_weight(2)) == -25725) by (nonlinear_arith)
        requires
            ps[1] * v1[0] == 7,
            todd_falling(2, 2) == 1,
            todd_weight(2) == -3675,
    ;
    assert(todd_partial_scalar(ps, v1, 2, 2) == 514500);
    assert(todd_step_fits(ps, v1, 2, 2));
    assert(power_sums_scalar(a, 6) == ps && todd_parts_scalar(ps, 1) == v1);
    assert forall|m: int| 1 <= m <= 2 implies #[trigger] todd_step_fits(power_sums_scalar(a, 6), todd_parts_scalar(power_sums_scalar(a, 6), 1), 2, m) by {
        if m == 1 {
        } else if m == 2 {
        }
    }
    assert(todd_part_fits(a, 6, 2));
    let v2 = seq![1int, 735, 514500];
    assert(todd_parts_scalar(ps, 2) =~= v2);
    assert(todd_partial_scalar(ps, v2, 3, 0) == 0);
    assert(ps[0] * v2[2] == 3601500) by (nonlinear_arith)
        requires
            ps[0] == 7,
            v2[2] == 514500,
    ;
    assert(ps[0] * v2[2] * (todd_falling(3, 1) * todd_weight(1)) == 378157500) by (nonlinear_arith)
        requires
            ps[0] * v2[2] == 3601500,
            todd_falling(3, 1) == 1,
            todd_weight(1) == 105,
    ;
    assert(todd_partial_scalar(ps, v2, 3, 1) == 378157500);
    assert(todd_step_fits(ps, v2, 3, 1));
    assert(ps[1] * v2[1] == 5145) by (nonlinear_arith)
        requires
            ps[1] == 7,
            v2[1] == 735,
    ;
    assert(ps[1] * v2[1] * (todd_falling(3, 2) * todd_weight(2)) == -37815750) by (nonlinear_arith)
        requires
            ps[1] * v2[1] == 5145,
            todd_falling(3, 2) == 2,
            todd_weight(2) == -3675,
    ;
    assert(todd_partial_scalar(ps, v2, 3, 2) == 340341750);
    assert(todd_step_fits(ps, v2, 3, 2));
    assert(ps[2] * v2[0] == 7) by (nonlinear_arith)
        requires
            ps[2] == 7,
            v2[0] == 1,
    ;
    assert(ps[2] * v2[0] * (todd_falling(3, 3) * todd_weight(3)) == 0) by (nonlinear_arith)
        requires
            ps[2] * v2[0] == 7,
            todd_falling(3, 3) == 2,
            todd_weight(3) == 0,
    ;
    assert(todd_partial_scalar(ps, v2, 3, 3) == 340341750);
    assert(todd_step_fits(ps, v2, 3, 3));
    assert(power_sums_scalar(a, 6) == ps && todd_parts_scalar(ps, 2) == v2);
    assert forall|m: int| 1 <= m <= 3 implies #[trigger] todd_step_fits(power_sums_scalar(a, 6), todd_parts_scalar(power_sums_scalar(a, 6), 2), 3, m) by {
        if m == 1 {
        } else if m == 2 {
        } else if m == 3 {
        }
    }
    assert(todd_part_fits(a, 6, 3));
    let v3 = seq![1int, 735, 514500, 340341750];
    assert(todd_parts_scalar(ps, 3) =~= v3);
    assert(todd_partial_scalar(ps, v3, 4, 0) == 0);
    assert(ps[0] * v3[3] == 2382392250) by (nonlinear_arith)
        requires
            ps[0] == 7,
            v3[3] == 340341750,
    ;
    assert(ps[0] * v3[3] * (todd_falling(4, 1) * todd_weight(1)) == 250151186250) by (nonlinear_arith)
        requires
            ps[0] * v3[3] == 2382392250,
            todd_falling(4, 1) == 1,
            todd_weight(1) == 105,
    ;
    assert(todd_partial_scalar(ps, v3, 4, 1) == 250151186250);
    assert(todd_step_fits(ps, v3, 4, 1));
    assert(ps[1] * v3[2] == 3601500) by (nonlinear_arith)
        requires
            ps[1] == 7,
            v3[2] == 514500,
    ;
    assert(ps[1] * v3[2] * (todd_falling(4, 2) * todd_weight(2)) == -39706537500) by (nonlinear_arith)
        requires
            ps[1] * v3[2] == 3601500,
            todd_falling(4, 2) == 3,
            todd_weight(2) == -3675,
    ;
    assert(todd_partial_scalar(ps, v3, 4, 2) == 210444648750);
    assert(todd_step_fits(ps, v3, 4, 2));
    assert(ps[2] * v3[1] == 5145) by (nonlinear_arith)
        requires
            ps[2] == 7,
            v3[1] == 735,
    ;
    assert(ps[2] * v3[1] * (todd_falling(4, 3) * todd_weight(3)) == 0) by (nonlinear_arith)
        requires
            ps[2] * v3[1] == 5145,
            todd_falling(4, 3) == 6,
            todd_weight(3) == 0,
    ;
    assert(todd_partial_scalar(ps, v3, 4, 3) == 210444648750);
    assert(todd_step_fits(ps, v3, 4, 3));
    assert(ps[3] * v3[0] == 7) by (nonlinear_arith)
        requires
            ps[3] == 7,
            v3[0] == 1,
    ;
    assert(ps[3] * v3[0] * (todd_falling(4, 4) * todd_weight(4)) == 113447250) by (nonlinear_arith)
        requires
            ps[3] * v3[0] == 7,
            todd_falling(4, 4) == 6,
            todd_weight(4) == 2701125,
    ;
    assert(todd_partial_scalar(ps, v3, 4, 4) == 210558096000);
    assert(todd_step_fits(ps, v3, 4, 4));
    assert(power_sums_scalar(a, 6) == ps && todd_parts_scalar(ps, 3) == v3);
    assert forall|m: int| 1 <= m <= 4 implies #[trigger] todd_step_fits(power_sums_scalar(a, 6), todd_parts_scalar(power_sums_scalar(a, 6), 3), 4, m) by {
        if m == 1 {
        } else if m == 2 {
        } else if m == 3 {
        } else if m == 4 {
        }
    }
    assert(todd_part_fits(a, 6, 4));
    let v4 = seq![1int, 735, 514500, 340341750, 210558096000];
    assert(todd_parts_scalar(ps, 4) =~= v4);
    assert(todd_partial_scalar(ps, v4, 5, 0) == 0);
    assert(ps[0] * v4[4] == 1473906672000) by (nonlinear_arith)
        requires
            ps[0] == 7,
            v4[4] == 210558096000,
    ;
    assert(ps[0] * v4[4] * (todd_falling(5, 1) * todd_weight(1)) == 154760200560000) by (nonlinear_arith)
        requires
            ps[0] * v4[4] == 1473906672000,
            todd_falling(5, 1) == 1,
            todd_weight(1) == 105,
    ;
    assert(todd_partial_scalar(ps, v4, 5, 1) == 154760200560000);
    assert(todd_step_fits(ps, v4, 5, 1));
    assert(ps[1] * v4[3] == 2382392250) by (nonlinear_arith)
        requires
            ps[1] == 7,
            v4[3] == 340341750,
    ;
    assert(ps[1] * v4[3] * (todd_falling(5, 2) * todd_weight(2)) == -35021166075000) by (nonlinear_arith)
        requires
            ps[1] * v4[3] == 2382392250,
            todd_falling(5, 2) == 4,
            todd_weight(2) == -3675,
    ;
    assert(todd_partial_scalar(ps, v4, 5, 2) == 119739034485000);
    assert(todd_step_fits(ps, v4, 5, 2));
    assert(ps[2] * v4[2] == 3601500) by (nonlinear_arith)
        requires
            ps[2] == 7,
            v4[2] == 514500,
    ;
    assert(ps[2] * v4[2] * (todd_falling(5, 3) * todd_weight(3)) == 0) by (nonlinear_arith)
        requires
            ps[2] * v4[2] == 3601500,
            todd_falling(5, 3) == 12,
            todd_weight(3) == 0,
    ;
    assert(todd_partial_scalar(ps, v4, 5, 3) == 119739034485000);
    assert(todd_step_fits(ps, v4, 5, 3));
    assert(ps[3] * v4[1] == 5145) by (nonlinear_arith)
        requires
            ps[3] == 7,
            v4[1] == 735,
    ;
    assert(ps[3] * v4[1] * (todd_falling(5, 4) * todd_weight(4)) == 333534915000) by (nonlinear_arith)
        requires
            ps[3] * v4[1] == 5145,
            todd_falling(5, 4) == 24,
            todd_weight(4) == 2701125,
    ;
    assert(todd_partial_scalar(ps, v4, 5, 4) == 120072569400000);
    assert(todd_step_fits(ps, v4, 5, 4));
    assert(ps[4] * v4[0] == 7) by (nonlinear_arith)
        requires
            ps[4] == 7,
            v4[0] == 1,
    ;
    assert(ps[4] * v4[0] * (todd_falling(5, 5) * todd_weight(5)) == 0) by (nonlinear_arith)
        requires
            ps[4] * v4[0] == 7,
            todd_falling(5, 5) == 24,
            todd_weight(5) == 0,
    ;
    assert(todd_partial_scalar(ps, v4, 5, 5) == 120072569400000);
    assert(todd_step_fits(ps, v4, 5, 5));
    assert(power_sums_scalar(a, 6) == ps && todd_parts_scalar(ps, 4) == v4);
    assert forall|m: int| 1 <= m <= 5 implies #[trigger] todd_step_fits(power_sums_scalar(a, 6), todd_parts_scalar(power_sums_scalar(a, 6), 4), 5, m) by {
        if m == 1 {
        } else if m == 2 {
        } else if m == 3 {
        } else if m == 4 {
        } else if m == 5 {
        }
    }
    assert(todd_part_fits(a, 6, 5));
    let v5 = seq![1int, 735, 514500, 340341750, 210558096000, 120072569400000];
    assert(todd_parts_scalar(ps, 5) =~= v5);
    assert(todd_partial_scalar(ps, v5, 6, 0) == 0);
    assert(ps[0] * v5[5] == 840507985800000) by (nonlinear_arith)
        requires
            ps[0] == 7,
            v5[5] == 120072569400000,
    ;
    assert(ps[0] * v5[5] * (todd_falling(6, 1) * todd_weight(1)) == 88253338509000000) by (nonlinear_arith)
        requires
            ps[0] * v5[5] == 840507985800000,
            todd_falling(6, 1) == 1,
            todd_weight(1) == 105,
    ;
    assert(todd_partial_scalar(ps, v5, 6, 1) == 88253338509000000);
    assert(todd_step_fits(ps, v5, 6, 1));
    assert(ps[1] * v5[4] == 1473906672000) by (nonlinear_arith)
        requires
            ps[1] == 7,
            v5[4] == 210558096000,
    ;
    assert(ps[1] * v5[4] * (todd_falling(6, 2) * todd_weight(2)) == -27083035098000000) by (nonlinear_arith)
        requires
            ps[1] * v5[4] == 1473906672000,
            todd_falling(6, 2) == 5,
            todd_weight(2) == -3675,
    ;
    assert(todd_partial_scalar(ps, v5, 6, 2) == 61170303411000000);
    assert(todd_step_fits(ps, v5, 6, 2));
    assert(ps[2] * v5[3] == 2382392250) by (nonlinear_arith)
        requires
            ps[2] == 7,
            v5[3] == 340341750,
    ;
    assert(ps[2] * v5[3] * (todd_falling(6, 3) * todd_weight(3)) == 0) by (nonlinear_arith)
        requires
            ps[2] * v5[3] == 2382392250,
            todd_falling(6, 3) == 20,
            todd_weight(3) == 0,
    ;
    assert(todd_partial_scalar(ps, v5, 6, 3) == 61170303411000000);
    assert(todd_step_fits(ps, v5, 6, 3));
    assert(ps[3] * v5[2] == 3601500) by (nonlinear_arith)
        requires
            ps[3] == 7,
            v5[2] == 514500,
    ;
    assert(ps[3] * v5[2] * (todd_falling(6, 4) * todd_weight(4)) == 583686101250000) by (nonlinear_arith)
        requires
            ps[3] * v5[2] == 3601500,
            todd_falling(6, 4) == 60,
            todd_weight(4) == 2701125,
    ;
    assert(todd_partial_scalar(ps, v5, 6, 4) == 61753989512250000);
    assert(todd_step_fits(ps, v5, 6, 4));
    assert(ps[4] * v5[1] == 5145) by (nonlinear_arith)
        requires
            ps[4] == 7,
            v5[1] == 735,
    ;
    assert(ps[4] * v5[1] * (todd_falling(6, 5) * todd_weight(5)) == 0) by (nonlinear_arith)
        requires
            ps[4] * v5[1] == 5145,
            todd_falling(6, 5) == 120,
            todd_weight(5) == 0,
    ;
    assert(todd_partial_scalar(ps, v5, 6, 5) == 61753989512250000);
    assert(todd_step_fits(ps, v5, 6, 5));
    assert(ps[5] * v5[0] == 7) by (nonlinear_arith)
        requires
            ps[5] == 7,
            v5[0] == 1,
    ;
    assert(ps[5] * v5[0] * (todd_falling(6, 6) * todd_weight(6)) == -2382392250000) by (nonlinear_arith)
        requires
            ps[5] * v5[0] == 7,
            todd_falling(6, 6) == 120,
            todd_weight(6) == -2836181250,
    ;
    assert(todd_partial_scalar(ps, v5, 6, 6) == 61751607120000000);
    assert(todd_step_fits(ps, v5, 6, 6));
    assert(power_sums_scalar(a, 6) == ps && todd_parts_scalar(ps, 5) == v5);
    assert forall|m: int| 1 <= m <= 6 implies #[trigger] todd_step_fits(power_sums_scalar(a, 6), todd_parts_scalar(power_sums_scalar(a, 6), 5), 6, m) by {
        if m == 1 {
        } else if m == 2 {
        } else if m == 3 {
        } else if m == 4 {
        } else if m == 5 {
        } else if m == 6 {
        }
    }
    assert(todd_part_fits(a, 6, 6));
    let v6 = seq![1int, 735, 514500, 340341750, 210558096000, 120072569400000, 61751607120000000];
    assert(todd_parts_scalar(ps, 6) =~= v6);
    assert(todd_scale(6, 6) == 1);
    assert(todd_scale(6, 5) == todd_scale(6, 6) * 6 * 210);
    assert(todd_scale(6, 5) == 1260);
    assert(todd_scale(6, 4) == todd_scale(6, 5) * 5 * 210);
    assert(todd_scale(6, 4) == 1323000);
    assert(todd_scale(6, 3) == todd_scale(6, 4) * 4 * 210);
    assert(todd_scale(6, 3) == 1111320000);
    assert(todd_scale(6, 2) == todd_scale(6, 3) * 3 * 210);
    assert(todd_scale(6, 2) == 700131600000);
    assert(todd_scale(6, 1) == todd_scale(6, 2) * 2 * 210);
    assert(todd_scale(6, 1) == 294055272000000);
    assert(todd_scale(6, 0) == todd_scale(6, 1) * 1 * 210);
    assert(todd_scale(6, 0) == 61751607120000000);
    assert(v6[0] * todd_scale(6, 0) == 61751607120000000) by (nonlinear_arith)
        requires
            v6[0] == 1,
            todd_scale(6, 0) == 61751607120000000,
    ;
    assert(v6[1] * todd_scale(6, 1) == 216130624920000000) by (nonlinear_arith)
        requires
            v6[1] == 735,
            todd_scale(6, 1) == 294055272000000,
    ;
    assert(v6[2] * todd_scale(6, 2) == 360217708200000000) by (nonlinear_arith)
        requires
            v6[2] == 514500,
            todd_scale(6, 2) == 700131600000,
    ;
    assert(v6[3] * todd_scale(6, 3) == 378228593610000000) by (nonlinear_arith)
        requires
            v6[3] == 340341750,
            todd_scale(6, 3) == 1111320000,
    ;
    assert(v6[4] * todd_scale(6, 4) == 278568361008000000) by (nonlinear_arith)
        requires
            v6[4] == 210558096000,
            todd_scale(6, 4) == 1323000,
    ;
    assert(v6[5] * todd_scale(6, 5) == 151291437444000000) by (nonlinear_arith)
        requires
            v6[5] == 120072569400000,
            todd_scale(6, 5) == 1260,
    ;
    assert(v6[6] * todd_scale(6, 6) == 61751607120000000) by (nonlinear_arith)
        requires
            v6[6] == 61751607120000000,
            todd_scale(6, 6) == 1,
    ;
    assert forall|t: int| 0 <= t <= 6 implies fits_int(#[trigger] todd_parts_scalar(power_sums_scalar(a, 6), 6)[t] * todd_scale(6, t as nat)) by {
        assert(todd_parts_scalar(power_sums_scalar(a, 6), 6) == v6);
        if t == 0 {
        } else if t == 1 {
        } else if t == 2 {
        } else if t == 3 {
        } else if t == 4 {
        } else if t == 5 {
        } else if t == 6 {
        }
    }
    assert forall|j: int| 1 <= j <= 6 implies #[trigger] newton_fits(a, j) by {
        if j == 1 {
        } else if j == 2 {
        } else if j == 3 {
        } else if j == 4 {
        } else if j == 5 {
        } else if j == 6 {
        }
    }
    assert forall|k: int| 1 <= k <= 6 implies #[trigger] todd_part_fits(a, 6, k) by {
        if k == 1 {
        } else if k == 2 {
        } else if k == 3 {
        } else if k == 4 {
        } else if k == 5 {
        } else if k == 6 {
        }
    }
}

/// The Todd class of `CP^7` on its coefficients: its genus is `1`, and
/// every step fits.
proof fn lemma_genus_cp7()
    ensures
        todd_parts_scalar(power_sums_scalar(cp_coeffs(7), 7), 7)[7] * todd_scale(7, 7) == todd_scale(7, 0),
        todd_fits(cp_coeffs(7), 7),
{
    assert(binomial(1, 0) == 1);
    assert(binomial(1, 1) == 1);
    assert(binomial(2, 0) == 1);
    assert(binomial(2, 1) == 2);
    assert(binomial(2, 2) == 1);
    assert(binomial(3, 0) == 1);
    assert(binomial(3, 1) == 3);
    assert(binomial(3, 2) == 3);
    assert(binomial(3, 3) == 1);
    assert(binomial(4, 0) == 1);
    assert(binomial(4, 1) == 4);
    assert(binomial(4, 2) == 6);
    assert(binomial(4, 3) == 4);
    assert(binomial(4, 4) == 1);
    assert(binomial(5, 0) == 1);
    assert(binomial(5, 1) == 5);
    assert(binomial(5, 2) == 10);
    assert(binomial(5, 3) == 10);
    assert(binomial(5, 4) == 5);
    assert(binomial(5, 5) == 1);
    assert(binomial(6, 0) == 1);
    assert(binomial(6, 1) == 6);
    assert(binomial(6, 2) == 15);
    assert(binomial(6, 3) == 20);
    assert(binomial(6, 4) == 15);
    assert(binomial(6, 5) == 6);
    assert(binomial(6, 6) == 1);
    assert(binomial(7, 0) == 1);
    assert(binomial(7, 1) == 7);
    assert(binomial(7, 2) == 21);
    assert(binomial(7, 3) == 35);
    assert(binomial(7, 4) == 35);
    assert(binomial(7, 5) == 21);
    assert(binomial(7, 6) == 7);
    assert(binomial(7, 7) == 1);
    assert(binomial(8, 0) == 1);
    assert(binomial(8, 1) == 8);
    assert(binomial(8, 2) == 28);
    assert(binomial(8, 3) == 56);
    assert(binomial(8, 4) == 70);
    assert(binomial(8, 5) == 56);
    assert(binomial(8, 6) == 28);
    assert(binomial(8, 7) == 8);
    assert(binomial(8, 8) == 1);
    let a = cp_coeffs(7);
    assert(a =~= seq![1int, 8, 28, 56, 70, 56, 28, 8]);
    assert(coeff(a, 0) == 1);
    assert(coeff(a, 1) == 8);
    assert(coeff(a, 2) == 28);
    assert(coeff(a, 3) == 56);
    assert(coeff(a, 4) == 70);
    assert(coeff(a, 5) == 56);
    assert(coeff(a, 6) == 28);
    assert(coeff(a, 7) == 8);
    let p0 = Seq::<int>::empty();
    assert(power_sums_scalar(a, 0) =~= p0);
    assert(coeff(a, 1) * (alt_sign(1) * 1) == 8) by (nonlinear_arith)
        requires
            coeff(a, 1) == 8,
            alt_sign(1) == 1,
    ;
    assert(newton_scalar(a, p0, 1, 0) == 8);
    assert(power_sums_scalar(a, 0) == p0);
    assert(newton_fits(a, 1));
    let p1 = seq![8int];
    assert(power_sums_scalar(a, 1) =~= p1);
    assert(coeff(a, 2) * (alt_sign(2) * 2) == -56) by (nonlinear_arith)
        requires
            coeff(a, 2) == 28,
            alt_sign(2) == -1,
    ;
    assert(newton_scalar(a, p1, 2, 0) == -56);
    assert(coeff(a, 1) * p1[0] == 64) by (nonlinear_arith)
        requires
            coeff(a, 1) == 8,
            p1[0] == 8,
    ;
    assert(coeff(a, 1) * p1[0] * alt_sign(1) == 64) by (nonlinear_arith)
        requires
            coeff(a, 1) * p1[0] == 64,
            alt_sign(1) == 1,
    ;
    assert(newton_scalar(a, p1, 2, 1) == 8);
    assert(newton_step_fits(a, p1, 2, 1));
    assert(power_sums_scalar(a, 1) == p1);
    assert forall|m: int| 1 <= m < 2 implies #[trigger] newton_step_fits(a, power_sums_scalar(a, 1), 2, m) by {
        if m == 1 {
        }
    }
    assert(newton_fits(a, 2));
    let p2 = seq![8int, 8];
    assert(power_sums_scalar(a, 2) =~= p2);
    assert(coeff(a, 3) * (alt_sign(3) * 3) == 168) by (nonlinear_arith)
        requires
            coeff(a, 3) == 56,
            alt_sign(3) == 1,
    ;
    assert(newton_scalar(a, p2, 3, 0) == 168);
    assert(coeff(a, 1) * p2[1] == 64) by (nonlinear_arith)
        requires
            coeff(a, 1) == 8,
            p2[1] == 8,
    ;
    assert(coeff(a, 1) * p2[1] * alt_sign(1) == 64) by (nonlinear_arith)
        requires
            coeff(a, 1) * p2[1] == 64,
            alt_sign(1) == 1,
    ;
    assert(newton_scalar(a, p2, 3, 1) == 232);
    assert(newton_step_fits(a, p2, 3, 1));
    assert(coeff(a, 2) * p2[0] == 224) by (nonlinear_arith)
        requires
            coeff(a, 2) == 28,
            p2[0] == 8,
    ;
    assert(coeff(a, 2) * p2[0] * alt_sign(2) == -224) by (nonlinear_arith)
        requires
            coeff(a, 2) * p2[0] == 224,
            alt_sign(2) == -1,
    ;
    assert(newton_scalar(a, p2, 3, 2) == 8);
    assert(newton_step_fits(a, p2, 3, 2));
    assert(power_sums_scalar(a, 2) == p2);
    assert forall|m: int| 1 <= m < 3 implies #[trigger] newton_step_fits(a, power_sums_scalar(a, 2), 3, m) by {
        if m == 1 {
        } else if m == 2 {
        }
    }
    assert(newton_fits(a, 3));
    let p3 = seq![8int, 8, 8];
    assert(power_sums_scalar(a, 3) =~= p3);
    assert(coeff(a, 4) * (alt_sign(4) * 4) == -280) by (nonlinear_arith)
        requires
            coeff(a, 4) == 70,
            alt_sign(4) == -1,
    ;
    assert(newton_scalar(a, p3, 4, 0) == -280);
    assert(coeff(a, 1) * p3[2] == 64) by (nonlinear_arith)
        requires
            coeff(a, 1) == 8,
            p3[2] == 8,
    ;
    assert(coeff(a, 1) * p3[2] * alt_sign(1) == 64) by (nonlinear_arith)
        requires
            coeff(a, 1) * p3[2] == 64,
            alt_sign(1) == 1,
    ;
    assert(newton_scalar(a, p3, 4, 1) == -216);
    assert(newton_step_fits(a, p3, 4, 1));
    assert(coeff(a, 2) * p3[1] == 224) by (nonlinear_arith)
        requires
            coeff(a, 2) == 28,
            p3[1] == 8,
    ;
    assert(coeff(a, 2) * p3[1] * alt_sign(2) == -224) by (nonlinear_arith)
        requires
            coeff(a, 2) * p3[1] == 224,
            alt_sign(2) == -1,
    ;
    assert(newton_scalar(a, p3, 4, 2) == -440);
    assert(newton_step_fits(a, p3, 4, 2));
    assert(coeff(a, 3) * p3[0] == 448) by (nonlinear_arith)
        requires
            coeff(a, 3) == 56,
            p3[0] == 8,
    ;
    assert(coeff(a, 3) * p3[0] * alt_sign(3) == 448) by (nonlinear_arith)
        requires
            coeff(a, 3) * p3[0] == 448,
            alt_sign(3) == 1,
    ;
    assert(newton_scalar(a, p3, 4, 3) == 8);
    assert(newton_step_fits(a, p3, 4, 3));
    assert(power_sums_scalar(a, 3) == p3);
    assert forall|m: int| 1 <= m < 4 implies #[trigger] newton_step_fits(a, power_sums_scalar(a, 3), 4, m) by {
        if m == 1 {
        } else if m == 2 {
        } else if m == 3 {
        }
    }
    assert(newton_fits(a, 4));
    let p4 = seq![8int, 8, 8, 8];
    assert(power_sums_scalar(a, 4) =~= p4);
    assert(coeff(a, 5) * (alt_sign(5) * 5) == 280) by (nonlinear_arith)
        requires
            coeff(a, 5) == 56,
            alt_sign(5) == 1,
    ;
    assert(newton_scalar(a, p4, 5, 0) == 280);
    assert(coeff(a, 1) * p4[3] == 64) by (nonlinear_arith)
        requires
            coeff(a, 1) == 8,
            p4[3] == 8,
    ;
    assert(coeff(a, 1) * p4[3] * alt_sign(1) == 64) by (nonlinear_arith)
        requires
            coeff(a, 1) * p4[3] == 64,
            alt_sign(1) == 1,
    ;
    assert(newton_scalar(a, p4, 5, 1) == 344);
    assert(newton_step_fits(a, p4, 5, 1));
    assert(coeff(a, 2) * p4[2] == 224) by (nonlinear_arith)
        requires
            coeff(a, 2) == 28,
            p4[2] == 8,
    ;
    assert(coeff(a, 2) * p4[2] * alt_sign(2) == -224) by (nonlinear_arith)
        requires
            coeff(a, 2) * p4[2] == 224,
            alt_sign(2) == -1,
    ;
    assert(newton_scalar(a, p4, 5, 2) == 120);
    assert(newton_step_fits(a, p4, 5, 2));
    assert(coeff(a, 3) * p4[1] == 448) by (nonlinear_arith)
        requires
            coeff(a, 3) == 56,
            p4[1] == 8,
    ;
    assert(coeff(a, 3) * p4[1] * alt_sign(3) == 448) by (nonlinear_arith)
        requires
            coeff(a, 3) * p4[1] == 448,
            alt_sign(3) == 1,
    ;
    assert(newton_scalar(a, p4, 5, 3) == 568);
    assert(newton_step_fits(a, p4, 5, 3));
    assert(coeff(a, 4) * p4[0] == 560) by (nonlinear_arith)
        requires
            coeff(a, 4) == 70,
            p4[0] == 8,
    ;
    assert(coeff(a, 4) * p4[0] * alt_sign(4) == -560) by (nonlinear_arith)
        requires
            coeff(a, 4) * p4[0] == 560,
            alt_sign(4) == -1,
    ;
    assert(newton_scalar(a, p4, 5, 4) == 8);
    assert(newton_step_fits(a, p4, 5, 4));
    assert(power_sums_scalar(a, 4) == p4);
    assert forall|m: int| 1 <= m < 5 implies #[trigger] newton_step_fits(a, power_sums_scalar(a, 4), 5, m) by {
        if m == 1 {
        } else if m == 2 {
        } else if m == 3 {
        } else if m == 4 {
        }
    }
    assert(newton_fits(a, 5));
    let p5 = seq![8int, 8, 8, 8, 8];
    assert(power_sums_scalar(a, 5) =~= p5);
    assert(coeff(a, 6) * (alt_sign(6) * 6) == -168) by (nonlinear_arith)
        requires
            coeff(a, 6) == 28,
            alt_sign(6) == -1,
    ;
    assert(newton_scalar(a, p5, 6, 0) == -168);
    assert(coeff(a, 1) * p5[4] == 64) by (nonlinear_arith)
        requires
            coeff(a, 1) == 8,
            p5[4] == 8,
    ;
    assert(coeff(a, 1) * p5[4] * alt_sign(1) == 64) by (nonlinear_arith)
        requires
            coeff(a, 1) * p5[4] == 64,
            alt_sign(1) == 1,
    ;
    assert(newton_scalar(a, p5, 6, 1) == -104);
    assert(newton_step_fits(a, p5, 6, 1));
    assert(coeff(a, 2) * p5[3] == 224) by (nonlinear_arith)
        requires
            coeff(a, 2) == 28,
            p5[3] == 8,
    ;
    assert(coeff(a, 2) * p5[3] * alt_sign(2) == -224) by (nonlinear_arith)
        requires
            coeff(a, 2) * p5[3] == 224,
            alt_sign(2) == -1,
    ;
    assert(newton_scalar(a, p5, 6, 2) == -328);
    assert(newton_step_fits(a, p5, 6, 2));
    assert(coeff(a, 3) * p5[2] == 448) by (nonlinear_arith)
        requires
            coeff(a, 3) == 56,
            p5[2] == 8,
    ;
    assert(coeff(a, 3) * p5[2] * alt_sign(3) == 448) by (nonlinear_arith)
        requires
            coeff(a, 3) * p5[2] == 448,
            alt_sign(3) == 1,
    ;
    assert(newton_scalar(a, p5, 6, 3) == 120);
    assert(newton_step_fits(a, p5, 6, 3));
    assert(coeff(a, 4) * p5[1] == 560) by (nonlinear_arith)
        requires
            coeff(a, 4) == 70,
            p5[1] == 8,
    ;
    assert(coeff(a, 4) * p5[1] * alt_sign(4) == -560) by (nonlinear_arith)
        requires
            coeff(a, 4) * p5[1] == 560,
            alt_sign(4) == -1,
    ;
    assert(newton_scalar(a, p5, 6, 4) == -440);
    assert(newton_step_fits(a, p5, 6, 4));
    assert(coeff(a, 5) * p5[0] == 448) by (nonlinear_arith)
        requires
            coeff(a, 5) == 56,
            p5[0] == 8,
    ;
    assert(coeff(a, 5) * p5[0] * alt_sign(5) == 448) by (nonlinear_arith)
        requires
            coeff(a, 5) * p5[0] == 448,
            alt_sign(5) == 1,
    ;
    assert(newton_scalar(a, p5, 6, 5) == 8);
    assert(newton_step_fits(a, p5, 6, 5));
    assert(power_sums_scalar(a, 5) == p5);
    assert forall|m: int| 1 <= m < 6 implies #[trigger] newton_step_fits(a, power_sums_scalar(a, 5), 6, m) by {
        if m == 1 {
        } else if m == 2 {
        } else if m == 3 {
        } else if m == 4 {
        } else if m == 5 {
        }
    }
    assert(newton_fits(a, 6));
    let p6 = seq![8int, 8, 8, 8, 8, 8];
    assert(power_sums_scalar(a, 6) =~= p6);
    assert(coeff(a, 7) * (alt_sign(7) * 7) == 56) by (nonlinear_arith)
        requires
            coeff(a, 7) == 8,
            alt_sign(7) == 1,
    ;
    assert(newton_scalar(a, p6, 7, 0) == 56);
    assert(coeff(a, 1) * p6[5] == 64) by (nonlinear_arith)
        requires
            coeff(a, 1) == 8,
            p6[5] == 8,
    ;
    assert(coeff(a, 1) * p6[5] * alt_sign(1) == 64) by (nonlinear_arith)
        requires
            coeff(a, 1) * p6[5] == 64,
            alt_sign(1) == 1,
    ;
    assert(newton_scalar(a, p6, 7, 1) == 120);
    assert(newton_step_fits(a, p6, 7, 1));
    assert(coeff(a, 2) * p6[4] == 224) by (nonlinear_arith)
        requires
            coeff(a, 2) == 28,
            p6[4] == 8,
    ;
    assert(coeff(a, 2) * p6[4] * alt_sign(2) == -224) by (nonlinear_arith)
        requires
            coeff(a, 2) * p6[4] == 224,
            alt_sign(2) == -1,
    ;
    assert(newton_scalar(a, p6, 7, 2) == -104);
    assert(newton_step_fits(a, p6, 7, 2));
    assert(coeff(a, 3) * p6[3] == 448) by (nonlinear_arith)
        requires
            coeff(a, 3) == 56,
            p6[3] == 8,
    ;
    assert(coeff(a, 3) * p6[3] * alt_sign(3) == 448) by (nonlinear_arith)
        requires
            coeff(a, 3) * p6[3] == 448,
            alt_sign(3) == 1,
    ;
    assert(newton_scalar(a, p6, 7, 3) == 344);
    assert(newton_step_fits(a, p6, 7, 3));
    assert(coeff(a, 4) * p6[2] == 560) by (nonlinear_arith)
        requires
            coeff(a, 4) == 70,
            p6[2] == 8,
    ;
    assert(coeff(a, 4) * p6[2] * alt_sign(4) == -560) by (nonlinear_arith)
        requires
            coeff(a, 4) * p6[2] == 560,
            alt_sign(4) == -1,
    ;
    assert(newton_scalar(a, p6, 7, 4) == -216);
    assert(newton_step_fits(a, p6, 7, 4));
    assert(coeff(a, 5) * p6[1] == 448) by (nonlinear_arith)
        requires
            coeff(a, 5) == 56,
            p6[1] == 8,
    ;
    assert(coeff(a, 5) * p6[1] * alt_sign(5) == 448) by (nonlinear_arith)
        requires
            coeff(a, 5) * p6[1] == 448,
            alt_sign(5) == 1,
    ;
    assert(newton_scalar(a, p6, 7, 5) == 232);
    assert(newton_step_fits(a, p6, 7, 5));
    assert(coeff(a, 6) * p6[0] == 224) by (nonlinear_arith)
        requires
            coeff(a, 6) == 28,
            p6[0] == 8,
    ;
    assert(coeff(a, 6) * p6[0] * alt_sign(6) == -224) by (nonlinear_arith)
        requires
            coeff(a, 6) * p6[0] == 224,
            alt_sign(6) == -1,
    ;
    assert(newton_scalar(a, p6, 7, 6) == 8);
    assert(newton_step_fits(a, p6, 7, 6));
    assert(power_sums_scalar(a, 6) == p6);
    assert forall|m: int| 1 <= m < 7 implies #[trigger] newton_step_fits(a, power_sums_scalar(a, 6), 7, m) by {
        if m == 1 {
        } else if m == 2 {
        } else if m == 3 {
        } else if m == 4 {
        } else if m == 5 {
        } else if m == 6 {
        }
    }
    assert(newton_fits(a, 7));
    let p7 = seq![8int, 8, 8, 8, 8, 8, 8];
    assert(power_sums_scalar(a, 7) =~= p7);
    let ps = p7;
    assert(todd_falling(1, 1) == 1);
    assert(todd_falling(2, 1) == 1);
    assert(todd_falling(2, 2) == 1);
    assert(todd_falling(3, 1) == 1);
    assert(todd_falling(3, 2) == 2);
    assert(todd_falling(3, 3) == 2);
    assert(todd_falling(4, 1) == 1);
    assert(todd_falling(4, 2) == 3);
    assert(todd_falling(4, 3) == 6);
    assert(todd_falling(4, 4) == 6);
    assert(todd_falling(5, 1) == 1);
    assert(todd_falling(5, 2) == 4);
    assert(todd_falling(5, 3) == 12);
    assert(todd_falling(5, 4) == 24);
    assert(todd_falling(5, 5) == 24);
    assert(todd_falling(6, 1) == 1);
    assert(todd_falling(6, 2) == 5);
    assert(todd_falling(6, 3) == 20);
    assert(todd_falling(6, 4) == 60);
    assert(todd_falling(6, 5) == 120);
    assert(todd_falling(6, 6) == 120);
    assert(todd_falling(7, 1) == 1);
    assert(todd_falling(7, 2) == 6);
    assert(todd_falling(7, 3) == 30);
    assert(todd_falling(7, 4) == 120);
    assert(todd_falling(7, 5) == 360);
    assert(todd_falling(7, 6) == 720);
    assert(todd_falling(7, 7) == 720);
    let v0 = seq![1int];
    assert(todd_parts_scalar(ps, 0) =~= v0);
    assert(todd_partial_scalar(ps, v0, 1, 0) == 0);
    assert(ps[0] * v0[0] == 8) by (nonlinear_arith)
        requires
            ps[0] == 8,
            v0[0] == 1,
    ;
    assert(ps[0] * v0[0] * (todd_falling(1, 1) * todd_weight(1)) == 840) by (nonlinear_arith)
        requires
            ps[0] * v0[0] == 8,
            todd_falling(1, 1) == 1,
            todd_weight(1) == 105,
    ;
    assert(todd_partial_scalar(ps, v0, 1, 1) == 840);
    assert(todd_step_fits(ps, v0, 1, 1));
    assert(power_sums_scalar(a, 7) == ps && todd_parts_scalar(ps, 0) == v0);
    assert forall|m: int| 1 <= m <= 1 implies #[trigger] todd_step_fits(power_sums_scalar(a, 7), todd_parts_scalar(power_sums_scalar(a, 7), 0), 1, m) by {
        if m == 1 {
        }
    }
    assert(todd_part_fits(a, 7, 1));
    let v1 = seq![1int, 840];
    assert(todd_parts_scalar(ps, 1) =~= v1);
    assert(todd_partial_scalar(ps, v1, 2, 0) == 0);
    assert(ps[0] * v1[1] == 6720) by (nonlinear_arith)
        requires
            ps[0] == 8,
            v1[1] == 840,
    ;
    assert(ps[0] * v1[1] * (todd_falling(2, 1) * todd_weight(1)) == 705600) by (nonlinear_arith)
        requires
            ps[0] * v1[1] == 6720,
            todd_falling(2, 1) == 1,
            todd_weight(1) == 105,
    ;
    assert(todd_partial_scalar(ps, v1, 2, 1) == 705600);
    assert(todd_step_fits(ps, v1, 2, 1));
    assert(ps[1] * v1[0] == 8) by (nonlinear_arith)
        requires
            ps[1] == 8,
            v1[0] == 1,
    ;
    assert(ps[1] * v1[0] * (todd_falling(2, 2) * todd_weight(2)) == -29400) by (nonlinear_arith)
        requires
            ps[1] * v1[0] == 8,
            todd_falling(2, 2) == 1,
            todd_weight(2) == -3675,
    ;
    assert(todd_partial_scalar(ps, v1, 2, 2) == 676200);
    assert(todd_step_fits(ps, v1, 2, 2));
    assert(power_sums_scalar(a, 7) == ps && todd_parts_scalar(ps, 1) == v1);
    assert forall|m: int| 1 <= m <= 2 implies #[trigger] todd_step_fits(power_sums_scalar(a, 7), todd_parts_scalar(power_sums_scalar(a, 7), 1), 2, m) by {
        if m == 1 {
        } else if m == 2 {
        }
    }
    assert(todd_part_fits(a, 7, 2));
    let v2 = seq![1int, 840, 676200];
    assert(todd_parts_scalar(ps, 2) =~= v2);
    assert(todd_partial_scalar(ps, v2, 3, 0) == 0);
    assert(ps[0] * v2[2] == 5409600) by (nonlinear_arith)
        requires
            ps[0] == 8,
            v2[2] == 676200,
    ;
    assert(ps[0] * v2[2] * (todd_falling(3, 1) * todd_weight(1)) == 568008000) by (nonlinear_arith)
        requires
            ps[0] * v2[2] == 5409600,
            todd_falling(3, 1) == 1,
            todd_weight(1) == 105,
    ;
    assert(todd_partial_scalar(ps, v2, 3, 1) == 568008000);
    assert(todd_step_fits(ps, v2, 3, 1));
    assert(ps[1] * v2[1] == 6720) by (nonlinear_arith)
        requires
            ps[1] == 8,
            v2[1] == 840,
    ;
    assert(ps[1] * v2[1] * (todd_falling(3, 2) * todd_weight(2)) == -49392000) by (nonlinear_arith)
        requires
            ps[1] * v2[1] == 6720,
            todd_falling(3, 2) == 2,
            todd_weight(2) == -3675,
    ;
    assert(todd_partial_scalar(ps, v2, 3, 2) == 518616000);
    assert(todd_step_fits(ps, v2, 3, 2));
    assert(ps[2] * v2[0] == 8) by (nonlinear_arith)
        requires
            ps[2] == 8,
            v2[0] == 1,
    ;
    assert(ps[2] * v2[0] * (todd_falling(3, 3) * todd_weight(3)) == 0) by (nonlinear_arith)
        requires
            ps[2] * v2[0] == 8,
            todd_falling(3, 3) == 2,
            todd_weight(3) == 0,
    ;
    assert(todd_partial_scalar(ps, v2, 3, 3) == 518616000);
    assert(todd_step_fits(ps, v2, 3, 3));
    assert(power_sums_scalar(a, 7) == ps && todd_parts_scalar(ps, 2) == v2);
    assert forall|m: int| 1 <= m <= 3 implies #[trigger] todd_step_fits(power_sums_scalar(a, 7), todd_parts_scalar(power_sums_scalar(a, 7), 2), 3, m) by {
        if m == 1 {
        } else if m == 2 {
        } else if m == 3 {
        }
    }
    assert(todd_part_fits(a, 7, 3));
    let v3 = seq![1int, 840, 676200, 518616000];
    assert(todd_parts_scalar(ps, 3) =~= v3);
    assert(todd_partial_scalar(ps, v3, 4, 0) == 0);
    assert(ps[0] * v3[3] == 4148928000) by (nonlinear_arith)
        requires
            ps[0] == 8,
            v3[3] == 518616000,
    ;
    assert(ps[0] * v3[3] * (todd_falling(4, 1) * todd_weight(1)) == 435637440000) by (nonlinear_arith)
        requires
            ps[0] * v3[3] == 4148928000,
            todd_falling(4, 1) == 1,
            todd_weight(1) == 105,
    ;
    assert(todd_partial_scalar(ps, v3, 4, 1) == 435637440000);
    assert(todd_step_fits(ps, v3, 4, 1));
    assert(ps[1] * v3[2] == 5409600) by (nonlinear_arith)
        requires
            ps[1] == 8,
            v3[2] == 676200,
    ;
    assert(ps[1] * v3[2] * (todd_falling(4, 2) * todd_weight(2)) == -59640840000) by (nonlinear_arith)
        requires
            ps[1] * v3[2] == 5409600,
            todd_falling(4, 2) == 3,
            todd_weight(2) == -3675,
    ;
    assert(todd_partial_scalar(ps, v3, 4, 2) == 375996600000);
    assert(todd_step_fits(ps, v3, 4, 2));
    assert(ps[2] * v3[1] == 6720) by (nonlinear_arith)
        requires
            ps[2] == 8,
            v3[1] == 840,
    ;
    assert(ps[2] * v3[1] * (todd_falling(4, 3) * todd_weight(3)) == 0) by (nonlinear_arith)
        requires
            ps[2] * v3[1] == 6720,
            todd_falling(4, 3) == 6,
            todd_weight(3) == 0,
    ;
    assert(todd_partial_scalar(ps, v3, 4, 3) == 375996600000);
    assert(todd_step_fits(ps, v3, 4, 3));
    assert(ps[3] * v3[0] == 8) by (nonlinear_arith)
        requires
            ps[3] == 8,
            v3[0] == 1,
    ;
    assert(ps[3] * v3[0] * (todd_falling(4, 4) * todd_weight(4)) == 129654000) by (nonlinear_arith)
        requires
            ps[3] * v3[0] == 8,
            todd_falling(4, 4) == 6,
            todd_weight(4) == 2701125,
    ;
    assert(todd_partial_scalar(ps, v3, 4, 4) == 376126254000);
    assert(todd_step_fits(ps, v3, 4, 4));
    assert(power_sums_scalar(a, 7) == ps && todd_parts_scalar(ps, 3) == v3);
    assert forall|m: int| 1 <= m <= 4 implies #[trigger] todd_step_fits(power_sums_scalar(a, 7), todd_parts_scalar(power_sums_scalar(a, 7), 3), 4, m) by {
        if m == 1 {
        } else if m == 2 {
        } else if m == 3 {
        } else if m == 4 {
        }
    }
    assert(todd_part_fits(a, 7, 4));
    let v4 = seq![1int, 840, 676200, 518616000, 376126254000];
    assert(todd_parts_scalar(ps, 4) =~= v4);
    assert(todd_partial_scalar(ps, v4, 5, 0) == 0);
    assert(ps[0] * v4[4] == 3009010032000) by (nonlinear_arith)
        requires
            ps[0] == 8,
            v4[4] == 376126254000,
    ;
    assert(ps[0] * v4[4] * (todd_falling(5, 1) * todd_weight(1)) == 315946053360000) by (nonlinear_arith)
        requires
            ps[0] * v4[4] == 3009010032000,
            todd_falling(5, 1) == 1,
            todd_weight(1) == 105,
    ;
    assert(todd_partial_scalar(ps, v4, 5, 1) == 315946053360000);
    assert(todd_step_fits(ps, v4, 5, 1));
    assert(ps[1] * v4[3] == 4148928000) by (nonlinear_arith)
        requires
            ps[1] == 8,
            v4[3] == 518616000,
    ;
    assert(ps[1] * v4[3] * (todd_falling(5, 2) * todd_weight(2)) == -60989241600000) by (nonlinear_arith)
        requires
            ps[1] * v4[3] == 4148928000,
            todd_falling(5, 2) == 4,
            todd_weight(2) == -3675,
    ;
    assert(todd_partial_scalar(ps, v4, 5, 2) == 254956811760000);
    assert(todd_step_fits(ps, v4, 5, 2));
    assert(ps[2] * v4[2] == 5409600) by (nonlinear_arith)
        requires
            ps[2] == 8,
            v4[2] == 676200,
    ;
    assert(ps[2] * v4[2] * (todd_falling(5, 3) * todd_weight(3)) == 0) by (nonlinear_arith)
        requires
            ps[2] * v4[2] == 5409600,
            todd_falling(5, 3) == 12,
            todd_weight(3) == 0,
    ;
    assert(todd_partial_scalar(ps, v4, 5, 3) == 254956811760000);
    assert(todd_step_fits(ps, v4, 5, 3));
    assert(ps[3] * v4[1] == 6720) by (nonlinear_arith)
        requires
            ps[3] == 8,
            v4[1] == 840,
    ;
    assert(ps[3] * v4[1] * (todd_falling(5, 4) * todd_weight(4)) == 435637440000) by (nonlinear_arith)
        requires
            ps[3] * v4[1] == 6720,
            todd_falling(5, 4) == 24,
            todd_weight(4) == 2701125,
    ;
    assert(todd_partial_scalar(ps, v4, 5, 4) == 255392449200000);
    assert(todd_step_fits(ps, v4, 5, 4));
    assert(ps[4] * v4[0] == 8) by (nonlinear_arith)
        requires
            ps[4] == 8,
            v4[0] == 1,
    ;
    assert(ps[4] * v4[0] * (todd_falling(5, 5) * todd_weight(5)) == 0) by (nonlinear_arith)
        requires
            ps[4] * v4[0] == 8,
            todd_falling(5, 5) == 24,
            todd_weight(5) == 0,
    ;
    assert(todd_partial_scalar(ps, v4, 5, 5) == 255392449200000);
    assert(todd_step_fits(ps, v4, 5, 5));
    assert(power_sums_scalar(a, 7) == ps && todd_parts_scalar(ps, 4) == v4);
    assert forall|m: int| 1 <= m <= 5 implies #[trigger] todd_step_fits(power_sums_scalar(a, 7), todd_parts_scalar(power_sums_scalar(a, 7), 4), 5, m) by {
        if m == 1 {
        } else if m == 2 {
        } else if m == 3 {
        } else if m == 4 {
        } else if m == 5 {
        }
    }
    assert(todd_part_fits(a, 7, 5));
    let v5 = seq![1int, 840, 676200, 518616000, 376126254000, 255392449200000];
    assert(todd_parts_scalar(ps, 5) =~= v5);
    assert(todd_partial_scalar(ps, v5, 6, 0) == 0);
    assert(ps[0] * v5[5] == 2043139593600000) by (nonlinear_arith)
        requires
            ps[0] == 8,
            v5[5] == 255392449200000,
    ;
    assert(ps[0] * v5[5] * (todd_falling(6, 1) * todd_weight(1)) == 214529657328000000) by (nonlinear_arith)
        requires
            ps[0] * v5[5] == 2043139593600000,
            todd_falling(6, 1) == 1,
            todd_weight(1) == 105,
    ;
    assert(todd_partial_scalar(ps, v5, 6, 1) == 214529657328000000);
    assert(todd_step_fits(ps, v5, 6, 1));
    assert(ps[1] * v5[4] == 3009010032000) by (nonlinear_arith)
        requires
            ps[1] == 8,
            v5[4] == 376126254000,
    ;
    assert(ps[1] * v5[4] * (todd_falling(6, 2) * todd_weight(2)) == -55290559338000000) by (nonlinear_arith)
        requires
            ps[1] * v5[4] == 3009010032000,
            todd_falling(6, 2) == 5,
            todd_weight(2) == -3675,
    ;
    assert(todd_partial_scalar(ps, v5, 6, 2) == 159239097990000000);
    assert(todd_step_fits(ps, v5, 6, 2));
    assert(ps[2] * v5[3] == 4148928000) by (nonlinear_arith)
        requires
            ps[2] == 8,
            v5[3] == 518616000,
    ;
    assert(ps[2] * v5[3] * (todd_falling(6, 3) * todd_weight(3)) == 0) by (nonlinear_arith)
        requires
            ps[2] * v5[3] == 4148928000,
            todd_falling(6, 3) == 20,
            todd_weight(3) == 0,
    ;
    assert(todd_partial_scalar(ps, v5, 6, 3) == 159239097990000000);
    assert(todd_step_fits(ps, v5, 6, 3));
    assert(ps[3] * v5[2] == 5409600) by (nonlinear_arith)
        requires
            ps[3] == 8,
            v5[2] == 676200,
    ;
    assert(ps[3] * v5[2] * (todd_falling(6, 4) * todd_weight(4)) == 876720348000000) by (nonlinear_arith)
        requires
            ps[3] * v5[2] == 5409600,
            todd_falling(6, 4) == 60,
            todd_weight(4) == 2701125,
    ;
    assert(todd_partial_scalar(ps, v5, 6, 4) == 160115818338000000);
    assert(todd_step_fits(ps, v5, 6, 4));
    assert(ps[4] * v5[1] == 6720) by (nonlinear_arith)
        requires
            ps[4] == 8,
            v5[1] == 840,
    ;
    assert(ps[4] * v5[1] * (todd_falling(6, 5) * todd_weight(5)) == 0) by (nonlinear_arith)
        requires
            ps[4] * v5[1] == 6720,
            todd_falling(6, 5) == 120,
            todd_weight(5) == 0,
    ;
    assert(todd_partial_scalar(ps, v5, 6, 5) == 160115818338000000);
    assert(todd_step_fits(ps, v5, 6, 5));
    assert(ps[5] * v5[0] == 8) by (nonlinear_arith)
        requires
            ps[5] == 8,
            v5[0] == 1,
    ;
    assert(ps[5] * v5[0] * (todd_falling(6, 6) * todd_weight(6)) == -2722734000000) by (nonlinear_arith)
        requires
            ps[5] * v5[0] == 8,
            todd_falling(6, 6) == 120,
            todd_weight(6) == -2836181250,
    ;
    assert(todd_partial_scalar(ps, v5, 6, 6) == 160113095604000000);
    assert(todd_step_fits(ps, v5, 6, 6));
    assert(power_sums_scalar(a, 7) == ps && todd_parts_scalar(ps, 5) == v5);
    assert forall|m: int| 1 <= m <= 6 implies #[trigger] todd_step_fits(power_sums_scalar(a, 7), todd_parts_scalar(power_sums_scalar(a, 7), 5), 6, m) by {
        if m == 1 {
        } else if m == 2 {
        } else if m == 3 {
        } else if m == 4 {
        } else if m == 5 {
        } else if m == 6 {
        }
    }
    assert(todd_part_fits(a, 7, 6));
    let v6 = seq![1int, 840, 676200, 518616000, 376126254000, 255392449200000, 160113095604000000];
    assert(todd_parts_scalar(ps, 6) =~= v6);
    assert(todd_partial_scalar(ps, v6, 7, 0) == 0);
    assert(ps[0] * v6[6] == 1280904764832000000) by (nonlinear_arith)
        requires
            ps[0] == 8,
            v6[6] == 160113095604000000,
    ;
    assert(ps[0] * v6[6] * (todd_falling(7, 1) * todd_weight(1)) == 134495000307360000000) by (nonlinear_arith)
        requires
            ps[0] * v6[6] == 1280904764832000000,
            todd_falling(7, 1) == 1,
            todd_weight(1) == 105,
    ;
    assert(todd_partial_scalar(ps, v6, 7, 1) == 134495000307360000000);
    assert(todd_step_fits(ps, v6, 7, 1));
    assert(ps[1] * v6[5] == 2043139593600000) by (nonlinear_arith)
        requires
            ps[1] == 8,
            v6[5] == 255392449200000,
    ;
    assert(ps[1] * v6[5] * (todd_falling(7, 2) * todd_weight(2)) == -45051228038880000000) by (nonlinear_arith)
        requires
            ps[1] * v6[5] == 2043139593600000,
            todd_falling(7, 2) == 6,
            todd_weight(2) == -3675,
    ;
    assert(todd_partial_scalar(ps, v6, 7, 2) == 89443772268480000000);
    assert(todd_step_fits(ps, v6, 7, 2));
    assert(ps[2] * v6[4] == 3009010032000) by (nonlinear_arith)
        requires
            ps[2] == 8,
            v6[4] == 376126254000,
    ;
    assert(ps[2] * v6[4] * (todd_falling(7, 3) * todd_weight(3)) == 0) by (nonlinear_arith)
        requires
            ps[2] * v6[4] == 3009010032000,
            todd_falling(7, 3) == 30,
            todd_weight(3) == 0,
    ;
    assert(todd_partial_scalar(ps, v6, 7, 3) == 89443772268480000000);
    assert(todd_step_fits(ps, v6, 7, 3));
    assert(ps[3] * v6[3] == 4148928000) by (nonlinear_arith)
        requires
            ps[3] == 8,
            v6[3] == 518616000,
    ;
    assert(ps[3] * v6[3] * (todd_falling(7, 4) * todd_weight(4)) == 1344812777280000000) by (nonlinear_arith)
        requires
            ps[3] * v6[3] == 4148928000,
            todd_falling(7, 4) == 120,
            todd_weight(4) == 2701125,
    ;
    assert(todd_partial_scalar(ps, v6, 7, 4) == 90788585045760000000);
    assert(todd_step_fits(ps, v6, 7, 4));
    assert(ps[4] * v6[2] == 5409600) by (nonlinear_arith)
        requires
            ps[4] == 8,
            v6[2] == 676200,
    ;
    assert(ps[4] * v6[2] * (todd_falling(7, 5) * todd_weight(5)) == 0) by (nonlinear_arith)
        requires
            ps[4] * v6[2] == 5409600,
            todd_falling(7, 5) == 360,
            todd_weight(5) == 0,
    ;
    assert(todd_partial_scalar(ps, v6, 7, 5) == 90788585045760000000);
    assert(todd_step_fits(ps, v6, 7, 5));
    assert(ps[5] * v6[1] == 6720) by (nonlinear_arith)
        requires
            ps[5] == 8,
            v6[1] == 840,
    ;
    assert(ps[5] * v6[1] * (todd_falling(7, 6) * todd_weight(6)) == -13722579360000000) by (nonlinear_arith)
        requires
            ps[5] * v6[1] == 6720,
            todd_falling(7, 6) == 720,
            todd_weight(6) == -2836181250,
    ;
    assert(todd_partial_scalar(ps, v6, 7, 6) == 90774862466400000000);
    assert(todd_step_fits(ps, v6, 7, 6));
    assert(ps[6] * v6[0] == 8) by (nonlinear_arith)
        requires
            ps[6] == 8,
            v6[0] == 1,
    ;
    assert(ps[6] * v6[0] * (todd_falling(7, 7) * todd_weight(7)) == 0) by (nonlinear_arith)
        requires
            ps[6] * v6[0] == 8,
            todd_falling(7, 7) == 720,
            todd_weight(7) == 0,
    ;
    assert(todd_partial_scalar(ps, v6, 7, 7) == 90774862466400000000);
    assert(todd_step_fits(ps, v6, 7, 7));
    assert(power_sums_scalar(a, 7) == ps && todd_parts_scalar(ps, 6) == v6);
    assert forall|m: int| 1 <= m <= 7 implies #[trigger] todd_step_fits(power_sums_scalar(a, 7), todd_parts_scalar(power_sums_scalar(a, 7), 6), 7, m) by {
        if m == 1 {
        } else if m == 2 {
        } else if m == 3 {
        } else if m == 4 {
        } else if m == 5 {
        } else if m == 6 {
        } else if m == 7 {
        }
    }
    assert(todd_part_fits(a, 7, 7));
    let v7 = seq![1int, 840, 676200, 518616000, 376126254000, 255392449200000, 160113095604000000, 90774862466400000000];
    assert(todd_parts_scalar(ps, 7) =~= v7);
    assert(todd_scale(7, 7) == 1);
    assert(todd_scale(7, 6) == todd_scale(7, 7) * 7 * 210);
    assert(todd_scale(7, 6) == 1470);
    assert(todd_scale(7, 5) == todd_scale(7, 6) * 6 * 210);
    assert(todd_scale(7, 5) == 1852200);
    assert(todd_scale(7, 4) == todd_scale(7, 5) * 5 * 210);
    assert(todd_scale(7, 4) == 1944810000);
    assert(todd_scale(7, 3) == todd_scale(7, 4) * 4 * 210);
    assert(todd_scale(7, 3) == 1633640400000);
    assert(todd_scale(7, 2) == todd_scale(7, 3) * 3 * 210);
    assert(todd_scale(7, 2) == 1029193452000000);
    assert(todd_scale(7, 1) == todd_scale(7, 2) * 2 * 210);
    assert(todd_scale(7, 1) == 432261249840000000);
    assert(todd_scale(7, 0) == todd_scale(7, 1) * 1 * 210);
    assert(todd_scale(7, 0) == 90774862466400000000);
    assert(v7[0] * todd_scale(7, 0) == 90774862466400000000) by (nonlinear_arith)
        requires
            v7[0] == 1,
            todd_scale(7, 0) == 90774862466400000000,
    ;
    assert(v7[1] * todd_scale(7, 1) == 363099449865600000000) by (nonlinear_arith)
        requires
            v7[1] == 840,
            todd_scale(7, 1) == 432261249840000000,
    ;
    assert(v7[2] * todd_scale(7, 2) == 695940612242400000000) by (nonlinear_arith)
        requires
            v7[2] == 676200,
            todd_scale(7, 2) == 1029193452000000,
    ;
    assert(v7[3] * todd_scale(7, 3) == 847232049686400000000) by (nonlinear_arith)
        requires
            v7[3] == 518616000,
            todd_scale(7, 3) == 1633640400000,
    ;
    assert(v7[4] * todd_scale(7, 4) == 731494100041740000000) by (nonlinear_arith)
        requires
            v7[4] == 376126254000,
            todd_scale(7, 4) == 1944810000,
    ;
    assert(v7[5] * todd_scale(7, 5) == 473037894408240000000) by (nonlinear_arith)
        requires
            v7[5] == 255392449200000,
            todd_scale(7, 5) == 1852200,
    ;
    assert(v7[6] * todd_scale(7, 6) == 235366250537880000000) by (nonlinear_arith)
        requires
            v7[6] == 160113095604000000,
            todd_scale(7, 6) == 1470,
    ;
    assert(v7[7] * todd_scale(7, 7) == 90774862466400000000) by (nonlinear_arith)
        requires
            v7[7] == 90774862466400000000,
            todd_scale(7, 7) == 1,
    ;
    assert forall|t: int| 0 <= t <= 7 implies fits_int(#[trigger] todd_parts_scalar(power_sums_scalar(a, 7), 7)[t] * todd_scale(7, t as nat)) by {
        assert(todd_parts_scalar(power_sums_scalar(a, 7), 7) == v7);
        if t == 0 {
        } else if t == 1 {
        } else if t == 2 {
        } else if t == 3 {
        } else if t == 4 {
        } else if t == 5 {
        } else if t == 6 {
        } else if t == 7 {
        }
    }
    assert forall|j: int| 1 <= j <= 7 implies #[trigger] newton_fits(a, j) by {
        if j == 1 {
        } else if j == 2 {
        } else if j == 3 {
        } else if j == 4 {
        } else if j == 5 {
        } else if j == 6 {
        } else if j == 7 {
        }
    }
    assert forall|k: int| 1 <= k <= 7 implies #[trigger] todd_part_fits(a, 7, k) by {
        if k == 1 {
        } else if k == 2 {
        } else if k == 3 {
        } else if k == 4 {
        } else if k == 5 {
        } else if k == 6 {
        } else if k == 7 {
        }
    }
}

/// The Todd class of `CP^8` on its coefficients: its genus is `1`, and
/// every step fits.
proof fn lemma_genus_cp8()
    ensures
        todd_parts_scalar(power_sums_scalar(cp_coeffs(8), 8), 8)[8] * todd_scale(8, 8) == todd_scale(8, 0),
        todd_fits(cp_coeffs(8), 8),
{
    assert(binomial(1, 0) == 1);
    assert(binomial(1, 1) == 1);
    assert(binomial(2, 0) == 1);
    assert(binomial(2, 1) == 2);
    assert(binomial(2, 2) == 1);
    assert(binomial(3, 0) == 1);
    assert(binomial(3, 1) == 3);
    assert(binomial(3, 2) == 3);
    assert(binomial(3, 3) == 1);
    assert(binomial(4, 0) == 1);
    assert(binomial(4, 1) == 4);
    assert(binomial(4, 2) == 6);
    assert(binomial(4, 3) == 4);
    assert(binomial(4, 4) == 1);
    assert(binomial(5, 0) == 1);
    assert(binomial(5, 1) == 5);
    assert(binomial(5, 2) == 10);
    assert(binomial(5, 3) == 10);
    assert(binomial(5, 4) == 5);
    assert(binomial(5, 5) == 1);
    assert(binomial(6, 0) == 1);
    assert(binomial(6, 1) == 6);
    assert(binomial(6, 2) == 15);
    assert(binomial(6, 3) == 20);
    assert(binomial(6, 4) == 15);
    assert(binomial(6, 5) == 6);
    assert(binomial(6, 6) == 1);
    assert(binomial(7, 0) == 1);
    assert(binomial(7, 1) == 7);
    assert(binomial(7, 2) == 21);
    assert(binomial(7, 3) == 35);
    assert(binomial(7, 4) == 35);
    assert(binomial(7, 5) == 21);
    assert(binomial(7, 6) == 7);
    assert(binomial(7, 7) == 1);
    assert(binomial(8, 0) == 1);
    assert(binomial(8, 1) == 8);
    assert(binomial(8, 2) == 28);
    assert(binomial(8, 3) == 56);
    assert(binomial(8, 4) == 70);
    assert(binomial(8, 5) == 56);
    assert(binomial(8, 6) == 28);
    assert(binomial(8, 7) == 8);
    assert(binomial(8, 8) == 1);
    assert(binomial(9, 0) == 1);
    assert(binomial(9, 1) == 9);
    assert(binomial(9, 2) == 36);
    assert(binomial(9, 3) == 84);
    assert(binomial(9, 4) == 126);
    assert(binomial(9, 5) == 126);
    assert(binomial(9, 6) == 84);
    assert(binomial(9, 7) == 36);
    assert(binomial(9, 8) == 9);
    assert(binomial(9, 9) == 1);
    let a = cp_coeffs(8);
    assert(a =~= seq![1int, 9, 36, 84, 126, 126, 84, 36, 9]);
    assert(coeff(a, 0) == 1);
    assert(coeff(a, 1) == 9);
    assert(coeff(a, 2) == 36);
    assert(coeff(a, 3) == 84);
    assert(coeff(a, 4) == 126);
    assert(coeff(a, 5) == 126);
    assert(coeff(a, 6) == 84);
    assert(coeff(a, 7) == 36);
    assert(coeff(a, 8) == 9);
    let p0 = Seq::<int>::empty();
    assert(power_sums_scalar(a, 0) =~= p0);
    assert(coeff(a, 1) * (alt_sign(1) * 1) == 9) by (nonlinear_arith)
        requires
            coeff(a, 1) == 9,
            alt_sign(1) == 1,
    ;
    assert(newton_scalar(a, p0, 1, 0) == 9);
    assert(power_sums_scalar(a, 0) == p0);
    assert(newton_fits(a, 1));
    let p1 = seq![9int];
    assert(power_sums_scalar(a, 1) =~= p1);
    assert(coeff(a, 2) * (alt_sign(2) * 2) == -72) by (nonlinear_arith)
        requires
            coeff(a, 2) == 36,
            alt_sign(2) == -1,
    ;
    assert(newton_scalar(a, p1, 2, 0) == -72);
    assert(coeff(a, 1) * p1[0] == 81) by (nonlinear_arith)
        requires
            coeff(a, 1) == 9,
            p1[0] == 9,
    ;
    assert(coeff(a, 1) * p1[0] * alt_sign(1) == 81) by (nonlinear_arith)
        requires
            coeff(a, 1) * p1[0] == 81,
            alt_sign(1) == 1,
    ;
    assert(newton_scalar(a, p1, 2, 1) == 9);
    assert(newton_step_fits(a, p1, 2, 1));
    assert(power_sums_scalar(a, 1) == p1);
    assert forall|m: int| 1 <= m < 2 implies #[trigger] newton_step_fits(a, power_sums_scalar(a, 1), 2, m) by {
        if m == 1 {
        }
    }
    assert(newton_fits(a, 2));
    let p2 = seq![9int, 9];
    assert(power_sums_scalar(a, 2) =~= p2);
    assert(coeff(a, 3) * (alt_sign(3) * 3) == 252) by (nonlinear_arith)
        requires
            coeff(a, 3) == 84,
            alt_sign(3) == 1,
    ;
    assert(newton_scalar(a, p2, 3, 0) == 252);
    assert(coeff(a, 1) * p2[1] == 81) by (nonlinear_arith)
        requires
            coeff(a, 1) == 9,
            p2[1] == 9,
    ;
    assert(coeff(a, 1) * p2[1] * alt_sign(1) == 81) by (nonlinear_arith)
        requires
            coeff(a, 1) * p2[1] == 81,
            alt_sign(1) == 1,
    ;
    assert(newton_scalar(a, p2, 3, 1) == 333);
    assert(newton_step_fits(a, p2, 3, 1));
    assert(coeff(a, 2) * p2[0] == 324) by (nonlinear_arith)
        requires
            coeff(a, 2) == 36,
            p2[0] == 9,
    ;
    assert(coeff(a, 2) * p2[0] * alt_sign(2) == -324) by (nonlinear_arith)
        requires
            coeff(a, 2) * p2[0] == 324,
            alt_sign(2) == -1,
    ;
    assert(newton_scalar(a, p2, 3, 2) == 9);
    assert(newton_step_fits(a, p2, 3, 2));
    assert(power_sums_scalar(a, 2) == p2);
    assert forall|m: int| 1 <= m < 3 implies #[trigger] newton_step_fits(a, power_sums_scalar(a, 2), 3, m) by {
        if m == 1 {
        } else if m == 2 {
        }
    }
    assert(newton_fits(a, 3));
    let p3 = seq![9int, 9, 9];
    assert(power_sums_scalar(a, 3) =~= p3);
    assert(coeff(a, 4) * (alt_sign(4) * 4) == -504) by (nonlinear_arith)
        requires
            coeff(a, 4) == 126,
            alt_sign(4) == -1,
    ;
    assert(newton_scalar(a, p3, 4, 0) == -504);
    assert(coeff(a, 1) * p3[2] == 81) by (nonlinear_arith)
        requires
            coeff(a, 1) == 9,
            p3[2] == 9,
    ;
    assert(coeff(a, 1) * p3[2] * alt_sign(1) == 81) by (nonlinear_arith)
        requires
            coeff(a, 1) * p3[2] == 81,
            alt_sign(1) == 1,
    ;
    assert(newton_scalar(a, p3, 4, 1) == -423);
    assert(newton_step_fits(a, p3, 4, 1));
    assert(coeff(a, 2) * p3[1] == 324) by (nonlinear_arith)
        requires
            coeff(a, 2) == 36,
            p3[1] == 9,
    ;
    assert(coeff(a, 2) * p3[1] * alt_sign(2) == -324) by (nonlinear_arith)
        requires
            coeff(a, 2) * p3[1] == 324,
            alt_sign(2) == -1,
    ;
    assert(newton_scalar(a, p3, 4, 2) == -747);
    assert(newton_step_fits(a, p3, 4, 2));
    assert(coeff(a, 3) * p3[0] == 756) by (nonlinear_arith)
        requires
            coeff(a, 3) == 84,
            p3[0] == 9,
    ;
    assert(coeff(a, 3) * p3[0] * alt_sign(3) == 756) by (nonlinear_arith)
        requires
            coeff(a, 3) * p3[0] == 756,
            alt_sign(3) == 1,
    ;
    assert(newton_scalar(a, p3, 4, 3) == 9);
    assert(newton_step_fits(a, p3, 4, 3));
    assert(power_sums_scalar(a, 3) == p3);
    assert forall|m: int| 1 <= m < 4 implies #[trigger] newton_step_fits(a, power_sums_scalar(a, 3), 4, m) by {
        if m == 1 {
        } else if m == 2 {
        } else if m == 3 {
        }
    }
    assert(newton_fits(a, 4));
    let p4 = seq![9int, 9, 9, 9];
    assert(power_sums_scalar(a, 4) =~= p4);
    assert(coeff(a, 5) * (alt_sign(5) * 5) == 630) by (nonlinear_arith)
        requires
            coeff(a, 5) == 126,
            alt_sign(5) == 1,
    ;
    assert(newton_scalar(a, p4, 5, 0) == 630);
    assert(coeff(a, 1) * p4[3] == 81) by (nonlinear_arith)
        requires
            coeff(a, 1) == 9,
            p4[3] == 9,
    ;
    assert(coeff(a, 1) * p4[3] * alt_sign(1) == 81) by (nonlinear_arith)
        requires
            coeff(a, 1) * p4[3] == 81,
            alt_sign(1) == 1,
    ;
    assert(newton_scalar(a, p4, 5, 1) == 711);
    assert(newton_step_fits(a, p4, 5, 1));
    assert(coeff(a, 2) * p4[2] == 324) by (nonlinear_arith)
        requires
            coeff(a, 2) == 36,
            p4[2] == 9,
    ;
    assert(coeff(a, 2) * p4[2] * alt_sign(2) == -324) by (nonlinear_arith)
        requires
            coeff(a, 2) * p4[2] == 324,
            alt_sign(2) == -1,
    ;
    assert(newton_scalar(a, p4, 5, 2) == 387);
    assert(newton_step_fits(a, p4, 5, 2));
    assert(coeff(a, 3) * p4[1] == 756) by (nonlinear_arith)
        requires
            coeff(a, 3) == 84,
            p4[1] == 9,
    ;
    assert(coeff(a, 3) * p4[1] * alt_sign(3) == 756) by (nonlinear_arith)
        requires
            coeff(a, 3) * p4[1] == 756,
            alt_sign(3) == 1,
    ;
    assert(newton_scalar(a, p4, 5, 3) == 1143);
    assert(newton_step_fits(a, p4, 5, 3));
    assert(coeff(a, 4) * p4[0] == 1134) by (nonlinear_arith)
        requires
            coeff(a, 4) == 126,
            p4[0] == 9,
    ;
    assert(coeff(a, 4) * p4[0] * alt_sign(4) == -1134) by (nonlinear_arith)
        requires
            coeff(a, 4) * p4[0] == 1134,
            alt_sign(4) == -1,
    ;
    assert(newton_scalar(a, p4, 5, 4) == 9);
    assert(newton_step_fits(a, p4, 5, 4));
    assert(power_sums_scalar(a, 4) == p4);
    assert forall|m: int| 1 <= m < 5 implies #[trigger] newton_step_fits(a, power_sums_scalar(a, 4), 5, m) by {
        if m == 1 {
        } else if m == 2 {
        } else if m == 3 {
        } else if m == 4 {
        }
    }
    assert(newton_fits(a, 5));
    let p5 = seq![9int, 9, 9, 9, 9];
    assert(power_sums_scalar(a, 5) =~= p5);
    assert(coeff(a, 6) * (alt_sign(6) * 6) == -504) by (nonlinear_arith)
        requires
            coeff(a, 6) == 84,
            alt_sign(6) == -1,
    ;
    assert(newton_scalar(a, p5, 6, 0) == -504);
    assert(coeff(a, 1) * p5[4] == 81) by (nonlinear_arith)
        requires
            coeff(a, 1) == 9,
            p5[4] == 9,
    ;
    assert(coeff(a, 1) * p5[4] * alt_sign(1) == 81) by (nonlinear_arith)
        requires
            coeff(a, 1) * p5[4] == 81,
            alt_sign(1) == 1,
    ;
    assert(newton_scalar(a, p5, 6, 1) == -423);
    assert(newton_step_fits(a, p5, 6, 1));
    assert(coeff(a, 2) * p5[3] == 324) by (nonlinear_arith)
        requires
            coeff(a, 2) == 36,
            p5[3] == 9,
    ;
    assert(coeff(a, 2) * p5[3] * alt_sign(2) == -324) by (nonlinear_arith)
        requires
            coeff(a, 2) * p5[3] == 324,
            alt_sign(2) == -1,
    ;
    assert(newton_scalar(a, p5, 6, 2) == -747);
    assert(newton_step_fits(a, p5, 6, 2));
    assert(coeff(a, 3) * p5[2] == 756) by (nonlinear_arith)
        requires
            coeff(a, 3) == 84,
            p5[2] == 9,
    ;
    assert(coeff(a, 3) * p5[2] * alt_sign(3) == 756) by (nonlinear_arith)
        requires
            coeff(a, 3) * p5[2] == 756,
            alt_sign(3) == 1,
    ;
    assert(newton_scalar(a, p5, 6, 3) == 9);
    assert(newton_step_fits(a, p5, 6, 3));
    assert(coeff(a, 4) * p5[1] == 1134) by (nonlinear_arith)
        requires
            coeff(a, 4) == 126,
            p5[1] == 9,
    ;
    assert(coeff(a, 4) * p5[1] * alt_sign(4) == -1134) by (nonlinear_arith)
        requires
            coeff(a, 4) * p5[1] == 1134,
            alt_sign(4) == -1,
    ;
    assert(newton_scalar(a, p5, 6, 4) == -1125);
    assert(newton_step_fits(a, p5, 6, 4));
    assert(coeff(a, 5) * p5[0] == 1134) by (nonlinear_arith)
        requires
            coeff(a, 5) == 126,
            p5[0] == 9,
    ;
    assert(coeff(a, 5) * p5[0] * alt_sign(5) == 1134) by (nonlinear_arith)
        requires
            coeff(a, 5) * p5[0] == 1134,
            alt_sign(5) == 1,
    ;
    assert(newton_scalar(a, p5, 6, 5) == 9);
    assert(newton_step_fits(a, p5, 6, 5));
    assert(power_sums_scalar(a, 5) == p5);
    assert forall|m: int| 1 <= m < 6 implies #[trigger] newton_step_fits(a, power_sums_scalar(a, 5), 6, m) by {
        if m == 1 {
        } else if m == 2 {
        } else if m == 3 {
        } else if m == 4 {
        } else if m == 5 {
        }
    }
    assert(newton_fits(a, 6));
    let p6 = seq![9int, 9, 9, 9, 9, 9];
    assert(power_sums_scalar(a, 6) =~= p6);
    assert(coeff(a, 7) * (alt_sign(7) * 7) == 252) by (nonlinear_arith)
        requires
            coeff(a, 7) == 36,
            alt_sign(7) == 1,
    ;
    assert(newton_scalar(a, p6, 7, 0) == 252);
    assert(coeff(a, 1) * p6[5] == 81) by (nonlinear_arith)
        requires
            coeff(a, 1) == 9,
            p6[5] == 9,
    ;
    assert(coeff(a, 1) * p6[5] * alt_sign(1) == 81) by (nonlinear_arith)
        requires
            coeff(a, 1) * p6[5] == 81,
            alt_sign(1) == 1,
    ;
    assert(newton_scalar(a, p6, 7, 1) == 333);
    assert(newton_step_fits(a, p6, 7, 1));
    assert(coeff(a, 2) * p6[4] == 324) by (nonlinear_arith)
        requires
            coeff(a, 2) == 36,
            p6[4] == 9,
    ;
    assert(coeff(a, 2) * p6[4] * alt_sign(2) == -324) by (nonlinear_arith)
        requires
            coeff(a, 2) * p6[4] == 324,
            alt_sign(2) == -1,
    ;
    assert(newton_scalar(a, p6, 7, 2) == 9);
    assert(newton_step_fits(a, p6, 7, 2));
    assert(coeff(a, 3) * p6[3] == 756) by (nonlinear_arith)
        requires
            coeff(a, 3) == 84,
            p6[3] == 9,
    ;
    assert(coeff(a, 3) * p6[3] * alt_sign(3) == 756) by (nonlinear_arith)
        requires
            coeff(a, 3) * p6[3] == 756,
            alt_sign(3) == 1,
    ;
    assert(newton_scalar(a, p6, 7, 3) == 765);
    assert(newton_step_fits(a, p6, 7, 3));
    assert(coeff(a, 4) * p6[2] == 1134) by (nonlinear_arith)
        requires
            coeff(a, 4) == 126,
            p6[2] == 9,
    ;
    assert(coeff(a, 4) * p6[2] * alt_sign(4) == -1134) by (nonlinear_arith)
        requires
            coeff(a, 4) * p6[2] == 1134,
            alt_sign(4) == -1,
    ;
    assert(newton_scalar(a, p6, 7, 4) == -369);
    assert(newton_step_fits(a, p6, 7, 4));
    assert(coeff(a, 5) * p6[1] == 1134) by (nonlinear_arith)
        requires
            coeff(a, 5) == 126,
            p6[1] == 9,
    ;
    assert(coeff(a, 5) * p6[1] * alt_sign(5) == 1134) by (nonlinear_arith)
        requires
            coeff(a, 5) * p6[1] == 1134,
            alt_sign(5) == 1,
    ;
    assert(newton_scalar(a, p6, 7, 5) == 765);
    assert(newton_step_fits(a, p6, 7, 5));
    assert(coeff(a, 6) * p6[0] == 756) by (nonlinear_arith)
        requires
            coeff(a, 6) == 84,
            p6[0] == 9,
    ;
    assert(coeff(a, 6) * p6[0] * alt_sign(6) == -756) by (nonlinear_arith)
        requires
            coeff(a, 6) * p6[0] == 756,
            alt_sign(6) == -1,
    ;
    assert(newton_scalar(a, p6, 7, 6) == 9);
    assert(newton_step_fits(a, p6, 7, 6));
    assert(power_sums_scalar(a, 6) == p6);
    assert forall|m: int| 1 <= m < 7 implies #[trigger] newton_step_fits(a, power_sums_scalar(a, 6), 7, m) by {
        if m == 1 {
        } else if m == 2 {
        } else if m == 3 {
        } else if m == 4 {
        } else if m == 5 {
        } else if m == 6 {
        }
    }
    assert(newton_fits(a, 7));
    let p7 = seq![9int, 9, 9, 9, 9, 9, 9];
    assert(power_sums_scalar(a, 7) =~= p7);
    assert(coeff(a, 8) * (alt_sign(8) * 8) == -72) by (nonlinear_arith)
        requires
            coeff(a, 8) == 9,
            alt_sign(8) == -1,
    ;
    assert(newton_scalar(a, p7, 8, 0) == -72);
    assert(coeff(a, 1) * p7[6] == 81) by (nonlinear_arith)
        requires
            coeff(a, 1) == 9,
            p7[6] == 9,
    ;
    assert(coeff(a, 1) * p7[6] * alt_sign(1) == 81) by (nonlinear_arith)
        requires
            coeff(a, 1) * p7[6] == 81,
            alt_sign(1) == 1,
    ;
    assert(newton_scalar(a, p7, 8, 1) == 9);
    assert(newton_step_fits(a, p7, 8, 1));
    assert(coeff(a, 2) * p7[5] == 324) by (nonlinear_arith)
        requires
            coeff(a, 2) == 36,
            p7[5] == 9,
    ;
    assert(coeff(a, 2) * p7[5] * alt_sign(2) == -324) by (nonlinear_arith)
        requires
            coeff(a, 2) * p7[5] == 324,
            alt_sign(2) == -1,
    ;
    assert(newton_scalar(a, p7, 8, 2) == -315);
    assert(newton_step_fits(a, p7, 8, 2));
    assert(coeff(a, 3) * p7[4] == 756) by (nonlinear_arith)
        requires
            coeff(a, 3) == 84,
            p7[4] == 9,
    ;
    assert(coeff(a, 3) * p7[4] * alt_sign(3) == 756) by (nonlinear_arith)
        requires
            coeff(a, 3) * p7[4] == 756,
            alt_sign(3) == 1,
    ;
    assert(newton_scalar(a, p7, 8, 3) == 441);
    assert(newton_step_fits(a, p7, 8, 3));
    assert(coeff(a, 4) * p7[3] == 1134) by (nonlinear_arith)
        requires
            coeff(a, 4) == 126,
            p7[3] == 9,
    ;
    assert(coeff(a, 4) * p7[3] * alt_sign(4) == -1134) by (nonlinear_arith)
        requires
            coeff(a, 4) * p7[3] == 1134,
            alt_sign(4) == -1,
    ;
    assert(newton_scalar(a, p7, 8, 4) == -693);
    assert(newton_step_fits(a, p7, 8, 4));
    assert(coeff(a, 5) * p7[2] == 1134) by (nonlinear_arith)
        requires
            coeff(a, 5) == 126,
            p7[2] == 9,
    ;
    assert(coeff(a, 5) * p7[2] * alt_sign(5) == 1134) by (nonlinear_arith)
        requires
            coeff(a, 5) * p7[2] == 1134,
            alt_sign(5) == 1,
    ;
    assert(newton_scalar(a, p7, 8, 5) == 441);
    assert(newton_step_fits(a, p7, 8, 5));
    assert(coeff(a, 6) * p7[1] == 756) by (nonlinear_arith)
        requires
            coeff(a, 6) == 84,
            p7[1] == 9,
    ;
    assert(coeff(a, 6) * p7[1] * alt_sign(6) == -756) by (nonlinear_arith)
        requires
            coeff(a, 6) * p7[1] == 756,
            alt_sign(6) == -1,
    ;
    assert(newton_scalar(a, p7, 8, 6) == -315);
    assert(newton_step_fits(a, p7, 8, 6));
    assert(coeff(a, 7) * p7[0] == 324) by (nonlinear_arith)
        requires
            coeff(a, 7) == 36,
            p7[0] == 9,
    ;
    assert(coeff(a, 7) * p7[0] * alt_sign(7) == 324) by (nonlinear_arith)
        requires
            coeff(a, 7) * p7[0] == 324,
            alt_sign(7) == 1,
    ;
    assert(newton_scalar(a, p7, 8, 7) == 9);
    assert(newton_step_fits(a, p7, 8, 7));
    assert(power_sums_scalar(a, 7) == p7);
    assert forall|m: int| 1 <= m < 8 implies #[trigger] newton_step_fits(a, power_sums_scalar(a, 7), 8, m) by {
        if m == 1 {
        } else if m == 2 {
        } else if m == 3 {
        } else if m == 4 {
        } else if m == 5 {
        } else if m == 6 {
        } else if m == 7 {
        }
    }
    assert(newton_fits(a, 8));
    let p8 = seq![9int, 9, 9, 9, 9, 9, 9, 9];
    assert(power_sums_scalar(a, 8) =~= p8);
    let ps = p8;
    assert(todd_falling(1, 1) == 1);
    assert(todd_falling(2, 1) == 1);
    assert(todd_falling(2, 2) == 1);
    assert(todd_falling(3, 1) == 1);
    assert(todd_falling(3, 2) == 2);
    assert(todd_falling(3, 3) == 2);
    assert(todd_falling(4, 1) == 1);
    assert(todd_falling(4, 2) == 3);
    assert(todd_falling(4, 3) == 6);
    assert(todd_falling(4, 4) == 6);
    assert(todd_falling(5, 1) == 1);
    assert(todd_falling(5, 2) == 4);
    assert(todd_falling(5, 3) == 12);
    assert(todd_falling(5, 4) == 24);
    assert(todd_falling(5, 5) == 24);
    assert(todd_falling(6, 1) == 1);
    assert(todd_falling(6, 2) == 5);
    assert(todd_falling(6, 3) == 20);
    assert(todd_falling(6, 4) == 60);
    assert(todd_falling(6, 5) == 120);
    assert(todd_falling(6, 6) == 120);
    assert(todd_falling(7, 1) == 1);
    assert(todd_falling(7, 2) == 6);
    assert(todd_falling(7, 3) == 30);
    assert(todd_falling(7, 4) == 120);
    assert(todd_falling(7, 5) == 360);
    assert(todd_falling(7, 6) == 720);
    assert(todd_falling(7, 7) == 720);
    assert(todd_falling(8, 1) == 1);
    assert(todd_falling(8, 2) == 7);
    assert(todd_falling(8, 3) == 42);
    assert(todd_falling(8, 4) == 210);
    assert(todd_falling(8, 5) == 840);
    assert(todd_falling(8, 6) == 2520);
    assert(todd_falling(8, 7) == 5040);
    assert(todd_falling(8, 8) == 5040);
    let v0 = seq![1int];
    assert(todd_parts_scalar(ps, 0) =~= v0);
    assert(todd_partial_scalar(ps, v0, 1, 0) == 0);
    assert(ps[0] * v0[0] == 9) by (nonlinear_arith)
        requires
            ps[0] == 9,
            v0[0] == 1,
    ;
    assert(ps[0] * v0[0] * (todd_falling(1, 1) * todd_weight(1)) == 945) by (nonlinear_arith)
        requires
            ps[0] * v0[0] == 9,
            todd_falling(1, 1) == 1,
            todd_weight(1) == 105,
    ;
    assert(todd_partial_scalar(ps, v0, 1, 1) == 945);
    assert(todd_step_fits(ps, v0, 1, 1));
    assert(power_sums_scalar(a, 8) == ps && todd_parts_scalar(ps, 0) == v0);
    assert forall|m: int| 1 <= m <= 1 implies #[trigger] todd_step_fits(power_sums_scalar(a, 8), todd_parts_scalar(power_sums_scalar(a, 8), 0), 1, m) by {
        if m == 1 {
        }
    }
    assert(todd_part_fits(a, 8, 1));
    let v1 = seq![1int, 945];
    assert(todd_parts_scalar(ps, 1) =~= v1);
    assert(todd_partial_scalar(ps, v1, 2, 0) == 0);
    assert(ps[0] * v1[1] == 8505) by (nonlinear_arith)
        requires
            ps[0] == 9,
            v1[1] == 945,
    ;
    assert(ps[0] * v1[1] * (todd_falling(2, 1) * todd_weight(1)) == 893025) by (nonlinear_arith)
        requires
            ps[0] * v1[1] == 8505,
            todd_falling(2, 1) == 1,
            todd_weight(1) == 105,
    ;
    assert(todd_partial_scalar(ps, v1, 2, 1) == 893025);
    assert(todd_step_fits(ps, v1, 2, 1));
    assert(ps[1] * v1[0] == 9) by (nonlinear_arith)
        requires
            ps[1] == 9,
            v1[0] == 1,
    ;
    assert(ps[1] * v1[0] * (todd_falling(2, 2) * todd_weight(2)) == -33075) by (nonlinear_arith)
        requires
            ps[1] * v1[0] == 9,
            todd_falling(2, 2) == 1,
            todd_weight(2) == -3675,
    ;
    assert(todd_partial_scalar(ps, v1, 2, 2) == 859950);
    assert(todd_step_fits(ps, v1, 2, 2));
    assert(power_sums_scalar(a, 8) == ps && todd_parts_scalar(ps, 1) == v1);
    assert forall|m: int| 1 <= m <= 2 implies #[trigger] todd_step_fits(power_sums_scalar(a, 8), todd_parts_scalar(power_sums_scalar(a, 8), 1), 2, m) by {
        if m == 1 {
        } else if m == 2 {
        }
    }
    assert(todd_part_fits(a, 8, 2));
    let v2 = seq![1int, 945, 859950];
    assert(todd_parts_scalar(ps, 2) =~= v2);
    assert(todd_partial_scalar(ps, v2, 3, 0) == 0);
    assert(ps[0] * v2[2] == 7739550) by (nonlinear_arith)
        requires
            ps[0] == 9,
            v2[2] == 859950,
    ;
    assert(ps[0] * v2[2] * (todd_falling(3, 1) * todd_weight(1)) == 812652750) by (nonlinear_arith)
        requires
            ps[0] * v2[2] == 7739550,
            todd_falling(3, 1) == 1,
            todd_weight(1) == 105,
    ;
    assert(todd_partial_scalar(ps, v2, 3, 1) == 812652750);
    assert(todd_step_fits(ps, v2, 3, 1));
    assert(ps[1] * v2[1] == 8505) by (nonlinear_arith)
        requires
            ps[1] == 9,
            v2[1] == 945,
    ;
    assert(ps[1] * v2[1] * (todd_falling(3, 2) * todd_weight(2)) == -62511750) by (nonlinear_arith)
        requires
            ps[1] * v2[1] == 8505,
            todd_falling(3, 2) == 2,
            todd_weight(2) == -3675,
    ;
    assert(todd_partial_scalar(ps, v2, 3, 2) == 750141000);
    assert(todd_step_fits(ps, v2, 3, 2));
    assert(ps[2] * v2[0] == 9) by (nonlinear_arith)
        requires
            ps[2] == 9,
            v2[0] == 1,
    ;
    assert(ps[2] * v2[0] * (todd_falling(3, 3) * todd_weight(3)) == 0) by (nonlinear_arith)
        requires
            ps[2] * v2[0] == 9,
            todd_falling(3, 3) == 2,
            todd_weight(3) == 0,
    ;
    assert(todd_partial_scalar(ps, v2, 3, 3) == 750141000);
    assert(todd_step_fits(ps, v2, 3, 3));
    assert(power_sums_scalar(a, 8) == ps && todd_parts_scalar(ps, 2) == v2);
    assert forall|m: int| 1 <= m <= 3 implies #[trigger] todd_step_fits(power_sums_scalar(a, 8), todd_parts_scalar(power_sums_scalar(a, 8), 2), 3, m) by {
        if m == 1 {
        } else if m == 2 {
        } else if m == 3 {
        }
    }
    assert(todd_part_fits(a, 8, 3));
    let v3 = seq![1int, 945, 859950, 750141000];
    assert(todd_parts_scalar(ps, 3) =~= v3);
    assert(todd_partial_scalar(ps, v3, 4, 0) == 0);
    assert(ps[0] * v3[3] == 6751269000) by (nonlinear_arith)
        requires
            ps[0] == 9,
            v3[3] == 750141000,
    ;
    assert(ps[0] * v3[3] * (todd_falling(4, 1) * todd_weight(1)) == 708883245000) by (nonlinear_arith)
        requires
            ps[0] * v3[3] == 6751269000,
            todd_falling(4, 1) == 1,
            todd_weight(1) == 105,
    ;
    assert(todd_partial_scalar(ps, v3, 4, 1) == 708883245000);
    assert(todd_step_fits(ps, v3, 4, 1));
    assert(ps[1] * v3[2] == 7739550) by (nonlinear_arith)
        requires
            ps[1] == 9,
            v3[2] == 859950,
    ;
    assert(ps[1] * v3[2] * (todd_falling(4, 2) * todd_weight(2)) == -85328538750) by (nonlinear_arith)
        requires
            ps[1] * v3[2] == 7739550,
            todd_falling(4, 2) == 3,
            todd_weight(2) == -3675,
    ;
    assert(todd_partial_scalar(ps, v3, 4, 2) == 623554706250);
    assert(todd_step_fits(ps, v3, 4, 2));
    assert(ps[2] * v3[1] == 8505) by (nonlinear_arith)
        requires
            ps[2] == 9,
            v3[1] == 945,
    ;
    assert(ps[2] * v3[1] * (todd_falling(4, 3) * todd_weight(3)) == 0) by (nonlinear_arith)
        requires
            ps[2] * v3[1] == 8505,
            todd_falling(4, 3) == 6,
            todd_weight(3) == 0,
    ;
    assert(todd_partial_scalar(ps, v3, 4, 3) == 623554706250);
    assert(todd_step_fits(ps, v3, 4, 3));
    assert(ps[3] * v3[0] == 9) by (nonlinear_arith)
        requires
            ps[3] == 9,
            v3[0] == 1,
    ;
    assert(ps[3] * v3[0] * (todd_falling(4, 4) * todd_weight(4)) == 145860750) by (nonlinear_arith)
        requires
            ps[3] * v3[0] == 9,
            todd_falling(4, 4) == 6,
            todd_weight(4) == 2701125,
    ;
    assert(todd_partial_scalar(ps, v3, 4, 4) == 623700567000);
    assert(todd_step_fits(ps, v3, 4, 4));
    assert(power_sums_scalar(a, 8) == ps && todd_parts_scalar(ps, 3) == v3);
    assert forall|m: int| 1 <= m <= 4 implies #[trigger] todd_step_fits(power_sums_scalar(a, 8), todd_parts_scalar(power_sums_scalar(a, 8), 3), 4, m) by {
        if m == 1 {
        } else if m == 2 {
        } else if m == 3 {
        } else if m == 4 {
        }
    }
    assert(todd_part_fits(a, 8, 4));
    let v4 = seq![1int, 945, 859950, 750141000, 623700567000];
    assert(todd_parts_scalar(ps, 4) =~= v4);
    assert(todd_partial_scalar(ps, v4, 5, 0) == 0);
    assert(ps[0] * v4[4] == 5613305103000) by (nonlinear_arith)
        requires
            ps[0] == 9,
            v4[4] == 623700567000,
    ;
    assert(ps[0] * v4[4] * (todd_falling(5, 1) * todd_weight(1)) == 589397035815000) by (nonlinear_arith)
        requires
            ps[0] * v4[4] == 5613305103000,
            todd_falling(5, 1) == 1,
            todd_weight(1) == 105,
    ;
    assert(todd_partial_scalar(ps, v4, 5, 1) == 589397035815000);
    assert(todd_step_fits(ps, v4, 5, 1));
    assert(ps[1] * v4[3] == 6751269000) by (nonlinear_arith)
        requires
            ps[1] == 9,
            v4[3] == 750141000,
    ;
    assert(ps[1] * v4[3] * (todd_falling(5, 2) * todd_weight(2)) == -99243654300000) by (nonlinear_arith)
        requires
            ps[1] * v4[3] == 6751269000,
            todd_falling(5, 2) == 4,
            todd_weight(2) == -3675,
    ;
    assert(todd_partial_scalar(ps, v4, 5, 2) == 490153381515000);
    assert(todd_step_fits(ps, v4, 5, 2));
    assert(ps[2] * v4[2] == 7739550) by (nonlinear_arith)
        requires
            ps[2] == 9,
            v4[2] == 859950,
    ;
    assert(ps[2] * v4[2] * (todd_falling(5, 3) * todd_weight(3)) == 0) by (nonlinear_arith)
        requires
            ps[2] * v4[2] == 7739550,
            todd_falling(5, 3) == 12,
            todd_weight(3) == 0,
    ;
    assert(todd_partial_scalar(ps, v4, 5, 3) == 490153381515000);
    assert(todd_step_fits(ps, v4, 5, 3));
    assert(ps[3] * v4[1] == 8505) by (nonlinear_arith)
        requires
            ps[3] == 9,
            v4[1] == 945,
    ;
    assert(ps[3] * v4[1] * (todd_falling(5, 4) * todd_weight(4)) == 551353635000) by (nonlinear_arith)
        requires
            ps[3] * v4[1] == 8505,
            todd_falling(5, 4) == 24,
            todd_weight(4) == 2701125,
    ;
    assert(todd_partial_scalar(ps, v4, 5, 4) == 490704735150000);
    assert(todd_step_fits(ps, v4, 5, 4));
    assert(ps[4] * v4[0] == 9) by (nonlinear_arith)
        requires
            ps[4] == 9,
            v4[0] == 1,
    ;
    assert(ps[4] * v4[0] * (todd_falling(5, 5) * todd_weight(5)) == 0) by (nonlinear_arith)
        requires
            ps[4] * v4[0] == 9,
            todd_falling(5, 5) == 24,
            todd_weight(5) == 0,
    ;
    assert(todd_partial_scalar(ps, v4, 5, 5) == 490704735150000);
    assert(todd_step_fits(ps, v4, 5, 5));
    assert(power_sums_scalar(a, 8) == ps && todd_parts_scalar(ps, 4) == v4);
    assert forall|m: int| 1 <= m <= 5 implies #[trigger] todd_step_fits(power_sums_scalar(a, 8), todd_parts_scalar(power_sums_scalar(a, 8), 4), 5, m) by {
        if m == 1 {
        } else if m == 2 {
        } else if m == 3 {
        } else if m == 4 {
        } else if m == 5 {
        }
    }
    assert(todd_part_fits(a, 8, 5));
    let v5 = seq![1int, 945, 859950, 750141000, 623700567000, 490704735150000];
    assert(todd_parts_scalar(ps, 5) =~= v5);
    assert(todd_partial_scalar(ps, v5, 6, 0) == 0);
    assert(ps[0] * v5[5] == 4416342616350000) by (nonlinear_arith)
        requires
            ps[0] == 9,
            v5[5] == 490704735150000,
    ;
    assert(ps[0] * v5[5] * (todd_falling(6, 1) * todd_weight(1)) == 463715974716750000) by (nonlinear_arith)
        requires
            ps[0] * v5[5] == 4416342616350000,
            todd_falling(6, 1) == 1,
            todd_weight(1) == 105,
    ;
    assert(todd_partial_scalar(ps, v5, 6, 1) == 463715974716750000);
    assert(todd_step_fits(ps, v5, 6, 1));
    assert(ps[1] * v5[4] == 5613305103000) by (nonlinear_arith)
        requires
            ps[1] == 9,
            v5[4] == 623700567000,
    ;
    assert(ps[1] * v5[4] * (todd_falling(6, 2) * todd_weight(2)) == -103144481267625000) by (nonlinear_arith)
        requires
            ps[1] * v5[4] == 5613305103000,
            todd_falling(6, 2) == 5,
            todd_weight(2) == -3675,
    ;
    assert(todd_partial_scalar(ps, v5, 6, 2) == 360571493449125000);
    assert(todd_step_fits(ps, v5, 6, 2));
    assert(ps[2] * v5[3] == 6751269000) by (nonlinear_arith)
        requires
            ps[2] == 9,
            v5[3] == 750141000,
    ;
    assert(ps[2] * v5[3] * (todd_falling(6, 3) * todd_weight(3)) == 0) by (nonlinear_arith)
        requires
            ps[2] * v5[3] == 6751269000,
            todd_falling(6, 3) == 20,
            todd_weight(3) == 0,
    ;
    assert(todd_partial_scalar(ps, v5, 6, 3) == 360571493449125000);
    assert(todd_step_fits(ps, v5, 6, 3));
    assert(ps[3] * v5[2] == 7739550) by (nonlinear_arith)
        requires
            ps[3] == 9,
            v5[2] == 859950,
    ;
    assert(ps[3] * v5[2] * (todd_falling(6, 4) * todd_weight(4)) == 1254329519625000) by (nonlinear_arith)
        requires
            ps[3] * v5[2] == 7739550,
            todd_falling(6, 4) == 60,
            todd_weight(4) == 2701125,
    ;
    assert(todd_partial_scalar(ps, v5, 6, 4) == 361825822968750000);
    assert(todd_step_fits(ps, v5, 6, 4));
    assert(ps[4] * v5[1] == 8505) by (nonlinear_arith)
        requires
            ps[4] == 9,
            v5[1] == 945,
    ;
    assert(ps[4] * v5[1] * (todd_falling(6, 5) * todd_weight(5)) == 0) by (nonlinear_arith)
        requires
            ps[4] * v5[1] == 8505,
            todd_falling(6, 5) == 120,
            todd_weight(5) == 0,
    ;
    assert(todd_partial_scalar(ps, v5, 6, 5) == 361825822968750000);
    assert(todd_step_fits(ps, v5, 6, 5));
    assert(ps[5] * v5[0] == 9) by (nonlinear_arith)
        requires
            ps[5] == 9,
            v5[0] == 1,
    ;
    assert(ps[5] * v5[0] * (todd_falling(6, 6) * todd_weight(6)) == -3063075750000) by (nonlinear_arith)
        requires
            ps[5] * v5[0] == 9,
            todd_falling(6, 6) == 120,
            todd_weight(6) == -2836181250,
    ;
    assert(todd_partial_scalar(ps, v5, 6, 6) == 361822759893000000);
    assert(todd_step_fits(ps, v5, 6, 6));
    assert(power_sums_scalar(a, 8) == ps && todd_parts_scalar(ps, 5) == v5);
    assert forall|m: int| 1 <= m <= 6 implies #[trigger] todd_step_fits(power_sums_scalar(a, 8), todd_parts_scalar(power_sums_scalar(a, 8), 5), 6, m) by {
        if m == 1 {
        } else if m == 2 {
        } else if m == 3 {
        } else if m == 4 {
        } else if m == 5 {
        } else if m == 6 {
        }
    }
    assert(todd_part_fits(a, 8, 6));
    let v6 = seq![1int, 945, 859950, 750141000, 623700567000, 490704735150000, 361822759893000000];
    assert(todd_parts_scalar(ps, 6) =~= v6);
    assert(todd_partial_scalar(ps, v6, 7, 0) == 0);
    assert(ps[0] * v6[6] == 3256404839037000000) by (nonlinear_arith)
        requires
            ps[0] == 9,
            v6[6] == 361822759893000000,
    ;
    assert(ps[0] * v6[6] * (todd_falling(7, 1) * todd_weight(1)) == 341922508098885000000) by (nonlinear_arith)
        requires
            ps[0] * v6[6] == 3256404839037000000,
            todd_falling(7, 1) == 1,
            todd_weight(1) == 105,
    ;
    assert(todd_partial_scalar(ps, v6, 7, 1) == 341922508098885000000);
    assert(todd_step_fits(ps, v6, 7, 1));
    assert(ps[1] * v6[5] == 4416342616350000) by (nonlinear_arith)
        requires
            ps[1] == 9,
            v6[5] == 490704735150000,
    ;
    assert(ps[1] * v6[5] * (todd_falling(7, 2) * todd_weight(2)) == -97380354690517500000) by (nonlinear_arith)
        requires
            ps[1] * v6[5] == 4416342616350000,
            todd_falling(7, 2) == 6,
            todd_weight(2) == -3675,
    ;
    assert(todd_partial_scalar(ps, v6, 7, 2) == 244542153408367500000);
    assert(todd_step_fits(ps, v6, 7, 2));
    assert(ps[2] * v6[4] == 5613305103000) by (nonlinear_arith)
        requires
            ps[2] == 9,
            v6[4] == 623700567000,
    ;
    assert(ps[2] * v6[4] * (todd_falling(7, 3) * todd_weight(3)) == 0) by (nonlinear_arith)
        requires
            ps[2] * v6[4] == 5613305103000,
            todd_falling(7, 3) == 30,
            todd_weight(3) == 0,
    ;
    assert(todd_partial_scalar(ps, v6, 7, 3) == 244542153408367500000);
    assert(todd_step_fits(ps, v6, 7, 3));
    assert(ps[3] * v6[3] == 6751269000) by (nonlinear_arith)
        requires
            ps[3] == 9,
            v6[3] == 750141000,
    ;
    assert(ps[3] * v6[3] * (todd_falling(7, 4) * todd_weight(4)) == 2188322577315000000) by (nonlinear_arith)
        requires
            ps[3] * v6[3] == 6751269000,
            todd_falling(7, 4) == 120,
            todd_weight(4) == 2701125,
    ;
    assert(todd_partial_scalar(ps, v6, 7, 4) == 246730475985682500000);
    assert(todd_step_fits(ps, v6, 7, 4));
    assert(ps[4] * v6[2] == 7739550) by (nonlinear_arith)
        requires
            ps[4] == 9,
            v6[2] == 859950,
    ;
    assert(ps[4] * v6[2] * (todd_falling(7, 5) * todd_weight(5)) == 0) by (nonlinear_arith)
        requires
            ps[4] * v6[2] == 7739550,
            todd_falling(7, 5) == 360,
            todd_weight(5) == 0,
    ;
    assert(todd_partial_scalar(ps, v6, 7, 5) == 246730475985682500000);
    assert(todd_step_fits(ps, v6, 7, 5));
    assert(ps[5] * v6[1] == 8505) by (nonlinear_arith)
        requires
            ps[5] == 9,
            v6[1] == 945,
    ;
    assert(ps[5] * v6[1] * (todd_falling(7, 6) * todd_weight(6)) == -17367639502500000) by (nonlinear_arith)
        requires
            ps[5] * v6[1] == 8505,
            todd_falling(7, 6) == 720,
            todd_weight(6) == -2836181250,
    ;
    assert(todd_partial_scalar(ps, v6, 7, 6) == 246713108346180000000);
    assert(todd_step_fits(ps, v6, 7, 6));
    assert(ps[6] * v6[0] == 9) by (nonlinear_arith)
        requires
            ps[6] == 9,
            v6[0] == 1,
    ;
    assert(ps[6] * v6[0] * (todd_falling(7, 7) * todd_weight(7)) == 0) by (nonlinear_arith)
        requires
            ps[6] * v6[0] == 9,
            todd_falling(7, 7) == 720,
            todd_weight(7) == 0,
    ;
    assert(todd_partial_scalar(ps, v6, 7, 7) == 246713108346180000000);
    assert(todd_step_fits(ps, v6, 7, 7));
    assert(power_sums_scalar(a, 8) == ps && todd_parts_scalar(ps, 6) == v6);
    assert forall|m: int| 1 <= m <= 7 implies #[trigger] todd_step_fits(power_sums_scalar(a, 8), todd_parts_scalar(power_sums_scalar(a, 8), 6), 7, m) by {
        if m == 1 {
        } else if m == 2 {
        } else if m == 3 {
        } else if m == 4 {
        } else if m == 5 {
        } else if m == 6 {
        } else if m == 7 {
        }
    }
    assert(todd_part_fits(a, 8, 7));
    let v7 = seq![1int, 945, 859950, 750141000, 623700567000, 490704735150000, 361822759893000000, 246713108346180000000];
    assert(todd_parts_scalar(ps, 7) =~= v7);
    assert(todd_partial_scalar(ps, v7, 8, 0) == 0);
    assert(ps[0] * v7[7] == 2220417975115620000000) by (nonlinear_arith)
        requires
            ps[0] == 9,
            v7[7] == 246713108346180000000,
    ;
    assert(ps[0] * v7[7] * (todd_falling(8, 1) * todd_weight(1)) == 233143887387140100000000) by (nonlinear_arith)
        requires
            ps[0] * v7[7] == 2220417975115620000000,
            todd_falling(8, 1) == 1,
            todd_weight(1) == 105,
    ;
    assert(todd_partial_scalar(ps, v7, 8, 1) == 233143887387140100000000);
    assert(todd_step_fits(ps, v7, 8, 1));
    assert(ps[1] * v7[6] == 3256404839037000000) by (nonlinear_arith)
        requires
            ps[1] == 9,
            v7[6] == 361822759893000000,
    ;
    assert(ps[1] * v7[6] * (todd_falling(8, 2) * todd_weight(2)) == -83771014484226825000000) by (nonlinear_arith)
        requires
            ps[1] * v7[6] == 3256404839037000000,
            todd_falling(8, 2) == 7,
            todd_weight(2) == -3675,
    ;
    assert(todd_partial_scalar(ps, v7, 8, 2) == 149372872902913275000000);
    assert(todd_step_fits(ps, v7, 8, 2));
    assert(ps[2] * v7[5] == 4416342616350000) by (nonlinear_arith)
        requires
            ps[2] == 9,
            v7[5] == 490704735150000,
    ;
    assert(ps[2] * v7[5] * (todd_falling(8, 3) * todd_weight(3)) == 0) by (nonlinear_arith)
        requires
            ps[2] * v7[5] == 4416342616350000,
            todd_falling(8, 3) == 42,
            todd_weight(3) == 0,
    ;
    assert(todd_partial_scalar(ps, v7, 8, 3) == 149372872902913275000000);
    assert(todd_step_fits(ps, v7, 8, 3));
    assert(ps[3] * v7[4] == 5613305103000) by (nonlinear_arith)
        requires
            ps[3] == 9,
            v7[4] == 623700567000,
    ;
    assert(ps[3] * v7[4] * (todd_falling(8, 4) * todd_weight(4)) == 3184070136731583750000) by (nonlinear_arith)
        requires
            ps[3] * v7[4] == 5613305103000,
            todd_falling(8, 4) == 210,
            todd_weight(4) == 2701125,
    ;
    assert(todd_partial_scalar(ps, v7, 8, 4) == 152556943039644858750000);
    assert(todd_step_fits(ps, v7, 8, 4));
    assert(ps[4] * v7[3] == 6751269000) by (nonlinear_arith)
        requires
            ps[4] == 9,
            v7[3] == 750141000,
    ;
    assert(ps[4] * v7[3] * (todd_falling(8, 5) * todd_weight(5)) == 0) by (nonlinear_arith)
        requires
            ps[4] * v7[3] == 6751269000,
            todd_falling(8, 5) == 840,
            todd_weight(5) == 0,
    ;
    assert(todd_partial_scalar(ps, v7, 8, 5) == 152556943039644858750000);
    assert(todd_step_fits(ps, v7, 8, 5));
    assert(ps[5] * v7[2] == 7739550) by (nonlinear_arith)
        requires
            ps[5] == 9,
            v7[2] == 859950,
    ;
    assert(ps[5] * v7[2] * (todd_falling(8, 6) * todd_weight(6)) == -55315931815462500000) by (nonlinear_arith)
        requires
            ps[5] * v7[2] == 7739550,
            todd_falling(8, 6) == 2520,
            todd_weight(6) == -2836181250,
    ;
    assert(todd_partial_scalar(ps, v7, 8, 6) == 152501627107829396250000);
    assert(todd_step_fits(ps, v7, 8, 6));
    assert(ps[6] * v7[1] == 8505) by (nonlinear_arith)
        requires
            ps[6] == 9,
            v7[1] == 945,
    ;
    assert(ps[6] * v7[1] * (todd_falling(8, 7) * todd_weight(7)) == 0) by (nonlinear_arith)
        requires
            ps[6] * v7[1] == 8505,
            todd_falling(8, 7) == 5040,
            todd_weight(7) == 0,
    ;
    assert(todd_partial_scalar(ps, v7, 8, 7) == 152501627107829396250000);
    assert(todd_step_fits(ps, v7, 8, 7));
    assert(ps[7] * v7[0] == 9) by (nonlinear_arith)
        requires
            ps[7] == 9,
            v7[0] == 1,
    ;
    assert(ps[7] * v7[0] * (todd_falling(8, 8) * todd_weight(8)) == 141835722603750000) by (nonlinear_arith)
        requires
            ps[7] * v7[0] == 9,
            todd_falling(8, 8) == 5040,
            todd_weight(8) == 3126889828125,
    ;
    assert(todd_partial_scalar(ps, v7, 8, 8) == 152501768943552000000000);
    assert(todd_step_fits(ps, v7, 8, 8));
    assert(power_sums_scalar(a, 8) == ps && todd_parts_scalar(ps, 7) == v7);
    assert forall|m: int| 1 <= m <= 8 implies #[trigger] todd_step_fits(power_sums_scalar(a, 8), todd_parts_scalar(power_sums_scalar(a, 8), 7), 8, m) by {
        if m == 1 {
        } else if m == 2 {
        } else if m == 3 {
        } else if m == 4 {
        } else if m == 5 {
        } else if m == 6 {
        } else if m == 7 {
        } else if m == 8 {
        }
    }
    assert(todd_part_fits(a, 8, 8));
    let v8 = seq![1int, 945, 859950, 750141000, 623700567000, 490704735150000, 361822759893000000, 246713108346180000000, 152501768943552000000000];
    assert(todd_parts_scalar(ps, 8) =~= v8);
    assert(todd_scale(8, 8) == 1);
    assert(todd_scale(8, 7) == todd_scale(8, 8) * 8 * 210);
    assert(todd_scale(8, 7) == 1680);
    assert(todd_scale(8, 6) == todd_scale(8, 7) * 7 * 210);
    assert(todd_scale(8, 6) == 2469600);
    assert(todd_scale(8, 5) == todd_scale(8, 6) * 6 * 210);
    assert(todd_scale(8, 5) == 3111696000);
    assert(todd_scale(8, 4) == todd_scale(8, 5) * 5 * 210);
    assert(todd_scale(8, 4) == 3267280800000);
    assert(todd_scale(8, 3) == todd_scale(8, 4) * 4 * 210);
    assert(todd_scale(8, 3) == 2744515872000000);
    assert(todd_scale(8, 2) == todd_scale(8, 3) * 3 * 210);
    assert(todd_scale(8, 2) == 1729044999360000000);
    assert(todd_scale(8, 1) == todd_scale(8, 2) * 2 * 210);
    assert(todd_scale(8, 1) == 726198899731200000000);
    assert(todd_scale(8, 0) == todd_scale(8, 1) * 1 * 210);
    assert(todd_scale(8, 0) == 152501768943552000000000);
    assert(v8[0] * todd_scale(8, 0) == 152501768943552000000000) by (nonlinear_arith)
        requires
            v8[0] == 1,
            todd_scale(8, 0) == 152501768943552000000000,
    ;
    assert(v8[1] * todd_scale(8, 1) == 686257960245984000000000) by (nonlinear_arith)
        requires
            v8[1] == 945,
            todd_scale(8, 1) == 726198899731200000000,
    ;
    assert(v8[2] * todd_scale(8, 2) == 1486892247199632000000000) by (nonlinear_arith)
        requires
            v8[2] == 859950,
            todd_scale(8, 2) == 1729044999360000000,
    ;
    assert(v8[3] * todd_scale(8, 3) == 2058773880737952000000000) by (nonlinear_arith)
        requires
            v8[3] == 750141000,
            todd_scale(8, 3) == 2744515872000000,
    ;
    assert(v8[4] * todd_scale(8, 4) == 2037804887508213600000000) by (nonlinear_arith)
        requires
            v8[4] == 623700567000,
            todd_scale(8, 4) == 3267280800000,
    ;
    assert(v8[5] * todd_scale(8, 5) == 1526923961547314400000000) by (nonlinear_arith)
        requires
            v8[5] == 490704735150000,
            todd_scale(8, 5) == 3111696000,
    ;
    assert(v8[6] * todd_scale(8, 6) == 893557487831752800000000) by (nonlinear_arith)
        requires
            v8[6] == 361822759893000000,
            todd_scale(8, 6) == 2469600,
    ;
    assert(v8[7] * todd_scale(8, 7) == 414478022021582400000000) by (nonlinear_arith)
        requires
            v8[7] == 246713108346180000000,
            todd_scale(8, 7) == 1680,
    ;
    assert(v8[8] * todd_scale(8, 8) == 152501768943552000000000) by (nonlinear_arith)
        requires
            v8[8] == 152501768943552000000000,
            todd_scale(8, 8) == 1,
    ;
    assert forall|t: int| 0 <= t <= 8 implies fits_int(#[trigger] todd_parts_scalar(power_sums_scalar(a, 8), 8)[t] * todd_scale(8, t as nat)) by {
        assert(todd_parts_scalar(power_sums_scalar(a, 8), 8) == v8);
        if t == 0 {
        } else if t == 1 {
        } else if t == 2 {
        } else if t == 3 {
        } else if t == 4 {
        } else if t == 5 {
        } else if t == 6 {
        } else if t == 7 {
        } else if t == 8 {
        }
    }
    assert forall|j: int| 1 <= j <= 8 implies #[trigger] newton_fits(a, j) by {
        if j == 1 {
        } else if j == 2 {
        } else if j == 3 {
        } else if j == 4 {
        } else if j == 5 {
        } else if j == 6 {
        } else if j == 7 {
        } else if j == 8 {
        }
    }
    assert forall|k: int| 1 <= k <= 8 implies #[trigger] todd_part_fits(a, 8, k) by {
        if k == 1 {
        } else if k == 2 {
        } else if k == 3 {
        } else if k == 4 {
        } else if k == 5 {
        } else if k == 6 {
        } else if k == 7 {
        } else if k == 8 {
        }
    }
}

/// The Todd class of `CP^9` on its coefficients: its genus is `1`, and
/// every step fits.
proof fn lemma_genus_cp9()
    ensures
        todd_parts_scalar(power_sums_scalar(cp_coeffs(9), 9), 9)[9] * todd_scale(9, 9) == todd_scale(9, 0),
        todd_fits(cp_coeffs(9), 9),
{
    assert(binomial(1, 0) == 1);
    assert(binomial(1, 1) == 1);
    assert(binomial(2, 0) == 1);
    assert(binomial(2, 1) == 2);
    assert(binomial(2, 2) == 1);
    assert(binomial(3, 0) == 1);
    assert(binomial(3, 1) == 3);
    assert(binomial(3, 2) == 3);
    assert(binomial(3, 3) == 1);
    assert(binomial(4, 0) == 1);
    assert(binomial(4, 1) == 4);
    assert(binomial(4, 2) == 6);
    assert(binomial(4, 3) == 4);
    assert(binomial(4, 4) == 1);
    assert(binomial(5, 0) == 1);
    assert(binomial(5, 1) == 5);
    assert(binomial(5, 2) == 10);
    assert(binomial(5, 3) == 10);
    assert(binomial(5, 4) == 5);
    assert(binomial(5, 5) == 1);
    assert(binomial(6, 0) == 1);
    assert(binomial(6, 1) == 6);
    assert(binomial(6, 2) == 15);
    assert(binomial(6, 3) == 20);
    assert(binomial(6, 4) == 15);
    assert(binomial(6, 5) == 6);
    assert(binomial(6, 6) == 1);
    assert(binomial(7, 0) == 1);
    assert(binomial(7, 1) == 7);
    assert(binomial(7, 2) == 21);
    assert(binomial(7, 3) == 35);
    assert(binomial(7, 4) == 35);
    assert(binomial(7, 5) == 21);
    assert(binomial(7, 6) == 7);
    assert(binomial(7, 7) == 1);
    assert(binomial(8, 0) == 1);
    assert(binomial(8, 1) == 8);
    assert(binomial(8, 2) == 28);
    assert(binomial(8, 3) == 56);
    assert(binomial(8, 4) == 70);
    assert(binomial(8, 5) == 56);
    assert(binomial(8, 6) == 28);
    assert(binomial(8, 7) == 8);
    assert(binomial(8, 8) == 1);
    assert(binomial(9, 0) == 1);
    assert(binomial(9, 1) == 9);
    assert(binomial(9, 2) == 36);
    assert(binomial(9, 3) == 84);
    assert(binomial(9, 4) == 126);
    assert(binomial(9, 5) == 126);
    assert(binomial(9, 6) == 84);
    assert(binomial(9, 7) == 36);
    assert(binomial(9, 8) == 9);
    assert(binomial(9, 9) == 1);
    assert(binomial(10, 0) == 1);
    assert(binomial(10, 1) == 10);
    assert(binomial(10, 2) == 45);
    assert(binomial(10, 3) == 120);
    assert(binomial(10, 4) == 210);
    assert(binomial(10, 5) == 252);
    assert(binomial(10, 6) == 210);
    assert(binomial(10, 7) == 120);
    assert(binomial(10, 8) == 45);
    assert(binomial(10, 9) == 10);
    assert(binomial(10, 10) == 1);
    let a = cp_coeffs(9);
    assert(a =~= seq![1int, 10, 45, 120, 210, 252, 210, 120, 45, 10]);
    assert(coeff(a, 0) == 1);
    assert(coeff(a, 1) == 10);
    assert(coeff(a, 2) == 45);
    assert(coeff(a, 3) == 120);
    assert(coeff(a, 4) == 210);
    assert(coeff(a, 5) == 252);
    assert(coeff(a, 6) == 210);
    assert(coeff(a, 7) == 120);
    assert(coeff(a, 8) == 45);
    assert(coeff(a, 9) == 10);
    let p0 = Seq::<int>::empty();
    assert(power_sums_scalar(a, 0) =~= p0);
    assert(coeff(a, 1) * (alt_sign(1) * 1) == 10) by (nonlinear_arith)
        requires
            coeff(a, 1) == 10,
            alt_sign(1) == 1,
    ;
    assert(newton_scalar(a, p0, 1, 0) == 10);
    assert(power_sums_scalar(a, 0) == p0);
    assert(newton_fits(a, 1));
    let p1 = seq![10int];
    assert(power_sums_scalar(a, 1) =~= p1);
    assert(coeff(a, 2) * (alt_sign(2) * 2) == -90) by (nonlinear_arith)
        requires
            coeff(a, 2) == 45,
            alt_sign(2) == -1,
    ;
    assert(newton_scalar(a, p1, 2, 0) == -90);
    assert(coeff(a, 1) * p1[0] == 100) by (nonlinear_arith)
        requires
            coeff(a, 1) == 10,
            p1[0] == 10,
    ;
    assert(coeff(a, 1) * p1[0] * alt_sign(1) == 100) by (nonlinear_arith)
        requires
            coeff(a, 1) * p1[0] == 100,
            alt_sign(1) == 1,
    ;
    assert(newton_scalar(a, p1, 2, 1) == 10);
    assert(newton_step_fits(a, p1, 2, 1));
    assert(power_sums_scalar(a, 1) == p1);
    assert forall|m: int| 1 <= m < 2 implies #[trigger] newton_step_fits(a, power_sums_scalar(a, 1), 2, m) by {
        if m == 1 {
        }
    }
    assert(newton_fits(a, 2));
    let p2 = seq![10int, 10];
    assert(power_sums_scalar(a, 2) =~= p2);
    assert(coeff(a, 3) * (alt_sign(3) * 3) == 360) by (nonlinear_arith)
        requires
            coeff(a, 3) == 120,
            alt_sign(3) == 1,
    ;
    assert(newton_scalar(a, p2, 3, 0) == 360);
    assert(coeff(a, 1) * p2[1] == 100) by (nonlinear_arith)
        requires
            coeff(a, 1) == 10,
            p2[1] == 10,
    ;
    assert(coeff(a, 1) * p2[1] * alt_sign(1) == 100) by (nonlinear_arith)
        requires
            coeff(a, 1) * p2[1] == 100,
            alt_sign(1) == 1,
    ;
    assert(newton_scalar(a, p2, 3, 1) == 460);
    assert(newton_step_fits(a, p2, 3, 1));
    assert(coeff(a, 2) * p2[0] == 450) by (nonlinear_arith)
        requires
            coeff(a, 2) == 45,
            p2[0] == 10,
    ;
    assert(coeff(a, 2) * p2[0] * alt_sign(2) == -450) by (nonlinear_arith)
        requires
            coeff(a, 2) * p2[0] == 450,
            alt_sign(2) == -1,
    ;
    assert(newton_scalar(a, p2, 3, 2) == 10);
    assert(newton_step_fits(a, p2, 3, 2));
    assert(power_sums_scalar(a, 2) == p2);
    assert forall|m: int| 1 <= m < 3 implies #[trigger] newton_step_fits(a, power_sums_scalar(a, 2), 3, m) by {
        if m == 1 {
        } else if m == 2 {
        }
    }
    assert(newton_fits(a, 3));
    let p3 = seq![10int, 10, 10];
    assert(power_sums_scalar(a, 3) =~= p3);
    assert(coeff(a, 4) * (alt_sign(4) * 4) == -840) by (nonlinear_arith)
        requires
            coeff(a, 4) == 210,
            alt_sign(4) == -1,
    ;
    assert(newton_scalar(a, p3, 4, 0) == -840);
    assert(coeff(a, 1) * p3[2] == 100) by (nonlinear_arith)
        requires
            coeff(a, 1) == 10,
            p3[2] == 10,
    ;
    assert(coeff(a, 1) * p3[2] * alt_sign(1) == 100) by (nonlinear_arith)
        requires
            coeff(a, 1) * p3[2] == 100,
            alt_sign(1) == 1,
    ;
    assert(newton_scalar(a, p3, 4, 1) == -740);
    assert(newton_step_fits(a, p3, 4, 1));
    assert(coeff(a, 2) * p3[1] == 450) by (nonlinear_arith)
        requires
            coeff(a, 2) == 45,
            p3[1] == 10,
    ;
    assert(coeff(a, 2) * p3[1] * alt_sign(2) == -450) by (nonlinear_arith)
        requires
            coeff(a, 2) * p3[1] == 450,
            alt_sign(2) == -1,
    ;
    assert(newton_scalar(a, p3, 4, 2) == -1190);
    assert(newton_step_fits(a, p3, 4, 2));
    assert(coeff(a, 3) * p3[0] == 1200) by (nonlinear_arith)
        requires
            coeff(a, 3) == 120,
            p3[0] == 10,
    ;
    assert(coeff(a, 3) * p3[0] * alt_sign(3) == 1200) by (nonlinear_arith)
        requires
            coeff(a, 3) * p3[0] == 1200,
            alt_sign(3) == 1,
    ;
    assert(newton_scalar(a, p3, 4, 3) == 10);
    assert(newton_step_fits(a, p3, 4, 3));
    assert(power_sums_scalar(a, 3) == p3);
    assert forall|m: int| 1 <= m < 4 implies #[trigger] newton_step_fits(a, power_sums_scalar(a, 3), 4, m) by {
        if m == 1 {
        } else if m == 2 {
        } else if m == 3 {
        }
    }
    assert(newton_fits(a, 4));
    let p4 = seq![10int, 10, 10, 10];
    assert(power_sums_scalar(a, 4) =~= p4);
    assert(coeff(a, 5) * (alt_sign(5) * 5) == 1260) by (nonlinear_arith)
        requires
            coeff(a, 5) == 252,
            alt_sign(5) == 1,
    ;
    assert(newton_scalar(a, p4, 5, 0) == 1260);
    assert(coeff(a, 1) * p4[3] == 100) by (nonlinear_arith)
        requires
            coeff(a, 1) == 10,
            p4[3] == 10,
    ;
    assert(coeff(a, 1) * p4[3] * alt_sign(1) == 100) by (nonlinear_arith)
        requires
            coeff(a, 1) * p4[3] == 100,
            alt_sign(1) == 1,
    ;
    assert(newton_scalar(a, p4, 5, 1) == 1360);
    assert(newton_step_fits(a, p4, 5, 1));
    assert(coeff(a, 2) * p4[2] == 450) by (nonlinear_arith)
        requires
            coeff(a, 2) == 45,
            p4[2] == 10,
    ;
    assert(coeff(a, 2) * p4[2] * alt_sign(2) == -450) by (nonlinear_arith)
        requires
            coeff(a, 2) * p4[2] == 450,
            alt_sign(2) == -1,
    ;
    assert(newton_scalar(a, p4, 5, 2) == 910);
    assert(newton_step_fits(a, p4, 5, 2));
    assert(coeff(a, 3) * p4[1] == 1200) by (nonlinear_arith)
        requires
            coeff(a, 3) == 120,
            p4[1] == 10,
    ;
    assert(coeff(a, 3) * p4[1] * alt_sign(3) == 1200) by (nonlinear_arith)
        requires
            coeff(a, 3) * p4[1] == 1200,
            alt_sign(3) == 1,
    ;
    assert(newton_scalar(a, p4, 5, 3) == 2110);
    assert(newton_step_fits(a, p4, 5, 3));
    assert(coeff(a, 4) * p4[0] == 2100) by (nonlinear_arith)
        requires
            coeff(a, 4) == 210,
            p4[0] == 10,
    ;
    assert(coeff(a, 4) * p4[0] * alt_sign(4) == -2100) by (nonlinear_arith)
        requires
            coeff(a, 4) * p4[0] == 2100,
            alt_sign(4) == -1,
    ;
    assert(newton_scalar(a, p4, 5, 4) == 10);
    assert(newton_step_fits(a, p4, 5, 4));
    assert(power_sums_scalar(a, 4) == p4);
    assert forall|m: int| 1 <= m < 5 implies #[trigger] newton_step_fits(a, power_sums_scalar(a, 4), 5, m) by {
        if m == 1 {
        } else if m == 2 {
        } else if m == 3 {
        } else if m == 4 {
        }
    }
    assert(newton_fits(a, 5));
    let p5 = seq![10int, 10, 10, 10, 10];
    assert(power_sums_scalar(a, 5) =~= p5);
    assert(coeff(a, 6) * (alt_sign(6) * 6) == -1260) by (nonlinear_arith)
        requires
            coeff(a, 6) == 210,
            alt_sign(6) == -1,
    ;
    assert(newton_scalar(a, p5, 6, 0) == -1260);
    assert(coeff(a, 1) * p5[4] == 100) by (nonlinear_arith)
        requires
            coeff(a, 1) == 10,
            p5[4] == 10,
    ;
    assert(coeff(a, 1) * p5[4] * alt_sign(1) == 100) by (nonlinear_arith)
        requires
            coeff(a, 1) * p5[4] == 100,
            alt_sign(1) == 1,
    ;
    assert(newton_scalar(a, p5, 6, 1) == -1160);
    assert(newton_step_fits(a, p5, 6, 1));
    assert(coeff(a, 2) * p5[3] == 450) by (nonlinear_arith)
        requires
            coeff(a, 2) == 45,
            p5[3] == 10,
    ;
    assert(coeff(a, 2) * p5[3] * alt_sign(2) == -450) by (nonlinear_arith)
        requires
            coeff(a, 2) * p5[3] == 450,
            alt_sign(2) == -1,
    ;
    assert(newton_scalar(a, p5, 6, 2) == -1610);
    assert(newton_step_fits(a, p5, 6, 2));
    assert(coeff(a, 3) * p5[2] == 1200) by (nonlinear_arith)
        requires
            coeff(a, 3) == 120,
            p5[2] == 10,
    ;
    assert(coeff(a, 3) * p5[2] * alt_sign(3) == 1200) by (nonlinear_arith)
        requires
            coeff(a, 3) * p5[2] == 1200,
            alt_sign(3) == 1,
    ;
    assert(newton_scalar(a, p5, 6, 3) == -410);
    assert(newton_step_fits(a, p5, 6, 3));
    assert(coeff(a, 4) * p5[1] == 2100) by (nonlinear_arith)
        requires
            coeff(a, 4) == 210,
            p5[1] == 10,
    ;
    assert(coeff(a, 4) * p5[1] * alt_sign(4) == -2100) by (nonlinear_arith)
        requires
            coeff(a, 4) * p5[1] == 2100,
            alt_sign(4) == -1,
    ;
    assert(newton_scalar(a, p5, 6, 4) == -2510);
    assert(newton_step_fits(a, p5, 6, 4));
    assert(coeff(a, 5) * p5[0] == 2520) by (nonlinear_arith)
        requires
            coeff(a, 5) == 252,
            p5[0] == 10,
    ;
    assert(coeff(a, 5) * p5[0] * alt_sign(5) == 2520) by (nonlinear_arith)
        requires
            coeff(a, 5) * p5[0] == 2520,
            alt_sign(5) == 1,
    ;
    assert(newton_scalar(a, p5, 6, 5) == 10);
    assert(newton_step_fits(a, p5, 6, 5));
    assert(power_sums_scalar(a, 5) == p5);
    assert forall|m: int| 1 <= m < 6 implies #[trigger] newton_step_fits(a, power_sums_scalar(a, 5), 6, m) by {
        if m == 1 {
        } else if m == 2 {
        } else if m == 3 {
        } else if m == 4 {
        } else if m == 5 {
        }
    }
    assert(newton_fits(a, 6));
    let p6 = seq![10int, 10, 10, 10, 10, 10];
    assert(power_sums_scalar(a, 6) =~= p6);
    assert(coeff(a, 7) * (alt_sign(7) * 7) == 840) by (nonlinear_arith)
        requires
            coeff(a, 7) == 120,
            alt_sign(7) == 1,
    ;
    assert(newton_scalar(a, p6, 7, 0) == 840);
    assert(coeff(a, 1) * p6[5] == 100) by (nonlinear_arith)
        requires
            coeff(a, 1) == 10,
            p6[5] == 10,
    ;
    assert(coeff(a, 1) * p6[5] * alt_sign(1) == 100) by (nonlinear_arith)
        requires
            coeff(a, 1) * p6[5] == 100,
            alt_sign(1) == 1,
    ;
    assert(newton_scalar(a, p6, 7, 1) == 940);
    assert(newton_step_fits(a, p6, 7, 1));
    assert(coeff(a, 2) * p6[4] == 450) by (nonlinear_arith)
        requires
            coeff(a, 2) == 45,
            p6[4] == 10,
    ;
    assert(coeff(a, 2) * p6[4] * alt_sign(2) == -450) by (nonlinear_arith)
        requires
            coeff(a, 2) * p6[4] == 450,
            alt_sign(2) == -1,
    ;
    assert(newton_scalar(a, p6, 7, 2) == 490);
    assert(newton_step_fits(a, p6, 7, 2));
    assert(coeff(a, 3) * p6[3] == 1200) by (nonlinear_arith)
        requires
            coeff(a, 3) == 120,
            p6[3] == 10,
    ;
    assert(coeff(a, 3) * p6[3] * alt_sign(3) == 1200) by (nonlinear_arith)
        requires
            coeff(a, 3) * p6[3] == 1200,
            alt_sign(3) == 1,
    ;
    assert(newton_scalar(a, p6, 7, 3) == 1690);
    assert(newton_step_fits(a, p6, 7, 3));
    assert(coeff(a, 4) * p6[2] == 2100) by (nonlinear_arith)
        requires
            coeff(a, 4) == 210,
            p6[2] == 10,
    ;
    assert(coeff(a, 4) * p6[2] * alt_sign(4) == -2100) by (nonlinear_arith)
        requires
            coeff(a, 4) * p6[2] == 2100,
            alt_sign(4) == -1,
    ;
    assert(newton_scalar(a, p6, 7, 4) == -410);
    assert(newton_step_fits(a, p6, 7, 4));
    assert(coeff(a, 5) * p6[1] == 2520) by (nonlinear_arith)
        requires
            coeff(a, 5) == 252,
            p6[1] == 10,
    ;
    assert(coeff(a, 5) * p6[1] * alt_sign(5) == 2520) by (nonlinear_arith)
        requires
            coeff(a, 5) * p6[1] == 2520,
            alt_sign(5) == 1,
    ;
    assert(newton_scalar(a, p6, 7, 5) == 2110);
    assert(newton_step_fits(a, p6, 7, 5));
    assert(coeff(a, 6) * p6[0] == 2100) by (nonlinear_arith)
        requires
            coeff(a, 6) == 210,
            p6[0] == 10,
    ;
    assert(coeff(a, 6) * p6[0] * alt_sign(6) == -2100) by (nonlinear_arith)
        requires
            coeff(a, 6) * p6[0] == 2100,
            alt_sign(6) == -1,
    ;
    assert(newton_scalar(a, p6, 7, 6) == 10);
    assert(newton_step_fits(a, p6, 7, 6));
    assert(power_sums_scalar(a, 6) == p6);
    assert forall|m: int| 1 <= m < 7 implies #[trigger] newton_step_fits(a, power_sums_scalar(a, 6), 7, m) by {
        if m == 1 {
        } else if m == 2 {
        } else if m == 3 {
        } else if m == 4 {
        } else if m == 5 {
        } else if m == 6 {
        }
    }
    assert(newton_fits(a, 7));
    let p7 = seq![10int, 10, 10, 10, 10, 10, 10];
    assert(power_sums_scalar(a, 7) =~= p7);
    assert(coeff(a, 8) * (alt_sign(8) * 8) == -360) by (nonlinear_arith)
        requires
            coeff(a, 8) == 45,
            alt_sign(8) == -1,
    ;
    assert(newton_scalar(a, p7, 8, 0) == -360);
    assert(coeff(a, 1) * p7[6] == 100) by (nonlinear_arith)
        requires
            coeff(a, 1) == 10,
            p7[6] == 10,
    ;
    assert(coeff(a, 1) * p7[6] * alt_sign(1) == 100) by (nonlinear_arith)
        requires
            coeff(a, 1) * p7[6] == 100,
            alt_sign(1) == 1,
    ;
    assert(newton_scalar(a, p7, 8, 1) == -260);
    assert(newton_step_fits(a, p7, 8, 1));
    assert(coeff(a, 2) * p7[5] == 450) by (nonlinear_arith)
        requires
            coeff(a, 2) == 45,
            p7[5] == 10,
    ;
    assert(coeff(a, 2) * p7[5] * alt_sign(2) == -450) by (nonlinear_arith)
        requires
            coeff(a, 2) * p7[5] == 450,
            alt_sign(2) == -1,
    ;
    assert(newton_scalar(a, p7, 8, 2) == -710);
    assert(newton_step_fits(a, p7, 8, 2));
    assert(coeff(a, 3) * p7[4] == 1200) by (nonlinear_arith)
        requires
            coeff(a, 3) == 120,
            p7[4] == 10,
    ;
    assert(coeff(a, 3) * p7[4] * alt_sign(3) == 1200) by (nonlinear_arith)
        requires
            coeff(a, 3) * p7[4] == 1200,
            alt_sign(3) == 1,
    ;
    assert(newton_scalar(a, p7, 8, 3) == 490);
    assert(newton_step_fits(a, p7, 8, 3));
    assert(coeff(a, 4) * p7[3] == 2100) by (nonlinear_arith)
        requires
            coeff(a, 4) == 210,
            p7[3] == 10,
    ;
    assert(coeff(a, 4) * p7[3] * alt_sign(4) == -2100) by (nonlinear_arith)
        requires
            coeff(a, 4) * p7[3] == 2100,
            alt_sign(4) == -1,
    ;
    assert(newton_scalar(a, p7, 8, 4) == -1610);
    assert(newton_step_fits(a, p7, 8, 4));
    assert(coeff(a, 5) * p7[2] == 2520) by (nonlinear_arith)
        requires
            coeff(a, 5) == 252,
            p7[2] == 10,
    ;
    assert(coeff(a, 5) * p7[2] * alt_sign(5) == 2520) by (nonlinear_arith)
        requires
            coeff(a, 5) * p7[2] == 2520,
            alt_sign(5) == 1,
    ;
    assert(newton_scalar(a, p7, 8, 5) == 910);
    assert(newton_step_fits(a, p7, 8, 5));
    assert(coeff(a, 6) * p7[1] == 2100) by (nonlinear_arith)
        requires
            coeff(a, 6) == 210,
            p7[1] == 10,
    ;
    assert(coeff(a, 6) * p7[1] * alt_sign(6) == -2100) by (nonlinear_arith)
        requires
            coeff(a, 6) * p7[1] == 2100,
            alt_sign(6) == -1,
    ;
    assert(newton_scalar(a, p7, 8, 6) == -1190);
    assert(newton_step_fits(a, p7, 8, 6));
    assert(coeff(a, 7) * p7[0] == 1200) by (nonlinear_arith)
        requires
            coeff(a, 7) == 120,
            p7[0] == 10,
    ;
    assert(coeff(a, 7) * p7[0] * alt_sign(7) == 1200) by (nonlinear_arith)
        requires
            coeff(a, 7) * p7[0] == 1200,
            alt_sign(7) == 1,
    ;
    assert(newton_scalar(a, p7, 8, 7) == 10);
    assert(newton_step_fits(a, p7, 8, 7));
    assert(power_sums_scalar(a, 7) == p7);
    assert forall|m: int| 1 <= m < 8 implies #[trigger] newton_step_fits(a, power_sums_scalar(a, 7), 8, m) by {
        if m == 1 {
        } else if m == 2 {
        } else if m == 3 {
        } else if m == 4 {
        } else if m == 5 {
        } else if m == 6 {
        } else if m == 7 {
        }
    }
    assert(newton_fits(a, 8));
    let p8 = seq![10int, 10, 10, 10, 10, 10, 10, 10];
    assert(power_sums_scalar(a, 8) =~= p8);
    assert(coeff(a, 9) * (alt_sign(9) * 9) == 90) by (nonlinear_arith)
        requires
            coeff(a, 9) == 10,
            alt_sign(9) == 1,
    ;
    assert(newton_scalar(a, p8, 9, 0) == 90);
    assert(coeff(a, 1) * p8[7] == 100) by (nonlinear_arith)
        requires
            coeff(a, 1) == 10,
            p8[7] == 10,
    ;
    assert(coeff(a, 1) * p8[7] * alt_sign(1) == 100) by (nonlinear_arith)
        requires
            coeff(a, 1) * p8[7] == 100,
            alt_sign(1) == 1,
    ;
    assert(newton_scalar(a, p8, 9, 1) == 190);
    assert(newton_step_fits(a, p8, 9, 1));
    assert(coeff(a, 2) * p8[6] == 450) by (nonlinear_arith)
        requires
            coeff(a, 2) == 45,
            p8[6] == 10,
    ;
    assert(coeff(a, 2) * p8[6] * alt_sign(2) == -450) by (nonlinear_arith)
        requires
            coeff(a, 2) * p8[6] == 450,
            alt_sign(2) == -1,
    ;
    assert(newton_scalar(a, p8, 9, 2) == -260);
    assert(newton_step_fits(a, p8, 9, 2));
    assert(coeff(a, 3) * p8[5] == 1200) by (nonlinear_arith)
        requires
            coeff(a, 3) == 120,
            p8[5] == 10,
    ;
    assert(coeff(a, 3) * p8[5] * alt_sign(3) == 1200) by (nonlinear_arith)
        requires
            coeff(a, 3) * p8[5] == 1200,
            alt_sign(3) == 1,
    ;
    assert(newton_scalar(a, p8, 9, 3) == 940);
    assert(newton_step_fits(a, p8, 9, 3));
    assert(coeff(a, 4) * p8[4] == 2100) by (nonlinear_arith)
        requires
            coeff(a, 4) == 210,
            p8[4] == 10,
    ;
    assert(coeff(a, 4) * p8[4] * alt_sign(4) == -2100) by (nonlinear_arith)
        requires
            coeff(a, 4) * p8[4] == 2100,
            alt_sign(4) == -1,
    ;
    assert(newton_scalar(a, p8, 9, 4) == -1160);
    assert(newton_step_fits(a, p8, 9, 4));
    assert(coeff(a, 5) * p8[3] == 2520) by (nonlinear_arith)
        requires
            coeff(a, 5) == 252,
            p8[3] == 10,
    ;
    assert(coeff(a, 5) * p8[3] * alt_sign(5) == 2520) by (nonlinear_arith)
        requires
            coeff(a, 5) * p8[3] == 2520,
            alt_sign(5) == 1,
    ;
    assert(newton_scalar(a, p8, 9, 5) == 1360);
    assert(newton_step_fits(a, p8, 9, 5));
    assert(coeff(a, 6) * p8[2] == 2100) by (nonlinear_arith)
        requires
            coeff(a, 6) == 210,
            p8[2] == 10,
    ;
    assert(coeff(a, 6) * p8[2] * alt_sign(6) == -2100) by (nonlinear_arith)
        requires
            coeff(a, 6) * p8[2] == 2100,
            alt_sign(6) == -1,
    ;
    assert(newton_scalar(a, p8, 9, 6) == -740);
    assert(newton_step_fits(a, p8, 9, 6));
    assert(coeff(a, 7) * p8[1] == 1200) by (nonlinear_arith)
        requires
            coeff(a, 7) == 120,
            p8[1] == 10,
    ;
    assert(coeff(a, 7) * p8[1] * alt_sign(7) == 1200) by (nonlinear_arith)
        requires
            coeff(a, 7) * p8[1] == 1200,
            alt_sign(7) == 1,
    ;
    assert(newton_scalar(a, p8, 9, 7) == 460);
    assert(newton_step_fits(a, p8, 9, 7));
    assert(coeff(a, 8) * p8[0] == 450) by (nonlinear_arith)
        requires
            coeff(a, 8) == 45,
            p8[0] == 10,
    ;
    assert(coeff(a, 8) * p8[0] * alt_sign(8) == -450) by (nonlinear_arith)
        requires
            coeff(a, 8) * p8[0] == 450,
            alt_sign(8) == -1,
    ;
    assert(newton_scalar(a, p8, 9, 8) == 10);
    assert(newton_step_fits(a, p8, 9, 8));
    assert(power_sums_scalar(a, 8) == p8);
    assert forall|m: int| 1 <= m < 9 implies #[trigger] newton_step_fits(a, power_sums_scalar(a, 8), 9, m) by {
        if m == 1 {
        } else if m == 2 {
        } else if m == 3 {
        } else if m == 4 {
        } else if m == 5 {
        } else if m == 6 {
        } else if m == 7 {
        } else if m == 8 {
        }
    }
    assert(newton_fits(a, 9));
    let p9 = seq![10int, 10, 10, 10, 10, 10, 10, 10, 10];
    assert(power_sums_scalar(a, 9) =~= p9);
    let ps = p9;
    assert(todd_falling(1, 1) == 1);
    assert(todd_falling(2, 1) == 1);
    assert(todd_falling(2, 2) == 1);
    assert(todd_falling(3, 1) == 1);
    assert(todd_falling(3, 2) == 2);
    assert(todd_falling(3, 3) == 2);
    assert(todd_falling(4, 1) == 1);
    assert(todd_falling(4, 2) == 3);
    assert(todd_falling(4, 3) == 6);
    assert(todd_falling(4, 4) == 6);
    assert(todd_falling(5, 1) == 1);
    assert(todd_falling(5, 2) == 4);
    assert(todd_falling(5, 3) == 12);
    assert(todd_falling(5, 4) == 24);
    assert(todd_falling(5, 5) == 24);
    assert(todd_falling(6, 1) == 1);
    assert(todd_falling(6, 2) == 5);
    assert(todd_falling(6, 3) == 20);
    assert(todd_falling(6, 4) == 60);
    assert(todd_falling(6, 5) == 120);
    assert(todd_falling(6, 6) == 120);
    assert(todd_falling(7, 1) == 1);
    assert(todd_falling(7, 2) == 6);
    assert(todd_falling(7, 3) == 30);
    assert(todd_falling(7, 4) == 120);
    assert(todd_falling(7, 5) == 360);
    assert(todd_falling(7, 6) == 720);
    assert(todd_falling(7, 7) == 720);
    assert(todd_falling(8, 1) == 1);
    assert(todd_falling(8, 2) == 7);
    assert(todd_falling(8, 3) == 42);
    assert(todd_falling(8, 4) == 210);
    assert(todd_falling(8, 5) == 840);
    assert(todd_falling(8, 6) == 2520);
    assert(todd_falling(8, 7) == 5040);
    assert(todd_falling(8, 8) == 5040);
    assert(todd_falling(9, 1) == 1);
    assert(todd_falling(9, 2) == 8);
    assert(todd_falling(9, 3) == 56);
    assert(todd_falling(9, 4) == 336);
    assert(todd_falling(9, 5) == 1680);
    assert(todd_falling(9, 6) == 6720);
    assert(todd_falling(9, 7) == 20160);
    assert(todd_falling(9, 8) == 40320);
    assert(todd_falling(9, 9) == 40320);
    let v0 = seq![1int];
    assert(todd_parts_scalar(ps, 0) =~= v0);
    assert(todd_partial_scalar(ps, v0, 1, 0) == 0);
    assert(ps[0] * v0[0] == 10) by (nonlinear_arith)
        requires
            ps[0] == 10,
            v0[0] == 1,
    ;
    assert(ps[0] * v0[0] * (todd_falling(1, 1) * todd_weight(1)) == 1050) by (nonlinear_arith)
        requires
            ps[0] * v0[0] == 10,
            todd_falling(1, 1) == 1,
            todd_weight(1) == 105,
    ;
    assert(todd_partial_scalar(ps, v0, 1, 1) == 1050);
    assert(todd_step_fits(ps, v0, 1, 1));
    assert(power_sums_scalar(a, 9) == ps && todd_parts_scalar(ps, 0) == v0);
    assert forall|m: int| 1 <= m <= 1 implies #[trigger] todd_step_fits(power_sums_scalar(a, 9), todd_parts_scalar(power_sums_scalar(a, 9), 0), 1, m) by {
        if m == 1 {
        }
    }
    assert(todd_part_fits(a, 9, 1));
    let v1 = seq![1int, 1050];
    assert(todd_parts_scalar(ps, 1) =~= v1);
    assert(todd_partial_scalar(ps, v1, 2, 0) == 0);
    assert(ps[0] * v1[1] == 10500) by (nonlinear_arith)
        requires
            ps[0] == 10,
            v1[1] == 1050,
    ;
    assert(ps[0] * v1[1] * (todd_falling(2, 1) * todd_weight(1)) == 1102500) by (nonlinear_arith)
        requires
            ps[0] * v1[1] == 10500,
            todd_falling(2, 1) == 1,
            todd_weight(1) == 105,
    ;
    assert(todd_partial_scalar(ps, v1, 2, 1) == 1102500);
    assert(todd_step_fits(ps, v1, 2, 1));
    assert(ps[1] * v1[0] == 10) by (nonlinear_arith)
        requires
            ps[1] == 10,
            v1[0] == 1,
    ;
    assert(ps[1] * v1[0] * (todd_falling(2, 2) * todd_weight(2)) == -36750) by (nonlinear_arith)
        requires
            ps[1] * v1[0] == 10,
            todd_falling(2, 2) == 1,
            todd_weight(2) == -3675,
    ;
    assert(todd_partial_scalar(ps, v1, 2, 2) == 1065750);
    assert(todd_step_fits(ps, v1, 2, 2));
    assert(power_sums_scalar(a, 9) == ps && todd_parts_scalar(ps, 1) == v1);
    assert forall|m: int| 1 <= m <= 2 implies #[trigger] todd_step_fits(power_sums_scalar(a, 9), todd_parts_scalar(power_sums_scalar(a, 9), 1), 2, m) by {
        if m == 1 {
        } else if m == 2 {
        }
    }
    assert(todd_part_fits(a, 9, 2));
    let v2 = seq![1int, 1050, 1065750];
    assert(todd_parts_scalar(ps, 2) =~= v2);
    assert(todd_partial_scalar(ps, v2, 3, 0) == 0);
    assert(ps[0] * v2[2] == 10657500) by (nonlinear_arith)
        requires
            ps[0] == 10,
            v2[2] == 1065750,
    ;
    assert(ps[0] * v2[2] * (todd_falling(3, 1) * todd_weight(1)) == 1119037500) by (nonlinear_arith)
        requires
            ps[0] * v2[2] == 10657500,
            todd_falling(3, 1) == 1,
            todd_weight(1) == 105,
    ;
    assert(todd_partial_scalar(ps, v2, 3, 1) == 1119037500);
    assert(todd_step_fits(ps, v2, 3, 1));
    assert(ps[1] * v2[1] == 10500) by (nonlinear_arith)
        requires
            ps[1] == 10,
            v2[1] == 1050,
    ;
    assert(ps[1] * v2[1] * (todd_falling(3, 2) * todd_weight(2)) == -77175000) by (nonlinear_arith)
        requires
            ps[1] * v2[1] == 10500,
            todd_falling(3, 2) == 2,
            todd_weight(2) == -3675,
    ;
    assert(todd_partial_scalar(ps, v2, 3, 2) == 1041862500);
    assert(todd_step_fits(ps, v2, 3, 2));
    assert(ps[2] * v2[0] == 10) by (nonlinear_arith)
        requires
            ps[2] == 10,
            v2[0] == 1,
    ;
    assert(ps[2] * v2[0] * (todd_falling(3, 3) * todd_weight(3)) == 0) by (nonlinear_arith)
        requires
            ps[2] * v2[0] == 10,
            todd_falling(3, 3) == 2,
            todd_weight(3) == 0,
    ;
    assert(todd_partial_scalar(ps, v2, 3, 3) == 1041862500);
    assert(todd_step_fits(ps, v2, 3, 3));
    assert(power_sums_scalar(a, 9) == ps && todd_parts_scalar(ps, 2) == v2);
    assert forall|m: int| 1 <= m <= 3 implies #[trigger] todd_step_fits(power_sums_scalar(a, 9), todd_parts_scalar(power_sums_scalar(a, 9), 2), 3, m) by {
        if m == 1 {
        } else if m == 2 {
        } else if m == 3 {
        }
    }
    assert(todd_part_fits(a, 9, 3));
    let v3 = seq![1int, 1050, 1065750, 1041862500];
    assert(todd_parts_scalar(ps, 3) =~= v3);
    assert(todd_partial_scalar(ps, v3, 4, 0) == 0);
    assert(ps[0] * v3[3] == 10418625000) by (nonlinear_arith)
        requires
            ps[0] == 10,
            v3[3] == 1041862500,
    ;
    assert(ps[0] * v3[3] * (todd_falling(4, 1) * todd_weight(1)) == 1093955625000) by (nonlinear_arith)
        requires
            ps[0] * v3[3] == 10418625000,
            todd_falling(4, 1) == 1,
            todd_weight(1) == 105,
    ;
    assert(todd_partial_scalar(ps, v3, 4, 1) == 1093955625000);
    assert(todd_step_fits(ps, v3, 4, 1));
    assert(ps[1] * v3[2] == 10657500) by (nonlinear_arith)
        requires
            ps[1] == 10,
            v3[2] == 1065750,
    ;
    assert(ps[1] * v3[2] * (todd_falling(4, 2) * todd_weight(2)) == -117498937500) by (nonlinear_arith)
        requires
            ps[1] * v3[2] == 10657500,
            todd_falling(4, 2) == 3,
            todd_weight(2) == -3675,
    ;
    assert(todd_partial_scalar(ps, v3, 4, 2) == 976456687500);
    assert(todd_step_fits(ps, v3, 4, 2));
    assert(ps[2] * v3[1] == 10500) by (nonlinear_arith)
        requires
            ps[2] == 10,
            v3[1] == 1050,
    ;
    assert(ps[2] * v3[1] * (todd_falling(4, 3) * todd_weight(3)) == 0) by (nonlinear_arith)
        requires
            ps[2] * v3[1] == 10500,
            todd_falling(4, 3) == 6,
            todd_weight(3) == 0,
    ;
    assert(todd_partial_scalar(ps, v3, 4, 3) == 976456687500);
    assert(todd_step_fits(ps, v3, 4, 3));
    assert(ps[3] * v3[0] == 10) by (nonlinear_arith)
        requires
            ps[3] == 10,
            v3[0] == 1,
    ;
    assert(ps[3] * v3[0] * (todd_falling(4, 4) * todd_weight(4)) == 162067500) by (nonlinear_arith)
        requires
            ps[3] * v3[0] == 10,
            todd_falling(4, 4) == 6,
            todd_weight(4) == 2701125,
    ;
    assert(todd_partial_scalar(ps, v3, 4, 4) == 976618755000);
    assert(todd_step_fits(ps, v3, 4, 4));
    assert(power_sums_scalar(a, 9) == ps && todd_parts_scalar(ps, 3) == v3);
    assert forall|m: int| 1 <= m <= 4 implies #[trigger] todd_step_fits(power_sums_scalar(a, 9), todd_parts_scalar(power_sums_scalar(a, 9), 3), 4, m) by {
        if m == 1 {
        } else if m == 2 {
        } else if m == 3 {
        } else if m == 4 {
        }
    }
    assert(todd_part_fits(a, 9, 4));
    let v4 = seq![1int, 1050, 1065750, 1041862500, 976618755000];
    assert(todd_parts_scalar(ps, 4) =~= v4);
    assert(todd_partial_scalar(ps, v4, 5, 0) == 0);
    assert(ps[0] * v4[4] == 9766187550000) by (nonlinear_arith)
        requires
            ps[0] == 10,
            v4[4] == 976618755000,
    ;
    assert(ps[0] * v4[4] * (todd_falling(5, 1) * todd_weight(1)) == 1025449692750000) by (nonlinear_arith)
        requires
            ps[0] * v4[4] == 9766187550000,
            todd_falling(5, 1) == 1,
            todd_weight(1) == 105,
    ;
    assert(todd_partial_scalar(ps, v4, 5, 1) == 1025449692750000);
    assert(todd_step_fits(ps, v4, 5, 1));
    assert(ps[1] * v4[3] == 10418625000) by (nonlinear_arith)
        requires
            ps[1] == 10,
            v4[3] == 1041862500,
    ;
    assert(ps[1] * v4[3] * (todd_falling(5, 2) * todd_weight(2)) == -153153787500000) by (nonlinear_arith)
        requires
            ps[1] * v4[3] == 10418625000,
            todd_falling(5, 2) == 4,
            todd_weight(2) == -3675,
    ;
    assert(todd_partial_scalar(ps, v4, 5, 2) == 872295905250000);
    assert(todd_step_fits(ps, v4, 5, 2));
    assert(ps[2] * v4[2] == 10657500) by (nonlinear_arith)
        requires
            ps[2] == 10,
            v4[2] == 1065750,
    ;
    assert(ps[2] * v4[2] * (todd_falling(5, 3) * todd_weight(3)) == 0) by (nonlinear_arith)
        requires
            ps[2] * v4[2] == 10657500,
            todd_falling(5, 3) == 12,
            todd_weight(3) == 0,
    ;
    assert(todd_partial_scalar(ps, v4, 5, 3) == 872295905250000);
    assert(todd_step_fits(ps, v4, 5, 3));
    assert(ps[3] * v4[1] == 10500) by (nonlinear_arith)
        requires
            ps[3] == 10,
            v4[1] == 1050,
    ;
    assert(ps[3] * v4[1] * (todd_falling(5, 4) * todd_weight(4)) == 680683500000) by (nonlinear_arith)
        requires
            ps[3] * v4[1] == 10500,
            todd_falling(5, 4) == 24,
            todd_weight(4) == 2701125,
    ;
    assert(todd_partial_scalar(ps, v4, 5, 4) == 872976588750000);
    assert(todd_step_fits(ps, v4, 5, 4));
    assert(ps[4] * v4[0] == 10) by (nonlinear_arith)
        requires
            ps[4] == 10,
            v4[0] == 1,
    ;
    assert(ps[4] * v4[0] * (todd_falling(5, 5) * todd_weight(5)) == 0) by (nonlinear_arith)
        requires
            ps[4] * v4[0] == 10,
            todd_falling(5, 5) == 24,
            todd_weight(5) == 0,
    ;
    assert(todd_partial_scalar(ps, v4, 5, 5) == 872976588750000);
    assert(todd_step_fits(ps, v4, 5, 5));
    assert(power_sums_scalar(a, 9) == ps && todd_parts_scalar(ps, 4) == v4);
    assert forall|m: int| 1 <= m <= 5 implies #[trigger] todd_step_fits(power_sums_scalar(a, 9), todd_parts_scalar(power_sums_scalar(a, 9), 4), 5, m) by {
        if m == 1 {
        } else if m == 2 {
        } else if m == 3 {
        } else if m == 4 {
        } else if m == 5 {
        }
    }
    assert(todd_part_fits(a, 9, 5));
    let v5 = seq![1int, 1050, 1065750, 1041862500, 976618755000, 872976588750000];
    assert(todd_parts_scalar(ps, 5) =~= v5);
    assert(todd_partial_scalar(ps, v5, 6, 0) == 0);
    assert(ps[0] * v5[5] == 8729765887500000) by (nonlinear_arith)
        requires
            ps[0] == 10,
            v5[5] == 872976588750000,
    ;
    assert(ps[0] * v5[5] * (todd_falling(6, 1) * todd_weight(1)) == 916625418187500000) by (nonlinear_arith)
        requires
            ps[0] * v5[5] == 8729765887500000,
            todd_falling(6, 1) == 1,
            todd_weight(1) == 105,
    ;
    assert(todd_partial_scalar(ps, v5, 6, 1) == 916625418187500000);
    assert(todd_step_fits(ps, v5, 6, 1));
    assert(ps[1] * v5[4] == 9766187550000) by (nonlinear_arith)
        requires
            ps[1] == 10,
            v5[4] == 976618755000,
    ;
    assert(ps[1] * v5[4] * (todd_falling(6, 2) * todd_weight(2)) == -179453696231250000) by (nonlinear_arith)
        requires
            ps[1] * v5[4] == 9766187550000,
            todd_falling(6, 2) == 5,
            todd_weight(2) == -3675,
    ;
    assert(todd_partial_scalar(ps, v5, 6, 2) == 737171721956250000);
    assert(todd_step_fits(ps, v5, 6, 2));
    assert(ps[2] * v5[3] == 10418625000) by (nonlinear_arith)
        requires
            ps[2] == 10,
            v5[3] == 1041862500,
    ;
    assert(ps[2] * v5[3] * (todd_falling(6, 3) * todd_weight(3)) == 0) by (nonlinear_arith)
        requires
            ps[2] * v5[3] == 10418625000,
            todd_falling(6, 3) == 20,
            todd_weight(3) == 0,
    ;
    assert(todd_partial_scalar(ps, v5, 6, 3) == 737171721956250000);
    assert(todd_step_fits(ps, v5, 6, 3));
    assert(ps[3] * v5[2] == 10657500) by (nonlinear_arith)
        requires
            ps[3] == 10,
            v5[2] == 1065750,
    ;
    assert(ps[3] * v5[2] * (todd_falling(6, 4) * todd_weight(4)) == 1727234381250000) by (nonlinear_arith)
        requires
            ps[3] * v5[2] == 10657500,
            todd_falling(6, 4) == 60,
            todd_weight(4) == 2701125,
    ;
    assert(todd_partial_scalar(ps, v5, 6, 4) == 738898956337500000);
    assert(todd_step_fits(ps, v5, 6, 4));
    assert(ps[4] * v5[1] == 10500) by (nonlinear_arith)
        requires
            ps[4] == 10,
            v5[1] == 1050,
    ;
    assert(ps[4] * v5[1] * (todd_falling(6, 5) * todd_weight(5)) == 0) by (nonlinear_arith)
        requires
            ps[4] * v5[1] == 10500,
            todd_falling(6, 5) == 120,
            todd_weight(5) == 0,
    ;
    assert(todd_partial_scalar(ps, v5, 6, 5) == 738898956337500000);
    assert(todd_step_fits(ps, v5, 6, 5));
    assert(ps[5] * v5[0] == 10) by (nonlinear_arith)
        requires
            ps[5] == 10,
            v5[0] == 1,
    ;
    assert(ps[5] * v5[0] * (todd_falling(6, 6) * todd_weight(6)) == -3403417500000) by (nonlinear_arith)
        requires
            ps[5] * v5[0] == 10,
            todd_falling(6, 6) == 120,
            todd_weight(6) == -2836181250,
    ;
    assert(todd_partial_scalar(ps, v5, 6, 6) == 738895552920000000);
    assert(todd_step_fits(ps, v5, 6, 6));
    assert(power_sums_scalar(a, 9) == ps && todd_parts_scalar(ps, 5) == v5);
    assert forall|m: int| 1 <= m <= 6 implies #[trigger] todd_step_fits(power_sums_scalar(a, 9), todd_parts_scalar(power_sums_scalar(a, 9), 5), 6, m) by {
        if m == 1 {
        } else if m == 2 {
        } else if m == 3 {
        } else if m == 4 {
        } else if m == 5 {
        } else if m == 6 {
        }
    }
    assert(todd_part_fits(a, 9, 6));
    let v6 = seq![1int, 1050, 1065750, 1041862500, 976618755000, 872976588750000, 738895552920000000];
    assert(todd_parts_scalar(ps, 6) =~= v6);
    assert(todd_partial_scalar(ps, v6, 7, 0) == 0);
    assert(ps[0] * v6[6] == 7388955529200000000) by (nonlinear_arith)
        requires
            ps[0] == 10,
            v6[6] == 738895552920000000,
    ;
    assert(ps[0] * v6[6] * (todd_falling(7, 1) * todd_weight(1)) == 775840330566000000000) by (nonlinear_arith)
        requires
            ps[0] * v6[6] == 7388955529200000000,
            todd_falling(7, 1) == 1,
            todd_weight(1) == 105,
    ;
    assert(todd_partial_scalar(ps, v6, 7, 1) == 775840330566000000000);
    assert(todd_step_fits(ps, v6, 7, 1));
    assert(ps[1] * v6[5] == 8729765887500000) by (nonlinear_arith)
        requires
            ps[1] == 10,
            v6[5] == 872976588750000,
    ;
    assert(ps[1] * v6[5] * (todd_falling(7, 2) * todd_weight(2)) == -192491337819375000000) by (nonlinear_arith)
        requires
            ps[1] * v6[5] == 8729765887500000,
            todd_falling(7, 2) == 6,
            todd_weight(2) == -3675,
    ;
    assert(todd_partial_scalar(ps, v6, 7, 2) == 583348992746625000000);
    assert(todd_step_fits(ps, v6, 7, 2));
    assert(ps[2] * v6[4] == 9766187550000) by (nonlinear_arith)
        requires
            ps[2] == 10,
            v6[4] == 976618755000,
    ;
    assert(ps[2] * v6[4] * (todd_falling(7, 3) * todd_weight(3)) == 0) by (nonlinear_arith)
        requires
            ps[2] * v6[4] == 9766187550000,
            todd_falling(7, 3) == 30,
            todd_weight(3) == 0,
    ;
    assert(todd_partial_scalar(ps, v6, 7, 3) == 583348992746625000000);
    assert(todd_step_fits(ps, v6, 7, 3));
    assert(ps[3] * v6[3] == 10418625000) by (nonlinear_arith)
        requires
            ps[3] == 10,
            v6[3] == 1041862500,
    ;
    assert(ps[3] * v6[3] * (todd_falling(7, 4) * todd_weight(4)) == 3377041014375000000) by (nonlinear_arith)
        requires
            ps[3] * v6[3] == 10418625000,
            todd_falling(7, 4) == 120,
            todd_weight(4) == 2701125,
    ;
    assert(todd_partial_scalar(ps, v6, 7, 4) == 586726033761000000000);
    assert(todd_step_fits(ps, v6, 7, 4));
    assert(ps[4] * v6[2] == 10657500) by (nonlinear_arith)
        requires
            ps[4] == 10,
            v6[2] == 1065750,
    ;
    assert(ps[4] * v6[2] * (todd_falling(7, 5) * todd_weight(5)) == 0) by (nonlinear_arith)
        requires
            ps[4] * v6[2] == 10657500,
            todd_falling(7, 5) == 360,
            todd_weight(5) == 0,
    ;
    assert(todd_partial_scalar(ps, v6, 7, 5) == 586726033761000000000);
    assert(todd_step_fits(ps, v6, 7, 5));
    assert(ps[5] * v6[1] == 10500) by (nonlinear_arith)
        requires
            ps[5] == 10,
            v6[1] == 1050,
    ;
    assert(ps[5] * v6[1] * (todd_falling(7, 6) * todd_weight(6)) == -21441530250000000) by (nonlinear_arith)
        requires
            ps[5] * v6[1] == 10500,
            todd_falling(7, 6) == 720,
            todd_weight(6) == -2836181250,
    ;
    assert(todd_partial_scalar(ps, v6, 7, 6) == 586704592230750000000);
    assert(todd_step_fits(ps, v6, 7, 6));
    assert(ps[6] * v6[0] == 10) by (nonlinear_arith)
        requires
            ps[6] == 10,
            v6[0] == 1,
    ;
    assert(ps[6] * v6[0] * (todd_falling(7, 7) * todd_weight(7)) == 0) by (nonlinear_arith)
        requires
            ps[6] * v6[0] == 10,
            todd_falling(7, 7) == 720,
            todd_weight(7) == 0,
    ;
    assert(todd_partial_scalar(ps, v6, 7, 7) == 586704592230750000000);
    assert(todd_step_fits(ps, v6, 7, 7));
    assert(power_sums_scalar(a, 9) == ps && todd_parts_scalar(ps, 6) == v6);
    assert forall|m: int| 1 <= m <= 7 implies #[trigger] todd_step_fits(power_sums_scalar(a, 9), todd_parts_scalar(power_sums_scalar(a, 9), 6), 7, m) by {
        if m == 1 {
        } else if m == 2 {
        } else if m == 3 {
        } else if m == 4 {
        } else if m == 5 {
        } else if m == 6 {
        } else if m == 7 {
        }
    }
    assert(todd_part_fits(a, 9, 7));
    let v7 = seq![1int, 1050, 1065750, 1041862500, 976618755000, 872976588750000, 738895552920000000, 586704592230750000000];
    assert(todd_parts_scalar(ps, 7) =~= v7);
    assert(todd_partial_scalar(ps, v7, 8, 0) == 0);
    assert(ps[0] * v7[7] == 5867045922307500000000) by (nonlinear_arith)
        requires
            ps[0] == 10,
            v7[7] == 586704592230750000000,
    ;
    assert(ps[0] * v7[7] * (todd_falling(8, 1) * todd_weight(1)) == 616039821842287500000000) by (nonlinear_arith)
        requires
            ps[0] * v7[7] == 5867045922307500000000,
            todd_falling(8, 1) == 1,
            todd_weight(1) == 105,
    ;
    assert(todd_partial_scalar(ps, v7, 8, 1) == 616039821842287500000000);
    assert(todd_step_fits(ps, v7, 8, 1));
    assert(ps[1] * v7[6] == 7388955529200000000) by (nonlinear_arith)
        requires
            ps[1] == 10,
            v7[6] == 738895552920000000,
    ;
    assert(ps[1] * v7[6] * (todd_falling(8, 2) * todd_weight(2)) == -190080880988670000000000) by (nonlinear_arith)
        requires
            ps[1] * v7[6] == 7388955529200000000,
            todd_falling(8, 2) == 7,
            todd_weight(2) == -3675,
    ;
    assert(todd_partial_scalar(ps, v7, 8, 2) == 425958940853617500000000);
    assert(todd_step_fits(ps, v7, 8, 2));
    assert(ps[2] * v7[5] == 8729765887500000) by (nonlinear_arith)
        requires
            ps[2] == 10,
            v7[5] == 872976588750000,
    ;
    assert(ps[2] * v7[5] * (todd_falling(8, 3) * todd_weight(3)) == 0) by (nonlinear_arith)
        requires
            ps[2] * v7[5] == 8729765887500000,
            todd_falling(8, 3) == 42,
            todd_weight(3) == 0,
    ;
    assert(todd_partial_scalar(ps, v7, 8, 3) == 425958940853617500000000);
    assert(todd_step_fits(ps, v7, 8, 3));
    assert(ps[3] * v7[4] == 9766187550000) by (nonlinear_arith)
        requires
            ps[3] == 10,
            v7[4] == 976618755000,
    ;
    assert(ps[3] * v7[4] * (todd_falling(8, 4) * todd_weight(4)) == 5539735602658687500000) by (nonlinear_arith)
        requires
            ps[3] * v7[4] == 9766187550000,
            todd_falling(8, 4) == 210,
            todd_weight(4) == 2701125,
    ;
    assert(todd_partial_scalar(ps, v7, 8, 4) == 431498676456276187500000);
    assert(todd_step_fits(ps, v7, 8, 4));
    assert(ps[4] * v7[3] == 10418625000) by (nonlinear_arith)
        requires
            ps[4] == 10,
            v7[3] == 1041862500,
    ;
    assert(ps[4] * v7[3] * (todd_falling(8, 5) * todd_weight(5)) == 0) by (nonlinear_arith)
        requires
            ps[4] * v7[3] == 10418625000,
            todd_falling(8, 5) == 840,
            todd_weight(5) == 0,
    ;
    assert(todd_partial_scalar(ps, v7, 8, 5) == 431498676456276187500000);
    assert(todd_step_fits(ps, v7, 8, 5));
    assert(ps[5] * v7[2] == 10657500) by (nonlinear_arith)
        requires
            ps[5] == 10,
            v7[2] == 1065750,
    ;
    assert(ps[5] * v7[2] * (todd_falling(8, 6) * todd_weight(6)) == -76171036213125000000) by (nonlinear_arith)
        requires
            ps[5] * v7[2] == 10657500,
            todd_falling(8, 6) == 2520,
            todd_weight(6) == -2836181250,
    ;
    assert(todd_partial_scalar(ps, v7, 8, 6) == 431422505420063062500000);
    assert(todd_step_fits(ps, v7, 8, 6));
    assert(ps[6] * v7[1] == 10500) by (nonlinear_arith)
        requires
            ps[6] == 10,
            v7[1] == 1050,
    ;
    assert(ps[6] * v7[1] * (todd_falling(8, 7) * todd_weight(7)) == 0) by (nonlinear_arith)
        requires
            ps[6] * v7[1] == 10500,
            todd_falling(8, 7) == 5040,
            todd_weight(7) == 0,
    ;
    assert(todd_partial_scalar(ps, v7, 8, 7) == 431422505420063062500000);
    assert(todd_step_fits(ps, v7, 8, 7));
    assert(ps[7] * v7[0] == 10) by (nonlinear_arith)
        requires
            ps[7] == 10,
            v7[0] == 1,
    ;
    assert(ps[7] * v7[0] * (todd_falling(8, 8) * todd_weight(8)) == 157595247337500000) by (nonlinear_arith)
        requires
            ps[7] * v7[0] == 10,
            todd_falling(8, 8) == 5040,
            todd_weight(8) == 3126889828125,
    ;
    assert(todd_partial_scalar(ps, v7, 8, 8) == 431422663015310400000000);
    assert(todd_step_fits(ps, v7, 8, 8));
    assert(power_sums_scalar(a, 9) == ps && todd_parts_scalar(ps, 7) == v7);
    assert forall|m: int| 1 <= m <= 8 implies #[trigger] todd_step_fits(power_sums_scalar(a, 9), todd_parts_scalar(power_sums_scalar(a, 9), 7), 8, m) by {
        if m == 1 {
        } else if m == 2 {
        } else if m == 3 {
        } else if m == 4 {
        } else if m == 5 {
        } else if m == 6 {
        } else if m == 7 {
        } else if m == 8 {
        }
    }
    assert(todd_part_fits(a, 9, 8));
    let v8 = seq![1int, 1050, 1065750, 1041862500, 976618755000, 872976588750000, 738895552920000000, 586704592230750000000, 431422663015310400000000];
    assert(todd_parts_scalar(ps, 8) =~= v8);
    assert(todd_partial_scalar(ps, v8, 9, 0) == 0);
    assert(ps[0] * v8[8] == 4314226630153104000000000) by (nonlinear_arith)
        requires
            ps[0] == 10,
            v8[8] == 431422663015310400000000,
    ;
    assert(ps[0] * v8[8] * (todd_falling(9, 1) * todd_weight(1)) == 452993796166075920000000000) by (nonlinear_arith)
        requires
            ps[0] * v8[8] == 4314226630153104000000000,
            todd_falling(9, 1) == 1,
            todd_weight(1) == 105,
    ;
    assert(todd_partial_scalar(ps, v8, 9, 1) == 452993796166075920000000000);
    assert(todd_step_fits(ps, v8, 9, 1));
    assert(ps[1] * v8[7] == 5867045922307500000000) by (nonlinear_arith)
        requires
            ps[1] == 10,
            v8[7] == 586704592230750000000,
    ;
    assert(ps[1] * v8[7] * (todd_falling(9, 2) * todd_weight(2)) == -172491150115840500000000000) by (nonlinear_arith)
        requires
            ps[1] * v8[7] == 5867045922307500000000,
            todd_falling(9, 2) == 8,
            todd_weight(2) == -3675,
    ;
    assert(todd_partial_scalar(ps, v8, 9, 2) == 280502646050235420000000000);
    assert(todd_step_fits(ps, v8, 9, 2));
    assert(ps[2] * v8[6] == 7388955529200000000) by (nonlinear_arith)
        requires
            ps[2] == 10,
            v8[6] == 738895552920000000,
    ;
    assert(ps[2] * v8[6] * (todd_falling(9, 3) * todd_weight(3)) == 0) by (nonlinear_arith)
        requires
            ps[2] * v8[6] == 7388955529200000000,
            todd_falling(9, 3) == 56,
            todd_weight(3) == 0,
    ;
    assert(todd_partial_scalar(ps, v8, 9, 3) == 280502646050235420000000000);
    assert(todd_step_fits(ps, v8, 9, 3));
    assert(ps[3] * v8[5] == 8729765887500000) by (nonlinear_arith)
        requires
            ps[3] == 10,
            v8[5] == 872976588750000,
    ;
    assert(ps[3] * v8[5] * (todd_falling(9, 4) * todd_weight(4)) == 7922943464645475000000000) by (nonlinear_arith)
        requires
            ps[3] * v8[5] == 8729765887500000,
            todd_falling(9, 4) == 336,
            todd_weight(4) == 2701125,
    ;
    assert(todd_partial_scalar(ps, v8, 9, 4) == 288425589514880895000000000);
    assert(todd_step_fits(ps, v8, 9, 4));
    assert(ps[4] * v8[4] == 9766187550000) by (nonlinear_arith)
        requires
            ps[4] == 10,
            v8[4] == 976618755000,
    ;
    assert(ps[4] * v8[4] * (todd_falling(9, 5) * todd_weight(5)) == 0) by (nonlinear_arith)
        requires
            ps[4] * v8[4] == 9766187550000,
            todd_falling(9, 5) == 1680,
            todd_weight(5) == 0,
    ;
    assert(todd_partial_scalar(ps, v8, 9, 5) == 288425589514880895000000000);
    assert(todd_step_fits(ps, v8, 9, 5));
    assert(ps[5] * v8[3] == 10418625000) by (nonlinear_arith)
        requires
            ps[5] == 10,
            v8[3] == 1041862500,
    ;
    assert(ps[5] * v8[3] * (todd_falling(9, 6) * todd_weight(6)) == -198570011645250000000000) by (nonlinear_arith)
        requires
            ps[5] * v8[3] == 10418625000,
            todd_falling(9, 6) == 6720,
            todd_weight(6) == -2836181250,
    ;
    assert(todd_partial_scalar(ps, v8, 9, 6) == 288227019503235645000000000);
    assert(todd_step_fits(ps, v8, 9, 6));
    assert(ps[6] * v8[2] == 10657500) by (nonlinear_arith)
        requires
            ps[6] == 10,
            v8[2] == 1065750,
    ;
    assert(ps[6] * v8[2] * (todd_falling(9, 7) * todd_weight(7)) == 0) by (nonlinear_arith)
        requires
            ps[6] * v8[2] == 10657500,
            todd_falling(9, 7) == 20160,
            todd_weight(7) == 0,
    ;
    assert(todd_partial_scalar(ps, v8, 9, 7) == 288227019503235645000000000);
    assert(todd_step_fits(ps, v8, 9, 7));
    assert(ps[7] * v8[1] == 10500) by (nonlinear_arith)
        requires
            ps[7] == 10,
            v8[1] == 1050,
    ;
    assert(ps[7] * v8[1] * (todd_falling(9, 8) * todd_weight(8)) == 1323800077635000000000) by (nonlinear_arith)
        requires
            ps[7] * v8[1] == 10500,
            todd_falling(9, 8) == 40320,
            todd_weight(8) == 3126889828125,
    ;
    assert(todd_partial_scalar(ps, v8, 9, 8) == 288228343303313280000000000);
    assert(todd_step_fits(ps, v8, 9, 8));
    assert(ps[8] * v8[0] == 10) by (nonlinear_arith)
        requires
            ps[8] == 10,
            v8[0] == 1,
    ;
    assert(ps[8] * v8[0] * (todd_falling(9, 9) * todd_weight(9)) == 0) by (nonlinear_arith)
        requires
            ps[8] * v8[0] == 10,
            todd_falling(9, 9) == 40320,
            todd_weight(9) == 0,
    ;
    assert(todd_partial_scalar(ps, v8, 9, 9) == 288228343303313280000000000);
    assert(todd_step_fits(ps, v8, 9, 9));
    assert(power_sums_scalar(a, 9) == ps && todd_parts_scalar(ps, 8) == v8);
    assert forall|m: int| 1 <= m <= 9 implies #[trigger] todd_step_fits(power_sums_scalar(a, 9), todd_parts_scalar(power_sums_scalar(a, 9), 8), 9, m) by {
        if m == 1 {
        } else if m == 2 {
        } else if m == 3 {
        } else if m == 4 {
        } else if m == 5 {
        } else if m == 6 {
        } else if m == 7 {
        } else if m == 8 {
        } else if m == 9 {
        }
    }
    assert(todd_part_fits(a, 9, 9));
    let v9 = seq![1int, 1050, 1065750, 1041862500, 976618755000, 872976588750000, 738895552920000000, 586704592230750000000, 431422663015310400000000, 288228343303313280000000000];
    assert(todd_parts_scalar(ps, 9) =~= v9);
    assert(todd_scale(9, 9) == 1);
    assert(todd_scale(9, 8) == todd_scale(9, 9) * 9 * 210);
    assert(todd_scale(9, 8) == 1890);
    assert(todd_scale(9, 7) == todd_scale(9, 8) * 8 * 210);
    assert(todd_scale(9, 7) == 3175200);
    assert(todd_scale(9, 6) == todd_scale(9, 7) * 7 * 210);
    assert(todd_scale(9, 6) == 4667544000);
    assert(todd_scale(9, 5) == todd_scale(9, 6) * 6 * 210);
    assert(todd_scale(9, 5) == 5881105440000);
    assert(todd_scale(9, 4) == todd_scale(9, 5) * 5 * 210);
    assert(todd_scale(9, 4) == 6175160712000000);
    assert(todd_scale(9, 3) == todd_scale(9, 4) * 4 * 210);
    assert(todd_scale(9, 3) == 5187134998080000000);
    assert(todd_scale(9, 2) == todd_scale(9, 3) * 3 * 210);
    assert(todd_scale(9, 2) == 3267895048790400000000);
    assert(todd_scale(9, 1) == todd_scale(9, 2) * 2 * 210);
    assert(todd_scale(9, 1) == 1372515920491968000000000);
    assert(todd_scale(9, 0) == todd_scale(9, 1) * 1 * 210);
    assert(todd_scale(9, 0) == 288228343303313280000000000);
    assert(v9[0] * todd_scale(9, 0) == 288228343303313280000000000) by (nonlinear_arith)
        requires
            v9[0] == 1,
            todd_scale(9, 0) == 288228343303313280000000000,
    ;
    assert(v9[1] * todd_scale(9, 1) == 1441141716516566400000000000) by (nonlinear_arith)
        requires
            v9[1] == 1050,
            todd_scale(9, 1) == 1372515920491968000000000,
    ;
    assert(v9[2] * todd_scale(9, 2) == 3482759148248368800000000000) by (nonlinear_arith)
        requires
            v9[2] == 1065750,
            todd_scale(9, 2) == 3267895048790400000000,
    ;
    assert(v9[3] * todd_scale(9, 3) == 5404281436937124000000000000) by (nonlinear_arith)
        requires
            v9[3] == 1041862500,
            todd_scale(9, 3) == 5187134998080000000,
    ;
    assert(v9[4] * todd_scale(9, 4) == 6030777766478353560000000000) by (nonlinear_arith)
        requires
            v9[4] == 976618755000,
            todd_scale(9, 4) == 6175160712000000,
    ;
    assert(v9[5] * todd_scale(9, 5) == 5134067365090267800000000000) by (nonlinear_arith)
        requires
            v9[5] == 872976588750000,
            todd_scale(9, 5) == 5881105440000,
    ;
    assert(v9[6] * todd_scale(9, 6) == 3448827504658428480000000000) by (nonlinear_arith)
        requires
            v9[6] == 738895552920000000,
            todd_scale(9, 6) == 4667544000,
    ;
    assert(v9[7] * todd_scale(9, 7) == 1862904421251077400000000000) by (nonlinear_arith)
        requires
            v9[7] == 586704592230750000000,
            todd_scale(9, 7) == 3175200,
    ;
    assert(v9[8] * todd_scale(9, 8) == 815388833098936656000000000) by (nonlinear_arith)
        requires
            v9[8] == 431422663015310400000000,
            todd_scale(9, 8) == 1890,
    ;
    assert(v9[9] * todd_scale(9, 9) == 288228343303313280000000000) by (nonlinear_arith)
        requires
            v9[9] == 288228343303313280000000000,
            todd_scale(9, 9) == 1,
    ;
    assert forall|t: int| 0 <= t <= 9 implies fits_int(#[trigger] todd_parts_scalar(power_sums_scalar(a, 9), 9)[t] * todd_scale(9, t as nat)) by {
        assert(todd_parts_scalar(power_sums_scalar(a, 9), 9) == v9);
        if t == 0 {
        } else if t == 1 {
        } else if t == 2 {
        } else if t == 3 {
        } else if t == 4 {
        } else if t == 5 {
        } else if t == 6 {
        } else if t == 7 {
        } else if t == 8 {
        } else if t == 9 {
        }
    }
    assert forall|j: int| 1 <= j <= 9 implies #[trigger] newton_fits(a, j) by {
        if j == 1 {
        } else if j == 2 {
        } else if j == 3 {
        } else if j == 4 {
        } else if j == 5 {
        } else if j == 6 {
        } else if j == 7 {
        } else if j == 8 {
        } else if j == 9 {
        }
    }
    assert forall|k: int| 1 <= k <= 9 implies #[trigger] todd_part_fits(a, 9, k) by {
        if k == 1 {
        } else if k == 2 {
        } else if k == 3 {
        } else if k == 4 {
        } else if k == 5 {
        } else if k == 6 {
        } else if k == 7 {
        } else if k == 8 {
        } else if k == 9 {
        }
    }
}


} // verus!
