//! The splitting principle: a rank-`n` bundle treated as a sum of line
//! bundles with formal Chern roots `x_1, ..., x_n`.

use crate::bundle::{graded_classes, graded_vec, sum_classes, views, ChernClass, VectorBundle};
use crate::poly::{
    add_ok, coeff, ints, lemma_sub_coeff, mul_ok, poly_add, poly_monomial, poly_mul, poly_one, poly_scale, poly_sub,
    scale_ok, Polynomial,
};
use crate::rational::RationalPolynomial;
use crate::whitney::{lemma_whitney_agreement, whitney_expected, whitney_got, whitney_in_range};
use vstd::prelude::*;
use vstd::string::*;

verus! {

/// The formal Chern roots `x_i = (i + 1) t` for `i < r`.
pub open spec fn roots_spec(r: nat) -> Seq<Seq<int>> {
    Seq::new(r, |i: int| seq![0, i + 1])
}

/// `(1 + x_1)(1 + x_2)...(1 + x_n)`, multiplied from the first root on.
pub open spec fn roots_product(rs: Seq<Seq<int>>) -> Seq<int>
    decreases rs.len(),
{
    if rs.len() == 0 {
        poly_one()
    } else {
        poly_mul(roots_product(rs.drop_last()), poly_add(poly_one(), rs.last()))
    }
}

/// Every step of `roots_product` is computed without overflow.
#[verifier::opaque]
pub open spec fn product_ok(rs: Seq<Seq<int>>) -> bool {
    forall|n: int|
        0 <= n < rs.len() ==> add_ok(poly_one(), #[trigger] rs[n]) && mul_ok(
            roots_product(rs.take(n)),
            poly_add(poly_one(), rs[n]),
        )
}

/// `1 + x/2 + x^2/12` over the denominator `12`: `12 + 6x + x^2`.
pub open spec fn todd_factor(x: Seq<int>) -> Seq<int> {
    poly_add(poly_add(poly_monomial(12, 0), poly_scale(x, 6)), poly_mul(x, x))
}

/// Every step of `todd_factor` stays in range.
pub open spec fn todd_factor_ok(x: Seq<int>) -> bool {
    &&& scale_ok(x, 6)
    &&& mul_ok(x, x)
    &&& add_ok(poly_monomial(12, 0), poly_scale(x, 6))
    &&& add_ok(poly_add(poly_monomial(12, 0), poly_scale(x, 6)), poly_mul(x, x))
}

/// `prod_i (12 + 6 x_i + x_i^2)`, multiplied from the first root on.
pub open spec fn todd_roots_product(rs: Seq<Seq<int>>) -> Seq<int>
    decreases rs.len(),
{
    if rs.len() == 0 {
        poly_one()
    } else {
        poly_mul(todd_roots_product(rs.drop_last()), todd_factor(rs.last()))
    }
}

/// Every step of `todd_roots_product` stays in range.
#[verifier::opaque]
pub open spec fn todd_roots_ok(rs: Seq<Seq<int>>) -> bool {
    forall|n: int|
        0 <= n < rs.len() ==> todd_factor_ok(#[trigger] rs[n]) && mul_ok(
            todd_roots_product(rs.take(n)),
            todd_factor(rs[n]),
        )
}

/// `12^n`.
pub open spec fn twelve_pow(n: nat) -> nat
    decreases n,
{
    if n == 0 {
        1
    } else {
        12 * twelve_pow((n - 1) as nat)
    }
}

/// `12^n >= 1`.
proof fn lemma_twelve_pow_pos(n: nat)
    ensures
        twelve_pow(n) >= 1,
    decreases n,
{
    if n > 0 {
        lemma_twelve_pow_pos((n - 1) as nat);
    }
}

/// `12^n` grows with `n`.
proof fn lemma_twelve_pow_mono(a: nat, b: nat)
    requires
        a <= b,
    ensures
        twelve_pow(a) <= twelve_pow(b),
    decreases b,
{
    if a < b {
        lemma_twelve_pow_mono(a, (b - 1) as nat);
    }
}

/// `12^n` fits in a `u128` up to `n = 35`.
proof fn lemma_twelve_pow_bound(n: nat)
    requires
        n <= 35,
    ensures
        1 <= twelve_pow(n) <= u128::MAX,
{
    lemma_twelve_pow_pos(n);
    lemma_twelve_pow_mono(n, 35);
    assert(twelve_pow(0) == 1);
    assert(twelve_pow(1) == 12);
    assert(twelve_pow(2) == 144);
    assert(twelve_pow(3) == 1728);
    assert(twelve_pow(4) == 20736);
    assert(twelve_pow(5) == 248832);
    assert(twelve_pow(6) == 2985984);
    assert(twelve_pow(7) == 35831808);
    assert(twelve_pow(8) == 429981696);
    assert(twelve_pow(9) == 5159780352);
    assert(twelve_pow(10) == 61917364224);
    assert(twelve_pow(11) == 743008370688);
    assert(twelve_pow(12) == 8916100448256);
    assert(twelve_pow(13) == 106993205379072);
    assert(twelve_pow(14) == 1283918464548864);
    assert(twelve_pow(15) == 15407021574586368);
    assert(twelve_pow(16) == 184884258895036416);
    assert(twelve_pow(17) == 2218611106740436992);
    assert(twelve_pow(18) == 26623333280885243904);
    assert(twelve_pow(19) == 319479999370622926848);
    assert(twelve_pow(20) == 3833759992447475122176);
    assert(twelve_pow(21) == 46005119909369701466112);
    assert(twelve_pow(22) == 552061438912436417593344);
    assert(twelve_pow(23) == 6624737266949237011120128);
    assert(twelve_pow(24) == 79496847203390844133441536);
    assert(twelve_pow(25) == 953962166440690129601298432);
    assert(twelve_pow(26) == 11447545997288281555215581184);
    assert(twelve_pow(27) == 137370551967459378662586974208);
    assert(twelve_pow(28) == 1648446623609512543951043690496);
    assert(twelve_pow(29) == 19781359483314150527412524285952);
    assert(twelve_pow(30) == 237376313799769806328950291431424);
    assert(twelve_pow(31) == 2848515765597237675947403497177088);
    assert(twelve_pow(32) == 34182189187166852111368841966125056);
    assert(twelve_pow(33) == 410186270246002225336426103593500672);
    assert(twelve_pow(34) == 4922235242952026704037113243122008064);
    assert(twelve_pow(35) == 59066822915424320448445358917464096768);
}

/// One step of `roots_product` stays in range.
proof fn lemma_product_step(rs: Seq<Seq<int>>, n: int)
    requires
        product_ok(rs),
        0 <= n < rs.len(),
    ensures
        add_ok(poly_one(), rs[n]),
        mul_ok(roots_product(rs.take(n)), poly_add(poly_one(), rs[n])),
{
    reveal(product_ok);
}

/// One step of `todd_roots_product` stays in range.
proof fn lemma_todd_step(rs: Seq<Seq<int>>, n: int)
    requires
        todd_roots_ok(rs),
        0 <= n < rs.len(),
    ensures
        todd_factor_ok(rs[n]),
        mul_ok(todd_roots_product(rs.take(n)), todd_factor(rs[n])),
{
    reveal(todd_roots_ok);
}

/// The splitting principle.
pub struct SplittingPrinciple;

impl SplittingPrinciple {
    /// The formal Chern roots `x_1, ..., x_rank` of a rank-`rank` bundle:
    /// the distinct classes of degree one `x_i = (i + 1) t` for `i < rank`.
    /// The Chern classes are the elementary symmetric polynomials in them.
    pub fn chern_roots(rank: usize) -> (roots: Vec<Polynomial>)
        ensures
            views(roots@) == roots_spec(rank as nat),
    {
        let mut roots: Vec<Polynomial> = Vec::new();
        let mut i: usize = 0;
        while i < rank
            invariant
                i <= rank,
                roots.len() == i,
                forall|j: int| 0 <= j < i ==> #[trigger] views(roots@)[j] == seq![0, j + 1],
            decreases rank - i,
        {
            let root = Polynomial::monomial(i as i128 + 1, 1);
            assert(root@ =~= seq![0, i as int + 1]);
            let ghost before = roots@;
            roots.push(root);
            assert(views(roots@) =~= views(before).push(root@));
            i += 1;
        }
        assert(views(roots@) =~= roots_spec(rank as nat));
        roots
    }

    /// The Chern classes from the Chern roots: `c(E) = (1 + x_1)...(1 + x_n)`,
    /// read off degree by degree with `c_0 = 1`.
    pub fn chern_classes_from_roots(roots: &[Polynomial]) -> (classes: Vec<Polynomial>)
        requires
            roots@.len() < usize::MAX,
            product_ok(views(roots@)),
        ensures
            views(classes@) == graded_classes(roots_product(views(roots@)), roots@.len()),
    {
        let ghost rs = views(roots@);
        let mut total = Polynomial::one();
        let mut i: usize = 0;
        assert(rs.take(0) =~= Seq::<Seq<int>>::empty());
        while i < roots.len()
            invariant
                rs == views(roots@),
                product_ok(rs),
                i <= roots@.len() == rs.len(),
                total@ == roots_product(rs.take(i as int)),
            decreases rs.len() - i,
        {
            proof {
                lemma_product_step(rs, i as int);
            }
            let factor = Polynomial::one().add(&roots[i]);
            assert(rs.take(i as int + 1).drop_last() =~= rs.take(i as int));
            total = total.mul(&factor);
            i += 1;
        }
        assert(rs.take(rs.len() as int) =~= rs);
        graded_vec(&total, roots.len())
    }

    /// The Todd class from the Chern roots,
    /// `td(E) = prod_i (1 + x_i/2 + x_i^2/12)` (each factor `x/(1 - e^-x)`
    /// to degree 2), kept exact over the denominator `12^n`.
    pub fn todd_from_roots(roots: &[Polynomial]) -> (td: RationalPolynomial)
        requires
            roots@.len() <= 35,
            todd_roots_ok(views(roots@)),
        ensures
            td@.numerator == todd_roots_product(views(roots@)),
            td@.denominator == twelve_pow(roots@.len()),
    {
        let ghost rs = views(roots@);
        let mut td = Polynomial::one();
        let mut denominator: u128 = 1;
        let mut i: usize = 0;
        assert(rs.take(0) =~= Seq::<Seq<int>>::empty());
        while i < roots.len()
            invariant
                rs == views(roots@),
                todd_roots_ok(rs),
                rs.len() <= 35,
                i <= roots@.len() == rs.len(),
                td@ == todd_roots_product(rs.take(i as int)),
                denominator == twelve_pow(i as nat),
            decreases rs.len() - i,
        {
            proof {
                lemma_todd_step(rs, i as int);
                lemma_twelve_pow_bound((i + 1) as nat);
            }
            let root = &roots[i];
            assert(root@ == rs[i as int]);
            let factor = Polynomial::monomial(12, 0).add(&root.scale(6)).add(&root.mul(root));
            assert(rs.take(i as int + 1).drop_last() =~= rs.take(i as int));
            td = td.mul(&factor);
            denominator = denominator * 12;
            i += 1;
        }
        assert(rs.take(rs.len() as int) =~= rs);
        proof {
            lemma_twelve_pow_pos(rs.len());
        }
        RationalPolynomial::new(td, denominator)
    }

    /// Checks the Whitney sum formula `c(E + F) = c(E) c(F)` through the
    /// splitting principle: the bundles `E` and `F` of ranks `rank_e` and
    /// `rank_f` are built from the roots `t, 2t, ...`, and the total Chern
    /// class of `E + F` is compared with the one read off all the roots at
    /// once. The two always agree, so the check holds. Every step must stay
    /// in `i128`, which `lemma_whitney_in_range` shows for
    /// `rank_e + rank_f <= 30`.
    pub fn verify_whitney_sum(rank_e: usize, rank_f: usize) -> (holds: bool)
        requires
            whitney_in_range(rank_e as nat, rank_f as nat),
        ensures
            holds,
    {
        let roots_e = Self::chern_roots(rank_e);
        let roots_f = Self::chern_roots(rank_f);
        let classes_e = Self::chern_classes_from_roots(roots_e.as_slice());
        let classes_f = Self::chern_classes_from_roots(roots_f.as_slice());
        proof { reveal_strlit("E"); reveal_strlit("F"); }
        let bundle_e = VectorBundle::from_parts(rank_e, String::from_str("E"), classes_e);
        let bundle_f = VectorBundle::from_parts(rank_f, String::from_str("F"), classes_f);
        let sum = ChernClass::whitney_sum(&bundle_e, &bundle_f);
        let mut all_roots = roots_e;
        let mut rest = roots_f;
        all_roots.append(&mut rest);
        assert(views(all_roots@) =~= roots_spec(rank_e as nat) + roots_spec(rank_f as nat));
        let expected = Self::chern_classes_from_roots(all_roots.as_slice());
        let got = sum.total_chern_class();
        let exp_total = sum_classes(expected.as_slice());
        assert(got@ == whitney_got(rank_e as nat, rank_f as nat));
        assert(exp_total@ == whitney_expected(rank_e as nat, rank_f as nat));
        let diff = got.sub(&exp_total);
        let zero = all_zero(&diff);
        proof {
            lemma_difference_zero(got@, exp_total@, zero);
            lemma_whitney_agreement(rank_e as nat, rank_f as nat);
        }
        zero
    }
}

/// A difference vanishes exactly when the two sides agree.
proof fn lemma_difference_zero(a: Seq<int>, b: Seq<int>, zero: bool)
    requires
        zero == forall|k: int| #[trigger] coeff(poly_sub(a, b), k) == 0,
    ensures
        zero == forall|k: int| #[trigger] coeff(a, k) == coeff(b, k),
{
    assert forall|k: int| #[trigger] coeff(poly_sub(a, b), k) == coeff(a, k) - coeff(b, k) by {
        lemma_sub_coeff(a, b, k);
    }
    if zero {
        assert forall|k: int| #[trigger] coeff(a, k) == coeff(b, k) by {
            assert(coeff(poly_sub(a, b), k) == 0);
        }
    } else {
        let k = choose|k: int| coeff(poly_sub(a, b), k) != 0;
        assert(coeff(a, k) != coeff(b, k));
    }
}

/// Whether every coefficient is zero.
fn all_zero(p: &Polynomial) -> (zero: bool)
    ensures
        zero == forall|k: int| #[trigger] coeff(p@, k) == 0,
{
    let coeffs = p.coeffs();
    let mut j: usize = 0;
    while j < coeffs.len()
        invariant
            j <= coeffs.len(),
            ints(coeffs@) == p@,
            forall|k: int| 0 <= k < j ==> coeffs@[k] == 0,
        decreases coeffs.len() - j,
    {
        if coeffs[j] != 0 {
            assert(coeff(p@, j as int) != 0);
            return false;
        }
        j += 1;
    }
    assert forall|k: int| #[trigger] coeff(p@, k) == 0 by {
        if 0 <= k < p@.len() {
            assert(coeffs@[k] == 0);
        }
    }
    true
}

} // verus!
