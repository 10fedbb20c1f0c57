//! Vector bundles, described by their rank and their Chern classes.

use crate::decimal::{decimal, push_decimal};
use crate::rational::RationalPolynomial;
use crate::todd::{todd_class, todd_class_numerator, todd_degree, todd_denominator, todd_ok};
use crate::poly::{
    add_ok, coeff, conv_upto, fits_int, ints, lemma_add_coeff, lemma_coeff_ext, lemma_conv_affine,
    lemma_monomial_coeff, lemma_mul_affine, lemma_ops_normalized, max_len, mul_ok, normalized, poly_add,
    poly_monomial, poly_mul, poly_one, poly_scale, poly_sub, scale_ok, sub_ok, Polynomial,
};
use vstd::arithmetic::power2::{
    lemma2_to64, lemma2_to64_rest, lemma_pow2_adds, lemma_pow2_pos, lemma_pow2_strictly_increases,
    lemma_pow2_unfold, pow2,
};
use vstd::prelude::*;
use vstd::string::*;

verus! {

/// The sum `cs[0] + cs[1] + ...`, added from the first to the last.
pub open spec fn sum_polys(cs: Seq<Seq<int>>) -> Seq<int>
    decreases cs.len(),
{
    if cs.len() == 0 {
        Seq::empty()
    } else {
        poly_add(sum_polys(cs.drop_last()), cs.last())
    }
}

/// Every addition of `sum_polys` stays in range.
#[verifier::opaque]
pub open spec fn sum_ok(cs: Seq<Seq<int>>) -> bool {
    forall|n: int| 0 <= n < cs.len() ==> add_ok(sum_polys(cs.take(n)), #[trigger] cs[n])
}

/// The `k`-th class, or the zero polynomial past the last one.
pub open spec fn class_at(cs: Seq<Seq<int>>, k: int) -> Seq<int> {
    if 0 <= k < cs.len() {
        cs[k]
    } else {
        Seq::empty()
    }
}

/// The classes `1, p_1 t, p_2 t^2, ..., p_n t^n` read off the coefficients
/// of `p` (the constant class is always `1`).
pub open spec fn graded_classes(p: Seq<int>, n: nat) -> Seq<Seq<int>> {
    Seq::new(n + 1, |k: int| if k == 0 { poly_one() } else { poly_monomial(coeff(p, k), k as nat) })
}

/// The binomial coefficient `m choose k` (zero outside `0..=m`).
pub open spec fn binomial(m: nat, k: int) -> nat
    decreases m,
{
    if k < 0 || k > m {
        0
    } else if k == 0 || k == m {
        1
    } else {
        binomial((m - 1) as nat, k - 1) + binomial((m - 1) as nat, k)
    }
}

/// The coefficients of `(1 + t)^m`.
pub open spec fn binomial_row(m: nat) -> Seq<int> {
    Seq::new(m + 1, |k: int| binomial(m, k) as int)
}

/// Pascal's rule.
pub proof fn lemma_pascal(m: nat, k: int)
    ensures
        binomial(m + 1, k) == binomial(m, k - 1) + binomial(m, k),
{
}

/// `m choose k <= 2^m`.
pub proof fn lemma_binomial_bound(m: nat, k: int)
    ensures
        binomial(m, k) <= pow2(m),
    decreases m,
{
    lemma_pow2_pos(m);
    if m > 0 && 0 < k < m {
        lemma_binomial_bound((m - 1) as nat, k - 1);
        lemma_binomial_bound((m - 1) as nat, k);
        lemma_pow2_unfold(m);
    }
}

/// `2^m <= 2^126` for `m <= 126`, and `2^126` fits in an `i128`.
proof fn lemma_pow2_126(m: nat)
    requires
        m <= 126,
    ensures
        pow2(m) <= pow2(126),
        pow2(126) == 85070591730234615865843651857942052864,
{
    if m < 126 {
        lemma_pow2_strictly_increases(m, 126);
    }
    lemma2_to64();
    lemma2_to64_rest();
    lemma_pow2_adds(64, 62);
}

/// The coefficients of `(1 + t)^m` are the binomial coefficients.
proof fn lemma_row_coeff(m: nat, k: int)
    ensures
        coeff(binomial_row(m), k) == binomial(m, k),
        normalized(binomial_row(m)),
{
}

/// Every coefficient of `(1 + t)^m` fits in an `i128`.
pub open spec fn binomial_row_fits(m: nat) -> bool {
    forall|k: int| fits_int(#[trigger] binomial(m, k) as int)
}

/// Binomial coefficients grow with the row: `m <= p` gives
/// `(m choose k) <= (p choose k)`.
pub proof fn lemma_binomial_mono(m: nat, p: nat, k: int)
    requires
        m <= p,
    ensures
        binomial(m, k) <= binomial(p, k),
    decreases p,
{
    if m < p {
        lemma_binomial_mono(m, (p - 1) as nat, k);
        lemma_pascal((p - 1) as nat, k);
    }
}

/// The rows of Pascal's triangle fit in an `i128` up to row `126`.
pub proof fn lemma_binomial_row_fits(m: nat)
    requires
        m <= 126,
    ensures
        binomial_row_fits(m),
{
    lemma_pow2_126(m);
    assert forall|k: int| fits_int(#[trigger] binomial(m, k) as int) by {
        lemma_binomial_bound(m, k);
    }
}

/// `(1 + t)^m * (1 + t) = (1 + t)^(m + 1)`, computed without overflow
/// when row `m + 1` fits.
proof fn lemma_row_step(m: nat)
    requires
        binomial_row_fits(m + 1),
        m + 3 <= usize::MAX,
    ensures
        mul_ok(binomial_row(m), seq![1int, 1]),
        poly_mul(binomial_row(m), seq![1int, 1]) == binomial_row(m + 1),
{
    reveal(mul_ok);
    let a = binomial_row(m);
    let b = seq![1int, 1];
    assert forall|i: int, j: int| 0 <= i < a.len() && 0 <= j < b.len() implies fits_int(#[trigger] (a[i] * b[j])) by {
        lemma_binomial_mono(m, m + 1, i);
        assert(fits_int(binomial(m + 1, i) as int));
        assert(b[j] == 1);
        assert(a[i] == binomial(m, i));
    }
    assert forall|k: int, n: nat| 0 <= k < a.len() + b.len() && n <= a.len() implies fits_int(
        #[trigger] conv_upto(a, b, k, n),
    ) by {
        lemma_conv_affine(a, 1, 1, k, n);
        lemma_row_coeff(m, k);
        lemma_row_coeff(m, k - 1);
        lemma_pascal(m, k);
        assert(fits_int(binomial(m + 1, k) as int));
    }
    assert forall|k: int| #[trigger] coeff(poly_mul(a, b), k) == coeff(binomial_row(m + 1), k) by {
        lemma_mul_affine(a, 1, 1, k);
        lemma_row_coeff(m, k);
        lemma_row_coeff(m, k - 1);
        lemma_row_coeff(m + 1, k);
        lemma_pascal(m, k);
    }
    lemma_ops_normalized(a, b, 0);
    lemma_row_coeff(m + 1, 0);
    lemma_coeff_ext(poly_mul(a, b), binomial_row(m + 1));
}

/// The coefficients of the sum of the first `j` graded classes read off `p`.
pub open spec fn graded_prefix_coeff(p: Seq<int>, j: int, k: int) -> int {
    if k == 0 {
        if j >= 1 {
            1
        } else {
            0
        }
    } else if 1 <= k < j {
        coeff(p, k)
    } else {
        0
    }
}

/// Every coefficient of `p` of degree `1..=n` fits in an `i128`.
pub open spec fn graded_fits(p: Seq<int>, n: nat) -> bool {
    forall|k: int| 1 <= k <= n ==> fits_int(#[trigger] coeff(p, k))
}

/// The coefficients of the sum of the first `j` graded classes read off `p`.
pub proof fn lemma_graded_prefix(p: Seq<int>, n: nat, j: int)
    requires
        0 <= j <= n + 1,
    ensures
        forall|k: int|
            #[trigger] coeff(sum_polys(graded_classes(p, n).take(j)), k) == graded_prefix_coeff(p, j, k),
    decreases j,
{
    let cs = graded_classes(p, n);
    if j == 0 {
        assert(cs.take(0) =~= Seq::<Seq<int>>::empty());
    } else {
        lemma_graded_prefix(p, n, j - 1);
        assert(cs.take(j).drop_last() =~= cs.take(j - 1));
        assert forall|k: int| #[trigger] coeff(sum_polys(cs.take(j)), k) == graded_prefix_coeff(p, j, k) by {
            lemma_add_coeff(sum_polys(cs.take(j - 1)), cs[j - 1], k);
            lemma_monomial_coeff(coeff(p, j - 1), (j - 1) as nat, k);
        }
    }
}

/// The total of the graded classes read off `p`: `p` with constant term `1`,
/// cut off past degree `n`.
pub proof fn lemma_graded_total(p: Seq<int>, n: nat)
    ensures
        normalized(sum_polys(graded_classes(p, n))),
        forall|k: int|
            #[trigger] coeff(sum_polys(graded_classes(p, n)), k) == graded_prefix_coeff(p, n + 1 as int, k),
{
    let cs = graded_classes(p, n);
    lemma_graded_prefix(p, n, n + 1 as int);
    assert(cs.take(n + 1 as int) =~= cs);
    lemma_ops_normalized(sum_polys(cs.drop_last()), cs.last(), 0);
}

/// The total of the graded classes read off `p` is `p` with constant term
/// `1`, cut off past degree `n`; it is computed without overflow when the
/// coefficients of `p` fit.
pub proof fn lemma_graded_sum(p: Seq<int>, n: nat)
    requires
        graded_fits(p, n),
    ensures
        sum_ok(graded_classes(p, n)),
        normalized(sum_polys(graded_classes(p, n))),
        forall|k: int|
            #[trigger] coeff(sum_polys(graded_classes(p, n)), k) == graded_prefix_coeff(p, n + 1 as int, k),
{
    reveal(sum_ok);
    reveal(add_ok);
    let cs = graded_classes(p, n);
    assert forall|j: int| 0 <= j < cs.len() implies add_ok(sum_polys(cs.take(j)), #[trigger] cs[j]) by {
        lemma_graded_prefix(p, n, j);
        assert forall|k: int| 0 <= k < max_len(sum_polys(cs.take(j)), cs[j]) implies fits_int(
            #[trigger] coeff(sum_polys(cs.take(j)), k) + coeff(cs[j], k),
        ) by {
            lemma_monomial_coeff(coeff(p, j), j as nat, k);
        }
    }
    lemma_graded_prefix(p, n, n + 1 as int);
    assert(cs.take(n + 1 as int) =~= cs);
    lemma_ops_normalized(sum_polys(cs.drop_last()), cs.last(), 0);
}

/// A vector bundle: its rank, a name, and its Chern classes
/// `c_0 = 1, c_1, ..., c_rank` as polynomials in the base cohomology.
#[derive(Debug)]
pub struct VectorBundle {
    /// Rank of the bundle.
    pub rank: usize,
    /// Name/label.
    pub name: String,
    /// Chern classes `c_0, c_1, ..., c_rank` as polynomials in the base
    /// cohomology.
    pub chern_classes: Vec<Polynomial>,
}

/// What a vector bundle is: its rank, its name and its Chern classes.
pub struct BundleView {
    pub rank: nat,
    pub name: Seq<char>,
    pub classes: Seq<Seq<int>>,
}

impl View for VectorBundle {
    type V = BundleView;

    open spec fn view(&self) -> BundleView {
        BundleView {
            rank: self.rank as nat,
            name: self.name@,
            classes: views(self.chern_classes@),
        }
    }
}

impl Clone for VectorBundle {
    fn clone(&self) -> (b: Self)
        ensures
            b@ == self@,
    {
        let mut chern: Vec<Polynomial> = Vec::new();
        let mut i: usize = 0;
        while i < self.chern_classes.len()
            invariant
                i <= self.chern_classes.len(),
                chern.len() == i,
                forall|j: int| 0 <= j < i ==> #[trigger] views(chern@)[j] == views(self.chern_classes@)[j],
            decreases self.chern_classes.len() - i,
        {
            let p = self.chern_classes[i].clone();
            let ghost before = chern@;
            chern.push(p);
            assert(views(chern@) =~= views(before).push(p@));
            i += 1;
        }
        assert(views(chern@) =~= views(self.chern_classes@));
        VectorBundle { rank: self.rank, name: self.name.clone(), chern_classes: chern }
    }
}

/// The polynomials of a vector, as coefficient sequences.
pub open spec fn views(v: Seq<Polynomial>) -> Seq<Seq<int>> {
    v.map_values(|p: Polynomial| p@)
}

impl VectorBundle {
    /// A bundle from its parts.
    pub(crate) fn from_parts(rank: usize, name: String, chern_classes: Vec<Polynomial>) -> (b: Self)
        ensures
            b@.rank == rank,
            b@.name == name@,
            b@.classes == views(chern_classes@),
    {
        VectorBundle { rank, name, chern_classes }
    }

    /// The trivial bundle of the given rank, named `O^rank`; all its
    /// classes past `c_0 = 1` vanish.
    pub fn trivial(rank: usize) -> (b: Self)
        ensures
            b@.rank == rank,
            b@.name == seq!['O', '^'] + decimal(rank as int),
            b@.classes == seq![poly_one()],
    {
        let mut name = String::new();
        proof { reveal_strlit("O^"); }
        name.append("O^");
        push_decimal(&mut name, rank as i128);
        let mut chern: Vec<Polynomial> = Vec::new();
        chern.push(Polynomial::one());
        let b = VectorBundle { rank, name, chern_classes: chern };
        assert(b@.classes =~= seq![poly_one()]);
        assert(b@.name =~= seq!['O', '^'] + decimal(rank as int));
        b
    }

    /// The line bundle (rank 1) named `L` with the given first Chern class.
    pub fn line_bundle(c1: Polynomial) -> (b: Self)
        ensures
            b@.rank == 1,
            b@.name == seq!['L'],
            b@.classes == seq![poly_one(), c1@],
    {
        let mut chern: Vec<Polynomial> = Vec::new();
        chern.push(Polynomial::one());
        chern.push(c1);
        proof { reveal_strlit("L"); }
        let b = VectorBundle { rank: 1, name: String::from_str("L"), chern_classes: chern };
        assert(b@.classes =~= seq![poly_one(), c1@]);
        b
    }

    /// The tautological line bundle `O(-1)` over `CP^n`: `c_1 = -h`.
    pub fn tautological_line_bundle() -> (b: Self)
        ensures
            b@.rank == 1,
            b@.name == seq!['L'],
            b@.classes == seq![poly_one(), poly_monomial(-1, 1)],
    {
        Self::line_bundle(Polynomial::monomial(-1, 1))
    }

    /// The hyperplane line bundle `O(1)` over `CP^n`: `c_1 = h`.
    pub fn hyperplane_bundle() -> (b: Self)
        ensures
            b@.rank == 1,
            b@.name == seq!['L'],
            b@.classes == seq![poly_one(), poly_monomial(1, 1)],
    {
        Self::line_bundle(Polynomial::monomial(1, 1))
    }

    /// The tangent bundle of `CP^n`, named `T(CP^n)`: since
    /// `T(CP^n) + O = O(1)^(n+1)`, its total Chern class is `(1 + h)^(n+1)`
    /// and `c_k = (n+1 choose k) h^k`. Every `n+1 choose k` must fit in an
    /// `i128`, which `lemma_binomial_row_fits` shows for `n < 126`.
    pub fn tangent_bundle_cp(n: usize) -> (b: Self)
        requires
            n + 2 < usize::MAX,
            binomial_row_fits((n + 1) as nat),
        ensures
            b@.rank == n,
            b@.name == seq!['T', '(', 'C', 'P', '^'] + decimal(n as int) + seq![')'],
            b@.classes == graded_classes(binomial_row((n + 1) as nat), n as nat),
    {
        let mut h_coeffs: Vec<i128> = Vec::new();
        h_coeffs.push(1);
        h_coeffs.push(1);
        let h = Polynomial::new(h_coeffs);
        assert(ints(h_coeffs@) =~= seq![1int, 1]);
        let mut total = Polynomial::one();
        assert(total@ =~= binomial_row(0));
        let mut i: usize = 0;
        while i <= n
            invariant
                n + 2 < usize::MAX,
                binomial_row_fits((n + 1) as nat),
                h@ == seq![1int, 1],
                i <= n + 1,
                total@ == binomial_row(i as nat),
            decreases n + 1 - i,
        {
            proof {
                assert forall|k: int| fits_int(#[trigger] binomial((i + 1) as nat, k) as int) by {
                    lemma_binomial_mono((i + 1) as nat, (n + 1) as nat, k);
                    assert(fits_int(binomial((n + 1) as nat, k) as int));
                }
                lemma_row_step(i as nat);
            }
            total = total.mul(&h);
            i += 1;
        }
        let mut chern: Vec<Polynomial> = Vec::new();
        let mut k: usize = 0;
        while k <= n
            invariant
                n < usize::MAX,
                total@ == binomial_row((n + 1) as nat),
                k <= n + 1,
                chern.len() == k,
                forall|j: int| 0 <= j < k ==> #[trigger] views(chern@)[j] == graded_classes(total@, n as nat)[j],
            decreases n + 1 - k,
        {
            let p = Polynomial::monomial(total.coeff(k), k);
            proof {
                if k == 0 {
                    lemma_row_coeff((n + 1) as nat, 0);
                    assert(p@ =~= poly_one());
                }
            }
            let ghost before = chern@;
            chern.push(p);
            assert(views(chern@) =~= views(before).push(p@));
            k += 1;
        }
        let mut name = String::new();
        proof { reveal_strlit("T(CP^"); reveal_strlit(")"); }
        name.append("T(CP^");
        push_decimal(&mut name, n as i128);
        name.append(")");
        let b = VectorBundle { rank: n, name, chern_classes: chern };
        assert(b@.classes =~= graded_classes(binomial_row((n + 1) as nat), n as nat));
        assert(b@.name =~= seq!['T', '(', 'C', 'P', '^'] + decimal(n as int) + seq![')']);
        b
    }

    /// The `k`-th Chern class (`k` must be below the number of classes).
    pub fn chern_class(&self, k: usize) -> (c: &Polynomial)
        requires
            k < self@.classes.len(),
        ensures
            c@ == self@.classes[k as int],
    {
        &self.chern_classes[k]
    }

    /// All Chern classes.
    pub fn chern_classes(&self) -> (cs: &[Polynomial])
        ensures
            views(cs@) == self@.classes,
    {
        self.chern_classes.as_slice()
    }

    /// The `k`-th Chern class, or zero past the last one.
    pub fn get_chern_class(&self, k: usize) -> (c: Polynomial)
        ensures
            c@ == class_at(self@.classes, k as int),
    {
        if k < self.chern_classes.len() {
            self.chern_classes[k].clone()
        } else {
            Polynomial::zero()
        }
    }

    /// The total Chern class `c = c_0 + c_1 + c_2 + ...`.
    pub fn total_chern_class(&self) -> (c: Polynomial)
        requires
            sum_ok(self@.classes),
        ensures
            c@ == sum_polys(self@.classes),
    {
        sum_classes(self.chern_classes.as_slice())
    }
}

/// One addition of `sum_polys` stays in range.
proof fn lemma_sum_step(cs: Seq<Seq<int>>, n: int)
    requires
        sum_ok(cs),
        0 <= n < cs.len(),
    ensures
        add_ok(sum_polys(cs.take(n)), cs[n]),
{
    reveal(sum_ok);
}

/// The sum of the polynomials, added from the first to the last.
pub(crate) fn sum_classes(cs: &[Polynomial]) -> (total: Polynomial)
    requires
        sum_ok(views(cs@)),
    ensures
        total@ == sum_polys(views(cs@)),
{
    let ghost vs = views(cs@);
    let mut total = Polynomial::zero();
    let mut i: usize = 0;
    assert(vs.take(0) =~= Seq::<Seq<int>>::empty());
    while i < cs.len()
        invariant
            vs == views(cs@),
            sum_ok(vs),
            i <= cs@.len() == vs.len(),
            total@ == sum_polys(vs.take(i as int)),
        decreases vs.len() - i,
    {
        proof {
            lemma_sum_step(vs, i as int);
        }
        assert(vs.take(i as int + 1).drop_last() =~= vs.take(i as int));
        total = total.add(&cs[i]);
        i += 1;
    }
    assert(vs.take(vs.len() as int) =~= vs);
    total
}

/// The classes `1, p_1 t, ..., p_n t^n` read off `p`.
pub(crate) fn graded_vec(p: &Polynomial, n: usize) -> (cs: Vec<Polynomial>)
    requires
        n < usize::MAX,
    ensures
        views(cs@) == graded_classes(p@, n as nat),
{
    let mut chern: Vec<Polynomial> = Vec::new();
    chern.push(Polynomial::one());
    let mut k: usize = 1;
    while k <= n
        invariant
            n < usize::MAX,
            1 <= k <= n + 1,
            chern.len() == k,
            forall|j: int| 0 <= j < k ==> #[trigger] views(chern@)[j] == graded_classes(p@, n as nat)[j],
        decreases n + 1 - k,
    {
        let m = Polynomial::monomial(p.coeff(k), k);
        let ghost before = chern@;
        chern.push(m);
        assert(views(chern@) =~= views(before).push(m@));
        k += 1;
    }
    assert(views(chern@) =~= graded_classes(p@, n as nat));
    chern
}

/// The numerator of `ch(E) = rank + c_1 + (c_1^2 - 2 c_2) / 2` over `2`:
/// `2 rank + 2 c_1 + (c_1^2 - 2 c_2)`.
pub open spec fn chern_character_numerator(rank: nat, c1: Seq<int>, c2: Seq<int>) -> Seq<int> {
    poly_add(
        poly_add(poly_monomial(2 * rank as int, 0), poly_scale(c1, 2)),
        poly_sub(poly_mul(c1, c1), poly_scale(c2, 2)),
    )
}

/// Every step of the Chern character stays in range.
pub open spec fn chern_character_ok(rank: nat, c1: Seq<int>, c2: Seq<int>) -> bool {
    &&& scale_ok(c1, 2)
    &&& mul_ok(c1, c1)
    &&& scale_ok(c2, 2)
    &&& sub_ok(poly_mul(c1, c1), poly_scale(c2, 2))
    &&& add_ok(poly_monomial(2 * rank as int, 0), poly_scale(c1, 2))
    &&& add_ok(
        poly_add(poly_monomial(2 * rank as int, 0), poly_scale(c1, 2)),
        poly_sub(poly_mul(c1, c1), poly_scale(c2, 2)),
    )
}

/// The sign `(-1)^k` of `p_k = (-1)^k c_{2k}`.
pub open spec fn pontryagin_sign(k: int) -> int {
    if k % 2 == 0 {
        1
    } else {
        -1
    }
}

/// The Pontryagin classes `p_0 = 1, p_k = (-1)^k c_{2k}` for `k <= rank/2`.
pub open spec fn pontryagin_classes(cs: Seq<Seq<int>>, rank: nat) -> Seq<Seq<int>> {
    Seq::new(
        rank / 2 + 1,
        |k: int| if k == 0 { poly_one() } else { poly_scale(class_at(cs, 2 * k), pontryagin_sign(k)) },
    )
}

/// The numerator of `A = 1 - p_1/24 + (7 p_1^2 - 4 p_2)/5760` over `5760`:
/// `5760 - 240 p_1 + 7 p_1^2 - 4 p_2`.
pub open spec fn a_genus_numerator(p1: Seq<int>, p2: Seq<int>) -> Seq<int> {
    poly_add(
        poly_add(poly_add(poly_monomial(5760, 0), poly_scale(p1, -240)), poly_scale(poly_mul(p1, p1), 7)),
        poly_scale(p2, -4),
    )
}

/// Every step of the A-genus stays in range.
pub open spec fn a_genus_ok(p1: Seq<int>, p2: Seq<int>) -> bool {
    &&& scale_ok(p1, -240)
    &&& mul_ok(p1, p1)
    &&& scale_ok(poly_mul(p1, p1), 7)
    &&& scale_ok(p2, -4)
    &&& add_ok(poly_monomial(5760, 0), poly_scale(p1, -240))
    &&& add_ok(
        poly_add(poly_monomial(5760, 0), poly_scale(p1, -240)),
        poly_scale(poly_mul(p1, p1), 7),
    )
    &&& add_ok(
        poly_add(poly_add(poly_monomial(5760, 0), poly_scale(p1, -240)), poly_scale(poly_mul(p1, p1), 7)),
        poly_scale(p2, -4),
    )
}

/// Chern class computations.
pub struct ChernClass;

impl ChernClass {
    /// Whitney sum formula: `c(E + F) = c(E) * c(F)`. The sum has rank
    /// `rank E + rank F`, and its classes are read off the product of the
    /// two total Chern classes up to that degree.
    pub fn whitney_sum(e: &VectorBundle, f: &VectorBundle) -> (s: VectorBundle)
        requires
            e@.rank + f@.rank < usize::MAX,
            sum_ok(e@.classes),
            sum_ok(f@.classes),
            mul_ok(sum_polys(e@.classes), sum_polys(f@.classes)),
        ensures
            s@.rank == e@.rank + f@.rank,
            s@.name == e@.name + seq![' ', '⊕', ' '] + f@.name,
            s@.classes == graded_classes(
                poly_mul(sum_polys(e@.classes), sum_polys(f@.classes)),
                e@.rank + f@.rank,
            ),
    {
        let rank = e.rank + f.rank;
        let c_e = e.total_chern_class();
        let c_f = f.total_chern_class();
        let c_total = c_e.mul(&c_f);
        let chern = graded_vec(&c_total, rank);
        let mut name = String::new();
        name.append(e.name.as_str());
        proof { reveal_strlit(" ⊕ "); }
        name.append(" ⊕ ");
        name.append(f.name.as_str());
        let s = VectorBundle { rank, name, chern_classes: chern };
        assert(s@.name =~= e@.name + seq![' ', '⊕', ' '] + f@.name);
        s
    }

    /// The top Chern class `c_n` of a rank-`n` bundle.
    pub fn top_class(bundle: &VectorBundle) -> (c: Polynomial)
        ensures
            c@ == class_at(bundle@.classes, bundle@.rank as int),
    {
        bundle.get_chern_class(bundle.rank)
    }

    /// `c_1(L1 (x) L2) = c_1(L1) + c_1(L2)` for two line bundles.
    pub fn c1_tensor_line(l1: &VectorBundle, l2: &VectorBundle) -> (c: Polynomial)
        requires
            l1@.rank == 1,
            l2@.rank == 1,
            add_ok(class_at(l1@.classes, 1), class_at(l2@.classes, 1)),
        ensures
            c@ == poly_add(class_at(l1@.classes, 1), class_at(l2@.classes, 1)),
    {
        l1.get_chern_class(1).add(&l2.get_chern_class(1))
    }

    /// The Chern character up to degree 2,
    /// `ch(E) = rank + c_1 + (c_1^2 - 2 c_2) / 2`, kept exact over the
    /// denominator `2`.
    pub fn chern_character(bundle: &VectorBundle) -> (ch: RationalPolynomial)
        requires
            chern_character_ok(
                bundle@.rank,
                class_at(bundle@.classes, 1),
                class_at(bundle@.classes, 2),
            ),
        ensures
            ch@.numerator == chern_character_numerator(
                bundle@.rank,
                class_at(bundle@.classes, 1),
                class_at(bundle@.classes, 2),
            ),
            ch@.denominator == 2,
    {
        let rank = Polynomial::monomial((bundle.rank as i128) * 2, 0);
        let c1 = bundle.get_chern_class(1);
        let c2 = bundle.get_chern_class(2);
        let c1_sq = c1.mul(&c1);
        let two_c2 = c2.scale(2);
        let ch2 = c1_sq.sub(&two_c2);
        let numerator = rank.add(&c1.scale(2)).add(&ch2);
        RationalPolynomial::new(numerator, 2)
    }
}

/// Todd class computation for the Hirzebruch-Riemann-Roch theorem.
pub struct ToddClass;

impl ToddClass {
    /// The Todd class `td = prod_i x_i/(1 - e^-x_i)` over the Chern roots,
    /// up to the degree of the rank and at least to degree 3:
    /// `td = 1 + c_1/2 + (c_1^2 + c_2)/12 + c_1 c_2/24 + ...`. It is kept
    /// exact over the common denominator `d! 210^d` for that degree `d`,
    /// which fits in an `i128` up to `d = 9`; every step must stay in `i128`.
    pub fn compute(bundle: &VectorBundle) -> (td: RationalPolynomial)
        requires
            bundle@.rank <= 9,
            todd_ok(bundle@.classes, todd_degree(bundle@.rank)),
        ensures
            td@.numerator == todd_class_numerator(bundle@.classes, todd_degree(bundle@.rank)),
            td@.denominator == todd_denominator(todd_degree(bundle@.rank)),
    {
        let d = if bundle.rank < 3 {
            3
        } else {
            bundle.rank
        };
        todd_class(bundle, d)
    }

    /// The Todd genus: the coefficient of the Todd class in the degree of
    /// the rank, as a numerator over the denominator. For `CP^n` it is `1`:
    /// `T(CP^n)` is in range for every `n <= 9` (`lemma_todd_ok_cp`), and its
    /// numerator equals its denominator (`law_todd_genus_cp`).
    pub fn todd_genus(bundle: &VectorBundle) -> (genus: (i128, u128))
        requires
            bundle@.rank <= 9,
            todd_ok(bundle@.classes, todd_degree(bundle@.rank)),
        ensures
            genus.0 == coeff(
                todd_class_numerator(bundle@.classes, todd_degree(bundle@.rank)),
                bundle@.rank as int,
            ),
            genus.1 == todd_denominator(todd_degree(bundle@.rank)),
    {
        let td = Self::compute(bundle);
        td.coeff(bundle.rank)
    }
}

/// Pontryagin classes for real vector bundles: for a real bundle `E` of
/// rank `n`, `p_k(E) = (-1)^k c_{2k}(E (x) C)`.
pub struct PontryaginClass;

impl PontryaginClass {
    /// The Pontryagin classes `p_0 = 1, p_1, ..., p_{rank/2}` from the Chern
    /// classes of the complexified bundle.
    pub fn from_chern(bundle: &VectorBundle) -> (ps: Vec<Polynomial>)
        requires
            forall|k: int|
                1 <= k <= bundle@.rank / 2 ==> #[trigger] scale_ok(
                    class_at(bundle@.classes, 2 * k),
                    pontryagin_sign(k),
                ),
        ensures
            views(ps@) == pontryagin_classes(bundle@.classes, bundle@.rank),
            ps@.len() == bundle@.rank / 2 + 1,
            ps@[0]@ == poly_one(),
            forall|k: int|
                1 <= k <= bundle@.rank / 2 ==> #[trigger] ps@[k]@ == poly_scale(
                    class_at(bundle@.classes, 2 * k),
                    vstd::arithmetic::power::pow(-1, k as nat),
                ),
    {
        let ghost cs = bundle@.classes;
        let ghost r = bundle@.rank;
        let mut pontryagin: Vec<Polynomial> = Vec::new();
        pontryagin.push(Polynomial::one());
        let half = bundle.rank / 2;
        let mut k: usize = 1;
        while k <= half
            invariant
                cs == bundle@.classes,
                r == bundle@.rank,
                half == r / 2,
                forall|j: int| 1 <= j <= r / 2 ==> #[trigger] scale_ok(class_at(cs, 2 * j), pontryagin_sign(j)),
                1 <= k <= half + 1,
                pontryagin.len() == k,
                forall|j: int| 0 <= j < k ==> #[trigger] views(pontryagin@)[j] == pontryagin_classes(cs, r)[j],
            decreases half + 1 - k,
        {
            let c2k = bundle.get_chern_class(2 * k);
            let sign: i128 = if k % 2 == 0 { 1 } else { -1 };
            assert(scale_ok(class_at(cs, 2 * k), pontryagin_sign(k as int)));
            let pk = c2k.scale(sign);
            let ghost before = pontryagin@;
            pontryagin.push(pk);
            assert(views(pontryagin@) =~= views(before).push(pk@));
            k += 1;
        }
        assert(views(pontryagin@) =~= pontryagin_classes(cs, r));
        proof {
            crate::laws::law_pontryagin_classes(cs, r);
            assert forall|k: int| 1 <= k <= r / 2 implies #[trigger] pontryagin@[k]@ == poly_scale(
                class_at(cs, 2 * k),
                vstd::arithmetic::power::pow(-1, k as nat),
            ) by {
                assert(views(pontryagin@)[k] == pontryagin@[k]@);
            }
            assert(views(pontryagin@)[0] == pontryagin@[0]@);
        }
        pontryagin
    }

    /// The first Pontryagin class `p_1 = -c_2`.
    pub fn p1(bundle: &VectorBundle) -> (p: Polynomial)
        requires
            scale_ok(class_at(bundle@.classes, 2), -1),
        ensures
            p@ == poly_scale(class_at(bundle@.classes, 2), -1),
    {
        let c2 = bundle.get_chern_class(2);
        c2.scale(-1)
    }

    /// The A-genus up to degree 4, `A = 1 - p_1/24 + (7 p_1^2 - 4 p_2)/5760`
    /// with `p_1 = -c_2` and `p_2 = c_4`, kept exact over the denominator
    /// `5760`.
    pub fn a_genus(bundle: &VectorBundle) -> (a: RationalPolynomial)
        requires
            scale_ok(class_at(bundle@.classes, 2), -1),
            a_genus_ok(poly_scale(class_at(bundle@.classes, 2), -1), class_at(bundle@.classes, 4)),
        ensures
            a@.numerator == a_genus_numerator(
                poly_scale(class_at(bundle@.classes, 2), -1),
                class_at(bundle@.classes, 4),
            ),
            a@.denominator == 5760,
    {
        let p1 = Self::p1(bundle);
        let p2 = bundle.get_chern_class(4);
        let p1_sq = p1.mul(&p1);
        let term1 = p1.scale(-240);
        let term2 = p1_sq.scale(7);
        let term3 = p2.scale(-4);
        let numerator = Polynomial::monomial(5760, 0).add(&term1).add(&term2).add(&term3);
        RationalPolynomial::new(numerator, 5760)
    }
}

} // verus!
