//! Polynomials in one variable `t` with exact integer coefficients.

use crate::decimal::{decimal, lemma_decimal_nonempty, push_decimal};
use vstd::arithmetic::power::pow;
use vstd::prelude::*;
use vstd::string::*;

verus! {

// ---------------------------------------------------------------------------
// The mathematical model: a polynomial is its sequence of coefficients,
// coefficient `k` being that of `t^k`, with no trailing zero.
// ---------------------------------------------------------------------------

/// An integer that fits in an `i128`.
pub open spec fn fits_int(x: int) -> bool {
    i128::MIN <= x <= i128::MAX
}

/// Coefficient `k` of the coefficient sequence `s` (zero outside of it).
pub open spec fn coeff(s: Seq<int>, k: int) -> int {
    if 0 <= k < s.len() {
        s[k]
    } else {
        0
    }
}

/// A coefficient sequence is normalized when it has no trailing zero.
pub open spec fn normalized(s: Seq<int>) -> bool {
    s.len() == 0 || s.last() != 0
}

/// The coefficients of an `i128` vector, as integers.
pub open spec fn ints(v: Seq<i128>) -> Seq<int> {
    v.map_values(|c: i128| c as int)
}

/// The sequence with its trailing zeros removed.
pub open spec fn trim(s: Seq<int>) -> Seq<int>
    decreases s.len(),
{
    if s.len() > 0 && s.last() == 0 {
        trim(s.drop_last())
    } else {
        s
    }
}

/// The longer of the two lengths.
pub open spec fn max_len(a: Seq<int>, b: Seq<int>) -> nat {
    if a.len() >= b.len() {
        a.len()
    } else {
        b.len()
    }
}

/// The sum of two polynomials.
pub open spec fn poly_add(a: Seq<int>, b: Seq<int>) -> Seq<int> {
    trim(Seq::new(max_len(a, b), |k: int| coeff(a, k) + coeff(b, k)))
}

/// The polynomial with every coefficient negated.
pub open spec fn poly_neg(a: Seq<int>) -> Seq<int> {
    trim(Seq::new(a.len(), |k: int| -a[k]))
}

/// The difference `a - b`, computed as `a + (-b)`.
pub open spec fn poly_sub(a: Seq<int>, b: Seq<int>) -> Seq<int> {
    poly_add(a, poly_neg(b))
}

/// Every coefficient multiplied by `c`.
pub open spec fn poly_scale(a: Seq<int>, c: int) -> Seq<int> {
    trim(Seq::new(a.len(), |k: int| a[k] * c))
}

/// `sum_{i < n} a_i * b_{k - i}`: the first `n` terms of the convolution
/// that gives coefficient `k` of a product.
pub open spec fn conv_upto(a: Seq<int>, b: Seq<int>, k: int, n: nat) -> int
    decreases n,
{
    if n == 0 {
        0
    } else {
        conv_upto(a, b, k, (n - 1) as nat) + coeff(a, n - 1) * coeff(b, k - (n - 1))
    }
}

/// The product of two polynomials.
pub open spec fn poly_mul(a: Seq<int>, b: Seq<int>) -> Seq<int> {
    if a.len() == 0 || b.len() == 0 {
        Seq::empty()
    } else {
        trim(Seq::new((a.len() + b.len() - 1) as nat, |k: int| conv_upto(a, b, k, a.len())))
    }
}

/// The formal derivative.
pub open spec fn poly_derivative(a: Seq<int>) -> Seq<int> {
    trim(Seq::new(if a.len() > 0 { (a.len() - 1) as nat } else { 0 }, |k: int| a[k + 1] * (k + 1)))
}

/// The monomial `c * t^d`.
pub open spec fn poly_monomial(c: int, d: nat) -> Seq<int> {
    if c == 0 {
        Seq::empty()
    } else {
        Seq::new(d + 1, |k: int| if k == d { c } else { 0 })
    }
}

/// The constant polynomial `1`.
pub open spec fn poly_one() -> Seq<int> {
    seq![1int]
}

/// `sum_{k < n} a_k * t^k`.
pub open spec fn eval_upto(a: Seq<int>, t: int, n: nat) -> int
    decreases n,
{
    if n == 0 {
        0
    } else {
        eval_upto(a, t, (n - 1) as nat) + coeff(a, n - 1) * pow(t, (n - 1) as nat)
    }
}

/// The value of the polynomial at `t`.
pub open spec fn poly_eval(a: Seq<int>, t: int) -> int {
    eval_upto(a, t, a.len())
}

/// The degree, taken as `0` for constants and for the zero polynomial.
pub open spec fn poly_degree(a: Seq<int>) -> nat {
    if a.len() == 0 {
        0
    } else {
        (a.len() - 1) as nat
    }
}

/// How the term `c * t^i` is written.
pub open spec fn term_text(c: int, i: nat) -> Seq<char> {
    if i == 0 {
        decimal(c)
    } else if i == 1 {
        decimal(c) + seq!['t']
    } else {
        decimal(c) + seq!['t', '^'] + decimal(i as int)
    }
}

/// The nonzero terms among the first `n` coefficients, joined by ` + `.
pub open spec fn terms_text(a: Seq<int>, n: nat) -> Seq<char>
    decreases n,
{
    if n == 0 {
        Seq::empty()
    } else {
        let prev = terms_text(a, (n - 1) as nat);
        if coeff(a, n - 1) == 0 {
            prev
        } else if prev.len() == 0 {
            term_text(coeff(a, n - 1), (n - 1) as nat)
        } else {
            prev + seq![' ', '+', ' '] + term_text(coeff(a, n - 1), (n - 1) as nat)
        }
    }
}

/// The text of a polynomial: its nonzero terms from the lowest degree up,
/// joined by ` + `, or `0` when there is none.
pub open spec fn poly_text(a: Seq<int>) -> Seq<char> {
    if terms_text(a, a.len()).len() == 0 {
        seq!['0']
    } else {
        terms_text(a, a.len())
    }
}

// ---------------------------------------------------------------------------
// When the `i128` computations stay in range.
// ---------------------------------------------------------------------------

/// Every coefficient of the sum fits.
#[verifier::opaque]
pub open spec fn add_ok(a: Seq<int>, b: Seq<int>) -> bool {
    forall|k: int| 0 <= k < max_len(a, b) ==> fits_int(#[trigger] coeff(a, k) + coeff(b, k))
}

/// No coefficient is `i128::MIN`, so the negation fits.
#[verifier::opaque]
pub open spec fn neg_ok(a: Seq<int>) -> bool {
    forall|k: int| 0 <= k < a.len() ==> fits_int(-#[trigger] a[k])
}

/// `a - b` is computed without overflow.
#[verifier::opaque]
pub open spec fn sub_ok(a: Seq<int>, b: Seq<int>) -> bool {
    neg_ok(b) && add_ok(a, poly_neg(b))
}

/// Every scaled coefficient fits.
#[verifier::opaque]
pub open spec fn scale_ok(a: Seq<int>, c: int) -> bool {
    forall|k: int| 0 <= k < a.len() ==> fits_int(#[trigger] a[k] * c)
}

/// The length of the product fits in a `usize`, and every product of two
/// coefficients and every partial sum of the convolutions fits.
#[verifier::opaque]
pub open spec fn mul_ok(a: Seq<int>, b: Seq<int>) -> bool {
    &&& a.len() + b.len() <= usize::MAX
    &&& forall|i: int, j: int|
        0 <= i < a.len() && 0 <= j < b.len() ==> fits_int(#[trigger] (a[i] * b[j]))
    &&& forall|k: int, n: nat|
        0 <= k < a.len() + b.len() && n <= a.len() ==> fits_int(#[trigger] conv_upto(a, b, k, n))
}

/// Every coefficient of the derivative fits.
#[verifier::opaque]
pub open spec fn derivative_ok(a: Seq<int>) -> bool {
    forall|k: int| 0 <= k < a.len() - 1 ==> fits_int(#[trigger] a[k + 1] * (k + 1))
}

/// Every power of `t`, every term and every partial sum fits.
#[verifier::opaque]
pub open spec fn eval_ok(a: Seq<int>, t: int) -> bool {
    &&& forall|k: nat| k < a.len() ==> fits_int(#[trigger] pow(t, k))
    &&& forall|k: nat| k < a.len() ==> fits_int(#[trigger] a[k as int] * pow(t, k))
    &&& forall|n: nat| n <= a.len() ==> fits_int(#[trigger] eval_upto(a, t, n))
}

// ---------------------------------------------------------------------------
// Basic lemmas.
// ---------------------------------------------------------------------------

/// Trimming gives a normalized sequence with the same coefficients, and
/// leaves a normalized sequence as it is.
pub proof fn lemma_trim(s: Seq<int>)
    ensures
        normalized(trim(s)),
        trim(s).len() <= s.len(),
        forall|k: int| #[trigger] coeff(trim(s), k) == coeff(s, k),
        normalized(s) ==> trim(s) == s,
    decreases s.len(),
{
    if s.len() > 0 && s.last() == 0 {
        lemma_trim(s.drop_last());
        assert forall|k: int| #[trigger] coeff(trim(s), k) == coeff(s, k) by {
            assert(coeff(trim(s.drop_last()), k) == coeff(s.drop_last(), k));
        }
    }
}

/// Two normalized sequences with the same coefficients are equal.
pub proof fn lemma_coeff_ext(a: Seq<int>, b: Seq<int>)
    requires
        normalized(a),
        normalized(b),
        forall|k: int| #[trigger] coeff(a, k) == coeff(b, k),
    ensures
        a == b,
{
    if a.len() < b.len() {
        assert(coeff(b, b.len() - 1) == coeff(a, b.len() - 1));
    } else if b.len() < a.len() {
        assert(coeff(a, a.len() - 1) == coeff(b, a.len() - 1));
    }
    assert forall|k: int| 0 <= k < a.len() implies a[k] == b[k] by {
        assert(coeff(a, k) == coeff(b, k));
    }
    assert(a =~= b);
}

/// The operations give normalized sequences.
pub proof fn lemma_ops_normalized(a: Seq<int>, b: Seq<int>, c: int)
    ensures
        normalized(poly_add(a, b)),
        normalized(poly_neg(a)),
        normalized(poly_sub(a, b)),
        normalized(poly_scale(a, c)),
        normalized(poly_mul(a, b)),
        normalized(poly_derivative(a)),
        normalized(poly_monomial(c, 0)),
        normalized(poly_one()),
{
    lemma_trim(Seq::new(max_len(a, b), |k: int| coeff(a, k) + coeff(b, k)));
    lemma_trim(Seq::new(a.len(), |k: int| -a[k]));
    lemma_trim(Seq::new(max_len(a, poly_neg(b)), |k: int| coeff(a, k) + coeff(poly_neg(b), k)));
    lemma_trim(Seq::new(a.len(), |k: int| a[k] * c));
    if a.len() != 0 && b.len() != 0 {
        lemma_trim(Seq::new((a.len() + b.len() - 1) as nat, |k: int| conv_upto(a, b, k, a.len())));
    }
    lemma_trim(Seq::new(if a.len() > 0 { (a.len() - 1) as nat } else { 0 }, |k: int| a[k + 1] * (k + 1)));
}

/// Coefficient `k` of a sum is the sum of the coefficients.
pub proof fn lemma_add_coeff(a: Seq<int>, b: Seq<int>, k: int)
    ensures
        coeff(poly_add(a, b), k) == coeff(a, k) + coeff(b, k),
{
    lemma_trim(Seq::new(max_len(a, b), |k: int| coeff(a, k) + coeff(b, k)));
}

/// Coefficient `k` of a negation.
pub proof fn lemma_neg_coeff(a: Seq<int>, k: int)
    ensures
        coeff(poly_neg(a), k) == -coeff(a, k),
{
    lemma_trim(Seq::new(a.len(), |k: int| -a[k]));
}

/// Coefficient `k` of a difference.
pub proof fn lemma_sub_coeff(a: Seq<int>, b: Seq<int>, k: int)
    ensures
        coeff(poly_sub(a, b), k) == coeff(a, k) - coeff(b, k),
{
    lemma_add_coeff(a, poly_neg(b), k);
    lemma_neg_coeff(b, k);
}

/// Coefficient `k` of a scaled polynomial.
pub proof fn lemma_scale_coeff(a: Seq<int>, c: int, k: int)
    ensures
        coeff(poly_scale(a, c), k) == coeff(a, k) * c,
{
    lemma_trim(Seq::new(a.len(), |k: int| a[k] * c));
}

/// Coefficient `k` of a monomial.
pub proof fn lemma_monomial_coeff(c: int, d: nat, k: int)
    ensures
        coeff(poly_monomial(c, d), k) == (if k == d { c } else { 0 }),
        normalized(poly_monomial(c, d)),
{
}

/// Coefficient `k` of a derivative.
pub proof fn lemma_derivative_coeff(a: Seq<int>, k: int)
    ensures
        coeff(poly_derivative(a), k) == (if k >= 0 { coeff(a, k + 1) * (k + 1) } else { 0 }),
{
    lemma_trim(Seq::new(if a.len() > 0 { (a.len() - 1) as nat } else { 0 }, |k: int| a[k + 1] * (k + 1)));
}

/// A convolution sum vanishes outside the degrees of the product.
pub proof fn lemma_conv_outside(a: Seq<int>, b: Seq<int>, k: int, n: nat)
    requires
        b.len() == 0 || k < 0 || k >= a.len() + b.len() - 1,
    ensures
        conv_upto(a, b, k, n) == 0,
    decreases n,
{
    if n > 0 {
        lemma_conv_outside(a, b, k, (n - 1) as nat);
        assert(coeff(a, n - 1) * coeff(b, k - (n - 1)) == 0) by {
            if 0 <= n - 1 < a.len() {
                assert(coeff(b, k - (n - 1)) == 0);
            }
        }
    }
}

/// Terms past the end of `a` add nothing to a convolution sum.
pub proof fn lemma_conv_past_end(a: Seq<int>, b: Seq<int>, k: int, n: nat)
    requires
        n >= a.len(),
    ensures
        conv_upto(a, b, k, n) == conv_upto(a, b, k, a.len()),
    decreases n,
{
    if n > a.len() {
        lemma_conv_past_end(a, b, k, (n - 1) as nat);
    }
}

/// Coefficient `k` of a product is the convolution `sum_i a_i * b_{k-i}`.
pub proof fn lemma_mul_coeff(a: Seq<int>, b: Seq<int>, k: int)
    ensures
        coeff(poly_mul(a, b), k) == conv_upto(a, b, k, a.len()),
{
    if a.len() == 0 {
    } else if b.len() == 0 {
        lemma_conv_outside(a, b, k, a.len());
    } else {
        lemma_trim(Seq::new((a.len() + b.len() - 1) as nat, |k: int| conv_upto(a, b, k, a.len())));
        if !(0 <= k < a.len() + b.len() - 1) {
            lemma_conv_outside(a, b, k, a.len());
        }
    }
}

/// The convolution sums of a product with the factor `c0 + c1 t`.
pub proof fn lemma_conv_affine(a: Seq<int>, c0: int, c1: int, k: int, n: nat)
    ensures
        conv_upto(a, seq![c0, c1], k, n) == (if 0 <= k < n { coeff(a, k) * c0 } else { 0 }) + (if 0 <= k - 1
            < n {
            coeff(a, k - 1) * c1
        } else {
            0
        }),
    decreases n,
{
    if n > 0 {
        lemma_conv_affine(a, c0, c1, k, (n - 1) as nat);
        let m = n - 1;
        if k - m == 0 {
            assert(coeff(seq![c0, c1], k - m) == c0);
        } else if k - m == 1 {
            assert(coeff(seq![c0, c1], k - m) == c1);
        } else {
            assert(coeff(seq![c0, c1], k - m) == 0);
            let x = coeff(a, m);
            assert(x * 0 == 0) by (nonlinear_arith);
        }
    }
}

/// Multiplying by the factor `c0 + c1 t`.
pub proof fn lemma_mul_affine(a: Seq<int>, c0: int, c1: int, k: int)
    ensures
        coeff(poly_mul(a, seq![c0, c1]), k) == coeff(a, k) * c0 + coeff(a, k - 1) * c1,
{
    lemma_mul_coeff(a, seq![c0, c1], k);
    lemma_conv_affine(a, c0, c1, k, a.len());
    let x = coeff(a, k);
    let y = coeff(a, k - 1);
    if !(0 <= k < a.len()) {
        assert(x == 0);
        assert(x * c0 == 0) by (nonlinear_arith)
            requires
                x == 0,
        ;
    }
    if !(0 <= k - 1 < a.len()) {
        assert(y == 0);
        assert(y * c1 == 0) by (nonlinear_arith)
            requires
                y == 0,
        ;
    }
}

/// With nonnegative coefficients bounded by `x` and `y`, the first `n`
/// terms of a convolution sum lie in `0..=n*x*y`.
pub proof fn lemma_conv_bound(a: Seq<int>, b: Seq<int>, x: int, y: int, k: int, n: nat)
    requires
        forall|i: int| 0 <= #[trigger] coeff(a, i) <= x,
        forall|i: int| 0 <= #[trigger] coeff(b, i) <= y,
    ensures
        0 <= conv_upto(a, b, k, n) <= n * (x * y),
    decreases n,
{
    if n == 0 {
        assert(n * (x * y) == 0) by (nonlinear_arith)
            requires
                n == 0,
        ;
    } else {
        lemma_conv_bound(a, b, x, y, k, (n - 1) as nat);
        let u = coeff(a, n - 1);
        let v = coeff(b, k - (n - 1));
        let prev = conv_upto(a, b, k, (n - 1) as nat);
        assert(0 <= u * v <= x * y) by (nonlinear_arith)
            requires
                0 <= u <= x,
                0 <= v <= y,
        ;
        assert(prev + u * v <= n * (x * y)) by (nonlinear_arith)
            requires
                prev <= (n - 1) * (x * y),
                u * v <= x * y,
                n >= 1,
        ;
        assert(conv_upto(a, b, k, n) == prev + u * v);
    }
}

/// A normalized sequence whose coefficients vanish past degree `d` has at
/// most `d + 1` coefficients.
pub proof fn lemma_len_from_coeffs(s: Seq<int>, d: int)
    requires
        normalized(s),
        d >= -1,
        forall|k: int| k > d ==> #[trigger] coeff(s, k) == 0,
    ensures
        s.len() <= d + 1,
{
    if s.len() > d + 1 {
        assert(coeff(s, s.len() - 1) == 0);
    }
}

/// The first two terms of a convolution sum for coefficient `1`.
pub proof fn lemma_conv_at_one(a: Seq<int>, b: Seq<int>, n: nat)
    requires
        n >= 2,
    ensures
        conv_upto(a, b, 1, n) == coeff(a, 0) * coeff(b, 1) + coeff(a, 1) * coeff(b, 0),
    decreases n,
{
    if n > 2 {
        lemma_conv_at_one(a, b, (n - 1) as nat);
        assert(coeff(b, 1 - (n - 1)) == 0);
    } else {
        assert(conv_upto(a, b, 1, 0) == 0);
        assert(conv_upto(a, b, 1, 1) == coeff(a, 0) * coeff(b, 1));
    }
}

/// The first three terms of a convolution sum for coefficient `2`.
pub proof fn lemma_conv_at_two(a: Seq<int>, b: Seq<int>, n: nat)
    requires
        n >= 3,
    ensures
        conv_upto(a, b, 2, n) == coeff(a, 0) * coeff(b, 2) + coeff(a, 1) * coeff(b, 1) + coeff(a, 2) * coeff(b, 0),
    decreases n,
{
    if n > 3 {
        lemma_conv_at_two(a, b, (n - 1) as nat);
        assert(coeff(b, 2 - (n - 1)) == 0);
    } else {
        assert(conv_upto(a, b, 2, 0) == 0);
        assert(conv_upto(a, b, 2, 1) == coeff(a, 0) * coeff(b, 2));
        assert(conv_upto(a, b, 2, 2) == coeff(a, 0) * coeff(b, 2) + coeff(a, 1) * coeff(b, 1));
    }
}

/// Multiplying by the constant `1` on either side.
pub proof fn lemma_mul_one(a: Seq<int>, k: int)
    ensures
        coeff(poly_mul(poly_one(), a), k) == coeff(a, k),
        coeff(poly_mul(a, poly_one()), k) == coeff(a, k),
{
    lemma_mul_coeff(poly_one(), a, k);
    assert(coeff(poly_one(), 0) == 1);
    assert(conv_upto(poly_one(), a, k, 0) == 0);
    assert(1 * coeff(a, k) == coeff(a, k));
    assert(conv_upto(poly_one(), a, k, 1) == coeff(a, k));
    lemma_mul_coeff(a, poly_one(), k);
    lemma_conv_one_right(a, k, a.len());
}

/// Multiplying by `1` on the right keeps every coefficient.
proof fn lemma_conv_one_right(a: Seq<int>, k: int, n: nat)
    requires
        n >= a.len(),
    ensures
        conv_upto(a, poly_one(), k, n) == coeff(a, k),
{
    lemma_conv_partial_one(a, k, n);
}

/// The partial convolution sums of a product with `1` on the right.
proof fn lemma_conv_partial_one(a: Seq<int>, k: int, n: nat)
    ensures
        conv_upto(a, poly_one(), k, n) == (if 0 <= k < n { coeff(a, k) } else { 0 }),
    decreases n,
{
    if n > 0 {
        lemma_conv_partial_one(a, k, (n - 1) as nat);
        if k == n - 1 {
            assert(coeff(poly_one(), k - (n - 1)) == 1);
        } else {
            assert(coeff(poly_one(), k - (n - 1)) == 0);
        }
    }
}

// ---------------------------------------------------------------------------
// The executable type.
// ---------------------------------------------------------------------------

/// A polynomial `sum_k coeffs[k] * t^k` with integer coefficients.
/// The coefficient vector never ends in a zero, so the zero polynomial
/// is the empty vector.
#[derive(Debug)]
pub struct Polynomial {
    coeffs: Vec<i128>,
}

impl View for Polynomial {
    type V = Seq<int>;

    closed spec fn view(&self) -> Seq<int> {
        trim(ints(self.coeffs@))
    }
}

/// The coefficient sequence of every polynomial is normalized.
pub proof fn lemma_view_normalized(p: Polynomial)
    ensures
        normalized(p@),
{
    lemma_trim(ints(p.coeffs@));
}

/// Removes the trailing zeros of a coefficient vector.
fn trim_vec(v: &mut Vec<i128>)
    ensures
        ints(final(v)@) == trim(ints(old(v)@)),
{
    let ghost orig = ints(v@);
    proof {
        lemma_trim(orig);
    }
    while v.len() > 0 && v[v.len() - 1] == 0
        invariant
            trim(ints(v@)) == trim(orig),
        decreases v.len(),
    {
        proof {
            assert(ints(v@).drop_last() =~= ints(v@.drop_last()));
        }
        v.pop();
    }
}

impl Polynomial {
    #[verifier::type_invariant]
    closed spec fn inv(self) -> bool {
        normalized(ints(self.coeffs@))
    }

    /// A polynomial from its coefficients (trailing zeros are dropped).
    pub fn new(coeffs: Vec<i128>) -> (p: Self)
        ensures
            p@ == trim(ints(coeffs@)),
    {
        let ghost orig = ints(coeffs@);
        let mut coeffs = coeffs;
        trim_vec(&mut coeffs);
        proof {
            lemma_trim(orig);
            lemma_trim(trim(orig));
        }
        Polynomial { coeffs }
    }

    /// The constant polynomial `1`.
    pub fn one() -> (p: Self)
        ensures
            p@ == poly_one(),
    {
        let mut coeffs: Vec<i128> = Vec::new();
        coeffs.push(1);
        let p = Polynomial { coeffs };
        proof {
            lemma_trim(ints(p.coeffs@));
        }
        assert(p@ =~= poly_one());
        p
    }

    /// The monomial `coeff * t^degree`.
    pub fn monomial(coeff: i128, degree: usize) -> (p: Self)
        requires
            coeff != 0 ==> degree < usize::MAX,
        ensures
            p@ == poly_monomial(coeff as int, degree as nat),
    {
        if coeff == 0 {
            return Self::zero();
        }
        let mut coeffs: Vec<i128> = vec![0; degree + 1];
        coeffs.set(degree, coeff);
        assert(ints(coeffs@) =~= poly_monomial(coeff as int, degree as nat));
        let p = Polynomial { coeffs };
        proof {
            lemma_trim(ints(p.coeffs@));
        }
        p
    }

    /// The degree (`0` for constants and for the zero polynomial).
    pub fn degree(&self) -> (d: usize)
        ensures
            d == poly_degree(self@),
    {
        proof {
            use_type_invariant(self);
            lemma_trim(ints(self.coeffs@));
        }
        if self.coeffs.len() == 0 {
            0
        } else {
            self.coeffs.len() - 1
        }
    }

    /// The coefficient of `t^k` (zero past the degree).
    pub fn coeff(&self, k: usize) -> (c: i128)
        ensures
            c == coeff(self@, k as int),
    {
        proof {
            use_type_invariant(self);
            lemma_trim(ints(self.coeffs@));
        }
        if k < self.coeffs.len() {
            self.coeffs[k]
        } else {
            0
        }
    }

    /// The coefficients, lowest degree first, without trailing zeros.
    pub fn coeffs(&self) -> (c: &Vec<i128>)
        ensures
            ints(c@) == self@,
    {
        proof {
            use_type_invariant(self);
            lemma_trim(ints(self.coeffs@));
        }
        &self.coeffs
    }

    /// The sum of two polynomials.
    pub fn add(&self, other: &Polynomial) -> (p: Polynomial)
        requires
            add_ok(self@, other@),
        ensures
            p@ == poly_add(self@, other@),
    {
        proof {
            use_type_invariant(self);
            use_type_invariant(other);
            lemma_trim(ints(self.coeffs@));
            lemma_trim(ints(other.coeffs@));
        }
        reveal(add_ok);
        let ghost a = self@;
        let ghost b = other@;
        let len = if self.coeffs.len() >= other.coeffs.len() {
            self.coeffs.len()
        } else {
            other.coeffs.len()
        };
        let mut coeffs: Vec<i128> = vec![0; len];
        let mut i: usize = 0;
        while i < self.coeffs.len()
            invariant
                a == self@,
                a == ints(self.coeffs@),
                coeffs.len() == len,
                len == max_len(a, b),
                i <= self.coeffs.len() == a.len(),
                forall|k: int| 0 <= k < len ==> #[trigger] coeffs@[k] == (if k < i { coeff(a, k) } else { 0 }),
            decreases self.coeffs.len() - i,
        {
            coeffs.set(i, self.coeffs[i]);
            i += 1;
        }
        let mut j: usize = 0;
        while j < other.coeffs.len()
            invariant
                a == self@,
                a == ints(self.coeffs@),
                b == other@,
                b == ints(other.coeffs@),
                add_ok(a, b),
                coeffs.len() == len,
                len == max_len(a, b),
                j <= other.coeffs.len() == b.len(),
                forall|k: int| 0 <= k < len ==> #[trigger] coeffs@[k] == coeff(a, k) + (if k < j { coeff(b, k) } else { 0 }),
            decreases other.coeffs.len() - j,
        {
            proof {
                reveal(add_ok);
            }
            assert(fits_int(coeff(a, j as int) + coeff(b, j as int)));
            let c = coeffs[j] + other.coeffs[j];
            coeffs.set(j, c);
            j += 1;
        }
        assert(ints(coeffs@) =~= Seq::new(max_len(a, b), |k: int| coeff(a, k) + coeff(b, k)));
        Polynomial::new(coeffs)
    }

    /// The polynomial with every coefficient negated.
    fn neg(&self) -> (p: Polynomial)
        requires
            neg_ok(self@),
        ensures
            p@ == poly_neg(self@),
    {
        proof {
            use_type_invariant(self);
            lemma_trim(ints(self.coeffs@));
        }
        reveal(neg_ok);
        let ghost a = self@;
        let mut coeffs: Vec<i128> = Vec::new();
        let mut i: usize = 0;
        while i < self.coeffs.len()
            invariant
                a == self@,
                a == ints(self.coeffs@),
                neg_ok(a),
                i <= self.coeffs.len() == a.len(),
                coeffs.len() == i,
                forall|k: int| 0 <= k < i ==> #[trigger] coeffs@[k] == -a[k],
            decreases self.coeffs.len() - i,
        {
            proof {
                reveal(neg_ok);
            }
            assert(fits_int(-a[i as int]));
            coeffs.push(-self.coeffs[i]);
            i += 1;
        }
        assert(ints(coeffs@) =~= Seq::new(a.len(), |k: int| -a[k]));
        Polynomial::new(coeffs)
    }

    /// The difference `self - other`.
    pub fn sub(&self, other: &Polynomial) -> (p: Polynomial)
        requires
            sub_ok(self@, other@),
        ensures
            p@ == poly_sub(self@, other@),
    {
        reveal(sub_ok);
        let neg = other.neg();
        self.add(&neg)
    }

    /// Every coefficient multiplied by `scalar`.
    pub fn scale(&self, scalar: i128) -> (p: Polynomial)
        requires
            scale_ok(self@, scalar as int),
        ensures
            p@ == poly_scale(self@, scalar as int),
    {
        proof {
            use_type_invariant(self);
            lemma_trim(ints(self.coeffs@));
        }
        reveal(scale_ok);
        let ghost a = self@;
        let mut coeffs: Vec<i128> = Vec::new();
        let mut i: usize = 0;
        while i < self.coeffs.len()
            invariant
                a == self@,
                a == ints(self.coeffs@),
                scale_ok(a, scalar as int),
                i <= self.coeffs.len() == a.len(),
                coeffs.len() == i,
                forall|k: int| 0 <= k < i ==> #[trigger] coeffs@[k] == a[k] * scalar,
            decreases self.coeffs.len() - i,
        {
            proof {
                reveal(scale_ok);
            }
            assert(fits_int(a[i as int] * scalar));
            coeffs.push(self.coeffs[i] * scalar);
            i += 1;
        }
        assert(ints(coeffs@) =~= Seq::new(a.len(), |k: int| a[k] * scalar));
        Polynomial::new(coeffs)
    }

    /// The product of two polynomials.
    pub fn mul(&self, other: &Polynomial) -> (p: Polynomial)
        requires
            mul_ok(self@, other@),
        ensures
            p@ == poly_mul(self@, other@),
    {
        proof {
            use_type_invariant(self);
            use_type_invariant(other);
            lemma_trim(ints(self.coeffs@));
            lemma_trim(ints(other.coeffs@));
        }
        reveal(mul_ok);
        let ghost a = self@;
        let ghost b = other@;
        if self.coeffs.len() == 0 || other.coeffs.len() == 0 {
            return Polynomial::zero();
        }
        let len = self.coeffs.len() + other.coeffs.len() - 1;
        let mut coeffs: Vec<i128> = vec![0; len];
        let mut i: usize = 0;
        while i < self.coeffs.len()
            invariant
                a == self@,
                a == ints(self.coeffs@),
                b == other@,
                b == ints(other.coeffs@),
                mul_ok(a, b),
                a.len() == self.coeffs.len(),
                b.len() == other.coeffs.len(),
                b.len() > 0,
                len == a.len() + b.len() - 1,
                coeffs.len() == len,
                i <= a.len(),
                forall|k: int| 0 <= k < len ==> #[trigger] coeffs@[k] == conv_upto(a, b, k, i as nat),
            decreases a.len() - i,
        {
            let mut j: usize = 0;
            while j < other.coeffs.len()
                invariant
                    a == self@,
                    a == ints(self.coeffs@),
                    b == other@,
                    b == ints(other.coeffs@),
                    mul_ok(a, b),
                    a.len() == self.coeffs.len(),
                    b.len() == other.coeffs.len(),
                    len == a.len() + b.len() - 1,
                    coeffs.len() == len,
                    i < a.len(),
                    j <= b.len(),
                    forall|k: int|
                        0 <= k < len ==> #[trigger] coeffs@[k] == (if i <= k < i + j {
                            conv_upto(a, b, k, (i + 1) as nat)
                        } else {
                            conv_upto(a, b, k, i as nat)
                        }),
                decreases b.len() - j,
            {
                proof {
                    reveal(mul_ok);
                }
                let k = i + j;
                assert(conv_upto(a, b, k as int, (i + 1) as nat) == conv_upto(a, b, k as int, i as nat)
                    + a[i as int] * b[j as int]);
                assert(fits_int(a[i as int] * b[j as int]));
                assert(fits_int(conv_upto(a, b, k as int, (i + 1) as nat)));
                let c = coeffs[k] + self.coeffs[i] * other.coeffs[j];
                coeffs.set(k, c);
                j += 1;
            }
            assert forall|k: int| 0 <= k < len implies #[trigger] coeffs@[k] == conv_upto(a, b, k, (i + 1) as nat) by {
                if !(i <= k < i + b.len()) {
                    assert(conv_upto(a, b, k, (i + 1) as nat) == conv_upto(a, b, k, i as nat)
                        + coeff(a, i as int) * coeff(b, k - i));
                }
            }
            i += 1;
        }
        assert(ints(coeffs@) =~= Seq::new((a.len() + b.len() - 1) as nat, |k: int| conv_upto(a, b, k, a.len())));
        Polynomial::new(coeffs)
    }

    /// The formal derivative.
    pub fn derivative(&self) -> (p: Polynomial)
        requires
            derivative_ok(self@),
        ensures
            p@ == poly_derivative(self@),
    {
        proof {
            use_type_invariant(self);
            lemma_trim(ints(self.coeffs@));
        }
        reveal(derivative_ok);
        let ghost a = self@;
        if self.degree() == 0 {
            let z = Polynomial::zero();
            assert(Seq::new(if a.len() > 0 { (a.len() - 1) as nat } else { 0 }, |k: int| a[k + 1] * (k + 1))
                =~= Seq::<int>::empty());
            proof {
                lemma_trim(Seq::<int>::empty());
            }
            return z;
        }
        let mut coeffs: Vec<i128> = Vec::new();
        let mut i: usize = 1;
        while i < self.coeffs.len()
            invariant
                a == self@,
                a == ints(self.coeffs@),
                derivative_ok(a),
                1 <= i <= self.coeffs.len() == a.len(),
                coeffs.len() == i - 1,
                forall|k: int| 0 <= k < i - 1 ==> #[trigger] coeffs@[k] == a[k + 1] * (k + 1),
            decreases self.coeffs.len() - i,
        {
            proof {
                reveal(derivative_ok);
            }
            assert(fits_int(a[(i - 1) + 1] * ((i - 1) + 1)));
            let c = self.coeffs[i] * (i as i128);
            coeffs.push(c);
            i += 1;
        }
        assert(ints(coeffs@) =~= Seq::new((a.len() - 1) as nat, |k: int| a[k + 1] * (k + 1)));
        Polynomial::new(coeffs)
    }

    /// The value at `t`, as `sum_k c_k * t^k`.
    pub fn evaluate(&self, t: i128) -> (v: i128)
        requires
            eval_ok(self@, t as int),
        ensures
            v == poly_eval(self@, t as int),
    {
        proof {
            use_type_invariant(self);
            lemma_trim(ints(self.coeffs@));
        }
        reveal(eval_ok);
        let ghost a = self@;
        let mut result: i128 = 0;
        let mut power: i128 = 1;
        let mut i: usize = 0;
        proof {
            vstd::arithmetic::power::lemma_pow0(t as int);
        }
        while i < self.coeffs.len()
            invariant
                a == self@,
                a == ints(self.coeffs@),
                eval_ok(a, t as int),
                i <= self.coeffs.len() == a.len(),
                result == eval_upto(a, t as int, i as nat),
                i < a.len() ==> power == pow(t as int, i as nat),
            decreases a.len() - i,
        {
            proof {
                reveal(eval_ok);
            }
            assert(fits_int(a[i as int] * pow(t as int, i as nat)));
            assert(fits_int(eval_upto(a, t as int, (i + 1) as nat)));
            result = result + self.coeffs[i] * power;
            if i + 1 < self.coeffs.len() {
                proof {
                    vstd::arithmetic::power::lemma_pow_adds(t as int, i as nat, 1);
                    vstd::arithmetic::power::lemma_pow1(t as int);
                    assert(fits_int(pow(t as int, (i + 1) as nat)));
                }
                power = power * t;
            }
            i += 1;
        }
        result
    }

    /// The polynomial written out, e.g. `1 + 2t + 3t^2`.
    pub fn to_string(&self) -> (s: String)
        ensures
            s@ == poly_text(self@),
    {
        proof {
            use_type_invariant(self);
            lemma_trim(ints(self.coeffs@));
        }
        let ghost a = self@;
        let mut s = String::new();
        let mut first = true;
        let mut i: usize = 0;
        while i < self.coeffs.len()
            invariant
                a == self@,
                a == ints(self.coeffs@),
                i <= self.coeffs.len() == a.len(),
                s@ == terms_text(a, i as nat),
                first == (terms_text(a, i as nat).len() == 0),
            decreases a.len() - i,
        {
            let c = self.coeffs[i];
            if c != 0 {
                proof {
                    lemma_decimal_nonempty(c as int);
                }
                if !first {
                    proof { reveal_strlit(" + "); }
                    s.append(" + ");
                }
                push_decimal(&mut s, c);
                if i == 1 {
                    proof { reveal_strlit("t"); }
                    s.append("t");
                } else if i > 1 {
                    proof { reveal_strlit("t^"); }
                    s.append("t^");
                    push_decimal(&mut s, i as i128);
                }
                first = false;
            }
            i += 1;
            assert(s@ =~= terms_text(a, i as nat));
        }
        if first {
            proof { reveal_strlit("0"); }
            s.append("0");
            assert(s@ =~= poly_text(a));
        }
        s
    }

    /// The zero polynomial.
    pub fn zero() -> (p: Self)
        ensures
            p@ == Seq::<int>::empty(),
    {
        let p = Polynomial { coeffs: Vec::new() };
        assert(ints(p.coeffs@) =~= Seq::<int>::empty());
        proof {
            lemma_trim(ints(p.coeffs@));
        }
        p
    }
}

} // verus!

verus! {

impl Clone for Polynomial {
    fn clone(&self) -> (p: Self)
        ensures
            p@ == self@,
    {
        proof {
            use_type_invariant(self);
            lemma_trim(ints(self.coeffs@));
        }
        let mut coeffs: Vec<i128> = Vec::new();
        let mut i: usize = 0;
        while i < self.coeffs.len()
            invariant
                i <= self.coeffs.len(),
                coeffs@ == self.coeffs@.subrange(0, i as int),
            decreases self.coeffs.len() - i,
        {
            coeffs.push(self.coeffs[i]);
            i += 1;
            assert(coeffs@ =~= self.coeffs@.subrange(0, i as int));
        }
        assert(coeffs@ =~= self.coeffs@);
        Polynomial { coeffs }
    }
}

impl PartialEq for Polynomial {
    fn eq(&self, other: &Self) -> (r: bool) {
        proof {
            use_type_invariant(self);
            use_type_invariant(other);
            lemma_trim(ints(self.coeffs@));
            lemma_trim(ints(other.coeffs@));
        }
        if self.coeffs.len() != other.coeffs.len() {
            assert(self@.len() != other@.len());
            return false;
        }
        let mut i: usize = 0;
        while i < self.coeffs.len()
            invariant
                i <= self.coeffs.len() == other.coeffs.len(),
                self@ == ints(self.coeffs@),
                other@ == ints(other.coeffs@),
                forall|k: int| 0 <= k < i ==> self.coeffs@[k] == other.coeffs@[k],
            decreases self.coeffs.len() - i,
        {
            if self.coeffs[i] != other.coeffs[i] {
                assert(self@[i as int] != other@[i as int]);
                return false;
            }
            i += 1;
        }
        assert(self@ =~= other@);
        true
    }
}

impl vstd::std_specs::cmp::PartialEqSpecImpl for Polynomial {
    open spec fn obeys_eq_spec() -> bool {
        true
    }

    open spec fn eq_spec(&self, other: &Self) -> bool {
        self@ == other@
    }
}

} // verus!
