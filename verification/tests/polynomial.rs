use chern_classes::poly::Polynomial;

#[test]
fn test_polynomial_zero() {
    let p = Polynomial::zero();
    assert_eq!(p.evaluate(5), 0);
    assert!(p.coeffs().is_empty());
}

#[test]
fn test_polynomial_one() {
    let p = Polynomial::one();
    assert_eq!(p.evaluate(5), 1);
    assert_eq!(p.degree(), 0);
}

#[test]
fn test_polynomial_add() {
    let a = Polynomial::new(vec![1, 2]); // 1 + 2t
    let b = Polynomial::new(vec![3, 4]); // 3 + 4t
    let sum = a.add(&b);
    assert_eq!(sum.coeff(0), 4);
    assert_eq!(sum.coeff(1), 6);
}

#[test]
fn test_polynomial_multiply() {
    let a = Polynomial::new(vec![1, 1]); // 1 + t
    let b = Polynomial::new(vec![1, 1]); // 1 + t
    let prod = a.mul(&b);
    // (1+t)^2 = 1 + 2t + t^2
    assert_eq!(prod.coeff(0), 1);
    assert_eq!(prod.coeff(1), 2);
    assert_eq!(prod.coeff(2), 1);
}

#[test]
fn test_polynomial_derivative() {
    let p = Polynomial::new(vec![1, 2, 3]); // 1 + 2t + 3t^2
    let d = p.derivative();
    assert_eq!(d.coeff(0), 2);
    assert_eq!(d.coeff(1), 6);
}

#[test]
fn test_polynomial_display() {
    let p = Polynomial::new(vec![1, 2, 3]);
    let s = p.to_string();
    assert!(s.contains("1") && s.contains("2t") && s.contains("3t^2"));
}

#[test]
fn display_exact_text() {
    assert_eq!(Polynomial::new(vec![1, 2, 3]).to_string(), "1 + 2t + 3t^2");
    assert_eq!(Polynomial::new(vec![0, -3, 0, 12]).to_string(), "-3t + 12t^3");
    assert_eq!(Polynomial::zero().to_string(), "0");
    assert_eq!(Polynomial::monomial(-7, 10).to_string(), "-7t^10");
    assert_eq!(Polynomial::monomial(i128::MIN, 0).to_string(), "-170141183460469231731687303715884105728");
}

#[test]
fn new_drops_trailing_zeros() {
    let p = Polynomial::new(vec![1, 0, 2, 0, 0]);
    assert_eq!(p.coeffs(), &vec![1, 0, 2]);
    assert_eq!(p.degree(), 2);
    assert!(Polynomial::new(vec![0, 0]).coeffs().is_empty());
    assert_eq!(Polynomial::new(vec![0, 0]), Polynomial::zero());
}

#[test]
fn monomial_shapes() {
    assert_eq!(Polynomial::monomial(5, 3).coeffs(), &vec![0, 0, 0, 5]);
    assert_eq!(Polynomial::monomial(0, 3), Polynomial::zero());
    assert_eq!(Polynomial::monomial(1, 0), Polynomial::one());
}

#[test]
fn coeff_past_degree_is_zero() {
    let p = Polynomial::new(vec![4, 5]);
    assert_eq!(p.coeff(1), 5);
    assert_eq!(p.coeff(2), 0);
    assert_eq!(p.coeff(1000), 0);
}

#[test]
fn sub_cancels() {
    let a = Polynomial::new(vec![1, 2, 3]);
    let b = Polynomial::new(vec![1, 2, 5]);
    assert_eq!(a.sub(&a), Polynomial::zero());
    assert_eq!(a.sub(&b).coeffs(), &vec![0, 0, -2]);
    // (a - b) + b = a
    assert_eq!(a.sub(&b).add(&b), a);
}

#[test]
fn add_cancels_leading_terms() {
    let a = Polynomial::new(vec![1, 2, 3]);
    let b = Polynomial::new(vec![0, 1, -3]);
    let s = a.add(&b);
    assert_eq!(s.coeffs(), &vec![1, 3]);
    assert_eq!(s.degree(), 1);
}

#[test]
fn scale_by_constants() {
    let a = Polynomial::new(vec![1, -2, 3]);
    assert_eq!(a.scale(3).coeffs(), &vec![3, -6, 9]);
    assert_eq!(a.scale(0), Polynomial::zero());
    assert_eq!(a.scale(-1).coeffs(), &vec![-1, 2, -3]);
}

#[test]
fn multiply_by_zero_and_one() {
    let a = Polynomial::new(vec![2, 0, 7]);
    assert_eq!(a.mul(&Polynomial::zero()), Polynomial::zero());
    assert_eq!(Polynomial::one().mul(&a), a);
    assert_eq!(a.mul(&Polynomial::one()), a);
}

#[test]
fn multiply_commutes() {
    let a = Polynomial::new(vec![1, -2, 0, 4]);
    let b = Polynomial::new(vec![3, 5]);
    assert_eq!(a.mul(&b), b.mul(&a));
    assert_eq!(a.mul(&b).coeffs(), &vec![3, -1, -10, 12, 20]);
}

#[test]
fn multiply_distributes() {
    let a = Polynomial::new(vec![1, 1]);
    let b = Polynomial::new(vec![2, 0, 1]);
    let c = Polynomial::new(vec![-1, 3]);
    assert_eq!(a.mul(&b.add(&c)), a.mul(&b).add(&a.mul(&c)));
}

#[test]
fn evaluate_values() {
    let p = Polynomial::new(vec![1, 2, 3]); // 1 + 2t + 3t^2
    assert_eq!(p.evaluate(0), 1);
    assert_eq!(p.evaluate(2), 17);
    assert_eq!(p.evaluate(-1), 2);
    let q = Polynomial::new(vec![-4, 0, 1]);
    // evaluation respects addition
    assert_eq!(p.add(&q).evaluate(3), p.evaluate(3) + q.evaluate(3));
}

#[test]
fn derivative_of_constants_and_sums() {
    assert_eq!(Polynomial::new(vec![7]).derivative(), Polynomial::zero());
    assert_eq!(Polynomial::zero().derivative(), Polynomial::zero());
    assert_eq!(Polynomial::monomial(2, 5).derivative(), Polynomial::monomial(10, 4));
    let a = Polynomial::new(vec![1, 2, 3]);
    let b = Polynomial::new(vec![0, -2, 1, 1]);
    assert_eq!(a.add(&b).derivative(), a.derivative().add(&b.derivative()));
}

#[test]
fn clone_and_equality() {
    let a = Polynomial::new(vec![1, 2, 3]);
    let b = a.clone();
    assert_eq!(a, b);
    assert_ne!(a, Polynomial::new(vec![1, 2]));
    assert_ne!(a, Polynomial::new(vec![1, 2, 4]));
}

#[test]
fn addition_laws() {
    let a = Polynomial::new(vec![1, -2, 3]);
    let b = Polynomial::new(vec![0, 5]);
    let c = Polynomial::new(vec![-1, 0, 0, 2]);
    assert_eq!(a.add(&b), b.add(&a));
    assert_eq!(a.add(&b).add(&c), a.add(&b.add(&c)));
    assert_eq!(a.add(&Polynomial::zero()), a);
}

#[test]
fn multiplication_is_associative() {
    let a = Polynomial::new(vec![1, 1]);
    let b = Polynomial::new(vec![2, -1, 3]);
    let c = Polynomial::new(vec![0, 4, 0, -1]);
    assert_eq!(a.mul(&b).mul(&c), a.mul(&b.mul(&c)));
    assert_eq!(a.add(&b).mul(&c), a.mul(&c).add(&b.mul(&c)));
}

#[test]
fn evaluation_respects_multiplication() {
    let a = Polynomial::new(vec![1, -2, 3]);
    let b = Polynomial::new(vec![4, 0, 1]);
    for t in -3..4 {
        assert_eq!(a.mul(&b).evaluate(t), a.evaluate(t) * b.evaluate(t));
    }
}

#[test]
fn derivative_product_rule() {
    // p = 1 + 2t + t^3, q = 3 - t + 4t^2: (pq)' = p'q + pq'
    let p = Polynomial::new(vec![1, 2, 0, 1]);
    let q = Polynomial::new(vec![3, -1, 4]);
    let lhs = p.mul(&q).derivative();
    let rhs = p.derivative().mul(&q).add(&p.mul(&q.derivative()));
    assert_eq!(lhs, rhs);
    assert_eq!(lhs.coeffs(), &vec![5, 4, 33, -4, 20]);
}
