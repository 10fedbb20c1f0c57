use chern_classes::poly::Polynomial;
use chern_classes::bundle::{ToddClass, VectorBundle};
use chern_classes::splitting::SplittingPrinciple;

#[test]
fn test_splitting_principle() {
    let roots = SplittingPrinciple::chern_roots(2);
    assert_eq!(roots.len(), 2);
    let classes = SplittingPrinciple::chern_classes_from_roots(&roots);
    assert_eq!(classes.len(), 3); // c_0, c_1, c_2
}

#[test]
fn test_verify_whitney_sum() {
    assert!(SplittingPrinciple::verify_whitney_sum(1, 1));
}

#[test]
fn chern_roots_are_multiples_of_the_generator() {
    let roots = SplittingPrinciple::chern_roots(3);
    assert_eq!(roots[0].coeffs(), &vec![0, 1]);
    assert_eq!(roots[1].coeffs(), &vec![0, 2]);
    assert_eq!(roots[2].coeffs(), &vec![0, 3]);
    assert!(SplittingPrinciple::chern_roots(0).is_empty());
}

#[test]
fn classes_of_the_chern_roots() {
    // (1 + t)(1 + 2t)(1 + 3t)(1 + 4t) = 1 + 10t + 35t^2 + 50t^3 + 24t^4
    let roots = SplittingPrinciple::chern_roots(4);
    let classes = SplittingPrinciple::chern_classes_from_roots(&roots);
    assert_eq!(classes.len(), 5);
    assert_eq!(classes[0], Polynomial::one());
    assert_eq!(classes[1], Polynomial::monomial(10, 1));
    assert_eq!(classes[2], Polynomial::monomial(35, 2));
    assert_eq!(classes[3], Polynomial::monomial(50, 3));
    assert_eq!(classes[4], Polynomial::monomial(24, 4));
}

#[test]
fn classes_from_roots_are_elementary_symmetric() {
    // roots 1, 2, 3 (as constants): prod (1 + x_i) = 2 * 3 * 4,
    // read off degree by degree with c_0 = 1
    let roots = vec![Polynomial::monomial(1, 1), Polynomial::monomial(2, 1), Polynomial::monomial(3, 1)];
    let classes = SplittingPrinciple::chern_classes_from_roots(&roots);
    // (1 + t)(1 + 2t)(1 + 3t) = 1 + 6t + 11t^2 + 6t^3
    assert_eq!(classes.len(), 4);
    assert_eq!(classes[0], Polynomial::one());
    assert_eq!(classes[1], Polynomial::monomial(6, 1));
    assert_eq!(classes[2], Polynomial::monomial(11, 2));
    assert_eq!(classes[3], Polynomial::monomial(6, 3));
}

#[test]
fn verify_whitney_sum_always_holds() {
    assert!(SplittingPrinciple::verify_whitney_sum(0, 0));
    assert!(SplittingPrinciple::verify_whitney_sum(0, 5));
    assert!(SplittingPrinciple::verify_whitney_sum(7, 0));
    assert!(SplittingPrinciple::verify_whitney_sum(1, 0));
    assert!(SplittingPrinciple::verify_whitney_sum(30, 0));
    assert!(SplittingPrinciple::verify_whitney_sum(2, 1));
    assert!(SplittingPrinciple::verify_whitney_sum(1, 2));
    assert!(SplittingPrinciple::verify_whitney_sum(3, 4));
    assert!(SplittingPrinciple::verify_whitney_sum(15, 15));
    assert!(SplittingPrinciple::verify_whitney_sum(10, 20));
}

#[test]
fn todd_from_roots_products() {
    // one root x = t: 12 + 6t + t^2 over 12
    let roots = vec![Polynomial::monomial(1, 1)];
    let td = SplittingPrinciple::todd_from_roots(&roots);
    assert_eq!(td.denominator(), 12);
    assert_eq!(td.numerator().coeffs(), &vec![12, 6, 1]);
    // two roots t, t: (12 + 6t + t^2)^2 over 144
    let roots2 = vec![Polynomial::monomial(1, 1), Polynomial::monomial(1, 1)];
    let td2 = SplittingPrinciple::todd_from_roots(&roots2);
    assert_eq!(td2.denominator(), 144);
    assert_eq!(td2.numerator().coeffs(), &vec![144, 144, 60, 12, 1]);
    // no roots: 1
    let td0 = SplittingPrinciple::todd_from_roots(&[]);
    assert_eq!(td0.denominator(), 1);
    assert_eq!(td0.numerator(), &Polynomial::one());
}

#[test]
fn todd_of_one_root_is_the_todd_class_of_its_line_bundle() {
    // (12 + 6x + x^2)/12 and the Todd class of the line bundle with c1 = x = 3t,
    // 1 + x/2 + x^2/12 over 3! 210^3 = 12 * 4630500
    let x = Polynomial::monomial(3, 1);
    let from_roots = SplittingPrinciple::todd_from_roots(&[x.clone()]);
    let computed = ToddClass::compute(&VectorBundle::line_bundle(x));
    assert_eq!(from_roots.denominator(), 12);
    assert_eq!(computed.denominator(), 55566000);
    assert_eq!(from_roots.numerator().scale(4630500), *computed.numerator());
    assert_eq!(computed.numerator().coeffs(), &vec![55566000, 83349000, 41674500]);
}
