use chern_classes::bundle::{ChernClass, PontryaginClass, ToddClass, VectorBundle};
use chern_classes::poly::Polynomial;

fn value(c: (i128, u128)) -> f64 {
    c.0 as f64 / c.1 as f64
}

#[test]
fn test_trivial_bundle() {
    let b = VectorBundle::trivial(3);
    assert_eq!(b.rank, 3);
    assert_eq!(b.get_chern_class(0), Polynomial::one());
    assert_eq!(b.get_chern_class(1), Polynomial::zero());
}

#[test]
fn test_line_bundle() {
    let lb = VectorBundle::line_bundle(Polynomial::monomial(5, 1));
    assert_eq!(lb.rank, 1);
    assert_eq!(lb.get_chern_class(1).coeff(1), 5);
}

#[test]
fn test_whitney_sum() {
    let l1 = VectorBundle::line_bundle(Polynomial::monomial(1, 1));
    let l2 = VectorBundle::line_bundle(Polynomial::monomial(2, 1));
    let sum = ChernClass::whitney_sum(&l1, &l2);
    assert_eq!(sum.rank, 2);
    // c_1 = c_1(L1) + c_1(L2) = t + 2t = 3t
    assert_eq!(sum.get_chern_class(1).coeff(1), 3);
}

#[test]
fn test_tangent_bundle_cp1() {
    let tb = VectorBundle::tangent_bundle_cp(1);
    assert_eq!(tb.rank, 1);
    // T(CP^1) has c_1 = 2h
    assert_eq!(tb.get_chern_class(1).coeff(1), 2);
}

#[test]
fn test_tangent_bundle_cp2() {
    let tb = VectorBundle::tangent_bundle_cp(2);
    assert_eq!(tb.rank, 2);
    // c(T) = (1+h)^3 = 1 + 3h + 3h^2
    assert_eq!(tb.get_chern_class(1).coeff(1), 3);
    assert_eq!(tb.get_chern_class(2).coeff(2), 3);
}

#[test]
fn test_chern_character() {
    let lb = VectorBundle::line_bundle(Polynomial::monomial(1, 1));
    let ch = ChernClass::chern_character(&lb);
    // ch = 1 + c1 + c1^2/2 = 1 + t + t^2/2
    assert_eq!(value(ch.coeff(0)), 1.0);
    assert_eq!(value(ch.coeff(1)), 1.0);
    assert_eq!((value(ch.coeff(2)) - 0.5).abs() < 1e-10, true);
}

#[test]
fn test_todd_class() {
    let lb = VectorBundle::line_bundle(Polynomial::monomial(1, 1));
    let td = ToddClass::compute(&lb);
    // td = 1 + c1/2 + c1^2/12 = 1 + 0.5t + t^2/12
    assert_eq!(value(td.coeff(0)), 1.0);
    assert_eq!((value(td.coeff(1)) - 0.5).abs() < 1e-10, true);
}

#[test]
fn test_pontryagin_p1() {
    let tb = VectorBundle::tangent_bundle_cp(2);
    let p1 = PontryaginClass::p1(&tb);
    // p_1 = -c_2 = -3t^2
    assert_eq!(p1.coeff(2), -3);
}

#[test]
fn test_c1_tensor_line() {
    let l1 = VectorBundle::line_bundle(Polynomial::monomial(3, 1));
    let l2 = VectorBundle::line_bundle(Polynomial::monomial(4, 1));
    let c1 = ChernClass::c1_tensor_line(&l1, &l2);
    assert_eq!(c1.coeff(1), 7); // 3 + 4 = 7
}

#[test]
fn test_a_genus() {
    let tb = VectorBundle::tangent_bundle_cp(2);
    let a = PontryaginClass::a_genus(&tb);
    // A = 1 - p_1/24 + ... = 1 + 3/24 + ...
    assert_eq!(value(a.coeff(0)), 1.0);
    assert!((value(a.coeff(2)) - (3.0 / 24.0)).abs() < 1e-10);
}

#[test]
fn bundle_names() {
    assert_eq!(VectorBundle::trivial(3).name, "O^3");
    assert_eq!(VectorBundle::trivial(120).name, "O^120");
    assert_eq!(VectorBundle::tangent_bundle_cp(2).name, "T(CP^2)");
    let l = VectorBundle::hyperplane_bundle();
    assert_eq!(l.name, "L");
    let s = ChernClass::whitney_sum(&l, &VectorBundle::tangent_bundle_cp(1));
    assert_eq!(s.name, "L ⊕ T(CP^1)");
}

#[test]
fn first_class_is_one() {
    let bundles = vec![
        VectorBundle::trivial(2),
        VectorBundle::line_bundle(Polynomial::monomial(9, 1)),
        VectorBundle::tangent_bundle_cp(4),
        ChernClass::whitney_sum(&VectorBundle::hyperplane_bundle(), &VectorBundle::tautological_line_bundle()),
    ];
    for b in &bundles {
        assert_eq!(b.chern_class(0), &Polynomial::one());
        assert_eq!(b.chern_classes()[0], Polynomial::one());
    }
}

#[test]
fn tangent_classes_are_binomials() {
    // c(T CP^4) = (1 + h)^5 up to h^4: 1, 5h, 10h^2, 10h^3, 5h^4
    let tb = VectorBundle::tangent_bundle_cp(4);
    let cs = tb.chern_classes();
    assert_eq!(cs.len(), 5);
    assert_eq!(cs[1], Polynomial::monomial(5, 1));
    assert_eq!(cs[2], Polynomial::monomial(10, 2));
    assert_eq!(cs[3], Polynomial::monomial(10, 3));
    assert_eq!(cs[4], Polynomial::monomial(5, 4));
    assert_eq!(tb.total_chern_class().coeffs(), &vec![1, 5, 10, 10, 5]);
    assert_eq!(ChernClass::top_class(&tb), Polynomial::monomial(5, 4));
    // CP^0 is a point
    let p = VectorBundle::tangent_bundle_cp(0);
    assert_eq!(p.chern_classes().len(), 1);
    assert_eq!(p.total_chern_class(), Polynomial::one());
}

#[test]
fn tangent_bundle_largest_rank() {
    let tb = VectorBundle::tangent_bundle_cp(125);
    // 126 choose 63 is the largest coefficient of (1 + h)^126
    assert_eq!(tb.get_chern_class(63).coeff(63), 6034934435761406706427864636568328000);
    assert_eq!(tb.get_chern_class(125).coeff(125), 126);
    // (1 + h)^130 is the last power whose coefficients all fit in an i128
    let top = VectorBundle::tangent_bundle_cp(129);
    assert_eq!(top.get_chern_class(65).coeff(65), 95067625827960698145584333020095113100);
}

#[test]
fn get_chern_class_past_the_last_is_zero() {
    let l = VectorBundle::hyperplane_bundle();
    assert_eq!(l.get_chern_class(2), Polynomial::zero());
    assert_eq!(ChernClass::top_class(&VectorBundle::trivial(2)), Polynomial::zero());
}

#[test]
fn line_bundles_over_projective_space() {
    let o1 = VectorBundle::hyperplane_bundle();
    let om1 = VectorBundle::tautological_line_bundle();
    assert_eq!(o1.get_chern_class(1), Polynomial::monomial(1, 1));
    assert_eq!(om1.get_chern_class(1), Polynomial::monomial(-1, 1));
    // O(1) (x) O(-1) is trivial
    assert_eq!(ChernClass::c1_tensor_line(&o1, &om1), Polynomial::zero());
}

#[test]
fn whitney_sum_formula_example() {
    let e = VectorBundle::tangent_bundle_cp(2);
    let f = VectorBundle::hyperplane_bundle();
    let s = ChernClass::whitney_sum(&e, &f);
    assert_eq!(s.rank, 3);
    // c(E + F) = c(E) c(F) = (1 + 3h + 3h^2)(1 + h)
    let product = e.total_chern_class().mul(&f.total_chern_class());
    assert_eq!(s.total_chern_class(), product);
    assert_eq!(product.coeffs(), &vec![1, 4, 6, 3]);
}

#[test]
fn whitney_sum_keeps_classes_up_to_the_rank() {
    // classes of degree past the rank are dropped: here c(L) = 1 + t + t^2
    let l = VectorBundle::line_bundle(Polynomial::new(vec![0, 1, 1]));
    let s = ChernClass::whitney_sum(&l, &VectorBundle::trivial(0));
    assert_eq!(s.rank, 1);
    assert_eq!(s.chern_classes().len(), 2);
    assert_eq!(s.total_chern_class().coeffs(), &vec![1, 1]);
}

#[test]
fn chern_character_of_rank_two() {
    // ch = 2 + c1 + (c1^2 - 2 c2)/2 with c1 = 3h, c2 = 3h^2 on T(CP^2)
    let tb = VectorBundle::tangent_bundle_cp(2);
    let ch = ChernClass::chern_character(&tb);
    assert_eq!(ch.denominator(), 2);
    assert_eq!(ch.numerator().coeffs(), &vec![4, 6, 3]);
    assert_eq!(value(ch.coeff(2)), 1.5);
}

#[test]
fn todd_class_of_projective_plane() {
    // td(T CP^2) = 1 + 3h/2 + (9 + 3)h^2/12 + 9h^3/24, over 3! 210^3
    let tb = VectorBundle::tangent_bundle_cp(2);
    let td = ToddClass::compute(&tb);
    assert_eq!(td.denominator(), 55566000);
    assert_eq!(td.numerator().coeffs(), &vec![55566000, 83349000, 55566000, 20837250]);
    assert_eq!(td.numerator().coeffs(), Polynomial::new(vec![24, 36, 24, 9]).scale(2315250).coeffs());
}

#[test]
fn todd_class_of_projective_four_space() {
    // td(T CP^4) = 1 + 5h/2 + 35h^2/12 + 25h^3/12 + h^4
    let tb = VectorBundle::tangent_bundle_cp(4);
    let td = ToddClass::compute(&tb);
    let d = td.denominator() as i128;
    assert_eq!(d, 46675440000);
    assert_eq!(td.coeff(0).0, d);
    assert_eq!(2 * td.coeff(1).0, 5 * d);
    assert_eq!(12 * td.coeff(2).0, 35 * d);
    assert_eq!(12 * td.coeff(3).0, 25 * d);
    assert_eq!(td.coeff(4).0, d);
}

#[test]
fn todd_genus_of_projective_spaces() {
    for n in 0..10usize {
        let g = ToddClass::todd_genus(&VectorBundle::tangent_bundle_cp(n));
        assert!(g.0 > 0);
        assert_eq!(g.0 as u128, g.1);
        assert_eq!(value(g), 1.0);
    }
}

#[test]
fn pontryagin_classes_alternate_in_sign() {
    // T(CP^4): c_2 = 10h^2, c_4 = 5h^4, so p_1 = -10h^2 and p_2 = 5h^4
    let tb = VectorBundle::tangent_bundle_cp(4);
    let ps = PontryaginClass::from_chern(&tb);
    assert_eq!(ps.len(), 3);
    assert_eq!(ps[0], Polynomial::one());
    assert_eq!(ps[1], Polynomial::monomial(-10, 2));
    assert_eq!(ps[2], Polynomial::monomial(5, 4));
    assert_eq!(PontryaginClass::p1(&tb), ps[1]);
    // rank 1: only p_0
    assert_eq!(PontryaginClass::from_chern(&VectorBundle::hyperplane_bundle()).len(), 1);
}

#[test]
fn a_genus_numerator() {
    // p_1 = -3h^2, p_2 = 0: 5760 - 240 p_1 + 7 p_1^2 - 4 p_2 = 5760 + 720h^2 + 63h^4
    let tb = VectorBundle::tangent_bundle_cp(2);
    let a = PontryaginClass::a_genus(&tb);
    assert_eq!(a.denominator(), 5760);
    assert_eq!(a.numerator().coeffs(), &vec![5760, 0, 720, 0, 63]);
}

#[test]
fn a_genus_with_second_pontryagin_class() {
    // T(CP^4): p_1 = -10h^2, p_2 = 5h^4, so 7 p_1^2 - 4 p_2 = 700h^4 - 20h^4
    let tb = VectorBundle::tangent_bundle_cp(4);
    let a = PontryaginClass::a_genus(&tb);
    assert_eq!(a.denominator(), 5760);
    assert_eq!(a.numerator().coeffs(), &vec![5760, 0, 2400, 0, 680]);
    assert!((value(a.coeff(2)) - 10.0 / 24.0).abs() < 1e-10);
    assert!((value(a.coeff(4)) - 680.0 / 5760.0).abs() < 1e-10);
}

#[test]
fn chern_character_is_additive() {
    // ch(O(1) + T(CP^2)) = ch(O(1)) + ch(T(CP^2)), numerators over 2
    let o1 = VectorBundle::hyperplane_bundle();
    let tb = VectorBundle::tangent_bundle_cp(2);
    let sum = ChernClass::whitney_sum(&o1, &tb);
    let ch_sum = ChernClass::chern_character(&sum);
    let ch_o1 = ChernClass::chern_character(&o1);
    let ch_tb = ChernClass::chern_character(&tb);
    assert_eq!(ch_sum.denominator(), 2);
    assert_eq!(*ch_sum.numerator(), ch_o1.numerator().add(ch_tb.numerator()));
    assert_eq!(ch_sum.numerator().coeffs(), &vec![6, 8, 4]);
}

#[test]
fn bundle_fields_follow_the_constructors() {
    let t = VectorBundle::trivial(3);
    assert_eq!(t.rank, 3);
    assert_eq!(t.name, "O^3");
    assert_eq!(t.chern_classes.len(), 1);
    let s = ChernClass::whitney_sum(&t, &VectorBundle::hyperplane_bundle());
    assert_eq!(s.rank, 4);
    assert_eq!(s.name, "O^3 ⊕ L");
}

#[test]
fn whitney_sum_of_two_line_bundles() {
    // (1 + h)(1 + 2h) = 1 + 3h + 2h^2
    let l1 = VectorBundle::line_bundle(Polynomial::monomial(1, 1));
    let l2 = VectorBundle::line_bundle(Polynomial::monomial(2, 1));
    let s = ChernClass::whitney_sum(&l1, &l2);
    assert_eq!(s.total_chern_class().coeffs(), &vec![1, 3, 2]);
}

#[test]
fn todd_class_with_c1_two_and_c2_one() {
    // O(1) + O(1): c1 = 2h, c2 = h^2, td = 1 + c1/2 + (c1^2 + c2)/12 + c1 c2/24
    let o1 = VectorBundle::hyperplane_bundle();
    let e = ChernClass::whitney_sum(&o1, &o1);
    let td = ToddClass::compute(&e);
    assert!((value(td.coeff(0)) - 1.0).abs() < 0.001);
    assert!((value(td.coeff(1)) - 1.0).abs() < 0.001);
    assert!((value(td.coeff(2)) - 5.0 / 12.0).abs() < 0.01);
    // c1 c2/24 = 2/24
    let c3 = td.coeff(3);
    assert_eq!(24 * c3.0, 2 * c3.1 as i128);
}

#[test]
fn chern_character_with_c1_two_and_c2_one() {
    // O(1) + O(1): ch = 2 + 2h + (4 - 2)h^2/2
    let o1 = VectorBundle::hyperplane_bundle();
    let e = ChernClass::whitney_sum(&o1, &o1);
    let ch = ChernClass::chern_character(&e);
    assert_eq!(value(ch.coeff(0)), 2.0);
    assert_eq!(value(ch.coeff(1)), 2.0);
    assert_eq!(value(ch.coeff(2)), 1.0);
}
