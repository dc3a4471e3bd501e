use arthroprod::basis::{Alpha, Form, Index, Sign};
use arthroprod::magnitude::Magnitude;
use arthroprod::ops::{AR, ArInput};
use arthroprod::term::Term;
use arthroprod::xi::Xi;
use arthroprod::basis::Index::{One, Three, Two, Zero};

fn alpha(ixs: &[Index]) -> Alpha {
    Alpha::try_from_indices(Sign::Pos, ixs).unwrap()
}

fn term(name: Option<&str>, ixs: &[Index], n: usize, sign: Sign) -> Term {
    let mut t = Term::new(name, alpha(ixs));
    t.magnitude = Magnitude::new(n, 1);
    if sign == Sign::Neg {
        t = t.neg();
    }
    t
}

#[test]
fn hermitian_conjugation_is_correct_for_terms() {
    for c in Form::iter() {
        let alpha = Alpha::new(Sign::Pos, c);
        let sign = arthroprod::product::ar_product(&alpha, &alpha).sign();
        let term = Term::new(None, alpha);
        let conjugate = term.hermitian();

        assert_eq!(conjugate, Term::new(None, Alpha::new(sign, c)));
    }
}

#[test]
fn alphas_have_norm_1() {
    assert_eq!(alpha(&[Zero, One, Two, Three]).norm(), Magnitude::new(1, 1));
}

#[test]
fn terms_have_norm_equal_absolute_magnitude() {
    let t: Term = term(None, &[Zero, One, Two], 5, Sign::Pos);

    assert_eq!(t.magnitude(), Magnitude::new(5, 1));
    assert_eq!(t.norm(), Magnitude::new(5, 1));
    assert_eq!(t.neg().norm(), Magnitude::new(5, 1));
}

#[test]
fn summation_keys() {
    let same = |a: Term, b: Term| a.summation_key() == b.summation_key();
    assert!(same(term(Some("foo"), &[One, Two, Three], 1, Sign::Pos), term(Some("foo"), &[One, Two, Three], 1, Sign::Pos)));
    assert!(same(term(Some("foo"), &[One], 1, Sign::Pos), term(Some("foo"), &[One], 1, Sign::Neg)));
    assert!(!same(term(Some("foo"), &[One], 1, Sign::Pos), term(Some("foo"), &[Two], 1, Sign::Pos)));
    assert!(!same(term(Some("foo"), &[Zero, Two], 1, Sign::Pos), term(Some("bar"), &[Zero, Two], 1, Sign::Pos)));
    assert!(!same(term(None, &[One], 1, Sign::Pos), term(None, &[Two], 2, Sign::Pos)));
}

#[test]
fn try_add_cases() {
    let t = |n: usize, s: Sign| term(None, &[One], n, s);
    assert_eq!(t(1, Sign::Pos).try_add(&term(None, &[Two], 2, Sign::Neg)), None);
    assert_eq!(t(1, Sign::Pos).try_add(&t(1, Sign::Pos)), Some(t(2, Sign::Pos)));
    assert_eq!(t(1, Sign::Pos).try_add(&t(2, Sign::Neg)), Some(t(1, Sign::Neg)));
    assert_eq!(t(2, Sign::Neg).try_add(&t(1, Sign::Pos)), Some(t(1, Sign::Neg)));
    assert_eq!(t(2, Sign::Neg).try_add(&t(2, Sign::Neg)), Some(t(4, Sign::Neg)));
}

#[test]
fn form_product_with_different_names() {
    let left = term(Some("a"), &[Two, Three], 1, Sign::Pos);
    let right = term(Some("b"), &[One, Two, Three], 1, Sign::Pos);
    let expected = Term::from_xis_and_alpha(vec!["a", "b"], alpha(&[One])).neg();
    assert_eq!(left.form_product_with(&right), expected);
}

#[test]
fn equal_bare_terms_square_to_negated_power() {
    let left = term(Some("a"), &[Two, Three], 1, Sign::Pos);
    let right = term(Some("a"), &[Two, Three], 1, Sign::Pos);
    let r = left.form_product_with(&right);
    let expected = Term::from_xis_and_alpha(vec!["a", "a"], alpha(&[])).neg();
    assert_eq!(r, expected);
    assert_eq!(r.magnitude(), Magnitude::new(1, 1));
    assert_eq!(r.sign(), Sign::Neg);
    assert_eq!(r.xi_str(), "ξa^2");
}

#[test]
fn terms_are_named_after_their_form() {
    let t = Term::new(None, alpha(&[Zero, Three, One]));
    assert_eq!(t.xi_str(), "ξ031");
    assert_eq!(t.xi, Xi::new("031"));
    let p = Term::new(None, alpha(&[]));
    assert_eq!(p.xi_str(), "ξp");
}

#[test]
fn inverse_of_a_term() {
    let mut t = term(Some("x"), &[One], 1, Sign::Pos);
    t.magnitude = Magnitude::new(2, 3);
    let inv = Term::inverse(&t);
    assert_eq!(inv.magnitude(), Magnitude::new(3, 2));
    assert_eq!(inv.sign(), Sign::Neg);
    assert_eq!(inv.xi, Xi::new("x").inverse());
}

#[test]
fn magnitude_strings() {
    let mut t = term(None, &[One], 1, Sign::Pos);
    assert_eq!(t.mag_str(), "");
    t.magnitude = Magnitude::new(3, 4);
    assert_eq!(t.mag_str(), "3/4");
    t.magnitude = Magnitude::new(12, 1);
    assert_eq!(t.mag_str(), "12");
}
