use std::collections::HashSet;
use arthroprod::basis::Index::{One, Three, Two, Zero};

use arthroprod::basis::{Alpha, Form, Grade, Index, Orientation, Sign, Zet};
use arthroprod::candidates::ScalarCandidates;
use arthroprod::catalog::{Dmu, B, E, G};
use arthroprod::division::{div_by, div_into, van_der_mark_scalar, vdm_divisor_and_inverse};
use arthroprod::magnitude::Magnitude;
use arthroprod::multivector::MultiVector;
use arthroprod::notation::{null_hyperplane, shorthand_rep, simple_form_rep, singlets, triads};
use arthroprod::ops::{full, simplified_product, try_full, AR, ArInput};
use arthroprod::product::ar_product;
use arthroprod::term::Term;
use arthroprod::differential::Differential;

fn alpha(sign: Sign, ixs: &[Index]) -> Alpha {
    Alpha::try_from_indices(sign, ixs).unwrap()
}

fn named(name: &str, sign: Sign, ixs: &[Index]) -> Term {
    Term::new(Some(name), alpha(sign, ixs))
}

#[test]
fn hermitian_conjugation_is_correct_for_multivectors() {
    let mut terms: Vec<Term> = vec![];
    let mut negated: Vec<Term> = vec![];

    for c in Form::iter() {
        let alpha = Alpha::new(Sign::Pos, c);
        let sign = ar_product(&alpha, &alpha).sign();
        terms.push(Term::new(None, alpha));
        negated.push(Term::new(None, Alpha::new(sign, c)));
    }

    let conjugate = MultiVector::from_terms(terms).hermitian();
    assert_eq!(conjugate, MultiVector::from_terms(negated));
}

#[test]
fn vdm_is_scalar_for_g() {
    let terms = van_der_mark_scalar(G().as_terms());
    let forms: HashSet<_> = terms.iter().map(|t| t.form()).collect();
    assert_eq!(forms.len(), 1);
}

#[test]
fn vdm_funcs_agree() {
    let m = G();

    let s1 = MultiVector::from_terms(van_der_mark_scalar(m.as_terms()));
    let (_, inverse) = vdm_divisor_and_inverse(m.as_terms());
    let s2 = simplified_product(&m, &inverse);

    assert_eq!(s1, s2);
}

#[test]
fn van_der_mark_invariant_is_scalar() {
    for m in [G(), B(), E(), arthroprod::catalog::Zet_T(), arthroprod::catalog::Fields()] {
        let terms = van_der_mark_scalar(m.as_terms());
        assert!(terms.iter().all(|t| t.grade() == Grade::Zero));
    }
}

#[test]
fn full_product_has_one_term_per_pair() {
    let l = G();
    let r = B();
    let p: MultiVector = full(&l, &r);
    assert_eq!(p.terms.len(), 16 * 3);
    let v: Vec<Term> = full(&l, &r);
    assert_eq!(v.len(), 48);
    let e: MultiVector = full(&MultiVector::new(), &r);
    assert_eq!(e.terms.len(), 0);
}

#[test]
fn full_product_of_alphas() {
    let a1 = alpha(Sign::Pos, &[Zero, Two, Three]);
    let a2 = alpha(Sign::Neg, &[Zero, One]);
    let res_alpha: Alpha = full(&a1, &a2);
    let res_mvec: MultiVector = full(&a1, &a2);
    assert_eq!(res_alpha, alpha(Sign::Neg, &[One, Two, Three]));
    let expected = Term::from_xis_and_alpha(vec!["023", "01"], alpha(Sign::Neg, &[One, Two, Three]));
    assert_eq!(res_mvec, MultiVector::from_terms(vec![expected]));
}

#[test]
fn simplify_combines_and_is_idempotent() {
    let terms = vec![
        named("x", Sign::Pos, &[One]),
        named("y", Sign::Pos, &[Two]),
        named("x", Sign::Pos, &[One]),
        named("x", Sign::Neg, &[One]),
        named("y", Sign::Neg, &[Two]),
        named("z", Sign::Neg, &[Zero]),
    ];
    let m = MultiVector::from_terms(terms);
    let once = m.simplified();
    assert_eq!(once.terms.len(), 2);
    assert_eq!(once.terms[0], named("z", Sign::Neg, &[Zero]));
    assert_eq!(once.terms[1], named("x", Sign::Pos, &[One]));
    let twice = once.copy().simplified();
    assert_eq!(twice, once);

    let g = G();
    let sq: MultiVector = full(&g, &g);
    let s1 = sq.simplified();
    let s2 = s1.copy().simplified();
    assert_eq!(s1, s2);
}

#[test]
fn simplify_keeps_magnitudes_positive() {
    let mut big = named("x", Sign::Neg, &[One]);
    big.magnitude = Magnitude::new(3, 1);
    let m = MultiVector::from_terms(vec![named("x", Sign::Pos, &[One]), big]);
    let s = m.simplified();
    assert_eq!(s.terms.len(), 1);
    assert_eq!(s.terms[0].magnitude(), Magnitude::new(2, 1));
    assert_eq!(s.terms[0].sign(), Sign::Neg);
}

#[test]
fn differential_application_is_linear() {
    let d = Dmu();
    let m1 = B();
    let m2 = E();
    let left = d.left_apply(&m1.copy().add(m2.copy())).simplified();
    let right = d.left_apply(&m1).add(d.left_apply(&m2)).simplified();
    assert_eq!(left, right);
    let left = d.right_apply(&m1.copy().add(m2.copy()));
    let right = d.right_apply(&m1).add(d.right_apply(&m2));
    assert_eq!(left, right);
}

#[test]
fn differential_adds_partials() {
    let a0 = alpha(Sign::Pos, &[Index::Zero]);
    let d = Differential::new(&[a0]);
    let m = MultiVector::from_alphas(vec![alpha(Sign::Pos, &[Index::One])]);
    let r = d.left_apply(&m);
    assert_eq!(r.terms.len(), 1);
    assert_eq!(r.terms[0].xi_str(), "∂0ξ1");
    assert_eq!(r.terms[0].alpha(), ar_product(&Alpha::inverse(&a0), &alpha(Sign::Pos, &[Index::One])));
    assert_eq!(Dmu().wrt.len(), 4);
}

#[test]
fn division_of_single_terms() {
    let a = named("a", Sign::Pos, &[One]);
    let b = named("b", Sign::Pos, &[Two]);
    let q: Term = div_by(&a, &b);
    assert_eq!(q, a.form_product_with(&Term::inverse(&b)));
    let q: Term = div_into(&a, &b);
    assert_eq!(q, Term::inverse(&a).form_product_with(&b));
}

#[test]
fn division_by_a_multivector() {
    let m = B();
    let one: MultiVector = div_by(&m, &m);
    assert!(one.simplified().is_scalar());
}

#[test]
fn conjugates() {
    let g = G();
    let d = g.diamond();
    for t in d.terms.iter() {
        assert_eq!(t.sign() == Sign::Pos, t.grade() == Grade::Zero);
    }
    let dd = g.double_dagger();
    for t in dd.terms.iter() {
        assert_eq!(t.sign() == Sign::Pos, t.grade() == Grade::Two);
    }
    let s = g.star();
    for t in s.terms.iter() {
        let ae = t.form().zet() == Zet::A || t.form().zet() == Zet::E;
        assert_eq!(t.sign() == Sign::Neg, ae);
    }
    let r = g.reversed();
    for t in r.terms.iter() {
        let g23 = t.grade() == Grade::Two || t.grade() == Grade::Three;
        assert_eq!(t.sign() == Sign::Neg, g23);
    }
    let n = g.negate();
    assert!(n.terms.iter().all(|t| t.sign() == Sign::Neg));
    let p = g.project(&Form::new(Zet::E, Orientation::i));
    assert_eq!(p.terms.len(), 6);
    let f = g.conjugate_form(&Form::new(Zet::T, Orientation::e));
    assert_eq!(f.terms.iter().filter(|t| t.sign() == Sign::Pos).count(), 1);
    let fs = g.conjugate_forms(vec![Form::new(Zet::T, Orientation::e), Form::new(Zet::B, Orientation::e)]);
    assert_eq!(fs.terms.iter().filter(|t| t.sign() == Sign::Pos).count(), 2);
    let gs = g.conjugate_grades(vec![Grade::One, Grade::Three]);
    assert_eq!(gs.terms.iter().filter(|t| t.sign() == Sign::Pos).count(), 8);
    let du = g.dual();
    assert_eq!(du.terms.len(), 16);
}

#[test]
fn lookup_by_form() {
    let g = G();
    let f = Form::new(Zet::A, Orientation::j);
    let got = g.get(&f).unwrap();
    assert_eq!(got.len(), 1);
    assert_eq!(got[0].form(), f);
    assert!(B().get(&Form::new(Zet::T, Orientation::e)).is_none());
    assert_eq!(B().forms(), vec![
        Form::new(Zet::B, Orientation::i),
        Form::new(Zet::B, Orientation::j),
        Form::new(Zet::B, Orientation::k),
    ]);
}

#[test]
fn notation_helpers() {
    assert_eq!(shorthand_rep(&G()), "pthqBTAE");
    assert_eq!(shorthand_rep(&B()), "B");
    assert_eq!(simple_form_rep(&B()), "{ a23 a31 a12 }");
    assert_eq!(simple_form_rep(&MultiVector::new()), "{  }");
    assert!(!null_hyperplane(&B()));
    assert!(null_hyperplane(&B().hermitian().add(B())));
    assert_eq!(singlets().len(), 4);
    assert_eq!(singlets()[2].form(), Form::new(Zet::A, Orientation::e));
    assert_eq!(triads().len(), 4);
    assert_eq!(triads()[3], E());
}

#[test]
fn push_and_arithmetic_keep_order() {
    let mut m = MultiVector::new();
    m.push(named("b", Sign::Pos, &[Two]));
    m.push(named("a", Sign::Pos, &[One]));
    assert_eq!(m.terms[0].form(), Form::new(Zet::A, Orientation::i));
    let n = m.copy().sub(m.copy());
    assert_eq!(n.terms.len(), 4);
    assert_eq!(n.simplified().terms.len(), 0);
    let t = m.copy().add_term(named("c", Sign::Pos, &[]));
    assert_eq!(t.terms[0].form(), Form::new(Zet::B, Orientation::e));
    let u = m.sub_term(named("a", Sign::Pos, &[One]));
    assert_eq!(u.simplified().terms.len(), 1);
}

#[test]
fn scalar_candidates_of_the_magnetic_field() {
    let c = ScalarCandidates::new(&B());
    assert_eq!(c.original(), &B());
    let all = c.iter();
    assert_eq!(all.len(), 5);
    assert_eq!(all[0].0, "sqr");
    assert_eq!(all[4].0, "vdm");
    assert!(all[4].1.is_scalar());
    let scalars = c.iter_scalars();
    assert!(scalars.iter().all(|(_, m)| m.is_scalar()));
    let (name, m) = c.simplest().unwrap();
    assert_eq!(name, scalars[0].0);
    assert!(m.is_scalar());
    assert_eq!(name, "sqr");
}

#[test]
fn multivectors_from_any_input() {
    let a = alpha(Sign::Neg, &[One]);
    let m = MultiVector::from_ar(a);
    assert_eq!(m, MultiVector::from_alphas(vec![a]));
    let g = MultiVector::from_ar(G().as_terms());
    assert_eq!(g, G());
}

#[test]
fn checked_products_and_simplification() {
    let g = G();
    let p = try_full(&g, &g).unwrap();
    let full_p: MultiVector = full(&g, &g);
    assert_eq!(p, full_p);
    assert_eq!(p.copy().try_simplified().unwrap(), full_p.simplified());

    let mut big = Term::new(Some("x"), alpha(Sign::Pos, &[One]));
    big.magnitude = Magnitude { numerator: 23416728348467685, denominator: 14472334024676221 };
    assert!(big.is_well_formed());
    let m = MultiVector::from_terms(vec![big.copy()]);
    assert!(try_full(&m, &m).is_none());
    let twice = MultiVector::from_terms(vec![big.copy(), big]);
    assert!(twice.try_simplified().is_none());

    let mut bad = Term::new(Some("y"), alpha(Sign::Pos, &[Two]));
    bad.magnitude = Magnitude { numerator: 2, denominator: 4 };
    assert!(!bad.is_well_formed());
    assert!(MultiVector::from_terms(vec![bad]).try_simplified().is_none());
}
