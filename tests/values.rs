use arthroprod::basis::{Alpha, Form, Index, Orientation, Sign, Zet};
use arthroprod::basis::Index::{One, Two, Zero};
use arthroprod::catalog::{Dmu, B};
use arthroprod::magnitude::Magnitude;
use arthroprod::multivector::MultiVector;
use arthroprod::term::Term;
use arthroprod::values::{add_values, div_values, prod_values, sub_values, EvalError, Value};

fn alpha(ixs: &[Index]) -> Alpha {
    Alpha::try_from_indices(Sign::Pos, ixs).unwrap()
}

fn term(name: &str, ixs: &[Index]) -> Term {
    Term::new(Some(name), alpha(ixs))
}

#[test]
fn value_kind_names() {
    assert_eq!(Value::Alpha(alpha(&[One])).name(), "alpha");
    assert_eq!(Value::Term(term("x", &[One])).name(), "term");
    assert_eq!(Value::Magnitude(Magnitude::new(1, 2)).name(), "magnitude");
    assert_eq!(Value::MultiVector(MultiVector::new()).name(), "multivector");
    assert_eq!(Value::Differential(Dmu()).name(), "differential");
}

#[test]
fn adding_and_subtracting_values() {
    let r = add_values(Value::Magnitude(Magnitude::new(1, 2)), Value::Magnitude(Magnitude::new(1, 3)), false);
    assert_eq!(r, Ok(Value::Magnitude(Magnitude::new(5, 6))));
    let r = sub_values(Value::Magnitude(Magnitude::new(1, 2)), Value::Magnitude(Magnitude::new(1, 3)), false);
    assert_eq!(r, Ok(Value::Magnitude(Magnitude::new(1, 6))));
    let r = add_values(Value::Term(term("x", &[One])), Value::Term(term("x", &[One])), true).unwrap();
    match r {
        Value::MultiVector(m) => {
            assert_eq!(m.terms.len(), 1);
            assert_eq!(m.terms[0].magnitude(), Magnitude::new(2, 1));
        }
        _ => panic!("expected a multivector"),
    }
    let r = sub_values(Value::Term(term("x", &[One])), Value::Term(term("x", &[One])), true);
    assert_eq!(r, Ok(Value::MultiVector(MultiVector::new())));
    let r = add_values(Value::Alpha(alpha(&[One])), Value::Term(term("x", &[One])), false);
    assert!(matches!(r, Err(EvalError::Syntax(_))));
}

#[test]
fn multiplying_values() {
    let r = prod_values(Value::Magnitude(Magnitude::new(2, 3)), Value::Alpha(alpha(&[One])), false);
    assert_eq!(r, Err(EvalError::InvalidAlphaProduct));
    let r = prod_values(Value::Differential(Dmu()), Value::Term(term("x", &[One])), false);
    assert_eq!(r, Err(EvalError::InvalidDifferential));
    let r = prod_values(Value::Alpha(alpha(&[One])), Value::Alpha(alpha(&[Two])), false);
    assert_eq!(r, Ok(Value::Alpha(alpha(&[One, Two]))));
    let r = prod_values(Value::Magnitude(Magnitude::new(2, 3)), Value::Term(term("x", &[One])), false);
    let mut expected = term("x", &[One]);
    expected.magnitude = Magnitude::new(2, 3);
    assert_eq!(r, Ok(Value::Term(expected)));
    let r = prod_values(Value::Differential(Dmu()), Value::MultiVector(B()), false).unwrap();
    match r {
        Value::MultiVector(m) => assert_eq!(m.terms.len(), 12),
        _ => panic!("expected a multivector"),
    }
    let r = prod_values(Value::MultiVector(B()), Value::MultiVector(B()), true).unwrap();
    match r {
        Value::MultiVector(m) => assert!(m.terms.len() < 9),
        _ => panic!("expected a multivector"),
    }
}

#[test]
fn dividing_values() {
    let r = div_values(Value::Magnitude(Magnitude::new(1, 2)), Value::Magnitude(Magnitude::new(1, 4)), false);
    assert_eq!(r, Ok(Value::Magnitude(Magnitude::new(2, 1))));
    let a = alpha(&[Zero, One]);
    let r = div_values(Value::Alpha(a), Value::Alpha(a), false);
    assert_eq!(r, Ok(Value::Alpha(Alpha::new(Sign::Pos, Form::new(Zet::B, Orientation::e)))));
    let d = Dmu();
    let r = div_values(Value::Differential(d), Value::Alpha(a), false);
    match r {
        Err(EvalError::InvalidOperation(op, sym, l, _)) => {
            assert_eq!(op, "division");
            assert_eq!(sym, "/");
            assert_eq!(l.name(), "differential");
        }
        _ => panic!("expected a refusal"),
    }
    let r = div_values(Value::MultiVector(B()), Value::Magnitude(Magnitude::new(2, 1)), false).unwrap();
    match r {
        Value::MultiVector(m) => assert!(m.terms.iter().all(|t| t.magnitude() == Magnitude::new(1, 2))),
        _ => panic!("expected a multivector"),
    }
    let scaled = MultiVector::from_terms(vec![term("a", &[One]), term("b", &[One])]);
    let mut third = Magnitude::new(1, 3);
    let r = div_values(Value::MultiVector(scaled), Value::Magnitude(third), false).unwrap();
    third = Magnitude::new(3, 1);
    match r {
        Value::MultiVector(m) => {
            assert_eq!(m.terms.len(), 2);
            assert!(m.terms.iter().all(|t| t.magnitude() == third));
            assert_eq!(m, MultiVector::from_terms(vec![m.terms[1].copy(), m.terms[0].copy()]));
        }
        _ => panic!("expected a multivector"),
    }
}
