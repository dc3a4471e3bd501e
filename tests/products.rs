use arthroprod::basis::{Alpha, Form, Index, Orientation, Sign, Zet};
use arthroprod::ops::AR;
use arthroprod::product::{
    ar_product, direct_product, get_target_ordering, init_product_cache,
    pop_and_cancel_repeated_indices, ProductTable,
};
use arthroprod::basis::Index::{One, Three, Two, Zero};
use arthroprod::basis::Orientation::{e, i, j, k};
use arthroprod::basis::Zet::{A, B, E, T};

fn alpha(sign: Sign, ixs: &[Index]) -> Alpha {
    Alpha::try_from_indices(sign, ixs).unwrap()
}

#[test]
fn product_cache_is_correctly_sized() {
    assert_eq!(init_product_cache(), 1024);
}

#[test]
fn target_ordering_is_always_correct_for_allowed() {
    for c in Form::iter() {
        let axes = c.as_indices();
        assert_eq!(get_target_ordering(&axes), axes);
    }
}

#[test]
fn maching_forms_cancel_completely() {
    for c in Form::iter() {
        let (_, axes) = pop_and_cancel_repeated_indices(c, c);
        assert_eq!(axes, vec![]);
    }
}

#[test]
fn simple() {
    let a1 = Alpha::new(Sign::Pos, Form::new(Zet::A, Orientation::i));
    let a2 = Alpha::new(Sign::Pos, Form::new(Zet::A, Orientation::j));

    let res1 = ar_product(&a1, &a2);
    assert_eq!(res1, Alpha::new(Sign::Pos, Form::new(Zet::B, Orientation::k)));

    let res2 = ar_product(&a2, &a1);
    assert_eq!(res2, Alpha::new(Sign::Neg, Form::new(Zet::B, Orientation::k)));
}

#[test]
fn swapping_axes_negates_when_not_squaring() {
    let f = Form::new;

    for f1 in &[f(T, e), f(A, i), f(A, j), f(A, k)] {
        for f2 in &[f(T, e), f(A, i), f(A, j), f(A, k)] {
            if f1 == f2 {
                continue;
            };

            let a1 = Alpha::new(Sign::Pos, *f1);
            let a2 = Alpha::new(Sign::Pos, *f2);

            let res1 = ar_product(&a1, &a2);
            let res2 = ar_product(&a2, &a1);

            assert_eq!(res1.form(), res2.form());
            assert_ne!(res1.sign(), res2.sign());
        }
    }
}

#[test]
fn alphas_invert_through_ap() {
    let ap = Alpha::new(Sign::Pos, Form::new(Zet::B, Orientation::e));

    for c in Form::iter() {
        let alpha = Alpha::new(Sign::Pos, c);

        assert_eq!(ar_product(&alpha, &Alpha::inverse(&alpha)), ap);
    }
}

#[test]
fn product_agrees_with_full_prod() {

    for zl in [B, T, A, E].iter() {
        for ol in [e, i, j, k].iter() {
            let fl = Form::new(*zl, *ol);
            let al = Alpha::try_from_indices(Sign::Pos, &fl.as_indices()).unwrap();

            for zr in [B, T, A, E].iter() {
                for or in [e, i, j, k].iter() {
                    let fr = Form::new(*zr, *or);
                    let ar = Alpha::try_from_indices(Sign::Pos, &fr.as_indices()).unwrap();

                    let a_prod = ar_product(&al, &ar);
                    let res_a = (a_prod.sign(), a_prod.form().as_indices());

                    let (f_sgn, f_form) = fl.product(&fr);
                    let f_ixs = f_form.as_indices();
                    let res_f = (f_sgn, f_ixs);

                    assert_eq!(res_a, res_f, "{:?}{:?} {:?}{:?}", ol, zl, or, zr);
                }
            }
        }
    }
}

fn all_alphas() -> Vec<Alpha> {
    let mut v = vec![];
    for f in Form::iter() {
        v.push(Alpha::new(Sign::Pos, f));
        v.push(Alpha::new(Sign::Neg, f));
    }
    v
}

#[test]
fn direct_product_agrees_with_group_product_for_all_pairs() {
    for x in all_alphas() {
        for y in all_alphas() {
            assert_eq!(direct_product(&x, &y), Some(ar_product(&x, &y)));
        }
    }
}

#[test]
fn product_table_agrees_with_direct_product() {
    let table = ProductTable::new();
    assert_eq!(table.len(), 1024);
    for x in all_alphas() {
        for y in all_alphas() {
            assert_eq!(table.lookup(&x, &y), direct_product(&x, &y));
        }
    }
}

#[test]
fn every_alpha_times_its_inverse_is_the_positive_point() {
    let ap = Alpha::new(Sign::Pos, Form::new(Zet::B, Orientation::e));
    for a in all_alphas() {
        assert_eq!(ar_product(&a, &Alpha::inverse(&a)), ap);
    }
}

#[test]
fn every_form_squares_onto_the_point() {
    let p = Form::new(Zet::B, Orientation::e);
    for f in Form::iter() {
        let (s, g) = f.product(&f);
        assert_eq!(g, p);
        let a = Alpha::new(Sign::Neg, f);
        assert_eq!(ar_product(&a, &a), Alpha::new(s, p));
    }
}

#[test]
fn time_space_space_times_negated_time_space() {
    let a1 = alpha(Sign::Pos, &[Zero, Two, Three]);
    let a2 = alpha(Sign::Neg, &[Zero, One]);
    assert_eq!(ar_product(&a1, &a2), alpha(Sign::Neg, &[One, Two, Three]));
    assert_eq!(a1.mul(a2), alpha(Sign::Neg, &[One, Two, Three]));
}

#[test]
fn hermitian_conjugation_is_correct_for_alphas() {
    for c in Form::iter() {
        let alpha = Alpha::new(Sign::Pos, c);
        let sign = ar_product(&alpha, &alpha).sign();
        let conjugate = alpha.hermitian();

        assert_eq!(conjugate, Alpha::new(sign, c));
    }
}

#[test]
fn reordering_axes_costs_a_sign_per_swap() {
    let (s, t) = arthroprod::product::pop_to_correct_ordering(&vec![Two, One]);
    assert_eq!(t, vec![One, Two]);
    assert_eq!(s, Sign::Neg);
    let (s, t) = arthroprod::product::pop_to_correct_ordering(&vec![One, Three]);
    assert_eq!(t, vec![Three, One]);
    assert_eq!(s, Sign::Neg);
    let (s, t) = arthroprod::product::pop_to_correct_ordering(&vec![Three, Zero, One]);
    assert_eq!(t, vec![Zero, Three, One]);
    assert_eq!(s, Sign::Neg);
}
