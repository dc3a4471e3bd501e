use arthroprod::basis::{Form, Orientation, Zet};
use arthroprod::xi::Xi;
use std::cmp::Ordering;

fn x(s: &str) -> Xi {
    Xi::new(s)
}

fn node(value: Option<&str>, partials: Vec<Form>, child_num: Vec<Xi>, child_den: Vec<Xi>) -> Xi {
    Xi { value: value.map(|s| s.to_string()), partials, child_num, child_den }
}

fn t0() -> Form {
    Form::new(Zet::T, Orientation::e)
}

#[test]
fn merge_sorts_children() {
    assert_eq!(Xi::merge(&[x("2"), x("1")]), node(None, vec![], vec![x("1"), x("2")], vec![]));
    assert_eq!(
        Xi::merge(&[x("2"), x("3"), x("1")]),
        node(None, vec![], vec![x("1"), x("2"), x("3")], vec![])
    );
    assert_eq!(Xi::merge(&[x("1"), x("1")]), node(None, vec![], vec![x("1"), x("1")], vec![]));
    assert_eq!(Xi::merge(&[Xi::empty(), Xi::empty()]), Xi::empty());
}

#[test]
fn merge_flattens_bare_products() {
    assert_eq!(
        Xi::merge(&[node(None, vec![], vec![x("2")], vec![]), node(None, vec![], vec![x("1")], vec![])]),
        node(None, vec![], vec![x("1"), x("2")], vec![])
    );
    assert_eq!(
        Xi::merge(&[node(None, vec![], vec![x("2")], vec![]), Xi::merge(&[x("3"), x("1")])]),
        node(None, vec![], vec![x("1"), x("2"), x("3")], vec![])
    );
}

#[test]
fn merge_keeps_trees_with_partials() {
    assert_eq!(
        Xi::merge(&[node(Some("2"), vec![t0()], vec![], vec![]), x("1")]),
        node(None, vec![], vec![x("1"), node(Some("2"), vec![t0()], vec![], vec![])], vec![])
    );
    assert_eq!(
        Xi::merge(&[node(Some("1"), vec![t0()], vec![], vec![]), x("1")]),
        node(None, vec![], vec![x("1"), node(Some("1"), vec![t0()], vec![], vec![])], vec![])
    );
}

#[test]
fn rendering() {
    assert_eq!(x("a").dotted_string(), "ξa");
    let sq = Xi::merge(&[x("a"), x("a"), x("b")]);
    assert_eq!(sq.dotted_string(), "ξa^2.ξb");
    let q = sq.inverse();
    assert_eq!(q.dotted_string(), "1/ξa^2.ξb");
    let mut d = x("a");
    d.add_partial(&t0());
    assert_eq!(d.dotted_string(), "∂0ξa");
    let mut p = Xi::merge(&[x("a"), x("b")]);
    p.set_partials(vec![Form::new(Zet::A, Orientation::i), t0()]);
    assert_eq!(p.dotted_string(), "∂0∂1(ξa.ξb)");
    let many: Vec<Xi> = (0..12).map(|_| x("c")).collect();
    assert_eq!(Xi::merge(&many).dotted_string(), "ξc^12");
}

#[test]
fn equal_children_group_wherever_they_stand() {
    assert_eq!(Xi::merge(&[x("b"), x("a"), x("a")]).dotted_string(), "ξa^2.ξb");
    let unsorted = node(None, vec![], vec![x("a"), x("b"), x("a")], vec![]);
    assert_eq!(unsorted.dotted_string(), "ξa^2.ξb");
    let frac = node(None, vec![], vec![x("c"), x("a")], vec![x("b"), x("b")]);
    assert_eq!(frac.dotted_string(), "ξa.ξc/ξb^2");
}

#[test]
fn ordering_puts_basis_names_first() {
    assert_eq!(x("p").compare(&x("23")), Ordering::Less);
    assert_eq!(x("03").compare(&x("0")), Ordering::Greater);
    assert_eq!(x("0123").compare(&x("a")), Ordering::Less);
    assert_eq!(x("b").compare(&x("a")), Ordering::Greater);
    assert_eq!(x("a").compare(&x("a")), Ordering::Equal);
}

#[test]
fn emptiness_and_inverse() {
    assert!(Xi::empty().is_empty());
    assert!(!x("a").is_empty());
    let m = Xi::merge(&[x("a"), x("b")]);
    let inv = m.inverse();
    assert_eq!(inv.child_den, vec![x("a"), x("b")]);
    assert!(inv.child_num.is_empty());
    assert!(inv.inverse().same(&m));
}
