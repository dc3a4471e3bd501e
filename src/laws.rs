//! Laws of the algebra, stated over the spec functions that the operations'
//! contracts use, and proved.
use vstd::prelude::*;
use crate::basis::{
    Alpha, Form, Sign, alpha_inverse, alpha_point, alpha_product, form_from_indices, form_indices,
    form_product, lemma_form_from_indices_of, point,
};
use crate::differential::{ApplyFrom, apply_rows, partial_row};
use crate::magnitude::{coprime, lemma_reduce, reduce};
use crate::ops::{Conjugation, conjugate_spec, full_spec};
use crate::order::{lemma_sort_multiset, sort_by};
use crate::term::{TermV, term_neg, term_order};
use crate::multivector::{collapse_from, key_run_end, simplify_spec};
use vstd::seq_lib::lemma_multiset_commutative;
use core::cmp::Ordering;
use crate::basis::cmp_int;
use crate::order::{lemma_sort_sorted, sorted_by};
use crate::term::term_le;
use crate::xi::{XiV, chars_cmp, forms_cmp, name_cmp, xi_cmp, xis_cmp};

verus! {

/// Reading a form's axes and looking them up again gives back the form.
pub proof fn law_indices_round_trip(f: Form)
    ensures
        form_from_indices(form_indices(f)) == Some(f),
{
    lemma_form_from_indices_of(f);
}

/// Every signed basis element times its inverse is the positive point.
pub proof fn law_alpha_times_inverse(a: Alpha)
    ensures
        alpha_product(a, alpha_inverse(a)) == alpha_point(),
{
}

/// Every form squares onto the point, with a sign that is either + or -;
/// a signed basis element squares to the point with that same sign.
pub proof fn law_square_is_point(f: Form, s: Sign)
    ensures
        form_product(f, f).1 == point(),
        alpha_product(Alpha { sign: s, form: f }, Alpha { sign: s, form: f }) == (Alpha {
            sign: form_product(f, f).0,
            form: point(),
        }),
{
}

proof fn lemma_collapse_nonzero(s: Seq<TermV>, k: int)
    ensures
        forall|j: int|
            0 <= j < collapse_from(s, k).len() ==> #[trigger] collapse_from(s, k)[j].magnitude.0
                != 0,
    decreases s.len() - k,
{
    if 0 <= k < s.len() {
        let e = key_run_end(s, k, k + 1);
        if e > k && e <= s.len() {
            lemma_collapse_nonzero(s, e);
        }
    }
}

/// Simplification leaves no term of zero magnitude.
pub proof fn law_simplify_drops_zeros(s: Seq<TermV>)
    ensures
        forall|j: int|
            0 <= j < simplify_spec(s).len() ==> #[trigger] simplify_spec(s)[j].magnitude.0 != 0,
{
    lemma_collapse_nonzero(sort_by(s, term_order()), 0);
}

/// A magnitude built from `n / d` is in lowest terms with a positive
/// denominator, and a zero numerator comes with denominator 1.
pub proof fn law_magnitude_reduced(n: nat, d: nat)
    requires
        d > 0,
    ensures
        reduce(n, d).1 > 0,
        coprime(reduce(n, d).0, reduce(n, d).1),
        n == 0 ==> reduce(n, d).1 == 1,
{
    lemma_reduce(n, d);
}

/// The Hermitian conjugate negates exactly the terms whose form squares to a
/// negative sign, and keeps the others.
pub proof fn law_hermitian_negates_negative_squares(s: Seq<TermV>)
    ensures
        conjugate_spec(Conjugation::Hermitian, s).len() == s.len(),
        forall|k: int|
            0 <= k < s.len() ==> #[trigger] conjugate_spec(Conjugation::Hermitian, s)[k] == if form_product(
                s[k].alpha.form,
                s[k].alpha.form,
            ).0 == Sign::Neg {
                term_neg(s[k])
            } else {
                s[k]
            },
{
}

/// The full product has one term for each pair of terms, before any
/// simplification, whether collected as a list or as a multivector.
pub proof fn law_full_count(a: Seq<TermV>, b: Seq<TermV>)
    ensures
        full_spec(a, b).len() == a.len() * b.len(),
        sort_by(full_spec(a, b), term_order()).len() == a.len() * b.len(),
{
    lemma_sort_multiset(full_spec(a, b), term_order());
}

proof fn lemma_apply_concat(ws: Seq<Alpha>, a: Seq<TermV>, b: Seq<TermV>, side: ApplyFrom)
    ensures
        apply_rows(ws, a + b, side) == apply_rows(ws, a, side) + apply_rows(ws, b, side),
    decreases b.len(),
{
    if b.len() == 0 {
        assert(a + b =~= a);
        assert(apply_rows(ws, a, side) + apply_rows(ws, b, side) =~= apply_rows(ws, a, side));
    } else {
        lemma_apply_concat(ws, a, b.drop_last(), side);
        assert((a + b).drop_last() =~= a + b.drop_last());
        assert((a + b).last() == b.last());
        assert(apply_rows(ws, a, side) + apply_rows(ws, b.drop_last(), side) + partial_row(
            ws,
            b.last(),
            side,
        ) =~= apply_rows(ws, a, side) + (apply_rows(ws, b.drop_last(), side) + partial_row(
            ws,
            b.last(),
            side,
        )));
    }
}

proof fn lemma_apply_permutation(ws: Seq<Alpha>, s: Seq<TermV>, t: Seq<TermV>, side: ApplyFrom)
    requires
        s.to_multiset() == t.to_multiset(),
    ensures
        apply_rows(ws, s, side).to_multiset() == apply_rows(ws, t, side).to_multiset(),
    decreases s.len(),
{
    s.to_multiset_ensures();
    t.to_multiset_ensures();
    if s.len() == 0 {
        assert(t.len() == 0);
        assert(t =~= s);
    } else {
        let x = s.last();
        let s2 = s.drop_last();
        assert(s2.push(x) =~= s);
        assert(s.to_multiset().count(x) > 0);
        assert(t.contains(x));
        let i = choose|i: int| 0 <= i < t.len() && t[i] == x;
        let t1 = t.subrange(0, i);
        let t3 = t.subrange(i + 1, t.len() as int);
        let t2 = t1 + t3;
        assert(t2 =~= t.remove(i));
        assert(t.remove(i).to_multiset() =~= t.to_multiset().remove(x));
        s2.to_multiset_ensures();
        assert(s2.push(x).to_multiset() =~= s2.to_multiset().insert(x));
        assert(s2.to_multiset().insert(x).remove(x) =~= s2.to_multiset()) by {
            broadcast use vstd::multiset::group_multiset_axioms;
        }
        assert(t2.to_multiset() =~= s2.to_multiset());
        lemma_apply_permutation(ws, s2, t2, side);
        assert(t =~= (t1 + seq![x]) + t3);
        lemma_apply_concat(ws, t1 + seq![x], t3, side);
        lemma_apply_concat(ws, t1, seq![x], side);
        lemma_apply_concat(ws, t1, t3, side);
        assert(seq![x].drop_last() =~= Seq::<TermV>::empty());
        assert(apply_rows(ws, seq![x], side) =~= partial_row(ws, x, side)) by {
            assert(apply_rows(ws, Seq::<TermV>::empty(), side) =~= Seq::<TermV>::empty());
        }
        let (a1, r, a3) = (apply_rows(ws, t1, side), partial_row(ws, x, side), apply_rows(ws, t3, side));
        lemma_multiset_commutative(a1 + r, a3);
        lemma_multiset_commutative(a1, r);
        lemma_multiset_commutative(a1, a3);
        lemma_multiset_commutative(apply_rows(ws, s2, side), r);
        assert(apply_rows(ws, t, side) == a1 + r + a3);
        assert(apply_rows(ws, t2, side) == a1 + a3);
    }
}

/// Applying a differential is linear: applied to the sum of two
/// multivectors, it yields the terms of applying it to each, counted with
/// multiplicity.
pub proof fn law_differential_linear(
    ws: Seq<Alpha>,
    m1: Seq<TermV>,
    m2: Seq<TermV>,
    side: ApplyFrom,
)
    ensures
        sort_by(apply_rows(ws, sort_by(m1 + m2, term_order()), side), term_order()).to_multiset()
            == sort_by(
            sort_by(apply_rows(ws, m1, side), term_order()) + sort_by(
                apply_rows(ws, m2, side),
                term_order(),
            ),
            term_order(),
        ).to_multiset(),
{
    let sum = sort_by(m1 + m2, term_order());
    lemma_sort_multiset(m1 + m2, term_order());
    lemma_apply_permutation(ws, sum, m1 + m2, side);
    lemma_apply_concat(ws, m1, m2, side);
    let (a1, a2) = (apply_rows(ws, m1, side), apply_rows(ws, m2, side));
    lemma_sort_multiset(apply_rows(ws, sum, side), term_order());
    lemma_sort_multiset(a1, term_order());
    lemma_sort_multiset(a2, term_order());
    let (s1, s2) = (sort_by(a1, term_order()), sort_by(a2, term_order()));
    lemma_sort_multiset(s1 + s2, term_order());
    lemma_multiset_commutative(s1, s2);
    lemma_multiset_commutative(a1, a2);
}

/// The reverse of an ordering.
pub open spec fn flip(o: Ordering) -> Ordering {
    match o {
        Ordering::Less => Ordering::Greater,
        Ordering::Equal => Ordering::Equal,
        Ordering::Greater => Ordering::Less,
    }
}

proof fn lemma_cmp_int_flip(a: int, b: int)
    ensures
        cmp_int(a, b) == flip(cmp_int(b, a)),
{
}

proof fn lemma_chars_cmp_flip(a: Seq<char>, b: Seq<char>, k: int)
    ensures
        chars_cmp(a, b, k) == flip(chars_cmp(b, a, k)),
    decreases a.len() - k,
{
    if 0 <= k && k < a.len() && k < b.len() && a[k] == b[k] {
        lemma_chars_cmp_flip(a, b, k + 1);
    }
}

proof fn lemma_forms_cmp_flip(a: Seq<Form>, b: Seq<Form>, k: int)
    ensures
        forms_cmp(a, b, k) == flip(forms_cmp(b, a, k)),
    decreases a.len() - k,
{
    if 0 <= k && k < a.len() && k < b.len() && a[k] == b[k] {
        lemma_forms_cmp_flip(a, b, k + 1);
    }
}

proof fn lemma_name_cmp_flip(a: Option<Seq<char>>, b: Option<Seq<char>>)
    ensures
        name_cmp(a, b) == flip(name_cmp(b, a)),
{
    if let (Some(l), Some(r)) = (a, b) {
        lemma_chars_cmp_flip(l, r, 0);
    }
}

proof fn lemma_xi_cmp_flip(a: XiV, b: XiV)
    ensures
        xi_cmp(a, b) == flip(xi_cmp(b, a)),
    decreases a, 0int,
{
    lemma_name_cmp_flip(a.value, b.value);
    lemma_xis_cmp_flip(a.num, b.num, 0);
    lemma_xis_cmp_flip(a.den, b.den, 0);
    lemma_forms_cmp_flip(a.partials, b.partials, 0);
}

proof fn lemma_xis_cmp_flip(a: Seq<XiV>, b: Seq<XiV>, k: int)
    ensures
        xis_cmp(a, b, k) == flip(xis_cmp(b, a, k)),
    decreases a, a.len() - k,
{
    if 0 <= k && k < a.len() && k < b.len() {
        lemma_xi_cmp_flip(a[k], b[k]);
        lemma_xis_cmp_flip(a, b, k + 1);
    }
}

/// Any two terms are in order one way or the other.
pub proof fn law_term_order_total(a: TermV, b: TermV)
    ensures
        term_le(a, b) || term_le(b, a),
{
    lemma_xi_cmp_flip(a.xi, b.xi);
    lemma_cmp_int_flip(
        crate::basis::form_rank(a.alpha.form),
        crate::basis::form_rank(b.alpha.form),
    );
    lemma_cmp_int_flip(crate::basis::sign_rank(a.alpha.sign), crate::basis::sign_rank(b.alpha.sign));
    lemma_cmp_int_flip(
        (a.magnitude.0 * b.magnitude.1) as int,
        (b.magnitude.0 * a.magnitude.1) as int,
    );
}

/// The terms of a multivector built from any list of terms are in canonical
/// order: each term is in order with the next.
pub proof fn law_terms_kept_in_order(s: Seq<TermV>)
    ensures
        sorted_by(sort_by(s, term_order()), term_order()),
{
    assert forall|a: TermV, b: TermV| #[trigger] (term_order())(a, b) || (term_order())(b, a) by {
        law_term_order_total(a, b);
    }
    lemma_sort_sorted(s, term_order());
}

} // verus!
