//! Division, by way of the Van der Mark invariant.
use vstd::prelude::*;
use crate::basis::Grade;
use crate::magnitude::{Magnitude, fits, mag_wf, quot_parts, reduce, sum_parts};
use crate::multivector::{MultiVector, can_simplify, simplify_spec};
use crate::ops::{
    AR, ArInput, ArOutput, Conjugation, conjugate_spec, full, full_fits, full_spec, mags_invertible,
    simplified_product,
};
use crate::order::sort_by;
use crate::term::{Term, TermV, product_fits, term_inverse, term_order, term_product, terms_view};

verus! {

/// The Hermitian conjugate of the terms.
pub open spec fn vdm_herm(s: Seq<TermV>) -> Seq<TermV> {
    conjugate_spec(Conjugation::Hermitian, s)
}

/// phi: the terms times their Hermitian conjugate, simplified.
pub open spec fn vdm_phi(s: Seq<TermV>) -> Seq<TermV> {
    simplify_spec(sort_by(full_spec(s, vdm_herm(s)), term_order()))
}

/// The diamond conjugate of phi.
pub open spec fn vdm_phi_diamond(s: Seq<TermV>) -> Seq<TermV> {
    sort_by(conjugate_spec(Conjugation::Grade(Grade::Zero), vdm_phi(s)), term_order())
}

/// The Van der Mark invariant: phi times its diamond conjugate, simplified.
pub open spec fn vdm_scalar(s: Seq<TermV>) -> Seq<TermV> {
    simplify_spec(sort_by(full_spec(vdm_phi(s), vdm_phi_diamond(s)), term_order()))
}

/// The Hermitian conjugate times the diamond conjugate of phi, simplified:
/// the inverse up to the invariant's magnitude.
pub open spec fn vdm_inverse(s: Seq<TermV>) -> Seq<TermV> {
    simplify_spec(sort_by(full_spec(vdm_herm(s), vdm_phi_diamond(s)), term_order()))
}

/// Every product and sum that computing the invariant and the inverse
/// performs fits in machine words.
pub open spec fn vdm_computable(s: Seq<TermV>) -> bool {
    &&& full_fits(s, vdm_herm(s))
    &&& can_simplify(sort_by(full_spec(s, vdm_herm(s)), term_order()))
    &&& full_fits(vdm_phi(s), vdm_phi_diamond(s))
    &&& can_simplify(sort_by(full_spec(vdm_phi(s), vdm_phi_diamond(s)), term_order()))
    &&& full_fits(vdm_herm(s), vdm_phi_diamond(s))
    &&& can_simplify(sort_by(full_spec(vdm_herm(s), vdm_phi_diamond(s)), term_order()))
}

/// The sum of the magnitudes of the terms.
pub open spec fn mag_total(s: Seq<TermV>) -> (nat, nat)
    decreases s.len(),
{
    if s.len() == 0 {
        (0, 1)
    } else {
        let a = mag_total(s.drop_last());
        reduce(sum_parts(a, s.last().magnitude).0, sum_parts(a, s.last().magnitude).1)
    }
}

/// Every addition in that sum fits in machine words, on well-formed magnitudes.
pub open spec fn mag_total_fits(s: Seq<TermV>) -> bool
    decreases s.len(),
{
    if s.len() == 0 {
        true
    } else {
        mag_total_fits(s.drop_last()) && mag_wf(s.last().magnitude) && fits(
            sum_parts(mag_total(s.drop_last()), s.last().magnitude),
        )
    }
}

/// Every magnitude divided by `m`.
pub open spec fn div_mags(s: Seq<TermV>, m: (nat, nat)) -> Seq<TermV> {
    s.map_values(
        |t: TermV|
            TermV { magnitude: reduce(quot_parts(t.magnitude, m).0, quot_parts(t.magnitude, m).1), ..t },
    )
}

/// Dividing every magnitude by `m` is defined and fits in machine words.
pub open spec fn div_mags_fits(s: Seq<TermV>, m: (nat, nat)) -> bool {
    &&& mag_wf(m)
    &&& m.0 > 0
    &&& forall|k: int|
        0 <= k < s.len() ==> mag_wf(#[trigger] s[k].magnitude) && fits(
            quot_parts(s[k].magnitude, m),
        )
}

/// The sum of the magnitudes of a list of terms.
pub fn scalar_magnitude(terms: &Vec<Term>) -> (r: Magnitude)
    requires
        mag_total_fits(terms_view(terms@)),
    ensures
        r@ == mag_total(terms_view(terms@)),
        mag_wf(r@),
{
    let ghost s = terms_view(terms@);
    let mut acc = Magnitude::new(0, 1);
    let mut k: usize = 0;
    proof {
        assert(s.subrange(0, 0) =~= Seq::<TermV>::empty());
        lemma_total_fits_prefix(s, s.len() as int);
    }
    while k < terms.len()
        invariant
            k <= terms@.len(),
            s == terms_view(terms@),
            mag_total_fits(s),
            acc@ == mag_total(s.subrange(0, k as int)),
            mag_wf(acc@),
        decreases terms@.len() - k,
    {
        proof {
            let p = s.subrange(0, k + 1);
            assert(p.drop_last() =~= s.subrange(0, k as int));
            assert(p.last() == terms@[k as int]@);
            lemma_total_fits_prefix(s, k + 1);
        }
        acc = acc.add(terms[k].magnitude);
        k = k + 1;
    }
    proof {
        assert(s.subrange(0, terms@.len() as int) =~= s);
    }
    acc
}

proof fn lemma_total_fits_prefix(s: Seq<TermV>, n: int)
    requires
        0 <= n <= s.len(),
        mag_total_fits(s),
    ensures
        mag_total_fits(s.subrange(0, n)),
    decreases s.len() - n,
{
    if n == s.len() {
        assert(s.subrange(0, n) =~= s);
    } else {
        lemma_total_fits_prefix(s.drop_last(), n);
        assert(s.drop_last().subrange(0, n) =~= s.subrange(0, n));
    }
}

/// Divide the magnitude of every term by `m`.
pub fn divide_terms(terms: &Vec<Term>, m: Magnitude) -> (r: Vec<Term>)
    requires
        div_mags_fits(terms_view(terms@), m@),
    ensures
        terms_view(r@) == div_mags(terms_view(terms@), m@),
{
    let mut out: Vec<Term> = Vec::new();
    let mut k: usize = 0;
    while k < terms.len()
        invariant
            k <= terms@.len(),
            div_mags_fits(terms_view(terms@), m@),
            out@.len() == k,
            forall|j: int| 0 <= j < k ==> #[trigger] out@[j]@ == div_mags(terms_view(terms@), m@)[j],
        decreases terms@.len() - k,
    {
        assert(terms_view(terms@)[k as int] == terms@[k as int]@);
        assert(mag_wf(terms_view(terms@)[k as int].magnitude));
        let mut t = terms[k].copy();
        t.magnitude = t.magnitude.div(m);
        out.push(t);
        k = k + 1;
    }
    proof {
        assert(terms_view(out@) =~= div_mags(terms_view(terms@), m@));
    }
    out
}

/// The Van der Mark invariant of the given terms.
pub fn van_der_mark_scalar(terms: Vec<Term>) -> (r: Vec<Term>)
    requires
        vdm_computable(terms_view(terms@)),
    ensures
        terms_view(r@) == vdm_scalar(terms_view(terms@)),
{
    let hermitian = terms.hermitian();
    let phi = simplified_product(&terms, &hermitian);
    let phi_diamond = phi.diamond();
    let scalar = simplified_product(&phi, &phi_diamond);
    scalar.as_terms()
}

/// The invariant's magnitude, and the Hermitian conjugate times the diamond
/// conjugate of phi, simplified.
pub fn vdm_divisor_and_inverse(terms: Vec<Term>) -> (r: (Magnitude, Vec<Term>))
    requires
        vdm_computable(terms_view(terms@)),
        mag_total_fits(vdm_scalar(terms_view(terms@))),
    ensures
        r.0@ == mag_total(vdm_scalar(terms_view(terms@))),
        terms_view(r.1@) == vdm_inverse(terms_view(terms@)),
{
    let hermitian = terms.hermitian();
    let phi = simplified_product(&terms, &hermitian);
    let phi_diamond = phi.diamond();
    let scalar = simplified_product(&phi, &phi_diamond).as_terms();
    let mag = scalar_magnitude(&scalar);
    let inverse = simplified_product(&hermitian, &phi_diamond);
    (mag, inverse.as_terms())
}

/// The side on which the divisor stands.
#[derive(PartialEq, Eq, Structural, Clone, Copy, Debug)]
pub enum DivideSide {
    /// Divide the left operand into the right one.
    Left,
    /// Divide the right operand into the left one.
    Right,
}

/// The terms of a quotient. Two single terms: the divisor's inverse times
/// the other term, on the divisor's side. Otherwise: the other operand times
/// the divisor's Van der Mark inverse, on the divisor's side, with every
/// magnitude divided by the invariant's magnitude.
pub open spec fn div_spec(l: Seq<TermV>, r: Seq<TermV>, side: DivideSide) -> Seq<TermV> {
    if l.len() == 1 && r.len() == 1 {
        match side {
            DivideSide::Left => seq![term_product(term_inverse(l[0]), r[0])],
            DivideSide::Right => seq![term_product(l[0], term_inverse(r[0]))],
        }
    } else {
        match side {
            DivideSide::Left => div_mags(
                sort_by(full_spec(vdm_inverse(l), r), term_order()),
                mag_total(vdm_scalar(l)),
            ),
            DivideSide::Right => div_mags(
                sort_by(full_spec(l, vdm_inverse(r)), term_order()),
                mag_total(vdm_scalar(r)),
            ),
        }
    }
}

/// Every step of that quotient is defined and fits in machine words.
pub open spec fn div_computable(l: Seq<TermV>, r: Seq<TermV>, side: DivideSide) -> bool {
    if l.len() == 1 && r.len() == 1 {
        match side {
            DivideSide::Left => mags_invertible(l) && mag_wf(r[0].magnitude) && product_fits(
                term_inverse(l[0]),
                r[0],
            ),
            DivideSide::Right => mags_invertible(r) && mag_wf(l[0].magnitude) && product_fits(
                l[0],
                term_inverse(r[0]),
            ),
        }
    } else {
        match side {
            DivideSide::Left => {
                &&& vdm_computable(l)
                &&& mag_total_fits(vdm_scalar(l))
                &&& full_fits(vdm_inverse(l), r)
                &&& div_mags_fits(
                    sort_by(full_spec(vdm_inverse(l), r), term_order()),
                    mag_total(vdm_scalar(l)),
                )
            },
            DivideSide::Right => {
                &&& vdm_computable(r)
                &&& mag_total_fits(vdm_scalar(r))
                &&& full_fits(l, vdm_inverse(r))
                &&& div_mags_fits(
                    sort_by(full_spec(l, vdm_inverse(r)), term_order()),
                    mag_total(vdm_scalar(r)),
                )
            },
        }
    }
}

fn div_single(lterms: &Vec<Term>, rterms: &Vec<Term>, side: DivideSide) -> (r: Vec<Term>)
    requires
        lterms@.len() == 1,
        rterms@.len() == 1,
        div_computable(terms_view(lterms@), terms_view(rterms@), side),
    ensures
        terms_view(r@) == div_spec(terms_view(lterms@), terms_view(rterms@), side),
{
    proof {
        assert(terms_view(lterms@)[0] == lterms@[0]@);
        assert(terms_view(rterms@)[0] == rterms@[0]@);
    }
    let prod = match side {
        DivideSide::Left => {
            assert(mags_invertible(terms_view(lterms@)));
            assert(mag_wf(terms_view(lterms@)[0].magnitude));
            proof {
                crate::magnitude::lemma_reduce_wf(
                    lterms@[0]@.magnitude.1,
                    lterms@[0]@.magnitude.0,
                );
            }
            lterms[0].inverse().form_product_with(&rterms[0])
        },
        DivideSide::Right => {
            assert(mags_invertible(terms_view(rterms@)));
            assert(mag_wf(terms_view(rterms@)[0].magnitude));
            proof {
                crate::magnitude::lemma_reduce_wf(
                    rterms@[0]@.magnitude.1,
                    rterms@[0]@.magnitude.0,
                );
            }
            lterms[0].form_product_with(&rterms[0].inverse())
        },
    };
    let out = vec![prod];
    proof {
        assert(terms_view(out@) =~= div_spec(terms_view(lterms@), terms_view(rterms@), side));
    }
    out
}

fn div_general(lterms: Vec<Term>, rterms: Vec<Term>, side: DivideSide) -> (r: Vec<Term>)
    requires
        !(lterms@.len() == 1 && rterms@.len() == 1),
        div_computable(terms_view(lterms@), terms_view(rterms@), side),
    ensures
        terms_view(r@) == div_spec(terms_view(lterms@), terms_view(rterms@), side),
{
    let (divisor, product) = match side {
        DivideSide::Left => {
            let (divisor, inverse) = vdm_divisor_and_inverse(lterms);
            let product: MultiVector = full(&inverse, &rterms);
            (divisor, product)
        },
        DivideSide::Right => {
            let (divisor, inverse) = vdm_divisor_and_inverse(rterms);
            let product: MultiVector = full(&lterms, &inverse);
            (divisor, product)
        },
    };
    let terms = product.as_terms();
    divide_terms(&terms, divisor)
}

fn div<L: ArInput, R: ArInput, T: ArOutput>(left: &L, right: &R, side: DivideSide) -> (r: T)
    requires
        div_computable(left.ar_terms(), right.ar_terms(), side),
        T::accepts(div_spec(left.ar_terms(), right.ar_terms(), side)),
    ensures
        T::built_from(div_spec(left.ar_terms(), right.ar_terms(), side), r),
{
    let lterms = left.as_terms();
    let rterms = right.as_terms();
    if lterms.len() == 1 && rterms.len() == 1 {
        T::from_terms(div_single(&lterms, &rterms, side))
    } else {
        T::from_terms(div_general(lterms, rterms, side))
    }
}

/// Divide `left` into `right`.
pub fn div_into<L: ArInput, R: ArInput, T: ArOutput>(left: &L, right: &R) -> (r: T)
    requires
        div_computable(left.ar_terms(), right.ar_terms(), DivideSide::Left),
        T::accepts(div_spec(left.ar_terms(), right.ar_terms(), DivideSide::Left)),
    ensures
        T::built_from(div_spec(left.ar_terms(), right.ar_terms(), DivideSide::Left), r),
{
    div(left, right, DivideSide::Left)
}

/// Divide `right` into `left`.
pub fn div_by<L: ArInput, R: ArInput, T: ArOutput>(left: &L, right: &R) -> (r: T)
    requires
        div_computable(left.ar_terms(), right.ar_terms(), DivideSide::Right),
        T::accepts(div_spec(left.ar_terms(), right.ar_terms(), DivideSide::Right)),
    ensures
        T::built_from(div_spec(left.ar_terms(), right.ar_terms(), DivideSide::Right), r),
{
    div(left, right, DivideSide::Right)
}

} // verus!
