//! Named multivectors and differential operators of common use.
#![allow(non_snake_case)]
use vstd::prelude::*;
use crate::basis::{Alpha, Form, Orientation, Sign, Zet, alpha_inverse, form_at};
use crate::differential::Differential;
use crate::multivector::MultiVector;
use crate::order::sort_by;
use crate::term::{TermV, alpha_term, term_order};

verus! {

/// The positive terms of magnitude 1 for the given forms, named after them.
pub open spec fn positive_terms(fs: Seq<Form>) -> Seq<TermV> {
    Seq::new(fs.len(), |k: int| alpha_term(Alpha { sign: Sign::Pos, form: fs[k] }))
}

/// The forms of a zet with the given orientations, in order.
pub open spec fn zet_forms(z: Zet, os: Seq<Orientation>) -> Seq<Form> {
    Seq::new(os.len(), |k: int| Form { zet: z, orientation: os[k] })
}

/// The three orientations other than the identity.
pub open spec fn ijk() -> Seq<Orientation> {
    seq![Orientation::i, Orientation::j, Orientation::k]
}

/// All four orientations.
pub open spec fn eijk() -> Seq<Orientation> {
    seq![Orientation::e, Orientation::i, Orientation::j, Orientation::k]
}

/// All sixteen forms in canonical order.
pub open spec fn all_forms() -> Seq<Form> {
    Seq::new(16, |k: int| form_at(k))
}

/// The multivector of positive unit terms for the given forms.
pub fn positive_mvec(fs: Vec<Form>) -> (r: MultiVector)
    ensures
        r@ == sort_by(positive_terms(fs@), term_order()),
{
    let mut alphas: Vec<Alpha> = Vec::new();
    let mut k: usize = 0;
    while k < fs.len()
        invariant
            k <= fs@.len(),
            alphas@.len() == k,
            forall|m: int| 0 <= m < k ==> #[trigger] alphas@[m] == (Alpha { sign: Sign::Pos, form: fs@[m] }),
        decreases fs@.len() - k,
    {
        alphas.push(Alpha::new(Sign::Pos, fs[k]));
        k = k + 1;
    }
    proof {
        assert(Seq::new(alphas@.len(), |k: int| alpha_term(alphas@[k])) =~= positive_terms(fs@));
    }
    MultiVector::from_alphas(alphas)
}

fn zet_vec(z: Zet, with_identity: bool) -> (r: Vec<Form>)
    ensures
        with_identity ==> r@ == zet_forms(z, eijk()),
        !with_identity ==> r@ == zet_forms(z, ijk()),
{
    let mut v: Vec<Form> = Vec::new();
    if with_identity {
        v.push(Form::new(z, Orientation::e));
    }
    v.push(Form::new(z, Orientation::i));
    v.push(Form::new(z, Orientation::j));
    v.push(Form::new(z, Orientation::k));
    proof {
        if with_identity {
            assert(v@ =~= zet_forms(z, eijk()));
        } else {
            assert(v@ =~= zet_forms(z, ijk()));
        }
    }
    v
}

/// The general multivector: all sixteen elements of the algebra.
pub fn G() -> (r: MultiVector)
    ensures
        r@ == sort_by(positive_terms(all_forms()), term_order()),
{
    let fs = Form::iter();
    proof {
        assert(fs@ =~= all_forms());
    }
    positive_mvec(fs)
}

/// The magnetic field: the space-space bivectors.
pub fn B() -> (r: MultiVector)
    ensures
        r@ == sort_by(positive_terms(zet_forms(Zet::B, ijk())), term_order()),
{
    positive_mvec(zet_vec(Zet::B, false))
}

/// The spin elements: the time-space-space trivectors.
pub fn T() -> (r: MultiVector)
    ensures
        r@ == sort_by(positive_terms(zet_forms(Zet::T, ijk())), term_order()),
{
    positive_mvec(zet_vec(Zet::T, false))
}

/// The space basis vectors.
pub fn A() -> (r: MultiVector)
    ensures
        r@ == sort_by(positive_terms(zet_forms(Zet::A, ijk())), term_order()),
{
    positive_mvec(zet_vec(Zet::A, false))
}

/// The electric field: the time-space bivectors.
pub fn E() -> (r: MultiVector)
    ensures
        r@ == sort_by(positive_terms(zet_forms(Zet::E, ijk())), term_order()),
{
    positive_mvec(zet_vec(Zet::E, false))
}

/// The zet B: the point and the magnetic field.
pub fn Zet_B() -> (r: MultiVector)
    ensures
        r@ == sort_by(positive_terms(zet_forms(Zet::B, eijk())), term_order()),
{
    positive_mvec(zet_vec(Zet::B, true))
}

/// The zet T: time and spin.
pub fn Zet_T() -> (r: MultiVector)
    ensures
        r@ == sort_by(positive_terms(zet_forms(Zet::T, eijk())), term_order()),
{
    positive_mvec(zet_vec(Zet::T, true))
}

/// The zet A: the hedgehog and space.
pub fn Zet_A() -> (r: MultiVector)
    ensures
        r@ == sort_by(positive_terms(zet_forms(Zet::A, eijk())), term_order()),
{
    positive_mvec(zet_vec(Zet::A, true))
}

/// The zet E: the quadrivector and the electric field.
pub fn Zet_E() -> (r: MultiVector)
    ensures
        r@ == sort_by(positive_terms(zet_forms(Zet::E, eijk())), term_order()),
{
    positive_mvec(zet_vec(Zet::E, true))
}

/// The magnetic and electric fields.
pub fn Fields() -> (r: MultiVector)
    ensures
        r@ == sort_by(
            positive_terms(zet_forms(Zet::B, ijk()) + zet_forms(Zet::E, ijk())),
            term_order(),
        ),
{
    let mut fs = zet_vec(Zet::B, false);
    let mut e = zet_vec(Zet::E, false);
    fs.append(&mut e);
    positive_mvec(fs)
}

/// The derivative with respect to time and space.
pub fn Dmu() -> (r: Differential)
    ensures
        r.wrt@ == Seq::new(
            4,
            |k: int|
                alpha_inverse(
                    Alpha {
                        sign: Sign::Pos,
                        form: seq![
                            Form { zet: Zet::T, orientation: Orientation::e },
                            Form { zet: Zet::A, orientation: Orientation::i },
                            Form { zet: Zet::A, orientation: Orientation::j },
                            Form { zet: Zet::A, orientation: Orientation::k },
                        ][k],
                    },
                ),
        ),
{
    let alphas = vec![
        Alpha::new(Sign::Pos, Form::new(Zet::T, Orientation::e)),
        Alpha::new(Sign::Pos, Form::new(Zet::A, Orientation::i)),
        Alpha::new(Sign::Pos, Form::new(Zet::A, Orientation::j)),
        Alpha::new(Sign::Pos, Form::new(Zet::A, Orientation::k)),
    ];
    let r = Differential::new(alphas.as_slice());
    proof {
        assert(r.wrt@ =~= Seq::new(
            4,
            |k: int|
                alpha_inverse(
                    Alpha {
                        sign: Sign::Pos,
                        form: seq![
                            Form { zet: Zet::T, orientation: Orientation::e },
                            Form { zet: Zet::A, orientation: Orientation::i },
                            Form { zet: Zet::A, orientation: Orientation::j },
                            Form { zet: Zet::A, orientation: Orientation::k },
                        ][k],
                    },
                ),
        ));
    }
    r
}

/// The derivative with respect to all sixteen elements of the algebra.
pub fn DG() -> (r: Differential)
    ensures
        r.wrt@ == Seq::new(16, |k: int| alpha_inverse(Alpha { sign: Sign::Pos, form: form_at(k) })),
{
    let fs = Form::iter();
    let mut alphas: Vec<Alpha> = Vec::new();
    let mut k: usize = 0;
    while k < fs.len()
        invariant
            fs@.len() == 16,
            forall|n: int| 0 <= n < 16 ==> #[trigger] fs@[n] == form_at(n),
            k <= 16,
            alphas@.len() == k,
            forall|m: int| 0 <= m < k ==> #[trigger] alphas@[m] == (Alpha { sign: Sign::Pos, form: form_at(m) }),
        decreases 16 - k,
    {
        alphas.push(Alpha::new(Sign::Pos, fs[k]));
        k = k + 1;
    }
    let r = Differential::new(alphas.as_slice());
    proof {
        assert(r.wrt@ =~= Seq::new(
            16,
            |k: int| alpha_inverse(Alpha { sign: Sign::Pos, form: form_at(k) }),
        ));
    }
    r
}

} // verus!
