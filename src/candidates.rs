//! Products of a multivector with its conjugates that may come out scalar.
use vstd::prelude::*;
use crate::basis::{Form, Grade, Orientation, Zet, form_grade};
use crate::multivector::{MultiVector, can_simplify, has_form, simplify_spec};
use crate::ops::{AR, Conjugation, conjugate_spec, full_fits, full_spec, simplified_product};
use crate::order::sort_by;
use crate::term::{TermV, term_order};

verus! {

/// Every term lies on the point.
pub open spec fn all_scalar(s: Seq<TermV>) -> bool {
    forall|k: int| 0 <= k < s.len() ==> form_grade(#[trigger] s[k].alpha.form) == Grade::Zero
}

/// The simplified full product of two lists of terms.
pub open spec fn sprod(a: Seq<TermV>, b: Seq<TermV>) -> Seq<TermV> {
    simplify_spec(sort_by(full_spec(a, b), term_order()))
}

/// The simplified full product can be computed.
pub open spec fn sprod_ok(a: Seq<TermV>, b: Seq<TermV>) -> bool {
    full_fits(a, b) && can_simplify(sort_by(full_spec(a, b), term_order()))
}

/// A multivector conjugated by the conjugate of its zet: the singlets kept
/// are those that pair with the first triad present.
pub open spec fn zet_conjugate(s: Seq<TermV>) -> Seq<TermV> {
    let p = Form { zet: Zet::B, orientation: Orientation::e };
    let t = Form { zet: Zet::T, orientation: Orientation::e };
    let h = Form { zet: Zet::A, orientation: Orientation::e };
    let q = Form { zet: Zet::E, orientation: Orientation::e };
    if has_form(s, Form { zet: Zet::B, orientation: Orientation::i }) {
        sort_by(conjugate_spec(Conjugation::Forms(vec_of(seq![p, t, h, q])), s), term_order())
    } else if has_form(s, Form { zet: Zet::T, orientation: Orientation::i }) {
        sort_by(conjugate_spec(Conjugation::Forms(vec_of(seq![p, t])), s), term_order())
    } else if has_form(s, Form { zet: Zet::A, orientation: Orientation::i }) {
        sort_by(conjugate_spec(Conjugation::Forms(vec_of(seq![p, h])), s), term_order())
    } else if has_form(s, Form { zet: Zet::E, orientation: Orientation::i }) {
        sort_by(conjugate_spec(Conjugation::Forms(vec_of(seq![p, q])), s), term_order())
    } else {
        s
    }
}

/// A list of forms whose view is `s`.
pub open spec fn vec_of(s: Seq<Form>) -> Vec<Form> {
    choose|v: Vec<Form>| v@ == s
}

/// The diamond conjugate, in canonical order.
pub open spec fn diamond_of(s: Seq<TermV>) -> Seq<TermV> {
    sort_by(conjugate_spec(Conjugation::Grade(Grade::Zero), s), term_order())
}

/// The Hermitian conjugate, in canonical order.
pub open spec fn dagger_of(s: Seq<TermV>) -> Seq<TermV> {
    sort_by(conjugate_spec(Conjugation::Hermitian, s), term_order())
}

/// Every candidate product can be computed.
pub open spec fn candidates_ok(s: Seq<TermV>) -> bool {
    &&& sprod_ok(s, s)
    &&& sprod_ok(s, dagger_of(s))
    &&& sprod_ok(s, diamond_of(s))
    &&& sprod_ok(s, zet_conjugate(s))
    &&& sprod_ok(sprod(s, dagger_of(s)), diamond_of(sprod(s, dagger_of(s))))
}

/// Each named candidate by its view.
pub open spec fn candidate_views(v: Seq<(&'static str, MultiVector)>) -> Seq<(Seq<char>, Seq<TermV>)> {
    v.map_values(|p: (&'static str, MultiVector)| (p.0@, p.1@))
}

/// The candidates from position `k` on that are scalars.
pub open spec fn scalars_from(s: Seq<(Seq<char>, Seq<TermV>)>, k: int) -> Seq<(Seq<char>, Seq<TermV>)>
    decreases s.len() - k,
{
    if k < 0 || k >= s.len() {
        seq![]
    } else {
        (if all_scalar(s[k].1) {
            seq![s[k]]
        } else {
            seq![]
        }) + scalars_from(s, k + 1)
    }
}

/// Products of a multivector with its conjugates that may be scalar, in
/// order of complexity: square, dagger, diamond, zet, Van der Mark.
pub struct ScalarCandidates {
    pub mvec: MultiVector,
    pub square: MultiVector,
    pub dagger: MultiVector,
    pub diamond: MultiVector,
    pub zet: MultiVector,
    pub van_der_mark: MultiVector,
}

fn forms_vec(fs: &[Form]) -> (r: Vec<Form>)
    ensures
        r@ == fs@,
{
    let mut v: Vec<Form> = Vec::new();
    let mut k: usize = 0;
    while k < fs.len()
        invariant
            k <= fs@.len(),
            v@ == fs@.subrange(0, k as int),
        decreases fs@.len() - k,
    {
        v.push(fs[k]);
        k = k + 1;
    }
    proof {
        assert(v@ =~= fs@);
    }
    v
}

proof fn lemma_conjugate_forms_view(fs: Vec<Form>, s: Seq<TermV>)
    ensures
        conjugate_spec(Conjugation::Forms(fs), s) == conjugate_spec(
            Conjugation::Forms(vec_of(fs@)),
            s,
        ),
{
    let v = vec_of(fs@);
    assert(v@ == fs@);
    assert(conjugate_spec(Conjugation::Forms(fs), s) =~= conjugate_spec(Conjugation::Forms(v), s));
}

fn conjugate_zet(m: &MultiVector) -> (r: MultiVector)
    ensures
        r@ == zet_conjugate(m@),
{
    let p = Form::new(Zet::B, Orientation::e);
    let t = Form::new(Zet::T, Orientation::e);
    let h = Form::new(Zet::A, Orientation::e);
    let q = Form::new(Zet::E, Orientation::e);
    let fs = if m.has_form(&Form::new(Zet::B, Orientation::i)) {
        forms_vec(&[p, t, h, q])
    } else if m.has_form(&Form::new(Zet::T, Orientation::i)) {
        forms_vec(&[p, t])
    } else if m.has_form(&Form::new(Zet::A, Orientation::i)) {
        forms_vec(&[p, h])
    } else if m.has_form(&Form::new(Zet::E, Orientation::i)) {
        forms_vec(&[p, q])
    } else {
        return m.copy();
    };
    proof {
        lemma_conjugate_forms_view(fs, m@);
        assert(fs@ =~= seq![p, t, h, q] || fs@ =~= seq![p, t] || fs@ =~= seq![p, h] || fs@ =~= seq![p, q]);
    }
    m.conjugate_forms(fs)
}

impl ScalarCandidates {
    /// Compute the candidate products for `m`.
    pub fn new(m: &MultiVector) -> (r: ScalarCandidates)
        requires
            candidates_ok(m@),
        ensures
            r.mvec@ == m@,
            r.square@ == sprod(m@, m@),
            r.dagger@ == sprod(m@, dagger_of(m@)),
            r.diamond@ == sprod(m@, diamond_of(m@)),
            r.zet@ == sprod(m@, zet_conjugate(m@)),
            r.van_der_mark@ == sprod(sprod(m@, dagger_of(m@)), diamond_of(sprod(m@, dagger_of(m@)))),
    {
        let dag = m.dagger();
        let dia = m.diamond();
        let zc = conjugate_zet(m);
        let phi = simplified_product(m, &dag);
        let phi_diamond = phi.diamond();
        ScalarCandidates {
            mvec: m.copy(),
            square: simplified_product(m, m),
            dagger: simplified_product(m, &dag),
            diamond: simplified_product(m, &dia),
            zet: simplified_product(m, &zc),
            van_der_mark: simplified_product(&phi, &phi_diamond),
        }
    }

    /// The named candidates in order of complexity.
    pub fn iter(&self) -> (r: Vec<(&'static str, MultiVector)>)
        ensures
            candidate_views(r@) == self.candidates_spec(),
    {
        let r = vec![
            ("sqr", self.square.copy()),
            ("dgr", self.dagger.copy()),
            ("dmd", self.diamond.copy()),
            ("zet", self.zet.copy()),
            ("vdm", self.van_der_mark.copy()),
        ];
        proof {
            assert(candidate_views(r@) =~= self.candidates_spec());
        }
        r
    }

    /// The named candidates, by their views, in order of complexity.
    pub open spec fn candidates_spec(&self) -> Seq<(Seq<char>, Seq<TermV>)> {
        seq![
            ("sqr"@, self.square@),
            ("dgr"@, self.dagger@),
            ("dmd"@, self.diamond@),
            ("zet"@, self.zet@),
            ("vdm"@, self.van_der_mark@),
        ]
    }

    /// The candidates that are scalars, in order of complexity.
    pub fn iter_scalars(&self) -> (r: Vec<(&'static str, MultiVector)>)
        ensures
            candidate_views(r@) == scalars_from(self.candidates_spec(), 0),
    {
        let all = self.iter();
        let ghost cs = candidate_views(all@);
        let mut out: Vec<(&'static str, MultiVector)> = Vec::new();
        let mut k: usize = 0;
        proof {
            assert(candidate_views(out@) =~= Seq::<(Seq<char>, Seq<TermV>)>::empty());
            assert(cs =~= self.candidates_spec());
        }
        while k < all.len()
            invariant
                k <= all@.len(),
                cs == candidate_views(all@),
                cs == self.candidates_spec(),
                candidate_views(out@) + scalars_from(cs, k as int) == scalars_from(cs, 0),
            decreases all@.len() - k,
        {
            let (name, c) = &all[k];
            let ghost before = candidate_views(out@);
            if crate::ops::ArInput::is_scalar(c) {
                out.push((*name, c.copy()));
                proof {
                    assert(candidate_views(out@) =~= before.push((name@, c@)));
                }
            }
            proof {
                assert(cs[k as int] == (name@, c@));
                assert(before + scalars_from(cs, k as int) =~= candidate_views(out@) + scalars_from(
                    cs,
                    k + 1,
                ));
            }
            k = k + 1;
        }
        proof {
            assert(candidate_views(out@) =~= candidate_views(out@) + scalars_from(cs, k as int));
        }
        out
    }

    /// The multivector that the candidates were computed from.
    pub fn original(&self) -> (r: &MultiVector)
        ensures
            r == &self.mvec,
    {
        &self.mvec
    }

    /// The first candidate, in order of complexity, that is a scalar.
    pub fn simplest(&self) -> (r: Option<(&'static str, MultiVector)>)
        ensures
            scalars_from(self.candidates_spec(), 0).len() == 0 ==> r is None,
            scalars_from(self.candidates_spec(), 0).len() > 0 ==> (r matches Some(c) && (
                c.0@,
                c.1@,
            ) == scalars_from(self.candidates_spec(), 0)[0]),
    {
        let mut s = self.iter_scalars();
        if s.len() == 0 {
            None
        } else {
            assert(candidate_views(s@)[0] == (s@[0].0@, s@[0].1@));
            Some(s.remove(0))
        }
    }
}

} // verus!
