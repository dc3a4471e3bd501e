//! Short written forms of multivectors, and the named singlets and triads.
use vstd::prelude::*;
use crate::basis::{Alpha, Form, Orientation, Sign, Zet};
use crate::iters::{all_equal_signs, join_strings, joined};
use crate::multivector::{MultiVector, forms_from, has_form};
use crate::term::{Term, TermV, alpha_term, terms_view};
use crate::xi::{form_name, form_name_string};

verus! {

/// The letter that stands for a zet or one of its members in shorthand:
/// p t h q for the identities of B T A E, then B T A E for the others.
pub open spec fn shorthand_letter(k: int) -> Seq<char> {
    seq!["p"@, "t"@, "h"@, "q"@, "B"@, "T"@, "A"@, "E"@][k]
}

/// The form that each shorthand letter looks for.
pub open spec fn shorthand_form(k: int) -> Form {
    let z = seq![Zet::B, Zet::T, Zet::A, Zet::E][k % 4];
    Form { zet: z, orientation: if k < 4 { Orientation::e } else { Orientation::i } }
}

/// The shorthand letters, from position `k` on, whose form occurs in `s`.
pub open spec fn shorthand_from(s: Seq<TermV>, k: int) -> Seq<char>
    decreases 8 - k,
{
    if k < 0 || k >= 8 {
        seq![]
    } else {
        (if has_form(s, shorthand_form(k)) {
            shorthand_letter(k)
        } else {
            seq![]
        }) + shorthand_from(s, k + 1)
    }
}

/// A multivector in shorthand: the letters of the zets and singlets present.
pub fn shorthand_rep(m: &MultiVector) -> (r: String)
    ensures
        r@ == shorthand_from(m@, 0),
{
    let letters = ["p", "t", "h", "q", "B", "T", "A", "E"];
    let zets = [Zet::B, Zet::T, Zet::A, Zet::E];
    let mut out = String::new();
    let mut k: usize = 0;
    assert(forall|j: int| 0 <= j < 8 ==> #[trigger] letters@[j]@ == shorthand_letter(j));
    while k < 8
        invariant
            k <= 8,
            letters@.len() == 8,
            zets@ == seq![Zet::B, Zet::T, Zet::A, Zet::E],
            forall|j: int| 0 <= j < 8 ==> #[trigger] letters@[j]@ == shorthand_letter(j),
            out@ + shorthand_from(m@, k as int) == shorthand_from(m@, 0),
        decreases 8 - k,
    {
        let o = if k < 4 {
            Orientation::e
        } else {
            Orientation::i
        };
        let f = Form::new(zets[k % 4], o);
        let ghost before = out@;
        if m.has_form(&f) {
            out = out.concat(letters[k]);
        }
        proof {
            assert(f == shorthand_form(k as int));
            assert(before + shorthand_from(m@, k as int) =~= out@ + shorthand_from(m@, k + 1));
        }
        k = k + 1;
    }
    proof {
        assert(out@ =~= out@ + shorthand_from(m@, 8));
    }
    out
}

/// The written forms present: "{ ", each "a" and form name joined by " ", " }".
pub open spec fn form_rep(s: Seq<TermV>) -> Seq<char> {
    "{ "@ + joined(forms_from(s, 0).map_values(|f: Form| "a"@ + form_name(f)), " "@) + " }"@
}

/// The forms that a multivector holds, written out in canonical order.
pub fn simple_form_rep(m: &MultiVector) -> (r: String)
    ensures
        r@ == form_rep(m@),
{
    let forms = m.forms();
    let mut parts: Vec<String> = Vec::new();
    let mut k: usize = 0;
    while k < forms.len()
        invariant
            k <= forms@.len(),
            parts@.len() == k,
            forall|j: int| 0 <= j < k ==> #[trigger] parts@[j]@ == "a"@ + form_name(forms@[j]),
        decreases forms@.len() - k,
    {
        let name = form_name_string(&forms[k]);
        parts.push(String::from_str("a").concat(name.as_str()));
        k = k + 1;
    }
    let body = join_strings(&parts, " ");
    proof {
        assert(parts@.map_values(|p: String| p@) =~= forms_from(m@, 0).map_values(
            |f: Form| "a"@ + form_name(f),
        ));
    }
    String::from_str("{ ").concat(body.as_str()).concat(" }")
}

/// A scalar has a null hyperplane where its terms do not all share one sign.
pub fn null_hyperplane(m: &MultiVector) -> (r: bool)
    ensures
        r == exists|i: int, j: int|
            0 <= i < m@.len() && 0 <= j < m@.len() && #[trigger] m@[i].alpha.sign
                != #[trigger] m@[j].alpha.sign,
{
    let mut signs: Vec<Sign> = Vec::new();
    let mut k: usize = 0;
    while k < m.terms.len()
        invariant
            k <= m.terms@.len(),
            signs@.len() == k,
            forall|j: int| 0 <= j < k ==> #[trigger] signs@[j] == m.terms@[j]@.alpha.sign,
        decreases m.terms@.len() - k,
    {
        signs.push(m.terms[k].sign());
        k = k + 1;
    }
    let same = all_equal_signs(&signs);
    proof {
        assert forall|j: int| 0 <= j < m@.len() implies #[trigger] m@[j].alpha.sign == signs@[j] by {
            assert(m@[j] == m.terms@[j]@);
        }
        if !same {
            let (a, b) = choose|a: int, b: int|
                !(0 <= a < signs@.len() && 0 <= b < signs@.len() ==> signs@[a] == signs@[b]);
            assert(m@[a].alpha.sign != m@[b].alpha.sign);
        } else {
            assert forall|i: int, j: int|
                0 <= i < m@.len() && 0 <= j < m@.len() implies m@[i].alpha.sign
                == m@[j].alpha.sign by {
                assert(signs@[i] == signs@[j]);
            }
        }
    }
    !same
}

/// The four singlets p, t, h, q as unit terms.
pub open spec fn singlet_terms() -> Seq<TermV> {
    seq![
        alpha_term(Alpha { sign: Sign::Pos, form: Form { zet: Zet::B, orientation: Orientation::e } }),
        alpha_term(Alpha { sign: Sign::Pos, form: Form { zet: Zet::T, orientation: Orientation::e } }),
        alpha_term(Alpha { sign: Sign::Pos, form: Form { zet: Zet::A, orientation: Orientation::e } }),
        alpha_term(Alpha { sign: Sign::Pos, form: Form { zet: Zet::E, orientation: Orientation::e } }),
    ]
}

/// All singlet elements of the algebra: p, t, h, q.
pub fn singlets() -> (r: Vec<Term>)
    ensures
        terms_view(r@) == singlet_terms(),
{
    let r = vec![
        Term::new(None, Alpha::new(Sign::Pos, Form::new(Zet::B, Orientation::e))),
        Term::new(None, Alpha::new(Sign::Pos, Form::new(Zet::T, Orientation::e))),
        Term::new(None, Alpha::new(Sign::Pos, Form::new(Zet::A, Orientation::e))),
        Term::new(None, Alpha::new(Sign::Pos, Form::new(Zet::E, Orientation::e))),
    ];
    proof {
        assert(terms_view(r@) =~= singlet_terms());
    }
    r
}

/// All triads of the algebra: B, T, A, E.
pub fn triads() -> (r: Vec<MultiVector>)
    ensures
        r@.len() == 4,
        r@[0]@ == crate::order::sort_by(
            crate::catalog::positive_terms(crate::catalog::zet_forms(Zet::B, crate::catalog::ijk())),
            crate::term::term_order(),
        ),
        r@[1]@ == crate::order::sort_by(
            crate::catalog::positive_terms(crate::catalog::zet_forms(Zet::T, crate::catalog::ijk())),
            crate::term::term_order(),
        ),
        r@[2]@ == crate::order::sort_by(
            crate::catalog::positive_terms(crate::catalog::zet_forms(Zet::A, crate::catalog::ijk())),
            crate::term::term_order(),
        ),
        r@[3]@ == crate::order::sort_by(
            crate::catalog::positive_terms(crate::catalog::zet_forms(Zet::E, crate::catalog::ijk())),
            crate::term::term_order(),
        ),
{
    vec![crate::catalog::B(), crate::catalog::T(), crate::catalog::A(), crate::catalog::E()]
}

} // verus!
