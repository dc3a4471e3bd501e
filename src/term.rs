//! Terms: a magnitude times a signed basis element times a symbolic coefficient.
use vstd::prelude::*;
use core::cmp::Ordering;
use crate::basis::{
    Alpha, Form, Grade, Sign, alpha_inverse, alpha_neg, alpha_product, cmp_int, form_grade,
    form_rank, sign_rank,
};
use crate::magnitude::{
    Magnitude, diff_parts, fits, fits_cross, mag_cmp, mag_wf, prod_parts, reduce, sum_parts,
};
use crate::xi::{
    Xi, XiV, form_name, form_name_string, leaf, renderable, xi_cmp, xi_inverse, xi_merge,
    xi_render, xis_view, lemma_xis_view,
};

verus! {

/// One monomial: a magnitude, a signed basis element and a symbolic coefficient.
#[derive(Debug, PartialEq, Eq, Hash)]
pub struct Term {
    pub magnitude: Magnitude,
    pub alpha: Alpha,
    pub xi: Xi,
}

/// The mathematical content of a term.
pub struct TermV {
    pub magnitude: (nat, nat),
    pub alpha: Alpha,
    pub xi: XiV,
}

impl View for Term {
    type V = TermV;

    open spec fn view(&self) -> TermV {
        TermV { magnitude: self.magnitude@, alpha: self.alpha, xi: self.xi@ }
    }
}

/// A term with a well-formed magnitude and a coefficient that can be written.
pub open spec fn term_wf(t: TermV) -> bool {
    mag_wf(t.magnitude) && renderable(t.xi)
}

/// What two terms must share to be summed: their form and written coefficient.
pub open spec fn summation_key(t: TermV) -> (Form, Seq<char>) {
    (t.alpha.form, xi_render(t.xi))
}

/// The same term with the opposite sign.
pub open spec fn term_neg(t: TermV) -> TermV {
    TermV { alpha: alpha_neg(t.alpha), ..t }
}

/// `a` minus `b` where `a` is positive and `b` negative: the smaller
/// magnitude comes off the larger, and the sign flips where `b` was larger.
pub open spec fn sub_mag(a: TermV, b: TermV) -> TermV {
    if mag_cmp(a.magnitude, b.magnitude) == Ordering::Greater {
        TermV {
            magnitude: reduce(
                diff_parts(a.magnitude, b.magnitude).0,
                diff_parts(a.magnitude, b.magnitude).1,
            ),
            ..a
        }
    } else {
        TermV {
            magnitude: reduce(
                diff_parts(b.magnitude, a.magnitude).0,
                diff_parts(b.magnitude, a.magnitude).1,
            ),
            alpha: alpha_neg(a.alpha),
            ..a
        }
    }
}

/// The sum of two terms that share a summation key.
pub open spec fn term_sum(a: TermV, b: TermV) -> TermV {
    if a.alpha.sign == b.alpha.sign {
        TermV {
            magnitude: reduce(
                sum_parts(a.magnitude, b.magnitude).0,
                sum_parts(a.magnitude, b.magnitude).1,
            ),
            ..a
        }
    } else if a.alpha.sign == Sign::Pos {
        sub_mag(a, b)
    } else {
        sub_mag(b, a)
    }
}

/// The arithmetic of summing two terms fits in machine words.
pub open spec fn sum_fits(a: TermV, b: TermV) -> bool {
    if a.alpha.sign == b.alpha.sign {
        fits(sum_parts(a.magnitude, b.magnitude))
    } else {
        fits_cross(a.magnitude, b.magnitude) && fits_cross(b.magnitude, a.magnitude)
    }
}

/// The product of two terms: magnitudes multiply, basis elements take their
/// signed product, and the coefficients merge.
pub open spec fn term_product(a: TermV, b: TermV) -> TermV {
    TermV {
        magnitude: reduce(
            prod_parts(a.magnitude, b.magnitude).0,
            prod_parts(a.magnitude, b.magnitude).1,
        ),
        alpha: alpha_product(a.alpha, b.alpha),
        xi: xi_merge(seq![a.xi, b.xi]),
    }
}

/// The arithmetic of multiplying two terms fits in machine words.
pub open spec fn product_fits(a: TermV, b: TermV) -> bool {
    fits(prod_parts(a.magnitude, b.magnitude))
}

/// The inverse of a term through the point: reciprocal magnitude, inverse
/// basis element, inverse coefficient.
pub open spec fn term_inverse(t: TermV) -> TermV {
    TermV {
        magnitude: reduce(t.magnitude.1, t.magnitude.0),
        alpha: alpha_inverse(t.alpha),
        xi: xi_inverse(t.xi),
    }
}

/// The canonical order of terms: by form, then coefficient, then sign, then magnitude.
pub open spec fn term_cmp(a: TermV, b: TermV) -> Ordering {
    let c1 = cmp_int(form_rank(a.alpha.form), form_rank(b.alpha.form));
    if c1 != Ordering::Equal {
        c1
    } else {
        let c2 = xi_cmp(a.xi, b.xi);
        if c2 != Ordering::Equal {
            c2
        } else {
            let c3 = cmp_int(sign_rank(a.alpha.sign), sign_rank(b.alpha.sign));
            if c3 != Ordering::Equal {
                c3
            } else {
                mag_cmp(a.magnitude, b.magnitude)
            }
        }
    }
}

/// `a` may come before `b` in the canonical order of terms.
pub open spec fn term_le(a: TermV, b: TermV) -> bool {
    term_cmp(a, b) != Ordering::Greater
}

/// The canonical order of terms, as a relation.
pub open spec fn term_order() -> spec_fn(TermV, TermV) -> bool {
    |a: TermV, b: TermV| term_le(a, b)
}

/// The term of magnitude 1 for `alpha`, with a leaf coefficient named `name`.
pub open spec fn unit_term(name: Seq<char>, alpha: Alpha) -> TermV {
    TermV { magnitude: (1, 1), alpha, xi: leaf(name) }
}

/// A magnitude written out: nothing for 1, `n` for a whole number, `n/d` otherwise.
pub open spec fn mag_string(m: (nat, nat)) -> Seq<char> {
    if m == (1nat, 1nat) {
        seq![]
    } else if m.1 == 1 {
        crate::xi::decimal(m.0)
    } else {
        crate::xi::decimal(m.0) + "/"@ + crate::xi::decimal(m.1)
    }
}

/// The views of a list of terms.
pub open spec fn terms_view(s: Seq<Term>) -> Seq<TermV> {
    s.map_values(|t: Term| t@)
}

/// The term of magnitude 1 for `alpha`, named after its form.
pub open spec fn alpha_term(alpha: Alpha) -> TermV {
    unit_term(form_name(alpha.form), alpha)
}

impl Term {
    /// A term of magnitude 1 for `alpha`, with a leaf coefficient named
    /// `val`, or after the form of `alpha` where no name is given.
    pub fn new(val: Option<&str>, alpha: Alpha) -> (r: Term)
        ensures
            r@ == unit_term(
                match val {
                    Some(v) => v@,
                    None => form_name(alpha.form),
                },
                alpha,
            ),
            term_wf(r@),
    {
        let xi = match val {
            Some(v) => Xi::new(v),
            None => {
                let name = form_name_string(&alpha.form);
                Xi::new(name.as_str())
            },
        };
        Term { magnitude: Magnitude::from_usize(1), alpha, xi }
    }

    /// A term of magnitude 1 for `alpha` whose coefficient is the product of
    /// the named symbols.
    pub fn from_xis_and_alpha(xis: Vec<&str>, alpha: Alpha) -> (r: Term)
        ensures
            r@.magnitude == (1nat, 1nat),
            r@.alpha == alpha,
            r@.xi == xi_merge(Seq::new(xis@.len(), |k: int| leaf(xis@[k]@))),
    {
        let mut leaves: Vec<Xi> = Vec::new();
        let mut k: usize = 0;
        while k < xis.len()
            invariant
                k <= xis@.len(),
                leaves@.len() == k,
                forall|m: int| 0 <= m < k ==> #[trigger] leaves@[m]@ == leaf(xis@[m]@),
            decreases xis@.len() - k,
        {
            leaves.push(Xi::new(xis[k]));
            k = k + 1;
        }
        proof {
            crate::xi::lemma_xis_view_eq(
                leaves@,
                Seq::new(xis@.len(), |k: int| leaf(xis@[k]@)),
            );
        }
        Term { magnitude: Magnitude::from_usize(1), alpha, xi: Xi::merge(leaves.as_slice()) }
    }

    /// Whether this term is well formed: a reduced magnitude and a
    /// coefficient that can be written.
    pub fn is_well_formed(&self) -> (r: bool)
        ensures
            r == term_wf(self@),
    {
        self.magnitude.is_well_formed() && self.xi.is_renderable()
    }

    /// Whether summing with `other` fits in machine words.
    pub fn sum_fits_with(&self, other: &Term) -> (r: bool)
        ensures
            r == sum_fits(self@, other@),
    {
        let (n1, d1) = (self.magnitude.numerator, self.magnitude.denominator);
        let (n2, d2) = (other.magnitude.numerator, other.magnitude.denominator);
        proof {
            crate::magnitude::lemma_wide_product(n1, d2);
            crate::magnitude::lemma_wide_product(n2, d1);
            crate::magnitude::lemma_wide_product(d1, d2);
        }
        let a = (n1 as u128) * (d2 as u128);
        let b = (n2 as u128) * (d1 as u128);
        let c = (d1 as u128) * (d2 as u128);
        let max = usize::MAX as u128;
        if a > max || b > max || c > max {
            return false;
        }
        match (self.alpha.sign, other.alpha.sign) {
            (Sign::Pos, Sign::Pos) | (Sign::Neg, Sign::Neg) => a + b <= max,
            _ => true,
        }
    }

    /// Whether multiplying by `other` fits in machine words.
    pub fn product_fits_with(&self, other: &Term) -> (r: bool)
        ensures
            r == product_fits(self@, other@),
    {
        let (n1, d1) = (self.magnitude.numerator, self.magnitude.denominator);
        let (n2, d2) = (other.magnitude.numerator, other.magnitude.denominator);
        proof {
            crate::magnitude::lemma_wide_product(n1, n2);
            crate::magnitude::lemma_wide_product(d1, d2);
        }
        let a = (n1 as u128) * (n2 as u128);
        let c = (d1 as u128) * (d2 as u128);
        a <= usize::MAX as u128 && c <= usize::MAX as u128
    }

    /// A copy of this term.
    pub fn copy(&self) -> (r: Term)
        ensures
            r@ == self@,
    {
        Term { magnitude: self.magnitude, alpha: self.alpha, xi: self.xi.copy() }
    }

    pub fn form(&self) -> (r: Form)
        ensures
            r == self.alpha.form,
    {
        self.alpha.form
    }

    pub fn grade(&self) -> (r: Grade)
        ensures
            r == form_grade(self.alpha.form),
    {
        self.alpha.grade()
    }

    pub fn sign(&self) -> (r: Sign)
        ensures
            r == self.alpha.sign,
    {
        self.alpha.sign
    }

    pub fn alpha(&self) -> (r: Alpha)
        ensures
            r == self.alpha,
    {
        self.alpha
    }

    pub fn magnitude(&self) -> (r: Magnitude)
        ensures
            r == self.magnitude,
    {
        self.magnitude
    }

    /// The magnitude written out, or nothing where it is 1.
    pub fn mag_str(&self) -> (r: String)
        ensures
            r@ == mag_string(self.magnitude@),
    {
        if self.magnitude.eq_usize(1) {
            String::new()
        } else {
            let n = crate::xi::decimal_string(self.magnitude.numerator);
            if self.magnitude.denominator == 1 {
                n
            } else {
                let d = crate::xi::decimal_string(self.magnitude.denominator);
                n.concat("/").concat(d.as_str())
            }
        }
    }

    /// Replace the signed basis element.
    pub fn set_alpha(&mut self, a: Alpha)
        ensures
            final(self)@ == (TermV { alpha: a, ..old(self)@ }),
    {
        self.alpha = a;
    }

    /// Add the derivative with respect to the form of `wrt` to the coefficient.
    pub fn add_partial(&mut self, wrt: &Alpha)
        ensures
            final(self)@ == (TermV {
                xi: XiV {
                    partials: crate::order::sort_by(
                        old(self)@.xi.partials.push(wrt.form),
                        crate::xi::form_order(),
                    ),
                    ..old(self)@.xi
                },
                ..old(self)@
            }),
    {
        self.xi.add_partial(&wrt.form)
    }

    /// Replace the partial derivatives of the coefficient.
    pub fn set_partials(&mut self, partials: Vec<Form>)
        ensures
            final(self)@ == (TermV {
                xi: XiV {
                    partials: crate::order::sort_by(partials@, crate::xi::form_order()),
                    ..old(self)@.xi
                },
                ..old(self)@
            }),
    {
        self.xi.set_partials(partials)
    }

    /// The written form of the coefficient.
    pub fn xi_str(&self) -> (r: String)
        requires
            renderable(self.xi@),
        ensures
            r@ == xi_render(self.xi@),
    {
        self.xi.dotted_string()
    }

    /// What two terms must share to be summed: the form and the written coefficient.
    pub fn summation_key(&self) -> (r: (Form, String))
        requires
            renderable(self.xi@),
        ensures
            (r.0, r.1@) == summation_key(self@),
    {
        (self.form(), self.xi_str())
    }

    /// The same term with the opposite sign.
    pub fn neg(&self) -> (r: Term)
        ensures
            r@ == term_neg(self@),
    {
        Term { magnitude: self.magnitude, alpha: self.alpha.neg(), xi: self.xi.copy() }
    }

    /// Whether two terms share a summation key.
    pub fn same_key(&self, other: &Term) -> (r: bool)
        requires
            renderable(self.xi@),
            renderable(other.xi@),
        ensures
            r == (summation_key(self@) == summation_key(other@)),
    {
        let a = self.xi_str();
        let b = other.xi_str();
        self.alpha.form == other.alpha.form && crate::xi::same_chars(a.as_str(), b.as_str())
    }

    /// The sum of two terms that share a summation key.
    pub fn add_same_key(&self, other: &Term) -> (r: Term)
        requires
            term_wf(self@),
            term_wf(other@),
            sum_fits(self@, other@),
        ensures
            r@ == term_sum(self@, other@),
            term_wf(r@),
    {
        match (self.sign(), other.sign()) {
            (Sign::Pos, Sign::Pos) | (Sign::Neg, Sign::Neg) => {
                let mut t = self.copy();
                t.magnitude = t.magnitude.add(other.magnitude);
                t
            },
            (Sign::Pos, Sign::Neg) => sub_terms(self, other),
            (Sign::Neg, Sign::Pos) => sub_terms(other, self),
        }
    }

    /// The sum of two terms where they share a summation key; none otherwise.
    pub fn try_add(&self, other: &Term) -> (r: Option<Term>)
        requires
            term_wf(self@),
            term_wf(other@),
            sum_fits(self@, other@),
        ensures
            summation_key(self@) == summation_key(other@) ==> (r matches Some(t) && t@ == term_sum(
                self@,
                other@,
            )),
            summation_key(self@) != summation_key(other@) ==> r is None,
    {
        if self.same_key(other) {
            Some(self.add_same_key(other))
        } else {
            None
        }
    }

    /// The product of two terms under the full product of the algebra.
    pub fn form_product_with(&self, other: &Term) -> (r: Term)
        requires
            mag_wf(self@.magnitude),
            mag_wf(other@.magnitude),
            product_fits(self@, other@),
        ensures
            r@ == term_product(self@, other@),
    {
        let xis = vec![self.xi.copy(), other.xi.copy()];
        proof {
            lemma_xis_view(xis@);
            assert(xis_view(xis@) =~= seq![self.xi@, other.xi@]);
        }
        Term {
            magnitude: self.magnitude.mul(other.magnitude),
            alpha: crate::product::ar_product(&self.alpha, &other.alpha),
            xi: Xi::merge(xis.as_slice()),
        }
    }

    /// The inverse of this term through the point.
    pub fn inverse(&self) -> (r: Term)
        requires
            mag_wf(self@.magnitude),
            self.magnitude.numerator > 0,
        ensures
            r@ == term_inverse(self@),
    {
        Term {
            magnitude: Magnitude::new(self.magnitude.denominator, self.magnitude.numerator),
            alpha: self.alpha.inverse(),
            xi: self.xi.inverse(),
        }
    }

    /// Compare two terms in canonical order.
    pub fn compare(&self, other: &Term) -> (r: Ordering)
        ensures
            r == term_cmp(self@, other@),
    {
        let c1 = self.alpha.form.compare(&other.alpha.form);
        match c1 {
            Ordering::Equal => {},
            _ => {
                return c1;
            },
        }
        let c2 = self.xi.compare(&other.xi);
        match c2 {
            Ordering::Equal => {},
            _ => {
                return c2;
            },
        }
        let s1: u8 = match self.alpha.sign {
            Sign::Pos => 0,
            Sign::Neg => 1,
        };
        let s2: u8 = match other.alpha.sign {
            Sign::Pos => 0,
            Sign::Neg => 1,
        };
        if s1 < s2 {
            return Ordering::Less;
        }
        if s1 > s2 {
            return Ordering::Greater;
        }
        self.magnitude.compare(&other.magnitude)
    }
}

/// `a` minus `b`, `a` positive and `b` negative.
fn sub_terms(a: &Term, b: &Term) -> (r: Term)
    requires
        term_wf(a@),
        term_wf(b@),
        fits_cross(a@.magnitude, b@.magnitude),
        fits_cross(b@.magnitude, a@.magnitude),
    ensures
        r@ == sub_mag(a@, b@),
        term_wf(r@),
{
    let mut t = a.copy();
    match t.magnitude.compare(&b.magnitude) {
        Ordering::Greater => {
            t.magnitude = t.magnitude.sub(b.magnitude);
        },
        _ => {
            t.magnitude = b.magnitude.sub(t.magnitude);
            t.alpha = t.alpha.neg();
        },
    }
    t
}

} // verus!

verus! {

/// Summing two well-formed terms gives a well-formed term.
pub proof fn lemma_term_sum_wf(a: TermV, b: TermV)
    requires
        term_wf(a),
        term_wf(b),
    ensures
        term_wf(term_sum(a, b)),
{
    let (ma, mb) = (a.magnitude, b.magnitude);
    assert(ma.1 * mb.1 > 0) by (nonlinear_arith)
        requires
            ma.1 > 0,
            mb.1 > 0,
    ;
    crate::magnitude::lemma_reduce_wf(sum_parts(ma, mb).0, sum_parts(ma, mb).1);
    crate::magnitude::lemma_reduce_wf(diff_parts(ma, mb).0, diff_parts(ma, mb).1);
    crate::magnitude::lemma_reduce_wf(diff_parts(mb, ma).0, diff_parts(mb, ma).1);
}

} // verus!
