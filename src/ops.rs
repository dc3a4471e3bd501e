//! The capability set shared by basis elements, terms and multivectors.
use vstd::prelude::*;
use crate::basis::{Alpha, Form, Grade, Orientation, Sign, Zet, alpha_product, form_grade};
use crate::magnitude::{Magnitude, mag_wf};
use crate::multivector::{MultiVector, can_simplify, simplify_spec};
use crate::order::sort_by;
use crate::term::{
    Term, TermV, alpha_term, product_fits, term_inverse, term_neg, term_order, term_product,
    terms_view,
};

verus! {

/// Something that can be taken apart into terms.
pub trait ArInput {
    /// The terms that this value stands for.
    spec fn ar_terms(&self) -> Seq<TermV>;

    /// Decompose this value into its terms.
    fn as_terms(&self) -> (r: Vec<Term>)
        ensures
            terms_view(r@) == self.ar_terms(),
    ;

    /// The signed basis elements of the terms.
    fn as_alphas(&self) -> (r: Vec<Alpha>)
        ensures
            r@ == self.ar_terms().map_values(|t: TermV| t.alpha),
    {
        let terms = self.as_terms();
        let mut out: Vec<Alpha> = Vec::new();
        let mut k: usize = 0;
        while k < terms.len()
            invariant
                k <= terms@.len(),
                out@.len() == k,
                forall|m: int| 0 <= m < k ==> #[trigger] out@[m] == terms@[m]@.alpha,
            decreases terms@.len() - k,
        {
            out.push(terms[k].alpha);
            k = k + 1;
        }
        proof {
            assert(out@ =~= terms_view(terms@).map_values(|t: TermV| t.alpha));
        }
        out
    }

    /// Whether every term lies on the point (grade 0).
    fn is_scalar(&self) -> (r: bool)
        ensures
            r == (forall|k: int|
                0 <= k < self.ar_terms().len() ==> form_grade(#[trigger] self.ar_terms()[k].alpha.form)
                    == Grade::Zero),
    {
        let terms = self.as_terms();
        let mut k: usize = 0;
        while k < terms.len()
            invariant
                k <= terms@.len(),
                terms_view(terms@) == self.ar_terms(),
                forall|m: int| 0 <= m < k ==> form_grade(#[trigger] terms@[m]@.alpha.form) == Grade::Zero,
            decreases terms@.len() - k,
        {
            if terms[k].grade() != Grade::Zero {
                assert(self.ar_terms()[k as int] == terms@[k as int]@);
                assert(form_grade(self.ar_terms()[k as int].alpha.form) != Grade::Zero);
                return false;
            }
            k = k + 1;
        }
        proof {
            assert forall|m: int| 0 <= m < self.ar_terms().len() implies form_grade(
                #[trigger] self.ar_terms()[m].alpha.form,
            ) == Grade::Zero by {
                assert(self.ar_terms()[m] == terms@[m]@);
            }
        }
        true
    }

    /// The norm of a single term: its magnitude. For more than one term the
    /// norm needs roots of magnitudes, which are not supported.
    fn norm(&self) -> (r: Magnitude)
        requires
            self.ar_terms().len() == 1,
        ensures
            r@ == self.ar_terms()[0].magnitude,
    {
        let terms = self.as_terms();
        assert(terms@[0]@ == self.ar_terms()[0]);
        terms[0].magnitude
    }
}

/// Something that can be built from terms.
pub trait ArOutput: Sized {
    /// Which lists of terms a value of this type can be built from.
    spec fn accepts(s: Seq<TermV>) -> bool;

    /// `r` is the value built from the terms `s`.
    spec fn built_from(s: Seq<TermV>, r: Self) -> bool;

    /// Build a value from its terms.
    fn from_terms(terms: Vec<Term>) -> (r: Self)
        requires
            Self::accepts(terms_view(terms@)),
        ensures
            Self::built_from(terms_view(terms@), r),
    ;
}

/// A rule for negating some of the terms of a value.
pub enum Conjugation {
    /// Negate every term.
    Negate,
    /// Negate the terms whose basis element squares to a negative value.
    Hermitian,
    /// Negate the terms of grade 2 or 3.
    Reverse,
    /// Negate the terms of zet A or E.
    Star,
    /// Negate the terms whose form is not the given one.
    Form(Form),
    /// Negate the terms whose form is not among the given ones.
    Forms(Vec<Form>),
    /// Negate the terms whose grade is not the given one.
    Grade(Grade),
    /// Negate the terms whose grade is not among the given ones.
    Grades(Vec<Grade>),
}

/// Whether the rule negates the term `t`.
pub open spec fn flips(c: Conjugation, t: TermV) -> bool {
    match c {
        Conjugation::Negate => true,
        Conjugation::Hermitian => alpha_product(t.alpha, t.alpha).sign == Sign::Neg,
        Conjugation::Reverse => form_grade(t.alpha.form) == Grade::Two || form_grade(t.alpha.form)
            == Grade::Three,
        Conjugation::Star => t.alpha.form.zet == Zet::A || t.alpha.form.zet == Zet::E,
        Conjugation::Form(f) => t.alpha.form != f,
        Conjugation::Forms(fs) => !fs@.contains(t.alpha.form),
        Conjugation::Grade(g) => form_grade(t.alpha.form) != g,
        Conjugation::Grades(gs) => !gs@.contains(form_grade(t.alpha.form)),
    }
}

/// The terms with the rule applied: the terms it names are negated, the
/// others kept, in the same order.
pub open spec fn conjugate_spec(c: Conjugation, s: Seq<TermV>) -> Seq<TermV> {
    s.map_values(
        |t: TermV|
            if flips(c, t) {
                term_neg(t)
            } else {
                t
            },
    )
}

/// The terms whose grade matches that of `f`, in the same order.
pub open spec fn project_spec(s: Seq<TermV>, f: Form) -> Seq<TermV>
    decreases s.len(),
{
    if s.len() == 0 {
        seq![]
    } else {
        let rest = project_spec(s.drop_last(), f);
        if form_grade(s.last().alpha.form) == form_grade(f) {
            rest.push(s.last())
        } else {
            rest
        }
    }
}

/// Every term inverted through the point.
pub open spec fn inverse_spec(s: Seq<TermV>) -> Seq<TermV> {
    s.map_values(|t: TermV| term_inverse(t))
}

/// The positive quadrivector term, named after its form.
pub open spec fn quadrivector() -> TermV {
    alpha_term(
        Alpha { sign: Sign::Pos, form: Form { zet: Zet::E, orientation: Orientation::e } },
    )
}

/// Every term multiplied on the left by the quadrivector.
pub open spec fn dual_spec(s: Seq<TermV>) -> Seq<TermV> {
    s.map_values(|t: TermV| term_product(quadrivector(), t))
}

/// Every pair of a term of `a` and a term of `b`, multiplied; the terms of
/// `a` vary slowest.
pub open spec fn full_spec(a: Seq<TermV>, b: Seq<TermV>) -> Seq<TermV> {
    Seq::new(a.len() * b.len(), |k: int| term_product(a[k / b.len() as int], b[k % b.len() as int]))
}

/// Every term has a well-formed magnitude.
pub open spec fn mags_wf(s: Seq<TermV>) -> bool {
    forall|k: int| 0 <= k < s.len() ==> mag_wf(#[trigger] s[k].magnitude)
}

/// Every term has a well-formed, non-zero magnitude.
pub open spec fn mags_invertible(s: Seq<TermV>) -> bool {
    forall|k: int|
        0 <= k < s.len() ==> mag_wf(#[trigger] s[k].magnitude) && s[k].magnitude.0 > 0
}

/// Every product of a term of `a` with a term of `b` fits in machine words.
pub open spec fn full_fits(a: Seq<TermV>, b: Seq<TermV>) -> bool {
    &&& mags_wf(a)
    &&& mags_wf(b)
    &&& a.len() * b.len() <= usize::MAX
    &&& forall|i: int, j: int|
        0 <= i < a.len() && 0 <= j < b.len() ==> #[trigger] product_fits(a[i], b[j])
}

impl Conjugation {
    /// Whether the rule negates the term `t`.
    pub fn flips(&self, t: &Term) -> (r: bool)
        ensures
            r == flips(*self, t@),
    {
        match self {
            Conjugation::Negate => true,
            Conjugation::Hermitian => {
                let sq = crate::product::ar_product(&t.alpha, &t.alpha);
                match sq.sign {
                    Sign::Neg => true,
                    Sign::Pos => false,
                }
            },
            Conjugation::Reverse => {
                let g = t.grade();
                g == Grade::Two || g == Grade::Three
            },
            Conjugation::Star => t.alpha.form.zet == Zet::A || t.alpha.form.zet == Zet::E,
            Conjugation::Form(f) => t.alpha.form != *f,
            Conjugation::Forms(fs) => !contains_form(fs, &t.alpha.form),
            Conjugation::Grade(g) => t.grade() != *g,
            Conjugation::Grades(gs) => !contains_grade(gs, &t.grade()),
        }
    }
}

fn contains_form(v: &Vec<Form>, f: &Form) -> (r: bool)
    ensures
        r == v@.contains(*f),
{
    let mut k: usize = 0;
    while k < v.len()
        invariant
            k <= v@.len(),
            forall|m: int| 0 <= m < k ==> v@[m] != *f,
        decreases v@.len() - k,
    {
        if v[k] == *f {
            return true;
        }
        k = k + 1;
    }
    false
}

fn contains_grade(v: &Vec<Grade>, g: &Grade) -> (r: bool)
    ensures
        r == v@.contains(*g),
{
    let mut k: usize = 0;
    while k < v.len()
        invariant
            k <= v@.len(),
            forall|m: int| 0 <= m < k ==> v@[m] != *g,
        decreases v@.len() - k,
    {
        if v[k] == *g {
            return true;
        }
        k = k + 1;
    }
    false
}

/// Apply a conjugation rule to a list of terms.
pub fn conjugate_terms(c: &Conjugation, terms: &Vec<Term>) -> (r: Vec<Term>)
    ensures
        terms_view(r@) == conjugate_spec(*c, terms_view(terms@)),
{
    let mut out: Vec<Term> = Vec::new();
    let mut k: usize = 0;
    while k < terms.len()
        invariant
            k <= terms@.len(),
            out@.len() == k,
            forall|m: int|
                0 <= m < k ==> #[trigger] out@[m]@ == conjugate_spec(*c, terms_view(terms@))[m],
        decreases terms@.len() - k,
    {
        let t = &terms[k];
        let u = if c.flips(t) {
            t.neg()
        } else {
            t.copy()
        };
        out.push(u);
        k = k + 1;
    }
    proof {
        assert(terms_view(out@) =~= conjugate_spec(*c, terms_view(terms@)));
    }
    out
}

/// Keep the terms whose grade matches that of `f`.
pub fn project_terms(terms: &Vec<Term>, f: &Form) -> (r: Vec<Term>)
    ensures
        terms_view(r@) == project_spec(terms_view(terms@), *f),
{
    let ghost s = terms_view(terms@);
    let g = f.grade();
    let mut out: Vec<Term> = Vec::new();
    let mut k: usize = 0;
    proof {
        assert(terms_view(out@) =~= seq![]);
        assert(s.subrange(0, 0) =~= seq![]);
    }
    while k < terms.len()
        invariant
            k <= terms@.len(),
            s == terms_view(terms@),
            g == form_grade(*f),
            terms_view(out@) == project_spec(s.subrange(0, k as int), *f),
        decreases terms@.len() - k,
    {
        proof {
            assert(s.subrange(0, k + 1).drop_last() =~= s.subrange(0, k as int));
            assert(s.subrange(0, k + 1).last() == terms@[k as int]@);
        }
        if terms[k].grade() == g {
            let ghost before = out@;
            out.push(terms[k].copy());
            proof {
                assert(terms_view(out@) =~= terms_view(before).push(terms@[k as int]@));
            }
        }
        k = k + 1;
    }
    proof {
        assert(s.subrange(0, terms@.len() as int) =~= s);
    }
    out
}

/// Invert every term through the point.
pub fn inverse_terms(terms: &Vec<Term>) -> (r: Vec<Term>)
    requires
        mags_invertible(terms_view(terms@)),
    ensures
        terms_view(r@) == inverse_spec(terms_view(terms@)),
{
    let mut out: Vec<Term> = Vec::new();
    let mut k: usize = 0;
    while k < terms.len()
        invariant
            k <= terms@.len(),
            mags_invertible(terms_view(terms@)),
            out@.len() == k,
            forall|m: int| 0 <= m < k ==> #[trigger] out@[m]@ == term_inverse(terms@[m]@),
        decreases terms@.len() - k,
    {
        assert(terms_view(terms@)[k as int] == terms@[k as int]@);
        out.push(terms[k].inverse());
        k = k + 1;
    }
    proof {
        assert(terms_view(out@) =~= inverse_spec(terms_view(terms@)));
    }
    out
}

/// Multiply every term on the left by the quadrivector.
pub fn dual_terms(terms: &Vec<Term>) -> (r: Vec<Term>)
    requires
        mags_wf(terms_view(terms@)),
    ensures
        terms_view(r@) == dual_spec(terms_view(terms@)),
{
    let q = Term::new(None, Alpha::new(Sign::Pos, Form::new(Zet::E, Orientation::e)));
    let mut out: Vec<Term> = Vec::new();
    let mut k: usize = 0;
    while k < terms.len()
        invariant
            k <= terms@.len(),
            q@ == quadrivector(),
            crate::term::term_wf(q@),
            mags_wf(terms_view(terms@)),
            out@.len() == k,
            forall|m: int| 0 <= m < k ==> #[trigger] out@[m]@ == term_product(q@, terms@[m]@),
        decreases terms@.len() - k,
    {
        let t = &terms[k];
        assert(terms_view(terms@)[k as int] == t@);
        assert(mag_wf(terms_view(terms@)[k as int].magnitude));
        proof {
            let (a, b) = (q@.magnitude, t@.magnitude);
            assert(a == (1nat, 1nat));
            assert(a.0 * b.0 == b.0 && a.1 * b.1 == b.1);
        }
        out.push(q.form_product_with(t));
        k = k + 1;
    }
    proof {
        assert(terms_view(out@) =~= dual_spec(terms_view(terms@)));
    }
    out
}

proof fn lemma_div_mod_bounds(k: int, n: int, m: int)
    requires
        0 <= k < n * m,
        0 < m,
    ensures
        0 <= k / m < n,
        0 <= k % m < m,
{
    assert(0 <= k / m < n) by (nonlinear_arith)
        requires
            0 <= k < n * m,
            0 < m,
    ;
    assert(0 <= k % m < m) by (nonlinear_arith)
        requires
            0 < m,
    ;
}

/// Multiply every term of `left` by every term of `right`.
pub fn full_terms(left: &Vec<Term>, right: &Vec<Term>) -> (r: Vec<Term>)
    requires
        full_fits(terms_view(left@), terms_view(right@)),
    ensures
        terms_view(r@) == full_spec(terms_view(left@), terms_view(right@)),
{
    let ghost a = terms_view(left@);
    let ghost b = terms_view(right@);
    let n = left.len();
    let m = right.len();
    let pairs = crate::iters::index_pairs(n, m);
    let mut out: Vec<Term> = Vec::new();
    let mut k: usize = 0;
    while k < pairs.len()
        invariant
            n == left@.len(),
            m == right@.len(),
            a == terms_view(left@),
            b == terms_view(right@),
            full_fits(a, b),
            pairs@.len() == n * m,
            forall|j: int|
                0 <= j < n * m ==> #[trigger] pairs@[j] == ((j / m as int) as usize, (j
                    % m as int) as usize),
            k <= n * m,
            out@.len() == k,
            forall|j: int| 0 <= j < k ==> #[trigger] out@[j]@ == full_spec(a, b)[j],
        decreases n * m - k,
    {
        proof {
            lemma_div_mod_bounds(k as int, n as int, m as int);
        }
        let (i, j) = pairs[k];
        proof {
            assert(a[i as int] == left@[i as int]@);
            assert(b[j as int] == right@[j as int]@);
            assert(product_fits(a[i as int], b[j as int]));
        }
        out.push(left[i].form_product_with(&right[j]));
        k = k + 1;
    }
    proof {
        assert(terms_view(out@) =~= full_spec(a, b));
    }
    out
}

/// The full product of two values: every term of `left` times every term of
/// `right`, collected into the output type without simplification.
pub fn full<L: ArInput, R: ArInput, T: ArOutput>(left: &L, right: &R) -> (r: T)
    requires
        full_fits(left.ar_terms(), right.ar_terms()),
        T::accepts(full_spec(left.ar_terms(), right.ar_terms())),
    ensures
        T::built_from(full_spec(left.ar_terms(), right.ar_terms()), r),
{
    let l = left.as_terms();
    let rt = right.as_terms();
    T::from_terms(full_terms(&l, &rt))
}

/// The full product of two values as a multivector, where it can be
/// computed: `None` where a magnitude is not well formed or a product would
/// not fit in machine words.
pub fn try_full<L: ArInput, R: ArInput>(left: &L, right: &R) -> (r: Option<MultiVector>)
    ensures
        r matches Some(m) ==> m@ == sort_by(
            full_spec(left.ar_terms(), right.ar_terms()),
            term_order(),
        ),
        full_fits(left.ar_terms(), right.ar_terms()) ==> r is Some,
{
    let l = left.as_terms();
    let rt = right.as_terms();
    let ghost (a, b) = (terms_view(l@), terms_view(rt@));
    let n = l.len();
    let m = rt.len();
    proof {
        crate::magnitude::lemma_wide_product(n, m);
    }
    if (n as u128) * (m as u128) > usize::MAX as u128 {
        assert(a.len() * b.len() > usize::MAX);
        return None;
    }
    let mut i: usize = 0;
    while i < n
        invariant
            n == l@.len(),
            a == terms_view(l@),
            a == left.ar_terms(),
            i <= n,
            forall|j: int| 0 <= j < i ==> mag_wf(#[trigger] a[j].magnitude),
        decreases n - i,
    {
        assert(a[i as int] == l@[i as int]@);
        if !l[i].magnitude.is_well_formed() {
            assert(!mag_wf(a[i as int].magnitude));
            return None;
        }
        i = i + 1;
    }
    let mut j: usize = 0;
    while j < m
        invariant
            m == rt@.len(),
            b == terms_view(rt@),
            b == right.ar_terms(),
            j <= m,
            forall|k: int| 0 <= k < j ==> mag_wf(#[trigger] b[k].magnitude),
        decreases m - j,
    {
        assert(b[j as int] == rt@[j as int]@);
        if !rt[j].magnitude.is_well_formed() {
            assert(!mag_wf(b[j as int].magnitude));
            return None;
        }
        j = j + 1;
    }
    let mut i: usize = 0;
    while i < n
        invariant
            n == l@.len(),
            m == rt@.len(),
            a == terms_view(l@),
            a == left.ar_terms(),
            b == terms_view(rt@),
            b == right.ar_terms(),
            i <= n,
            forall|x: int, y: int| 0 <= x < i && 0 <= y < m ==> #[trigger] product_fits(a[x], b[y]),
        decreases n - i,
    {
        let mut j: usize = 0;
        while j < m
            invariant
                n == l@.len(),
                m == rt@.len(),
                a == terms_view(l@),
                a == left.ar_terms(),
                b == terms_view(rt@),
                b == right.ar_terms(),
                i < n,
                j <= m,
                forall|x: int, y: int|
                    0 <= x < i && 0 <= y < m ==> #[trigger] product_fits(a[x], b[y]),
                forall|y: int| 0 <= y < j ==> #[trigger] product_fits(a[i as int], b[y]),
            decreases m - j,
        {
            assert(a[i as int] == l@[i as int]@ && b[j as int] == rt@[j as int]@);
            if !l[i].product_fits_with(&rt[j]) {
                assert(!product_fits(a[i as int], b[j as int]));
                return None;
            }
            j = j + 1;
        }
        i = i + 1;
    }
    Some(MultiVector::from_terms(full_terms(&l, &rt)))
}

/// The full product of two values, simplified.
pub fn simplified_product<L: ArInput, R: ArInput>(left: &L, right: &R) -> (r: MultiVector)
    requires
        full_fits(left.ar_terms(), right.ar_terms()),
        can_simplify(sort_by(full_spec(left.ar_terms(), right.ar_terms()), term_order())),
    ensures
        r@ == simplify_spec(sort_by(full_spec(left.ar_terms(), right.ar_terms()), term_order())),
{
    let m: MultiVector = full(left, right);
    m.simplified()
}

/// The algebraic operations, for every type that can be taken apart into
/// terms and built back from them.
pub trait AR: ArInput + ArOutput {
    /// Apply a conjugation rule.
    fn conjugate(&self, c: &Conjugation) -> (r: Self)
        requires
            Self::accepts(conjugate_spec(*c, self.ar_terms())),
        ensures
            Self::built_from(conjugate_spec(*c, self.ar_terms()), r),
    {
        let terms = self.as_terms();
        Self::from_terms(conjugate_terms(c, &terms))
    }

    /// The inverse of each term through the point. This is not the inverse
    /// of a sum of terms.
    fn inverse(&self) -> (r: Self)
        requires
            mags_invertible(self.ar_terms()),
            Self::accepts(inverse_spec(self.ar_terms())),
        ensures
            Self::built_from(inverse_spec(self.ar_terms()), r),
    {
        let terms = self.as_terms();
        Self::from_terms(inverse_terms(&terms))
    }

    /// Every term negated.
    fn negate(&self) -> (r: Self)
        requires
            Self::accepts(conjugate_spec(Conjugation::Negate, self.ar_terms())),
        ensures
            Self::built_from(conjugate_spec(Conjugation::Negate, self.ar_terms()), r),
    {
        self.conjugate(&Conjugation::Negate)
    }

    /// Reversal of the order of basis elements: negates the terms of grade 2 and 3.
    fn reversed(&self) -> (r: Self)
        requires
            Self::accepts(conjugate_spec(Conjugation::Reverse, self.ar_terms())),
        ensures
            Self::built_from(conjugate_spec(Conjugation::Reverse, self.ar_terms()), r),
    {
        self.conjugate(&Conjugation::Reverse)
    }

    /// The star conjugate: negates the terms of zet A and E.
    fn star(&self) -> (r: Self)
        requires
            Self::accepts(conjugate_spec(Conjugation::Star, self.ar_terms())),
        ensures
            Self::built_from(conjugate_spec(Conjugation::Star, self.ar_terms()), r),
    {
        self.conjugate(&Conjugation::Star)
    }

    /// Keep only the terms whose grade is that of `grade`.
    fn project(&self, grade: &Form) -> (r: Self)
        requires
            Self::accepts(project_spec(self.ar_terms(), *grade)),
        ensures
            Self::built_from(project_spec(self.ar_terms(), *grade), r),
    {
        let terms = self.as_terms();
        Self::from_terms(project_terms(&terms, grade))
    }

    /// The Hermitian conjugate: negates the terms whose basis element squares
    /// to a negative value.
    fn hermitian(&self) -> (r: Self)
        requires
            Self::accepts(conjugate_spec(Conjugation::Hermitian, self.ar_terms())),
        ensures
            Self::built_from(conjugate_spec(Conjugation::Hermitian, self.ar_terms()), r),
    {
        self.conjugate(&Conjugation::Hermitian)
    }

    /// Another name for the Hermitian conjugate.
    fn dagger(&self) -> (r: Self)
        requires
            Self::accepts(conjugate_spec(Conjugation::Hermitian, self.ar_terms())),
        ensures
            Self::built_from(conjugate_spec(Conjugation::Hermitian, self.ar_terms()), r),
    {
        self.hermitian()
    }

    /// Negate the terms whose form is not `f`.
    fn conjugate_form(&self, f: &Form) -> (r: Self)
        requires
            Self::accepts(conjugate_spec(Conjugation::Form(*f), self.ar_terms())),
        ensures
            Self::built_from(conjugate_spec(Conjugation::Form(*f), self.ar_terms()), r),
    {
        self.conjugate(&Conjugation::Form(*f))
    }

    /// Negate the terms whose form is not among `fs`.
    fn conjugate_forms(&self, fs: Vec<Form>) -> (r: Self)
        requires
            Self::accepts(conjugate_spec(Conjugation::Forms(fs), self.ar_terms())),
        ensures
            Self::built_from(conjugate_spec(Conjugation::Forms(fs), self.ar_terms()), r),
    {
        self.conjugate(&Conjugation::Forms(fs))
    }

    /// Negate the terms whose grade is not `g`.
    fn conjugate_grade(&self, g: Grade) -> (r: Self)
        requires
            Self::accepts(conjugate_spec(Conjugation::Grade(g), self.ar_terms())),
        ensures
            Self::built_from(conjugate_spec(Conjugation::Grade(g), self.ar_terms()), r),
    {
        self.conjugate(&Conjugation::Grade(g))
    }

    /// Negate the terms whose grade is not among `grades`.
    fn conjugate_grades(&self, grades: Vec<Grade>) -> (r: Self)
        requires
            Self::accepts(conjugate_spec(Conjugation::Grades(grades), self.ar_terms())),
        ensures
            Self::built_from(conjugate_spec(Conjugation::Grades(grades), self.ar_terms()), r),
    {
        self.conjugate(&Conjugation::Grades(grades))
    }

    /// The diamond conjugate: negates everything but the point.
    fn diamond(&self) -> (r: Self)
        requires
            Self::accepts(conjugate_spec(Conjugation::Grade(Grade::Zero), self.ar_terms())),
        ensures
            Self::built_from(conjugate_spec(Conjugation::Grade(Grade::Zero), self.ar_terms()), r),
    {
        self.conjugate_grade(Grade::Zero)
    }

    /// The double dagger conjugate: negates everything but the bivectors.
    fn double_dagger(&self) -> (r: Self)
        requires
            Self::accepts(conjugate_spec(Conjugation::Grade(Grade::Two), self.ar_terms())),
        ensures
            Self::built_from(conjugate_spec(Conjugation::Grade(Grade::Two), self.ar_terms()), r),
    {
        self.conjugate_grade(Grade::Two)
    }

    /// The dual: every term multiplied on the left by the quadrivector.
    fn dual(&self) -> (r: Self)
        requires
            mags_wf(self.ar_terms()),
            Self::accepts(dual_spec(self.ar_terms())),
        ensures
            Self::built_from(dual_spec(self.ar_terms()), r),
    {
        let terms = self.as_terms();
        Self::from_terms(dual_terms(&terms))
    }
}

impl ArInput for MultiVector {
    open spec fn ar_terms(&self) -> Seq<TermV> {
        self@
    }

    fn as_terms(&self) -> (r: Vec<Term>) {
        MultiVector::as_terms(self)
    }
}

impl ArOutput for MultiVector {
    open spec fn accepts(s: Seq<TermV>) -> bool {
        true
    }

    open spec fn built_from(s: Seq<TermV>, r: MultiVector) -> bool {
        r@ == sort_by(s, term_order())
    }

    fn from_terms(terms: Vec<Term>) -> (r: MultiVector) {
        MultiVector::from_terms(terms)
    }
}

impl AR for MultiVector {}

impl ArInput for Term {
    open spec fn ar_terms(&self) -> Seq<TermV> {
        seq![self@]
    }

    fn as_terms(&self) -> (r: Vec<Term>) {
        let r = vec![self.copy()];
        proof {
            assert(terms_view(r@) =~= seq![self@]);
        }
        r
    }
}

impl ArOutput for Term {
    /// A term is built from exactly one term.
    open spec fn accepts(s: Seq<TermV>) -> bool {
        s.len() == 1
    }

    open spec fn built_from(s: Seq<TermV>, r: Term) -> bool {
        r@ == s[0]
    }

    fn from_terms(terms: Vec<Term>) -> (r: Term) {
        let mut terms = terms;
        assert(terms_view(terms@)[0] == terms@[0]@);
        terms.remove(0)
    }
}

impl AR for Term {}

impl ArInput for Alpha {
    open spec fn ar_terms(&self) -> Seq<TermV> {
        seq![alpha_term(*self)]
    }

    fn as_terms(&self) -> (r: Vec<Term>) {
        let r = vec![Term::new(None, *self)];
        proof {
            assert(terms_view(r@) =~= seq![alpha_term(*self)]);
        }
        r
    }
}

impl ArOutput for Alpha {
    /// A basis element is built from exactly one term.
    open spec fn accepts(s: Seq<TermV>) -> bool {
        s.len() == 1
    }

    open spec fn built_from(s: Seq<TermV>, r: Alpha) -> bool {
        r == s[0].alpha
    }

    fn from_terms(terms: Vec<Term>) -> (r: Alpha) {
        assert(terms_view(terms@)[0] == terms@[0]@);
        terms[0].alpha
    }
}

impl AR for Alpha {}

impl ArInput for Vec<Term> {
    open spec fn ar_terms(&self) -> Seq<TermV> {
        terms_view(self@)
    }

    fn as_terms(&self) -> (r: Vec<Term>) {
        let mut out: Vec<Term> = Vec::new();
        let mut k: usize = 0;
        while k < self.len()
            invariant
                k <= self@.len(),
                out@.len() == k,
                forall|m: int| 0 <= m < k ==> #[trigger] out@[m]@ == self@[m]@,
            decreases self@.len() - k,
        {
            out.push(self[k].copy());
            k = k + 1;
        }
        proof {
            assert(terms_view(out@) =~= terms_view(self@));
        }
        out
    }
}

impl ArOutput for Vec<Term> {
    open spec fn accepts(s: Seq<TermV>) -> bool {
        true
    }

    open spec fn built_from(s: Seq<TermV>, r: Vec<Term>) -> bool {
        terms_view(r@) == s
    }

    fn from_terms(terms: Vec<Term>) -> (r: Vec<Term>) {
        terms
    }
}

impl AR for Vec<Term> {}

impl ArInput for Vec<Alpha> {
    open spec fn ar_terms(&self) -> Seq<TermV> {
        Seq::new(self@.len(), |k: int| alpha_term(self@[k]))
    }

    fn as_terms(&self) -> (r: Vec<Term>) {
        let mut out: Vec<Term> = Vec::new();
        let mut k: usize = 0;
        while k < self.len()
            invariant
                k <= self@.len(),
                out@.len() == k,
                forall|m: int| 0 <= m < k ==> #[trigger] out@[m]@ == alpha_term(self@[m]),
            decreases self@.len() - k,
        {
            out.push(Term::new(None, self[k]));
            k = k + 1;
        }
        proof {
            assert(terms_view(out@) =~= Seq::new(self@.len(), |k: int| alpha_term(self@[k])));
        }
        out
    }
}

impl ArOutput for Vec<Alpha> {
    open spec fn accepts(s: Seq<TermV>) -> bool {
        true
    }

    open spec fn built_from(s: Seq<TermV>, r: Vec<Alpha>) -> bool {
        r@ == s.map_values(|t: TermV| t.alpha)
    }

    fn from_terms(terms: Vec<Term>) -> (r: Vec<Alpha>) {
        let mut out: Vec<Alpha> = Vec::new();
        let mut k: usize = 0;
        while k < terms.len()
            invariant
                k <= terms@.len(),
                out@.len() == k,
                forall|m: int| 0 <= m < k ==> #[trigger] out@[m] == terms@[m]@.alpha,
            decreases terms@.len() - k,
        {
            out.push(terms[k].alpha);
            k = k + 1;
        }
        proof {
            assert(out@ =~= terms_view(terms@).map_values(|t: TermV| t.alpha));
        }
        out
    }
}

impl AR for Vec<Alpha> {}

} // verus!
