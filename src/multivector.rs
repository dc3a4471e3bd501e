//! Multivectors: canonically ordered sums of terms.
use vstd::prelude::*;
use crate::basis::{Alpha, Form, form_at};
use crate::order::{lemma_insert_at, sort_by};
use crate::xi::renderable;
use crate::term::{
    Term, TermV, alpha_term, lemma_term_sum_wf, sum_fits, summation_key, term_le, term_neg,
    term_order, term_sum, term_wf, terms_view,
};

verus! {

/// A sum of terms, kept in canonical order by the operations that build it.
#[derive(Debug, PartialEq, Eq)]
pub struct MultiVector {
    pub terms: Vec<Term>,
}

impl View for MultiVector {
    type V = Seq<TermV>;

    open spec fn view(&self) -> Seq<TermV> {
        terms_view(self.terms@)
    }
}

/// Every term of `s` is well formed.
pub open spec fn all_wf(s: Seq<TermV>) -> bool {
    forall|k: int| 0 <= k < s.len() ==> #[trigger] term_wf(s[k])
}

/// The first position from `m` on whose summation key differs from the one at `k`.
pub open spec fn key_run_end(s: Seq<TermV>, k: int, m: int) -> int
    decreases s.len() - m,
{
    if m < 0 || m >= s.len() {
        s.len() as int
    } else if summation_key(s[m]) != summation_key(s[k]) {
        m
    } else {
        key_run_end(s, k, m + 1)
    }
}

/// The terms from `k` up to `m` summed from the left.
pub open spec fn fold_group(s: Seq<TermV>, k: int, m: int) -> TermV
    decreases m - k,
{
    if m <= k + 1 {
        s[k]
    } else {
        term_sum(fold_group(s, k, m - 1), s[m - 1])
    }
}

/// Each addition of that fold fits in machine words.
pub open spec fn fold_fits(s: Seq<TermV>, k: int, m: int) -> bool
    decreases m - k,
{
    if m <= k + 1 {
        true
    } else {
        fold_fits(s, k, m - 1) && sum_fits(fold_group(s, k, m - 1), s[m - 1])
    }
}

/// From position `k` on: each run of terms that share a summation key,
/// summed into one term, and dropped where that term is zero.
pub open spec fn collapse_from(s: Seq<TermV>, k: int) -> Seq<TermV>
    decreases s.len() - k,
{
    if k < 0 || k >= s.len() {
        seq![]
    } else {
        let e = key_run_end(s, k, k + 1);
        let t = fold_group(s, k, e);
        let rest = if e <= k || e > s.len() {
            seq![]
        } else {
            collapse_from(s, e)
        };
        if t.magnitude.0 == 0 {
            rest
        } else {
            seq![t] + rest
        }
    }
}

/// Every sum that collapsing from `k` on performs fits in machine words.
pub open spec fn collapse_fits(s: Seq<TermV>, k: int) -> bool
    decreases s.len() - k,
{
    if k < 0 || k >= s.len() {
        true
    } else {
        let e = key_run_end(s, k, k + 1);
        fold_fits(s, k, e) && (e <= k || e > s.len() || collapse_fits(s, e))
    }
}

/// A list of terms simplified: sorted, then each run of terms that share a
/// summation key summed, with the zero sums dropped.
pub open spec fn simplify_spec(s: Seq<TermV>) -> Seq<TermV> {
    collapse_from(sort_by(s, term_order()), 0)
}

/// The terms can be simplified: they are well formed and the sums fit.
pub open spec fn can_simplify(s: Seq<TermV>) -> bool {
    all_wf(s) && collapse_fits(sort_by(s, term_order()), 0)
}

proof fn lemma_key_run_end(s: Seq<TermV>, k: int, m: int)
    requires
        0 <= k < m <= s.len(),
    ensures
        m <= key_run_end(s, k, m) <= s.len(),
    decreases s.len() - m,
{
    if m < s.len() && summation_key(s[m]) == summation_key(s[k]) {
        lemma_key_run_end(s, k, m + 1);
    }
}

proof fn lemma_fold_fits_prefix(s: Seq<TermV>, k: int, m: int, e: int)
    requires
        k + 1 <= m <= e,
        fold_fits(s, k, e),
    ensures
        fold_fits(s, k, m),
    decreases e - m,
{
    if m < e {
        lemma_fold_fits_prefix(s, k, m, e - 1);
    }
}

proof fn lemma_fold_wf(s: Seq<TermV>, k: int, m: int)
    requires
        0 <= k < m <= s.len(),
        all_wf(s),
    ensures
        term_wf(fold_group(s, k, m)),
    decreases m - k,
{
    if m > k + 1 {
        lemma_fold_wf(s, k, m - 1);
        lemma_term_sum_wf(fold_group(s, k, m - 1), s[m - 1]);
    }
}

/// Sort terms into canonical order.
pub fn sort_terms(v: Vec<Term>) -> (r: Vec<Term>)
    ensures
        terms_view(r@) == sort_by(terms_view(v@), term_order()),
{
    let ghost all = terms_view(v@);
    let ghost n = v@.len();
    let mut rest = v;
    let mut out: Vec<Term> = Vec::new();
    proof {
        assert(terms_view(out@) =~= seq![]);
        assert(all.subrange(0, 0) =~= seq![]);
    }
    while rest.len() > 0
        invariant
            n == all.len(),
            rest@.len() <= n,
            forall|m: int| 0 <= m < rest@.len() ==> #[trigger] rest@[m]@ == all[n - rest@.len() + m],
            terms_view(out@) == sort_by(all.subrange(0, n - rest@.len()), term_order()),
        decreases rest@.len(),
    {
        let ghost k = n - rest@.len();
        let x = rest.remove(0);
        let mut m = out.len();
        while m > 0 && crate::xi::is_greater(out[m - 1].compare(&x))
            invariant
                m <= out@.len(),
                forall|j: int| m <= j < out@.len() ==> !term_le(#[trigger] out@[j]@, x@),
            decreases m,
        {
            m = m - 1;
        }
        proof {
            let s = terms_view(out@);
            assert forall|j: int| m <= j < s.len() implies !term_le(#[trigger] s[j], x@) by {
                assert(s[j] == out@[j]@);
            }
            lemma_insert_at(s, x@, term_order(), m as int);
            assert(all.subrange(0, k + 1).drop_last() =~= all.subrange(0, k));
            assert(terms_view(out@.insert(m as int, x)) =~= s.insert(m as int, x@));
        }
        out.insert(m, x);
    }
    proof {
        assert(all.subrange(0, n as int) =~= all);
    }
    out
}

/// Simplify a list of terms.
pub fn simplify_terms(terms: Vec<Term>) -> (r: Vec<Term>)
    requires
        can_simplify(terms_view(terms@)),
    ensures
        terms_view(r@) == simplify_spec(terms_view(terms@)),
{
    let ghost input = terms_view(terms@);
    let sorted = sort_terms(terms);
    let ghost s = terms_view(sorted@);
    proof {
        crate::order::lemma_sort_multiset(input, term_order());
        s.to_multiset_ensures();
        input.to_multiset_ensures();
        assert forall|k: int| 0 <= k < s.len() implies #[trigger] term_wf(s[k]) by {
            assert(s.to_multiset().count(s[k]) > 0);
            assert(input.to_multiset().count(s[k]) > 0);
            assert(input.contains(s[k]));
            let j = choose|j: int| 0 <= j < input.len() && input[j] == s[k];
            assert(term_wf(input[j]));
        }
        assert forall|j: int| 0 <= j < sorted@.len() implies #[trigger] term_wf(sorted@[j]@) by {
            assert(s[j] == sorted@[j]@);
        }
    }
    let n = sorted.len();
    let mut out: Vec<Term> = Vec::new();
    let mut k: usize = 0;
    proof {
        assert(terms_view(out@) =~= seq![]);
    }
    while k < n
        invariant
            n == sorted@.len(),
            s == terms_view(sorted@),
            all_wf(s),
            forall|j: int| 0 <= j < n ==> #[trigger] term_wf(sorted@[j]@),
            k <= n,
            collapse_fits(s, k as int),
            terms_view(out@) + collapse_from(s, k as int) == collapse_from(s, 0),
        decreases n - k,
    {
        let ghost e = key_run_end(s, k as int, k + 1);
        proof {
            lemma_key_run_end(s, k as int, k + 1);
        }
        proof {
            assert forall|j: int| 0 <= j < n implies #[trigger] renderable(sorted@[j].xi@) by {
                assert(term_wf(sorted@[j]@));
            }
        }
        let mut acc = sorted[k].copy();
        let mut m = k + 1;
        while m < n && sorted[m].same_key(&sorted[k])
            invariant
                k < m <= e,
                e == key_run_end(s, k as int, k + 1),
                e <= n,
                n == sorted@.len(),
                s == terms_view(sorted@),
                all_wf(s),
                forall|j: int| 0 <= j < n ==> #[trigger] term_wf(sorted@[j]@),
                forall|j: int| 0 <= j < n ==> #[trigger] renderable(sorted@[j].xi@),
                key_run_end(s, k as int, k + 1) == key_run_end(s, k as int, m as int),
                fold_fits(s, k as int, e),
                acc@ == fold_group(s, k as int, m as int),
            decreases n - m,
        {
            proof {
                assert(term_wf(s[k as int]) && term_wf(s[m as int]));
                lemma_key_run_end(s, k as int, m + 1);
                lemma_fold_fits_prefix(s, k as int, m + 1, e);
                lemma_fold_wf(s, k as int, m as int);
            }
            acc = acc.add_same_key(&sorted[m]);
            m = m + 1;
        }
        proof {
            assert(m == e);
        }
        let ghost before = terms_view(out@);
        if acc.magnitude.is_non_zero() {
            out.push(acc);
            proof {
                assert(terms_view(out@) =~= before + seq![fold_group(s, k as int, e)]);
            }
        }
        proof {
            assert(before + collapse_from(s, k as int) =~= terms_view(out@) + collapse_from(s, e));
        }
        k = m;
    }
    proof {
        assert(terms_view(out@) =~= terms_view(out@) + collapse_from(s, k as int));
    }
    out
}

/// Simplify a list of terms where that can be done: `None` where a term is
/// not well formed or a sum would not fit in machine words.
#[verifier::rlimit(60)]
pub fn try_simplify_terms(terms: Vec<Term>) -> (r: Option<Vec<Term>>)
    ensures
        r matches Some(v) ==> terms_view(v@) == simplify_spec(terms_view(terms@)),
        can_simplify(terms_view(terms@)) ==> r is Some,
{
    let ghost input = terms_view(terms@);
    let mut k: usize = 0;
    while k < terms.len()
        invariant
            k <= terms@.len(),
            input == terms_view(terms@),
            forall|j: int| 0 <= j < k ==> #[trigger] term_wf(input[j]),
        decreases terms@.len() - k,
    {
        assert(input[k as int] == terms@[k as int]@);
        if !terms[k].is_well_formed() {
            assert(!all_wf(input));
            return None;
        }
        k = k + 1;
    }
    assert(all_wf(input));
    let sorted = sort_terms(crate::ops::ArInput::as_terms(&terms));
    let ghost s = terms_view(sorted@);
    let ghost ok = can_simplify(input);
    proof {
        crate::order::lemma_sort_multiset(input, term_order());
        s.to_multiset_ensures();
        input.to_multiset_ensures();
        assert forall|k: int| 0 <= k < s.len() implies #[trigger] term_wf(s[k]) by {
            assert(s.to_multiset().count(s[k]) > 0);
            assert(input.to_multiset().count(s[k]) > 0);
            assert(input.contains(s[k]));
            let j = choose|j: int| 0 <= j < input.len() && input[j] == s[k];
            assert(term_wf(input[j]));
        }
        assert forall|j: int| 0 <= j < sorted@.len() implies #[trigger] term_wf(sorted@[j]@) by {
            assert(s[j] == sorted@[j]@);
        }
        assert forall|j: int| 0 <= j < sorted@.len() implies #[trigger] renderable(sorted@[j].xi@) by {
            assert(term_wf(sorted@[j]@));
        }
    }
    let n = sorted.len();
    let mut out: Vec<Term> = Vec::new();
    let mut k: usize = 0;
    proof {
        assert(terms_view(out@) =~= seq![]);
    }
    while k < n
        invariant
            n == sorted@.len(),
            s == terms_view(sorted@),
            all_wf(s),
            forall|j: int| 0 <= j < n ==> #[trigger] term_wf(sorted@[j]@),
            forall|j: int| 0 <= j < n ==> #[trigger] renderable(sorted@[j].xi@),
            k <= n,
            input == terms_view(terms@),
            ok == can_simplify(input),
            s == sort_by(input, term_order()),
            ok ==> collapse_fits(s, k as int),
            terms_view(out@) + collapse_from(s, k as int) == collapse_from(s, 0),
        decreases n - k,
    {
        let ghost e = key_run_end(s, k as int, k + 1);
        proof {
            lemma_key_run_end(s, k as int, k + 1);
        }
        let mut acc = sorted[k].copy();
        let mut m = k + 1;
        while m < n && sorted[m].same_key(&sorted[k])
            invariant
                k < m <= e,
                e == key_run_end(s, k as int, k + 1),
                e <= n,
                n == sorted@.len(),
                s == terms_view(sorted@),
                all_wf(s),
                forall|j: int| 0 <= j < n ==> #[trigger] term_wf(sorted@[j]@),
                forall|j: int| 0 <= j < n ==> #[trigger] renderable(sorted@[j].xi@),
                key_run_end(s, k as int, k + 1) == key_run_end(s, k as int, m as int),
                input == terms_view(terms@),
                ok == can_simplify(input),
                s == sort_by(input, term_order()),
                ok ==> fold_fits(s, k as int, e),
                acc@ == fold_group(s, k as int, m as int),
            decreases n - m,
        {
            proof {
                assert(term_wf(s[k as int]) && term_wf(s[m as int]));
                lemma_key_run_end(s, k as int, m + 1);
                lemma_fold_wf(s, k as int, m as int);
                if ok {
                    lemma_fold_fits_prefix(s, k as int, m + 1, e);
                }
            }
            if !acc.sum_fits_with(&sorted[m]) {
                proof {
                    assert(s[m as int] == sorted@[m as int]@);
                    assert(!sum_fits(fold_group(s, k as int, m as int), s[m as int]));
                    if ok {
                        lemma_fold_fits_prefix(s, k as int, m + 1, e);
                        assert(fold_fits(s, k as int, m + 1));
                        assert(fold_fits(s, k as int, m + 1) ==> sum_fits(
                            fold_group(s, k as int, m as int),
                            s[m as int],
                        ));
                    }
                    assert(!ok);
                    assert(!can_simplify(input));
                }
                return None;
            }
            acc = acc.add_same_key(&sorted[m]);
            m = m + 1;
        }
        proof {
            assert(m == e);
            if ok {
                assert(collapse_fits(s, e));
            }
        }
        let ghost before = terms_view(out@);
        if acc.magnitude.is_non_zero() {
            out.push(acc);
            proof {
                assert(terms_view(out@) =~= before + seq![fold_group(s, k as int, e)]);
            }
        }
        proof {
            assert(before + collapse_from(s, k as int) =~= terms_view(out@) + collapse_from(s, e));
        }
        k = m;
    }
    proof {
        assert(terms_view(out@) =~= terms_view(out@) + collapse_from(s, k as int));
    }
    Some(out)
}

impl MultiVector {
    /// This multivector simplified, where that can be done: `None` where a
    /// term is not well formed or a sum would not fit in machine words.
    pub fn try_simplified(self) -> (r: Option<MultiVector>)
        ensures
            r matches Some(m) ==> m@ == simplify_spec(self@),
            can_simplify(self@) ==> r is Some,
    {
        match try_simplify_terms(self.terms) {
            Some(terms) => Some(MultiVector { terms }),
            None => None,
        }
    }

    /// The multivector with no terms.
    pub fn new() -> (r: MultiVector)
        ensures
            r@ == Seq::<TermV>::empty(),
    {
        let r = MultiVector { terms: Vec::new() };
        proof {
            assert(r@ =~= Seq::<TermV>::empty());
        }
        r
    }

    /// The multivector of the given terms, in canonical order.
    pub fn from_terms(terms: Vec<Term>) -> (r: MultiVector)
        ensures
            r@ == sort_by(terms_view(terms@), term_order()),
    {
        MultiVector { terms: sort_terms(terms) }
    }

    /// The multivector of the terms of any value that has them, in canonical order.
    pub fn from_ar<T: crate::ops::ArInput>(ar: T) -> (r: MultiVector)
        ensures
            r@ == sort_by(ar.ar_terms(), term_order()),
    {
        MultiVector::from_terms(ar.as_terms())
    }

    /// The multivector of one term of magnitude 1 for each basis element,
    /// in canonical order.
    pub fn from_alphas(alphas: Vec<Alpha>) -> (r: MultiVector)
        ensures
            r@ == sort_by(Seq::new(alphas@.len(), |k: int| alpha_term(alphas@[k])), term_order()),
    {
        let mut terms: Vec<Term> = Vec::new();
        let mut k: usize = 0;
        while k < alphas.len()
            invariant
                k <= alphas@.len(),
                terms@.len() == k,
                forall|m: int| 0 <= m < k ==> #[trigger] terms@[m]@ == alpha_term(alphas@[m]),
            decreases alphas@.len() - k,
        {
            terms.push(Term::new(None, alphas[k]));
            k = k + 1;
        }
        proof {
            assert(terms_view(terms@) =~= Seq::new(
                alphas@.len(),
                |k: int| alpha_term(alphas@[k]),
            ));
        }
        MultiVector::from_terms(terms)
    }

    /// A copy of the terms, in order.
    pub fn as_terms(&self) -> (r: Vec<Term>)
        ensures
            terms_view(r@) == self@,
    {
        let mut out: Vec<Term> = Vec::new();
        let mut k: usize = 0;
        while k < self.terms.len()
            invariant
                k <= self.terms@.len(),
                out@.len() == k,
                forall|m: int| 0 <= m < k ==> #[trigger] out@[m]@ == self.terms@[m]@,
            decreases self.terms@.len() - k,
        {
            out.push(self.terms[k].copy());
            k = k + 1;
        }
        proof {
            assert(terms_view(out@) =~= self@);
        }
        out
    }

    /// A copy of this multivector.
    pub fn copy(&self) -> (r: MultiVector)
        ensures
            r@ == self@,
    {
        MultiVector { terms: self.as_terms() }
    }

    /// Add a term and restore canonical order.
    pub fn push(&mut self, term: Term)
        ensures
            final(self)@ == sort_by(old(self)@.push(term@), term_order()),
    {
        let mut terms = self.as_terms();
        terms.push(term);
        proof {
            assert(terms_view(terms@) =~= old(self)@.push(term@));
        }
        self.terms = sort_terms(terms);
    }

    /// Combine the terms that share a form and a written coefficient.
    pub fn simplify(&mut self)
        requires
            can_simplify(old(self)@),
        ensures
            final(self)@ == simplify_spec(old(self)@),
    {
        let terms = self.as_terms();
        self.terms = simplify_terms(terms);
    }

    /// This multivector with the terms that share a form and a written
    /// coefficient combined.
    pub fn simplified(self) -> (r: MultiVector)
        requires
            can_simplify(self@),
        ensures
            r@ == simplify_spec(self@),
    {
        MultiVector { terms: simplify_terms(self.terms) }
    }

    /// The sum of two multivectors: all terms of both, in canonical order.
    pub fn add(self, rhs: MultiVector) -> (r: MultiVector)
        ensures
            r@ == sort_by(self@ + rhs@, term_order()),
    {
        let mut terms = self.terms;
        let mut other = rhs.terms;
        let ghost a = terms@;
        let ghost b = other@;
        terms.append(&mut other);
        proof {
            assert(terms_view(terms@) =~= terms_view(a) + terms_view(b));
        }
        MultiVector::from_terms(terms)
    }

    /// This multivector with every term negated, in canonical order.
    pub fn neg(self) -> (r: MultiVector)
        ensures
            r@ == sort_by(self@.map_values(|t: TermV| term_neg(t)), term_order()),
    {
        let mut terms: Vec<Term> = Vec::new();
        let mut k: usize = 0;
        while k < self.terms.len()
            invariant
                k <= self.terms@.len(),
                terms@.len() == k,
                forall|m: int| 0 <= m < k ==> #[trigger] terms@[m]@ == term_neg(self.terms@[m]@),
            decreases self.terms@.len() - k,
        {
            terms.push(self.terms[k].neg());
            k = k + 1;
        }
        proof {
            assert(terms_view(terms@) =~= self@.map_values(|t: TermV| term_neg(t)));
        }
        MultiVector::from_terms(terms)
    }

    /// The difference of two multivectors: the terms of the first and the
    /// negated terms of the second, in canonical order.
    pub fn sub(self, rhs: MultiVector) -> (r: MultiVector)
        ensures
            r@ == sort_by(
                self@ + sort_by(rhs@.map_values(|t: TermV| term_neg(t)), term_order()),
                term_order(),
            ),
    {
        self.add(rhs.neg())
    }

    /// Add one term, in canonical order.
    pub fn add_term(self, rhs: Term) -> (r: MultiVector)
        ensures
            r@ == sort_by(self@.push(rhs@), term_order()),
    {
        let mut terms = self.terms;
        let ghost a = terms@;
        terms.push(rhs);
        proof {
            assert(terms_view(terms@) =~= terms_view(a).push(rhs@));
        }
        MultiVector::from_terms(terms)
    }

    /// Subtract one term, in canonical order.
    pub fn sub_term(self, rhs: Term) -> (r: MultiVector)
        ensures
            r@ == sort_by(self@.push(term_neg(rhs@)), term_order()),
    {
        let n = rhs.neg();
        self.add_term(n)
    }
}

/// The terms of `s` with form `f`, in order.
pub open spec fn with_form(s: Seq<TermV>, f: Form) -> Seq<TermV>
    decreases s.len(),
{
    if s.len() == 0 {
        seq![]
    } else {
        let rest = with_form(s.drop_last(), f);
        if s.last().alpha.form == f {
            rest.push(s.last())
        } else {
            rest
        }
    }
}

/// Some term of `s` has form `f`.
pub open spec fn has_form(s: Seq<TermV>, f: Form) -> bool {
    exists|k: int| 0 <= k < s.len() && #[trigger] s[k].alpha.form == f
}

/// The forms, from position `n` of the canonical order on, that some term of `s` has.
pub open spec fn forms_from(s: Seq<TermV>, n: int) -> Seq<Form>
    decreases 16 - n,
{
    if n < 0 || n >= 16 {
        seq![]
    } else {
        (if has_form(s, form_at(n)) {
            seq![form_at(n)]
        } else {
            seq![]
        }) + forms_from(s, n + 1)
    }
}

impl MultiVector {
    /// A copy of the terms, in order.
    pub fn iter(&self) -> (r: Vec<Term>)
        ensures
            terms_view(r@) == self@,
    {
        self.as_terms()
    }

    /// Whether some term has the form `f`.
    pub fn has_form(&self, f: &Form) -> (r: bool)
        ensures
            r == has_form(self@, *f),
    {
        let mut k: usize = 0;
        while k < self.terms.len()
            invariant
                k <= self.terms@.len(),
                forall|m: int| 0 <= m < k ==> self.terms@[m]@.alpha.form != *f,
            decreases self.terms@.len() - k,
        {
            if self.terms[k].alpha.form == *f {
                assert(self@[k as int].alpha.form == *f);
                return true;
            }
            k = k + 1;
        }
        proof {
            assert forall|m: int| 0 <= m < self@.len() implies #[trigger] self@[m].alpha.form != *f by {
                assert(self@[m] == self.terms@[m]@);
            }
        }
        false
    }

    /// The forms that occur among the terms, each once, in canonical order.
    pub fn forms(&self) -> (r: Vec<Form>)
        ensures
            r@ == forms_from(self@, 0),
    {
        let mut out: Vec<Form> = Vec::new();
        let mut n: usize = 0;
        while n < 16
            invariant
                n <= 16,
                out@ + forms_from(self@, n as int) == forms_from(self@, 0),
            decreases 16 - n,
        {
            let ghost before = out@;
            match Form::nth(n) {
                Some(f) => {
                    if self.has_form(&f) {
                        out.push(f);
                    }
                },
                None => {},
            }
            proof {
                assert(before + forms_from(self@, n as int) =~= out@ + forms_from(self@, n + 1));
            }
            n = n + 1;
        }
        proof {
            assert(out@ =~= out@ + forms_from(self@, 16));
        }
        out
    }

    /// The terms with form `c`, in canonical order, or none where there are none.
    pub fn get(&self, c: &Form) -> (r: Option<Vec<Term>>)
        ensures
            with_form(self@, *c).len() == 0 ==> r is None,
            with_form(self@, *c).len() > 0 ==> (r matches Some(v) && terms_view(v@) == sort_by(
                with_form(self@, *c),
                term_order(),
            )),
    {
        let ghost s = self@;
        let mut found: Vec<Term> = Vec::new();
        let mut k: usize = 0;
        proof {
            assert(terms_view(found@) =~= seq![]);
            assert(s.subrange(0, 0) =~= seq![]);
        }
        while k < self.terms.len()
            invariant
                k <= self.terms@.len(),
                s == self@,
                terms_view(found@) == with_form(s.subrange(0, k as int), *c),
            decreases self.terms@.len() - k,
        {
            proof {
                assert(s.subrange(0, k + 1).drop_last() =~= s.subrange(0, k as int));
                assert(s.subrange(0, k + 1).last() == self.terms@[k as int]@);
            }
            if self.terms[k].alpha.form == *c {
                let ghost before = found@;
                found.push(self.terms[k].copy());
                proof {
                    assert(terms_view(found@) =~= terms_view(before).push(self.terms@[k as int]@));
                }
            }
            k = k + 1;
        }
        proof {
            assert(s.subrange(0, self.terms@.len() as int) =~= s);
        }
        if found.len() == 0 {
            None
        } else {
            Some(sort_terms(found))
        }
    }
}

} // verus!
