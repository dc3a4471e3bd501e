//! Differential operators: derivatives with respect to basis elements.
use vstd::prelude::*;
use crate::basis::{Alpha, alpha_inverse, alpha_product};
use crate::multivector::MultiVector;
use crate::order::sort_by;
use crate::term::{Term, TermV, term_order, terms_view};
use crate::xi::{XiV, form_order};

verus! {

/// The side from which a differential is applied.
#[derive(PartialEq, Eq, Structural, Clone, Copy, Debug)]
pub enum ApplyFrom {
    Left,
    Right,
}

/// A differential operator, holding the inverses of the basis elements it
/// differentiates with respect to, so that either side reduces to a product.
#[derive(Debug, PartialEq, Eq, Hash)]
pub struct Differential {
    pub wrt: Vec<Alpha>,
}

/// `t` differentiated by the stored element `w`: the product of `w` and the
/// basis element of `t` on the given side, and a partial for the form of `w`.
pub open spec fn partial_of(t: TermV, w: Alpha, side: ApplyFrom) -> TermV {
    TermV {
        alpha: match side {
            ApplyFrom::Left => alpha_product(w, t.alpha),
            ApplyFrom::Right => alpha_product(t.alpha, w),
        },
        xi: XiV { partials: sort_by(t.xi.partials.push(w.form), form_order()), ..t.xi },
        ..t
    }
}

/// The derivatives of one term by each stored element, in order.
pub open spec fn partial_row(ws: Seq<Alpha>, t: TermV, side: ApplyFrom) -> Seq<TermV> {
    ws.map_values(|w: Alpha| partial_of(t, w, side))
}

/// For each term in order, its derivatives by each stored element.
pub open spec fn apply_rows(ws: Seq<Alpha>, s: Seq<TermV>, side: ApplyFrom) -> Seq<TermV>
    decreases s.len(),
{
    if s.len() == 0 {
        seq![]
    } else {
        apply_rows(ws, s.drop_last(), side) + partial_row(ws, s.last(), side)
    }
}

fn term_partial(term: &Term, wrt: &Alpha, side: ApplyFrom) -> (r: Term)
    ensures
        r@ == partial_of(term@, *wrt, side),
{
    let a = match side {
        ApplyFrom::Left => crate::product::ar_product(wrt, &term.alpha),
        ApplyFrom::Right => crate::product::ar_product(&term.alpha, wrt),
    };
    let mut t = term.copy();
    t.add_partial(wrt);
    t.set_alpha(a);
    t
}

impl Differential {
    /// The operator that differentiates with respect to each of `wrt`.
    pub fn new(wrt: &[Alpha]) -> (r: Differential)
        ensures
            r.wrt@ == wrt@.map_values(|w: Alpha| alpha_inverse(w)),
    {
        let mut v: Vec<Alpha> = Vec::new();
        let mut k: usize = 0;
        while k < wrt.len()
            invariant
                k <= wrt@.len(),
                v@.len() == k,
                forall|m: int| 0 <= m < k ==> #[trigger] v@[m] == alpha_inverse(wrt@[m]),
            decreases wrt@.len() - k,
        {
            v.push(wrt[k].inverse());
            k = k + 1;
        }
        proof {
            assert(v@ =~= wrt@.map_values(|w: Alpha| alpha_inverse(w)));
        }
        Differential { wrt: v }
    }

    /// Apply from the left: each term times each stored element on its left.
    pub fn left_apply(&self, mvec: &MultiVector) -> (r: MultiVector)
        ensures
            r@ == sort_by(apply_rows(self.wrt@, mvec@, ApplyFrom::Left), term_order()),
    {
        self.apply(mvec, ApplyFrom::Left)
    }

    /// Apply from the right: each term times each stored element on its right.
    pub fn right_apply(&self, mvec: &MultiVector) -> (r: MultiVector)
        ensures
            r@ == sort_by(apply_rows(self.wrt@, mvec@, ApplyFrom::Right), term_order()),
    {
        self.apply(mvec, ApplyFrom::Right)
    }

    fn apply(&self, mvec: &MultiVector, side: ApplyFrom) -> (r: MultiVector)
        ensures
            r@ == sort_by(apply_rows(self.wrt@, mvec@, side), term_order()),
    {
        let ghost s = mvec@;
        let ghost ws = self.wrt@;
        let mut out: Vec<Term> = Vec::new();
        let mut i: usize = 0;
        proof {
            assert(terms_view(out@) =~= seq![]);
            assert(s.subrange(0, 0) =~= seq![]);
        }
        while i < mvec.terms.len()
            invariant
                i <= mvec.terms@.len(),
                s == mvec@,
                ws == self.wrt@,
                terms_view(out@) == apply_rows(ws, s.subrange(0, i as int), side),
            decreases mvec.terms@.len() - i,
        {
            let t = &mvec.terms[i];
            let ghost before = terms_view(out@);
            let mut j: usize = 0;
            while j < self.wrt.len()
                invariant
                    j <= ws.len(),
                    ws == self.wrt@,
                    out@.len() == before.len() + j,
                    forall|m: int| 0 <= m < before.len() ==> #[trigger] out@[m]@ == before[m],
                    forall|m: int|
                        0 <= m < j ==> #[trigger] out@[before.len() + m]@ == partial_of(
                            t@,
                            ws[m],
                            side,
                        ),
                decreases ws.len() - j,
            {
                out.push(term_partial(t, &self.wrt[j], side));
                j = j + 1;
            }
            proof {
                assert(s.subrange(0, i + 1).drop_last() =~= s.subrange(0, i as int));
                assert(s.subrange(0, i + 1).last() == t@);
                let want = before + partial_row(ws, t@, side);
                assert forall|m: int| 0 <= m < out@.len() implies #[trigger] terms_view(out@)[m]
                    == want[m] by {
                    if m >= before.len() {
                        assert(out@[before.len() + (m - before.len())]@ == partial_of(
                            t@,
                            ws[m - before.len()],
                            side,
                        ));
                    }
                }
                assert(terms_view(out@) =~= want);
            }
            i = i + 1;
        }
        proof {
            assert(s.subrange(0, mvec.terms@.len() as int) =~= s);
        }
        MultiVector::from_terms(out)
    }
}

} // verus!
