//! Values of the algebra of any kind, and the arithmetic between them that
//! a front end offers, with an error for each combination that has no meaning.
use vstd::prelude::*;
use crate::basis::{Alpha, alpha_inverse, alpha_product};
use crate::differential::{ApplyFrom, Differential, apply_rows};
use crate::division::{DivideSide, div_by, div_computable, div_spec};
use crate::magnitude::{Magnitude, fits, mag_wf, prod_parts, quot_parts, reduce};
use crate::multivector::{MultiVector, can_simplify, simplify_spec};
use crate::ops::{ArInput, full, full_fits, full_spec};
use crate::order::sort_by;
use crate::term::{
    Term, TermV, alpha_term, product_fits, term_inverse, term_order, term_product, terms_view,
};

verus! {

/// A value of any kind that the algebra works with.
#[derive(Debug, PartialEq, Eq)]
pub enum Value {
    Alpha(Alpha),
    Term(Term),
    Magnitude(Magnitude),
    MultiVector(MultiVector),
    Differential(Differential),
}

/// The mathematical content of a value.
pub enum ValueV {
    Alpha(Alpha),
    Term(TermV),
    Magnitude((nat, nat)),
    MultiVector(Seq<TermV>),
    Differential(Seq<Alpha>),
}

impl View for Value {
    type V = ValueV;

    open spec fn view(&self) -> ValueV {
        match self {
            Value::Alpha(a) => ValueV::Alpha(*a),
            Value::Term(t) => ValueV::Term(t@),
            Value::Magnitude(m) => ValueV::Magnitude(m@),
            Value::MultiVector(m) => ValueV::MultiVector(m@),
            Value::Differential(d) => ValueV::Differential(d.wrt@),
        }
    }
}

/// Why an operation between two values was refused.
#[derive(Debug, PartialEq, Eq)]
pub enum EvalError {
    /// A basis element cannot be scaled by a bare magnitude.
    InvalidAlphaProduct,
    /// A differential applies to multivectors only.
    InvalidDifferential,
    /// The operation, its symbol, and the two operands that it does not take.
    InvalidOperation(&'static str, &'static str, Value, Value),
    /// A description of what went wrong.
    Syntax(String),
}

/// A per-term operation with a second operand of a given kind.
pub enum TermOp {
    /// Multiply the magnitude by this one.
    Scale(Magnitude),
    /// Divide the magnitude by this one.
    Divide(Magnitude),
    /// Divide this magnitude by the term.
    MagOver(Magnitude),
    /// Multiply by a basis element on the right.
    TimesAlpha(Alpha),
    /// Multiply by a basis element on the left.
    AlphaTimes(Alpha),
    /// Divide by a basis element.
    OverAlpha(Alpha),
    /// Divide a basis element by the term.
    AlphaOver(Alpha),
    /// Multiply by a term on the right.
    TimesTerm(Term),
    /// Multiply by a term on the left.
    TermTimes(Term),
    /// Divide by a term.
    OverTerm(Term),
    /// Divide a term by this one.
    TermOver(Term),
}

/// What the operation makes of the term `t`.
pub open spec fn apply_op(op: TermOp, t: TermV) -> TermV {
    match op {
        TermOp::Scale(m) => TermV {
            magnitude: reduce(prod_parts(t.magnitude, m@).0, prod_parts(t.magnitude, m@).1),
            ..t
        },
        TermOp::Divide(m) => TermV {
            magnitude: reduce(quot_parts(t.magnitude, m@).0, quot_parts(t.magnitude, m@).1),
            ..t
        },
        TermOp::MagOver(m) => TermV {
            magnitude: reduce(quot_parts(m@, t.magnitude).0, quot_parts(m@, t.magnitude).1),
            alpha: alpha_inverse(t.alpha),
            ..t
        },
        TermOp::TimesAlpha(a) => TermV { alpha: alpha_product(t.alpha, a), ..t },
        TermOp::AlphaTimes(a) => TermV { alpha: alpha_product(a, t.alpha), ..t },
        TermOp::OverAlpha(a) => TermV { alpha: alpha_product(t.alpha, alpha_inverse(a)), ..t },
        TermOp::AlphaOver(a) => TermV {
            magnitude: reduce(t.magnitude.1, t.magnitude.0),
            alpha: alpha_product(a, alpha_inverse(t.alpha)),
            ..t
        },
        TermOp::TimesTerm(u) => term_product(t, u@),
        TermOp::TermTimes(u) => term_product(u@, t),
        TermOp::OverTerm(u) => term_product(t, term_inverse(u@)),
        TermOp::TermOver(u) => term_product(u@, term_inverse(t)),
    }
}

/// The operation is defined on `t` and its arithmetic fits in machine words.
pub open spec fn op_fits(op: TermOp, t: TermV) -> bool {
    &&& mag_wf(t.magnitude)
    &&& match op {
        TermOp::Scale(m) => mag_wf(m@) && fits(prod_parts(t.magnitude, m@)),
        TermOp::Divide(m) => mag_wf(m@) && m@.0 > 0 && fits(quot_parts(t.magnitude, m@)),
        TermOp::MagOver(m) => mag_wf(m@) && t.magnitude.0 > 0 && fits(quot_parts(m@, t.magnitude)),
        TermOp::TimesAlpha(_) => true,
        TermOp::AlphaTimes(_) => true,
        TermOp::OverAlpha(_) => true,
        TermOp::AlphaOver(_) => t.magnitude.0 > 0,
        TermOp::TimesTerm(u) => mag_wf(u@.magnitude) && product_fits(t, u@),
        TermOp::TermTimes(u) => mag_wf(u@.magnitude) && product_fits(u@, t),
        TermOp::OverTerm(u) => mag_wf(u@.magnitude) && u@.magnitude.0 > 0 && product_fits(
            t,
            term_inverse(u@),
        ),
        TermOp::TermOver(u) => mag_wf(u@.magnitude) && t.magnitude.0 > 0 && product_fits(
            u@,
            term_inverse(t),
        ),
    }
}

/// The operation applied to each term, in order.
pub open spec fn map_op(op: TermOp, s: Seq<TermV>) -> Seq<TermV> {
    s.map_values(|t: TermV| apply_op(op, t))
}

/// The operation is defined on every term of `s`.
pub open spec fn all_fit(op: TermOp, s: Seq<TermV>) -> bool {
    forall|k: int| 0 <= k < s.len() ==> #[trigger] op_fits(op, s[k])
}

impl TermOp {
    /// Apply the operation to one term.
    pub fn apply(&self, t: &Term) -> (r: Term)
        requires
            op_fits(*self, t@),
        ensures
            r@ == apply_op(*self, t@),
    {
        let mut u = t.copy();
        match self {
            TermOp::Scale(m) => {
                u.magnitude = u.magnitude.mul(*m);
            },
            TermOp::Divide(m) => {
                u.magnitude = u.magnitude.div(*m);
            },
            TermOp::MagOver(m) => {
                u.magnitude = m.div(u.magnitude);
                u.alpha = u.alpha.inverse();
            },
            TermOp::TimesAlpha(a) => {
                u.alpha = crate::product::ar_product(&u.alpha, a);
            },
            TermOp::AlphaTimes(a) => {
                u.alpha = crate::product::ar_product(a, &u.alpha);
            },
            TermOp::OverAlpha(a) => {
                u.alpha = u.alpha.div(*a);
            },
            TermOp::AlphaOver(a) => {
                u.magnitude = Magnitude::new(u.magnitude.denominator, u.magnitude.numerator);
                u.alpha = a.div(u.alpha);
            },
            TermOp::TimesTerm(v) => {
                u = t.form_product_with(v);
            },
            TermOp::TermTimes(v) => {
                u = v.form_product_with(t);
            },
            TermOp::OverTerm(v) => {
                proof {
                    crate::magnitude::lemma_reduce_wf(v@.magnitude.1, v@.magnitude.0);
                }
                u = t.form_product_with(&crate::term::Term::inverse(v));
            },
            TermOp::TermOver(v) => {
                proof {
                    crate::magnitude::lemma_reduce_wf(t@.magnitude.1, t@.magnitude.0);
                }
                u = v.form_product_with(&crate::term::Term::inverse(t));
            },
        }
        u
    }
}

/// Apply an operation to each term, keeping their order.
pub fn map_terms(op: &TermOp, terms: &Vec<Term>) -> (r: Vec<Term>)
    requires
        all_fit(*op, terms_view(terms@)),
    ensures
        terms_view(r@) == map_op(*op, terms_view(terms@)),
{
    let mut out: Vec<Term> = Vec::new();
    let mut k: usize = 0;
    while k < terms.len()
        invariant
            k <= terms@.len(),
            all_fit(*op, terms_view(terms@)),
            out@.len() == k,
            forall|j: int| 0 <= j < k ==> #[trigger] out@[j]@ == apply_op(*op, terms@[j]@),
        decreases terms@.len() - k,
    {
        assert(terms_view(terms@)[k as int] == terms@[k as int]@);
        out.push(op.apply(&terms[k]));
        k = k + 1;
    }
    proof {
        assert(terms_view(out@) =~= map_op(*op, terms_view(terms@)));
    }
    out
}

/// The terms that a value stands for: none for a magnitude or a differential.
pub open spec fn value_terms(v: ValueV) -> Seq<TermV> {
    match v {
        ValueV::Alpha(a) => seq![alpha_term(a)],
        ValueV::Term(t) => seq![t],
        ValueV::MultiVector(s) => s,
        _ => seq![],
    }
}

impl ArInput for Value {
    open spec fn ar_terms(&self) -> Seq<TermV> {
        value_terms(self@)
    }

    fn as_terms(&self) -> (r: Vec<Term>) {
        match self {
            Value::Alpha(a) => a.as_terms(),
            Value::Term(t) => t.as_terms(),
            Value::MultiVector(m) => MultiVector::as_terms(m),
            _ => {
                let r: Vec<Term> = Vec::new();
                proof {
                    assert(terms_view(r@) =~= seq![]);
                }
                r
            },
        }
    }
}

/// The name of a value's kind.
pub open spec fn kind_name(v: ValueV) -> Seq<char> {
    match v {
        ValueV::Alpha(_) => "alpha"@,
        ValueV::Term(_) => "term"@,
        ValueV::Magnitude(_) => "magnitude"@,
        ValueV::MultiVector(_) => "multivector"@,
        ValueV::Differential(_) => "differential"@,
    }
}

impl Value {
    /// The name of this value's kind.
    pub fn name(&self) -> (r: &'static str)
        ensures
            r@ == kind_name(self@),
    {
        match self {
            Value::Alpha(_) => "alpha",
            Value::Term(_) => "term",
            Value::Magnitude(_) => "magnitude",
            Value::MultiVector(_) => "multivector",
            Value::Differential(_) => "differential",
        }
    }
}

/// A multivector result simplified where asked for; any other result as it is.
pub open spec fn finish(v: ValueV, simplify: bool) -> ValueV {
    match v {
        ValueV::MultiVector(s) => if simplify {
            ValueV::MultiVector(simplify_spec(s))
        } else {
            v
        },
        _ => v,
    }
}

/// Simplifying a multivector result is possible where asked for.
pub open spec fn finish_ok(v: ValueV, simplify: bool) -> bool {
    match v {
        ValueV::MultiVector(s) => simplify ==> can_simplify(s),
        _ => true,
    }
}

fn finish_value(v: Value, simplify: bool) -> (r: Value)
    requires
        finish_ok(v@, simplify),
    ensures
        r@ == finish(v@, simplify),
{
    match v {
        Value::MultiVector(m) => if simplify {
            Value::MultiVector(m.simplified())
        } else {
            Value::MultiVector(m)
        },
        other => other,
    }
}

/// The terms, negated where asked.
pub open spec fn maybe_neg(s: Seq<TermV>, negate: bool) -> Seq<TermV> {
    if negate {
        s.map_values(|t: TermV| crate::term::term_neg(t))
    } else {
        s
    }
}

/// The sum of two values, where there is one: two magnitudes add; terms and
/// multivectors add into a multivector.
pub open spec fn sum_spec(l: ValueV, r: ValueV, negate_right: bool) -> Option<ValueV> {
    match (l, r) {
        (ValueV::Magnitude(a), ValueV::Magnitude(b)) => Some(
            ValueV::Magnitude(
                if negate_right {
                    reduce(
                        crate::magnitude::diff_parts(a, b).0,
                        crate::magnitude::diff_parts(a, b).1,
                    )
                } else {
                    reduce(crate::magnitude::sum_parts(a, b).0, crate::magnitude::sum_parts(a, b).1)
                },
            ),
        ),
        (ValueV::Term(_), ValueV::Term(_)) | (ValueV::Term(_), ValueV::MultiVector(_)) | (
            ValueV::MultiVector(_),
            ValueV::Term(_),
        ) | (ValueV::MultiVector(_), ValueV::MultiVector(_)) => Some(
            ValueV::MultiVector(
                sort_by(value_terms(l) + maybe_neg(value_terms(r), negate_right), term_order()),
            ),
        ),
        _ => None,
    }
}

/// The arithmetic of that sum fits in machine words.
pub open spec fn sum_ok(l: ValueV, r: ValueV, negate_right: bool) -> bool {
    match (l, r) {
        (ValueV::Magnitude(a), ValueV::Magnitude(b)) => mag_wf(a) && mag_wf(b) && if negate_right {
            crate::magnitude::mag_le(b, a) && crate::magnitude::fits_cross(a, b)
        } else {
            fits(crate::magnitude::sum_parts(a, b))
        },
        _ => true,
    }
}

fn sum_values(lhs: Value, rhs: Value, negate_right: bool, simplify: bool) -> (r: Result<Value, EvalError>)
    requires
        sum_ok(lhs@, rhs@, negate_right),
        sum_spec(lhs@, rhs@, negate_right) matches Some(v) ==> finish_ok(v, simplify),
    ensures
        sum_spec(lhs@, rhs@, negate_right) matches Some(v) ==> (r matches Ok(x) && x@ == finish(
            v,
            simplify,
        )),
        sum_spec(lhs@, rhs@, negate_right) is None ==> r matches Err(EvalError::Syntax(_)),
{
    let ghost (l, r) = (lhs@, rhs@);
    let res = match (lhs, rhs) {
        (Value::Magnitude(a), Value::Magnitude(b)) => if negate_right {
            Value::Magnitude(a.sub(b))
        } else {
            Value::Magnitude(a.add(b))
        },
        (Value::Term(a), Value::Term(b)) => {
            let ghost (av, bv) = (a@, b@);
            let va = vec![a];
            let vb = vec![b];
            proof {
                assert(terms_view(va@) =~= seq![av]);
                assert(terms_view(vb@) =~= seq![bv]);
            }
            Value::MultiVector(combine(va, vb, negate_right))
        },
        (Value::Term(a), Value::MultiVector(m)) => {
            let ghost av = a@;
            let va = vec![a];
            proof {
                assert(terms_view(va@) =~= seq![av]);
            }
            Value::MultiVector(combine(va, m.terms, negate_right))
        },
        (Value::MultiVector(m), Value::Term(b)) => {
            let ghost bv = b@;
            let vb = vec![b];
            proof {
                assert(terms_view(vb@) =~= seq![bv]);
            }
            Value::MultiVector(combine(m.terms, vb, negate_right))
        },
        (Value::MultiVector(m), Value::MultiVector(n)) => Value::MultiVector(
            combine(m.terms, n.terms, negate_right),
        ),
        _ => {
            return Err(
                EvalError::Syntax(
                    if negate_right {
                        String::from_str(
                            "subtraction is only valid between multivectors / terms or magnitudes",
                        )
                    } else {
                        String::from_str(
                            "addition is only valid between multivectors / terms or magnitudes",
                        )
                    },
                ),
            );
        },
    };
    assert(sum_spec(l, r, negate_right) == Some(res@));
    Ok(finish_value(res, simplify))
}

/// The terms of `a` and those of `b`, the latter negated where asked, in canonical order.
fn combine(a: Vec<Term>, b: Vec<Term>, negate_right: bool) -> (r: MultiVector)
    ensures
        r@ == sort_by(terms_view(a@) + maybe_neg(terms_view(b@), negate_right), term_order()),
{
    let mut out = a;
    let ghost start = terms_view(out@);
    let mut k: usize = 0;
    while k < b.len()
        invariant
            k <= b@.len(),
            terms_view(out@) == start + maybe_neg(terms_view(b@), negate_right).subrange(0, k as int),
        decreases b@.len() - k,
    {
        let t = if negate_right {
            b[k].neg()
        } else {
            b[k].copy()
        };
        let ghost before = terms_view(out@);
        out.push(t);
        proof {
            let tail = maybe_neg(terms_view(b@), negate_right);
            assert(terms_view(out@) =~= before.push(tail[k as int]));
            assert(start + tail.subrange(0, k + 1) =~= (start + tail.subrange(0, k as int)).push(
                tail[k as int],
            ));
        }
        k = k + 1;
    }
    proof {
        let tail = maybe_neg(terms_view(b@), negate_right);
        assert(tail.subrange(0, b@.len() as int) =~= tail);
    }
    MultiVector::from_terms(out)
}

/// The sum of two values.
pub fn add_values(lhs: Value, rhs: Value, simplify: bool) -> (r: Result<Value, EvalError>)
    requires
        sum_ok(lhs@, rhs@, false),
        sum_spec(lhs@, rhs@, false) matches Some(v) ==> finish_ok(v, simplify),
    ensures
        sum_spec(lhs@, rhs@, false) matches Some(v) ==> (r matches Ok(x) && x@ == finish(
            v,
            simplify,
        )),
        sum_spec(lhs@, rhs@, false) is None ==> r matches Err(EvalError::Syntax(_)),
{
    sum_values(lhs, rhs, false, simplify)
}

/// The difference of two values.
pub fn sub_values(lhs: Value, rhs: Value, simplify: bool) -> (r: Result<Value, EvalError>)
    requires
        sum_ok(lhs@, rhs@, true),
        sum_spec(lhs@, rhs@, true) matches Some(v) ==> finish_ok(v, simplify),
    ensures
        sum_spec(lhs@, rhs@, true) matches Some(v) ==> (r matches Ok(x) && x@ == finish(
            v,
            simplify,
        )),
        sum_spec(lhs@, rhs@, true) is None ==> r matches Err(EvalError::Syntax(_)),
{
    sum_values(lhs, rhs, true, simplify)
}

/// A differential is refused unless it meets a multivector.
pub open spec fn refuses_differential(l: Value, r: Value) -> bool {
    &&& (l is Differential || r is Differential)
    &&& !(l is Differential && r is MultiVector)
    &&& !(l is MultiVector && r is Differential)
}

/// A bare magnitude and a basis element are refused.
pub open spec fn refuses_alpha_product(l: Value, r: Value) -> bool {
    (l is Magnitude && r is Alpha) || (l is Alpha && r is Magnitude)
}

/// The product of two values that are not refused.
pub open spec fn prod_spec(l: Value, r: Value) -> ValueV {
    match (l, r) {
        (Value::Differential(d), Value::MultiVector(m)) => ValueV::MultiVector(
            sort_by(apply_rows(d.wrt@, m@, ApplyFrom::Left), term_order()),
        ),
        (Value::MultiVector(m), Value::Differential(d)) => ValueV::MultiVector(
            sort_by(apply_rows(d.wrt@, m@, ApplyFrom::Right), term_order()),
        ),
        (Value::Magnitude(a), Value::Magnitude(b)) => ValueV::Magnitude(
            reduce(prod_parts(a@, b@).0, prod_parts(a@, b@).1),
        ),
        (Value::Alpha(a), Value::Alpha(b)) => ValueV::Alpha(alpha_product(a, b)),
        (Value::Magnitude(m), Value::Term(t)) => ValueV::Term(apply_op(TermOp::Scale(m), t@)),
        (Value::Term(t), Value::Magnitude(m)) => ValueV::Term(apply_op(TermOp::Scale(m), t@)),
        (Value::Term(t), Value::Alpha(a)) => ValueV::Term(apply_op(TermOp::TimesAlpha(a), t@)),
        (Value::Alpha(a), Value::Term(t)) => ValueV::Term(apply_op(TermOp::AlphaTimes(a), t@)),
        (Value::Term(a), Value::Term(b)) => ValueV::Term(term_product(a@, b@)),
        (Value::Magnitude(m), Value::MultiVector(v)) => ValueV::MultiVector(sort_by(map_op(TermOp::Scale(m), v@), term_order())),
        (Value::MultiVector(v), Value::Magnitude(m)) => ValueV::MultiVector(sort_by(map_op(TermOp::Scale(m), v@), term_order())),
        _ => ValueV::MultiVector(
            sort_by(full_spec(value_terms(l@), value_terms(r@)), term_order()),
        ),
    }
}

/// The arithmetic of that product fits in machine words.
pub open spec fn prod_ok(l: Value, r: Value) -> bool {
    match (l, r) {
        (Value::Differential(_), Value::MultiVector(_)) => true,
        (Value::MultiVector(_), Value::Differential(_)) => true,
        (Value::Magnitude(a), Value::Magnitude(b)) => mag_wf(a@) && mag_wf(b@) && fits(
            prod_parts(a@, b@),
        ),
        (Value::Alpha(_), Value::Alpha(_)) => true,
        (Value::Magnitude(m), Value::Term(t)) => op_fits(TermOp::Scale(m), t@),
        (Value::Term(t), Value::Magnitude(m)) => op_fits(TermOp::Scale(m), t@),
        (Value::Term(t), Value::Alpha(a)) => op_fits(TermOp::TimesAlpha(a), t@),
        (Value::Alpha(a), Value::Term(t)) => op_fits(TermOp::AlphaTimes(a), t@),
        (Value::Term(a), Value::Term(b)) => mag_wf(a@.magnitude) && mag_wf(b@.magnitude)
            && product_fits(a@, b@),
        (Value::Magnitude(m), Value::MultiVector(v)) => all_fit(TermOp::Scale(m), v@),
        (Value::MultiVector(v), Value::Magnitude(m)) => all_fit(TermOp::Scale(m), v@),
        _ => full_fits(value_terms(l@), value_terms(r@)),
    }
}

/// The product of two values: a differential applies to a multivector from
/// its side; a bare magnitude and a basis element are refused; otherwise
/// the product of the right kind.
pub fn prod_values(lhs: Value, rhs: Value, simplify: bool) -> (r: Result<Value, EvalError>)
    requires
        !refuses_differential(lhs, rhs) && !refuses_alpha_product(lhs, rhs) ==> prod_ok(lhs, rhs)
            && finish_ok(prod_spec(lhs, rhs), simplify),
    ensures
        refuses_differential(lhs, rhs) ==> r == Err::<Value, EvalError>(
            EvalError::InvalidDifferential,
        ),
        !refuses_differential(lhs, rhs) && refuses_alpha_product(lhs, rhs) ==> r == Err::<
            Value,
            EvalError,
        >(EvalError::InvalidAlphaProduct),
        !refuses_differential(lhs, rhs) && !refuses_alpha_product(lhs, rhs) ==> (r matches Ok(x)
            && x@ == finish(prod_spec(lhs, rhs), simplify)),
{
    let ghost (l, r) = (lhs, rhs);
    let is_diff = match (&lhs, &rhs) {
        (Value::Differential(_), Value::MultiVector(_)) => false,
        (Value::MultiVector(_), Value::Differential(_)) => false,
        (Value::Differential(_), _) | (_, Value::Differential(_)) => true,
        _ => false,
    };
    if is_diff {
        return Err(EvalError::InvalidDifferential);
    }
    let is_alpha = match (&lhs, &rhs) {
        (Value::Magnitude(_), Value::Alpha(_)) | (Value::Alpha(_), Value::Magnitude(_)) => true,
        _ => false,
    };
    if is_alpha {
        return Err(EvalError::InvalidAlphaProduct);
    }
    let res = match (lhs, rhs) {
        (Value::Differential(d), Value::MultiVector(m)) => Value::MultiVector(d.left_apply(&m)),
        (Value::MultiVector(m), Value::Differential(d)) => Value::MultiVector(d.right_apply(&m)),
        (Value::Magnitude(a), Value::Magnitude(b)) => Value::Magnitude(a.mul(b)),
        (Value::Alpha(a), Value::Alpha(b)) => Value::Alpha(crate::product::ar_product(&a, &b)),
        (Value::Magnitude(m), Value::Term(t)) => Value::Term(TermOp::Scale(m).apply(&t)),
        (Value::Term(t), Value::Magnitude(m)) => Value::Term(TermOp::Scale(m).apply(&t)),
        (Value::Term(t), Value::Alpha(a)) => Value::Term(TermOp::TimesAlpha(a).apply(&t)),
        (Value::Alpha(a), Value::Term(t)) => Value::Term(TermOp::AlphaTimes(a).apply(&t)),
        (Value::Term(a), Value::Term(b)) => Value::Term(a.form_product_with(&b)),
        (Value::Magnitude(m), Value::MultiVector(v)) => Value::MultiVector(
            MultiVector::from_terms(map_terms(&TermOp::Scale(m), &v.terms)),
        ),
        (Value::MultiVector(v), Value::Magnitude(m)) => Value::MultiVector(
            MultiVector::from_terms(map_terms(&TermOp::Scale(m), &v.terms)),
        ),
        (v1, v2) => {
            let m: MultiVector = full(&v1, &v2);
            Value::MultiVector(m)
        },
    };
    assert(res@ == prod_spec(l, r));
    Ok(finish_value(res, simplify))
}

/// The quotient of two values, where the two kinds can be divided.
pub open spec fn quot_spec(l: Value, r: Value) -> Option<ValueV> {
    match (l, r) {
        (Value::Magnitude(a), Value::Magnitude(b)) => Some(
            ValueV::Magnitude(reduce(quot_parts(a@, b@).0, quot_parts(a@, b@).1)),
        ),
        (Value::Alpha(a), Value::Alpha(b)) => Some(
            ValueV::Alpha(alpha_product(a, alpha_inverse(b))),
        ),
        (Value::Term(a), Value::Term(b)) => Some(ValueV::Term(term_product(a@, term_inverse(b@)))),
        (Value::Magnitude(m), Value::Term(t)) => Some(ValueV::Term(apply_op(TermOp::MagOver(m), t@))),
        (Value::Term(t), Value::Magnitude(m)) => Some(ValueV::Term(apply_op(TermOp::Divide(m), t@))),
        (Value::Term(t), Value::Alpha(a)) => Some(ValueV::Term(apply_op(TermOp::OverAlpha(a), t@))),
        (Value::Alpha(a), Value::Term(t)) => Some(ValueV::Term(apply_op(TermOp::AlphaOver(a), t@))),
        (Value::MultiVector(a), Value::MultiVector(b)) => Some(
            ValueV::MultiVector(sort_by(div_spec(a@, b@, DivideSide::Right), term_order())),
        ),
        (Value::Magnitude(m), Value::MultiVector(v)) => Some(
            ValueV::MultiVector(sort_by(map_op(TermOp::MagOver(m), v@), term_order())),
        ),
        (Value::MultiVector(v), Value::Magnitude(m)) => Some(
            ValueV::MultiVector(sort_by(map_op(TermOp::Divide(m), v@), term_order())),
        ),
        (Value::Alpha(a), Value::MultiVector(v)) => Some(
            ValueV::MultiVector(sort_by(map_op(TermOp::AlphaOver(a), v@), term_order())),
        ),
        (Value::MultiVector(v), Value::Alpha(a)) => Some(
            ValueV::MultiVector(sort_by(map_op(TermOp::OverAlpha(a), v@), term_order())),
        ),
        (Value::Term(t), Value::MultiVector(v)) => Some(
            ValueV::MultiVector(sort_by(map_op(TermOp::TermOver(t), v@), term_order())),
        ),
        (Value::MultiVector(v), Value::Term(t)) => Some(
            ValueV::MultiVector(sort_by(map_op(TermOp::OverTerm(t), v@), term_order())),
        ),
        _ => None,
    }
}

/// That quotient is defined and its arithmetic fits in machine words.
pub open spec fn quot_ok(l: Value, r: Value) -> bool {
    match (l, r) {
        (Value::Magnitude(a), Value::Magnitude(b)) => mag_wf(a@) && mag_wf(b@) && b@.0 > 0 && fits(
            quot_parts(a@, b@),
        ),
        (Value::Alpha(_), Value::Alpha(_)) => true,
        (Value::Term(a), Value::Term(b)) => op_fits(TermOp::OverTerm(b), a@),
        (Value::Magnitude(m), Value::Term(t)) => op_fits(TermOp::MagOver(m), t@),
        (Value::Term(t), Value::Magnitude(m)) => op_fits(TermOp::Divide(m), t@),
        (Value::Term(t), Value::Alpha(a)) => op_fits(TermOp::OverAlpha(a), t@),
        (Value::Alpha(a), Value::Term(t)) => op_fits(TermOp::AlphaOver(a), t@),
        (Value::MultiVector(a), Value::MultiVector(b)) => div_computable(
            a@,
            b@,
            DivideSide::Right,
        ),
        (Value::Magnitude(m), Value::MultiVector(v)) => all_fit(TermOp::MagOver(m), v@),
        (Value::MultiVector(v), Value::Magnitude(m)) => all_fit(TermOp::Divide(m), v@),
        (Value::Alpha(a), Value::MultiVector(v)) => all_fit(TermOp::AlphaOver(a), v@),
        (Value::MultiVector(v), Value::Alpha(a)) => all_fit(TermOp::OverAlpha(a), v@),
        (Value::Term(t), Value::MultiVector(v)) => all_fit(TermOp::TermOver(t), v@),
        (Value::MultiVector(v), Value::Term(t)) => all_fit(TermOp::OverTerm(t), v@),
        _ => true,
    }
}

/// The quotient of two values, or the refusal of the two kinds.
#[verifier::rlimit(80)]
pub fn div_values(lhs: Value, rhs: Value, simplify: bool) -> (r: Result<Value, EvalError>)
    requires
        quot_ok(lhs, rhs),
        quot_spec(lhs, rhs) matches Some(v) ==> finish_ok(v, simplify),
    ensures
        quot_spec(lhs, rhs) matches Some(v) ==> (r matches Ok(x) && x@ == finish(v, simplify)),
        quot_spec(lhs, rhs) is None ==> (r matches Err(EvalError::InvalidOperation(op, sym, a, b))
            && op@ == "division"@ && sym@ == "/"@ && a@ == lhs@ && b@ == rhs@),
{
    let ghost (l, r) = (lhs, rhs);
    let res = match (lhs, rhs) {
        (Value::Magnitude(a), Value::Magnitude(b)) => Value::Magnitude(a.div(b)),
        (Value::Alpha(a), Value::Alpha(b)) => Value::Alpha(a.div(b)),
        (Value::Term(a), Value::Term(b)) => Value::Term(TermOp::OverTerm(b).apply(&a)),
        (Value::Magnitude(m), Value::Term(t)) => Value::Term(TermOp::MagOver(m).apply(&t)),
        (Value::Term(t), Value::Magnitude(m)) => Value::Term(TermOp::Divide(m).apply(&t)),
        (Value::Term(t), Value::Alpha(a)) => Value::Term(TermOp::OverAlpha(a).apply(&t)),
        (Value::Alpha(a), Value::Term(t)) => Value::Term(TermOp::AlphaOver(a).apply(&t)),
        (Value::MultiVector(a), Value::MultiVector(b)) => {
            let q: MultiVector = div_by(&a, &b);
            Value::MultiVector(q)
        },
        (Value::Magnitude(m), Value::MultiVector(v)) => Value::MultiVector(
            MultiVector::from_terms(map_terms(&TermOp::MagOver(m), &v.terms)),
        ),
        (Value::MultiVector(v), Value::Magnitude(m)) => Value::MultiVector(
            MultiVector::from_terms(map_terms(&TermOp::Divide(m), &v.terms)),
        ),
        (Value::Alpha(a), Value::MultiVector(v)) => Value::MultiVector(
            MultiVector::from_terms(map_terms(&TermOp::AlphaOver(a), &v.terms)),
        ),
        (Value::MultiVector(v), Value::Alpha(a)) => Value::MultiVector(
            MultiVector::from_terms(map_terms(&TermOp::OverAlpha(a), &v.terms)),
        ),
        (Value::Term(t), Value::MultiVector(v)) => Value::MultiVector(
            MultiVector::from_terms(map_terms(&TermOp::TermOver(t), &v.terms)),
        ),
        (Value::MultiVector(v), Value::Term(t)) => Value::MultiVector(
            MultiVector::from_terms(map_terms(&TermOp::OverTerm(t), &v.terms)),
        ),
        (v1, v2) => {
            return Err(EvalError::InvalidOperation("division", "/", v1, v2));
        },
    };
    assert(quot_spec(l, r) == Some(res@));
    Ok(finish_value(res, simplify))
}

} // verus!
