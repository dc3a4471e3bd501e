//! The signed product of basis elements.
//!
//! Two routes lead to the product of two signed basis elements. `ar_product`
//! composes their forms as two Klein four-groups (see `Form::product`).
//! `direct_product` works on the axes themselves: repeated axes cancel under
//! the +--- metric, and what remains is reordered to its canonical order,
//! each adjacent swap costing a sign.
use vstd::prelude::*;
use crate::basis::{
    Alpha, Form, Grade, Index, Sign, alpha_product, form_at, form_from_indices, form_grade,
    form_indices, form_rank, sign_mul, sign_neg,
};

verus! {

/// The product of two signed basis elements under the +--- metric.
pub fn ar_product(i: &Alpha, j: &Alpha) -> (r: Alpha)
    ensures
        r == alpha_product(*i, *j),
{
    let (sign, form) = i.form().product(&j.form());
    Alpha::new(i.sign().combine(j.sign()).combine(sign), form)
}

/// The sign that a squared axis contributes: + for the time axis, - for space.
pub open spec fn metric_sign(a: Index) -> Sign {
    if a == Index::Zero {
        Sign::Pos
    } else {
        Sign::Neg
    }
}

/// Whether `x` occurs in `s`.
pub open spec fn has(s: Seq<Index>, x: Index) -> bool
    decreases s.len(),
{
    if s.len() == 0 {
        false
    } else {
        s.last() == x || has(s.drop_last(), x)
    }
}

/// The axes of `a`, in order, that also occur in `b`.
pub open spec fn common_axes(a: Seq<Index>, b: Seq<Index>) -> Seq<Index>
    decreases a.len(),
{
    if a.len() == 0 {
        seq![]
    } else if has(b, a.last()) {
        common_axes(a.drop_last(), b).push(a.last())
    } else {
        common_axes(a.drop_last(), b)
    }
}

/// The first position at or after `from` that holds `x`, or -1.
pub open spec fn find_from(s: Seq<Index>, x: Index, from: int) -> int
    decreases s.len() - from,
{
    if from < 0 || from >= s.len() {
        -1
    } else if s[from] == x {
        from
    } else {
        find_from(s, x, from + 1)
    }
}

/// `s` without the element at position `k`.
pub open spec fn without(s: Seq<Index>, k: int) -> Seq<Index> {
    s.remove(k)
}

/// Cancel one repeated axis `r`: take out its two occurrences, with the
/// metric sign of `r` and a sign for each element that lies between them.
pub open spec fn cancel_one(sign: Sign, axes: Seq<Index>, r: Index) -> (Sign, Seq<Index>) {
    let sign = sign_mul(sign, metric_sign(r));
    let i1 = find_from(axes, r, 0);
    let i2 = find_from(axes, r, i1 + 1);
    if i1 < 0 || i2 < 0 {
        (sign, axes)
    } else {
        let sign = if (i2 - i1 - 1) % 2 == 1 {
            sign_neg(sign)
        } else {
            sign
        };
        (sign, without(without(axes, i2), i1))
    }
}

/// Cancel each of the repeated axes `reps`, from `k` on, in turn.
pub open spec fn cancel_from(sign: Sign, axes: Seq<Index>, reps: Seq<Index>, k: int) -> (
    Sign,
    Seq<Index>,
)
    decreases reps.len() - k,
{
    if k < 0 || k >= reps.len() {
        (sign, axes)
    } else {
        let (s, a) = cancel_one(sign, axes, reps[k]);
        cancel_from(s, a, reps, k + 1)
    }
}

/// The sign and the axes that are left once the axes that `a` and `b` share
/// have cancelled out of `a ++ b`.
pub open spec fn cancel_repeated(a: Seq<Index>, b: Seq<Index>) -> (Sign, Seq<Index>) {
    cancel_from(Sign::Pos, a + b, common_axes(a, b), 0)
}

/// How many times `x` occurs in `s`.
pub open spec fn count_of(s: Seq<Index>, x: Index) -> nat
    decreases s.len(),
{
    if s.len() == 0 {
        0
    } else {
        count_of(s.drop_last(), x) + if s.last() == x {
            1nat
        } else {
            0nat
        }
    }
}

/// `n` copies of `x`.
pub open spec fn copies(x: Index, n: nat) -> Seq<Index>
    decreases n,
{
    if n == 0 {
        seq![]
    } else {
        copies(x, (n - 1) as nat).push(x)
    }
}

/// The axes of `s` in ascending order.
pub open spec fn ascending(s: Seq<Index>) -> Seq<Index> {
    copies(Index::Zero, count_of(s, Index::Zero)) + copies(Index::One, count_of(s, Index::One))
        + copies(Index::Two, count_of(s, Index::Two)) + copies(
        Index::Three,
        count_of(s, Index::Three),
    )
}

/// The canonical order of a set of axes: ascending, except that {1,3} is
/// written [3,1] and {0,1,3} is written [0,3,1].
pub open spec fn target_ordering(s: Seq<Index>) -> Seq<Index> {
    let sorted = ascending(s);
    if sorted == seq![Index::One, Index::Three] {
        seq![Index::Three, Index::One]
    } else if sorted == seq![Index::Zero, Index::One, Index::Three] {
        seq![Index::Zero, Index::Three, Index::One]
    } else {
        sorted
    }
}

/// The position of `x` in `t`, or `t.len()` where it does not occur.
pub open spec fn position_in(t: Seq<Index>, x: Index, from: int) -> int
    decreases t.len() - from,
{
    if from < 0 || from >= t.len() {
        t.len() as int
    } else if t[from] == x {
        from
    } else {
        position_in(t, x, from + 1)
    }
}

/// The positions in `t` of the elements of `s`, from `k` on.
pub open spec fn positions(s: Seq<Index>, t: Seq<Index>) -> Seq<int> {
    Seq::new(s.len(), |k: int| position_in(t, s[k], 0))
}

/// How many of the positions after `k` lie below the one at `k`.
pub open spec fn smaller_after(p: Seq<int>, k: int, m: int) -> nat
    decreases p.len() - m,
{
    if m < 0 || m >= p.len() {
        0
    } else {
        smaller_after(p, k, m + 1) + if p[m] < p[k] {
            1nat
        } else {
            0nat
        }
    }
}

/// Pop each element in turn to its place: each pop over an odd number of
/// the remaining elements negates the sign.
pub open spec fn pops_sign(sign: Sign, p: Seq<int>, k: int) -> Sign
    decreases p.len() - k,
{
    if k < 0 || k >= p.len() {
        sign
    } else {
        let sign = if smaller_after(p, k, k + 1) % 2 == 1 {
            sign_neg(sign)
        } else {
            sign
        };
        pops_sign(sign, p, k + 1)
    }
}

/// The sign of bringing `axes` into their canonical order, and that order.
pub open spec fn reorder(axes: Seq<Index>) -> (Sign, Seq<Index>) {
    let target = target_ordering(axes);
    if target == axes {
        (Sign::Pos, target)
    } else {
        (pops_sign(Sign::Pos, positions(axes, target), 0), target)
    }
}

/// The product of two forms computed on their axes: the sign, and the form
/// of what is left (none where what is left is not a form).
pub open spec fn direct_form_product(f: Form, g: Form) -> (Sign, Option<Form>) {
    if form_grade(f) == Grade::Zero {
        (Sign::Pos, Some(g))
    } else if form_grade(g) == Grade::Zero {
        (Sign::Pos, Some(f))
    } else {
        let (pop_sign, axes) = cancel_repeated(form_indices(f), form_indices(g));
        if axes.len() <= 1 {
            (pop_sign, form_from_indices(axes))
        } else {
            let (order_sign, target) = reorder(axes);
            (sign_mul(pop_sign, order_sign), form_from_indices(target))
        }
    }
}

/// The signed product of two basis elements computed on their axes, or none
/// where the axes that are left do not make one of the sixteen forms.
pub open spec fn direct_product_spec(i: Alpha, j: Alpha) -> Option<Alpha> {
    match direct_form_product(i.form, j.form) {
        (s, Some(f)) => Some(Alpha { sign: sign_mul(sign_mul(i.sign, j.sign), s), form: f }),
        (_, None) => None,
    }
}

/// The product of two signed basis elements, computed step by step on their
/// axes under the +--- metric.
pub fn direct_product(i: &Alpha, j: &Alpha) -> (r: Option<Alpha>)
    ensures
        r == direct_product_spec(*i, *j),
{
    let sign = i.sign().combine(j.sign());
    let i_form = i.form();
    let j_form = j.form();
    if i_form.grade() == Grade::Zero {
        return Some(Alpha::new(sign, j_form));
    }
    if j_form.grade() == Grade::Zero {
        return Some(Alpha::new(sign, i_form));
    }
    let (pop_sign, axes) = pop_and_cancel_repeated_indices(i_form, j_form);
    let sign = sign.combine(pop_sign);
    if axes.len() <= 1 {
        return match Form::try_from_indices(axes.as_slice()) {
            Ok(f) => Some(Alpha::new(sign, f)),
            Err(_) => None,
        };
    }
    let (ordering_sign, target) = pop_to_correct_ordering(&axes);
    let sign = sign.combine(ordering_sign);
    match Form::try_from_indices(target.as_slice()) {
        Ok(f) => Some(Alpha::new(sign, f)),
        Err(_) => None,
    }
}

/// The +--- metric: squaring a space axis negates the sign.
fn apply_metric(s: Sign, a: &Index) -> (r: Sign)
    ensures
        r == sign_mul(s, metric_sign(*a)),
{
    match a {
        Index::Zero => s,
        _ => s.combine(Sign::Neg),
    }
}

fn contains_index(v: &Vec<Index>, x: Index) -> (r: bool)
    ensures
        r == has(v@, x),
{
    let mut found = false;
    let mut k: usize = 0;
    while k < v.len()
        invariant
            k <= v@.len(),
            found == has(v@.subrange(0, k as int), x),
        decreases v@.len() - k,
    {
        proof {
            assert(v@.subrange(0, k + 1).drop_last() =~= v@.subrange(0, k as int));
        }
        if v[k] == x {
            found = true;
        }
        k = k + 1;
    }
    proof {
        assert(v@.subrange(0, v@.len() as int) =~= v@);
    }
    found
}

fn find_index_from(v: &Vec<Index>, x: Index, from: usize) -> (r: Option<usize>)
    ensures
        match r {
            Some(k) => k as int == find_from(v@, x, from as int) && from <= k < v@.len(),
            None => find_from(v@, x, from as int) == -1,
        },
{
    let mut k = from;
    while k < v.len()
        invariant
            from <= k,
            find_from(v@, x, from as int) == find_from(v@, x, k as int),
        decreases v@.len() - k,
    {
        if v[k] == x {
            return Some(k);
        }
        k = k + 1;
    }
    None
}

fn concat_indices(a: &Vec<Index>, b: &Vec<Index>) -> (r: Vec<Index>)
    ensures
        r@ == a@ + b@,
{
    let mut v: Vec<Index> = Vec::new();
    let mut k: usize = 0;
    while k < a.len()
        invariant
            k <= a@.len(),
            v@ == a@.subrange(0, k as int),
        decreases a@.len() - k,
    {
        v.push(a[k]);
        k = k + 1;
    }
    let mut m: usize = 0;
    while m < b.len()
        invariant
            m <= b@.len(),
            v@ == a@ + b@.subrange(0, m as int),
        decreases b@.len() - m,
    {
        v.push(b[m]);
        m = m + 1;
    }
    proof {
        assert(b@.subrange(0, b@.len() as int) =~= b@);
    }
    v
}

/// Cancel the axes that two forms share: the sign that it costs, and the
/// axes that are left, in order.
pub fn pop_and_cancel_repeated_indices(i_form: Form, j_form: Form) -> (r: (Sign, Vec<Index>))
    ensures
        (r.0, r.1@) == cancel_repeated(form_indices(i_form), form_indices(j_form)),
{
    let i_axes = i_form.as_indices();
    let j_axes = j_form.as_indices();
    let mut axes = concat_indices(&i_axes, &j_axes);
    let mut repeated: Vec<Index> = Vec::new();
    let mut k: usize = 0;
    while k < i_axes.len()
        invariant
            k <= i_axes@.len(),
            repeated@ == common_axes(i_axes@.subrange(0, k as int), j_axes@),
        decreases i_axes@.len() - k,
    {
        proof {
            assert(i_axes@.subrange(0, k + 1).drop_last() =~= i_axes@.subrange(0, k as int));
        }
        let a = i_axes[k];
        if contains_index(&j_axes, a) {
            repeated.push(a);
        }
        k = k + 1;
    }
    proof {
        assert(i_axes@.subrange(0, i_axes@.len() as int) =~= i_axes@);
    }
    let ghost reps = repeated@;
    let ghost start = axes@;
    assert(i_axes@.len() <= 4 && j_axes@.len() <= 4);
    let mut sign = Sign::Pos;
    let mut n: usize = 0;
    while n < repeated.len()
        invariant
            n <= reps.len(),
            repeated@ == reps,
            axes@.len() <= 8,
            cancel_from(sign, axes@, reps, n as int) == cancel_from(Sign::Pos, start, reps, 0),
        decreases reps.len() - n,
    {
        let r = repeated[n];
        sign = apply_metric(sign, &r);
        let f1 = find_index_from(&axes, r, 0);
        match f1 {
            Some(i1) => {
                let f2 = find_index_from(&axes, r, i1 + 1);
                match f2 {
                    Some(i2) => {
                        if (i2 - i1 - 1) % 2 == 1 {
                            sign = sign.combine(Sign::Neg);
                        }
                        axes.remove(i2);
                        axes.remove(i1);
                    },
                    None => {},
                }
            },
            None => {},
        }
        n = n + 1;
    }
    (sign, axes)
}

fn count_index(v: &Vec<Index>, x: Index) -> (r: usize)
    ensures
        r == count_of(v@, x),
{
    let mut c: usize = 0;
    let mut k: usize = 0;
    while k < v.len()
        invariant
            k <= v@.len(),
            c == count_of(v@.subrange(0, k as int), x),
            c <= k,
        decreases v@.len() - k,
    {
        proof {
            assert(v@.subrange(0, k + 1).drop_last() =~= v@.subrange(0, k as int));
        }
        if v[k] == x {
            c = c + 1;
        }
        k = k + 1;
    }
    proof {
        assert(v@.subrange(0, v@.len() as int) =~= v@);
    }
    c
}

fn push_copies(v: &mut Vec<Index>, x: Index, n: usize)
    ensures
        final(v)@ == old(v)@ + copies(x, n as nat),
{
    let ghost start = v@;
    let mut m: usize = 0;
    while m < n
        invariant
            m <= n,
            v@ == start + copies(x, m as nat),
        decreases n - m,
    {
        v.push(x);
        proof {
            assert(start + copies(x, (m + 1) as nat) =~= (start + copies(x, m as nat)).push(x));
        }
        m = m + 1;
    }
}

fn same_indices(a: &Vec<Index>, b: &Vec<Index>) -> (r: bool)
    ensures
        r == (a@ == b@),
{
    if a.len() != b.len() {
        return false;
    }
    let mut k: usize = 0;
    while k < a.len()
        invariant
            a@.len() == b@.len(),
            k <= a@.len(),
            forall|m: int| 0 <= m < k ==> a@[m] == b@[m],
        decreases a@.len() - k,
    {
        if a[k] != b[k] {
            return false;
        }
        k = k + 1;
    }
    proof {
        assert(a@ =~= b@);
    }
    true
}

/// The canonical order of a set of axes.
pub fn get_target_ordering(axes: &Vec<Index>) -> (r: Vec<Index>)
    ensures
        r@ == target_ordering(axes@),
{
    let mut sorted: Vec<Index> = Vec::new();
    let c0 = count_index(axes, Index::Zero);
    push_copies(&mut sorted, Index::Zero, c0);
    let c1 = count_index(axes, Index::One);
    push_copies(&mut sorted, Index::One, c1);
    let c2 = count_index(axes, Index::Two);
    push_copies(&mut sorted, Index::Two, c2);
    let c3 = count_index(axes, Index::Three);
    push_copies(&mut sorted, Index::Three, c3);
    proof {
        assert(sorted@ =~= ascending(axes@));
    }
    let one_three = vec![Index::One, Index::Three];
    let zero_one_three = vec![Index::Zero, Index::One, Index::Three];
    proof {
        assert(one_three@ =~= seq![Index::One, Index::Three]);
        assert(zero_one_three@ =~= seq![Index::Zero, Index::One, Index::Three]);
    }
    if same_indices(&sorted, &one_three) {
        let r = vec![Index::Three, Index::One];
        proof {
            assert(r@ =~= seq![Index::Three, Index::One]);
        }
        r
    } else if same_indices(&sorted, &zero_one_three) {
        let r = vec![Index::Zero, Index::Three, Index::One];
        proof {
            assert(r@ =~= seq![Index::Zero, Index::Three, Index::One]);
        }
        r
    } else {
        sorted
    }
}

fn position_of(t: &Vec<Index>, x: Index) -> (r: usize)
    ensures
        r as int == position_in(t@, x, 0),
{
    let mut k: usize = 0;
    while k < t.len()
        invariant
            k <= t@.len(),
            position_in(t@, x, 0) == position_in(t@, x, k as int),
        decreases t@.len() - k,
    {
        if t[k] == x {
            return k;
        }
        k = k + 1;
    }
    t.len()
}

/// The sign of bringing `axes` into their canonical order, and that order.
pub fn pop_to_correct_ordering(axes: &Vec<Index>) -> (r: (Sign, Vec<Index>))
    ensures
        (r.0, r.1@) == reorder(axes@),
{
    let target = get_target_ordering(axes);
    if same_indices(&target, axes) {
        return (Sign::Pos, target);
    }
    let ghost p = positions(axes@, target@);
    let mut pos: Vec<usize> = Vec::new();
    let mut k: usize = 0;
    while k < axes.len()
        invariant
            k <= axes@.len(),
            pos@.len() == k,
            p == positions(axes@, target@),
            forall|m: int| 0 <= m < k ==> #[trigger] pos@[m] as int == p[m],
        decreases axes@.len() - k,
    {
        pos.push(position_of(&target, axes[k]));
        k = k + 1;
    }
    let mut sign = Sign::Pos;
    let mut k: usize = 0;
    while k < pos.len()
        invariant
            k <= pos@.len(),
            pos@.len() == p.len(),
            forall|m: int| 0 <= m < pos@.len() ==> #[trigger] pos@[m] as int == p[m],
            pops_sign(sign, p, k as int) == pops_sign(Sign::Pos, p, 0),
        decreases pos@.len() - k,
    {
        let mut c: usize = 0;
        let mut m: usize = k + 1;
        while m < pos.len()
            invariant
                k < pos@.len(),
                k + 1 <= m <= pos@.len(),
                pos@.len() == p.len(),
                forall|m: int| 0 <= m < pos@.len() ==> #[trigger] pos@[m] as int == p[m],
                c + smaller_after(p, k as int, m as int) == smaller_after(p, k as int, k + 1),
                c <= m,
            decreases pos@.len() - m,
        {
            if pos[m] < pos[k] {
                c = c + 1;
            }
            m = m + 1;
        }
        if c % 2 == 1 {
            sign = sign.combine(Sign::Neg);
        }
        k = k + 1;
    }
    (sign, target)
}

} // verus!

verus! {

/// The signed basis element at position `n` of the order in which the
/// product table lists them: by form, then positive before negative.
pub open spec fn alpha_at(n: int) -> Alpha {
    Alpha {
        sign: if n % 2 == 0 {
            Sign::Pos
        } else {
            Sign::Neg
        },
        form: form_at(n / 2),
    }
}

/// Position of a signed basis element in the order of the product table.
pub open spec fn alpha_rank(a: Alpha) -> int {
    2 * form_rank(a.form) + if a.sign == Sign::Pos {
        0int
    } else {
        1int
    }
}

proof fn lemma_alpha_at_rank(a: Alpha)
    ensures
        0 <= alpha_rank(a) < 32,
        alpha_at(alpha_rank(a)) == a,
{
}

fn alpha_nth(n: usize) -> (r: Alpha)
    requires
        n < 32,
    ensures
        r == alpha_at(n as int),
{
    let sign = if n % 2 == 0 {
        Sign::Pos
    } else {
        Sign::Neg
    };
    match Form::nth(n / 2) {
        Some(f) => Alpha::new(sign, f),
        None => Alpha::new(sign, Form::new(crate::basis::Zet::B, crate::basis::Orientation::e)),
    }
}

fn alpha_index(a: &Alpha) -> (r: usize)
    ensures
        r == alpha_rank(*a),
{
    let f = a.form().rank() as usize;
    match a.sign() {
        Sign::Pos => 2 * f,
        Sign::Neg => 2 * f + 1,
    }
}

/// The full table of products of the 32 signed basis elements, each entry
/// computed once by `direct_product`.
pub struct ProductTable {
    entries: Vec<Option<Alpha>>,
}

impl ProductTable {
    /// Every entry is the direct product of the pair that it stands for.
    pub closed spec fn wf(&self) -> bool {
        &&& self.entries@.len() == 1024
        &&& forall|k: int|
            0 <= k < 1024 ==> #[trigger] self.entries@[k] == direct_product_spec(
                alpha_at(k / 32),
                alpha_at(k % 32),
            )
    }

    /// Compute the products of all ordered pairs of signed basis elements.
    pub fn new() -> (r: ProductTable)
        ensures
            r.wf(),
    {
        let pairs = crate::iters::index_pairs(32, 32);
        let mut entries: Vec<Option<Alpha>> = Vec::new();
        let mut k: usize = 0;
        while k < pairs.len()
            invariant
                pairs@.len() == 1024,
                forall|m: int|
                    0 <= m < 1024 ==> #[trigger] pairs@[m] == ((m / 32) as usize, (m % 32) as usize),
                k <= 1024,
                entries@.len() == k,
                forall|m: int|
                    0 <= m < k ==> #[trigger] entries@[m] == direct_product_spec(
                        alpha_at(m / 32),
                        alpha_at(m % 32),
                    ),
            decreases 1024 - k,
        {
            let (a, b) = pairs[k];
            let l = alpha_nth(a);
            let r = alpha_nth(b);
            entries.push(direct_product(&l, &r));
            k = k + 1;
        }
        ProductTable { entries }
    }

    /// How many products the table holds.
    pub fn len(&self) -> (r: usize)
        requires
            self.wf(),
        ensures
            r == 1024,
    {
        self.entries.len()
    }

    /// The product of `i` and `j`, read from the table.
    pub fn lookup(&self, i: &Alpha, j: &Alpha) -> (r: Option<Alpha>)
        requires
            self.wf(),
        ensures
            r == direct_product_spec(*i, *j),
    {
        let a = alpha_index(i);
        let b = alpha_index(j);
        proof {
            lemma_alpha_at_rank(*i);
            lemma_alpha_at_rank(*j);
            let k = 32 * a + b;
            assert(k / 32 == a && k % 32 == b) by (nonlinear_arith)
                requires
                    k == 32 * a + b,
                    0 <= b < 32,
                    0 <= a,
            ;
        }
        self.entries[32 * a + b]
    }
}

/// Build the table of products and return its size, which is always 1024.
pub fn init_product_cache() -> (r: usize)
    ensures
        r == 1024,
{
    let table = ProductTable::new();
    table.len()
}

} // verus!
