//! Symbolic coefficients: named symbols, products and quotients of them, and
//! the partial derivatives applied to them.
use vstd::prelude::*;
use core::cmp::Ordering;
use crate::basis::{Form, cmp_int, form_rank};
use crate::order::{lemma_insert_at, sort_by};
use crate::iters::{join_strings, joined};

verus! {

/// A symbolic coefficient: a leaf named by `value`, or (with no name) the
/// product of `child_num` over the product of `child_den`; `partials` lists
/// the derivatives applied to it.
#[derive(Debug, PartialEq, Eq, Hash)]
pub struct Xi {
    pub value: Option<String>,
    pub partials: Vec<Form>,
    pub child_num: Vec<Xi>,
    pub child_den: Vec<Xi>,
}

/// The mathematical content of a coefficient tree.
pub struct XiV {
    pub value: Option<Seq<char>>,
    pub partials: Seq<Form>,
    pub num: Seq<XiV>,
    pub den: Seq<XiV>,
}

/// The characters of a name, if there is one.
pub open spec fn name_view(v: Option<String>) -> Option<Seq<char>> {
    match v {
        Some(s) => Some(s@),
        None => None,
    }
}

/// The views of the trees of `s`, from position `k` on.
pub open spec fn xis_view_from(s: Seq<Xi>, k: int) -> Seq<XiV>
    decreases s, s.len() - k,
{
    if k < 0 || k >= s.len() {
        seq![]
    } else {
        seq![xi_view(s[k])] + xis_view_from(s, k + 1)
    }
}

/// The views of a list of trees.
pub open spec fn xis_view(s: Seq<Xi>) -> Seq<XiV> {
    xis_view_from(s, 0)
}

/// The view of a tree.
pub open spec fn xi_view(x: Xi) -> XiV
    decreases x, 0int,
{
    XiV {
        value: name_view(x.value),
        partials: x.partials@,
        num: xis_view_from(x.child_num@, 0),
        den: xis_view_from(x.child_den@, 0),
    }
}

impl View for Xi {
    type V = XiV;

    open spec fn view(&self) -> XiV {
        xi_view(*self)
    }
}

/// The view of a list of trees has one view per tree, in order.
pub proof fn lemma_xis_view(s: Seq<Xi>)
    ensures
        xis_view(s).len() == s.len(),
        forall|m: int| 0 <= m < s.len() ==> #[trigger] xis_view(s)[m] == s[m]@,
{
    lemma_xis_view_from(s, 0);
    assert forall|m: int| 0 <= m < s.len() implies #[trigger] xis_view(s)[m] == s[m]@ by {
        assert(xis_view_from(s, 0)[m - 0] == s[m]@);
    }
}

proof fn lemma_xis_view_from(s: Seq<Xi>, k: int)
    requires
        0 <= k <= s.len(),
    ensures
        xis_view_from(s, k).len() == s.len() - k,
        forall|m: int| k <= m < s.len() ==> #[trigger] xis_view_from(s, k)[m - k] == s[m]@,
    decreases s.len() - k,
{
    if k < s.len() {
        lemma_xis_view_from(s, k + 1);
        assert forall|m: int| k <= m < s.len() implies #[trigger] xis_view_from(s, k)[m - k]
            == s[m]@ by {
            if m > k {
                assert(xis_view_from(s, k)[m - k] == xis_view_from(s, k + 1)[m - (k + 1)]);
            }
        }
    }
}

/// Lexicographic comparison of two character sequences from position `k`.
pub open spec fn chars_cmp(a: Seq<char>, b: Seq<char>, k: int) -> Ordering
    decreases a.len() - k,
{
    if k < 0 || (k >= a.len() && k >= b.len()) {
        Ordering::Equal
    } else if k >= a.len() {
        Ordering::Less
    } else if k >= b.len() {
        Ordering::Greater
    } else if a[k] != b[k] {
        cmp_int(a[k] as int, b[k] as int)
    } else {
        chars_cmp(a, b, k + 1)
    }
}

/// Lexicographic comparison of two lists of forms from position `k`.
pub open spec fn forms_cmp(a: Seq<Form>, b: Seq<Form>, k: int) -> Ordering
    decreases a.len() - k,
{
    if k < 0 || (k >= a.len() && k >= b.len()) {
        Ordering::Equal
    } else if k >= a.len() {
        Ordering::Less
    } else if k >= b.len() {
        Ordering::Greater
    } else if a[k] != b[k] {
        cmp_int(form_rank(a[k]), form_rank(b[k]))
    } else {
        forms_cmp(a, b, k + 1)
    }
}

/// The sixteen names of the basis elements, in canonical order.
pub open spec fn basis_names() -> Seq<Seq<char>> {
    seq![
        "p"@,
        "23"@,
        "31"@,
        "12"@,
        "0"@,
        "023"@,
        "031"@,
        "012"@,
        "123"@,
        "1"@,
        "2"@,
        "3"@,
        "0123"@,
        "01"@,
        "02"@,
        "03"@,
    ]
}

/// The position of `s` among the basis names from `k` on, or 16.
pub open spec fn name_rank(s: Seq<char>, k: int) -> int
    decreases 16 - k,
{
    if k < 0 || k >= 16 {
        16
    } else if basis_names()[k] == s {
        k
    } else {
        name_rank(s, k + 1)
    }
}

/// Names compare by their place among the basis names, those that are not
/// basis names after those that are, and among themselves lexicographically.
/// Where either name is missing they compare equal.
pub open spec fn name_cmp(a: Option<Seq<char>>, b: Option<Seq<char>>) -> Ordering {
    match (a, b) {
        (Some(l), Some(r)) => {
            let (i1, i2) = (name_rank(l, 0), name_rank(r, 0));
            if i1 < 16 && i2 < 16 {
                cmp_int(i1, i2)
            } else if i1 < 16 {
                Ordering::Less
            } else if i2 < 16 {
                Ordering::Greater
            } else {
                chars_cmp(l, r, 0)
            }
        },
        _ => Ordering::Equal,
    }
}

/// The canonical order of coefficient trees: by name, then numerator
/// children, then denominator children, then partials.
pub open spec fn xi_cmp(a: XiV, b: XiV) -> Ordering
    decreases a, 0int,
{
    let c1 = name_cmp(a.value, b.value);
    if c1 != Ordering::Equal {
        c1
    } else {
        let c2 = xis_cmp(a.num, b.num, 0);
        if c2 != Ordering::Equal {
            c2
        } else {
            let c3 = xis_cmp(a.den, b.den, 0);
            if c3 != Ordering::Equal {
                c3
            } else {
                forms_cmp(a.partials, b.partials, 0)
            }
        }
    }
}

/// Lexicographic comparison of two lists of trees from position `k`.
pub open spec fn xis_cmp(a: Seq<XiV>, b: Seq<XiV>, k: int) -> Ordering
    decreases a, a.len() - k,
{
    if k < 0 || (k >= a.len() && k >= b.len()) {
        Ordering::Equal
    } else if k >= a.len() {
        Ordering::Less
    } else if k >= b.len() {
        Ordering::Greater
    } else {
        let c = xi_cmp(a[k], b[k]);
        if c != Ordering::Equal {
            c
        } else {
            xis_cmp(a, b, k + 1)
        }
    }
}

/// `a` may come before `b` in the canonical order of trees.
pub open spec fn xi_le(a: XiV, b: XiV) -> bool {
    xi_cmp(a, b) != Ordering::Greater
}

/// The canonical order of trees, as a relation.
pub open spec fn xi_order() -> spec_fn(XiV, XiV) -> bool {
    |a: XiV, b: XiV| xi_le(a, b)
}

/// Forms in canonical order.
pub open spec fn form_le(a: Form, b: Form) -> bool {
    form_rank(a) <= form_rank(b)
}

/// The canonical order of forms, as a relation.
pub open spec fn form_order() -> spec_fn(Form, Form) -> bool {
    |a: Form, b: Form| form_le(a, b)
}

/// A leaf with the given name and nothing else.
pub open spec fn leaf(name: Seq<char>) -> XiV {
    XiV { value: Some(name), partials: seq![], num: seq![], den: seq![] }
}

/// The tree with no name, partials or children.
pub open spec fn empty_xi() -> XiV {
    XiV { value: None, partials: seq![], num: seq![], den: seq![] }
}

/// A nameless tree without partials: merging flattens it into its parent.
pub open spec fn is_bare(x: XiV) -> bool {
    x.value is None && x.partials.len() == 0
}

/// The numerator children that merging `xs` collects: the numerator
/// children of each bare tree, and each other tree itself.
pub open spec fn merged_num(xs: Seq<XiV>) -> Seq<XiV>
    decreases xs.len(),
{
    if xs.len() == 0 {
        seq![]
    } else {
        merged_num(xs.drop_last()) + if is_bare(xs.last()) {
            xs.last().num
        } else {
            seq![xs.last()]
        }
    }
}

/// The denominator children that merging `xs` collects: those of each bare tree.
pub open spec fn merged_den(xs: Seq<XiV>) -> Seq<XiV>
    decreases xs.len(),
{
    if xs.len() == 0 {
        seq![]
    } else {
        merged_den(xs.drop_last()) + if is_bare(xs.last()) {
            xs.last().den
        } else {
            seq![]
        }
    }
}

/// The product of a list of trees: one nameless tree whose children are
/// those collected from the inputs, each list in canonical order.
pub open spec fn xi_merge(xs: Seq<XiV>) -> XiV {
    XiV {
        value: None,
        partials: seq![],
        num: sort_by(merged_num(xs), xi_order()),
        den: sort_by(merged_den(xs), xi_order()),
    }
}

/// The multiplicative inverse: numerator and denominator swap places.
pub open spec fn xi_inverse(x: XiV) -> XiV {
    XiV { value: x.value, partials: x.partials, num: x.den, den: x.num }
}

/// The digit of an axis.
pub open spec fn index_char(i: crate::basis::Index) -> char {
    match i {
        crate::basis::Index::Zero => '0',
        crate::basis::Index::One => '1',
        crate::basis::Index::Two => '2',
        crate::basis::Index::Three => '3',
    }
}

/// The name of a form: "p" for the point, otherwise the digits of its axes.
pub open spec fn form_name(f: Form) -> Seq<char> {
    if f == crate::basis::point() {
        "p"@
    } else {
        Seq::new(
            crate::basis::form_indices(f).len(),
            |k: int| index_char(crate::basis::form_indices(f)[k]),
        )
    }
}

/// The partial derivative markers: "∂" and the form's name, for each form.
pub open spec fn partials_str(s: Seq<Form>) -> Seq<char>
    decreases s.len(),
{
    if s.len() == 0 {
        seq![]
    } else {
        partials_str(s.drop_last()) + "∂"@ + form_name(s.last())
    }
}

/// The decimal digit of `d < 10`.
pub open spec fn digit_char(d: nat) -> char {
    if d == 0 {
        '0'
    } else if d == 1 {
        '1'
    } else if d == 2 {
        '2'
    } else if d == 3 {
        '3'
    } else if d == 4 {
        '4'
    } else if d == 5 {
        '5'
    } else if d == 6 {
        '6'
    } else if d == 7 {
        '7'
    } else if d == 8 {
        '8'
    } else {
        '9'
    }
}

/// The decimal representation of `n`.
pub open spec fn decimal(n: nat) -> Seq<char>
    decreases n,
{
    if n < 10 {
        seq![digit_char(n)]
    } else {
        decimal(n / 10).push(digit_char(n % 10))
    }
}

/// Each tree of `s` from position `k` on, paired with its written form.
pub open spec fn rendered_from(s: Seq<XiV>, k: int) -> Seq<(XiV, Seq<char>)>
    decreases s, s.len() - k,
{
    if k < 0 || k >= s.len() {
        seq![]
    } else {
        seq![(s[k], xi_render(s[k]))] + rendered_from(s, k + 1)
    }
}

/// Written trees in the canonical order of the trees.
pub open spec fn pair_order() -> spec_fn((XiV, Seq<char>), (XiV, Seq<char>)) -> bool {
    |a: (XiV, Seq<char>), b: (XiV, Seq<char>)| xi_le(a.0, b.0)
}

/// How many of the trees of `p` equal `x`.
pub open spec fn count_equal(p: Seq<(XiV, Seq<char>)>, x: XiV) -> nat
    decreases p.len(),
{
    if p.len() == 0 {
        0
    } else {
        count_equal(p.drop_last(), x) + if p.last().0 == x {
            1nat
        } else {
            0nat
        }
    }
}

/// The tree at position `k` of `p` already occurs before it.
pub open spec fn seen_before(p: Seq<(XiV, Seq<char>)>, k: int) -> bool {
    exists|j: int| 0 <= j < k && #[trigger] p[j].0 == p[k].0
}

/// A written tree, with `^n` where it occurs `n > 1` times.
pub open spec fn power_piece(r: Seq<char>, n: nat) -> Seq<char> {
    if n <= 1 {
        r
    } else {
        r + "^"@ + decimal(n)
    }
}

/// From position `k` of `sorted` on, one piece for each tree not seen
/// before, counted over all of `all`.
pub open spec fn group_pieces(
    sorted: Seq<(XiV, Seq<char>)>,
    all: Seq<(XiV, Seq<char>)>,
    k: int,
) -> Seq<Seq<char>>
    decreases sorted.len() - k,
{
    if k < 0 || k >= sorted.len() {
        seq![]
    } else {
        (if seen_before(sorted, k) {
            seq![]
        } else {
            seq![power_piece(sorted[k].1, count_equal(all, sorted[k].0))]
        }) + group_pieces(sorted, all, k + 1)
    }
}

/// The children grouped by value: each distinct tree written once, with
/// `^count` where it repeats, in the canonical order of trees, joined by ".".
pub open spec fn power_notation_spec(all: Seq<(XiV, Seq<char>)>) -> Seq<char> {
    joined(group_pieces(sort_by(all, pair_order()), all, 0), "."@)
}

/// The written form of a tree: a leaf is its partials, "ξ" and its name; a
/// product is its grouped numerator children, over its grouped denominator
/// children where there are any ("1/" and the denominator where there is no
/// numerator), wrapped in its partials where there are any.
pub open spec fn xi_render(x: XiV) -> Seq<char>
    decreases x, 0int,
{
    match x.value {
        Some(v) => partials_str(x.partials) + "ξ"@ + v,
        None => {
            let num = power_notation_spec(rendered_from(x.num, 0));
            let den = power_notation_spec(rendered_from(x.den, 0));
            let body = if x.den.len() == 0 {
                num
            } else if x.num.len() == 0 {
                "1/"@ + den
            } else {
                num + "/"@ + den
            };
            if x.partials.len() == 0 {
                body
            } else {
                partials_str(x.partials) + "("@ + body + ")"@
            }
        },
    }
}

/// A tree can be written: no product in it is empty.
pub open spec fn renderable(x: XiV) -> bool
    decreases x, 0int,
{
    match x.value {
        Some(_) => true,
        None => (x.num.len() > 0 || x.den.len() > 0) && all_renderable(x.num, 0)
            && all_renderable(x.den, 0),
    }
}

/// Every tree of `s` from position `k` on can be written.
pub open spec fn all_renderable(s: Seq<XiV>, k: int) -> bool
    decreases s, s.len() - k,
{
    if k < 0 || k >= s.len() {
        true
    } else {
        renderable(s[k]) && all_renderable(s, k + 1)
    }
}



/// Two lists of trees with the same views, element by element, have the same view.
pub proof fn lemma_xis_view_eq(s: Seq<Xi>, t: Seq<XiV>)
    requires
        s.len() == t.len(),
        forall|m: int| 0 <= m < s.len() ==> #[trigger] s[m]@ == t[m],
    ensures
        xis_view(s) == t,
{
    lemma_xis_view(s);
    assert(xis_view(s) =~= t);
}

proof fn lemma_all_renderable(s: Seq<XiV>, j: int)
    requires
        0 <= j,
        all_renderable(s, j),
    ensures
        forall|m: int| j <= m < s.len() ==> #[trigger] renderable(s[m]),
    decreases s.len() - j,
{
    if j < s.len() {
        lemma_all_renderable(s, j + 1);
    }
}

fn copy_string(s: &String) -> (r: String)
    ensures
        r == *s,
{
    s.clone()
}

fn copy_forms(v: &Vec<Form>) -> (r: Vec<Form>)
    ensures
        r@ == v@,
{
    let mut out: Vec<Form> = Vec::new();
    let mut k: usize = 0;
    while k < v.len()
        invariant
            k <= v@.len(),
            out@ == v@.subrange(0, k as int),
        decreases v@.len() - k,
    {
        out.push(v[k]);
        k = k + 1;
    }
    proof {
        assert(out@ =~= v@);
    }
    out
}

/// Append copies of the trees of `src` to `dst`.
fn extend_copies(dst: &mut Vec<Xi>, src: &Vec<Xi>)
    ensures
        xis_view(final(dst)@) == xis_view(old(dst)@) + xis_view(src@),
    decreases src@, 1int,
{
    let ghost start = xis_view(dst@);
    let ghost n0 = dst@.len();
    proof {
        lemma_xis_view(dst@);
        lemma_xis_view(src@);
    }
    let mut k: usize = 0;
    while k < src.len()
        invariant
            k <= src@.len(),
            dst@.len() == n0 + k,
            start.len() == n0,
            forall|m: int| 0 <= m < n0 ==> #[trigger] dst@[m]@ == start[m],
            forall|m: int| 0 <= m < k ==> #[trigger] dst@[n0 + m]@ == src@[m]@,
        decreases src@.len() - k,
    {
        dst.push(src[k].copy());
        k = k + 1;
    }
    proof {
        lemma_xis_view(src@);
        let t = start + xis_view(src@);
        assert forall|m: int| 0 <= m < dst@.len() implies #[trigger] dst@[m]@ == t[m] by {
            if m >= n0 {
                assert(dst@[n0 + (m - n0)]@ == src@[m - n0]@);
            }
        }
        lemma_xis_view_eq(dst@, t);
    }
}

fn copy_xis(v: &Vec<Xi>) -> (r: Vec<Xi>)
    ensures
        xis_view(r@) == xis_view(v@),
    decreases v@, 2int,
{
    let mut out: Vec<Xi> = Vec::new();
    proof {
        lemma_xis_view(out@);
        assert(xis_view(out@) =~= seq![]);
    }
    extend_copies(&mut out, v);
    proof {
        assert(seq![] + xis_view(v@) =~= xis_view(v@));
    }
    out
}

/// Compare two strings character by character.
pub fn compare_chars(a: &str, b: &str) -> (r: Ordering)
    ensures
        r == chars_cmp(a@, b@, 0),
{
    let n = a.unicode_len();
    let m = b.unicode_len();
    let mut k: usize = 0;
    while k < n && k < m
        invariant
            n == a@.len(),
            m == b@.len(),
            k <= n,
            k <= m,
            chars_cmp(a@, b@, 0) == chars_cmp(a@, b@, k as int),
        decreases n - k,
    {
        let x = a.get_char(k);
        let y = b.get_char(k);
        if x != y {
            if (x as u32) < (y as u32) {
                return Ordering::Less;
            } else {
                return Ordering::Greater;
            }
        }
        k = k + 1;
    }
    if k >= n && k >= m {
        Ordering::Equal
    } else if k >= n {
        Ordering::Less
    } else {
        Ordering::Greater
    }
}

proof fn lemma_chars_cmp_equal(a: Seq<char>, b: Seq<char>, k: int)
    requires
        0 <= k <= a.len(),
        k <= b.len(),
        a.subrange(0, k) == b.subrange(0, k),
    ensures
        (chars_cmp(a, b, k) == Ordering::Equal) == (a == b),
    decreases a.len() - k,
{
    if k >= a.len() && k >= b.len() {
        assert(a =~= a.subrange(0, k));
        assert(b =~= b.subrange(0, k));
    } else if k >= a.len() || k >= b.len() {
        assert(a.len() != b.len());
    } else if a[k] != b[k] {
    } else {
        assert(a.subrange(0, k + 1) =~= a.subrange(0, k).push(a[k]));
        assert(b.subrange(0, k + 1) =~= b.subrange(0, k).push(b[k]));
        lemma_chars_cmp_equal(a, b, k + 1);
    }
}

proof fn lemma_forms_cmp_equal(a: Seq<Form>, b: Seq<Form>, k: int)
    requires
        0 <= k <= a.len(),
        k <= b.len(),
        a.subrange(0, k) == b.subrange(0, k),
    ensures
        (forms_cmp(a, b, k) == Ordering::Equal) == (a == b),
    decreases a.len() - k,
{
    if k >= a.len() && k >= b.len() {
        assert(a =~= a.subrange(0, k));
        assert(b =~= b.subrange(0, k));
    } else if k >= a.len() || k >= b.len() {
        assert(a.len() != b.len());
    } else if a[k] != b[k] {
        assert(form_rank(a[k]) != form_rank(b[k]));
    } else {
        assert(a.subrange(0, k + 1) =~= a.subrange(0, k).push(a[k]));
        assert(b.subrange(0, k + 1) =~= b.subrange(0, k).push(b[k]));
        lemma_forms_cmp_equal(a, b, k + 1);
    }
}

/// Whether two strings hold the same characters.
pub fn same_chars(a: &str, b: &str) -> (r: bool)
    ensures
        r == (a@ == b@),
{
    let c = compare_chars(a, b);
    proof {
        assert(a@.subrange(0, 0) =~= b@.subrange(0, 0));
        lemma_chars_cmp_equal(a@, b@, 0);
    }
    match c {
        Ordering::Equal => true,
        _ => false,
    }
}

/// The position of a name among the basis names, or 16.
pub fn basis_name_rank(s: &str) -> (r: usize)
    ensures
        r == name_rank(s@, 0),
{
    let names = [
        "p",
        "23",
        "31",
        "12",
        "0",
        "023",
        "031",
        "012",
        "123",
        "1",
        "2",
        "3",
        "0123",
        "01",
        "02",
        "03",
    ];
    let ghost table = basis_names();
    assert(names@.len() == 16);
    assert(forall|m: int| 0 <= m < 16 ==> #[trigger] names@[m]@ == table[m]);
    let mut k: usize = 0;
    while k < 16
        invariant
            k <= 16,
            names@.len() == 16,
            name_rank(s@, 0) == name_rank(s@, k as int),
            forall|m: int| 0 <= m < 16 ==> #[trigger] names@[m]@ == table[m],
            table == basis_names(),
        decreases 16 - k,
    {
        if same_chars(s, names[k]) {
            return k;
        }
        k = k + 1;
    }
    16
}

fn compare_names(a: &Option<String>, b: &Option<String>) -> (r: Ordering)
    ensures
        r == name_cmp(name_view(*a), name_view(*b)),
{
    match (a, b) {
        (Some(l), Some(r)) => {
            let i1 = basis_name_rank(l.as_str());
            let i2 = basis_name_rank(r.as_str());
            if i1 < 16 && i2 < 16 {
                if i1 < i2 {
                    Ordering::Less
                } else if i1 == i2 {
                    Ordering::Equal
                } else {
                    Ordering::Greater
                }
            } else if i1 < 16 {
                Ordering::Less
            } else if i2 < 16 {
                Ordering::Greater
            } else {
                compare_chars(l.as_str(), r.as_str())
            }
        },
        _ => Ordering::Equal,
    }
}

fn compare_forms(a: &Vec<Form>, b: &Vec<Form>) -> (r: Ordering)
    ensures
        r == forms_cmp(a@, b@, 0),
{
    let mut k: usize = 0;
    while k < a.len() && k < b.len()
        invariant
            k <= a@.len(),
            k <= b@.len(),
            forms_cmp(a@, b@, 0) == forms_cmp(a@, b@, k as int),
        decreases a@.len() - k,
    {
        if a[k] != b[k] {
            return a[k].compare(&b[k]);
        }
        k = k + 1;
    }
    if k >= a.len() && k >= b.len() {
        Ordering::Equal
    } else if k >= a.len() {
        Ordering::Less
    } else {
        Ordering::Greater
    }
}

fn compare_xis(a: &Vec<Xi>, b: &Vec<Xi>) -> (r: Ordering)
    ensures
        r == xis_cmp(xis_view(a@), xis_view(b@), 0),
    decreases a@, 0int,
{
    let ghost va = xis_view(a@);
    let ghost vb = xis_view(b@);
    proof {
        lemma_xis_view(a@);
        lemma_xis_view(b@);
    }
    let mut k: usize = 0;
    while k < a.len() && k < b.len()
        invariant
            k <= a@.len(),
            k <= b@.len(),
            va == xis_view(a@),
            vb == xis_view(b@),
            va.len() == a@.len(),
            vb.len() == b@.len(),
            forall|m: int| 0 <= m < a@.len() ==> #[trigger] va[m] == a@[m]@,
            forall|m: int| 0 <= m < b@.len() ==> #[trigger] vb[m] == b@[m]@,
            xis_cmp(va, vb, 0) == xis_cmp(va, vb, k as int),
        decreases a@.len() - k,
    {
        let c = a[k].compare(&b[k]);
        match c {
            Ordering::Equal => {},
            _ => {
                return c;
            },
        }
        k = k + 1;
    }
    if k >= a.len() && k >= b.len() {
        Ordering::Equal
    } else if k >= a.len() {
        Ordering::Less
    } else {
        Ordering::Greater
    }
}

fn same_xis(a: &Vec<Xi>, b: &Vec<Xi>) -> (r: bool)
    ensures
        r == (xis_view(a@) == xis_view(b@)),
    decreases a@, 0int,
{
    proof {
        lemma_xis_view(a@);
        lemma_xis_view(b@);
    }
    if a.len() != b.len() {
        return false;
    }
    let mut k: usize = 0;
    while k < a.len()
        invariant
            a@.len() == b@.len(),
            k <= a@.len(),
            xis_view(a@).len() == a@.len(),
            xis_view(b@).len() == b@.len(),
            forall|m: int| 0 <= m < a@.len() ==> #[trigger] xis_view(a@)[m] == a@[m]@,
            forall|m: int| 0 <= m < b@.len() ==> #[trigger] xis_view(b@)[m] == b@[m]@,
            forall|m: int| 0 <= m < k ==> #[trigger] a@[m]@ == b@[m]@,
        decreases a@.len() - k,
    {
        if !a[k].same(&b[k]) {
            assert(xis_view(a@)[k as int] != xis_view(b@)[k as int]);
            return false;
        }
        k = k + 1;
    }
    proof {
        assert(xis_view(a@) =~= xis_view(b@));
    }
    true
}

/// Whether an ordering says "greater".
pub fn is_greater(o: Ordering) -> (r: bool)
    ensures
        r == (o == Ordering::Greater),
{
    match o {
        Ordering::Greater => true,
        _ => false,
    }
}

/// Whether every tree of the list can be written.
fn all_renderable_vec(v: &Vec<Xi>) -> (r: bool)
    ensures
        r == all_renderable(xis_view(v@), 0),
    decreases v@, 0int,
{
    let ghost s = xis_view(v@);
    proof {
        lemma_xis_view(v@);
    }
    let mut k: usize = 0;
    while k < v.len()
        invariant
            s == xis_view(v@),
            s.len() == v@.len(),
            forall|m: int| 0 <= m < v@.len() ==> #[trigger] s[m] == v@[m]@,
            k <= v@.len(),
            all_renderable(s, 0) == all_renderable(s, k as int),
        decreases v@.len() - k,
    {
        assert(s[k as int] == v@[k as int]@);
        if !v[k].is_renderable() {
            return false;
        }
        k = k + 1;
    }
    true
}

/// Sort forms into canonical order.
pub fn sort_forms(v: &Vec<Form>) -> (r: Vec<Form>)
    ensures
        r@ == sort_by(v@, form_order()),
{
    let mut out: Vec<Form> = Vec::new();
    let mut k: usize = 0;
    while k < v.len()
        invariant
            k <= v@.len(),
            out@ == sort_by(v@.subrange(0, k as int), form_order()),
        decreases v@.len() - k,
    {
        let x = v[k];
        let mut m = out.len();
        while m > 0 && out[m - 1].rank() > x.rank()
            invariant
                m <= out@.len(),
                forall|j: int| m <= j < out@.len() ==> !form_le(#[trigger] out@[j], x),
            decreases m,
        {
            m = m - 1;
        }
        proof {
            lemma_insert_at(out@, x, form_order(), m as int);
            assert(v@.subrange(0, k + 1).drop_last() =~= v@.subrange(0, k as int));
        }
        out.insert(m, x);
        k = k + 1;
    }
    proof {
        assert(v@.subrange(0, v@.len() as int) =~= v@);
    }
    out
}

/// Sort trees into canonical order.
pub fn sort_xis(v: Vec<Xi>) -> (r: Vec<Xi>)
    ensures
        xis_view(r@) == sort_by(xis_view(v@), xi_order()),
{
    let ghost all = xis_view(v@);
    let ghost n = v@.len();
    proof {
        lemma_xis_view(v@);
    }
    let mut rest = v;
    let mut out: Vec<Xi> = Vec::new();
    proof {
        lemma_xis_view(out@);
        assert(xis_view(out@) =~= seq![]);
        assert(all.subrange(0, 0) =~= seq![]);
    }
    while rest.len() > 0
        invariant
            n == all.len(),
            rest@.len() <= n,
            forall|m: int| 0 <= m < rest@.len() ==> #[trigger] rest@[m]@ == all[n - rest@.len() + m],
            xis_view(out@) == sort_by(all.subrange(0, n - rest@.len()), xi_order()),
        decreases rest@.len(),
    {
        let ghost k = n - rest@.len();
        let x = rest.remove(0);
        proof {
            lemma_xis_view(out@);
        }
        let mut m = out.len();
        while m > 0 && is_greater(out[m - 1].compare(&x))
            invariant
                m <= out@.len(),
                xis_view(out@).len() == out@.len(),
                forall|j: int| 0 <= j < out@.len() ==> #[trigger] xis_view(out@)[j] == out@[j]@,
                forall|j: int| m <= j < out@.len() ==> !xi_le(#[trigger] xis_view(out@)[j], x@),
            decreases m,
        {
            m = m - 1;
        }
        proof {
            let s = xis_view(out@);
            lemma_insert_at(s, x@, xi_order(), m as int);
            assert(all.subrange(0, k + 1).drop_last() =~= all.subrange(0, k));
            assert(all[k] == x@);
            let t = s.insert(m as int, x@);
            assert(out@.insert(m as int, x).len() == t.len());
            assert forall|j: int| 0 <= j < t.len() implies #[trigger] out@.insert(m as int, x)[j]@
                == t[j] by {
                if j < m {
                } else if j == m {
                } else {
                    assert(out@.insert(m as int, x)[j] == out@[j - 1]);
                }
            }
            lemma_xis_view_eq(out@.insert(m as int, x), t);
        }
        out.insert(m, x);
    }
    proof {
        assert(all.subrange(0, n as int) =~= all);
    }
    out
}

impl Xi {
    /// A copy of this tree.
    pub fn copy(&self) -> (r: Xi)
        ensures
            r@ == self@,
        decreases *self, 3int,
    {
        let value = match &self.value {
            Some(s) => Some(copy_string(s)),
            None => None,
        };
        Xi {
            value,
            partials: copy_forms(&self.partials),
            child_num: copy_xis(&self.child_num),
            child_den: copy_xis(&self.child_den),
        }
    }

    /// Whether this tree can be written: no product in it is empty.
    pub fn is_renderable(&self) -> (r: bool)
        ensures
            r == renderable(self@),
        decreases *self, 1int,
    {
        match &self.value {
            Some(_) => true,
            None => (self.child_num.len() > 0 || self.child_den.len() > 0) && all_renderable_vec(
                &self.child_num,
            ) && all_renderable_vec(&self.child_den),
        }
    }

    /// Whether two trees are the same.
    pub fn same(&self, other: &Xi) -> (r: bool)
        ensures
            r == (self@ == other@),
        decreases *self, 1int,
    {
        let names = match (&self.value, &other.value) {
            (Some(l), Some(r)) => same_chars(l.as_str(), r.as_str()),
            (None, None) => true,
            _ => false,
        };
        let partials = match compare_forms(&self.partials, &other.partials) {
            Ordering::Equal => true,
            _ => false,
        };
        proof {
            assert(self.partials@.subrange(0, 0) =~= other.partials@.subrange(0, 0));
            lemma_forms_cmp_equal(self.partials@, other.partials@, 0);
        }
        names && partials && same_xis(&self.child_num, &other.child_num) && same_xis(
            &self.child_den,
            &other.child_den,
        )
    }

    /// Compare two trees in canonical order.
    pub fn compare(&self, other: &Xi) -> (r: Ordering)
        ensures
            r == xi_cmp(self@, other@),
        decreases *self, 1int,
    {
        let c1 = compare_names(&self.value, &other.value);
        match c1 {
            Ordering::Equal => {},
            _ => {
                return c1;
            },
        }
        let c2 = compare_xis(&self.child_num, &other.child_num);
        match c2 {
            Ordering::Equal => {},
            _ => {
                return c2;
            },
        }
        let c3 = compare_xis(&self.child_den, &other.child_den);
        match c3 {
            Ordering::Equal => {},
            _ => {
                return c3;
            },
        }
        compare_forms(&self.partials, &other.partials)
    }
}


/// The digit string of `d < 10`.
fn digit_str(d: usize) -> (r: &'static str)
    requires
        d < 10,
    ensures
        r@ == seq![digit_char(d as nat)],
{
    proof {
        reveal_strlit("0");
        reveal_strlit("1");
        reveal_strlit("2");
        reveal_strlit("3");
        reveal_strlit("4");
        reveal_strlit("5");
        reveal_strlit("6");
        reveal_strlit("7");
        reveal_strlit("8");
        reveal_strlit("9");
    }
    match d {
        0 => "0",
        1 => "1",
        2 => "2",
        3 => "3",
        4 => "4",
        5 => "5",
        6 => "6",
        7 => "7",
        8 => "8",
        _ => "9",
    }
}

/// The decimal representation of `n`.
pub fn decimal_string(n: usize) -> (r: String)
    ensures
        r@ == decimal(n as nat),
    decreases n,
{
    if n < 10 {
        String::from_str(digit_str(n))
    } else {
        let s = decimal_string(n / 10);
        s.concat(digit_str(n % 10))
    }
}

/// The name of a form: "p" for the point, otherwise the digits of its axes.
pub fn form_name_string(f: &Form) -> (r: String)
    ensures
        r@ == form_name(*f),
{
    if f.zet == crate::basis::Zet::B && f.orientation == crate::basis::Orientation::e {
        return String::from_str("p");
    }
    let ixs = f.as_indices();
    let ghost want = Seq::new(ixs@.len(), |k: int| index_char(ixs@[k]));
    let mut parts: Vec<String> = Vec::new();
    let mut k: usize = 0;
    while k < ixs.len()
        invariant
            k <= ixs@.len(),
            parts@.len() == k,
            forall|m: int| 0 <= m < k ==> #[trigger] parts@[m]@ == seq![index_char(ixs@[m])],
        decreases ixs@.len() - k,
    {
        proof {
            reveal_strlit("0");
            reveal_strlit("1");
            reveal_strlit("2");
            reveal_strlit("3");
        }
        let d = match ixs[k] {
            crate::basis::Index::Zero => "0",
            crate::basis::Index::One => "1",
            crate::basis::Index::Two => "2",
            crate::basis::Index::Three => "3",
        };
        parts.push(String::from_str(d));
        k = k + 1;
    }
    proof {
        reveal_strlit("");
        assert(""@ =~= seq![]);
        let views = parts@.map_values(|p: String| p@);
        assert forall|m: int| 0 <= m < ixs@.len() implies #[trigger] views[m] == seq![
            index_char(ixs@[m]),
        ] by {
            assert(views[m] == parts@[m]@);
        }
        lemma_join_digits(views, ixs@);
        assert(*f != crate::basis::point());
    }
    join_strings(&parts, "")
}

proof fn lemma_join_digits(views: Seq<Seq<char>>, ixs: Seq<crate::basis::Index>)
    requires
        views.len() == ixs.len(),
        forall|m: int| 0 <= m < ixs.len() ==> #[trigger] views[m] == seq![index_char(ixs[m])],
    ensures
        joined(views, seq![]) == Seq::new(ixs.len(), |k: int| index_char(ixs[k])),
    decreases ixs.len(),
{
    if ixs.len() == 0 {
        assert(joined(views, seq![]) =~= Seq::new(ixs.len(), |k: int| index_char(ixs[k])));
    } else if ixs.len() == 1 {
        assert(views[0] =~= Seq::new(ixs.len(), |k: int| index_char(ixs[k])));
    } else {
        let v2 = views.drop_last();
        let i2 = ixs.drop_last();
        assert forall|m: int| 0 <= m < i2.len() implies #[trigger] v2[m] == seq![
            index_char(i2[m]),
        ] by {
            assert(views[m] == seq![index_char(ixs[m])]);
        }
        lemma_join_digits(v2, i2);
        assert(views.last() == seq![index_char(ixs.last())]);
        assert(joined(v2, seq![]) + seq![] + views.last() =~= Seq::new(
            ixs.len(),
            |k: int| index_char(ixs[k]),
        ));
    }
}

/// The partial derivative markers of a list of forms.
pub fn partials_string(v: &Vec<Form>) -> (r: String)
    ensures
        r@ == partials_str(v@),
{
    let mut out = String::new();
    let mut k: usize = 0;
    while k < v.len()
        invariant
            k <= v@.len(),
            out@ == partials_str(v@.subrange(0, k as int)),
        decreases v@.len() - k,
    {
        proof {
            assert(v@.subrange(0, k + 1).drop_last() =~= v@.subrange(0, k as int));
        }
        let name = form_name_string(&v[k]);
        out = out.concat("∂").concat(name.as_str());
        k = k + 1;
    }
    proof {
        assert(v@.subrange(0, v@.len() as int) =~= v@);
    }
    out
}

/// The views of the trees at the given positions of `all`, in that order.
spec fn at_positions(all: Seq<(XiV, Seq<char>)>, idx: Seq<usize>) -> Seq<(XiV, Seq<char>)> {
    Seq::new(idx.len(), |m: int| all[idx[m] as int])
}

proof fn lemma_rendered_from(s: Seq<XiV>, k: int)
    requires
        0 <= k <= s.len(),
    ensures
        rendered_from(s, k).len() == s.len() - k,
        forall|m: int|
            k <= m < s.len() ==> #[trigger] rendered_from(s, k)[m - k] == (s[m], xi_render(s[m])),
    decreases s.len() - k,
{
    if k < s.len() {
        lemma_rendered_from(s, k + 1);
        assert forall|m: int| k <= m < s.len() implies #[trigger] rendered_from(s, k)[m - k] == (
            s[m],
            xi_render(s[m]),
        ) by {
            if m > k {
                assert(rendered_from(s, k)[m - k] == rendered_from(s, k + 1)[m - (k + 1)]);
            }
        }
    }
}

/// The children grouped by value, each distinct tree written once with
/// `^count` where it repeats, in the canonical order of trees, joined by ".".
fn power_notation(v: &Vec<Xi>) -> (r: String)
    requires
        all_renderable(xis_view(v@), 0),
    ensures
        r@ == power_notation_spec(rendered_from(xis_view(v@), 0)),
    decreases v@, 0int,
{
    let ghost s = xis_view(v@);
    let ghost all = rendered_from(s, 0);
    proof {
        lemma_xis_view(v@);
        lemma_all_renderable(s, 0);
        lemma_rendered_from(s, 0);
        assert forall|m: int| 0 <= m < s.len() implies #[trigger] all[m] == (s[m], xi_render(s[m])) by {
            assert(all[m - 0] == (s[m], xi_render(s[m])));
        }
    }
    let n = v.len();
    let mut written: Vec<String> = Vec::new();
    let mut k: usize = 0;
    while k < n
        invariant
            n == v@.len(),
            s == xis_view(v@),
            s.len() == n,
            forall|m: int| 0 <= m < n ==> #[trigger] s[m] == v@[m]@,
            forall|m: int| 0 <= m < n ==> #[trigger] renderable(s[m]),
            k <= n,
            written@.len() == k,
            forall|m: int| 0 <= m < k ==> #[trigger] written@[m]@ == xi_render(s[m]),
        decreases n - k,
    {
        assert(renderable(s[k as int]));
        assert(s[k as int] == v@[k as int]@);
        written.push(v[k].dotted_string());
        k = k + 1;
    }
    let mut idx: Vec<usize> = Vec::new();
    let mut k: usize = 0;
    proof {
        assert(at_positions(all, idx@) =~= sort_by(all.subrange(0, 0), pair_order()));
    }
    while k < n
        invariant
            n == v@.len(),
            s == xis_view(v@),
            all.len() == n,
            s.len() == n,
            forall|m: int| 0 <= m < n ==> #[trigger] s[m] == v@[m]@,
            forall|m: int| 0 <= m < n ==> #[trigger] all[m] == (s[m], xi_render(s[m])),
            k <= n,
            forall|m: int| 0 <= m < idx@.len() ==> #[trigger] idx@[m] < k,
            at_positions(all, idx@) == sort_by(all.subrange(0, k as int), pair_order()),
        decreases n - k,
    {
        let mut m = idx.len();
        while m > 0 && is_greater(v[idx[m - 1]].compare(&v[k]))
            invariant
                k < n,
                n == v@.len(),
                m <= idx@.len(),
                forall|j: int| 0 <= j < idx@.len() ==> #[trigger] idx@[j] < k,
                forall|j: int| m <= j < idx@.len() ==> xi_cmp(#[trigger] v@[idx@[j] as int]@, v@[k as int]@)
                    == Ordering::Greater,
            decreases m,
        {
            m = m - 1;
        }
        proof {
            let sv = at_positions(all, idx@);
            assert forall|j: int| m <= j < sv.len() implies !(pair_order())(#[trigger] sv[j], all[k as int]) by {
                assert(sv[j] == all[idx@[j] as int]);
                assert(xi_cmp(v@[idx@[j] as int]@, v@[k as int]@) == Ordering::Greater);
            }
            if m > 0 {
                let j = m - 1;
                assert(sv[j as int] == all[idx@[j as int] as int]);
            }
            lemma_insert_at(sv, all[k as int], pair_order(), m as int);
            assert(all.subrange(0, k + 1).drop_last() =~= all.subrange(0, k as int));
            assert(at_positions(all, idx@.insert(m as int, k)) =~= sv.insert(m as int, all[k as int]));
        }
        idx.insert(m, k);
        k = k + 1;
    }
    let ghost sorted = at_positions(all, idx@);
    proof {
        assert(all.subrange(0, n as int) =~= all);
        crate::order::lemma_sort_multiset(all, pair_order());
    }
    let mut pieces: Vec<String> = Vec::new();
    let mut p: usize = 0;
    proof {
        assert(pieces@.map_values(|q: String| q@) =~= Seq::<Seq<char>>::empty());
    }
    while p < idx.len()
        invariant
            n == v@.len(),
            all.len() == n,
            s.len() == n,
            idx@.len() == n,
            sorted == at_positions(all, idx@),
            forall|m: int| 0 <= m < n ==> #[trigger] all[m] == (s[m], xi_render(s[m])),
            forall|m: int| 0 <= m < n ==> #[trigger] s[m] == v@[m]@,
            forall|m: int| 0 <= m < n ==> #[trigger] written@[m]@ == xi_render(s[m]),
            written@.len() == n,
            forall|m: int| 0 <= m < idx@.len() ==> #[trigger] idx@[m] < n,
            p <= n,
            pieces@.map_values(|q: String| q@) + group_pieces(sorted, all, p as int) == group_pieces(
                sorted,
                all,
                0,
            ),
        decreases n - p,
    {
        let cur = idx[p];
        let mut seen = false;
        let mut j: usize = 0;
        while j < p
            invariant
                p < n,
                idx@.len() == n,
                cur == idx@[p as int],
                forall|m: int| 0 <= m < idx@.len() ==> #[trigger] idx@[m] < n,
                n == v@.len(),
                j <= p,
                seen == exists|i: int| 0 <= i < j && #[trigger] v@[idx@[i] as int]@ == v@[cur as int]@,
            decreases p - j,
        {
            if v[idx[j]].same(&v[cur]) {
                seen = true;
            }
            j = j + 1;
        }
        proof {
            assert forall|i: int| 0 <= i < idx@.len() implies #[trigger] sorted[i] == all[idx@[i] as int] by {
            }
            if seen {
                let i = choose|i: int| 0 <= i < p && #[trigger] v@[idx@[i] as int]@ == v@[cur as int]@;
                assert(sorted[i] == all[idx@[i] as int]);
                assert(sorted[p as int] == all[cur as int]);
                assert(sorted[i].0 == sorted[p as int].0);
            } else {
                assert forall|i: int| 0 <= i < p implies #[trigger] sorted[i].0 != sorted[p as int].0 by {
                    assert(sorted[i] == all[idx@[i] as int]);
                    assert(sorted[p as int] == all[cur as int]);
                    if sorted[i].0 == sorted[p as int].0 {
                        assert(v@[idx@[i] as int]@ == v@[cur as int]@);
                    }
                }
            }
        }
        let ghost before = pieces@.map_values(|q: String| q@);
        if !seen {
            let mut c: usize = 0;
            let mut i: usize = 0;
            proof {
                assert(all.subrange(0, 0) =~= Seq::<(XiV, Seq<char>)>::empty());
            }
            while i < n
                invariant
                    n == v@.len(),
                    all.len() == n,
                    s.len() == n,
                    cur < n,
                    forall|m: int| 0 <= m < n ==> #[trigger] all[m] == (s[m], xi_render(s[m])),
                    forall|m: int| 0 <= m < n ==> #[trigger] s[m] == v@[m]@,
                    i <= n,
                    c <= i,
                    c == count_equal(all.subrange(0, i as int), v@[cur as int]@),
                decreases n - i,
            {
                proof {
                    assert(all.subrange(0, i + 1).drop_last() =~= all.subrange(0, i as int));
                    assert(all.subrange(0, i + 1).last() == all[i as int]);
                }
                if v[i].same(&v[cur]) {
                    c = c + 1;
                }
                i = i + 1;
            }
            proof {
                assert(all.subrange(0, n as int) =~= all);
                assert(sorted[p as int] == all[cur as int]);
            }
            let piece = if c > 1 {
                let count = decimal_string(c);
                written[cur].clone().concat("^").concat(count.as_str())
            } else {
                written[cur].clone()
            };
            pieces.push(piece);
            proof {
                assert(pieces@.map_values(|q: String| q@) =~= before.push(
                    power_piece(sorted[p as int].1, count_equal(all, sorted[p as int].0)),
                ));
            }
        }
        proof {
            assert(before + group_pieces(sorted, all, p as int) =~= pieces@.map_values(
                |q: String| q@,
            ) + group_pieces(sorted, all, p + 1));
        }
        p = p + 1;
    }
    proof {
        assert(pieces@.map_values(|q: String| q@) =~= pieces@.map_values(|q: String| q@)
            + group_pieces(sorted, all, p as int));
        assert(sorted == sort_by(all, pair_order()));
    }
    join_strings(&pieces, ".")
}

impl Xi {
    /// A leaf named `value`.
    pub fn new(value: &str) -> (r: Xi)
        ensures
            r@ == leaf(value@),
    {
        let r = Xi {
            value: Some(String::from_str(value)),
            partials: Vec::new(),
            child_num: Vec::new(),
            child_den: Vec::new(),
        };
        proof {
            assert(r@.partials =~= seq![]);
            assert(xis_view_from(r.child_num@, 0) =~= seq![]);
            assert(xis_view_from(r.child_den@, 0) =~= seq![]);
        }
        r
    }

    /// The tree with no name, partials or children.
    pub fn empty() -> (r: Xi)
        ensures
            r@ == empty_xi(),
    {
        let r = Xi { value: None, partials: Vec::new(), child_num: Vec::new(), child_den: Vec::new() };
        proof {
            assert(r@.partials =~= seq![]);
            assert(xis_view_from(r.child_num@, 0) =~= seq![]);
            assert(xis_view_from(r.child_den@, 0) =~= seq![]);
        }
        r
    }

    /// The multiplicative inverse: numerator and denominator children swap.
    pub fn inverse(&self) -> (r: Xi)
        ensures
            r@ == xi_inverse(self@),
    {
        let value = match &self.value {
            Some(s) => Some(copy_string(s)),
            None => None,
        };
        Xi {
            value,
            partials: copy_forms(&self.partials),
            child_num: copy_xis(&self.child_den),
            child_den: copy_xis(&self.child_num),
        }
    }

    /// Whether this is the tree with no name, partials or children.
    pub fn is_empty(&self) -> (r: bool)
        ensures
            r == (self@ == empty_xi()),
    {
        proof {
            lemma_xis_view(self.child_num@);
            lemma_xis_view(self.child_den@);
            if self.child_num@.len() == 0 {
                assert(self@.num =~= seq![]);
            }
            if self.child_den@.len() == 0 {
                assert(self@.den =~= seq![]);
            }
            if self.partials@.len() == 0 {
                assert(self@.partials =~= seq![]);
            }
        }
        self.value.is_none() && self.partials.len() == 0 && self.child_num.len() == 0
            && self.child_den.len() == 0
    }

    /// Add one partial derivative, keeping the partials in canonical order.
    pub fn add_partial(&mut self, wrt: &Form)
        ensures
            final(self)@ == (XiV {
                partials: sort_by(old(self)@.partials.push(*wrt), form_order()),
                ..old(self)@
            }),
    {
        let mut p = copy_forms(&self.partials);
        p.push(*wrt);
        self.partials = sort_forms(&p);
    }

    /// Replace the partial derivatives, putting them in canonical order.
    pub fn set_partials(&mut self, partials: Vec<Form>)
        ensures
            final(self)@ == (XiV { partials: sort_by(partials@, form_order()), ..old(self)@ }),
    {
        self.partials = sort_forms(&partials);
    }

    /// The product of a list of trees. Bare products among them are flattened
    /// into the result, so that nameless wrappers do not nest.
    pub fn merge(xis: &[Xi]) -> (r: Xi)
        ensures
            r@ == xi_merge(xis_view(xis@)),
    {
        let ghost all = xis_view(xis@);
        proof {
            lemma_xis_view(xis@);
        }
        let mut num: Vec<Xi> = Vec::new();
        let mut den: Vec<Xi> = Vec::new();
        proof {
            lemma_xis_view(num@);
            assert(xis_view(num@) =~= seq![]);
            assert(xis_view(den@) =~= seq![]);
            assert(all.subrange(0, 0) =~= seq![]);
        }
        let mut k: usize = 0;
        while k < xis.len()
            invariant
                k <= xis@.len(),
                all == xis_view(xis@),
                all.len() == xis@.len(),
                forall|m: int| 0 <= m < xis@.len() ==> #[trigger] all[m] == xis@[m]@,
                xis_view(num@) == merged_num(all.subrange(0, k as int)),
                xis_view(den@) == merged_den(all.subrange(0, k as int)),
            decreases xis@.len() - k,
        {
            let x = &xis[k];
            proof {
                assert(all.subrange(0, k + 1).drop_last() =~= all.subrange(0, k as int));
                assert(all.subrange(0, k + 1).last() == x@);
            }
            if x.value.is_none() && x.partials.len() == 0 {
                extend_copies(&mut num, &x.child_num);
                extend_copies(&mut den, &x.child_den);
            } else {
                let ghost before = xis_view(num@);
                let ghost old_num = num@;
                proof {
                    lemma_xis_view(old_num);
                }
                let c = x.copy();
                num.push(c);
                proof {
                    let t = before + seq![x@];
                    assert forall|m: int| 0 <= m < num@.len() implies #[trigger] num@[m]@ == t[m] by {
                        if m < old_num.len() {
                            assert(num@[m] == old_num[m]);
                        }
                    }
                    lemma_xis_view_eq(num@, t);
                    assert(xis_view(den@) =~= xis_view(den@) + seq![]);
                }
            }
            k = k + 1;
        }
        proof {
            assert(all.subrange(0, xis@.len() as int) =~= all);
        }
        let child_num = sort_xis(num);
        let child_den = sort_xis(den);
        let r = Xi { value: None, partials: Vec::new(), child_num, child_den };
        proof {
            assert(r@.partials =~= seq![]);
        }
        r
    }

    /// The written form of this tree.
    pub fn dotted_string(&self) -> (r: String)
        requires
            renderable(self@),
        ensures
            r@ == xi_render(self@),
        decreases *self, 1int,
    {
        let partials = partials_string(&self.partials);
        match &self.value {
            Some(v) => partials.concat("ξ").concat(v.as_str()),
            None => {
                let num = power_notation(&self.child_num);
                let den = power_notation(&self.child_den);
                let body = if self.child_den.len() == 0 {
                    num
                } else if self.child_num.len() == 0 {
                    String::from_str("1/").concat(den.as_str())
                } else {
                    num.concat("/").concat(den.as_str())
                };
                proof {
                    lemma_xis_view(self.child_num@);
                    lemma_xis_view(self.child_den@);
                }
                if self.partials.len() == 0 {
                    body
                } else {
                    partials.concat("(").concat(body.as_str()).concat(")")
                }
            },
        }
    }
}


} // verus!
