//! The sixteen basis elements of the algebra and their signed forms.
use vstd::prelude::*;

verus! {

/// Errors that come from malformed user-supplied data.
#[derive(PartialEq, Eq, Clone, Debug)]
pub enum AlgebraError {
    /// A number that is not one of the four axes.
    InvalidIndex(u8),
    /// A character that is not one of the four axis digits.
    InvalidIndexChar(char),
    /// A list of axes that is not one of the sixteen forms.
    InvalidIndices(Vec<Index>),
    /// A string that does not name a grade.
    InvalidGrade(String),
}

/// A direction: positive or negative.
#[derive(PartialEq, Eq, Structural, Clone, Copy, Debug, Hash, PartialOrd, Ord)]
pub enum Sign {
    Pos,
    Neg,
}

/// The product of two signs under the usual rules of arithmetic.
pub open spec fn sign_mul(a: Sign, b: Sign) -> Sign {
    if a == b {
        Sign::Pos
    } else {
        Sign::Neg
    }
}

/// The opposite sign.
pub open spec fn sign_neg(a: Sign) -> Sign {
    match a {
        Sign::Pos => Sign::Neg,
        Sign::Neg => Sign::Pos,
    }
}

/// Position of a sign in the order Pos < Neg.
pub open spec fn sign_rank(a: Sign) -> int {
    match a {
        Sign::Pos => 0,
        Sign::Neg => 1,
    }
}

impl Sign {
    /// Combine two signs using the conventional rules of arithmetic.
    pub fn combine(&self, other: Sign) -> (r: Sign)
        ensures
            r == sign_mul(*self, other),
    {
        match (self, other) {
            (Sign::Pos, Sign::Pos) | (Sign::Neg, Sign::Neg) => Sign::Pos,
            _ => Sign::Neg,
        }
    }

    /// The opposite sign.
    pub fn neg(self) -> (r: Sign)
        ensures
            r == sign_neg(self),
    {
        match self {
            Sign::Neg => Sign::Pos,
            Sign::Pos => Sign::Neg,
        }
    }
}

/// One of the four space-time axes.
#[derive(PartialEq, Eq, Structural, Clone, Copy, Debug, Hash, PartialOrd, Ord)]
pub enum Index {
    Zero,
    One,
    Two,
    Three,
}

/// The axis number of an index.
pub open spec fn index_val(i: Index) -> nat {
    match i {
        Index::Zero => 0,
        Index::One => 1,
        Index::Two => 2,
        Index::Three => 3,
    }
}

impl Index {
    /// The index for the axis number `x`, if there is one.
    pub fn try_from_u8(x: u8) -> (r: Result<Index, AlgebraError>)
        ensures
            x < 4 ==> (r matches Ok(i) && index_val(i) == x),
            x >= 4 ==> r == Err::<Index, AlgebraError>(AlgebraError::InvalidIndex(x)),
    {
        match x {
            0 => Ok(Index::Zero),
            1 => Ok(Index::One),
            2 => Ok(Index::Two),
            3 => Ok(Index::Three),
            _ => Err(AlgebraError::InvalidIndex(x)),
        }
    }

    /// The index for the axis digit `c`, if there is one.
    pub fn try_from_char(c: char) -> (r: Result<Index, AlgebraError>)
        ensures
            '0' <= c <= '3' ==> (r matches Ok(i) && index_val(i) == c as nat - '0' as nat),
            !('0' <= c <= '3') ==> r == Err::<Index, AlgebraError>(
                AlgebraError::InvalidIndexChar(c),
            ),
    {
        match c {
            '0' => Ok(Index::Zero),
            '1' => Ok(Index::One),
            '2' => Ok(Index::Two),
            '3' => Ok(Index::Three),
            _ => Err(AlgebraError::InvalidIndexChar(c)),
        }
    }
}

/// The grade of a form: how many axes it is made of.
#[derive(PartialEq, Eq, Structural, Clone, Copy, Debug, Hash)]
pub enum Grade {
    Zero,
    One,
    Two,
    Three,
    Four,
}

/// The number of axes of a grade.
pub open spec fn grade_val(g: Grade) -> nat {
    match g {
        Grade::Zero => 0,
        Grade::One => 1,
        Grade::Two => 2,
        Grade::Three => 3,
        Grade::Four => 4,
    }
}

impl Grade {
    /// The grade named by a single digit from "0" to "4".
    pub fn try_from_str(s: &str) -> (r: Result<Grade, AlgebraError>)
        ensures
            (s@.len() == 1 && '0' <= s@[0] <= '4') ==> (r matches Ok(g) && grade_val(g)
                == s@[0] as nat - '0' as nat),
            !(s@.len() == 1 && '0' <= s@[0] <= '4') ==> (r matches Err(
                AlgebraError::InvalidGrade(t),
            ) && t@ == s@),
    {
        if s.unicode_len() == 1 {
            let c = s.get_char(0);
            match c {
                '0' => {
                    return Ok(Grade::Zero);
                },
                '1' => {
                    return Ok(Grade::One);
                },
                '2' => {
                    return Ok(Grade::Two);
                },
                '3' => {
                    return Ok(Grade::Three);
                },
                '4' => {
                    return Ok(Grade::Four);
                },
                _ => {},
            }
        }
        Err(AlgebraError::InvalidGrade(String::from_str(s)))
    }
}

/// One of the four families of forms.
#[derive(PartialEq, Eq, Structural, Clone, Copy, Debug, Hash, PartialOrd, Ord)]
pub enum Zet {
    B,
    T,
    A,
    E,
}

/// One of the four orientations within a family; `e` is the identity.
#[allow(non_camel_case_types)]
#[derive(PartialEq, Eq, Structural, Clone, Copy, Debug, Hash, PartialOrd, Ord)]
pub enum Orientation {
    e,
    i,
    j,
    k,
}

/// Position of a zet in the order B < T < A < E.
pub open spec fn zet_rank(z: Zet) -> int {
    match z {
        Zet::B => 0,
        Zet::T => 1,
        Zet::A => 2,
        Zet::E => 3,
    }
}

/// Position of an orientation in the order e < i < j < k.
pub open spec fn orientation_rank(o: Orientation) -> int {
    match o {
        Orientation::e => 0,
        Orientation::i => 1,
        Orientation::j => 2,
        Orientation::k => 3,
    }
}

/// A basis element: a zet together with an orientation.
#[derive(PartialEq, Eq, Structural, Clone, Copy, Debug, Hash, PartialOrd, Ord)]
pub struct Form {
    pub zet: Zet,
    pub orientation: Orientation,
}

/// Position of a form in the canonical order (by zet, then by orientation).
pub open spec fn form_rank(f: Form) -> int {
    4 * zet_rank(f.zet) + orientation_rank(f.orientation)
}

/// The form at a given position of the canonical order.
pub open spec fn form_at(n: int) -> Form {
    Form {
        zet: if n < 4 {
            Zet::B
        } else if n < 8 {
            Zet::T
        } else if n < 12 {
            Zet::A
        } else {
            Zet::E
        },
        orientation: if n % 4 == 0 {
            Orientation::e
        } else if n % 4 == 1 {
            Orientation::i
        } else if n % 4 == 2 {
            Orientation::j
        } else {
            Orientation::k
        },
    }
}

/// The scalar form (B, e), the identity of the product.
pub open spec fn point() -> Form {
    Form { zet: Zet::B, orientation: Orientation::e }
}

/// The grade of a form, by its zet and orientation.
pub open spec fn form_grade(f: Form) -> Grade {
    match (f.orientation, f.zet) {
        (Orientation::e, Zet::B) => Grade::Zero,
        (_, Zet::B) => Grade::Two,
        (Orientation::e, Zet::T) => Grade::One,
        (_, Zet::T) => Grade::Three,
        (Orientation::e, Zet::A) => Grade::Three,
        (_, Zet::A) => Grade::One,
        (Orientation::e, Zet::E) => Grade::Four,
        (_, Zet::E) => Grade::Two,
    }
}

/// The canonical list of axes of a form.
pub open spec fn form_indices(f: Form) -> Seq<Index> {
    match (f.orientation, f.zet) {
        (Orientation::e, Zet::B) => seq![],
        (Orientation::i, Zet::B) => seq![Index::Two, Index::Three],
        (Orientation::j, Zet::B) => seq![Index::Three, Index::One],
        (Orientation::k, Zet::B) => seq![Index::One, Index::Two],
        (Orientation::e, Zet::T) => seq![Index::Zero],
        (Orientation::i, Zet::T) => seq![Index::Zero, Index::Two, Index::Three],
        (Orientation::j, Zet::T) => seq![Index::Zero, Index::Three, Index::One],
        (Orientation::k, Zet::T) => seq![Index::Zero, Index::One, Index::Two],
        (Orientation::e, Zet::A) => seq![Index::One, Index::Two, Index::Three],
        (Orientation::i, Zet::A) => seq![Index::One],
        (Orientation::j, Zet::A) => seq![Index::Two],
        (Orientation::k, Zet::A) => seq![Index::Three],
        (Orientation::e, Zet::E) => seq![Index::Zero, Index::One, Index::Two, Index::Three],
        (Orientation::i, Zet::E) => seq![Index::Zero, Index::One],
        (Orientation::j, Zet::E) => seq![Index::Zero, Index::Two],
        (Orientation::k, Zet::E) => seq![Index::Zero, Index::Three],
    }
}

/// The form whose canonical axes are exactly `s`, if there is one.
pub open spec fn form_from_indices(s: Seq<Index>) -> Option<Form> {
    if exists|f: Form| form_indices(f) == s {
        Some(choose|f: Form| form_indices(f) == s)
    } else {
        None
    }
}

/// Two distinct forms never share their list of axes.
pub proof fn lemma_form_indices_injective(f: Form, g: Form)
    requires
        form_indices(f) == form_indices(g),
    ensures
        f == g,
{
    let (a, b) = (form_indices(f), form_indices(g));
    assert(a.len() == b.len());
    if a.len() > 0 {
        assert(a[0] == b[0]);
    }
    if a.len() > 1 {
        assert(a[1] == b[1]);
    }
}

/// The inverse mapping picks out the one form with the given axes.
pub proof fn lemma_form_from_indices_of(f: Form)
    ensures
        form_from_indices(form_indices(f)) == Some(f),
{
    let g = choose|g: Form| form_indices(g) == form_indices(f);
    lemma_form_indices_injective(f, g);
}

/// The sign that the product of two forms picks up, and the form it lands on,
/// by composing their singlets and orientations as two Klein four-groups.
pub open spec fn form_product(l: Form, r: Form) -> (Sign, Form) {
    let (l_sign, l_singlet, l_orient) = decompose(l);
    let (r_sign, r_singlet, r_orient) = decompose(r);
    let (s_sign, singlet) = singlet_compose(l_singlet, r_singlet);
    let (o_sign, orientation) = orientation_compose(l_orient, r_orient);
    let (z_sign, zet) = recompose(singlet, orientation);
    (
        sign_mul(sign_mul(sign_mul(sign_mul(l_sign, r_sign), s_sign), o_sign), z_sign),
        Form { zet, orientation },
    )
}

/// A zet reduced to its scalar-like representative.
#[allow(non_camel_case_types)]
#[derive(PartialEq, Eq, Structural, Clone, Copy, Debug)]
pub enum Singlet {
    p,
    t,
    h,
    q,
}

pub open spec fn zet_singlet(z: Zet) -> Singlet {
    match z {
        Zet::B => Singlet::p,
        Zet::T => Singlet::t,
        Zet::A => Singlet::h,
        Zet::E => Singlet::q,
    }
}

pub open spec fn decompose(f: Form) -> (Sign, Singlet, Orientation) {
    let sign = if (f.zet == Zet::A || f.zet == Zet::E) && f.orientation != Orientation::e {
        Sign::Neg
    } else {
        Sign::Pos
    };
    (sign, zet_singlet(f.zet), f.orientation)
}

/// Klein four-group composition of singlets with its sign.
pub open spec fn singlet_compose(a: Singlet, b: Singlet) -> (Sign, Singlet) {
    let sign = match (a, b) {
        (Singlet::q, Singlet::q) | (Singlet::h, Singlet::t) | (Singlet::h, Singlet::q) | (
            Singlet::q,
            Singlet::t,
        ) => Sign::Neg,
        _ => Sign::Pos,
    };
    let elem = match (a, b) {
        (Singlet::p, x) => x,
        (x, Singlet::p) => x,
        (Singlet::t, Singlet::t) | (Singlet::h, Singlet::h) | (Singlet::q, Singlet::q) => Singlet::p,
        (Singlet::t, Singlet::h) | (Singlet::h, Singlet::t) => Singlet::q,
        (Singlet::h, Singlet::q) | (Singlet::q, Singlet::h) => Singlet::t,
        (Singlet::q, Singlet::t) | (Singlet::t, Singlet::q) => Singlet::h,
    };
    (sign, elem)
}

/// Klein four-group composition of orientations with its sign.
pub open spec fn orientation_compose(a: Orientation, b: Orientation) -> (Sign, Orientation) {
    let sign = match (a, b) {
        (Orientation::i, Orientation::i) | (Orientation::j, Orientation::j) | (
            Orientation::k,
            Orientation::k,
        ) | (Orientation::j, Orientation::i) | (Orientation::k, Orientation::j) | (
            Orientation::i,
            Orientation::k,
        ) => Sign::Neg,
        _ => Sign::Pos,
    };
    let elem = match (a, b) {
        (Orientation::e, x) => x,
        (x, Orientation::e) => x,
        (Orientation::i, Orientation::i) | (Orientation::j, Orientation::j) | (
            Orientation::k,
            Orientation::k,
        ) => Orientation::e,
        (Orientation::i, Orientation::j) | (Orientation::j, Orientation::i) => Orientation::k,
        (Orientation::j, Orientation::k) | (Orientation::k, Orientation::j) => Orientation::i,
        (Orientation::k, Orientation::i) | (Orientation::i, Orientation::k) => Orientation::j,
    };
    (sign, elem)
}

/// Recombine a singlet and an orientation into a zet, with the sign that
/// the A and E families pick up away from the identity orientation.
pub open spec fn recompose(s: Singlet, o: Orientation) -> (Sign, Zet) {
    match s {
        Singlet::p => (Sign::Pos, Zet::B),
        Singlet::t => (Sign::Pos, Zet::T),
        Singlet::h => if o == Orientation::e {
            (Sign::Pos, Zet::A)
        } else {
            (Sign::Neg, Zet::A)
        },
        Singlet::q => if o == Orientation::e {
            (Sign::Pos, Zet::E)
        } else {
            (Sign::Neg, Zet::E)
        },
    }
}

impl Singlet {
    fn compose(&self, right: &Singlet) -> (r: (Sign, Singlet))
        ensures
            r == singlet_compose(*self, *right),
    {
        let sign = match (self, right) {
            (Singlet::q, Singlet::q) | (Singlet::h, Singlet::t) | (Singlet::h, Singlet::q) | (
                Singlet::q,
                Singlet::t,
            ) => Sign::Neg,
            _ => Sign::Pos,
        };
        let elem = match (self, right) {
            (Singlet::p, x) => *x,
            (x, Singlet::p) => *x,
            (Singlet::t, Singlet::t) | (Singlet::h, Singlet::h) | (Singlet::q, Singlet::q) => {
                Singlet::p
            },
            (Singlet::t, Singlet::h) | (Singlet::h, Singlet::t) => Singlet::q,
            (Singlet::h, Singlet::q) | (Singlet::q, Singlet::h) => Singlet::t,
            (Singlet::q, Singlet::t) | (Singlet::t, Singlet::q) => Singlet::h,
        };
        (sign, elem)
    }
}

impl Orientation {
    fn compose(&self, right: &Orientation) -> (r: (Sign, Orientation))
        ensures
            r == orientation_compose(*self, *right),
    {
        let sign = match (self, right) {
            (Orientation::i, Orientation::i) | (Orientation::j, Orientation::j) | (
                Orientation::k,
                Orientation::k,
            ) | (Orientation::j, Orientation::i) | (Orientation::k, Orientation::j) | (
                Orientation::i,
                Orientation::k,
            ) => Sign::Neg,
            _ => Sign::Pos,
        };
        let elem = match (self, right) {
            (Orientation::e, x) => *x,
            (x, Orientation::e) => *x,
            (Orientation::i, Orientation::i) | (Orientation::j, Orientation::j) | (
                Orientation::k,
                Orientation::k,
            ) => Orientation::e,
            (Orientation::i, Orientation::j) | (Orientation::j, Orientation::i) => Orientation::k,
            (Orientation::j, Orientation::k) | (Orientation::k, Orientation::j) => Orientation::i,
            (Orientation::k, Orientation::i) | (Orientation::i, Orientation::k) => Orientation::j,
        };
        (sign, elem)
    }
}

impl Zet {
    fn singlet(&self) -> (r: Singlet)
        ensures
            r == zet_singlet(*self),
    {
        match self {
            Zet::B => Singlet::p,
            Zet::T => Singlet::t,
            Zet::A => Singlet::h,
            Zet::E => Singlet::q,
        }
    }
}

impl Form {
    pub fn new(z: Zet, o: Orientation) -> (r: Form)
        ensures
            r == (Form { zet: z, orientation: o }),
    {
        Form { zet: z, orientation: o }
    }

    pub fn zet(&self) -> (r: Zet)
        ensures
            r == self.zet,
    {
        self.zet
    }

    pub fn orientation(&self) -> (r: Orientation)
        ensures
            r == self.orientation,
    {
        self.orientation
    }

    /// The grade of this form.
    pub fn grade(&self) -> (r: Grade)
        ensures
            r == form_grade(*self),
    {
        match (self.orientation, self.zet) {
            (Orientation::e, Zet::B) => Grade::Zero,
            (_, Zet::B) => Grade::Two,
            (Orientation::e, Zet::T) => Grade::One,
            (_, Zet::T) => Grade::Three,
            (Orientation::e, Zet::A) => Grade::Three,
            (_, Zet::A) => Grade::One,
            (Orientation::e, Zet::E) => Grade::Four,
            (_, Zet::E) => Grade::Two,
        }
    }

    /// The form at position `n` of the canonical order, for `n < 16`.
    pub fn nth(n: usize) -> (r: Option<Form>)
        ensures
            n < 16 ==> r == Some(form_at(n as int)),
            n >= 16 ==> r is None,
    {
        if n >= 16 {
            return None;
        }
        let zet = if n < 4 {
            Zet::B
        } else if n < 8 {
            Zet::T
        } else if n < 12 {
            Zet::A
        } else {
            Zet::E
        };
        let orientation = if n % 4 == 0 {
            Orientation::e
        } else if n % 4 == 1 {
            Orientation::i
        } else if n % 4 == 2 {
            Orientation::j
        } else {
            Orientation::k
        };
        Some(Form { zet, orientation })
    }

    /// All sixteen forms in canonical order.
    pub fn iter() -> (r: Vec<Form>)
        ensures
            r@.len() == 16,
            forall|n: int| 0 <= n < 16 ==> #[trigger] r@[n] == form_at(n),
    {
        let mut v: Vec<Form> = Vec::new();
        let mut n: usize = 0;
        while n < 16
            invariant
                n <= 16,
                v@.len() == n,
                forall|m: int| 0 <= m < n ==> #[trigger] v@[m] == form_at(m),
            decreases 16 - n,
        {
            match Form::nth(n) {
                Some(f) => v.push(f),
                None => {},
            }
            n = n + 1;
        }
        v
    }

    /// The form whose canonical axes are `ixs`; any other list is rejected.
    pub fn try_from_indices(ixs: &[Index]) -> (r: Result<Form, AlgebraError>)
        ensures
            form_from_indices(ixs@) matches Some(f) ==> r == Ok::<Form, AlgebraError>(f),
            form_from_indices(ixs@) is None ==> (r matches Err(AlgebraError::InvalidIndices(v))
                && v@ == ixs@),
    {
        let n = ixs.len();
        let found: Option<Form> = if n == 0 {
            Some(Form::new(Zet::B, Orientation::e))
        } else if n == 1 {
            match ixs[0] {
                Index::Zero => Some(Form::new(Zet::T, Orientation::e)),
                Index::One => Some(Form::new(Zet::A, Orientation::i)),
                Index::Two => Some(Form::new(Zet::A, Orientation::j)),
                Index::Three => Some(Form::new(Zet::A, Orientation::k)),
            }
        } else if n == 2 {
            match (ixs[0], ixs[1]) {
                (Index::Two, Index::Three) => Some(Form::new(Zet::B, Orientation::i)),
                (Index::Three, Index::One) => Some(Form::new(Zet::B, Orientation::j)),
                (Index::One, Index::Two) => Some(Form::new(Zet::B, Orientation::k)),
                (Index::Zero, Index::One) => Some(Form::new(Zet::E, Orientation::i)),
                (Index::Zero, Index::Two) => Some(Form::new(Zet::E, Orientation::j)),
                (Index::Zero, Index::Three) => Some(Form::new(Zet::E, Orientation::k)),
                _ => None,
            }
        } else if n == 3 {
            match (ixs[0], ixs[1], ixs[2]) {
                (Index::Zero, Index::Two, Index::Three) => Some(Form::new(Zet::T, Orientation::i)),
                (Index::Zero, Index::Three, Index::One) => Some(Form::new(Zet::T, Orientation::j)),
                (Index::Zero, Index::One, Index::Two) => Some(Form::new(Zet::T, Orientation::k)),
                (Index::One, Index::Two, Index::Three) => Some(Form::new(Zet::A, Orientation::e)),
                _ => None,
            }
        } else if n == 4 {
            match (ixs[0], ixs[1], ixs[2], ixs[3]) {
                (Index::Zero, Index::One, Index::Two, Index::Three) => Some(
                    Form::new(Zet::E, Orientation::e),
                ),
                _ => None,
            }
        } else {
            None
        };
        match found {
            Some(f) => {
                proof {
                    assert(form_indices(f) =~= ixs@);
                    lemma_form_from_indices_of(f);
                }
                Ok(f)
            },
            None => {
                proof {
                    if exists|g: Form| form_indices(g) == ixs@ {
                        let g = choose|g: Form| form_indices(g) == ixs@;
                        assert(form_indices(g).len() == n);
                        if n > 0 {
                            assert(form_indices(g)[0] == ixs@[0]);
                        }
                        if n > 1 {
                            assert(form_indices(g)[1] == ixs@[1]);
                        }
                        if n > 2 {
                            assert(form_indices(g)[2] == ixs@[2]);
                        }
                        if n > 3 {
                            assert(form_indices(g)[3] == ixs@[3]);
                        }
                    }
                }
                Err(AlgebraError::InvalidIndices(copy_indices(ixs)))
            },
        }
    }

    /// The canonical list of axes of this form.
    pub fn as_indices(&self) -> (r: Vec<Index>)
        ensures
            r@ == form_indices(*self),
    {
        let r = match (self.orientation, self.zet) {
            (Orientation::e, Zet::B) => vec![],
            (Orientation::i, Zet::B) => vec![Index::Two, Index::Three],
            (Orientation::j, Zet::B) => vec![Index::Three, Index::One],
            (Orientation::k, Zet::B) => vec![Index::One, Index::Two],
            (Orientation::e, Zet::T) => vec![Index::Zero],
            (Orientation::i, Zet::T) => vec![Index::Zero, Index::Two, Index::Three],
            (Orientation::j, Zet::T) => vec![Index::Zero, Index::Three, Index::One],
            (Orientation::k, Zet::T) => vec![Index::Zero, Index::One, Index::Two],
            (Orientation::e, Zet::A) => vec![Index::One, Index::Two, Index::Three],
            (Orientation::i, Zet::A) => vec![Index::One],
            (Orientation::j, Zet::A) => vec![Index::Two],
            (Orientation::k, Zet::A) => vec![Index::Three],
            (Orientation::e, Zet::E) => vec![Index::Zero, Index::One, Index::Two, Index::Three],
            (Orientation::i, Zet::E) => vec![Index::Zero, Index::One],
            (Orientation::j, Zet::E) => vec![Index::Zero, Index::Two],
            (Orientation::k, Zet::E) => vec![Index::Zero, Index::Three],
        };
        proof {
            assert(r@ =~= form_indices(*self));
        }
        r
    }

    fn decompose(&self) -> (r: (Sign, Singlet, Orientation))
        ensures
            r == decompose(*self),
    {
        let sign = match self.zet {
            Zet::A | Zet::E => if self.orientation != Orientation::e {
                Sign::Neg
            } else {
                Sign::Pos
            },
            _ => Sign::Pos,
        };
        (sign, self.zet.singlet(), self.orientation)
    }

    /// The product of two forms under their Klein four-group structure,
    /// with the sign that it picks up.
    pub fn product(&self, rhs: &Form) -> (r: (Sign, Form))
        ensures
            r == form_product(*self, *rhs),
    {
        let (l_sign, l_singlet, l_orient) = self.decompose();
        let (r_sign, r_singlet, r_orient) = rhs.decompose();
        let (s_sign, singlet) = l_singlet.compose(&r_singlet);
        let (o_sign, orientation) = l_orient.compose(&r_orient);
        let (z_sign, zet) = match singlet {
            Singlet::p => (Sign::Pos, Zet::B),
            Singlet::t => (Sign::Pos, Zet::T),
            Singlet::h => if orientation == Orientation::e {
                (Sign::Pos, Zet::A)
            } else {
                (Sign::Neg, Zet::A)
            },
            Singlet::q => if orientation == Orientation::e {
                (Sign::Pos, Zet::E)
            } else {
                (Sign::Neg, Zet::E)
            },
        };
        let sign = l_sign.combine(r_sign).combine(s_sign).combine(o_sign).combine(z_sign);
        (sign, Form { zet, orientation })
    }

    /// Compare two forms in canonical order: by zet, then by orientation.
    pub fn compare(&self, other: &Form) -> (r: core::cmp::Ordering)
        ensures
            r == cmp_int(form_rank(*self), form_rank(*other)),
    {
        let a = self.rank();
        let b = other.rank();
        if a < b {
            core::cmp::Ordering::Less
        } else if a == b {
            core::cmp::Ordering::Equal
        } else {
            core::cmp::Ordering::Greater
        }
    }

    /// Position of this form in the canonical order.
    pub fn rank(&self) -> (r: u8)
        ensures
            r == form_rank(*self),
    {
        let z: u8 = match self.zet {
            Zet::B => 0,
            Zet::T => 1,
            Zet::A => 2,
            Zet::E => 3,
        };
        let o: u8 = match self.orientation {
            Orientation::e => 0,
            Orientation::i => 1,
            Orientation::j => 2,
            Orientation::k => 3,
        };
        4 * z + o
    }
}

/// A copy of a list of axes.
pub fn copy_indices(ixs: &[Index]) -> (r: Vec<Index>)
    ensures
        r@ == ixs@,
{
    let mut v: Vec<Index> = Vec::new();
    let mut n: usize = 0;
    while n < ixs.len()
        invariant
            n <= ixs@.len(),
            v@ == ixs@.subrange(0, n as int),
        decreases ixs@.len() - n,
    {
        v.push(ixs[n]);
        n = n + 1;
    }
    proof {
        assert(v@ =~= ixs@);
    }
    v
}

/// Three-way comparison of two integers.
pub open spec fn cmp_int(a: int, b: int) -> core::cmp::Ordering {
    if a < b {
        core::cmp::Ordering::Less
    } else if a == b {
        core::cmp::Ordering::Equal
    } else {
        core::cmp::Ordering::Greater
    }
}

/// A signed basis element.
#[derive(PartialEq, Eq, Structural, Clone, Copy, Debug, Hash, PartialOrd, Ord)]
pub struct Alpha {
    pub sign: Sign,
    pub form: Form,
}

/// The signed product of two basis elements: the product of their forms,
/// with the signs of both factors folded in.
pub open spec fn alpha_product(i: Alpha, j: Alpha) -> Alpha {
    let (s, f) = form_product(i.form, j.form);
    Alpha { sign: sign_mul(sign_mul(i.sign, j.sign), s), form: f }
}

/// The inverse of a basis element through the point: its sign is adjusted by
/// the sign of its square.
pub open spec fn alpha_inverse(a: Alpha) -> Alpha {
    Alpha { sign: sign_mul(a.sign, alpha_product(a, a).sign), form: a.form }
}

/// The same basis element with the opposite sign.
pub open spec fn alpha_neg(a: Alpha) -> Alpha {
    Alpha { sign: sign_neg(a.sign), form: a.form }
}

/// The positive scalar basis element.
pub open spec fn alpha_point() -> Alpha {
    Alpha { sign: Sign::Pos, form: point() }
}

impl Alpha {
    pub fn new(sign: Sign, form: Form) -> (r: Alpha)
        ensures
            r == (Alpha { sign, form }),
    {
        Alpha { sign, form }
    }

    /// The signed basis element whose form has the axes `indices`.
    pub fn try_from_indices(sign: Sign, indices: &[Index]) -> (r: Result<Alpha, AlgebraError>)
        ensures
            form_from_indices(indices@) matches Some(f) ==> r == Ok::<Alpha, AlgebraError>(
                Alpha { sign, form: f },
            ),
            form_from_indices(indices@) is None ==> (r matches Err(
                AlgebraError::InvalidIndices(v),
            ) && v@ == indices@),
    {
        let form = Form::try_from_indices(indices)?;
        Ok(Alpha::new(sign, form))
    }

    pub fn form(&self) -> (r: Form)
        ensures
            r == self.form,
    {
        self.form
    }

    pub fn grade(&self) -> (r: Grade)
        ensures
            r == form_grade(self.form),
    {
        self.form.grade()
    }

    pub fn sign(&self) -> (r: Sign)
        ensures
            r == self.sign,
    {
        self.sign
    }

    /// The same basis element with the opposite sign.
    pub fn neg(self) -> (r: Alpha)
        ensures
            r == alpha_neg(self),
    {
        Alpha { sign: self.sign.neg(), form: self.form }
    }

    /// The product of two signed basis elements.
    pub fn mul(self, rhs: Alpha) -> (r: Alpha)
        ensures
            r == alpha_product(self, rhs),
    {
        crate::product::ar_product(&self, &rhs)
    }

    /// Multiply by the inverse of `rhs`.
    pub fn div(self, rhs: Alpha) -> (r: Alpha)
        ensures
            r == alpha_product(self, alpha_inverse(rhs)),
    {
        crate::product::ar_product(&self, &rhs.inverse())
    }

    /// The inverse of this basis element through the point.
    pub fn inverse(&self) -> (r: Alpha)
        ensures
            r == alpha_inverse(*self),
    {
        Alpha { sign: self.sign.combine(crate::product::ar_product(self, self).sign), form: self.form }
    }
}

} // verus!
