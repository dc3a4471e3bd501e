//! Exact non-negative rational magnitudes, always kept in lowest terms.
use vstd::prelude::*;

verus! {

/// Greatest common divisor, by repeated subtraction.
pub open spec fn gcd(a: nat, b: nat) -> nat
    decreases a + b,
{
    if a == 0 {
        b
    } else if b == 0 {
        a
    } else if a == b {
        a
    } else if a > b {
        gcd((a - b) as nat, b)
    } else {
        gcd(a, (b - a) as nat)
    }
}

/// `d` divides `a`.
pub open spec fn divides(d: nat, a: nat) -> bool {
    exists|k: nat| #[trigger] (k * d) == a
}

/// The only common divisor of `a` and `b` is 1.
pub open spec fn coprime(a: nat, b: nat) -> bool {
    forall|d: nat| #[trigger] divides(d, a) && divides(d, b) ==> d == 1
}

/// The fraction `n / d` in lowest terms; a zero numerator gets denominator 1.
pub open spec fn reduce(n: nat, d: nat) -> (nat, nat) {
    if n == 0 {
        (0, 1)
    } else {
        (n / gcd(n, d), d / gcd(n, d))
    }
}

/// A non-negative rational number `numerator / denominator`.
#[derive(PartialEq, Eq, Structural, Clone, Copy, Debug, Hash)]
pub struct Magnitude {
    pub numerator: usize,
    pub denominator: usize,
}

impl View for Magnitude {
    type V = (nat, nat);

    open spec fn view(&self) -> (nat, nat) {
        (self.numerator as nat, self.denominator as nat)
    }
}

/// Whether `m` is a well-formed magnitude: a positive denominator, in lowest terms.
pub open spec fn mag_wf(m: (nat, nat)) -> bool {
    m.1 > 0 && reduce(m.0, m.1) == m
}

/// `a <= b` as rationals.
pub open spec fn mag_le(a: (nat, nat), b: (nat, nat)) -> bool {
    a.0 * b.1 <= b.0 * a.1
}

/// The unreduced sum of two fractions.
pub open spec fn sum_parts(a: (nat, nat), b: (nat, nat)) -> (nat, nat) {
    (a.0 * b.1 + b.0 * a.1, a.1 * b.1)
}

/// The unreduced difference of two fractions, `a` not below `b`.
pub open spec fn diff_parts(a: (nat, nat), b: (nat, nat)) -> (nat, nat) {
    ((a.0 * b.1 - b.0 * a.1) as nat, a.1 * b.1)
}

/// The unreduced product of two fractions.
pub open spec fn prod_parts(a: (nat, nat), b: (nat, nat)) -> (nat, nat) {
    (a.0 * b.0, a.1 * b.1)
}

/// The unreduced quotient of two fractions.
pub open spec fn quot_parts(a: (nat, nat), b: (nat, nat)) -> (nat, nat) {
    (a.0 * b.1, a.1 * b.0)
}

/// The cross products and the product of the denominators fit in a machine word.
pub open spec fn fits_cross(a: (nat, nat), b: (nat, nat)) -> bool {
    a.0 * b.1 <= usize::MAX && b.0 * a.1 <= usize::MAX && a.1 * b.1 <= usize::MAX
}

/// Both parts of a fraction fit in a machine word.
pub open spec fn fits(p: (nat, nat)) -> bool {
    p.0 <= usize::MAX && p.1 <= usize::MAX
}

proof fn lemma_divides_intro(d: nat, k: nat, a: nat)
    requires
        k * d == a,
    ensures
        divides(d, a),
{
}

proof fn lemma_divides_diff(d: nat, a: nat, b: nat)
    requires
        divides(d, a),
        divides(d, b),
        a >= b,
    ensures
        divides(d, (a - b) as nat),
{
    let ka = choose|k: nat| #[trigger] (k * d) == a;
    let kb = choose|k: nat| #[trigger] (k * d) == b;
    if d == 0 {
        assert(a == 0 && b == 0) by (nonlinear_arith)
            requires
                ka * d == a,
                kb * d == b,
                d == 0,
        ;
        lemma_divides_intro(d, 0, 0);
    } else {
        assert(ka >= kb) by (nonlinear_arith)
            requires
                ka * d == a,
                kb * d == b,
                a >= b,
                d > 0,
        ;
        assert(((ka - kb) as nat) * d == a - b) by (nonlinear_arith)
            requires
                ka * d == a,
                kb * d == b,
                ka >= kb,
        ;
        lemma_divides_intro(d, (ka - kb) as nat, (a - b) as nat);
    }
}

proof fn lemma_divides_sum(d: nat, a: nat, b: nat)
    requires
        divides(d, a),
        divides(d, b),
    ensures
        divides(d, a + b),
{
    let ka = choose|k: nat| #[trigger] (k * d) == a;
    let kb = choose|k: nat| #[trigger] (k * d) == b;
    assert((ka + kb) * d == a + b) by (nonlinear_arith)
        requires
            ka * d == a,
            kb * d == b,
    ;
    lemma_divides_intro(d, ka + kb, a + b);
}

/// The gcd divides both arguments, and every common divisor divides it.
proof fn lemma_gcd(a: nat, b: nat)
    requires
        a > 0 || b > 0,
    ensures
        gcd(a, b) > 0,
        divides(gcd(a, b), a),
        divides(gcd(a, b), b),
        forall|d: nat| #[trigger] divides(d, a) && divides(d, b) ==> divides(d, gcd(a, b)),
    decreases a + b,
{
    if a == 0 {
        lemma_divides_intro(b, 0, 0);
        lemma_divides_intro(b, 1, b);
    } else if b == 0 {
        lemma_divides_intro(a, 1, a);
        lemma_divides_intro(a, 0, 0);
    } else if a == b {
        lemma_divides_intro(a, 1, a);
    } else if a > b {
        let a2 = (a - b) as nat;
        lemma_gcd(a2, b);
        let g = gcd(a, b);
        lemma_divides_sum(g, a2, b);
        assert(a2 + b == a);
        assert forall|d: nat| #[trigger] divides(d, a) && divides(d, b) implies divides(d, g) by {
            lemma_divides_diff(d, a, b);
        }
    } else {
        let b2 = (b - a) as nat;
        lemma_gcd(a, b2);
        let g = gcd(a, b);
        lemma_divides_sum(g, a, b2);
        assert(a + b2 == b);
        assert forall|d: nat| #[trigger] divides(d, a) && divides(d, b) implies divides(d, g) by {
            lemma_divides_diff(d, b, a);
        }
    }
}

/// A divisor of a positive number is no larger than it.
proof fn lemma_divides_le(d: nat, a: nat)
    requires
        divides(d, a),
        a > 0,
    ensures
        d <= a,
{
    let k = choose|k: nat| #[trigger] (k * d) == a;
    assert(d <= a) by (nonlinear_arith)
        requires
            k * d == a,
            a > 0,
    ;
}

/// A reduced fraction has a positive denominator and coprime parts, and a
/// zero numerator comes with denominator 1.
pub proof fn lemma_reduce(n: nat, d: nat)
    requires
        d > 0,
    ensures
        reduce(n, d).1 > 0,
        coprime(reduce(n, d).0, reduce(n, d).1),
        n == 0 ==> reduce(n, d) == (0nat, 1nat),
        reduce(n, d).0 * d == n * reduce(n, d).1,
{
    if n == 0 {
        assert forall|x: nat| #[trigger] divides(x, 0) && divides(x, 1) implies x == 1 by {
            let k = choose|k: nat| #[trigger] (k * x) == 1;
            assert(x == 1) by (nonlinear_arith)
                requires
                    k * x == 1,
            ;
        }
    } else {
        lemma_gcd(n, d);
        let g = gcd(n, d);
        let kn = choose|k: nat| #[trigger] (k * g) == n;
        let kd = choose|k: nat| #[trigger] (k * g) == d;
        assert(n / g == kn && d / g == kd) by (nonlinear_arith)
            requires
                kn * g == n,
                kd * g == d,
                g > 0,
        ;
        assert(kd > 0) by (nonlinear_arith)
            requires
                kd * g == d,
                d > 0,
        ;
        assert(kn * d == n * kd) by (nonlinear_arith)
            requires
                kn * g == n,
                kd * g == d,
        ;
        assert forall|x: nat| #[trigger] divides(x, kn) && divides(x, kd) implies x == 1 by {
            let a = choose|k: nat| #[trigger] (k * x) == kn;
            let b = choose|k: nat| #[trigger] (k * x) == kd;
            assert(a * (x * g) == n && b * (x * g) == d) by (nonlinear_arith)
                requires
                    a * x == kn,
                    b * x == kd,
                    kn * g == n,
                    kd * g == d,
            ;
            lemma_divides_intro(x * g, a, n);
            lemma_divides_intro(x * g, b, d);
            lemma_divides_le(x * g, g);
            assert(x > 0) by (nonlinear_arith)
                requires
                    a * x == kn,
                    kn * g == n,
                    n > 0,
            ;
            assert(x == 1) by (nonlinear_arith)
                requires
                    x * g <= g,
                    g > 0,
                    x > 0,
            ;
        }
    }
}

/// Subtractive Euclidean algorithm, on positive arguments.
fn gcd_exec(n: usize, m: usize) -> (r: usize)
    requires
        n > 0,
        m > 0,
    ensures
        r == gcd(n as nat, m as nat),
{
    let mut a = n;
    let mut b = m;
    while a != b
        invariant
            a > 0,
            b > 0,
            gcd(a as nat, b as nat) == gcd(n as nat, m as nat),
        decreases a + b,
    {
        if a > b {
            a = a - b;
        } else {
            b = b - a;
        }
    }
    a
}

proof fn lemma_gcd_le(a: nat, b: nat)
    requires
        a > 0,
    ensures
        gcd(a, b) <= a,
        gcd(a, b) > 0,
{
    lemma_gcd(a, b);
    lemma_divides_le(gcd(a, b), a);
}

impl Magnitude {
    /// The magnitude `numerator / denominator`, in lowest terms.
    pub fn new(numerator: usize, denominator: usize) -> (r: Magnitude)
        requires
            denominator > 0,
        ensures
            r@ == reduce(numerator as nat, denominator as nat),
            mag_wf(r@),
    {
        proof {
            lemma_reduce_wf(numerator as nat, denominator as nat);
        }
        if numerator == 0 {
            return Magnitude { numerator: 0, denominator: 1 };
        }
        if numerator == denominator {
            proof {
                assert(gcd(numerator as nat, denominator as nat) == numerator);
                assert(numerator as nat / numerator as nat == 1) by (nonlinear_arith)
                    requires
                        numerator > 0,
                ;
            }
            return Magnitude { numerator: 1, denominator: 1 };
        }
        let g = gcd_exec(numerator, denominator);
        proof {
            lemma_gcd_le(numerator as nat, denominator as nat);
        }
        Magnitude { numerator: numerator / g, denominator: denominator / g }
    }

    /// Whether this magnitude is well formed: a positive denominator, in lowest terms.
    pub fn is_well_formed(&self) -> (r: bool)
        ensures
            r == mag_wf(self@),
    {
        if self.denominator == 0 {
            return false;
        }
        if self.numerator == 0 {
            return self.denominator == 1;
        }
        let g = gcd_exec(self.numerator, self.denominator);
        proof {
            let (n, d) = (self.numerator as nat, self.denominator as nat);
            lemma_gcd_le(n, d);
            if g == 1 {
                assert(n / 1 == n && d / 1 == d);
            } else {
                assert(n / (g as nat) < n) by (nonlinear_arith)
                    requires
                        g > 1,
                        n > 0,
                ;
            }
        }
        g == 1
    }

    /// Whether this magnitude is not zero.
    pub fn is_non_zero(&self) -> (r: bool)
        ensures
            r == (self.numerator != 0),
    {
        self.numerator != 0
    }

    /// The whole number `n`.
    pub fn from_usize(n: usize) -> (r: Magnitude)
        ensures
            r@ == (n as nat, 1nat),
            mag_wf(r@),
    {
        proof {
            lemma_reduce_wf(n as nat, 1);
            lemma_gcd_one(n as nat);
        }
        Magnitude { numerator: n, denominator: 1 }
    }

    /// Whether this magnitude is the whole number `n`.
    pub fn eq_usize(&self, n: usize) -> (r: bool)
        ensures
            r == (self.denominator == 1 && self.numerator == n),
    {
        self.denominator == 1 && self.numerator == n
    }

    /// The sum of two magnitudes.
    pub fn add(self, rhs: Magnitude) -> (r: Magnitude)
        requires
            mag_wf(self@),
            mag_wf(rhs@),
            fits(sum_parts(self@, rhs@)),
        ensures
            r@ == reduce(sum_parts(self@, rhs@).0, sum_parts(self@, rhs@).1),
            mag_wf(r@),
    {
        proof {
            lemma_pos_mul(self.denominator as nat, rhs.denominator as nat);
        }
        let num = self.numerator * rhs.denominator + rhs.numerator * self.denominator;
        let den = self.denominator * rhs.denominator;
        Magnitude::new(num, den)
    }

    /// The difference of two magnitudes, the first not below the second.
    pub fn sub(self, rhs: Magnitude) -> (r: Magnitude)
        requires
            mag_wf(self@),
            mag_wf(rhs@),
            mag_le(rhs@, self@),
            fits_cross(self@, rhs@),
        ensures
            r@ == reduce(diff_parts(self@, rhs@).0, diff_parts(self@, rhs@).1),
            mag_wf(r@),
    {
        proof {
            lemma_pos_mul(self.denominator as nat, rhs.denominator as nat);
        }
        let num = self.numerator * rhs.denominator - rhs.numerator * self.denominator;
        let den = self.denominator * rhs.denominator;
        Magnitude::new(num, den)
    }

    /// The product of two magnitudes.
    pub fn mul(self, rhs: Magnitude) -> (r: Magnitude)
        requires
            mag_wf(self@),
            mag_wf(rhs@),
            fits(prod_parts(self@, rhs@)),
        ensures
            r@ == reduce(prod_parts(self@, rhs@).0, prod_parts(self@, rhs@).1),
            mag_wf(r@),
    {
        proof {
            lemma_pos_mul(self.denominator as nat, rhs.denominator as nat);
        }
        Magnitude::new(self.numerator * rhs.numerator, self.denominator * rhs.denominator)
    }

    /// The quotient of two magnitudes, the divisor not zero.
    pub fn div(self, rhs: Magnitude) -> (r: Magnitude)
        requires
            mag_wf(self@),
            mag_wf(rhs@),
            rhs.numerator > 0,
            fits(quot_parts(self@, rhs@)),
        ensures
            r@ == reduce(quot_parts(self@, rhs@).0, quot_parts(self@, rhs@).1),
            mag_wf(r@),
    {
        proof {
            lemma_pos_mul(self.denominator as nat, rhs.numerator as nat);
        }
        Magnitude::new(self.numerator * rhs.denominator, self.denominator * rhs.numerator)
    }

    /// Compare two magnitudes as rationals, by cross-multiplication.
    pub fn compare(&self, other: &Magnitude) -> (r: core::cmp::Ordering)
        ensures
            r == mag_cmp(self@, other@),
    {
        proof {
            lemma_wide_product(self.numerator, other.denominator);
            lemma_wide_product(other.numerator, self.denominator);
        }
        let a = (self.numerator as u128) * (other.denominator as u128);
        let b = (other.numerator as u128) * (self.denominator as u128);
        if a < b {
            core::cmp::Ordering::Less
        } else if a == b {
            core::cmp::Ordering::Equal
        } else {
            core::cmp::Ordering::Greater
        }
    }
}

pub proof fn lemma_wide_product(x: usize, y: usize)
    ensures
        (x as u128) * (y as u128) <= u128::MAX,
{
    let (a, b) = (x as int, y as int);
    assert(a <= 0xffff_ffff_ffff_ffff && b <= 0xffff_ffff_ffff_ffff);
    assert(a * b <= 0xffff_ffff_ffff_ffff * 0xffff_ffff_ffff_ffffint) by (nonlinear_arith)
        requires
            0 <= a <= 0xffff_ffff_ffff_ffff,
            0 <= b <= 0xffff_ffff_ffff_ffff,
    ;
}

/// Three-way comparison of two fractions by cross-multiplication.
pub open spec fn mag_cmp(a: (nat, nat), b: (nat, nat)) -> core::cmp::Ordering {
    crate::basis::cmp_int((a.0 * b.1) as int, (b.0 * a.1) as int)
}

proof fn lemma_pos_mul(a: nat, b: nat)
    requires
        a > 0,
        b > 0,
    ensures
        a * b > 0,
{
    assert(a * b > 0) by (nonlinear_arith)
        requires
            a > 0,
            b > 0,
    ;
}

proof fn lemma_gcd_one(n: nat)
    ensures
        n > 0 ==> gcd(n, 1) == 1,
    decreases n,
{
    if n > 1 {
        lemma_gcd_one((n - 1) as nat);
    }
}

/// Reducing a fraction with a positive denominator gives a well-formed
/// magnitude whose parts are no larger than those of the fraction.
pub proof fn lemma_reduce_wf(n: nat, d: nat)
    requires
        d > 0,
    ensures
        mag_wf(reduce(n, d)),
        reduce(n, d).0 <= n,
        reduce(n, d).1 <= d || n == 0,
        reduce(n, d).1 <= d || reduce(n, d).1 == 1,
{
    lemma_reduce(n, d);
    let (a, b) = reduce(n, d);
    if n > 0 {
        lemma_gcd_le(n, d);
        let g = gcd(n, d);
        assert(n / g <= n && d / g <= d) by (nonlinear_arith)
            requires
                g > 0,
        ;
        assert(a > 0) by {
            lemma_gcd(n, d);
            let k = choose|k: nat| #[trigger] (k * g) == n;
            assert(n / g == k) by (nonlinear_arith)
                requires
                    k * g == n,
                    g > 0,
            ;
            assert(k > 0) by (nonlinear_arith)
                requires
                    k * g == n,
                    n > 0,
            ;
        }
        lemma_coprime_gcd(a, b);
    } else {
        lemma_gcd_one(0);
    }
}

/// Coprime positive parts have gcd 1, so they reduce to themselves.
proof fn lemma_coprime_gcd(a: nat, b: nat)
    requires
        a > 0,
        b > 0,
        coprime(a, b),
    ensures
        gcd(a, b) == 1,
        reduce(a, b) == (a, b),
{
    lemma_gcd(a, b);
    assert(divides(gcd(a, b), a) && divides(gcd(a, b), b));
    assert(a / 1 == a && b / 1 == b);
}

} // verus!
