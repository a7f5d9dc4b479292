//! Exact rational numbers with bounded numerator and denominator.
//!
//! Every operation computes the mathematical result, brings it to lowest
//! terms and reports `None` when the reduced fraction does not fit.

use vstd::prelude::*;

verus! {

/// A fraction of two mathematical integers.
pub struct Rat {
    pub num: int,
    pub den: int,
}

/// Magnitude of an integer.
pub open spec fn magnitude(n: int) -> nat {
    if n < 0 {
        (-n) as nat
    } else {
        n as nat
    }
}

/// Greatest common divisor by Euclid's recursion; `gcd(a, 0) == a`.
pub open spec fn gcd(a: nat, b: nat) -> nat
    decreases b,
{
    if b == 0 {
        a
    } else {
        gcd(b, a % b)
    }
}

impl Rat {
    /// A fraction is well formed when its denominator is positive.
    pub open spec fn wf(self) -> bool {
        self.den > 0
    }

    /// Two fractions denote the same number.
    pub open spec fn eqv(self, other: Rat) -> bool {
        self.num * other.den == other.num * self.den
    }

    /// The sum, over the product of the denominators.
    pub open spec fn plus(self, other: Rat) -> Rat {
        Rat { num: self.num * other.den + other.num * self.den, den: self.den * other.den }
    }

    /// The difference, over the product of the denominators.
    pub open spec fn minus(self, other: Rat) -> Rat {
        Rat { num: self.num * other.den - other.num * self.den, den: self.den * other.den }
    }

    /// The product, numerator by numerator and denominator by denominator.
    pub open spec fn times(self, other: Rat) -> Rat {
        Rat { num: self.num * other.num, den: self.den * other.den }
    }

    /// Quotient; the sign of the divisor moves to the numerator so that the
    /// denominator stays positive. Meaningful for a non-zero divisor.
    pub open spec fn over(self, other: Rat) -> Rat {
        if other.num >= 0 {
            Rat { num: self.num * other.den, den: self.den * other.num }
        } else {
            Rat { num: -(self.num * other.den), den: self.den * (-other.num) }
        }
    }

    /// Whether this number is smaller than `other`, both well formed.
    pub open spec fn less_than(self, other: Rat) -> bool {
        self.num * other.den < other.num * self.den
    }

    /// The same number in lowest terms.
    pub open spec fn reduced(self) -> Rat {
        let g = gcd(magnitude(self.num), magnitude(self.den)) as int;
        if g == 0 {
            self
        } else if self.num >= 0 {
            Rat { num: self.num / g, den: self.den / g }
        } else {
            Rat { num: -((-self.num) / g), den: self.den / g }
        }
    }

    /// The magnitude in hundredths, rounded to the nearest one; a magnitude
    /// half way between two goes to the even one.
    pub open spec fn hundredths(self) -> nat {
        let scaled = magnitude(self.num) * 100;
        let whole = scaled / magnitude(self.den);
        let rest = scaled % magnitude(self.den);
        if 2 * rest < self.den || (2 * rest == self.den && whole % 2 == 0) {
            whole
        } else {
            whole + 1
        }
    }

    /// Numerator and denominator have no common divisor but one.
    pub open spec fn lowest(self) -> bool {
        gcd(magnitude(self.num), magnitude(self.den)) == 1
    }

    /// Both parts fit the machine representation.
    pub open spec fn fits(self) -> bool {
        &&& i64::MIN <= self.num <= i64::MAX
        &&& 0 < self.den <= i64::MAX
    }
}

/// An exact rational number: a fraction in lowest terms with a positive
/// denominator, both parts within 64 bits.
#[derive(Clone, Copy, PartialEq, Eq, Structural, Debug)]
pub struct Ratio {
    num: i64,
    den: i64,
}

impl View for Ratio {
    type V = Rat;

    closed spec fn view(&self) -> Rat {
        Rat { num: self.num as int, den: self.den as int }
    }
}

fn gcd_u128(a: u128, b: u128) -> (g: u128)
    ensures
        g == gcd(a as nat, b as nat),
{
    let mut x: u128 = a;
    let mut y: u128 = b;
    while y != 0
        invariant
            gcd(x as nat, y as nat) == gcd(a as nat, b as nat),
        decreases y,
    {
        let r: u128 = x % y;
        x = y;
        y = r;
    }
    x
}

impl Ratio {
    /// What holds of every value: the denominator is positive and the
    /// fraction is in lowest terms.
    #[verifier::type_invariant]
    pub closed spec fn inv(&self) -> bool {
        self.den > 0 && gcd(magnitude(self.num as int), magnitude(self.den as int)) == 1
    }

    /// The value a reduced fraction takes when it fits, `None` otherwise.
    pub open spec fn of_rat(q: Rat) -> Option<Ratio> {
        if q.reduced().fits() {
            Some(Ratio::from_parts(q.reduced()))
        } else {
            None
        }
    }

    /// The value with the numerator and denominator of a fraction that
    /// fits.
    pub closed spec fn from_parts(q: Rat) -> Ratio {
        Ratio { num: q.num as i64, den: q.den as i64 }
    }

    /// The type invariant in terms of the view.
    pub proof fn lemma_wf(self)
        requires
            self.inv(),
        ensures
            self@.wf(),
            self@.lowest(),
            self@.fits(),
    {
    }

    /// The value of a fraction that fits has the reduced fraction as its
    /// view, and the sign of the fraction.
    pub proof fn lemma_of_rat(q: Rat)
        requires
            q.wf(),
        ensures
            Ratio::of_rat(q) matches Some(r) ==> r@ == q.reduced() && (r@.num > 0 <==> q.num > 0)
                && (r@.num < 0 <==> q.num < 0),
    {
        lemma_reduced_sign(q);
    }

    /// Values with the same view are the same value.
    pub proof fn lemma_view_injective(a: Ratio, b: Ratio)
        requires
            a@ == b@,
        ensures
            a == b,
    {
    }

    /// The sum as a value, when it fits.
    pub open spec fn spec_plus(self, other: Ratio) -> Option<Ratio> {
        Ratio::of_rat(self@.plus(other@))
    }

    /// The difference as a value, when it fits.
    pub open spec fn spec_minus(self, other: Ratio) -> Option<Ratio> {
        Ratio::of_rat(self@.minus(other@))
    }

    /// The product as a value, when it fits.
    pub open spec fn spec_times(self, other: Ratio) -> Option<Ratio> {
        Ratio::of_rat(self@.times(other@))
    }

    /// The quotient as a value, when it fits.
    pub open spec fn spec_over(self, other: Ratio) -> Option<Ratio> {
        Ratio::of_rat(self@.over(other@))
    }

    /// The fraction `num / den` in lowest terms. `None` when `den` is zero
    /// or the reduced fraction does not fit.
    pub fn new(num: i64, den: i64) -> (r: Option<Ratio>)
        ensures
            r == if den == 0 {
                None
            } else if den > 0 {
                Ratio::of_rat(Rat { num: num as int, den: den as int })
            } else {
                Ratio::of_rat(Rat { num: -(num as int), den: -(den as int) })
            },
    {
        if den == 0 {
            None
        } else if den > 0 {
            Ratio::normalize(num as i128, den as i128)
        } else {
            Ratio::normalize(-(num as i128), -(den as i128))
        }
    }

    /// The whole number `n` as a value.
    pub closed spec fn whole(n: i64) -> Ratio {
        Ratio { num: n, den: 1 }
    }

    /// The view of a whole number.
    pub proof fn lemma_whole(n: i64)
        ensures
            Ratio::whole(n)@ == (Rat { num: n as int, den: 1 }),
    {
    }

    /// The whole number `n`.
    #[verifier::when_used_as_spec(whole)]
    pub fn from_int(n: i64) -> (r: Ratio)
        ensures
            r == Ratio::whole(n),
            r@ == (Rat { num: n as int, den: 1 }),
    {
        proof {
            reveal_with_fuel(gcd, 3);
        }
        Ratio { num: n, den: 1 }
    }

    /// The magnitude in hundredths, rounded half to even.
    pub fn hundredths(&self) -> (h: u128)
        ensures
            h == self@.hundredths(),
    {
        proof {
            use_type_invariant(self);
        }
        let m: u128 = if self.num >= 0 {
            self.num as u128
        } else {
            (-(self.num as i128)) as u128
        };
        let d: u128 = self.den as u128;
        let scaled: u128 = m * 100;
        let whole: u128 = scaled / d;
        let rest: u128 = scaled % d;
        if 2 * rest < d || (2 * rest == d && whole % 2 == 0) {
            whole
        } else {
            whole + 1
        }
    }

    /// The numerator; it carries the sign.
    pub fn numer(&self) -> (n: i64)
        ensures
            n == self@.num,
    {
        self.num
    }

    /// The denominator.
    pub fn denom(&self) -> (d: i64)
        ensures
            d == self@.den,
            d > 0,
    {
        proof {
            use_type_invariant(self);
        }
        self.den
    }

    /// Whether the number is zero.
    pub fn is_zero(&self) -> (b: bool)
        ensures
            b == (self@.num == 0),
    {
        self.num == 0
    }

    /// Whether the number is greater than zero.
    pub fn is_positive(&self) -> (b: bool)
        ensures
            b == (self@.num > 0),
    {
        self.num > 0
    }

    /// Whether the number is less than zero.
    pub fn is_negative(&self) -> (b: bool)
        ensures
            b == (self@.num < 0),
    {
        self.num < 0
    }

    /// Whether the number is smaller than `other`.
    pub fn less_than(&self, other: &Ratio) -> (b: bool)
        ensures
            b == self@.less_than(other@),
    {
        proof {
            use_type_invariant(self);
            use_type_invariant(other);
            lemma_product_bounds(self.num as int, other.den as int);
            lemma_product_bounds(other.num as int, self.den as int);
        }
        (self.num as i128) * (other.den as i128) < (other.num as i128) * (self.den as i128)
    }

    /// The sum; `None` exactly when it does not fit.
    pub fn plus(&self, other: &Ratio) -> (r: Option<Ratio>)
        ensures
            r == self.spec_plus(*other),
    {
        proof {
            use_type_invariant(self);
            use_type_invariant(other);
            lemma_cross_bounds(self.num as int, other.den as int);
            lemma_cross_bounds(other.num as int, self.den as int);
            lemma_product_bounds(self.den as int, other.den as int);
            lemma_product_positive(self.den as int, other.den as int);
        }
        let left: i128 = (self.num as i128) * (other.den as i128);
        let right: i128 = (other.num as i128) * (self.den as i128);
        let n: i128 = left + right;
        let d: i128 = (self.den as i128) * (other.den as i128);
        Ratio::normalize(n, d)
    }

    /// The difference; `None` exactly when it does not fit.
    pub fn minus(&self, other: &Ratio) -> (r: Option<Ratio>)
        ensures
            r == self.spec_minus(*other),
    {
        proof {
            use_type_invariant(self);
            use_type_invariant(other);
            lemma_cross_bounds(self.num as int, other.den as int);
            lemma_cross_bounds(other.num as int, self.den as int);
            lemma_product_bounds(self.den as int, other.den as int);
            lemma_product_positive(self.den as int, other.den as int);
        }
        let left: i128 = (self.num as i128) * (other.den as i128);
        let right: i128 = (other.num as i128) * (self.den as i128);
        let n: i128 = left - right;
        let d: i128 = (self.den as i128) * (other.den as i128);
        Ratio::normalize(n, d)
    }

    /// The product; `None` exactly when it does not fit.
    pub fn times(&self, other: &Ratio) -> (r: Option<Ratio>)
        ensures
            r == self.spec_times(*other),
    {
        proof {
            use_type_invariant(self);
            use_type_invariant(other);
            lemma_product_bounds(self.num as int, other.num as int);
            lemma_product_bounds(self.den as int, other.den as int);
            lemma_product_positive(self.den as int, other.den as int);
        }
        let n: i128 = (self.num as i128) * (other.num as i128);
        let d: i128 = (self.den as i128) * (other.den as i128);
        Ratio::normalize(n, d)
    }

    /// The quotient by a value that is not zero; `None` exactly when it
    /// does not fit.
    pub fn over(&self, other: &Ratio) -> (r: Option<Ratio>)
        requires
            other@.num != 0,
        ensures
            r == self.spec_over(*other),
    {
        proof {
            use_type_invariant(self);
            use_type_invariant(other);
            lemma_product_bounds(self.num as int, other.den as int);
            lemma_product_bounds(self.den as int, other.num as int);
            lemma_product_bounds(self.den as int, -(other.num as int));
        }
        if other.num > 0 {
            proof {
                lemma_product_positive(self.den as int, other.num as int);
            }
            let n: i128 = (self.num as i128) * (other.den as i128);
            let d: i128 = (self.den as i128) * (other.num as i128);
            Ratio::normalize(n, d)
        } else {
            proof {
                lemma_product_positive(self.den as int, -(other.num as int));
            }
            let n: i128 = -((self.num as i128) * (other.den as i128));
            let d: i128 = (self.den as i128) * (-(other.num as i128));
            Ratio::normalize(n, d)
        }
    }

    /// The fraction `n / d` in lowest terms; `None` when it does not fit.
    pub fn normalize(n: i128, d: i128) -> (r: Option<Ratio>)
        requires
            d > 0,
            n > i128::MIN,
        ensures
            r == Ratio::of_rat(Rat { num: n as int, den: d as int }),
    {
        let an: u128 = if n >= 0 {
            n as u128
        } else {
            (-n) as u128
        };
        let ad: u128 = d as u128;
        let g: u128 = gcd_u128(an, ad);
        proof {
            lemma_gcd_positive(an as nat, ad as nat);
            vstd::arithmetic::div_mod::lemma_div_non_zero(ad as int, g as int);
            lemma_reduced_lowest(Rat { num: n as int, den: d as int });
        }
        let qn: u128 = an / g;
        let qd: u128 = ad / g;
        if qd > 0x7fff_ffff_ffff_ffff {
            return None;
        }
        if n >= 0 {
            if qn > 0x7fff_ffff_ffff_ffff {
                return None;
            }
            Some(Ratio { num: qn as i64, den: qd as i64 })
        } else {
            if qn > 0x8000_0000_0000_0000 {
                return None;
            }
            let neg: i128 = -(qn as i128);
            Some(Ratio { num: neg as i64, den: qd as i64 })
        }
    }
}

proof fn lemma_product_bounds(a: int, b: int)
    by (nonlinear_arith)
    requires
        -0x8000_0000_0000_0000 <= a <= 0x8000_0000_0000_0000,
        -0x8000_0000_0000_0000 <= b <= 0x8000_0000_0000_0000,
    ensures
        -0x4000_0000_0000_0000_0000_0000_0000_0000 <= a * b
            <= 0x4000_0000_0000_0000_0000_0000_0000_0000,
{
}

proof fn lemma_cross_bounds(n: int, d: int)
    by (nonlinear_arith)
    requires
        -0x8000_0000_0000_0000 <= n <= 0x8000_0000_0000_0000,
        0 < d <= 0x7fff_ffff_ffff_ffff,
    ensures
        -0x3fff_ffff_ffff_ffff_8000_0000_0000_0000 <= n * d
            <= 0x3fff_ffff_ffff_ffff_8000_0000_0000_0000,
{
}

proof fn lemma_product_positive(a: int, b: int)
    by (nonlinear_arith)
    requires
        a > 0,
        b > 0,
    ensures
        a * b > 0,
{
}

/// The quotient of two positive fractions is a positive fraction.
pub proof fn lemma_over_positive(a: Rat, b: Rat)
    requires
        a.wf(),
        b.wf(),
        a.num > 0,
        b.num > 0,
    ensures
        a.over(b).wf(),
        a.over(b).num > 0,
{
    lemma_product_positive(a.num, b.den);
    lemma_product_positive(a.den, b.num);
}

/// The divisor found for a positive first argument is no larger than it.
pub proof fn lemma_gcd_at_most_first(a: nat, b: nat)
    requires
        a > 0,
    ensures
        0 < gcd(a, b) <= a,
{
    if b > 0 {
        if a % b == 0 {
            assert(gcd(b, a % b) == b);
            vstd::arithmetic::div_mod::lemma_fundamental_div_mod(a as int, b as int);
            if a < b {
                vstd::arithmetic::div_mod::lemma_small_mod(a, b);
            }
        } else {
            lemma_gcd_positive(b, a % b);
            vstd::arithmetic::div_mod::lemma_mod_decreases(a, b);
        }
    }
}

/// Reducing a well-formed fraction keeps the sign of its numerator and a
/// positive denominator.
pub proof fn lemma_reduced_sign(q: Rat)
    requires
        q.wf(),
    ensures
        q.reduced().wf(),
        q.reduced().num > 0 <==> q.num > 0,
        q.reduced().num < 0 <==> q.num < 0,
{
    let g = gcd(magnitude(q.num), magnitude(q.den)) as int;
    lemma_gcd_positive(magnitude(q.num), magnitude(q.den));
    vstd::arithmetic::div_mod::lemma_div_non_zero(q.den, g);
    if q.num != 0 {
        lemma_gcd_at_most_first(magnitude(q.num), magnitude(q.den));
        vstd::arithmetic::div_mod::lemma_div_non_zero(magnitude(q.num) as int, g);
    } else {
        vstd::arithmetic::div_mod::lemma_div_of0(g);
    }
}

/// Numbers that the greatest common divisor divides into its two
/// arguments.
pub proof fn lemma_gcd_divides(a: nat, b: nat) -> (k: (nat, nat))
    requires
        a > 0 || b > 0,
    ensures
        gcd(a, b) > 0,
        a == k.0 * gcd(a, b),
        b == k.1 * gcd(a, b),
    decreases b,
{
    if b == 0 {
        assert(a == 1 * a) by (nonlinear_arith);
        assert(0 == 0 * a) by (nonlinear_arith);
        (1, 0)
    } else {
        let g = gcd(a, b);
        let r = a % b;
        let q = a / b;
        let (kb, kr) = lemma_gcd_divides(b, r);
        vstd::arithmetic::div_mod::lemma_fundamental_div_mod(a as int, b as int);
        assert(a == (q * kb + kr) * g) by (nonlinear_arith)
            requires
                a == b * q + r,
                b == kb * g,
                r == kr * g,
        ;
        (q * kb + kr, kb)
    }
}

/// Whatever divides both arguments divides their greatest common divisor.
pub proof fn lemma_common_divisor(a: nat, b: nat, c: nat, ka: nat, kb: nat) -> (k: nat)
    requires
        c > 0,
        a == ka * c,
        b == kb * c,
    ensures
        gcd(a, b) == k * c,
    decreases b,
{
    if b == 0 {
        ka
    } else {
        let r = a % b;
        let q = a / b;
        vstd::arithmetic::div_mod::lemma_fundamental_div_mod(a as int, b as int);
        assert(r == (ka - q * kb) * c) by (nonlinear_arith)
            requires
                a == b * q + r,
                a == ka * c,
                b == kb * c,
        ;
        assert(ka - q * kb >= 0) by (nonlinear_arith)
            requires
                r == (ka - q * kb) * c,
                r >= 0,
                c > 0,
        ;
        lemma_common_divisor(b, r, c, kb, (ka - q * kb) as nat)
    }
}

/// A reduced fraction is in lowest terms.
pub proof fn lemma_reduced_lowest(q: Rat)
    requires
        q.wf(),
    ensures
        q.reduced().lowest(),
{
    let a = magnitude(q.num);
    let d = magnitude(q.den);
    let g = gcd(a, d);
    let (ka, kd) = lemma_gcd_divides(a, d);
    vstd::arithmetic::div_mod::lemma_div_by_multiple(ka as int, g as int);
    vstd::arithmetic::div_mod::lemma_div_by_multiple(kd as int, g as int);
    assert((a as int) / (g as int) == ka);
    assert((d as int) / (g as int) == kd);
    assert(kd > 0) by (nonlinear_arith)
        requires
            d == kd * g,
            d > 0,
            g > 0,
    ;
    assert(magnitude(q.reduced().num) == ka);
    assert(magnitude(q.reduced().den) == kd);
    let h = gcd(ka, kd);
    let (x, y) = lemma_gcd_divides(ka, kd);
    assert(a == x * (h * g)) by (nonlinear_arith)
        requires
            a == ka * g,
            ka == x * h,
    ;
    assert(d == y * (h * g)) by (nonlinear_arith)
        requires
            d == kd * g,
            kd == y * h,
    ;
    assert(h * g > 0) by (nonlinear_arith)
        requires
            h > 0,
            g > 0,
    ;
    let k = lemma_common_divisor(a, d, h * g, x, y);
    assert(h == 1) by (nonlinear_arith)
        requires
            g == k * (h * g),
            g > 0,
            h > 0,
    ;
}

/// The divisor found for a positive second argument is positive and no
/// larger than it.
pub proof fn lemma_gcd_positive(a: nat, b: nat)
    requires
        b > 0,
    ensures
        0 < gcd(a, b) <= b,
    decreases b,
{
    if a % b == 0 {
        assert(gcd(b, a % b) == b);
    } else {
        lemma_gcd_positive(b, a % b);
    }
}

} // verus!
