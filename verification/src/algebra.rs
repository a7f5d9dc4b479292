//! Facts about fractions as numbers: what equal value means, and that the
//! operations and the reduction to lowest terms respect it.

use crate::ratio::gcd;
use crate::ratio::lemma_gcd_divides;
use crate::ratio::magnitude;
use crate::ratio::Rat;
use crate::ratio::Ratio;
use vstd::prelude::*;

verus! {

/// Every fraction has its own value.
pub proof fn lemma_eqv_reflexive(a: Rat)
    ensures
        a.eqv(a),
{
}

/// Equal value does not depend on the side.
pub proof fn lemma_eqv_symmetric(a: Rat, b: Rat)
    requires
        a.eqv(b),
    ensures
        b.eqv(a),
{
}

/// Two fractions with the value of a third have the same value.
pub proof fn lemma_eqv_transitive(a: Rat, b: Rat, c: Rat)
    requires
        b.wf(),
        a.eqv(b),
        b.eqv(c),
    ensures
        a.eqv(c),
{
    let (an, ad, bn, bd, cn, cd) = (a.num, a.den, b.num, b.den, c.num, c.den);
    assert(bd * (an * cd - cn * ad) == 0) by (nonlinear_arith)
        requires
            an * bd == bn * ad,
            bn * cd == cn * bd,
    ;
    assert(an * cd - cn * ad == 0) by (nonlinear_arith)
        requires
            bd > 0,
            bd * (an * cd - cn * ad) == 0,
    ;
}

/// The product of well-formed fractions is well formed.
pub proof fn lemma_times_wf(a: Rat, b: Rat)
    requires
        a.wf(),
        b.wf(),
    ensures
        a.times(b).wf(),
{
    assert(a.den * b.den > 0) by (nonlinear_arith)
        requires
            a.den > 0,
            b.den > 0,
    ;
}

/// Products of fractions of equal value have equal value.
pub proof fn lemma_times_congruent(a: Rat, a2: Rat, b: Rat, b2: Rat)
    requires
        a.eqv(a2),
        b.eqv(b2),
    ensures
        a.times(b).eqv(a2.times(b2)),
{
    let (an, ad, bn, bd) = (a.num, a.den, b.num, b.den);
    let (xn, xd, yn, yd) = (a2.num, a2.den, b2.num, b2.den);
    assert((an * bn) * (xd * yd) == (xn * yn) * (ad * bd)) by (nonlinear_arith)
        requires
            an * xd == xn * ad,
            bn * yd == yn * bd,
    {
        assert((an * bn) * (xd * yd) == (an * xd) * (bn * yd));
        assert((xn * yn) * (ad * bd) == (xn * ad) * (yn * bd));
    }
}

/// Dividing by a positive fraction is multiplying by its inverse: for
/// positive `p` and `q`, `a / (p / q)` has the value of `a * (q / p)`.
pub proof fn lemma_over_quotient(a: Rat, m: Rat, p: Rat, q: Rat)
    requires
        p.wf(),
        q.wf(),
        m.wf(),
        p.num > 0,
        q.num > 0,
        m.num > 0,
        m.eqv(p.over(q)),
    ensures
        a.over(m).eqv(a.times(q.over(p))),
{
    let (an, ad, mn, md) = (a.num, a.den, m.num, m.den);
    let (pn, pd, qn, qd) = (p.num, p.den, q.num, q.den);
    assert((an * md) * (ad * (qd * pn)) == (an * (qn * pd)) * (ad * mn)) by (nonlinear_arith)
        requires
            mn * (pd * qn) == (pn * qd) * md,
    {
        assert((an * md) * (ad * (qd * pn)) == (an * ad) * (md * (pn * qd)));
        assert((an * (qn * pd)) * (ad * mn) == (an * ad) * (mn * (pd * qn)));
    }
}

/// A fraction in lowest terms has the value it had.
pub proof fn lemma_reduced_eqv(q: Rat)
    requires
        q.wf(),
    ensures
        q.reduced().wf(),
        q.reduced().eqv(q),
{
    let a = magnitude(q.num);
    let d = magnitude(q.den);
    let g = gcd(a, d);
    let (ka, kd) = lemma_gcd_divides(a, d);
    vstd::arithmetic::div_mod::lemma_div_by_multiple(ka as int, g as int);
    vstd::arithmetic::div_mod::lemma_div_by_multiple(kd as int, g as int);
    assert((a as int) / (g as int) == ka);
    assert((d as int) / (g as int) == kd);
    assert(kd > 0) by (nonlinear_arith)
        requires
            d == kd * g,
            d > 0,
            g > 0,
    ;
    if q.num >= 0 {
        assert(ka * q.den == q.num * kd) by (nonlinear_arith)
            requires
                q.num == ka * g,
                q.den == kd * g,
        ;
    } else {
        assert((-(ka as int)) * q.den == q.num * kd) by (nonlinear_arith)
            requires
                -q.num == ka * g,
                q.den == kd * g,
        ;
    }
}

/// The value that an operation returns is the value of its exact result.
pub proof fn lemma_of_rat_eqv(q: Rat)
    requires
        q.wf(),
    ensures
        Ratio::of_rat(q) matches Some(r) ==> r@.wf() && r@.eqv(q) && (r@.num > 0 <==> q.num > 0),
{
    Ratio::lemma_of_rat(q);
    lemma_reduced_eqv(q);
}

/// The greatest common divisor is a combination of its arguments.
pub proof fn lemma_gcd_combination(a: nat, b: nat) -> (k: (int, int))
    ensures
        k.0 * a + k.1 * b == gcd(a, b),
    decreases b,
{
    if b == 0 {
        assert(1 * a + 0 * b == a) by (nonlinear_arith);
        (1, 0)
    } else {
        let r = a % b;
        let q = a / b;
        let (x, y) = lemma_gcd_combination(b, r);
        vstd::arithmetic::div_mod::lemma_fundamental_div_mod(a as int, b as int);
        let g = gcd(a, b);
        assert(y * a + (x - y * q) * b == g) by (nonlinear_arith)
            requires
                a == b * q + r,
                x * b + y * r == g,
        ;
        (y, x - y * q)
    }
}

/// A number without a common divisor with `m` that `m` divides a product
/// of: `m` divides the other factor.
proof fn lemma_divides_other_factor(m: nat, n: nat, c: int, t: int) -> (k: int)
    requires
        gcd(n, m) == 1,
        n * c == t * m,
    ensures
        c == k * m,
{
    let (x, y) = lemma_gcd_combination(n, m);
    assert(c == (x * t + y * c) * m) by (nonlinear_arith)
        requires
            x * n + y * m == 1,
            n * c == t * m,
    {
        assert(c == (x * n + y * m) * c);
        assert((x * n + y * m) * c == x * (n * c) + y * m * c);
        assert(x * (n * c) == x * (t * m));
    }
    x * t + y * c
}

/// Two fractions in lowest terms with the same value are the same
/// fraction.
pub proof fn lemma_lowest_unique(a: Rat, b: Rat)
    requires
        a.wf(),
        b.wf(),
        a.lowest(),
        b.lowest(),
        a.eqv(b),
    ensures
        a == b,
{
    let an = magnitude(a.num);
    let bn = magnitude(b.num);
    let ad = a.den as nat;
    let bd = b.den as nat;
    // the numerators have the same sign
    assert((a.num > 0 <==> b.num > 0) && (a.num < 0 <==> b.num < 0)) by (nonlinear_arith)
        requires
            a.num * b.den == b.num * a.den,
            a.den > 0,
            b.den > 0,
    ;
    assert(an * bd == bn * ad) by (nonlinear_arith)
        requires
            a.num * b.den == b.num * a.den,
            an == if a.num < 0 {
                -a.num
            } else {
                a.num
            },
            bn == if b.num < 0 {
                -b.num
            } else {
                b.num
            },
            (a.num > 0 <==> b.num > 0) && (a.num < 0 <==> b.num < 0),
            bd == b.den,
            ad == a.den,
    ;
    let k = lemma_divides_other_factor(ad, an, bd as int, bn as int);
    let j = lemma_divides_other_factor(bd, bn, ad as int, an as int);
    assert(ad == bd) by (nonlinear_arith)
        requires
            bd == k * ad,
            ad == j * bd,
            ad > 0,
            bd > 0,
    ;
    assert(a.num == b.num) by (nonlinear_arith)
        requires
            a.num * b.den == b.num * a.den,
            a.den == b.den,
            a.den > 0,
    ;
}

/// Values that denote the same number are the same value.
pub proof fn lemma_equal_value_same(a: Ratio, b: Ratio)
    requires
        a.inv(),
        b.inv(),
        a@.eqv(b@),
    ensures
        a == b,
{
    a.lemma_wf();
    b.lemma_wf();
    lemma_lowest_unique(a@, b@);
    Ratio::lemma_view_injective(a, b);
}

} // verus!
