//! What split adjustment preserves: every split counts once, and the
//! restated figures multiply to the values the recorded figures had.

use crate::algebra::lemma_eqv_transitive;
use crate::algebra::lemma_of_rat_eqv;
use crate::algebra::lemma_over_quotient;
use crate::algebra::lemma_times_congruent;
use crate::algebra::lemma_times_wf;
use crate::date::Date;
use crate::models::PortfolioPurchase;
use crate::ratio::lemma_over_positive;
use crate::ratio::Rat;
use crate::ratio::Ratio;
use crate::splits::adjusted_lot;
use crate::splits::adjusted_lots;
use crate::splits::lemma_adjusted_lots_shape;
use crate::splits::adjusted_price;
use crate::splits::in_span;
use crate::splits::lot_after;
use crate::splits::price_after;
use crate::splits::SplitEvent;
use vstd::prelude::*;

verus! {

/// Every split of the list has positive, well-formed quantities.
pub open spec fn all_valid(events: Seq<SplitEvent>) -> bool {
    forall|i: int|
        0 <= i < events.len() ==> (#[trigger] events[i]).valid() && events[i].from_quantity()@.wf()
            && events[i].to_quantity()@.wf()
}

/// The factor of one split: `from_quantity / to_quantity`.
pub open spec fn factor_of(event: SplitEvent) -> Rat {
    event.from_quantity()@.over(event.to_quantity()@)
}

/// The product of the factors of those of the first `upto` splits that
/// fall after `after` and no later than `until`. Each such split gives
/// one factor.
pub open spec fn span_factor(events: Seq<SplitEvent>, after: Date, until: Date, upto: int) -> Rat
    decreases upto,
{
    if upto <= 0 {
        Rat { num: 1, den: 1 }
    } else {
        let rest = span_factor(events, after, until, upto - 1);
        if in_span(events[upto - 1].date(), after, until) {
            rest.times(factor_of(events[upto - 1]))
        } else {
            rest
        }
    }
}

/// The factor of a span is a positive fraction.
pub proof fn lemma_span_factor_positive(
    events: Seq<SplitEvent>,
    after: Date,
    until: Date,
    upto: int,
)
    requires
        all_valid(events),
        0 <= upto <= events.len(),
    ensures
        span_factor(events, after, until, upto).wf(),
        span_factor(events, after, until, upto).num > 0,
    decreases upto,
{
    if upto > 0 {
        lemma_span_factor_positive(events, after, until, upto - 1);
        let rest = span_factor(events, after, until, upto - 1);
        let e = events[upto - 1];
        lemma_over_positive(e.from_quantity()@, e.to_quantity()@);
        let f = factor_of(e);
        lemma_times_wf(rest, f);
        assert(rest.num * f.num > 0) by (nonlinear_arith)
            requires
                rest.num > 0,
                f.num > 0,
        ;
    }
}

/// Spans that take the same splits have the same factor.
pub proof fn lemma_span_factor_same(
    events: Seq<SplitEvent>,
    after: Date,
    other: Date,
    until: Date,
    upto: int,
)
    requires
        0 <= upto <= events.len(),
        forall|i: int|
            0 <= i < events.len() ==> in_span((#[trigger] events[i]).date(), after, until)
                == in_span(events[i].date(), other, until),
    ensures
        span_factor(events, after, until, upto) == span_factor(events, other, until, upto),
    decreases upto,
{
    if upto > 0 {
        lemma_span_factor_same(events, after, other, until, upto - 1);
        assert(in_span(events[upto - 1].date(), after, until) == in_span(
            events[upto - 1].date(),
            other,
            until,
        ));
    }
}

proof fn lemma_regroup(a: Rat, b: Rat, c: Rat)
    ensures
        a.times(b).times(c).eqv(a.times(b.times(c))),
        a.times(b.times(c)).eqv(a.times(c).times(b)),
{
    let (an, ad, bn, bd, cn, cd) = (a.num, a.den, b.num, b.den, c.num, c.den);
    assert(((an * bn) * cn) * (ad * (bd * cd)) == (an * (bn * cn)) * ((ad * bd) * cd))
        by (nonlinear_arith);
    assert((an * (bn * cn)) * ((ad * cd) * bd) == ((an * cn) * bn) * (ad * (bd * cd)))
        by (nonlinear_arith);
}

proof fn lemma_inverse_factors(s: Rat, g: Rat, p: Rat, q: Rat)
    requires
        p.num > 0,
        q.num > 0,
    ensures
        s.times(q.over(p)).times(g.times(p.over(q))).eqv(s.times(g)),
{
    let (sn, sd, gn, gd) = (s.num, s.den, g.num, g.den);
    let (pn, pd, qn, qd) = (p.num, p.den, q.num, q.den);
    assert(((sn * (qn * pd)) * (gn * (pn * qd))) * (sd * gd) == (sn * gn) * ((sd * (qd * pn)) * (gd
        * (pd * qn)))) by (nonlinear_arith);
}

/// The adjusted price has the value of the price times the factor of each
/// split of the span, each taken once.
pub proof fn lemma_adjusted_price_value(
    events: Seq<SplitEvent>,
    start: Date,
    end: Date,
    price: Ratio,
    upto: int,
)
    requires
        all_valid(events),
        price@.wf(),
        0 <= upto <= events.len(),
    ensures
        adjusted_price(events, start, end, price, upto) matches Some(adjusted) ==> adjusted@.wf()
            && adjusted@.eqv(price@.times(span_factor(events, start, end, upto))),
    decreases upto,
{
    if upto <= 0 {
        assert(price@.num * (price@.den * 1) == (price@.num * 1) * price@.den)
            by (nonlinear_arith);
    } else {
        lemma_adjusted_price_value(events, start, end, price, upto - 1);
        lemma_span_factor_positive(events, start, end, upto - 1);
        match adjusted_price(events, start, end, price, upto - 1) {
            Some(so_far) => {
                let e = events[upto - 1];
                let rest = span_factor(events, start, end, upto - 1);
                if in_span(e.date(), start, end) && price_after(so_far, e, start, end) is Some {
                    let f = factor_of(e);
                    lemma_over_positive(e.from_quantity()@, e.to_quantity()@);
                    lemma_of_rat_eqv(f);
                    let reduced = e.from_quantity().spec_over(e.to_quantity())->0;
                    let exact = so_far@.times(reduced@);
                    lemma_times_wf(so_far@, reduced@);
                    lemma_of_rat_eqv(exact);
                    let adjusted = so_far.spec_times(reduced)->0;
                    // adjusted ~ so_far * reduced ~ (price * rest) * f ~ price * (rest * f)
                    lemma_times_congruent(so_far@, price@.times(rest), reduced@, f);
                    lemma_regroup(price@, rest, f);
                    lemma_times_wf(price@, rest);
                    lemma_times_wf(price@.times(rest), f);
                    lemma_eqv_transitive(adjusted@, exact, price@.times(rest).times(f));
                    lemma_eqv_transitive(
                        adjusted@,
                        price@.times(rest).times(f),
                        price@.times(rest.times(f)),
                    );
                }
            },
            None => {},
        }
    }
}

/// The restated purchase keeps its date; its shares times the factor of
/// the span since the purchase have the value of the recorded shares, and
/// its cost basis has the value of the recorded cost basis times that
/// factor. Each split of the span counts once.
pub proof fn lemma_adjusted_lot_value(
    events: Seq<SplitEvent>,
    end: Date,
    lot: PortfolioPurchase,
    upto: int,
)
    requires
        all_valid(events),
        lot.shares_qty@.wf(),
        lot.cost_basis@.wf(),
        0 <= upto <= events.len(),
    ensures
        adjusted_lot(events, end, lot, upto) matches Some(restated) ==> {
            let factor = span_factor(events, lot.purchase_date, end, upto);
            &&& restated.purchase_date == lot.purchase_date
            &&& restated.shares_qty@.wf()
            &&& restated.cost_basis@.wf()
            &&& restated.shares_qty@.times(factor).eqv(lot.shares_qty@)
            &&& restated.cost_basis@.eqv(lot.cost_basis@.times(factor))
        },
    decreases upto,
{
    if upto <= 0 {
        let s = lot.shares_qty@;
        let c = lot.cost_basis@;
        assert((s.num * 1) * s.den == s.num * (s.den * 1)) by (nonlinear_arith);
        assert(c.num * (c.den * 1) == (c.num * 1) * c.den) by (nonlinear_arith);
    } else {
        lemma_adjusted_lot_value(events, end, lot, upto - 1);
        lemma_span_factor_positive(events, lot.purchase_date, end, upto - 1);
        match adjusted_lot(events, end, lot, upto - 1) {
            Some(so_far) => {
                let e = events[upto - 1];
                let rest = span_factor(events, lot.purchase_date, end, upto - 1);
                if in_span(e.date(), so_far.purchase_date, end) && lot_after(so_far, e, end)
                    is Some {
                    let restated = lot_after(so_far, e, end)->0;
                    let from = e.from_quantity()@;
                    let to = e.to_quantity()@;
                    let f = factor_of(e);
                    let m = to.over(from);
                    lemma_over_positive(from, to);
                    lemma_over_positive(to, from);
                    lemma_of_rat_eqv(m);
                    let multiplier = e.to_quantity().spec_over(e.from_quantity())->0;
                    let factor = rest.times(f);
                    lemma_times_wf(rest, f);
                    // shares
                    let s0 = so_far.shares_qty@;
                    let s = restated.shares_qty@;
                    lemma_times_wf(s0, multiplier@);
                    lemma_of_rat_eqv(s0.times(multiplier@));
                    lemma_times_congruent(s0, s0, multiplier@, m);
                    lemma_times_wf(s0, m);
                    lemma_eqv_transitive(s, s0.times(multiplier@), s0.times(m));
                    lemma_times_congruent(s, s0.times(m), factor, factor);
                    lemma_inverse_factors(s0, rest, from, to);
                    lemma_times_wf(s0.times(m), factor);
                    lemma_eqv_transitive(s.times(factor), s0.times(m).times(factor), s0.times(rest));
                    lemma_times_wf(s0, rest);
                    lemma_eqv_transitive(s.times(factor), s0.times(rest), lot.shares_qty@);
                    // cost basis
                    let c0 = so_far.cost_basis@;
                    let c = restated.cost_basis@;
                    let exact = c0.over(multiplier@);
                    assert(exact.wf()) by (nonlinear_arith)
                        requires
                            exact.den == c0.den * multiplier@.num,
                            c0.den > 0,
                            multiplier@.num > 0,
                    ;
                    lemma_of_rat_eqv(exact);
                    lemma_over_quotient(c0, multiplier@, to, from);
                    lemma_times_wf(c0, f);
                    lemma_eqv_transitive(c, exact, c0.times(f));
                    let recorded = lot.cost_basis@;
                    lemma_times_congruent(c0, recorded.times(rest), f, f);
                    lemma_times_wf(recorded, rest);
                    lemma_times_wf(recorded.times(rest), f);
                    lemma_eqv_transitive(c, c0.times(f), recorded.times(rest).times(f));
                    lemma_regroup(recorded, rest, f);
                    lemma_eqv_transitive(
                        c,
                        recorded.times(rest).times(f),
                        recorded.times(rest.times(f)),
                    );
                }
            },
            None => {},
        }
    }
}

/// Restating a purchase keeps what its shares and its cost basis multiply
/// to: the shares grow by the factor by which the cost basis shrinks.
pub proof fn lemma_position_keeps_total_cost(
    events: Seq<SplitEvent>,
    end: Date,
    lot: PortfolioPurchase,
)
    requires
        all_valid(events),
        lot.shares_qty@.wf(),
        lot.cost_basis@.wf(),
    ensures
        adjusted_lot(events, end, lot, events.len() as int) matches Some(restated)
            ==> restated.shares_qty@.times(restated.cost_basis@).eqv(
            lot.shares_qty@.times(lot.cost_basis@),
        ),
{
    let n = events.len() as int;
    lemma_adjusted_lot_value(events, end, lot, n);
    lemma_span_factor_positive(events, lot.purchase_date, end, n);
    match adjusted_lot(events, end, lot, n) {
        Some(restated) => {
            let factor = span_factor(events, lot.purchase_date, end, n);
            let s = restated.shares_qty@;
            let c = restated.cost_basis@;
            let s0 = lot.shares_qty@;
            let c0 = lot.cost_basis@;
            // s * c ~ s * (c0 * factor) ~ (s * factor) * c0 ~ s0 * c0
            lemma_times_congruent(s, s, c, c0.times(factor));
            lemma_regroup(s, c0, factor);
            lemma_times_wf(c0, factor);
            lemma_times_wf(s, c0.times(factor));
            lemma_eqv_transitive(s.times(c), s.times(c0.times(factor)), s.times(factor).times(c0));
            lemma_times_congruent(s.times(factor), s0, c0, c0);
            lemma_times_wf(s, factor);
            lemma_times_wf(s.times(factor), c0);
            lemma_eqv_transitive(s.times(c), s.times(factor).times(c0), s0.times(c0));
        },
        None => {},
    }
}

/// Restating a position keeps the total cost of every purchase in it.
pub proof fn lemma_positions_keep_total_cost(
    events: Seq<SplitEvent>,
    end: Date,
    lots: Seq<PortfolioPurchase>,
)
    requires
        all_valid(events),
        forall|i: int|
            0 <= i < lots.len() ==> (#[trigger] lots[i]).shares_qty@.wf() && lots[i].cost_basis@.wf(),
    ensures
        adjusted_lots(lots, events, end, lots.len() as int) matches Some(done) ==> done.len()
            == lots.len() && forall|i: int|
            0 <= i < lots.len() ==> (#[trigger] done[i]).shares_qty@.times(done[i].cost_basis@).eqv(
                lots[i].shares_qty@.times(lots[i].cost_basis@),
            ),
{
    lemma_adjusted_lots_shape(lots, events, end, lots.len() as int);
    match adjusted_lots(lots, events, end, lots.len() as int) {
        Some(done) => {
            assert forall|i: int| 0 <= i < lots.len() implies (#[trigger] done[i]).shares_qty@.times(
                done[i].cost_basis@,
            ).eqv(lots[i].shares_qty@.times(lots[i].cost_basis@)) by {
                lemma_position_keeps_total_cost(events, end, lots[i]);
            }
        },
        None => {},
    }
}

/// Price adjustment and position adjustment undo each other: for a
/// purchase that the same splits apply to as to the start price, the
/// adjusted price times the restated shares has the value of the recorded
/// price times the recorded shares.
pub proof fn lemma_start_value_unchanged(
    events: Seq<SplitEvent>,
    start: Date,
    end: Date,
    price: Ratio,
    lot: PortfolioPurchase,
)
    requires
        all_valid(events),
        price@.wf(),
        lot.shares_qty@.wf(),
        lot.cost_basis@.wf(),
        forall|i: int|
            0 <= i < events.len() ==> in_span((#[trigger] events[i]).date(), start, end)
                == in_span(events[i].date(), lot.purchase_date, end),
    ensures
        adjusted_price(events, start, end, price, events.len() as int) matches Some(adjusted) ==> (
        adjusted_lot(events, end, lot, events.len() as int) matches Some(restated)
            ==> adjusted@.times(restated.shares_qty@).eqv(price@.times(lot.shares_qty@))),
{
    let n = events.len() as int;
    lemma_adjusted_price_value(events, start, end, price, n);
    lemma_adjusted_lot_value(events, end, lot, n);
    lemma_span_factor_same(events, start, lot.purchase_date, end, n);
    lemma_span_factor_positive(events, start, end, n);
    match (adjusted_price(events, start, end, price, n), adjusted_lot(events, end, lot, n)) {
        (Some(adjusted), Some(restated)) => {
            let factor = span_factor(events, start, end, n);
            let p = adjusted@;
            let s = restated.shares_qty@;
            let p0 = price@;
            let s0 = lot.shares_qty@;
            // p * s ~ (p0 * factor) * s ~ p0 * (factor * s) ~ p0 * (s * factor) ~ p0 * s0
            lemma_times_congruent(p, p0.times(factor), s, s);
            lemma_regroup(p0, factor, s);
            lemma_regroup(p0, s, factor);
            lemma_times_wf(p0, factor);
            lemma_times_wf(p0.times(factor), s);
            lemma_times_wf(factor, s);
            lemma_times_wf(p0, factor.times(s));
            lemma_times_wf(s, factor);
            lemma_times_wf(p0, s.times(factor));
            lemma_times_wf(p0, s);
            lemma_times_wf(p0.times(s), factor);
            lemma_eqv_transitive(p.times(s), p0.times(factor).times(s), p0.times(factor.times(s)));
            lemma_eqv_transitive(p.times(s), p0.times(factor.times(s)), p0.times(s).times(factor));
            // p0 * s * factor ~ p0 * (s * factor)
            lemma_eqv_transitive(p.times(s), p0.times(s).times(factor), p0.times(s.times(factor)));
            lemma_times_congruent(p0, p0, s.times(factor), s0);
            lemma_eqv_transitive(p.times(s), p0.times(s.times(factor)), p0.times(s0));
        },
        _ => {},
    }
}

} // verus!
