//! Stock splits and what they do to prices and to purchases.

use crate::date::Date;
use crate::error::ReturnError;
use crate::models::PortfolioPurchase;
use crate::ratio::lemma_over_positive;
use crate::ratio::Ratio;
use crate::table::items_of;
use crate::table::texts;
use crate::table::Table;
use crate::table::TableModel;
use vstd::prelude::*;

verus! {

/// A split: on `date`, `from_quantity` old shares became `to_quantity` new
/// ones. Both quantities are positive.
#[derive(Clone, Copy, PartialEq, Eq, Structural, Debug)]
pub struct SplitEvent {
    date: Date,
    from_quantity: Ratio,
    to_quantity: Ratio,
}

impl SplitEvent {
    /// What holds of every value: both quantities are positive.
    #[verifier::type_invariant]
    pub closed spec fn inv(&self) -> bool {
        self.from_quantity@.num > 0 && self.to_quantity@.num > 0
    }

    /// The day the split took effect.
    pub closed spec fn spec_date(&self) -> Date {
        self.date
    }

    /// How many old shares the split takes.
    pub closed spec fn spec_from_quantity(&self) -> Ratio {
        self.from_quantity
    }

    /// How many new shares the split gives for them.
    pub closed spec fn spec_to_quantity(&self) -> Ratio {
        self.to_quantity
    }

    /// Both quantities are positive.
    pub open spec fn valid(&self) -> bool {
        self.spec_from_quantity()@.num > 0 && self.spec_to_quantity()@.num > 0
    }

    /// The type invariant, over the public accessors.
    pub proof fn lemma_valid(self)
        requires
            self.inv(),
        ensures
            self.valid(),
    {
    }

    /// The split on `date` with the given quantities, as a value.
    pub closed spec fn of(date: Date, from_quantity: Ratio, to_quantity: Ratio) -> SplitEvent {
        SplitEvent { date, from_quantity, to_quantity }
    }

    /// The parts of a split are the parts it was made of.
    pub proof fn lemma_of(date: Date, from_quantity: Ratio, to_quantity: Ratio)
        ensures
            SplitEvent::of(date, from_quantity, to_quantity).spec_date() == date,
            SplitEvent::of(date, from_quantity, to_quantity).spec_from_quantity() == from_quantity,
            SplitEvent::of(date, from_quantity, to_quantity).spec_to_quantity() == to_quantity,
    {
    }

    /// A split on `date`; `None` unless both quantities are positive.
    pub fn new(date: Date, from_quantity: Ratio, to_quantity: Ratio) -> (r: Option<SplitEvent>)
        ensures
            r is Some <==> from_quantity@.num > 0 && to_quantity@.num > 0,
            r matches Some(e) ==> e == SplitEvent::of(date, from_quantity, to_quantity)
                && e.spec_date() == date && e.spec_from_quantity() == from_quantity
                && e.spec_to_quantity() == to_quantity,
    {
        if from_quantity.is_positive() && to_quantity.is_positive() {
            Some(SplitEvent { date, from_quantity, to_quantity })
        } else {
            None
        }
    }

    /// The day the split took effect.
    #[verifier::when_used_as_spec(spec_date)]
    pub fn date(&self) -> (d: Date)
        ensures
            d == self.spec_date(),
    {
        self.date
    }

    /// How many old shares the split takes.
    #[verifier::when_used_as_spec(spec_from_quantity)]
    pub fn from_quantity(&self) -> (q: Ratio)
        ensures
            q == self.spec_from_quantity(),
            q@.num > 0,
    {
        proof {
            use_type_invariant(self);
        }
        self.from_quantity
    }

    /// How many new shares the split gives for them.
    #[verifier::when_used_as_spec(spec_to_quantity)]
    pub fn to_quantity(&self) -> (q: Ratio)
        ensures
            q == self.spec_to_quantity(),
            q@.num > 0,
    {
        proof {
            use_type_invariant(self);
        }
        self.to_quantity
    }
}

/// Whether a split on `date` counts for the span that begins after `after`
/// and ends with `until`.
pub open spec fn in_span(date: Date, after: Date, until: Date) -> bool {
    after.days < date.days <= until.days
}

/// The splits recorded under the first `upto` of `symbols`, those of one
/// symbol after those of the symbol before it.
pub open spec fn splits_of(splits: TableModel<SplitEvent>, symbols: Seq<Seq<char>>, upto: int) -> Seq<
    SplitEvent,
>
    decreases upto,
{
    if upto <= 0 {
        Seq::empty()
    } else {
        let rest = splits_of(splits, symbols, upto - 1);
        match items_of(splits, symbols[upto - 1]) {
            Some(events) => rest + events,
            None => rest,
        }
    }
}

/// A price after one split: within the span it is multiplied by
/// `from_quantity / to_quantity`, outside it is left alone.
pub open spec fn price_after(price: Ratio, event: SplitEvent, start: Date, end: Date) -> Option<
    Ratio,
> {
    if in_span(event.date(), start, end) {
        match event.from_quantity().spec_over(event.to_quantity()) {
            Some(factor) => price.spec_times(factor),
            None => None,
        }
    } else {
        Some(price)
    }
}

/// A price after the first `upto` of `events`, each applied once and in
/// order; `None` as soon as a figure does not fit.
pub open spec fn adjusted_price(
    events: Seq<SplitEvent>,
    start: Date,
    end: Date,
    price: Ratio,
    upto: int,
) -> Option<Ratio>
    decreases upto,
{
    if upto <= 0 {
        Some(price)
    } else {
        match adjusted_price(events, start, end, price, upto - 1) {
            Some(so_far) => price_after(so_far, events[upto - 1], start, end),
            None => None,
        }
    }
}

/// A purchase after one split: if the split falls after the purchase and
/// no later than `end`, the shares are multiplied by
/// `to_quantity / from_quantity` and the cost basis is divided by it.
pub open spec fn lot_after(lot: PortfolioPurchase, event: SplitEvent, end: Date) -> Option<
    PortfolioPurchase,
> {
    if in_span(event.date(), lot.purchase_date, end) {
        match event.to_quantity().spec_over(event.from_quantity()) {
            Some(multiplier) => match (
                lot.shares_qty.spec_times(multiplier),
                lot.cost_basis.spec_over(multiplier),
            ) {
                (Some(shares), Some(cost)) => Some(
                    PortfolioPurchase {
                        purchase_date: lot.purchase_date,
                        shares_qty: shares,
                        cost_basis: cost,
                    },
                ),
                _ => None,
            },
            None => None,
        }
    } else {
        Some(lot)
    }
}

/// A purchase after the first `upto` of `events`, each applied once and in
/// order; `None` as soon as a figure does not fit.
pub open spec fn adjusted_lot(
    events: Seq<SplitEvent>,
    end: Date,
    lot: PortfolioPurchase,
    upto: int,
) -> Option<PortfolioPurchase>
    decreases upto,
{
    if upto <= 0 {
        Some(lot)
    } else {
        match adjusted_lot(events, end, lot, upto - 1) {
            Some(so_far) => lot_after(so_far, events[upto - 1], end),
            None => None,
        }
    }
}

/// The first `upto` of `lots`, each after all of `events`; `None` if a
/// figure of one of them does not fit.
pub open spec fn adjusted_lots(
    lots: Seq<PortfolioPurchase>,
    events: Seq<SplitEvent>,
    end: Date,
    upto: int,
) -> Option<Seq<PortfolioPurchase>>
    decreases upto,
{
    if upto <= 0 {
        Some(Seq::empty())
    } else {
        match (
            adjusted_lots(lots, events, end, upto - 1),
            adjusted_lot(events, end, lots[upto - 1], events.len() as int),
        ) {
            (Some(done), Some(lot)) => Some(done.push(lot)),
            _ => None,
        }
    }
}

/// Once a figure does not fit, no later split brings the price back.
pub proof fn lemma_adjusted_price_fails(
    events: Seq<SplitEvent>,
    start: Date,
    end: Date,
    price: Ratio,
    at: int,
    upto: int,
)
    requires
        at <= upto,
        adjusted_price(events, start, end, price, at) is None,
    ensures
        adjusted_price(events, start, end, price, upto) is None,
    decreases upto,
{
    if at < upto {
        lemma_adjusted_price_fails(events, start, end, price, at, upto - 1);
    }
}

/// Once a figure does not fit, no later split brings the purchase back.
pub proof fn lemma_adjusted_lot_fails(
    events: Seq<SplitEvent>,
    end: Date,
    lot: PortfolioPurchase,
    at: int,
    upto: int,
)
    requires
        at <= upto,
        adjusted_lot(events, end, lot, at) is None,
    ensures
        adjusted_lot(events, end, lot, upto) is None,
    decreases upto,
{
    if at < upto {
        lemma_adjusted_lot_fails(events, end, lot, at, upto - 1);
    }
}

/// Once one purchase cannot be adjusted, the list cannot.
pub proof fn lemma_adjusted_lots_fail(
    lots: Seq<PortfolioPurchase>,
    events: Seq<SplitEvent>,
    end: Date,
    at: int,
    upto: int,
)
    requires
        at <= upto,
        adjusted_lots(lots, events, end, at) is None,
    ensures
        adjusted_lots(lots, events, end, upto) is None,
    decreases upto,
{
    if at < upto {
        lemma_adjusted_lots_fail(lots, events, end, at, upto - 1);
    }
}

/// The adjusted list holds, place by place, each purchase after all
/// splits.
pub proof fn lemma_adjusted_lots_shape(
    lots: Seq<PortfolioPurchase>,
    events: Seq<SplitEvent>,
    end: Date,
    upto: int,
)
    requires
        0 <= upto <= lots.len(),
    ensures
        adjusted_lots(lots, events, end, upto) matches Some(done) ==> done.len() == upto
            && forall|i: int|
            0 <= i < upto ==> adjusted_lot(events, end, lots[i], events.len() as int) == Some(
                #[trigger] done[i],
            ),
    decreases upto,
{
    if upto > 0 {
        lemma_adjusted_lots_shape(lots, events, end, upto - 1);
    }
}

/// The splits recorded under any of `symbols`, those of one symbol after
/// those of the symbol before it.
pub fn lineage_splits(splits: &Table<SplitEvent>, symbols: &Vec<String>) -> (events: Vec<
    SplitEvent,
>)
    ensures
        events@ == splits_of(splits@, texts(symbols@), symbols@.len() as int),
{
    let mut events: Vec<SplitEvent> = Vec::new();
    let mut i: usize = 0;
    while i < symbols.len()
        invariant
            i <= symbols@.len(),
            events@ == splits_of(splits@, texts(symbols@), i as int),
        decreases symbols@.len() - i,
    {
        assert(texts(symbols@)[i as int] == symbols@[i as int]@);
        match splits.get(&symbols[i]) {
            Some(recorded) => {
                let ghost before = events@;
                let mut j: usize = 0;
                while j < recorded.len()
                    invariant
                        j <= recorded@.len(),
                        events@ == before + recorded@.take(j as int),
                    decreases recorded@.len() - j,
                {
                    events.push(recorded[j]);
                    assert(events@ =~= before + recorded@.take(j + 1));
                    j += 1;
                }
                assert(recorded@.take(recorded@.len() as int) =~= recorded@);
            },
            None => {},
        }
        i += 1;
    }
    events
}

/// Restates `price` in shares as they are counted at `end_date`: every
/// split after `start_date` and no later than `end_date` multiplies it by
/// `from_quantity / to_quantity`, once. `Overflow` exactly when a figure on
/// the way does not fit.
pub fn handle_split_price(
    splits: &Vec<SplitEvent>,
    start_date: Date,
    end_date: Date,
    price: Ratio,
) -> (r: Result<Ratio, ReturnError>)
    ensures
        match r {
            Ok(adjusted) => adjusted_price(
                splits@,
                start_date,
                end_date,
                price,
                splits@.len() as int,
            ) == Some(adjusted),
            Err(e) => e == ReturnError::Overflow && adjusted_price(
                splits@,
                start_date,
                end_date,
                price,
                splits@.len() as int,
            ) is None,
        },
{
    let mut current = price;
    let mut i: usize = 0;
    while i < splits.len()
        invariant
            i <= splits@.len(),
            adjusted_price(splits@, start_date, end_date, price, i as int) == Some(current),
        decreases splits@.len() - i,
    {
        let event = splits[i];
        if start_date.days < event.date().days && event.date().days <= end_date.days {
            let next = match event.from_quantity().over(&event.to_quantity()) {
                Some(factor) => current.times(&factor),
                None => None,
            };
            match next {
                Some(value) => {
                    current = value;
                },
                None => {
                    proof {
                        lemma_adjusted_price_fails(
                            splits@,
                            start_date,
                            end_date,
                            price,
                            i + 1,
                            splits@.len() as int,
                        );
                    }
                    return Err(ReturnError::Overflow);
                },
            }
        }
        i += 1;
    }
    Ok(current)
}

/// One purchase restated in shares as they are counted at `end_date`.
pub fn adjust_lot(lot: PortfolioPurchase, splits: &Vec<SplitEvent>, end_date: Date) -> (r: Option<
    PortfolioPurchase,
>)
    ensures
        r == adjusted_lot(splits@, end_date, lot, splits@.len() as int),
{
    let mut current = lot;
    let mut i: usize = 0;
    while i < splits.len()
        invariant
            i <= splits@.len(),
            adjusted_lot(splits@, end_date, lot, i as int) == Some(current),
        decreases splits@.len() - i,
    {
        let event = splits[i];
        if current.purchase_date.days < event.date().days && event.date().days <= end_date.days {
            let to = event.to_quantity();
            let from = event.from_quantity();
            let next = match to.over(&from) {
                Some(multiplier) => {
                    proof {
                        use_type_invariant(&to);
                        use_type_invariant(&from);
                        to.lemma_wf();
                        from.lemma_wf();
                        lemma_over_positive(to@, from@);
                        Ratio::lemma_of_rat(to@.over(from@));
                    }
                    match (
                        current.shares_qty.times(&multiplier),
                        current.cost_basis.over(&multiplier),
                    ) {
                        (Some(shares), Some(cost)) => Some(
                            PortfolioPurchase {
                                purchase_date: current.purchase_date,
                                shares_qty: shares,
                                cost_basis: cost,
                            },
                        ),
                        _ => None,
                    }
                },
                None => None,
            };
            match next {
                Some(value) => {
                    current = value;
                },
                None => {
                    proof {
                        lemma_adjusted_lot_fails(
                            splits@,
                            end_date,
                            lot,
                            i + 1,
                            splits@.len() as int,
                        );
                    }
                    return None;
                },
            }
        }
        i += 1;
    }
    Some(current)
}

/// The purchases restated in shares as they are counted at `end_date`.
pub fn adjust_lots(purchases: &Vec<PortfolioPurchase>, splits: &Vec<SplitEvent>, end_date: Date) -> (r:
    Option<Vec<PortfolioPurchase>>)
    ensures
        r matches Some(done) ==> adjusted_lots(
            purchases@,
            splits@,
            end_date,
            purchases@.len() as int,
        ) == Some(done@),
        r is None ==> adjusted_lots(purchases@, splits@, end_date, purchases@.len() as int)
            is None,
{
    let mut done: Vec<PortfolioPurchase> = Vec::new();
    let mut i: usize = 0;
    while i < purchases.len()
        invariant
            i <= purchases@.len(),
            adjusted_lots(purchases@, splits@, end_date, i as int) == Some(done@),
        decreases purchases@.len() - i,
    {
        match adjust_lot(purchases[i], splits, end_date) {
            Some(lot) => {
                done.push(lot);
            },
            None => {
                proof {
                    lemma_adjusted_lots_fail(
                        purchases@,
                        splits@,
                        end_date,
                        i + 1,
                        purchases@.len() as int,
                    );
                }
                return None;
            },
        }
        i += 1;
    }
    Some(done)
}

/// Restates every purchase in shares as they are counted at `end_date`:
/// every split after the purchase and no later than `end_date` multiplies
/// its shares by `to_quantity / from_quantity` and divides its cost basis
/// by the same, once. `Overflow` exactly when a figure on the way does not
/// fit, and then the purchases are left as they were.
pub fn handle_split_customer_position(
    purchases: &mut Vec<PortfolioPurchase>,
    splits: &Vec<SplitEvent>,
    end_date: Date,
) -> (r: Result<(), ReturnError>)
    ensures
        match r {
            Ok(_) => adjusted_lots(
                old(purchases)@,
                splits@,
                end_date,
                old(purchases)@.len() as int,
            ) == Some(final(purchases)@),
            Err(e) => e == ReturnError::Overflow && adjusted_lots(
                old(purchases)@,
                splits@,
                end_date,
                old(purchases)@.len() as int,
            ) is None && final(purchases)@ == old(purchases)@,
        },
{
    match adjust_lots(purchases, splits, end_date) {
        Some(done) => {
            *purchases = done;
            Ok(())
        },
        None => Err(ReturnError::Overflow),
    }
}

/// The first position below `upto` of a split on `date`.
pub open spec fn event_position(events: Seq<SplitEvent>, date: Date, upto: int) -> Option<int>
    decreases upto,
{
    if upto <= 0 {
        None
    } else {
        match event_position(events, date, upto - 1) {
            Some(i) => Some(i),
            None => if events[upto - 1].date() == date {
                Some(upto - 1)
            } else {
                None
            },
        }
    }
}

/// The splits with `event` recorded: it takes the place of a split on the
/// same date, or goes last.
pub open spec fn with_event(events: Seq<SplitEvent>, event: SplitEvent) -> Seq<SplitEvent> {
    match event_position(events, event.date(), events.len() as int) {
        Some(i) => events.update(i, event),
        None => events.push(event),
    }
}

/// `event_position` finds the first split on the date, and finds one
/// whenever there is one.
pub proof fn lemma_event_position(events: Seq<SplitEvent>, date: Date, upto: int)
    requires
        0 <= upto <= events.len(),
    ensures
        match event_position(events, date, upto) {
            Some(i) => 0 <= i < upto && events[i].date() == date && forall|j: int|
                0 <= j < i ==> (#[trigger] events[j]).date() != date,
            None => forall|j: int| 0 <= j < upto ==> (#[trigger] events[j]).date() != date,
        },
    decreases upto,
{
    if upto > 0 {
        lemma_event_position(events, date, upto - 1);
    }
}

/// Records `event`, in place of a split on the same date if there is one.
pub fn record_event(events: &mut Vec<SplitEvent>, event: SplitEvent)
    ensures
        final(events)@ == with_event(old(events)@, event),
{
    let mut i: usize = 0;
    while i < events.len()
        invariant
            i <= events@.len(),
            events@ == old(events)@,
            event_position(events@, event.date(), i as int) is None,
        decreases events@.len() - i,
    {
        if events[i].date().days == event.date().days {
            proof {
                lemma_event_position(events@, event.date(), events@.len() as int);
                lemma_event_found(events@, event.date(), i as int, events@.len() as int);
            }
            events.set(i, event);
            return ;
        }
        i += 1;
    }
    events.push(event);
}

/// A split found at `at` with none before it is found by every longer
/// search.
pub proof fn lemma_event_found(events: Seq<SplitEvent>, date: Date, at: int, upto: int)
    requires
        0 <= at < upto,
        event_position(events, date, at) is None,
        events[at].date() == date,
    ensures
        event_position(events, date, upto) == Some(at),
    decreases upto,
{
    if at + 1 < upto {
        lemma_event_found(events, date, at, upto - 1);
    }
}

} // verus!
