//! From records as they are written to the tables a computation reads.

use crate::date::date_text_days;
use crate::date::day_first_format;
use crate::date::iso_format;
use crate::date::Date;
use crate::models::customer_position;
use crate::models::lemma_customer_position;
use crate::models::Alias;
use crate::models::Customer;
use crate::models::Portfolio;
use crate::models::PortfolioModel;
use crate::models::PortfolioPurchase;
use crate::models::PricePoint;
use crate::models::PriceRecord;
use crate::models::Split;
use crate::models::TickerChanges;
use crate::series::record_point;
use crate::series::with_point;
use crate::splits::record_event;
use crate::splits::with_event;
use crate::splits::SplitEvent;
use crate::table::lemma_key_position;
use crate::table::position_of;
use crate::table::with_item;
use crate::table::Row;
use crate::table::Table;
use crate::table::TableModel;
use vstd::prelude::*;

verus! {

/// The price table with the price of one day of `ticker` set.
pub open spec fn with_price(prices: TableModel<PricePoint>, ticker: Seq<char>, point: PricePoint) -> TableModel<
    PricePoint,
> {
    match position_of(prices, ticker) {
        Some(i) => prices.update(i, (ticker, with_point(prices[i].1, point))),
        None => prices.push((ticker, seq![point])),
    }
}

/// The split table with one split of `ticker` recorded.
pub open spec fn with_split(splits: TableModel<SplitEvent>, ticker: Seq<char>, event: SplitEvent) -> TableModel<
    SplitEvent,
> {
    match position_of(splits, ticker) {
        Some(i) => splits.update(i, (ticker, with_event(splits[i].1, event))),
        None => splits.push((ticker, seq![event])),
    }
}

/// The holdings by customer with one purchase added after the purchases of
/// `ticker` by `customer`; a customer not yet known comes last.
pub open spec fn with_purchase(
    portfolios: PortfolioModel,
    customer: Seq<char>,
    ticker: Seq<char>,
    lot: PortfolioPurchase,
) -> PortfolioModel {
    match customer_position(portfolios, customer, portfolios.len() as int) {
        Some(c) => portfolios.update(c, (customer, with_item(portfolios[c].1, ticker, lot))),
        None => portfolios.push(
            (customer, with_item(Seq::<(Seq<char>, Seq<PortfolioPurchase>)>::empty(), ticker, lot)),
        ),
    }
}

/// The price that a record states, if its date can be read.
pub open spec fn price_point_of(record: PriceRecord) -> Option<PricePoint> {
    match Date::of_days(date_text_days(record.date@, iso_format())) {
        Some(date) => Some(PricePoint { date, close: record.close_price }),
        None => None,
    }
}

/// The split that a record states, if its date can be read and both of
/// its quantities are positive.
pub open spec fn split_of(record: Split) -> Option<SplitEvent> {
    match Date::of_days(date_text_days(record.effective_date@, day_first_format())) {
        Some(date) => if record.from_quantity@.num > 0 && record.to_quantity@.num > 0 {
            Some(SplitEvent::of(date, record.from_quantity, record.to_quantity))
        } else {
            None
        },
        None => None,
    }
}

/// The purchase that a record states, if its date can be read.
pub open spec fn purchase_of(record: Portfolio) -> Option<PortfolioPurchase> {
    match Date::of_days(date_text_days(record.purchase_date@, iso_format())) {
        Some(date) => Some(
            PortfolioPurchase {
                purchase_date: date,
                shares_qty: record.shares,
                cost_basis: record.cost_basis,
            },
        ),
        None => None,
    }
}

/// The table of the first `upto` price records, a later record standing
/// over an earlier one for the same ticker and day; `None` if the date of
/// one of them cannot be read.
pub open spec fn prices_from(records: Seq<PriceRecord>, upto: int) -> Option<TableModel<PricePoint>>
    decreases upto,
{
    if upto <= 0 {
        Some(Seq::empty())
    } else {
        match (prices_from(records, upto - 1), price_point_of(records[upto - 1])) {
            (Some(table), Some(point)) => Some(with_price(table, records[upto - 1].ticker@, point)),
            _ => None,
        }
    }
}

/// The table of the first `upto` split records, a later record standing
/// over an earlier one for the same ticker and day; `None` if one of them
/// states no split.
pub open spec fn splits_from(records: Seq<Split>, upto: int) -> Option<TableModel<SplitEvent>>
    decreases upto,
{
    if upto <= 0 {
        Some(Seq::empty())
    } else {
        match (splits_from(records, upto - 1), split_of(records[upto - 1])) {
            (Some(table), Some(event)) => Some(with_split(table, records[upto - 1].ticker@, event)),
            _ => None,
        }
    }
}

/// The holdings of the first `upto` purchase records, in the order of the
/// records; `None` if the date of one of them cannot be read.
pub open spec fn portfolios_from(records: Seq<Portfolio>, upto: int) -> Option<PortfolioModel>
    decreases upto,
{
    if upto <= 0 {
        Some(Seq::empty())
    } else {
        match (portfolios_from(records, upto - 1), purchase_of(records[upto - 1])) {
            (Some(table), Some(lot)) => Some(
                with_purchase(
                    table,
                    records[upto - 1].customer_id@,
                    records[upto - 1].ticker@,
                    lot,
                ),
            ),
            _ => None,
        }
    }
}

/// The symbol changes of the first `upto` records: each record is listed
/// under its old symbol with the new one, and under its new symbol with
/// the old one.
pub open spec fn changes_from(records: Seq<TickerChanges>, upto: int) -> TableModel<Alias>
    decreases upto,
{
    if upto <= 0 {
        Seq::empty()
    } else {
        let record = records[upto - 1];
        with_item(
            with_item(
                changes_from(records, upto - 1),
                record.old_ticker@,
                Alias { effective_date: record.effective_date, ticker: record.new_ticker },
            ),
            record.new_ticker@,
            Alias { effective_date: record.effective_date, ticker: record.old_ticker },
        )
    }
}

/// A record that cannot be read spoils every longer list.
pub proof fn lemma_prices_from_fails(records: Seq<PriceRecord>, at: int, upto: int)
    requires
        at <= upto,
        prices_from(records, at) is None,
    ensures
        prices_from(records, upto) is None,
    decreases upto,
{
    if at < upto {
        lemma_prices_from_fails(records, at, upto - 1);
    }
}

/// A record that cannot be read spoils every longer list.
pub proof fn lemma_portfolios_from_fails(records: Seq<Portfolio>, at: int, upto: int)
    requires
        at <= upto,
        portfolios_from(records, at) is None,
    ensures
        portfolios_from(records, upto) is None,
    decreases upto,
{
    if at < upto {
        lemma_portfolios_from_fails(records, at, upto - 1);
    }
}

/// A record that states no split spoils every longer list.
pub proof fn lemma_splits_from_fails(records: Seq<Split>, at: int, upto: int)
    requires
        at <= upto,
        splits_from(records, at) is None,
    ensures
        splits_from(records, upto) is None,
    decreases upto,
{
    if at < upto {
        lemma_splits_from_fails(records, at, upto - 1);
    }
}

/// Sets the price of one day of `ticker`.
pub fn record_price(prices: &mut Table<PricePoint>, ticker: String, point: PricePoint)
    ensures
        final(prices)@ == with_price(old(prices)@, ticker@, point),
{
    let found = prices.find(&ticker);
    let ghost before = prices@;
    let ghost k = ticker@;
    match found {
        Some(i) => {
            proof {
                lemma_key_position(before, k, before.len() as int);
            }
            record_point(&mut prices.rows[i].items, point);
            assert(prices@ =~= before.update(i as int, (k, with_point(before[i as int].1, point))));
        },
        None => {
            let mut items: Vec<PricePoint> = Vec::new();
            items.push(point);
            prices.rows.push(Row { key: ticker, items });
            assert(prices@ =~= before.push((k, seq![point])));
        },
    }
}

/// Records one split of `ticker`.
pub fn record_split(splits: &mut Table<SplitEvent>, ticker: String, event: SplitEvent)
    ensures
        final(splits)@ == with_split(old(splits)@, ticker@, event),
{
    let found = splits.find(&ticker);
    let ghost before = splits@;
    let ghost k = ticker@;
    match found {
        Some(i) => {
            proof {
                lemma_key_position(before, k, before.len() as int);
            }
            record_event(&mut splits.rows[i].items, event);
            assert(splits@ =~= before.update(i as int, (k, with_event(before[i as int].1, event))));
        },
        None => {
            let mut items: Vec<SplitEvent> = Vec::new();
            items.push(event);
            splits.rows.push(Row { key: ticker, items });
            assert(splits@ =~= before.push((k, seq![event])));
        },
    }
}

/// What a list of customers holds.
pub open spec fn customers_model(customers: Seq<Customer>) -> PortfolioModel {
    Seq::new(customers.len(), |i: int| (customers[i].customer_id@, customers[i].holdings@))
}

/// Adds one purchase of `ticker` by `customer`.
pub fn record_purchase(
    portfolios: &mut Vec<Customer>,
    customer: String,
    ticker: String,
    lot: PortfolioPurchase,
)
    ensures
        customers_model(final(portfolios)@) == with_purchase(
            customers_model(old(portfolios)@),
            customer@,
            ticker@,
            lot,
        ),
{
    let ghost before = customers_model(portfolios@);
    let ghost id = customer@;
    let mut i: usize = 0;
    while i < portfolios.len()
        invariant
            i <= portfolios@.len(),
            portfolios@ == old(portfolios)@,
            before == customers_model(portfolios@),
            forall|j: int| 0 <= j < i ==> (#[trigger] before[j]).0 != id,
            id == customer@,
        decreases portfolios@.len() - i,
    {
        if portfolios[i].customer_id == customer {
            proof {
                assert(before[i as int].0 == id);
                lemma_customer_position(before, id, before.len() as int);
            }
            portfolios[i].holdings.append(ticker, lot);
            assert(customers_model(portfolios@) =~= before.update(
                i as int,
                (id, with_item(before[i as int].1, ticker@, lot)),
            ));
            return ;
        }
        i += 1;
    }
    proof {
        lemma_customer_position(before, id, before.len() as int);
    }
    let mut holdings: Table<PortfolioPurchase> = Table::new();
    holdings.append(ticker, lot);
    portfolios.push(Customer { customer_id: customer, holdings });
    assert(customers_model(portfolios@) =~= before.push(
        (id, with_item(Seq::<(Seq<char>, Seq<PortfolioPurchase>)>::empty(), ticker@, lot)),
    ));
}

/// The price table of `records`; `None` exactly when the date of a record
/// cannot be read.
pub fn read_prices(records: &Vec<PriceRecord>) -> (r: Option<Table<PricePoint>>)
    ensures
        r matches Some(table) ==> prices_from(records@, records@.len() as int) == Some(table@),
        r is None ==> prices_from(records@, records@.len() as int) is None,
{
    let mut table: Table<PricePoint> = Table::new();
    let mut i: usize = 0;
    while i < records.len()
        invariant
            i <= records@.len(),
            prices_from(records@, i as int) == Some(table@),
        decreases records@.len() - i,
    {
        let record = &records[i];
        match Date::parse_iso(record.date.as_str()) {
            Some(date) => {
                record_price(
                    &mut table,
                    record.ticker.clone(),
                    PricePoint { date, close: record.close_price },
                );
            },
            None => {
                proof {
                    lemma_prices_from_fails(records@, i + 1, records@.len() as int);
                }
                return None;
            },
        }
        i += 1;
    }
    Some(table)
}

/// The split table of `records`; `None` exactly when a record has a date
/// that cannot be read or a quantity that is not positive.
pub fn read_splits(records: &Vec<Split>) -> (r: Option<Table<SplitEvent>>)
    ensures
        r matches Some(table) ==> splits_from(records@, records@.len() as int) == Some(table@),
        r is None ==> splits_from(records@, records@.len() as int) is None,
{
    let mut table: Table<SplitEvent> = Table::new();
    let mut i: usize = 0;
    while i < records.len()
        invariant
            i <= records@.len(),
            splits_from(records@, i as int) == Some(table@),
        decreases records@.len() - i,
    {
        let record = &records[i];
        let event = match Date::parse_day_first(record.effective_date.as_str()) {
            Some(date) => SplitEvent::new(date, record.from_quantity, record.to_quantity),
            None => None,
        };
        match event {
            Some(event) => {
                record_split(&mut table, record.ticker.clone(), event);
            },
            None => {
                proof {
                    lemma_splits_from_fails(records@, i + 1, records@.len() as int);
                }
                return None;
            },
        }
        i += 1;
    }
    Some(table)
}

/// The symbol changes of `records`, each listed under both of its
/// symbols.
pub fn read_ticker_changes(records: &Vec<TickerChanges>) -> (table: Table<Alias>)
    ensures
        table@ == changes_from(records@, records@.len() as int),
{
    let mut table: Table<Alias> = Table::new();
    let mut i: usize = 0;
    while i < records.len()
        invariant
            i <= records@.len(),
            table@ == changes_from(records@, i as int),
        decreases records@.len() - i,
    {
        let record = &records[i];
        table.append(
            record.old_ticker.clone(),
            Alias {
                effective_date: record.effective_date.clone(),
                ticker: record.new_ticker.clone(),
            },
        );
        table.append(
            record.new_ticker.clone(),
            Alias {
                effective_date: record.effective_date.clone(),
                ticker: record.old_ticker.clone(),
            },
        );
        i += 1;
    }
    table
}

/// The holdings of `records`; `None` exactly when the date of a record
/// cannot be read.
pub fn read_portfolios(records: &Vec<Portfolio>) -> (r: Option<Vec<Customer>>)
    ensures
        r matches Some(customers) ==> portfolios_from(records@, records@.len() as int) == Some(
            customers_model(customers@),
        ),
        r is None ==> portfolios_from(records@, records@.len() as int) is None,
{
    let mut customers: Vec<Customer> = Vec::new();
    assert(customers_model(customers@) =~= Seq::empty());
    let mut i: usize = 0;
    while i < records.len()
        invariant
            i <= records@.len(),
            portfolios_from(records@, i as int) == Some(customers_model(customers@)),
        decreases records@.len() - i,
    {
        let record = &records[i];
        match Date::parse_iso(record.purchase_date.as_str()) {
            Some(date) => {
                record_purchase(
                    &mut customers,
                    record.customer_id.clone(),
                    record.ticker.clone(),
                    PortfolioPurchase {
                        purchase_date: date,
                        shares_qty: record.shares,
                        cost_basis: record.cost_basis,
                    },
                );
            },
            None => {
                proof {
                    lemma_portfolios_from_fails(records@, i + 1, records@.len() as int);
                }
                return None;
            },
        }
        i += 1;
    }
    Some(customers)
}

} // verus!
