//! The prices at both ends of the window, for every ticker a customer
//! holds.

use crate::date::Date;
use crate::error::ReturnError;
use crate::lineage::also_known_as;
use crate::lineage::lineage;
use crate::lineage::merge_history;
use crate::lineage::merged_history;
use crate::lineage::other_symbols;
use crate::lineage::any_priced;
use crate::models::customer_position;
use crate::models::Alias;
use crate::models::Args;
use crate::models::Customer;
use crate::models::Data;
use crate::models::PortfolioModel;
use crate::models::PortfolioPurchase;
use crate::models::PricePoint;
use crate::models::TickerPrice;
use crate::series::lemma_trading_day;
use crate::series::locate_trading_day;
use crate::series::price_at;
use crate::series::price_on;
use crate::series::trading_day;
use crate::splits::adjust_lots;
use crate::splits::adjusted_lots;
use crate::splits::adjusted_price;
use crate::splits::handle_split_price;
use crate::splits::lineage_splits;
use crate::splits::splits_of;
use crate::splits::SplitEvent;
use crate::table::copy_items;
use crate::table::texts;
use crate::table::with_items;
use crate::table::Row;
use crate::table::Table;
use crate::table::TableModel;
use crate::timeframe::get_timeframe_days;
use crate::timeframe::resolve_window;
use crate::timeframe::timeframe_days;
use crate::timeframe::window_of;
use vstd::prelude::*;

verus! {

/// What resolving one ticker gives: its window, its purchases restated,
/// its series with the history of its other symbols, and whether any such
/// history was there to merge.
pub struct Resolved {
    pub window: TickerPrice,
    pub lots: Seq<PortfolioPurchase>,
    pub series: Seq<PricePoint>,
    pub merged: bool,
}

/// The executable form of `Resolved`.
pub struct Resolution {
    pub window: TickerPrice,
    pub lots: Vec<PortfolioPurchase>,
    pub series: Vec<PricePoint>,
    pub merged: bool,
}

impl View for Resolution {
    type V = Resolved;

    open spec fn view(&self) -> Resolved {
        Resolved {
            window: self.window,
            lots: self.lots@,
            series: self.series@,
            merged: self.merged,
        }
    }
}

/// The window of one ticker with its name.
pub struct TickerWindow {
    pub ticker: String,
    pub prices: TickerPrice,
}

/// Windows by ticker.
pub type WindowModel = Seq<(Seq<char>, TickerPrice)>;

/// What a list of windows holds.
pub open spec fn windows_model(windows: Seq<TickerWindow>) -> WindowModel {
    Seq::new(windows.len(), |i: int| (windows[i].ticker@, windows[i].prices))
}

/// One ticker resolved against the tables as they stand:
/// the history of its other symbols is merged into its series; the window
/// starts on the trading day found for `start` and ends on `end`; the
/// start price and the purchases are adjusted by the splits recorded under
/// any symbol of the lineage.
pub open spec fn resolve_ticker(
    prices: TableModel<PricePoint>,
    splits: TableModel<SplitEvent>,
    changes: TableModel<Alias>,
    ticker: Seq<char>,
    lots: Seq<PortfolioPurchase>,
    start: Date,
    end: Date,
) -> Result<Resolved, ReturnError> {
    let akas = also_known_as(changes, ticker);
    let series = merged_history(prices, akas, ticker, akas.len() as int);
    let symbols = lineage(changes, ticker);
    let events = splits_of(splits, symbols, symbols.len() as int);
    match trading_day(series, start) {
        None => Err(ReturnError::NoPriorTradingDay),
        Some(first_day) => match price_at(series, end) {
            None => Err(ReturnError::MissingEndPrice),
            Some(end_price) => match price_at(series, first_day) {
                None => Err(ReturnError::PriceNotFound),
                Some(raw_price) => match (
                    adjusted_price(events, first_day, end, raw_price, events.len() as int),
                    adjusted_lots(lots, events, end, lots.len() as int),
                ) {
                    (Some(start_price), Some(restated)) => Ok(
                        Resolved {
                            window: TickerPrice {
                                start_price,
                                end_price,
                                start_date: first_day,
                                end_date: end,
                            },
                            lots: restated,
                            series,
                            merged: any_priced(prices, akas, akas.len() as int),
                        },
                    ),
                    _ => Err(ReturnError::Overflow),
                },
            },
        },
    }
}

/// The first `upto` holdings resolved in order, or the error of the first
/// one that cannot be.
pub open spec fn resolved_upto(
    prices: TableModel<PricePoint>,
    splits: TableModel<SplitEvent>,
    changes: TableModel<Alias>,
    holdings: TableModel<PortfolioPurchase>,
    start: Date,
    end: Date,
    upto: int,
) -> Result<Seq<Resolved>, ReturnError>
    decreases upto,
{
    if upto <= 0 {
        Ok(Seq::empty())
    } else {
        match resolved_upto(prices, splits, changes, holdings, start, end, upto - 1) {
            Err(e) => Err(e),
            Ok(done) => match resolve_ticker(
                prices,
                splits,
                changes,
                holdings[upto - 1].0,
                holdings[upto - 1].1,
                start,
                end,
            ) {
                Ok(resolved) => Ok(done.push(resolved)),
                Err(e) => Err(e),
            },
        }
    }
}

/// The price table with the merged series of the first `upto` holdings
/// put in place, one after the other.
pub open spec fn committed(
    prices: TableModel<PricePoint>,
    holdings: TableModel<PortfolioPurchase>,
    done: Seq<Resolved>,
    upto: int,
) -> TableModel<PricePoint>
    decreases upto,
{
    if upto <= 0 {
        prices
    } else {
        let so_far = committed(prices, holdings, done, upto - 1);
        if done[upto - 1].merged {
            with_items(so_far, holdings[upto - 1].0, done[upto - 1].series)
        } else {
            so_far
        }
    }
}

/// What a successful resolution leaves behind.
pub struct Outcome {
    pub windows: WindowModel,
    pub prices: TableModel<PricePoint>,
    pub portfolios: PortfolioModel,
}

/// The whole resolution as a function of the data before it: the
/// timeframe is checked first, then the customer, then every holding in
/// order.
pub open spec fn resolution(
    prices: TableModel<PricePoint>,
    splits: TableModel<SplitEvent>,
    changes: TableModel<Alias>,
    portfolios: PortfolioModel,
    customer_id: Seq<char>,
    timeframe: Seq<char>,
    as_of: Date,
) -> Result<Outcome, ReturnError> {
    match window_of(timeframe, as_of) {
        None => Err(ReturnError::InvalidTimeframe),
        Some(window) => match customer_position(portfolios, customer_id, portfolios.len() as int) {
            None => Err(ReturnError::CustomerNotFound),
            Some(c) => {
                let holdings = portfolios[c].1;
                let n = holdings.len() as int;
                match resolved_upto(prices, splits, changes, holdings, window.0, window.1, n) {
                    Err(e) => Err(e),
                    Ok(done) => Ok(
                        Outcome {
                            windows: Seq::new(holdings.len(), |i: int| (holdings[i].0, done[i].window)),
                            prices: committed(prices, holdings, done, n),
                            portfolios: portfolios.update(
                                c,
                                (
                                    portfolios[c].0,
                                    Seq::new(holdings.len(), |i: int| (holdings[i].0, done[i].lots)),
                                ),
                            ),
                        },
                    ),
                }
            },
        },
    }
}

/// The start price is never what is missing: the day a window starts on
/// is a day of the series it was found in.
pub proof fn lemma_start_price_found(
    prices: TableModel<PricePoint>,
    splits: TableModel<SplitEvent>,
    changes: TableModel<Alias>,
    ticker: Seq<char>,
    lots: Seq<PortfolioPurchase>,
    start: Date,
    end: Date,
)
    ensures
        resolve_ticker(prices, splits, changes, ticker, lots, start, end) != Err::<
            Resolved,
            ReturnError,
        >(ReturnError::PriceNotFound),
{
    let akas = also_known_as(changes, ticker);
    let series = merged_history(prices, akas, ticker, akas.len() as int);
    lemma_trading_day(series, start);
}

/// An error among the first holdings is the error of the whole list.
pub proof fn lemma_resolved_fails(
    prices: TableModel<PricePoint>,
    splits: TableModel<SplitEvent>,
    changes: TableModel<Alias>,
    holdings: TableModel<PortfolioPurchase>,
    start: Date,
    end: Date,
    at: int,
    upto: int,
)
    requires
        at <= upto,
        resolved_upto(prices, splits, changes, holdings, start, end, at) is Err,
    ensures
        resolved_upto(prices, splits, changes, holdings, start, end, upto) == resolved_upto(
            prices,
            splits,
            changes,
            holdings,
            start,
            end,
            at,
        ),
    decreases upto,
{
    if at < upto {
        lemma_resolved_fails(prices, splits, changes, holdings, start, end, at, upto - 1);
    }
}

/// Resolves one ticker against the tables as they stand, changing nothing.
pub fn resolve_holding(
    prices: &Table<PricePoint>,
    splits: &Table<SplitEvent>,
    ticker_changes: &Table<Alias>,
    ticker: &String,
    purchases: &Vec<PortfolioPurchase>,
    start_date: Date,
    end_date: Date,
) -> (r: Result<Resolution, ReturnError>)
    ensures
        match r {
            Ok(found) => resolve_ticker(
                prices@,
                splits@,
                ticker_changes@,
                ticker@,
                purchases@,
                start_date,
                end_date,
            ) == Ok::<Resolved, ReturnError>(found@),
            Err(e) => resolve_ticker(
                prices@,
                splits@,
                ticker_changes@,
                ticker@,
                purchases@,
                start_date,
                end_date,
            ) == Err::<Resolved, ReturnError>(e),
        },
{
    let mut symbols = other_symbols(ticker_changes, ticker);
    let (series, merged) = merge_history(prices, &symbols, ticker);
    let ghost akas = texts(symbols@);
    symbols.push(ticker.clone());
    assert(texts(symbols@) =~= lineage(ticker_changes@, ticker@));
    let events = lineage_splits(splits, &symbols);
    let first_day = match locate_trading_day(&series, start_date) {
        Ok(day) => day,
        Err(e) => {
            return Err(e);
        },
    };
    let end_price = match price_on(&series, end_date) {
        Ok(price) => price,
        Err(_) => {
            return Err(ReturnError::MissingEndPrice);
        },
    };
    let raw_price = match price_on(&series, first_day) {
        Ok(price) => price,
        Err(e) => {
            return Err(e);
        },
    };
    let start_price = match handle_split_price(&events, first_day, end_date, raw_price) {
        Ok(price) => price,
        Err(e) => {
            return Err(e);
        },
    };
    let lots = match adjust_lots(purchases, &events, end_date) {
        Some(lots) => lots,
        None => {
            return Err(ReturnError::Overflow);
        },
    };
    Ok(
        Resolution {
            window: TickerPrice {
                start_price,
                end_price,
                start_date: first_day,
                end_date,
            },
            lots,
            series,
            merged,
        },
    )
}

/// Whether a computation can start: the customer has holdings on record
/// and the timeframe is a recognized one.
pub fn valid_arguments(data: &Data, args: &Args) -> (valid: bool)
    ensures
        valid == (customer_position(
            data.portfolio_model(),
            args.customer_id@,
            data.portfolios@.len() as int,
        ) is Some && timeframe_days(args.timeframe@) is Some),
{
    let valid_customer = data.find_customer(&args.customer_id).is_some();
    let valid_timeframe = get_timeframe_days(args.timeframe.as_str()).is_some();
    valid_customer && valid_timeframe
}

/// Resolves the window of every ticker that the customer of `args` holds,
/// for the timeframe of `args` ending on `as_of`.
///
/// On success the windows come in the order of the holdings; the
/// customer's purchases are restated in shares as counted on `as_of`, and
/// the series of each held ticker has the history of its other symbols
/// merged in. Every held ticker is resolved against the tables as they
/// were before the call. On any error nothing is changed.
pub fn get_ticker_prices_for_timeframe(data: &mut Data, args: &Args, as_of: Date) -> (r: Result<
    Vec<TickerWindow>,
    ReturnError,
>)
    requires
        as_of.days - 365 >= i32::MIN,
    ensures
        match r {
            Ok(windows) => {
                &&& resolution(
                    old(data).prices@,
                    old(data).splits@,
                    old(data).ticker_changes@,
                    old(data).portfolio_model(),
                    args.customer_id@,
                    args.timeframe@,
                    as_of,
                ) matches Ok(outcome)
                &&& windows_model(windows@) == outcome.windows
                &&& final(data).prices@ == outcome.prices
                &&& final(data).portfolio_model() == outcome.portfolios
                &&& final(data).splits == old(data).splits
                &&& final(data).ticker_changes == old(data).ticker_changes
            },
            Err(e) => {
                &&& resolution(
                    old(data).prices@,
                    old(data).splits@,
                    old(data).ticker_changes@,
                    old(data).portfolio_model(),
                    args.customer_id@,
                    args.timeframe@,
                    as_of,
                ) == Err::<Outcome, ReturnError>(e)
                &&& *final(data) == *old(data)
            },
        },
{
    let (start, end) = match resolve_window(args.timeframe.as_str(), as_of) {
        Ok(window) => window,
        Err(e) => {
            return Err(e);
        },
    };
    let c = match data.find_customer(&args.customer_id) {
        Some(c) => c,
        None => {
            return Err(ReturnError::CustomerNotFound);
        },
    };
    let ghost prices0 = data.prices@;
    let ghost splits0 = data.splits@;
    let ghost changes0 = data.ticker_changes@;
    let ghost portfolios0 = data.portfolio_model();
    let ghost holdings0 = portfolios0[c as int].1;
    let n = data.portfolios[c].holdings.rows.len();
    let mut windows: Vec<TickerWindow> = Vec::new();
    let mut rows: Vec<Row<PortfolioPurchase>> = Vec::new();
    let mut pending: Vec<Row<PricePoint>> = Vec::new();
    let mut merged: Vec<bool> = Vec::new();
    let ghost mut done: Seq<Resolved> = Seq::empty();
    let mut k: usize = 0;
    while k < n
        invariant
            k <= n,
            n == holdings0.len(),
            *data == *old(data),
            c < data.portfolios@.len(),
            window_of(args.timeframe@, as_of) == Some((start, end)),
            portfolios0 == data.portfolio_model(),
            customer_position(portfolios0, args.customer_id@, portfolios0.len() as int) == Some(
                c as int,
            ),
            holdings0 == portfolios0[c as int].1,
            prices0 == data.prices@,
            splits0 == data.splits@,
            changes0 == data.ticker_changes@,
            holdings0 == data.portfolios@[c as int].holdings@,
            resolved_upto(prices0, splits0, changes0, holdings0, start, end, k as int) == Ok::<
                Seq<Resolved>,
                ReturnError,
            >(done),
            done.len() == k,
            windows@.len() == k,
            rows@.len() == k,
            pending@.len() == k,
            merged@.len() == k,
            forall|i: int|
                0 <= i < k ==> (#[trigger] windows@[i]).ticker@ == holdings0[i].0 && windows@[i].prices
                    == done[i].window,
            forall|i: int|
                0 <= i < k ==> (#[trigger] rows@[i]).key@ == holdings0[i].0 && rows@[i].items@
                    == done[i].lots,
            forall|i: int|
                0 <= i < k ==> (#[trigger] pending@[i]).key@ == holdings0[i].0
                    && pending@[i].items@ == done[i].series,
            forall|i: int| 0 <= i < k ==> #[trigger] merged@[i] == done[i].merged,
        decreases n - k,
    {
        let row = &data.portfolios[c].holdings.rows[k];
        assert(holdings0[k as int] == (row.key@, row.items@));
        match resolve_holding(
            &data.prices,
            &data.splits,
            &data.ticker_changes,
            &row.key,
            &row.items,
            start,
            end,
        ) {
            Ok(found) => {
                proof {
                    done = done.push(found@);
                }
                windows.push(TickerWindow { ticker: row.key.clone(), prices: found.window });
                rows.push(Row { key: row.key.clone(), items: found.lots });
                pending.push(Row { key: row.key.clone(), items: found.series });
                merged.push(found.merged);
            },
            Err(e) => {
                proof {
                    lemma_resolved_fails(
                        prices0,
                        splits0,
                        changes0,
                        holdings0,
                        start,
                        end,
                        k + 1,
                        n as int,
                    );
                }
                return Err(e);
            },
        }
        k += 1;
    }
    let mut j: usize = 0;
    while j < n
        invariant
            j <= n,
            n == holdings0.len(),
            done.len() == n,
            pending@.len() == n,
            merged@.len() == n,
            data.prices@ == committed(prices0, holdings0, done, j as int),
            data.splits == old(data).splits,
            data.ticker_changes == old(data).ticker_changes,
            data.portfolios == old(data).portfolios,
            forall|i: int|
                0 <= i < n ==> (#[trigger] pending@[i]).key@ == holdings0[i].0
                    && pending@[i].items@ == done[i].series,
            forall|i: int| 0 <= i < n ==> #[trigger] merged@[i] == done[i].merged,
        decreases n - j,
    {
        if merged[j] {
            data.prices.put(pending[j].key.clone(), copy_items(&pending[j].items));
        }
        j += 1;
    }
    let customer_id = data.portfolios[c].customer_id.clone();
    data.portfolios.set(c, Customer { customer_id, holdings: Table { rows } });
    proof {
        let after = Seq::new(holdings0.len(), |i: int| (holdings0[i].0, done[i].lots));
        assert(data.portfolios@[c as int].holdings@ =~= after);
        assert(data.portfolio_model() =~= portfolios0.update(c as int, (portfolios0[c as int].0, after)));
        assert(windows_model(windows@) =~= Seq::new(
            holdings0.len(),
            |i: int| (holdings0[i].0, done[i].window),
        ));
    }
    Ok(windows)
}

} // verus!
