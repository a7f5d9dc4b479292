//! The symbols a security has been known by, and the price history that
//! comes with them.

use crate::models::Alias;
use crate::models::PricePoint;
use crate::date::Date;
use crate::series::has_date;
use crate::series::lemma_merged_dates;
use crate::series::merged;
use crate::series::overlay;
use crate::table::copy_items;
use crate::table::has_text;
use crate::table::items_of;
use crate::table::texts;
use crate::table::with_items;
use crate::table::Table;
use crate::table::TableModel;
use vstd::prelude::*;

verus! {

/// The other symbols among the first `upto` recorded changes of `ticker`:
/// each once, in the order they first occur, and never `ticker` itself.
pub open spec fn aka_symbols(aliases: Seq<Alias>, ticker: Seq<char>, upto: int) -> Seq<Seq<char>>
    decreases upto,
{
    if upto <= 0 {
        Seq::empty()
    } else {
        let rest = aka_symbols(aliases, ticker, upto - 1);
        let symbol = aliases[upto - 1].ticker@;
        if symbol == ticker || rest.contains(symbol) {
            rest
        } else {
            rest.push(symbol)
        }
    }
}

/// The symbols that `changes` records as renamed to or from `ticker`, one
/// hop away.
pub open spec fn also_known_as(changes: TableModel<Alias>, ticker: Seq<char>) -> Seq<Seq<char>> {
    match items_of(changes, ticker) {
        Some(aliases) => aka_symbols(aliases, ticker, aliases.len() as int),
        None => Seq::empty(),
    }
}

/// The lineage of `ticker`: its other symbols, then the ticker itself.
pub open spec fn lineage(changes: TableModel<Alias>, ticker: Seq<char>) -> Seq<Seq<char>> {
    also_known_as(changes, ticker).push(ticker)
}

/// The series of `ticker` with the series of the first `upto` symbols of
/// `akas` written over it in turn. A symbol without a series adds nothing;
/// a ticker without a series starts from an empty one.
pub open spec fn merged_history(
    prices: TableModel<PricePoint>,
    akas: Seq<Seq<char>>,
    ticker: Seq<char>,
    upto: int,
) -> Seq<PricePoint>
    decreases upto,
{
    if upto <= 0 {
        match items_of(prices, ticker) {
            Some(own) => own,
            None => Seq::empty(),
        }
    } else {
        let so_far = merged_history(prices, akas, ticker, upto - 1);
        match items_of(prices, akas[upto - 1]) {
            Some(other) => merged(so_far, other),
            None => so_far,
        }
    }
}

/// Whether any of the first `upto` symbols of `akas` has a series.
pub open spec fn any_priced(prices: TableModel<PricePoint>, akas: Seq<Seq<char>>, upto: int) -> bool
    decreases upto,
{
    if upto <= 0 {
        false
    } else {
        any_priced(prices, akas, upto - 1) || items_of(prices, akas[upto - 1]) is Some
    }
}

/// The price table after the history of the other symbols of `ticker` has
/// been merged into the series of `ticker`. Only the row of `ticker`
/// changes, and only if one of its other symbols has a series.
pub open spec fn with_lineage_merged(
    prices: TableModel<PricePoint>,
    changes: TableModel<Alias>,
    ticker: Seq<char>,
) -> TableModel<PricePoint> {
    let akas = also_known_as(changes, ticker);
    if any_priced(prices, akas, akas.len() as int) {
        with_items(prices, ticker, merged_history(prices, akas, ticker, akas.len() as int))
    } else {
        prices
    }
}

/// The symbols of `aka_symbols` differ from each other and from the ticker.
pub proof fn lemma_aka_symbols_distinct(aliases: Seq<Alias>, ticker: Seq<char>, upto: int)
    requires
        0 <= upto <= aliases.len(),
    ensures
        aka_symbols(aliases, ticker, upto).no_duplicates(),
        !aka_symbols(aliases, ticker, upto).contains(ticker),
        aka_symbols(aliases, ticker, upto).len() <= upto,
    decreases upto,
{
    if upto > 0 {
        lemma_aka_symbols_distinct(aliases, ticker, upto - 1);
    }
}

/// No symbol occurs twice in a lineage.
pub proof fn lemma_lineage_distinct(changes: TableModel<Alias>, ticker: Seq<char>)
    ensures
        lineage(changes, ticker).no_duplicates(),
        lineage(changes, ticker).last() == ticker,
{
    match items_of(changes, ticker) {
        Some(aliases) => {
            lemma_aka_symbols_distinct(aliases, ticker, aliases.len() as int);
        },
        None => {},
    }
}

/// Whether `symbol` has a series that prices `date`.
pub open spec fn priced_under(prices: TableModel<PricePoint>, symbol: Seq<char>, date: Date) -> bool {
    items_of(prices, symbol) matches Some(series) && has_date(series, date)
}

/// The trading days of a merged history are the trading days of the
/// ticker and of its other symbols together, in whatever order the
/// symbols are merged.
pub proof fn lemma_merged_history_dates(
    prices: TableModel<PricePoint>,
    akas: Seq<Seq<char>>,
    ticker: Seq<char>,
    upto: int,
    date: Date,
)
    requires
        0 <= upto <= akas.len(),
    ensures
        has_date(merged_history(prices, akas, ticker, upto), date) <==> priced_under(
            prices,
            ticker,
            date,
        ) || exists|k: int| 0 <= k < upto && priced_under(prices, #[trigger] akas[k], date),
    decreases upto,
{
    if upto > 0 {
        lemma_merged_history_dates(prices, akas, ticker, upto - 1, date);
        let so_far = merged_history(prices, akas, ticker, upto - 1);
        match items_of(prices, akas[upto - 1]) {
            Some(other) => {
                lemma_merged_dates(so_far, other, date);
            },
            None => {},
        }
        if priced_under(prices, akas[upto - 1], date) {
            assert(0 <= upto - 1 < upto && priced_under(prices, akas[upto - 1], date));
        }
    }
}

/// The other symbols of `ticker`: the symbols that `ticker_changes` records
/// as renamed to or from it, each once.
pub fn other_symbols(ticker_changes: &Table<Alias>, ticker: &String) -> (akas: Vec<String>)
    ensures
        texts(akas@) == also_known_as(ticker_changes@, ticker@),
{
    let mut akas: Vec<String> = Vec::new();
    match ticker_changes.get(ticker) {
        Some(aliases) => {
            let mut i: usize = 0;
            assert(texts(akas@) =~= aka_symbols(aliases@, ticker@, 0));
            while i < aliases.len()
                invariant
                    i <= aliases@.len(),
                    texts(akas@) == aka_symbols(aliases@, ticker@, i as int),
                decreases aliases@.len() - i,
            {
                let symbol = &aliases[i].ticker;
                let ghost before = texts(akas@);
                if !(*symbol == *ticker) && !has_text(&akas, symbol) {
                    akas.push(symbol.clone());
                    assert(texts(akas@) =~= before.push(symbol@));
                }
                i += 1;
            }
        },
        None => {
            assert(texts(akas@) =~= Seq::<Seq<char>>::empty());
        },
    }
    akas
}

/// The series of `ticker` with the history of `akas` merged into it, and
/// whether any of `akas` had a series to merge.
pub fn merge_history(prices: &Table<PricePoint>, akas: &Vec<String>, ticker: &String) -> (r: (
    Vec<PricePoint>,
    bool,
))
    ensures
        r.0@ == merged_history(prices@, texts(akas@), ticker@, akas@.len() as int),
        r.1 == any_priced(prices@, texts(akas@), akas@.len() as int),
{
    let mut series: Vec<PricePoint> = match prices.get(ticker) {
        Some(own) => copy_items(own),
        None => Vec::new(),
    };
    let mut touched = false;
    let mut i: usize = 0;
    while i < akas.len()
        invariant
            i <= akas@.len(),
            series@ == merged_history(prices@, texts(akas@), ticker@, i as int),
            touched == any_priced(prices@, texts(akas@), i as int),
        decreases akas@.len() - i,
    {
        assert(texts(akas@)[i as int] == akas@[i as int]@);
        match prices.get(&akas[i]) {
            Some(other) => {
                overlay(&mut series, other);
                touched = true;
            },
            None => {},
        }
        i += 1;
    }
    (series, touched)
}

/// Merges the price history of the other symbols of `ticker` into the
/// series of `ticker`, and returns those symbols. A date priced under
/// several symbols keeps the price of the symbol that comes last, the
/// ticker's own price coming first.
pub fn handle_ticker_change(
    ticker_changes: &Table<Alias>,
    prices: &mut Table<PricePoint>,
    ticker: &str,
) -> (changed_tickers: Vec<String>)
    ensures
        texts(changed_tickers@) == also_known_as(ticker_changes@, ticker@),
        final(prices)@ == with_lineage_merged(old(prices)@, ticker_changes@, ticker@),
{
    let key = ticker.to_owned();
    let akas = other_symbols(ticker_changes, &key);
    let (series, touched) = merge_history(prices, &akas, &key);
    if touched {
        prices.put(key, series);
    }
    akas
}

} // verus!
