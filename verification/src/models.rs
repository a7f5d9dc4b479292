//! The records a computation starts from and the figures it produces.

use crate::date::Date;
use crate::ratio::Ratio;
use crate::table::Table;
use crate::table::TableModel;
use vstd::prelude::*;

verus! {

/// Whose return is asked for, and over which period.
pub struct Args {
    pub customer_id: String,
    pub timeframe: String,
}

/// One closing price as recorded: the date is written year first.
pub struct PriceRecord {
    pub ticker: String,
    pub date: String,
    pub close_price: Ratio,
}

/// One stock split as recorded: the date is written day first, and
/// `from_quantity` old shares become `to_quantity` new ones.
pub struct Split {
    pub ticker: String,
    pub effective_date: String,
    pub from_quantity: Ratio,
    pub to_quantity: Ratio,
}

/// One change of ticker symbol as recorded.
pub struct TickerChanges {
    pub old_ticker: String,
    pub new_ticker: String,
    pub effective_date: String,
}

/// One purchase as recorded: the date is written year first.
pub struct Portfolio {
    pub customer_id: String,
    pub ticker: String,
    pub purchase_date: String,
    pub shares: Ratio,
    pub cost_basis: Ratio,
}

/// The closing price of one trading day.
#[derive(Clone, Copy, PartialEq, Eq, Structural, Debug)]
pub struct PricePoint {
    pub date: Date,
    pub close: Ratio,
}

/// The other symbol of a change of ticker, with the day it took effect as
/// it was written.
pub struct Alias {
    pub effective_date: String,
    pub ticker: String,
}

/// One purchase of shares: how many, and what was paid for them.
#[derive(Clone, Copy, PartialEq, Eq, Structural, Debug)]
pub struct PortfolioPurchase {
    pub purchase_date: Date,
    pub shares_qty: Ratio,
    pub cost_basis: Ratio,
}

/// The prices at both ends of a window, in shares as they are counted at
/// its end.
#[derive(Clone, Copy, PartialEq, Eq, Structural, Debug)]
pub struct TickerPrice {
    pub start_price: Ratio,
    pub end_price: Ratio,
    pub start_date: Date,
    pub end_date: Date,
}

/// The three totals of a portfolio over a window.
#[derive(Clone, Copy, PartialEq, Eq, Structural, Debug)]
pub struct PortfolioReturn {
    pub start_total: Ratio,
    pub current_total: Ratio,
    pub contribution_total: Ratio,
}

/// What one customer holds: purchases by ticker.
pub struct Customer {
    pub customer_id: String,
    pub holdings: Table<PortfolioPurchase>,
}

/// Each customer with the holdings on record, in the order the customers
/// first came.
pub type PortfolioModel = Seq<(Seq<char>, TableModel<PortfolioPurchase>)>;

/// Everything a computation reads: prices, splits and symbol changes by
/// ticker, and holdings by customer.
pub struct Data {
    pub prices: Table<PricePoint>,
    pub splits: Table<crate::splits::SplitEvent>,
    pub ticker_changes: Table<Alias>,
    pub portfolios: Vec<Customer>,
}

/// The first position below `upto` of the customer `id`.
pub open spec fn customer_position(m: PortfolioModel, id: Seq<char>, upto: int) -> Option<int>
    decreases upto,
{
    if upto <= 0 {
        None
    } else {
        match customer_position(m, id, upto - 1) {
            Some(i) => Some(i),
            None => if m[upto - 1].0 == id {
                Some(upto - 1)
            } else {
                None
            },
        }
    }
}

/// `customer_position` finds the first customer with the id, and finds one
/// whenever there is one.
pub proof fn lemma_customer_position(m: PortfolioModel, id: Seq<char>, upto: int)
    requires
        0 <= upto <= m.len(),
    ensures
        match customer_position(m, id, upto) {
            Some(i) => 0 <= i < upto && m[i].0 == id && forall|j: int|
                0 <= j < i ==> (#[trigger] m[j]).0 != id,
            None => forall|j: int| 0 <= j < upto ==> (#[trigger] m[j]).0 != id,
        },
    decreases upto,
{
    if upto > 0 {
        lemma_customer_position(m, id, upto - 1);
    }
}

impl Data {
    /// Data without any record.
    pub fn new() -> (d: Data)
        ensures
            d.prices@.len() == 0,
            d.splits@.len() == 0,
            d.ticker_changes@.len() == 0,
            d.portfolios@.len() == 0,
    {
        Data {
            prices: Table::new(),
            splits: Table::new(),
            ticker_changes: Table::new(),
            portfolios: Vec::new(),
        }
    }

    /// The holdings by customer.
    pub open spec fn portfolio_model(&self) -> PortfolioModel {
        Seq::new(
            self.portfolios@.len(),
            |i: int| (self.portfolios@[i].customer_id@, self.portfolios@[i].holdings@),
        )
    }

    /// The position of the customer `id` among the portfolios.
    pub fn find_customer(&self, id: &String) -> (r: Option<usize>)
        ensures
            r matches Some(i) ==> i < self.portfolios@.len() && customer_position(
                self.portfolio_model(),
                id@,
                self.portfolios@.len() as int,
            ) == Some(i as int),
            r is None ==> customer_position(
                self.portfolio_model(),
                id@,
                self.portfolios@.len() as int,
            ) is None,
    {
        let ghost m = self.portfolio_model();
        let mut i: usize = 0;
        while i < self.portfolios.len()
            invariant
                i <= self.portfolios@.len(),
                m == self.portfolio_model(),
                forall|j: int| 0 <= j < i ==> (#[trigger] m[j]).0 != id@,
            decreases self.portfolios@.len() - i,
        {
            if self.portfolios[i].customer_id == *id {
                proof {
                    assert(m[i as int].0 == id@);
                    lemma_customer_position(m, id@, m.len() as int);
                }
                return Some(i);
            }
            i += 1;
        }
        proof {
            lemma_customer_position(m, id@, m.len() as int);
        }
        None
    }
}

} // verus!
