//! The totals of a portfolio over a window, and the return they amount
//! to.

use crate::error::ReturnError;
use crate::models::PortfolioPurchase;
use crate::models::PortfolioReturn;
use crate::models::TickerPrice;
use crate::ratio::Ratio;
use crate::resolver::windows_model;
use crate::resolver::TickerWindow;
use crate::resolver::WindowModel;
use crate::table::Table;
use crate::table::TableModel;
use vstd::prelude::*;

verus! {

/// The return in currency and in percent.
#[derive(Clone, Copy, PartialEq, Eq, Structural, Debug)]
pub struct ReturnFigures {
    pub dollar: Ratio,
    pub percent: Ratio,
}

/// The window of `ticker` among the first `upto` windows: the first one
/// under that name.
pub open spec fn window_position(windows: WindowModel, ticker: Seq<char>, upto: int) -> Option<int>
    decreases upto,
{
    if upto <= 0 {
        None
    } else {
        match window_position(windows, ticker, upto - 1) {
            Some(i) => Some(i),
            None => if windows[upto - 1].0 == ticker {
                Some(upto - 1)
            } else {
                None
            },
        }
    }
}

/// The window of `ticker`, if there is one.
pub open spec fn window_of_ticker(windows: WindowModel, ticker: Seq<char>) -> Option<TickerPrice> {
    match window_position(windows, ticker, windows.len() as int) {
        Some(i) => Some(windows[i].1),
        None => None,
    }
}

/// Totals of nothing.
pub open spec fn no_totals() -> PortfolioReturn {
    PortfolioReturn {
        start_total: Ratio::whole(0),
        current_total: Ratio::whole(0),
        contribution_total: Ratio::whole(0),
    }
}

/// Whether a purchase was held when the window started.
pub open spec fn held_at_start(lot: PortfolioPurchase, window: TickerPrice) -> bool {
    lot.purchase_date.days <= window.start_date.days
}

/// Whether a purchase was made inside the window: after its start and no
/// later than its end.
pub open spec fn bought_inside(lot: PortfolioPurchase, window: TickerPrice) -> bool {
    window.start_date.days < lot.purchase_date.days <= window.end_date.days
}

/// The totals with one purchase added. A purchase held at the start adds
/// `start_price * shares` to the start total; one made inside the window
/// adds its cost basis to the contributions; every purchase adds
/// `end_price * shares` to the current total.
pub open spec fn with_lot(totals: PortfolioReturn, window: TickerPrice, lot: PortfolioPurchase) -> Option<
    PortfolioReturn,
> {
    let start_total = if held_at_start(lot, window) {
        match window.start_price.spec_times(lot.shares_qty) {
            Some(value) => totals.start_total.spec_plus(value),
            None => None,
        }
    } else {
        Some(totals.start_total)
    };
    let contribution_total = if bought_inside(lot, window) {
        totals.contribution_total.spec_plus(lot.cost_basis)
    } else {
        Some(totals.contribution_total)
    };
    let current_total = match window.end_price.spec_times(lot.shares_qty) {
        Some(value) => totals.current_total.spec_plus(value),
        None => None,
    };
    match (start_total, contribution_total, current_total) {
        (Some(s), Some(c), Some(u)) => Some(
            PortfolioReturn { start_total: s, current_total: u, contribution_total: c },
        ),
        _ => None,
    }
}

/// The totals with the first `upto` purchases added in order.
pub open spec fn with_lots(
    totals: PortfolioReturn,
    window: TickerPrice,
    lots: Seq<PortfolioPurchase>,
    upto: int,
) -> Option<PortfolioReturn>
    decreases upto,
{
    if upto <= 0 {
        Some(totals)
    } else {
        match with_lots(totals, window, lots, upto - 1) {
            Some(so_far) => with_lot(so_far, window, lots[upto - 1]),
            None => None,
        }
    }
}

/// The totals with the purchases of the first `upto` holdings added in
/// order, each against the window of its ticker. A holding without a
/// window adds nothing.
pub open spec fn with_holdings(
    totals: PortfolioReturn,
    windows: WindowModel,
    holdings: TableModel<PortfolioPurchase>,
    upto: int,
) -> Option<PortfolioReturn>
    decreases upto,
{
    if upto <= 0 {
        Some(totals)
    } else {
        match with_holdings(totals, windows, holdings, upto - 1) {
            Some(so_far) => match window_of_ticker(windows, holdings[upto - 1].0) {
                Some(window) => with_lots(
                    so_far,
                    window,
                    holdings[upto - 1].1,
                    holdings[upto - 1].1.len() as int,
                ),
                None => Some(so_far),
            },
            None => None,
        }
    }
}

/// The totals of a whole portfolio.
pub open spec fn invest_return(windows: WindowModel, holdings: TableModel<PortfolioPurchase>) -> Option<
    PortfolioReturn,
> {
    with_holdings(no_totals(), windows, holdings, holdings.len() as int)
}

/// `(part / base) * 100`.
pub open spec fn percent_of(part: Ratio, base: Ratio) -> Option<Ratio> {
    match part.spec_over(base) {
        Some(share) => share.spec_times(Ratio::whole(100)),
        None => None,
    }
}

/// The return that three totals amount to.
///
/// With nothing held at the start and contributions made, the return is
/// what the contributions have gained, in percent of the contributions.
/// With nothing held at the start and nothing contributed, it is zero.
/// Otherwise it is what the start total and the contributions have gained,
/// in percent of the start total.
pub open spec fn return_figures(totals: PortfolioReturn) -> Option<ReturnFigures> {
    if totals.start_total@.num == 0 {
        if totals.contribution_total@.num > 0 {
            match totals.current_total.spec_minus(totals.contribution_total) {
                Some(dollar) => match percent_of(dollar, totals.contribution_total) {
                    Some(percent) => Some(ReturnFigures { dollar, percent }),
                    None => None,
                },
                None => None,
            }
        } else {
            Some(ReturnFigures { dollar: Ratio::whole(0), percent: Ratio::whole(0) })
        }
    } else {
        match totals.current_total.spec_minus(totals.start_total) {
            Some(gain) => match gain.spec_minus(totals.contribution_total) {
                Some(dollar) => match percent_of(dollar, totals.start_total) {
                    Some(percent) => Some(ReturnFigures { dollar, percent }),
                    None => None,
                },
                None => None,
            },
            None => None,
        }
    }
}

/// `window_position` finds the first window under the name, and finds one
/// whenever there is one.
pub proof fn lemma_window_position(windows: WindowModel, ticker: Seq<char>, upto: int)
    requires
        0 <= upto <= windows.len(),
    ensures
        match window_position(windows, ticker, upto) {
            Some(i) => 0 <= i < upto && windows[i].0 == ticker && forall|j: int|
                0 <= j < i ==> (#[trigger] windows[j]).0 != ticker,
            None => forall|j: int| 0 <= j < upto ==> (#[trigger] windows[j]).0 != ticker,
        },
    decreases upto,
{
    if upto > 0 {
        lemma_window_position(windows, ticker, upto - 1);
    }
}

/// Once a total does not fit, no later purchase brings it back.
pub proof fn lemma_with_lots_fails(
    totals: PortfolioReturn,
    window: TickerPrice,
    lots: Seq<PortfolioPurchase>,
    at: int,
    upto: int,
)
    requires
        at <= upto,
        with_lots(totals, window, lots, at) is None,
    ensures
        with_lots(totals, window, lots, upto) is None,
    decreases upto,
{
    if at < upto {
        lemma_with_lots_fails(totals, window, lots, at, upto - 1);
    }
}

/// Once a total does not fit, no later holding brings it back.
pub proof fn lemma_with_holdings_fails(
    totals: PortfolioReturn,
    windows: WindowModel,
    holdings: TableModel<PortfolioPurchase>,
    at: int,
    upto: int,
)
    requires
        at <= upto,
        with_holdings(totals, windows, holdings, at) is None,
    ensures
        with_holdings(totals, windows, holdings, upto) is None,
    decreases upto,
{
    if at < upto {
        lemma_with_holdings_fails(totals, windows, holdings, at, upto - 1);
    }
}

/// The window of `ticker` among `windows`.
pub fn find_window(windows: &Vec<TickerWindow>, ticker: &String) -> (r: Option<TickerPrice>)
    ensures
        r == window_of_ticker(windows_model(windows@), ticker@),
{
    let ghost m = windows_model(windows@);
    let mut i: usize = 0;
    while i < windows.len()
        invariant
            i <= windows@.len(),
            m == windows_model(windows@),
            forall|j: int| 0 <= j < i ==> (#[trigger] m[j]).0 != ticker@,
        decreases windows@.len() - i,
    {
        if windows[i].ticker == *ticker {
            proof {
                assert(m[i as int].0 == ticker@);
                lemma_window_position(m, ticker@, m.len() as int);
            }
            return Some(windows[i].prices);
        }
        i += 1;
    }
    proof {
        lemma_window_position(m, ticker@, m.len() as int);
    }
    None
}

/// The totals with one purchase added.
pub fn add_lot(totals: PortfolioReturn, window: TickerPrice, lot: PortfolioPurchase) -> (r: Option<
    PortfolioReturn,
>)
    ensures
        r == with_lot(totals, window, lot),
{
    let start_total = if lot.purchase_date.days <= window.start_date.days {
        match window.start_price.times(&lot.shares_qty) {
            Some(value) => totals.start_total.plus(&value),
            None => None,
        }
    } else {
        Some(totals.start_total)
    };
    let contribution_total = if window.start_date.days < lot.purchase_date.days
        && lot.purchase_date.days <= window.end_date.days {
        totals.contribution_total.plus(&lot.cost_basis)
    } else {
        Some(totals.contribution_total)
    };
    let current_total = match window.end_price.times(&lot.shares_qty) {
        Some(value) => totals.current_total.plus(&value),
        None => None,
    };
    match (start_total, contribution_total, current_total) {
        (Some(s), Some(c), Some(u)) => Some(
            PortfolioReturn { start_total: s, current_total: u, contribution_total: c },
        ),
        _ => None,
    }
}

/// The totals with all purchases of one holding added.
pub fn add_lots(totals: PortfolioReturn, window: TickerPrice, lots: &Vec<PortfolioPurchase>) -> (r:
    Option<PortfolioReturn>)
    ensures
        r == with_lots(totals, window, lots@, lots@.len() as int),
{
    let mut current = totals;
    let mut i: usize = 0;
    while i < lots.len()
        invariant
            i <= lots@.len(),
            with_lots(totals, window, lots@, i as int) == Some(current),
        decreases lots@.len() - i,
    {
        match add_lot(current, window, lots[i]) {
            Some(next) => {
                current = next;
            },
            None => {
                proof {
                    lemma_with_lots_fails(totals, window, lots@, i + 1, lots@.len() as int);
                }
                return None;
            },
        }
        i += 1;
    }
    Some(current)
}

/// The totals of a portfolio: what it was worth when the window started,
/// what it is worth at its end, and what was paid for purchases made in
/// between. `Overflow` exactly when a total does not fit.
pub fn get_invest_return(
    ticker_prices: &Vec<TickerWindow>,
    customer_data: &Table<PortfolioPurchase>,
) -> (r: Result<PortfolioReturn, ReturnError>)
    ensures
        match r {
            Ok(totals) => invest_return(windows_model(ticker_prices@), customer_data@) == Some(
                totals,
            ),
            Err(e) => e == ReturnError::Overflow && invest_return(
                windows_model(ticker_prices@),
                customer_data@,
            ) is None,
        },
{
    let zero = Ratio::from_int(0);
    let mut totals = PortfolioReturn {
        start_total: zero,
        current_total: zero,
        contribution_total: zero,
    };
    let ghost windows = windows_model(ticker_prices@);
    let mut i: usize = 0;
    while i < customer_data.rows.len()
        invariant
            i <= customer_data.rows@.len(),
            windows == windows_model(ticker_prices@),
            with_holdings(no_totals(), windows, customer_data@, i as int) == Some(totals),
        decreases customer_data.rows@.len() - i,
    {
        let row = &customer_data.rows[i];
        assert(customer_data@[i as int] == (row.key@, row.items@));
        match find_window(ticker_prices, &row.key) {
            Some(window) => {
                match add_lots(totals, window, &row.items) {
                    Some(next) => {
                        totals = next;
                    },
                    None => {
                        proof {
                            lemma_with_holdings_fails(
                                no_totals(),
                                windows,
                                customer_data@,
                                i + 1,
                                customer_data@.len() as int,
                            );
                        }
                        return Err(ReturnError::Overflow);
                    },
                }
            },
            None => {},
        }
        i += 1;
    }
    Ok(totals)
}

/// `(part / base) * 100` for a base that is not zero.
fn percent(part: &Ratio, base: &Ratio) -> (r: Option<Ratio>)
    requires
        base@.num != 0,
    ensures
        r == percent_of(*part, *base),
{
    match part.over(base) {
        Some(share) => share.times(&Ratio::from_int(100)),
        None => None,
    }
}

/// The return that the totals amount to. `Overflow` exactly when a figure
/// does not fit.
pub fn compute_return(totals: &PortfolioReturn) -> (r: Result<ReturnFigures, ReturnError>)
    ensures
        match r {
            Ok(figures) => return_figures(*totals) == Some(figures),
            Err(e) => e == ReturnError::Overflow && return_figures(*totals) is None,
        },
{
    let found = if totals.start_total.is_zero() {
        if totals.contribution_total.is_positive() {
            match totals.current_total.minus(&totals.contribution_total) {
                Some(dollar) => match percent(&dollar, &totals.contribution_total) {
                    Some(percent) => Some(ReturnFigures { dollar, percent }),
                    None => None,
                },
                None => None,
            }
        } else {
            Some(ReturnFigures { dollar: Ratio::from_int(0), percent: Ratio::from_int(0) })
        }
    } else {
        match totals.current_total.minus(&totals.start_total) {
            Some(gain) => match gain.minus(&totals.contribution_total) {
                Some(dollar) => match percent(&dollar, &totals.start_total) {
                    Some(percent) => Some(ReturnFigures { dollar, percent }),
                    None => None,
                },
                None => None,
            },
            None => None,
        }
    };
    match found {
        Some(figures) => Ok(figures),
        None => Err(ReturnError::Overflow),
    }
}

} // verus!
