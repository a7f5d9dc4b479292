use investment_returns::date::Date;
use investment_returns::error::ReturnError;
use investment_returns::models::Args;
use investment_returns::models::Data;
use investment_returns::models::PortfolioPurchase;
use investment_returns::models::PricePoint;
use investment_returns::ratio::Ratio;
use investment_returns::records::record_price;
use investment_returns::records::record_purchase;
use investment_returns::records::record_split;
use investment_returns::report::output_result;
use investment_returns::resolver::get_ticker_prices_for_timeframe;
use investment_returns::splits::SplitEvent;
use investment_returns::totals::compute_return;
use investment_returns::totals::get_invest_return;

fn day(text: &str) -> Date {
    Date::parse_iso(text).unwrap()
}

fn whole(n: i64) -> Ratio {
    Ratio::from_int(n)
}

fn abc_data() -> Data {
    let mut data = Data::new();
    record_price(
        &mut data.prices,
        "ABC".to_string(),
        PricePoint { date: day("2024-06-28"), close: whole(100) },
    );
    record_price(
        &mut data.prices,
        "ABC".to_string(),
        PricePoint { date: day("2024-12-31"), close: whole(150) },
    );
    record_purchase(
        &mut data.portfolios,
        "CUST001".to_string(),
        "ABC".to_string(),
        PortfolioPurchase {
            purchase_date: day("2024-01-01"),
            shares_qty: whole(10),
            cost_basis: whole(800),
        },
    );
    data
}

fn six_months() -> Args {
    Args { customer_id: "CUST001".to_string(), timeframe: "6 months".to_string() }
}

#[test]
fn return_without_corporate_actions() {
    let mut data = abc_data();
    let windows =
        get_ticker_prices_for_timeframe(&mut data, &six_months(), day("2024-12-31")).unwrap();
    assert_eq!(windows.len(), 1);
    assert_eq!(windows[0].ticker, "ABC");
    assert_eq!(windows[0].prices.start_date, day("2024-06-28"));
    assert_eq!(windows[0].prices.end_date, day("2024-12-31"));
    assert_eq!(windows[0].prices.start_price, whole(100));
    assert_eq!(windows[0].prices.end_price, whole(150));
    let totals = get_invest_return(&windows, &data.portfolios[0].holdings).unwrap();
    assert_eq!(totals.start_total, whole(1000));
    assert_eq!(totals.current_total, whole(1500));
    assert_eq!(totals.contribution_total, whole(0));
    let figures = compute_return(&totals).unwrap();
    assert_eq!(figures.dollar, whole(500));
    assert_eq!(figures.percent, whole(50));
    let lines = output_result(totals).unwrap();
    assert_eq!(lines.len(), 4);
    assert_eq!(lines[0], "Start position: $1000.00");
    assert_eq!(lines[1], "Current position: $1500.00");
    assert_eq!(lines[2], "Contributions made during period: $0.00");
    assert_eq!(lines[3], "Overall return: +$500.00 (+50.00%)");
}

#[test]
fn return_with_a_split_inside_the_window() {
    let mut data = abc_data();
    let split = SplitEvent::new(day("2024-09-01"), whole(1), whole(2)).unwrap();
    record_split(&mut data.splits, "ABC".to_string(), split);
    let windows =
        get_ticker_prices_for_timeframe(&mut data, &six_months(), day("2024-12-31")).unwrap();
    assert_eq!(windows[0].prices.start_price, whole(50));
    assert_eq!(windows[0].prices.end_price, whole(150));
    let lots = &data.portfolios[0].holdings.rows[0].items;
    assert_eq!(lots.len(), 1);
    assert_eq!(lots[0].shares_qty, whole(20));
    assert_eq!(lots[0].cost_basis, whole(400));
    let totals = get_invest_return(&windows, &data.portfolios[0].holdings).unwrap();
    assert_eq!(totals.start_total, whole(1000));
    assert_eq!(totals.current_total, whole(3000));
}

#[test]
fn return_when_all_lots_were_bought_inside_the_window() {
    let totals = investment_returns::models::PortfolioReturn {
        start_total: whole(0),
        current_total: whole(600),
        contribution_total: whole(500),
    };
    let figures = compute_return(&totals).unwrap();
    assert_eq!(figures.dollar, whole(100));
    assert_eq!(figures.percent, whole(20));
    let lines = output_result(totals).unwrap();
    assert_eq!(lines[3], "Overall return: +$100.00 (+20.00%)");
}

#[test]
fn unknown_customer_is_reported_and_nothing_changes() {
    let mut data = abc_data();
    let args = Args { customer_id: "NOBODY".to_string(), timeframe: "6 months".to_string() };
    let r = get_ticker_prices_for_timeframe(&mut data, &args, day("2024-12-31"));
    assert!(matches!(r, Err(ReturnError::CustomerNotFound)));
    assert_eq!(data.portfolios[0].holdings.rows[0].items[0].shares_qty, whole(10));
}

#[test]
fn unknown_timeframe_is_reported() {
    let mut data = abc_data();
    let args = Args { customer_id: "CUST001".to_string(), timeframe: "2 weeks".to_string() };
    let r = get_ticker_prices_for_timeframe(&mut data, &args, day("2024-12-31"));
    assert!(matches!(r, Err(ReturnError::InvalidTimeframe)));
}

#[test]
fn every_error_has_its_message() {
    assert_eq!(ReturnError::InvalidTimeframe.message(), "Invalid timeframe");
    assert_eq!(ReturnError::CustomerNotFound.message(), "Customer not found");
    assert_eq!(
        ReturnError::NoPriorTradingDay.message(),
        "Requested period not found for ticker"
    );
    assert_eq!(ReturnError::MissingEndPrice.message(), "End price not found for ticker");
    assert_eq!(ReturnError::PriceNotFound.message(), "Price not found for ticker");
    assert_eq!(ReturnError::Overflow.message(), "Amount out of range");
}

#[test]
fn customers_are_found_by_id() {
    let data = abc_data();
    assert_eq!(data.find_customer(&"CUST001".to_string()), Some(0));
    assert_eq!(data.find_customer(&"cust001".to_string()), None);
    assert_eq!(Data::new().find_customer(&"CUST001".to_string()), None);
}
