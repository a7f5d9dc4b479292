use investment_returns::date::Date;
use investment_returns::error::ReturnError;
use investment_returns::models::PortfolioPurchase;
use investment_returns::models::PortfolioReturn;
use investment_returns::models::TickerPrice;
use investment_returns::ratio::Ratio;
use investment_returns::report::format_two_places;
use investment_returns::report::output_result;
use investment_returns::resolver::TickerWindow;
use investment_returns::table::Table;
use investment_returns::totals::add_lot;
use investment_returns::totals::compute_return;
use investment_returns::totals::find_window;
use investment_returns::totals::get_invest_return;

fn on(text: &str) -> Date {
    Date::parse_iso(text).unwrap()
}

fn whole(n: i64) -> Ratio {
    Ratio::from_int(n)
}

fn ratio(n: i64, d: i64) -> Ratio {
    Ratio::new(n, d).unwrap()
}

fn lot(date: &str, shares: i64, cost: i64) -> PortfolioPurchase {
    PortfolioPurchase { purchase_date: on(date), shares_qty: whole(shares), cost_basis: whole(cost) }
}

fn window(start_price: i64, end_price: i64) -> TickerPrice {
    TickerPrice {
        start_price: whole(start_price),
        end_price: whole(end_price),
        start_date: on("2024-06-28"),
        end_date: on("2024-12-31"),
    }
}

fn totals(start: i64, current: i64, contribution: i64) -> PortfolioReturn {
    PortfolioReturn {
        start_total: whole(start),
        current_total: whole(current),
        contribution_total: whole(contribution),
    }
}

fn nothing() -> PortfolioReturn {
    totals(0, 0, 0)
}

#[test]
fn a_lot_held_at_the_start_counts_at_the_start_price() {
    let r = add_lot(nothing(), window(100, 150), lot("2024-01-01", 10, 800));
    assert_eq!(r, Some(totals(1000, 1500, 0)));
}

#[test]
fn a_lot_bought_on_the_start_date_is_held_at_the_start() {
    let r = add_lot(nothing(), window(100, 150), lot("2024-06-28", 10, 800));
    assert_eq!(r, Some(totals(1000, 1500, 0)));
}

#[test]
fn a_lot_bought_inside_the_window_is_a_contribution() {
    let r = add_lot(nothing(), window(100, 150), lot("2024-06-29", 10, 800));
    assert_eq!(r, Some(totals(0, 1500, 800)));
    let r = add_lot(nothing(), window(100, 150), lot("2024-12-31", 10, 800));
    assert_eq!(r, Some(totals(0, 1500, 800)));
}

#[test]
fn a_lot_bought_after_the_end_counts_for_the_current_total_only() {
    let r = add_lot(nothing(), window(100, 150), lot("2025-01-01", 10, 800));
    assert_eq!(r, Some(totals(0, 1500, 0)));
}

#[test]
fn totals_add_up_over_lots_and_tickers() {
    let windows = vec![
        TickerWindow { ticker: "ABC".to_string(), prices: window(100, 150) },
        TickerWindow { ticker: "XYZ".to_string(), prices: window(20, 10) },
    ];
    let mut holdings: Table<PortfolioPurchase> = Table::new();
    holdings.append("XYZ".to_string(), lot("2024-01-01", 3, 45));
    holdings.append("ABC".to_string(), lot("2024-01-01", 10, 800));
    holdings.append("ABC".to_string(), lot("2024-08-01", 2, 250));
    holdings.append("OTHER".to_string(), lot("2024-01-01", 1000, 1000));
    let r = get_invest_return(&windows, &holdings);
    assert_eq!(r, Ok(totals(1060, 1830, 250)));
}

#[test]
fn no_holdings_give_no_totals() {
    assert_eq!(get_invest_return(&Vec::new(), &Table::new()), Ok(nothing()));
}

#[test]
fn totals_that_do_not_fit_are_an_error() {
    let windows = vec![TickerWindow { ticker: "ABC".to_string(), prices: window(100, 150) }];
    let mut holdings: Table<PortfolioPurchase> = Table::new();
    holdings.append("ABC".to_string(), lot("2024-01-01", i64::MAX / 100, 1));
    assert_eq!(get_invest_return(&windows, &holdings), Err(ReturnError::Overflow));
}

#[test]
fn the_first_window_under_a_name_counts() {
    let windows = vec![
        TickerWindow { ticker: "ABC".to_string(), prices: window(100, 150) },
        TickerWindow { ticker: "ABC".to_string(), prices: window(1, 2) },
    ];
    assert_eq!(find_window(&windows, &"ABC".to_string()), Some(window(100, 150)));
    assert_eq!(find_window(&windows, &"XYZ".to_string()), None);
}

#[test]
fn return_on_a_portfolio_held_at_the_start() {
    let figures = compute_return(&totals(1000, 1500, 0)).unwrap();
    assert_eq!(figures.dollar, whole(500));
    assert_eq!(figures.percent, whole(50));
    let figures = compute_return(&totals(1000, 1500, 300)).unwrap();
    assert_eq!(figures.dollar, whole(200));
    assert_eq!(figures.percent, whole(20));
}

#[test]
fn return_on_contributions_alone() {
    let figures = compute_return(&totals(0, 600, 500)).unwrap();
    assert_eq!(figures.dollar, whole(100));
    assert_eq!(figures.percent, whole(20));
}

#[test]
fn return_on_nothing_is_zero() {
    let figures = compute_return(&totals(0, 0, 0)).unwrap();
    assert_eq!(figures.dollar, whole(0));
    assert_eq!(figures.percent, whole(0));
    let figures = compute_return(&totals(0, 700, 0)).unwrap();
    assert_eq!(figures.dollar, whole(0));
    assert_eq!(figures.percent, whole(0));
}

#[test]
fn a_loss_is_negative() {
    let figures = compute_return(&totals(1000, 900, 50)).unwrap();
    assert_eq!(figures.dollar, whole(-150));
    assert_eq!(figures.percent, whole(-15));
}

#[test]
fn a_percentage_need_not_be_whole() {
    let figures = compute_return(&totals(300, 400, 0)).unwrap();
    assert_eq!(figures.dollar, whole(100));
    assert_eq!(figures.percent, ratio(100, 3));
}

#[test]
fn a_return_that_does_not_fit_is_an_error() {
    let r = compute_return(&PortfolioReturn {
        start_total: whole(1),
        current_total: whole(i64::MAX),
        contribution_total: whole(-1),
    });
    assert_eq!(r, Err(ReturnError::Overflow));
    let r = compute_return(&PortfolioReturn {
        start_total: ratio(1, 1000),
        current_total: whole(i64::MAX / 2),
        contribution_total: whole(0),
    });
    assert_eq!(r, Err(ReturnError::Overflow));
}

#[test]
fn amounts_are_written_with_two_places() {
    assert_eq!(format_two_places(&whole(0)), "0.00");
    assert_eq!(format_two_places(&whole(1000)), "1000.00");
    assert_eq!(format_two_places(&ratio(15025, 100)), "150.25");
    assert_eq!(format_two_places(&ratio(1, 20)), "0.05");
    assert_eq!(format_two_places(&ratio(1, 3)), "0.33");
    assert_eq!(format_two_places(&ratio(2, 3)), "0.67");
    assert_eq!(format_two_places(&ratio(999, 1000)), "1.00");
    assert_eq!(format_two_places(&ratio(-5, 2)), "-2.50");
    assert_eq!(format_two_places(&whole(i64::MAX)), "9223372036854775807.00");
    assert_eq!(format_two_places(&whole(i64::MIN)), "-9223372036854775808.00");
}

#[test]
fn half_a_hundredth_goes_to_the_even_side() {
    assert_eq!(format_two_places(&ratio(1, 8)), "0.12");
    assert_eq!(format_two_places(&ratio(3, 8)), "0.38");
    assert_eq!(format_two_places(&ratio(-1, 8)), "-0.12");
    assert_eq!(format_two_places(&ratio(-1, 1000)), "-0.00");
}

#[test]
fn a_gain_carries_a_plus_on_both_figures() {
    let lines = output_result(totals(1000, 1500, 0)).unwrap();
    assert_eq!(
        lines,
        vec![
            "Start position: $1000.00",
            "Current position: $1500.00",
            "Contributions made during period: $0.00",
            "Overall return: +$500.00 (+50.00%)",
        ]
    );
}

#[test]
fn a_loss_carries_its_own_sign() {
    let lines = output_result(totals(1000, 900, 50)).unwrap();
    assert_eq!(lines[3], "Overall return: $-150.00 (-15.00%)");
}

#[test]
fn no_return_carries_no_sign() {
    let lines = output_result(totals(1000, 1000, 0)).unwrap();
    assert_eq!(lines[3], "Overall return: $0.00 (0.00%)");
    let lines = output_result(totals(0, 0, 0)).unwrap();
    assert_eq!(lines[3], "Overall return: $0.00 (0.00%)");
}

#[test]
fn a_result_that_does_not_fit_has_no_lines() {
    let r = output_result(PortfolioReturn {
        start_total: whole(1),
        current_total: whole(i64::MAX),
        contribution_total: whole(-1),
    });
    assert_eq!(r, Err(ReturnError::Overflow));
}
