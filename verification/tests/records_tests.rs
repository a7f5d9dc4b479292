use investment_returns::date::Date;
use investment_returns::error::ReturnError;
use investment_returns::models::Portfolio;
use investment_returns::models::PortfolioPurchase;
use investment_returns::models::PriceRecord;
use investment_returns::models::Split;
use investment_returns::models::TickerChanges;
use investment_returns::ratio::Ratio;
use investment_returns::records::read_portfolios;
use investment_returns::records::read_prices;
use investment_returns::records::read_splits;
use investment_returns::records::read_ticker_changes;
use investment_returns::series::price_on;
use investment_returns::splits::SplitEvent;

fn on(text: &str) -> Date {
    Date::parse_iso(text).unwrap()
}

fn whole(n: i64) -> Ratio {
    Ratio::from_int(n)
}

fn price(ticker: &str, date: &str, close: i64) -> PriceRecord {
    PriceRecord { ticker: ticker.to_string(), date: date.to_string(), close_price: whole(close) }
}

fn split(ticker: &str, date: &str, from: i64, to: i64) -> Split {
    Split {
        ticker: ticker.to_string(),
        effective_date: date.to_string(),
        from_quantity: whole(from),
        to_quantity: whole(to),
    }
}

fn purchase(customer: &str, ticker: &str, date: &str, shares: i64, cost: i64) -> Portfolio {
    Portfolio {
        customer_id: customer.to_string(),
        ticker: ticker.to_string(),
        purchase_date: date.to_string(),
        shares: whole(shares),
        cost_basis: whole(cost),
    }
}

#[test]
fn prices_are_grouped_by_ticker() {
    let table = read_prices(&vec![
        price("ABC", "2024-06-28", 100),
        price("XYZ", "2024-06-28", 20),
        price("ABC", "2024-12-31", 150),
    ])
    .unwrap();
    assert_eq!(table.len(), 2);
    assert_eq!(table.rows[0].key, "ABC");
    assert_eq!(table.rows[1].key, "XYZ");
    let abc = table.get(&"ABC".to_string()).unwrap();
    assert_eq!(abc.len(), 2);
    assert_eq!(price_on(abc, on("2024-12-31")), Ok(whole(150)));
    assert_eq!(price_on(abc, on("2024-06-29")), Err(ReturnError::PriceNotFound));
    assert!(table.get(&"abc".to_string()).is_none());
}

#[test]
fn a_later_price_for_the_same_day_stands() {
    let table = read_prices(&vec![price("ABC", "2024-06-28", 100), price("ABC", "2024-06-28", 101)])
        .unwrap();
    let abc = table.get(&"ABC".to_string()).unwrap();
    assert_eq!(abc.len(), 1);
    assert_eq!(price_on(abc, on("2024-06-28")), Ok(whole(101)));
}

#[test]
fn a_price_with_an_unreadable_date_spoils_the_table() {
    assert!(read_prices(&vec![price("ABC", "2024-06-28", 100), price("ABC", "28/06/2024", 1)]).is_none());
    assert!(read_prices(&Vec::new()).unwrap().rows.is_empty());
}

#[test]
fn split_dates_are_written_day_first() {
    let table = read_splits(&vec![split("ABC", "01/09/2024", 1, 2), split("ABC", "15/10/2024", 2, 3)])
        .unwrap();
    let events = table.get(&"ABC".to_string()).unwrap();
    assert_eq!(
        *events,
        vec![
            SplitEvent::new(on("2024-09-01"), whole(1), whole(2)).unwrap(),
            SplitEvent::new(on("2024-10-15"), whole(2), whole(3)).unwrap(),
        ]
    );
}

#[test]
fn a_later_split_for_the_same_day_stands() {
    let table = read_splits(&vec![split("ABC", "01/09/2024", 1, 2), split("ABC", "01/09/2024", 1, 3)])
        .unwrap();
    let events = table.get(&"ABC".to_string()).unwrap();
    assert_eq!(*events, vec![SplitEvent::new(on("2024-09-01"), whole(1), whole(3)).unwrap()]);
}

#[test]
fn a_split_that_states_none_spoils_the_table() {
    assert!(read_splits(&vec![split("ABC", "2024-09-01", 1, 2)]).is_none());
    assert!(read_splits(&vec![split("ABC", "01/09/2024", 0, 2)]).is_none());
    assert!(read_splits(&vec![split("ABC", "01/09/2024", 1, -2)]).is_none());
}

#[test]
fn changes_keep_their_dates_as_written() {
    let table = read_ticker_changes(&vec![TickerChanges {
        old_ticker: "OLD".to_string(),
        new_ticker: "NEW".to_string(),
        effective_date: "whenever".to_string(),
    }]);
    assert_eq!(table.len(), 2);
    let under_old = table.get(&"OLD".to_string()).unwrap();
    assert_eq!(under_old.len(), 1);
    assert_eq!(under_old[0].ticker, "NEW");
    assert_eq!(under_old[0].effective_date, "whenever");
    let under_new = table.get(&"NEW".to_string()).unwrap();
    assert_eq!(under_new[0].ticker, "OLD");
}

#[test]
fn purchases_are_grouped_by_customer_and_ticker() {
    let customers = read_portfolios(&vec![
        purchase("CUST001", "ABC", "2024-01-01", 10, 800),
        purchase("CUST002", "ABC", "2024-02-01", 1, 90),
        purchase("CUST001", "XYZ", "2024-03-01", 5, 100),
        purchase("CUST001", "ABC", "2024-04-01", 2, 190),
    ])
    .unwrap();
    assert_eq!(customers.len(), 2);
    assert_eq!(customers[0].customer_id, "CUST001");
    assert_eq!(customers[1].customer_id, "CUST002");
    assert_eq!(customers[0].holdings.len(), 2);
    let abc = customers[0].holdings.get(&"ABC".to_string()).unwrap();
    assert_eq!(
        *abc,
        vec![
            PortfolioPurchase { purchase_date: on("2024-01-01"), shares_qty: whole(10), cost_basis: whole(800) },
            PortfolioPurchase { purchase_date: on("2024-04-01"), shares_qty: whole(2), cost_basis: whole(190) },
        ]
    );
    assert_eq!(customers[1].holdings.get(&"ABC".to_string()).unwrap().len(), 1);
}

#[test]
fn a_purchase_with_an_unreadable_date_spoils_the_holdings() {
    assert!(read_portfolios(&vec![purchase("CUST001", "ABC", "01/01/2024", 10, 800)]).is_none());
}
