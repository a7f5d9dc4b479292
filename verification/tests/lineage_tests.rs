use investment_returns::date::Date;
use investment_returns::lineage::handle_ticker_change;
use investment_returns::lineage::merge_history;
use investment_returns::lineage::other_symbols;
use investment_returns::models::Alias;
use investment_returns::models::PricePoint;
use investment_returns::models::TickerChanges;
use investment_returns::ratio::Ratio;
use investment_returns::records::read_ticker_changes;
use investment_returns::records::record_price;
use investment_returns::series::price_on;
use investment_returns::table::Table;

fn on(text: &str) -> Date {
    Date::parse_iso(text).unwrap()
}

fn change(old: &str, new: &str) -> TickerChanges {
    TickerChanges {
        old_ticker: old.to_string(),
        new_ticker: new.to_string(),
        effective_date: "2024-03-01".to_string(),
    }
}

fn price(table: &mut Table<PricePoint>, ticker: &str, date: &str, close: i64) {
    record_price(
        table,
        ticker.to_string(),
        PricePoint { date: on(date), close: Ratio::from_int(close) },
    );
}

fn renamed() -> Table<Alias> {
    read_ticker_changes(&vec![change("OLD", "NEW"), change("NEW", "NEWER")])
}

#[test]
fn a_change_is_listed_under_both_symbols() {
    let changes = renamed();
    assert_eq!(other_symbols(&changes, &"OLD".to_string()), vec!["NEW".to_string()]);
    assert_eq!(
        other_symbols(&changes, &"NEW".to_string()),
        vec!["OLD".to_string(), "NEWER".to_string()]
    );
    assert_eq!(other_symbols(&changes, &"NEWER".to_string()), vec!["NEW".to_string()]);
}

#[test]
fn lineage_goes_one_hop_only() {
    let changes = renamed();
    let akas = other_symbols(&changes, &"OLD".to_string());
    assert!(!akas.contains(&"NEWER".to_string()));
}

#[test]
fn a_ticker_without_changes_has_no_other_symbols() {
    assert!(other_symbols(&renamed(), &"XYZ".to_string()).is_empty());
    assert!(other_symbols(&Table::new(), &"XYZ".to_string()).is_empty());
}

#[test]
fn repeated_and_circular_changes_list_each_symbol_once() {
    let changes = read_ticker_changes(&vec![
        change("A", "B"),
        change("A", "B"),
        change("B", "A"),
        change("A", "A"),
        change("A", "C"),
    ]);
    assert_eq!(
        other_symbols(&changes, &"A".to_string()),
        vec!["B".to_string(), "C".to_string()]
    );
}

#[test]
fn history_of_the_other_symbols_is_merged() {
    let changes = renamed();
    let mut prices: Table<PricePoint> = Table::new();
    price(&mut prices, "NEW", "2024-12-31", 150);
    price(&mut prices, "OLD", "2024-02-01", 90);
    price(&mut prices, "NEWER", "2025-01-02", 160);
    let akas = handle_ticker_change(&changes, &mut prices, "NEW");
    assert_eq!(akas, vec!["OLD".to_string(), "NEWER".to_string()]);
    let merged = prices.get(&"NEW".to_string()).unwrap();
    assert_eq!(merged.len(), 3);
    assert_eq!(price_on(merged, on("2024-02-01")), Ok(Ratio::from_int(90)));
    assert_eq!(price_on(merged, on("2024-12-31")), Ok(Ratio::from_int(150)));
    assert_eq!(price_on(merged, on("2025-01-02")), Ok(Ratio::from_int(160)));
    assert_eq!(prices.get(&"OLD".to_string()).unwrap().len(), 1);
    assert_eq!(prices.get(&"NEWER".to_string()).unwrap().len(), 1);
}

#[test]
fn on_a_shared_day_the_last_symbol_wins() {
    let changes = renamed();
    let mut prices: Table<PricePoint> = Table::new();
    price(&mut prices, "NEW", "2024-03-01", 100);
    price(&mut prices, "OLD", "2024-03-01", 99);
    price(&mut prices, "NEWER", "2024-03-01", 101);
    handle_ticker_change(&changes, &mut prices, "NEW");
    let merged = prices.get(&"NEW".to_string()).unwrap();
    assert_eq!(merged.len(), 1);
    assert_eq!(price_on(merged, on("2024-03-01")), Ok(Ratio::from_int(101)));
}

#[test]
fn a_ticker_without_a_series_gets_the_history_of_its_other_symbol() {
    let changes = renamed();
    let mut prices: Table<PricePoint> = Table::new();
    price(&mut prices, "NEW", "2024-12-31", 150);
    handle_ticker_change(&changes, &mut prices, "OLD");
    let merged = prices.get(&"OLD".to_string()).unwrap();
    assert_eq!(price_on(merged, on("2024-12-31")), Ok(Ratio::from_int(150)));
}

#[test]
fn nothing_to_merge_leaves_the_table_alone() {
    let changes = renamed();
    let mut prices: Table<PricePoint> = Table::new();
    price(&mut prices, "XYZ", "2024-12-31", 150);
    assert!(handle_ticker_change(&changes, &mut prices, "XYZ").is_empty());
    assert_eq!(prices.len(), 1);
    handle_ticker_change(&changes, &mut prices, "OLD");
    assert_eq!(prices.len(), 1);
    assert!(prices.get(&"OLD".to_string()).is_none());
}

#[test]
fn merge_history_does_not_touch_the_table() {
    let changes = renamed();
    let mut prices: Table<PricePoint> = Table::new();
    price(&mut prices, "NEW", "2024-12-31", 150);
    price(&mut prices, "OLD", "2024-02-01", 90);
    let akas = other_symbols(&changes, &"NEW".to_string());
    let (series, merged) = merge_history(&prices, &akas, &"NEW".to_string());
    assert!(merged);
    assert_eq!(series.len(), 2);
    assert_eq!(prices.get(&"NEW".to_string()).unwrap().len(), 1);
    let (alone, touched) = merge_history(&prices, &Vec::new(), &"NEW".to_string());
    assert!(!touched);
    assert_eq!(alone.len(), 1);
}
