use investment_returns::date::Date;
use investment_returns::error::ReturnError;
use investment_returns::models::PortfolioPurchase;
use investment_returns::ratio::Ratio;
use investment_returns::records::record_split;
use investment_returns::splits::adjust_lot;
use investment_returns::splits::handle_split_customer_position;
use investment_returns::splits::handle_split_price;
use investment_returns::splits::lineage_splits;
use investment_returns::splits::record_event;
use investment_returns::splits::SplitEvent;
use investment_returns::table::Table;

fn on(text: &str) -> Date {
    Date::parse_iso(text).unwrap()
}

fn whole(n: i64) -> Ratio {
    Ratio::from_int(n)
}

fn ratio(n: i64, d: i64) -> Ratio {
    Ratio::new(n, d).unwrap()
}

fn split(date: &str, from: i64, to: i64) -> SplitEvent {
    SplitEvent::new(on(date), whole(from), whole(to)).unwrap()
}

fn lot(date: &str, shares: i64, cost: i64) -> PortfolioPurchase {
    PortfolioPurchase { purchase_date: on(date), shares_qty: whole(shares), cost_basis: whole(cost) }
}

#[test]
fn a_split_needs_positive_quantities() {
    assert!(SplitEvent::new(on("2024-09-01"), whole(0), whole(2)).is_none());
    assert!(SplitEvent::new(on("2024-09-01"), whole(1), whole(0)).is_none());
    assert!(SplitEvent::new(on("2024-09-01"), whole(-1), whole(2)).is_none());
    let event = SplitEvent::new(on("2024-09-01"), whole(1), ratio(3, 2)).unwrap();
    assert_eq!(event.date(), on("2024-09-01"));
    assert_eq!(event.from_quantity(), whole(1));
    assert_eq!(event.to_quantity(), ratio(3, 2));
}

#[test]
fn a_split_inside_the_window_scales_the_price() {
    let splits = vec![split("2024-09-01", 1, 2)];
    let r = handle_split_price(&splits, on("2024-06-28"), on("2024-12-31"), whole(100));
    assert_eq!(r, Ok(whole(50)));
}

#[test]
fn a_split_on_the_start_date_does_not_count_for_the_price() {
    let splits = vec![split("2024-06-28", 1, 2)];
    let r = handle_split_price(&splits, on("2024-06-28"), on("2024-12-31"), whole(100));
    assert_eq!(r, Ok(whole(100)));
}

#[test]
fn a_split_on_the_end_date_counts() {
    let splits = vec![split("2024-12-31", 1, 2)];
    let r = handle_split_price(&splits, on("2024-06-28"), on("2024-12-31"), whole(100));
    assert_eq!(r, Ok(whole(50)));
}

#[test]
fn splits_outside_the_window_leave_the_price() {
    let splits = vec![split("2024-06-01", 1, 2), split("2025-01-01", 1, 3)];
    let r = handle_split_price(&splits, on("2024-06-28"), on("2024-12-31"), whole(100));
    assert_eq!(r, Ok(whole(100)));
}

#[test]
fn several_splits_each_count_once() {
    let splits = vec![split("2024-09-01", 1, 2), split("2024-10-01", 2, 3), split("2024-11-01", 10, 1)];
    let r = handle_split_price(&splits, on("2024-06-28"), on("2024-12-31"), whole(90));
    assert_eq!(r, Ok(whole(300)));
    let reversed = vec![split("2024-11-01", 10, 1), split("2024-10-01", 2, 3), split("2024-09-01", 1, 2)];
    let again = handle_split_price(&reversed, on("2024-06-28"), on("2024-12-31"), whole(90));
    assert_eq!(again, Ok(whole(300)));
}

#[test]
fn a_price_that_does_not_fit_is_an_error() {
    let splits = vec![split("2024-09-01", 3, 1)];
    let r = handle_split_price(&splits, on("2024-06-28"), on("2024-12-31"), whole(i64::MAX));
    assert_eq!(r, Err(ReturnError::Overflow));
}

#[test]
fn a_lot_bought_before_a_split_is_restated() {
    let mut lots = vec![lot("2024-01-01", 10, 800)];
    let splits = vec![split("2024-09-01", 1, 2)];
    assert_eq!(handle_split_customer_position(&mut lots, &splits, on("2024-12-31")), Ok(()));
    assert_eq!(lots, vec![lot("2024-01-01", 20, 400)]);
}

#[test]
fn a_lot_bought_on_or_after_a_split_is_left_alone() {
    let mut lots = vec![lot("2024-09-01", 10, 800), lot("2024-09-02", 5, 300)];
    let splits = vec![split("2024-09-01", 1, 2)];
    assert_eq!(handle_split_customer_position(&mut lots, &splits, on("2024-12-31")), Ok(()));
    assert_eq!(lots, vec![lot("2024-09-01", 10, 800), lot("2024-09-02", 5, 300)]);
}

#[test]
fn a_split_after_the_end_does_not_touch_a_lot() {
    let mut lots = vec![lot("2024-01-01", 10, 800)];
    let splits = vec![split("2025-01-01", 1, 2)];
    assert_eq!(handle_split_customer_position(&mut lots, &splits, on("2024-12-31")), Ok(()));
    assert_eq!(lots, vec![lot("2024-01-01", 10, 800)]);
}

#[test]
fn lots_follow_their_own_purchase_dates() {
    let mut lots = vec![lot("2024-01-01", 10, 800), lot("2024-09-15", 4, 200), lot("2024-11-15", 1, 30)];
    let splits = vec![split("2024-09-01", 1, 2), split("2024-11-01", 1, 3)];
    assert_eq!(handle_split_customer_position(&mut lots, &splits, on("2024-12-31")), Ok(()));
    assert_eq!(lots[0].shares_qty, whole(60));
    assert_eq!(lots[0].cost_basis, ratio(400, 3));
    assert_eq!(lots[1].shares_qty, whole(12));
    assert_eq!(lots[1].cost_basis, ratio(200, 3));
    assert_eq!(lots[2], lot("2024-11-15", 1, 30));
}

#[test]
fn restating_keeps_shares_times_cost_basis() {
    let before = lot("2024-01-01", 7, 913);
    let splits = vec![split("2024-09-01", 2, 3), split("2024-10-01", 5, 7)];
    let after = adjust_lot(before, &splits, on("2024-12-31")).unwrap();
    assert_eq!(after.shares_qty, ratio(147, 10));
    assert_eq!(
        after.shares_qty.times(&after.cost_basis),
        before.shares_qty.times(&before.cost_basis)
    );
}

#[test]
fn price_and_position_adjustment_undo_each_other() {
    let splits = vec![split("2024-09-01", 2, 3), split("2024-10-01", 5, 7)];
    let price = ratio(12345, 100);
    let before = lot("2024-06-28", 7, 913);
    let adjusted = handle_split_price(&splits, on("2024-06-28"), on("2024-12-31"), price).unwrap();
    let after = adjust_lot(before, &splits, on("2024-12-31")).unwrap();
    assert_eq!(adjusted.times(&after.shares_qty), price.times(&before.shares_qty));
}

#[test]
fn lots_that_do_not_fit_are_left_as_they_were() {
    let mut lots = vec![lot("2024-01-01", 10, 800), lot("2024-01-02", i64::MAX, 1)];
    let splits = vec![split("2024-09-01", 1, 2)];
    assert_eq!(
        handle_split_customer_position(&mut lots, &splits, on("2024-12-31")),
        Err(ReturnError::Overflow)
    );
    assert_eq!(lots, vec![lot("2024-01-01", 10, 800), lot("2024-01-02", i64::MAX, 1)]);
}

#[test]
fn a_split_recorded_again_for_a_day_replaces_the_earlier_one() {
    let mut events = vec![split("2024-09-01", 1, 2)];
    record_event(&mut events, split("2024-10-01", 1, 3));
    record_event(&mut events, split("2024-09-01", 1, 5));
    assert_eq!(events, vec![split("2024-09-01", 1, 5), split("2024-10-01", 1, 3)]);
}

#[test]
fn the_splits_of_a_lineage_come_symbol_by_symbol() {
    let mut table: Table<SplitEvent> = Table::new();
    record_split(&mut table, "NEW".to_string(), split("2024-09-01", 1, 2));
    record_split(&mut table, "OLD".to_string(), split("2024-02-01", 1, 3));
    record_split(&mut table, "NEW".to_string(), split("2024-10-01", 1, 5));
    let symbols = vec!["OLD".to_string(), "NONE".to_string(), "NEW".to_string()];
    assert_eq!(
        lineage_splits(&table, &symbols),
        vec![split("2024-02-01", 1, 3), split("2024-09-01", 1, 2), split("2024-10-01", 1, 5)]
    );
    assert!(lineage_splits(&table, &Vec::new()).is_empty());
}
