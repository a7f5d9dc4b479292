//! The investment return of one customer's equity portfolio over a
//! lookback window, from daily closing prices, stock splits, changes of
//! ticker symbol and the customer's purchases.
//!
//! Prices and purchases are brought to the share count of the last day of
//! the window: the price history of a renamed ticker is merged, the start
//! of the window is moved back to a trading day, and splits restate the
//! start price and the purchases. All amounts are exact fractions; a
//! figure that does not fit is reported, never rounded.

pub mod algebra;
pub mod date;
pub mod decimal;
pub mod error;
pub mod invariance;
pub mod lineage;
pub mod models;
pub mod ratio;
pub mod records;
pub mod report;
pub mod resolver;
pub mod series;
pub mod splits;
pub mod table;
pub mod timeframe;
pub mod totals;
