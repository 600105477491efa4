//! Reconstruction of a wallet's balance history as a fixed-cadence series.
//!
//! The crate folds an ascending stream of balance-changing transactions into
//! point-in-time snapshots, resamples those snapshots onto hourly or daily
//! buckets, and lines each bucket up with the price samples that value it.
//! Every function comes with a contract over a mathematical model of its
//! data, and every contract is machine-checked.

pub mod address;
pub mod asset_map;
pub mod balances;
pub mod chart;
pub mod coingecko;
pub mod decimal;
pub mod enums;
pub mod transactions;
pub mod types;
pub mod utils;

pub use balances::accounts::types::ParsedAta;
pub use chart::types::{ChartData, Timeframe};
pub use enums::Error;
pub use transactions::types::TransactionResponse;
