//! A Binance futures trading bot: the rules by which it prices, sizes, places,
//! supervises and closes orders.

pub mod account;
pub mod analyzer;
pub mod api_errors;
pub mod arith;
pub mod assoc;
pub mod backtest;
pub mod cache;
pub mod closing;
pub mod config;
pub mod connection;
pub mod decimal;
pub mod depth;
pub mod encoding;
pub mod event_bus;
pub mod exec;
pub mod extended;
pub mod figures;
pub mod flatten;
pub mod follow_orders;
pub mod initialization;
pub mod json;
pub mod leverage;
pub mod liquidation;
pub mod log_analysis;
pub mod log_lines;
pub mod margin;
pub mod metrics;
pub mod metrics_cache;
pub mod numbers;
pub mod order_analysis;
pub mod placing;
pub mod positions;
pub mod profit;
pub mod quant;
pub mod query;
pub mod quotes;
pub mod report;
pub mod risk;
pub mod rounding;
pub mod rules;
pub mod signals;
pub mod signing;
pub mod strategy;
pub mod supervision;
pub mod symbol_info;
pub mod text;
pub mod types;
pub mod user_stream;
pub mod venue;

