//! A rules-based multi-asset backtesting engine with fixed-point decimal
//! arithmetic.
pub mod decimal;
pub mod domain;
pub mod engine;
pub mod signals;
pub mod trading;
pub mod timeline;
pub mod assets;
pub mod script;
pub mod backtest;
pub mod metrics;
pub mod api;
pub mod laws;
pub mod series_order;
pub mod python;
