//! Trade files of exchanges.

pub mod binance;
pub mod bybit;
pub mod parsers;
