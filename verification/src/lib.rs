//! Market data storage, event routing and trading state for backtesting.

pub mod actor;
pub mod backtest;
pub mod book;
pub mod buffer;
pub mod cache;
pub mod calibrate;
pub mod catalog;
pub mod data;
pub mod data_manager;
pub mod database;
pub mod date;
pub mod decimals;
pub mod emulator;
pub mod filters;
pub mod ingest;
pub mod instrument;
pub mod level_map;
pub mod name_index;
pub mod name_map;
pub mod order;
pub mod path;
pub mod text;
pub mod trading;
