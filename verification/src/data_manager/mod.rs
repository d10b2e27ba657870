//! Data files: where they are, what is missing, how they are fetched and read.

pub mod bar_ingester;
pub mod catalog;
pub mod data_manager;
pub mod downloader;
pub mod downloaders;
pub mod loader;
pub mod tvc_builder;
pub mod types;
