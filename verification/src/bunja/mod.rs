pub mod asset;
pub mod cache;
pub mod cli;
pub mod config;
