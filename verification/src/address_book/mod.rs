//! Address book for managing and tracking multiple Ethereum addresses.

pub mod types;
pub mod activity;
pub mod order;
pub mod query;
pub mod storage;
pub mod service;
pub mod commands;
pub mod db;
pub mod laws;
pub mod sync;
