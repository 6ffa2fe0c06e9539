//! Verified core of a DNS blocklist daemon: list parsing, name validation,
//! blocklist decisions, source bookkeeping and message formats.

pub mod text;
pub mod parse;
pub mod name;
pub mod parser;
pub mod model;
pub mod api;
pub mod blocklist;
pub mod config;
pub mod notifier;
pub mod sourceloader;
pub mod db;
pub mod pauses;
pub mod eventstore;
pub mod ui;
pub mod writer;
pub mod dnsmasq;
pub mod loader;
