//! Core of a text-expansion daemon: an ordered event pipeline with stateful
//! middlewares, an attribution middleware that pairs request events with their
//! completions, and a configuration store that resolves which configuration is
//! active for the focused application.
//!
//! Everything here is pure logic over plain values; the surrounding binary
//! performs the I/O (file reading, YAML parsing, database writes) and hands
//! the results to this crate.

pub mod aliases;
pub mod app_info;
pub mod config;
pub mod config_store;
pub mod event;
pub mod middleware;
pub mod package;
pub mod params;
pub mod path_env;
pub mod pending;
pub mod processor;
pub mod stats;
pub mod stats_db;
pub mod strutil;
