//! Verified core of an interactive command line SDK: command selection and
//! parsing, sessions and configuration, retry decisions, circuit breakers
//! and reconnection backoff, output formatting and word wrapping, dashboard
//! caching, and the data structures of the analytics that the command line
//! front end relies on.

pub mod text;
pub mod time;
pub mod string_map;
pub mod wrapping;
pub mod formatter;

pub mod commands;
pub mod config;
pub mod session;
pub mod execution;

pub mod error_handling;
pub mod recovery;

pub mod timeseries;
pub mod series_cache;
pub mod analytics;
pub mod dashboard_cache;
pub mod pools;
pub mod performance;
