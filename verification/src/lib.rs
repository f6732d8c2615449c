//! Hourly electricity spot-price pipeline.
//!
//! The library turns a day-ahead market document into an ordered sequence of
//! hourly price points, keeps a forward-looking queue of those points aligned
//! with wall-clock time, and evaluates threshold-triggered jobs against the
//! current price.  Fetching the document, reading configuration files and
//! running triggered commands are left to the surrounding program.

pub mod config;
pub mod date;
pub mod jobs;
pub mod grammar;
pub mod parser;
pub mod price;
pub mod queue;
pub mod sched;
pub mod text;
pub mod tokens;
