//! Verified client logic for reading a Chainlink-style price oracle:
//! hex address parsing, call-data encoding, answer decoding, and exact
//! fixed-point price rescaling, with report assembly on top.
//!
//! Network transport and table rendering live outside this crate; the
//! library works on plain bytes and strings and states exactly what each
//! step computes.

pub mod address;
pub mod answer;
pub mod call;
pub mod decimal;
pub mod errors;
pub mod price;
pub mod report;
