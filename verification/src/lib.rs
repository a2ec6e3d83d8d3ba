//! A small library for a wireless-network scanning utility.
//!
//! The operating system's network-listing command produces raw text; this
//! crate turns that text into normalized network records, decides how a
//! record's signal strength is colored, and drives the scan-request state
//! machine. Every function here is verified: the parsers are proved to
//! match a mathematical description of each platform's text format, and
//! the state machine is proved to admit at most one scan in flight.

pub mod blocks;
pub mod color;
pub mod colon;
pub mod columns;
pub mod numeric;
pub mod parser;
pub mod presenter;
pub mod record;
pub mod text;
