//! Poll-state tracking and leak detection for a cursor-paginated timeline
//! endpoint keyed by time-encoded ("Snowflake") identifiers.
//!
//! The library holds the verified core: the Snowflake millisecond codec and
//! cursor calculator, the sorted-timeline diff engine, the response decode
//! stage, and the per-cycle state bookkeeping. Network I/O, request signing
//! and scheduling live outside, feeding plain values into these functions.

pub mod api;
pub mod json;
pub mod response;
pub mod run;
pub mod util;
