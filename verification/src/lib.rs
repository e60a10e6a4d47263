//! Verified core of a browser-workflow automation tool.
//!
//! The library holds the logic that decides what the automation does:
//! mapping model-reported viewport coordinates to screen coordinates,
//! combining noisy point samples, rate-limit bookkeeping and backoff,
//! candidate scoring, plan execution with nested corrective steps, and
//! the parsing of the small wire formats involved. All I/O (browser,
//! input injection, HTTP, spreadsheet) lives outside the library.

pub mod aggregate;
pub mod candidates;
pub mod client;
pub mod coords;
pub mod engine;
pub mod governor;
pub mod jsonio;
pub mod overlay;
pub mod pool;
pub mod ratelimit;
pub mod sheets;
pub mod text;
