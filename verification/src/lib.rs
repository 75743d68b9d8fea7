//! Usage-log scanning and cost estimation for AI coding assistants.
//!
//! The library turns the bytes of the logs that three tools write into
//! normalized usage entries, estimates what each request cost, and keeps track
//! of how far each file has been read, so that a later scan reads only what
//! was appended. It reads no file and makes no request itself: callers hand it
//! the bytes and the price feed.
//!
//! Money is kept in whole picodollars (10^-12 USD), so that every cost formula
//! is an identity over the integers.

pub mod claude;
pub mod codex;
pub mod decimal;
pub mod entry;
pub mod json;
pub mod lines;
pub mod opencode;
pub mod paths;
pub mod pricing;
pub mod scan;
pub mod table;
pub mod text;
pub mod timestamp;

pub use crate::entry::{Tool, UsageEntry};
