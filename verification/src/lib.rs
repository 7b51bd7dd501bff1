//! In-memory state engine of a terminal feed reader.
//!
//! The library keeps a hierarchical collection of feed subscriptions (feeds
//! nested inside named groups) synchronized with a persisted configuration,
//! reconciles it against flat record lists returned asynchronously from
//! storage and network fetchers, and maintains a stable cursor while
//! background work completes out of order.

pub mod config_edit;
pub mod config_tree;
pub mod fetch;
pub mod flatten;
pub mod format;
pub mod paths;
pub mod popup;
pub mod records;
pub mod render;
pub mod router;
pub mod select;
pub mod settings;
pub mod strutil;
pub mod sync;
pub mod tree;
