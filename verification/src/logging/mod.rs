//! A log that keeps a bounded number of its latest entries.
pub mod store;
