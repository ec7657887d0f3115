//! A single-file paged storage engine: a fixed file header, slotted heap
//! pages, tagged catalog records and a catalog bootstrapped from page 0.
pub mod catalog;
pub mod chain;
pub mod codec;
pub mod database;
pub mod error;
pub mod header;
pub mod page;
pub mod pager;
pub mod record;
pub mod schema;
pub mod seed;
pub mod types;
