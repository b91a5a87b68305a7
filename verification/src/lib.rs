//! A scoped, resumable site-mirroring crawler library.
//!
//! The crawl engine is organised as verified sequential logic: link
//! resolution, scope and ignore filtering, the dedup registry, the
//! frontier and asset phases, mirror path mapping, and the persisted
//! crawl state. Network transport, HTML selector queries, URL
//! resolution and the concurrent set live in outside crates and are
//! reached through small trusted wrappers.

pub mod config;
pub mod driver;
pub mod engine;
pub mod fetch;
pub mod links;
pub mod mirror;
pub mod persist;
pub mod registry;
pub mod scope;
pub mod text;
pub mod urls;
