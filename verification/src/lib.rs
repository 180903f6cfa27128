//! The persistent core of a small threaded forum: typed tables over an
//! embedded ordered key-value engine, identifier allocation, schema versions,
//! the thread/post tree and the projections that feed live viewers.

pub mod auth;
pub mod comm;
pub mod error;
pub mod state;
pub mod templates;
pub mod versioning;
