//! The cards that pages and live feeds are made of.

pub mod post;
pub mod thread;
