//! A terminal browser for a subscribed video-feed catalog: feeds are fetched
//! and merged into one catalog, which a keyboard-driven session pages,
//! filters and searches.

pub mod codec;
pub mod config;
pub mod entry;
pub mod fetch;
pub mod render;
pub mod session;
pub mod view;
