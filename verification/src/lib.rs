//! A Nostr client for the terminal: the feed, its state machine, the relay
//! choice and the Bitcoin and system dashboards, verified with Verus.

pub mod text;
pub mod feed;
pub mod app;
pub mod bitcoin;
pub mod nostr;
pub mod relays;
pub mod system_stats;
pub mod config;
pub mod ui;
