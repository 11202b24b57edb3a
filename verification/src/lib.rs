//! A read-through cache in front of a directory service.
//!
//! The library holds the rules of the daemon: how a configuration is judged,
//! how a request becomes a directory search, how answers are cached under a
//! key, and how the background cycle refreshes what is cached. The work that
//! touches the network is described here as actions to perform and events to
//! hand back, so every decision is a function from plain values to plain
//! values.

pub mod cache;
pub mod config;
pub mod directory;
pub mod filter;
pub mod key;
pub mod pipeline;
pub mod refresh;
pub mod request;
pub mod scope;
pub mod state;
pub mod text;
