//! Core of a local code-review tool: it turns a version-control diff into a
//! line-addressable, per-file view, resolves a free-form subject string into a
//! review subject, and keeps the shared review session (its comments and its
//! completion handshake) in a verified store.

pub mod cli;
pub mod models;
pub mod strutil;
pub mod diff;
pub mod content;
pub mod session;
pub mod resolve;
pub mod lookup;
pub mod assets;
pub mod summary;
