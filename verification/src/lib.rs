//! Core logic of a desktop companion tool for local development projects:
//! an interactive pseudo-terminal session manager and a debounced
//! filesystem change-notification pipeline, together with the pure parsing
//! and classification helpers the surrounding application uses.
//!
//! All I/O (spawning pseudo-terminals, blocking reads, filesystem watches,
//! timers) is performed by the host application; this crate holds the
//! decision logic — session registry, dimension validation, debouncing,
//! event classification — with verified contracts.

pub mod env;
pub mod error;
pub mod github;
pub mod identity;
pub mod models;
pub mod paths;
pub mod session;
pub mod terminal;
pub mod text;
pub mod watch;
