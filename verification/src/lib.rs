//! Planning and execution engine for a declarative workspace
//! synchronization daemon.
//!
//! The library turns a validated workspace specification into an ordered
//! plan of sync actions, resolves named (possibly wrapped) remotes, renders
//! backend connection strings, and drives retry, failure classification,
//! bisync-initialization state and health reporting as pure, verified
//! decision logic. All process, file and network work lives outside the
//! library and hands in plain values.

pub mod backend;
pub mod cli;
pub mod config;
pub mod plan;
pub mod state;
pub mod sync;
pub mod text;
