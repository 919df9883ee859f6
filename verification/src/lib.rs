//! Fleet of long-lived interactive remote shell sessions.
//!
//! The crate models the per-session connection engine (connect, authenticate,
//! allocate a pseudo-terminal, run, drop, reconnect), the reconnect policy,
//! the SFTP directory-listing and bounded file-read logic, the resource
//! sampler's parsers, the fleet registry, and the workset and settings stores.
//! All decision logic lives here and is verified; the surrounding process
//! (sockets, threads, the secure-transport library, disk persistence) drives
//! these functions from outside.

pub mod activation;
pub mod engine;
pub mod fleet;
pub mod policy;
pub mod resources;
pub mod session;
pub mod settings;
pub mod sftp;
pub mod textscan;
pub mod workset;
