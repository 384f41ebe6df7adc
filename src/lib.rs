//! Compiles a declarative description of a simulated SCION network into a
//! validated in-memory model: the AS topology, the simulated endpoints with
//! their generated identifiers, and the addresses they bind to.

pub mod error;
pub mod ident;
pub mod config;
pub mod topology;
pub mod entities;
pub mod assembly;
