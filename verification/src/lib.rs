//! Registration-time access control for systems over a shared data store.
//!
//! Independently written "systems" declare, when they are registered, which
//! resource slots of a shared store they read or write. Before any system
//! runs, the declared footprints are checked against each other: two
//! parameters of one system may never alias the same mutable slot. The
//! scheduler relies on this check as its proof that systems whose footprints
//! are mutually compatible can run in parallel without data races.

pub mod access;
pub mod handles;
pub mod system_meta;
pub mod system_param;
pub mod tick;
pub mod world;
