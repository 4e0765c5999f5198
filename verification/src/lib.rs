//! A hierarchical (multi-granularity) lock manager.
//!
//! Locks are attached to the nodes of a tree. Holding a lock of some mode on
//! a node requires a corresponding, less restrictive *intention* lock on every
//! ancestor; the five classical database modes `IS`, `IX`, `S`, `SIX` and `X`
//! are used, with their standard compatibility and upgrade lattice.
//!
//! The coordination core is a sequential state machine: a [`kernel::LockSpace`]
//! owns every kernel node and every granted lock instance, and each operation
//! (`acquire`, `release`, `upgrade`) is a verified transition on that state.
//! A front end that wants real blocking wraps the space in a mutex and retries
//! on `LockBusy`; the decisions themselves all live here.

pub mod common;
pub mod kernel;
pub mod laws;
pub mod lock;
pub mod locktype;
