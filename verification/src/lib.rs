//! A verified entity-component core: a world of typed component storages,
//! a priority-ordered system scheduler, a read-only visual projection
//! (join) over storages, and a painter contract that turns visual records
//! into draw operations against a fixed resource pool.
//!
//! Window creation, GPU submission and asset decoding are collaborators
//! outside this crate; the core only ever sees plain values.

pub mod entity;
pub mod storage;
pub mod world;
pub mod schedule;
pub mod visual;
pub mod paint;
pub mod pool;
pub mod frame;
