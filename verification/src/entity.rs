//! Entity identifiers and component-type identifiers.

use vstd::prelude::*;

verus! {

/// An entity identifier. It carries no data of its own; it only indexes
/// into component storages. Treat it as opaque: the world allocates ids
/// monotonically and never reuses one, so a destroyed entity's id never
/// comes back while any storage could still mention it.
#[derive(Clone, Copy, PartialEq, Eq, Structural, Debug)]
pub struct Entity {
    pub id: u64,
}

/// A component-type identifier, assigned by `World::register` at startup.
/// It is the stable key under which one storage lives in the world's
/// registry.
#[derive(Clone, Copy, PartialEq, Eq, Structural, Debug)]
pub struct CompId {
    pub idx: usize,
}

} // verus!
