//! The world: owner of every component storage and of the entity-id
//! allocator.
//!
//! Component types are registered once at startup; `register` assigns
//! each a fresh `CompId`, so two storages for one type cannot arise.
//! Entity ids grow monotonically and are never reused, which keeps a
//! destroyed entity's id from aliasing a live one.

use vstd::prelude::*;
use crate::entity::{CompId, Entity};
use crate::storage::Storage;

verus! {

/// The mathematical state of a world: the next entity id to hand out
/// and, per registered component type, the map from entities to values.
pub ghost struct WorldSnap<V> {
    pub next: u64,
    pub stores: Seq<Map<Entity, V>>,
}

/// A collection of component values to attach to one entity in a single
/// atomic step. The fluent `with` calls only gather the pairs; nothing
/// touches the world until `World::build_entity` runs.
pub struct EntityBuilder<V> {
    comps: Vec<(CompId, V)>,
}

impl<V: Copy> EntityBuilder<V> {
    /// The gathered (component type, value) pairs, in the order given.
    pub closed spec fn parts(&self) -> Seq<(CompId, V)> {
        self.comps@
    }

    /// An empty builder.
    pub fn new() -> (r: Self)
        ensures
            r.parts() == Seq::<(CompId, V)>::empty(),
    {
        EntityBuilder { comps: Vec::new() }
    }

    /// Add one component value; returns the builder for chaining.
    pub fn with(self, c: CompId, v: V) -> (r: Self)
        ensures
            r.parts() == self.parts().push((c, v)),
    {
        let mut b = self;
        b.comps.push((c, v));
        b
    }

    fn pair(&self, i: usize) -> (r: (CompId, V))
        requires
            i < self.parts().len(),
        ensures
            r == self.parts()[i as int],
    {
        self.comps[i]
    }

    fn count(&self) -> (r: usize)
        ensures
            r == self.parts().len(),
    {
        self.comps.len()
    }
}

/// The world: all storages plus the entity allocator.
pub struct World<V> {
    next_id: u64,
    storages: Vec<Storage<V>>,
}

impl<V: Copy> World<V> {
    /// How many component types are registered.
    pub closed spec fn num_components(&self) -> int {
        self.storages@.len() as int
    }

    /// The map held by the storage of component type `c`.
    pub closed spec fn store(&self, c: int) -> Map<Entity, V> {
        self.storages@[c]@
    }

    /// The next entity id the allocator would hand out.
    pub closed spec fn next(&self) -> u64 {
        self.next_id
    }

    /// The allocator cursor: every id below it was handed out, every id
    /// at or above it is still fresh.
    pub fn next_entity_id(&self) -> (r: u64)
        ensures
            r == self.next(),
    {
        self.next_id
    }

    /// `c` names a registered component type.
    pub open spec fn comp_valid(&self, c: CompId) -> bool {
        c.idx < self.num_components()
    }

    /// Every identifier of `ids` names a registered component type.
    pub open spec fn comps_valid(&self, ids: Seq<CompId>) -> bool {
        forall|i: int| 0 <= i < ids.len() ==> self.comp_valid(#[trigger] ids[i])
    }

    /// The world's state as one value.
    pub closed spec fn snap(&self) -> WorldSnap<V> {
        WorldSnap { next: self.next_id, stores: Seq::new(self.storages@.len(), |c: int| self.storages@[c]@) }
    }

    /// Well-formed: every storage is, and every entity mentioned in any
    /// storage was allocated (its id is below the allocator cursor).
    pub closed spec fn wf(&self) -> bool {
        &&& forall|c: int| 0 <= c < self.num_components() ==> (#[trigger] self.storages@[c]).wf()
        &&& forall|c: int, e: Entity|
            0 <= c < self.num_components() && #[trigger] self.storages@[c]@.contains_key(e)
                ==> e.id < self.next_id
    }

    /// How the snapshot reads back: its cursor and per-type maps are
    /// exactly the world's.
    pub proof fn lemma_snap(&self)
        ensures
            self.snap().next == self.next(),
            self.snap().stores.len() == self.num_components(),
            forall|c: int| 0 <= c < self.num_components()
                ==> #[trigger] self.snap().stores[c] == self.store(c),
    {
    }

    /// An empty world: no component types, no entities.
    pub fn new() -> (r: Self)
        ensures
            r.wf(),
            r.num_components() == 0,
            r.next() == 0,
    {
        World { next_id: 0, storages: Vec::new() }
    }

    /// How many component types are registered.
    pub fn component_count(&self) -> (r: usize)
        ensures
            r == self.num_components(),
    {
        self.storages.len()
    }

    /// Register a component type. Each call creates exactly one new,
    /// empty storage and hands back its fresh identifier, so a type can
    /// never silently get two storages.
    pub fn register(&mut self) -> (c: CompId)
        requires
            old(self).wf(),
        ensures
            final(self).wf(),
            c.idx == old(self).num_components(),
            final(self).num_components() == old(self).num_components() + 1,
            final(self).store(c.idx as int) == Map::<Entity, V>::empty(),
            forall|d: int| 0 <= d < old(self).num_components()
                ==> final(self).store(d) == old(self).store(d),
            final(self).next() == old(self).next(),
    {
        let c = CompId { idx: self.storages.len() };
        self.storages.push(Storage::new());
        c
    }

    /// Allocate a fresh entity with no components. The returned entity
    /// is in no storage: its id was never handed out before.
    pub fn create_entity(&mut self) -> (e: Entity)
        requires
            old(self).wf(),
            old(self).next() < u64::MAX,
        ensures
            final(self).wf(),
            e.id == old(self).next(),
            final(self).next() == old(self).next() + 1,
            final(self).num_components() == old(self).num_components(),
            forall|c: int| 0 <= c < old(self).num_components()
                ==> final(self).store(c) == old(self).store(c),
            forall|c: int| 0 <= c < old(self).num_components()
                ==> !old(self).store(c).contains_key(e),
    {
        let e = Entity { id: self.next_id };
        self.next_id = self.next_id + 1;
        e
    }

    /// The value of component `c` on `e`, if `e` carries one.
    /// Asking about an unregistered component type is a programmer
    /// error, ruled out by the precondition.
    pub fn get(&self, c: CompId, e: Entity) -> (r: Option<V>)
        requires
            self.wf(),
            self.comp_valid(c),
        ensures
            r == if self.store(c.idx as int).contains_key(e) {
                Some(self.store(c.idx as int)[e])
            } else {
                None::<V>
            },
    {
        self.storages[c.idx].get(e)
    }

    /// Whether `e` carries component `c`.
    pub fn has(&self, c: CompId, e: Entity) -> (r: bool)
        requires
            self.wf(),
            self.comp_valid(c),
        ensures
            r == self.store(c.idx as int).contains_key(e),
    {
        self.storages[c.idx].contains(e)
    }

    /// The entities carrying component `c`, each exactly once.
    pub fn entities_of(&self, c: CompId) -> (r: Vec<Entity>)
        requires
            self.wf(),
            self.comp_valid(c),
        ensures
            forall|i: int, j: int| 0 <= i < j < r@.len() ==> r@[i] != r@[j],
            forall|i: int| 0 <= i < r@.len()
                ==> self.store(c.idx as int).contains_key(#[trigger] r@[i]),
            forall|e: Entity| self.store(c.idx as int).contains_key(e)
                ==> exists|i: int| 0 <= i < r@.len() && r@[i] == e,
    {
        self.storages[c.idx].entities()
    }

    /// Attach value `v` of component `c` to the already-created entity
    /// `e`, replacing any value it had.
    pub fn insert_component(&mut self, c: CompId, e: Entity, v: V)
        requires
            old(self).wf(),
            old(self).comp_valid(c),
            e.id < old(self).next(),
        ensures
            final(self).wf(),
            final(self).store(c.idx as int) == old(self).store(c.idx as int).insert(e, v),
            forall|d: int| 0 <= d < old(self).num_components() && d != c.idx
                ==> final(self).store(d) == old(self).store(d),
            final(self).num_components() == old(self).num_components(),
            final(self).next() == old(self).next(),
    {
        let st = &mut self.storages[c.idx];
        st.insert(e, v);
    }

    /// Detach component `c` from `e`, if present.
    pub fn remove_component(&mut self, c: CompId, e: Entity)
        requires
            old(self).wf(),
            old(self).comp_valid(c),
        ensures
            final(self).wf(),
            final(self).store(c.idx as int) == old(self).store(c.idx as int).remove(e),
            forall|d: int| 0 <= d < old(self).num_components() && d != c.idx
                ==> final(self).store(d) == old(self).store(d),
            final(self).num_components() == old(self).num_components(),
            final(self).next() == old(self).next(),
    {
        let st = &mut self.storages[c.idx];
        st.remove(e);
    }

    /// Destroy `e`: remove it from every registered storage. Afterwards
    /// no storage mentions `e`, so every `get` returns absent and every
    /// join excludes it.
    pub fn destroy_entity(&mut self, e: Entity)
        requires
            old(self).wf(),
        ensures
            final(self).wf(),
            forall|c: int| 0 <= c < old(self).num_components()
                ==> final(self).store(c) == old(self).store(c).remove(e),
            forall|c: int| 0 <= c < old(self).num_components()
                ==> !final(self).store(c).contains_key(e),
            final(self).num_components() == old(self).num_components(),
            final(self).next() == old(self).next(),
    {
        let n = self.storages.len();
        let mut i: usize = 0;
        while i < n
            invariant
                n == self.storages.len(),
                self.next_id == old(self).next_id,
                forall|c: int| 0 <= c < n ==> (#[trigger] self.storages@[c]).wf(),
                forall|c: int, en: Entity|
                    0 <= c < n && #[trigger] self.storages@[c]@.contains_key(en)
                        ==> en.id < self.next_id,
                forall|c: int| 0 <= c < i
                    ==> (#[trigger] self.storages@[c])@ == old(self).storages@[c]@.remove(e),
                forall|c: int| i <= c < n
                    ==> (#[trigger] self.storages@[c]) == old(self).storages@[c],
            decreases n - i,
        {
            let st = &mut self.storages[i];
            st.remove(e);
            i += 1;
        }
    }

    /// Build one entity carrying all the builder's components in a
    /// single call. The entity id is allocated inside this call, so no
    /// reader of the world can ever observe the entity with fewer than
    /// all of its components: before the call the id does not exist,
    /// after it every listed component is attached.
    pub fn build_entity(&mut self, b: EntityBuilder<V>) -> (e: Entity)
        requires
            old(self).wf(),
            old(self).next() < u64::MAX,
            forall|i: int| 0 <= i < b.parts().len()
                ==> old(self).comp_valid((#[trigger] b.parts()[i]).0),
            forall|i: int, j: int| 0 <= i < j < b.parts().len()
                ==> (#[trigger] b.parts()[i]).0 != (#[trigger] b.parts()[j]).0,
        ensures
            final(self).wf(),
            e.id == old(self).next(),
            final(self).next() == old(self).next() + 1,
            final(self).num_components() == old(self).num_components(),
            // the entity was unobservable before the call
            forall|c: int| 0 <= c < old(self).num_components()
                ==> !old(self).store(c).contains_key(e),
            // every listed component is attached, with its given value
            forall|i: int| 0 <= i < b.parts().len()
                ==> final(self).store((#[trigger] b.parts()[i]).0.idx as int).contains_key(e)
                    && final(self).store(b.parts()[i].0.idx as int)[e] == b.parts()[i].1,
            // storages of listed components gain exactly the new pair
            forall|i: int| 0 <= i < b.parts().len()
                ==> final(self).store((#[trigger] b.parts()[i]).0.idx as int)
                    == old(self).store(b.parts()[i].0.idx as int).insert(e, b.parts()[i].1),
            // all other storages are untouched
            forall|c: int|
                0 <= c < old(self).num_components()
                    && (forall|i: int| 0 <= i < b.parts().len() ==> (#[trigger] b.parts()[i]).0.idx != c)
                    ==> final(self).store(c) == old(self).store(c),
    {
        let e = self.create_entity();
        let n = b.count();
        let mut i: usize = 0;
        while i < n
            invariant
                n == b.parts().len(),
                i <= n,
                self.wf(),
                e.id < self.next(),
                self.next() == old(self).next() + 1,
                self.num_components() == old(self).num_components(),
                forall|k: int| 0 <= k < n
                    ==> old(self).comp_valid((#[trigger] b.parts()[k]).0),
                forall|k: int, j: int| 0 <= k < j < n
                    ==> (#[trigger] b.parts()[k]).0 != (#[trigger] b.parts()[j]).0,
                forall|k: int| 0 <= k < i
                    ==> self.store((#[trigger] b.parts()[k]).0.idx as int)
                        == old(self).store(b.parts()[k].0.idx as int).insert(e, b.parts()[k].1),
                forall|c: int|
                    0 <= c < old(self).num_components()
                        && (forall|k: int| 0 <= k < i ==> (#[trigger] b.parts()[k]).0.idx != c)
                        ==> self.store(c) == old(self).store(c),
            decreases n - i,
        {
            let (c, v) = b.pair(i);
            self.insert_component(c, e, v);
            i += 1;
        }
        proof {
            assert forall|k: int| 0 <= k < b.parts().len()
                implies final(self).store((#[trigger] b.parts()[k]).0.idx as int).contains_key(e)
                    && final(self).store(b.parts()[k].0.idx as int)[e] == b.parts()[k].1 by {
                assert(final(self).store(b.parts()[k].0.idx as int)
                    == old(self).store(b.parts()[k].0.idx as int).insert(e, b.parts()[k].1));
            }
        }
        e
    }
}

} // verus!
