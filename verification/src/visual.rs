//! The visual projection: a read-only join over component storages,
//! producing one record per entity that carries every requested
//! component.
//!
//! The projection is computed freshly each time it is asked for — never
//! cached across frames — so its records always show the storages as
//! they stand at the moment of the call.

use vstd::prelude::*;
use crate::entity::{CompId, Entity};
use crate::world::{World, WorldSnap};

verus! {

/// `e` carries every component of `comps` in world state `w`.
pub open spec fn joined<V>(w: WorldSnap<V>, comps: Seq<CompId>, e: Entity) -> bool {
    forall|k: int| 0 <= k < comps.len()
        ==> w.stores[(#[trigger] comps[k]).idx as int].contains_key(e)
}

/// One per-frame visual record: the entity and, per requested
/// component, its value, in the order the components were requested.
pub struct VisualRecord<V> {
    pub entity: Entity,
    pub values: Vec<V>,
}

/// Join the storages of `comps`: one record per entity present in all
/// of them — exactly the set intersection, no entity twice, none with a
/// component missing. The order of the records is storage-defined but
/// fixed for one call on one world state.
#[verifier::rlimit(60)]
pub fn project<V: Copy>(world: &World<V>, comps: &Vec<CompId>) -> (r: Vec<VisualRecord<V>>)
    requires
        world.wf(),
        comps@.len() > 0,
        world.comps_valid(comps@),
    ensures
        forall|i: int| 0 <= i < r@.len()
            ==> joined(world.snap(), comps@, (#[trigger] r@[i]).entity),
        forall|i: int| 0 <= i < r@.len()
            ==> (#[trigger] r@[i]).values@.len() == comps@.len(),
        forall|i: int, k: int| 0 <= i < r@.len() && 0 <= k < comps@.len()
            ==> (#[trigger] r@[i].values@[k])
                == world.store(comps@[k].idx as int)[r@[i].entity],
        forall|e: Entity| joined(world.snap(), comps@, e)
            ==> exists|i: int| 0 <= i < r@.len() && (#[trigger] r@[i]).entity == e,
        forall|i: int, j: int| 0 <= i < j < r@.len()
            ==> (#[trigger] r@[i]).entity != (#[trigger] r@[j]).entity,
{
    proof {
        world.lemma_snap();
        assert forall|k: int| 0 <= k < comps@.len()
            implies world.snap().stores[(#[trigger] comps@[k]).idx as int]
                == world.store(comps@[k].idx as int) by {
            assert(world.comp_valid(comps@[k]));
        }
    }
    let cands = world.entities_of(comps[0]);
    let n = cands.len();
    let m = comps.len();
    let mut r: Vec<VisualRecord<V>> = Vec::new();
    let mut p: usize = 0;
    while p < n
        invariant
            n == cands@.len(),
            m == comps@.len(),
            p <= n,
            world.wf(),
            comps@.len() > 0,
            world.comps_valid(comps@),
            forall|i: int, j: int| 0 <= i < j < n ==> cands@[i] != cands@[j],
            forall|i: int| 0 <= i < n
                ==> world.store(comps@[0].idx as int).contains_key(#[trigger] cands@[i]),
            forall|e: Entity| world.store(comps@[0].idx as int).contains_key(e)
                ==> exists|i: int| 0 <= i < n && cands@[i] == e,
            forall|i: int| 0 <= i < r@.len()
                ==> joined(world.snap(), comps@, (#[trigger] r@[i]).entity),
            forall|i: int| 0 <= i < r@.len()
                ==> (#[trigger] r@[i]).values@.len() == comps@.len(),
            forall|i: int, k: int| 0 <= i < r@.len() && 0 <= k < comps@.len()
                ==> (#[trigger] r@[i].values@[k])
                    == world.store(comps@[k].idx as int)[r@[i].entity],
            forall|i: int| 0 <= i < r@.len()
                ==> exists|j: int| 0 <= j < p && cands@[j] == (#[trigger] r@[i]).entity,
            forall|i: int, j: int| 0 <= i < j < r@.len()
                ==> (#[trigger] r@[i]).entity != (#[trigger] r@[j]).entity,
            forall|j: int| 0 <= j < p && joined(world.snap(), comps@, #[trigger] cands@[j])
                ==> exists|i: int| 0 <= i < r@.len() && r@[i].entity == cands@[j],
            forall|k: int| 0 <= k < comps@.len()
                ==> world.snap().stores[(#[trigger] comps@[k]).idx as int]
                    == world.store(comps@[k].idx as int),
        decreases n - p,
    {
        let e = cands[p];
        let mut all = true;
        let mut k: usize = 0;
        while k < m
            invariant
                m == comps@.len(),
                k <= m,
                world.wf(),
                world.comps_valid(comps@),
                all == (forall|kk: int| 0 <= kk < k
                    ==> world.store((#[trigger] comps@[kk]).idx as int).contains_key(e)),
            decreases m - k,
        {
            if !world.has(comps[k], e) {
                all = false;
            }
            k += 1;
        }
        if all {
            let mut vals: Vec<V> = Vec::new();
            let mut k2: usize = 0;
            while k2 < m
                invariant
                    m == comps@.len(),
                    k2 <= m,
                    world.wf(),
                    world.comps_valid(comps@),
                    forall|kk: int| 0 <= kk < m
                        ==> world.store((#[trigger] comps@[kk]).idx as int).contains_key(e),
                    vals@.len() == k2,
                    forall|kk: int| 0 <= kk < k2
                        ==> #[trigger] vals@[kk] == world.store(comps@[kk].idx as int)[e],
                decreases m - k2,
            {
                let v = world.get(comps[k2], e).unwrap();
                vals.push(v);
                k2 += 1;
            }
            let ghost r_before = r@;
            r.push(VisualRecord { entity: e, values: vals });
            proof {
                assert(r@.drop_last() =~= r_before);
                assert forall|i: int| 0 <= i < r@.len()
                    implies exists|j: int| 0 <= j <= p && cands@[j] == (#[trigger] r@[i]).entity by {
                    if i < r@.len() - 1 {
                        assert(r@[i] == r_before[i]);
                        let j = choose|j: int| 0 <= j < p && cands@[j] == r_before[i].entity;
                        assert(cands@[j] == r@[i].entity);
                    } else {
                        assert(cands@[p as int] == r@[i].entity);
                    }
                }
                assert forall|i: int, j: int| 0 <= i < j < r@.len()
                    implies (#[trigger] r@[i]).entity != (#[trigger] r@[j]).entity by {
                    if j < r@.len() - 1 {
                        assert(r@[i] == r_before[i]);
                        assert(r@[j] == r_before[j]);
                    } else {
                        assert(r@[i] == r_before[i]);
                        assert(r@[j].entity == cands@[p as int]);
                        let q = choose|q: int| 0 <= q < p && cands@[q] == r_before[i].entity;
                        assert(cands@[q] != cands@[p as int]);
                    }
                }
                assert forall|j: int| 0 <= j < p + 1 && joined(world.snap(), comps@, #[trigger] cands@[j])
                    implies exists|i: int| 0 <= i < r@.len() && r@[i].entity == cands@[j] by {
                    if j < p {
                        let i = choose|i: int| 0 <= i < r_before.len() && r_before[i].entity == cands@[j];
                        assert(r@[i] == r_before[i]);
                    } else {
                        assert(r@[r@.len() - 1].entity == cands@[j]);
                    }
                }
            }
        } else {
            proof {
                let kk = choose|kk: int| 0 <= kk < m
                    && !world.store((#[trigger] comps@[kk]).idx as int).contains_key(e);
                assert(!world.snap().stores[comps@[kk].idx as int].contains_key(e));
                assert(!joined(world.snap(), comps@, e));
                assert forall|j: int| 0 <= j < p + 1 && joined(world.snap(), comps@, #[trigger] cands@[j])
                    implies exists|i: int| 0 <= i < r@.len() && r@[i].entity == cands@[j] by {
                    assert(j != p);
                }
            }
        }
        p += 1;
    }
    proof {
        assert forall|e: Entity| joined(world.snap(), comps@, e)
            implies exists|i: int| 0 <= i < r@.len() && (#[trigger] r@[i]).entity == e by {
            assert(world.snap().stores[comps@[0].idx as int].contains_key(e));
            assert(world.store(comps@[0].idx as int).contains_key(e));
            let j = choose|j: int| 0 <= j < n && cands@[j] == e;
            assert(joined(world.snap(), comps@, cands@[j]));
        }
    }
    r
}

/// An entity missing any one of the requested components is excluded
/// from the join — in particular, a destroyed entity, which every
/// storage has dropped, never appears in any later projection.
pub proof fn lemma_absent_excluded<V>(w: WorldSnap<V>, comps: Seq<CompId>, e: Entity, k: int)
    requires
        0 <= k < comps.len(),
        !w.stores[comps[k].idx as int].contains_key(e),
    ensures
        !joined(w, comps, e),
{
}

} // verus!
