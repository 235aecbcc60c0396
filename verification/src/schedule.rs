//! The scheduler (planner): a priority-ordered list of systems bound to
//! one world, dispatched once per frame.
//!
//! Execution is strictly sequential in ascending (priority, registration
//! order); that is the reference semantics every run of a frame must be
//! equivalent to. One-shot tasks queued with `run_custom` run after all
//! named systems of the same frame, in queue order, and are then
//! discarded.

use vstd::prelude::*;
use crate::entity::CompId;
use crate::world::{World, WorldSnap};

verus! {

/// A per-frame unit of logic with a declared access set. Its whole
/// observable effect on the world is the spec-level transition `step`,
/// which `run` must realize; systems may keep private state, but the
/// world they leave behind is pinned by the state they started the
/// frame with.
pub trait System<V: Copy, D>: Sized {
    /// The transition this system performs on the world, as a function
    /// of the system's own state, the world state, and the frame delta.
    /// An implementation proved against `run`'s contract states its
    /// transition here; left at the default, the transition is simply
    /// unspecified.
    open spec fn step(&self, w: WorldSnap<V>, delta: D) -> WorldSnap<V> {
        arbitrary()
    }

    /// Run once for this frame. Systems mutate component storages and
    /// may create or destroy entities, but never register new component
    /// types: registration belongs to startup, before the first frame.
    fn run(&mut self, world: &mut World<V>, delta: D)
        requires
            old(world).wf(),
        ensures
            final(world).wf(),
            final(world).snap() == old(self).step(old(world).snap(), delta),
            final(world).num_components() == old(world).num_components(),
    ;
}

/// One registered system with its descriptor: unique name, priority
/// (lower runs earlier), registration order (`seq`, breaking priority
/// ties), and the declared read and write component sets — the
/// scheduler's sole source of truth about what the system touches.
pub struct SystemEntry<S> {
    pub sys: S,
    pub name: String,
    pub priority: i64,
    pub seq: u64,
    pub reads: Vec<CompId>,
    pub writes: Vec<CompId>,
}

/// `a` must run strictly before `b`: lower priority first, ties broken
/// by registration order.
pub open spec fn entry_before<S>(a: SystemEntry<S>, b: SystemEntry<S>) -> bool {
    a.priority < b.priority || (a.priority == b.priority && a.seq < b.seq)
}

/// The two entries carry the same descriptor (the system's own state
/// may differ).
pub open spec fn same_descriptor<S>(a: SystemEntry<S>, b: SystemEntry<S>) -> bool {
    a.name@ == b.name@ && a.priority == b.priority && a.seq == b.seq && a.reads@ == b.reads@
        && a.writes@ == b.writes@
}

/// The systems of a list of entries, in list order.
pub open spec fn entry_systems<S>(es: Seq<SystemEntry<S>>) -> Seq<S> {
    es.map_values(|en: SystemEntry<S>| en.sys)
}

/// Some entry already carries this name.
pub open spec fn name_taken<S>(es: Seq<SystemEntry<S>>, name: Seq<char>) -> bool {
    exists|i: int| 0 <= i < es.len() && (#[trigger] es[i]).name@ == name
}

/// The world after running every system of `ss` in list order, each
/// exactly once, starting from `w`.
pub open spec fn run_seq<V: Copy, D, S: System<V, D>>(ss: Seq<S>, w: WorldSnap<V>, delta: D) -> WorldSnap<V>
    decreases ss.len(),
{
    if ss.len() == 0 {
        w
    } else {
        ss.last().step(run_seq(ss.drop_last(), w, delta), delta)
    }
}

/// A configuration error, detected at registration time and fatal to
/// the caller (the core never starts a frame from a bad configuration).
#[derive(Clone, Copy, PartialEq, Eq, Structural, Debug)]
pub enum SchedError {
    /// `add_system` after the first dispatch: the system list is fixed
    /// before the frame loop starts.
    AddAfterStart,
    /// A system with this name is already registered.
    DuplicateName,
    /// A declared read or write names an unregistered component type.
    UnregisteredComponent,
}

/// The scheduler, bound to exactly one world for its lifetime.
pub struct Scheduler<V, S> {
    /// The world the systems act on.
    pub world: World<V>,
    /// The registered entries, kept in dispatch order; go through
    /// `add_system` to keep the scheduler well-formed.
    pub entries: Vec<SystemEntry<S>>,
    /// The queued one-shot tasks, in queue order.
    pub customs: Vec<S>,
    /// Whether a frame has been dispatched yet.
    pub started: bool,
}

impl<V: Copy, S> Scheduler<V, S> {
    /// The registered entries, in dispatch order.
    pub open spec fn entries_seq(&self) -> Seq<SystemEntry<S>> {
        self.entries@
    }

    /// The queued one-shot tasks, in queue order.
    pub open spec fn customs_seq(&self) -> Seq<S> {
        self.customs@
    }

    /// Whether a frame has been dispatched yet.
    pub open spec fn is_started(&self) -> bool {
        self.started
    }

    /// Well-formed: the world is, the entries stand in strict dispatch
    /// order, each registration index is below the list length, and no
    /// two entries share a name.
    pub open spec fn wf(&self) -> bool {
        &&& self.world.wf()
        &&& forall|i: int, j: int| 0 <= i < j < self.entries@.len()
            ==> entry_before(#[trigger] self.entries@[i], #[trigger] self.entries@[j])
        &&& forall|i: int| 0 <= i < self.entries@.len()
            ==> (#[trigger] self.entries@[i]).seq < self.entries@.len()
        &&& forall|i: int, j: int| 0 <= i < j < self.entries@.len()
            ==> (#[trigger] self.entries@[i]).name@ != (#[trigger] self.entries@[j]).name@
    }

    /// Bind a scheduler to its world.
    pub fn new(world: World<V>) -> (r: Self)
        requires
            world.wf(),
        ensures
            r.wf(),
            r.world == world,
            r.entries_seq() == Seq::<SystemEntry<S>>::empty(),
            r.customs_seq() == Seq::<S>::empty(),
            !r.is_started(),
    {
        Scheduler { world, entries: Vec::new(), customs: Vec::new(), started: false }
    }

    /// Whether a frame has been dispatched yet.
    pub fn started(&self) -> (r: bool)
        ensures
            r == self.is_started(),
    {
        self.started
    }

    /// Whether some registered system carries this name.
    pub fn has_system(&self, name: &String) -> (r: bool)
        ensures
            r == name_taken(self.entries_seq(), name@),
    {
        let n = self.entries.len();
        let mut i: usize = 0;
        while i < n
            invariant
                n == self.entries.len(),
                forall|j: int| 0 <= j < i ==> (#[trigger] self.entries@[j]).name@ != name@,
            decreases n - i,
        {
            if self.entries[i].name == *name {
                return true;
            }
            i += 1;
        }
        false
    }

    fn ids_ok(&self, ids: &Vec<CompId>) -> (r: bool)
        ensures
            r == self.world.comps_valid(ids@),
    {
        let count = self.world.component_count();
        let n = ids.len();
        let mut i: usize = 0;
        while i < n
            invariant
                n == ids.len(),
                count == self.world.num_components(),
                forall|j: int| 0 <= j < i ==> self.world.comp_valid(#[trigger] ids@[j]),
            decreases n - i,
        {
            if ids[i].idx >= count {
                return false;
            }
            i += 1;
        }
        true
    }

    /// Register a named system. Valid only before the first dispatch;
    /// the name must be fresh and every declared component registered —
    /// each violation is reported as the matching configuration error,
    /// checked in that order, and leaves the scheduler unchanged. On
    /// success the entry is placed at its dispatch position: after every
    /// entry of lower or equal priority, before every entry of higher
    /// priority.
    pub fn add_system(&mut self, sys: S, name: String, priority: i64, reads: Vec<CompId>, writes: Vec<CompId>)
        -> (r: Result<(), SchedError>)
        requires
            old(self).wf(),
        ensures
            final(self).wf(),
            final(self).world == old(self).world,
            final(self).customs_seq() == old(self).customs_seq(),
            final(self).is_started() == old(self).is_started(),
            r == (if old(self).is_started() {
                Err::<(), SchedError>(SchedError::AddAfterStart)
            } else if name_taken(old(self).entries_seq(), name@) {
                Err::<(), SchedError>(SchedError::DuplicateName)
            } else if !(old(self).world.comps_valid(reads@) && old(self).world.comps_valid(writes@)) {
                Err::<(), SchedError>(SchedError::UnregisteredComponent)
            } else {
                Ok::<(), SchedError>(())
            }),
            r is Err ==> final(self).entries_seq() == old(self).entries_seq(),
            r is Ok ==> final(self).entries_seq().len() == old(self).entries_seq().len() + 1
                && exists|k: int|
                    0 <= k <= old(self).entries_seq().len()
                    && (#[trigger] final(self).entries_seq()[k]).sys == sys
                    && final(self).entries_seq()[k].name@ == name@
                    && final(self).entries_seq()[k].priority == priority
                    && final(self).entries_seq()[k].seq == old(self).entries_seq().len() as u64
                    && final(self).entries_seq()[k].reads@ == reads@
                    && final(self).entries_seq()[k].writes@ == writes@
                    && (forall|j: int| 0 <= j < k
                        ==> final(self).entries_seq()[j] == old(self).entries_seq()[j])
                    && (forall|j: int| k < j < final(self).entries_seq().len()
                        ==> final(self).entries_seq()[j] == old(self).entries_seq()[j - 1]),
    {
        if self.started {
            return Err(SchedError::AddAfterStart);
        }
        if self.has_system(&name) {
            return Err(SchedError::DuplicateName);
        }
        if !self.ids_ok(&reads) || !self.ids_ok(&writes) {
            return Err(SchedError::UnregisteredComponent);
        }
        let n = self.entries.len();
        let entry = SystemEntry { sys, name, priority, seq: n as u64, reads, writes };
        let mut pos: usize = 0;
        while pos < n && self.entries[pos].priority <= priority
            invariant
                n == self.entries.len(),
                pos <= n,
                forall|j: int| 0 <= j < pos ==> (#[trigger] self.entries@[j]).priority <= priority,
            decreases n - pos,
        {
            pos += 1;
        }
        let ghost before = self.entries@;
        proof {
            assert forall|j: int| pos <= j < n implies (#[trigger] before[j]).priority > priority by {
                if j > pos {
                    assert(entry_before(before[pos as int], before[j]));
                }
            }
        }
        self.entries.insert(pos, entry);
        proof {
            assert forall|i: int, j: int| 0 <= i < j < self.entries@.len()
                implies entry_before(#[trigger] self.entries@[i], #[trigger] self.entries@[j]) by {
                let a = if i < pos { before[i] } else if i == pos { self.entries@[pos as int] } else { before[i - 1] };
                let b = if j < pos { before[j] } else if j == pos { self.entries@[pos as int] } else { before[j - 1] };
                assert(self.entries@[i] == a);
                assert(self.entries@[j] == b);
                assert(self.entries@[pos as int] == entry);
            }
            assert forall|i: int, j: int| 0 <= i < j < self.entries@.len()
                implies (#[trigger] self.entries@[i]).name@ != (#[trigger] self.entries@[j]).name@ by {
                if i < pos {
                    assert(self.entries@[i] == before[i]);
                } else if i > pos {
                    assert(self.entries@[i] == before[i - 1]);
                }
                if j < pos {
                    assert(self.entries@[j] == before[j]);
                } else if j > pos {
                    assert(self.entries@[j] == before[j - 1]);
                }
            }
            assert forall|i: int| 0 <= i < self.entries@.len()
                implies (#[trigger] self.entries@[i]).seq < self.entries@.len() by {
                if i < pos {
                    assert(self.entries@[i] == before[i]);
                } else if i > pos {
                    assert(self.entries@[i] == before[i - 1]);
                } else {
                    assert(self.entries@[i] == entry);
                }
            }
            let ghost k = pos as int;
            assert(final(self).entries_seq()[k].sys == sys
                && final(self).entries_seq()[k].name@ == name@
                && final(self).entries_seq()[k].priority == priority
                && final(self).entries_seq()[k].seq == before.len() as u64
                && final(self).entries_seq()[k].reads@ == reads@
                && final(self).entries_seq()[k].writes@ == writes@);
        }
        Ok(())
    }

    /// Queue a one-shot task under the same access-declaration
    /// discipline as a named system. It runs once, after all named
    /// systems of the frame it is dispatched in, ordered among one-shots
    /// by queue order, and is then discarded.
    pub fn run_custom(&mut self, task: S, reads: Vec<CompId>, writes: Vec<CompId>)
        -> (r: Result<(), SchedError>)
        requires
            old(self).wf(),
        ensures
            final(self).wf(),
            final(self).world == old(self).world,
            final(self).entries_seq() == old(self).entries_seq(),
            final(self).is_started() == old(self).is_started(),
            r == (if old(self).world.comps_valid(reads@) && old(self).world.comps_valid(writes@) {
                Ok::<(), SchedError>(())
            } else {
                Err::<(), SchedError>(SchedError::UnregisteredComponent)
            }),
            r is Ok ==> final(self).customs_seq() == old(self).customs_seq().push(task),
            r is Err ==> final(self).customs_seq() == old(self).customs_seq(),
    {
        if !self.ids_ok(&reads) || !self.ids_ok(&writes) {
            return Err(SchedError::UnregisteredComponent);
        }
        self.customs.push(task);
        Ok(())
    }

    /// Dispatch one frame: run every named system in ascending
    /// (priority, registration order), then every queued one-shot in
    /// queue order, each exactly once, all on this scheduler's world
    /// with the same frame delta. The world the frame leaves behind is
    /// exactly the sequential composition of the systems' transitions in
    /// that order; the one-shot queue is emptied; every entry keeps its
    /// descriptor and its place.
    pub fn dispatch<D: Copy>(&mut self, delta: D) where S: System<V, D>
        requires
            old(self).wf(),
        ensures
            final(self).wf(),
            final(self).is_started(),
            final(self).world.snap() == run_seq(
                old(self).customs_seq(),
                run_seq(entry_systems(old(self).entries_seq()), old(self).world.snap(), delta),
                delta,
            ),
            final(self).world.num_components() == old(self).world.num_components(),
            final(self).customs_seq() == Seq::<S>::empty(),
            final(self).entries_seq().len() == old(self).entries_seq().len(),
            forall|i: int| 0 <= i < old(self).entries_seq().len()
                ==> same_descriptor(#[trigger] final(self).entries_seq()[i], old(self).entries_seq()[i]),
    {
        let ghost w0 = self.world.snap();
        let ghost es0 = self.entries@;
        let n = self.entries.len();
        let mut i: usize = 0;
        while i < n
            invariant
                n == self.entries.len(),
                i <= n,
                es0 == old(self).entries_seq(),
                es0.len() == n as int,
                entry_systems(es0).len() == n as int,
                w0 == old(self).world.snap(),
                self.world.wf(),
                self.world.num_components() == old(self).world.num_components(),
                self.customs@ == old(self).customs_seq(),
                self.started == old(self).is_started(),
                forall|j: int| 0 <= j < n
                    ==> same_descriptor(#[trigger] self.entries@[j], es0[j]),
                forall|j: int| i <= j < n ==> #[trigger] self.entries@[j] == es0[j],
                self.world.snap() == run_seq(entry_systems(es0).take(i as int), w0, delta),
            decreases n - i,
        {
            proof {
                assert(self.entries@[i as int] == es0[i as int]);
                assert(entry_systems(es0)[i as int] == es0[i as int].sys);
            }
            let en = &mut self.entries[i];
            en.sys.run(&mut self.world, delta);
            proof {
                let ghost pre = entry_systems(es0).take(i as int);
                let ghost cur = entry_systems(es0).take(i as int + 1);
                assert(cur.len() == i as int + 1);
                assert(cur.drop_last() =~= pre);
                assert(cur.last() == entry_systems(es0)[i as int]);
                assert(cur.last() == es0[i as int].sys);
            }
            i += 1;
        }
        let ghost w_mid = self.world.snap();
        let ghost cs0 = self.customs@;
        proof {
            assert(entry_systems(es0).take(n as int) =~= entry_systems(es0));
        }
        let m = self.customs.len();
        let mut k: usize = 0;
        while k < m
            invariant
                m == cs0.len(),
                k <= m,
                cs0 == old(self).customs_seq(),
                self.world.wf(),
                self.world.num_components() == old(self).world.num_components(),
                self.customs@ == cs0.skip(k as int),
                self.started == old(self).is_started(),
                self.entries@.len() == n as int,
                forall|j: int| 0 <= j < n
                    ==> same_descriptor(#[trigger] self.entries@[j], es0[j]),
                self.world.snap() == run_seq(cs0.take(k as int), w_mid, delta),
            decreases m - k,
        {
            let mut c = self.customs.remove(0);
            proof {
                assert(cs0.skip(k as int)[0] == cs0[k as int]);
                assert(cs0.skip(k as int).remove(0) =~= cs0.skip(k as int + 1));
            }
            c.run(&mut self.world, delta);
            proof {
                let ghost pre = cs0.take(k as int);
                let ghost cur = cs0.take(k as int + 1);
                assert(cur.len() == k as int + 1);
                assert(cur.drop_last() =~= pre);
                assert(cur.last() == cs0[k as int]);
            }
            k += 1;
        }
        proof {
            assert(cs0.take(m as int) =~= cs0);
            assert(self.customs@ =~= Seq::<S>::empty());
        }
        self.started = true;
        proof {
            assert forall|p: int, q: int| 0 <= p < q < self.entries@.len()
                implies entry_before(#[trigger] self.entries@[p], #[trigger] self.entries@[q]) by {
                assert(same_descriptor(self.entries@[p], es0[p]));
                assert(same_descriptor(self.entries@[q], es0[q]));
                assert(entry_before(es0[p], es0[q]));
            }
        }
    }
}

/// Priority ordering: in a well-formed scheduler, an entry with strictly
/// lower priority stands strictly earlier in the dispatch order than any
/// entry with higher priority — so, by `dispatch`'s contract, its whole
/// transition is applied to the world before the other's begins,
/// whatever their access sets share.
pub proof fn lemma_priority_order<V: Copy, S>(s: &Scheduler<V, S>, i: int, j: int)
    requires
        s.wf(),
        0 <= i < s.entries_seq().len(),
        0 <= j < s.entries_seq().len(),
        s.entries_seq()[i].priority < s.entries_seq()[j].priority,
    ensures
        i < j,
{
    if i == j {
        assert(false);
    } else if j < i {
        assert(entry_before(s.entries_seq()[j], s.entries_seq()[i]));
        assert(false);
    }
}

/// Registration order breaks priority ties: of two entries with equal
/// priority, the one registered earlier stands earlier in the dispatch
/// order.
pub proof fn lemma_tie_broken_by_registration<V: Copy, S>(s: &Scheduler<V, S>, i: int, j: int)
    requires
        s.wf(),
        0 <= i < s.entries_seq().len(),
        0 <= j < s.entries_seq().len(),
        s.entries_seq()[i].priority == s.entries_seq()[j].priority,
        s.entries_seq()[i].seq < s.entries_seq()[j].seq,
    ensures
        i < j,
{
    if i == j {
        assert(false);
    } else if j < i {
        assert(entry_before(s.entries_seq()[j], s.entries_seq()[i]));
        assert(false);
    }
}

} // verus!
