//! The frame driver's decisions: what one frame iteration does to the
//! world, and when the loop stops.
//!
//! The surrounding loop — polling a window, presenting a surface — is a
//! collaborator's job; it hands events in as plain values and performs
//! the draw operations the core hands back. The fixed per-frame order
//! is: decide on the polled events, advance the delta, dispatch the
//! scheduler, and only then compute the visual projection, so a frame's
//! visuals always reflect that same frame's system updates.

use vstd::prelude::*;
use crate::entity::CompId;
use crate::schedule::{entry_systems, run_seq, same_descriptor, Scheduler, System};
use crate::visual::{joined, project, VisualRecord};

verus! {

/// One polled event, as far as the core cares: the only event the core
/// reacts to directly is the close/terminate signal.
#[derive(Clone, Copy, PartialEq, Eq, Structural, Debug)]
pub enum FrameEvent {
    /// The window or event source asked to close.
    CloseRequested,
    /// Anything else; the core ignores it.
    Other,
}

/// Whether the loop goes on after seeing one event.
pub fn should_continue(e: &FrameEvent) -> (r: bool)
    ensures
        r == !(e is CloseRequested),
{
    match e {
        FrameEvent::CloseRequested => false,
        FrameEvent::Other => true,
    }
}

/// Whether the loop goes on after one poll: it stops exactly when some
/// polled event asked to close. The signal takes effect here, at the
/// top of an iteration — never in the middle of a dispatch.
pub fn continue_after(events: &Vec<FrameEvent>) -> (r: bool)
    ensures
        r == (forall|i: int| 0 <= i < events@.len() ==> !((#[trigger] events@[i]) is CloseRequested)),
{
    let n = events.len();
    let mut i: usize = 0;
    while i < n
        invariant
            n == events@.len(),
            forall|j: int| 0 <= j < i ==> !((#[trigger] events@[j]) is CloseRequested),
        decreases n - i,
    {
        if !should_continue(&events[i]) {
            return false;
        }
        i += 1;
    }
    true
}

/// One frame's core work: dispatch every system with this frame's
/// delta, then compute the visual projection over `comps` — in that
/// order, so the records returned reflect the storages as this frame's
/// systems left them, never a stale previous frame's state.
pub fn frame_step<V: Copy, D: Copy, S: System<V, D>>(
    sched: &mut Scheduler<V, S>,
    delta: D,
    comps: &Vec<CompId>,
) -> (r: Vec<VisualRecord<V>>)
    requires
        old(sched).wf(),
        comps@.len() > 0,
        old(sched).world.comps_valid(comps@),
    ensures
        final(sched).wf(),
        final(sched).is_started(),
        // the dispatch fully completed, in dispatch order
        final(sched).world.snap() == run_seq(
            old(sched).customs_seq(),
            run_seq(entry_systems(old(sched).entries_seq()), old(sched).world.snap(), delta),
            delta,
        ),
        final(sched).world.num_components() == old(sched).world.num_components(),
        final(sched).customs_seq() == Seq::<S>::empty(),
        final(sched).entries_seq().len() == old(sched).entries_seq().len(),
        forall|i: int| 0 <= i < old(sched).entries_seq().len()
            ==> same_descriptor(#[trigger] final(sched).entries_seq()[i], old(sched).entries_seq()[i]),
        // the projection is of the dispatched world of this same frame
        forall|i: int| 0 <= i < r@.len()
            ==> joined(final(sched).world.snap(), comps@, (#[trigger] r@[i]).entity),
        forall|i: int| 0 <= i < r@.len()
            ==> (#[trigger] r@[i]).values@.len() == comps@.len(),
        forall|i: int, k: int| 0 <= i < r@.len() && 0 <= k < comps@.len()
            ==> (#[trigger] r@[i].values@[k])
                == final(sched).world.store(comps@[k].idx as int)[r@[i].entity],
        forall|e: crate::entity::Entity| joined(final(sched).world.snap(), comps@, e)
            ==> exists|i: int| 0 <= i < r@.len() && (#[trigger] r@[i]).entity == e,
        forall|i: int, j: int| 0 <= i < j < r@.len()
            ==> (#[trigger] r@[i]).entity != (#[trigger] r@[j]).entity,
{
    sched.dispatch(delta);
    project(&sched.world, comps)
}

} // verus!
