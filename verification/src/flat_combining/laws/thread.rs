//! How the steps of one thread are steps in the worlds of the other files.

use vstd::prelude::*;

use crate::flat_combining::memory::event::Event;
use crate::flat_combining::protocol::{
    queue_step, slot_of, slot_step, step, waiter_step, word_step, Phase, RecordPhase, SlotPhase,
    Thread, WalkPhase,
};

verus! {

/// A thread that has done nothing is where the threads of the other files
/// start.
pub proof fn law_threads_start_idle()
    ensures
        Thread::start().lock == Phase::Idle,
        Thread::start().slot == SlotPhase::Free,
        Thread::start().record == RecordPhase::Absent,
        Thread::start().walk == WalkPhase::Resting,
{
}

/// An event at a mutex, at a waiter or at a pool moves a thread there and
/// nowhere else, except that a thread that returns its slot has no record any
/// more; an event at a list leaves it where it is with the mutex and the pool,
/// except that a thread that leaves its record behind has no slot any more.
/// Where it moves to is what the worlds of the other files say.
pub proof fn law_event_moves_one_part(before: Thread, event: Event, after: Thread)
    requires
        step(before, event) == Some(after),
    ensures
        match event {
            Event::Word { event: e, .. } => {
                &&& word_step(before.lock, e) == Some(after.lock)
                &&& after == Thread { lock: after.lock, deeds: after.deeds, at: after.at, ..before }
            },
            Event::Waiter { event: e, .. } => {
                &&& waiter_step(before.lock, e) == Some(after.lock)
                &&& after == before.moved(after.lock)
            },
            Event::Pool { masks, event: e } => {
                &&& slot_step(before.slot, e) == Some(after.slot)
                &&& if e is FetchOr {
                    &&& before.record is Absent || before.record is Finished
                    &&& after == before.freed(masks, slot_of(before.slot)->0)
                } else {
                    after == Thread { slot: after.slot, deeds: after.deeds, at: after.at, ..before }
                }
            },
            Event::Queue { event: e, .. } => {
                &&& queue_step(before, e) matches Some(next) && after.record == next.record
                    && after.walk == next.walk
                &&& after == Thread {
                    slot: if e is Abandon {
                        SlotPhase::Free
                    } else {
                        before.slot
                    },
                    record: after.record,
                    walk: after.walk,
                    deeds: after.deeds,
                    at: after.at,
                    ..before
                }
            },
        },
{
}

} // verus!
