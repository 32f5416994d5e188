//! Shared memory, and ghost records of what a thread does to it.
//!
//! Atomics carry no value that a contract could speak of: what a load returns
//! is up to the other threads.  A contract can speak of the accesses
//! themselves, though.  Every access to an atomic that this library makes is
//! noted, with its cell, its arguments and its reply, in a [`Trace`], and so is
//! what is done to the value of a mutex, to the slots of a pool and to the
//! operations in them; contracts say which traces a function may leave behind.
//! Only the functions of this module that do these things note them, so that the
//! order of the notes is the order of what was done.  A cell can be reached in no
//! other way than one that is noted, and a function of this library can note it in
//! no other trace than the one that it was handed: see [`shared`] and [`trace`].  A
//! trace holds nothing at run time.

use vstd::prelude::*;

pub mod cell;
pub mod event;
pub mod list;
pub mod mask;
pub mod record;
pub mod shared;
pub mod slot;
pub mod trace;
pub mod word;

use self::event::{Call, Event, Place, PoolEvent, QueueEvent, WordEvent};
use self::mask::Masks;
pub use self::trace::{Outside, Trace};
use self::word::MutexWord;
use crate::flat_combining::protocol::step;

verus! {

/// Whether one trace goes on where another ends.
pub open spec fn extends(before: Seq<Event>, after: Seq<Event>) -> bool {
    &&& before.len() <= after.len()
    &&& forall|i: int| 0 <= i < before.len() ==> #[trigger] after[i] == before[i]
}

impl<K> Trace<K> {
    /// Notes that an operation on a mutex starts.
    pub(crate) fn begin(&mut self, word: &MutexWord<K>, Ghost(call): Ghost<Call>)
        requires
            old(self).thread() matches Some(t) && step(
                t,
                word.id().event(WordEvent::Begin { call }),
            ) is Some,
        ensures
            final(self)@ == old(self)@.push(word.id().event(WordEvent::Begin { call })),
            final(self).thread() == step(
                old(self).thread()->0,
                word.id().event(WordEvent::Begin { call }),
            ),
    {
        self.note(Ghost(word.id().event(WordEvent::Begin { call })));
    }

    /// Notes that the thread stops waiting for the word of a mutex.
    pub(crate) fn give_up(&mut self, word: &MutexWord<K>)
        requires
            old(self).thread() matches Some(t) && step(
                t,
                word.id().event(WordEvent::GiveUp),
            ) is Some,
        ensures
            final(self)@ == old(self)@.push(word.id().event(WordEvent::GiveUp)),
            final(self).thread() == step(old(self).thread()->0, word.id().event(WordEvent::GiveUp)),
    {
        self.note(Ghost(word.id().event(WordEvent::GiveUp)));
    }

    /// Notes that the thread stops trying to claim a slot of a pool.
    pub(crate) fn give_up_slot(&mut self, masks: &Masks<K>)
        requires
            old(self).thread() matches Some(t) && step(
                t,
                masks.id().event(PoolEvent::GiveUp),
            ) is Some,
        ensures
            final(self)@ == old(self)@.push(masks.id().event(PoolEvent::GiveUp)),
            final(self).thread() == step(
                old(self).thread()->0,
                masks.id().event(PoolEvent::GiveUp),
            ),
    {
        self.note(Ghost(masks.id().event(PoolEvent::GiveUp)));
    }

    /// Notes that the thread stops trying to put its record into the list.
    pub(crate) fn give_up_record(&mut self)
        requires
            old(self).thread() matches Some(t) && step(t, stage(QueueEvent::GiveUp)) is Some,
        ensures
            final(self)@ == old(self)@.push(stage(QueueEvent::GiveUp)),
            final(self).thread() == step(old(self).thread()->0, stage(QueueEvent::GiveUp)),
    {
        self.note(Ghost(stage(QueueEvent::GiveUp)));
    }

    /// Notes that the thread leaves its record, which was not marked, behind.
    pub(crate) fn abandon(&mut self, index: u8)
        requires
            old(self).thread() matches Some(t) && step(
                t,
                stage(QueueEvent::Abandon { index }),
            ) is Some,
        ensures
            final(self)@ == old(self)@.push(stage(QueueEvent::Abandon { index })),
            final(self).thread() == step(
                old(self).thread()->0,
                stage(QueueEvent::Abandon { index }),
            ),
    {
        self.note(Ghost(stage(QueueEvent::Abandon { index })));
    }
}

/// A stage of the work on a list.
pub open spec fn stage(event: QueueEvent) -> Event {
    Event::Queue { place: Place::Nowhere, event }
}

} // verus!
