//! A flag that one thread sets and another can sleep on.

use vstd::prelude::*;

use crate::flat_combining::memory::event::{Event, WaiterEvent};
use crate::flat_combining::memory::word::WaiterWord;
use crate::flat_combining::memory::{Outside, Trace};
use crate::flat_combining::protocol::{is_settled, step, READY, UNREADY};

verus! {

/// A flag that starts unset and, once notified, stays set.
#[verifier::reject_recursive_types(K)]
pub struct Waiter<K = Outside> {
    futex: WaiterWord<K>,
}

/// The read of a waiter's word.
pub open spec fn asked(word: WaiterWord, value: u32) -> Event {
    word.event(WaiterEvent::Load { value })
}

/// All that a notification does.
pub open spec fn notified(word: WaiterWord, previous: u32) -> Seq<Event> {
    seq![
        word.event(WaiterEvent::Swap { new: READY, previous }),
        word.event(WaiterEvent::Wake { count: 1 }),
    ]
}

impl<K> Waiter<K> {
    /// A waiter that has not been notified.
    pub fn new() -> (waiter: Self)
        ensures
            waiter.word().starts_as(UNREADY),
    {
        Waiter { futex: WaiterWord::new(UNREADY) }
    }

    /// The word that threads sleep on.
    pub(crate) fn futex(&self) -> (word: &WaiterWord<K>)
        ensures
            word.id() == self.word(),
    {
        &self.futex
    }

    /// The word that threads sleep on.
    pub closed spec fn word(&self) -> WaiterWord {
        self.futex.id()
    }

    /// Whether the waiter has been notified: whether its word was just seen to
    /// be [`READY`].
    pub fn is_ready(&self, trace: &mut Trace<K>) -> (ready: bool)
        requires
            old(trace).thread() matches Some(t) && forall|value: u32| #[trigger]
                step(t, asked(self.word(), value)) is Some,
        ensures
            exists|value: u32|
                {
                    &&& final(trace)@ == old(trace)@.push(#[trigger] asked(self.word(), value))
                    &&& final(trace).thread() == step(
                        old(trace).thread()->0,
                        asked(self.word(), value),
                    )
                    &&& self.word().allows(WaiterEvent::Load { value })
                    &&& ready <==> value == READY
                },
    {
        proof {
            let t = old(trace).thread()->0;
            assert forall|value: u32| #[trigger]
                step(t, self.word().event(WaiterEvent::Load { value })) is Some by {
                assert(step(t, asked(self.word(), value)) is Some);
            }
        }
        let value = self.futex.load(trace);
        assert(trace@ == old(trace)@.push(asked(self.word(), value)));
        value == READY
    }

    /// Marks the waiter as notified, and wakes one thread that sleeps on it.
    ///
    /// Assumes that only one thread is ever waiting on this waiter.
    pub fn notify(&self, trace: &mut Trace<K>)
        requires
            old(trace).thread() matches Some(t) && is_settled(t.lock),
        ensures
            exists|previous: u32|
                {
                    &&& final(trace)@ == old(trace)@ + #[trigger] notified(self.word(), previous)
                    &&& self.word().allows(WaiterEvent::Swap { new: READY, previous })
                },
            self.word().allows(WaiterEvent::Wake { count: 1 }),
            final(trace).thread() == old(trace).thread(),
    {
        // Signal that we're ready.
        let previous = self.futex.swap(READY, trace);
        // Wake up one waiting thread.
        self.futex.wake(1, trace);
        assert(trace@ =~= old(trace)@ + notified(self.word(), previous));
    }
}

} // verus!
